//! Taking the raw observations of a histogram out of its bucket.

use vstd::prelude::*;

use crate::event::Double;
use crate::registry::HistogramCell;

verus! {

/// The observations that were taken out of a bucket. Only [`take_observations`] makes one.
pub struct Taken {
    values: Vec<Double>,
    cell: Ghost<HistogramCell>,
}

impl Taken {
    /// The observations that were taken out.
    pub closed spec fn values_spec(self) -> Seq<Double> {
        self.values@
    }

    /// The bucket that they were taken out of.
    pub closed spec fn cell(self) -> HistogramCell {
        self.cell@
    }

    /// The observations that were taken out.
    pub fn values(&self) -> (values: &Vec<Double>)
        ensures
            values@ == self.values_spec(),
    {
        &self.values
    }
}

/// Appends a block of observations to those that were taken before.
fn keep<V: Copy>(kept: &mut Vec<V>, block: &[V])
    ensures
        final(kept)@ == old(kept)@ + block@,
{
    for i in 0..block.len()
        invariant
            kept@ =~= old(kept)@ + block@.take(i as int),
    {
        kept.push(block[i]);
        assert(block@.take(i + 1) =~= block@.take(i as int).push(block@[i as int]));
    }
    assert(block@.take(block@.len() as int) =~= block@);
}

/// `AtomicBucket::clear_with`: empties the bucket of `cell` and hands out what was in it, block by
/// block. Which observations these are rests on the threads that record, so nothing is claimed of
/// them: another thread that is just recording may leave the bucket for the next time.
#[verifier::external_body]
pub(crate) fn take_observations(cell: &HistogramCell) -> (taken: Taken)
    ensures
        taken.cell() == *cell,
{
    let mut kept = Vec::new();
    cell.bucket.clear_with(|block| keep(&mut kept, block));
    let values = kept.into_iter().map(|value| Double { bits: value.to_bits() }).collect();
    Taken { values, cell: Ghost(*cell) }
}

} // verus!
