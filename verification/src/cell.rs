//! Updates of the shared cells that hold counters and gauges.
//!
//! Verus knows nothing of what an atomic holds, so it does not check the calls on `AtomicU64` that
//! stand here. Each of them is recorded right next to it, in a value that nothing outside of this
//! file can make, and the contracts of all callers speak of these records.

use std::sync::atomic::{AtomicU64, Ordering};

use vstd::prelude::*;

verus! {

/// One atomic update of a cell.
#[derive(Debug, Clone, Copy, PartialEq, Eq, Structural)]
pub enum CellOp {
    /// Adds, wrapping around at the end of the range.
    Add(u64),
    /// Raises to a value where the cell holds less.
    Max(u64),
    /// Overwrites.
    Store(u64),
}

impl CellOp {
    /// What a cell that held `before` holds after the update.
    pub open spec fn result_spec(self, before: u64) -> u64 {
        match self {
            CellOp::Add(value) => if before + value <= u64::MAX {
                (before + value) as u64
            } else {
                (before + value - u64::MAX - 1) as u64
            },
            CellOp::Max(value) => if before < value {
                value
            } else {
                before
            },
            CellOp::Store(value) => value,
        }
    }

    /// What the cells hold after the update of `cell`, if `memory` is what they held before.
    pub open spec fn on(self, memory: Map<AtomicU64, u64>, cell: AtomicU64) -> Map<AtomicU64, u64> {
        memory.insert(cell, self.result_spec(memory[cell]))
    }

    /// What a cell that held `before` holds after the update.
    pub fn result(self, before: u64) -> (after: u64)
        ensures
            after == self.result_spec(before),
    {
        match self {
            CellOp::Add(value) => before.wrapping_add(value),
            CellOp::Max(value) => if before < value {
                value
            } else {
                before
            },
            CellOp::Store(value) => value,
        }
    }
}

/// The record of an update. Only [`apply`] and [`replace`] make one, right next to the atomic call
/// that it records. That the call was made, on this cell and with these numbers, is not checked by
/// Verus; what a caller does with the record is.
pub struct Applied {
    op: CellOp,
    after: u64,
    expected: Option<u64>,
    cell: Ghost<AtomicU64>,
}

impl Applied {
    /// The recorded update.
    pub closed spec fn op(self) -> CellOp {
        self.op
    }

    /// The cell that the record is of.
    pub closed spec fn cell(self) -> AtomicU64 {
        self.cell@
    }

    /// What the cell had to hold for the recorded update to take place, if that was asked for.
    pub closed spec fn expected(self) -> Option<u64> {
        self.expected
    }

    /// What the cell held right after the update.
    pub closed spec fn after_spec(self) -> u64 {
        self.after
    }

    /// Whether the value after the update is what the update makes of some value before it.
    pub open spec fn follows_from_op(self) -> bool {
        exists|before: u64| self.after_spec() == #[trigger] self.op().result_spec(before)
    }

    /// Whether the update led from what the cells held `before` to what they held `after`.
    pub open spec fn led(
        self,
        before: Map<AtomicU64, u64>,
        after: Map<AtomicU64, u64>,
    ) -> bool {
        &&& after == self.op().on(before, self.cell())
        &&& self.after_spec() == after[self.cell()]
        &&& self.expected() matches Some(expected) ==> before[self.cell()] == expected
    }

    /// What the cell held right after the update. Another thread may have updated it since.
    pub fn after(&self) -> (after: u64)
        ensures
            after == self.after_spec(),
    {
        self.after
    }
}

/// The record of a number that was read from a cell. Only [`load`] makes one, right next to the
/// atomic call that it records. That the number came from this call is not checked by Verus.
pub struct Loaded {
    value: u64,
    cell: Ghost<AtomicU64>,
}

impl Loaded {
    /// The number that was read.
    pub closed spec fn value_spec(self) -> u64 {
        self.value
    }

    /// The cell that it was read from.
    pub closed spec fn cell(self) -> AtomicU64 {
        self.cell@
    }

    /// Whether the number is what the cell held when the cells held `memory`.
    pub open spec fn read_in(self, memory: Map<AtomicU64, u64>) -> bool {
        self.value_spec() == memory[self.cell()]
    }

    /// The number that was read. The cell may have been updated since.
    pub fn value(&self) -> (value: u64)
        ensures
            value == self.value_spec(),
    {
        self.value
    }
}

/// Reads `cell`.
pub fn load(cell: &AtomicU64) -> (loaded: Loaded)
    ensures
        loaded.cell() == *cell,
{
    let value: u64 = cell.load(Ordering::Relaxed);
    Loaded { value, cell: Ghost(*cell) }
}

/// Carries `op` out on `cell`, in one atomic step.
pub fn apply(cell: &AtomicU64, op: CellOp) -> (applied: Applied)
    ensures
        applied.op() == op,
        applied.cell() == *cell,
        applied.expected() is None,
        applied.follows_from_op(),
{
    match op {
        CellOp::Add(value) => {
            let before: u64 = cell.fetch_add(value, Ordering::Relaxed);
            let after: u64 = op.result(before);
            Applied { op, after, expected: None, cell: Ghost(*cell) }
        },
        CellOp::Max(value) => {
            let before: u64 = cell.fetch_max(value, Ordering::Relaxed);
            let after: u64 = op.result(before);
            Applied { op, after, expected: None, cell: Ghost(*cell) }
        },
        CellOp::Store(value) => {
            cell.store(value, Ordering::Relaxed);
            assert(op.result_spec(0) == value);
            Applied { op, after: value, expected: None, cell: Ghost(*cell) }
        },
    }
}

/// The record of an exchange that did not take place. Only [`replace`] makes one, right next to the
/// atomic call that it records. That the call was made, on this cell and with these numbers, is not
/// checked by Verus.
pub struct Refused {
    actual: u64,
    expected: u64,
    next: u64,
    cell: Ghost<AtomicU64>,
}

impl Refused {
    /// The cell that was to be overwritten.
    pub closed spec fn cell(self) -> AtomicU64 {
        self.cell@
    }

    /// What the cell was expected to hold.
    pub closed spec fn expected(self) -> u64 {
        self.expected
    }

    /// What the cell was to be overwritten with.
    pub closed spec fn next(self) -> u64 {
        self.next
    }

    /// What the cell held instead.
    pub closed spec fn actual_spec(self) -> u64 {
        self.actual
    }

    /// What the cell held instead, for the next attempt.
    pub fn actual(&self) -> (actual: u64)
        ensures
            actual == self.actual_spec(),
    {
        self.actual
    }
}

/// What an exchange on `cell` comes to, from what the atomic operation returned: the exchange took
/// place exactly where that is `Ok`, and an `Err` holds what was found instead.
fn exchanged(
    cell: &AtomicU64,
    expected: u64,
    next: u64,
    returned: Result<u64, u64>,
) -> (outcome: Result<Applied, Refused>)
    ensures
        outcome is Ok <==> returned is Ok,
        outcome matches Ok(applied) ==> {
            &&& applied.op() == CellOp::Store(next)
            &&& applied.cell() == *cell
            &&& applied.expected() == Some(expected)
            &&& applied.after_spec() == next
            &&& applied.follows_from_op()
        },
        outcome matches Err(refused) ==> {
            &&& refused.cell() == *cell
            &&& refused.expected() == expected
            &&& refused.next() == next
            &&& returned == Err::<u64, u64>(refused.actual_spec())
        },
{
    match returned {
        Ok(before) => {
            let op = CellOp::Store(next);
            let after: u64 = op.result(before);
            Ok(Applied { op, after, expected: Some(expected), cell: Ghost(*cell) })
        },
        Err(actual) => Err(Refused { actual, expected, next, cell: Ghost(*cell) }),
    }
}

/// Overwrites `cell` with `next` if it still holds `expected`, in one atomic step. Otherwise, and
/// now and then for no reason, leaves it alone and returns what it holds. Either way the result is
/// the record of this exchange on this cell; whether it takes place rests on the other threads.
pub fn replace(cell: &AtomicU64, expected: u64, next: u64) -> (outcome: Result<Applied, Refused>)
    ensures
        outcome matches Ok(applied) ==> {
            &&& applied.op() == CellOp::Store(next)
            &&& applied.cell() == *cell
            &&& applied.expected() == Some(expected)
            &&& applied.after_spec() == next
            &&& applied.follows_from_op()
        },
        outcome matches Err(refused) ==> {
            &&& refused.cell() == *cell
            &&& refused.expected() == expected
            &&& refused.next() == next
        },
{
    let returned = cell.compare_exchange_weak(expected, next, Ordering::AcqRel, Ordering::Relaxed);
    exchanged(cell, expected, next, returned)
}

/// Raising a cell never rolls it back, and two such updates end at the same value in either order.
pub proof fn max_never_rolls_back(before: u64, a: u64, b: u64)
    ensures
        CellOp::Max(a).result_spec(before) >= before,
        CellOp::Max(a).result_spec(before) >= a,
        CellOp::Max(b).result_spec(CellOp::Max(a).result_spec(before)) == CellOp::Max(
            a,
        ).result_spec(CellOp::Max(b).result_spec(before)),
{
}

/// Whether the updates took place one after another: `memories` is what the cells held before the
/// first, between each two, and after the last.
pub open spec fn took_place(applied: Seq<Applied>, memories: Seq<Map<AtomicU64, u64>>) -> bool {
    &&& memories.len() == applied.len() + 1
    &&& forall|i: int|
        0 <= i < applied.len() ==> (#[trigger] applied[i]).led(memories[i], memories[i + 1])
}

/// What `cell` holds after the first `n` updates, if it held `before` and each of the updates that
/// is one of this cell makes the change of its place.
pub open spec fn changed(
    cell: AtomicU64,
    before: u64,
    applied: Seq<Applied>,
    changes: Seq<spec_fn(u64) -> u64>,
    n: int,
) -> u64
    decreases n,
{
    if n <= 0 {
        before
    } else if applied[n - 1].cell() == cell {
        changes[n - 1](changed(cell, before, applied, changes, n - 1))
    } else {
        changed(cell, before, applied, changes, n - 1)
    }
}

/// No update of a cell is lost and none counts twice, whether it is made in one step or by an
/// exchange that was computed from what the cell held: the cell ends with what all the changes,
/// each made once and in the order in which they took place, make of its first number.
pub proof fn no_update_is_lost(
    cell: AtomicU64,
    applied: Seq<Applied>,
    memories: Seq<Map<AtomicU64, u64>>,
    changes: Seq<spec_fn(u64) -> u64>,
)
    requires
        took_place(applied, memories),
        changes.len() == applied.len(),
        forall|i: int|
            0 <= i < applied.len() && (#[trigger] applied[i]).cell() == cell ==> (
            match applied[i].expected() {
                Some(expected) => applied[i].op() == CellOp::Store(changes[i](expected)),
                None => forall|before: u64|
                    #![trigger changes[i](before)]
                    changes[i](before) == applied[i].op().result_spec(before),
            }),
    ensures
        memories.last()[cell] == changed(
            cell,
            memories[0][cell],
            applied,
            changes,
            applied.len() as int,
        ),
    decreases applied.len(),
{
    if applied.len() > 0 {
        let n = applied.len() - 1;
        let earlier = applied.drop_last();
        let until = memories.drop_last();
        assert(took_place(earlier, until)) by {
            assert forall|i: int| 0 <= i < earlier.len() implies (#[trigger] earlier[i]).led(
                until[i],
                until[i + 1],
            ) by {
                assert(applied[i].led(memories[i], memories[i + 1]));
            }
        }
        assert forall|i: int|
            0 <= i < earlier.len() && (#[trigger] earlier[i]).cell() == cell implies (
        match earlier[i].expected() {
            Some(expected) => earlier[i].op() == CellOp::Store(changes.drop_last()[i](expected)),
            None => forall|before: u64|
                #![trigger changes.drop_last()[i](before)]
                changes.drop_last()[i](before) == earlier[i].op().result_spec(before),
        }) by {
            assert(applied[i].cell() == cell);
            assert(changes.drop_last()[i] == changes[i]);
        }
        no_update_is_lost(cell, earlier, until, changes.drop_last());
        lemma_changed_prefix(cell, memories[0][cell], applied, changes, n);
        assert(applied[n].led(memories[n], memories[n + 1]));
        assert(until.last() == memories[n]);
    }
}

/// The first `n` updates alone decide what a cell holds after them.
proof fn lemma_changed_prefix(
    cell: AtomicU64,
    before: u64,
    applied: Seq<Applied>,
    changes: Seq<spec_fn(u64) -> u64>,
    n: int,
)
    requires
        0 <= n < applied.len(),
        changes.len() == applied.len(),
    ensures
        changed(cell, before, applied.drop_last(), changes.drop_last(), n) == changed(
            cell,
            before,
            applied,
            changes,
            n,
        ),
    decreases n,
{
    if n > 0 {
        lemma_changed_prefix(cell, before, applied, changes, n - 1);
    }
}

/// Increments add up: two of them do what one of their sum does, in either order.
pub proof fn additions_add_up(before: u64, a: u64, b: u64)
    ensures
        CellOp::Add(b).result_spec(CellOp::Add(a).result_spec(before)) == CellOp::Add(
            a,
        ).result_spec(CellOp::Add(b).result_spec(before)),
        a + b <= u64::MAX ==> CellOp::Add(b).result_spec(CellOp::Add(a).result_spec(before))
            == CellOp::Add((a + b) as u64).result_spec(before),
        CellOp::Add(b).result_spec(CellOp::Add(a).result_spec(before)) == (before + a + b) % (
        u64::MAX + 1),
{
}

/// What the updates make of a cell: adding is addition modulo the range, raising gives the greater
/// of the two numbers, and overwriting gives the new one. No update changes another cell.
pub proof fn updates_do_what_they_say(
    memory: Map<AtomicU64, u64>,
    cell: AtomicU64,
    other: AtomicU64,
    value: u64,
    op: CellOp,
)
    requires
        other != cell,
    ensures
        CellOp::Add(value).on(memory, cell)[cell] == (memory[cell] + value) % 0x1_0000_0000_0000_0000,
        CellOp::Max(value).on(memory, cell)[cell] >= memory[cell],
        CellOp::Max(value).on(memory, cell)[cell] >= value,
        CellOp::Max(value).on(memory, cell)[cell] == memory[cell] || CellOp::Max(value).on(
            memory,
            cell,
        )[cell] == value,
        CellOp::Store(value).on(memory, cell)[cell] == value,
        op.on(memory, cell)[cell] == op.result_spec(memory[cell]),
        op.on(memory, cell)[other] == memory[other],
        op.on(memory, cell).dom() == memory.dom().insert(cell),
{
}

} // verus!
