//! One sketch per histogram, kept from one snapshot to the next.
//!
//! Every tick drains the raw observations of a histogram into its sketch. The sketch stays, so
//! counts and quantiles are cumulative, and memory is bounded by the number of distinct keys, not
//! by the number of observations.

use vstd::prelude::*;

use crate::key::{KeyView, MetricKey};

verus! {

/// A table from metric keys to sketches of any type.
#[derive(Debug)]
pub struct Sketches<T> {
    entries: Vec<(MetricKey, T)>,
}

/// The position of `key` in a list of entries.
spec fn holds_at<T>(entries: Seq<(MetricKey, T)>, key: KeyView, i: int) -> bool {
    0 <= i < entries.len() && entries[i].0@ == key
}

/// The keys and sketches of a list of entries.
spec fn table<T>(entries: Seq<(MetricKey, T)>) -> Map<KeyView, T> {
    Map::new(
        |key: KeyView| exists|i: int| holds_at(entries, key, i),
        |key: KeyView| entries[choose|i: int| holds_at(entries, key, i)].1,
    )
}

/// Whether no key occurs twice in a list of entries.
spec fn unique<T>(entries: Seq<(MetricKey, T)>) -> bool {
    forall|key: KeyView, i: int, j: int|
        #[trigger] holds_at(entries, key, i) && #[trigger] holds_at(entries, key, j) ==> i == j
}

/// The sketch in a list without repeated keys is the one at the key's only position.
proof fn lemma_table_at<T>(entries: Seq<(MetricKey, T)>, key: KeyView, i: int)
    requires
        unique(entries),
        holds_at(entries, key, i),
    ensures
        table(entries).contains_key(key),
        table(entries)[key] == entries[i].1,
{
}

/// Filling a key's position with the last entry takes the key out of the table.
proof fn lemma_swap_remove<T>(before: Seq<(MetricKey, T)>, key: KeyView, index: int)
    requires
        unique(before),
        holds_at(before, key, index),
    ensures
        unique(before.update(index, before.last()).drop_last()),
        table(before.update(index, before.last()).drop_last()) == table(before).remove(key),
{
    let after = before.update(index, before.last()).drop_last();
    let last = before.len() - 1;
    // Where an entry of the shortened list stood before.
    let old_place = |i: int| if i == index { last } else { i };
    assert forall|k: KeyView, i: int| #[trigger] holds_at(after, k, i) implies holds_at(
        before,
        k,
        old_place(i),
    ) && old_place(i) != index && after[i] == before[old_place(i)] by {}
    assert(unique(after)) by {
        assert forall|k: KeyView, i: int, j: int|
            #[trigger] holds_at(after, k, i) && #[trigger] holds_at(after, k, j) implies i == j by {
            assert(holds_at(before, k, old_place(i)) && holds_at(before, k, old_place(j)));
        }
    }
    assert forall|k: KeyView| #[trigger]
        table(after).contains_key(k) == table(before).remove(key).contains_key(k) by {
        if table(after).contains_key(k) {
            let i = choose|i: int| holds_at(after, k, i);
            assert(holds_at(before, k, old_place(i)));
            assert(k != key);
        }
        if table(before).contains_key(k) && k != key {
            let i = choose|i: int| holds_at(before, k, i);
            assert(i != index);
            assert(holds_at(after, k, if i == last { index } else { i }));
        }
    }
    assert forall|k: KeyView| table(after).contains_key(k) implies #[trigger] table(after)[k]
        == table(before).remove(key)[k] by {
        let i = choose|i: int| holds_at(after, k, i);
        lemma_table_at(after, k, i);
        assert(holds_at(before, k, old_place(i)));
        lemma_table_at(before, k, old_place(i));
        assert(k != key);
    }
    assert(table(after) =~= table(before).remove(key));
}

/// Appending an entry with a new key adds it to the table.
proof fn lemma_append<T>(before: Seq<(MetricKey, T)>, added: (MetricKey, T))
    requires
        unique(before),
        forall|i: int| !holds_at(before, added.0@, i),
    ensures
        unique(before.push(added)),
        holds_at(before.push(added), added.0@, before.len() as int),
        table(before.push(added)) == table(before).insert(added.0@, added.1),
{
    let after = before.push(added);
    assert forall|k: KeyView, i: int| #[trigger]
        holds_at(after, k, i) == (holds_at(before, k, i) || (i == before.len() && k == added.0@)) by {
    }
    assert(unique(after)) by {
        assert forall|k: KeyView, i: int, j: int|
            #[trigger] holds_at(after, k, i) && #[trigger] holds_at(after, k, j) implies i == j by {
            if i < before.len() {
                assert(holds_at(before, k, i));
            }
            if j < before.len() {
                assert(holds_at(before, k, j));
            }
        }
    }
    assert(holds_at(after, added.0@, before.len() as int));
    assert forall|k: KeyView| #[trigger]
        table(after).contains_key(k) == table(before).insert(added.0@, added.1).contains_key(k) by {
        if table(after).contains_key(k) {
            let i = choose|i: int| holds_at(after, k, i);
            assert(holds_at(before, k, i) || k == added.0@);
        }
        if table(before).contains_key(k) {
            let i = choose|i: int| holds_at(before, k, i);
            assert(holds_at(after, k, i));
        }
    }
    assert forall|k: KeyView| table(after).contains_key(k) implies #[trigger] table(after)[k]
        == table(before).insert(added.0@, added.1)[k] by {
        let i = choose|i: int| holds_at(after, k, i);
        lemma_table_at(after, k, i);
        if i < before.len() {
            assert(holds_at(before, k, i));
            lemma_table_at(before, k, i);
        }
    }
    assert(table(after) =~= table(before).insert(added.0@, added.1));
}

impl<T> View for Sketches<T> {
    type V = Map<KeyView, T>;

    closed spec fn view(&self) -> Map<KeyView, T> {
        table(self.entries@)
    }
}

impl<T> Sketches<T> {
    /// Whether no key occurs twice.
    pub closed spec fn well_formed(&self) -> bool {
        unique(self.entries@)
    }

    /// A table without sketches.
    pub fn new() -> (sketches: Self)
        ensures
            sketches.well_formed(),
            sketches@ == Map::<KeyView, T>::empty(),
    {
        let sketches = Sketches { entries: Vec::new() };
        assert(sketches@ =~= Map::<KeyView, T>::empty());
        sketches
    }

    /// How many keys have a sketch.
    pub fn len(&self) -> (len: usize)
        requires
            self.well_formed(),
        ensures
            len == self@.dom().len(),
            self@.dom().finite(),
    {
        proof {
            let keys = self.entries@.map_values(|entry: (MetricKey, T)| entry.0@);
            assert forall|i: int, j: int|
                0 <= i < keys.len() && 0 <= j < keys.len() && i != j implies keys[i] != keys[j] by {
                if keys[i] == keys[j] {
                    assert(holds_at(self.entries@, keys[i], i));
                    assert(holds_at(self.entries@, keys[i], j));
                }
            }
            assert forall|key: KeyView| keys.to_set().contains(key) <==> #[trigger]
                self@.dom().contains(key) by {
                if keys.to_set().contains(key) {
                    let i = choose|i: int| 0 <= i < keys.len() && keys[i] == key;
                    assert(holds_at(self.entries@, key, i));
                }
                if self@.dom().contains(key) {
                    let i = choose|i: int| holds_at(self.entries@, key, i);
                    assert(keys[i] == key);
                }
            }
            assert(keys.to_set() =~= self@.dom());
            keys.unique_seq_to_set();
        }
        self.entries.len()
    }

    /// The position of `key`, if it has a sketch.
    fn position(&self, key: &MetricKey) -> (position: Option<usize>)
        ensures
            position matches Some(i) ==> holds_at(self.entries@, key@, i as int),
            position is None ==> forall|i: int| !holds_at(self.entries@, key@, i),
    {
        for i in 0..self.entries.len()
            invariant
                forall|j: int| 0 <= j < i ==> !#[trigger] holds_at(self.entries@, key@, j),
        {
            if self.entries[i].0.same_as(key) {
                return Some(i);
            }
        }
        None
    }

    /// Takes the sketch of `key` out of the table, or makes one with `fresh` where there is none.
    pub fn take<N: Fn() -> T>(&mut self, key: &MetricKey, fresh: &N) -> (sketch: T)
        requires
            old(self).well_formed(),
            !old(self)@.contains_key(key@) ==> fresh.requires(()),
        ensures
            final(self).well_formed(),
            final(self)@ == old(self)@.remove(key@),
            old(self)@.contains_key(key@) ==> sketch == old(self)@[key@],
            !old(self)@.contains_key(key@) ==> fresh.ensures((), sketch),
    {
        match self.position(key) {
            Some(i) => {
                proof {
                    lemma_table_at(self.entries@, key@, i as int);
                    lemma_swap_remove(self.entries@, key@, i as int);
                }
                let entry = self.entries.swap_remove(i);
                entry.1
            },
            None => {
                assert(self@.remove(key@) =~= self@);
                fresh()
            },
        }
    }

    /// Puts a sketch into the table, under a key that has none.
    pub fn put(&mut self, key: MetricKey, sketch: T)
        requires
            old(self).well_formed(),
            !old(self)@.contains_key(key@),
        ensures
            final(self).well_formed(),
            final(self)@ == old(self)@.insert(key@, sketch),
    {
        proof {
            assert forall|i: int| !holds_at(self.entries@, key@, i) by {
                if holds_at(self.entries@, key@, i) {
                    lemma_table_at(self.entries@, key@, i);
                }
            }
            lemma_append(self.entries@, (key, sketch));
        }
        self.entries.push((key, sketch));
    }
}

} // verus!
