//! The in-process registry that stores every metric: one shared cell per kind and key.
//!
//! The registry itself is `metrics_util`'s. What it holds is described by three maps, from the key
//! that a metric was first registered with to the identity of its cell, and by three more, to what
//! the cell held when it was added. What it holds later is shared between threads and is not part
//! of that description; nor does it say how the cells of two registries relate.

use std::sync::atomic::AtomicU64;
use std::sync::Arc;

use metrics::Key;
use metrics_util::registry::{AtomicStorage, Registry, Storage};
use vstd::prelude::*;

use crate::event::Double;
use crate::key;
use crate::key::{KeyView, Label, MetricKey};

verus! {

/// Where the raw observations of one histogram collect: the bucket that `metrics_util`'s atomic
/// storage makes, shared between the registry and every handle of the metric.
#[verifier::external_body]
pub struct HistogramCell {
    pub bucket: <AtomicStorage as Storage<Key>>::Histogram,
}

/// A `metrics_util::registry::Registry` with atomic storage, keyed by `metrics::Key`.
#[verifier::external_body]
pub struct MetricRegistry {
    inner: Registry<Key, AtomicStorage>,
}

/// The counter cells of a registry, each under the key that it was first registered with.
pub uninterp spec fn counter_cells(registry: MetricRegistry) -> Map<KeyView, AtomicU64>;

/// The gauge cells of a registry, each under the key that it was first registered with.
pub uninterp spec fn gauge_cells(registry: MetricRegistry) -> Map<KeyView, AtomicU64>;

/// The histogram cells of a registry, each under the key that it was first registered with.
pub uninterp spec fn histogram_cells(registry: MetricRegistry) -> Map<KeyView, HistogramCell>;

/// What each counter cell of a registry held when it was added.
pub uninterp spec fn counter_starts(registry: MetricRegistry) -> Map<KeyView, u64>;

/// What each gauge cell of a registry held when it was added.
pub uninterp spec fn gauge_starts(registry: MetricRegistry) -> Map<KeyView, u64>;

/// Which observations each histogram cell of a registry held when it was added.
pub uninterp spec fn histogram_starts(registry: MetricRegistry) -> Map<KeyView, Seq<Double>>;

/// The identity of a shared cell.
pub open spec fn identity(cell: Arc<AtomicU64>) -> AtomicU64 {
    *cell
}

/// Whether no two of the keys name the same metric.
pub open spec fn distinct_keys<C>(cells: Map<KeyView, C>) -> bool {
    forall|a: KeyView, b: KeyView|
        cells.contains_key(a) && cells.contains_key(b) && #[trigger] key::same_key(a, b) ==> a == b
}

/// Whether no two keys share a cell.
pub open spec fn distinct_cells<C>(cells: Map<KeyView, C>) -> bool {
    forall|a: KeyView, b: KeyView|
        cells.contains_key(a) && cells.contains_key(b) && #[trigger] cells[a] == #[trigger] cells[b]
            ==> a == b
}

/// Whether `cell` is none of `cells`.
pub open spec fn is_fresh<C>(cells: Map<KeyView, C>, cell: C) -> bool {
    forall|known: KeyView| cells.contains_key(known) ==> #[trigger] cells[known] != cell
}

/// Whether no metric is stored yet under a key that names the same metric as `key`.
pub open spec fn is_new<C>(cells: Map<KeyView, C>, key: KeyView) -> bool {
    forall|known: KeyView| cells.contains_key(known) ==> !#[trigger] key::same_key(known, key)
}

/// What looking `key` up does: `cell` is the cell of the metric that `key` names and nothing else
/// changes, or, where there is none yet, `cell` is a new cell that is added under `key`.
pub open spec fn looked_up<C>(
    before: Map<KeyView, C>,
    after: Map<KeyView, C>,
    key: KeyView,
    cell: C,
) -> bool {
    &&& forall|known: KeyView|
        before.contains_key(known) && #[trigger] key::same_key(known, key) ==> after == before
            && before[known] == cell
    &&& is_new(before, key) ==> after == before.insert(key, cell) && is_fresh(before, cell)
}

/// What looking `key` up does to the record of what cells held when they were added: a new cell is
/// added with `start` in it.
pub open spec fn starts_after<C, S>(
    cells: Map<KeyView, C>,
    starts: Map<KeyView, S>,
    key: KeyView,
    start: S,
) -> Map<KeyView, S> {
    if is_new(cells, key) {
        starts.insert(key, start)
    } else {
        starts
    }
}

/// Whether `entries` lists every cell of `cells` once, under its key.
pub open spec fn lists_once<C>(entries: Seq<(KeyView, C)>, cells: Map<KeyView, C>) -> bool {
    let keys = entries.map_values(|entry: (KeyView, C)| entry.0);
    &&& keys.no_duplicates()
    &&& keys.to_set() == cells.dom()
    &&& forall|i: int| 0 <= i < entries.len() ==> (#[trigger] entries[i]).1 == cells[entries[i].0]
}

/// The keys and cells of a list of counter or gauge handles.
pub open spec fn shared_entries(handles: Seq<(MetricKey, Arc<AtomicU64>)>) -> Seq<
    (KeyView, AtomicU64),
> {
    handles.map_values(|handle: (MetricKey, Arc<AtomicU64>)| (handle.0@, *handle.1))
}

/// The keys and cells of a list of histogram handles.
pub open spec fn bucket_entries(handles: Seq<(MetricKey, HistogramCell)>) -> Seq<
    (KeyView, HistogramCell),
> {
    handles.map_values(|handle: (MetricKey, HistogramCell)| (handle.0@, handle.1))
}

/// `Registry::atomic`: a registry without metrics.
#[verifier::external_body]
pub(crate) fn new_registry() -> (registry: MetricRegistry)
    ensures
        counter_cells(registry).dom() == Set::<KeyView>::empty(),
        gauge_cells(registry).dom() == Set::<KeyView>::empty(),
        histogram_cells(registry).dom() == Set::<KeyView>::empty(),
{
    MetricRegistry { inner: Registry::atomic() }
}

/// `Registry::get_or_create_counter`: hands out the counter cell of the metric that `key` names,
/// after adding a new one, which is no other counter's and no gauge's and holds zero, where there is
/// none. The other kinds are not touched.
#[verifier::external_body]
pub(crate) fn counter_cell(
    registry: &mut MetricRegistry,
    key: &MetricKey,
) -> (cell: Arc<AtomicU64>)
    ensures
        looked_up(counter_cells(*old(registry)), counter_cells(*final(registry)), key@, *cell),
        is_new(counter_cells(*old(registry)), key@) ==> is_fresh(
            gauge_cells(*old(registry)),
            *cell,
        ),
        gauge_cells(*final(registry)) == gauge_cells(*old(registry)),
        histogram_cells(*final(registry)) == histogram_cells(*old(registry)),
        counter_starts(*final(registry)) == starts_after(
            counter_cells(*old(registry)),
            counter_starts(*old(registry)),
            key@,
            0,
        ),
        gauge_starts(*final(registry)) == gauge_starts(*old(registry)),
        histogram_starts(*final(registry)) == histogram_starts(*old(registry)),
{
    let labels = key.labels.iter().map(|l| metrics::Label::new(l.key.clone(), l.value.clone()));
    let key = Key::from_parts(key.name.clone(), labels.collect::<Vec<metrics::Label>>());
    registry.inner.get_or_create_counter(&key, |cell| cell.clone())
}

/// `Registry::get_or_create_gauge`: hands out the gauge cell of the metric that `key` names, after
/// adding a new one, which is no other gauge's and no counter's and holds the bits of zero, where
/// there is none. The other kinds are not touched.
#[verifier::external_body]
pub(crate) fn gauge_cell(registry: &mut MetricRegistry, key: &MetricKey) -> (cell: Arc<AtomicU64>)
    ensures
        looked_up(gauge_cells(*old(registry)), gauge_cells(*final(registry)), key@, *cell),
        is_new(gauge_cells(*old(registry)), key@) ==> is_fresh(
            counter_cells(*old(registry)),
            *cell,
        ),
        counter_cells(*final(registry)) == counter_cells(*old(registry)),
        histogram_cells(*final(registry)) == histogram_cells(*old(registry)),
        counter_starts(*final(registry)) == counter_starts(*old(registry)),
        gauge_starts(*final(registry)) == starts_after(
            gauge_cells(*old(registry)),
            gauge_starts(*old(registry)),
            key@,
            0,
        ),
        histogram_starts(*final(registry)) == histogram_starts(*old(registry)),
{
    let labels = key.labels.iter().map(|l| metrics::Label::new(l.key.clone(), l.value.clone()));
    let key = Key::from_parts(key.name.clone(), labels.collect::<Vec<metrics::Label>>());
    registry.inner.get_or_create_gauge(&key, |cell| cell.clone())
}

/// `Registry::get_or_create_histogram`: hands out the histogram cell of the metric that `key`
/// names, after adding a new one, which is no other histogram's and is empty, where there is none.
/// The other kinds are not touched.
#[verifier::external_body]
pub(crate) fn histogram_cell(
    registry: &mut MetricRegistry,
    key: &MetricKey,
) -> (cell: HistogramCell)
    ensures
        looked_up(histogram_cells(*old(registry)), histogram_cells(*final(registry)), key@, cell),
        counter_cells(*final(registry)) == counter_cells(*old(registry)),
        gauge_cells(*final(registry)) == gauge_cells(*old(registry)),
        counter_starts(*final(registry)) == counter_starts(*old(registry)),
        gauge_starts(*final(registry)) == gauge_starts(*old(registry)),
        histogram_starts(*final(registry)) == starts_after(
            histogram_cells(*old(registry)),
            histogram_starts(*old(registry)),
            key@,
            Seq::<Double>::empty(),
        ),
{
    let labels = key.labels.iter().map(|l| metrics::Label::new(l.key.clone(), l.value.clone()));
    let key = Key::from_parts(key.name.clone(), labels.collect::<Vec<metrics::Label>>());
    registry.inner.get_or_create_histogram(&key, |bucket| HistogramCell { bucket: bucket.clone() })
}

/// `Registry::get_counter_handles`: every counter with its cell, once, in no particular order.
#[verifier::external_body]
pub(crate) fn counter_handles(
    registry: &MetricRegistry,
) -> (handles: Vec<(MetricKey, Arc<AtomicU64>)>)
    ensures
        lists_once(shared_entries(handles@), counter_cells(*registry)),
{
    let label = |l: &metrics::Label| Label { key: l.key().into(), value: l.value().into() };
    let labels = |k: &Key| k.labels().map(label).collect();
    let metric = |k: &Key| MetricKey { name: k.name().into(), labels: labels(k) };
    registry.inner.get_counter_handles().into_iter().map(|(k, cell)| (metric(&k), cell)).collect()
}

/// `Registry::get_gauge_handles`: every gauge with its cell, once, in no particular order.
#[verifier::external_body]
pub(crate) fn gauge_handles(
    registry: &MetricRegistry,
) -> (handles: Vec<(MetricKey, Arc<AtomicU64>)>)
    ensures
        lists_once(shared_entries(handles@), gauge_cells(*registry)),
{
    let label = |l: &metrics::Label| Label { key: l.key().into(), value: l.value().into() };
    let labels = |k: &Key| k.labels().map(label).collect();
    let metric = |k: &Key| MetricKey { name: k.name().into(), labels: labels(k) };
    registry.inner.get_gauge_handles().into_iter().map(|(k, cell)| (metric(&k), cell)).collect()
}

/// `Registry::get_histogram_handles`: every histogram with its cell, once, in no particular order.
#[verifier::external_body]
pub(crate) fn histogram_handles(
    registry: &MetricRegistry,
) -> (handles: Vec<(MetricKey, HistogramCell)>)
    ensures
        lists_once(bucket_entries(handles@), histogram_cells(*registry)),
{
    let label = |l: &metrics::Label| Label { key: l.key().into(), value: l.value().into() };
    let labels = |k: &Key| k.labels().map(label).collect();
    let metric = |k: &Key| MetricKey { name: k.name().into(), labels: labels(k) };
    let handles = registry.inner.get_histogram_handles().into_iter();
    handles.map(|(k, bucket)| (metric(&k), HistogramCell { bucket })).collect()
}

/// Looking a key up keeps the keys distinct, the cells distinct, and every cell in its place.
pub proof fn lookup_keeps_cells<C>(
    before: Map<KeyView, C>,
    after: Map<KeyView, C>,
    key: KeyView,
    cell: C,
)
    requires
        looked_up(before, after, key, cell),
    ensures
        distinct_keys(before) ==> distinct_keys(after),
        distinct_cells(before) ==> distinct_cells(after),
        forall|known: KeyView|
            before.contains_key(known) ==> #[trigger] after.contains_key(known) && after[known]
                == before[known],
        exists|known: KeyView| #[trigger]
            after.contains_key(known) && key::same_key(known, key) && after[known] == cell,
        forall|known: KeyView| #[trigger]
            after.contains_key(known) && !before.contains_key(known) ==> is_new(before, key)
                && known == key && after[known] == cell,
{
    key::same_key_is_an_equivalence(key, key, key);
    if is_new(before, key) {
        assert(!before.contains_key(key));
        assert(after.contains_key(key));
        if distinct_keys(before) {
            assert forall|a: KeyView, b: KeyView|
                after.contains_key(a) && after.contains_key(b) && #[trigger] key::same_key(
                    a,
                    b,
                ) implies a == b by {
                key::same_key_is_an_equivalence(a, b, a);
            }
        }
    } else {
        let known = choose|known: KeyView|
            before.contains_key(known) && #[trigger] key::same_key(known, key);
        assert(after.contains_key(known));
    }
}

/// Registering a metric again, under any key that names it, hands out the cell that it already
/// has and adds nothing: every handle of a metric and every snapshot share one cell.
pub proof fn lookups_share_the_cell<C>(
    cells: Map<KeyView, C>,
    once: Map<KeyView, C>,
    twice: Map<KeyView, C>,
    key: KeyView,
    again: KeyView,
    cell: C,
    cell_again: C,
)
    requires
        distinct_keys(cells),
        key::same_key(key, again),
        looked_up(cells, once, key, cell),
        looked_up(once, twice, again, cell_again),
    ensures
        cell_again == cell,
        twice == once,
        exists|known: KeyView| #[trigger]
            once.contains_key(known) && key::same_key(known, key) && once[known] == cell,
{
    if exists|known: KeyView|
        cells.contains_key(known) && #[trigger] key::same_key(known, key) {
        let known = choose|known: KeyView|
            cells.contains_key(known) && #[trigger] key::same_key(known, key);
        key::same_key_is_an_equivalence(known, key, again);
        assert(once.contains_key(known));
    } else {
        key::same_key_is_an_equivalence(key, key, again);
        assert(once.contains_key(key));
    }
}

/// A metric that was registered is in every later list of its kind, with the cell that its handle
/// updates.
pub proof fn registered_metric_is_listed<C>(
    before: Map<KeyView, C>,
    after: Map<KeyView, C>,
    key: KeyView,
    cell: C,
    entries: Seq<(KeyView, C)>,
)
    requires
        looked_up(before, after, key, cell),
        lists_once(entries, after),
    ensures
        exists|i: int|
            0 <= i < entries.len() && key::same_key((#[trigger] entries[i]).0, key) && entries[i].1
                == cell,
{
    key::same_key_is_an_equivalence(key, key, key);
    let known = if exists|known: KeyView|
        before.contains_key(known) && #[trigger] key::same_key(known, key) {
        choose|known: KeyView| before.contains_key(known) && #[trigger] key::same_key(known, key)
    } else {
        key
    };
    let keys = entries.map_values(|entry: (KeyView, C)| entry.0);
    assert(after.dom().contains(known));
    assert(keys.to_set().contains(known));
    let i = choose|i: int| 0 <= i < keys.len() && keys[i] == known;
    assert(entries[i].0 == known);
}

/// A list of entries lists cells once where each of its entries is a cell under its own key, no key
/// occurs twice, and every key is there.
pub proof fn lists_are_complete<C>(entries: Seq<(KeyView, C)>, cells: Map<KeyView, C>)
    ensures
        lists_once(entries, cells) <==> {
            &&& forall|i: int|
                0 <= i < entries.len() ==> cells.contains_key((#[trigger] entries[i]).0)
                    && entries[i].1 == cells[entries[i].0]
            &&& forall|i: int, j: int|
                0 <= i < j < entries.len() ==> (#[trigger] entries[i]).0 != (
                #[trigger] entries[j]).0
            &&& forall|key: KeyView| #[trigger]
                cells.contains_key(key) ==> exists|i: int|
                    0 <= i < entries.len() && (#[trigger] entries[i]).0 == key
        },
{
    let keys = entries.map_values(|entry: (KeyView, C)| entry.0);
    if lists_once(entries, cells) {
        assert forall|i: int| 0 <= i < entries.len() implies cells.contains_key(
            (#[trigger] entries[i]).0,
        ) && entries[i].1 == cells[entries[i].0] by {
            assert(keys.to_set().contains(keys[i]));
        }
        assert forall|i: int, j: int| 0 <= i < j < entries.len() implies (
        #[trigger] entries[i]).0 != (#[trigger] entries[j]).0 by {
            assert(keys[i] != keys[j]);
        }
        assert forall|key: KeyView| #[trigger] cells.contains_key(key) implies exists|i: int|
            0 <= i < entries.len() && (#[trigger] entries[i]).0 == key by {
            assert(keys.to_set().contains(key));
            let i = choose|i: int| 0 <= i < keys.len() && keys[i] == key;
            assert(entries[i].0 == key);
        }
    }
    if (forall|i: int|
        0 <= i < entries.len() ==> cells.contains_key((#[trigger] entries[i]).0) && entries[i].1
            == cells[entries[i].0]) && (forall|i: int, j: int|
        0 <= i < j < entries.len() ==> (#[trigger] entries[i]).0 != (#[trigger] entries[j]).0) && (
    forall|key: KeyView| #[trigger]
        cells.contains_key(key) ==> exists|i: int|
            0 <= i < entries.len() && (#[trigger] entries[i]).0 == key) {
        assert forall|i: int, j: int| 0 <= i < keys.len() && 0 <= j < keys.len() && i
            != j implies keys[i] != keys[j] by {
            if i < j {
                assert(entries[i].0 != entries[j].0);
            } else {
                assert(entries[j].0 != entries[i].0);
            }
        }
        assert forall|key: KeyView| keys.to_set().contains(key) <==> #[trigger]
            cells.dom().contains(key) by {
            if keys.to_set().contains(key) {
                let i = choose|i: int| 0 <= i < keys.len() && keys[i] == key;
                assert(cells.contains_key(entries[i].0));
            }
            if cells.dom().contains(key) {
                assert(cells.contains_key(key));
                let i = choose|i: int| 0 <= i < entries.len() && (#[trigger] entries[i]).0 == key;
                assert(keys[i] == key);
            }
        }
        assert(keys.to_set() =~= cells.dom());
    }
}

/// The entries of a list of handles are its keys and cells, one for each handle, in order.
pub proof fn entries_show_every_handle(
    shared: Seq<(MetricKey, Arc<AtomicU64>)>,
    buckets: Seq<(MetricKey, HistogramCell)>,
)
    ensures
        shared_entries(shared).len() == shared.len(),
        forall|i: int|
            0 <= i < shared.len() ==> (#[trigger] shared_entries(shared)[i]).0 == shared[i].0@
                && shared_entries(shared)[i].1 == *shared[i].1,
        bucket_entries(buckets).len() == buckets.len(),
        forall|i: int|
            0 <= i < buckets.len() ==> (#[trigger] bucket_entries(buckets)[i]).0 == buckets[i].0@
                && bucket_entries(buckets)[i].1 == buckets[i].1,
{
}

/// Looking a key up adds a cell exactly where no known key names the metric, and what a cell held
/// when it was added is remembered from then on.
pub proof fn lookups_add_what_is_missing<C, S>(
    before: Map<KeyView, C>,
    after: Map<KeyView, C>,
    starts: Map<KeyView, S>,
    key: KeyView,
    cell: C,
    start: S,
)
    requires
        looked_up(before, after, key, cell),
    ensures
        (exists|known: KeyView| before.contains_key(known) && #[trigger] key::same_key(known, key))
            ==> after == before && starts_after(before, starts, key, start) == starts,
        (forall|known: KeyView|
            before.contains_key(known) ==> !#[trigger] key::same_key(known, key)) ==> {
            &&& after.contains_key(key)
            &&& after[key] == cell
            &&& after.dom() == before.dom().insert(key)
            &&& forall|known: KeyView|
                before.contains_key(known) ==> #[trigger] after[known] == before[known]
                    && before[known] != cell
            &&& starts_after(before, starts, key, start)[key] == start
            &&& starts_after(before, starts, key, start).dom() == starts.dom().insert(key)
            &&& forall|known: KeyView|
                known != key ==> #[trigger] starts_after(before, starts, key, start)[known]
                    == starts[known]
        },
{
    key::same_key_is_an_equivalence(key, key, key);
}

} // verus!
