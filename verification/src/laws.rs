//! What holds of registrations, updates and snapshots together.
//!
//! The numbers inside the cells are shared between threads, so no contract says what they are.
//! The laws here speak of a `memory`, what the cells hold at one time, and of readings that were
//! all made in it: that no update comes between them.

use std::sync::atomic::AtomicU64;

use vstd::prelude::*;

use crate::cell::{CellOp, Loaded};
use crate::event;
use crate::event::Double;
use crate::key;
use crate::key::{KeyView, MetricKey};
use crate::poller;
use crate::recorder;
use crate::registry;
use crate::registry::HistogramCell;

verus! {

broadcast use vstd::multiset::group_multiset_axioms;

/// What each metric of `cells` stands at.
pub open spec fn numbers_in(
    cells: Map<KeyView, AtomicU64>,
    memory: Map<AtomicU64, u64>,
) -> Map<KeyView, u64> {
    cells.map_values(|cell: AtomicU64| memory[cell])
}

/// Whether all the readings were made when the cells held `memory`.
pub open spec fn all_read_in(
    readings: Seq<(MetricKey, Loaded)>,
    memory: Map<AtomicU64, u64>,
) -> bool {
    forall|i: int| 0 <= i < readings.len() ==> (#[trigger] readings[i]).1.read_in(memory)
}

/// Whether two recorders have the same metrics, and counters and gauges that stand at the same
/// numbers. Their levels, scopes and filters may differ.
pub open spec fn alike(
    a: recorder::RecorderView,
    a_memory: Map<AtomicU64, u64>,
    b: recorder::RecorderView,
    b_memory: Map<AtomicU64, u64>,
) -> bool {
    &&& numbers_in(a.counters, a_memory) == numbers_in(b.counters, b_memory)
    &&& numbers_in(a.gauges, a_memory) == numbers_in(b.gauges, b_memory)
    &&& a.histograms.dom() == b.histograms.dom()
}

/// Two lists of the same things, none of which occurs twice, differ in their order only.
pub(crate) proof fn lemma_same_set_same_multiset<A>(a: Seq<A>, b: Seq<A>)
    requires
        a.no_duplicates(),
        b.no_duplicates(),
        forall|x: A| a.contains(x) <==> b.contains(x),
    ensures
        a.to_multiset() == b.to_multiset(),
{
    a.lemma_multiset_has_no_duplicates();
    b.lemma_multiset_has_no_duplicates();
    a.to_multiset_ensures();
    b.to_multiset_ensures();
    assert forall|x: A| #[trigger] a.to_multiset().count(x) == b.to_multiset().count(x) by {
        assert(a.contains(x) <==> a.to_multiset().count(x) > 0);
        assert(b.contains(x) <==> b.to_multiset().count(x) > 0);
        if a.contains(x) {
            assert(a.to_multiset().contains(x));
            assert(b.to_multiset().contains(x));
        }
    }
    assert(a.to_multiset() =~= b.to_multiset());
}

/// Mapping two lists that differ in their order only gives two such lists.
proof fn lemma_map_keeps_multiset<A, B>(a: Seq<A>, b: Seq<A>, f: spec_fn(A) -> B)
    requires
        a.to_multiset() == b.to_multiset(),
    ensures
        a.map_values(f).to_multiset() == b.map_values(f).to_multiset(),
    decreases a.len(),
{
    a.to_multiset_ensures();
    b.to_multiset_ensures();
    if a.len() == 0 {
        assert(a.map_values(f) =~= b.map_values(f));
    } else {
        let last = a.len() - 1;
        let x = a[last];
        assert(a.contains(x));
        assert(a.to_multiset().count(x) > 0);
        assert(b.contains(x));
        let i = choose|i: int| 0 <= i < b.len() && b[i] == x;
        assert(a.remove(last).to_multiset() == a.to_multiset().remove(x));
        assert(b.remove(i).to_multiset() == b.to_multiset().remove(x));
        lemma_map_keeps_multiset(a.remove(last), b.remove(i), f);
        lemma_put_back(a.map_values(f), last);
        lemma_put_back(b.map_values(f), i);
        assert(a.map_values(f).remove(last) =~= a.remove(last).map_values(f));
        assert(b.map_values(f).remove(i) =~= b.remove(i).map_values(f));
    }
}

/// What is taken out of a list and put back leaves it as it was, up to order.
proof fn lemma_put_back<A>(s: Seq<A>, i: int)
    requires
        0 <= i < s.len(),
    ensures
        s.remove(i).to_multiset().insert(s[i]) == s.to_multiset(),
{
    s.to_multiset_ensures();
    assert(s.contains(s[i]));
    assert(s.to_multiset().count(s[i]) > 0);
    assert(s.remove(i).to_multiset() == s.to_multiset().remove(s[i]));
    assert(s.to_multiset().remove(s[i]).insert(s[i]) =~= s.to_multiset());
}

/// Filtering two lists that differ in their order only gives two such lists.
pub(crate) proof fn lemma_filter_keeps_multiset<A>(a: Seq<A>, b: Seq<A>, f: spec_fn(A) -> bool)
    requires
        a.to_multiset() == b.to_multiset(),
    ensures
        a.filter(f).to_multiset() == b.filter(f).to_multiset(),
{
    lemma_filter_multiset(a, f);
    lemma_filter_multiset(b, f);
    assert(a.filter(f).to_multiset() =~= b.filter(f).to_multiset());
}

/// A filtered list holds each thing that passes as often as the whole list does.
pub(crate) proof fn lemma_filter_multiset<A>(s: Seq<A>, f: spec_fn(A) -> bool)
    ensures
        forall|x: A| #[trigger]
            s.filter(f).to_multiset().count(x) == if f(x) {
                s.to_multiset().count(x)
            } else {
                0
            },
    decreases s.len(),
{
    reveal(Seq::filter);
    s.to_multiset_ensures();
    s.filter(f).to_multiset_ensures();
    if s.len() == 0 {
        assert(s.filter(f) =~= s);
        assert forall|x: A| #[trigger]
            s.filter(f).to_multiset().count(x) == if f(x) {
                s.to_multiset().count(x)
            } else {
                0
            } by {
            assert(!s.contains(x));
        }
    } else {
        let rest = s.drop_last();
        lemma_filter_multiset(rest, f);
        rest.to_multiset_ensures();
        rest.filter(f).to_multiset_ensures();
        assert(rest.push(s.last()) =~= s);
        assert(s.to_multiset() =~= rest.to_multiset().insert(s.last()));
    }
}

/// The loaded numbers of one kind, read in one memory: each metric once, with what it stands at.
proof fn lemma_loaded_numbers(
    readings: Seq<(MetricKey, Loaded)>,
    cells: Map<KeyView, AtomicU64>,
    memory: Map<AtomicU64, u64>,
)
    requires
        registry::lists_once(recorder::reading_entries(readings), cells),
        all_read_in(readings, memory),
    ensures
        poller::loaded_numbers(readings).no_duplicates(),
        forall|pair: (KeyView, u64)| #[trigger]
            poller::loaded_numbers(readings).contains(pair) <==> numbers_in(
                cells,
                memory,
            ).contains_key(pair.0) && numbers_in(cells, memory)[pair.0] == pair.1,
{
    let entries = recorder::reading_entries(readings);
    let keys = entries.map_values(|entry: (KeyView, AtomicU64)| entry.0);
    let numbers = poller::loaded_numbers(readings);
    assert forall|i: int| 0 <= i < readings.len() implies keys.to_set().contains(
        #[trigger] keys[i],
    ) by {}
    assert forall|i: int| 0 <= i < readings.len() implies numbers_in(cells, memory).contains_key(
        (#[trigger] numbers[i]).0,
    ) && numbers_in(cells, memory)[numbers[i].0] == numbers[i].1 by {
        assert(keys.to_set().contains(keys[i]));
        assert(entries[i].1 == cells[entries[i].0]);
        assert(readings[i].1.read_in(memory));
    }
    assert forall|i: int, j: int| 0 <= i < numbers.len() && 0 <= j < numbers.len() && i
        != j implies numbers[i] != numbers[j] by {
        assert(keys[i] != keys[j]);
    }
    assert forall|pair: (KeyView, u64)| #[trigger]
        numbers.contains(pair) <==> numbers_in(cells, memory).contains_key(pair.0) && numbers_in(
            cells,
            memory,
        )[pair.0] == pair.1 by {
        if numbers_in(cells, memory).contains_key(pair.0) && numbers_in(cells, memory)[pair.0]
            == pair.1 {
            assert(keys.to_set().contains(pair.0));
            let i = choose|i: int| 0 <= i < keys.len() && keys[i] == pair.0;
            assert(numbers[i].0 == pair.0);
        }
    }
}

/// Alike recorders report the same samples, up to order, whatever their filters, levels and scopes
/// are. Gauges are reported bit for bit.
pub proof fn alike_recorders_report_alike(
    a: recorder::RecorderView,
    a_memory: Map<AtomicU64, u64>,
    a_samples: Seq<event::SampleView>,
    a_counters: Seq<(MetricKey, Loaded)>,
    a_gauges: Seq<(MetricKey, Loaded)>,
    a_histograms: Seq<poller::HistogramReadingView>,
    b: recorder::RecorderView,
    b_memory: Map<AtomicU64, u64>,
    b_samples: Seq<event::SampleView>,
    b_counters: Seq<(MetricKey, Loaded)>,
    b_gauges: Seq<(MetricKey, Loaded)>,
    b_histograms: Seq<poller::HistogramReadingView>,
)
    requires
        alike(a, a_memory, b, b_memory),
        poller::is_snapshot(a_samples, a, a_counters, a_gauges, a_histograms),
        poller::is_snapshot(b_samples, b, b_counters, b_gauges, b_histograms),
        all_read_in(a_counters, a_memory),
        all_read_in(a_gauges, a_memory),
        all_read_in(b_counters, b_memory),
        all_read_in(b_gauges, b_memory),
        a_histograms.to_multiset() == b_histograms.to_multiset(),
    ensures
        a_samples.to_multiset() == b_samples.to_multiset(),
{
    lemma_loaded_numbers(a_counters, a.counters, a_memory);
    lemma_loaded_numbers(b_counters, b.counters, b_memory);
    lemma_loaded_numbers(a_gauges, a.gauges, a_memory);
    lemma_loaded_numbers(b_gauges, b.gauges, b_memory);
    let a_numbers = poller::loaded_numbers(a_counters);
    let b_numbers = poller::loaded_numbers(b_counters);
    lemma_same_set_same_multiset(a_numbers, b_numbers);
    lemma_map_keeps_multiset(
        a_numbers,
        b_numbers,
        |reading: (KeyView, u64)|
            event::SampleView::Counter { metric: key::rendered(reading.0), value: reading.1 },
    );
    let a_bits = poller::loaded_numbers(a_gauges);
    let b_bits = poller::loaded_numbers(b_gauges);
    lemma_same_set_same_multiset(a_bits, b_bits);
    lemma_map_keeps_multiset(
        a_bits,
        b_bits,
        |reading: (KeyView, u64)|
            event::SampleView::Gauge {
                metric: key::rendered(reading.0),
                value: Double { bits: reading.1 },
            },
    );
    let observed = |reading: poller::HistogramReadingView| reading.count > 0;
    lemma_filter_keeps_multiset(a_histograms, b_histograms, observed);
    lemma_map_keeps_multiset(
        a_histograms.filter(observed),
        b_histograms.filter(observed),
        |reading: poller::HistogramReadingView| poller::histogram_sample_spec(reading),
    );
    vstd::seq_lib::lemma_multiset_commutative(
        poller::counter_samples(a_numbers) + poller::gauge_samples(a_bits),
        poller::histogram_samples(a_histograms),
    );
    vstd::seq_lib::lemma_multiset_commutative(
        poller::counter_samples(b_numbers) + poller::gauge_samples(b_bits),
        poller::histogram_samples(b_histograms),
    );
    vstd::seq_lib::lemma_multiset_commutative(
        poller::counter_samples(a_numbers),
        poller::gauge_samples(a_bits),
    );
    vstd::seq_lib::lemma_multiset_commutative(
        poller::counter_samples(b_numbers),
        poller::gauge_samples(b_bits),
    );
}

/// An update through a handle changes what its metric stands at, as the update says, and no other
/// metric of the kind.
pub proof fn updates_touch_one_metric(
    cells: Map<KeyView, AtomicU64>,
    memory: Map<AtomicU64, u64>,
    known: KeyView,
    op: CellOp,
)
    requires
        registry::distinct_cells(cells),
        cells.contains_key(known),
    ensures
        numbers_in(cells, op.on(memory, cells[known])) == numbers_in(cells, memory).insert(
            known,
            op.result_spec(numbers_in(cells, memory)[known]),
        ),
{
    assert(numbers_in(cells, op.on(memory, cells[known])) =~= numbers_in(cells, memory).insert(
        known,
        op.result_spec(numbers_in(cells, memory)[known]),
    ));
}

/// An update of a cell changes what no metric with another cell stands at, be it of another kind or
/// of another recorder.
pub proof fn updates_touch_no_other_cell(
    cells: Map<KeyView, AtomicU64>,
    memory: Map<AtomicU64, u64>,
    cell: AtomicU64,
    op: CellOp,
)
    requires
        registry::is_fresh(cells, cell),
    ensures
        numbers_in(cells, op.on(memory, cell)) == numbers_in(cells, memory),
{
    assert(numbers_in(cells, op.on(memory, cell)) =~= numbers_in(cells, memory));
}

/// Registering a metric changes what no metric of its kind stands at: a metric that is there keeps
/// its number, and a new one comes with what its cell holds.
pub proof fn registration_resets_nothing(
    before: Map<KeyView, AtomicU64>,
    after: Map<KeyView, AtomicU64>,
    memory: Map<AtomicU64, u64>,
    key: KeyView,
    cell: AtomicU64,
)
    requires
        registry::looked_up(before, after, key, cell),
    ensures
        registry::is_new(before, key) ==> numbers_in(after, memory) == numbers_in(
            before,
            memory,
        ).insert(key, memory[cell]),
        !registry::is_new(before, key) ==> numbers_in(after, memory) == numbers_in(before, memory),
{
    if registry::is_new(before, key) {
        assert(numbers_in(after, memory) =~= numbers_in(before, memory).insert(key, memory[cell]));
    }
}

/// The one reading of a registered metric, and what it was read in.
proof fn lemma_one_reading(
    before: Map<KeyView, AtomicU64>,
    after: Map<KeyView, AtomicU64>,
    key: KeyView,
    cell: AtomicU64,
    readings: Seq<(MetricKey, Loaded)>,
    memory: Map<AtomicU64, u64>,
) -> (i: int)
    requires
        registry::distinct_keys(after),
        registry::looked_up(before, after, key, cell),
        registry::lists_once(recorder::reading_entries(readings), after),
        all_read_in(readings, memory),
    ensures
        0 <= i < readings.len(),
        key::same_key(readings[i].0@, key),
        readings[i].1.value_spec() == memory[cell],
        forall|j: int|
            0 <= j < readings.len() && key::same_key((#[trigger] readings[j]).0@, key) ==> j == i,
{
    let entries = recorder::reading_entries(readings);
    let keys = entries.map_values(|entry: (KeyView, AtomicU64)| entry.0);
    registry::registered_metric_is_listed(before, after, key, cell, entries);
    let i = choose|i: int|
        0 <= i < entries.len() && key::same_key((#[trigger] entries[i]).0, key) && entries[i].1
            == cell;
    assert(readings[i].1.read_in(memory));
    assert forall|j: int|
        0 <= j < readings.len() && key::same_key((#[trigger] readings[j]).0@, key) implies j
        == i by {
        key::same_key_is_an_equivalence(key, keys[i], key);
        key::same_key_is_an_equivalence(keys[i], key, keys[j]);
        key::same_key_is_an_equivalence(keys[j], key, keys[i]);
        assert(keys.to_set().contains(keys[i]));
        assert(keys.to_set().contains(keys[j]));
        assert(key::same_key(keys[j], keys[i]));
        assert(keys[j] == keys[i]);
    }
    i
}

/// A registered counter has exactly one reading in a snapshot, and the sample of its place reports
/// what its handle's cell holds.
pub proof fn registered_counter_is_reported(
    before: recorder::RecorderView,
    recorder: recorder::RecorderView,
    key: KeyView,
    cell: AtomicU64,
    memory: Map<AtomicU64, u64>,
    samples: Seq<event::SampleView>,
    counters: Seq<(MetricKey, Loaded)>,
    gauges: Seq<(MetricKey, Loaded)>,
    histograms: Seq<poller::HistogramReadingView>,
)
    requires
        recorder.well_formed(),
        registry::looked_up(before.counters, recorder.counters, key, cell),
        poller::is_snapshot(samples, recorder, counters, gauges, histograms),
        all_read_in(counters, memory),
    ensures
        exists|i: int|
            {
                &&& 0 <= i < counters.len()
                &&& key::same_key((#[trigger] counters[i]).0@, key)
                &&& samples[i] == (event::SampleView::Counter {
                    metric: key::rendered(counters[i].0@),
                    value: memory[cell],
                })
                &&& forall|j: int|
                    0 <= j < counters.len() && key::same_key((#[trigger] counters[j]).0@, key)
                        ==> j == i
            },
{
    let i = lemma_one_reading(
        before.counters,
        recorder.counters,
        key,
        cell,
        counters,
        memory,
    );
    assert(samples[i] == poller::counter_samples(poller::loaded_numbers(counters))[i]);
    assert(key::same_key(counters[i].0@, key));
}

/// A registered gauge has exactly one reading in a snapshot, and the sample of its place, after
/// those of the counters, reports the bits that its handle's cell holds.
pub proof fn registered_gauge_is_reported(
    before: recorder::RecorderView,
    recorder: recorder::RecorderView,
    key: KeyView,
    cell: AtomicU64,
    memory: Map<AtomicU64, u64>,
    samples: Seq<event::SampleView>,
    counters: Seq<(MetricKey, Loaded)>,
    gauges: Seq<(MetricKey, Loaded)>,
    histograms: Seq<poller::HistogramReadingView>,
)
    requires
        recorder.well_formed(),
        registry::looked_up(before.gauges, recorder.gauges, key, cell),
        poller::is_snapshot(samples, recorder, counters, gauges, histograms),
        all_read_in(gauges, memory),
    ensures
        exists|i: int|
            {
                &&& 0 <= i < gauges.len()
                &&& key::same_key((#[trigger] gauges[i]).0@, key)
                &&& samples[counters.len() + i] == (event::SampleView::Gauge {
                    metric: key::rendered(gauges[i].0@),
                    value: Double { bits: memory[cell] },
                })
                &&& forall|j: int|
                    0 <= j < gauges.len() && key::same_key((#[trigger] gauges[j]).0@, key) ==> j
                        == i
            },
{
    let i = lemma_one_reading(before.gauges, recorder.gauges, key, cell, gauges, memory);
    assert(samples[counters.len() + i] == poller::gauge_samples(
        poller::loaded_numbers(gauges),
    )[i]);
    assert(key::same_key(gauges[i].0@, key));
}

/// Two handles of one counter update one number: a snapshot after both increments reports the
/// counter once, grown by their sum modulo the range. Registering it again resets nothing.
pub proof fn handles_share_a_counter(
    before: recorder::RecorderView,
    once: recorder::RecorderView,
    twice: recorder::RecorderView,
    key: KeyView,
    again: KeyView,
    cell: AtomicU64,
    cell_again: AtomicU64,
    memory: Map<AtomicU64, u64>,
    a: u64,
    b: u64,
    samples: Seq<event::SampleView>,
    counters: Seq<(MetricKey, Loaded)>,
    gauges: Seq<(MetricKey, Loaded)>,
    histograms: Seq<poller::HistogramReadingView>,
)
    requires
        before.well_formed(),
        once.well_formed(),
        twice.well_formed(),
        key::same_key(key, again),
        registry::looked_up(before.counters, once.counters, key, cell),
        registry::looked_up(once.counters, twice.counters, again, cell_again),
        poller::is_snapshot(samples, twice, counters, gauges, histograms),
        all_read_in(counters, CellOp::Add(b).on(CellOp::Add(a).on(memory, cell), cell_again)),
    ensures
        cell_again == cell,
        twice.counters == once.counters,
        exists|i: int|
            {
                &&& 0 <= i < counters.len()
                &&& key::same_key((#[trigger] counters[i]).0@, key)
                &&& samples[i] == (event::SampleView::Counter {
                    metric: key::rendered(counters[i].0@),
                    value: ((memory[cell] + a + b) % (u64::MAX + 1)) as u64,
                })
                &&& forall|j: int|
                    0 <= j < counters.len() && key::same_key((#[trigger] counters[j]).0@, key)
                        ==> j == i
            },
{
    registry::lookups_share_the_cell(
        before.counters,
        once.counters,
        twice.counters,
        key,
        again,
        cell,
        cell_again,
    );
    let after = CellOp::Add(b).on(CellOp::Add(a).on(memory, cell), cell_again);
    crate::cell::additions_add_up(memory[cell], a, b);
    assert(after[cell] == (memory[cell] + a + b) % (u64::MAX + 1));
    registered_counter_is_reported(
        before,
        twice,
        key,
        cell,
        after,
        samples,
        counters,
        gauges,
        histograms,
    );
}

/// A gauge that was set is reported once, with exactly the bits that it was set to. Setting it to
/// the same value again changes nothing.
pub proof fn set_gauge_is_reported(
    before: recorder::RecorderView,
    recorder: recorder::RecorderView,
    key: KeyView,
    cell: AtomicU64,
    memory: Map<AtomicU64, u64>,
    value: Double,
    samples: Seq<event::SampleView>,
    counters: Seq<(MetricKey, Loaded)>,
    gauges: Seq<(MetricKey, Loaded)>,
    histograms: Seq<poller::HistogramReadingView>,
)
    requires
        recorder.well_formed(),
        registry::looked_up(before.gauges, recorder.gauges, key, cell),
        poller::is_snapshot(samples, recorder, counters, gauges, histograms),
        all_read_in(gauges, CellOp::Store(value.bits).on(memory, cell)),
    ensures
        CellOp::Store(value.bits).on(CellOp::Store(value.bits).on(memory, cell), cell)
            == CellOp::Store(value.bits).on(memory, cell),
        exists|i: int|
            {
                &&& 0 <= i < gauges.len()
                &&& key::same_key((#[trigger] gauges[i]).0@, key)
                &&& samples[counters.len() + i] == (event::SampleView::Gauge {
                    metric: key::rendered(gauges[i].0@),
                    value,
                })
                &&& forall|j: int|
                    0 <= j < gauges.len() && key::same_key((#[trigger] gauges[j]).0@, key) ==> j
                        == i
            },
{
    let set = CellOp::Store(value.bits).on(memory, cell);
    assert(CellOp::Store(value.bits).on(set, cell) =~= set);
    registered_gauge_is_reported(
        before,
        recorder,
        key,
        cell,
        set,
        samples,
        counters,
        gauges,
        histograms,
    );
}

/// Where each histogram of the recorder was read once, a snapshot reports exactly those that have
/// an observation, each by one sample, and these are its last samples.
pub proof fn histograms_are_reported_once(
    samples: Seq<event::SampleView>,
    recorder: recorder::RecorderView,
    counters: Seq<(MetricKey, Loaded)>,
    gauges: Seq<(MetricKey, Loaded)>,
    histograms: Seq<poller::HistogramReadingView>,
)
    requires
        poller::is_snapshot(samples, recorder, counters, gauges, histograms),
        poller::reads_histograms(histograms, recorder),
    ensures
        histograms.len() == recorder.histograms.dom().len(),
        ({
            let reported = histograms.filter(
                |reading: poller::HistogramReadingView| reading.count > 0,
            );
            let keys = reported.map_values(|reading: poller::HistogramReadingView| reading.key);
            let others = (counters.len() + gauges.len()) as int;
            &&& keys.no_duplicates()
            &&& forall|key: KeyView| #[trigger]
                keys.contains(key) <==> recorder.histograms.contains_key(key) && exists|i: int|
                    0 <= i < histograms.len() && (#[trigger] histograms[i]).key == key
                        && histograms[i].count > 0
            &&& samples.len() == others + reported.len()
            &&& forall|i: int|
                0 <= i < reported.len() ==> samples[others + i] == poller::histogram_sample_spec(
                    #[trigger] reported[i],
                )
            &&& forall|i: int|
                0 <= i < samples.len() ==> ((#[trigger] samples[i]).kind()
                    == event::MetricKind::Histogram <==> others <= i)
        }),
{
    let observed = |reading: poller::HistogramReadingView| reading.count > 0;
    let reported = histograms.filter(observed);
    let all_keys = histograms.map_values(|reading: poller::HistogramReadingView| reading.key);
    let keys = reported.map_values(|reading: poller::HistogramReadingView| reading.key);
    let others = (counters.len() + gauges.len()) as int;
    all_keys.unique_seq_to_set();
    lemma_filter_keeps_keys_distinct(histograms);
    assert forall|key: KeyView| #[trigger]
        keys.contains(key) <==> recorder.histograms.contains_key(key) && exists|i: int|
            0 <= i < histograms.len() && (#[trigger] histograms[i]).key == key
                && histograms[i].count > 0 by {
        if keys.contains(key) {
            let j = choose|j: int| 0 <= j < keys.len() && keys[j] == key;
            histograms.lemma_filter_contains_rev(observed, reported[j]);
            let i = choose|i: int| 0 <= i < histograms.len() && histograms[i] == reported[j];
            assert(observed(reported[j]));
            assert(all_keys[i] == key);
            assert(all_keys.to_set().contains(all_keys[i]));
            assert(histograms[i].key == key && histograms[i].count > 0);
        }
        if exists|i: int|
            0 <= i < histograms.len() && (#[trigger] histograms[i]).key == key
                && histograms[i].count > 0 {
            let i = choose|i: int|
                0 <= i < histograms.len() && (#[trigger] histograms[i]).key == key
                    && histograms[i].count > 0;
            assert(observed(histograms[i]));
            assert(reported.contains(histograms[i]));
            let j = choose|j: int| 0 <= j < reported.len() && reported[j] == histograms[i];
            assert(keys[j] == key);
        }
    }
    assert(samples.len() == others + reported.len());
    assert forall|i: int| 0 <= i < reported.len() implies samples[others + i]
        == poller::histogram_sample_spec(#[trigger] reported[i]) by {
        assert(samples[others + i] == poller::histogram_samples(histograms)[i]);
    }
    assert forall|i: int| 0 <= i < samples.len() implies ((#[trigger] samples[i]).kind()
        == event::MetricKind::Histogram <==> others <= i) by {
        if others <= i {
            assert(samples[i] == poller::histogram_samples(histograms)[i - others]);
        }
    }
}

/// A registered histogram has exactly one reading. If that counts an observation, the snapshot has
/// its sample.
pub proof fn registered_histogram_is_reported(
    before: recorder::RecorderView,
    recorder: recorder::RecorderView,
    key: KeyView,
    cell: HistogramCell,
    samples: Seq<event::SampleView>,
    counters: Seq<(MetricKey, Loaded)>,
    gauges: Seq<(MetricKey, Loaded)>,
    histograms: Seq<poller::HistogramReadingView>,
)
    requires
        recorder.well_formed(),
        registry::looked_up(before.histograms, recorder.histograms, key, cell),
        poller::is_snapshot(samples, recorder, counters, gauges, histograms),
        poller::reads_histograms(histograms, recorder),
    ensures
        exists|i: int|
            {
                &&& 0 <= i < histograms.len()
                &&& key::same_key((#[trigger] histograms[i]).key, key)
                &&& histograms[i].count > 0 ==> samples.contains(
                    poller::histogram_sample_spec(histograms[i]),
                )
                &&& forall|j: int|
                    0 <= j < histograms.len() && key::same_key(
                        (#[trigger] histograms[j]).key,
                        key,
                    ) ==> j == i
            },
{
    let observed = |reading: poller::HistogramReadingView| reading.count > 0;
    let reported = histograms.filter(observed);
    let keys = histograms.map_values(|reading: poller::HistogramReadingView| reading.key);
    histograms_are_reported_once(samples, recorder, counters, gauges, histograms);
    registry::lookup_keeps_cells(before.histograms, recorder.histograms, key, cell);
    let known = choose|known: KeyView| #[trigger]
        recorder.histograms.contains_key(known) && key::same_key(known, key)
            && recorder.histograms[known] == cell;
    assert(keys.to_set().contains(known));
    let i = choose|i: int| 0 <= i < keys.len() && keys[i] == known;
    if histograms[i].count > 0 {
        assert(observed(histograms[i]));
        assert(reported.contains(histograms[i]));
        let j = choose|j: int| 0 <= j < reported.len() && reported[j] == histograms[i];
        assert(samples[counters.len() + gauges.len() + j] == poller::histogram_sample_spec(
            reported[j],
        ));
    }
    assert forall|j: int|
        0 <= j < histograms.len() && key::same_key((#[trigger] histograms[j]).key, key) implies j
        == i by {
        key::same_key_is_an_equivalence(known, key, histograms[j].key);
        key::same_key_is_an_equivalence(histograms[j].key, key, known);
        assert(keys.to_set().contains(keys[j]));
        assert(key::same_key(histograms[j].key, known));
        assert(keys[j] == keys[i]);
    }
    assert(key::same_key(histograms[i].key, key));
}

/// Leaving histograms out of a list in which each key occurs once leaves each key once.
proof fn lemma_filter_keeps_keys_distinct(histograms: Seq<poller::HistogramReadingView>)
    requires
        histograms.map_values(
            |reading: poller::HistogramReadingView| reading.key,
        ).no_duplicates(),
    ensures
        histograms.filter(
            |reading: poller::HistogramReadingView| reading.count > 0,
        ).map_values(|reading: poller::HistogramReadingView| reading.key).no_duplicates(),
    decreases histograms.len(),
{
    reveal(Seq::filter);
    let observed = |reading: poller::HistogramReadingView| reading.count > 0;
    let key_of = |reading: poller::HistogramReadingView| reading.key;
    let keys = histograms.map_values(key_of);
    if histograms.len() > 0 {
        let rest = histograms.drop_last();
        let last = histograms.last();
        assert(rest.map_values(key_of) =~= keys.drop_last());
        lemma_filter_keeps_keys_distinct(rest);
        if observed(last) {
            let kept = rest.filter(observed);
            assert(histograms.filter(observed) == kept.push(last));
            assert forall|i: int| 0 <= i < kept.len() implies (#[trigger] kept[i]).key
                != last.key by {
                rest.lemma_filter_contains_rev(observed, kept[i]);
                let j = choose|j: int| 0 <= j < rest.len() && rest[j] == kept[i];
                assert(keys[j] == kept[i].key);
                assert(keys[histograms.len() - 1] == last.key);
            }
            let after = kept.push(last).map_values(key_of);
            assert forall|i: int, j: int| 0 <= i < after.len() && 0 <= j < after.len() && i
                != j implies after[i] != after[j] by {
                let before = kept.map_values(key_of);
                if i < kept.len() && j < kept.len() {
                    assert(before[i] != before[j]);
                } else if i < kept.len() {
                    assert(kept[i].key != last.key);
                } else {
                    assert(kept[j].key != last.key);
                }
            }
        }
    }
}

/// The snapshot of a recorder that nothing was registered with is empty.
pub proof fn first_snapshot_is_empty(
    samples: Seq<event::SampleView>,
    recorder: recorder::RecorderView,
    counters: Seq<(MetricKey, Loaded)>,
    gauges: Seq<(MetricKey, Loaded)>,
    histograms: Seq<poller::HistogramReadingView>,
)
    requires
        recorder.counters.dom() == Set::<KeyView>::empty(),
        recorder.gauges.dom() == Set::<KeyView>::empty(),
        recorder.histograms.dom() == Set::<KeyView>::empty(),
        poller::is_snapshot(samples, recorder, counters, gauges, histograms),
        poller::reads_histograms(histograms, recorder),
    ensures
        samples.len() == 0,
{
    histograms_are_reported_once(samples, recorder, counters, gauges, histograms);
    poller::snapshot_covers_the_registry(samples, recorder, counters, gauges, histograms);
    let observed = |reading: poller::HistogramReadingView| reading.count > 0;
    histograms.lemma_filter_len(observed);
}

/// The samples of one kind, read in one memory: each metric has one reading, whose number is what
/// the metric stands at.
proof fn lemma_each_read_once(
    readings: Seq<(MetricKey, Loaded)>,
    cells: Map<KeyView, AtomicU64>,
    memory: Map<AtomicU64, u64>,
)
    requires
        registry::lists_once(recorder::reading_entries(readings), cells),
        all_read_in(readings, memory),
    ensures
        readings.len() == cells.dom().len(),
        forall|i: int|
            0 <= i < readings.len() ==> cells.contains_key((#[trigger] readings[i]).0@)
                && readings[i].1.value_spec() == numbers_in(cells, memory)[readings[i].0@],
        forall|i: int, j: int|
            0 <= i < j < readings.len() ==> (#[trigger] readings[i]).0@ != (
            #[trigger] readings[j]).0@,
        forall|key: KeyView| #[trigger]
            cells.contains_key(key) ==> exists|i: int|
                0 <= i < readings.len() && (#[trigger] readings[i]).0@ == key,
{
    let entries = recorder::reading_entries(readings);
    let keys = entries.map_values(|entry: (KeyView, AtomicU64)| entry.0);
    keys.unique_seq_to_set();
    assert forall|i: int| 0 <= i < readings.len() implies cells.contains_key(
        (#[trigger] readings[i]).0@,
    ) && readings[i].1.value_spec() == numbers_in(cells, memory)[readings[i].0@] by {
        assert(keys.to_set().contains(keys[i]));
        assert(entries[i].1 == cells[entries[i].0]);
        assert(readings[i].1.read_in(memory));
    }
    assert forall|i: int, j: int| 0 <= i < j < readings.len() implies (#[trigger] readings[i]).0@
        != (#[trigger] readings[j]).0@ by {
        assert(keys[i] != keys[j]);
    }
    assert forall|key: KeyView| #[trigger] cells.contains_key(key) implies exists|i: int|
        0 <= i < readings.len() && (#[trigger] readings[i]).0@ == key by {
        assert(keys.to_set().contains(key));
        let i = choose|i: int| 0 <= i < keys.len() && keys[i] == key;
        assert(readings[i].0@ == key);
    }
}

/// A poll reports every metric once and nothing else: first one sample for each counter, with what
/// the counter stands at, then one for each gauge, with the bits that it stands at, then one for
/// each histogram that has an observation.
pub proof fn a_poll_reports_every_metric_once(
    samples: Seq<event::SampleView>,
    recorder: recorder::RecorderView,
    memory: Map<AtomicU64, u64>,
    counters: Seq<(MetricKey, Loaded)>,
    gauges: Seq<(MetricKey, Loaded)>,
    histograms: Seq<poller::HistogramReadingView>,
)
    requires
        poller::is_snapshot(samples, recorder, counters, gauges, histograms),
        poller::reads_histograms(histograms, recorder),
        all_read_in(counters, memory),
        all_read_in(gauges, memory),
    ensures
        counters.len() == recorder.counters.dom().len(),
        gauges.len() == recorder.gauges.dom().len(),
        histograms.len() == recorder.histograms.dom().len(),
        samples.len() == counters.len() + gauges.len() + histograms.filter(
            |reading: poller::HistogramReadingView| reading.count > 0,
        ).len(),
        forall|i: int|
            0 <= i < counters.len() ==> recorder.counters.contains_key(
                (#[trigger] counters[i]).0@,
            ) && samples[i] == (event::SampleView::Counter {
                metric: key::rendered(counters[i].0@),
                value: numbers_in(recorder.counters, memory)[counters[i].0@],
            }),
        forall|i: int, j: int|
            0 <= i < j < counters.len() ==> (#[trigger] counters[i]).0@ != (
            #[trigger] counters[j]).0@,
        forall|key: KeyView| #[trigger]
            recorder.counters.contains_key(key) ==> exists|i: int|
                0 <= i < counters.len() && (#[trigger] counters[i]).0@ == key,
        forall|i: int|
            0 <= i < gauges.len() ==> recorder.gauges.contains_key((#[trigger] gauges[i]).0@)
                && samples[counters.len() + i] == (event::SampleView::Gauge {
                metric: key::rendered(gauges[i].0@),
                value: Double { bits: numbers_in(recorder.gauges, memory)[gauges[i].0@] },
            }),
        forall|i: int, j: int|
            0 <= i < j < gauges.len() ==> (#[trigger] gauges[i]).0@ != (#[trigger] gauges[j]).0@,
        forall|key: KeyView| #[trigger]
            recorder.gauges.contains_key(key) ==> exists|i: int|
                0 <= i < gauges.len() && (#[trigger] gauges[i]).0@ == key,
        forall|i: int|
            counters.len() + gauges.len() <= i < samples.len() ==> #[trigger] samples[i]
                == poller::histogram_samples(histograms)[i - counters.len() - gauges.len()],
{
    lemma_each_read_once(counters, recorder.counters, memory);
    lemma_each_read_once(gauges, recorder.gauges, memory);
    histograms_are_reported_once(samples, recorder, counters, gauges, histograms);
    assert forall|i: int| 0 <= i < counters.len() implies recorder.counters.contains_key(
        (#[trigger] counters[i]).0@,
    ) && samples[i] == (event::SampleView::Counter {
        metric: key::rendered(counters[i].0@),
        value: numbers_in(recorder.counters, memory)[counters[i].0@],
    }) by {
        assert(samples[i] == poller::counter_samples(poller::loaded_numbers(counters))[i]);
    }
    assert forall|i: int| 0 <= i < gauges.len() implies recorder.gauges.contains_key(
        (#[trigger] gauges[i]).0@,
    ) && samples[counters.len() + i] == (event::SampleView::Gauge {
        metric: key::rendered(gauges[i].0@),
        value: Double { bits: numbers_in(recorder.gauges, memory)[gauges[i].0@] },
    }) by {
        assert(samples[counters.len() + i] == poller::gauge_samples(
            poller::loaded_numbers(gauges),
        )[i]);
    }
}

} // verus!
