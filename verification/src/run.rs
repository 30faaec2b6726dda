//! What holds over a whole run of registrations, updates, observations and polls.
//!
//! The model of a run says what one thread after another does to the numbers in the cells, to the
//! observations that wait in the buckets and to the sketches. What registering, updating and
//! polling do to the rest is what their contracts say.

use std::sync::atomic::AtomicU64;

use vstd::prelude::*;

use crate::bucket::Taken;
use crate::cell::{Applied, CellOp, Loaded};
use crate::drain;
use crate::drain::SketchSummary;
use crate::event;
use crate::event::Double;
use crate::key;
use crate::key::{KeyView, MetricKey};
use crate::laws;
use crate::poller;
use crate::recorder;
use crate::registry;
use crate::registry::HistogramCell;

verus! {

/// What the caller's sketches do, as functions, and the order in which a bucket hands out what it
/// holds.
#[verifier::reject_recursive_types(T)]
pub struct Sketching<T> {
    pub fresh: T,
    pub absorb: spec_fn(T, Double) -> T,
    pub summary: spec_fn(T) -> SketchSummary,
    pub handed_out: spec_fn(Seq<Double>) -> Seq<Double>,
}

impl<T> Sketching<T> {
    /// Whether a bucket hands out what it holds, each observation as often as it was recorded.
    pub open spec fn valid(self) -> bool {
        forall|values: Seq<Double>| #[trigger] (self.handed_out)(values).to_multiset()
            == values.to_multiset()
    }

    /// Whether these are what the closures do that polls are given.
    pub open spec fn models<N: Fn() -> T, A: Fn(T, Double) -> T, S: Fn(&T) -> SketchSummary>(
        self,
        fresh: N,
        absorb: A,
        summarise: S,
    ) -> bool {
        &&& forall|made: T| #[trigger] call_ensures(fresh, (), made) ==> made == self.fresh
        &&& forall|t: T, value: Double, after: T| #[trigger]
            call_ensures(absorb, (t, value), after) ==> after == (self.absorb)(t, value)
        &&& forall|t: T, summary: SketchSummary| #[trigger]
            call_ensures(summarise, (&t,), summary) ==> summary == (self.summary)(t)
    }

    /// The sketch of `key` before a poll.
    pub open spec fn sketch_of(self, sketches: Map<KeyView, T>, key: KeyView) -> T {
        if sketches.contains_key(key) {
            sketches[key]
        } else {
            self.fresh
        }
    }
}

/// Everything at one moment: the recorder, what its counter and gauge cells hold, which
/// observations wait in its buckets, and the sketches of its poller.
pub struct Moment<T> {
    pub recorder: recorder::RecorderView,
    pub memory: Map<AtomicU64, u64>,
    pub pending: Map<HistogramCell, Seq<Double>>,
    pub sketches: Map<KeyView, T>,
}

/// One step of a run. A metric is named by any key that names it.
pub enum Step {
    RegisterCounter(KeyView),
    RegisterGauge(KeyView),
    RegisterHistogram(KeyView),
    UpdateCounter(KeyView, CellOp),
    UpdateGauge(KeyView, CellOp),
    Observe(KeyView, Double),
    Poll,
}

/// What registering a counter does: its cell is `cell`, and a new one holds what counters start at.
pub open spec fn registers_counter<T>(
    before: Moment<T>,
    after: Moment<T>,
    key: KeyView,
    cell: AtomicU64,
) -> bool {
    &&& before.recorder.well_formed() ==> after.recorder.well_formed()
    &&& registry::looked_up(before.recorder.counters, after.recorder.counters, key, cell)
    &&& after.recorder.counter_starts == registry::starts_after(
        before.recorder.counters,
        before.recorder.counter_starts,
        key,
        0,
    )
    &&& after.recorder == (recorder::RecorderView {
        counters: after.recorder.counters,
        counter_starts: after.recorder.counter_starts,
        ..before.recorder
    })
    &&& after.memory == if registry::is_new(before.recorder.counters, key) {
        before.memory.insert(cell, after.recorder.counter_starts[key])
    } else {
        before.memory
    }
    &&& after.pending == before.pending
    &&& after.sketches == before.sketches
}

/// What registering a gauge does: its cell is `cell`, and a new one holds what gauges start at.
pub open spec fn registers_gauge<T>(
    before: Moment<T>,
    after: Moment<T>,
    key: KeyView,
    cell: AtomicU64,
) -> bool {
    &&& before.recorder.well_formed() ==> after.recorder.well_formed()
    &&& registry::looked_up(before.recorder.gauges, after.recorder.gauges, key, cell)
    &&& after.recorder.gauge_starts == registry::starts_after(
        before.recorder.gauges,
        before.recorder.gauge_starts,
        key,
        0,
    )
    &&& after.recorder == (recorder::RecorderView {
        gauges: after.recorder.gauges,
        gauge_starts: after.recorder.gauge_starts,
        ..before.recorder
    })
    &&& after.memory == if registry::is_new(before.recorder.gauges, key) {
        before.memory.insert(cell, after.recorder.gauge_starts[key])
    } else {
        before.memory
    }
    &&& after.pending == before.pending
    &&& after.sketches == before.sketches
}

/// What registering a histogram does: its bucket is `cell`, and a new one holds what histograms
/// start with.
pub open spec fn registers_histogram<T>(
    before: Moment<T>,
    after: Moment<T>,
    key: KeyView,
    cell: HistogramCell,
) -> bool {
    &&& before.recorder.well_formed() ==> after.recorder.well_formed()
    &&& registry::looked_up(before.recorder.histograms, after.recorder.histograms, key, cell)
    &&& after.recorder.histogram_starts == registry::starts_after(
        before.recorder.histograms,
        before.recorder.histogram_starts,
        key,
        Seq::<Double>::empty(),
    )
    &&& after.recorder == (recorder::RecorderView {
        histograms: after.recorder.histograms,
        histogram_starts: after.recorder.histogram_starts,
        ..before.recorder
    })
    &&& after.pending == if registry::is_new(before.recorder.histograms, key) {
        before.pending.insert(cell, after.recorder.histogram_starts[key])
    } else {
        before.pending
    }
    &&& after.memory == before.memory
    &&& after.sketches == before.sketches
}

/// Whether each bucket of the recorder is empty after a poll and every other bucket is as it was.
pub open spec fn emptied(
    cells: Map<KeyView, HistogramCell>,
    before: Map<HistogramCell, Seq<Double>>,
    after: Map<HistogramCell, Seq<Double>>,
) -> bool {
    &&& forall|key: KeyView| cells.contains_key(key) ==> after[#[trigger] cells[key]]
        == Seq::<Double>::empty()
    &&& forall|cell: HistogramCell| registry::is_fresh(cells, cell) ==> #[trigger] after[cell]
        == before[cell]
}

/// What a poll does: the sketch of each histogram absorbs what waited in its bucket.
pub open spec fn polls<T>(sketching: Sketching<T>, before: Moment<T>, after: Moment<T>) -> bool {
    &&& after.recorder == before.recorder
    &&& after.memory == before.memory
    &&& emptied(before.recorder.histograms, before.pending, after.pending)
    &&& after.sketches.dom() == before.sketches.dom().union(before.recorder.histograms.dom())
    &&& forall|key: KeyView|
        before.sketches.contains_key(key) && !before.recorder.histograms.contains_key(key)
            ==> #[trigger] after.sketches[key] == before.sketches[key]
    &&& forall|key: KeyView|
        before.recorder.histograms.contains_key(key) ==> #[trigger] after.sketches[key] == (
        sketching.handed_out)(before.pending[before.recorder.histograms[key]]).fold_left(
            sketching.sketch_of(before.sketches, key),
            sketching.absorb,
        )
}

/// Whether the step leads from one moment to the next.
pub open spec fn leads<T>(
    sketching: Sketching<T>,
    step: Step,
    before: Moment<T>,
    after: Moment<T>,
) -> bool {
    match step {
        Step::RegisterCounter(key) => exists|cell: AtomicU64| #[trigger]
            registers_counter(before, after, key, cell),
        Step::RegisterGauge(key) => exists|cell: AtomicU64| #[trigger]
            registers_gauge(before, after, key, cell),
        Step::RegisterHistogram(key) => exists|cell: HistogramCell| #[trigger]
            registers_histogram(before, after, key, cell),
        Step::UpdateCounter(key, op) => exists|known: KeyView| #[trigger]
            before.recorder.counters.contains_key(known) && key::same_key(known, key) && after == (
            Moment { memory: op.on(before.memory, before.recorder.counters[known]), ..before }),
        Step::UpdateGauge(key, op) => exists|known: KeyView| #[trigger]
            before.recorder.gauges.contains_key(known) && key::same_key(known, key) && after == (
            Moment { memory: op.on(before.memory, before.recorder.gauges[known]), ..before }),
        Step::Observe(key, value) => exists|known: KeyView| #[trigger]
            before.recorder.histograms.contains_key(known) && key::same_key(known, key) && after
                == (Moment {
                pending: before.pending.insert(
                    before.recorder.histograms[known],
                    before.pending[before.recorder.histograms[known]].push(value),
                ),
                ..before
            }),
        Step::Poll => polls(sketching, before, after),
    }
}

/// Whether the steps lead from each of the moments to the next.
pub open spec fn runs<T>(
    sketching: Sketching<T>,
    steps: Seq<Step>,
    moments: Seq<Moment<T>>,
) -> bool {
    &&& moments.len() == steps.len() + 1
    &&& forall|i: int|
        0 <= i < steps.len() ==> leads(
            sketching,
            #[trigger] steps[i],
            moments[i],
            moments[i + 1],
        )
}

/// A recorder and its poller as they are built: there is nothing in them.
pub open spec fn just_built<T>(moment: Moment<T>) -> bool {
    &&& moment.recorder.counters.dom() == Set::<KeyView>::empty()
    &&& moment.recorder.gauges.dom() == Set::<KeyView>::empty()
    &&& moment.recorder.histograms.dom() == Set::<KeyView>::empty()
    &&& moment.recorder.well_formed()
    &&& moment.sketches == Map::<KeyView, T>::empty()
}

/// Whether two moments differ at most in levels, scopes and filters, and in which cells hold what.
pub open spec fn alike<T>(a: Moment<T>, b: Moment<T>) -> bool {
    &&& a.recorder.well_formed()
    &&& b.recorder.well_formed()
    &&& laws::alike(a.recorder, a.memory, b.recorder, b.memory)
    &&& a.sketches == b.sketches
    &&& forall|key: KeyView| #[trigger]
        a.recorder.histograms.contains_key(key) ==> a.pending[a.recorder.histograms[key]]
            == b.pending[b.recorder.histograms[key]]
}

/// Whether these are the readings of a poll that led to `moment`.
pub open spec fn read_after<T>(
    sketching: Sketching<T>,
    readings: Seq<poller::HistogramReadingView>,
    moment: Moment<T>,
) -> bool {
    &&& poller::reads_histograms(readings, moment.recorder)
    &&& forall|i: int|
        0 <= i < readings.len() ==> #[trigger] readings[i] == drain::reading_of(
            readings[i].key,
            (sketching.summary)(moment.sketches[readings[i].key]),
        )
}

/// Whether the poll was undisturbed: what was taken out of each bucket is what waited in it.
pub open spec fn took<T>(
    sketching: Sketching<T>,
    taken: Seq<Taken>,
    pending: Map<HistogramCell, Seq<Double>>,
) -> bool {
    forall|i: int|
        0 <= i < taken.len() ==> (#[trigger] taken[i]).values_spec() == (sketching.handed_out)(
            pending[taken[i].cell()],
        )
}

/// A sketch that absorbed `values` is what the model makes of them.
proof fn lemma_absorbed<T, N: Fn() -> T, A: Fn(T, Double) -> T, S: Fn(&T) -> SketchSummary>(
    sketching: Sketching<T>,
    fresh: N,
    absorb: A,
    summarise: S,
    before: T,
    values: Seq<Double>,
    after: T,
)
    requires
        sketching.models(fresh, absorb, summarise),
        drain::absorbed(absorb, before, values, after),
    ensures
        after == values.fold_left(before, sketching.absorb),
    decreases values.len(),
{
    if values.len() > 0 {
        let between = choose|between: T|
            drain::absorbed(absorb, before, values.drop_last(), between)
                && #[trigger] call_ensures(absorb, (between, values.last()), after);
        lemma_absorbed(sketching, fresh, absorb, summarise, before, values.drop_last(), between);
    }
}

/// An undisturbed poll is the step that the model says, and its readings are those of the sketches
/// that it leaves.
pub proof fn a_poll_is_a_step<T, N: Fn() -> T, A: Fn(T, Double) -> T, S: Fn(&T) -> SketchSummary>(
    sketching: Sketching<T>,
    before: Moment<T>,
    after: Moment<T>,
    readings: Seq<poller::HistogramReadingView>,
    taken: Seq<Taken>,
    fresh: N,
    absorb: A,
    summarise: S,
)
    requires
        sketching.models(fresh, absorb, summarise),
        after.recorder == before.recorder,
        after.memory == before.memory,
        drain::drains(
            readings,
            taken,
            before.recorder.histograms,
            before.sketches,
            after.sketches,
            fresh,
            absorb,
            summarise,
        ),
        took(sketching, taken, before.pending),
        emptied(before.recorder.histograms, before.pending, after.pending),
    ensures
        leads(sketching, Step::Poll, before, after),
        read_after(sketching, readings, after),
        forall|i: int|
            0 <= i < readings.len() ==> {
                let summary = (sketching.summary)(after.sketches[(#[trigger] readings[i]).key]);
                &&& readings[i].count == summary.count
                &&& readings[i].sum == summary.sum
                &&& readings[i].p50 == summary.p50
                &&& readings[i].p90 == summary.p90
                &&& readings[i].p99 == summary.p99
            },
{
    let cells = before.recorder.histograms;
    let entries = drain::drained_entries(readings, taken);
    let keys = entries.map_values(|entry: (KeyView, HistogramCell)| entry.0);
    assert(keys =~= readings.map_values(|reading: poller::HistogramReadingView| reading.key));
    assert forall|i: int| 0 <= i < readings.len() implies after.sketches[(
    #[trigger] readings[i]).key] == (sketching.handed_out)(
        before.pending[cells[readings[i].key]],
    ).fold_left(sketching.sketch_of(before.sketches, readings[i].key), sketching.absorb)
        && readings[i] == drain::reading_of(
        readings[i].key,
        (sketching.summary)(after.sketches[readings[i].key]),
    ) by {
        let key = readings[i].key;
        let left = after.sketches[key];
        let start = choose|start: T| #[trigger]
            drain::starts_from(before.sketches, key, fresh, start) && drain::absorbed(
                absorb,
                start,
                taken[i].values_spec(),
                left,
            );
        lemma_absorbed(sketching, fresh, absorb, summarise, start, taken[i].values_spec(), left);
        assert(entries[i].1 == cells[entries[i].0]);
    }
    assert forall|key: KeyView| cells.contains_key(key) implies #[trigger] after.sketches[key] == (
    sketching.handed_out)(before.pending[cells[key]]).fold_left(
        sketching.sketch_of(before.sketches, key),
        sketching.absorb,
    ) by {
        assert(keys.to_set().contains(key));
        let i = choose|i: int| 0 <= i < keys.len() && keys[i] == key;
        assert(readings[i].key == key);
    }
}

/// An update of a counter or gauge that led from one memory to the next is the step that the model
/// says, whether it was made in one go or as an exchange.
pub proof fn an_update_is_a_step<T>(
    sketching: Sketching<T>,
    before: Moment<T>,
    after: Moment<T>,
    known: KeyView,
    key: KeyView,
    applied: Applied,
)
    requires
        key::same_key(known, key),
        applied.led(before.memory, after.memory),
        after == (Moment { memory: after.memory, ..before }),
    ensures
        before.recorder.counters.contains_key(known) && applied.cell()
            == before.recorder.counters[known] ==> leads(
            sketching,
            Step::UpdateCounter(key, applied.op()),
            before,
            after,
        ),
        before.recorder.gauges.contains_key(known) && applied.cell()
            == before.recorder.gauges[known] ==> leads(
            sketching,
            Step::UpdateGauge(key, applied.op()),
            before,
            after,
        ),
{
}

/// A new metric stands at what its cell starts with, and the others stand where they stood.
proof fn lemma_added(
    before: Map<KeyView, AtomicU64>,
    after: Map<KeyView, AtomicU64>,
    memory: Map<AtomicU64, u64>,
    key: KeyView,
    cell: AtomicU64,
    start: u64,
)
    requires
        registry::looked_up(before, after, key, cell),
        registry::is_new(before, key),
    ensures
        laws::numbers_in(after, memory.insert(cell, start)) == laws::numbers_in(
            before,
            memory,
        ).insert(key, start),
{
    assert(laws::numbers_in(after, memory.insert(cell, start)) =~= laws::numbers_in(
        before,
        memory,
    ).insert(key, start));
}

/// Metrics that stand at the same numbers have the same keys.
proof fn lemma_same_keys(
    a: Map<KeyView, AtomicU64>,
    a_memory: Map<AtomicU64, u64>,
    b: Map<KeyView, AtomicU64>,
    b_memory: Map<AtomicU64, u64>,
    key: KeyView,
)
    requires
        laws::numbers_in(a, a_memory) == laws::numbers_in(b, b_memory),
    ensures
        forall|known: KeyView| #[trigger] a.contains_key(known) <==> b.contains_key(known),
        registry::is_new(a, key) <==> registry::is_new(b, key),
{
    assert forall|known: KeyView| #[trigger] a.contains_key(known) <==> b.contains_key(known) by {
        assert(laws::numbers_in(a, a_memory).contains_key(known) <==> a.contains_key(known));
        assert(laws::numbers_in(b, b_memory).contains_key(known) <==> b.contains_key(known));
    }
    assert forall|known: KeyView| #[trigger]
        key::same_key(known, key) && a.contains_key(known) implies b.contains_key(known) by {}
}

/// Two keys of one kind that name the same metric are the same key.
proof fn lemma_one_name<C>(cells: Map<KeyView, C>, a: KeyView, b: KeyView, key: KeyView)
    requires
        registry::distinct_keys(cells),
        cells.contains_key(a),
        cells.contains_key(b),
        key::same_key(a, key),
        key::same_key(b, key),
    ensures
        a == b,
{
    key::same_key_is_an_equivalence(b, key, a);
    key::same_key_is_an_equivalence(a, key, b);
    assert(key::same_key(a, b));
}

/// The same registration of a counter keeps alike moments alike.
proof fn lemma_counter_keeps_alike<T>(
    a: Moment<T>,
    a_after: Moment<T>,
    a_cell: AtomicU64,
    b: Moment<T>,
    b_after: Moment<T>,
    b_cell: AtomicU64,
    key: KeyView,
)
    requires
        alike(a, b),
        registers_counter(a, a_after, key, a_cell),
        registers_counter(b, b_after, key, b_cell),
    ensures
        alike(a_after, b_after),
{
    lemma_same_keys(a.recorder.counters, a.memory, b.recorder.counters, b.memory, key);
    if registry::is_new(a.recorder.counters, key) {
        lemma_added(a.recorder.counters, a_after.recorder.counters, a.memory, key, a_cell, 0);
        lemma_added(b.recorder.counters, b_after.recorder.counters, b.memory, key, b_cell, 0);
        assert(a_after.recorder.counters[key] == a_cell);
        assert(b_after.recorder.counters[key] == b_cell);
        assert(laws::numbers_in(a_after.recorder.gauges, a_after.memory) =~= laws::numbers_in(
            a.recorder.gauges,
            a.memory,
        ));
        assert(laws::numbers_in(b_after.recorder.gauges, b_after.memory) =~= laws::numbers_in(
            b.recorder.gauges,
            b.memory,
        ));
    }
}

/// The same registration of a gauge keeps alike moments alike.
proof fn lemma_gauge_keeps_alike<T>(
    a: Moment<T>,
    a_after: Moment<T>,
    a_cell: AtomicU64,
    b: Moment<T>,
    b_after: Moment<T>,
    b_cell: AtomicU64,
    key: KeyView,
)
    requires
        alike(a, b),
        registers_gauge(a, a_after, key, a_cell),
        registers_gauge(b, b_after, key, b_cell),
    ensures
        alike(a_after, b_after),
{
    lemma_same_keys(a.recorder.gauges, a.memory, b.recorder.gauges, b.memory, key);
    if registry::is_new(a.recorder.gauges, key) {
        lemma_added(a.recorder.gauges, a_after.recorder.gauges, a.memory, key, a_cell, 0);
        lemma_added(b.recorder.gauges, b_after.recorder.gauges, b.memory, key, b_cell, 0);
        assert(a_after.recorder.gauges[key] == a_cell);
        assert(b_after.recorder.gauges[key] == b_cell);
        assert(laws::numbers_in(a_after.recorder.counters, a_after.memory) =~= laws::numbers_in(
            a.recorder.counters,
            a.memory,
        ));
        assert(laws::numbers_in(b_after.recorder.counters, b_after.memory) =~= laws::numbers_in(
            b.recorder.counters,
            b.memory,
        ));
    }
}

/// The same registration of a histogram keeps alike moments alike.
proof fn lemma_histogram_keeps_alike<T>(
    a: Moment<T>,
    a_after: Moment<T>,
    a_cell: HistogramCell,
    b: Moment<T>,
    b_after: Moment<T>,
    b_cell: HistogramCell,
    key: KeyView,
)
    requires
        alike(a, b),
        registers_histogram(a, a_after, key, a_cell),
        registers_histogram(b, b_after, key, b_cell),
    ensures
        alike(a_after, b_after),
{
    assert forall|known: KeyView| #[trigger] a.recorder.histograms.contains_key(known)
        <==> b.recorder.histograms.contains_key(known) by {
        assert(a.recorder.histograms.dom().contains(known)
            <==> b.recorder.histograms.dom().contains(known));
    }
    if registry::is_new(a.recorder.histograms, key) {
        assert(registry::is_new(b.recorder.histograms, key));
        assert(a_after.recorder.histograms.dom() =~= b_after.recorder.histograms.dom());
    } else {
        assert(!registry::is_new(b.recorder.histograms, key));
    }
}

/// The same step keeps alike moments alike.
proof fn lemma_step_keeps_alike<T>(
    sketching: Sketching<T>,
    step: Step,
    a: Moment<T>,
    a_after: Moment<T>,
    b: Moment<T>,
    b_after: Moment<T>,
)
    requires
        alike(a, b),
        leads(sketching, step, a, a_after),
        leads(sketching, step, b, b_after),
    ensures
        alike(a_after, b_after),
{
    match step {
        Step::RegisterCounter(key) => {
            let a_cell = choose|cell: AtomicU64| #[trigger]
                registers_counter(a, a_after, key, cell);
            let b_cell = choose|cell: AtomicU64| #[trigger]
                registers_counter(b, b_after, key, cell);
            lemma_counter_keeps_alike(a, a_after, a_cell, b, b_after, b_cell, key);
        },
        Step::RegisterGauge(key) => {
            let a_cell = choose|cell: AtomicU64| #[trigger] registers_gauge(a, a_after, key, cell);
            let b_cell = choose|cell: AtomicU64| #[trigger] registers_gauge(b, b_after, key, cell);
            lemma_gauge_keeps_alike(a, a_after, a_cell, b, b_after, b_cell, key);
        },
        Step::RegisterHistogram(key) => {
            let a_cell = choose|cell: HistogramCell| #[trigger]
                registers_histogram(a, a_after, key, cell);
            let b_cell = choose|cell: HistogramCell| #[trigger]
                registers_histogram(b, b_after, key, cell);
            lemma_histogram_keeps_alike(a, a_after, a_cell, b, b_after, b_cell, key);
        },
        Step::UpdateCounter(key, op) => {
            let a_cells = a.recorder.counters;
            let b_cells = b.recorder.counters;
            lemma_same_keys(a_cells, a.memory, b_cells, b.memory, key);
            let known = choose|known: KeyView| #[trigger]
                a_cells.contains_key(known) && key::same_key(known, key) && a_after == (Moment {
                    memory: op.on(a.memory, a_cells[known]),
                    ..a
                });
            let also = choose|known: KeyView| #[trigger]
                b_cells.contains_key(known) && key::same_key(known, key) && b_after == (Moment {
                    memory: op.on(b.memory, b_cells[known]),
                    ..b
                });
            lemma_one_name(a_cells, known, also, key);
            laws::updates_touch_one_metric(a_cells, a.memory, known, op);
            laws::updates_touch_one_metric(b_cells, b.memory, known, op);
            laws::updates_touch_no_other_cell(a.recorder.gauges, a.memory, a_cells[known], op);
            laws::updates_touch_no_other_cell(b.recorder.gauges, b.memory, b_cells[known], op);
        },
        Step::UpdateGauge(key, op) => {
            let a_cells = a.recorder.gauges;
            let b_cells = b.recorder.gauges;
            lemma_same_keys(a_cells, a.memory, b_cells, b.memory, key);
            let known = choose|known: KeyView| #[trigger]
                a_cells.contains_key(known) && key::same_key(known, key) && a_after == (Moment {
                    memory: op.on(a.memory, a_cells[known]),
                    ..a
                });
            let also = choose|known: KeyView| #[trigger]
                b_cells.contains_key(known) && key::same_key(known, key) && b_after == (Moment {
                    memory: op.on(b.memory, b_cells[known]),
                    ..b
                });
            lemma_one_name(a_cells, known, also, key);
            laws::updates_touch_one_metric(a_cells, a.memory, known, op);
            laws::updates_touch_one_metric(b_cells, b.memory, known, op);
            laws::updates_touch_no_other_cell(a.recorder.counters, a.memory, a_cells[known], op);
            laws::updates_touch_no_other_cell(b.recorder.counters, b.memory, b_cells[known], op);
        },
        Step::Observe(key, value) => {
            let a_cells = a.recorder.histograms;
            let b_cells = b.recorder.histograms;
            let known = choose|known: KeyView| #[trigger]
                a_cells.contains_key(known) && key::same_key(known, key) && a_after == (Moment {
                    pending: a.pending.insert(
                        a_cells[known],
                        a.pending[a_cells[known]].push(value),
                    ),
                    ..a
                });
            let also = choose|known: KeyView| #[trigger]
                b_cells.contains_key(known) && key::same_key(known, key) && b_after == (Moment {
                    pending: b.pending.insert(
                        b_cells[known],
                        b.pending[b_cells[known]].push(value),
                    ),
                    ..b
                });
            assert(b_cells.dom().contains(also));
            assert(a_cells.contains_key(also));
            lemma_one_name(a_cells, known, also, key);
            assert forall|other: KeyView| #[trigger]
                a_after.recorder.histograms.contains_key(
                    other,
                ) implies a_after.pending[a_after.recorder.histograms[other]]
                == b_after.pending[b_after.recorder.histograms[other]] by {
                assert(a_cells.dom().contains(other) && b_cells.dom().contains(other));
                assert(b_cells.contains_key(other));
                if other != known {
                    assert(a_cells[other] != a_cells[known]);
                    assert(b_cells[other] != b_cells[known]);
                }
            }
        },
        Step::Poll => {
            let cells = a.recorder.histograms;
            assert(a_after.sketches =~= b_after.sketches) by {
                assert forall|key: KeyView| #[trigger]
                    a_after.sketches.contains_key(key) implies a_after.sketches[key]
                    == b_after.sketches[key] by {
                    if cells.contains_key(key) {
                        assert(b.recorder.histograms.dom().contains(key));
                        assert(b.recorder.histograms.contains_key(key));
                    } else {
                        assert(!b.recorder.histograms.dom().contains(key));
                        assert(a.sketches.dom().contains(key));
                        assert(!b.recorder.histograms.contains_key(key));
                    }
                }
            }
            assert forall|key: KeyView| #[trigger]
                a_after.recorder.histograms.contains_key(
                    key,
                ) implies a_after.pending[a_after.recorder.histograms[key]]
                == b_after.pending[b_after.recorder.histograms[key]] by {
                assert(b.recorder.histograms.dom().contains(key));
                assert(b.recorder.histograms.contains_key(key));
            }
        },
    }
}

/// The same steps, taken from alike moments, lead to alike moments. In particular a per-update
/// stream changes no number, no observation and no sketch.
pub proof fn same_steps_stay_alike<T>(
    sketching: Sketching<T>,
    steps: Seq<Step>,
    a: Seq<Moment<T>>,
    b: Seq<Moment<T>>,
)
    requires
        runs(sketching, steps, a),
        runs(sketching, steps, b),
        alike(a[0], b[0]),
    ensures
        alike(a.last(), b.last()),
    decreases steps.len(),
{
    if steps.len() > 0 {
        let n = steps.len() - 1;
        let earlier = steps.drop_last();
        lemma_runs_until(sketching, steps, a);
        lemma_runs_until(sketching, steps, b);
        same_steps_stay_alike(sketching, earlier, a.drop_last(), b.drop_last());
        assert(leads(sketching, steps[n], a[n], a[n + 1]));
        assert(leads(sketching, steps[n], b[n], b[n + 1]));
        lemma_step_keeps_alike(sketching, steps[n], a[n], a[n + 1], b[n], b[n + 1]);
    }
}

/// A run without its last step is a run.
proof fn lemma_runs_until<T>(sketching: Sketching<T>, steps: Seq<Step>, moments: Seq<Moment<T>>)
    requires
        runs(sketching, steps, moments),
        steps.len() > 0,
    ensures
        runs(sketching, steps.drop_last(), moments.drop_last()),
{
    assert forall|i: int| 0 <= i < steps.drop_last().len() implies leads(
        sketching,
        #[trigger] steps.drop_last()[i],
        moments.drop_last()[i],
        moments.drop_last()[i + 1],
    ) by {
        assert(leads(sketching, steps[i], moments[i], moments[i + 1]));
    }
}

/// The readings of two polls that left the same sketches of the same histograms differ in their
/// order only.
proof fn lemma_same_readings<T>(
    sketching: Sketching<T>,
    a: Moment<T>,
    a_readings: Seq<poller::HistogramReadingView>,
    b: Moment<T>,
    b_readings: Seq<poller::HistogramReadingView>,
)
    requires
        read_after(sketching, a_readings, a),
        read_after(sketching, b_readings, b),
        a.recorder.histograms.dom() == b.recorder.histograms.dom(),
        forall|key: KeyView|
            a.recorder.histograms.contains_key(key) ==> #[trigger] a.sketches[key]
                == b.sketches[key],
    ensures
        a_readings.to_multiset() == b_readings.to_multiset(),
{
    let key_of = |reading: poller::HistogramReadingView| reading.key;
    let a_keys = a_readings.map_values(key_of);
    let b_keys = b_readings.map_values(key_of);
    assert forall|i: int, j: int| 0 <= i < a_readings.len() && 0 <= j < a_readings.len() && i
        != j implies a_readings[i] != a_readings[j] by {
        assert(a_keys[i] != a_keys[j]);
    }
    assert forall|i: int, j: int| 0 <= i < b_readings.len() && 0 <= j < b_readings.len() && i
        != j implies b_readings[i] != b_readings[j] by {
        assert(b_keys[i] != b_keys[j]);
    }
    assert forall|reading: poller::HistogramReadingView|
        a_readings.contains(reading) <==> b_readings.contains(reading) by {
        if a_readings.contains(reading) {
            let i = choose|i: int| 0 <= i < a_readings.len() && a_readings[i] == reading;
            assert(a_keys[i] == reading.key);
            assert(a_keys.to_set().contains(reading.key));
            assert(b_keys.to_set().contains(reading.key));
            let j = choose|j: int| 0 <= j < b_keys.len() && b_keys[j] == reading.key;
            assert(b_readings[j].key == reading.key);
            assert(a.recorder.histograms.contains_key(reading.key));
        }
        if b_readings.contains(reading) {
            let i = choose|i: int| 0 <= i < b_readings.len() && b_readings[i] == reading;
            assert(b_keys[i] == reading.key);
            assert(b_keys.to_set().contains(reading.key));
            assert(a_keys.to_set().contains(reading.key));
            let j = choose|j: int| 0 <= j < a_keys.len() && a_keys[j] == reading.key;
            assert(a_readings[j].key == reading.key);
            assert(a.recorder.histograms.contains_key(reading.key));
        }
    }
    laws::lemma_same_set_same_multiset(a_readings, b_readings);
}

/// A per-update stream only adds events: two recorders that were built and then went through the
/// same registrations, updates, observations and polls report the same samples in their next
/// snapshot, up to order, whatever their filters, levels and scopes are.
pub proof fn streaming_changes_no_snapshot<T>(
    sketching: Sketching<T>,
    steps: Seq<Step>,
    a: Seq<Moment<T>>,
    a_samples: Seq<event::SampleView>,
    a_counters: Seq<(MetricKey, Loaded)>,
    a_gauges: Seq<(MetricKey, Loaded)>,
    a_histograms: Seq<poller::HistogramReadingView>,
    b: Seq<Moment<T>>,
    b_samples: Seq<event::SampleView>,
    b_counters: Seq<(MetricKey, Loaded)>,
    b_gauges: Seq<(MetricKey, Loaded)>,
    b_histograms: Seq<poller::HistogramReadingView>,
)
    requires
        just_built(a[0]),
        just_built(b[0]),
        runs(sketching, steps.push(Step::Poll), a),
        runs(sketching, steps.push(Step::Poll), b),
        poller::is_snapshot(a_samples, a.last().recorder, a_counters, a_gauges, a_histograms),
        laws::all_read_in(a_counters, a.last().memory),
        laws::all_read_in(a_gauges, a.last().memory),
        read_after(sketching, a_histograms, a.last()),
        poller::is_snapshot(b_samples, b.last().recorder, b_counters, b_gauges, b_histograms),
        laws::all_read_in(b_counters, b.last().memory),
        laws::all_read_in(b_gauges, b.last().memory),
        read_after(sketching, b_histograms, b.last()),
    ensures
        a_samples.to_multiset() == b_samples.to_multiset(),
{
    assert(laws::numbers_in(a[0].recorder.counters, a[0].memory) =~= laws::numbers_in(
        b[0].recorder.counters,
        b[0].memory,
    ));
    assert(laws::numbers_in(a[0].recorder.gauges, a[0].memory) =~= laws::numbers_in(
        b[0].recorder.gauges,
        b[0].memory,
    ));
    assert forall|key: KeyView| #[trigger]
        a[0].recorder.histograms.contains_key(
            key,
        ) implies a[0].pending[a[0].recorder.histograms[key]]
        == b[0].pending[b[0].recorder.histograms[key]] by {
        assert(a[0].recorder.histograms.dom().contains(key));
    }
    same_steps_stay_alike(sketching, steps.push(Step::Poll), a, b);
    lemma_same_readings(sketching, a.last(), a_histograms, b.last(), b_histograms);
    laws::alike_recorders_report_alike(
        a.last().recorder,
        a.last().memory,
        a_samples,
        a_counters,
        a_gauges,
        a_histograms,
        b.last().recorder,
        b.last().memory,
        b_samples,
        b_counters,
        b_gauges,
        b_histograms,
    );
}

/// Polling twice with nothing in between reports the same samples, up to order, and leaves the
/// sketches as they are: polling resets nothing, and a histogram that was drained is still reported
/// with the same statistics.
pub proof fn polling_twice_reports_the_same<T>(
    sketching: Sketching<T>,
    before: Moment<T>,
    once: Moment<T>,
    samples: Seq<event::SampleView>,
    counters: Seq<(MetricKey, Loaded)>,
    gauges: Seq<(MetricKey, Loaded)>,
    histograms: Seq<poller::HistogramReadingView>,
    twice: Moment<T>,
    again: Seq<event::SampleView>,
    counters_again: Seq<(MetricKey, Loaded)>,
    gauges_again: Seq<(MetricKey, Loaded)>,
    histograms_again: Seq<poller::HistogramReadingView>,
)
    requires
        sketching.valid(),
        leads(sketching, Step::Poll, before, once),
        leads(sketching, Step::Poll, once, twice),
        poller::is_snapshot(samples, once.recorder, counters, gauges, histograms),
        laws::all_read_in(counters, once.memory),
        laws::all_read_in(gauges, once.memory),
        read_after(sketching, histograms, once),
        poller::is_snapshot(
            again,
            twice.recorder,
            counters_again,
            gauges_again,
            histograms_again,
        ),
        laws::all_read_in(counters_again, twice.memory),
        laws::all_read_in(gauges_again, twice.memory),
        read_after(sketching, histograms_again, twice),
    ensures
        samples.to_multiset() == again.to_multiset(),
        twice.sketches == once.sketches,
        twice.memory == before.memory,
{
    let cells = before.recorder.histograms;
    assert forall|key: KeyView| cells.contains_key(key) implies #[trigger] once.sketches[key]
        == twice.sketches[key] by {
        let waiting = once.pending[cells[key]];
        assert(waiting == Seq::<Double>::empty());
        waiting.to_multiset_ensures();
        (sketching.handed_out)(waiting).to_multiset_ensures();
        assert((sketching.handed_out)(waiting).len() == 0);
        assert(once.sketches.dom().contains(key));
    }
    assert(twice.sketches =~= once.sketches) by {
        assert(twice.sketches.dom() =~= once.sketches.dom());
        assert forall|key: KeyView| #[trigger] twice.sketches.contains_key(
            key,
        ) implies twice.sketches[key] == once.sketches[key] by {
            assert(once.sketches.dom().contains(key));
        }
    }
    lemma_same_readings(sketching, once, histograms, twice, histograms_again);
    laws::alike_recorders_report_alike(
        once.recorder,
        once.memory,
        samples,
        counters,
        gauges,
        histograms,
        twice.recorder,
        twice.memory,
        again,
        counters_again,
        gauges_again,
        histograms_again,
    );
}

/// What is kept for histograms is bounded by their number: after a poll no raw observation waits in
/// a bucket, and where only registered histograms had a sketch before, there is one for each of
/// them and no other.
pub proof fn polling_bounds_storage<T>(
    sketching: Sketching<T>,
    before: Moment<T>,
    after: Moment<T>,
)
    requires
        leads(sketching, Step::Poll, before, after),
    ensures
        forall|key: KeyView|
            after.recorder.histograms.contains_key(key) ==> after.pending[
            #[trigger] after.recorder.histograms[key]].len() == 0,
        after.sketches.dom() == before.sketches.dom().union(before.recorder.histograms.dom()),
        before.sketches.dom().subset_of(before.recorder.histograms.dom()) ==> after.sketches.dom()
            == after.recorder.histograms.dom(),
{
    if before.sketches.dom().subset_of(before.recorder.histograms.dom()) {
        assert(after.sketches.dom() =~= after.recorder.histograms.dom());
    }
}

/// The observations that the first `n` steps record for the metric that `key` names, in order.
pub open spec fn recorded(steps: Seq<Step>, key: KeyView, n: int) -> Seq<Double>
    decreases n,
{
    if n <= 0 {
        Seq::empty()
    } else {
        match steps[n - 1] {
            Step::Observe(other, value) => if key::same_key(other, key) {
                recorded(steps, key, n - 1).push(value)
            } else {
                recorded(steps, key, n - 1)
            },
            _ => recorded(steps, key, n - 1),
        }
    }
}

/// Whether `sketch` is what a new sketch becomes when it absorbs `inside`, and `inside` and
/// `waiting` together are `values`, each as often, in some order.
pub open spec fn holds_all<T>(
    sketching: Sketching<T>,
    sketch: T,
    inside: Seq<Double>,
    waiting: Seq<Double>,
    values: Seq<Double>,
) -> bool {
    &&& sketch == inside.fold_left(sketching.fresh, sketching.absorb)
    &&& (inside + waiting).to_multiset() == values.to_multiset()
}

/// Whether each of `values` was absorbed once by the sketch of the histogram that `key` names or
/// still waits in its bucket, and nothing else was or does.
pub open spec fn accounted_for<T>(
    sketching: Sketching<T>,
    moment: Moment<T>,
    key: KeyView,
    values: Seq<Double>,
) -> bool {
    &&& registry::is_new(moment.recorder.histograms, key) ==> values == Seq::<Double>::empty()
    &&& forall|known: KeyView| #[trigger]
        moment.recorder.histograms.contains_key(known) && key::same_key(known, key) ==> exists|
            inside: Seq<Double>,
        | #[trigger]
            holds_all(
                sketching,
                sketching.sketch_of(moment.sketches, known),
                inside,
                moment.pending[moment.recorder.histograms[known]],
                values,
            )
}

/// Absorbing one list and then another is absorbing both.
proof fn lemma_absorb_both<T>(
    start: T,
    first: Seq<Double>,
    second: Seq<Double>,
    absorb: spec_fn(T, Double) -> T,
)
    ensures
        (first + second).fold_left(start, absorb) == second.fold_left(
            first.fold_left(start, absorb),
            absorb,
        ),
    decreases second.len(),
{
    if second.len() == 0 {
        assert(first + second =~= first);
    } else {
        lemma_absorb_both(start, first, second.drop_last(), absorb);
        assert((first + second).drop_last() =~= first + second.drop_last());
    }
}

/// The step's own part of what is recorded for `key`.
pub open spec fn recorded_with(step: Step, key: KeyView, values: Seq<Double>) -> Seq<Double> {
    match step {
        Step::Observe(other, value) => if key::same_key(other, key) {
            values.push(value)
        } else {
            values
        },
        _ => values,
    }
}

/// Registering a histogram keeps every observation accounted for.
proof fn lemma_registration_accounts<T>(
    sketching: Sketching<T>,
    before: Moment<T>,
    after: Moment<T>,
    other: KeyView,
    cell: HistogramCell,
    key: KeyView,
    values: Seq<Double>,
)
    requires
        registers_histogram(before, after, other, cell),
        before.recorder.well_formed(),
        before.sketches.dom().subset_of(before.recorder.histograms.dom()),
        accounted_for(sketching, before, key, values),
    ensures
        after.sketches.dom().subset_of(after.recorder.histograms.dom()),
        accounted_for(sketching, after, key, values),
{
    let cells = before.recorder.histograms;
    if registry::is_new(cells, other) {
        key::same_key_is_an_equivalence(other, other, other);
        assert(!cells.contains_key(other));
        assert(!before.sketches.dom().contains(other));
        assert(after.pending[cell] == Seq::<Double>::empty());
        if key::same_key(other, key) {
            assert forall|known: KeyView| cells.contains_key(known) implies !(
            #[trigger] key::same_key(known, key)) by {
                key::same_key_is_an_equivalence(other, key, known);
                key::same_key_is_an_equivalence(known, key, other);
            }
            assert(registry::is_new(cells, key));
        }
        assert forall|known: KeyView| #[trigger]
            after.recorder.histograms.contains_key(known) && key::same_key(
                known,
                key,
            ) implies exists|inside: Seq<Double>| #[trigger]
            holds_all(
                sketching,
                sketching.sketch_of(after.sketches, known),
                inside,
                after.pending[after.recorder.histograms[known]],
                values,
            ) by {
            if known == other {
                let none = Seq::<Double>::empty();
                assert(none + none =~= none);
                assert(!after.sketches.contains_key(other));
                assert(holds_all(
                    sketching,
                    sketching.sketch_of(after.sketches, known),
                    none,
                    after.pending[after.recorder.histograms[known]],
                    values,
                ));
            } else {
                assert(cells.contains_key(known));
                assert(cells[known] != cell);
                let inside = choose|inside: Seq<Double>| #[trigger]
                    holds_all(
                        sketching,
                        sketching.sketch_of(before.sketches, known),
                        inside,
                        before.pending[cells[known]],
                        values,
                    );
                assert(holds_all(
                    sketching,
                    sketching.sketch_of(after.sketches, known),
                    inside,
                    after.pending[after.recorder.histograms[known]],
                    values,
                ));
            }
        }
        if registry::is_new(after.recorder.histograms, key) {
            assert forall|known: KeyView| cells.contains_key(known) implies !(
            #[trigger] key::same_key(known, key)) by {
                assert(after.recorder.histograms.contains_key(known));
            }
            assert(registry::is_new(cells, key));
        }
    }
}

/// Recording an observation keeps every observation accounted for.
proof fn lemma_observation_accounts<T>(
    sketching: Sketching<T>,
    before: Moment<T>,
    after: Moment<T>,
    other: KeyView,
    value: Double,
    at: KeyView,
    key: KeyView,
    values: Seq<Double>,
)
    requires
        before.recorder.well_formed(),
        before.recorder.histograms.contains_key(at),
        key::same_key(at, other),
        after == (Moment {
            pending: before.pending.insert(
                before.recorder.histograms[at],
                before.pending[before.recorder.histograms[at]].push(value),
            ),
            ..before
        }),
        accounted_for(sketching, before, key, values),
    ensures
        accounted_for(
            sketching,
            after,
            key,
            recorded_with(Step::Observe(other, value), key, values),
        ),
{
    let cells = before.recorder.histograms;
    let now = recorded_with(Step::Observe(other, value), key, values);
    if key::same_key(other, key) {
        key::same_key_is_an_equivalence(at, other, key);
        assert(key::same_key(at, key));
    }
    assert forall|known: KeyView| #[trigger]
        after.recorder.histograms.contains_key(known) && key::same_key(
            known,
            key,
        ) implies exists|inside: Seq<Double>| #[trigger]
        holds_all(
            sketching,
            sketching.sketch_of(after.sketches, known),
            inside,
            after.pending[after.recorder.histograms[known]],
            now,
        ) by {
        let sketch = sketching.sketch_of(before.sketches, known);
        let waiting = before.pending[cells[known]];
        assert(cells.contains_key(known));
        let inside = choose|inside: Seq<Double>| #[trigger]
            holds_all(sketching, sketch, inside, waiting, values);
        if key::same_key(other, key) {
            lemma_one_name(cells, known, at, key);
            (inside + waiting).to_multiset_ensures();
            values.to_multiset_ensures();
            assert((inside + waiting).push(value) =~= inside + waiting.push(value));
            assert((inside + waiting).push(value).to_multiset() == (inside
                + waiting).to_multiset().insert(value));
            assert(values.push(value).to_multiset() == values.to_multiset().insert(value));
            assert(after.pending[cells[known]] == waiting.push(value));
        } else {
            if known == at {
                key::same_key_is_an_equivalence(at, other, key);
                key::same_key_is_an_equivalence(other, at, key);
            }
            assert(cells[known] != cells[at]);
        }
        assert(holds_all(
            sketching,
            sketching.sketch_of(after.sketches, known),
            inside,
            after.pending[after.recorder.histograms[known]],
            now,
        ));
    }
}

/// A poll keeps every observation accounted for.
proof fn lemma_poll_accounts<T>(
    sketching: Sketching<T>,
    before: Moment<T>,
    after: Moment<T>,
    key: KeyView,
    values: Seq<Double>,
)
    requires
        sketching.valid(),
        polls(sketching, before, after),
        accounted_for(sketching, before, key, values),
    ensures
        accounted_for(sketching, after, key, values),
{
    let cells = before.recorder.histograms;
    assert forall|known: KeyView| #[trigger]
        after.recorder.histograms.contains_key(known) && key::same_key(
            known,
            key,
        ) implies exists|inside: Seq<Double>| #[trigger]
        holds_all(
            sketching,
            sketching.sketch_of(after.sketches, known),
            inside,
            after.pending[after.recorder.histograms[known]],
            values,
        ) by {
        let sketch = sketching.sketch_of(before.sketches, known);
        let waiting = before.pending[cells[known]];
        assert(cells.contains_key(known));
        let inside = choose|inside: Seq<Double>| #[trigger]
            holds_all(sketching, sketch, inside, waiting, values);
        let taken = (sketching.handed_out)(waiting);
        let none = Seq::<Double>::empty();
        lemma_absorb_both(sketching.fresh, inside, taken, sketching.absorb);
        vstd::seq_lib::lemma_multiset_commutative(inside, taken);
        vstd::seq_lib::lemma_multiset_commutative(inside, waiting);
        assert((inside + taken) + none =~= inside + taken);
        assert(after.pending[cells[known]] == none);
        assert(after.sketches.dom().contains(known));
        assert(holds_all(
            sketching,
            sketching.sketch_of(after.sketches, known),
            inside + taken,
            none,
            values,
        ));
    }
}

/// One step keeps every observation accounted for.
proof fn lemma_step_accounts<T>(
    sketching: Sketching<T>,
    step: Step,
    before: Moment<T>,
    after: Moment<T>,
    key: KeyView,
    values: Seq<Double>,
)
    requires
        sketching.valid(),
        leads(sketching, step, before, after),
        before.recorder.well_formed(),
        before.sketches.dom().subset_of(before.recorder.histograms.dom()),
        accounted_for(sketching, before, key, values),
    ensures
        after.recorder.well_formed(),
        after.sketches.dom().subset_of(after.recorder.histograms.dom()),
        accounted_for(sketching, after, key, recorded_with(step, key, values)),
{
    match step {
        Step::RegisterHistogram(other) => {
            let cell = choose|cell: HistogramCell| #[trigger]
                registers_histogram(before, after, other, cell);
            lemma_registration_accounts(sketching, before, after, other, cell, key, values);
        },
        Step::Observe(other, value) => {
            let cells = before.recorder.histograms;
            let at = choose|known: KeyView| #[trigger]
                cells.contains_key(known) && key::same_key(known, other) && after == (Moment {
                    pending: before.pending.insert(
                        cells[known],
                        before.pending[cells[known]].push(value),
                    ),
                    ..before
                });
            lemma_observation_accounts(sketching, before, after, other, value, at, key, values);
        },
        Step::Poll => {
            lemma_poll_accounts(sketching, before, after, key, values);
        },
        Step::RegisterCounter(other) => {
            let cell = choose|cell: AtomicU64| #[trigger]
                registers_counter(before, after, other, cell);
            assert(accounted_for(sketching, after, key, values));
        },
        Step::RegisterGauge(other) => {
            let cell = choose|cell: AtomicU64| #[trigger]
                registers_gauge(before, after, other, cell);
            assert(accounted_for(sketching, after, key, values));
        },
        Step::UpdateCounter(_, _) => {
            assert(after.recorder == before.recorder && after.sketches == before.sketches);
            assert(after.pending == before.pending);
            assert(accounted_for(sketching, after, key, values));
        },
        Step::UpdateGauge(_, _) => {
            assert(after.recorder == before.recorder && after.sketches == before.sketches);
            assert(after.pending == before.pending);
            assert(accounted_for(sketching, after, key, values));
        },
    }
}

/// At every moment of a run each observation that was recorded for a metric is accounted for once:
/// the metric's sketch absorbed it or it still waits in the bucket, however the observations are
/// split over polls. Only registered histograms have a sketch.
pub proof fn every_observation_is_accounted_for<T>(
    sketching: Sketching<T>,
    steps: Seq<Step>,
    moments: Seq<Moment<T>>,
    key: KeyView,
)
    requires
        sketching.valid(),
        runs(sketching, steps, moments),
        just_built(moments[0]),
    ensures
        moments.last().recorder.well_formed(),
        moments.last().sketches.dom().subset_of(moments.last().recorder.histograms.dom()),
        accounted_for(
            sketching,
            moments.last(),
            key,
            recorded(steps, key, steps.len() as int),
        ),
    decreases steps.len(),
{
    if steps.len() == 0 {
        let cells = moments[0].recorder.histograms;
        assert forall|known: KeyView| !#[trigger] cells.contains_key(known) by {
            assert(!cells.dom().contains(known));
        }
    } else {
        let n = steps.len() - 1;
        lemma_runs_until(sketching, steps, moments);
        every_observation_is_accounted_for(
            sketching,
            steps.drop_last(),
            moments.drop_last(),
            key,
        );
        lemma_recorded_until(steps, key, n);
        assert(leads(sketching, steps[n], moments[n], moments[n + 1]));
        lemma_step_accounts(
            sketching,
            steps[n],
            moments[n],
            moments[n + 1],
            key,
            recorded(steps, key, n),
        );
    }
}

/// The first `n` steps alone decide what they recorded.
proof fn lemma_recorded_until(steps: Seq<Step>, key: KeyView, n: int)
    requires
        0 <= n < steps.len(),
    ensures
        recorded(steps.drop_last(), key, n) == recorded(steps, key, n),
    decreases n,
{
    if n > 0 {
        lemma_recorded_until(steps, key, n - 1);
    }
}

/// Each observation counts exactly once: after a poll the sketch of a histogram is what a new
/// sketch becomes when it absorbs all that was recorded for the histogram since the recorder was
/// built, each observation once, whatever polls there were in between.
pub proof fn each_observation_counts_once<T>(
    sketching: Sketching<T>,
    steps: Seq<Step>,
    moments: Seq<Moment<T>>,
    key: KeyView,
)
    requires
        sketching.valid(),
        runs(sketching, steps.push(Step::Poll), moments),
        just_built(moments[0]),
        moments.last().recorder.histograms.contains_key(key),
    ensures
        exists|inside: Seq<Double>|
            {
                &&& moments.last().sketches[key] == #[trigger] inside.fold_left(
                    sketching.fresh,
                    sketching.absorb,
                )
                &&& inside.to_multiset() == recorded(
                    steps,
                    key,
                    steps.len() as int,
                ).to_multiset()
            },
{
    let all = steps.push(Step::Poll);
    let n = steps.len() as int;
    let last = moments.last();
    let cells = last.recorder.histograms;
    every_observation_is_accounted_for(sketching, all, moments, key);
    assert(all.drop_last() =~= steps);
    lemma_recorded_until(all, key, n);
    assert(all[n] == Step::Poll);
    assert(leads(sketching, all[n], moments[n], moments[n + 1]));
    key::same_key_is_an_equivalence(key, key, key);
    assert(last.sketches.dom().contains(key));
    let none = last.pending[cells[key]];
    assert(none == Seq::<Double>::empty());
    let inside = choose|inside: Seq<Double>| #[trigger]
        holds_all(
            sketching,
            sketching.sketch_of(last.sketches, key),
            inside,
            none,
            recorded(steps, key, n),
        );
    assert(inside + none =~= inside);
    assert(last.sketches[key] == inside.fold_left(sketching.fresh, sketching.absorb));
}

/// What is recorded for a metric only grows, so a count never decreases from poll to poll and a
/// histogram that was reported stays reported.
pub proof fn records_only_grow(steps: Seq<Step>, key: KeyView, n: int, m: int)
    requires
        0 <= n <= m,
    ensures
        recorded(steps, key, n).is_prefix_of(recorded(steps, key, m)),
    decreases m,
{
    if n < m {
        records_only_grow(steps, key, n, m - 1);
    }
}

/// Whether the summary of a sketch that absorbed `values`, in any order, counts each of them.
pub open spec fn counts<T>(sketching: Sketching<T>, values: Seq<Double>) -> bool {
    forall|inside: Seq<Double>|
        inside.to_multiset() == values.to_multiset() ==> (sketching.summary)(
            #[trigger] inside.fold_left(sketching.fresh, sketching.absorb),
        ).count == values.len()
}

/// An observation shows in the next snapshot: the next poll reads its histogram once, with the
/// count of all that was recorded for it since the recorder was built, and reports it. Whether the
/// metric streams plays no part.
pub proof fn observation_shows_in_the_next_snapshot<T>(
    sketching: Sketching<T>,
    steps: Seq<Step>,
    moments: Seq<Moment<T>>,
    key: KeyView,
    at: int,
    samples: Seq<event::SampleView>,
    counters: Seq<(MetricKey, Loaded)>,
    gauges: Seq<(MetricKey, Loaded)>,
    histograms: Seq<poller::HistogramReadingView>,
)
    requires
        sketching.valid(),
        runs(sketching, steps.push(Step::Poll), moments),
        just_built(moments[0]),
        moments.last().recorder.histograms.contains_key(key),
        0 <= at < steps.len(),
        steps[at] matches Step::Observe(other, value) && key::same_key(other, key),
        counts(sketching, recorded(steps, key, steps.len() as int)),
        poller::is_snapshot(samples, moments.last().recorder, counters, gauges, histograms),
        read_after(sketching, histograms, moments.last()),
    ensures
        exists|i: int|
            {
                &&& 0 <= i < histograms.len()
                &&& (#[trigger] histograms[i]).key == key
                &&& histograms[i].count == recorded(steps, key, steps.len() as int).len()
                &&& histograms[i].count > 0
                &&& samples.contains(poller::histogram_sample_spec(histograms[i]))
                &&& forall|j: int|
                    0 <= j < histograms.len() && (#[trigger] histograms[j]).key == key ==> j == i
            },
{
    let values = recorded(steps, key, steps.len() as int);
    let last = moments.last();
    each_observation_counts_once(sketching, steps, moments, key);
    let inside = choose|inside: Seq<Double>|
        {
            &&& last.sketches[key] == #[trigger] inside.fold_left(
                sketching.fresh,
                sketching.absorb,
            )
            &&& inside.to_multiset() == values.to_multiset()
        };
    assert((sketching.summary)(
        inside.fold_left(sketching.fresh, sketching.absorb),
    ).count == values.len());
    records_only_grow(steps, key, at + 1, steps.len() as int);
    assert(recorded(steps, key, at + 1).len() > 0);
    let keys = histograms.map_values(|reading: poller::HistogramReadingView| reading.key);
    assert(keys.to_set().contains(key));
    let i = choose|i: int| 0 <= i < keys.len() && keys[i] == key;
    assert(histograms[i].key == key);
    assert(histograms[i].count == (sketching.summary)(last.sketches[key]).count);
    laws::histograms_are_reported_once(samples, last.recorder, counters, gauges, histograms);
    let observed = |reading: poller::HistogramReadingView| reading.count > 0;
    let reported = histograms.filter(observed);
    assert(observed(histograms[i]));
    assert(reported.contains(histograms[i]));
    let j = choose|j: int| 0 <= j < reported.len() && reported[j] == histograms[i];
    assert(samples[counters.len() + gauges.len() + j] == poller::histogram_sample_spec(
        reported[j],
    ));
    assert forall|j: int| 0 <= j < histograms.len() && (#[trigger] histograms[j]).key
        == key implies j == i by {
        assert(keys[j] == keys[i]);
    }
}

} // verus!
