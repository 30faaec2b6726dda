//! The periodic snapshot: what one tick does, and what it reports of every metric.

use std::sync::atomic::AtomicU64;
use std::time::Duration;

use vstd::prelude::*;

use crate::bucket::Taken;
use crate::cell::Loaded;
use crate::drain;
use crate::drain::{read_histograms, SketchSummary};
use crate::event;
use crate::event::{make_event, Body, Double, Event, Level, Sample, NAN_BITS};
use crate::key;
use crate::key::{render_key, KeyView, MetricKey};
use crate::recorder;
use crate::recorder::TracingRecorder;
use crate::registry;
use crate::sketch::Sketches;

verus! {

/// What the sketch of one histogram says after its bucket was drained into it: how many
/// observations it holds, their sum, and the quantiles that it can estimate.
#[derive(Debug)]
pub struct HistogramReading {
    pub key: MetricKey,
    pub count: usize,
    pub sum: Double,
    pub p50: Option<Double>,
    pub p90: Option<Double>,
    pub p99: Option<Double>,
}

/// The mathematical value of a [`HistogramReading`].
#[verifier::ext_equal]
pub struct HistogramReadingView {
    pub key: KeyView,
    pub count: usize,
    pub sum: Double,
    pub p50: Option<Double>,
    pub p90: Option<Double>,
    pub p99: Option<Double>,
}

impl View for HistogramReading {
    type V = HistogramReadingView;

    open spec fn view(&self) -> HistogramReadingView {
        HistogramReadingView {
            key: self.key@,
            count: self.count,
            sum: self.sum,
            p50: self.p50,
            p90: self.p90,
            p99: self.p99,
        }
    }
}

/// The views of a list of histogram readings.
pub open spec fn histogram_views(readings: Seq<HistogramReading>) -> Seq<HistogramReadingView> {
    readings.map_values(|reading: HistogramReading| reading@)
}

/// The keys and numbers of a list of counter or gauge readings.
pub open spec fn number_views(readings: Seq<(MetricKey, u64)>) -> Seq<(KeyView, u64)> {
    readings.map_values(|reading: (MetricKey, u64)| (reading.0@, reading.1))
}

/// The keys and loaded numbers of a list of counter or gauge readings.
pub open spec fn loaded_numbers(readings: Seq<(MetricKey, Loaded)>) -> Seq<(KeyView, u64)> {
    readings.map_values(|reading: (MetricKey, Loaded)| (reading.0@, reading.1.value_spec()))
}

/// One sample per counter.
pub open spec fn counter_samples(readings: Seq<(KeyView, u64)>) -> Seq<event::SampleView> {
    readings.map_values(
        |reading: (KeyView, u64)|
            event::SampleView::Counter { metric: key::rendered(reading.0), value: reading.1 },
    )
}

/// One sample per gauge. The reading is the bit pattern of the value.
pub open spec fn gauge_samples(readings: Seq<(KeyView, u64)>) -> Seq<event::SampleView> {
    readings.map_values(
        |reading: (KeyView, u64)|
            event::SampleView::Gauge {
                metric: key::rendered(reading.0),
                value: Double { bits: reading.1 },
            },
    )
}

/// A quantile, or not-a-number where there is no estimate.
pub open spec fn quantile_spec(estimate: Option<Double>) -> Double {
    match estimate {
        Some(value) => value,
        None => Double { bits: NAN_BITS },
    }
}

/// The sample of one histogram.
pub open spec fn histogram_sample_spec(reading: HistogramReadingView) -> event::SampleView {
    event::SampleView::Histogram {
        metric: key::rendered(reading.key),
        count: reading.count,
        sum: reading.sum,
        p50: quantile_spec(reading.p50),
        p90: quantile_spec(reading.p90),
        p99: quantile_spec(reading.p99),
    }
}

/// One sample per histogram that has an observation.
pub open spec fn histogram_samples(readings: Seq<HistogramReadingView>) -> Seq<event::SampleView> {
    readings.filter(|reading: HistogramReadingView| reading.count > 0).map_values(
        |reading: HistogramReadingView| histogram_sample_spec(reading),
    )
}

/// A whole snapshot: the counters, then the gauges, then the histograms.
pub open spec fn snapshot(
    counters: Seq<(KeyView, u64)>,
    gauges: Seq<(KeyView, u64)>,
    histograms: Seq<HistogramReadingView>,
) -> Seq<event::SampleView> {
    counter_samples(counters) + gauge_samples(gauges) + histogram_samples(histograms)
}

/// Whether `samples` is the snapshot of the recorder that these readings of its counters, gauges and
/// histograms give: each counter and each gauge was read once.
pub open spec fn is_snapshot(
    samples: Seq<event::SampleView>,
    recorder: recorder::RecorderView,
    counters: Seq<(MetricKey, Loaded)>,
    gauges: Seq<(MetricKey, Loaded)>,
    histograms: Seq<HistogramReadingView>,
) -> bool {
    &&& registry::lists_once(recorder::reading_entries(counters), recorder.counters)
    &&& registry::lists_once(recorder::reading_entries(gauges), recorder.gauges)
    &&& samples == snapshot(loaded_numbers(counters), loaded_numbers(gauges), histograms)
}

/// Whether `histograms` has one reading for each histogram of the recorder, and no other.
pub open spec fn reads_histograms(
    histograms: Seq<HistogramReadingView>,
    recorder: recorder::RecorderView,
) -> bool {
    let keys = histograms.map_values(|reading: HistogramReadingView| reading.key);
    keys.no_duplicates() && keys.to_set() == recorder.histograms.dom()
}

/// A snapshot, with the readings that it reports and the observations that were taken out of each
/// histogram.
pub struct Polled {
    pub samples: Vec<Sample>,
    pub counters: Vec<(MetricKey, Loaded)>,
    pub gauges: Vec<(MetricKey, Loaded)>,
    pub histograms: Vec<HistogramReading>,
    pub taken: Vec<Taken>,
}

/// The events of a snapshot, with the readings that they report and the observations that were
/// taken out of each histogram.
pub struct Reported {
    pub events: Vec<Event>,
    pub counters: Vec<(MetricKey, Loaded)>,
    pub gauges: Vec<(MetricKey, Loaded)>,
    pub histograms: Vec<HistogramReading>,
    pub taken: Vec<Taken>,
}

/// A quantile, or not-a-number where there is no estimate.
fn quantile(estimate: Option<Double>) -> (value: Double)
    ensures
        value == quantile_spec(estimate),
{
    match estimate {
        Some(value) => value,
        None => Double { bits: NAN_BITS },
    }
}

/// The sample of one histogram, if it has an observation.
pub fn histogram_sample(reading: &HistogramReading) -> (sample: Option<Sample>)
    ensures
        reading.count == 0 ==> sample is None,
        reading.count > 0 ==> sample is Some && sample->Some_0@ == histogram_sample_spec(reading@),
{
    if reading.count == 0 {
        return None;
    }
    Some(
        Sample::Histogram {
            metric: render_key(&reading.key),
            count: reading.count,
            sum: reading.sum,
            p50: quantile(reading.p50),
            p90: quantile(reading.p90),
            p99: quantile(reading.p99),
        },
    )
}

/// Puts a snapshot together from what was read of every metric.
pub fn assemble(
    counters: &Vec<(MetricKey, u64)>,
    gauges: &Vec<(MetricKey, u64)>,
    histograms: &Vec<HistogramReading>,
) -> (samples: Vec<Sample>)
    ensures
        event::sample_views(samples@) == snapshot(
            number_views(counters@),
            number_views(gauges@),
            histogram_views(histograms@),
        ),
{
    let ghost counter_part = counter_samples(number_views(counters@));
    let ghost gauge_part = gauge_samples(number_views(gauges@));
    let ghost readings = histogram_views(histograms@);
    let mut samples: Vec<Sample> = Vec::new();

    for i in 0..counters.len()
        invariant
            counter_part == counter_samples(number_views(counters@)),
            event::sample_views(samples@) =~= counter_part.take(i as int),
    {
        let sample = Sample::Counter { metric: render_key(&counters[i].0), value: counters[i].1 };
        let ghost before = samples@;
        samples.push(sample);
        assert(event::sample_views(samples@) =~= event::sample_views(before).push(sample@));
        assert(counter_part.take(i + 1) =~= counter_part.take(i as int).push(counter_part[i as int]));
    }
    assert(counter_part.take(counters.len() as int) =~= counter_part);

    for i in 0..gauges.len()
        invariant
            gauge_part == gauge_samples(number_views(gauges@)),
            event::sample_views(samples@) =~= counter_part + gauge_part.take(i as int),
    {
        let sample = Sample::Gauge {
            metric: render_key(&gauges[i].0),
            value: Double { bits: gauges[i].1 },
        };
        let ghost before = samples@;
        samples.push(sample);
        assert(event::sample_views(samples@) =~= event::sample_views(before).push(sample@));
        assert(gauge_part.take(i + 1) =~= gauge_part.take(i as int).push(gauge_part[i as int]));
    }
    assert(gauge_part.take(gauges.len() as int) =~= gauge_part);

    proof {
        reveal(Seq::filter);
        assert(readings.take(0) =~= Seq::<HistogramReadingView>::empty());
        assert(histogram_samples(readings.take(0)) =~= Seq::<event::SampleView>::empty());
    }
    for i in 0..histograms.len()
        invariant
            readings == histogram_views(histograms@),
            event::sample_views(samples@) =~= counter_part + gauge_part + histogram_samples(
                readings.take(i as int),
            ),
    {
        let ghost before = samples@;
        proof {
            reveal(Seq::filter);
            assert(readings.take(i + 1).drop_last() =~= readings.take(i as int));
            assert(readings.take(i + 1).last() == histograms@[i as int]@);
        }
        match histogram_sample(&histograms[i]) {
            Some(sample) => {
                samples.push(sample);
                assert(event::sample_views(samples@) =~= event::sample_views(before).push(sample@));
                assert(histogram_samples(readings.take(i + 1)) =~= histogram_samples(
                    readings.take(i as int),
                ).push(sample@));
            },
            None => {
                assert(histogram_samples(readings.take(i + 1)) =~= histogram_samples(
                    readings.take(i as int),
                ));
            },
        }
    }
    assert(readings.take(histograms.len() as int) =~= readings);
    samples
}

/// Takes the numbers out of a list of readings.
fn numbers(readings: &Vec<(MetricKey, Loaded)>) -> (numbers: Vec<(MetricKey, u64)>)
    ensures
        number_views(numbers@) == loaded_numbers(readings@),
{
    let mut numbers: Vec<(MetricKey, u64)> = Vec::new();
    for i in 0..readings.len()
        invariant
            numbers.len() == i,
            forall|j: int|
                0 <= j < i ==> (#[trigger] numbers@[j]).0@ == readings@[j].0@ && numbers@[j].1
                    == readings@[j].1.value_spec(),
    {
        numbers.push((readings[i].0.clone(), readings[i].1.value()));
    }
    assert(number_views(numbers@) =~= loaded_numbers(readings@));
    numbers
}

/// The snapshot event of one counter.
pub fn emit_snapshot_counter(level: Level, scope: &str, metric: String, value: u64) -> (event: Event)
    ensures
        event@ == event::event_of(
            level,
            scope@,
            event::BodyView::Snapshot(event::SampleView::Counter { metric: metric@, value }),
        ),
{
    make_event(level, scope, Body::Snapshot(Sample::Counter { metric, value }))
}

/// The snapshot event of one gauge.
pub fn emit_snapshot_gauge(level: Level, scope: &str, metric: String, value: Double) -> (event: Event)
    ensures
        event@ == event::event_of(
            level,
            scope@,
            event::BodyView::Snapshot(event::SampleView::Gauge { metric: metric@, value }),
        ),
{
    make_event(level, scope, Body::Snapshot(Sample::Gauge { metric, value }))
}

/// The snapshot event of one histogram.
pub fn emit_snapshot_histogram(
    level: Level,
    scope: &str,
    metric: String,
    count: usize,
    sum: Double,
    p50: Double,
    p90: Double,
    p99: Double,
) -> (event: Event)
    ensures
        event@ == event::event_of(
            level,
            scope@,
            event::BodyView::Snapshot(
                event::SampleView::Histogram { metric: metric@, count, sum, p50, p90, p99 },
            ),
        ),
{
    make_event(
        level,
        scope,
        Body::Snapshot(Sample::Histogram { metric, count, sum, p50, p90, p99 }),
    )
}

/// The snapshot events of `samples`, one for each, in order.
pub open spec fn snapshot_events_spec(
    level: Level,
    scope: Seq<char>,
    samples: Seq<event::SampleView>,
) -> Seq<event::EventView> {
    samples.map_values(
        |sample: event::SampleView|
            event::event_of(level, scope, event::BodyView::Snapshot(sample)),
    )
}

/// One step of the poller's endless round.
#[derive(Debug, Clone, Copy, PartialEq, Eq, Structural)]
pub enum TickStep {
    /// Wait for the snapshot interval.
    Sleep,
    /// Run the hook, so that metrics that are pulled can be refreshed first.
    RunHook,
    /// Emit the snapshot.
    EmitSnapshot,
}

impl TickStep {
    /// The step that a poller starts with: it waits before anything else.
    pub fn first() -> (step: TickStep)
        ensures
            step == TickStep::Sleep,
    {
        TickStep::Sleep
    }

    /// The step after `self`.
    pub open spec fn next_spec(self, has_hook: bool) -> TickStep {
        match self {
            TickStep::Sleep => if has_hook {
                TickStep::RunHook
            } else {
                TickStep::EmitSnapshot
            },
            TickStep::RunHook => TickStep::EmitSnapshot,
            TickStep::EmitSnapshot => TickStep::Sleep,
        }
    }

    /// The step after `self`.
    pub fn next(self, has_hook: bool) -> (step: TickStep)
        ensures
            step == self.next_spec(has_hook),
    {
        match self {
            TickStep::Sleep => if has_hook {
                TickStep::RunHook
            } else {
                TickStep::EmitSnapshot
            },
            TickStep::RunHook => TickStep::EmitSnapshot,
            TickStep::EmitSnapshot => TickStep::Sleep,
        }
    }
}

/// Drives the periodic snapshot. The hook, if there is one, is an `H`; only the owner of the poller
/// can call it.
pub struct Poller<H> {
    interval: Duration,
    level: Level,
    scope: String,
    on_tick: Option<H>,
}

/// The mathematical value of a [`Poller`].
pub struct PollerView<H> {
    pub interval: Duration,
    pub level: Level,
    pub scope: Seq<char>,
    pub on_tick: Option<H>,
}

impl<H> View for Poller<H> {
    type V = PollerView<H>;

    closed spec fn view(&self) -> PollerView<H> {
        PollerView {
            interval: self.interval,
            level: self.level,
            scope: self.scope@,
            on_tick: self.on_tick,
        }
    }
}

impl<H> Poller<H> {
    /// A poller with these settings.
    pub(crate) fn with_settings(
        interval: Duration,
        level: Level,
        scope: String,
        on_tick: Option<H>,
    ) -> (poller: Self)
        ensures
            poller@ == (PollerView { interval, level, scope: scope@, on_tick }),
    {
        Poller { interval, level, scope, on_tick }
    }

    /// The hook to run in the step [`TickStep::RunHook`], if there is one.
    pub fn hook(&self) -> (hook: Option<&H>)
        ensures
            hook is Some <==> self@.on_tick is Some,
            hook matches Some(hook) ==> Some(*hook) == self@.on_tick,
    {
        match &self.on_tick {
            Some(hook) => Some(hook),
            None => None,
        }
    }

    /// The step of the poller's round after `step`.
    pub fn next_step(&self, step: TickStep) -> (next: TickStep)
        ensures
            next == step.next_spec(self@.on_tick is Some),
    {
        step.next(self.on_tick.is_some())
    }

    /// The time between two snapshots.
    pub fn interval(&self) -> (interval: Duration)
        ensures
            interval == self@.interval,
    {
        self.interval
    }

    /// Computes the current snapshot of the recorder: reads every counter and gauge, then drains
    /// every histogram into its sketch and reads that. The samples come with the readings that they
    /// report.
    pub fn poll_once<T, N: Fn() -> T, A: Fn(T, Double) -> T, S: Fn(&T) -> SketchSummary>(
        &self,
        recorder: &TracingRecorder,
        sketches: &mut Sketches<T>,
        fresh: &N,
        absorb: &A,
        summarise: &S,
    ) -> (polled: Polled)
        requires
            old(sketches).well_formed(),
            call_requires(*fresh, ()),
            forall|t: T, value: Double| #[trigger] call_requires(*absorb, (t, value)),
            forall|t: T| #[trigger] call_requires(*summarise, (&t,)),
        ensures
            registry::lists_once(
                recorder::reading_entries(polled.counters@),
                recorder@.counters,
            ),
            registry::lists_once(recorder::reading_entries(polled.gauges@), recorder@.gauges),
            reads_histograms(histogram_views(polled.histograms@), recorder@),
            drain::drains(
                histogram_views(polled.histograms@),
                polled.taken@,
                recorder@.histograms,
                old(sketches)@,
                final(sketches)@,
                *fresh,
                *absorb,
                *summarise,
            ),
            final(sketches).well_formed(),
            event::sample_views(polled.samples@) == snapshot(
                loaded_numbers(polled.counters@),
                loaded_numbers(polled.gauges@),
                histogram_views(polled.histograms@),
            ),
    {
        let counters = recorder.read_counters();
        let gauges = recorder.read_gauges();
        let drained = read_histograms(recorder, sketches, fresh, absorb, summarise);
        let samples = assemble(&numbers(&counters), &numbers(&gauges), &drained.readings);
        proof {
            let views = histogram_views(drained.readings@);
            assert(views.map_values(|reading: HistogramReadingView| reading.key)
                =~= drain::drained_entries(views, drained.taken@).map_values(
                |entry: (KeyView, registry::HistogramCell)| entry.0,
            ));
        }
        Polled {
            samples,
            counters,
            gauges,
            histograms: drained.readings,
            taken: drained.taken,
        }
    }

    /// The events that report `samples`.
    pub fn snapshot_events(&self, samples: Vec<Sample>) -> (events: Vec<Event>)
        ensures
            event::event_views(events@) == snapshot_events_spec(
                self@.level,
                self@.scope,
                event::sample_views(samples@),
            ),
    {
        let ghost expected = snapshot_events_spec(
            self@.level,
            self@.scope,
            event::sample_views(samples@),
        );
        let ghost all = samples@;
        let mut events: Vec<Event> = Vec::new();
        for sample in rest: samples
            invariant
                expected == snapshot_events_spec(
                    self@.level,
                    self@.scope,
                    event::sample_views(all),
                ),
                rest.seq() == all,
                event::event_views(events@) =~= expected.take(rest.index() as int),
        {
            let ghost i = rest.index();
            let ghost view = sample@;
            let event = match sample {
                Sample::Counter { metric, value } => emit_snapshot_counter(
                    self.level,
                    self.scope.as_str(),
                    metric,
                    value,
                ),
                Sample::Gauge { metric, value } => emit_snapshot_gauge(
                    self.level,
                    self.scope.as_str(),
                    metric,
                    value,
                ),
                Sample::Histogram { metric, count, sum, p50, p90, p99 } => emit_snapshot_histogram(
                    self.level,
                    self.scope.as_str(),
                    metric,
                    count,
                    sum,
                    p50,
                    p90,
                    p99,
                ),
            };
            let ghost before = events@;
            events.push(event);
            assert(event::event_views(events@) =~= event::event_views(before).push(event@));
            assert(expected.take(i + 1) =~= expected.take(i as int).push(expected[i as int]));
        }
        assert(expected.take(all.len() as int) =~= expected);
        events
    }

    /// Computes the current snapshot of the recorder and gives the events that report it, with the
    /// readings.
    pub fn emit_snapshot<T, N: Fn() -> T, A: Fn(T, Double) -> T, S: Fn(&T) -> SketchSummary>(
        &self,
        recorder: &TracingRecorder,
        sketches: &mut Sketches<T>,
        fresh: &N,
        absorb: &A,
        summarise: &S,
    ) -> (reported: Reported)
        requires
            old(sketches).well_formed(),
            call_requires(*fresh, ()),
            forall|t: T, value: Double| #[trigger] call_requires(*absorb, (t, value)),
            forall|t: T| #[trigger] call_requires(*summarise, (&t,)),
        ensures
            registry::lists_once(
                recorder::reading_entries(reported.counters@),
                recorder@.counters,
            ),
            registry::lists_once(recorder::reading_entries(reported.gauges@), recorder@.gauges),
            reads_histograms(histogram_views(reported.histograms@), recorder@),
            drain::drains(
                histogram_views(reported.histograms@),
                reported.taken@,
                recorder@.histograms,
                old(sketches)@,
                final(sketches)@,
                *fresh,
                *absorb,
                *summarise,
            ),
            final(sketches).well_formed(),
            event::event_views(reported.events@) == snapshot_events_spec(
                self@.level,
                self@.scope,
                snapshot(
                    loaded_numbers(reported.counters@),
                    loaded_numbers(reported.gauges@),
                    histogram_views(reported.histograms@),
                ),
            ),
    {
        let polled = self.poll_once(recorder, sketches, fresh, absorb, summarise);
        let events = self.snapshot_events(polled.samples);
        Reported {
            events,
            counters: polled.counters,
            gauges: polled.gauges,
            histograms: polled.histograms,
            taken: polled.taken,
        }
    }
}

/// A snapshot reports every counter and gauge of the recorder once and nothing else of these
/// kinds, and exactly the histograms that have an observation.
pub proof fn snapshot_covers_the_registry(
    samples: Seq<event::SampleView>,
    recorder: recorder::RecorderView,
    counters: Seq<(MetricKey, Loaded)>,
    gauges: Seq<(MetricKey, Loaded)>,
    histograms: Seq<HistogramReadingView>,
)
    requires
        is_snapshot(samples, recorder, counters, gauges, histograms),
    ensures
        samples.len() == recorder.counters.dom().len() + recorder.gauges.dom().len()
            + histograms.filter(|reading: HistogramReadingView| reading.count > 0).len(),
        forall|key: KeyView| #[trigger]
            recorder.counters.contains_key(key) ==> exists|i: int|
                0 <= i < samples.len() && (#[trigger] samples[i]).kind()
                    == event::MetricKind::Counter && samples[i].metric() == key::rendered(key),
        forall|key: KeyView| #[trigger]
            recorder.gauges.contains_key(key) ==> exists|i: int|
                0 <= i < samples.len() && (#[trigger] samples[i]).kind()
                    == event::MetricKind::Gauge && samples[i].metric() == key::rendered(key),
        forall|i: int|
            0 <= i < samples.len() && (#[trigger] samples[i]).kind() == event::MetricKind::Counter
                ==> exists|key: KeyView| #[trigger]
                recorder.counters.contains_key(key) && samples[i].metric() == key::rendered(key),
        forall|i: int|
            0 <= i < samples.len() && (#[trigger] samples[i]).kind() == event::MetricKind::Gauge
                ==> exists|key: KeyView| #[trigger]
                recorder.gauges.contains_key(key) && samples[i].metric() == key::rendered(key),
{
    let counter_keys = recorder::reading_entries(counters).map_values(
        |entry: (KeyView, AtomicU64)| entry.0,
    );
    let gauge_keys = recorder::reading_entries(gauges).map_values(
        |entry: (KeyView, AtomicU64)| entry.0,
    );
    counter_keys.unique_seq_to_set();
    gauge_keys.unique_seq_to_set();
    assert forall|key: KeyView| #[trigger] recorder.counters.contains_key(key) implies exists|i: int|
        0 <= i < samples.len() && (#[trigger] samples[i]).kind() == event::MetricKind::Counter
            && samples[i].metric() == key::rendered(key) by {
        assert(counter_keys.to_set().contains(key));
        let i = choose|i: int| 0 <= i < counter_keys.len() && counter_keys[i] == key;
        assert(samples[i] == counter_samples(loaded_numbers(counters))[i]);
    }
    assert forall|key: KeyView| #[trigger] recorder.gauges.contains_key(key) implies exists|i: int|
        0 <= i < samples.len() && (#[trigger] samples[i]).kind() == event::MetricKind::Gauge
            && samples[i].metric() == key::rendered(key) by {
        assert(gauge_keys.to_set().contains(key));
        let i = choose|i: int| 0 <= i < gauge_keys.len() && gauge_keys[i] == key;
        assert(samples[counters.len() + i] == gauge_samples(loaded_numbers(gauges))[i]);
    }
    assert forall|i: int|
        0 <= i < samples.len() && (#[trigger] samples[i]).kind()
            == event::MetricKind::Counter implies exists|key: KeyView| #[trigger]
        recorder.counters.contains_key(key) && samples[i].metric() == key::rendered(key) by {
        assert(i < counters.len());
        assert(counter_keys.to_set().contains(counter_keys[i]));
        assert(recorder.counters.contains_key(counter_keys[i]));
    }
    assert forall|i: int|
        0 <= i < samples.len() && (#[trigger] samples[i]).kind()
            == event::MetricKind::Gauge implies exists|key: KeyView| #[trigger]
        recorder.gauges.contains_key(key) && samples[i].metric() == key::rendered(key) by {
        let j = i - counters.len();
        assert(0 <= j < gauges.len());
        assert(gauge_keys.to_set().contains(gauge_keys[j]));
        assert(recorder.gauges.contains_key(gauge_keys[j]));
    }
}

/// Where there is a hook, it runs directly before every snapshot and once per round; where there
/// is none, every round is a wait and a snapshot.
pub proof fn hook_runs_before_every_snapshot(step: TickStep)
    ensures
        step.next_spec(true) == TickStep::EmitSnapshot <==> step == TickStep::RunHook,
        step.next_spec(true) == TickStep::RunHook <==> step == TickStep::Sleep,
        step.next_spec(true).next_spec(true).next_spec(true) == step,
        step.next_spec(false) != TickStep::RunHook,
        step != TickStep::RunHook ==> step.next_spec(false).next_spec(false) == step,
{
}

/// The step that the thread of a poller takes after `n` others. There is none where the thread was
/// not started.
pub open spec fn step_at(started: bool, has_hook: bool, n: nat) -> Option<TickStep>
    decreases n,
{
    if !started {
        None
    } else if n == 0 {
        Some(TickStep::Sleep)
    } else {
        match step_at(started, has_hook, (n - 1) as nat) {
            Some(step) => Some(step.next_spec(has_hook)),
            None => None,
        }
    }
}

/// A poller whose thread was not started never runs its hook and never emits. One that was started
/// goes round forever: it waits, runs the hook if it has one, and emits a snapshot. So nothing comes
/// before the first wait, and each snapshot has one wait and at most one run of the hook before it.
pub proof fn poller_goes_round(started: bool, has_hook: bool, n: nat)
    ensures
        !started ==> step_at(started, has_hook, n) is None,
        started && has_hook ==> step_at(started, has_hook, n) == Some(
            if n % 3 == 0 {
                TickStep::Sleep
            } else if n % 3 == 1 {
                TickStep::RunHook
            } else {
                TickStep::EmitSnapshot
            },
        ),
        started && !has_hook ==> step_at(started, has_hook, n) == Some(
            if n % 2 == 0 {
                TickStep::Sleep
            } else {
                TickStep::EmitSnapshot
            },
        ),
    decreases n,
{
    if n > 0 {
        poller_goes_round(started, has_hook, (n - 1) as nat);
    }
}

/// The view of a histogram reading shows each of its fields under its own name.
pub proof fn reading_views_show_every_field(reading: HistogramReading)
    ensures
        reading@.key == reading.key@,
        reading@.count == reading.count,
        reading@.sum == reading.sum,
        reading@.p50 == reading.p50,
        reading@.p90 == reading.p90,
        reading@.p99 == reading.p99,
{
}

/// The views of a list of readings are the keys and numbers of its members, one for each, in order.
pub proof fn list_views_show_every_reading(
    histograms: Seq<HistogramReading>,
    numbers: Seq<(MetricKey, u64)>,
    loaded: Seq<(MetricKey, Loaded)>,
)
    ensures
        histogram_views(histograms).len() == histograms.len(),
        forall|i: int|
            0 <= i < histograms.len() ==> #[trigger] histogram_views(histograms)[i]
                == histograms[i]@,
        number_views(numbers).len() == numbers.len(),
        forall|i: int|
            0 <= i < numbers.len() ==> (#[trigger] number_views(numbers)[i]).0 == numbers[i].0@
                && number_views(numbers)[i].1 == numbers[i].1,
        loaded_numbers(loaded).len() == loaded.len(),
        forall|i: int|
            0 <= i < loaded.len() ==> (#[trigger] loaded_numbers(loaded)[i]).0 == loaded[i].0@
                && loaded_numbers(loaded)[i].1 == loaded[i].1.value_spec(),
{
}

/// A snapshot starts with one sample for each counter, with its number, and then one for each gauge,
/// with its bits, whatever the numbers are. Without histograms that is all.
pub proof fn snapshots_report_every_number(
    counters: Seq<(KeyView, u64)>,
    gauges: Seq<(KeyView, u64)>,
    histograms: Seq<HistogramReadingView>,
)
    ensures
        snapshot(counters, gauges, histograms).len() >= counters.len() + gauges.len(),
        forall|i: int|
            0 <= i < counters.len() ==> snapshot(counters, gauges, histograms)[i] == (
            event::SampleView::Counter {
                metric: key::rendered((#[trigger] counters[i]).0),
                value: counters[i].1,
            }),
        forall|i: int|
            0 <= i < gauges.len() ==> snapshot(counters, gauges, histograms)[counters.len() + i]
                == (event::SampleView::Gauge {
                metric: key::rendered((#[trigger] gauges[i]).0),
                value: Double { bits: gauges[i].1 },
            }),
        histograms.len() == 0 ==> snapshot(counters, gauges, histograms).len() == counters.len()
            + gauges.len(),
{
    reveal(Seq::filter);
    let all = snapshot(counters, gauges, histograms);
    assert forall|i: int| 0 <= i < counters.len() implies all[i] == (event::SampleView::Counter {
        metric: key::rendered((#[trigger] counters[i]).0),
        value: counters[i].1,
    }) by {
        assert(all[i] == counter_samples(counters)[i]);
    }
    assert forall|i: int| 0 <= i < gauges.len() implies all[counters.len() + i] == (
    event::SampleView::Gauge {
        metric: key::rendered((#[trigger] gauges[i]).0),
        value: Double { bits: gauges[i].1 },
    }) by {
        assert(all[counters.len() + i] == gauge_samples(gauges)[i]);
    }
}

/// Reading one more histogram adds one sample at the end of a snapshot, with the reading's count,
/// sum and quantiles, each under its own name, or not-a-number for a quantile without an estimate. A
/// histogram without an observation adds nothing.
pub proof fn snapshots_report_every_histogram(
    counters: Seq<(KeyView, u64)>,
    gauges: Seq<(KeyView, u64)>,
    histograms: Seq<HistogramReadingView>,
    reading: HistogramReadingView,
)
    ensures
        reading.count == 0 ==> snapshot(counters, gauges, histograms.push(reading)) == snapshot(
            counters,
            gauges,
            histograms,
        ),
        reading.count > 0 ==> snapshot(counters, gauges, histograms.push(reading)) == snapshot(
            counters,
            gauges,
            histograms,
        ).push(
            (event::SampleView::Histogram {
                metric: key::rendered(reading.key),
                count: reading.count,
                sum: reading.sum,
                p50: match reading.p50 {
                    Some(estimate) => estimate,
                    None => Double { bits: 0x7ff8_0000_0000_0000u64 },
                },
                p90: match reading.p90 {
                    Some(estimate) => estimate,
                    None => Double { bits: 0x7ff8_0000_0000_0000u64 },
                },
                p99: match reading.p99 {
                    Some(estimate) => estimate,
                    None => Double { bits: 0x7ff8_0000_0000_0000u64 },
                },
            }),
        ),
{
    reveal(Seq::filter);
    let observed = |reading: HistogramReadingView| reading.count > 0;
    let longer = histograms.push(reading);
    assert(longer.drop_last() =~= histograms);
    if reading.count > 0 {
        assert(longer.filter(observed) == histograms.filter(observed).push(reading));
        assert(histogram_samples(longer) =~= histogram_samples(histograms).push(
            histogram_sample_spec(reading),
        ));
        assert(snapshot(counters, gauges, longer) =~= snapshot(counters, gauges, histograms).push(
            histogram_sample_spec(reading),
        ));
    } else {
        assert(longer.filter(observed) == histograms.filter(observed));
    }
}

/// The events of a snapshot are its samples, one event for each, in order, with the poller's level
/// and scope.
pub proof fn snapshot_events_carry_every_sample(
    level: Level,
    scope: Seq<char>,
    samples: Seq<event::SampleView>,
)
    ensures
        snapshot_events_spec(level, scope, samples).len() == samples.len(),
        forall|i: int|
            0 <= i < samples.len() ==> {
                let event = #[trigger] snapshot_events_spec(level, scope, samples)[i];
                &&& event.body == event::BodyView::Snapshot(samples[i])
                &&& event.scope == scope
                &&& event.level == match level {
                    Level::Trace => Level::Trace,
                    Level::Debug => Level::Debug,
                    _ => Level::Info,
                }
            },
{
}

} // verus!
