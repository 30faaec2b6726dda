//! The recorder: it stores every metric, hands out the handles that update them, and decides which
//! handles stream.

use std::sync::atomic::AtomicU64;
use std::sync::Arc;

use vstd::prelude::*;

use crate::cell::{load, Loaded};
use crate::event;
use crate::event::{make_event, Body, Double, Event, Level, MetricKind};
use crate::filter;
use crate::globs;
use crate::key;
use crate::key::{render_key, KeyView, MetricKey};
use crate::registry;
use crate::registry::{
    counter_cell, counter_handles, gauge_cell, gauge_handles, histogram_cell, histogram_handles,
    new_registry, HistogramCell, MetricRegistry,
};
use crate::stream;
use crate::stream::{StreamContext, StreamingCounter, StreamingGauge, StreamingHistogram};

verus! {

/// What a registered counter is updated through.
pub enum CounterHandle {
    /// Updates the cell silently.
    Silent(Arc<AtomicU64>),
    /// Updates the cell and announces it.
    Streaming(StreamingCounter),
}

/// What a registered gauge is updated through.
pub enum GaugeHandle {
    /// Updates the cell silently.
    Silent(Arc<AtomicU64>),
    /// Updates the cell and announces it.
    Streaming(StreamingGauge),
}

/// What a registered histogram is updated through.
pub enum HistogramHandle {
    /// Records into the bucket silently.
    Silent(HistogramCell),
    /// Records into the bucket and announces it.
    Streaming(StreamingHistogram),
}

impl CounterHandle {
    /// The cell that the handle updates.
    pub open spec fn cell(self) -> AtomicU64 {
        match self {
            CounterHandle::Silent(cell) => *cell,
            CounterHandle::Streaming(handle) => *handle.cell,
        }
    }
}

impl GaugeHandle {
    /// The cell that the handle updates.
    pub open spec fn cell(self) -> AtomicU64 {
        match self {
            GaugeHandle::Silent(cell) => *cell,
            GaugeHandle::Streaming(handle) => *handle.cell,
        }
    }
}

impl HistogramHandle {
    /// The bucket that the handle records into.
    pub open spec fn cell(self) -> HistogramCell {
        match self {
            HistogramHandle::Silent(cell) => cell,
            HistogramHandle::Streaming(handle) => handle.cell,
        }
    }
}

/// A recorder whose metrics are stored in a registry and reported as events.
pub struct TracingRecorder {
    registry: MetricRegistry,
    level: Level,
    scope: String,
    stream: Option<Arc<StreamContext>>,
    described: Vec<(String, MetricKind)>,
}

/// The mathematical value of a [`TracingRecorder`].
pub struct RecorderView {
    pub counters: Map<KeyView, AtomicU64>,
    pub gauges: Map<KeyView, AtomicU64>,
    pub histograms: Map<KeyView, HistogramCell>,
    /// What each counter started at.
    pub counter_starts: Map<KeyView, u64>,
    /// The bits that each gauge started at.
    pub gauge_starts: Map<KeyView, u64>,
    /// What each histogram started with.
    pub histogram_starts: Map<KeyView, Seq<Double>>,
    pub level: Level,
    pub scope: Seq<char>,
    /// The filter of the per-update stream, if there is one.
    pub stream: Option<StreamContext>,
    /// The names and kinds that were described so far.
    pub described: Set<(Seq<char>, MetricKind)>,
}

impl RecorderView {
    /// Whether no metric is stored under two keys and no two metrics share a cell.
    pub open spec fn well_formed(self) -> bool {
        &&& registry::distinct_keys(self.counters)
        &&& registry::distinct_keys(self.gauges)
        &&& registry::distinct_keys(self.histograms)
        &&& registry::distinct_cells(self.counters)
        &&& registry::distinct_cells(self.gauges)
        &&& registry::distinct_cells(self.histograms)
        &&& forall|counter: KeyView, gauge: KeyView|
            self.counters.contains_key(counter) && self.gauges.contains_key(gauge)
                ==> #[trigger] self.counters[counter] != #[trigger] self.gauges[gauge]
    }

    /// Whether a metric with this rendered key streams its updates.
    pub open spec fn streams(self, metric: Seq<char>, is_histogram: bool) -> bool {
        match self.stream {
            Some(ctx) => if is_histogram {
                ctx.filter@.allows_histogram(metric)
            } else {
                ctx.filter@.allows(metric)
            },
            None => false,
        }
    }
}

/// The names and kinds of a list of descriptions.
pub open spec fn described_set(described: Seq<(String, MetricKind)>) -> Set<
    (Seq<char>, MetricKind),
> {
    Set::new(
        |pair: (Seq<char>, MetricKind)|
            exists|i: int|
                0 <= i < described.len() && (#[trigger] described[i]).0@ == pair.0
                    && described[i].1 == pair.1,
    )
}

impl View for TracingRecorder {
    type V = RecorderView;

    closed spec fn view(&self) -> RecorderView {
        RecorderView {
            counters: registry::counter_cells(self.registry),
            gauges: registry::gauge_cells(self.registry),
            histograms: registry::histogram_cells(self.registry),
            counter_starts: registry::counter_starts(self.registry),
            gauge_starts: registry::gauge_starts(self.registry),
            histogram_starts: registry::histogram_starts(self.registry),
            level: self.level,
            scope: self.scope@,
            stream: match self.stream {
                Some(ctx) => Some(*ctx),
                None => None,
            },
            described: described_set(self.described@),
        }
    }
}

/// The keys and read cells of a list of readings.
pub open spec fn reading_entries(readings: Seq<(MetricKey, Loaded)>) -> Seq<(KeyView, AtomicU64)> {
    readings.map_values(|reading: (MetricKey, Loaded)| (reading.0@, reading.1.cell()))
}

/// Reads every cell of a list of handles.
fn read_cells(handles: Vec<(MetricKey, Arc<AtomicU64>)>) -> (readings: Vec<(MetricKey, Loaded)>)
    ensures
        reading_entries(readings@) == registry::shared_entries(handles@),
{
    let mut readings: Vec<(MetricKey, Loaded)> = Vec::new();
    for i in 0..handles.len()
        invariant
            readings.len() == i,
            forall|j: int|
                0 <= j < i ==> (#[trigger] readings@[j]).0@ == handles@[j].0@
                    && readings@[j].1.cell() == *handles@[j].1,
    {
        let loaded = load(&handles[i].1);
        readings.push((handles[i].0.clone(), loaded));
    }
    assert(reading_entries(readings@) =~= registry::shared_entries(handles@));
    readings
}

impl TracingRecorder {
    /// A recorder without metrics.
    pub(crate) fn with_settings(
        level: Level,
        scope: String,
        stream: Option<Arc<StreamContext>>,
    ) -> (recorder: Self)
        ensures
            recorder@.counters.dom() == Set::<KeyView>::empty(),
            recorder@.gauges.dom() == Set::<KeyView>::empty(),
            recorder@.histograms.dom() == Set::<KeyView>::empty(),
            recorder@.level == level,
            recorder@.scope == scope@,
            recorder@.stream == (match stream {
                Some(ctx) => Some(*ctx),
                None => None,
            }),
            recorder@.described == Set::<(Seq<char>, MetricKind)>::empty(),
            recorder@.well_formed(),
    {
        let recorder = TracingRecorder {
            registry: new_registry(),
            level,
            scope,
            stream,
            described: Vec::new(),
        };
        assert(recorder@.described =~= Set::<(Seq<char>, MetricKind)>::empty());
        recorder
    }

    /// The level that the recorder was configured with.
    pub fn level(&self) -> (level: Level)
        ensures
            level == self@.level,
    {
        self.level
    }

    /// The scope that the recorder was configured with.
    pub fn scope(&self) -> (scope: &str)
        ensures
            scope@ == self@.scope,
    {
        self.scope.as_str()
    }

    /// The context of the per-update stream, if the metric with this rendered key streams.
    pub fn streaming(&self, metric: &str, is_histogram: bool) -> (ctx: Option<Arc<StreamContext>>)
        ensures
            ctx is Some <==> self@.streams(metric@, is_histogram),
            !is_histogram ==> (ctx is Some <==> (match self@.stream {
                Some(ctx) => (forall|i: int|
                    0 <= i < ctx.filter@.deny.len() ==> !#[trigger] globs::glob_matches(
                        ctx.filter@.deny[i],
                        metric@,
                    )) && (ctx.filter@.allow_all || (exists|i: int|
                    0 <= i < ctx.filter@.allow.len() && #[trigger] globs::glob_matches(
                        ctx.filter@.allow[i],
                        metric@,
                    ))),
                None => false,
            })),
            is_histogram ==> (ctx is Some <==> (match self@.stream {
                Some(ctx) => (forall|i: int|
                    0 <= i < ctx.filter@.deny.len() ==> !#[trigger] globs::glob_matches(
                        ctx.filter@.deny[i],
                        metric@,
                    )) && (exists|i: int|
                    0 <= i < ctx.filter@.histograms.len() && #[trigger] globs::glob_matches(
                        ctx.filter@.histograms[i],
                        metric@,
                    )),
                None => false,
            })),
            ctx matches Some(ctx) ==> self@.stream == Some(*ctx),
    {
        match &self.stream {
            Some(ctx) => {
                let allowed = if is_histogram {
                    ctx.filter.allows_histogram(metric)
                } else {
                    ctx.filter.allows(metric)
                };
                if allowed {
                    Some(ctx.clone())
                } else {
                    None
                }
            },
            None => None,
        }
    }

    /// Registers a counter, whose own `level` its streamed events have. The handle shares the
    /// registry's own cell, so that updates through any handle and every snapshot see the same
    /// number.
    pub fn register_counter(&mut self, key: &MetricKey, level: Level) -> (handle: CounterHandle)
        ensures
            old(self)@.well_formed() ==> final(self)@.well_formed(),
            registry::looked_up(
                old(self)@.counters,
                final(self)@.counters,
                key@,
                handle.cell(),
            ),
            final(self)@.counter_starts == registry::starts_after(
                old(self)@.counters,
                old(self)@.counter_starts,
                key@,
                0,
            ),
            final(self)@ == (RecorderView {
                counters: final(self)@.counters,
                counter_starts: final(self)@.counter_starts,
                ..old(self)@
            }),
            handle is Streaming <==> old(self)@.streams(key::rendered(key@), false),
            handle is Streaming <==> (match old(self)@.stream {
                Some(ctx) => (forall|i: int|
                    0 <= i < ctx.filter@.deny.len() ==> !#[trigger] globs::glob_matches(
                        ctx.filter@.deny[i],
                        key::rendered(key@),
                    )) && (ctx.filter@.allow_all || (exists|i: int|
                    0 <= i < ctx.filter@.allow.len() && #[trigger] globs::glob_matches(
                        ctx.filter@.allow[i],
                        key::rendered(key@),
                    ))),
                None => false,
            }),
            handle matches CounterHandle::Streaming(streaming) ==> streaming.announcer@
                == stream::announcer_of(key@, level, old(self)@.stream->Some_0),
    {
        let metric = render_key(key);
        let streaming = self.streaming(metric.as_str(), false);
        let cell = counter_cell(&mut self.registry, key);
        let ghost identity = registry::identity(cell);
        proof {
            registry::lookup_keeps_cells(old(self)@.counters, self@.counters, key@, identity);
        }
        match streaming {
            Some(ctx) => CounterHandle::Streaming(
                StreamingCounter::new(cell, key, level, ctx),
            ),
            None => CounterHandle::Silent(cell),
        }
    }

    /// Registers a gauge, whose own `level` its streamed events have. The handle shares the
    /// registry's own cell.
    pub fn register_gauge(&mut self, key: &MetricKey, level: Level) -> (handle: GaugeHandle)
        ensures
            old(self)@.well_formed() ==> final(self)@.well_formed(),
            registry::looked_up(old(self)@.gauges, final(self)@.gauges, key@, handle.cell()),
            final(self)@.gauge_starts == registry::starts_after(
                old(self)@.gauges,
                old(self)@.gauge_starts,
                key@,
                0,
            ),
            final(self)@ == (RecorderView {
                gauges: final(self)@.gauges,
                gauge_starts: final(self)@.gauge_starts,
                ..old(self)@
            }),
            handle is Streaming <==> old(self)@.streams(key::rendered(key@), false),
            handle is Streaming <==> (match old(self)@.stream {
                Some(ctx) => (forall|i: int|
                    0 <= i < ctx.filter@.deny.len() ==> !#[trigger] globs::glob_matches(
                        ctx.filter@.deny[i],
                        key::rendered(key@),
                    )) && (ctx.filter@.allow_all || (exists|i: int|
                    0 <= i < ctx.filter@.allow.len() && #[trigger] globs::glob_matches(
                        ctx.filter@.allow[i],
                        key::rendered(key@),
                    ))),
                None => false,
            }),
            handle matches GaugeHandle::Streaming(streaming) ==> streaming.announcer@
                == stream::announcer_of(key@, level, old(self)@.stream->Some_0),
    {
        let metric = render_key(key);
        let streaming = self.streaming(metric.as_str(), false);
        let cell = gauge_cell(&mut self.registry, key);
        let ghost identity = registry::identity(cell);
        proof {
            registry::lookup_keeps_cells(old(self)@.gauges, self@.gauges, key@, identity);
        }
        match streaming {
            Some(ctx) => GaugeHandle::Streaming(StreamingGauge::new(cell, key, level, ctx)),
            None => GaugeHandle::Silent(cell),
        }
    }

    /// Registers a histogram, whose own `level` its streamed events have. The handle shares the
    /// registry's own bucket.
    pub fn register_histogram(&mut self, key: &MetricKey, level: Level) -> (handle: HistogramHandle)
        ensures
            old(self)@.well_formed() ==> final(self)@.well_formed(),
            registry::looked_up(
                old(self)@.histograms,
                final(self)@.histograms,
                key@,
                handle.cell(),
            ),
            final(self)@.histogram_starts == registry::starts_after(
                old(self)@.histograms,
                old(self)@.histogram_starts,
                key@,
                Seq::<Double>::empty(),
            ),
            final(self)@ == (RecorderView {
                histograms: final(self)@.histograms,
                histogram_starts: final(self)@.histogram_starts,
                ..old(self)@
            }),
            handle is Streaming <==> old(self)@.streams(key::rendered(key@), true),
            handle is Streaming <==> (match old(self)@.stream {
                Some(ctx) => (forall|i: int|
                    0 <= i < ctx.filter@.deny.len() ==> !#[trigger] globs::glob_matches(
                        ctx.filter@.deny[i],
                        key::rendered(key@),
                    )) && (exists|i: int|
                    0 <= i < ctx.filter@.histograms.len() && #[trigger] globs::glob_matches(
                        ctx.filter@.histograms[i],
                        key::rendered(key@),
                    )),
                None => false,
            }),
            handle matches HistogramHandle::Streaming(streaming) ==> streaming.announcer@
                == stream::announcer_of(key@, level, old(self)@.stream->Some_0),
    {
        let metric = render_key(key);
        let streaming = self.streaming(metric.as_str(), true);
        let cell = histogram_cell(&mut self.registry, key);
        let ghost identity = cell;
        proof {
            registry::lookup_keeps_cells(old(self)@.histograms, self@.histograms, key@, identity);
        }
        match streaming {
            Some(ctx) => HistogramHandle::Streaming(
                StreamingHistogram::new(cell, key, level, ctx),
            ),
            None => HistogramHandle::Silent(cell),
        }
    }

    /// Reads the cell of every counter once.
    pub fn read_counters(&self) -> (readings: Vec<(MetricKey, Loaded)>)
        ensures
            registry::lists_once(reading_entries(readings@), self@.counters),
    {
        read_cells(counter_handles(&self.registry))
    }

    /// Reads the cell of every gauge once. It holds the bit pattern of the gauge.
    pub fn read_gauges(&self) -> (readings: Vec<(MetricKey, Loaded)>)
        ensures
            registry::lists_once(reading_entries(readings@), self@.gauges),
    {
        read_cells(gauge_handles(&self.registry))
    }

    /// Every histogram once, with the bucket that its observations are drained from.
    pub fn histogram_buckets(&self) -> (buckets: Vec<(MetricKey, HistogramCell)>)
        ensures
            registry::lists_once(registry::bucket_entries(buckets@), self@.histograms),
    {
        histogram_handles(&self.registry)
    }

    /// Describes a metric. The first description of a name and kind gives an event; every later
    /// one gives none.
    pub fn describe(
        &mut self,
        name: &str,
        kind: MetricKind,
        description: &str,
        unit: Option<String>,
    ) -> (event: Option<Event>)
        ensures
            final(self)@ == (RecorderView {
                described: old(self)@.described.insert((name@, kind)),
                ..old(self)@
            }),
            old(self)@.described.contains((name@, kind)) ==> event is None,
            !old(self)@.described.contains((name@, kind)) ==> event is Some
                && event->Some_0@ == event::event_of(
                old(self)@.level,
                old(self)@.scope,
                event::BodyView::Describe {
                    name: name@,
                    kind,
                    description: description@,
                    unit: event::option_view(unit),
                },
            ),
    {
        let owned = name.to_owned();
        for i in 0..self.described.len()
            invariant
                *self == *old(self),
                owned@ == name@,
                forall|j: int|
                    0 <= j < i ==> !((#[trigger] self.described@[j]).0@ == name@
                        && self.described@[j].1 == kind),
        {
            if self.described[i].1 == kind && self.described[i].0 == owned {
                assert(old(self)@.described.contains((name@, kind)));
                assert(old(self)@.described.insert((name@, kind)) =~= old(self)@.described);
                return None;
            }
        }
        self.described.push((owned, kind));
        proof {
            let last = self.described@.len() - 1;
            assert(self.described@[last].0@ == name@);
            assert forall|pair: (Seq<char>, MetricKind)| #[trigger]
                self@.described.contains(pair) <==> old(self)@.described.insert(
                    (name@, kind),
                ).contains(pair) by {
                if old(self)@.described.contains(pair) {
                    let i = choose|i: int|
                        0 <= i < old(self).described@.len() && (
                        #[trigger] old(self).described@[i]).0@ == pair.0
                            && old(self).described@[i].1 == pair.1;
                    assert(self.described@[i] == old(self).described@[i]);
                }
                if self@.described.contains(pair) && pair != (name@, kind) {
                    let i = choose|i: int|
                        0 <= i < self.described@.len() && (#[trigger] self.described@[i]).0@
                            == pair.0 && self.described@[i].1 == pair.1;
                    assert(i < last);
                    assert(self.described@[i] == old(self).described@[i]);
                }
            }
            assert(self@.described =~= old(self)@.described.insert((name@, kind)));
        }
        let body = Body::Describe {
            name: name.to_owned(),
            kind,
            description: description.to_owned(),
            unit,
        };
        Some(make_event(self.level, self.scope.as_str(), body))
    }
}

/// Without a configured stream nothing streams.
pub proof fn nothing_streams_by_default(
    recorder: RecorderView,
    metric: Seq<char>,
    is_histogram: bool,
)
    requires
        recorder.stream is None,
    ensures
        !recorder.streams(metric, is_histogram),
{
}

/// A histogram streams where no deny pattern of the filter matches its rendered key and a pattern of
/// the histogram list does; the allow list has no say. A counter or gauge streams where no deny
/// pattern matches and everything is allowed or an allow pattern matches.
pub proof fn patterns_decide_what_streams(
    recorder: RecorderView,
    ctx: StreamContext,
    metric: Seq<char>,
)
    requires
        recorder.stream == Some(ctx),
    ensures
        recorder.streams(metric, true) <==> (forall|i: int|
            0 <= i < ctx.filter@.deny.len() ==> !#[trigger] globs::glob_matches(
                ctx.filter@.deny[i],
                metric,
            )) && (exists|i: int|
            0 <= i < ctx.filter@.histograms.len() && #[trigger] globs::glob_matches(
                ctx.filter@.histograms[i],
                metric,
            )),
        recorder.streams(metric, false) <==> (forall|i: int|
            0 <= i < ctx.filter@.deny.len() ==> !#[trigger] globs::glob_matches(
                ctx.filter@.deny[i],
                metric,
            )) && (ctx.filter@.allow_all || exists|i: int|
            0 <= i < ctx.filter@.allow.len() && #[trigger] globs::glob_matches(
                ctx.filter@.allow[i],
                metric,
            )),
{
}

/// What streams is decided by the patterns that the filter was built from: whether a valid one of
/// the deny list matches, and if not, whether a valid one of the list for the kind does, or whether
/// no allow pattern was given at all.
pub proof fn given_patterns_decide_what_streams(
    recorder: RecorderView,
    ctx: StreamContext,
    patterns: filter::FilterPatterns,
    metric: Seq<char>,
)
    requires
        recorder.stream == Some(ctx),
        ctx.filter@ == filter::built(patterns),
    ensures
        ({
            let valid = |pattern: Seq<char>| globs::glob_valid(pattern);
            let denied = globs::globs_compile(patterns.deny.filter(valid)) && exists|i: int|
                0 <= i < patterns.deny.len() && globs::glob_valid(patterns.deny[i])
                    && #[trigger] globs::glob_matches(patterns.deny[i], metric);
            let allowed = globs::globs_compile(patterns.allow.filter(valid)) && exists|i: int|
                0 <= i < patterns.allow.len() && globs::glob_valid(patterns.allow[i])
                    && #[trigger] globs::glob_matches(patterns.allow[i], metric);
            let listed = globs::globs_compile(patterns.histograms.filter(valid)) && exists|i: int|
                0 <= i < patterns.histograms.len() && globs::glob_valid(patterns.histograms[i])
                    && #[trigger] globs::glob_matches(patterns.histograms[i], metric);
            &&& recorder.streams(metric, false) == (!denied && (patterns.allow.len() == 0
                || allowed))
            &&& recorder.streams(metric, true) == (!denied && listed)
        }),
{
    filter::given_patterns_decide(patterns, metric);
}

/// The entries of a list of readings are its keys and cells, one for each reading, in order.
pub proof fn reading_entries_show_every_reading(readings: Seq<(MetricKey, Loaded)>)
    ensures
        reading_entries(readings).len() == readings.len(),
        forall|i: int|
            0 <= i < readings.len() ==> (#[trigger] reading_entries(readings)[i]).0
                == readings[i].0@ && reading_entries(readings)[i].1 == readings[i].1.cell(),
{
}

/// The names and kinds that a recorder has described after the first `n` descriptions of
/// `history`.
pub open spec fn described_after(history: Seq<(Seq<char>, MetricKind)>, n: int) -> Set<
    (Seq<char>, MetricKind),
>
    decreases n,
{
    if n <= 0 {
        Set::empty()
    } else {
        described_after(history, n - 1).insert(history[n - 1])
    }
}

/// Over any run of descriptions, each name and kind gives an event the first time and never again.
pub proof fn described_only_once(history: Seq<(Seq<char>, MetricKind)>, i: int)
    requires
        0 <= i < history.len(),
    ensures
        !described_after(history, i).contains(history[i]) <==> (forall|j: int|
            0 <= j < i ==> #[trigger] history[j] != history[i]),
{
    lemma_described_after(history, i, history[i]);
}

/// What was described is what occurred before.
proof fn lemma_described_after(
    history: Seq<(Seq<char>, MetricKind)>,
    n: int,
    pair: (Seq<char>, MetricKind),
)
    requires
        0 <= n <= history.len(),
    ensures
        described_after(history, n).contains(pair) <==> (exists|j: int|
            0 <= j < n && #[trigger] history[j] == pair),
    decreases n,
{
    if n > 0 {
        lemma_described_after(history, n - 1, pair);
        if history[n - 1] == pair {
            assert(described_after(history, n).contains(pair));
        }
    }
}

} // verus!
