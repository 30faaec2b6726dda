//! The structured events that the recorder emits, as plain values.
//!
//! A sink turns each [`Event`] into one `tracing` event. `tracing` wants its target and level as
//! literals, so the target is the fixed [`TARGET`], the event name is the fixed [`EVENT_NAME`],
//! and the scope that a consumer cares about travels as the field `scope`.

use vstd::prelude::*;

verus! {

/// The `tracing` target of every event.
pub const TARGET: &'static str = "metrics";

/// The `tracing` name of every event.
pub const EVENT_NAME: &'static str = "metric";

/// How verbose an event is, from the most verbose to the most severe.
#[derive(Debug, Clone, Copy, PartialEq, Eq, Structural)]
pub enum Level {
    Trace,
    Debug,
    Info,
    Warn,
    Error,
}

impl Level {
    /// The level that an event configured for `self` has: only `Trace` and `Debug` are kept
    /// apart, everything else is `Info`.
    pub open spec fn emitted_spec(self) -> Level {
        match self {
            Level::Trace => Level::Trace,
            Level::Debug => Level::Debug,
            _ => Level::Info,
        }
    }

    /// The level that an event configured for `self` has.
    pub fn emitted(self) -> (level: Level)
        ensures
            level == self.emitted_spec(),
    {
        match self {
            Level::Trace => Level::Trace,
            Level::Debug => Level::Debug,
            _ => Level::Info,
        }
    }
}

/// A double-precision number by its IEEE 754 bit pattern.
#[derive(Debug, Clone, Copy, PartialEq, Eq, Structural)]
pub struct Double {
    pub bits: u64,
}

/// The bit pattern of positive infinity, the largest of the positive numbers.
pub const INFINITY_BITS: u64 = 0x7ff0_0000_0000_0000;

/// The bit pattern of the quiet not-a-number.
pub const NAN_BITS: u64 = 0x7ff8_0000_0000_0000;

impl Double {
    /// Whether the number is greater than zero. Neither zero is, nor a negative number, nor a
    /// not-a-number.
    pub open spec fn is_positive_spec(self) -> bool {
        0 < self.bits <= INFINITY_BITS
    }

    /// Whether the number is greater than zero.
    pub fn is_positive(self) -> (positive: bool)
        ensures
            positive == self.is_positive_spec(),
    {
        0 < self.bits && self.bits <= INFINITY_BITS
    }
}

/// A numeric field of an event.
#[derive(Debug, Clone, Copy, PartialEq, Eq, Structural)]
pub enum Number {
    Unsigned(u64),
    Float(Double),
}

/// The kind of a metric.
#[derive(Debug, Clone, Copy, PartialEq, Eq, Structural)]
pub enum MetricKind {
    Counter,
    Gauge,
    Histogram,
}

impl MetricKind {
    /// The text of the field `kind`.
    pub open spec fn text(self) -> Seq<char> {
        match self {
            MetricKind::Counter => "counter"@,
            MetricKind::Gauge => "gauge"@,
            MetricKind::Histogram => "histogram"@,
        }
    }

    /// The text of the field `kind`.
    pub fn as_str(self) -> (text: &'static str)
        ensures
            text@ == self.text(),
    {
        match self {
            MetricKind::Counter => "counter",
            MetricKind::Gauge => "gauge",
            MetricKind::Histogram => "histogram",
        }
    }
}

/// What a single update did to its metric.
#[derive(Debug, Clone, Copy, PartialEq, Eq, Structural)]
pub enum Op {
    Increment,
    Absolute,
    Assign,
    Decrement,
    Sample,
}

impl Op {
    /// The text of the field `op`.
    pub open spec fn text(self) -> Seq<char> {
        match self {
            Op::Increment => "increment"@,
            Op::Absolute => "absolute"@,
            Op::Assign => "set"@,
            Op::Decrement => "decrement"@,
            Op::Sample => "sample"@,
        }
    }

    /// The text of the field `op`.
    pub fn as_str(self) -> (text: &'static str)
        ensures
            text@ == self.text(),
    {
        match self {
            Op::Increment => "increment",
            Op::Absolute => "absolute",
            Op::Assign => "set",
            Op::Decrement => "decrement",
            Op::Sample => "sample",
        }
    }
}

/// One metric as a snapshot found it. `metric` is the rendered key.
#[allow(inconsistent_fields)]
#[derive(Debug, PartialEq)]
pub enum Sample {
    Counter { metric: String, value: u64 },
    Gauge { metric: String, value: Double },
    Histogram {
        metric: String,
        count: usize,
        sum: Double,
        p50: Double,
        p90: Double,
        p99: Double,
    },
}

/// The mathematical value of a [`Sample`].
#[allow(inconsistent_fields)]
#[verifier::ext_equal]
pub enum SampleView {
    Counter { metric: Seq<char>, value: u64 },
    Gauge { metric: Seq<char>, value: Double },
    Histogram {
        metric: Seq<char>,
        count: usize,
        sum: Double,
        p50: Double,
        p90: Double,
        p99: Double,
    },
}

impl SampleView {
    /// The rendered key of the sampled metric.
    pub open spec fn metric(self) -> Seq<char> {
        match self {
            SampleView::Counter { metric, .. } => metric,
            SampleView::Gauge { metric, .. } => metric,
            SampleView::Histogram { metric, .. } => metric,
        }
    }

    /// The kind of the sampled metric.
    pub open spec fn kind(self) -> MetricKind {
        match self {
            SampleView::Counter { .. } => MetricKind::Counter,
            SampleView::Gauge { .. } => MetricKind::Gauge,
            SampleView::Histogram { .. } => MetricKind::Histogram,
        }
    }
}

impl View for Sample {
    type V = SampleView;

    open spec fn view(&self) -> SampleView {
        match *self {
            Sample::Counter { metric, value } => SampleView::Counter { metric: metric@, value },
            Sample::Gauge { metric, value } => SampleView::Gauge { metric: metric@, value },
            Sample::Histogram { metric, count, sum, p50, p90, p99 } => SampleView::Histogram {
                metric: metric@,
                count,
                sum,
                p50,
                p90,
                p99,
            },
        }
    }
}

impl Clone for Sample {
    fn clone(&self) -> (copy: Self)
        ensures
            copy@ == self@,
    {
        match self {
            Sample::Counter { metric, value } => Sample::Counter {
                metric: metric.clone(),
                value: *value,
            },
            Sample::Gauge { metric, value } => Sample::Gauge {
                metric: metric.clone(),
                value: *value,
            },
            Sample::Histogram { metric, count, sum, p50, p90, p99 } => Sample::Histogram {
                metric: metric.clone(),
                count: *count,
                sum: *sum,
                p50: *p50,
                p90: *p90,
                p99: *p99,
            },
        }
    }
}

/// The views of a list of samples.
pub open spec fn sample_views(samples: Seq<Sample>) -> Seq<SampleView> {
    samples.map_values(|sample: Sample| sample@)
}

/// One histogram of an already aggregated metric family. The bucket collections are the
/// `Debug` texts of the source's own encoding.
#[derive(Debug)]
pub struct HistogramSnapshot {
    pub count: Number,
    pub sum: Double,
    pub schema: i32,
    pub zero_threshold: Double,
    pub zero_count: Number,
    pub bucket: String,
    pub positive_span: String,
    pub positive_delta: String,
    pub positive_count: String,
    pub negative_span: String,
    pub negative_delta: String,
    pub negative_count: String,
}

/// The mathematical value of a [`HistogramSnapshot`].
#[verifier::ext_equal]
pub struct HistogramSnapshotView {
    pub count: Number,
    pub sum: Double,
    pub schema: i32,
    pub zero_threshold: Double,
    pub zero_count: Number,
    pub bucket: Seq<char>,
    pub positive_span: Seq<char>,
    pub positive_delta: Seq<char>,
    pub positive_count: Seq<char>,
    pub negative_span: Seq<char>,
    pub negative_delta: Seq<char>,
    pub negative_count: Seq<char>,
}

impl View for HistogramSnapshot {
    type V = HistogramSnapshotView;

    open spec fn view(&self) -> HistogramSnapshotView {
        HistogramSnapshotView {
            count: self.count,
            sum: self.sum,
            schema: self.schema,
            zero_threshold: self.zero_threshold,
            zero_count: self.zero_count,
            bucket: self.bucket@,
            positive_span: self.positive_span@,
            positive_delta: self.positive_delta@,
            positive_count: self.positive_count@,
            negative_span: self.negative_span@,
            negative_delta: self.negative_delta@,
            negative_count: self.negative_count@,
        }
    }
}

/// What one series of an already aggregated metric family holds.
#[derive(Debug)]
pub enum Statistic {
    Counter(Double),
    Gauge(Double),
    Histogram(HistogramSnapshot),
}

/// The mathematical value of a [`Statistic`].
#[verifier::ext_equal]
pub enum StatisticView {
    Counter(Double),
    Gauge(Double),
    Histogram(HistogramSnapshotView),
}

impl View for Statistic {
    type V = StatisticView;

    open spec fn view(&self) -> StatisticView {
        match *self {
            Statistic::Counter(value) => StatisticView::Counter(value),
            Statistic::Gauge(value) => StatisticView::Gauge(value),
            Statistic::Histogram(histogram) => StatisticView::Histogram(histogram@),
        }
    }
}

/// The part of an event that its occasion decides.
#[derive(Debug)]
pub enum Body {
    /// `event="emit"`: a single update. `metric` is the rendered key, `labels` the labels as a
    /// `Debug` map.
    Emit { metric: String, name: String, labels: String, kind: MetricKind, op: Op, value: Number },
    /// `event="snapshot"`: one metric of the recorder's own registry.
    Snapshot(Sample),
    /// `event="snapshot"`: one series of an already aggregated metric family.
    Series { name: String, labels: String, statistic: Statistic },
    /// `event="describe"`: a metric was described.
    Describe { name: String, kind: MetricKind, description: String, unit: Option<String> },
}

/// The mathematical value of a [`Body`].
#[verifier::ext_equal]
pub enum BodyView {
    Emit {
        metric: Seq<char>,
        name: Seq<char>,
        labels: Seq<char>,
        kind: MetricKind,
        op: Op,
        value: Number,
    },
    Snapshot(SampleView),
    Series { name: Seq<char>, labels: Seq<char>, statistic: StatisticView },
    Describe {
        name: Seq<char>,
        kind: MetricKind,
        description: Seq<char>,
        unit: Option<Seq<char>>,
    },
}

/// The view of an optional text.
pub open spec fn option_view(text: Option<String>) -> Option<Seq<char>> {
    match text {
        Some(text) => Some(text@),
        None => None,
    }
}

impl View for Body {
    type V = BodyView;

    open spec fn view(&self) -> BodyView {
        match *self {
            Body::Emit { metric, name, labels, kind, op, value } => BodyView::Emit {
                metric: metric@,
                name: name@,
                labels: labels@,
                kind,
                op,
                value,
            },
            Body::Snapshot(sample) => BodyView::Snapshot(sample@),
            Body::Series { name, labels, statistic } => BodyView::Series {
                name: name@,
                labels: labels@,
                statistic: statistic@,
            },
            Body::Describe { name, kind, description, unit } => BodyView::Describe {
                name: name@,
                kind,
                description: description@,
                unit: option_view(unit),
            },
        }
    }
}

impl BodyView {
    /// The text of the field `event`.
    pub open spec fn event(self) -> Seq<char> {
        match self {
            BodyView::Emit { .. } => "emit"@,
            BodyView::Snapshot(_) => "snapshot"@,
            BodyView::Series { .. } => "snapshot"@,
            BodyView::Describe { .. } => "describe"@,
        }
    }

    /// The kind of the metric that the event is about.
    pub open spec fn kind(self) -> MetricKind {
        match self {
            BodyView::Emit { kind, .. } => kind,
            BodyView::Snapshot(sample) => sample.kind(),
            BodyView::Series { statistic, .. } => match statistic {
                StatisticView::Counter(_) => MetricKind::Counter,
                StatisticView::Gauge(_) => MetricKind::Gauge,
                StatisticView::Histogram(_) => MetricKind::Histogram,
            },
            BodyView::Describe { kind, .. } => kind,
        }
    }
}

impl Body {
    /// The text of the field `event`.
    pub fn event(&self) -> (text: &'static str)
        ensures
            text@ == self@.event(),
    {
        match self {
            Body::Emit { .. } => "emit",
            Body::Snapshot(_) => "snapshot",
            Body::Series { .. } => "snapshot",
            Body::Describe { .. } => "describe",
        }
    }

    /// The kind of the metric that the event is about, for the field `kind`.
    pub fn kind(&self) -> (metric_kind: MetricKind)
        ensures
            metric_kind == self@.kind(),
    {
        match self {
            Body::Emit { kind, .. } => *kind,
            Body::Snapshot(Sample::Counter { .. }) => MetricKind::Counter,
            Body::Snapshot(Sample::Gauge { .. }) => MetricKind::Gauge,
            Body::Snapshot(Sample::Histogram { .. }) => MetricKind::Histogram,
            Body::Series { statistic: Statistic::Counter(_), .. } => MetricKind::Counter,
            Body::Series { statistic: Statistic::Gauge(_), .. } => MetricKind::Gauge,
            Body::Series { statistic: Statistic::Histogram(_), .. } => MetricKind::Histogram,
            Body::Describe { kind, .. } => *kind,
        }
    }
}

/// One structured event.
#[derive(Debug)]
pub struct Event {
    pub level: Level,
    pub scope: String,
    pub body: Body,
}

/// The mathematical value of an [`Event`].
#[verifier::ext_equal]
pub struct EventView {
    pub level: Level,
    pub scope: Seq<char>,
    pub body: BodyView,
}

impl View for Event {
    type V = EventView;

    open spec fn view(&self) -> EventView {
        EventView { level: self.level, scope: self.scope@, body: self.body@ }
    }
}

/// The views of a list of events.
pub open spec fn event_views(events: Seq<Event>) -> Seq<EventView> {
    events.map_values(|event: Event| event@)
}

/// The event of a recorder configured with `level` and `scope`.
pub open spec fn event_of(level: Level, scope: Seq<char>, body: BodyView) -> EventView {
    EventView { level: level.emitted_spec(), scope, body }
}

/// An event of a recorder configured with `level` and `scope`.
pub fn make_event(level: Level, scope: &str, body: Body) -> (event: Event)
    ensures
        event@ == event_of(level, scope@, body@),
{
    Event { level: level.emitted(), scope: scope.to_owned(), body }
}

/// Every event has one of the three levels that are kept apart, and configuring an event with the
/// level that it already has changes nothing.
pub proof fn events_have_three_levels(level: Level, scope: Seq<char>, body: BodyView)
    ensures
        ({
            let emitted = event_of(level, scope, body).level;
            &&& emitted == Level::Trace || emitted == Level::Debug || emitted == Level::Info
            &&& event_of(emitted, scope, body) == event_of(level, scope, body)
        }),
        level != Level::Trace && level != Level::Debug ==> event_of(level, scope, body).level
            == Level::Info,
{
}

/// An event keeps the scope and the body that it is made with. `Trace` and `Debug` stay what they
/// are, and every other level becomes `Info`.
pub proof fn events_keep_what_they_are_given(level: Level, scope: Seq<char>, body: BodyView)
    ensures
        event_of(level, scope, body).scope == scope,
        event_of(level, scope, body).body == body,
        level == Level::Trace ==> event_of(level, scope, body).level == Level::Trace,
        level == Level::Debug ==> event_of(level, scope, body).level == Level::Debug,
        level == Level::Info ==> event_of(level, scope, body).level == Level::Info,
        level == Level::Warn ==> event_of(level, scope, body).level == Level::Info,
        level == Level::Error ==> event_of(level, scope, body).level == Level::Info,
        level.emitted_spec() == event_of(level, scope, body).level,
{
}

/// The positive numbers are those whose sign bit is clear, that are not zero, and whose exponent is
/// not that of a not-a-number: the bit patterns from one to that of infinity.
pub proof fn positive_numbers(value: Double)
    ensures
        value.bits == 0 ==> !value.is_positive_spec(),
        value.bits >= 0x8000_0000_0000_0000u64 ==> !value.is_positive_spec(),
        0x7ff0_0000_0000_0000u64 < value.bits < 0x8000_0000_0000_0000u64
            ==> !value.is_positive_spec(),
        0 < value.bits <= 0x7ff0_0000_0000_0000u64 ==> value.is_positive_spec(),
        NAN_BITS == 0x7ff8_0000_0000_0000u64,
{
}

/// The texts of the fields `kind` and `op`, of the target and of the event name.
pub proof fn field_texts(kind: MetricKind, op: Op)
    ensures
        kind == MetricKind::Counter ==> kind.text() == "counter"@,
        kind == MetricKind::Gauge ==> kind.text() == "gauge"@,
        kind == MetricKind::Histogram ==> kind.text() == "histogram"@,
        op == Op::Increment ==> op.text() == "increment"@,
        op == Op::Absolute ==> op.text() == "absolute"@,
        op == Op::Assign ==> op.text() == "set"@,
        op == Op::Decrement ==> op.text() == "decrement"@,
        op == Op::Sample ==> op.text() == "sample"@,
        TARGET@ == "metrics"@,
        EVENT_NAME@ == "metric"@,
{
}

/// The field `event` tells updates, snapshots and descriptions apart, and the kind of an event is
/// that of the metric that it is about.
pub proof fn bodies_tell_their_occasion_and_kind(body: BodyView)
    ensures
        body is Emit ==> body.event() == "emit"@ && body.kind() == body->Emit_kind,
        body is Snapshot ==> body.event() == "snapshot"@,
        body is Series ==> body.event() == "snapshot"@,
        body is Describe ==> body.event() == "describe"@ && body.kind() == body->Describe_kind,
        body matches BodyView::Snapshot(SampleView::Counter { .. }) ==> body.kind()
            == MetricKind::Counter,
        body matches BodyView::Snapshot(SampleView::Gauge { .. }) ==> body.kind()
            == MetricKind::Gauge,
        body matches BodyView::Snapshot(SampleView::Histogram { .. }) ==> body.kind()
            == MetricKind::Histogram,
        body matches BodyView::Series { statistic: StatisticView::Counter(_), .. } ==> body.kind()
            == MetricKind::Counter,
        body matches BodyView::Series { statistic: StatisticView::Gauge(_), .. } ==> body.kind()
            == MetricKind::Gauge,
        body matches BodyView::Series { statistic: StatisticView::Histogram(_), .. }
            ==> body.kind() == MetricKind::Histogram,
{
}

/// The view of a sample shows each of its fields under its own name, and its metric and kind are
/// those of the sample.
pub proof fn sample_views_show_every_field(sample: Sample)
    ensures
        sample matches Sample::Counter { metric, value } ==> {
            &&& sample@ == (SampleView::Counter { metric: metric@, value })
            &&& sample@.metric() == metric@
            &&& sample@.kind() == MetricKind::Counter
        },
        sample matches Sample::Gauge { metric, value } ==> {
            &&& sample@ == (SampleView::Gauge { metric: metric@, value })
            &&& sample@.metric() == metric@
            &&& sample@.kind() == MetricKind::Gauge
        },
        sample matches Sample::Histogram { metric, count, sum, p50, p90, p99 } ==> {
            &&& sample@ == (SampleView::Histogram { metric: metric@, count, sum, p50, p90, p99 })
            &&& sample@.metric() == metric@
            &&& sample@.kind() == MetricKind::Histogram
        },
{
}

/// The view of an aggregated histogram shows each of its fields under its own name.
pub proof fn histogram_snapshot_views_show_every_field(snapshot: HistogramSnapshot)
    ensures
        snapshot@.count == snapshot.count,
        snapshot@.sum == snapshot.sum,
        snapshot@.schema == snapshot.schema,
        snapshot@.zero_threshold == snapshot.zero_threshold,
        snapshot@.zero_count == snapshot.zero_count,
        snapshot@.bucket == snapshot.bucket@,
        snapshot@.positive_span == snapshot.positive_span@,
        snapshot@.positive_delta == snapshot.positive_delta@,
        snapshot@.positive_count == snapshot.positive_count@,
        snapshot@.negative_span == snapshot.negative_span@,
        snapshot@.negative_delta == snapshot.negative_delta@,
        snapshot@.negative_count == snapshot.negative_count@,
{
}

/// The view of an event shows each of its fields, and those of its body, under its own name.
pub proof fn event_views_show_every_field(event: Event)
    ensures
        event@.level == event.level,
        event@.scope == event.scope@,
        event.body matches Body::Emit { metric, name, labels, kind, op, value } ==> event@.body
            == (BodyView::Emit {
            metric: metric@,
            name: name@,
            labels: labels@,
            kind,
            op,
            value,
        }),
        event.body matches Body::Snapshot(sample) ==> event@.body == BodyView::Snapshot(sample@),
        event.body matches Body::Series { name, labels, statistic } ==> {
            &&& event@.body is Series
            &&& event@.body->Series_name == name@
            &&& event@.body->Series_labels == labels@
            &&& statistic matches Statistic::Counter(value) ==> event@.body->Series_statistic
                == StatisticView::Counter(value)
            &&& statistic matches Statistic::Gauge(value) ==> event@.body->Series_statistic
                == StatisticView::Gauge(value)
            &&& statistic matches Statistic::Histogram(snapshot) ==> event@.body->Series_statistic
                == StatisticView::Histogram(snapshot@)
        },
        event.body matches Body::Describe { name, kind, description, unit } ==> {
            &&& event@.body is Describe
            &&& event@.body->Describe_name == name@
            &&& event@.body->Describe_kind == kind
            &&& event@.body->description == description@
            &&& unit is None ==> event@.body->unit is None
            &&& unit matches Some(text) ==> event@.body->unit == Some(text@)
        },
{
}

/// The views of a list of samples or events are those of its members, one for each, in order.
pub proof fn list_views_show_every_member(samples: Seq<Sample>, events: Seq<Event>)
    ensures
        sample_views(samples).len() == samples.len(),
        forall|i: int| 0 <= i < samples.len() ==> #[trigger] sample_views(samples)[i] == samples[i]@,
        event_views(events).len() == events.len(),
        forall|i: int| 0 <= i < events.len() ==> #[trigger] event_views(events)[i] == events[i]@,
{
}

} // verus!
