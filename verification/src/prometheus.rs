//! Snapshots of metric families that `prometheus_client` already aggregated.
//!
//! The caller controls collection and scheduling; the events are made at once, with the
//! recorder's level and scope and with the labels of the source.

use prometheus_client::encoding::prometheus_protobuf::prometheus_data_model::MetricType;
use vstd::prelude::*;

use crate::event;
use crate::event::{
    make_event, Body, Double, Event, HistogramSnapshot, Level, Number, Statistic,
};
use crate::key;
use crate::key::{debug_labels, Label};
use crate::recorder::TracingRecorder;

verus! {

/// One histogram of a family: its numbers, and its bucket collections as `Debug` texts.
#[derive(Debug)]
pub struct HistogramData {
    pub sample_count: u64,
    pub sample_count_float: Double,
    pub sample_sum: Double,
    pub schema: i32,
    pub zero_threshold: Double,
    pub zero_count: u64,
    pub zero_count_float: Double,
    pub bucket: String,
    pub positive_span: String,
    pub positive_delta: String,
    pub positive_count: String,
    pub negative_span: String,
    pub negative_delta: String,
    pub negative_count: String,
}

/// One series of a family: its labels, and the values that are present.
#[derive(Debug)]
pub struct Series {
    pub labels: Vec<Label>,
    pub counter: Option<Double>,
    pub gauge: Option<Double>,
    pub histogram: Option<HistogramData>,
}

/// One metric family. The type is the number that the protocol gives it.
#[derive(Debug)]
pub struct Family {
    pub name: String,
    pub type_code: i32,
    pub series: Vec<Series>,
}

/// The type of a metric family.
#[derive(Debug, Clone, Copy, PartialEq, Eq, Structural)]
pub enum FamilyType {
    Counter,
    Gauge,
    Summary,
    Untyped,
    Histogram,
    GaugeHistogram,
}

/// The type that the protocol numbers `code`.
pub open spec fn family_type_spec(code: i32) -> Option<FamilyType> {
    if code == 0 {
        Some(FamilyType::Counter)
    } else if code == 1 {
        Some(FamilyType::Gauge)
    } else if code == 2 {
        Some(FamilyType::Summary)
    } else if code == 3 {
        Some(FamilyType::Untyped)
    } else if code == 4 {
        Some(FamilyType::Histogram)
    } else if code == 5 {
        Some(FamilyType::GaugeHistogram)
    } else {
        None
    }
}

/// The count that a histogram reports: the floating-point one overrides the integer one where it
/// is greater than zero.
pub open spec fn effective_count_spec(integer: u64, float: Double) -> Number {
    if float.is_positive_spec() {
        Number::Float(float)
    } else {
        Number::Unsigned(integer)
    }
}

impl HistogramData {
    /// What the event of the histogram says.
    pub open spec fn snapshot_spec(self) -> event::HistogramSnapshotView {
        event::HistogramSnapshotView {
            count: effective_count_spec(self.sample_count, self.sample_count_float),
            sum: self.sample_sum,
            schema: self.schema,
            zero_threshold: self.zero_threshold,
            zero_count: effective_count_spec(self.zero_count, self.zero_count_float),
            bucket: self.bucket@,
            positive_span: self.positive_span@,
            positive_delta: self.positive_delta@,
            positive_count: self.positive_count@,
            negative_span: self.negative_span@,
            negative_delta: self.negative_delta@,
            negative_count: self.negative_count@,
        }
    }
}

/// The value that a series of a family of type `code` reports: the one that the type asks for, if
/// it is present. Families of the other types report nothing.
pub open spec fn statistic_spec(code: i32, series: Series) -> Option<event::StatisticView> {
    match family_type_spec(code) {
        Some(FamilyType::Counter) => match series.counter {
            Some(value) => Some(event::StatisticView::Counter(value)),
            None => None,
        },
        Some(FamilyType::Gauge) => match series.gauge {
            Some(value) => Some(event::StatisticView::Gauge(value)),
            None => None,
        },
        Some(FamilyType::Histogram) => match series.histogram {
            Some(histogram) => Some(event::StatisticView::Histogram(histogram.snapshot_spec())),
            None => None,
        },
        _ => None,
    }
}

/// The events of a series: one where it reports a value, none where it does not.
pub open spec fn series_events(
    level: Level,
    scope: Seq<char>,
    family: Family,
    series: Series,
) -> Seq<event::EventView> {
    match statistic_spec(family.type_code, series) {
        Some(statistic) => seq![
            event::event_of(
                level,
                scope,
                event::BodyView::Series {
                    name: family.name@,
                    labels: key::debug_map(key::label_views(series.labels@)),
                    statistic,
                },
            ),
        ],
        None => Seq::empty(),
    }
}

/// The events of the first `n` series of a family, in order.
pub open spec fn family_events(
    level: Level,
    scope: Seq<char>,
    family: Family,
    n: nat,
) -> Seq<event::EventView>
    decreases n,
{
    if n == 0 {
        Seq::empty()
    } else {
        family_events(level, scope, family, (n - 1) as nat) + series_events(
            level,
            scope,
            family,
            family.series@[n - 1],
        )
    }
}

/// The events of a list of families, in order.
pub open spec fn all_events(
    level: Level,
    scope: Seq<char>,
    families: Seq<Family>,
) -> Seq<event::EventView>
    decreases families.len(),
{
    if families.len() == 0 {
        Seq::empty()
    } else {
        all_events(level, scope, families.drop_last()) + family_events(
            level,
            scope,
            families.last(),
            families.last().series@.len(),
        )
    }
}

/// `MetricType::try_from`, which tells the types of the protocol apart by their numbers.
#[verifier::external_body]
fn family_type(code: i32) -> (family_type: Option<FamilyType>)
    ensures
        family_type == family_type_spec(code),
{
    match MetricType::try_from(code) {
        Ok(MetricType::Counter) => Some(FamilyType::Counter),
        Ok(MetricType::Gauge) => Some(FamilyType::Gauge),
        Ok(MetricType::Summary) => Some(FamilyType::Summary),
        Ok(MetricType::Untyped) => Some(FamilyType::Untyped),
        Ok(MetricType::Histogram) => Some(FamilyType::Histogram),
        Ok(MetricType::GaugeHistogram) => Some(FamilyType::GaugeHistogram),
        Err(_) => None,
    }
}

/// The count that a histogram reports.
fn effective_count(integer: u64, float: Double) -> (count: Number)
    ensures
        count == effective_count_spec(integer, float),
{
    if float.is_positive() {
        Number::Float(float)
    } else {
        Number::Unsigned(integer)
    }
}

/// What the event of a histogram says.
pub fn emit_histogram_snapshot(histogram: &HistogramData) -> (snapshot: HistogramSnapshot)
    ensures
        snapshot@ == histogram.snapshot_spec(),
        says_all_of(snapshot@, *histogram),
{
    HistogramSnapshot {
        count: effective_count(histogram.sample_count, histogram.sample_count_float),
        sum: histogram.sample_sum,
        schema: histogram.schema,
        zero_threshold: histogram.zero_threshold,
        zero_count: effective_count(histogram.zero_count, histogram.zero_count_float),
        bucket: histogram.bucket.clone(),
        positive_span: histogram.positive_span.clone(),
        positive_delta: histogram.positive_delta.clone(),
        positive_count: histogram.positive_count.clone(),
        negative_span: histogram.negative_span.clone(),
        negative_delta: histogram.negative_delta.clone(),
        negative_count: histogram.negative_count.clone(),
    }
}

/// The value that a series of a family of type `code` reports.
fn statistic(code: i32, series: &Series) -> (statistic: Option<Statistic>)
    ensures
        statistic is Some <==> statistic_spec(code, *series) is Some,
        statistic matches Some(found) ==> statistic_spec(code, *series) == Some(found@),
{
    match family_type(code) {
        Some(FamilyType::Counter) => match &series.counter {
            Some(value) => Some(Statistic::Counter(*value)),
            None => None,
        },
        Some(FamilyType::Gauge) => match &series.gauge {
            Some(value) => Some(Statistic::Gauge(*value)),
            None => None,
        },
        Some(FamilyType::Histogram) => match &series.histogram {
            Some(histogram) => Some(Statistic::Histogram(emit_histogram_snapshot(histogram))),
            None => None,
        },
        _ => None,
    }
}

/// The snapshot events of already aggregated families: one for every series that has a value of
/// its family's type, at the recorder's level and with the series' labels. Families that are
/// neither counters nor gauges nor histograms are ignored.
pub fn emit(recorder: &TracingRecorder, metrics: &Vec<Family>) -> (events: Vec<Event>)
    ensures
        event::event_views(events@) == all_events(recorder@.level, recorder@.scope, metrics@),
        events@.len() == values_in_families(metrics@, metrics@.len() as int),
{
    let level = recorder.level();
    let scope = recorder.scope();
    let mut events: Vec<Event> = Vec::new();
    for i in 0..metrics.len()
        invariant
            level == recorder@.level,
            scope@ == recorder@.scope,
            event::event_views(events@) =~= all_events(level, scope@, metrics@.take(i as int)),
    {
        let family = &metrics[i];
        let ghost done = all_events(level, scope@, metrics@.take(i as int));
        for j in 0..family.series.len()
            invariant
                event::event_views(events@) =~= done + family_events(
                    level,
                    scope@,
                    *family,
                    j as nat,
                ),
        {
            let series = &family.series[j];
            let ghost before = events@;
            assert(family_events(level, scope@, *family, (j + 1) as nat) == family_events(
                level,
                scope@,
                *family,
                j as nat,
            ) + series_events(level, scope@, *family, *series));
            match statistic(family.type_code, series) {
                Some(statistic) => {
                    let body = Body::Series {
                        name: family.name.clone(),
                        labels: debug_labels(&series.labels),
                        statistic,
                    };
                    let event = make_event(level, scope, body);
                    events.push(event);
                    assert(event::event_views(events@) =~= event::event_views(before).push(event@));
                },
                None => {},
            }
        }
        assert(metrics@.take(i + 1).drop_last() =~= metrics@.take(i as int));
    }
    assert(metrics@.take(metrics.len() as int) =~= metrics@);
    proof {
        every_value_gives_one_event(recorder@.level, recorder@.scope, metrics@);
        assert(event::event_views(events@).len() == events@.len());
    }
    events
}

/// A family that is neither a counter nor a gauge nor a histogram gives no event.
pub proof fn other_types_are_ignored(level: Level, scope: Seq<char>, family: Family, n: nat)
    requires
        family.type_code != 0,
        family.type_code != 1,
        family.type_code != 4,
    ensures
        family_events(level, scope, family, n) == Seq::<event::EventView>::empty(),
    decreases n,
{
    if n > 0 {
        other_types_are_ignored(level, scope, family, (n - 1) as nat);
    }
}

/// Every event has the recorder's level and scope and is a snapshot of one series of some family,
/// with that family's name and that series' labels.
pub proof fn events_come_from_series(
    level: Level,
    scope: Seq<char>,
    families: Seq<Family>,
    i: int,
)
    requires
        0 <= i < all_events(level, scope, families).len(),
    ensures
        all_events(level, scope, families)[i].level == level.emitted_spec(),
        all_events(level, scope, families)[i].scope == scope,
        exists|f: int, s: int|
            0 <= f < families.len() && 0 <= s < families[f].series@.len() && #[trigger] series_events(
                level,
                scope,
                families[f],
                families[f].series@[s],
            ) == seq![all_events(level, scope, families)[i]],
    decreases families.len(),
{
    let front = all_events(level, scope, families.drop_last());
    if i < front.len() {
        events_come_from_series(level, scope, families.drop_last(), i);
        let (f, s) = choose|f: int, s: int|
            0 <= f < families.drop_last().len() && 0 <= s < families.drop_last()[f].series@.len()
                && #[trigger] series_events(
                level,
                scope,
                families.drop_last()[f],
                families.drop_last()[f].series@[s],
            ) == seq![front[i]];
        assert(series_events(level, scope, families[f], families[f].series@[s]) == seq![
            all_events(level, scope, families)[i],
        ]);
    } else {
        let last = families.last();
        let n = last.series@.len();
        lemma_family_event(level, scope, last, n, i - front.len());
        let s = choose|s: int|
            0 <= s < n && #[trigger] series_events(level, scope, last, last.series@[s]) == seq![
                family_events(level, scope, last, n)[i - front.len()],
            ];
        assert(families[families.len() - 1] == last);
        assert(series_events(
            level,
            scope,
            families[families.len() - 1],
            families[families.len() - 1].series@[s],
        ) == seq![all_events(level, scope, families)[i]]);
        assert(seq![all_events(level, scope, families)[i]][0] == series_events(
            level,
            scope,
            last,
            last.series@[s],
        )[0]);
    }
}

/// Every event of a family is the event of one of its series.
proof fn lemma_family_event(level: Level, scope: Seq<char>, family: Family, n: nat, i: int)
    requires
        n <= family.series@.len(),
        0 <= i < family_events(level, scope, family, n).len(),
    ensures
        exists|s: int|
            0 <= s < n && #[trigger] series_events(level, scope, family, family.series@[s]) == seq![
                family_events(level, scope, family, n)[i],
            ],
    decreases n,
{
    let front = family_events(level, scope, family, (n - 1) as nat);
    if i < front.len() {
        lemma_family_event(level, scope, family, (n - 1) as nat, i);
        let s = choose|s: int|
            0 <= s < n - 1 && #[trigger] series_events(level, scope, family, family.series@[s])
                == seq![front[i]];
        assert(series_events(level, scope, family, family.series@[s]) == seq![
            family_events(level, scope, family, n)[i],
        ]);
    } else {
        let own = series_events(level, scope, family, family.series@[n - 1]);
        assert(own =~= seq![family_events(level, scope, family, n)[i]]);
    }
}

/// Whether a series has the value that its family's type asks for.
pub open spec fn has_value(code: i32, series: Series) -> bool {
    ||| code == 0 && series.counter is Some
    ||| code == 1 && series.gauge is Some
    ||| code == 4 && series.histogram is Some
}

/// Whether `event` reports the value of `series`, whatever it is: with the family's name, the
/// labels of the series, and the value itself under the kind of the family.
pub open spec fn reports_series(
    event: event::EventView,
    level: Level,
    scope: Seq<char>,
    family: Family,
    series: Series,
) -> bool {
    &&& event.scope == scope
    &&& event.level == match level {
        Level::Trace => Level::Trace,
        Level::Debug => Level::Debug,
        _ => Level::Info,
    }
    &&& event.body is Series
    &&& event.body->Series_name == family.name@
    &&& event.body->Series_labels == key::debug_map(key::label_views(series.labels@))
    &&& family.type_code == 0 ==> event.body->Series_statistic == event::StatisticView::Counter(
        series.counter->Some_0,
    )
    &&& family.type_code == 1 ==> event.body->Series_statistic == event::StatisticView::Gauge(
        series.gauge->Some_0,
    )
    &&& family.type_code == 4 ==> {
        let found = event.body->Series_statistic;
        let given = series.histogram->Some_0;
        &&& found is Histogram
        &&& says_all_of(found->Histogram_0, given)
    }
}

/// Whether the snapshot says what the histogram holds, field by field. A count is the
/// floating-point one where that is a positive number, and else the integer one.
pub open spec fn says_all_of(
    snapshot: event::HistogramSnapshotView,
    histogram: HistogramData,
) -> bool {
    &&& snapshot.count == if 0 < histogram.sample_count_float.bits <= 0x7ff0_0000_0000_0000u64 {
        Number::Float(histogram.sample_count_float)
    } else {
        Number::Unsigned(histogram.sample_count)
    }
    &&& snapshot.zero_count == if 0 < histogram.zero_count_float.bits <= 0x7ff0_0000_0000_0000u64 {
        Number::Float(histogram.zero_count_float)
    } else {
        Number::Unsigned(histogram.zero_count)
    }
    &&& snapshot.sum == histogram.sample_sum
    &&& snapshot.schema == histogram.schema
    &&& snapshot.zero_threshold == histogram.zero_threshold
    &&& snapshot.bucket == histogram.bucket@
    &&& snapshot.positive_span == histogram.positive_span@
    &&& snapshot.positive_delta == histogram.positive_delta@
    &&& snapshot.positive_count == histogram.positive_count@
    &&& snapshot.negative_span == histogram.negative_span@
    &&& snapshot.negative_delta == histogram.negative_delta@
    &&& snapshot.negative_count == histogram.negative_count@
}

/// How many of the first `n` series of a family have the value that its type asks for.
pub open spec fn values_in_family(family: Family, n: int) -> int
    decreases n,
{
    if n <= 0 {
        0
    } else if has_value(family.type_code, family.series@[n - 1]) {
        values_in_family(family, n - 1) + 1
    } else {
        values_in_family(family, n - 1)
    }
}

/// How many series of the first `n` families have the value that their family's type asks for.
pub open spec fn values_in_families(families: Seq<Family>, n: int) -> int
    decreases n,
{
    if n <= 0 {
        0
    } else {
        values_in_families(families, n - 1) + values_in_family(
            families[n - 1],
            families[n - 1].series@.len() as int,
        )
    }
}

/// The event of an aggregated histogram says all of it, field by field.
pub proof fn histogram_snapshots_say_everything(histogram: HistogramData)
    ensures
        says_all_of(histogram.snapshot_spec(), histogram),
{
}

/// A series that has the value that its family's type asks for gives exactly one event, which
/// reports that value, whatever it is. Any other series gives none.
pub proof fn a_series_reports_its_value(
    level: Level,
    scope: Seq<char>,
    family: Family,
    series: Series,
)
    ensures
        has_value(family.type_code, series) ==> {
            &&& series_events(level, scope, family, series).len() == 1
            &&& reports_series(
                series_events(level, scope, family, series)[0],
                level,
                scope,
                family,
                series,
            )
        },
        !has_value(family.type_code, series) ==> series_events(
            level,
            scope,
            family,
            series,
        ).len() == 0,
{
}

/// Where the event of each series stands among those of its family.
proof fn lemma_family_places(level: Level, scope: Seq<char>, family: Family, n: int)
    requires
        0 <= n <= family.series@.len(),
    ensures
        family_events(level, scope, family, n as nat).len() == values_in_family(family, n),
        forall|s: int|
            0 <= s < n && has_value(family.type_code, #[trigger] family.series@[s]) ==> 0
                <= values_in_family(family, s) < values_in_family(family, n) && reports_series(
                family_events(level, scope, family, n as nat)[values_in_family(family, s)],
                level,
                scope,
                family,
                family.series@[s],
            ),
    decreases n,
{
    if n > 0 {
        lemma_family_places(level, scope, family, n - 1);
        a_series_reports_its_value(level, scope, family, family.series@[n - 1]);
        let front = family_events(level, scope, family, (n - 1) as nat);
        let all = family_events(level, scope, family, n as nat);
        assert forall|s: int|
            0 <= s < n && has_value(family.type_code, #[trigger] family.series@[s]) implies 0
            <= values_in_family(family, s) < values_in_family(family, n) && reports_series(
            all[values_in_family(family, s)],
            level,
            scope,
            family,
            family.series@[s],
        ) by {
            if s < n - 1 {
                assert(all[values_in_family(family, s)] == front[values_in_family(family, s)]);
            }
        }
    }
}

/// Every series of every family that has the value that the family's type asks for gives exactly
/// one event, whatever the value is, in the order of the families and their series, and there are
/// no other events: their number is the number of such series.
pub proof fn every_value_gives_one_event(level: Level, scope: Seq<char>, families: Seq<Family>)
    ensures
        all_events(level, scope, families).len() == values_in_families(
            families,
            families.len() as int,
        ),
        forall|f: int, s: int|
            #![trigger families[f].series@[s]]
            0 <= f < families.len() && 0 <= s < families[f].series@.len() && has_value(
                families[f].type_code,
                families[f].series@[s],
            ) ==> {
                let place = values_in_families(families, f) + values_in_family(families[f], s);
                &&& 0 <= place < all_events(level, scope, families).len()
                &&& reports_series(
                    all_events(level, scope, families)[place],
                    level,
                    scope,
                    families[f],
                    families[f].series@[s],
                )
            },
    decreases families.len(),
{
    if families.len() > 0 {
        let n = families.len() - 1;
        let front = families.drop_last();
        let last = families.last();
        let earlier = all_events(level, scope, front);
        let own = family_events(level, scope, last, last.series@.len());
        let all = all_events(level, scope, families);
        every_value_gives_one_event(level, scope, front);
        lemma_family_places(level, scope, last, last.series@.len() as int);
        lemma_values_until(families, n);
        assert forall|f: int, s: int|
            #![trigger families[f].series@[s]]
            0 <= f < families.len() && 0 <= s < families[f].series@.len() && has_value(
                families[f].type_code,
                families[f].series@[s],
            ) implies ({
            let place = values_in_families(families, f) + values_in_family(families[f], s);
            &&& 0 <= place < all.len()
            &&& reports_series(all[place], level, scope, families[f], families[f].series@[s])
        }) by {
            let place = values_in_families(families, f) + values_in_family(families[f], s);
            if f < n {
                lemma_values_until(families, f);
                assert(front[f] == families[f]);
                assert(front[f].series@[s] == families[f].series@[s]);
                assert(all[place] == earlier[place]);
            } else {
                assert(families[f] == last);
                assert(last.series@[s] == families[f].series@[s]);
                assert(all[place] == own[values_in_family(last, s)]);
            }
        }
    }
}

/// The first `n` families alone decide how many values they have.
proof fn lemma_values_until(families: Seq<Family>, n: int)
    requires
        0 <= n < families.len(),
    ensures
        values_in_families(families.drop_last(), n) == values_in_families(families, n),
    decreases n,
{
    if n > 0 {
        lemma_values_until(families, n - 1);
    }
}

/// The numbers that the protocol gives the types.
pub proof fn family_types_by_number(code: i32)
    ensures
        family_type_spec(code) == Some(FamilyType::Counter) <==> code == 0,
        family_type_spec(code) == Some(FamilyType::Gauge) <==> code == 1,
        family_type_spec(code) == Some(FamilyType::Summary) <==> code == 2,
        family_type_spec(code) == Some(FamilyType::Untyped) <==> code == 3,
        family_type_spec(code) == Some(FamilyType::Histogram) <==> code == 4,
        family_type_spec(code) == Some(FamilyType::GaugeHistogram) <==> code == 5,
        family_type_spec(code) is None <==> code < 0 || 5 < code,
{
}

} // verus!
