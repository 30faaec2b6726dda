//! Draining histograms: every poll takes the raw observations of each histogram out of its bucket
//! and absorbs them into the sketch of its key, which then says what is reported.
//!
//! What a sketch is, how it absorbs an observation and what it says are floating-point matters and
//! come from the caller. Which sketch absorbs what, and that each observation that was taken out is
//! absorbed once, is decided here.

use vstd::prelude::*;

use crate::bucket::{take_observations, Taken};
use crate::event::Double;
use crate::key;
use crate::key::{KeyView, MetricKey};
use crate::poller;
use crate::poller::HistogramReading;
use crate::recorder::TracingRecorder;
use crate::registry;
use crate::registry::HistogramCell;
use crate::sketch::Sketches;

verus! {

/// What a sketch says: how many observations it holds, their sum, and the quantiles that it can
/// estimate.
#[derive(Debug, Clone, Copy)]
pub struct SketchSummary {
    pub count: usize,
    pub sum: Double,
    pub p50: Option<Double>,
    pub p90: Option<Double>,
    pub p99: Option<Double>,
}

/// The readings of a poll, one of each histogram, and the observations that were taken out for
/// each.
pub struct Drained {
    pub readings: Vec<HistogramReading>,
    pub taken: Vec<Taken>,
}

/// The reading of a histogram whose sketch says `summary`.
pub open spec fn reading_of(key: KeyView, summary: SketchSummary) -> poller::HistogramReadingView {
    poller::HistogramReadingView {
        key,
        count: summary.count,
        sum: summary.sum,
        p50: summary.p50,
        p90: summary.p90,
        p99: summary.p99,
    }
}

/// Whether a sketch that absorbs `values`, each once and in order, goes from `before` to `after`.
pub open spec fn absorbed<T, A: Fn(T, Double) -> T>(
    absorb: A,
    before: T,
    values: Seq<Double>,
    after: T,
) -> bool
    decreases values.len(),
{
    if values.len() == 0 {
        after == before
    } else {
        exists|between: T|
            absorbed(absorb, before, values.drop_last(), between) && #[trigger] call_ensures(
                absorb,
                (between, values.last()),
                after,
            )
    }
}

/// Whether `sketch` is what the sketch of `key` is before a poll: the one that the last poll left,
/// or a new one where the key has none.
pub open spec fn starts_from<T, N: Fn() -> T>(
    sketches: Map<KeyView, T>,
    key: KeyView,
    fresh: N,
    sketch: T,
) -> bool {
    if sketches.contains_key(key) {
        sketch == sketches[key]
    } else {
        call_ensures(fresh, (), sketch)
    }
}

/// Whether draining one histogram led to this reading and left this sketch: the observations that
/// were taken out of the bucket were absorbed by the sketch of the key.
pub open spec fn drains_one<T, N: Fn() -> T, A: Fn(T, Double) -> T, S: Fn(&T) -> SketchSummary>(
    reading: poller::HistogramReadingView,
    taken: Taken,
    sketches: Map<KeyView, T>,
    left: T,
    fresh: N,
    absorb: A,
    summarise: S,
) -> bool {
    &&& exists|start: T| #[trigger]
        starts_from(sketches, reading.key, fresh, start) && absorbed(
            absorb,
            start,
            taken.values_spec(),
            left,
        )
    &&& exists|summary: SketchSummary| #[trigger]
        call_ensures(summarise, (&left,), summary) && reading == reading_of(reading.key, summary)
}

/// The keys of the readings, with the buckets that were drained for them.
pub open spec fn drained_entries(
    readings: Seq<poller::HistogramReadingView>,
    taken: Seq<Taken>,
) -> Seq<(KeyView, HistogramCell)> {
    Seq::new(readings.len(), |i: int| (readings[i].key, taken[i].cell()))
}

/// Whether draining `cells` gave these readings and led from the table `before` to the table
/// `after`: each histogram was drained once, into its own sketch, every other sketch stayed, and
/// there is a sketch for each key that had one or was drained, and no other.
pub open spec fn drains<T, N: Fn() -> T, A: Fn(T, Double) -> T, S: Fn(&T) -> SketchSummary>(
    readings: Seq<poller::HistogramReadingView>,
    taken: Seq<Taken>,
    cells: Map<KeyView, HistogramCell>,
    before: Map<KeyView, T>,
    after: Map<KeyView, T>,
    fresh: N,
    absorb: A,
    summarise: S,
) -> bool {
    &&& taken.len() == readings.len()
    &&& registry::lists_once(drained_entries(readings, taken), cells)
    &&& after.dom() == before.dom().union(cells.dom())
    &&& forall|key: KeyView|
        before.contains_key(key) && !cells.contains_key(key) ==> #[trigger] after[key]
            == before[key]
    &&& forall|i: int|
        0 <= i < readings.len() ==> drains_one(
            #[trigger] readings[i],
            taken[i],
            before,
            after[readings[i].key],
            fresh,
            absorb,
            summarise,
        )
}

/// Lets `sketch` absorb `values`, each once and in order.
fn absorb_all<T, A: Fn(T, Double) -> T>(sketch: T, values: &Vec<Double>, absorb: &A) -> (after: T)
    requires
        forall|t: T, value: Double| #[trigger] call_requires(*absorb, (t, value)),
    ensures
        absorbed(*absorb, sketch, values@, after),
{
    let ghost before = sketch;
    let mut sketch = sketch;
    for i in 0..values.len()
        invariant
            forall|t: T, value: Double| #[trigger] call_requires(*absorb, (t, value)),
            absorbed(*absorb, before, values@.take(i as int), sketch),
    {
        let ghost between = sketch;
        sketch = absorb(sketch, values[i]);
        proof {
            let until = values@.take(i + 1);
            assert(until.drop_last() =~= values@.take(i as int));
            assert(absorbed(*absorb, before, until.drop_last(), between));
            assert(call_ensures(*absorb, (between, until.last()), sketch));
            assert(absorbed(*absorb, before, until, sketch));
        }
    }
    assert(values@.take(values@.len() as int) =~= values@);
    sketch
}

/// Drains every histogram of the recorder once into the sketch of its key, and reads that sketch.
pub fn read_histograms<T, N: Fn() -> T, A: Fn(T, Double) -> T, S: Fn(&T) -> SketchSummary>(
    recorder: &TracingRecorder,
    sketches: &mut Sketches<T>,
    fresh: &N,
    absorb: &A,
    summarise: &S,
) -> (drained: Drained)
    requires
        old(sketches).well_formed(),
        call_requires(*fresh, ()),
        forall|t: T, value: Double| #[trigger] call_requires(*absorb, (t, value)),
        forall|t: T| #[trigger] call_requires(*summarise, (&t,)),
    ensures
        final(sketches).well_formed(),
        drains(
            poller::histogram_views(drained.readings@),
            drained.taken@,
            recorder@.histograms,
            old(sketches)@,
            final(sketches)@,
            *fresh,
            *absorb,
            *summarise,
        ),
        forall|i: int|
            0 <= i < drained.readings@.len() ==> exists|summary: SketchSummary|
                {
                    &&& #[trigger] call_ensures(
                        *summarise,
                        (&final(sketches)@[(#[trigger] drained.readings@[i]).key@],),
                        summary,
                    )
                    &&& drained.readings@[i].count == summary.count
                    &&& drained.readings@[i].sum == summary.sum
                    &&& drained.readings@[i].p50 == summary.p50
                    &&& drained.readings@[i].p90 == summary.p90
                    &&& drained.readings@[i].p99 == summary.p99
                },
{
    let buckets = recorder.histogram_buckets();
    let ghost before = sketches@;
    let ghost entries = registry::bucket_entries(buckets@);
    let ghost keys = entries.map_values(|entry: (KeyView, HistogramCell)| entry.0);
    let mut readings: Vec<HistogramReading> = Vec::new();
    let mut taken: Vec<Taken> = Vec::new();
    for i in 0..buckets.len()
        invariant
            call_requires(*fresh, ()),
            forall|t: T, value: Double| #[trigger] call_requires(*absorb, (t, value)),
            forall|t: T| #[trigger] call_requires(*summarise, (&t,)),
            before == old(sketches)@,
            entries == registry::bucket_entries(buckets@),
            keys == entries.map_values(|entry: (KeyView, HistogramCell)| entry.0),
            keys.no_duplicates(),
            sketches.well_formed(),
            readings.len() == i,
            taken.len() == i,
            sketches@.dom() =~= before.dom().union(keys.take(i as int).to_set()),
            forall|key: KeyView|
                before.contains_key(key) && !keys.take(i as int).contains(key)
                    ==> #[trigger] sketches@[key] == before[key],
            forall|j: int|
                0 <= j < i ==> (#[trigger] readings@[j]).key@ == keys[j] && taken@[j].cell()
                    == entries[j].1 && drains_one(
                    readings@[j]@,
                    taken@[j],
                    before,
                    sketches@[keys[j]],
                    *fresh,
                    *absorb,
                    *summarise,
                ),
    {
        let ghost was = sketches@;
        let ghost key = keys[i as int];
        proof {
            if keys.take(i as int).contains(key) {
                let j = choose|j: int| 0 <= j < i && keys.take(i as int)[j] == key;
                assert(keys[j] == key);
            }
            assert(was.contains_key(key) == before.contains_key(key));
        }
        let start = sketches.take(&buckets[i].0, fresh);
        let ghost started = start;
        assert(starts_from(before, key, *fresh, started));
        let observations = take_observations(&buckets[i].1);
        let left = absorb_all(start, observations.values(), absorb);
        let summary = summarise(&left);
        let ghost stays = left;
        let reading = HistogramReading {
            key: buckets[i].0.clone(),
            count: summary.count,
            sum: summary.sum,
            p50: summary.p50,
            p90: summary.p90,
            p99: summary.p99,
        };
        sketches.put(buckets[i].0.clone(), left);
        proof {
            assert(reading@ == reading_of(key, summary));
            assert(call_ensures(*summarise, (&stays,), summary));
            assert(drains_one(
                reading@,
                observations,
                before,
                sketches@[key],
                *fresh,
                *absorb,
                *summarise,
            ));
            assert(keys.take(i + 1) =~= keys.take(i as int).push(key));
            assert forall|k: KeyView| #[trigger] keys.take(i + 1).contains(k)
                <==> keys.take(i as int).contains(k) || k == key by {
                if keys.take(i as int).contains(k) {
                    let j = choose|j: int| 0 <= j < i && keys.take(i as int)[j] == k;
                    assert(keys.take(i + 1)[j] == k);
                }
                if k == key {
                    assert(keys.take(i + 1)[i as int] == k);
                }
            }
            assert(sketches@ =~= was.insert(key, stays));
            assert(sketches@.dom() =~= before.dom().union(keys.take(i + 1).to_set()));
        }
        readings.push(reading);
        taken.push(observations);
    }
    proof {
        let views = poller::histogram_views(readings@);
        assert(keys.take(buckets@.len() as int) =~= keys);
        assert(drained_entries(views, taken@) =~= entries);
        assert forall|i: int| 0 <= i < views.len() implies drains_one(
            #[trigger] views[i],
            taken@[i],
            before,
            sketches@[views[i].key],
            *fresh,
            *absorb,
            *summarise,
        ) by {
            assert(readings@[i].key@ == keys[i]);
        }
        assert forall|key: KeyView|
            before.contains_key(key) && !recorder@.histograms.contains_key(key) implies
            #[trigger] sketches@[key] == before[key] by {
            if keys.contains(key) {
                assert(keys.to_set().contains(key));
            }
        }
        assert forall|i: int| 0 <= i < readings@.len() implies exists|summary: SketchSummary|
            {
                &&& #[trigger] call_ensures(
                    *summarise,
                    (&sketches@[(#[trigger] readings@[i]).key@],),
                    summary,
                )
                &&& readings@[i].count == summary.count
                &&& readings@[i].sum == summary.sum
                &&& readings@[i].p50 == summary.p50
                &&& readings@[i].p90 == summary.p90
                &&& readings@[i].p99 == summary.p99
            } by {
            assert(views[i] == readings@[i]@);
            let left = sketches@[views[i].key];
            let summary = choose|summary: SketchSummary| #[trigger]
                call_ensures(*summarise, (&left,), summary) && views[i] == reading_of(
                    views[i].key,
                    summary,
                );
            assert(call_ensures(*summarise, (&left,), summary));
        }
    }
    Drained { readings, taken }
}

/// A sketch is handed on from poll to poll: what a poll left in the sketch of a histogram is what
/// absorbs the observations that the next poll takes out for it, and a sketch that the next poll
/// does not drain stays.
pub proof fn sketches_are_handed_on<
    T,
    N: Fn() -> T,
    A: Fn(T, Double) -> T,
    S: Fn(&T) -> SketchSummary,
>(
    readings: Seq<poller::HistogramReadingView>,
    taken: Seq<Taken>,
    cells: Map<KeyView, HistogramCell>,
    before: Map<KeyView, T>,
    between: Map<KeyView, T>,
    later_readings: Seq<poller::HistogramReadingView>,
    later_taken: Seq<Taken>,
    later_cells: Map<KeyView, HistogramCell>,
    after: Map<KeyView, T>,
    fresh: N,
    absorb: A,
    summarise: S,
    key: KeyView,
)
    requires
        drains(readings, taken, cells, before, between, fresh, absorb, summarise),
        drains(
            later_readings,
            later_taken,
            later_cells,
            between,
            after,
            fresh,
            absorb,
            summarise,
        ),
        cells.contains_key(key),
    ensures
        !later_cells.contains_key(key) ==> after[key] == between[key],
        later_cells.contains_key(key) ==> exists|i: int|
            0 <= i < later_readings.len() && (#[trigger] later_readings[i]).key == key && absorbed(
                absorb,
                between[key],
                later_taken[i].values_spec(),
                after[key],
            ),
{
    assert(between.dom().contains(key));
    assert(between.contains_key(key));
    if later_cells.contains_key(key) {
        let entries = drained_entries(later_readings, later_taken);
        let keys = entries.map_values(|entry: (KeyView, HistogramCell)| entry.0);
        assert(keys.to_set().contains(key));
        let i = choose|i: int| 0 <= i < keys.len() && keys[i] == key;
        assert(later_readings[i].key == key);
        let start = choose|start: T| #[trigger]
            starts_from(between, key, fresh, start) && absorbed(
                absorb,
                start,
                later_taken[i].values_spec(),
                after[key],
            );
        assert(start == between[key]);
    }
}

/// After a poll the table has the keys that it had before and those of the recorder's histograms,
/// so at most one more for each histogram, and none for a histogram that had one.
pub proof fn one_sketch_per_histogram<
    T,
    N: Fn() -> T,
    A: Fn(T, Double) -> T,
    S: Fn(&T) -> SketchSummary,
>(
    readings: Seq<poller::HistogramReadingView>,
    taken: Seq<Taken>,
    cells: Map<KeyView, HistogramCell>,
    before: Map<KeyView, T>,
    after: Map<KeyView, T>,
    fresh: N,
    absorb: A,
    summarise: S,
)
    requires
        drains(readings, taken, cells, before, after, fresh, absorb, summarise),
        before.dom().finite(),
    ensures
        after.dom() == before.dom().union(cells.dom()),
        after.dom().finite(),
        after.dom().len() <= before.dom().len() + cells.dom().len(),
        before.dom().subset_of(cells.dom()) ==> after.dom() == cells.dom(),
{
    let entries = drained_entries(readings, taken);
    let keys = entries.map_values(|entry: (KeyView, HistogramCell)| entry.0);
    keys.unique_seq_to_set();
    assert(cells.dom().finite());
    vstd::set_lib::lemma_len_union(before.dom(), cells.dom());
    if before.dom().subset_of(cells.dom()) {
        assert(after.dom() =~= cells.dom());
    }
}

/// A reading says what the sketch of its histogram says, field by field: the count and the sum of
/// what it absorbed, and each quantile under its own name.
pub proof fn readings_say_what_the_sketches_say<
    T,
    N: Fn() -> T,
    A: Fn(T, Double) -> T,
    S: Fn(&T) -> SketchSummary,
>(
    readings: Seq<poller::HistogramReadingView>,
    taken: Seq<Taken>,
    cells: Map<KeyView, HistogramCell>,
    before: Map<KeyView, T>,
    after: Map<KeyView, T>,
    fresh: N,
    absorb: A,
    summarise: S,
    i: int,
) -> (summary: SketchSummary)
    requires
        drains(readings, taken, cells, before, after, fresh, absorb, summarise),
        0 <= i < readings.len(),
    ensures
        call_ensures(summarise, (&after[readings[i].key],), summary),
        readings[i].count == summary.count,
        readings[i].sum == summary.sum,
        readings[i].p50 == summary.p50,
        readings[i].p90 == summary.p90,
        readings[i].p99 == summary.p99,
{
    let left = after[readings[i].key];
    assert(drains_one(readings[i], taken[i], before, left, fresh, absorb, summarise));
    choose|summary: SketchSummary| #[trigger]
        call_ensures(summarise, (&left,), summary) && readings[i] == reading_of(
            readings[i].key,
            summary,
        )
}

/// A snapshot reports each histogram that has an observation by a sample whose count, sum and
/// quantiles are those that the sketch of the histogram says, each under its own name. Where the
/// sketch has no estimate of a quantile, not-a-number is reported.
pub proof fn samples_say_what_the_sketches_say<
    T,
    N: Fn() -> T,
    A: Fn(T, Double) -> T,
    S: Fn(&T) -> SketchSummary,
>(
    counters: Seq<(KeyView, u64)>,
    gauges: Seq<(KeyView, u64)>,
    readings: Seq<poller::HistogramReadingView>,
    taken: Seq<Taken>,
    cells: Map<KeyView, HistogramCell>,
    before: Map<KeyView, T>,
    after: Map<KeyView, T>,
    fresh: N,
    absorb: A,
    summarise: S,
    i: int,
) -> (result: (SketchSummary, int))
    requires
        drains(readings, taken, cells, before, after, fresh, absorb, summarise),
        0 <= i < readings.len(),
        readings[i].count > 0,
    ensures
        ({
            let (summary, place) = result;
            let samples = poller::snapshot(counters, gauges, readings);
            let no_estimate = Double { bits: 0x7ff8_0000_0000_0000u64 };
            &&& call_ensures(summarise, (&after[readings[i].key],), summary)
            &&& counters.len() + gauges.len() <= place < samples.len()
            &&& samples[place] is Histogram
            &&& samples[place]->Histogram_metric == key::rendered(readings[i].key)
            &&& samples[place]->count == summary.count
            &&& samples[place]->sum == summary.sum
            &&& samples[place]->p50 == match summary.p50 {
                Some(estimate) => estimate,
                None => no_estimate,
            }
            &&& samples[place]->p90 == match summary.p90 {
                Some(estimate) => estimate,
                None => no_estimate,
            }
            &&& samples[place]->p99 == match summary.p99 {
                Some(estimate) => estimate,
                None => no_estimate,
            }
        }),
{
    let summary = readings_say_what_the_sketches_say(
        readings,
        taken,
        cells,
        before,
        after,
        fresh,
        absorb,
        summarise,
        i,
    );
    let observed = |reading: poller::HistogramReadingView| reading.count > 0;
    let reported = readings.filter(observed);
    let samples = poller::snapshot(counters, gauges, readings);
    assert(observed(readings[i]));
    readings.lemma_filter_contains(observed, i);
    let j = choose|j: int| 0 <= j < reported.len() && reported[j] == readings[i];
    let place = counters.len() + gauges.len() + j;
    assert(samples[place] == poller::histogram_samples(readings)[j]);
    (summary, place)
}

} // verus!
