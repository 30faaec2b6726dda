use metrics::{Counter, Gauge, Histogram};
use metrics_exporter_tracing::drain::{read_histograms, SketchSummary};
use metrics_exporter_tracing::event::{Body, MetricKind};
use metrics_exporter_tracing::poller::{
    assemble, emit_snapshot_counter, emit_snapshot_gauge, emit_snapshot_histogram,
    histogram_sample, TickStep,
};
use metrics_exporter_tracing::recorder::{CounterHandle, GaugeHandle, HistogramHandle};
use metrics_exporter_tracing::sketch::Sketches;
use metrics_exporter_tracing::{
    Double, HistogramReading, Label, Level, MetricKey, Polled, Poller, Reported, Sample,
    TracingRecorder,
};
use metrics_util::storage::Summary;

fn key(name: &str, labels: &[(&str, &str)]) -> MetricKey {
    let labels = labels
        .iter()
        .map(|(k, v)| Label { key: k.to_string(), value: v.to_string() })
        .collect();
    MetricKey { name: name.to_string(), labels }
}

fn double(value: f64) -> Double {
    Double { bits: value.to_bits() }
}

fn counter(recorder: &mut TracingRecorder, key: &MetricKey) -> Counter {
    match recorder.register_counter(key, Level::Info) {
        CounterHandle::Silent(cell) => Counter::from_arc(cell),
        CounterHandle::Streaming(_) => panic!("nothing streams here"),
    }
}

fn gauge(recorder: &mut TracingRecorder, key: &MetricKey) -> Gauge {
    match recorder.register_gauge(key, Level::Info) {
        GaugeHandle::Silent(cell) => Gauge::from_arc(cell),
        GaugeHandle::Streaming(_) => panic!("nothing streams here"),
    }
}

fn histogram(recorder: &mut TracingRecorder, key: &MetricKey) -> Histogram {
    match recorder.register_histogram(key, Level::Info) {
        HistogramHandle::Silent(cell) => Histogram::from_arc(cell.bucket),
        HistogramHandle::Streaming(_) => panic!("nothing streams here"),
    }
}

type Sketch = (Summary, f64);

fn fresh() -> Sketch {
    (Summary::with_defaults(), 0.0)
}

fn absorb((mut summary, sum): Sketch, value: Double) -> Sketch {
    let value = f64::from_bits(value.bits);
    summary.add(value);
    (summary, sum + value)
}

fn summarise((summary, sum): &Sketch) -> SketchSummary {
    SketchSummary {
        count: summary.count(),
        sum: double(*sum),
        p50: summary.quantile(0.5).map(double),
        p90: summary.quantile(0.9).map(double),
        p99: summary.quantile(0.99).map(double),
    }
}

fn poll_all(
    recorder: &TracingRecorder,
    poller: &Poller<()>,
    sketches: &mut Sketches<Sketch>,
) -> Polled {
    poller.poll_once(recorder, sketches, &fresh, &absorb, &summarise)
}

fn poll(
    recorder: &TracingRecorder,
    poller: &Poller<()>,
    sketches: &mut Sketches<Sketch>,
) -> Vec<Sample> {
    poll_all(recorder, poller, sketches).samples
}

fn report(recorder: &TracingRecorder, poller: &Poller<()>) -> Reported {
    poller.emit_snapshot(recorder, &mut Sketches::new(), &fresh, &absorb, &summarise)
}

fn metric_names(samples: &[Sample]) -> Vec<&str> {
    samples
        .iter()
        .map(|s| match s {
            Sample::Counter { metric, .. } => metric.as_str(),
            Sample::Gauge { metric, .. } => metric.as_str(),
            Sample::Histogram { metric, .. } => metric.as_str(),
        })
        .collect()
}

#[test]
fn snapshot_aggregates_counter_gauge_histogram() {
    let (mut recorder, poller) = TracingRecorder::builder().build();
    let mut sketches = Sketches::new();

    counter(&mut recorder, &key("hits", &[])).increment(3);
    counter(&mut recorder, &key("hits", &[])).increment(4);
    gauge(&mut recorder, &key("temp", &[])).set(21.5);
    let h = histogram(&mut recorder, &key("lat", &[]));
    for v in [1.0, 2.0, 3.0, 4.0] {
        h.record(v);
    }

    let samples = poll(&recorder, &poller, &mut sketches);

    let counter = samples
        .iter()
        .find(|s| matches!(s, Sample::Counter { metric, .. } if metric == "hits"))
        .expect("counter sample");
    assert_eq!(
        *counter,
        Sample::Counter {
            metric: "hits".into(),
            value: 7
        }
    );

    let gauge = samples
        .iter()
        .find(|s| matches!(s, Sample::Gauge { metric, .. } if metric == "temp"))
        .expect("gauge sample");
    assert_eq!(
        *gauge,
        Sample::Gauge {
            metric: "temp".into(),
            value: double(21.5)
        }
    );

    match samples
        .iter()
        .find(|s| matches!(s, Sample::Histogram { metric, .. } if metric == "lat"))
        .expect("histogram sample")
    {
        Sample::Histogram { count, sum, .. } => {
            assert_eq!(*count, 4);
            assert_eq!(f64::from_bits(sum.bits), 10.0);
        }
        _ => unreachable!(),
    }
}

#[test]
fn labels_render_into_metric_name() {
    let (mut recorder, poller) = TracingRecorder::builder().build();
    let mut sketches = Sketches::new();
    counter(&mut recorder, &key("frames", &[("display", "0")])).increment(1);
    assert_eq!(
        metric_names(&poll(&recorder, &poller, &mut sketches)),
        vec!["frames{display=0}"]
    );
}

#[test]
fn histogram_sketch_persists_across_polls() {
    // Each poll drains the bucket; the sketch must keep the prior count so cumulative quantiles
    // stay correct across ticks.
    let (mut recorder, poller) = TracingRecorder::builder().build();
    let mut sketches = Sketches::new();
    let h = histogram(&mut recorder, &key("lat", &[]));

    h.record(1.0);
    let first = poll(&recorder, &poller, &mut sketches);
    assert!(matches!(
        first.iter().find(|s| matches!(s, Sample::Histogram { .. })),
        Some(Sample::Histogram { count: 1, .. })
    ));

    h.record(2.0);
    let second = poll(&recorder, &poller, &mut sketches);
    match second
        .iter()
        .find(|s| matches!(s, Sample::Histogram { .. }))
        .unwrap()
    {
        Sample::Histogram { count, sum, .. } => {
            assert_eq!(*count, 2);
            assert_eq!(f64::from_bits(sum.bits), 3.0);
        }
        _ => unreachable!(),
    }
}

#[test]
fn every_registered_metric_is_reported_once() {
    let (mut recorder, poller) = TracingRecorder::builder().build();
    let mut sketches = Sketches::new();
    for name in ["a", "b", "c"] {
        counter(&mut recorder, &key(name, &[])).increment(1);
        gauge(&mut recorder, &key(name, &[("side", "left")])).set(1.0);
    }
    let silent = histogram(&mut recorder, &key("unused", &[]));
    let samples = poll(&recorder, &poller, &mut sketches);
    let mut names = metric_names(&samples);
    assert!(samples[..3].iter().all(|s| matches!(s, Sample::Counter { .. })));
    assert!(samples[3..].iter().all(|s| matches!(s, Sample::Gauge { .. })));
    names.sort();
    assert_eq!(names, vec!["a", "a{side=left}", "b", "b{side=left}", "c", "c{side=left}"]);

    silent.record(0.5);
    assert_eq!(poll(&recorder, &poller, &mut sketches).len(), 7);
}

#[test]
fn polling_twice_reports_the_same() {
    let (mut recorder, poller) = TracingRecorder::builder().build();
    let mut sketches = Sketches::new();
    counter(&mut recorder, &key("hits", &[])).increment(3);
    gauge(&mut recorder, &key("temp", &[])).set(f64::NAN);
    histogram(&mut recorder, &key("lat", &[])).record(2.0);
    let first = poll(&recorder, &poller, &mut sketches);
    assert_eq!(first.len(), 3);
    assert_eq!(poll(&recorder, &poller, &mut sketches), first);
}

#[test]
fn samples_come_with_the_readings_that_they_report() {
    let (mut recorder, poller) = TracingRecorder::builder().build();
    counter(&mut recorder, &key("hits", &[])).increment(u64::MAX);
    counter(&mut recorder, &key("hits", &[])).increment(6);
    gauge(&mut recorder, &key("temp", &[])).set(1.5);
    gauge(&mut recorder, &key("temp", &[])).set(1.5);
    let polled = poll_all(&recorder, &poller, &mut Sketches::new());
    assert_eq!(polled.counters.len(), 1);
    assert_eq!(polled.counters[0].1.value(), 5);
    assert_eq!(polled.samples[0], Sample::Counter { metric: "hits".into(), value: 5 });
    assert_eq!(polled.gauges.len(), 1);
    assert_eq!(polled.gauges[0].1.value(), 1.5f64.to_bits());
    assert_eq!(polled.samples[1], Sample::Gauge { metric: "temp".into(), value: double(1.5) });
    let reported = report(&recorder, &poller);
    assert_eq!(reported.events.len(), 2);
    assert_eq!(reported.counters[0].1.value(), 5);
    assert_eq!(reported.gauges[0].1.value(), 1.5f64.to_bits());
}

#[test]
fn recorders_do_not_share_metrics() {
    let (mut first, first_poller) = TracingRecorder::builder().build();
    let (second, second_poller) = TracingRecorder::builder().build();
    assert!(poll_all(&first, &first_poller, &mut Sketches::new()).samples.is_empty());
    counter(&mut first, &key("hits", &[])).increment(1);
    assert_eq!(poll_all(&first, &first_poller, &mut Sketches::new()).samples.len(), 1);
    assert!(poll_all(&second, &second_poller, &mut Sketches::new()).samples.is_empty());
}

#[test]
fn a_poller_waits_first_and_then_goes_round() {
    let (_, plain) = TracingRecorder::builder().build();
    let (_, hooked) = TracingRecorder::builder().on_tick("hook").build();
    let mut step = TickStep::first();
    let mut taken = Vec::new();
    for _ in 0..4 {
        taken.push(step);
        step = hooked.next_step(step);
    }
    let round = [TickStep::Sleep, TickStep::RunHook, TickStep::EmitSnapshot, TickStep::Sleep];
    assert_eq!(taken, round);
    assert_eq!(plain.next_step(TickStep::Sleep), TickStep::EmitSnapshot);
    assert_eq!(plain.next_step(TickStep::EmitSnapshot), TickStep::Sleep);
}

#[test]
fn one_name_can_be_metrics_of_three_kinds() {
    let (mut recorder, poller) = TracingRecorder::builder().build();
    let mut sketches = Sketches::new();
    counter(&mut recorder, &key("load", &[])).increment(2);
    gauge(&mut recorder, &key("load", &[])).set(0.25);
    histogram(&mut recorder, &key("load", &[])).record(8.0);
    let samples = poll(&recorder, &poller, &mut sketches);
    assert_eq!(samples.len(), 3);
    assert_eq!(samples[0], Sample::Counter { metric: "load".into(), value: 2 });
    assert_eq!(samples[1], Sample::Gauge { metric: "load".into(), value: double(0.25) });
    assert!(matches!(&samples[2], Sample::Histogram { count: 1, .. }));
}

#[test]
fn label_order_does_not_make_a_new_metric() {
    let (mut recorder, poller) = TracingRecorder::builder().build();
    let mut sketches = Sketches::new();
    counter(&mut recorder, &key("io", &[("disk", "a"), ("op", "read")])).increment(1);
    counter(&mut recorder, &key("io", &[("op", "read"), ("disk", "a")])).increment(2);
    counter(&mut recorder, &key("io", &[("op", "write"), ("disk", "a")])).increment(5);
    let samples = poll(&recorder, &poller, &mut sketches);
    assert_eq!(samples.len(), 2);
    assert!(samples.contains(&Sample::Counter { metric: "io{disk=a,op=read}".into(), value: 3 }));
    assert!(samples.contains(&Sample::Counter { metric: "io{op=write,disk=a}".into(), value: 5 }));
}

#[test]
fn label_order_counts_among_labels_that_share_a_key() {
    let (mut recorder, _) = TracingRecorder::builder().build();
    let a = key("n", &[("x", "1"), ("x", "2"), ("y", "3")]);
    let moved = key("n", &[("y", "3"), ("x", "1"), ("x", "2")]);
    let swapped = key("n", &[("x", "2"), ("x", "1"), ("y", "3")]);
    counter(&mut recorder, &a).increment(1);
    counter(&mut recorder, &moved).increment(1);
    assert_eq!(recorder.read_counters().len(), 1);
    counter(&mut recorder, &swapped).increment(1);
    assert_eq!(recorder.read_counters().len(), 2);
    let pair = key("m", &[("x", "1"), ("x", "2")]);
    let pair_swapped = key("m", &[("x", "2"), ("x", "1")]);
    gauge(&mut recorder, &pair).set(1.0);
    gauge(&mut recorder, &pair_swapped).set(2.0);
    let gauges = recorder.read_gauges();
    assert_eq!(gauges.len(), 1);
    assert_eq!(f64::from_bits(gauges[0].1.value()), 2.0);
}

#[test]
fn assembled_snapshot_keeps_the_order_of_the_readings() {
    let reading = |name: &str, count: usize, sum: f64, p50: Option<f64>| HistogramReading {
        key: key(name, &[]),
        count,
        sum: double(sum),
        p50: p50.map(double),
        p90: None,
        p99: Some(double(9.0)),
    };
    let samples = assemble(
        &vec![(key("c1", &[]), 1), (key("c2", &[("a", "b")]), u64::MAX)],
        &vec![(key("g", &[]), (-0.5f64).to_bits())],
        &vec![reading("h1", 0, 0.0, None), reading("h2", 3, 6.5, Some(2.0))],
    );
    assert_eq!(samples.len(), 4);
    assert_eq!(samples[0], Sample::Counter { metric: "c1".into(), value: 1 });
    assert_eq!(samples[1], Sample::Counter { metric: "c2{a=b}".into(), value: u64::MAX });
    assert_eq!(samples[2], Sample::Gauge { metric: "g".into(), value: double(-0.5) });
    match &samples[3] {
        Sample::Histogram { metric, count, sum, p50, p90, p99 } => {
            assert_eq!(metric, "h2");
            assert_eq!(*count, 3);
            assert_eq!(*sum, double(6.5));
            assert_eq!(*p50, double(2.0));
            assert!(f64::from_bits(p90.bits).is_nan());
            assert_eq!(*p99, double(9.0));
        }
        other => panic!("{:?}", other),
    }
}

#[test]
fn histogram_without_observations_has_no_sample() {
    let mut reading = HistogramReading {
        key: key("lat", &[]),
        count: 0,
        sum: double(0.0),
        p50: None,
        p90: None,
        p99: None,
    };
    assert!(histogram_sample(&reading).is_none());
    reading.count = 1;
    assert!(histogram_sample(&reading).is_some());
}

#[test]
fn snapshot_events_carry_level_scope_and_sample() {
    let (mut recorder, poller) =
        TracingRecorder::builder().level(Level::Debug).scope("server").build();
    counter(&mut recorder, &key("hits", &[])).increment(3);
    let events = report(&recorder, &poller).events;
    assert_eq!(events.len(), 1);
    assert_eq!(events[0].level, Level::Debug);
    assert_eq!(events[0].scope, "server");
    assert_eq!(events[0].body.event(), "snapshot");
    match &events[0].body {
        Body::Snapshot(sample) => {
            assert_eq!(*sample, Sample::Counter { metric: "hits".into(), value: 3 })
        }
        other => panic!("{:?}", other),
    }
}

#[test]
fn snapshot_events_of_each_kind() {
    let c = emit_snapshot_counter(Level::Warn, "s", "c".into(), 4);
    assert_eq!((c.level, c.body.kind()), (Level::Info, MetricKind::Counter));
    let g = emit_snapshot_gauge(Level::Trace, "s", "g".into(), double(1.5));
    assert_eq!((g.level, g.body.kind()), (Level::Trace, MetricKind::Gauge));
    let d = double(2.0);
    let h = emit_snapshot_histogram(Level::Error, "s", "h".into(), 2, d, d, d, d);
    assert_eq!((h.level, h.body.kind()), (Level::Info, MetricKind::Histogram));
    assert_eq!(h.body.kind().as_str(), "histogram");
    assert_eq!(h.scope, "s");
}

#[test]
fn sketches_are_kept_per_key() {
    let mut sketches: Sketches<u32> = Sketches::new();
    let a = key("a", &[]);
    let b = key("a", &[("x", "1")]);
    let c = key("c", &[]);
    for (k, value) in [(&a, 10), (&b, 20), (&c, 30)] {
        assert_eq!(sketches.take(k, &|| value), value);
        sketches.put(k.clone(), value + 1);
    }
    assert_eq!(sketches.len(), 3);
    assert_eq!(sketches.take(&a, &|| 0), 11);
    assert_eq!(sketches.len(), 2);
    assert_eq!(sketches.take(&a, &|| 99), 99);
    assert_eq!(sketches.take(&c, &|| 0), 31);
    assert_eq!(sketches.take(&b, &|| 0), 21);
    assert_eq!(sketches.len(), 0);
}

#[test]
fn draining_hands_each_observation_to_its_own_sketch_once() {
    let (mut recorder, _) = TracingRecorder::builder().build();
    let lat = histogram(&mut recorder, &key("lat", &[]));
    let size = histogram(&mut recorder, &key("size", &[]));
    let mut sketches: Sketches<Vec<u64>> = Sketches::new();
    let note = |mut seen: Vec<u64>, value: Double| {
        seen.push(value.bits);
        seen
    };
    let number = |seen: &Vec<u64>| SketchSummary {
        count: seen.len(),
        sum: double(0.0),
        p50: None,
        p90: None,
        p99: None,
    };
    for i in 0..200 {
        lat.record(i as f64);
    }
    size.record(-1.0);
    let first = read_histograms(&recorder, &mut sketches, &Vec::new, &note, &number);
    assert_eq!(first.taken.iter().map(|t| t.values().len()).sum::<usize>(), 201);
    lat.record(200.0);
    let second = read_histograms(&recorder, &mut sketches, &Vec::new, &note, &number);
    assert_eq!(second.taken.iter().map(|t| t.values().len()).sum::<usize>(), 1);
    for reading in &second.readings {
        let expected = if reading.key.name == "lat" { 201 } else { 1 };
        assert_eq!(reading.count, expected);
    }
    let mut seen: Vec<f64> = sketches
        .take(&key("lat", &[]), &Vec::new)
        .into_iter()
        .map(f64::from_bits)
        .collect();
    seen.sort_by(f64::total_cmp);
    assert_eq!(seen, (0..201).map(|i| i as f64).collect::<Vec<f64>>());
    assert_eq!(sketches.take(&key("size", &[]), &Vec::new), vec![(-1.0f64).to_bits()]);
}

#[test]
fn polling_keeps_no_raw_observations() {
    let (mut recorder, poller) = TracingRecorder::builder().build();
    let mut sketches = Sketches::new();
    let h = histogram(&mut recorder, &key("lat", &[]));
    histogram(&mut recorder, &key("unused", &[]));
    for _ in 0..3 {
        for i in 0..100 {
            h.record(i as f64);
        }
        poll(&recorder, &poller, &mut sketches);
        for (_, cell) in recorder.histogram_buckets() {
            assert!(cell.bucket.is_empty());
        }
        assert_eq!(sketches.len(), 2);
    }
}

#[test]
fn new_metrics_start_at_zero() {
    let (mut recorder, poller) = TracingRecorder::builder().build();
    counter(&mut recorder, &key("hits", &[]));
    gauge(&mut recorder, &key("temp", &[]));
    histogram(&mut recorder, &key("lat", &[]));
    let polled = poll_all(&recorder, &poller, &mut Sketches::new());
    assert_eq!(
        polled.samples,
        vec![
            Sample::Counter { metric: "hits".into(), value: 0 },
            Sample::Gauge { metric: "temp".into(), value: double(0.0) },
        ]
    );
    assert_eq!(polled.histograms.len(), 1);
    assert!(polled.taken[0].values().is_empty());
}

#[test]
fn hook_runs_before_the_snapshot_of_every_round() {
    let rounds = |has_hook: bool| {
        let mut steps = vec![TickStep::Sleep];
        for i in 0..5 {
            steps.push(steps[i].next(has_hook));
        }
        steps
    };
    let (sleep, hook, snapshot) = (TickStep::Sleep, TickStep::RunHook, TickStep::EmitSnapshot);
    assert_eq!(rounds(true), vec![sleep, hook, snapshot, sleep, hook, snapshot]);
    assert_eq!(rounds(false), vec![sleep, snapshot, sleep, snapshot, sleep, snapshot]);
}
