use std::sync::atomic::AtomicU64;
use std::time::Duration;

use metrics_exporter_tracing::cell::{apply, load, replace, Applied, CellOp};
use metrics_exporter_tracing::drain::SketchSummary;
use metrics_exporter_tracing::event::{Body, MetricKind, Number, Op, EVENT_NAME, TARGET};
use metrics_exporter_tracing::key::{debug_labels, render_key};
use metrics_exporter_tracing::recorder::{CounterHandle, GaugeHandle, HistogramHandle};
use metrics_exporter_tracing::sketch::Sketches;
use metrics_exporter_tracing::stream::{StreamingCounter, StreamingGauge, StreamingHistogram};
use metrics_exporter_tracing::{
    Builder, Double, Event, Label, Level, MetricKey, Polled, Poller, StreamFilter,
    TracingRecorder,
};

fn key(name: &str, labels: &[(&str, &str)]) -> MetricKey {
    let labels = labels
        .iter()
        .map(|(k, v)| Label { key: k.to_string(), value: v.to_string() })
        .collect();
    MetricKey { name: name.to_string(), labels }
}

fn double(value: f64) -> Double {
    Double { bits: value.to_bits() }
}

fn streaming_recorder() -> TracingRecorder {
    let filter = StreamFilter::builder()
        .deny(&["hidden*"])
        .histograms(&["lat*"])
        .build();
    TracingRecorder::builder().level(Level::Debug).scope("client").stream(filter).build().0
}

fn streaming_counter(recorder: &mut TracingRecorder, key: &MetricKey) -> StreamingCounter {
    match recorder.register_counter(key, Level::Trace) {
        CounterHandle::Streaming(handle) => handle,
        CounterHandle::Silent(_) => panic!("should stream"),
    }
}

fn streaming_gauge(recorder: &mut TracingRecorder, key: &MetricKey) -> StreamingGauge {
    match recorder.register_gauge(key, Level::Trace) {
        GaugeHandle::Streaming(handle) => handle,
        GaugeHandle::Silent(_) => panic!("should stream"),
    }
}

fn streaming_histogram(recorder: &mut TracingRecorder, key: &MetricKey) -> StreamingHistogram {
    match recorder.register_histogram(key, Level::Trace) {
        HistogramHandle::Streaming(handle) => handle,
        HistogramHandle::Silent(_) => panic!("should stream"),
    }
}

fn poll<H>(recorder: &TracingRecorder, poller: &Poller<H>) -> Polled {
    let summary =
        |_: &()| SketchSummary { count: 0, sum: double(0.0), p50: None, p90: None, p99: None };
    poller.poll_once(recorder, &mut Sketches::new(), &|| (), &|_, _| (), &summary)
}

fn apply_by_exchange(cell: &AtomicU64, expected: u64, next: u64) -> Applied {
    loop {
        if let Ok(applied) = replace(cell, expected, next) {
            return applied;
        }
    }
}

fn check_emit(event: &Event, metric: &str, kind: MetricKind, op: &str, value: Number) {
    assert_eq!(event.level, Level::Trace);
    assert_eq!(event.scope, "client");
    assert_eq!(event.body.event(), "emit");
    assert_eq!(event.body.kind(), kind);
    match &event.body {
        Body::Emit { metric: m, op: o, value: v, .. } => {
            assert_eq!(m, metric);
            assert_eq!(o.as_str(), op);
            assert_eq!(*v, value);
        }
        other => panic!("{:?}", other),
    }
}

#[test]
fn streaming_counter_updates_the_registry_and_announces() {
    let mut recorder = streaming_recorder();
    let k = key("hits", &[("route", "/health")]);
    let handle = streaming_counter(&mut recorder, &k);
    let update = handle.increment(3);
    assert_eq!(update.applied.after(), 3);
    check_emit(
        &update.event,
        "hits{route=/health}",
        MetricKind::Counter,
        "increment",
        Number::Unsigned(3),
    );
    match &update.event.body {
        Body::Emit { name, labels, .. } => {
            assert_eq!(name, "hits");
            assert_eq!(labels, "{\"route\": \"/health\"}");
        }
        other => panic!("{:?}", other),
    }
    let again = streaming_counter(&mut recorder, &k);
    assert_eq!(again.increment(4).applied.after(), 7);
    let readings = recorder.read_counters();
    assert_eq!(readings.len(), 1);
    assert_eq!(readings[0].1.value(), 7);
}

#[test]
fn absolute_never_rolls_a_counter_back() {
    let mut recorder = streaming_recorder();
    let handle = streaming_counter(&mut recorder, &key("seq", &[]));
    let up = handle.absolute(10);
    check_emit(&up.event, "seq", MetricKind::Counter, "absolute", Number::Unsigned(10));
    assert_eq!(up.applied.after(), 10);
    let late = handle.absolute(6);
    check_emit(&late.event, "seq", MetricKind::Counter, "absolute", Number::Unsigned(6));
    assert_eq!(late.applied.after(), 10);
    assert_eq!(recorder.read_counters()[0].1.value(), 10);
}

#[test]
fn streaming_gauge_sets_and_retries() {
    let mut recorder = streaming_recorder();
    let handle = streaming_gauge(&mut recorder, &key("temp", &[]));
    let value = Number::Float(double(21.5));
    check_emit(&handle.set(double(21.5)).event, "temp", MetricKind::Gauge, "set", value);

    let stale = 7;
    match handle.try_increment(double(1.0), stale, double(8.0)) {
        Err(refused) => assert_eq!(f64::from_bits(refused.actual()), 21.5),
        Ok(_) => panic!("the gauge holds something else"),
    }
    let mut current = handle.current().value();
    let update = loop {
        let sum = double(f64::from_bits(current) + 1.0);
        match handle.try_increment(double(1.0), current, sum) {
            Ok(update) => break update,
            Err(refused) => current = refused.actual(),
        }
    };
    let value = Number::Float(double(1.0));
    check_emit(&update.event, "temp", MetricKind::Gauge, "increment", value);
    assert_eq!(f64::from_bits(update.applied.after()), 22.5);

    let mut current = handle.current().value();
    let update = loop {
        let difference = double(f64::from_bits(current) - 2.5);
        match handle.try_decrement(double(2.5), current, difference) {
            Ok(update) => break update,
            Err(refused) => current = refused.actual(),
        }
    };
    let value = Number::Float(double(2.5));
    check_emit(&update.event, "temp", MetricKind::Gauge, "decrement", value);
    assert_eq!(f64::from_bits(recorder.read_gauges()[0].1.value()), 20.0);
}

#[test]
fn streaming_histogram_records_into_the_registry_bucket() {
    let mut recorder = streaming_recorder();
    let handle = streaming_histogram(&mut recorder, &key("lat", &[]));
    handle.cell.bucket.push(12.7);
    let value = Number::Float(double(12.7));
    let event = handle.recorded(double(12.7));
    check_emit(&event, "lat", MetricKind::Histogram, "sample", value);
    let buckets = recorder.histogram_buckets();
    assert_eq!(buckets.len(), 1);
    assert_eq!(buckets[0].1.bucket.data(), vec![12.7]);
}

#[test]
fn filter_decides_which_handles_stream() {
    let mut recorder = streaming_recorder();
    assert!(matches!(
        recorder.register_counter(&key("hidden", &[]), Level::Trace),
        CounterHandle::Silent(_)
    ));
    assert!(matches!(
        recorder.register_gauge(&key("hidden", &[]), Level::Trace),
        GaugeHandle::Silent(_)
    ));
    assert!(matches!(
        recorder.register_histogram(&key("queue", &[]), Level::Trace),
        HistogramHandle::Silent(_)
    ));
    assert!(recorder.streaming("hits", false).is_some());
    assert!(recorder.streaming("hits", true).is_none());
    assert!(recorder.streaming("latency", true).is_some());
}

#[test]
fn each_metric_streams_at_its_own_level() {
    let mut recorder = streaming_recorder();
    let counter = match recorder.register_counter(&key("hits", &[]), Level::Debug) {
        CounterHandle::Streaming(handle) => handle,
        CounterHandle::Silent(_) => panic!("should stream"),
    };
    let gauge = match recorder.register_gauge(&key("temp", &[]), Level::Trace) {
        GaugeHandle::Streaming(handle) => handle,
        GaugeHandle::Silent(_) => panic!("should stream"),
    };
    let histogram = match recorder.register_histogram(&key("lat", &[]), Level::Error) {
        HistogramHandle::Streaming(handle) => handle,
        HistogramHandle::Silent(_) => panic!("should stream"),
    };
    assert_eq!(counter.increment(1).event.level, Level::Debug);
    assert_eq!(gauge.set(double(1.0)).event.level, Level::Trace);
    assert_eq!(histogram.recorded(double(1.0)).level, Level::Info);
    let again = match recorder.register_counter(&key("hits", &[]), Level::Info) {
        CounterHandle::Streaming(handle) => handle,
        CounterHandle::Silent(_) => panic!("should stream"),
    };
    assert_eq!(again.increment(1).event.level, Level::Info);
    let described = recorder.describe("hits", MetricKind::Counter, "", None).unwrap();
    assert_eq!(described.level, Level::Debug);
}

#[test]
fn streaming_does_not_change_what_is_reported() {
    let mut streaming = streaming_recorder();
    let (mut silent, poller) = TracingRecorder::builder().build();
    let k = key("hits", &[]);
    streaming_counter(&mut streaming, &k).increment(3);
    streaming_counter(&mut streaming, &k).absolute(2);
    match silent.register_counter(&k, Level::Trace) {
        CounterHandle::Silent(cell) => {
            apply(&cell, CellOp::Add(3));
            apply(&cell, CellOp::Max(2));
        }
        CounterHandle::Streaming(_) => panic!("should not stream"),
    }
    let g = key("temp", &[("room", "1")]);
    streaming_gauge(&mut streaming, &g).set(double(-0.0));
    match silent.register_gauge(&g, Level::Trace) {
        GaugeHandle::Silent(cell) => apply(&cell, CellOp::Store((-0.0f64).to_bits())),
        GaugeHandle::Streaming(_) => panic!("should not stream"),
    };
    let reported = poll(&streaming, &poller).samples;
    assert_eq!(reported, poll(&silent, &poller).samples);
    assert_eq!(reported.len(), 2);
}

#[test]
fn no_exchange_is_lost_between_two_handles() {
    let mut recorder = streaming_recorder();
    let a = streaming_gauge(&mut recorder, &key("temp", &[]));
    let b = streaming_gauge(&mut recorder, &key("temp", &[]));
    let read_by_a = a.current().value();
    let read_by_b = b.current().value();
    let add = |current: u64, value: f64| double(f64::from_bits(current) + value);
    while b.try_increment(double(2.0), read_by_b, add(read_by_b, 2.0)).is_err() {}
    let mut current = read_by_a;
    let mut attempts = 0;
    loop {
        attempts += 1;
        match a.try_increment(double(0.5), current, add(current, 0.5)) {
            Ok(_) => break,
            Err(refused) => current = refused.actual(),
        }
    }
    assert!(attempts > 1);
    assert_eq!(f64::from_bits(a.current().value()), 2.5);
}

#[test]
fn a_hook_is_kept_replaced_and_left_alone() {
    let calls = AtomicU64::new(0);
    let first = || apply(&calls, CellOp::Add(1)).after();
    let second = || apply(&calls, CellOp::Add(100)).after();
    let (recorder, poller) = TracingRecorder::builder().on_tick(first).on_tick(second).build();
    poll(&recorder, &poller);
    assert_eq!(load(&calls).value(), 0);
    let hook = poller.hook().expect("a hook was set");
    assert_eq!(hook(), 100);
    let (_, poller) = TracingRecorder::builder().build();
    assert!(poller.hook().is_none());
}

#[test]
fn nothing_streams_without_a_filter() {
    let (recorder, _) = TracingRecorder::builder().build();
    assert!(recorder.streaming("hits", false).is_none());
    assert!(recorder.streaming("lat", true).is_none());
}

#[test]
fn metrics_are_described_once_per_name_and_kind() {
    let (mut recorder, _) = TracingRecorder::builder().scope("server").build();
    let unit = Some("bytes".to_string());
    let event = recorder.describe("sent", MetricKind::Counter, "bytes sent", unit).unwrap();
    assert_eq!(event.level, Level::Info);
    assert_eq!(event.scope, "server");
    assert_eq!(event.body.event(), "describe");
    match &event.body {
        Body::Describe { name, kind, description, unit } => {
            assert_eq!(name, "sent");
            assert_eq!(*kind, MetricKind::Counter);
            assert_eq!(description, "bytes sent");
            assert_eq!(unit.as_deref(), Some("bytes"));
        }
        other => panic!("{:?}", other),
    }
    assert!(recorder.describe("sent", MetricKind::Counter, "again", None).is_none());
    assert!(recorder.describe("sent", MetricKind::Gauge, "other kind", None).is_some());
    assert!(recorder.describe("received", MetricKind::Counter, "", None).is_some());
    assert!(recorder.describe("sent", MetricKind::Gauge, "", None).is_none());
}

#[test]
fn default_settings_are_info_three_seconds_and_no_scope() {
    let (recorder, poller) = Builder::<()>::default().build();
    assert_eq!(poller.interval(), Duration::from_secs(3));
    assert_eq!(recorder.level(), Level::Info);
    assert_eq!(recorder.scope(), "");
    let (recorder, poller) = TracingRecorder::builder()
        .snapshot_interval(Duration::from_millis(250))
        .level(Level::Debug)
        .scope("server")
        .on_tick(7)
        .build();
    assert_eq!(poller.hook(), Some(&7));
    assert_eq!(poller.interval(), Duration::from_millis(250));
    assert_eq!(recorder.level(), Level::Debug);
    assert_eq!(recorder.scope(), "server");
}

#[test]
fn severe_levels_fall_back_to_info() {
    let emitted: Vec<Level> =
        [Level::Trace, Level::Debug, Level::Info, Level::Warn, Level::Error]
            .iter()
            .map(|level| level.emitted())
            .collect();
    let expected = vec![Level::Trace, Level::Debug, Level::Info, Level::Info, Level::Info];
    assert_eq!(emitted, expected);
}

#[test]
fn target_event_name_and_field_texts_are_fixed() {
    assert_eq!(TARGET, "metrics");
    assert_eq!(EVENT_NAME, "metric");
    assert_eq!(MetricKind::Counter.as_str(), "counter");
    assert_eq!(MetricKind::Gauge.as_str(), "gauge");
    assert_eq!(MetricKind::Histogram.as_str(), "histogram");
    assert_eq!(Op::Increment.as_str(), "increment");
    assert_eq!(Op::Absolute.as_str(), "absolute");
    assert_eq!(Op::Assign.as_str(), "set");
    assert_eq!(Op::Decrement.as_str(), "decrement");
    assert_eq!(Op::Sample.as_str(), "sample");
}

#[test]
fn keys_render_with_their_labels() {
    assert_eq!(render_key(&key("up", &[])), "up");
    assert_eq!(render_key(&key("up", &[("a", "1")])), "up{a=1}");
    assert_eq!(render_key(&key("up", &[("b", "2"), ("a", "1")])), "up{b=2,a=1}");
    assert_eq!(render_key(&key("", &[("", "")])), "{=}");
}

#[test]
fn labels_are_formatted_as_a_debug_map() {
    assert_eq!(debug_labels(&key("", &[]).labels), "{}");
    let labels = key("", &[("a", "1"), ("quote", "say \"hi\"\n")]).labels;
    assert_eq!(debug_labels(&labels), "{\"a\": \"1\", \"quote\": \"say \\\"hi\\\"\\n\"}");
}

#[test]
fn keys_compare_by_name_and_labels() {
    let a = key("n", &[("x", "1"), ("y", "2")]);
    assert!(a.same_as(&a.clone()));
    assert!(!a.same_as(&key("m", &[("x", "1"), ("y", "2")])));
    assert!(!a.same_as(&key("n", &[("x", "1")])));
    assert!(!a.same_as(&key("n", &[("y", "2"), ("x", "1")])));
    assert!(!a.same_as(&key("n", &[("x", "1"), ("y", "3")])));
}

#[test]
fn cells_are_updated_in_one_step() {
    let cell = AtomicU64::new(5);
    assert_eq!(apply(&cell, CellOp::Add(4)).after(), 9);
    assert_eq!(apply(&cell, CellOp::Max(3)).after(), 9);
    assert_eq!(apply(&cell, CellOp::Max(12)).after(), 12);
    assert_eq!(apply(&cell, CellOp::Store(u64::MAX)).after(), u64::MAX);
    assert_eq!(apply(&cell, CellOp::Add(3)).after(), 2);
    assert_eq!(load(&cell).value(), 2);
    match replace(&cell, 1, 50) {
        Err(refused) => assert_eq!(refused.actual(), 2),
        Ok(_) => panic!("the cell holds something else"),
    }
    assert_eq!(load(&cell).value(), 2);
    let applied = loop {
        match replace(&cell, 2, 60) {
            Ok(applied) => break applied,
            Err(refused) => assert_eq!(refused.actual(), 2),
        }
    };
    assert_eq!(applied.after(), 60);
    assert_eq!(load(&cell).value(), 60);
}

#[test]
fn gauge_attempts_are_completed_by_their_outcome() {
    let mut recorder = streaming_recorder();
    let handle = streaming_gauge(&mut recorder, &key("temp", &[]));
    let cell = AtomicU64::new(5);
    match handle.incremented(double(1.0), replace(&cell, 4, 9)) {
        Err(refused) => assert_eq!(refused.actual(), 5),
        Ok(_) => panic!("the cell holds something else"),
    }
    let update = handle.decremented(double(1.5), Ok(apply_by_exchange(&cell, 5, 9)));
    let update = update.ok().expect("the exchange took place");
    assert_eq!(update.applied.after(), 9);
    let value = Number::Float(double(1.5));
    check_emit(&update.event, "temp", MetricKind::Gauge, "decrement", value);
}

#[test]
fn positive_numbers_are_told_by_their_bits() {
    for value in [1.0, f64::MIN_POSITIVE, 5e-324, f64::MAX, f64::INFINITY] {
        assert!(double(value).is_positive());
    }
    for value in [0.0, -0.0, -1.0, -5e-324, f64::NEG_INFINITY, f64::NAN, -f64::NAN] {
        assert!(!double(value).is_positive());
    }
}
