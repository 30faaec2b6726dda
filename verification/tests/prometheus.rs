use std::io;

use metrics_exporter_tracing::error::{
    install_step, spawn_failed_text, InstallAction, InstallEvent,
};
use metrics_exporter_tracing::event::{Body, MetricKind, Number, Statistic};
use metrics_exporter_tracing::prometheus::{emit, Family, HistogramData, Series};
use metrics_exporter_tracing::{BuildError, Double, Label, Level, TracingRecorder};
use prometheus_client::encoding::prometheus_protobuf::prometheus_data_model::MetricType;

fn double(value: f64) -> Double {
    Double { bits: value.to_bits() }
}

fn series(label: &str) -> Series {
    Series {
        labels: vec![Label { key: "id".into(), value: label.into() }],
        counter: None,
        gauge: None,
        histogram: None,
    }
}

fn family(name: &str, metric_type: MetricType, series: Vec<Series>) -> Family {
    Family { name: name.into(), type_code: metric_type as i32, series }
}

fn histogram(count: u64, count_float: f64) -> HistogramData {
    HistogramData {
        sample_count: count,
        sample_count_float: double(count_float),
        sample_sum: double(7.5),
        schema: -2,
        zero_threshold: double(0.125),
        zero_count: 4,
        zero_count_float: double(0.0),
        bucket: "[b]".into(),
        positive_span: "[ps]".into(),
        positive_delta: "[pd]".into(),
        positive_count: "[pc]".into(),
        negative_span: "[ns]".into(),
        negative_delta: "[nd]".into(),
        negative_count: "[nc]".into(),
    }
}

#[test]
fn counters_and_gauges_give_one_event_per_series() {
    let (recorder, _) = TracingRecorder::builder().level(Level::Debug).scope("agg").build();
    let mut first = series("1");
    first.counter = Some(double(3.0));
    let mut second = series("2");
    second.counter = Some(double(4.0));
    second.gauge = Some(double(9.0));
    let mut third = series("3");
    third.gauge = Some(double(-1.5));
    let families = vec![
        family("requests", MetricType::Counter, vec![first, second, series("none")]),
        family("depth", MetricType::Gauge, vec![third]),
    ];
    let events = emit(&recorder, &families);
    assert_eq!(events.len(), 3);
    for event in &events {
        assert_eq!(event.level, Level::Debug);
        assert_eq!(event.scope, "agg");
        assert_eq!(event.body.event(), "snapshot");
    }
    let found: Vec<(String, String, f64)> = events
        .iter()
        .map(|event| match &event.body {
            Body::Series { name, labels, statistic: Statistic::Counter(v) } => {
                (name.clone(), labels.clone(), f64::from_bits(v.bits))
            }
            Body::Series { name, labels, statistic: Statistic::Gauge(v) } => {
                (name.clone(), labels.clone(), f64::from_bits(v.bits))
            }
            other => panic!("{:?}", other),
        })
        .collect();
    assert_eq!(
        found,
        vec![
            ("requests".to_string(), "{\"id\": \"1\"}".to_string(), 3.0),
            ("requests".to_string(), "{\"id\": \"2\"}".to_string(), 4.0),
            ("depth".to_string(), "{\"id\": \"3\"}".to_string(), -1.5),
        ]
    );
    assert_eq!(events[0].body.kind(), MetricKind::Counter);
    assert_eq!(events[2].body.kind(), MetricKind::Gauge);
}

#[test]
fn histograms_give_one_event_with_their_numbers_and_texts() {
    let (recorder, _) = TracingRecorder::builder().build();
    let mut s = series("h");
    s.histogram = Some(histogram(6, 0.0));
    let events = emit(&recorder, &vec![family("size", MetricType::Histogram, vec![s])]);
    assert_eq!(events.len(), 1);
    assert_eq!(events[0].body.kind(), MetricKind::Histogram);
    match &events[0].body {
        Body::Series { name, statistic: Statistic::Histogram(h), .. } => {
            assert_eq!(name, "size");
            assert_eq!(h.count, Number::Unsigned(6));
            assert_eq!(h.sum, double(7.5));
            assert_eq!(h.schema, -2);
            assert_eq!(h.zero_threshold, double(0.125));
            assert_eq!(h.zero_count, Number::Unsigned(4));
            assert_eq!(h.bucket, "[b]");
            assert_eq!(h.positive_span, "[ps]");
            assert_eq!(h.positive_delta, "[pd]");
            assert_eq!(h.positive_count, "[pc]");
            assert_eq!(h.negative_span, "[ns]");
            assert_eq!(h.negative_delta, "[nd]");
            assert_eq!(h.negative_count, "[nc]");
        }
        other => panic!("{:?}", other),
    }
}

#[test]
fn floating_point_counts_override_integer_ones() {
    let (recorder, _) = TracingRecorder::builder().build();
    for (float, expected) in [
        (2.5, Number::Float(double(2.5))),
        (0.0, Number::Unsigned(6)),
        (-2.5, Number::Unsigned(6)),
        (f64::NAN, Number::Unsigned(6)),
    ] {
        let mut s = series("h");
        s.histogram = Some(histogram(6, float));
        let events = emit(&recorder, &vec![family("size", MetricType::Histogram, vec![s])]);
        match &events[0].body {
            Body::Series { statistic: Statistic::Histogram(h), .. } => {
                assert_eq!(h.count, expected)
            }
            other => panic!("{:?}", other),
        }
    }
}

#[test]
fn other_family_types_are_ignored() {
    let (recorder, _) = TracingRecorder::builder().build();
    let full = || {
        let mut s = series("x");
        s.counter = Some(double(1.0));
        s.gauge = Some(double(2.0));
        s.histogram = Some(histogram(1, 0.0));
        s
    };
    let mut families = vec![
        family("a", MetricType::Summary, vec![full()]),
        family("b", MetricType::Untyped, vec![full()]),
        family("c", MetricType::GaugeHistogram, vec![full()]),
    ];
    families.push(Family { name: "d".into(), type_code: 6, series: vec![full()] });
    families.push(Family { name: "e".into(), type_code: -1, series: vec![full()] });
    assert!(emit(&recorder, &families).is_empty());
}

#[test]
fn install_spawns_the_poller_only_for_an_accepted_recorder() {
    assert!(matches!(
        install_step(InstallEvent::RecorderOffered { accepted: true }),
        InstallAction::SpawnPoller
    ));
    assert!(matches!(
        install_step(InstallEvent::RecorderOffered { accepted: false }),
        InstallAction::Finish(Err(BuildError::AlreadyInstalled))
    ));
    assert!(matches!(
        install_step(InstallEvent::PollerSpawned(Ok(()))),
        InstallAction::Finish(Ok(()))
    ));
    let error = io::Error::new(io::ErrorKind::Other, "no threads");
    assert!(matches!(
        install_step(InstallEvent::PollerSpawned(Err(error))),
        InstallAction::Finish(Err(BuildError::Spawn(_)))
    ));
}

#[test]
fn build_errors_speak_and_point_at_their_source() {
    let installed = BuildError::AlreadyInstalled;
    assert_eq!(installed.message(), "a global metrics recorder is already installed");
    assert!(installed.source().is_none());

    let spawn = BuildError::from(io::Error::new(io::ErrorKind::Other, "no threads"));
    assert_eq!(spawn.message(), "failed to spawn the snapshot poller thread: no threads");
    assert_eq!(spawn.source().unwrap().kind(), io::ErrorKind::Other);
    assert_eq!(spawn_failed_text("why"), "failed to spawn the snapshot poller thread: why");
}
