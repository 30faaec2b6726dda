use metrics_exporter_tracing::{StreamFilter, StreamFilterBuilder};

#[test]
fn empty_allow_matches_everything() {
    let f = StreamFilter::builder().build();
    assert!(f.allows("anything"));
    assert!(f.allows("frame_count{display=0}"));
}

#[test]
fn allow_restricts_to_matching_keys() {
    let f = StreamFilter::builder().allow(&["frame_*"]).build();
    assert!(f.allows("frame_count"));
    assert!(!f.allows("bytes_sent"));
}

#[test]
fn deny_wins_over_allow() {
    let f = StreamFilter::builder()
        .allow(&["frame_*"])
        .deny(&["frame_internal"])
        .build();
    assert!(f.allows("frame_count"));
    assert!(!f.allows("frame_internal"));
}

#[test]
fn histograms_require_explicit_opt_in() {
    // General allow does not enable histogram streaming.
    let f = StreamFilter::builder().allow(&["*"]).build();
    assert!(!f.allows_histogram("latency_ms"));

    let f = StreamFilter::builder().histograms(&["latency_*"]).build();
    assert!(f.allows_histogram("latency_ms"));
    assert!(!f.allows_histogram("queue_depth"));
}

#[test]
fn deny_also_suppresses_histogram_streaming() {
    let f = StreamFilter::builder()
        .histograms(&["latency_*"])
        .deny(&["latency_debug"])
        .build();
    assert!(f.allows_histogram("latency_ms"));
    assert!(!f.allows_histogram("latency_debug"));
}

#[test]
fn rendered_key_with_labels_matches() {
    let f = StreamFilter::builder().allow(&["frame_count{*}"]).build();
    assert!(f.allows("frame_count{display=0}"));
}

#[test]
fn deny_alone_leaves_the_rest_allowed() {
    let f = StreamFilter::builder().deny(&["secret_*"]).build();
    assert!(f.allows("frame_count"));
    assert!(!f.allows("secret_count"));
}

#[test]
fn invalid_patterns_are_dropped() {
    let f = StreamFilter::builder()
        .allow(&["[unclosed", "frame_*"])
        .deny(&["{a,b", "frame_internal"])
        .histograms(&["[z-a]", "latency_*"])
        .build();
    assert!(f.allows("frame_count"));
    assert!(!f.allows("bytes_sent"));
    assert!(!f.allows("frame_internal"));
    assert!(f.allows_histogram("latency_ms"));
}

#[test]
fn only_invalid_patterns_allow_nothing() {
    let f = StreamFilter::builder().allow(&["[unclosed"]).build();
    assert!(!f.allows("[unclosed"));
    assert!(!f.allows("frame_count"));
}

#[test]
fn patterns_of_several_calls_add_up() {
    let f = StreamFilterBuilder::default()
        .allow(&["frame_*"])
        .allow(&["bytes_*", "packets_?"])
        .build();
    assert!(f.allows("frame_count"));
    assert!(f.allows("bytes_sent"));
    assert!(f.allows("packets_1"));
    assert!(!f.allows("packets_10"));
}

#[test]
fn cloned_filter_decides_alike() {
    let f = StreamFilter::builder()
        .allow(&["frame_*"])
        .deny(&["frame_internal"])
        .histograms(&["latency_*"])
        .build();
    let copy = f.clone();
    for key in ["frame_count", "frame_internal", "bytes_sent", "latency_ms"] {
        assert_eq!(copy.allows(key), f.allows(key));
        assert_eq!(copy.allows_histogram(key), f.allows_histogram(key));
    }
}

#[test]
fn alternation_in_a_pattern_matches_each_branch() {
    let f = StreamFilter::builder().allow(&["{frame,byte}_count"]).build();
    assert!(f.allows("frame_count"));
    assert!(f.allows("byte_count"));
    assert!(!f.allows("packet_count"));
}
