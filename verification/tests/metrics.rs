use atmoq::heap::{armed, dump, stats, COMPILED_IN};
use atmoq::metrics::{process_rss_bytes, Metrics};

#[test]
fn live_counts_are_differences() {
    let mut m = Metrics::default();
    for _ in 0..5 {
        m.subscribers_connected_total += 1;
    }
    m.subscribers_disconnected_total += 2;
    assert_eq!(m.subscribers_live(), 3);
}

#[test]
fn live_count_saturates_rather_than_wrapping() {
    // A disconnect observed before its connect must not underflow into u64::MAX
    // and page someone at 3am.
    let mut m = Metrics::default();
    m.subscribers_disconnected_total += 1;
    assert_eq!(m.subscribers_live(), 0);
}

#[test]
fn frame_age_absent_until_first_frame() {
    let mut m = Metrics::default();
    assert_eq!(m.frame_age_ms(), None);
    m.record_frame(Some(42));
    assert!(m.frame_age_ms().is_some());
    assert_eq!(m.upstream_seq, 42);
    assert_eq!(m.frames_total, 1);
}

#[test]
fn exposition_shape() {
    let mut m = Metrics::default();
    m.record_frame(Some(7));
    let text = m.encode(None);
    assert!(text.contains("# TYPE atmoq_frames_total counter"));
    assert!(text.contains("\natmoq_frames_total 1\n"));
    assert!(text.contains("# TYPE atmoq_subscribers_live gauge"));
    assert!(text.contains("\natmoq_upstream_seq 7\n"));
    // Every metric line must carry the atmoq_ prefix.
    for line in text
        .lines()
        .filter(|l| !l.starts_with('#') && !l.is_empty())
    {
        assert!(line.starts_with("atmoq_"), "unprefixed series: {line}");
    }
}

#[test]
fn stubs_are_consistent_with_the_feature_flag() {
    assert_eq!(COMPILED_IN, false);
    if !COMPILED_IN {
        assert!(!armed());
        assert!(stats().is_none());
        assert!(dump().is_err());
    }
}

#[test]
fn heap_dump_says_why_there_is_none() {
    assert_eq!(
        dump().unwrap_err(),
        "built without the `profiling` feature; rebuild with --features profiling"
    );
}

#[test]
fn exposition_is_exact() {
    let mut m = Metrics::default();
    m.did_tracks_opened_total = 9;
    m.did_tracks_closed_total = 4;
    m.record_frame_at(Some(-3), 1_000);
    let text = m.encode_at(3_500, Some(8192));
    let names: Vec<&str> = text
        .lines()
        .filter(|l| !l.starts_with('#'))
        .map(|l| l.split(' ').next().unwrap())
        .collect();
    assert_eq!(
        names,
        vec![
            "atmoq_frames_total",
            "atmoq_frames_rejected_total",
            "atmoq_frames_dropped_below_cursor_total",
            "atmoq_upstream_error_frames_total",
            "atmoq_upstream_connects_total",
            "atmoq_groups_total",
            "atmoq_group_seq",
            "atmoq_subscribers_connected_total",
            "atmoq_subscribers_disconnected_total",
            "atmoq_subscribers_rejected_total",
            "atmoq_subscribers_live",
            "atmoq_did_tracks_opened_total",
            "atmoq_did_tracks_closed_total",
            "atmoq_did_tracks_refused_total",
            "atmoq_did_tracks_live",
            "atmoq_store_append_bytes_total",
            "atmoq_store_append_failures_total",
            "atmoq_store_groups_indexed",
            "atmoq_store_bytes",
            "atmoq_store_gc_segments_removed_total",
            "atmoq_backfill_groups_served_total",
            "atmoq_backfill_groups_missing_total",
            "atmoq_upstream_seq",
            "atmoq_last_frame_age_seconds",
            "atmoq_process_resident_bytes",
        ]
    );
    assert!(text.starts_with(
        "# HELP atmoq_frames_total Frames relayed downstream.\n\
         # TYPE atmoq_frames_total counter\n\
         atmoq_frames_total 1\n\
         # HELP atmoq_frames_rejected_total Frames rejected at ingest as invalid.\n"
    ));
    assert!(text.contains("\natmoq_did_tracks_live 5\n"));
    assert!(text.ends_with(
        "# HELP atmoq_upstream_seq Latest upstream sequence number seen.\n\
         # TYPE atmoq_upstream_seq gauge\n\
         atmoq_upstream_seq -3\n\
         # HELP atmoq_last_frame_age_seconds Seconds since the last relayed frame.\n\
         # TYPE atmoq_last_frame_age_seconds gauge\n\
         atmoq_last_frame_age_seconds 2.500\n\
         # HELP atmoq_process_resident_bytes Process resident set size.\n\
         # TYPE atmoq_process_resident_bytes gauge\n\
         atmoq_process_resident_bytes 8192\n"
    ));
}

#[test]
fn age_is_absent_before_the_first_frame() {
    let m = Metrics::default();
    assert_eq!(m.frame_age_at(5), None);
    assert!(!m.encode_at(5, None).contains("last_frame_age"));
    assert!(!m.encode_at(5, None).contains("resident"));
}

#[test]
fn ages_never_go_negative() {
    let mut m = Metrics::default();
    m.record_frame_at(None, 1_000);
    assert_eq!(m.frame_age_at(400), Some(0));
    assert_eq!(m.frame_age_at(1_400), Some(400));
    assert_eq!(m.upstream_seq, 0);
}

#[test]
fn counters_wrap() {
    let mut m = Metrics::default();
    m.frames_total = u64::MAX;
    m.record_frame_at(Some(1), 1);
    assert_eq!(m.frames_total, 0);
}

#[test]
fn resident_size_is_the_second_field() {
    assert_eq!(
        process_rss_bytes("12345 678 90 1 0 2 0\n"),
        Some(678 * 4096)
    );
    assert_eq!(process_rss_bytes("12345"), None);
    assert_eq!(process_rss_bytes(""), None);
    assert_eq!(process_rss_bytes("1 x"), None);
    assert_eq!(process_rss_bytes(" 1\t+2 "), Some(8192));
}
