use atmoq::backoff::{Backoff, DRAFT07_CAP_SECS, HELD_NANOS, UPSTREAM_CAP_SECS};
use atmoq::dialect07::{
    PublishAction, PublishEvent, Publisher07, ResilientPublisher, Subscriber07,
};
use atmoq::groups::LiteGroup;
use atmoq::ingest::{endpoint, on_message, EndpointError, Incoming, IngestAction};
use atmoq::pump::{Pump, PumpAction, PumpEvent};
use atmoq::reader::{Reader, ReaderAction, ReaderEvent};
use atmoq::resume::{
    apply_replay_window, cutoff_ms, group_seed, load_group_seq, load_initial_cursor,
    make_first_group, persist_cursor, persist_group_seq, resume_from, CursorError,
};
use atmoq::text::NumberFault;

#[test]
fn group_seq_persist_roundtrip() {
    // No file yet -> no seed (fresh start at 0).
    assert_eq!(load_group_seq(None), None);

    // Persist then load round-trips, and trailing newline/whitespace is fine.
    assert_eq!(load_group_seq(Some(&persist_group_seq(1234))), Some(1234));
    assert_eq!(
        load_group_seq(Some(&persist_group_seq(2_000_000))),
        Some(2_000_000)
    );
    assert_eq!(persist_group_seq(1234), "1234\n");
    assert_eq!(load_group_seq(Some(" 7\r\n\u{a0}")), Some(7));
    assert_eq!(load_group_seq(Some("x")), None);
    assert_eq!(load_group_seq(Some("18446744073709551616")), None);
    assert_eq!(
        load_group_seq(Some(&persist_group_seq(u64::MAX))),
        Some(u64::MAX)
    );
}

#[test]
fn cursor_file_wins_over_the_flag() {
    assert_eq!(load_initial_cursor(Some("42\n"), Some(7)), Ok(42));
    assert_eq!(load_initial_cursor(Some("-3"), None), Ok(-3));
    assert_eq!(load_initial_cursor(Some("+5"), None), Ok(5));
    assert_eq!(load_initial_cursor(None, Some(7)), Ok(7));
    assert_eq!(load_initial_cursor(None, None), Ok(-1));
    assert_eq!(
        load_initial_cursor(Some(""), Some(7)),
        Err(CursorError::NotANumber(NumberFault::Empty))
    );
    assert_eq!(
        load_initial_cursor(Some("9223372036854775808"), None),
        Err(CursorError::NotANumber(NumberFault::TooLarge))
    );
    assert_eq!(
        load_initial_cursor(Some("-9223372036854775808"), None),
        Ok(i64::MIN)
    );
}

#[test]
fn cursor_faults_are_told_apart() {
    for text in [
        "",
        " \n",
        "+",
        "-",
        "--5",
        "+-5",
        "x",
        "5x",
        "5 5",
        "é",
        "9223372036854775808",
        "-9223372036854775809",
        "99999999999999999999999999",
        "-99999999999999999999999999",
        "99999999999999999999x",
        "-99999999999999999999x",
        "9223372036854775807x",
        "00000000000000000000000000001x",
    ] {
        assert_eq!(
            load_initial_cursor(Some(text), Some(7)).unwrap_err().to_text(),
            text.trim().parse::<i64>().unwrap_err().to_string(),
            "{text}"
        );
    }
    assert_eq!(
        load_initial_cursor(Some("00000000000000000000000000001"), None),
        Ok(1)
    );
}

#[test]
fn cursors_are_kept_from_the_first_event_on() {
    assert_eq!(persist_cursor(-1), None);
    assert_eq!(persist_cursor(0), Some("0\n".to_string()));
    assert_eq!(persist_cursor(99), Some("99\n".to_string()));
    assert_eq!(
        load_initial_cursor(Some(&persist_cursor(i64::MAX).unwrap()), Some(1)),
        Ok(i64::MAX)
    );
    assert_eq!(resume_from(-1), None);
    assert_eq!(resume_from(0), Some(0));
    assert_eq!(resume_from(-2), Some(-2));
}

#[test]
fn runs_continue_after_the_seed() {
    assert_eq!(group_seed(Some(9), Some(4)), Some(9));
    assert_eq!(group_seed(None, Some(4)), Some(4));
    assert_eq!(group_seed(None, None), None);
    assert_eq!(make_first_group(Some(9)), Some(10));
    assert_eq!(make_first_group(None), None);
}

#[test]
fn windows_have_cutoffs() {
    assert_eq!(apply_replay_window(0), None);
    assert_eq!(apply_replay_window(60), Some(60));
    assert_eq!(cutoff_ms(100_000, 0), None);
    assert_eq!(cutoff_ms(100_000, 60), Some(40_000));
    assert_eq!(cutoff_ms(100, 60), Some(0));
}

#[test]
fn waits_double_up_to_the_cap() {
    let mut b = Backoff::new(UPSTREAM_CAP_SECS);
    let waits: Vec<u64> = (0..8).map(|_| b.ended(0)).collect();
    assert_eq!(waits, vec![1, 2, 4, 8, 16, 32, 60, 60]);
    assert_eq!(b.ended(HELD_NANOS), 60);
    assert_eq!(b.ended(HELD_NANOS + 1), 1);
    assert_eq!(b.ended(0), 2);

    let mut b = Backoff::new(DRAFT07_CAP_SECS);
    let waits: Vec<u64> = (0..7).map(|_| b.ended(0)).collect();
    assert_eq!(waits, vec![1, 2, 4, 8, 16, 30, 30]);
}

#[test]
fn groups_rotate_every_group_size_frames() {
    let mut g = LiteGroup::new(5);
    assert!(!g.wrote(b"a".to_vec(), 2));
    assert!(g.wrote(b"b".to_vec(), 2));
    assert_eq!(g.rotate(6), (5, vec![b"a".to_vec(), b"b".to_vec()]));
    assert_eq!(g.sequence(), 6);
    assert!(!g.wrote(b"c".to_vec(), 2));
    assert_eq!(g.rotate(7), (6, vec![b"c".to_vec()]));
}

#[test]
fn draft07_groups_open_before_the_frame() {
    let mut p = Publisher07::new(1000);
    assert_eq!(p.before_write(2), Some(1000));
    p.opened();
    p.wrote();
    assert_eq!(p.before_write(2), None);
    p.wrote();
    assert_eq!(p.before_write(2), Some(1001));
    assert!(!p.is_dead());
    p.ended();
    assert!(p.is_dead());
}

#[test]
fn publishing_survives_sessions() {
    let mut p = ResilientPublisher::new();
    let connect = |after_ms| PublishAction::Connect { after_ms };
    let retry = |after_ms| PublishAction::Retry { after_ms };
    assert_eq!(p.write(PublishEvent::Begin { dead: false }), connect(0));
    assert_eq!(p.write(PublishEvent::ConnectFailed), retry(2000));
    assert_eq!(p.write(PublishEvent::Begin { dead: false }), connect(0));
    assert_eq!(
        p.write(PublishEvent::Connected),
        PublishAction::Probe { after_ms: 500 }
    );
    assert_eq!(p.write(PublishEvent::Probed { dead: true }), retry(2000));
    assert_eq!(p.write(PublishEvent::Begin { dead: false }), connect(0));
    p.write(PublishEvent::Connected);
    assert_eq!(
        p.write(PublishEvent::Probed { dead: false }),
        PublishAction::Write
    );
    assert_eq!(p.write(PublishEvent::Wrote), PublishAction::Done);
    assert_eq!(
        p.write(PublishEvent::Begin { dead: false }),
        PublishAction::Write
    );
    assert_eq!(p.write(PublishEvent::WriteFailed), retry(0));
    assert_eq!(p.write(PublishEvent::Begin { dead: false }), connect(0));
    p.write(PublishEvent::Connected);
    p.write(PublishEvent::Probed { dead: false });
    p.write(PublishEvent::Wrote);
    assert_eq!(p.write(PublishEvent::Begin { dead: true }), connect(1000));
}

#[test]
fn readers_resubscribe() {
    let mut r = Reader::new();
    assert_eq!(r.step(ReaderEvent::Ready), ReaderAction::AwaitBroadcast);
    assert_eq!(
        r.step(ReaderEvent::Announced { found: true }),
        ReaderAction::Subscribe
    );
    assert_eq!(
        r.step(ReaderEvent::Subscribed { ok: false }),
        ReaderAction::Pause { ms: 1000 }
    );
    assert_eq!(
        r.step(ReaderEvent::Subscribed { ok: true }),
        ReaderAction::NextGroup
    );
    assert_eq!(
        r.step(ReaderEvent::GroupOpened { sequence: 9 }),
        ReaderAction::ReadFrame
    );
    assert_eq!(
        r.step(ReaderEvent::FrameRead),
        ReaderAction::Deliver { group: 9 }
    );
    assert_eq!(
        r.step(ReaderEvent::Delivered { taken: true }),
        ReaderAction::ReadFrame
    );
    assert_eq!(r.step(ReaderEvent::FrameFailed), ReaderAction::NextGroup);
    assert_eq!(r.step(ReaderEvent::GroupEnded), ReaderAction::NextGroup);
    assert_eq!(
        r.step(ReaderEvent::TrackEnded),
        ReaderAction::Pause { ms: 500 }
    );
    assert_eq!(
        r.step(ReaderEvent::TrackFailed),
        ReaderAction::Pause { ms: 500 }
    );
    assert_eq!(
        r.step(ReaderEvent::Delivered { taken: false }),
        ReaderAction::Stop
    );
    assert_eq!(
        r.step(ReaderEvent::Announced { found: false }),
        ReaderAction::Stop
    );
}

#[test]
fn pump_drops_replays() {
    let mut p = Pump::new(10);
    let frame = |seq| PumpEvent::Frame { seq };
    assert!(matches!(p.handle(frame(Some(10))), PumpAction::Drop));
    assert!(matches!(p.handle(frame(Some(12))), PumpAction::Publish));
    assert!(matches!(p.handle(frame(Some(11))), PumpAction::Drop));
    assert!(matches!(p.handle(frame(None)), PumpAction::Publish));
    assert_eq!(p.last_seq, 12);
    match p.handle(PumpEvent::CursorTick) {
        PumpAction::PersistCursor(text) => assert_eq!(text.as_deref(), Some("12\n")),
        other => panic!("{other:?}"),
    }
    assert!(matches!(
        p.handle(PumpEvent::GcTick),
        PumpAction::CollectGarbage
    ));
    assert!(matches!(
        p.handle(PumpEvent::Interrupted),
        PumpAction::Finish
    ));
    assert!(matches!(
        p.handle(PumpEvent::UpstreamClosed),
        PumpAction::Finish
    ));
}

#[test]
fn pump_reports_every_hundred_frames() {
    let mut p = Pump::new(-1);
    let mut reports = Vec::new();
    for n in 1..=300u64 {
        if let PumpAction::Continue { report: true } = p.handle(PumpEvent::Published) {
            reports.push(n);
        }
    }
    assert_eq!(reports, vec![100, 200, 300]);
    assert!(matches!(
        p.handle(PumpEvent::CursorTick),
        PumpAction::PersistCursor(None)
    ));
}

#[test]
fn endpoints_carry_the_cursor() {
    assert_eq!(
        endpoint("wss://bsky.network", None).unwrap(),
        "wss://bsky.network/xrpc/com.atproto.sync.subscribeRepos"
    );
    assert_eq!(
        endpoint("ws://localhost:2583/x?keep=1", None).unwrap(),
        "ws://localhost:2583/xrpc/com.atproto.sync.subscribeRepos?keep=1"
    );
    assert_eq!(
        endpoint("ws://localhost:2583", Some(-4)).unwrap(),
        "ws://localhost:2583/xrpc/com.atproto.sync.subscribeRepos?cursor=-4"
    );
    let err = endpoint("no url", None).unwrap_err();
    assert_eq!(err.to_text(), "relative URL without a base");
    assert_eq!(EndpointError::TooLong.to_text(), "URL is too long");
}

#[test]
fn messages_are_forwarded_or_rejected() {
    let raw = vec![0xa1, 0x62, 0x6f, 0x70, 0x20, 0xa0];
    match on_message(Incoming::Binary(raw.clone())) {
        IngestAction::Forward(frame) => {
            assert_eq!(frame.op, -1);
            assert_eq!(frame.raw, raw);
        }
        other => panic!("{other:?}"),
    }
    match on_message(Incoming::Binary(vec![0xff])) {
        IngestAction::Reject(err) => assert!(err.to_text().contains("header")),
        other => panic!("{other:?}"),
    }
    assert!(matches!(on_message(Incoming::Ping), IngestAction::Ignore));
    assert!(matches!(on_message(Incoming::Pong), IngestAction::Ignore));
    assert!(matches!(on_message(Incoming::Close), IngestAction::Stop));
    assert!(matches!(
        on_message(Incoming::Other),
        IngestAction::Unexpected
    ));
}

#[test]
fn subgroups_are_numbered_as_they_come() {
    let mut s = Subscriber07::new();
    assert_eq!(s.object_group(), 0);
    assert_eq!(s.object_group(), 0);
    s.subgroup_ended();
    assert_eq!(s.object_group(), 1);
}
