use atmoq::cbor::{Cbor, Key};
use atmoq::events::{
    event_line, op_line, print_ops, tail_line, EventLog, EventOptions, OpsError, Printed, TailLog,
    TailOptions,
};
use ciborium::Value as Raw;
use serde_json::Value;

fn options() -> EventOptions {
    EventOptions {
        ops: false,
        quiet: false,
        raw: false,
        limit: 0,
    }
}

fn encode(v: &Raw) -> Vec<u8> {
    let mut out = Vec::new();
    ciborium::ser::into_writer(v, &mut out).unwrap();
    out
}

fn key(k: &str) -> Raw {
    Raw::Text(k.into())
}

fn frame(t: &str, payload: Vec<(Raw, Raw)>) -> Vec<u8> {
    let mut raw = encode(&Raw::Map(vec![
        (key("t"), Raw::Text(t.into())),
        (key("op"), Raw::Integer(1.into())),
    ]));
    raw.extend(encode(&Raw::Map(payload)));
    raw
}

fn numbered(seq: i64) -> Vec<u8> {
    frame("#sync", vec![(key("seq"), Raw::Integer(seq.into()))])
}

fn lines(p: Printed) -> Vec<Value> {
    match p {
        Printed::Lines(lines) => lines,
        other => panic!("{other:?}"),
    }
}

#[test]
fn events_print_what_they_hold() {
    let mut log = EventLog::new();
    let (printed, last) = log.event(&options(), Some(3), &numbered(7));
    assert!(!last);
    let lines = lines(printed);
    assert_eq!(lines.len(), 1);
    let line = &lines[0];
    assert_eq!(line["t"], Value::from("#sync"));
    assert_eq!(line["seq"], Value::from(7));
    assert_eq!(line["group"], Value::from(3));
    assert_eq!(line["header"]["op"], Value::from(1));
    assert_eq!(line["payload"]["seq"], Value::from(7));
    assert_eq!(line.as_object().unwrap().len(), 5);
    assert_eq!(
        log,
        EventLog {
            last_seq: 7,
            count: 1
        }
    );
}

#[test]
fn raw_events_print_base64() {
    let mut log = EventLog::new();
    let raw = numbered(7);
    let opts = EventOptions {
        raw: true,
        ..options()
    };
    let line = &lines(log.event(&opts, None, &raw).0)[0];
    assert_eq!(line.as_object().unwrap().len(), 3);
    let text = line["raw"].as_str().unwrap();
    let back = base64::Engine::decode(&base64::engine::general_purpose::STANDARD, text).unwrap();
    assert_eq!(back, raw);
}

#[test]
fn replays_are_not_printed_twice() {
    let mut log = EventLog::new();
    assert!(matches!(
        log.event(&options(), None, &numbered(5)).0,
        Printed::Lines(_)
    ));
    assert!(matches!(
        log.event(&options(), None, &numbered(5)).0,
        Printed::Duplicate
    ));
    assert!(matches!(
        log.event(&options(), None, &numbered(4)).0,
        Printed::Duplicate
    ));
    assert!(matches!(
        log.event(&options(), None, &numbered(6)).0,
        Printed::Lines(_)
    ));
    // Without a sequence number there is nothing to go by.
    let bare = frame("#info", vec![]);
    assert!(matches!(
        log.event(&options(), None, &bare).0,
        Printed::Lines(_)
    ));
    assert_eq!(log.count, 3);
}

#[test]
fn invalid_frames_are_skipped() {
    let mut log = EventLog::new();
    assert!(matches!(
        log.event(&options(), None, b"junk").0,
        Printed::Skipped(_)
    ));
    assert!(matches!(
        log.event(&options(), None, &[0xa0, 0xa0]).0,
        Printed::Skipped(_)
    ));
    assert_eq!(log, EventLog::new());
}

#[test]
fn printing_ends_at_the_limit() {
    let mut log = EventLog::new();
    let opts = EventOptions {
        limit: 2,
        quiet: true,
        ..options()
    };
    let (printed, last) = log.event(&opts, None, &numbered(1));
    assert!(!last);
    assert_eq!(lines(printed).len(), 1);
    assert!(log.event(&opts, None, &numbered(2)).1);
}

fn record() -> Vec<u8> {
    encode(&Raw::Map(vec![(key("text"), Raw::Text("hi".into()))]))
}

fn cid() -> Vec<u8> {
    let mut cid = vec![0x01, 0x71, 0x12, 0x20];
    cid.extend([5u8; 32]);
    cid
}

fn archive() -> Vec<u8> {
    let mut car = vec![0x00];
    car.push((cid().len() + record().len()) as u8);
    car.extend(cid());
    car.extend(record());
    car
}

fn op(action: &str, link: Option<Vec<u8>>) -> Raw {
    let link = match link {
        Some(c) => {
            let mut b = vec![0u8];
            b.extend(c);
            Raw::Tag(42, Box::new(Raw::Bytes(b)))
        }
        None => Raw::Null,
    };
    Raw::Map(vec![
        (key("cid"), link),
        (key("path"), Raw::Text("a/b".into())),
        (key("action"), Raw::Text(action.into())),
    ])
}

fn commit(seq: i64) -> Vec<u8> {
    frame(
        "#commit",
        vec![
            (
                key("ops"),
                Raw::Array(vec![op("create", Some(cid())), op("delete", None)]),
            ),
            (key("rev"), Raw::Text("r1".into())),
            (key("seq"), Raw::Integer(seq.into())),
            (key("repo"), Raw::Text("did:plc:a".into())),
            (key("time"), Raw::Text("now".into())),
            (key("blocks"), Raw::Bytes(archive())),
        ],
    )
}

#[test]
fn ops_print_their_records() {
    let mut log = EventLog::new();
    let opts = EventOptions {
        ops: true,
        limit: 2,
        ..options()
    };
    let (printed, last) = log.event(&opts, None, &commit(9));
    assert!(last);
    let lines = lines(printed);
    assert_eq!(lines.len(), 2);
    let create = &lines[0];
    assert_eq!(create["action"], Value::from("create"));
    assert_eq!(create["path"], Value::from("a/b"));
    let text = create["cid"].as_str().unwrap();
    assert!(text.starts_with("bafyrei"), "{text}");
    assert_eq!(text.len(), 59);
    assert_eq!(create["record"]["text"], Value::from("hi"));
    assert_eq!(create["seq"], Value::from(9));
    assert_eq!(create["repo"], Value::from("did:plc:a"));
    assert_eq!(create["rev"], Value::from("r1"));
    assert_eq!(create["time"], Value::from("now"));
    assert_eq!(create.as_object().unwrap().len(), 8);
    assert_eq!(lines[1]["cid"], Value::Null);
    assert_eq!(lines[1]["record"], Value::Null);
    assert_eq!(log.count, 2);
}

#[test]
fn quiet_events_show_type_and_sequence() {
    let mut log = EventLog::new();
    let opts = EventOptions {
        quiet: true,
        raw: true,
        ..options()
    };
    let lines = lines(log.event(&opts, Some(3), &numbered(7)).0);
    assert_eq!(lines.len(), 1);
    assert_eq!(lines[0]["t"], Value::from("#sync"));
    assert_eq!(lines[0]["seq"], Value::from(7));
    assert_eq!(lines[0].as_object().unwrap().len(), 2);
    assert_eq!(log.count, 1);
}

#[test]
fn quiet_ops_are_counted() {
    let mut log = EventLog::new();
    let opts = EventOptions {
        ops: true,
        quiet: true,
        ..options()
    };
    assert!(lines(log.event(&opts, None, &commit(9)).0).is_empty());
    assert_eq!(log.count, 2);
    // Events that are no commits have no operations.
    assert!(lines(log.event(&opts, None, &numbered(10)).0).is_empty());
    assert_eq!(log.count, 2);
}

fn dict(entries: Vec<(&str, Cbor)>) -> Cbor {
    Cbor::Dict(
        entries
            .into_iter()
            .map(|(k, v)| (Key::Text(k.to_string()), v))
            .collect(),
    )
}

#[test]
fn ops_errors_say_what_is_missing() {
    let err = print_ops(&dict(vec![])).unwrap_err();
    assert_eq!(err, OpsError::MissingBlocks);
    assert_eq!(err.to_text(), "commit missing blocks");
    let err = print_ops(&dict(vec![("blocks", Cbor::Bytes(vec![0x80]))])).unwrap_err();
    assert_eq!(err.to_text(), "truncated varint");
    let err = print_ops(&dict(vec![("blocks", Cbor::Bytes(vec![0x00]))])).unwrap_err();
    assert_eq!(err, OpsError::MissingOps);
    assert_eq!(err.to_text(), "commit missing ops");

    let mut log = EventLog::new();
    let opts = EventOptions {
        ops: true,
        ..options()
    };
    let bare = frame("#commit", vec![(key("seq"), Raw::Integer(4.into()))]);
    let (printed, last) = log.event(&opts, None, &bare);
    assert!(matches!(
        printed,
        Printed::OpsFailed(OpsError::MissingBlocks)
    ));
    assert!(!last);
    assert_eq!(log.last_seq, 4);
}

#[test]
fn op_lines_take_their_record_as_given() {
    let payload = dict(vec![("seq", Cbor::Integer(3))]);
    let line = op_line(&payload, &dict(vec![]), Value::from("r"));
    assert_eq!(line["record"], Value::from("r"));
    assert_eq!(line["seq"], Value::from(3));
    assert_eq!(line["action"], Value::Null);
    assert_eq!(line["repo"], Value::Null);
}

#[test]
fn lines_leave_out_what_is_not_there() {
    let line = event_line(None, None, None, None, &Cbor::Null, &Cbor::Bool(true));
    assert_eq!(line["t"], Value::Null);
    assert_eq!(line["seq"], Value::Null);
    assert_eq!(line.get("group"), None);
    assert_eq!(line["header"], Value::Null);
    assert_eq!(line["payload"], Value::Bool(true));

    let line = tail_line(Some("#x".to_string()), Some(1), Some(2), Some(b"foob"));
    assert_eq!(line["raw"], Value::from("Zm9vYg=="));
    assert_eq!(line["group"], Value::from(2));
    let line = tail_line(None, None, None, None);
    assert_eq!(line.as_object().unwrap().len(), 2);
}

#[test]
fn tails_end_at_their_limit() {
    let options = TailOptions {
        limit: 2,
        no_raw: true,
    };
    let mut log = TailLog::new();
    let (line, last) = log.frame(&options, Some("#x".to_string()), Some(4), None, b"foob");
    assert!(!last);
    assert_eq!(line["t"], Value::from("#x"));
    assert_eq!(line["seq"], Value::from(4));
    assert_eq!(line.as_object().unwrap().len(), 2);
    assert!(log.frame(&options, None, None, None, b"foob").1);
    assert_eq!(log.count, 2);
    // Without a limit there is no end.
    let forever = TailOptions {
        limit: 0,
        no_raw: false,
    };
    let (line, last) = log.frame(&forever, None, None, None, b"foob");
    assert!(!last);
    assert_eq!(line["raw"], Value::from("Zm9vYg=="));
}

#[test]
fn tails_print_frames_that_do_not_parse() {
    let options = TailOptions {
        limit: 0,
        no_raw: false,
    };
    let mut log = TailLog::new();
    let (line, _, fault) = log.raw_frame(&options, 3, numbered(7));
    assert!(fault.is_none());
    assert_eq!(line["t"], Value::from("#sync"));
    assert_eq!(line["seq"], Value::from(7));
    assert_eq!(line["group"], Value::from(3));
    let (line, _, fault) = log.raw_frame(&options, 4, vec![0xa0, 0xa0]);
    assert_eq!(
        fault.unwrap().to_text(),
        "frame header missing integer 'op'"
    );
    assert_eq!(line["t"], Value::Null);
    assert_eq!(line["seq"], Value::Null);
    assert_eq!(line["group"], Value::from(4));
    assert_eq!(line["raw"], Value::from("oKA="));
    let (_, _, fault) = log.raw_frame(&options, 4, vec![]);
    assert!(fault
        .unwrap()
        .to_text()
        .starts_with("decoding frame header: "));
    assert_eq!(log.count, 3);
}

#[test]
fn long_bytes_are_encoded_in_pieces() {
    let data: Vec<u8> = (0..3_000_004u32).map(|i| (i * 7 % 251) as u8).collect();
    let line = tail_line(None, None, None, Some(&data));
    let expected = base64::Engine::encode(&base64::engine::general_purpose::STANDARD, &data);
    assert_eq!(line["raw"].as_str().unwrap(), expected);
    let mut cid = vec![1u8];
    cid.extend(&data);
    assert_eq!(
        atmoq::json::cid_string(&cid),
        format!(
            "b{}",
            data_encoding::BASE32_NOPAD.encode(&cid).to_lowercase()
        )
    );
}
