use atmoq::cbor::{decode_item, Cbor, Key};
use atmoq::frame::lenient;
use atmoq::frame::{field, Frame};
use ciborium::Value;

fn encode(v: &Value) -> Vec<u8> {
    let mut out = Vec::new();
    ciborium::ser::into_writer(v, &mut out).unwrap();
    out
}

// DRISL key order: "t" (1 byte) sorts before "op" (2 bytes), which is also how
// real PDS encoders emit the header.
fn frame_bytes(op: i64, t: Option<&str>, payload: Value) -> Vec<u8> {
    let mut header = Vec::new();
    if let Some(t) = t {
        header.push((Value::Text("t".into()), Value::Text(t.into())));
    }
    header.push((Value::Text("op".into()), Value::Integer(op.into())));
    let mut raw = encode(&Value::Map(header));
    raw.extend(encode(&payload));
    raw
}

fn unsorted_frame_bytes(op: i64, t: Option<&str>, payload: Value) -> Vec<u8> {
    let mut header = vec![(Value::Text("op".into()), Value::Integer(op.into()))];
    if let Some(t) = t {
        header.push((Value::Text("t".into()), Value::Text(t.into())));
    }
    let mut raw = encode(&Value::Map(header));
    raw.extend(encode(&payload));
    raw
}

fn commit_payload() -> Value {
    Value::Map(vec![
        (Value::Text("seq".into()), Value::Integer(42.into())),
        (
            Value::Text("repo".into()),
            Value::Text("did:plc:abc".into()),
        ),
    ])
}

#[test]
fn parses_commit_frame() {
    let raw = frame_bytes(1, Some("#commit"), commit_payload());
    let f = Frame::parse(raw.clone()).unwrap();
    assert_eq!(f.op, 1);
    assert_eq!(f.t.as_deref(), Some("#commit"));
    assert_eq!(f.seq, Some(42));
    assert_eq!(f.raw, raw);
}

#[test]
fn parses_error_frame() {
    let payload = Value::Map(vec![(
        Value::Text("error".into()),
        Value::Text("FutureCursor".into()),
    )]);
    let f = Frame::parse(frame_bytes(-1, None, payload)).unwrap();
    assert_eq!(f.op, -1);
    assert_eq!(f.t, None);
    assert_eq!(f.seq, None);
}

#[test]
fn rejects_trailing_garbage() {
    let payload = Value::Map(vec![(Value::Text("seq".into()), Value::Integer(1.into()))]);
    let mut raw = frame_bytes(1, Some("#sync"), payload);
    raw.push(0x00);
    assert!(Frame::parse(raw).is_err());
}

#[test]
fn rejects_missing_type() {
    let payload = Value::Map(vec![]);
    assert!(Frame::parse(frame_bytes(1, None, payload)).is_err());
}

#[test]
fn rejects_invalid_drisl() {
    // Out-of-order header keys ("op" before "t"): decodable CBOR, but not
    // DRISL, so the frame is rejected at ingest.
    let mut raw = encode(&Value::Map(vec![
        (Value::Text("op".into()), Value::Integer(1.into())),
        (Value::Text("t".into()), Value::Text("#commit".into())),
    ]));
    raw.extend(encode(&Value::Map(vec![])));
    let err = Frame::parse(raw).unwrap_err();
    assert!(err.to_text().contains("header"), "{}", err.to_text());

    // A float16 in the payload: valid CBOR, invalid DRISL.
    let mut raw = encode(&Value::Map(vec![(
        Value::Text("t".into()),
        Value::Text("#seq".into()),
    )]));
    raw.extend([0xf9, 0x3c, 0x00]);
    assert!(Frame::decode(&raw).is_err());
}

#[test]
fn frame_parses_commit_frame() {
    let raw = unsorted_frame_bytes(1, Some("#commit"), commit_payload());
    let f = lenient::Frame::parse(raw.clone()).unwrap();
    assert_eq!(f.op, 1);
    assert_eq!(f.t.as_deref(), Some("#commit"));
    assert_eq!(f.seq, Some(42));
    assert_eq!(f.raw, raw);
}

#[test]
fn frame_parses_error_frame() {
    let payload = Value::Map(vec![(
        Value::Text("error".into()),
        Value::Text("FutureCursor".into()),
    )]);
    let f = lenient::Frame::parse(unsorted_frame_bytes(-1, None, payload)).unwrap();
    assert_eq!(f.op, -1);
    assert_eq!(f.t, None);
    assert_eq!(f.seq, None);
}

#[test]
fn frame_rejects_trailing_garbage() {
    let payload = Value::Map(vec![(Value::Text("seq".into()), Value::Integer(1.into()))]);
    let mut raw = unsorted_frame_bytes(1, Some("#sync"), payload);
    raw.push(0x00);
    assert!(lenient::Frame::parse(raw).is_err());
}

#[test]
fn frame_rejects_missing_type() {
    let payload = Value::Map(vec![]);
    assert!(lenient::Frame::parse(unsorted_frame_bytes(1, None, payload)).is_err());
}

#[test]
fn frame_errors_say_what_was_wrong() {
    let text = |raw: Vec<u8>| Frame::parse(raw).unwrap_err().to_text();
    assert_eq!(
        text(vec![]),
        "frame header: invalid DRISL at byte 0: truncated: expected an item"
    );
    assert_eq!(
        text(vec![0xa0]),
        "frame has 1 CBOR item, expected header + payload"
    );
    assert_eq!(
        text(vec![0xa0, 0xff]),
        "frame payload: invalid DRISL at byte 1: unexpected break code"
    );
    assert_eq!(
        text(vec![0xa0, 0xa0, 0x00]),
        "trailing bytes after frame payload: 1 of 3"
    );
    assert_eq!(text(vec![0xa0, 0xa0]), "frame header missing integer 'op'");
    assert_eq!(
        text(vec![0xa1, 0x62, 0x6f, 0x70, 0x01, 0xa0]),
        "op=1 frame missing 't'"
    );

    let lenient_text = |raw: Vec<u8>| lenient::Frame::parse(raw).unwrap_err().to_text();
    assert!(lenient_text(vec![]).starts_with("decoding frame header: "));
    assert!(lenient_text(vec![0xa0]).starts_with("decoding frame payload: "));
    assert_eq!(
        lenient_text(vec![0xa0, 0xa0, 0x00, 0x00]),
        "trailing bytes after frame payload: 2 of 4"
    );
}

#[test]
fn op_must_be_an_integer() {
    let mut raw = encode(&Value::Map(vec![(
        Value::Text("op".into()),
        Value::Text("1".into()),
    )]));
    raw.extend(encode(&Value::Map(vec![])));
    assert_eq!(
        Frame::parse(raw).unwrap_err().to_text(),
        "frame header missing integer 'op'"
    );
}

#[test]
fn integers_wrap_to_64_bits() {
    // 2^64 - 1 and -2^64, the ends of what CBOR integers hold.
    let mut raw = frame_bytes(7, None, Value::Null);
    raw.pop();
    raw.extend([0xa1, 0x63, 0x73, 0x65, 0x71, 0x1b]);
    raw.extend([0xff; 8]);
    assert_eq!(Frame::parse(raw).unwrap().seq, Some(-1));

    let mut raw = frame_bytes(7, None, Value::Null);
    raw.pop();
    raw.extend([0xa1, 0x63, 0x73, 0x65, 0x71, 0x3b]);
    raw.extend([0xff; 8]);
    assert_eq!(Frame::parse(raw).unwrap().seq, Some(0));
}

#[test]
fn strict_frames_are_lenient_frames() {
    let raw = frame_bytes(1, Some("#commit"), commit_payload());
    let a = Frame::parse(raw.clone()).unwrap();
    let b = lenient::Frame::parse(raw.clone()).unwrap();
    assert_eq!((a.op, a.t, a.seq, a.raw), (b.op, b.t, b.seq, b.raw));

    // The other way round does not hold.
    let raw = unsorted_frame_bytes(1, Some("#commit"), commit_payload());
    assert!(lenient::Frame::parse(raw.clone()).is_ok());
    assert!(Frame::parse(raw).is_err());
}

#[test]
fn decoded_values_are_what_was_encoded() {
    let payload = Value::Map(vec![
        (Value::Text("a".into()), Value::Null),
        (Value::Text("b".into()), Value::Bool(true)),
        (Value::Text("c".into()), Value::Integer((-5).into())),
        (Value::Text("d".into()), Value::Float(1.1)),
        (Value::Text("e".into()), Value::Text("x".into())),
        (Value::Text("f".into()), Value::Bytes(vec![1, 2])),
        (
            Value::Text("g".into()),
            Value::Array(vec![Value::Integer(1.into())]),
        ),
        (
            Value::Text("h".into()),
            Value::Tag(42, Box::new(Value::Bytes(vec![0, 9]))),
        ),
    ]);
    let raw = frame_bytes(1, Some("#x"), payload);
    let (header, payload) = Frame::decode(&raw).unwrap();
    assert_eq!(field(&header, "op"), Some(&Cbor::Integer(1)));
    assert_eq!(field(&header, "nope"), None);
    assert_eq!(field(&payload, "a"), Some(&Cbor::Null));
    assert_eq!(field(&payload, "b"), Some(&Cbor::Bool(true)));
    assert_eq!(field(&payload, "c"), Some(&Cbor::Integer(-5)));
    assert_eq!(field(&payload, "d"), Some(&Cbor::Float(1.1f64.to_bits())));
    assert_eq!(field(&payload, "e"), Some(&Cbor::Text("x".to_string())));
    assert_eq!(field(&payload, "f"), Some(&Cbor::Bytes(vec![1, 2])));
    assert_eq!(
        field(&payload, "g"),
        Some(&Cbor::Array(vec![Cbor::Integer(1)]))
    );
    assert_eq!(
        field(&payload, "h"),
        Some(&Cbor::Tag(42, Box::new(Cbor::Bytes(vec![0, 9]))))
    );
}

#[test]
fn fields_of_what_is_no_map_are_missing() {
    assert_eq!(field(&Cbor::Null, "op"), None);
    // The first of two entries with one key is the field.
    let v = Cbor::Dict(vec![
        (Key::Other("op".to_string()), Cbor::Integer(0)),
        (Key::Text("op".to_string()), Cbor::Integer(1)),
        (Key::Text("op".to_string()), Cbor::Integer(2)),
    ]);
    assert_eq!(field(&v, "op"), Some(&Cbor::Integer(1)));
}

#[test]
fn keys_that_are_no_text_are_printed() {
    let raw = encode(&Value::Map(vec![(
        Value::Integer(5.into()),
        Value::Bool(false),
    )]));
    let (v, taken) = decode_item(&raw).unwrap();
    assert_eq!(taken, raw.len());
    assert_eq!(
        v,
        Cbor::Dict(vec![(
            Key::Other(format!("{:?}", Value::Integer(5.into()))),
            Cbor::Bool(false)
        )])
    );
}

#[test]
fn decoding_takes_one_item() {
    let (v, taken) = decode_item(&[0x82, 0x01, 0x02, 0xf6]).unwrap();
    assert_eq!(
        v,
        Cbor::Array(vec![Cbor::Integer(1), Cbor::Integer(2)])
    );
    assert_eq!(taken, 3);
    assert!(decode_item(&[0x82, 0x01]).is_err());
    assert!(decode_item(&[]).is_err());
}

#[test]
fn deep_documents_still_decode() {
    // As deep as DRISL allows, with a link at the bottom.
    let mut raw = vec![0x81; 127];
    raw.extend([0xd8, 0x2a, 0x42, 0x00, 0x01]);
    let mut frame = vec![0xa1, 0x62, 0x6f, 0x70, 0x20];
    frame.extend(&raw);
    assert!(Frame::parse(frame).is_ok());
}

#[test]
fn long_strings_decode_whole() {
    let text = "é".repeat(5000);
    let bytes = vec![7u8; 9000];
    let payload = Value::Map(vec![
        (Value::Text("a".into()), Value::Text(text.clone())),
        (Value::Text("b".into()), Value::Bytes(bytes.clone())),
    ]);
    let (_, payload) = Frame::decode(&frame_bytes(-1, None, payload)).unwrap();
    assert_eq!(field(&payload, "a"), Some(&Cbor::Text(text)));
    assert_eq!(field(&payload, "b"), Some(&Cbor::Bytes(bytes)));
}
