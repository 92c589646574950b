use atmoq::conformance::{accept_detail, decode_hex, test_hex, verdict, verdict_line};

#[test]
fn the_last_frame_is_tested() {
    let frames = vec!["aa".to_string(), "bb".to_string()];
    assert_eq!(
        test_hex(Some("cc".to_string()), &frames).as_deref(),
        Some("cc")
    );
    assert_eq!(test_hex(None, &frames).as_deref(), Some("bb"));
    assert_eq!(test_hex(None, &vec![]), None);
}

#[test]
fn hex_is_what_the_encoding_says() {
    for text in ["", "00", "deadbeef", "0f7A", "abc", "zz", "0", "g0", "/:", "`{"] {
        assert_eq!(
            decode_hex(text.as_bytes()),
            data_encoding::HEXLOWER.decode(text.as_bytes()).ok(),
            "{text}"
        );
    }
    let all: Vec<u8> = (0..=255).collect();
    let text = data_encoding::HEXLOWER.encode(&all);
    assert_eq!(decode_hex(text.as_bytes()), Some(all));
}

#[test]
fn verdicts_are_the_decoders() {
    // {"t": "#x", "op": 1}, {"seq": 5}
    let raw = decode_hex(b"a26174622378626f7001a16373657105").unwrap();
    let v = verdict(raw);
    assert!(v.accepted);
    assert_eq!(v.detail, "t=Some(\"#x\") seq=Some(5)");
    let line = verdict_line("case".to_string(), v);
    assert_eq!(line["id"], "case");
    assert_eq!(line["outcome"], "accept");
    assert_eq!(line["detail"], "t=Some(\"#x\") seq=Some(5)");
    assert_eq!(line.as_object().unwrap().len(), 3);

    let v = verdict(vec![0xa0]);
    assert!(!v.accepted);
    assert_eq!(v.detail, "frame has 1 CBOR item, expected header + payload");
    assert_eq!(verdict_line("x".to_string(), v)["outcome"], "reject");
    assert_eq!(accept_detail("None", None), "t=None seq=None");
    assert_eq!(accept_detail("None", Some(-3)), "t=None seq=Some(-3)");
}
