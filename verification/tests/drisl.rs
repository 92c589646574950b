use atmoq::drisl::item::MAX_DEPTH;
use atmoq::drisl::{validate, validate_exact};

fn f64_bytes(f: f64) -> Vec<u8> {
    let mut out = vec![0xfb];
    out.extend_from_slice(&f.to_be_bytes());
    out
}

#[test]
fn accepts_valid_documents() {
    let valid: Vec<(&str, Vec<u8>)> = vec![
        ("uint 0", vec![0x00]),
        ("uint 23", vec![0x17]),
        ("uint 24", vec![0x18, 0x18]),
        ("uint 256", vec![0x19, 0x01, 0x00]),
        ("uint 65536", vec![0x1a, 0x00, 0x01, 0x00, 0x00]),
        (
            "uint 2^32",
            vec![0x1b, 0x00, 0x00, 0x00, 0x01, 0x00, 0x00, 0x00, 0x00],
        ),
        ("negint -1", vec![0x20]),
        ("bytes", vec![0x43, 1, 2, 3]),
        ("text 'abc'", vec![0x63, 0x61, 0x62, 0x63]),
        ("array [1,2]", vec![0x82, 0x01, 0x02]),
        ("empty map", vec![0xa0]),
        ("sorted map", vec![0xa2, 0x61, 0x61, 0x01, 0x61, 0x62, 0x02]),
        (
            "length-first keys {t, op}",
            vec![0xa2, 0x61, 0x74, 0x01, 0x62, 0x6f, 0x70, 0x02],
        ),
        ("false", vec![0xf4]),
        ("true", vec![0xf5]),
        ("null", vec![0xf6]),
        ("float64 1.5", f64_bytes(1.5)),
        ("float64 -0.0", f64_bytes(-0.0)),
        (
            "tag 42 CID",
            vec![0xd8, 0x2a, 0x45, 0x00, 0x01, 0x71, 0x12, 0x20],
        ),
    ];
    for (name, data) in valid {
        assert!(
            validate_exact(&data).is_ok(),
            "{name}: {:?}",
            validate_exact(&data)
        );
    }
}

#[test]
fn rejects_invalid_documents() {
    let invalid: Vec<(&str, Vec<u8>, &str)> = vec![
        ("non-minimal uint 1-byte", vec![0x18, 0x17], "non-minimal"),
        (
            "non-minimal uint 2-byte",
            vec![0x19, 0x00, 0xff],
            "non-minimal",
        ),
        (
            "non-minimal string length",
            vec![0x78, 0x03, 0x61, 0x62, 0x63],
            "non-minimal",
        ),
        ("indefinite array", vec![0x9f, 0x01, 0xff], "indefinite"),
        (
            "indefinite map",
            vec![0xbf, 0x61, 0x61, 0x01, 0xff],
            "indefinite",
        ),
        ("bare break", vec![0xff], "break"),
        ("float16", vec![0xf9, 0x3c, 0x00], "half-precision"),
        (
            "float32",
            vec![0xfa, 0x3f, 0xc0, 0x00, 0x00],
            "single-precision",
        ),
        ("float64 NaN", f64_bytes(f64::NAN), "NaN"),
        ("float64 Inf", f64_bytes(f64::INFINITY), "infinity"),
        ("undefined", vec![0xf7], "undefined"),
        ("simple 19", vec![0xf3], "simple value"),
        (
            "unsorted keys {b, a}",
            vec![0xa2, 0x61, 0x62, 0x01, 0x61, 0x61, 0x02],
            "order",
        ),
        (
            "longer key first {op, t}",
            vec![0xa2, 0x62, 0x6f, 0x70, 0x01, 0x61, 0x74, 0x02],
            "order",
        ),
        (
            "duplicate keys",
            vec![0xa2, 0x61, 0x61, 0x01, 0x61, 0x61, 0x02],
            "duplicate",
        ),
        ("int map key", vec![0xa1, 0x01, 0x02], "not a text string"),
        ("tag 0", vec![0xc0, 0x60], "tag 0"),
        ("tag 2 bignum", vec![0xc2, 0x41, 0x01], "tag 2"),
        (
            "tag 42 non-bytes",
            vec![0xd8, 0x2a, 0x61, 0x61],
            "byte string",
        ),
        (
            "tag 42 no 0x00 prefix",
            vec![0xd8, 0x2a, 0x42, 0x01, 0x71],
            "0x00 prefix",
        ),
        ("invalid UTF-8", vec![0x62, 0xc3, 0x28], "UTF-8"),
        ("truncated arg", vec![0x19, 0x01], "truncated"),
        ("truncated string", vec![0x63, 0x61, 0x62], "truncated"),
        ("truncated array", vec![0x82, 0x01], "truncated"),
        ("empty input", vec![], "truncated"),
        ("trailing bytes", vec![0x01, 0x02], "trailing"),
    ];
    for (name, data, needle) in invalid {
        let e = validate_exact(&data).unwrap_err();
        assert!(
            e.message.contains(needle),
            "{name}: expected {needle:?} in {:?}",
            e.message
        );
    }
}

#[test]
fn returns_item_end_offsets() {
    // {"a": 1} then null : the header/payload boundary use case.
    let doc = [0xa1, 0x61, 0x61, 0x01, 0xf6];
    assert_eq!(validate(&doc, 0).unwrap(), 4);
    assert_eq!(validate(&doc, 4).unwrap(), 5);
}

#[test]
fn rejects_pathological_nesting() {
    let mut deep = vec![0x81; 2000];
    deep.push(0x00);
    let e = validate_exact(&deep).unwrap_err();
    assert!(e.message.contains("nesting"));
}

#[test]
fn faults_name_their_offset() {
    let e = validate_exact(&[0x82, 0x01, 0x18, 0x05]).unwrap_err();
    assert_eq!(e.offset, 2);
    assert_eq!(e.message, "non-minimal encoding of uint 5 (1-byte argument)");
    assert_eq!(
        e.to_text(),
        "invalid DRISL at byte 2: non-minimal encoding of uint 5 (1-byte argument)"
    );
}

#[test]
fn every_message_is_exact() {
    let cases: Vec<(Vec<u8>, usize, &str)> = vec![
        (vec![], 0, "truncated: expected an item"),
        (vec![0x1c], 0, "reserved additional-info value 28"),
        (vec![0x1f], 0, "indefinite-length uint is not allowed"),
        (vec![0x3f], 0, "indefinite-length negint is not allowed"),
        (vec![0x5f], 0, "indefinite-length byte string length is not allowed"),
        (vec![0x7f], 0, "indefinite-length text string length is not allowed"),
        (vec![0xdf], 0, "indefinite-length tag is not allowed"),
        (vec![0x19, 0x01], 0, "truncated uint argument"),
        (vec![0x43, 0x01], 1, "truncated string body"),
        (vec![0x61, 0xff], 1, "text string is not valid UTF-8"),
        (vec![0xa1], 1, "truncated: expected a map key"),
        (vec![0xa1, 0x40], 1, "map key is not a text string"),
        (vec![0xd8, 0x2a], 2, "tag 42 content must be a byte string"),
        (vec![0xd8, 0x2a, 0x40], 3, "tag 42 CID must start with the 0x00 prefix"),
        (vec![0xfb, 0x00], 0, "truncated float64"),
        (vec![0xf8, 0x20], 0, "simple value 32 is not allowed (only false/true/null)"),
        (vec![0xf8], 0, "simple value 0 is not allowed (only false/true/null)"),
        (vec![0x00, 0x00, 0x00], 1, "2 trailing byte(s) after item"),
    ];
    for (data, offset, message) in cases {
        let e = validate_exact(&data).unwrap_err();
        assert_eq!(e.message, message);
        assert_eq!(e.offset, offset, "{message}");
    }
}

#[test]
fn nesting_limit_is_exact() {
    let mut deep = vec![0x81; MAX_DEPTH];
    deep.push(0x00);
    assert!(validate_exact(&deep).is_ok());
    let mut deeper = vec![0x81; MAX_DEPTH + 1];
    deeper.push(0x00);
    let e = validate_exact(&deeper).unwrap_err();
    assert_eq!(e.message, "nesting deeper than 128");
    assert_eq!(e.offset, MAX_DEPTH + 1);
}

#[test]
fn end_depends_on_the_item_alone() {
    let item = [0xa1, 0x61, 0x61, 0x82, 0x01, 0x02];
    for tail in [vec![], vec![0xff], vec![0x00; 40]] {
        let mut doc = vec![0xf6];
        doc.extend_from_slice(&item);
        doc.extend(tail);
        assert_eq!(validate(&doc, 1).unwrap(), 7);
    }
}

#[test]
fn offsets_past_the_end_are_truncation() {
    let e = validate(&[0x00], 9).unwrap_err();
    assert_eq!(e.offset, 9);
    assert_eq!(e.message, "truncated: expected an item");
}
