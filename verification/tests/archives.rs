use atmoq::car::{blocks, CarError};
use atmoq::cbor::{decode_item, Cbor, Key};
use atmoq::json::{cbor_to_json, cid_string};
use serde_json::Value;

fn write_varint(out: &mut Vec<u8>, mut v: u64) {
    loop {
        let byte = (v & 0x7f) as u8;
        v >>= 7;
        if v == 0 {
            out.push(byte);
            return;
        }
        out.push(byte | 0x80);
    }
}

fn fake_cid(seed: u8) -> Vec<u8> {
    let mut cid = vec![0x01, 0x71, 0x12, 0x20];
    cid.extend([seed; 32]);
    cid
}

#[test]
fn parses_blocks() {
    let mut car = Vec::new();
    let header = b"\xa2"; // placeholder CBOR; contents are skipped
    write_varint(&mut car, header.len() as u64);
    car.extend(header);

    for seed in [1u8, 2] {
        let cid = fake_cid(seed);
        let data = vec![seed; 5];
        write_varint(&mut car, (cid.len() + data.len()) as u64);
        car.extend(&cid);
        car.extend(&data);
    }

    let blocks = blocks(&car).unwrap();
    assert_eq!(blocks.len(), 2);
    assert_eq!(blocks.get(&fake_cid(1)), Some(&vec![1u8; 5]));
    assert_eq!(blocks.get(&fake_cid(2)), Some(&vec![2u8; 5]));
}

#[test]
fn tolerates_truncation() {
    let mut car = Vec::new();
    write_varint(&mut car, 1);
    car.push(0xa0);
    let cid = fake_cid(3);
    write_varint(&mut car, (cid.len() + 10) as u64);
    car.extend(&cid);
    car.extend([3u8; 4]); // claims 10 data bytes, has 4
    let blocks = blocks(&car).unwrap();
    assert!(blocks.is_empty());
}

fn entry(car: &mut Vec<u8>, cid: &[u8], data: &[u8]) {
    write_varint(car, (cid.len() + data.len()) as u64);
    car.extend(cid);
    car.extend(data);
}

#[test]
fn truncation_keeps_the_entries_before_it() {
    let mut car = vec![0x00];
    entry(&mut car, &fake_cid(1), b"one");
    let whole = car.len();
    entry(&mut car, &fake_cid(2), b"two");
    for cut in whole..car.len() {
        let found = blocks(&car[..cut]).unwrap();
        assert_eq!(found.len(), 1, "cut at {cut}");
        assert_eq!(found.get(&fake_cid(1)), Some(&b"one".to_vec()));
    }
    assert_eq!(blocks(&car).unwrap().len(), 2);
}

#[test]
fn later_duplicates_win() {
    let mut car = vec![0x00];
    entry(&mut car, &fake_cid(1), b"first");
    entry(&mut car, &fake_cid(2), b"other");
    entry(&mut car, &fake_cid(1), b"second");
    let found = blocks(&car).unwrap();
    assert_eq!(found.len(), 2);
    assert_eq!(found.get(&fake_cid(1)), Some(&b"second".to_vec()));
    assert_eq!(found.get(&fake_cid(9)), None);
}

#[test]
fn entries_without_a_cid_are_skipped() {
    let mut car = vec![0x00];
    // CIDv0, an empty entry, and a hash that is cut off.
    entry(&mut car, &[0x12, 0x20], &[0u8; 32]);
    entry(&mut car, &[], &[]);
    entry(&mut car, &[0x01, 0x71, 0x12, 0x20], &[0u8; 3]);
    entry(&mut car, &fake_cid(1), b"kept");
    let found = blocks(&car).unwrap();
    assert_eq!(found.len(), 1);
    assert_eq!(found.get(&fake_cid(1)), Some(&b"kept".to_vec()));
}

#[test]
fn bad_headers_are_errors() {
    assert_eq!(blocks(&[]).unwrap_err(), CarError::TruncatedVarint);
    assert_eq!(blocks(&[0x80]).unwrap_err(), CarError::TruncatedVarint);
    assert_eq!(blocks(&[0x80; 11]).unwrap_err(), CarError::VarintOverflow);
    assert_eq!(blocks(&[0x05, 0x00]).unwrap_err(), CarError::HeaderLength(5));
    assert_eq!(
        blocks(&[0x05, 0x00]).unwrap_err().to_text(),
        "CAR header length 5 exceeds input"
    );
    assert_eq!(CarError::TruncatedVarint.to_text(), "truncated varint");
    assert_eq!(CarError::VarintOverflow.to_text(), "varint overflow");
    assert_eq!(
        CarError::CidVersion(7).to_text(),
        "unsupported CID version 7"
    );
    assert_eq!(
        CarError::TruncatedMultihash.to_text(),
        "truncated multihash"
    );
}

#[test]
fn varints_keep_64_bits() {
    // Ten bytes of 0x7f bits: all of 64 bits and some that fall off.
    let mut car = vec![0xff; 9];
    car.push(0x7f);
    assert_eq!(
        blocks(&car).unwrap_err(),
        CarError::HeaderLength(u64::MAX)
    );
}

#[test]
fn renders_cid_links() {
    // 0x01711220 prefix + 32 zero bytes, with leading 0x00 identity byte
    let mut cid = vec![0x00, 0x01, 0x71, 0x12, 0x20];
    cid.extend([0u8; 32]);
    let v = Cbor::Tag(42, Box::new(Cbor::Bytes(cid)));
    let j = cbor_to_json(&v);
    let s = j.as_str().unwrap();
    assert!(s.starts_with("bafyrei") || s.starts_with("b"), "{s}");
    assert_eq!(s.len(), 59);
}

#[test]
fn renders_bytes_as_length() {
    let v = Cbor::Bytes(vec![1, 2, 3]);
    let mut expected = serde_json::Map::new();
    expected.insert("$bytesLength".to_string(), Value::from(3));
    assert_eq!(cbor_to_json(&v), Value::Object(expected));
}

#[test]
fn cid_strings_are_lower_case_base32() {
    assert_eq!(cid_string(b"foobar"), "bmzxw6ytboi");
    assert_eq!(cid_string(b"\x00foobar"), "bmzxw6ytboi");
    assert_eq!(cid_string(b"\x00\x00"), "baa");
    assert_eq!(cid_string(b""), "b");
}

#[test]
fn numbers_render_exactly() {
    assert_eq!(cbor_to_json(&Cbor::Integer(-7)), Value::from(-7));
    assert_eq!(
        cbor_to_json(&Cbor::Integer(i64::MAX as i128)),
        Value::from(i64::MAX)
    );
    assert_eq!(
        cbor_to_json(&Cbor::Integer(i64::MAX as i128 + 1)),
        Value::from("9223372036854775808")
    );
    assert_eq!(
        cbor_to_json(&Cbor::Integer(-18446744073709551616)),
        Value::from("-18446744073709551616")
    );
    assert_eq!(
        cbor_to_json(&Cbor::Float(1.5f64.to_bits())),
        Value::from(1.5)
    );
    assert_eq!(
        cbor_to_json(&Cbor::Float((-0.0f64).to_bits())).to_string(),
        "-0.0"
    );
    for bad in [f64::NAN, f64::INFINITY, f64::NEG_INFINITY] {
        assert_eq!(cbor_to_json(&Cbor::Float(bad.to_bits())), Value::Null);
    }
}

#[test]
fn collections_render_in_full() {
    let v = Cbor::Dict(vec![
        (Key::Text("a".to_string()), Cbor::Bool(true)),
        (
            Key::Text("b".to_string()),
            Cbor::Array(vec![Cbor::Null, Cbor::Text("x".to_string())]),
        ),
        (Key::Other("k".to_string()), Cbor::Integer(1)),
        (Key::Text("a".to_string()), Cbor::Bool(false)),
    ]);
    let j = cbor_to_json(&v);
    assert_eq!(j["a"], Value::Bool(false));
    assert_eq!(j["b"][0], Value::Null);
    assert_eq!(j["b"][1], Value::from("x"));
    assert_eq!(j["k"], Value::from(1));
    assert_eq!(j.as_object().unwrap().len(), 3);
}

#[test]
fn other_tags_render_what_they_hold() {
    let inner = || Box::new(Cbor::Text("2024".to_string()));
    assert_eq!(cbor_to_json(&Cbor::Tag(0, inner())), Value::from("2024"));
    assert_eq!(cbor_to_json(&Cbor::Tag(42, inner())), Value::from("2024"));
    let bytes = Cbor::Tag(2, Box::new(Cbor::Bytes(vec![1])));
    assert_eq!(cbor_to_json(&bytes)["$bytesLength"], Value::from(1));
}

#[test]
fn of_two_entries_with_one_key_the_later_stands() {
    // {"a": 1, "b": 2, "a": 3}
    let (v, taken) = decode_item(&[0xa3, 0x61, 0x61, 1, 0x61, 0x62, 2, 0x61, 0x61, 3]).unwrap();
    assert_eq!(taken, 10);
    let json = cbor_to_json(&v);
    assert_eq!(json["a"], Value::from(3));
    assert_eq!(json["b"], Value::from(2));
    assert_eq!(json.as_object().unwrap().len(), 2);
}

#[test]
fn widened_nans_render_as_null() {
    for raw in [
        vec![0xf9, 0x7e, 0x01],
        vec![0xfa, 0x7f, 0xc0, 0x00, 0x01],
        vec![0xfb, 0x7f, 0xf8, 0, 0, 0, 0, 0, 1],
    ] {
        let (v, taken) = decode_item(&raw).unwrap();
        assert_eq!(taken, raw.len());
        assert_eq!(cbor_to_json(&v), Value::Null);
    }
}
