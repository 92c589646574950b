//! Render decoded frame CBOR as JSON for CLI output.
//!
//! CID links (CBOR tag 42) render as CID strings ('b' + lowercase base32 of the
//! 36-byte CID, after stripping the leading 0x00 multibase-identity byte). Plain
//! byte strings render as `{"$bytesLength": n}`: payload `blocks` CARs are bulky
//! and structural comparison happens at the ops/rev level.

pub mod laws;

use vstd::prelude::*;

use crate::assoc;
use crate::cbor::{Cbor, Key, Label, Tree};
use crate::drisl::item;
use crate::encoding;
use crate::encoding::to_base32;
use crate::text;
use crate::text::{chars_of, lower, push_decimal_wide, push_text};

verus! {

/// The JSON library's own value type.
#[verifier::external_type_specification]
#[verifier::external_body]
pub struct ExJsonValue(serde_json::Value);

/// What a JSON value stands for.
pub enum JsonTree {
    Null,
    Bool(bool),
    Int(int),
    /// A float, by its bits.
    Float(u64),
    Text(Seq<char>),
    Array(Seq<JsonTree>),
    Object(Map<Seq<char>, JsonTree>),
}

/// What a value of the JSON library holds.
pub uninterp spec fn json_tree(v: serde_json::Value) -> JsonTree;

/// What to make a JSON value of.
pub enum Piece {
    Null,
    Bool(bool),
    Int(i64),
    Count(u64),
    Text(String),
    Array(Vec<serde_json::Value>),
    EmptyObject,
}

/// What the value made of `piece` holds.
pub open spec fn piece_tree(piece: Piece) -> JsonTree {
    match piece {
        Piece::Null => JsonTree::Null,
        Piece::Bool(b) => JsonTree::Bool(b),
        Piece::Int(n) => JsonTree::Int(n as int),
        Piece::Count(n) => JsonTree::Int(n as int),
        Piece::Text(s) => JsonTree::Text(s@),
        Piece::Array(items) => JsonTree::Array(
            items@.map_values(|v: serde_json::Value| json_tree(v)),
        ),
        Piece::EmptyObject => JsonTree::Object(Map::empty()),
    }
}

/// Makes a `serde_json::Value`, by its own variants and conversions: null, a
/// boolean, an integer, a string, an array of the given values, or an object
/// without entries.
#[verifier::external_body]
pub(crate) fn make(piece: Piece) -> (r: serde_json::Value)
    ensures
        json_tree(r) == piece_tree(piece),
{
    match piece {
        Piece::Null => serde_json::Value::Null,
        Piece::Bool(b) => serde_json::Value::Bool(b),
        Piece::Int(n) => serde_json::Value::from(n),
        Piece::Count(n) => serde_json::Value::from(n),
        Piece::Text(s) => serde_json::Value::String(s),
        Piece::Array(items) => serde_json::Value::Array(items),
        Piece::EmptyObject => serde_json::Value::Object(serde_json::Map::new()),
    }
}

/// Sets an entry of a JSON object by `serde_json::Map::insert`: where the key is
/// there already, its value is replaced.
#[verifier::external_body]
pub(crate) fn put(object: &mut serde_json::Value, key: &str, value: serde_json::Value)
    requires
        json_tree(*old(object)) is Object,
    ensures
        json_tree(*final(object)) == JsonTree::Object(
            json_tree(*old(object))->Object_0.insert(key@, json_tree(value)),
        ),
{
    if let Some(entries) = object.as_object_mut() {
        entries.insert(key.to_owned(), value);
    }
}

/// An object without entries.
pub(crate) fn no_entries() -> (r: serde_json::Value)
    ensures
        json_tree(r) == JsonTree::Object(Map::empty()),
{
    make(Piece::EmptyObject)
}

/// The JSON value of a float.
pub open spec fn float_tree(bits: u64) -> JsonTree {
    if item::exponent_full(bits as nat) {
        JsonTree::Null
    } else {
        JsonTree::Float(bits)
    }
}

/// The JSON number of the float with these bits, by
/// `serde_json::Number::from_f64`, which takes every float but infinities and
/// NaN; those become null. The float is read off its bytes by
/// `bytes::Buf::get_f64`.
#[verifier::external_body]
fn make_float(bits: u64) -> (r: serde_json::Value)
    ensures
        json_tree(r) == float_tree(bits),
{
    serde_json::Number::from_f64(bytes::Buf::get_f64(&mut &bits.to_be_bytes()[..]))
        .map(serde_json::Value::Number)
        .unwrap_or(serde_json::Value::Null)
}

/// The canonical string form of a CID: of the bytes under CBOR tag 42, without
/// the 0x00 before them.
pub open spec fn cid_text(bytes: Seq<u8>) -> Seq<char> {
    let cid = stripped(bytes);
    "b"@ + encoding::base32_text(cid).map_values(|c: char| text::ascii_lower(c))
}

/// `bytes` without one leading 0x00.
pub open spec fn stripped(bytes: Seq<u8>) -> Seq<u8> {
    if bytes.len() > 0 && bytes[0] == 0 {
        bytes.skip(1)
    } else {
        bytes
    }
}

/// The text of a map key.
pub open spec fn label_text(label: Label) -> Seq<char> {
    match label {
        Label::Text(s) => s,
        Label::Other(s) => s,
    }
}

/// The JSON form of a decoded value.
pub open spec fn json_of(tree: Tree) -> JsonTree
    decreases tree,
{
    match tree {
        Tree::Null => JsonTree::Null,
        Tree::Bool(b) => JsonTree::Bool(b),
        Tree::Integer(n) => if i64::MIN <= n <= i64::MAX {
            JsonTree::Int(n)
        } else {
            JsonTree::Text(text::signed_decimal(n))
        },
        Tree::Float(bits) => float_tree(bits),
        Tree::Text(s) => JsonTree::Text(s),
        Tree::Bytes(b) => JsonTree::Object(
            Map::empty().insert("$bytesLength"@, JsonTree::Int(b.len() as int)),
        ),
        Tree::Array(items) => JsonTree::Array(
            Seq::new(
                items.len(),
                |i: int|
                    if 0 <= i < items.len() {
                        json_of(items[i])
                    } else {
                        JsonTree::Null
                    },
            ),
        ),
        Tree::Dict(entries) => JsonTree::Object(assoc::collect(json_entries(entries))),
        Tree::Tag(tag, inner) => match *inner {
            Tree::Bytes(b) => if tag == 42 {
                JsonTree::Text(cid_text(b))
            } else {
                json_of(*inner)
            },
            _ => json_of(*inner),
        },
    }
}

/// The JSON form of a map's entries.
pub open spec fn json_entries(entries: Seq<(Label, Tree)>) -> Seq<(Seq<char>, JsonTree)>
    decreases entries,
{
    Seq::new(
        entries.len(),
        |i: int|
            if 0 <= i < entries.len() {
                (label_text(entries[i].0), json_of(entries[i].1))
            } else {
                (Seq::empty(), JsonTree::Null)
            },
    )
}

/// `bytes` without one leading 0x00.
pub fn strip_zero(bytes: &[u8]) -> (r: &[u8])
    ensures
        r@ == stripped(bytes@),
{
    if bytes.len() > 0 && bytes[0] == 0 {
        let (_, rest) = bytes.split_at(1);
        proof {
            assert(rest@ =~= bytes@.skip(1));
        }
        rest
    } else {
        bytes
    }
}

/// CBOR-tag-42 byte string (0x00 + 36-byte CID) to canonical string form.
pub fn cid_string(bytes: &[u8]) -> (r: String)
    ensures
        r@ == cid_text(bytes@),
{
    let cid = strip_zero(bytes);
    let digits = chars_of(to_base32(cid).as_str());
    let mut out = String::new();
    push_text(&mut out, "b");
    let ghost small = digits@.map_values(|c: char| text::ascii_lower(c));
    let mut i: usize = 0;
    proof {
        assert(out@ =~= "b"@ + small.take(0));
    }
    while i < digits.len()
        invariant
            i <= digits@.len(),
            small == digits@.map_values(|c: char| text::ascii_lower(c)),
            out@ == "b"@ + small.take(i as int),
        decreases digits@.len() - i,
    {
        out.push(lower(digits[i]));
        proof {
            assert(out@ =~= "b"@ + small.take(i + 1));
        }
        i = i + 1;
    }
    proof {
        assert(small.take(i as int) =~= small);
    }
    out
}

fn integer_text(n: i128) -> (r: String)
    ensures
        r@ == text::signed_decimal(n as int),
{
    let mut out = String::new();
    if n < 0 {
        out.push('-');
        push_decimal_wide(&mut out, (-(n + 1)) as u128 + 1);
    } else {
        push_decimal_wide(&mut out, n as u128);
    }
    proof {
        assert(out@ =~= text::signed_decimal(n as int));
    }
    out
}

fn key_text(key: &Key) -> (r: String)
    ensures
        r@ == label_text(key@),
{
    match key {
        Key::Text(s) => s.clone(),
        Key::Other(s) => s.clone(),
    }
}

/// Render a decoded value as JSON.
pub fn cbor_to_json(v: &Cbor) -> (r: serde_json::Value)
    ensures
        json_tree(r) == json_of(v@),
    decreases v@,
{
    let ghost tree = v@;
    match v {
        Cbor::Null => make(Piece::Null),
        Cbor::Bool(b) => make(Piece::Bool(*b)),
        Cbor::Integer(n) => if -0x8000_0000_0000_0000 <= *n && *n <= 0x7fff_ffff_ffff_ffff {
            make(Piece::Int(*n as i64))
        } else {
            make(Piece::Text(integer_text(*n)))
        },
        Cbor::Float(bits) => make_float(*bits),
        Cbor::Text(s) => make(Piece::Text(s.clone())),
        Cbor::Bytes(b) => {
            let mut object = no_entries();
            put(&mut object, "$bytesLength", make(Piece::Count(b.len() as u64)));
            object
        },
        Cbor::Array(items) => {
            let mut out: Vec<serde_json::Value> = Vec::new();
            let mut i: usize = 0;
            while i < items.len()
                invariant
                    i <= items@.len(),
                    tree == v@,
                    *v == Cbor::Array(*items),
                    out@.len() == i,
                    forall|k: int|
                        0 <= k < i ==> json_tree(#[trigger] out@[k]) == json_of(items@[k]@),
                decreases items@.len() - i,
            {
                proof {
                    assert(decreases_to!(tree => tree->Array_0[i as int]));
                    assert(tree->Array_0[i as int] == items@[i as int]@);
                }
                out.push(cbor_to_json(&items[i]));
                i = i + 1;
            }
            let r = make(Piece::Array(out));
            proof {
                assert(json_tree(r)->Array_0 =~= json_of(v@)->Array_0);
            }
            r
        },
        Cbor::Dict(entries) => {
            let mut object = no_entries();
            let ghost all = json_entries(tree->Dict_0);
            let mut i: usize = 0;
            proof {
                assert(all.take(0) =~= Seq::empty());
            }
            while i < entries.len()
                invariant
                    i <= entries@.len(),
                    tree == v@,
                    *v == Cbor::Dict(*entries),
                    all == json_entries(tree->Dict_0),
                    all.len() == entries@.len(),
                    json_tree(object) == JsonTree::Object(assoc::collect(all.take(i as int))),
                decreases entries@.len() - i,
            {
                proof {
                    assert(decreases_to!(tree => tree->Dict_0[i as int].1));
                    assert(tree->Dict_0[i as int].1 == entries@[i as int].1@);
                    assert(all.take(i + 1).drop_last() =~= all.take(i as int));
                }
                let value = cbor_to_json(&entries[i].1);
                put(&mut object, key_text(&entries[i].0).as_str(), value);
                i = i + 1;
            }
            proof {
                assert(all.take(i as int) =~= all);
            }
            object
        },
        Cbor::Tag(tag, inner) => {
            proof {
                assert(decreases_to!(tree => tree->Tag_1));
                assert(*tree->Tag_1 == inner@);
                assert(inner@ is Bytes == **inner is Bytes);
            }
            if *tag == 42 {
                if let Cbor::Bytes(b) = &**inner {
                    proof {
                        assert(inner@ == Tree::Bytes(b@));
                    }
                    return make(Piece::Text(cid_string(b.as_slice())));
                }
            }
            cbor_to_json(inner)
        },
    }
}

} // verus!
