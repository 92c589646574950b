//! The verdict on a frame of a conformance corpus: whether it is accepted, and
//! what was read of it or why it is refused.
//!
//! [`Frame::parse`] is what ingest does with each upstream binary message; a
//! frame that it refuses is dropped. So the verdict is that of the relay.

use vstd::prelude::*;

use crate::frame;
use crate::frame::Frame;
use crate::json;
use crate::json::{make, no_entries, put, JsonTree, Piece};
use crate::text;
use crate::text::{push_signed, push_text};

verus! {

/// The frame under test, in hexadecimal: the case's own, or the last one of its
/// sequence of frames (those before it set the stage).
pub open spec fn tested(hex: Option<Seq<char>>, frames: Seq<Seq<char>>) -> Option<Seq<char>> {
    match hex {
        Some(h) => Some(h),
        None => if frames.len() > 0 {
            Some(frames.last())
        } else {
            None
        },
    }
}

/// Picks the frame under test; none where the case has neither.
pub fn test_hex(hex: Option<String>, frames: &Vec<String>) -> (r: Option<String>)
    ensures
        frame::text_of(r) == tested(
            frame::text_of(hex),
            frames@.map_values(|f: String| f@),
        ),
{
    match hex {
        Some(h) => Some(h),
        None => if frames.len() > 0 {
            Some(frames[frames.len() - 1].clone())
        } else {
            None
        },
    }
}

/// A digit of lowercase hexadecimal.
pub open spec fn is_hex_digit(b: u8) -> bool {
    0x30 <= b <= 0x39 || 0x61 <= b <= 0x66
}

/// The value of a digit.
pub open spec fn hex_value(b: u8) -> int {
    if b <= 0x39 {
        b - 0x30
    } else {
        b - 0x61 + 10
    }
}

/// The bytes that `digits` write in lowercase hexadecimal, two digits each.
pub open spec fn from_hex(digits: Seq<u8>) -> Option<Seq<u8>> {
    if digits.len() % 2 == 0 && forall|i: int|
        0 <= i < digits.len() ==> is_hex_digit(#[trigger] digits[i]) {
        Some(
            Seq::new(
                digits.len() / 2,
                |i: int| (16 * hex_value(digits[2 * i]) + hex_value(digits[2 * i + 1])) as u8,
            ),
        )
    } else {
        None
    }
}

/// The bytes that a text may write.
pub open spec fn bytes_of(r: Option<Vec<u8>>) -> Option<Seq<u8>> {
    match r {
        Some(bytes) => Some(bytes@),
        None => None,
    }
}

fn read_digit(b: u8) -> (r: Option<u8>)
    ensures
        match r {
            Some(v) => is_hex_digit(b) && v == hex_value(b) && v < 16,
            None => !is_hex_digit(b),
        },
{
    if 0x30 <= b && b <= 0x39 {
        Some(b - 0x30)
    } else if 0x61 <= b && b <= 0x66 {
        Some(b - 0x61 + 10)
    } else {
        None
    }
}

/// Reads lowercase hexadecimal.
pub fn decode_hex(digits: &[u8]) -> (r: Option<Vec<u8>>)
    ensures
        bytes_of(r) == from_hex(digits@),
{
    if digits.len() % 2 != 0 {
        return None;
    }
    let mut out: Vec<u8> = Vec::new();
    let mut i: usize = 0;
    while i < digits.len()
        invariant
            i <= digits@.len(),
            i % 2 == 0,
            digits@.len() % 2 == 0,
            out@.len() == i / 2,
            forall|k: int| 0 <= k < i ==> is_hex_digit(#[trigger] digits@[k]),
            forall|k: int|
                0 <= k < out@.len() ==> #[trigger] out@[k] == 16 * hex_value(digits@[2 * k])
                    + hex_value(digits@[2 * k + 1]),
        decreases digits@.len() - i,
    {
        let high = match read_digit(digits[i]) {
            Some(v) => v,
            None => {
                return None;
            },
        };
        let low = match read_digit(digits[i + 1]) {
            Some(v) => v,
            None => {
                return None;
            },
        };
        out.push(16 * high + low);
        i = i + 2;
    }
    proof {
        assert(out@ =~= from_hex(digits@)->0);
    }
    Some(out)
}

/// The form in which a text that may be missing prints itself for debugging.
pub uninterp spec fn type_form(t: Option<Seq<char>>) -> Seq<char>;

/// The text by which an `Option<String>` prints itself under `{:?}`: it depends
/// on the text alone.
#[verifier::external_body]
fn debug_type(t: &Option<String>) -> (r: String)
    ensures
        r@ == type_form(frame::text_of(*t)),
{
    format!("{t:?}")
}

/// The form in which a number that may be missing prints itself for debugging.
pub open spec fn seq_form(seq: Option<int>) -> Seq<char> {
    match seq {
        Some(n) => "Some("@ + text::signed_decimal(n) + ")"@,
        None => "None"@,
    }
}

/// What is said of a frame that is accepted, given how its type prints itself.
pub open spec fn accepted_detail(t: Seq<char>, seq: Option<int>) -> Seq<char> {
    "t="@ + t + " seq="@ + seq_form(seq)
}

/// What is said of a frame that is accepted.
pub fn accept_detail(t: &str, seq: Option<i64>) -> (r: String)
    ensures
        r@ == accepted_detail(t@, frame::int_of(seq)),
{
    let mut out = String::new();
    push_text(&mut out, "t=");
    push_text(&mut out, t);
    push_text(&mut out, " seq=");
    match seq {
        Some(n) => {
            push_text(&mut out, "Some(");
            push_signed(&mut out, n);
            push_text(&mut out, ")");
        },
        None => push_text(&mut out, "None"),
    }
    proof {
        assert(out@ =~= accepted_detail(t@, frame::int_of(seq)));
    }
    out
}

/// The verdict on a frame.
#[derive(Debug, PartialEq, Eq)]
pub struct Verdict {
    pub accepted: bool,
    /// What was read of the frame, or why it is refused.
    pub detail: String,
}

/// This is the verdict on the frame `raw`.
pub open spec fn judges(v: Verdict, raw: Seq<u8>) -> bool {
    match frame::parsed(raw) {
        Ok(fields) => v.accepted && v.detail@ == accepted_detail(type_form(fields.t), fields.seq),
        Err(refusal) => !v.accepted && v.detail@ == refusal.text(),
    }
}

/// Runs a frame through the decoder.
pub fn verdict(raw: Vec<u8>) -> (r: Verdict)
    ensures
        judges(r, raw@),
{
    match Frame::parse(raw) {
        Ok(f) => {
            let t = debug_type(&f.t);
            Verdict { accepted: true, detail: accept_detail(t.as_str(), f.seq) }
        },
        Err(e) => Verdict { accepted: false, detail: e.to_text() },
    }
}

/// The line on a case.
pub open spec fn verdict_object(id: Seq<char>, accepted: bool, detail: Seq<char>) -> JsonTree {
    JsonTree::Object(
        Map::empty()
            .insert("id"@, JsonTree::Text(id))
            .insert(
                "outcome"@,
                JsonTree::Text(
                    if accepted {
                        "accept"@
                    } else {
                        "reject"@
                    },
                ),
            )
            .insert("detail"@, JsonTree::Text(detail)),
    )
}

/// The line on a case.
pub fn verdict_line(id: String, v: Verdict) -> (r: serde_json::Value)
    ensures
        json::json_tree(r) == verdict_object(id@, v.accepted, v.detail@),
{
    let outcome = if v.accepted {
        "accept"
    } else {
        "reject"
    };
    let mut line = no_entries();
    put(&mut line, "id", make(Piece::Text(id)));
    put(&mut line, "outcome", make(Piece::Text(outcome.to_owned())));
    put(&mut line, "detail", make(Piece::Text(v.detail)));
    line
}

/// The relay accepts exactly the valid frames: a verdict accepts where the
/// frame parses, and nowhere else.
pub proof fn law_verdict_is_the_decoders(v: Verdict, raw: Seq<u8>)
    requires
        judges(v, raw),
    ensures
        v.accepted <==> frame::parsed(raw) is Ok,
{
}

/// The frame under test is the case's own where it has one, and else the last of
/// its sequence.
pub proof fn law_last_frame_is_tested(hex: Seq<char>, frames: Seq<Seq<char>>, last: Seq<char>)
    ensures
        tested(Some(hex), frames) == Some(hex),
        tested(None, frames.push(last)) == Some(last),
        tested(None, Seq::empty()) is None,
{
}

/// `bytes` in lowercase hexadecimal.
pub open spec fn to_hex(bytes: Seq<u8>) -> Seq<u8> {
    Seq::new(
        2 * bytes.len(),
        |i: int|
            "0123456789abcdef"@[(if i % 2 == 0 {
                bytes[i / 2] / 16
            } else {
                bytes[i / 2] % 16
            }) as int] as u8,
    )
}

proof fn lemma_hex_digit(v: int)
    requires
        0 <= v < 16,
    ensures
        is_hex_digit("0123456789abcdef"@[v] as u8),
        hex_value("0123456789abcdef"@[v] as u8) == v,
{
    reveal_strlit("0123456789abcdef");
}

/// Bytes that are written in hexadecimal are read back; an odd number of digits,
/// or anything that is no digit, is refused.
pub proof fn law_hex_is_read_back(bytes: Seq<u8>, digits: Seq<u8>, i: int)
    ensures
        from_hex(to_hex(bytes)) == Some(bytes),
        digits.len() % 2 == 1 ==> from_hex(digits) is None,
        0 <= i < digits.len() && !(0x30 <= digits[i] <= 0x39) && !(0x61 <= digits[i] <= 0x66)
            ==> from_hex(digits) is None,
{
    let hex = to_hex(bytes);
    assert forall|k: int| 0 <= k < hex.len() implies is_hex_digit(#[trigger] hex[k]) by {
        let b = bytes[k / 2];
        lemma_hex_digit(b as int / 16);
        lemma_hex_digit(b as int % 16);
    }
    assert(from_hex(hex) is Some);
    assert forall|k: int| 0 <= k < bytes.len() implies from_hex(hex)->0[k] == bytes[k] by {
        let b = bytes[k];
        lemma_hex_digit(b as int / 16);
        lemma_hex_digit(b as int % 16);
        assert((2 * k) / 2 == k && (2 * k) % 2 == 0);
        assert((2 * k + 1) / 2 == k && (2 * k + 1) % 2 == 1);
    }
    assert(from_hex(hex)->0 =~= bytes);
    if 0 <= i < digits.len() && !(0x30 <= digits[i] <= 0x39) && !(0x61 <= digits[i] <= 0x66) {
        assert(!is_hex_digit(digits[i]));
    }
}

/// An accepted frame's verdict shows its type and its sequence number; a refused
/// one's says why.
pub proof fn law_verdict_says_what_was_read(v: Verdict, raw: Seq<u8>)
    requires
        judges(v, raw),
    ensures
        frame::parsed(raw) matches Ok(fields) ==> v.detail@ == "t="@ + type_form(fields.t)
            + " seq="@ + (match fields.seq {
            Some(n) => "Some("@ + text::signed_decimal(n) + ")"@,
            None => "None"@,
        }),
        frame::parsed(raw) matches Err(refusal) ==> v.detail@ == refusal.text(),
{
}

/// The line on a case shows its name, its outcome and the detail.
pub proof fn law_verdict_line(id: Seq<char>, accepted: bool, detail: Seq<char>)
    ensures
        verdict_object(id, accepted, detail) matches JsonTree::Object(line) && {
            &&& line.dom() == set!["id"@, "outcome"@, "detail"@]
            &&& line["id"@] == JsonTree::Text(id)
            &&& line["outcome"@] == JsonTree::Text(
                if accepted {
                    "accept"@
                } else {
                    "reject"@
                },
            )
            &&& line["detail"@] == JsonTree::Text(detail)
        },
{
    reveal_strlit("id");
    reveal_strlit("outcome");
    reveal_strlit("detail");
    assert("id"@.len() == 2 && "outcome"@.len() == 7 && "detail"@.len() == 6);
    let line = verdict_object(id, accepted, detail)->Object_0;
    assert(line.dom() =~= set!["id"@, "outcome"@, "detail"@]);
}

} // verus!
