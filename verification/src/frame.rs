//! at-sync wire frames: two concatenated CBOR objects (header, then payload).
//!
//! The relay is a passthrough for valid frames: they are republished
//! byte-for-byte, and we only decode the handful of fields needed for routing
//! and group bookkeeping (header `op`/`t`, payload `seq`). Both objects are
//! validated as DRISL (see [`crate::drisl`]) before any value decoding: atmoq
//! rejects invalid DRISL at ingest by design, a deliberate semantic difference
//! from the upstream lenient WebSocket relay. Semantic validation (signatures,
//! MST inversion) is out of scope here.
//!
//! [`lenient`] decodes frames without the DRISL rules, for reading from
//! sources that do not enforce them.

pub mod laws;
pub mod lenient;

use vstd::prelude::*;

use crate::cbor;
use crate::cbor::{decode_item, Cbor, Tree};
pub use crate::cbor::field;
use crate::drisl;
use crate::drisl::item;
use crate::drisl::item::{Fault, Item};
use crate::drisl::DrislError;
use crate::text;
use crate::text::{push_decimal, push_text};

verus! {

/// Why a frame was refused.
#[derive(Debug)]
pub enum FrameError {
    /// The header is no DRISL.
    Header(DrislError),
    /// There is a header and nothing else.
    SingleItem,
    /// The payload is no DRISL.
    Payload(DrislError),
    /// Bytes are left after the payload.
    Trailing { extra: usize, total: usize },
    /// The header could not be decoded.
    HeaderCbor(String),
    /// The payload could not be decoded.
    PayloadCbor(String),
    /// The header has no integer `op`.
    MissingOp,
    /// The header of a message has no `t`.
    MissingType,
}

/// What a [`FrameError`] stands for.
pub enum Refusal {
    Header(Fault),
    SingleItem,
    Payload(Fault),
    Trailing { extra: int, total: int },
    HeaderCbor(Seq<char>),
    PayloadCbor(Seq<char>),
    MissingOp,
    MissingType,
}

impl Refusal {
    /// The line of text that says what was wrong.
    pub open spec fn text(self) -> Seq<char> {
        match self {
            Refusal::Header(f) => "frame header: "@ + f.text(),
            Refusal::SingleItem => "frame has 1 CBOR item, expected header + payload"@,
            Refusal::Payload(f) => "frame payload: "@ + f.text(),
            Refusal::Trailing { extra, total } => "trailing bytes after frame payload: "@
                + text::decimal(extra as nat) + " of "@ + text::decimal(total as nat),
            Refusal::HeaderCbor(cause) => "decoding frame header: "@ + cause,
            Refusal::PayloadCbor(cause) => "decoding frame payload: "@ + cause,
            Refusal::MissingOp => "frame header missing integer 'op'"@,
            Refusal::MissingType => "op=1 frame missing 't'"@,
        }
    }
}

impl Refusal {
    /// The refusal without the decoder's own words.
    pub open spec fn in_short(self) -> Refusal {
        match self {
            Refusal::HeaderCbor(_) => Refusal::HeaderCbor(Seq::empty()),
            Refusal::PayloadCbor(_) => Refusal::PayloadCbor(Seq::empty()),
            _ => self,
        }
    }
}

impl FrameError {
    pub open spec fn view(self) -> Refusal {
        match self {
            FrameError::Header(e) => Refusal::Header(e@),
            FrameError::SingleItem => Refusal::SingleItem,
            FrameError::Payload(e) => Refusal::Payload(e@),
            FrameError::Trailing { extra, total } => Refusal::Trailing {
                extra: extra as int,
                total: total as int,
            },
            FrameError::HeaderCbor(cause) => Refusal::HeaderCbor(cause@),
            FrameError::PayloadCbor(cause) => Refusal::PayloadCbor(cause@),
            FrameError::MissingOp => Refusal::MissingOp,
            FrameError::MissingType => Refusal::MissingType,
        }
    }

    /// What was wrong, as one line of text.
    pub fn to_text(&self) -> (r: String)
        ensures
            r@ == self@.text(),
    {
        let mut out = String::new();
        match self {
            FrameError::Header(e) => {
                push_text(&mut out, "frame header: ");
                push_text(&mut out, e.to_text().as_str());
            },
            FrameError::SingleItem => push_text(
                &mut out,
                "frame has 1 CBOR item, expected header + payload",
            ),
            FrameError::Payload(e) => {
                push_text(&mut out, "frame payload: ");
                push_text(&mut out, e.to_text().as_str());
            },
            FrameError::Trailing { extra, total } => {
                push_text(&mut out, "trailing bytes after frame payload: ");
                push_decimal(&mut out, *extra as u64);
                push_text(&mut out, " of ");
                push_decimal(&mut out, *total as u64);
            },
            FrameError::HeaderCbor(cause) => {
                push_text(&mut out, "decoding frame header: ");
                push_text(&mut out, cause.as_str());
            },
            FrameError::PayloadCbor(cause) => {
                push_text(&mut out, "decoding frame payload: ");
                push_text(&mut out, cause.as_str());
            },
            FrameError::MissingOp => push_text(&mut out, "frame header missing integer 'op'"),
            FrameError::MissingType => push_text(&mut out, "op=1 frame missing 't'"),
        }
        proof {
            assert(out@ =~= self@.text());
        }
        out
    }
}

/// Minimally decoded view of one firehose frame. `raw` is the original wire
/// bytes (header + payload), suitable for byte-exact republication.
#[derive(Debug, Clone)]
pub struct Frame {
    /// Frame operation: 1 = message, -1 = error.
    pub op: i64,
    /// Message type with leading '#' (e.g. "#commit"), present when op == 1.
    pub t: Option<String>,
    /// Sequence number, present on all at-sync message payloads.
    pub seq: Option<i64>,
    pub raw: Vec<u8>,
}

/// The fields that routing and bookkeeping need.
pub struct Fields {
    pub op: int,
    pub t: Option<Seq<char>>,
    pub seq: Option<int>,
}

/// The two DRISL items that make up a frame.
pub open spec fn two_items(raw: Seq<u8>) -> Result<(Item, Item), Refusal> {
    match item::item_at(raw, 0, 0) {
        Err(f) => Err(Refusal::Header(f)),
        Ok((header, middle)) => if middle >= raw.len() {
            Err(Refusal::SingleItem)
        } else {
            match item::item_at(raw, middle, 0) {
                Err(f) => Err(Refusal::Payload(f)),
                Ok((payload, end)) => if end != raw.len() {
                    Err(Refusal::Trailing { extra: raw.len() - end, total: raw.len() as int })
                } else {
                    Ok((header, payload))
                },
            }
        },
    }
}

/// The header and the payload of a frame.
pub open spec fn decoded(raw: Seq<u8>) -> Result<(Tree, Tree), Refusal> {
    match two_items(raw) {
        Ok((header, payload)) => Ok((cbor::tree_of(header), cbor::tree_of(payload))),
        Err(refusal) => Err(refusal),
    }
}

/// The integer under `key`, in 64 bits.
pub open spec fn integer_field(tree: Tree, key: Seq<char>) -> Option<int> {
    match cbor::field_of(tree, key) {
        Some(Tree::Integer(n)) => Some(wrap_i64(n)),
        _ => None,
    }
}

/// The text under `key`.
pub open spec fn text_field(tree: Tree, key: Seq<char>) -> Option<Seq<char>> {
    match cbor::field_of(tree, key) {
        Some(Tree::Text(s)) => Some(s),
        _ => None,
    }
}

/// The fields of a frame with this header and this payload.
pub open spec fn fields_of(header: Tree, payload: Tree) -> Result<Fields, Refusal> {
    match integer_field(header, "op"@) {
        None => Err(Refusal::MissingOp),
        Some(op) => {
            let t = text_field(header, "t"@);
            if op == 1 && t is None {
                Err(Refusal::MissingType)
            } else {
                Ok(Fields { op, t, seq: integer_field(payload, "seq"@) })
            }
        },
    }
}

/// The fields of a frame.
pub open spec fn parsed(raw: Seq<u8>) -> Result<Fields, Refusal> {
    match decoded(raw) {
        Ok((header, payload)) => fields_of(header, payload),
        Err(refusal) => Err(refusal),
    }
}

/// The 64-bit two's complement number that `n` wraps to.
pub open spec fn wrap_i64(n: int) -> int {
    (n + 0x8000_0000_0000_0000) % 0x1_0000_0000_0000_0000 - 0x8000_0000_0000_0000
}

/// Keeps the low 64 bits of `n`.
fn low_i64(n: i128) -> (r: i64)
    ensures
        r == wrap_i64(n as int),
{
    proof {
        assert((n + 0x8000_0000_0000_0000) % 0x1_0000_0000_0000_0000 - 0x8000_0000_0000_0000
            == n as i64) by (bit_vector);
    }
    n as i64
}

/// A text that may be missing.
pub open spec fn text_of(s: Option<String>) -> Option<Seq<char>> {
    match s {
        Some(s) => Some(s@),
        None => None,
    }
}

/// An integer that may be missing.
pub open spec fn int_of(n: Option<i64>) -> Option<int> {
    match n {
        Some(n) => Some(n as int),
        None => None,
    }
}

/// The fields that these values hold.
pub open spec fn held(op: i64, t: Option<String>, seq: Option<i64>) -> Fields {
    Fields { op: op as int, t: text_of(t), seq: int_of(seq) }
}

/// The integer under `key`, in 64 bits.
pub fn read_integer(v: &Cbor, key: &str) -> (r: Option<i64>)
    ensures
        int_of(r) == integer_field(v@, key@),
{
    match field(v, key) {
        Some(Cbor::Integer(n)) => Some(low_i64(*n)),
        _ => None,
    }
}

/// The text under `key`.
pub fn read_text(v: &Cbor, key: &str) -> (r: Option<String>)
    ensures
        text_of(r) == text_field(v@, key@),
{
    match field(v, key) {
        Some(Cbor::Text(s)) => Some(s.clone()),
        _ => None,
    }
}

/// Reads the fields off a decoded frame and keeps its bytes.
pub fn read_fields(header: &Cbor, payload: &Cbor) -> (r: Result<
    (i64, Option<String>, Option<i64>),
    FrameError,
>)
    ensures
        match (r, fields_of(header@, payload@)) {
            (Ok((op, t, seq)), Ok(fields)) => held(op, t, seq) == fields,
            (Err(e), Err(refusal)) => e@ == refusal,
            _ => false,
        },
{
    let op = match read_integer(header, "op") {
        Some(op) => op,
        None => {
            return Err(FrameError::MissingOp);
        },
    };
    let t = read_text(header, "t");
    if op == 1 && t.is_none() {
        return Err(FrameError::MissingType);
    }
    Ok((op, t, read_integer(payload, "seq")))
}

impl Frame {
    /// Decode the two CBOR objects (header, payload) of a wire frame, after
    /// validating both as DRISL. The validator also pins the exact
    /// header/payload boundary and rejects trailing bytes.
    pub fn decode(raw: &[u8]) -> (r: Result<(Cbor, Cbor), FrameError>)
        ensures
            match (r, decoded(raw@)) {
                (Ok((header, payload)), Ok((h, p))) => header@ == h && payload@ == p,
                (Err(e), Err(refusal)) => e@ == refusal,
                _ => false,
            },
    {
        let header_end = match drisl::validate(raw, 0) {
            Ok(end) => end,
            Err(e) => {
                return Err(FrameError::Header(e));
            },
        };
        if header_end >= raw.len() {
            return Err(FrameError::SingleItem);
        }
        let payload_end = match drisl::validate(raw, header_end) {
            Ok(end) => end,
            Err(e) => {
                return Err(FrameError::Payload(e));
            },
        };
        if payload_end != raw.len() {
            return Err(
                FrameError::Trailing { extra: raw.len() - payload_end, total: raw.len() },
            );
        }
        let (head, body) = raw.split_at(header_end);
        proof {
            assert(head@.subrange(0, header_end as int) =~= raw@.subrange(0, header_end as int));
            drisl::laws::law_end_is_decided_by_the_item(raw@, head@, 0, 0);
            drisl::laws::law_item_moves(raw@, header_end as int, 0);
            assert(body@ =~= raw@.skip(header_end as int));
        }
        let header = match decode_item(head) {
            Ok((header, _)) => header,
            Err(cause) => {
                return Err(FrameError::HeaderCbor(cause));
            },
        };
        let payload = match decode_item(body) {
            Ok((payload, _)) => payload,
            Err(cause) => {
                return Err(FrameError::PayloadCbor(cause));
            },
        };
        Ok((header, payload))
    }

    /// Decode a wire frame and read its fields; its bytes are kept as they
    /// are.
    pub fn parse(raw: Vec<u8>) -> (r: Result<Frame, FrameError>)
        ensures
            match (r, parsed(raw@)) {
                (Ok(frame), Ok(fields)) => {
                    &&& held(frame.op, frame.t, frame.seq) == fields
                    &&& frame.raw@ == raw@
                },
                (Err(e), Err(refusal)) => e@ == refusal,
                _ => false,
            },
    {
        let (header, payload) = Frame::decode(raw.as_slice())?;
        let (op, t, seq) = read_fields(&header, &payload)?;
        Ok(Frame { op, t, seq, raw })
    }
}

} // verus!
