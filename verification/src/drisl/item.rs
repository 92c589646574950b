//! What a DRISL document is: its items, the one encoding of each, and what
//! the bytes at an offset denote.

use vstd::prelude::*;
use vstd::utf8;

use crate::order;
use crate::powers;
use crate::text;

verus! {

/// Deeply nested documents are rejected rather than risking stack exhaustion
/// (the validator recurses per level). Real atproto records nest a handful of
/// levels; 128 matches serde_ipld_dagcbor's recursion limit.
pub const MAX_DEPTH: usize = 128;

/// A DRISL item.
pub enum Item {
    Uint(nat),
    /// The integer `-1 - n`.
    Negint(nat),
    Bytes(Seq<u8>),
    /// A text string, by its UTF-8 bytes.
    Text(Seq<u8>),
    Array(Seq<Item>),
    /// A map, by its entries in order; a key is the UTF-8 bytes of its text.
    Dict(Seq<(Seq<u8>, Item)>),
    /// Tag 42 around a byte string: a CID link.
    Link(Seq<u8>),
    Bool(bool),
    Null,
    /// A 64-bit float, by its bits.
    Float(nat),
}

/// Where and why a document is no DRISL.
pub struct Fault {
    pub offset: int,
    pub message: Seq<char>,
}

impl Fault {
    /// The line of text that says where and why.
    pub open spec fn text(self) -> Seq<char> {
        "invalid DRISL at byte "@ + text::decimal(self.offset as nat) + ": "@ + self.message
    }
}

/// The number whose big-endian bytes `s` are.
pub open spec fn be_value(s: Seq<u8>) -> nat
    decreases s.len(),
{
    if s.len() == 0 {
        0
    } else {
        be_value(s.drop_last()) * 256 + s.last() as nat
    }
}

/// The low `width` bytes of `n`, big-endian.
pub open spec fn be_bytes(n: nat, width: nat) -> Seq<u8>
    decreases width,
{
    if width == 0 {
        Seq::empty()
    } else {
        be_bytes(n / 256, (width - 1) as nat).push((n % 256) as u8)
    }
}

/// How many bytes of argument follow an initial byte with additional
/// information `info`, from 24 to 27.
pub open spec fn arg_width(info: int) -> nat {
    if info == 24 {
        1
    } else if info == 25 {
        2
    } else if info == 26 {
        4
    } else {
        8
    }
}

/// The least argument that needs as many bytes as `info` announces.
pub open spec fn arg_least(info: int) -> nat {
    if info == 24 {
        24
    } else if info == 25 {
        256
    } else if info == 26 {
        65536
    } else {
        4294967296
    }
}

/// The shortest head of major type `major` with argument `n`.
pub open spec fn head(major: int, n: nat) -> Seq<u8> {
    if n < 24 {
        seq![(major * 32 + n) as u8]
    } else if n < 256 {
        seq![(major * 32 + 24) as u8] + be_bytes(n, 1)
    } else if n < 65536 {
        seq![(major * 32 + 25) as u8] + be_bytes(n, 2)
    } else if n < 4294967296 {
        seq![(major * 32 + 26) as u8] + be_bytes(n, 4)
    } else {
        seq![(major * 32 + 27) as u8] + be_bytes(n, 8)
    }
}

/// One past the largest argument that a head can carry.
pub open spec fn arg_limit() -> nat {
    0x1_0000_0000_0000_0000
}

/// The exponent of the 64-bit float with these bits is all ones.
pub open spec fn exponent_full(bits: nat) -> bool {
    (bits / 0x10_0000_0000_0000) % 2048 == 2047
}

/// The 64-bit float with these bits is no number.
pub open spec fn is_nan(bits: nat) -> bool {
    exponent_full(bits) && bits % 0x10_0000_0000_0000 != 0
}

/// The 64-bit float with these bits is plus or minus infinity.
pub open spec fn is_infinite(bits: nat) -> bool {
    exponent_full(bits) && bits % 0x10_0000_0000_0000 == 0
}

/// The encoding of a text string.
pub open spec fn encode_text(utf8: Seq<u8>) -> Seq<u8> {
    head(3, utf8.len()) + utf8
}

/// The encoding of an item.
pub open spec fn encode(item: Item) -> Seq<u8>
    decreases item,
{
    match item {
        Item::Uint(n) => head(0, n),
        Item::Negint(n) => head(1, n),
        Item::Bytes(b) => head(2, b.len()) + b,
        Item::Text(t) => encode_text(t),
        Item::Array(items) => head(4, items.len()) + encode_all(items),
        Item::Dict(entries) => head(5, entries.len()) + encode_entries(entries),
        Item::Link(cid) => head(6, 42) + head(2, cid.len()) + cid,
        Item::Bool(b) => seq![if b { 0xf5u8 } else { 0xf4u8 }],
        Item::Null => seq![0xf6u8],
        Item::Float(bits) => seq![0xfbu8] + be_bytes(bits, 8),
    }
}

/// The encodings of `items`, one after the other.
pub open spec fn encode_all(items: Seq<Item>) -> Seq<u8>
    decreases items,
{
    if items.len() == 0 {
        Seq::empty()
    } else {
        encode(items[0]) + encode_all(items.drop_first())
    }
}

/// The encodings of a map's entries, each key before its value.
pub open spec fn encode_entries(entries: Seq<(Seq<u8>, Item)>) -> Seq<u8>
    decreases entries,
{
    if entries.len() == 0 {
        Seq::empty()
    } else {
        encode_text(entries[0].0) + encode(entries[0].1) + encode_entries(entries.drop_first())
    }
}

/// Each key's encoding comes after the one before it, bytewise: keys are
/// sorted and none occurs twice.
pub open spec fn keys_ascend(entries: Seq<(Seq<u8>, Item)>) -> bool {
    forall|i: int, j: int|
        0 <= i < j < entries.len() ==> order::lex_less(
            encode_text(#[trigger] entries[i].0),
            encode_text(#[trigger] entries[j].0),
        )
}

/// `item` may stand in a document, `depth` levels below its top.
pub open spec fn fits(item: Item, depth: int) -> bool
    decreases item,
{
    &&& depth <= MAX_DEPTH
    &&& match item {
        Item::Uint(n) | Item::Negint(n) => n < arg_limit(),
        Item::Bytes(b) => b.len() < arg_limit(),
        Item::Text(t) => t.len() < arg_limit() && utf8::valid_utf8(t),
        Item::Array(items) => {
            &&& items.len() < arg_limit()
            &&& forall|i: int| 0 <= i < items.len() ==> fits(#[trigger] items[i], depth + 1)
        },
        Item::Dict(entries) => {
            &&& entries.len() < arg_limit()
            &&& keys_ascend(entries)
            &&& forall|i: int|
                0 <= i < entries.len() ==> {
                    &&& (#[trigger] entries[i]).0.len() < arg_limit()
                    &&& utf8::valid_utf8(entries[i].0)
                    &&& depth < MAX_DEPTH
                    &&& fits(entries[i].1, depth + 1)
                }
        },
        Item::Link(cid) => {
            &&& 0 < cid.len() < arg_limit()
            &&& cid[0] == 0
            &&& depth < MAX_DEPTH
        },
        Item::Bool(_) | Item::Null => true,
        Item::Float(bits) => bits < arg_limit() && !exponent_full(bits),
    }
}

pub open spec fn fault<T>(offset: int, message: Seq<char>) -> Result<T, Fault> {
    Err(Fault { offset, message })
}

/// The argument of the head at `offset` and the offset just past it. `what`
/// names the argument in messages.
pub open spec fn arg_at(data: Seq<u8>, offset: int, what: Seq<char>) -> Result<(nat, int), Fault> {
    let info = data[offset] as int % 32;
    if info < 24 {
        Ok((info as nat, offset + 1))
    } else if info == 31 {
        fault(offset, "indefinite-length "@ + what + " is not allowed"@)
    } else if info > 27 {
        fault(offset, "reserved additional-info value "@ + text::decimal(info as nat))
    } else {
        let end = offset + 1 + arg_width(info);
        if end > data.len() {
            fault(offset, "truncated "@ + what + " argument"@)
        } else {
            let value = be_value(data.subrange(offset + 1, end));
            if value < arg_least(info) {
                fault(
                    offset,
                    "non-minimal encoding of "@ + what + " "@ + text::decimal(value) + " ("@
                        + text::decimal(arg_width(info)) + "-byte argument)"@,
                )
            } else {
                Ok((value, end))
            }
        }
    }
}

/// The levels that may still open below `depth`.
pub open spec fn levels(depth: int) -> nat {
    if depth <= MAX_DEPTH {
        (MAX_DEPTH + 1 - depth) as nat
    } else {
        0
    }
}

/// The body of the string whose head stands at `offset`, and the offset just
/// past it.
pub open spec fn body_at(data: Seq<u8>, offset: int, what: Seq<char>) -> Result<
    (Seq<u8>, int),
    Fault,
> {
    match arg_at(data, offset, what) {
        Err(f) => Err(f),
        Ok((len, start)) => if start + len > data.len() {
            fault(start, "truncated string body"@)
        } else {
            Ok((data.subrange(start, start + len), start + len))
        },
    }
}

/// The byte string at `offset`.
pub open spec fn bytes_at(data: Seq<u8>, offset: int) -> Result<(Seq<u8>, int), Fault> {
    body_at(data, offset, "byte string length"@)
}

/// The text string at `offset`, by its UTF-8 bytes.
pub open spec fn text_at(data: Seq<u8>, offset: int) -> Result<(Seq<u8>, int), Fault> {
    match body_at(data, offset, "text string length"@) {
        Err(f) => Err(f),
        Ok((body, end)) => if utf8::valid_utf8(body) {
            Ok((body, end))
        } else {
            fault(end - body.len(), "text string is not valid UTF-8"@)
        },
    }
}

/// The simple value or float whose initial byte stands at `offset`.
pub open spec fn simple_at(data: Seq<u8>, offset: int) -> Result<(Item, int), Fault> {
    let initial = data[offset];
    if initial == 0xf4 {
        Ok((Item::Bool(false), offset + 1))
    } else if initial == 0xf5 {
        Ok((Item::Bool(true), offset + 1))
    } else if initial == 0xf6 {
        Ok((Item::Null, offset + 1))
    } else if initial == 0xfb {
        if offset + 9 > data.len() {
            fault(offset, "truncated float64"@)
        } else {
            let bits = be_value(data.subrange(offset + 1, offset + 9));
            if is_nan(bits) {
                fault(offset, "NaN is not allowed"@)
            } else if is_infinite(bits) {
                fault(offset, "infinity is not allowed"@)
            } else {
                Ok((Item::Float(bits), offset + 9))
            }
        }
    } else if initial == 0xf9 {
        fault(offset, "half-precision float is not allowed (floats must be 64-bit)"@)
    } else if initial == 0xfa {
        fault(offset, "single-precision float is not allowed (floats must be 64-bit)"@)
    } else if initial == 0xf7 {
        fault(offset, "undefined is not allowed"@)
    } else if initial == 0xff {
        fault(offset, "unexpected break code"@)
    } else {
        let info = initial as int % 32;
        let value = if info != 24 {
            info as nat
        } else if offset + 1 < data.len() {
            data[offset + 1] as nat
        } else {
            0
        };
        fault(
            offset,
            "simple value "@ + text::decimal(value) + " is not allowed (only false/true/null)"@,
        )
    }
}

/// The tagged item whose head stands at `offset`, `depth` levels down.
pub open spec fn link_at(data: Seq<u8>, offset: int, depth: int) -> Result<(Item, int), Fault> {
    match arg_at(data, offset, "tag"@) {
        Err(f) => Err(f),
        Ok((tag, start)) => if tag != 42 {
            fault(offset, "tag "@ + text::decimal(tag) + " is not allowed (only tag 42/CID)"@)
        } else if start >= data.len() || data[start] as int / 32 != 2 {
            fault(start, "tag 42 content must be a byte string"@)
        } else if depth >= MAX_DEPTH {
            fault(start, "nesting deeper than "@ + text::decimal(MAX_DEPTH as nat))
        } else {
            match bytes_at(data, start) {
                Err(f) => Err(f),
                Ok((cid, end)) => if cid.len() == 0 || cid[0] != 0 {
                    fault(end - cid.len(), "tag 42 CID must start with the 0x00 prefix"@)
                } else {
                    Ok((Item::Link(cid), end))
                },
            }
        },
    }
}

/// The item that starts at `offset`, `depth` levels down, and the offset just
/// past it; or the first fault in it.
pub open spec fn item_at(data: Seq<u8>, offset: int, depth: int) -> Result<(Item, int), Fault>
    decreases levels(depth), 0nat,
{
    if depth > MAX_DEPTH {
        fault(offset, "nesting deeper than "@ + text::decimal(MAX_DEPTH as nat))
    } else if offset >= data.len() {
        fault(offset, "truncated: expected an item"@)
    } else {
        let major = data[offset] as int / 32;
        if major == 0 {
            match arg_at(data, offset, "uint"@) {
                Ok((n, end)) => Ok((Item::Uint(n), end)),
                Err(f) => Err(f),
            }
        } else if major == 1 {
            match arg_at(data, offset, "negint"@) {
                Ok((n, end)) => Ok((Item::Negint(n), end)),
                Err(f) => Err(f),
            }
        } else if major == 2 {
            match bytes_at(data, offset) {
                Ok((bytes, end)) => Ok((Item::Bytes(bytes), end)),
                Err(f) => Err(f),
            }
        } else if major == 3 {
            match text_at(data, offset) {
                Ok((utf8, end)) => Ok((Item::Text(utf8), end)),
                Err(f) => Err(f),
            }
        } else if major == 4 {
            match arg_at(data, offset, "array length"@) {
                Ok((count, start)) => match items_at(data, start, count, depth + 1) {
                    Ok((items, end)) => Ok((Item::Array(items), end)),
                    Err(f) => Err(f),
                },
                Err(f) => Err(f),
            }
        } else if major == 5 {
            match arg_at(data, offset, "map length"@) {
                Ok((count, start)) => match entries_at(data, start, count, None, depth + 1) {
                    Ok((entries, end)) => Ok((Item::Dict(entries), end)),
                    Err(f) => Err(f),
                },
                Err(f) => Err(f),
            }
        } else if major == 6 {
            link_at(data, offset, depth)
        } else {
            simple_at(data, offset)
        }
    }
}

/// `count` items from `offset` on, each `depth` levels down.
pub open spec fn items_at(data: Seq<u8>, offset: int, count: nat, depth: int) -> Result<
    (Seq<Item>, int),
    Fault,
>
    decreases levels(depth), count + 1,
{
    if count == 0 {
        Ok((Seq::empty(), offset))
    } else {
        match item_at(data, offset, depth) {
            Err(f) => Err(f),
            Ok((first, next)) => match items_at(data, next, (count - 1) as nat, depth) {
                Err(f) => Err(f),
                Ok((rest, end)) => Ok((seq![first] + rest, end)),
            },
        }
    }
}

/// The map key at `offset`, `depth` levels down; `before` is the encoding of
/// the key before it.
pub open spec fn key_at(data: Seq<u8>, offset: int, before: Option<Seq<u8>>, depth: int) -> Result<
    (Seq<u8>, int),
    Fault,
> {
    if offset >= data.len() {
        fault(offset, "truncated: expected a map key"@)
    } else if data[offset] as int / 32 != 3 {
        fault(offset, "map key is not a text string"@)
    } else if depth > MAX_DEPTH {
        fault(offset, "nesting deeper than "@ + text::decimal(MAX_DEPTH as nat))
    } else {
        match text_at(data, offset) {
            Err(f) => Err(f),
            Ok((key, end)) => {
                let encoded = data.subrange(offset, end);
                if before == Some(encoded) {
                    fault(offset, "duplicate map key"@)
                } else if before is Some && !order::lex_less(before->0, encoded) {
                    fault(offset, "map keys are not in bytewise lexicographic order"@)
                } else {
                    Ok((key, end))
                }
            },
        }
    }
}

/// `count` map entries from `offset` on, each key and value `depth` levels
/// down; `before` is the encoding of the key before them.
pub open spec fn entries_at(
    data: Seq<u8>,
    offset: int,
    count: nat,
    before: Option<Seq<u8>>,
    depth: int,
) -> Result<(Seq<(Seq<u8>, Item)>, int), Fault>
    decreases levels(depth), count + 1,
{
    if count == 0 {
        Ok((Seq::empty(), offset))
    } else {
        match key_at(data, offset, before, depth) {
            Err(f) => Err(f),
            Ok((key, value_start)) => match item_at(data, value_start, depth) {
                Err(f) => Err(f),
                Ok((value, next)) => match entries_at(
                    data,
                    next,
                    (count - 1) as nat,
                    Some(data.subrange(offset, value_start)),
                    depth,
                ) {
                    Err(f) => Err(f),
                    Ok((rest, end)) => Ok((seq![(key, value)] + rest, end)),
                },
            },
        }
    }
}

/// A number of `n` bytes is below 256 to the power of `n`.
pub proof fn lemma_be_value_bound(s: Seq<u8>)
    ensures
        be_value(s) < powers::pow256(s.len()),
    decreases s.len(),
{
    if s.len() > 0 {
        lemma_be_value_bound(s.drop_last());
    }
}

} // verus!
