//! DRISL validation.
//!
//! DRISL is a deterministic CBOR profile (a subset of CBOR/c,
//! draft-rundgren-cbor-core): the encoding that atproto records and at-sync
//! frames are supposed to use. atmoq takes the opinionated position that
//! everything across the stack only works on valid DRISL: the relay rejects
//! invalid DRISL at ingest (a deliberate semantic difference from the upstream
//! lenient WebSocket relay, as a forcing function for ecosystem strictness).
//!
//! The rules, those that it has from CBOR/c among them:
//! - definite lengths only (no indefinite-length items, no break code)
//! - minimal-length ("preferred") encoding of every int and length argument
//! - map keys must be text strings, unique, and sorted in bytewise
//!   lexicographic order of their encoded bytes (for text keys this is the
//!   same order as DAG-CBOR's length-first rule)
//! - floats must be 64-bit (never half/single precision); NaN and infinities
//!   are rejected (negative zero is the only allowed special value)
//! - tag 42 (CID) is the only allowed tag; its content must be a byte string
//!   with the historical 0x00 multibase prefix
//! - the only allowed simple values are false, true, and null
//! - text strings must be valid UTF-8
//!
//! Validation is a single pass over the raw bytes that also returns the end
//! offset of each item, which is exactly what at-sync frame parsing needs to
//! locate the header/payload boundary.

pub mod item;
pub mod laws;
pub mod rules;

use vstd::prelude::*;
use vstd::utf8;

use crate::drisl::item::{Fault, Item, MAX_DEPTH};
use crate::order;
use crate::order::{compare, Order};
use crate::powers;
use crate::text;
use crate::text::{push_decimal, push_text};

verus! {

/// A DRISL violation, with the byte offset where it was found.
#[derive(Debug, Clone, PartialEq, Eq)]
pub struct DrislError {
    pub offset: usize,
    pub message: String,
}

impl DrislError {
    pub open spec fn view(self) -> Fault {
        Fault { offset: self.offset as int, message: self.message@ }
    }

    /// The violation as one line of text.
    pub fn to_text(&self) -> (r: String)
        ensures
            r@ == self@.text(),
    {
        let mut out = String::new();
        push_text(&mut out, "invalid DRISL at byte ");
        push_decimal(&mut out, self.offset as u64);
        push_text(&mut out, ": ");
        push_text(&mut out, self.message.as_str());
        proof {
            assert(out@ =~= self@.text());
        }
        out
    }
}

/// What a validation returned is what the bytes denote: the same end, or the
/// same fault.
pub open spec fn agrees<T>(r: Result<usize, DrislError>, at: Result<(T, int), Fault>) -> bool {
    match (r, at) {
        (Ok(end), Ok((_, expected))) => end == expected,
        (Err(e), Err(f)) => e@ == f,
        _ => false,
    }
}

fn err(offset: usize, message: &str) -> (e: DrislError)
    ensures
        e@ == (Fault { offset: offset as int, message: message@ }),
{
    DrislError { offset, message: message.to_owned() }
}

/// An error whose message is `before`, a number, `after`.
fn err_number(offset: usize, before: &str, number: u64, after: &str) -> (e: DrislError)
    ensures
        e@ == (Fault {
            offset: offset as int,
            message: before@ + text::decimal(number as nat) + after@,
        }),
{
    let mut message = String::new();
    push_text(&mut message, before);
    push_decimal(&mut message, number);
    push_text(&mut message, after);
    proof {
        assert(message@ =~= before@ + text::decimal(number as nat) + after@);
    }
    DrislError { offset, message }
}

/// An error whose message is `before`, `what`, `after`.
fn err_about(offset: usize, before: &str, what: &str, after: &str) -> (e: DrislError)
    ensures
        e@ == (Fault { offset: offset as int, message: before@ + what@ + after@ }),
{
    let mut message = String::new();
    push_text(&mut message, before);
    push_text(&mut message, what);
    push_text(&mut message, after);
    proof {
        assert(message@ =~= before@ + what@ + after@);
    }
    DrislError { offset, message }
}

fn err_non_minimal(offset: usize, what: &str, value: u64, width: u64) -> (e: DrislError)
    ensures
        e@ == (Fault {
            offset: offset as int,
            message: "non-minimal encoding of "@ + what@ + " "@ + text::decimal(value as nat)
                + " ("@ + text::decimal(width as nat) + "-byte argument)"@,
        }),
{
    let mut message = String::new();
    push_text(&mut message, "non-minimal encoding of ");
    push_text(&mut message, what);
    push_text(&mut message, " ");
    push_decimal(&mut message, value);
    push_text(&mut message, " (");
    push_decimal(&mut message, width);
    push_text(&mut message, "-byte argument)");
    proof {
        assert(message@ =~= "non-minimal encoding of "@ + what@ + " "@ + text::decimal(
            value as nat,
        ) + " ("@ + text::decimal(width as nat) + "-byte argument)"@);
    }
    DrislError { offset, message }
}

fn err_nesting(offset: usize) -> (e: DrislError)
    ensures
        e@ == (Fault {
            offset: offset as int,
            message: "nesting deeper than "@ + text::decimal(MAX_DEPTH as nat),
        }),
{
    let mut message = String::new();
    push_text(&mut message, "nesting deeper than ");
    push_decimal(&mut message, MAX_DEPTH as u64);
    proof {
        assert(message@ =~= "nesting deeper than "@ + text::decimal(MAX_DEPTH as nat));
    }
    DrislError { offset, message }
}

/// Whether `data` is UTF-8, as `std::str::from_utf8` decides it.
#[verifier::external_body]
fn is_utf8(data: &[u8]) -> (r: bool)
    ensures
        r == utf8::valid_utf8(data@),
{
    std::str::from_utf8(data).is_ok()
}

/// The big-endian number in `data[start..end]`.
fn read_be(data: &[u8], start: usize, end: usize) -> (r: u64)
    requires
        start <= end <= data@.len(),
        end - start <= 8,
    ensures
        r == item::be_value(data@.subrange(start as int, end as int)),
{
    let mut value: u64 = 0;
    let mut i: usize = start;
    proof {
        assert(data@.subrange(start as int, start as int) =~= Seq::empty());
        item::lemma_be_value_bound(data@.subrange(start as int, start as int));
    }
    while i < end
        invariant
            start <= i <= end <= data@.len(),
            end - start <= 8,
            value == item::be_value(data@.subrange(start as int, i as int)),
        decreases end - i,
    {
        proof {
            let s = data@.subrange(start as int, i as int);
            let t = data@.subrange(start as int, i + 1);
            assert(t.drop_last() =~= s);
            item::lemma_be_value_bound(s);
            item::lemma_be_value_bound(t);
            powers::lemma_pow256_le(t.len(), 8);
            powers::lemma_pow256_values();
        }
        value = value * 256 + data[i] as u64;
        i = i + 1;
    }
    value
}

/// Read the argument (value or length) for an initial byte, enforcing minimal
/// encoding. Returns (value, offset just past the argument).
fn read_arg(data: &[u8], offset: usize, what: &str) -> (r: Result<(u64, usize), DrislError>)
    requires
        offset < data@.len(),
    ensures
        match (r, item::arg_at(data@, offset as int, what@)) {
            (Ok((value, end)), Ok((v, e))) => value == v && end == e && offset < end <= data@.len(),
            (Err(x), Err(f)) => x@ == f,
            _ => false,
        },
{
    let info = data[offset] % 32;
    if info < 24 {
        return Ok((info as u64, offset + 1));
    }
    if info > 27 {
        // 28-30 are reserved; 31 is indefinite-length / break.
        proof {
            reveal_strlit("");
            let message = "reserved additional-info value "@ + text::decimal(info as nat);
            assert(message + ""@ =~= message);
        }
        return if info == 31 {
            Err(err_about(offset, "indefinite-length ", what, " is not allowed"))
        } else {
            Err(err_number(offset, "reserved additional-info value ", info as u64, ""))
        };
    }
    let width: usize = if info == 24 {
        1
    } else if info == 25 {
        2
    } else if info == 26 {
        4
    } else {
        8
    };
    if data.len() - offset - 1 < width {
        return Err(err_about(offset, "truncated ", what, " argument"));
    }
    let end = offset + 1 + width;
    let value = read_be(data, offset + 1, end);
    let least: u64 = if info == 24 {
        24
    } else if info == 25 {
        256
    } else if info == 26 {
        65536
    } else {
        4294967296
    };
    if value < least {
        return Err(err_non_minimal(offset, what, value, width as u64));
    }
    Ok((value, end))
}

/// Validate the byte or text string at `offset`.
fn validate_string(data: &[u8], offset: usize, text: bool) -> (r: Result<usize, DrislError>)
    requires
        offset < data@.len(),
    ensures
        agrees(
            r,
            if text {
                item::text_at(data@, offset as int)
            } else {
                item::bytes_at(data@, offset as int)
            },
        ),
        r matches Ok(end) ==> offset < end <= data@.len(),
{
    let what = if text {
        "text string length"
    } else {
        "byte string length"
    };
    let (len, start) = read_arg(data, offset, what)?;
    if len > (data.len() - start) as u64 {
        return Err(err(start, "truncated string body"));
    }
    let end = start + len as usize;
    if text && !is_utf8(&data[start..end]) {
        return Err(err(start, "text string is not valid UTF-8"));
    }
    Ok(end)
}

/// Validate the simple value or float at `offset`.
fn validate_simple(data: &[u8], offset: usize) -> (r: Result<usize, DrislError>)
    requires
        offset < data@.len(),
    ensures
        agrees(r, item::simple_at(data@, offset as int)),
        r matches Ok(end) ==> offset < end <= data@.len(),
{
    let initial = data[offset];
    match initial {
        0xf4 | 0xf5 | 0xf6 => Ok(offset + 1),
        0xfb => {
            // 64-bit float: the only float width DRISL allows.
            if data.len() - offset < 9 {
                return Err(err(offset, "truncated float64"));
            }
            let bits = read_be(data, offset + 1, offset + 9);
            let full = (bits / 0x10_0000_0000_0000) % 2048 == 2047;
            let fraction = bits % 0x10_0000_0000_0000;
            if full && fraction != 0 {
                return Err(err(offset, "NaN is not allowed"));
            }
            if full {
                return Err(err(offset, "infinity is not allowed"));
            }
            Ok(offset + 9)
        },
        0xf9 => Err(
            err(offset, "half-precision float is not allowed (floats must be 64-bit)"),
        ),
        0xfa => Err(
            err(offset, "single-precision float is not allowed (floats must be 64-bit)"),
        ),
        0xf7 => Err(err(offset, "undefined is not allowed")),
        0xff => Err(err(offset, "unexpected break code")),
        _ => {
            let info = initial % 32;
            let value: u8 = if info != 24 {
                info
            } else if offset + 1 < data.len() {
                data[offset + 1]
            } else {
                0
            };
            Err(
                err_number(
                    offset,
                    "simple value ",
                    value as u64,
                    " is not allowed (only false/true/null)",
                ),
            )
        },
    }
}

/// Validate the tagged item at `offset`, `depth` levels down.
fn validate_link(data: &[u8], offset: usize, depth: usize) -> (r: Result<usize, DrislError>)
    requires
        offset < data@.len(),
    ensures
        agrees(r, item::link_at(data@, offset as int, depth as int)),
        r matches Ok(end) ==> offset < end <= data@.len(),
{
    let (tag, start) = read_arg(data, offset, "tag")?;
    if tag != 42 {
        return Err(err_number(offset, "tag ", tag, " is not allowed (only tag 42/CID)"));
    }
    if start >= data.len() || data[start] / 32 != 2 {
        return Err(err(start, "tag 42 content must be a byte string"));
    }
    if depth >= MAX_DEPTH {
        return Err(err_nesting(start));
    }
    let end = validate_string(data, start, false)?;
    // The byte string body starts after its own head; check the 0x00 prefix.
    let (_, body) = read_arg(data, start, "byte string length")?;
    if end == body || data[body] != 0x00 {
        return Err(err(body, "tag 42 CID must start with the 0x00 prefix"));
    }
    Ok(end)
}

/// Validate the map key at `offset`, `depth` levels down. `before` is where
/// the key before it starts and ends.
fn validate_key(data: &[u8], offset: usize, before: Option<(usize, usize)>, depth: usize) -> (r:
    Result<usize, DrislError>)
    requires
        before matches Some((s, e)) ==> s <= e <= data@.len(),
    ensures
        agrees(
            r,
            item::key_at(
                data@,
                offset as int,
                match before {
                    Some((s, e)) => Some(data@.subrange(s as int, e as int)),
                    None => None,
                },
                depth as int,
            ),
        ),
        r matches Ok(end) ==> offset < end <= data@.len(),
{
    if offset >= data.len() {
        return Err(err(offset, "truncated: expected a map key"));
    }
    if data[offset] / 32 != 3 {
        return Err(err(offset, "map key is not a text string"));
    }
    if depth > MAX_DEPTH {
        return Err(err_nesting(offset));
    }
    let end = validate_string(data, offset, true)?;
    if let Some((s, e)) = before {
        match compare(&data[s..e], &data[offset..end]) {
            Order::Equal => {
                return Err(err(offset, "duplicate map key"));
            },
            Order::Greater => {
                return Err(err(offset, "map keys are not in bytewise lexicographic order"));
            },
            Order::Less => {
                proof {
                    order::lemma_lex_less_irreflexive(data@.subrange(s as int, e as int));
                }
            },
        }
    }
    Ok(end)
}

#[verifier::loop_isolation(false)]
fn validate_item(data: &[u8], offset: usize, depth: usize) -> (r: Result<usize, DrislError>)
    requires
        depth <= MAX_DEPTH + 1,
    ensures
        agrees(r, item::item_at(data@, offset as int, depth as int)),
        r matches Ok(end) ==> offset < end <= data@.len(),
    decreases MAX_DEPTH + 1 - depth,
{
    if depth > MAX_DEPTH {
        return Err(err_nesting(offset));
    }
    if offset >= data.len() {
        return Err(err(offset, "truncated: expected an item"));
    }
    let initial = data[offset];
    match initial / 32 {
        0 => Ok(read_arg(data, offset, "uint")?.1),
        1 => Ok(read_arg(data, offset, "negint")?.1),
        2 => validate_string(data, offset, false),
        3 => validate_string(data, offset, true),
        4 => {
            let (count, start) = read_arg(data, offset, "array length")?;
            let mut cursor = start;
            let mut done: u64 = 0;
            let ghost mut seen: Seq<Item> = Seq::empty();
            while done < count
                invariant
                    done <= count,
                    offset < cursor <= data@.len(),
                    depth <= MAX_DEPTH,
                    item::items_at(data@, start as int, count as nat, depth + 1) == (
                    match item::items_at(
                        data@,
                        cursor as int,
                        (count - done) as nat,
                        depth + 1,
                    ) {
                        Ok((rest, end)) => Ok((seen + rest, end)),
                        Err(f) => Err(f),
                    }),
                decreases count - done,
            {
                let next = validate_item(data, cursor, depth + 1)?;
                proof {
                    let at = item::item_at(data@, cursor as int, depth + 1);
                    let rest = item::items_at(
                        data@,
                        next as int,
                        (count - done - 1) as nat,
                        depth + 1,
                    );
                    if rest is Ok {
                        assert(seen + (seq![at->Ok_0.0] + rest->Ok_0.0) =~= seen.push(at->Ok_0.0)
                            + rest->Ok_0.0);
                    }
                    seen = seen.push(at->Ok_0.0);
                }
                cursor = next;
                done = done + 1;
            }
            Ok(cursor)
        },
        5 => {
            let (count, start) = read_arg(data, offset, "map length")?;
            let mut cursor = start;
            let mut done: u64 = 0;
            let mut before: Option<(usize, usize)> = None;
            let ghost mut seen: Seq<(Seq<u8>, Item)> = Seq::empty();
            while done < count
                invariant
                    done <= count,
                    offset < cursor <= data@.len(),
                    depth <= MAX_DEPTH,
                    before matches Some((s, e)) ==> s <= e <= data@.len(),
                    item::entries_at(data@, start as int, count as nat, None, depth + 1) == (
                    match item::entries_at(
                        data@,
                        cursor as int,
                        (count - done) as nat,
                        match before {
                            Some((s, e)) => Some(data@.subrange(s as int, e as int)),
                            None => None,
                        },
                        depth + 1,
                    ) {
                        Ok((rest, end)) => Ok((seen + rest, end)),
                        Err(f) => Err(f),
                    }),
                decreases count - done,
            {
                let key_end = validate_key(data, cursor, before, depth + 1)?;
                let next = validate_item(data, key_end, depth + 1)?;
                proof {
                    let key = item::key_at(
                        data@,
                        cursor as int,
                        match before {
                            Some((s, e)) => Some(data@.subrange(s as int, e as int)),
                            None => None,
                        },
                        depth + 1,
                    )->Ok_0.0;
                    let value = item::item_at(data@, key_end as int, depth + 1)->Ok_0.0;
                    let rest = item::entries_at(
                        data@,
                        next as int,
                        (count - done - 1) as nat,
                        Some(data@.subrange(cursor as int, key_end as int)),
                        depth + 1,
                    );
                    if rest is Ok {
                        assert(seen + (seq![(key, value)] + rest->Ok_0.0) =~= seen.push(
                            (key, value),
                        ) + rest->Ok_0.0);
                    }
                    seen = seen.push((key, value));
                }
                before = Some((cursor, key_end));
                cursor = next;
                done = done + 1;
            }
            Ok(cursor)
        },
        6 => validate_link(data, offset, depth),
        _ => validate_simple(data, offset),
    }
}

/// Validate one complete DRISL item starting at `offset`; returns the offset
/// just past the item.
pub fn validate(data: &[u8], offset: usize) -> (r: Result<usize, DrislError>)
    ensures
        agrees(r, item::item_at(data@, offset as int, 0)),
        r matches Ok(end) ==> offset < end <= data@.len(),
{
    validate_item(data, offset, 0)
}

/// The fault of a document that is one item with `extra` bytes after it.
pub open spec fn trailing_fault(end: int, extra: nat) -> Fault {
    Fault { offset: end, message: text::decimal(extra) + " trailing byte(s) after item"@ }
}

/// Validate that `data` is exactly one complete DRISL item: no trailing bytes.
pub fn validate_exact(data: &[u8]) -> (r: Result<(), DrislError>)
    ensures
        match item::item_at(data@, 0, 0) {
            Ok((_, end)) => if end == data@.len() {
                r is Ok
            } else {
                r matches Err(e) && e@ == trailing_fault(end, (data@.len() - end) as nat)
            },
            Err(f) => r matches Err(e) && e@ == f,
        },
{
    let end = validate(data, 0)?;
    if end != data.len() {
        let mut message = String::new();
        push_decimal(&mut message, (data.len() - end) as u64);
        push_text(&mut message, " trailing byte(s) after item");
        proof {
            assert(message@ =~= text::decimal((data@.len() - end) as nat)
                + " trailing byte(s) after item"@);
        }
        return Err(DrislError { offset: end, message });
    }
    Ok(())
}

} // verus!
