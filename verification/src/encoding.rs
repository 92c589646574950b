//! Bytes written as text: base32 and base64.

pub mod laws;

use vstd::prelude::*;

use crate::text::push_text;

verus! {

/// Bit `j` of a byte, from the highest on.
pub open spec fn bit_of(byte: u8, j: int) -> nat {
    let weight: nat = if j == 0 {
        128
    } else if j == 1 {
        64
    } else if j == 2 {
        32
    } else if j == 3 {
        16
    } else if j == 4 {
        8
    } else if j == 5 {
        4
    } else if j == 6 {
        2
    } else {
        1
    };
    (byte as nat / weight) % 2
}

/// Bit `k` of `data`, from the first byte's highest on; zero past the end.
pub open spec fn bit_at(data: Seq<u8>, k: int) -> nat {
    if k / 8 < data.len() {
        bit_of(data[k / 8], k % 8)
    } else {
        0
    }
}

/// The number that `width` bits of `data` make, from bit `start` on.
pub open spec fn symbol(data: Seq<u8>, start: int, width: nat) -> nat
    decreases width,
{
    if width == 0 {
        0
    } else {
        2 * symbol(data, start, (width - 1) as nat) + bit_at(data, start + width - 1)
    }
}

/// The character of a base32 digit.
pub open spec fn base32_char(v: nat) -> char {
    if v < 26 {
        ('A' as int + v) as char
    } else {
        ('2' as int + v - 26) as char
    }
}

/// `data` in base32 (RFC 4648), without padding.
pub open spec fn base32_text(data: Seq<u8>) -> Seq<char> {
    Seq::new(((data.len() * 8 + 4) / 5) as nat, |i: int| base32_char(symbol(data, 5 * i, 5)))
}

/// The character of a base64 digit.
pub open spec fn base64_char(v: nat) -> char {
    if v < 26 {
        ('A' as int + v) as char
    } else if v < 52 {
        ('a' as int + v - 26) as char
    } else if v < 62 {
        ('0' as int + v - 52) as char
    } else if v == 62 {
        '+'
    } else {
        '/'
    }
}

/// `data` in base64 (RFC 4648), padded to whole groups of four characters.
pub open spec fn base64_text(data: Seq<u8>) -> Seq<char> {
    Seq::new(
        (4 * ((data.len() + 2) / 3)) as nat,
        |i: int|
            if i < (data.len() * 8 + 5) / 6 {
                base64_char(symbol(data, 6 * i, 6))
            } else {
                '='
            },
    )
}

/// `data` in base32 by `data_encoding::BASE32_NOPAD`: the RFC 4648 alphabet in
/// upper case, five bits to a character, the last one filled up with zero bits,
/// no padding. The call panics on more bytes than it can count the bits of.
#[verifier::external_body]
fn encode_base32(data: &[u8]) -> (r: String)
    requires
        data@.len() <= usize::MAX / 512,
    ensures
        r@ == base32_text(data@),
{
    data_encoding::BASE32_NOPAD.encode(data)
}

/// `data` in base64 by the engine `base64::engine::general_purpose::STANDARD`:
/// the RFC 4648 alphabet, six bits to a character, the last one filled up with
/// zero bits, padded with `=` to whole groups of four. The call panics where the
/// text would be longer than memory.
#[verifier::external_body]
fn encode_base64(data: &[u8]) -> (r: String)
    requires
        data@.len() <= usize::MAX / 4,
    ensures
        r@ == base64_text(data@),
{
    base64::Engine::encode(&base64::engine::general_purpose::STANDARD, data)
}

/// How many bytes are encoded at a time: whole groups of both encodings.
const CHUNK: usize = 3_000_000;

/// `data` in base32.
pub(crate) fn to_base32(data: &[u8]) -> (r: String)
    ensures
        r@ == base32_text(data@),
{
    let mut out = String::new();
    let mut at: usize = 0;
    proof {
        assert(out@ =~= base32_text(data@.take(0)));
    }
    while data.len() - at > CHUNK
        invariant
            at <= data@.len(),
            at % 5 == 0,
            out@ == base32_text(data@.take(at as int)),
        decreases data@.len() - at,
    {
        let end = at + CHUNK;
        let part = encode_base32(&data[at..end]);
        push_text(&mut out, part.as_str());
        proof {
            let chunk = data@.subrange(at as int, end as int);
            laws::law_base32_of_chunks(data@.take(at as int), chunk);
            assert(data@.take(end as int) =~= data@.take(at as int) + chunk);
        }
        at = end;
    }
    let part = encode_base32(&data[at..data.len()]);
    push_text(&mut out, part.as_str());
    proof {
        let chunk = data@.subrange(at as int, data@.len() as int);
        laws::law_base32_of_chunks(data@.take(at as int), chunk);
        assert(data@ =~= data@.take(at as int) + chunk);
    }
    out
}

/// `data` in base64.
pub(crate) fn to_base64(data: &[u8]) -> (r: String)
    ensures
        r@ == base64_text(data@),
{
    let mut out = String::new();
    let mut at: usize = 0;
    proof {
        assert(out@ =~= base64_text(data@.take(0)));
    }
    while data.len() - at > CHUNK
        invariant
            at <= data@.len(),
            at % 3 == 0,
            out@ == base64_text(data@.take(at as int)),
        decreases data@.len() - at,
    {
        let end = at + CHUNK;
        let part = encode_base64(&data[at..end]);
        push_text(&mut out, part.as_str());
        proof {
            let chunk = data@.subrange(at as int, end as int);
            laws::law_base64_of_chunks(data@.take(at as int), chunk);
            assert(data@.take(end as int) =~= data@.take(at as int) + chunk);
        }
        at = end;
    }
    let part = encode_base64(&data[at..data.len()]);
    push_text(&mut out, part.as_str());
    proof {
        let chunk = data@.subrange(at as int, data@.len() as int);
        laws::law_base64_of_chunks(data@.take(at as int), chunk);
        assert(data@ =~= data@.take(at as int) + chunk);
    }
    out
}

} // verus!
