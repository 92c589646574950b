//! What holds of bytes written as text: nothing is lost.

use vstd::prelude::*;

use crate::encoding;

verus! {

proof fn lemma_bit_is_small(data: Seq<u8>, k: int)
    ensures
        encoding::bit_at(data, k) < 2,
{
}

/// Two equal symbols have equal bits.
proof fn lemma_symbol_bits(a: Seq<u8>, b: Seq<u8>, start: int, width: nat, j: int)
    requires
        encoding::symbol(a, start, width) == encoding::symbol(b, start, width),
        0 <= j < width,
    ensures
        encoding::bit_at(a, start + j) == encoding::bit_at(b, start + j),
    decreases width,
{
    lemma_bit_is_small(a, start + width - 1);
    lemma_bit_is_small(b, start + width - 1);
    if j < width - 1 {
        lemma_symbol_bits(a, b, start, (width - 1) as nat, j);
    }
}

pub proof fn lemma_symbol_bound(data: Seq<u8>, start: int)
    ensures
        encoding::symbol(data, start, 5) < 32,
        encoding::symbol(data, start, 6) < 64,
{
    reveal_with_fuel(encoding::symbol, 7);
    lemma_bit_is_small(data, start);
    lemma_bit_is_small(data, start + 1);
    lemma_bit_is_small(data, start + 2);
    lemma_bit_is_small(data, start + 3);
    lemma_bit_is_small(data, start + 4);
    lemma_bit_is_small(data, start + 5);
}

proof fn lemma_half(x: nat, weight: nat)
    requires
        weight > 0,
    ensures
        x / weight == 2 * (x / (2 * weight)) + (x / weight) % 2,
{
    let q = x / weight;
    assert(x / (2 * weight) == q / 2) by {
        vstd::arithmetic::div_mod::lemma_div_denominator(x as int, weight as int, 2);
        assert(weight * 2 == 2 * weight);
    }
}

/// A byte is the sum of its bits.
proof fn lemma_byte_of_bits(x: u8)
    ensures
        x == 128 * encoding::bit_of(x, 0) + 64 * encoding::bit_of(x, 1) + 32 * encoding::bit_of(
            x,
            2,
        ) + 16 * encoding::bit_of(x, 3) + 8 * encoding::bit_of(x, 4) + 4 * encoding::bit_of(x, 5)
            + 2 * encoding::bit_of(x, 6) + encoding::bit_of(x, 7),
{
    let n = x as nat;
    lemma_half(n, 1);
    lemma_half(n, 2);
    lemma_half(n, 4);
    lemma_half(n, 8);
    lemma_half(n, 16);
    lemma_half(n, 32);
    lemma_half(n, 64);
    assert(n / 128 < 2);
    assert((n / 128) % 2 == n / 128);
}

proof fn lemma_bytes_of_bits(a: Seq<u8>, b: Seq<u8>)
    requires
        a.len() == b.len(),
        forall|k: int|
            0 <= k < 8 * a.len() ==> #[trigger] encoding::bit_at(a, k) == encoding::bit_at(b, k),
    ensures
        a == b,
{
    assert forall|i: int| 0 <= i < a.len() implies a[i] == b[i] by {
        assert forall|j: int| 0 <= j < 8 implies #[trigger] encoding::bit_of(a[i], j)
            == encoding::bit_of(b[i], j) by {
            let k = 8 * i + j;
            assert(k / 8 == i && k % 8 == j);
            assert(encoding::bit_at(a, k) == encoding::bit_at(b, k));
        }
        lemma_byte_of_bits(a[i]);
        lemma_byte_of_bits(b[i]);
    }
    assert(a =~= b);
}

proof fn lemma_base64_char_tells(x: nat, y: nat)
    requires
        x < 64,
        y < 64,
        encoding::base64_char(x) == encoding::base64_char(y),
    ensures
        x == y,
{
}

proof fn lemma_base32_char_tells(x: nat, y: nat)
    requires
        x < 32,
        y < 32,
        encoding::base32_char(x) == encoding::base32_char(y),
    ensures
        x == y,
{
}

proof fn lemma_base64_len(a: Seq<u8>, b: Seq<u8>)
    requires
        encoding::base64_text(a) == encoding::base64_text(b),
    ensures
        a.len() == b.len(),
{
    let s = encoding::base64_text(a);
    let t = encoding::base64_text(b);
    assert(s.len() == t.len());
    let m = (a.len() * 8 + 5) / 6;
    let n = (b.len() * 8 + 5) / 6;
    if m < n {
        lemma_symbol_bound(b, 6 * m as int);
        assert(s[m as int] == '=');
        assert(t[m as int] != '=');
    }
    if n < m {
        lemma_symbol_bound(a, 6 * n as int);
        assert(t[n as int] == '=');
        assert(s[n as int] != '=');
    }
}

/// Base64 text tells bytes apart: what was read raw is what was sent.
pub proof fn law_base64_is_faithful(a: Seq<u8>, b: Seq<u8>)
    requires
        encoding::base64_text(a) == encoding::base64_text(b),
    ensures
        a == b,
{
    lemma_base64_len(a, b);
    let s = encoding::base64_text(a);
    let t = encoding::base64_text(b);
    assert forall|k: int| 0 <= k < 8 * a.len() implies #[trigger] encoding::bit_at(a, k)
        == encoding::bit_at(b, k) by {
        let i = k / 6;
        assert(s[i] == t[i]);
        lemma_symbol_bound(a, 6 * i);
        lemma_symbol_bound(b, 6 * i);
        lemma_base64_char_tells(encoding::symbol(a, 6 * i, 6), encoding::symbol(b, 6 * i, 6));
        lemma_symbol_bits(a, b, 6 * i, 6, k - 6 * i);
    }
    lemma_bytes_of_bits(a, b);
}

/// Base32 text tells bytes apart.
pub proof fn law_base32_is_faithful(a: Seq<u8>, b: Seq<u8>)
    requires
        encoding::base32_text(a) == encoding::base32_text(b),
    ensures
        a == b,
{
    let s = encoding::base32_text(a);
    let t = encoding::base32_text(b);
    assert(s.len() == t.len());
    assert(a.len() == b.len());
    assert forall|k: int| 0 <= k < 8 * a.len() implies #[trigger] encoding::bit_at(a, k)
        == encoding::bit_at(b, k) by {
        let i = k / 5;
        assert(s[i] == t[i]);
        lemma_symbol_bound(a, 5 * i);
        lemma_symbol_bound(b, 5 * i);
        lemma_base32_char_tells(encoding::symbol(a, 5 * i, 5), encoding::symbol(b, 5 * i, 5));
        lemma_symbol_bits(a, b, 5 * i, 5, k - 5 * i);
    }
    lemma_bytes_of_bits(a, b);
}

proof fn lemma_symbol_in_first(a: Seq<u8>, b: Seq<u8>, start: int, width: nat)
    requires
        0 <= start,
        start + width <= 8 * a.len(),
    ensures
        encoding::symbol(a + b, start, width) == encoding::symbol(a, start, width),
    decreases width,
{
    if width > 0 {
        lemma_symbol_in_first(a, b, start, (width - 1) as nat);
    }
}

proof fn lemma_symbol_in_second(a: Seq<u8>, b: Seq<u8>, start: int, width: nat)
    requires
        8 * a.len() <= start,
    ensures
        encoding::symbol(a + b, start, width) == encoding::symbol(b, start - 8 * a.len(), width),
    decreases width,
{
    if width > 0 {
        lemma_symbol_in_second(a, b, start, (width - 1) as nat);
        let k = start + width - 1;
        let moved = k - 8 * a.len();
        assert(k / 8 == moved / 8 + a.len() && k % 8 == moved % 8);
    }
}

/// Base32 may be written piece by piece, as long as every piece but the last is
/// whole groups of five bytes.
pub proof fn law_base32_of_chunks(a: Seq<u8>, b: Seq<u8>)
    requires
        a.len() % 5 == 0,
    ensures
        encoding::base32_text(a + b) == encoding::base32_text(a) + encoding::base32_text(b),
{
    let whole = encoding::base32_text(a + b);
    let first = encoding::base32_text(a);
    let second = encoding::base32_text(b);
    let n = first.len() as int;
    assert(5 * n == 8 * a.len());
    assert(whole.len() == n + second.len());
    assert forall|i: int| 0 <= i < whole.len() implies whole[i] == (first + second)[i] by {
        if i < n {
            lemma_symbol_in_first(a, b, 5 * i, 5);
        } else {
            lemma_symbol_in_second(a, b, 5 * i, 5);
        }
    }
    assert(whole =~= first + second);
}

/// Base64 may be written piece by piece, as long as every piece but the last is
/// whole groups of three bytes.
pub proof fn law_base64_of_chunks(a: Seq<u8>, b: Seq<u8>)
    requires
        a.len() % 3 == 0,
    ensures
        encoding::base64_text(a + b) == encoding::base64_text(a) + encoding::base64_text(b),
{
    let whole = encoding::base64_text(a + b);
    let first = encoding::base64_text(a);
    let second = encoding::base64_text(b);
    let n = first.len() as int;
    assert(6 * n == 8 * a.len());
    assert(whole.len() == n + second.len());
    assert forall|i: int| 0 <= i < whole.len() implies whole[i] == (first + second)[i] by {
        if i < n {
            lemma_symbol_in_first(a, b, 6 * i, 6);
        } else {
            lemma_symbol_in_second(a, b, 6 * i, 6);
        }
    }
    assert(whole =~= first + second);
}

/// The bits of `data` are those of its bytes, the highest of the first byte
/// first, and zero past its end.
pub proof fn law_bits_are_those_of_the_bytes(data: Seq<u8>, i: int, k: int)
    ensures
        0 <= i < data.len() ==> data[i] == 128 * encoding::bit_at(data, 8 * i) + 64
            * encoding::bit_at(data, 8 * i + 1) + 32 * encoding::bit_at(data, 8 * i + 2) + 16
            * encoding::bit_at(data, 8 * i + 3) + 8 * encoding::bit_at(data, 8 * i + 4) + 4
            * encoding::bit_at(data, 8 * i + 5) + 2 * encoding::bit_at(data, 8 * i + 6)
            + encoding::bit_at(data, 8 * i + 7),
        encoding::bit_at(data, k) < 2,
        k >= 8 * data.len() ==> encoding::bit_at(data, k) == 0,
{
    if 0 <= i < data.len() {
        lemma_byte_of_bits(data[i]);
    }
}

/// A digit is the number that its bits make: five of them in base32, six in
/// base64, the first the highest.
pub proof fn law_digits_are_their_bits(data: Seq<u8>, start: int)
    ensures
        encoding::symbol(data, start, 5) == 16 * encoding::bit_at(data, start) + 8
            * encoding::bit_at(data, start + 1) + 4 * encoding::bit_at(data, start + 2) + 2
            * encoding::bit_at(data, start + 3) + encoding::bit_at(data, start + 4),
        encoding::symbol(data, start, 6) == 32 * encoding::bit_at(data, start) + 16
            * encoding::bit_at(data, start + 1) + 8 * encoding::bit_at(data, start + 2) + 4
            * encoding::bit_at(data, start + 3) + 2 * encoding::bit_at(data, start + 4)
            + encoding::bit_at(data, start + 5),
{
    reveal_with_fuel(encoding::symbol, 7);
}

/// Base32 has one character of its alphabet for every five bits begun, and no
/// padding.
pub proof fn law_base32_characters(data: Seq<u8>, i: int)
    ensures
        encoding::base32_text(data).len() == (data.len() * 8 + 4) / 5,
        0 <= i < (data.len() * 8 + 4) / 5 ==> encoding::base32_text(data)[i]
            == "ABCDEFGHIJKLMNOPQRSTUVWXYZ234567"@[encoding::symbol(data, 5 * i, 5) as int],
{
    reveal_strlit("ABCDEFGHIJKLMNOPQRSTUVWXYZ234567");
    lemma_symbol_bound(data, 5 * i);
}

/// Base64 has one character of its alphabet for every six bits begun, and is
/// padded to whole groups of four.
pub proof fn law_base64_characters(data: Seq<u8>, i: int)
    ensures
        encoding::base64_text(data).len() == 4 * ((data.len() + 2) / 3),
        0 <= i < (data.len() * 8 + 5) / 6 ==> encoding::base64_text(data)[i]
            == "ABCDEFGHIJKLMNOPQRSTUVWXYZabcdefghijklmnopqrstuvwxyz0123456789+/"@[encoding::symbol(
            data,
            6 * i,
            6,
        ) as int],
        (data.len() * 8 + 5) / 6 <= i < 4 * ((data.len() + 2) / 3) ==> encoding::base64_text(
            data,
        )[i] == '=',
{
    reveal_strlit("ABCDEFGHIJKLMNOPQRSTUVWXYZabcdefghijklmnopqrstuvwxyz0123456789+/");
    lemma_symbol_bound(data, 6 * i);
}

} // verus!
