//! Text the relay reads and writes: decimal numbers, trimming, splitting.

pub mod laws;

use vstd::prelude::*;
use vstd::string::StringExecFns;
use vstd::utf8;

verus! {

/// Appends one character, as `std::string::String::push` documents.
pub assume_specification[ std::string::String::push ](s: &mut std::string::String, ch: char)
    ensures
        final(s)@ == old(s)@.push(ch),
;

/// The character of a decimal digit.
pub open spec fn digit(d: int) -> char {
    (48 + d) as char
}

/// `n` written in base ten, without leading zeros.
pub open spec fn decimal(n: nat) -> Seq<char>
    decreases n,
{
    if n < 10 {
        seq![digit(n as int)]
    } else {
        decimal(n / 10).push(digit((n % 10) as int))
    }
}

/// `n` written in base ten, with a minus sign where it is negative.
pub open spec fn signed_decimal(n: int) -> Seq<char> {
    if n < 0 {
        seq!['-'] + decimal((-n) as nat)
    } else {
        decimal(n as nat)
    }
}

fn digit_char(d: u8) -> (c: char)
    requires
        d < 10,
    ensures
        c == digit(d as int),
{
    (48u8 + d) as char
}

/// Appends `n` in base ten.
pub fn push_decimal(out: &mut String, n: u64)
    ensures
        final(out)@ == old(out)@ + decimal(n as nat),
    decreases n,
{
    let ghost before = out@;
    if n >= 10 {
        push_decimal(out, n / 10);
    }
    out.push(digit_char((n % 10) as u8));
    proof {
        assert(out@ =~= before + decimal(n as nat));
    }
}

/// Appends `n` in base ten.
pub fn push_decimal_wide(out: &mut String, n: u128)
    ensures
        final(out)@ == old(out)@ + decimal(n as nat),
    decreases n,
{
    let ghost before = out@;
    if n >= 10 {
        push_decimal_wide(out, n / 10);
    }
    out.push(digit_char((n % 10) as u8));
    proof {
        assert(out@ =~= before + decimal(n as nat));
    }
}

/// Appends `text`.
pub fn push_text(out: &mut String, text: &str)
    ensures
        final(out)@ == old(out)@ + text@,
{
    out.append(text);
}

/// Whether two byte slices hold the same bytes.
pub fn same_bytes(a: &[u8], b: &[u8]) -> (r: bool)
    ensures
        r == (a@ == b@),
{
    if a.len() != b.len() {
        return false;
    }
    let mut i: usize = 0;
    while i < a.len()
        invariant
            i <= a@.len(),
            a@.len() == b@.len(),
            forall|k: int| 0 <= k < i ==> a@[k] == b@[k],
        decreases a@.len() - i,
    {
        if a[i] != b[i] {
            return false;
        }
        i = i + 1;
    }
    proof {
        assert(a@ =~= b@);
    }
    true
}

/// Whether two texts are the same.
pub fn same_text(a: &str, b: &str) -> (r: bool)
    ensures
        r == (a@ == b@),
{
    proof {
        utf8::encode_utf8_decode_utf8(a@);
        utf8::encode_utf8_decode_utf8(b@);
    }
    same_bytes(a.as_bytes(), b.as_bytes())
}

/// The low `width` decimal digits of `n`.
pub open spec fn fixed_decimal(n: nat, width: nat) -> Seq<char>
    decreases width,
{
    if width == 0 {
        Seq::empty()
    } else {
        fixed_decimal(n / 10, (width - 1) as nat).push(digit((n % 10) as int))
    }
}

/// Appends the low `width` decimal digits of `n`.
pub fn push_fixed_decimal(out: &mut String, n: u64, width: u8)
    ensures
        final(out)@ == old(out)@ + fixed_decimal(n as nat, width as nat),
    decreases width,
{
    let ghost before = out@;
    if width > 0 {
        push_fixed_decimal(out, n / 10, width - 1);
        out.push(digit_char((n % 10) as u8));
    }
    proof {
        assert(out@ =~= before + fixed_decimal(n as nat, width as nat));
    }
}

/// The characters of a text.
pub fn chars_of(text: &str) -> (r: Vec<char>)
    ensures
        r@ == text@,
{
    let mut out: Vec<char> = Vec::new();
    for c in it: text.chars()
        invariant
            it.seq() == text@,
            out@ == text@.take(it.index() as int),
    {
        out.push(c);
        proof {
            assert(out@ =~= text@.take(it.index() + 1));
        }
    }
    proof {
        assert(text@.take(text@.len() as int) =~= text@);
    }
    out
}

/// Whether `text` starts with `prefix`.
pub open spec fn has_prefix(text: Seq<char>, prefix: Seq<char>) -> bool {
    &&& prefix.len() <= text.len()
    &&& text.take(prefix.len() as int) == prefix
}

/// Whether `text` starts with `prefix`.
pub fn starts_with(text: &[char], prefix: &[char]) -> (r: bool)
    ensures
        r == has_prefix(text@, prefix@),
{
    if prefix.len() > text.len() {
        return false;
    }
    let mut i: usize = 0;
    while i < prefix.len()
        invariant
            i <= prefix@.len() <= text@.len(),
            forall|k: int| 0 <= k < i ==> text@[k] == prefix@[k],
        decreases prefix@.len() - i,
    {
        if text[i] != prefix[i] {
            proof {
                assert(text@.take(prefix@.len() as int)[i as int] != prefix@[i as int]);
            }
            return false;
        }
        i = i + 1;
    }
    proof {
        assert(text@.take(prefix@.len() as int) =~= prefix@);
    }
    true
}

/// Whether `text` ends in `suffix`.
pub open spec fn has_suffix(text: Seq<char>, suffix: Seq<char>) -> bool {
    &&& suffix.len() <= text.len()
    &&& text.skip(text.len() - suffix.len()) == suffix
}

/// Whether `text` ends in `suffix`.
pub fn ends_with(text: &[char], suffix: &[char]) -> (r: bool)
    ensures
        r == has_suffix(text@, suffix@),
{
    if suffix.len() > text.len() {
        return false;
    }
    let start = text.len() - suffix.len();
    let ghost tail = text@.skip(start as int);
    let mut i: usize = 0;
    while i < suffix.len()
        invariant
            i <= suffix@.len(),
            start + suffix.len() == text.len(),
            tail == text@.skip(start as int),
            forall|k: int| 0 <= k < i ==> tail[k] == suffix@[k],
        decreases suffix@.len() - i,
    {
        if text[start + i] != suffix[i] {
            proof {
                assert(tail[i as int] != suffix@[i as int]);
            }
            return false;
        }
        i = i + 1;
    }
    proof {
        assert(tail =~= suffix@);
    }
    true
}

/// Appends `n` in base ten, with a minus sign where it is negative.
pub fn push_signed(out: &mut String, n: i64)
    ensures
        final(out)@ == old(out)@ + signed_decimal(n as int),
{
    let ghost before = out@;
    if n < 0 {
        out.push('-');
        push_decimal_wide(out, (-(n as i128)) as u128);
        proof {
            assert(out@ =~= before + signed_decimal(n as int));
        }
    } else {
        push_decimal(out, n as u64);
    }
}

/// The text of these characters.
pub fn string_of(chars: &[char]) -> (r: String)
    ensures
        r@ == chars@,
{
    let mut out = String::new();
    let mut i: usize = 0;
    while i < chars.len()
        invariant
            i <= chars@.len(),
            out@ == chars@.take(i as int),
        decreases chars@.len() - i,
    {
        out.push(chars[i]);
        proof {
            assert(out@ =~= chars@.take(i + 1));
        }
        i = i + 1;
    }
    proof {
        assert(chars@.take(i as int) =~= chars@);
    }
    out
}

/// Unicode's white space.
pub open spec fn is_white(c: char) -> bool {
    ||| '\u{9}' <= c <= '\u{d}'
    ||| c == '\u{20}'
    ||| c == '\u{85}'
    ||| c == '\u{a0}'
    ||| c == '\u{1680}'
    ||| '\u{2000}' <= c <= '\u{200a}'
    ||| c == '\u{2028}'
    ||| c == '\u{2029}'
    ||| c == '\u{202f}'
    ||| c == '\u{205f}'
    ||| c == '\u{3000}'
}

fn white(c: char) -> (r: bool)
    ensures
        r == is_white(c),
{
    ('\u{9}' <= c && c <= '\u{d}') || c == '\u{20}' || c == '\u{85}' || c == '\u{a0}' || c
        == '\u{1680}' || ('\u{2000}' <= c && c <= '\u{200a}') || c == '\u{2028}' || c == '\u{2029}' || c
        == '\u{202f}' || c == '\u{205f}' || c == '\u{3000}'
}

/// `text` without the white space at its start.
pub open spec fn trimmed_start(text: Seq<char>) -> Seq<char>
    decreases text.len(),
{
    if text.len() > 0 && is_white(text[0]) {
        trimmed_start(text.drop_first())
    } else {
        text
    }
}

/// `text` without the white space at its end.
pub open spec fn trimmed_end(text: Seq<char>) -> Seq<char>
    decreases text.len(),
{
    if text.len() > 0 && is_white(text.last()) {
        trimmed_end(text.drop_last())
    } else {
        text
    }
}

/// `text` without the white space around it.
pub open spec fn trimmed(text: Seq<char>) -> Seq<char> {
    trimmed_end(trimmed_start(text))
}

/// `text` without the white space at its start.
pub fn trim_start(text: &[char]) -> (r: &[char])
    ensures
        r@ == trimmed_start(text@),
{
    let mut start: usize = 0;
    proof {
        assert(text@.skip(0) =~= text@);
    }
    while start < text.len() && white(text[start])
        invariant
            start <= text@.len(),
            trimmed_start(text@) == trimmed_start(text@.skip(start as int)),
        decreases text@.len() - start,
    {
        proof {
            assert(text@.skip(start as int).drop_first() =~= text@.skip(start + 1));
        }
        start = start + 1;
    }
    let (_, rest) = text.split_at(start);
    proof {
        assert(rest@ =~= text@.skip(start as int));
    }
    rest
}

/// `text` without the white space around it.
pub fn trim(text: &[char]) -> (r: &[char])
    ensures
        r@ == trimmed(text@),
{
    let rest = trim_start(text);
    let mut end: usize = rest.len();
    proof {
        assert(rest@.take(end as int) =~= rest@);
    }
    while end > 0 && white(rest[end - 1])
        invariant
            end <= rest@.len(),
            trimmed_end(rest@) == trimmed_end(rest@.take(end as int)),
        decreases end,
    {
        proof {
            assert(rest@.take(end as int).drop_last() =~= rest@.take(end - 1));
        }
        end = end - 1;
    }
    let (kept, _) = rest.split_at(end);
    proof {
        assert(kept@ =~= rest@.take(end as int));
    }
    kept
}

/// Where `c` first stands in `text`; the end where it does not.
pub open spec fn index_of(text: Seq<char>, c: char) -> nat
    decreases text.len(),
{
    if text.len() == 0 || text[0] == c {
        0
    } else {
        index_of(text.drop_first(), c) + 1
    }
}

/// Where `c` first stands in `text`; the end where it does not.
pub fn find(text: &[char], c: char) -> (r: usize)
    ensures
        r == index_of(text@, c),
        r <= text@.len(),
{
    let mut i: usize = 0;
    proof {
        assert(text@.skip(0) =~= text@);
    }
    while i < text.len() && text[i] != c
        invariant
            i <= text@.len(),
            index_of(text@, c) == i + index_of(text@.skip(i as int), c),
        decreases text@.len() - i,
    {
        proof {
            assert(text@.skip(i as int).drop_first() =~= text@.skip(i + 1));
        }
        i = i + 1;
    }
    i
}

/// How many characters of `text` come before its first white space.
pub open spec fn word_len(text: Seq<char>) -> nat
    decreases text.len(),
{
    if text.len() == 0 || is_white(text[0]) {
        0
    } else {
        word_len(text.drop_first()) + 1
    }
}

/// The first word of `text`; empty where it has none.
pub open spec fn first_word(text: Seq<char>) -> Seq<char> {
    let rest = trimmed_start(text);
    rest.take(word_len(rest) as int)
}

/// What follows the first word of `text`.
pub open spec fn after_word(text: Seq<char>) -> Seq<char> {
    let rest = trimmed_start(text);
    rest.skip(word_len(rest) as int)
}

/// The first word of `text`, and what follows it.
pub fn split_word(text: &[char]) -> (r: (&[char], &[char]))
    ensures
        r.0@ == first_word(text@),
        r.1@ == after_word(text@),
{
    let rest = trim_start(text);
    let mut i: usize = 0;
    proof {
        assert(rest@.skip(0) =~= rest@);
    }
    while i < rest.len() && !white(rest[i])
        invariant
            i <= rest@.len(),
            word_len(rest@) == i + word_len(rest@.skip(i as int)),
        decreases rest@.len() - i,
    {
        proof {
            assert(rest@.skip(i as int).drop_first() =~= rest@.skip(i + 1));
        }
        i = i + 1;
    }
    let (word, after) = rest.split_at(i);
    proof {
        assert(word@ =~= rest@.take(i as int));
        assert(after@ =~= rest@.skip(i as int));
    }
    (word, after)
}

/// Every character is a decimal digit.
pub open spec fn all_digits(text: Seq<char>) -> bool {
    forall|i: int| 0 <= i < text.len() ==> '0' <= #[trigger] text[i] <= '9'
}

/// The number that these digits write.
pub open spec fn digits_value(text: Seq<char>) -> nat
    decreases text.len(),
{
    if text.len() == 0 {
        0
    } else {
        (digits_value(text.drop_last()) * 10 + (text.last() as int - 48)) as nat
    }
}

/// The number that `text` writes in base ten.
pub open spec fn unsigned(text: Seq<char>) -> Option<nat> {
    if text.len() > 0 && all_digits(text) {
        Some(digits_value(text))
    } else {
        None
    }
}

/// The unsigned 64-bit number that `text` writes: digits, after a plus sign or
/// none.
pub open spec fn parsed_u64(text: Seq<char>) -> Option<nat> {
    let digits = if text.len() > 0 && text[0] == '+' {
        text.skip(1)
    } else {
        text
    };
    match unsigned(digits) {
        Some(n) => if n <= u64::MAX {
            Some(n)
        } else {
            None
        },
        None => None,
    }
}

/// Why a text writes no 64-bit number.
#[derive(Debug, Clone, Copy, PartialEq, Eq, Structural)]
pub enum NumberFault {
    /// There is nothing in it.
    Empty,
    /// Something that is no digit stands where one belongs.
    InvalidDigit,
    /// The number is above the largest.
    TooLarge,
    /// The number is below the smallest.
    TooSmall,
}

impl NumberFault {
    /// The line of text that says what was wrong.
    pub open spec fn text(self) -> Seq<char> {
        match self {
            NumberFault::Empty => "cannot parse integer from empty string"@,
            NumberFault::InvalidDigit => "invalid digit found in string"@,
            NumberFault::TooLarge => "number too large to fit in target type"@,
            NumberFault::TooSmall => "number too small to fit in target type"@,
        }
    }

    /// What was wrong, as one line of text.
    pub fn to_text(&self) -> (r: String)
        ensures
            r@ == self.text(),
    {
        match self {
            NumberFault::Empty => "cannot parse integer from empty string".to_owned(),
            NumberFault::InvalidDigit => "invalid digit found in string".to_owned(),
            NumberFault::TooLarge => "number too large to fit in target type".to_owned(),
            NumberFault::TooSmall => "number too small to fit in target type".to_owned(),
        }
    }
}

/// How many digits `text` starts with.
pub open spec fn digit_run(text: Seq<char>) -> nat
    decreases text.len(),
{
    if text.len() > 0 && '0' <= text[0] <= '9' {
        digit_run(text.drop_first()) + 1
    } else {
        0
    }
}

/// A run of digits ends where something else comes, or at the end.
pub proof fn lemma_digit_run(text: Seq<char>, n: int)
    requires
        0 <= n <= text.len(),
        forall|i: int| 0 <= i < n ==> '0' <= #[trigger] text[i] <= '9',
        n == text.len() || !('0' <= text[n] <= '9'),
    ensures
        digit_run(text) == n,
    decreases n,
{
    if n > 0 {
        assert forall|i: int| 0 <= i < n - 1 implies '0' <= #[trigger] text.drop_first()[i]
            <= '9' by {
            assert(text.drop_first()[i] == text[i + 1]);
        }
        lemma_digit_run(text.drop_first(), n - 1);
    }
}

/// The signed 64-bit number that `text` writes: digits, after a sign or none.
/// Of several faults the first one counts.
pub open spec fn parsed_i64(text: Seq<char>) -> Result<int, NumberFault> {
    let negative = text.len() > 0 && text[0] == '-';
    let digits = if negative || (text.len() > 0 && text[0] == '+') {
        text.skip(1)
    } else {
        text
    };
    let run = digit_run(digits);
    let value = digits_value(digits.take(run as int));
    if text.len() == 0 {
        Err(NumberFault::Empty)
    } else if digits.len() == 0 {
        Err(NumberFault::InvalidDigit)
    } else if negative && -value < i64::MIN {
        Err(NumberFault::TooSmall)
    } else if !negative && value > i64::MAX {
        Err(NumberFault::TooLarge)
    } else if run < digits.len() {
        Err(NumberFault::InvalidDigit)
    } else {
        Ok(
            if negative {
                -value
            } else {
                value as int
            },
        )
    }
}

/// Reads the digits that `text` starts with: how many there are, and the number
/// that they write where it is below 2^64.
fn read_run(text: &[char]) -> (r: (usize, Option<u64>))
    ensures
        r.0 <= text@.len(),
        r.0 == digit_run(text@),
        all_digits(text@.take(r.0 as int)),
        r.0 < text@.len() ==> !('0' <= text@[r.0 as int] <= '9'),
        match r.1 {
            Some(n) => digits_value(text@.take(r.0 as int)) == n,
            None => digits_value(text@.take(r.0 as int)) > u64::MAX,
        },
{
    let mut value: u64 = 0;
    let mut i: usize = 0;
    let mut fits = true;
    while i < text.len() && '0' <= text[i] && text[i] <= '9'
        invariant
            i <= text@.len(),
            forall|k: int| 0 <= k < i ==> '0' <= #[trigger] text@[k] <= '9',
            fits ==> value == digits_value(text@.take(i as int)),
            !fits ==> digits_value(text@.take(i as int)) > u64::MAX,
        decreases text@.len() - i,
    {
        let d = (text[i] as u32 - 48) as u64;
        proof {
            assert(text@.take(i + 1).drop_last() =~= text@.take(i as int));
        }
        if fits {
            if value > (0xffff_ffff_ffff_ffff - d) / 10 {
                fits = false;
            } else {
                value = value * 10 + d;
            }
        }
        i = i + 1;
    }
    proof {
        lemma_digit_run(text@, i as int);
    }
    if fits {
        (i, Some(value))
    } else {
        (i, None)
    }
}

/// The number below 2^64 that `text` writes in base ten.
fn read_digits(text: &[char]) -> (r: Option<u64>)
    ensures
        match r {
            Some(n) => unsigned(text@) == Some(n as nat),
            None => unsigned(text@) is None || unsigned(text@)->0 > u64::MAX,
        },
{
    let (run, value) = read_run(text);
    if run == 0 || run < text.len() {
        proof {
            if text@.len() > 0 {
                assert(!('0' <= text@[run as int] <= '9'));
            }
        }
        return None;
    }
    proof {
        assert(text@.take(run as int) =~= text@);
    }
    value
}

/// Reads an unsigned 64-bit number.
pub fn parse_u64(text: &[char]) -> (r: Option<u64>)
    ensures
        match r {
            Some(n) => parsed_u64(text@) == Some(n as nat),
            None => parsed_u64(text@) is None,
        },
{
    if text.len() > 0 && text[0] == '+' {
        let (_, digits) = text.split_at(1);
        proof {
            assert(digits@ =~= text@.skip(1));
        }
        read_digits(digits)
    } else {
        read_digits(text)
    }
}

/// Reads a signed 64-bit number.
pub fn parse_i64(text: &[char]) -> (r: Result<i64, NumberFault>)
    ensures
        match (r, parsed_i64(text@)) {
            (Ok(n), Ok(value)) => n == value,
            (Err(x), Err(y)) => x == y,
            _ => false,
        },
{
    if text.len() == 0 {
        return Err(NumberFault::Empty);
    }
    let negative = text[0] == '-';
    let signed = negative || text[0] == '+';
    let (_, after) = text.split_at(1);
    proof {
        assert(after@ =~= text@.skip(1));
    }
    let digits = if signed {
        after
    } else {
        text
    };
    if digits.len() == 0 {
        return Err(NumberFault::InvalidDigit);
    }
    let (run, value) = read_run(digits);
    let limit: u64 = if negative {
        0x8000_0000_0000_0000
    } else {
        0x7fff_ffff_ffff_ffff
    };
    match value {
        Some(n) if n <= limit => if run < digits.len() {
            Err(NumberFault::InvalidDigit)
        } else if negative {
            Ok((-(n as i128)) as i64)
        } else {
            Ok(n as i64)
        },
        _ => if negative {
            Err(NumberFault::TooSmall)
        } else {
            Err(NumberFault::TooLarge)
        },
    }
}

/// An ASCII letter in lower case; any other character as it is.
pub open spec fn ascii_lower(c: char) -> char {
    if 'A' <= c <= 'Z' {
        (c as int + 32) as char
    } else {
        c
    }
}

/// An ASCII letter in lower case; any other character as it is.
pub fn lower(c: char) -> (r: char)
    ensures
        r == ascii_lower(c),
{
    if 'A' <= c && c <= 'Z' {
        (c as u8 + 32) as char
    } else {
        c
    }
}

} // verus!
