//! What holds of the text that is read and written.

use vstd::prelude::*;

use crate::powers;
use crate::text;
use crate::text::NumberFault;

verus! {

// Numbers.

/// A number is written with its digits in order: one more digit at the end is
/// ten times the number and that digit.
pub proof fn law_decimal_is_base_ten(n: nat, d: nat)
    requires
        d < 10,
    ensures
        text::decimal(d) == seq![(48 + d) as char],
        n > 0 ==> text::decimal(10 * n + d) == text::decimal(n).push((48 + d) as char),
{
    assert((10 * n + d) / 10 == n && (10 * n + d) % 10 == d);
}

/// A negative number is a minus sign and the number without it.
pub proof fn law_negative_numbers_have_a_minus(n: nat)
    ensures
        n > 0 ==> text::signed_decimal(-n) == seq!['-'] + text::decimal(n),
        text::signed_decimal(n as int) == text::decimal(n),
{
}

pub proof fn lemma_decimal_digits(n: nat)
    ensures
        text::decimal(n).len() > 0,
        text::all_digits(text::decimal(n)),
        text::digits_value(text::decimal(n)) == n,
    decreases n,
{
    let d = text::decimal(n);
    if n < 10 {
        assert(d.drop_last() =~= Seq::empty());
        assert(text::digits_value(d.drop_last()) == 0);
        assert(d.last() == text::digit(n as int));
    } else {
        lemma_decimal_digits(n / 10);
        assert(d.drop_last() =~= text::decimal(n / 10));
        assert(d.last() == text::digit((n % 10) as int));
        assert forall|i: int| 0 <= i < d.len() implies '0' <= #[trigger] d[i] <= '9' by {
            if i < d.len() - 1 {
                assert(d[i] == text::decimal(n / 10)[i]);
            }
        }
    }
}

/// Two numbers that are written alike are one number.
pub proof fn law_different_numbers_are_written_differently(a: int, b: int)
    requires
        text::signed_decimal(a) == text::signed_decimal(b),
    ensures
        a == b,
{
    let x = if a < 0 { -a } else { a };
    let y = if b < 0 { -b } else { b };
    lemma_decimal_digits(x as nat);
    lemma_decimal_digits(y as nat);
    assert('0' <= text::decimal(x as nat)[0] <= '9');
    assert('0' <= text::decimal(y as nat)[0] <= '9');
    if a < 0 {
        assert(text::signed_decimal(a)[0] == '-');
        assert(text::signed_decimal(a).skip(1) =~= text::decimal(x as nat));
    }
    if b < 0 {
        assert(text::signed_decimal(b)[0] == '-');
        assert(text::signed_decimal(b).skip(1) =~= text::decimal(y as nat));
    }
}

/// A number that is written is read back, with a plus sign before it or
/// without, exactly where it fits 64 bits.
pub proof fn law_numbers_are_read_back(n: nat)
    ensures
        text::parsed_u64(text::decimal(n)) == (if n <= u64::MAX {
            Some(n)
        } else {
            None
        }),
        text::parsed_u64(seq!['+'] + text::decimal(n)) == text::parsed_u64(text::decimal(n)),
        text::parsed_i64(text::decimal(n)) == (if n <= i64::MAX {
            Ok::<int, NumberFault>(n as int)
        } else {
            Err(NumberFault::TooLarge)
        }),
        text::parsed_i64(seq!['+'] + text::decimal(n)) == text::parsed_i64(text::decimal(n)),
        text::parsed_i64(seq!['-'] + text::decimal(n)) == (if -n >= i64::MIN {
            Ok::<int, NumberFault>(-n)
        } else {
            Err(NumberFault::TooSmall)
        }),
{
    let d = text::decimal(n);
    lemma_decimal_digits(n);
    assert('0' <= d[0] <= '9');
    text::lemma_digit_run(d, d.len() as int);
    assert(d.take(d.len() as int) =~= d);
    assert((seq!['+'] + d).skip(1) =~= d);
    assert((seq!['-'] + d).skip(1) =~= d);
}

/// A signed number that is written is read back.
pub proof fn law_signed_numbers_are_read_back(n: i64)
    ensures
        text::parsed_i64(text::signed_decimal(n as int)) == Ok::<int, NumberFault>(n as int),
{
    if n < 0 {
        law_numbers_are_read_back((-n) as nat);
    } else {
        law_numbers_are_read_back(n as nat);
    }
}

/// A text with anything in it that is no digit, other than a sign at its start,
/// is no number; nor is an empty one, nor a sign alone.
pub proof fn law_other_texts_are_no_numbers(s: Seq<char>, i: int)
    requires
        0 <= i < s.len(),
        !('0' <= s[i] <= '9'),
        i > 0 || (s[0] != '+' && s[0] != '-') || s.len() == 1,
    ensures
        text::parsed_u64(s) is None,
        text::parsed_i64(s) is Err,
        text::parsed_u64(Seq::empty()) is None,
        text::parsed_i64(Seq::empty()) == Err::<int, NumberFault>(NumberFault::Empty),
{
    let signed = s[0] == '+' || s[0] == '-';
    if signed {
        let d = s.skip(1);
        if s.len() > 1 {
            assert(d[i - 1] == s[i]);
            lemma_run_stops(d, i - 1);
        }
    }
    lemma_run_stops(s, i);
}

proof fn lemma_run_stops(s: Seq<char>, i: int)
    requires
        0 <= i < s.len(),
        !('0' <= s[i] <= '9'),
    ensures
        text::digit_run(s) <= i,
        !text::all_digits(s),
    decreases i,
{
    if i > 0 {
        assert(s.drop_first()[i - 1] == s[i]);
        lemma_run_stops(s.drop_first(), i - 1);
    }
}

/// A number of fixed width has that many digits, and they are the number's last
/// ones.
pub proof fn law_fixed_decimal_is_the_last_digits(n: nat, width: nat)
    ensures
        text::fixed_decimal(n, width).len() == width,
        text::all_digits(text::fixed_decimal(n, width)),
        n < powers::pow10(width) ==> text::digits_value(text::fixed_decimal(n, width)) == n,
    decreases width,
{
    if width > 0 {
        let d = text::fixed_decimal(n, width);
        law_fixed_decimal_is_the_last_digits(n / 10, (width - 1) as nat);
        assert(d.drop_last() =~= text::fixed_decimal(n / 10, (width - 1) as nat));
        assert(d.last() == text::digit((n % 10) as int));
        assert forall|i: int| 0 <= i < d.len() implies '0' <= #[trigger] d[i] <= '9' by {
            if i < width - 1 {
                assert(d[i] == d.drop_last()[i]);
            }
        }
    }
}

/// Digits write a number in base ten.
pub proof fn law_digits_are_base_ten(digits: Seq<char>, d: nat)
    requires
        d < 10,
    ensures
        text::digits_value(Seq::empty()) == 0,
        text::digits_value(digits.push((48 + d) as char)) == 10 * text::digits_value(digits) + d,
{
    assert(digits.push((48 + d) as char).drop_last() =~= digits);
}

// White space and words.

/// In ASCII, white space is the space and what lies from tab to carriage
/// return.
pub proof fn law_ascii_white_space(c: char)
    requires
        (c as u32) < 128,
    ensures
        text::is_white(c) <==> c == ' ' || c == '\t' || c == '\n' || c == '\u{b}' || c == '\u{c}'
            || c == '\r',
{
}

/// Every character is white space.
pub open spec fn blank(s: Seq<char>) -> bool {
    forall|i: int| 0 <= i < s.len() ==> text::is_white(#[trigger] s[i])
}

/// Trimming takes away the white space around a text, all of it and nothing
/// else.
pub proof fn law_trimming_takes_the_white_space_around(
    before: Seq<char>,
    core: Seq<char>,
    after: Seq<char>,
)
    requires
        blank(before),
        blank(after),
        core.len() > 0 ==> !text::is_white(core[0]) && !text::is_white(core.last()),
    ensures
        text::trimmed(before + core + after) == core,
    decreases before.len() + after.len(),
{
    let all = before + core + after;
    if before.len() > 0 {
        let less = before.drop_first();
        assert forall|i: int| 0 <= i < less.len() implies text::is_white(#[trigger] less[i]) by {
            assert(less[i] == before[i + 1]);
        }
        assert(all[0] == before[0]);
        assert(all.drop_first() =~= less + core + after);
        law_trimming_takes_the_white_space_around(less, core, after);
    } else if core.len() == 0 {
        assert(all =~= after);
        lemma_blank_is_trimmed(after);
    } else {
        assert(all[0] == core[0]);
        assert(text::trimmed_start(all) == all);
        lemma_trimmed_end(core, after);
        assert(all =~= core + after);
    }
}

proof fn lemma_blank_is_trimmed(s: Seq<char>)
    requires
        blank(s),
    ensures
        text::trimmed_start(s) == Seq::<char>::empty(),
        text::trimmed(s) == Seq::<char>::empty(),
    decreases s.len(),
{
    if s.len() > 0 {
        assert(text::is_white(s[0]));
        assert forall|i: int| 0 <= i < s.drop_first().len() implies text::is_white(
            #[trigger] s.drop_first()[i],
        ) by {
            assert(s.drop_first()[i] == s[i + 1]);
        }
        lemma_blank_is_trimmed(s.drop_first());
    } else {
        assert(s =~= Seq::<char>::empty());
    }
}

proof fn lemma_trimmed_end(core: Seq<char>, after: Seq<char>)
    requires
        blank(after),
        core.len() > 0,
        !text::is_white(core.last()),
    ensures
        text::trimmed_end(core + after) == core,
    decreases after.len(),
{
    let all = core + after;
    if after.len() > 0 {
        assert(text::is_white(after[after.len() - 1]));
        assert(all.last() == after.last());
        assert(all.drop_last() =~= core + after.drop_last());
        assert forall|i: int| 0 <= i < after.drop_last().len() implies text::is_white(
            #[trigger] after.drop_last()[i],
        ) by {
            assert(after.drop_last()[i] == after[i]);
        }
        lemma_trimmed_end(core, after.drop_last());
    } else {
        assert(all =~= core);
    }
}

/// The first word of a text is what stands between the white space before it
/// and the white space, or the end, after it.
pub proof fn law_first_word_ends_at_white_space(
    before: Seq<char>,
    word: Seq<char>,
    after: Seq<char>,
)
    requires
        blank(before),
        forall|i: int| 0 <= i < word.len() ==> !text::is_white(#[trigger] word[i]),
        word.len() > 0,
        after.len() > 0 ==> text::is_white(after[0]),
    ensures
        text::first_word(before + word + after) == word,
        text::after_word(before + word + after) == after,
    decreases before.len(),
{
    let all = before + word + after;
    if before.len() > 0 {
        let less = before.drop_first();
        assert forall|i: int| 0 <= i < less.len() implies text::is_white(#[trigger] less[i]) by {
            assert(less[i] == before[i + 1]);
        }
        assert(all[0] == before[0]);
        assert(all.drop_first() =~= less + word + after);
        law_first_word_ends_at_white_space(less, word, after);
    } else {
        assert(all =~= word + after);
        assert(all[0] == word[0]);
        lemma_word_len(word, after);
        assert(all.take(word.len() as int) =~= word);
        assert(all.skip(word.len() as int) =~= after);
    }
}

proof fn lemma_word_len(word: Seq<char>, after: Seq<char>)
    requires
        forall|i: int| 0 <= i < word.len() ==> !text::is_white(#[trigger] word[i]),
        after.len() > 0 ==> text::is_white(after[0]),
    ensures
        text::word_len(word + after) == word.len(),
    decreases word.len(),
{
    let all = word + after;
    if word.len() > 0 {
        let rest = word.drop_first();
        assert forall|i: int| 0 <= i < rest.len() implies !text::is_white(#[trigger] rest[i]) by {
            assert(rest[i] == word[i + 1]);
        }
        lemma_word_len(rest, after);
        assert(all.drop_first() =~= rest + after);
        assert(all[0] == word[0]);
    } else if after.len() > 0 {
        assert(all[0] == after[0]);
    }
}

/// A text of white space alone has no word.
pub proof fn law_blank_text_has_no_word(s: Seq<char>)
    requires
        blank(s),
    ensures
        text::first_word(s).len() == 0,
        text::trimmed(s).len() == 0,
{
    lemma_blank_is_trimmed(s);
}

/// A character is found where it first stands, and past the end where it does
/// not.
pub proof fn law_index_is_the_first(s: Seq<char>, c: char)
    ensures
        text::index_of(s, c) <= s.len(),
        text::index_of(s, c) < s.len() ==> s[text::index_of(s, c) as int] == c,
        forall|i: int| 0 <= i < text::index_of(s, c) ==> #[trigger] s[i] != c,
    decreases s.len(),
{
    if s.len() > 0 && s[0] != c {
        law_index_is_the_first(s.drop_first(), c);
        assert forall|i: int| 0 <= i < text::index_of(s, c) implies #[trigger] s[i] != c by {
            if i > 0 {
                assert(s[i] == s.drop_first()[i - 1]);
            }
        }
    }
}

/// A text starts with another exactly where it is that other and something
/// after it; and ends in another exactly where it is something and that other.
pub proof fn law_prefix_and_suffix(s: Seq<char>, part: Seq<char>, rest: Seq<char>)
    ensures
        text::has_prefix(part + rest, part),
        text::has_suffix(rest + part, part),
        text::has_prefix(s, part) ==> s == part + s.skip(part.len() as int),
        text::has_suffix(s, part) ==> s == s.take(s.len() - part.len()) + part,
{
    assert((part + rest).take(part.len() as int) =~= part);
    assert((rest + part).skip(rest.len() as int) =~= part);
    if text::has_prefix(s, part) {
        assert(s =~= part + s.skip(part.len() as int));
    }
    if text::has_suffix(s, part) {
        assert(s =~= s.take(s.len() - part.len()) + part);
    }
}

/// Lower case changes the 26 capital letters of ASCII, each to its small one,
/// and nothing else.
pub proof fn law_lower_case(c: char)
    ensures
        'A' <= c <= 'Z' ==> text::ascii_lower(c) as u32 == c as u32 + 32,
        !('A' <= c <= 'Z') ==> text::ascii_lower(c) == c,
        'a' <= text::ascii_lower(c) <= 'z' <==> 'a' <= c <= 'z' || 'A' <= c <= 'Z',
{
}

} // verus!
