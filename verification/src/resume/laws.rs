//! What holds of what is carried over a restart.

use vstd::prelude::*;

use crate::resume;
use crate::resume::CursorError;
use crate::text;

verus! {

proof fn lemma_decimal_digits(n: nat)
    ensures
        text::decimal(n).len() > 0,
        text::all_digits(text::decimal(n)),
        text::digits_value(text::decimal(n)) == n,
{
    text::laws::lemma_decimal_digits(n);
}

/// Digits and a line end, trimmed, are the digits.
proof fn lemma_trim_line(digits: Seq<char>)
    requires
        digits.len() > 0,
        text::all_digits(digits),
    ensures
        text::trimmed(digits + "\n"@) == digits,
{
    reveal_strlit("\n");
    let line = digits + "\n"@;
    assert('0' <= digits[0] <= '9');
    assert(text::trimmed_start(line) == line);
    assert(line.last() == '\n');
    assert(line.drop_last() =~= digits);
    assert('0' <= digits[digits.len() - 1] <= '9');
    assert(text::trimmed_end(digits) == digits);
}

/// A group sequence that is persisted is the one that is loaded.
pub proof fn law_group_seq_roundtrip(seq: u64)
    ensures
        resume::kept_group_seq(Some(resume::group_seq_text(seq))) == Some(seq as nat),
{
    let digits = text::decimal(seq as nat);
    lemma_decimal_digits(seq as nat);
    lemma_trim_line(digits);
    assert('0' <= digits[0] <= '9');
}

/// A cursor that is persisted is the one that the next run starts with,
/// whatever its flag says.
pub proof fn law_cursor_roundtrip(last_seq: i64, flag: Option<i64>)
    requires
        last_seq >= 0,
    ensures
        resume::cursor_text(last_seq) is Some,
        resume::initial_cursor(resume::cursor_text(last_seq), flag) == Ok::<i64, CursorError>(
            last_seq,
        ),
{
    let digits = text::decimal(last_seq as nat);
    lemma_decimal_digits(last_seq as nat);
    lemma_trim_line(digits);
    assert('0' <= digits[0] <= '9');
    text::lemma_digit_run(digits, digits.len() as int);
    assert(digits.take(digits.len() as int) =~= digits);
}

/// Ids stay monotonic across a restart: the first group of a run comes after
/// the last one persisted by the run before.
pub proof fn law_first_group_is_above_the_seed(seq: u64)
    requires
        seq < u64::MAX,
    ensures
        ({
            let seed = resume::kept_group_seq(Some(resume::group_seq_text(seq)))->0;
            seed + 1 > seq
        }),
{
    law_group_seq_roundtrip(seq);
}

/// A group is inside the window exactly where it is no older than the window is
/// long.
pub proof fn law_window_holds_recent_groups(now_ms: u64, window_secs: u64, created_ms: u64)
    requires
        window_secs > 0,
    ensures
        created_ms >= resume::window_cutoff(now_ms, window_secs)->0 <==> created_ms + window_secs
            * 1000 >= now_ms,
{
}

/// Without a cursor file the flag decides, and without either there is no
/// cursor.
pub proof fn law_flag_counts_without_a_file(flag: i64)
    ensures
        resume::initial_cursor(None, Some(flag)) == Ok::<i64, CursorError>(flag),
        resume::initial_cursor(None, None) matches Ok(n) && n == -1,
{
}

/// The cursor that a file holds is the number in it, whatever white space stands
/// around it and whatever the flag says.
pub proof fn law_cursor_file_is_its_number(
    before: Seq<char>,
    n: i64,
    after: Seq<char>,
    flag: Option<i64>,
)
    requires
        text::laws::blank(before),
        text::laws::blank(after),
    ensures
        resume::initial_cursor(Some(before + text::signed_decimal(n as int) + after), flag) == Ok::<
            i64,
            CursorError,
        >(n),
{
    let digits = text::signed_decimal(n as int);
    let size = if n < 0 { -n } else { n as int };
    lemma_decimal_digits(size as nat);
    let d = text::decimal(size as nat);
    assert('0' <= d[0] <= '9');
    assert('0' <= d[d.len() - 1] <= '9');
    assert(digits.last() == d.last());
    text::laws::law_trimming_takes_the_white_space_around(before, digits, after);
    text::laws::law_signed_numbers_are_read_back(n);
}

/// A cursor file that holds no number is an error, and no reason to go by the
/// flag.
pub proof fn law_broken_cursor_file_is_an_error(file: Seq<char>, flag: Option<i64>)
    requires
        text::parsed_i64(text::trimmed(file)) is Err,
    ensures
        resume::initial_cursor(Some(file), flag) is Err,
        resume::kept_group_seq(None) is None,
{
}

/// A group sequence is kept in a file whatever white space stands around it; a
/// number that is too large is none.
pub proof fn law_group_seq_file_is_its_number(before: Seq<char>, n: nat, after: Seq<char>)
    requires
        text::laws::blank(before),
        text::laws::blank(after),
    ensures
        resume::kept_group_seq(Some(before + text::decimal(n) + after)) == (if n <= u64::MAX {
            Some(n)
        } else {
            None
        }),
{
    lemma_decimal_digits(n);
    let d = text::decimal(n);
    assert('0' <= d[0] <= '9');
    assert('0' <= d[d.len() - 1] <= '9');
    text::laws::law_trimming_takes_the_white_space_around(before, d, after);
    text::laws::law_numbers_are_read_back(n);
}

/// What is kept is the number on a line of its own; a run that has relayed
/// nothing keeps nothing.
pub proof fn law_kept_numbers_are_lines(last_seq: i64, seq: u64)
    ensures
        last_seq < 0 <==> resume::cursor_text(last_seq) is None,
        last_seq >= 0 ==> resume::cursor_text(last_seq) == Some(
            text::decimal(last_seq as nat).push('\n'),
        ),
        resume::group_seq_text(seq) == text::decimal(seq as nat).push('\n'),
{
    reveal_strlit("\n");
    assert(text::decimal(seq as nat) + "\n"@ =~= text::decimal(seq as nat).push('\n'));
    if last_seq >= 0 {
        assert(text::decimal(last_seq as nat) + "\n"@ =~= text::decimal(last_seq as nat).push(
            '\n',
        ));
    }
}

/// A window of no length keeps everything; any other leaves off that many
/// seconds before now, and never before the beginning of time.
pub proof fn law_window_reaches_back_its_length(now_ms: u64, window_secs: u64)
    ensures
        resume::window_cutoff(now_ms, window_secs) is None <==> window_secs == 0,
        window_secs > 0 && now_ms >= 1000 * window_secs ==> resume::window_cutoff(
            now_ms,
            window_secs,
        )->0 == now_ms - 1000 * window_secs,
        window_secs > 0 && now_ms < 1000 * window_secs ==> resume::window_cutoff(
            now_ms,
            window_secs,
        )->0 == 0,
{
}

/// The text of a file is the text that is there.
pub proof fn law_file_text_is_the_text(s: &str, fault: text::NumberFault)
    ensures
        resume::file_text(Some(s)) == Some(s@),
        resume::file_text(None) is None,
        CursorError::NotANumber(fault).text() == fault.text(),
{
}

} // verus!
