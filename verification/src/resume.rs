//! What is carried over a restart: the upstream cursor, and the high-water
//! group sequence. Each is kept in a file of its own, as one number on one
//! line; this module reads and writes the text of those files.

pub mod laws;

use vstd::prelude::*;

use crate::text;
use crate::text::{
    chars_of, parse_i64, parse_u64, push_decimal, push_signed, push_text, trim, NumberFault,
};

verus! {

/// The cursor of a run that has none.
pub const NO_CURSOR: i64 = -1;

/// Why the cursor could not be loaded.
#[derive(Debug, Clone, Copy, PartialEq, Eq, Structural)]
pub enum CursorError {
    /// The cursor file holds no 64-bit number, and why.
    NotANumber(NumberFault),
}

impl CursorError {
    /// The line of text that says what was wrong.
    pub open spec fn text(self) -> Seq<char> {
        match self {
            CursorError::NotANumber(fault) => fault.text(),
        }
    }

    /// What was wrong, as one line of text.
    pub fn to_text(&self) -> (r: String)
        ensures
            r@ == self.text(),
    {
        match self {
            CursorError::NotANumber(fault) => fault.to_text(),
        }
    }
}

/// The text of a file, where there is one.
pub open spec fn file_text(file: Option<&str>) -> Option<Seq<char>> {
    match file {
        Some(s) => Some(s@),
        None => None,
    }
}

/// The cursor to start with: the cursor file takes precedence over the flag.
pub open spec fn initial_cursor(file: Option<Seq<char>>, flag: Option<i64>) -> Result<
    i64,
    CursorError,
> {
    match file {
        Some(s) => match text::parsed_i64(text::trimmed(s)) {
            Ok(n) => Ok(n as i64),
            Err(fault) => Err(CursorError::NotANumber(fault)),
        },
        None => Ok(
            match flag {
                Some(n) => n,
                None => NO_CURSOR,
            },
        ),
    }
}

/// The text that keeps a cursor; a cursor below zero is not kept.
pub open spec fn cursor_text(last_seq: i64) -> Option<Seq<char>> {
    if last_seq < 0 {
        None
    } else {
        Some(text::signed_decimal(last_seq as int) + "\n"@)
    }
}

/// The text that keeps a group sequence.
pub open spec fn group_seq_text(seq: u64) -> Seq<char> {
    text::decimal(seq as nat) + "\n"@
}

/// The group sequence that a file keeps.
pub open spec fn kept_group_seq(file: Option<Seq<char>>) -> Option<nat> {
    match file {
        Some(s) => text::parsed_u64(text::trimmed(s)),
        None => None,
    }
}

/// Load the cursor to start with out of the text of the cursor file, where
/// there is one; the file takes precedence over the flag.
pub fn load_initial_cursor(file: Option<&str>, flag: Option<i64>) -> (r: Result<i64, CursorError>)
    ensures
        r == initial_cursor(file_text(file), flag),
{
    match file {
        Some(s) => {
            let chars = chars_of(s);
            match parse_i64(trim(chars.as_slice())) {
                Ok(n) => Ok(n),
                Err(fault) => Err(CursorError::NotANumber(fault)),
            }
        },
        None => Ok(
            match flag {
                Some(n) => n,
                None => NO_CURSOR,
            },
        ),
    }
}

/// The cursor to ask the upstream to resume from.
pub fn resume_from(last_seq: i64) -> (r: Option<i64>)
    ensures
        r == (if last_seq == NO_CURSOR {
            None
        } else {
            Some(last_seq)
        }),
{
    if last_seq == NO_CURSOR {
        None
    } else {
        Some(last_seq)
    }
}

/// The text to write to the cursor file; nothing before the first event.
pub fn persist_cursor(last_seq: i64) -> (r: Option<String>)
    ensures
        match (r, cursor_text(last_seq)) {
            (Some(a), Some(b)) => a@ == b,
            (None, None) => true,
            _ => false,
        },
{
    if last_seq < 0 {
        return None;
    }
    let mut out = String::new();
    push_signed(&mut out, last_seq);
    push_text(&mut out, "\n");
    proof {
        assert(out@ =~= text::signed_decimal(last_seq as int) + "\n"@);
    }
    Some(out)
}

/// Load the persisted high-water MoQ group sequence, if any, out of the text of
/// its file. Used to keep group ids monotonic across a relay restart so a
/// consumer's group cursor stays valid.
pub fn load_group_seq(file: Option<&str>) -> (r: Option<u64>)
    ensures
        match (r, kept_group_seq(file_text(file))) {
            (Some(a), Some(b)) => a == b,
            (None, None) => true,
            _ => false,
        },
{
    match file {
        Some(s) => {
            let chars = chars_of(s);
            parse_u64(trim(chars.as_slice()))
        },
        None => None,
    }
}

/// The text to write to the group sequence's file. Written on each group
/// creation.
pub fn persist_group_seq(seq: u64) -> (r: String)
    ensures
        r@ == group_seq_text(seq),
{
    let mut out = String::new();
    push_decimal(&mut out, seq);
    push_text(&mut out, "\n");
    proof {
        assert(out@ =~= group_seq_text(seq));
    }
    out
}

/// The high-water group sequence to continue from: the store's, which wins over
/// the lightweight file's.
pub fn group_seed(store: Option<u64>, file: Option<u64>) -> (r: Option<u64>)
    ensures
        r == (if store is Some {
            store
        } else {
            file
        }),
{
    match store {
        Some(seq) => Some(seq),
        None => file,
    }
}

/// The sequence of the first group of a run. With a persisted seed we continue
/// at `seed + 1` so ids never go backwards across a restart; otherwise the
/// transport's default stands. A seed that has no successor is none to
/// continue from.
pub fn make_first_group(seed: Option<u64>) -> (r: Option<u64>)
    requires
        seed matches Some(prev) ==> prev < u64::MAX,
    ensures
        r == (match seed {
            Some(prev) => Some((prev + 1) as u64),
            None => None,
        }),
{
    match seed {
        Some(prev) => Some(prev + 1),
        None => None,
    }
}

/// How long, in seconds, groups are retained in the track cache; nothing keeps
/// the transport's default. Groups live in RAM, so the window is a
/// memory-vs-depth tradeoff.
pub fn apply_replay_window(secs: u64) -> (r: Option<u64>)
    ensures
        r == (if secs > 0 {
            Some(secs)
        } else {
            None
        }),
{
    if secs > 0 {
        Some(secs)
    } else {
        None
    }
}

/// The time before which a group has left a window of `window_secs` seconds;
/// nothing where the window is not finite.
pub open spec fn window_cutoff(now_ms: u64, window_secs: u64) -> Option<u64> {
    if window_secs == 0 {
        None
    } else if now_ms > window_secs * 1000 {
        Some((now_ms - window_secs * 1000) as u64)
    } else {
        Some(0)
    }
}

/// The time before which a group has left a window of `window_secs` seconds;
/// nothing where the window is not finite.
pub fn cutoff_ms(now_ms: u64, window_secs: u64) -> (r: Option<u64>)
    requires
        window_secs * 1000 <= u64::MAX,
    ensures
        r == window_cutoff(now_ms, window_secs),
{
    if window_secs == 0 {
        None
    } else {
        Some(now_ms.saturating_sub(window_secs * 1000))
    }
}

} // verus!
