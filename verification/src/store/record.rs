//! The record format of a segment file, little-endian:
//!
//! ```text
//! [group_seq: u64][created_ms: u64][frame_count: u32]
//! then frame_count × ([frame_len: u32][frame bytes])
//! ```

use vstd::prelude::*;
use vstd::slice::slice_to_vec;

use crate::powers;

verus! {

/// The length of a record's head: sequence, time and frame count.
pub const HEAD_LEN: usize = 20;

/// The low `width` bytes of `n`, little-endian.
pub open spec fn le_bytes(n: nat, width: nat) -> Seq<u8>
    decreases width,
{
    if width == 0 {
        Seq::empty()
    } else {
        seq![(n % 256) as u8] + le_bytes(n / 256, (width - 1) as nat)
    }
}

/// The number whose little-endian bytes `s` are.
pub open spec fn le_value(s: Seq<u8>) -> nat
    decreases s.len(),
{
    if s.len() == 0 {
        0
    } else {
        (s[0] + 256 * le_value(s.drop_first())) as nat
    }
}

pub proof fn lemma_le_bytes_len(n: nat, width: nat)
    ensures
        le_bytes(n, width).len() == width,
    decreases width,
{
    if width > 0 {
        lemma_le_bytes_len(n / 256, (width - 1) as nat);
    }
}

pub proof fn lemma_le_roundtrip(n: nat, width: nat)
    requires
        n < powers::pow256(width),
    ensures
        le_bytes(n, width).len() == width,
        le_value(le_bytes(n, width)) == n,
    decreases width,
{
    if width > 0 {
        lemma_le_roundtrip(n / 256, (width - 1) as nat);
        assert(le_bytes(n, width).drop_first() =~= le_bytes(n / 256, (width - 1) as nat));
    }
}

pub proof fn lemma_le_value_bound(s: Seq<u8>)
    ensures
        le_value(s) < powers::pow256(s.len()),
    decreases s.len(),
{
    if s.len() > 0 {
        lemma_le_value_bound(s.drop_first());
    }
}

pub proof fn lemma_le_bytes_of_value(s: Seq<u8>)
    ensures
        le_bytes(le_value(s), s.len()) == s,
    decreases s.len(),
{
    if s.len() > 0 {
        lemma_le_bytes_of_value(s.drop_first());
        assert(le_value(s) / 256 == le_value(s.drop_first()));
    }
    assert(le_bytes(le_value(s), s.len()) =~= s);
}

/// The frames of a record, each with its length before it.
pub open spec fn frames_bytes(frames: Seq<Seq<u8>>) -> Seq<u8>
    decreases frames.len(),
{
    if frames.len() == 0 {
        Seq::empty()
    } else {
        le_bytes(frames[0].len(), 4) + frames[0] + frames_bytes(frames.drop_first())
    }
}

/// The head of a record.
pub open spec fn head_bytes(seq: u64, ms: u64, count: nat) -> Seq<u8> {
    le_bytes(seq as nat, 8) + le_bytes(ms as nat, 8) + le_bytes(count, 4)
}

/// A record: the bytes that store a group.
pub open spec fn record_bytes(seq: u64, ms: u64, frames: Seq<Seq<u8>>) -> Seq<u8> {
    head_bytes(seq, ms, frames.len()) + frames_bytes(frames)
}

/// There are few enough frames, each short enough, for their numbers to be
/// written in 32 bits.
pub open spec fn writable(frames: Seq<Seq<u8>>) -> bool {
    &&& frames.len() < 0x1_0000_0000
    &&& forall|i: int| 0 <= i < frames.len() ==> (#[trigger] frames[i]).len() < 0x1_0000_0000
}

/// A group as it is stored.
pub struct Record {
    pub seq: u64,
    pub ms: u64,
    pub frames: Seq<Seq<u8>>,
}

/// `count` frames from `at` on, and the offset just past them; `None` where
/// the bytes end before they do.
pub open spec fn frames_at(data: Seq<u8>, at: int, count: nat) -> Option<(Seq<Seq<u8>>, int)>
    decreases count,
{
    if count == 0 {
        Some((Seq::empty(), at))
    } else if at + 4 > data.len() {
        None
    } else {
        let len = le_value(data.subrange(at, at + 4));
        if at + 4 + len > data.len() {
            None
        } else {
            match frames_at(data, at + 4 + len, (count - 1) as nat) {
                Some((rest, end)) => Some(
                    (seq![data.subrange(at + 4, at + 4 + len)] + rest, end),
                ),
                None => None,
            }
        }
    }
}

/// The record at `at` and the offset just past it; `None` where the bytes end
/// before it does.
pub open spec fn record_at(data: Seq<u8>, at: int) -> Option<(Record, int)> {
    if at + HEAD_LEN > data.len() {
        None
    } else {
        let count = le_value(data.subrange(at + 16, at + 20));
        match frames_at(data, at + 20, count) {
            Some((frames, end)) => Some(
                (
                    Record {
                        seq: le_value(data.subrange(at, at + 8)) as u64,
                        ms: le_value(data.subrange(at + 8, at + 16)) as u64,
                        frames,
                    },
                    end,
                ),
            ),
            None => None,
        }
    }
}

/// Frames by the bytes that they hold.
pub open spec fn views(frames: Seq<Vec<u8>>) -> Seq<Seq<u8>> {
    frames.map_values(|f: Vec<u8>| f@)
}

/// Appends the low `width` bytes of `n`, little-endian.
fn push_le(out: &mut Vec<u8>, n: u64, width: u8)
    ensures
        final(out)@ == old(out)@ + le_bytes(n as nat, width as nat),
    decreases width,
{
    let ghost before = out@;
    if width > 0 {
        out.push((n % 256) as u8);
        push_le(out, n / 256, width - 1);
    }
    proof {
        assert(out@ =~= before + le_bytes(n as nat, width as nat));
    }
}

proof fn lemma_frames_bytes_push(frames: Seq<Seq<u8>>, last: Seq<u8>)
    ensures
        frames_bytes(frames.push(last)) == frames_bytes(frames) + (le_bytes(last.len(), 4) + last),
    decreases frames.len(),
{
    let all = frames.push(last);
    if frames.len() > 0 {
        lemma_frames_bytes_push(frames.drop_first(), last);
        assert(all.drop_first() =~= frames.drop_first().push(last));
        assert(all[0] == frames[0]);
    } else {
        assert(all.drop_first() =~= Seq::empty());
        assert(frames_bytes(all.drop_first()) =~= Seq::empty());
    }
    assert(frames_bytes(all) =~= frames_bytes(frames) + (le_bytes(last.len(), 4) + last));
}

/// The record that stores a group.
pub fn encode_record(seq: u64, created_ms: u64, frames: &[Vec<u8>]) -> (r: Vec<u8>)
    ensures
        r@ == record_bytes(seq, created_ms, views(frames@)),
{
    let mut out: Vec<u8> = Vec::new();
    push_le(&mut out, seq, 8);
    push_le(&mut out, created_ms, 8);
    push_le(&mut out, frames.len() as u64, 4);
    let ghost head = head_bytes(seq, created_ms, frames@.len());
    let ghost all = views(frames@);
    let mut i: usize = 0;
    proof {
        assert(all.take(0) =~= Seq::empty());
        assert(out@ =~= head + frames_bytes(all.take(0)));
    }
    while i < frames.len()
        invariant
            i <= frames@.len(),
            all == views(frames@),
            out@ == head + frames_bytes(all.take(i as int)),
        decreases frames@.len() - i,
    {
        let frame = &frames[i];
        proof {
            lemma_frames_bytes_push(all.take(i as int), frame@);
            assert(all.take(i + 1) =~= all.take(i as int).push(frame@));
        }
        push_le(&mut out, frame.len() as u64, 4);
        out.extend_from_slice(frame.as_slice());
        proof {
            assert(out@ =~= head + frames_bytes(all.take(i + 1)));
        }
        i = i + 1;
    }
    proof {
        assert(all.take(i as int) =~= all);
    }
    out
}

/// The little-endian number in `data[at..at + width]`.
fn read_le(data: &[u8], at: usize, width: usize) -> (r: u64)
    requires
        at + width <= data@.len(),
        width <= 8,
    ensures
        r == le_value(data@.subrange(at as int, at + width)),
    decreases width,
{
    let ghost s = data@.subrange(at as int, at + width);
    if width == 0 {
        return 0;
    }
    let low = data[at] as u64;
    let high = read_le(data, at + 1, width - 1);
    proof {
        assert(s.drop_first() =~= data@.subrange(at + 1, at + width));
        lemma_le_value_bound(s);
        powers::lemma_pow256_le(width as nat, 8);
        powers::lemma_pow256_values();
    }
    low + 256 * high
}

/// Where a record's frame ends: its length is read at `at`.
fn frame_end(data: &[u8], at: usize) -> (r: Option<usize>)
    requires
        at <= data@.len(),
    ensures
        match r {
            Some(end) => {
                &&& at + 4 <= end <= data@.len()
                &&& end == at + 4 + le_value(data@.subrange(at as int, at + 4))
            },
            None => at + 4 > data@.len() || at + 4 + le_value(data@.subrange(at as int, at + 4))
                > data@.len(),
        },
{
    if data.len() - at < 4 {
        return None;
    }
    let len = read_le(data, at, 4);
    if len > (data.len() - at - 4) as u64 {
        return None;
    }
    Some(at + 4 + len as usize)
}

/// Read a full record (seq, created_ms, frames) off the front of `data`.
pub fn read_record(data: &[u8]) -> (r: Option<(u64, u64, Vec<Vec<u8>>)>)
    ensures
        match (r, record_at(data@, 0)) {
            (Some((seq, ms, frames)), Some((record, _))) => {
                &&& seq == record.seq
                &&& ms == record.ms
                &&& views(frames@) == record.frames
            },
            (None, None) => true,
            _ => false,
        },
{
    if data.len() < HEAD_LEN {
        return None;
    }
    let seq = read_le(data, 0, 8);
    let ms = read_le(data, 8, 8);
    let count = read_le(data, 16, 4);
    let mut frames: Vec<Vec<u8>> = Vec::new();
    let mut at: usize = HEAD_LEN;
    let mut done: u64 = 0;
    proof {
        if frames_at(data@, 20, count as nat) is Some {
            let (all, _) = frames_at(data@, 20, count as nat)->0;
            assert(views(frames@) + all =~= all);
        }
    }
    while done < count
        invariant
            done <= count,
            at <= data@.len(),
            record_at(data@, 0) is Some == frames_at(data@, at as int, (count - done) as nat) is Some,
            frames_at(data@, at as int, (count - done) as nat) matches Some((rest, _)) ==> record_at(
                data@,
                0,
            )->Some_0.0.frames == views(frames@) + rest,
        decreases count - done,
    {
        let end = frame_end(data, at)?;
        let frame = slice_to_vec(&data[at + 4..end]);
        proof {
            let rest = frames_at(data@, end as int, (count - done - 1) as nat);
            if rest is Some {
                assert(views(frames@) + (seq![frame@] + rest->Some_0.0) =~= views(frames@.push(frame))
                    + rest->Some_0.0);
            }
        }
        frames.push(frame);
        at = end;
        done = done + 1;
    }
    proof {
        assert(views(frames@) + Seq::<Seq<u8>>::empty() =~= views(frames@));
    }
    Some((seq, ms, frames))
}

/// Read just the outline of the record at `at`: its sequence, its time and
/// the offset just past it.
pub fn read_record_header(data: &[u8], at: usize) -> (r: Option<(u64, u64, usize)>)
    requires
        at <= data@.len(),
    ensures
        match (r, record_at(data@, at as int)) {
            (Some((seq, ms, end)), Some((record, e))) => {
                &&& seq == record.seq
                &&& ms == record.ms
                &&& end == e
                &&& at + HEAD_LEN <= end <= data@.len()
            },
            (None, None) => true,
            _ => false,
        },
{
    if data.len() - at < HEAD_LEN {
        return None;
    }
    let seq = read_le(data, at, 8);
    let ms = read_le(data, at + 8, 8);
    let count = read_le(data, at + 16, 4);
    let mut end: usize = at + HEAD_LEN;
    let mut done: u64 = 0;
    while done < count
        invariant
            done <= count,
            at + HEAD_LEN <= end <= data@.len(),
            match frames_at(data@, end as int, (count - done) as nat) {
                Some((_, e)) => record_at(data@, at as int) matches Some((_, f)) && e == f,
                None => record_at(data@, at as int) is None,
            },
        decreases count - done,
    {
        end = frame_end(data, end)?;
        done = done + 1;
    }
    Some((seq, ms, end))
}

} // verus!
