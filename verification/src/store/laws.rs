//! What holds of every store: what was appended is read back, before and after
//! a restart; a torn tail loses nothing but itself; what is dropped is old.
//!
//! The segment files stand here as the sequence of their bytes, oldest first.

use vstd::prelude::*;
use vstd::utf8;

use crate::order;
use crate::powers;
use crate::store;
use crate::store::record;
use crate::store::record::Record;
use crate::store::{Catalog, Location, Outline, Segment, SegmentState, StoreError};
use crate::text;

verus! {

/// A segment file without a torn tail.
pub open spec fn whole(data: Seq<u8>) -> bool {
    store::clean_end(data, 0) == data.len()
}

/// Where the groups in these files are stored.
pub open spec fn index_of(disk: Seq<Seq<u8>>) -> Map<u64, Location>
    decreases disk.len(),
{
    if disk.len() == 0 {
        Map::empty()
    } else {
        store::indexed(
            index_of(disk.drop_last()),
            store::outlines(disk.last(), 0),
            disk.len() - 1,
        )
    }
}

/// The highest group sequence in these files.
pub open spec fn high_water(disk: Seq<Seq<u8>>) -> Option<u64>
    decreases disk.len(),
{
    if disk.len() == 0 {
        None
    } else {
        store::raised_by(high_water(disk.drop_last()), store::outlines(disk.last(), 0))
    }
}

/// The catalog's entry of a segment says what is in its file.
pub open spec fn segment_describes(s: SegmentState, data: Seq<u8>) -> bool {
    &&& s.bytes == data.len()
    &&& s.newest_ms == store::newest(store::outlines(data, 0))
    &&& whole(data)
}

/// The catalog says what is in the files, and the files hold whole records
/// only.
pub open spec fn describes(c: Catalog, disk: Seq<Seq<u8>>) -> bool {
    &&& c.segments.len() == disk.len() <= usize::MAX
    &&& forall|i: int|
        0 <= i < disk.len() ==> segment_describes(#[trigger] c.segments[i], disk[i])
    &&& c.index == index_of(disk)
}

/// The bytes at a location.
pub open spec fn stored(disk: Seq<Seq<u8>>, location: Location) -> Seq<u8> {
    disk[location.segment as int].subrange(
        location.offset as int,
        location.offset + location.len,
    )
}

// Reading depends on the bytes that are read, not on where they stand.

spec fn moved_frames(r: Option<(Seq<Seq<u8>>, int)>, by: int) -> Option<(Seq<Seq<u8>>, int)> {
    match r {
        Some((frames, end)) => Some((frames, end + by)),
        None => None,
    }
}

spec fn moved_record(r: Option<(Record, int)>, by: int) -> Option<(Record, int)> {
    match r {
        Some((found, end)) => Some((found, end + by)),
        None => None,
    }
}

proof fn lemma_frames_move(before: Seq<u8>, data: Seq<u8>, at: int, count: nat)
    requires
        0 <= at,
    ensures
        record::frames_at(before + data, before.len() + at, count) == moved_frames(
            record::frames_at(data, at, count),
            before.len() as int,
        ),
    decreases count,
{
    let all = before + data;
    let here = before.len() + at;
    if count > 0 && at + 4 <= data.len() {
        assert(all.subrange(here, here + 4) =~= data.subrange(at, at + 4));
        let len = record::le_value(data.subrange(at, at + 4));
        if at + 4 + len <= data.len() {
            assert(all.subrange(here + 4, here + 4 + len) =~= data.subrange(at + 4, at + 4 + len));
            lemma_frames_move(before, data, at + 4 + len, (count - 1) as nat);
        }
    }
}

proof fn lemma_record_moves(before: Seq<u8>, data: Seq<u8>, at: int)
    requires
        0 <= at,
    ensures
        record::record_at(before + data, before.len() + at) == moved_record(
            record::record_at(data, at),
            before.len() as int,
        ),
{
    let all = before + data;
    let here = before.len() + at;
    if at + record::HEAD_LEN <= data.len() {
        assert(all.subrange(here, here + 8) =~= data.subrange(at, at + 8));
        assert(all.subrange(here + 8, here + 16) =~= data.subrange(at + 8, at + 16));
        assert(all.subrange(here + 16, here + 20) =~= data.subrange(at + 16, at + 20));
        lemma_frames_move(
            before,
            data,
            at + 20,
            record::le_value(data.subrange(at + 16, at + 20)),
        );
    }
}

proof fn lemma_frames_prefix(data: Seq<u8>, n: int, at: int, count: nat)
    requires
        0 <= at,
        n <= data.len(),
        record::frames_at(data, at, count) matches Some((_, end)) && end <= n,
    ensures
        record::frames_at(data.take(n), at, count) == record::frames_at(data, at, count),
    decreases count,
{
    if count > 0 {
        let next = at + 4 + record::le_value(data.subrange(at, at + 4));
        store::lemma_frames_bounds(data, next, (count - 1) as nat);
        assert(data.take(n).subrange(at, at + 4) =~= data.subrange(at, at + 4));
        assert(data.take(n).subrange(at + 4, next) =~= data.subrange(at + 4, next));
        lemma_frames_prefix(data, n, next, (count - 1) as nat);
    }
}

proof fn lemma_record_prefix(data: Seq<u8>, n: int, at: int)
    requires
        0 <= at,
        n <= data.len(),
        record::record_at(data, at) matches Some((_, end)) && end <= n,
    ensures
        record::record_at(data.take(n), at) == record::record_at(data, at),
{
    let some = data.take(n);
    store::lemma_record_bounds(data, at);
    assert(some.subrange(at, at + 8) =~= data.subrange(at, at + 8));
    assert(some.subrange(at + 8, at + 16) =~= data.subrange(at + 8, at + 16));
    assert(some.subrange(at + 16, at + 20) =~= data.subrange(at + 16, at + 20));
    lemma_frames_prefix(
        data,
        n,
        at + 20,
        record::le_value(data.subrange(at + 16, at + 20)),
    );
}

// A record that is written is read back.

proof fn lemma_frames_read(frames: Seq<Seq<u8>>, after: Seq<u8>)
    requires
        forall|i: int| 0 <= i < frames.len() ==> (#[trigger] frames[i]).len() < 0x1_0000_0000,
    ensures
        record::frames_at(record::frames_bytes(frames) + after, 0, frames.len()) == Some(
            (frames, record::frames_bytes(frames).len() as int),
        ),
    decreases frames.len(),
{
    let data = record::frames_bytes(frames) + after;
    if frames.len() == 0 {
        assert(frames =~= Seq::empty());
    } else {
        let frame = frames[0];
        let rest = frames.drop_first();
        let len = record::le_bytes(frame.len(), 4);
        let tail = record::frames_bytes(rest) + after;
        powers::lemma_pow256_values();
        record::lemma_le_roundtrip(frame.len(), 4);
        assert forall|i: int| 0 <= i < rest.len() implies (#[trigger] rest[i]).len()
            < 0x1_0000_0000 by {
            assert(rest[i] == frames[i + 1]);
        }
        lemma_frames_read(rest, after);
        let before = len + frame;
        assert(data =~= before + tail);
        assert(data.subrange(0, 4) =~= len);
        assert(data.subrange(4, 4int + frame.len()) =~= frame);
        lemma_frames_move(before, tail, 0, rest.len());
        assert(seq![frame] + rest =~= frames);
    }
}

proof fn lemma_head_len(seq: u64, ms: u64, count: nat)
    ensures
        record::head_bytes(seq, ms, count).len() == record::HEAD_LEN,
{
    record::lemma_le_bytes_len(seq as nat, 8);
    record::lemma_le_bytes_len(ms as nat, 8);
    record::lemma_le_bytes_len(count, 4);
}

/// A group's record is read back as that group, whatever follows it.
pub proof fn law_record_roundtrip(seq: u64, ms: u64, frames: Seq<Seq<u8>>, after: Seq<u8>)
    requires
        record::writable(frames),
    ensures
        ({
            let bytes = record::record_bytes(seq, ms, frames);
            record::record_at(bytes + after, 0) == Some(
                (Record { seq, ms, frames }, bytes.len() as int),
            )
        }),
{
    let head = record::head_bytes(seq, ms, frames.len());
    let body = record::frames_bytes(frames);
    let data = record::record_bytes(seq, ms, frames) + after;
    powers::lemma_pow256_values();
    record::lemma_le_roundtrip(seq as nat, 8);
    record::lemma_le_roundtrip(ms as nat, 8);
    record::lemma_le_roundtrip(frames.len(), 4);
    lemma_head_len(seq, ms, frames.len());
    assert(data =~= head + (body + after));
    assert(data.subrange(0, 8) =~= record::le_bytes(seq as nat, 8));
    assert(data.subrange(8, 16) =~= record::le_bytes(ms as nat, 8));
    assert(data.subrange(16, 20) =~= record::le_bytes(frames.len(), 4));
    lemma_frames_read(frames, after);
    lemma_frames_move(head, body + after, 0, frames.len());
}

proof fn lemma_frames_cut(frames: Seq<Seq<u8>>, cut: int)
    requires
        forall|i: int| 0 <= i < frames.len() ==> (#[trigger] frames[i]).len() < 0x1_0000_0000,
        0 <= cut < record::frames_bytes(frames).len(),
    ensures
        record::frames_at(record::frames_bytes(frames).take(cut), 0, frames.len()) is None,
    decreases frames.len(),
{
    let data = record::frames_bytes(frames).take(cut);
    let frame = frames[0];
    let rest = frames.drop_first();
    let len = record::le_bytes(frame.len(), 4);
    powers::lemma_pow256_values();
    record::lemma_le_roundtrip(frame.len(), 4);
    if cut >= 4 {
        assert(data.subrange(0, 4) =~= len);
        if cut >= 4 + frame.len() {
            let before = len + frame;
            let part = record::frames_bytes(rest).take(cut - before.len());
            assert(data =~= before + part);
            assert forall|i: int| 0 <= i < rest.len() implies (#[trigger] rest[i]).len()
                < 0x1_0000_0000 by {
                assert(rest[i] == frames[i + 1]);
            }
            lemma_frames_cut(rest, cut - before.len());
            lemma_frames_move(before, part, 0, rest.len());
        }
    }
}

/// A record that is cut off, wherever the cut is, is no record.
pub proof fn law_cut_record_is_no_record(seq: u64, ms: u64, frames: Seq<Seq<u8>>, cut: int)
    requires
        record::writable(frames),
        0 <= cut < record::record_bytes(seq, ms, frames).len(),
    ensures
        record::record_at(record::record_bytes(seq, ms, frames).take(cut), 0) is None,
{
    let head = record::head_bytes(seq, ms, frames.len());
    let body = record::frames_bytes(frames);
    let data = record::record_bytes(seq, ms, frames).take(cut);
    lemma_head_len(seq, ms, frames.len());
    if cut >= record::HEAD_LEN {
        let part = body.take(cut - head.len());
        assert(data =~= head + part);
        powers::lemma_pow256_values();
        record::lemma_le_bytes_len(seq as nat, 8);
        record::lemma_le_bytes_len(ms as nat, 8);
        record::lemma_le_roundtrip(frames.len(), 4);
        assert(data.subrange(16, 20) =~= record::le_bytes(frames.len(), 4));
        lemma_frames_cut(frames, cut - head.len());
        lemma_frames_move(head, part, 0, frames.len());
    }
}

// The records of a segment.

proof fn lemma_clean_end_bounds(data: Seq<u8>, at: int)
    requires
        at <= data.len(),
    ensures
        at <= store::clean_end(data, at) <= data.len(),
    decreases data.len() - at,
{
    store::lemma_record_bounds(data, at);
    if let Some((_, end)) = record::record_at(data, at) {
        lemma_clean_end_bounds(data, end);
    }
}

proof fn lemma_clean_part(data: Seq<u8>, at: int)
    requires
        0 <= at <= data.len(),
    ensures
        ({
            let part = data.take(store::clean_end(data, at));
            &&& store::outlines(part, at) == store::outlines(data, at)
            &&& store::clean_end(part, at) == part.len()
        }),
    decreases data.len() - at,
{
    lemma_clean_end_bounds(data, at);
    store::lemma_record_bounds(data, at);
    let n = store::clean_end(data, at);
    if let Some((_, end)) = record::record_at(data, at) {
        lemma_clean_end_bounds(data, end);
        lemma_clean_part(data, end);
        lemma_record_prefix(data, n, at);
    }
}

proof fn lemma_outlines_with_tail(data: Seq<u8>, tail: Seq<u8>, at: int)
    requires
        0 <= at <= data.len(),
        store::clean_end(data, at) == data.len(),
    ensures
        store::outlines(data + tail, at) == store::outlines(data, at) + store::outlines(
            data + tail,
            data.len() as int,
        ),
        store::clean_end(data + tail, at) == store::clean_end(data + tail, data.len() as int),
    decreases data.len() - at,
{
    let all = data + tail;
    store::lemma_record_bounds(data, at);
    if let Some((found, end)) = record::record_at(data, at) {
        assert(all.take(data.len() as int) =~= data);
        lemma_record_extends(data, tail, at);
        lemma_outlines_with_tail(data, tail, end);
        let o = Outline { seq: found.seq, ms: found.ms, offset: at, end };
        assert(store::outlines(all, at) =~= store::outlines(data, at) + store::outlines(
            all,
            data.len() as int,
        ));
    } else {
        assert(store::outlines(data, at) + store::outlines(all, at) =~= store::outlines(all, at));
    }
}

proof fn lemma_frames_extend(data: Seq<u8>, tail: Seq<u8>, at: int, count: nat)
    requires
        0 <= at,
        record::frames_at(data, at, count) is Some,
    ensures
        record::frames_at(data + tail, at, count) == record::frames_at(data, at, count),
    decreases count,
{
    if count > 0 {
        let next = at + 4 + record::le_value(data.subrange(at, at + 4));
        assert((data + tail).subrange(at, at + 4) =~= data.subrange(at, at + 4));
        assert((data + tail).subrange(at + 4, next) =~= data.subrange(at + 4, next));
        lemma_frames_extend(data, tail, next, (count - 1) as nat);
    }
}

proof fn lemma_record_extends(data: Seq<u8>, tail: Seq<u8>, at: int)
    requires
        0 <= at,
        record::record_at(data, at) is Some,
    ensures
        record::record_at(data + tail, at) == record::record_at(data, at),
{
    let all = data + tail;
    assert(all.subrange(at, at + 8) =~= data.subrange(at, at + 8));
    assert(all.subrange(at + 8, at + 16) =~= data.subrange(at + 8, at + 16));
    assert(all.subrange(at + 16, at + 20) =~= data.subrange(at + 16, at + 20));
    lemma_frames_extend(
        data,
        tail,
        at + 20,
        record::le_value(data.subrange(at + 16, at + 20)),
    );
}

proof fn lemma_outlines_append(data: Seq<u8>, seq: u64, ms: u64, frames: Seq<Seq<u8>>)
    requires
        whole(data),
        record::writable(frames),
    ensures
        ({
            let rec = record::record_bytes(seq, ms, frames);
            let end = (data.len() + rec.len()) as int;
            &&& store::outlines(data + rec, 0) == store::outlines(data, 0).push(
                Outline { seq, ms, offset: data.len() as int, end },
            )
            &&& whole(data + rec)
        }),
{
    let rec = record::record_bytes(seq, ms, frames);
    let all = data + rec;
    let here = data.len() as int;
    let end = (data.len() + rec.len()) as int;
    let nothing: Seq<u8> = Seq::empty();
    law_record_roundtrip(seq, ms, frames, nothing);
    assert(rec + nothing =~= rec);
    lemma_record_moves(data, rec, 0);
    lemma_outlines_with_tail(data, rec, 0);
    assert(record::record_at(all, end) is None);
    let o = Outline { seq, ms, offset: here, end };
    assert(store::outlines(all, end) =~= Seq::empty());
    assert(store::outlines(all, here) =~= seq![o]);
    assert(store::clean_end(all, end) == end);
    assert(store::outlines(data, 0) + seq![o] =~= store::outlines(data, 0).push(o));
}

/// A segment that ends in a torn record holds what it holds without it: the
/// torn bytes are found, and only they are to be cut away.
pub proof fn law_torn_tail_is_cut_away(
    data: Seq<u8>,
    seq: u64,
    ms: u64,
    frames: Seq<Seq<u8>>,
    cut: int,
)
    requires
        whole(data),
        record::writable(frames),
        0 <= cut < record::record_bytes(seq, ms, frames).len(),
    ensures
        ({
            let torn = data + record::record_bytes(seq, ms, frames).take(cut);
            &&& store::outlines(torn, 0) == store::outlines(data, 0)
            &&& store::clean_end(torn, 0) == data.len()
            &&& torn.take(store::clean_end(torn, 0)) == data
        }),
{
    let tail = record::record_bytes(seq, ms, frames).take(cut);
    let torn = data + tail;
    law_cut_record_is_no_record(seq, ms, frames, cut);
    lemma_record_moves(data, tail, 0);
    lemma_outlines_with_tail(data, tail, 0);
    assert(store::outlines(torn, data.len() as int) =~= Seq::empty());
    assert(store::outlines(data, 0) + store::outlines(torn, data.len() as int)
        =~= store::outlines(data, 0));
    assert(torn.take(data.len() as int) =~= data);
}

// The catalog and the files.

/// A store without segments describes an empty disk.
pub proof fn law_empty_store()
    ensures
        describes(store::empty_catalog(), Seq::empty()),
        store::empty_catalog().max_seq == high_water(Seq::empty()),
{
}

/// Scanning a segment file, and cutting its torn tail away, makes the catalog
/// describe it too; and the high-water sequence covers it.
pub proof fn law_scan_describes_the_file(
    c: Catalog,
    disk: Seq<Seq<u8>>,
    name: Seq<char>,
    data: Seq<u8>,
)
    requires
        describes(c, disk),
        disk.len() < usize::MAX,
        data.len() <= u64::MAX,
    ensures
        describes(
            store::scanned(c, name, data),
            disk.push(data.take(store::clean_end(data, 0))),
        ),
        c.max_seq == high_water(disk) ==> store::scanned(c, name, data).max_seq == high_water(
            disk.push(data.take(store::clean_end(data, 0))),
        ),
{
    let part = data.take(store::clean_end(data, 0));
    let after = store::scanned(c, name, data);
    let more = disk.push(part);
    lemma_clean_end_bounds(data, 0);
    lemma_clean_part(data, 0);
    assert(more.drop_last() =~= disk);
    assert forall|i: int| 0 <= i < more.len() implies segment_describes(
        #[trigger] after.segments[i],
        more[i],
    ) by {
        if i < disk.len() {
            assert(after.segments[i] == c.segments[i]);
        }
    }
}

/// The files after a record was written: at the end of a new file where the
/// store rotates, else at the end of the last one.
pub open spec fn written(rotate: bool, disk: Seq<Seq<u8>>, rec: Seq<u8>) -> Seq<Seq<u8>> {
    if rotate {
        disk.push(rec)
    } else {
        disk.drop_last().push(disk.last() + rec)
    }
}

proof fn lemma_indexed_push(
    index: Map<u64, Location>,
    found: Seq<Outline>,
    segment: int,
    o: Outline,
)
    ensures
        store::indexed(index, found.push(o), segment) == store::indexed(
            index,
            found,
            segment,
        ).insert(o.seq, store::location_of(o, segment)),
{
    assert(found.push(o).drop_last() =~= found);
}

proof fn lemma_raised_push(max_seq: Option<u64>, found: Seq<Outline>, o: Outline)
    ensures
        store::raised_by(max_seq, found.push(o)) == store::raised(
            store::raised_by(max_seq, found),
            o.seq,
        ),
{
    assert(found.push(o).drop_last() =~= found);
}

/// The sizes after a record of `len` bytes stay within what the store counts
/// in.
pub open spec fn room_for(disk: Seq<Seq<u8>>, len: nat) -> bool {
    &&& disk.len() < usize::MAX
    &&& len <= u64::MAX
    &&& disk.len() > 0 ==> disk.last().len() + len <= u64::MAX
}

/// What the last file holds before the record is written.
spec fn last_before(rotate: bool, disk: Seq<Seq<u8>>) -> Seq<u8> {
    if rotate {
        Seq::empty()
    } else {
        disk.last()
    }
}

proof fn lemma_append_last(
    c: Catalog,
    disk: Seq<Seq<u8>>,
    target: u64,
    seq: u64,
    ms: u64,
    frames: Seq<Seq<u8>>,
)
    requires
        describes(c, disk),
        room_for(disk, record::record_bytes(seq, ms, frames).len()),
        record::writable(frames),
    ensures
        ({
            let rec = record::record_bytes(seq, ms, frames);
            let rotate = store::rotates(c, target);
            let data = last_before(rotate, disk);
            let all = written(rotate, disk, rec);
            let found = store::outlines(data, 0);
            let open = store::opened(c, target, seq);
            let o = Outline {
                seq,
                ms,
                offset: data.len() as int,
                end: (data.len() + rec.len()) as int,
            };
            &&& all.len() == open.segments.len() <= usize::MAX
            &&& all.last() == data + rec
            &&& whole(all.last())
            &&& store::outlines(all.last(), 0) == found.push(o)
            &&& rotate ==> found.len() == 0
            &&& open.segments.last().bytes == data.len()
            &&& all.drop_last() == (if rotate {
                disk
            } else {
                disk.drop_last()
            })
        }),
{
    let rec = record::record_bytes(seq, ms, frames);
    let rotate = store::rotates(c, target);
    let data = last_before(rotate, disk);
    let all = written(rotate, disk, rec);
    if rotate {
        assert(record::record_at(data, 0) is None);
    } else {
        assert(segment_describes(c.segments[disk.len() - 1], disk[disk.len() - 1]));
    }
    assert(all.last() =~= data + rec);
    lemma_outlines_append(data, seq, ms, frames);
    assert(all.drop_last() =~= if rotate {
        disk
    } else {
        disk.drop_last()
    });
}

proof fn lemma_append_index(
    c: Catalog,
    disk: Seq<Seq<u8>>,
    target: u64,
    seq: u64,
    ms: u64,
    frames: Seq<Seq<u8>>,
)
    requires
        describes(c, disk),
        room_for(disk, record::record_bytes(seq, ms, frames).len()),
        record::writable(frames),
    ensures
        ({
            let rec = record::record_bytes(seq, ms, frames);
            let after = store::appended(store::opened(c, target, seq), seq, ms, rec.len());
            let all = written(store::rotates(c, target), disk, rec);
            &&& after.index == index_of(all)
            &&& c.max_seq == high_water(disk) ==> after.max_seq == high_water(all)
        }),
{
    let rec = record::record_bytes(seq, ms, frames);
    let rotate = store::rotates(c, target);
    let data = last_before(rotate, disk);
    let all = written(rotate, disk, rec);
    let n = all.len() - 1;
    let found = store::outlines(data, 0);
    let o = Outline {
        seq,
        ms,
        offset: data.len() as int,
        end: (data.len() + rec.len()) as int,
    };
    lemma_append_last(c, disk, target, seq, ms, frames);
    lemma_indexed_push(index_of(all.drop_last()), found, n, o);
    lemma_raised_push(high_water(all.drop_last()), found, o);
}

proof fn lemma_append_segments(
    c: Catalog,
    disk: Seq<Seq<u8>>,
    target: u64,
    seq: u64,
    ms: u64,
    frames: Seq<Seq<u8>>,
)
    requires
        describes(c, disk),
        room_for(disk, record::record_bytes(seq, ms, frames).len()),
        record::writable(frames),
    ensures
        ({
            let rec = record::record_bytes(seq, ms, frames);
            let after = store::appended(store::opened(c, target, seq), seq, ms, rec.len());
            let all = written(store::rotates(c, target), disk, rec);
            &&& after.segments.len() == all.len() <= usize::MAX
            &&& forall|i: int|
                0 <= i < all.len() ==> segment_describes(#[trigger] after.segments[i], all[i])
        }),
{
    let rec = record::record_bytes(seq, ms, frames);
    let rotate = store::rotates(c, target);
    let data = last_before(rotate, disk);
    let all = written(rotate, disk, rec);
    let n = all.len() - 1;
    let after = store::appended(store::opened(c, target, seq), seq, ms, rec.len());
    lemma_append_last(c, disk, target, seq, ms, frames);
    assert forall|i: int| 0 <= i < all.len() implies segment_describes(
        #[trigger] after.segments[i],
        all[i],
    ) by {
        if i < n {
            assert(after.segments[i] == c.segments[i]);
            assert(all[i] == disk[i]);
        } else {
            assert(store::outlines(all[n], 0).last().ms == ms);
        }
    }
}

/// An append that is written and committed leaves a catalog that describes the
/// files: every group where it was, and the new one where it was written; and
/// the high-water sequence covers it.
pub proof fn law_append_describes_the_record(
    c: Catalog,
    disk: Seq<Seq<u8>>,
    target: u64,
    seq: u64,
    ms: u64,
    frames: Seq<Seq<u8>>,
)
    requires
        describes(c, disk),
        room_for(disk, record::record_bytes(seq, ms, frames).len()),
        record::writable(frames),
    ensures
        ({
            let rec = record::record_bytes(seq, ms, frames);
            let after = store::appended(store::opened(c, target, seq), seq, ms, rec.len());
            let all = written(store::rotates(c, target), disk, rec);
            &&& describes(after, all)
            &&& c.max_seq == high_water(disk) ==> after.max_seq == high_water(all)
            &&& after.index.contains_key(seq)
            &&& stored(all, after.index[seq]) == rec
        }),
{
    let rec = record::record_bytes(seq, ms, frames);
    let after = store::appended(store::opened(c, target, seq), seq, ms, rec.len());
    let all = written(store::rotates(c, target), disk, rec);
    lemma_append_last(c, disk, target, seq, ms, frames);
    lemma_append_index(c, disk, target, seq, ms, frames);
    lemma_append_segments(c, disk, target, seq, ms, frames);
    assert(stored(all, after.index[seq]) =~= rec);
}

/// An append touches no other group: each stays where it was, with the bytes
/// that it had, and none comes up that was not there.
pub proof fn law_append_keeps_other_groups(
    c: Catalog,
    disk: Seq<Seq<u8>>,
    target: u64,
    seq: u64,
    ms: u64,
    frames: Seq<Seq<u8>>,
    other: u64,
)
    requires
        describes(c, disk),
        room_for(disk, record::record_bytes(seq, ms, frames).len()),
        record::writable(frames),
        other != seq,
    ensures
        ({
            let rec = record::record_bytes(seq, ms, frames);
            let after = store::appended(store::opened(c, target, seq), seq, ms, rec.len());
            let all = written(store::rotates(c, target), disk, rec);
            &&& after.index.contains_key(other) <==> c.index.contains_key(other)
            &&& c.index.contains_key(other) ==> {
                &&& after.index[other] == c.index[other]
                &&& stored(all, after.index[other]) == stored(disk, c.index[other])
            }
        }),
{
    let rec = record::record_bytes(seq, ms, frames);
    let all = written(store::rotates(c, target), disk, rec);
    lemma_append_last(c, disk, target, seq, ms, frames);
    if c.index.contains_key(other) {
        law_stored_group_is_readable(c, disk, other);
        let location = c.index[other];
        let i = location.segment as int;
        if i < all.len() - 1 {
            assert(all[i] == all.drop_last()[i]);
            assert(all[i] == disk[i]);
        } else {
            assert(all[i] == disk[i] + rec);
        }
        assert(stored(all, location) =~= stored(disk, location));
    }
}

/// These are the outlines of the records in `data`.
spec fn outlined(data: Seq<u8>, found: Seq<Outline>) -> bool {
    forall|i: int|
        0 <= i < found.len() ==> {
            let o = #[trigger] found[i];
            &&& 0 <= o.offset <= o.end <= data.len()
            &&& record::record_at(data, o.offset) matches Some((r, end)) && r.seq == o.seq && r.ms
                == o.ms && end == o.end
        }
}

proof fn lemma_outlined(data: Seq<u8>, at: int)
    requires
        0 <= at <= data.len(),
    ensures
        outlined(data, store::outlines(data, at)),
    decreases data.len() - at,
{
    store::lemma_record_bounds(data, at);
    if let Some((_, end)) = record::record_at(data, at) {
        lemma_outlined(data, end);
        let all = store::outlines(data, at);
        let rest = store::outlines(data, end);
        assert forall|i: int| 0 <= i < all.len() implies {
            let o = #[trigger] all[i];
            &&& 0 <= o.offset <= o.end <= data.len()
            &&& record::record_at(data, o.offset) matches Some((r, e)) && r.seq == o.seq && r.ms
                == o.ms && e == o.end
        } by {
            if i > 0 {
                assert(all[i] == rest[i - 1]);
            }
        }
    }
}

proof fn lemma_indexed_from(
    index: Map<u64, Location>,
    found: Seq<Outline>,
    segment: int,
    seq: u64,
)
    requires
        store::indexed(index, found, segment).contains_key(seq),
    ensures
        ({
            let location = store::indexed(index, found, segment)[seq];
            ||| index.contains_key(seq) && location == index[seq]
            ||| exists|i: int|
                0 <= i < found.len() && (#[trigger] found[i]).seq == seq && location
                    == store::location_of(found[i], segment)
        }),
    decreases found.len(),
{
    if found.len() > 0 {
        let last = found.last();
        if last.seq == seq {
            assert(found[found.len() - 1] == last);
        } else {
            lemma_indexed_from(index, found.drop_last(), segment, seq);
            if exists|i: int|
                0 <= i < found.len() - 1 && (#[trigger] found.drop_last()[i]).seq == seq
                    && store::indexed(index, found, segment)[seq] == store::location_of(
                    found.drop_last()[i],
                    segment,
                ) {
                let i = choose|i: int|
                    0 <= i < found.len() - 1 && (#[trigger] found.drop_last()[i]).seq == seq
                        && store::indexed(index, found, segment)[seq] == store::location_of(
                        found.drop_last()[i],
                        segment,
                    );
                assert(found[i] == found.drop_last()[i]);
            }
        }
    }
}

proof fn lemma_index_of(disk: Seq<Seq<u8>>, seq: u64)
    requires
        disk.len() <= usize::MAX,
        forall|i: int| 0 <= i < disk.len() ==> (#[trigger] disk[i]).len() <= u64::MAX,
        index_of(disk).contains_key(seq),
    ensures
        ({
            let location = index_of(disk)[seq];
            let data = disk[location.segment as int];
            &&& location.segment < disk.len()
            &&& location.offset + location.len <= data.len()
            &&& record::record_at(data, location.offset as int) matches Some((r, end)) && r.seq
                == seq && r.ms == location.created_ms && end == location.offset + location.len
        }),
    decreases disk.len(),
{
    let n = disk.len() - 1;
    let found = store::outlines(disk.last(), 0);
    lemma_outlined(disk.last(), 0);
    lemma_indexed_from(index_of(disk.drop_last()), found, n, seq);
    let location = index_of(disk)[seq];
    if exists|i: int|
        0 <= i < found.len() && (#[trigger] found[i]).seq == seq && location == store::location_of(
            found[i],
            n,
        ) {
        let i = choose|i: int|
            0 <= i < found.len() && (#[trigger] found[i]).seq == seq && location
                == store::location_of(found[i], n);
        assert(disk[n] == disk.last());
    } else {
        assert forall|i: int| 0 <= i < disk.drop_last().len() implies (
        #[trigger] disk.drop_last()[i]).len() <= u64::MAX by {
            assert(disk.drop_last()[i] == disk[i]);
        }
        lemma_index_of(disk.drop_last(), seq);
        assert(disk.drop_last()[location.segment as int] == disk[location.segment as int]);
    }
}

/// Every group in the catalog is on disk where the catalog says: reading the
/// bytes there gives that group, with its time. No group that is stored is
/// found truncated or mistaken for another.
pub proof fn law_stored_group_is_readable(c: Catalog, disk: Seq<Seq<u8>>, seq: u64)
    requires
        describes(c, disk),
        c.index.contains_key(seq),
    ensures
        ({
            let location = c.index[seq];
            &&& location.segment < disk.len()
            &&& location.offset + location.len <= disk[location.segment as int].len()
            &&& record::record_at(stored(disk, location), 0) matches Some((r, end)) && r.seq == seq
                && r.ms == location.created_ms && end == location.len
        }),
{
    assert forall|i: int| 0 <= i < disk.len() implies (#[trigger] disk[i]).len() <= u64::MAX by {
        assert(segment_describes(c.segments[i], disk[i]));
    }
    lemma_index_of(disk, seq);
    let location = c.index[seq];
    let data = disk[location.segment as int];
    let end = location.offset + location.len;
    lemma_record_prefix(data, end, location.offset as int);
    let before = data.take(location.offset as int);
    assert(data.take(end) =~= before + stored(disk, location));
    lemma_record_moves(before, stored(disk, location), 0);
}

/// A group that was appended is read back: the frames that went in are the
/// frames that come out.
pub proof fn law_read_gives_back_append(
    c: Catalog,
    disk: Seq<Seq<u8>>,
    target: u64,
    seq: u64,
    ms: u64,
    frames: Seq<Seq<u8>>,
)
    requires
        describes(c, disk),
        room_for(disk, record::record_bytes(seq, ms, frames).len()),
        record::writable(frames),
    ensures
        ({
            let rec = record::record_bytes(seq, ms, frames);
            let after = store::appended(store::opened(c, target, seq), seq, ms, rec.len());
            let disk_after = written(store::rotates(c, target), disk, rec);
            record::record_at(stored(disk_after, after.index[seq]), 0) == Some(
                (Record { seq, ms, frames }, rec.len() as int),
            )
        }),
{
    law_append_describes_the_record(c, disk, target, seq, ms, frames);
    let nothing: Seq<u8> = Seq::empty();
    let rec = record::record_bytes(seq, ms, frames);
    assert(rec + nothing =~= rec);
    law_record_roundtrip(seq, ms, frames, nothing);
}

/// Segment files by name and bytes, with torn tails cut away.
pub open spec fn cleaned(files: Seq<(Seq<char>, Seq<u8>)>) -> Seq<Seq<u8>> {
    files.map_values(
        |file: (Seq<char>, Seq<u8>)| file.1.take(store::clean_end(file.1, 0)),
    )
}

/// Opening a store from its files describes them, torn tails cut away, and
/// recovers the high-water sequence.
pub proof fn law_open_describes_the_files(files: Seq<(Seq<char>, Seq<u8>)>)
    requires
        files.len() <= usize::MAX,
        forall|i: int| 0 <= i < files.len() ==> (#[trigger] files[i]).1.len() <= u64::MAX,
    ensures
        describes(store::scanned_all(store::empty_catalog(), files), cleaned(files)),
        store::scanned_all(store::empty_catalog(), files).max_seq == high_water(cleaned(files)),
    decreases files.len(),
{
    if files.len() == 0 {
        assert(cleaned(files) =~= Seq::empty());
    } else {
        let some = files.drop_last();
        assert forall|i: int| 0 <= i < some.len() implies (#[trigger] some[i]).1.len()
            <= u64::MAX by {
            assert(some[i] == files[i]);
        }
        law_open_describes_the_files(some);
        let (name, data) = files.last();
        assert(files[files.len() - 1] == files.last());
        law_scan_describes_the_file(
            store::scanned_all(store::empty_catalog(), some),
            cleaned(some),
            name,
            data,
        );
        assert(cleaned(files) =~= cleaned(some).push(data.take(store::clean_end(data, 0))));
    }
}

/// A restart loses nothing: a store opened from the files that another one
/// describes has the same groups in the same places, and its high-water
/// sequence is the highest sequence on disk.
pub proof fn law_reopen_recovers(
    c: Catalog,
    disk: Seq<Seq<u8>>,
    files: Seq<(Seq<char>, Seq<u8>)>,
)
    requires
        describes(c, disk),
        files.len() == disk.len(),
        forall|i: int| 0 <= i < files.len() ==> (#[trigger] files[i]).1 == disk[i],
    ensures
        store::scanned_all(store::empty_catalog(), files).index == c.index,
        store::scanned_all(store::empty_catalog(), files).max_seq == high_water(disk),
        describes(store::scanned_all(store::empty_catalog(), files), disk),
{
    assert forall|i: int| 0 <= i < files.len() implies (#[trigger] files[i]).1.len() <= u64::MAX
        && files[i].1.take(store::clean_end(files[i].1, 0)) == disk[i] by {
        assert(segment_describes(c.segments[i], disk[i]));
        assert(disk[i].take(disk[i].len() as int) =~= disk[i]);
    }
    assert(cleaned(files) =~= disk);
    law_open_describes_the_files(files);
}

proof fn lemma_raised_covers(max_seq: Option<u64>, found: Seq<Outline>, i: int)
    requires
        0 <= i < found.len(),
    ensures
        store::raised_by(max_seq, found) matches Some(m) && found[i].seq <= m,
    decreases found.len(),
{
    if i < found.len() - 1 {
        assert(found.drop_last()[i] == found[i]);
        lemma_raised_covers(max_seq, found.drop_last(), i);
    }
}

proof fn lemma_raised_keeps(max_seq: Option<u64>, found: Seq<Outline>)
    ensures
        max_seq matches Some(a) ==> store::raised_by(max_seq, found) matches Some(b) && a <= b,
    decreases found.len(),
{
    if found.len() > 0 {
        lemma_raised_keeps(max_seq, found.drop_last());
    }
}

/// No group on disk has a sequence above the high-water sequence: a sequence
/// above it is new.
pub proof fn law_high_water_covers_every_group(disk: Seq<Seq<u8>>, seq: u64)
    requires
        index_of(disk).contains_key(seq),
    ensures
        high_water(disk) matches Some(m) && seq <= m,
    decreases disk.len(),
{
    let found = store::outlines(disk.last(), 0);
    let n = disk.len() - 1;
    lemma_indexed_from(index_of(disk.drop_last()), found, n, seq);
    if exists|i: int| 0 <= i < found.len() && (#[trigger] found[i]).seq == seq {
        let i = choose|i: int| 0 <= i < found.len() && (#[trigger] found[i]).seq == seq;
        lemma_raised_covers(high_water(disk.drop_last()), found, i);
    } else {
        law_high_water_covers_every_group(disk.drop_last(), seq);
        lemma_raised_keeps(high_water(disk.drop_last()), found);
    }
}

// Garbage collection.

spec fn shifted(index: Map<u64, Location>) -> Map<u64, Location> {
    Map::new(
        |seq: u64| index.contains_key(seq) && index[seq].segment > 0,
        |seq: u64| Location { segment: (index[seq].segment - 1) as usize, ..index[seq] },
    )
}

proof fn lemma_shifted_indexed(index: Map<u64, Location>, found: Seq<Outline>, segment: int)
    requires
        0 < segment <= usize::MAX,
    ensures
        shifted(store::indexed(index, found, segment)) == store::indexed(
            shifted(index),
            found,
            segment - 1,
        ),
    decreases found.len(),
{
    if found.len() > 0 {
        lemma_shifted_indexed(index, found.drop_last(), segment);
        assert(shifted(store::indexed(index, found, segment)) =~= store::indexed(
            shifted(index),
            found,
            segment - 1,
        ));
    }
}

proof fn lemma_first_only(found: Seq<Outline>)
    ensures
        shifted(store::indexed(Map::empty(), found, 0)) == Map::<u64, Location>::empty(),
    decreases found.len(),
{
    if found.len() > 0 {
        lemma_first_only(found.drop_last());
        let before = store::indexed(Map::empty(), found.drop_last(), 0);
        assert forall|seq: u64| !shifted(
            store::indexed(Map::empty(), found, 0),
        ).contains_key(seq) by {
            assert(!shifted(before).contains_key(seq));
        }
    }
    assert(shifted(store::indexed(Map::empty(), found, 0)) =~= Map::<u64, Location>::empty());
}

proof fn lemma_index_of_rest(disk: Seq<Seq<u8>>)
    requires
        0 < disk.len() <= usize::MAX,
    ensures
        index_of(disk.drop_first()) == shifted(index_of(disk)),
    decreases disk.len(),
{
    let rest = disk.drop_first();
    let found = store::outlines(disk.last(), 0);
    if disk.len() == 1 {
        assert(disk.drop_last() =~= Seq::empty());
        assert(rest =~= Seq::empty());
        lemma_first_only(found);
    } else {
        lemma_index_of_rest(disk.drop_last());
        assert(rest.drop_last() =~= disk.drop_last().drop_first());
        assert(rest.last() == disk.last());
        lemma_shifted_indexed(index_of(disk.drop_last()), found, disk.len() - 1);
    }
}

/// Dropping the oldest segment drops the groups stored in it and no others:
/// the catalog describes the files that are left, and every group that is left
/// has the bytes that it had.
pub proof fn law_dropping_a_segment_keeps_the_rest(c: Catalog, disk: Seq<Seq<u8>>)
    requires
        describes(c, disk),
        disk.len() > 0,
    ensures
        describes(store::without_first(c), disk.drop_first()),
        forall|seq: u64| #[trigger]
            c.index.contains_key(seq) ==> {
                let after = store::without_first(c).index;
                &&& after.contains_key(seq) <==> c.index[seq].segment > 0
                &&& after.contains_key(seq) ==> stored(disk.drop_first(), after[seq]) == stored(
                    disk,
                    c.index[seq],
                )
            },
{
    let after = store::without_first(c);
    let rest = disk.drop_first();
    lemma_index_of_rest(disk);
    assert(after.index =~= shifted(c.index));
    assert forall|i: int| 0 <= i < rest.len() implies segment_describes(
        #[trigger] after.segments[i],
        rest[i],
    ) by {
        assert(segment_describes(c.segments[i + 1], disk[i + 1]));
    }
    assert forall|seq: u64| #[trigger] c.index.contains_key(seq) && after.index.contains_key(
        seq,
    ) implies stored(rest, after.index[seq]) == stored(disk, c.index[seq]) by {
        law_stored_group_is_readable(c, disk, seq);
        assert(rest[after.index[seq].segment as int] == disk[c.index[seq].segment as int]);
    }
}

/// Garbage collection keeps the catalog in step with the files that are left,
/// and drops exactly the groups stored in the segments that it drops: every
/// other group has the bytes that it had. The high-water sequence stays.
pub proof fn law_gc_keeps_the_rest(c: Catalog, disk: Seq<Seq<u8>>, n: nat)
    requires
        describes(c, disk),
        n <= disk.len(),
    ensures
        describes(store::without(c, n), disk.skip(n as int)),
        store::without(c, n).max_seq == c.max_seq,
        forall|seq: u64| #[trigger]
            store::without(c, n).index.contains_key(seq) <==> c.index.contains_key(seq)
                && c.index[seq].segment >= n,
        forall|seq: u64| #[trigger]
            store::without(c, n).index.contains_key(seq) ==> stored(
                disk.skip(n as int),
                store::without(c, n).index[seq],
            ) == stored(disk, c.index[seq]),
    decreases n,
{
    if n > 0 {
        let less = store::without_first(c);
        law_dropping_a_segment_keeps_the_rest(c, disk);
        law_gc_keeps_the_rest(less, disk.drop_first(), (n - 1) as nat);
        assert(disk.skip(n as int) =~= disk.drop_first().skip(n - 1));
        assert forall|seq: u64| #[trigger]
            store::without(c, n).index.contains_key(seq) implies stored(
            disk.skip(n as int),
            store::without(c, n).index[seq],
        ) == stored(disk, c.index[seq]) by {
            assert(less.index.contains_key(seq));
            assert(c.index.contains_key(seq));
        }
    } else {
        assert(disk.skip(0) =~= disk);
    }
}

proof fn lemma_without_segments(c: Catalog, n: nat)
    requires
        n <= c.segments.len(),
    ensures
        store::without(c, n).segments == c.segments.skip(n as int),
    decreases n,
{
    if n > 0 {
        lemma_without_segments(store::without_first(c), (n - 1) as nat);
        assert(c.segments.skip(n as int) =~= c.segments.drop_first().skip(n - 1));
    } else {
        assert(c.segments.skip(0) =~= c.segments);
    }
}

proof fn lemma_expired_rest(segments: Seq<SegmentState>, cutoff_ms: u64)
    ensures
        store::expired(segments, cutoff_ms) <= segments.len(),
        store::expired(
            segments.skip(store::expired(segments, cutoff_ms) as int),
            cutoff_ms,
        ) == 0,
    decreases segments.len(),
{
    let n = store::expired(segments, cutoff_ms);
    if n > 0 {
        lemma_expired_rest(segments.drop_first(), cutoff_ms);
        assert(segments.skip(n as int) =~= segments.drop_first().skip(n - 1));
    } else {
        assert(segments.skip(0) =~= segments);
    }
}

/// A second garbage collection with the same cutoff drops nothing.
pub proof fn law_gc_again_drops_nothing(c: Catalog, cutoff_ms: u64)
    ensures
        ({
            let after = store::without(c, store::expired(c.segments, cutoff_ms));
            &&& store::expired(after.segments, cutoff_ms) == 0
            &&& store::without(after, store::expired(after.segments, cutoff_ms)) == after
        }),
{
    lemma_expired_rest(c.segments, cutoff_ms);
    lemma_without_segments(c, store::expired(c.segments, cutoff_ms));
}

/// The groups of a segment were made in the order in which they were stored.
pub open spec fn records_in_time(found: Seq<Outline>) -> bool {
    forall|a: int, b: int|
        0 <= a < b < found.len() ==> (#[trigger] found[a]).ms <= (#[trigger] found[b]).ms
}

/// The groups of a store were made in the order in which they were stored.
pub open spec fn in_time(c: Catalog, disk: Seq<Seq<u8>>) -> bool {
    &&& forall|i: int, j: int|
        0 <= i < j < c.segments.len() ==> (#[trigger] c.segments[i]).newest_ms <= (
        #[trigger] c.segments[j]).newest_ms
    &&& forall|i: int|
        0 <= i < disk.len() ==> records_in_time(store::outlines(#[trigger] disk[i], 0))
}

/// Groups that are appended in the order in which they were made stay in that
/// order.
pub proof fn law_appends_in_time_stay_in_time(
    c: Catalog,
    disk: Seq<Seq<u8>>,
    target: u64,
    seq: u64,
    ms: u64,
    frames: Seq<Seq<u8>>,
)
    requires
        describes(c, disk),
        in_time(c, disk),
        room_for(disk, record::record_bytes(seq, ms, frames).len()),
        record::writable(frames),
        c.segments.len() > 0 ==> c.segments.last().newest_ms <= ms,
    ensures
        ({
            let rec = record::record_bytes(seq, ms, frames);
            let after = store::appended(store::opened(c, target, seq), seq, ms, rec.len());
            let all = written(store::rotates(c, target), disk, rec);
            in_time(after, all) && after.segments.last().newest_ms == ms
        }),
{
    let rec = record::record_bytes(seq, ms, frames);
    let rotate = store::rotates(c, target);
    let data = last_before(rotate, disk);
    let after = store::appended(store::opened(c, target, seq), seq, ms, rec.len());
    let all = written(rotate, disk, rec);
    let n = all.len() - 1;
    lemma_append_last(c, disk, target, seq, ms, frames);
    assert forall|i: int, j: int| 0 <= i < j < after.segments.len() implies (
    #[trigger] after.segments[i]).newest_ms <= (#[trigger] after.segments[j]).newest_ms by {
        assert(after.segments[i].newest_ms == c.segments[i].newest_ms);
        if j < n {
            assert(after.segments[j].newest_ms == c.segments[j].newest_ms);
        } else {
            assert(c.segments[i].newest_ms <= c.segments[c.segments.len() - 1].newest_ms);
        }
    }
    assert forall|i: int| 0 <= i < all.len() implies records_in_time(
        store::outlines(#[trigger] all[i], 0),
    ) by {
        if i < n {
            assert(all[i] == all.drop_last()[i]);
            assert(all[i] == disk[i]);
        } else {
            let found = store::outlines(data, 0);
            let more = store::outlines(all[n], 0);
            assert forall|a: int, b: int| 0 <= a < b < more.len() implies (#[trigger] more[a]).ms
                <= (#[trigger] more[b]).ms by {
                assert(more[a] == found[a]);
                if !rotate {
                    assert(disk[disk.len() - 1] == data);
                    assert(segment_describes(c.segments[disk.len() - 1], data));
                    assert(found[a].ms <= found.last().ms) by {
                        if a < found.len() - 1 {
                            assert(found[a].ms <= found[found.len() - 1].ms);
                        }
                    }
                    if b < found.len() {
                        assert(more[b] == found[b]);
                    }
                }
            }
        }
    }
}

/// Of groups that were stored in the order in which they were made, garbage
/// collection drops exactly the segments, other than the last, whose newest
/// group is older than the cutoff. Every group that is as new as the cutoff,
/// and every group in the last segment, stays, with the bytes that it had; every
/// group that is dropped is older. The high-water sequence stays.
pub proof fn law_gc_drops_what_is_old(c: Catalog, disk: Seq<Seq<u8>>, cutoff_ms: u64, seq: u64)
    requires
        describes(c, disk),
        in_time(c, disk),
        c.index.contains_key(seq),
    ensures
        ({
            let n = store::expired(c.segments, cutoff_ms);
            let after = store::without(c, n);
            let location = c.index[seq];
            &&& forall|i: int|
                0 <= i < c.segments.len() - 1 ==> (i < n <==> (
                #[trigger] c.segments[i]).newest_ms < cutoff_ms)
            &&& n < c.segments.len()
            &&& location.created_ms >= cutoff_ms || location.segment == c.segments.len() - 1
                ==> after.index.contains_key(seq)
            &&& !after.index.contains_key(seq) ==> location.created_ms < cutoff_ms
            &&& after.index.contains_key(seq) ==> stored(disk.skip(n as int), after.index[seq])
                == stored(disk, location)
            &&& after.max_seq == c.max_seq
        }),
{
    let n = store::expired(c.segments, cutoff_ms);
    let location = c.index[seq];
    law_stored_group_is_readable(c, disk, seq);
    law_gc_drops_old_segments_only(c.segments, cutoff_ms);
    law_gc_keeps_the_rest(c, disk, n);
    assert forall|i: int| 0 <= i < c.segments.len() - 1 implies (i < n <==> (
    #[trigger] c.segments[i]).newest_ms < cutoff_ms) by {
        if i > n {
            assert(c.segments[n as int].newest_ms <= c.segments[i].newest_ms);
        }
    }
    lemma_group_is_outlined(c, disk, seq);
    let found = store::outlines(disk[location.segment as int], 0);
    let k = choose|k: int|
        0 <= k < found.len() && (#[trigger] found[k]).ms == location.created_ms;
    assert(segment_describes(
        c.segments[location.segment as int],
        disk[location.segment as int],
    ));
    if location.segment < n {
        law_dropped_groups_are_old(found, cutoff_ms, k);
    }
}

/// The time of a stored group is that of a record in its segment.
proof fn lemma_group_is_outlined(c: Catalog, disk: Seq<Seq<u8>>, seq: u64)
    requires
        describes(c, disk),
        c.index.contains_key(seq),
    ensures
        ({
            let found = store::outlines(disk[c.index[seq].segment as int], 0);
            exists|k: int|
                0 <= k < found.len() && (#[trigger] found[k]).ms == c.index[seq].created_ms
        }),
{
    lemma_index_is_outlined(disk, seq);
}

proof fn lemma_index_is_outlined(disk: Seq<Seq<u8>>, seq: u64)
    requires
        disk.len() <= usize::MAX,
        index_of(disk).contains_key(seq),
    ensures
        ({
            let location = index_of(disk)[seq];
            let found = store::outlines(disk[location.segment as int], 0);
            &&& location.segment < disk.len()
            &&& exists|k: int|
                0 <= k < found.len() && (#[trigger] found[k]).ms == location.created_ms
        }),
    decreases disk.len(),
{
    let n = disk.len() - 1;
    let found = store::outlines(disk.last(), 0);
    let location = index_of(disk)[seq];
    lemma_indexed_from(index_of(disk.drop_last()), found, n, seq);
    if exists|i: int|
        0 <= i < found.len() && (#[trigger] found[i]).seq == seq && location == store::location_of(
            found[i],
            n,
        ) {
        let i = choose|i: int|
            0 <= i < found.len() && (#[trigger] found[i]).seq == seq && location
                == store::location_of(found[i], n);
        assert(disk[n] == disk.last());
        assert(found[i].ms == location.created_ms);
    } else {
        lemma_index_is_outlined(disk.drop_last(), seq);
        assert(disk.drop_last()[location.segment as int] == disk[location.segment as int]);
    }
}

/// Every segment that garbage collection drops has its newest group older than
/// the cutoff, the first that it keeps has not unless it is the last, and the
/// last segment is always kept.
pub proof fn law_gc_drops_old_segments_only(segments: Seq<SegmentState>, cutoff_ms: u64)
    ensures
        forall|i: int|
            0 <= i < store::expired(segments, cutoff_ms) ==> (#[trigger] segments[i]).newest_ms
                < cutoff_ms,
        segments.len() > 0 ==> store::expired(segments, cutoff_ms) < segments.len(),
        store::expired(segments, cutoff_ms) + 1 < segments.len() ==> segments[store::expired(
            segments,
            cutoff_ms,
        ) as int].newest_ms >= cutoff_ms,
    decreases segments.len(),
{
    if segments.len() > 1 && segments[0].newest_ms < cutoff_ms {
        let rest = segments.drop_first();
        law_gc_drops_old_segments_only(rest, cutoff_ms);
        assert forall|i: int| 0 <= i < store::expired(segments, cutoff_ms) implies (
        #[trigger] segments[i]).newest_ms < cutoff_ms by {
            if i > 0 {
                assert(segments[i] == rest[i - 1]);
            }
        }
    }
}

/// Where the groups of a segment were made in the order in which they were
/// stored, each is as old as the segment's newest or older: a segment that is
/// dropped holds no group as new as the cutoff.
pub proof fn law_dropped_groups_are_old(found: Seq<Outline>, cutoff_ms: u64, i: int)
    requires
        records_in_time(found),
        store::newest(found) < cutoff_ms,
        0 <= i < found.len(),
    ensures
        found[i].ms < cutoff_ms,
{
    if i < found.len() - 1 {
        assert(found[i].ms <= found[found.len() - 1].ms);
    }
}

// Segment names.

proof fn lemma_fixed_len(n: nat, width: nat)
    ensures
        text::fixed_decimal(n, width).len() == width,
        forall|i: int|
            0 <= i < width ==> '0' <= #[trigger] text::fixed_decimal(n, width)[i] <= '9',
    decreases width,
{
    if width > 0 {
        lemma_fixed_len(n / 10, (width - 1) as nat);
    }
}

proof fn lemma_fixed_first_below(a: nat, b: nat, width: nat) -> (k: int)
    requires
        a < b < powers::pow10(width),
    ensures
        0 <= k < width,
        text::fixed_decimal(a, width)[k] < text::fixed_decimal(b, width)[k],
        forall|i: int|
            0 <= i < k ==> text::fixed_decimal(a, width)[i] == text::fixed_decimal(b, width)[i],
    decreases width,
{
    lemma_fixed_len(a / 10, (width - 1) as nat);
    lemma_fixed_len(b / 10, (width - 1) as nat);
    if a / 10 < b / 10 {
        lemma_fixed_first_below(a / 10, b / 10, (width - 1) as nat)
    } else {
        width - 1
    }
}

/// Segments sort by the sequence that they start with: of two names, the one
/// of the lower sequence comes first.
pub proof fn law_names_sort_by_sequence(a: u64, b: u64)
    requires
        a < b,
    ensures
        order::lex_less(
            store::name_bytes(store::segment_name(a)),
            store::name_bytes(store::segment_name(b)),
        ),
        store::is_segment_name(store::segment_name(a)),
{
    reveal_with_fuel(powers::pow10, 21);
    reveal_strlit(".seg");
    let x = store::segment_name(a);
    let y = store::segment_name(b);
    lemma_fixed_len(a as nat, 20);
    lemma_fixed_len(b as nat, 20);
    let k = lemma_fixed_first_below(a as nat, b as nat, 20);
    assert(utf8::is_ascii_chars(x)) by {
        assert forall|i: int| 0 <= i < x.len() implies 0 <= #[trigger] x[i] < 128 by {
            if i < 20 {
                assert('0' <= text::fixed_decimal(a as nat, 20)[i] <= '9');
            }
        }
    }
    assert(utf8::is_ascii_chars(y)) by {
        assert forall|i: int| 0 <= i < y.len() implies 0 <= #[trigger] y[i] < 128 by {
            if i < 20 {
                assert('0' <= text::fixed_decimal(b as nat, 20)[i] <= '9');
            }
        }
    }
    utf8::is_ascii_chars_encode_utf8(x);
    utf8::is_ascii_chars_encode_utf8(y);
    let u = store::name_bytes(x);
    let v = store::name_bytes(y);
    assert(u[k] == x[k] as u8);
    assert(v[k] == y[k] as u8);
    assert forall|i: int| 0 <= i < k implies u[i] == v[i] by {
        assert(x[i] == y[i]);
    }
    order::lemma_lex_less_at(u, v, k);
    assert(x.skip(20) =~= ".seg"@);
}

// Cutting torn files.

/// No two files have one name.
pub open spec fn names_differ(files: Seq<(Seq<char>, Seq<u8>)>) -> bool {
    forall|i: int, j: int|
        0 <= i < j < files.len() ==> (#[trigger] files[i]).0 != (#[trigger] files[j]).0
}

/// The bytes of a file once it is cut down as `cuts` says; a file that is not
/// named stays as it is.
pub open spec fn cut_down(file: (Seq<char>, Seq<u8>), cuts: Seq<(Seq<char>, int)>) -> Seq<u8> {
    if exists|k: int| 0 <= k < cuts.len() && (#[trigger] cuts[k]).0 == file.0 {
        let k = choose|k: int| 0 <= k < cuts.len() && (#[trigger] cuts[k]).0 == file.0;
        file.1.take(cuts[k].1)
    } else {
        file.1
    }
}

/// Every file that ends in a torn record is named, with the length at which its
/// whole records end, and no other file is.
pub proof fn law_every_torn_file_is_named(files: Seq<(Seq<char>, Seq<u8>)>)
    ensures
        forall|i: int|
            0 <= i < files.len() && store::clean_end((#[trigger] files[i]).1, 0) < files[i].1.len()
                ==> store::torn_files(files).contains(
                (files[i].0, store::clean_end(files[i].1, 0)),
            ),
        forall|k: int|
            0 <= k < store::torn_files(files).len() ==> exists|i: int|
                0 <= i < files.len() && #[trigger] files[i].0 == (#[trigger] store::torn_files(
                    files,
                )[k]).0 && store::torn_files(files)[k].1 == store::clean_end(files[i].1, 0)
                    && store::clean_end(files[i].1, 0) < files[i].1.len(),
        store::torn_files(files).len() <= files.len(),
    decreases files.len(),
{
    if files.len() > 0 {
        let some = files.drop_last();
        let n = files.len() - 1;
        let cuts = store::torn_files(files);
        let before = store::torn_files(some);
        law_every_torn_file_is_named(some);
        assert forall|i: int|
            0 <= i < files.len() && store::clean_end((#[trigger] files[i]).1, 0)
                < files[i].1.len() implies cuts.contains(
            (files[i].0, store::clean_end(files[i].1, 0)),
        ) by {
            if i < n {
                assert(some[i] == files[i]);
                let cut = (files[i].0, store::clean_end(files[i].1, 0));
                assert(before.contains(cut));
                let k = choose|k: int| 0 <= k < before.len() && before[k] == cut;
                assert(cuts[k] == cut);
            } else {
                assert(cuts[cuts.len() - 1] == (files[n].0, store::clean_end(files[n].1, 0)));
            }
        }
        assert forall|k: int| 0 <= k < cuts.len() implies exists|i: int|
            0 <= i < files.len() && #[trigger] files[i].0 == (#[trigger] cuts[k]).0 && cuts[k].1
                == store::clean_end(files[i].1, 0) && store::clean_end(files[i].1, 0)
                < files[i].1.len() by {
            if k < before.len() {
                assert(cuts[k] == before[k]);
                let i = choose|i: int|
                    0 <= i < some.len() && #[trigger] some[i].0 == before[k].0 && before[k].1
                        == store::clean_end(some[i].1, 0) && store::clean_end(some[i].1, 0)
                        < some[i].1.len();
                assert(files[i] == some[i]);
                assert(files[i].0 == cuts[k].0);
            } else {
                assert(files[n].0 == cuts[k].0);
            }
        }
    }
}

/// Cutting the files as opening says leaves exactly what the catalog describes:
/// of every file its whole records, and nothing torn.
pub proof fn law_cutting_leaves_what_the_catalog_describes(files: Seq<(Seq<char>, Seq<u8>)>)
    requires
        names_differ(files),
        files.len() <= usize::MAX,
        forall|i: int| 0 <= i < files.len() ==> (#[trigger] files[i]).1.len() <= u64::MAX,
    ensures
        ({
            let left = files.map_values(
                |file: (Seq<char>, Seq<u8>)| cut_down(file, store::torn_files(files)),
            );
            &&& left == cleaned(files)
            &&& describes(store::scanned_all(store::empty_catalog(), files), left)
            &&& forall|i: int| 0 <= i < left.len() ==> whole(#[trigger] left[i])
        }),
{
    let cuts = store::torn_files(files);
    let left = files.map_values(|file: (Seq<char>, Seq<u8>)| cut_down(file, cuts));
    law_every_torn_file_is_named(files);
    law_open_describes_the_files(files);
    assert forall|i: int| 0 <= i < files.len() implies #[trigger] left[i] == cleaned(files)[i] by {
        let file = files[i];
        let end = store::clean_end(file.1, 0);
        lemma_clean_end_bounds(file.1, 0);
        if end < file.1.len() {
            assert(cuts.contains((file.0, end)));
            let k0 = choose|k: int| 0 <= k < cuts.len() && cuts[k] == (file.0, end);
            assert(cuts[k0].0 == file.0);
        } else {
            assert(file.1.take(end) =~= file.1);
        }
        if exists|k: int| 0 <= k < cuts.len() && (#[trigger] cuts[k]).0 == file.0 {
            let k = choose|k: int| 0 <= k < cuts.len() && (#[trigger] cuts[k]).0 == file.0;
            let j = choose|j: int|
                0 <= j < files.len() && #[trigger] files[j].0 == cuts[k].0 && cuts[k].1
                    == store::clean_end(files[j].1, 0) && store::clean_end(files[j].1, 0)
                    < files[j].1.len();
            assert(files[j].0 == files[i].0);
            assert(i == j);
        }
    }
    assert(left =~= cleaned(files));
    assert forall|i: int| 0 <= i < left.len() implies whole(#[trigger] left[i]) by {
        lemma_clean_part(files[i].1, 0);
    }
}

proof fn lemma_whole_files_are_not_torn(files: Seq<(Seq<char>, Seq<u8>)>)
    requires
        forall|i: int| 0 <= i < files.len() ==> whole((#[trigger] files[i]).1),
    ensures
        store::torn_files(files) == Seq::<(Seq<char>, int)>::empty(),
    decreases files.len(),
{
    if files.len() > 0 {
        let some = files.drop_last();
        assert forall|i: int| 0 <= i < some.len() implies whole((#[trigger] some[i]).1) by {
            assert(some[i] == files[i]);
        }
        assert(whole(files[files.len() - 1].1));
        lemma_whole_files_are_not_torn(some);
    }
}

/// A crash in the middle of an append loses nothing that was stored before: the
/// file that was written to, and no other, is to be cut down to what it held,
/// and the store that is opened has the groups, and the places, that the store
/// had before the append.
pub proof fn law_crash_loses_only_the_torn_record(
    c: Catalog,
    disk: Seq<Seq<u8>>,
    names: Seq<Seq<char>>,
    seq: u64,
    ms: u64,
    frames: Seq<Seq<u8>>,
    cut: int,
)
    requires
        describes(c, disk),
        disk.len() > 0,
        names.len() == disk.len(),
        record::writable(frames),
        0 < cut < record::record_bytes(seq, ms, frames).len(),
        disk.last().len() + cut <= u64::MAX,
    ensures
        ({
            let torn = disk.last() + record::record_bytes(seq, ms, frames).take(cut);
            let files = Seq::new(
                disk.len(),
                |i: int|
                    (
                        names[i],
                        if i < disk.len() - 1 {
                            disk[i]
                        } else {
                            torn
                        },
                    ),
            );
            &&& store::torn_files(files) == seq![(names.last(), disk.last().len() as int)]
            &&& store::scanned_all(store::empty_catalog(), files).index == c.index
            &&& describes(store::scanned_all(store::empty_catalog(), files), disk)
        }),
{
    let torn = disk.last() + record::record_bytes(seq, ms, frames).take(cut);
    let files = Seq::new(
        disk.len(),
        |i: int|
            (
                names[i],
                if i < disk.len() - 1 {
                    disk[i]
                } else {
                    torn
                },
            ),
    );
    let some = files.drop_last();
    assert(segment_describes(c.segments[disk.len() - 1], disk[disk.len() - 1]));
    law_torn_tail_is_cut_away(disk.last(), seq, ms, frames, cut);
    assert forall|i: int| 0 <= i < some.len() implies whole((#[trigger] some[i]).1) by {
        assert(segment_describes(c.segments[i], disk[i]));
    }
    lemma_whole_files_are_not_torn(some);
    assert(store::torn_files(files) =~= seq![(names.last(), disk.last().len() as int)]);
    assert forall|i: int| 0 <= i < files.len() implies (#[trigger] files[i]).1.len() <= u64::MAX
        && files[i].1.take(store::clean_end(files[i].1, 0)) == disk[i] by {
        assert(segment_describes(c.segments[i], disk[i]));
        assert(disk[i].take(disk[i].len() as int) =~= disk[i]);
    }
    assert(cleaned(files) =~= disk);
    law_open_describes_the_files(files);
}

// Rotation.

/// A segment that has reached its size gets no more groups, and one that has not
/// gets the next: the segment that a group goes to is the last one while it is
/// short of the target, and else a new one, named by the group's sequence.
/// The other segments stay as they are.
pub proof fn law_full_segments_are_left(c: Catalog, target: u64, seq: u64, ms: u64, len: nat)
    requires
        c.segments.len() > 0 ==> c.segments.last().bytes + len <= u64::MAX,
        len <= u64::MAX,
    ensures
        ({
            let after = store::appended(store::opened(c, target, seq), seq, ms, len);
            let n = c.segments.len() as int;
            &&& n > 0 && c.segments.last().bytes < target ==> {
                &&& after.segments.len() == n
                &&& after.segments.last().bytes == c.segments.last().bytes + len
                &&& after.segments.last().name == c.segments.last().name
                &&& after.segments.last().first_seq == c.segments.last().first_seq
                &&& after.segments.drop_last() == c.segments.drop_last()
            }
            &&& n == 0 || c.segments.last().bytes >= target ==> {
                &&& after.segments.len() == n + 1
                &&& after.segments.last().bytes == len
                &&& after.segments.last().name == text::fixed_decimal(seq as nat, 20) + ".seg"@
                &&& after.segments.last().first_seq == seq
                &&& after.segments.drop_last() == c.segments
            }
            &&& after.segments.last().newest_ms == ms
            &&& after.max_seq == Some(
                if c.max_seq is Some && c.max_seq->0 > seq {
                    c.max_seq->0
                } else {
                    seq
                },
            )
        }),
{
    let after = store::appended(store::opened(c, target, seq), seq, ms, len);
    assert(after.segments.drop_last() =~= store::opened(c, target, seq).segments.drop_last());
    if store::rotates(c, target) {
        assert(store::opened(c, target, seq).segments.drop_last() =~= c.segments);
    }
}

/// What is scanned of a segment is its name, its first group's sequence, and the
/// time of its last group.
pub proof fn law_scanned_segment_is_outlined(
    c: Catalog,
    name: Seq<char>,
    seq: u64,
    ms: u64,
    frames: Seq<Seq<u8>>,
    last_seq: u64,
    last_ms: u64,
    last_frames: Seq<Seq<u8>>,
)
    requires
        record::writable(frames),
        record::writable(last_frames),
    ensures
        ({
            let one = record::record_bytes(seq, ms, frames);
            let two = one + record::record_bytes(last_seq, last_ms, last_frames);
            let after = store::scanned(c, name, two);
            let s = after.segments.last();
            &&& after.segments.drop_last() == c.segments
            &&& s.name == name
            &&& s.first_seq == seq
            &&& s.newest_ms == last_ms
            &&& two.len() <= u64::MAX ==> s.bytes == two.len()
        }),
{
    let nothing: Seq<u8> = Seq::empty();
    let one = record::record_bytes(seq, ms, frames);
    assert(record::record_at(nothing, 0) is None);
    lemma_outlines_append(nothing, seq, ms, frames);
    assert(nothing + one =~= one);
    lemma_outlines_append(one, last_seq, last_ms, last_frames);
    let two = one + record::record_bytes(last_seq, last_ms, last_frames);
    let after = store::scanned(c, name, two);
    assert(after.segments.drop_last() =~= c.segments);
    assert(store::outlines(nothing, 0).len() == 0);
}

/// The high-water sequence is that of a group on disk, where there is any.
pub proof fn law_high_water_is_a_group(disk: Seq<Seq<u8>>)
    ensures
        high_water(disk) matches Some(m) ==> index_of(disk).contains_key(m),
        high_water(disk) is None ==> index_of(disk) == Map::<u64, Location>::empty(),
    decreases disk.len(),
{
    if disk.len() > 0 {
        law_high_water_is_a_group(disk.drop_last());
        lemma_raised_is_there(
            index_of(disk.drop_last()),
            high_water(disk.drop_last()),
            store::outlines(disk.last(), 0),
            disk.len() - 1,
        );
    }
}

proof fn lemma_raised_is_there(
    index: Map<u64, Location>,
    max_seq: Option<u64>,
    found: Seq<Outline>,
    segment: int,
)
    requires
        max_seq matches Some(m) ==> index.contains_key(m),
        max_seq is None ==> index == Map::<u64, Location>::empty(),
    ensures
        store::raised_by(max_seq, found) matches Some(m) ==> store::indexed(
            index,
            found,
            segment,
        ).contains_key(m),
        store::raised_by(max_seq, found) is None ==> store::indexed(index, found, segment)
            == Map::<u64, Location>::empty(),
    decreases found.len(),
{
    if found.len() > 0 {
        lemma_raised_is_there(index, max_seq, found.drop_last(), segment);
    }
}

// Names and layout.

/// A file is a segment exactly where its name is something and `.seg`.
pub proof fn law_segments_are_named_seg(name: Seq<char>, stem: Seq<char>)
    ensures
        store::is_segment_name(stem + ".seg"@) <==> stem.len() > 0,
        store::is_segment_name(name) ==> name == name.take(name.len() - 4) + ".seg"@,
{
    reveal_strlit(".seg");
    text::laws::law_prefix_and_suffix(name, ".seg"@, stem);
}

/// The name of a segment is the sequence that it starts with, in twenty digits.
pub proof fn law_segment_name_tells_the_sequence(seq: u64)
    ensures
        store::segment_name(seq).len() == 24,
        store::segment_name(seq).skip(20) == ".seg"@,
        text::parsed_u64(store::segment_name(seq).take(20)) == Some(seq as nat),
{
    reveal_strlit(".seg");
    reveal_with_fuel(powers::pow10, 21);
    let digits = text::fixed_decimal(seq as nat, 20);
    text::laws::law_fixed_decimal_is_the_last_digits(seq as nat, 20);
    assert(store::segment_name(seq).take(20) =~= digits);
    assert(store::segment_name(seq).skip(20) =~= ".seg"@);
    assert('0' <= digits[0] <= '9');
}

/// Of a list of files every segment is scanned, as often as it is listed, and
/// nothing else.
pub proof fn law_every_segment_is_scanned(names: Seq<Seq<char>>, name: Seq<char>)
    ensures
        store::segments_among(names).count(name) == (if store::is_segment_name(name) {
            names.to_multiset().count(name)
        } else {
            0
        }),
    decreases names.len(),
{
    if names.len() > 0 {
        let some = names.drop_last();
        law_every_segment_is_scanned(some, name);
        assert(names =~= some.push(names.last()));
        some.to_multiset_ensures();
    } else {
        names.to_multiset_ensures();
    }
}

/// Segments that are in the order to scan them are in the order of their
/// sequences.
pub proof fn law_scan_order_is_the_order_of_sequences(
    names: Seq<Seq<char>>,
    i: int,
    j: int,
    a: u64,
    b: u64,
)
    requires
        store::in_order(names),
        0 <= i < names.len(),
        0 <= j < names.len(),
        names[i] == store::segment_name(a),
        names[j] == store::segment_name(b),
        a < b,
    ensures
        i < j,
{
    law_names_sort_by_sequence(a, b);
    if i > j {
        assert(!order::lex_less(store::name_bytes(names[i]), store::name_bytes(names[j])));
    } else if i == j {
        law_segment_name_tells_the_sequence(a);
        law_segment_name_tells_the_sequence(b);
    }
}

/// Of two names that are in order the first is below the second, byte by byte,
/// or they are the same.
pub proof fn law_names_are_ordered_by_their_bytes(names: Seq<Seq<char>>, i: int, j: int)
    requires
        store::in_order(names),
        0 <= i < j < names.len(),
    ensures
        order::lex_less(utf8::encode_utf8(names[i]), utf8::encode_utf8(names[j])) || names[i]
            == names[j],
{
    let a = utf8::encode_utf8(names[i]);
    let b = utf8::encode_utf8(names[j]);
    assert(!order::lex_less(store::name_bytes(names[j]), store::name_bytes(names[i])));
    order::lemma_lex_less_total(a, b);
    if a == b {
        utf8::encode_utf8_decode_utf8(names[i]);
        utf8::encode_utf8_decode_utf8(names[j]);
    }
}

/// Numbers are stored with their lowest byte first.
pub proof fn law_numbers_are_little_endian(n: nat, width: nat, i: int)
    requires
        0 <= i < width,
    ensures
        record::le_bytes(n, width).len() == width,
        record::le_bytes(n, width)[i] == (n / powers::pow256(i as nat)) % 256,
    decreases width,
{
    record::lemma_le_bytes_len(n, width);
    if i > 0 {
        law_numbers_are_little_endian(n / 256, (width - 1) as nat, i - 1);
        let p = powers::pow256((i - 1) as nat);
        powers::lemma_pow256_le(0, (i - 1) as nat);
        vstd::arithmetic::div_mod::lemma_div_denominator(n as int, 256, p as int);
        assert(record::le_bytes(n, width)[i] == record::le_bytes(
            n / 256,
            (width - 1) as nat,
        )[i - 1]);
        assert(powers::pow256(i as nat) == 256 * p);
    } else {
        assert(powers::pow256(0) == 1);
        assert(n / 1 == n);
    }
}

/// A record is the group's sequence and time in eight bytes each, the number of
/// its frames in four, and each frame after its length in four.
pub proof fn law_record_layout(seq: u64, ms: u64, frames: Seq<Seq<u8>>, last: Seq<u8>)
    ensures
        record::record_bytes(seq, ms, Seq::empty()) == record::le_bytes(seq as nat, 8)
            + record::le_bytes(ms as nat, 8) + record::le_bytes(0, 4),
        record::record_bytes(seq, ms, frames).take(16) == record::le_bytes(seq as nat, 8)
            + record::le_bytes(ms as nat, 8),
        record::record_bytes(seq, ms, frames).subrange(16, 20) == record::le_bytes(
            frames.len(),
            4,
        ),
        record::record_bytes(seq, ms, frames.push(last)).skip(20) == record::record_bytes(
            seq,
            ms,
            frames,
        ).skip(20) + record::le_bytes(last.len(), 4) + last,
{
    record::lemma_le_bytes_len(seq as nat, 8);
    record::lemma_le_bytes_len(ms as nat, 8);
    record::lemma_le_bytes_len(frames.len(), 4);
    record::lemma_le_bytes_len((frames.len() + 1) as nat, 4);
    lemma_frames_push(frames, last);
    let rec = record::record_bytes(seq, ms, frames);
    let more = record::record_bytes(seq, ms, frames.push(last));
    assert(rec.take(16) =~= record::le_bytes(seq as nat, 8) + record::le_bytes(ms as nat, 8));
    assert(rec.subrange(16, 20) =~= record::le_bytes(frames.len(), 4));
    assert(rec.skip(20) =~= record::frames_bytes(frames));
    assert(more.skip(20) =~= record::frames_bytes(frames.push(last)));
    assert(record::record_bytes(seq, ms, Seq::empty()) =~= record::le_bytes(seq as nat, 8)
        + record::le_bytes(ms as nat, 8) + record::le_bytes(0, 4));
}

proof fn lemma_frames_push(frames: Seq<Seq<u8>>, last: Seq<u8>)
    ensures
        record::frames_bytes(frames.push(last)) == record::frames_bytes(frames) + record::le_bytes(
            last.len(),
            4,
        ) + last,
    decreases frames.len(),
{
    let more = frames.push(last);
    let none: Seq<Seq<u8>> = Seq::empty();
    if frames.len() == 0 {
        assert(more.drop_first() =~= none);
        assert(record::frames_bytes(none) =~= Seq::<u8>::empty());
    } else {
        assert(more.drop_first() =~= frames.drop_first().push(last));
        lemma_frames_push(frames.drop_first(), last);
    }
    assert(record::frames_bytes(more) =~= record::frames_bytes(frames) + record::le_bytes(
        last.len(),
        4,
    ) + last);
}

// What the store's values stand for.

/// Names, files and frames stand for their text and their bytes, in order, and a
/// segment for what it holds; an unreadable group says why.
pub proof fn law_store_values_stand_for_what_they_hold(
    names: Seq<String>,
    files: Seq<(String, Vec<u8>)>,
    frames: Seq<Vec<u8>>,
    s: Segment,
    i: int,
    found: u64,
    wanted: u64,
)
    ensures
        store::texts(names).len() == names.len(),
        0 <= i < names.len() ==> store::texts(names)[i] == names[i]@,
        store::contents(files).len() == files.len(),
        0 <= i < files.len() ==> store::contents(files)[i] == (files[i].0@, files[i].1@),
        record::views(frames).len() == frames.len(),
        0 <= i < frames.len() ==> record::views(frames)[i] == frames[i]@,
        s@.name == s.name@,
        s@.first_seq == s.first_seq,
        s@.newest_ms == s.newest_ms,
        s@.bytes == s.bytes,
        StoreError::Truncated(wanted).text() == "truncated record for group "@ + text::decimal(
            wanted as nat,
        ),
        (StoreError::Mismatch { found, wanted }).text() == "index/segment mismatch: "@
            + text::decimal(found as nat) + " != "@ + text::decimal(wanted as nat),
        store::SEGMENT_TARGET_BYTES == 64 * 1024 * 1024,
{
}

} // verus!
