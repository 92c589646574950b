//! Group-aligned store for the firehose: every MoQ group's frames are appended
//! to rotating segment files, indexed by group sequence, and garbage-collected
//! by age. This is the durability substrate for replay:
//!
//! - it recovers the high-water group sequence after a restart (so ids stay
//!   monotonic, see [`GroupStore::max_seq`]),
//! - it lets recent groups be reloaded into the live track on startup so a
//!   relay restart doesn't drop the replay window, and
//! - it is the source a deeper disk-served replay window reads from.
//!
//! The store decides what goes where; it does not touch files itself. What it
//! has to read it is handed, and what has to be written it hands back: the
//! bytes to append and the segment they belong to, the length to cut a torn
//! segment down to, the segments to delete.
//!
//! Segments are named `<first_seq:020>.seg` so they sort lexicographically by
//! starting sequence. GC deletes whole segments once their newest group is
//! older than the retention window.

pub mod laws;
pub mod record;

use vstd::multiset::Multiset;
use vstd::prelude::*;
use vstd::std_specs::cmp::OrdSpec;
use vstd::std_specs::iter::IteratorSpec;
use vstd::utf8;

use std::collections::BTreeMap;

use crate::order;
use crate::order::{compare, Order};
use crate::store::record::{encode_record, read_record, read_record_header};
use crate::text;
use crate::text::{chars_of, ends_with, push_decimal, push_fixed_decimal, push_text};

verus! {

broadcast use vstd::std_specs::btree::group_btree_axioms;

/// Rotate to a new segment once the current one passes this size.
pub const SEGMENT_TARGET_BYTES: u64 = 67_108_864;

/// Where a group is stored.
#[derive(Debug, Clone, Copy, PartialEq, Eq)]
pub struct Location {
    /// The number of its segment, from the oldest on.
    pub segment: usize,
    /// Where its record starts in the segment.
    pub offset: u64,
    /// How long its record is.
    pub len: u64,
    /// When the group was made.
    pub created_ms: u64,
}

/// A segment file.
#[derive(Debug)]
pub struct Segment {
    pub name: String,
    pub first_seq: u64,
    /// The time of the newest group in this segment.
    pub newest_ms: u64,
    pub bytes: u64,
}

/// What a [`Segment`] stands for.
pub struct SegmentState {
    pub name: Seq<char>,
    pub first_seq: u64,
    pub newest_ms: u64,
    pub bytes: u64,
}

impl Segment {
    pub open spec fn view(self) -> SegmentState {
        SegmentState {
            name: self.name@,
            first_seq: self.first_seq,
            newest_ms: self.newest_ms,
            bytes: self.bytes,
        }
    }
}

/// What the store knows of its segments and groups.
pub struct Catalog {
    pub segments: Seq<SegmentState>,
    pub index: Map<u64, Location>,
    pub max_seq: Option<u64>,
}

/// The catalog of a store without segments.
pub open spec fn empty_catalog() -> Catalog {
    Catalog { segments: Seq::empty(), index: Map::empty(), max_seq: None }
}

/// The name of the segment that starts with group `seq`.
pub open spec fn segment_name(seq: u64) -> Seq<char> {
    text::fixed_decimal(seq as nat, 20) + ".seg"@
}

/// Whether a file of this name is a segment: its extension is `seg`.
pub open spec fn is_segment_name(name: Seq<char>) -> bool {
    name.len() > ".seg"@.len() && text::has_suffix(name, ".seg"@)
}

/// The outline of a record in a segment.
pub struct Outline {
    pub seq: u64,
    pub ms: u64,
    pub offset: int,
    pub end: int,
}

pub proof fn lemma_frames_bounds(data: Seq<u8>, at: int, count: nat)
    requires
        at <= data.len(),
    ensures
        record::frames_at(data, at, count) matches Some((frames, end)) ==> at <= end <= data.len()
            && frames.len() == count,
    decreases count,
{
    if count > 0 && at + 4 <= data.len() {
        let next = at + 4 + record::le_value(data.subrange(at, at + 4));
        if next <= data.len() {
            lemma_frames_bounds(data, next, (count - 1) as nat);
        }
    }
}

/// A record has at least its head, and ends where the bytes do or before.
pub proof fn lemma_record_bounds(data: Seq<u8>, at: int)
    ensures
        record::record_at(data, at) matches Some((_, end)) ==> at + record::HEAD_LEN <= end
            <= data.len(),
{
    if at + record::HEAD_LEN <= data.len() {
        lemma_frames_bounds(
            data,
            at + 20,
            record::le_value(data.subrange(at + 16, at + 20)),
        );
    }
}

/// The whole records from `at` on, up to the first that is not whole.
pub open spec fn outlines(data: Seq<u8>, at: int) -> Seq<Outline>
    decreases data.len() - at,
{
    proof {
        lemma_record_bounds(data, at);
    }
    match record::record_at(data, at) {
        None => Seq::empty(),
        Some((found, end)) => seq![Outline { seq: found.seq, ms: found.ms, offset: at, end }]
            + outlines(data, end),
    }
}

/// Where the whole records from `at` on end.
pub open spec fn clean_end(data: Seq<u8>, at: int) -> int
    decreases data.len() - at,
{
    proof {
        lemma_record_bounds(data, at);
    }
    match record::record_at(data, at) {
        None => at,
        Some((_, end)) => clean_end(data, end),
    }
}

/// Where the record of this outline is stored, in segment number `segment`.
pub open spec fn location_of(o: Outline, segment: int) -> Location {
    Location {
        segment: segment as usize,
        offset: o.offset as u64,
        len: (o.end - o.offset) as u64,
        created_ms: o.ms,
    }
}

/// `index` with the records of segment number `segment` added; of two records
/// of one group, the later.
pub open spec fn indexed(index: Map<u64, Location>, found: Seq<Outline>, segment: int) -> Map<
    u64,
    Location,
>
    decreases found.len(),
{
    if found.len() == 0 {
        index
    } else {
        indexed(index, found.drop_last(), segment).insert(
            found.last().seq,
            location_of(found.last(), segment),
        )
    }
}

/// The higher of a high-water sequence and `seq`.
pub open spec fn raised(max_seq: Option<u64>, seq: u64) -> Option<u64> {
    match max_seq {
        Some(m) => Some(if m > seq { m } else { seq }),
        None => Some(seq),
    }
}

/// The high-water sequence after these records.
pub open spec fn raised_by(max_seq: Option<u64>, found: Seq<Outline>) -> Option<u64>
    decreases found.len(),
{
    if found.len() == 0 {
        max_seq
    } else {
        raised(raised_by(max_seq, found.drop_last()), found.last().seq)
    }
}

/// The time of the last of these records; 0 without one.
pub open spec fn newest(found: Seq<Outline>) -> u64 {
    if found.len() == 0 {
        0
    } else {
        found.last().ms
    }
}

/// The sequence of the first of these records; 0 without one.
pub open spec fn first(found: Seq<Outline>) -> u64 {
    if found.len() == 0 {
        0
    } else {
        found[0].seq
    }
}

/// The catalog after a segment file was scanned.
pub open spec fn scanned(c: Catalog, name: Seq<char>, data: Seq<u8>) -> Catalog {
    let found = outlines(data, 0);
    Catalog {
        segments: c.segments.push(
            SegmentState {
                name,
                first_seq: first(found),
                newest_ms: newest(found),
                bytes: clean_end(data, 0) as u64,
            },
        ),
        index: indexed(c.index, found, c.segments.len() as int),
        max_seq: raised_by(c.max_seq, found),
    }
}

/// The catalog after segment files were scanned, each by its name and its
/// bytes.
pub open spec fn scanned_all(c: Catalog, files: Seq<(Seq<char>, Seq<u8>)>) -> Catalog
    decreases files.len(),
{
    if files.len() == 0 {
        c
    } else {
        scanned(scanned_all(c, files.drop_last()), files.last().0, files.last().1)
    }
}

/// The files that do not end with a whole record, each with the length at
/// which its last whole record ends.
pub open spec fn torn_files(files: Seq<(Seq<char>, Seq<u8>)>) -> Seq<(Seq<char>, int)>
    decreases files.len(),
{
    if files.len() == 0 {
        Seq::empty()
    } else {
        let rest = torn_files(files.drop_last());
        let (name, data) = files.last();
        if clean_end(data, 0) < data.len() {
            rest.push((name, clean_end(data, 0)))
        } else {
            rest
        }
    }
}

/// Files by the text and the bytes that they hold.
pub open spec fn contents(files: Seq<(String, Vec<u8>)>) -> Seq<(Seq<char>, Seq<u8>)> {
    files.map_values(|file: (String, Vec<u8>)| (file.0@, file.1@))
}

/// Whether the next group starts a new segment.
pub open spec fn rotates(c: Catalog, segment_target: u64) -> bool {
    c.segments.len() == 0 || c.segments.last().bytes >= segment_target
}

/// The catalog with a new segment of this name for group `seq` to go to, where
/// `create` says that there is one.
pub open spec fn with_segment(c: Catalog, create: bool, name: Seq<char>, seq: u64) -> Catalog {
    if create {
        Catalog {
            segments: c.segments.push(
                SegmentState { name, first_seq: seq, newest_ms: 0, bytes: 0 },
            ),
            ..c
        }
    } else {
        c
    }
}

/// The catalog once there is a segment for group `seq` to go to.
pub open spec fn opened(c: Catalog, segment_target: u64, seq: u64) -> Catalog {
    with_segment(c, rotates(c, segment_target), segment_name(seq), seq)
}

/// The catalog after a record of `len` bytes was appended to the last segment.
pub open spec fn appended(c: Catalog, seq: u64, ms: u64, len: nat) -> Catalog {
    let last = c.segments.last();
    let grown = SegmentState {
        newest_ms: ms,
        bytes: ((last.bytes + len) % 0x1_0000_0000_0000_0000) as u64,
        ..last
    };
    Catalog {
        segments: c.segments.drop_last().push(grown),
        index: c.index.insert(
            seq,
            Location {
                segment: (c.segments.len() - 1) as usize,
                offset: last.bytes,
                len: len as u64,
                created_ms: ms,
            },
        ),
        max_seq: raised(c.max_seq, seq),
    }
}

/// The catalog without its oldest segment, and without the groups stored in
/// it.
pub open spec fn without_first(c: Catalog) -> Catalog {
    Catalog {
        segments: c.segments.drop_first(),
        index: Map::new(
            |seq: u64| c.index.contains_key(seq) && c.index[seq].segment > 0,
            |seq: u64|
                Location { segment: (c.index[seq].segment - 1) as usize, ..c.index[seq] },
        ),
        max_seq: c.max_seq,
    }
}

/// How many segments, from the oldest on, hold nothing as new as `cutoff_ms`;
/// the last segment never counts.
pub open spec fn expired(segments: Seq<SegmentState>, cutoff_ms: u64) -> nat
    decreases segments.len(),
{
    if segments.len() <= 1 || segments[0].newest_ms >= cutoff_ms {
        0
    } else {
        expired(segments.drop_first(), cutoff_ms) + 1
    }
}

/// The catalog without its `n` oldest segments.
pub open spec fn without(c: Catalog, n: nat) -> Catalog
    decreases n,
{
    if n == 0 {
        c
    } else {
        without(without_first(c), (n - 1) as nat)
    }
}

/// Why a stored group could not be read.
#[derive(Debug, PartialEq, Eq)]
pub enum StoreError {
    /// The record of this group is cut off.
    Truncated(u64),
    /// The record belongs to another group.
    Mismatch { found: u64, wanted: u64 },
}

impl StoreError {
    /// The line of text that says what was wrong.
    pub open spec fn text(self) -> Seq<char> {
        match self {
            StoreError::Truncated(seq) => "truncated record for group "@ + text::decimal(
                seq as nat,
            ),
            StoreError::Mismatch { found, wanted } => "index/segment mismatch: "@ + text::decimal(
                found as nat,
            ) + " != "@ + text::decimal(wanted as nat),
        }
    }

    /// What was wrong, as one line of text.
    pub fn to_text(&self) -> (r: String)
        ensures
            r@ == self.text(),
    {
        let mut out = String::new();
        match self {
            StoreError::Truncated(seq) => {
                push_text(&mut out, "truncated record for group ");
                push_decimal(&mut out, *seq);
            },
            StoreError::Mismatch { found, wanted } => {
                push_text(&mut out, "index/segment mismatch: ");
                push_decimal(&mut out, *found);
                push_text(&mut out, " != ");
                push_decimal(&mut out, *wanted);
            },
        }
        proof {
            assert(out@ =~= self.text());
        }
        out
    }
}

/// What an append asks to be written: `record` at the end of the file
/// `segment`, which is made first where `create` says so.
#[derive(Debug)]
pub struct Append {
    pub segment: String,
    pub create: bool,
    pub seq: u64,
    pub created_ms: u64,
    pub record: Vec<u8>,
}

/// A group store. Single-writer (the pump loop); reads go by the index built
/// when the segments were scanned.
pub struct GroupStore {
    segments: Vec<Segment>,
    index: BTreeMap<u64, Location>,
    max_seq: Option<u64>,
    segment_target: u64,
}

fn make_segment_name(seq: u64) -> (r: String)
    ensures
        r@ == segment_name(seq),
{
    let mut name = String::new();
    push_fixed_decimal(&mut name, seq, 20);
    push_text(&mut name, ".seg");
    proof {
        assert(name@ =~= segment_name(seq));
    }
    name
}

/// The bytes of a name, by which names are ordered.
pub open spec fn name_bytes(name: Seq<char>) -> Seq<u8> {
    utf8::encode_utf8(name)
}

/// The names among these that segments have.
pub open spec fn segments_among(names: Seq<Seq<char>>) -> Multiset<Seq<char>>
    decreases names.len(),
{
    if names.len() == 0 {
        Multiset::empty()
    } else {
        let rest = segments_among(names.drop_last());
        if is_segment_name(names.last()) {
            rest.insert(names.last())
        } else {
            rest
        }
    }
}

/// Names by the text that they hold.
pub open spec fn texts(names: Seq<String>) -> Seq<Seq<char>> {
    names.map_values(|name: String| name@)
}

/// Each name is followed by names that are above it or equal to it.
pub open spec fn in_order(names: Seq<Seq<char>>) -> bool {
    forall|i: int, j: int|
        0 <= i < j < names.len() ==> !order::lex_less(
            name_bytes(#[trigger] names[j]),
            name_bytes(#[trigger] names[i]),
        )
}

fn names_segment(name: &str) -> (r: bool)
    ensures
        r == is_segment_name(name@),
{
    let all = chars_of(name);
    let suffix = chars_of(".seg");
    all.len() > suffix.len() && ends_with(all.as_slice(), suffix.as_slice())
}

/// Puts `name` where it belongs among `names`.
fn insert_in_order(names: &mut Vec<String>, name: String)
    requires
        in_order(texts(old(names)@)),
    ensures
        in_order(texts(final(names)@)),
        texts(final(names)@).to_multiset() == texts(old(names)@).to_multiset().insert(name@),
{
    let ghost before = texts(names@);
    let mut at: usize = names.len();
    while at > 0
        invariant_except_break
            at <= names@.len(),
            before == texts(names@),
            in_order(before),
            forall|k: int|
                at <= k < before.len() ==> order::lex_less(
                    name_bytes(name@),
                    name_bytes(#[trigger] before[k]),
                ),
        ensures
            at <= names@.len(),
            before == texts(names@),
            in_order(before),
            forall|k: int|
                at <= k < before.len() ==> order::lex_less(
                    name_bytes(name@),
                    name_bytes(#[trigger] before[k]),
                ),
            forall|k: int|
                0 <= k < at ==> !order::lex_less(
                    name_bytes(name@),
                    name_bytes(#[trigger] before[k]),
                ),
        decreases at,
    {
        let belongs = match compare(name.as_str().as_bytes(), names[at - 1].as_str().as_bytes()) {
            Order::Less => false,
            Order::Equal => {
                proof {
                    order::lemma_lex_less_irreflexive(name_bytes(name@));
                }
                true
            },
            Order::Greater => true,
        };
        if belongs {
            proof {
                assert(before[at - 1] == names@[at - 1]@);
                assert forall|k: int| 0 <= k < at implies !order::lex_less(
                    name_bytes(name@),
                    name_bytes(#[trigger] before[k]),
                ) by {
                    if k < at - 1 && order::lex_less(name_bytes(name@), name_bytes(before[k])) {
                        order::lemma_lex_less_total(
                            name_bytes(before[k]),
                            name_bytes(before[at - 1]),
                        );
                        if name_bytes(before[k]) != name_bytes(before[at - 1]) {
                            order::lemma_lex_less_transitive(
                                name_bytes(name@),
                                name_bytes(before[k]),
                                name_bytes(before[at - 1]),
                            );
                        }
                    }
                }
            }
            break;
        }
        at = at - 1;
    }
    names.insert(at, name);
    proof {
        let after = texts(names@);
        assert(after =~= before.insert(at as int, name@));
        vstd::seq_lib::to_multiset_insert(before, at as int, name@);
        assert forall|i: int, j: int| 0 <= i < j < after.len() implies !order::lex_less(
            name_bytes(#[trigger] after[j]),
            name_bytes(#[trigger] after[i]),
        ) by {
            if i == at {
                assert(after[j] == before[j - 1]);
                order::lemma_lex_less_asymmetric(name_bytes(name@), name_bytes(before[j - 1]));
            } else if j == at {
                assert(after[i] == before[i]);
            } else {
                assert(after[i] == before[if i < at { i } else { i - 1 }]);
                assert(after[j] == before[if j < at { j } else { j - 1 }]);
            }
        }
    }
}

/// The names among these that segments have, in the order to scan them.
pub fn segment_files(names: Vec<String>) -> (r: Vec<String>)
    ensures
        in_order(texts(r@)),
        texts(r@).to_multiset() == segments_among(texts(names@)),
{
    let ghost all = texts(names@);
    let mut out: Vec<String> = Vec::new();
    proof {
        assert(texts(out@) =~= Seq::empty());
        texts(out@).to_multiset_ensures();
        assert(texts(out@).to_multiset() =~= Multiset::empty());
        assert(all.take(0) =~= Seq::empty());
    }
    for name in it: names
        invariant
            all == texts(it.seq()),
            in_order(texts(out@)),
            texts(out@).to_multiset() == segments_among(all.take(it.index() as int)),
    {
        proof {
            let n = it.index() as int;
            assert(all.take(n + 1).drop_last() =~= all.take(n));
            assert(all.take(n + 1).last() == name@);
        }
        if names_segment(name.as_str()) {
            insert_in_order(&mut out, name);
        }
    }
    proof {
        assert(all.take(all.len() as int) =~= all);
    }
    out
}

fn raise(max_seq: Option<u64>, seq: u64) -> (r: Option<u64>)
    ensures
        r == raised(max_seq, seq),
{
    match max_seq {
        Some(m) => Some(if m > seq { m } else { seq }),
        None => Some(seq),
    }
}

impl GroupStore {
    pub closed spec fn view(self) -> Catalog {
        Catalog {
            segments: self.segments@.map_values(|s: Segment| s@),
            index: self.index@,
            max_seq: self.max_seq,
        }
    }

    /// The size at which a segment is full.
    pub closed spec fn target(self) -> u64 {
        self.segment_target
    }

    /// Every group is stored in a segment that there is.
    pub open spec fn wf(self) -> bool {
        forall|seq: u64|
            self@.index.contains_key(seq) ==> (#[trigger] self@.index[seq]).segment
                < self@.segments.len()
    }

    /// A store that has scanned nothing yet, with segments of the usual size.
    pub fn new() -> (r: GroupStore)
        ensures
            r.wf(),
            r@ == empty_catalog(),
            r.target() == SEGMENT_TARGET_BYTES,
    {
        GroupStore::with_segment_target(SEGMENT_TARGET_BYTES)
    }

    /// A store that has scanned nothing yet, with segments that are full at
    /// `segment_target` bytes.
    pub fn with_segment_target(segment_target: u64) -> (r: GroupStore)
        ensures
            r.wf(),
            r@ == empty_catalog(),
            r.target() == segment_target,
    {
        let store = GroupStore {
            segments: Vec::new(),
            index: BTreeMap::new(),
            max_seq: None,
            segment_target,
        };
        proof {
            assert(store@.segments =~= Seq::empty());
        }
        store
    }

    /// The highest group sequence on disk, used to seed monotonic ids on
    /// restart.
    pub fn max_seq(&self) -> (r: Option<u64>)
        ensures
            r == self@.max_seq,
    {
        self.max_seq
    }

    /// The lowest group sequence still on disk, or None if empty. This is the
    /// floor of the deep (disk-served) replay window: the oldest group a
    /// resuming subscriber can be backfilled from.
    pub fn oldest_seq(&self) -> (r: Option<u64>)
        ensures
            match r {
                Some(seq) => {
                    &&& self@.index.contains_key(seq)
                    &&& forall|k: u64| #[trigger] self@.index.contains_key(k) ==> seq <= k
                },
                None => self@.index == Map::<u64, Location>::empty(),
            },
    {
        let all = self.groups_since(0);
        if all.len() > 0 {
            proof {
                assert forall|k: u64| #[trigger] self@.index.contains_key(k) implies all@[0] <= k by {
                    assert(all@.contains(k));
                    let i = choose|i: int| 0 <= i < all@.len() && all@[i] == k;
                    assert(all@[0] <= all@[i]);
                }
                assert(all@.contains(all@[0]));
            }
            Some(all[0])
        } else {
            proof {
                assert forall|k: u64| !(#[trigger] self@.index.contains_key(k)) by {
                    if self@.index.contains_key(k) {
                        assert(all@.contains(k));
                    }
                }
                assert(self@.index =~= Map::<u64, Location>::empty());
            }
            None
        }
    }

    /// Scan a segment file: index its whole records and raise the high-water
    /// sequence. Segments are scanned in the order of their names.
    ///
    /// A torn tail record (crash mid-append) is tolerated, but has to be cut
    /// away: the length to cut the file down to is returned. New records land
    /// at the physical end of the file; if torn bytes were left in place,
    /// every new record would land past the offset the index records for it.
    pub fn scan_segment(&mut self, name: String, data: &[u8]) -> (torn: Option<u64>)
        requires
            old(self).wf(),
        ensures
            final(self).wf(),
            final(self).target() == old(self).target(),
            final(self)@ == scanned(old(self)@, name@, data@),
            match torn {
                Some(len) => len == clean_end(data@, 0) && len < data@.len(),
                None => clean_end(data@, 0) == data@.len(),
            },
    {
        let ghost before = self@;
        let ghost all = outlines(data@, 0);
        let ghost mut seen: Seq<Outline> = Seq::empty();
        let segment = self.segments.len();
        let mut at: usize = 0;
        let mut first_seq: Option<u64> = None;
        let mut newest_ms: u64 = 0;
        proof {
            assert(seen + all =~= all);
        }
        loop
            invariant
                at <= data@.len(),
                self.segments == old(self).segments,
                self.segment_target == old(self).segment_target,
                segment == self.segments@.len(),
                before == old(self)@,
                all == outlines(data@, 0),
                all == seen + outlines(data@, at as int),
                clean_end(data@, 0) == clean_end(data@, at as int),
                self.index@ == indexed(before.index, seen, segment as int),
                self.max_seq == raised_by(before.max_seq, seen),
                newest_ms == newest(seen),
                first_seq == (if seen.len() == 0 {
                    None
                } else {
                    Some(seen[0].seq)
                }),
            ensures
                record::record_at(data@, at as int) is None,
            decreases data@.len() - at,
        {
            let (seq, ms, end) = match read_record_header(data, at) {
                Some(outline) => outline,
                None => {
                    break;
                },
            };
            let location = Location {
                segment,
                offset: at as u64,
                len: (end - at) as u64,
                created_ms: ms,
            };
            proof {
                let o = Outline { seq, ms, offset: at as int, end: end as int };
                assert(seen + (seq![o] + outlines(data@, end as int)) =~= seen.push(o) + outlines(
                    data@,
                    end as int,
                ));
                assert(seen.push(o).drop_last() =~= seen);
                seen = seen.push(o);
            }
            if first_seq.is_none() {
                first_seq = Some(seq);
            }
            newest_ms = ms;
            self.index.insert(seq, location);
            self.max_seq = raise(self.max_seq, seq);
            at = end;
        }
        let first = match first_seq {
            Some(seq) => seq,
            None => 0,
        };
        self.segments.push(Segment { name, first_seq: first, newest_ms, bytes: at as u64 });
        proof {
            assert(seen + Seq::<Outline>::empty() =~= seen);
            assert(self@.segments =~= scanned(before, name@, data@).segments);
            lemma_indexed_segments(before.index, seen, segment as int);
            assert forall|seq: u64| self@.index.contains_key(seq) implies (
            #[trigger] self@.index[seq]).segment < self@.segments.len() by {
                if before.index.contains_key(seq) {
                    assert(before.index[seq].segment < before.segments.len());
                }
            }
        }
        if at < data.len() {
            Some(at as u64)
        } else {
            None
        }
    }

    /// Open a store from its segment files, each by its name and its bytes, in
    /// the order of their names: scan them all to rebuild the index and recover
    /// the high-water sequence. Says which files to cut down, and to what
    /// length.
    pub fn open(files: Vec<(String, Vec<u8>)>) -> (r: (GroupStore, Vec<(String, u64)>))
        ensures
            r.0.wf(),
            r.0.target() == SEGMENT_TARGET_BYTES,
            r.0@ == scanned_all(empty_catalog(), contents(files@)),
            r.1@.len() == torn_files(contents(files@)).len(),
            forall|i: int|
                0 <= i < r.1@.len() ==> {
                    &&& (#[trigger] r.1@[i]).0@ == torn_files(contents(files@))[i].0
                    &&& r.1@[i].1 == torn_files(contents(files@))[i].1
                },
    {
        let mut store = GroupStore::new();
        let mut cuts: Vec<(String, u64)> = Vec::new();
        let ghost all = contents(files@);
        proof {
            assert(all.take(0) =~= Seq::empty());
        }
        for (name, data) in it: files
            invariant
                all == contents(it.seq()),
                store.wf(),
                store.target() == SEGMENT_TARGET_BYTES,
                store@ == scanned_all(empty_catalog(), all.take(it.index() as int)),
                cuts@.len() == torn_files(all.take(it.index() as int)).len(),
                forall|i: int|
                    0 <= i < cuts@.len() ==> {
                        &&& (#[trigger] cuts@[i]).0@ == torn_files(
                            all.take(it.index() as int),
                        )[i].0
                        &&& cuts@[i].1 == torn_files(all.take(it.index() as int))[i].1
                    },
        {
            proof {
                let n = it.index() as int;
                assert(all.take(n + 1).drop_last() =~= all.take(n));
                assert(all.take(n + 1).last() == (name@, data@));
            }
            let file = name.clone();
            if let Some(len) = store.scan_segment(name, data.as_slice()) {
                cuts.push((file, len));
            }
        }
        proof {
            assert(all.take(all.len() as int) =~= all);
        }
        (store, cuts)
    }

    /// The segment for group `next_seq`, and whether it is to be made.
    fn ensure_writer(&self, next_seq: u64) -> (r: (bool, String))
        ensures
            r.0 == rotates(self@, self.target()),
            r.1@ == opened(self@, self.target(), next_seq).segments.last().name,
    {
        let n = self.segments.len();
        if n > 0 && self.segments[n - 1].bytes < self.segment_target {
            (false, self.segments[n - 1].name.clone())
        } else {
            (true, make_segment_name(next_seq))
        }
    }

    /// Append a group's frames. `created_ms` is the wall-clock time used for
    /// GC. Says what to write where; the store stays as it is. Once the segment's
    /// file is open, [`GroupStore::add_segment`] is to be told so, and once the
    /// record is written, [`GroupStore::commit`].
    pub fn append(&self, seq: u64, created_ms: u64, frames: &[Vec<u8>]) -> (r: Append)
        ensures
            r.create == rotates(self@, self.target()),
            r.segment@ == opened(self@, self.target(), seq).segments.last().name,
            with_segment(self@, r.create, r.segment@, r.seq) == opened(self@, self.target(), seq),
            r.create || self@.segments.len() > 0,
            r.seq == seq,
            r.created_ms == created_ms,
            r.record@ == record::record_bytes(seq, created_ms, record::views(frames@)),
    {
        let (create, segment) = self.ensure_writer(seq);
        Append { segment, create, seq, created_ms, record: encode_record(seq, created_ms, frames) }
    }

    /// The file of the segment is open: takes the segment into the catalog,
    /// where it is new. It holds nothing yet.
    pub fn add_segment(&mut self, plan: &Append)
        requires
            old(self).wf(),
        ensures
            final(self).wf(),
            final(self).target() == old(self).target(),
            final(self)@ == with_segment(old(self)@, plan.create, plan.segment@, plan.seq),
    {
        let ghost start = self@;
        if plan.create {
            self.segments.push(
                Segment {
                    name: plan.segment.clone(),
                    first_seq: plan.seq,
                    newest_ms: 0,
                    bytes: 0,
                },
            );
        }
        proof {
            let open = with_segment(start, plan.create, plan.segment@, plan.seq);
            assert(self@.segments =~= open.segments);
            assert forall|seq: u64| self@.index.contains_key(seq) implies (
            #[trigger] self@.index[seq]).segment < self@.segments.len() by {
                assert(start.index[seq].segment < start.segments.len());
            }
        }
    }

    /// The record is written at the end of the last segment: takes it into the
    /// index.
    pub fn commit(&mut self, written: &Append)
        requires
            old(self).wf(),
            old(self)@.segments.len() > 0,
        ensures
            final(self).wf(),
            final(self).target() == old(self).target(),
            final(self)@ == appended(
                old(self)@,
                written.seq,
                written.created_ms,
                written.record@.len(),
            ),
    {
        let ghost before = self@;
        let last = self.segments.len() - 1;
        let len = written.record.len() as u64;
        let offset = self.segments[last].bytes;
        self.index.insert(
            written.seq,
            Location { segment: last, offset, len, created_ms: written.created_ms },
        );
        self.max_seq = raise(self.max_seq, written.seq);
        let name = self.segments[last].name.clone();
        let first_seq = self.segments[last].first_seq;
        self.segments.set(
            last,
            Segment {
                name,
                first_seq,
                newest_ms: written.created_ms,
                bytes: offset.wrapping_add(len),
            },
        );
        proof {
            let after = appended(
                before,
                written.seq,
                written.created_ms,
                written.record@.len(),
            );
            assert(self@.segments =~= after.segments);
            assert forall|seq: u64| self@.index.contains_key(seq) implies (
            #[trigger] self@.index[seq]).segment < self@.segments.len() by {
                if seq != written.seq {
                    assert(before.index[seq].segment < before.segments.len());
                }
            }
        }
    }

    /// Where a group is stored: the segment's name, the offset and the length
    /// of its record; or None if not stored (evicted or never seen).
    pub fn locate(&self, seq: u64) -> (r: Option<(String, u64, u64)>)
        requires
            self.wf(),
        ensures
            match r {
                Some((name, offset, len)) => {
                    &&& self@.index.contains_key(seq)
                    &&& name@ == self@.segments[self@.index[seq].segment as int].name
                    &&& offset == self@.index[seq].offset
                    &&& len == self@.index[seq].len
                },
                None => !self@.index.contains_key(seq),
            },
    {
        match self.index.get(&seq) {
            Some(location) => {
                proof {
                    assert(self@.index[seq] == *location);
                    assert(location.segment < self@.segments.len());
                }
                Some(
                    (
                        self.segments[location.segment].name.clone(),
                        location.offset,
                        location.len,
                    ),
                )
            },
            None => None,
        }
    }

    /// Read back a group's frames out of the bytes stored where
    /// [`GroupStore::locate`] says, or None if the group is not stored.
    pub fn read(&self, seq: u64, stored: &[u8]) -> (r: Result<Option<Vec<Vec<u8>>>, StoreError>)
        ensures
            if !self@.index.contains_key(seq) {
                r matches Ok(None)
            } else {
                match record::record_at(stored@, 0) {
                    None => r == Err::<Option<Vec<Vec<u8>>>, StoreError>(
                        StoreError::Truncated(seq),
                    ),
                    Some((found, _)) => if found.seq != seq {
                        r == Err::<Option<Vec<Vec<u8>>>, StoreError>(
                            StoreError::Mismatch { found: found.seq, wanted: seq },
                        )
                    } else {
                        r matches Ok(Some(frames)) && record::views(frames@) == found.frames
                    },
                }
            },
    {
        if self.index.get(&seq).is_none() {
            return Ok(None);
        }
        match read_record(stored) {
            None => Err(StoreError::Truncated(seq)),
            Some((found, _, frames)) => if found != seq {
                Err(StoreError::Mismatch { found, wanted: seq })
            } else {
                Ok(Some(frames))
            },
        }
    }

    /// Drops the oldest segment, and the groups stored in it; returns its name.
    fn drop_first(&mut self) -> (name: String)
        requires
            old(self).wf(),
            old(self)@.segments.len() > 0,
        ensures
            final(self).wf(),
            final(self).target() == old(self).target(),
            final(self)@ == without_first(old(self)@),
            name@ == old(self)@.segments[0].name,
    {
        let ghost before = self@;
        let mut kept: BTreeMap<u64, Location> = BTreeMap::new();
        let iter = self.index.iter();
        let ghost all = iter.remaining();
        for (seq, location) in it: iter
            invariant
                it.seq() == all,
                kept@ == kept_of(all.take(it.index() as int)),
        {
            proof {
                assert(all.take(it.index() + 1).drop_last() =~= all.take(it.index() as int));
            }
            if location.segment > 0 {
                kept.insert(
                    *seq,
                    Location {
                        segment: location.segment - 1,
                        offset: location.offset,
                        len: location.len,
                        created_ms: location.created_ms,
                    },
                );
            }
        }
        proof {
            assert(all.take(all.len() as int) =~= all);
            lemma_kept_of(all, self.index@);
        }
        self.index = kept;
        let segment = self.segments.remove(0);
        proof {
            let after = without_first(before);
            assert(self@.index =~= after.index);
            assert(self@.segments =~= after.segments);
            assert forall|seq: u64| self@.index.contains_key(seq) implies (
            #[trigger] self@.index[seq]).segment < self@.segments.len() by {
                assert(before.index[seq].segment < before.segments.len());
            }
        }
        segment.name
    }

    /// Drop whole segments whose newest group is older than `cutoff_ms`;
    /// returns the names of the files to delete, oldest first. The active
    /// (last) segment is never dropped.
    pub fn gc(&mut self, cutoff_ms: u64) -> (removed: Vec<String>)
        requires
            old(self).wf(),
        ensures
            final(self).wf(),
            final(self).target() == old(self).target(),
            final(self)@ == without(old(self)@, expired(old(self)@.segments, cutoff_ms)),
            removed@.len() == expired(old(self)@.segments, cutoff_ms),
            forall|i: int|
                0 <= i < removed@.len() ==> (#[trigger] removed@[i])@
                    == old(self)@.segments[i].name,
    {
        let ghost before = self@;
        let ghost total = expired(before.segments, cutoff_ms);
        let mut removed: Vec<String> = Vec::new();
        proof {
            assert(before.segments.skip(0) =~= before.segments);
        }
        while self.segments.len() > 1 && self.segments[0].newest_ms < cutoff_ms
            invariant
                self.wf(),
                self.target() == old(self).target(),
                before == old(self)@,
                removed@.len() <= before.segments.len(),
                self@.segments == before.segments.skip(removed@.len() as int),
                total == expired(before.segments, cutoff_ms),
                total == removed@.len() + expired(self@.segments, cutoff_ms),
                without(before, total) == without(self@, expired(self@.segments, cutoff_ms)),
                forall|i: int|
                    0 <= i < removed@.len() ==> (#[trigger] removed@[i])@
                        == before.segments[i].name,
            decreases self.segments@.len(),
        {
            proof {
                assert(self@.segments[0] == self.segments@[0]@);
                assert(self@.segments.drop_first() =~= before.segments.skip((removed@.len() + 1) as int));
            }
            let name = self.drop_first();
            removed.push(name);
        }
        proof {
            if self.segments@.len() > 1 {
                assert(self@.segments[0] == self.segments@[0]@);
            }
        }
        removed
    }

    /// Group sequences whose group is at least as new as `cutoff_ms`,
    /// ascending: the set to reload into the live track on startup (the
    /// in-window groups).
    pub fn groups_since(&self, cutoff_ms: u64) -> (r: Vec<u64>)
        ensures
            forall|i: int, j: int| 0 <= i < j < r@.len() ==> r@[i] < r@[j],
            forall|seq: u64| #[trigger]
                r@.contains(seq) <==> self@.index.contains_key(seq) && self@.index[seq].created_ms
                    >= cutoff_ms,
    {
        let mut out: Vec<u64> = Vec::new();
        let iter = self.index.iter();
        let ghost all = iter.remaining();
        proof {
            let keys = all.map_values(|kv: (&u64, &Location)| *kv.0);
            lemma_increasing(keys);
            assert forall|i: int, j: int| 0 <= i < j < all.len() implies *(#[trigger] all[i]).0 < *(
            #[trigger] all[j]).0 by {
                assert(keys[i] == *all[i].0);
                assert(keys[j] == *all[j].0);
            }
        }
        for (seq, location) in it: iter
            invariant
                it.seq() == all,
                forall|i: int, j: int|
                    0 <= i < j < all.len() ==> *(#[trigger] all[i]).0 < *(#[trigger] all[j]).0,
                forall|i: int|
                    0 <= i < all.len() ==> self.index@.contains_key(*(#[trigger] all[i]).0)
                        && self.index@[*all[i].0] == *all[i].1,
                forall|i: int, j: int| 0 <= i < j < out@.len() ==> out@[i] < out@[j],
                forall|seq: u64| #[trigger]
                    out@.contains(seq) <==> among(all.take(it.index() as int), cutoff_ms, seq),
        {
            let ghost n = it.index() as int;
            let ghost had = out@;
            proof {
                assert forall|i: int| 0 <= i < out@.len() implies #[trigger] out@[i] < *seq by {
                    assert(out@.contains(out@[i]));
                    let k = choose|k: int|
                        0 <= k < n && *(#[trigger] all.take(n)[k]).0 == out@[i];
                    assert(all.take(n)[k] == all[k]);
                }
            }
            if location.created_ms >= cutoff_ms {
                out.push(*seq);
            }
            proof {
                lemma_among_next(all, n, cutoff_ms);
                assert forall|other: u64| #[trigger]
                    out@.contains(other) <==> among(all.take(n + 1), cutoff_ms, other) by {
                    assert(had.contains(other) <==> among(all.take(n), cutoff_ms, other));
                    if location.created_ms >= cutoff_ms {
                        assert(out@ == had.push(*seq));
                        if out@.contains(other) && other != *seq {
                            let i = choose|i: int| 0 <= i < out@.len() && out@[i] == other;
                            assert(had[i] == other);
                        }
                        if had.contains(other) {
                            let i = choose|i: int| 0 <= i < had.len() && had[i] == other;
                            assert(out@[i] == other);
                        }
                        assert(out@[out@.len() - 1] == *seq);
                    }
                }
            }
        }
        proof {
            assert(all.take(all.len() as int) =~= all);
            assert forall|seq: u64| #[trigger]
                out@.contains(seq) <==> self@.index.contains_key(seq)
                    && self@.index[seq].created_ms >= cutoff_ms by {
                if out@.contains(seq) {
                    let k = choose|k: int|
                        0 <= k < all.len() && *(#[trigger] all[k]).0 == seq
                            && all[k].1.created_ms >= cutoff_ms;
                    assert(self.index@.contains_key(*all[k].0));
                }
                if self.index@.contains_key(seq) && self.index@[seq].created_ms >= cutoff_ms {
                    assert(all.contains((&seq, &self.index@[seq])));
                    let k = choose|k: int| 0 <= k < all.len() && all[k] == (&seq, &self.index@[seq]);
                    assert(*all[k].0 == seq);
                    assert(among(all, cutoff_ms, seq));
                }
            }
        }
        out
    }
}

/// The groups of `all` that are not stored in the oldest segment, as they are
/// found once it is gone.
spec fn kept_of(all: Seq<(&u64, &Location)>) -> Map<u64, Location>
    decreases all.len(),
{
    if all.len() == 0 {
        Map::empty()
    } else {
        let rest = kept_of(all.drop_last());
        let (seq, location) = all.last();
        if location.segment > 0 {
            rest.insert(*seq, Location { segment: (location.segment - 1) as usize, ..*location })
        } else {
            rest
        }
    }
}

proof fn lemma_kept_of(all: Seq<(&u64, &Location)>, index: Map<u64, Location>)
    requires
        forall|i: int|
            0 <= i < all.len() ==> index.contains_key(*(#[trigger] all[i]).0)
                && index[*all[i].0] == *all[i].1,
    ensures
        forall|seq: u64| #[trigger]
            kept_of(all).contains_key(seq) <==> index.contains_key(seq) && index[seq].segment > 0
                && all.contains((&seq, &index[seq])),
        forall|seq: u64| #[trigger]
            kept_of(all).contains_key(seq) ==> kept_of(all)[seq] == (Location {
                segment: (index[seq].segment - 1) as usize,
                ..index[seq]
            }),
    decreases all.len(),
{
    if all.len() > 0 {
        let some = all.drop_last();
        let last = all.last();
        assert forall|i: int| 0 <= i < some.len() implies index.contains_key(
            *(#[trigger] some[i]).0,
        ) && index[*some[i].0] == *some[i].1 by {
            assert(some[i] == all[i]);
        }
        lemma_kept_of(some, index);
        assert(all[all.len() - 1] == last);
        assert forall|seq: u64| #[trigger]
            kept_of(all).contains_key(seq) <==> index.contains_key(seq) && index[seq].segment > 0
                && all.contains((&seq, &index[seq])) by {
            assert(kept_of(some).contains_key(seq) <==> index.contains_key(seq)
                && index[seq].segment > 0 && some.contains((&seq, &index[seq])));
            if some.contains((&seq, &index[seq])) {
                let k = choose|k: int| 0 <= k < some.len() && some[k] == (&seq, &index[seq]);
                assert(all[k] == some[k]);
            }
            if all.contains((&seq, &index[seq])) {
                let k = choose|k: int| 0 <= k < all.len() && all[k] == (&seq, &index[seq]);
                if k < some.len() {
                    assert(some[k] == all[k]);
                }
            }
        }
        assert forall|seq: u64| #[trigger] kept_of(all).contains_key(seq) implies kept_of(all)[seq]
            == (Location { segment: (index[seq].segment - 1) as usize, ..index[seq] }) by {
            if !(last.1.segment > 0 && seq == *last.0) {
                assert(kept_of(some).contains_key(seq));
            }
        }
    }
}

proof fn lemma_increasing(keys: Seq<u64>)
    requires
        vstd::std_specs::btree::increasing_seq(keys),
    ensures
        forall|i: int, j: int| 0 <= i < j < keys.len() ==> keys[i] < keys[j],
{
    assert forall|i: int, j: int| 0 <= i < j < keys.len() implies keys[i] < keys[j] by {
        assert(keys[i].cmp_spec(&keys[j]) is Less);
    }
}

/// `seq` is among the groups of `all` that are at least as new as `cutoff_ms`.
spec fn among(all: Seq<(&u64, &Location)>, cutoff_ms: u64, seq: u64) -> bool {
    exists|k: int|
        0 <= k < all.len() && *(#[trigger] all[k]).0 == seq && all[k].1.created_ms >= cutoff_ms
}

proof fn lemma_among_next(all: Seq<(&u64, &Location)>, n: int, cutoff_ms: u64)
    requires
        0 <= n < all.len(),
    ensures
        forall|seq: u64| #[trigger]
            among(all.take(n + 1), cutoff_ms, seq) <==> among(all.take(n), cutoff_ms, seq) || (
            *all[n].0 == seq && all[n].1.created_ms >= cutoff_ms),
{
    let more = all.take(n + 1);
    let less = all.take(n);
    assert forall|seq: u64| #[trigger]
        among(more, cutoff_ms, seq) <==> among(less, cutoff_ms, seq) || (*all[n].0 == seq
            && all[n].1.created_ms >= cutoff_ms) by {
        if among(more, cutoff_ms, seq) {
            let k = choose|k: int|
                0 <= k < more.len() && *(#[trigger] more[k]).0 == seq && more[k].1.created_ms
                    >= cutoff_ms;
            if k < n {
                assert(less[k] == more[k]);
            }
        }
        if among(less, cutoff_ms, seq) {
            let k = choose|k: int|
                0 <= k < less.len() && *(#[trigger] less[k]).0 == seq && less[k].1.created_ms
                    >= cutoff_ms;
            assert(less[k] == more[k]);
        }
        assert(more[n] == all[n]);
    }
}

pub proof fn lemma_indexed_segments(index: Map<u64, Location>, found: Seq<Outline>, segment: int)
    requires
        0 <= segment <= usize::MAX,
    ensures
        forall|seq: u64| #[trigger]
            indexed(index, found, segment).contains_key(seq) ==> {
                let location = indexed(index, found, segment)[seq];
                location.segment == segment || (index.contains_key(seq) && location == index[seq])
            },
    decreases found.len(),
{
    if found.len() > 0 {
        lemma_indexed_segments(index, found.drop_last(), segment);
        let before = indexed(index, found.drop_last(), segment);
        assert forall|seq: u64| #[trigger]
            indexed(index, found, segment).contains_key(seq) implies {
            let location = indexed(index, found, segment)[seq];
            location.segment == segment || (index.contains_key(seq) && location == index[seq])
        } by {
            if seq != found.last().seq {
                assert(before.contains_key(seq));
            }
        }
    }
}

} // verus!
