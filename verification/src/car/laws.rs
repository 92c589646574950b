//! What holds of every archive: what is written into one is read back from it,
//! and an archive that is cut off keeps the entries before the cut.

use vstd::prelude::*;

use crate::assoc;
use crate::car;
use crate::car::CarError;
use crate::text;

verus! {

/// `n` as LEB128 bytes, as few as it takes.
pub open spec fn leb128_bytes(n: nat) -> Seq<u8>
    decreases n,
{
    if n < 128 {
        seq![n as u8]
    } else {
        seq![(128 + n % 128) as u8] + leb128_bytes(n / 128)
    }
}

/// The bytes of an entry.
pub open spec fn entry_bytes(cid: Seq<u8>, block: Seq<u8>) -> Seq<u8> {
    leb128_bytes(cid.len() + block.len()) + (cid + block)
}

/// The bytes of all `entries`, one after the other.
pub open spec fn entries_bytes(entries: Seq<(Seq<u8>, Seq<u8>)>) -> Seq<u8>
    decreases entries.len(),
{
    if entries.len() == 0 {
        Seq::empty()
    } else {
        entry_bytes(entries[0].0, entries[0].1) + entries_bytes(entries.drop_first())
    }
}

/// The archive with this header and these entries.
pub open spec fn archive(header: Seq<u8>, entries: Seq<(Seq<u8>, Seq<u8>)>) -> Seq<u8> {
    leb128_bytes(header.len()) + header + entries_bytes(entries)
}

/// Every entry is a whole CID and a block, short enough for its length to be
/// written in 64 bits.
pub open spec fn well_formed(entries: Seq<(Seq<u8>, Seq<u8>)>) -> bool {
    forall|i: int|
        0 <= i < entries.len() ==> {
            &&& car::cid_len((#[trigger] entries[i]).0) == Ok::<int, CarError>(
                entries[i].0.len() as int,
            )
            &&& entries[i].0.len() + entries[i].1.len() < 0x1_0000_0000_0000_0000
        }
}

/// `n` is small enough for `left` LEB128 bytes.
spec fn small(n: nat, left: nat) -> bool
    decreases left,
{
    if left == 0 {
        false
    } else if n < 128 {
        true
    } else {
        small(n / 128, (left - 1) as nat)
    }
}

proof fn lemma_small(n: nat)
    requires
        n < 0x1_0000_0000_0000_0000,
    ensures
        small(n, 10),
{
    reveal_with_fuel(small, 11);
    assert(n / 128 / 128 / 128 / 128 / 128 / 128 / 128 / 128 / 128 < 128);
}

proof fn lemma_leb128_reads(n: nat, left: nat, after: Seq<u8>)
    requires
        small(n, left),
    ensures
        leb128_bytes(n).len() > 0,
        car::leb128_at(leb128_bytes(n) + after, 0, left) == Ok::<(nat, int), CarError>(
            (n, leb128_bytes(n).len() as int),
        ),
    decreases left,
{
    let data = leb128_bytes(n) + after;
    if n < 128 {
        assert(data[0] == n);
    } else {
        let high = leb128_bytes(n / 128);
        assert(small(n / 128, (left - 1) as nat));
        assert(data[0] == 128 + n % 128);
        lemma_leb128_reads(n / 128, (left - 1) as nat, after);
        let first = seq![(128 + n % 128) as u8];
        assert(data =~= first + (high + after));
        lemma_leb128_moves(first, high + after, 0, (left - 1) as nat);
    }
}

/// A result at an offset of a part, as it is in the whole that the part ends.
spec fn moved(r: Result<(nat, int), CarError>, by: int) -> Result<(nat, int), CarError> {
    match r {
        Ok((n, end)) => Ok((n, end + by)),
        Err(e) => Err(e),
    }
}

proof fn lemma_leb128_moves(before: Seq<u8>, data: Seq<u8>, at: int, left: nat)
    requires
        0 <= at,
    ensures
        car::leb128_at(before + data, before.len() + at, left) == moved(
            car::leb128_at(data, at, left),
            before.len() as int,
        ),
    decreases left,
{
    if at < data.len() {
        assert((before + data)[before.len() + at] == data[at]);
        if left > 1 {
            lemma_leb128_moves(before, data, at + 1, (left - 1) as nat);
        }
    }
}

proof fn lemma_sections_move(before: Seq<u8>, data: Seq<u8>, at: int)
    requires
        0 <= at,
    ensures
        car::sections(before + data, before.len() + at) == car::sections(data, at),
    decreases data.len() - at,
{
    if at < data.len() {
        lemma_leb128_moves(before, data, at, 10);
        car::lemma_leb128_bounds(data, at, 10);
        if let Ok((len, start)) = car::varint_at(data, at) {
            if len <= data.len() - start {
                lemma_sections_move(before, data, start + len);
                assert((before + data).subrange(
                    before.len() + start,
                    before.len() + start + len,
                ) =~= data.subrange(start, start + len));
            }
        }
    }
}

proof fn lemma_leb128_extends(data: Seq<u8>, after: Seq<u8>, at: int, left: nat)
    requires
        0 <= at,
        car::leb128_at(data, at, left) is Ok,
    ensures
        car::leb128_at(data + after, at, left) == car::leb128_at(data, at, left),
    decreases left,
{
    assert((data + after)[at] == data[at]);
    if left > 1 && data[at] >= 128 {
        lemma_leb128_extends(data, after, at + 1, (left - 1) as nat);
    }
}

/// A CID is the same whatever block follows it.
pub proof fn law_cid_is_decided_by_itself(cid: Seq<u8>, block: Seq<u8>)
    requires
        car::cid_len(cid) == Ok::<int, CarError>(cid.len() as int),
    ensures
        car::cid_len(cid + block) == car::cid_len(cid),
{
    let codec_at = car::varint_at(cid, 0)->Ok_0.1;
    car::lemma_leb128_bounds(cid, 0, 10);
    lemma_leb128_extends(cid, block, 0, 10);
    let code_at = car::varint_at(cid, codec_at)->Ok_0.1;
    car::lemma_leb128_bounds(cid, codec_at, 10);
    lemma_leb128_extends(cid, block, codec_at, 10);
    let len_at = car::varint_at(cid, code_at)->Ok_0.1;
    car::lemma_leb128_bounds(cid, code_at, 10);
    lemma_leb128_extends(cid, block, code_at, 10);
    lemma_leb128_extends(cid, block, len_at, 10);
}

proof fn lemma_first_section(cid: Seq<u8>, block: Seq<u8>, tail: Seq<u8>)
    requires
        car::cid_len(cid) == Ok::<int, CarError>(cid.len() as int),
        cid.len() + block.len() < 0x1_0000_0000_0000_0000,
    ensures
        car::sections(entry_bytes(cid, block) + tail, 0) == seq![(cid, block)] + car::sections(
            tail,
            0,
        ),
{
    let len = cid.len() + block.len();
    let head = leb128_bytes(len);
    let entry = cid + block;
    let before = entry_bytes(cid, block);
    let data = before + tail;
    law_varint_roundtrip(len, entry + tail);
    assert(data =~= head + (entry + tail));
    assert(car::varint_at(data, 0) == Ok::<(nat, int), CarError>((len, head.len() as int)));
    assert(data.subrange(head.len() as int, (head.len() + len) as int) =~= entry);
    law_cid_is_decided_by_itself(cid, block);
    assert(entry.take(cid.len() as int) =~= cid);
    assert(entry.skip(cid.len() as int) =~= block);
    lemma_sections_move(before, tail, 0);
    assert(before.len() == head.len() + len);
}

proof fn lemma_sections_read(entries: Seq<(Seq<u8>, Seq<u8>)>, after: Seq<u8>)
    requires
        well_formed(entries),
        car::sections(after, 0) == Seq::<(Seq<u8>, Seq<u8>)>::empty(),
    ensures
        car::sections(entries_bytes(entries) + after, 0) == entries,
    decreases entries.len(),
{
    if entries.len() == 0 {
        assert(entries_bytes(entries) + after =~= after);
        assert(entries =~= Seq::empty());
    } else {
        let (cid, block) = entries[0];
        let rest = entries.drop_first();
        assert(well_formed(rest)) by {
            assert forall|i: int| 0 <= i < rest.len() implies {
                &&& car::cid_len((#[trigger] rest[i]).0) == Ok::<int, CarError>(
                    rest[i].0.len() as int,
                )
                &&& rest[i].0.len() + rest[i].1.len() < 0x1_0000_0000_0000_0000
            } by {
                assert(rest[i] == entries[i + 1]);
            }
        }
        lemma_sections_read(rest, after);
        let tail = entries_bytes(rest) + after;
        assert(entries_bytes(entries) + after =~= entry_bytes(cid, block) + tail);
        lemma_first_section(cid, block, tail);
        assert(seq![(cid, block)] + rest =~= entries);
    }
}

proof fn lemma_archive_with_tail(
    header: Seq<u8>,
    entries: Seq<(Seq<u8>, Seq<u8>)>,
    tail: Seq<u8>,
)
    requires
        header.len() < 0x1_0000_0000_0000_0000,
        well_formed(entries),
        car::sections(tail, 0) == Seq::<(Seq<u8>, Seq<u8>)>::empty(),
    ensures
        car::blocks_of(archive(header, entries) + tail) == Ok::<
            Map<Seq<u8>, Seq<u8>>,
            CarError,
        >(assoc::collect(entries)),
{
    let head = leb128_bytes(header.len());
    let body = entries_bytes(entries) + tail;
    let data = archive(header, entries) + tail;
    law_varint_roundtrip(header.len(), header + body);
    assert(data =~= head + (header + body));
    assert(car::varint_at(data, 0) == Ok::<(nat, int), CarError>(
        (header.len(), head.len() as int),
    ));
    let before = head + header;
    assert(data =~= before + body);
    lemma_sections_move(before, body, 0);
    lemma_sections_read(entries, tail);
}

/// A varint that is written is read back, whatever follows it.
pub proof fn law_varint_roundtrip(n: nat, after: Seq<u8>)
    requires
        n < 0x1_0000_0000_0000_0000,
    ensures
        car::varint_at(leb128_bytes(n) + after, 0) == Ok::<(nat, int), CarError>(
            (n, leb128_bytes(n).len() as int),
        ),
{
    lemma_small(n);
    lemma_leb128_reads(n, 10, after);
}

/// The blocks that are written into an archive are the blocks that are read
/// from it; of two under one CID, the later.
pub proof fn law_blocks_are_read_back(header: Seq<u8>, entries: Seq<(Seq<u8>, Seq<u8>)>)
    requires
        header.len() < 0x1_0000_0000_0000_0000,
        well_formed(entries),
    ensures
        car::blocks_of(archive(header, entries)) == Ok::<Map<Seq<u8>, Seq<u8>>, CarError>(
            assoc::collect(entries),
        ),
{
    let none: Seq<u8> = Seq::empty();
    lemma_archive_with_tail(header, entries, none);
    assert(archive(header, entries) + none =~= archive(header, entries));
}

/// A trailing entry that is cut off, wherever the cut is, changes nothing: the
/// blocks before it are read as if it were not there.
pub proof fn law_cut_off_entry_is_ignored(
    header: Seq<u8>,
    entries: Seq<(Seq<u8>, Seq<u8>)>,
    cid: Seq<u8>,
    block: Seq<u8>,
    cut: int,
)
    requires
        header.len() < 0x1_0000_0000_0000_0000,
        well_formed(entries),
        cid.len() + block.len() < 0x1_0000_0000_0000_0000,
        0 <= cut < entry_bytes(cid, block).len(),
    ensures
        car::blocks_of(archive(header, entries) + entry_bytes(cid, block).take(cut))
            == car::blocks_of(archive(header, entries)),
{
    let len = cid.len() + block.len();
    let head = leb128_bytes(len);
    let tail = entry_bytes(cid, block).take(cut);
    if cut < head.len() {
        assert(tail =~= head.take(cut));
        lemma_cut_leb128(len, 10, cut);
    } else {
        let part = (cid + block).take(cut - head.len());
        assert(tail =~= head + part);
        lemma_small(len);
        lemma_leb128_reads(len, 10, part);
    }
    assert(car::sections(tail, 0) =~= Seq::empty());
    lemma_archive_with_tail(header, entries, tail);
    law_blocks_are_read_back(header, entries);
}

proof fn lemma_cut_leb128(n: nat, left: nat, cut: int)
    requires
        0 <= cut < leb128_bytes(n).len(),
    ensures
        car::leb128_at(leb128_bytes(n).take(cut), 0, left) is Err,
    decreases left,
{
    let data = leb128_bytes(n).take(cut);
    if cut > 0 {
        assert(n >= 128);
        let first = seq![(128 + n % 128) as u8];
        let rest = leb128_bytes(n / 128).take(cut - 1);
        assert(data =~= first + rest);
        if left > 1 {
            lemma_cut_leb128(n / 128, (left - 1) as nat, cut - 1);
            lemma_leb128_moves(first, rest, 0, (left - 1) as nat);
        }
    }
}

/// A CID of version 1 with this codec and this hash.
pub open spec fn cid_bytes(codec: nat, code: nat, hash: Seq<u8>) -> Seq<u8> {
    leb128_bytes(1) + (leb128_bytes(codec) + (leb128_bytes(code) + (leb128_bytes(hash.len())
        + hash)))
}

proof fn lemma_varint_after(before: Seq<u8>, n: nat, after: Seq<u8>)
    requires
        n < 0x1_0000_0000_0000_0000,
    ensures
        car::varint_at(before + (leb128_bytes(n) + after), before.len() as int) == Ok::<
            (nat, int),
            CarError,
        >((n, (before.len() + leb128_bytes(n).len()) as int)),
{
    law_varint_roundtrip(n, after);
    lemma_leb128_moves(before, leb128_bytes(n) + after, 0, 10);
}

/// A CID is its version, its codec, its hash's code and length, and that many
/// bytes of hash, whatever the codec and the code are.
pub proof fn law_cid_ends_with_its_hash(codec: nat, code: nat, hash: Seq<u8>)
    requires
        codec < 0x1_0000_0000_0000_0000,
        code < 0x1_0000_0000_0000_0000,
        hash.len() < 0x1_0000_0000_0000_0000,
    ensures
        car::cid_len(cid_bytes(codec, code, hash)) == Ok::<int, CarError>(
            cid_bytes(codec, code, hash).len() as int,
        ),
{
    let cid = cid_bytes(codec, code, hash);
    let a = leb128_bytes(1);
    let b = leb128_bytes(codec);
    let c = leb128_bytes(code);
    let d = leb128_bytes(hash.len());
    law_varint_roundtrip(1, b + (c + (d + hash)));
    lemma_varint_after(a, codec, c + (d + hash));
    lemma_varint_after(a + b, code, d + hash);
    assert(cid =~= (a + b) + (c + (d + hash)));
    lemma_varint_after(a + b + c, hash.len(), hash);
    assert(cid =~= (a + b + c) + (d + hash));
}

/// A CID of another version is refused, for its version; one whose hash is cut
/// off is refused too.
pub proof fn law_other_cids_are_refused(
    version: nat,
    after: Seq<u8>,
    codec: nat,
    code: nat,
    len: nat,
    hash: Seq<u8>,
)
    requires
        version < 0x1_0000_0000_0000_0000,
        version != 1,
        codec < 0x1_0000_0000_0000_0000,
        code < 0x1_0000_0000_0000_0000,
        hash.len() < len < 0x1_0000_0000_0000_0000,
    ensures
        car::cid_len(leb128_bytes(version) + after) == Err::<int, CarError>(
            CarError::CidVersion(version as u64),
        ),
        car::cid_len(
            leb128_bytes(1) + (leb128_bytes(codec) + (leb128_bytes(code) + (leb128_bytes(len)
                + hash))),
        ) == Err::<int, CarError>(CarError::TruncatedMultihash),
{
    law_varint_roundtrip(version, after);
    let a = leb128_bytes(1);
    let b = leb128_bytes(codec);
    let c = leb128_bytes(code);
    let d = leb128_bytes(len);
    let cid = a + (b + (c + (d + hash)));
    law_varint_roundtrip(1, b + (c + (d + hash)));
    lemma_varint_after(a, codec, c + (d + hash));
    lemma_varint_after(a + b, code, d + hash);
    assert(cid =~= (a + b) + (c + (d + hash)));
    lemma_varint_after(a + b + c, len, hash);
    assert(cid =~= (a + b + c) + (d + hash));
}

/// An entry whose CID cannot be read is passed over, and those after it are
/// read.
pub proof fn law_unreadable_entries_are_passed_over(entry: Seq<u8>, tail: Seq<u8>)
    requires
        car::cid_len(entry) is Err,
        entry.len() < 0x1_0000_0000_0000_0000,
    ensures
        car::sections(leb128_bytes(entry.len()) + entry + tail, 0) == car::sections(tail, 0),
{
    let head = leb128_bytes(entry.len());
    let data = head + entry + tail;
    assert(data =~= head + (entry + tail));
    law_varint_roundtrip(entry.len(), entry + tail);
    assert(data.subrange(head.len() as int, (head.len() + entry.len()) as int) =~= entry);
    lemma_sections_move(head + entry, tail, 0);
    lemma_small(entry.len());
    lemma_leb128_reads(entry.len(), 10, entry + tail);
}

/// An archive whose header is longer than it is no archive, and neither is one
/// without a header.
pub proof fn law_header_must_fit(len: nat, after: Seq<u8>)
    requires
        after.len() < len < 0x1_0000_0000_0000_0000,
    ensures
        car::blocks_of(leb128_bytes(len) + after) == Err::<Map<Seq<u8>, Seq<u8>>, CarError>(
            CarError::HeaderLength(len as u64),
        ),
        car::blocks_of(Seq::empty()) == Err::<Map<Seq<u8>, Seq<u8>>, CarError>(
            CarError::TruncatedVarint,
        ),
{
    law_varint_roundtrip(len, after);
}

/// A varint is at most ten bytes long.
pub proof fn law_long_varints_are_refused(data: Seq<u8>)
    requires
        data.len() >= 10,
        forall|i: int| 0 <= i < 10 ==> #[trigger] data[i] >= 128,
    ensures
        car::varint_at(data, 0) == Err::<(nat, int), CarError>(CarError::VarintOverflow),
{
    reveal_with_fuel(car::leb128_at, 11);
}

/// An archive that cannot be read says why.
pub proof fn law_archive_errors_say_what_is_wrong(n: u64)
    ensures
        CarError::TruncatedVarint.text() == "truncated varint"@,
        CarError::VarintOverflow.text() == "varint overflow"@,
        CarError::HeaderLength(n).text() == "CAR header length "@ + text::decimal(n as nat)
            + " exceeds input"@,
        CarError::CidVersion(n).text() == "unsupported CID version "@ + text::decimal(n as nat),
        CarError::TruncatedMultihash.text() == "truncated multihash"@,
{
}

} // verus!
