//! Minimal CAR (Content-Addressable aRchive) block reader: LEB128-length-prefixed
//! header, then `varint(len) | cid | block` entries.
//! Enough to look up record blocks by CID for display (`--ops`); MST
//! verification is out of scope here.

pub mod laws;

use vstd::prelude::*;
use vstd::slice::slice_to_vec;

use crate::assoc;
use crate::text;
use crate::text::{push_decimal, push_text, same_bytes};

verus! {

/// Why an archive, or an entry of it, could not be read.
#[derive(Debug, PartialEq, Eq)]
pub enum CarError {
    /// The input ends inside a varint.
    TruncatedVarint,
    /// A varint goes on for more than ten bytes.
    VarintOverflow,
    /// The header announces more bytes than there are.
    HeaderLength(u64),
    /// The CID is of another version.
    CidVersion(u64),
    /// The CID announces a longer hash than there is.
    TruncatedMultihash,
}

impl CarError {
    /// The line of text that says what was wrong.
    pub open spec fn text(self) -> Seq<char> {
        match self {
            CarError::TruncatedVarint => "truncated varint"@,
            CarError::VarintOverflow => "varint overflow"@,
            CarError::HeaderLength(n) => "CAR header length "@ + text::decimal(n as nat)
                + " exceeds input"@,
            CarError::CidVersion(version) => "unsupported CID version "@ + text::decimal(
                version as nat,
            ),
            CarError::TruncatedMultihash => "truncated multihash"@,
        }
    }

    /// What was wrong, as one line of text.
    pub fn to_text(&self) -> (r: String)
        ensures
            r@ == self.text(),
    {
        let mut out = String::new();
        match self {
            CarError::TruncatedVarint => push_text(&mut out, "truncated varint"),
            CarError::VarintOverflow => push_text(&mut out, "varint overflow"),
            CarError::HeaderLength(n) => {
                push_text(&mut out, "CAR header length ");
                push_decimal(&mut out, *n);
                push_text(&mut out, " exceeds input");
            },
            CarError::CidVersion(version) => {
                push_text(&mut out, "unsupported CID version ");
                push_decimal(&mut out, *version);
            },
            CarError::TruncatedMultihash => push_text(&mut out, "truncated multihash"),
        }
        proof {
            assert(out@ =~= self.text());
        }
        out
    }
}

/// The number that the LEB128 bytes at `at` write, and the offset just past
/// them; at most `left` bytes may belong to it.
pub open spec fn leb128_at(data: Seq<u8>, at: int, left: nat) -> Result<(nat, int), CarError>
    decreases left,
{
    if at >= data.len() {
        Err(CarError::TruncatedVarint)
    } else if data[at] < 128 {
        Ok((data[at] as nat, at + 1))
    } else if left <= 1 {
        Err(CarError::VarintOverflow)
    } else {
        match leb128_at(data, at + 1, (left - 1) as nat) {
            Ok((high, end)) => Ok(((data[at] - 128 + 128 * high) as nat, end)),
            Err(e) => Err(e),
        }
    }
}

/// The varint at `at`, by its low 64 bits, and the offset just past it.
pub open spec fn varint_at(data: Seq<u8>, at: int) -> Result<(nat, int), CarError> {
    match leb128_at(data, at, 10) {
        Ok((n, end)) => Ok((n % 0x1_0000_0000_0000_0000, end)),
        Err(e) => Err(e),
    }
}

/// How many bytes the CID at the front of `entry` takes.
pub open spec fn cid_len(entry: Seq<u8>) -> Result<int, CarError> {
    match varint_at(entry, 0) {
        Err(e) => Err(e),
        Ok((version, codec_at)) => if version != 1 {
            Err(CarError::CidVersion(version as u64))
        } else {
            match varint_at(entry, codec_at) {
                Err(e) => Err(e),
                Ok((_, code_at)) => match varint_at(entry, code_at) {
                    Err(e) => Err(e),
                    Ok((_, len_at)) => match varint_at(entry, len_at) {
                        Err(e) => Err(e),
                        Ok((len, hash_at)) => if len > entry.len() - hash_at {
                            Err(CarError::TruncatedMultihash)
                        } else {
                            Ok(hash_at + len)
                        },
                    },
                },
            }
        },
    }
}

pub proof fn lemma_leb128_bounds(data: Seq<u8>, at: int, left: nat)
    ensures
        leb128_at(data, at, left) matches Ok((n, end)) ==> {
            &&& at < end <= data.len()
            &&& end <= at + left || end == at + 1
        },
    decreases left,
{
    if left > 1 {
        lemma_leb128_bounds(data, at + 1, (left - 1) as nat);
    }
}

/// The entries from `at` on whose CID can be read, each by its CID and its
/// block. They end where the input does, or at an entry that it cuts off.
pub open spec fn sections(data: Seq<u8>, at: int) -> Seq<(Seq<u8>, Seq<u8>)>
    decreases data.len() - at,
{
    proof {
        lemma_leb128_bounds(data, at, 10);
    }
    if at >= data.len() {
        Seq::empty()
    } else {
        match varint_at(data, at) {
            Err(_) => Seq::empty(),
            Ok((len, start)) => if len > data.len() - start {
                Seq::empty()
            } else {
                let entry = data.subrange(start, start + len);
                let rest = sections(data, start + len);
                match cid_len(entry) {
                    Ok(n) => seq![(entry.take(n), entry.skip(n))] + rest,
                    Err(_) => rest,
                }
            },
        }
    }
}

/// The blocks of an archive, by CID; of two blocks under one CID, the later.
pub open spec fn blocks_of(data: Seq<u8>) -> Result<Map<Seq<u8>, Seq<u8>>, CarError> {
    match varint_at(data, 0) {
        Err(e) => Err(e),
        Ok((len, start)) => if len > data.len() - start {
            Err(CarError::HeaderLength(len as u64))
        } else {
            Ok(assoc::collect(sections(data, start + len)))
        },
    }
}

spec fn pow128(n: nat) -> nat
    decreases n,
{
    if n == 0 {
        1
    } else {
        128 * pow128((n - 1) as nat)
    }
}

proof fn lemma_pow128_bound(n: nat)
    requires
        n <= 10,
    ensures
        1 <= pow128(n) <= 0x40_0000_0000_0000_0000,
{
    reveal_with_fuel(pow128, 11);
}

fn leb128(data: &[u8], at: usize, left: u8) -> (r: Result<(u128, usize), CarError>)
    requires
        at <= data@.len(),
        0 < left <= 10,
    ensures
        match (r, leb128_at(data@, at as int, left as nat)) {
            (Ok((n, end)), Ok((m, e))) => n == m && end == e && n < pow128(left as nat) && at < end
                <= data@.len(),
            (Err(x), Err(y)) => x == y,
            _ => false,
        },
    decreases left,
{
    proof {
        reveal_with_fuel(pow128, 2);
        lemma_pow128_bound((left - 1) as nat);
    }
    if at >= data.len() {
        return Err(CarError::TruncatedVarint);
    }
    let byte = data[at];
    if byte < 128 {
        return Ok((byte as u128, at + 1));
    }
    if left <= 1 {
        return Err(CarError::VarintOverflow);
    }
    let (high, end) = leb128(data, at + 1, left - 1)?;
    Ok(((byte - 128) as u128 + 128 * high, end))
}

/// Read the varint at `at`; returns its value and the offset just past it.
fn varint(data: &[u8], at: usize) -> (r: Result<(u64, usize), CarError>)
    requires
        at <= data@.len(),
    ensures
        match (r, varint_at(data@, at as int)) {
            (Ok((n, end)), Ok((m, e))) => n == m && end == e && at < end <= data@.len(),
            (Err(x), Err(y)) => x == y,
            _ => false,
        },
{
    let (n, end) = leb128(data, at, 10)?;
    Ok(((n % 0x1_0000_0000_0000_0000) as u64, end))
}

/// Read a binary CIDv1 (version, codec, multihash) off the front of `entry`;
/// returns how many bytes it takes.
fn read_cid(entry: &[u8]) -> (r: Result<usize, CarError>)
    ensures
        match (r, cid_len(entry@)) {
            (Ok(n), Ok(m)) => n == m && n <= entry@.len(),
            (Err(x), Err(y)) => x == y,
            _ => false,
        },
{
    let (version, codec_at) = varint(entry, 0)?;
    if version != 1 {
        return Err(CarError::CidVersion(version));
    }
    let (_, code_at) = varint(entry, codec_at)?;
    let (_, len_at) = varint(entry, code_at)?;
    let (len, hash_at) = varint(entry, len_at)?;
    if len > (entry.len() - hash_at) as u64 {
        return Err(CarError::TruncatedMultihash);
    }
    Ok(hash_at + len as usize)
}

/// The entries by the bytes that they hold.
spec fn pairs(entries: Seq<(Vec<u8>, Vec<u8>)>) -> Seq<(Seq<u8>, Seq<u8>)> {
    entries.map_values(|e: (Vec<u8>, Vec<u8>)| (e.0@, e.1@))
}

/// Where `cid` stands in `entries`.
fn position(entries: &Vec<(Vec<u8>, Vec<u8>)>, cid: &[u8]) -> (r: Option<usize>)
    requires
        assoc::distinct(pairs(entries@)),
    ensures
        match r {
            Some(i) => {
                &&& i < entries@.len()
                &&& entries@[i as int].0@ == cid@
                &&& assoc::collect(pairs(entries@)).contains_key(cid@)
                &&& assoc::collect(pairs(entries@))[cid@] == entries@[i as int].1@
            },
            None => !assoc::collect(pairs(entries@)).contains_key(cid@),
        },
{
    let ghost all = pairs(entries@);
    let mut i: usize = 0;
    while i < entries.len()
        invariant
            i <= entries@.len(),
            all == pairs(entries@),
            assoc::distinct(all),
            forall|k: int| 0 <= k < i ==> (#[trigger] all[k]).0 != cid@,
        decreases entries@.len() - i,
    {
        proof {
            assert(all[i as int] == (entries@[i as int].0@, entries@[i as int].1@));
        }
        if same_bytes(entries[i].0.as_slice(), cid) {
            proof {
                assoc::lemma_collect_at(all, i as int);
            }
            return Some(i);
        }
        i = i + 1;
    }
    proof {
        if assoc::collect(all).contains_key(cid@) {
            assoc::lemma_collect_from(all, cid@);
        }
    }
    None
}

/// The blocks of an archive, by CID.
#[derive(Debug)]
pub struct Blocks {
    entries: Vec<(Vec<u8>, Vec<u8>)>,
}

impl Blocks {
    #[verifier::type_invariant]
    spec fn wf(self) -> bool {
        assoc::distinct(pairs(self.entries@))
    }

    pub closed spec fn view(self) -> Map<Seq<u8>, Seq<u8>> {
        assoc::collect(pairs(self.entries@))
    }

    /// How many blocks there are.
    pub fn len(&self) -> (r: usize)
        ensures
            self@.dom().finite(),
            r == self@.len(),
    {
        proof {
            use_type_invariant(self);
            assoc::lemma_collect_len(pairs(self.entries@));
        }
        self.entries.len()
    }

    /// Whether there is no block.
    pub fn is_empty(&self) -> (r: bool)
        ensures
            r == (self@ == Map::<Seq<u8>, Seq<u8>>::empty()),
    {
        proof {
            use_type_invariant(self);
            assoc::lemma_collect_len(pairs(self.entries@));
            if self@.len() == 0 {
                assert(self@ =~= Map::<Seq<u8>, Seq<u8>>::empty());
            }
        }
        self.entries.len() == 0
    }

    /// The block under `cid`.
    pub fn get(&self, cid: &[u8]) -> (r: Option<&Vec<u8>>)
        ensures
            match r {
                Some(block) => self@.contains_key(cid@) && self@[cid@] == block@,
                None => !self@.contains_key(cid@),
            },
    {
        proof {
            use_type_invariant(self);
        }
        match position(&self.entries, cid) {
            Some(i) => Some(&self.entries[i].1),
            None => None,
        }
    }
}

fn insert(entries: &mut Vec<(Vec<u8>, Vec<u8>)>, cid: Vec<u8>, block: Vec<u8>)
    requires
        assoc::distinct(pairs(old(entries)@)),
    ensures
        assoc::distinct(pairs(final(entries)@)),
        assoc::collect(pairs(final(entries)@)) == assoc::collect(pairs(old(entries)@)).insert(cid@, block@),
{
    let ghost before = pairs(entries@);
    match position(entries, cid.as_slice()) {
        Some(i) => {
            entries.set(i, (cid, block));
            proof {
                assert(pairs(entries@) =~= before.update(i as int, (before[i as int].0, block@)));
                assoc::lemma_collect_update(before, i as int, block@);
            }
        },
        None => {
            entries.push((cid, block));
            proof {
                assert(pairs(entries@) =~= before.push((cid@, block@)));
                assoc::lemma_collect_push(before, cid@, block@);
            }
        },
    }
}

/// Parse all blocks, keyed by binary CID. Tolerant: duplicate blocks are
/// deduplicated, a truncated trailing entry stops parsing rather than failing.
pub fn blocks(data: &[u8]) -> (r: Result<Blocks, CarError>)
    ensures
        match (r, blocks_of(data@)) {
            (Ok(found), Ok(all)) => found@ == all,
            (Err(x), Err(y)) => x == y,
            _ => false,
        },
{
    let (header_len, start) = varint(data, 0)?;
    if header_len > (data.len() - start) as u64 {
        return Err(CarError::HeaderLength(header_len));
    }
    // The header's CBOR (version, roots) is not needed.
    let first = start + header_len as usize;
    let mut at: usize = first;
    let mut entries: Vec<(Vec<u8>, Vec<u8>)> = Vec::new();
    let ghost mut seen: Seq<(Seq<u8>, Seq<u8>)> = Seq::empty();
    proof {
        assert(pairs(entries@) =~= seen);
        assert(seen + sections(data@, at as int) =~= sections(data@, first as int));
    }
    while at < data.len()
        invariant_except_break
            at <= data@.len(),
            sections(data@, first as int) == seen + sections(data@, at as int),
        invariant
            assoc::distinct(pairs(entries@)),
            assoc::collect(pairs(entries@)) == assoc::collect(seen),
        ensures
            sections(data@, first as int) == seen,
        decreases data@.len() - at,
    {
        let (len, start) = match varint(data, at) {
            Ok(found) => found,
            Err(_) => {
                proof {
                    assert(seen + sections(data@, at as int) =~= seen);
                }
                break;
            },
        };
        if len > (data.len() - start) as u64 {
            // A truncated trailing entry.
            proof {
                assert(seen + sections(data@, at as int) =~= seen);
            }
            break;
        }
        let end = start + len as usize;
        let entry = &data[start..end];
        if let Ok(n) = read_cid(entry) {
            let (cid, block) = entry.split_at(n);
            insert(&mut entries, slice_to_vec(cid), slice_to_vec(block));
            proof {
                assert(cid@ =~= entry@.take(n as int));
                assert(block@ =~= entry@.skip(n as int));
                let pair = (cid@, block@);
                assert(seen.push(pair).drop_last() =~= seen);
                assert(seen + (seq![pair] + sections(data@, end as int)) =~= seen.push(pair)
                    + sections(data@, end as int));
                seen = seen.push(pair);
            }
        }
        at = end;
    }
    proof {
        assert(seen + Seq::<(Seq<u8>, Seq<u8>)>::empty() =~= seen);
    }
    Ok(Blocks { entries })
}

} // verus!
