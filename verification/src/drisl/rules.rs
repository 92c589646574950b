//! The rules of DRISL, one by one: what may stand in a document, how it is
//! written, and what is refused.

use vstd::prelude::*;
use vstd::utf8;

use crate::drisl;
use crate::drisl::item;
use crate::drisl::item::{Fault, Item};
use crate::drisl::laws;
use crate::drisl::DrislError;
use crate::order;
use crate::powers;
use crate::text;

verus! {

/// What may stand in a document, kind by kind: integers and lengths of 64 bits,
/// texts in UTF-8, finite floats, links with the 0x00 before them, and arrays
/// and maps of what may stand one level down, 128 levels deep.
pub proof fn law_what_may_stand_in_a_document(
    depth: int,
    n: nat,
    s: Seq<u8>,
    items: Seq<Item>,
    b: bool,
)
    requires
        depth <= 128,
    ensures
        item::fits(Item::Uint(n), depth) <==> n < 0x1_0000_0000_0000_0000,
        item::fits(Item::Negint(n), depth) <==> n < 0x1_0000_0000_0000_0000,
        item::fits(Item::Bytes(s), depth) <==> s.len() < 0x1_0000_0000_0000_0000,
        item::fits(Item::Text(s), depth) <==> s.len() < 0x1_0000_0000_0000_0000 && utf8::valid_utf8(
            s,
        ),
        item::fits(Item::Bool(b), depth),
        item::fits(Item::Null, depth),
        item::fits(Item::Float(n), depth) <==> n < 0x1_0000_0000_0000_0000 && (n
            / 0x10_0000_0000_0000) % 2048 != 2047,
        item::fits(Item::Link(s), depth) <==> 0 < s.len() < 0x1_0000_0000_0000_0000 && s[0] == 0
            && depth < 128,
        item::fits(Item::Array(items), depth) <==> items.len() < 0x1_0000_0000_0000_0000 && forall|
            i: int,
        |
            0 <= i < items.len() ==> item::fits(#[trigger] items[i], depth + 1),
        !item::fits(Item::Null, 129),
{
}

/// A map may stand in a document where its keys are texts, each before the next
/// in the order of their encodings, and its values may stand one level down.
pub proof fn law_what_maps_may_stand(depth: int, entries: Seq<(Seq<u8>, Item)>)
    requires
        depth < 128,
        entries.len() < 0x1_0000_0000_0000_0000,
    ensures
        item::fits(Item::Dict(entries), depth) <==> {
            &&& forall|i: int|
                0 <= i < entries.len() ==> {
                    &&& (#[trigger] entries[i]).0.len() < 0x1_0000_0000_0000_0000
                    &&& utf8::valid_utf8(entries[i].0)
                    &&& item::fits(entries[i].1, depth + 1)
                }
            &&& forall|i: int, j: int|
                0 <= i < j < entries.len() ==> order::lex_less(
                    item::encode_text(#[trigger] entries[i].0),
                    item::encode_text(#[trigger] entries[j].0),
                )
        },
{
}

/// The head of an item is its major type and its argument, in as few bytes as
/// the argument takes.
pub proof fn law_heads_are_minimal(major: int, n: nat)
    requires
        0 <= major < 8,
        n < 0x1_0000_0000_0000_0000,
    ensures
        n < 24 ==> item::head(major, n) == seq![(32 * major + n) as u8],
        24 <= n < 0x100 ==> item::head(major, n) == seq![(32 * major + 24) as u8, n as u8],
        0x100 <= n < 0x1_0000 ==> item::head(major, n) == seq![
            (32 * major + 25) as u8,
            (n / 256) as u8,
            (n % 256) as u8,
        ],
        0x1_0000 <= n < 0x1_0000_0000 ==> item::head(major, n) == seq![(32 * major + 26) as u8]
            + item::be_bytes(n, 4),
        n >= 0x1_0000_0000 ==> item::head(major, n) == seq![(32 * major + 27) as u8]
            + item::be_bytes(n, 8),
{
    reveal_with_fuel(item::be_bytes, 3);
    if n < 24 {
    } else if n < 0x100 {
        assert(item::head(major, n) =~= seq![(32 * major + 24) as u8, n as u8]);
    } else if n < 0x1_0000 {
        assert(item::head(major, n) =~= seq![
            (32 * major + 25) as u8,
            (n / 256) as u8,
            (n % 256) as u8,
        ]);
    }
}

/// Arguments have their highest byte first.
pub proof fn law_arguments_are_big_endian(n: nat, width: nat, last: u8)
    ensures
        item::be_bytes(n, 0) == Seq::<u8>::empty(),
        item::be_bytes(256 * n + last as nat, width + 1) == item::be_bytes(n, width).push(last),
{
    assert((256 * n + last as nat) / 256 == n && (256 * n + last as nat) % 256 == last as nat);
}

/// The encoding of every kind of item: its head, and what it holds.
pub proof fn law_encodings(
    n: nat,
    s: Seq<u8>,
    items: Seq<Item>,
    first: Item,
    entries: Seq<(Seq<u8>, Item)>,
    b: bool,
)
    ensures
        item::encode(Item::Uint(n)) == item::head(0, n),
        item::encode(Item::Negint(n)) == item::head(1, n),
        item::encode(Item::Bytes(s)) == item::head(2, s.len()) + s,
        item::encode(Item::Text(s)) == item::head(3, s.len()) + s,
        item::encode(Item::Array(items)) == item::head(4, items.len()) + item::encode_all(items),
        item::encode_all(Seq::empty()) == Seq::<u8>::empty(),
        item::encode_all(seq![first] + items) == item::encode(first) + item::encode_all(items),
        item::encode(Item::Dict(entries)) == item::head(5, entries.len()) + item::encode_entries(
            entries,
        ),
        item::encode_entries(Seq::empty()) == Seq::<u8>::empty(),
        item::encode_entries(seq![(s, first)] + entries) == item::head(3, s.len()) + s
            + item::encode(first) + item::encode_entries(entries),
        item::encode(Item::Link(s)) == seq![0xd8u8, 42u8] + item::head(2, s.len()) + s,
        item::encode(Item::Bool(false)) == seq![0xf4u8],
        item::encode(Item::Bool(true)) == seq![0xf5u8],
        item::encode(Item::Null) == seq![0xf6u8],
        item::encode(Item::Float(n)) == seq![0xfbu8] + item::be_bytes(n, 8),
{
    assert((seq![first] + items).drop_first() =~= items);
    assert((seq![(s, first)] + entries).drop_first() =~= entries);
    law_heads_are_minimal(6, 42);
    assert(item::encode(Item::Link(s)) =~= seq![0xd8u8, 42u8] + item::head(2, s.len()) + s);
}

/// Of simple values only false, true and null are allowed, and of floats only
/// those of 64 bits that are finite; each other is refused where it stands.
pub proof fn law_other_simple_values_are_refused(data: Seq<u8>, offset: int, depth: int)
    requires
        0 <= offset < data.len(),
        depth <= 128,
        data[offset] >= 0xe0,
    ensures
        ({
            let bits = item::be_value(data.subrange(offset + 1, offset + 9));
            match item::item_at(data, offset, depth) {
                Ok((found, end)) => {
                    ||| data[offset] == 0xf4 && found == Item::Bool(false) && end == offset + 1
                    ||| data[offset] == 0xf5 && found == Item::Bool(true) && end == offset + 1
                    ||| data[offset] == 0xf6 && found is Null && end == offset + 1
                    ||| data[offset] == 0xfb && offset + 9 <= data.len() && found == Item::Float(
                        bits,
                    ) && end == offset + 9 && (bits / 0x10_0000_0000_0000) % 2048 != 2047
                },
                Err(f) => {
                    &&& f.offset == offset
                    &&& !(0xf4 <= data[offset] <= 0xf6)
                    &&& data[offset] == 0xfb ==> {
                        ||| offset + 9 > data.len() && f.message == "truncated float64"@
                        ||| (bits / 0x10_0000_0000_0000) % 2048 == 2047 && bits
                            % 0x10_0000_0000_0000 != 0 && f.message == "NaN is not allowed"@
                        ||| (bits / 0x10_0000_0000_0000) % 2048 == 2047 && bits
                            % 0x10_0000_0000_0000 == 0 && f.message == "infinity is not allowed"@
                    }
                },
            }
        }),
{
}

/// Lengths are definite: an initial byte that announces an indefinite length, or
/// a reserved one, is refused where it stands.
pub proof fn law_indefinite_lengths_are_refused(data: Seq<u8>, offset: int, depth: int)
    requires
        0 <= offset < data.len(),
        depth <= 128,
        data[offset] < 0xe0,
        data[offset] % 32 >= 28,
    ensures
        item::item_at(data, offset, depth) matches Err(f) && f.offset == offset,
{
}

/// A tag other than 42 is refused where it stands.
pub proof fn law_other_tags_are_refused(data: Seq<u8>, offset: int, depth: int, tag: nat)
    requires
        depth <= 128,
        tag < 0x1_0000_0000_0000_0000,
        tag != 42,
        laws::stands_at(data, offset, item::head(6, tag)),
    ensures
        item::item_at(data, offset, depth) matches Err(f) && f.offset == offset && f.message
            == "tag "@ + text::decimal(tag) + " is not allowed (only tag 42/CID)"@,
{
    laws::lemma_arg_complete(data, offset, "tag"@, 6, tag);
    law_heads_are_minimal(6, tag);
    assert(data.subrange(offset, offset + item::head(6, tag).len())[0] == data[offset]);
}

/// More than 128 levels are refused, and so is an item that is not there.
pub proof fn law_depth_is_bounded(data: Seq<u8>, offset: int, depth: int)
    ensures
        depth > 128 ==> (item::item_at(data, offset, depth) matches Err(f) && f.offset == offset),
        offset >= data.len() ==> (item::item_at(data, offset, depth) matches Err(f) && f.offset
            == offset),
{
}

/// A number that could be written in fewer bytes is refused where it stands.
pub proof fn law_longer_heads_are_refused(data: Seq<u8>, offset: int, depth: int)
    requires
        0 <= offset < data.len(),
        depth <= 128,
        data[offset] < 0xe0,
        ({
            let info = data[offset] % 32;
            ||| info == 24 && offset + 2 <= data.len() && data[offset + 1] < 24
            ||| info == 25 && offset + 3 <= data.len() && data[offset + 1] == 0
            ||| info == 26 && offset + 5 <= data.len() && data[offset + 1] == 0 && data[offset + 2]
                == 0
            ||| info == 27 && offset + 9 <= data.len() && data[offset + 1] == 0 && data[offset + 2]
                == 0 && data[offset + 3] == 0 && data[offset + 4] == 0
        }),
    ensures
        item::item_at(data, offset, depth) matches Err(f) && f.offset == offset,
{
    let info = data[offset] % 32;
    let width: int = if info == 24 {
        1
    } else if info == 25 {
        2
    } else if info == 26 {
        4
    } else {
        8
    };
    let s = data.subrange(offset + 1, offset + 1 + width);
    let zeros: nat = if info == 24 {
        0
    } else if info == 25 {
        1
    } else if info == 26 {
        2
    } else {
        4
    };
    lemma_leading_zeros(s, zeros);
    powers::lemma_pow256_values();
    if info == 24 {
        assert(s.drop_last() =~= Seq::empty());
        assert(item::be_value(s.drop_last()) == 0);
    }
}

proof fn lemma_leading_zeros(s: Seq<u8>, zeros: nat)
    requires
        zeros <= s.len(),
        forall|i: int| 0 <= i < zeros ==> #[trigger] s[i] == 0,
    ensures
        item::be_value(s) < powers::pow256((s.len() - zeros) as nat),
    decreases s.len(),
{
    if s.len() == zeros {
        if s.len() > 0 {
            lemma_leading_zeros(s.drop_last(), (zeros - 1) as nat);
        }
        assert(powers::pow256(0) == 1);
    } else {
        assert forall|i: int| 0 <= i < zeros implies #[trigger] s.drop_last()[i] == 0 by {
            assert(s.drop_last()[i] == s[i]);
        }
        lemma_leading_zeros(s.drop_last(), zeros);
    }
}

/// A validation agrees with what the bytes denote where it gives the end of the
/// item, or the fault with its place and its message.
pub proof fn law_agreement_is_exact(r: Result<usize, DrislError>, at: Result<(Item, int), Fault>)
    requires
        drisl::agrees(r, at),
    ensures
        r matches Ok(end) ==> (at matches Ok((_, expected)) && end == expected),
        r matches Err(e) ==> (at matches Err(f) && e.offset == f.offset && e.message@ == f.message),
{
}

/// What is left over after a document is told, with where it starts.
pub proof fn law_leftovers_are_told(end: int, extra: nat)
    ensures
        drisl::trailing_fault(end, extra).offset == end,
        drisl::trailing_fault(end, extra).message == text::decimal(extra)
            + " trailing byte(s) after item"@,
{
}

} // verus!
