//! What holds of everything rendered as JSON.

use vstd::prelude::*;

use crate::assoc;
use crate::cbor;
use crate::cbor::{Label, Tree};
use crate::encoding;
use crate::json;
use crate::json::JsonTree;
use crate::text;

verus! {

/// The string form of a CID of `n` bytes is a `b` and one character for every
/// five bits begun: 59 characters for the 36 bytes of a CID of this network.
pub proof fn law_cid_string_length(cid: Seq<u8>)
    ensures
        json::cid_text(seq![0u8] + cid).len() == 1 + (cid.len() * 8 + 4) / 5,
        cid.len() == 36 ==> json::cid_text(seq![0u8] + cid).len() == 59,
        json::cid_text(seq![0u8] + cid)[0] == 'b',
{
    reveal_strlit("b");
    assert((seq![0u8] + cid).skip(1) =~= cid);
}

/// The 0x00 before a CID is no part of its string form.
pub proof fn law_identity_prefix_is_stripped(cid: Seq<u8>)
    requires
        cid.len() == 0 || cid[0] != 0,
    ensures
        json::cid_text(seq![0u8] + cid) == json::cid_text(cid),
{
    assert((seq![0u8] + cid).skip(1) =~= cid);
}

proof fn lemma_lower_tells(x: nat, y: nat)
    requires
        x < 32,
        y < 32,
        text::ascii_lower(encoding::base32_char(x)) == text::ascii_lower(encoding::base32_char(y)),
    ensures
        x == y,
{
}

/// The string form of a CID tells it: two links with one string are one link.
pub proof fn law_cid_strings_are_faithful(a: Seq<u8>, b: Seq<u8>)
    requires
        json::cid_text(a) == json::cid_text(b),
    ensures
        json::stripped(a) == json::stripped(b),
{
    let x = json::stripped(a);
    let y = json::stripped(b);
    let s = encoding::base32_text(x);
    let t = encoding::base32_text(y);
    let lower = |c: char| text::ascii_lower(c);
    assert(s.map_values(lower) =~= json::cid_text(a).skip("b"@.len() as int));
    assert(t.map_values(lower) =~= json::cid_text(b).skip("b"@.len() as int));
    assert(s.map_values(lower).len() == t.map_values(lower).len());
    assert forall|i: int| 0 <= i < s.len() implies s[i] == t[i] by {
        assert(s.map_values(lower)[i] == t.map_values(lower)[i]);
        encoding::laws::lemma_symbol_bound(x, 5 * i);
        encoding::laws::lemma_symbol_bound(y, 5 * i);
        lemma_lower_tells(encoding::symbol(x, 5 * i, 5), encoding::symbol(y, 5 * i, 5));
    }
    assert(s =~= t);
    encoding::laws::law_base32_is_faithful(x, y);
}

/// Links render as their CID's string form, and byte strings as nothing but
/// their length.
pub proof fn law_links_and_bytes(bytes: Seq<u8>)
    ensures
        json::json_of(Tree::Tag(42, Box::new(Tree::Bytes(bytes)))) == JsonTree::Text(
            json::cid_text(bytes),
        ),
        json::json_of(Tree::Bytes(bytes)) == JsonTree::Object(
            Map::empty().insert("$bytesLength"@, JsonTree::Int(bytes.len() as int)),
        ),
{
}

/// No integer loses digits: one that fits 64 bits stays a number, any other
/// becomes its decimal text.
pub proof fn law_integers_keep_their_value(n: int)
    ensures
        json::json_of(Tree::Integer(n)) == (if i64::MIN <= n <= i64::MAX {
            JsonTree::Int(n)
        } else {
            JsonTree::Text(text::signed_decimal(n))
        }),
{
}

/// A NaN renders as null whatever its bits: a value renders as the value with
/// all its NaNs made one.
pub proof fn law_nan_bits_do_not_show(tree: Tree)
    ensures
        json::json_of(cbor::settled(tree)) == json::json_of(tree),
    decreases tree,
{
    let other = cbor::settled(tree);
    match tree {
        Tree::Array(items) => {
            assert forall|i: int| 0 <= i < items.len() implies json::json_of(
                cbor::settled(#[trigger] items[i]),
            ) == json::json_of(items[i]) by {
                law_nan_bits_do_not_show(items[i]);
            }
            assert(json::json_of(other)->Array_0 =~= json::json_of(tree)->Array_0);
        },
        Tree::Dict(entries) => {
            assert forall|i: int| 0 <= i < entries.len() implies json::json_of(
                cbor::settled((#[trigger] entries[i]).1),
            ) == json::json_of(entries[i].1) by {
                assert(decreases_to!(tree => entries[i].1));
                law_nan_bits_do_not_show(entries[i].1);
            }
            assert(json::json_entries(cbor::settled_entries(entries)) =~= json::json_entries(
                entries,
            ));
        },
        Tree::Tag(_, inner) => {
            law_nan_bits_do_not_show(*inner);
        },
        _ => {},
    }
}

/// Null, booleans, texts and finite floats render as they are; a float that is
/// infinite or no number renders as null.
pub proof fn law_plain_values_render_as_they_are(b: bool, s: Seq<char>, bits: u64)
    ensures
        json::json_of(Tree::Null) == JsonTree::Null,
        json::json_of(Tree::Bool(b)) == JsonTree::Bool(b),
        json::json_of(Tree::Text(s)) == JsonTree::Text(s),
        json::json_of(Tree::Float(bits)) == (if (bits / 0x10_0000_0000_0000) % 2048 == 2047 {
            JsonTree::Null
        } else {
            JsonTree::Float(bits)
        }),
{
}

/// An array renders entry by entry, in order.
pub proof fn law_arrays_render_in_order(items: Seq<Tree>, i: int)
    ensures
        json::json_of(Tree::Array(items)) matches JsonTree::Array(out) && out.len() == items.len()
            && (0 <= i < items.len() ==> out[i] == json::json_of(items[i])),
{
}

/// A map renders as an object with the same keys: each has what the last entry
/// with that key has. A key that is no text goes by its printed form.
pub proof fn law_maps_render_as_objects(entries: Seq<(Label, Tree)>, i: int)
    requires
        0 <= i < entries.len(),
    ensures
        json::json_of(Tree::Dict(entries)) matches JsonTree::Object(out) && {
            let key = match entries[i].0 {
                Label::Text(s) => s,
                Label::Other(s) => s,
            };
            &&& out.contains_key(key)
            &&& (forall|j: int|
                i < j < entries.len() ==> #[trigger] json::label_text(entries[j].0) != key)
                ==> out[key] == json::json_of(entries[i].1)
            &&& forall|other: Seq<char>| #[trigger]
                out.contains_key(other) ==> exists|j: int|
                    0 <= j < entries.len() && #[trigger] json::label_text(entries[j].0) == other
        },
{
    let all = json::json_entries(entries);
    let out = assoc::collect(all);
    let key = json::label_text(entries[i].0);
    assert(all[i].0 == key);
    lemma_has_key(all, i);
    if forall|j: int| i < j < entries.len() ==> #[trigger] json::label_text(entries[j].0) != key {
        assert forall|j: int| i < j < all.len() implies (#[trigger] all[j]).0 != all[i].0 by {
            assert(json::label_text(entries[j].0) != key);
        }
        assoc::law_last_entry_stands(all, i);
    }
    assert forall|other: Seq<char>| #[trigger] out.contains_key(other) implies exists|j: int|
        0 <= j < entries.len() && #[trigger] json::label_text(entries[j].0) == other by {
        assoc::lemma_collect_from(all, other);
        let j = choose|j: int| 0 <= j < all.len() && (#[trigger] all[j]).0 == other;
        assert(json::label_text(entries[j].0) == other);
    }
}

proof fn lemma_has_key(all: Seq<(Seq<char>, JsonTree)>, i: int)
    requires
        0 <= i < all.len(),
    ensures
        assoc::collect(all).contains_key(all[i].0),
    decreases all.len(),
{
    if i < all.len() - 1 {
        assert(all.drop_last()[i] == all[i]);
        lemma_has_key(all.drop_last(), i);
    }
}

/// A tag that marks no link is passed over.
pub proof fn law_other_tags_are_passed_over(tag: u64, inner: Tree)
    ensures
        tag != 42 || !(inner is Bytes) ==> json::json_of(Tree::Tag(tag, Box::new(inner)))
            == json::json_of(inner),
{
}

/// The string form of a CID is a `b` and its base32 digits in lower case.
pub proof fn law_cid_string_is_lower_case_base32(cid: Seq<u8>, i: int)
    requires
        0 <= i < (cid.len() * 8 + 4) / 5,
    ensures
        json::cid_text(seq![0u8] + cid)[0] == 'b',
        json::cid_text(seq![0u8] + cid)[i + 1]
            == "abcdefghijklmnopqrstuvwxyz234567"@[encoding::symbol(cid, 5 * i, 5) as int],
{
    reveal_strlit("b");
    reveal_strlit("abcdefghijklmnopqrstuvwxyz234567");
    assert((seq![0u8] + cid).skip(1) =~= cid);
    encoding::laws::lemma_symbol_bound(cid, 5 * i);
}

} // verus!
