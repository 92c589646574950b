//! What holds of decoded values: each is the item that was encoded, and a field
//! is found under its name and nowhere else.

use vstd::prelude::*;
use vstd::utf8;

use crate::cbor;
use crate::cbor::{Cbor, Key, Label, Tree};
use crate::drisl::item;
use crate::drisl::item::Item;
use crate::order;

verus! {

/// A field is the value of the first entry with its name.
pub proof fn law_first_entry_is_found(entries: Seq<(Label, Tree)>, key: Seq<char>, i: int)
    requires
        0 <= i < entries.len(),
        entries[i].0 == Label::Text(key),
        forall|j: int| 0 <= j < i ==> (#[trigger] entries[j]).0 != Label::Text(key),
    ensures
        cbor::field_of(Tree::Dict(entries), key) == Some(entries[i].1),
    decreases i,
{
    if i > 0 {
        let rest = entries.drop_first();
        assert(entries[0].0 != Label::Text(key));
        assert forall|j: int| 0 <= j < i - 1 implies (#[trigger] rest[j]).0 != Label::Text(key) by {
            assert(rest[j] == entries[j + 1]);
        }
        law_first_entry_is_found(rest, key, i - 1);
    }
}

/// Where no entry has the name, there is no such field.
pub proof fn law_missing_entry_is_not_found(entries: Seq<(Label, Tree)>, key: Seq<char>)
    requires
        forall|i: int| 0 <= i < entries.len() ==> (#[trigger] entries[i]).0 != Label::Text(key),
    ensures
        cbor::field_of(Tree::Dict(entries), key) is None,
    decreases entries.len(),
{
    if entries.len() > 0 {
        let rest = entries.drop_first();
        assert(entries[0].0 != Label::Text(key));
        assert forall|i: int| 0 <= i < rest.len() implies (#[trigger] rest[i]).0 != Label::Text(
            key,
        ) by {
            assert(rest[i] == entries[i + 1]);
        }
        law_missing_entry_is_not_found(rest, key);
    }
}

/// Only a map has fields.
pub proof fn law_only_maps_have_fields(tree: Tree, key: Seq<char>)
    requires
        !(tree is Dict),
    ensures
        cbor::field_of(tree, key) is None,
{
}

/// `value` is what these entries hold under `key`; nothing is where none has
/// that key.
pub open spec fn under(
    entries: Seq<(Seq<u8>, Item)>,
    key: Seq<char>,
    value: Option<Item>,
) -> bool {
    match value {
        Some(v) => entries.contains((utf8::encode_utf8(key), v)),
        None => forall|i: int|
            0 <= i < entries.len() ==> (#[trigger] entries[i]).0 != utf8::encode_utf8(key),
    }
}

/// The value that a decoded field has is the value of the item that was encoded
/// under its name, whatever other entries there are.
pub proof fn law_field_is_what_was_encoded(
    entries: Seq<(Seq<u8>, Item)>,
    key: Seq<char>,
    value: Option<Item>,
)
    requires
        item::fits(Item::Dict(entries), 0),
        under(entries, key, value),
    ensures
        cbor::field_of(cbor::tree_of(Item::Dict(entries)), key) == (match value {
            Some(v) => Some(cbor::tree_of(v)),
            None => None,
        }),
{
    let name = utf8::encode_utf8(key);
    let trees = cbor::tree_of(Item::Dict(entries))->Dict_0;
    utf8::encode_utf8_decode_utf8(key);
    assert forall|i: int| 0 <= i < trees.len() && (#[trigger] trees[i]).0 == Label::Text(
        key,
    ) implies entries[i].0 == name by {
        utf8::decode_utf8_encode_utf8(entries[i].0);
    }
    match value {
        Some(v) => {
            let i = choose|i: int| 0 <= i < entries.len() && entries[i] == (name, v);
            assert forall|j: int| 0 <= j < i implies (#[trigger] trees[j]).0 != Label::Text(
                key,
            ) by {
                if trees[j].0 == Label::Text(key) {
                    assert(entries[j].0 == entries[i].0);
                    order::lemma_lex_less_irreflexive(item::encode_text(name));
                }
            }
            assert(trees[i].0 == Label::Text(key));
            law_first_entry_is_found(trees, key, i);
        },
        None => {
            assert forall|i: int| 0 <= i < trees.len() implies (#[trigger] trees[i]).0
                != Label::Text(key) by {
                assert(entries[i].0 != name);
            }
            law_missing_entry_is_not_found(trees, key);
        },
    }
}

/// Every kind of item decodes to the value that it writes.
pub proof fn law_items_decode_to_their_values(n: nat, bytes: Seq<u8>, text: Seq<char>, b: bool)
    ensures
        cbor::tree_of(Item::Uint(n)) == Tree::Integer(n as int),
        cbor::tree_of(Item::Negint(n)) == Tree::Integer(-1 - n),
        cbor::tree_of(Item::Bytes(bytes)) == Tree::Bytes(bytes),
        cbor::tree_of(Item::Text(utf8::encode_utf8(text))) == Tree::Text(text),
        cbor::tree_of(Item::Link(bytes)) == Tree::Tag(42, Box::new(Tree::Bytes(bytes))),
        cbor::tree_of(Item::Bool(b)) == Tree::Bool(b),
        cbor::tree_of(Item::Null) == Tree::Null,
        n <= u64::MAX ==> cbor::tree_of(Item::Float(n)) == Tree::Float(n as u64),
{
    utf8::encode_utf8_decode_utf8(text);
}

/// Arrays and maps decode entry by entry, in order.
pub proof fn law_items_decode_in_order(
    items: Seq<Item>,
    entries: Seq<(Seq<char>, Item)>,
    i: int,
)
    ensures
        ({
            let encoded = entries.map_values(
                |e: (Seq<char>, Item)| (utf8::encode_utf8(e.0), e.1),
            );
            &&& cbor::tree_of(Item::Array(items)) matches Tree::Array(trees) && trees.len()
                == items.len() && (0 <= i < items.len() ==> trees[i] == cbor::tree_of(items[i]))
            &&& cbor::tree_of(Item::Dict(encoded)) matches Tree::Dict(trees) && trees.len()
                == entries.len() && (0 <= i < entries.len() ==> trees[i] == (
                Label::Text(entries[i].0),
                cbor::tree_of(entries[i].1),
            ))
        }),
{
    if 0 <= i < entries.len() {
        utf8::encode_utf8_decode_utf8(entries[i].0);
    }
}

/// A value of the library stands for what it holds.
pub proof fn law_values_stand_for_what_they_hold(
    b: bool,
    n: i128,
    bits: u64,
    s: String,
    bytes: Vec<u8>,
    tag: u64,
    inner: Box<Cbor>,
)
    ensures
        Cbor::Null@ == Tree::Null,
        Cbor::Bool(b)@ == Tree::Bool(b),
        Cbor::Integer(n)@ == Tree::Integer(n as int),
        Cbor::Float(bits)@ == Tree::Float(bits),
        Cbor::Text(s)@ == Tree::Text(s@),
        Cbor::Bytes(bytes)@ == Tree::Bytes(bytes@),
        Cbor::Tag(tag, inner)@ == Tree::Tag(tag, Box::new((*inner)@)),
        Key::Text(s)@ == Label::Text(s@),
        Key::Other(s)@ == Label::Other(s@),
{
}

/// An array and a map of the library stand for their entries, in order.
pub proof fn law_collections_stand_for_their_entries(
    items: Vec<Cbor>,
    entries: Vec<(Key, Cbor)>,
    i: int,
)
    ensures
        Cbor::Array(items)@ matches Tree::Array(trees) && trees.len() == items@.len() && (0 <= i
            < items@.len() ==> trees[i] == items@[i]@),
        Cbor::Dict(entries)@ matches Tree::Dict(trees) && trees.len() == entries@.len() && (0 <= i
            < entries@.len() ==> trees[i] == (entries@[i].0@, entries@[i].1@)),
{
}

/// Settling a value changes the NaNs in it and nothing else.
pub proof fn law_only_nans_are_settled(
    b: bool,
    n: int,
    bits: u64,
    s: Seq<char>,
    bytes: Seq<u8>,
    tag: u64,
    inner: Tree,
)
    ensures
        cbor::settled(Tree::Null) == Tree::Null,
        cbor::settled(Tree::Bool(b)) == Tree::Bool(b),
        cbor::settled(Tree::Integer(n)) == Tree::Integer(n),
        cbor::settled(Tree::Text(s)) == Tree::Text(s),
        cbor::settled(Tree::Bytes(bytes)) == Tree::Bytes(bytes),
        cbor::settled(Tree::Tag(tag, Box::new(inner))) == Tree::Tag(
            tag,
            Box::new(cbor::settled(inner)),
        ),
        (bits / 0x10_0000_0000_0000) % 2048 != 2047 || bits % 0x10_0000_0000_0000 == 0
            ==> cbor::settled(Tree::Float(bits)) == Tree::Float(bits),
{
}

/// Arrays and maps are settled entry by entry; keys stay as they are.
pub proof fn law_settling_keeps_the_shape(
    items: Seq<Tree>,
    entries: Seq<(Label, Tree)>,
    i: int,
)
    ensures
        cbor::settled(Tree::Array(items)) matches Tree::Array(out) && out.len() == items.len() && (
        0 <= i < items.len() ==> out[i] == cbor::settled(items[i])),
        cbor::settled(Tree::Dict(entries)) matches Tree::Dict(out) && out.len() == entries.len() && (
        0 <= i < entries.len() ==> out[i] == (entries[i].0, cbor::settled(entries[i].1))),
{
    reveal_with_fuel(cbor::settled, 2);
    reveal_with_fuel(cbor::settled_entries, 2);
    assert(cbor::settled(Tree::Dict(entries)) == Tree::Dict(cbor::settled_entries(entries)));
}

/// A key that is a text goes by that text, and any other by its printed form.
pub proof fn law_keys_go_by_their_text(s: Seq<char>, tree: Tree)
    ensures
        cbor::label_of(Tree::Text(s)) == Label::Text(s),
        !(tree is Text) ==> cbor::label_of(tree) == Label::Other(cbor::debug_form(tree)),
{
}

} // verus!
