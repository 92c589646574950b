//! Decoded CBOR: a value tree of the library's own, filled from what the
//! `ciborium` decoder returns.

pub mod laws;

use vstd::prelude::*;
use vstd::utf8;

use crate::drisl::item;
use crate::drisl::item::Item;
use crate::text::same_text;

verus! {

/// A map key: a text, or the printed form of a key that is no text.
#[derive(Debug, Clone, PartialEq, Eq)]
pub enum Key {
    Text(String),
    Other(String),
}

/// A decoded CBOR value.
#[derive(Debug, PartialEq, Eq)]
pub enum Cbor {
    Null,
    Bool(bool),
    Integer(i128),
    /// A float, by the bits of its 64-bit form.
    Float(u64),
    Text(String),
    Bytes(Vec<u8>),
    Array(Vec<Cbor>),
    Dict(Vec<(Key, Cbor)>),
    Tag(u64, Box<Cbor>),
}

/// What a map key stands for.
pub enum Label {
    Text(Seq<char>),
    Other(Seq<char>),
}

/// What a decoded value stands for.
pub enum Tree {
    Null,
    Bool(bool),
    Integer(int),
    Float(u64),
    Text(Seq<char>),
    Bytes(Seq<u8>),
    Array(Seq<Tree>),
    Dict(Seq<(Label, Tree)>),
    Tag(u64, Box<Tree>),
}

impl Key {
    pub open spec fn view(self) -> Label {
        match self {
            Key::Text(s) => Label::Text(s@),
            Key::Other(s) => Label::Other(s@),
        }
    }
}

impl Cbor {
    pub open spec fn view(self) -> Tree
        decreases self,
    {
        match self {
            Cbor::Null => Tree::Null,
            Cbor::Bool(b) => Tree::Bool(b),
            Cbor::Integer(i) => Tree::Integer(i as int),
            Cbor::Float(bits) => Tree::Float(bits),
            Cbor::Text(s) => Tree::Text(s@),
            Cbor::Bytes(b) => Tree::Bytes(b@),
            Cbor::Array(items) => Tree::Array(
                Seq::new(
                    items@.len(),
                    |i: int|
                        if 0 <= i < items@.len() {
                            items@[i].view()
                        } else {
                            Tree::Null
                        },
                ),
            ),
            Cbor::Dict(entries) => Tree::Dict(
                Seq::new(
                    entries@.len(),
                    |i: int|
                        if 0 <= i < entries@.len() {
                            (entries@[i].0.view(), entries@[i].1.view())
                        } else {
                            (Label::Text(Seq::empty()), Tree::Null)
                        },
                ),
            ),
            Cbor::Tag(tag, inner) => Tree::Tag(tag, Box::new((*inner).view())),
        }
    }
}

/// The decoder's own value type.
#[verifier::external_type_specification]
#[verifier::external_body]
pub struct ExCiboriumValue(ciborium::Value);

/// What a value of the decoder holds.
pub uninterp spec fn cbor_tree(v: ciborium::Value) -> Tree;

/// The form in which the decoder's values print themselves for debugging.
pub uninterp spec fn debug_form(tree: Tree) -> Seq<char>;

/// The first CBOR item in `data`, settled, and how many bytes it takes, as
/// `ciborium::de::from_reader` decodes it; `None` where it fails.
pub uninterp spec fn cbor_item(data: Seq<u8>) -> Option<(Tree, nat)>;

/// The float that stands for every float that is no number.
pub open spec fn settled_float(bits: u64) -> u64 {
    if item::is_nan(bits as nat) {
        0x7ff8_0000_0000_0000
    } else {
        bits
    }
}

/// `tree` with one and the same NaN in place of every NaN. A NaN that was
/// written in fewer bits is widened when it is decoded, and machines differ in
/// the sign and the payload that it then has.
pub open spec fn settled(tree: Tree) -> Tree
    decreases tree,
{
    match tree {
        Tree::Float(bits) => Tree::Float(settled_float(bits)),
        Tree::Array(items) => Tree::Array(
            Seq::new(
                items.len(),
                |i: int|
                    if 0 <= i < items.len() {
                        settled(items[i])
                    } else {
                        Tree::Null
                    },
            ),
        ),
        Tree::Dict(entries) => Tree::Dict(settled_entries(entries)),
        Tree::Tag(tag, inner) => Tree::Tag(tag, Box::new(settled(*inner))),
        _ => tree,
    }
}

/// The entries of a map, settled.
pub open spec fn settled_entries(entries: Seq<(Label, Tree)>) -> Seq<(Label, Tree)>
    decreases entries,
{
    Seq::new(
        entries.len(),
        |i: int|
            if 0 <= i < entries.len() {
                (entries[i].0, settled(entries[i].1))
            } else {
                (Label::Text(Seq::empty()), Tree::Null)
            },
    )
}

/// What the decoder returned, settled: the value and how many bytes it took.
pub open spec fn found(r: Result<(ciborium::Value, usize), String>) -> Option<(Tree, nat)> {
    match r {
        Ok((v, taken)) => Some((settled(cbor_tree(v)), taken as nat)),
        Err(_) => None,
    }
}

/// The key that `tree` makes in a map.
pub open spec fn label_of(tree: Tree) -> Label {
    match tree {
        Tree::Text(s) => Label::Text(s),
        _ => Label::Other(debug_form(tree)),
    }
}

/// The value that a DRISL item decodes to.
pub open spec fn tree_of(value: Item) -> Tree
    decreases value,
{
    match value {
        Item::Uint(n) => Tree::Integer(n as int),
        Item::Negint(n) => Tree::Integer(-1 - n),
        Item::Bytes(b) => Tree::Bytes(b),
        Item::Text(t) => Tree::Text(utf8::decode_utf8(t)),
        Item::Array(items) => Tree::Array(
            Seq::new(
                items.len(),
                |i: int|
                    if 0 <= i < items.len() {
                        tree_of(items[i])
                    } else {
                        Tree::Null
                    },
            ),
        ),
        Item::Dict(entries) => Tree::Dict(
            Seq::new(
                entries.len(),
                |i: int|
                    if 0 <= i < entries.len() {
                        (Label::Text(utf8::decode_utf8(entries[i].0)), tree_of(entries[i].1))
                    } else {
                        (Label::Text(Seq::empty()), Tree::Null)
                    },
            ),
        ),
        Item::Link(cid) => Tree::Tag(42, Box::new(Tree::Bytes(cid))),
        Item::Bool(b) => Tree::Bool(b),
        Item::Null => Tree::Null,
        Item::Float(bits) => Tree::Float(bits as u64),
    }
}

/// Where `data` starts with a DRISL item, `tree` is its value and `taken` its
/// length.
pub open spec fn drisl_agrees(data: Seq<u8>, tree: Tree, taken: int) -> bool {
    item::item_at(data, 0, 0) matches Ok((value, end)) ==> tree == tree_of(value) && taken == end
}

/// Decodes the first CBOR item of `data` by `ciborium::de::from_reader`, and
/// says how many bytes it took. Whether it succeeds depends on the bytes alone,
/// and so does what comes out, but for the bits of a NaN. An item takes at least
/// one byte and never more than there are. Where `data` starts with a DRISL item,
/// that item is what comes out, and its bytes are what was taken: DRISL nests no
/// deeper than half the decoder's own limit, has no NaN, and uses only major
/// types, one tag and simple values that the decoder turns into the values of
/// `tree_of`. The error's text is left open: it differs with the width of a
/// machine's addresses.
#[verifier::external_body]
fn decode_first(data: &[u8]) -> (r: Result<(ciborium::Value, usize), String>)
    ensures
        found(r) == cbor_item(data@),
        r matches Ok((_, taken)) ==> 0 < taken <= data@.len(),
        r is Ok || item::item_at(data@, 0, 0) is Err,
        r matches Ok((v, taken)) ==> drisl_agrees(data@, cbor_tree(v), taken as int),
{
    let mut cursor = std::io::Cursor::new(data);
    match ciborium::de::from_reader(&mut cursor) {
        Ok(v) => Ok((v, cursor.position() as usize)),
        Err(err) => Err(err.to_string()),
    }
}

/// The variants of the decoder's value type, one level deep.
enum Shape {
    Null,
    Bool(bool),
    Integer(i128),
    Float(u64),
    Text(String),
    Bytes(Vec<u8>),
    Array(Vec<ciborium::Value>),
    Dict(Vec<(ciborium::Value, ciborium::Value)>),
    Tag(u64, Box<ciborium::Value>),
}

/// One level of what `v` holds.
spec fn shape_tree(shape: Shape) -> Tree {
    match shape {
        Shape::Null => Tree::Null,
        Shape::Bool(b) => Tree::Bool(b),
        Shape::Integer(i) => Tree::Integer(i as int),
        Shape::Float(bits) => Tree::Float(bits),
        Shape::Text(s) => Tree::Text(s@),
        Shape::Bytes(b) => Tree::Bytes(b@),
        Shape::Array(items) => Tree::Array(
            Seq::new(items@.len(), |i: int| cbor_tree(items@[i])),
        ),
        Shape::Dict(entries) => Tree::Dict(
            Seq::new(
                entries@.len(),
                |i: int| (label_of(cbor_tree(entries@[i].0)), cbor_tree(entries@[i].1)),
            ),
        ),
        Shape::Tag(tag, inner) => Tree::Tag(tag, Box::new(cbor_tree(*inner))),
    }
}

/// Tells the variants of `ciborium::Value` apart, moving their fields: an
/// integer by its value, a float by its bits, the others as they are. A variant
/// that the decoder may add later counts as null.
#[verifier::external_body]
fn take_apart(v: ciborium::Value) -> (r: Shape)
    ensures
        cbor_tree(v) == shape_tree(r),
{
    match v {
        ciborium::Value::Bool(b) => Shape::Bool(b),
        ciborium::Value::Integer(i) => Shape::Integer(i.into()),
        ciborium::Value::Float(f) => Shape::Float(f.to_bits()),
        ciborium::Value::Text(s) => Shape::Text(s),
        ciborium::Value::Bytes(b) => Shape::Bytes(b),
        ciborium::Value::Array(items) => Shape::Array(items),
        ciborium::Value::Map(entries) => Shape::Dict(entries),
        ciborium::Value::Tag(tag, inner) => Shape::Tag(tag, inner),
        _ => Shape::Null,
    }
}

/// The text by which a `ciborium::Value` prints itself under `{:?}`.
#[verifier::external_body]
fn debug_text(v: &ciborium::Value) -> (r: String)
    ensures
        r@ == debug_form(cbor_tree(*v)),
{
    format!("{v:?}")
}

fn own_key(k: ciborium::Value) -> (r: Key)
    ensures
        r@ == label_of(cbor_tree(k)),
{
    let text = debug_text(&k);
    match take_apart(k) {
        Shape::Text(s) => Key::Text(s),
        _ => Key::Other(text),
    }
}

/// Turns the decoder's value into the library's.
fn own(v: ciborium::Value) -> (r: Cbor)
    ensures
        r@ == cbor_tree(v),
    decreases cbor_tree(v),
{
    let ghost tree = cbor_tree(v);
    match take_apart(v) {
        Shape::Null => Cbor::Null,
        Shape::Bool(b) => Cbor::Bool(b),
        Shape::Integer(i) => Cbor::Integer(i),
        Shape::Float(bits) => Cbor::Float(bits),
        Shape::Text(s) => Cbor::Text(s),
        Shape::Bytes(b) => Cbor::Bytes(b),
        Shape::Array(items) => {
            let mut out: Vec<Cbor> = Vec::new();
            let ghost all = items@;
            for x in it: items
                invariant
                    it.seq() == all,
                    tree == cbor_tree(v),
                    tree == Tree::Array(Seq::new(all.len(), |i: int| cbor_tree(all[i]))),
                    out@.len() == it.index(),
                    forall|i: int| 0 <= i < out@.len() ==> (#[trigger] out@[i])@ == cbor_tree(all[i]),
            {
                proof {
                    assert(decreases_to!(tree => tree->Array_0[it.index() as int]));
                    assert(tree->Array_0[it.index() as int] == cbor_tree(x));
                }
                let next = own(x);
                out.push(next);
            }
            let r = Cbor::Array(out);
            proof {
                assert(r@->Array_0 =~= tree->Array_0);
            }
            r
        },
        Shape::Dict(entries) => {
            let mut out: Vec<(Key, Cbor)> = Vec::new();
            let ghost all = entries@;
            for (k, x) in it: entries
                invariant
                    it.seq() == all,
                    tree == cbor_tree(v),
                    tree == Tree::Dict(
                        Seq::new(
                            all.len(),
                            |i: int| (label_of(cbor_tree(all[i].0)), cbor_tree(all[i].1)),
                        ),
                    ),
                    out@.len() == it.index(),
                    forall|i: int|
                        0 <= i < out@.len() ==> {
                            &&& (#[trigger] out@[i]).0@ == label_of(cbor_tree(all[i].0))
                            &&& out@[i].1@ == cbor_tree(all[i].1)
                        },
            {
                proof {
                    assert(decreases_to!(tree => tree->Dict_0[it.index() as int].1));
                    assert(tree->Dict_0[it.index() as int].1 == cbor_tree(x));
                }
                let key = own_key(k);
                let next = own(x);
                out.push((key, next));
            }
            let r = Cbor::Dict(out);
            proof {
                assert(r@->Dict_0 =~= tree->Dict_0);
            }
            r
        },
        Shape::Tag(tag, inner) => {
            proof {
                assert(decreases_to!(tree => tree->Tag_1));
                assert(*tree->Tag_1 == cbor_tree(*inner));
            }
            Cbor::Tag(tag, Box::new(own(*inner)))
        },
    }
}

/// Decodes the first CBOR item of `data`; says how many bytes it took.
pub fn decode_item(data: &[u8]) -> (r: Result<(Cbor, usize), String>)
    ensures
        match (r, cbor_item(data@)) {
            (Ok((v, taken)), Some((tree, n))) => {
                &&& settled(v@) == tree
                &&& taken == n
                &&& 0 < taken <= data@.len()
            },
            (Err(_), None) => true,
            _ => false,
        },
        r is Ok || item::item_at(data@, 0, 0) is Err,
        r matches Ok((v, taken)) ==> drisl_agrees(data@, v@, taken as int),
{
    let (v, taken) = decode_first(data)?;
    Ok((own(v), taken))
}

/// The value of the first entry whose key is the text `key`.
pub open spec fn lookup(entries: Seq<(Label, Tree)>, key: Seq<char>) -> Option<Tree>
    decreases entries.len(),
{
    if entries.len() == 0 {
        None
    } else if entries[0].0 == Label::Text(key) {
        Some(entries[0].1)
    } else {
        lookup(entries.drop_first(), key)
    }
}

/// What `tree` holds under the text key `key`; nothing where it is no map.
pub open spec fn field_of(tree: Tree, key: Seq<char>) -> Option<Tree> {
    match tree {
        Tree::Dict(entries) => lookup(entries, key),
        _ => None,
    }
}

/// The value of `v`'s field `key`.
pub fn field<'a>(v: &'a Cbor, key: &str) -> (r: Option<&'a Cbor>)
    ensures
        match (r, field_of(v@, key@)) {
            (Some(found), Some(tree)) => found@ == tree,
            (None, None) => true,
            _ => false,
        },
{
    let entries = match v {
        Cbor::Dict(entries) => entries,
        _ => {
            return None;
        },
    };
    let ghost all = v@->Dict_0;
    let mut i: usize = 0;
    proof {
        assert(all.skip(0) =~= all);
    }
    while i < entries.len()
        invariant
            i <= entries@.len(),
            v@ == Tree::Dict(all),
            *v == Cbor::Dict(*entries),
            all.len() == entries@.len(),
            lookup(all, key@) == lookup(all.skip(i as int), key@),
        decreases entries@.len() - i,
    {
        proof {
            assert(all.skip(i as int)[0] == all[i as int]);
            assert(all[i as int] == (entries@[i as int].0@, entries@[i as int].1@));
            assert(all.skip(i as int).drop_first() =~= all.skip(i + 1));
        }
        if let Key::Text(s) = &entries[i].0 {
            if same_text(s.as_str(), key) {
                return Some(&entries[i].1);
            }
        }
        i = i + 1;
    }
    None
}

/// What is under a key of a settled value is what was under it, settled.
pub proof fn lemma_settled_field(tree: Tree, key: Seq<char>)
    ensures
        field_of(settled(tree), key) == (match field_of(tree, key) {
            Some(value) => Some(settled(value)),
            None => None,
        }),
{
    if let Tree::Dict(entries) = tree {
        lemma_settled_lookup(entries, key);
    }
}

proof fn lemma_settled_lookup(entries: Seq<(Label, Tree)>, key: Seq<char>)
    ensures
        lookup(settled_entries(entries), key) == (match lookup(entries, key) {
            Some(value) => Some(settled(value)),
            None => None,
        }),
    decreases entries.len(),
{
    if entries.len() > 0 {
        lemma_settled_lookup(entries.drop_first(), key);
        assert(settled_entries(entries).drop_first() =~= settled_entries(entries.drop_first()));
    }
}

} // verus!
