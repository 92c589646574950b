//! What holds of every DRISL document: one encoding per item, one item per
//! encoding, and an item's bounds that its own bytes decide.

use vstd::prelude::*;
use vstd::utf8;

use crate::drisl::item;
use crate::drisl::item::{Item, MAX_DEPTH};
use crate::order;
use crate::powers;

verus! {

proof fn lemma_be_roundtrip(n: nat, width: nat)
    requires
        n < powers::pow256(width),
    ensures
        item::be_bytes(n, width).len() == width,
        item::be_value(item::be_bytes(n, width)) == n,
    decreases width,
{
    if width > 0 {
        lemma_be_roundtrip(n / 256, (width - 1) as nat);
        let bytes = item::be_bytes(n, width);
        assert(bytes.drop_last() =~= item::be_bytes(n / 256, (width - 1) as nat));
    }
}

proof fn lemma_be_bytes_of_value(s: Seq<u8>)
    ensures
        item::be_bytes(item::be_value(s), s.len()) == s,
    decreases s.len(),
{
    if s.len() > 0 {
        lemma_be_bytes_of_value(s.drop_last());
        assert(item::be_value(s) / 256 == item::be_value(s.drop_last()));
        assert(item::be_bytes(item::be_value(s), s.len()) =~= s);
    } else {
        assert(item::be_bytes(item::be_value(s), s.len()) =~= s);
    }
}

/// A head that is read is the shortest one of its argument.
proof fn lemma_arg_sound(data: Seq<u8>, offset: int, what: Seq<char>)
    requires
        0 <= offset < data.len(),
        item::arg_at(data, offset, what) is Ok,
    ensures
        ({
            let (n, end) = item::arg_at(data, offset, what)->Ok_0;
            &&& n < item::arg_limit()
            &&& offset < end <= data.len()
            &&& data.subrange(offset, end) == item::head(data[offset] as int / 32, n)
        }),
{
    let (n, end) = item::arg_at(data, offset, what)->Ok_0;
    let major = data[offset] as int / 32;
    let info = data[offset] as int % 32;
    assert(data[offset] == major * 32 + info);
    if info < 24 {
        assert(data.subrange(offset, end) =~= item::head(major, n));
    } else {
        let body = data.subrange(offset + 1, end);
        powers::lemma_pow256_values();
        item::lemma_be_value_bound(body);
        lemma_be_bytes_of_value(body);
        assert(data.subrange(offset, end) =~= seq![data[offset]] + body);
    }
}

/// The shortest head of an argument is read back.
pub proof fn lemma_arg_complete(data: Seq<u8>, offset: int, what: Seq<char>, major: int, n: nat)
    requires
        0 <= offset,
        0 <= major < 8,
        n < item::arg_limit(),
        offset + item::head(major, n).len() <= data.len(),
        data.subrange(offset, offset + item::head(major, n).len()) == item::head(major, n),
    ensures
        data[offset] as int / 32 == major,
        item::head(major, n).len() > 0,
        item::arg_at(data, offset, what) == Ok::<(nat, int), item::Fault>(
            (n, offset + item::head(major, n).len()),
        ),
{
    powers::lemma_pow256_values();
    let head = item::head(major, n);
    if n < 24 {
        assert(data[offset] == head[0]);
    } else {
        let width: nat = if n < 256 {
            1
        } else if n < 65536 {
            2
        } else if n < 4294967296 {
            4
        } else {
            8
        };
        let info: int = if n < 256 {
            24
        } else if n < 65536 {
            25
        } else if n < 4294967296 {
            26
        } else {
            27
        };
        assert(head == seq![(major * 32 + info) as u8] + item::be_bytes(n, width));
        lemma_be_roundtrip(n, width);
        let whole = data.subrange(offset, offset + head.len());
        assert(whole[0] == data[offset]);
        assert(data[offset] == major * 32 + info);
        assert(data.subrange(offset + 1, offset + 1 + width) =~= whole.subrange(1, 1int + width));
        assert(head.subrange(1, 1int + width) =~= item::be_bytes(n, width));
    }
}

proof fn lemma_body_sound(data: Seq<u8>, offset: int, what: Seq<char>)
    requires
        0 <= offset < data.len(),
        item::body_at(data, offset, what) is Ok,
    ensures
        ({
            let (body, end) = item::body_at(data, offset, what)->Ok_0;
            &&& body.len() < item::arg_limit()
            &&& offset < end <= data.len()
            &&& data.subrange(offset, end) == item::head(data[offset] as int / 32, body.len())
                + body
        }),
{
    lemma_arg_sound(data, offset, what);
    let (n, start) = item::arg_at(data, offset, what)->Ok_0;
    let (body, end) = item::body_at(data, offset, what)->Ok_0;
    assert(data.subrange(offset, end) =~= data.subrange(offset, start) + data.subrange(start, end));
}

proof fn lemma_body_complete(data: Seq<u8>, offset: int, what: Seq<char>, major: int, body: Seq<u8>)
    requires
        0 <= offset,
        0 <= major < 8,
        body.len() < item::arg_limit(),
        ({
            let whole = item::head(major, body.len()) + body;
            &&& offset + whole.len() <= data.len()
            &&& data.subrange(offset, offset + whole.len()) == whole
        }),
    ensures
        offset < data.len(),
        data[offset] as int / 32 == major,
        item::body_at(data, offset, what) == Ok::<(Seq<u8>, int), item::Fault>(
            (body, offset + item::head(major, body.len()).len() + body.len()),
        ),
{
    let head = item::head(major, body.len());
    let whole = head + body;
    let found = data.subrange(offset, offset + whole.len());
    assert(data.subrange(offset, offset + head.len()) =~= found.subrange(0, head.len() as int));
    assert(whole.subrange(0, head.len() as int) =~= head);
    lemma_arg_complete(data, offset, what, major, body.len());
    let start = offset + head.len();
    assert(data.subrange(start, start + body.len()) =~= found.subrange(
        head.len() as int,
        whole.len() as int,
    ));
    assert(whole.subrange(head.len() as int, whole.len() as int) =~= body);
}

/// Whatever validates is the encoding of the item that it denotes: the bytes
/// from its offset to its end are the item's encoding, and the item keeps
/// every rule of DRISL.
pub proof fn law_valid_bytes_are_the_encoding(data: Seq<u8>, offset: int, depth: int)
    requires
        0 <= offset,
        item::item_at(data, offset, depth) is Ok,
    ensures
        ({
            let (found, end) = item::item_at(data, offset, depth)->Ok_0;
            &&& item::fits(found, depth)
            &&& offset < end <= data.len()
            &&& data.subrange(offset, end) == item::encode(found)
        }),
    decreases item::levels(depth), 0nat,
{
    let (found, end) = item::item_at(data, offset, depth)->Ok_0;
    let major = data[offset] as int / 32;
    if major == 0 {
        lemma_arg_sound(data, offset, "uint"@);
    } else if major == 1 {
        lemma_arg_sound(data, offset, "negint"@);
    } else if major == 2 {
        lemma_body_sound(data, offset, "byte string length"@);
    } else if major == 3 {
        lemma_body_sound(data, offset, "text string length"@);
    } else if major == 4 {
        lemma_arg_sound(data, offset, "array length"@);
        let (count, start) = item::arg_at(data, offset, "array length"@)->Ok_0;
        lemma_items_sound(data, start, count, depth + 1);
        assert(data.subrange(offset, end) =~= data.subrange(offset, start) + data.subrange(
            start,
            end,
        ));
    } else if major == 5 {
        lemma_arg_sound(data, offset, "map length"@);
        let (count, start) = item::arg_at(data, offset, "map length"@)->Ok_0;
        lemma_entries_sound(data, start, count, None, depth + 1);
        assert(data.subrange(offset, end) =~= data.subrange(offset, start) + data.subrange(
            start,
            end,
        ));
    } else if major == 6 {
        lemma_arg_sound(data, offset, "tag"@);
        let (tag, start) = item::arg_at(data, offset, "tag"@)->Ok_0;
        lemma_body_sound(data, start, "byte string length"@);
        let cid = found->Link_0;
        assert(data.subrange(offset, end) =~= data.subrange(offset, start) + data.subrange(
            start,
            end,
        ));
        assert(item::encode(found) =~= item::head(6, 42) + (item::head(2, cid.len()) + cid));
    } else {
        lemma_simple_sound(data, offset);
    }
}

proof fn lemma_simple_sound(data: Seq<u8>, offset: int)
    requires
        0 <= offset < data.len(),
        item::simple_at(data, offset) is Ok,
    ensures
        ({
            let (found, end) = item::simple_at(data, offset)->Ok_0;
            &&& item::fits(found, 0)
            &&& found is Bool || found is Null || found is Float
            &&& offset < end <= data.len()
            &&& data.subrange(offset, end) == item::encode(found)
        }),
{
    let (found, end) = item::simple_at(data, offset)->Ok_0;
    if data[offset] == 0xfb {
        let body = data.subrange(offset + 1, offset + 9);
        powers::lemma_pow256_values();
        item::lemma_be_value_bound(body);
        lemma_be_bytes_of_value(body);
    }
    assert(data.subrange(offset, end) =~= item::encode(found));
}

proof fn lemma_items_sound(data: Seq<u8>, offset: int, count: nat, depth: int)
    requires
        0 <= offset <= data.len(),
        item::items_at(data, offset, count, depth) is Ok,
    ensures
        ({
            let (found, end) = item::items_at(data, offset, count, depth)->Ok_0;
            &&& found.len() == count
            &&& forall|i: int| 0 <= i < count ==> item::fits(#[trigger] found[i], depth)
            &&& offset <= end <= data.len()
            &&& data.subrange(offset, end) == item::encode_all(found)
        }),
    decreases item::levels(depth), count + 1,
{
    let (found, end) = item::items_at(data, offset, count, depth)->Ok_0;
    if count == 0 {
        assert(data.subrange(offset, end) =~= item::encode_all(found));
    } else {
        law_valid_bytes_are_the_encoding(data, offset, depth);
        let (first, next) = item::item_at(data, offset, depth)->Ok_0;
        lemma_items_sound(data, next, (count - 1) as nat, depth);
        let (rest, _) = item::items_at(data, next, (count - 1) as nat, depth)->Ok_0;
        assert(found.drop_first() =~= rest);
        assert(data.subrange(offset, end) =~= data.subrange(offset, next) + data.subrange(
            next,
            end,
        ));
    }
}

/// Where the keys ascend from `before` on, the first of them is above it.
spec fn after(before: Option<Seq<u8>>, key: Seq<u8>) -> bool {
    before matches Some(b) ==> order::lex_less(b, item::encode_text(key))
}

#[verifier::rlimit(40)]
proof fn lemma_entries_sound(
    data: Seq<u8>,
    offset: int,
    count: nat,
    before: Option<Seq<u8>>,
    depth: int,
)
    requires
        0 <= offset <= data.len(),
        item::entries_at(data, offset, count, before, depth) is Ok,
    ensures
        ({
            let (found, end) = item::entries_at(data, offset, count, before, depth)->Ok_0;
            &&& found.len() == count
            &&& item::keys_ascend(found)
            &&& forall|i: int|
                0 <= i < count ==> {
                    &&& after(before, (#[trigger] found[i]).0)
                    &&& found[i].0.len() < item::arg_limit()
                    &&& utf8::valid_utf8(found[i].0)
                    &&& depth <= MAX_DEPTH
                    &&& item::fits(found[i].1, depth)
                }
            &&& offset <= end <= data.len()
            &&& data.subrange(offset, end) == item::encode_entries(found)
        }),
    decreases item::levels(depth), count + 1,
{
    let (found, end) = item::entries_at(data, offset, count, before, depth)->Ok_0;
    if count == 0 {
        assert(data.subrange(offset, end) =~= item::encode_entries(found));
    } else {
        lemma_body_sound(data, offset, "text string length"@);
        let (key, middle) = item::key_at(data, offset, before, depth)->Ok_0;
        law_valid_bytes_are_the_encoding(data, middle, depth);
        let (value, next) = item::item_at(data, middle, depth)->Ok_0;
        let here = Some(data.subrange(offset, middle));
        lemma_entries_sound(data, next, (count - 1) as nat, here, depth);
        let (rest, _) = item::entries_at(data, next, (count - 1) as nat, here, depth)->Ok_0;
        assert(found.drop_first() =~= rest);
        assert(found[0] == (key, value));
        assert forall|i: int| 0 < i < count implies {
            &&& order::lex_less(item::encode_text(key), item::encode_text(found[i].0))
            &&& after(before, (#[trigger] found[i]).0)
            &&& found[i].0.len() < item::arg_limit()
            &&& utf8::valid_utf8(found[i].0)
            &&& item::fits(found[i].1, depth)
        } by {
            assert(found[i] == rest[i - 1]);
            if before is Some {
                order::lemma_lex_less_transitive(
                    before->0,
                    item::encode_text(key),
                    item::encode_text(found[i].0),
                );
            }
        }
        assert forall|i: int, j: int| 0 <= i < j < found.len() implies order::lex_less(
            item::encode_text(#[trigger] found[i].0),
            item::encode_text(#[trigger] found[j].0),
        ) by {
            if i > 0 {
                assert(found[i] == rest[i - 1]);
                assert(found[j] == rest[j - 1]);
            }
        }
        assert(data.subrange(offset, end) =~= data.subrange(offset, middle) + data.subrange(
            middle,
            next,
        ) + data.subrange(next, end));
    }
}

/// `part` stands in `data` at `offset`.
pub open spec fn stands_at(data: Seq<u8>, offset: int, part: Seq<u8>) -> bool {
    &&& 0 <= offset
    &&& offset + part.len() <= data.len()
    &&& data.subrange(offset, offset + part.len()) == part
}

proof fn lemma_stands_split(data: Seq<u8>, offset: int, a: Seq<u8>, b: Seq<u8>)
    requires
        stands_at(data, offset, a + b),
    ensures
        stands_at(data, offset, a),
        stands_at(data, offset + a.len(), b),
{
    let whole = a + b;
    let found = data.subrange(offset, offset + whole.len());
    let middle = offset + a.len();
    assert(data.subrange(offset, middle) =~= found.subrange(0, a.len() as int));
    assert(whole.subrange(0, a.len() as int) =~= a);
    assert(data.subrange(middle, middle + b.len()) =~= found.subrange(
        a.len() as int,
        whole.len() as int,
    ));
    assert(whole.subrange(a.len() as int, whole.len() as int) =~= b);
}

/// Every item that keeps the rules validates where its encoding stands, as
/// itself, and ends where the encoding ends.
pub proof fn law_every_item_validates(data: Seq<u8>, offset: int, depth: int, value: Item)
    requires
        item::fits(value, depth),
        stands_at(data, offset, item::encode(value)),
    ensures
        item::item_at(data, offset, depth) == Ok::<(Item, int), item::Fault>(
            (value, offset + item::encode(value).len()),
        ),
    decreases value, 0nat,
{
    match value {
        Item::Uint(n) => {
            lemma_arg_complete(data, offset, "uint"@, 0, n);
        },
        Item::Negint(n) => {
            lemma_arg_complete(data, offset, "negint"@, 1, n);
        },
        Item::Bytes(b) => {
            lemma_body_complete(data, offset, "byte string length"@, 2, b);
        },
        Item::Text(t) => {
            lemma_body_complete(data, offset, "text string length"@, 3, t);
        },
        Item::Array(items) => {
            let head = item::head(4, items.len());
            lemma_stands_split(data, offset, head, item::encode_all(items));
            lemma_arg_complete(data, offset, "array length"@, 4, items.len());
            lemma_items_complete(data, offset + head.len(), depth + 1, items);
        },
        Item::Dict(entries) => {
            let head = item::head(5, entries.len());
            lemma_stands_split(data, offset, head, item::encode_entries(entries));
            lemma_arg_complete(data, offset, "map length"@, 5, entries.len());
            lemma_entries_complete(data, offset + head.len(), None, depth + 1, entries);
        },
        Item::Link(cid) => {
            let head = item::head(6, 42);
            let body = item::head(2, cid.len()) + cid;
            assert(item::encode(value) =~= head + body);
            lemma_stands_split(data, offset, head, body);
            lemma_arg_complete(data, offset, "tag"@, 6, 42);
            lemma_body_complete(data, offset + head.len(), "byte string length"@, 2, cid);
        },
        Item::Bool(_) | Item::Null => {
            assert(data[offset] == data.subrange(offset, offset + item::encode(value).len())[0]);
        },
        Item::Float(bits) => {
            powers::lemma_pow256_values();
            lemma_be_roundtrip(bits, 8);
            assert(data[offset] == data.subrange(offset, offset + item::encode(value).len())[0]);
            lemma_stands_split(data, offset, seq![0xfbu8], item::be_bytes(bits, 8));
        },
    }
}

proof fn lemma_items_complete(data: Seq<u8>, offset: int, depth: int, items: Seq<Item>)
    requires
        forall|i: int| 0 <= i < items.len() ==> item::fits(#[trigger] items[i], depth),
        stands_at(data, offset, item::encode_all(items)),
    ensures
        item::items_at(data, offset, items.len(), depth) == Ok::<(Seq<Item>, int), item::Fault>(
            (items, offset + item::encode_all(items).len()),
        ),
    decreases items, 0nat,
{
    if items.len() > 0 {
        let rest = items.drop_first();
        lemma_stands_split(data, offset, item::encode(items[0]), item::encode_all(rest));
        law_every_item_validates(data, offset, depth, items[0]);
        assert forall|i: int| 0 <= i < rest.len() implies item::fits(#[trigger] rest[i], depth) by {
            assert(rest[i] == items[i + 1]);
        }
        lemma_items_complete(data, offset + item::encode(items[0]).len(), depth, rest);
        assert(seq![items[0]] + rest =~= items);
    } else {
        assert(items =~= Seq::empty());
    }
}

proof fn lemma_entries_complete(
    data: Seq<u8>,
    offset: int,
    before: Option<Seq<u8>>,
    depth: int,
    entries: Seq<(Seq<u8>, Item)>,
)
    requires
        item::keys_ascend(entries),
        entries.len() > 0 ==> after(before, entries[0].0),
        forall|i: int|
            0 <= i < entries.len() ==> {
                &&& (#[trigger] entries[i]).0.len() < item::arg_limit()
                &&& utf8::valid_utf8(entries[i].0)
                &&& depth <= MAX_DEPTH
                &&& item::fits(entries[i].1, depth)
            },
        stands_at(data, offset, item::encode_entries(entries)),
    ensures
        item::entries_at(data, offset, entries.len(), before, depth) == Ok::<
            (Seq<(Seq<u8>, Item)>, int),
            item::Fault,
        >((entries, offset + item::encode_entries(entries).len())),
    decreases entries, 0nat,
{
    if entries.len() > 0 {
        let (key, value) = entries[0];
        let rest = entries.drop_first();
        let k = item::encode_text(key);
        let v = item::encode(value);
        lemma_stands_split(data, offset, k + v, item::encode_entries(rest));
        lemma_stands_split(data, offset, k, v);
        lemma_body_complete(data, offset, "text string length"@, 3, key);
        if before is Some {
            order::lemma_lex_less_irreflexive(k);
        }
        let middle = offset + k.len();
        law_every_item_validates(data, middle, depth, value);
        assert forall|i: int, j: int| 0 <= i < j < rest.len() implies order::lex_less(
            item::encode_text(#[trigger] rest[i].0),
            item::encode_text(#[trigger] rest[j].0),
        ) by {
            assert(rest[i].0 == entries[i + 1].0);
            assert(rest[j].0 == entries[j + 1].0);
        }
        assert forall|i: int| 0 <= i < rest.len() implies {
            &&& (#[trigger] rest[i]).0.len() < item::arg_limit()
            &&& utf8::valid_utf8(rest[i].0)
            &&& depth <= MAX_DEPTH
            &&& item::fits(rest[i].1, depth)
        } by {
            assert(rest[i] == entries[i + 1]);
        }
        if rest.len() > 0 {
            assert(rest[0].0 == entries[1].0);
            assert(order::lex_less(
                item::encode_text(entries[0].0),
                item::encode_text(entries[1].0),
            ));
        }
        lemma_entries_complete(data, middle + v.len(), Some(k), depth, rest);
        assert(seq![(key, value)] + rest =~= entries);
    } else {
        assert(entries =~= Seq::empty());
    }
}

/// The encoding is deterministic in both directions: two items that keep the
/// rules and encode alike are the same item.
pub proof fn law_one_item_per_encoding(a: Item, b: Item)
    requires
        item::fits(a, 0),
        item::fits(b, 0),
        item::encode(a) == item::encode(b),
    ensures
        a == b,
{
    let data = item::encode(a);
    assert(data.subrange(0, data.len() as int) =~= data);
    law_every_item_validates(data, 0, 0, a);
    law_every_item_validates(data, 0, 0, b);
}

/// Where an item ends depends on its own bytes alone, not on what follows
/// them: the header of a frame ends where it ends, whatever the payload.
pub proof fn law_end_is_decided_by_the_item(data: Seq<u8>, other: Seq<u8>, offset: int, depth: int)
    requires
        0 <= offset,
        item::item_at(data, offset, depth) is Ok,
        ({
            let end = item::item_at(data, offset, depth)->Ok_0.1;
            &&& end <= other.len()
            &&& other.subrange(offset, end) == data.subrange(offset, end)
        }),
    ensures
        item::item_at(other, offset, depth) == item::item_at(data, offset, depth),
{
    law_valid_bytes_are_the_encoding(data, offset, depth);
    let (found, end) = item::item_at(data, offset, depth)->Ok_0;
    assert(item::encode(found).len() == end - offset);
    law_every_item_validates(other, offset, depth, found);
}

/// An item is the same wherever it stands: read from its own start, it is the
/// same item, as many bytes long.
pub proof fn law_item_moves(data: Seq<u8>, offset: int, depth: int)
    requires
        0 <= offset,
        item::item_at(data, offset, depth) is Ok,
    ensures
        ({
            let (found, end) = item::item_at(data, offset, depth)->Ok_0;
            item::item_at(data.skip(offset), 0, depth) == Ok::<(Item, int), item::Fault>(
                (found, end - offset),
            )
        }),
{
    law_valid_bytes_are_the_encoding(data, offset, depth);
    let (found, end) = item::item_at(data, offset, depth)->Ok_0;
    let rest = data.skip(offset);
    assert(rest.subrange(0, end - offset) =~= data.subrange(offset, end));
    assert(item::encode(found).len() == end - offset);
    law_every_item_validates(rest, 0, depth, found);
}

/// No valid document is a proper prefix of another.
pub proof fn law_no_document_extends_another(a: Item, b: Item)
    requires
        item::fits(a, 0),
        item::fits(b, 0),
        item::encode(a).len() <= item::encode(b).len(),
        item::encode(b).subrange(0, item::encode(a).len() as int) == item::encode(a),
    ensures
        a == b,
{
    let data = item::encode(b);
    assert(data.subrange(0, data.len() as int) =~= data);
    law_every_item_validates(data, 0, 0, a);
    law_every_item_validates(data, 0, 0, b);
}

/// A whole document, with nothing after it, is exactly the encoding of an item
/// that keeps the rules.
pub proof fn law_documents_are_encodings(data: Seq<u8>)
    ensures
        (item::item_at(data, 0, 0) matches Ok((_, end)) && end == data.len()) <==> exists|value: Item|
            item::fits(value, 0) && #[trigger] item::encode(value) == data,
{
    assert(data.subrange(0, data.len() as int) =~= data);
    if item::item_at(data, 0, 0) is Ok {
        law_valid_bytes_are_the_encoding(data, 0, 0);
    }
    if exists|value: Item| item::fits(value, 0) && #[trigger] item::encode(value) == data {
        let value = choose|value: Item|
            item::fits(value, 0) && #[trigger] item::encode(value) == data;
        law_every_item_validates(data, 0, 0, value);
    }
}

proof fn lemma_be_bytes_first_below(m: nat, n: nat, width: nat) -> (k: int)
    requires
        m < n < powers::pow256(width),
    ensures
        order::first_below_at(item::be_bytes(m, width), item::be_bytes(n, width), k),
    decreases width,
{
    lemma_be_roundtrip(m, width);
    lemma_be_roundtrip(n, width);
    if m / 256 < n / 256 {
        lemma_be_bytes_first_below(m / 256, n / 256, (width - 1) as nat)
    } else {
        width - 1
    }
}

proof fn lemma_shorter_head_is_less(m: nat, n: nat, x: Seq<u8>, y: Seq<u8>)
    requires
        m < n < item::arg_limit(),
    ensures
        order::lex_less(item::head(3, m) + x, item::head(3, n) + y),
        !order::lex_less(item::head(3, n) + y, item::head(3, m) + x),
{
    powers::lemma_pow256_values();
    let a = item::head(3, m) + x;
    let b = item::head(3, n) + y;
    let width: nat = if n < 24 {
        0
    } else if n < 256 {
        1
    } else if n < 65536 {
        2
    } else if n < 4294967296 {
        4
    } else {
        8
    };
    if width > 0 && a[0] == b[0] {
        let k = lemma_be_bytes_first_below(m, n, width);
        lemma_be_roundtrip(m, width);
        lemma_be_roundtrip(n, width);
        order::lemma_lex_less_at(a, b, k + 1);
    } else {
        order::lemma_lex_less_at(a, b, 0);
    }
}

/// For text keys, the bytewise order of the encodings is the length-first
/// order: the shorter key comes first, and keys of one length go by their
/// bytes.
pub proof fn law_key_order_is_length_first(a: Seq<u8>, b: Seq<u8>)
    requires
        a.len() < item::arg_limit(),
        b.len() < item::arg_limit(),
    ensures
        order::lex_less(item::encode_text(a), item::encode_text(b)) <==> a.len() < b.len() || (
        a.len() == b.len() && order::lex_less(a, b)),
{
    if a.len() < b.len() {
        lemma_shorter_head_is_less(a.len(), b.len(), a, b);
    } else if b.len() < a.len() {
        lemma_shorter_head_is_less(b.len(), a.len(), b, a);
    } else {
        order::lemma_lex_less_prefix(item::head(3, a.len()), a, b);
    }
}

} // verus!
