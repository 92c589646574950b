//! What holds of every frame.

use vstd::prelude::*;
use vstd::utf8;

use crate::cbor;
use crate::cbor::Tree;
use crate::drisl;
use crate::drisl::item;
use crate::drisl::item::{Fault, Item};
use crate::drisl::DrislError;
use crate::frame;
use crate::frame::{Fields, FrameError, Refusal};
use crate::text;

verus! {

/// A frame is exactly its header's encoding and its payload's, one after the
/// other: both keep the DRISL rules, and no byte belongs to neither.
pub proof fn law_frame_is_two_encodings(raw: Seq<u8>)
    requires
        frame::two_items(raw) is Ok,
    ensures
        ({
            let (header, payload) = frame::two_items(raw)->Ok_0;
            &&& item::fits(header, 0)
            &&& item::fits(payload, 0)
            &&& raw == item::encode(header) + item::encode(payload)
        }),
{
    drisl::laws::law_valid_bytes_are_the_encoding(raw, 0, 0);
    let middle = item::item_at(raw, 0, 0)->Ok_0.1;
    drisl::laws::law_valid_bytes_are_the_encoding(raw, middle, 0);
    assert(raw =~= raw.subrange(0, middle) + raw.subrange(middle, raw.len() as int));
}

/// Any two items that keep the rules make a frame, and it is read back as
/// those two: the boundary is where the header's encoding ends.
pub proof fn law_two_encodings_are_a_frame(header: Item, payload: Item)
    requires
        item::fits(header, 0),
        item::fits(payload, 0),
    ensures
        frame::two_items(item::encode(header) + item::encode(payload)) == Ok::<
            (Item, Item),
            Refusal,
        >((header, payload)),
{
    let a = item::encode(header);
    let b = item::encode(payload);
    let raw = a + b;
    assert(raw.subrange(0, a.len() as int) =~= a);
    assert(raw.subrange(a.len() as int, raw.len() as int) =~= b);
    drisl::laws::law_every_item_validates(raw, 0, 0, header);
    drisl::laws::law_every_item_validates(raw, a.len() as int, 0, payload);
    drisl::laws::law_valid_bytes_are_the_encoding(raw, a.len() as int, 0);
}

/// Two frames with the same header and the same payload are the same bytes.
pub proof fn law_one_frame_per_content(a: Seq<u8>, b: Seq<u8>)
    requires
        frame::two_items(a) is Ok,
        frame::two_items(a) == frame::two_items(b),
    ensures
        a == b,
{
    law_frame_is_two_encodings(a);
    law_frame_is_two_encodings(b);
}

/// A frame with bytes after it is refused, for those bytes.
pub proof fn law_trailing_bytes_are_refused(raw: Seq<u8>, extra: Seq<u8>)
    requires
        frame::two_items(raw) is Ok,
        extra.len() > 0,
    ensures
        frame::two_items(raw + extra) == Err::<(Item, Item), Refusal>(
            Refusal::Trailing { extra: extra.len() as int, total: (raw + extra).len() as int },
        ),
{
    let longer = raw + extra;
    drisl::laws::law_valid_bytes_are_the_encoding(raw, 0, 0);
    let middle = item::item_at(raw, 0, 0)->Ok_0.1;
    drisl::laws::law_valid_bytes_are_the_encoding(raw, middle, 0);
    let end = item::item_at(raw, middle, 0)->Ok_0.1;
    assert(longer.subrange(0, middle) =~= raw.subrange(0, middle));
    assert(longer.subrange(middle, end) =~= raw.subrange(middle, end));
    drisl::laws::law_end_is_decided_by_the_item(raw, longer, 0, 0);
    drisl::laws::law_end_is_decided_by_the_item(raw, longer, middle, 0);
}

/// Every frame that is parsed as a message has a type.
pub proof fn law_messages_have_a_type(raw: Seq<u8>)
    requires
        frame::parsed(raw) matches Ok(fields) && fields.op == 1,
    ensures
        frame::parsed(raw)->Ok_0.t is Some,
{
}

/// An integer that fits 64 bits is read as it is, however large.
pub proof fn law_integers_are_read_as_they_are(tree: Tree, key: Seq<char>, n: int)
    requires
        cbor::field_of(tree, key) == Some(Tree::Integer(n)),
    ensures
        i64::MIN <= n <= i64::MAX ==> frame::integer_field(tree, key) == Some(n),
        frame::integer_field(tree, key) matches Some(m) && i64::MIN <= m <= i64::MAX && (m - n)
            % 0x1_0000_0000_0000_0000 == 0,
{
}

/// The signed 64-bit number that an integer item is: itself where it fits,
/// else what is left of it after taking 2^64 away or adding it.
pub open spec fn number_of(v: Option<Item>) -> Option<int> {
    match v {
        Some(Item::Uint(n)) => if n < 0x8000_0000_0000_0000 {
            Some(n as int)
        } else {
            Some(n - 0x1_0000_0000_0000_0000)
        },
        Some(Item::Negint(n)) => if n < 0x8000_0000_0000_0000 {
            Some(-1 - n)
        } else {
            Some(0x1_0000_0000_0000_0000 - 1 - n)
        },
        _ => None,
    }
}

/// The text that a text item is.
pub open spec fn words_of(v: Option<Item>) -> Option<Seq<char>> {
    match v {
        Some(Item::Text(t)) => Some(utf8::decode_utf8(t)),
        _ => None,
    }
}

/// A frame is read for what was encoded: its operation, its type and its
/// sequence number are those under `op` and `t` of its header and under `seq`
/// of its payload, whatever else the two hold. It is refused only where there
/// is no integer `op`, or where that is 1 and there is no text `t`.
pub proof fn law_fields_are_what_was_encoded(
    header: Seq<(Seq<u8>, Item)>,
    payload: Seq<(Seq<u8>, Item)>,
    op: Option<Item>,
    t: Option<Item>,
    seq: Option<Item>,
)
    requires
        item::fits(Item::Dict(header), 0),
        item::fits(Item::Dict(payload), 0),
        cbor::laws::under(header, "op"@, op),
        cbor::laws::under(header, "t"@, t),
        cbor::laws::under(payload, "seq"@, seq),
    ensures
        ({
            let raw = item::encode(Item::Dict(header)) + item::encode(Item::Dict(payload));
            &&& number_of(op) is None ==> frame::parsed(raw) == Err::<Fields, Refusal>(
                Refusal::MissingOp,
            )
            &&& number_of(op) == Some(1int) && words_of(t) is None ==> frame::parsed(raw) == Err::<
                Fields,
                Refusal,
            >(Refusal::MissingType)
            &&& number_of(op) is Some && (number_of(op)->0 != 1 || words_of(t) is Some)
                ==> frame::parsed(raw) == Ok::<Fields, Refusal>(
                Fields { op: number_of(op)->0, t: words_of(t), seq: number_of(seq) },
            )
        }),
{
    law_two_encodings_are_a_frame(Item::Dict(header), Item::Dict(payload));
    cbor::laws::law_field_is_what_was_encoded(header, "op"@, op);
    cbor::laws::law_field_is_what_was_encoded(header, "t"@, t);
    cbor::laws::law_field_is_what_was_encoded(payload, "seq"@, seq);
    lemma_number(header, "op"@, op);
    lemma_number(payload, "seq"@, seq);
}

proof fn lemma_number(entries: Seq<(Seq<u8>, Item)>, key: Seq<char>, value: Option<Item>)
    requires
        item::fits(Item::Dict(entries), 0),
        cbor::laws::under(entries, key, value),
    ensures
        frame::integer_field(cbor::tree_of(Item::Dict(entries)), key) == number_of(value),
{
    cbor::laws::law_field_is_what_was_encoded(entries, key, value);
    if let Some(v) = value {
        let i = choose|i: int|
            0 <= i < entries.len() && entries[i] == (utf8::encode_utf8(key), v);
        assert(item::fits(entries[i].1, 1));
    }
}

/// The sequence number that a message is encoded with is the one that is read.
pub proof fn law_sequence_number_roundtrip(
    header: Seq<(Seq<u8>, Item)>,
    payload: Seq<(Seq<u8>, Item)>,
    t: Seq<char>,
    n: i64,
)
    requires
        item::fits(Item::Dict(header), 0),
        item::fits(Item::Dict(payload), 0),
        cbor::laws::under(header, "op"@, Some(Item::Uint(1))),
        cbor::laws::under(header, "t"@, Some(Item::Text(utf8::encode_utf8(t)))),
        cbor::laws::under(
            payload,
            "seq"@,
            Some(
                if n >= 0 {
                    Item::Uint(n as nat)
                } else {
                    Item::Negint((-1 - n) as nat)
                },
            ),
        ),
    ensures
        frame::parsed(item::encode(Item::Dict(header)) + item::encode(Item::Dict(payload))) == Ok::<
            Fields,
            Refusal,
        >(Fields { op: 1, t: Some(t), seq: Some(n as int) }),
{
    utf8::encode_utf8_decode_utf8(t);
    law_fields_are_what_was_encoded(
        header,
        payload,
        Some(Item::Uint(1)),
        Some(Item::Text(utf8::encode_utf8(t))),
        Some(
            if n >= 0 {
                Item::Uint(n as nat)
            } else {
                Item::Negint((-1 - n) as nat)
            },
        ),
    );
}

/// A frame whose header is no map has no operation.
pub proof fn law_header_must_be_a_map(header: Item, payload: Item)
    requires
        item::fits(header, 0),
        item::fits(payload, 0),
        !(header is Dict),
    ensures
        frame::parsed(item::encode(header) + item::encode(payload)) == Err::<Fields, Refusal>(
            Refusal::MissingOp,
        ),
{
    law_two_encodings_are_a_frame(header, payload);
}

/// A single item is no frame, and neither is nothing at all.
pub proof fn law_single_item_is_refused(header: Item)
    requires
        item::fits(header, 0),
    ensures
        frame::parsed(item::encode(header)) == Err::<Fields, Refusal>(Refusal::SingleItem),
        frame::parsed(Seq::empty()) is Err,
{
    let raw = item::encode(header);
    assert(raw.subrange(0, raw.len() as int) =~= raw);
    drisl::laws::law_every_item_validates(raw, 0, 0, header);
}

/// What a frame is read as is what its fields hold.
pub proof fn law_held_fields_are_the_values(op: i64, t: Option<String>, seq: Option<i64>)
    ensures
        frame::held(op, t, seq).op == op,
        t is None <==> frame::held(op, t, seq).t is None,
        t matches Some(s) ==> frame::held(op, t, seq).t == Some(s@),
        seq is None <==> frame::held(op, t, seq).seq is None,
        seq matches Some(n) ==> frame::held(op, t, seq).seq == Some(n as int),
{
}

/// A frame read without the DRISL rules is what the decoder takes first and what
/// it takes from there on, where that is all of it; bytes that are left over are
/// told, and so is which of the two did not decode.
pub proof fn law_lenient_frame_is_two_items(raw: Seq<u8>)
    ensures
        cbor::cbor_item(raw) is None ==> (frame::lenient::decoded(raw) matches Err(e) && e
            is HeaderCbor),
        cbor::cbor_item(raw) matches Some((header, middle)) ==> {
            &&& cbor::cbor_item(raw.skip(middle as int)) is None ==> (frame::lenient::decoded(
                raw,
            ) matches Err(e) && e is PayloadCbor)
            &&& cbor::cbor_item(raw.skip(middle as int)) matches Some((payload, taken)) ==> {
                &&& middle + taken == raw.len() ==> frame::lenient::decoded(raw) == Ok::<
                    (Tree, Tree),
                    Refusal,
                >((header, payload))
                &&& middle + taken < raw.len() ==> frame::lenient::decoded(raw) == Err::<
                    (Tree, Tree),
                    Refusal,
                >(
                    Refusal::Trailing {
                        extra: raw.len() - middle - taken,
                        total: raw.len() as int,
                    },
                )
            }
        },
{
}

/// The fields of a frame are read off the header's `op` and `t` and the
/// payload's `seq`, with the DRISL rules and without.
pub proof fn law_fields_are_op_t_and_seq(header: Tree, payload: Tree)
    ensures
        frame::fields_of(header, payload) matches Ok(fields) ==> {
            &&& frame::integer_field(header, "op"@) == Some(fields.op)
            &&& frame::text_field(header, "t"@) == fields.t
            &&& frame::integer_field(payload, "seq"@) == fields.seq
            &&& fields.op == 1 ==> fields.t is Some
        },
        frame::fields_of(header, payload) matches Err(e) ==> {
            ||| e is MissingOp && frame::integer_field(header, "op"@) is None
            ||| e is MissingType && frame::integer_field(header, "op"@) == Some(1int)
                && frame::text_field(header, "t"@) is None
        },
{
}

/// A text field is the text that is there, and nothing but a text.
pub proof fn law_text_fields_are_texts(tree: Tree, key: Seq<char>)
    ensures
        cbor::field_of(tree, key) matches Some(Tree::Text(s)) ==> frame::text_field(tree, key)
            == Some(s),
        !(cbor::field_of(tree, key) matches Some(Tree::Text(_))) ==> frame::text_field(tree, key)
            is None,
        !(cbor::field_of(tree, key) matches Some(Tree::Integer(_))) ==> frame::integer_field(
            tree,
            key,
        ) is None,
{
}

/// A frame's header and payload are the values of the two items that it was
/// encoded from.
pub proof fn law_header_and_payload_are_what_was_encoded(header: Item, payload: Item)
    requires
        item::fits(header, 0),
        item::fits(payload, 0),
    ensures
        frame::decoded(item::encode(header) + item::encode(payload)) == Ok::<(Tree, Tree), Refusal>(
            (cbor::tree_of(header), cbor::tree_of(payload)),
        ),
{
    law_two_encodings_are_a_frame(header, payload);
}

/// The fields of a frame are those of its header and its payload, with the DRISL
/// rules and without; a frame that does not decode is refused for that.
pub proof fn law_fields_are_those_of_the_parts(raw: Seq<u8>)
    ensures
        frame::decoded(raw) matches Ok((h, p)) ==> frame::parsed(raw) == frame::fields_of(h, p),
        frame::decoded(raw) matches Err(e) ==> frame::parsed(raw) == Err::<Fields, Refusal>(e),
        frame::lenient::decoded(raw) matches Ok((h, p)) ==> frame::lenient::parsed(raw)
            == frame::fields_of(h, p),
        frame::lenient::decoded(raw) matches Err(e) ==> frame::lenient::parsed(raw) == Err::<
            Fields,
            Refusal,
        >(e),
{
}

/// An error stands for the refusal that it tells, and keeps what it tells of it.
pub proof fn law_errors_stand_for_their_refusals(e: DrislError, n: usize, m: usize, s: String)
    ensures
        e@.offset == e.offset,
        e@.message == e.message@,
        FrameError::Header(e)@ == Refusal::Header(e@),
        FrameError::SingleItem@ is SingleItem,
        FrameError::Payload(e)@ == Refusal::Payload(e@),
        (FrameError::Trailing { extra: n, total: m })@ == (Refusal::Trailing {
            extra: n as int,
            total: m as int,
        }),
        FrameError::HeaderCbor(s)@ == Refusal::HeaderCbor(s@),
        FrameError::PayloadCbor(s)@ == Refusal::PayloadCbor(s@),
        FrameError::MissingOp@ is MissingOp,
        FrameError::MissingType@ is MissingType,
{
}

/// In short a refusal leaves out the decoder's own words and nothing else.
pub proof fn law_short_refusals_keep_their_kind(r: Refusal, s: Seq<char>)
    ensures
        !(r is HeaderCbor) && !(r is PayloadCbor) ==> r.in_short() == r,
        Refusal::HeaderCbor(s).in_short() == Refusal::HeaderCbor(Seq::empty()),
        Refusal::PayloadCbor(s).in_short() == Refusal::PayloadCbor(Seq::empty()),
{
}

/// A refusal says what was wrong, and where it is a rule that was broken also at
/// which byte.
pub proof fn law_refusals_say_what_is_wrong(f: Fault, extra: nat, total: nat, cause: Seq<char>)
    requires
        f.offset >= 0,
    ensures
        f.text() == "invalid DRISL at byte "@ + text::decimal(f.offset as nat) + ": "@ + f.message,
        Refusal::Header(f).text() == "frame header: "@ + f.text(),
        Refusal::Payload(f).text() == "frame payload: "@ + f.text(),
        Refusal::SingleItem.text() == "frame has 1 CBOR item, expected header + payload"@,
        (Refusal::Trailing { extra: extra as int, total: total as int }).text()
            == "trailing bytes after frame payload: "@ + text::decimal(extra) + " of "@
            + text::decimal(total),
        Refusal::HeaderCbor(cause).text() == "decoding frame header: "@ + cause,
        Refusal::PayloadCbor(cause).text() == "decoding frame payload: "@ + cause,
        Refusal::MissingOp.text() == "frame header missing integer 'op'"@,
        Refusal::MissingType.text() == "op=1 frame missing 't'"@,
{
}

} // verus!
