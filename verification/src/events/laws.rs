//! What holds of what is printed.

use vstd::prelude::*;

use crate::assoc;
use crate::car;
use crate::car::CarError;
use crate::cbor;
use crate::cbor::Tree;
use crate::encoding;
use crate::events;
use crate::events::{EventLog, EventOptions, OpsError, Output, Printed, TailLog, TailOptions};
use crate::frame;
use crate::frame::FrameError;
use crate::json;
use crate::json::JsonTree;

verus! {

/// What is printed ascends: an event with a sequence number is taken exactly
/// where it is above every one before it, and a frame that comes again is a
/// duplicate.
pub proof fn law_events_ascend(
    log: EventLog,
    options: EventOptions,
    group: Option<u64>,
    raw: Seq<u8>,
    header: Tree,
    payload: Tree,
)
    requires
        frame::fields_of(header, payload) matches Ok(fields) && fields.seq is Some,
    ensures
        ({
            let n = frame::fields_of(header, payload)->Ok_0.seq->0;
            let (after, output, _) = events::decoded_step(
                log,
                options,
                group,
                raw,
                header,
                payload,
            );
            &&& output is Duplicate <==> n <= log.last_seq
            &&& output is Duplicate ==> after == log
            &&& !(output is Duplicate) ==> after.last_seq == n
            &&& events::decoded_step(after, options, group, raw, header, payload).1 is Duplicate
        }),
{
}

/// What is no frame leaves no trace.
pub proof fn law_invalid_frames_are_skipped(
    log: EventLog,
    options: EventOptions,
    group: Option<u64>,
    raw: Seq<u8>,
)
    requires
        frame::parsed(raw) is Err,
    ensures
        ({
            let (after, output, last) = events::event_step(log, options, group, raw);
            after == log && output is Skipped && !last
        }),
{
}

/// Printing ends with the event that reaches the limit; without a limit it
/// never ends.
pub proof fn law_limit_ends_printing(
    log: EventLog,
    options: EventOptions,
    group: Option<u64>,
    raw: Seq<u8>,
)
    ensures
        ({
            let (after, output, last) = events::event_step(log, options, group, raw);
            &&& options.limit == 0 ==> !last
            &&& last ==> after.count >= options.limit
            &&& output is Lines && options.limit > 0 && after.count >= options.limit ==> last
        }),
{
}

/// Quiet prints no payload, only the type and the sequence number of an event
/// and nothing of an operation, and counts the same.
pub proof fn law_quiet_counts_the_same(
    log: EventLog,
    options: EventOptions,
    group: Option<u64>,
    raw: Seq<u8>,
)
    ensures
        ({
            let quiet = EventOptions { quiet: true, ..options };
            let loud = EventOptions { quiet: false, ..options };
            let (a, output, x) = events::event_step(log, quiet, group, raw);
            let (b, _, y) = events::event_step(log, loud, group, raw);
            &&& a == b
            &&& x == y
            &&& output matches Output::Lines(lines) ==> {
                let fields = frame::parsed(raw)->Ok_0;
                lines == if options.ops {
                    Seq::empty()
                } else {
                    seq![
                        JsonTree::Object(
                            events::tail_entries(fields.t, fields.seq, None, None),
                        ),
                    ]
                }
            }
        }),
{
}

/// The raw line of a frame tells its bytes: two frames with the same line are
/// the same bytes.
pub proof fn law_raw_lines_are_faithful(
    t: Option<Seq<char>>,
    seq: Option<int>,
    group: Option<u64>,
    a: Seq<u8>,
    b: Seq<u8>,
)
    requires
        events::tail_entries(t, seq, group, Some(a)) == events::tail_entries(
            t,
            seq,
            group,
            Some(b),
        ),
    ensures
        a == b,
{
    let x = events::tail_entries(t, seq, group, Some(a));
    let y = events::tail_entries(t, seq, group, Some(b));
    assert(x["raw"@] == JsonTree::Text(encoding::base64_text(a)));
    assert(y["raw"@] == JsonTree::Text(encoding::base64_text(b)));
    encoding::laws::law_base64_is_faithful(a, b);
}

/// A tail ends with the frame that reaches its limit; without one it never
/// ends.
pub proof fn law_tail_ends_at_its_limit(log: TailLog, options: TailOptions)
    requires
        log.count < usize::MAX,
    ensures
        ({
            let (after, last) = events::tail_step(log, options);
            &&& after.count == log.count + 1
            &&& last <==> options.limit > 0 && after.count >= options.limit
        }),
{
}

// What stands on a line.

/// A text field as a line shows it.
pub open spec fn text_json(v: Option<Tree>) -> JsonTree {
    match v {
        Some(Tree::Text(s)) => JsonTree::Text(s),
        _ => JsonTree::Null,
    }
}

/// An integer field that fits 64 bits as a line shows it; none for one that
/// does not.
pub open spec fn integer_json(v: Option<Tree>) -> Option<JsonTree> {
    match v {
        Some(Tree::Integer(n)) => if i64::MIN <= n <= i64::MAX {
            Some(JsonTree::Int(n))
        } else {
            None
        },
        _ => Some(JsonTree::Null),
    }
}

proof fn lemma_op_keys()
    ensures
        "action"@ != "record"@,
        "path"@ != "repo"@,
        "path"@ != "time"@,
        "repo"@ != "time"@,
        "cid"@ != "seq"@,
        "cid"@ != "rev"@,
        "seq"@ != "rev"@,
        "action"@.len() == 6,
        "record"@.len() == 6,
        "path"@.len() == 4,
        "repo"@.len() == 4,
        "time"@.len() == 4,
        "cid"@.len() == 3,
        "seq"@.len() == 3,
        "rev"@.len() == 3,
{
    reveal_strlit("action");
    reveal_strlit("record");
    reveal_strlit("path");
    reveal_strlit("repo");
    reveal_strlit("time");
    reveal_strlit("cid");
    reveal_strlit("seq");
    reveal_strlit("rev");
    assert("action"@[0] == 'a' && "record"@[0] == 'r');
    assert("path"@[0] == 'p' && "repo"@[0] == 'r' && "time"@[0] == 't');
    assert("cid"@[0] == 'c' && "seq"@[0] == 's' && "rev"@[0] == 'r');
}

/// The line of an operation has eight entries: the operation's action and path,
/// its CID, the record, and the commit's sequence number, account, revision and
/// time, each under its own name, null where there is none.
pub proof fn law_op_line_shows_the_operation(payload: Tree, op: Tree, record: JsonTree)
    ensures
        ({
            let line = events::op_object(payload, op, record)->Object_0;
            &&& events::op_object(payload, op, record) is Object
            &&& line.dom() == set![
                "action"@, "path"@, "cid"@, "record"@, "seq"@, "repo"@, "rev"@, "time"@,
            ]
            &&& line["action"@] == text_json(cbor::field_of(op, "action"@))
            &&& line["path"@] == text_json(cbor::field_of(op, "path"@))
            &&& line["record"@] == record
            &&& line["repo"@] == text_json(cbor::field_of(payload, "repo"@))
            &&& line["rev"@] == text_json(cbor::field_of(payload, "rev"@))
            &&& line["time"@] == text_json(cbor::field_of(payload, "time"@))
            &&& integer_json(cbor::field_of(payload, "seq"@)) matches Some(seq) ==> line["seq"@]
                == seq
        }),
{
    lemma_op_keys();
    let line = events::op_object(payload, op, record)->Object_0;
    assert(line.dom() =~= set![
        "action"@, "path"@, "cid"@, "record"@, "seq"@, "repo"@, "rev"@, "time"@,
    ]);
}

/// The CID of an operation is the link under its `cid`, without the 0x00 before
/// it, and its line shows that CID's string form; without a link there, the
/// line shows null.
pub proof fn law_op_cid_is_the_link(payload: Tree, op: Tree, record: JsonTree, cid: Seq<u8>)
    ensures
        ({
            let line = events::op_object(payload, op, record)->Object_0;
            let found = cbor::field_of(op, "cid"@);
            &&& found == Some(Tree::Tag(42, Box::new(Tree::Bytes(seq![0u8] + cid)))) ==> {
                &&& events::op_cid(op) == Some(cid)
                &&& line["cid"@] == JsonTree::Text(json::cid_text(cid))
            }
            &&& !(found matches Some(Tree::Tag(42, inner)) && *inner is Bytes) ==> {
                &&& events::op_cid(op) is None
                &&& line["cid"@] is Null
            }
        }),
{
    lemma_op_keys();
    assert((seq![0u8] + cid).skip(1) =~= cid);
}

/// The line of an operation depends on nothing of it but its action, its path
/// and its CID, and on nothing of the commit but its sequence number, account,
/// revision and time.
pub proof fn law_op_line_depends_on_its_fields_only(
    payload: Tree,
    other_payload: Tree,
    op: Tree,
    other: Tree,
    record: JsonTree,
)
    requires
        cbor::field_of(op, "action"@) == cbor::field_of(other, "action"@),
        cbor::field_of(op, "path"@) == cbor::field_of(other, "path"@),
        cbor::field_of(op, "cid"@) == cbor::field_of(other, "cid"@),
        cbor::field_of(payload, "seq"@) == cbor::field_of(other_payload, "seq"@),
        cbor::field_of(payload, "repo"@) == cbor::field_of(other_payload, "repo"@),
        cbor::field_of(payload, "rev"@) == cbor::field_of(other_payload, "rev"@),
        cbor::field_of(payload, "time"@) == cbor::field_of(other_payload, "time"@),
    ensures
        events::op_object(payload, op, record) == events::op_object(other_payload, other, record),
        events::op_cid(op) == events::op_cid(other),
{
}

/// A commit has one line for each of its operations, in their order. The record
/// on a line is the JSON of the block that the commit's archive holds under the
/// operation's CID; it is null where the archive has no such block, and where
/// the operation has no CID.
pub proof fn law_op_records_are_the_blocks(
    payload: Tree,
    header: Seq<u8>,
    entries: Seq<(Seq<u8>, Seq<u8>)>,
    ops: Seq<Tree>,
    i: int,
    cid: Seq<u8>,
)
    requires
        cbor::field_of(payload, "blocks"@) == Some(
            Tree::Bytes(car::laws::archive(header, entries)),
        ),
        cbor::field_of(payload, "ops"@) == Some(Tree::Array(ops)),
        header.len() < 0x1_0000_0000_0000_0000,
        car::laws::well_formed(entries),
        0 <= i < ops.len(),
    ensures
        ({
            let lines = events::ops_lines(payload)->Ok_0;
            let record = lines[i]->Object_0["record"@];
            let link = Some(Tree::Tag(42, Box::new(Tree::Bytes(seq![0u8] + cid))));
            &&& events::ops_lines(payload) is Ok
            &&& lines.len() == ops.len()
            &&& lines[i] == events::op_object(payload, ops[i], record)
            &&& cbor::field_of(ops[i], "cid"@) == link ==> {
                &&& forall|k: int|
                    0 <= k < entries.len() && (#[trigger] entries[k]).0 == cid && (forall|m: int|
                        k < m < entries.len() ==> (#[trigger] entries[m]).0 != cid) ==> record
                        == shown_block(entries[k].1)
                &&& (forall|k: int| 0 <= k < entries.len() ==> (#[trigger] entries[k]).0 != cid)
                    ==> record is Null
            }
            &&& !(cbor::field_of(ops[i], "cid"@) matches Some(Tree::Tag(42, inner)) && *inner
                is Bytes) ==> record is Null
        }),
{
    car::laws::law_blocks_are_read_back(header, entries);
    let all = assoc::collect(entries);
    let lines = events::ops_lines(payload)->Ok_0;
    let record = events::op_record(all, events::op_cid(ops[i]));
    assert(lines[i] == events::op_object(payload, ops[i], record));
    law_op_line_shows_the_operation(payload, ops[i], record);
    law_op_cid_is_the_link(payload, ops[i], record, cid);
    assert forall|k: int|
        0 <= k < entries.len() && (#[trigger] entries[k]).0 == cid && (forall|m: int|
            k < m < entries.len() ==> (#[trigger] entries[m]).0 != cid) implies all.contains_key(
        cid,
    ) && all[cid] == entries[k].1 by {
        assoc::law_last_entry_stands(entries, k);
    }
    if forall|k: int| 0 <= k < entries.len() ==> (#[trigger] entries[k]).0 != cid {
        if all.contains_key(cid) {
            assoc::lemma_collect_from(entries, cid);
        }
    }
}

/// The JSON of what a block decodes to; null where it does not decode.
pub open spec fn shown_block(block: Seq<u8>) -> JsonTree {
    match cbor::cbor_item(block) {
        Some((tree, _)) => json::json_of(tree),
        None => JsonTree::Null,
    }
}

/// A commit without blocks or without operations gives no lines, and says which
/// are missing.
pub proof fn law_commit_must_have_blocks_and_ops(payload: Tree)
    ensures
        !(cbor::field_of(payload, "blocks"@) matches Some(Tree::Bytes(_))) ==> events::ops_lines(
            payload,
        ) == Err::<Seq<JsonTree>, OpsError>(OpsError::MissingBlocks),
        cbor::field_of(payload, "blocks"@) matches Some(Tree::Bytes(b)) ==> (car::blocks_of(
            b,
        ) matches Err(e) ==> events::ops_lines(payload) == Err::<Seq<JsonTree>, OpsError>(
            OpsError::Car(e),
        )),
        cbor::field_of(payload, "blocks"@) matches Some(Tree::Bytes(b)) ==> (car::blocks_of(b) is Ok
            && !(cbor::field_of(payload, "ops"@) matches Some(Tree::Array(_))) ==> events::ops_lines(
            payload,
        ) == Err::<Seq<JsonTree>, OpsError>(OpsError::MissingOps)),
{
}

proof fn lemma_event_keys()
    ensures
        "t"@.len() == 1,
        "seq"@.len() == 3,
        "raw"@.len() == 3,
        "seq"@ != "raw"@,
        "group"@.len() == 5,
        "header"@.len() == 6,
        "payload"@.len() == 7,
{
    reveal_strlit("t");
    reveal_strlit("seq");
    reveal_strlit("group");
    reveal_strlit("raw");
    reveal_strlit("header");
    reveal_strlit("payload");
    assert("seq"@[0] == 's' && "raw"@[0] == 'r');
}

/// The line of an event shows its type and its sequence number, the group that
/// it came in where it came in one, and either its bytes in base64 or its header
/// and its payload; and nothing else.
pub proof fn law_event_line_shows_the_event(
    t: Option<Seq<char>>,
    seq: Option<int>,
    group: Option<u64>,
    raw: Option<Seq<u8>>,
    header: Tree,
    payload: Tree,
)
    ensures
        ({
            let line = events::event_object(t, seq, group, raw, header, payload)->Object_0;
            let outline = events::tail_entries(t, seq, group, raw);
            &&& events::event_object(t, seq, group, raw, header, payload) is Object
            &&& line["t"@] == (match t {
                Some(s) => JsonTree::Text(s),
                None => JsonTree::Null,
            })
            &&& line["seq"@] == (match seq {
                Some(n) => JsonTree::Int(n),
                None => JsonTree::Null,
            })
            &&& line.contains_key("group"@) <==> group is Some
            &&& group matches Some(g) ==> line["group"@] == JsonTree::Int(g as int)
            &&& line.contains_key("raw"@) <==> raw is Some
            &&& raw matches Some(b) ==> line["raw"@] == JsonTree::Text(encoding::base64_text(b))
            &&& line.contains_key("header"@) <==> raw is None
            &&& line.contains_key("payload"@) <==> raw is None
            &&& raw is None ==> line["header"@] == json::json_of(header)
            &&& raw is None ==> line["payload"@] == json::json_of(payload)
            &&& forall|key: Seq<char>| #[trigger]
                line.contains_key(key) ==> set![
                    "t"@, "seq"@, "group"@, "raw"@, "header"@, "payload"@,
                ].contains(key)
            &&& outline == line.remove("header"@).remove("payload"@)
        }),
{
    lemma_event_keys();
    let line = events::event_object(t, seq, group, raw, header, payload)->Object_0;
    assert(events::tail_entries(t, seq, group, raw) =~= line.remove("header"@).remove(
        "payload"@,
    ));
}

/// An event that was not seen before gives one line, and counts for one; with
/// `ops` a commit gives the lines of its operations, and counts for as many, and
/// any other event gives none.
pub proof fn law_new_events_are_printed(
    log: EventLog,
    options: EventOptions,
    group: Option<u64>,
    raw: Seq<u8>,
    header: Tree,
    payload: Tree,
)
    requires
        !options.quiet,
        log.count < 0x1_0000_0000,
        frame::fields_of(header, payload) matches Ok(fields) && (fields.seq matches Some(n) ==> n
            > log.last_seq),
    ensures
        ({
            let fields = frame::fields_of(header, payload)->Ok_0;
            let (after, output, _) = events::decoded_step(
                log,
                options,
                group,
                raw,
                header,
                payload,
            );
            let shown = if options.raw {
                Some(raw)
            } else {
                None
            };
            let line = events::event_object(fields.t, fields.seq, group, shown, header, payload);
            &&& !options.ops ==> output == Output::Lines(seq![line]) && (log.count < usize::MAX
                ==> after.count == log.count + 1)
            &&& options.ops && fields.t == Some("#commit"@) ==> (match events::ops_lines(payload) {
                Ok(lines) => output == Output::Lines(lines) && (log.count + lines.len()
                    <= usize::MAX ==> after.count == log.count + lines.len()),
                Err(e) => output == Output::OpsFailed(e) && after.count == log.count,
            })
            &&& options.ops && fields.t != Some("#commit"@) ==> output == Output::Lines(
                Seq::empty(),
            ) && after.count == log.count
            &&& fields.seq is None ==> after.last_seq == log.last_seq
        }),
{
}

/// A tail shows a frame's bytes unless it is told not to, and reads of a frame
/// that does not parse neither type nor sequence number.
pub proof fn law_tail_shows_the_frame(options: TailOptions, raw: Seq<u8>)
    ensures
        events::shown(options, raw) == (if options.no_raw {
            None
        } else {
            Some(raw)
        }),
        frame::lenient::parsed(raw) is Err ==> events::read_or_nothing(frame::lenient::parsed(raw))
            == (None::<Seq<char>>, None::<int>),
        frame::lenient::parsed(raw) matches Ok(fields) ==> events::read_or_nothing(
            frame::lenient::parsed(raw),
        ) == (fields.t, fields.seq),
{
}

/// A frame that is no frame is skipped, for what is wrong with it; any other is
/// printed by its header and its payload.
pub proof fn law_frames_are_printed_by_their_parts(
    log: EventLog,
    options: EventOptions,
    group: Option<u64>,
    raw: Seq<u8>,
)
    ensures
        frame::parsed(raw) matches Err(e) ==> events::event_step(log, options, group, raw) == (
            log,
            Output::Skipped(e),
            false,
        ),
        frame::decoded(raw) matches Ok((header, payload)) ==> events::event_step(
            log,
            options,
            group,
            raw,
        ) == events::decoded_step(log, options, group, raw, header, payload),
{
}

/// What is printed stands for the lines themselves, in order.
pub proof fn law_printed_lines_are_the_lines(
    lines: Vec<serde_json::Value>,
    e: FrameError,
    ops: OpsError,
    raw: &[u8],
    i: int,
)
    ensures
        Printed::Lines(lines)@ matches Output::Lines(trees) && trees.len() == lines@.len() && (0
            <= i < lines@.len() ==> trees[i] == json::json_tree(lines@[i])),
        Printed::Skipped(e)@ == Output::Skipped(e@),
        Printed::Duplicate@ is Duplicate,
        Printed::OpsFailed(ops)@ == Output::OpsFailed(ops),
        events::trees(lines@).len() == lines@.len(),
        0 <= i < lines@.len() ==> events::trees(lines@)[i] == json::json_tree(lines@[i]),
        events::bytes_of(Some(raw)) == Some(raw@),
        events::bytes_of(None) is None,
{
}

/// A commit that cannot be printed says what is missing.
pub proof fn law_ops_errors_say_what_is_wrong(e: CarError)
    ensures
        OpsError::MissingBlocks.text() == "commit missing blocks"@,
        OpsError::MissingOps.text() == "commit missing ops"@,
        OpsError::Car(e).text() == e.text(),
{
}

} // verus!
