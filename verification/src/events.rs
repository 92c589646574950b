//! What `atmoq firehose` prints: one JSON line per event, or one per record
//! operation of a commit.

pub mod laws;

use vstd::prelude::*;

use crate::car;
use crate::car::{blocks, Blocks, CarError};
use crate::cbor;
use crate::cbor::{decode_item, field, Cbor, Tree};
use crate::encoding;
use crate::encoding::to_base64;
use crate::frame;
use crate::frame::{
    lenient, read_fields, read_integer, read_text, Fields, Frame, FrameError, Refusal,
};
use crate::json;
use crate::json::{
    cbor_to_json, cid_string, make, no_entries, put, strip_zero, JsonTree, Piece,
};
use crate::text::{push_text, same_text};

verus! {

/// A text, or null.
pub open spec fn text_or_null(s: Option<Seq<char>>) -> JsonTree {
    match s {
        Some(s) => JsonTree::Text(s),
        None => JsonTree::Null,
    }
}

/// An integer, or null.
pub open spec fn int_or_null(n: Option<int>) -> JsonTree {
    match n {
        Some(n) => JsonTree::Int(n),
        None => JsonTree::Null,
    }
}

fn make_text(s: Option<String>) -> (r: serde_json::Value)
    ensures
        json::json_tree(r) == text_or_null(frame::text_of(s)),
{
    match s {
        Some(s) => make(Piece::Text(s)),
        None => make(Piece::Null),
    }
}

fn make_int(n: Option<i64>) -> (r: serde_json::Value)
    ensures
        json::json_tree(r) == int_or_null(frame::int_of(n)),
{
    match n {
        Some(n) => make(Piece::Int(n)),
        None => make(Piece::Null),
    }
}

/// Why the operations of a commit could not be printed.
#[derive(Debug, PartialEq, Eq)]
pub enum OpsError {
    /// The commit has no `blocks`.
    MissingBlocks,
    /// The commit's blocks are no archive.
    Car(CarError),
    /// The commit has no `ops`.
    MissingOps,
}

impl OpsError {
    /// The line of text that says what was wrong.
    pub open spec fn text(self) -> Seq<char> {
        match self {
            OpsError::MissingBlocks => "commit missing blocks"@,
            OpsError::Car(e) => e.text(),
            OpsError::MissingOps => "commit missing ops"@,
        }
    }

    /// What was wrong, as one line of text.
    pub fn to_text(&self) -> (r: String)
        ensures
            r@ == self.text(),
    {
        let mut out = String::new();
        match self {
            OpsError::MissingBlocks => push_text(&mut out, "commit missing blocks"),
            OpsError::Car(e) => push_text(&mut out, e.to_text().as_str()),
            OpsError::MissingOps => push_text(&mut out, "commit missing ops"),
        }
        proof {
            assert(out@ =~= self.text());
        }
        out
    }
}

/// The CID that an operation names: the bytes of its link, without the 0x00
/// before them.
pub open spec fn op_cid(op: Tree) -> Option<Seq<u8>> {
    match cbor::field_of(op, "cid"@) {
        Some(Tree::Tag(tag, inner)) => match *inner {
            Tree::Bytes(b) => if tag == 42 {
                Some(json::stripped(b))
            } else {
                None
            },
            _ => None,
        },
        _ => None,
    }
}

/// The record that a block holds.
pub open spec fn record_json(block: Seq<u8>) -> JsonTree {
    match cbor::cbor_item(block) {
        Some((tree, _)) => json::json_of(tree),
        None => JsonTree::Null,
    }
}

/// The record under `cid` among `all`; null where there is none.
pub open spec fn op_record(all: Map<Seq<u8>, Seq<u8>>, cid: Option<Seq<u8>>) -> JsonTree {
    match cid {
        Some(c) => if all.contains_key(c) {
            record_json(all[c])
        } else {
            JsonTree::Null
        },
        None => JsonTree::Null,
    }
}

/// The line of one operation of a commit, given the record that it writes.
pub open spec fn op_object(payload: Tree, op: Tree, record: JsonTree) -> JsonTree {
    JsonTree::Object(
        Map::empty()
            .insert("action"@, text_or_null(frame::text_field(op, "action"@)))
            .insert("path"@, text_or_null(frame::text_field(op, "path"@)))
            .insert(
                "cid"@,
                match op_cid(op) {
                    Some(c) => JsonTree::Text(json::cid_text(c)),
                    None => JsonTree::Null,
                },
            )
            .insert("record"@, record)
            .insert("seq"@, int_or_null(frame::integer_field(payload, "seq"@)))
            .insert("repo"@, text_or_null(frame::text_field(payload, "repo"@)))
            .insert("rev"@, text_or_null(frame::text_field(payload, "rev"@)))
            .insert("time"@, text_or_null(frame::text_field(payload, "time"@))),
    )
}

/// The lines of all operations of a commit.
pub open spec fn ops_lines(payload: Tree) -> Result<Seq<JsonTree>, OpsError> {
    match cbor::field_of(payload, "blocks"@) {
        Some(Tree::Bytes(archive)) => match car::blocks_of(archive) {
            Err(e) => Err(OpsError::Car(e)),
            Ok(all) => match cbor::field_of(payload, "ops"@) {
                Some(Tree::Array(ops)) => Ok(
                    ops.map_values(
                        |op: Tree| op_object(payload, op, op_record(all, op_cid(op))),
                    ),
                ),
                _ => Err(OpsError::MissingOps),
            },
        },
        _ => Err(OpsError::MissingBlocks),
    }
}

/// JSON values by what they hold.
pub open spec fn trees(values: Seq<serde_json::Value>) -> Seq<JsonTree> {
    values.map_values(|v: serde_json::Value| json::json_tree(v))
}

fn read_op_cid(op: &Cbor) -> (r: Option<&[u8]>)
    ensures
        match (r, op_cid(op@)) {
            (Some(a), Some(b)) => a@ == b,
            (None, None) => true,
            _ => false,
        },
{
    match field(op, "cid") {
        Some(Cbor::Tag(tag, inner)) => {
            proof {
                assert(inner@ is Bytes == **inner is Bytes);
            }
            if *tag != 42 {
                return None;
            }
            match &**inner {
                Cbor::Bytes(b) => {
                    proof {
                        assert(inner@ == Tree::Bytes(b@));
                    }
                    Some(strip_zero(b.as_slice()))
                },
                _ => None,
            }
        },
        _ => None,
    }
}

fn read_record(all: &Blocks, cid: Option<&[u8]>) -> (r: serde_json::Value)
    ensures
        json::json_tree(r) == op_record(all@, bytes_of(cid)),
{
    match cid {
        Some(c) => match all.get(c) {
            Some(block) => match decode_item(block.as_slice()) {
                Ok((v, _)) => {
                    proof {
                        json::laws::law_nan_bits_do_not_show(v@);
                    }
                    cbor_to_json(&v)
                },
                Err(_) => make(Piece::Null),
            },
            None => make(Piece::Null),
        },
        None => make(Piece::Null),
    }
}

/// The line of one operation of a commit, given the record that it writes.
pub fn op_line(payload: &Cbor, op: &Cbor, record: serde_json::Value) -> (r: serde_json::Value)
    ensures
        json::json_tree(r) == op_object(payload@, op@, json::json_tree(record)),
{
    let cid = match read_op_cid(op) {
        Some(c) => make(Piece::Text(cid_string(c))),
        None => make(Piece::Null),
    };
    let mut line = no_entries();
    put(&mut line, "action", make_text(read_text(op, "action")));
    put(&mut line, "path", make_text(read_text(op, "path")));
    put(&mut line, "cid", cid);
    put(&mut line, "record", record);
    put(&mut line, "seq", make_int(read_integer(payload, "seq")));
    put(&mut line, "repo", make_text(read_text(payload, "repo")));
    put(&mut line, "rev", make_text(read_text(payload, "rev")));
    put(&mut line, "time", make_text(read_text(payload, "time")));
    line
}

/// goat-style `--ops`: one line per record operation in a #commit, with the
/// record decoded from the message's CAR blocks.
pub fn print_ops(payload: &Cbor) -> (r: Result<Vec<serde_json::Value>, OpsError>)
    ensures
        match (r, ops_lines(payload@)) {
            (Ok(lines), Ok(expected)) => trees(lines@) == expected,
            (Err(x), Err(y)) => x == y,
            _ => false,
        },
{
    let archive = match field(payload, "blocks") {
        Some(Cbor::Bytes(b)) => b,
        _ => {
            return Err(OpsError::MissingBlocks);
        },
    };
    let all = match blocks(archive.as_slice()) {
        Ok(all) => all,
        Err(e) => {
            return Err(OpsError::Car(e));
        },
    };
    let found = field(payload, "ops");
    let ops = match found {
        Some(Cbor::Array(ops)) => ops,
        _ => {
            return Err(OpsError::MissingOps);
        },
    };
    let ghost expected = ops_lines(payload@)->Ok_0;
    let mut lines: Vec<serde_json::Value> = Vec::new();
    let mut i: usize = 0;
    while i < ops.len()
        invariant
            i <= ops@.len(),
            lines@.len() == i,
            expected.len() == ops@.len(),
            forall|k: int|
                0 <= k < ops@.len() ==> #[trigger] expected[k] == op_object(
                    payload@,
                    ops@[k]@,
                    op_record(all@, op_cid(ops@[k]@)),
                ),
            forall|k: int| 0 <= k < i ==> json::json_tree(#[trigger] lines@[k]) == expected[k],
        decreases ops@.len() - i,
    {
        let op = &ops[i];
        let record = read_record(&all, read_op_cid(op));
        lines.push(op_line(payload, op, record));
        i = i + 1;
    }
    proof {
        assert(trees(lines@) =~= expected);
    }
    Ok(lines)
}

/// How events are printed.
#[derive(Debug, Clone, Copy)]
pub struct EventOptions {
    /// Print individual record operations instead of whole events.
    pub ops: bool,
    /// Don't print event payloads, just type/seq; of operations, print none.
    pub quiet: bool,
    /// Include raw frame bytes as base64 in output.
    pub raw: bool,
    /// Finish after this many events (0 = run forever).
    pub limit: usize,
}

/// Where printing stands.
#[derive(Debug, Clone, Copy, PartialEq, Eq)]
pub struct EventLog {
    /// The highest sequence number seen.
    pub last_seq: i64,
    /// How many events, or operations, were counted.
    pub count: usize,
}

/// What became of a frame.
#[derive(Debug)]
pub enum Printed {
    /// It is no frame.
    Skipped(FrameError),
    /// It was seen before.
    Duplicate,
    /// These lines are to be printed.
    Lines(Vec<serde_json::Value>),
    /// Its operations could not be read.
    OpsFailed(OpsError),
}

/// What a [`Printed`] stands for.
pub enum Output {
    Skipped(Refusal),
    Duplicate,
    Lines(Seq<JsonTree>),
    OpsFailed(OpsError),
}

impl Printed {
    pub open spec fn view(self) -> Output {
        match self {
            Printed::Skipped(e) => Output::Skipped(e@),
            Printed::Duplicate => Output::Duplicate,
            Printed::Lines(lines) => Output::Lines(trees(lines@)),
            Printed::OpsFailed(e) => Output::OpsFailed(e),
        }
    }
}

/// The outline of an event: its type, its sequence number, the MoQ group it
/// came in where it came in one, and its bytes where they are shown.
pub open spec fn tail_entries(
    t: Option<Seq<char>>,
    seq: Option<int>,
    group: Option<u64>,
    raw: Option<Seq<u8>>,
) -> Map<Seq<char>, JsonTree> {
    let base = Map::empty().insert("t"@, text_or_null(t)).insert("seq"@, int_or_null(seq));
    let grouped = match group {
        Some(g) => base.insert("group"@, JsonTree::Int(g as int)),
        None => base,
    };
    match raw {
        Some(bytes) => grouped.insert("raw"@, JsonTree::Text(encoding::base64_text(bytes))),
        None => grouped,
    }
}

/// The line of an event: its outline, with its bytes or with what they hold.
pub open spec fn event_object(
    t: Option<Seq<char>>,
    seq: Option<int>,
    group: Option<u64>,
    raw: Option<Seq<u8>>,
    header: Tree,
    payload: Tree,
) -> JsonTree {
    let outline = tail_entries(t, seq, group, raw);
    JsonTree::Object(
        match raw {
            Some(_) => outline,
            None => outline.insert("header"@, json::json_of(header)).insert(
                "payload"@,
                json::json_of(payload),
            ),
        },
    )
}

/// An event at or below the highest sequence number seen was seen before.
pub open spec fn is_replay(log: EventLog, seq: Option<int>) -> bool {
    seq matches Some(n) && n <= log.last_seq
}

/// The log once an event with this sequence number was seen.
pub open spec fn noted(log: EventLog, seq: Option<int>) -> EventLog {
    match seq {
        Some(n) => EventLog { last_seq: n as i64, ..log },
        None => log,
    }
}

/// What is printed of an event that was not seen before, and how many it
/// counts for.
pub open spec fn event_output(
    options: EventOptions,
    t: Option<Seq<char>>,
    seq: Option<int>,
    group: Option<u64>,
    raw: Seq<u8>,
    header: Tree,
    payload: Tree,
) -> (Output, nat) {
    if options.ops {
        if t == Some("#commit"@) {
            match ops_lines(payload) {
                Ok(lines) => (
                    Output::Lines(
                        if options.quiet {
                            Seq::empty()
                        } else {
                            lines
                        },
                    ),
                    lines.len(),
                ),
                Err(e) => (Output::OpsFailed(e), 0),
            }
        } else {
            (Output::Lines(Seq::empty()), 0)
        }
    } else if options.quiet {
        (Output::Lines(seq![JsonTree::Object(tail_entries(t, seq, None, None))]), 1)
    } else {
        let shown = if options.raw {
            Some(raw)
        } else {
            None
        };
        (Output::Lines(seq![event_object(t, seq, group, shown, header, payload)]), 1)
    }
}

/// What becomes of a frame with this header and this payload: the log after
/// it, what is printed, and whether that was the last.
pub open spec fn decoded_step(
    log: EventLog,
    options: EventOptions,
    group: Option<u64>,
    raw: Seq<u8>,
    header: Tree,
    payload: Tree,
) -> (EventLog, Output, bool) {
    match frame::fields_of(header, payload) {
        Err(refusal) => (log, Output::Skipped(refusal), false),
        Ok(fields) => if is_replay(log, fields.seq) {
            (log, Output::Duplicate, false)
        } else {
            let (output, n) = event_output(
                options,
                fields.t,
                fields.seq,
                group,
                raw,
                header,
                payload,
            );
            let seen = noted(log, fields.seq);
            let count = seen.count.wrapping_add(n as usize);
            (
                EventLog { count, ..seen },
                output,
                options.limit > 0 && count >= options.limit,
            )
        },
    }
}

/// What becomes of a frame: the log after it, what is printed, and whether
/// that was the last.
pub open spec fn event_step(
    log: EventLog,
    options: EventOptions,
    group: Option<u64>,
    raw: Seq<u8>,
) -> (EventLog, Output, bool) {
    match frame::decoded(raw) {
        Err(refusal) => (log, Output::Skipped(refusal), false),
        Ok((header, payload)) => decoded_step(log, options, group, raw, header, payload),
    }
}

/// The line of an event.
pub fn event_line(
    t: Option<String>,
    seq: Option<i64>,
    group: Option<u64>,
    raw: Option<&[u8]>,
    header: &Cbor,
    payload: &Cbor,
) -> (r: serde_json::Value)
    ensures
        json::json_tree(r) == event_object(
            frame::text_of(t),
            frame::int_of(seq),
            group,
            bytes_of(raw),
            header@,
            payload@,
        ),
{
    let mut line = outline(t, seq, group, raw);
    if raw.is_none() {
        put(&mut line, "header", cbor_to_json(header));
        put(&mut line, "payload", cbor_to_json(payload));
    }
    line
}

/// The line of a tailed frame: its outline alone.
pub fn tail_line(
    t: Option<String>,
    seq: Option<i64>,
    group: Option<u64>,
    raw: Option<&[u8]>,
) -> (r: serde_json::Value)
    ensures
        json::json_tree(r) == JsonTree::Object(
            tail_entries(frame::text_of(t), frame::int_of(seq), group, bytes_of(raw)),
        ),
{
    outline(t, seq, group, raw)
}

/// Bytes that may be missing.
pub open spec fn bytes_of(raw: Option<&[u8]>) -> Option<Seq<u8>> {
    match raw {
        Some(bytes) => Some(bytes@),
        None => None,
    }
}

fn outline(
    t: Option<String>,
    seq: Option<i64>,
    group: Option<u64>,
    raw: Option<&[u8]>,
) -> (r: serde_json::Value)
    ensures
        json::json_tree(r) == JsonTree::Object(
            tail_entries(frame::text_of(t), frame::int_of(seq), group, bytes_of(raw)),
        ),
{
    let mut line = no_entries();
    put(&mut line, "t", make_text(t));
    put(&mut line, "seq", make_int(seq));
    if let Some(g) = group {
        put(&mut line, "group", make(Piece::Count(g)));
    }
    if let Some(bytes) = raw {
        put(&mut line, "raw", make(Piece::Text(to_base64(bytes))));
    }
    line
}

fn is_commit(t: &Option<String>) -> (r: bool)
    ensures
        r == (frame::text_of(*t) == Some("#commit"@)),
{
    match t {
        Some(s) => same_text(s.as_str(), "#commit"),
        None => false,
    }
}

impl EventLog {
    /// Nothing seen yet.
    pub fn new() -> (r: EventLog)
        ensures
            r == (EventLog { last_seq: i64::MIN, count: 0 }),
    {
        EventLog { last_seq: i64::MIN, count: 0 }
    }

    fn output(
        options: &EventOptions,
        t: Option<String>,
        seq: Option<i64>,
        group: Option<u64>,
        raw: &[u8],
        header: &Cbor,
        payload: &Cbor,
    ) -> (r: (Printed, usize))
        ensures
            ({
                let (output, n) = event_output(
                    *options,
                    frame::text_of(t),
                    frame::int_of(seq),
                    group,
                    raw@,
                    header@,
                    payload@,
                );
                r.0@ == output && r.1 == n
            }),
    {
        if options.ops {
            if is_commit(&t) {
                match print_ops(payload) {
                    Ok(lines) => {
                        let n = lines.len();
                        if options.quiet {
                            let none: Vec<serde_json::Value> = Vec::new();
                            proof {
                                assert(trees(none@) =~= Seq::empty());
                            }
                            (Printed::Lines(none), n)
                        } else {
                            (Printed::Lines(lines), n)
                        }
                    },
                    Err(e) => (Printed::OpsFailed(e), 0),
                }
            } else {
                let none: Vec<serde_json::Value> = Vec::new();
                proof {
                    assert(trees(none@) =~= Seq::empty());
                }
                (Printed::Lines(none), 0)
            }
        } else {
            let mut lines: Vec<serde_json::Value> = Vec::new();
            if options.quiet {
                lines.push(tail_line(t, seq, None, None));
            } else {
                let shown = if options.raw {
                    Some(raw)
                } else {
                    None
                };
                lines.push(event_line(t, seq, group, shown, header, payload));
            }
            proof {
                let expected = event_output(
                    *options,
                    frame::text_of(t),
                    frame::int_of(seq),
                    group,
                    raw@,
                    header@,
                    payload@,
                ).0;
                assert(trees(lines@) =~= expected->Lines_0);
            }
            (Printed::Lines(lines), 1)
        }
    }

    /// Takes a decoded frame; says what to print, and whether that was the last.
    pub fn decoded_event(
        &mut self,
        options: &EventOptions,
        group: Option<u64>,
        raw: &[u8],
        header: &Cbor,
        payload: &Cbor,
    ) -> (r: (Printed, bool))
        ensures
            ({
                let (log, output, last) = decoded_step(
                    *old(self),
                    *options,
                    group,
                    raw@,
                    header@,
                    payload@,
                );
                *final(self) == log && r.0@ == output && r.1 == last
            }),
    {
        let (_, t, seq) = match read_fields(header, payload) {
            Ok(fields) => fields,
            Err(e) => {
                return (Printed::Skipped(e), false);
            },
        };
        if let Some(n) = seq {
            if n <= self.last_seq {
                return (Printed::Duplicate, false);
            }
            self.last_seq = n;
        }
        let (printed, n) = EventLog::output(options, t, seq, group, raw, header, payload);
        self.count = self.count.wrapping_add(n);
        (printed, options.limit > 0 && self.count >= options.limit)
    }

    /// Takes a frame, from MoQ group `group` where it came in one: says what to
    /// print, and whether that was the last. Frames that do not parse are
    /// skipped, and so are those at or below the highest sequence number seen
    /// (a group replayed after a resubscribe).
    pub fn event(&mut self, options: &EventOptions, group: Option<u64>, raw: &[u8]) -> (r: (
        Printed,
        bool,
    ))
        ensures
            ({
                let (log, output, last) = event_step(*old(self), *options, group, raw@);
                *final(self) == log && r.0@ == output && r.1 == last
            }),
    {
        match Frame::decode(raw) {
            Ok((header, payload)) => self.decoded_event(options, group, raw, &header, &payload),
            Err(e) => (Printed::Skipped(e), false),
        }
    }
}

/// How a tail prints.
#[derive(Debug, Clone, Copy)]
pub struct TailOptions {
    /// Finish after this many frames (0 = run forever).
    pub limit: usize,
    /// Omit raw bytes from output.
    pub no_raw: bool,
}

/// Where a tail stands: how many frames it has printed.
#[derive(Debug, Clone, Copy, PartialEq, Eq)]
pub struct TailLog {
    pub count: usize,
}

/// The tail after another frame, and whether that was the last.
pub open spec fn tail_step(log: TailLog, options: TailOptions) -> (TailLog, bool) {
    let count = log.count.wrapping_add(1);
    (TailLog { count }, options.limit > 0 && count >= options.limit)
}

/// The bytes that a tail shows.
pub open spec fn shown(options: TailOptions, raw: Seq<u8>) -> Option<Seq<u8>> {
    if options.no_raw {
        None
    } else {
        Some(raw)
    }
}

/// What is read of a frame for its line, given what parsing it gave: nothing
/// where it does not parse.
pub open spec fn read_or_nothing(parsed: Result<Fields, Refusal>) -> (
    Option<Seq<char>>,
    Option<int>,
) {
    match parsed {
        Ok(fields) => (fields.t, fields.seq),
        Err(_) => (None, None),
    }
}

impl TailLog {
    /// Nothing printed yet.
    pub fn new() -> (r: TailLog)
        ensures
            r == (TailLog { count: 0 }),
    {
        TailLog { count: 0 }
    }

    /// Takes a frame of this type and sequence number: the line to print, and
    /// whether that was the last.
    pub fn frame(
        &mut self,
        options: &TailOptions,
        t: Option<String>,
        seq: Option<i64>,
        group: Option<u64>,
        raw: &[u8],
    ) -> (r: (serde_json::Value, bool))
        ensures
            *final(self) == tail_step(*old(self), *options).0,
            r.1 == tail_step(*old(self), *options).1,
            json::json_tree(r.0) == JsonTree::Object(
                tail_entries(
                    frame::text_of(t),
                    frame::int_of(seq),
                    group,
                    shown(*options, raw@),
                ),
            ),
    {
        self.count = self.count.wrapping_add(1);
        let bytes = if options.no_raw {
            None
        } else {
            Some(raw)
        };
        (tail_line(t, seq, group, bytes), options.limit > 0 && self.count >= options.limit)
    }

    /// Takes a frame as it came in MoQ group `group`, read without the DRISL
    /// rules: the line to print, whether that was the last, and what was wrong
    /// with a frame that does not parse (its line has neither type nor sequence
    /// number).
    pub fn raw_frame(&mut self, options: &TailOptions, group: u64, raw: Vec<u8>) -> (r: (
        serde_json::Value,
        bool,
        Option<FrameError>,
    ))
        ensures
            *final(self) == tail_step(*old(self), *options).0,
            r.1 == tail_step(*old(self), *options).1,
            ({
                let (t, seq) = read_or_nothing(lenient::parsed(raw@));
                json::json_tree(r.0) == JsonTree::Object(
                    tail_entries(t, seq, Some(group), shown(*options, raw@)),
                )
            }),
            match (r.2, lenient::parsed(raw@)) {
                (Some(e), Err(refusal)) => e@.in_short() == refusal,
                (None, Ok(_)) => true,
                _ => false,
            },
    {
        let (header, payload) = match lenient::Frame::decode(raw.as_slice()) {
            Ok(decoded) => decoded,
            Err(e) => {
                let (line, last) = self.frame(options, None, None, Some(group), raw.as_slice());
                return (line, last, Some(e));
            },
        };
        proof {
            lenient::lemma_settled_fields(header@, payload@);
        }
        match read_fields(&header, &payload) {
            Ok((_, t, seq)) => {
                let (line, last) = self.frame(options, t, seq, Some(group), raw.as_slice());
                (line, last, None)
            },
            Err(e) => {
                let (line, last) = self.frame(options, None, None, Some(group), raw.as_slice());
                (line, last, Some(e))
            },
        }
    }
}

} // verus!
