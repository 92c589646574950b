//! Process metrics in Prometheus text exposition format.
//!
//! Scraped by VictoriaMetrics from the admin listener (`--metrics-bind`), which
//! is deliberately *not* the public :80/:443 landing page: `serve` faces the
//! open internet, and subscriber counts / cursor position / store size are
//! operational detail, not public information. Bind it to a private interface.
//!
//! Everything here is a plain counter or gauge. The exposition format for
//! counters and gauges is three lines of text per metric, so a client crate
//! would buy escaping rules we don't need: no dynamic labels, every series
//! here is label-free.
//!
//! Counters are monotonic and never reset within a process lifetime. Pairs like
//! `subscribers_connected_total` / `subscribers_disconnected_total` are exposed
//! rather than a single gauge so a scrape gap can't lose an increment: the
//! live count is the difference, computed in the query
//! (`atmoq_subscribers_connected_total - atmoq_subscribers_disconnected_total`),
//! and `atmoq_subscribers_live` is also exported directly for convenience.

pub mod laws;

use vstd::prelude::*;

use crate::seconds;
use crate::seconds::push_seconds_millis;
use crate::text;
use crate::text::{chars_of, parse_u64, push_decimal, push_signed, push_text, split_word};

verus! {

/// All relay counters.
#[derive(Debug)]
pub struct Metrics {
    // -- upstream ingest --------------------------------------------------
    /// Frames accepted from upstream and republished.
    pub frames_total: u64,
    /// Frames rejected at ingest for invalid DRISL / shape (see [`crate::drisl`]).
    pub frames_rejected_total: u64,
    /// Frames dropped as at-or-below the persisted cursor (reconnect replay).
    pub frames_dropped_below_cursor_total: u64,
    /// Upstream error frames (op == -1) received.
    pub upstream_error_frames_total: u64,
    /// Upstream websocket connects (first connect counted, so reconnects = n-1).
    pub upstream_connects_total: u64,
    /// Latest upstream sequence number seen. The lag-vs-upstream signal: compare
    /// against another relay's value, or watch it stop advancing.
    pub upstream_seq: i64,
    /// Wall-clock ms of the last relayed frame. Drives the liveness check: "the
    /// process is up" and "the firehose is flowing" are different claims, and
    /// only this one distinguishes them.
    pub last_frame_unix_ms: u64,
    // -- MoQ publish ------------------------------------------------------
    /// Groups rotated (i.e. completed and published).
    pub groups_total: u64,
    /// Sequence of the most recently created group.
    pub group_seq: u64,
    // -- subscribers ------------------------------------------------------
    /// Sessions accepted. QUIC multiplexes every subscriber onto one UDP socket,
    /// so this count is not recoverable from outside the process: if it isn't
    /// counted here it cannot be known at all.
    pub subscribers_connected_total: u64,
    /// Sessions closed, for any reason.
    pub subscribers_disconnected_total: u64,
    /// Sessions rejected before setup completed.
    pub subscribers_rejected_total: u64,
    // -- selective sync ---------------------------------------------------
    /// Per-DID tracks materialized on demand.
    pub did_tracks_opened_total: u64,
    /// Per-DID tracks torn down when their last subscriber left.
    pub did_tracks_closed_total: u64,
    /// Per-DID track requests refused because the cap was reached.
    pub did_tracks_refused_total: u64,
    // -- disk store -------------------------------------------------------
    /// Bytes appended to the group store.
    pub store_append_bytes_total: u64,
    /// Group appends that failed (full disk, bad volume). Replay degrades but the
    /// relay keeps serving live, so this is silent without a metric.
    pub store_append_failures_total: u64,
    /// Groups currently in the store index.
    pub store_groups_indexed: u64,
    /// Total size of store segments on disk.
    pub store_bytes: u64,
    /// Segments deleted by GC (age or size budget).
    pub store_gc_segments_removed_total: u64,
    // -- deep replay ------------------------------------------------------
    /// Groups served to resuming subscribers from disk.
    pub backfill_groups_served_total: u64,
    /// Groups a resuming subscriber asked for that the store no longer had.
    pub backfill_groups_missing_total: u64,
}

/// What a series is.
#[derive(Clone, Copy)]
pub enum Kind {
    Counter,
    Gauge,
}

/// What a series is, in words.
pub open spec fn kind_text(kind: Kind) -> Seq<char> {
    match kind {
        Kind::Counter => "counter"@,
        Kind::Gauge => "gauge"@,
    }
}

/// The lines of one series.
pub open spec fn series_text(
    name: Seq<char>,
    kind: Seq<char>,
    help: Seq<char>,
    value: Seq<char>,
) -> Seq<char> {
    "# HELP atmoq_"@ + name + " "@ + help + "\n# TYPE atmoq_"@ + name + " "@ + kind
        + "\natmoq_"@ + name + " "@ + value + "\n"@
}

/// A series that is a plain unsigned number.
pub struct Series {
    pub name: Seq<char>,
    pub kind: Kind,
    pub help: Seq<char>,
    pub value: u64,
}

impl Series {
    /// The lines of the series.
    pub open spec fn lines(self) -> Seq<char> {
        series_text(self.name, kind_text(self.kind), self.help, text::decimal(self.value as nat))
    }
}

/// A counter.
pub open spec fn counter(name: Seq<char>, help: Seq<char>, value: u64) -> Series {
    Series { name, kind: Kind::Counter, help, value }
}

/// A gauge.
pub open spec fn gauge(name: Seq<char>, help: Seq<char>, value: u64) -> Series {
    Series { name, kind: Kind::Gauge, help, value }
}

/// The lines of several series, one after the other.
pub open spec fn all_lines(all: Seq<Series>) -> Seq<char>
    decreases all.len(),
{
    if all.len() == 0 {
        Seq::empty()
    } else {
        all_lines(all.drop_last()) + all.last().lines()
    }
}

/// A row of the table of series.
struct Row {
    name: &'static str,
    kind: Kind,
    help: &'static str,
    value: u64,
}

impl Row {
    spec fn view(self) -> Series {
        Series { name: self.name@, kind: self.kind, help: self.help@, value: self.value }
    }

    fn counter(name: &'static str, help: &'static str, value: u64) -> (r: Row)
        ensures
            r@ == counter(name@, help@, value),
    {
        Row { name, kind: Kind::Counter, help, value }
    }

    fn gauge(name: &'static str, help: &'static str, value: u64) -> (r: Row)
        ensures
            r@ == gauge(name@, help@, value),
    {
        Row { name, kind: Kind::Gauge, help, value }
    }
}

/// What is left of `a` without `b`; nothing where `b` is more.
pub open spec fn live(a: u64, b: u64) -> u64 {
    if a > b {
        (a - b) as u64
    } else {
        0
    }
}

impl Metrics {
    /// Nothing has happened yet.
    pub open spec fn zero() -> Metrics {
        Metrics {
            frames_total: 0,
            frames_rejected_total: 0,
            frames_dropped_below_cursor_total: 0,
            upstream_error_frames_total: 0,
            upstream_connects_total: 0,
            upstream_seq: 0,
            last_frame_unix_ms: 0,
            groups_total: 0,
            group_seq: 0,
            subscribers_connected_total: 0,
            subscribers_disconnected_total: 0,
            subscribers_rejected_total: 0,
            did_tracks_opened_total: 0,
            did_tracks_closed_total: 0,
            did_tracks_refused_total: 0,
            store_append_bytes_total: 0,
            store_append_failures_total: 0,
            store_groups_indexed: 0,
            store_bytes: 0,
            store_gc_segments_removed_total: 0,
            backfill_groups_served_total: 0,
            backfill_groups_missing_total: 0,
        }
    }

    /// The counters after a frame was relayed at `now_ms`.
    pub open spec fn after_frame(self, seq: Option<i64>, now_ms: u64) -> Metrics {
        Metrics {
            frames_total: self.frames_total.wrapping_add(1),
            upstream_seq: match seq {
                Some(n) => n,
                None => self.upstream_seq,
            },
            last_frame_unix_ms: now_ms,
            ..self
        }
    }

    /// Subscribers that have come and not gone.
    pub open spec fn live_subscribers(self) -> u64 {
        live(self.subscribers_connected_total, self.subscribers_disconnected_total)
    }

    /// Per-DID tracks that were opened and not closed.
    pub open spec fn live_did_tracks(self) -> u64 {
        live(self.did_tracks_opened_total, self.did_tracks_closed_total)
    }

    /// Milliseconds from the last relayed frame to `now_ms`.
    pub open spec fn age_at(self, now_ms: u64) -> Option<u64> {
        if self.last_frame_unix_ms == 0 {
            None
        } else {
            Some(live(now_ms, self.last_frame_unix_ms))
        }
    }

    /// The series that are plain unsigned numbers.
    pub open spec fn table(self) -> Seq<Series> {
        seq![
            counter(
                "frames_total"@,
                "Frames relayed downstream."@,
                self.frames_total,
            ),
            counter(
                "frames_rejected_total"@,
                "Frames rejected at ingest as invalid."@,
                self.frames_rejected_total,
            ),
            counter(
                "frames_dropped_below_cursor_total"@,
                "Frames dropped as at-or-below the cursor."@,
                self.frames_dropped_below_cursor_total,
            ),
            counter(
                "upstream_error_frames_total"@,
                "Upstream error frames received."@,
                self.upstream_error_frames_total,
            ),
            counter(
                "upstream_connects_total"@,
                "Upstream websocket connections opened."@,
                self.upstream_connects_total,
            ),
            counter(
                "groups_total"@,
                "MoQ groups completed and published."@,
                self.groups_total,
            ),
            gauge(
                "group_seq"@,
                "Sequence of the most recent MoQ group."@,
                self.group_seq,
            ),
            counter(
                "subscribers_connected_total"@,
                "Subscriber sessions accepted."@,
                self.subscribers_connected_total,
            ),
            counter(
                "subscribers_disconnected_total"@,
                "Subscriber sessions closed."@,
                self.subscribers_disconnected_total,
            ),
            counter(
                "subscribers_rejected_total"@,
                "Subscriber sessions rejected during setup."@,
                self.subscribers_rejected_total,
            ),
            gauge(
                "subscribers_live"@,
                "Subscriber sessions currently connected."@,
                self.live_subscribers(),
            ),
            counter(
                "did_tracks_opened_total"@,
                "Per-DID tracks materialized."@,
                self.did_tracks_opened_total,
            ),
            counter(
                "did_tracks_closed_total"@,
                "Per-DID tracks torn down."@,
                self.did_tracks_closed_total,
            ),
            counter(
                "did_tracks_refused_total"@,
                "Per-DID track requests refused at the cap."@,
                self.did_tracks_refused_total,
            ),
            gauge(
                "did_tracks_live"@,
                "Per-DID tracks currently served."@,
                self.live_did_tracks(),
            ),
            counter(
                "store_append_bytes_total"@,
                "Bytes appended to the group store."@,
                self.store_append_bytes_total,
            ),
            counter(
                "store_append_failures_total"@,
                "Group store appends that failed."@,
                self.store_append_failures_total,
            ),
            gauge(
                "store_groups_indexed"@,
                "Groups currently in the store index."@,
                self.store_groups_indexed,
            ),
            gauge(
                "store_bytes"@,
                "Group store size on disk in bytes."@,
                self.store_bytes,
            ),
            counter(
                "store_gc_segments_removed_total"@,
                "Store segments deleted by GC."@,
                self.store_gc_segments_removed_total,
            ),
            counter(
                "backfill_groups_served_total"@,
                "Groups served from disk to resuming subscribers."@,
                self.backfill_groups_served_total,
            ),
            counter(
                "backfill_groups_missing_total"@,
                "Groups requested on resume that the store no longer had."@,
                self.backfill_groups_missing_total,
            ),
        ]
    }

    /// The lines on the last relayed frame; none before the first one.
    pub open spec fn age_text(self, now_ms: u64) -> Seq<char> {
        match self.age_at(now_ms) {
            Some(age) => series_text(
                "last_frame_age_seconds"@,
                "gauge"@,
                "Seconds since the last relayed frame."@,
                seconds::seconds_text(age, 3),
            ),
            None => Seq::empty(),
        }
    }

    /// The full exposition at `now_ms`, with the process's resident size where
    /// it is known.
    pub open spec fn exposition(self, now_ms: u64, rss: Option<u64>) -> Seq<char> {
        all_lines(self.table()) + series_text(
            "upstream_seq"@,
            "gauge"@,
            "Latest upstream sequence number seen."@,
            text::signed_decimal(self.upstream_seq as int),
        ) + self.age_text(now_ms) + rss_text(rss)
    }

    /// Record that a frame was relayed: bumps the counter, the upstream
    /// sequence, and the liveness timestamp in one call so they can't drift.
    pub fn record_frame(&mut self, seq: Option<i64>)
        ensures
            exists|now: u64| *final(self) == #[trigger] old(self).after_frame(seq, now),
    {
        let now = now_ms();
        self.record_frame_at(seq, now);
    }

    /// Record that a frame was relayed at `now_ms`.
    pub fn record_frame_at(&mut self, seq: Option<i64>, now_ms: u64)
        ensures
            *final(self) == old(self).after_frame(seq, now_ms),
    {
        self.frames_total = self.frames_total.wrapping_add(1);
        if let Some(seq) = seq {
            self.upstream_seq = seq;
        }
        self.last_frame_unix_ms = now_ms;
    }

    /// Live subscriber count. Saturating: the two counters are bumped from
    /// different tasks, so a disconnect can briefly be observed before its
    /// connect.
    pub fn subscribers_live(&self) -> (r: u64)
        ensures
            r == self.live_subscribers(),
    {
        self.subscribers_connected_total.saturating_sub(self.subscribers_disconnected_total)
    }

    /// Live per-DID track count (same saturating caveat as above).
    pub fn did_tracks_live(&self) -> (r: u64)
        ensures
            r == self.live_did_tracks(),
    {
        self.did_tracks_opened_total.saturating_sub(self.did_tracks_closed_total)
    }

    /// Milliseconds since the last relayed frame, or `None` before the first
    /// one (startup, when "stale" would be a false alarm).
    pub fn frame_age_ms(&self) -> (r: Option<u64>)
        ensures
            exists|now: u64| r == #[trigger] self.age_at(now),
    {
        let now = now_ms();
        self.frame_age_at(now)
    }

    /// Milliseconds from the last relayed frame to `now_ms`, or `None` before
    /// the first one.
    pub fn frame_age_at(&self, now_ms: u64) -> (r: Option<u64>)
        ensures
            r == self.age_at(now_ms),
    {
        if self.last_frame_unix_ms == 0 {
            None
        } else {
            Some(now_ms.saturating_sub(self.last_frame_unix_ms))
        }
    }

    fn rows(&self) -> (r: Vec<Row>)
        ensures
            r@.map_values(|row: Row| row@) == self.table(),
    {
        let rows = vec![
            Row::counter(
                "frames_total",
                "Frames relayed downstream.",
                self.frames_total,
            ),
            Row::counter(
                "frames_rejected_total",
                "Frames rejected at ingest as invalid.",
                self.frames_rejected_total,
            ),
            Row::counter(
                "frames_dropped_below_cursor_total",
                "Frames dropped as at-or-below the cursor.",
                self.frames_dropped_below_cursor_total,
            ),
            Row::counter(
                "upstream_error_frames_total",
                "Upstream error frames received.",
                self.upstream_error_frames_total,
            ),
            Row::counter(
                "upstream_connects_total",
                "Upstream websocket connections opened.",
                self.upstream_connects_total,
            ),
            Row::counter(
                "groups_total",
                "MoQ groups completed and published.",
                self.groups_total,
            ),
            Row::gauge(
                "group_seq",
                "Sequence of the most recent MoQ group.",
                self.group_seq,
            ),
            Row::counter(
                "subscribers_connected_total",
                "Subscriber sessions accepted.",
                self.subscribers_connected_total,
            ),
            Row::counter(
                "subscribers_disconnected_total",
                "Subscriber sessions closed.",
                self.subscribers_disconnected_total,
            ),
            Row::counter(
                "subscribers_rejected_total",
                "Subscriber sessions rejected during setup.",
                self.subscribers_rejected_total,
            ),
            Row::gauge(
                "subscribers_live",
                "Subscriber sessions currently connected.",
                self.subscribers_live(),
            ),
            Row::counter(
                "did_tracks_opened_total",
                "Per-DID tracks materialized.",
                self.did_tracks_opened_total,
            ),
            Row::counter(
                "did_tracks_closed_total",
                "Per-DID tracks torn down.",
                self.did_tracks_closed_total,
            ),
            Row::counter(
                "did_tracks_refused_total",
                "Per-DID track requests refused at the cap.",
                self.did_tracks_refused_total,
            ),
            Row::gauge(
                "did_tracks_live",
                "Per-DID tracks currently served.",
                self.did_tracks_live(),
            ),
            Row::counter(
                "store_append_bytes_total",
                "Bytes appended to the group store.",
                self.store_append_bytes_total,
            ),
            Row::counter(
                "store_append_failures_total",
                "Group store appends that failed.",
                self.store_append_failures_total,
            ),
            Row::gauge(
                "store_groups_indexed",
                "Groups currently in the store index.",
                self.store_groups_indexed,
            ),
            Row::gauge(
                "store_bytes",
                "Group store size on disk in bytes.",
                self.store_bytes,
            ),
            Row::counter(
                "store_gc_segments_removed_total",
                "Store segments deleted by GC.",
                self.store_gc_segments_removed_total,
            ),
            Row::counter(
                "backfill_groups_served_total",
                "Groups served from disk to resuming subscribers.",
                self.backfill_groups_served_total,
            ),
            Row::counter(
                "backfill_groups_missing_total",
                "Groups requested on resume that the store no longer had.",
                self.backfill_groups_missing_total,
            ),
        ];
        proof {
            assert(rows@.map_values(|row: Row| row@) =~= self.table());
        }
        rows
    }

    fn push_table(&self, out: &mut String)
        ensures
            final(out)@ == old(out)@ + all_lines(self.table()),
    {
        let ghost before = out@;
        let ghost table = self.table();
        let rows = self.rows();
        let mut i: usize = 0;
        proof {
            assert(before + all_lines(table.take(0)) =~= before);
        }
        while i < rows.len()
            invariant
                i <= rows@.len(),
                rows@.map_values(|row: Row| row@) == table,
                out@ == before + all_lines(table.take(i as int)),
            decreases rows@.len() - i,
        {
            let row = &rows[i];
            proof {
                assert(table[i as int] == row@);
                assert(table.take(i + 1).drop_last() =~= table.take(i as int));
            }
            push_series(out, row.name, row.kind, row.help, row.value);
            proof {
                assert(out@ =~= before + all_lines(table.take(i + 1)));
            }
            i = i + 1;
        }
        proof {
            assert(table.take(i as int) =~= table);
        }
    }

    /// Render the full exposition. Allocates a fresh String per scrape, which
    /// at a handful of series and a 15s scrape interval is not worth pooling.
    /// `rss` is the process's resident size, where it is known.
    pub fn encode(&self, rss: Option<u64>) -> (r: String)
        ensures
            exists|now: u64| r@ == #[trigger] self.exposition(now, rss),
    {
        let now = now_ms();
        self.encode_at(now, rss)
    }

    /// Render the full exposition as of `now_ms`.
    pub fn encode_at(&self, now_ms: u64, rss: Option<u64>) -> (r: String)
        ensures
            r@ == self.exposition(now_ms, rss),
    {
        let mut out = String::new();
        self.push_table(&mut out);
        let mut seq = String::new();
        push_signed(&mut seq, self.upstream_seq);
        push_lines(
            &mut out,
            "upstream_seq",
            Kind::Gauge,
            "Latest upstream sequence number seen.",
            seq.as_str(),
        );
        // Seconds since the last frame: the alertable freshness signal. Absent
        // before the first frame rather than exported as a misleading zero.
        if let Some(age) = self.frame_age_at(now_ms) {
            let mut age_text = String::new();
            push_seconds_millis(&mut age_text, age);
            proof {
                assert(age_text@ =~= seconds::seconds_text(age, 3));
            }
            push_lines(
                &mut out,
                "last_frame_age_seconds",
                Kind::Gauge,
                "Seconds since the last relayed frame.",
                age_text.as_str(),
            );
        }
        if let Some(rss) = rss {
            push_series(
                &mut out,
                "process_resident_bytes",
                Kind::Gauge,
                "Process resident set size.",
                rss,
            );
        }
        proof {
            assert(out@ =~= self.exposition(now_ms, rss));
        }
        out
    }
}

impl Default for Metrics {
    fn default() -> (r: Metrics)
        ensures
            r == Metrics::zero(),
    {
        Metrics {
            frames_total: 0,
            frames_rejected_total: 0,
            frames_dropped_below_cursor_total: 0,
            upstream_error_frames_total: 0,
            upstream_connects_total: 0,
            upstream_seq: 0,
            last_frame_unix_ms: 0,
            groups_total: 0,
            group_seq: 0,
            subscribers_connected_total: 0,
            subscribers_disconnected_total: 0,
            subscribers_rejected_total: 0,
            did_tracks_opened_total: 0,
            did_tracks_closed_total: 0,
            did_tracks_refused_total: 0,
            store_append_bytes_total: 0,
            store_append_failures_total: 0,
            store_groups_indexed: 0,
            store_bytes: 0,
            store_gc_segments_removed_total: 0,
            backfill_groups_served_total: 0,
            backfill_groups_missing_total: 0,
        }
    }
}

/// The lines on the process's resident size; none where it is not known.
pub open spec fn rss_text(rss: Option<u64>) -> Seq<char> {
    match rss {
        Some(bytes) => gauge(
            "process_resident_bytes"@,
            "Process resident set size."@,
            bytes,
        ).lines(),
        None => Seq::empty(),
    }
}

/// Appends the lines of one series.
fn push_lines(out: &mut String, name: &str, kind: Kind, help: &str, value: &str)
    ensures
        final(out)@ == old(out)@ + series_text(name@, kind_text(kind), help@, value@),
{
    let ghost before = out@;
    push_text(out, "# HELP atmoq_");
    push_text(out, name);
    push_text(out, " ");
    push_text(out, help);
    push_text(out, "\n# TYPE atmoq_");
    push_text(out, name);
    push_text(out, " ");
    match kind {
        Kind::Counter => push_text(out, "counter"),
        Kind::Gauge => push_text(out, "gauge"),
    }
    push_text(out, "\natmoq_");
    push_text(out, name);
    push_text(out, " ");
    push_text(out, value);
    push_text(out, "\n");
    proof {
        assert(out@ =~= before + series_text(name@, kind_text(kind), help@, value@));
    }
}

/// Appends the lines of a series that is a plain unsigned number.
fn push_series(out: &mut String, name: &str, kind: Kind, help: &str, value: u64)
    ensures
        final(out)@ == old(out)@ + series_text(
            name@,
            kind_text(kind),
            help@,
            text::decimal(value as nat),
        ),
{
    let mut number = String::new();
    push_decimal(&mut number, value);
    proof {
        assert(number@ =~= text::decimal(value as nat));
    }
    push_lines(out, name, kind, help, number.as_str());
}

/// The bytes that `statm`, the text of `/proc/self/statm`, says are resident:
/// its second field counts pages.
pub open spec fn resident_bytes(statm: Seq<char>) -> Option<u64> {
    match text::parsed_u64(text::first_word(text::after_word(statm))) {
        Some(pages) => Some((pages as u64).wrapping_mul(4096)),
        None => None,
    }
}

/// Resident set size out of the text of `/proc/self/statm` (field 2 is resident
/// pages). 4 KiB is the page size on every platform this binary ships to.
pub fn process_rss_bytes(statm: &str) -> (r: Option<u64>)
    ensures
        r == resident_bytes(statm@),
{
    let chars = chars_of(statm);
    let (_, rest) = split_word(chars.as_slice());
    let (word, _) = split_word(rest);
    match parse_u64(word) {
        Some(pages) => Some(pages.wrapping_mul(4096)),
        None => None,
    }
}

/// The wall clock's milliseconds since the Unix epoch, by
/// `std::time::SystemTime`; nothing is claimed of it.
#[verifier::external_body]
pub(crate) fn now_ms() -> u64 {
    std::time::SystemTime::now()
        .duration_since(std::time::UNIX_EPOCH)
        .map(|d| d.as_millis() as u64)
        .unwrap_or(0)
}

} // verus!
