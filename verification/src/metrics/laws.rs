//! What holds of the counters and of what is exported of them.

use vstd::prelude::*;

use crate::metrics;
use crate::metrics::{Kind, Metrics, Series};
use crate::powers;
use crate::seconds;
use crate::text;

verus! {

/// `text` stays on its line.
pub open spec fn one_line(text: Seq<char>) -> bool {
    forall|i: int| 0 <= i < text.len() ==> #[trigger] text[i] != '\n'
}

/// A line starts at `i`.
pub open spec fn line_starts(text: Seq<char>, i: int) -> bool {
    0 <= i < text.len() && (i == 0 || text[i - 1] == '\n')
}

/// Every line is a comment or a series with the `atmoq_` prefix, and is ended.
pub open spec fn well_prefixed(text: Seq<char>) -> bool {
    &&& text.len() == 0 || text.last() == '\n'
    &&& forall|i: int| #[trigger]
        line_starts(text, i) ==> text[i] == '#' || text::has_prefix(text.skip(i), "atmoq_"@)
}

proof fn lemma_prefixed_join(a: Seq<char>, b: Seq<char>)
    requires
        well_prefixed(a),
        well_prefixed(b),
    ensures
        well_prefixed(a + b),
{
    let all = a + b;
    reveal_strlit("atmoq_");
    assert forall|i: int| #[trigger] line_starts(all, i) implies all[i] == '#'
        || text::has_prefix(all.skip(i), "atmoq_"@) by {
        if i < a.len() {
            assert(line_starts(a, i));
            if a[i] != '#' {
                assert(all.skip(i).take(6) =~= a.skip(i).take(6));
            }
        } else {
            let k = i - a.len();
            assert(line_starts(b, k));
            assert(all.skip(i) =~= b.skip(k));
        }
    }
}

proof fn lemma_series_prefixed(
    name: Seq<char>,
    kind: Seq<char>,
    help: Seq<char>,
    value: Seq<char>,
)
    requires
        one_line(name),
        one_line(kind),
        one_line(help),
        one_line(value),
    ensures
        well_prefixed(metrics::series_text(name, kind, help, value)),
{
    reveal_strlit("# HELP atmoq_");
    reveal_strlit(" ");
    reveal_strlit("\n# TYPE atmoq_");
    reveal_strlit("\natmoq_");
    reveal_strlit("\n");
    reveal_strlit("atmoq_");
    let all = metrics::series_text(name, kind, help, value);
    let first = "# HELP atmoq_"@ + name + " "@ + help;
    let second = "# TYPE atmoq_"@ + name + " "@ + kind;
    reveal_strlit("# TYPE atmoq_");
    let third = "atmoq_"@ + name + " "@ + value;
    let end = seq!['\n'];
    assert(all =~= first + end + second + end + third + end);
    lemma_one_line_prefixed(first);
    lemma_one_line_prefixed(second);
    assert(third.take(6) =~= "atmoq_"@);
    lemma_one_line_prefixed(third);
    lemma_prefixed_join(first + end, second + end);
    lemma_prefixed_join((first + end) + (second + end), third + end);
    assert(all =~= ((first + end) + (second + end)) + (third + end));
}

proof fn lemma_one_line_prefixed(line: Seq<char>)
    requires
        one_line(line),
        line.len() > 0,
        line[0] == '#' || text::has_prefix(line, "atmoq_"@),
    ensures
        well_prefixed(line + seq!['\n']),
{
    reveal_strlit("atmoq_");
    let all = line + seq!['\n'];
    assert forall|i: int| #[trigger] line_starts(all, i) implies all[i] == '#'
        || text::has_prefix(all.skip(i), "atmoq_"@) by {
        if i > 0 {
            assert(line[i - 1] != '\n');
        } else if line[0] != '#' {
            assert(all.skip(0).take(6) =~= line.take(6));
        }
    }
}

proof fn lemma_decimal_one_line(n: nat)
    ensures
        one_line(text::decimal(n)),
    decreases n,
{
    if n >= 10 {
        lemma_decimal_one_line(n / 10);
    }
}

proof fn lemma_fixed_one_line(n: nat, width: nat)
    ensures
        one_line(text::fixed_decimal(n, width)),
    decreases width,
{
    if width > 0 {
        lemma_fixed_one_line(n / 10, (width - 1) as nat);
    }
}

/// The name and the help of a series stay on their lines.
spec fn fits_lines(s: Series) -> bool {
    one_line(s.name) && one_line(s.help)
}

proof fn lemma_lines_prefixed(s: Series)
    requires
        fits_lines(s),
    ensures
        well_prefixed(s.lines()),
{
    reveal_strlit("counter");
    reveal_strlit("gauge");
    lemma_decimal_one_line(s.value as nat);
    lemma_series_prefixed(
        s.name,
        metrics::kind_text(s.kind),
        s.help,
        text::decimal(s.value as nat),
    );
}

proof fn lemma_all_lines_prefixed(all: Seq<Series>)
    requires
        forall|i: int| 0 <= i < all.len() ==> fits_lines(#[trigger] all[i]),
    ensures
        well_prefixed(metrics::all_lines(all)),
    decreases all.len(),
{
    if all.len() > 0 {
        assert(all.last() == all[all.len() - 1]);
        assert forall|i: int| 0 <= i < all.len() - 1 implies fits_lines(
            #[trigger] all.drop_last()[i],
        ) by {
            assert(all.drop_last()[i] == all[i]);
        }
        lemma_all_lines_prefixed(all.drop_last());
        lemma_lines_prefixed(all.last());
        lemma_prefixed_join(metrics::all_lines(all.drop_last()), all.last().lines());
    }
}

proof fn lemma_table_fits_lines(m: Metrics)
    ensures
        forall|i: int| 0 <= i < m.table().len() ==> fits_lines(#[trigger] m.table()[i]),
{
    let table = m.table();
    assert(fits_lines(table[0])) by {
        reveal_strlit("frames_total");
        reveal_strlit("Frames relayed downstream.");
    }
    assert(fits_lines(table[1])) by {
        reveal_strlit("frames_rejected_total");
        reveal_strlit("Frames rejected at ingest as invalid.");
    }
    assert(fits_lines(table[2])) by {
        reveal_strlit("frames_dropped_below_cursor_total");
        reveal_strlit("Frames dropped as at-or-below the cursor.");
    }
    assert(fits_lines(table[3])) by {
        reveal_strlit("upstream_error_frames_total");
        reveal_strlit("Upstream error frames received.");
    }
    assert(fits_lines(table[4])) by {
        reveal_strlit("upstream_connects_total");
        reveal_strlit("Upstream websocket connections opened.");
    }
    assert(fits_lines(table[5])) by {
        reveal_strlit("groups_total");
        reveal_strlit("MoQ groups completed and published.");
    }
    assert(fits_lines(table[6])) by {
        reveal_strlit("group_seq");
        reveal_strlit("Sequence of the most recent MoQ group.");
    }
    assert(fits_lines(table[7])) by {
        reveal_strlit("subscribers_connected_total");
        reveal_strlit("Subscriber sessions accepted.");
    }
    assert(fits_lines(table[8])) by {
        reveal_strlit("subscribers_disconnected_total");
        reveal_strlit("Subscriber sessions closed.");
    }
    assert(fits_lines(table[9])) by {
        reveal_strlit("subscribers_rejected_total");
        reveal_strlit("Subscriber sessions rejected during setup.");
    }
    assert(fits_lines(table[10])) by {
        reveal_strlit("subscribers_live");
        reveal_strlit("Subscriber sessions currently connected.");
    }
    assert(fits_lines(table[11])) by {
        reveal_strlit("did_tracks_opened_total");
        reveal_strlit("Per-DID tracks materialized.");
    }
    assert(fits_lines(table[12])) by {
        reveal_strlit("did_tracks_closed_total");
        reveal_strlit("Per-DID tracks torn down.");
    }
    assert(fits_lines(table[13])) by {
        reveal_strlit("did_tracks_refused_total");
        reveal_strlit("Per-DID track requests refused at the cap.");
    }
    assert(fits_lines(table[14])) by {
        reveal_strlit("did_tracks_live");
        reveal_strlit("Per-DID tracks currently served.");
    }
    assert(fits_lines(table[15])) by {
        reveal_strlit("store_append_bytes_total");
        reveal_strlit("Bytes appended to the group store.");
    }
    assert(fits_lines(table[16])) by {
        reveal_strlit("store_append_failures_total");
        reveal_strlit("Group store appends that failed.");
    }
    assert(fits_lines(table[17])) by {
        reveal_strlit("store_groups_indexed");
        reveal_strlit("Groups currently in the store index.");
    }
    assert(fits_lines(table[18])) by {
        reveal_strlit("store_bytes");
        reveal_strlit("Group store size on disk in bytes.");
    }
    assert(fits_lines(table[19])) by {
        reveal_strlit("store_gc_segments_removed_total");
        reveal_strlit("Store segments deleted by GC.");
    }
    assert(fits_lines(table[20])) by {
        reveal_strlit("backfill_groups_served_total");
        reveal_strlit("Groups served from disk to resuming subscribers.");
    }
    assert(fits_lines(table[21])) by {
        reveal_strlit("backfill_groups_missing_total");
        reveal_strlit("Groups requested on resume that the store no longer had.");
    }
}

/// Every line of the exposition is a comment or a series with the `atmoq_`
/// prefix, whatever the counters hold.
pub proof fn law_every_series_is_prefixed(m: Metrics, now_ms: u64, rss: Option<u64>)
    ensures
        well_prefixed(m.exposition(now_ms, rss)),
{
    lemma_table_fits_lines(m);
    lemma_all_lines_prefixed(m.table());
    let table = metrics::all_lines(m.table());
    reveal_strlit("gauge");
    reveal_strlit("upstream_seq");
    reveal_strlit("Latest upstream sequence number seen.");
    let seq = text::signed_decimal(m.upstream_seq as int);
    assert(one_line(seq)) by {
        if m.upstream_seq < 0 {
            lemma_decimal_one_line((-m.upstream_seq) as nat);
        } else {
            lemma_decimal_one_line(m.upstream_seq as nat);
        }
    }
    let upstream = metrics::series_text(
        "upstream_seq"@,
        "gauge"@,
        "Latest upstream sequence number seen."@,
        seq,
    );
    lemma_series_prefixed(
        "upstream_seq"@,
        "gauge"@,
        "Latest upstream sequence number seen."@,
        seq,
    );
    lemma_prefixed_join(table, upstream);
    lemma_age_prefixed(m, now_ms);
    lemma_prefixed_join(table + upstream, m.age_text(now_ms));
    lemma_rss_prefixed(rss);
    lemma_prefixed_join(
        table + upstream + m.age_text(now_ms),
        metrics::rss_text(rss),
    );
}

proof fn lemma_age_prefixed(m: Metrics, now_ms: u64)
    ensures
        well_prefixed(m.age_text(now_ms)),
{
    if let Some(age) = m.age_at(now_ms) {
        reveal_strlit("gauge");
        reveal_strlit("last_frame_age_seconds");
        reveal_strlit("Seconds since the last relayed frame.");
        reveal_strlit(".");
        let (n, d) = seconds::seconds_of(age);
        let units = seconds::round_half_even(n * powers::pow10(3), d);
        lemma_decimal_one_line(units / powers::pow10(3));
        lemma_fixed_one_line(units % powers::pow10(3), 3);
        assert(one_line(seconds::seconds_text(age, 3)));
        lemma_series_prefixed(
            "last_frame_age_seconds"@,
            "gauge"@,
            "Seconds since the last relayed frame."@,
            seconds::seconds_text(age, 3),
        );
    }
}

proof fn lemma_rss_prefixed(rss: Option<u64>)
    ensures
        well_prefixed(metrics::rss_text(rss)),
{
    if let Some(bytes) = rss {
        reveal_strlit("process_resident_bytes");
        reveal_strlit("Process resident set size.");
        lemma_lines_prefixed(
            metrics::gauge("process_resident_bytes"@, "Process resident set size."@, bytes),
        );
    }
}

/// The age of the last frame is exported once there is one, not before.
pub proof fn law_age_is_absent_before_the_first_frame(m: Metrics, now_ms: u64)
    ensures
        m.last_frame_unix_ms == 0 ==> m.age_text(now_ms) == Seq::<char>::empty(),
        m.last_frame_unix_ms != 0 ==> m.age_text(now_ms).len() > 0,
{
    reveal_strlit("# HELP atmoq_");
}

/// A live count is the difference of its pair of counters, and never wraps.
pub proof fn law_live_counts_are_differences(m: Metrics)
    ensures
        m.subscribers_connected_total >= m.subscribers_disconnected_total ==> m.live_subscribers()
            == m.subscribers_connected_total - m.subscribers_disconnected_total,
        m.subscribers_connected_total < m.subscribers_disconnected_total ==> m.live_subscribers()
            == 0,
        m.did_tracks_opened_total >= m.did_tracks_closed_total ==> m.live_did_tracks()
            == m.did_tracks_opened_total - m.did_tracks_closed_total,
        m.did_tracks_opened_total < m.did_tracks_closed_total ==> m.live_did_tracks() == 0,
{
}

/// Relaying a frame bumps the frame counter by one, and leaves every other
/// counter alone.
pub proof fn law_frame_counts_once(m: Metrics, seq: Option<i64>, now_ms: u64)
    requires
        m.frames_total < u64::MAX,
    ensures
        m.after_frame(seq, now_ms).frames_total == m.frames_total + 1,
        m.after_frame(seq, now_ms) == (Metrics {
            frames_total: (m.frames_total + 1) as u64,
            upstream_seq: m.after_frame(seq, now_ms).upstream_seq,
            last_frame_unix_ms: now_ms,
            ..m
        }),
{
}

/// Relaying a frame notes when, and the sequence number where it has one.
pub proof fn law_frame_is_noted(m: Metrics, n: i64, now_ms: u64)
    ensures
        m.after_frame(Some(n), now_ms).upstream_seq == n,
        m.after_frame(None, now_ms).upstream_seq == m.upstream_seq,
        m.after_frame(Some(n), now_ms).last_frame_unix_ms == now_ms,
        m.after_frame(None, now_ms).last_frame_unix_ms == now_ms,
{
}

/// The age of the last frame is the time since it was relayed; there is none
/// before the first, and a clock that was set back makes it no less than
/// nothing.
pub proof fn law_age_is_the_time_since(m: Metrics, seq: Option<i64>, then_ms: u64, now_ms: u64)
    requires
        then_ms > 0,
    ensures
        m.after_frame(seq, then_ms).age_at(now_ms) == Some(
            if now_ms >= then_ms {
                (now_ms - then_ms) as u64
            } else {
                0
            },
        ),
        m.age_at(now_ms) is None <==> m.last_frame_unix_ms == 0,
        Metrics::zero().age_at(now_ms) is None,
{
}

/// A fresh set of counters is zero throughout.
pub proof fn law_counters_start_at_zero()
    ensures
        forall|i: int|
            0 <= i < Metrics::zero().table().len() ==> (#[trigger] Metrics::zero().table()[i]).value
                == 0,
        Metrics::zero().upstream_seq == 0,
        Metrics::zero().last_frame_unix_ms == 0,
{
}

/// A series is exported as its help, its type and its value, each on a line of
/// its own and under its own name.
pub proof fn law_series_lines(s: Series)
    ensures
        s.kind is Counter ==> s.lines() == "# HELP atmoq_"@ + s.name + " "@ + s.help
            + "\n# TYPE atmoq_"@ + s.name + " "@ + "counter"@ + "\natmoq_"@ + s.name + " "@
            + text::decimal(s.value as nat) + "\n"@,
        s.kind is Gauge ==> s.lines() == "# HELP atmoq_"@ + s.name + " "@ + s.help
            + "\n# TYPE atmoq_"@ + s.name + " "@ + "gauge"@ + "\natmoq_"@ + s.name + " "@
            + text::decimal(s.value as nat) + "\n"@,
{
}

/// Series `name` is exported with this value, as what this help says.
pub open spec fn exports(
    m: Metrics,
    name: Seq<char>,
    kind: Kind,
    help: Seq<char>,
    value: u64,
) -> bool {
    exists|i: int|
        0 <= i < m.table().len() && (#[trigger] m.table()[i]).name == name && m.table()[i].kind
            == kind && m.table()[i].help == help && m.table()[i].value == value
}

/// Every counter is exported under its own name, with its own value, whatever
/// it is; and so are the two counts of what is live.
pub proof fn law_every_counter_is_exported(m: Metrics)
    ensures
        m.table().len() == 22,
        exports(
            m,
            "frames_total"@,
            Kind::Counter,
            "Frames relayed downstream."@,
            m.frames_total,
        ),
        exports(
            m,
            "frames_rejected_total"@,
            Kind::Counter,
            "Frames rejected at ingest as invalid."@,
            m.frames_rejected_total,
        ),
        exports(
            m,
            "frames_dropped_below_cursor_total"@,
            Kind::Counter,
            "Frames dropped as at-or-below the cursor."@,
            m.frames_dropped_below_cursor_total,
        ),
        exports(
            m,
            "upstream_error_frames_total"@,
            Kind::Counter,
            "Upstream error frames received."@,
            m.upstream_error_frames_total,
        ),
        exports(
            m,
            "upstream_connects_total"@,
            Kind::Counter,
            "Upstream websocket connections opened."@,
            m.upstream_connects_total,
        ),
        exports(
            m,
            "groups_total"@,
            Kind::Counter,
            "MoQ groups completed and published."@,
            m.groups_total,
        ),
        exports(
            m,
            "group_seq"@,
            Kind::Gauge,
            "Sequence of the most recent MoQ group."@,
            m.group_seq,
        ),
        exports(
            m,
            "subscribers_connected_total"@,
            Kind::Counter,
            "Subscriber sessions accepted."@,
            m.subscribers_connected_total,
        ),
        exports(
            m,
            "subscribers_disconnected_total"@,
            Kind::Counter,
            "Subscriber sessions closed."@,
            m.subscribers_disconnected_total,
        ),
        exports(
            m,
            "subscribers_rejected_total"@,
            Kind::Counter,
            "Subscriber sessions rejected during setup."@,
            m.subscribers_rejected_total,
        ),
        exports(
            m,
            "subscribers_live"@,
            Kind::Gauge,
            "Subscriber sessions currently connected."@,
            m.live_subscribers(),
        ),
        exports(
            m,
            "did_tracks_opened_total"@,
            Kind::Counter,
            "Per-DID tracks materialized."@,
            m.did_tracks_opened_total,
        ),
        exports(
            m,
            "did_tracks_closed_total"@,
            Kind::Counter,
            "Per-DID tracks torn down."@,
            m.did_tracks_closed_total,
        ),
        exports(
            m,
            "did_tracks_refused_total"@,
            Kind::Counter,
            "Per-DID track requests refused at the cap."@,
            m.did_tracks_refused_total,
        ),
        exports(
            m,
            "did_tracks_live"@,
            Kind::Gauge,
            "Per-DID tracks currently served."@,
            m.live_did_tracks(),
        ),
        exports(
            m,
            "store_append_bytes_total"@,
            Kind::Counter,
            "Bytes appended to the group store."@,
            m.store_append_bytes_total,
        ),
        exports(
            m,
            "store_append_failures_total"@,
            Kind::Counter,
            "Group store appends that failed."@,
            m.store_append_failures_total,
        ),
        exports(
            m,
            "store_groups_indexed"@,
            Kind::Gauge,
            "Groups currently in the store index."@,
            m.store_groups_indexed,
        ),
        exports(
            m,
            "store_bytes"@,
            Kind::Gauge,
            "Group store size on disk in bytes."@,
            m.store_bytes,
        ),
        exports(
            m,
            "store_gc_segments_removed_total"@,
            Kind::Counter,
            "Store segments deleted by GC."@,
            m.store_gc_segments_removed_total,
        ),
        exports(
            m,
            "backfill_groups_served_total"@,
            Kind::Counter,
            "Groups served from disk to resuming subscribers."@,
            m.backfill_groups_served_total,
        ),
        exports(
            m,
            "backfill_groups_missing_total"@,
            Kind::Counter,
            "Groups requested on resume that the store no longer had."@,
            m.backfill_groups_missing_total,
        ),
{
    let t = m.table();
    assert(t[0].name == "frames_total"@);
    assert(t[1].name == "frames_rejected_total"@);
    assert(t[2].name == "frames_dropped_below_cursor_total"@);
    assert(t[3].name == "upstream_error_frames_total"@);
    assert(t[4].name == "upstream_connects_total"@);
    assert(t[5].name == "groups_total"@);
    assert(t[6].name == "group_seq"@);
    assert(t[7].name == "subscribers_connected_total"@);
    assert(t[8].name == "subscribers_disconnected_total"@);
    assert(t[9].name == "subscribers_rejected_total"@);
    assert(t[10].name == "subscribers_live"@);
    assert(t[11].name == "did_tracks_opened_total"@);
    assert(t[12].name == "did_tracks_closed_total"@);
    assert(t[13].name == "did_tracks_refused_total"@);
    assert(t[14].name == "did_tracks_live"@);
    assert(t[15].name == "store_append_bytes_total"@);
    assert(t[16].name == "store_append_failures_total"@);
    assert(t[17].name == "store_groups_indexed"@);
    assert(t[18].name == "store_bytes"@);
    assert(t[19].name == "store_gc_segments_removed_total"@);
    assert(t[20].name == "backfill_groups_served_total"@);
    assert(t[21].name == "backfill_groups_missing_total"@);
}

/// Every series of the table stands in the exposition, with its lines in one
/// piece.
pub proof fn law_exposition_holds_every_series(
    m: Metrics,
    now_ms: u64,
    rss: Option<u64>,
    i: int,
) -> (split: (Seq<char>, Seq<char>))
    requires
        0 <= i < m.table().len(),
    ensures
        m.exposition(now_ms, rss) == split.0 + m.table()[i].lines() + split.1,
{
    let (before, after) = lemma_lines_are_there(m.table(), i);
    let table = metrics::all_lines(m.table());
    let all = m.exposition(now_ms, rss);
    let rest = all.skip(table.len() as int);
    assert(all =~= table + rest);
    assert(all =~= before + m.table()[i].lines() + (after + rest));
    (before, after + rest)
}

proof fn lemma_lines_are_there(all: Seq<Series>, i: int) -> (split: (Seq<char>, Seq<char>))
    requires
        0 <= i < all.len(),
    ensures
        metrics::all_lines(all) == split.0 + all[i].lines() + split.1,
    decreases all.len(),
{
    let fewer = all.drop_last();
    if i == all.len() - 1 {
        let none: Seq<char> = Seq::empty();
        assert(metrics::all_lines(all) =~= metrics::all_lines(fewer) + all[i].lines() + none);
        (metrics::all_lines(fewer), none)
    } else {
        assert(fewer[i] == all[i]);
        let (before, after) = lemma_lines_are_there(fewer, i);
        assert(metrics::all_lines(all) =~= before + all[i].lines() + (after + all.last().lines()));
        (before, after + all.last().lines())
    }
}

/// After the table stand the upstream's sequence number, the age of the last
/// frame where there is one, and the process's resident size where it is known.
pub proof fn law_exposition_ends_with_what_varies(m: Metrics, now_ms: u64, bytes: u64)
    ensures
        ({
            let seq = "# HELP atmoq_upstream_seq Latest upstream sequence number seen.\n# TYPE atmoq_upstream_seq gauge\natmoq_upstream_seq "@
                + text::signed_decimal(m.upstream_seq as int) + "\n"@;
            let size = "# HELP atmoq_process_resident_bytes Process resident set size.\n# TYPE atmoq_process_resident_bytes gauge\natmoq_process_resident_bytes "@
                + text::decimal(bytes as nat) + "\n"@;
            let age = match m.age_at(now_ms) {
                Some(ms) => "# HELP atmoq_last_frame_age_seconds Seconds since the last relayed frame.\n# TYPE atmoq_last_frame_age_seconds gauge\natmoq_last_frame_age_seconds "@
                    + seconds::seconds_text(ms, 3) + "\n"@,
                None => Seq::empty(),
            };
            let table = metrics::all_lines(m.table());
            &&& m.exposition(now_ms, None) == table + seq + age
            &&& m.exposition(now_ms, Some(bytes)) == table + seq + age + size
        }),
{
    reveal_strlit("# HELP atmoq_");
    reveal_strlit(" ");
    reveal_strlit("\n# TYPE atmoq_");
    reveal_strlit("\natmoq_");
    reveal_strlit("gauge");
    lemma_upstream_line(m);
    lemma_age_line(m, now_ms);
    lemma_size_line(bytes);
    let table = metrics::all_lines(m.table());
    let seq = "# HELP atmoq_upstream_seq Latest upstream sequence number seen.\n# TYPE atmoq_upstream_seq gauge\natmoq_upstream_seq "@
        + text::signed_decimal(m.upstream_seq as int) + "\n"@;
    assert(table + seq + m.age_text(now_ms) + Seq::<char>::empty() =~= table + seq + m.age_text(
        now_ms,
    ));
}

proof fn lemma_upstream_line(m: Metrics)
    ensures
        metrics::series_text(
            "upstream_seq"@,
            "gauge"@,
            "Latest upstream sequence number seen."@,
            text::signed_decimal(m.upstream_seq as int),
        )
            == "# HELP atmoq_upstream_seq Latest upstream sequence number seen.\n# TYPE atmoq_upstream_seq gauge\natmoq_upstream_seq "@
            + text::signed_decimal(m.upstream_seq as int) + "\n"@,
{
    reveal_strlit("# HELP atmoq_");
    reveal_strlit(" ");
    reveal_strlit("\n# TYPE atmoq_");
    reveal_strlit("\natmoq_");
    reveal_strlit("gauge");
    reveal_strlit("upstream_seq");
    reveal_strlit("Latest upstream sequence number seen.");
    reveal_strlit("# HELP atmoq_upstream_seq Latest upstream sequence number seen.\n# TYPE atmoq_upstream_seq gauge\natmoq_upstream_seq ");
    let head = "# HELP atmoq_"@ + "upstream_seq"@ + " "@ + "Latest upstream sequence number seen."@
        + "\n# TYPE atmoq_"@ + "upstream_seq"@ + " "@ + "gauge"@ + "\natmoq_"@ + "upstream_seq"@
        + " "@;
    assert(head
        =~= "# HELP atmoq_upstream_seq Latest upstream sequence number seen.\n# TYPE atmoq_upstream_seq gauge\natmoq_upstream_seq "@);
}

proof fn lemma_age_line(m: Metrics, now_ms: u64)
    ensures
        m.age_text(now_ms) == (match m.age_at(now_ms) {
            Some(ms) => "# HELP atmoq_last_frame_age_seconds Seconds since the last relayed frame.\n# TYPE atmoq_last_frame_age_seconds gauge\natmoq_last_frame_age_seconds "@
                + seconds::seconds_text(ms, 3) + "\n"@,
            None => Seq::empty(),
        }),
{
    reveal_strlit("# HELP atmoq_");
    reveal_strlit(" ");
    reveal_strlit("\n# TYPE atmoq_");
    reveal_strlit("\natmoq_");
    reveal_strlit("gauge");
    reveal_strlit("last_frame_age_seconds");
    reveal_strlit("Seconds since the last relayed frame.");
    reveal_strlit("# HELP atmoq_last_frame_age_seconds Seconds since the last relayed frame.\n# TYPE atmoq_last_frame_age_seconds gauge\natmoq_last_frame_age_seconds ");
    let name = "last_frame_age_seconds"@;
    let head = "# HELP atmoq_"@ + name + " "@ + "Seconds since the last relayed frame."@
        + "\n# TYPE atmoq_"@ + name + " "@ + "gauge"@ + "\natmoq_"@ + name + " "@;
    assert(head
        =~= "# HELP atmoq_last_frame_age_seconds Seconds since the last relayed frame.\n# TYPE atmoq_last_frame_age_seconds gauge\natmoq_last_frame_age_seconds "@);
}

proof fn lemma_size_line(bytes: u64)
    ensures
        metrics::rss_text(Some(bytes))
            == "# HELP atmoq_process_resident_bytes Process resident set size.\n# TYPE atmoq_process_resident_bytes gauge\natmoq_process_resident_bytes "@
            + text::decimal(bytes as nat) + "\n"@,
{
    reveal_strlit("# HELP atmoq_");
    reveal_strlit(" ");
    reveal_strlit("\n# TYPE atmoq_");
    reveal_strlit("\natmoq_");
    reveal_strlit("gauge");
    reveal_strlit("process_resident_bytes");
    reveal_strlit("Process resident set size.");
    reveal_strlit("# HELP atmoq_process_resident_bytes Process resident set size.\n# TYPE atmoq_process_resident_bytes gauge\natmoq_process_resident_bytes ");
    let name = "process_resident_bytes"@;
    let head = "# HELP atmoq_"@ + name + " "@ + "Process resident set size."@ + "\n# TYPE atmoq_"@
        + name + " "@ + "gauge"@ + "\natmoq_"@ + name + " "@;
    assert(head
        =~= "# HELP atmoq_process_resident_bytes Process resident set size.\n# TYPE atmoq_process_resident_bytes gauge\natmoq_process_resident_bytes "@);
}

/// The resident size is the second number of the text, in pages of 4096 bytes.
pub proof fn law_resident_size_is_the_second_number(
    total: Seq<char>,
    pages: nat,
    after: Seq<char>,
)
    requires
        total.len() > 0,
        forall|i: int| 0 <= i < total.len() ==> !text::is_white(#[trigger] total[i]),
        after.len() > 0 ==> text::is_white(after[0]),
        pages * 4096 <= u64::MAX,
    ensures
        metrics::resident_bytes(total + seq![' '] + text::decimal(pages) + after) == Some(
            (pages * 4096) as u64,
        ),
        metrics::resident_bytes(total) is None,
{
    let none: Seq<char> = Seq::empty();
    let number = text::decimal(pages);
    let rest = seq![' '] + number + after;
    let all = total + seq![' '] + number + after;
    text::laws::law_first_word_ends_at_white_space(none, total, rest);
    assert(all =~= none + total + rest);
    text::laws::lemma_decimal_digits(pages);
    assert forall|i: int| 0 <= i < number.len() implies !text::is_white(#[trigger] number[i]) by {
        assert('0' <= number[i] <= '9');
    }
    text::laws::law_first_word_ends_at_white_space(seq![' '], number, after);
    text::laws::law_numbers_are_read_back(pages);
    text::laws::law_first_word_ends_at_white_space(none, total, none);
    assert(none + total + none =~= total);
    text::laws::law_blank_text_has_no_word(none);
    assert(text::first_word(none) =~= none);
}

} // verus!
