//! What holds of every request and every answer.

use vstd::prelude::*;
use vstd::utf8;

use crate::metrics::Metrics;
use crate::seconds;
use crate::text;
use crate::web;
use crate::web::Answer;

verus! {

/// `c` does not stand in `text`.
pub open spec fn lacks(text: Seq<char>, c: char) -> bool {
    forall|i: int| 0 <= i < text.len() ==> #[trigger] text[i] != c
}

/// A word: at least one character, none of them white space.
pub open spec fn is_word(text: Seq<char>) -> bool {
    &&& text.len() > 0
    &&& forall|i: int| 0 <= i < text.len() ==> !text::is_white(#[trigger] text[i])
}

proof fn lemma_index_of(before: Seq<char>, c: char, after: Seq<char>)
    requires
        lacks(before, c),
    ensures
        text::index_of(before + seq![c] + after, c) == before.len(),
    decreases before.len(),
{
    let all = before + seq![c] + after;
    if before.len() > 0 {
        let rest = before.drop_first();
        assert forall|i: int| 0 <= i < rest.len() implies #[trigger] rest[i] != c by {
            assert(rest[i] == before[i + 1]);
        }
        lemma_index_of(rest, c, after);
        assert(all.drop_first() =~= rest + seq![c] + after);
        assert(all[0] == before[0]);
    } else {
        assert(all[0] == c);
    }
}

/// A query string does not change where an admin request goes.
pub proof fn law_query_is_ignored(path: Seq<char>, query: Seq<char>)
    requires
        lacks(path, '?'),
    ensures
        web::up_to(path + seq!['?'] + query, '?') == path,
{
    lemma_index_of(path, '?', query);
    assert((path + seq!['?'] + query).take(path.len() as int) =~= path);
}

/// The redirect goes to the host without its port, and to the path as it was.
pub proof fn law_redirect_drops_the_port(path: Seq<char>, host: Seq<char>, port: Seq<char>)
    requires
        lacks(host, ':'),
    ensures
        web::redirect_text(path, host + seq![':'] + port)
            == "HTTP/1.1 301 Moved Permanently\r\nLocation: https://"@ + host + path
            + "\r\nContent-Length: 0\r\nConnection: close\r\n\r\n"@,
{
    lemma_index_of(host, ':', port);
    assert((host + seq![':'] + port).take(host.len() as int) =~= host);
}

/// `/healthz` fails exactly where a frame has been relayed and the last one is
/// more than a minute old.
pub proof fn law_health_fails_on_silence(metrics: Metrics, now_ms: u64)
    ensures
        web::health_answer(metrics, now_ms).status == "503 Service Unavailable"@ <==> {
            &&& metrics.last_frame_unix_ms != 0
            &&& now_ms > metrics.last_frame_unix_ms + 60_000
        },
        web::health_answer(metrics, now_ms).status == "200 OK"@ <==> !{
            &&& metrics.last_frame_unix_ms != 0
            &&& now_ms > metrics.last_frame_unix_ms + 60_000
        },
{
    reveal_strlit("503 Service Unavailable");
    reveal_strlit("200 OK");
    assert("503 Service Unavailable"@.len() != "200 OK"@.len());
}

/// A frame that was just relayed makes the relay healthy.
pub proof fn law_frame_makes_healthy(metrics: Metrics, seq: Option<i64>, now_ms: u64)
    ensures
        web::health_answer(metrics.after_frame(seq, now_ms), now_ms).status == "200 OK"@,
{
    law_health_fails_on_silence(metrics.after_frame(seq, now_ms), now_ms);
}

/// Only three paths are served; every other is not found.
pub proof fn law_other_paths_are_not_found(
    path: Seq<char>,
    metrics: Metrics,
    now_ms: u64,
    rss: Option<u64>,
    heap: Result<Seq<char>, Seq<char>>,
)
    requires
        path != "/metrics"@,
        path != "/healthz"@,
        path != "/debug/heap"@,
    ensures
        web::admin_answer(path, metrics, now_ms, rss, heap).status == "404 Not Found"@,
{
}

proof fn lemma_word_first(word: Seq<char>, after: Seq<char>)
    requires
        is_word(word),
        after.len() == 0 || text::is_white(after[0]),
    ensures
        text::trimmed_start(word + after) == word + after,
        text::first_word(word + after) == word,
        text::after_word(word + after) == after,
{
    let all = word + after;
    assert(all[0] == word[0]);
    lemma_word_len(word, after);
    assert(all.take(word.len() as int) =~= word);
    assert(all.skip(word.len() as int) =~= after);
}

proof fn lemma_word_len(word: Seq<char>, after: Seq<char>)
    requires
        forall|i: int| 0 <= i < word.len() ==> !text::is_white(#[trigger] word[i]),
        after.len() == 0 || text::is_white(after[0]),
    ensures
        text::word_len(word + after) == word.len(),
    decreases word.len(),
{
    let all = word + after;
    if word.len() > 0 {
        let rest = word.drop_first();
        assert forall|i: int| 0 <= i < rest.len() implies !text::is_white(#[trigger] rest[i]) by {
            assert(rest[i] == word[i + 1]);
        }
        lemma_word_len(rest, after);
        assert(all.drop_first() =~= rest + after);
        assert(all[0] == word[0]);
    } else if after.len() > 0 {
        assert(all[0] == after[0]);
    }
}

proof fn lemma_trim_word(word: Seq<char>)
    requires
        is_word(word),
    ensures
        text::trimmed(seq![' '] + word) == word,
{
    let all = seq![' '] + word;
    assert(all.drop_first() =~= word);
    assert(text::trimmed_start(word) == word);
    assert(!text::is_white(word[word.len() - 1]));
}

/// The head of an ordinary request.
pub open spec fn request_text(method: Seq<char>, path: Seq<char>, host: Seq<char>) -> Seq<char> {
    (method + (seq![' '] + (path + " HTTP/1.1\r"@))) + seq!['\n'] + ("Host: "@ + host + "\r\n\r\n"@)
}

/// An ordinary request is read for what it is: its path, and its host.
pub proof fn law_ordinary_request_is_read(method: Seq<char>, path: Seq<char>, host: Seq<char>)
    requires
        is_word(method),
        is_word(path),
        is_word(host),
    ensures
        web::parsed_head(request_text(method, path, host)) == Some((path, Some(host))),
{
    let head = request_text(method, path, host);
    reveal_strlit(" HTTP/1.1\r");
    reveal_strlit("Host: ");
    reveal_strlit("\r\n\r\n");
    let version = " HTTP/1.1\r"@;
    let tail = seq![' '] + (path + version);
    let line = method + tail;
    assert forall|i: int| 0 <= i < line.len() implies #[trigger] line[i] != '\n' by {
        if i < method.len() {
            assert(!text::is_white(method[i]));
        } else if method.len() < i < method.len() + 1 + path.len() {
            assert(!text::is_white(path[i - method.len() - 1]));
        }
    }
    let rest = "Host: "@ + host + "\r\n\r\n"@;
    lemma_index_of(line, '\n', rest);
    assert(head.take(line.len() as int) =~= line);
    assert(head.skip(line.len() as int + 1) =~= rest);
    assert(line.last() == '\r');
    let short = version.drop_last();
    let words = seq![' '] + (path + short);
    assert(line.drop_last() =~= method + words);
    lemma_word_first(method, words);
    assert(words.drop_first() =~= path + short);
    assert(text::trimmed_start(words) == text::trimmed_start(path + short));
    lemma_word_first(path, short);
    assert(text::first_word(words) == path);
    lemma_host_read(host);
}

proof fn lemma_host_read(host: Seq<char>)
    requires
        is_word(host),
    ensures
        web::host_in("Host: "@ + host + "\r\n\r\n"@) == Some(host),
{
    reveal_strlit("Host: ");
    reveal_strlit("host");
    reveal_strlit("\r\n\r\n");
    let all = "Host: "@ + host + "\r\n\r\n"@;
    let name = "Host"@;
    reveal_strlit("Host");
    let line = name + seq![':'] + (seq![' '] + host);
    let full = line + seq!['\r'];
    let after = seq!['\r', '\n'];
    assert(all =~= full + seq!['\n'] + after);
    assert forall|i: int| 0 <= i < full.len() implies #[trigger] full[i] != '\n' by {
        if 6 <= i < 6 + host.len() {
            assert(!text::is_white(host[i - 6]));
        }
    }
    lemma_index_of(full, '\n', after);
    assert(all.take(full.len() as int) =~= full);
    assert(full.drop_last() =~= line);
    assert(web::first_line(all) == line);
    lemma_index_of(name, ':', seq![' '] + host);
    assert(line.take(4) =~= name);
    assert(line.skip(5) =~= seq![' '] + host);
    assert(web::same_ignoring_case(name, "host"@));
    lemma_trim_word(host);
}

/// A response is its status, the type and the length of its body in bytes, and
/// the body after an empty line, unchanged.
pub proof fn law_response_carries_its_body(
    status: Seq<char>,
    content_type: Seq<char>,
    body: Seq<char>,
)
    ensures
        web::response_text(status, content_type, body) == "HTTP/1.1 "@ + status
            + "\r\nContent-Type: "@ + content_type + "\r\nContent-Length: "@ + text::decimal(
            utf8::encode_utf8(body).len(),
        ) + "\r\nConnection: close\r\n\r\n"@ + body,
        text::has_suffix(web::response_text(status, content_type, body), body),
{
    let all = web::response_text(status, content_type, body);
    assert(all.skip(all.len() - body.len()) =~= body);
}

/// A host without a port is redirected to as it is.
pub proof fn law_redirect_keeps_the_host(path: Seq<char>, host: Seq<char>)
    requires
        lacks(host, ':'),
    ensures
        web::redirect_text(path, host)
            == "HTTP/1.1 301 Moved Permanently\r\nLocation: https://"@ + host + path
            + "\r\nContent-Length: 0\r\nConnection: close\r\n\r\n"@,
        web::up_to(path, '?').len() <= path.len(),
        lacks(path, '?') ==> web::up_to(path, '?') == path,
{
    lemma_index_of_none(host, ':');
    assert(host.take(host.len() as int) =~= host);
    text::laws::law_index_is_the_first(path, '?');
    if lacks(path, '?') {
        lemma_index_of_none(path, '?');
        assert(path.take(path.len() as int) =~= path);
    }
}

proof fn lemma_index_of_none(s: Seq<char>, c: char)
    requires
        lacks(s, c),
    ensures
        text::index_of(s, c) == s.len(),
{
    text::laws::law_index_is_the_first(s, c);
}

/// `/metrics` answers with the exposition, `/healthz` with the health, and
/// `/debug/heap` with the profile or with why there is none.
pub proof fn law_admin_paths(
    metrics: Metrics,
    now_ms: u64,
    rss: Option<u64>,
    heap: Result<Seq<char>, Seq<char>>,
)
    ensures
        ({
            let found = web::admin_answer("/metrics"@, metrics, now_ms, rss, heap);
            &&& found.status == "200 OK"@
            &&& found.content_type == "text/plain; version=0.0.4; charset=utf-8"@
            &&& found.body == metrics.exposition(now_ms, rss)
        }),
        web::admin_answer("/healthz"@, metrics, now_ms, rss, heap) == web::health_answer(
            metrics,
            now_ms,
        ),
        ({
            let found = web::admin_answer("/debug/heap"@, metrics, now_ms, rss, heap);
            &&& found.content_type == "text/plain; charset=utf-8"@
            &&& heap matches Ok(profile) ==> found.status == "200 OK"@ && found.body == profile
            &&& heap matches Err(why) ==> found.status == "501 Not Implemented"@ && found.body
                == why.push('\n')
        }),
{
    reveal_strlit("/metrics");
    reveal_strlit("/healthz");
    reveal_strlit("/debug/heap");
    reveal_strlit("\n");
    assert("/metrics"@[1] == 'm' && "/healthz"@[1] == 'h' && "/debug/heap"@[1] == 'd');
    if let Err(why) = heap {
        assert(why + "\n"@ =~= why.push('\n'));
    }
}

/// The health says how long ago the last frame was relayed, and where the relay
/// is healthy how many subscribers there are.
pub proof fn law_health_says_why(metrics: Metrics, now_ms: u64)
    ensures
        ({
            let found = web::health_answer(metrics, now_ms);
            let silent = (now_ms - metrics.last_frame_unix_ms) as u64;
            &&& found.content_type == "text/plain; charset=utf-8"@
            &&& metrics.last_frame_unix_ms == 0 ==> found.body
                == "ok: starting, no frames relayed yet\n"@
            &&& metrics.last_frame_unix_ms != 0 && now_ms > metrics.last_frame_unix_ms + 60_000
                ==> found.body == "unhealthy: no frame relayed for "@ + seconds::seconds_text(
                silent,
                1,
            ) + "s (threshold 60s)\n"@
            &&& metrics.last_frame_unix_ms != 0 && metrics.last_frame_unix_ms <= now_ms
                <= metrics.last_frame_unix_ms + 60_000 ==> found.body == "ok: last frame "@
                + seconds::seconds_text(silent, 1) + "s ago, "@ + text::decimal(
                metrics.live_subscribers() as nat,
            ) + " subscribers\n"@
        }),
{
}

/// The landing page says where the firehose is: its host, its broadcast and its
/// track, each under its name, and how to consume it from that host.
pub proof fn law_landing_page_says_where(
    host: Seq<char>,
    broadcast: Seq<char>,
    track: Seq<char>,
) -> (before: Seq<char>)
    ensures
        web::landing_text(host, broadcast, track) == before + "\nurl:       https://"@ + host
            + "\nbroadcast: "@ + broadcast + "\ntrack:     "@ + track + "\n\nConsume it with:\n"@
            + "\ncargo install atmoq\natmoq firehose --moq-host https://"@ + host + "\n"@,
        before == web::landing_text(Seq::empty(), Seq::empty(), Seq::empty()).take(
            before.len() as int,
        ),
{
    let none: Seq<char> = Seq::empty();
    let before = web::BANNER@ + "\nThis is an atproto [https://atproto.com] relay,\n"@
        + "running the 'atmoq' codebase [https://github.com/streamplace/atmoq] v"@ + web::VERSION@
        + ",\nserving the firehose over MoQ [https://moq.dev].\n"@
        + "\nThe firehose MoQ broadcast is at:\n"@;
    assert(web::landing_text(none, none, none).take(before.len() as int) =~= before);
    before
}

/// A request head is read on until it ends with an empty line or 4096 bytes are
/// there; a peer that sends nothing more is gone.
pub proof fn law_heads_are_read_to_their_end(
    before: Seq<u8>,
    chunk: Seq<u8>,
    a: Seq<u8>,
    b: Seq<u8>,
)
    ensures
        web::progress_of(before, chunk) is Closed <==> chunk.len() == 0,
        chunk.len() > 0 && before.len() + chunk.len() == 4096 ==> web::progress_of(before, chunk)
            is Complete,
        chunk.len() > 0 && before + chunk == a + seq![13u8, 10u8, 13u8, 10u8] + b
            ==> web::progress_of(before, chunk) is Complete,
        web::progress_of(before, chunk) is Complete && before.len() + chunk.len() < 4096
            ==> exists|i: int|
            0 <= i <= (before + chunk).len() - 4 && #[trigger] (before + chunk).subrange(i, i + 4)
                == seq![13u8, 10u8, 13u8, 10u8],
{
    let all = before + chunk;
    if all == a + seq![13u8, 10u8, 13u8, 10u8] + b {
        assert(web::head_end_at(all, a.len() as int));
    }
    if web::has_head_end(all) {
        let i = choose|i: int| 0 <= i <= all.len() - 4 && #[trigger] web::head_end_at(all, i);
        assert(all.subrange(i, i + 4) =~= seq![13u8, 10u8, 13u8, 10u8]);
    }
}

/// A header's name is `host` whatever the case of its letters, and nothing else
/// is.
pub proof fn law_host_in_any_case(name: Seq<char>)
    ensures
        web::same_ignoring_case(name, "host"@) <==> {
            &&& name.len() == 4
            &&& name[0] == 'h' || name[0] == 'H'
            &&& name[1] == 'o' || name[1] == 'O'
            &&& name[2] == 's' || name[2] == 'S'
            &&& name[3] == 't' || name[3] == 'T'
        },
{
    reveal_strlit("host");
    let host = "host"@;
    if web::same_ignoring_case(name, host) {
        assert(text::ascii_lower(name[0]) == text::ascii_lower(host[0]));
        assert(text::ascii_lower(name[1]) == text::ascii_lower(host[1]));
        assert(text::ascii_lower(name[2]) == text::ascii_lower(host[2]));
        assert(text::ascii_lower(name[3]) == text::ascii_lower(host[3]));
    }
}

proof fn lemma_line(line: Seq<char>, rest: Seq<char>)
    requires
        lacks(line, '\n'),
    ensures
        web::first_line(line + "\r\n"@ + rest) == line,
        web::after_line(line + "\r\n"@ + rest) == rest,
{
    reveal_strlit("\r\n");
    let full = line.push('\r');
    let all = line + "\r\n"@ + rest;
    assert(all =~= full + seq!['\n'] + rest);
    lemma_index_of(full, '\n', rest);
    assert(all.take(full.len() as int) =~= full);
    assert(full.drop_last() =~= line);
    assert(all.skip(full.len() as int + 1) =~= rest);
}

/// The host of a request is what stands in its first `Host` header, whatever the
/// case of that name, without the white space around it.
pub proof fn law_first_host_header_counts(
    name: Seq<char>,
    before: Seq<char>,
    host: Seq<char>,
    after: Seq<char>,
    rest: Seq<char>,
)
    requires
        web::same_ignoring_case(name, "host"@),
        text::laws::blank(before),
        text::laws::blank(after),
        lacks(before, '\n'),
        lacks(after, '\n'),
        is_word(host),
    ensures
        web::host_in(name + seq![':'] + (before + host + after) + "\r\n"@ + rest) == Some(host),
{
    law_host_in_any_case(name);
    let value = before + host + after;
    let line = name + seq![':'] + value;
    assert forall|i: int| 0 <= i < line.len() implies #[trigger] line[i] != '\n' by {
        if i >= 5 + before.len() && i < 5 + before.len() + host.len() {
            assert(!text::is_white(host[i - 5 - before.len()]));
        } else if 5 <= i < 5 + before.len() {
            assert(line[i] == before[i - 5]);
        } else if i >= 5 + before.len() + host.len() {
            assert(line[i] == after[i - 5 - before.len() - host.len()]);
        }
    }
    lemma_line(line, rest);
    lemma_index_of(name, ':', value);
    assert(line.take(4) =~= name);
    assert(line.skip(5) =~= value);
    assert(!text::is_white(host[0]) && !text::is_white(host[host.len() - 1]));
    text::laws::law_trimming_takes_the_white_space_around(before, host, after);
}

/// Every other header is passed over.
pub proof fn law_other_headers_are_passed_over(
    name: Seq<char>,
    value: Seq<char>,
    rest: Seq<char>,
)
    requires
        !web::same_ignoring_case(name, "host"@),
        lacks(name, ':'),
        lacks(name, '\n'),
        lacks(value, '\n'),
    ensures
        web::host_in(name + seq![':'] + value + "\r\n"@ + rest) == web::host_in(rest),
        web::host_in(Seq::empty()) is None,
{
    let line = name + seq![':'] + value;
    assert forall|i: int| 0 <= i < line.len() implies #[trigger] line[i] != '\n' by {
        if i < name.len() {
            assert(line[i] == name[i]);
        } else if i > name.len() {
            assert(line[i] == value[i - name.len() - 1]);
        }
    }
    lemma_line(line, rest);
    lemma_index_of(name, ':', value);
    assert(line.take(name.len() as int) =~= name);
}

/// A request that names no path is for `/`; nothing at all, and a blank line, is
/// no request.
pub proof fn law_missing_path_is_the_root(method: Seq<char>, rest: Seq<char>)
    requires
        is_word(method),
    ensures
        web::parsed_head(method + "\r\n"@ + rest) == Some(("/"@, web::host_in(rest))),
        web::parsed_head(Seq::empty()) is None,
        web::parsed_head("\r\n"@ + rest) is None,
{
    let none: Seq<char> = Seq::empty();
    assert forall|i: int| 0 <= i < method.len() implies #[trigger] method[i] != '\n' by {
        assert(!text::is_white(method[i]));
    }
    lemma_line(method, rest);
    lemma_word_first(method, none);
    assert(method + none =~= method);
    text::laws::law_blank_text_has_no_word(none);
    lemma_line(none, rest);
    assert(none + "\r\n"@ + rest =~= "\r\n"@ + rest);
}

/// The path of a request is the second word of its first line, whatever follows
/// it there and whatever headers there are.
pub proof fn law_path_is_the_second_word(
    method: Seq<char>,
    path: Seq<char>,
    version: Seq<char>,
    rest: Seq<char>,
)
    requires
        is_word(method),
        is_word(path),
        lacks(version, '\n'),
        version.len() > 0 ==> text::is_white(version[0]),
    ensures
        web::parsed_head(method + seq![' '] + path + version + "\r\n"@ + rest) == Some(
            (path, web::host_in(rest)),
        ),
{
    let line = method + seq![' '] + path + version;
    let tail = seq![' '] + path + version;
    assert forall|i: int| 0 <= i < line.len() implies #[trigger] line[i] != '\n' by {
        if i < method.len() {
            assert(!text::is_white(method[i]));
        } else if method.len() < i < method.len() + 1 + path.len() {
            assert(!text::is_white(path[i - method.len() - 1]));
        } else if i > method.len() {
            assert(line[i] == version[i - method.len() - 1 - path.len()]);
        }
    }
    lemma_line(line, rest);
    assert(line =~= method + tail);
    lemma_word_first(method, tail);
    text::laws::law_first_word_ends_at_white_space(seq![' '], path, version);
}

/// An answer is said where all three of its parts are.
pub proof fn law_answers_are_said_whole(
    r: (&'static str, &'static str, String),
    answer: Answer,
    profile: String,
)
    requires
        web::says(r, answer),
    ensures
        r.0@ == answer.status,
        r.1@ == answer.content_type,
        r.2@ == answer.body,
        web::profile_text(Ok(profile)) == Ok::<Seq<char>, Seq<char>>(profile@),
        web::profile_text(Err(profile)) == Err::<Seq<char>, Seq<char>>(profile@),
{
}

} // verus!
