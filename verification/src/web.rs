//! Human-facing web frontend for `atmoq serve`: a port-80 HTTP→HTTPS redirect
//! and a TLS landing page (in the spirit of rainbow's https://bsky.network
//! page), and the admin routes. Hand-rolled HTTP/1.1: it answers GETs with one
//! text page; a framework would outweigh the feature.
//!
//! This module reads request heads and writes responses; the sockets are the
//! caller's.

pub mod laws;

use vstd::prelude::*;
use vstd::utf8;

use crate::heap;
use crate::metrics::{now_ms, Metrics};
use crate::seconds;
use crate::seconds::push_seconds_tenths;
use crate::text;
use crate::text::{
    chars_of,
    find,
    lower,
    push_decimal,
    push_text,
    same_text,
    split_word,
    string_of,
    trim,
};

verus! {

/// The version of this build.
pub const VERSION: &'static str = "0.1.0";

/// The banner of the landing page.
pub const BANNER: &'static str = "        _
   __ _| |_ _ __ ___   ___   __ _
  / _` | __| '_ ` _ \\ / _ \\ / _` |
 | (_| | |_| | | | | | (_) | (_| |
  \\__,_|\\__|_| |_| |_|\\___/ \\__, |
                               |_|
";

/// What the landing page says.
pub open spec fn landing_text(host: Seq<char>, broadcast: Seq<char>, track: Seq<char>) -> Seq<
    char,
> {
    BANNER@ + "\nThis is an atproto [https://atproto.com] relay,\n"@
        + "running the 'atmoq' codebase [https://github.com/streamplace/atmoq] v"@ + VERSION@
        + ",\nserving the firehose over MoQ [https://moq.dev].\n"@
        + "\nThe firehose MoQ broadcast is at:\n"@ + "\nurl:       https://"@ + host
        + "\nbroadcast: "@ + broadcast + "\ntrack:     "@ + track + "\n\nConsume it with:\n"@
        + "\ncargo install atmoq\natmoq firehose --moq-host https://"@ + host + "\n"@
}

/// The landing page. The version is in it so "what build is production
/// running" is one curl away (deploys are otherwise indistinguishable from the
/// outside).
pub fn landing_page(host: &str, broadcast: &str, track: &str) -> (r: String)
    ensures
        r@ == landing_text(host@, broadcast@, track@),
{
    let mut out = String::new();
    push_text(&mut out, BANNER);
    push_text(&mut out, "\nThis is an atproto [https://atproto.com] relay,\n");
    push_text(&mut out, "running the 'atmoq' codebase [https://github.com/streamplace/atmoq] v");
    push_text(&mut out, VERSION);
    push_text(&mut out, ",\nserving the firehose over MoQ [https://moq.dev].\n");
    push_text(&mut out, "\nThe firehose MoQ broadcast is at:\n");
    push_text(&mut out, "\nurl:       https://");
    push_text(&mut out, host);
    push_text(&mut out, "\nbroadcast: ");
    push_text(&mut out, broadcast);
    push_text(&mut out, "\ntrack:     ");
    push_text(&mut out, track);
    push_text(&mut out, "\n\nConsume it with:\n");
    push_text(&mut out, "\ncargo install atmoq\natmoq firehose --moq-host https://");
    push_text(&mut out, host);
    push_text(&mut out, "\n");
    proof {
        assert(out@ =~= landing_text(host@, broadcast@, track@));
    }
    out
}

/// `text` up to the first `c`.
pub open spec fn up_to(text: Seq<char>, c: char) -> Seq<char> {
    text.take(text::index_of(text, c) as int)
}

fn cut_at(text: &str, c: char) -> (r: String)
    ensures
        r@ == up_to(text@, c),
{
    let chars = chars_of(text);
    let n = find(chars.as_slice(), c);
    let (kept, _) = chars.as_slice().split_at(n);
    proof {
        assert(kept@ =~= up_to(text@, c));
    }
    string_of(kept)
}

/// The redirect to https on the same host, without its port, and the same
/// path.
pub open spec fn redirect_text(path: Seq<char>, host: Seq<char>) -> Seq<char> {
    "HTTP/1.1 301 Moved Permanently\r\nLocation: https://"@ + up_to(host, ':') + path
        + "\r\nContent-Length: 0\r\nConnection: close\r\n\r\n"@
}

/// Answer a plain-HTTP request: redirect to https://<same host><path>.
pub fn redirect_response(path: &str, host: Option<String>, fallback_host: &str) -> (r: String)
    ensures
        r@ == redirect_text(
            path@,
            match host {
                Some(h) => h@,
                None => fallback_host@,
            },
        ),
{
    let name = match &host {
        Some(h) => cut_at(h.as_str(), ':'),
        None => cut_at(fallback_host, ':'),
    };
    let mut out = String::new();
    push_text(&mut out, "HTTP/1.1 301 Moved Permanently\r\nLocation: https://");
    push_text(&mut out, name.as_str());
    push_text(&mut out, path);
    push_text(&mut out, "\r\nContent-Length: 0\r\nConnection: close\r\n\r\n");
    proof {
        let from = match host {
            Some(h) => h@,
            None => fallback_host@,
        };
        assert(out@ =~= redirect_text(path@, from));
    }
    out
}

/// A response with this status line, content type and body.
pub open spec fn response_text(status: Seq<char>, content_type: Seq<char>, body: Seq<char>) -> Seq<
    char,
> {
    "HTTP/1.1 "@ + status + "\r\nContent-Type: "@ + content_type + "\r\nContent-Length: "@
        + text::decimal(utf8::encode_utf8(body).len()) + "\r\nConnection: close\r\n\r\n"@ + body
}

fn response(status: &str, content_type: &str, body: &str) -> (r: String)
    ensures
        r@ == response_text(status@, content_type@, body@),
{
    let mut out = String::new();
    push_text(&mut out, "HTTP/1.1 ");
    push_text(&mut out, status);
    push_text(&mut out, "\r\nContent-Type: ");
    push_text(&mut out, content_type);
    push_text(&mut out, "\r\nContent-Length: ");
    push_decimal(&mut out, body.as_bytes().len() as u64);
    push_text(&mut out, "\r\nConnection: close\r\n\r\n");
    push_text(&mut out, body);
    proof {
        assert(out@ =~= response_text(status@, content_type@, body@));
    }
    out
}

/// Answer any request on the TLS listener: the landing page.
pub fn landing_response(page: &str) -> (r: String)
    ensures
        r@ == response_text("200 OK"@, "text/plain; charset=utf-8"@, page@),
{
    response("200 OK", "text/plain; charset=utf-8", page)
}

/// How stale the last relayed frame may get before `/healthz` reports
/// unhealthy, in milliseconds. Mainnet sustains a few hundred frames/sec, so a
/// full minute of silence is unambiguously a stall, not a lull, while still
/// leaving room for an upstream reconnect (which reconnects in seconds) to ride
/// through.
pub const HEALTH_STALE_AFTER_MS: u64 = 60_000;

/// An answer of the admin listener: status line, content type, body.
pub struct Answer {
    pub status: Seq<char>,
    pub content_type: Seq<char>,
    pub body: Seq<char>,
}

/// What `/healthz` answers. Liveness means "the firehose is flowing", not "the
/// process is up". Before the first frame it is healthy: a relay that has just
/// started has not yet failed.
pub open spec fn health_answer(metrics: Metrics, now_ms: u64) -> Answer {
    let plain = "text/plain; charset=utf-8"@;
    match metrics.age_at(now_ms) {
        Some(age) => if age > HEALTH_STALE_AFTER_MS {
            Answer {
                status: "503 Service Unavailable"@,
                content_type: plain,
                body: "unhealthy: no frame relayed for "@ + seconds::seconds_text(age, 1)
                    + "s (threshold 60s)\n"@,
            }
        } else {
            Answer {
                status: "200 OK"@,
                content_type: plain,
                body: "ok: last frame "@ + seconds::seconds_text(age, 1) + "s ago, "@
                    + text::decimal(metrics.live_subscribers() as nat) + " subscribers\n"@,
            }
        },
        None => Answer {
            status: "200 OK"@,
            content_type: plain,
            body: "ok: starting, no frames relayed yet\n"@,
        },
    }
}

/// What the admin listener answers to `path`, given the time, the process's
/// resident size and what asking for a heap profile gave.
pub open spec fn admin_answer(
    path: Seq<char>,
    metrics: Metrics,
    now_ms: u64,
    rss: Option<u64>,
    heap: Result<Seq<char>, Seq<char>>,
) -> Answer {
    let plain = "text/plain; charset=utf-8"@;
    if path == "/metrics"@ {
        Answer {
            status: "200 OK"@,
            content_type: "text/plain; version=0.0.4; charset=utf-8"@,
            body: metrics.exposition(now_ms, rss),
        }
    } else if path == "/healthz"@ {
        health_answer(metrics, now_ms)
    } else if path == "/debug/heap"@ {
        match heap {
            Ok(profile) => Answer { status: "200 OK"@, content_type: plain, body: profile },
            Err(why) => Answer {
                status: "501 Not Implemented"@,
                content_type: plain,
                body: why + "\n"@,
            },
        }
    } else {
        Answer {
            status: "404 Not Found"@,
            content_type: plain,
            body: "not found\n\navailable: /metrics /healthz /debug/heap\n"@,
        }
    }
}

/// An answer by the texts that hold it.
pub open spec fn says(r: (&'static str, &'static str, String), answer: Answer) -> bool {
    &&& r.0@ == answer.status
    &&& r.1@ == answer.content_type
    &&& r.2@ == answer.body
}

/// What a heap profile says.
pub open spec fn profile_text(heap: Result<String, String>) -> Result<Seq<char>, Seq<char>> {
    match heap {
        Ok(profile) => Ok(profile@),
        Err(why) => Err(why@),
    }
}

fn health(metrics: &Metrics, now_ms: u64) -> (r: (&'static str, &'static str, String))
    ensures
        says(r, health_answer(*metrics, now_ms)),
{
    let mut body = String::new();
    let status = match metrics.frame_age_at(now_ms) {
        Some(age) => if age > HEALTH_STALE_AFTER_MS {
            push_text(&mut body, "unhealthy: no frame relayed for ");
            push_seconds_tenths(&mut body, age);
            push_text(&mut body, "s (threshold 60s)\n");
            "503 Service Unavailable"
        } else {
            push_text(&mut body, "ok: last frame ");
            push_seconds_tenths(&mut body, age);
            push_text(&mut body, "s ago, ");
            push_decimal(&mut body, metrics.subscribers_live());
            push_text(&mut body, " subscribers\n");
            "200 OK"
        },
        None => {
            push_text(&mut body, "ok: starting, no frames relayed yet\n");
            "200 OK"
        },
    };
    proof {
        assert(body@ =~= health_answer(*metrics, now_ms).body);
    }
    (status, "text/plain; charset=utf-8", body)
}

/// Route one admin request to (status line, content type, body), given the
/// time, the process's resident size and what asking for a heap profile gave.
pub fn admin_route_at(
    path: &str,
    metrics: &Metrics,
    now_ms: u64,
    rss: Option<u64>,
    heap: Result<String, String>,
) -> (r: (&'static str, &'static str, String))
    ensures
        says(r, admin_answer(path@, *metrics, now_ms, rss, profile_text(heap))),
{
    let plain = "text/plain; charset=utf-8";
    if same_text(path, "/metrics") {
        (
            "200 OK",
            "text/plain; version=0.0.4; charset=utf-8",
            metrics.encode_at(now_ms, rss),
        )
    } else if same_text(path, "/healthz") {
        health(metrics, now_ms)
    } else if same_text(path, "/debug/heap") {
        match heap {
            Ok(profile) => ("200 OK", plain, profile),
            Err(why) => {
                let mut body = String::new();
                push_text(&mut body, why.as_str());
                push_text(&mut body, "\n");
                proof {
                    assert(body@ =~= why@ + "\n"@);
                }
                ("501 Not Implemented", plain, body)
            },
        }
    } else {
        let mut body = String::new();
        push_text(&mut body, "not found\n\navailable: /metrics /healthz /debug/heap\n");
        proof {
            assert(body@ =~= "not found\n\navailable: /metrics /healthz /debug/heap\n"@);
        }
        ("404 Not Found", plain, body)
    }
}

/// Route one admin request to (status line, content type, body), at the present
/// time and with this build's heap profile.
pub fn admin_route(path: &str, metrics: &Metrics, rss: Option<u64>) -> (r: (
    &'static str,
    &'static str,
    String,
))
    ensures
        exists|now: u64|
            says(
                r,
                #[trigger] admin_answer(path@, *metrics, now, rss, Err(heap::not_built())),
            ),
{
    let now = now_ms();
    admin_route_at(path, metrics, now, rss, heap::dump())
}

/// The path of a request target, without its query string.
pub fn admin_path(target: &str) -> (r: String)
    ensures
        r@ == up_to(target@, '?'),
{
    cut_at(target, '?')
}

/// The response that carries an answer.
pub fn admin_response(answer: &(&'static str, &'static str, String)) -> (r: String)
    ensures
        r@ == response_text(answer.0@, answer.1@, answer.2@),
{
    response(answer.0, answer.1, answer.2.as_str())
}

/// How many bytes of a request head are read at most.
pub const HEAD_LIMIT: usize = 4096;

/// Whether `data` holds the empty line that ends a request head.
pub open spec fn has_head_end(data: Seq<u8>) -> bool {
    exists|i: int| 0 <= i <= data.len() - 4 && #[trigger] head_end_at(data, i)
}

/// The four bytes that end a request head stand at `i`.
pub open spec fn head_end_at(data: Seq<u8>, i: int) -> bool {
    data[i] == 13 && data[i + 1] == 10 && data[i + 2] == 13 && data[i + 3] == 10
}

fn ends_head(data: &[u8]) -> (r: bool)
    ensures
        r == has_head_end(data@),
{
    if data.len() < 4 {
        return false;
    }
    let mut i: usize = 0;
    while i <= data.len() - 4
        invariant
            4 <= data@.len(),
            i <= data@.len() - 3,
            forall|k: int| 0 <= k < i ==> !#[trigger] head_end_at(data@, k),
        decreases data@.len() - i,
    {
        if data[i] == 13 && data[i + 1] == 10 && data[i + 2] == 13 && data[i + 3] == 10 {
            proof {
                assert(head_end_at(data@, i as int));
            }
            return true;
        }
        i = i + 1;
    }
    false
}

/// What to do after a read.
#[derive(Debug, Clone, Copy, PartialEq, Eq, Structural)]
pub enum Progress {
    /// The peer is gone; there is no request.
    Closed,
    /// Read on.
    More,
    /// The head is there, or as much of it as is read.
    Complete,
}

/// What to do once `chunk` was read after `before`.
pub open spec fn progress_of(before: Seq<u8>, chunk: Seq<u8>) -> Progress {
    if chunk.len() == 0 {
        Progress::Closed
    } else if has_head_end(before + chunk) || before.len() + chunk.len() == HEAD_LIMIT {
        Progress::Complete
    } else {
        Progress::More
    }
}

/// A request head while it is read.
#[derive(Debug)]
pub struct RequestHead {
    bytes: Vec<u8>,
}

impl RequestHead {
    #[verifier::type_invariant]
    spec fn wf(self) -> bool {
        self.bytes@.len() <= HEAD_LIMIT
    }

    pub closed spec fn view(self) -> Seq<u8> {
        self.bytes@
    }

    /// Nothing read yet.
    pub fn new() -> (r: RequestHead)
        ensures
            r@ == Seq::<u8>::empty(),
    {
        RequestHead { bytes: Vec::new() }
    }

    /// How many more bytes to read at most.
    pub fn room(&self) -> (r: usize)
        ensures
            r == HEAD_LIMIT - self@.len(),
            self@.len() <= HEAD_LIMIT,
    {
        proof {
            use_type_invariant(self);
        }
        HEAD_LIMIT - self.bytes.len()
    }

    /// Takes what was read; says what to do next.
    pub fn add_chunk(self, chunk: &[u8]) -> (r: (RequestHead, Progress))
        requires
            self@.len() + chunk@.len() <= HEAD_LIMIT,
        ensures
            r.0@ == self@ + chunk@,
            r.1 == progress_of(self@, chunk@),
    {
        let mut bytes = self.bytes;
        bytes.extend_from_slice(chunk);
        proof {
            assert(bytes@ =~= self@ + chunk@);
        }
        let progress = if chunk.len() == 0 {
            Progress::Closed
        } else if ends_head(bytes.as_slice()) || bytes.len() == HEAD_LIMIT {
            Progress::Complete
        } else {
            Progress::More
        };
        (RequestHead { bytes }, progress)
    }

    /// What was read.
    pub fn as_bytes(&self) -> (r: &[u8])
        ensures
            r@ == self@,
    {
        self.bytes.as_slice()
    }
}

/// The text of bytes that may be no UTF-8, as `String::from_utf8_lossy` gives
/// it.
pub uninterp spec fn lossy_text(data: Seq<u8>) -> Seq<char>;

/// Turns bytes into text by `String::from_utf8_lossy`: what is UTF-8 is decoded
/// as it is. What replaces the rest depends on the bytes alone.
#[verifier::external_body]
fn to_text(data: &[u8]) -> (r: String)
    ensures
        r@ == lossy_text(data@),
        utf8::valid_utf8(data@) ==> r@ == utf8::decode_utf8(data@),
{
    String::from_utf8_lossy(data).into_owned()
}

/// The first line of `text`, without what ends it.
pub open spec fn first_line(text: Seq<char>) -> Seq<char> {
    let n = text::index_of(text, '\n') as int;
    let line = text.take(n);
    if n < text.len() && line.len() > 0 && line.last() == '\r' {
        line.drop_last()
    } else {
        line
    }
}

/// What follows the first line of `text`.
pub open spec fn after_line(text: Seq<char>) -> Seq<char> {
    let n = text::index_of(text, '\n') as int;
    if n < text.len() {
        text.skip(n + 1)
    } else {
        Seq::empty()
    }
}

/// The texts are the same but for the case of ASCII letters.
pub open spec fn same_ignoring_case(a: Seq<char>, b: Seq<char>) -> bool {
    &&& a.len() == b.len()
    &&& forall|i: int|
        0 <= i < a.len() ==> text::ascii_lower(#[trigger] a[i]) == text::ascii_lower(#[trigger] b[i])
}

/// The value of a header line where it is the `Host` header.
pub open spec fn host_line(line: Seq<char>) -> Option<Seq<char>> {
    let n = text::index_of(line, ':') as int;
    if n < line.len() && same_ignoring_case(line.take(n), "host"@) {
        Some(text::trimmed(line.skip(n + 1)))
    } else {
        None
    }
}

/// The value of the first `Host` header among these lines.
pub open spec fn host_in(lines: Seq<char>) -> Option<Seq<char>>
    decreases lines.len(),
{
    if lines.len() == 0 {
        None
    } else if host_line(first_line(lines)) is Some {
        host_line(first_line(lines))
    } else {
        host_in(after_line(lines))
    }
}

/// The path and the `Host` header of a request head, on a plausible GET.
pub open spec fn parsed_head(head: Seq<char>) -> Option<(Seq<char>, Option<Seq<char>>)> {
    let line = first_line(head);
    if head.len() == 0 || text::first_word(line).len() == 0 {
        None
    } else {
        let path = text::first_word(text::after_word(line));
        Some((if path.len() == 0 { "/"@ } else { path }, host_in(after_line(head))))
    }
}

fn split_line(text: &[char]) -> (r: (&[char], &[char]))
    ensures
        r.0@ == first_line(text@),
        r.1@ == after_line(text@),
        text@.len() > 0 ==> r.1@.len() < text@.len(),
{
    let n = find(text, '\n');
    let (line, rest) = text.split_at(n);
    proof {
        assert(line@ =~= text@.take(n as int));
        assert(rest@ =~= text@.skip(n as int));
    }
    if n < text.len() {
        let (_, after) = rest.split_at(1);
        proof {
            assert(after@ =~= text@.skip(n + 1));
        }
        if n > 0 && line[n - 1] == '\r' {
            let (short, _) = line.split_at(n - 1);
            proof {
                assert(short@ =~= line@.drop_last());
            }
            (short, after)
        } else {
            (line, after)
        }
    } else {
        proof {
            assert(rest@ =~= Seq::empty());
        }
        (line, rest)
    }
}

fn equal_ignoring_case(a: &[char], b: &[char]) -> (r: bool)
    ensures
        r == same_ignoring_case(a@, b@),
{
    if a.len() != b.len() {
        return false;
    }
    let mut i: usize = 0;
    while i < a.len()
        invariant
            i <= a@.len(),
            a@.len() == b@.len(),
            forall|k: int|
                0 <= k < i ==> text::ascii_lower(#[trigger] a@[k]) == text::ascii_lower(#[trigger] b@[k]),
        decreases a@.len() - i,
    {
        if lower(a[i]) != lower(b[i]) {
            proof {
                assert(text::ascii_lower(a@[i as int]) != text::ascii_lower(b@[i as int]));
            }
            return false;
        }
        i = i + 1;
    }
    true
}

fn read_host(lines: &[char]) -> (r: Option<String>)
    ensures
        match (r, host_in(lines@)) {
            (Some(a), Some(b)) => a@ == b,
            (None, None) => true,
            _ => false,
        },
{
    let key = chars_of("host");
    let mut rest = lines;
    while rest.len() > 0
        invariant
            key@ == "host"@,
            host_in(lines@) == host_in(rest@),
        decreases rest@.len(),
    {
        let (line, after) = split_line(rest);
        let n = find(line, ':');
        if n < line.len() {
            let (name, value) = line.split_at(n);
            let (_, value) = value.split_at(1);
            proof {
                assert(name@ =~= line@.take(n as int));
                assert(value@ =~= line@.skip(n + 1));
            }
            if equal_ignoring_case(name, key.as_slice()) {
                return Some(string_of(trim(value)));
            }
        }
        rest = after;
    }
    None
}

/// Read a request head; return (path, host-header) on a plausible GET.
pub fn parse_head(head: &str) -> (r: Option<(String, Option<String>)>)
    ensures
        match (r, parsed_head(head@)) {
            (Some((path, host)), Some((p, h))) => {
                &&& path@ == p
                &&& match (host, h) {
                    (Some(a), Some(b)) => a@ == b,
                    (None, None) => true,
                    _ => false,
                }
            },
            (None, None) => true,
            _ => false,
        },
{
    let chars = chars_of(head);
    let (line, rest) = split_line(chars.as_slice());
    let (method, after) = split_word(line);
    if chars.len() == 0 || method.len() == 0 {
        return None;
    }
    let (target, _) = split_word(after);
    let path = if target.len() == 0 {
        "/".to_owned()
    } else {
        string_of(target)
    };
    Some((path, read_host(rest)))
}

/// Read the bytes of a request head; return (path, host-header) on a plausible
/// GET.
pub fn read_request(head: &[u8]) -> (r: Option<(String, Option<String>)>)
    ensures
        match (r, parsed_head(lossy_text(head@))) {
            (Some((path, host)), Some((p, h))) => {
                &&& path@ == p
                &&& match (host, h) {
                    (Some(a), Some(b)) => a@ == b,
                    (None, None) => true,
                    _ => false,
                }
            },
            (None, None) => true,
            _ => false,
        },
        utf8::valid_utf8(head@) ==> lossy_text(head@) == utf8::decode_utf8(head@),
{
    let text = to_text(head);
    parse_head(text.as_str())
}

} // verus!
