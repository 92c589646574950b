//! Upstream firehose ingest: where to connect for
//! `com.atproto.sync.subscribeRepos`, and what to do with each message.

use vstd::prelude::*;
use vstd::utf8;

use crate::frame;
use crate::frame::{Frame, FrameError, Refusal};
use crate::text;
use crate::text::{push_signed, push_text};

verus! {

/// A parsed URL.
#[verifier::external_type_specification]
#[verifier::external_body]
pub struct ExUrl(url::Url);

/// A URL as text.
pub uninterp spec fn url_text(url: url::Url) -> Seq<char>;

/// The URL that `input` is, as `url::Url::parse` reads and normalizes it; or
/// what it says is wrong with it.
pub uninterp spec fn url_parsed(input: Seq<char>) -> Result<url::Url, Seq<char>>;

/// The URL `url` with its path replaced, as `url::Url::set_path` does it.
pub uninterp spec fn url_with_path(url: url::Url, path: Seq<char>) -> url::Url;

/// The URL `url` with its query replaced, as `url::Url::set_query` does it.
pub uninterp spec fn url_with_query(url: url::Url, query: Seq<char>) -> url::Url;

/// A URL keeps positions in its text in 32 bits. `added` fits in where the text
/// stays within them even if every byte of it is percent-encoded and a few
/// separators come along.
pub open spec fn fits_in(url: url::Url, added: Seq<char>) -> bool {
    utf8::encode_utf8(url_text(url)).len() + 3 * utf8::encode_utf8(added).len() + 8 <= u32::MAX
}

/// A URL, or the text of an error.
pub open spec fn said(r: Result<url::Url, String>) -> Result<url::Url, Seq<char>> {
    match r {
        Ok(url) => Ok(url),
        Err(why) => Err(why@),
    }
}

/// Parses a URL by `url::Url::parse`. What comes out, the URL or the text of the
/// error, depends on the input alone.
#[verifier::external_body]
fn parse_url(input: &str) -> (r: Result<url::Url, String>)
    ensures
        said(r) == url_parsed(input@),
{
    url::Url::parse(input).map_err(|err| err.to_string())
}

/// Replaces the path by `url::Url::set_path`. What comes out depends on the URL
/// and the path alone. The call panics where a position in the text outgrows 32
/// bits.
#[verifier::external_body]
fn set_path(url: &mut url::Url, path: &str)
    requires
        fits_in(*old(url), path@),
    ensures
        *final(url) == url_with_path(*old(url), path@),
{
    url.set_path(path)
}

/// Replaces the query by `url::Url::set_query`. What comes out depends on the
/// URL and the query alone. The call panics where a position in the text
/// outgrows 32 bits.
#[verifier::external_body]
fn set_query(url: &mut url::Url, query: &str)
    requires
        fits_in(*old(url), query@),
    ensures
        *final(url) == url_with_query(*old(url), query@),
{
    url.set_query(Some(query))
}

/// The text of a URL, by `url::Url::as_str`.
#[verifier::external_body]
fn to_string(url: &url::Url) -> (r: String)
    ensures
        r@ == url_text(*url),
{
    url.as_str().to_owned()
}

/// Why there is no address to connect to.
#[derive(Debug, PartialEq, Eq)]
pub enum EndpointError {
    /// The upstream is no URL, and why.
    Url(String),
    /// The address would be too long for a URL.
    TooLong,
}

/// What an [`EndpointError`] stands for.
pub enum NoEndpoint {
    Url(Seq<char>),
    TooLong,
}

impl EndpointError {
    pub open spec fn view(self) -> NoEndpoint {
        match self {
            EndpointError::Url(why) => NoEndpoint::Url(why@),
            EndpointError::TooLong => NoEndpoint::TooLong,
        }
    }

    /// The line of text that says what was wrong.
    pub open spec fn text(self) -> Seq<char> {
        match self {
            EndpointError::Url(why) => why@,
            EndpointError::TooLong => "URL is too long"@,
        }
    }

    /// What was wrong, as one line of text.
    pub fn to_text(&self) -> (r: String)
        ensures
            r@ == self.text(),
    {
        let mut out = String::new();
        match self {
            EndpointError::Url(why) => push_text(&mut out, why.as_str()),
            EndpointError::TooLong => push_text(&mut out, "URL is too long"),
        }
        proof {
            assert(out@ =~= self.text());
        }
        out
    }
}

/// The path of the firehose at its host.
pub open spec fn xrpc_path() -> Seq<char> {
    "/xrpc/com.atproto.sync.subscribeRepos"@
}

/// The query that asks to resume after `cursor`.
pub open spec fn cursor_query(cursor: i64) -> Seq<char> {
    "cursor="@ + text::signed_decimal(cursor as int)
}

/// Where to connect: the XRPC path at the upstream, and the cursor to resume
/// from where there is one.
pub open spec fn endpoint_of(base: url::Url, cursor: Option<i64>) -> url::Url {
    let at = url_with_path(base, xrpc_path());
    match cursor {
        Some(c) => url_with_query(at, cursor_query(c)),
        None => at,
    }
}

/// The address has room for the XRPC path and for the cursor.
pub open spec fn has_room(base: url::Url, cursor: Option<i64>) -> bool {
    &&& fits_in(base, xrpc_path())
    &&& cursor matches Some(c) ==> fits_in(url_with_path(base, xrpc_path()), cursor_query(c))
}

/// Whether `added` fits in `url`.
fn has_room_for(url: &url::Url, added: &str) -> (r: bool)
    ensures
        r == fits_in(*url, added@),
{
    let text = to_string(url);
    let held = text.as_str().as_bytes().len();
    let more = added.as_bytes().len();
    held as u128 + 3 * more as u128 + 8 <= u32::MAX as u128
}

/// Where to connect for an upstream firehose. `upstream` is the host base (e.g.
/// `wss://bsky.network` or `ws://localhost:2583`); the XRPC path is appended
/// here.
pub fn endpoint(upstream: &str, cursor: Option<i64>) -> (r: Result<String, EndpointError>)
    ensures
        match url_parsed(upstream@) {
            Ok(base) => if has_room(base, cursor) {
                r matches Ok(url) && url@ == url_text(endpoint_of(base, cursor))
            } else {
                r matches Err(e) && e@ is TooLong
            },
            Err(why) => r matches Err(e) && e@ == NoEndpoint::Url(why),
        },
{
    let mut url = match parse_url(upstream) {
        Ok(url) => url,
        Err(why) => {
            return Err(EndpointError::Url(why));
        },
    };
    let path = "/xrpc/com.atproto.sync.subscribeRepos";
    if !has_room_for(&url, path) {
        return Err(EndpointError::TooLong);
    }
    set_path(&mut url, path);
    if let Some(c) = cursor {
        let mut query = String::new();
        push_text(&mut query, "cursor=");
        push_signed(&mut query, c);
        proof {
            assert(query@ =~= cursor_query(c));
        }
        if !has_room_for(&url, query.as_str()) {
            return Err(EndpointError::TooLong);
        }
        set_query(&mut url, query.as_str());
    }
    Ok(to_string(&url))
}

/// A message from upstream.
#[derive(Debug)]
pub enum Incoming {
    Binary(Vec<u8>),
    Ping,
    Pong,
    Close,
    Other,
}

/// What to do with a message.
#[derive(Debug)]
pub enum IngestAction {
    /// Hand the frame on.
    Forward(Frame),
    /// The frame is invalid DRISL or not at-sync-shaped. atmoq is DRISL-strict
    /// by design: the frame is not republished; the relay carries valid frames
    /// only.
    Reject(FrameError),
    /// Nothing.
    Ignore,
    /// The upstream closed the connection.
    Stop,
    /// The message is of a kind that is not expected.
    Unexpected,
}

/// What is to be done with a message.
pub open spec fn ingested(message: Incoming, action: IngestAction) -> bool {
    match message {
        Incoming::Binary(data) => match (action, frame::parsed(data@)) {
            (IngestAction::Forward(frame), Ok(fields)) => {
                &&& frame::held(frame.op, frame.t, frame.seq) == fields
                &&& frame.raw@ == data@
            },
            (IngestAction::Reject(e), Err(refusal)) => e@ == refusal,
            _ => false,
        },
        Incoming::Ping | Incoming::Pong => action is Ignore,
        Incoming::Close => action is Stop,
        Incoming::Other => action is Unexpected,
    }
}

/// Says what to do with a message from upstream.
pub fn on_message(message: Incoming) -> (action: IngestAction)
    ensures
        ingested(message, action),
{
    match message {
        Incoming::Binary(data) => match Frame::parse(data) {
            Ok(frame) => IngestAction::Forward(frame),
            Err(e) => IngestAction::Reject(e),
        },
        Incoming::Ping => IngestAction::Ignore,
        Incoming::Pong => IngestAction::Ignore,
        Incoming::Close => IngestAction::Stop,
        Incoming::Other => IngestAction::Unexpected,
    }
}

/// Frames are republished byte for byte: what is handed on is what came in, and
/// it keeps the DRISL rules.
pub proof fn law_forwarded_frames_are_what_came(data: Vec<u8>, forwarded: Frame)
    requires
        ingested(Incoming::Binary(data), IngestAction::Forward(forwarded)),
    ensures
        forwarded.raw@ == data@,
        frame::two_items(data@) is Ok,
{
}

/// What is no valid frame is never handed on.
pub proof fn law_invalid_frames_are_rejected(data: Vec<u8>, action: IngestAction)
    requires
        frame::parsed(data@) is Err,
        ingested(Incoming::Binary(data), action),
    ensures
        action matches IngestAction::Reject(e) && Err::<frame::Fields, Refusal>(e@)
            == frame::parsed(data@),
{
}

/// The address is the base with the path of the firehose, and with the cursor as
/// its query wherever there is one, however large or small: `cursor=` and the
/// number. Only without a cursor is the query left as it was.
pub proof fn law_address_carries_the_cursor(base: url::Url, cursor: i64)
    ensures
        endpoint_of(base, Some(cursor)) == url_with_query(
            url_with_path(base, "/xrpc/com.atproto.sync.subscribeRepos"@),
            "cursor="@ + text::signed_decimal(cursor as int),
        ),
        endpoint_of(base, None) == url_with_path(base, "/xrpc/com.atproto.sync.subscribeRepos"@),
{
}

/// Two cursors ask with two different queries, and each can be read back from
/// its query.
pub proof fn law_cursor_queries_tell_the_cursor(a: i64, b: i64)
    ensures
        cursor_query(a) == cursor_query(b) <==> a == b,
        cursor_query(a) == "cursor="@ + cursor_query(a).skip(7),
        text::parsed_i64(cursor_query(a).skip(7)) == Ok::<int, text::NumberFault>(a as int),
{
    reveal_strlit("cursor=");
    let x = text::signed_decimal(a as int);
    let y = text::signed_decimal(b as int);
    assert(cursor_query(a).skip(7) =~= x);
    assert(cursor_query(b).skip(7) =~= y);
    text::laws::law_signed_numbers_are_read_back(a);
    text::laws::law_signed_numbers_are_read_back(b);
}

/// An address that is short of 4 GiB by more than what is added, even if every
/// byte of that is written as three, has room for it.
pub proof fn law_ordinary_addresses_have_room(url: url::Url, added: Seq<char>)
    requires
        utf8::encode_utf8(url_text(url)).len() <= 4_000_000_000,
        utf8::encode_utf8(added).len() <= 1_000_000,
    ensures
        fits_in(url, added),
{
}

/// There is room for the address exactly where the path fits the base, and the
/// cursor, where there is one, fits what that gives.
pub proof fn law_room_is_for_path_and_cursor(base: url::Url, cursor: i64)
    ensures
        has_room(base, None) <==> fits_in(base, "/xrpc/com.atproto.sync.subscribeRepos"@),
        has_room(base, Some(cursor)) <==> has_room(base, None) && fits_in(
            url_with_path(base, "/xrpc/com.atproto.sync.subscribeRepos"@),
            "cursor="@ + text::signed_decimal(cursor as int),
        ),
{
}

/// A valid frame is handed on, with its fields, and never dropped.
pub proof fn law_valid_frames_are_forwarded(data: Vec<u8>, action: IngestAction)
    requires
        frame::parsed(data@) is Ok,
        ingested(Incoming::Binary(data), action),
    ensures
        action matches IngestAction::Forward(f) && f.raw@ == data@ && Ok::<frame::Fields, Refusal>(
            frame::held(f.op, f.t, f.seq),
        ) == frame::parsed(data@),
{
}

/// Reading stops where the upstream closes the connection and at nothing else;
/// pings and pongs are passed over.
pub proof fn law_only_closing_stops(message: Incoming, action: IngestAction)
    requires
        ingested(message, action),
    ensures
        action is Stop <==> message is Close,
        action is Ignore <==> message is Ping || message is Pong,
        action is Unexpected <==> message is Other,
{
}

/// What is said of an address is the address, or the words of the error.
pub proof fn law_said_is_what_was_said(url: url::Url, why: String)
    ensures
        said(Ok(url)) == Ok::<url::Url, Seq<char>>(url),
        said(Err(why)) == Err::<url::Url, Seq<char>>(why@),
        EndpointError::Url(why)@ == NoEndpoint::Url(why@),
        EndpointError::TooLong@ is TooLong,
        EndpointError::Url(why).text() == why@,
{
}

/// What does not fit 32 bits has no room.
pub proof fn law_room_is_bounded(url: url::Url, added: Seq<char>)
    requires
        fits_in(url, added),
    ensures
        utf8::encode_utf8(url_text(url)).len() + 3 * utf8::encode_utf8(added).len() <= u32::MAX,
{
}

} // verus!
