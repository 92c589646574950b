//! What holds of every router.

use vstd::prelude::*;
use vstd::utf8;

use crate::cbor;
use crate::cbor::Tree;
use crate::drisl::item;
use crate::drisl::item::Item;
use crate::frame;
use crate::router;
use crate::router::{DidTrack, RouterState};
use crate::text;

verus! {

/// What happens to a router.
pub enum RouterEvent {
    /// A track of this name is requested.
    Request(Seq<char>),
    /// This materialization of the track of a DID lost its last subscriber.
    Unused(Seq<char>, u64),
    /// A frame is written to the track of a DID.
    Wrote(Seq<char>),
    /// The track of a DID starts a new group.
    Restarted(Seq<char>),
}

/// The router after an event.
pub open spec fn after(s: RouterState, event: RouterEvent) -> RouterState {
    match event {
        RouterEvent::Request(did) => router::admitted(s, did),
        RouterEvent::Unused(did, generation) => router::idled(s, did, generation),
        RouterEvent::Wrote(did) => router::counted(s, did),
        RouterEvent::Restarted(did) => router::restarted(s, did),
    }
}

/// The router after events, one after the other.
pub open spec fn after_all(s: RouterState, events: Seq<RouterEvent>) -> RouterState
    decreases events.len(),
{
    if events.len() == 0 {
        s
    } else {
        after(after_all(s, events.drop_last()), events.last())
    }
}

/// Every track that is served was materialized before now.
pub open spec fn in_sequence(s: RouterState) -> bool {
    forall|did: Seq<char>| #[trigger]
        s.tracks.contains_key(did) ==> s.tracks[did].generation < s.next_generation
}

/// At every moment, whatever was requested, dropped, written and restarted: no
/// more tracks are served than the cap allows, and every one is named by a DID.
pub proof fn law_every_moment_within_cap_and_dids(
    group_size: usize,
    max_tracks: usize,
    events: Seq<RouterEvent>,
)
    ensures
        ({
            let s = after_all(router::fresh(group_size, max_tracks), events);
            &&& s.max_tracks == router::cap_of(max_tracks)
            &&& router::within_cap(s)
            &&& router::names_are_dids(s)
        }),
    decreases events.len(),
{
    if events.len() > 0 {
        law_every_moment_within_cap_and_dids(group_size, max_tracks, events.drop_last());
    }
}

/// A request whose name is no DID, or that comes with as many tracks served as
/// the cap allows, is refused, and the tracks that are served stay as they are.
/// Every other request is granted and served.
pub proof fn law_refused_requests_are_not_served(s: RouterState, did: Seq<char>)
    ensures
        router::granted(s, did) is None <==> !router::looks_like_did(did) || s.tracks.len()
            >= s.max_tracks,
        router::granted(s, did) is None ==> router::admitted(s, did).tracks == s.tracks,
        !router::looks_like_did(did) ==> router::admitted(s, did) == s,
        router::granted(s, did) matches Some(generation) ==> router::serves(
            router::admitted(s, did),
            did,
            generation,
        ),
{
}

/// Every materialization has a generation that no earlier one had.
pub proof fn law_generations_are_fresh(s: RouterState, event: RouterEvent)
    requires
        in_sequence(s),
        s.next_generation < u64::MAX,
    ensures
        in_sequence(after(s, event)),
        s.next_generation <= after(s, event).next_generation <= s.next_generation + 1,
        event matches RouterEvent::Request(did) ==> (router::granted(s, did) is Some
            ==> after(s, event).next_generation > s.next_generation),
{
}

/// One of these events is a request for the track of `did` that was granted.
pub open spec fn regranted(s: RouterState, events: Seq<RouterEvent>, did: Seq<char>) -> bool
    decreases events.len(),
{
    events.len() > 0 && {
        ||| regranted(s, events.drop_last(), did)
        ||| events.last() == RouterEvent::Request(did) && router::granted(
            after_all(s, events.drop_last()),
            did,
        ) is Some
    }
}

proof fn lemma_newer_track_stays(
    s: RouterState,
    did: Seq<char>,
    generation: u64,
    events: Seq<RouterEvent>,
)
    requires
        generation < s.next_generation,
        s.next_generation + events.len() <= u64::MAX,
    ensures
        ({
            let t = after_all(s, events);
            &&& generation < t.next_generation <= s.next_generation + events.len()
            &&& regranted(s, events, did) && t.tracks.contains_key(did) ==> t.tracks[did].generation
                > generation
        }),
    decreases events.len(),
{
    if events.len() > 0 {
        lemma_newer_track_stays(s, did, generation, events.drop_last());
        if events.last() == RouterEvent::Request(did) {
            let before = after_all(s, events.drop_last());
            assert(before.next_generation > generation);
        }
    }
}

/// A watcher drops the track that it was made for and never a newer one of the
/// same DID: whatever happened since its track was granted, once a request for
/// that DID was granted again, that the older track became unused changes
/// nothing.
pub proof fn law_stale_watcher_drops_nothing(
    s: RouterState,
    did: Seq<char>,
    events: Seq<RouterEvent>,
)
    requires
        router::granted(s, did) is Some,
        s.next_generation + 1 + events.len() <= u64::MAX,
        regranted(router::admitted(s, did), events, did),
    ensures
        ({
            let t = after_all(router::admitted(s, did), events);
            let generation = router::granted(s, did)->0;
            &&& !router::serves(t, did, generation)
            &&& router::idled(t, did, generation) == t
        }),
{
    lemma_newer_track_stays(
        router::admitted(s, did),
        did,
        router::granted(s, did)->0,
        events,
    );
}

/// A track that lost its last subscriber is not served any more, and no other
/// track is touched.
pub proof fn law_unused_track_is_dropped(
    s: RouterState,
    did: Seq<char>,
    generation: u64,
    other: Seq<char>,
)
    requires
        router::serves(s, did, generation),
        other != did,
    ensures
        !router::idled(s, did, generation).tracks.contains_key(did),
        router::idled(s, did, generation).tracks.contains_key(other)
            == s.tracks.contains_key(other),
        s.tracks.contains_key(other) ==> router::idled(s, did, generation).tracks[other]
            == s.tracks[other],
{
}

/// A frame goes to its own account's track or to none: never to another's.
pub proof fn law_frames_go_to_their_account(s: RouterState, raw: Seq<u8>)
    ensures
        router::target_of(s, raw) matches Some(did) ==> {
            &&& router::event_account(raw) == Some(did)
            &&& s.tracks.contains_key(did)
        },
        router::event_account(raw) matches Some(did) ==> (s.tracks.contains_key(did)
            ==> router::target_of(s, raw) == Some(did)),
{
}

/// Groups in progress are not full.
pub open spec fn groups_open(s: RouterState) -> bool {
    forall|did: Seq<char>| #[trigger]
        s.tracks.contains_key(did) ==> s.tracks[did].count < s.group_size
}

/// A group is full exactly when it has as many frames as a group has, and
/// starting a new one then keeps every group in progress short of full.
pub proof fn law_groups_are_closed_when_full(s: RouterState, did: Seq<char>)
    requires
        groups_open(s),
        s.tracks.contains_key(did),
        s.group_size > 0,
    ensures
        router::group_full(router::counted(s, did), did) <==> s.tracks[did].count + 1
            == s.group_size,
        router::group_full(router::counted(s, did), did) ==> groups_open(
            router::restarted(router::counted(s, did), did),
        ),
        !router::group_full(router::counted(s, did), did) ==> groups_open(
            router::counted(s, did),
        ),
{
}

/// The account of a payload is the text under `repo`; where there is no `repo`,
/// the text under `did`; whatever other entries it has. A `repo` that is no text
/// is no account, and neither is anything else.
pub proof fn law_account_is_repo_or_did(payload: Tree)
    ensures
        cbor::field_of(payload, "repo"@) matches Some(v) ==> router::account_of(payload) == (
        match v {
            Tree::Text(did) => Some(did),
            _ => None,
        }),
        cbor::field_of(payload, "repo"@) is None ==> router::account_of(payload) == (
        match cbor::field_of(payload, "did"@) {
            Some(Tree::Text(did)) => Some(did),
            _ => None,
        }),
{
}

/// An event goes to the track of the account that it was encoded with: the one
/// under `repo` of its payload, or where there is no `repo` the one under `did`,
/// whatever else its payload and its header hold.
pub proof fn law_events_go_to_the_account_they_name(
    s: RouterState,
    header: Item,
    payload: Seq<(Seq<u8>, Item)>,
    repo: Option<Item>,
    did: Seq<char>,
)
    requires
        item::fits(header, 0),
        item::fits(Item::Dict(payload), 0),
        cbor::laws::under(payload, "repo"@, repo),
        repo is None || repo == Some(Item::Text(utf8::encode_utf8(did))),
        repo is None ==> cbor::laws::under(
            payload,
            "did"@,
            Some(Item::Text(utf8::encode_utf8(did))),
        ),
    ensures
        ({
            let raw = item::encode(header) + item::encode(Item::Dict(payload));
            &&& router::event_account(raw) == Some(did)
            &&& s.tracks.contains_key(did) ==> router::target_of(s, raw) == Some(did)
            &&& !s.tracks.contains_key(did) ==> router::target_of(s, raw) is None
        }),
{
    frame::laws::law_two_encodings_are_a_frame(header, Item::Dict(payload));
    cbor::laws::law_field_is_what_was_encoded(payload, "repo"@, repo);
    utf8::encode_utf8_decode_utf8(did);
    if repo is None {
        cbor::laws::law_field_is_what_was_encoded(
            payload,
            "did"@,
            Some(Item::Text(utf8::encode_utf8(did))),
        );
    }
}

/// A frame that is no frame, or that names no account, goes nowhere.
pub proof fn law_events_without_account_go_nowhere(
    s: RouterState,
    raw: Seq<u8>,
    header: Item,
    payload: Seq<(Seq<u8>, Item)>,
)
    requires
        item::fits(header, 0),
        item::fits(Item::Dict(payload), 0),
        cbor::laws::under(payload, "repo"@, None),
        cbor::laws::under(payload, "did"@, None),
    ensures
        frame::two_items(raw) is Err ==> router::target_of(s, raw) is None,
        router::target_of(s, item::encode(header) + item::encode(Item::Dict(payload))) is None,
{
    frame::laws::law_two_encodings_are_a_frame(header, Item::Dict(payload));
    cbor::laws::law_field_is_what_was_encoded(payload, "repo"@, None);
    cbor::laws::law_field_is_what_was_encoded(payload, "did"@, None);
}

/// A track name looks like a DID exactly where it is `did:` and more, of seven
/// to 256 bytes together.
pub proof fn law_dids_start_with_did(name: Seq<char>, rest: Seq<char>)
    ensures
        router::looks_like_did("did:"@ + rest) <==> 7 <= utf8::encode_utf8("did:"@ + rest).len()
            <= 256,
        router::looks_like_did(name) ==> name == "did:"@ + name.skip(4),
        router::looks_like_did(name) ==> 7 <= utf8::encode_utf8(name).len() <= 256,
{
    reveal_strlit("did:");
    text::laws::law_prefix_and_suffix(name, "did:"@, rest);
}

/// A track that is granted starts with an empty group; writing to it, and
/// starting its next group, change its count and nothing else of any track.
pub proof fn law_tracks_count_their_own_frames(s: RouterState, did: Seq<char>, other: Seq<char>)
    requires
        s.tracks.contains_key(did),
        s.tracks[did].count < usize::MAX,
        other != did,
    ensures
        router::counted(s, did).tracks[did].count == s.tracks[did].count + 1,
        router::counted(s, did).tracks[did].generation == s.tracks[did].generation,
        router::restarted(s, did).tracks[did].count == 0,
        router::restarted(s, did).tracks[did].generation == s.tracks[did].generation,
        router::counted(s, did).tracks.dom() == s.tracks.dom(),
        router::restarted(s, did).tracks.dom() == s.tracks.dom(),
        router::counted(s, did).tracks[other] == s.tracks[other],
        router::restarted(s, did).tracks[other] == s.tracks[other],
        router::counted(s, other).tracks[did] == s.tracks[did],
        router::granted(s, other) is Some ==> router::admitted(s, other).tracks[other].count == 0,
        router::granted(s, other) is Some ==> router::admitted(s, other).tracks.remove(other)
            == s.tracks.remove(other),
{
    assert(router::counted(s, did).tracks.dom() =~= s.tracks.dom());
    assert(router::restarted(s, did).tracks.dom() =~= s.tracks.dom());
    if router::granted(s, other) is Some {
        assert(router::admitted(s, other).tracks.remove(other) =~= s.tracks.remove(other));
    }
}

/// The cap is what was asked for, and ten thousand where nothing was.
pub proof fn law_cap_is_what_was_asked_for(group_size: usize, max_tracks: usize)
    ensures
        router::cap_of(0) == 10_000,
        max_tracks > 0 ==> router::cap_of(max_tracks) == max_tracks,
        router::fresh(group_size, max_tracks).tracks == Map::<Seq<char>, DidTrack>::empty(),
        router::fresh(group_size, max_tracks).group_size == group_size,
        router::fresh(group_size, max_tracks).max_tracks == router::cap_of(max_tracks),
{
}

/// Nothing that happens to a router changes its cap or the size of its groups.
pub proof fn law_limits_stay(s: RouterState, event: RouterEvent)
    ensures
        after(s, event).max_tracks == s.max_tracks,
        after(s, event).group_size == s.group_size,
        !(event is Request) ==> after(s, event).next_generation == s.next_generation,
{
}

} // verus!
