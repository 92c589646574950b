//! On-demand per-DID firehose tracks (selective sync).
//!
//! The aggregate `all` track carries every account's events. For consumers that
//! want only a known, small set of accounts (e.g. the ~50 people in a room),
//! this serves a **per-DID track** addressed by the account's DID as the track
//! name, materialized on demand and torn down when no longer subscribed.
//!
//! MoQ filters only by track (no in-track/subgroup content filter), so the
//! per-account view has to be its own track produced by the origin, the only
//! atproto-aware party. A generic relay just routes the opaque track name.
//!
//! The router keeps the table of tracks that are served and says what is to be
//! done with each: the producers themselves are the caller's, who tells the
//! router of every track request, every frame, and every track that has lost
//! its last subscriber.

pub mod laws;

use vstd::hash_map::StringHashMap;
use vstd::prelude::*;
use vstd::utf8;

use crate::cbor;
use crate::cbor::{field, Cbor, Tree};
use crate::frame;
use crate::frame::Frame;
use crate::text;
use crate::text::{chars_of, starts_with};

verus! {

/// Default cap on concurrently-served per-DID tracks: a safety bound on origin
/// memory/CPU. Distinct subscribers requesting the same DID share one track, so
/// this counts unique watched accounts, not subscriptions. Overridable via
/// `--max-did-tracks`. Note the cap is global, not per-session: one client can
/// exhaust it, locking everyone else out of selective sync until it
/// disconnects.
pub const MAX_DID_TRACKS: usize = 10_000;

/// A per-DID track that is served.
#[derive(Debug, Clone, Copy, PartialEq, Eq)]
pub struct DidTrack {
    /// How many frames its group in progress has.
    pub count: usize,
    /// Distinguishes this materialization from earlier ones of the same DID,
    /// so a stale watcher can't remove a fresh track.
    pub generation: u64,
}

/// What a [`DidRouter`] stands for.
pub struct RouterState {
    pub tracks: Map<Seq<char>, DidTrack>,
    pub next_generation: u64,
    pub group_size: usize,
    pub max_tracks: usize,
}

/// Routes firehose frames to the per-DID tracks downstream consumers have
/// subscribed to. Cheap when nothing is subscribed (a single emptiness check).
pub struct DidRouter {
    tracks: StringHashMap<DidTrack>,
    next_generation: u64,
    group_size: usize,
    max_tracks: usize,
}

/// The cap that `max_tracks` asks for.
pub open spec fn cap_of(max_tracks: usize) -> usize {
    if max_tracks == 0 {
        MAX_DID_TRACKS
    } else {
        max_tracks
    }
}

/// A router that serves no track yet.
pub open spec fn fresh(group_size: usize, max_tracks: usize) -> RouterState {
    RouterState {
        tracks: Map::empty(),
        next_generation: 0,
        group_size,
        max_tracks: cap_of(max_tracks),
    }
}

/// No more tracks are served than the cap allows.
pub open spec fn within_cap(s: RouterState) -> bool {
    s.tracks.dom().finite() && s.tracks.len() <= s.max_tracks
}

/// Every track that is served is named by a DID.
pub open spec fn names_are_dids(s: RouterState) -> bool {
    forall|did: Seq<char>| #[trigger] s.tracks.contains_key(did) ==> looks_like_did(did)
}

/// The account that this payload belongs to: `repo` for `#commit`, otherwise
/// `did` (`#identity` / `#account` / `#sync`). None if it has neither.
pub open spec fn account_of(payload: Tree) -> Option<Seq<char>> {
    let found = match cbor::field_of(payload, "repo"@) {
        Some(v) => Some(v),
        None => cbor::field_of(payload, "did"@),
    };
    match found {
        Some(Tree::Text(did)) => Some(did),
        _ => None,
    }
}

/// The account that a firehose event belongs to.
pub open spec fn event_account(raw: Seq<u8>) -> Option<Seq<char>> {
    match frame::decoded(raw) {
        Ok((_, payload)) => account_of(payload),
        Err(_) => None,
    }
}

/// Whether a track name looks like a DID.
pub open spec fn looks_like_did(name: Seq<char>) -> bool {
    text::has_prefix(name, "did:"@) && 7 <= utf8::encode_utf8(name).len() <= 256
}

/// The generation that a request for the track of `did` is granted: none where
/// the name is no DID or the cap is reached.
pub open spec fn granted(s: RouterState, did: Seq<char>) -> Option<u64> {
    if !looks_like_did(did) || s.tracks.len() >= s.max_tracks {
        None
    } else {
        Some(s.next_generation)
    }
}

/// The router after a request for the track of `did`. A name that is no DID
/// leaves no trace; any other request uses up a generation.
pub open spec fn admitted(s: RouterState, did: Seq<char>) -> RouterState {
    if !looks_like_did(did) {
        s
    } else {
        RouterState {
            tracks: match granted(s, did) {
                Some(generation) => s.tracks.insert(did, DidTrack { count: 0, generation }),
                None => s.tracks,
            },
            next_generation: s.next_generation.wrapping_add(1),
            ..s
        }
    }
}

/// This materialization of the track of `did` is the one that is served.
pub open spec fn serves(s: RouterState, did: Seq<char>, generation: u64) -> bool {
    s.tracks.contains_key(did) && s.tracks[did].generation == generation
}

/// The router after this materialization of the track of `did` lost its last
/// subscriber.
pub open spec fn idled(s: RouterState, did: Seq<char>, generation: u64) -> RouterState {
    if serves(s, did, generation) {
        RouterState { tracks: s.tracks.remove(did), ..s }
    } else {
        s
    }
}

/// The router after a frame was written to the track of `did`.
pub open spec fn counted(s: RouterState, did: Seq<char>) -> RouterState {
    if s.tracks.contains_key(did) {
        let track = s.tracks[did];
        RouterState {
            tracks: s.tracks.insert(
                did,
                DidTrack { count: track.count.wrapping_add(1), ..track },
            ),
            ..s
        }
    } else {
        s
    }
}

/// The group in progress of the track of `did` is full.
pub open spec fn group_full(s: RouterState, did: Seq<char>) -> bool {
    s.tracks.contains_key(did) && s.tracks[did].count >= s.group_size
}

/// The router after the track of `did` started a new group.
pub open spec fn restarted(s: RouterState, did: Seq<char>) -> RouterState {
    if s.tracks.contains_key(did) {
        RouterState {
            tracks: s.tracks.insert(did, DidTrack { count: 0, ..s.tracks[did] }),
            ..s
        }
    } else {
        s
    }
}

/// The track that a frame goes to.
pub open spec fn target_of(s: RouterState, raw: Seq<u8>) -> Option<Seq<char>> {
    match event_account(raw) {
        Some(did) => if s.tracks.contains_key(did) {
            Some(did)
        } else {
            None
        },
        None => None,
    }
}

/// The account that this payload belongs to.
pub fn account(payload: &Cbor) -> (r: Option<String>)
    ensures
        frame::text_of(r) == account_of(payload@),
{
    let found = match field(payload, "repo") {
        Some(v) => Some(v),
        None => field(payload, "did"),
    };
    match found {
        Some(Cbor::Text(did)) => Some(did.clone()),
        _ => None,
    }
}

/// The account a firehose event belongs to: `repo` for `#commit`, otherwise
/// `did` (`#identity` / `#account` / `#sync`). None if the payload has neither.
pub fn event_did(raw: &[u8]) -> (r: Option<String>)
    ensures
        frame::text_of(r) == event_account(raw@),
{
    match Frame::decode(raw) {
        Ok((_, payload)) => account(&payload),
        Err(_) => None,
    }
}

/// Light DID syntax gate so junk track names can't spin up tracks.
pub fn is_did(name: &str) -> (r: bool)
    ensures
        r == looks_like_did(name@),
{
    let chars = chars_of(name);
    let prefix = chars_of("did:");
    let len = name.as_bytes().len();
    starts_with(chars.as_slice(), prefix.as_slice()) && 7 <= len && len <= 256
}

impl DidRouter {
    /// The cap is kept, and every track is named by a DID.
    pub open spec fn wf(self) -> bool {
        within_cap(self@) && names_are_dids(self@)
    }

    pub closed spec fn view(self) -> RouterState {
        RouterState {
            tracks: self.tracks@,
            next_generation: self.next_generation,
            group_size: self.group_size,
            max_tracks: self.max_tracks,
        }
    }

    /// A router that serves no track yet. A group of a track is full at
    /// `group_size` frames; `max_tracks` caps concurrently-served DIDs (0 = the
    /// default cap).
    pub fn new(group_size: usize, max_tracks: usize) -> (r: DidRouter)
        ensures
            r.wf(),
            r@ == fresh(group_size, max_tracks),
    {
        DidRouter {
            tracks: StringHashMap::new(),
            next_generation: 0,
            group_size,
            max_tracks: if max_tracks == 0 {
                MAX_DID_TRACKS
            } else {
                max_tracks
            },
        }
    }

    /// How many tracks are served.
    pub fn len(&self) -> (r: usize)
        ensures
            r == self@.tracks.len(),
    {
        self.tracks.len()
    }

    /// Whether no track is served.
    pub fn is_empty(&self) -> (r: bool)
        ensures
            r == (self@.tracks == Map::<Seq<char>, DidTrack>::empty()),
    {
        let none = self.tracks.is_empty();
        proof {
            if none {
                assert(self@.tracks =~= Map::<Seq<char>, DidTrack>::empty());
            }
        }
        none
    }

    /// A track of this name was requested, and its first group is open: serve
    /// it, if it is a DID and there is room, and say which materialization it
    /// is. Any other request is to be refused.
    pub fn request(&mut self, did: String) -> (r: Option<u64>)
        requires
            old(self).wf(),
        ensures
            final(self).wf(),
            final(self)@ == admitted(old(self)@, did@),
            r == granted(old(self)@, did@),
    {
        if !is_did(did.as_str()) {
            return None;
        }
        let generation = self.next_generation;
        self.next_generation = generation.wrapping_add(1);
        if self.tracks.len() >= self.max_tracks {
            return None;
        }
        self.tracks.insert(did, DidTrack { count: 0, generation });
        Some(generation)
    }

    /// The last subscriber of this materialization of the track of `did` left:
    /// drop the track, and say whether it was dropped. Guarded by generation:
    /// without it, a subscriber leaving and a new one requesting the same DID
    /// could race, and the stale watcher would remove the *fresh* track, leaving
    /// the new subscriber attached to a track that never receives another frame.
    pub fn unused(&mut self, did: &str, generation: u64) -> (dropped: bool)
        requires
            old(self).wf(),
        ensures
            final(self).wf(),
            final(self)@ == idled(old(self)@, did@, generation),
            dropped == serves(old(self)@, did@, generation),
    {
        let serving = match self.tracks.get(did) {
            Some(track) => track.generation == generation,
            None => false,
        };
        if serving {
            self.tracks.remove(did);
        }
        serving
    }

    /// The track that a frame goes to, if one is being served: its account's.
    /// Nothing (after a single check) when no per-DID tracks are active.
    pub fn route(&self, raw: &[u8]) -> (r: Option<String>)
        ensures
            frame::text_of(r) == target_of(self@, raw@),
    {
        if self.is_empty() {
            return None;
        }
        match event_did(raw) {
            Some(did) => if self.tracks.contains_key(did.as_str()) {
                Some(did)
            } else {
                None
            },
            None => None,
        }
    }

    /// A frame was written to the track of `did`; says whether its group is full
    /// and a new one is to be started.
    pub fn wrote(&mut self, did: &str) -> (full: bool)
        requires
            old(self).wf(),
        ensures
            final(self).wf(),
            final(self)@ == counted(old(self)@, did@),
            full == group_full(final(self)@, did@),
    {
        let track = match self.tracks.get(did) {
            Some(track) => *track,
            None => {
                return false;
            },
        };
        let count = track.count.wrapping_add(1);
        self.tracks.insert(did.to_owned(), DidTrack { count, ..track });
        count >= self.group_size
    }

    /// The track of `did` started a new group.
    pub fn restart_group(&mut self, did: &str)
        requires
            old(self).wf(),
        ensures
            final(self).wf(),
            final(self)@ == restarted(old(self)@, did@),
    {
        let track = match self.tracks.get(did) {
            Some(track) => *track,
            None => {
                return;
            },
        };
        self.tracks.insert(did.to_owned(), DidTrack { count: 0, ..track });
    }
}

} // verus!
