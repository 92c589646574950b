//! A resilient MoQ track reader: resubscribes across publisher restarts, skips
//! groups truncated by a publisher dying mid-write. This module says what to do
//! next; the sessions are the caller's.

use vstd::prelude::*;

verus! {

/// The wait after a failed subscription, in milliseconds.
pub const SUBSCRIBE_RETRY_MS: u64 = 1000;

/// The wait after a track ended, in milliseconds.
pub const TRACK_RETRY_MS: u64 = 500;

/// What happens to the reader.
#[derive(Debug, Clone, Copy, PartialEq, Eq)]
pub enum ReaderEvent {
    /// The reader starts, or has waited.
    Ready,
    /// The broadcast was announced, or the origin closed.
    Announced { found: bool },
    /// The track was subscribed to, or could not be.
    Subscribed { ok: bool },
    /// The next group came.
    GroupOpened { sequence: u64 },
    /// The track ended.
    TrackEnded,
    /// The track failed.
    TrackFailed,
    /// A frame of the group came.
    FrameRead,
    /// The group ended.
    GroupEnded,
    /// The rest of the group is lost.
    FrameFailed,
    /// The frame was handed on, or nobody takes frames any more.
    Delivered { taken: bool },
}

/// What the reader is to do.
#[derive(Debug, Clone, Copy, PartialEq, Eq, Structural)]
pub enum ReaderAction {
    /// Wait for the broadcast to be announced.
    AwaitBroadcast,
    /// Subscribe to the track.
    Subscribe,
    /// Wait for the next group.
    NextGroup,
    /// Read the next frame of the group.
    ReadFrame,
    /// Hand the frame on, as one of this group.
    Deliver { group: u64 },
    /// Wait, then start over.
    Pause { ms: u64 },
    /// Stop for good.
    Stop,
}

/// A reader.
#[derive(Debug, Clone, Copy, PartialEq, Eq, Structural)]
pub struct Reader {
    /// The group that is read.
    pub group: u64,
}

/// What the reader does on an event, and where it stands then.
pub open spec fn reader_step(r: Reader, event: ReaderEvent) -> (Reader, ReaderAction) {
    match event {
        ReaderEvent::Ready => (r, ReaderAction::AwaitBroadcast),
        ReaderEvent::Announced { found } => (
            r,
            if found {
                ReaderAction::Subscribe
            } else {
                ReaderAction::Stop
            },
        ),
        ReaderEvent::Subscribed { ok } => (
            r,
            if ok {
                ReaderAction::NextGroup
            } else {
                ReaderAction::Pause { ms: SUBSCRIBE_RETRY_MS }
            },
        ),
        ReaderEvent::GroupOpened { sequence } => (
            Reader { group: sequence },
            ReaderAction::ReadFrame,
        ),
        ReaderEvent::TrackEnded | ReaderEvent::TrackFailed => (
            r,
            ReaderAction::Pause { ms: TRACK_RETRY_MS },
        ),
        ReaderEvent::FrameRead => (r, ReaderAction::Deliver { group: r.group }),
        ReaderEvent::GroupEnded | ReaderEvent::FrameFailed => (r, ReaderAction::NextGroup),
        ReaderEvent::Delivered { taken } => (
            r,
            if taken {
                ReaderAction::ReadFrame
            } else {
                ReaderAction::Stop
            },
        ),
    }
}

impl Reader {
    /// A reader that has read nothing.
    pub fn new() -> (r: Reader)
        ensures
            r == (Reader { group: 0 }),
    {
        Reader { group: 0 }
    }

    /// Says what to do on an event.
    pub fn step(&mut self, event: ReaderEvent) -> (action: ReaderAction)
        ensures
            *final(self) == reader_step(*old(self), event).0,
            action == reader_step(*old(self), event).1,
    {
        match event {
            ReaderEvent::Ready => ReaderAction::AwaitBroadcast,
            ReaderEvent::Announced { found } => if found {
                ReaderAction::Subscribe
            } else {
                ReaderAction::Stop
            },
            ReaderEvent::Subscribed { ok } => if ok {
                ReaderAction::NextGroup
            } else {
                ReaderAction::Pause { ms: SUBSCRIBE_RETRY_MS }
            },
            ReaderEvent::GroupOpened { sequence } => {
                self.group = sequence;
                ReaderAction::ReadFrame
            },
            ReaderEvent::TrackEnded => ReaderAction::Pause { ms: TRACK_RETRY_MS },
            ReaderEvent::TrackFailed => ReaderAction::Pause { ms: TRACK_RETRY_MS },
            ReaderEvent::FrameRead => ReaderAction::Deliver { group: self.group },
            ReaderEvent::GroupEnded => ReaderAction::NextGroup,
            ReaderEvent::FrameFailed => ReaderAction::NextGroup,
            ReaderEvent::Delivered { taken } => if taken {
                ReaderAction::ReadFrame
            } else {
                ReaderAction::Stop
            },
        }
    }
}

/// The reader survives everything but its ends: it stops only where the origin
/// closed or nobody takes frames any more.
pub proof fn law_reader_stops_only_at_its_ends(r: Reader, event: ReaderEvent)
    ensures
        reader_step(r, event).1 is Stop <==> {
            ||| event == ReaderEvent::Announced { found: false }
            ||| event == ReaderEvent::Delivered { taken: false }
        },
{
}

/// A frame is handed on as one of the group that it was read from.
pub proof fn law_frames_keep_their_group(r: Reader, sequence: u64)
    ensures
        ({
            let opened = reader_step(r, ReaderEvent::GroupOpened { sequence }).0;
            let (after, action) = reader_step(opened, ReaderEvent::FrameRead);
            &&& action == ReaderAction::Deliver { group: sequence }
            &&& after == opened
            &&& reader_step(after, ReaderEvent::Delivered { taken: true }).0 == opened
        }),
{
}

/// A track that ended or failed is subscribed to again half a second later, and
/// a subscription that failed is tried again a second later: after the pause the
/// reader waits for the broadcast, and subscribes once it is there.
pub proof fn law_reader_comes_back(r: Reader)
    ensures
        reader_step(r, ReaderEvent::TrackEnded).1 == (ReaderAction::Pause { ms: 500 }),
        reader_step(r, ReaderEvent::TrackFailed).1 == (ReaderAction::Pause { ms: 500 }),
        reader_step(r, ReaderEvent::Subscribed { ok: false }).1 == (ReaderAction::Pause {
            ms: 1000,
        }),
        reader_step(r, ReaderEvent::Ready).1 is AwaitBroadcast,
        reader_step(r, ReaderEvent::Announced { found: true }).1 is Subscribe,
        reader_step(r, ReaderEvent::Subscribed { ok: true }).1 is NextGroup,
{
}

/// A group is read frame by frame until it ends; one that breaks off is left for
/// the next. Nothing but a new group changes the group that is read.
pub proof fn law_groups_are_read_to_their_end(r: Reader, event: ReaderEvent, sequence: u64)
    ensures
        reader_step(r, ReaderEvent::GroupOpened { sequence }).1 is ReadFrame,
        reader_step(r, ReaderEvent::Delivered { taken: true }).1 is ReadFrame,
        reader_step(r, ReaderEvent::GroupEnded).1 is NextGroup,
        reader_step(r, ReaderEvent::FrameFailed).1 is NextGroup,
        reader_step(r, ReaderEvent::FrameRead).1 is Deliver,
        !(event is GroupOpened) ==> reader_step(r, event).0 == r,
{
}

} // verus!
