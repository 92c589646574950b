//! The draft-ietf-moq-transport-07 publisher, for Cloudflare's production
//! relay: when to connect, when to write and when to wait; and the subscriber,
//! which numbers the groups that come.
//!
//! Cloudflare's relay closes whole sessions (e.g. code 0 on idle/peer loss, 404
//! on missing tracks), so publishing must be prepared to rebuild the session at
//! any time. Frames buffered upstream during the outage are not lost (channel
//! backpressure + cursor resume).

use vstd::prelude::*;

verus! {

/// The groups of one draft-07 session: one subgroup each, opened when the first
/// frame for it comes.
#[derive(Debug, Clone, Copy, PartialEq, Eq, Structural)]
pub struct Publisher07 {
    /// Whether a subgroup is open.
    pub open: bool,
    /// The id of the next group.
    pub group_id: u64,
    /// How many frames the open subgroup has.
    pub count: usize,
    /// Whether the session has ended. Writes succeed even after the session
    /// dies (they buffer locally), so liveness is signalled out of band.
    pub dead: bool,
}

/// A frame needs a new subgroup: there is none, or it is complete.
pub open spec fn needs_subgroup(p: Publisher07, group_size: usize) -> bool {
    !p.open || p.count >= group_size
}

/// The groups after the next subgroup was opened.
pub open spec fn subgroup_opened(p: Publisher07) -> Publisher07 {
    Publisher07 { open: true, group_id: p.group_id.wrapping_add(1), count: 0, ..p }
}

/// The groups after a frame was written.
pub open spec fn subgroup_grown(p: Publisher07) -> Publisher07 {
    Publisher07 { count: p.count.wrapping_add(1), ..p }
}

impl Publisher07 {
    /// No subgroup yet. Group ids must be unique across publisher restarts:
    /// relays cache groups per namespace, and an unauthenticated namespace
    /// outlives any one session. Restarting at 0 makes subscribers read a mix
    /// of stale cached groups and live ones. So the first id is the time, in
    /// milliseconds.
    pub fn new(now_ms: u64) -> (r: Publisher07)
        ensures
            r == (Publisher07 { open: false, group_id: now_ms, count: 0, dead: false }),
    {
        Publisher07 { open: false, group_id: now_ms, count: 0, dead: false }
    }

    /// Whether the session has ended.
    pub fn is_dead(&self) -> (r: bool)
        ensures
            r == self.dead,
    {
        self.dead
    }

    /// The session ended.
    pub fn ended(&mut self)
        ensures
            *final(self) == (Publisher07 { dead: true, ..*old(self) }),
    {
        self.dead = true;
    }

    /// The id of the group to open before the next frame, where one is to be
    /// opened.
    pub fn before_write(&self, group_size: usize) -> (r: Option<u64>)
        ensures
            r == (if needs_subgroup(*self, group_size) {
                Some(self.group_id)
            } else {
                None
            }),
    {
        if !self.open || self.count >= group_size {
            Some(self.group_id)
        } else {
            None
        }
    }

    /// The subgroup was opened.
    pub fn opened(&mut self)
        ensures
            *final(self) == subgroup_opened(*old(self)),
    {
        self.open = true;
        self.group_id = self.group_id.wrapping_add(1);
        self.count = 0;
    }

    /// A frame was written to the subgroup.
    pub fn wrote(&mut self)
        ensures
            *final(self) == subgroup_grown(*old(self)),
    {
        self.count = self.count.wrapping_add(1);
    }
}

/// A draft-07 group never grows past its size, and its id is never used again:
/// each new group has an id above every one before it.
pub proof fn law_subgroup_ids_ascend(p: Publisher07, group_size: usize)
    requires
        p.group_id < u64::MAX,
        group_size > 0,
        p.count <= group_size,
    ensures
        ({
            let ready = if needs_subgroup(p, group_size) {
                subgroup_opened(p)
            } else {
                p
            };
            let after = subgroup_grown(ready);
            &&& ready.open
            &&& after.count <= group_size
            &&& after.group_id >= p.group_id
            &&& needs_subgroup(p, group_size) ==> after.group_id == p.group_id + 1
        }),
{
}

/// The wait after a session died, in milliseconds.
pub const DEAD_SESSION_MS: u64 = 1000;

/// How long a new session is on probation, in milliseconds: an ANNOUNCE
/// rejection (e.g. namespace already claimed by another publisher) lands a few
/// hundred ms after connect. Writing before then silently loses frames into a
/// doomed session.
pub const PROBATION_MS: u64 = 500;

/// The wait after a failed attempt, in milliseconds.
pub const RETRY_MS: u64 = 2000;

/// What happens while a frame is being published.
#[derive(Debug, Clone, Copy, PartialEq, Eq)]
pub enum PublishEvent {
    /// An attempt begins; where there is a session, `dead` says whether it has
    /// ended.
    Begin { dead: bool },
    /// A session was established.
    Connected,
    /// No session could be established.
    ConnectFailed,
    /// The probation of the new session is over.
    Probed { dead: bool },
    /// The frame was written.
    Wrote,
    /// The frame could not be written.
    WriteFailed,
}

/// What to do next to get the frame published.
#[derive(Debug, Clone, Copy, PartialEq, Eq, Structural)]
pub enum PublishAction {
    /// Write the frame to the session.
    Write,
    /// Wait, then establish a session.
    Connect { after_ms: u64 },
    /// Wait, then see whether the new session is still there.
    Probe { after_ms: u64 },
    /// Drop the session, wait, then begin again.
    Retry { after_ms: u64 },
    /// The frame is published.
    Done,
}

/// A publisher that reconnects.
#[derive(Debug, Clone, Copy, PartialEq, Eq, Structural)]
pub struct ResilientPublisher {
    /// Whether there is a session to write to.
    pub connected: bool,
}

/// What the publisher does on an event, and where it stands then.
pub open spec fn publish_step(p: ResilientPublisher, event: PublishEvent) -> (
    ResilientPublisher,
    PublishAction,
) {
    let on = ResilientPublisher { connected: true };
    let off = ResilientPublisher { connected: false };
    match event {
        PublishEvent::Begin { dead } => if p.connected && !dead {
            (on, PublishAction::Write)
        } else if p.connected {
            (off, PublishAction::Connect { after_ms: DEAD_SESSION_MS })
        } else {
            (off, PublishAction::Connect { after_ms: 0 })
        },
        PublishEvent::Connected => (off, PublishAction::Probe { after_ms: PROBATION_MS }),
        PublishEvent::ConnectFailed => (off, PublishAction::Retry { after_ms: RETRY_MS }),
        PublishEvent::Probed { dead } => if dead {
            (off, PublishAction::Retry { after_ms: RETRY_MS })
        } else {
            (on, PublishAction::Write)
        },
        PublishEvent::Wrote => (p, PublishAction::Done),
        PublishEvent::WriteFailed => (off, PublishAction::Retry { after_ms: 0 }),
    }
}

impl ResilientPublisher {
    /// No session yet.
    pub fn new() -> (r: ResilientPublisher)
        ensures
            r == (ResilientPublisher { connected: false }),
    {
        ResilientPublisher { connected: false }
    }

    /// Says what to do next to get a frame published.
    pub fn write(&mut self, event: PublishEvent) -> (action: PublishAction)
        ensures
            *final(self) == publish_step(*old(self), event).0,
            action == publish_step(*old(self), event).1,
    {
        match event {
            PublishEvent::Begin { dead } => if self.connected && !dead {
                PublishAction::Write
            } else if self.connected {
                self.connected = false;
                PublishAction::Connect { after_ms: DEAD_SESSION_MS }
            } else {
                PublishAction::Connect { after_ms: 0 }
            },
            PublishEvent::Connected => {
                self.connected = false;
                PublishAction::Probe { after_ms: PROBATION_MS }
            },
            PublishEvent::ConnectFailed => {
                self.connected = false;
                PublishAction::Retry { after_ms: RETRY_MS }
            },
            PublishEvent::Probed { dead } => if dead {
                self.connected = false;
                PublishAction::Retry { after_ms: RETRY_MS }
            } else {
                self.connected = true;
                PublishAction::Write
            },
            PublishEvent::Wrote => PublishAction::Done,
            PublishEvent::WriteFailed => {
                self.connected = false;
                PublishAction::Retry { after_ms: 0 }
            },
        }
    }
}

/// Where a draft-07 subscription stands.
#[derive(Debug, Clone, Copy, PartialEq, Eq, Structural)]
pub struct Subscriber07 {
    /// How many subgroups have ended.
    pub group: u64,
}

impl Subscriber07 {
    /// The first subgroup is yet to come.
    pub fn new() -> (r: Subscriber07)
        ensures
            r == (Subscriber07 { group: 0 }),
    {
        Subscriber07 { group: 0 }
    }

    /// The group of an object that was read: subgroups are numbered as they
    /// come.
    pub fn object_group(&self) -> (r: u64)
        ensures
            r == self.group,
    {
        self.group
    }

    /// The subgroup ended.
    pub fn subgroup_ended(&mut self)
        ensures
            *final(self) == (Subscriber07 { group: old(self).group.wrapping_add(1) }),
    {
        self.group = self.group.wrapping_add(1);
    }
}

/// A frame is only ever written to a session that was there at the last look:
/// one that was alive when the attempt began, or that outlived its probation.
pub proof fn law_dead_sessions_get_no_frames(p: ResilientPublisher, event: PublishEvent)
    ensures
        publish_step(p, event).1 is Write <==> {
            ||| p.connected && event == PublishEvent::Begin { dead: false }
            ||| event == PublishEvent::Probed { dead: false }
        },
        publish_step(p, event).1 is Write ==> publish_step(p, event).0.connected,
{
}

/// A new session is written to only after its probation.
pub proof fn law_new_sessions_are_on_probation(p: ResilientPublisher)
    ensures
        publish_step(p, PublishEvent::Connected).1 == (PublishAction::Probe {
            after_ms: PROBATION_MS,
        }),
        !publish_step(p, PublishEvent::Connected).0.connected,
{
}

/// The frame counts as published only once it was written; a failed write is
/// tried again on a new session.
pub proof fn law_failed_writes_are_retried(p: ResilientPublisher, event: PublishEvent, dead: bool)
    ensures
        publish_step(p, event).1 is Done <==> event is Wrote,
        ({
            let (after, action) = publish_step(p, PublishEvent::WriteFailed);
            &&& action is Retry
            &&& publish_step(after, PublishEvent::Begin { dead }).1 is Connect
        }),
{
}

/// Where there is no session one is made at once; where one died, a second
/// later; where connecting failed or a new session did not outlive its
/// probation of half a second, another attempt is made two seconds later.
pub proof fn law_sessions_are_rebuilt(p: ResilientPublisher, dead: bool)
    ensures
        !p.connected ==> publish_step(p, PublishEvent::Begin { dead }).1 == (
        PublishAction::Connect { after_ms: 0 }),
        p.connected ==> publish_step(p, PublishEvent::Begin { dead: true }).1 == (
        PublishAction::Connect { after_ms: 1000 }),
        !publish_step(p, PublishEvent::Begin { dead: true }).0.connected,
        publish_step(p, PublishEvent::Connected).1 == (PublishAction::Probe { after_ms: 500 }),
        publish_step(p, PublishEvent::ConnectFailed).1 == (PublishAction::Retry {
            after_ms: 2000,
        }),
        publish_step(p, PublishEvent::Probed { dead: true }).1 == (PublishAction::Retry {
            after_ms: 2000,
        }),
        publish_step(p, PublishEvent::WriteFailed).1 == (PublishAction::Retry { after_ms: 0 }),
        !publish_step(p, PublishEvent::ConnectFailed).0.connected,
        !publish_step(p, PublishEvent::Probed { dead: true }).0.connected,
        !publish_step(p, PublishEvent::WriteFailed).0.connected,
        publish_step(p, PublishEvent::Wrote).0 == p,
{
}

/// A new subgroup is opened where none is open or the open one has as many
/// frames as a group has, and only there; it starts without frames, under the
/// next id, and each frame that is written is counted.
pub proof fn law_subgroups_are_filled(p: Publisher07, group_size: usize)
    requires
        p.group_id < u64::MAX,
        p.count < usize::MAX,
    ensures
        p.open && p.count < group_size <==> !needs_subgroup(p, group_size),
        subgroup_opened(p).open,
        subgroup_opened(p).count == 0,
        subgroup_opened(p).group_id == p.group_id + 1,
        subgroup_opened(p).dead == p.dead,
        subgroup_grown(p).count == p.count + 1,
        subgroup_grown(p).open == p.open,
        subgroup_grown(p).group_id == p.group_id,
        subgroup_grown(p).dead == p.dead,
{
}

} // verus!
