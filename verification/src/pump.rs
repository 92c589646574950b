//! The main pump: upstream frames go to the publisher, with sequence dedupe,
//! periodic cursor persistence, and a clean finish.

use vstd::prelude::*;

use crate::frame;
use crate::resume;
use crate::resume::persist_cursor;

verus! {

/// How often the cursor is persisted, in seconds.
pub const CURSOR_TICK_SECS: u64 = 5;

/// How often the store is garbage-collected, in seconds: a slower cadence than
/// cursor flushes.
pub const GC_TICK_SECS: u64 = 30;

/// Where the pump stands.
#[derive(Debug, Clone, Copy, PartialEq, Eq, Structural)]
pub struct Pump {
    /// The last upstream sequence number relayed; -1 before the first.
    pub last_seq: i64,
    /// How many frames were relayed.
    pub total: u64,
}

/// What happens to the pump.
#[derive(Debug, Clone, Copy, PartialEq, Eq)]
pub enum PumpEvent {
    /// A frame came from upstream, with its sequence number.
    Frame { seq: Option<i64> },
    /// A frame was published.
    Published,
    /// The upstream is gone for good.
    UpstreamClosed,
    /// It is time to persist the cursor.
    CursorTick,
    /// It is time to garbage-collect the store.
    GcTick,
    /// The process is asked to stop.
    Interrupted,
}

/// What the pump is to do.
#[derive(Debug)]
pub enum PumpAction {
    /// Publish the frame.
    Publish,
    /// Drop the frame: it was relayed before.
    Drop,
    /// Go on; say how far it has come where `report` says so.
    Continue { report: bool },
    /// Write this text to the cursor file, where there is any.
    PersistCursor(Option<String>),
    /// Garbage-collect the store.
    CollectGarbage,
    /// Finish the group and the track, persist the cursor and stop.
    Finish,
}

/// What a [`PumpAction`] stands for.
pub enum PumpStep {
    Publish,
    Drop,
    Continue { report: bool },
    PersistCursor(Option<Seq<char>>),
    CollectGarbage,
    Finish,
}

impl PumpAction {
    pub open spec fn view(self) -> PumpStep {
        match self {
            PumpAction::Publish => PumpStep::Publish,
            PumpAction::Drop => PumpStep::Drop,
            PumpAction::Continue { report } => PumpStep::Continue { report },
            PumpAction::PersistCursor(text) => PumpStep::PersistCursor(frame::text_of(text)),
            PumpAction::CollectGarbage => PumpStep::CollectGarbage,
            PumpAction::Finish => PumpStep::Finish,
        }
    }
}

/// What the pump does on an event, and where it stands then.
pub open spec fn pump_step(p: Pump, event: PumpEvent) -> (Pump, PumpStep) {
    match event {
        PumpEvent::Frame { seq } => match seq {
            Some(n) => if n <= p.last_seq {
                (p, PumpStep::Drop)
            } else {
                (Pump { last_seq: n, ..p }, PumpStep::Publish)
            },
            None => (p, PumpStep::Publish),
        },
        PumpEvent::Published => {
            let total = p.total.wrapping_add(1);
            (Pump { total, ..p }, PumpStep::Continue { report: total % 100 == 0 })
        },
        PumpEvent::CursorTick => (p, PumpStep::PersistCursor(resume::cursor_text(p.last_seq))),
        PumpEvent::GcTick => (p, PumpStep::CollectGarbage),
        PumpEvent::UpstreamClosed | PumpEvent::Interrupted => (p, PumpStep::Finish),
    }
}

impl Pump {
    /// Nothing relayed yet in this run; the upstream is resumed after
    /// `last_seq`.
    pub fn new(last_seq: i64) -> (r: Pump)
        ensures
            r == (Pump { last_seq, total: 0 }),
    {
        Pump { last_seq, total: 0 }
    }

    /// Says what to do on an event.
    pub fn handle(&mut self, event: PumpEvent) -> (action: PumpAction)
        ensures
            *final(self) == pump_step(*old(self), event).0,
            action@ == pump_step(*old(self), event).1,
    {
        match event {
            PumpEvent::Frame { seq } => match seq {
                Some(n) => if n <= self.last_seq {
                    // A duplicate of a reconnect's replay.
                    PumpAction::Drop
                } else {
                    self.last_seq = n;
                    PumpAction::Publish
                },
                None => PumpAction::Publish,
            },
            PumpEvent::Published => {
                self.total = self.total.wrapping_add(1);
                PumpAction::Continue { report: self.total % 100 == 0 }
            },
            PumpEvent::CursorTick => PumpAction::PersistCursor(persist_cursor(self.last_seq)),
            PumpEvent::GcTick => PumpAction::CollectGarbage,
            PumpEvent::UpstreamClosed => PumpAction::Finish,
            PumpEvent::Interrupted => PumpAction::Finish,
        }
    }
}

/// A frame with a sequence number is published exactly where it is above the
/// last one relayed; then it is the last one relayed. So what is published
/// ascends, and a frame that comes again is dropped.
pub proof fn law_published_frames_ascend(p: Pump, n: i64)
    ensures
        ({
            let (after, step) = pump_step(p, PumpEvent::Frame { seq: Some(n) });
            &&& step is Publish <==> n > p.last_seq
            &&& step is Publish ==> after.last_seq == n
            &&& step is Drop <==> n <= p.last_seq
            &&& step is Drop ==> after == p
            &&& pump_step(after, PumpEvent::Frame { seq: Some(n) }).1 is Drop
        }),
{
}

/// Nothing but a frame moves the cursor, and nothing moves it back.
pub proof fn law_cursor_never_goes_back(p: Pump, event: PumpEvent)
    ensures
        pump_step(p, event).0.last_seq >= p.last_seq,
        !(event is Frame) ==> pump_step(p, event).0.last_seq == p.last_seq,
{
}

/// What is persisted is where a restart resumes: the next run starts with the
/// cursor of this one, and drops every frame that this one relayed.
pub proof fn law_restart_drops_what_was_relayed(p: Pump, flag: Option<i64>, n: i64)
    requires
        p.last_seq >= 0,
        n <= p.last_seq,
    ensures
        ({
            let kept = pump_step(p, PumpEvent::CursorTick).1->PersistCursor_0;
            let start = resume::initial_cursor(kept, flag)->Ok_0;
            let next = Pump { last_seq: start, total: 0 };
            pump_step(next, PumpEvent::Frame { seq: Some(n) }).1 is Drop
        }),
{
    resume::laws::law_cursor_roundtrip(p.last_seq, flag);
}

/// A frame without a sequence number is always published, and moves nothing.
pub proof fn law_unnumbered_frames_are_published(p: Pump)
    ensures
        pump_step(p, PumpEvent::Frame { seq: None }) == (p, PumpStep::Publish),
{
}

/// Frames are counted as they are published, and every hundredth is reported;
/// nothing else changes the count.
pub proof fn law_every_hundredth_frame_is_reported(p: Pump, event: PumpEvent)
    requires
        p.total < u64::MAX,
    ensures
        ({
            let (after, step) = pump_step(p, PumpEvent::Published);
            &&& after.total == p.total + 1
            &&& step == (PumpStep::Continue { report: (p.total + 1) % 100 == 0 })
        }),
        !(event is Published) ==> pump_step(p, event).0.total == p.total,
{
}

/// The cursor is kept at every tick, old groups are collected at theirs, and the
/// pump ends where the upstream is gone or it is told to stop, and only there.
pub proof fn law_ticks_do_their_work(p: Pump, event: PumpEvent)
    ensures
        pump_step(p, PumpEvent::CursorTick).1 == PumpStep::PersistCursor(
            resume::cursor_text(p.last_seq),
        ),
        pump_step(p, event).1 is CollectGarbage <==> event is GcTick,
        pump_step(p, event).1 is PersistCursor <==> event is CursorTick,
        pump_step(p, event).1 is Finish <==> event is UpstreamClosed || event is Interrupted,
{
}

/// What the pump is told to do stands for itself.
pub proof fn law_actions_stand_for_themselves(text: String, report: bool)
    ensures
        PumpAction::Publish@ is Publish,
        PumpAction::Drop@ is Drop,
        (PumpAction::Continue { report })@ == (PumpStep::Continue { report }),
        PumpAction::PersistCursor(Some(text))@ == PumpStep::PersistCursor(Some(text@)),
        PumpAction::PersistCursor(None)@ == PumpStep::PersistCursor(None),
        PumpAction::CollectGarbage@ is CollectGarbage,
        PumpAction::Finish@ is Finish,
        CURSOR_TICK_SECS == 5,
        GC_TICK_SECS == 30,
{
}

} // verus!
