//! How frames are gathered into MoQ groups.
//!
//! Groups rotate every `group_size` frames; late joiners start at the latest
//! group boundary.

pub mod laws;

use vstd::prelude::*;

use crate::store::record;

verus! {

/// The group in progress of the moq-lite publisher, with its frames: they are
/// buffered so the completed group can be appended to the store on rotation.
#[derive(Debug)]
pub struct LiteGroup {
    sequence: u64,
    frames: Vec<Vec<u8>>,
}

/// What a [`LiteGroup`] stands for.
pub struct GroupState {
    pub sequence: u64,
    pub frames: Seq<Seq<u8>>,
}

/// The group after a frame was written to it.
pub open spec fn grown(g: GroupState, frame: Seq<u8>) -> GroupState {
    GroupState { frames: g.frames.push(frame), ..g }
}

/// The group is complete.
pub open spec fn complete(g: GroupState, group_size: usize) -> bool {
    g.frames.len() >= group_size
}

/// A group without frames.
pub open spec fn fresh(sequence: u64) -> GroupState {
    GroupState { sequence, frames: Seq::empty() }
}

impl LiteGroup {
    pub closed spec fn view(self) -> GroupState {
        GroupState { sequence: self.sequence, frames: record::views(self.frames@) }
    }

    /// A group without frames.
    pub fn new(sequence: u64) -> (r: LiteGroup)
        ensures
            r@ == fresh(sequence),
    {
        let frames: Vec<Vec<u8>> = Vec::new();
        proof {
            assert(record::views(frames@) =~= Seq::empty());
        }
        LiteGroup { sequence, frames }
    }

    /// The group's sequence.
    pub fn sequence(&self) -> (r: u64)
        ensures
            r == self@.sequence,
    {
        self.sequence
    }

    /// A frame was written to the group; says whether the group is complete and
    /// is to be rotated.
    pub fn wrote(&mut self, frame: Vec<u8>, group_size: usize) -> (rotate: bool)
        ensures
            final(self)@ == grown(old(self)@, frame@),
            rotate == complete(final(self)@, group_size),
    {
        let ghost before = self@.frames;
        self.frames.push(frame);
        proof {
            assert(self@.frames =~= before.push(frame@));
        }
        self.frames.len() >= group_size
    }

    /// The group was finished and the next one opened: hands out the finished
    /// group's sequence and its frames, for the store.
    pub fn rotate(&mut self, next_sequence: u64) -> (finished: (u64, Vec<Vec<u8>>))
        ensures
            final(self)@ == fresh(next_sequence),
            finished.0 == old(self)@.sequence,
            record::views(finished.1@) == old(self)@.frames,
    {
        let sequence = self.sequence;
        let mut frames: Vec<Vec<u8>> = Vec::new();
        std::mem::swap(&mut frames, &mut self.frames);
        self.sequence = next_sequence;
        proof {
            assert(self@.frames =~= Seq::empty());
        }
        (sequence, frames)
    }
}

} // verus!
