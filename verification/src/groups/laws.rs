//! What holds of every run of groups.

use vstd::prelude::*;

use crate::groups;
use crate::groups::GroupState;

verus! {

/// The frames of all groups of a run, finished and in progress, in order.
pub open spec fn all_frames(finished: Seq<GroupState>, current: GroupState) -> Seq<Seq<u8>>
    decreases finished.len(),
{
    if finished.len() == 0 {
        current.frames
    } else {
        finished[0].frames + all_frames(finished.drop_first(), current)
    }
}

/// A run after a frame: the group in progress grows, and where that completes
/// it, it is finished and a group of sequence `next` is begun.
pub open spec fn step(
    finished: Seq<GroupState>,
    current: GroupState,
    frame: Seq<u8>,
    group_size: usize,
    next: u64,
) -> (Seq<GroupState>, GroupState) {
    let more = groups::grown(current, frame);
    if groups::complete(more, group_size) {
        (finished.push(more), groups::fresh(next))
    } else {
        (finished, more)
    }
}

/// Every finished group has as many frames as a group has, and the one in
/// progress has fewer.
pub open spec fn sized(finished: Seq<GroupState>, current: GroupState, group_size: usize) -> bool {
    &&& current.frames.len() < group_size
    &&& forall|i: int|
        0 <= i < finished.len() ==> (#[trigger] finished[i]).frames.len() == group_size
}

proof fn lemma_all_frames_push(finished: Seq<GroupState>, last: GroupState, current: GroupState)
    ensures
        all_frames(finished.push(last), current) == all_frames(finished, last) + current.frames,
    decreases finished.len(),
{
    let more = finished.push(last);
    if finished.len() == 0 {
        assert(more.drop_first() =~= Seq::empty());
        assert(all_frames(more.drop_first(), current) == current.frames);
    } else {
        assert(more.drop_first() =~= finished.drop_first().push(last));
        lemma_all_frames_push(finished.drop_first(), last, current);
        assert(more[0] == finished[0]);
        assert(all_frames(more, current) =~= all_frames(finished, last) + current.frames);
    }
}

proof fn lemma_all_frames_grow(finished: Seq<GroupState>, current: GroupState, frame: Seq<u8>)
    ensures
        all_frames(finished, groups::grown(current, frame)) == all_frames(finished, current).push(
            frame,
        ),
    decreases finished.len(),
{
    if finished.len() > 0 {
        lemma_all_frames_grow(finished.drop_first(), current, frame);
        assert(all_frames(finished, groups::grown(current, frame)) =~= all_frames(
            finished,
            current,
        ).push(frame));
    }
}

/// No frame is lost, repeated or moved by rotation: the groups' frames, one
/// group after the other, are the frames that were written, in the order in
/// which they were written.
pub proof fn law_groups_hold_every_frame_in_order(
    finished: Seq<GroupState>,
    current: GroupState,
    frame: Seq<u8>,
    group_size: usize,
    next: u64,
)
    ensures
        ({
            let (f, c) = step(finished, current, frame, group_size, next);
            all_frames(f, c) == all_frames(finished, current).push(frame)
        }),
{
    let more = groups::grown(current, frame);
    lemma_all_frames_grow(finished, current, frame);
    if groups::complete(more, group_size) {
        lemma_all_frames_push(finished, more, groups::fresh(next));
        assert(all_frames(finished, more) + groups::fresh(next).frames =~= all_frames(
            finished,
            more,
        ));
    }
}

/// Groups rotate every `group_size` frames.
pub proof fn law_groups_have_one_size(
    finished: Seq<GroupState>,
    current: GroupState,
    frame: Seq<u8>,
    group_size: usize,
    next: u64,
)
    requires
        sized(finished, current, group_size),
    ensures
        ({
            let (f, c) = step(finished, current, frame, group_size, next);
            sized(f, c, group_size)
        }),
{
}

/// A group keeps its sequence while it is filled, and the next begins without
/// frames under its own; it is complete once it has as many frames as a group
/// has, and not before.
pub proof fn law_groups_keep_their_sequence(g: GroupState, frame: Seq<u8>, size: usize, next: u64)
    ensures
        groups::grown(g, frame).sequence == g.sequence,
        groups::grown(g, frame).frames == g.frames.push(frame),
        groups::fresh(next).sequence == next,
        groups::fresh(next).frames.len() == 0,
        groups::complete(g, size) <==> g.frames.len() >= size,
{
}

} // verus!
