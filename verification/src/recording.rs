//! Replaying recorded frames: the frames read so far are held until the
//! reader asks for the frames before a given one.

use vstd::prelude::*;
use crate::commands::Command;

verus! {

/// The commands of one frame, with the frame's number.
pub type Frame = (u64, Vec<Command>);

/// Keeps a frame before frame `to_frame_nr`.
pub open spec fn before_frame(to_frame_nr: u64) -> spec_fn(Frame) -> Option<Frame> {
    |f: Frame| if f.0 < to_frame_nr { Some(f) } else { None }
}

/// Keeps a frame of frame `to_frame_nr` or later.
pub open spec fn from_frame(to_frame_nr: u64) -> spec_fn(Frame) -> Option<Frame> {
    |f: Frame| if f.0 >= to_frame_nr { Some(f) } else { None }
}

/// Some held frame is frame `to_frame_nr - 1` or later, so every frame
/// before `to_frame_nr` has been read.
pub open spec fn reaches(frames: Seq<Frame>, to_frame_nr: u64) -> bool {
    exists|i: int| 0 <= i < frames.len() && #[trigger] frames[i].0 + 1 >= to_frame_nr
}

/// Law of completeness: the held frames reach frame `to_frame_nr` exactly
/// when one of them is frame `to_frame_nr - 1` or a later one; while every
/// held frame is before frame `to_frame_nr - 1` they do not. Holding more
/// frames never undoes reaching.
pub proof fn lemma_reaches(frames: Seq<Frame>, more: Seq<Frame>, to_frame_nr: u64, i: int)
    ensures
        0 <= i < frames.len() && to_frame_nr > 0 && frames[i].0 == to_frame_nr - 1 ==> reaches(frames, to_frame_nr),
        0 <= i < frames.len() && frames[i].0 >= to_frame_nr ==> reaches(frames, to_frame_nr),
        (forall|j: int| 0 <= j < frames.len() ==> (#[trigger] frames[j]).0 + 1 < to_frame_nr)
            ==> !reaches(frames, to_frame_nr),
        reaches(frames, to_frame_nr) ==> reaches(frames + more, to_frame_nr),
{
    if reaches(frames, to_frame_nr) {
        let k = choose|k: int| 0 <= k < frames.len() && #[trigger] frames[k].0 + 1 >= to_frame_nr;
        assert((frames + more)[k] == frames[k]);
    }
    if 0 <= i < frames.len() {
        assert(frames[i].0 + 1 >= to_frame_nr ==> reaches(frames, to_frame_nr));
    }
}

/// Frames read from a recording and not yet handed out.
pub struct ReplayBuffer {
    read_state: Vec<Frame>,
}

impl View for ReplayBuffer {
    type V = Seq<Frame>;

    closed spec fn view(&self) -> Seq<Frame> {
        self.read_state@
    }
}

impl ReplayBuffer {
    /// No frames held.
    pub fn new() -> (b: ReplayBuffer)
        ensures
            b@ == Seq::<Frame>::empty(),
    {
        ReplayBuffer { read_state: Vec::new() }
    }

    /// Adds the frames of one packet read for a request for the frames
    /// before `to_frame_nr`. Once some held frame is frame
    /// `to_frame_nr - 1` or later, the held frames before `to_frame_nr` are
    /// handed out in order and the others kept; until then nothing is
    /// handed out.
    pub fn take_frames(&mut self, frames: Vec<Frame>, to_frame_nr: u64) -> (r: Option<Vec<Frame>>)
        requires
            to_frame_nr > 0 || old(self)@.len() + frames@.len() == 0,
        ensures
            ({
                let all = old(self)@ + frames@;
                if reaches(all, to_frame_nr) {
                    &&& r matches Some(out) && out@ == all.filter_map(before_frame(to_frame_nr))
                    &&& final(self)@ == all.filter_map(from_frame(to_frame_nr))
                } else {
                    &&& r is None
                    &&& final(self)@ == all
                }
            }),
    {
        let mut frames = frames;
        self.read_state.append(&mut frames);
        let ghost all = self.read_state@;
        let mut found = false;
        let mut i: usize = 0;
        while i < self.read_state.len()
            invariant
                self.read_state@ == all,
                i <= all.len(),
                to_frame_nr > 0 || all.len() == 0,
                found == exists|j: int| 0 <= j < i && #[trigger] all[j].0 + 1 >= to_frame_nr,
            decreases all.len() - i,
        {
            if self.read_state[i].0 >= to_frame_nr - 1 {
                found = true;
            }
            i = i + 1;
        }
        if !found {
            return None;
        }
        let mut rest: Vec<Frame> = Vec::new();
        std::mem::swap(&mut rest, &mut self.read_state);
        let ghost bf = before_frame(to_frame_nr);
        let ghost ff = from_frame(to_frame_nr);
        let mut out: Vec<Frame> = Vec::new();
        let mut kept: Vec<Frame> = Vec::new();
        let ghost k: int = 0;
        while rest.len() > 0
            invariant
                0 <= k <= all.len(),
                rest@ == all.skip(k),
                bf == before_frame(to_frame_nr),
                ff == from_frame(to_frame_nr),
                out@ == all.take(k).filter_map(bf),
                kept@ == all.take(k).filter_map(ff),
            decreases rest@.len(),
        {
            let f = rest.remove(0);
            proof {
                assert(all[k] == f);
                all.lemma_filter_map_take_succ(bf, k);
                all.lemma_filter_map_take_succ(ff, k);
                assert(bf(f) == if f.0 < to_frame_nr { Some(f) } else { None::<Frame> });
                assert(ff(f) == if f.0 >= to_frame_nr { Some(f) } else { None::<Frame> });
            }
            if f.0 < to_frame_nr {
                out.push(f);
            } else {
                kept.push(f);
            }
            proof {
                assert(out@ =~= all.take(k + 1).filter_map(bf));
                assert(kept@ =~= all.take(k + 1).filter_map(ff));
                assert(all.skip(k).remove(0) =~= all.skip(k + 1));
                k = k + 1;
            }
        }
        proof {
            assert(k == all.len());
            assert(all.take(k) =~= all);
        }
        self.read_state = kept;
        Some(out)
    }

    /// No frames are held.
    pub fn is_empty(&self) -> (e: bool)
        ensures
            e == (self@.len() == 0),
    {
        self.read_state.len() == 0
    }

    /// Hands out every held frame, in order, when the recording has no
    /// more packets.
    pub fn drain(&mut self) -> (r: Vec<Frame>)
        ensures
            r@ == old(self)@,
            final(self)@ == Seq::<Frame>::empty(),
    {
        let mut r: Vec<Frame> = Vec::new();
        std::mem::swap(&mut r, &mut self.read_state);
        r
    }
}

} // verus!
