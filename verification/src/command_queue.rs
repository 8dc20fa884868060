//! Commands gathered from window input and handed out frame by frame, each
//! frame complete once a later frame has begun.

use vstd::prelude::*;
use crate::commands::{Command, CameraMove, CameraRotation};
use crate::commandqueue::{
    camera_move_of, commands_of_frame, motions_negatable, of_frame, rotation_of, rotations,
    tagged_rotation,
};
use crate::window::{Event, InputQueue, Key, input_well_formed};

verus! {

/// Keeps a frame-tagged command of frame `frame_nr` or later.
pub open spec fn from_frame(frame_nr: u64) -> spec_fn((u64, Command)) -> Option<(u64, Command)> {
    |c: (u64, Command)| if c.0 >= frame_nr { Some(c) } else { None }
}

/// Commands waiting for their frame to be handed out, and the first frame
/// not yet handed out.
pub struct CommandQueue {
    commands: Vec<(u64, Command)>,
    last_frame_nr: u64,
}

/// The mathematical content of a frame command queue.
pub struct CommandQueueView {
    pub commands: Seq<(u64, Command)>,
    pub last_frame_nr: u64,
}

impl View for CommandQueue {
    type V = CommandQueueView;

    closed spec fn view(&self) -> CommandQueueView {
        CommandQueueView { commands: self.commands@, last_frame_nr: self.last_frame_nr }
    }
}

/// How many frames a call for frame `current` hands out after the frames
/// before `last` were handed out.
pub open spec fn frames_due(last: u64, current: u64) -> int {
    if last < current { current - last } else { 0 }
}

impl CommandQueue {
    /// No commands; frame 0 is the first to hand out.
    pub fn new() -> (q: CommandQueue)
        ensures
            q@.commands == Seq::<(u64, Command)>::empty(),
            q@.last_frame_nr == 0,
    {
        CommandQueue { commands: Vec::new(), last_frame_nr: 0 }
    }

    /// Records a camera turn for each queued mouse motion as a command of
    /// frame `current_frame_nr`, then hands out each frame from the first
    /// not handed out up to (not including) the current one: the movement
    /// the held keys ask for followed by the frame's recorded commands.
    /// Commands of the current frame and later are kept.
    pub fn handle_input(&mut self, inputs: &mut InputQueue, current_frame_nr: u64) -> (frames: Vec<(u64, Vec<Command>)>)
        requires
            input_well_formed(old(inputs)@),
            motions_negatable(old(inputs)@.queue),
        ensures
            final(inputs)@.queue.len() == 0,
            final(inputs)@.keys == old(inputs)@.keys,
            ({
                let all = old(self)@.commands + rotations(old(inputs)@.queue, current_frame_nr);
                &&& frames@.len() == frames_due(old(self)@.last_frame_nr, current_frame_nr)
                &&& forall|i: int| 0 <= i < frames@.len() ==> {
                    &&& (#[trigger] frames@[i]).0 == old(self)@.last_frame_nr + i
                    &&& frames@[i].1@ == seq![camera_move_of(old(inputs)@.keys)]
                        + commands_of_frame(all, (old(self)@.last_frame_nr + i) as u64)
                }
                &&& final(self)@.commands == all.filter_map(from_frame(current_frame_nr))
                &&& final(self)@.last_frame_nr == current_frame_nr
            }),
    {
        let ghost events = inputs@.queue;
        let ghost start = self.commands@;
        let ghost f = tagged_rotation(current_frame_nr);
        let ghost taken: int = 0;
        loop
            invariant
                input_well_formed(inputs@),
                inputs@.keys == old(inputs)@.keys,
                0 <= taken <= events.len(),
                inputs@.queue == events.skip(taken),
                motions_negatable(events),
                f == tagged_rotation(current_frame_nr),
                self.last_frame_nr == old(self)@.last_frame_nr,
                self.commands@ == start + events.take(taken).filter_map(f),
            ensures
                input_well_formed(inputs@),
                inputs@.keys == old(inputs)@.keys,
                inputs@.queue.len() == 0,
                self.last_frame_nr == old(self)@.last_frame_nr,
                self.commands@ == start + events.filter_map(f),
            decreases inputs@.queue.len(),
        {
            match inputs.event() {
                Some(event) => {
                    proof {
                        assert(events[taken] == event);
                        events.lemma_filter_map_take_succ(f, taken);
                        assert(f(event) == match rotation_of(event) {
                            Some(c) => Some((current_frame_nr, c)),
                            None => None::<(u64, Command)>,
                        });
                    }
                    match event {
                        Event::MouseMotion { x_rel, y_rel } => {
                            self.commands.push((current_frame_nr, Command::CameraRotate(
                                CameraRotation { around_local_x: -y_rel, around_global_y: -x_rel },
                            )));
                        },
                        _ => (),
                    }
                    proof {
                        assert(self.commands@ =~= start + events.take(taken + 1).filter_map(f));
                        assert(events.skip(taken).drop_first() =~= events.skip(taken + 1));
                        taken = taken + 1;
                    }
                },
                None => {
                    proof {
                        assert(events.take(taken) =~= events);
                    }
                    break;
                },
            }
        }
        let forward = inputs.is_key_down(Key::KeyW);
        let back = inputs.is_key_down(Key::KeyS);
        let left = inputs.is_key_down(Key::KeyA);
        let right = inputs.is_key_down(Key::KeyD);
        let movement = Command::CameraMove(CameraMove { forward, back, left, right });
        let ghost all = self.commands@;
        let mut frames: Vec<(u64, Vec<Command>)> = Vec::new();
        let mut frame_nr = self.last_frame_nr;
        while frame_nr < current_frame_nr
            invariant
                self.commands@ == all,
                self.last_frame_nr == old(self)@.last_frame_nr,
                self.last_frame_nr <= frame_nr || current_frame_nr <= self.last_frame_nr,
                self.last_frame_nr < current_frame_nr ==> frame_nr <= current_frame_nr,
                self.last_frame_nr < current_frame_nr ==> frames@.len() == frame_nr - self.last_frame_nr,
                self.last_frame_nr >= current_frame_nr ==> frames@.len() == 0 && frame_nr == self.last_frame_nr,
                movement == camera_move_of(old(inputs)@.keys),
                forall|i: int| 0 <= i < frames@.len() ==> {
                    &&& (#[trigger] frames@[i]).0 == self.last_frame_nr + i
                    &&& frames@[i].1@ == seq![movement] + commands_of_frame(all, (self.last_frame_nr + i) as u64)
                },
            decreases current_frame_nr - frame_nr,
        {
            let mut frame: Vec<Command> = Vec::new();
            frame.push(movement);
            let ghost g = of_frame(frame_nr);
            let mut i: usize = 0;
            while i < self.commands.len()
                invariant
                    i <= self.commands@.len(),
                    g == of_frame(frame_nr),
                    frame@ == seq![movement] + self.commands@.take(i as int).filter_map(g),
                decreases self.commands@.len() - i,
            {
                let c = self.commands[i];
                proof {
                    self.commands@.lemma_filter_map_take_succ(g, i as int);
                    assert(self.commands@[i as int] == c);
                    assert(g(c) == if c.0 == frame_nr { Some(c.1) } else { None::<Command> });
                }
                if c.0 == frame_nr {
                    frame.push(c.1);
                }
                proof {
                    assert(frame@ =~= seq![movement] + self.commands@.take(i + 1).filter_map(g));
                }
                i = i + 1;
            }
            proof {
                assert(self.commands@.take(self.commands@.len() as int) =~= self.commands@);
            }
            frames.push((frame_nr, frame));
            frame_nr = frame_nr + 1;
        }
        self.last_frame_nr = current_frame_nr;
        let ghost h = from_frame(current_frame_nr);
        let mut kept: Vec<(u64, Command)> = Vec::new();
        let mut i: usize = 0;
        while i < self.commands.len()
            invariant
                i <= self.commands@.len(),
                self.commands@ == all,
                h == from_frame(current_frame_nr),
                kept@ == self.commands@.take(i as int).filter_map(h),
            decreases self.commands@.len() - i,
        {
            let c = self.commands[i];
            proof {
                self.commands@.lemma_filter_map_take_succ(h, i as int);
                assert(self.commands@[i as int] == c);
                assert(h(c) == if c.0 >= current_frame_nr { Some(c) } else { None::<(u64, Command)> });
            }
            if c.0 >= current_frame_nr {
                kept.push(c);
            }
            proof {
                assert(kept@ =~= self.commands@.take(i + 1).filter_map(h));
            }
            i = i + 1;
        }
        proof {
            assert(self.commands@.take(self.commands@.len() as int) =~= self.commands@);
        }
        self.commands = kept;
        frames
    }
}

/// The camera turns the events ask for, untagged.
pub open spec fn turn_of() -> spec_fn(Event) -> Option<Command> {
    |e: Event| rotation_of(e)
}

proof fn lemma_filter_map_append<A, B>(a: Seq<A>, b: Seq<A>, f: spec_fn(A) -> Option<B>)
    ensures
        (a + b).filter_map(f) == a.filter_map(f) + b.filter_map(f),
    decreases b.len(),
{
    if b.len() == 0 {
        assert(a + b =~= a);
        assert(a.filter_map(f) + b.filter_map(f) =~= a.filter_map(f));
    } else {
        lemma_filter_map_append(a, b.drop_last(), f);
        assert((a + b).drop_last() =~= a + b.drop_last());
        assert((a + b).last() == b.last());
        match f(b.last()) {
            Some(x) => {
                assert((a + b).filter_map(f) =~= (a + b.drop_last()).filter_map(f) + seq![x]);
                assert(a.filter_map(f) + b.filter_map(f) =~= a.filter_map(f) + b.drop_last().filter_map(f) + seq![x]);
            },
            None => {},
        }
    }
}

proof fn lemma_kept_frame(s: Seq<(u64, Command)>, current: u64, f: u64)
    requires
        f >= current,
    ensures
        s.filter_map(from_frame(current)).filter_map(of_frame(f)) == s.filter_map(of_frame(f)),
    decreases s.len(),
{
    if s.len() > 0 {
        let rest = s.drop_last();
        let c = s.last();
        lemma_kept_frame(rest, current, f);
        if c.0 >= current {
            assert(s.filter_map(from_frame(current)) == rest.filter_map(from_frame(current)).push(c)) by {
                assert(rest.filter_map(from_frame(current)) + seq![c] =~= rest.filter_map(from_frame(current)).push(c));
            }
            let kept = rest.filter_map(from_frame(current));
            assert(kept.push(c).drop_last() =~= kept);
        } else {
            assert(c.0 != f);
        }
    }
}

proof fn lemma_turns_of_frame(events: Seq<Event>, c: u64, f: u64)
    ensures
        commands_of_frame(rotations(events, c), f) == if f == c { events.filter_map(turn_of()) } else { Seq::<Command>::empty() },
    decreases events.len(),
{
    if events.len() > 0 {
        let rest = events.drop_last();
        let e = events.last();
        lemma_turns_of_frame(rest, c, f);
        match rotation_of(e) {
            Some(cmd) => {
                let r = rotations(rest, c);
                assert(rotations(events, c) == r + seq![(c, cmd)]);
                lemma_filter_map_append(r, seq![(c, cmd)], of_frame(f));
                reveal_with_fuel(Seq::filter_map, 2);
                if f == c {
                    assert(commands_of_frame(rotations(events, c), f) =~= events.filter_map(turn_of()));
                } else {
                    assert(commands_of_frame(rotations(events, c), f) =~= Seq::<Command>::empty());
                }
            },
            None => {},
        }
    } else {
        if f == c {
            assert(events.filter_map(turn_of()) =~= Seq::<Command>::empty());
        }
    }
}

/// Law of complete frames: the frame that is current during one call is
/// handed out by the next call for a later frame, and then it holds every
/// command recorded for it, those recorded before the first call followed
/// by the camera turns of all the mouse motions of the first call, in
/// order.
pub proof fn lemma_frames_are_complete(
    commands: Seq<(u64, Command)>,
    events1: Seq<Event>,
    c1: u64,
    events2: Seq<Event>,
    c2: u64,
)
    requires
        c1 < c2,
    ensures
        ({
            let kept = (commands + rotations(events1, c1)).filter_map(from_frame(c1));
            commands_of_frame(kept + rotations(events2, c2), c1)
                == commands_of_frame(commands, c1) + events1.filter_map(turn_of())
        }),
{
    let all1 = commands + rotations(events1, c1);
    let kept = all1.filter_map(from_frame(c1));
    lemma_filter_map_append(kept, rotations(events2, c2), of_frame(c1));
    lemma_turns_of_frame(events2, c2, c1);
    lemma_kept_frame(all1, c1, c1);
    lemma_filter_map_append(commands, rotations(events1, c1), of_frame(c1));
    lemma_turns_of_frame(events1, c1, c1);
    assert(commands_of_frame(kept + rotations(events2, c2), c1)
        =~= commands_of_frame(commands, c1) + events1.filter_map(turn_of()));
}

} // verus!
