//! Commands gathered per frame from window input.

use vstd::prelude::*;
use crate::commands::{Command, CameraMove, CameraRotation};
use crate::window::{Event, InputQueue, Key, input_well_formed};

verus! {

/// The camera turn a window event asks for: a mouse motion turns the
/// camera against the motion, about its own x axis by the vertical motion
/// and about the world's y axis by the horizontal one.
pub open spec fn rotation_of(e: Event) -> Option<Command> {
    match e {
        Event::MouseMotion { x_rel, y_rel } => Some(Command::CameraRotate(CameraRotation {
            around_local_x: (-y_rel) as i32,
            around_global_y: (-x_rel) as i32,
        })),
        _ => None,
    }
}

/// Every mouse motion can be turned against without overflow.
pub open spec fn motions_negatable(events: Seq<Event>) -> bool {
    forall|i: int| 0 <= i < events.len() ==> match #[trigger] events[i] {
        Event::MouseMotion { x_rel, y_rel } => x_rel != i32::MIN && y_rel != i32::MIN,
        _ => true,
    }
}

/// The camera turn an event asks for, tagged with `frame_nr`.
pub open spec fn tagged_rotation(frame_nr: u64) -> spec_fn(Event) -> Option<(u64, Command)> {
    |e: Event| match rotation_of(e) {
        Some(c) => Some((frame_nr, c)),
        None => None,
    }
}

/// The camera turns the events ask for, each tagged with `frame_nr`.
pub open spec fn rotations(events: Seq<Event>, frame_nr: u64) -> Seq<(u64, Command)> {
    events.filter_map(tagged_rotation(frame_nr))
}

/// The movement the held keys ask for: W forward, S back, A left, D right.
pub open spec fn camera_move_of(keys: Seq<bool>) -> Command {
    Command::CameraMove(CameraMove { forward: keys[0], back: keys[2], left: keys[1], right: keys[3] })
}

/// Picks the command of a frame-tagged command of frame `frame_nr`.
pub open spec fn of_frame(frame_nr: u64) -> spec_fn((u64, Command)) -> Option<Command> {
    |c: (u64, Command)| if c.0 == frame_nr { Some(c.1) } else { None }
}

/// Keeps a frame-tagged command of a frame after `frame_nr`.
pub open spec fn after_frame(frame_nr: u64) -> spec_fn((u64, Command)) -> Option<(u64, Command)> {
    |c: (u64, Command)| if c.0 > frame_nr { Some(c) } else { None }
}

/// The commands of frame `frame_nr`, in the order they were added.
pub open spec fn commands_of_frame(commands: Seq<(u64, Command)>, frame_nr: u64) -> Seq<Command> {
    commands.filter_map(of_frame(frame_nr))
}

/// The commands of frames after `frame_nr`, in order.
pub open spec fn commands_after(commands: Seq<(u64, Command)>, frame_nr: u64) -> Seq<(u64, Command)> {
    commands.filter_map(after_frame(frame_nr))
}

/// Commands, each with the frame it belongs to.
pub struct CommandQueue {
    commands: Vec<(u64, Command)>,
}

impl View for CommandQueue {
    type V = Seq<(u64, Command)>;

    closed spec fn view(&self) -> Seq<(u64, Command)> {
        self.commands@
    }
}

impl CommandQueue {
    /// An empty queue.
    pub fn new() -> (q: CommandQueue)
        ensures
            q@ == Seq::<(u64, Command)>::empty(),
    {
        CommandQueue { commands: Vec::new() }
    }

    fn add(&mut self, frame_nr: u64, command: Command)
        ensures
            final(self)@ == old(self)@.push((frame_nr, command)),
    {
        self.commands.push((frame_nr, command))
    }

    /// Drops the commands of frame `frame_nr` and of the frames before it.
    pub fn clear_commands_until_frame(&mut self, frame_nr: u64)
        ensures
            final(self)@ == commands_after(old(self)@, frame_nr),
    {
        let ghost f = after_frame(frame_nr);
        let mut kept: Vec<(u64, Command)> = Vec::new();
        let mut i: usize = 0;
        while i < self.commands.len()
            invariant
                i <= self.commands@.len(),
                self.commands@ == old(self)@,
                f == after_frame(frame_nr),
                kept@ == self.commands@.take(i as int).filter_map(f),
            decreases self.commands@.len() - i,
        {
            let c = self.commands[i];
            proof {
                self.commands@.lemma_filter_map_take_succ(f, i as int);
                assert(self.commands@[i as int] == c);
                assert(f(c) == if c.0 > frame_nr { Some(c) } else { None::<(u64, Command)> });
            }
            if c.0 > frame_nr {
                kept.push(c);
            }
            proof {
                assert(kept@ =~= self.commands@.take(i + 1).filter_map(f));
            }
            i = i + 1;
        }
        proof {
            assert(self.commands@.take(self.commands@.len() as int) =~= self.commands@);
        }
        self.commands = kept;
    }

    /// The commands of frame `frame_nr`, in the order they were added.
    pub fn retrieve_commands(&self, frame_nr: u64) -> (r: Vec<&Command>)
        ensures
            r@.len() == commands_of_frame(self@, frame_nr).len(),
            forall|i: int| 0 <= i < r@.len() ==> *#[trigger] r@[i] == commands_of_frame(self@, frame_nr)[i],
    {
        let ghost f = of_frame(frame_nr);
        let mut r: Vec<&Command> = Vec::new();
        let mut i: usize = 0;
        while i < self.commands.len()
            invariant
                i <= self.commands@.len(),
                f == of_frame(frame_nr),
                r@.len() == self.commands@.take(i as int).filter_map(f).len(),
                forall|j: int| 0 <= j < r@.len() ==> *#[trigger] r@[j] == self.commands@.take(i as int).filter_map(f)[j],
            decreases self.commands@.len() - i,
        {
            let ghost before = self.commands@.take(i as int).filter_map(f);
            proof {
                self.commands@.lemma_filter_map_take_succ(f, i as int);
                let c = self.commands@[i as int];
                assert(f(c) == if c.0 == frame_nr { Some(c.1) } else { None::<Command> });
            }
            if self.commands[i].0 == frame_nr {
                r.push(&self.commands[i].1);
                proof {
                    let after = self.commands@.take(i + 1).filter_map(f);
                    assert(after == before + seq![self.commands@[i as int].1]);
                    assert(forall|j: int| 0 <= j < before.len() ==> after[j] == before[j]);
                }
            }
            i = i + 1;
        }
        proof {
            assert(self.commands@.take(self.commands@.len() as int) =~= self.commands@);
        }
        r
    }

    /// Records the input of frame `frame_nr`: first the movement the held
    /// keys ask for, then a camera turn for each queued mouse motion; the
    /// queued events are all taken.
    pub fn handle_input(&mut self, inputs: &mut InputQueue, frame_nr: u64)
        requires
            input_well_formed(old(inputs)@),
            motions_negatable(old(inputs)@.queue),
        ensures
            final(self)@ == old(self)@.push((frame_nr, camera_move_of(old(inputs)@.keys)))
                + rotations(old(inputs)@.queue, frame_nr),
            final(inputs)@.queue.len() == 0,
            final(inputs)@.keys == old(inputs)@.keys,
    {
        let forward = inputs.is_key_down(Key::KeyW);
        let back = inputs.is_key_down(Key::KeyS);
        let left = inputs.is_key_down(Key::KeyA);
        let right = inputs.is_key_down(Key::KeyD);
        self.add(frame_nr, Command::CameraMove(CameraMove { forward, back, left, right }));
        let ghost start = self@;
        let ghost events = inputs@.queue;
        let ghost f = tagged_rotation(frame_nr);
        let ghost taken: int = 0;
        loop
            invariant
                input_well_formed(inputs@),
                inputs@.keys == old(inputs)@.keys,
                0 <= taken <= events.len(),
                inputs@.queue == events.skip(taken),
                motions_negatable(events),
                f == tagged_rotation(frame_nr),
                self@ == start + events.take(taken).filter_map(f),
            ensures
                inputs@.keys == old(inputs)@.keys,
                inputs@.queue.len() == 0,
                self@ == start + events.filter_map(f),
            decreases inputs@.queue.len(),
        {
            match inputs.event() {
                Some(event) => {
                    proof {
                        assert(events[taken] == event);
                        events.lemma_filter_map_take_succ(f, taken);
                        assert(f(event) == match rotation_of(event) {
                            Some(c) => Some((frame_nr, c)),
                            None => None::<(u64, Command)>,
                        });
                    }
                    match event {
                        Event::MouseMotion { x_rel, y_rel } => {
                            self.add(frame_nr, Command::CameraRotate(
                                CameraRotation { around_local_x: -y_rel, around_global_y: -x_rel },
                            ));
                        },
                        _ => (),
                    }
                    proof {
                        assert(self@ =~= start + events.take(taken + 1).filter_map(f));
                        assert(events.skip(taken).drop_first() =~= events.skip(taken + 1));
                        taken = taken + 1;
                    }
                },
                None => {
                    proof {
                        assert(taken == events.len());
                        assert(events.take(taken) =~= events);
                    }
                    break;
                },
            }
        }
    }
}

} // verus!
