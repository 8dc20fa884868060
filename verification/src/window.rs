//! Window input: the events a window reports and a queue that keeps them
//! together with the state of the keys.

use vstd::prelude::*;
use std::collections::VecDeque;

verus! {

/// Something that happened in a window.
#[derive(Clone, Copy, Debug, PartialEq, Eq, Structural)]
pub enum Event {
    Quit,
    MouseMotion { x_rel: i32, y_rel: i32 },
    KeyEvent { key: Key, down: bool },
}

/// The keys the game reads.
#[derive(Clone, Copy, Debug, PartialEq, Eq, Structural)]
pub enum Key {
    KeyW,
    KeyA,
    KeyS,
    KeyD,
    KeyEscape,
}

/// The position of a key in the key state, in declaration order.
pub open spec fn key_index(k: Key) -> int {
    match k {
        Key::KeyW => 0,
        Key::KeyA => 1,
        Key::KeyS => 2,
        Key::KeyD => 3,
        Key::KeyEscape => 4,
    }
}

/// The position of a key in the key state.
pub fn convert(k: &Key) -> (i: usize)
    ensures
        i == key_index(*k),
{
    match k {
        Key::KeyW => 0,
        Key::KeyA => 1,
        Key::KeyS => 2,
        Key::KeyD => 3,
        Key::KeyEscape => 4,
    }
}

/// Events not yet handled, and which keys are down.
pub struct InputQueue {
    queue: VecDeque<Event>,
    keyboard_state: Vec<bool>,
}

/// The mathematical content of an input queue.
pub struct InputQueueView {
    pub queue: Seq<Event>,
    pub keys: Seq<bool>,
}

impl View for InputQueue {
    type V = InputQueueView;

    closed spec fn view(&self) -> InputQueueView {
        InputQueueView { queue: self.queue@, keys: self.keyboard_state@ }
    }
}

/// One state per key.
pub open spec fn input_well_formed(q: InputQueueView) -> bool {
    q.keys.len() == 5
}

/// Whether `key` is down after the events `polled`, starting from the key
/// states `keys`: what the last event of that key said, or its state in
/// `keys` if no event concerns it.
pub open spec fn key_down_after(keys: Seq<bool>, polled: Seq<Event>, key: Key) -> bool
    decreases polled.len(),
{
    if polled.len() == 0 {
        keys[key_index(key)]
    } else {
        match polled.last() {
            Event::KeyEvent { key: k, down } if k == key => down,
            _ => key_down_after(keys, polled.drop_last(), key),
        }
    }
}

impl InputQueue {
    /// No events, and every key up.
    pub fn new() -> (q: InputQueue)
        ensures
            input_well_formed(q@),
            q@.queue == Seq::<Event>::empty(),
            q@.keys == seq![false, false, false, false, false],
    {
        let mut keyboard_state: Vec<bool> = Vec::new();
        let n = convert(&Key::KeyEscape) + 1;
        let mut i: usize = 0;
        while i < n
            invariant
                n == 5,
                i <= n,
                keyboard_state@ == Seq::new(i as nat, |k: int| false),
            decreases n - i,
        {
            keyboard_state.push(false);
            i = i + 1;
        }
        proof {
            assert(keyboard_state@ =~= seq![false, false, false, false, false]);
        }
        InputQueue { queue: VecDeque::new(), keyboard_state }
    }

    /// Whether `key` is down.
    pub fn is_key_down(&self, key: Key) -> (down: bool)
        requires
            input_well_formed(self@),
        ensures
            down == self@.keys[key_index(key)],
    {
        self.keyboard_state[convert(&key)]
    }

    /// Takes a polled event: a quit ends polling (`false`), a key event
    /// updates the key's state, and every event but a quit is queued.
    pub fn handle_polled(&mut self, input: Event) -> (go_on: bool)
        requires
            input_well_formed(old(self)@),
        ensures
            input_well_formed(final(self)@),
            go_on == (input != Event::Quit),
            input == Event::Quit ==> final(self)@ == old(self)@,
            input != Event::Quit ==> final(self)@.queue == old(self)@.queue.push(input),
            final(self)@.keys == match input {
                Event::KeyEvent { key, down } => old(self)@.keys.update(key_index(key), down),
                _ => old(self)@.keys,
            },
    {
        match input {
            Event::Quit => false,
            Event::KeyEvent { key, down } => {
                self.keyboard_state.set(convert(&key), down);
                self.queue.push_back(input);
                true
            },
            _ => {
                self.queue.push_back(input);
                true
            },
        }
    }

    /// Takes the events that one polling of the window gave, in order: they
    /// are queued, and key events set their key's state, up to the first
    /// quit, which ends the polling (`false`); without a quit all of them
    /// are taken (`true`).
    pub fn pump(&mut self, polled: &[Event]) -> (go_on: bool)
        requires
            input_well_formed(old(self)@),
        ensures
            input_well_formed(final(self)@),
            go_on ==> (forall|j: int| 0 <= j < polled@.len() ==> polled@[j] != Event::Quit)
                && final(self)@.queue == old(self)@.queue + polled@
                && forall|k: Key| #[trigger] final(self)@.keys[key_index(k)] == key_down_after(old(self)@.keys, polled@, k),
            !go_on ==> exists|n: int|
                0 <= n < polled@.len() && #[trigger] polled@[n] == Event::Quit
                && (forall|j: int| 0 <= j < n ==> polled@[j] != Event::Quit)
                && final(self)@.queue == old(self)@.queue + polled@.take(n)
                && forall|k: Key| #[trigger] final(self)@.keys[key_index(k)] == key_down_after(old(self)@.keys, polled@.take(n), k),
    {
        let mut i: usize = 0;
        while i < polled.len()
            invariant
                i <= polled@.len(),
                input_well_formed(self@),
                forall|j: int| 0 <= j < i ==> polled@[j] != Event::Quit,
                self@.queue == old(self)@.queue + polled@.take(i as int),
                forall|k: Key| #[trigger] self@.keys[key_index(k)] == key_down_after(old(self)@.keys, polled@.take(i as int), k),
            decreases polled@.len() - i,
        {
            let input = polled[i];
            let ghost before = self@;
            if !self.handle_polled(input) {
                assert(polled@[i as int] == Event::Quit);
                return false;
            }
            let ghost t = polled@.take(i + 1);
            assert(t.drop_last() =~= polled@.take(i as int));
            assert(t.last() == input);
            assert(t =~= polled@.take(i as int).push(input));
            assert forall|k: Key| #[trigger] self@.keys[key_index(k)] == key_down_after(old(self)@.keys, t, k) by {
                assert(before.keys[key_index(k)] == key_down_after(old(self)@.keys, polled@.take(i as int), k));
                match input {
                    Event::KeyEvent { key, down } => {
                        if key != k {
                            assert(key_index(key) != key_index(k));
                        }
                    },
                    _ => {},
                }
            }
            i = i + 1;
        }
        assert(polled@.take(i as int) =~= polled@);
        true
    }

    /// The oldest queued event, taken off the queue.
    pub fn event(&mut self) -> (e: Option<Event>)
        ensures
            final(self)@.keys == old(self)@.keys,
            old(self)@.queue.len() == 0 ==> e is None && final(self)@.queue == old(self)@.queue,
            old(self)@.queue.len() > 0 ==> e == Some(old(self)@.queue[0])
                && final(self)@.queue == old(self)@.queue.drop_first(),
    {
        self.queue.pop_front()
    }
}

} // verus!
