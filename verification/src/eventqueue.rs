//! A queue of window events that stops at a quit.

use vstd::prelude::*;
use std::collections::VecDeque;
use crate::window::Event;

verus! {

/// Window events not yet handled.
pub struct EventQueue {
    queue: VecDeque<Event>,
}

impl View for EventQueue {
    type V = Seq<Event>;

    closed spec fn view(&self) -> Seq<Event> {
        self.queue@
    }
}

impl EventQueue {
    /// An empty queue.
    pub fn new() -> (q: EventQueue)
        ensures
            q@ == Seq::<Event>::empty(),
    {
        EventQueue { queue: VecDeque::new() }
    }

    /// Takes a polled event: a quit ends polling (`false`); any other event
    /// is queued.
    pub fn handle_polled(&mut self, input: Event) -> (go_on: bool)
        ensures
            go_on == (input != Event::Quit),
            final(self)@ == if input == Event::Quit { old(self)@ } else { old(self)@.push(input) },
    {
        match input {
            Event::Quit => false,
            _ => {
                self.queue.push_back(input);
                true
            },
        }
    }

    /// Takes the events that one polling of the window gave, in order: they
    /// are queued up to the first quit, which ends the polling (`false`);
    /// without a quit all of them are queued (`true`).
    pub fn pump(&mut self, polled: &[Event]) -> (go_on: bool)
        ensures
            go_on ==> (forall|j: int| 0 <= j < polled@.len() ==> polled@[j] != Event::Quit)
                && final(self)@ == old(self)@ + polled@,
            !go_on ==> exists|n: int|
                0 <= n < polled@.len() && #[trigger] polled@[n] == Event::Quit
                && (forall|j: int| 0 <= j < n ==> polled@[j] != Event::Quit)
                && final(self)@ == old(self)@ + polled@.take(n),
    {
        let mut i: usize = 0;
        while i < polled.len()
            invariant
                i <= polled@.len(),
                forall|j: int| 0 <= j < i ==> polled@[j] != Event::Quit,
                self@ == old(self)@ + polled@.take(i as int),
            decreases polled@.len() - i,
        {
            let input = polled[i];
            if !self.handle_polled(input) {
                assert(polled@[i as int] == Event::Quit);
                return false;
            }
            assert(polled@.take(i + 1) =~= polled@.take(i as int).push(input));
            i = i + 1;
        }
        assert(polled@.take(i as int) =~= polled@);
        true
    }

    /// The oldest queued event, taken off the queue.
    pub fn event(&mut self) -> (e: Option<Event>)
        ensures
            old(self)@.len() == 0 ==> e is None && final(self)@ == old(self)@,
            old(self)@.len() > 0 ==> e == Some(old(self)@[0]) && final(self)@ == old(self)@.drop_first(),
    {
        self.queue.pop_front()
    }
}

} // verus!
