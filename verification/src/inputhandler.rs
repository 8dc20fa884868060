//! An input handler that consumes the queued window events.

use vstd::prelude::*;
use crate::window::{InputQueue, input_well_formed};

verus! {

/// Consumes window events; it reacts to none of them yet.
pub struct InputHandler {}

impl InputHandler {
    pub fn new() -> (h: InputHandler)
        ensures
            h == (InputHandler {}),
    {
        InputHandler {}
    }

    /// Takes every queued event off the queue and asks to go on.
    pub fn handle_input(&mut self, input_queue: &mut InputQueue) -> (go_on: bool)
        requires
            input_well_formed(old(input_queue)@),
        ensures
            go_on,
            final(input_queue)@.queue.len() == 0,
            final(input_queue)@.keys == old(input_queue)@.keys,
    {
        loop
            invariant
                input_queue@.keys == old(input_queue)@.keys,
            ensures
                input_queue@.keys == old(input_queue)@.keys,
                input_queue@.queue.len() == 0,
            decreases input_queue@.queue.len(),
        {
            match input_queue.event() {
                Some(_event) => {},
                None => {
                    break;
                },
            }
        }
        true
    }
}

} // verus!
