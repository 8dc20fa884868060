//! Where the commands of each frame go and where they come from.

use vstd::prelude::*;
use crate::commands::Command;

verus! {

/// Takes the commands of frames, each frame with its number.
pub trait Sender {
    /// The batches of frames this sender has taken, in order, for a sender
    /// that keeps them; `None` for one that keeps nothing.
    open spec fn record(&self) -> Option<Seq<Seq<(u64, Vec<Command>)>>> {
        None
    }

    /// Takes one batch of frames: a sender that keeps its batches adds it to
    /// them.
    fn send(&mut self, commands: &[(u64, Vec<Command>)])
        ensures
            match old(self).record() {
                Some(batches) => final(self).record() == Some(batches.push(commands@)),
                None => final(self).record() is None,
            },
    ;
}

/// Gives the commands of the frames before `to_frame_nr` that it has.
pub trait Receiver {
    /// The frames this receiver gives when asked for those before
    /// `to_frame_nr`, for a receiver whose own state settles them; `None`
    /// for one that reads them from elsewhere.
    open spec fn answer(&self, to_frame_nr: u64) -> Option<Seq<(u64, Vec<Command>)>> {
        None
    }

    /// The frames before `to_frame_nr` that this receiver has.
    fn receive(&mut self, to_frame_nr: u64) -> (frames: Vec<(u64, Vec<Command>)>)
        ensures
            old(self).answer(to_frame_nr) matches Some(a) ==> frames@ == a,
    ;
}

/// A sender that drops what it is sent.
pub struct NullSender;

impl Sender for NullSender {
    /// It keeps nothing.
    open spec fn record(&self) -> Option<Seq<Seq<(u64, Vec<Command>)>>> {
        None
    }

    fn send(&mut self, _commands: &[(u64, Vec<Command>)]) {
    }
}

impl NullSender {
    pub fn new() -> (s: NullSender)
        ensures
            s == NullSender,
    {
        NullSender {}
    }
}

/// A receiver that never has any frames.
pub struct NullReceiver;

impl Receiver for NullReceiver {
    /// It never has any frames.
    open spec fn answer(&self, to_frame_nr: u64) -> Option<Seq<(u64, Vec<Command>)>> {
        Some(Seq::empty())
    }

    fn receive(&mut self, _to_frame_nr: u64) -> (r: Vec<(u64, Vec<Command>)>) {
        Vec::new()
    }
}

impl NullReceiver {
    pub fn new() -> (r: NullReceiver)
        ensures
            r == NullReceiver,
    {
        NullReceiver {}
    }
}

/// Hands the commands of frames to `sender`.
pub fn send(sender: &mut dyn Sender, commands: &[(u64, Vec<Command>)])
    ensures
        match old(sender).record() {
            Some(batches) => final(sender).record() == Some(batches.push(commands@)),
            None => final(sender).record() is None,
        },
{
    sender.send(commands)
}

/// The frames before `to_frame_nr` that `receiver` gives.
pub fn receive(receiver: &mut dyn Receiver, to_frame_nr: u64) -> (frames: Vec<(u64, Vec<Command>)>)
    ensures
        old(receiver).answer(to_frame_nr) matches Some(a) ==> frames@ == a,
{
    receiver.receive(to_frame_nr)
}

} // verus!
