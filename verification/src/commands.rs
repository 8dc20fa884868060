//! The commands a player issues each frame.

use vstd::prelude::*;

verus! {

/// Which of the movement keys are held.
#[derive(Clone, Copy, Debug, PartialEq, Eq, Structural)]
pub struct CameraMove {
    pub forward: bool,
    pub back: bool,
    pub left: bool,
    pub right: bool,
}

/// How far to turn the camera, about its own x axis and the world's y
/// axis.
#[derive(Clone, Copy, Debug, PartialEq, Eq, Structural)]
pub struct CameraRotation {
    pub around_local_x: i32,
    pub around_global_y: i32,
}

/// A player command.
#[derive(Clone, Copy, Debug, PartialEq, Eq, Structural)]
pub enum Command {
    CameraMove(CameraMove),
    CameraRotate(CameraRotation),
}

} // verus!
