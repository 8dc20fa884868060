//! The mouse commands of the strategy view: a left click with the control
//! key held starts a selection box that ends where the button is released,
//! a plain left click creates a unit and a right click orders a move.

use vstd::prelude::*;

verus! {

/// A mouse button.
#[derive(Clone, Copy, Debug, PartialEq, Eq, Structural)]
pub enum MouseButton {
    Left,
    Right,
    Middle,
    Other(u16),
}

/// Whether a button went down or up.
#[derive(Clone, Copy, Debug, PartialEq, Eq, Structural)]
pub enum ElementState {
    Pressed,
    Released,
}

/// A position on the ground plane, `x` and `z`, in world units.
pub type GroundPoint = (i32, i32);

/// A command for the units, at world positions of type `P`.
#[derive(Clone, Copy, Debug, PartialEq, Eq)]
pub enum CommandEvent<P> {
    Create(P),
    /// The corners of a selection box: first the one with the lower
    /// coordinate on each axis, then the one with the higher.
    Select(P, P),
    Move(P),
}

/// The corners of the box spanned by `a` and `b`: the per-axis minimum,
/// then the per-axis maximum.
pub open spec fn low_high(a: GroundPoint, b: GroundPoint) -> (GroundPoint, GroundPoint) {
    (
        (if a.0 <= b.0 { a.0 } else { b.0 }, if a.1 <= b.1 { a.1 } else { b.1 }),
        (if a.0 <= b.0 { b.0 } else { a.0 }, if a.1 <= b.1 { b.1 } else { a.1 }),
    )
}

/// Law of the selection box: its low corner takes the smaller and its high
/// corner the larger coordinate of the two points on each axis, so the low
/// corner is below and left of the high corner, and the order in which the
/// two points are given does not matter.
pub proof fn lemma_low_high_box(a: GroundPoint, b: GroundPoint)
    ensures
        ({
            let (low, high) = low_high(a, b);
            &&& low.0 <= a.0 && low.0 <= b.0 && (low.0 == a.0 || low.0 == b.0)
            &&& low.1 <= a.1 && low.1 <= b.1 && (low.1 == a.1 || low.1 == b.1)
            &&& high.0 >= a.0 && high.0 >= b.0 && (high.0 == a.0 || high.0 == b.0)
            &&& high.1 >= a.1 && high.1 >= b.1 && (high.1 == a.1 || high.1 == b.1)
            &&& low.0 <= high.0 && low.1 <= high.1
        }),
        low_high(a, b) == low_high(b, a),
{
}

/// The lower and the higher corner of the box spanned by two points.
pub fn calculate_low_high(point0: GroundPoint, point1: GroundPoint) -> (r: (GroundPoint, GroundPoint))
    ensures
        r == low_high(point0, point1),
{
    if point0.0 <= point1.0 && point0.1 <= point1.1 {
        ((point0.0, point0.1), (point1.0, point1.1))
    } else if point0.0 <= point1.0 && point0.1 > point1.1 {
        ((point0.0, point1.1), (point1.0, point0.1))
    } else if point0.0 > point1.0 && point0.1 <= point1.1 {
        ((point1.0, point0.1), (point0.0, point1.1))
    } else {
        ((point1.0, point1.1), (point0.0, point0.1))
    }
}

/// Where the mouse points on the ground and where an unfinished selection
/// box began.
pub struct InputState {
    pub last_selection_begin: Option<GroundPoint>,
    pub world_mouse_position: GroundPoint,
}

/// What a mouse button event does: the command it sends, if any, and where
/// a selection box begins afterwards.
pub open spec fn button_outcome(
    begin: Option<GroundPoint>,
    at: GroundPoint,
    button: MouseButton,
    state: ElementState,
    control: bool,
) -> (Option<CommandEvent<GroundPoint>>, Option<GroundPoint>) {
    match (button, state) {
        (MouseButton::Left, ElementState::Pressed) => if control {
            (None, Some(at))
        } else {
            (Some(CommandEvent::Create(at)), begin)
        },
        (MouseButton::Left, ElementState::Released) => match begin {
            Some(b) => (Some(CommandEvent::Select(low_high(b, at).0, low_high(b, at).1)), None),
            None => (None, None),
        },
        (MouseButton::Right, ElementState::Pressed) => (Some(CommandEvent::Move(at)), begin),
        _ => (None, begin),
    }
}

impl InputState {
    /// No selection box, the mouse at `position`.
    pub fn new(position: GroundPoint) -> (s: InputState)
        ensures
            s.last_selection_begin is None,
            s.world_mouse_position == position,
    {
        InputState { last_selection_begin: None, world_mouse_position: position }
    }

    /// Handles a mouse button event at the current mouse position, with the
    /// control key held or not.
    pub fn handle_button(&mut self, button: MouseButton, state: ElementState, control: bool) -> (r: Option<CommandEvent<GroundPoint>>)
        ensures
            final(self).world_mouse_position == old(self).world_mouse_position,
            (r, final(self).last_selection_begin) == button_outcome(
                old(self).last_selection_begin,
                old(self).world_mouse_position,
                button,
                state,
                control,
            ),
    {
        let at = self.world_mouse_position;
        match (button, state) {
            (MouseButton::Left, ElementState::Pressed) => {
                if control {
                    self.last_selection_begin = Some(at);
                    None
                } else {
                    Some(CommandEvent::Create(at))
                }
            },
            (MouseButton::Left, ElementState::Released) => {
                match self.last_selection_begin {
                    Some(begin) => {
                        self.last_selection_begin = None;
                        let (low, high) = calculate_low_high(begin, at);
                        Some(CommandEvent::Select(low, high))
                    },
                    None => None,
                }
            },
            (MouseButton::Right, ElementState::Pressed) => Some(CommandEvent::Move(at)),
            _ => None,
        }
    }
}

} // verus!
