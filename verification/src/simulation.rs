//! What a frame's commands do to the camera or the player, and the chained
//! checksum of the simulation state after each frame.

use vstd::prelude::*;
use crate::commands::{CameraMove, CameraRotation, Command};

verus! {

/// Which camera the commands steer.
#[derive(Clone, Copy, Debug, PartialEq, Eq, Structural)]
pub enum CameraType {
    FreeLook,
    Follow,
}

/// One step of the simulation, in tenths (moves) and hundredths (turns)
/// of the unit the camera or player is moved and turned by.
#[derive(Clone, Copy, Debug, PartialEq, Eq, Structural)]
pub enum CameraAction {
    MoveFreeLook { forward: i32, right: i32 },
    MovePlayer { forward: i32, right: i32 },
    RotateFreeLook { around_local_x: i32, around_global_y: i32 },
    RotatePlayer { around: i32 },
}

/// 1 for a held key, 0 otherwise.
pub open spec fn held(b: bool) -> int {
    if b { 1 } else { 0 }
}

/// The step a command asks for: a move goes forward by the forward key
/// minus the back key and right by the right key minus the left key; a
/// turn turns the free-look camera about both axes, the player only about
/// the vertical one.
pub open spec fn action_of(c: Command, camera: CameraType) -> CameraAction {
    match c {
        Command::CameraMove(m) => {
            let forward = (held(m.forward) - held(m.back)) as i32;
            let right = (held(m.right) - held(m.left)) as i32;
            match camera {
                CameraType::FreeLook => CameraAction::MoveFreeLook { forward, right },
                CameraType::Follow => CameraAction::MovePlayer { forward, right },
            }
        },
        Command::CameraRotate(r) => match camera {
            CameraType::FreeLook => CameraAction::RotateFreeLook {
                around_local_x: r.around_local_x,
                around_global_y: r.around_global_y,
            },
            CameraType::Follow => CameraAction::RotatePlayer { around: r.around_global_y },
        },
    }
}

/// The forward and right steps of a move command for `camera`.
pub open spec fn move_steps(m: CameraMove, camera: CameraType) -> (int, int) {
    match action_of(Command::CameraMove(m), camera) {
        CameraAction::MoveFreeLook { forward, right } => (forward as int, right as int),
        CameraAction::MovePlayer { forward, right } => (forward as int, right as int),
        _ => (0, 0),
    }
}

/// Law of the movement keys: a move command moves the free-look camera
/// and the player alike, and only them. Swapping the forward and back keys
/// reverses the forward step and keeps the right step; swapping the left
/// and right keys reverses the right step and keeps the forward step. The
/// forward key alone steps forward by one, and both keys or neither cancel
/// out; the same for the right and left keys.
pub proof fn lemma_move_keys(m: CameraMove)
    ensures
        action_of(Command::CameraMove(m), CameraType::FreeLook) is MoveFreeLook,
        action_of(Command::CameraMove(m), CameraType::Follow) is MovePlayer,
        move_steps(m, CameraType::FreeLook) == move_steps(m, CameraType::Follow),
        move_steps(CameraMove { forward: m.back, back: m.forward, ..m }, CameraType::FreeLook)
            == (-move_steps(m, CameraType::FreeLook).0, move_steps(m, CameraType::FreeLook).1),
        move_steps(CameraMove { left: m.right, right: m.left, ..m }, CameraType::FreeLook)
            == (move_steps(m, CameraType::FreeLook).0, -move_steps(m, CameraType::FreeLook).1),
        m.forward && !m.back ==> move_steps(m, CameraType::FreeLook).0 == 1,
        m.forward == m.back ==> move_steps(m, CameraType::FreeLook).0 == 0,
        m.right && !m.left ==> move_steps(m, CameraType::FreeLook).1 == 1,
        m.right == m.left ==> move_steps(m, CameraType::FreeLook).1 == 0,
{
}

/// Law of the turns: a turn command turns the free-look camera by both of
/// its angles and the player by its angle about the vertical axis, and
/// moves neither.
pub proof fn lemma_turns(r: CameraRotation)
    ensures
        action_of(Command::CameraRotate(r), CameraType::FreeLook)
            == (CameraAction::RotateFreeLook { around_local_x: r.around_local_x, around_global_y: r.around_global_y }),
        action_of(Command::CameraRotate(r), CameraType::Follow) == (CameraAction::RotatePlayer { around: r.around_global_y }),
{
}

/// The steps a frame's commands ask for, in order.
pub fn frame_actions(commands: &[Command], camera: CameraType) -> (r: Vec<CameraAction>)
    ensures
        r@.len() == commands@.len(),
        forall|i: int| 0 <= i < commands@.len() ==> #[trigger] r@[i] == action_of(commands@[i], camera),
{
    let mut r: Vec<CameraAction> = Vec::new();
    let mut i: usize = 0;
    while i < commands.len()
        invariant
            i <= commands@.len(),
            r@.len() == i,
            forall|k: int| 0 <= k < i ==> #[trigger] r@[k] == action_of(commands@[k], camera),
        decreases commands@.len() - i,
    {
        let action = match commands[i] {
            Command::CameraMove(m) => {
                let forward: i32 = m.forward as i32 - m.back as i32;
                let right: i32 = m.right as i32 - m.left as i32;
                match camera {
                    CameraType::FreeLook => CameraAction::MoveFreeLook { forward, right },
                    CameraType::Follow => CameraAction::MovePlayer { forward, right },
                }
            },
            Command::CameraRotate(rotate) => match camera {
                CameraType::FreeLook => CameraAction::RotateFreeLook {
                    around_local_x: rotate.around_local_x,
                    around_global_y: rotate.around_global_y,
                },
                CameraType::Follow => CameraAction::RotatePlayer { around: rotate.around_global_y },
            },
        };
        r.push(action);
        i = i + 1;
    }
    r
}

/// The CRC-32 that `crc32fast` computes over `bytes`, starting from the
/// state `initial`.
pub uninterp spec fn crc32_continued(initial: u32, bytes: Seq<u8>) -> u32;

/// `crc32fast::Hasher::new_with_initial(initial)`, updated with `bytes` and
/// finalized. Trusted: the result is the checksum of the bytes continued
/// from `initial`, a function of the two alone.
#[verifier::external_body]
fn crc32_with_initial(initial: u32, bytes: &[u8]) -> (h: u32)
    ensures
        h == crc32_continued(initial, bytes@),
{
    let mut hasher = crc32fast::Hasher::new_with_initial(initial);
    hasher.update(bytes);
    hasher.finalize()
}

/// A checksum chained over the simulation states of successive frames.
pub struct StateHash {
    last_hash: u32,
}

impl View for StateHash {
    type V = u32;

    closed spec fn view(&self) -> u32 {
        self.last_hash
    }
}

impl StateHash {
    /// The chain before any state, at 0.
    pub fn new() -> (h: StateHash)
        ensures
            h@ == 0,
    {
        StateHash { last_hash: 0 }
    }

    /// Chains the bytes of a frame's state onto the checksum and returns the
    /// new checksum.
    pub fn hash_state(&mut self, state: &[u8]) -> (h: u32)
        ensures
            h == crc32_continued(old(self)@, state@),
            final(self)@ == h,
    {
        self.last_hash = crc32_with_initial(self.last_hash, state);
        self.last_hash
    }
}

} // verus!
