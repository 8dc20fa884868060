use xp::commands::{CameraMove, CameraRotation, Command};
use xp::simulation::{frame_actions, CameraAction, CameraType, StateHash};

#[test]
fn moves_and_turns_by_camera() {
    let commands = [
        Command::CameraMove(CameraMove { forward: true, back: false, left: true, right: false }),
        Command::CameraMove(CameraMove { forward: true, back: true, left: false, right: true }),
        Command::CameraRotate(CameraRotation { around_local_x: 7, around_global_y: -3 }),
    ];
    assert_eq!(
        frame_actions(&commands, CameraType::FreeLook),
        vec![
            CameraAction::MoveFreeLook { forward: 1, right: -1 },
            CameraAction::MoveFreeLook { forward: 0, right: 1 },
            CameraAction::RotateFreeLook { around_local_x: 7, around_global_y: -3 },
        ]
    );
    assert_eq!(
        frame_actions(&commands, CameraType::Follow),
        vec![
            CameraAction::MovePlayer { forward: 1, right: -1 },
            CameraAction::MovePlayer { forward: 0, right: 1 },
            CameraAction::RotatePlayer { around: -3 },
        ]
    );
    assert_eq!(frame_actions(&[], CameraType::Follow), vec![]);
}

#[test]
fn state_hash_chains_crc32() {
    let mut hash = StateHash::new();
    // the standard CRC-32 check value
    assert_eq!(hash.hash_state(b"123456789"), 0xCBF4_3926);
    // the next state continues from the last checksum
    let mut other = StateHash::new();
    let first = other.hash_state(b"1234");
    let second = other.hash_state(b"56789");
    assert_ne!(first, 0);
    assert_eq!(second, 0xCBF4_3926);
}
