use xp::client::{receive, send, NullReceiver, NullSender};
use xp::command_queue;
use xp::commandqueue::CommandQueue;
use xp::commands::{CameraMove, CameraRotation, Command};
use xp::eventqueue::EventQueue;
use xp::inputhandler::InputHandler;
use xp::recording::ReplayBuffer;
use xp::window::{convert, Event, InputQueue, Key};

fn moves(forward: bool, back: bool, left: bool, right: bool) -> Command {
    Command::CameraMove(CameraMove { forward, back, left, right })
}

fn turn(around_local_x: i32, around_global_y: i32) -> Command {
    Command::CameraRotate(CameraRotation { around_local_x, around_global_y })
}

#[test]
fn keys_have_fixed_positions() {
    assert_eq!(convert(&Key::KeyW), 0);
    assert_eq!(convert(&Key::KeyA), 1);
    assert_eq!(convert(&Key::KeyS), 2);
    assert_eq!(convert(&Key::KeyD), 3);
    assert_eq!(convert(&Key::KeyEscape), 4);
}

#[test]
fn input_queue_tracks_keys_and_queues_events() {
    let mut inputs = InputQueue::new();
    assert!(!inputs.is_key_down(Key::KeyW));
    assert!(inputs.handle_polled(Event::KeyEvent { key: Key::KeyW, down: true }));
    assert!(inputs.handle_polled(Event::MouseMotion { x_rel: 3, y_rel: -4 }));
    assert!(inputs.is_key_down(Key::KeyW));
    assert!(!inputs.is_key_down(Key::KeyS));
    assert!(!inputs.handle_polled(Event::Quit));
    assert_eq!(inputs.event(), Some(Event::KeyEvent { key: Key::KeyW, down: true }));
    assert_eq!(inputs.event(), Some(Event::MouseMotion { x_rel: 3, y_rel: -4 }));
    assert_eq!(inputs.event(), None);
    assert!(inputs.handle_polled(Event::KeyEvent { key: Key::KeyW, down: false }));
    assert!(!inputs.is_key_down(Key::KeyW));
}

#[test]
fn event_queue_stops_at_quit() {
    let mut queue = EventQueue::new();
    assert!(queue.handle_polled(Event::MouseMotion { x_rel: 1, y_rel: 2 }));
    assert!(!queue.handle_polled(Event::Quit));
    assert_eq!(queue.event(), Some(Event::MouseMotion { x_rel: 1, y_rel: 2 }));
    assert_eq!(queue.event(), None);
}

#[test]
fn input_handler_consumes_all_events() {
    let mut inputs = InputQueue::new();
    inputs.handle_polled(Event::KeyEvent { key: Key::KeyD, down: true });
    inputs.handle_polled(Event::MouseMotion { x_rel: 1, y_rel: 1 });
    let mut handler = InputHandler::new();
    assert!(handler.handle_input(&mut inputs));
    assert_eq!(inputs.event(), None);
    assert!(inputs.is_key_down(Key::KeyD));
}

#[test]
fn command_queue_records_moves_and_turns() {
    let mut inputs = InputQueue::new();
    inputs.handle_polled(Event::KeyEvent { key: Key::KeyW, down: true });
    inputs.handle_polled(Event::KeyEvent { key: Key::KeyD, down: true });
    inputs.handle_polled(Event::MouseMotion { x_rel: 5, y_rel: -2 });
    inputs.handle_polled(Event::MouseMotion { x_rel: -1, y_rel: 0 });
    let mut queue = CommandQueue::new();
    queue.handle_input(&mut inputs, 7);
    assert_eq!(inputs.event(), None);
    assert_eq!(queue.retrieve_commands(7), vec![&moves(true, false, false, true), &turn(2, -5), &turn(0, 1)]);
    queue.handle_input(&mut inputs, 8);
    assert_eq!(queue.retrieve_commands(8), vec![&moves(true, false, false, true)]);
    assert!(queue.retrieve_commands(6).is_empty());
    queue.clear_commands_until_frame(7);
    assert!(queue.retrieve_commands(7).is_empty());
    assert_eq!(queue.retrieve_commands(8).len(), 1);
}

#[test]
fn frame_queue_hands_out_complete_frames_once() {
    let mut inputs = InputQueue::new();
    let mut queue = command_queue::CommandQueue::new();
    inputs.handle_polled(Event::KeyEvent { key: Key::KeyA, down: true });
    inputs.handle_polled(Event::MouseMotion { x_rel: 2, y_rel: 3 });
    let frames = queue.handle_input(&mut inputs, 2);
    assert_eq!(frames, vec![(0, vec![moves(false, false, true, false)]), (1, vec![moves(false, false, true, false)])]);
    inputs.handle_polled(Event::MouseMotion { x_rel: -4, y_rel: 1 });
    let frames = queue.handle_input(&mut inputs, 3);
    // the turn recorded during frame 2 comes with frame 2
    assert_eq!(frames, vec![(2, vec![moves(false, false, true, false), turn(-3, -2)])]);
    let frames = queue.handle_input(&mut inputs, 4);
    assert_eq!(frames, vec![(3, vec![moves(false, false, true, false), turn(-1, 4)])]);
    assert_eq!(queue.handle_input(&mut inputs, 4), vec![]);
}

#[test]
fn null_sender_and_receiver() {
    let mut sender = NullSender::new();
    send(&mut sender, &[(1, vec![turn(1, 1)])]);
    let mut receiver = NullReceiver::new();
    assert!(receive(&mut receiver, 10).is_empty());
}

#[test]
fn replay_buffer_waits_until_frames_are_complete() {
    let mut buffer = ReplayBuffer::new();
    assert_eq!(buffer.take_frames(vec![(0, vec![turn(1, 0)]), (1, vec![])], 5), None);
    let out = buffer.take_frames(vec![(4, vec![turn(2, 0)]), (5, vec![turn(3, 0)])], 5);
    assert_eq!(out, Some(vec![(0, vec![turn(1, 0)]), (1, vec![]), (4, vec![turn(2, 0)])]));
    assert_eq!(buffer.drain(), vec![(5, vec![turn(3, 0)])]);
    assert_eq!(buffer.drain(), vec![]);
}

#[test]
fn pumped_events_are_queued_in_order_until_a_quit() {
    let mut q = EventQueue::new();
    let m = |x: i32| Event::MouseMotion { x_rel: x, y_rel: 0 };
    assert!(q.pump(&[m(1), m(2)]));
    assert!(!q.pump(&[m(3), Event::Quit, m(4)]));
    assert_eq!(q.event(), Some(m(1)));
    assert_eq!(q.event(), Some(m(2)));
    assert_eq!(q.event(), Some(m(3)));
    assert_eq!(q.event(), None);
}

#[test]
fn pumped_key_events_leave_the_last_state_of_each_key() {
    let mut q = InputQueue::new();
    let k = |key: Key, down: bool| Event::KeyEvent { key, down };
    assert!(q.pump(&[k(Key::KeyW, true), k(Key::KeyA, true), k(Key::KeyW, false), k(Key::KeyD, true)]));
    assert!(!q.is_key_down(Key::KeyW));
    assert!(q.is_key_down(Key::KeyA));
    assert!(q.is_key_down(Key::KeyD));
    assert!(!q.is_key_down(Key::KeyS));
    assert!(!q.pump(&[k(Key::KeyS, true), Event::Quit, k(Key::KeyA, false)]));
    assert!(q.is_key_down(Key::KeyS));
    assert!(q.is_key_down(Key::KeyA));
    let mut n = 0;
    while q.event().is_some() {
        n += 1;
    }
    assert_eq!(n, 5);
}
