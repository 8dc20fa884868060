use xp::selection::{calculate_low_high, CommandEvent, ElementState, InputState, MouseButton};

#[test]
fn clicks_create_move_and_select() {
    let mut input = InputState::new((1, 2));
    assert_eq!(input.handle_button(MouseButton::Left, ElementState::Pressed, false), Some(CommandEvent::Create((1, 2))));
    assert_eq!(input.handle_button(MouseButton::Right, ElementState::Pressed, true), Some(CommandEvent::Move((1, 2))));
    assert_eq!(input.handle_button(MouseButton::Left, ElementState::Released, false), None);
    // control-click starts a box that ends where the button is released
    assert_eq!(input.handle_button(MouseButton::Left, ElementState::Pressed, true), None);
    assert_eq!(input.last_selection_begin, Some((1, 2)));
    input.world_mouse_position = (5, -3);
    assert_eq!(input.handle_button(MouseButton::Middle, ElementState::Pressed, false), None);
    assert_eq!(input.handle_button(MouseButton::Left, ElementState::Released, false), Some(CommandEvent::Select((1, -3), (5, 2))));
    assert_eq!(input.last_selection_begin, None);
    assert_eq!(input.handle_button(MouseButton::Left, ElementState::Released, true), None);
}

#[test]
fn selection_corners_are_ordered_per_axis() {
    let mut input = InputState::new((5, 5));
    assert_eq!(input.handle_button(MouseButton::Left, ElementState::Pressed, true), None);
    input.world_mouse_position = (1, 1);
    assert_eq!(input.handle_button(MouseButton::Left, ElementState::Released, false), Some(CommandEvent::Select((1, 1), (5, 5))));
    assert_eq!(calculate_low_high((3, -2), (1, 4)), ((1, -2), (3, 4)));
    assert_eq!(calculate_low_high((0, 9), (2, 1)), ((0, 1), (2, 9)));
    assert_eq!(calculate_low_high((7, 7), (7, 7)), ((7, 7), (7, 7)));
}
