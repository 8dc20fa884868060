use xp::ui::{ui_mesh, Label, Position, Size, Text, Ui, UiVertex};

fn v(x: i64, y: i64, color: [u8; 4]) -> UiVertex {
    UiVertex { x, y, color }
}

const GREEN: [u8; 4] = [0, 255, 0, 255];
const GREY: [u8; 4] = [128, 128, 128, 255];

#[test]
fn text_builders_set_size_and_colour() {
    let t = Text::new("hello");
    assert_eq!((t.text.as_str(), t.size_px, t.color), ("hello", 10, [255, 0, 0, 255]));
    let t = t.with_size_px(48).with_color(GREEN);
    assert_eq!((t.text.as_str(), t.size_px, t.color), ("hello", 48, GREEN));
}

#[test]
fn overlay_mesh_of_a_new_window() {
    let ui = Ui::new(Size { width: 800, height: 600 });
    let m = ui.create_mesh();
    // cursor in the middle: (799 / 2, 599 / 2)
    assert_eq!(
        m.vertices,
        vec![
            v(0, 599, GREEN),
            v(0, 499, GREEN),
            v(100, 599, GREEN),
            v(100, 499, GREEN),
            v(499, 599, GREEN),
            v(499, 559, GREEN),
            v(799, 599, GREEN),
            v(799, 559, GREEN),
            v(399, 299, GREY),
            v(399, 249, GREY),
            v(449, 249, GREY),
        ]
    );
    assert_eq!(m.indices, vec![0, 1, 2, 2, 1, 3, 4, 5, 6, 6, 5, 7, 8, 9, 10]);
}

#[test]
fn resizing_keeps_the_cursor_in_the_window() {
    let mut ui = Ui::new(Size { width: 800, height: 600 });
    ui.update_window_size(Size { width: 320, height: 200 });
    let m = ui.create_mesh();
    assert_eq!(&m.vertices[8..], &[v(319, 199, GREY), v(319, 149, GREY), v(369, 149, GREY)]);
    assert_eq!(m.vertices[4], v(19, 199, GREEN));
}

#[test]
fn cursor_alone_is_one_triangle() {
    let m = ui_mesh(&[], Position { x: -3, y: i32::MIN });
    assert_eq!(
        m.vertices,
        vec![
            v(-3, i32::MIN as i64, GREY),
            v(-3, i32::MIN as i64 - 50, GREY),
            v(47, i32::MIN as i64 - 50, GREY),
        ]
    );
    assert_eq!(m.indices, vec![0, 1, 2]);
    let label = Label::new(Position { x: 5, y: 10 }, Size { width: 2, height: 3 }, Text::new("a"), [1, 2, 3, 4]);
    let m = ui_mesh(&[label], Position { x: 0, y: 0 });
    assert_eq!(&m.vertices[..4], &[v(5, 10, [1, 2, 3, 4]), v(5, 7, [1, 2, 3, 4]), v(7, 10, [1, 2, 3, 4]), v(7, 7, [1, 2, 3, 4])]);
    assert_eq!(m.indices, vec![0, 1, 2, 2, 1, 3, 4, 5, 6]);
}
