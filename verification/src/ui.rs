//! An overlay of labels and a mouse cursor, drawn as coloured triangles in
//! window pixel coordinates, y growing upwards.

use vstd::prelude::*;

verus! {

/// A point of the window, in pixels.
#[derive(Clone, Copy, Debug, PartialEq, Eq, Structural)]
pub struct Position {
    pub x: i32,
    pub y: i32,
}

/// An extent in pixels.
#[derive(Clone, Copy, Debug, PartialEq, Eq, Structural)]
pub struct Size {
    pub width: i32,
    pub height: i32,
}

/// The text of a label, with its size in pixels and its colour.
#[derive(Clone, Debug)]
pub struct Text {
    pub text: String,
    pub size_px: i32,
    pub color: [u8; 4],
}

impl Text {
    /// `text` in red, 10 pixels high.
    pub fn new(text: &str) -> (t: Text)
        ensures
            t.text@ == text@,
            t.size_px == 10,
            t.color == [255u8, 0u8, 0u8, 255u8],
    {
        Text { text: text.to_owned(), size_px: 10, color: [255, 0, 0, 255] }
    }

    /// The same text with another size.
    pub fn with_size_px(self, size_px: i32) -> (t: Text)
        ensures
            t.text@ == self.text@,
            t.size_px == size_px,
            t.color == self.color,
    {
        let mut t = self;
        t.size_px = size_px;
        t
    }

    /// The same text in another colour.
    pub fn with_color(self, color: [u8; 4]) -> (t: Text)
        ensures
            t.text@ == self.text@,
            t.size_px == self.size_px,
            t.color == color,
    {
        let mut t = self;
        t.color = color;
        t
    }
}

/// Something drawn as a coloured rectangle hanging down and to the right
/// of its top left corner.
pub trait Widget {
    fn top_left(&self) -> Position;
    fn size(&self) -> Size;
    fn color(&self) -> [u8; 4];
}

/// A rectangle with a text.
pub struct Label {
    pub top_left: Position,
    pub size: Size,
    pub text: Text,
    pub color: [u8; 4],
}

impl Widget for Label {
    fn top_left(&self) -> (p: Position)
        ensures
            p == self.top_left,
    {
        self.top_left
    }

    fn size(&self) -> (s: Size)
        ensures
            s == self.size,
    {
        self.size
    }

    fn color(&self) -> (c: [u8; 4])
        ensures
            c == self.color,
    {
        self.color
    }
}

impl Label {
    /// A label with the given corner, size, text and colour.
    pub fn new(top_left: Position, size: Size, text: Text, color: [u8; 4]) -> (l: Label)
        ensures
            l.top_left == top_left,
            l.size == size,
            l.text == text,
            l.color == color,
    {
        Label { top_left, size, text, color }
    }
}

/// A corner of a triangle of the overlay: its position and colour.
#[derive(Clone, Copy, Debug, PartialEq, Eq)]
pub struct UiVertex {
    pub x: i64,
    pub y: i64,
    pub color: [u8; 4],
}

/// The triangles of the overlay.
pub struct UiMesh {
    pub vertices: Vec<UiVertex>,
    pub indices: Vec<u32>,
}

/// The colour of the cursor.
pub open spec fn cursor_color() -> [u8; 4] {
    [128u8, 128u8, 128u8, 255u8]
}

/// The right and bottom edges of the label are `i32` coordinates.
pub open spec fn label_fits(l: Label) -> bool {
    &&& i32::MIN <= l.top_left.x + l.size.width <= i32::MAX
    &&& i32::MIN <= l.top_left.y - l.size.height <= i32::MAX
}

/// Corner `k` of a label's rectangle: top left, bottom left, top right,
/// bottom right.
pub open spec fn label_corner(l: Label, k: int) -> UiVertex {
    let x = l.top_left.x as i64;
    let y = l.top_left.y as i64;
    let right = (l.top_left.x + l.size.width) as i64;
    let bottom = (l.top_left.y - l.size.height) as i64;
    if k == 0 {
        UiVertex { x, y, color: l.color }
    } else if k == 1 {
        UiVertex { x, y: bottom, color: l.color }
    } else if k == 2 {
        UiVertex { x: right, y, color: l.color }
    } else {
        UiVertex { x: right, y: bottom, color: l.color }
    }
}

/// Corner `k` of the cursor triangle at `c`: the tip, 50 pixels below it,
/// and 50 pixels below and to the right of it.
pub open spec fn cursor_corner(c: Position, k: int) -> UiVertex {
    let x = c.x as i64;
    let y = c.y as i64;
    if k == 0 {
        UiVertex { x, y, color: cursor_color() }
    } else if k == 1 {
        UiVertex { x, y: (y - 50) as i64, color: cursor_color() }
    } else {
        UiVertex { x: (x + 50) as i64, y: (y - 50) as i64, color: cursor_color() }
    }
}

/// Index `k` of the two triangles of the `i`th label: corners 0, 1, 2 and
/// 2, 1, 3 of its four vertices.
pub open spec fn quad_index(i: int, k: int) -> int {
    4 * i + if k < 3 { k } else if k == 3 { 2 } else if k == 4 { 1 } else { 3 }
}

/// The overlay mesh of `labels` and the cursor at `cursor`.
pub open spec fn is_ui_mesh(m: &UiMesh, labels: Seq<Label>, cursor: Position) -> bool {
    let n = labels.len() as int;
    &&& m.vertices@.len() == 4 * n + 3
    &&& m.indices@.len() == 6 * n + 3
    &&& forall|i: int, k: int| 0 <= i < n && 0 <= k < 4
        ==> #[trigger] m.vertices@[4 * i + k] == label_corner(labels[i], k)
    &&& forall|i: int, k: int| 0 <= i < n && 0 <= k < 6
        ==> #[trigger] m.indices@[6 * i + k] == quad_index(i, k)
    &&& forall|k: int| 0 <= k < 3 ==> #[trigger] m.vertices@[4 * n + k] == cursor_corner(cursor, k)
    &&& forall|k: int| 0 <= k < 3 ==> #[trigger] m.indices@[6 * n + k] == 4 * n + k
}

/// The overlay mesh: each label a rectangle of two triangles in its
/// colour, in order, then the grey cursor triangle.
pub fn ui_mesh(labels: &[Label], cursor: Position) -> (m: UiMesh)
    requires
        forall|i: int| 0 <= i < labels@.len() ==> label_fits(#[trigger] labels@[i]),
        4 * labels@.len() + 3 <= u32::MAX,
    ensures
        is_ui_mesh(&m, labels@, cursor),
{
    let mut vertices: Vec<UiVertex> = Vec::new();
    let mut indices: Vec<u32> = Vec::new();
    let n = labels.len();
    let mut i: usize = 0;
    while i < n
        invariant
            n == labels@.len(),
            4 * n + 3 <= u32::MAX,
            forall|j: int| 0 <= j < labels@.len() ==> label_fits(#[trigger] labels@[j]),
            i <= n,
            vertices@.len() == 4 * i,
            indices@.len() == 6 * i,
            forall|j: int, k: int| 0 <= j < i && 0 <= k < 4
                ==> #[trigger] vertices@[4 * j + k] == label_corner(labels@[j], k),
            forall|j: int, k: int| 0 <= j < i && 0 <= k < 6
                ==> #[trigger] indices@[6 * j + k] == quad_index(j, k),
        decreases n - i,
    {
        let label = &labels[i];
        assert(label_fits(labels@[i as int]));
        let top_left = label.top_left();
        let size = label.size();
        let color = label.color();
        let x = top_left.x as i64;
        let y = top_left.y as i64;
        let right = (top_left.x + size.width) as i64;
        let bottom = (top_left.y - size.height) as i64;
        let offset = (4 * i) as u32;
        let ghost vs = vertices@;
        let ghost is = indices@;
        vertices.push(UiVertex { x, y, color });
        vertices.push(UiVertex { x, y: bottom, color });
        vertices.push(UiVertex { x: right, y, color });
        vertices.push(UiVertex { x: right, y: bottom, color });
        indices.push(offset);
        indices.push(offset + 1);
        indices.push(offset + 2);
        indices.push(offset + 2);
        indices.push(offset + 1);
        indices.push(offset + 3);
        proof {
            assert forall|j: int, k: int| 0 <= j < i + 1 && 0 <= k < 4
                implies #[trigger] vertices@[4 * j + k] == label_corner(labels@[j], k) by {
                if j < i {
                    assert(vertices@[4 * j + k] == vs[4 * j + k]);
                }
            }
            assert forall|j: int, k: int| 0 <= j < i + 1 && 0 <= k < 6
                implies #[trigger] indices@[6 * j + k] == quad_index(j, k) by {
                if j < i {
                    assert(indices@[6 * j + k] == is[6 * j + k]);
                }
            }
        }
        i = i + 1;
    }
    let x = cursor.x as i64;
    let y = cursor.y as i64;
    let color: [u8; 4] = [128, 128, 128, 255];
    let offset = (4 * n) as u32;
    let ghost vs = vertices@;
    let ghost is = indices@;
    vertices.push(UiVertex { x, y, color });
    vertices.push(UiVertex { x, y: y - 50, color });
    vertices.push(UiVertex { x: x + 50, y: y - 50, color });
    indices.push(offset);
    indices.push(offset + 1);
    indices.push(offset + 2);
    let m = UiMesh { vertices, indices };
    proof {
        assert forall|j: int, k: int| 0 <= j < n && 0 <= k < 4
            implies #[trigger] m.vertices@[4 * j + k] == label_corner(labels@[j], k) by {
            assert(m.vertices@[4 * j + k] == vs[4 * j + k]);
        }
        assert forall|j: int, k: int| 0 <= j < n && 0 <= k < 6
            implies #[trigger] m.indices@[6 * j + k] == quad_index(j, k) by {
            assert(m.indices@[6 * j + k] == is[6 * j + k]);
        }
    }
    m
}

/// Rust's division of `v` by 2, rounding toward zero.
pub open spec fn half_toward_zero(v: int) -> int {
    if v >= 0 { v / 2 } else { -((-v) / 2) }
}

/// `a` brought into `min..=max`: `min` below it, else `max` above it.
pub open spec fn clamped(a: int, min: int, max: int) -> int {
    if a < min { min } else if a > max { max } else { a }
}

/// `a` brought into `min..=max` (see `clamped`).
fn clamp(a: i32, min: i32, max: i32) -> (r: i32)
    ensures
        r == clamped(a as int, min as int, max as int),
{
    if a < min {
        min
    } else if a > max {
        max
    } else {
        a
    }
}

/// The labels of a window `window_size` large: an "fps" label in the top
/// left corner and a "camera" label in the top right corner.
pub open spec fn labels_for(labels: Seq<Label>, window_size: Size) -> bool {
    &&& labels.len() == 2
    &&& labels[0].top_left == Position { x: 0, y: (window_size.height - 1) as i32 }
    &&& labels[0].size == Size { width: 100, height: 100 }
    &&& labels[0].text.text@ == seq!['f', 'p', 's']
    &&& labels[0].text.size_px == 48
    &&& labels[0].text.color == [0u8, 255u8, 0u8, 255u8]
    &&& labels[0].color == [0u8, 255u8, 0u8, 255u8]
    &&& labels[1].top_left == Position { x: (window_size.width - 1 - 300) as i32, y: (window_size.height - 1) as i32 }
    &&& labels[1].size == Size { width: 300, height: 40 }
    &&& labels[1].text.text@ == seq!['c', 'a', 'm', 'e', 'r', 'a']
    &&& labels[1].text.size_px == 32
    &&& labels[1].text.color == [0u8, 0u8, 255u8, 255u8]
    &&& labels[1].color == [0u8, 255u8, 0u8, 255u8]
}

/// The window sizes whose labels can be placed.
pub open spec fn window_fits(window_size: Size) -> bool {
    window_size.width >= i32::MIN + 301 && window_size.height > i32::MIN
}

/// The labels of a window `window_size` large (see `labels_for`).
fn create_labels(window_size: Size) -> (labels: Vec<Label>)
    requires
        window_fits(window_size),
    ensures
        labels_for(labels@, window_size),
{
    let mut labels: Vec<Label> = Vec::new();
    let fps = Text::new("fps").with_size_px(48).with_color([0, 255, 0, 255]);
    proof {
        reveal_strlit("fps");
    }
    labels.push(Label::new(
        Position { x: 0, y: window_size.height - 1 },
        Size { width: 100, height: 100 },
        fps,
        [0, 255, 0, 255],
    ));
    let camera = Text::new("camera").with_size_px(32).with_color([0, 0, 255, 255]);
    proof {
        reveal_strlit("camera");
    }
    labels.push(Label::new(
        Position { x: window_size.width - 1 - 300, y: window_size.height - 1 },
        Size { width: 300, height: 40 },
        camera,
        [0, 255, 0, 255],
    ));
    assert(labels@[0].text.text@ == seq!['f', 'p', 's']);
    assert(labels@[1].text.text@ == seq!['c', 'a', 'm', 'e', 'r', 'a']);
    labels
}

/// The overlay: the cursor, the window's size and the labels.
pub struct Ui {
    cursor_position: Position,
    window_size: Size,
    labels: Vec<Label>,
}

/// The mathematical content of an overlay.
pub struct UiView {
    pub cursor: Position,
    pub window_size: Size,
    pub labels: Seq<Label>,
}

impl View for Ui {
    type V = UiView;

    closed spec fn view(&self) -> UiView {
        UiView { cursor: self.cursor_position, window_size: self.window_size, labels: self.labels@ }
    }
}

impl Ui {
    /// The overlay of a window `window_size` large, with the cursor in the
    /// middle of the window.
    pub fn new(window_size: Size) -> (u: Self)
        requires
            window_fits(window_size),
        ensures
            u@.window_size == window_size,
            u@.cursor == (Position {
                x: half_toward_zero(window_size.width - 1) as i32,
                y: half_toward_zero(window_size.height - 1) as i32,
            }),
            labels_for(u@.labels, window_size),
    {
        Ui {
            cursor_position: Position { x: (window_size.width - 1) / 2, y: (window_size.height - 1) / 2 },
            window_size,
            labels: create_labels(window_size),
        }
    }

    /// Takes the window's new size: the cursor is kept inside the window
    /// and the labels are placed anew.
    pub fn update_window_size(&mut self, window_size: Size)
        requires
            window_fits(window_size),
        ensures
            final(self)@.window_size == window_size,
            final(self)@.cursor == (Position {
                x: clamped(old(self)@.cursor.x as int, 0, window_size.width - 1) as i32,
                y: clamped(old(self)@.cursor.y as int, 0, window_size.height - 1) as i32,
            }),
            labels_for(final(self)@.labels, window_size),
    {
        self.window_size = window_size;
        self.cursor_position.x = clamp(self.cursor_position.x, 0, window_size.width - 1);
        self.cursor_position.y = clamp(self.cursor_position.y, 0, window_size.height - 1);
        self.labels = create_labels(window_size);
    }

    /// The overlay mesh of the labels and the cursor (see `ui_mesh`).
    pub fn create_mesh(&self) -> (m: UiMesh)
        requires
            forall|i: int| 0 <= i < self@.labels.len() ==> label_fits(#[trigger] self@.labels[i]),
            4 * self@.labels.len() + 3 <= u32::MAX,
        ensures
            is_ui_mesh(&m, self@.labels, self@.cursor),
    {
        ui_mesh(self.labels.as_slice(), self.cursor_position)
    }
}

} // verus!
