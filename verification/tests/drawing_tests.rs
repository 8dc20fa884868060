use xp::canvas::{Canvas, Color};
use xp::graph::Graph;
use xp::graphics::ensure_unique_provoking_vertices;
use xp::matrix::Matrix4x4;
use xp::mesh::TriangleCursor;
use xp::vec::Vec4;
use xp::widgets::WidgetId;

const BLACK: Color = Color { r: 0, g: 0, b: 0, a: 255 };
const RED: Color = Color { r: 255, g: 0, b: 0, a: 255 };
const BLUE: Color = Color { r: 0, g: 0, b: 255, a: 255 };

#[test]
fn canvas_rows_are_stored_top_down() {
    let mut canvas = Canvas::new(3, 2, BLACK);
    assert_eq!(canvas.buffer.len(), 6);
    assert!(canvas.zbuffer.iter().all(|z| *z == isize::MIN));
    canvas.set(0, 0, &RED);
    // y = 0 is the bottom row, stored last
    assert_eq!(canvas.buffer[3], RED);
    canvas.set(2, 1, &BLUE);
    assert_eq!(canvas.buffer[2], BLUE);
    canvas.set(3, 0, &BLUE);
    canvas.set(0, 2, &BLUE);
    assert_eq!(canvas.buffer.iter().filter(|c| **c == BLUE).count(), 1);
}

#[test]
fn nearer_pixels_win() {
    let mut canvas = Canvas::new(2, 2, BLACK);
    canvas.set_with_depth(1, 1, 5, &RED);
    assert_eq!(canvas.buffer[1], RED);
    assert_eq!(canvas.zbuffer[1], 5);
    canvas.set_with_depth(1, 1, 3, &BLUE);
    assert_eq!(canvas.buffer[1], RED);
    canvas.set_with_depth(1, 1, 5, &BLUE);
    assert_eq!(canvas.buffer[1], RED);
    canvas.set_with_depth(1, 1, 6, &BLUE);
    assert_eq!(canvas.buffer[1], BLUE);
    canvas.clear_zbuffer();
    assert_eq!(canvas.zbuffer, vec![isize::MIN; 4]);
    assert_eq!(canvas.buffer[1], BLUE);
}

#[test]
fn clear_paints_every_pixel_and_keeps_depths() {
    let mut canvas = Canvas::new(2, 2, BLACK);
    canvas.set_with_depth(0, 0, 7, &RED);
    canvas.clear(&BLUE);
    assert_eq!(canvas.buffer, vec![BLUE; 4]);
    assert_eq!(canvas.zbuffer[2], 7);
    assert_eq!(canvas.zbuffer.iter().filter(|z| **z == isize::MIN).count(), 3);
}

#[test]
fn matrix_times_vector() {
    let m = Matrix4x4(1i32, 2, 3, 4, 0, 1, 0, 0, 0, 0, 2, 0, 1, 1, 1, 1);
    assert_eq!(m * Vec4::new(1, 2, 3, 4), Vec4::new(30, 2, 6, 10));
}

#[test]
fn widget_ids_count_up_from_zero() {
    assert_eq!(<u32 as WidgetId>::generate(&None), 0);
    assert_eq!(<u32 as WidgetId>::generate(&Some(0)), 1);
    assert_eq!(<u32 as WidgetId>::generate(&Some(41)), 42);
}

#[test]
fn graph_nodes_are_numbered_in_order() {
    let mut graph: Graph<&str> = Graph::new();
    assert_eq!(graph.new_node("root").index, 0);
    assert_eq!(graph.new_node("child").index, 1);
    assert_eq!(graph.new_node("other").index, 2);
}

#[test]
fn shared_provoking_vertices_are_copied() {
    let vertices = [[0.0f32, 0.0, 0.0], [1.0, 0.0, 0.0], [0.0, 1.0, 0.0], [1.0, 1.0, 0.0]];
    let indices = [0u32, 1, 2, 0, 2, 3, 1, 3, 2, 0, 3, 1];
    let (new_vertices, new_indices) = ensure_unique_provoking_vertices(&vertices, &indices);
    assert_eq!(new_indices, vec![0, 1, 2, 4, 2, 3, 1, 3, 2, 5, 3, 1]);
    assert_eq!(new_vertices.len(), 6);
    assert_eq!(new_vertices[4], vertices[0]);
    assert_eq!(new_vertices[5], vertices[0]);
    // every face now starts at a vertex of its own, with the same data
    let firsts: Vec<u32> = new_indices.chunks(3).map(|f| f[0]).collect();
    for (i, a) in firsts.iter().enumerate() {
        for b in &firsts[i + 1..] {
            assert_ne!(a, b);
        }
    }
    for (i, index) in new_indices.iter().enumerate() {
        assert_eq!(new_vertices[*index as usize], vertices[indices[i] as usize]);
    }
}

#[test]
fn provoking_vertices_of_a_partial_face() {
    let (new_vertices, new_indices) = ensure_unique_provoking_vertices(&[10u8, 20], &[1, 0, 1, 1]);
    assert_eq!(new_indices, vec![1, 0, 1, 2]);
    assert_eq!(new_vertices, vec![10, 20, 20]);
}

#[test]
fn triangle_walk_visits_every_model_in_order() {
    let models = vec![vec![0u32, 1, 2, 2, 1, 3], vec![], vec![4, 5, 6]];
    let mut cursor = TriangleCursor::new();
    assert_eq!(cursor.next_triangle(&models), Some((0, [0, 3, 6])));
    assert_eq!(cursor.next_triangle(&models), Some((0, [6, 3, 9])));
    assert_eq!(cursor.next_triangle(&models), Some((2, [12, 15, 18])));
    assert_eq!(cursor.next_triangle(&models), None);
    assert_eq!(cursor.next_triangle(&models), None);
}
