use xp::chunks::{Chunk, Chunks};

#[test]
fn modulo_test() {
    assert_eq!(((i32::MAX / (6 * 2) * 6) + 6i32) % 6, 0);
    assert_eq!(((i32::MAX / (6 * 2) * 6) + 5i32) % 6, 5);
    assert_eq!(((i32::MAX / (6 * 2) * 6) + 4i32) % 6, 4);
    assert_eq!(((i32::MAX / (6 * 2) * 6) + 3i32) % 6, 3);
    assert_eq!(((i32::MAX / (6 * 2) * 6) + 2i32) % 6, 2);
    assert_eq!(((i32::MAX / (6 * 2) * 6) + 1i32) % 6, 1);
    assert_eq!(((i32::MAX / (6 * 2) * 6) + 0i32) % 6, 0);
    assert_eq!(((i32::MAX / (6 * 2) * 6) - 1i32) % 6, 5);
    assert_eq!(((i32::MAX / (6 * 2) * 6) - 2i32) % 6, 4);
    assert_eq!(((i32::MAX / (6 * 2) * 6) - 3i32) % 6, 3);
    assert_eq!(((i32::MAX / (6 * 2) * 6) - 4i32) % 6, 2);
    assert_eq!(((i32::MAX / (6 * 2) * 6) - 5i32) % 6, 1);
    assert_eq!(((i32::MAX / (6 * 2) * 6) - 6i32) % 6, 0);
    assert_eq!(((i32::MAX / (6 * 2) * 6) - 7i32) % 6, 5);
}

#[test]
fn range_diff_1d_test() {
    let chunk_size = 4;
    let world_size = 16;

    let world = Chunks::new(world_size, chunk_size);
    let (removed, added) = world.range_diff_1d_i32(0, 2);
    assert_eq!(removed, [-2, 0]);
    assert_eq!(added, [2, 4]);
    let (removed, added) = world.range_diff_1d_i32(0, -2);
    assert_eq!(removed, [0, 2]);
    assert_eq!(added, [-4, -2]);
}

#[test]
fn range_diff_i32_test() {
    let chunk_size = 4;
    let world_size = 16;

    let world = Chunks::new(world_size, chunk_size);
    let diff = world.range_diff_i32([0, 0, 0], [1, 1, 1]);
    // along x the slab [-2, -1) leaves and [2, 3) enters, spanning the new cube in y and z
    assert_eq!(diff.removed[0], [-2..-1, -7..9, -7..9]);
    assert_eq!(diff.added[0], [2..3, -7..9, -7..9]);
    assert_eq!(diff.removed[1], [-7..9, -2..-1, -7..9]);
    assert_eq!(diff.added[2], [-7..9, -7..9, 2..3]);
}

#[test]
fn range_diff_on_first_and_later_moves() {
    let world = Chunks::new(4, 2);
    let first = world.range_diff(None, [1, 2, 3]);
    assert_eq!(first.added[0], [-1..3, 0..4, 1..5]);
    assert_eq!(first.added[1], [0..0, 0..0, 0..0]);
    assert_eq!(first.removed[2], [0..0, 0..0, 0..0]);
    let later = world.range_diff(Some([1, 2, 3]), [0, 2, 3]);
    assert_eq!(later.removed[0], [1..2, 0..4, 1..5]);
    assert_eq!(later.added[0], [-1..0, 0..4, 1..5]);
}

#[test]
fn chunks_wrap_around_the_cube() {
    let mut world = Chunks::new(4, 32);
    assert_eq!(world.get_chunk([0, 0, 0]), None);
    world.set_chunk([1, 2, 3], Some(Chunk { entity: 9, just_added: true }));
    assert_eq!(world.get_chunk([1, 2, 3]), Some(Chunk { entity: 9, just_added: true }));
    // positions four chunks apart share a slot
    assert_eq!(world.get_chunk([5, -2, 7]), Some(Chunk { entity: 9, just_added: true }));
    assert_eq!(world.get_chunk([2, 2, 3]), None);
    world.clear_just_added();
    assert_eq!(world.get_chunk([1, 2, 3]), Some(Chunk { entity: 9, just_added: false }));
    world.set_chunk([-3, 2, 3], None);
    assert_eq!(world.get_chunk([1, 2, 3]), None);
}
