use xp::world::{chunk_number_and_offset, ChunkMap, World, CHUNK_SIZE};

#[test]
fn offset_test() {
    assert_eq!(World::chunk_number_and_offset(-5, 32), (-1, 27));
    assert_eq!(World::chunk_number_and_offset(-5, 4), (-2, 3));
    assert_eq!(World::chunk_number_and_offset(2, 4), (0, 2));
    assert_eq!(World::chunk_number_and_offset(5, 4), (1, 1));
}

#[test]
fn chunk_number_and_offset_edges() {
    assert_eq!(chunk_number_and_offset(0, 32), (0, 0));
    assert_eq!(chunk_number_and_offset(31, 32), (0, 31));
    assert_eq!(chunk_number_and_offset(32, 32), (1, 0));
    assert_eq!(chunk_number_and_offset(-1, 32), (-1, 31));
    // a negative multiple of the chunk size gives the chunk size as offset
    assert_eq!(chunk_number_and_offset(-32, 32), (-1, 32));
}

#[test]
fn new_world_is_empty() {
    let world = World::new();
    assert_eq!(CHUNK_SIZE, 32);
    assert_eq!(world.chunk_piece((0, 0, 0)), None);
}

#[test]
fn add_splits_a_model_into_chunk_pieces() {
    let mut world = World::new();
    world.add(7, [40, 10, 10], [-5, 0, 0]);
    // pieces carry the number of models after this one was added
    assert_eq!(world.chunk_piece((-1, 0, 0)), Some((1, [0, 0, 0], [27, 0, 0], [5, 10, 10])));
    assert_eq!(world.chunk_piece((0, 0, 0)), Some((1, [5, 0, 0], [0, 0, 0], [32, 10, 10])));
    assert_eq!(world.chunk_piece((1, 0, 0)), Some((1, [37, 0, 0], [0, 0, 0], [3, 10, 10])));
    assert_eq!(world.chunk_piece((2, 0, 0)), None);
    assert_eq!(world.chunk_piece((0, 1, 0)), None);
}

#[test]
fn add_covers_every_axis_and_later_models_replace_pieces() {
    let mut world = World::new();
    world.add(1, [2, 40, 33], [30, 30, 0]);
    assert_eq!(world.chunk_piece((0, 0, 0)), Some((1, [0, 0, 0], [30, 30, 0], [2, 2, 32])));
    assert_eq!(world.chunk_piece((0, 1, 1)), Some((1, [0, 2, 32], [30, 0, 0], [2, 32, 1])));
    assert_eq!(world.chunk_piece((0, 2, 0)), Some((1, [0, 34, 0], [30, 0, 0], [2, 6, 32])));
    world.add(2, [1, 1, 1], [0, 0, 0]);
    assert_eq!(world.chunk_piece((0, 0, 0)), Some((2, [0, 0, 0], [0, 0, 0], [1, 1, 1])));
    assert_eq!(world.chunk_piece((0, 1, 1)), Some((1, [0, 2, 32], [30, 0, 0], [2, 32, 1])));
}

#[test]
fn chunk_map_keeps_neighbouring_chunks_apart() {
    let mut m = ChunkMap::new();
    let p = |n: usize| (n, [0, 0, 0], [0, 0, 0], [1, 1, 1]);
    m.insert((0, 0, -1), p(1));
    m.insert((0, -1, 0), p(2));
    m.insert((-1, 0, 0), p(3));
    m.insert((0, -1, i32::MAX), p(4));
    m.insert((i32::MIN, i32::MIN, i32::MIN), p(5));
    assert_eq!(m.get((0, 0, -1)), Some(p(1)));
    assert_eq!(m.get((0, -1, 0)), Some(p(2)));
    assert_eq!(m.get((-1, 0, 0)), Some(p(3)));
    assert_eq!(m.get((0, -1, i32::MAX)), Some(p(4)));
    assert_eq!(m.get((i32::MIN, i32::MIN, i32::MIN)), Some(p(5)));
    assert_eq!(m.get((0, 0, 0)), None);
    m.insert((0, -1, 0), p(6));
    assert_eq!(m.get((0, -1, 0)), Some(p(6)));
    assert_eq!(m.get((0, 0, -1)), Some(p(1)));
}
