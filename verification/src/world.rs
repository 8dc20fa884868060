//! A world of voxel models, each split into the pieces that fall into the
//! fixed-size chunks of the world.

use std::collections::HashMap;
use vstd::prelude::*;

verus! {

broadcast use vstd::std_specs::hash::group_hash_axioms;

/// The edge length of a world chunk.
pub const CHUNK_SIZE: usize = 32usize;

/// The chunk that holds coordinate `start` for chunks of `chunk_size`
/// (the floor of the quotient).
pub open spec fn chunk_number(start: int, chunk_size: int) -> int {
    start / chunk_size
}

/// The offset of `start` in its chunk; a negative multiple of the chunk
/// size gives the chunk size itself rather than 0.
pub open spec fn chunk_offset(start: int, chunk_size: int) -> int {
    if start < 0 && start % chunk_size == 0 {
        chunk_size
    } else {
        start % chunk_size
    }
}

proof fn lemma_negative_chunk(s: int, c: int)
    requires
        s < 0,
        c > 0,
    ensures
        -((-(s + 1)) / c) - 1 == s / c,
        s % c == 0 ==> (-s) % c == 0,
        s % c != 0 ==> c - (-s) % c == s % c,
        (-(s + 1)) / c >= 0,
{
    let a = -s;
    let q1 = (a - 1) / c;
    let r1 = (a - 1) % c;
    vstd::arithmetic::div_mod::lemma_fundamental_div_mod(a - 1, c);
    vstd::arithmetic::div_mod::lemma_mod_bound(a - 1, c);
    assert(c * q1 == q1 * c) by (nonlinear_arith);
    assert(q1 >= 0) by (nonlinear_arith)
        requires a - 1 >= 0, c > 0, a - 1 == q1 * c + r1, r1 < c;
    assert(s == (-q1 - 1) * c + (c - r1 - 1)) by (nonlinear_arith)
        requires a - 1 == q1 * c + r1, s == -a;
    vstd::arithmetic::div_mod::lemma_fundamental_div_mod_converse(s, c, -q1 - 1, c - r1 - 1);
    if r1 + 1 < c {
        assert(a == q1 * c + (r1 + 1));
        vstd::arithmetic::div_mod::lemma_fundamental_div_mod_converse(a, c, q1, r1 + 1);
    } else {
        assert(a == (q1 + 1) * c + 0) by (nonlinear_arith)
            requires a - 1 == q1 * c + r1, r1 + 1 == c;
        vstd::arithmetic::div_mod::lemma_fundamental_div_mod_converse(a, c, q1 + 1, 0);
    }
}

/// The chunk number and the offset in that chunk of coordinate `start`.
///
/// For every `start` that is not a negative multiple of `chunk_size`,
/// `number * chunk_size + offset == start` and `offset < chunk_size`.
pub fn chunk_number_and_offset(start: i32, chunk_size: usize) -> (r: (i32, usize))
    requires
        0 < chunk_size <= i32::MAX,
        start > i32::MIN,
    ensures
        r.0 == chunk_number(start as int, chunk_size as int),
        r.1 == chunk_offset(start as int, chunk_size as int),
        !(start < 0 && (start as int) % (chunk_size as int) == 0) ==> r.0 * chunk_size + r.1 == start && r.1 < chunk_size,
{
    if start >= 0 {
        let chunk_number = start / chunk_size as i32;
        let offset = start as usize % chunk_size;
        proof {
            vstd::arithmetic::div_mod::lemma_fundamental_div_mod(start as int, chunk_size as int);
            vstd::arithmetic::div_mod::lemma_mod_bound(start as int, chunk_size as int);
            assert((chunk_size as int) * (start as int / chunk_size as int) == (start as int / chunk_size as int) * (chunk_size as int)) by (nonlinear_arith);
        }
        (chunk_number, offset)
    } else {
        let q = (start + 1) / chunk_size as i32;
        assert(q == -((-(start as int + 1)) / (chunk_size as int)));
        let chunk_number = q - 1;
        let m = -start as usize % chunk_size;
        assert(m == (-(start as int)) % (chunk_size as int));
        let offset = chunk_size - m;
        proof {
            lemma_negative_chunk(start as int, chunk_size as int);
            vstd::arithmetic::div_mod::lemma_fundamental_div_mod(start as int, chunk_size as int);
            vstd::arithmetic::div_mod::lemma_mod_bound(start as int, chunk_size as int);
            assert((chunk_size as int) * (start as int / chunk_size as int) == (start as int / chunk_size as int) * (chunk_size as int)) by (nonlinear_arith);
        }
        (chunk_number, offset)
    }
}


/// A chunk of the world, by its chunk number along x, y and z.
pub type ChunkKey = (i32, i32, i32);

/// The piece of a model that falls into one chunk: the index of the model
/// plus one, the piece's offset in the model, its offset in the chunk and
/// its size, each along x, y and z.
pub type ChunkPiece = (usize, [usize; 3], [usize; 3], [usize; 3]);

/// The number a chunk is keyed by: its three chunk numbers as the digits
/// of a number in base 2^32.
pub open spec fn chunk_code(k: ChunkKey) -> i128 {
    (k.0 * 0x1_0000_0000_0000_0000int + k.1 * 0x1_0000_0000int + k.2) as i128
}

proof fn lemma_chunk_code_injective(a: ChunkKey, b: ChunkKey)
    ensures
        chunk_code(a) == chunk_code(b) <==> a == b,
{
    let ca = a.0 * 0x1_0000_0000_0000_0000int + a.1 * 0x1_0000_0000int + a.2;
    let cb = b.0 * 0x1_0000_0000_0000_0000int + b.1 * 0x1_0000_0000int + b.2;
    assert(i128::MIN <= ca <= i128::MAX);
    assert(i128::MIN <= cb <= i128::MAX);
    if ca == cb {
        let d0 = a.0 - b.0;
        let d1 = a.1 - b.1;
        let d2 = a.2 - b.2;
        assert(d0 * 0x1_0000_0000_0000_0000int + d1 * 0x1_0000_0000int + d2 == 0);
        assert(d2 == 0) by (nonlinear_arith)
            requires
                d0 * 0x1_0000_0000_0000_0000int + d1 * 0x1_0000_0000int + d2 == 0,
                -0x1_0000_0000int < d1 < 0x1_0000_0000int,
                -0x1_0000_0000int < d2 < 0x1_0000_0000int,
        {
            assert((d0 * 0x1_0000_0000int + d1) * 0x1_0000_0000int == -d2);
            if d0 * 0x1_0000_0000int + d1 > 0 {
                assert((d0 * 0x1_0000_0000int + d1) * 0x1_0000_0000int >= 0x1_0000_0000int);
            } else if d0 * 0x1_0000_0000int + d1 < 0 {
                assert((d0 * 0x1_0000_0000int + d1) * 0x1_0000_0000int <= -0x1_0000_0000int);
            }
        }
        assert(d1 == 0) by (nonlinear_arith)
            requires
                d0 * 0x1_0000_0000_0000_0000int + d1 * 0x1_0000_0000int == 0,
                -0x1_0000_0000int < d1 < 0x1_0000_0000int,
        {
            assert((d0 * 0x1_0000_0000int + d1) * 0x1_0000_0000int == 0);
            assert(d0 * 0x1_0000_0000int + d1 == 0);
            if d0 > 0 {
                assert(d0 * 0x1_0000_0000int >= 0x1_0000_0000int);
            } else if d0 < 0 {
                assert(d0 * 0x1_0000_0000int <= -0x1_0000_0000int);
            }
        }
        assert(d0 == 0) by (nonlinear_arith)
            requires
                d0 * 0x1_0000_0000_0000_0000int == 0,
        ;
    }
}

/// The key of a chunk.
fn code_of(k: ChunkKey) -> (c: i128)
    ensures
        c == chunk_code(k),
{
    (k.0 as i128) * 0x1_0000_0000_0000_0000i128 + (k.1 as i128) * 0x1_0000_0000i128 + k.2 as i128
}

/// The pieces of the world's models, keyed by the chunk's number.
pub struct ChunkMap {
    pieces: HashMap<i128, ChunkPiece>,
}

impl View for ChunkMap {
    type V = Map<ChunkKey, ChunkPiece>;

    closed spec fn view(&self) -> Map<ChunkKey, ChunkPiece> {
        Map::new(
            |k: ChunkKey| self.pieces@.contains_key(chunk_code(k)),
            |k: ChunkKey| self.pieces@[chunk_code(k)],
        )
    }
}

impl ChunkMap {
    /// An empty map.
    pub fn new() -> (m: Self)
        ensures
            m@ == Map::<ChunkKey, ChunkPiece>::empty(),
    {
        let m = ChunkMap { pieces: HashMap::new() };
        proof {
            assert(m@ =~= Map::<ChunkKey, ChunkPiece>::empty());
        }
        m
    }

    /// Stores `value` for `key`, replacing what was stored for it.
    pub fn insert(&mut self, key: ChunkKey, value: ChunkPiece)
        ensures
            final(self)@ == old(self)@.insert(key, value),
    {
        let c = code_of(key);
        self.pieces.insert(c, value);
        proof {
            assert forall|k: ChunkKey| chunk_code(k) == c <==> k == key by {
                lemma_chunk_code_injective(k, key);
            }
            assert(self@ =~= old(self)@.insert(key, value));
        }
    }

    /// What is stored for `key`.
    pub fn get(&self, key: ChunkKey) -> (r: Option<ChunkPiece>)
        ensures
            r == (if self@.contains_key(key) { Some(self@[key]) } else { None::<ChunkPiece> }),
    {
        match self.pieces.get(&code_of(key)) {
            Some(p) => Some(*p),
            None => None,
        }
    }
}

/// The first chunk that a model placed at `s` with extent `len` reaches
/// along an axis.
pub open spec fn axis_first(s: int) -> int {
    chunk_number(s, CHUNK_SIZE as int)
}

/// The last chunk that the model reaches along the axis.
pub open spec fn axis_last(s: int, len: int) -> int {
    chunk_number(s + len - 1, CHUNK_SIZE as int)
}

/// The model reaches chunk `k` along the axis.
pub open spec fn axis_covers(s: int, len: int, k: int) -> bool {
    len > 0 && axis_first(s) <= k <= axis_last(s, len)
}

/// Where the model's part in chunk `k` starts, in world coordinates.
pub open spec fn piece_lo(s: int, k: int) -> int {
    if s > k * CHUNK_SIZE { s } else { k * CHUNK_SIZE }
}

/// Where the model's part in chunk `k` ends (exclusive).
pub open spec fn piece_hi(s: int, len: int, k: int) -> int {
    if s + len < (k + 1) * CHUNK_SIZE { s + len } else { (k + 1) * CHUNK_SIZE }
}

/// The model reaches every chunk of `key` along all three axes.
pub open spec fn model_covers(position: [i32; 3], size: [usize; 3], key: ChunkKey) -> bool {
    &&& axis_covers(position[0] as int, size[0] as int, key.0 as int)
    &&& axis_covers(position[1] as int, size[1] as int, key.1 as int)
    &&& axis_covers(position[2] as int, size[2] as int, key.2 as int)
}

/// The piece of the model in chunk `key`: the intersection of the model's
/// box with the chunk, as offsets in the model and in the chunk and a size.
pub open spec fn model_piece(position: [i32; 3], size: [usize; 3], entity: usize, key: ChunkKey) -> ChunkPiece {
    let (sx, sy, sz) = (position[0] as int, position[1] as int, position[2] as int);
    let (lx, ly, lz) = (size[0] as int, size[1] as int, size[2] as int);
    let (kx, ky, kz) = (key.0 as int, key.1 as int, key.2 as int);
    (
        entity,
        [(piece_lo(sx, kx) - sx) as usize, (piece_lo(sy, ky) - sy) as usize, (piece_lo(sz, kz) - sz) as usize],
        [
            (piece_lo(sx, kx) - kx * CHUNK_SIZE) as usize,
            (piece_lo(sy, ky) - ky * CHUNK_SIZE) as usize,
            (piece_lo(sz, kz) - kz * CHUNK_SIZE) as usize,
        ],
        [
            (piece_hi(sx, lx, kx) - piece_lo(sx, kx)) as usize,
            (piece_hi(sy, ly, ky) - piece_lo(sy, ky)) as usize,
            (piece_hi(sz, lz, kz) - piece_lo(sz, kz)) as usize,
        ],
    )
}

/// The pieces of a model placed at `position`, by chunk.
pub open spec fn model_pieces(position: [i32; 3], size: [usize; 3], entity: usize) -> Map<ChunkKey, ChunkPiece> {
    Map::new(|k: ChunkKey| model_covers(position, size, k), |k: ChunkKey| model_piece(position, size, entity, k))
}

/// Splitting along one axis can start and finish: the start is not a
/// negative multiple of the chunk size and the chunk after the last one
/// still has an `i32` number.
pub open spec fn axis_splittable(s: int, len: int) -> bool {
    &&& !(s < 0 && s % (CHUNK_SIZE as int) == 0)
    &&& axis_last(s, len) < i32::MAX
}

/// `add` can place a model of `size` at `position`: each axis the split
/// reaches can be split. (For a negative multiple of the chunk size as
/// start the split never finishes; `chunk_number_and_offset` needs a start
/// above `i32::MIN`.)
pub open spec fn placeable(position: [i32; 3], size: [usize; 3]) -> bool {
    let (sx, sy, sz) = (position[0] as int, position[1] as int, position[2] as int);
    let (lx, ly, lz) = (size[0] as int, size[1] as int, size[2] as int);
    &&& sz > i32::MIN
    &&& lz > 0 ==> axis_splittable(sz, lz) && sy > i32::MIN
    &&& lz > 0 && ly > 0 ==> axis_splittable(sy, ly) && sx > i32::MIN
    &&& lz > 0 && ly > 0 && lx > 0 ==> axis_splittable(sx, lx)
}

/// The progress of splitting one axis: chunk `number` is next, the part in
/// it starts at `target` in the chunk and at `source` in the model, and
/// `remaining` of the extent is left.
pub open spec fn axis_state(s: int, len: int, number: int, target: int, source: int, remaining: int) -> bool {
    &&& 0 <= source
    &&& 0 <= remaining
    &&& source + remaining == len
    &&& axis_first(s) <= number
    &&& 0 <= target < CHUNK_SIZE
    &&& number > axis_first(s) ==> target == 0
    &&& number == axis_first(s) ==> source == 0
    &&& remaining > 0 ==> number * CHUNK_SIZE + target == s + source
    &&& remaining > 0 ==> number <= axis_last(s, len)
    &&& remaining == 0 && len > 0 ==> number == axis_last(s, len) + 1
    &&& len == 0 ==> number == axis_first(s)
}

proof fn lemma_axis_start(s: int, len: int)
    requires
        0 <= len,
        axis_splittable(s, len) || len == 0,
        !(s < 0 && s % (CHUNK_SIZE as int) == 0) || len == 0,
    ensures
        len > 0 ==> axis_state(s, len, axis_first(s), chunk_offset(s, CHUNK_SIZE as int), 0, len),
{
    if len > 0 {
        let c = CHUNK_SIZE as int;
        vstd::arithmetic::div_mod::lemma_fundamental_div_mod(s, c);
        vstd::arithmetic::div_mod::lemma_mod_bound(s, c);
        assert(c * (s / c) == (s / c) * c);
        vstd::arithmetic::div_mod::lemma_div_is_ordered(s, s + len - 1, c);
    }
}

proof fn lemma_axis_step(s: int, len: int, number: int, target: int, source: int, remaining: int, current: int)
    requires
        axis_state(s, len, number, target, source, remaining),
        remaining > 0,
        current == (if remaining < CHUNK_SIZE - target { remaining } else { CHUNK_SIZE - target }),
    ensures
        axis_covers(s, len, number),
        piece_lo(s, number) == s + source,
        piece_lo(s, number) - number * CHUNK_SIZE == target,
        piece_hi(s, len, number) - piece_lo(s, number) == current,
        axis_state(s, len, number + 1, 0, source + current, remaining - current),
        current > 0,
{
    let c = CHUNK_SIZE as int;
    let f = axis_first(s);
    vstd::arithmetic::div_mod::lemma_fundamental_div_mod(s, c);
    vstd::arithmetic::div_mod::lemma_mod_bound(s, c);
    assert(c * (s / c) == (s / c) * c);
    assert(f * c <= s);
    assert(number * c >= f * c) by (nonlinear_arith)
        requires number >= f, c > 0;
    assert((number + 1) * c == number * c + c) by (nonlinear_arith);
    if remaining - current > 0 {
        // the model goes on past this chunk
        assert(s + len - 1 >= (number + 1) * c);
        vstd::arithmetic::div_mod::lemma_fundamental_div_mod_converse(s + len - 1 - 0, c,
            (s + len - 1) / c, (s + len - 1) % c);
        vstd::arithmetic::div_mod::lemma_div_is_ordered((number + 1) * c, s + len - 1, c);
        vstd::arithmetic::div_mod::lemma_div_multiples_vanish(number + 1, c);
        assert(c * (number + 1) == (number + 1) * c);
    } else {
        // the model ends in this chunk
        assert(s + len - 1 >= number * c);
        assert(s + len - 1 < (number + 1) * c);
        vstd::arithmetic::div_mod::lemma_fundamental_div_mod_converse(s + len - 1, c, number, s + len - 1 - number * c);
    }
}

/// A coordinate below every `i32` chunk number.
pub open spec fn before_all() -> int {
    i32::MIN as int - 1
}

/// Before chunk `(x, y, z)`: the keys visited earlier in the order of
/// the loops of `World::add` (z outermost, x innermost).
pub open spec fn visited_before(k: ChunkKey, x: int, y: int, z: int) -> bool {
    k.2 < z || (k.2 == z && (k.1 < y || (k.1 == y && k.0 < x)))
}

/// The pieces of the model among the keys visited before `(x, y, z)`.
pub open spec fn visited_pieces(position: [i32; 3], size: [usize; 3], entity: usize, x: int, y: int, z: int) -> Map<ChunkKey, ChunkPiece> {
    Map::new(
        |k: ChunkKey| model_covers(position, size, k) && visited_before(k, x, y, z),
        |k: ChunkKey| model_piece(position, size, entity, k),
    )
}

proof fn lemma_visited_same(position: [i32; 3], size: [usize; 3], entity: usize, x1: int, y1: int, z1: int, x2: int, y2: int, z2: int)
    requires
        forall|k: ChunkKey| #[trigger] model_covers(position, size, k) ==> (visited_before(k, x1, y1, z1) <==> visited_before(k, x2, y2, z2)),
    ensures
        visited_pieces(position, size, entity, x1, y1, z1) == visited_pieces(position, size, entity, x2, y2, z2),
{
    assert(visited_pieces(position, size, entity, x1, y1, z1) =~= visited_pieces(position, size, entity, x2, y2, z2));
}

/// A world of models (each known by its handle) placed at integer
/// positions, with the pieces of each model recorded per chunk.
pub struct World {
    entities: Vec<(usize, [usize; 3], [i32; 3])>,
    chunk_entity_map: ChunkMap,
    chunk_size: usize,
}

/// The mathematical content of a world.
pub struct WorldView {
    pub entities: Seq<(usize, [usize; 3], [i32; 3])>,
    pub chunks: Map<ChunkKey, ChunkPiece>,
    pub chunk_size: nat,
}

impl View for World {
    type V = WorldView;

    closed spec fn view(&self) -> WorldView {
        WorldView {
            entities: self.entities@,
            chunks: self.chunk_entity_map@,
            chunk_size: self.chunk_size as nat,
        }
    }
}

impl World {
    /// The chunk size is `CHUNK_SIZE`.
    pub closed spec fn well_formed(&self) -> bool {
        self.chunk_size == CHUNK_SIZE
    }

    /// An empty world with chunks of `CHUNK_SIZE`.
    pub fn new() -> (w: Self)
        ensures
            w.well_formed(),
            w@.entities == Seq::<(usize, [usize; 3], [i32; 3])>::empty(),
            w@.chunks == Map::<ChunkKey, ChunkPiece>::empty(),
            w@.chunk_size == CHUNK_SIZE,
    {
        World { entities: Vec::new(), chunk_entity_map: ChunkMap::new(), chunk_size: 32 }
    }

    /// The chunk number and the offset in that chunk of `start`.
    pub fn chunk_number_and_offset(start: i32, chunk_size: usize) -> (r: (i32, usize))
        requires
            0 < chunk_size <= i32::MAX,
            start > i32::MIN,
        ensures
            r.0 == chunk_number(start as int, chunk_size as int),
            r.1 == chunk_offset(start as int, chunk_size as int),
            !(start < 0 && (start as int) % (chunk_size as int) == 0) ==> r.0 * chunk_size + r.1 == start && r.1 < chunk_size,
    {
        chunk_number_and_offset(start, chunk_size)
    }

    /// The piece recorded for chunk `key`, if any.
    pub fn chunk_piece(&self, key: ChunkKey) -> (r: Option<ChunkPiece>)
        ensures
            r == (if self@.chunks.contains_key(key) { Some(self@.chunks[key]) } else { None::<ChunkPiece> }),
    {
        self.chunk_entity_map.get(key)
    }

    /// Adds the model `handle` of `size` voxels at `position` and records,
    /// for every chunk that the model reaches, the piece of the model in
    /// that chunk (replacing what was recorded there). The pieces carry the
    /// number of models after this one was added.
    pub fn add(&mut self, handle: usize, size: [usize; 3], position: [i32; 3])
        requires
            old(self).well_formed(),
            old(self)@.entities.len() < usize::MAX,
            placeable(position, size),
        ensures
            final(self).well_formed(),
            final(self)@.chunk_size == old(self)@.chunk_size,
            final(self)@.entities == old(self)@.entities.push((handle, size, position)),
            final(self)@.chunks == old(self)@.chunks.union_prefer_right(
                model_pieces(position, size, final(self)@.entities.len() as usize)),
    {
        self.entities.push((handle, size, position));
        let entity = self.entities.len();
        let ghost start = self.chunk_entity_map@;
        let ghost (sx, sy, sz) = (position[0] as int, position[1] as int, position[2] as int);
        let ghost (lx, ly, lz) = (size[0] as int, size[1] as int, size[2] as int);
        let x_min = position[0];
        let y_min = position[1];
        let z_min = position[2];
        let mut z_size = size[2];
        let (mut z_number, mut target_z_offset) = chunk_number_and_offset(z_min, self.chunk_size);
        let mut source_z_offset: usize = 0;
        proof {
            lemma_axis_start(sz, lz);
            assert forall|k: ChunkKey| #[trigger] model_covers(position, size, k) implies !visited_before(k, before_all(), before_all(), z_number as int) by {}
            assert(visited_pieces(position, size, entity, before_all(), before_all(), z_number as int) =~= Map::empty());
            assert(start.union_prefer_right(Map::empty()) =~= start);
        }
        while z_size != 0
            invariant
                self.well_formed(),
                self.entities@ == old(self)@.entities.push((handle, size, position)),
                entity == self.entities@.len(),
                self.chunk_size == CHUNK_SIZE,
                placeable(position, size),
                sx == position[0] as int && sy == position[1] as int && sz == position[2] as int,
                lx == size[0] as int && ly == size[1] as int && lz == size[2] as int,
                x_min == position[0] && y_min == position[1],
                lz > 0 ==> axis_state(sz, lz, z_number as int, target_z_offset as int, source_z_offset as int, z_size as int),
                lz == 0 ==> z_size == 0,
                self.chunk_entity_map@ == start.union_prefer_right(
                    visited_pieces(position, size, entity, before_all(), before_all(), z_number as int)),
            decreases z_size,
        {
            let z_current_size = if z_size < self.chunk_size - target_z_offset { z_size } else { self.chunk_size - target_z_offset };
            proof {
                lemma_axis_step(sz, lz, z_number as int, target_z_offset as int, source_z_offset as int, z_size as int, z_current_size as int);
            }
            let mut y_size = size[1];
            let (mut y_number, mut target_y_offset) = chunk_number_and_offset(y_min, self.chunk_size);
            let mut source_y_offset: usize = 0;
            proof {
                lemma_axis_start(sy, ly);
                assert forall|k: ChunkKey| #[trigger] model_covers(position, size, k) implies
                    (visited_before(k, before_all(), y_number as int, z_number as int) <==> visited_before(k, before_all(), before_all(), z_number as int)) by {}
                lemma_visited_same(position, size, entity, before_all(), y_number as int, z_number as int, before_all(), before_all(), z_number as int);
            }
            while y_size != 0
                invariant
                    self.well_formed(),
                    self.entities@ == old(self)@.entities.push((handle, size, position)),
                    entity == self.entities@.len(),
                    self.chunk_size == CHUNK_SIZE,
                    placeable(position, size),
                    sx == position[0] as int && sy == position[1] as int && sz == position[2] as int,
                    lx == size[0] as int && ly == size[1] as int && lz == size[2] as int,
                    x_min == position[0],
                    lz > 0,
                    axis_covers(sz, lz, z_number as int),
                    piece_lo(sz, z_number as int) == sz + source_z_offset,
                    piece_lo(sz, z_number as int) - z_number * CHUNK_SIZE == target_z_offset,
                    piece_hi(sz, lz, z_number as int) - piece_lo(sz, z_number as int) == z_current_size,
                    ly > 0 ==> axis_state(sy, ly, y_number as int, target_y_offset as int, source_y_offset as int, y_size as int),
                    ly == 0 ==> y_size == 0,
                    self.chunk_entity_map@ == start.union_prefer_right(
                        visited_pieces(position, size, entity, before_all(), y_number as int, z_number as int)),
                decreases y_size,
            {
                let y_current_size = if y_size < self.chunk_size - target_y_offset { y_size } else { self.chunk_size - target_y_offset };
                proof {
                    lemma_axis_step(sy, ly, y_number as int, target_y_offset as int, source_y_offset as int, y_size as int, y_current_size as int);
                }
                let mut x_size = size[0];
                let (mut x_number, mut target_x_offset) = chunk_number_and_offset(x_min, self.chunk_size);
                let mut source_x_offset: usize = 0;
                proof {
                    lemma_axis_start(sx, lx);
                    assert forall|k: ChunkKey| #[trigger] model_covers(position, size, k) implies
                        (visited_before(k, x_number as int, y_number as int, z_number as int) <==> visited_before(k, before_all(), y_number as int, z_number as int)) by {}
                    lemma_visited_same(position, size, entity, x_number as int, y_number as int, z_number as int, before_all(), y_number as int, z_number as int);
                }
                while x_size != 0
                    invariant
                        self.well_formed(),
                        self.entities@ == old(self)@.entities.push((handle, size, position)),
                        entity == self.entities@.len(),
                        self.chunk_size == CHUNK_SIZE,
                        placeable(position, size),
                        sx == position[0] as int && sy == position[1] as int && sz == position[2] as int,
                        lx == size[0] as int && ly == size[1] as int && lz == size[2] as int,
                        lz > 0,
                        ly > 0,
                        axis_covers(sz, lz, z_number as int),
                        piece_lo(sz, z_number as int) == sz + source_z_offset,
                        piece_lo(sz, z_number as int) - z_number * CHUNK_SIZE == target_z_offset,
                        piece_hi(sz, lz, z_number as int) - piece_lo(sz, z_number as int) == z_current_size,
                        axis_covers(sy, ly, y_number as int),
                        piece_lo(sy, y_number as int) == sy + source_y_offset,
                        piece_lo(sy, y_number as int) - y_number * CHUNK_SIZE == target_y_offset,
                        piece_hi(sy, ly, y_number as int) - piece_lo(sy, y_number as int) == y_current_size,
                        lx > 0 ==> axis_state(sx, lx, x_number as int, target_x_offset as int, source_x_offset as int, x_size as int),
                        lx == 0 ==> x_size == 0,
                        self.chunk_entity_map@ == start.union_prefer_right(
                            visited_pieces(position, size, entity, x_number as int, y_number as int, z_number as int)),
                    decreases x_size,
                {
                    let x_current_size = if x_size < self.chunk_size - target_x_offset { x_size } else { self.chunk_size - target_x_offset };
                    proof {
                        lemma_axis_step(sx, lx, x_number as int, target_x_offset as int, source_x_offset as int, x_size as int, x_current_size as int);
                    }
                    let ghost key = (x_number, y_number, z_number);
                    self.chunk_entity_map.insert(
                        (x_number, y_number, z_number),
                        (
                            entity,
                            [source_x_offset, source_y_offset, source_z_offset],
                            [target_x_offset, target_y_offset, target_z_offset],
                            [x_current_size, y_current_size, z_current_size],
                        ),
                    );
                    proof {
                        assert(model_covers(position, size, key));
                        assert(model_piece(position, size, entity, key) == (
                            entity,
                            [source_x_offset, source_y_offset, source_z_offset],
                            [target_x_offset, target_y_offset, target_z_offset],
                            [x_current_size, y_current_size, z_current_size],
                        ));
                        assert(visited_pieces(position, size, entity, x_number + 1, y_number as int, z_number as int)
                            =~= visited_pieces(position, size, entity, x_number as int, y_number as int, z_number as int)
                                .insert(key, model_piece(position, size, entity, key)));
                        assert(self.chunk_entity_map@ =~= start.union_prefer_right(
                            visited_pieces(position, size, entity, x_number + 1, y_number as int, z_number as int)));
                    }
                    x_number = x_number + 1;
                    source_x_offset = source_x_offset + x_current_size;
                    target_x_offset = 0;
                    x_size = x_size - x_current_size;
                }
                proof {
                    assert forall|k: ChunkKey| #[trigger] model_covers(position, size, k) implies
                        (visited_before(k, x_number as int, y_number as int, z_number as int) <==> visited_before(k, before_all(), y_number + 1, z_number as int)) by {}
                    lemma_visited_same(position, size, entity, x_number as int, y_number as int, z_number as int, before_all(), y_number + 1, z_number as int);
                }
                y_number = y_number + 1;
                source_y_offset = source_y_offset + y_current_size;
                target_y_offset = 0;
                y_size = y_size - y_current_size;
            }
            proof {
                assert forall|k: ChunkKey| #[trigger] model_covers(position, size, k) implies
                    (visited_before(k, before_all(), y_number as int, z_number as int) <==> visited_before(k, before_all(), before_all(), z_number + 1)) by {}
                lemma_visited_same(position, size, entity, before_all(), y_number as int, z_number as int, before_all(), before_all(), z_number + 1);
            }
            z_number = z_number + 1;
            source_z_offset = source_z_offset + z_current_size;
            target_z_offset = 0;
            z_size = z_size - z_current_size;
        }
        proof {
            assert forall|k: ChunkKey| #[trigger] model_covers(position, size, k) implies visited_before(k, before_all(), before_all(), z_number as int) by {}
            assert(visited_pieces(position, size, entity, before_all(), before_all(), z_number as int)
                =~= model_pieces(position, size, entity));
        }
    }
}


proof fn lemma_axis_voxel(s: int, len: int, v: int, k2: int)
    requires
        0 <= v < len,
    ensures
        axis_covers(s, len, chunk_number(s + v, CHUNK_SIZE as int)),
        piece_lo(s, chunk_number(s + v, CHUNK_SIZE as int)) <= s + v < piece_hi(s, len, chunk_number(s + v, CHUNK_SIZE as int)),
        0 <= piece_lo(s, k2) - k2 * CHUNK_SIZE,
        piece_hi(s, len, k2) - k2 * CHUNK_SIZE <= CHUNK_SIZE,
        piece_lo(s, k2) <= s + v < piece_hi(s, len, k2) ==> k2 == chunk_number(s + v, CHUNK_SIZE as int),
{
    let c = CHUNK_SIZE as int;
    let k = chunk_number(s + v, c);
    vstd::arithmetic::div_mod::lemma_fundamental_div_mod(s + v, c);
    vstd::arithmetic::div_mod::lemma_mod_bound(s + v, c);
    assert(c * k == k * c);
    vstd::arithmetic::div_mod::lemma_div_is_ordered(s, s + v, c);
    vstd::arithmetic::div_mod::lemma_div_is_ordered(s + v, s + len - 1, c);
    assert((k + 1) * c == k * c + c) by (nonlinear_arith);
    assert((k2 + 1) * c == k2 * c + c) by (nonlinear_arith);
    if piece_lo(s, k2) <= s + v < piece_hi(s, len, k2) {
        assert(k2 * c <= s + v < k2 * c + c);
        vstd::arithmetic::div_mod::lemma_fundamental_div_mod_converse(s + v, c, k2, s + v - k2 * c);
    }
}

proof fn lemma_covered_piece(s: int, len: int, k: int)
    requires
        axis_covers(s, len, k),
    ensures
        s <= piece_lo(s, k) < piece_hi(s, len, k) <= s + len,
{
    let c = CHUNK_SIZE as int;
    vstd::arithmetic::div_mod::lemma_fundamental_div_mod(s, c);
    vstd::arithmetic::div_mod::lemma_mod_bound(s, c);
    vstd::arithmetic::div_mod::lemma_fundamental_div_mod(s + len - 1, c);
    vstd::arithmetic::div_mod::lemma_mod_bound(s + len - 1, c);
    assert(c * (s / c) == (s / c) * c);
    assert(c * ((s + len - 1) / c) == ((s + len - 1) / c) * c);
    assert(k * c <= ((s + len - 1) / c) * c) by (nonlinear_arith)
        requires k <= (s + len - 1) / c, c > 0;
    assert((s / c) * c <= k * c) by (nonlinear_arith)
        requires s / c <= k, c > 0;
    assert((k + 1) * c == k * c + c) by (nonlinear_arith);
}

proof fn lemma_chunk_in_i32(s: int, len: int, v: int)
    requires
        0 <= v < len,
        i32::MIN <= s,
        axis_last(s, len) <= i32::MAX,
    ensures
        i32::MIN <= chunk_number(s + v, CHUNK_SIZE as int) <= i32::MAX,
{
    let c = CHUNK_SIZE as int;
    vstd::arithmetic::div_mod::lemma_div_is_ordered(i32::MIN as int, s + v, c);
    vstd::arithmetic::div_mod::lemma_div_is_ordered(s + v, s + len - 1, c);
    assert((i32::MIN as int) / c == -67108864);
}

/// Law of `World::add`: the recorded pieces of a model partition it.
/// Every voxel `v` of the model lies in the piece of exactly one chunk,
/// the one that holds `position + v`, and every piece lies within its
/// chunk.
pub proof fn lemma_pieces_partition_model(position: [i32; 3], size: [usize; 3], entity: usize, v: [int; 3], other: ChunkKey)
    requires
        forall|a: int| 0 <= a < 3 ==> 0 <= #[trigger] v[a] < size[a],
        forall|a: int| 0 <= a < 3 ==> #[trigger] axis_last(position[a] as int, size[a] as int) <= i32::MAX,
    ensures
        ({
            let key = (
                chunk_number(position[0] + v[0], CHUNK_SIZE as int) as i32,
                chunk_number(position[1] + v[1], CHUNK_SIZE as int) as i32,
                chunk_number(position[2] + v[2], CHUNK_SIZE as int) as i32,
            );
            let p = model_piece(position, size, entity, key);
            &&& model_covers(position, size, key)
            &&& forall|a: int| 0 <= a < 3 ==> #[trigger] p.1[a] <= v[a] < p.1[a] + p.3[a]
        }),
        model_covers(position, size, other) ==> forall|a: int| 0 <= a < 3 ==>
            #[trigger] model_piece(position, size, entity, other).2[a] + model_piece(position, size, entity, other).3[a] <= CHUNK_SIZE,
        model_covers(position, size, other) && (forall|a: int| 0 <= a < 3 ==>
            #[trigger] model_piece(position, size, entity, other).1[a] <= v[a]
            < model_piece(position, size, entity, other).1[a] + model_piece(position, size, entity, other).3[a])
            ==> other == (
                chunk_number(position[0] + v[0], CHUNK_SIZE as int) as i32,
                chunk_number(position[1] + v[1], CHUNK_SIZE as int) as i32,
                chunk_number(position[2] + v[2], CHUNK_SIZE as int) as i32,
            ),
{
    assert(0 <= v[0] < size[0]);
    assert(0 <= v[1] < size[1]);
    assert(0 <= v[2] < size[2]);
    lemma_axis_voxel(position[0] as int, size[0] as int, v[0], other.0 as int);
    lemma_axis_voxel(position[1] as int, size[1] as int, v[1], other.1 as int);
    lemma_axis_voxel(position[2] as int, size[2] as int, v[2], other.2 as int);
    let k0 = chunk_number(position[0] + v[0], CHUNK_SIZE as int);
    let k1 = chunk_number(position[1] + v[1], CHUNK_SIZE as int);
    let k2 = chunk_number(position[2] + v[2], CHUNK_SIZE as int);
    assert(axis_last(position[0] as int, size[0] as int) <= i32::MAX);
    assert(axis_last(position[1] as int, size[1] as int) <= i32::MAX);
    assert(axis_last(position[2] as int, size[2] as int) <= i32::MAX);
    lemma_chunk_in_i32(position[0] as int, size[0] as int, v[0]);
    lemma_chunk_in_i32(position[1] as int, size[1] as int, v[1]);
    lemma_chunk_in_i32(position[2] as int, size[2] as int, v[2]);
    if model_covers(position, size, other) {
        lemma_covered_piece(position[0] as int, size[0] as int, other.0 as int);
        lemma_covered_piece(position[1] as int, size[1] as int, other.1 as int);
        lemma_covered_piece(position[2] as int, size[2] as int, other.2 as int);
        let p = model_piece(position, size, entity, other);
        if forall|a: int| 0 <= a < 3 ==> #[trigger] p.1[a] <= v[a] < p.1[a] + p.3[a] {
            assert(p.1[0] <= v[0] < p.1[0] + p.3[0]);
            assert(p.1[1] <= v[1] < p.1[1] + p.3[1]);
            assert(p.1[2] <= v[2] < p.1[2] + p.3[2]);
        }
    }
}

} // verus!
