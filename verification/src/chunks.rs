//! A cube of chunk slots around the viewer that wraps around: chunk
//! positions that differ by a multiple of the cube's size share a slot.

use vstd::prelude::*;
use core::ops::Range;

verus! {

/// A loaded chunk: the entity that draws it and whether it was added in
/// the current round.
#[derive(Clone, Copy, Debug, PartialEq, Eq)]
pub struct Chunk {
    pub entity: usize,
    pub just_added: bool,
}

/// The chunk ranges that leave and enter the cube when its centre moves,
/// one box per axis.
pub struct Diff {
    pub removed: [[Range<i32>; 3]; 3],
    pub added: [[Range<i32>; 3]; 3],
}

/// A cube of `size`³ chunk slots, for chunks of `chunk_size` voxels.
pub struct Chunks {
    chunks: Vec<Option<Chunk>>,
    size: usize,
    chunk_size: usize,
}

/// The mathematical content of a chunk cube.
pub struct ChunksView {
    pub chunks: Seq<Option<Chunk>>,
    pub size: nat,
    pub chunk_size: nat,
}

impl View for Chunks {
    type V = ChunksView;

    closed spec fn view(&self) -> ChunksView {
        ChunksView { chunks: self.chunks@, size: self.size as nat, chunk_size: self.chunk_size as nat }
    }
}

/// One slot per chunk, and a size for which the slot arithmetic of
/// `set_chunk` and `get_chunk` stays within `i32`.
pub open spec fn chunks_well_formed(c: ChunksView) -> bool {
    &&& c.chunks.len() == c.size * c.size * c.size
    &&& c.size <= 0x3fff_ffff
    &&& c.size * c.size * c.size <= usize::MAX
}

/// Half of `size`, rounded down.
pub open spec fn extent(size: nat) -> int {
    (size as int) / 2
}

/// The ranges `range_diff_1d_i32` returns for a move from `old` to `new`
/// along one axis, for a half-width `e`: the chunk numbers that leave and
/// those that enter.
pub open spec fn range_diff_1d(e: int, old: int, new: int) -> ([int; 2], [int; 2]) {
    if old < new {
        ([old - e, old - e + (new - old)], [old + e, old + e + (new - old)])
    } else {
        ([old + e - (old - new), old + e], [old - e - (old - new), old - e])
    }
}

/// Law of the moving cube along one axis: the cube of half-width `e` around
/// `old` becomes the one around `new`. Moving up, the chunks that leave run
/// from the old cube's low edge to the new cube's low edge, and those that
/// enter from the old cube's high edge to the new cube's high edge; moving
/// down (or not at all), those that leave run from the new high edge to
/// the old high edge, and those that enter from the new low edge to the
/// old low edge. Each range is as long as the move.
pub proof fn lemma_range_diff_1d_slabs(e: int, old: int, new: int)
    ensures
        ({
            let (removed, added) = range_diff_1d(e, old, new);
            &&& old < new ==> removed[0] == old - e && removed[1] == new - e
                && added[0] == old + e && added[1] == new + e
            &&& new <= old ==> removed[0] == new + e && removed[1] == old + e
                && added[0] == new - e && added[1] == old - e
            &&& removed[1] - removed[0] == added[1] - added[0]
            &&& removed[1] - removed[0] == if old < new { new - old } else { old - new }
        }),
{
}

/// Law of translation: moving both centres by `t` moves every bound of the
/// leaving and entering ranges by `t`.
pub proof fn lemma_range_diff_1d_translate(e: int, old: int, new: int, t: int)
    ensures
        ({
            let (r0, a0) = range_diff_1d(e, old, new);
            let (r1, a1) = range_diff_1d(e, old + t, new + t);
            &&& r1[0] == r0[0] + t && r1[1] == r0[1] + t
            &&& a1[0] == a0[0] + t && a1[1] == a0[1] + t
        }),
{
}

/// Every number `range_diff_1d_i32` computes for half-width `e` fits in
/// `i32`.
pub open spec fn range_diff_1d_fits(e: int, old: int, new: int) -> bool {
    let d = if old < new { new - old } else { old - new };
    &&& i32::MIN <= old - e - d
    &&& old + e + d <= i32::MAX
}

/// The span of `e` chunks either side of `centre` fits in `i32`.
pub open spec fn span_fits(e: int, centre: int) -> bool {
    i32::MIN <= centre - e && centre + e <= i32::MAX
}

/// The offset that `set_chunk` and `get_chunk` add before wrapping: a
/// multiple of the size near half of `i32::MAX`.
pub open spec fn wrap_base(size: nat) -> int {
    (i32::MAX as int) / (size as int * 2) * (size as int)
}

/// The slot coordinate of chunk number `p` along one axis.
pub open spec fn slot_coordinate(size: nat, p: int) -> int {
    ((wrap_base(size) + p) as usize) as int % (size as int)
}

/// The slot of a chunk position.
pub open spec fn slot_of(size: nat, p: [i32; 3]) -> int {
    slot_coordinate(size, p[2] as int) * size * size + slot_coordinate(size, p[1] as int) * size
        + slot_coordinate(size, p[0] as int)
}

/// A chunk position whose slot can be computed without overflow.
pub open spec fn slot_addressable(size: nat, p: [i32; 3]) -> bool {
    &&& wrap_base(size) + p[0] <= i32::MAX
    &&& wrap_base(size) + p[1] <= i32::MAX
    &&& wrap_base(size) + p[2] <= i32::MAX
}

proof fn lemma_slot_in_range(size: nat, p: [i32; 3])
    requires
        0 < size,
        size * size * size <= usize::MAX,
    ensures
        0 <= slot_coordinate(size, p[0] as int) < size,
        0 <= slot_coordinate(size, p[1] as int) < size,
        0 <= slot_coordinate(size, p[2] as int) < size,
        0 <= slot_of(size, p) < size * size * size,
{
    let s = size as int;
    let a = slot_coordinate(size, p[0] as int);
    let b = slot_coordinate(size, p[1] as int);
    let c = slot_coordinate(size, p[2] as int);
    vstd::arithmetic::div_mod::lemma_mod_bound(((wrap_base(size) + p[0]) as usize) as int, s);
    vstd::arithmetic::div_mod::lemma_mod_bound(((wrap_base(size) + p[1]) as usize) as int, s);
    vstd::arithmetic::div_mod::lemma_mod_bound(((wrap_base(size) + p[2]) as usize) as int, s);
    assert(0 <= c * s * s + b * s + a < s * s * s) by (nonlinear_arith)
        requires 0 <= a < s, 0 <= b < s, 0 <= c < s;
}

impl Chunks {
    /// A cube of `size`³ empty slots for chunks of `chunk_size` voxels.
    pub fn new(size: usize, chunk_size: usize) -> (c: Self)
        requires
            size * size * size <= usize::MAX,
        ensures
            chunks_well_formed(c@),
            c@.size == size,
            c@.chunk_size == chunk_size,
            c@.chunks == Seq::new((size * size * size) as nat, |i: int| None::<Chunk>),
    {
        proof {
            let s = size as int;
            assert(s * s <= s * s * s) by (nonlinear_arith)
                requires s >= 0;
            assert(s <= 0x3fff_ffff) by (nonlinear_arith)
                requires s * s * s <= usize::MAX, s >= 0, usize::MAX <= 0xffff_ffff_ffff_ffff;
        }
        let n = size * size * size;
        let mut chunks: Vec<Option<Chunk>> = Vec::new();
        let mut i: usize = 0;
        while i < n
            invariant
                i <= n,
                chunks@ == Seq::new(i as nat, |k: int| None::<Chunk>),
            decreases n - i,
        {
            chunks.push(None);
            i = i + 1;
        }
        Chunks { chunks, size, chunk_size }
    }

    /// Marks every loaded chunk as not just added.
    pub fn clear_just_added(&mut self)
        requires
            chunks_well_formed(old(self)@),
        ensures
            final(self)@.size == old(self)@.size,
            final(self)@.chunk_size == old(self)@.chunk_size,
            final(self)@.chunks.len() == old(self)@.chunks.len(),
            forall|i: int| 0 <= i < old(self)@.chunks.len() ==> #[trigger] final(self)@.chunks[i] == match old(self)@.chunks[i] {
                Some(c) => Some(Chunk { just_added: false, ..c }),
                None => None,
            },
    {
        let mut i: usize = 0;
        while i < self.chunks.len()
            invariant
                i <= self.chunks@.len(),
                self.chunks@.len() == old(self)@.chunks.len(),
                self.size == old(self)@.size,
                self.chunk_size == old(self)@.chunk_size,
                forall|j: int| 0 <= j < self.chunks@.len() ==> #[trigger] self.chunks@[j] == if j < i {
                    match old(self)@.chunks[j] {
                        Some(c) => Some(Chunk { just_added: false, ..c }),
                        None => None,
                    }
                } else {
                    old(self)@.chunks[j]
                },
            decreases self.chunks@.len() - i,
        {
            if let Some(chunk) = self.chunks[i] {
                self.chunks.set(i, Some(Chunk { just_added: false, ..chunk }));
            }
            i = i + 1;
        }
    }

    /// The chunk numbers leaving and entering along one axis when the centre
    /// moves from `old` to `new`, for a reach of half the chunk size either
    /// side of the centre.
    pub fn range_diff_1d_i32(&self, old: i32, new: i32) -> (r: ([i32; 2], [i32; 2]))
        requires
            self@.chunk_size <= i32::MAX,
            range_diff_1d_fits(extent(self@.chunk_size), old as int, new as int),
        ensures
            r.0[0] == range_diff_1d(extent(self@.chunk_size), old as int, new as int).0[0],
            r.0[1] == range_diff_1d(extent(self@.chunk_size), old as int, new as int).0[1],
            r.1[0] == range_diff_1d(extent(self@.chunk_size), old as int, new as int).1[0],
            r.1[1] == range_diff_1d(extent(self@.chunk_size), old as int, new as int).1[1],
    {
        let extent = (self.chunk_size as i32) / 2;
        let old_min = old - extent;
        let old_max = old + extent;
        if old < new {
            let diff = new - old;
            let range_removed = [old_min, old_min + diff];
            let range_added = [old_max, old_max + diff];
            (range_removed, range_added)
        } else {
            let diff = old - new;
            let range_removed = [old_max - diff, old_max];
            let range_added = [old_min - diff, old_min];
            (range_removed, range_added)
        }
    }

    /// The boxes of chunks leaving and entering the cube when its centre
    /// moves from `old` to `new`: per axis, the leaving (entering) slab of
    /// that axis spanning the new cube along the other two axes.
    pub fn range_diff_i32(&self, old: [i32; 3], new: [i32; 3]) -> (d: Diff)
        requires
            chunks_well_formed(self@),
            self@.chunk_size <= i32::MAX,
            forall|a: int| 0 <= a < 3 ==> range_diff_1d_fits(extent(self@.chunk_size), #[trigger] old[a] as int, new[a] as int)
                && span_fits(extent(self@.size), new[a] as int),
        ensures
            forall|a: int, b: int| #![trigger d.removed[a][b]] #![trigger d.added[a][b]] 0 <= a < 3 && 0 <= b < 3 ==> {
                let rd = range_diff_1d(extent(self@.chunk_size), old[b] as int, new[b] as int);
                &&& d.removed[a][b].start == if a == b { rd.0[0] } else { new[b] - extent(self@.size) }
                &&& d.removed[a][b].end == if a == b { rd.0[1] } else { new[b] + extent(self@.size) }
                &&& d.added[a][b].start == if a == b { rd.1[0] } else { new[b] - extent(self@.size) }
                &&& d.added[a][b].end == if a == b { rd.1[1] } else { new[b] + extent(self@.size) }
            },
    {
        proof {
            assert(range_diff_1d_fits(extent(self@.chunk_size), old[0] as int, new[0] as int) && span_fits(extent(self@.size), new[0] as int));
            assert(range_diff_1d_fits(extent(self@.chunk_size), old[1] as int, new[1] as int) && span_fits(extent(self@.size), new[1] as int));
            assert(range_diff_1d_fits(extent(self@.chunk_size), old[2] as int, new[2] as int) && span_fits(extent(self@.size), new[2] as int));
        }
        let (x_removed, x_added) = self.range_diff_1d_i32(old[0], new[0]);
        let (y_removed, y_added) = self.range_diff_1d_i32(old[1], new[1]);
        let (z_removed, z_added) = self.range_diff_1d_i32(old[2], new[2]);
        let extent = (self.size as i32) / 2;
        let (x_lo, x_hi) = (new[0] - extent, new[0] + extent);
        let (y_lo, y_hi) = (new[1] - extent, new[1] + extent);
        let (z_lo, z_hi) = (new[2] - extent, new[2] + extent);
        let d = Diff {
            removed: [
                [x_removed[0]..x_removed[1], y_lo..y_hi, z_lo..z_hi],
                [x_lo..x_hi, y_removed[0]..y_removed[1], z_lo..z_hi],
                [x_lo..x_hi, y_lo..y_hi, z_removed[0]..z_removed[1]],
            ],
            added: [
                [x_added[0]..x_added[1], y_lo..y_hi, z_lo..z_hi],
                [x_lo..x_hi, y_added[0]..y_added[1], z_lo..z_hi],
                [x_lo..x_hi, y_lo..y_hi, z_added[0]..z_added[1]],
            ],
        };
        d
    }

    /// The chunks that leave and enter the cube when the viewer moves to the
    /// chunk `current`, coming from the chunk `previous`; on the first move
    /// (no previous chunk) nothing leaves and the whole cube around
    /// `current` enters, as the first added box.
    pub fn range_diff(&self, previous: Option<[i32; 3]>, current: [i32; 3]) -> (d: Diff)
        requires
            chunks_well_formed(self@),
            match previous {
                Some(p) => self@.chunk_size <= i32::MAX && forall|a: int| 0 <= a < 3
                    ==> range_diff_1d_fits(extent(self@.chunk_size), #[trigger] p[a] as int, current[a] as int)
                    && span_fits(extent(self@.size), current[a] as int),
                None => forall|a: int| 0 <= a < 3 ==> span_fits(extent(self@.size), #[trigger] current[a] as int),
            },
        ensures
            match previous {
                Some(p) => forall|a: int, b: int| #![trigger d.removed[a][b]] #![trigger d.added[a][b]] 0 <= a < 3 && 0 <= b < 3 ==> {
                    let rd = range_diff_1d(extent(self@.chunk_size), p[b] as int, current[b] as int);
                    &&& d.removed[a][b].start == if a == b { rd.0[0] } else { current[b] - extent(self@.size) }
                    &&& d.removed[a][b].end == if a == b { rd.0[1] } else { current[b] + extent(self@.size) }
                    &&& d.added[a][b].start == if a == b { rd.1[0] } else { current[b] - extent(self@.size) }
                    &&& d.added[a][b].end == if a == b { rd.1[1] } else { current[b] + extent(self@.size) }
                },
                None => forall|a: int, b: int| #![trigger d.removed[a][b]] #![trigger d.added[a][b]] 0 <= a < 3 && 0 <= b < 3 ==> {
                    &&& d.removed[a][b].start == 0 && d.removed[a][b].end == 0
                    &&& d.added[a][b].start == if a == 0 { current[b] - extent(self@.size) } else { 0 }
                    &&& d.added[a][b].end == if a == 0 { current[b] + extent(self@.size) } else { 0 }
                },
            },
    {
        match previous {
            Some(p) => self.range_diff_i32(p, current),
            None => {
                proof {
                    assert(span_fits(extent(self@.size), current[0] as int));
                    assert(span_fits(extent(self@.size), current[1] as int));
                    assert(span_fits(extent(self@.size), current[2] as int));
                }
                let extent = self.size as i32 / 2;
                Diff {
                    removed: [[0..0, 0..0, 0..0], [0..0, 0..0, 0..0], [0..0, 0..0, 0..0]],
                    added: [
                        [
                            current[0] - extent..current[0] + extent,
                            current[1] - extent..current[1] + extent,
                            current[2] - extent..current[2] + extent,
                        ],
                        [0..0, 0..0, 0..0],
                        [0..0, 0..0, 0..0],
                    ],
                }
            },
        }
    }

    /// Stores `chunk` in the slot of `chunk_position`.
    pub fn set_chunk(&mut self, chunk_position: [i32; 3], chunk: Option<Chunk>)
        requires
            chunks_well_formed(old(self)@),
            old(self)@.size > 0,
            slot_addressable(old(self)@.size, chunk_position),
        ensures
            final(self)@ == (ChunksView {
                chunks: old(self)@.chunks.update(slot_of(old(self)@.size, chunk_position), chunk),
                ..old(self)@
            }),
    {
        let i = self.slot_index(chunk_position);
        self.chunks.set(i, chunk);
    }

    /// The chunk in the slot of `chunk_position`.
    pub fn get_chunk(&mut self, chunk_position: [i32; 3]) -> (c: Option<Chunk>)
        requires
            chunks_well_formed(old(self)@),
            old(self)@.size > 0,
            slot_addressable(old(self)@.size, chunk_position),
        ensures
            final(self)@ == old(self)@,
            c == old(self)@.chunks[slot_of(old(self)@.size, chunk_position)],
    {
        let i = self.slot_index(chunk_position);
        self.chunks[i].clone()
    }

    fn slot_index(&self, chunk_position: [i32; 3]) -> (i: usize)
        requires
            chunks_well_formed(self@),
            self@.size > 0,
            slot_addressable(self@.size, chunk_position),
        ensures
            i == slot_of(self@.size, chunk_position),
            i < self@.chunks.len(),
    {
        proof {
            lemma_slot_in_range(self@.size, chunk_position);
        }
        let s: i32 = self.size as i32;
        let twice: i32 = s * 2;
        let quotient: i32 = i32::MAX / twice;
        proof {
            assert(quotient * s <= i32::MAX) by (nonlinear_arith)
                requires s > 0, twice == s * 2, quotient == (i32::MAX as int) / (twice as int);
            assert(quotient * s >= 0) by (nonlinear_arith)
                requires s > 0, quotient >= 0;
        }
        let max = quotient * s;
        let x = (max + chunk_position[0]) as usize % self.size;
        let y = (max + chunk_position[1]) as usize % self.size;
        let z = (max + chunk_position[2]) as usize % self.size;
        proof {
            let n = self.size as int;
            assert(z * n * n + y * n + x < n * n * n) by (nonlinear_arith)
                requires 0 <= x < n, 0 <= y < n, 0 <= z < n;
            assert(z * n <= z * n * n) by (nonlinear_arith)
                requires 0 <= z, n > 0;
            assert(y * n <= z * n * n + y * n) by (nonlinear_arith)
                requires 0 <= z, 0 <= y, n > 0;
        }
        z * self.size * self.size + y * self.size + x
    }
}

/// Law of the wrap-around: for a chunk number `p` that is not far below
/// zero (`wrap_base(size) + p >= 0`), its slot coordinate is `p` modulo
/// the size, so chunk numbers share a slot exactly when they are
/// congruent modulo the size.
pub proof fn lemma_slot_is_modulo(size: nat, p: int, q: int)
    requires
        0 < size <= 0x3fff_ffff,
        0 <= wrap_base(size) + p <= i32::MAX,
        0 <= wrap_base(size) + q <= i32::MAX,
    ensures
        slot_coordinate(size, p) == p % (size as int),
        slot_coordinate(size, p) == slot_coordinate(size, q) <==> p % (size as int) == q % (size as int),
{
    let s = size as int;
    let m = i32::MAX as int / (s * 2);
    assert(wrap_base(size) == m * s);
    assert(((wrap_base(size) + p) as usize) as int == wrap_base(size) + p);
    assert(((wrap_base(size) + q) as usize) as int == wrap_base(size) + q);
    vstd::arithmetic::div_mod::lemma_mod_multiples_vanish(m, p, s);
    vstd::arithmetic::div_mod::lemma_mod_multiples_vanish(m, q, s);
    assert(s * m == m * s) by (nonlinear_arith);
}

/// Law of the chunk slots: after `set_chunk(p, chunk)`, `get_chunk(q)`
/// gives `chunk` for every position `q` that shares `p`'s slot and what it
/// gave before for any other; positions not far below zero share a slot
/// exactly when they are congruent modulo the size on every axis.
pub proof fn lemma_get_after_set(before: ChunksView, p: [i32; 3], chunk: Option<Chunk>, q: [i32; 3])
    requires
        chunks_well_formed(before),
        before.size > 0,
        slot_addressable(before.size, p),
        slot_addressable(before.size, q),
    ensures
        ({
            let after = ChunksView { chunks: before.chunks.update(slot_of(before.size, p), chunk), ..before };
            after.chunks[slot_of(before.size, q)] == if slot_of(before.size, q) == slot_of(before.size, p) {
                chunk
            } else {
                before.chunks[slot_of(before.size, q)]
            }
        }),
        (forall|a: int| 0 <= a < 3 ==> 0 <= wrap_base(before.size) + #[trigger] p[a] && 0 <= wrap_base(before.size) + q[a])
            ==> (slot_of(before.size, q) == slot_of(before.size, p)
                <==> forall|a: int| 0 <= a < 3 ==> (#[trigger] p[a] as int) % (before.size as int) == (q[a] as int) % (before.size as int)),
{
    let n = before.size;
    lemma_slot_in_range(n, p);
    lemma_slot_in_range(n, q);
    if forall|a: int| 0 <= a < 3 ==> 0 <= wrap_base(n) + #[trigger] p[a] && 0 <= wrap_base(n) + q[a] {
        assert(0 <= wrap_base(n) + p[0] && 0 <= wrap_base(n) + q[0]);
        assert(0 <= wrap_base(n) + p[1] && 0 <= wrap_base(n) + q[1]);
        assert(0 <= wrap_base(n) + p[2] && 0 <= wrap_base(n) + q[2]);
        lemma_slot_is_modulo(n, p[0] as int, q[0] as int);
        lemma_slot_is_modulo(n, p[1] as int, q[1] as int);
        lemma_slot_is_modulo(n, p[2] as int, q[2] as int);
        let s = n as int;
        let (px, py, pz) = (slot_coordinate(n, p[0] as int), slot_coordinate(n, p[1] as int), slot_coordinate(n, p[2] as int));
        let (qx, qy, qz) = (slot_coordinate(n, q[0] as int), slot_coordinate(n, q[1] as int), slot_coordinate(n, q[2] as int));
        assert((pz * s * s + py * s + px == qz * s * s + qy * s + qx) <==> (px == qx && py == qy && pz == qz)) by (nonlinear_arith)
            requires 0 <= px < s, 0 <= py < s, 0 <= pz < s, 0 <= qx < s, 0 <= qy < s, 0 <= qz < s;
        if slot_of(n, q) == slot_of(n, p) {
            assert forall|a: int| 0 <= a < 3 implies (#[trigger] p[a] as int) % (n as int) == (q[a] as int) % (n as int) by {
                if a == 0 {} else if a == 1 {} else {}
            }
        }
        if forall|a: int| 0 <= a < 3 ==> (#[trigger] p[a] as int) % (n as int) == (q[a] as int) % (n as int) {
            assert((p[0] as int) % (n as int) == (q[0] as int) % (n as int));
            assert((p[1] as int) % (n as int) == (q[1] as int) % (n as int));
            assert((p[2] as int) % (n as int) == (q[2] as int) % (n as int));
        }
    }
}

} // verus!
