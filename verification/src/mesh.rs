//! Walking the triangles of the models of an OBJ file: for each model in
//! turn, each group of three vertex indices is one triangle.

use vstd::prelude::*;

verus! {

/// Where the walk stands: the model and the position in its index list.
pub struct TriangleCursor {
    m_i: usize,
    f_i: usize,
}

/// The triangle the indices of `model` give at position `f`: the offsets
/// of its three corners' coordinates, each three times its vertex index.
pub open spec fn corner_offsets(model: Seq<u32>, f: int) -> [usize; 3] {
    [(model[f] * 3) as usize, (model[f + 1] * 3) as usize, (model[f + 2] * 3) as usize]
}

/// The next triangle from model `m` at position `f` on, with the model it
/// belongs to, and the position after it; `None` once every model is done.
pub open spec fn next_from(models: Seq<Seq<u32>>, m: int, f: int) -> (Option<(usize, [usize; 3])>, int, int)
    decreases models.len() - m,
{
    if m < 0 || m >= models.len() {
        (None, m, f)
    } else if f >= models[m].len() {
        next_from(models, m + 1, 0)
    } else {
        (Some((m as usize, corner_offsets(models[m], f))), m, f + 3)
    }
}

/// The index lists can be walked without overflow or running out: each
/// holds whole triangles, and three times every index fits in a `u32`.
pub open spec fn walkable(models: Seq<Seq<u32>>) -> bool {
    forall|m: int| 0 <= m < models.len() ==> {
        &&& (#[trigger] models[m]).len() % 3 == 0
        &&& forall|i: int| 0 <= i < models[m].len() ==> #[trigger] models[m][i] * 3 <= u32::MAX
    }
}

impl View for TriangleCursor {
    type V = (int, int);

    closed spec fn view(&self) -> (int, int) {
        (self.m_i as int, self.f_i as int)
    }
}

impl TriangleCursor {
    /// At the first triangle of the first model.
    pub fn new() -> (c: TriangleCursor)
        ensures
            c@ == (0int, 0int),
    {
        TriangleCursor { m_i: 0, f_i: 0 }
    }

    /// The next triangle of `models` (each given by its index list), with the
    /// model it belongs to; `None` once every model is done.
    pub fn next_triangle(&mut self, models: &[Vec<u32>]) -> (r: Option<(usize, [usize; 3])>)
        requires
            walkable(models@.map_values(|v: Vec<u32>| v@)),
            old(self)@.0 <= models@.len(),
            old(self)@.1 % 3 == 0,
        ensures
            ({
                let ms = models@.map_values(|v: Vec<u32>| v@);
                let (res, m, f) = next_from(ms, old(self)@.0, old(self)@.1);
                &&& r == res
                &&& final(self)@ == (m, f)
            }),
            final(self)@.0 <= models@.len(),
            final(self)@.1 % 3 == 0,
    {
        let ghost ms = models@.map_values(|v: Vec<u32>| v@);
        loop
            invariant
                ms == models@.map_values(|v: Vec<u32>| v@),
                walkable(ms),
                self.m_i <= models@.len(),
                self.f_i % 3 == 0,
                next_from(ms, self.m_i as int, self.f_i as int) == next_from(ms, old(self)@.0, old(self)@.1),
            decreases models@.len() - self.m_i,
        {
            if self.m_i == models.len() {
                return None;
            }
            let indices = &models[self.m_i];
            proof {
                assert(ms[self.m_i as int] == indices@);
            }
            if self.f_i >= indices.len() {
                self.f_i = 0;
                self.m_i = self.m_i + 1;
                continue;
            }
            proof {
                assert(indices@.len() % 3 == 0);
                assert(self.f_i + 2 < indices@.len());
                assert(indices@[self.f_i as int] * 3 <= u32::MAX);
                assert(indices@[self.f_i + 1] * 3 <= u32::MAX);
                assert(indices@[self.f_i + 2] * 3 <= u32::MAX);
            }
            let vi0 = (indices[self.f_i] * 3) as usize;
            let vi1 = (indices[self.f_i + 1] * 3) as usize;
            let vi2 = (indices[self.f_i + 2] * 3) as usize;
            let m = self.m_i;
            self.f_i = self.f_i + 3;
            return Some((m, [vi0, vi1, vi2]));
        }
    }
}

/// The triangles of model `m`, in order.
pub open spec fn model_triangles(m: int, model: Seq<u32>) -> Seq<(usize, [usize; 3])> {
    Seq::new((model.len() / 3) as nat, |t: int| (m as usize, corner_offsets(model, 3 * t)))
}

/// The triangles of the first `m` models, model by model.
pub open spec fn triangles_upto(models: Seq<Seq<u32>>, m: int) -> Seq<(usize, [usize; 3])>
    decreases m,
{
    if m <= 0 {
        Seq::empty()
    } else {
        triangles_upto(models, m - 1) + model_triangles(m - 1, models[m - 1])
    }
}

/// How many triangles a walk has handed out when it stands at position `f`
/// of model `m`.
pub open spec fn walked(models: Seq<Seq<u32>>, m: int, f: int) -> int {
    if m >= models.len() {
        triangles_upto(models, models.len() as int).len() as int
    } else {
        triangles_upto(models, m).len() + f / 3
    }
}

/// A position a walk can stand at: a triangle boundary within a model, or
/// past the last model.
pub open spec fn cursor_valid(models: Seq<Seq<u32>>, m: int, f: int) -> bool {
    &&& 0 <= m <= models.len()
    &&& 0 <= f
    &&& f % 3 == 0
    &&& m < models.len() ==> f <= models[m].len()
}

proof fn lemma_upto_prefix(models: Seq<Seq<u32>>, m: int, n: int)
    requires
        0 <= m <= n <= models.len(),
    ensures
        triangles_upto(models, m).len() <= triangles_upto(models, n).len(),
        forall|i: int| 0 <= i < triangles_upto(models, m).len()
            ==> #[trigger] triangles_upto(models, n)[i] == triangles_upto(models, m)[i],
    decreases n - m,
{
    if m < n {
        lemma_upto_prefix(models, m, n - 1);
    }
}

/// Law of the walk: from any position a walk can stand at, the next call
/// hands out the next triangle of all the models, model by model, and
/// moves on by one, until every triangle has been handed out; then it
/// hands out nothing. So a walk from the start hands out every triangle
/// exactly once, in order.
pub proof fn lemma_walk_hands_out_every_triangle(models: Seq<Seq<u32>>, m: int, f: int)
    requires
        walkable(models),
        cursor_valid(models, m, f),
    ensures
        ({
            let (r, m2, f2) = next_from(models, m, f);
            let all = triangles_upto(models, models.len() as int);
            let k = walked(models, m, f);
            &&& cursor_valid(models, m2, f2)
            &&& k < all.len() ==> r == Some(all[k]) && walked(models, m2, f2) == k + 1
            &&& k >= all.len() ==> r is None
        }),
    decreases models.len() - m,
{
    let n = models.len() as int;
    if m == n {
    } else if f >= models[m].len() {
        assert(f == models[m].len());
        assert(models[m].len() % 3 == 0);
        assert(triangles_upto(models, m + 1).len() == triangles_upto(models, m).len() + models[m].len() / 3);
        lemma_walk_hands_out_every_triangle(models, m + 1, 0);
    } else {
        assert(models[m].len() % 3 == 0);
        let k = walked(models, m, f);
        let t = f / 3;
        assert(f == 3 * t);
        assert(t < models[m].len() / 3);
        lemma_upto_prefix(models, m + 1, n);
        let up = triangles_upto(models, m + 1);
        assert(up == triangles_upto(models, m) + model_triangles(m, models[m]));
        assert(k < up.len());
        assert(up[k] == model_triangles(m, models[m])[t]);
        assert(f + 3 <= models[m].len());
    }
}

} // verus!
