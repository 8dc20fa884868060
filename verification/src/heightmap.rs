//! Terrain from a height image: the red channel of a square window of the
//! image gives the heights of a grid of cells, each cell drawn as two
//! triangles of its own six vertices.

use vstd::prelude::*;

verus! {

/// The terrain loaded from a height image.
pub struct Heightmap;

/// Decodes an encoded image with `image::load_from_memory`, converts it
/// with `DynamicImage::to_rgba8` and hands out its width, height and the
/// first channel of each pixel in the order of `ImageBuffer::pixels`.
/// Trusted: an `ImageBuffer` yields exactly width times height pixels.
/// Which pixels come out is left unsaid: the JPEG decoder that `image` uses
/// picks its arithmetic by the processor, and its results may differ
/// between machines.
#[verifier::external_body]
fn decode_red(bytes: &[u8]) -> (r: Option<(u32, u32, Vec<u8>)>)
    ensures
        r matches Some((w, h, px)) ==> px@.len() == w * h,
{
    match image::load_from_memory(bytes) {
        Ok(image) => {
            let rgba = image.to_rgba8();
            Some((rgba.width(), rgba.height(), rgba.pixels().map(|p| p.0[0]).collect()))
        },
        Err(_) => None,
    }
}

/// The red value at column `x + offset_x`, row `z + offset_z` of an image
/// `w` pixels wide.
pub open spec fn sample_at(px: Seq<u8>, w: int, offset_x: int, offset_z: int, x: int, z: int) -> u8 {
    px[(z + offset_z) * w + x + offset_x]
}

/// The `cells + 1` by `cells + 1` pixels from column `offset_x` and row
/// `offset_z` on fit in an image `w` by `h` pixels large.
pub open spec fn window_fits(w: int, h: int, offset_x: int, offset_z: int, cells: int) -> bool {
    offset_x + cells < w && offset_z + cells < h
}

/// `s` holds the values of the `cells + 1` by `cells + 1` window of the
/// image `px` (`w` pixels wide) from column `offset_x` and row `offset_z`
/// on, column by column, each column from its first row down.
pub open spec fn is_window(s: Seq<u8>, px: Seq<u8>, w: int, offset_x: int, offset_z: int, cells: int) -> bool {
    &&& s.len() == (cells + 1) * (cells + 1)
    &&& forall|x: int, z: int| 0 <= x <= cells && 0 <= z <= cells
        ==> #[trigger] s[x * (cells + 1) + z] == sample_at(px, w, offset_x, offset_z, x, z)
}

/// The heights of a terrain of `cells` by `cells` cells: the window of
/// `cells + 1` by `cells + 1` values from column `offset_x` and row
/// `offset_z` on of the `w` by `h` image `px`, given row by row. `None`
/// when the window does not fit in the image.
pub fn heightmap_window(w: u32, h: u32, px: &Vec<u8>, offset_x: u32, offset_z: u32, cells: u32) -> (r: Option<Vec<u8>>)
    requires
        px@.len() == w * h,
    ensures
        window_fits(w as int, h as int, offset_x as int, offset_z as int, cells as int)
            ==> (r matches Some(s) && is_window(s@, px@, w as int, offset_x as int, offset_z as int, cells as int)),
        !window_fits(w as int, h as int, offset_x as int, offset_z as int, cells as int) ==> r is None,
{
    if !((offset_x as u64) + (cells as u64) < w as u64 && (offset_z as u64) + (cells as u64) < h as u64) {
        return None;
    }
    let ghost pxs = px@;
    let wu = w as usize;
    let n: usize = cells as usize + 1;
    let ox = offset_x as usize;
    let oz = offset_z as usize;
    let len = px.len();
    proof {
        assert(n * n <= (w as int) * (h as int)) by (nonlinear_arith)
            requires n <= w, n <= h, 0 <= n;
    }
    let mut s: Vec<u8> = Vec::new();
    let mut x: usize = 0;
    while x < n
        invariant
            n == cells + 1,
            wu == w,
            ox == offset_x,
            oz == offset_z,
            len == pxs.len(),
            pxs.len() == w * h,
            px@ == pxs,
            offset_x + cells < w,
            offset_z + cells < h,
            x <= n,
            s@.len() == x * n,
            forall|i: int, j: int| 0 <= i < x && 0 <= j < n
                ==> #[trigger] s@[i * n + j] == sample_at(pxs, w as int, offset_x as int, offset_z as int, i, j),
        decreases n - x,
    {
        let mut z: usize = 0;
        let ghost base = s@.len();
        while z < n
            invariant
                n == cells + 1,
                wu == w,
                ox == offset_x,
                oz == offset_z,
                len == pxs.len(),
                pxs.len() == w * h,
                px@ == pxs,
                offset_x + cells < w,
                offset_z + cells < h,
                x < n,
                z <= n,
                base == x * n,
                s@.len() == base + z,
                forall|i: int, j: int| 0 <= i < x && 0 <= j < n
                    ==> #[trigger] s@[i * n + j] == sample_at(pxs, w as int, offset_x as int, offset_z as int, i, j),
                forall|j: int| 0 <= j < z
                    ==> #[trigger] s@[base + j] == sample_at(pxs, w as int, offset_x as int, offset_z as int, x as int, j),
            decreases n - z,
        {
            let row = z + oz;
            let column = x + ox;
            proof {
                assert(row < h && column < w);
                assert(row * w + column < (w as int) * (h as int)) by (nonlinear_arith)
                    requires row < h, column < w, 0 <= row, 0 <= column;
                assert(row * w <= row * w + column);
            }
            s.push(px[row * wu + column]);
            proof {
                assert forall|i: int, j: int| 0 <= i < x && 0 <= j < n implies #[trigger] (i * n + j) < base by {
                    assert(i * n + j < x * n) by (nonlinear_arith)
                        requires 0 <= i < x, 0 <= j < n;
                }
            }
            z = z + 1;
        }
        proof {
            assert forall|i: int, j: int| 0 <= i < x + 1 && 0 <= j < n implies
                #[trigger] s@[i * n + j] == sample_at(pxs, w as int, offset_x as int, offset_z as int, i, j) by {
                if i == x {
                    assert(i * n + j == base + j);
                }
            }
            assert((x + 1) * n == x * n + n) by (nonlinear_arith);
        }
        x = x + 1;
    }
    Some(s)
}

/// The heights of a terrain of `cells` by `cells` cells read from the red
/// channel of the image encoded in `bytes` (see `heightmap_window`).
/// `None` when the bytes do not decode or the window does not fit in the
/// image; otherwise the result is the window of some decoded image.
pub fn heightmap_samples(bytes: &[u8], offset_x: u32, offset_z: u32, cells: u32) -> (r: Option<Vec<u8>>)
    ensures
        r matches Some(s) ==> exists|w: u32, h: u32, px: Seq<u8>|
            px.len() == w * h
            && #[trigger] window_fits(w as int, h as int, offset_x as int, offset_z as int, cells as int)
            && #[trigger] is_window(s@, px, w as int, offset_x as int, offset_z as int, cells as int),
{
    match decode_red(bytes) {
        Some((w, h, px)) => {
            let r = heightmap_window(w, h, &px, offset_x, offset_z, cells);
            proof {
                if r is Some {
                    assert(window_fits(w as int, h as int, offset_x as int, offset_z as int, cells as int));
                    assert(is_window(r->0@, px@, w as int, offset_x as int, offset_z as int, cells as int));
                }
            }
            r
        },
        None => None,
    }
}

/// The vertex indices of a terrain of `cells` by `cells` cells: each cell
/// has six vertices of its own, appended in order, so the indices count up
/// from 0.
pub fn heightmap_indices(cells: u32) -> (r: Vec<u32>)
    requires
        6 * cells * cells <= u32::MAX,
    ensures
        r@ == Seq::new((6 * cells * cells) as nat, |i: int| i as u32),
{
    proof {
        assert(6 * cells <= 6 * cells * cells || cells == 0) by (nonlinear_arith);
    }
    let total = 6 * cells * cells;
    let mut r: Vec<u32> = Vec::new();
    let mut i: u32 = 0;
    while i < total
        invariant
            i <= total,
            total == 6 * cells * cells,
            r@ == Seq::new(i as nat, |k: int| k as u32),
        decreases total - i,
    {
        r.push(i);
        proof {
            assert(r@ =~= Seq::new((i + 1) as nat, |k: int| k as u32));
        }
        i = i + 1;
    }
    r
}

} // verus!
