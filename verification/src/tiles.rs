//! A tile map read from an image: each pixel says whether a cell is grass,
//! stone or empty, and each stone cell is drawn with the stone tile that
//! fits its four neighbours, turned to face them.

use vstd::prelude::*;
use crate::text::{chars_of, chars_equal};
use vstd::std_specs::convert::FromSpecImpl;
use std::collections::HashMap;

verus! {

broadcast use vstd::std_specs::hash::group_hash_axioms;

/// What a tile is made of.
#[derive(Clone, Copy, Debug, PartialEq, Eq, Structural, Hash)]
pub enum TileType {
    Empty,
    Grass,
    Stone,
    Test,
}

/// Which sides of a tile border on a tile of the same kind.
#[derive(Clone, Copy, Debug, PartialEq, Eq, Structural, Hash)]
pub enum TileConfiguration {
    NoSides,
    OneSide,
    BothSides,
    Corner,
    USide,
    All,
}

/// A kind of tile together with the shape it takes.
#[derive(Clone, Copy, Debug, PartialEq, Eq, Structural, Hash)]
pub struct Tile {
    pub tile_type: TileType,
    pub configuration: TileConfiguration,
}

impl Tile {
    pub fn new(tile_type: TileType, configuration: TileConfiguration) -> (t: Tile)
        ensures
            t.tile_type == tile_type,
            t.configuration == configuration,
    {
        Tile { tile_type, configuration }
    }
}

/// Why the tile meshes could not be loaded: the mesh loader failed with
/// the error it gives.
#[derive(Debug)]
pub enum TileLoadError<E> {
    MeshLoadError(E),
}

/// Why a world could not be loaded: the mesh loader failed with the error
/// it gives.
#[derive(Debug)]
pub enum WorldLoadError<E> {
    MeshLoadError(E),
}

impl<E> From<E> for TileLoadError<E> {
    fn from(e: E) -> (r: TileLoadError<E>) {
        TileLoadError::MeshLoadError(e)
    }
}

impl<E> FromSpecImpl<E> for TileLoadError<E> {
    open spec fn obeys_from_spec() -> bool {
        true
    }

    open spec fn from_spec(e: E) -> TileLoadError<E> {
        TileLoadError::MeshLoadError(e)
    }
}

impl<E> From<E> for WorldLoadError<E> {
    fn from(e: E) -> (r: WorldLoadError<E>) {
        WorldLoadError::MeshLoadError(e)
    }
}

impl<E> FromSpecImpl<E> for WorldLoadError<E> {
    open spec fn obeys_from_spec() -> bool {
        true
    }

    open spec fn from_spec(e: E) -> WorldLoadError<E> {
        WorldLoadError::MeshLoadError(e)
    }
}

/// The grid value of a map pixel: 0 for pure green (grass), 1 for pure
/// blue (stone), 255 for anything else (empty).
pub open spec fn pixel_value(p: [u8; 3]) -> u32 {
    if p[0] == 0 && p[1] == 255 && p[2] == 0 {
        0
    } else if p[0] == 0 && p[1] == 0 && p[2] == 255 {
        1
    } else {
        255
    }
}

/// The grid values of a map's pixels.
pub open spec fn grid_of(px: Seq<[u8; 3]>) -> Seq<u32> {
    px.map_values(|p: [u8; 3]| pixel_value(p))
}

/// The grid value of a map pixel.
pub fn classify_pixel(p: [u8; 3]) -> (v: u32)
    ensures
        v == pixel_value(p),
{
    if p[0] == 0 && p[1] == 255 && p[2] == 0 {
        0
    } else if p[0] == 0 && p[1] == 0 && p[2] == 255 {
        1
    } else {
        255
    }
}

/// Decodes an encoded image with `image::load_from_memory` and, when the
/// result is an 8-bit RGB image (`DynamicImage::as_rgb8`), hands out its
/// width, height and pixels in the order of `ImageBuffer::pixels`.
/// Trusted: an `ImageBuffer` yields exactly width times height pixels.
/// Which pixels come out is left unsaid: the JPEG decoder that `image` uses
/// picks its arithmetic by the processor, and its results may differ
/// between machines.
#[verifier::external_body]
fn decode_rgb8(bytes: &[u8]) -> (r: Option<(u32, u32, Vec<[u8; 3]>)>)
    ensures
        r matches Some((w, h, px)) ==> px@.len() == w * h,
{
    match image::load_from_memory(bytes) {
        Ok(image) => match image.as_rgb8() {
            Some(b) => Some((b.width(), b.height(), b.pixels().map(|p| p.0).collect())),
            None => None,
        },
        Err(_) => None,
    }
}

/// Law of the map colours: a pixel is grass (0) exactly when it is pure
/// green, stone (1) exactly when it is pure blue, and empty (255)
/// otherwise.
pub proof fn lemma_pixel_colours(p: [u8; 3])
    ensures
        pixel_value(p) == 0 <==> p@ == seq![0u8, 255u8, 0u8],
        pixel_value(p) == 1 <==> p@ == seq![0u8, 0u8, 255u8],
        pixel_value(p) == 255 <==> p@ != seq![0u8, 255u8, 0u8] && p@ != seq![0u8, 0u8, 255u8],
        pixel_value(p) == 0 || pixel_value(p) == 1 || pixel_value(p) == 255,
{
    assert(p@ == seq![0u8, 255u8, 0u8] <==> p[0] == 0 && p[1] == 255 && p[2] == 0) by {
        if p[0] == 0 && p[1] == 255 && p[2] == 0 {
            assert(p@ =~= seq![0u8, 255u8, 0u8]);
        }
        if p@ == seq![0u8, 255u8, 0u8] {
            assert(p@[0] == 0 && p@[1] == 255 && p@[2] == 0);
        }
    }
    assert(p@ == seq![0u8, 0u8, 255u8] <==> p[0] == 0 && p[1] == 0 && p[2] == 255) by {
        if p[0] == 0 && p[1] == 0 && p[2] == 255 {
            assert(p@ =~= seq![0u8, 0u8, 255u8]);
        }
        if p@ == seq![0u8, 0u8, 255u8] {
            assert(p@[0] == 0 && p@[1] == 0 && p@[2] == 255);
        }
    }
}

/// A grid of cell values, `width` cells wide and `height` cells deep, row
/// by row.
pub struct Tiles {
    grid: Vec<u32>,
    width: usize,
    height: usize,
}

/// The mathematical content of a tile map.
pub struct TilesView {
    pub grid: Seq<u32>,
    pub width: nat,
    pub height: nat,
}

impl View for Tiles {
    type V = TilesView;

    closed spec fn view(&self) -> TilesView {
        TilesView { grid: self.grid@, width: self.width as nat, height: self.height as nat }
    }
}

/// One value per cell.
pub open spec fn tiles_well_formed(t: TilesView) -> bool {
    t.grid.len() == t.width * t.height
}

/// The sizes fit the `i32` coordinates the lookups count from the centre
/// with.
pub open spec fn coordinates_fit(t: TilesView) -> bool {
    t.width <= i32::MAX && t.height <= i32::MAX
}

/// The grid index of the cell at `(x, z)`, counted from the map's centre.
pub open spec fn cell_index(t: TilesView, x: int, z: int) -> int {
    (x + t.width as int / 2) + (z + t.height as int / 2) * t.width
}

/// The cell at `(x, z)`, counted from the map's centre, lies on the map.
pub open spec fn on_map(t: TilesView, x: int, z: int) -> bool {
    &&& 0 <= x + t.width as int / 2 < t.width
    &&& 0 <= z + t.height as int / 2 < t.height
}

/// The value of the cell at `(x, z)`.
pub open spec fn cell_value(t: TilesView, x: int, z: int) -> u32 {
    t.grid[cell_index(t, x, z)]
}

/// The stone tile for a stone cell whose left, upper, right and lower
/// neighbours have the given values, and the number of quarter turns
/// (clockwise seen from above, each a rotation by minus a right angle about
/// the vertical axis) it is drawn with.
pub open spec fn stone_shape(left: u32, up: u32, right: u32, down: u32) -> (TileConfiguration, u32) {
    if (left, up, right, down) == (0u32, 0u32, 0u32, 0u32) {
        (TileConfiguration::All, 0)
    } else if (left, up, right, down) == (0u32, 0u32, 1u32, 1u32) {
        (TileConfiguration::Corner, 0)
    } else if (left, up, right, down) == (1u32, 0u32, 0u32, 1u32) {
        (TileConfiguration::Corner, 1)
    } else if (left, up, right, down) == (1u32, 1u32, 0u32, 0u32) {
        (TileConfiguration::Corner, 2)
    } else if (left, up, right, down) == (0u32, 1u32, 1u32, 0u32) {
        (TileConfiguration::Corner, 3)
    } else if (left, up, right, down) == (0u32, 0u32, 0u32, 1u32) {
        (TileConfiguration::USide, 0)
    } else if (left, up, right, down) == (1u32, 0u32, 0u32, 0u32) {
        (TileConfiguration::USide, 1)
    } else if (left, up, right, down) == (0u32, 1u32, 0u32, 0u32) {
        (TileConfiguration::USide, 2)
    } else if (left, up, right, down) == (0u32, 0u32, 1u32, 0u32) {
        (TileConfiguration::USide, 3)
    } else if (left, up, right, down) == (0u32, 1u32, 0u32, 1u32) {
        (TileConfiguration::BothSides, 0)
    } else if (left, up, right, down) == (1u32, 0u32, 1u32, 0u32) {
        (TileConfiguration::BothSides, 1)
    } else if (left, up, right, down) == (1u32, 0u32, 1u32, 1u32) {
        (TileConfiguration::OneSide, 0)
    } else if (left, up, right, down) == (1u32, 1u32, 0u32, 1u32) {
        (TileConfiguration::OneSide, 1)
    } else if (left, up, right, down) == (1u32, 1u32, 1u32, 0u32) {
        (TileConfiguration::OneSide, 2)
    } else if (left, up, right, down) == (0u32, 1u32, 1u32, 1u32) {
        (TileConfiguration::OneSide, 3)
    } else {
        (TileConfiguration::NoSides, 0)
    }
}

/// The neighbour values of a stone cell as seen after one more quarter
/// turn: the lower neighbour comes to the left, the left one up, the upper
/// one to the right and the right one down.
pub open spec fn turn(p: (u32, u32, u32, u32)) -> (u32, u32, u32, u32) {
    (p.3, p.0, p.1, p.2)
}

/// A neighbour pattern turned `k` quarter turns.
pub open spec fn turned(p: (u32, u32, u32, u32), k: nat) -> (u32, u32, u32, u32)
    decreases k,
{
    if k == 0 {
        p
    } else {
        turn(turned(p, (k - 1) as nat))
    }
}

/// The neighbour pattern a stone tile is modelled for, left, up, right and
/// down, 1 standing for stone and 0 for grass.
pub open spec fn base_pattern(c: TileConfiguration) -> (u32, u32, u32, u32) {
    match c {
        TileConfiguration::All => (0, 0, 0, 0),
        TileConfiguration::Corner => (0, 0, 1, 1),
        TileConfiguration::USide => (0, 0, 0, 1),
        TileConfiguration::BothSides => (0, 1, 0, 1),
        TileConfiguration::OneSide => (1, 0, 1, 1),
        TileConfiguration::NoSides => (0, 0, 0, 0),
    }
}

/// How many quarter turns of a tile's pattern differ from each other.
pub open spec fn distinct_turns(c: TileConfiguration) -> nat {
    match c {
        TileConfiguration::All => 1,
        TileConfiguration::BothSides => 2,
        TileConfiguration::NoSides => 0,
        _ => 4,
    }
}

/// Law of the stone tiles: a stone cell gets the tile whose modelled
/// neighbour pattern, turned by the quarter turns it is drawn with, is the
/// cell's actual neighbour pattern; every distinct turn of every tile's
/// pattern is recognised as such; and a cell whose neighbours form no such
/// pattern gets the tile with no sides, unturned.
pub proof fn lemma_stone_shape_is_turned_pattern(left: u32, up: u32, right: u32, down: u32, c: TileConfiguration, k: nat)
    ensures
        stone_shape(left, up, right, down).0 != TileConfiguration::NoSides ==> {
            let (sc, sk) = stone_shape(left, up, right, down);
            &&& sk < distinct_turns(sc)
            &&& turned(base_pattern(sc), sk as nat) == (left, up, right, down)
        },
        stone_shape(left, up, right, down).0 == TileConfiguration::NoSides ==> stone_shape(left, up, right, down).1 == 0,
        c != TileConfiguration::NoSides && k < distinct_turns(c) ==> {
            let p = turned(base_pattern(c), k);
            stone_shape(p.0, p.1, p.2, p.3) == (c, k as u32)
        },
{
    reveal_with_fuel(turned, 4);
}

/// The tile drawn at `(x, z)` and its quarter turns: grass for value 0,
/// the stone tile its neighbours call for for value 1, empty otherwise.
pub open spec fn tile_at(t: TilesView, x: int, z: int) -> (Tile, u32) {
    let v = cell_value(t, x, z);
    if v == 0 {
        (Tile { tile_type: TileType::Grass, configuration: TileConfiguration::NoSides }, 0)
    } else if v == 1 {
        let s = stone_shape(
            cell_value(t, x - 1, z),
            cell_value(t, x, z - 1),
            cell_value(t, x + 1, z),
            cell_value(t, x, z + 1),
        );
        (Tile { tile_type: TileType::Stone, configuration: s.0 }, s.1)
    } else {
        (Tile { tile_type: TileType::Empty, configuration: TileConfiguration::NoSides }, 0)
    }
}

/// The cell at `(x, z)` can be drawn: it lies on the map and, if it is
/// stone, so do its four neighbours.
pub open spec fn drawable(t: TilesView, x: int, z: int) -> bool {
    &&& on_map(t, x, z)
    &&& cell_value(t, x, z) == 1 ==> {
        &&& on_map(t, x - 1, z)
        &&& on_map(t, x + 1, z)
        &&& on_map(t, x, z - 1)
        &&& on_map(t, x, z + 1)
    }
}

/// How many columns `spawn_entities` visits: x runs from
/// `-(width / 2 - 1)` up to `height / 2 - 1`.
pub open spec fn placement_columns(t: TilesView) -> int {
    let n = (t.height as int / 2 - 1) + (t.width as int / 2 - 1);
    if n > 0 { n } else { 0 }
}

/// How many rows `spawn_entities` visits: z runs from `-(height / 2 - 1)`
/// up to `height / 2 - 1`.
pub open spec fn placement_rows(t: TilesView) -> int {
    let n = 2 * (t.height as int / 2 - 1);
    if n > 0 { n } else { 0 }
}

/// The cell `(x, z)` is one that `spawn_entities` visits.
pub open spec fn placement_range(t: TilesView, x: int, z: int) -> bool {
    &&& -(t.width as int / 2 - 1) <= x < t.height as int / 2 - 1
    &&& -(t.height as int / 2 - 1) <= z < t.height as int / 2 - 1
}

impl Tiles {
    /// The map of an image of `width` by `height` pixels, given row by row.
    pub fn from_pixels(width: u32, height: u32, pixels: &Vec<[u8; 3]>) -> (t: Tiles)
        requires
            pixels@.len() == width * height,
        ensures
            tiles_well_formed(t@),
            t@.width == width,
            t@.height == height,
            t@.grid == pixels@.map_values(|p: [u8; 3]| pixel_value(p)),
    {
        let mut grid: Vec<u32> = Vec::new();
        let mut i: usize = 0;
        while i < pixels.len()
            invariant
                i <= pixels@.len(),
                grid@ == pixels@.take(i as int).map_values(|p: [u8; 3]| pixel_value(p)),
            decreases pixels@.len() - i,
        {
            grid.push(classify_pixel(pixels[i]));
            proof {
                assert(pixels@.take(i + 1) =~= pixels@.take(i as int).push(pixels@[i as int]));
            }
            i = i + 1;
        }
        proof {
            assert(pixels@.take(pixels@.len() as int) =~= pixels@);
        }
        Tiles { grid, width: width as usize, height: height as usize }
    }

    /// The map encoded in an image file's bytes (see `from_pixels`); `None`
    /// when the bytes do not decode to an 8-bit RGB image. A map that comes
    /// back is that of some image of its size.
    pub fn load_tilemap(bytes: &[u8]) -> (r: Option<Tiles>)
        ensures
            r matches Some(t) ==> {
                &&& tiles_well_formed(t@)
                &&& t@.width <= u32::MAX && t@.height <= u32::MAX
                &&& exists|px: Seq<[u8; 3]>| px.len() == t@.width * t@.height
                    && t@.grid == #[trigger] grid_of(px)
            },
    {
        match decode_rgb8(bytes) {
            Some((width, height, pixels)) => {
                let t = Tiles::from_pixels(width, height, &pixels);
                proof {
                    assert(pixels@.len() == t@.width * t@.height);
                    assert(t@.grid == grid_of(pixels@));
                }
                Some(t)
            },
            None => None,
        }
    }

    /// The tiles to place, in the order `spawn_entities` places them: for
    /// each x from `-(width / 2 - 1)` up to (not including)
    /// `height / 2 - 1`, each z from `-(height / 2 - 1)` up to
    /// `height / 2 - 1`, the cell's coordinates, tile and quarter turns.
    pub fn tile_placements(&self) -> (r: Vec<(i32, i32, Tile, u32)>)
        requires
            tiles_well_formed(self@),
            coordinates_fit(self@),
            self@.width >= 2,
            self@.height >= 2,
            forall|x: int, z: int|
                placement_range(self@, x, z) ==> #[trigger] drawable(self@, x, z),
        ensures
            r@.len() == placement_columns(self@) * placement_rows(self@),
            forall|i: int, j: int| 0 <= i < placement_columns(self@) && 0 <= j < placement_rows(self@) ==> {
                let x = i - (self@.width as int / 2 - 1);
                let z = j - (self@.height as int / 2 - 1);
                #[trigger] r@[i * placement_rows(self@) + j] == (x as i32, z as i32, tile_at(self@, x, z).0, tile_at(self@, x, z).1)
            },
    {
        let half_width = (self.width / 2 - 1) as i32;
        let half_height = (self.height / 2 - 1) as i32;
        let ghost rows = placement_rows(self@);
        let ghost columns = placement_columns(self@);
        let mut r: Vec<(i32, i32, Tile, u32)> = Vec::new();
        let mut x = -half_width;
        while x < half_height
            invariant
                tiles_well_formed(self@),
                coordinates_fit(self@),
                half_width == self@.width as int / 2 - 1,
                half_height == self@.height as int / 2 - 1,
                rows == placement_rows(self@),
                columns == placement_columns(self@),
                -half_width <= x,
                x < half_height ==> x + half_width < columns,
                x >= half_height ==> x + half_width == columns,
                forall|a: int, b: int| placement_range(self@, a, b) ==> #[trigger] drawable(self@, a, b),
                self@.width >= 2,
                self@.height >= 2,
                r@.len() == (x + half_width) * rows,
                forall|i: int, j: int| 0 <= i < x + half_width && 0 <= j < rows ==> {
                    let cx = i - half_width;
                    let cz = j - half_height;
                    #[trigger] r@[i * rows + j] == (cx as i32, cz as i32, tile_at(self@, cx, cz).0, tile_at(self@, cx, cz).1)
                },
            decreases half_height - x,
        {
            let mut z = -half_height;
            let ghost i = x + half_width;
            let ghost base = r@.len();
            while z < half_height
                invariant
                    tiles_well_formed(self@),
                    coordinates_fit(self@),
                    half_width == self@.width as int / 2 - 1,
                    half_height == self@.height as int / 2 - 1,
                    rows == placement_rows(self@),
                    columns == placement_columns(self@),
                    -half_width <= x < half_height,
                    i == x + half_width,
                    self@.width >= 2,
                    self@.height >= 2,
                    -half_height <= z <= half_height,
                    z + half_height <= rows,
                    forall|a: int, b: int| placement_range(self@, a, b) ==> #[trigger] drawable(self@, a, b),
                    base == i * rows,
                    r@.len() == base + (z + half_height),
                    forall|p: int, j: int| 0 <= p < i && 0 <= j < rows ==> {
                        let cx = p - half_width;
                        let cz = j - half_height;
                        #[trigger] r@[p * rows + j] == (cx as i32, cz as i32, tile_at(self@, cx, cz).0, tile_at(self@, cx, cz).1)
                    },
                    forall|j: int| 0 <= j < z + half_height ==> {
                        let cz = j - half_height;
                        #[trigger] r@[base + j] == (x, cz as i32, tile_at(self@, x as int, cz).0, tile_at(self@, x as int, cz).1)
                    },
                decreases half_height - z,
            {
                proof {
                    assert(placement_range(self@, x as int, z as int));
                    assert(drawable(self@, x as int, z as int));
                }
                let (tile, turns) = self.get_tile_type(x, z);
                r.push((x, z, tile, turns));
                proof {
                    assert forall|p: int, j: int| 0 <= p < i && 0 <= j < rows implies #[trigger] (p * rows + j) < base by {
                        assert(p * rows + j < i * rows) by (nonlinear_arith)
                            requires 0 <= p < i, 0 <= j < rows;
                    }
                }
                z = z + 1;
            }
            proof {
                assert forall|p: int, j: int| 0 <= p < i + 1 && 0 <= j < rows implies {
                    let cx = p - half_width;
                    let cz = j - half_height;
                    #[trigger] r@[p * rows + j] == (cx as i32, cz as i32, tile_at(self@, cx, cz).0, tile_at(self@, cx, cz).1)
                } by {
                    if p == i {
                        assert(p * rows + j == base + j);
                    }
                }
                assert((i + 1) * rows == i * rows + rows) by (nonlinear_arith);
            }
            x = x + 1;
        }
        r
    }

    /// The width of the map, in cells.
    pub fn width(&self) -> (w: usize)
        ensures
            w == self@.width,
    {
        self.width
    }

    /// The depth of the map, in cells.
    pub fn height(&self) -> (h: usize)
        ensures
            h == self@.height,
    {
        self.height
    }

    /// The value of the cell at `(x, z)`, counted from the map's centre.
    pub fn get(&self, x: i32, z: i32) -> (v: u32)
        requires
            tiles_well_formed(self@),
            coordinates_fit(self@),
            on_map(self@, x as int, z as int),
        ensures
            v == cell_value(self@, x as int, z as int),
    {
        let x = (x + self.width as i32 / 2) as usize;
        let z = (z + self.height as i32 / 2) as usize;
        let n = self.grid.len();
        proof {
            let w = self.width as int;
            let h = self.height as int;
            assert(z * w + x < w * h) by (nonlinear_arith)
                requires 0 <= x < w, 0 <= z < h;
            assert(z * w <= z * w + x);
            assert(x + z * w == z * w + x);
            assert(self.grid@.len() == w * h);
            assert(z * self.width == z * w);
        }
        self.grid[x + z * self.width]
    }

    /// The tile drawn at `(x, z)` and the number of quarter turns it is
    /// drawn with.
    pub fn get_tile_type(&self, x: i32, z: i32) -> (r: (Tile, u32))
        requires
            tiles_well_formed(self@),
            coordinates_fit(self@),
            drawable(self@, x as int, z as int),
        ensures
            r == tile_at(self@, x as int, z as int),
    {
        let value = self.get(x, z);
        if value == 0 {
            (Tile { tile_type: TileType::Grass, configuration: TileConfiguration::NoSides }, 0)
        } else if value == 1 {
            let left = self.get(x - 1, z);
            let right = self.get(x + 1, z);
            let up = self.get(x, z - 1);
            let down = self.get(x, z + 1);
            let (configuration, turns) = match (left, up, right, down) {
                (0, 0, 0, 0) => (TileConfiguration::All, 0),
                (0, 0, 1, 1) => (TileConfiguration::Corner, 0),
                (1, 0, 0, 1) => (TileConfiguration::Corner, 1),
                (1, 1, 0, 0) => (TileConfiguration::Corner, 2),
                (0, 1, 1, 0) => (TileConfiguration::Corner, 3),
                (0, 0, 0, 1) => (TileConfiguration::USide, 0),
                (1, 0, 0, 0) => (TileConfiguration::USide, 1),
                (0, 1, 0, 0) => (TileConfiguration::USide, 2),
                (0, 0, 1, 0) => (TileConfiguration::USide, 3),
                (0, 1, 0, 1) => (TileConfiguration::BothSides, 0),
                (1, 0, 1, 0) => (TileConfiguration::BothSides, 1),
                (1, 0, 1, 1) => (TileConfiguration::OneSide, 0),
                (1, 1, 0, 1) => (TileConfiguration::OneSide, 1),
                (1, 1, 1, 0) => (TileConfiguration::OneSide, 2),
                (0, 1, 1, 1) => (TileConfiguration::OneSide, 3),
                _ => (TileConfiguration::NoSides, 0),
            };
            (Tile { tile_type: TileType::Stone, configuration }, turns)
        } else {
            (Tile { tile_type: TileType::Empty, configuration: TileConfiguration::NoSides }, 0)
        }
    }
}

/// The tiles whose meshes are built in, not loaded from a file.
pub open spec fn prebaked(i: int) -> Tile {
    let c = if i <= 2 {
        TileConfiguration::NoSides
    } else if i == 3 {
        TileConfiguration::All
    } else if i == 4 {
        TileConfiguration::USide
    } else if i == 5 {
        TileConfiguration::Corner
    } else if i == 6 {
        TileConfiguration::BothSides
    } else {
        TileConfiguration::OneSide
    };
    let t = if i == 0 {
        TileType::Empty
    } else if i == 1 {
        TileType::Grass
    } else {
        TileType::Stone
    };
    Tile { tile_type: t, configuration: c }
}

/// The tiles that get a built-in mesh, in the order they are registered:
/// empty and grass with no sides, then stone with no sides, all sides, a U
/// side, a corner, both sides and one side.
pub fn prebaked_tiles() -> (r: [Tile; 8])
    ensures
        forall|i: int| 0 <= i < 8 ==> #[trigger] r[i] == prebaked(i),
{
    [
        Tile { tile_type: TileType::Empty, configuration: TileConfiguration::NoSides },
        Tile { tile_type: TileType::Grass, configuration: TileConfiguration::NoSides },
        Tile { tile_type: TileType::Stone, configuration: TileConfiguration::NoSides },
        Tile { tile_type: TileType::Stone, configuration: TileConfiguration::All },
        Tile { tile_type: TileType::Stone, configuration: TileConfiguration::USide },
        Tile { tile_type: TileType::Stone, configuration: TileConfiguration::Corner },
        Tile { tile_type: TileType::Stone, configuration: TileConfiguration::BothSides },
        Tile { tile_type: TileType::Stone, configuration: TileConfiguration::OneSide },
    ]
}

/// The configuration a mesh named `name` in a tile file stands for.
pub open spec fn configuration_named(name: Seq<char>) -> Option<TileConfiguration> {
    if name == seq!['n', 'o', 's', 'i', 'd', 'e', 's'] {
        Some(TileConfiguration::NoSides)
    } else if name == seq!['o', 'n', 'e', 's', 'i', 'd', 'e'] {
        Some(TileConfiguration::OneSide)
    } else if name == seq!['b', 'o', 't', 'h', 's', 'i', 'd', 'e', 's'] {
        Some(TileConfiguration::BothSides)
    } else if name == seq!['c', 'o', 'r', 'n', 'e', 'r'] {
        Some(TileConfiguration::Corner)
    } else if name == seq!['u', 's', 'i', 'd', 'e'] {
        Some(TileConfiguration::USide)
    } else if name == seq!['a', 'l', 'l'] {
        Some(TileConfiguration::All)
    } else {
        None
    }
}

/// The configuration a mesh named `name` stands for, if any.
pub fn configuration_from_name(name: &str) -> (r: Option<TileConfiguration>)
    ensures
        r == configuration_named(name@),
{
    let n = chars_of(name);
    let nosides = ['n', 'o', 's', 'i', 'd', 'e', 's'];
    let oneside = ['o', 'n', 'e', 's', 'i', 'd', 'e'];
    let bothsides = ['b', 'o', 't', 'h', 's', 'i', 'd', 'e', 's'];
    let corner = ['c', 'o', 'r', 'n', 'e', 'r'];
    let uside = ['u', 's', 'i', 'd', 'e'];
    let all = ['a', 'l', 'l'];
    proof {
        assert(nosides@ == seq!['n', 'o', 's', 'i', 'd', 'e', 's']);
        assert(oneside@ == seq!['o', 'n', 'e', 's', 'i', 'd', 'e']);
        assert(bothsides@ == seq!['b', 'o', 't', 'h', 's', 'i', 'd', 'e', 's']);
        assert(corner@ == seq!['c', 'o', 'r', 'n', 'e', 'r']);
        assert(uside@ == seq!['u', 's', 'i', 'd', 'e']);
        assert(all@ == seq!['a', 'l', 'l']);
    }
    if chars_equal(n.as_slice(), &nosides) {
        Some(TileConfiguration::NoSides)
    } else if chars_equal(n.as_slice(), &oneside) {
        Some(TileConfiguration::OneSide)
    } else if chars_equal(n.as_slice(), &bothsides) {
        Some(TileConfiguration::BothSides)
    } else if chars_equal(n.as_slice(), &corner) {
        Some(TileConfiguration::Corner)
    } else if chars_equal(n.as_slice(), &uside) {
        Some(TileConfiguration::USide)
    } else if chars_equal(n.as_slice(), &all) {
        Some(TileConfiguration::All)
    } else {
        None
    }
}

/// The number a tile type is keyed by.
pub open spec fn type_code(t: TileType) -> int {
    match t {
        TileType::Empty => 0,
        TileType::Grass => 1,
        TileType::Stone => 2,
        TileType::Test => 3,
    }
}

/// The number a tile configuration is keyed by.
pub open spec fn configuration_code(c: TileConfiguration) -> int {
    match c {
        TileConfiguration::NoSides => 0,
        TileConfiguration::OneSide => 1,
        TileConfiguration::BothSides => 2,
        TileConfiguration::Corner => 3,
        TileConfiguration::USide => 4,
        TileConfiguration::All => 5,
    }
}

/// The number a tile is keyed by: one for each type and configuration.
pub open spec fn tile_code(t: Tile) -> u32 {
    (type_code(t.tile_type) * 6 + configuration_code(t.configuration)) as u32
}

proof fn lemma_tile_code_injective(a: Tile, b: Tile)
    ensures
        tile_code(a) == tile_code(b) <==> a == b,
{
}

/// The key of a tile.
fn key_of(t: &Tile) -> (k: u32)
    ensures
        k == tile_code(*t),
{
    let ty: u32 = match t.tile_type {
        TileType::Empty => 0,
        TileType::Grass => 1,
        TileType::Stone => 2,
        TileType::Test => 3,
    };
    let c: u32 = match t.configuration {
        TileConfiguration::NoSides => 0,
        TileConfiguration::OneSide => 1,
        TileConfiguration::BothSides => 2,
        TileConfiguration::Corner => 3,
        TileConfiguration::USide => 4,
        TileConfiguration::All => 5,
    };
    ty * 6 + c
}

/// The mesh handle for each tile, keyed by the tile's number.
pub struct TileMapping<H> {
    handles: HashMap<u32, H>,
}

impl<H> View for TileMapping<H> {
    type V = Map<Tile, H>;

    closed spec fn view(&self) -> Map<Tile, H> {
        Map::new(|t: Tile| self.handles@.contains_key(tile_code(t)), |t: Tile| self.handles@[tile_code(t)])
    }
}

impl<H: Copy> TileMapping<H> {
    /// A mapping with no tiles.
    pub fn new() -> (m: Self)
        ensures
            m@ == Map::<Tile, H>::empty(),
    {
        let m = TileMapping { handles: HashMap::new() };
        proof {
            assert(m@ =~= Map::<Tile, H>::empty());
        }
        m
    }

    /// Maps `tile` to `handle`, replacing its earlier handle.
    pub fn insert(&mut self, tile: Tile, handle: H)
        ensures
            final(self)@ == old(self)@.insert(tile, handle),
    {
        let k = key_of(&tile);
        self.handles.insert(k, handle);
        proof {
            assert forall|t: Tile| tile_code(t) == k <==> t == tile by {
                lemma_tile_code_injective(t, tile);
            }
            assert(self@ =~= old(self)@.insert(tile, handle));
        }
    }

    /// The handle of `tile`, if it has one.
    pub fn get(&self, tile: &Tile) -> (r: Option<H>)
        ensures
            r == (if self@.contains_key(*tile) { Some(self@[*tile]) } else { None::<H> }),
    {
        match self.handles.get(&key_of(tile)) {
            Some(h) => Some(*h),
            None => None,
        }
    }
}

/// Registers a loaded mesh under the tile of type `tile_type` whose
/// configuration its `name` gives; a mesh with any other name is not
/// registered.
pub fn add_mapping<H: Copy>(mapping: &mut TileMapping<H>, handle: H, tile_type: TileType, name: &str)
    ensures
        final(mapping)@ == match configuration_named(name@) {
            Some(c) => old(mapping)@.insert(Tile { tile_type, configuration: c }, handle),
            None => old(mapping)@,
        },
{
    if let Some(configuration) = configuration_from_name(name) {
        mapping.insert(Tile::new(tile_type, configuration), handle);
    }
}

} // verus!
