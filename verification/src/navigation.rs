//! Flow-field navigation on a grid of cells.
//!
//! Every cell holds a cost value: `u32::MAX` marks a blocked cell and
//! `u32::MAX - 1` a cell that no destination has reached yet.
//! `set_destination_cell` spreads path costs from a destination (100 for a
//! straight step, 141 for a diagonal one) and `calculate_flow` points every
//! cell at its cheapest neighbour.
//!
//! Cells are stored at index `height * y + x`; for a grid that is wider than
//! it is high, distinct cells can share an index.

use vstd::prelude::*;
use std::collections::VecDeque;
use vstd::std_specs::convert::FromSpecImpl;

verus! {

/// The value of a blocked cell.
pub const BLOCKED: u32 = 0xffff_ffffu32;

/// The value of a cell that no destination has reached.
pub const UNREACHED: u32 = 0xffff_fffeu32;

/// The cost of a straight step.
pub const STRAIGHT_COST: u32 = 100u32;

/// The cost of a diagonal step.
pub const DIAGONAL_COST: u32 = 141u32;

/// A grid position.
#[derive(PartialEq, Eq, Structural, Clone, Copy, Debug)]
pub struct Cell {
    pub x: usize,
    pub y: usize,
}

impl Cell {
    /// The cell at column `x` and row `y`.
    pub fn new(x: usize, y: usize) -> (c: Self)
        ensures
            c == (Cell { x, y }),
    {
        Cell { x, y }
    }
}

impl From<(usize, usize)> for Cell {
    fn from(p: (usize, usize)) -> (c: Cell) {
        Cell { x: p.0, y: p.1 }
    }
}

impl FromSpecImpl<(usize, usize)> for Cell {
    open spec fn obeys_from_spec() -> bool {
        true
    }

    open spec fn from_spec(p: (usize, usize)) -> Cell {
        Cell { x: p.0, y: p.1 }
    }
}

/// An integer direction between neighbouring cells.
#[derive(Clone, Copy, Debug)]
pub struct IVec2 {
    pub x: i32,
    pub y: i32,
}

impl IVec2 {
    /// The direction `(x, y)`.
    pub fn new(x: i32, y: i32) -> (v: Self)
        ensures
            v == (IVec2 { x, y }),
    {
        IVec2 { x, y }
    }
}

/// The mathematical content of a flow field.
pub struct FlowFieldView {
    pub values: Seq<u32>,
    pub flow: Seq<Option<IVec2>>,
    pub width: nat,
    pub height: nat,
}

/// A grid of path costs and of the direction to follow from each cell.
pub struct FlowField {
    values: Vec<u32>,
    flow: Vec<Option<IVec2>>,
    width: usize,
    height: usize,
}

impl View for FlowField {
    type V = FlowFieldView;

    closed spec fn view(&self) -> FlowFieldView {
        FlowFieldView {
            values: self.values@,
            flow: self.flow@,
            width: self.width as nat,
            height: self.height as nat,
        }
    }
}

/// Where a cell is stored.
pub open spec fn index_of(f: FlowFieldView, c: Cell) -> int {
    f.height * c.y + c.x
}

/// The number of cells of the grid.
pub open spec fn cell_count(f: FlowFieldView) -> int {
    (f.width * f.height) as int
}

/// The storage holds one value and one direction per cell.
pub open spec fn well_formed(f: FlowFieldView) -> bool {
    &&& f.values.len() == cell_count(f)
    &&& f.flow.len() == cell_count(f)
    &&& cell_count(f) <= usize::MAX
    &&& f.width <= usize::MAX
    &&& f.height <= usize::MAX
}

/// A cell that lies on the grid and whose storage index is in range.
pub open spec fn addressable(f: FlowFieldView, c: Cell) -> bool {
    &&& c.x < f.width
    &&& c.y < f.height
    &&& index_of(f, c) < cell_count(f)
}

/// A cell of the grid.
pub open spec fn on_grid(f: FlowFieldView, c: Cell) -> bool {
    c.x < f.width && c.y < f.height
}

/// Every cell of the grid has its storage index in range; this is the
/// case exactly when the grid is at least as wide as it is high.
pub open spec fn all_addressable(f: FlowFieldView) -> bool {
    f.height <= f.width
}

/// The value of a cell.
pub open spec fn value_of(f: FlowFieldView, c: Cell) -> u32 {
    f.values[index_of(f, c)]
}

/// The neighbours in the four straight directions, in the order
/// right, left, up, down, keeping those on a `width` by `height` grid.
pub open spec fn straight_neighbours(width: nat, height: nat, c: Cell) -> Seq<Cell> {
    let right = if c.x + 1 < width { seq![Cell { x: (c.x + 1) as usize, y: c.y }] } else { seq![] };
    let left = if c.x > 0 { seq![Cell { x: (c.x - 1) as usize, y: c.y }] } else { seq![] };
    let up = if c.y + 1 < height { seq![Cell { x: c.x, y: (c.y + 1) as usize }] } else { seq![] };
    let down = if c.y > 0 { seq![Cell { x: c.x, y: (c.y - 1) as usize }] } else { seq![] };
    right + left + up + down
}

/// The neighbours in the four diagonal directions, in the order
/// up-right, down-right, up-left, down-left, keeping those on the grid.
pub open spec fn diagonal_neighbours(width: nat, height: nat, c: Cell) -> Seq<Cell> {
    let ur = if c.x + 1 < width && c.y + 1 < height {
        seq![Cell { x: (c.x + 1) as usize, y: (c.y + 1) as usize }]
    } else {
        seq![]
    };
    let dr = if c.x + 1 < width && c.y > 0 {
        seq![Cell { x: (c.x + 1) as usize, y: (c.y - 1) as usize }]
    } else {
        seq![]
    };
    let ul = if c.x > 0 && c.y + 1 < height {
        seq![Cell { x: (c.x - 1) as usize, y: (c.y + 1) as usize }]
    } else {
        seq![]
    };
    let dl = if c.x > 0 && c.y > 0 {
        seq![Cell { x: (c.x - 1) as usize, y: (c.y - 1) as usize }]
    } else {
        seq![]
    };
    ur + dr + ul + dl
}

impl FlowField {
    /// A `width` by `height` grid where every cell is unreached and has no
    /// direction.
    pub fn new(width: usize, height: usize) -> (f: Self)
        requires
            width * height <= usize::MAX,
        ensures
            well_formed(f@),
            f@.width == width,
            f@.height == height,
            f@.values == Seq::new((width * height) as nat, |i: int| UNREACHED),
            f@.flow == Seq::new((width * height) as nat, |i: int| None::<IVec2>),
    {
        let n = width * height;
        let mut values: Vec<u32> = Vec::new();
        let mut flow: Vec<Option<IVec2>> = Vec::new();
        let mut i: usize = 0;
        while i < n
            invariant
                i <= n,
                values@ == Seq::new(i as nat, |k: int| UNREACHED),
                flow@ == Seq::new(i as nat, |k: int| None::<IVec2>),
            decreases n - i,
        {
            values.push(UNREACHED);
            flow.push(None);
            i = i + 1;
        }
        FlowField { values, flow, width, height }
    }

    /// The same field with `cell` blocked.
    pub fn with_blocked_cell(self, cell: &Cell) -> (f: Self)
        requires
            well_formed(self@),
            addressable(self@, *cell),
        ensures
            f@ == (FlowFieldView { values: self@.values.update(index_of(self@, *cell), BLOCKED), ..self@ }),
    {
        let mut field = self;
        field.set(cell, BLOCKED);
        field
    }

    /// The same field with every one of `cells` blocked.
    pub fn with_blocked_cells(self, cells: &[Cell]) -> (f: Self)
        requires
            well_formed(self@),
            forall|i: int| 0 <= i < cells@.len() ==> addressable(self@, #[trigger] cells@[i]),
        ensures
            well_formed(f@),
            f@.width == self@.width,
            f@.height == self@.height,
            f@.flow == self@.flow,
            forall|i: int| 0 <= i < cell_count(self@) ==> #[trigger] f@.values[i] == (
                if exists|j: int| 0 <= j < cells@.len() && index_of(self@, #[trigger] cells@[j]) == i {
                    BLOCKED
                } else {
                    self@.values[i]
                }),
    {
        let ghost start = self@;
        let mut field = self;
        let mut k: usize = 0;
        while k < cells.len()
            invariant
                k <= cells@.len(),
                well_formed(field@),
                field@.width == start.width,
                field@.height == start.height,
                field@.flow == start.flow,
                forall|i: int| 0 <= i < cells@.len() ==> addressable(start, #[trigger] cells@[i]),
                forall|i: int| 0 <= i < cell_count(start) ==> #[trigger] field@.values[i] == (
                    if exists|j: int| 0 <= j < k && index_of(start, #[trigger] cells@[j]) == i {
                        BLOCKED
                    } else {
                        start.values[i]
                    }),
            decreases cells@.len() - k,
        {
            let ghost before = field@;
            field.set(&cells[k], BLOCKED);
            proof {
                assert forall|i: int| 0 <= i < cell_count(start) implies #[trigger] field@.values[i] == (
                    if exists|j: int| 0 <= j < k + 1 && index_of(start, #[trigger] cells@[j]) == i {
                        BLOCKED
                    } else {
                        start.values[i]
                    }) by {
                    if i == index_of(start, cells@[k as int]) {
                        assert(0 <= k < k + 1 && index_of(start, cells@[k as int]) == i);
                    } else {
                        if exists|j: int| 0 <= j < k + 1 && index_of(start, #[trigger] cells@[j]) == i {
                            let j = choose|j: int| 0 <= j < k + 1 && index_of(start, #[trigger] cells@[j]) == i;
                            assert(j < k);
                        }
                        assert(field@.values[i] == before.values[i]);
                    }
                }
            }
            k = k + 1;
        }
        field
    }

    /// The number of columns.
    pub fn width(&self) -> (w: usize)
        ensures
            w == self@.width,
    {
        self.width
    }

    /// The number of rows.
    pub fn height(&self) -> (h: usize)
        ensures
            h == self@.height,
    {
        self.height
    }

    /// The value of `cell`.
    pub fn get(&self, cell: &Cell) -> (v: u32)
        requires
            well_formed(self@),
            addressable(self@, *cell),
        ensures
            v == value_of(self@, *cell),
    {
        assert(self.height * cell.y + cell.x < self.width * self.height);
        self.values[self.height * cell.y + cell.x]
    }

    /// Stores `value` for `cell`.
    pub fn set(&mut self, cell: &Cell, value: u32)
        requires
            well_formed(old(self)@),
            addressable(old(self)@, *cell),
        ensures
            final(self)@ == (FlowFieldView {
                values: old(self)@.values.update(index_of(old(self)@, *cell), value),
                ..old(self)@
            }),
    {
        let i = self.height * cell.y + cell.x;
        self.values.set(i, value);
    }

    /// Stores the direction to follow from `cell`.
    pub fn set_flow_cell(&mut self, cell: &Cell, direction: Option<IVec2>)
        requires
            well_formed(old(self)@),
            addressable(old(self)@, *cell),
        ensures
            final(self)@ == (FlowFieldView {
                flow: old(self)@.flow.update(index_of(old(self)@, *cell), direction),
                ..old(self)@
            }),
    {
        let i = self.height * cell.y + cell.x;
        self.flow.set(i, direction);
    }

    /// The direction to follow from `cell`.
    pub fn get_flow_cell(&self, cell: &Cell) -> (d: Option<IVec2>)
        requires
            well_formed(self@),
            addressable(self@, *cell),
        ensures
            d == self@.flow[index_of(self@, *cell)],
    {
        assert(self.height * cell.y + cell.x < self.width * self.height);
        self.flow[self.height * cell.y + cell.x]
    }

    /// The straight neighbours of `cell` that lie on the grid, in the order
    /// right, left, up, down.
    pub fn get_neighbours(&self, cell: &Cell) -> (ns: Vec<Cell>)
        requires
            cell.x < usize::MAX,
            cell.y < usize::MAX,
        ensures
            ns@ == straight_neighbours(self@.width, self@.height, *cell),
    {
        let mut neighbours: Vec<Cell> = Vec::new();
        if cell.x + 1 < self.width {
            neighbours.push((cell.x + 1, cell.y).into());
        }
        if cell.x > 0 {
            neighbours.push((cell.x - 1, cell.y).into());
        }
        if cell.y + 1 < self.height {
            neighbours.push((cell.x, cell.y + 1).into());
        }
        if cell.y > 0 {
            neighbours.push((cell.x, cell.y - 1).into());
        }
        assert(neighbours@ =~= straight_neighbours(self@.width, self@.height, *cell));
        neighbours
    }

    /// The diagonal neighbours of `cell` that lie on the grid, in the order
    /// up-right, down-right, up-left, down-left.
    pub fn get_neighbours_cross(&self, cell: &Cell) -> (ns: Vec<Cell>)
        requires
            cell.x < usize::MAX,
            cell.y < usize::MAX,
        ensures
            ns@ == diagonal_neighbours(self@.width, self@.height, *cell),
    {
        let mut neighbours: Vec<Cell> = Vec::new();
        if cell.x + 1 < self.width && cell.y + 1 < self.height {
            neighbours.push((cell.x + 1, cell.y + 1).into());
        }
        if cell.x + 1 < self.width && cell.y > 0 {
            neighbours.push((cell.x + 1, cell.y - 1).into());
        }
        if cell.x > 0 && cell.y + 1 < self.height {
            neighbours.push((cell.x - 1, cell.y + 1).into());
        }
        if cell.x > 0 && cell.y > 0 {
            neighbours.push((cell.x - 1, cell.y - 1).into());
        }
        assert(neighbours@ =~= diagonal_neighbours(self@.width, self@.height, *cell));
        neighbours
    }
}


/// The cost of a step between neighbouring cells: straight steps cost 100,
/// diagonal steps 141.
pub open spec fn step_cost(a: Cell, b: Cell) -> int {
    if a.x == b.x || a.y == b.y { STRAIGHT_COST as int } else { DIAGONAL_COST as int }
}

/// `b` is a straight or diagonal neighbour of `a` on the grid.
pub open spec fn adjacent(width: nat, height: nat, a: Cell, b: Cell) -> bool {
    straight_neighbours(width, height, a).contains(b) || diagonal_neighbours(width, height, a).contains(b)
}

/// A non-empty sequence of grid cells, each a neighbour of the one before.
pub open spec fn is_path(width: nat, height: nat, p: Seq<Cell>) -> bool {
    &&& p.len() >= 1
    &&& forall|i: int| 0 <= i < p.len() ==> #[trigger] p[i].x < width && p[i].y < height
    &&& forall|i: int| 0 <= i < p.len() - 1 ==> adjacent(width, height, #[trigger] p[i], p[i + 1])
}

/// The sum of the step costs along a path.
pub open spec fn path_cost(p: Seq<Cell>) -> int
    decreases p.len(),
{
    if p.len() <= 1 {
        0
    } else {
        path_cost(p.drop_last()) + step_cost(p[p.len() - 2], p.last())
    }
}

/// Every on-grid neighbour of `c` that is not blocked costs at most the
/// value of `c` plus the step to it.
pub open spec fn settled(f: FlowFieldView, c: Cell) -> bool {
    &&& forall|n: Cell| #[trigger] straight_neighbours(f.width, f.height, c).contains(n)
        && value_of(f, n) != BLOCKED ==> value_of(f, n) <= value_of(f, c) + STRAIGHT_COST
    &&& forall|n: Cell| #[trigger] diagonal_neighbours(f.width, f.height, c).contains(n)
        && value_of(f, n) != BLOCKED ==> value_of(f, n) <= value_of(f, c) + DIAGONAL_COST
}

/// What spreading a destination does to a field: `after` is `before` with
/// the destination set to 0 and costs spread from it.
///
/// Values never grow and blocked cells stay blocked. On a square grid,
/// every value that dropped is the cost of a path from the destination
/// whose cells after the destination are not blocked, and every cell that
/// was reached is settled; with `lemma_spread_is_shortest`, the reached
/// values of a field of blocked and unreached cells are the least costs of
/// such paths.
pub open spec fn destination_spread(before: FlowFieldView, dest: Cell, after: FlowFieldView) -> bool {
    let d = index_of(before, dest);
    &&& well_formed(after)
    &&& after.width == before.width
    &&& after.height == before.height
    &&& after.flow == before.flow
    &&& after.values[d] == 0
    &&& forall|i: int| 0 <= i < cell_count(before) && i != d ==> #[trigger] after.values[i] <= before.values[i]
    &&& forall|i: int| 0 <= i < cell_count(before) && i != d && before.values[i] == BLOCKED
        ==> #[trigger] after.values[i] == BLOCKED
    &&& before.width == before.height ==> forall|i: int| 0 <= i < cell_count(before)
        && (i == d || #[trigger] after.values[i] < before.values[i]) ==> exists|p: Seq<Cell>|
            is_path(before.width, before.height, p) && p[0] == dest && index_of(before, p.last()) == i
            && avoids_blocked(before, p) && #[trigger] path_cost(p) == after.values[i]
    &&& before.width == before.height ==> forall|c: Cell| on_grid(before, c)
        && (index_of(before, c) == d || #[trigger] value_of(after, c) < value_of(before, c))
        ==> settled(after, c)
}

/// The sum of a sequence of values.
pub open spec fn seq_sum(s: Seq<u32>) -> int
    decreases s.len(),
{
    if s.len() == 0 { 0 } else { seq_sum(s.drop_last()) + s.last() }
}

proof fn lemma_seq_sum_nonneg(s: Seq<u32>)
    ensures
        seq_sum(s) >= 0,
    decreases s.len(),
{
    if s.len() > 0 {
        lemma_seq_sum_nonneg(s.drop_last());
    }
}

proof fn lemma_seq_sum_update(s: Seq<u32>, i: int, v: u32)
    requires
        0 <= i < s.len(),
    ensures
        seq_sum(s.update(i, v)) == seq_sum(s) - s[i] + v,
    decreases s.len(),
{
    let t = s.update(i, v);
    if i == s.len() - 1 {
        assert(t.drop_last() =~= s.drop_last());
    } else {
        assert(t.drop_last() =~= s.drop_last().update(i, v));
        lemma_seq_sum_update(s.drop_last(), i, v);
    }
}

/// On a grid at least as wide as it is high every cell has its storage
/// index in range.
proof fn lemma_addressable(f: FlowFieldView, c: Cell)
    requires
        all_addressable(f),
        on_grid(f, c),
    ensures
        addressable(f, c),
        0 <= index_of(f, c),
{
    let h = f.height as int;
    let w = f.width as int;
    let y = c.y as int;
    let x = c.x as int;
    assert(h * y <= h * (h - 1)) by (nonlinear_arith)
        requires 0 <= y < h;
    assert(h * (h - 1) + w <= w * h) by (nonlinear_arith)
        requires 1 <= h <= w;
    assert(0 <= h * y) by (nonlinear_arith)
        requires 0 <= y, 0 <= h;
}

/// On a square grid distinct cells have distinct storage indices.
proof fn lemma_square_injective(f: FlowFieldView, a: Cell, b: Cell)
    requires
        f.width == f.height,
        on_grid(f, a),
        on_grid(f, b),
        index_of(f, a) == index_of(f, b),
    ensures
        a == b,
{
    let h = f.height as int;
    assert(a.y == b.y) by (nonlinear_arith)
        requires
            h * a.y + a.x == h * b.y + b.x,
            0 <= a.x < h,
            0 <= b.x < h,
            0 <= a.y,
            0 <= b.y;
}

proof fn lemma_neighbours_facts(f: FlowFieldView, c: Cell)
    requires
        on_grid(f, c),
        f.width <= usize::MAX,
        f.height <= usize::MAX,
    ensures
        forall|n: Cell| #[trigger] straight_neighbours(f.width, f.height, c).contains(n) ==>
            on_grid(f, n) && step_cost(c, n) == STRAIGHT_COST && adjacent(f.width, f.height, c, n)
            && n != c,
        forall|n: Cell| #[trigger] diagonal_neighbours(f.width, f.height, c).contains(n) ==>
            on_grid(f, n) && step_cost(c, n) == DIAGONAL_COST && adjacent(f.width, f.height, c, n)
            && n != c,
{
    let w = f.width;
    let h = f.height;
    assert forall|n: Cell| #[trigger] straight_neighbours(w, h, c).contains(n) implies
        on_grid(f, n) && step_cost(c, n) == STRAIGHT_COST && adjacent(w, h, c, n)
        && n != c by {
        let a = if c.x + 1 < w { seq![Cell { x: (c.x + 1) as usize, y: c.y }] } else { seq![] };
        let b = if c.x > 0 { seq![Cell { x: (c.x - 1) as usize, y: c.y }] } else { seq![] };
        let e = if c.y + 1 < h { seq![Cell { x: c.x, y: (c.y + 1) as usize }] } else { seq![] };
        let g = if c.y > 0 { seq![Cell { x: c.x, y: (c.y - 1) as usize }] } else { seq![] };
        let s = straight_neighbours(w, h, c);
        assert(s == a + b + e + g);
        let k = choose|k: int| 0 <= k < s.len() && s[k] == n;
        if k < a.len() {
            assert(s[k] == a[k]);
        } else if k < a.len() + b.len() {
            assert(s[k] == b[k - a.len()]);
        } else if k < a.len() + b.len() + e.len() {
            assert(s[k] == e[k - a.len() - b.len()]);
        } else {
            assert(s[k] == g[k - a.len() - b.len() - e.len()]);
        }
    }
    assert forall|n: Cell| #[trigger] diagonal_neighbours(w, h, c).contains(n) implies
        on_grid(f, n) && step_cost(c, n) == DIAGONAL_COST && adjacent(w, h, c, n)
        && n != c by {
        let a = if c.x + 1 < w && c.y + 1 < h {
            seq![Cell { x: (c.x + 1) as usize, y: (c.y + 1) as usize }]
        } else {
            seq![]
        };
        let b = if c.x + 1 < w && c.y > 0 {
            seq![Cell { x: (c.x + 1) as usize, y: (c.y - 1) as usize }]
        } else {
            seq![]
        };
        let e = if c.x > 0 && c.y + 1 < h {
            seq![Cell { x: (c.x - 1) as usize, y: (c.y + 1) as usize }]
        } else {
            seq![]
        };
        let g = if c.x > 0 && c.y > 0 {
            seq![Cell { x: (c.x - 1) as usize, y: (c.y - 1) as usize }]
        } else {
            seq![]
        };
        let s = diagonal_neighbours(w, h, c);
        assert(s == a + b + e + g);
        let k = choose|k: int| 0 <= k < s.len() && s[k] == n;
        if k < a.len() {
            assert(s[k] == a[k]);
        } else if k < a.len() + b.len() {
            assert(s[k] == b[k - a.len()]);
        } else if k < a.len() + b.len() + e.len() {
            assert(s[k] == e[k - a.len() - b.len()]);
        } else {
            assert(s[k] == g[k - a.len() - b.len() - e.len()]);
        }
    }
}

/// The walk stored for index `i` reaches a cell stored at `i` from `dest`
/// and costs exactly the current value at `i`.
pub open spec fn walk_ok(f: FlowFieldView, dest: Cell, i: int, p: Seq<Cell>) -> bool {
    &&& is_path(f.width, f.height, p)
    &&& p[0] == dest
    &&& index_of(f, p.last()) == i
    &&& path_cost(p) == f.values[i]
}

/// Every cell of `p` after its first is not blocked in `f`.
pub open spec fn avoids_blocked(f: FlowFieldView, p: Seq<Cell>) -> bool {
    forall|j: int| 1 <= j < p.len() ==> value_of(f, #[trigger] p[j]) != BLOCKED
}

/// The state kept while a destination is spread: `t` holds the indices
/// whose value was set, `walks` a path for each of them on square grids.
pub open spec fn spread_inv(
    f: FlowFieldView,
    start: FlowFieldView,
    dest: Cell,
    t: Set<int>,
    walks: Map<int, Seq<Cell>>,
) -> bool {
    let d = index_of(start, dest);
    let n = cell_count(start);
    &&& well_formed(start)
    &&& well_formed(f)
    &&& f.width == start.width
    &&& f.height == start.height
    &&& f.flow == start.flow
    &&& all_addressable(f)
    &&& on_grid(f, dest)
    &&& f.values[d] == 0
    &&& forall|i: int| 0 <= i < n && i != d ==> #[trigger] f.values[i] <= start.values[i]
    &&& forall|i: int| 0 <= i < n && i != d && start.values[i] == BLOCKED ==> #[trigger] f.values[i] == BLOCKED
    &&& t.contains(d)
    &&& forall|i: int| #[trigger] t.contains(i) ==> 0 <= i < n
    &&& forall|i: int| 0 <= i < n ==> (#[trigger] t.contains(i) <==> (i == d || f.values[i] < start.values[i]))
    &&& f.width == f.height ==> forall|i: int| #[trigger] t.contains(i) ==> walks.contains_key(i)
        && walk_ok(f, dest, i, walks[i]) && avoids_blocked(start, walks[i])
}

/// Every queued cell is on the grid and its value was set.
pub open spec fn queue_ok(f: FlowFieldView, open: Seq<Cell>, t: Set<int>) -> bool {
    forall|k: int| 0 <= k < open.len() ==> on_grid(f, #[trigger] open[k]) && t.contains(index_of(f, open[k]))
}

/// On a square grid, every reached cell other than `skip` is queued or
/// settled.
pub open spec fn fixpoint_except(f: FlowFieldView, open: Seq<Cell>, t: Set<int>, skip: Option<Cell>) -> bool {
    f.width == f.height ==> forall|c: Cell| on_grid(f, c) && #[trigger] t.contains(index_of(f, c))
        && skip != Some(c) ==> open.contains(c) || settled(f, c)
}

/// Lowering a neighbour `nb` of a reached cell `u` to `reach`, the value
/// of `u` plus the step, keeps the spreading state.
proof fn lemma_relax_inv(
    before: FlowFieldView,
    after: FlowFieldView,
    start: FlowFieldView,
    dest: Cell,
    t: Set<int>,
    walks: Map<int, Seq<Cell>>,
    u: Cell,
    nb: Cell,
    reach: u32,
) -> (r: (Set<int>, Map<int, Seq<Cell>>))
    requires
        spread_inv(before, start, dest, t, walks),
        on_grid(before, u),
        t.contains(index_of(before, u)),
        on_grid(before, nb),
        adjacent(before.width, before.height, u, nb),
        value_of(before, u) + step_cost(u, nb) == reach,
        value_of(before, nb) != BLOCKED,
        reach < value_of(before, nb),
        after == (FlowFieldView { values: before.values.update(index_of(before, nb), reach), ..before }),
    ensures
        spread_inv(after, start, dest, r.0, r.1),
        t.subset_of(r.0),
        r.0 == t.insert(index_of(before, nb)),
        seq_sum(after.values) < seq_sum(before.values),
{
    let d = index_of(start, dest);
    let nn = cell_count(start);
    let bi = index_of(before, nb);
    lemma_addressable(before, nb);
    lemma_addressable(before, u);
    lemma_seq_sum_update(before.values, bi, reach);
    let t2 = t.insert(bi);
    assert(bi != d);
    let mut w2 = walks;
    if before.width == before.height {
        let pu = walks[index_of(before, u)];
        let lu = pu.last();
        assert(pu[pu.len() - 1].x < before.width && pu[pu.len() - 1].y < before.height);
        lemma_square_injective(before, lu, u);
        let p = pu.push(nb);
        assert(p.drop_last() =~= pu);
        assert forall|i: int| 0 <= i < p.len() - 1 implies adjacent(before.width, before.height, #[trigger] p[i], p[i + 1]) by {
            if i < p.len() - 2 {
                assert(p[i] == pu[i] && p[i + 1] == pu[i + 1]);
            } else {
                assert(p[i] == u && p[i + 1] == nb);
            }
        }
        assert forall|i: int| 0 <= i < p.len() implies #[trigger] p[i].x < before.width && p[i].y < before.height by {
            if i < p.len() - 1 {
                assert(p[i] == pu[i]);
            }
        }
        assert(path_cost(p) == path_cost(pu) + step_cost(u, nb));
        assert(value_of(start, nb) != BLOCKED) by {
            assert(index_of(start, nb) == bi);
        }
        assert(avoids_blocked(start, p)) by {
            assert(avoids_blocked(start, pu));
            assert forall|j: int| 1 <= j < p.len() implies value_of(start, #[trigger] p[j]) != BLOCKED by {
                if j < p.len() - 1 {
                    assert(p[j] == pu[j]);
                }
            }
        }
        w2 = walks.insert(bi, p);
        assert forall|i: int| #[trigger] t2.contains(i) implies w2.contains_key(i)
            && walk_ok(after, dest, i, w2[i]) && avoids_blocked(start, w2[i]) by {
            if i != bi {
                assert(t.contains(i));
                assert(walk_ok(before, dest, i, walks[i]));
            }
        }
    }
    (t2, w2)
}

/// Lowering `nb` and making sure it is queued keeps every reached cell
/// other than `u` queued or settled.
proof fn lemma_relax_fixpoint(
    before: FlowFieldView,
    after: FlowFieldView,
    open_before: Seq<Cell>,
    open_after: Seq<Cell>,
    t: Set<int>,
    u: Cell,
    nb: Cell,
    reach: u32,
)
    requires
        well_formed(before),
        all_addressable(before),
        fixpoint_except(before, open_before, t, Some(u)),
        on_grid(before, nb),
        value_of(before, nb) != BLOCKED,
        reach < value_of(before, nb),
        after == (FlowFieldView { values: before.values.update(index_of(before, nb), reach), ..before }),
        forall|c: Cell| open_before.contains(c) ==> #[trigger] open_after.contains(c),
        open_after.contains(nb),
    ensures
        fixpoint_except(after, open_after, t.insert(index_of(before, nb)), Some(u)),
{
    let bi = index_of(before, nb);
    let t2 = t.insert(bi);
    lemma_addressable(before, nb);
    if before.width == before.height {
        assert forall|c: Cell| on_grid(after, c) && #[trigger] t2.contains(index_of(after, c))
            && Some(u) != Some(c) implies open_after.contains(c) || settled(after, c) by {
            if index_of(after, c) == bi {
                lemma_square_injective(after, c, nb);
            } else if !open_before.contains(c) {
                assert(t.contains(index_of(after, c)));
                assert(settled(before, c));
                lemma_neighbours_facts(after, c);
                lemma_addressable(after, c);
                assert forall|m: Cell| #[trigger] straight_neighbours(after.width, after.height, c).contains(m)
                    && value_of(after, m) != BLOCKED implies value_of(after, m) <= value_of(after, c) + STRAIGHT_COST by {
                    lemma_addressable(after, m);
                }
                assert forall|m: Cell| #[trigger] diagonal_neighbours(after.width, after.height, c).contains(m)
                    && value_of(after, m) != BLOCKED implies value_of(after, m) <= value_of(after, c) + DIAGONAL_COST by {
                    lemma_addressable(after, m);
                }
            }
        }
    }
}

fn queue_contains(open: &VecDeque<Cell>, c: &Cell) -> (b: bool)
    ensures
        b == open@.contains(*c),
{
    let mut k: usize = 0;
    while k < open.len()
        invariant
            k <= open@.len(),
            forall|j: int| 0 <= j < k ==> open@[j] != *c,
        decreases open@.len() - k,
    {
        if open[k] == *c {
            return true;
        }
        k = k + 1;
    }
    false
}

impl FlowField {
    /// Lowers each neighbour in `ns` of the popped cell `u` to the value of
    /// `u` plus `cost` where that is an improvement and the neighbour is
    /// not blocked, queueing the cells it lowers.
    fn relax_neighbours(
        &mut self,
        open: &mut VecDeque<Cell>,
        u: &Cell,
        ns: &Vec<Cell>,
        cost: u32,
        Ghost(start): Ghost<FlowFieldView>,
        Ghost(dest): Ghost<Cell>,
        Ghost(t0): Ghost<Set<int>>,
        Ghost(w0): Ghost<Map<int, Seq<Cell>>>,
    ) -> (r: Ghost<(Set<int>, Map<int, Seq<Cell>>)>)
        requires
            spread_inv(old(self)@, start, dest, t0, w0),
            queue_ok(old(self)@, old(open)@, t0),
            on_grid(old(self)@, *u),
            t0.contains(index_of(old(self)@, *u)),
            (cost == STRAIGHT_COST && ns@ == straight_neighbours(old(self)@.width, old(self)@.height, *u))
                || (cost == DIAGONAL_COST && ns@ == diagonal_neighbours(old(self)@.width, old(self)@.height, *u)),
            fixpoint_except(old(self)@, old(open)@, t0, Some(*u)),
        ensures
            spread_inv(final(self)@, start, dest, r@.0, r@.1),
            queue_ok(final(self)@, final(open)@, r@.0),
            fixpoint_except(final(self)@, final(open)@, r@.0, Some(*u)),
            t0.subset_of(r@.0),
            value_of(final(self)@, *u) == value_of(old(self)@, *u),
            forall|i: int| 0 <= i < cell_count(old(self)@) ==> #[trigger] final(self)@.values[i] <= old(self)@.values[i],
            forall|i: int| 0 <= i < cell_count(old(self)@) && old(self)@.values[i] == BLOCKED
                ==> #[trigger] final(self)@.values[i] == BLOCKED,
            forall|c: Cell| old(open)@.contains(c) ==> #[trigger] final(open)@.contains(c),
            (final(self)@.values == old(self)@.values && final(open)@ == old(open)@)
                || seq_sum(final(self)@.values) < seq_sum(old(self)@.values),
            old(self)@.width == old(self)@.height ==> forall|n: Cell| #[trigger] ns@.contains(n)
                && value_of(final(self)@, n) != BLOCKED ==> value_of(final(self)@, n) <= value_of(final(self)@, *u) + cost,
    {
        let ghost f0 = self@;
        let ghost open0 = open@;
        let ghost d = index_of(start, dest);
        let ghost nn = cell_count(start);
        let ghost mut t = t0;
        let ghost mut walks = w0;
        proof {
            lemma_neighbours_facts(self@, *u);
            lemma_addressable(self@, *u);
        }
        let value = self.get(u);
        let reach = match value.checked_add(cost) {
            Some(reach) => reach,
            None => {
                // No value exceeds `u32::MAX`, so no neighbour can be lowered.
                return Ghost((t0, w0));
            },
        };
        let mut k: usize = 0;
        while k < ns.len()
            invariant
                k <= ns@.len(),
                spread_inv(self@, start, dest, t, walks),
                queue_ok(self@, open@, t),
                fixpoint_except(self@, open@, t, Some(*u)),
                t0.subset_of(t),
                on_grid(f0, *u),
                d == index_of(start, dest),
                nn == cell_count(start),
                self@.width == f0.width,
                self@.height == f0.height,
                value == value_of(f0, *u),
                reach == value + cost,
                value_of(self@, *u) == value,
                t.contains(index_of(f0, *u)),
                (cost == STRAIGHT_COST && ns@ == straight_neighbours(f0.width, f0.height, *u))
                    || (cost == DIAGONAL_COST && ns@ == diagonal_neighbours(f0.width, f0.height, *u)),
                forall|n: Cell| #[trigger] ns@.contains(n) ==> on_grid(f0, n) && step_cost(*u, n) == cost
                    && adjacent(f0.width, f0.height, *u, n) && n != *u,
                forall|i: int| 0 <= i < nn ==> #[trigger] self@.values[i] <= f0.values[i],
                forall|i: int| 0 <= i < nn && f0.values[i] == BLOCKED ==> #[trigger] self@.values[i] == BLOCKED,
                forall|c: Cell| open0.contains(c) ==> #[trigger] open@.contains(c),
                (self@.values == f0.values && open@ == open0) || seq_sum(self@.values) < seq_sum(f0.values),
                f0.width == f0.height ==> forall|j: int| 0 <= j < k && value_of(self@, #[trigger] ns@[j]) != BLOCKED
                    ==> value_of(self@, ns@[j]) <= reach,
            decreases ns@.len() - k,
        {
            let nb = ns[k];
            let ghost iter_start = self@;
            proof {
                assert(ns@.contains(nb));
                lemma_addressable(self@, nb);
            }
            let n_value = self.get(&nb);
            if n_value != BLOCKED && n_value > reach {
                let ghost before = self@;
                let ghost old_t = t;
                let ghost q = open@;
                self.set(&nb, reach);
                proof {
                    let (t2, w2) = lemma_relax_inv(before, self@, start, dest, t, walks, *u, nb, reach);
                    t = t2;
                    walks = w2;
                }
                if !queue_contains(open, &nb) {
                    open.push_back(nb);
                    proof {
                        assert forall|c: Cell| q.contains(c) implies #[trigger] open@.contains(c) by {
                            let j = choose|j: int| 0 <= j < q.len() && q[j] == c;
                            assert(open@[j] == c);
                        }
                        assert(open@[open@.len() - 1] == nb);
                    }
                }
                proof {
                    lemma_relax_fixpoint(before, self@, q, open@, old_t, *u, nb, reach);
                }
            }
            proof {
                if f0.width == f0.height {
                    assert forall|j: int| 0 <= j < k + 1 && value_of(self@, #[trigger] ns@[j]) != BLOCKED
                        implies value_of(self@, ns@[j]) <= reach by {
                        assert(ns@.contains(ns@[j]));
                        lemma_addressable(f0, ns@[j]);
                        if j < k {
                            assert(value_of(self@, ns@[j]) <= value_of(iter_start, ns@[j]));
                        }
                    }
                }
            }
            k = k + 1;
        }
        Ghost((t, walks))
    }
}


impl FlowField {
    /// Spreads path costs from `cell`: the destination gets 0 and every
    /// cell that is not blocked and can be improved gets the cost of the
    /// cheapest way found to it (100 per straight step, 141 per diagonal
    /// step), working through a queue of changed cells. A cost beyond
    /// `u32::MAX` improves nothing.
    pub fn set_destination_cell(&mut self, cell: Cell)
        requires
            well_formed(old(self)@),
            all_addressable(old(self)@),
            on_grid(old(self)@, cell),
        ensures
            destination_spread(old(self)@, cell, final(self)@),
    {
        let ghost start = self@;
        let ghost d = index_of(start, cell);
        let ghost nn = cell_count(start);
        proof {
            lemma_addressable(start, cell);
        }
        let mut open: VecDeque<Cell> = VecDeque::new();
        self.set(&cell, 0);
        open.push_back(cell);
        let ghost mut t: Set<int> = Set::empty().insert(d);
        let ghost mut walks: Map<int, Seq<Cell>> = Map::empty().insert(d, seq![cell]);
        proof {
            assert(t.len() == 1) by {
                assert(Set::<int>::empty().len() == 0);
            }
            assert(path_cost(seq![cell]) == 0);
            assert forall|i: int| 0 <= i < nn implies (#[trigger] t.contains(i) <==> (i == d
                || self@.values[i] < start.values[i])) by {
                if i != d {
                    assert(self@.values[i] == start.values[i]);
                }
            }
            assert(open@[0] == cell);
            if start.width == start.height {
                assert forall|c: Cell| on_grid(self@, c) && #[trigger] t.contains(index_of(self@, c))
                    implies open@.contains(c) || settled(self@, c) by {
                    lemma_square_injective(self@, c, cell);
                }
            }
            lemma_seq_sum_nonneg(self@.values);
        }
        while open.len() > 0
            invariant
                spread_inv(self@, start, cell, t, walks),
                queue_ok(self@, open@, t),
                fixpoint_except(self@, open@, t, None),
                d == index_of(start, cell),
                nn == cell_count(start),
            decreases seq_sum(self@.values), open@.len(),
        {
            let ghost f0 = self@;
            let ghost open0 = open@;
            let u = open.pop_front().unwrap();
            proof {
                assert(open0[0] == u);
                assert(on_grid(self@, u) && t.contains(index_of(self@, u)));
                assert forall|k: int| 0 <= k < open@.len() implies on_grid(self@, #[trigger] open@[k])
                    && t.contains(index_of(self@, open@[k])) by {
                    assert(open@[k] == open0[k + 1]);
                }
                assert forall|c: Cell| #[trigger] open0.contains(c) && c != u implies open@.contains(c) by {
                    let j = choose|j: int| 0 <= j < open0.len() && open0[j] == c;
                    assert(j != 0);
                    assert(open@[j - 1] == c);
                }
                lemma_addressable(self@, u);
            }
            let ns = self.get_neighbours(&u);
            let ghost f1 = self@;
            let ghost open1 = open@;
            let r1 = self.relax_neighbours(&mut open, &u, &ns, STRAIGHT_COST, Ghost(start), Ghost(cell), Ghost(t), Ghost(walks));
            proof {
                t = r1@.0;
                walks = r1@.1;
            }
            let ds = self.get_neighbours_cross(&u);
            let ghost f2 = self@;
            let ghost open2 = open@;
            let r2 = self.relax_neighbours(&mut open, &u, &ds, DIAGONAL_COST, Ghost(start), Ghost(cell), Ghost(t), Ghost(walks));
            proof {
                t = r2@.0;
                walks = r2@.1;
                lemma_seq_sum_nonneg(self@.values);
                if start.width == start.height {
                    lemma_neighbours_facts(self@, u);
                    assert(settled(self@, u)) by {
                        assert forall|m: Cell| #[trigger] straight_neighbours(self@.width, self@.height, u).contains(m)
                            && value_of(self@, m) != BLOCKED implies value_of(self@, m) <= value_of(self@, u) + STRAIGHT_COST by {
                            lemma_addressable(self@, m);
                            assert(ns@.contains(m));
                            assert(value_of(self@, m) <= value_of(f2, m));
                        }
                    }
                    assert forall|c: Cell| on_grid(self@, c) && #[trigger] t.contains(index_of(self@, c))
                        && None::<Cell> != Some(c) implies open@.contains(c) || settled(self@, c) by {
                        if c != u {
                            assert(open@.contains(c) || settled(self@, c));
                        }
                    }
                }
            }
        }
        proof {
            lemma_spread_done(start, self@, cell, t, walks);
        }
    }
}

/// With the queue empty the spreading state gives everything that
/// `destination_spread` states.
proof fn lemma_spread_done(start: FlowFieldView, f: FlowFieldView, dest: Cell, t: Set<int>, walks: Map<int, Seq<Cell>>)
    requires
        spread_inv(f, start, dest, t, walks),
        fixpoint_except(f, Seq::<Cell>::empty(), t, None),
    ensures
        destination_spread(start, dest, f),
{
    let d = index_of(start, dest);
    if start.width == start.height {
        assert forall|i: int| 0 <= i < cell_count(start)
            && (i == d || #[trigger] f.values[i] < start.values[i]) implies exists|p: Seq<Cell>|
                is_path(start.width, start.height, p) && p[0] == dest && index_of(start, p.last()) == i
                && avoids_blocked(start, p) && #[trigger] path_cost(p) == f.values[i] by {
            assert(t.contains(i));
            assert(walk_ok(f, dest, i, walks[i]));
            let p = walks[i];
            assert(path_cost(p) == f.values[i]);
        }
        assert forall|c: Cell| on_grid(start, c)
            && (index_of(start, c) == d || #[trigger] value_of(f, c) < value_of(start, c))
            implies settled(f, c) by {
            lemma_addressable(start, c);
            assert(t.contains(index_of(f, c)));
            assert(!Seq::<Cell>::empty().contains(c));
        }
    }
}


/// The direction from `c` to its neighbour `n`.
pub open spec fn direction_to(c: Cell, n: Cell) -> IVec2 {
    IVec2 { x: (n.x - c.x) as i32, y: (n.y - c.y) as i32 }
}

/// Scanning `ns` in order from the unreached value, the lowest value seen
/// and the direction to the first neighbour that has it; a neighbour is
/// taken only when its value is strictly below every value seen before.
pub open spec fn scan_min(f: FlowFieldView, c: Cell, ns: Seq<Cell>) -> (u32, Option<IVec2>)
    decreases ns.len(),
{
    if ns.len() == 0 {
        (UNREACHED, None)
    } else {
        let prev = scan_min(f, c, ns.drop_last());
        let n = ns.last();
        if value_of(f, n) < prev.0 {
            (value_of(f, n), Some(direction_to(c, n)))
        } else {
            prev
        }
    }
}

/// The direction to follow from `c`: none for a blocked cell, otherwise
/// the direction to the cheapest neighbour below the unreached value,
/// straight neighbours first and then diagonal ones, the first of equal
/// values winning.
pub open spec fn flow_choice(f: FlowFieldView, c: Cell) -> Option<IVec2> {
    if value_of(f, c) == BLOCKED {
        None
    } else {
        scan_min(f, c, straight_neighbours(f.width, f.height, c) + diagonal_neighbours(f.width, f.height, c)).1
    }
}

/// `c` is the last cell, in row-by-row order, of those stored at its index.
pub open spec fn last_at_index(f: FlowFieldView, c: Cell) -> bool {
    forall|c2: Cell| on_grid(f, c2) && #[trigger] index_of(f, c2) == index_of(f, c) ==> c2.y <= c.y
}

/// What `calculate_flow` does to a field: the directions are recomputed
/// from the values, each index holding the direction of the last cell
/// stored there; indices of no cell keep their direction.
pub open spec fn flow_calculated(before: FlowFieldView, after: FlowFieldView) -> bool {
    &&& well_formed(after)
    &&& after.values == before.values
    &&& after.width == before.width
    &&& after.height == before.height
    &&& forall|c: Cell| on_grid(before, c) && last_at_index(before, c)
        ==> #[trigger] after.flow[index_of(before, c)] == flow_choice(before, c)
    &&& forall|i: int| 0 <= i < cell_count(before)
        && (forall|c: Cell| on_grid(before, c) ==> #[trigger] index_of(before, c) != i)
        ==> #[trigger] after.flow[i] == before.flow[i]
}

spec fn processed(c: Cell, y: int, x: int) -> bool {
    c.y < y || (c.y == y && c.x < x)
}

spec fn flow_progress(start: FlowFieldView, f: FlowFieldView, y: int, x: int) -> bool {
    &&& forall|c: Cell| on_grid(start, c) && processed(c, y, x)
        && (forall|c2: Cell| on_grid(start, c2) && processed(c2, y, x) && #[trigger] index_of(start, c2) == index_of(start, c)
            ==> c2.y <= c.y)
        ==> #[trigger] f.flow[index_of(start, c)] == flow_choice(start, c)
    &&& forall|i: int| 0 <= i < cell_count(start)
        && (forall|c: Cell| on_grid(start, c) && processed(c, y, x) ==> #[trigger] index_of(start, c) != i)
        ==> #[trigger] f.flow[i] == start.flow[i]
}

proof fn lemma_scan_concat(f: FlowFieldView, c: Cell, a: Seq<Cell>, b: Seq<Cell>, k: int)
    requires
        0 <= k < b.len(),
    ensures
        (a + b.take(k + 1)).drop_last() =~= a + b.take(k),
        (a + b.take(k + 1)).last() == b[k],
{
}

impl FlowField {
    /// Points every cell at its cheapest neighbour (see `flow_choice`),
    /// row by row.
    pub fn calculate_flow(&mut self)
        requires
            well_formed(old(self)@),
            all_addressable(old(self)@),
            old(self)@.width <= i32::MAX,
        ensures
            flow_calculated(old(self)@, final(self)@),
    {
        let ghost start = self@;
        let mut y: usize = 0;
        while y < self.height
            invariant
                well_formed(self@),
                self@.values == start.values,
                self@.width == start.width,
                self@.height == start.height,
                all_addressable(start),
                start.width <= i32::MAX,
                y <= start.height,
                flow_progress(start, self@, y as int, 0),
            decreases start.height - y,
        {
            let mut x: usize = 0;
            while x < self.width
                invariant
                    well_formed(self@),
                    self@.values == start.values,
                    self@.width == start.width,
                    self@.height == start.height,
                    all_addressable(start),
                    start.width <= i32::MAX,
                    y < start.height,
                    x <= start.width,
                    flow_progress(start, self@, y as int, x as int),
                decreases start.width - x,
            {
                let current = Cell::new(x, y);
                proof {
                    lemma_addressable(start, current);
                    lemma_neighbours_facts(start, current);
                }
                let direction = self.flow_direction(&current);
                let ghost before = self@;
                self.set_flow_cell(&current, direction);
                proof {
                    lemma_flow_choice_frame(before, start, current);
                    lemma_flow_step(start, before, self@, current, direction);
                }
                x = x + 1;
            }
            proof {
                assert forall|c: Cell| on_grid(start, c) implies (processed(c, y as int, start.width as int)
                    <==> processed(c, y + 1, 0)) by {}
                lemma_flow_progress_same(start, self@, y as int, start.width as int, y + 1, 0);
            }
            y = y + 1;
        }
        proof {
            assert forall|c: Cell| on_grid(start, c) implies processed(c, start.height as int, 0) by {}
            assert forall|c: Cell| on_grid(start, c) && last_at_index(start, c)
                implies #[trigger] self@.flow[index_of(start, c)] == flow_choice(start, c) by {
                assert forall|c2: Cell| on_grid(start, c2) && processed(c2, start.height as int, 0)
                    && #[trigger] index_of(start, c2) == index_of(start, c) implies c2.y <= c.y by {}
            }
        }
    }
}

proof fn lemma_scan_min_frame(f1: FlowFieldView, f2: FlowFieldView, c: Cell, ns: Seq<Cell>)
    requires
        f1.values == f2.values,
        f1.height == f2.height,
    ensures
        scan_min(f1, c, ns) == scan_min(f2, c, ns),
    decreases ns.len(),
{
    if ns.len() > 0 {
        lemma_scan_min_frame(f1, f2, c, ns.drop_last());
    }
}

proof fn lemma_flow_choice_frame(f1: FlowFieldView, f2: FlowFieldView, c: Cell)
    requires
        f1.values == f2.values,
        f1.width == f2.width,
        f1.height == f2.height,
    ensures
        flow_choice(f1, c) == flow_choice(f2, c),
{
    lemma_scan_min_frame(f1, f2, c, straight_neighbours(f1.width, f1.height, c) + diagonal_neighbours(f1.width, f1.height, c));
}

proof fn lemma_flow_progress_same(start: FlowFieldView, f: FlowFieldView, y1: int, x1: int, y2: int, x2: int)
    requires
        flow_progress(start, f, y1, x1),
        forall|c: Cell| on_grid(start, c) ==> (processed(c, y1, x1) <==> processed(c, y2, x2)),
    ensures
        flow_progress(start, f, y2, x2),
{
    assert forall|c: Cell| on_grid(start, c) && processed(c, y2, x2)
        && (forall|c2: Cell| on_grid(start, c2) && processed(c2, y2, x2) && #[trigger] index_of(start, c2) == index_of(start, c)
            ==> c2.y <= c.y)
        implies #[trigger] f.flow[index_of(start, c)] == flow_choice(start, c) by {
        assert forall|c2: Cell| on_grid(start, c2) && processed(c2, y1, x1) && #[trigger] index_of(start, c2) == index_of(start, c)
            implies c2.y <= c.y by {}
    }
    assert forall|i: int| 0 <= i < cell_count(start)
        && (forall|c: Cell| on_grid(start, c) && processed(c, y2, x2) ==> #[trigger] index_of(start, c) != i)
        implies #[trigger] f.flow[i] == start.flow[i] by {
        assert forall|c: Cell| on_grid(start, c) && processed(c, y1, x1) implies #[trigger] index_of(start, c) != i by {}
    }
}

proof fn lemma_flow_step(start: FlowFieldView, before: FlowFieldView, after: FlowFieldView, cur: Cell, dir: Option<IVec2>)
    requires
        well_formed(before),
        before.width == start.width,
        before.height == start.height,
        all_addressable(start),
        on_grid(start, cur),
        dir == flow_choice(start, cur),
        flow_progress(start, before, cur.y as int, cur.x as int),
        after == (FlowFieldView { flow: before.flow.update(index_of(start, cur), dir), ..before }),
    ensures
        flow_progress(start, after, cur.y as int, cur.x + 1),
{
    let y = cur.y as int;
    let x = cur.x as int;
    lemma_addressable(start, cur);
    let ci = index_of(start, cur);
    assert forall|c: Cell| on_grid(start, c) && processed(c, y, x + 1)
        && (forall|c2: Cell| on_grid(start, c2) && processed(c2, y, x + 1) && #[trigger] index_of(start, c2) == index_of(start, c)
            ==> c2.y <= c.y)
        implies #[trigger] after.flow[index_of(start, c)] == flow_choice(start, c) by {
        lemma_addressable(start, c);
        if c == cur {
        } else if index_of(start, c) == ci {
            assert(processed(cur, y, x + 1));
            assert(cur.y <= c.y);
            assert(c.y == cur.y ==> c.x == cur.x);
        } else {
            assert forall|c2: Cell| on_grid(start, c2) && processed(c2, y, x) && #[trigger] index_of(start, c2) == index_of(start, c)
                implies c2.y <= c.y by {}
        }
    }
    assert forall|i: int| 0 <= i < cell_count(start)
        && (forall|c: Cell| on_grid(start, c) && processed(c, y, x + 1) ==> #[trigger] index_of(start, c) != i)
        implies #[trigger] after.flow[i] == start.flow[i] by {
        assert(processed(cur, y, x + 1));
        assert(index_of(start, cur) != i);
        assert forall|c: Cell| on_grid(start, c) && processed(c, y, x) implies #[trigger] index_of(start, c) != i by {}
    }
}


impl FlowField {
    /// The direction `calculate_flow` stores for `current`.
    fn flow_direction(&self, current: &Cell) -> (direction: Option<IVec2>)
        requires
            well_formed(self@),
            all_addressable(self@),
            self@.width <= i32::MAX,
            on_grid(self@, *current),
        ensures
            direction == flow_choice(self@, *current),
    {
        let ghost start = self@;
        proof {
            lemma_addressable(start, *current);
            lemma_neighbours_facts(start, *current);
        }
        let current = *current;
                let mut value: u32 = UNREACHED;
                let mut direction: Option<IVec2> = None;
                let ns = self.get_neighbours(&current);
                let ds = self.get_neighbours_cross(&current);
                let ghost all = ns@ + ds@;
                if self.get(&current) != BLOCKED {
                    let mut k: usize = 0;
                    while k < ns.len()
                        invariant
                            k <= ns@.len(),
                            self@ == start,
                            well_formed(self@),
                            all_addressable(start),
                            start.width <= i32::MAX,
                            on_grid(start, current),
                            ns@ == straight_neighbours(start.width, start.height, current),
                            forall|n: Cell| #[trigger] straight_neighbours(start.width, start.height, current).contains(n) ==>
                                on_grid(start, n) && adjacent(start.width, start.height, current, n),
                            (value, direction) == scan_min(start, current, ns@.take(k as int)),
                        decreases ns@.len() - k,
                    {
                        let neighbour = ns[k];
                        proof {
                            assert(ns@.contains(neighbour));
                            lemma_addressable(start, neighbour);
                            assert(ns@.take(k + 1).drop_last() =~= ns@.take(k as int));
                        }
                        let n_value = self.get(&neighbour);
                        if n_value < value {
                            value = n_value;
                            direction = Some(IVec2::new(
                                neighbour.x as i32 - current.x as i32,
                                neighbour.y as i32 - current.y as i32,
                            ));
                        }
                        k = k + 1;
                    }
                    proof {
                        assert(ns@.take(ns@.len() as int) =~= ns@);
                        assert(ns@ + ds@.take(0) =~= ns@);
                    }
                    let mut k: usize = 0;
                    while k < ds.len()
                        invariant
                            k <= ds@.len(),
                            self@ == start,
                                                                                                                well_formed(self@),
                            all_addressable(start),
                            start.width <= i32::MAX,
                            on_grid(start, current),
                            ds@ == diagonal_neighbours(start.width, start.height, current),
                            forall|n: Cell| #[trigger] diagonal_neighbours(start.width, start.height, current).contains(n) ==>
                                on_grid(start, n) && adjacent(start.width, start.height, current, n),
                            (value, direction) == scan_min(start, current, ns@ + ds@.take(k as int)),
                        decreases ds@.len() - k,
                    {
                        let neighbour = ds[k];
                        proof {
                            assert(ds@.contains(neighbour));
                            lemma_addressable(start, neighbour);
                            lemma_scan_concat(start, current, ns@, ds@, k as int);
                        }
                        let n_value = self.get(&neighbour);
                        if n_value < value {
                            value = n_value;
                            direction = Some(IVec2::new(
                                neighbour.x as i32 - current.x as i32,
                                neighbour.y as i32 - current.y as i32,
                            ));
                        }
                        k = k + 1;
                    }
                    proof {
                        assert(ds@.take(ds@.len() as int) =~= ds@);
                    }
                }
        direction
    }
}


proof fn lemma_scan_min_props(f: FlowFieldView, c: Cell, ns: Seq<Cell>)
    ensures
        scan_min(f, c, ns).0 <= UNREACHED,
        forall|i: int| 0 <= i < ns.len() ==> scan_min(f, c, ns).0 <= value_of(f, #[trigger] ns[i]),
        scan_min(f, c, ns).1 is None <==> scan_min(f, c, ns).0 == UNREACHED,
        scan_min(f, c, ns).1 is Some ==> exists|i: int| 0 <= i < ns.len()
            && value_of(f, #[trigger] ns[i]) == scan_min(f, c, ns).0
            && Some(direction_to(c, ns[i])) == scan_min(f, c, ns).1,
    decreases ns.len(),
{
    if ns.len() > 0 {
        let prev = ns.drop_last();
        lemma_scan_min_props(f, c, prev);
        assert forall|i: int| 0 <= i < ns.len() implies scan_min(f, c, ns).0 <= value_of(f, #[trigger] ns[i]) by {
            if i < ns.len() - 1 {
                assert(ns[i] == prev[i]);
            }
        }
        if scan_min(f, c, ns).1 is Some {
            if value_of(f, ns.last()) < scan_min(f, c, prev).0 {
                assert(ns[ns.len() - 1] == ns.last());
            } else {
                let i = choose|i: int| 0 <= i < prev.len()
                    && value_of(f, #[trigger] prev[i]) == scan_min(f, c, prev).0
                    && Some(direction_to(c, prev[i])) == scan_min(f, c, prev).1;
                assert(ns[i] == prev[i]);
            }
        }
    }
}

/// Law of the flow: the direction chosen for a cell that is not blocked
/// leads to a neighbour that has been reached and whose value is the
/// lowest among all neighbours; no direction is chosen exactly when the
/// cell is blocked or no neighbour has been reached.
pub proof fn lemma_flow_points_downhill(f: FlowFieldView, c: Cell)
    ensures
        flow_choice(f, c) is None <==> (value_of(f, c) == BLOCKED || forall|n: Cell|
            #[trigger] adjacent(f.width, f.height, c, n) ==> value_of(f, n) >= UNREACHED),
        flow_choice(f, c) is Some ==> exists|n: Cell| #[trigger] adjacent(f.width, f.height, c, n)
            && Some(direction_to(c, n)) == flow_choice(f, c)
            && value_of(f, n) < UNREACHED
            && forall|m: Cell| #[trigger] adjacent(f.width, f.height, c, m) ==> value_of(f, n) <= value_of(f, m),
{
    let a = straight_neighbours(f.width, f.height, c);
    let b = diagonal_neighbours(f.width, f.height, c);
    let all = a + b;
    lemma_scan_min_props(f, c, all);
    assert forall|n: Cell| #[trigger] adjacent(f.width, f.height, c, n) implies all.contains(n) by {
        if a.contains(n) {
            let i = choose|i: int| 0 <= i < a.len() && a[i] == n;
            assert(all[i] == n);
        } else {
            let i = choose|i: int| 0 <= i < b.len() && b[i] == n;
            assert(all[a.len() + i] == n);
        }
    }
    assert forall|i: int| 0 <= i < all.len() implies adjacent(f.width, f.height, c, #[trigger] all[i]) by {
        if i < a.len() {
            assert(all[i] == a[i]);
            assert(a.contains(a[i]));
        } else {
            assert(all[i] == b[i - a.len()]);
            assert(b.contains(b[i - a.len()]));
        }
    }
    let m = scan_min(f, c, all).0;
    if value_of(f, c) != BLOCKED {
        if flow_choice(f, c) is None {
            assert forall|n: Cell| #[trigger] adjacent(f.width, f.height, c, n) implies value_of(f, n) >= UNREACHED by {
                let i = choose|i: int| 0 <= i < all.len() && all[i] == n;
                assert(m <= value_of(f, all[i]));
            }
        } else {
            let i = choose|i: int| 0 <= i < all.len()
                && value_of(f, #[trigger] all[i]) == m
                && Some(direction_to(c, all[i])) == scan_min(f, c, all).1;
            let n = all[i];
            assert(adjacent(f.width, f.height, c, n));
            assert forall|q: Cell| #[trigger] adjacent(f.width, f.height, c, q) implies value_of(f, n) <= value_of(f, q) by {
                let j = choose|j: int| 0 <= j < all.len() && all[j] == q;
                assert(m <= value_of(f, all[j]));
            }
            if forall|q: Cell| #[trigger] adjacent(f.width, f.height, c, q) ==> value_of(f, q) >= UNREACHED {
                assert(value_of(f, n) >= UNREACHED);
            }
        }
    }
}

/// The field holds no value that a destination has set: every cell is
/// either blocked or unreached.
pub open spec fn untouched(f: FlowFieldView) -> bool {
    forall|i: int| 0 <= i < cell_count(f) ==> #[trigger] f.values[i] == UNREACHED || f.values[i] == BLOCKED
}

/// Law of spreading: on a square field that no destination has reached
/// yet, after a destination is spread the value of each cell is at most
/// the cost of any path to it from the destination through cells that are
/// not blocked (and, by `destination_spread`, every value below the
/// unreached value is the cost of such a path): the values are the
/// shortest path costs.
pub proof fn lemma_spread_is_shortest(before: FlowFieldView, dest: Cell, after: FlowFieldView, p: Seq<Cell>)
    requires
        well_formed(before),
        before.width == before.height,
        on_grid(before, dest),
        untouched(before),
        destination_spread(before, dest, after),
        is_path(before.width, before.height, p),
        p[0] == dest,
        forall|j: int| 1 <= j < p.len() ==> value_of(before, #[trigger] p[j]) != BLOCKED,
        path_cost(p) < UNREACHED,
    ensures
        value_of(after, p.last()) <= path_cost(p),
    decreases p.len(),
{
    let d = index_of(before, dest);
    lemma_addressable(before, dest);
    if p.len() == 1 {
        assert(p.last() == dest);
    } else {
        let q = p.drop_last();
        assert forall|i: int| 0 <= i < q.len() implies #[trigger] q[i].x < before.width && q[i].y < before.height by {
            assert(q[i] == p[i]);
        }
        assert forall|i: int| 0 <= i < q.len() - 1 implies adjacent(before.width, before.height, #[trigger] q[i], q[i + 1]) by {
            assert(q[i] == p[i] && q[i + 1] == p[i + 1]);
        }
        assert forall|j: int| 1 <= j < q.len() implies value_of(before, #[trigger] q[j]) != BLOCKED by {
            assert(q[j] == p[j]);
        }
        let u = q.last();
        let v = p.last();
        assert(u == p[p.len() - 2]);
        assert(v == p[p.len() - 1]);
        assert(adjacent(before.width, before.height, p[p.len() - 2], p[p.len() - 1]));
        assert(path_cost(p) == path_cost(q) + step_cost(u, v));
        lemma_path_cost_nonneg(q);
        lemma_spread_is_shortest(before, dest, after, q);
        lemma_addressable(before, u);
        lemma_addressable(before, v);
        lemma_neighbours_facts(before, u);
        // `u` was reached: its value is below the unreached value it started from
        if index_of(before, u) != d {
            assert(before.values[index_of(before, u)] == UNREACHED || before.values[index_of(before, u)] == BLOCKED);
            if p.len() - 2 >= 1 {
                assert(value_of(before, p[p.len() - 2]) != BLOCKED);
            } else {
                assert(u == dest);
            }
        }
        assert(settled(after, u));
        let vi = index_of(before, v);
        if vi != d {
            assert(value_of(before, p[p.len() - 1]) != BLOCKED);
            assert(before.values[vi] == UNREACHED);
            assert(after.values[vi] <= before.values[vi]);
            assert(value_of(after, v) != BLOCKED);
        }
    }
}

proof fn lemma_path_cost_nonneg(p: Seq<Cell>)
    ensures
        path_cost(p) >= 0,
    decreases p.len(),
{
    if p.len() > 1 {
        lemma_path_cost_nonneg(p.drop_last());
    }
}


/// A direction between neighbouring cells or none.
pub open spec fn unit_direction(d: IVec2) -> bool {
    -1 <= d.x <= 1 && -1 <= d.y <= 1
}

/// The arrow drawn for a direction.
pub open spec fn arrow(d: IVec2) -> Seq<char> {
    if d.x == -1 && d.y == -1 {
        seq!['⬋']
    } else if d.x == -1 && d.y == 0 {
        seq!['←']
    } else if d.x == -1 && d.y == 1 {
        seq!['⬉']
    } else if d.x == 0 && d.y == -1 {
        seq!['↓']
    } else if d.x == 0 && d.y == 0 {
        seq![' ']
    } else if d.x == 0 && d.y == 1 {
        seq!['↑']
    } else if d.x == 1 && d.y == -1 {
        seq!['⬊']
    } else if d.x == 1 && d.y == 0 {
        seq!['→']
    } else {
        seq!['⬈']
    }
}

/// The text drawn for the direction of one cell: a space, then its arrow
/// or `x` when it has none.
pub open spec fn flow_symbol(d: Option<IVec2>) -> Seq<char> {
    match d {
        Some(v) => seq![' '] + arrow(v),
        None => seq![' ', 'x'],
    }
}

/// The first `x` cells of row `y`, drawn as directions.
pub open spec fn flow_row(f: FlowFieldView, y: int, x: int) -> Seq<char>
    decreases x,
{
    if x <= 0 {
        seq![]
    } else {
        flow_row(f, y, x - 1) + flow_symbol(f.flow[index_of(f, Cell { x: (x - 1) as usize, y: y as usize })])
    }
}

/// The decimal digits of a number.
pub open spec fn decimal(v: nat) -> Seq<char>
    decreases v,
{
    if v < 10 {
        seq![(v + 48) as char]
    } else {
        decimal(v / 10).push(((v % 10) + 48) as char)
    }
}

/// A number in decimal, right-aligned with spaces to ten characters.
pub open spec fn padded_decimal(v: nat) -> Seq<char> {
    Seq::new((10 - decimal(v).len()) as nat, |i: int| ' ') + decimal(v)
}

/// The first `x` cells of row `y`, drawn as values.
pub open spec fn value_row(f: FlowFieldView, y: int, x: int) -> Seq<char>
    decreases x,
{
    if x <= 0 {
        seq![]
    } else {
        value_row(f, y, x - 1) + padded_decimal(value_of(f, Cell { x: (x - 1) as usize, y: y as usize }) as nat) + seq![' ']
    }
}

/// The text of one decimal digit.
fn digit_text(d: u32) -> (s: &'static str)
    requires
        d < 10,
    ensures
        s@ == seq![(d + 48) as char],
{
    if d == 0 {
        proof { reveal_strlit("0"); }
        "0"
    } else if d == 1 {
        proof { reveal_strlit("1"); }
        "1"
    } else if d == 2 {
        proof { reveal_strlit("2"); }
        "2"
    } else if d == 3 {
        proof { reveal_strlit("3"); }
        "3"
    } else if d == 4 {
        proof { reveal_strlit("4"); }
        "4"
    } else if d == 5 {
        proof { reveal_strlit("5"); }
        "5"
    } else if d == 6 {
        proof { reveal_strlit("6"); }
        "6"
    } else if d == 7 {
        proof { reveal_strlit("7"); }
        "7"
    } else if d == 8 {
        proof { reveal_strlit("8"); }
        "8"
    } else {
        proof { reveal_strlit("9"); }
        "9"
    }
}

/// Appends the decimal digits of `v` to `s`.
fn append_decimal(s: &mut String, v: u32)
    ensures
        final(s)@ == old(s)@ + decimal(v as nat),
    decreases v,
{
    broadcast use vstd::string::group_string_axioms;
    if v < 10 {
        s.append(digit_text(v));
    } else {
        append_decimal(s, v / 10);
        s.append(digit_text(v % 10));
        proof {
            assert(decimal(v as nat) == decimal((v / 10) as nat).push(((v % 10) + 48) as char));
            assert(old(s)@ + decimal((v / 10) as nat) + seq![((v % 10) + 48) as char]
                =~= old(s)@ + decimal(v as nat));
        }
    }
}

/// The number of decimal digits of `v`.
fn decimal_len(v: u32) -> (n: usize)
    ensures
        n == decimal(v as nat).len(),
        n <= 10,
    decreases v,
{
    if v < 10 {
        1
    } else {
        let n = decimal_len(v / 10);
        proof {
            lemma_decimal_len_bound(v as nat);
        }
        n + 1
    }
}

/// A `u32` has at most ten decimal digits.
proof fn lemma_decimal_len_bound(v: nat)
    requires
        v <= u32::MAX,
    ensures
        decimal(v).len() <= 10,
{
    reveal_with_fuel(pow10, 11);
    assert(pow10(10) == 10_000_000_000);
    lemma_decimal_len_below(v, 10, 10_000_000_000);
}

/// A number below 10^k (k at least 1) has at most k decimal digits.
proof fn lemma_decimal_len_below(v: nat, k: nat, p: nat)
    requires
        k >= 1,
        v < p,
        p == pow10(k),
    ensures
        decimal(v).len() <= k,
    decreases k,
{
    if v >= 10 {
        assert(k >= 2) by {
            if k == 1 {
                assert(pow10(1) == 10 * pow10(0));
            }
        }
        let q = pow10((k - 1) as nat);
        assert(p == 10 * q);
        assert(v / 10 < q) by (nonlinear_arith)
            requires v < 10 * q, q >= 0;
        lemma_decimal_len_below(v / 10, (k - 1) as nat, q);
    }
}

/// Ten to the power `k`.
pub open spec fn pow10(k: nat) -> nat
    decreases k,
{
    if k == 0 { 1 } else { 10 * pow10((k - 1) as nat) }
}

/// `v` in decimal, right-aligned to ten characters, then a space (what
/// `format!("{:10} ", v)` gives).
fn format_value(v: u32) -> (s: String)
    ensures
        s@ == padded_decimal(v as nat) + seq![' '],
{
    broadcast use vstd::string::group_string_axioms;
    let n = decimal_len(v);
    let mut s = String::new();
    let mut i: usize = n;
    while i < 10
        invariant
            n <= i <= 10,
            s@ == Seq::new((i - n) as nat, |k: int| ' '),
        decreases 10 - i,
    {
        proof { reveal_strlit(" "); }
        s.append(" ");
        proof {
            assert(s@ =~= Seq::new((i + 1 - n) as nat, |k: int| ' '));
        }
        i = i + 1;
    }
    append_decimal(&mut s, v);
    proof { reveal_strlit(" "); }
    s.append(" ");
    proof {
        assert(s@ =~= padded_decimal(v as nat) + seq![' ']);
    }
    s
}

impl FlowField {
    /// The arrow drawn for a direction.
    fn get_string_vector(v: &IVec2) -> (s: String)
        requires
            unit_direction(*v),
        ensures
            s@ == arrow(*v),
    {
        broadcast use vstd::string::group_string_axioms;
        let print_direction = if v.x == -1 && v.y == -1 {
            proof { reveal_strlit("⬋"); }
            "⬋"
        } else if v.x == -1 && v.y == 0 {
            proof { reveal_strlit("←"); }
            "←"
        } else if v.x == -1 && v.y == 1 {
            proof { reveal_strlit("⬉"); }
            "⬉"
        } else if v.x == 0 && v.y == -1 {
            proof { reveal_strlit("↓"); }
            "↓"
        } else if v.x == 0 && v.y == 0 {
            proof { reveal_strlit(" "); }
            " "
        } else if v.x == 0 && v.y == 1 {
            proof { reveal_strlit("↑"); }
            "↑"
        } else if v.x == 1 && v.y == -1 {
            proof { reveal_strlit("⬊"); }
            "⬊"
        } else if v.x == 1 && v.y == 0 {
            proof { reveal_strlit("→"); }
            "→"
        } else {
            proof { reveal_strlit("⬈"); }
            "⬈"
        };
        print_direction.to_string()
    }

    /// The rows of directions, top row first, as `print_flow` draws them.
    pub fn flow_rows(&self) -> (rows: Vec<String>)
        requires
            well_formed(self@),
            all_addressable(self@),
            forall|i: int| 0 <= i < cell_count(self@) ==> (#[trigger] self@.flow[i] matches Some(d) ==> unit_direction(d)),
        ensures
            rows@.len() == self@.height,
            forall|k: int| 0 <= k < rows@.len() ==> #[trigger] rows@[k]@ == flow_row(self@, self@.height - 1 - k, self@.width as int),
    {
        broadcast use vstd::string::group_string_axioms;
        let mut rows: Vec<String> = Vec::new();
        let mut y = self.height;
        while y > 0
            invariant
                y <= self@.height,
                well_formed(self@),
                all_addressable(self@),
                forall|i: int| 0 <= i < cell_count(self@) ==> (#[trigger] self@.flow[i] matches Some(d) ==> unit_direction(d)),
                rows@.len() == self@.height - y,
                forall|k: int| 0 <= k < rows@.len() ==> #[trigger] rows@[k]@ == flow_row(self@, self@.height - 1 - k, self@.width as int),
            decreases y,
        {
            y = y - 1;
            let mut line = String::new();
            let mut x: usize = 0;
            while x < self.width
                invariant
                    x <= self@.width,
                    y < self@.height,
                    well_formed(self@),
                    all_addressable(self@),
                    forall|i: int| 0 <= i < cell_count(self@) ==> (#[trigger] self@.flow[i] matches Some(d) ==> unit_direction(d)),
                    line@ == flow_row(self@, y as int, x as int),
                decreases self@.width - x,
            {
                let c = Cell::new(x, y);
                proof { lemma_addressable(self@, c); }
                match self.get_flow_cell(&c) {
                    Some(direction) => {
                        proof { reveal_strlit(" "); }
                        line.append(" ");
                        let arrow_text = Self::get_string_vector(&direction);
                        line.append(arrow_text.as_str());
                    },
                    None => {
                        proof { reveal_strlit(" x"); }
                        line.append(" x");
                    },
                }
                x = x + 1;
            }
            rows.push(line);
        }
        rows
    }

    /// The rows of values, top row first, as `print` draws them.
    pub fn value_rows(&self) -> (rows: Vec<String>)
        requires
            well_formed(self@),
            all_addressable(self@),
        ensures
            rows@.len() == self@.height,
            forall|k: int| 0 <= k < rows@.len() ==> #[trigger] rows@[k]@ == value_row(self@, self@.height - 1 - k, self@.width as int),
    {
        broadcast use vstd::string::group_string_axioms;
        let mut rows: Vec<String> = Vec::new();
        let mut y = self.height;
        while y > 0
            invariant
                y <= self@.height,
                well_formed(self@),
                all_addressable(self@),
                rows@.len() == self@.height - y,
                forall|k: int| 0 <= k < rows@.len() ==> #[trigger] rows@[k]@ == value_row(self@, self@.height - 1 - k, self@.width as int),
            decreases y,
        {
            y = y - 1;
            let mut line = String::new();
            let mut x: usize = 0;
            while x < self.width
                invariant
                    x <= self@.width,
                    y < self@.height,
                    well_formed(self@),
                    all_addressable(self@),
                    line@ == value_row(self@, y as int, x as int),
                decreases self@.width - x,
            {
                let c = Cell::new(x, y);
                proof { lemma_addressable(self@, c); }
                let text = format_value(self.get(&c));
                line.append(text.as_str());
                x = x + 1;
            }
            rows.push(line);
        }
        rows
    }
}

} // verus!
