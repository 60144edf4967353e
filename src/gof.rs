use vstd::prelude::*;

use crate::cell::{cell_of_bit, Cell};
use crate::chance::random_bit;
use crate::viewport::{
    fits_i32, screen_to_world, to_screen, to_world, world_to_screen, zoom_after, zoom_for_scroll,
    zoom_shift, zoom_shift_for,
};
use crate::common::Vec2;

verus! {

/// The cell that a cell becomes in the next generation, given how many of its
/// eight neighbours are alive: birth on exactly three, survival on two or
/// three, death otherwise.
pub open spec fn next_state(c: Cell, n: int) -> Cell {
    if c == Cell::Dead && n == 3 {
        Cell::Alive
    } else if c == Cell::Alive && (n < 2 || n > 3) {
        Cell::Dead
    } else {
        c
    }
}

/// Where the cell in column `x` and row `y` sits in the row-major sequence of
/// a board `w` cells wide.
#[verifier::opaque]
pub open spec fn cell_index(w: int, x: int, y: int) -> int {
    y * w + x
}

/// What a board is, mathematically: its size, its cells in row-major order,
/// the zoom factor it is shown at and whether the simulation runs.
pub struct GofView {
    pub width: int,
    pub height: int,
    pub cells: Seq<Cell>,
    pub zoom: int,
    pub running: bool,
}

impl GofView {
    /// A board of at least one cell, holding one cell per place, shown at a
    /// zoom of at least 1.
    pub open spec fn wf(self) -> bool {
        &&& self.width >= 1
        &&& self.height >= 1
        &&& self.cells.len() == self.width * self.height
        &&& self.zoom >= 1
    }

    pub open spec fn in_bounds(self, x: int, y: int) -> bool {
        0 <= x < self.width && 0 <= y < self.height
    }

    /// Cells off the outer ring, the only ones that a generation changes.
    pub open spec fn is_interior(self, x: int, y: int) -> bool {
        1 <= x < self.width - 1 && 1 <= y < self.height - 1
    }

    pub open spec fn index(self, x: int, y: int) -> int {
        cell_index(self.width, x, y)
    }

    pub open spec fn at(self, x: int, y: int) -> Cell {
        self.cells[self.index(x, y)]
    }

    pub open spec fn alive(self, x: int, y: int) -> int {
        self.at(x, y).value()
    }

    /// The number of living cells among the eight that touch `(x, y)`.
    pub open spec fn neighbor_count(self, x: int, y: int) -> int {
        self.alive(x - 1, y - 1) + self.alive(x, y - 1) + self.alive(x + 1, y - 1)
            + self.alive(x - 1, y) + self.alive(x + 1, y)
            + self.alive(x - 1, y + 1) + self.alive(x, y + 1) + self.alive(x + 1, y + 1)
    }

    /// The cell at `(x, y)` one generation later: interior cells follow the
    /// rule, the outer ring keeps its state.
    #[verifier::opaque]
    pub open spec fn next_at(self, x: int, y: int) -> Cell {
        if self.is_interior(x, y) {
            next_state(self.at(x, y), self.neighbor_count(x, y))
        } else {
            self.at(x, y)
        }
    }

    /// The whole board one generation later.
    #[verifier::opaque]
    pub open spec fn next_view(self) -> GofView {
        GofView {
            cells: Seq::new(
                self.cells.len(),
                |i: int| self.next_at(i % self.width, i / self.width),
            ),
            ..self
        }
    }

    /// The board with every cell dead.
    pub open spec fn cleared(self) -> GofView {
        GofView { cells: Seq::new(self.cells.len(), |i: int| Cell::Dead), ..self }
    }

    /// The board one generation on when `step` holds, else as it is.
    pub open spec fn stepped(self, step: bool) -> GofView {
        if step {
            self.next_view()
        } else {
            self
        }
    }

    /// The same board with the running flag flipped when `toggle` holds.
    pub open spec fn toggled(self, toggle: bool) -> GofView {
        GofView { running: self.running != toggle, ..self }
    }

    /// The same board with the cell at `(x, y)` replaced by `c`.
    pub open spec fn with_cell(self, x: int, y: int, c: Cell) -> GofView {
        GofView { cells: self.cells.update(self.index(x, y), c), ..self }
    }

    /// The same size, zoom and running flag.
    pub open spec fn same_shape(self, other: GofView) -> bool {
        &&& self.width == other.width
        &&& self.height == other.height
        &&& self.cells.len() == other.cells.len()
        &&& self.zoom == other.zoom
        &&& self.running == other.running
    }

    /// The board after `n` generations.
    pub open spec fn generations(self, n: nat) -> GofView
        decreases n,
    {
        if n == 0 {
            self
        } else {
            self.generations((n - 1) as nat).next_view()
        }
    }

    /// Sum of the first `j` cells of column `cx`, from row `top` down.
    spec fn column_partial(self, cx: int, top: int, j: int) -> int
        decreases j,
    {
        if j <= 0 {
            0
        } else {
            self.column_partial(cx, top, j - 1) + self.alive(cx, top + j - 1)
        }
    }

    /// Sum of the first `i` columns of the three rows from `top`, from column `left`.
    spec fn block_partial(self, left: int, top: int, i: int) -> int
        decreases i,
    {
        if i <= 0 {
            0
        } else {
            self.block_partial(left, top, i - 1) + self.column_partial(left + i - 1, top, 3)
        }
    }
}

/// The position of a cell in the row-major sequence lies inside it.
pub proof fn lemma_index_bound(v: GofView, x: int, y: int)
    requires
        v.wf(),
        v.in_bounds(x, y),
    ensures
        0 <= v.index(x, y) < v.cells.len(),
{
    reveal(cell_index);
    let w = v.width;
    let h = v.height;
    assert(0 <= y * w + x < w * h) by (nonlinear_arith)
        requires
            0 <= x < w,
            0 <= y < h,
    ;
}

/// No two cells share a position in the row-major sequence.
pub proof fn lemma_index_injective(v: GofView, x1: int, y1: int, x2: int, y2: int)
    requires
        v.wf(),
        v.in_bounds(x1, y1),
        v.in_bounds(x2, y2),
        v.index(x1, y1) == v.index(x2, y2),
    ensures
        x1 == x2,
        y1 == y2,
{
    reveal(cell_index);
    let w = v.width;
    if y1 < y2 {
        assert(y1 * w + x1 < y2 * w + x2) by (nonlinear_arith)
            requires
                y1 < y2,
                0 <= x1 < w,
                0 <= x2,
        ;
    } else if y2 < y1 {
        assert(y2 * w + x2 < y1 * w + x1) by (nonlinear_arith)
            requires
                y2 < y1,
                0 <= x2 < w,
                0 <= x1,
        ;
    }
}

/// Each position of the row-major sequence belongs to the cell at column
/// `i % width` and row `i / width`.
pub proof fn lemma_index_split(v: GofView, i: int)
    requires
        v.wf(),
        0 <= i < v.cells.len(),
    ensures
        v.in_bounds(i % v.width, i / v.width),
        v.index(i % v.width, i / v.width) == i,
{
    reveal(cell_index);
    let w = v.width;
    let h = v.height;
    vstd::arithmetic::div_mod::lemma_fundamental_div_mod(i, w);
    let q = i / w;
    let r = i % w;
    assert(0 <= q < h) by (nonlinear_arith)
        requires
            0 <= i < w * h,
            w >= 1,
            i == w * q + r,
            0 <= r < w,
    ;
    assert(q * w + r == i) by (nonlinear_arith)
        requires
            i == w * q + r,
    ;
}

/// A column of three cells sums their values.
proof fn lemma_column_of_three(v: GofView, cx: int, top: int)
    ensures
        v.column_partial(cx, top, 3) == v.alive(cx, top) + v.alive(cx, top + 1) + v.alive(
            cx,
            top + 2,
        ),
{
    assert(v.column_partial(cx, top, 0) == 0);
    assert(v.column_partial(cx, top, 1) == v.alive(cx, top));
    assert(v.column_partial(cx, top, 2) == v.alive(cx, top) + v.alive(cx, top + 1));
}

/// A cell of the outer ring keeps its state from one generation to the next.
pub proof fn lemma_ring_kept(v: GofView, x: int, y: int)
    requires
        !v.is_interior(x, y),
    ensures
        v.next_at(x, y) == v.at(x, y),
{
    reveal(GofView::next_at);
}

/// An interior cell follows the rule of birth, survival and death.
pub proof fn lemma_interior_rule(v: GofView, x: int, y: int)
    requires
        v.is_interior(x, y),
    ensures
        v.next_at(x, y) == next_state(v.at(x, y), v.neighbor_count(x, y)),
{
    reveal(GofView::next_at);
}

/// A board one generation on is the board whose cells are, place by place,
/// the next states; it keeps size, zoom and running flag.
pub proof fn lemma_next_view(v: GofView, n: GofView)
    requires
        v.wf(),
        n.width == v.width,
        n.height == v.height,
        n.zoom == v.zoom,
        n.running == v.running,
        n.cells.len() == v.cells.len(),
        forall|x: int, y: int| #![trigger n.at(x, y)] v.in_bounds(x, y) ==> n.at(x, y) == v.next_at(x, y),
    ensures
        n == v.next_view(),
{
    reveal(GofView::next_view);
    assert forall|i: int| 0 <= i < v.cells.len() implies n.cells[i] == v.next_view().cells[i] by {
        lemma_index_split(v, i);
        assert(n.at(i % v.width, i / v.width) == v.next_at(i % v.width, i / v.width));
    }
    assert(n.cells =~= v.next_view().cells);
}

/// The cells of the board one generation on.
pub proof fn lemma_next_view_at(v: GofView, x: int, y: int)
    requires
        v.wf(),
        v.in_bounds(x, y),
    ensures
        v.next_view().wf(),
        v.next_view().width == v.width,
        v.next_view().height == v.height,
        v.next_view().zoom == v.zoom,
        v.next_view().running == v.running,
        v.next_view().at(x, y) == v.next_at(x, y),
{
    reveal(GofView::next_view);
    lemma_index_bound(v, x, y);
    let i = v.index(x, y);
    lemma_index_split(v, i);
    lemma_index_injective(v, i % v.width, i / v.width, x, y);
}

/// The keys of one frame that act on the board.
#[derive(Clone, Copy, Debug, Default, PartialEq, Eq)]
pub struct FrameKeys {
    /// Pause a running simulation, or run a paused one.
    pub toggle_running: bool,
    /// Give every cell a fresh coin flip.
    pub randomize: bool,
    /// Kill every cell.
    pub clear: bool,
    /// Advance one generation.
    pub step: bool,
}

/// A board of cells with the view state it is shown with.
#[derive(Clone)]
pub struct Gof {
    content: Vec<Cell>,
    dimensions: Vec2<usize>,
    zoom: i32,
    running: bool,
}

impl View for Gof {
    type V = GofView;

    closed spec fn view(&self) -> GofView {
        GofView {
            width: self.dimensions.x as int,
            height: self.dimensions.y as int,
            cells: self.content@,
            zoom: self.zoom as int,
            running: self.running,
        }
    }
}

impl Gof {
    /// Well formed, with a cell count that an index of the machine can reach.
    pub open spec fn wf(&self) -> bool {
        self@.wf() && self@.cells.len() <= usize::MAX
    }

    /// A board of `width` by `height` dead cells, shown at zoom 1 and running.
    pub fn new(width: usize, height: usize) -> (r: Gof)
        requires
            width >= 1,
            height >= 1,
            width * height <= usize::MAX,
        ensures
            r.wf(),
            r@.width == width,
            r@.height == height,
            r@.zoom == 1,
            r@.running,
            forall|i: int| 0 <= i < r@.cells.len() ==> r@.cells[i] == Cell::Dead,
    {
        let vec_length: usize = width * height;
        Gof {
            content: vec![Cell::Dead; vec_length],
            dimensions: Vec2 { x: width, y: height },
            zoom: 1,
            running: true,
        }
    }

    /// Cells per row.
    pub fn width(&self) -> (r: usize)
        ensures
            r == self@.width,
    {
        self.dimensions.x
    }

    /// Rows of the board.
    pub fn height(&self) -> (r: usize)
        ensures
            r == self@.height,
    {
        self.dimensions.y
    }

    /// Where the cell at `(x, y)` sits in `content`.
    fn index_of(&self, x: usize, y: usize) -> (r: usize)
        requires
            self.wf(),
            self@.in_bounds(x as int, y as int),
        ensures
            r == self@.index(x as int, y as int),
            r < self@.cells.len(),
    {
        proof {
            lemma_index_bound(self@, x as int, y as int);
            reveal(cell_index);
        }
        y * self.dimensions.x + x
    }

    /// The cell in column `x` and row `y`.
    pub fn get_cell(&self, x: usize, y: usize) -> (r: Cell)
        requires
            self.wf(),
            self@.in_bounds(x as int, y as int),
        ensures
            r == self@.at(x as int, y as int),
    {
        let i: usize = self.index_of(x, y);
        self.content[i]
    }

    /// Overwrites the cell in column `x` and row `y` with `value`.
    pub fn set_cell(&mut self, x: usize, y: usize, value: Cell)
        requires
            old(self).wf(),
            old(self)@.in_bounds(x as int, y as int),
        ensures
            final(self).wf(),
            final(self)@ == old(self)@.with_cell(x as int, y as int, value),
    {
        let i: usize = self.index_of(x, y);
        self.content.set(i, value);
    }

    /// The number of living cells among the eight around `(x, y)`, which
    /// must not lie on the outer ring.
    pub fn cell_neighbors(&self, x: usize, y: usize) -> (r: u8)
        requires
            self.wf(),
            self@.is_interior(x as int, y as int),
        ensures
            r == self@.neighbor_count(x as int, y as int),
            r <= 8,
    {
        let ghost v = self@;
        let ghost left = x - 1;
        let ghost top = y - 1;
        let mut alive_neighbors: u8 = 0;
        for i in 0..3usize
            invariant
                self.wf(),
                v == self@,
                v.is_interior(x as int, y as int),
                left == x - 1,
                top == y - 1,
                alive_neighbors == v.block_partial(left, top, i as int),
                alive_neighbors <= 3 * i,
        {
            for j in 0..3usize
                invariant
                    self.wf(),
                    v == self@,
                    v.is_interior(x as int, y as int),
                    left == x - 1,
                    top == y - 1,
                    i < 3,
                    alive_neighbors == v.block_partial(left, top, i as int)
                        + v.column_partial(left + i, top, j as int),
                    alive_neighbors <= 3 * i + j,
            {
                let cx = x - 1 + i;
                let cy = y - 1 + j;
                let cell = self.get_cell(cx, cy);
                alive_neighbors += cell.as_u8();
            }
        }
        proof {
            lemma_column_of_three(v, left, top);
            lemma_column_of_three(v, left + 1, top);
            lemma_column_of_three(v, left + 2, top);
            assert(v.block_partial(left, top, 3) == v.column_partial(left, top, 3)
                + v.column_partial(left + 1, top, 3) + v.column_partial(left + 2, top, 3)) by {
                assert(v.block_partial(left, top, 2) == v.column_partial(left, top, 3)
                    + v.column_partial(left + 1, top, 3)) by {
                    assert(v.block_partial(left, top, 0) == 0);
                    assert(v.block_partial(left, top, 1) == v.column_partial(left, top, 3));
                }
            }
        }
        alive_neighbors - self.get_cell(x, y).as_u8()
    }

    /// A copy of the cells, to be written while this board is read.
    fn snapshot(&self) -> (r: Vec<Cell>)
        ensures
            r@ == self@.cells,
    {
        let mut r: Vec<Cell> = Vec::new();
        for k in 0..self.content.len()
            invariant
                r@ == self.content@.take(k as int),
        {
            r.push(self.content[k]);
            assert(self.content@.take(k + 1) =~= self.content@.take(k as int).push(self.content@[k as int]));
        }
        assert(self.content@.take(self.content@.len() as int) =~= self.content@);
        r
    }

    /// Writes into `next_gen` the next state of the interior cells of column
    /// `x`, each decided from this board.
    fn advance_column(&self, x: usize, next_gen: &mut Vec<Cell>)
        requires
            self.wf(),
            1 <= x < self@.width - 1,
            old(next_gen)@.len() == self@.cells.len(),
            forall|yy: int|
                0 <= yy < self@.height ==> old(next_gen)@[self@.index(x as int, yy)] == self@.at(
                    x as int,
                    yy,
                ),
        ensures
            final(next_gen)@.len() == self@.cells.len(),
            forall|xx: int, yy: int|
                #![trigger self@.index(xx, yy)]
                self@.in_bounds(xx, yy) ==> final(next_gen)@[self@.index(xx, yy)] == if xx == x {
                    self@.next_at(xx, yy)
                } else {
                    old(next_gen)@[self@.index(xx, yy)]
                },
    {
        let ghost v = self@;
        let ghost start = next_gen@;
        let w = self.dimensions.x;
        let h = self.dimensions.y;
        let mut y: usize = 1;
        proof {
            lemma_ring_kept(v, x as int, 0);
        }
        while y < h - 1
            invariant
                self.wf(),
                self@ == v,
                w == v.width,
                h == v.height,
                1 <= x < w - 1,
                1 <= y <= h,
                next_gen@.len() == v.cells.len(),
                forall|xx: int, yy: int|
                    #![trigger v.index(xx, yy)]
                    v.in_bounds(xx, yy) ==> next_gen@[v.index(xx, yy)] == if xx == x && yy < y {
                        v.next_at(xx, yy)
                    } else {
                        start[v.index(xx, yy)]
                    },
            decreases h - y,
        {
            let neighbors = self.cell_neighbors(x, y);
            let cell = self.get_cell(x, y);
            let next = if cell.is_dead() && neighbors == 3 {
                Cell::Alive
            } else if cell.is_alive() && (neighbors < 2 || neighbors > 3) {
                Cell::Dead
            } else {
                cell
            };
            proof {
                lemma_interior_rule(v, x as int, y as int);
            }
            let i: usize = self.index_of(x, y);
            let ghost prev = next_gen@;
            next_gen.set(i, next);
            proof {
                assert forall|xx: int, yy: int|
                    #![trigger v.index(xx, yy)]
                    v.in_bounds(xx, yy) implies next_gen@[v.index(xx, yy)] == if xx == x && yy < y
                        + 1 {
                        v.next_at(xx, yy)
                    } else {
                        start[v.index(xx, yy)]
                    } by {
                    lemma_index_bound(v, xx, yy);
                    if !(xx == x && yy == y) {
                        if v.index(xx, yy) == v.index(x as int, y as int) {
                            lemma_index_injective(v, xx, yy, x as int, y as int);
                        }
                        assert(next_gen@[v.index(xx, yy)] == prev[v.index(xx, yy)]);
                    }
                }
            }
            y = y + 1;
        }
        proof {
            assert forall|xx: int, yy: int| #![trigger v.index(xx, yy)]
                v.in_bounds(xx, yy) && xx == x && yy >= y implies start[v.index(xx, yy)]
                == v.next_at(xx, yy) by {
                lemma_ring_kept(v, xx, yy);
                assert(start[v.index(xx, yy)] == v.at(xx, yy));
            }
        }
    }

    /// Moves the board on by one generation. Every interior cell is decided
    /// from the board as it stood before the step; the outer ring is kept.
    pub fn advance_generation(&mut self)
        requires
            old(self).wf(),
        ensures
            final(self).wf(),
            final(self)@ == old(self)@.next_view(),
    {
        let ghost v = self@;
        let w = self.dimensions.x;
        let mut next_gen = self.snapshot();
        let mut x: usize = 1;
        assert forall|yy: int| 0 <= yy < v.height implies v.next_at(0, yy) == v.at(0, yy) by {
            lemma_ring_kept(v, 0, yy);
        }
        while x < w - 1
            invariant
                self.wf(),
                self@ == v,
                w == v.width,
                1 <= x <= w,
                next_gen@.len() == v.cells.len(),
                forall|xx: int, yy: int|
                    #![trigger v.index(xx, yy)]
                    v.in_bounds(xx, yy) ==> next_gen@[v.index(xx, yy)] == if xx < x {
                        v.next_at(xx, yy)
                    } else {
                        v.at(xx, yy)
                    },
            decreases w - x,
        {
            self.advance_column(x, &mut next_gen);
            x = x + 1;
        }
        proof {
            let n = GofView { cells: next_gen@, ..v };
            assert forall|xx: int, yy: int| #![trigger n.at(xx, yy)]
                v.in_bounds(xx, yy) implies n.at(xx, yy) == v.next_at(xx, yy) by {
                assert(n.at(xx, yy) == next_gen@[v.index(xx, yy)]);
                if xx >= x {
                    lemma_ring_kept(v, xx, yy);
                }
            }
            lemma_next_view(v, n);
        }
        self.content = next_gen;
    }

    /// Sets every cell to `state`.
    pub fn fill_cells(&mut self, state: Cell)
        requires
            old(self).wf(),
        ensures
            final(self).wf(),
            final(self)@ == (GofView {
                cells: Seq::new(old(self)@.cells.len(), |i: int| state),
                ..old(self)@
            }),
    {
        let ghost v = self@;
        let n = self.content.len();
        for i in 0..n
            invariant
                self@ == (GofView { cells: self.content@, ..v }),
                self.content@.len() == n,
                n == v.cells.len(),
                forall|j: int| 0 <= j < i ==> self.content@[j] == state,
        {
            self.content.set(i, state);
        }
        assert(self.content@ =~= Seq::new(v.cells.len(), |i: int| state));
    }

    /// Sets cell `i` of the row-major order to the cell that coin flip
    /// `bits[i]` stands for.
    pub fn set_cells_from_bits(&mut self, bits: &Vec<u8>)
        requires
            old(self).wf(),
            bits@.len() == old(self)@.cells.len(),
        ensures
            final(self).wf(),
            final(self)@ == (GofView {
                cells: Seq::new(old(self)@.cells.len(), |i: int| cell_of_bit(bits@[i] as int)),
                ..old(self)@
            }),
    {
        let ghost v = self@;
        let n = self.content.len();
        for i in 0..n
            invariant
                self@ == (GofView { cells: self.content@, ..v }),
                self.content@.len() == n,
                n == v.cells.len(),
                bits@.len() == n,
                forall|j: int| 0 <= j < i ==> self.content@[j] == cell_of_bit(bits@[j] as int),
        {
            let c = Cell::from_bit(bits[i]);
            self.content.set(i, c);
        }
        assert(self.content@ =~= Seq::new(v.cells.len(), |i: int| cell_of_bit(bits@[i] as int)));
    }

    /// Gives every cell its own fair coin flip: alive or dead with even odds.
    /// Size, zoom and running flag stay.
    pub fn randomize_cells(&mut self)
        requires
            old(self).wf(),
        ensures
            final(self).wf(),
            final(self)@.same_shape(old(self)@),
    {
        let mut rng = rand::thread_rng();
        let n = self.content.len();
        let mut bits: Vec<u8> = Vec::new();
        for i in 0..n
            invariant
                bits@.len() == i,
        {
            bits.push(random_bit(&mut rng));
        }
        self.set_cells_from_bits(&bits);
    }

    /// Whether `(x, y)` names a cell of the board.
    pub fn intersects(&self, x: usize, y: usize) -> (r: bool)
        ensures
            r == self@.in_bounds(x as int, y as int),
    {
        x < self.dimensions.x && y < self.dimensions.y
    }

    /// Screen pixels per cell edge.
    pub fn zoom(&self) -> (r: i32)
        ensures
            r == self@.zoom,
    {
        self.zoom
    }

    /// Whether the simulation advances on each tick.
    pub fn is_running(&self) -> (r: bool)
        ensures
            r == self@.running,
    {
        self.running
    }

    /// Pauses a running simulation, or runs a paused one.
    pub fn toggle_running(&mut self)
        ensures
            final(self)@ == old(self)@.toggled(true),
    {
        self.running = !self.running;
    }

    /// One tick of the simulation: a generation when running, nothing when
    /// paused.
    pub fn update(&mut self)
        requires
            old(self).wf(),
        ensures
            final(self).wf(),
            final(self)@ == old(self)@.stepped(old(self)@.running),
    {
        if self.running {
            self.advance_generation();
        }
    }

    /// Acts on the keys of one frame, in order: the pause toggle, a fresh
    /// coin flip for every cell, clearing, and a single step.
    pub fn apply_keys(&mut self, keys: FrameKeys)
        requires
            old(self).wf(),
        ensures
            final(self).wf(),
            final(self)@.same_shape(old(self)@.toggled(keys.toggle_running)),
            keys.clear ==> final(self)@ == old(self)@.toggled(keys.toggle_running).cleared().stepped(
                keys.step,
            ),
            !keys.clear && !keys.randomize ==> final(self)@ == old(self)@.toggled(
                keys.toggle_running,
            ).stepped(keys.step),
    {
        if keys.toggle_running {
            self.toggle_running();
        }
        if keys.randomize {
            self.randomize_cells();
        }
        if keys.clear {
            self.fill_cells(Cell::Dead);
        }
        let ghost before_step = self@;
        if keys.step {
            self.advance_generation();
            proof {
                lemma_next_view_at(before_step, 0, 0);
            }
        }
    }

    /// The world point under screen point `(x, y)` when the board is panned
    /// by `offset`.
    pub fn screen_to_world_point(&self, x: i32, y: i32, offset: Vec2<i32>) -> (r: Vec2<i32>)
        requires
            self.wf(),
            fits_i32(to_world(x as int, offset.x as int, self@.zoom)),
            fits_i32(to_world(y as int, offset.y as int, self@.zoom)),
        ensures
            r.x == to_world(x as int, offset.x as int, self@.zoom),
            r.y == to_world(y as int, offset.y as int, self@.zoom),
    {
        screen_to_world(Vec2 { x, y }, offset, self.zoom)
    }

    /// The screen corner of the block that shows world point `(x, y)` when
    /// the board is panned by `offset`.
    pub fn world_to_screen_point(&self, x: i32, y: i32, offset: Vec2<i32>) -> (r: Vec2<i32>)
        requires
            fits_i32(x + offset.x),
            fits_i32(y + offset.y),
            fits_i32(to_screen(x as int, offset.x as int, self@.zoom)),
            fits_i32(to_screen(y as int, offset.y as int, self@.zoom)),
        ensures
            r.x == to_screen(x as int, offset.x as int, self@.zoom),
            r.y == to_screen(y as int, offset.y as int, self@.zoom),
    {
        world_to_screen(Vec2 { x, y }, offset, self.zoom)
    }

    /// Changes the zoom for a scroll of the wheel and returns how far to move
    /// the offset back so that the world point under `cursor` stays there.
    pub fn zoom_at_cursor(&mut self, scroll: i32, cursor: Vec2<i32>) -> (shift: Vec2<i32>)
        requires
            old(self).wf(),
        ensures
            final(self).wf(),
            final(self)@ == (GofView { zoom: zoom_after(old(self)@.zoom, scroll as int), ..old(self)@ }),
            shift.x == zoom_shift(cursor.x as int, old(self)@.zoom, final(self)@.zoom),
            shift.y == zoom_shift(cursor.y as int, old(self)@.zoom, final(self)@.zoom),
    {
        let before = self.zoom;
        self.zoom = zoom_for_scroll(before, scroll);
        Vec2 {
            x: zoom_shift_for(cursor.x, before, self.zoom),
            y: zoom_shift_for(cursor.y, before, self.zoom),
        }
    }

    /// Brings the cell under `cursor` to life, if the cursor is over the
    /// board; otherwise leaves the board as it is.
    pub fn paint_at(&mut self, cursor: Vec2<i32>, offset: Vec2<i32>)
        requires
            old(self).wf(),
            fits_i32(to_world(cursor.x as int, offset.x as int, old(self)@.zoom)),
            fits_i32(to_world(cursor.y as int, offset.y as int, old(self)@.zoom)),
        ensures
            final(self).wf(),
            ({
                let wx = to_world(cursor.x as int, offset.x as int, old(self)@.zoom);
                let wy = to_world(cursor.y as int, offset.y as int, old(self)@.zoom);
                final(self)@ == if old(self)@.in_bounds(wx, wy) {
                    old(self)@.with_cell(wx, wy, Cell::Alive)
                } else {
                    old(self)@
                }
            }),
    {
        let p = self.screen_to_world_point(cursor.x, cursor.y, offset);
        if p.x >= 0 && p.y >= 0 && self.intersects(p.x as usize, p.y as usize) {
            self.set_cell(p.x as usize, p.y as usize, Cell::Alive);
        }
    }
}

} // verus!
