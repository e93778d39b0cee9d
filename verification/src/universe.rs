//! The grid engine: a rectangular matrix of cells plus the single
//! state-transition rule of Conway's Game of Life, with bounded
//! (non-wrapping) edges.

use vstd::prelude::*;
use vstd::arithmetic::div_mod::{
    lemma_div_pos_is_pos, lemma_fundamental_div_mod, lemma_fundamental_div_mod_converse_div,
    lemma_fundamental_div_mod_converse_mod, lemma_mod_division_less_than_divisor,
};
use vstd::arithmetic::mul::{lemma_mul_inequality, lemma_mul_is_commutative};

verus! {

/// The fixed transition rule of Life: a dead cell with exactly three live
/// neighbors is born, an alive cell with two or three live neighbors
/// survives, and every other cell is dead in the next generation.
pub open spec fn next_state(cur: Cell, live: nat) -> Cell {
    if live == 3 || (live == 2 && cur is Alive) {
        Cell::Alive
    } else {
        Cell::Dead
    }
}

/// The number of `Alive` entries in `s`.
pub open spec fn count_alive(s: Seq<Cell>) -> nat
    decreases s.len(),
{
    if s.len() == 0 {
        0nat
    } else {
        count_alive(s.drop_last()) + (if s.last() is Alive {
            1nat
        } else {
            0nat
        })
    }
}

proof fn lemma_count_alive_push(s: Seq<Cell>, x: Cell)
    ensures
        count_alive(s.push(x)) == count_alive(s) + (if x is Alive {
            1nat
        } else {
            0nat
        }),
{
    assert(s.push(x).drop_last() =~= s);
    assert(s.push(x).last() == x);
}

/// Row-major addressing: a valid coordinate pair maps to a valid index,
/// and division and remainder by the width recover the coordinates.
pub proof fn lemma_row_major_index(w: int, h: int, r: int, c: int)
    requires
        0 <= r < h,
        0 <= c < w,
    ensures
        0 <= r * w + c < w * h,
        (r * w + c) / w == r,
        (r * w + c) % w == c,
{
    assert(0 <= r * w + c < w * h) by (nonlinear_arith)
        requires
            0 <= r < h,
            0 <= c < w,
    ;
    lemma_fundamental_div_mod_converse_div(r * w + c, w, r, c);
    lemma_fundamental_div_mod_converse_mod(r * w + c, w, r, c);
}

/// Row-major addressing, the other way: a valid index splits into a valid
/// coordinate pair by division and remainder by the width.
pub proof fn lemma_index_to_row_col(w: int, h: int, i: int)
    requires
        0 < w,
        0 <= i < w * h,
    ensures
        0 <= i / w < h,
        0 <= i % w < w,
        (i / w) * w + (i % w) == i,
{
    lemma_fundamental_div_mod(i, w);
    lemma_mod_division_less_than_divisor(i, w);
    lemma_div_pos_is_pos(i, w);
    lemma_mul_is_commutative(i / w, w);
    if i / w >= h {
        lemma_mul_inequality(h, i / w, w);
        lemma_mul_is_commutative(h, w);
        assert(false);
    }
}

/// One grid position's binary state: `Alive` or `Dead`.
#[derive(Clone, Copy, Debug, PartialEq, Eq, Structural)]
pub enum Cell {
    Dead,
    Alive,
}

impl Cell {
    /// Returns whether the cell is considered alive.
    pub fn is_alive(self) -> (r: bool)
        ensures
            r <==> self is Alive,
    {
        matches!(self, Cell::Alive)
    }

    /// Returns whether the cell is considered dead.
    pub fn is_dead(self) -> (r: bool)
        ensures
            r <==> self is Dead,
    {
        matches!(self, Cell::Dead)
    }
}

/// The full rectangular matrix of cells plus its dimensions.
///
/// Cells are stored row-major: the cell at row `r`, column `c` sits at
/// index `r * width + c`.
#[derive(Debug)]
pub struct Universe {
    width: u32,
    height: u32,
    cells: Vec<Cell>,
}

impl Universe {
    /// The number of columns, as a mathematical integer.
    pub closed spec fn spec_width(self) -> int {
        self.width as int
    }

    /// The number of rows, as a mathematical integer.
    pub closed spec fn spec_height(self) -> int {
        self.height as int
    }

    /// The row-major cell sequence.
    pub closed spec fn grid(self) -> Seq<Cell> {
        self.cells@
    }

    /// Every live `Universe` satisfies this: the cell sequence has exactly
    /// `width * height` entries, and that product fits in a `u32` (so
    /// row-major index arithmetic never overflows).
    pub open spec fn well_formed(self) -> bool {
        &&& self.grid().len() == self.spec_width() * self.spec_height()
        &&& self.spec_width() * self.spec_height() <= u32::MAX
    }

    /// Whether `(r, c)` addresses a cell of the grid.
    pub open spec fn in_bounds(self, r: int, c: int) -> bool {
        &&& 0 <= r < self.spec_height()
        &&& 0 <= c < self.spec_width()
    }

    /// The cell at row `r`, column `c`.
    pub open spec fn cell_at(self, r: int, c: int) -> Cell {
        self.grid()[r * self.spec_width() + c]
    }

    /// Returns the width of the universe.
    pub fn width(&self) -> (r: u32)
        ensures
            r == self.spec_width(),
    {
        self.width
    }

    /// Returns the height of the universe.
    pub fn height(&self) -> (r: u32)
        ensures
            r == self.spec_height(),
    {
        self.height
    }

    /// Creates a [`Universe`] from the provided `cells` and `width`.
    ///
    /// # Errors
    ///
    /// Returns an error if:
    /// - `cells` is empty
    /// - `width` is zero
    /// - the length of `cells` is not a multiple of `width`
    pub fn try_with_cells(cells: Vec<Cell>, width: u32) -> (r: Result<Universe, &'static str>)
        requires
            cells@.len() <= u32::MAX,
        ensures
            (r is Ok) <==> (cells@.len() > 0 && width > 0 && cells@.len() as int % (width as int)
                == 0),
            (r matches Ok(u) ==> {
                &&& u.well_formed()
                &&& u.spec_width() == width as int
                &&& u.spec_height() == cells@.len() as int / (width as int)
                &&& u.grid() == cells@
            }),
            cells@.len() == 0 ==> (r matches Err(e) && e@ == "Cells cannot be empty"@),
            cells@.len() > 0 && width == 0 ==> (r matches Err(e) && e@
                == "Width cannot be zero"@),
            cells@.len() > 0 && width > 0 && cells@.len() as int % (width as int) != 0 ==> (
            r matches Err(e) && e@ == "Cells length must be a multiple of width"@),
    {
        if cells.is_empty() {
            Err("Cells cannot be empty")
        } else if width == 0 {
            Err("Width cannot be zero")
        } else if cells.len() % (width as usize) != 0 {
            Err("Cells length must be a multiple of width")
        } else {
            let height = (cells.len() as u32) / width;
            proof {
                lemma_fundamental_div_mod(cells@.len() as int, width as int);
            }
            Ok(Universe { width, height, cells })
        }
    }

    /// Creates a [`Universe`] from the provided dimensions and `fill`
    /// function.
    ///
    /// `fill` is invoked exactly once per cell, in row-major order: row 0
    /// column 0, row 0 column 1, ..., then row 1, and so on. Dimensions of
    /// zero are not an error: they yield an empty grid.
    pub fn with_size_filled<F: Fn(u32, u32) -> Cell>(width: u32, height: u32, fill: F) -> (r:
        Universe)
        requires
            width * height <= u32::MAX,
            forall|row: u32, col: u32|
                row < height && col < width ==> call_requires(fill, (row, col)),
        ensures
            r.well_formed(),
            r.spec_width() == width as int,
            r.spec_height() == height as int,
            forall|row: u32, col: u32|
                row < height && col < width ==> call_ensures(
                    fill,
                    (row, col),
                    #[trigger] r.cell_at(row as int, col as int),
                ),
    {
        let mut cells: Vec<Cell> = Vec::new();
        let mut row: u32 = 0;
        while row < height
            invariant
                row <= height,
                width * height <= u32::MAX,
                forall|r2: u32, c2: u32|
                    r2 < height && c2 < width ==> call_requires(fill, (r2, c2)),
                cells@.len() == row * width,
                forall|j: int|
                    0 <= j < cells@.len() ==> call_ensures(
                        fill,
                        ((j / (width as int)) as u32, (j % (width as int)) as u32),
                        #[trigger] cells@[j],
                    ),
            decreases height - row,
        {
            let mut col: u32 = 0;
            while col < width
                invariant
                    row < height,
                    col <= width,
                    width * height <= u32::MAX,
                    forall|r2: u32, c2: u32|
                        r2 < height && c2 < width ==> call_requires(fill, (r2, c2)),
                    cells@.len() == row * width + col,
                    forall|j: int|
                        0 <= j < cells@.len() ==> call_ensures(
                            fill,
                            ((j / (width as int)) as u32, (j % (width as int)) as u32),
                            #[trigger] cells@[j],
                        ),
                decreases width - col,
            {
                let c = fill(row, col);
                proof {
                    lemma_row_major_index(width as int, height as int, row as int, col as int);
                }
                cells.push(c);
                col = col + 1;
            }
            proof {
                assert((row as int + 1) * (width as int) == row as int * (width as int)
                    + width as int) by (nonlinear_arith);
            }
            row = row + 1;
        }
        let u = Universe { width, height, cells };
        proof {
            lemma_mul_is_commutative(height as int, width as int);
            assert forall|r2: u32, c2: u32| r2 < height && c2 < width implies call_ensures(
                fill,
                (r2, c2),
                #[trigger] u.cell_at(r2 as int, c2 as int),
            ) by {
                lemma_row_major_index(width as int, height as int, r2 as int, c2 as int);
            };
        }
        u
    }

    /// 1 if `(r, c)` is a cell of the grid and alive, 0 otherwise.
    pub open spec fn alive_at(self, r: int, c: int) -> nat {
        if self.in_bounds(r, c) && self.cell_at(r, c) is Alive {
            1nat
        } else {
            0nat
        }
    }

    /// 1 if `(r, c)` is a cell of the grid, 0 otherwise.
    pub open spec fn candidate_at(self, r: int, c: int) -> nat {
        if self.in_bounds(r, c) {
            1nat
        } else {
            0nat
        }
    }

    /// The number of in-bounds, alive cells among the up to 8 positions
    /// adjacent (including diagonals) to `(r, c)`. Candidates beyond the
    /// edges of the grid are not counted: the grid does not wrap.
    pub open spec fn live_neighbors(self, r: int, c: int) -> nat {
        self.alive_at(r - 1, c - 1) + self.alive_at(r - 1, c) + self.alive_at(r - 1, c + 1)
            + self.alive_at(r, c - 1) + self.alive_at(r, c + 1) + self.alive_at(r + 1, c - 1)
            + self.alive_at(r + 1, c) + self.alive_at(r + 1, c + 1)
    }

    /// How many of the 8 neighbor offsets of `(r, c)` land inside the grid.
    pub open spec fn candidate_count(self, r: int, c: int) -> nat {
        self.candidate_at(r - 1, c - 1) + self.candidate_at(r - 1, c) + self.candidate_at(
            r - 1,
            c + 1,
        ) + self.candidate_at(r, c - 1) + self.candidate_at(r, c + 1) + self.candidate_at(
            r + 1,
            c - 1,
        ) + self.candidate_at(r + 1, c) + self.candidate_at(r + 1, c + 1)
    }

    /// The next generation: every cell's state after one tick, each computed
    /// from the current grid only.
    pub open spec fn next_gen(self) -> Seq<Cell> {
        Seq::new(
            self.grid().len(),
            |i: int|
                next_state(
                    self.grid()[i],
                    self.live_neighbors(i / self.spec_width(), i % self.spec_width()),
                ),
        )
    }

    /// Returns the index of the cell at the provided position.
    fn get_index(&self, row: u32, col: u32) -> (i: usize)
        requires
            self.well_formed(),
            (row as int) < self.spec_height(),
            (col as int) < self.spec_width(),
        ensures
            i == row as int * self.spec_width() + col as int,
            i < self.grid().len(),
    {
        proof {
            lemma_row_major_index(self.spec_width(), self.spec_height(), row as int, col as int);
        }
        (row * self.width + col) as usize
    }

    /// Returns the cell at the provided position.
    ///
    /// If the position is out of bounds, returns `None`.
    fn get_cell(&self, row: u32, col: u32) -> (r: Option<Cell>)
        requires
            self.well_formed(),
        ensures
            r == (if self.in_bounds(row as int, col as int) {
                Some(self.cell_at(row as int, col as int))
            } else {
                None::<Cell>
            }),
    {
        if row < self.height && col < self.width {
            Some(self.cells[self.get_index(row, col)])
        } else {
            None
        }
    }

    /// Appends a neighbor candidate to `v` if it exists: an out-of-bounds
    /// candidate arrives as `None` and leaves `v` unchanged.
    fn push_neighbor(v: &mut Vec<Cell>, c: Option<Cell>)
        ensures
            final(v)@.len() as int == old(v)@.len() as int + (if c is Some {
                1int
            } else {
                0int
            }),
            count_alive(final(v)@) == count_alive(old(v)@) + (if c matches Some(x) && x is Alive {
                1nat
            } else {
                0nat
            }),
    {
        match c {
            Some(x) => {
                proof {
                    lemma_count_alive_push(v@, x);
                }
                v.push(x);
            },
            None => {},
        }
    }

    /// Collects the in-bounds neighbors of the given cell position, visiting
    /// the 8 candidate offsets clockwise from north-west and silently
    /// skipping the ones that fall outside the grid.
    ///
    /// For a given cell, `◼`:
    /// ```txt
    /// 123
    /// 4◼5
    /// 678
    /// ```
    #[verifier::rlimit(60)]
    fn iter_neighbors(&self, row: u32, col: u32) -> (r: Vec<Cell>)
        requires
            self.well_formed(),
            (row as int) < self.spec_height(),
            (col as int) < self.spec_width(),
        ensures
            r@.len() == self.candidate_count(row as int, col as int),
            count_alive(r@) == self.live_neighbors(row as int, col as int),
    {
        let ghost r0: int = row as int;
        let ghost c0: int = col as int;
        let mut v: Vec<Cell> = Vec::new();
        if row > 0 && col > 0 {
            Self::push_neighbor(&mut v, self.get_cell(row - 1, col - 1));
        }
        assert(v@.len() == self.candidate_at(r0 - 1, c0 - 1));
        assert(count_alive(v@) == self.alive_at(r0 - 1, c0 - 1));
        if row > 0 {
            Self::push_neighbor(&mut v, self.get_cell(row - 1, col));
        }
        assert(v@.len() == self.candidate_at(r0 - 1, c0 - 1) + self.candidate_at(r0 - 1, c0));
        assert(count_alive(v@) == self.alive_at(r0 - 1, c0 - 1) + self.alive_at(r0 - 1, c0));
        if row > 0 {
            Self::push_neighbor(&mut v, self.get_cell(row - 1, col + 1));
        }
        assert(v@.len() == self.candidate_at(r0 - 1, c0 - 1) + self.candidate_at(r0 - 1, c0)
            + self.candidate_at(r0 - 1, c0 + 1));
        assert(count_alive(v@) == self.alive_at(r0 - 1, c0 - 1) + self.alive_at(r0 - 1, c0)
            + self.alive_at(r0 - 1, c0 + 1));
        if col > 0 {
            Self::push_neighbor(&mut v, self.get_cell(row, col - 1));
        }
        assert(v@.len() == self.candidate_at(r0 - 1, c0 - 1) + self.candidate_at(r0 - 1, c0)
            + self.candidate_at(r0 - 1, c0 + 1) + self.candidate_at(r0, c0 - 1));
        assert(count_alive(v@) == self.alive_at(r0 - 1, c0 - 1) + self.alive_at(r0 - 1, c0)
            + self.alive_at(r0 - 1, c0 + 1) + self.alive_at(r0, c0 - 1));
        Self::push_neighbor(&mut v, self.get_cell(row, col + 1));
        assert(v@.len() == self.candidate_at(r0 - 1, c0 - 1) + self.candidate_at(r0 - 1, c0)
            + self.candidate_at(r0 - 1, c0 + 1) + self.candidate_at(r0, c0 - 1)
            + self.candidate_at(r0, c0 + 1));
        assert(count_alive(v@) == self.alive_at(r0 - 1, c0 - 1) + self.alive_at(r0 - 1, c0)
            + self.alive_at(r0 - 1, c0 + 1) + self.alive_at(r0, c0 - 1) + self.alive_at(
            r0,
            c0 + 1,
        ));
        if col > 0 {
            Self::push_neighbor(&mut v, self.get_cell(row + 1, col - 1));
        }
        assert(v@.len() == self.candidate_at(r0 - 1, c0 - 1) + self.candidate_at(r0 - 1, c0)
            + self.candidate_at(r0 - 1, c0 + 1) + self.candidate_at(r0, c0 - 1)
            + self.candidate_at(r0, c0 + 1) + self.candidate_at(r0 + 1, c0 - 1));
        assert(count_alive(v@) == self.alive_at(r0 - 1, c0 - 1) + self.alive_at(r0 - 1, c0)
            + self.alive_at(r0 - 1, c0 + 1) + self.alive_at(r0, c0 - 1) + self.alive_at(r0, c0 + 1)
            + self.alive_at(r0 + 1, c0 - 1));
        Self::push_neighbor(&mut v, self.get_cell(row + 1, col));
        assert(v@.len() == self.candidate_at(r0 - 1, c0 - 1) + self.candidate_at(r0 - 1, c0)
            + self.candidate_at(r0 - 1, c0 + 1) + self.candidate_at(r0, c0 - 1)
            + self.candidate_at(r0, c0 + 1) + self.candidate_at(r0 + 1, c0 - 1) + self.candidate_at(
            r0 + 1,
            c0,
        ));
        assert(count_alive(v@) == self.alive_at(r0 - 1, c0 - 1) + self.alive_at(r0 - 1, c0)
            + self.alive_at(r0 - 1, c0 + 1) + self.alive_at(r0, c0 - 1) + self.alive_at(r0, c0 + 1)
            + self.alive_at(r0 + 1, c0 - 1) + self.alive_at(r0 + 1, c0));
        Self::push_neighbor(&mut v, self.get_cell(row + 1, col + 1));
        assert(v@.len() == self.candidate_count(r0, c0));
        assert(count_alive(v@) == self.live_neighbors(r0, c0));
        v
    }

    /// Returns the alive neighbor count of the cell at the given position.
    fn live_neighbor_count(&self, row: u32, col: u32) -> (n: u8)
        requires
            self.well_formed(),
            (row as int) < self.spec_height(),
            (col as int) < self.spec_width(),
        ensures
            n == self.live_neighbors(row as int, col as int),
            n <= 8,
    {
        let neighbors = self.iter_neighbors(row, col);
        let mut n: u8 = 0;
        let mut i: usize = 0;
        while i < neighbors.len()
            invariant
                i <= neighbors@.len(),
                neighbors@.len() <= 8,
                n <= i,
                n == count_alive(neighbors@.take(i as int)),
            decreases neighbors@.len() - i,
        {
            proof {
                assert(neighbors@.take(i as int + 1).drop_last() =~= neighbors@.take(i as int));
                assert(neighbors@.take(i as int + 1).last() == neighbors@[i as int]);
            }
            if neighbors[i].is_alive() {
                n = n + 1;
            }
            i = i + 1;
        }
        proof {
            assert(neighbors@.take(neighbors@.len() as int) =~= neighbors@);
        }
        n
    }

    /// Ticks the universe forward by one step.
    ///
    /// The whole next generation is computed from the unmodified current
    /// grid and swapped in at once; no cell observes another cell's
    /// already-updated next state.
    pub fn tick(&mut self)
        requires
            old(self).well_formed(),
        ensures
            final(self).well_formed(),
            final(self).spec_width() == old(self).spec_width(),
            final(self).spec_height() == old(self).spec_height(),
            final(self).grid() == old(self).next_gen(),
    {
        let len = self.cells.len();
        let mut next: Vec<Cell> = Vec::new();
        let mut i: usize = 0;
        while i < len
            invariant
                *self == *old(self),
                self.well_formed(),
                len == self.grid().len(),
                i <= len,
                next@.len() == i,
                forall|j: int| 0 <= j < i ==> next@[j] == self.next_gen()[j],
            decreases len - i,
        {
            proof {
                assert(self.spec_width() > 0) by (nonlinear_arith)
                    requires
                        self.spec_width() * self.spec_height() > i,
                        self.spec_width() >= 0,
                        i >= 0,
                ;
                lemma_index_to_row_col(self.spec_width(), self.spec_height(), i as int);
            }
            let row = (i / (self.width as usize)) as u32;
            let col = (i % (self.width as usize)) as u32;
            let cell = self.cells[i];
            let live = self.live_neighbor_count(row, col);
            let new_cell = if live == 3 || (live == 2 && cell.is_alive()) {
                Cell::Alive
            } else {
                Cell::Dead
            };
            next.push(new_cell);
            i = i + 1;
        }
        proof {
            assert(next@ =~= old(self).next_gen());
        }
        self.cells = next;
    }

    /// Collects every cell together with its row and column, in row-major
    /// order, reflecting the grid's state at call time.
    pub fn iter_cells(&self) -> (r: Vec<(Cell, u32, u32)>)
        requires
            self.well_formed(),
        ensures
            r@.len() == self.grid().len(),
            forall|i: int|
                0 <= i < r@.len() ==> #[trigger] r@[i] == (
                    self.grid()[i],
                    (i / self.spec_width()) as u32,
                    (i % self.spec_width()) as u32,
                ),
    {
        let len = self.cells.len();
        let mut r: Vec<(Cell, u32, u32)> = Vec::new();
        let mut i: usize = 0;
        while i < len
            invariant
                len == self.grid().len(),
                self.well_formed(),
                i <= len,
                r@.len() == i,
                forall|j: int|
                    0 <= j < i ==> #[trigger] r@[j] == (
                        self.grid()[j],
                        (j / self.spec_width()) as u32,
                        (j % self.spec_width()) as u32,
                    ),
            decreases len - i,
        {
            proof {
                assert(self.spec_width() > 0) by (nonlinear_arith)
                    requires
                        self.spec_width() * self.spec_height() > i,
                        self.spec_width() >= 0,
                        i >= 0,
                ;
                lemma_index_to_row_col(self.spec_width(), self.spec_height(), i as int);
            }
            let row = (i / (self.width as usize)) as u32;
            let col = (i % (self.width as usize)) as u32;
            r.push((self.cells[i], row, col));
            i = i + 1;
        }
        r
    }
}

/// In a well-formed universe, the next generation at row `r`, column `c` is
/// the transition rule applied to the current cell and its live-neighbor
/// count.
pub proof fn lemma_next_gen_cell(u: Universe, r: int, c: int)
    requires
        u.well_formed(),
        u.in_bounds(r, c),
    ensures
        u.next_gen().len() == u.grid().len(),
        u.next_gen()[r * u.spec_width() + c] == next_state(u.cell_at(r, c), u.live_neighbors(r, c)),
{
    lemma_row_major_index(u.spec_width(), u.spec_height(), r, c);
}

/// Empty-grid idempotence: in an all-dead grid every cell has zero live
/// neighbors, so one tick changes nothing, and the result is all dead
/// again — hence any number of ticks leaves the grid all dead.
pub proof fn lemma_dead_grid_stays_dead(u: Universe)
    requires
        u.well_formed(),
        forall|i: int| 0 <= i < u.grid().len() ==> (#[trigger] u.grid()[i]) is Dead,
    ensures
        u.next_gen() == u.grid(),
        forall|i: int| 0 <= i < u.next_gen().len() ==> (#[trigger] u.next_gen()[i]) is Dead,
{
    assert forall|r: int, c: int| #![trigger u.alive_at(r, c)] u.alive_at(r, c) == 0 by {
        if u.in_bounds(r, c) {
            lemma_row_major_index(u.spec_width(), u.spec_height(), r, c);
        }
    };
    assert forall|i: int| 0 <= i < u.grid().len() implies u.next_gen()[i] == u.grid()[i] by {
        assert(u.live_neighbors(i / u.spec_width(), i % u.spec_width()) == 0);
    };
    assert(u.next_gen() =~= u.grid());
}

/// Still life: a 2-by-2 block of alive cells lying inside the grid, with
/// every other cell dead, is unchanged by one tick. Each block cell has
/// exactly 3 live neighbors and survives; no dead cell sees more than 2.
#[verifier::rlimit(80)]
pub proof fn lemma_block_is_still(u: Universe, r0: int, c0: int)
    requires
        u.well_formed(),
        0 <= r0,
        r0 + 1 < u.spec_height(),
        0 <= c0,
        c0 + 1 < u.spec_width(),
        forall|r: int, c: int|
            u.in_bounds(r, c) ==> ((#[trigger] u.cell_at(r, c)) is Alive <==> (r0 <= r <= r0 + 1
                && c0 <= c <= c0 + 1)),
    ensures
        u.next_gen() == u.grid(),
{
    let w = u.spec_width();
    let h = u.spec_height();
    assert forall|i: int| 0 <= i < u.grid().len() implies u.next_gen()[i] == u.grid()[i] by {
        assert(w > 0) by (nonlinear_arith)
            requires
                w * h > i,
                w >= 0,
                i >= 0,
        ;
        lemma_index_to_row_col(w, h, i);
        let r = i / w;
        let c = i % w;
        lemma_row_major_index(w, h, r, c);
        assert forall|r2: int, c2: int| #![trigger u.alive_at(r2, c2)]
            u.in_bounds(r2, c2) implies u.alive_at(r2, c2) == (if r0 <= r2 <= r0 + 1 && c0 <= c2
            <= c0 + 1 {
            1nat
        } else {
            0nat
        }) by {
            lemma_row_major_index(w, h, r2, c2);
        };
        assert(u.next_gen()[i] == next_state(u.cell_at(r, c), u.live_neighbors(r, c)));
    };
    assert(u.next_gen() =~= u.grid());
}

/// Edge truncation at a corner: a cell in a corner of the grid has at most
/// 3 in-bounds neighbor candidates.
pub proof fn lemma_corner_candidates(u: Universe, r: int, c: int)
    requires
        u.well_formed(),
        u.in_bounds(r, c),
        r == 0 || r == u.spec_height() - 1,
        c == 0 || c == u.spec_width() - 1,
    ensures
        u.candidate_count(r, c) <= 3,
{
}

/// Edge truncation on an edge: a cell on any edge of the grid has at most
/// 5 in-bounds neighbor candidates.
pub proof fn lemma_edge_candidates(u: Universe, r: int, c: int)
    requires
        u.well_formed(),
        u.in_bounds(r, c),
        r == 0 || r == u.spec_height() - 1 || c == 0 || c == u.spec_width() - 1,
    ensures
        u.candidate_count(r, c) <= 5,
{
}

} // verus!
