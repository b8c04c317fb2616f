//! The board and its generations.

use vstd::prelude::*;
use crate::cell::Cell;
use crate::locator::{col_of, index_of, neighbors_of, on_grid, place, row_of};
use crate::locator::{lemma_index_round_trip, lemma_position_in_range};

verus! {

/// The mathematical content of a board: its dimensions and its cells, row by
/// row.
pub struct Grid {
    pub width: nat,
    pub height: nat,
    pub cells: Seq<Cell>,
}

/// The default pattern: the cell at `index` starts alive where `index` is a
/// multiple of 4, of 7 or of 17.
pub open spec fn seed(index: int) -> Cell {
    if index % 4 == 0 || index % 7 == 0 || index % 17 == 0 {
        Cell::Alive
    } else {
        Cell::Dead
    }
}

impl Grid {
    /// The grid holds one cell for each position.
    pub open spec fn wf(self) -> bool {
        self.cells.len() == self.width * self.height
    }

    /// The grid of the given dimensions in the default pattern.
    pub open spec fn seeded(width: nat, height: nat) -> Grid {
        Grid { width, height, cells: Seq::new(width * height, |i: int| seed(i)) }
    }

    /// 1 if (`row`, `col`) is on the grid and the cell there is alive, else 0.
    /// A position off the grid counts as dead.
    pub open spec fn alive_at(self, row: int, col: int) -> int {
        if on_grid(row, col, self.width as int, self.height as int) && self.cells[index_of(
            row,
            col,
            self.width as int,
        )] == Cell::Alive {
            1
        } else {
            0
        }
    }

    /// How many of the eight positions around the cell at `index` hold a live
    /// cell.
    pub open spec fn live_neighbors(self, index: int) -> int {
        let row = row_of(index, self.width as int);
        let col = col_of(index, self.width as int);
        self.alive_at(row - 1, col - 1) + self.alive_at(row - 1, col) + self.alive_at(
            row - 1,
            col + 1,
        ) + self.alive_at(row, col - 1) + self.alive_at(row, col + 1) + self.alive_at(
            row + 1,
            col - 1,
        ) + self.alive_at(row + 1, col) + self.alive_at(row + 1, col + 1)
    }

    /// The next generation: every cell follows the rule on its live
    /// neighbours in this generation.
    pub open spec fn step(self) -> Grid {
        Grid {
            width: self.width,
            height: self.height,
            cells: Seq::new(
                self.cells.len(),
                |i: int| self.cells[i].next(self.live_neighbors(i)),
            ),
        }
    }

    /// How many of the listed positions hold a live cell.
    spec fn live_among(self, targets: Seq<(u32, u32)>) -> int
        decreases targets.len(),
    {
        if targets.len() == 0 {
            0
        } else {
            self.live_among(targets.drop_last()) + self.alive_at(
                targets.last().0 as int,
                targets.last().1 as int,
            )
        }
    }
}

/// A bounded grid of cells, stored row by row.
pub struct GameBoard {
    width: u32,
    height: u32,
    cells: Vec<Cell>,
}

impl View for GameBoard {
    type V = Grid;

    closed spec fn view(&self) -> Grid {
        Grid { width: self.width as nat, height: self.height as nat, cells: self.cells@ }
    }
}

impl GameBoard {
    #[verifier::type_invariant]
    spec fn inv(self) -> bool {
        &&& self.cells@.len() == self.width * self.height
        &&& self.width * self.height <= u32::MAX
    }

    /// A board of `w` columns and `h` rows in the default pattern. A zero
    /// dimension gives a board without cells.
    pub fn new(w: u32, h: u32) -> (board: GameBoard)
        requires
            w * h <= u32::MAX,
        ensures
            board@ == Grid::seeded(w as nat, h as nat),
    {
        let count: u32 = w * h;
        let mut cells: Vec<Cell> = Vec::with_capacity(count as usize);
        let mut i: u32 = 0;
        while i < count
            invariant
                i <= count,
                cells@.len() == i,
                forall|j: int| 0 <= j < i ==> cells@[j] == seed(j),
            decreases count - i,
        {
            let cell = if i % 4 == 0 || i % 7 == 0 || i % 17 == 0 {
                Cell::Alive
            } else {
                Cell::Dead
            };
            cells.push(cell);
            i += 1;
        }
        assert(cells@ =~= Grid::seeded(w as nat, h as nat).cells);
        GameBoard { width: w, height: h, cells }
    }

    /// A board of `w` columns and `h` rows that holds the given cells, row by
    /// row; `None` unless there are exactly `w * h` of them and that product
    /// fits a `u32`.
    pub fn from_cells(w: u32, h: u32, cells: Vec<Cell>) -> (board: Option<GameBoard>)
        ensures
            board.is_some() <==> cells@.len() == w * h && w * h <= u32::MAX,
            board.is_some() ==> board.unwrap()@ == (Grid {
                width: w as nat,
                height: h as nat,
                cells: cells@,
            }),
    {
        match w.checked_mul(h) {
            Some(count) => {
                if cells.len() == count as usize {
                    Some(GameBoard { width: w, height: h, cells })
                } else {
                    None
                }
            },
            None => None,
        }
    }

    /// The number of columns.
    pub fn width(&self) -> (w: u32)
        ensures
            w == self@.width,
    {
        self.width
    }

    /// The number of rows.
    pub fn height(&self) -> (h: u32)
        ensures
            h == self@.height,
    {
        self.height
    }

    /// The current generation, row by row: one cell for each position.
    pub fn cells(&self) -> (cells: &[Cell])
        ensures
            cells@ == self@.cells,
            self@.wf(),
            cells@.len() <= u32::MAX,
    {
        proof {
            use_type_invariant(self);
        }
        self.cells.as_slice()
    }

    /// How many neighbours of the cell at `index` are alive.
    fn live_neighbor_count(&self, index: u32) -> (live: usize)
        requires
            index < self@.cells.len(),
        ensures
            live == self@.live_neighbors(index as int),
    {
        proof {
            use_type_invariant(self);
            assert(self.width > 0) by (nonlinear_arith)
                requires
                    index < self.width * self.height,
            ;
        }
        let targets = GameBoard::get_target(index, self.width, self.height);
        let mut live: usize = 0;
        let mut k: usize = 0;
        while k < targets.len()
            invariant
                k <= targets.len(),
                live <= k,
                live == self@.live_among(targets@.take(k as int)),
                self.cells@.len() == self.width * self.height,
                self.width * self.height <= u32::MAX,
                forall|r: u32, c: u32|
                    #[trigger] targets@.contains((r, c)) ==> on_grid(
                        r as int,
                        c as int,
                        self.width as int,
                        self.height as int,
                    ),
            decreases targets.len() - k,
        {
            let (row, col) = targets[k];
            proof {
                assert(targets@.contains((row, col)));
                lemma_position_in_range(
                    row as int,
                    col as int,
                    self.width as int,
                    self.height as int,
                );
                assert(targets@.take(k + 1).drop_last() =~= targets@.take(k as int));
            }
            let at = GameBoard::get_index(row, col, self.width);
            let cell = if (at as usize) < self.cells.len() {
                self.cells[at as usize]
            } else {
                Cell::Dead
            };
            if cell.is_alive() {
                live += 1;
            }
            k += 1;
        }
        proof {
            assert(targets@.take(k as int) =~= targets@);
            lemma_live_among_neighbors(self@, index as int);
        }
        live
    }

    /// Advances the board by one generation. Every cell of the new generation
    /// is computed from the old one; the dimensions stay.
    pub fn tick(&mut self)
        ensures
            final(self)@ == old(self)@.step(),
            final(self)@.wf(),
    {
        proof {
            use_type_invariant(&*self);
        }
        let count = self.cells.len();
        let mut next: Vec<Cell> = Vec::with_capacity(count);
        let mut i: usize = 0;
        while i < count
            invariant
                i <= count,
                count == self.cells@.len(),
                count <= u32::MAX,
                *self == *old(self),
                next@.len() == i,
                forall|j: int|
                    0 <= j < i ==> next@[j] == self@.cells[j].next(self@.live_neighbors(j)),
            decreases count - i,
        {
            let live = self.live_neighbor_count(i as u32);
            let cell = self.cells[i].next_state(live);
            next.push(cell);
            i += 1;
        }
        assert(next@ =~= old(self)@.step().cells);
        self.cells = next;
    }
}

/// The next generation has the dimensions of this one, and a cell for each
/// position where this one has.
pub proof fn lemma_step_keeps_shape(grid: Grid)
    ensures
        grid.step().width == grid.width,
        grid.step().height == grid.height,
        grid.step().cells.len() == grid.cells.len(),
        grid.wf() ==> grid.step().wf(),
{
}

/// A grid with a zero dimension has no cells, and its next generation is the
/// grid itself.
pub proof fn lemma_empty_grid_is_fixed(grid: Grid)
    requires
        grid.wf(),
        grid.width == 0 || grid.height == 0,
    ensures
        grid.cells.len() == 0,
        grid.step() == grid,
{
    assert(grid.width * grid.height == 0) by (nonlinear_arith)
        requires
            grid.width == 0 || grid.height == 0,
    ;
    assert(grid.step().cells =~= grid.cells);
}

/// Reading a board twice gives the same: whatever two calls of `width`, of
/// `height` and of `cells` return for one board, with no `tick` between
/// them, is equal.
pub proof fn lemma_reads_agree(
    board: GameBoard,
    first: (u32, u32, Seq<Cell>),
    second: (u32, u32, Seq<Cell>),
)
    requires
        first.0 == board@.width && first.1 == board@.height && first.2 == board@.cells,
        second.0 == board@.width && second.1 == board@.height && second.2 == board@.cells,
    ensures
        first == second,
{
}

/// Appending a position adds what that position holds to the count.
proof fn lemma_live_among_place(grid: Grid, targets: Seq<(u32, u32)>, present: bool, r: int, c: int)
    requires
        present ==> 0 <= r <= u32::MAX && 0 <= c <= u32::MAX,
    ensures
        grid.live_among(targets + place(present, r, c)) == grid.live_among(targets) + (if present {
            grid.alive_at(r, c)
        } else {
            0
        }),
{
    let all = targets + place(present, r, c);
    if present {
        assert(all.drop_last() =~= targets);
        assert(all.last() == (r as u32, c as u32));
    } else {
        assert(all =~= targets);
    }
}

/// Counting the live cells among the enumerated neighbours of a cell gives
/// the number of live cells around it.
proof fn lemma_live_among_neighbors(grid: Grid, index: int)
    requires
        0 <= index <= u32::MAX,
        0 < grid.width <= u32::MAX,
        grid.height <= u32::MAX,
    ensures
        grid.live_among(neighbors_of(index, grid.width as int, grid.height as int))
            == grid.live_neighbors(index),
{
    let width = grid.width as int;
    let height = grid.height as int;
    let row = row_of(index, width);
    let col = col_of(index, width);
    lemma_index_round_trip(index, width);
    let next_row = 0 <= row + 1 < height;
    let same_row = 0 <= row < height;
    let prev_row = 0 <= row - 1 < height;
    let next_col = 0 <= col + 1 < width;
    let prev_col = 0 <= col - 1 < width;
    let s0 = Seq::<(u32, u32)>::empty();
    let s1 = s0 + place(next_row, row + 1, col);
    let s2 = s1 + place(prev_row, row - 1, col);
    let s3 = s2 + place(same_row && next_col, row, col + 1);
    let s4 = s3 + place(same_row && prev_col, row, col - 1);
    let s5 = s4 + place(next_row && next_col, row + 1, col + 1);
    let s6 = s5 + place(next_row && prev_col, row + 1, col - 1);
    let s7 = s6 + place(prev_row && next_col, row - 1, col + 1);
    let s8 = s7 + place(prev_row && prev_col, row - 1, col - 1);
    lemma_live_among_place(grid, s0, next_row, row + 1, col);
    lemma_live_among_place(grid, s1, prev_row, row - 1, col);
    lemma_live_among_place(grid, s2, same_row && next_col, row, col + 1);
    lemma_live_among_place(grid, s3, same_row && prev_col, row, col - 1);
    lemma_live_among_place(grid, s4, next_row && next_col, row + 1, col + 1);
    lemma_live_among_place(grid, s5, next_row && prev_col, row + 1, col - 1);
    lemma_live_among_place(grid, s6, prev_row && next_col, row - 1, col + 1);
    lemma_live_among_place(grid, s7, prev_row && prev_col, row - 1, col - 1);
    assert(s1 =~= place(next_row, row + 1, col));
    assert(s8 == neighbors_of(index, width, height));
    assert(grid.live_among(s0) == 0);
}

} // verus!
