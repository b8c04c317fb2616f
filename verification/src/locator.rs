//! Conversion between a linear cell index and (row, column), and the
//! neighbours of a cell on a bounded grid.

use vstd::prelude::*;
use vstd::arithmetic::div_mod::lemma_fundamental_div_mod_converse;
use crate::board::GameBoard;

verus! {

/// The row of the cell with linear index `index` on a grid `width` wide.
pub open spec fn row_of(index: int, width: int) -> int {
    index / width
}

/// The column of the cell with linear index `index` on a grid `width` wide.
pub open spec fn col_of(index: int, width: int) -> int {
    index % width
}

/// The linear index of the cell at (`row`, `col`) on a grid `width` wide.
pub open spec fn index_of(row: int, col: int, width: int) -> int {
    row * width + col
}

/// (`r`, `c`) is one of the eight positions around (`row`, `col`).
pub open spec fn adjacent(row: int, col: int, r: int, c: int) -> bool {
    &&& row - 1 <= r <= row + 1
    &&& col - 1 <= c <= col + 1
    &&& (r != row || c != col)
}

/// (`r`, `c`) lies on a grid of `width` columns and `height` rows.
pub open spec fn on_grid(r: int, c: int, width: int, height: int) -> bool {
    0 <= r < height && 0 <= c < width
}

/// The position (`r`, `c`) if `present`, else nothing.
pub open spec fn place(present: bool, r: int, c: int) -> Seq<(u32, u32)> {
    if present {
        seq![(r as u32, c as u32)]
    } else {
        Seq::empty()
    }
}

/// The neighbours of the cell at `index` that lie on the grid, in the order in
/// which they are enumerated: the four that share a row or a column with the
/// cell, then the four diagonals.
pub open spec fn neighbors_of(index: int, width: int, height: int) -> Seq<(u32, u32)> {
    let row = row_of(index, width);
    let col = col_of(index, width);
    let next_row = 0 <= row + 1 < height;
    let same_row = 0 <= row < height;
    let prev_row = 0 <= row - 1 < height;
    let next_col = 0 <= col + 1 < width;
    let prev_col = 0 <= col - 1 < width;
    place(next_row, row + 1, col) + place(prev_row, row - 1, col)
        + place(same_row && next_col, row, col + 1) + place(same_row && prev_col, row, col - 1)
        + place(next_row && next_col, row + 1, col + 1)
        + place(next_row && prev_col, row + 1, col - 1)
        + place(prev_row && next_col, row - 1, col + 1)
        + place(prev_row && prev_col, row - 1, col - 1)
}

/// How many of `at - 1`, `at`, `at + 1` lie in `[0, limit)`.
pub open spec fn span(at: int, limit: int) -> int {
    (if 0 <= at - 1 < limit { 1int } else { 0 }) + (if 0 <= at < limit { 1int } else { 0 })
        + (if 0 <= at + 1 < limit { 1int } else { 0 })
}

/// How many positions around (`row`, `col`) lie on the grid: the rows in
/// reach times the columns in reach, less the cell itself where it is on the
/// grid.
pub open spec fn neighbor_count(row: int, col: int, width: int, height: int) -> int {
    span(row, height) * span(col, width) - (if on_grid(row, col, width, height) { 1int } else { 0 })
}

impl GameBoard {
    /// Row and column of the cell with linear index `index`.
    pub fn get_row_col(index: u32, w: u32) -> (pos: (u32, u32))
        requires
            w > 0,
        ensures
            pos.0 == row_of(index as int, w as int),
            pos.1 == col_of(index as int, w as int),
            pos.1 < w,
    {
        let row: u32 = index / w;
        let col: u32 = index % w;
        (row, col)
    }

    /// Linear index of the cell at (`row`, `col`).
    pub fn get_index(row: u32, col: u32, w: u32) -> (index: u32)
        requires
            index_of(row as int, col as int, w as int) <= u32::MAX,
        ensures
            index == index_of(row as int, col as int, w as int),
    {
        row * w + col
    }

    /// The neighbours of the cell at `index` on a grid of `w` columns and `h`
    /// rows. The grid does not wrap: a position off the grid is left out.
    pub fn get_target(index: u32, w: u32, h: u32) -> (targets: Vec<(u32, u32)>)
        requires
            w > 0,
        ensures
            forall|r: u32, c: u32|
                #[trigger] targets@.contains((r, c)) <==> on_grid(
                    r as int,
                    c as int,
                    w as int,
                    h as int,
                ) && adjacent(
                    row_of(index as int, w as int),
                    col_of(index as int, w as int),
                    r as int,
                    c as int,
                ),
            targets@.no_duplicates(),
            targets@.len() == neighbor_count(
                row_of(index as int, w as int),
                col_of(index as int, w as int),
                w as int,
                h as int,
            ),
            targets@ == neighbors_of(index as int, w as int, h as int),
    {
        let (row, col) = GameBoard::get_row_col(index, w);
        let next_row = row < h && h - row > 1;
        let same_row = row < h;
        let prev_row = row > 0 && row <= h;
        let next_col = w - col > 1;
        let prev_col = col > 0;
        let mut targets: Vec<(u32, u32)> = Vec::with_capacity(8);
        if next_row {
            targets.push((row + 1, col));
        }
        if prev_row {
            targets.push((row - 1, col));
        }
        if same_row && next_col {
            targets.push((row, col + 1));
        }
        if same_row && prev_col {
            targets.push((row, col - 1));
        }
        if next_row && next_col {
            targets.push((row + 1, col + 1));
        }
        if next_row && prev_col {
            targets.push((row + 1, col - 1));
        }
        if prev_row && next_col {
            targets.push((row - 1, col + 1));
        }
        if prev_row && prev_col {
            targets.push((row - 1, col - 1));
        }
        proof {
            assert(targets@ =~= neighbors_of(index as int, w as int, h as int));
            lemma_neighbors_exact(index as int, w as int, h as int);
        }
        targets
    }
}

/// The enumeration of neighbours is exact: it holds no position twice, it
/// holds a position if and only if that position is on the grid and around
/// the cell, and its length is `neighbor_count`.
pub proof fn lemma_neighbors_exact(index: int, width: int, height: int)
    requires
        0 <= index <= u32::MAX,
        0 < width <= u32::MAX,
        0 <= height <= u32::MAX,
    ensures
        neighbors_of(index, width, height).no_duplicates(),
        forall|r: u32, c: u32|
            #[trigger] neighbors_of(index, width, height).contains((r, c)) <==> on_grid(
                r as int,
                c as int,
                width,
                height,
            ) && adjacent(row_of(index, width), col_of(index, width), r as int, c as int),
        neighbors_of(index, width, height).len() == neighbor_count(
            row_of(index, width),
            col_of(index, width),
            width,
            height,
        ),
{
    let row = row_of(index, width);
    let col = col_of(index, width);
    lemma_index_round_trip(index, width);
    let next_row = 0 <= row + 1 < height;
    let same_row = 0 <= row < height;
    let prev_row = 0 <= row - 1 < height;
    let next_col = 0 <= col + 1 < width;
    let prev_col = 0 <= col - 1 < width;
    let s0 = Seq::<(u32, u32)>::empty();
    let s1 = s0 + place(next_row, row + 1, col);
    let s2 = s1 + place(prev_row, row - 1, col);
    let s3 = s2 + place(same_row && next_col, row, col + 1);
    let s4 = s3 + place(same_row && prev_col, row, col - 1);
    let s5 = s4 + place(next_row && next_col, row + 1, col + 1);
    let s6 = s5 + place(next_row && prev_col, row + 1, col - 1);
    let s7 = s6 + place(prev_row && next_col, row - 1, col + 1);
    let s8 = s7 + place(prev_row && prev_col, row - 1, col - 1);
    lemma_append_place(s0, next_row, row + 1, col);
    lemma_append_place(s1, prev_row, row - 1, col);
    lemma_append_place(s2, same_row && next_col, row, col + 1);
    lemma_append_place(s3, same_row && prev_col, row, col - 1);
    lemma_append_place(s4, next_row && next_col, row + 1, col + 1);
    lemma_append_place(s5, next_row && prev_col, row + 1, col - 1);
    lemma_append_place(s6, prev_row && next_col, row - 1, col + 1);
    lemma_append_place(s7, prev_row && prev_col, row - 1, col - 1);
    assert(s1 =~= place(next_row, row + 1, col));
    assert(s8 == neighbors_of(index, width, height));
    assert forall|r: u32, c: u32|
        s8.contains((r, c)) <==> on_grid(r as int, c as int, width, height) && adjacent(
            row,
            col,
            r as int,
            c as int,
        ) by {
        let p = (r, c);
        assert(!s0.contains(p));
        assert(s1.contains(p) <==> s0.contains(p) || (next_row && p == ((row + 1) as u32, col as u32)));
        assert(s2.contains(p) <==> s1.contains(p) || (prev_row && p == ((row - 1) as u32, col as u32)));
        assert(s3.contains(p) <==> s2.contains(p) || (same_row && next_col && p == (
            row as u32,
            (col + 1) as u32,
        )));
        assert(s4.contains(p) <==> s3.contains(p) || (same_row && prev_col && p == (
            row as u32,
            (col - 1) as u32,
        )));
        assert(s5.contains(p) <==> s4.contains(p) || (next_row && next_col && p == (
            (row + 1) as u32,
            (col + 1) as u32,
        )));
        assert(s6.contains(p) <==> s5.contains(p) || (next_row && prev_col && p == (
            (row + 1) as u32,
            (col - 1) as u32,
        )));
        assert(s7.contains(p) <==> s6.contains(p) || (prev_row && next_col && p == (
            (row - 1) as u32,
            (col + 1) as u32,
        )));
        assert(s8.contains(p) <==> s7.contains(p) || (prev_row && prev_col && p == (
            (row - 1) as u32,
            (col - 1) as u32,
        )));
    }
    let rows = span(row, height);
    let cols = span(col, width);
    assert(s8.len() == rows * cols - (if same_row { 1int } else { 0 })) by {
        if cols == 1 {
            assert(rows * cols == rows) by (nonlinear_arith)
                requires
                    cols == 1,
            ;
        } else if cols == 2 {
            assert(rows * cols == 2 * rows) by (nonlinear_arith)
                requires
                    cols == 2,
            ;
        } else {
            assert(rows * cols == 3 * rows) by (nonlinear_arith)
                requires
                    cols == 3,
            ;
        }
    }
}

/// Appending a position that the sequence does not hold yet keeps it free of
/// duplicates and adds exactly that position.
proof fn lemma_append_place(s: Seq<(u32, u32)>, present: bool, r: int, c: int)
    requires
        s.no_duplicates(),
        present ==> !s.contains((r as u32, c as u32)),
    ensures
        (s + place(present, r, c)).no_duplicates(),
        (s + place(present, r, c)).len() == s.len() + (if present { 1int } else { 0 }),
        forall|p: (u32, u32)|
            (s + place(present, r, c)).contains(p) <==> s.contains(p) || (present && p == (
                r as u32,
                c as u32,
            )),
{
    let t = s + place(present, r, c);
    if present {
        assert(t =~= s.push((r as u32, c as u32)));
        assert(t[s.len() as int] == (r as u32, c as u32));
        assert forall|p: (u32, u32)| s.contains(p) implies t.contains(p) by {
            let k = choose|k: int| 0 <= k < s.len() && s[k] == p;
            assert(t[k] == p);
        }
    } else {
        assert(t =~= s);
    }
}

/// Row and column of an index lead back to the index: for a non-negative
/// index and a positive width, `index_of` undoes `row_of` and `col_of`. The
/// row is non-negative and no larger than the index, the column is below the
/// width.
pub proof fn lemma_index_round_trip(index: int, width: int)
    requires
        0 <= index,
        0 < width,
    ensures
        index_of(row_of(index, width), col_of(index, width), width) == index,
        0 <= row_of(index, width) <= index,
        0 <= col_of(index, width) < width,
{
    assert(0 <= index / width <= index && 0 <= index % width < width && index == (index / width)
        * width + index % width) by (nonlinear_arith)
        requires
            0 <= index,
            0 < width,
    ;
}

/// The index of a position leads back to the position: where the column is
/// below the width, `row_of` and `col_of` undo `index_of`.
pub proof fn lemma_position_round_trip(row: int, col: int, width: int)
    requires
        0 <= col < width,
    ensures
        row_of(index_of(row, col, width), width) == row,
        col_of(index_of(row, col, width), width) == col,
{
    lemma_fundamental_div_mod_converse(row * width + col, width, row, col);
}

/// An index below `width * height` lies on the grid.
pub proof fn lemma_index_on_grid(index: int, width: int, height: int)
    requires
        0 <= index < width * height,
        0 <= width,
    ensures
        on_grid(row_of(index, width), col_of(index, width), width, height),
{
    assert(0 < width && 0 <= index / width < height && 0 <= index % width < width)
        by (nonlinear_arith)
        requires
            0 <= index < width * height,
            0 <= width,
    ;
}

/// A position on the grid has its linear index below `width * height`.
pub proof fn lemma_position_in_range(row: int, col: int, width: int, height: int)
    requires
        on_grid(row, col, width, height),
    ensures
        0 <= index_of(row, col, width) < width * height,
{
    assert(0 <= row * width + col < width * height) by (nonlinear_arith)
        requires
            0 <= row < height,
            0 <= col < width,
    ;
}

/// On a grid at least two wide and two high, every enumerated neighbour of a
/// cell of the grid is on the grid, and there are three of them for a cell in
/// a corner, five for a cell on an edge that is no corner, and eight for
/// every other cell.
pub proof fn lemma_neighbor_counts(index: u32, width: u32, height: u32)
    requires
        width >= 2,
        height >= 2,
        index < width * height,
    ensures
        ({
            let row = row_of(index as int, width as int);
            let col = col_of(index as int, width as int);
            let neighbors = neighbors_of(index as int, width as int, height as int);
            let edge_row = row == 0 || row == height - 1;
            let edge_col = col == 0 || col == width - 1;
            &&& forall|k: int|
                0 <= k < neighbors.len() ==> on_grid(
                    (#[trigger] neighbors[k]).0 as int,
                    neighbors[k].1 as int,
                    width as int,
                    height as int,
                )
            &&& edge_row && edge_col ==> neighbors.len() == 3
            &&& edge_row != edge_col ==> neighbors.len() == 5
            &&& !edge_row && !edge_col ==> neighbors.len() == 8
        }),
{
    let row = row_of(index as int, width as int);
    let col = col_of(index as int, width as int);
    let neighbors = neighbors_of(index as int, width as int, height as int);
    lemma_index_on_grid(index as int, width as int, height as int);
    lemma_neighbors_exact(index as int, width as int, height as int);
    assert forall|k: int| 0 <= k < neighbors.len() implies on_grid(
        (#[trigger] neighbors[k]).0 as int,
        neighbors[k].1 as int,
        width as int,
        height as int,
    ) by {
        assert(neighbors.contains((neighbors[k].0, neighbors[k].1)));
    }
    let rows = span(row, height as int);
    let cols = span(col, width as int);
    assert(neighbors.len() == rows * cols - 1);
    assert(rows * cols == (if rows == 2 { 2 * cols } else { 3 * cols })) by (nonlinear_arith)
        requires
            rows == 2 || rows == 3,
    ;
}

} // verus!
