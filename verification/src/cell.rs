//! The state of one grid position and the birth/survival rule.

use vstd::prelude::*;

verus! {

/// One grid position: dead or alive.
#[derive(Clone, Copy, Debug, PartialEq, Eq, Structural)]
pub enum Cell {
    Dead,
    Alive,
}

impl Cell {
    /// The rule B3/S23: a dead cell with exactly three live neighbours is
    /// born, a live cell with two or three survives, every other cell is dead
    /// in the next generation.
    pub open spec fn next(self, live: int) -> Cell {
        match self {
            Cell::Dead => if live == 3 {
                Cell::Alive
            } else {
                Cell::Dead
            },
            Cell::Alive => if live == 2 || live == 3 {
                Cell::Alive
            } else {
                Cell::Dead
            },
        }
    }

    /// Whether this cell is alive.
    pub fn is_alive(&self) -> (alive: bool)
        ensures
            alive == (*self == Cell::Alive),
    {
        *self == Cell::Alive
    }

    /// The state of this cell in the next generation, given how many of its
    /// neighbours are alive now.
    pub fn next_state(self, live_neighbors: usize) -> (next: Cell)
        ensures
            next == self.next(live_neighbors as int),
    {
        match self {
            Cell::Dead => if live_neighbors == 3 {
                Cell::Alive
            } else {
                Cell::Dead
            },
            Cell::Alive => if live_neighbors == 2 || live_neighbors == 3 {
                Cell::Alive
            } else {
                Cell::Dead
            },
        }
    }
}

/// The rule as a table: birth on exactly three live neighbours, survival on
/// two or three, death by underpopulation below two and by overcrowding above
/// three; a dead cell stays dead on every count but three.
pub proof fn lemma_rule_table(current: Cell, live: int)
    ensures
        current == Cell::Dead && live == 3 ==> current.next(live) == Cell::Alive,
        current == Cell::Dead && live != 3 ==> current.next(live) == Cell::Dead,
        current == Cell::Alive && (live == 2 || live == 3) ==> current.next(live) == Cell::Alive,
        current == Cell::Alive && live < 2 ==> current.next(live) == Cell::Dead,
        current == Cell::Alive && live > 3 ==> current.next(live) == Cell::Dead,
{
}

} // verus!
