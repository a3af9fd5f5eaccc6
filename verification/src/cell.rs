//! The state of a single cell and the rule that takes it to the next generation.

use vstd::prelude::*;

verus! {

/// Whether a cell holds life.
#[derive(Clone, Copy, PartialEq, Eq, Structural, Debug)]
pub enum CellState {
    Alive,
    Dead,
}

impl CellState {
    /// The opposite state.
    pub open spec fn flipped(self) -> CellState {
        match self {
            CellState::Alive => CellState::Dead,
            CellState::Dead => CellState::Alive,
        }
    }

    /// The state of a cell in the next generation, given how many of its neighbours
    /// are alive now: fewer than two or more than three kill it, exactly three bring
    /// it to life, and exactly two leave it as it is.
    pub open spec fn successor(self, alive_neighbours: int) -> CellState {
        if alive_neighbours <= 1 {
            CellState::Dead
        } else if alive_neighbours == 2 {
            self
        } else if alive_neighbours == 3 {
            CellState::Alive
        } else {
            CellState::Dead
        }
    }

    /// Returns the opposite state.
    pub fn toggled(self) -> (flipped: CellState)
        ensures
            flipped == self.flipped(),
    {
        match self {
            CellState::Alive => CellState::Dead,
            CellState::Dead => CellState::Alive,
        }
    }

    /// Applies the rule of the game to one cell.
    pub fn next(self, alive_neighbours: u8) -> (state: CellState)
        ensures
            state == self.successor(alive_neighbours as int),
    {
        match alive_neighbours {
            0..=1 => CellState::Dead,
            2 => self,
            3 => CellState::Alive,
            _ => CellState::Dead,
        }
    }
}

} // verus!
