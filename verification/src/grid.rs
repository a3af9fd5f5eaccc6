//! The mathematical model of a board: its dimensions and the set of live coordinates.

use vstd::prelude::*;
use crate::cell::CellState;

verus! {

/// A board as a mathematical value. A coordinate `(x, y)` names the cell in column
/// `x` and row `y`; a cell is alive exactly when its coordinate is in `alive`.
pub struct Grid {
    pub width: nat,
    pub height: nat,
    pub alive: Set<(int, int)>,
}

impl Grid {
    /// Whether `(x, y)` names a cell of the board.
    pub open spec fn in_bounds(self, x: int, y: int) -> bool {
        0 <= x < self.width && 0 <= y < self.height
    }

    /// A board has at least one cell, and only cells of the board are alive.
    pub open spec fn wf(self) -> bool {
        &&& self.width > 0
        &&& self.height > 0
        &&& forall|p: (int, int)| self.alive.contains(p) ==> self.in_bounds(p.0, p.1)
    }

    /// The state of the cell at `(x, y)`. Coordinates off the board are dead.
    pub open spec fn state_at(self, x: int, y: int) -> CellState {
        if self.alive.contains((x, y)) {
            CellState::Alive
        } else {
            CellState::Dead
        }
    }

    /// One if `(x, y)` is alive, zero otherwise.
    pub open spec fn population_at(self, x: int, y: int) -> int {
        if self.alive.contains((x, y)) {
            1
        } else {
            0
        }
    }

    /// One if `(x, y)` is a cell of the board, zero otherwise.
    pub open spec fn presence_at(self, x: int, y: int) -> int {
        if self.in_bounds(x, y) {
            1
        } else {
            0
        }
    }

    /// How many of the eight coordinates around `(x, y)` are alive.
    pub open spec fn alive_neighbours(self, x: int, y: int) -> int {
        self.population_at(x - 1, y - 1) + self.population_at(x - 1, y)
            + self.population_at(x - 1, y + 1) + self.population_at(x, y - 1)
            + self.population_at(x, y + 1) + self.population_at(x + 1, y - 1)
            + self.population_at(x + 1, y) + self.population_at(x + 1, y + 1)
    }

    /// How many of the eight coordinates around `(x, y)` are cells of the board.
    pub open spec fn candidate_neighbours(self, x: int, y: int) -> int {
        self.presence_at(x - 1, y - 1) + self.presence_at(x - 1, y)
            + self.presence_at(x - 1, y + 1) + self.presence_at(x, y - 1)
            + self.presence_at(x, y + 1) + self.presence_at(x + 1, y - 1)
            + self.presence_at(x + 1, y) + self.presence_at(x + 1, y + 1)
    }

    /// Whether `(x, y)` lies in a first or last column and in a first or last row.
    pub open spec fn is_corner(self, x: int, y: int) -> bool {
        &&& self.in_bounds(x, y)
        &&& x == 0 || x == self.width - 1
        &&& y == 0 || y == self.height - 1
    }

    /// Whether `(x, y)` lies on the border of the board without being a corner.
    pub open spec fn is_edge(self, x: int, y: int) -> bool {
        &&& self.in_bounds(x, y)
        &&& !self.is_corner(x, y)
        &&& x == 0 || x == self.width - 1 || y == 0 || y == self.height - 1
    }

    /// Whether `(x, y)` is a cell with all eight neighbours on the board.
    pub open spec fn is_interior(self, x: int, y: int) -> bool {
        0 < x < self.width - 1 && 0 < y < self.height - 1
    }

    /// The board of the given dimensions on which nothing lives.
    pub open spec fn blank(width: nat, height: nat) -> Grid {
        Grid { width, height, alive: Set::empty() }
    }

    /// The same board with the cell at `(x, y)` set to `state`.
    pub open spec fn with_cell(self, x: int, y: int, state: CellState) -> Grid {
        Grid {
            alive: match state {
                CellState::Alive => self.alive.insert((x, y)),
                CellState::Dead => self.alive.remove((x, y)),
            },
            ..self
        }
    }

    /// The same board with the cell at `(x, y)` flipped.
    pub open spec fn toggle(self, x: int, y: int) -> Grid {
        self.with_cell(x, y, self.state_at(x, y).flipped())
    }

    /// The state of the cell at `(x, y)` one generation later. Every cell is judged
    /// by the states that it and its neighbours have on this board.
    pub open spec fn next_state_at(self, x: int, y: int) -> CellState {
        self.state_at(x, y).successor(self.alive_neighbours(x, y))
    }

    /// The next generation: all cells advance at once.
    pub open spec fn step(self) -> Grid {
        Grid {
            alive: Set::new(
                |p: (int, int)|
                    self.in_bounds(p.0, p.1) && self.next_state_at(p.0, p.1) == CellState::Alive,
            ),
            ..self
        }
    }

    /// The board after `n` generations.
    pub open spec fn generations(self, n: nat) -> Grid
        decreases n,
    {
        if n == 0 {
            self
        } else {
            self.step().generations((n - 1) as nat)
        }
    }

    /// The two-by-two square of cells whose least coordinate is `(x, y)`.
    pub open spec fn block(x: int, y: int) -> Set<(int, int)> {
        Set::new(|p: (int, int)| x <= p.0 <= x + 1 && y <= p.1 <= y + 1)
    }
}

impl Grid {
    /// On a blank board every cell is dead.
    pub proof fn lemma_blank_all_dead(width: nat, height: nat)
        ensures
            forall|x: int, y: int| #[trigger]
                Grid::blank(width, height).state_at(x, y) == CellState::Dead,
            width > 0 && height > 0 ==> Grid::blank(width, height).wf(),
    {
    }

    /// Toggling a cell flips that cell and changes no other.
    pub proof fn lemma_toggle_one_cell(self, x: int, y: int)
        ensures
            self.toggle(x, y).state_at(x, y) == self.state_at(x, y).flipped(),
            forall|i: int, j: int|
                (i, j) != (x, y) ==> #[trigger] self.toggle(x, y).state_at(i, j) == self.state_at(
                    i,
                    j,
                ),
            self.wf() && self.in_bounds(x, y) ==> self.toggle(x, y).wf(),
    {
    }

    /// Toggling the same cell twice gives the board back as it was.
    pub proof fn lemma_toggle_twice(self, x: int, y: int)
        ensures
            self.toggle(x, y).toggle(x, y) == self,
    {
        assert(self.toggle(x, y).toggle(x, y).alive =~= self.alive);
    }

    /// A generation leaves the dimensions as they are and brings life only to cells
    /// of the board.
    pub proof fn lemma_step_wf(self)
        requires
            self.wf(),
        ensures
            self.step().wf(),
            self.step().width == self.width,
            self.step().height == self.height,
    {
    }

    /// A cell of the next generation has the state that the rule gives it from this
    /// generation, whatever happens to the other cells.
    pub proof fn lemma_step_cell(self, x: int, y: int)
        requires
            self.in_bounds(x, y),
        ensures
            self.step().state_at(x, y) == self.next_state_at(x, y),
    {
    }

    /// A blank board stays blank.
    pub proof fn lemma_blank_stays_blank(width: nat, height: nat)
        ensures
            Grid::blank(width, height).step() == Grid::blank(width, height),
    {
        assert(Grid::blank(width, height).step().alive =~= Set::<(int, int)>::empty());
    }

    /// Only cells of the board count as neighbours: a corner has at most three
    /// of them, any other cell on the border at most five, and a cell away from the
    /// border exactly eight. No cell has more live neighbours than it has neighbours.
    pub proof fn lemma_neighbour_bounds(self, x: int, y: int)
        requires
            self.wf(),
        ensures
            0 <= self.alive_neighbours(x, y) <= self.candidate_neighbours(x, y) <= 8,
            self.is_corner(x, y) ==> self.candidate_neighbours(x, y) <= 3,
            self.is_edge(x, y) ==> self.candidate_neighbours(x, y) <= 5,
            self.is_interior(x, y) ==> self.candidate_neighbours(x, y) == 8,
            self.in_bounds(x, y) ==> (self.is_corner(x, y) || self.is_edge(x, y)
                || self.is_interior(x, y)),
    {
    }

    /// How many cells of the two-by-two block at `(x, y)` lie around `(i, j)`.
    spec fn block_neighbours(x: int, y: int, i: int, j: int) -> int {
        let columns: int = if i == x - 1 || i == x + 2 {
            1
        } else if i == x || i == x + 1 {
            2
        } else {
            0
        };
        let rows: int = if j == y - 1 || j == y + 2 {
            1
        } else if j == y || j == y + 1 {
            2
        } else {
            0
        };
        if x <= i <= x + 1 && y <= j <= y + 1 {
            3
        } else {
            columns * rows
        }
    }

    proof fn lemma_block_member(self, x: int, y: int, i: int, j: int)
        requires
            self.alive == Grid::block(x, y),
        ensures
            self.alive.contains((i, j)) == (x <= i <= x + 1 && y <= j <= y + 1),
    {
    }

    proof fn lemma_block_count(self, x: int, y: int, i: int, j: int)
        requires
            self.alive == Grid::block(x, y),
        ensures
            self.alive_neighbours(i, j) == Grid::block_neighbours(x, y, i, j),
            self.alive.contains((i, j)) == (x <= i <= x + 1 && y <= j <= y + 1),
    {
        self.lemma_block_member(x, y, i, j);
        self.lemma_block_member(x, y, i - 1, j - 1);
        self.lemma_block_member(x, y, i - 1, j);
        self.lemma_block_member(x, y, i - 1, j + 1);
        self.lemma_block_member(x, y, i, j - 1);
        self.lemma_block_member(x, y, i, j + 1);
        self.lemma_block_member(x, y, i + 1, j - 1);
        self.lemma_block_member(x, y, i + 1, j);
        self.lemma_block_member(x, y, i + 1, j + 1);
    }

    /// A two-by-two block of live cells on an otherwise dead board is the same one
    /// generation later: each of its cells has exactly three live neighbours, and no
    /// dead cell has three.
    pub proof fn lemma_block_is_still(self, x: int, y: int)
        requires
            self.wf(),
            self.alive == Grid::block(x, y),
        ensures
            self.step() == self,
            forall|i: int, j: int|
                self.alive.contains((i, j)) ==> #[trigger] self.alive_neighbours(i, j) == 3,
    {
        assert forall|p: (int, int)| self.step().alive.contains(p) == self.alive.contains(p) by {
            self.lemma_block_count(x, y, p.0, p.1);
        }
        assert forall|i: int, j: int| self.alive.contains((i, j)) implies #[trigger]
            self.alive_neighbours(i, j) == 3 by {
            self.lemma_block_count(x, y, i, j);
        }
        assert(self.step().alive =~= self.alive);
    }

    /// A two-by-two block of live cells on an otherwise dead board stays as it is for
    /// any number of generations.
    pub proof fn lemma_block_stays(self, x: int, y: int, n: nat)
        requires
            self.wf(),
            self.alive == Grid::block(x, y),
        ensures
            self.generations(n) == self,
        decreases n,
    {
        if n > 0 {
            self.lemma_block_is_still(x, y);
            self.lemma_block_stays(x, y, (n - 1) as nat);
        }
    }
}

} // verus!
