//! The executable board.

use vstd::prelude::*;
use crate::cell::CellState;
use crate::grid::Grid;

verus! {

/// Why a call on a board was rejected.
#[derive(Clone, Copy, PartialEq, Eq, Structural, Debug)]
pub enum BoardError {
    /// A board was asked for with no columns or no rows.
    InvalidDimensions,
    /// A coordinate does not name a cell of the board.
    IndexOutOfBounds,
}

/// A board of cells, stored row by row, together with a buffer that holds the
/// generation an update reads from.
pub struct Board {
    cells: Vec<CellState>,
    previous: Vec<CellState>,
    width: usize,
    height: usize,
}

impl View for Board {
    type V = Grid;

    closed spec fn view(&self) -> Grid {
        stored_grid(self.cells@, self.width as nat, self.height as nat)
    }
}

impl Clone for Board {
    /// A second board that shows the same grid.
    fn clone(&self) -> (copy: Board)
        ensures
            copy@ == self@,
    {
        proof {
            use_type_invariant(self);
        }
        let cells = self.cells.clone();
        let previous = self.previous.clone();
        assert(cells@ =~= self.cells@);
        Board { cells, previous, width: self.width, height: self.height }
    }
}

impl Board {
    #[verifier::type_invariant]
    spec fn well_formed(&self) -> bool {
        &&& self.width > 0
        &&& self.height > 0
        &&& self.cells@.len() == self.width * self.height
        &&& self.previous@.len() == self.width * self.height
    }

    /// The generation that an update in progress reads its neighbours from.
    closed spec fn snapshot(&self) -> Grid {
        stored_grid(self.previous@, self.width as nat, self.height as nat)
    }

    /// Creates a board of `width` columns and `height` rows on which every cell is
    /// dead. A board without columns or without rows is refused.
    pub fn new(width: usize, height: usize) -> (made: Result<Board, BoardError>)
        requires
            width * height <= usize::MAX,
        ensures
            match made {
                Ok(board) => {
                    &&& width > 0
                    &&& height > 0
                    &&& board@ == Grid::blank(width as nat, height as nat)
                    &&& board@.wf()
                    &&& forall|x: int, y: int| #[trigger] board@.state_at(x, y) == CellState::Dead
                },
                Err(error) => {
                    &&& width == 0 || height == 0
                    &&& error == BoardError::InvalidDimensions
                },
            },
    {
        if width == 0 || height == 0 {
            return Err(BoardError::InvalidDimensions);
        }
        let cells = vec![CellState::Dead; width * height];
        let previous = cells.clone();
        let board = Board { cells, previous, width, height };
        proof {
            board.lemma_grids();
            assert forall|p: (int, int)| !board@.alive.contains(p) by {
                if board@.in_bounds(p.0, p.1) {
                    board.lemma_cell(p.0, p.1);
                }
            }
            assert(board@.alive =~= Set::<(int, int)>::empty());
        }
        Ok(board)
    }

    /// The number of columns.
    pub fn width(&self) -> (width: usize)
        ensures
            width == self@.width,
            self@.wf(),
    {
        proof {
            use_type_invariant(self);
            self.lemma_grids();
        }
        self.width
    }

    /// The number of rows.
    pub fn height(&self) -> (height: usize)
        ensures
            height == self@.height,
            self@.wf(),
    {
        proof {
            use_type_invariant(self);
            self.lemma_grids();
        }
        self.height
    }

    /// Reads the cell in column `x` and row `y`. A coordinate off the board is
    /// refused.
    pub fn get(&self, x: usize, y: usize) -> (found: Result<CellState, BoardError>)
        ensures
            match found {
                Ok(state) => {
                    &&& self@.in_bounds(x as int, y as int)
                    &&& state == self@.state_at(x as int, y as int)
                },
                Err(error) => {
                    &&& !self@.in_bounds(x as int, y as int)
                    &&& error == BoardError::IndexOutOfBounds
                },
            },
            self@.wf(),
    {
        proof {
            use_type_invariant(self);
            self.lemma_grids();
        }
        if x >= self.width || y >= self.height {
            return Err(BoardError::IndexOutOfBounds);
        }
        proof {
            self.lemma_cell(x as int, y as int);
        }
        let index = self.index_of(x, y);
        Ok(self.cells[index])
    }

    /// Flips the cell in column `x` and row `y` and leaves every other cell as it
    /// is. A coordinate off the board is refused, and the board stays unchanged.
    pub fn toggle_cell_state(&mut self, x: usize, y: usize) -> (done: Result<(), BoardError>)
        ensures
            match done {
                Ok(()) => {
                    &&& old(self)@.in_bounds(x as int, y as int)
                    &&& final(self)@ == old(self)@.toggle(x as int, y as int)
                },
                Err(error) => {
                    &&& !old(self)@.in_bounds(x as int, y as int)
                    &&& error == BoardError::IndexOutOfBounds
                    &&& final(self)@ == old(self)@
                },
            },
            final(self)@.wf(),
    {
        proof {
            use_type_invariant(&*self);
            self.lemma_grids();
        }
        if x >= self.width || y >= self.height {
            return Err(BoardError::IndexOutOfBounds);
        }
        let index = self.index_of(x, y);
        let state = self.cells[index].toggled();
        proof {
            self.lemma_cell(x as int, y as int);
            self.lemma_write(x as int, y as int, state);
        }
        self.cells[index] = state;
        Ok(())
    }

    /// Advances the board by one generation. All cells change at once: each is
    /// judged by the states that it and its neighbours had before the call.
    pub fn update_board(&mut self)
        ensures
            final(self)@ == old(self)@.step(),
            final(self)@.wf(),
    {
        proof {
            use_type_invariant(&*self);
            self.lemma_grids();
        }
        let ghost before = self@;
        let width = self.width;
        let height = self.height;
        self.previous = self.cells.clone();
        proof {
            assert(self.previous@ =~= self.cells@);
            lemma_sweep_start(before);
        }
        for x in 0..width
            invariant
                width == self.width,
                height == self.height,
                before.wf(),
                before.width == width,
                before.height == height,
                self.snapshot() == before,
                self@ == swept(before, x as int, 0),
        {
            for y in 0..height
                invariant
                    width == self.width,
                    height == self.height,
                    before.wf(),
                    before.width == width,
                    before.height == height,
                    self.snapshot() == before,
                    0 <= x < width,
                    self@ == swept(before, x as int, y as int),
            {
                proof {
                    lemma_sweep_cell(before, x as int, y as int);
                }
                self.update_cell_state(x, y);
            }
            proof {
                lemma_sweep_column(before, x as int);
            }
        }
        proof {
            lemma_sweep_end(before);
            before.lemma_step_wf();
        }
    }

    /// Brings the cell in column `x` and row `y` to the state that the snapshot
    /// gives it for the next generation. The count of its neighbours is complete
    /// before the rule is applied, and no other cell changes.
    fn update_cell_state(&mut self, x: usize, y: usize)
        requires
            old(self)@.in_bounds(x as int, y as int),
        ensures
            final(self).width == old(self).width,
            final(self).height == old(self).height,
            final(self).snapshot() == old(self).snapshot(),
            final(self)@ == old(self)@.with_cell(
                x as int,
                y as int,
                old(self)@.state_at(x as int, y as int).successor(
                    old(self).snapshot().alive_neighbours(x as int, y as int),
                ),
            ),
    {
        proof {
            use_type_invariant(&*self);
            self.lemma_grids();
            self.lemma_cell(x as int, y as int);
        }
        let alive_neighbours = self.alive_neighbours(x, y);
        let index = self.index_of(x, y);
        let state = self.cells[index].next(alive_neighbours);
        proof {
            self.lemma_write(x as int, y as int, state);
        }
        self.cells[index] = state;
    }

    /// Counts the live neighbours that the cell in column `x` and row `y` has in
    /// the snapshot. The columns and rows that are searched are cut off at the
    /// borders of the board, so only cells of the board are read.
    fn alive_neighbours(&self, x: usize, y: usize) -> (count: u8)
        requires
            self.snapshot().in_bounds(x as int, y as int),
        ensures
            count == self.snapshot().alive_neighbours(x as int, y as int),
    {
        proof {
            use_type_invariant(self);
            self.lemma_grids();
        }
        let ghost grid = self.snapshot();
        let x_first = if x == 0 {
            0
        } else {
            x - 1
        };
        let y_first = if y == 0 {
            0
        } else {
            y - 1
        };
        let x_end = if x + 1 < self.width {
            x + 2
        } else {
            self.width
        };
        let y_end = if y + 1 < self.height {
            y + 2
        } else {
            self.height
        };
        let mut count: u8 = 0;
        for nx in x_first..x_end
            invariant
                grid == self.snapshot(),
                grid.wf(),
                grid.in_bounds(x as int, y as int),
                x_first == if x == 0 { 0 } else { x - 1 },
                y_first == if y == 0 { 0 } else { y - 1 },
                x_end == if x + 1 < grid.width { x + 2 } else { grid.width as int },
                y_end == if y + 1 < grid.height { y + 2 } else { grid.height as int },
                count == columns_count(grid, x as int, y as int, nx as int),
        {
            for ny in y_first..y_end
                invariant
                    grid == self.snapshot(),
                    grid.wf(),
                    grid.in_bounds(x as int, y as int),
                    x_first <= nx < x_end,
                    x_first == if x == 0 { 0 } else { x - 1 },
                    y_first == if y == 0 { 0 } else { y - 1 },
                    x_end == if x + 1 < grid.width { x + 2 } else { grid.width as int },
                    y_end == if y + 1 < grid.height { y + 2 } else { grid.height as int },
                    count == columns_count(grid, x as int, y as int, nx as int) + column_count(
                        grid,
                        x as int,
                        y as int,
                        nx as int,
                        ny as int,
                    ),
            {
                proof {
                    use_type_invariant(self);
                    self.lemma_grids();
                    self.lemma_cell(nx as int, ny as int);
                }
                if nx != x || ny != y {
                    let index = self.index_of(nx, ny);
                    if self.previous[index] == CellState::Alive {
                        count += 1;
                    }
                }
            }
        }
        count
    }

    /// Where the cell in column `x` and row `y` is stored.
    fn index_of(&self, x: usize, y: usize) -> (index: usize)
        requires
            x < self.width,
            y < self.height,
        ensures
            index == y * self.width + x,
            index < self.cells@.len(),
            index < self.previous@.len(),
    {
        proof {
            use_type_invariant(self);
            lemma_index_in_range(x as int, y as int, self.width as int, self.height as int);
            assert(self.cells.len() <= usize::MAX);
        }
        y * self.width + x
    }

    /// Both grids of a board are well formed and have the dimensions of the board.
    proof fn lemma_grids(&self)
        requires
            self.well_formed(),
        ensures
            self@.wf(),
            self@.width == self.width,
            self@.height == self.height,
            self.snapshot().wf(),
            self.snapshot().width == self.width,
            self.snapshot().height == self.height,
    {
        reveal(stored_grid);
    }

    /// The cell at `(x, y)` of either grid is the one stored at `y * width + x`.
    proof fn lemma_cell(&self, x: int, y: int)
        requires
            self.well_formed(),
            0 <= x < self.width,
            0 <= y < self.height,
        ensures
            0 <= y * self.width + x < self.width * self.height,
            self@.state_at(x, y) == self.cells@[y * self.width + x],
            self.snapshot().state_at(x, y) == self.previous@[y * self.width + x],
    {
        reveal(stored_grid);
        lemma_index_in_range(x, y, self.width as int, self.height as int);
    }

    /// Storing `state` at `y * width + x` changes the cell at `(x, y)` of the grid
    /// and no other.
    proof fn lemma_write(&self, x: int, y: int, state: CellState)
        requires
            self.well_formed(),
            0 <= x < self.width,
            0 <= y < self.height,
        ensures
            stored_grid(
                self.cells@.update(y * self.width + x, state),
                self.width as nat,
                self.height as nat,
            ) == self@.with_cell(x, y, state),
    {
        reveal(stored_grid);
        let width = self.width as int;
        let height = self.height as int;
        lemma_index_in_range(x, y, width, height);
        let written = stored_grid(
            self.cells@.update(y * width + x, state),
            self.width as nat,
            self.height as nat,
        );
        assert forall|p: (int, int)|
            written.alive.contains(p) == self@.with_cell(x, y, state).alive.contains(p) by {
            if self@.in_bounds(p.0, p.1) {
                lemma_index_in_range(p.0, p.1, width, height);
                if p != (x, y) && p.1 * width + p.0 == y * width + x {
                    lemma_index_injective(p.0, p.1, x, y, width);
                }
            }
        }
        assert(written.alive =~= self@.with_cell(x, y, state).alive);
    }
}

/// The grid that `cells` stores row by row.
#[verifier::opaque]
spec fn stored_grid(cells: Seq<CellState>, width: nat, height: nat) -> Grid {
    Grid {
        width,
        height,
        alive: Set::new(
            |p: (int, int)|
                0 <= p.0 < width && 0 <= p.1 < height && cells[p.1 * width + p.0]
                    == CellState::Alive,
        ),
    }
}

/// What the coordinate `(nx, ny)` adds to the neighbour count of `(x, y)`.
spec fn counted(grid: Grid, x: int, y: int, nx: int, ny: int) -> int {
    if nx == x && ny == y {
        0
    } else {
        grid.population_at(nx, ny)
    }
}

/// What column `nx` adds to the neighbour count of `(x, y)` in the rows before `row`.
spec fn column_count(grid: Grid, x: int, y: int, nx: int, row: int) -> int {
    (if y - 1 < row {
        counted(grid, x, y, nx, y - 1)
    } else {
        0
    }) + (if y < row {
        counted(grid, x, y, nx, y)
    } else {
        0
    }) + (if y + 1 < row {
        counted(grid, x, y, nx, y + 1)
    } else {
        0
    })
}

/// What the columns before `column` add to the neighbour count of `(x, y)`.
spec fn columns_count(grid: Grid, x: int, y: int, column: int) -> int {
    (if x - 1 < column {
        column_count(grid, x, y, x - 1, y + 2)
    } else {
        0
    }) + (if x < column {
        column_count(grid, x, y, x, y + 2)
    } else {
        0
    }) + (if x + 1 < column {
        column_count(grid, x, y, x + 1, y + 2)
    } else {
        0
    })
}

/// The board that an update of `before` has made once it has dealt with every
/// column left of `x` and, in column `x`, with every row above `y`: those cells hold
/// their next state, all others the state they have on `before`.
#[verifier::opaque]
spec fn swept(before: Grid, x: int, y: int) -> Grid {
    Grid {
        alive: Set::new(
            |p: (int, int)|
                before.in_bounds(p.0, p.1) && CellState::Alive == if p.0 < x || (p.0 == x && p.1
                    < y) {
                    before.next_state_at(p.0, p.1)
                } else {
                    before.state_at(p.0, p.1)
                },
        ),
        ..before
    }
}

proof fn lemma_index_in_range(x: int, y: int, width: int, height: int)
    by (nonlinear_arith)
    requires
        0 <= x < width,
        0 <= y < height,
    ensures
        0 <= y * width + x < width * height,
        0 <= y * width <= y * width + x,
{
    assert(y * width <= (height - 1) * width);
    assert((height - 1) * width == height * width - width);
}

proof fn lemma_index_injective(x1: int, y1: int, x2: int, y2: int, width: int)
    by (nonlinear_arith)
    requires
        0 <= x1 < width,
        0 <= x2 < width,
        y1 * width + x1 == y2 * width + x2,
    ensures
        x1 == x2,
        y1 == y2,
{
    if y1 < y2 {
        assert((y1 + 1) * width <= y2 * width);
        assert((y1 + 1) * width == y1 * width + width);
    } else if y2 < y1 {
        assert((y2 + 1) * width <= y1 * width);
        assert((y2 + 1) * width == y2 * width + width);
    }
}

proof fn lemma_sweep_start(before: Grid)
    requires
        before.wf(),
    ensures
        swept(before, 0, 0) == before,
{
    reveal(swept);
    assert(swept(before, 0, 0).alive =~= before.alive);
}

proof fn lemma_sweep_cell(before: Grid, x: int, y: int)
    requires
        before.in_bounds(x, y),
    ensures
        swept(before, x, y).in_bounds(x, y),
        swept(before, x, y).state_at(x, y) == before.state_at(x, y),
        swept(before, x, y).with_cell(x, y, before.next_state_at(x, y)) == swept(
            before,
            x,
            y + 1,
        ),
{
    reveal(swept);
    assert(swept(before, x, y).with_cell(x, y, before.next_state_at(x, y)).alive =~= swept(
        before,
        x,
        y + 1,
    ).alive);
}

proof fn lemma_sweep_column(before: Grid, x: int)
    ensures
        swept(before, x, before.height as int) == swept(before, x + 1, 0),
{
    reveal(swept);
    assert(swept(before, x, before.height as int).alive =~= swept(before, x + 1, 0).alive);
}

proof fn lemma_sweep_end(before: Grid)
    ensures
        swept(before, before.width as int, 0) == before.step(),
{
    reveal(swept);
    assert(swept(before, before.width as int, 0).alive =~= before.step().alive);
}

} // verus!
