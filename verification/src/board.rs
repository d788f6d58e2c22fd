//! The board: an 8x8 grid of cells, stored row-major, and the two players.

use vstd::prelude::*;

verus! {

/// Side length of the board.
pub const SIZE: usize = 8;

#[derive(Clone, Copy, PartialEq, Eq, Structural, Debug)]
pub enum Player {
    Black,
    White,
}

impl Player {
    /// The other player; total and involutive (Black <-> White).
    pub open spec fn spec_opponent(self) -> Player {
        match self {
            Player::Black => Player::White,
            Player::White => Player::Black,
        }
    }

    #[verifier::when_used_as_spec(spec_opponent)]
    pub fn opponent(self) -> (other: Player)
        ensures
            other == self.spec_opponent(),
            other != self,
    {
        match self {
            Player::Black => Player::White,
            Player::White => Player::Black,
        }
    }
}

#[derive(Clone, Copy, PartialEq, Eq, Structural, Debug)]
pub enum Cell {
    Empty,
    Taken(Player),
}

/// Row-major index of the cell at (row, col).
pub open spec fn cell_index(row: int, col: int) -> int {
    row * 8 + col
}

/// Whether (row, col) lies on the board.
pub open spec fn on_board(row: int, col: int) -> bool {
    0 <= row < 8 && 0 <= col < 8
}

/// The cell of grid `g` at (row, col).
pub open spec fn cell_at(g: Seq<Cell>, row: int, col: int) -> Cell {
    g[cell_index(row, col)]
}

/// The canonical Othello start position: the four center cells are
/// pre-filled in the standard diagonal pattern, everything else is empty.
pub open spec fn start_grid() -> Seq<Cell> {
    Seq::new(64, |i: int|
        if i == cell_index(3, 3) || i == cell_index(4, 4) {
            Cell::Taken(Player::White)
        } else if i == cell_index(3, 4) || i == cell_index(4, 3) {
            Cell::Taken(Player::Black)
        } else {
            Cell::Empty
        })
}

/// An 8x8 ordered grid of cells, row-major.
pub struct Board {
    pub grid: Vec<Cell>,
}

impl View for Board {
    type V = Seq<Cell>;

    open spec fn view(&self) -> Seq<Cell> {
        self.grid@
    }
}

impl Board {
    /// The one invariant: the grid holds exactly 64 cells.
    pub open spec fn well_formed(&self) -> bool {
        self.grid@.len() == 64
    }

    /// A board with every cell empty.
    pub fn empty() -> (board: Board)
        ensures
            board.well_formed(),
            forall|i: int| 0 <= i < 64 ==> board@[i] == Cell::Empty,
    {
        let mut grid: Vec<Cell> = Vec::new();
        let mut i: usize = 0;
        while i < 64
            invariant
                i <= 64,
                grid@.len() == i,
                forall|j: int| 0 <= j < i ==> grid@[j] == Cell::Empty,
            decreases 64 - i,
        {
            grid.push(Cell::Empty);
            i = i + 1;
        }
        Board { grid }
    }

    /// The cell at (row, col).
    pub fn get(&self, row: usize, col: usize) -> (cell: Cell)
        requires
            self.well_formed(),
            row < 8,
            col < 8,
        ensures
            cell == cell_at(self@, row as int, col as int),
    {
        self.grid[row * 8 + col]
    }

    /// Replace the cell at (row, col); no other cell changes.
    pub fn set(&mut self, row: usize, col: usize, cell: Cell)
        requires
            old(self).well_formed(),
            row < 8,
            col < 8,
        ensures
            final(self).well_formed(),
            final(self)@ == old(self)@.update(cell_index(row as int, col as int), cell),
    {
        let i: usize = row * 8 + col;
        self.grid[i] = cell;
    }

    /// Whether two boards hold the same position, cell for cell.
    pub fn same_grid(&self, other: &Board) -> (same: bool)
        requires
            self.well_formed(),
            other.well_formed(),
        ensures
            same == (self@ == other@),
    {
        let mut i: usize = 0;
        while i < 64
            invariant
                i <= 64,
                self.well_formed(),
                other.well_formed(),
                forall|j: int| 0 <= j < i ==> self@[j] == other@[j],
            decreases 64 - i,
        {
            if self.grid[i] != other.grid[i] {
                return false;
            }
            i = i + 1;
        }
        proof {
            assert(self@ =~= other@);
        }
        true
    }

    /// An independent copy of the board; successors derived from the copy
    /// never alias the original.
    pub fn duplicate(&self) -> (copy: Board)
        requires
            self.well_formed(),
        ensures
            copy.well_formed(),
            copy@ == self@,
    {
        let mut grid: Vec<Cell> = Vec::new();
        let mut i: usize = 0;
        while i < 64
            invariant
                i <= 64,
                self.well_formed(),
                grid@.len() == i,
                forall|j: int| 0 <= j < i ==> grid@[j] == self@[j],
            decreases 64 - i,
        {
            grid.push(self.grid[i]);
            i = i + 1;
        }
        proof {
            assert(grid@ =~= self@);
        }
        Board { grid }
    }
}

impl Default for Board {
    /// The standard Othello start position.
    fn default() -> (board: Board)
        ensures
            board.well_formed(),
            board@ == start_grid(),
    {
        let mut board = Board::empty();
        board.set(3, 3, Cell::Taken(Player::White));
        board.set(4, 4, Cell::Taken(Player::White));
        board.set(3, 4, Cell::Taken(Player::Black));
        board.set(4, 3, Cell::Taken(Player::Black));
        proof {
            assert(board@ =~= start_grid());
        }
        board
    }
}

} // verus!
