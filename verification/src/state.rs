//! The game state: board, per-player pools and turn counter, with its
//! well-formedness invariant and initial value.

use vstd::prelude::*;

use crate::board::{cell_at, on_board, piece_count, playable, Cell, PiecePool, Size};

verus! {

/// The whole state of one game: the flattened 10 x 10 board, the two
/// players' piece pools in fixed turn order, and the turn counter.
///
/// The turn counter modulo the player count yields the active player; the
/// caller advances it after a completed move.
pub struct GameState {
    /// The board cells, row x after row, cell (x, y) at index x * 10 + y.
    pub game_board: Vec<Cell>,
    /// The pool of player 0, who moves on even turns.
    pub pool0: PiecePool,
    /// The pool of player 1, who moves on odd turns.
    pub pool1: PiecePool,
    pub turn_count: usize,
}

impl GameState {
    /// The board as a sequence of cells.
    pub open spec fn board(self) -> Seq<Cell> {
        self.game_board@
    }

    /// The cell at internal coordinates (x, y).
    pub open spec fn cell(self, x: int, y: int) -> Cell {
        cell_at(self.board(), x, y)
    }

    /// The pool of the given player.
    pub open spec fn pool_of(self, player: int) -> PiecePool {
        if player == 0 {
            self.pool0
        } else {
            self.pool1
        }
    }

    /// How many pieces of the given size the given player's pool holds.
    pub open spec fn pool(self, player: int, size: Size) -> nat {
        self.pool_of(player).spec_count(size)
    }

    /// The index of the player whose turn it is.
    pub open spec fn active_player(self) -> int {
        self.turn_count as int % 2
    }

    /// All pieces in both pools.
    pub open spec fn pools_total(self) -> int {
        self.pool0.total() + self.pool1.total()
    }

    /// Well-formedness: the board has its full size, the border cells and
    /// only they are out of bounds, every piece belongs to one of the two
    /// players, and pieces are conserved: the pools and the board together
    /// always hold the 16 pieces the game started with.
    pub open spec fn wf(self) -> bool {
        &&& self.board().len() == 100
        &&& forall|x: int, y: int|
            on_board(x, y) ==> ((#[trigger] self.cell(x, y)) is OutOfBounds <==> !playable(x, y))
        &&& forall|x: int, y: int|
            on_board(x, y) ==> ((#[trigger] self.cell(x, y)) matches Cell::Piece(p) ==> p.owner
                < 2)
        &&& self.pools_total() + piece_count(self.board()) == 16
    }

    /// Read the cell at internal coordinates (x, y).
    pub fn get_cell(&self, x: usize, y: usize) -> (c: Cell)
        requires
            self.wf(),
            x < 10,
            y < 10,
        ensures
            c == self.cell(x as int, y as int),
    {
        self.game_board[x * 10 + y]
    }

    /// How many pieces of the given size the given player's pool holds.
    pub fn pool_count(&self, player: usize, size: Size) -> (n: usize)
        requires
            player < 2,
        ensures
            n == self.pool(player as int, size),
    {
        if player == 0 {
            self.pool0.count(size)
        } else {
            self.pool1.count(size)
        }
    }

    /// The state at game start: an empty playable region inside the
    /// border, 8 Small pieces in each pool, and the turn counter at 0.
    pub fn init() -> (s: GameState)
        ensures
            s.wf(),
            forall|x: int, y: int|
                on_board(x, y) ==> #[trigger] s.cell(x, y) == (if playable(x, y) {
                    Cell::Empty
                } else {
                    Cell::OutOfBounds
                }),
            s.pool0 == (PiecePool { small: 8, big: 0 }),
            s.pool1 == (PiecePool { small: 8, big: 0 }),
            s.turn_count == 0,
    {
        let mut board: Vec<Cell> = Vec::new();
        let mut i: usize = 0;
        while i < 100
            invariant
                i <= 100,
                board@.len() == i,
                piece_count(board@) == 0,
                forall|j: int|
                    0 <= j < i ==> #[trigger] board@[j] == (if playable(j / 10, j % 10) {
                        Cell::Empty
                    } else {
                        Cell::OutOfBounds
                    }),
            decreases 100 - i,
        {
            let x: usize = i / 10;
            let y: usize = i % 10;
            let c = if x >= 2 && x < 8 && y >= 2 && y < 8 {
                Cell::Empty
            } else {
                Cell::OutOfBounds
            };
            proof {
                crate::board::lemma_piece_count_push(board@, c);
            }
            board.push(c);
            i = i + 1;
        }
        let s = GameState {
            game_board: board,
            pool0: PiecePool { small: 8, big: 0 },
            pool1: PiecePool { small: 8, big: 0 },
            turn_count: 0,
        };
        proof {
            assert forall|x: int, y: int| on_board(x, y) implies #[trigger] s.cell(x, y) == (
            if playable(x, y) {
                Cell::Empty
            } else {
                Cell::OutOfBounds
            }) by {
                let j = x * 10 + y;
                assert(0 <= j < 100);
                assert(j / 10 == x && j % 10 == y) by (nonlinear_arith)
                    requires
                        0 <= x < 10,
                        0 <= y < 10,
                        j == x * 10 + y,
                ;
            }
        }
        s
    }
}

} // verus!
