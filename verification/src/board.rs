//! The cells, pieces and coordinates of the game board, and the per-player
//! piece pools.
//!
//! The board is a fixed 10 x 10 array of cells holding a 6 x 6 playable
//! region. The two outermost rings of cells form a permanent out-of-bounds
//! border, so that the displacement logic may probe up to two cells outward
//! from any playable cell without a range check.

use vstd::prelude::*;

verus! {

/// The two piece sizes.
#[derive(Clone, Copy, Debug, PartialEq, Eq, Structural)]
pub enum Size {
    Small,
    Big,
}

/// A piece on the board. The owner is the index of a player (0 or 1) and
/// never changes: a piece is removed or relocated, never re-owned.
#[derive(Clone, Copy, Debug, PartialEq, Eq, Structural)]
pub struct Piece {
    pub owner: usize,
    pub size: Size,
}

/// One cell of the board array.
#[derive(Clone, Copy, Debug, PartialEq, Eq, Structural)]
pub enum Cell {
    /// A border sentinel. Cells outside the playable region are always
    /// `OutOfBounds` and are never written after initialization.
    OutOfBounds,
    Empty,
    Piece(Piece),
}

/// An integer pair. Coordinates appear in two spaces: external (zero-based
/// within the playable region, as supplied by a caller) and internal
/// (offset by the border width of 2 on each axis, as stored in triples).
#[derive(Clone, Copy, Debug, PartialEq, Eq, Structural)]
pub struct Coordinate {
    pub x: usize,
    pub y: usize,
}

/// One detected alignment: an ordered triple (neighbour, centre, neighbour)
/// of internal coordinates along one of the four axes through the centre.
#[derive(Clone, Copy, Debug, PartialEq, Eq, Structural)]
pub struct ThreeInRow(pub Coordinate, pub Coordinate, pub Coordinate);

/// A player's pool of available pieces: a multiset of sizes, kept as one
/// count per size.
#[derive(Clone, Copy, Debug, PartialEq, Eq, Structural)]
pub struct PiecePool {
    pub small: usize,
    pub big: usize,
}

impl PiecePool {
    /// How many pieces of the given size the pool holds.
    pub open spec fn spec_count(self, size: Size) -> nat {
        if size is Small {
            self.small as nat
        } else {
            self.big as nat
        }
    }

    /// All pieces in the pool, of either size.
    pub open spec fn total(self) -> int {
        self.small + self.big
    }

    /// How many pieces of the given size the pool holds.
    pub fn count(&self, size: Size) -> (n: usize)
        ensures
            n == self.spec_count(size),
    {
        match size {
            Size::Small => self.small,
            Size::Big => self.big,
        }
    }
}

/// Whether (x, y) lies inside the board array at all, border included.
pub open spec fn on_board(x: int, y: int) -> bool {
    0 <= x < 10 && 0 <= y < 10
}

/// Whether (x, y) lies inside the playable 6 x 6 region, in internal
/// coordinates.
pub open spec fn playable(x: int, y: int) -> bool {
    2 <= x < 8 && 2 <= y < 8
}

/// The position of cell (x, y) in the flattened board array.
pub open spec fn cell_index(x: int, y: int) -> int {
    x * 10 + y
}

/// The cell at (x, y) of a flattened board.
pub open spec fn cell_at(b: Seq<Cell>, x: int, y: int) -> Cell {
    b[cell_index(x, y)]
}

/// Distinct board coordinates flatten to distinct array positions.
pub proof fn lemma_cell_index_injective(x1: int, y1: int, x2: int, y2: int)
    requires
        on_board(x1, y1),
        on_board(x2, y2),
        cell_index(x1, y1) == cell_index(x2, y2),
    ensures
        x1 == x2 && y1 == y2,
{
}

/// How many cells of the board hold a piece.
pub open spec fn piece_count(b: Seq<Cell>) -> nat
    decreases b.len(),
{
    if b.len() == 0 {
        0
    } else {
        piece_count(b.drop_last()) + (if b.last() is Piece {
            1nat
        } else {
            0nat
        })
    }
}

/// Appending a cell adds its contribution to the piece count.
pub proof fn lemma_piece_count_push(b: Seq<Cell>, c: Cell)
    ensures
        piece_count(b.push(c)) == piece_count(b) + (if c is Piece {
            1nat
        } else {
            0nat
        }),
{
    assert(b.push(c).drop_last() =~= b);
}

/// Overwriting one cell changes the piece count by the difference of the
/// two cells' contributions.
pub proof fn lemma_piece_count_update(b: Seq<Cell>, i: int, c: Cell)
    requires
        0 <= i < b.len(),
    ensures
        piece_count(b.update(i, c)) + (if b[i] is Piece {
            1nat
        } else {
            0nat
        }) == piece_count(b) + (if c is Piece {
            1nat
        } else {
            0nat
        }),
    decreases b.len(),
{
    if i == b.len() - 1 {
        assert(b.update(i, c).drop_last() =~= b.drop_last());
    } else {
        assert(b.update(i, c).drop_last() =~= b.drop_last().update(i, c));
        lemma_piece_count_update(b.drop_last(), i, c);
    }
}

} // verus!
