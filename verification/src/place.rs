//! The placement and displacement engine.
//!
//! A placement is validated (bounds, occupancy, pool), then the new piece
//! is written and the eight neighbouring cells are inspected in a fixed
//! circular order. A neighbouring piece that is not immune is bounced one
//! further cell outward: onto an empty cell it relocates, off the border it
//! is captured back into its owner's pool, and against another piece it
//! stays put. The eight directions are independent: each is judged against
//! the board as it stood when the displacement pass began.

use vstd::prelude::*;
use vstd::pervasive::VecAdditionalExecFns;

use crate::board::{
    cell_at, cell_index, on_board, piece_count, playable, Cell, Coordinate, Piece, PiecePool, Size,
};
use crate::errors::{PieceErrorKind, PlacePieceError};
use crate::state::GameState;

verus! {

/// A requested placement: an external coordinate and a size. The owner is
/// implicit: whoever is the active player when it is applied.
#[derive(Debug, Clone, Copy, PartialEq, Eq, Structural)]
pub struct PiecePlacement {
    pub coordinate: Coordinate,
    pub size: Size,
}

/// Whether an external coordinate lands inside the 6 x 6 playable region.
pub open spec fn in_playable_ext(c: Coordinate) -> bool {
    c.x <= 5 && c.y <= 5
}

/// A displacement of one cell: both components in -1 ..= 1, not both zero.
pub open spec fn unit_offset(ux: int, uy: int) -> bool {
    -1 <= ux <= 1 && -1 <= uy <= 1 && !(ux == 0 && uy == 0)
}

/// A displacement of two cells along one of the eight directions.
pub open spec fn double_offset(ux: int, uy: int) -> bool {
    (ux == -2 || ux == 0 || ux == 2) && (uy == -2 || uy == 0 || uy == 2) && !(ux == 0 && uy == 0)
}

/// The fixed circular order in which the eight neighbour directions are
/// examined, as unit offsets from the newly placed piece.
pub open spec fn dir_at(k: int) -> (int, int) {
    if k == 0 {
        (-1, -1)
    } else if k == 1 {
        (-1, 0)
    } else if k == 2 {
        (-1, 1)
    } else if k == 3 {
        (0, 1)
    } else if k == 4 {
        (1, 1)
    } else if k == 5 {
        (1, 0)
    } else if k == 6 {
        (1, -1)
    } else {
        (0, -1)
    }
}

/// The position of a unit offset in the direction order; 8 for anything
/// that is not a unit offset.
pub open spec fn dir_index(ux: int, uy: int) -> int {
    if ux == -1 && uy == -1 {
        0
    } else if ux == -1 && uy == 0 {
        1
    } else if ux == -1 && uy == 1 {
        2
    } else if ux == 0 && uy == 1 {
        3
    } else if ux == 1 && uy == 1 {
        4
    } else if ux == 1 && uy == 0 {
        5
    } else if ux == 1 && uy == -1 {
        6
    } else if ux == 0 && uy == -1 {
        7
    } else {
        8
    }
}

/// `dir_index` inverts `dir_at` on the unit offsets.
pub proof fn lemma_dir_roundtrip(ux: int, uy: int)
    requires
        unit_offset(ux, uy),
    ensures
        0 <= dir_index(ux, uy) < 8,
        dir_at(dir_index(ux, uy)) == (ux, uy),
{
}

/// Whether the piece one step from the new piece, in direction (ux, uy),
/// is bounced away: the cell holds a piece, the piece is not immune (a Big
/// piece cannot be budged by a Small placement), and the cell one further
/// step out holds no piece. `b1` is the board as the displacement pass
/// found it, the new piece already placed.
pub open spec fn bounce_moves(b1: Seq<Cell>, placed: Size, px: int, py: int, ux: int, uy: int) -> bool {
    &&& cell_at(b1, px + ux, py + uy) matches Cell::Piece(p)
    &&& !(p.size is Big && placed is Small)
    &&& !(cell_at(b1, px + 2 * ux, py + 2 * uy) is Piece)
}

/// A bounce that pushes the neighbouring piece off the border: the piece
/// is captured, returning to its owner's pool.
pub open spec fn bounce_captures(
    b1: Seq<Cell>,
    placed: Size,
    px: int,
    py: int,
    ux: int,
    uy: int,
) -> bool {
    bounce_moves(b1, placed, px, py, ux, uy) && cell_at(b1, px + 2 * ux, py + 2 * uy) is OutOfBounds
}

/// A bounce onto an empty cell: the neighbouring piece relocates there.
pub open spec fn bounce_relocates(
    b1: Seq<Cell>,
    placed: Size,
    px: int,
    py: int,
    ux: int,
    uy: int,
) -> bool {
    bounce_moves(b1, placed, px, py, ux, uy) && cell_at(b1, px + 2 * ux, py + 2 * uy) is Empty
}

/// The cell at (x, y) after the first k directions of the displacement
/// pass have been applied to `b1`.
pub open spec fn bounced_cell_upto(
    b1: Seq<Cell>,
    placed: Size,
    px: int,
    py: int,
    x: int,
    y: int,
    k: int,
) -> Cell {
    let ux = x - px;
    let uy = y - py;
    if unit_offset(ux, uy) && dir_index(ux, uy) < k && bounce_moves(b1, placed, px, py, ux, uy) {
        Cell::Empty
    } else if double_offset(ux, uy) && dir_index(ux / 2, uy / 2) < k && bounce_relocates(
        b1,
        placed,
        px,
        py,
        ux / 2,
        uy / 2,
    ) {
        cell_at(b1, px + ux / 2, py + uy / 2)
    } else {
        cell_at(b1, x, y)
    }
}

/// The cell at (x, y) after the whole displacement pass: a bounced
/// neighbour's cell is emptied; an empty cell two steps out receives the
/// piece that relocates onto it; every other cell keeps its `b1` value.
pub open spec fn bounced_cell(b1: Seq<Cell>, placed: Size, px: int, py: int, x: int, y: int) -> Cell {
    let ux = x - px;
    let uy = y - py;
    if unit_offset(ux, uy) && bounce_moves(b1, placed, px, py, ux, uy) {
        Cell::Empty
    } else if double_offset(ux, uy) && bounce_relocates(b1, placed, px, py, ux / 2, uy / 2) {
        cell_at(b1, px + ux / 2, py + uy / 2)
    } else {
        cell_at(b1, x, y)
    }
}

/// After all eight directions, the prefix description coincides with the
/// full one.
pub proof fn lemma_bounced_cell_complete(
    b1: Seq<Cell>,
    placed: Size,
    px: int,
    py: int,
    x: int,
    y: int,
)
    ensures
        bounced_cell_upto(b1, placed, px, py, x, y, 8) == bounced_cell(b1, placed, px, py, x, y),
{
    let ux = x - px;
    let uy = y - py;
    if unit_offset(ux, uy) {
        lemma_dir_roundtrip(ux, uy);
    }
    if double_offset(ux, uy) {
        lemma_dir_roundtrip(ux / 2, uy / 2);
    }
}

/// 1 if the bounce in direction (ux, uy) captures a piece of the given
/// owner and size, else 0.
pub open spec fn capture_of(
    b1: Seq<Cell>,
    placed: Size,
    px: int,
    py: int,
    ux: int,
    uy: int,
    owner: int,
    size: Size,
) -> nat {
    if bounce_captures(b1, placed, px, py, ux, uy) && (cell_at(b1, px + ux, py + uy) matches Cell::Piece(p)
        && p.owner == owner && p.size == size) {
        1nat
    } else {
        0nat
    }
}

/// How many pieces of the given owner and size the first k directions of
/// the displacement pass capture.
pub open spec fn capture_gain_upto(
    b1: Seq<Cell>,
    placed: Size,
    px: int,
    py: int,
    k: int,
    owner: int,
    size: Size,
) -> nat
    decreases k,
{
    if k <= 0 {
        0
    } else {
        capture_gain_upto(b1, placed, px, py, k - 1, owner, size) + capture_of(
            b1,
            placed,
            px,
            py,
            dir_at(k - 1).0,
            dir_at(k - 1).1,
            owner,
            size,
        )
    }
}

/// How many pieces of the given owner and size the whole displacement
/// pass captures.
pub open spec fn capture_gain(
    b1: Seq<Cell>,
    placed: Size,
    px: int,
    py: int,
    owner: int,
    size: Size,
) -> nat {
    capture_gain_upto(b1, placed, px, py, 8, owner, size)
}

/// The total capture count is at least the contribution of any one
/// direction.
pub proof fn lemma_capture_gain_covers(
    b1: Seq<Cell>,
    placed: Size,
    px: int,
    py: int,
    k: int,
    j: int,
    owner: int,
    size: Size,
)
    requires
        0 <= j < k,
    ensures
        capture_gain_upto(b1, placed, px, py, k, owner, size) >= capture_of(
            b1,
            placed,
            px,
            py,
            dir_at(j).0,
            dir_at(j).1,
            owner,
            size,
        ),
    decreases k,
{
    if j < k - 1 {
        lemma_capture_gain_covers(b1, placed, px, py, k - 1, j, owner, size);
    }
}

/// A direction in which nothing is bounced leaves the board description
/// and every capture count unchanged.
proof fn lemma_bounce_skip(b1: Seq<Cell>, z: Size, px: int, py: int, b: Seq<Cell>, k: int)
    requires
        0 <= k < 8,
        2 <= px <= 7,
        2 <= py <= 7,
        forall|x: int, y: int|
            on_board(x, y) ==> #[trigger] cell_at(b, x, y) == bounced_cell_upto(
                b1,
                z,
                px,
                py,
                x,
                y,
                k,
            ),
        !bounce_moves(b1, z, px, py, dir_at(k).0, dir_at(k).1),
    ensures
        forall|x: int, y: int|
            on_board(x, y) ==> #[trigger] cell_at(b, x, y) == bounced_cell_upto(
                b1,
                z,
                px,
                py,
                x,
                y,
                k + 1,
            ),
        forall|o: int, zz: Size| #[trigger]
            capture_gain_upto(b1, z, px, py, k + 1, o, zz) == capture_gain_upto(
                b1,
                z,
                px,
                py,
                k,
                o,
                zz,
            ),
{
    assert forall|x: int, y: int| on_board(x, y) implies #[trigger] cell_at(b, x, y)
        == bounced_cell_upto(b1, z, px, py, x, y, k + 1) by {
        let vx = x - px;
        let vy = y - py;
        if unit_offset(vx, vy) {
            lemma_dir_roundtrip(vx, vy);
        }
        if double_offset(vx, vy) {
            lemma_dir_roundtrip(vx / 2, vy / 2);
        }
    }
}

/// Emptying the neighbour cell of a capturing direction advances the
/// board description by one direction; the direction's capture count is
/// the captured piece's contribution.
proof fn lemma_bounce_write_capture(b1: Seq<Cell>, z: Size, px: int, py: int, b: Seq<Cell>, k: int)
    requires
        0 <= k < 8,
        2 <= px <= 7,
        2 <= py <= 7,
        b.len() == 100,
        forall|x: int, y: int|
            on_board(x, y) ==> #[trigger] cell_at(b, x, y) == bounced_cell_upto(
                b1,
                z,
                px,
                py,
                x,
                y,
                k,
            ),
        bounce_captures(b1, z, px, py, dir_at(k).0, dir_at(k).1),
    ensures
        forall|x: int, y: int|
            on_board(x, y) ==> #[trigger] cell_at(
                b.update(cell_index(px + dir_at(k).0, py + dir_at(k).1), Cell::Empty),
                x,
                y,
            ) == bounced_cell_upto(b1, z, px, py, x, y, k + 1),
        forall|o: int, zz: Size| #[trigger]
            capture_gain_upto(b1, z, px, py, k + 1, o, zz) == capture_gain_upto(
                b1,
                z,
                px,
                py,
                k,
                o,
                zz,
            ) + capture_of(b1, z, px, py, dir_at(k).0, dir_at(k).1, o, zz),
{
    let ux = dir_at(k).0;
    let uy = dir_at(k).1;
    lemma_dir_roundtrip(ux, uy);
    let i1 = cell_index(px + ux, py + uy);
    let b2 = b.update(i1, Cell::Empty);
    assert forall|x: int, y: int| on_board(x, y) implies #[trigger] cell_at(b2, x, y)
        == bounced_cell_upto(b1, z, px, py, x, y, k + 1) by {
        let vx = x - px;
        let vy = y - py;
        if x == px + ux && y == py + uy {
            assert(cell_at(b2, x, y) == Cell::Empty);
        } else {
            assert(cell_index(x, y) != i1) by {
                if cell_index(x, y) == i1 {
                    crate::board::lemma_cell_index_injective(x, y, px + ux, py + uy);
                }
            }
            assert(cell_at(b2, x, y) == cell_at(b, x, y));
            if unit_offset(vx, vy) {
                lemma_dir_roundtrip(vx, vy);
            }
            if double_offset(vx, vy) {
                lemma_dir_roundtrip(vx / 2, vy / 2);
            }
        }
    }
}

/// Moving the neighbour piece of a relocating direction one further cell
/// outward advances the board description by one direction; nothing is
/// captured.
proof fn lemma_bounce_write_relocate(b1: Seq<Cell>, z: Size, px: int, py: int, b: Seq<Cell>, k: int)
    requires
        0 <= k < 8,
        2 <= px <= 7,
        2 <= py <= 7,
        b.len() == 100,
        forall|x: int, y: int|
            on_board(x, y) ==> #[trigger] cell_at(b, x, y) == bounced_cell_upto(
                b1,
                z,
                px,
                py,
                x,
                y,
                k,
            ),
        bounce_relocates(b1, z, px, py, dir_at(k).0, dir_at(k).1),
    ensures
        forall|x: int, y: int|
            on_board(x, y) ==> #[trigger] cell_at(
                b.update(
                    cell_index(px + 2 * dir_at(k).0, py + 2 * dir_at(k).1),
                    cell_at(b1, px + dir_at(k).0, py + dir_at(k).1),
                ).update(cell_index(px + dir_at(k).0, py + dir_at(k).1), Cell::Empty),
                x,
                y,
            ) == bounced_cell_upto(b1, z, px, py, x, y, k + 1),
        forall|o: int, zz: Size| #[trigger]
            capture_gain_upto(b1, z, px, py, k + 1, o, zz) == capture_gain_upto(
                b1,
                z,
                px,
                py,
                k,
                o,
                zz,
            ),
{
    let ux = dir_at(k).0;
    let uy = dir_at(k).1;
    lemma_dir_roundtrip(ux, uy);
    let i1 = cell_index(px + ux, py + uy);
    let i2 = cell_index(px + 2 * ux, py + 2 * uy);
    assert(i1 != i2) by {
        if i1 == i2 {
            crate::board::lemma_cell_index_injective(px + ux, py + uy, px + 2 * ux, py + 2 * uy);
        }
    }
    let b2 = b.update(i2, cell_at(b1, px + ux, py + uy)).update(i1, Cell::Empty);
    assert((2 * ux) / 2 == ux && (2 * uy) / 2 == uy);
    assert forall|x: int, y: int| on_board(x, y) implies #[trigger] cell_at(b2, x, y)
        == bounced_cell_upto(b1, z, px, py, x, y, k + 1) by {
        let vx = x - px;
        let vy = y - py;
        if x == px + ux && y == py + uy {
            assert(cell_at(b2, x, y) == Cell::Empty);
        } else if x == px + 2 * ux && y == py + 2 * uy {
            assert(cell_at(b2, x, y) == cell_at(b1, px + ux, py + uy));
            assert(double_offset(vx, vy));
        } else {
            assert(cell_index(x, y) != i1) by {
                if cell_index(x, y) == i1 {
                    crate::board::lemma_cell_index_injective(x, y, px + ux, py + uy);
                }
            }
            assert(cell_index(x, y) != i2) by {
                if cell_index(x, y) == i2 {
                    crate::board::lemma_cell_index_injective(x, y, px + 2 * ux, py + 2 * uy);
                }
            }
            assert(cell_at(b2, x, y) == cell_at(b, x, y));
            if unit_offset(vx, vy) {
                lemma_dir_roundtrip(vx, vy);
            }
            if double_offset(vx, vy) {
                lemma_dir_roundtrip(vx / 2, vy / 2);
            }
        }
    }
}

/// A displacement pass keeps the board well formed: the border is
/// untouched and every piece still belongs to one of the two players.
proof fn lemma_bounced_board_wf(b1: Seq<Cell>, z: Size, px: int, py: int, b2: Seq<Cell>)
    requires
        2 <= px <= 7,
        2 <= py <= 7,
        forall|x: int, y: int|
            on_board(x, y) ==> ((#[trigger] cell_at(b1, x, y)) is OutOfBounds <==> !playable(x, y)),
        forall|x: int, y: int|
            on_board(x, y) ==> ((#[trigger] cell_at(b1, x, y)) matches Cell::Piece(p) ==> p.owner
                < 2),
        forall|x: int, y: int|
            on_board(x, y) ==> #[trigger] cell_at(b2, x, y) == bounced_cell(b1, z, px, py, x, y),
    ensures
        forall|x: int, y: int|
            on_board(x, y) ==> ((#[trigger] cell_at(b2, x, y)) is OutOfBounds <==> !playable(x, y)),
        forall|x: int, y: int|
            on_board(x, y) ==> ((#[trigger] cell_at(b2, x, y)) matches Cell::Piece(p) ==> p.owner
                < 2),
{
    assert forall|x: int, y: int| on_board(x, y) implies ((#[trigger] cell_at(b2, x, y))
        is OutOfBounds <==> !playable(x, y)) && (cell_at(b2, x, y) matches Cell::Piece(p)
        ==> p.owner < 2) by {
        let vx = x - px;
        let vy = y - py;
        if unit_offset(vx, vy) && bounce_moves(b1, z, px, py, vx, vy) {
            // The emptied neighbour cell held a piece, so it is playable.
            assert(!(cell_at(b1, x, y) is OutOfBounds));
        } else if double_offset(vx, vy) && bounce_relocates(b1, z, px, py, vx / 2, vy / 2) {
            // The receiving cell was empty, so it is playable; the piece
            // that lands on it comes from a cell of the board.
            assert(on_board(px + vx / 2, py + vy / 2));
            assert(!(cell_at(b1, x, y) is OutOfBounds));
        } else {
        }
    }
}

/// The relation between the state before and after an accepted placement
/// of `size` at internal centre (px, py).
///
/// `b1` is the board at the start of the displacement pass: the old board
/// with the new piece written at the centre. The new board is then
/// described cell by cell through [`bounced_cell`], and every pool count
/// changes exactly by the placement's withdrawal plus the bounce captures
/// that returned pieces to it.
/// The board as the displacement pass of an accepted placement finds it:
/// the old board with the new piece written at the internal centre.
pub open spec fn placement_board(pre: GameState, px: int, py: int, size: Size) -> Seq<Cell> {
    let piece = Piece { owner: pre.active_player() as usize, size: size };
    pre.board().update(cell_index(px, py), Cell::Piece(piece))
}

pub open spec fn place_ok_at(
    pre: GameState,
    post: GameState,
    px: int,
    py: int,
    size: Size,
) -> bool {
    let who = pre.active_player();
    let b1 = placement_board(pre, px, py, size);
    &&& pre.cell(px, py) is Empty
    &&& pre.pool(who, size) > 0
    &&& post.board().len() == 100
    &&& forall|x: int, y: int|
        on_board(x, y) ==> #[trigger] post.cell(x, y) == bounced_cell(b1, size, px, py, x, y)
    &&& forall|o: int, z: Size|
        0 <= o < 2 ==> #[trigger] post.pool(o, z) + (if o == who && z == size {
            1int
        } else {
            0int
        }) == pre.pool(o, z) + capture_gain(b1, size, px, py, o, z)
    &&& post.turn_count == pre.turn_count
}

/// The same relation for an accepted placement at external coordinate
/// `ext`, which the engine translates by the border width of 2.
pub open spec fn place_ok(pre: GameState, post: GameState, ext: Coordinate, size: Size) -> bool {
    in_playable_ext(ext) && place_ok_at(pre, post, ext.x + 2, ext.y + 2, size)
}

/// Apply the k-th direction of the displacement pass: the board and pool
/// descriptions advance from the first k directions to the first k + 1,
/// and the pieces stay conserved.
#[verifier::rlimit(100)]
fn bounce_direction(
    board: &mut Vec<Cell>,
    pool0: &mut PiecePool,
    pool1: &mut PiecePool,
    px: usize,
    py: usize,
    placed: Size,
    k: usize,
    Ghost(b1): Ghost<Seq<Cell>>,
    Ghost(q0): Ghost<PiecePool>,
    Ghost(q1): Ghost<PiecePool>,
)
    requires
        k < 8,
        old(board)@.len() == 100,
        b1.len() == 100,
        2 <= px <= 7,
        2 <= py <= 7,
        forall|x: int, y: int|
            on_board(x, y) ==> ((#[trigger] cell_at(b1, x, y)) is OutOfBounds <==> !playable(x, y)),
        forall|x: int, y: int|
            on_board(x, y) ==> ((#[trigger] cell_at(b1, x, y)) matches Cell::Piece(p) ==> p.owner
                < 2),
        forall|x: int, y: int|
            on_board(x, y) ==> #[trigger] cell_at(old(board)@, x, y) == bounced_cell_upto(
                b1,
                placed,
                px as int,
                py as int,
                x,
                y,
                k as int,
            ),
        old(pool0).small == q0.small + capture_gain_upto(
            b1,
            placed,
            px as int,
            py as int,
            k as int,
            0,
            Size::Small,
        ),
        old(pool0).big == q0.big + capture_gain_upto(
            b1,
            placed,
            px as int,
            py as int,
            k as int,
            0,
            Size::Big,
        ),
        old(pool1).small == q1.small + capture_gain_upto(
            b1,
            placed,
            px as int,
            py as int,
            k as int,
            1,
            Size::Small,
        ),
        old(pool1).big == q1.big + capture_gain_upto(
            b1,
            placed,
            px as int,
            py as int,
            k as int,
            1,
            Size::Big,
        ),
        old(pool0).total() + old(pool1).total() + piece_count(old(board)@) == 16,
    ensures
        final(board)@.len() == 100,
        forall|x: int, y: int|
            on_board(x, y) ==> #[trigger] cell_at(final(board)@, x, y) == bounced_cell_upto(
                b1,
                placed,
                px as int,
                py as int,
                x,
                y,
                k as int + 1,
            ),
        final(pool0).small == q0.small + capture_gain_upto(
            b1,
            placed,
            px as int,
            py as int,
            k as int + 1,
            0,
            Size::Small,
        ),
        final(pool0).big == q0.big + capture_gain_upto(
            b1,
            placed,
            px as int,
            py as int,
            k as int + 1,
            0,
            Size::Big,
        ),
        final(pool1).small == q1.small + capture_gain_upto(
            b1,
            placed,
            px as int,
            py as int,
            k as int + 1,
            1,
            Size::Small,
        ),
        final(pool1).big == q1.big + capture_gain_upto(
            b1,
            placed,
            px as int,
            py as int,
            k as int + 1,
            1,
            Size::Big,
        ),
        final(pool0).total() + final(pool1).total() + piece_count(final(board)@) == 16,
{
    let ghost pxi: int = px as int;
    let ghost pyi: int = py as int;
    let ghost z: Size = placed;
    let (dx2, dy2) = dir_offset(k);
    let n1x: usize = px - 1 + dx2;
    let n1y: usize = py - 1 + dy2;
    let n2x: usize = px - 2 + 2 * dx2;
    let n2y: usize = py - 2 + 2 * dy2;
    let i1: usize = n1x * 10 + n1y;
    let i2: usize = n2x * 10 + n2y;
    let ghost ux: int = dx2 as int - 1;
    let ghost uy: int = dy2 as int - 1;
    proof {
        assert(unit_offset(ux, uy) && dir_index(ux, uy) == k as int);
        assert(cell_at(board@, n1x as int, n1y as int) == cell_at(b1, pxi + ux, pyi + uy));
        assert((2 * ux) / 2 == ux && (2 * uy) / 2 == uy);
        assert(cell_at(board@, n2x as int, n2y as int) == cell_at(
            b1,
            pxi + 2 * ux,
            pyi + 2 * uy,
        ));
    }
    let c1 = board[i1];
    match c1 {
        Cell::Piece(p) => {
            if p.size == Size::Big && placed == Size::Small {
                // The Big piece is immune to a Small placement.
                proof {
                    lemma_bounce_skip(b1, z, pxi, pyi, board@, k as int);
                }
            } else {
                let c2 = board[i2];
                match c2 {
                    Cell::Piece(_) => {
                        // Blocked: a piece two steps out.
                        proof {
                            lemma_bounce_skip(b1, z, pxi, pyi, board@, k as int);
                        }
                    },
                    Cell::OutOfBounds => {
                        // Captured: off the border, back to the owner's pool.
                        proof {
                            assert(p.owner < 2);
                            assert(pool0.total() + pool1.total() <= 16);
                        }
                        if p.owner == 0 {
                            match p.size {
                                Size::Small => pool0.small = pool0.small + 1,
                                Size::Big => pool0.big = pool0.big + 1,
                            }
                        } else {
                            match p.size {
                                Size::Small => pool1.small = pool1.small + 1,
                                Size::Big => pool1.big = pool1.big + 1,
                            }
                        }
                        let ghost bpre = board@;
                        board.set(i1, Cell::Empty);
                        proof {
                            crate::board::lemma_piece_count_update(
                                bpre,
                                i1 as int,
                                Cell::Empty,
                            );
                            lemma_bounce_write_capture(b1, z, pxi, pyi, bpre, k as int);
                            assert((ux, uy) == dir_at(k as int));
                            assert(i1 as int == cell_index(pxi + ux, pyi + uy));
                            assert(board@ == bpre.update(
                                cell_index(pxi + ux, pyi + uy),
                                Cell::Empty,
                            ));
                        }
                    },
                    Cell::Empty => {
                        // Relocated one further cell outward.
                        let ghost bpre = board@;
                        board.set(i2, c1);
                        board.set(i1, Cell::Empty);
                        proof {
                            assert(i1 as int == cell_index(pxi + ux, pyi + uy));
                            assert(i2 as int == cell_index(pxi + 2 * ux, pyi + 2 * uy));
                            assert(i1 != i2) by {
                                if i1 as int == i2 as int {
                                    crate::board::lemma_cell_index_injective(
                                        pxi + ux,
                                        pyi + uy,
                                        pxi + 2 * ux,
                                        pyi + 2 * uy,
                                    );
                                }
                            }
                            crate::board::lemma_piece_count_update(bpre, i2 as int, c1);
                            crate::board::lemma_piece_count_update(
                                bpre.update(i2 as int, c1),
                                i1 as int,
                                Cell::Empty,
                            );
                            lemma_bounce_write_relocate(b1, z, pxi, pyi, bpre, k as int);
                            assert((ux, uy) == dir_at(k as int));
                            assert(c1 == cell_at(b1, pxi + ux, pyi + uy));
                            assert(board@ == bpre.update(
                                cell_index(pxi + 2 * ux, pyi + 2 * uy),
                                cell_at(b1, pxi + ux, pyi + uy),
                            ).update(cell_index(pxi + ux, pyi + uy), Cell::Empty));
                        }
                    },
                }
            }
        },
        _ => {
            // Nothing to bounce in this direction.
            proof {
                lemma_bounce_skip(b1, z, pxi, pyi, board@, k as int);
            }
        },
    }
}

impl GameState {
    /// Withdraw one piece of `size` from the active pool, write it at the
    /// validated internal centre (px, py) and run the displacement pass.
    fn apply_placement(&mut self, px: usize, py: usize, size: Size)
        requires
            old(self).wf(),
            2 <= px <= 7,
            2 <= py <= 7,
            old(self).cell(px as int, py as int) is Empty,
            old(self).pool(old(self).active_player(), size) > 0,
        ensures
            final(self).wf(),
            place_ok_at(*old(self), *final(self), px as int, py as int, size),
    {
        let player_index: usize = self.turn_count % 2;
        let target: usize = px * 10 + py;
        // Withdraw the placed piece from the active pool.
        let mut pool0 = self.pool0;
        let mut pool1 = self.pool1;
        if player_index == 0 {
            match size {
                Size::Small => pool0.small = pool0.small - 1,
                Size::Big => pool0.big = pool0.big - 1,
            }
        } else {
            match size {
                Size::Small => pool1.small = pool1.small - 1,
                Size::Big => pool1.big = pool1.big - 1,
            }
        }
        // Take the board out, write the new piece, run the displacement
        // pass on the local value, and put everything back at the end.
        let mut board: Vec<Cell> = Vec::new();
        core::mem::swap(&mut board, &mut self.game_board);
        let piece = Piece { owner: player_index, size: size };
        let ghost b0: Seq<Cell> = board@;
        board.set(target, Cell::Piece(piece));
        proof {
            crate::board::lemma_piece_count_update(b0, target as int, Cell::Piece(piece));
        }
        let ghost b1: Seq<Cell> = board@;
        let ghost q0: PiecePool = pool0;
        let ghost q1: PiecePool = pool1;
        let ghost pxi: int = px as int;
        let ghost pyi: int = py as int;
        proof {
            assert(target as int == cell_index(pxi, pyi));
            assert forall|x: int, y: int| on_board(x, y) implies ((#[trigger] cell_at(b1, x, y))
                is OutOfBounds <==> !playable(x, y)) && (cell_at(b1, x, y) matches Cell::Piece(p)
                ==> p.owner < 2) by {
                if cell_index(x, y) == cell_index(pxi, pyi) {
                    crate::board::lemma_cell_index_injective(x, y, pxi, pyi);
                } else {
                    assert(cell_at(b1, x, y) == old(self).cell(x, y));
                }
            }
            assert forall|x: int, y: int| on_board(x, y) implies #[trigger] cell_at(board@, x, y)
                == bounced_cell_upto(b1, size, pxi, pyi, x, y, 0) by {}
        }
        let mut k: usize = 0;
        while k < 8
            invariant
                k <= 8,
                board@.len() == 100,
                b1.len() == 100,
                px as int == pxi,
                py as int == pyi,
                2 <= pxi <= 7,
                2 <= pyi <= 7,
                forall|x: int, y: int|
                    on_board(x, y) ==> ((#[trigger] cell_at(b1, x, y)) is OutOfBounds <==> !playable(
                        x,
                        y,
                    )),
                forall|x: int, y: int|
                    on_board(x, y) ==> ((#[trigger] cell_at(b1, x, y)) matches Cell::Piece(p)
                        ==> p.owner < 2),
                forall|x: int, y: int|
                    on_board(x, y) ==> #[trigger] cell_at(board@, x, y) == bounced_cell_upto(
                        b1,
                        size,
                        pxi,
                        pyi,
                        x,
                        y,
                        k as int,
                    ),
                pool0.small == q0.small + capture_gain_upto(b1, size, pxi, pyi, k as int, 0, Size::Small),
                pool0.big == q0.big + capture_gain_upto(b1, size, pxi, pyi, k as int, 0, Size::Big),
                pool1.small == q1.small + capture_gain_upto(b1, size, pxi, pyi, k as int, 1, Size::Small),
                pool1.big == q1.big + capture_gain_upto(b1, size, pxi, pyi, k as int, 1, Size::Big),
                pool0.total() + pool1.total() + piece_count(board@) == 16,
            decreases 8 - k,
        {
            bounce_direction(
                &mut board,
                &mut pool0,
                &mut pool1,
                px,
                py,
                size,
                k,
                Ghost(b1),
                Ghost(q0),
                Ghost(q1),
            );
            k = k + 1;
        }
        proof {
            assert forall|x: int, y: int| on_board(x, y) implies #[trigger] cell_at(board@, x, y)
                == bounced_cell(b1, size, pxi, pyi, x, y) by {
                lemma_bounced_cell_complete(b1, size, pxi, pyi, x, y);
            }
        }
        core::mem::swap(&mut board, &mut self.game_board);
        self.pool0 = pool0;
        self.pool1 = pool1;
        proof {
            let pre = *old(self);
            let who = pre.active_player();
            assert(who == player_index as int);
            assert(b1 == pre.board().update(
                cell_index(pxi, pyi),
                Cell::Piece(Piece { owner: who as usize, size: size }),
            ));
            lemma_bounced_board_wf(b1, size, pxi, pyi, self.board());
            assert forall|o: int, zc: Size| 0 <= o < 2 implies #[trigger] self.pool(o, zc) + (
            if o == who && zc == size {
                1int
            } else {
                0int
            }) == pre.pool(o, zc) + capture_gain(b1, size, pxi, pyi, o, zc) by {}
            assert(place_ok_at(pre, *self, pxi, pyi, size));
        }
    }

    /// Validate and apply one placement for the active player.
    ///
    /// On rejection nothing is mutated and the error says which of the
    /// four checks failed. On success the piece is withdrawn from the
    /// active pool, written to the translated centre, and the eight
    /// neighbours are displaced as [`place_ok`] describes. The turn
    /// counter is not advanced and no alignment is resolved: both are the
    /// caller's next steps.
    pub fn place_piece(&mut self, piece_placement: PiecePlacement) -> (r: Result<
        (),
        PlacePieceError,
    >)
        requires
            old(self).wf(),
        ensures
            final(self).wf(),
            r is Err ==> *final(self) == *old(self),
            ({
                let ext = piece_placement.coordinate;
                let z = piece_placement.size;
                let who = old(self).active_player();
                &&& (ext.x > 5 ==> (r matches Err(e) && e.kind == PieceErrorKind::OutOfBoundsX))
                &&& (ext.x <= 5 && ext.y > 5 ==> (r matches Err(e) && e.kind
                    == PieceErrorKind::OutOfBoundsY))
                &&& (in_playable_ext(ext) && !(old(self).cell(ext.x + 2, ext.y + 2) is Empty)
                    ==> (r matches Err(e) && e.kind == PieceErrorKind::PositionOccupied))
                &&& (in_playable_ext(ext) && old(self).cell(ext.x + 2, ext.y + 2) is Empty && old(
                    self,
                ).pool(who, z) == 0 ==> (r matches Err(e) && e.kind
                    == PieceErrorKind::MissingPiece))
                &&& (r is Ok <==> in_playable_ext(ext) && old(self).cell(ext.x + 2, ext.y + 2)
                    is Empty && old(self).pool(who, z) > 0)
                &&& (r is Ok ==> place_ok(*old(self), *final(self), ext, z))
            }),
    {
        let ext = piece_placement.coordinate;
        if ext.x > 5 {
            return Result::Err(PlacePieceError { kind: PieceErrorKind::OutOfBoundsX });
        }
        if ext.y > 5 {
            return Result::Err(PlacePieceError { kind: PieceErrorKind::OutOfBoundsY });
        }
        let px: usize = ext.x + 2;
        let py: usize = ext.y + 2;
        let target: usize = px * 10 + py;
        let occupied = match self.game_board[target] {
            Cell::Empty => false,
            _ => true,
        };
        if occupied {
            proof {
                assert(target as int == cell_index(px as int, py as int));
            }
            return Result::Err(PlacePieceError { kind: PieceErrorKind::PositionOccupied });
        }
        let player_index: usize = self.turn_count % 2;
        let have = if player_index == 0 {
            self.pool0.count(piece_placement.size)
        } else {
            self.pool1.count(piece_placement.size)
        };
        if have == 0 {
            return Result::Err(PlacePieceError { kind: PieceErrorKind::MissingPiece });
        }
        self.apply_placement(px, py, piece_placement.size);
        Result::Ok(())
    }
}

/// The exec counterpart of [`dir_at`]: the k-th direction, encoded with
/// both components shifted up by one so they stay non-negative.
fn dir_offset(k: usize) -> (r: (usize, usize))
    requires
        k < 8,
    ensures
        r.0 <= 2,
        r.1 <= 2,
        (r.0 as int - 1, r.1 as int - 1) == dir_at(k as int),
{
    match k {
        0 => (0, 0),
        1 => (0, 1),
        2 => (0, 2),
        3 => (1, 2),
        4 => (2, 2),
        5 => (2, 1),
        6 => (2, 0),
        _ => (1, 0),
    }
}

} // verus!
