//! The alignment detector.
//!
//! For every playable cell holding a piece, four axes pass through it: the
//! two diagonals and the two orthogonal directions. When both neighbour
//! cells symmetric about the centre along an axis hold pieces of the same
//! owner as the centre, the ordered triple (neighbour, centre, neighbour)
//! is an alignment. A physical 3-cell line is discovered exactly once,
//! from its middle cell.

use vstd::prelude::*;

use crate::board::{cell_at, playable, Cell, Coordinate, ThreeInRow};
use crate::errors::{CellErrorKind, CheckCellError};
use crate::state::GameState;

verus! {

/// The four axis directions through a centre cell, in scan order: the
/// main diagonal, the horizontal, the anti-diagonal and the vertical.
pub open spec fn axis_at(k: int) -> (int, int) {
    if k == 0 {
        (-1, -1)
    } else if k == 1 {
        (-1, 0)
    } else if k == 2 {
        (-1, 1)
    } else {
        (0, -1)
    }
}

/// Whether the axis through (cx, cy) in direction `axis_at(k)` carries
/// three pieces of one owner.
pub open spec fn aligned_at(b: Seq<Cell>, cx: int, cy: int, k: int) -> bool {
    let ax = axis_at(k).0;
    let ay = axis_at(k).1;
    &&& cell_at(b, cx, cy) matches Cell::Piece(pc)
    &&& (cell_at(b, cx + ax, cy + ay) matches Cell::Piece(pa) && pa.owner == pc.owner)
    &&& (cell_at(b, cx - ax, cy - ay) matches Cell::Piece(pb) && pb.owner == pc.owner)
}

/// The triple recorded for an alignment through (cx, cy) along axis k.
pub open spec fn triple_at(cx: int, cy: int, k: int) -> ThreeInRow {
    let ax = axis_at(k).0;
    let ay = axis_at(k).1;
    ThreeInRow(
        Coordinate { x: (cx + ax) as usize, y: (cy + ay) as usize },
        Coordinate { x: cx as usize, y: cy as usize },
        Coordinate { x: (cx - ax) as usize, y: (cy - ay) as usize },
    )
}

/// The alignments through centre (cx, cy) along the first k axes, in scan
/// order.
pub open spec fn cell_matches_upto(b: Seq<Cell>, cx: int, cy: int, k: int) -> Seq<ThreeInRow>
    decreases k,
{
    if k <= 0 {
        Seq::empty()
    } else {
        cell_matches_upto(b, cx, cy, k - 1) + (if aligned_at(b, cx, cy, k - 1) {
            seq![triple_at(cx, cy, k - 1)]
        } else {
            Seq::empty()
        })
    }
}

/// All alignments centred on (cx, cy).
pub open spec fn cell_matches(b: Seq<Cell>, cx: int, cy: int) -> Seq<ThreeInRow> {
    cell_matches_upto(b, cx, cy, 4)
}

/// The alignments found by scanning the first n cells of the playable
/// region, row by row.
pub open spec fn board_matches_upto(b: Seq<Cell>, n: int) -> Seq<ThreeInRow>
    decreases n,
{
    if n <= 0 {
        Seq::empty()
    } else {
        board_matches_upto(b, n - 1) + cell_matches(b, 2 + (n - 1) / 6, 2 + (n - 1) % 6)
    }
}

/// All alignments on the board, in scan order.
pub open spec fn board_matches(b: Seq<Cell>) -> Seq<ThreeInRow> {
    board_matches_upto(b, 36)
}

/// Whether `m` is an alignment that the detector can report on board `b`:
/// a triple through some playable centre along one of the four axes.
pub open spec fn is_detected(b: Seq<Cell>, m: ThreeInRow) -> bool {
    exists|cx: int, cy: int, k: int|
        playable(cx, cy) && 0 <= k < 4 && aligned_at(b, cx, cy, k) && m == triple_at(cx, cy, k)
}

/// Every alignment centred on one cell comes from one of its axes.
pub proof fn lemma_cell_matches_shape(b: Seq<Cell>, cx: int, cy: int, kk: int, i: int)
    requires
        0 <= kk <= 4,
        0 <= i < cell_matches_upto(b, cx, cy, kk).len(),
    ensures
        exists|k: int|
            0 <= k < kk && aligned_at(b, cx, cy, k) && cell_matches_upto(b, cx, cy, kk)[i]
                == triple_at(cx, cy, k),
    decreases kk,
{
    if kk > 0 {
        let prev = cell_matches_upto(b, cx, cy, kk - 1);
        if i < prev.len() {
            lemma_cell_matches_shape(b, cx, cy, kk - 1, i);
            let k = choose|k: int|
                0 <= k < kk - 1 && aligned_at(b, cx, cy, k) && prev[i] == triple_at(cx, cy, k);
            assert(aligned_at(b, cx, cy, k) && cell_matches_upto(b, cx, cy, kk)[i] == triple_at(
                cx,
                cy,
                k,
            ));
        } else {
            assert(aligned_at(b, cx, cy, kk - 1) && cell_matches_upto(b, cx, cy, kk)[i]
                == triple_at(cx, cy, kk - 1));
        }
    }
}

/// Every alignment the board scan reports is an alignment of some
/// playable centre.
pub proof fn lemma_board_matches_shape(b: Seq<Cell>, n: int, i: int)
    requires
        0 <= n <= 36,
        0 <= i < board_matches_upto(b, n).len(),
    ensures
        is_detected(b, board_matches_upto(b, n)[i]),
    decreases n,
{
    if n > 0 {
        let prev = board_matches_upto(b, n - 1);
        let cx = 2 + (n - 1) / 6;
        let cy = 2 + (n - 1) % 6;
        if i < prev.len() {
            lemma_board_matches_shape(b, n - 1, i);
        } else {
            let j = i - prev.len();
            lemma_cell_matches_shape(b, cx, cy, 4, j);
            let k = choose|k: int|
                0 <= k < 4 && aligned_at(b, cx, cy, k) && cell_matches(b, cx, cy)[j] == triple_at(
                    cx,
                    cy,
                    k,
                );
            assert(playable(cx, cy));
            assert(aligned_at(b, cx, cy, k) && board_matches_upto(b, n)[i] == triple_at(cx, cy, k));
        }
    }
}

/// The exec counterpart of [`axis_at`]: the k-th axis, encoded with both
/// components shifted up by one so they stay non-negative.
fn axis_offset(k: usize) -> (r: (usize, usize))
    requires
        k < 4,
    ensures
        r.0 <= 1,
        r.1 <= 2,
        (r.0 as int - 1, r.1 as int - 1) == axis_at(k as int),
{
    match k {
        0 => (0, 0),
        1 => (0, 1),
        2 => (0, 2),
        _ => (1, 0),
    }
}

impl GameState {
    /// Detect the alignments centred on one internal coordinate.
    ///
    /// A coordinate outside the valid 2 ..= 7 range on either axis is
    /// rejected; an empty centre yields no alignment; a centre holding a
    /// piece yields the alignments of its four axes, in scan order.
    pub fn check_cell(&self, coordinate: Coordinate) -> (r: Result<Vec<ThreeInRow>, CheckCellError>)
        requires
            self.wf(),
        ensures
            coordinate.x < 2 || coordinate.x > 7 ==> (r matches Err(e) && e.kind
                == CellErrorKind::OutOfBoundsX),
            2 <= coordinate.x <= 7 && (coordinate.y < 2 || coordinate.y > 7) ==> (r matches Err(e)
                && e.kind == CellErrorKind::OutOfBoundsY),
            r is Ok <==> playable(coordinate.x as int, coordinate.y as int),
            r matches Ok(v) ==> v@ == cell_matches(
                self.board(),
                coordinate.x as int,
                coordinate.y as int,
            ),
    {
        if coordinate.x > 7 || coordinate.x < 2 {
            return Result::Err(CheckCellError { kind: CellErrorKind::OutOfBoundsX });
        }
        if coordinate.y > 7 || coordinate.y < 2 {
            return Result::Err(CheckCellError { kind: CellErrorKind::OutOfBoundsY });
        }
        let cx: usize = coordinate.x;
        let cy: usize = coordinate.y;
        let ghost cxi: int = cx as int;
        let ghost cyi: int = cy as int;
        match self.game_board[cx * 10 + cy] {
            Cell::OutOfBounds => {
                // Unreachable: playable cells are never border sentinels.
                proof {
                    assert(self.cell(cxi, cyi) is OutOfBounds);
                    assert(false);
                }
                Result::Err(CheckCellError { kind: CellErrorKind::CheckingOutOfBounds })
            },
            Cell::Empty => {
                proof {
                    reveal_with_fuel(cell_matches_upto, 5);
                    assert(cell_matches(self.board(), cxi, cyi) =~= Seq::<ThreeInRow>::empty());
                }
                Result::Ok(Vec::new())
            },
            Cell::Piece(center) => {
                let mut found: Vec<ThreeInRow> = Vec::new();
                let mut k: usize = 0;
                while k < 4
                    invariant
                        k <= 4,
                        self.game_board@.len() == 100,
                        cx as int == cxi,
                        cy as int == cyi,
                        playable(cxi, cyi),
                        cell_at(self.board(), cxi, cyi) == Cell::Piece(center),
                        found@ == cell_matches_upto(self.board(), cxi, cyi, k as int),
                    decreases 4 - k,
                {
                    let (ax2, ay2) = axis_offset(k);
                    let ax_cell: usize = cx - 1 + ax2;
                    let ay_cell: usize = cy - 1 + ay2;
                    let bx_cell: usize = cx + 1 - ax2;
                    let by_cell: usize = cy + 1 - ay2;
                    let ghost ax: int = ax2 as int - 1;
                    let ghost ay: int = ay2 as int - 1;
                    let ca = self.game_board[ax_cell * 10 + ay_cell];
                    let cb = self.game_board[bx_cell * 10 + by_cell];
                    let both_match = match (ca, cb) {
                        (Cell::Piece(pa), Cell::Piece(pb)) => pa.owner == center.owner && pb.owner
                            == center.owner,
                        _ => false,
                    };
                    proof {
                        assert(ca == cell_at(self.board(), cxi + ax, cyi + ay));
                        assert(cb == cell_at(self.board(), cxi - ax, cyi - ay));
                        assert(both_match == aligned_at(self.board(), cxi, cyi, k as int));
                    }
                    if both_match {
                        found.push(
                            ThreeInRow(
                                Coordinate { x: ax_cell, y: ay_cell },
                                Coordinate { x: cx, y: cy },
                                Coordinate { x: bx_cell, y: by_cell },
                            ),
                        );
                        proof {
                            assert(found@.last() == triple_at(cxi, cyi, k as int));
                            assert(found@ =~= cell_matches_upto(
                                self.board(),
                                cxi,
                                cyi,
                                k as int + 1,
                            ));
                        }
                    } else {
                        proof {
                            assert(found@ =~= cell_matches_upto(
                                self.board(),
                                cxi,
                                cyi,
                                k as int + 1,
                            ));
                        }
                    }
                    k = k + 1;
                }
                Result::Ok(found)
            },
        }
    }

    /// Detect every alignment on the board, scanning the playable region
    /// row by row and collecting the alignments centred on each cell.
    pub fn detect_matches(&self) -> (r: Vec<ThreeInRow>)
        requires
            self.wf(),
        ensures
            r@ == board_matches(self.board()),
    {
        let mut found: Vec<ThreeInRow> = Vec::new();
        let mut n: usize = 0;
        while n < 36
            invariant
                n <= 36,
                self.wf(),
                found@ == board_matches_upto(self.board(), n as int),
            decreases 36 - n,
        {
            let cx: usize = 2 + n / 6;
            let cy: usize = 2 + n % 6;
            let mut here = match self.check_cell(Coordinate { x: cx, y: cy }) {
                Result::Ok(v) => v,
                Result::Err(_) => {
                    // Unreachable: every scanned centre is playable.
                    proof {
                        assert(false);
                    }
                    Vec::new()
                },
            };
            found.append(&mut here);
            proof {
                assert(found@ =~= board_matches_upto(self.board(), n as int + 1));
            }
            n = n + 1;
        }
        found
    }
}

} // verus!
