//! The engine's laws: properties that relate several operations or hold
//! across all inputs, stated once over the same spec functions the
//! operations' contracts use, and proved here.

use vstd::prelude::*;

use crate::board::{cell_at, cell_index, on_board, playable, Cell, Coordinate, Piece, Size,
    ThreeInRow};
use crate::detect::{aligned_at, board_matches, board_matches_upto, cell_matches,
    cell_matches_upto, triple_at};
use crate::place::{bounce_captures, bounce_moves, capture_gain, capture_of, dir_at, dir_index,
    lemma_capture_gain_covers, lemma_dir_roundtrip, place_ok, placement_board, unit_offset};
use crate::resolve::{constrained, triple_contains};
use crate::state::GameState;

verus! {

/// Pool conservation: an accepted placement puts exactly the new piece on
/// the target cell, and the active pool's count for the placed size goes
/// down by exactly one, apart from bounce captures credited back by
/// [`capture_gain`].
pub proof fn lemma_pool_conservation(pre: GameState, post: GameState, ext: Coordinate, size: Size)
    requires
        pre.wf(),
        place_ok(pre, post, ext, size),
    ensures
        post.cell(ext.x + 2, ext.y + 2) == Cell::Piece(
            Piece { owner: pre.active_player() as usize, size: size },
        ),
        post.pool(pre.active_player(), size) + 1 == pre.pool(pre.active_player(), size)
            + capture_gain(
            placement_board(pre, ext.x + 2, ext.y + 2, size),
            size,
            ext.x + 2,
            ext.y + 2,
            pre.active_player(),
            size,
        ),
{
    let px = ext.x + 2;
    let py = ext.y + 2;
    let who = pre.active_player();
    let b1 = placement_board(pre, px, py, size);
    assert(post.pool(who, size) + 1int == pre.pool(who, size) + capture_gain(
        b1,
        size,
        px,
        py,
        who,
        size,
    ));
    assert(post.cell(px, py) == crate::place::bounced_cell(b1, size, px, py, px, py));
    assert(cell_at(b1, px, py) == Cell::Piece(Piece { owner: who as usize, size: size }));
}

/// Bounce immunity: a Small placement never relocates or captures a Big
/// piece — every cell that held a Big piece before the move still holds
/// it afterwards.
pub proof fn lemma_big_piece_immune(
    pre: GameState,
    post: GameState,
    ext: Coordinate,
    x: int,
    y: int,
)
    requires
        pre.wf(),
        place_ok(pre, post, ext, Size::Small),
        on_board(x, y),
        pre.cell(x, y) matches Cell::Piece(p) && p.size is Big,
    ensures
        post.cell(x, y) == pre.cell(x, y),
{
    let px = ext.x + 2;
    let py = ext.y + 2;
    let b1 = placement_board(pre, px, py, Size::Small);
    assert(cell_index(x, y) != cell_index(px, py)) by {
        if cell_index(x, y) == cell_index(px, py) {
            crate::board::lemma_cell_index_injective(x, y, px, py);
        }
    }
    assert(cell_at(b1, x, y) == pre.cell(x, y));
    assert(post.cell(x, y) == crate::place::bounced_cell(b1, Size::Small, px, py, x, y));
}

/// Bounce capture: when a placement pushes a neighbouring piece off the
/// border, that cell is emptied and the capture is credited to the
/// piece's owner, so a pool not touched by the placement's own
/// withdrawal grows by at least one.
pub proof fn lemma_bounce_capture_returns(
    pre: GameState,
    post: GameState,
    ext: Coordinate,
    size: Size,
    ux: int,
    uy: int,
)
    requires
        pre.wf(),
        place_ok(pre, post, ext, size),
        unit_offset(ux, uy),
        bounce_captures(
            placement_board(pre, ext.x + 2, ext.y + 2, size),
            size,
            ext.x + 2,
            ext.y + 2,
            ux,
            uy,
        ),
    ensures
        post.cell(ext.x + 2 + ux, ext.y + 2 + uy) is Empty,
        cell_at(placement_board(pre, ext.x + 2, ext.y + 2, size), ext.x + 2 + ux, ext.y + 2 + uy)
            matches Cell::Piece(p) && (p.owner != pre.active_player() || p.size != size
            ==> post.pool(p.owner as int, p.size) >= pre.pool(p.owner as int, p.size) + 1),
{
    let px = ext.x + 2;
    let py = ext.y + 2;
    let who = pre.active_player();
    let b1 = placement_board(pre, px, py, size);
    assert(post.cell(px + ux, py + uy) == crate::place::bounced_cell(b1, size, px, py, px + ux, py
        + uy));
    lemma_dir_roundtrip(ux, uy);
    let p = cell_at(b1, px + ux, py + uy)->Piece_0;
    assert(capture_of(b1, size, px, py, ux, uy, p.owner as int, p.size) == 1);
    lemma_capture_gain_covers(b1, size, px, py, 8, dir_index(ux, uy), p.owner as int, p.size);
    assert(capture_gain(b1, size, px, py, p.owner as int, p.size) >= 1);
    assert(0 <= p.owner < 2) by {
        if cell_index(px + ux, py + uy) == cell_index(px, py) {
            crate::board::lemma_cell_index_injective(px + ux, py + uy, px, py);
        } else {
            assert(cell_at(b1, px + ux, py + uy) == pre.cell(px + ux, py + uy));
        }
    }
    assert(post.pool(p.owner as int, p.size) + (if p.owner as int == who && p.size == size {
        1int
    } else {
        0int
    }) == pre.pool(p.owner as int, p.size) + capture_gain(b1, size, px, py, p.owner as int, p.size));
}

/// Bounce block: when the cell two steps out in a bounce direction holds
/// a piece, the adjacent piece does not move.
pub proof fn lemma_bounce_blocked(
    pre: GameState,
    post: GameState,
    ext: Coordinate,
    size: Size,
    ux: int,
    uy: int,
)
    requires
        pre.wf(),
        place_ok(pre, post, ext, size),
        unit_offset(ux, uy),
        cell_at(
            placement_board(pre, ext.x + 2, ext.y + 2, size),
            ext.x + 2 + 2 * ux,
            ext.y + 2 + 2 * uy,
        ) is Piece,
    ensures
        post.cell(ext.x + 2 + ux, ext.y + 2 + uy) == pre.cell(ext.x + 2 + ux, ext.y + 2 + uy),
{
    let px = ext.x + 2;
    let py = ext.y + 2;
    let b1 = placement_board(pre, px, py, size);
    assert(cell_index(px + ux, py + uy) != cell_index(px, py)) by {
        if cell_index(px + ux, py + uy) == cell_index(px, py) {
            crate::board::lemma_cell_index_injective(px + ux, py + uy, px, py);
        }
    }
    assert(cell_at(b1, px + ux, py + uy) == pre.cell(px + ux, py + uy));
    assert(post.cell(px + ux, py + uy) == crate::place::bounced_cell(b1, size, px, py, px + ux, py
        + uy));
    assert(!bounce_moves(b1, size, px, py, ux, uy));
}

/// How often a triple occurs in a reported sequence of alignments.
pub open spec fn occurrences(ms: Seq<ThreeInRow>, m: ThreeInRow) -> nat
    decreases ms.len(),
{
    if ms.len() == 0 {
        0
    } else {
        occurrences(ms.drop_last(), m) + (if ms.last() == m {
            1nat
        } else {
            0nat
        })
    }
}

/// Occurrences distribute over concatenation.
pub proof fn lemma_occurrences_add(a: Seq<ThreeInRow>, b: Seq<ThreeInRow>, m: ThreeInRow)
    ensures
        occurrences(a + b, m) == occurrences(a, m) + occurrences(b, m),
    decreases b.len(),
{
    if b.len() == 0 {
        assert(a + b =~= a);
    } else {
        assert((a + b).drop_last() =~= a + b.drop_last());
        lemma_occurrences_add(a, b.drop_last(), m);
        assert((a + b).last() == b.last());
    }
}

proof fn lemma_occurrences_singleton(t: ThreeInRow, m: ThreeInRow)
    ensures
        occurrences(seq![t], m) == (if t == m {
            1nat
        } else {
            0nat
        }),
{
    assert(seq![t].drop_last() =~= Seq::<ThreeInRow>::empty());
    assert(occurrences(Seq::<ThreeInRow>::empty(), m) == 0);
    assert(seq![t].last() == t);
}

/// Distinct axes through one centre yield distinct triples.
proof fn lemma_triple_at_injective(cx: int, cy: int, k1: int, k2: int)
    requires
        playable(cx, cy),
        0 <= k1 < 4,
        0 <= k2 < 4,
        triple_at(cx, cy, k1) == triple_at(cx, cy, k2),
    ensures
        k1 == k2,
{
}

/// How often one axis's triple occurs among the alignments of its own
/// centre: once when that axis is aligned, never otherwise.
proof fn lemma_cell_matches_count(b: Seq<Cell>, cx: int, cy: int, kk: int, k0: int)
    requires
        playable(cx, cy),
        0 <= kk <= 4,
        0 <= k0 < 4,
    ensures
        occurrences(cell_matches_upto(b, cx, cy, kk), triple_at(cx, cy, k0)) == (if k0 < kk
            && aligned_at(b, cx, cy, k0) {
            1nat
        } else {
            0nat
        }),
    decreases kk,
{
    if kk > 0 {
        lemma_cell_matches_count(b, cx, cy, kk - 1, k0);
        let tail: Seq<ThreeInRow> = if aligned_at(b, cx, cy, kk - 1) {
            seq![triple_at(cx, cy, kk - 1)]
        } else {
            Seq::empty()
        };
        lemma_occurrences_add(cell_matches_upto(b, cx, cy, kk - 1), tail, triple_at(cx, cy, k0));
        if aligned_at(b, cx, cy, kk - 1) {
            lemma_occurrences_singleton(triple_at(cx, cy, kk - 1), triple_at(cx, cy, k0));
            if kk - 1 != k0 {
                assert(triple_at(cx, cy, kk - 1) != triple_at(cx, cy, k0)) by {
                    if triple_at(cx, cy, kk - 1) == triple_at(cx, cy, k0) {
                        lemma_triple_at_injective(cx, cy, kk - 1, k0);
                    }
                }
            }
        }
    }
}

/// A triple whose centre is another cell never occurs among the
/// alignments of this centre.
proof fn lemma_cell_matches_centre(b: Seq<Cell>, cx: int, cy: int, kk: int, m: ThreeInRow)
    requires
        0 <= kk <= 4,
        m.1 != (Coordinate { x: cx as usize, y: cy as usize }),
    ensures
        occurrences(cell_matches_upto(b, cx, cy, kk), m) == 0,
    decreases kk,
{
    if kk > 0 {
        lemma_cell_matches_centre(b, cx, cy, kk - 1, m);
        let tail: Seq<ThreeInRow> = if aligned_at(b, cx, cy, kk - 1) {
            seq![triple_at(cx, cy, kk - 1)]
        } else {
            Seq::empty()
        };
        lemma_occurrences_add(cell_matches_upto(b, cx, cy, kk - 1), tail, m);
        if aligned_at(b, cx, cy, kk - 1) {
            lemma_occurrences_singleton(triple_at(cx, cy, kk - 1), m);
        }
    }
}

/// Across the whole scan, a triple occurs exactly as often as it occurs
/// among the alignments of its own centre cell.
proof fn lemma_board_occ_centre(b: Seq<Cell>, n: int, m: ThreeInRow)
    requires
        0 <= n <= 36,
        playable(m.1.x as int, m.1.y as int),
    ensures
        occurrences(board_matches_upto(b, n), m) == (if (m.1.x - 2) * 6 + (m.1.y - 2) < n {
            occurrences(cell_matches(b, m.1.x as int, m.1.y as int), m)
        } else {
            0nat
        }),
    decreases n,
{
    if n > 0 {
        lemma_board_occ_centre(b, n - 1, m);
        let cxn = 2 + (n - 1) / 6;
        let cyn = 2 + (n - 1) % 6;
        lemma_occurrences_add(board_matches_upto(b, n - 1), cell_matches(b, cxn, cyn), m);
        if cxn == m.1.x as int && cyn == m.1.y as int {
            assert((m.1.x - 2) * 6 + (m.1.y - 2) == n - 1) by (nonlinear_arith)
                requires
                    cxn == 2 + (n - 1) / 6,
                    cyn == 2 + (n - 1) % 6,
                    cxn == m.1.x as int,
                    cyn == m.1.y as int,
                    0 < n <= 36,
            ;
        } else {
            assert(m.1 != (Coordinate { x: cxn as usize, y: cyn as usize }));
            lemma_cell_matches_centre(b, cxn, cyn, 4, m);
            assert((m.1.x - 2) * 6 + (m.1.y - 2) != n - 1) by (nonlinear_arith)
                requires
                    cxn == 2 + (n - 1) / 6,
                    cyn == 2 + (n - 1) % 6,
                    !(cxn == m.1.x as int && cyn == m.1.y as int),
                    playable(m.1.x as int, m.1.y as int),
                    0 < n <= 36,
            ;
        }
    }
}

/// Alignment symmetry: a line of three same-owner pieces is reported
/// exactly once, as the triple centred on its middle cell, and the
/// reversed reading of the same line is never reported.
pub proof fn lemma_alignment_detected_once(b: Seq<Cell>, cx: int, cy: int, k: int)
    requires
        playable(cx, cy),
        0 <= k < 4,
        aligned_at(b, cx, cy, k),
    ensures
        occurrences(board_matches(b), triple_at(cx, cy, k)) == 1,
        occurrences(
            board_matches(b),
            ThreeInRow(triple_at(cx, cy, k).2, triple_at(cx, cy, k).1, triple_at(cx, cy, k).0),
        ) == 0,
{
    let m = triple_at(cx, cy, k);
    assert(m.1.x as int == cx && m.1.y as int == cy);
    lemma_board_occ_centre(b, 36, m);
    assert(0 <= (m.1.x - 2) * 6 + (m.1.y - 2) < 36) by (nonlinear_arith)
        requires
            playable(m.1.x as int, m.1.y as int),
    ;
    lemma_cell_matches_count(b, cx, cy, 4, k);

    let rev = ThreeInRow(m.2, m.1, m.0);
    lemma_board_occ_centre(b, 36, rev);
    lemma_cell_matches_rev(b, cx, cy, 4, k);
}

/// The reversed reading of an axis triple never occurs among the
/// alignments of its centre: every axis is scanned with one fixed
/// orientation.
proof fn lemma_cell_matches_rev(b: Seq<Cell>, cx: int, cy: int, kk: int, k0: int)
    requires
        playable(cx, cy),
        0 <= kk <= 4,
        0 <= k0 < 4,
    ensures
        occurrences(
            cell_matches_upto(b, cx, cy, kk),
            ThreeInRow(triple_at(cx, cy, k0).2, triple_at(cx, cy, k0).1, triple_at(cx, cy, k0).0),
        ) == 0,
    decreases kk,
{
    let rev = ThreeInRow(triple_at(cx, cy, k0).2, triple_at(cx, cy, k0).1, triple_at(cx, cy, k0).0);
    if kk > 0 {
        lemma_cell_matches_rev(b, cx, cy, kk - 1, k0);
        let tail: Seq<ThreeInRow> = if aligned_at(b, cx, cy, kk - 1) {
            seq![triple_at(cx, cy, kk - 1)]
        } else {
            Seq::empty()
        };
        lemma_occurrences_add(cell_matches_upto(b, cx, cy, kk - 1), tail, rev);
        if aligned_at(b, cx, cy, kk - 1) {
            lemma_occurrences_singleton(triple_at(cx, cy, kk - 1), rev);
            assert(triple_at(cx, cy, kk - 1) != rev);
        }
    }
}

/// Disambiguation narrowing: constraining on a coordinate keeps exactly
/// the triples that contain it, each exactly as often as before, and
/// drops every other triple.
pub proof fn lemma_constrain_exact(ms: Seq<ThreeInRow>, q: Coordinate, m: ThreeInRow)
    ensures
        occurrences(constrained(ms, q), m) == (if triple_contains(m, q) {
            occurrences(ms, m)
        } else {
            0nat
        }),
    decreases ms.len(),
{
    if ms.len() > 0 {
        lemma_constrain_exact(ms.drop_last(), q, m);
        let tail: Seq<ThreeInRow> = if triple_contains(ms.last(), q) {
            seq![ms.last()]
        } else {
            Seq::empty()
        };
        lemma_occurrences_add(constrained(ms.drop_last(), q), tail, m);
        if triple_contains(ms.last(), q) {
            lemma_occurrences_singleton(ms.last(), m);
        }
    }
}

/// A constraining coordinate never grows the candidate set, and it
/// strictly shrinks any set holding a triple that does not contain it.
/// This is the ground for the termination of the resolution loop: a
/// coordinate that narrows drops at least one candidate per round.
pub proof fn lemma_constrain_narrows(ms: Seq<ThreeInRow>, q: Coordinate)
    ensures
        constrained(ms, q).len() <= ms.len(),
        (exists|i: int| 0 <= i < ms.len() && !triple_contains(#[trigger] ms[i], q)) ==> constrained(
            ms,
            q,
        ).len() < ms.len(),
    decreases ms.len(),
{
    if ms.len() > 0 {
        lemma_constrain_narrows(ms.drop_last(), q);
        if exists|i: int| 0 <= i < ms.len() && !triple_contains(#[trigger] ms[i], q) {
            let i = choose|i: int| 0 <= i < ms.len() && !triple_contains(#[trigger] ms[i], q);
            if i < ms.len() - 1 {
                assert(!triple_contains(ms.drop_last()[i], q));
            }
        }
    }
}

} // verus!
