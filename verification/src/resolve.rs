//! The match resolution protocol.
//!
//! One round of resolution detects every alignment, narrows the set by an
//! optional constraining coordinate, and branches on the count: none —
//! nothing happens; exactly one — the alignment is resolved (its three
//! cells are cleared, its owner is granted 3 Big pieces, and a line of
//! three Big pieces signals a win); more than one — the round reports
//! ambiguity and the caller must supply a constraining coordinate and
//! call again. A valid constraint strictly narrows the candidate set, so
//! the request/response loop terminates in at most as many rounds as
//! there are overlapping alignments.

use vstd::prelude::*;
use vstd::pervasive::VecAdditionalExecFns;

use crate::board::{
    cell_at, cell_index, on_board, playable, Cell, Coordinate, Piece, Size, ThreeInRow,
};
use crate::detect::{board_matches, is_detected, lemma_board_matches_shape};
use crate::state::GameState;

verus! {

/// Whether the triple holds the coordinate at any of its three places.
pub open spec fn triple_contains(m: ThreeInRow, c: Coordinate) -> bool {
    m.0 == c || m.1 == c || m.2 == c
}

/// The triples of `ms` that contain `c`, in their original order.
pub open spec fn constrained(ms: Seq<ThreeInRow>, c: Coordinate) -> Seq<ThreeInRow>
    decreases ms.len(),
{
    if ms.len() == 0 {
        Seq::empty()
    } else {
        constrained(ms.drop_last(), c) + (if triple_contains(ms.last(), c) {
            seq![ms.last()]
        } else {
            Seq::empty()
        })
    }
}

/// Every narrowed triple contains the constraint and comes from the
/// original set.
pub proof fn lemma_constrained_membership(ms: Seq<ThreeInRow>, c: Coordinate, i: int)
    requires
        0 <= i < constrained(ms, c).len(),
    ensures
        triple_contains(constrained(ms, c)[i], c),
        ms.contains(constrained(ms, c)[i]),
    decreases ms.len(),
{
    if ms.len() > 0 {
        let prev = constrained(ms.drop_last(), c);
        if i < prev.len() {
            lemma_constrained_membership(ms.drop_last(), c, i);
            let j = choose|j: int| 0 <= j < ms.drop_last().len() && ms.drop_last()[j] == prev[i];
            assert(ms[j] == constrained(ms, c)[i]);
        } else {
            assert(ms[ms.len() - 1] == constrained(ms, c)[i]);
        }
    }
}

/// How the engine turns an external constraining coordinate into an
/// internal one: inside the playable region it adds the border width;
/// anything else becomes a border coordinate that no triple can contain,
/// so an invalid constraint narrows the candidates to none rather than
/// crashing.
pub open spec fn ext_to_internal(c: Coordinate) -> Coordinate {
    if c.x <= 5 && c.y <= 5 {
        Coordinate { x: (c.x + 2) as usize, y: (c.y + 2) as usize }
    } else {
        Coordinate { x: 9, y: 9 }
    }
}

/// The candidate set of one resolution round: every alignment on the
/// board, narrowed to those containing the translated constraint when one
/// is given.
pub open spec fn effective_matches(pre: GameState, oc: Option<Coordinate>) -> Seq<ThreeInRow> {
    match oc {
        Option::None => board_matches(pre.board()),
        Option::Some(c) => constrained(board_matches(pre.board()), ext_to_internal(c)),
    }
}

/// What resolution demands of a triple: three distinct playable cells in
/// a line through the centre, all holding pieces of one owner.
pub open spec fn valid_triple_on(b: Seq<Cell>, m: ThreeInRow) -> bool {
    &&& playable(m.0.x as int, m.0.y as int)
    &&& playable(m.1.x as int, m.1.y as int)
    &&& playable(m.2.x as int, m.2.y as int)
    &&& m.0 != m.1 && m.1 != m.2 && m.0 != m.2
    &&& cell_at(b, m.1.x as int, m.1.y as int) matches Cell::Piece(pc)
    &&& (cell_at(b, m.0.x as int, m.0.y as int) matches Cell::Piece(pa) && pa.owner == pc.owner)
    &&& (cell_at(b, m.2.x as int, m.2.y as int) matches Cell::Piece(pb) && pb.owner == pc.owner)
}

/// The owner of a resolved triple: whoever owns the piece on its centre.
pub open spec fn triple_owner(b: Seq<Cell>, m: ThreeInRow) -> int {
    match cell_at(b, m.1.x as int, m.1.y as int) {
        Cell::Piece(p) => p.owner as int,
        _ => 0,
    }
}

/// Whether all three cells of the triple hold Big pieces: the winning
/// configuration.
pub open spec fn triple_all_big(b: Seq<Cell>, m: ThreeInRow) -> bool {
    &&& cell_at(b, m.0.x as int, m.0.y as int) matches Cell::Piece(pa) && pa.size is Big
    &&& cell_at(b, m.1.x as int, m.1.y as int) matches Cell::Piece(pb) && pb.size is Big
    &&& cell_at(b, m.2.x as int, m.2.y as int) matches Cell::Piece(pc) && pc.size is Big
}

/// The promotion effect of resolving triple `m`: its three cells are
/// cleared, its owner's pool is granted 3 Big pieces (a reward, not a
/// relocation: the three pieces on the board are consumed), and nothing
/// else changes.
pub open spec fn resolve_applied(pre: GameState, post: GameState, m: ThreeInRow) -> bool {
    let who = triple_owner(pre.board(), m);
    &&& post.board().len() == 100
    &&& forall|x: int, y: int|
        on_board(x, y) ==> #[trigger] post.cell(x, y) == (if (x == m.0.x && y == m.0.y) || (x
            == m.1.x && y == m.1.y) || (x == m.2.x && y == m.2.y) {
            Cell::Empty
        } else {
            pre.cell(x, y)
        })
    &&& forall|o: int, z: Size|
        0 <= o < 2 ==> #[trigger] post.pool(o, z) == pre.pool(o, z) + (if o == who && z is Big {
            3int
        } else {
            0int
        })
    &&& post.turn_count == pre.turn_count
}

/// What one resolution round reports back to the caller.
#[derive(Debug, Clone, Copy, PartialEq, Eq, Structural)]
pub enum ResolveOutcome {
    /// No alignment matched: the state is unchanged.
    NoMatch,
    /// Exactly one alignment matched and was resolved for `owner`; `won`
    /// signals that all three of its pieces were Big, which ends the
    /// game.
    Resolved { owner: usize, won: bool },
    /// More than one alignment matched: the state is unchanged and the
    /// caller must ask its collaborator for a constraining coordinate and
    /// call again.
    Ambiguous,
}

/// Keep only the triples that contain the given internal coordinate.
pub fn filter_matches(ms: &Vec<ThreeInRow>, c: Coordinate) -> (r: Vec<ThreeInRow>)
    ensures
        r@ == constrained(ms@, c),
{
    let mut out: Vec<ThreeInRow> = Vec::new();
    let mut i: usize = 0;
    while i < ms.len()
        invariant
            i <= ms@.len(),
            out@ == constrained(ms@.subrange(0, i as int), c),
        decreases ms@.len() - i,
    {
        let m = ms[i];
        if m.0 == c || m.1 == c || m.2 == c {
            out.push(m);
        }
        proof {
            assert(ms@.subrange(0, i as int + 1).drop_last() =~= ms@.subrange(0, i as int));
            assert(ms@.subrange(0, i as int + 1).last() == ms@[i as int]);
            assert(out@ =~= constrained(ms@.subrange(0, i as int + 1), c));
        }
        i = i + 1;
    }
    proof {
        assert(ms@.subrange(0, ms@.len() as int) =~= ms@);
    }
    out
}

/// The exec counterpart of [`ext_to_internal`].
fn translate_constraint(c: Coordinate) -> (r: Coordinate)
    ensures
        r == ext_to_internal(c),
{
    if c.x <= 5 && c.y <= 5 {
        Coordinate { x: c.x + 2, y: c.y + 2 }
    } else {
        Coordinate { x: 9, y: 9 }
    }
}

impl GameState {
    /// Resolve one valid triple: clear its three cells and grant its
    /// owner 3 Big pieces. Returns the owner and whether the triple was
    /// all Big.
    fn resolve_triple(&mut self, m: ThreeInRow) -> (r: (usize, bool))
        requires
            old(self).wf(),
            valid_triple_on(old(self).board(), m),
        ensures
            final(self).wf(),
            r.0 as int == triple_owner(old(self).board(), m),
            r.1 == triple_all_big(old(self).board(), m),
            resolve_applied(*old(self), *final(self), m),
    {
        let i0: usize = m.0.x * 10 + m.0.y;
        let i1: usize = m.1.x * 10 + m.1.y;
        let i2: usize = m.2.x * 10 + m.2.y;
        let ghost x0: int = m.0.x as int;
        let ghost y0: int = m.0.y as int;
        let ghost x1: int = m.1.x as int;
        let ghost y1: int = m.1.y as int;
        let ghost x2: int = m.2.x as int;
        let ghost y2: int = m.2.y as int;
        proof {
            assert(i0 as int == cell_index(x0, y0));
            assert(i1 as int == cell_index(x1, y1));
            assert(i2 as int == cell_index(x2, y2));
            assert(i0 != i1 && i1 != i2 && i0 != i2) by {
                if i0 as int == i1 as int {
                    crate::board::lemma_cell_index_injective(x0, y0, x1, y1);
                }
                if i1 as int == i2 as int {
                    crate::board::lemma_cell_index_injective(x1, y1, x2, y2);
                }
                if i0 as int == i2 as int {
                    crate::board::lemma_cell_index_injective(x0, y0, x2, y2);
                }
            }
        }
        let dummy = Piece { owner: 0, size: Size::Small };
        let p0 = match self.game_board[i0] {
            Cell::Piece(p) => p,
            _ => {
                proof {
                    assert(false);
                }
                dummy
            },
        };
        let p1 = match self.game_board[i1] {
            Cell::Piece(p) => p,
            _ => {
                proof {
                    assert(false);
                }
                dummy
            },
        };
        let p2 = match self.game_board[i2] {
            Cell::Piece(p) => p,
            _ => {
                proof {
                    assert(false);
                }
                dummy
            },
        };
        let owner: usize = p1.owner;
        let won: bool = p0.size == Size::Big && p1.size == Size::Big && p2.size == Size::Big;
        proof {
            assert(self.cell(x1, y1) matches Cell::Piece(pc) && pc.owner < 2);
        }
        // Clear the three cells.
        let mut board: Vec<Cell> = Vec::new();
        core::mem::swap(&mut board, &mut self.game_board);
        let ghost b0: Seq<Cell> = board@;
        board.set(i0, Cell::Empty);
        proof {
            crate::board::lemma_piece_count_update(b0, i0 as int, Cell::Empty);
        }
        let ghost ba: Seq<Cell> = board@;
        board.set(i1, Cell::Empty);
        proof {
            crate::board::lemma_piece_count_update(ba, i1 as int, Cell::Empty);
        }
        let ghost bb: Seq<Cell> = board@;
        board.set(i2, Cell::Empty);
        proof {
            crate::board::lemma_piece_count_update(bb, i2 as int, Cell::Empty);
        }
        core::mem::swap(&mut board, &mut self.game_board);
        // Grant the owner 3 new Big pieces.
        proof {
            assert(self.pool0.total() + self.pool1.total() <= 16);
        }
        if owner == 0 {
            self.pool0.big = self.pool0.big + 3;
        } else {
            self.pool1.big = self.pool1.big + 3;
        }
        proof {
            let pre = *old(self);
            assert forall|x: int, y: int| on_board(x, y) implies #[trigger] self.cell(x, y) == (
            if (x == m.0.x && y == m.0.y) || (x == m.1.x && y == m.1.y) || (x == m.2.x && y
                == m.2.y) {
                Cell::Empty
            } else {
                pre.cell(x, y)
            }) by {
                if !((x == x0 && y == y0) || (x == x1 && y == y1) || (x == x2 && y == y2)) {
                    assert(cell_index(x, y) != i0 as int) by {
                        if cell_index(x, y) == i0 as int {
                            crate::board::lemma_cell_index_injective(x, y, x0, y0);
                        }
                    }
                    assert(cell_index(x, y) != i1 as int) by {
                        if cell_index(x, y) == i1 as int {
                            crate::board::lemma_cell_index_injective(x, y, x1, y1);
                        }
                    }
                    assert(cell_index(x, y) != i2 as int) by {
                        if cell_index(x, y) == i2 as int {
                            crate::board::lemma_cell_index_injective(x, y, x2, y2);
                        }
                    }
                }
            }
            assert(resolve_applied(pre, *self, m));
        }
        (owner, won)
    }

    /// Run one round of the match resolution protocol.
    ///
    /// Detects every alignment on the board, narrows by the optional
    /// external constraining coordinate, and resolves when exactly one
    /// candidate remains. With no candidate, or with more than one, the
    /// state is unchanged; on ambiguity the caller re-prompts its
    /// collaborator and calls again with the answer.
    pub fn resolve_matches(&mut self, constraining_coordinate: Option<Coordinate>) -> (r:
        ResolveOutcome)
        requires
            old(self).wf(),
        ensures
            final(self).wf(),
            ({
                let ms = effective_matches(*old(self), constraining_coordinate);
                &&& (ms.len() == 0 ==> r == ResolveOutcome::NoMatch && *final(self) == *old(self))
                &&& (ms.len() > 1 ==> r == ResolveOutcome::Ambiguous && *final(self) == *old(self))
                &&& (ms.len() == 1 ==> (r matches ResolveOutcome::Resolved { owner, won }
                    && owner as int == triple_owner(old(self).board(), ms[0]) && won
                    == triple_all_big(old(self).board(), ms[0]) && resolve_applied(
                    *old(self),
                    *final(self),
                    ms[0],
                )))
            }),
    {
        let all = self.detect_matches();
        let ms = match constraining_coordinate {
            Option::None => all,
            Option::Some(c) => {
                let ci = translate_constraint(c);
                filter_matches(&all, ci)
            },
        };
        if ms.len() == 0 {
            ResolveOutcome::NoMatch
        } else if ms.len() == 1 {
            let m = ms[0];
            proof {
                let b = self.board();
                assert forall|x: int, y: int| on_board(x, y) implies ((#[trigger] cell_at(b, x, y))
                    is OutOfBounds <==> !playable(x, y)) by {
                    assert(cell_at(b, x, y) == self.cell(x, y));
                }
                if constraining_coordinate is Some {
                    lemma_constrained_membership(board_matches(b), ext_to_internal(constraining_coordinate->0), 0);
                    let j = choose|j: int|
                        0 <= j < board_matches(b).len() && board_matches(b)[j] == m;
                    lemma_board_matches_shape(b, 36, j);
                } else {
                    lemma_board_matches_shape(b, 36, 0);
                }
                lemma_detected_valid(b, m);
            }
            let (owner, won) = self.resolve_triple(m);
            ResolveOutcome::Resolved { owner, won }
        } else {
            ResolveOutcome::Ambiguous
        }
    }
}

/// A reported alignment really is three distinct playable same-owner
/// cells on a well-bordered board.
pub proof fn lemma_detected_valid(b: Seq<Cell>, m: ThreeInRow)
    requires
        forall|x: int, y: int|
            on_board(x, y) ==> ((#[trigger] cell_at(b, x, y)) is OutOfBounds <==> !playable(x, y)),
        is_detected(b, m),
    ensures
        valid_triple_on(b, m),
{
    let (cx, cy, k) = choose|cx: int, cy: int, k: int|
        playable(cx, cy) && 0 <= k < 4 && crate::detect::aligned_at(b, cx, cy, k) && m
            == crate::detect::triple_at(cx, cy, k);
    let ax = crate::detect::axis_at(k).0;
    let ay = crate::detect::axis_at(k).1;
    assert(on_board(cx + ax, cy + ay));
    assert(on_board(cx - ax, cy - ay));
    assert(!(cell_at(b, cx + ax, cy + ay) is OutOfBounds));
    assert(!(cell_at(b, cx - ax, cy - ay) is OutOfBounds));
    assert(playable(cx + ax, cy + ay));
    assert(playable(cx - ax, cy - ay));
}

} // verus!
