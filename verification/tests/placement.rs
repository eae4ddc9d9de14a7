use trigrid::board::{Cell, Coordinate, Piece, Size};
use trigrid::errors::PieceErrorKind;
use trigrid::place::PiecePlacement;
use trigrid::state::GameState;

fn place_at(state: &mut GameState, size: Size, x: usize, y: usize) -> Result<(), PieceErrorKind> {
    state
        .place_piece(PiecePlacement { coordinate: Coordinate { x, y }, size })
        .map_err(|e| e.kind)
}

#[test]
fn init_board_layout() {
    let state = GameState::init();
    assert_eq!(state.turn_count, 0);
    assert_eq!(state.pool_count(0, Size::Small), 8);
    assert_eq!(state.pool_count(0, Size::Big), 0);
    assert_eq!(state.pool_count(1, Size::Small), 8);
    assert_eq!(state.pool_count(1, Size::Big), 0);
    assert_eq!(state.get_cell(0, 0), Cell::OutOfBounds);
    assert_eq!(state.get_cell(1, 5), Cell::OutOfBounds);
    assert_eq!(state.get_cell(2, 2), Cell::Empty);
    assert_eq!(state.get_cell(7, 7), Cell::Empty);
    assert_eq!(state.get_cell(8, 4), Cell::OutOfBounds);
    assert_eq!(state.get_cell(9, 9), Cell::OutOfBounds);
}

#[test]
fn place_rejects_out_of_bounds_x() {
    let mut state = GameState::init();
    assert_eq!(place_at(&mut state, Size::Small, 6, 0), Err(PieceErrorKind::OutOfBoundsX));
    assert_eq!(place_at(&mut state, Size::Small, 99, 3), Err(PieceErrorKind::OutOfBoundsX));
    // nothing changed
    assert_eq!(state.pool_count(0, Size::Small), 8);
    for x in 2..8 {
        for y in 2..8 {
            assert_eq!(state.get_cell(x, y), Cell::Empty);
        }
    }
}

#[test]
fn place_rejects_out_of_bounds_y() {
    let mut state = GameState::init();
    assert_eq!(place_at(&mut state, Size::Small, 0, 6), Err(PieceErrorKind::OutOfBoundsY));
    assert_eq!(place_at(&mut state, Size::Big, 5, 4000), Err(PieceErrorKind::OutOfBoundsY));
    assert_eq!(state.pool_count(0, Size::Small), 8);
    assert_eq!(state.pool_count(0, Size::Big), 0);
}

#[test]
fn place_rejects_occupied_position() {
    let mut state = GameState::init();
    assert_eq!(place_at(&mut state, Size::Small, 1, 1), Ok(()));
    assert_eq!(place_at(&mut state, Size::Small, 1, 1), Err(PieceErrorKind::PositionOccupied));
    // the first placement is untouched and only one piece was withdrawn
    assert_eq!(state.get_cell(3, 3), Cell::Piece(Piece { owner: 0, size: Size::Small }));
    assert_eq!(state.pool_count(0, Size::Small), 7);
}

#[test]
fn place_rejects_missing_piece() {
    let mut state = GameState::init();
    // no Big piece is in the pool at game start
    assert_eq!(place_at(&mut state, Size::Big, 1, 1), Err(PieceErrorKind::MissingPiece));
    assert_eq!(state.get_cell(3, 3), Cell::Empty);
}

#[test]
fn place_withdraws_one_piece_and_fills_cell() {
    let mut state = GameState::init();
    assert_eq!(place_at(&mut state, Size::Small, 1, 1), Ok(()));
    assert_eq!(state.get_cell(3, 3), Cell::Piece(Piece { owner: 0, size: Size::Small }));
    assert_eq!(state.pool_count(0, Size::Small), 7);
    assert_eq!(state.pool_count(0, Size::Big), 0);
    assert_eq!(state.pool_count(1, Size::Small), 8);
    // placement does not advance the turn
    assert_eq!(state.turn_count, 0);
}

#[test]
fn active_player_follows_turn_count() {
    let mut state = GameState::init();
    state.turn_count = 1;
    assert_eq!(place_at(&mut state, Size::Small, 1, 1), Ok(()));
    assert_eq!(state.get_cell(3, 3), Cell::Piece(Piece { owner: 1, size: Size::Small }));
    assert_eq!(state.pool_count(1, Size::Small), 7);
    assert_eq!(state.pool_count(0, Size::Small), 8);
}

#[test]
fn bounce_relocates_neighbour_outward() {
    let mut state = GameState::init();
    assert_eq!(place_at(&mut state, Size::Small, 1, 1), Ok(())); // internal (3, 3)
    assert_eq!(place_at(&mut state, Size::Small, 2, 2), Ok(())); // internal (4, 4)
    // the first piece was pushed from (3, 3) one further step to (2, 2)
    assert_eq!(state.get_cell(4, 4), Cell::Piece(Piece { owner: 0, size: Size::Small }));
    assert_eq!(state.get_cell(3, 3), Cell::Empty);
    assert_eq!(state.get_cell(2, 2), Cell::Piece(Piece { owner: 0, size: Size::Small }));
    assert_eq!(state.pool_count(0, Size::Small), 6);
}

#[test]
fn bounce_off_border_captures_piece() {
    let mut state = GameState::init();
    assert_eq!(place_at(&mut state, Size::Small, 0, 0), Ok(())); // internal (2, 2)
    assert_eq!(place_at(&mut state, Size::Small, 1, 1), Ok(())); // internal (3, 3)
    // the corner piece was pushed toward (1, 1), off the border: captured
    assert_eq!(state.get_cell(2, 2), Cell::Empty);
    assert_eq!(state.get_cell(3, 3), Cell::Piece(Piece { owner: 0, size: Size::Small }));
    // two placements withdrew two pieces, the capture returned one
    assert_eq!(state.pool_count(0, Size::Small), 7);
}

#[test]
fn bounce_blocked_by_occupied_cell() {
    let mut state = GameState::init();
    state.game_board[2 * 10 + 2] = Cell::Piece(Piece { owner: 0, size: Size::Small });
    state.game_board[3 * 10 + 3] = Cell::Piece(Piece { owner: 0, size: Size::Small });
    state.pool0.small = 6;
    assert_eq!(place_at(&mut state, Size::Small, 2, 2), Ok(())); // internal (4, 4)
    // (3, 3) would bounce toward (2, 2), but (2, 2) is occupied: blocked
    assert_eq!(state.get_cell(3, 3), Cell::Piece(Piece { owner: 0, size: Size::Small }));
    assert_eq!(state.get_cell(2, 2), Cell::Piece(Piece { owner: 0, size: Size::Small }));
    assert_eq!(state.get_cell(4, 4), Cell::Piece(Piece { owner: 0, size: Size::Small }));
    assert_eq!(state.pool_count(0, Size::Small), 5);
}

#[test]
fn small_placement_cannot_budge_big_piece() {
    let mut state = GameState::init();
    state.game_board[4 * 10 + 4] = Cell::Piece(Piece { owner: 1, size: Size::Big });
    state.pool1.small = 7;
    assert_eq!(place_at(&mut state, Size::Small, 1, 1), Ok(())); // internal (3, 3)
    // the Big piece is immune: neither relocated nor captured
    assert_eq!(state.get_cell(4, 4), Cell::Piece(Piece { owner: 1, size: Size::Big }));
    assert_eq!(state.get_cell(5, 5), Cell::Empty);
    assert_eq!(state.pool_count(1, Size::Small), 7);
    assert_eq!(state.pool_count(1, Size::Big), 0);
}

#[test]
fn big_placement_bounces_small_piece() {
    let mut state = GameState::init();
    state.game_board[3 * 10 + 3] = Cell::Piece(Piece { owner: 1, size: Size::Small });
    state.pool1.small = 7;
    state.pool0.small = 7;
    state.pool0.big = 1;
    assert_eq!(place_at(&mut state, Size::Big, 2, 2), Ok(())); // internal (4, 4)
    // a Big placement does bounce a Small neighbour
    assert_eq!(state.get_cell(3, 3), Cell::Empty);
    assert_eq!(state.get_cell(2, 2), Cell::Piece(Piece { owner: 1, size: Size::Small }));
    assert_eq!(state.get_cell(4, 4), Cell::Piece(Piece { owner: 0, size: Size::Big }));
}

#[test]
fn bounce_runs_all_eight_directions() {
    let mut state = GameState::init();
    // ring of four pieces around (4, 4), orthogonally adjacent
    state.game_board[3 * 10 + 4] = Cell::Piece(Piece { owner: 1, size: Size::Small });
    state.game_board[5 * 10 + 4] = Cell::Piece(Piece { owner: 1, size: Size::Small });
    state.game_board[4 * 10 + 3] = Cell::Piece(Piece { owner: 1, size: Size::Small });
    state.game_board[4 * 10 + 5] = Cell::Piece(Piece { owner: 1, size: Size::Small });
    state.pool1.small = 4;
    assert_eq!(place_at(&mut state, Size::Small, 2, 2), Ok(())); // internal (4, 4)
    // every neighbour relocated one further step outward
    assert_eq!(state.get_cell(3, 4), Cell::Empty);
    assert_eq!(state.get_cell(2, 4), Cell::Piece(Piece { owner: 1, size: Size::Small }));
    assert_eq!(state.get_cell(5, 4), Cell::Empty);
    assert_eq!(state.get_cell(6, 4), Cell::Piece(Piece { owner: 1, size: Size::Small }));
    assert_eq!(state.get_cell(4, 3), Cell::Empty);
    assert_eq!(state.get_cell(4, 2), Cell::Piece(Piece { owner: 1, size: Size::Small }));
    assert_eq!(state.get_cell(4, 5), Cell::Empty);
    assert_eq!(state.get_cell(4, 6), Cell::Piece(Piece { owner: 1, size: Size::Small }));
}
