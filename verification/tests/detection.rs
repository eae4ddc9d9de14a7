use trigrid::board::{Cell, Coordinate, Piece, Size, ThreeInRow};
use trigrid::errors::CellErrorKind;
use trigrid::state::GameState;

fn put_small(state: &mut GameState, owner: usize, x: usize, y: usize) {
    state.game_board[x * 10 + y] = Cell::Piece(Piece { owner, size: Size::Small });
}

fn coord(x: usize, y: usize) -> Coordinate {
    Coordinate { x, y }
}

#[test]
fn check_cell_rejects_out_of_bounds() {
    let state = GameState::init();
    assert_eq!(
        state.check_cell(coord(8, 3)).unwrap_err().kind,
        CellErrorKind::OutOfBoundsX
    );
    assert_eq!(
        state.check_cell(coord(1, 3)).unwrap_err().kind,
        CellErrorKind::OutOfBoundsX
    );
    assert_eq!(
        state.check_cell(coord(3, 9)).unwrap_err().kind,
        CellErrorKind::OutOfBoundsY
    );
    assert_eq!(
        state.check_cell(coord(3, 0)).unwrap_err().kind,
        CellErrorKind::OutOfBoundsY
    );
}

#[test]
fn check_cell_empty_centre_finds_nothing() {
    let state = GameState::init();
    assert_eq!(state.check_cell(coord(4, 4)).unwrap(), Vec::<ThreeInRow>::new());
}

#[test]
fn detect_vertical_line_once() {
    let mut state = GameState::init();
    put_small(&mut state, 0, 3, 2);
    put_small(&mut state, 0, 3, 3);
    put_small(&mut state, 0, 3, 4);
    state.pool0.small = 5;
    let found = state.detect_matches();
    assert_eq!(found, vec![ThreeInRow(coord(3, 2), coord(3, 3), coord(3, 4))]);
}

#[test]
fn detect_horizontal_line_once() {
    let mut state = GameState::init();
    put_small(&mut state, 1, 3, 3);
    put_small(&mut state, 1, 4, 3);
    put_small(&mut state, 1, 5, 3);
    state.pool1.small = 5;
    let found = state.detect_matches();
    assert_eq!(found, vec![ThreeInRow(coord(3, 3), coord(4, 3), coord(5, 3))]);
}

#[test]
fn detect_diagonal_line_once() {
    let mut state = GameState::init();
    put_small(&mut state, 0, 2, 2);
    put_small(&mut state, 0, 3, 3);
    put_small(&mut state, 0, 4, 4);
    state.pool0.small = 5;
    let found = state.detect_matches();
    assert_eq!(found, vec![ThreeInRow(coord(2, 2), coord(3, 3), coord(4, 4))]);
}

#[test]
fn detect_ignores_mixed_owners() {
    let mut state = GameState::init();
    put_small(&mut state, 0, 3, 2);
    put_small(&mut state, 0, 3, 3);
    put_small(&mut state, 1, 3, 4);
    state.pool0.small = 6;
    state.pool1.small = 7;
    assert_eq!(state.detect_matches(), Vec::<ThreeInRow>::new());
}

#[test]
fn detect_mixed_sizes_same_owner_still_aligns() {
    let mut state = GameState::init();
    state.game_board[3 * 10 + 2] = Cell::Piece(Piece { owner: 0, size: Size::Big });
    put_small(&mut state, 0, 3, 3);
    put_small(&mut state, 0, 3, 4);
    state.pool0.small = 5;
    let found = state.detect_matches();
    assert_eq!(found, vec![ThreeInRow(coord(3, 2), coord(3, 3), coord(3, 4))]);
}

#[test]
fn line_is_found_from_its_middle_cell_only() {
    let mut state = GameState::init();
    put_small(&mut state, 0, 3, 2);
    put_small(&mut state, 0, 3, 3);
    put_small(&mut state, 0, 3, 4);
    state.pool0.small = 5;
    // the end cells have no same-owner pair symmetric about themselves
    assert_eq!(state.check_cell(coord(3, 2)).unwrap(), Vec::<ThreeInRow>::new());
    assert_eq!(state.check_cell(coord(3, 4)).unwrap(), Vec::<ThreeInRow>::new());
    assert_eq!(
        state.check_cell(coord(3, 3)).unwrap(),
        vec![ThreeInRow(coord(3, 2), coord(3, 3), coord(3, 4))]
    );
}

#[test]
fn four_in_a_row_yields_two_overlapping_triples() {
    let mut state = GameState::init();
    put_small(&mut state, 0, 3, 2);
    put_small(&mut state, 0, 3, 3);
    put_small(&mut state, 0, 3, 4);
    put_small(&mut state, 0, 3, 5);
    state.pool0.small = 4;
    let found = state.detect_matches();
    assert_eq!(
        found,
        vec![
            ThreeInRow(coord(3, 2), coord(3, 3), coord(3, 4)),
            ThreeInRow(coord(3, 3), coord(3, 4), coord(3, 5)),
        ]
    );
}

#[test]
fn check_cell_reports_both_axes_of_a_cross() {
    let mut state = GameState::init();
    // vertical and horizontal lines crossing at (4, 4)
    put_small(&mut state, 0, 4, 3);
    put_small(&mut state, 0, 4, 4);
    put_small(&mut state, 0, 4, 5);
    put_small(&mut state, 0, 3, 4);
    put_small(&mut state, 0, 5, 4);
    state.pool0.small = 3;
    let here = state.check_cell(coord(4, 4)).unwrap();
    assert_eq!(
        here,
        vec![
            ThreeInRow(coord(3, 4), coord(4, 4), coord(5, 4)),
            ThreeInRow(coord(4, 3), coord(4, 4), coord(4, 5)),
        ]
    );
    let all = state.detect_matches();
    assert_eq!(all.len(), 2);
}
