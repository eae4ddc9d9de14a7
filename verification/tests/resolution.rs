use trigrid::board::{Cell, Coordinate, Piece, Size, ThreeInRow};
use trigrid::resolve::{filter_matches, ResolveOutcome};
use trigrid::state::GameState;

fn put(state: &mut GameState, owner: usize, size: Size, x: usize, y: usize) {
    state.game_board[x * 10 + y] = Cell::Piece(Piece { owner, size });
}

fn at(x: usize, y: usize) -> Coordinate {
    Coordinate { x, y }
}

#[test]
fn resolve_empty_board_is_no_match() {
    let mut state = GameState::init();
    assert_eq!(state.resolve_matches(None), ResolveOutcome::NoMatch);
    assert_eq!(state.pool_count(0, Size::Small), 8);
    assert_eq!(state.get_cell(4, 4), Cell::Empty);
}

#[test]
fn promotion_clears_line_and_grants_three_big() {
    // the example scenario: a vertical all-Small line for player 0 at
    // internal (3,2), (3,3), (3,4)
    let mut state = GameState::init();
    put(&mut state, 0, Size::Small, 3, 2);
    put(&mut state, 0, Size::Small, 3, 3);
    put(&mut state, 0, Size::Small, 3, 4);
    state.pool0.small = 5;
    let found = state.detect_matches();
    assert_eq!(found, vec![ThreeInRow(at(3, 2), at(3, 3), at(3, 4))]);
    let outcome = state.resolve_matches(None);
    assert_eq!(outcome, ResolveOutcome::Resolved { owner: 0, won: false });
    assert_eq!(state.get_cell(3, 2), Cell::Empty);
    assert_eq!(state.get_cell(3, 3), Cell::Empty);
    assert_eq!(state.get_cell(3, 4), Cell::Empty);
    assert_eq!(state.pool_count(0, Size::Big), 3);
    assert_eq!(state.pool_count(0, Size::Small), 5);
    assert_eq!(state.pool_count(1, Size::Small), 8);
}

#[test]
fn all_big_line_signals_win_for_its_owner() {
    let mut state = GameState::init();
    put(&mut state, 1, Size::Big, 3, 3);
    put(&mut state, 1, Size::Big, 4, 3);
    put(&mut state, 1, Size::Big, 5, 3);
    state.pool1.small = 5;
    let outcome = state.resolve_matches(None);
    assert_eq!(outcome, ResolveOutcome::Resolved { owner: 1, won: true });
    // the win still clears the line and grants the reward
    assert_eq!(state.get_cell(3, 3), Cell::Empty);
    assert_eq!(state.get_cell(4, 3), Cell::Empty);
    assert_eq!(state.get_cell(5, 3), Cell::Empty);
    assert_eq!(state.pool_count(1, Size::Big), 3);
}

#[test]
fn overlapping_lines_are_ambiguous_until_constrained() {
    let mut state = GameState::init();
    // vertical and horizontal lines crossing at (4, 4)
    put(&mut state, 0, Size::Small, 4, 3);
    put(&mut state, 0, Size::Small, 4, 4);
    put(&mut state, 0, Size::Small, 4, 5);
    put(&mut state, 0, Size::Small, 3, 4);
    put(&mut state, 0, Size::Small, 5, 4);
    state.pool0.small = 3;
    assert_eq!(state.resolve_matches(None), ResolveOutcome::Ambiguous);
    // ambiguity leaves the board untouched
    assert_eq!(state.get_cell(4, 4), Cell::Piece(Piece { owner: 0, size: Size::Small }));
    assert_eq!(state.pool_count(0, Size::Big), 0);
    // constrain on external (2, 1), internal (4, 3): only the vertical
    // line contains it
    let outcome = state.resolve_matches(Some(at(2, 1)));
    assert_eq!(outcome, ResolveOutcome::Resolved { owner: 0, won: false });
    assert_eq!(state.get_cell(4, 3), Cell::Empty);
    assert_eq!(state.get_cell(4, 4), Cell::Empty);
    assert_eq!(state.get_cell(4, 5), Cell::Empty);
    // the ends of the horizontal line are untouched
    assert_eq!(state.get_cell(3, 4), Cell::Piece(Piece { owner: 0, size: Size::Small }));
    assert_eq!(state.get_cell(5, 4), Cell::Piece(Piece { owner: 0, size: Size::Small }));
    assert_eq!(state.pool_count(0, Size::Big), 3);
}

#[test]
fn invalid_constraint_matches_nothing() {
    let mut state = GameState::init();
    put(&mut state, 0, Size::Small, 4, 3);
    put(&mut state, 0, Size::Small, 4, 4);
    put(&mut state, 0, Size::Small, 4, 5);
    put(&mut state, 0, Size::Small, 3, 4);
    put(&mut state, 0, Size::Small, 5, 4);
    state.pool0.small = 3;
    // the sentinel coordinate an unparseable answer turns into
    assert_eq!(state.resolve_matches(Some(at(99, 99))), ResolveOutcome::NoMatch);
    // nothing was resolved: the candidates are unchanged and the caller
    // may re-prompt
    assert_eq!(state.resolve_matches(None), ResolveOutcome::Ambiguous);
    assert_eq!(state.get_cell(4, 4), Cell::Piece(Piece { owner: 0, size: Size::Small }));
}

#[test]
fn constraint_on_shared_cell_stays_ambiguous() {
    let mut state = GameState::init();
    put(&mut state, 0, Size::Small, 4, 3);
    put(&mut state, 0, Size::Small, 4, 4);
    put(&mut state, 0, Size::Small, 4, 5);
    put(&mut state, 0, Size::Small, 3, 4);
    put(&mut state, 0, Size::Small, 5, 4);
    state.pool0.small = 3;
    // external (2, 2) is internal (4, 4), the crossing cell of both lines
    assert_eq!(state.resolve_matches(Some(at(2, 2))), ResolveOutcome::Ambiguous);
    assert_eq!(state.get_cell(4, 4), Cell::Piece(Piece { owner: 0, size: Size::Small }));
}

#[test]
fn filter_keeps_exactly_the_triples_containing_the_coordinate() {
    let vertical = ThreeInRow(at(4, 3), at(4, 4), at(4, 5));
    let horizontal = ThreeInRow(at(3, 4), at(4, 4), at(5, 4));
    let elsewhere = ThreeInRow(at(2, 2), at(3, 3), at(4, 4));
    let all = vec![vertical, horizontal, elsewhere];
    assert_eq!(filter_matches(&all, at(4, 3)), vec![vertical]);
    assert_eq!(filter_matches(&all, at(4, 4)), vec![vertical, horizontal, elsewhere]);
    assert_eq!(filter_matches(&all, at(3, 4)), vec![horizontal]);
    assert_eq!(filter_matches(&all, at(7, 7)), Vec::<ThreeInRow>::new());
}

#[test]
fn placement_completes_line_then_promotes() {
    let mut state = GameState::init();
    // two pieces on the main diagonal; the second blocks the first from
    // being bounced by the completing placement
    put(&mut state, 0, Size::Small, 2, 2);
    put(&mut state, 0, Size::Small, 3, 3);
    state.pool0.small = 6;
    let placement = trigrid::place::PiecePlacement {
        coordinate: at(2, 2), // internal (4, 4)
        size: Size::Small,
    };
    assert_eq!(state.place_piece(placement), Ok(()));
    // (3, 3) would bounce toward (2, 2), which is occupied: the line stands
    assert_eq!(
        state.detect_matches(),
        vec![ThreeInRow(at(2, 2), at(3, 3), at(4, 4))]
    );
    assert_eq!(state.resolve_matches(None), ResolveOutcome::Resolved { owner: 0, won: false });
    assert_eq!(state.get_cell(2, 2), Cell::Empty);
    assert_eq!(state.get_cell(3, 3), Cell::Empty);
    assert_eq!(state.get_cell(4, 4), Cell::Empty);
    assert_eq!(state.pool_count(0, Size::Small), 5);
    assert_eq!(state.pool_count(0, Size::Big), 3);
}

#[test]
fn promotion_reward_goes_to_the_line_owner() {
    let mut state = GameState::init();
    put(&mut state, 1, Size::Small, 5, 5);
    put(&mut state, 1, Size::Small, 5, 6);
    put(&mut state, 1, Size::Small, 5, 7);
    state.pool1.small = 5;
    let outcome = state.resolve_matches(None);
    assert_eq!(outcome, ResolveOutcome::Resolved { owner: 1, won: false });
    assert_eq!(state.pool_count(1, Size::Big), 3);
    assert_eq!(state.pool_count(0, Size::Big), 0);
}
