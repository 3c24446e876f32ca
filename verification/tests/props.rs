use game_of_life::Board;
use game_of_life::ShapeError;
use game_of_life::State;

#[test]
fn new_board_is_all_dead_with_given_dimensions() {
    let board = Board::new(3, 2);
    assert_eq!(board.width(), 3);
    assert_eq!(board.height(), 2);
    assert_eq!(board.to_text(), "...\n...\n");
}

#[test]
fn degenerate_boards_are_legal() {
    let empty = Board::new(0, 0);
    assert_eq!(empty.width(), 0);
    assert_eq!(empty.height(), 0);
    assert_eq!(empty.to_text(), "");
    let advanced = empty.next_board_state();
    assert_eq!(advanced.width(), 0);
    assert_eq!(advanced.height(), 0);

    let rows_only = Board::new(0, 3);
    assert_eq!(rows_only.width(), 0);
    assert_eq!(rows_only.height(), 3);
    assert_eq!(rows_only.to_text(), "\n\n\n");
}

#[test]
fn advance_preserves_dimensions() {
    let board = Board::from_text(".....\n..#..\n.###.\n..#..").unwrap();
    let next = board.next_board_state();
    assert_eq!(next.width(), board.width());
    assert_eq!(next.height(), board.height());
}

#[test]
fn advance_is_pure() {
    let board = Board::from_text("##.\n.#.\n..#").unwrap();
    let before = board.to_text();
    let first = board.next_board_state();
    let second = board.next_board_state();
    assert_eq!(board.to_text(), before);
    assert_eq!(first.to_text(), second.to_text());
}

#[test]
fn render_then_parse_round_trips() {
    let board = Board::from_text("#.#\n.#.\n#..").unwrap();
    let text = board.to_text();
    let reparsed = Board::from_text(&text).unwrap();
    assert_eq!(reparsed.to_text(), text);
}

#[test]
fn single_live_cell_dies() {
    let board = Board::from_text("#").unwrap();
    assert_eq!(board.width(), 1);
    assert_eq!(board.height(), 1);
    assert_eq!(board.next_board_state().to_text(), ".\n");
}

#[test]
fn dead_characters_are_dot_and_zero() {
    let board = Board::from_text("0.x\n#A ").unwrap();
    assert_eq!(board.to_text(), "..#\n###\n");
}

#[test]
fn crlf_line_endings_are_not_cells() {
    let board = Board::from_text("#.\r\n.#\r\n").unwrap();
    assert_eq!(board.width(), 2);
    assert_eq!(board.height(), 2);
    assert_eq!(board.to_text(), "#.\n.#\n");
}

#[test]
fn empty_text_parses_to_empty_board() {
    let board = Board::from_text("").unwrap();
    assert_eq!(board.width(), 0);
    assert_eq!(board.height(), 0);
    assert_eq!(board.to_text(), "");
}

#[test]
fn ragged_text_yields_shape_error() {
    let err = Board::from_text("ab\nabc").unwrap_err();
    assert_eq!(err, ShapeError);
}

#[test]
fn ragged_bool_matrix_yields_shape_error() {
    let err = Board::from_bool_matrix(&vec![vec![true], vec![]]).unwrap_err();
    assert_eq!(err, ShapeError);
}

#[test]
fn state_conversions_match_display_characters() {
    assert_eq!(State::from_bool(true).to_char(), '#');
    assert_eq!(State::from_bool(false).to_char(), '.');
    assert_eq!(State::from_char('.'), State::Dead);
    assert_eq!(State::from_char('0'), State::Dead);
    assert_eq!(State::from_char('#'), State::Alive);
    assert_eq!(State::from_char('x'), State::Alive);
}

#[test]
fn randomize_keeps_dimensions() {
    let mut board = Board::new(7, 4);
    board.random_state();
    assert_eq!(board.width(), 7);
    assert_eq!(board.height(), 4);
}

#[test]
fn block_is_a_still_life_over_many_generations() {
    let mut board = Board::from_text("....\n.##.\n.##.\n....").unwrap();
    for _ in 0..5 {
        board = board.next_board_state();
        assert_eq!(board.to_text(), "....\n.##.\n.##.\n....\n");
    }
}

#[test]
fn blinker_oscillates() {
    let vertical = Board::from_text(".....\n..#..\n..#..\n..#..\n.....").unwrap();
    let horizontal = vertical.next_board_state();
    assert_eq!(horizontal.to_text(), ".....\n.....\n.###.\n.....\n.....\n");
    let back = horizontal.next_board_state();
    assert_eq!(back.to_text(), vertical.to_text());
}
