use game_of_life::Board;

#[test]
fn const_generic_init_works() {
    let board = Board::new(1, 1);
    assert_eq!(board.to_text(), ".\n");
}

#[test]
fn random_state() {
    let mut board = Board::new(100, 100);
    board.random_state();
    let text = board.to_text();
    assert!(text.lines().all(|line| line.contains('#') && line.contains('.')));
}

#[test]
fn convert_from_bool_arr_works() {
    let board = Board::from_bool_matrix(&vec![vec![true, false], vec![false, true]]).unwrap();
    assert_eq!(board.to_text(), "#.\n.#\n");
}

#[test]
fn convert_from_str_works() {
    let board = Board::from_text("#.\n.#").unwrap();
    assert_eq!(board.to_text(), "#.\n.#\n");
}

#[test]
fn convert_from_str_should_be_equal_line() {
    let s = "#.....#\n#..\n#.....#\n";
    let board = Board::from_text(s);
    assert!(board.is_err());
}

#[test]
fn to_string_works() {
    let board = Board::from_bool_matrix(&vec![vec![true, false], vec![false, true]]).unwrap();
    assert_eq!(board.to_text(), "#.\n.#\n");
}

#[test]
fn next_board_state_edge_check() {
    let board = Board::from_text("#").unwrap().next_board_state();
    assert_eq!(board.to_text().trim(), ".");
}

#[test]
fn next_board_state_under_population() {
    let s = "...\n#..\n#..\n...";
    let board = Board::from_text(s).unwrap().next_board_state();
    assert_eq!(board.to_text(), "...\n...\n...\n...\n");
}

#[test]
fn next_board_state_just_right() {
    let s = "...\n##.\n##.\n...";
    let board = Board::from_text(s).unwrap().next_board_state();
    assert_eq!(board.to_text(), "...\n##.\n##.\n...\n");
}

#[test]
fn next_board_state_over_population() {
    let s = "#.#\n###\n#.#";
    let board = Board::from_text(s).unwrap().next_board_state();
    assert_eq!(board.to_text(), "#.#\n#.#\n#.#\n");
}

#[test]
fn next_board_state_reproduction() {
    let s = ".....\n.....\n##.##\n#.#.#\n.....";
    let board = Board::from_text(s).unwrap().next_board_state();
    assert_eq!(board.to_text(), ".....\n.....\n#####\n#.#.#\n.....\n");
}
