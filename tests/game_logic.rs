use connect_four_ai_core::{Cell, GameState, MoveError, Player, COLS, ROWS};

#[test]
fn test_player_opponent() {
    assert_eq!(Player::Player1.opponent(), Player::Player2);
    assert_eq!(Player::Player2.opponent(), Player::Player1);
}

#[test]
fn test_game_state_new() {
    let game_state = GameState::new();
    assert_eq!(game_state.board.len(), COLS);
    assert_eq!(game_state.board[0].len(), ROWS);
    assert!(game_state
        .board
        .iter()
        .all(|col| col.iter().all(|&cell| cell == Cell::Empty)));
    assert!(
        game_state.current_player == Player::Player1
            || game_state.current_player == Player::Player2
    );
}

#[test]
fn test_is_game_over_not_finished() {
    let game_state = GameState::new();
    assert!(!game_state.is_game_over());
}

#[test]
fn test_get_valid_moves_empty_board() {
    let game_state = GameState::new();
    let moves = game_state.get_valid_moves();
    assert_eq!(moves.len(), COLS);
    for i in 0..COLS {
        assert!(moves.contains(&(i as u8)));
    }
}

#[test]
fn test_make_move_simple() {
    let mut game_state = GameState::new();
    let first_player = game_state.current_player;
    assert!(game_state.make_move(3).is_ok());
    assert_eq!(game_state.board[3][ROWS - 1], Cell::from_player(first_player));
    assert_eq!(game_state.current_player, first_player.opponent());
}

#[test]
fn test_make_move_column_full() {
    let mut game_state = GameState::new();
    for _ in 0..ROWS {
        assert!(game_state.make_move(0).is_ok());
        game_state.current_player = game_state.current_player.opponent();
    }
    assert!(game_state.make_move(0).is_err());
}

#[test]
fn test_horizontal_win() {
    let mut game_state = GameState::new();
    let first_player = game_state.current_player;

    game_state.make_move(0).unwrap();
    game_state.current_player = first_player;
    game_state.make_move(1).unwrap();
    game_state.current_player = first_player;
    game_state.make_move(2).unwrap();
    game_state.current_player = first_player;
    game_state.make_move(3).unwrap();

    assert!(game_state.has_winner());
    assert_eq!(game_state.get_winner(), Some(first_player));
}

#[test]
fn test_vertical_win() {
    let mut game_state = GameState::new();
    let first_player = game_state.current_player;

    game_state.make_move(0).unwrap();
    game_state.current_player = first_player;
    game_state.make_move(0).unwrap();
    game_state.current_player = first_player;
    game_state.make_move(0).unwrap();
    game_state.current_player = first_player;
    game_state.make_move(0).unwrap();

    assert!(game_state.has_winner());
    assert_eq!(game_state.get_winner(), Some(first_player));
}

fn fresh(first: Player) -> GameState {
    let mut s = GameState::new();
    s.current_player = first;
    s
}

#[test]
fn drop_lands_on_the_lowest_empty_row() {
    let mut s = fresh(Player::Player1);
    assert_eq!(s.make_move(4), Ok(ROWS - 1));
    assert_eq!(s.make_move(4), Ok(ROWS - 2));
    assert_eq!(s.board[4][ROWS - 1], Cell::Player1);
    assert_eq!(s.board[4][ROWS - 2], Cell::Player2);
    assert_eq!(s.current_player, Player::Player1);
}

#[test]
fn drop_into_a_full_column_is_refused_and_changes_nothing() {
    let mut s = fresh(Player::Player1);
    for _ in 0..ROWS {
        s.make_move(2).unwrap();
    }
    let board = s.board;
    let turn = s.current_player;
    assert_eq!(s.make_move(2), Err(MoveError::ColumnFull));
    assert_eq!(s.board, board);
    assert_eq!(s.current_player, turn);
    assert!(!s.can_place_in_column(2));
    assert_eq!(s.get_valid_moves(), vec![0, 1, 3, 4, 5, 6]);
}

#[test]
fn drop_outside_the_board_is_refused() {
    let mut s = fresh(Player::Player2);
    assert_eq!(s.make_move(7), Err(MoveError::InvalidColumn));
    assert_eq!(s.make_move(255), Err(MoveError::InvalidColumn));
    assert!(s.is_empty_board());
    assert_eq!(s.current_player, Player::Player2);
}

#[test]
fn diagonal_wins_are_found() {
    let mut s = fresh(Player::Player1);
    // Player1 climbs the diagonal (0,5) (1,4) (2,3) (3,2); Player2 fills
    // the cells beneath.
    for &(col, who) in &[
        (0, Player::Player1),
        (1, Player::Player2),
        (1, Player::Player1),
        (2, Player::Player2),
        (2, Player::Player2),
        (2, Player::Player1),
        (3, Player::Player2),
        (3, Player::Player2),
        (3, Player::Player2),
    ] {
        s.current_player = who;
        s.make_move(col).unwrap();
    }
    assert!(!s.has_winner());
    s.current_player = Player::Player1;
    s.make_move(3).unwrap();
    assert_eq!(s.get_winner(), Some(Player::Player1));
    assert!(s.is_game_over());
}

#[test]
fn anti_diagonal_wins_are_found() {
    let mut s = fresh(Player::Player2);
    for &(col, who) in &[
        (6, Player::Player2),
        (5, Player::Player1),
        (5, Player::Player2),
        (4, Player::Player1),
        (4, Player::Player1),
        (4, Player::Player2),
        (3, Player::Player1),
        (3, Player::Player1),
        (3, Player::Player1),
        (3, Player::Player2),
    ] {
        s.current_player = who;
        s.make_move(col).unwrap();
    }
    assert_eq!(s.get_winner(), Some(Player::Player2));
}

#[test]
fn three_in_a_row_is_no_win() {
    let mut s = fresh(Player::Player1);
    for col in 0..3 {
        s.current_player = Player::Player1;
        s.make_move(col).unwrap();
    }
    assert_eq!(s.get_winner(), None);
    assert!(!s.is_game_over());
}

#[test]
fn a_full_board_without_a_line_is_a_draw() {
    let mut s = fresh(Player::Player1);
    // Columns alternate between two patterns of pairs, so that no line of
    // four appears.
    let pattern = [
        [Cell::Player1, Cell::Player1, Cell::Player2, Cell::Player2, Cell::Player1, Cell::Player1],
        [Cell::Player2, Cell::Player2, Cell::Player1, Cell::Player1, Cell::Player2, Cell::Player2],
    ];
    for col in 0..COLS {
        s.board[col] = pattern[col % 2];
    }
    assert_eq!(s.get_winner(), None);
    assert!(s.is_draw());
    assert!(s.is_game_over());
    assert!(s.get_valid_moves().is_empty());
}
