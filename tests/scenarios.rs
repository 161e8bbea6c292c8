use connect_four_ai_core::{Cell, GameState, Player};

fn print_board(game_state: &GameState) {
    for row in 0..6 {
        let mut line = String::from("|");
        for col in 0..7 {
            line.push(match game_state.board[col][row] {
                Cell::Empty => ' ',
                Cell::Player1 => 'X',
                Cell::Player2 => 'O',
            });
            line.push('|');
        }
        println!("{}", line);
    }
    println!(" 0 1 2 3 4 5 6");
}

#[test]
fn test_game_logic() {
    // Basic game flow.
    let mut game_state = GameState::new();
    let first_player = game_state.current_player;
    let second_player = first_player.opponent();
    assert!(game_state.make_move(3).is_ok());
    assert_eq!(game_state.current_player, second_player);
    assert_eq!(game_state.board[3][5], Cell::from_player(first_player));
    assert!(game_state.make_move(3).is_ok());
    assert_eq!(game_state.current_player, first_player);
    assert_eq!(game_state.board[3][4], Cell::from_player(second_player));

    // Win detection: the player who starts completes a vertical four.
    let mut game_state = GameState::new();
    game_state.current_player = Player::Player1;
    for &col in &[0u8, 1, 0, 1, 0, 1, 0] {
        game_state.make_move(col).unwrap();
    }
    print_board(&game_state);
    assert!(game_state.is_game_over());
    assert!(game_state.has_winner());
    assert_eq!(game_state.get_winner(), Some(Player::Player1));

    // Draw detection: filling the board column by column ends the game.
    let mut game_state = GameState::new();
    for col in 0..7 {
        for _row in 0..6 {
            if game_state.can_place_in_column(col) {
                game_state.make_move(col as u8).unwrap();
            }
        }
    }
    print_board(&game_state);
    assert!(game_state.is_game_over());
    if !game_state.has_winner() {
        assert!(game_state.is_draw());
    }

    // Move validation.
    let mut game_state = GameState::new();
    for _ in 0..6 {
        assert!(game_state.make_move(0).is_ok());
        game_state.make_move(1).unwrap();
    }
    assert!(game_state.make_move(0).is_err());
}

#[test]
fn test_evaluation_perspective() {
    let mut game = GameState::new();
    println!("Empty board evaluation: {}", game.evaluate());
    game.make_move(3).unwrap();
    println!("After a move to column 3: {}", game.evaluate());
    game.make_move(3).unwrap();
    println!("After a reply in column 3: {}", game.evaluate());

    let mut winning_game = GameState::new();
    for &col in &[0u8, 1, 0, 1, 0, 1, 0] {
        winning_game.make_move(col).unwrap();
    }
    println!("Winning position: {}", winning_game.evaluate());
    assert!(winning_game.is_game_over());
    let expected = match winning_game.get_winner() {
        Some(Player::Player1) => 10000,
        Some(Player::Player2) => -10000,
        None => panic!("a vertical four was completed"),
    };
    assert_eq!(winning_game.evaluate(), expected);
}

#[test]
fn test_vertical_win_debug() {
    let mut game = GameState::new();
    let first = game.current_player;
    game.make_move(3).unwrap();
    game.make_move(0).unwrap();
    game.make_move(3).unwrap();
    game.make_move(0).unwrap();
    game.make_move(3).unwrap();
    print_board(&game);

    let mut test_game = game.clone();
    test_game.make_move(3).unwrap();
    assert!(!test_game.has_winner());

    let threat_score = game.threat_score(first);
    println!("Threat score of the player with three stacked: {}", threat_score);
    assert!(threat_score >= 10000);

    let mut test_game = game.clone();
    test_game.make_move(3).unwrap();
    print_board(&test_game);
    let p1_threat = test_game.threat_score(Player::Player1);
    let p2_threat = test_game.threat_score(Player::Player2);
    println!("Threat scores: {} / {}", p1_threat, p2_threat);

    for col in 0..7 {
        if test_game.can_place_in_column(col) {
            let mut test_move = test_game.clone();
            test_move.make_move(col as u8).unwrap();
            if test_move.has_winner() {
                println!("Column {}: win for {:?}", col, test_move.get_winner().unwrap());
            } else {
                println!("Column {}: evaluation {}", col, test_move.evaluate());
            }
        }
    }
}

#[test]
fn evaluation_debug_test_evaluation_debug() {
    let mut game = GameState::new();
    println!("Empty board evaluation: {}", game.evaluate());
    for &col in &[3u8, 3, 0, 0] {
        game.make_move(col).unwrap();
        println!("After a move to column {}: {}", col, game.evaluate());
    }

    let mut test_game = GameState::new();
    for &col in &[3u8, 3, 0, 0] {
        test_game.make_move(col).unwrap();
    }
    println!("Test position evaluation: {}", test_game.evaluate());
    let valid_moves = test_game.get_valid_moves();
    assert_eq!(valid_moves, vec![0, 1, 2, 3, 4, 5, 6]);
    for &col in &valid_moves {
        let mut next_state = test_game.clone();
        if next_state.make_move(col).is_ok() {
            println!("Column {} evaluation: {}", col, next_state.evaluate());
        }
    }
}
