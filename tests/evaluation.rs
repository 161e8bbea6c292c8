use connect_four_ai_core::{GameState, GeneticParams, Player};

fn fresh(first: Player) -> GameState {
    let mut s = GameState::new();
    s.current_player = first;
    s
}

fn zero_weights() -> GeneticParams {
    GeneticParams {
        win_score: 777,
        loss_score: -555,
        center_column_value: 0,
        adjacent_center_value: 0,
        outer_column_value: 0,
        edge_column_value: 0,
        row_height_weight_milli: 0,
        center_control_weight_milli: 0,
        piece_count_weight_milli: 0,
        threat_weight_milli: 0,
        mobility_weight_milli: 0,
        vertical_control_weight_milli: 0,
        horizontal_control_weight_milli: 0,
        defensive_weight_milli: 0,
    }
}

/// Player1 at the bottom of the center column, Player2 to move.
fn one_center_piece() -> GameState {
    let mut s = fresh(Player::Player1);
    s.make_move(3).unwrap();
    s
}

#[test]
fn the_empty_board_scores_zero() {
    for first in [Player::Player1, Player::Player2] {
        let mut s = fresh(first);
        assert_eq!(s.evaluate(), 0);
        s.genetic_params = zero_weights();
        s.genetic_params.threat_weight_milli = 3500;
        s.genetic_params.defensive_weight_milli = -2500;
        s.genetic_params.row_height_weight_milli = 1234;
        assert_eq!(s.evaluate(), 0);
    }
}

#[test]
fn a_line_scores_the_configured_win_and_loss() {
    let mut s = fresh(Player::Player1);
    s.genetic_params = zero_weights();
    for col in 0..4 {
        s.current_player = Player::Player1;
        s.make_move(col).unwrap();
    }
    assert_eq!(s.evaluate(), 777);
    assert_eq!(s.evaluate_with_genetic_params(), 777);

    let mut t = fresh(Player::Player2);
    t.genetic_params = zero_weights();
    for _ in 0..4 {
        t.current_player = Player::Player2;
        t.make_move(6).unwrap();
    }
    assert_eq!(t.evaluate(), -555);
}

#[test]
fn evaluation_is_repeatable() {
    let mut s = fresh(Player::Player1);
    for col in [3u8, 2, 4, 4, 1] {
        s.make_move(col).unwrap();
    }
    let first = s.evaluate();
    for _ in 0..3 {
        assert_eq!(s.evaluate(), first);
    }
    let copy = s.clone();
    assert_eq!(copy.evaluate(), first);
}

#[test]
fn feature_scores_of_one_center_piece() {
    let s = one_center_piece();
    assert_eq!(s.position_score(Player::Player1), 100);
    assert_eq!(s.position_score(Player::Player2), 0);
    assert_eq!(s.center_control_score(Player::Player1), 1);
    assert_eq!(s.pieces_count(Player::Player1), 1);
    assert_eq!(s.pieces_count(Player::Player2), 0);
    assert_eq!(s.vertical_control_score(Player::Player1), 1);
    assert_eq!(s.horizontal_control_score(Player::Player1), 1);
    assert_eq!(s.threat_score(Player::Player1), 55);
    assert_eq!(s.threat_score(Player::Player2), 25);
    assert_eq!(s.defensive_score(Player::Player1), 0);
    assert_eq!(s.defensive_score(Player::Player2), 100);
}

#[test]
fn feature_scores_of_the_empty_board() {
    let s = fresh(Player::Player1);
    assert_eq!(s.threat_score(Player::Player1), 28);
    assert_eq!(s.threat_score(Player::Player2), 28);
    assert_eq!(s.mobility_score(Player::Player1), 0);
    assert_eq!(s.defensive_score(Player::Player2), 0);
    assert!(s.is_empty_board());
}

#[test]
fn runs_are_summed_along_columns_and_rows() {
    let mut s = fresh(Player::Player1);
    for _ in 0..3 {
        s.current_player = Player::Player1;
        s.make_move(0).unwrap();
    }
    s.current_player = Player::Player1;
    s.make_move(1).unwrap();
    // Column 0 holds a run of three: 1 + 2 + 3 from the top down.
    assert_eq!(s.vertical_control_score(Player::Player1), 6 + 1);
    // The bottom row holds a run of two: 1 + 2.
    assert_eq!(s.horizontal_control_score(Player::Player1), 3 + 1 + 1);
}

#[test]
fn weights_scale_the_features() {
    let mut s = one_center_piece();
    s.genetic_params = zero_weights();
    s.genetic_params.center_column_value = 165;
    s.genetic_params.row_height_weight_milli = 1798;
    // 165 * 1 * 1.798 = 296.67, truncated.
    assert_eq!(s.evaluate(), 296);

    s.genetic_params = zero_weights();
    s.genetic_params.center_control_weight_milli = 2022;
    assert_eq!(s.evaluate(), 2);

    s.genetic_params = zero_weights();
    s.genetic_params.threat_weight_milli = 1588;
    assert_eq!(s.evaluate(), 55 - 25);

    s.genetic_params = zero_weights();
    s.genetic_params.defensive_weight_milli = 1999;
    assert_eq!(s.evaluate(), -100);

    s.genetic_params = zero_weights();
    s.genetic_params.piece_count_weight_milli = 965;
    assert_eq!(s.evaluate(), 0);
}

#[test]
fn negative_weights_truncate_toward_zero() {
    let mut s = one_center_piece();
    s.genetic_params = zero_weights();
    s.genetic_params.center_column_value = 165;
    s.genetic_params.row_height_weight_milli = -1798;
    assert_eq!(s.evaluate(), -296);

    s.genetic_params = zero_weights();
    s.genetic_params.center_control_weight_milli = -2999;
    assert_eq!(s.evaluate(), -2);
}

#[test]
fn position_key_tells_turns_apart() {
    let s = one_center_piece();
    let mut t = s;
    t.current_player = Player::Player1;
    assert_ne!(s.position_key(), t.position_key());
    assert_eq!(s.position_key(), one_center_piece().position_key());
    let empty = fresh(Player::Player1);
    assert_eq!(empty.position_key(), 0);
}

fn played(first: Player, moves: &[u8]) -> GameState {
    let mut s = fresh(first);
    for &col in moves {
        s.make_move(col).unwrap();
    }
    s
}

#[test]
fn default_weights_give_exact_scores() {
    let one = played(Player::Player1, &[3]);
    assert_eq!(one.evaluate(), 233);
    assert_eq!(one.mobility_score(Player::Player1), 30);
    assert_eq!(one.mobility_score(Player::Player2), 28);

    let four = played(Player::Player1, &[3, 3, 2, 4]);
    assert_eq!(four.evaluate(), 1725);
    assert_eq!(four.mobility_score(Player::Player1), 2053);
    assert_eq!(four.mobility_score(Player::Player2), 38);
    assert_eq!(four.threat_score(Player::Player1), 59);
    assert_eq!(four.threat_score(Player::Player2), 51);
    assert_eq!(four.defensive_score(Player::Player1), 100);
    assert_eq!(four.defensive_score(Player::Player2), 100);
    assert_eq!(four.horizontal_control_score(Player::Player1), 3);
    assert_eq!(four.horizontal_control_score(Player::Player2), 2);

    let five = played(Player::Player1, &[3, 2, 4, 4, 1]);
    assert_eq!(five.evaluate(), 40);
    assert_eq!(five.mobility_score(Player::Player1), 45);
    assert_eq!(five.mobility_score(Player::Player2), 95);
    assert_eq!(five.defensive_score(Player::Player1), 200);
    assert_eq!(five.vertical_control_score(Player::Player1), 3);
    assert_eq!(five.vertical_control_score(Player::Player2), 2);
}

#[test]
fn an_open_line_of_three_is_defended_and_threatened() {
    let seven = played(Player::Player2, &[0, 6, 1, 5, 3, 3, 2]);
    assert_eq!(seven.get_winner(), Some(Player::Player2));
    assert_eq!(seven.evaluate(), -10000);
    assert_eq!(seven.threat_score(Player::Player1), 83);
    assert_eq!(seven.threat_score(Player::Player2), 10090);
    assert_eq!(seven.defensive_score(Player::Player1), 5200);
    assert_eq!(seven.defensive_score(Player::Player2), 200);
    assert_eq!(seven.mobility_score(Player::Player2), 6054);
}

#[test]
fn test_evaluation_components() {
    let default_params = GeneticParams::default();
    let test_state = GameState::new();
    let one = Player::Player1;
    let two = Player::Player2;
    let center_score = test_state.center_control_score(one) - test_state.center_control_score(two);
    let threat_score = test_state.threat_score(one) - test_state.threat_score(two);
    let piece_score = test_state.pieces_count(one) - test_state.pieces_count(two);
    let mobility_score = test_state.mobility_score(one) - test_state.mobility_score(two);
    let vertical_score =
        test_state.vertical_control_score(one) - test_state.vertical_control_score(two);
    let horizontal_score =
        test_state.horizontal_control_score(one) - test_state.horizontal_control_score(two);
    let defensive_score = test_state.defensive_score(one) - test_state.defensive_score(two);

    let whole = |milli: i32| milli / 1000;
    let total = center_score * whole(default_params.center_control_weight_milli)
        + threat_score * whole(default_params.threat_weight_milli)
        + piece_score * whole(default_params.piece_count_weight_milli)
        + mobility_score * whole(default_params.mobility_weight_milli)
        + vertical_score * whole(default_params.vertical_control_weight_milli)
        + horizontal_score * whole(default_params.horizontal_control_weight_milli)
        + defensive_score * whole(default_params.defensive_weight_milli);
    println!("Weighted total on the empty board: {}", total);
    assert_eq!(total, 0);
    assert_eq!(test_state.evaluate(), total as i64);
}

#[test]
fn test_threat_bias() {
    let test_state = GameState::new();
    let total_threat_p1 = test_state.threat_score(Player::Player1);
    let total_threat_p2 = test_state.threat_score(Player::Player2);
    println!("Threat scores on the empty board: {} / {}", total_threat_p1, total_threat_p2);
    assert_eq!(total_threat_p1, total_threat_p2);
    let mobility_p1 = test_state.mobility_score(Player::Player1);
    let mobility_p2 = test_state.mobility_score(Player::Player2);
    println!("Mobility scores on the empty board: {} / {}", mobility_p1, mobility_p2);
    assert_eq!(mobility_p1, mobility_p2);
}
