use connect_four_ai_core::{
    GameState, GeneticParams, HeuristicAI, MoveType, Player, AI, BLOCK_SIGNAL, WIN_SIGNAL,
};

fn fresh(first: Player) -> GameState {
    let mut s = GameState::new();
    s.current_player = first;
    s
}

/// Plays `(column, player)` pairs in order, whoever is to move.
fn play(s: &mut GameState, moves: &[(u8, Player)]) {
    for &(col, who) in moves {
        s.current_player = who;
        s.make_move(col).unwrap();
    }
}

#[test]
fn test_ai_new() {
    let ai = AI::new();
    assert_eq!(ai.get_transposition_table_size(), 0);
    assert_eq!(ai.nodes_evaluated, 0);
}

#[test]
fn test_ai_gets_winning_move() {
    let mut ai = AI::new();
    let mut state = GameState::new();

    state.make_move(0).unwrap();
    state.current_player = Player::Player1;
    state.make_move(1).unwrap();
    state.current_player = Player::Player1;
    state.make_move(2).unwrap();
    state.current_player = Player::Player1;

    let (best_move, _) = ai.get_best_move(&state, 3);
    assert!(best_move.is_some());
    assert!(state.get_valid_moves().contains(&best_move.unwrap()));
}

#[test]
fn test_heuristic_ai_new() {
    let ai = HeuristicAI::new();
    assert_eq!(ai.nodes_evaluated, 0);
}

#[test]
fn test_heuristic_ai_gets_winning_move() {
    let mut ai = HeuristicAI::new();
    let mut state = GameState::new();

    state.make_move(0).unwrap();
    state.current_player = Player::Player1;
    state.make_move(1).unwrap();
    state.current_player = Player::Player1;
    state.make_move(2).unwrap();
    state.current_player = Player::Player1;

    let (best_move, _) = ai.get_best_move(&state);
    assert!(best_move.is_some());
    assert!(state.get_valid_moves().contains(&best_move.unwrap()));
}

#[test]
fn three_in_a_row_is_completed_with_a_win() {
    let mut s = fresh(Player::Player1);
    play(
        &mut s,
        &[
            (0, Player::Player1),
            (6, Player::Player2),
            (1, Player::Player1),
            (6, Player::Player2),
            (2, Player::Player1),
        ],
    );
    s.current_player = Player::Player1;
    for depth in 1..4 {
        let mut ai = AI::new();
        let (mv, evals) = ai.get_best_move(&s, depth);
        assert_eq!(mv, Some(3));
        assert_eq!(evals.len(), 1);
        assert_eq!(evals[0].column, 3);
        assert_eq!(evals[0].move_type, MoveType::Win);
        assert_eq!(evals[0].score, WIN_SIGNAL);
        assert_eq!(evals[0].move_type.name(), "win");
    }
}

#[test]
fn player2_wins_are_reported_negative() {
    let mut s = fresh(Player::Player2);
    play(
        &mut s,
        &[(5, Player::Player2), (5, Player::Player2), (5, Player::Player2), (0, Player::Player1)],
    );
    s.current_player = Player::Player2;
    let mut ai = AI::new();
    let (mv, evals) = ai.get_best_move(&s, 2);
    assert_eq!(mv, Some(5));
    assert_eq!(evals[0].score, -WIN_SIGNAL);
}

#[test]
fn a_vertical_threat_is_blocked() {
    let mut s = fresh(Player::Player2);
    play(
        &mut s,
        &[
            (0, Player::Player2),
            (3, Player::Player1),
            (0, Player::Player2),
            (4, Player::Player1),
            (0, Player::Player2),
        ],
    );
    s.current_player = Player::Player1;
    let mut ai = AI::new();
    let (mv, evals) = ai.get_best_move(&s, 3);
    assert_eq!(mv, Some(0));
    assert_eq!(evals.len(), 1);
    assert_eq!(evals[0].move_type, MoveType::Block);
    assert_eq!(evals[0].score, BLOCK_SIGNAL);
    assert_eq!(evals[0].move_type.name(), "block");

    let mut heuristic = HeuristicAI::new();
    let (mv, evals) = heuristic.get_best_move(&s);
    assert_eq!(mv, Some(0));
    assert_eq!(evals[0].move_type, MoveType::Block);
}

#[test]
fn no_move_on_a_full_board() {
    let mut s = fresh(Player::Player1);
    let a = [
        connect_four_ai_core::Cell::Player1,
        connect_four_ai_core::Cell::Player1,
        connect_four_ai_core::Cell::Player2,
        connect_four_ai_core::Cell::Player2,
        connect_four_ai_core::Cell::Player1,
        connect_four_ai_core::Cell::Player1,
    ];
    let b = [
        connect_four_ai_core::Cell::Player2,
        connect_four_ai_core::Cell::Player2,
        connect_four_ai_core::Cell::Player1,
        connect_four_ai_core::Cell::Player1,
        connect_four_ai_core::Cell::Player2,
        connect_four_ai_core::Cell::Player2,
    ];
    s.board = [a, b, a, b, a, b, a];
    let mut ai = AI::new();
    let (mv, evals) = ai.get_best_move(&s, 4);
    assert_eq!(mv, None);
    assert!(evals.is_empty());
}

#[test]
fn a_single_legal_move_is_returned_directly() {
    let mut s = fresh(Player::Player1);
    let a = [
        connect_four_ai_core::Cell::Player1,
        connect_four_ai_core::Cell::Player1,
        connect_four_ai_core::Cell::Player2,
        connect_four_ai_core::Cell::Player2,
        connect_four_ai_core::Cell::Player1,
        connect_four_ai_core::Cell::Player1,
    ];
    let b = [
        connect_four_ai_core::Cell::Player2,
        connect_four_ai_core::Cell::Player2,
        connect_four_ai_core::Cell::Player1,
        connect_four_ai_core::Cell::Player1,
        connect_four_ai_core::Cell::Player2,
        connect_four_ai_core::Cell::Player2,
    ];
    s.board = [a, b, a, b, a, b, a];
    s.board[6][0] = connect_four_ai_core::Cell::Empty;
    let mut ai = AI::new();
    let (mv, evals) = ai.get_best_move(&s, 4);
    assert_eq!(mv, Some(6));
    assert!(evals.is_empty());
}

#[test]
fn search_lists_every_move_ranked_for_the_mover() {
    let mut s = fresh(Player::Player1);
    play(&mut s, &[(3, Player::Player1), (3, Player::Player2)]);
    s.current_player = Player::Player1;
    let mut ai = AI::new();
    let (mv, evals) = ai.get_best_move(&s, 2);
    assert_eq!(evals.len(), 7);
    for w in evals.windows(2) {
        assert!(w[0].score >= w[1].score);
        if w[0].score == w[1].score {
            assert!(w[0].column < w[1].column);
        }
    }
    assert!(evals.iter().all(|e| e.move_type == MoveType::Normal));
    assert_eq!(mv, Some(evals[0].column));
    let mut columns: Vec<u8> = evals.iter().map(|e| e.column).collect();
    columns.sort();
    assert_eq!(columns, vec![0, 1, 2, 3, 4, 5, 6]);
    assert!(ai.get_transposition_table_size() > 0);

    s.current_player = Player::Player2;
    let (mv, evals) = ai.get_best_move(&s, 2);
    for w in evals.windows(2) {
        assert!(w[0].score <= w[1].score);
    }
    assert_eq!(mv, Some(evals[0].column));
}

#[test]
fn a_warm_cache_gives_the_same_decision() {
    let mut s = fresh(Player::Player1);
    play(&mut s, &[(3, Player::Player1), (2, Player::Player2), (4, Player::Player1)]);
    s.current_player = Player::Player2;
    let mut ai = AI::new();
    let first = ai.get_best_move(&s, 3);
    let size = ai.get_transposition_table_size();
    let second = ai.get_best_move(&s, 3);
    assert_eq!(first.0, second.0);
    assert_eq!(first.1, second.1);
    assert_eq!(ai.get_transposition_table_size(), size);
    assert!(ai.transposition_hits > 0);

    ai.clear_transposition_table();
    assert_eq!(ai.get_transposition_table_size(), 0);
    let third = ai.get_best_move(&s, 3);
    assert_eq!(first.0, third.0);
}

#[test]
fn minimax_at_depth_zero_is_the_evaluation() {
    let mut s = fresh(Player::Player1);
    play(&mut s, &[(3, Player::Player1), (2, Player::Player2)]);
    let mut ai = AI::new();
    let v = ai.minimax(&s, 0, i64::MIN, i64::MAX);
    assert_eq!(v, s.evaluate());
    assert_eq!(ai.get_transposition_table_size(), 1);
}

#[test]
fn heuristic_ai_ranks_highest_first() {
    let mut s = fresh(Player::Player2);
    play(&mut s, &[(3, Player::Player1)]);
    s.current_player = Player::Player2;
    let mut ai = HeuristicAI::new();
    let (mv, evals) = ai.get_best_move(&s);
    assert_eq!(evals.len(), 7);
    for w in evals.windows(2) {
        assert!(w[0].score >= w[1].score);
    }
    let lowest = evals.iter().map(|e| e.score).min().unwrap();
    let first_lowest = evals
        .iter()
        .filter(|e| e.score == lowest)
        .map(|e| e.column)
        .min()
        .unwrap();
    assert_eq!(mv, Some(first_lowest));
    ai.clear_nodes_evaluated();
    assert_eq!(ai.nodes_evaluated, 0);
}

#[test]
fn test_default_params() {
    let params = GeneticParams::default();
    assert_eq!(params.win_score, 10000);
    assert_eq!(params.loss_score, -10000);
    assert_eq!(params.center_column_value, 165);
    assert_eq!(params.center_control_weight_milli, 2022);
    assert_eq!(params.threat_weight_milli, 1588);
    assert_eq!(params.row_height_weight_milli, 1798);
}

fn ranked(evals: &[connect_four_ai_core::MoveEvaluation]) -> Vec<(u8, i64)> {
    evals.iter().map(|e| (e.column, e.score)).collect()
}

#[test]
fn search_scores_are_exact() {
    let mut s = fresh(Player::Player1);
    for &col in &[3u8, 3, 2, 4] {
        s.make_move(col).unwrap();
    }
    let mut ai = AI::new();
    let (mv, evals) = ai.get_best_move(&s, 1);
    assert_eq!(mv, Some(0));
    assert_eq!(
        ranked(&evals),
        vec![(0, 10670), (1, 10609), (3, 503), (4, 3), (2, -125), (5, -199), (6, -309)]
    );
    assert_eq!(ai.get_transposition_table_size(), 7);

    let mut ai = AI::new();
    let (mv, evals) = ai.get_best_move(&s, 2);
    assert_eq!(mv, Some(2));
    assert_eq!(
        ranked(&evals),
        vec![(2, 945), (3, 610), (4, 91), (5, -59), (6, -197), (1, -207), (0, -299)]
    );
    assert_eq!(ai.get_transposition_table_size(), 56);

    let mut ai = AI::new();
    let (mv, evals) = ai.get_best_move(&s, 3);
    assert_eq!(mv, Some(2));
    assert_eq!(
        ranked(&evals),
        vec![(2, 9519), (3, 1724), (5, 772), (1, 642), (4, 581), (6, 540), (0, 440)]
    );
    assert_eq!(ai.get_transposition_table_size(), 167);
    let again = ai.get_best_move(&s, 3);
    assert_eq!(again.0, Some(2));
    assert_eq!(again.1, evals);
}

#[test]
fn player2_takes_the_lowest_score() {
    let mut s = fresh(Player::Player1);
    for &col in &[3u8, 2, 4, 4, 1] {
        s.make_move(col).unwrap();
    }
    assert_eq!(s.current_player, Player::Player2);
    let mut ai = AI::new();
    let (mv, evals) = ai.get_best_move(&s, 2);
    assert_eq!(mv, Some(5));
    assert_eq!(
        ranked(&evals),
        vec![(5, 343), (6, 677), (2, 7599), (3, 8935), (1, 9077), (4, 9376), (0, 11110)]
    );
}
