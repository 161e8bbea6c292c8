use connect_four_ai_core::{GameState, AI};

#[test]
fn test_transposition_table_state() {
    let mut game = GameState::new();
    game.make_move(3).unwrap();
    let mut ai = AI::new();
    println!("Evaluation: {}", game.evaluate());

    let mut first = None;
    for i in 1..=5 {
        let (best_move, evaluations) = ai.get_best_move(&game, 3);
        println!(
            "Run {} (no clear): best move {:?}, score {}, nodes {}, cache hits {}",
            i, best_move, evaluations[0].score, ai.nodes_evaluated, ai.transposition_hits
        );
        match first {
            None => first = Some(best_move),
            Some(m) => assert_eq!(m, best_move),
        }
    }

    ai.clear_transposition_table();
    for i in 1..=3 {
        let (best_move, evaluations) = ai.get_best_move(&game, 3);
        println!(
            "Run {} (after clear): best move {:?}, score {}, nodes {}, cache hits {}",
            i, best_move, evaluations[0].score, ai.nodes_evaluated, ai.transposition_hits
        );
        assert_eq!(first, Some(best_move));
    }
}

#[test]
fn test_multiple_games_state() {
    let mut ai = AI::new();
    for game_num in 1..=3 {
        let mut game = GameState::new();
        let mut moves = 0;
        while !game.is_game_over() && moves < 10 {
            let (best_move, evaluations) = ai.get_best_move(&game, 3);
            println!(
                "Move {}: {:?}, best move {:?}, score {}, nodes {}, cache hits {}",
                moves + 1,
                game.current_player,
                best_move,
                evaluations[0].score,
                ai.nodes_evaluated,
                ai.transposition_hits
            );
            if let Some(col) = best_move {
                assert!(game.get_valid_moves().contains(&col));
                game.make_move(col).unwrap();
            } else {
                break;
            }
            moves += 1;
        }
        println!(
            "End of game {}: transposition table size {}",
            game_num,
            ai.get_transposition_table_size()
        );
    }

    ai.clear_transposition_table();
    let mut game = GameState::new();
    let mut moves = 0;
    while !game.is_game_over() && moves < 5 {
        let (best_move, evaluations) = ai.get_best_move(&game, 3);
        println!(
            "Move {}: {:?}, best move {:?}, score {}",
            moves + 1,
            game.current_player,
            best_move,
            evaluations[0].score
        );
        if let Some(col) = best_move {
            game.make_move(col).unwrap();
        } else {
            break;
        }
        moves += 1;
    }
}

#[test]
fn test_simple_minimax_consistency() {
    let mut game = GameState::new();
    game.make_move(3).unwrap();
    println!("Current player: {:?}", game.current_player);
    println!("Evaluation: {}", game.evaluate());

    let mut ai = AI::new();
    for depth in 1..=4 {
        ai.clear_transposition_table();
        let (best_move, evaluations) = ai.get_best_move(&game, depth);
        println!("Depth {}: best move {:?}, nodes {}", depth, best_move, ai.nodes_evaluated);
        let mut sorted_evals = evaluations.clone();
        sorted_evals.sort_by(|a, b| b.score.cmp(&a.score));
        for (i, eval) in sorted_evals.iter().enumerate() {
            println!("  {}: column {}: score {}", i + 1, eval.column, eval.score);
        }
        assert_eq!(evaluations.len(), 7);
    }
}

#[test]
fn test_minimax_alpha_beta_bug() {
    let mut game = GameState::new();
    let mut ai = AI::new();
    game.make_move(3).unwrap();
    let (best_move, _evaluations) = ai.get_best_move(&game, 3);
    println!("Best move: {:?}, nodes evaluated: {}", best_move, ai.nodes_evaluated);
    assert!(best_move.is_some());
}
