use crate::board::{
    blank, in_bounds, landing_row, lemma_playable_upto, moves_of, piece, placed, playable, Board,
    Cell, GameState, Player, COLS, ROWS,
};
use crate::decide::{
    blocks_with, decide, decide_static, first_blocking, first_winning, pick_from, root_scores,
    signed, static_scores, wins_with, MoveEvaluation, MoveType, BLOCK_SIGNAL, WIN_SIGNAL,
};
use crate::eval::{
    evaluation, heuristic, piece_value, signed_position_at, trunc_milli, column_value,
    weighted_position_of, PIECE_VALUE_BOUND,
};
use crate::features::{
    axis_threat, center_control_of, col_total, columns_total, defense_at, defense_in,
    defensive_of, grid_total, grid_total_by_rows, height_at, horizontal_control_of,
    horizontal_run_at, mobility_of, piece_at, pieces_of, row_total, stop_blocked, threat_at,
    threat_in, threat_of, threats_around, vertical_control_of, vertical_run_at, mobility_in,
};
use crate::rules::{has_line, lemma_sole_line_wins, lemma_winner, ray, winner, wins_at};
use crate::rules::terminal;
use crate::search::{
    max_int, maximizing, min_int, worst_for, TranspositionEntry, SCORE_MAX, SCORE_MIN,
};
use vstd::prelude::*;

verus! {

/// A line of four for one player, and none for the other, scores exactly
/// the configured win score when the line is Player1's and the loss score
/// when it is Player2's.
pub proof fn lemma_line_scores_win_or_loss(s: GameState, p: Player)
    requires
        has_line(s.board, p),
        !has_line(s.board, p.other()),
    ensures
        p == Player::Player1 ==> evaluation(s) == s.genetic_params.win_score,
        p == Player::Player2 ==> evaluation(s) == s.genetic_params.loss_score,
{
    lemma_sole_line_wins(s.board, p);
}

/// The evaluation is a function of the position alone: two states with the
/// same board, the same player to move and the same weights score the
/// same, however often they are evaluated.
pub proof fn lemma_evaluation_is_a_function_of_the_position(s: GameState, t: GameState)
    requires
        s.board == t.board,
        s.current_player == t.current_player,
        s.genetic_params == t.genetic_params,
    ensures
        evaluation(s) == evaluation(t),
{
    assert(s == t);
}

proof fn lemma_first_winning(s: GameState, c: int)
    requires
        0 <= c <= COLS,
    ensures
        first_winning(s, c) is Some ==> {
            let w = first_winning(s, c)->0 as int;
            c <= w < COLS && wins_with(s, w) && forall|k: int| c <= k < w ==> !wins_with(s, k)
        },
        first_winning(s, c) is None ==> forall|k: int| c <= k < COLS ==> !wins_with(s, k),
    decreases COLS - c,
{
    if c < COLS {
        lemma_first_winning(s, c + 1);
    }
}

proof fn lemma_first_blocking(s: GameState, c: int)
    requires
        0 <= c <= COLS,
    ensures
        first_blocking(s, c) is Some ==> {
            let w = first_blocking(s, c)->0 as int;
            c <= w < COLS && blocks_with(s, w) && forall|k: int| c <= k < w ==> !blocks_with(s, k)
        },
        first_blocking(s, c) is None ==> forall|k: int| c <= k < COLS ==> !blocks_with(s, k),
    decreases COLS - c,
{
    if c < COLS {
        lemma_first_blocking(s, c + 1);
    }
}

proof fn lemma_root_scores_playable(
    cache: Map<u128, TranspositionEntry>,
    s: GameState,
    depth: nat,
    c: int,
)
    requires
        0 <= c <= COLS,
    ensures
        forall|i: int|
            0 <= i < root_scores(cache, s, depth, c).0.len() ==> playable(
                s.board,
                #[trigger] root_scores(cache, s, depth, c).0[i].column as int,
            ),
    decreases COLS - c,
{
    if c < COLS {
        if playable(s.board, c) {
            let r = crate::search::search(
                cache,
                s.after(c),
                depth,
                crate::search::SCORE_MIN as int,
                crate::search::SCORE_MAX as int,
            );
            lemma_root_scores_playable(r.1, s, depth, c + 1);
            let rest = root_scores(r.1, s, depth, c + 1);
            let e = MoveEvaluation { column: c as u8, score: r.0 as i64, move_type: MoveType::Normal };
            assert forall|i: int|
                0 <= i < root_scores(cache, s, depth, c).0.len() implies playable(
                s.board,
                #[trigger] root_scores(cache, s, depth, c).0[i].column as int,
            ) by {
                if i > 0 {
                    assert(root_scores(cache, s, depth, c).0[i] == rest.0[i - 1]);
                }
            }
        } else {
            lemma_root_scores_playable(cache, s, depth, c + 1);
        }
    }
}

proof fn lemma_static_scores_playable(s: GameState, c: int)
    requires
        0 <= c <= COLS,
    ensures
        forall|i: int|
            0 <= i < static_scores(s, c).len() ==> playable(
                s.board,
                #[trigger] static_scores(s, c)[i].column as int,
            ),
    decreases COLS - c,
{
    if c < COLS {
        lemma_static_scores_playable(s, c + 1);
        if playable(s.board, c) {
            assert forall|i: int| 0 <= i < static_scores(s, c).len() implies playable(
                s.board,
                #[trigger] static_scores(s, c)[i].column as int,
            ) by {
                if i > 0 {
                    assert(static_scores(s, c)[i] == static_scores(s, c + 1)[i - 1]);
                }
            }
        }
    }
}

proof fn lemma_pick_from(
    list: Seq<MoveEvaluation>,
    maximize: bool,
    i: int,
    best_score: int,
    best: Option<u8>,
)
    requires
        0 <= i,
    ensures
        pick_from(list, maximize, i, best_score, best) == best || exists|j: int|
            i <= j < list.len() && pick_from(list, maximize, i, best_score, best) == Some(
                #[trigger] list[j].column,
            ),
    decreases list.len() - i,
{
    if i < list.len() {
        if crate::decide::better(list[i].score as int, best_score, maximize) {
            lemma_pick_from(list, maximize, i + 1, list[i].score as int, Some(list[i].column));
        } else {
            lemma_pick_from(list, maximize, i + 1, best_score, best);
        }
    }
}

/// The move chosen by the search engine, if any, is always a column that
/// accepts a piece.
pub proof fn lemma_decision_is_legal(cache: Map<u128, TranspositionEntry>, s: GameState, depth: nat)
    ensures
        decide(cache, s, depth).0 is Some ==> moves_of(s.board).contains(
            decide(cache, s, depth).0->0,
        ),
        decide_static(s).0 is Some ==> moves_of(s.board).contains(decide_static(s).0->0),
{
    lemma_playable_upto(s.board, COLS as int);
    lemma_first_winning(s, 0);
    lemma_first_blocking(s, 0);
    let moves = moves_of(s.board);
    if moves.len() >= 2 {
        if moves.len() > 0 {
            assert(moves.contains(moves[0]));
        }
        let child_depth: nat = if depth > 0 {
            (depth - 1) as nat
        } else {
            0
        };
        let scored = root_scores(cache, s, child_depth, 0);
        lemma_root_scores_playable(cache, s, child_depth, 0);
        lemma_pick_from(scored.0, s.current_player == Player::Player1, 0, crate::search::worst_for(s), None);
        let st = static_scores(s, 0);
        lemma_static_scores_playable(s, 0);
        lemma_pick_from(st, s.current_player == Player::Player1, 0, crate::search::worst_for(s), Some(moves[0]));
    } else if moves.len() == 1 {
        assert(moves.contains(moves[0]));
    }
}

/// When some move wins at once (and there is more than one move), both
/// engines take the first such move, reported as a win, whatever the
/// search depth.
pub proof fn lemma_immediate_win_is_taken(
    cache: Map<u128, TranspositionEntry>,
    s: GameState,
    depth: nat,
    c: int,
)
    requires
        wins_with(s, c),
        moves_of(s.board).len() >= 2,
    ensures
        first_winning(s, 0) is Some,
        wins_with(s, first_winning(s, 0)->0 as int),
        decide(cache, s, depth).0 == first_winning(s, 0),
        decide(cache, s, depth).1 == seq![
            MoveEvaluation {
                column: first_winning(s, 0)->0,
                score: signed(s, WIN_SIGNAL),
                move_type: MoveType::Win,
            },
        ],
        decide(cache, s, depth).2 == cache,
        decide_static(s).0 == first_winning(s, 0),
        decide_static(s).1 == decide(cache, s, depth).1,
{
    lemma_first_winning(s, 0);
}

/// When no move wins at once and exactly one column holds the opponent's
/// immediate win (and there is more than one move), both engines take
/// that column, reported as a block.
pub proof fn lemma_sole_block_is_taken(
    cache: Map<u128, TranspositionEntry>,
    s: GameState,
    depth: nat,
    c: int,
)
    requires
        forall|k: int| !wins_with(s, k),
        blocks_with(s, c),
        forall|k: int| blocks_with(s, k) ==> k == c,
        moves_of(s.board).len() >= 2,
    ensures
        decide(cache, s, depth).0 == Some(c as u8),
        decide(cache, s, depth).1 == seq![
            MoveEvaluation {
                column: c as u8,
                score: signed(s, BLOCK_SIGNAL),
                move_type: MoveType::Block,
            },
        ],
        decide_static(s).0 == Some(c as u8),
        decide_static(s).1 == decide(cache, s, depth).1,
{
    lemma_first_winning(s, 0);
    lemma_first_blocking(s, 0);
}


proof fn lemma_col_total_zero(f: spec_fn(int, int) -> int, c: int, n: int)
    requires
        forall|r: int| 0 <= r < n ==> #[trigger] f(c, r) == 0,
    ensures
        col_total(f, c, n) == 0,
    decreases n,
{
    if n > 0 {
        lemma_col_total_zero(f, c, n - 1);
    }
}

proof fn lemma_grid_total_zero(f: spec_fn(int, int) -> int, n: int)
    requires
        forall|c: int, r: int| 0 <= c < n && 0 <= r < ROWS ==> #[trigger] f(c, r) == 0,
    ensures
        grid_total(f, n) == 0,
    decreases n,
{
    if n > 0 {
        lemma_grid_total_zero(f, n - 1);
        lemma_col_total_zero(f, n - 1, ROWS as int);
    }
}

proof fn lemma_row_total_zero(f: spec_fn(int, int) -> int, r: int, n: int)
    requires
        forall|c: int| 0 <= c < n ==> #[trigger] f(c, r) == 0,
    ensures
        row_total(f, r, n) == 0,
    decreases n,
{
    if n > 0 {
        lemma_row_total_zero(f, r, n - 1);
    }
}

proof fn lemma_grid_total_by_rows_zero(f: spec_fn(int, int) -> int, n: int)
    requires
        forall|c: int, r: int| 0 <= c < COLS && 0 <= r < n ==> #[trigger] f(c, r) == 0,
    ensures
        grid_total_by_rows(f, n) == 0,
    decreases n,
{
    if n > 0 {
        lemma_grid_total_by_rows_zero(f, n - 1);
        lemma_row_total_zero(f, n - 1, COLS as int);
    }
}

proof fn lemma_columns_total_same(f: spec_fn(int) -> int, g: spec_fn(int) -> int, n: int)
    requires
        forall|c: int| 0 <= c < n ==> #[trigger] f(c) == g(c),
    ensures
        columns_total(f, n) == columns_total(g, n),
    decreases n,
{
    if n > 0 {
        lemma_columns_total_same(f, g, n - 1);
    }
}

proof fn lemma_columns_total_zero(g: spec_fn(int) -> int, n: int)
    requires
        forall|c: int| 0 <= c < n ==> #[trigger] g(c) == 0,
    ensures
        columns_total(g, n) == 0,
    decreases n,
{
    if n > 0 {
        lemma_columns_total_zero(g, n - 1);
    }
}

/// The cells of a board that holds a single piece, at `(c, r)`.
pub open spec fn lone_piece(b: Board, c: int, r: int) -> bool {
    forall|c2: int, r2: int|
        in_bounds(c2, r2) && !(c2 == c && r2 == r) ==> #[trigger] b[c2][r2] == Cell::Empty
}

/// Around a lone piece `x` nothing else lies on any axis: its own run is
/// that piece alone and open, and any other player's run is empty.
proof fn lemma_lone_piece_axis(b: Board, c: int, r: int, x: Cell, y: Cell, dc: int, dr: int)
    requires
        in_bounds(c, r),
        b[c][r] == x,
        x != Cell::Empty,
        y != Cell::Empty,
        y != x,
        lone_piece(b, c, r),
        -1 <= dc <= 1,
        -1 <= dr <= 1,
        !(dc == 0 && dr == 0),
    ensures
        ray(b, c + dc, r + dr, dc, dr, x, COLS as nat) == 0,
        ray(b, c - dc, r - dr, -dc, -dr, x, COLS as nat) == 0,
        ray(b, c + dc, r + dr, dc, dr, y, COLS as nat) == 0,
        ray(b, c - dc, r - dr, -dc, -dr, y, COLS as nat) == 0,
        axis_threat(b, c, r, dc, dr, x) == 1,
        axis_threat(b, c, r, dc, dr, y) == 0,
{
    assert(ray(b, c + dc, r + dr, dc, dr, x, (COLS - 1) as nat) == 0);
    assert(stop_blocked(b, c + dc, r + dr, dc, dr, x, (COLS - 1) as nat) == 0);
    assert(ray(b, c, r, dc, dr, x, COLS as nat) == 1);
    assert(stop_blocked(b, c, r, dc, dr, x, COLS as nat) == 0);
    assert(stop_blocked(b, c - dc, r - dr, -dc, -dr, x, COLS as nat) == 0);
    assert(ray(b, c, r, dc, dr, y, COLS as nat) == 0);
    assert(stop_blocked(b, c, r, dc, dr, y, COLS as nat) == 1);
    assert(stop_blocked(b, c - dc, r - dr, -dc, -dr, y, COLS as nat) == 0);
}

/// On an empty board every axis through an empty cell is empty and open.
proof fn lemma_blank_axis(b: Board, c: int, r: int, y: Cell, dc: int, dr: int)
    requires
        in_bounds(c, r),
        blank(b),
        y != Cell::Empty,
        -1 <= dc <= 1,
        -1 <= dr <= 1,
    ensures
        axis_threat(b, c, r, dc, dr, y) == 0,
{
    assert(ray(b, c, r, dc, dr, y, COLS as nat) == 0);
    assert(stop_blocked(b, c, r, dc, dr, y, COLS as nat) == 0);
    assert(ray(b, c - dc, r - dr, -dc, -dr, y, COLS as nat) == 0);
    assert(stop_blocked(b, c - dc, r - dr, -dc, -dr, y, COLS as nat) == 0);
}

/// On an empty board a piece of either player dropped into any column
/// threatens 4 and defends nothing.
proof fn lemma_blank_column(b: Board, c: int, p: Player)
    requires
        blank(b),
        0 <= c < COLS,
    ensures
        threat_at(b, c, p) == 4,
        defense_at(b, c, p) == 0,
{
    let r = ROWS - 1;
    assert(in_bounds(c, r));
    assert(landing_row(b, c) == r);
    let x = piece(p);
    let y = piece(p.other());
    let tb = placed(b, c, r, x);
    assert(tb[c][r] == x);
    assert forall|c2: int, r2: int| in_bounds(c2, r2) && !(c2 == c && r2 == r) implies #[trigger] tb[c2][r2]
        == Cell::Empty by {
        assert(tb[c2][r2] == b[c2][r2]);
    }
    lemma_lone_piece_axis(tb, c, r, x, y, 1, 0);
    lemma_lone_piece_axis(tb, c, r, x, y, 0, 1);
    lemma_lone_piece_axis(tb, c, r, x, y, 1, 1);
    lemma_lone_piece_axis(tb, c, r, x, y, 1, -1);
    assert(!wins_at(tb, c, r, p));
    assert(!wins_at(tb, c, r, p.other()));
    assert(threats_around(tb, c, r, p) == 4);
    assert(threats_around(tb, c, r, p.other()) == 0);
    lemma_blank_axis(b, c, r, y, 1, 0);
    lemma_blank_axis(b, c, r, y, 0, 1);
    lemma_blank_axis(b, c, r, y, 1, 1);
    lemma_blank_axis(b, c, r, y, 1, -1);
    assert(threats_around(b, c, r, p.other()) == 0);
}

/// The evaluation of an empty board is 0, whatever the weights and
/// whoever is to move.
pub proof fn lemma_empty_board_scores_zero(s: GameState)
    requires
        blank(s.board),
    ensures
        evaluation(s) == 0,
{
    let b = s.board;
    let player1 = Player::Player1;
    let player2 = Player::Player2;
    assert forall|c: int, r: int| 0 <= c < COLS && 0 <= r < ROWS implies #[trigger] b[c][r]
        == Cell::Empty by {
        assert(in_bounds(c, r));
    }
    lemma_winner(b);
    assert(winner(b) is None);
    lemma_playable_upto(b, COLS as int);
    assert(playable(b, 0));
    assert(moves_of(b).contains(0u8));
    lemma_grid_total_zero(signed_position_at(b, s.genetic_params), COLS as int);
    lemma_col_total_zero(height_at(b, player1), 2, ROWS as int);
    lemma_col_total_zero(height_at(b, player1), 3, ROWS as int);
    lemma_col_total_zero(height_at(b, player1), 4, ROWS as int);
    lemma_col_total_zero(height_at(b, player2), 2, ROWS as int);
    lemma_col_total_zero(height_at(b, player2), 3, ROWS as int);
    lemma_col_total_zero(height_at(b, player2), 4, ROWS as int);
    lemma_grid_total_zero(piece_at(b, player1), COLS as int);
    lemma_grid_total_zero(piece_at(b, player2), COLS as int);
    lemma_grid_total_zero(vertical_run_at(b, player1), COLS as int);
    lemma_grid_total_zero(vertical_run_at(b, player2), COLS as int);
    lemma_grid_total_by_rows_zero(horizontal_run_at(b, player1), ROWS as int);
    lemma_grid_total_by_rows_zero(horizontal_run_at(b, player2), ROWS as int);
    assert forall|c: int| 0 <= c < COLS implies #[trigger] threat_in(b, player1)(c) == threat_in(b, player2)(
        c,
    ) by {
        lemma_blank_column(b, c, player1);
        lemma_blank_column(b, c, player2);
    }
    assert forall|c: int| 0 <= c < COLS implies #[trigger] defense_in(b, player1)(c) == 0 by {
        lemma_blank_column(b, c, player1);
    }
    assert forall|c: int| 0 <= c < COLS implies #[trigger] defense_in(b, player2)(c) == 0 by {
        lemma_blank_column(b, c, player2);
    }
    lemma_columns_total_same(threat_in(b, player1), threat_in(b, player2), COLS as int);
    lemma_columns_total_zero(defense_in(b, player1), COLS as int);
    lemma_columns_total_zero(defense_in(b, player2), COLS as int);
    assert(crate::rules::empty_board(b));
    assert(mobility_of(s, player1) == 0 && mobility_of(s, player2) == 0);
    assert(threat_of(b, player1) == threat_of(b, player2));
    assert(weighted_position_of(b, s.genetic_params) == 0);
    assert(center_control_of(b, player1) == 0 && center_control_of(b, player2) == 0);
    assert(pieces_of(b, player1) == 0 && pieces_of(b, player2) == 0);
    assert(vertical_control_of(b, player1) == 0 && vertical_control_of(b, player2) == 0);
    assert(horizontal_control_of(b, player1) == 0 && horizontal_control_of(b, player2) == 0);
    assert(defensive_of(b, player1) == 0 && defensive_of(b, player2) == 0);
    assert(heuristic(s) == 0);
}


/// Plain minimax: the score of `s` searched `depth` plies deep, every
/// move explored, nothing cached.
pub open spec fn minimax_value(s: GameState, depth: nat) -> int
    decreases depth, COLS + 1,
{
    if depth == 0 || terminal(s.board) {
        evaluation(s)
    } else {
        minimax_children(s, depth, 0, worst_for(s))
    }
}

/// The best of `best` and the minimax values of the children of `s`
/// from column `c` on.
pub open spec fn minimax_children(s: GameState, depth: nat, c: int, best: int) -> int
    decreases depth, COLS - c,
{
    if depth == 0 || c < 0 || c >= COLS {
        best
    } else if !playable(s.board, c) {
        minimax_children(s, depth, c + 1, best)
    } else {
        let v = minimax_value(s.after(c), (depth - 1) as nat);
        minimax_children(
            s,
            depth,
            c + 1,
            if maximizing(s) {
                max_int(best, v)
            } else {
                min_int(best, v)
            },
        )
    }
}

/// Minimax with alpha-beta pruning and no cache: the recursion that
/// `search` follows where the cache offers nothing.
pub open spec fn alphabeta(s: GameState, depth: nat, alpha: int, beta: int) -> int
    decreases depth, COLS + 1,
{
    if depth == 0 || terminal(s.board) {
        evaluation(s)
    } else {
        alphabeta_children(s, depth, 0, alpha, beta, worst_for(s))
    }
}

pub open spec fn alphabeta_children(
    s: GameState,
    depth: nat,
    c: int,
    alpha: int,
    beta: int,
    best: int,
) -> int
    decreases depth, COLS - c,
{
    if depth == 0 || c < 0 || c >= COLS {
        best
    } else if !playable(s.board, c) {
        alphabeta_children(s, depth, c + 1, alpha, beta, best)
    } else {
        let v = alphabeta(s.after(c), (depth - 1) as nat, alpha, beta);
        let best2 = if maximizing(s) {
            max_int(best, v)
        } else {
            min_int(best, v)
        };
        let alpha2 = if maximizing(s) {
            max_int(alpha, v)
        } else {
            alpha
        };
        let beta2 = if maximizing(s) {
            beta
        } else {
            min_int(beta, v)
        };
        if beta2 <= alpha2 {
            best2
        } else {
            alphabeta_children(s, depth, c + 1, alpha2, beta2, best2)
        }
    }
}

proof fn lemma_minimax_children_monotone(s: GameState, depth: nat, c: int, best: int)
    ensures
        maximizing(s) ==> minimax_children(s, depth, c, best) >= best,
        !maximizing(s) ==> minimax_children(s, depth, c, best) <= best,
    decreases COLS - c,
{
    if !(depth == 0 || c < 0 || c >= COLS) {
        if !playable(s.board, c) {
            lemma_minimax_children_monotone(s, depth, c + 1, best);
        } else {
            let v = minimax_value(s.after(c), (depth - 1) as nat);
            let b2 = if maximizing(s) {
                max_int(best, v)
            } else {
                min_int(best, v)
            };
            lemma_minimax_children_monotone(s, depth, c + 1, b2);
        }
    }
}

/// The children from column `c` on, for a node whose window started as
/// `(alpha0, beta0)`: at a maximizing node `alpha` is the larger of
/// `alpha0` and the true best `m` so far, and the pruned best `best`
/// equals `m` once `m` exceeds `alpha0` (and stays at most `alpha`
/// before); dually at a minimizing node.
proof fn lemma_alphabeta_children(
    s: GameState,
    depth: nat,
    c: int,
    alpha0: int,
    beta0: int,
    alpha: int,
    beta: int,
    best: int,
    m: int,
)
    requires
        depth > 0,
        0 <= c <= COLS,
        SCORE_MIN <= alpha < beta <= SCORE_MAX,
        SCORE_MIN <= alpha0,
        beta0 <= SCORE_MAX,
        maximizing(s) ==> beta == beta0 && alpha == max_int(alpha0, m) && (m > alpha0 ==> best
            == m) && (m <= alpha0 ==> best <= alpha0),
        !maximizing(s) ==> alpha == alpha0 && beta == min_int(beta0, m) && (m < beta0 ==> best
            == m) && (m >= beta0 ==> best >= beta0),
    ensures
        ({
            let r = alphabeta_children(s, depth, c, alpha, beta, best);
            let v = minimax_children(s, depth, c, m);
            &&& alpha0 < v < beta0 ==> r == v
            &&& v <= alpha0 ==> r <= alpha0
            &&& v >= beta0 ==> r >= beta0
        }),
    decreases depth, COLS - c,
{
    if c < COLS {
        if !playable(s.board, c) {
            lemma_alphabeta_children(s, depth, c + 1, alpha0, beta0, alpha, beta, best, m);
        } else {
            let child = s.after(c);
            let d1 = (depth - 1) as nat;
            lemma_alphabeta(child, d1, alpha, beta);
            let r = alphabeta(child, d1, alpha, beta);
            let v = minimax_value(child, d1);
            if maximizing(s) {
                let best2 = max_int(best, r);
                let alpha2 = max_int(alpha, r);
                let m2 = max_int(m, v);
                if beta <= alpha2 {
                    lemma_minimax_children_monotone(s, depth, c + 1, m2);
                } else {
                    lemma_alphabeta_children(s, depth, c + 1, alpha0, beta0, alpha2, beta, best2, m2);
                }
            } else {
                let best2 = min_int(best, r);
                let beta2 = min_int(beta, r);
                let m2 = min_int(m, v);
                if beta2 <= alpha {
                    lemma_minimax_children_monotone(s, depth, c + 1, m2);
                } else {
                    lemma_alphabeta_children(s, depth, c + 1, alpha0, beta0, alpha, beta2, best2, m2);
                }
            }
        }
    }
}

/// Alpha-beta pruning within a window `(alpha, beta)` returns the plain
/// minimax value whenever that value lies strictly inside the window,
/// and otherwise a bound on the same side of the window.
pub proof fn lemma_alphabeta(s: GameState, depth: nat, alpha: int, beta: int)
    requires
        SCORE_MIN <= alpha < beta <= SCORE_MAX,
    ensures
        ({
            let r = alphabeta(s, depth, alpha, beta);
            let v = minimax_value(s, depth);
            &&& alpha < v < beta ==> r == v
            &&& v <= alpha ==> r <= alpha
            &&& v >= beta ==> r >= beta
        }),
    decreases depth, COLS + 1,
{
    if !(depth == 0 || terminal(s.board)) {
        lemma_alphabeta_children(s, depth, 0, alpha, beta, alpha, beta, worst_for(s), worst_for(s));
    }
}

proof fn lemma_col_total_bounds(f: spec_fn(int, int) -> int, c: int, n: int, lo: int, hi: int)
    requires
        0 <= n,
        forall|r: int| 0 <= r < n ==> lo <= #[trigger] f(c, r) <= hi,
    ensures
        n * lo <= col_total(f, c, n) <= n * hi,
    decreases n,
{
    if n > 0 {
        lemma_col_total_bounds(f, c, n - 1, lo, hi);
        assert((n - 1) * lo + lo == n * lo && (n - 1) * hi + hi == n * hi) by (nonlinear_arith);
    }
}

proof fn lemma_grid_total_bounds(f: spec_fn(int, int) -> int, n: int, lo: int, hi: int)
    requires
        0 <= n,
        forall|c: int, r: int| 0 <= c < n && 0 <= r < ROWS ==> lo <= #[trigger] f(c, r) <= hi,
    ensures
        n * ROWS * lo <= grid_total(f, n) <= n * ROWS * hi,
    decreases n,
{
    if n > 0 {
        lemma_grid_total_bounds(f, n - 1, lo, hi);
        lemma_col_total_bounds(f, n - 1, ROWS as int, lo, hi);
        assert((n - 1) * ROWS * lo + ROWS * lo == n * ROWS * lo && (n - 1) * ROWS * hi + ROWS * hi
            == n * ROWS * hi) by (nonlinear_arith);
        assert(grid_total(f, n) == grid_total(f, n - 1) + col_total(f, n - 1, ROWS as int));
    } else {
        assert(n * lo == 0 && n * hi == 0) by (nonlinear_arith)
            requires
                n == 0,
        ;
    }
}

proof fn lemma_row_total_bounds(f: spec_fn(int, int) -> int, r: int, n: int, lo: int, hi: int)
    requires
        0 <= n,
        forall|c: int| 0 <= c < n ==> lo <= #[trigger] f(c, r) <= hi,
    ensures
        n * lo <= row_total(f, r, n) <= n * hi,
    decreases n,
{
    if n > 0 {
        lemma_row_total_bounds(f, r, n - 1, lo, hi);
        assert(lo <= f(n - 1, r) <= hi);
        assert((n - 1) * lo + lo == n * lo && (n - 1) * hi + hi == n * hi) by (nonlinear_arith);
        assert(row_total(f, r, n) == row_total(f, r, n - 1) + f(n - 1, r));
    } else {
        assert(n * lo == 0 && n * hi == 0) by (nonlinear_arith)
            requires
                n == 0,
        ;
    }
}

proof fn lemma_grid_total_by_rows_bounds(f: spec_fn(int, int) -> int, n: int, lo: int, hi: int)
    requires
        0 <= n,
        forall|c: int, r: int| 0 <= c < COLS && 0 <= r < n ==> lo <= #[trigger] f(c, r) <= hi,
    ensures
        n * COLS * lo <= grid_total_by_rows(f, n) <= n * COLS * hi,
    decreases n,
{
    if n > 0 {
        lemma_grid_total_by_rows_bounds(f, n - 1, lo, hi);
        lemma_row_total_bounds(f, n - 1, COLS as int, lo, hi);
        assert((n - 1) * COLS * lo + COLS * lo == n * COLS * lo && (n - 1) * COLS * hi + COLS * hi
            == n * COLS * hi) by (nonlinear_arith);
        assert(grid_total_by_rows(f, n) == grid_total_by_rows(f, n - 1) + row_total(
            f,
            n - 1,
            COLS as int,
        ));
    } else {
        assert(n * lo == 0 && n * hi == 0) by (nonlinear_arith)
            requires
                n == 0,
        ;
    }
}

proof fn lemma_columns_total_bounds(g: spec_fn(int) -> int, n: int, lo: int, hi: int)
    requires
        0 <= n,
        forall|c: int| 0 <= c < n ==> lo <= #[trigger] g(c) <= hi,
    ensures
        n * lo <= columns_total(g, n) <= n * hi,
    decreases n,
{
    if n > 0 {
        lemma_columns_total_bounds(g, n - 1, lo, hi);
        assert(lo <= g(n - 1) <= hi);
        assert((n - 1) * lo + lo == n * lo && (n - 1) * hi + hi == n * hi) by (nonlinear_arith);
        assert(columns_total(g, n) == columns_total(g, n - 1) + g(n - 1));
    } else {
        assert(n * lo == 0 && n * hi == 0) by (nonlinear_arith)
            requires
                n == 0,
        ;
    }
}

proof fn lemma_ray_at_most(b: Board, c: int, r: int, dc: int, dr: int, x: Cell, n: nat)
    ensures
        ray(b, c, r, dc, dr, x, n) <= n,
    decreases n,
{
    if n > 0 {
        lemma_ray_at_most(b, c + dc, r + dr, dc, dr, x, (n - 1) as nat);
    }
}

proof fn lemma_threats_around_bounds(b: Board, c: int, r: int, p: Player)
    ensures
        0 <= threats_around(b, c, r, p) <= 4000,
{
}

proof fn lemma_threat_of_bounds(b: Board, p: Player)
    ensures
        0 <= threat_of(b, p) <= COLS * 10000,
{
    assert forall|c: int| 0 <= c < COLS implies 0 <= #[trigger] threat_in(b, p)(c) <= 10000 by {
        let r = landing_row(b, c);
        lemma_threats_around_bounds(placed(b, c, r, piece(p)), c, r, p);
    }
    lemma_columns_total_bounds(threat_in(b, p), COLS as int, 0, 10000);
}

/// Every feature of a player lies within fixed bounds.
proof fn lemma_feature_bounds(s: GameState, p: Player)
    ensures
        0 <= center_control_of(s.board, p) <= 3 * ROWS * ROWS,
        0 <= pieces_of(s.board, p) <= COLS * ROWS,
        0 <= threat_of(s.board, p) <= COLS * 10000,
        0 <= mobility_of(s, p) <= COLS * 1000 * COLS,
        0 <= vertical_control_of(s.board, p) <= COLS * ROWS * COLS,
        0 <= horizontal_control_of(s.board, p) <= ROWS * COLS * COLS,
        0 <= defensive_of(s.board, p) <= COLS * 400000,
{
    let b = s.board;
    lemma_col_total_bounds(height_at(b, p), 2, ROWS as int, 0, ROWS as int);
    lemma_col_total_bounds(height_at(b, p), 3, ROWS as int, 0, ROWS as int);
    lemma_col_total_bounds(height_at(b, p), 4, ROWS as int, 0, ROWS as int);
    lemma_grid_total_bounds(piece_at(b, p), COLS as int, 0, 1);
    lemma_threat_of_bounds(b, p);
    assert forall|c: int| 0 <= c < COLS implies 0 <= #[trigger] mobility_in(s, p)(c) <= 1000 * COLS by {
        lemma_threat_of_bounds(s.after(c).board, p);
    }
    lemma_columns_total_bounds(mobility_in(s, p), COLS as int, 0, 1000 * COLS);
    assert forall|c: int, r: int| 0 <= c < COLS && 0 <= r < ROWS implies 0 <= #[trigger] vertical_run_at(b, p)(c, r) <= COLS by {
        lemma_ray_at_most(b, c, r, 0, -1, piece(p), COLS as nat);
    }
    lemma_grid_total_bounds(vertical_run_at(b, p), COLS as int, 0, COLS as int);
    assert forall|c: int, r: int| 0 <= c < COLS && 0 <= r < ROWS implies 0 <= #[trigger] horizontal_run_at(b, p)(c, r) <= COLS by {
        lemma_ray_at_most(b, c, r, -1, 0, piece(p), COLS as nat);
    }
    lemma_grid_total_by_rows_bounds(horizontal_run_at(b, p), ROWS as int, 0, COLS as int);
    assert forall|c: int| 0 <= c < COLS implies 0 <= #[trigger] defense_in(b, p)(c) <= 400000 by {
        let r = landing_row(b, c);
        lemma_threats_around_bounds(b, c, r, p.other());
        lemma_threats_around_bounds(placed(b, c, r, piece(p)), c, r, p.other());
    }
    lemma_columns_total_bounds(defense_in(b, p), COLS as int, 0, 400000);
}

proof fn lemma_piece_value_bounds(cfg: crate::params::GeneticParams, c: int, r: int)
    requires
        0 <= r < ROWS,
    ensures
        -PIECE_VALUE_BOUND <= piece_value(cfg, c, r) <= PIECE_VALUE_BOUND,
{
    let cv = column_value(cfg, c);
    let h = ROWS - r;
    let w = cfg.row_height_weight_milli as int;
    let bound = 2_147_483_648int;
    assert(-6 * bound <= cv * h <= 6 * bound) by (nonlinear_arith)
        requires
            -bound <= cv < bound,
            1 <= h <= 6,
    ;
    assert(-6 * bound * bound <= (cv * h) * w <= 6 * bound * bound) by (nonlinear_arith)
        requires
            -6 * bound <= cv * h <= 6 * bound,
            -bound <= w < bound,
    ;
}

/// One weighted feature difference.
proof fn lemma_weighted_bounds(diff: int, w: i32)
    requires
        -3_000_000 <= diff <= 3_000_000,
    ensures
        -7_000_000_000_000 <= diff * trunc_milli(w as int) <= 7_000_000_000_000,
{
    let t = trunc_milli(w as int);
    assert(-2_147_484 <= t <= 2_147_484);
    assert(-3_000_000 * 2_147_484 <= diff * t <= 3_000_000 * 2_147_484) by (nonlinear_arith)
        requires
            -3_000_000 <= diff <= 3_000_000,
            -2_147_484 <= t <= 2_147_484,
    ;
}

/// The most that an evaluation can be, in absolute terms.
pub open spec fn evaluation_bound() -> int {
    COLS * ROWS * PIECE_VALUE_BOUND + 7 * 7_000_000_000_000
}

/// Every evaluation lies within `evaluation_bound()`, far inside the
/// search window's sentinels.
pub proof fn lemma_evaluation_bounds(s: GameState)
    ensures
        -evaluation_bound() <= evaluation(s) <= evaluation_bound(),
        evaluation_bound() < SCORE_MAX,
        SCORE_MIN < -evaluation_bound(),
{
    let b = s.board;
    let cfg = s.genetic_params;
    let player1 = Player::Player1;
    let player2 = Player::Player2;
    assert forall|c: int, r: int| 0 <= c < COLS && 0 <= r < ROWS implies -PIECE_VALUE_BOUND
        <= #[trigger] signed_position_at(b, cfg)(c, r) <= PIECE_VALUE_BOUND by {
        lemma_piece_value_bounds(cfg, c, r);
    }
    lemma_grid_total_bounds(
        signed_position_at(b, cfg),
        COLS as int,
        -PIECE_VALUE_BOUND,
        PIECE_VALUE_BOUND as int,
    );
    lemma_feature_bounds(s, player1);
    lemma_feature_bounds(s, player2);
    lemma_weighted_bounds(center_control_of(b, player1) - center_control_of(b, player2), cfg.center_control_weight_milli);
    lemma_weighted_bounds(threat_of(b, player1) - threat_of(b, player2), cfg.threat_weight_milli);
    lemma_weighted_bounds(pieces_of(b, player1) - pieces_of(b, player2), cfg.piece_count_weight_milli);
    lemma_weighted_bounds(mobility_of(s, player1) - mobility_of(s, player2), cfg.mobility_weight_milli);
    lemma_weighted_bounds(vertical_control_of(b, player1) - vertical_control_of(b, player2), cfg.vertical_control_weight_milli);
    lemma_weighted_bounds(horizontal_control_of(b, player1) - horizontal_control_of(b, player2), cfg.horizontal_control_weight_milli);
    lemma_weighted_bounds(defensive_of(b, player1) - defensive_of(b, player2), cfg.defensive_weight_milli);
}

proof fn lemma_minimax_children_bounds(s: GameState, depth: nat, c: int, best: int)
    requires
        depth > 0,
        0 <= c <= COLS,
        -evaluation_bound() <= best <= evaluation_bound() || best == worst_for(s),
    ensures
        (-evaluation_bound() <= best <= evaluation_bound() || exists|k: int|
            c <= k < COLS && playable(s.board, k)) ==> -evaluation_bound() <= minimax_children(
            s,
            depth,
            c,
            best,
        ) <= evaluation_bound(),
    decreases depth, COLS - c,
{
    lemma_evaluation_bounds(s);
    if c < COLS {
        if !playable(s.board, c) {
            lemma_minimax_children_bounds(s, depth, c + 1, best);
        } else {
            let v = minimax_value(s.after(c), (depth - 1) as nat);
            lemma_minimax_value_bounds(s.after(c), (depth - 1) as nat);
            let b2 = if maximizing(s) {
                max_int(best, v)
            } else {
                min_int(best, v)
            };
            lemma_minimax_children_bounds(s, depth, c + 1, b2);
        }
    }
}

/// Plain minimax values, like evaluations, lie within
/// `evaluation_bound()`.
proof fn lemma_minimax_value_bounds(s: GameState, depth: nat)
    ensures
        -evaluation_bound() <= minimax_value(s, depth) <= evaluation_bound(),
    decreases depth, COLS + 1,
{
    lemma_evaluation_bounds(s);
    if !(depth == 0 || terminal(s.board)) {
        lemma_playable_upto(s.board, COLS as int);
        let k = moves_of(s.board)[0] as int;
        assert(playable(s.board, k));
        lemma_minimax_children_bounds(s, depth, 0, worst_for(s));
    }
}

/// Pruning does not change the outcome: searched with the full window,
/// alpha-beta gives exactly the plain minimax value.
pub proof fn lemma_pruning_keeps_the_value(s: GameState, depth: nat)
    ensures
        alphabeta(s, depth, SCORE_MIN as int, SCORE_MAX as int) == minimax_value(s, depth),
{
    lemma_minimax_value_bounds(s, depth);
    lemma_evaluation_bounds(s);
    lemma_alphabeta(s, depth, SCORE_MIN as int, SCORE_MAX as int);
}

} // verus!
