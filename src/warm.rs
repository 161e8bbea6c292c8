use crate::board::{
    in_bounds, landing_row, lemma_lowest_empty_from, piece, playable, Board, Cell, GameState,
    COLS, ROWS,
};
use crate::decide::{decide, root_scores, MoveEvaluation, MoveType};
use crate::features::{col_total, grid_total};
use crate::search::{
    cell_code, key_fold, position_key, search, search_children, turn_bit, TranspositionEntry,
    SCORE_MAX, SCORE_MIN,
};
use vstd::prelude::*;

verus! {

/// The two bits of `key` that hold cell `(c, r)`.
pub open spec fn key_cell(key: u128, c: int, r: int) -> u128 {
    (key >> ((2 * (c * ROWS + r)) as u32)) & 3
}

/// The bit of `key` that holds the player to move.
pub open spec fn key_turn(key: u128) -> u128 {
    (key >> 84u32) & 1
}

proof fn lemma_or_keeps_other_bits(acc: u128, code: u128, s: u32, t: u32)
    requires
        code < 4,
        s <= 82,
        t <= 82,
        t + 2 <= s || s + 2 <= t,
    ensures
        ((acc | (code << s)) >> t) & 3 == (acc >> t) & 3,
{
    assert(((acc | (code << s)) >> t) & 3 == (acc >> t) & 3) by (bit_vector)
        requires
            code < 4,
            s <= 82,
            t <= 82,
            t + 2 <= s || s + 2 <= t,
    ;
}

proof fn lemma_or_sets_bits(acc: u128, code: u128, s: u32)
    requires
        code < 4,
        s <= 82,
        (acc >> s) & 3 == 0,
    ensures
        ((acc | (code << s)) >> s) & 3 == code,
        ((acc | (code << s)) >> 84u32) & 1 == (acc >> 84u32) & 1,
{
    assert(((acc | (code << s)) >> s) & 3 == code) by (bit_vector)
        requires
            code < 4,
            s <= 82,
            (acc >> s) & 3 == 0,
    ;
    assert(((acc | (code << s)) >> 84u32) & 1 == (acc >> 84u32) & 1) by (bit_vector)
        requires
            code < 4,
            s <= 82,
    ;
}

/// The cells before `(c, r)` in column order are packed in `acc`, the
/// later ones are still clear, and the turn bit is set.
pub open spec fn packed_upto(b: Board, acc: u128, c: int, r: int, turn: u128) -> bool {
    &&& forall|c2: int, r2: int|
        #![trigger key_cell(acc, c2, r2)]
        in_bounds(c2, r2) && (c2 < c || (c2 == c && r2 < r)) ==> key_cell(acc, c2, r2) == cell_code(
            b[c2][r2],
        )
    &&& forall|c2: int, r2: int|
        #![trigger key_cell(acc, c2, r2)]
        in_bounds(c2, r2) && !(c2 < c || (c2 == c && r2 < r)) ==> key_cell(acc, c2, r2) == 0
    &&& key_turn(acc) == turn
}

proof fn lemma_key_fold(b: Board, c: int, r: int, acc: u128, turn: u128)
    requires
        0 <= c <= COLS,
        0 <= r <= ROWS,
        packed_upto(b, acc, c, r, turn),
    ensures
        packed_upto(b, key_fold(b, c, r, acc), COLS as int, 0, turn),
    decreases COLS - c, ROWS + 1 - r,
{
    if c < COLS {
        if r >= ROWS {
            lemma_key_fold(b, c + 1, 0, acc, turn);
        } else {
            let code = cell_code(b[c][r]);
            let s = (2 * (c * ROWS + r)) as u32;
            let acc2 = acc | (code << s);
            assert(key_cell(acc, c, r) == 0);
            lemma_or_sets_bits(acc, code, s);
            assert forall|c2: int, r2: int| in_bounds(c2, r2) && !(c2 == c && r2 == r) implies #[trigger] key_cell(
                acc2,
                c2,
                r2,
            ) == key_cell(acc, c2, r2) by {
                lemma_or_keeps_other_bits(acc, code, s, (2 * (c2 * ROWS + r2)) as u32);
            }
            lemma_key_fold(b, c, r + 1, acc2, turn);
        }
    }
}

/// The key of a state records each cell and the player to move.
pub proof fn lemma_position_key_cells(s: GameState)
    ensures
        forall|c: int, r: int|
            in_bounds(c, r) ==> #[trigger] key_cell(position_key(s), c, r) == cell_code(
                s.board[c][r],
            ),
        key_turn(position_key(s)) == key_turn(turn_bit(s.current_player)),
{
    let t = turn_bit(s.current_player);
    assert forall|c: int, r: int| in_bounds(c, r) implies #[trigger] key_cell(t, c, r) == 0 by {
        let sh = (2 * (c * ROWS + r)) as u32;
        assert(sh <= 82);
        assert((0u128 >> sh) & 3 == 0) by (bit_vector);
        assert(((1u128 << 84u32) >> sh) & 3 == 0) by (bit_vector)
            requires
                sh <= 82,
        ;
    }
    lemma_key_fold(s.board, 0, 0, t, key_turn(t));
}

/// Equal keys mean equal cells and the same player to move.
pub proof fn lemma_position_key_injective(s: GameState, t: GameState)
    requires
        position_key(s) == position_key(t),
    ensures
        forall|c: int, r: int| in_bounds(c, r) ==> #[trigger] s.board[c][r] == t.board[c][r],
        s.current_player == t.current_player,
{
    lemma_position_key_cells(s);
    lemma_position_key_cells(t);
    assert forall|c: int, r: int| in_bounds(c, r) implies #[trigger] s.board[c][r] == t.board[c][r] by {
        assert(key_cell(position_key(s), c, r) == cell_code(s.board[c][r]));
        assert(key_cell(position_key(t), c, r) == cell_code(t.board[c][r]));
        let x = s.board[c][r];
        let y = t.board[c][r];
        assert(cell_code(x) == cell_code(y));
        match x {
            Cell::Empty => { assert(y is Empty); },
            Cell::Player1 => { assert(y is Player1); },
            Cell::Player2 => { assert(y is Player2); },
        }
    }
    assert((0u128 >> 84u32) & 1 == 0) by (bit_vector);
    assert(((1u128 << 84u32) >> 84u32) & 1 == 1) by (bit_vector);
}


/// 1 for each occupied cell.
pub open spec fn occupied_at(b: Board) -> spec_fn(int, int) -> int {
    |c: int, r: int|
        if b[c][r] != Cell::Empty {
            1int
        } else {
            0int
        }
}

/// The number of pieces on the board.
pub open spec fn piece_total(b: Board) -> int {
    grid_total(occupied_at(b), COLS as int)
}

proof fn lemma_col_total_same(f: spec_fn(int, int) -> int, g: spec_fn(int, int) -> int, c: int, n: int)
    requires
        forall|r: int| 0 <= r < n ==> #[trigger] f(c, r) == g(c, r),
    ensures
        col_total(f, c, n) == col_total(g, c, n),
    decreases n,
{
    if n > 0 {
        lemma_col_total_same(f, g, c, n - 1);
    }
}

proof fn lemma_grid_total_same(f: spec_fn(int, int) -> int, g: spec_fn(int, int) -> int, n: int)
    requires
        forall|c: int, r: int| 0 <= c < n && 0 <= r < ROWS ==> #[trigger] f(c, r) == g(c, r),
    ensures
        grid_total(f, n) == grid_total(g, n),
    decreases n,
{
    if n > 0 {
        lemma_grid_total_same(f, g, n - 1);
        lemma_col_total_same(f, g, n - 1, ROWS as int);
    }
}

proof fn lemma_col_total_bump(f: spec_fn(int, int) -> int, g: spec_fn(int, int) -> int, c: int, r0: int, n: int)
    requires
        0 <= r0 < ROWS,
        forall|r: int| 0 <= r < n && r != r0 ==> #[trigger] f(c, r) == g(c, r),
        f(c, r0) == g(c, r0) + 1,
    ensures
        col_total(f, c, n) == col_total(g, c, n) + if r0 < n {
            1int
        } else {
            0int
        },
    decreases n,
{
    if n > 0 {
        lemma_col_total_bump(f, g, c, r0, n - 1);
    }
}

proof fn lemma_grid_total_bump(f: spec_fn(int, int) -> int, g: spec_fn(int, int) -> int, c0: int, r0: int, n: int)
    requires
        0 <= c0 < COLS,
        0 <= r0 < ROWS,
        0 <= n <= COLS,
        forall|c: int, r: int|
            0 <= c < n && 0 <= r < ROWS && !(c == c0 && r == r0) ==> #[trigger] f(c, r) == g(c, r),
        f(c0, r0) == g(c0, r0) + 1,
    ensures
        grid_total(f, n) == grid_total(g, n) + if c0 < n {
            1int
        } else {
            0int
        },
    decreases n,
{
    if n > 0 {
        lemma_grid_total_bump(f, g, c0, r0, n - 1);
        if n - 1 == c0 {
            lemma_col_total_bump(f, g, c0, r0, ROWS as int);
        } else {
            lemma_col_total_same(f, g, n - 1, ROWS as int);
        }
    }
}

/// A move adds one piece.
proof fn lemma_move_adds_a_piece(s: GameState, c: int)
    requires
        playable(s.board, c),
    ensures
        piece_total(s.after(c).board) == piece_total(s.board) + 1,
{
    let b = s.board;
    let r0 = landing_row(b, c);
    lemma_lowest_empty_from(b, c, ROWS - 1);
    let nb = s.after(c).board;
    assert(nb[c][r0] == piece(s.current_player));
    assert forall|c2: int, r2: int|
        0 <= c2 < COLS && 0 <= r2 < ROWS && !(c2 == c && r2 == r0) implies #[trigger] occupied_at(
        nb,
    )(c2, r2) == occupied_at(b)(c2, r2) by {
        assert(nb[c2][r2] == b[c2][r2]);
    }
    lemma_grid_total_bump(occupied_at(nb), occupied_at(b), c, r0, COLS as int);
}

/// States with equal keys hold the same number of pieces.
proof fn lemma_same_key_same_total(s: GameState, t: GameState)
    requires
        position_key(s) == position_key(t),
    ensures
        piece_total(s.board) == piece_total(t.board),
{
    lemma_position_key_injective(s, t);
    assert forall|c: int, r: int| 0 <= c < COLS && 0 <= r < ROWS implies #[trigger] occupied_at(
        s.board,
    )(c, r) == occupied_at(t.board)(c, r) by {
        assert(in_bounds(c, r));
    }
    lemma_grid_total_same(occupied_at(s.board), occupied_at(t.board), COLS as int);
}

/// The entry under `k` survives from `old` into `new`.
pub open spec fn keeps(
    old: Map<u128, TranspositionEntry>,
    new: Map<u128, TranspositionEntry>,
    k: u128,
) -> bool {
    old.contains_key(k) ==> new.contains_key(k) && new[k] == old[k]
}

/// A search writes only under the keys of positions with at least as many
/// pieces as where it starts, and of those only under its own.
proof fn lemma_search_keeps(
    cache: Map<u128, TranspositionEntry>,
    t: GameState,
    depth: nat,
    alpha: int,
    beta: int,
    w: GameState,
)
    requires
        piece_total(w.board) < piece_total(t.board) || (piece_total(w.board) == piece_total(
            t.board,
        ) && position_key(w) != position_key(t)),
    ensures
        keeps(cache, search(cache, t, depth, alpha, beta).1, position_key(w)),
    decreases depth, COLS + 1,
{
    if position_key(w) == position_key(t) {
        lemma_same_key_same_total(w, t);
    }
    let k = position_key(t);
    if !(cache.contains_key(k) && cache[k].depth >= depth) && !(depth == 0 || crate::rules::terminal(
        t.board,
    )) {
        lemma_children_keep(cache, t, depth, 0, alpha, beta, crate::search::worst_for(t), w);
    }
}

proof fn lemma_children_keep(
    cache: Map<u128, TranspositionEntry>,
    t: GameState,
    depth: nat,
    c: int,
    alpha: int,
    beta: int,
    best: int,
    w: GameState,
)
    requires
        piece_total(w.board) <= piece_total(t.board),
    ensures
        keeps(cache, search_children(cache, t, depth, c, alpha, beta, best).1, position_key(w)),
    decreases depth, COLS - c,
{
    if !(depth == 0 || c < 0 || c >= COLS) {
        if !playable(t.board, c) {
            lemma_children_keep(cache, t, depth, c + 1, alpha, beta, best, w);
        } else {
            lemma_move_adds_a_piece(t, c);
            let r = search(cache, t.after(c), (depth - 1) as nat, alpha, beta);
            lemma_search_keeps(cache, t.after(c), (depth - 1) as nat, alpha, beta, w);
            let v = r.0;
            let best2 = if crate::search::maximizing(t) {
                crate::search::max_int(best, v)
            } else {
                crate::search::min_int(best, v)
            };
            let alpha2 = if crate::search::maximizing(t) {
                crate::search::max_int(alpha, v)
            } else {
                alpha
            };
            let beta2 = if crate::search::maximizing(t) {
                beta
            } else {
                crate::search::min_int(beta, v)
            };
            if !(beta2 <= alpha2) {
                lemma_children_keep(r.1, t, depth, c + 1, alpha2, beta2, best2, w);
            }
        }
    }
}

/// A search leaves its own result in the cache, at least as deep as asked.
proof fn lemma_search_records(
    cache: Map<u128, TranspositionEntry>,
    t: GameState,
    depth: nat,
    alpha: int,
    beta: int,
)
    requires
        depth <= 255,
    ensures
        ({
            let r = search(cache, t, depth, alpha, beta);
            let k = position_key(t);
            &&& r.1.contains_key(k)
            &&& r.1[k].score == r.0 as i64
            &&& r.1[k].depth >= depth
        }),
{
}

/// The scores that the cache holds for the moves from column `c` on.
pub open spec fn cached_scores(cache: Map<u128, TranspositionEntry>, s: GameState, c: int) -> Seq<
    MoveEvaluation,
>
    decreases COLS - c,
{
    if c < 0 || c >= COLS {
        Seq::empty()
    } else if !playable(s.board, c) {
        cached_scores(cache, s, c + 1)
    } else {
        seq![
            MoveEvaluation {
                column: c as u8,
                score: cache[position_key(s.after(c))].score,
                move_type: MoveType::Normal,
            },
        ] + cached_scores(cache, s, c + 1)
    }
}

/// The cache answers the search of every move from column `c` on.
pub open spec fn hits_from(cache: Map<u128, TranspositionEntry>, s: GameState, depth: nat, c: int) -> bool {
    forall|j: int|
        c <= j < COLS && playable(s.board, j) ==> {
            let k = #[trigger] position_key(s.after(j));
            cache.contains_key(k) && cache[k].depth >= depth
        }
}

proof fn lemma_root_scores_hit(cache: Map<u128, TranspositionEntry>, s: GameState, depth: nat, c: int)
    requires
        0 <= c <= COLS,
        hits_from(cache, s, depth, c),
    ensures
        root_scores(cache, s, depth, c) == (cached_scores(cache, s, c), cache),
    decreases COLS - c,
{
    if c < COLS {
        let k = position_key(s.after(c));
        lemma_root_scores_hit(cache, s, depth, c + 1);
    }
}

/// Two different moves lead to positions with different keys.
proof fn lemma_moves_differ(s: GameState, i: int, j: int)
    requires
        playable(s.board, i),
        playable(s.board, j),
        i != j,
    ensures
        position_key(s.after(i)) != position_key(s.after(j)),
{
    let b = s.board;
    let r = landing_row(b, i);
    lemma_lowest_empty_from(b, i, ROWS - 1);
    assert(s.after(i).board[i][r] == piece(s.current_player));
    assert(s.after(j).board[i][r] == b[i][r]);
    if position_key(s.after(i)) == position_key(s.after(j)) {
        lemma_position_key_injective(s.after(i), s.after(j));
        assert(in_bounds(i, r));
    }
}

proof fn lemma_root_scores_keep(
    cache: Map<u128, TranspositionEntry>,
    s: GameState,
    depth: nat,
    c: int,
    c0: int,
)
    requires
        0 <= c0 < c <= COLS,
        playable(s.board, c0),
    ensures
        keeps(cache, root_scores(cache, s, depth, c).1, position_key(s.after(c0))),
    decreases COLS - c,
{
    if c < COLS {
        if !playable(s.board, c) {
            lemma_root_scores_keep(cache, s, depth, c + 1, c0);
        } else {
            lemma_move_adds_a_piece(s, c);
            lemma_move_adds_a_piece(s, c0);
            lemma_moves_differ(s, c0, c);
            lemma_search_keeps(cache, s.after(c), depth, SCORE_MIN as int, SCORE_MAX as int, s.after(c0));
            let r = search(cache, s.after(c), depth, SCORE_MIN as int, SCORE_MAX as int);
            lemma_root_scores_keep(r.1, s, depth, c + 1, c0);
        }
    }
}

/// Scoring the moves leaves every score in the cache, deep enough to be
/// used again.
#[verifier::rlimit(40)]
proof fn lemma_root_scores_recorded(cache: Map<u128, TranspositionEntry>, s: GameState, depth: nat, c: int)
    requires
        0 <= c <= COLS,
        depth <= 255,
    ensures
        ({
            let r = root_scores(cache, s, depth, c);
            r.0 == cached_scores(r.1, s, c) && hits_from(r.1, s, depth, c)
        }),
    decreases COLS - c,
{
    if c < COLS {
        if !playable(s.board, c) {
            lemma_root_scores_recorded(cache, s, depth, c + 1);
        } else {
            let r = search(cache, s.after(c), depth, SCORE_MIN as int, SCORE_MAX as int);
            lemma_search_records(cache, s.after(c), depth, SCORE_MIN as int, SCORE_MAX as int);
            lemma_root_scores_recorded(r.1, s, depth, c + 1);
            lemma_root_scores_keep(r.1, s, depth, c + 1, c);
            let rest = root_scores(r.1, s, depth, c + 1);
            let fin = rest.1;
            let k = position_key(s.after(c));
            assert(fin.contains_key(k) && fin[k] == r.1[k]);
            let e = MoveEvaluation { column: c as u8, score: r.0 as i64, move_type: MoveType::Normal };
            assert(root_scores(cache, s, depth, c) == (seq![e] + rest.0, fin));
            assert(fin[k].score == e.score);
            assert(cached_scores(fin, s, c) == seq![e] + cached_scores(fin, s, c + 1));
            assert(hits_from(fin, s, depth, c + 1));
            assert forall|j: int| c <= j < COLS && playable(s.board, j) implies {
                let kj = #[trigger] position_key(s.after(j));
                fin.contains_key(kj) && fin[kj].depth >= depth
            } by {
                if j == c {
                    assert(fin[k].depth >= depth);
                }
            }
        }
    }
}

/// Deciding again on the cache that a decision left behind (for instance,
/// after a first decision on an empty cache) chooses the same move and
/// reports the same evaluations.
pub proof fn lemma_warm_cache_same_decision(cache: Map<u128, TranspositionEntry>, s: GameState, depth: nat)
    requires
        depth <= 255,
    ensures
        decide(decide(cache, s, depth).2, s, depth).0 == decide(cache, s, depth).0,
        decide(decide(cache, s, depth).2, s, depth).1 == decide(cache, s, depth).1,
{
    let child_depth: nat = if depth > 0 {
        (depth - 1) as nat
    } else {
        0
    };
    let fresh = root_scores(cache, s, child_depth, 0);
    lemma_root_scores_recorded(cache, s, child_depth, 0);
    lemma_root_scores_hit(fresh.1, s, child_depth, 0);
}

} // verus!
