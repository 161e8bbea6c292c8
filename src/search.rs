use crate::board::{playable, Board, Cell, GameState, Player, COLS, ROWS};
use crate::eval::evaluation;
use crate::rules::terminal;
use std::collections::HashMap;
use vstd::prelude::*;

verus! {

broadcast use vstd::std_specs::hash::group_hash_axioms;

/// Below every score: the initial lower bound of the search window.
pub const SCORE_MIN: i64 = i64::MIN;

/// Above every score: the initial upper bound of the search window.
pub const SCORE_MAX: i64 = i64::MAX;

/// A cached search result: the score, and the depth it was searched to.
#[derive(Clone, Copy, Debug, PartialEq, Eq, Structural)]
pub struct TranspositionEntry {
    pub score: i64,
    pub depth: u8,
}

pub open spec fn cell_code(x: Cell) -> u128 {
    match x {
        Cell::Empty => 0,
        Cell::Player1 => 1,
        Cell::Player2 => 2,
    }
}

/// The bit that records whose turn it is.
pub open spec fn turn_bit(p: Player) -> u128 {
    match p {
        Player::Player1 => 0,
        Player::Player2 => 1u128 << 84u32,
    }
}

/// Packs two bits for each cell, from column `c`, row `r` on, into `acc`:
/// cell `(c, r)` takes bits `2 * (c * ROWS + r)` and the next one.
pub open spec fn key_fold(b: Board, c: int, r: int, acc: u128) -> u128
    decreases COLS - c, ROWS + 1 - r,
{
    if c < 0 || c >= COLS || r < 0 {
        acc
    } else if r >= ROWS {
        key_fold(b, c + 1, 0, acc)
    } else {
        key_fold(b, c, r + 1, acc | (cell_code(b[c][r]) << ((2 * (c * ROWS + r)) as u32)))
    }
}

/// The cache key of a state: every cell and the player to move.
pub open spec fn position_key(s: GameState) -> u128 {
    key_fold(s.board, 0, 0, turn_bit(s.current_player))
}

/// Player1 maximizes the score, Player2 minimizes it.
pub open spec fn maximizing(s: GameState) -> bool {
    s.current_player == Player::Player1
}

pub open spec fn max_int(a: int, b: int) -> int {
    if a >= b {
        a
    } else {
        b
    }
}

pub open spec fn min_int(a: int, b: int) -> int {
    if a <= b {
        a
    } else {
        b
    }
}

/// The score that a search starts from before it has seen a move.
pub open spec fn worst_for(s: GameState) -> int {
    if maximizing(s) {
        SCORE_MIN as int
    } else {
        SCORE_MAX as int
    }
}

/// Depth-limited minimax with alpha-beta pruning and a transposition
/// cache: the score of `s` searched `depth` plies deep within the window
/// `(alpha, beta)`, and the cache afterwards.
///
/// A cached entry is used when it was searched at least as deep. A leaf
/// (depth 0, or a finished game) is evaluated; an inner node tries the
/// columns in ascending order and stops once the window closes. Either
/// way the result is stored under the state's key, replacing what was
/// there.
pub open spec fn search(
    cache: Map<u128, TranspositionEntry>,
    s: GameState,
    depth: nat,
    alpha: int,
    beta: int,
) -> (int, Map<u128, TranspositionEntry>)
    decreases depth, COLS + 1,
{
    let k = position_key(s);
    if cache.contains_key(k) && cache[k].depth >= depth {
        (cache[k].score as int, cache)
    } else if depth == 0 || terminal(s.board) {
        let e = evaluation(s);
        (e, cache.insert(k, TranspositionEntry { score: e as i64, depth: depth as u8 }))
    } else {
        let r = search_children(cache, s, depth, 0, alpha, beta, worst_for(s));
        (r.0, r.1.insert(k, TranspositionEntry { score: r.0 as i64, depth: depth as u8 }))
    }
}

/// The children of `s` from column `c` on, with `best` the best score so
/// far and `(alpha, beta)` the window so far.
pub open spec fn search_children(
    cache: Map<u128, TranspositionEntry>,
    s: GameState,
    depth: nat,
    c: int,
    alpha: int,
    beta: int,
    best: int,
) -> (int, Map<u128, TranspositionEntry>)
    decreases depth, COLS - c,
{
    if depth == 0 || c < 0 || c >= COLS {
        (best, cache)
    } else if !playable(s.board, c) {
        search_children(cache, s, depth, c + 1, alpha, beta, best)
    } else {
        let r = search(cache, s.after(c), (depth - 1) as nat, alpha, beta);
        let v = r.0;
        let best2 = if maximizing(s) {
            max_int(best, v)
        } else {
            min_int(best, v)
        };
        let alpha2 = if maximizing(s) {
            max_int(alpha, v)
        } else {
            alpha
        };
        let beta2 = if maximizing(s) {
            beta
        } else {
            min_int(beta, v)
        };
        if beta2 <= alpha2 {
            (best2, r.1)
        } else {
            search_children(r.1, s, depth, c + 1, alpha2, beta2, best2)
        }
    }
}

/// The search engine. It owns its transposition cache, and counts the
/// inner nodes it expands and the cache hits it uses during a decision.
pub struct AI {
    transposition_table: HashMap<u128, TranspositionEntry>,
    /// Inner nodes expanded since the last decision began (saturating).
    pub nodes_evaluated: u32,
    /// Cache entries used since the last decision began (saturating).
    pub transposition_hits: u32,
}

impl View for AI {
    type V = Map<u128, TranspositionEntry>;

    closed spec fn view(&self) -> Map<u128, TranspositionEntry> {
        self.transposition_table@
    }
}

impl GameState {
    /// The cache key of the state.
    pub fn position_key(&self) -> (k: u128)
        ensures
            k == position_key(*self),
    {
        let mut key: u128 = match self.current_player {
            Player::Player1 => 0,
            Player::Player2 => 1u128 << 84u32,
        };
        let mut col: usize = 0;
        while col < COLS
            invariant
                col <= COLS,
                key_fold(self.board, col as int, 0, key) == position_key(*self),
            decreases COLS - col,
        {
            let mut row: usize = 0;
            while row < ROWS
                invariant
                    col < COLS,
                    row <= ROWS,
                    key_fold(self.board, col as int, row as int, key) == position_key(*self),
                decreases ROWS - row,
            {
                let code: u128 = match self.board[col][row] {
                    Cell::Empty => 0,
                    Cell::Player1 => 1,
                    Cell::Player2 => 2,
                };
                key = key | (code << ((2 * (col * ROWS + row)) as u32));
                row = row + 1;
            }
            col = col + 1;
        }
        key
    }
}

impl AI {
    pub fn new() -> (r: AI)
        ensures
            r@ == Map::<u128, TranspositionEntry>::empty(),
    {
        AI { transposition_table: HashMap::new(), nodes_evaluated: 0, transposition_hits: 0 }
    }

    /// Zeroes the node and cache-hit counters.
    pub(crate) fn reset_counters(&mut self)
        ensures
            final(self)@ == old(self)@,
    {
        self.nodes_evaluated = 0;
        self.transposition_hits = 0;
    }

    /// The number of cached positions.
    pub fn get_transposition_table_size(&self) -> (r: usize)
        ensures
            r == self@.len(),
    {
        self.transposition_table.len()
    }

    /// Forgets every cached position.
    pub fn clear_transposition_table(&mut self)
        ensures
            final(self)@ == Map::<u128, TranspositionEntry>::empty(),
    {
        self.transposition_table.clear();
    }

    /// The score of `state` searched `depth` plies deep within the window
    /// `(alpha, beta)`; see `search`.
    pub fn minimax(&mut self, state: &GameState, depth: u8, alpha: i64, beta: i64) -> (r: i64)
        ensures
            (r as int, final(self)@) == search(
                old(self)@,
                *state,
                depth as nat,
                alpha as int,
                beta as int,
            ),
        decreases depth,
    {
        let key = state.position_key();
        match self.transposition_table.get(&key) {
            Some(entry) => {
                if entry.depth >= depth {
                    if self.transposition_hits < u32::MAX {
                        self.transposition_hits = self.transposition_hits + 1;
                    }
                    return entry.score;
                }
            },
            None => {},
        }
        if depth == 0 || state.is_game_over() {
            let e = state.evaluate();
            self.transposition_table.insert(key, TranspositionEntry { score: e, depth });
            return e;
        }
        if self.nodes_evaluated < u32::MAX {
            self.nodes_evaluated = self.nodes_evaluated + 1;
        }
        let is_maximizing = state.current_player == Player::Player1;
        let mut best: i64 = if is_maximizing {
            SCORE_MIN
        } else {
            SCORE_MAX
        };
        let mut alpha = alpha;
        let mut beta = beta;
        let ghost total = search_children(
            self@,
            *state,
            depth as nat,
            0,
            alpha as int,
            beta as int,
            best as int,
        );
        let mut col: usize = 0;
        while col < COLS
            invariant_except_break
                search_children(
                    self@,
                    *state,
                    depth as nat,
                    col as int,
                    alpha as int,
                    beta as int,
                    best as int,
                ) == total,
            invariant
                col <= COLS,
                depth > 0,
                is_maximizing == maximizing(*state),
            ensures
                (best as int, self@) == total,
            decreases COLS - col,
        {
            if state.can_place_in_column(col) {
                let mut next = *state;
                let moved = next.make_move(col as u8);
                // The column accepts a piece, so the drop cannot fail.
                proof {
                    assert(moved is Ok);
                }
                let score = self.minimax(&next, depth - 1, alpha, beta);
                if is_maximizing {
                    if score > best {
                        best = score;
                    }
                    if score > alpha {
                        alpha = score;
                    }
                } else {
                    if score < best {
                        best = score;
                    }
                    if score < beta {
                        beta = score;
                    }
                }
                if beta <= alpha {
                    break;
                }
            }
            col = col + 1;
        }
        self.transposition_table.insert(key, TranspositionEntry { score: best, depth });
        best
    }
}

} // verus!
