use crate::board::{landing_row, moves_of, piece, placed, playable, GameState, Player, COLS};
use crate::eval::evaluation;
use crate::rules::winner;
use crate::search::{maximizing, search, worst_for, TranspositionEntry, AI, SCORE_MAX, SCORE_MIN};
use vstd::prelude::*;

verus! {

/// The score reported for a move that wins at once (negated for Player2).
pub const WIN_SIGNAL: i64 = 10000;

/// The score reported for a move that blocks the opponent's immediate
/// win (negated for Player2).
pub const BLOCK_SIGNAL: i64 = 5000;

/// How a move was chosen.
#[derive(Clone, Copy, Debug, PartialEq, Eq, Structural)]
pub enum MoveType {
    /// It wins at once.
    Win,
    /// It takes the cell where the opponent would win.
    Block,
    /// It was scored by search or evaluation.
    Normal,
}

impl MoveType {
    /// The classification's name: "win", "block" or "drop".
    pub fn name(&self) -> (r: &'static str)
        ensures
            r@ == move_type_name(*self),
    {
        match self {
            MoveType::Win => "win",
            MoveType::Block => "block",
            MoveType::Normal => "drop",
        }
    }
}

pub open spec fn move_type_name(t: MoveType) -> Seq<char> {
    match t {
        MoveType::Win => "win"@,
        MoveType::Block => "block"@,
        MoveType::Normal => "drop"@,
    }
}

/// A column, its score, and how it was chosen.
#[derive(Clone, Copy, Debug, PartialEq, Eq, Structural)]
pub struct MoveEvaluation {
    pub column: u8,
    pub score: i64,
    pub move_type: MoveType,
}

/// Dropping into column `c` wins at once for the player to move.
pub open spec fn wins_with(s: GameState, c: int) -> bool {
    playable(s.board, c) && winner(s.after(c).board) == Some(s.current_player)
}

/// The opponent of the player to move would win at once by dropping into
/// column `c`, so a piece of the player to move there blocks them.
pub open spec fn blocks_with(s: GameState, c: int) -> bool {
    let opp = s.current_player.other();
    playable(s.board, c) && winner(
        placed(s.board, c, landing_row(s.board, c), piece(opp)),
    ) == Some(opp)
}

/// The first column from `c` on that wins at once.
pub open spec fn first_winning(s: GameState, c: int) -> Option<u8>
    decreases COLS - c,
{
    if c < 0 || c >= COLS {
        None
    } else if wins_with(s, c) {
        Some(c as u8)
    } else {
        first_winning(s, c + 1)
    }
}

/// The first column from `c` on that blocks an immediate win.
pub open spec fn first_blocking(s: GameState, c: int) -> Option<u8>
    decreases COLS - c,
{
    if c < 0 || c >= COLS {
        None
    } else if blocks_with(s, c) {
        Some(c as u8)
    } else {
        first_blocking(s, c + 1)
    }
}

/// The reported score for a shortcut move: `signal` from Player1's side.
pub open spec fn signed(s: GameState, signal: i64) -> i64 {
    if maximizing(s) {
        signal
    } else {
        (-signal) as i64
    }
}

/// Searches every column from `c` on that accepts a piece, `depth` plies
/// below the move, each with the full window; the scores in column order
/// and the cache afterwards.
pub open spec fn root_scores(
    cache: Map<u128, TranspositionEntry>,
    s: GameState,
    depth: nat,
    c: int,
) -> (Seq<MoveEvaluation>, Map<u128, TranspositionEntry>)
    decreases COLS - c,
{
    if c < 0 || c >= COLS {
        (Seq::empty(), cache)
    } else if !playable(s.board, c) {
        root_scores(cache, s, depth, c + 1)
    } else {
        let r = search(cache, s.after(c), depth, SCORE_MIN as int, SCORE_MAX as int);
        let rest = root_scores(r.1, s, depth, c + 1);
        (
            seq![MoveEvaluation { column: c as u8, score: r.0 as i64, move_type: MoveType::Normal }]
                + rest.0,
            rest.1,
        )
    }
}

/// Evaluates the state after each move from column `c` on.
pub open spec fn static_scores(s: GameState, c: int) -> Seq<MoveEvaluation>
    decreases COLS - c,
{
    if c < 0 || c >= COLS {
        Seq::empty()
    } else if !playable(s.board, c) {
        static_scores(s, c + 1)
    } else {
        seq![
            MoveEvaluation {
                column: c as u8,
                score: evaluation(s.after(c)) as i64,
                move_type: MoveType::Normal,
            },
        ] + static_scores(s, c + 1)
    }
}

/// `a` is strictly better than `b` for the side that maximizes, or for
/// the side that minimizes.
pub open spec fn better(a: int, b: int, maximize: bool) -> bool {
    if maximize {
        a > b
    } else {
        a < b
    }
}

/// Scans `list` from index `i` on, keeping the first entry with the best
/// score seen so far.
pub open spec fn pick_from(
    list: Seq<MoveEvaluation>,
    maximize: bool,
    i: int,
    best_score: int,
    best: Option<u8>,
) -> Option<u8>
    decreases list.len() - i,
{
    if i < 0 || i >= list.len() {
        best
    } else if better(list[i].score as int, best_score, maximize) {
        pick_from(list, maximize, i + 1, list[i].score as int, Some(list[i].column))
    } else {
        pick_from(list, maximize, i + 1, best_score, best)
    }
}

/// Where `e` goes among the first `n` entries of `sorted`: after every
/// entry that it does not beat.
pub open spec fn insert_pos(sorted: Seq<MoveEvaluation>, e: MoveEvaluation, maximize: bool, n: int) -> int
    decreases n,
{
    if n <= 0 {
        0
    } else if better(e.score as int, sorted[n - 1].score as int, maximize) {
        insert_pos(sorted, e, maximize, n - 1)
    } else {
        n
    }
}

/// `list` ordered best first, keeping the order of equal scores.
pub open spec fn ranked(list: Seq<MoveEvaluation>, maximize: bool) -> Seq<MoveEvaluation>
    decreases list.len(),
{
    if list.len() == 0 {
        list
    } else {
        let sorted = ranked(list.drop_last(), maximize);
        sorted.insert(insert_pos(sorted, list.last(), maximize, sorted.len() as int), list.last())
    }
}

/// What the engine decides for `s` searched `depth` plies deep, starting
/// from `cache`: the move, the ranked evaluations, and the cache after.
///
/// No move: none. One move: that one. Else a move that wins at once,
/// else one that blocks the opponent's immediate win, else the move with
/// the best searched score (the first of equals), with every move's score
/// listed best first.
pub open spec fn decide(cache: Map<u128, TranspositionEntry>, s: GameState, depth: nat) -> (
    Option<u8>,
    Seq<MoveEvaluation>,
    Map<u128, TranspositionEntry>,
) {
    let moves = moves_of(s.board);
    if moves.len() == 0 {
        (None, Seq::empty(), cache)
    } else if moves.len() == 1 {
        (Some(moves[0]), Seq::empty(), cache)
    } else if first_winning(s, 0) is Some {
        let c = first_winning(s, 0)->0;
        (
            Some(c),
            seq![MoveEvaluation { column: c, score: signed(s, WIN_SIGNAL), move_type: MoveType::Win }],
            cache,
        )
    } else if first_blocking(s, 0) is Some {
        let c = first_blocking(s, 0)->0;
        (
            Some(c),
            seq![
                MoveEvaluation {
                    column: c,
                    score: signed(s, BLOCK_SIGNAL),
                    move_type: MoveType::Block,
                },
            ],
            cache,
        )
    } else {
        let child_depth: nat = if depth > 0 {
            (depth - 1) as nat
        } else {
            0
        };
        let scored = root_scores(cache, s, child_depth, 0);
        (
            pick_from(scored.0, maximizing(s), 0, worst_for(s), None),
            ranked(scored.0, maximizing(s)),
            scored.1,
        )
    }
}

/// What the one-ply engine decides for `s`: as `decide`, but each move is
/// scored by evaluating the state after it, the first move is kept unless
/// another scores strictly better, and the list is ranked highest first.
pub open spec fn decide_static(s: GameState) -> (Option<u8>, Seq<MoveEvaluation>) {
    let moves = moves_of(s.board);
    if moves.len() == 0 {
        (None, Seq::empty())
    } else if moves.len() == 1 {
        (Some(moves[0]), Seq::empty())
    } else if first_winning(s, 0) is Some {
        let c = first_winning(s, 0)->0;
        (
            Some(c),
            seq![MoveEvaluation { column: c, score: signed(s, WIN_SIGNAL), move_type: MoveType::Win }],
        )
    } else if first_blocking(s, 0) is Some {
        let c = first_blocking(s, 0)->0;
        (
            Some(c),
            seq![
                MoveEvaluation {
                    column: c,
                    score: signed(s, BLOCK_SIGNAL),
                    move_type: MoveType::Block,
                },
            ],
        )
    } else {
        let scored = static_scores(s, 0);
        (pick_from(scored, maximizing(s), 0, worst_for(s), Some(moves[0])), ranked(scored, true))
    }
}

impl GameState {
    /// The first column where the player to move wins at once.
    pub fn winning_move(&self) -> (r: Option<u8>)
        ensures
            r == first_winning(*self, 0),
    {
        let mut col: usize = 0;
        while col < COLS
            invariant
                col <= COLS,
                first_winning(*self, col as int) == first_winning(*self, 0),
            decreases COLS - col,
        {
            if self.can_place_in_column(col) {
                let mut next = *self;
                let moved = next.make_move(col as u8);
                // The column accepts a piece, so the drop cannot fail.
                proof {
                    assert(moved is Ok);
                }
                if next.get_winner() == Some(self.current_player) {
                    return Some(col as u8);
                }
            }
            col = col + 1;
        }
        None
    }

    /// The first column where the opponent of the player to move would
    /// win at once.
    pub fn blocking_move(&self) -> (r: Option<u8>)
        ensures
            r == first_blocking(*self, 0),
    {
        let opponent = self.current_player.opponent();
        let mut col: usize = 0;
        while col < COLS
            invariant
                col <= COLS,
                opponent == self.current_player.other(),
                first_blocking(*self, col as int) == first_blocking(*self, 0),
            decreases COLS - col,
        {
            if self.can_place_in_column(col) {
                let mut probe = *self;
                probe.current_player = opponent;
                let moved = probe.make_move(col as u8);
                // The column accepts a piece, so the drop cannot fail.
                proof {
                    assert(moved is Ok);
                }
                if probe.get_winner() == Some(opponent) {
                    return Some(col as u8);
                }
            }
            col = col + 1;
        }
        None
    }
}

/// The first entry with the best score, scanning from `initial`.
fn pick_best(list: &Vec<MoveEvaluation>, maximize: bool, worst: i64, initial: Option<u8>) -> (r:
    Option<u8>)
    ensures
        r == pick_from(list@, maximize, 0, worst as int, initial),
{
    let mut best_score = worst;
    let mut best = initial;
    let mut i: usize = 0;
    while i < list.len()
        invariant
            i <= list.len(),
            pick_from(list@, maximize, i as int, best_score as int, best) == pick_from(
                list@,
                maximize,
                0,
                worst as int,
                initial,
            ),
        decreases list.len() - i,
    {
        let e = list[i];
        let improves = if maximize {
            e.score > best_score
        } else {
            e.score < best_score
        };
        if improves {
            best_score = e.score;
            best = Some(e.column);
        }
        i = i + 1;
    }
    best
}

/// `list` ordered best first, keeping the order of equal scores.
fn rank(list: &Vec<MoveEvaluation>, maximize: bool) -> (r: Vec<MoveEvaluation>)
    ensures
        r@ == ranked(list@, maximize),
{
    let mut sorted: Vec<MoveEvaluation> = Vec::new();
    let mut i: usize = 0;
    while i < list.len()
        invariant
            i <= list.len(),
            sorted@ == ranked(list@.subrange(0, i as int), maximize),
        decreases list.len() - i,
    {
        let e = list[i];
        let mut pos: usize = sorted.len();
        while pos > 0
            invariant
                pos <= sorted.len(),
                insert_pos(sorted@, e, maximize, pos as int) == insert_pos(
                    sorted@,
                    e,
                    maximize,
                    sorted.len() as int,
                ),
            ensures
                pos == insert_pos(sorted@, e, maximize, sorted.len() as int),
            decreases pos,
        {
            let ahead = if maximize {
                e.score > sorted[pos - 1].score
            } else {
                e.score < sorted[pos - 1].score
            };
            if !ahead {
                break;
            }
            pos = pos - 1;
        }
        proof {
            let prefix = list@.subrange(0, i as int + 1);
            assert(prefix.drop_last() =~= list@.subrange(0, i as int));
            assert(prefix.last() == e);
        }
        sorted.insert(pos, e);
        i = i + 1;
    }
    proof {
        assert(list@.subrange(0, list.len() as int) =~= list@);
    }
    sorted
}

impl AI {
    /// Chooses a move for the player to move, searching `depth` plies
    /// (a depth of 0 is taken as 1); see `decide`.
    pub fn get_best_move(&mut self, state: &GameState, depth: u8) -> (r: (
        Option<u8>,
        Vec<MoveEvaluation>,
    ))
        ensures
            (r.0, r.1@, final(self)@) == decide(old(self)@, *state, depth as nat),
    {
        self.reset_counters();
        let valid_moves = state.get_valid_moves();
        if valid_moves.len() == 0 {
            return (None, Vec::new());
        }
        if valid_moves.len() == 1 {
            return (Some(valid_moves[0]), Vec::new());
        }
        let maximize = state.current_player == Player::Player1;
        if let Some(col) = state.winning_move() {
            let score = if maximize {
                WIN_SIGNAL
            } else {
                -WIN_SIGNAL
            };
            return (Some(col), vec![MoveEvaluation { column: col, score, move_type: MoveType::Win }]);
        }
        if let Some(col) = state.blocking_move() {
            let score = if maximize {
                BLOCK_SIGNAL
            } else {
                -BLOCK_SIGNAL
            };
            return (
                Some(col),
                vec![MoveEvaluation { column: col, score, move_type: MoveType::Block }],
            );
        }
        let child_depth: u8 = if depth > 0 {
            depth - 1
        } else {
            0
        };
        let ghost total = root_scores(self@, *state, child_depth as nat, 0);
        let mut evaluations: Vec<MoveEvaluation> = Vec::new();
        let mut col: usize = 0;
        while col < COLS
            invariant
                col <= COLS,
                total.0 == evaluations@ + root_scores(
                    self@,
                    *state,
                    child_depth as nat,
                    col as int,
                ).0,
                total.1 == root_scores(self@, *state, child_depth as nat, col as int).1,
            decreases COLS - col,
        {
            if state.can_place_in_column(col) {
                let mut next = *state;
                let moved = next.make_move(col as u8);
                // The column accepts a piece, so the drop cannot fail.
                proof {
                    assert(moved is Ok);
                }
                let score = self.minimax(&next, child_depth, SCORE_MIN, SCORE_MAX);
                let e = MoveEvaluation { column: col as u8, score, move_type: MoveType::Normal };
                proof {
                    let rest = root_scores(self@, *state, child_depth as nat, col + 1);
                    assert(evaluations@.push(e) + rest.0 =~= evaluations@ + (seq![e] + rest.0));
                }
                evaluations.push(e);
            }
            col = col + 1;
        }
        proof {
            assert(evaluations@ + Seq::<MoveEvaluation>::empty() =~= evaluations@);
        }
        let worst = if maximize {
            SCORE_MIN
        } else {
            SCORE_MAX
        };
        let best = pick_best(&evaluations, maximize, worst, None);
        let ranked_list = rank(&evaluations, maximize);
        (best, ranked_list)
    }
}

/// A one-ply engine: scores each move by evaluating the state after it.
pub struct HeuristicAI {
    pub nodes_evaluated: u32,
}

impl HeuristicAI {
    pub fn new() -> (r: HeuristicAI)
        ensures
            r.nodes_evaluated == 0,
    {
        HeuristicAI { nodes_evaluated: 0 }
    }

    /// Chooses a move for the player to move; see `decide_static`.
    pub fn get_best_move(&mut self, state: &GameState) -> (r: (Option<u8>, Vec<MoveEvaluation>))
        ensures
            (r.0, r.1@) == decide_static(*state),
            final(self).nodes_evaluated == 0,
    {
        self.nodes_evaluated = 0;
        let valid_moves = state.get_valid_moves();
        if valid_moves.len() == 0 {
            return (None, Vec::new());
        }
        if valid_moves.len() == 1 {
            return (Some(valid_moves[0]), Vec::new());
        }
        let maximize = state.current_player == Player::Player1;
        if let Some(col) = state.winning_move() {
            let score = if maximize {
                WIN_SIGNAL
            } else {
                -WIN_SIGNAL
            };
            return (Some(col), vec![MoveEvaluation { column: col, score, move_type: MoveType::Win }]);
        }
        if let Some(col) = state.blocking_move() {
            let score = if maximize {
                BLOCK_SIGNAL
            } else {
                -BLOCK_SIGNAL
            };
            return (
                Some(col),
                vec![MoveEvaluation { column: col, score, move_type: MoveType::Block }],
            );
        }
        let mut evaluations: Vec<MoveEvaluation> = Vec::new();
        let mut col: usize = 0;
        while col < COLS
            invariant
                col <= COLS,
                static_scores(*state, 0) == evaluations@ + static_scores(*state, col as int),
            decreases COLS - col,
        {
            if state.can_place_in_column(col) {
                let mut next = *state;
                let moved = next.make_move(col as u8);
                // The column accepts a piece, so the drop cannot fail.
                proof {
                    assert(moved is Ok);
                }
                let score = next.evaluate();
                let e = MoveEvaluation { column: col as u8, score, move_type: MoveType::Normal };
                proof {
                    let rest = static_scores(*state, col + 1);
                    assert(evaluations@.push(e) + rest =~= evaluations@ + (seq![e] + rest));
                }
                evaluations.push(e);
            }
            col = col + 1;
        }
        proof {
            assert(evaluations@ + Seq::<MoveEvaluation>::empty() =~= evaluations@);
        }
        let worst = if maximize {
            SCORE_MIN
        } else {
            SCORE_MAX
        };
        let best = pick_best(&evaluations, maximize, worst, Some(valid_moves[0]));
        let ranked_list = rank(&evaluations, true);
        (best, ranked_list)
    }

    pub fn clear_nodes_evaluated(&mut self)
        ensures
            final(self).nodes_evaluated == 0,
    {
        self.nodes_evaluated = 0;
    }
}

} // verus!
