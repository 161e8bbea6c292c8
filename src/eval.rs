use crate::board::{moves_of, Board, Cell, GameState, Player, COLS, ROWS};
use crate::features::{
    center_control_of, defensive_of, grid_total, col_total, horizontal_control_of, mobility_of,
    pieces_of, threat_of, vertical_control_of,
};
use crate::params::GeneticParams;
use crate::rules::winner;
use vstd::prelude::*;

verus! {

/// `v / 1000`, truncated toward zero.
pub open spec fn trunc_milli(v: int) -> int {
    if v >= 0 {
        v / 1000
    } else {
        -((-v) / 1000)
    }
}

/// The configured value of column `c`: symmetric, from the center out.
pub open spec fn column_value(cfg: GeneticParams, c: int) -> int {
    if c == 3 {
        cfg.center_column_value as int
    } else if c == 2 || c == 4 {
        cfg.adjacent_center_value as int
    } else if c == 1 || c == 5 {
        cfg.outer_column_value as int
    } else {
        cfg.edge_column_value as int
    }
}

/// A piece's positional value: its column's value times its height times
/// the row-height weight.
pub open spec fn piece_value(cfg: GeneticParams, c: int, r: int) -> int {
    trunc_milli(column_value(cfg, c) * (ROWS - r) * cfg.row_height_weight_milli)
}

pub open spec fn signed_position_at(b: Board, cfg: GeneticParams) -> spec_fn(int, int) -> int {
    |c: int, r: int|
        if b[c][r] == Cell::Player1 {
            piece_value(cfg, c, r)
        } else if b[c][r] == Cell::Player2 {
            -piece_value(cfg, c, r)
        } else {
            0int
        }
}

/// Player1's positional value less Player2's.
pub open spec fn weighted_position_of(b: Board, cfg: GeneticParams) -> int {
    grid_total(signed_position_at(b, cfg), COLS as int)
}

/// The weighted sum of the positional features, Player1's added and
/// Player2's subtracted.
pub open spec fn heuristic(s: GameState) -> int {
    let b = s.board;
    let cfg = s.genetic_params;
    let player1 = Player::Player1;
    let player2 = Player::Player2;
    weighted_position_of(b, cfg) + (center_control_of(b, player1) - center_control_of(b, player2))
        * trunc_milli(cfg.center_control_weight_milli as int) + (threat_of(b, player1) - threat_of(b, player2))
        * trunc_milli(cfg.threat_weight_milli as int) + (pieces_of(b, player1) - pieces_of(b, player2))
        * trunc_milli(cfg.piece_count_weight_milli as int) + (mobility_of(s, player1) - mobility_of(s, player2))
        * trunc_milli(cfg.mobility_weight_milli as int) + (vertical_control_of(b, player1)
        - vertical_control_of(b, player2)) * trunc_milli(cfg.vertical_control_weight_milli as int) + (
    horizontal_control_of(b, player1) - horizontal_control_of(b, player2)) * trunc_milli(
        cfg.horizontal_control_weight_milli as int,
    ) + (defensive_of(b, player1) - defensive_of(b, player2)) * trunc_milli(
        cfg.defensive_weight_milli as int,
    )
}

/// The score of a state, positive in Player1's favor: the configured
/// win or loss score once somebody has won, 0 for a draw, else the
/// weighted features.
pub open spec fn evaluation(s: GameState) -> int {
    match winner(s.board) {
        Some(Player::Player1) => s.genetic_params.win_score as int,
        Some(Player::Player2) => s.genetic_params.loss_score as int,
        None => if moves_of(s.board).len() == 0 {
            0
        } else {
            heuristic(s)
        },
    }
}

/// The most that one piece's positional value can be, in absolute terms.
pub const PIECE_VALUE_BOUND: i64 = 27_670_116_110_564_328;

fn trunc_milli_i128(v: i128) -> (r: i128)
    requires
        -100_000_000_000_000_000_000 <= v <= 100_000_000_000_000_000_000,
    ensures
        r == trunc_milli(v as int),
{
    if v >= 0 {
        v / 1000
    } else {
        -((-v) / 1000)
    }
}

fn column_value_of(cfg: &GeneticParams, col: usize) -> (r: i32)
    ensures
        r == column_value(*cfg, col as int),
{
    if col == 3 {
        cfg.center_column_value
    } else if col == 2 || col == 4 {
        cfg.adjacent_center_value
    } else if col == 1 || col == 5 {
        cfg.outer_column_value
    } else {
        cfg.edge_column_value
    }
}

fn piece_value_at(cfg: &GeneticParams, col: usize, row: usize) -> (r: i64)
    requires
        row < ROWS,
    ensures
        r == piece_value(*cfg, col as int, row as int),
        -PIECE_VALUE_BOUND <= r <= PIECE_VALUE_BOUND,
{
    let cv = column_value_of(cfg, col) as i128;
    let h = (ROWS - row) as i128;
    let w = cfg.row_height_weight_milli as i128;
    let ghost bound: int = 2_147_483_648int;
    assert(-6 * bound <= cv * h <= 6 * bound) by (nonlinear_arith)
        requires
            -bound <= cv < bound,
            1 <= h <= 6,
    ;
    assert(-6 * bound * bound <= (cv * h) * w <= 6 * bound * bound) by (nonlinear_arith)
        requires
            -6 * bound <= cv * h <= 6 * bound,
            -bound <= w < bound,
    ;
    let v = cv * h * w;
    let t = trunc_milli_i128(v);
    t as i64
}

/// `diff` times the integer part of a weight given in thousandths.
fn weighted(diff: i64, weight_milli: i32) -> (r: i64)
    requires
        -3_000_000 <= diff <= 3_000_000,
    ensures
        r == diff * trunc_milli(weight_milli as int),
        -7_000_000_000_000 <= r <= 7_000_000_000_000,
{
    let w = if weight_milli >= 0 {
        (weight_milli / 1000) as i64
    } else {
        -(((-(weight_milli as i64)) / 1000))
    };
    assert(-3_000_000 * 2_147_484 <= diff * w <= 3_000_000 * 2_147_484) by (nonlinear_arith)
        requires
            -3_000_000 <= diff <= 3_000_000,
            -2_147_484 <= w <= 2_147_484,
    ;
    diff * w
}

impl GameState {
    /// Player1's positional value less Player2's, under the configured
    /// column values and row-height weight.
    fn weighted_position_score(&self) -> (r: i64)
        ensures
            r == weighted_position_of(self.board, self.genetic_params),
            -(COLS * ROWS) * PIECE_VALUE_BOUND <= r <= (COLS * ROWS) * PIECE_VALUE_BOUND,
    {
        let ghost f = signed_position_at(self.board, self.genetic_params);
        let mut score: i64 = 0;
        let mut col: usize = 0;
        while col < COLS
            invariant
                col <= COLS,
                f == signed_position_at(self.board, self.genetic_params),
                score == grid_total(f, col as int),
                -(col * ROWS) * PIECE_VALUE_BOUND <= score <= (col * ROWS) * PIECE_VALUE_BOUND,
            decreases COLS - col,
        {
            let mut row: usize = 0;
            while row < ROWS
                invariant
                    col < COLS,
                    row <= ROWS,
                    f == signed_position_at(self.board, self.genetic_params),
                    score == grid_total(f, col as int) + col_total(f, col as int, row as int),
                    -(col * ROWS + row) * PIECE_VALUE_BOUND <= score <= (col * ROWS + row)
                        * PIECE_VALUE_BOUND,
                decreases ROWS - row,
            {
                match self.board[col][row] {
                    Cell::Player1 => {
                        score = score + piece_value_at(&self.genetic_params, col, row);
                    },
                    Cell::Player2 => {
                        score = score - piece_value_at(&self.genetic_params, col, row);
                    },
                    Cell::Empty => {},
                }
                row = row + 1;
            }
            col = col + 1;
        }
        score
    }

    /// The score of the state, positive in Player1's favor whoever is to
    /// move.
    pub fn evaluate(&self) -> (r: i64)
        ensures
            r == evaluation(*self),
    {
        self.evaluate_with_genetic_params()
    }

    /// The score of the state under its evaluation weights: the win or
    /// loss score once somebody has won, 0 for a draw, else Player1's
    /// weighted features less Player2's.
    pub fn evaluate_with_genetic_params(&self) -> (r: i64)
        ensures
            r == evaluation(*self),
    {
        if let Some(w) = self.get_winner() {
            return match w {
                Player::Player1 => self.genetic_params.win_score as i64,
                Player::Player2 => self.genetic_params.loss_score as i64,
            };
        }
        if self.is_draw() {
            return 0;
        }
        let player1 = Player::Player1;
        let player2 = Player::Player2;
        let cfg = self.genetic_params;
        let mut score = self.weighted_position_score();
        let center = (self.center_control_score(player1) - self.center_control_score(player2)) as i64;
        score = score + weighted(center, cfg.center_control_weight_milli);
        let threat = (self.threat_score(player1) - self.threat_score(player2)) as i64;
        score = score + weighted(threat, cfg.threat_weight_milli);
        let pieces = (self.pieces_count(player1) - self.pieces_count(player2)) as i64;
        score = score + weighted(pieces, cfg.piece_count_weight_milli);
        let mobility = (self.mobility_score(player1) - self.mobility_score(player2)) as i64;
        score = score + weighted(mobility, cfg.mobility_weight_milli);
        let vertical = (self.vertical_control_score(player1) - self.vertical_control_score(player2)) as i64;
        score = score + weighted(vertical, cfg.vertical_control_weight_milli);
        let horizontal = (self.horizontal_control_score(player1) - self.horizontal_control_score(player2))
            as i64;
        score = score + weighted(horizontal, cfg.horizontal_control_weight_milli);
        let defensive = (self.defensive_score(player1) - self.defensive_score(player2)) as i64;
        score = score + weighted(defensive, cfg.defensive_weight_milli);
        score
    }
}

} // verus!
