use crate::board::{
    in_bounds, landing_row, lemma_lowest_empty_from, piece, placed, playable, Board, Cell, GameState,
    Player, COLS, ROWS,
};
use crate::rules::{check_win_on, empty_board, ray, reach, wins_at};
use vstd::prelude::*;

verus! {

/// The sum of `f(c, r)` over the rows `r < n` of column `c`.
pub open spec fn col_total(f: spec_fn(int, int) -> int, c: int, n: int) -> int
    decreases n,
{
    if n <= 0 {
        0
    } else {
        col_total(f, c, n - 1) + f(c, n - 1)
    }
}

/// The sum of `f(c, r)` over every row of the columns `c < n`.
pub open spec fn grid_total(f: spec_fn(int, int) -> int, n: int) -> int
    decreases n,
{
    if n <= 0 {
        0
    } else {
        grid_total(f, n - 1) + col_total(f, n - 1, ROWS as int)
    }
}

/// The sum of `f(c, r)` over the columns `c < n` of row `r`.
pub open spec fn row_total(f: spec_fn(int, int) -> int, r: int, n: int) -> int
    decreases n,
{
    if n <= 0 {
        0
    } else {
        row_total(f, r, n - 1) + f(n - 1, r)
    }
}

/// The sum of `f(c, r)` over every column of the rows `r < n`.
pub open spec fn grid_total_by_rows(f: spec_fn(int, int) -> int, n: int) -> int
    decreases n,
{
    if n <= 0 {
        0
    } else {
        grid_total_by_rows(f, n - 1) + row_total(f, n - 1, COLS as int)
    }
}

/// The sum of `g(c)` over the columns `c < n`.
pub open spec fn columns_total(g: spec_fn(int) -> int, n: int) -> int
    decreases n,
{
    if n <= 0 {
        0
    } else {
        columns_total(g, n - 1) + g(n - 1)
    }
}

/// 1 for each piece of `p`.
pub open spec fn piece_at(b: Board, p: Player) -> spec_fn(int, int) -> int {
    |c: int, r: int|
        if b[c][r] == piece(p) {
            1int
        } else {
            0int
        }
}

/// The height of each piece of `p`: `ROWS - r` at row `r`.
pub open spec fn height_at(b: Board, p: Player) -> spec_fn(int, int) -> int {
    |c: int, r: int|
        if b[c][r] == piece(p) {
            ROWS - r
        } else {
            0int
        }
}

/// The length of the run of `p` that ends at each cell, counted upward
/// from the top of its column.
pub open spec fn vertical_run_at(b: Board, p: Player) -> spec_fn(int, int) -> int {
    |c: int, r: int| ray(b, c, r, 0, -1, piece(p), reach()) as int
}

/// The length of the run of `p` that ends at each cell, counted from the
/// left edge of its row.
pub open spec fn horizontal_run_at(b: Board, p: Player) -> spec_fn(int, int) -> int {
    |c: int, r: int| ray(b, c, r, -1, 0, piece(p), reach()) as int
}

pub open spec fn pieces_of(b: Board, p: Player) -> int {
    grid_total(piece_at(b, p), COLS as int)
}

/// Height-weighted pieces of `p` in the three center columns.
pub open spec fn center_control_of(b: Board, p: Player) -> int {
    col_total(height_at(b, p), 2, ROWS as int) + col_total(height_at(b, p), 3, ROWS as int)
        + col_total(height_at(b, p), 4, ROWS as int)
}

pub open spec fn vertical_control_of(b: Board, p: Player) -> int {
    grid_total(vertical_run_at(b, p), COLS as int)
}

pub open spec fn horizontal_control_of(b: Board, p: Player) -> int {
    grid_total_by_rows(horizontal_run_at(b, p), ROWS as int)
}

/// The fixed column values of the plain positional score.
pub open spec fn fixed_column_value(c: int) -> int {
    if c == 3 {
        100
    } else if c == 2 || c == 4 {
        50
    } else if c == 1 || c == 5 {
        10
    } else {
        1
    }
}

pub open spec fn fixed_position_at(b: Board, p: Player) -> spec_fn(int, int) -> int {
    |c: int, r: int|
        if b[c][r] == piece(p) {
            fixed_column_value(c) * (ROWS - r)
        } else {
            0int
        }
}

pub open spec fn position_of(b: Board, p: Player) -> int {
    grid_total(fixed_position_at(b, p), COLS as int)
}

/// The run of cells up a column ends at the top edge, so fuel beyond the
/// row index does not change it.
proof fn lemma_ray_up_fuel(b: Board, c: int, r: int, x: Cell, n: nat, m: nat)
    requires
        r < n,
        r < m,
    ensures
        ray(b, c, r, 0, -1, x, n) == ray(b, c, r, 0, -1, x, m),
    decreases r + 1,
{
    if r >= 0 && in_bounds(c, r) && b[c][r] == x {
        lemma_ray_up_fuel(b, c, r - 1, x, (n - 1) as nat, (m - 1) as nat);
    }
}

proof fn lemma_ray_left_fuel(b: Board, c: int, r: int, x: Cell, n: nat, m: nat)
    requires
        c < n,
        c < m,
    ensures
        ray(b, c, r, -1, 0, x, n) == ray(b, c, r, -1, 0, x, m),
    decreases c + 1,
{
    if c >= 0 && in_bounds(c, r) && b[c][r] == x {
        lemma_ray_left_fuel(b, c - 1, r, x, (n - 1) as nat, (m - 1) as nat);
    }
}

impl GameState {
    /// Plain positional score of `player`, with fixed column values that
    /// favor the center: each piece counts its column value times its
    /// height.
    pub fn position_score(&self, player: Player) -> (r: i32)
        ensures
            r == position_of(self.board, player),
            0 <= r <= COLS * ROWS * 600,
    {
        let x = Cell::from_player(player);
        let ghost f = fixed_position_at(self.board, player);
        let mut score: i32 = 0;
        let mut col: usize = 0;
        while col < COLS
            invariant
                col <= COLS,
                x == piece(player),
                f == fixed_position_at(self.board, player),
                score == grid_total(f, col as int),
                0 <= score <= col * ROWS * 600,
            decreases COLS - col,
        {
            let column_value: i32 = if col == 3 {
                100
            } else if col == 2 || col == 4 {
                50
            } else if col == 1 || col == 5 {
                10
            } else {
                1
            };
            let mut row: usize = 0;
            while row < ROWS
                invariant
                    col < COLS,
                    row <= ROWS,
                    x == piece(player),
                    f == fixed_position_at(self.board, player),
                    column_value == fixed_column_value(col as int),
                    score == grid_total(f, col as int) + col_total(f, col as int, row as int),
                    0 <= score <= col * ROWS * 600 + row * 600,
                decreases ROWS - row,
            {
                if self.board[col][row] == x {
                    score = score + column_value * ((ROWS - row) as i32);
                }
                row = row + 1;
            }
            col = col + 1;
        }
        score
    }

    /// Height-weighted count of `player`'s pieces in the three center
    /// columns.
    pub fn center_control_score(&self, player: Player) -> (r: i32)
        ensures
            r == center_control_of(self.board, player),
            0 <= r <= 3 * ROWS * ROWS,
    {
        let x = Cell::from_player(player);
        let ghost f = height_at(self.board, player);
        let mut score: i32 = 0;
        let mut col: usize = 2;
        while col < 5
            invariant
                2 <= col <= 5,
                x == piece(player),
                f == height_at(self.board, player),
                col == 2 ==> score == 0,
                col == 3 ==> score == col_total(f, 2, ROWS as int),
                col == 4 ==> score == col_total(f, 2, ROWS as int) + col_total(f, 3, ROWS as int),
                col == 5 ==> score == center_control_of(self.board, player),
                0 <= score <= (col - 2) * ROWS * ROWS,
            decreases 5 - col,
        {
            let ghost before = score;
            let mut row: usize = 0;
            while row < ROWS
                invariant
                    2 <= col < 5,
                    row <= ROWS,
                    x == piece(player),
                    f == height_at(self.board, player),
                    score == before + col_total(f, col as int, row as int),
                    0 <= before <= (col - 2) * ROWS * ROWS,
                    before <= score <= before + row * ROWS,
                decreases ROWS - row,
            {
                if self.board[col][row] == x {
                    score = score + (ROWS - row) as i32;
                }
                row = row + 1;
            }
            col = col + 1;
        }
        score
    }

    /// The number of `player`'s pieces on the board.
    pub fn pieces_count(&self, player: Player) -> (r: i32)
        ensures
            r == pieces_of(self.board, player),
            0 <= r <= COLS * ROWS,
    {
        let x = Cell::from_player(player);
        let ghost f = piece_at(self.board, player);
        let mut count: i32 = 0;
        let mut col: usize = 0;
        while col < COLS
            invariant
                col <= COLS,
                x == piece(player),
                f == piece_at(self.board, player),
                count == grid_total(f, col as int),
                0 <= count <= col * ROWS,
            decreases COLS - col,
        {
            let mut row: usize = 0;
            while row < ROWS
                invariant
                    col < COLS,
                    row <= ROWS,
                    x == piece(player),
                    f == piece_at(self.board, player),
                    count == grid_total(f, col as int) + col_total(f, col as int, row as int),
                    0 <= count <= col * ROWS + row,
                decreases ROWS - row,
            {
                if self.board[col][row] == x {
                    count = count + 1;
                }
                row = row + 1;
            }
            col = col + 1;
        }
        count
    }

    /// For each column, the sum over its cells of the length of the run
    /// of `player` ending there, scanning from the top row down.
    pub fn vertical_control_score(&self, player: Player) -> (r: i32)
        ensures
            r == vertical_control_of(self.board, player),
            0 <= r <= COLS * ROWS * ROWS,
    {
        let x = Cell::from_player(player);
        let ghost f = vertical_run_at(self.board, player);
        let mut score: i32 = 0;
        let mut col: usize = 0;
        while col < COLS
            invariant
                col <= COLS,
                x == piece(player),
                f == vertical_run_at(self.board, player),
                score == grid_total(f, col as int),
                0 <= score <= col * ROWS * ROWS,
            decreases COLS - col,
        {
            let mut consecutive: i32 = 0;
            let mut row: usize = 0;
            while row < ROWS
                invariant
                    col < COLS,
                    row <= ROWS,
                    x == piece(player),
                    f == vertical_run_at(self.board, player),
                    0 <= consecutive <= row,
                    row > 0 ==> consecutive == f(col as int, row - 1),
                    row == 0 ==> consecutive == 0,
                    score == grid_total(f, col as int) + col_total(f, col as int, row as int),
                    0 <= score <= col * ROWS * ROWS + row * ROWS,
                decreases ROWS - row,
            {
                proof {
                    lemma_ray_up_fuel(self.board, col as int, row - 1, x, reach(), (reach() - 1) as nat);
                }
                if self.board[col][row] == x {
                    consecutive = consecutive + 1;
                } else {
                    consecutive = 0;
                }
                score = score + consecutive;
                row = row + 1;
            }
            col = col + 1;
        }
        score
    }

    /// For each row, the sum over its cells of the length of the run of
    /// `player` ending there, scanning from the left edge.
    pub fn horizontal_control_score(&self, player: Player) -> (r: i32)
        ensures
            r == horizontal_control_of(self.board, player),
            0 <= r <= ROWS * COLS * COLS,
    {
        let x = Cell::from_player(player);
        let ghost f = horizontal_run_at(self.board, player);
        let mut score: i32 = 0;
        let mut row: usize = 0;
        while row < ROWS
            invariant
                row <= ROWS,
                x == piece(player),
                f == horizontal_run_at(self.board, player),
                score == grid_total_by_rows(f, row as int),
                0 <= score <= row * COLS * COLS,
            decreases ROWS - row,
        {
            let mut consecutive: i32 = 0;
            let mut col: usize = 0;
            while col < COLS
                invariant
                    row < ROWS,
                    col <= COLS,
                    x == piece(player),
                    f == horizontal_run_at(self.board, player),
                    0 <= consecutive <= col,
                    col > 0 ==> consecutive == f(col - 1, row as int),
                    col == 0 ==> consecutive == 0,
                    score == grid_total_by_rows(f, row as int) + row_total(f, row as int, col as int),
                    0 <= score <= row * COLS * COLS + col * COLS,
                decreases COLS - col,
            {
                proof {
                    lemma_ray_left_fuel(self.board, col - 1, row as int, x, reach(), (reach() - 1) as nat);
                }
                if self.board[col][row] == x {
                    consecutive = consecutive + 1;
                } else {
                    consecutive = 0;
                }
                score = score + consecutive;
                col = col + 1;
            }
            row = row + 1;
        }
        score
    }
}


/// Whether the run of `x` that `ray` describes stops at the other
/// player's piece: 1 if so, else 0.
pub open spec fn stop_blocked(b: Board, c: int, r: int, dc: int, dr: int, x: Cell, n: nat) -> int
    decreases n,
{
    if n == 0 || !in_bounds(c, r) {
        0
    } else if b[c][r] == x {
        stop_blocked(b, c + dc, r + dr, dc, dr, x, (n - 1) as nat)
    } else if b[c][r] != Cell::Empty {
        1
    } else {
        0
    }
}

/// The value of a run of `consecutive` pieces with `blocked` of its two
/// ends closed by the other player.
pub open spec fn run_value(consecutive: int, blocked: int) -> int {
    if consecutive == 4 {
        1000
    } else if consecutive == 3 {
        if blocked == 0 {
            100
        } else {
            10
        }
    } else if consecutive == 2 {
        if blocked == 0 {
            10
        } else {
            1
        }
    } else if consecutive == 1 {
        if blocked == 0 {
            1
        } else {
            0
        }
    } else {
        0
    }
}

/// The value of the run of `x` through `(c, r)` along `(dc, dr)`; the
/// run starts at the cell itself.
pub open spec fn axis_threat(b: Board, c: int, r: int, dc: int, dr: int, x: Cell) -> int {
    run_value(
        (ray(b, c, r, dc, dr, x, reach()) + ray(b, c - dc, r - dr, -dc, -dr, x, reach())) as int,
        stop_blocked(b, c, r, dc, dr, x, reach()) + stop_blocked(
            b,
            c - dc,
            r - dr,
            -dc,
            -dr,
            x,
            reach(),
        ),
    )
}

/// The value of the runs of `p` through `(c, r)` on all four axes.
pub open spec fn threats_around(b: Board, c: int, r: int, p: Player) -> int {
    let x = piece(p);
    axis_threat(b, c, r, 1, 0, x) + axis_threat(b, c, r, 0, 1, x) + axis_threat(b, c, r, 1, 1, x)
        + axis_threat(b, c, r, 1, -1, x)
}

/// What dropping a piece of `p` into column `c` threatens: an immediate
/// win counts 10000, anything else the runs it lies on.
pub open spec fn threat_at(b: Board, c: int, p: Player) -> int {
    let r = landing_row(b, c);
    let tb = placed(b, c, r, piece(p));
    if wins_at(tb, c, r, p) {
        10000
    } else {
        threats_around(tb, c, r, p)
    }
}

pub open spec fn threat_in(b: Board, p: Player) -> spec_fn(int) -> int {
    |c: int|
        if playable(b, c) {
            threat_at(b, c, p)
        } else {
            0int
        }
}

/// The threats of `p` summed over the columns that accept a piece.
pub open spec fn threat_of(b: Board, p: Player) -> int {
    columns_total(threat_in(b, p), COLS as int)
}

pub open spec fn mobility_in(s: GameState, p: Player) -> spec_fn(int) -> int {
    |c: int|
        if playable(s.board, c) {
            threat_of(s.after(c).board, p) / 10
        } else {
            0int
        }
}

/// For each move of the player to move, a tenth of the threats of `p`
/// after it; nothing on an empty board.
pub open spec fn mobility_of(s: GameState, p: Player) -> int {
    if empty_board(s.board) {
        0
    } else {
        columns_total(mobility_in(s, p), COLS as int)
    }
}

/// What a piece of `p` dropped into column `c` does against the other
/// player: 5000 if it takes the cell where they would win, else 100 for
/// each point by which it lowers their runs through that cell.
pub open spec fn defense_at(b: Board, c: int, p: Player) -> int {
    let r = landing_row(b, c);
    let tb = placed(b, c, r, piece(p));
    let opp = p.other();
    if wins_at(tb, c, r, opp) {
        5000
    } else {
        let before = threats_around(b, c, r, opp);
        let after = threats_around(tb, c, r, opp);
        if after < before {
            (before - after) * 100
        } else {
            0
        }
    }
}

pub open spec fn defense_in(b: Board, p: Player) -> spec_fn(int) -> int {
    |c: int|
        if playable(b, c) {
            defense_at(b, c, p)
        } else {
            0int
        }
}

pub open spec fn defensive_of(b: Board, p: Player) -> int {
    columns_total(defense_in(b, p), COLS as int)
}

/// Walks the run that `ray` and `stop_blocked` describe.
fn scan_run(b: &Board, c0: i32, r0: i32, dc: i32, dr: i32, x: Cell) -> (res: (i32, i32))
    requires
        -2 <= c0 <= COLS + 1,
        -2 <= r0 <= ROWS + 1,
        -1 <= dc <= 1,
        -1 <= dr <= 1,
    ensures
        res.0 == ray(*b, c0 as int, r0 as int, dc as int, dr as int, x, reach()),
        res.1 == stop_blocked(*b, c0 as int, r0 as int, dc as int, dr as int, x, reach()),
        0 <= res.0 <= reach(),
        0 <= res.1 <= 1,
{
    let mut n: i32 = 0;
    let mut c: i32 = c0;
    let mut r: i32 = r0;
    let mut blocked: i32 = 0;
    loop
        invariant_except_break
            blocked == 0,
        invariant
            0 <= n <= reach(),
            -2 <= c <= COLS + 1,
            -2 <= r <= ROWS + 1,
            -1 <= dc <= 1,
            -1 <= dr <= 1,
            n + ray(*b, c as int, r as int, dc as int, dr as int, x, (reach() - n) as nat) == ray(
                *b,
                c0 as int,
                r0 as int,
                dc as int,
                dr as int,
                x,
                reach(),
            ),
            stop_blocked(*b, c as int, r as int, dc as int, dr as int, x, (reach() - n) as nat)
                == stop_blocked(*b, c0 as int, r0 as int, dc as int, dr as int, x, reach()),
        ensures
            n == ray(*b, c0 as int, r0 as int, dc as int, dr as int, x, reach()),
            blocked == stop_blocked(*b, c0 as int, r0 as int, dc as int, dr as int, x, reach()),
            0 <= n <= reach(),
            0 <= blocked <= 1,
        decreases reach() - n,
    {
        if n >= COLS as i32 || c < 0 || c >= COLS as i32 || r < 0 || r >= ROWS as i32 {
            break;
        }
        if b[c as usize][r as usize] != x {
            if b[c as usize][r as usize] != Cell::Empty {
                blocked = 1;
            }
            break;
        }
        n = n + 1;
        c = c + dc;
        r = r + dr;
    }
    (n, blocked)
}

fn axis_threat_at(b: &Board, col: usize, row: usize, dc: i32, dr: i32, x: Cell) -> (v: i32)
    requires
        col < COLS,
        row < ROWS,
        -1 <= dc <= 1,
        -1 <= dr <= 1,
    ensures
        v == axis_threat(*b, col as int, row as int, dc as int, dr as int, x),
        0 <= v <= 1000,
{
    let (forward, forward_blocked) = scan_run(b, col as i32, row as i32, dc, dr, x);
    let (backward, backward_blocked) = scan_run(b, col as i32 - dc, row as i32 - dr, -dc, -dr, x);
    let consecutive = forward + backward;
    let blocked = forward_blocked + backward_blocked;
    if consecutive == 4 {
        1000
    } else if consecutive == 3 {
        if blocked == 0 {
            100
        } else {
            10
        }
    } else if consecutive == 2 {
        if blocked == 0 {
            10
        } else {
            1
        }
    } else if consecutive == 1 {
        if blocked == 0 {
            1
        } else {
            0
        }
    } else {
        0
    }
}

/// The value of the runs of `player` through `(col, row)` of `b`.
fn count_threats_at(b: &Board, col: usize, row: usize, player: Player) -> (v: i32)
    requires
        col < COLS,
        row < ROWS,
    ensures
        v == threats_around(*b, col as int, row as int, player),
        0 <= v <= 4000,
{
    let x = Cell::from_player(player);
    axis_threat_at(b, col, row, 1, 0, x) + axis_threat_at(b, col, row, 0, 1, x) + axis_threat_at(
        b,
        col,
        row,
        1,
        1,
        x,
    ) + axis_threat_at(b, col, row, 1, -1, x)
}

impl GameState {
    /// Sums, over the columns that accept a piece, what a piece of
    /// `player` dropped there would threaten.
    pub fn threat_score(&self, player: Player) -> (r: i32)
        ensures
            r == threat_of(self.board, player),
            0 <= r <= COLS * 10000,
    {
        let x = Cell::from_player(player);
        let ghost g = threat_in(self.board, player);
        let mut score: i32 = 0;
        let mut col: usize = 0;
        while col < COLS
            invariant
                col <= COLS,
                x == piece(player),
                g == threat_in(self.board, player),
                score == columns_total(g, col as int),
                0 <= score <= col * 10000,
            decreases COLS - col,
        {
            if self.can_place_in_column(col) {
                let row = self.get_lowest_empty_row(col);
                proof {
                    lemma_lowest_empty_from(self.board, col as int, ROWS - 1);
                }
                let mut test_board = self.board;
                test_board[col][row] = x;
                if check_win_on(&test_board, col, row, player) {
                    score = score + 10000;
                } else {
                    score = score + count_threats_at(&test_board, col, row, player);
                }
            }
            col = col + 1;
        }
        score
    }

    /// Sums, over the moves of the player to move, a tenth of the threats
    /// of `player` after that move; nothing on an empty board.
    pub fn mobility_score(&self, player: Player) -> (r: i32)
        ensures
            r == mobility_of(*self, player),
            0 <= r <= COLS * 1000 * COLS,
    {
        if self.is_empty_board() {
            return 0;
        }
        let ghost g = mobility_in(*self, player);
        let mut mobility: i32 = 0;
        let mut col: usize = 0;
        while col < COLS
            invariant
                col <= COLS,
                g == mobility_in(*self, player),
                mobility == columns_total(g, col as int),
                0 <= mobility <= col * 1000 * COLS,
            decreases COLS - col,
        {
            if self.can_place_in_column(col) {
                let mut test_state = *self;
                let moved = test_state.make_move(col as u8);
                if moved.is_ok() {
                    let threat = test_state.threat_score(player);
                    mobility = mobility + threat / 10;
                }
            }
            col = col + 1;
        }
        mobility
    }

    /// Sums, over the columns that accept a piece, what a piece of
    /// `player` dropped there does against the other player.
    pub fn defensive_score(&self, player: Player) -> (r: i32)
        ensures
            r == defensive_of(self.board, player),
            0 <= r <= COLS * 400000,
    {
        let opponent = player.opponent();
        let x = Cell::from_player(player);
        let ghost g = defense_in(self.board, player);
        let mut score: i32 = 0;
        let mut col: usize = 0;
        while col < COLS
            invariant
                col <= COLS,
                x == piece(player),
                opponent == player.other(),
                g == defense_in(self.board, player),
                score == columns_total(g, col as int),
                0 <= score <= col * 400000,
            decreases COLS - col,
        {
            if self.can_place_in_column(col) {
                let row = self.get_lowest_empty_row(col);
                proof {
                    lemma_lowest_empty_from(self.board, col as int, ROWS - 1);
                }
                let mut test_board = self.board;
                test_board[col][row] = x;
                if check_win_on(&test_board, col, row, opponent) {
                    score = score + 5000;
                } else {
                    let before = count_threats_at(&self.board, col, row, opponent);
                    let after = count_threats_at(&test_board, col, row, opponent);
                    if after < before {
                        score = score + (before - after) * 100;
                    }
                }
            }
            col = col + 1;
        }
        score
    }
}

} // verus!
