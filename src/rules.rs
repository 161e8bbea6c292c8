use crate::board::{
    in_bounds, moves_of, owner, piece, Board, Cell, GameState, Player, COLS, ROWS,
};
use vstd::prelude::*;

verus! {

/// The number of consecutive cells holding `x`, starting at column `c`,
/// row `r` and stepping by `(dc, dr)`, looking at no more than `n` cells.
pub open spec fn ray(b: Board, c: int, r: int, dc: int, dr: int, x: Cell, n: nat) -> nat
    decreases n,
{
    if n == 0 || !in_bounds(c, r) || b[c][r] != x {
        0
    } else {
        1 + ray(b, c + dc, r + dr, dc, dr, x, (n - 1) as nat)
    }
}

/// No straight line on the board is longer than this.
pub open spec fn reach() -> nat {
    COLS as nat
}

/// The length of the line of `x` through column `c`, row `r` along the
/// axis `(dc, dr)`, counting that cell itself whatever it holds.
pub open spec fn line_len(b: Board, c: int, r: int, dc: int, dr: int, x: Cell) -> int {
    (1 + ray(b, c + dc, r + dr, dc, dr, x, reach()) + ray(b, c - dc, r - dr, -dc, -dr, x, reach()))
        as int
}

/// A piece of `p` at column `c`, row `r` would lie on four or more in a
/// row: horizontally, vertically, or on either diagonal.
pub open spec fn wins_at(b: Board, c: int, r: int, p: Player) -> bool {
    let x = piece(p);
    line_len(b, c, r, 1, 0, x) >= 4 || line_len(b, c, r, 0, 1, x) >= 4 || line_len(
        b,
        c,
        r,
        1,
        1,
        x,
    ) >= 4 || line_len(b, c, r, 1, -1, x) >= 4
}

/// The owner of the first winning piece met when the cells are scanned
/// column by column, each from the top row down, starting at column `c`,
/// row `r`.
pub open spec fn win_scan(b: Board, c: int, r: int) -> Option<Player>
    decreases COLS - c, ROWS + 1 - r,
{
    if c < 0 || c >= COLS || r < 0 {
        None
    } else if r >= ROWS {
        win_scan(b, c + 1, 0)
    } else {
        match owner(b[c][r]) {
            Some(p) => if wins_at(b, c, r, p) {
                Some(p)
            } else {
                win_scan(b, c, r + 1)
            },
            None => win_scan(b, c, r + 1),
        }
    }
}

/// The player who has four in a row, if any (the first one found by the
/// scan when, on a board that no game reaches, both have).
pub open spec fn winner(b: Board) -> Option<Player> {
    win_scan(b, 0, 0)
}

/// Some piece on the board lies on four in a row.
pub open spec fn has_line(b: Board, p: Player) -> bool {
    exists|c: int, r: int| in_bounds(c, r) && b[c][r] == piece(p) && #[trigger] wins_at(b, c, r, p)
}

proof fn lemma_win_scan(b: Board, c: int, r: int)
    requires
        0 <= c <= COLS,
        0 <= r <= ROWS,
    ensures
        win_scan(b, c, r) is Some ==> has_line(b, win_scan(b, c, r)->0),
        win_scan(b, c, r) is None ==> forall|c2: int, r2: int, p: Player|
            in_bounds(c2, r2) && (c2 > c || (c2 == c && r2 >= r)) && b[c2][r2] == piece(p)
                ==> !#[trigger] wins_at(b, c2, r2, p),
    decreases COLS - c, ROWS + 1 - r,
{
    if c < COLS {
        if r >= ROWS {
            lemma_win_scan(b, c + 1, 0);
        } else {
            lemma_win_scan(b, c, r + 1);
            match owner(b[c][r]) {
                Some(p) => {
                    if wins_at(b, c, r, p) {
                        assert(b[c][r] == piece(p));
                    }
                },
                None => {},
            }
        }
    }
}

/// What the scan reports: a winner owns a line of four, and where none is
/// reported no piece lies on one.
pub proof fn lemma_winner(b: Board)
    ensures
        winner(b) is Some ==> has_line(b, winner(b)->0),
        winner(b) is None ==> !has_line(b, Player::Player1) && !has_line(b, Player::Player2),
{
    lemma_win_scan(b, 0, 0);
}

/// Where exactly one player has four in a row, that player is the winner.
pub proof fn lemma_sole_line_wins(b: Board, p: Player)
    requires
        has_line(b, p),
        !has_line(b, p.other()),
    ensures
        winner(b) == Some(p),
{
    lemma_winner(b);
    if winner(b) is Some {
        let w = winner(b)->0;
        if w != p {
            assert(w == p.other());
        }
    } else {
        match p {
            Player::Player1 => {},
            Player::Player2 => {},
        }
    }
}

/// Counts the run that `ray` describes, over at most `reach()` cells.
fn count_ray(b: &Board, c0: i32, r0: i32, dc: i32, dr: i32, x: Cell) -> (n: usize)
    requires
        -2 <= c0 <= COLS + 1,
        -2 <= r0 <= ROWS + 1,
        -1 <= dc <= 1,
        -1 <= dr <= 1,
    ensures
        n == ray(*b, c0 as int, r0 as int, dc as int, dr as int, x, reach()),
        n <= reach(),
{
    let mut n: usize = 0;
    let mut c: i32 = c0;
    let mut r: i32 = r0;
    loop
        invariant
            n <= reach(),
            -2 <= c <= COLS + 1,
            -2 <= r <= ROWS + 1,
            -1 <= dc <= 1,
            -1 <= dr <= 1,
            n + ray(*b, c as int, r as int, dc as int, dr as int, x, (reach() - n) as nat) == ray(
                *b,
                c0 as int,
                r0 as int,
                dc as int,
                dr as int,
                x,
                reach(),
            ),
        ensures
            n == ray(*b, c0 as int, r0 as int, dc as int, dr as int, x, reach()),
        decreases reach() - n,
    {
        if n >= COLS || c < 0 || c >= COLS as i32 || r < 0 || r >= ROWS as i32 {
            break;
        }
        if b[c as usize][r as usize] != x {
            break;
        }
        n = n + 1;
        c = c + dc;
        r = r + dr;
    }
    n
}

/// The length of the line of `x` through `(col, row)` along `(dcol, drow)`.
fn count_in_direction(b: &Board, col: usize, row: usize, dcol: i32, drow: i32, x: Cell) -> (n:
    usize)
    requires
        col < COLS,
        row < ROWS,
        -1 <= dcol <= 1,
        -1 <= drow <= 1,
    ensures
        n == line_len(*b, col as int, row as int, dcol as int, drow as int, x),
        n <= 2 * reach() + 1,
{
    let c = col as i32;
    let r = row as i32;
    let forward = count_ray(b, c + dcol, r + drow, dcol, drow, x);
    let backward = count_ray(b, c - dcol, r - drow, -dcol, -drow, x);
    1 + forward + backward
}

/// Whether a piece of `player` at `(col, row)` of `b` lies on four in a row.
pub fn check_win_on(b: &Board, col: usize, row: usize, player: Player) -> (r: bool)
    requires
        col < COLS,
        row < ROWS,
    ensures
        r == wins_at(*b, col as int, row as int, player),
{
    let x = Cell::from_player(player);
    count_in_direction(b, col, row, 1, 0, x) >= 4 || count_in_direction(b, col, row, 0, 1, x) >= 4
        || count_in_direction(b, col, row, 1, 1, x) >= 4 || count_in_direction(
        b,
        col,
        row,
        1,
        -1,
        x,
    ) >= 4
}

impl GameState {
    fn check_win_at(&self, col: usize, row: usize, player: Player) -> (r: bool)
        requires
            col < COLS,
            row < ROWS,
        ensures
            r == wins_at(self.board, col as int, row as int, player),
    {
        check_win_on(&self.board, col, row, player)
    }

    /// The player with four in a row, scanning column by column.
    pub fn get_winner(&self) -> (r: Option<Player>)
        ensures
            r == winner(self.board),
    {
        let mut col: usize = 0;
        while col < COLS
            invariant
                col <= COLS,
                win_scan(self.board, col as int, 0) == winner(self.board),
            decreases COLS - col,
        {
            let mut row: usize = 0;
            while row < ROWS
                invariant
                    col < COLS,
                    row <= ROWS,
                    win_scan(self.board, col as int, row as int) == winner(self.board),
                decreases ROWS - row,
            {
                if let Some(player) = self.board[col][row].to_player() {
                    if self.check_win_at(col, row, player) {
                        return Some(player);
                    }
                }
                row = row + 1;
            }
            col = col + 1;
        }
        None
    }

    pub fn has_winner(&self) -> (r: bool)
        ensures
            r == winner(self.board) is Some,
    {
        self.get_winner().is_some()
    }

    /// No column accepts a piece.
    pub fn is_draw(&self) -> (r: bool)
        ensures
            r == (moves_of(self.board).len() == 0),
    {
        self.get_valid_moves().len() == 0
    }

    /// Terminal: somebody has won, or no move is left.
    pub fn is_game_over(&self) -> (r: bool)
        ensures
            r == terminal(self.board),
    {
        self.has_winner() || self.is_draw()
    }

    pub fn is_empty_board(&self) -> (r: bool)
        ensures
            r == empty_board(self.board),
    {
        let mut col: usize = 0;
        while col < COLS
            invariant
                col <= COLS,
                forall|c: int, r: int|
                    0 <= c < col && 0 <= r < ROWS ==> self.board[c][r] == Cell::Empty,
            decreases COLS - col,
        {
            let mut row: usize = 0;
            while row < ROWS
                invariant
                    col < COLS,
                    row <= ROWS,
                    forall|c: int, r: int|
                        0 <= c < col && 0 <= r < ROWS ==> self.board[c][r] == Cell::Empty,
                    forall|r: int| 0 <= r < row ==> self.board[col as int][r] == Cell::Empty,
                decreases ROWS - row,
            {
                if self.board[col][row] != Cell::Empty {
                    assert(in_bounds(col as int, row as int));
                    return false;
                }
                row = row + 1;
            }
            col = col + 1;
        }
        true
    }
}

/// Somebody has won, or no column accepts a piece.
pub open spec fn terminal(b: Board) -> bool {
    winner(b) is Some || moves_of(b).len() == 0
}

pub open spec fn empty_board(b: Board) -> bool {
    forall|c: int, r: int| in_bounds(c, r) ==> b[c][r] == Cell::Empty
}

} // verus!
