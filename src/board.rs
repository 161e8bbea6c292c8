use crate::params::{default_params, GeneticParams};
use vstd::prelude::*;

verus! {

pub const ROWS: usize = 6;

pub const COLS: usize = 7;

pub const BOARD_SIZE: usize = ROWS * COLS;

/// The grid, indexed `[column][row]`; row 0 is the top row and row
/// `ROWS - 1` the bottom one.
pub type Board = [[Cell; ROWS]; COLS];

/// The two players; Player1 is the one that scores favor.
#[derive(Clone, Copy, Debug, PartialEq, Eq, Hash, Structural)]
pub enum Player {
    Player1,
    Player2,
}

impl Player {
    pub open spec fn other(self) -> Player {
        match self {
            Player::Player1 => Player::Player2,
            Player::Player2 => Player::Player1,
        }
    }

    pub fn opponent(self) -> (r: Player)
        ensures
            r == self.other(),
            r != self,
    {
        match self {
            Player::Player1 => Player::Player2,
            Player::Player2 => Player::Player1,
        }
    }
}

/// The content of one cell.
#[derive(Clone, Copy, Debug, PartialEq, Eq, Hash, Structural)]
pub enum Cell {
    Empty,
    Player1,
    Player2,
}

/// The cell that holds a piece of `p`.
pub open spec fn piece(p: Player) -> Cell {
    match p {
        Player::Player1 => Cell::Player1,
        Player::Player2 => Cell::Player2,
    }
}

/// The owner of a cell's piece, if any.
pub open spec fn owner(c: Cell) -> Option<Player> {
    match c {
        Cell::Empty => None,
        Cell::Player1 => Some(Player::Player1),
        Cell::Player2 => Some(Player::Player2),
    }
}

impl Cell {
    pub fn from_player(player: Player) -> (r: Cell)
        ensures
            r == piece(player),
            owner(r) == Some(player),
    {
        match player {
            Player::Player1 => Cell::Player1,
            Player::Player2 => Cell::Player2,
        }
    }

    pub fn to_player(self) -> (r: Option<Player>)
        ensures
            r == owner(self),
            r is Some ==> self == piece(r->0),
    {
        match self {
            Cell::Empty => None,
            Cell::Player1 => Some(Player::Player1),
            Cell::Player2 => Some(Player::Player2),
        }
    }
}

#[derive(Clone, Copy, Debug, PartialEq, Eq, Hash)]
pub enum MoveError {
    /// The column index is not below `COLS`.
    InvalidColumn,
    /// The column holds `ROWS` pieces already.
    ColumnFull,
}

pub open spec fn in_bounds(c: int, r: int) -> bool {
    0 <= c < COLS && 0 <= r < ROWS
}

/// `b` with the cell at column `c`, row `r` set to `x`.
pub open spec fn placed(b: Board, c: int, r: int, x: Cell) -> Board {
    vstd::array::spec_array_update(b, c, vstd::array::spec_array_update(b[c], r, x))
}

/// A column accepts a piece while its top cell is empty.
pub open spec fn playable(b: Board, c: int) -> bool {
    0 <= c < COLS && b[c][0] == Cell::Empty
}

/// The lowest empty row of column `c` at or above row `r`, or `ROWS` if
/// there is none.
pub open spec fn lowest_empty_from(b: Board, c: int, r: int) -> int
    decreases r + 1,
{
    if r < 0 {
        ROWS as int
    } else if b[c][r] == Cell::Empty {
        r
    } else {
        lowest_empty_from(b, c, r - 1)
    }
}

/// The row where a piece dropped into column `c` comes to rest, or `ROWS`
/// if the column is full.
pub open spec fn landing_row(b: Board, c: int) -> int {
    lowest_empty_from(b, c, ROWS - 1)
}

/// Gravity: no occupied cell sits above an empty one.
#[verifier::opaque]
pub open spec fn settled(b: Board) -> bool {
    forall|c: int, r: int|
        #![trigger b[c][r], b[c][r + 1]]
        0 <= c < COLS && 0 <= r < ROWS - 1 && b[c][r] != Cell::Empty ==> b[c][r + 1] != Cell::Empty
}

/// The columns that accept a piece, in ascending order, among the first `n`.
pub open spec fn playable_upto(b: Board, n: int) -> Seq<u8>
    decreases n,
{
    if n <= 0 {
        Seq::empty()
    } else if playable(b, n - 1) {
        playable_upto(b, n - 1).push((n - 1) as u8)
    } else {
        playable_upto(b, n - 1)
    }
}

/// The columns that accept a piece, in ascending order.
pub open spec fn moves_of(b: Board) -> Seq<u8> {
    playable_upto(b, COLS as int)
}

/// The scan finds an empty cell, or none; a column whose top cell is
/// empty always has one.
pub proof fn lemma_lowest_empty_from(b: Board, c: int, r: int)
    requires
        0 <= c < COLS,
        r < ROWS,
    ensures
        lowest_empty_from(b, c, r) == ROWS || (0 <= lowest_empty_from(b, c, r) <= r
            && b[c][lowest_empty_from(b, c, r)] == Cell::Empty),
        b[c][0] == Cell::Empty && r >= 0 ==> lowest_empty_from(b, c, r) < ROWS,
    decreases r + 1,
{
    if r >= 0 && b[c][r] != Cell::Empty {
        lemma_lowest_empty_from(b, c, r - 1);
    }
}

/// Every cell below the landing row is occupied.
proof fn lemma_full_below_landing(b: Board, c: int, r: int)
    requires
        0 <= c < COLS,
        r < ROWS,
    ensures
        lowest_empty_from(b, c, r) < ROWS ==> forall|k: int|
            lowest_empty_from(b, c, r) < k <= r ==> #[trigger] b[c][k] != Cell::Empty,
    decreases r + 1,
{
    if r >= 0 && b[c][r] != Cell::Empty {
        lemma_full_below_landing(b, c, r - 1);
    }
}

/// A piece dropped onto a settled board leaves it settled.
proof fn lemma_drop_keeps_settled(b: Board, c: int, x: Cell)
    requires
        playable(b, c),
        x != Cell::Empty,
    ensures
        settled(b) ==> settled(placed(b, c, landing_row(b, c), x)),
{
    let row = landing_row(b, c);
    lemma_lowest_empty_from(b, c, ROWS - 1);
    lemma_full_below_landing(b, c, ROWS - 1);
    let nb = placed(b, c, row, x);
    reveal(settled);
    if settled(b) {
        assert forall|c2: int, r2: int|
            #![trigger nb[c2][r2], nb[c2][r2 + 1]]
            0 <= c2 < COLS && 0 <= r2 < ROWS - 1 && nb[c2][r2] != Cell::Empty implies nb[c2][r2 + 1]
                != Cell::Empty by {
            if c2 == c && r2 + 1 == row {
                assert(b[c2][r2] == nb[c2][r2]);
            } else if c2 == c && r2 == row {
                assert(b[c2][r2 + 1] == nb[c2][r2 + 1]);
            } else {
                assert(b[c2][r2] == nb[c2][r2]);
                assert(b[c2][r2 + 1] == nb[c2][r2 + 1]);
            }
        }
    }
}

/// The listed columns are exactly the playable ones, in strictly
/// ascending order.
pub proof fn lemma_playable_upto(b: Board, n: int)
    requires
        0 <= n <= COLS,
    ensures
        forall|i: int| 0 <= i < playable_upto(b, n).len() ==> {
            let m = #[trigger] playable_upto(b, n)[i];
            m < n && playable(b, m as int)
        },
        forall|c: int| 0 <= c < n && playable(b, c) ==> playable_upto(b, n).contains(c as u8),
        forall|i: int, j: int|
            0 <= i < j < playable_upto(b, n).len() ==> playable_upto(b, n)[i]
                < playable_upto(b, n)[j],
        playable_upto(b, n).len() <= n,
    decreases n,
{
    if n > 0 {
        lemma_playable_upto(b, n - 1);
        let prev = playable_upto(b, n - 1);
        if playable(b, n - 1) {
            assert(prev.push((n - 1) as u8)[prev.len() as int] == (n - 1) as u8);
            assert forall|c: int| 0 <= c < n && playable(b, c) implies playable_upto(
                b,
                n,
            ).contains(c as u8) by {
                if c < n - 1 {
                    let i = choose|i: int| 0 <= i < prev.len() && prev[i] == c as u8;
                    assert(playable_upto(b, n)[i] == c as u8);
                } else {
                    assert(playable_upto(b, n)[prev.len() as int] == c as u8);
                }
            }
        }
    }
}

/// A position: the board, whose turn it is, and the weights that score it.
/// It is a plain value, so a copy explores a move without touching the
/// position it was copied from.
#[derive(Clone, Copy, Debug)]
pub struct GameState {
    pub board: Board,
    pub current_player: Player,
    pub genetic_params: GeneticParams,
}

/// Relies on rand::random: a value of the standard distribution, which
/// for `bool` is a fair coin. Nothing is promised of the value.
pub assume_specification<T>[ rand::random::<T> ]() -> (r: T)
    where
        rand::distributions::Standard: rand::distributions::Distribution<T>,
;

/// Every cell is empty.
pub open spec fn blank(b: Board) -> bool {
    forall|c: int, r: int| in_bounds(c, r) ==> b[c][r] == Cell::Empty
}

impl GameState {
    /// A game on an empty board with the default weights; who moves first
    /// is drawn at random.
    pub fn new() -> (r: GameState)
        ensures
            blank(r.board),
            settled(r.board),
            r.genetic_params == default_params(),
    {
        Self::new_random_first_player()
    }

    /// A game on an empty board with the default weights; who moves first
    /// is drawn at random.
    pub fn new_random_first_player() -> (r: GameState)
        ensures
            blank(r.board),
            settled(r.board),
            r.genetic_params == default_params(),
    {
        Self::with_genetic_params_random_first_player(GeneticParams::default())
    }

    /// A game on an empty board with the given weights; who moves first is
    /// drawn at random.
    pub fn with_genetic_params(genetic_params: GeneticParams) -> (r: GameState)
        ensures
            blank(r.board),
            settled(r.board),
            r.genetic_params == genetic_params,
    {
        Self::with_genetic_params_random_first_player(genetic_params)
    }

    /// A game on an empty board with the given weights; who moves first is
    /// drawn at random.
    pub fn with_genetic_params_random_first_player(genetic_params: GeneticParams) -> (r: GameState)
        ensures
            blank(r.board),
            settled(r.board),
            r.genetic_params == genetic_params,
    {
        let first_is_one: bool = rand::random::<bool>();
        let first_player = if first_is_one {
            Player::Player1
        } else {
            Player::Player2
        };
        let board: Board = [[Cell::Empty; ROWS]; COLS];
        let r = GameState { board, current_player: first_player, genetic_params };
        assert(blank(r.board) && settled(r.board)) by {
            reveal(settled);
            assert forall|c: int, r2: int| in_bounds(c, r2) implies #[trigger] board[c][r2]
                == Cell::Empty by {}
        }
        r
    }

    /// The state after the player to move drops a piece into column `c`
    /// (which must accept one).
    pub open spec fn after(self, c: int) -> GameState {
        GameState {
            board: placed(self.board, c, landing_row(self.board, c), piece(self.current_player)),
            current_player: self.current_player.other(),
            genetic_params: self.genetic_params,
        }
    }

    pub fn can_place_in_column(&self, col: usize) -> (r: bool)
        ensures
            r == playable(self.board, col as int),
    {
        col < COLS && self.board[col][0] == Cell::Empty
    }

    pub(crate) fn get_lowest_empty_row(&self, col: usize) -> (r: usize)
        requires
            col < COLS,
        ensures
            r == landing_row(self.board, col as int),
    {
        let mut row: usize = ROWS;
        while row > 0
            invariant
                0 <= row <= ROWS,
                col < COLS,
                lowest_empty_from(self.board, col as int, row - 1) == landing_row(
                    self.board,
                    col as int,
                ),
            decreases row,
        {
            if self.board[col][row - 1] == Cell::Empty {
                return row - 1;
            }
            row = row - 1;
        }
        ROWS
    }

    /// The columns that accept a piece, in ascending order.
    pub fn get_valid_moves(&self) -> (r: Vec<u8>)
        ensures
            r@ == moves_of(self.board),
    {
        let mut moves: Vec<u8> = Vec::new();
        let mut col: usize = 0;
        while col < COLS
            invariant
                col <= COLS,
                moves@ == playable_upto(self.board, col as int),
            decreases COLS - col,
        {
            if self.can_place_in_column(col) {
                moves.push(col as u8);
            }
            col = col + 1;
        }
        moves
    }

    /// Drops a piece of the player to move into column `col` and hands
    /// the turn over; returns the row where the piece came to rest.
    pub fn make_move(&mut self, col: u8) -> (r: Result<usize, MoveError>)
        ensures
            (col as int) >= COLS ==> r == Err::<usize, MoveError>(MoveError::InvalidColumn),
            (col as int) < COLS && !playable(old(self).board, col as int) ==> r == Err::<
                usize,
                MoveError,
            >(MoveError::ColumnFull),
            playable(old(self).board, col as int) ==> r == Ok::<usize, MoveError>(
                landing_row(old(self).board, col as int) as usize,
            ) && *final(self) == old(self).after(col as int),
            r is Err ==> *final(self) == *old(self),
            r is Ok ==> 0 <= r->Ok_0 < ROWS,
            settled(old(self).board) ==> settled(final(self).board),
    {
        let c = col as usize;
        if c >= COLS {
            return Err(MoveError::InvalidColumn);
        }
        if !self.can_place_in_column(c) {
            return Err(MoveError::ColumnFull);
        }
        let row = self.get_lowest_empty_row(c);
        proof {
            lemma_lowest_empty_from(self.board, c as int, ROWS - 1);
        }
        proof {
            lemma_drop_keeps_settled(self.board, c as int, piece(self.current_player));
        }
        self.board[c][row] = Cell::from_player(self.current_player);
        self.current_player = self.current_player.opponent();
        Ok(row)
    }
}

} // verus!
