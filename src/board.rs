use vstd::prelude::*;

verus! {

/// A mark placed on the board by one of the two players.
/// White always moves first from an empty board.
#[derive(Clone, Copy, Debug, PartialEq, Eq, Structural)]
pub enum Piece {
    White,
    Black,
}

/// One square of the grid: empty, or holding a piece.
pub type Cell = Option<Piece>;

/// The player entitled to place the next piece.
#[derive(Clone, Copy, Debug, PartialEq, Eq, Structural)]
pub enum Turn {
    White,
    Black,
}

/// Classification of a whole board.
#[derive(Clone, Copy, Debug, PartialEq, Eq, Structural)]
pub enum BoardState {
    Playing,
    BlackWin,
    WhiteWin,
    Draw,
}

/// Classification of a single line of three cells.
#[derive(Clone, Copy, Debug, PartialEq, Eq, Structural)]
pub enum LineState {
    BlackWin,
    WhiteWin,
    Playing,
    Draw,
}

/// A 3x3 grid stored row by row: cell `row * 3 + col`.
#[derive(Clone, Copy, Debug, PartialEq, Eq)]
pub struct TicTacToeBoard {
    pub cells: [Cell; 9],
}

impl View for TicTacToeBoard {
    type V = Seq<Cell>;

    open spec fn view(&self) -> Seq<Cell> {
        self.cells@
    }
}

/// 1 if cell `i` of `b` is empty, else 0.
pub open spec fn blank_at(b: Seq<Cell>, i: int) -> nat {
    if b[i] is None {
        1
    } else {
        0
    }
}

/// Number of empty cells among the first `n` cells of `b`.
pub open spec fn blanks_in(b: Seq<Cell>, n: int) -> nat
    decreases n,
{
    if n <= 0 {
        0
    } else {
        blanks_in(b, n - 1) + blank_at(b, n - 1)
    }
}

/// Number of empty cells of a board.
pub open spec fn blanks(b: Seq<Cell>) -> nat {
    blanks_in(b, 9)
}

/// Whose turn it is: White when the number of empty cells is odd.
pub open spec fn turn_of(b: Seq<Cell>) -> Turn {
    if blanks(b) % 2 == 1 {
        Turn::White
    } else {
        Turn::Black
    }
}

/// The piece that the player to move places.
pub open spec fn mover_piece(b: Seq<Cell>) -> Piece {
    if turn_of(b) == Turn::White {
        Piece::White
    } else {
        Piece::Black
    }
}

/// The other player's piece.
pub open spec fn opponent(p: Piece) -> Piece {
    if p == Piece::White {
        Piece::Black
    } else {
        Piece::White
    }
}

/// How a single line of three cells stands.
pub open spec fn line_state(a: Cell, b: Cell, c: Cell) -> LineState {
    if a is None || b is None || c is None {
        LineState::Playing
    } else if a == b && b == c {
        if a == Some(Piece::White) {
            LineState::WhiteWin
        } else {
            LineState::BlackWin
        }
    } else {
        LineState::Draw
    }
}

/// The cells of the `k`-th line in scan order: rows and columns alternate
/// (row 0, column 0, row 1, column 1, row 2, column 2), then the main
/// diagonal and the anti-diagonal.
pub open spec fn line_cells(k: int) -> (int, int, int) {
    if k == 0 {
        (0, 1, 2)
    } else if k == 1 {
        (0, 3, 6)
    } else if k == 2 {
        (3, 4, 5)
    } else if k == 3 {
        (1, 4, 7)
    } else if k == 4 {
        (6, 7, 8)
    } else if k == 5 {
        (2, 5, 8)
    } else if k == 6 {
        (0, 4, 8)
    } else {
        (2, 4, 6)
    }
}

/// How the `k`-th line of `b` stands.
pub open spec fn line_at(b: Seq<Cell>, k: int) -> LineState {
    line_state(b[line_cells(k).0], b[line_cells(k).1], b[line_cells(k).2])
}

/// The state of `b`, judging lines `k..8` in scan order, then emptiness.
pub open spec fn state_from(b: Seq<Cell>, k: int) -> BoardState
    decreases 8 - k,
{
    if k >= 8 {
        if blanks(b) > 0 {
            BoardState::Playing
        } else {
            BoardState::Draw
        }
    } else if line_at(b, k) == LineState::WhiteWin {
        BoardState::WhiteWin
    } else if line_at(b, k) == LineState::BlackWin {
        BoardState::BlackWin
    } else {
        state_from(b, k + 1)
    }
}

/// The state of a board: the first complete line in scan order decides;
/// with none, the game goes on while a cell is empty and is a draw otherwise.
pub open spec fn board_state_of(b: Seq<Cell>) -> BoardState {
    state_from(b, 0)
}

/// Placing a piece in an empty cell removes exactly one empty cell.
pub proof fn lemma_blanks_in_update(b: Seq<Cell>, i: int, x: Cell, n: int)
    requires
        0 <= i < b.len(),
        n <= b.len(),
    ensures
        blanks_in(b.update(i, x), n) == blanks_in(b, n) - (if i < n && b[i] is None
            && x is Some {
            1int
        } else if i < n && b[i] is Some && x is None {
            -1int
        } else {
            0int
        }),
    decreases n,
{
    if n > 0 {
        lemma_blanks_in_update(b, i, x, n - 1);
    }
}

/// Placing a piece in an empty cell of a board removes exactly one empty cell.
pub proof fn lemma_blanks_put(b: Seq<Cell>, i: int, p: Piece)
    requires
        b.len() == 9,
        0 <= i < 9,
        b[i] is None,
    ensures
        blanks(b.update(i, Some(p))) + 1 == blanks(b),
{
    lemma_blanks_in_update(b, i, Some(p), 9);
}

/// There are never more empty cells than cells.
pub proof fn lemma_blanks_in_bound(b: Seq<Cell>, n: int)
    requires
        0 <= n,
    ensures
        blanks_in(b, n) <= n,
    decreases n,
{
    if n > 0 {
        lemma_blanks_in_bound(b, n - 1);
    }
}

/// A board has an empty cell exactly when its count of empty cells is positive.
pub proof fn lemma_blanks_in_zero(b: Seq<Cell>, n: int)
    requires
        0 <= n,
    ensures
        blanks_in(b, n) == 0 <==> forall|j: int| 0 <= j < n ==> b[j] is Some,
    decreases n,
{
    if n > 0 {
        lemma_blanks_in_zero(b, n - 1);
    }
}

/// A board judged as still going on has an empty cell.
pub proof fn lemma_playing_has_blank(b: Seq<Cell>, k: int)
    requires
        0 <= k <= 8,
        state_from(b, k) == BoardState::Playing,
    ensures
        blanks(b) > 0,
    decreases 8 - k,
{
    if k < 8 {
        lemma_playing_has_blank(b, k + 1);
    }
}

/// The winning state of a piece's player.
pub open spec fn win_state(p: Piece) -> BoardState {
    if p == Piece::White {
        BoardState::WhiteWin
    } else {
        BoardState::BlackWin
    }
}

/// All three cells of the `k`-th line of `b` hold `p`.
pub open spec fn line_of(b: Seq<Cell>, k: int, p: Piece) -> bool {
    b[line_cells(k).0] == Some(p) && b[line_cells(k).1] == Some(p) && b[line_cells(k).2] == Some(
        p,
    )
}

/// Some line of `b` is all `p`.
pub open spec fn has_line(b: Seq<Cell>, p: Piece) -> bool {
    exists|k: int| 0 <= k < 8 && #[trigger] line_of(b, k, p)
}

/// Some line among lines `k..8` of `b` is all `p`.
pub open spec fn has_line_from(b: Seq<Cell>, k: int, p: Piece) -> bool {
    exists|j: int| k <= j < 8 && #[trigger] line_of(b, j, p)
}

/// A line judged a win is a line all of the winner's piece.
pub proof fn lemma_line_at_win(b: Seq<Cell>, k: int)
    ensures
        line_at(b, k) == LineState::WhiteWin <==> line_of(b, k, Piece::White),
        line_at(b, k) == LineState::BlackWin <==> line_of(b, k, Piece::Black),
{
    let a = b[line_cells(k).0];
    match a {
        Some(Piece::White) => {},
        Some(Piece::Black) => {},
        None => {},
    }
}

/// The state judged from line `k` on, in terms of the complete lines there.
pub proof fn lemma_state_from_lines(b: Seq<Cell>, k: int, p: Piece)
    requires
        0 <= k <= 8,
    ensures
        state_from(b, k) == win_state(p) ==> has_line_from(b, k, p),
        has_line_from(b, k, p) && !has_line_from(b, k, opponent(p)) ==> state_from(b, k)
            == win_state(p),
        !has_line_from(b, k, Piece::White) && !has_line_from(b, k, Piece::Black) ==> state_from(
            b,
            k,
        ) == (if blanks(b) > 0 {
            BoardState::Playing
        } else {
            BoardState::Draw
        }),
        has_line_from(b, k, p) ==> state_from(b, k) == BoardState::WhiteWin || state_from(b, k)
            == BoardState::BlackWin,
    decreases 8 - k,
{
    if k < 8 {
        lemma_state_from_lines(b, k + 1, p);
        lemma_line_at_win(b, k);
        assert(has_line_from(b, k, p) <==> line_of(b, k, p) || has_line_from(b, k + 1, p));
        let q = opponent(p);
        assert(has_line_from(b, k, q) <==> line_of(b, k, q) || has_line_from(b, k + 1, q));
        assert(has_line_from(b, k, Piece::White) <==> line_of(b, k, Piece::White)
            || has_line_from(b, k + 1, Piece::White));
        assert(has_line_from(b, k, Piece::Black) <==> line_of(b, k, Piece::Black)
            || has_line_from(b, k + 1, Piece::Black));
    }
}

/// How a whole board is judged: an empty board goes on; a board with a
/// complete line of one piece only is that piece's win; a full board with
/// no complete line is a draw; and a board with any complete line is a win.
pub proof fn lemma_board_state_classifies(b: Seq<Cell>, p: Piece)
    requires
        b.len() == 9,
    ensures
        (forall|i: int| 0 <= i < 9 ==> b[i] is None) ==> board_state_of(b) == BoardState::Playing,
        has_line(b, p) && !has_line(b, opponent(p)) ==> board_state_of(b) == win_state(p),
        board_state_of(b) == win_state(p) ==> has_line(b, p),
        blanks(b) == 0 && !has_line(b, Piece::White) && !has_line(b, Piece::Black)
            ==> board_state_of(b) == BoardState::Draw,
        !has_line(b, Piece::White) && !has_line(b, Piece::Black) && blanks(b) > 0
            ==> board_state_of(b) == BoardState::Playing,
        board_state_of(b) == BoardState::Playing ==> !has_line(b, Piece::White) && !has_line(
            b,
            Piece::Black,
        ) && blanks(b) > 0,
{
    lemma_state_from_lines(b, 0, p);
    lemma_state_from_lines(b, 0, opponent(p));
    lemma_blanks_in_zero(b, 9);
    if forall|i: int| 0 <= i < 9 ==> b[i] is None {
        assert(!has_line(b, Piece::White) && !has_line(b, Piece::Black)) by {
            assert forall|k: int| 0 <= k < 8 implies !line_of(b, k, Piece::White) && !line_of(
                b,
                k,
                Piece::Black,
            ) by {
                assert(b[line_cells(k).0] is None);
            }
        }
        reveal_with_fuel(blanks_in, 10);
    }
    if board_state_of(b) == BoardState::Playing {
        lemma_playing_has_blank(b, 0);
        assert(!has_line_from(b, 0, p));
        assert(!has_line_from(b, 0, opponent(p)));
    }
    assert(has_line(b, p) == has_line_from(b, 0, p));
    assert(has_line(b, opponent(p)) == has_line_from(b, 0, opponent(p)));
}

impl TicTacToeBoard {
    /// A board with all nine cells empty.
    pub fn new() -> (r: Self)
        ensures
            forall|i: int| 0 <= i < 9 ==> r@[i] is None,
            blanks(r@) == 9,
    {
        let r = TicTacToeBoard { cells: [None;9] };
        proof {
            reveal_with_fuel(blanks_in, 10);
        }
        r
    }

    /// Whether cell `index` is empty.
    pub fn can_put(&self, index: usize) -> (r: bool)
        requires
            index < 9,
        ensures
            r == (self@[index as int] is None),
    {
        self.cells[index].is_none()
    }

    /// Sets cell `index` to `piece`, whatever it held before.
    pub fn put(&mut self, index: usize, piece: Piece)
        requires
            index < 9,
        ensures
            final(self)@ == old(self)@.update(index as int, Some(piece)),
    {
        self.cells[index] = Some(piece);
    }

    /// Whose turn it is, from the parity of the number of empty cells.
    pub fn who_can_put_next_piece(&self) -> (r: Turn)
        ensures
            r == turn_of(self@),
    {
        if self.count_blank() % 2 == 1 {
            Turn::White
        } else {
            Turn::Black
        }
    }

    /// The number of empty cells.
    pub fn count_blank(&self) -> (r: u8)
        ensures
            r as nat == blanks(self@),
    {
        let mut count: u8 = 0;
        let mut i: usize = 0;
        while i < 9
            invariant
                i <= 9,
                count as nat == blanks_in(self@, i as int),
            decreases 9 - i,
        {
            proof {
                lemma_blanks_in_bound(self@, i as int);
            }
            if self.cells[i].is_none() {
                count = count + 1;
            }
            i = i + 1;
        }
        count
    }

    /// Judges the board: rows and columns alternately, then the two
    /// diagonals; the first complete line of one piece gives that piece's
    /// win. With no such line the game is on while a cell is empty, and a
    /// draw otherwise.
    pub fn board_state(&self) -> (r: BoardState)
        ensures
            r == board_state_of(self@),
    {
        let mut col_num: usize = 0;
        while col_num < 3
            invariant
                col_num <= 3,
                state_from(self@, 0) == state_from(self@, 2 * col_num as int),
            decreases 3 - col_num,
        {
            let raw_num = col_num * 3;
            let k: Ghost<int> = Ghost(2 * col_num as int);
            match self.judge_for_line(
                &self.cells[raw_num],
                &self.cells[raw_num + 1],
                &self.cells[raw_num + 2],
            ) {
                LineState::BlackWin => return BoardState::BlackWin,
                LineState::WhiteWin => return BoardState::WhiteWin,
                _ => {},
            }
            assert(state_from(self@, k@) == state_from(self@, k@ + 1));
            match self.judge_for_line(
                &self.cells[col_num],
                &self.cells[col_num + 3],
                &self.cells[col_num + 6],
            ) {
                LineState::BlackWin => return BoardState::BlackWin,
                LineState::WhiteWin => return BoardState::WhiteWin,
                _ => {},
            }
            assert(state_from(self@, k@ + 1) == state_from(self@, k@ + 2));
            col_num = col_num + 1;
        }
        match self.judge_for_line(&self.cells[0], &self.cells[4], &self.cells[8]) {
            LineState::BlackWin => return BoardState::BlackWin,
            LineState::WhiteWin => return BoardState::WhiteWin,
            _ => {},
        }
        assert(state_from(self@, 6) == state_from(self@, 7));
        match self.judge_for_line(&self.cells[2], &self.cells[4], &self.cells[6]) {
            LineState::BlackWin => return BoardState::BlackWin,
            LineState::WhiteWin => return BoardState::WhiteWin,
            _ => {},
        }
        assert(state_from(self@, 7) == state_from(self@, 8));
        let mut i: usize = 0;
        while i < 9
            invariant
                i <= 9,
                forall|j: int| 0 <= j < i ==> self@[j] is Some,
                state_from(self@, 0) == state_from(self@, 8),
            decreases 9 - i,
        {
            if self.cells[i].is_none() {
                proof {
                    lemma_blanks_in_zero(self@, 9);
                    assert(self@[i as int] is None);
                    assert(blanks(self@) > 0);
                }
                return BoardState::Playing;
            }
            i = i + 1;
        }
        proof {
            lemma_blanks_in_zero(self@, 9);
        }
        BoardState::Draw
    }

    /// Judges one line: `Playing` while a cell of it is empty, the piece's
    /// win when all three hold the same piece, `Draw` otherwise.
    pub fn judge_for_line(&self, a: &Cell, b: &Cell, c: &Cell) -> (r: LineState)
        ensures
            r == line_state(*a, *b, *c),
    {
        match (a, b, c) {
            (Some(x), Some(y), Some(z)) => {
                if *x == *y && *y == *z {
                    match x {
                        Piece::White => LineState::WhiteWin,
                        Piece::Black => LineState::BlackWin,
                    }
                } else {
                    LineState::Draw
                }
            },
            _ => LineState::Playing,
        }
    }
}

} // verus!
