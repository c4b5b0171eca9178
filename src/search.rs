use vstd::prelude::*;

use crate::board::{
    blanks, blanks_in, board_state_of, lemma_playing_has_blank, lemma_blanks_in_bound, lemma_blanks_put, mover_piece, turn_of,
    BoardState, Cell, Piece, TicTacToeBoard, Turn,
};

verus! {

/// A board paired with its minimax score.
#[derive(Clone, Copy, Debug)]
pub struct Valuation {
    pub board: TicTacToeBoard,
    pub score: i32,
}

/// The boards reachable by the player to move, for empty cells `0..n`
/// in increasing order.
pub open spec fn successors_upto(b: Seq<Cell>, n: int) -> Seq<Seq<Cell>>
    decreases n,
{
    if n <= 0 {
        Seq::empty()
    } else if b[n - 1] is None {
        successors_upto(b, n - 1).push(b.update(n - 1, Some(mover_piece(b))))
    } else {
        successors_upto(b, n - 1)
    }
}

/// All boards reachable in one move, in increasing order of the cell
/// filled; none once the game is over.
pub open spec fn successors(b: Seq<Cell>) -> Seq<Seq<Cell>> {
    if b.len() == 9 && board_state_of(b) == BoardState::Playing {
        successors_upto(b, 9)
    } else {
        Seq::empty()
    }
}

/// `r` is `b` with one empty cell filled by the piece of the player to move.
pub open spec fn is_move(b: Seq<Cell>, r: Seq<Cell>) -> bool {
    exists|i: int| 0 <= i < 9 && b[i] is None && r == b.update(i, Some(mover_piece(b)))
}

/// The score of a board on its own at a search depth: a white win is worth
/// more the sooner it comes, a black win less the later it comes, anything
/// else is worth the depth.
pub open spec fn valuation_score(b: Seq<Cell>, depth: int) -> int {
    if board_state_of(b) == BoardState::WhiteWin {
        99 - depth
    } else if board_state_of(b) == BoardState::BlackWin {
        -99 + depth
    } else {
        depth
    }
}

/// The score of a successor found at `depth`: searched further while the
/// game goes on, else its own valuation.
pub open spec fn child_score(c: Seq<Cell>, depth: int) -> int
    decreases blanks(c) + 1, 0int, 0int,
{
    if board_state_of(c) == BoardState::Playing {
        minimax_of(c, depth + 1).1
    } else {
        valuation_score(c, depth)
    }
}

/// Index and score of the successor chosen among the first `k` successors.
/// White keeps the first candidate and moves on only to a strictly greater
/// score; Black moves on to every candidate that is not strictly greater.
pub open spec fn pick(b: Seq<Cell>, depth: int, k: int) -> (int, int)
    decreases blanks(b), 1int, k,
    via pick_decreases
{
    let succs = successors(b);
    if succs.len() == 0 || k <= 0 {
        (0, 0)
    } else if k == 1 || k > succs.len() {
        (0, child_score(succs[0], depth))
    } else {
        let prev = pick(b, depth, k - 1);
        let s = child_score(succs[k - 1], depth);
        if turn_of(b) == Turn::White {
            if s > prev.1 {
                (k - 1, s)
            } else {
                prev
            }
        } else {
            if s > prev.1 {
                prev
            } else {
                (k - 1, s)
            }
        }
    }
}

#[via_fn]
proof fn pick_decreases(b: Seq<Cell>, depth: int, k: int) {
    let succs = successors(b);
    if succs.len() > 0 && k > 0 {
        lemma_successor_fewer_blanks(b, 0);
        if k > 1 && k <= succs.len() {
            lemma_successor_fewer_blanks(b, k - 1);
        }
    }
}

/// The `k`-th of the successors for cells `0..n` fills an empty cell below
/// `n`, which the result names.
pub proof fn lemma_successors_upto(b: Seq<Cell>, n: int, k: int) -> (i: int)
    requires
        b.len() == 9,
        0 <= n <= 9,
        0 <= k < successors_upto(b, n).len(),
    ensures
        0 <= i < n,
        b[i] is None,
        successors_upto(b, n)[k] == b.update(i, Some(mover_piece(b))),
    decreases n,
{
    if b[n - 1] is None && k == successors_upto(b, n - 1).len() {
        n - 1
    } else {
        lemma_successors_upto(b, n - 1, k)
    }
}

/// Every successor is a move of the player to move, with one empty cell fewer.
pub proof fn lemma_successor_fewer_blanks(b: Seq<Cell>, k: int)
    requires
        0 <= k < successors(b).len(),
    ensures
        b.len() == 9,
        board_state_of(b) == BoardState::Playing,
        successors(b)[k].len() == 9,
        is_move(b, successors(b)[k]),
        blanks(successors(b)[k]) + 1 == blanks(b),
{
    let i = lemma_successors_upto(b, 9, k);
    lemma_blanks_put(b, i, mover_piece(b));
}

/// The choice of `pick` among the first `k` successors is one of them.
pub proof fn lemma_pick_in_range(b: Seq<Cell>, depth: int, k: int)
    requires
        1 <= k <= successors(b).len(),
    ensures
        0 <= pick(b, depth, k).0 < k,
    decreases k,
{
    if k > 1 {
        lemma_pick_in_range(b, depth, k - 1);
    }
}

/// From a board whose game goes on, minimax chooses a move of the player
/// to move.
pub proof fn lemma_minimax_is_move(b: Seq<Cell>, depth: int)
    requires
        b.len() == 9,
        board_state_of(b) == BoardState::Playing,
    ensures
        successors(b).len() > 0,
        is_move(b, minimax_of(b, depth).0),
{
    lemma_has_successor(b);
    let n = successors(b).len() as int;
    lemma_pick_in_range(b, depth, n);
    lemma_successor_fewer_blanks(b, pick(b, depth, n).0);
}

/// A board whose game goes on has an empty cell, and so a successor.
pub proof fn lemma_has_successor(b: Seq<Cell>)
    requires
        b.len() == 9,
        board_state_of(b) == BoardState::Playing,
    ensures
        successors(b).len() > 0,
{
    lemma_playing_has_blank(b, 0);
    lemma_successors_upto_len(b, 9);
}

/// There are as many successors for cells `0..n` as empty cells among them.
pub proof fn lemma_successors_upto_len(b: Seq<Cell>, n: int)
    ensures
        successors_upto(b, n).len() == blanks_in(b, n),
    decreases n,
{
    if n > 0 {
        lemma_successors_upto_len(b, n - 1);
    }
}

/// The minimax choice from `b` at `depth`: the chosen successor and its
/// score, or `b` and its own valuation when no move is left.
pub open spec fn minimax_of(b: Seq<Cell>, depth: int) -> (Seq<Cell>, int)
    decreases blanks(b), 2int, 0int,
{
    let succs = successors(b);
    if succs.len() == 0 {
        (b, valuation_score(b, depth))
    } else {
        let p = pick(b, depth, succs.len() as int);
        (succs[p.0], p.1)
    }
}

impl TicTacToeBoard {
    /// The best next board for the player to move, by full minimax search.
    pub fn get_next_best_board(&self) -> (r: TicTacToeBoard)
        requires
            board_state_of(self@) == BoardState::Playing,
        ensures
            r@ == minimax_of(self@, 0).0,
            is_move(self@, r@),
    {
        proof {
            lemma_blanks_in_bound(self@, 9);
            lemma_minimax_is_move(self@, 0);
        }
        self.minimax(0).board
    }

    /// Minimax search from this board at `depth`: every successor is
    /// scored, searching on while its game goes on, and one is chosen as
    /// `pick` says.
    pub fn minimax(&self, depth: i32) -> (r: Valuation)
        requires
            0 <= depth,
            depth + blanks(self@) <= 9,
        ensures
            r.board@ == minimax_of(self@, depth as int).0,
            r.score == minimax_of(self@, depth as int).1,
        decreases blanks(self@),
    {
        let boards = self.get_next_all_pattern_board(self);
        if boards.len() == 0 {
            return self.calc_valuation(depth);
        }
        let turn = self.who_can_put_next_piece();
        let mut best_index: usize = 0;
        let mut best_score: i32 = 0;
        let mut k: usize = 0;
        while k < boards.len()
            invariant
                0 < boards@.len(),
                k <= boards@.len(),
                boards@.len() == successors(self@).len(),
                forall|j: int| 0 <= j < boards@.len() ==> boards@[j]@ == successors(self@)[j],
                turn == turn_of(self@),
                0 <= depth,
                depth + blanks(self@) <= 9,
                k > 0 ==> best_index < k && best_index as int == pick(self@, depth as int, k as int).0
                    && best_score as int == pick(self@, depth as int, k as int).1,
            decreases boards@.len() - k,
        {
            let child = boards[k];
            proof {
                lemma_successor_fewer_blanks(self@, k as int);
            }
            let score = if child.board_state() == BoardState::Playing {
                child.minimax(depth + 1).score
            } else {
                child.calc_valuation(depth).score
            };
            assert(score == child_score(successors(self@)[k as int], depth as int));
            let ghost prev = pick(self@, depth as int, k as int);
            assert(pick(self@, depth as int, k + 1) == if k == 0 {
                (0, score as int)
            } else if turn == Turn::White {
                if score > prev.1 {
                    (k as int, score as int)
                } else {
                    prev
                }
            } else {
                if score > prev.1 {
                    prev
                } else {
                    (k as int, score as int)
                }
            });
            if k == 0 {
                best_index = 0;
                best_score = score;
            } else {
                match turn {
                    Turn::White => {
                        if score > best_score {
                            best_index = k;
                            best_score = score;
                        }
                    },
                    Turn::Black => {
                        if !(score > best_score) {
                            best_index = k;
                            best_score = score;
                        }
                    },
                }
            }
            k = k + 1;
        }
        Valuation { board: boards[best_index], score: best_score }
    }

    /// Every board reachable from `board` by one move of the player to
    /// move, in increasing order of the cell filled; none once the game is
    /// over.
    fn get_next_all_pattern_board(&self, board: &TicTacToeBoard) -> (r: Vec<TicTacToeBoard>)
        ensures
            r@.len() == successors(board@).len(),
            forall|j: int| 0 <= j < r@.len() ==> r@[j]@ == successors(board@)[j],
    {
        if board.board_state() != BoardState::Playing {
            return Vec::new();
        }
        let mut boards: Vec<TicTacToeBoard> = Vec::new();
        let piece = match board.who_can_put_next_piece() {
            Turn::Black => Piece::Black,
            Turn::White => Piece::White,
        };
        let mut i: usize = 0;
        while i < 9
            invariant
                i <= 9,
                board@.len() == 9,
                board_state_of(board@) == BoardState::Playing,
                piece == mover_piece(board@),
                boards@.len() == successors_upto(board@, i as int).len(),
                forall|j: int|
                    0 <= j < boards@.len() ==> boards@[j]@ == successors_upto(board@, i as int)[j],
            decreases 9 - i,
        {
            if board.can_put(i) {
                let mut cloned_board = *board;
                cloned_board.put(i, piece);
                boards.push(cloned_board);
            }
            i = i + 1;
        }
        boards
    }

    /// This board on its own at `depth`, with its score.
    pub fn calc_valuation(&self, depth: i32) -> (r: Valuation)
        requires
            0 <= depth <= 9,
        ensures
            r.board@ == self@,
            r.score == valuation_score(self@, depth as int),
    {
        let win_score: i32 = 99;
        match self.board_state() {
            BoardState::WhiteWin => Valuation { board: *self, score: win_score - depth },
            BoardState::BlackWin => Valuation { board: *self, score: win_score * -1 + depth },
            _ => Valuation { board: *self, score: depth },
        }
    }
}

} // verus!
