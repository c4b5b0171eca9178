use vstd::prelude::*;

use crate::board::{
    blanks, blanks_in, board_state_of, has_line, lemma_blanks_in_zero, lemma_blanks_put,
    lemma_board_state_classifies, line_of, mover_piece, opponent, turn_of, win_state, BoardState,
    Cell, Piece, Turn,
};
use crate::search::{
    child_score, lemma_has_successor, lemma_minimax_is_move, lemma_successor_fewer_blanks,
    minimax_of, pick, successors, successors_upto,
};

verus! {

/// The score of a win for `p` found at `depth`.
pub open spec fn win_score(p: Piece, depth: int) -> int {
    if p == Piece::White {
        99 - depth
    } else {
        -99 + depth
    }
}

/// Whether score `s` is strictly better than `t` for `p`.
pub open spec fn better_for(p: Piece, s: int, t: int) -> bool {
    if p == Piece::White {
        s > t
    } else {
        s < t
    }
}

/// The choice among the first `k` successors is one of them, its score is
/// that successor's, and no successor before `k` scores better for the
/// player to move.
pub proof fn lemma_pick_props(b: Seq<Cell>, depth: int, k: int)
    requires
        1 <= k <= successors(b).len(),
    ensures
        0 <= pick(b, depth, k).0 < k,
        pick(b, depth, k).1 == child_score(successors(b)[pick(b, depth, k).0], depth),
        forall|j: int|
            0 <= j < k ==> !better_for(
                mover_piece(b),
                #[trigger] child_score(successors(b)[j], depth),
                pick(b, depth, k).1,
            ),
    decreases k,
{
    if k > 1 {
        lemma_pick_props(b, depth, k - 1);
    }
}

/// A successor's turn is the other player's.
pub proof fn lemma_successor_mover(b: Seq<Cell>, k: int)
    requires
        0 <= k < successors(b).len(),
    ensures
        mover_piece(successors(b)[k]) == opponent(mover_piece(b)),
{
    lemma_successor_fewer_blanks(b, k);
}

/// Scores lie between a black win and a white win at the depth reached.
pub proof fn lemma_score_bounds(b: Seq<Cell>, depth: int)
    requires
        b.len() == 9,
        0 <= depth,
        depth + blanks(b) <= 9,
    ensures
        -99 + depth <= minimax_of(b, depth).1 <= 99 - depth,
    decreases blanks(b), 1int,
{
    let succs = successors(b);
    if succs.len() > 0 {
        let n = succs.len() as int;
        lemma_pick_props(b, depth, n);
        let k = pick(b, depth, n).0;
        lemma_successor_fewer_blanks(b, k);
        lemma_child_score_bounds(succs[k], depth);
    }
}

/// A successor's score lies between the two wins at its depth, and reaches
/// either bound only when the successor itself is that win.
pub proof fn lemma_child_score_bounds(c: Seq<Cell>, depth: int)
    requires
        c.len() == 9,
        0 <= depth,
        depth + blanks(c) + 1 <= 9,
    ensures
        -99 + depth <= child_score(c, depth) <= 99 - depth,
        child_score(c, depth) == 99 - depth ==> board_state_of(c) == BoardState::WhiteWin,
        child_score(c, depth) == -99 + depth ==> board_state_of(c) == BoardState::BlackWin,
    decreases blanks(c) + 1, 0int,
{
    if board_state_of(c) == BoardState::Playing {
        lemma_score_bounds(c, depth + 1);
    }
}

/// Every empty cell gives a successor, found at the returned position.
pub proof fn lemma_successor_index(b: Seq<Cell>, i: int) -> (k: int)
    requires
        b.len() == 9,
        board_state_of(b) == BoardState::Playing,
        0 <= i < 9,
        b[i] is None,
    ensures
        0 <= k < successors(b).len(),
        successors(b)[k] == b.update(i, Some(mover_piece(b))),
{
    lemma_successor_index_upto(b, i, 9)
}

proof fn lemma_successor_index_upto(b: Seq<Cell>, i: int, n: int) -> (k: int)
    requires
        b.len() == 9,
        0 <= i < n <= 9,
        b[i] is None,
    ensures
        0 <= k < successors_upto(b, n).len(),
        successors_upto(b, n)[k] == b.update(i, Some(mover_piece(b))),
    decreases n,
{
    if i == n - 1 {
        successors_upto(b, n - 1).len() as int
    } else {
        let k = lemma_successor_index_upto(b, i, n - 1);
        if b[n - 1] is None {
            assert(successors_upto(b, n)[k] == successors_upto(b, n - 1)[k]);
        }
        k
    }
}

/// When the player to move can complete a line at once, minimax takes such
/// a move, scored as a win at the current depth.
pub proof fn lemma_takes_immediate_win(b: Seq<Cell>, depth: int, i: int)
    requires
        b.len() == 9,
        board_state_of(b) == BoardState::Playing,
        0 <= depth,
        depth + blanks(b) <= 9,
        0 <= i < 9,
        b[i] is None,
        board_state_of(b.update(i, Some(mover_piece(b)))) == win_state(mover_piece(b)),
    ensures
        board_state_of(minimax_of(b, depth).0) == win_state(mover_piece(b)),
        minimax_of(b, depth).1 == win_score(mover_piece(b), depth),
{
    let succs = successors(b);
    let w = lemma_successor_index(b, i);
    lemma_successor_fewer_blanks(b, w);
    assert(child_score(succs[w], depth) == win_score(mover_piece(b), depth));
    let n = succs.len() as int;
    lemma_pick_props(b, depth, n);
    let k = pick(b, depth, n).0;
    lemma_successor_fewer_blanks(b, k);
    lemma_child_score_bounds(succs[k], depth);
    assert(!better_for(mover_piece(b), child_score(succs[w], depth), pick(b, depth, n).1));
}

/// A piece added to a board completes no line of the other piece.
pub proof fn lemma_no_line_for_other(x: Seq<Cell>, j: int, q: Piece, p: Piece)
    requires
        x.len() == 9,
        0 <= j < 9,
        q != p,
        has_line(x.update(j, Some(q)), p),
    ensures
        has_line(x, p),
{
    let k = choose|k: int| 0 <= k < 8 && #[trigger] line_of(x.update(j, Some(q)), k, p);
    assert(line_of(x, k, p));
}

/// When the player to move cannot win at once, and the opponent threatens
/// to complete a line at exactly one empty cell, minimax blocks that cell:
/// every other move lets the opponent win on the next turn.
pub proof fn lemma_blocks_single_threat(b: Seq<Cell>, depth: int, i: int)
    requires
        b.len() == 9,
        board_state_of(b) == BoardState::Playing,
        0 <= depth,
        depth + blanks(b) <= 9,
        0 <= i < 9,
        b[i] is None,
        forall|j: int|
            0 <= j < 9 && b[j] is None ==> board_state_of(
                #[trigger] b.update(j, Some(mover_piece(b))),
            ) != win_state(mover_piece(b)),
        board_state_of(b.update(i, Some(opponent(mover_piece(b))))) == win_state(
            opponent(mover_piece(b)),
        ),
        forall|j: int|
            0 <= j < 9 && b[j] is None && j != i ==> board_state_of(
                #[trigger] b.update(j, Some(opponent(mover_piece(b)))),
            ) != win_state(opponent(mover_piece(b))),
    ensures
        minimax_of(b, depth).0 == b.update(i, Some(mover_piece(b))),
{
    let m = mover_piece(b);
    let o = opponent(m);
    let succs = successors(b);
    lemma_board_state_classifies(b, m);
    lemma_board_state_classifies(b, o);
    lemma_board_state_classifies(b.update(i, Some(o)), o);
    let ci = b.update(i, Some(m));
    let w = lemma_successor_index(b, i);
    lemma_successor_fewer_blanks(b, w);
    // Blocking is strictly better for the mover than losing next turn.
    assert(better_for(m, child_score(ci, depth), win_score(o, depth + 1))) by {
        lemma_board_state_classifies(ci, m);
        lemma_board_state_classifies(ci, o);
        if has_line(ci, o) {
            lemma_no_line_for_other(b, i, m, o);
        }
        if board_state_of(ci) == BoardState::Playing {
            lemma_has_successor(ci);
            let cs = successors(ci);
            let n = cs.len() as int;
            lemma_pick_props(ci, depth + 1, n);
            let k = pick(ci, depth + 1, n).0;
            lemma_successor_fewer_blanks(ci, k);
            lemma_successor_mover(b, w);
            lemma_child_score_bounds(cs[k], depth + 1);
            let e = cs[k];
            if child_score(e, depth + 1) == win_score(o, depth + 1) {
                let x = choose|x: int| 0 <= x < 9 && ci[x] is None && e == ci.update(x, Some(o));
                lemma_board_state_classifies(e, o);
                let y = b.update(x, Some(o));
                assert(has_line(y, o)) by {
                    let l = choose|l: int| 0 <= l < 8 && #[trigger] line_of(e, l, o);
                    assert(line_of(y, l, o));
                }
                if has_line(y, m) {
                    lemma_no_line_for_other(b, x, o, m);
                }
                lemma_board_state_classifies(y, o);
                assert(b.update(x, Some(o)) == y);
            }
        }
    }
    // Every other move leaves the threat open.
    assert forall|k: int| 0 <= k < succs.len() && succs[k] != ci implies #[trigger] child_score(
        succs[k],
        depth,
    ) == win_score(o, depth + 1) by {
        lemma_successor_fewer_blanks(b, k);
        lemma_successor_mover(b, k);
        let cj = succs[k];
        let j = choose|j: int| 0 <= j < 9 && b[j] is None && cj == b.update(j, Some(m));
        assert(j != i);
        lemma_board_state_classifies(cj, m);
        lemma_board_state_classifies(cj, o);
        if has_line(cj, o) {
            lemma_no_line_for_other(b, j, m, o);
        }
        assert(cj[i] is None);
        lemma_blanks_in_zero(cj, 9);
        assert(board_state_of(b.update(j, Some(m))) != win_state(m));
        assert(!has_line(cj, m));
        assert(board_state_of(cj) == BoardState::Playing);
        let t = cj.update(i, Some(o));
        assert(has_line(t, o)) by {
            let l = choose|l: int| 0 <= l < 8 && #[trigger] line_of(b.update(i, Some(o)), l, o);
            assert(line_of(t, l, o));
        }
        if has_line(t, m) {
            lemma_no_line_for_other(cj, i, o, m);
        }
        lemma_board_state_classifies(t, o);
        lemma_takes_immediate_win(cj, depth + 1, i);
    }
    let n = succs.len() as int;
    lemma_pick_props(b, depth, n);
    let k = pick(b, depth, n).0;
    assert(!better_for(m, child_score(succs[w], depth), pick(b, depth, n).1));
    if succs[k] != ci {
        assert(child_score(succs[k], depth) == win_score(o, depth + 1));
    }
}

/// The turn follows the number of empty cells: White on an empty board,
/// Black once a single piece is down.
pub proof fn lemma_turn_by_blanks(b: Seq<Cell>)
    ensures
        blanks(b) == 9 ==> turn_of(b) == Turn::White,
        blanks(b) == 8 ==> turn_of(b) == Turn::Black,
{
}

/// From an empty board the search places exactly one piece, a white one,
/// and leaves every other cell empty.
pub proof fn lemma_first_move_from_empty(b: Seq<Cell>)
    requires
        b.len() == 9,
        forall|i: int| 0 <= i < 9 ==> b[i] is None,
    ensures
        board_state_of(b) == BoardState::Playing,
        blanks(minimax_of(b, 0).0) == 8,
        exists|i: int|
            0 <= i < 9 && minimax_of(b, 0).0[i] == Some(Piece::White) && forall|j: int|
                0 <= j < 9 && j != i ==> (#[trigger] minimax_of(b, 0).0[j]) is None,
{
    lemma_board_state_classifies(b, Piece::White);
    reveal_with_fuel(blanks_in, 10);
    assert(blanks(b) == 9);
    lemma_minimax_is_move(b, 0);
    let r = minimax_of(b, 0).0;
    let i = choose|i: int| 0 <= i < 9 && b[i] is None && r == b.update(i, Some(mover_piece(b)));
    lemma_blanks_put(b, i, Piece::White);
    assert(r[i] == Some(Piece::White));
}

} // verus!
