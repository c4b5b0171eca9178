use minimax_ttt::board::{BoardState, LineState, Piece, TicTacToeBoard, Turn};
use minimax_ttt::codec::get_next_best_cells;

fn board_of(nums: &[i32]) -> TicTacToeBoard {
    TicTacToeBoard::from_nums(&nums.to_vec()).unwrap()
}

#[test]
fn new_board_is_empty() {
    let b = TicTacToeBoard::new();
    for i in 0..9 {
        assert!(b.can_put(i));
    }
    assert_eq!(b.count_blank(), 9);
}

#[test]
fn put_fills_one_cell() {
    let mut b = TicTacToeBoard::new();
    b.put(4, Piece::Black);
    assert!(!b.can_put(4));
    assert_eq!(b.cells[4], Some(Piece::Black));
    assert_eq!(b.count_blank(), 8);
    for i in 0..9 {
        if i != 4 {
            assert!(b.can_put(i));
        }
    }
}

#[test]
fn put_overwrites() {
    let mut b = TicTacToeBoard::new();
    b.put(0, Piece::White);
    b.put(0, Piece::Black);
    assert_eq!(b.cells[0], Some(Piece::Black));
}

#[test]
fn copies_are_independent() {
    let a = TicTacToeBoard::new();
    let mut b = a;
    b.put(3, Piece::White);
    assert!(a.can_put(3));
    assert!(!b.can_put(3));
}

#[test]
fn turn_on_empty_board_is_white() {
    assert_eq!(TicTacToeBoard::new().who_can_put_next_piece(), Turn::White);
}

#[test]
fn turn_after_one_piece_is_black() {
    let mut b = TicTacToeBoard::new();
    b.put(0, Piece::White);
    assert_eq!(b.who_can_put_next_piece(), Turn::Black);
}

#[test]
fn turn_on_full_board_is_black() {
    let b = board_of(&[1, 2, 1, 1, 2, 2, 2, 1, 1]);
    assert_eq!(b.count_blank(), 0);
    assert_eq!(b.who_can_put_next_piece(), Turn::Black);
}

#[test]
fn empty_board_is_playing() {
    assert_eq!(TicTacToeBoard::new().board_state(), BoardState::Playing);
}

#[test]
fn top_row_of_white_wins() {
    let b = board_of(&[1, 1, 1, 0, 2, 2, 0, 0, 2]);
    assert_eq!(b.board_state(), BoardState::WhiteWin);
}

#[test]
fn column_of_black_wins() {
    let b = board_of(&[1, 2, 1, 0, 2, 1, 0, 2, 0]);
    assert_eq!(b.board_state(), BoardState::BlackWin);
}

#[test]
fn diagonals_win() {
    let b = board_of(&[2, 1, 1, 0, 2, 1, 0, 0, 2]);
    assert_eq!(b.board_state(), BoardState::BlackWin);
    let b = board_of(&[2, 2, 1, 0, 1, 0, 1, 0, 0]);
    assert_eq!(b.board_state(), BoardState::WhiteWin);
}

#[test]
fn full_board_without_line_is_draw() {
    let b = board_of(&[1, 2, 1, 1, 2, 2, 2, 1, 1]);
    assert_eq!(b.board_state(), BoardState::Draw);
}

#[test]
fn board_with_gap_and_no_line_is_playing() {
    let b = board_of(&[1, 2, 1, 1, 2, 2, 2, 1, 0]);
    assert_eq!(b.board_state(), BoardState::Playing);
}

#[test]
fn row_found_before_column() {
    // Both players have a line: the scan meets the top row first.
    let b = board_of(&[1, 1, 1, 2, 0, 0, 2, 0, 0]);
    assert_eq!(b.board_state(), BoardState::WhiteWin);
    let b = board_of(&[2, 1, 1, 2, 1, 0, 2, 1, 0]);
    assert_eq!(b.board_state(), BoardState::BlackWin);
}

#[test]
fn judge_single_lines() {
    let b = TicTacToeBoard::new();
    let w = Some(Piece::White);
    let k = Some(Piece::Black);
    assert_eq!(b.judge_for_line(&w, &w, &w), LineState::WhiteWin);
    assert_eq!(b.judge_for_line(&k, &k, &k), LineState::BlackWin);
    assert_eq!(b.judge_for_line(&w, &k, &w), LineState::Draw);
    assert_eq!(b.judge_for_line(&w, &None, &w), LineState::Playing);
    assert_eq!(b.judge_for_line(&None, &None, &None), LineState::Playing);
}

#[test]
fn encoded_search_refuses_finished_board() {
    assert!(get_next_best_cells(&vec![1, 1, 1, 0, 2, 2, 0, 0, 2]).is_err());
}
