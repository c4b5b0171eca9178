use minimax_ttt::board::{BoardState, Piece, TicTacToeBoard};

fn board_of(nums: &[i32]) -> TicTacToeBoard {
    TicTacToeBoard::from_nums(&nums.to_vec()).unwrap()
}

fn changed_cells(before: &TicTacToeBoard, after: &TicTacToeBoard) -> Vec<usize> {
    (0..9).filter(|&i| before.cells[i] != after.cells[i]).collect()
}

#[test]
fn first_move_places_one_white_piece() {
    let empty = TicTacToeBoard::new();
    let next = empty.get_next_best_board();
    let changed = changed_cells(&empty, &next);
    assert_eq!(changed.len(), 1);
    assert_eq!(next.cells[changed[0]], Some(Piece::White));
    assert_eq!(next.count_blank(), 8);
}

#[test]
fn self_play_from_empty_is_a_draw() {
    let mut board = TicTacToeBoard::new();
    let mut moves = 0;
    while board.board_state() == BoardState::Playing {
        let next = board.get_next_best_board();
        let changed = changed_cells(&board, &next);
        assert_eq!(changed.len(), 1);
        assert!(board.can_put(changed[0]));
        board = next;
        moves += 1;
        assert!(moves <= 9);
    }
    assert_eq!(board.board_state(), BoardState::Draw);
    assert_eq!(moves, 9);
}

#[test]
fn white_takes_immediate_win() {
    let board = board_of(&[1, 1, 0, 2, 2, 0, 0, 0, 0]);
    let next = board.get_next_best_board();
    assert_eq!(changed_cells(&board, &next), vec![2]);
    assert_eq!(next.cells[2], Some(Piece::White));
    assert_eq!(next.board_state(), BoardState::WhiteWin);
    let val = board.minimax(0);
    assert_eq!(val.score, 99);
    assert_eq!(val.board, next);
}

#[test]
fn black_takes_immediate_win() {
    let board = board_of(&[1, 1, 0, 2, 2, 0, 0, 0, 1]);
    let next = board.get_next_best_board();
    assert_eq!(changed_cells(&board, &next), vec![5]);
    assert_eq!(next.cells[5], Some(Piece::Black));
    assert_eq!(next.board_state(), BoardState::BlackWin);
    assert_eq!(board.minimax(0).score, -99);
}

#[test]
fn black_blocks_single_threat() {
    let board = board_of(&[1, 1, 0, 0, 2, 0, 0, 0, 0]);
    let next = board.get_next_best_board();
    assert_eq!(changed_cells(&board, &next), vec![2]);
    assert_eq!(next.cells[2], Some(Piece::Black));
}

#[test]
fn white_blocks_single_threat() {
    let board = board_of(&[2, 2, 0, 0, 1, 0, 0, 0, 1]);
    let next = board.get_next_best_board();
    assert_eq!(changed_cells(&board, &next), vec![2]);
    assert_eq!(next.cells[2], Some(Piece::White));
}

#[test]
fn last_empty_cell_is_filled() {
    let board = board_of(&[1, 2, 1, 1, 2, 2, 2, 1, 0]);
    let next = board.get_next_best_board();
    assert_eq!(changed_cells(&board, &next), vec![8]);
    assert_eq!(next.board_state(), BoardState::Draw);
    assert_eq!(board.minimax(0).score, 0);
}

#[test]
fn valuation_scores() {
    let white_win = board_of(&[1, 1, 1, 0, 2, 2, 0, 0, 2]);
    assert_eq!(white_win.calc_valuation(2).score, 97);
    assert_eq!(white_win.calc_valuation(2).board, white_win);
    let black_win = board_of(&[1, 2, 1, 0, 2, 1, 0, 2, 0]);
    assert_eq!(black_win.calc_valuation(3).score, -96);
    let draw = board_of(&[1, 2, 1, 1, 2, 2, 2, 1, 1]);
    assert_eq!(draw.calc_valuation(4).score, 4);
    assert_eq!(TicTacToeBoard::new().calc_valuation(0).score, 0);
}

#[test]
fn terminal_board_scores_itself() {
    let white_win = board_of(&[1, 1, 1, 0, 2, 2, 0, 0, 2]);
    let val = white_win.minimax(1);
    assert_eq!(val.board, white_win);
    assert_eq!(val.score, 98);
}
