use minimax_ttt::board::{Piece, TicTacToeBoard};
use minimax_ttt::codec::{cell_to_num, get_next_best_cells, num_to_cell, BoardCodecError};

#[test]
fn cells_and_numbers() {
    assert_eq!(num_to_cell(0), None);
    assert_eq!(num_to_cell(1), Some(Piece::White));
    assert_eq!(num_to_cell(2), Some(Piece::Black));
    assert_eq!(cell_to_num(None), 0);
    assert_eq!(cell_to_num(Some(Piece::White)), 1);
    assert_eq!(cell_to_num(Some(Piece::Black)), 2);
}

#[test]
fn encode_board() {
    let mut b = TicTacToeBoard::new();
    b.put(0, Piece::White);
    b.put(8, Piece::Black);
    assert_eq!(b.to_json_able_mut(), vec![1, 0, 0, 0, 0, 0, 0, 0, 2]);
}

#[test]
fn decode_board() {
    let b = TicTacToeBoard::from_nums(&vec![0, 1, 2, 0, 0, 0, 0, 0, 0]).unwrap();
    assert_eq!(b.cells[0], None);
    assert_eq!(b.cells[1], Some(Piece::White));
    assert_eq!(b.cells[2], Some(Piece::Black));
}

#[test]
fn round_trip_keeps_board() {
    let mut b = TicTacToeBoard::new();
    b.put(2, Piece::White);
    b.put(4, Piece::Black);
    b.put(6, Piece::White);
    let back = TicTacToeBoard::from_nums(&b.to_json_able_mut()).unwrap();
    assert_eq!(back, b);
    let empty = TicTacToeBoard::new();
    assert_eq!(TicTacToeBoard::from_nums(&empty.to_json_able_mut()).unwrap(), empty);
}

#[test]
fn decode_refuses_wrong_length() {
    assert_eq!(
        TicTacToeBoard::from_nums(&vec![0, 0, 0, 0, 0, 0, 0, 0]),
        Err(BoardCodecError::WrongLength { len: 8 })
    );
    assert_eq!(
        TicTacToeBoard::from_nums(&vec![]),
        Err(BoardCodecError::WrongLength { len: 0 })
    );
}

#[test]
fn decode_refuses_first_bad_number() {
    assert_eq!(
        TicTacToeBoard::from_nums(&vec![0, 1, 2, 5, -1, 0, 0, 0, 0]),
        Err(BoardCodecError::InvalidCell { index: 3, value: 5 })
    );
}

#[test]
fn encoded_search_answers_win() {
    assert_eq!(
        get_next_best_cells(&vec![1, 1, 0, 2, 2, 0, 0, 0, 0]),
        Ok(vec![1, 1, 1, 2, 2, 0, 0, 0, 0])
    );
}

#[test]
fn encoded_search_errors() {
    assert_eq!(
        get_next_best_cells(&vec![1, 1, 1, 0, 2, 2, 0, 0, 2]),
        Err(BoardCodecError::NoLegalMoves)
    );
    assert_eq!(
        get_next_best_cells(&vec![1, 2, 1, 1, 2, 2, 2, 1, 1]),
        Err(BoardCodecError::NoLegalMoves)
    );
    assert_eq!(
        get_next_best_cells(&vec![1, 1]),
        Err(BoardCodecError::WrongLength { len: 2 })
    );
    assert_eq!(
        get_next_best_cells(&vec![0, 0, 0, 0, 0, 0, 0, 0, 3]),
        Err(BoardCodecError::InvalidCell { index: 8, value: 3 })
    );
}
