use vstd::prelude::*;

use crate::board::{board_state_of, BoardState, Cell, Piece, TicTacToeBoard};
use crate::search::minimax_of;

verus! {

/// Why a flat encoding of a board was turned down.
#[derive(Clone, Copy, Debug, PartialEq, Eq, Structural)]
pub enum BoardCodecError {
    /// The sequence does not hold exactly nine numbers.
    WrongLength { len: usize },
    /// The number at `index` is not 0, 1 or 2.
    InvalidCell { index: usize, value: i32 },
    /// The board is already decided, so there is no move to make.
    NoLegalMoves,
}

/// Whether `n` encodes a cell: 0 empty, 1 white, 2 black.
pub open spec fn is_cell_num(n: i32) -> bool {
    0 <= n <= 2
}

/// The cell that a number stands for.
pub open spec fn cell_of_num(n: i32) -> Cell {
    if n == 1 {
        Some(Piece::White)
    } else if n == 2 {
        Some(Piece::Black)
    } else {
        None
    }
}

/// The number that stands for a cell.
pub open spec fn num_of_cell(c: Cell) -> i32 {
    match c {
        None => 0,
        Some(Piece::White) => 1,
        Some(Piece::Black) => 2,
    }
}

/// Whether `nums` is the flat encoding of a board: nine cell numbers.
pub open spec fn valid_encoding(nums: Seq<i32>) -> bool {
    nums.len() == 9 && forall|i: int| 0 <= i < 9 ==> is_cell_num(#[trigger] nums[i])
}

/// The cells that a flat encoding stands for, row by row.
pub open spec fn decode(nums: Seq<i32>) -> Seq<Cell> {
    nums.map_values(|n: i32| cell_of_num(n))
}

/// The flat encoding of a board, row by row.
pub open spec fn encode(b: Seq<Cell>) -> Seq<i32> {
    b.map_values(|c: Cell| num_of_cell(c))
}

/// The first position of `nums` that holds no cell number, if any.
pub open spec fn first_invalid(nums: Seq<i32>, index: int) -> bool {
    0 <= index < nums.len() && !is_cell_num(nums[index]) && forall|j: int|
        0 <= j < index ==> is_cell_num(#[trigger] nums[j])
}

/// What decoding `nums` gives: a board for a valid encoding, else the
/// length, or the first number that is not a cell.
pub open spec fn decode_result_ok(
    nums: Seq<i32>,
    r: Result<TicTacToeBoard, BoardCodecError>,
) -> bool {
    match r {
        Ok(b) => valid_encoding(nums) && b@ == decode(nums),
        Err(BoardCodecError::WrongLength { len }) => nums.len() != 9 && len == nums.len(),
        Err(BoardCodecError::InvalidCell { index, value }) => nums.len() == 9 && first_invalid(
            nums,
            index as int,
        ) && value == nums[index as int],
        Err(BoardCodecError::NoLegalMoves) => false,
    }
}

/// Decodes one cell number.
pub fn num_to_cell(num: i32) -> (r: Cell)
    requires
        is_cell_num(num),
    ensures
        r == cell_of_num(num),
{
    match num {
        0 => None,
        1 => Some(Piece::White),
        _ => Some(Piece::Black),
    }
}

/// Encodes one cell as a number.
pub fn cell_to_num(cell: Cell) -> (r: i32)
    ensures
        r == num_of_cell(cell),
        is_cell_num(r),
{
    match cell {
        None => 0,
        Some(Piece::White) => 1,
        Some(Piece::Black) => 2,
    }
}

impl TicTacToeBoard {
    /// The flat encoding of this board.
    pub fn to_json_able_mut(self) -> (r: Vec<i32>)
        ensures
            r@ == encode(self@),
    {
        let mut nums: Vec<i32> = Vec::new();
        let mut i: usize = 0;
        while i < 9
            invariant
                i <= 9,
                nums@ == encode(self@).subrange(0, i as int),
            decreases 9 - i,
        {
            nums.push(cell_to_num(self.cells[i]));
            i = i + 1;
            assert(nums@ =~= encode(self@).subrange(0, i as int));
        }
        assert(nums@ =~= encode(self@));
        nums
    }

    /// Decodes a flat encoding, refusing a length other than nine and any
    /// number other than 0, 1 or 2.
    pub fn from_nums(nums: &Vec<i32>) -> (r: Result<TicTacToeBoard, BoardCodecError>)
        ensures
            decode_result_ok(nums@, r),
            r is Ok <==> valid_encoding(nums@),
    {
        if nums.len() != 9 {
            return Err(BoardCodecError::WrongLength { len: nums.len() });
        }
        let mut board = TicTacToeBoard::new();
        let mut index: usize = 0;
        while index < 9
            invariant
                nums@.len() == 9,
                index <= 9,
                forall|j: int| 0 <= j < index ==> is_cell_num(#[trigger] nums@[j]),
                forall|j: int| 0 <= j < index ==> board@[j] == cell_of_num(#[trigger] nums@[j]),
                forall|j: int| index <= j < 9 ==> board@[j] is None,
            decreases 9 - index,
        {
            let num = nums[index];
            if !(0 <= num && num <= 2) {
                return Err(BoardCodecError::InvalidCell { index, value: num });
            }
            match num_to_cell(num) {
                Some(Piece::Black) => board.put(index, Piece::Black),
                Some(Piece::White) => board.put(index, Piece::White),
                None => {},
            }
            index = index + 1;
        }
        assert(board@ =~= decode(nums@));
        Ok(board)
    }
}

/// Decodes a flat encoding, searches for the best next board and encodes
/// it. A malformed encoding, or a board whose game is over, is refused.
pub fn get_next_best_cells(nums: &Vec<i32>) -> (r: Result<Vec<i32>, BoardCodecError>)
    ensures
        r is Ok <==> valid_encoding(nums@) && board_state_of(decode(nums@)) == BoardState::Playing,
        match r {
            Ok(v) => v@ == encode(minimax_of(decode(nums@), 0).0),
            Err(BoardCodecError::NoLegalMoves) => valid_encoding(nums@) && board_state_of(
                decode(nums@),
            ) != BoardState::Playing,
            Err(e) => decode_result_ok(nums@, Err(e)),
        },
{
    match TicTacToeBoard::from_nums(nums) {
        Err(e) => Err(e),
        Ok(board) => {
            if board.board_state() != BoardState::Playing {
                Err(BoardCodecError::NoLegalMoves)
            } else {
                Ok(board.get_next_best_board().to_json_able_mut())
            }
        },
    }
}

/// Encoding a board and decoding the numbers gives the same board back.
pub proof fn lemma_codec_round_trip(b: TicTacToeBoard)
    ensures
        valid_encoding(encode(b@)),
        decode(encode(b@)) == b@,
{
    assert(decode(encode(b@)) =~= b@);
}

/// Decoding a valid encoding and encoding the board gives the same numbers
/// back.
pub proof fn lemma_codec_round_trip_nums(nums: Seq<i32>)
    requires
        valid_encoding(nums),
    ensures
        encode(decode(nums)) == nums,
{
    assert(encode(decode(nums)) =~= nums);
}

} // verus!
