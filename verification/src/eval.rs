use vstd::prelude::*;

use crate::bit_board::{BitBoard, BOARD_MASK, HAND_MASK, D_TRY_MASK, E_TRY_MASK};

verus! {

/// Score of a won position.
pub const WIN_POINT: i32 = 10000;
/// Score of a lost position.
pub const LOSE_POINT: i32 = -10000;

/// Value of a chick on the board.
pub const H_BOARD_POINT: i32 = 1;
/// Value of a chick in hand.
pub const H_HAND_POINT: i32 = 2;
/// Value of an elephant on the board.
pub const Z_BOARD_POINT: i32 = 6;
/// Value of an elephant in hand.
pub const Z_HAND_POINT: i32 = 8;
/// Value of a giraffe on the board.
pub const K_BOARD_POINT: i32 = 5;
/// Value of a giraffe in hand.
pub const K_HAND_POINT: i32 = 7;
/// Value of a hen on the board.
pub const N_BOARD_POINT: i32 = 6;

/// The game's outcome for the first player: 1 won, -1 lost, 0 undecided.
///
/// A player whose lion is gone has lost (the second player's lion is
/// looked at first); otherwise a lion that stood on the far rank before the
/// last move and still does there has won (the first player's first).
pub open spec fn first_player_outcome(board: BitBoard, bef_board: BitBoard) -> int {
    if board.lb & board.pb2 == 0 {
        1
    } else if board.lb & board.pb1 == 0 {
        -1
    } else if board.lb & board.pb1 & D_TRY_MASK != 0 && bef_board.lb & bef_board.pb1 & D_TRY_MASK
        != 0 {
        1
    } else if board.lb & board.pb2 & E_TRY_MASK != 0 && bef_board.lb & bef_board.pb2 & E_TRY_MASK
        != 0 {
        -1
    } else {
        0
    }
}

/// The outcome scored for the player to judge for: `WIN_POINT`,
/// `LOSE_POINT` or 0.
pub open spec fn judge_score(board: BitBoard, bef_board: BitBoard, is_player1: bool) -> int {
    let o = first_player_outcome(board, bef_board);
    if is_player1 {
        o * WIN_POINT
    } else {
        -o * WIN_POINT
    }
}

/// `v` when `cond` holds, `-v` otherwise.
pub open spec fn signed(cond: bool, v: int) -> int {
    if cond { v } else { -v }
}

/// The score of the chicks and hens, counted for the first player. With no
/// hen, each of the four places scores a chick; with no chick, the two board
/// places score a hen. With one chick and one hen, the first player's board
/// and hand score the chick, and the hen term also tests the chick bitboard
/// on the first player's board: the hen itself is not looked at.
pub open spec fn chick_hen_score(board: BitBoard) -> int {
    let pb1_board = board.pb1 & BOARD_MASK;
    let pb2_board = board.pb2 & BOARD_MASK;
    let pb1_hand = board.pb1 & HAND_MASK;
    let pb2_hand = board.pb2 & HAND_MASK;
    if board.nb == 0 {
        signed(board.hb & pb1_board != 0, H_BOARD_POINT as int) + signed(
            board.hb & pb2_board == 0,
            H_BOARD_POINT as int,
        ) + signed(board.hb & pb1_hand != 0, H_HAND_POINT as int) + signed(
            board.hb & pb2_hand == 0,
            H_HAND_POINT as int,
        )
    } else if board.hb == 0 {
        signed(board.nb & pb1_board != 0, N_BOARD_POINT as int) + signed(
            board.nb & pb2_board == 0,
            N_BOARD_POINT as int,
        )
    } else {
        signed(board.hb & pb1_board != 0, H_BOARD_POINT as int) + signed(
            board.hb & pb1_hand != 0,
            H_HAND_POINT as int,
        ) + signed(board.hb & pb1_board != 0, N_BOARD_POINT as int)
    }
}

/// The score of the pieces of one kind (`x`) worth `on_board` on the board
/// and `in_hand` in hand, counted for the first player: each of the four
/// places (first player's board, second player's board, first player's hand,
/// second player's hand) adds its value when the first player gains by it
/// and subtracts it otherwise.
pub open spec fn kind_score(board: BitBoard, x: i32, on_board: int, in_hand: int) -> int {
    signed(x & (board.pb1 & BOARD_MASK) != 0, on_board) + signed(
        x & (board.pb2 & BOARD_MASK) == 0,
        on_board,
    ) + signed(x & (board.pb1 & HAND_MASK) != 0, in_hand) + signed(
        x & (board.pb2 & HAND_MASK) == 0,
        in_hand,
    )
}

/// The material score of an undecided position, counted for the first player
/// whichever player is to judge.
pub open spec fn material_score(board: BitBoard) -> int {
    chick_hen_score(board) + kind_score(board, board.zb, Z_BOARD_POINT as int, Z_HAND_POINT as int)
        + kind_score(board, board.kb, K_BOARD_POINT as int, K_HAND_POINT as int)
}

/// The static evaluation: the outcome when the game is decided, the
/// material score otherwise.
pub open spec fn eval_score(board: BitBoard, bef_board: BitBoard, is_player1: bool) -> int {
    let j = judge_score(board, bef_board, is_player1);
    if j != 0 {
        j
    } else {
        material_score(board)
    }
}

/// Whether the game is decided after the move from `bef_board` to `board`:
/// `WIN_POINT` if the player `is_player1` names has won, `LOSE_POINT` if that
/// player has lost, 0 otherwise.
pub fn judge(board: &BitBoard, bef_board: &BitBoard, is_player1: bool) -> (r: i32)
    ensures
        r == judge_score(*board, *bef_board, is_player1),
{
    if board.lb & board.pb2 == 0 {
        return if is_player1 {
            WIN_POINT
        } else {
            LOSE_POINT
        };
    } else if board.lb & board.pb1 == 0 {
        return if is_player1 {
            LOSE_POINT
        } else {
            WIN_POINT
        };
    }
    if board.lb & board.pb1 & D_TRY_MASK != 0 && bef_board.lb & bef_board.pb1 & D_TRY_MASK != 0 {
        return if is_player1 {
            WIN_POINT
        } else {
            LOSE_POINT
        };
    }
    if board.lb & board.pb2 & E_TRY_MASK != 0 && bef_board.lb & bef_board.pb2 & E_TRY_MASK != 0 {
        return if is_player1 {
            LOSE_POINT
        } else {
            WIN_POINT
        };
    }
    0
}

fn signed_exec(cond: bool, v: i32) -> (r: i32)
    requires
        v > i32::MIN,
    ensures
        r == signed(cond, v as int),
{
    if cond {
        v
    } else {
        -v
    }
}

fn chick_hen_score_exec(board: &BitBoard) -> (r: i32)
    ensures
        r == chick_hen_score(*board),
        -12 <= r <= 12,
{
    let pb1_board: i32 = board.pb1 & BOARD_MASK;
    let pb2_board: i32 = board.pb2 & BOARD_MASK;
    let pb1_hand: i32 = board.pb1 & HAND_MASK;
    let pb2_hand: i32 = board.pb2 & HAND_MASK;
    if board.nb == 0 {
        signed_exec(board.hb & pb1_board != 0, H_BOARD_POINT) + signed_exec(
            board.hb & pb2_board == 0,
            H_BOARD_POINT,
        ) + signed_exec(board.hb & pb1_hand != 0, H_HAND_POINT) + signed_exec(
            board.hb & pb2_hand == 0,
            H_HAND_POINT,
        )
    } else if board.hb == 0 {
        signed_exec(board.nb & pb1_board != 0, N_BOARD_POINT) + signed_exec(
            board.nb & pb2_board == 0,
            N_BOARD_POINT,
        )
    } else {
        signed_exec(board.hb & pb1_board != 0, H_BOARD_POINT) + signed_exec(
            board.hb & pb1_hand != 0,
            H_HAND_POINT,
        ) + signed_exec(board.hb & pb1_board != 0, N_BOARD_POINT)
    }
}

fn kind_score_exec(board: &BitBoard, x: i32, on_board: i32, in_hand: i32) -> (r: i32)
    requires
        0 <= on_board <= 10,
        0 <= in_hand <= 10,
    ensures
        r == kind_score(*board, x, on_board as int, in_hand as int),
        -2 * (on_board + in_hand) <= r <= 2 * (on_board + in_hand),
{
    signed_exec(x & (board.pb1 & BOARD_MASK) != 0, on_board) + signed_exec(
        x & (board.pb2 & BOARD_MASK) == 0,
        on_board,
    ) + signed_exec(x & (board.pb1 & HAND_MASK) != 0, in_hand) + signed_exec(
        x & (board.pb2 & HAND_MASK) == 0,
        in_hand,
    )
}

/// The static evaluation of `board` for the player `is_player1` names:
/// the result of `judge` when the game is decided, otherwise the material
/// score of `board`.
pub fn eval_function(board: &BitBoard, bef_board: &BitBoard, is_player1: bool) -> (r: i32)
    ensures
        r == eval_score(*board, *bef_board, is_player1),
        -10000 <= r <= 10000,
{
    let point = judge(board, bef_board, is_player1);
    if point != 0 {
        return point;
    }
    let chicks = chick_hen_score_exec(board);
    let elephants = kind_score_exec(board, board.zb, Z_BOARD_POINT, Z_HAND_POINT);
    let giraffes = kind_score_exec(board, board.kb, K_BOARD_POINT, K_HAND_POINT);
    point + chicks + elephants + giraffes
}

/// The game is zero-sum: what one player is judged to have won, the other is
/// judged to have lost.
pub proof fn lemma_judge_antisymmetric(board: BitBoard, bef_board: BitBoard)
    ensures
        judge_score(board, bef_board, true) == -judge_score(board, bef_board, false),
        judge_score(board, bef_board, true) == 0 || judge_score(board, bef_board, true)
            == WIN_POINT || judge_score(board, bef_board, true) == LOSE_POINT,
{
}

/// In an undecided position the evaluation does not depend on the player it
/// is made for (it always counts the material for the first player).
pub proof fn lemma_eval_undecided_same_for_both(board: BitBoard, bef_board: BitBoard)
    requires
        first_player_outcome(board, bef_board) == 0,
    ensures
        eval_score(board, bef_board, true) == eval_score(board, bef_board, false),
        eval_score(board, bef_board, true) == material_score(board),
{
}

/// The rules of the game's end, for both players. A player whose lion has
/// been taken has lost (when both lions are gone, the first player is judged
/// the winner). With both lions on the board, a lion that stood on the far
/// rank (rank 1 for the first player, rank 4 for the second) before the last
/// move and still stands there has won by try, the first player's try being
/// looked at first; otherwise the game goes on.
pub proof fn lemma_judge_rules(board: BitBoard, bef_board: BitBoard)
    ensures
        board.lb & board.pb2 == 0 ==> judge_score(board, bef_board, true) == 10000 && judge_score(
            board,
            bef_board,
            false,
        ) == -10000,
        board.lb & board.pb2 != 0 && board.lb & board.pb1 == 0 ==> judge_score(board, bef_board, true)
            == -10000 && judge_score(board, bef_board, false) == 10000,
        board.lb & board.pb1 != 0 && board.lb & board.pb2 != 0 && board.lb & board.pb1 & 0x7 != 0
            && bef_board.lb & bef_board.pb1 & 0x7 != 0 ==> judge_score(board, bef_board, true) == 10000
            && judge_score(board, bef_board, false) == -10000,
        board.lb & board.pb1 != 0 && board.lb & board.pb2 != 0 && !(board.lb & board.pb1 & 0x7 != 0
            && bef_board.lb & bef_board.pb1 & 0x7 != 0) && board.lb & board.pb2 & 0xe00 != 0
            && bef_board.lb & bef_board.pb2 & 0xe00 != 0 ==> judge_score(board, bef_board, true) == -10000
            && judge_score(board, bef_board, false) == 10000,
        board.lb & board.pb1 != 0 && board.lb & board.pb2 != 0 && !(board.lb & board.pb1 & 0x7 != 0
            && bef_board.lb & bef_board.pb1 & 0x7 != 0) && !(board.lb & board.pb2 & 0xe00 != 0
            && bef_board.lb & bef_board.pb2 & 0xe00 != 0) ==> judge_score(board, bef_board, true) == 0
            && judge_score(board, bef_board, false) == 0,
{
}

} // verus!
