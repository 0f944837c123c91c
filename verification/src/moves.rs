use vstd::prelude::*;

use crate::bit_board::{
    BitBoard, D_TRY_MASK, E_TRY_MASK, BOARD_MASK, own_of, opp_of, hand_mask, try_mask,
    hand_base, own_bits, hand_mask_of,
};

verus! {

/// `b` with the bitboard of one player replaced by `v`.
pub open spec fn with_own(b: BitBoard, is_player1: bool, v: i32) -> BitBoard {
    if is_player1 {
        BitBoard { pb1: v, ..b }
    } else {
        BitBoard { pb2: v, ..b }
    }
}

/// `b` with the bitboard of the other player replaced by `v`.
pub open spec fn with_opp(b: BitBoard, is_player1: bool, v: i32) -> BitBoard {
    with_own(b, !is_player1, v)
}

/// The piece kind found at `src` (chick, lion, giraffe, elephant, hen, in
/// that order of precedence) is taken off `src` and put on `dst`; a chick that
/// leaves the board for the promotion rank becomes a hen.
pub open spec fn relocate_kind(b: BitBoard, src: i32, dst: i32, is_player1: bool) -> BitBoard {
    if b.hb & src != 0 {
        if src & hand_mask(is_player1) == 0 && dst & try_mask(is_player1) != 0 {
            BitBoard { hb: b.hb & !src, nb: b.nb | dst, ..b }
        } else {
            BitBoard { hb: b.hb & !src | dst, ..b }
        }
    } else if b.lb & src != 0 {
        BitBoard { lb: b.lb & !src | dst, ..b }
    } else if b.kb & src != 0 {
        BitBoard { kb: b.kb & !src | dst, ..b }
    } else if b.zb & src != 0 {
        BitBoard { zb: b.zb & !src | dst, ..b }
    } else if b.nb & src != 0 {
        BitBoard { nb: b.nb & !src | dst, ..b }
    } else {
        b
    }
}

/// The slot of the mover's hand where a captured piece goes: the one above
/// the contiguous block of occupied slots that starts at the first slot.
pub open spec fn capture_slot(b: BitBoard, is_player1: bool) -> i32 {
    ((own_of(b, is_player1) & hand_mask(is_player1)) + hand_base(is_player1)) as i32
}

/// The opponent's piece on `dst` is removed from the board and added to the
/// mover's hand at `capture_slot` (a hen goes back to the hand as a chick).
pub open spec fn capture_at(b: BitBoard, dst: i32, is_player1: bool) -> BitBoard {
    let hp = capture_slot(b, is_player1);
    let b1 = with_own(
        with_opp(b, is_player1, opp_of(b, is_player1) & !dst),
        is_player1,
        own_of(b, is_player1) | hp,
    );
    if b1.hb & dst != 0 {
        BitBoard { hb: (b1.hb & !dst) | hp, ..b1 }
    } else if b1.lb & dst != 0 {
        BitBoard { lb: (b1.lb & !dst) | hp, ..b1 }
    } else if b1.kb & dst != 0 {
        BitBoard { kb: (b1.kb & !dst) | hp, ..b1 }
    } else if b1.zb & dst != 0 {
        BitBoard { zb: (b1.zb & !dst) | hp, ..b1 }
    } else if b1.nb & dst != 0 {
        BitBoard { nb: b1.nb & !dst, hb: b1.hb | hp, ..b1 }
    } else {
        b1
    }
}

/// After a drop from hand slot `src`, the hand slots above `src` move one
/// slot down (in the mover's, giraffe, elephant and chick bitboards) when
/// the mover still holds a piece there.
pub open spec fn close_hand(b: BitBoard, src: i32, is_player1: bool) -> BitBoard {
    let hand = hand_mask(is_player1);
    let below = (src - 1) as i32;
    let shift_bits = !below & hand;
    let own = own_of(b, is_player1);
    if shift_bits & own != 0 {
        let keep = below & hand | !hand;
        let b1 = with_own(b, is_player1, (own & keep) | ((own & shift_bits) >> 1));
        BitBoard {
            kb: (b1.kb & keep) | ((b1.kb & shift_bits) >> 1),
            zb: (b1.zb & keep) | ((b1.zb & shift_bits) >> 1),
            hb: (b1.hb & keep) | ((b1.hb & shift_bits) >> 1),
            ..b1
        }
    } else {
        b
    }
}

/// The board after the move `mv = (src, dst)` of one player.
///
/// A source in the mover's hand is a drop; any other source is a move on the
/// board, which first captures an opponent's piece found on `dst`.
#[verifier::opaque]
pub open spec fn moved_board(b: BitBoard, mv: (i32, i32), is_player1: bool) -> BitBoard {
    let src = mv.0;
    let dst = mv.1;
    if src & hand_mask(is_player1) != 0 {
        let b1 = with_own(b, is_player1, own_of(b, is_player1) & !src | dst);
        close_hand(relocate_kind(b1, src, dst, is_player1), src, is_player1)
    } else {
        let b1 = if opp_of(b, is_player1) & dst != 0 {
            capture_at(b, dst, is_player1)
        } else {
            b
        };
        let b2 = with_own(b1, is_player1, own_of(b1, is_player1) & !src | dst);
        relocate_kind(b2, src, dst, is_player1)
    }
}

fn set_own(b: &mut BitBoard, is_player1: bool, v: i32)
    ensures
        *final(b) == with_own(*old(b), is_player1, v),
{
    if is_player1 {
        b.pb1 = v;
    } else {
        b.pb2 = v;
    }
}

fn set_opp(b: &mut BitBoard, is_player1: bool, v: i32)
    ensures
        *final(b) == with_opp(*old(b), is_player1, v),
{
    set_own(b, !is_player1, v);
}

fn relocate_kind_exec(b: &mut BitBoard, src: i32, dst: i32, is_player1: bool)
    ensures
        *final(b) == relocate_kind(*old(b), src, dst, is_player1),
{
    let hand = hand_mask_of(is_player1);
    let try_bits = if is_player1 { D_TRY_MASK } else { E_TRY_MASK };
    if b.hb & src != 0 {
        if (src & hand == 0) && (dst & try_bits != 0) {
            b.hb = b.hb & !src;
            b.nb = b.nb | dst;
        } else {
            b.hb = b.hb & !src | dst;
        }
    } else if b.lb & src != 0 {
        b.lb = b.lb & !src | dst;
    } else if b.kb & src != 0 {
        b.kb = b.kb & !src | dst;
    } else if b.zb & src != 0 {
        b.zb = b.zb & !src | dst;
    } else if b.nb & src != 0 {
        b.nb = b.nb & !src | dst;
    }
}

fn capture_at_exec(b: &mut BitBoard, dst: i32, is_player1: bool)
    ensures
        *final(b) == capture_at(*old(b), dst, is_player1),
{
    let own = own_bits(b, is_player1);
    let opp = own_bits(b, !is_player1);
    let hand = hand_mask_of(is_player1);
    let base: i32 = if is_player1 { 0x1000 } else { 0x40000 };
    assert(0 <= own & hand <= 0xfc0000) by (bit_vector)
        requires
            hand == 0x3f000i32 || hand == 0xfc0000i32,
    ;
    let hand_pos = (own & hand) + base;
    set_opp(b, is_player1, opp & !dst);
    set_own(b, is_player1, own | hand_pos);
    if b.hb & dst != 0 {
        b.hb = (b.hb & !dst) | hand_pos;
    } else if b.lb & dst != 0 {
        b.lb = (b.lb & !dst) | hand_pos;
    } else if b.kb & dst != 0 {
        b.kb = (b.kb & !dst) | hand_pos;
    } else if b.zb & dst != 0 {
        b.zb = (b.zb & !dst) | hand_pos;
    } else if b.nb & dst != 0 {
        b.nb = b.nb & !dst;
        b.hb = b.hb | hand_pos;
    }
}

fn close_hand_exec(b: &mut BitBoard, src: i32, is_player1: bool)
    requires
        src & hand_mask(is_player1) != 0,
    ensures
        *final(b) == close_hand(*old(b), src, is_player1),
{
    let hand = hand_mask_of(is_player1);
    assert(src != i32::MIN) by (bit_vector)
        requires
            src & hand != 0,
            hand == 0x3f000i32 || hand == 0xfc0000i32,
    ;
    let below: i32 = src - 1;
    let shift_bits: i32 = !below & hand;
    let own = own_bits(b, is_player1);
    if shift_bits & own != 0 {
        let keep: i32 = below & hand | !hand;
        set_own(b, is_player1, (own & keep) | ((own & shift_bits) >> 1));
        b.kb = (b.kb & keep) | ((b.kb & shift_bits) >> 1);
        b.zb = (b.zb & keep) | ((b.zb & shift_bits) >> 1);
        b.hb = (b.hb & keep) | ((b.hb & shift_bits) >> 1);
    }
}

/// The board after player 1 (`is_player1`) or player 2 plays
/// `move_vec = (src, dst)`, both given as one-bit masks: a drop when `src`
/// is a slot of the mover's hand, otherwise a move on the board that captures
/// the opponent's piece on `dst`, if any.
pub fn make_moved_board(bef_board: &BitBoard, move_vec: (i32, i32), is_player1: bool) -> (r:
    BitBoard)
    ensures
        r == moved_board(*bef_board, move_vec, is_player1),
{
    reveal(moved_board);
    let src: i32 = move_vec.0;
    let dst: i32 = move_vec.1;
    let mut board = BitBoard {
        pb1: bef_board.pb1,
        pb2: bef_board.pb2,
        lb: bef_board.lb,
        kb: bef_board.kb,
        zb: bef_board.zb,
        hb: bef_board.hb,
        nb: bef_board.nb,
    };
    let hand = hand_mask_of(is_player1);
    if src & hand != 0 {
        let own = own_bits(&board, is_player1);
        set_own(&mut board, is_player1, own & !src | dst);
        relocate_kind_exec(&mut board, src, dst, is_player1);
        close_hand_exec(&mut board, src, is_player1);
    } else {
        if own_bits(&board, !is_player1) & dst != 0 {
            capture_at_exec(&mut board, dst, is_player1);
        }
        let own = own_bits(&board, is_player1);
        set_own(&mut board, is_player1, own & !src | dst);
        relocate_kind_exec(&mut board, src, dst, is_player1);
    }
    board
}


pub(crate) proof fn lemma_bits_update(x: i32, s: i32, d: i32)
    by (bit_vector)
    ensures
        x >= 0 && d >= 0 ==> (x & !s | d) >= 0 && (x & !s) >= 0 && (x | d) >= 0 && (x & !s) | d
            >= 0,
        0 <= x < 0x100_0000 && 0 <= d < 0x100_0000 ==> 0 <= (x & !s | d) < 0x100_0000 && 0 <= (x
            & !s) < 0x100_0000 && 0 <= (x | d) < 0x100_0000,
{
}

proof fn lemma_bits_shift(x: i32, k: i32, s: i32)
    by (bit_vector)
    ensures
        x >= 0 ==> (x & k) | ((x & s) >> 1) >= 0,
        0 <= x < 0x100_0000 ==> 0 <= (x & k) | ((x & s) >> 1) < 0x100_0000,
{
}

pub(crate) proof fn lemma_bits_slot(x: i32, h: i32, base: i32)
    by (bit_vector)
    requires
        (h == 0x3f000i32 && base == 0x1000i32) || (h == 0xfc0000i32 && base == 0x40000i32),
    ensures
        0 <= (x & h),
        (x & h) <= 0xfc0000,
        (x & h) != h ==> (x & h) + base < 0x100_0000,
{
}

pub(crate) proof fn lemma_relocate_kind_bounds(b: BitBoard, src: i32, dst: i32, is_player1: bool)
    ensures
        b.non_negative() && dst >= 0 ==> relocate_kind(b, src, dst, is_player1).non_negative(),
        b.in_range() && 0 <= dst < 0x100_0000 ==> relocate_kind(b, src, dst, is_player1).in_range(),
{
    lemma_bits_update(b.hb, src, dst);
    lemma_bits_update(b.lb, src, dst);
    lemma_bits_update(b.kb, src, dst);
    lemma_bits_update(b.zb, src, dst);
    lemma_bits_update(b.nb, src, dst);
}

pub(crate) proof fn lemma_capture_at_bounds(b: BitBoard, dst: i32, is_player1: bool)
    ensures
        b.non_negative() ==> capture_at(b, dst, is_player1).non_negative(),
        b.in_range() && own_of(b, is_player1) & hand_mask(is_player1) != hand_mask(is_player1)
            ==> capture_at(b, dst, is_player1).in_range(),
{
    let own = own_of(b, is_player1);
    let hp = capture_slot(b, is_player1);
    lemma_bits_slot(own, hand_mask(is_player1), hand_base(is_player1));
    let b1 = with_own(
        with_opp(b, is_player1, opp_of(b, is_player1) & !dst),
        is_player1,
        own | hp,
    );
    lemma_bits_update(opp_of(b, is_player1), dst, hp);
    lemma_bits_update(own, dst, hp);
    lemma_bits_update(b1.hb, dst, hp);
    lemma_bits_update(b1.lb, dst, hp);
    lemma_bits_update(b1.kb, dst, hp);
    lemma_bits_update(b1.zb, dst, hp);
    lemma_bits_update(b1.nb, dst, hp);
}

pub(crate) proof fn lemma_close_hand_bounds(b: BitBoard, src: i32, is_player1: bool)
    ensures
        b.non_negative() ==> close_hand(b, src, is_player1).non_negative(),
        b.in_range() ==> close_hand(b, src, is_player1).in_range(),
{
    let hand = hand_mask(is_player1);
    let below = (src - 1) as i32;
    let shift_bits = !below & hand;
    let keep = below & hand | !hand;
    lemma_bits_shift(own_of(b, is_player1), keep, shift_bits);
    lemma_bits_shift(b.kb, keep, shift_bits);
    lemma_bits_shift(b.zb, keep, shift_bits);
    lemma_bits_shift(b.hb, keep, shift_bits);
}

/// The bounds of the bitboards after a move, from those of the move's
/// bitboards and of the position.
proof fn lemma_moved_board_bounds(b: BitBoard, mv: (i32, i32), is_player1: bool)
    ensures
        b.non_negative() && mv.0 >= 0 && mv.1 >= 0 ==> moved_board(b, mv, is_player1).non_negative(),
        b.in_range() && 0 <= mv.0 < 0x100_0000 && 0 <= mv.1 < 0x100_0000 && own_of(b, is_player1)
            & hand_mask(is_player1) != hand_mask(is_player1) ==> moved_board(
            b,
            mv,
            is_player1,
        ).in_range(),
{
    reveal(moved_board);
    let src = mv.0;
    let dst = mv.1;
    lemma_bits_update(own_of(b, is_player1), src, dst);
    if src & hand_mask(is_player1) != 0 {
        let b1 = with_own(b, is_player1, own_of(b, is_player1) & !src | dst);
        lemma_relocate_kind_bounds(b1, src, dst, is_player1);
        lemma_close_hand_bounds(relocate_kind(b1, src, dst, is_player1), src, is_player1);
    } else {
        lemma_capture_at_bounds(b, dst, is_player1);
        let b1 = if opp_of(b, is_player1) & dst != 0 {
            capture_at(b, dst, is_player1)
        } else {
            b
        };
        lemma_bits_update(own_of(b1, is_player1), src, dst);
        let b2 = with_own(b1, is_player1, own_of(b1, is_player1) & !src | dst);
        lemma_relocate_kind_bounds(b2, src, dst, is_player1);
    }
}

/// A move keeps every bitboard non-negative, for any non-negative `src` and
/// `dst`.
pub proof fn lemma_moved_board_non_negative(b: BitBoard, mv: (i32, i32), is_player1: bool)
    requires
        b.non_negative(),
        mv.0 >= 0,
        mv.1 >= 0,
    ensures
        moved_board(b, mv, is_player1).non_negative(),
{
    lemma_moved_board_bounds(b, mv, is_player1);
}

/// A move keeps every bitboard within the 24 squares and hand slots when
/// `src` and `dst` lie there and the mover's hand is not full.
pub proof fn lemma_moved_board_in_range(b: BitBoard, mv: (i32, i32), is_player1: bool)
    requires
        b.in_range(),
        0 <= mv.0 < 0x100_0000,
        0 <= mv.1 < 0x100_0000,
        own_of(b, is_player1) & hand_mask(is_player1) != hand_mask(is_player1),
    ensures
        moved_board(b, mv, is_player1).in_range(),
{
    lemma_moved_board_bounds(b, mv, is_player1);
}

proof fn lemma_bits_place(x: i32, s: i32, d: i32)
    by (bit_vector)
    ensures
        ((x & !s | d) & d) == d,
        ((x & !s | d) & s) == (s & d),
        ((x & !d) & d) == 0,
{
}

proof fn lemma_bits_keep_board(x: i32, d: i32, below: i32, h: i32, y: i32)
    by (bit_vector)
    requires
        (x & d) == d,
        (d & h) == 0,
    ensures
        (((x & (below & h | !h)) | y) & d) == d,
{
}

proof fn lemma_bits_board_not_hand(d: i32, h: i32)
    by (bit_vector)
    requires
        (d & !0xfffi32) == 0,
        h == 0x3f000i32 || h == 0xfc0000i32,
    ensures
        (d & h) == 0,
{
}

/// After a move to a square of the board, the mover occupies that square.
pub proof fn lemma_move_occupies_dst(b: BitBoard, mv: (i32, i32), is_player1: bool)
    requires
        mv.1 & !BOARD_MASK == 0,
    ensures
        own_of(moved_board(b, mv, is_player1), is_player1) & mv.1 == mv.1,
{
    reveal(moved_board);
    let src = mv.0;
    let dst = mv.1;
    if src & hand_mask(is_player1) != 0 {
        let own1 = own_of(b, is_player1) & !src | dst;
        lemma_bits_place(own_of(b, is_player1), src, dst);
        let b1 = with_own(b, is_player1, own1);
        let b2 = relocate_kind(b1, src, dst, is_player1);
        assert(own_of(b2, is_player1) == own1);
        let hand = hand_mask(is_player1);
        let below = (src - 1) as i32;
        let shift_bits = !below & hand;
        lemma_bits_board_not_hand(dst, hand);
        lemma_bits_keep_board(own1, dst, below, hand, (own1 & shift_bits) >> 1);
    } else {
        let b1 = if opp_of(b, is_player1) & dst != 0 {
            capture_at(b, dst, is_player1)
        } else {
            b
        };
        lemma_bits_place(own_of(b1, is_player1), src, dst);
    }
}

/// A move on the board (from a source outside the mover's hand) leaves the
/// opponent nothing on the destination, and leaves the mover nothing on the
/// source unless the source is also the destination.
pub proof fn lemma_board_move_vacates(b: BitBoard, mv: (i32, i32), is_player1: bool)
    requires
        mv.0 & hand_mask(is_player1) == 0,
    ensures
        opp_of(moved_board(b, mv, is_player1), is_player1) & mv.1 == 0,
        own_of(moved_board(b, mv, is_player1), is_player1) & mv.0 == mv.0 & mv.1,
{
    reveal(moved_board);
    let src = mv.0;
    let dst = mv.1;
    lemma_bits_place(opp_of(b, is_player1), src, dst);
    let b1 = if opp_of(b, is_player1) & dst != 0 {
        capture_at(b, dst, is_player1)
    } else {
        b
    };
    lemma_bits_place(own_of(b1, is_player1), src, dst);
}

} // verus!
