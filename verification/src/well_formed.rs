use vstd::prelude::*;

use crate::bit_board::{BitBoard, D_HAND_MASK, E_HAND_MASK, sq_bit, own_of, opp_of, hand_mask, hand_base, try_mask};
use crate::eval::{WIN_POINT, judge_score};
use crate::movegen::{single_bit, move_list, is_sound_move, is_board_move, is_drop, adjacent, lemma_move_list_sound};
use crate::moves::{moved_board, capture_at, relocate_kind, close_hand, with_own, with_opp, capture_slot, lemma_bits_slot};

verus! {

/// The occupied slots `x` of a hand form one block that starts at the
/// hand's first slot `base`.
pub open spec fn hand_packed(x: i32, base: i32) -> bool {
    (x & ((x + base) as i32)) == 0
}

/// A consistent position, seen from the mover (`own`, whose hand is `h_own`
/// starting at slot `base_own`) and the opponent: every bitboard lies within
/// the 24 squares and slots; no square holds pieces of both players or of
/// two kinds; the squares with a piece are exactly those with an owner; each
/// player's pieces in hand lie in that player's hand, packed from its first
/// slot; lions and hens are never in hand.
pub open spec fn wf_bits(
    own: i32,
    opp: i32,
    lb: i32,
    kb: i32,
    zb: i32,
    hb: i32,
    nb: i32,
    h_own: i32,
    base_own: i32,
    h_opp: i32,
    base_opp: i32,
) -> bool {
    &&& 0 <= own < 0x100_0000
    &&& 0 <= opp < 0x100_0000
    &&& 0 <= lb < 0x100_0000
    &&& 0 <= kb < 0x100_0000
    &&& 0 <= zb < 0x100_0000
    &&& 0 <= hb < 0x100_0000
    &&& 0 <= nb < 0x100_0000
    &&& own & opp == 0
    &&& lb & kb == 0
    &&& lb & zb == 0
    &&& lb & hb == 0
    &&& lb & nb == 0
    &&& kb & zb == 0
    &&& kb & hb == 0
    &&& kb & nb == 0
    &&& zb & hb == 0
    &&& zb & nb == 0
    &&& hb & nb == 0
    &&& own | opp == lb | kb | zb | hb | nb
    &&& own & h_opp == 0
    &&& opp & h_own == 0
    &&& hand_packed(own & h_own, base_own)
    &&& hand_packed(opp & h_opp, base_opp)
    &&& (lb | nb) & (h_own | h_opp) == 0
}

/// The hand masks and first slots of the mover and of the opponent.
pub open spec fn hand_params(h_own: i32, base_own: i32, h_opp: i32, base_opp: i32) -> bool {
    ||| h_own == 0x3f000i32 && base_own == 0x1000i32 && h_opp == 0xfc0000i32 && base_opp == 0x40000i32
    ||| h_own == 0xfc0000i32 && base_own == 0x40000i32 && h_opp == 0x3f000i32 && base_opp == 0x1000i32
}

/// A consistent position (see `wf_bits`).
pub open spec fn well_formed(b: BitBoard) -> bool {
    wf_bits(b.pb1, b.pb2, b.lb, b.kb, b.zb, b.hb, b.nb, D_HAND_MASK, 0x1000, E_HAND_MASK, 0x40000)
}

/// A piece of the mover moves from board square `src` to the empty board
/// square `dst`, a chick reaching the promotion rank `t_mask` becoming a hen.
proof fn lemma_wf_step(
    own: i32,
    opp: i32,
    lb: i32,
    kb: i32,
    zb: i32,
    hb: i32,
    nb: i32,
    h_own: i32,
    base_own: i32,
    h_opp: i32,
    base_opp: i32,
    t_mask: i32,
    src: i32,
    dst: i32,
    own2: i32,
    lb2: i32,
    kb2: i32,
    zb2: i32,
    hb2: i32,
    nb2: i32,
)
    by (bit_vector)
    requires
        wf_bits(own, opp, lb, kb, zb, hb, nb, h_own, base_own, h_opp, base_opp),
        hand_params(h_own, base_own, h_opp, base_opp),
        t_mask == 0x7i32 || t_mask == 0xe00i32,
        single_bit(src),
        src & !0xfffi32 == 0,
        own & src != 0,
        single_bit(dst),
        dst & !0xfffi32 == 0,
        own & dst == 0,
        opp & dst == 0,
        own2 == own & !src | dst,
        hb2 == (if hb & src != 0 {
            if src & h_own == 0 && dst & t_mask != 0 {
                hb & !src
            } else {
                hb & !src | dst
            }
        } else {
            hb
        }),
        nb2 == (if hb & src != 0 {
            if src & h_own == 0 && dst & t_mask != 0 {
                nb | dst
            } else {
                nb
            }
        } else if lb & src != 0 || kb & src != 0 || zb & src != 0 {
            nb
        } else if nb & src != 0 {
            nb & !src | dst
        } else {
            nb
        }),
        lb2 == (if hb & src == 0 && lb & src != 0 {
            lb & !src | dst
        } else {
            lb
        }),
        kb2 == (if hb & src == 0 && lb & src == 0 && kb & src != 0 {
            kb & !src | dst
        } else {
            kb
        }),
        zb2 == (if hb & src == 0 && lb & src == 0 && kb & src == 0 && zb & src != 0 {
            zb & !src | dst
        } else {
            zb
        }),
    ensures
        wf_bits(own2, opp, lb2, kb2, zb2, hb2, nb2, h_own, base_own, h_opp, base_opp),
{
}

/// The opponent's piece (not a lion) on board square `dst` is captured: it
/// leaves the board and goes to the mover's first free hand slot, a hen
/// going back as a chick.
proof fn lemma_wf_capture(
    own: i32,
    opp: i32,
    lb: i32,
    kb: i32,
    zb: i32,
    hb: i32,
    nb: i32,
    h_own: i32,
    base_own: i32,
    h_opp: i32,
    base_opp: i32,
    dst: i32,
    src: i32,
    hp: i32,
    own2: i32,
    opp2: i32,
    lb2: i32,
    kb2: i32,
    zb2: i32,
    hb2: i32,
    nb2: i32,
)
    by (bit_vector)
    requires
        wf_bits(own, opp, lb, kb, zb, hb, nb, h_own, base_own, h_opp, base_opp),
        hand_params(h_own, base_own, h_opp, base_opp),
        single_bit(dst),
        dst & !0xfffi32 == 0,
        opp & dst != 0,
        lb & dst == 0,
        own & h_own != h_own,
        hp == (own & h_own) + base_own,
        own2 == own | hp,
        opp2 == opp & !dst,
        hb2 == (if hb & dst != 0 {
            (hb & !dst) | hp
        } else if lb & dst == 0 && kb & dst == 0 && zb & dst == 0 && nb & dst != 0 {
            hb | hp
        } else {
            hb
        }),
        lb2 == (if hb & dst == 0 && lb & dst != 0 {
            (lb & !dst) | hp
        } else {
            lb
        }),
        kb2 == (if hb & dst == 0 && lb & dst == 0 && kb & dst != 0 {
            (kb & !dst) | hp
        } else {
            kb
        }),
        zb2 == (if hb & dst == 0 && lb & dst == 0 && kb & dst == 0 && zb & dst != 0 {
            (zb & !dst) | hp
        } else {
            zb
        }),
        nb2 == (if hb & dst == 0 && lb & dst == 0 && kb & dst == 0 && zb & dst == 0 && nb & dst != 0 {
            nb & !dst
        } else {
            nb
        }),
    ensures
        wf_bits(own2, opp2, lb2, kb2, zb2, hb2, nb2, h_own, base_own, h_opp, base_opp),
        own2 & dst == 0,
        opp2 & dst == 0,
        own & src != 0 ==> own2 & src != 0,
{
}

/// A chick, elephant or giraffe is dropped from hand slot `src` on the empty
/// board square `dst`, and the mover's pieces in the slots above `src` move
/// one slot down.
proof fn lemma_wf_drop(
    own: i32,
    opp: i32,
    lb: i32,
    kb: i32,
    zb: i32,
    hb: i32,
    nb: i32,
    h_own: i32,
    base_own: i32,
    h_opp: i32,
    base_opp: i32,
    src: i32,
    dst: i32,
    own1: i32,
    kb1: i32,
    zb1: i32,
    hb1: i32,
    own2: i32,
    kb2: i32,
    zb2: i32,
    hb2: i32,
)
    by (bit_vector)
    requires
        wf_bits(own, opp, lb, kb, zb, hb, nb, h_own, base_own, h_opp, base_opp),
        hand_params(h_own, base_own, h_opp, base_opp),
        single_bit(src),
        src & !h_own == 0,
        (hb | zb | kb) & src == src,
        single_bit(dst),
        dst & !0xfffi32 == 0,
        own & dst == 0,
        opp & dst == 0,
        own1 == own & !src | dst,
        hb1 == (if hb & src != 0 {
            hb & !src | dst
        } else {
            hb
        }),
        kb1 == (if hb & src == 0 && lb & src == 0 && kb & src != 0 {
            kb & !src | dst
        } else {
            kb
        }),
        zb1 == (if hb & src == 0 && lb & src == 0 && kb & src == 0 && zb & src != 0 {
            zb & !src | dst
        } else {
            zb
        }),
        own2 == (if (!((src - 1) as i32) & h_own) & own1 != 0 {
            (own1 & (((src - 1) as i32) & h_own | !h_own)) | ((own1 & (!((src - 1) as i32) & h_own)) >> 1)
        } else {
            own1
        }),
        kb2 == (if (!((src - 1) as i32) & h_own) & own1 != 0 {
            (kb1 & (((src - 1) as i32) & h_own | !h_own)) | ((kb1 & (!((src - 1) as i32) & h_own)) >> 1)
        } else {
            kb1
        }),
        zb2 == (if (!((src - 1) as i32) & h_own) & own1 != 0 {
            (zb1 & (((src - 1) as i32) & h_own | !h_own)) | ((zb1 & (!((src - 1) as i32) & h_own)) >> 1)
        } else {
            zb1
        }),
        hb2 == (if (!((src - 1) as i32) & h_own) & own1 != 0 {
            (hb1 & (((src - 1) as i32) & h_own | !h_own)) | ((hb1 & (!((src - 1) as i32) & h_own)) >> 1)
        } else {
            hb1
        }),
    ensures
        wf_bits(own2, opp, lb, kb2, zb2, hb2, nb, h_own, base_own, h_opp, base_opp),
        lb & src == 0,
        nb & src == 0,
{
}

proof fn lemma_wf_swap(
    own: i32,
    opp: i32,
    lb: i32,
    kb: i32,
    zb: i32,
    hb: i32,
    nb: i32,
    h_own: i32,
    base_own: i32,
    h_opp: i32,
    base_opp: i32,
)
    by (bit_vector)
    requires
        wf_bits(own, opp, lb, kb, zb, hb, nb, h_own, base_own, h_opp, base_opp),
    ensures
        wf_bits(opp, own, lb, kb, zb, hb, nb, h_opp, base_opp, h_own, base_own),
{
}

pub(crate) proof fn lemma_square_bits(s: int, x: i32, y: i32)
    requires
        0 <= s < 12,
    ensures
        single_bit(sq_bit(s)),
        sq_bit(s) & !0xfffi32 == 0,
        (x | y) & sq_bit(s) == 0 ==> x & sq_bit(s) == 0 && y & sq_bit(s) == 0,
{
    let u = s as u32;
    let d = sq_bit(s);
    assert(d != 0 && (d & ((d - 1) as i32)) == 0 && d & !0xfffi32 == 0 && ((x | y) & d == 0 ==> x & d == 0
        && y & d == 0)) by (bit_vector)
        requires
            u < 12,
            d == 1i32 << u,
    ;
}

/// The position seen from the player `is_player1` names (see `wf_bits`).
pub open spec fn wf_for(b: BitBoard, is_player1: bool) -> bool {
    wf_bits(
        own_of(b, is_player1),
        opp_of(b, is_player1),
        b.lb,
        b.kb,
        b.zb,
        b.hb,
        b.nb,
        hand_mask(is_player1),
        hand_base(is_player1),
        hand_mask(!is_player1),
        hand_base(!is_player1),
    )
}

pub(crate) proof fn lemma_wf_for(b: BitBoard, is_player1: bool)
    ensures
        well_formed(b) <==> wf_for(b, is_player1),
{
    if !is_player1 {
        if well_formed(b) {
            lemma_wf_swap(b.pb1, b.pb2, b.lb, b.kb, b.zb, b.hb, b.nb, D_HAND_MASK, 0x1000, E_HAND_MASK, 0x40000);
        }
        if wf_for(b, is_player1) {
            lemma_wf_swap(b.pb2, b.pb1, b.lb, b.kb, b.zb, b.hb, b.nb, E_HAND_MASK, 0x40000, D_HAND_MASK, 0x1000);
        }
    }
}

proof fn lemma_step_keeps(b: BitBoard, is_player1: bool, src: i32, dst: i32)
    requires
        wf_for(b, is_player1),
        single_bit(src),
        src & !0xfffi32 == 0,
        own_of(b, is_player1) & src != 0,
        single_bit(dst),
        dst & !0xfffi32 == 0,
        own_of(b, is_player1) & dst == 0,
        opp_of(b, is_player1) & dst == 0,
    ensures
        wf_for(
            relocate_kind(
                with_own(b, is_player1, own_of(b, is_player1) & !src | dst),
                src,
                dst,
                is_player1,
            ),
            is_player1,
        ),
{
    let own = own_of(b, is_player1);
    let b1 = with_own(b, is_player1, own & !src | dst);
    let r = relocate_kind(b1, src, dst, is_player1);
    lemma_wf_step(
        own,
        opp_of(b, is_player1),
        b.lb,
        b.kb,
        b.zb,
        b.hb,
        b.nb,
        hand_mask(is_player1),
        hand_base(is_player1),
        hand_mask(!is_player1),
        hand_base(!is_player1),
        try_mask(is_player1),
        src,
        dst,
        own_of(r, is_player1),
        r.lb,
        r.kb,
        r.zb,
        r.hb,
        r.nb,
    );
}

/// Every listed move that does not capture a lion keeps a consistent
/// position consistent, provided the mover's hand is not full.
pub proof fn lemma_move_keeps_well_formed(b: BitBoard, is_player1: bool, m: (i32, i32))
    requires
        well_formed(b),
        move_list(b, is_player1).contains(m),
        own_of(b, is_player1) & hand_mask(is_player1) != hand_mask(is_player1),
        b.lb & m.1 == 0,
    ensures
        well_formed(moved_board(b, m, is_player1)),
{
    reveal(moved_board);
    lemma_move_list_sound(b, is_player1);
    let i = choose|i: int| 0 <= i < move_list(b, is_player1).len() && move_list(b, is_player1)[i] == m;
    assert(is_sound_move(b, is_player1, move_list(b, is_player1)[i]));
    lemma_wf_for(b, is_player1);
    let own = own_of(b, is_player1);
    let opp = opp_of(b, is_player1);
    let src = m.0;
    let dst = m.1;
    let hand = hand_mask(is_player1);
    if is_board_move(own, m) {
        let (s, t) = choose|s: int, t: int|
            0 <= s < 12 && 0 <= t < 12 && adjacent(s, t) && #[trigger] sq_bit(s) == m.0
                && #[trigger] sq_bit(t) == m.1 && own & m.0 != 0 && own & m.1 == 0;
        lemma_square_bits(s, own, opp);
        lemma_square_bits(t, own, opp);
        assert(src & hand == 0) by {
            let u = s as u32;
            assert((1i32 << u) & hand == 0) by (bit_vector)
                requires
                    u < 12,
                    hand == 0x3f000i32 || hand == 0xfc0000i32,
            ;
        }
        if opp & dst != 0 {
            let hp = capture_slot(b, is_player1);
            let b1 = capture_at(b, dst, is_player1);
            lemma_bits_slot(own, hand, hand_base(is_player1));
            lemma_wf_capture(
                own,
                opp,
                b.lb,
                b.kb,
                b.zb,
                b.hb,
                b.nb,
                hand,
                hand_base(is_player1),
                hand_mask(!is_player1),
                hand_base(!is_player1),
                dst,
                src,
                capture_slot(b, is_player1),
                own_of(b1, is_player1),
                opp_of(b1, is_player1),
                b1.lb,
                b1.kb,
                b1.zb,
                b1.hb,
                b1.nb,
            );
            lemma_step_keeps(b1, is_player1, src, dst);
            lemma_wf_for(moved_board(b, m, is_player1), is_player1);
        } else {
            lemma_step_keeps(b, is_player1, src, dst);
            lemma_wf_for(moved_board(b, m, is_player1), is_player1);
        }
    } else {
        assert(is_drop(b, is_player1, m));
        let t = choose|t: int| 0 <= t < 12 && #[trigger] sq_bit(t) == m.1;
        lemma_square_bits(t, b.pb1, b.pb2);
        lemma_square_bits(t, own, opp);
        assert(src & hand != 0) by (bit_vector)
            requires
                src != 0,
                src & !hand == 0,
        ;
        let b1 = with_own(b, is_player1, own & !src | dst);
        let b2 = relocate_kind(b1, src, dst, is_player1);
        let b3 = close_hand(b2, src, is_player1);
        lemma_wf_drop(
            own,
            opp,
            b.lb,
            b.kb,
            b.zb,
            b.hb,
            b.nb,
            hand,
            hand_base(is_player1),
            hand_mask(!is_player1),
            hand_base(!is_player1),
            src,
            dst,
            own & !src | dst,
            b2.kb,
            b2.zb,
            b2.hb,
            own_of(b3, is_player1),
            b3.kb,
            b3.zb,
            b3.hb,
        );
        lemma_wf_for(moved_board(b, m, is_player1), is_player1);
    }
}

proof fn lemma_lion_capture_bits(
    own: i32,
    opp: i32,
    lb: i32,
    kb: i32,
    zb: i32,
    hb: i32,
    nb: i32,
    h_own: i32,
    base_own: i32,
    h_opp: i32,
    base_opp: i32,
    src: i32,
    dst: i32,
    hp: i32,
    hb1: i32,
    lb1: i32,
    lb2: i32,
)
    by (bit_vector)
    requires
        wf_bits(own, opp, lb, kb, zb, hb, nb, h_own, base_own, h_opp, base_opp),
        hand_params(h_own, base_own, h_opp, base_opp),
        single_bit(dst),
        dst & !0xfffi32 == 0,
        lb & opp == dst,
        own & h_own != h_own,
        single_bit(src),
        src & !0xfffi32 == 0,
        own & src != 0,
        hp == (own & h_own) + base_own,
        hb1 == (if hb & dst != 0 { (hb & !dst) | hp } else { hb }),
        lb1 == (if hb & dst != 0 {
            lb
        } else if lb & dst != 0 {
            (lb & !dst) | hp
        } else {
            lb
        }),
        lb2 == (if hb1 & src == 0 && lb1 & src != 0 {
            lb1 & !src | dst
        } else {
            lb1
        }),
    ensures
        hb & dst == 0,
        lb & dst != 0,
        lb2 & (opp & !dst) == 0,
        lb2 & (((own | hp) & !src) | dst) != 0,
{
}

/// Capturing the opponent's only lion wins: after a listed move of a
/// consistent position onto the square of the opponent's lion (the mover's
/// hand not being full), `judge` scores a win for the mover.
pub proof fn lemma_lion_capture_wins(b: BitBoard, bef: BitBoard, is_player1: bool, m: (i32, i32))
    requires
        well_formed(b),
        move_list(b, is_player1).contains(m),
        own_of(b, is_player1) & hand_mask(is_player1) != hand_mask(is_player1),
        b.lb & opp_of(b, is_player1) == m.1,
    ensures
        judge_score(moved_board(b, m, is_player1), bef, is_player1) == WIN_POINT,
{
    reveal(moved_board);
    lemma_move_list_sound(b, is_player1);
    let i = choose|i: int| 0 <= i < move_list(b, is_player1).len() && move_list(b, is_player1)[i] == m;
    assert(is_sound_move(b, is_player1, move_list(b, is_player1)[i]));
    lemma_wf_for(b, is_player1);
    let own = own_of(b, is_player1);
    let opp = opp_of(b, is_player1);
    let src = m.0;
    let dst = m.1;
    let hand = hand_mask(is_player1);
    if is_board_move(own, m) {
        let (s, t) = choose|s: int, t: int|
            0 <= s < 12 && 0 <= t < 12 && adjacent(s, t) && #[trigger] sq_bit(s) == m.0
                && #[trigger] sq_bit(t) == m.1 && own & m.0 != 0 && own & m.1 == 0;
        lemma_square_bits(s, own, opp);
        lemma_square_bits(t, own, opp);
        let u = s as u32;
        let lb = b.lb;
        assert((1i32 << u) & hand == 0 && (lb & opp == dst && dst != 0 ==> opp & dst != 0)) by (bit_vector)
            requires
                u < 12,
                hand == 0x3f000i32 || hand == 0xfc0000i32,
        ;
        lemma_bits_slot(own, hand, hand_base(is_player1));
        let hp = capture_slot(b, is_player1);
        let b1 = capture_at(b, dst, is_player1);
        assert(lb & dst != 0) by (bit_vector)
            requires
                lb & opp == dst,
                dst != 0,
        ;
        let b0 = with_own(with_opp(b, is_player1, opp & !dst), is_player1, own | hp);
        assert(b0.hb == b.hb && b0.lb == b.lb);
        if b.hb & dst != 0 {
            assert(b1.hb == (b.hb & !dst) | hp && b1.lb == b.lb);
        } else if b.lb & dst != 0 {
            assert(b1.hb == b.hb && b1.lb == (b.lb & !dst) | hp);
        }
        let b2 = with_own(b1, is_player1, own_of(b1, is_player1) & !src | dst);
        let r = relocate_kind(b2, src, dst, is_player1);
        lemma_lion_capture_bits(
            own,
            opp,
            b.lb,
            b.kb,
            b.zb,
            b.hb,
            b.nb,
            hand,
            hand_base(is_player1),
            hand_mask(!is_player1),
            hand_base(!is_player1),
            src,
            dst,
            capture_slot(b, is_player1),
            b1.hb,
            b1.lb,
            r.lb,
        );
        assert(moved_board(b, m, is_player1) == r);
    } else {
        assert(is_drop(b, is_player1, m));
        let t = choose|t: int| 0 <= t < 12 && #[trigger] sq_bit(t) == m.1;
        lemma_square_bits(t, b.pb1, b.pb2);
        let lb = b.lb;
        let pb1 = b.pb1;
        let pb2 = b.pb2;
        assert(lb & opp == dst && dst != 0 ==> (pb1 | pb2) & dst != 0) by (bit_vector)
            requires
                opp == pb1 || opp == pb2,
        ;
    }
}

} // verus!
