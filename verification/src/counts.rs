use vstd::prelude::*;

use crate::bit_board::{BitBoard, sq_bit, own_of, opp_of, hand_mask, hand_base};
use crate::moves::{moved_board, with_own, relocate_kind, capture_at, capture_slot, close_hand, lemma_bits_slot,
    lemma_bits_update, lemma_relocate_kind_bounds};
use crate::movegen::{
    single_bit, move_list, is_sound_move, is_board_move, is_drop, adjacent, lemma_move_list_sound,
};
use crate::well_formed::{wf_bits, hand_params, well_formed, wf_for, lemma_wf_for, lemma_square_bits, lemma_move_keeps_well_formed};
use crate::mirror::lemma_bit_clear;

verus! {

/// The number of set bits among bits `i..24` of `x`.
pub open spec fn pop_from(x: i32, i: nat) -> nat
    decreases 24 - i,
{
    if i >= 24 {
        0
    } else {
        (if (x >> (i as u32)) & 1 == 1 { 1nat } else { 0nat }) + pop_from(x, i + 1)
    }
}

/// The number of pieces on the squares and slots of the bitboard `x`.
pub open spec fn pop(x: i32) -> nat {
    pop_from(x, 0)
}

proof fn lemma_bits_at(x: i32, y: i32, k: u32, k1: u32)
    by (bit_vector)
    requires
        k < 24,
        k1 == k + 1,
    ensures
        x & y == 0 ==> ((((x | y) >> k) & 1 == 1) == ((x >> k) & 1 == 1 || (y >> k) & 1 == 1)) && !((x >> k)
            & 1 == 1 && (y >> k) & 1 == 1),
        x != 0 && x & ((x - 1) as i32) == 0 && (x >> k) & 1 == 1 ==> x >> k1 == 0,
        (x >> k) & 1 != 1 ==> ((x >> k != 0) == (x >> k1 != 0)),
        x >> k == 0 ==> (x >> k) & 1 != 1 && x >> k1 == 0,
        (x >> k) & 1 == 1 ==> x >> k != 0,
        ((x >> 1) >> k) & 1 == (x >> k1) & 1,
{
}

proof fn lemma_bits_misc(x: i32, y: i32)
    by (bit_vector)
    ensures
        (x & y) & (x & !y) == 0,
        (x & y) | (x & !y) == x,
        x | y == y | x,
        x & y == y & x,
        x >> 0u32 == x,
        0 <= x < 0x100_0000 ==> x >> 24u32 == 0 && (x >> 24u32) & 1 != 1 && 0 <= x >> 1 < 0x100_0000,
        (((((x >> 1) >> 1) >> 1) >> 1) >> 1) >> 1 == x >> 6,
        x & 0x3f == 0 ==> {
            &&& (x >> 0u32) & 1 != 1
            &&& ((x >> 1) >> 0u32) & 1 != 1
            &&& (((x >> 1) >> 1) >> 0u32) & 1 != 1
            &&& ((((x >> 1) >> 1) >> 1) >> 0u32) & 1 != 1
            &&& (((((x >> 1) >> 1) >> 1) >> 1) >> 0u32) & 1 != 1
            &&& ((((((x >> 1) >> 1) >> 1) >> 1) >> 1) >> 0u32) & 1 != 1
        },
{
}

proof fn lemma_pop_disjoint_from(x: i32, y: i32, i: nat)
    requires
        x & y == 0,
    ensures
        pop_from(x | y, i) == pop_from(x, i) + pop_from(y, i),
    decreases 24 - i,
{
    if i < 24 {
        lemma_bits_at(x, y, i as u32, (i + 1) as u32);
        lemma_pop_disjoint_from(x, y, i + 1);
    }
}

/// Disjoint bitboards: the pieces of the union are those of both.
pub proof fn lemma_pop_disjoint(x: i32, y: i32)
    requires
        x & y == 0,
    ensures
        pop(x | y) == pop(x) + pop(y),
{
    lemma_pop_disjoint_from(x, y, 0);
}

/// The pieces of `x` are those in `y` and those outside `y`.
pub proof fn lemma_pop_split(x: i32, y: i32)
    ensures
        pop(x) == pop(x & y) + pop(x & !y),
{
    lemma_bits_misc(x, y);
    lemma_pop_disjoint(x & y, x & !y);
}

proof fn lemma_pop_zero_from(x: i32, i: nat)
    requires
        i <= 24,
        x >> (i as u32) == 0,
    ensures
        pop_from(x, i) == 0,
    decreases 24 - i,
{
    if i < 24 {
        lemma_bits_at(x, 0, i as u32, (i + 1) as u32);
        lemma_pop_zero_from(x, i + 1);
    }
}

proof fn lemma_pop_single_from(s: i32, i: nat)
    requires
        s != 0,
        s & ((s - 1) as i32) == 0,
        0 <= s < 0x100_0000,
        i <= 24,
    ensures
        pop_from(s, i) == (if s >> (i as u32) != 0 { 1nat } else { 0nat }),
    decreases 24 - i,
{
    if i < 24 {
        lemma_bits_at(s, 0, i as u32, (i + 1) as u32);
        if (s >> (i as u32)) & 1 == 1 {
            lemma_pop_zero_from(s, i + 1);
        } else {
            lemma_pop_single_from(s, i + 1);
        }
    } else {
        lemma_bits_misc(s, 0);
    }
}

/// A single square or slot holds one piece.
pub proof fn lemma_pop_single(s: i32)
    requires
        s != 0,
        s & ((s - 1) as i32) == 0,
        0 <= s < 0x100_0000,
    ensures
        pop(s) == 1,
{
    lemma_pop_single_from(s, 0);
    lemma_bits_misc(s, 0);
}

/// Moving one piece of `x` from `s` to a square `d` it does not hold keeps
/// the number of pieces.
pub proof fn lemma_pop_update(x: i32, s: i32, d: i32)
    requires
        s != 0,
        s & ((s - 1) as i32) == 0,
        0 <= s < 0x100_0000,
        d != 0,
        d & ((d - 1) as i32) == 0,
        0 <= d < 0x100_0000,
        x & s == s,
        (x & !s) & d == 0,
    ensures
        pop(x & !s | d) == pop(x),
{
    lemma_pop_split(x, s);
    lemma_pop_single(s);
    lemma_pop_single(d);
    lemma_pop_disjoint(x & !s, d);
}

proof fn lemma_pop_shift_from(y: i32, i: nat)
    requires
        0 <= y < 0x100_0000,
        i < 24,
    ensures
        pop_from(y >> 1, i) == pop_from(y, i + 1),
    decreases 24 - i,
{
    let k = i as u32;
    let k1 = (i + 1) as u32;
    lemma_bits_at(y, 0, k, k1);
    assert(pop_from(y >> 1, i) == (if ((y >> 1) >> k) & 1 == 1 { 1nat } else { 0nat }) + pop_from(y >> 1, i + 1));
    if i + 1 < 24 {
        lemma_pop_shift_from(y, i + 1);
        assert(pop_from(y, i + 1) == (if (y >> k1) & 1 == 1 { 1nat } else { 0nat }) + pop_from(y, i + 2));
    } else {
        lemma_bits_misc(y, 0);
    }
}

/// After a drop from the hand slot `src` (the hand being `h`), the pieces of
/// `x` above `src` move one slot down: the number of pieces is kept.
pub proof fn lemma_pop_close(x: i32, src: i32, h: i32)
    requires
        0 <= x < 0x100_0000,
        h == 0x3f000 || h == 0xfc0000,
        src != 0,
        src & ((src - 1) as i32) == 0,
        src & h == src,
        x & src == 0,
    ensures
        ({
            let below = (src - 1) as i32;
            let keep = below & h | !h;
            let shift = !below & h;
            pop((x & keep) | ((x & shift) >> 1)) == pop(x)
        }),
{
    let below = (src - 1) as i32;
    let keep = below & h | !h;
    let shift = !below & h;
    let y = x & shift;
    assert(((x & keep) & (y >> 1)) == 0 && x & keep == x & !shift && 0 <= y < 0x100_0000 && (y >> 0u32) & 1
        != 1 && y >> 0u32 == y) by (bit_vector)
        requires
            0 <= x < 0x100_0000,
            h == 0x3f000 || h == 0xfc0000,
            src != 0,
            src & ((src - 1) as i32) == 0,
            src & h == src,
            x & src == 0,
            below == (src - 1) as i32,
            keep == below & h | !h,
            shift == !below & h,
            y == x & shift,
    ;
    lemma_pop_disjoint(x & keep, y >> 1);
    lemma_pop_shift_from(y, 0);
    lemma_pop_split(x, shift);
}

/// The numbers of pieces of `a` and `b` agree: pieces on the board and in
/// hand, lions, giraffes, elephants, and chicks and hens together.
pub open spec fn same_counts(a: BitBoard, b: BitBoard) -> bool {
    &&& pop(a.pb1 | a.pb2) == pop(b.pb1 | b.pb2)
    &&& pop(a.lb) == pop(b.lb)
    &&& pop(a.kb) == pop(b.kb)
    &&& pop(a.zb) == pop(b.zb)
    &&& pop(a.hb | a.nb) == pop(b.hb | b.nb)
}

proof fn lemma_move_bits(x: i32, y: i32, s: i32, d: i32)
    by (bit_vector)
    requires
        s != 0,
        s & ((s - 1) as i32) == 0,
        d != 0,
        d & ((d - 1) as i32) == 0,
        s != d,
    ensures
        x & s != 0 ==> x & s == s,
        x & s != 0 && x & d == 0 ==> (x & !s) & d == 0 && ((x & !s) | d) & s == 0 && x & !s | d == (x & !s) | d,
        x & s != 0 && x & y == 0 ==> y & s == 0,
        x & d == 0 && y & d == 0 ==> (x | y) & d == 0 && (y | x) & d == 0,
        x & s != 0 && y & s == 0 && (x | y) & d == 0 ==> {
            &&& (x & !s | d) | y == ((x | y) & !s) | d
            &&& y | (x & !s | d) == ((y | x) & !s) | d
            &&& (x | y) & s == s
            &&& (y | x) & s == s
            &&& ((x | y) & !s) & d == 0
            &&& ((y | x) & !s) & d == 0
            &&& (x & !s) | (y | d) == ((x | y) & !s) | d
            &&& (y | d) | (x & !s) == ((y | x) & !s) | d
        },
{
}

/// One piece of the mover moves from `src` to the empty `dst`: the numbers
/// of pieces are kept.
proof fn lemma_count_step(b: BitBoard, src: i32, dst: i32, is_player1: bool)
    requires
        single_bit(src),
        single_bit(dst),
        0 <= src < 0x100_0000,
        0 <= dst < 0x100_0000,
        src != dst,
        own_of(b, is_player1) & src != 0,
        b.pb1 & b.pb2 == 0,
        b.hb & b.nb == 0,
        (b.pb1 | b.pb2) & dst == 0,
        (b.pb2 | b.pb1) & dst == 0,
        b.lb & dst == 0,
        b.kb & dst == 0,
        b.zb & dst == 0,
        (b.hb | b.nb) & dst == 0,
    ensures
        same_counts(
            relocate_kind(with_own(b, is_player1, own_of(b, is_player1) & !src | dst), src, dst, is_player1),
            b,
        ),
{
    let own = own_of(b, is_player1);
    let opp = opp_of(b, is_player1);
    lemma_bits_misc(b.pb1, b.pb2);
    lemma_move_bits(own, opp, src, dst);
    let b1 = with_own(b, is_player1, own & !src | dst);
    assert(pop(b1.pb1 | b1.pb2) == pop(b.pb1 | b.pb2)) by {
        if is_player1 {
            assert(b1.pb1 | b1.pb2 == ((b.pb1 | b.pb2) & !src) | dst);
            lemma_pop_update(b.pb1 | b.pb2, src, dst);
        } else {
            lemma_pop_update(b.pb1 | b.pb2, src, dst);
        }
    }
    if b1.hb & src != 0 {
        lemma_move_bits(b.hb, b.nb, src, dst);
        lemma_pop_update(b.hb | b.nb, src, dst);
    } else if b1.lb & src != 0 {
        lemma_move_bits(b.lb, 0, src, dst);
        lemma_pop_update(b.lb, src, dst);
    } else if b1.kb & src != 0 {
        lemma_move_bits(b.kb, 0, src, dst);
        lemma_pop_update(b.kb, src, dst);
    } else if b1.zb & src != 0 {
        lemma_move_bits(b.zb, 0, src, dst);
        lemma_pop_update(b.zb, src, dst);
    } else if b1.nb & src != 0 {
        lemma_bits_misc(b.hb, b.nb);
        lemma_move_bits(b.nb, b.hb, src, dst);
        lemma_pop_update(b.nb | b.hb, src, dst);
    }
}

/// The mover captures the opponent's piece on `dst`, which goes to the
/// empty hand slot `capture_slot`: the numbers of pieces are kept.
proof fn lemma_count_capture(b: BitBoard, dst: i32, is_player1: bool)
    requires
        single_bit(dst),
        0 <= dst < 0x100_0000,
        single_bit(capture_slot(b, is_player1)),
        0 <= capture_slot(b, is_player1) < 0x100_0000,
        dst != capture_slot(b, is_player1),
        opp_of(b, is_player1) & dst != 0,
        own_of(b, is_player1) & dst == 0,
        b.hb & b.nb == 0,
        b.pb1 & capture_slot(b, is_player1) == 0,
        b.pb2 & capture_slot(b, is_player1) == 0,
        b.lb & capture_slot(b, is_player1) == 0,
        b.kb & capture_slot(b, is_player1) == 0,
        b.zb & capture_slot(b, is_player1) == 0,
        b.hb & capture_slot(b, is_player1) == 0,
        b.nb & capture_slot(b, is_player1) == 0,
    ensures
        same_counts(capture_at(b, dst, is_player1), b),
{
    let own = own_of(b, is_player1);
    let opp = opp_of(b, is_player1);
    let hp = capture_slot(b, is_player1);
    lemma_move_bits(opp, own, dst, hp);
    lemma_move_bits(b.hb, b.nb, dst, hp);
    lemma_move_bits(b.nb, b.hb, dst, hp);
    lemma_bits_misc(b.hb, b.nb);
    lemma_pop_update(b.pb1 | b.pb2, dst, hp);
    if b.hb & dst != 0 {
        lemma_pop_update(b.hb | b.nb, dst, hp);
    } else if b.lb & dst != 0 {
        lemma_move_bits(b.lb, 0, dst, hp);
        lemma_pop_update(b.lb, dst, hp);
    } else if b.kb & dst != 0 {
        lemma_move_bits(b.kb, 0, dst, hp);
        lemma_pop_update(b.kb, dst, hp);
    } else if b.zb & dst != 0 {
        lemma_move_bits(b.zb, 0, dst, hp);
        lemma_pop_update(b.zb, dst, hp);
    } else if b.nb & dst != 0 {
        lemma_pop_update(b.nb | b.hb, dst, hp);
    }
}

proof fn lemma_empty_square_bits(
    own: i32,
    opp: i32,
    lb: i32,
    kb: i32,
    zb: i32,
    hb: i32,
    nb: i32,
    h_own: i32,
    base_own: i32,
    h_opp: i32,
    base_opp: i32,
    s: i32,
    d: i32,
)
    by (bit_vector)
    requires
        wf_bits(own, opp, lb, kb, zb, hb, nb, h_own, base_own, h_opp, base_opp),
        hand_params(h_own, base_own, h_opp, base_opp),
        single_bit(d),
        d & !0xfffi32 == 0,
        own & d == 0,
        opp & d == 0,
        single_bit(s),
        s & !0xfffi32 == 0 || s & !h_own == 0,
    ensures
        0 <= d < 0x100_0000,
        0 <= s < 0x100_0000,
        s & !h_own == 0 || own & s != 0 ==> s != d,
        own & opp == 0,
        hb & nb == 0,
        (own | opp) & d == 0,
        (opp | own) & d == 0,
        lb & d == 0,
        kb & d == 0,
        zb & d == 0,
        (hb | nb) & d == 0,
        (hb | zb | kb) & s == s && s & !h_own == 0 ==> own & s != 0,
        (own & !s | d) & opp == 0,
        (hb & !s | d) & nb == 0,
        s & !h_own == 0 ==> lb & s == 0 && nb & s == 0,
{
}

proof fn lemma_capture_bits(
    own: i32,
    opp: i32,
    lb: i32,
    kb: i32,
    zb: i32,
    hb: i32,
    nb: i32,
    h_own: i32,
    base_own: i32,
    h_opp: i32,
    base_opp: i32,
    dst: i32,
    src: i32,
    hp: i32,
    own2: i32,
    opp2: i32,
    lb2: i32,
    kb2: i32,
    zb2: i32,
    hb2: i32,
    nb2: i32,
)
    by (bit_vector)
    requires
        wf_bits(own, opp, lb, kb, zb, hb, nb, h_own, base_own, h_opp, base_opp),
        hand_params(h_own, base_own, h_opp, base_opp),
        single_bit(dst),
        dst & !0xfffi32 == 0,
        single_bit(src),
        src & !0xfffi32 == 0,
        own & src != 0,
        own & dst == 0,
        opp & dst != 0,
        own & h_own != h_own,
        hp == (own & h_own) + base_own,
        own2 == own | hp,
        opp2 == opp & !dst,
        hb2 == (if hb & dst != 0 {
            (hb & !dst) | hp
        } else if lb & dst == 0 && kb & dst == 0 && zb & dst == 0 && nb & dst != 0 {
            hb | hp
        } else {
            hb
        }),
        lb2 == (if hb & dst == 0 && lb & dst != 0 {
            (lb & !dst) | hp
        } else {
            lb
        }),
        kb2 == (if hb & dst == 0 && lb & dst == 0 && kb & dst != 0 {
            (kb & !dst) | hp
        } else {
            kb
        }),
        zb2 == (if hb & dst == 0 && lb & dst == 0 && kb & dst == 0 && zb & dst != 0 {
            (zb & !dst) | hp
        } else {
            zb
        }),
        nb2 == (if hb & dst == 0 && lb & dst == 0 && kb & dst == 0 && zb & dst == 0 && nb & dst != 0 {
            nb & !dst
        } else {
            nb
        }),
    ensures
        single_bit(hp),
        0 <= hp < 0x100_0000,
        0 <= dst < 0x100_0000,
        0 <= src < 0x100_0000,
        hp != dst,
        src != dst,
        own & hp == 0,
        opp & hp == 0,
        lb & hp == 0,
        kb & hp == 0,
        zb & hp == 0,
        hb & hp == 0,
        nb & hp == 0,
        hb & nb == 0,
        own2 & src != 0,
        own2 & opp2 == 0,
        opp2 & own2 == 0,
        hb2 & nb2 == 0,
        (own2 | opp2) & dst == 0,
        (opp2 | own2) & dst == 0,
        lb2 & dst == 0,
        kb2 & dst == 0,
        zb2 & dst == 0,
        (hb2 | nb2) & dst == 0,
{
}

/// Every listed move of a consistent position, by a player whose hand is not
/// full, keeps the numbers of pieces: on the board and in hand together,
/// lions, giraffes, elephants, and chicks and hens together (a captured piece
/// changes sides, a promoted chick becomes a hen, a dropped piece leaves the
/// hand for the board).
pub proof fn lemma_move_keeps_counts(b: BitBoard, is_player1: bool, m: (i32, i32))
    requires
        well_formed(b),
        move_list(b, is_player1).contains(m),
        own_of(b, is_player1) & hand_mask(is_player1) != hand_mask(is_player1),
    ensures
        same_counts(moved_board(b, m, is_player1), b),
{
    reveal(moved_board);
    lemma_move_list_sound(b, is_player1);
    let i = choose|i: int| 0 <= i < move_list(b, is_player1).len() && move_list(b, is_player1)[i] == m;
    assert(is_sound_move(b, is_player1, move_list(b, is_player1)[i]));
    lemma_wf_for(b, is_player1);
    let own = own_of(b, is_player1);
    let opp = opp_of(b, is_player1);
    let src = m.0;
    let dst = m.1;
    let hand = hand_mask(is_player1);
    lemma_bits_misc(b.pb1, b.pb2);
    if is_board_move(own, m) {
        let (s, t) = choose|s: int, t: int|
            0 <= s < 12 && 0 <= t < 12 && adjacent(s, t) && #[trigger] sq_bit(s) == m.0
                && #[trigger] sq_bit(t) == m.1 && own & m.0 != 0 && own & m.1 == 0;
        lemma_square_bits(s, own, opp);
        lemma_square_bits(t, own, opp);
        assert(src & hand == 0) by {
            let u = s as u32;
            assert((1i32 << u) & hand == 0) by (bit_vector)
                requires
                    u < 12,
                    hand == 0x3f000i32 || hand == 0xfc0000i32,
            ;
        }
        if opp & dst != 0 {
            let b1 = capture_at(b, dst, is_player1);
            lemma_bits_slot(own, hand, hand_base(is_player1));
            lemma_capture_bits(
                own,
                opp,
                b.lb,
                b.kb,
                b.zb,
                b.hb,
                b.nb,
                hand,
                hand_base(is_player1),
                hand_mask(!is_player1),
                hand_base(!is_player1),
                dst,
                src,
                capture_slot(b, is_player1),
                own_of(b1, is_player1),
                opp_of(b1, is_player1),
                b1.lb,
                b1.kb,
                b1.zb,
                b1.hb,
                b1.nb,
            );
            lemma_count_capture(b, dst, is_player1);
            lemma_bits_misc(b1.pb1, b1.pb2);
            lemma_count_step(b1, src, dst, is_player1);
        } else {
            lemma_empty_square_bits(
                own,
                opp,
                b.lb,
                b.kb,
                b.zb,
                b.hb,
                b.nb,
                hand,
                hand_base(is_player1),
                hand_mask(!is_player1),
                hand_base(!is_player1),
                src,
                dst,
            );
            lemma_count_step(b, src, dst, is_player1);
        }
    } else {
        assert(is_drop(b, is_player1, m));
        let t = choose|t: int| 0 <= t < 12 && #[trigger] sq_bit(t) == m.1;
        lemma_square_bits(t, b.pb1, b.pb2);
        lemma_square_bits(t, own, opp);
        lemma_empty_square_bits(
            own,
            opp,
            b.lb,
            b.kb,
            b.zb,
            b.hb,
            b.nb,
            hand,
            hand_base(is_player1),
            hand_mask(!is_player1),
            hand_base(!is_player1),
            src,
            dst,
        );
        lemma_count_step(b, src, dst, is_player1);
        let b1 = with_own(b, is_player1, own & !src | dst);
        let b2 = relocate_kind(b1, src, dst, is_player1);
        let b3 = close_hand(b2, src, is_player1);
        lemma_bits_update(own, src, dst);
        lemma_relocate_kind_bounds(b1, src, dst, is_player1);
        assert(src & hand == src) by (bit_vector)
            requires
                src != 0,
                src & !hand == 0,
        ;
        lemma_bit_clear(own, 0, src, dst);
        lemma_bit_clear(b.hb, b.lb, src, dst);
        lemma_bit_clear(b.hb, b.kb, src, dst);
        lemma_bit_clear(b.hb, b.zb, src, dst);
        lemma_bit_clear(b.lb, b.kb, src, dst);
        lemma_bit_clear(b.lb, b.zb, src, dst);
        lemma_bit_clear(b.lb, b.hb, src, dst);
        lemma_bit_clear(b.kb, b.zb, src, dst);
        lemma_bit_clear(b.kb, b.hb, src, dst);
        lemma_bit_clear(b.zb, b.kb, src, dst);
        lemma_bit_clear(b.zb, b.hb, src, dst);
        lemma_bit_clear(b.nb, b.kb, src, dst);
        lemma_bit_clear(b.nb, b.zb, src, dst);
        lemma_bit_clear(b.nb, b.hb, src, dst);
        let own2 = own_of(b2, is_player1);
        assert(own2 & src == 0);
        assert(b2.kb & src == 0);
        assert(b2.zb & src == 0);
        assert(b2.hb & src == 0);
        assert(b2.nb == b.nb && b2.lb == b.lb);
        assert(own2 & opp == 0);
        assert(b2.hb & b2.nb == 0);
        lemma_move_keeps_well_formed(b, is_player1, m);
        lemma_wf_for(b3, is_player1);
        let below = (src - 1) as i32;
        let shift_bits = !below & hand;
        if shift_bits & own2 != 0 {
            lemma_pop_close(own2, src, hand);
            lemma_pop_close(b2.kb, src, hand);
            lemma_pop_close(b2.zb, src, hand);
            lemma_pop_close(b2.hb, src, hand);
            let own3 = own_of(b3, is_player1);
            lemma_bits_misc(own3, opp);
            lemma_bits_misc(own2, opp);
            lemma_pop_disjoint(own3, opp);
            lemma_pop_disjoint(opp, own3);
            lemma_pop_disjoint(own2, opp);
            lemma_pop_disjoint(opp, own2);
            lemma_pop_disjoint(b3.hb, b3.nb);
            lemma_pop_disjoint(b2.hb, b2.nb);
        }
    }
}

proof fn lemma_pop_shift_one(y: i32)
    requires
        0 <= y < 0x100_0000,
        (y >> 0u32) & 1 != 1,
    ensures
        pop(y >> 1) == pop(y),
        0 <= y >> 1 < 0x100_0000,
{
    lemma_pop_shift_from(y, 0);
    lemma_bits_misc(y, 0);
}

/// Moving the pieces of `y` six slots down, when its lowest six slots are
/// empty, keeps their number.
pub proof fn lemma_pop_shift_six(y: i32)
    requires
        0 <= y < 0x100_0000,
        y & 0x3f == 0,
    ensures
        pop(y >> 6) == pop(y),
{
    lemma_bits_misc(y, 0);
    let y1 = y >> 1;
    let y2 = y1 >> 1;
    let y3 = y2 >> 1;
    let y4 = y3 >> 1;
    let y5 = y4 >> 1;
    lemma_pop_shift_one(y);
    lemma_pop_shift_one(y1);
    lemma_pop_shift_one(y2);
    lemma_pop_shift_one(y3);
    lemma_pop_shift_one(y4);
    lemma_pop_shift_one(y5);
}

} // verus!
