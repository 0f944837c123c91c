use vstd::prelude::*;
use vstd::multiset::Multiset;

use crate::bit_board::{BitBoard, sq_bit, own_of, opp_of, hand_mask, hand_base};
use crate::movegen::{
    single_bit, step, piece_moves, find_square, square_moves, lowest_bit, kind_moves, small_steps,
    chick_dirs, elephant_dirs, giraffe_dirs, lion_dirs, hen_dirs, drop_square, drop_targets, drop_moves,
    move_list,
};
use crate::moves::{
    moved_board, with_own, with_opp, relocate_kind, capture_at, capture_slot, close_hand,
    lemma_relocate_kind_bounds, lemma_capture_at_bounds,
};
use crate::well_formed::well_formed;
use crate::eval::judge_score;
use crate::protocol::{depth_for, lemma_search_depth_rule};
use crate::counts::lemma_pop_shift_six;

verus! {

/// The square or slot `x` seen from the other side: rank `r` of the board
/// becomes rank `3 - r` (the file is kept), and the two hands are swapped.
pub open spec fn flip(x: i32) -> i32 {
    ((x & 0x7) << 9u32) | ((x >> 9u32) & 0x7) | ((x & 0x38) << 3u32) | ((x >> 3u32) & 0x38) | ((
    x & 0x3f000) << 6u32) | ((x >> 6u32) & 0x3f000)
}

/// The position seen from the other side: every bitboard is flipped and the
/// two players swap their bitboards.
pub open spec fn flip_board(b: BitBoard) -> BitBoard {
    BitBoard {
        pb1: flip(b.pb2),
        pb2: flip(b.pb1),
        lb: flip(b.lb),
        kb: flip(b.kb),
        zb: flip(b.zb),
        hb: flip(b.hb),
        nb: flip(b.nb),
    }
}

proof fn lemma_flip_ops(x: i32, y: i32)
    by (bit_vector)
    requires
        0 <= x < 0x100_0000,
        0 <= y < 0x100_0000,
    ensures
        0 <= flip(x) < 0x100_0000,
        flip(x & y) == flip(x) & flip(y),
        flip(x | y) == flip(x) | flip(y),
        flip(x & !y) == flip(x) & !flip(y),
        (flip(x) == 0) == (x == 0),
        flip(x) & 0xfc0000 == flip(x & 0x3f000),
        flip(x) & 0x3f000 == flip(x & 0xfc0000),
        flip(x) & 0xe00 == flip(x & 0x7),
        flip(x) & 0x7 == flip(x & 0xe00),
        0 <= x & y < 0x100_0000,
        0 <= x | y < 0x100_0000,
        0 <= x & !y < 0x100_0000,
        flip(flip(x)) == x,
        flip(x) & 0x3f000 == (x & 0xfc0000) >> 6,
        flip(x) & 0xfc0000 == (x & 0x3f000) << 6,
        ((x & 0x3f000) << 6) >> 6 == x & 0x3f000,
        0 <= (x & 0x3f000) << 6 < 0x100_0000,
        ((x & 0x3f000) << 6) & 0x3f == 0,
        (x & 0xfc0000) & 0x3f == 0,
{
}

proof fn lemma_flip_slot(own: i32)
    by (bit_vector)
    requires
        0 <= own < 0x100_0000,
    ensures
        own & 0x3f000 != 0x3f000 ==> 0 <= (own & 0x3f000) + 0x1000 < 0x100_0000 && flip(
            ((own & 0x3f000) + 0x1000) as i32,
        ) == (flip(own) & 0xfc0000) + 0x40000,
        own & 0xfc0000 != 0xfc0000 ==> 0 <= (own & 0xfc0000) + 0x40000 < 0x100_0000 && flip(
            ((own & 0xfc0000) + 0x40000) as i32,
        ) == (flip(own) & 0x3f000) + 0x1000,
{
}

proof fn lemma_flip_close(x: i32, src: i32, h: i32, h2: i32)
    by (bit_vector)
    requires
        0 <= x < 0x100_0000,
        h == 0x3f000 && h2 == 0xfc0000 || h == 0xfc0000 && h2 == 0x3f000,
        src != 0,
        src & ((src - 1) as i32) == 0,
        src & h == src,
        x & src == 0,
    ensures
        ({
            let below = (src - 1) as i32;
            let below2 = (flip(src) - 1) as i32;
            let keep = below & h | !h;
            let shift = !below & h;
            let keep2 = below2 & h2 | !h2;
            let shift2 = !below2 & h2;
            &&& 0 <= (x & keep) | ((x & shift) >> 1) < 0x100_0000
            &&& flip((x & keep) | ((x & shift) >> 1)) == (flip(x) & keep2) | ((flip(x) & shift2) >> 1)
            &&& (shift & x != 0) == (shift2 & flip(x) != 0)
        }),
{
}

proof fn lemma_flip_board_fields(b: BitBoard, is_player1: bool)
    ensures
        own_of(flip_board(b), !is_player1) == flip(own_of(b, is_player1)),
        opp_of(flip_board(b), !is_player1) == flip(opp_of(b, is_player1)),
        forall|v: i32|
            with_own(flip_board(b), !is_player1, flip(v)) == #[trigger] flip_board(with_own(b, is_player1, v)),
{
}

proof fn lemma_flip_masks(x: i32, is_player1: bool)
    requires
        0 <= x < 0x100_0000,
    ensures
        (flip(x) & hand_mask(!is_player1) != 0) == (x & hand_mask(is_player1) != 0),
        (flip(x) & crate::bit_board::try_mask(!is_player1) != 0) == (x & crate::bit_board::try_mask(is_player1) != 0),
{
    lemma_flip_ops(x, 0);
    lemma_flip_ops(x, 0x3f000);
    lemma_flip_ops(x, 0xfc0000);
    lemma_flip_ops(x, 0x7);
    lemma_flip_ops(x, 0xe00);
    lemma_flip_ops(x & 0x3f000, 0);
    lemma_flip_ops(x & 0xfc0000, 0);
    lemma_flip_ops(x & 0x7, 0);
    lemma_flip_ops(x & 0xe00, 0);
}

proof fn lemma_flip_update(x: i32, s: i32, d: i32)
    requires
        0 <= x < 0x100_0000,
        0 <= s < 0x100_0000,
        0 <= d < 0x100_0000,
    ensures
        flip(x & !s | d) == flip(x) & !flip(s) | flip(d),
        flip(x & !s) == flip(x) & !flip(s),
        flip(x | d) == flip(x) | flip(d),
        0 <= x & !s | d < 0x100_0000,
        (flip(x) & flip(s) != 0) == (x & s != 0),
{
    lemma_flip_ops(x, s);
    lemma_flip_ops(x & !s, d);
    lemma_flip_ops(x, d);
    lemma_flip_ops(x & s, 0);
}

proof fn lemma_mirror_relocate(b: BitBoard, src: i32, dst: i32, is_player1: bool)
    requires
        b.in_range(),
        0 <= src < 0x100_0000,
        0 <= dst < 0x100_0000,
    ensures
        relocate_kind(flip_board(b), flip(src), flip(dst), !is_player1) == flip_board(
            relocate_kind(b, src, dst, is_player1),
        ),
{
    lemma_flip_masks(src, is_player1);
    lemma_flip_masks(dst, is_player1);
    lemma_flip_update(b.hb, src, dst);
    lemma_flip_update(b.lb, src, dst);
    lemma_flip_update(b.kb, src, dst);
    lemma_flip_update(b.zb, src, dst);
    lemma_flip_update(b.nb, src, dst);
    lemma_flip_update(b.nb, 0, dst);
    lemma_flip_ops(0, 0);
}

proof fn lemma_mirror_capture(b: BitBoard, dst: i32, is_player1: bool)
    requires
        b.in_range(),
        0 <= dst < 0x100_0000,
        own_of(b, is_player1) & hand_mask(is_player1) != hand_mask(is_player1),
    ensures
        capture_at(flip_board(b), flip(dst), !is_player1) == flip_board(capture_at(b, dst, is_player1)),
        capture_slot(flip_board(b), !is_player1) == flip(capture_slot(b, is_player1)),
{
    let own = own_of(b, is_player1);
    let opp = opp_of(b, is_player1);
    lemma_flip_slot(own);
    lemma_flip_board_fields(b, is_player1);
    let hp = capture_slot(b, is_player1);
    assert(flip(hp) == capture_slot(flip_board(b), !is_player1));
    lemma_flip_update(opp, dst, 0);
    lemma_flip_update(own, 0, hp);
    lemma_flip_ops(0, 0);
    lemma_flip_update(b.hb, dst, hp);
    lemma_flip_update(b.lb, dst, hp);
    lemma_flip_update(b.kb, dst, hp);
    lemma_flip_update(b.zb, dst, hp);
    lemma_flip_update(b.nb, dst, 0);
    lemma_flip_update(b.hb, 0, hp);
    lemma_flip_update(b.hb, dst, 0);
    lemma_flip_update(b.lb, dst, 0);
    lemma_flip_update(b.kb, dst, 0);
    lemma_flip_update(b.zb, dst, 0);
    let b1 = with_own(with_opp(b, is_player1, opp & !dst), is_player1, own | hp);
    let f1 = with_own(with_opp(flip_board(b), !is_player1, flip(opp) & !flip(dst)), !is_player1, flip(own) | flip(hp));
    assert(f1 == flip_board(b1));
}

pub(crate) proof fn lemma_bit_clear(x: i32, y: i32, s: i32, d: i32)
    by (bit_vector)
    requires
        s != 0,
        s & ((s - 1) as i32) == 0,
        d != 0,
        d & ((d - 1) as i32) == 0,
        s != d,
    ensures
        (x & !s | d) & s == 0,
        (x & !s) & s == 0,
        x & s == 0 ==> (x | d) & s == 0,
        x & s != 0 && x & y == 0 ==> y & s == 0,
{
}

proof fn lemma_mirror_close(b: BitBoard, src: i32, is_player1: bool)
    requires
        b.in_range(),
        single_bit(src),
        src & hand_mask(is_player1) == src,
        own_of(b, is_player1) & src == 0,
        b.kb & src == 0,
        b.zb & src == 0,
        b.hb & src == 0,
    ensures
        close_hand(flip_board(b), flip(src), !is_player1) == flip_board(close_hand(b, src, is_player1)),
{
    let h = hand_mask(is_player1);
    let h2 = hand_mask(!is_player1);
    lemma_flip_board_fields(b, is_player1);
    lemma_flip_close(own_of(b, is_player1), src, h, h2);
    lemma_flip_close(b.kb, src, h, h2);
    lemma_flip_close(b.zb, src, h, h2);
    lemma_flip_close(b.hb, src, h, h2);
    let below = (src - 1) as i32;
    let keep = below & h | !h;
    let shift_bits = !below & h;
    let own = own_of(b, is_player1);
    let v = (own & keep) | ((own & shift_bits) >> 1);
    assert(flip_board(with_own(b, is_player1, v)) == with_own(flip_board(b), !is_player1, flip(v)));
}

/// Player 2's moves mirror player 1's, and the other way round: on a
/// consistent position, a move from `src` to `dst` (distinct squares or
/// slots) by a player whose hand is not full gives the mirror image of the
/// board that the mirrored move by the other player gives on the mirrored
/// position.
pub proof fn lemma_moved_board_mirror(b: BitBoard, m: (i32, i32), is_player1: bool)
    requires
        well_formed(b),
        single_bit(m.0),
        single_bit(m.1),
        0 <= m.0 < 0x100_0000,
        0 <= m.1 < 0x100_0000,
        m.0 != m.1,
        own_of(b, is_player1) & hand_mask(is_player1) != hand_mask(is_player1),
    ensures
        moved_board(flip_board(b), (flip(m.0), flip(m.1)), !is_player1) == flip_board(
            moved_board(b, m, is_player1),
        ),
{
    reveal(moved_board);
    let src = m.0;
    let dst = m.1;
    let own = own_of(b, is_player1);
    let opp = opp_of(b, is_player1);
    lemma_flip_masks(src, is_player1);
    lemma_flip_board_fields(b, is_player1);
    if src & hand_mask(is_player1) != 0 {
        lemma_flip_update(own, src, dst);
        let b1 = with_own(b, is_player1, own & !src | dst);
        assert(flip_board(b1) == with_own(flip_board(b), !is_player1, flip(own) & !flip(src) | flip(dst)));
        lemma_mirror_relocate(b1, src, dst, is_player1);
        lemma_relocate_kind_bounds(b1, src, dst, is_player1);
        let r = relocate_kind(b1, src, dst, is_player1);
        assert(src & hand_mask(is_player1) == src) by (bit_vector)
            requires
                src != 0,
                src & ((src - 1) as i32) == 0,
                src & hand_mask(is_player1) != 0,
        ;
        lemma_bit_clear(own, 0, src, dst);
        lemma_bit_clear(b.hb, b.lb, src, dst);
        lemma_bit_clear(b.hb, b.kb, src, dst);
        lemma_bit_clear(b.hb, b.zb, src, dst);
        lemma_bit_clear(b.lb, b.kb, src, dst);
        lemma_bit_clear(b.lb, b.zb, src, dst);
        lemma_bit_clear(b.lb, b.hb, src, dst);
        lemma_bit_clear(b.kb, b.zb, src, dst);
        lemma_bit_clear(b.kb, b.hb, src, dst);
        lemma_bit_clear(b.zb, b.kb, src, dst);
        lemma_bit_clear(b.zb, b.hb, src, dst);
        lemma_bit_clear(b.nb, b.kb, src, dst);
        lemma_bit_clear(b.nb, b.zb, src, dst);
        lemma_bit_clear(b.nb, b.hb, src, dst);
        assert(own_of(r, is_player1) & src == 0);
        assert(r.kb & src == 0);
        assert(r.zb & src == 0);
        assert(r.hb & src == 0);
        lemma_mirror_close(r, src, is_player1);
    } else {
        lemma_flip_update(opp, dst, 0);
        lemma_capture_at_bounds(b, dst, is_player1);
        if opp & dst != 0 {
            lemma_mirror_capture(b, dst, is_player1);
        }
        let b1 = if opp & dst != 0 {
            capture_at(b, dst, is_player1)
        } else {
            b
        };
        let f1 = if flip(opp) & flip(dst) != 0 {
            capture_at(flip_board(b), flip(dst), !is_player1)
        } else {
            flip_board(b)
        };
        assert(f1 == flip_board(b1));
        lemma_flip_board_fields(b1, is_player1);
        let own1 = own_of(b1, is_player1);
        lemma_flip_update(own1, src, dst);
        let b2 = with_own(b1, is_player1, own1 & !src | dst);
        assert(flip_board(b2) == with_own(f1, !is_player1, flip(own1) & !flip(src) | flip(dst)));
        lemma_mirror_relocate(b2, src, dst, is_player1);
    }
}

/// The board square `s` seen from the other side: rank `r` becomes rank
/// `3 - r`, the file is kept.
pub open spec fn flip_square(s: int) -> int {
    3 * (3 - s / 3) + s % 3
}

/// The move `m` seen from the other side.
pub open spec fn flip_move(m: (i32, i32)) -> (i32, i32) {
    (flip(m.0), flip(m.1))
}

/// The moves `ms` seen from the other side.
pub open spec fn flip_moves(ms: Seq<(i32, i32)>) -> Seq<(i32, i32)> {
    ms.map_values(|m: (i32, i32)| flip_move(m))
}

/// The steps `dirs` seen from the other side: the row change is negated.
pub open spec fn flip_dirs(dirs: Seq<(i32, i32)>) -> Seq<(i32, i32)> {
    dirs.map_values(|d: (i32, i32)| (d.0, (-d.1) as i32))
}

proof fn lemma_flip_sq_bit_bits(u: u32, w: u32)
    by (bit_vector)
    requires
        u < 12,
        w == 3 * (3 - u / 3) + u % 3,
    ensures
        flip(1i32 << u) == 1i32 << w,
        w < 12,
        0 < 1i32 << u < 0x1000,
{
}

proof fn lemma_sq_bit_injective(u: u32, w: u32)
    by (bit_vector)
    requires
        u < 24,
        w < 24,
        1i32 << u == 1i32 << w,
    ensures
        u == w,
{
}

proof fn lemma_sq_bit_range(t: int)
    requires
        0 <= t < 12,
    ensures
        0 < sq_bit(t) < 0x1000,
{
    lemma_flip_sq_bit(t);
}

/// A board square's mask, seen from the other side, is the mask of the
/// flipped square.
proof fn lemma_flip_sq_bit(t: int)
    requires
        0 <= t < 12,
    ensures
        0 <= flip_square(t) < 12,
        0 < sq_bit(t) < 0x1000,
        flip(sq_bit(t)) == sq_bit(flip_square(t)),
        flip_square(flip_square(t)) == t,
{
    lemma_flip_sq_bit_bits(t as u32, flip_square(t) as u32);
}

proof fn lemma_find_square_hit(v: i32, t: int, from: nat)
    requires
        from <= t < 12,
        v == sq_bit(t),
    ensures
        find_square(v, from) == Some(t),
    decreases 12 - from,
{
    if from < t {
        if v == sq_bit(from as int) {
            lemma_sq_bit_injective(from as u32, t as u32);
        }
        lemma_find_square_hit(v, t, from + 1);
    }
}

proof fn lemma_find_square_found(v: i32, from: nat)
    ensures
        match find_square(v, from) {
            Some(s) => from <= s < 12 && v == sq_bit(s),
            None => forall|s: int| from <= s < 12 ==> v != #[trigger] sq_bit(s),
        },
    decreases 12 - from,
{
    if from < 12 && v != sq_bit(from as int) {
        lemma_find_square_found(v, from + 1);
    }
}

/// The square a mask names, seen from the other side.
proof fn lemma_find_square_flip(v: i32)
    requires
        0 <= v < 0x100_0000,
    ensures
        find_square(flip(v), 0) == (match find_square(v, 0) {
            Some(s) => Some(flip_square(s)),
            None => None::<int>,
        }),
{
    lemma_find_square_found(v, 0);
    lemma_find_square_found(flip(v), 0);
    lemma_flip_ops(v, 0);
    match find_square(v, 0) {
        Some(s) => {
            lemma_flip_sq_bit(s);
            lemma_find_square_hit(flip(v), flip_square(s), 0);
        },
        None => {
            match find_square(flip(v), 0) {
                Some(t) => {
                    lemma_flip_sq_bit(t);
                    lemma_flip_twice(v);
                    assert(v == sq_bit(flip_square(t)));
                },
                None => {},
            }
        },
    }
}

proof fn lemma_flip_twice(v: i32)
    requires
        0 <= v < 0x100_0000,
    ensures
        flip(flip(v)) == v,
{
    lemma_flip_ops(v, 0);
}

proof fn lemma_step_flip(s: int, d: (i32, i32))
    requires
        0 <= s < 12,
        -1 <= d.0 <= 1,
        -1 <= d.1 <= 1,
    ensures
        step(flip_square(s), (d.0, (-d.1) as i32)) == (match step(s, d) {
            Some(t) => Some(flip_square(t)),
            None => None::<int>,
        }),
{
}

/// The moves of a piece along `dirs`, seen from the other side, are those
/// of the flipped piece along the flipped steps.
proof fn lemma_piece_moves_flip(own: i32, s: int, dirs: Seq<(i32, i32)>)
    requires
        0 <= own < 0x100_0000,
        0 <= s < 12,
        small_steps(dirs),
    ensures
        piece_moves(flip(own), flip_square(s), flip_dirs(dirs)) == flip_moves(piece_moves(own, s, dirs)),
    decreases dirs.len(),
{
    if dirs.len() > 0 {
        let d = dirs.last();
        assert(flip_dirs(dirs).drop_last() =~= flip_dirs(dirs.drop_last()));
        assert(small_steps(dirs.drop_last()));
        assert(-1 <= dirs[dirs.len() - 1].0 <= 1 && -1 <= dirs[dirs.len() - 1].1 <= 1);
        lemma_piece_moves_flip(own, s, dirs.drop_last());
        lemma_step_flip(s, d);
        lemma_flip_sq_bit(s);
        let prev = piece_moves(own, s, dirs.drop_last());
        match step(s, d) {
            Some(t) => {
                lemma_flip_sq_bit(t);
                lemma_sq_bit_range(t);
                lemma_flip_ops(own, sq_bit(t));
                lemma_flip_ops(own & sq_bit(t), 0);
                assert(flip_moves(prev.push((sq_bit(s), sq_bit(t)))) =~= flip_moves(prev).push(
                    flip_move((sq_bit(s), sq_bit(t))),
                ));
            },
            None => {},
        }
    } else {
        assert(flip_moves(seq![]) =~= seq![]);
    }
}

/// The move along step `d` from square `s`, as a multiset of at most one
/// move.
pub open spec fn step_moves(own: i32, s: int, d: (i32, i32)) -> Multiset<(i32, i32)> {
    match step(s, d) {
        Some(t) => if own & sq_bit(t) == 0 {
            Multiset::singleton((sq_bit(s), sq_bit(t)))
        } else {
            Multiset::empty()
        },
        None => Multiset::empty(),
    }
}

/// The moves along the first `k` steps of `dirs`, as a multiset.
pub open spec fn steps_moves(own: i32, s: int, dirs: Seq<(i32, i32)>, k: nat) -> Multiset<(i32, i32)>
    decreases k,
{
    if k == 0 {
        Multiset::empty()
    } else {
        steps_moves(own, s, dirs, (k - 1) as nat).add(step_moves(own, s, dirs[k - 1]))
    }
}

proof fn lemma_piece_moves_multiset(own: i32, s: int, dirs: Seq<(i32, i32)>, k: nat)
    requires
        k <= dirs.len(),
    ensures
        piece_moves(own, s, dirs.take(k as int)).to_multiset() == steps_moves(own, s, dirs, k),
    decreases k,
{
    broadcast use vstd::multiset::group_multiset_axioms, vstd::seq_lib::to_multiset_build;

    if k == 0 {
        assert(piece_moves(own, s, dirs.take(0)) =~= seq![]);
        assert(seq![].to_multiset() =~= Multiset::<(i32, i32)>::empty()) by {
            vstd::seq_lib::to_multiset_len(Seq::<(i32, i32)>::empty());
        }
    } else {
        let t = dirs.take(k as int);
        assert(t.drop_last() =~= dirs.take(k - 1));
        assert(t.last() == dirs[k - 1]);
        lemma_piece_moves_multiset(own, s, dirs, (k - 1) as nat);
        let prev = piece_moves(own, s, t.drop_last());
        match step(s, t.last()) {
            Some(u) => {
                if own & sq_bit(u) == 0 {
                    assert(prev.push((sq_bit(s), sq_bit(u))).to_multiset() =~= prev.to_multiset().insert(
                        (sq_bit(s), sq_bit(u)),
                    ));
                } else {
                    assert(prev.to_multiset().add(Multiset::empty()) =~= prev.to_multiset());
                }
            },
            None => {
                assert(prev.to_multiset().add(Multiset::empty()) =~= prev.to_multiset());
            },
        }
    }
}

/// The steps of each piece, seen from the other side, are those of the
/// other player's piece of the same kind, in another order.
#[verifier::spinoff_prover]
#[verifier::rlimit(60)]
proof fn lemma_dirs_flip(own: i32, s: int, is_player1: bool)
    ensures
        flip_dirs(chick_dirs(is_player1)) == chick_dirs(!is_player1),
        steps_moves(own, s, flip_dirs(elephant_dirs()), 4) == steps_moves(own, s, elephant_dirs(), 4),
        steps_moves(own, s, flip_dirs(giraffe_dirs()), 4) == steps_moves(own, s, giraffe_dirs(), 4),
        steps_moves(own, s, flip_dirs(lion_dirs()), 8) == steps_moves(own, s, lion_dirs(), 8),
        steps_moves(own, s, flip_dirs(hen_dirs(is_player1)), 6) == steps_moves(own, s, hen_dirs(!is_player1), 6),
{
    broadcast use vstd::multiset::group_multiset_axioms;

    reveal_with_fuel(steps_moves, 9);
    assert(flip_dirs(chick_dirs(is_player1)) =~= chick_dirs(!is_player1));
    assert(flip_dirs(elephant_dirs()) =~= seq![(1i32, -1i32), (-1i32, -1i32), (-1i32, 1i32), (1i32, 1i32)]);
    assert(flip_dirs(giraffe_dirs()) =~= seq![(0i32, -1i32), (1i32, 0i32), (-1i32, 0i32), (0i32, 1i32)]);
    assert(flip_dirs(lion_dirs()) =~= seq![
        (0i32, 1i32),
        (1i32, 1i32),
        (-1i32, 1i32),
        (1i32, 0i32),
        (-1i32, 0i32),
        (1i32, -1i32),
        (-1i32, -1i32),
        (0i32, -1i32),
    ]);
    if is_player1 {
        assert(flip_dirs(hen_dirs(is_player1)) =~= seq![
            (0i32, -1i32),
            (1i32, 1i32),
            (1i32, 0i32),
            (-1i32, 1i32),
            (-1i32, 0i32),
            (0i32, 1i32),
        ]);
    } else {
        assert(flip_dirs(hen_dirs(is_player1)) =~= seq![
            (-1i32, 0i32),
            (-1i32, -1i32),
            (0i32, 1i32),
            (0i32, -1i32),
            (1i32, 0i32),
            (1i32, -1i32),
        ]);
    }
    assert(steps_moves(own, s, flip_dirs(elephant_dirs()), 4) =~= steps_moves(own, s, elephant_dirs(), 4));
    assert(steps_moves(own, s, flip_dirs(giraffe_dirs()), 4) =~= steps_moves(own, s, giraffe_dirs(), 4));
    assert(steps_moves(own, s, flip_dirs(lion_dirs()), 8) =~= steps_moves(own, s, lion_dirs(), 8));
    assert(steps_moves(own, s, flip_dirs(hen_dirs(is_player1)), 6) =~= steps_moves(own, s, hen_dirs(!is_player1), 6));
}

/// The moves of a piece along `d1`, seen from the other side, are those of
/// the flipped piece along `d2`, in some order, when the flipped steps of
/// `d1` give the same moves as `d2`.
proof fn lemma_piece_moves_flip_multiset(own: i32, s: int, d1: Seq<(i32, i32)>, d2: Seq<(i32, i32)>)
    requires
        0 <= own < 0x100_0000,
        0 <= s < 12,
        small_steps(d1),
        d1.len() == d2.len(),
        steps_moves(flip(own), flip_square(s), flip_dirs(d1), d1.len()) == steps_moves(
            flip(own),
            flip_square(s),
            d2,
            d2.len(),
        ),
    ensures
        piece_moves(flip(own), flip_square(s), d2).to_multiset() == flip_moves(
            piece_moves(own, s, d1),
        ).to_multiset(),
{
    lemma_piece_moves_flip(own, s, d1);
    assert(d2.take(d2.len() as int) =~= d2);
    assert(flip_dirs(d1).take(d1.len() as int) =~= flip_dirs(d1));
    lemma_piece_moves_multiset(flip(own), flip_square(s), d2, d2.len());
    lemma_piece_moves_multiset(flip(own), flip_square(s), flip_dirs(d1), d1.len());
}

/// `x` holds at most two set bits.
pub open spec fn at_most_two(x: i32) -> bool {
    let r = x ^ lowest_bit(x);
    r & ((r - 1) as i32) == 0
}

proof fn lemma_flip_lowest(x: i32)
    by (bit_vector)
    requires
        0 <= x < 0x100_0000,
        at_most_two(x),
    ensures
        0 <= lowest_bit(x) < 0x100_0000,
        0 <= x ^ lowest_bit(x) < 0x100_0000,
        (lowest_bit(flip(x)) == flip(lowest_bit(x)) && flip(x) ^ lowest_bit(flip(x)) == flip(x ^ lowest_bit(x)))
            || (lowest_bit(flip(x)) == flip(x ^ lowest_bit(x)) && flip(x) ^ lowest_bit(flip(x)) == flip(
            lowest_bit(x),
        )),
{
}

proof fn lemma_flip_lowest_hand(x: i32, hand: i32, h: i32)
    by (bit_vector)
    requires
        hand == 0x3f000i32 || hand == 0xfc0000i32,
        h == x & hand,
    ensures
        0 <= h < 0x100_0000,
        lowest_bit(flip(h)) == flip(lowest_bit(h)),
        0 <= lowest_bit(h) < 0x100_0000,
        (h == 0) == (flip(h) == 0),
{
}

/// The moves of the piece whose mask is `v`, seen from the other side, are
/// those of the flipped piece along `d2`, in some order.
proof fn lemma_square_moves_flip_multiset(own: i32, v: i32, d1: Seq<(i32, i32)>, d2: Seq<(i32, i32)>)
    requires
        0 <= own < 0x100_0000,
        0 <= v < 0x100_0000,
        small_steps(d1),
        d1.len() == d2.len(),
        forall|t: int|
            #[trigger] steps_moves(flip(own), t, flip_dirs(d1), d1.len()) == steps_moves(flip(own), t, d2, d2.len()),
    ensures
        square_moves(flip(own), flip(v), d2).to_multiset() == flip_moves(square_moves(own, v, d1)).to_multiset(),
{
    lemma_find_square_flip(v);
    lemma_find_square_found(v, 0);
    match find_square(v, 0) {
        Some(s) => {
            assert(steps_moves(flip(own), flip_square(s), flip_dirs(d1), d1.len()) == steps_moves(
                flip(own),
                flip_square(s),
                d2,
                d2.len(),
            ));
            lemma_piece_moves_flip_multiset(own, s, d1, d2);
        },
        None => assert(flip_moves(seq![]) =~= seq![]),
    }
}

/// The moves of the (at most two) pieces of one kind held in `x`, seen from
/// the other side, are those of the flipped pieces along `d2`, in some order.
proof fn lemma_kind_moves_flip_multiset(own: i32, x: i32, d1: Seq<(i32, i32)>, d2: Seq<(i32, i32)>)
    requires
        0 <= own < 0x100_0000,
        0 <= x < 0x100_0000,
        at_most_two(x),
        small_steps(d1),
        d1.len() == d2.len(),
        forall|t: int|
            #[trigger] steps_moves(flip(own), t, flip_dirs(d1), d1.len()) == steps_moves(flip(own), t, d2, d2.len()),
    ensures
        kind_moves(flip(own), flip(x), d2).to_multiset() == flip_moves(kind_moves(own, x, d1)).to_multiset(),
{
    broadcast use vstd::multiset::group_multiset_axioms, vstd::seq_lib::lemma_multiset_commutative;

    let l = lowest_bit(x);
    let r = x ^ l;
    lemma_flip_lowest(x);
    lemma_square_moves_flip_multiset(own, l, d1, d2);
    lemma_square_moves_flip_multiset(own, r, d1, d2);
    let a = square_moves(own, l, d1);
    let c = square_moves(own, r, d1);
    assert(flip_moves(a + c) =~= flip_moves(a) + flip_moves(c));
    let fa = square_moves(flip(own), flip(l), d2);
    let fc = square_moves(flip(own), flip(r), d2);
    assert((fa + fc).to_multiset() =~= (fc + fa).to_multiset());
}

/// The drop from slot `idx` on square `t` when `t` is empty in `e`, as a
/// multiset of at most one move.
pub open spec fn drop_term(idx: i32, e: i32, t: int) -> Multiset<(i32, i32)> {
    if e & sq_bit(t) != 0 {
        Multiset::singleton((idx, sq_bit(t)))
    } else {
        Multiset::empty()
    }
}

/// The same drop seen from the other side.
pub open spec fn flipped_drop_term(idx: i32, e: i32, t: int) -> Multiset<(i32, i32)> {
    if e & sq_bit(t) != 0 {
        Multiset::singleton((flip(idx), flip(sq_bit(t))))
    } else {
        Multiset::empty()
    }
}

/// The drops from slot `idx` on the first `k` squares of `drop_square` that
/// are empty in `e`, as a multiset.
pub open spec fn drops_multiset(idx: i32, e: i32, k: nat) -> Multiset<(i32, i32)>
    decreases k,
{
    if k == 0 {
        Multiset::empty()
    } else {
        drops_multiset(idx, e, (k - 1) as nat).add(drop_term(idx, e, drop_square(k - 1)))
    }
}

/// The same drops seen from the other side, as a multiset.
pub open spec fn flipped_drops_multiset(idx: i32, e: i32, k: nat) -> Multiset<(i32, i32)>
    decreases k,
{
    if k == 0 {
        Multiset::empty()
    } else {
        flipped_drops_multiset(idx, e, (k - 1) as nat).add(flipped_drop_term(idx, e, drop_square(k - 1)))
    }
}

proof fn lemma_drop_targets_multiset(idx: i32, e: i32, k: nat)
    ensures
        drop_targets(idx, e, k).to_multiset() == drops_multiset(idx, e, k),
        flip_moves(drop_targets(idx, e, k)).to_multiset() == flipped_drops_multiset(idx, e, k),
    decreases k,
{
    broadcast use vstd::multiset::group_multiset_axioms, vstd::seq_lib::to_multiset_build;

    if k == 0 {
        assert(flip_moves(seq![]) =~= seq![]);
        vstd::seq_lib::to_multiset_len(Seq::<(i32, i32)>::empty());
        assert(Seq::<(i32, i32)>::empty().to_multiset() =~= Multiset::empty());
    } else {
        lemma_drop_targets_multiset(idx, e, (k - 1) as nat);
        let prev = drop_targets(idx, e, (k - 1) as nat);
        let t = drop_square(k - 1);
        if e & sq_bit(t) != 0 {
            assert(flip_moves(prev.push((idx, sq_bit(t)))) =~= flip_moves(prev).push(flip_move((idx, sq_bit(t)))));
            assert(prev.push((idx, sq_bit(t))).to_multiset() =~= prev.to_multiset().insert((idx, sq_bit(t))));
            assert(flip_moves(prev).push(flip_move((idx, sq_bit(t)))).to_multiset() =~= flip_moves(prev).to_multiset().insert(
                flip_move((idx, sq_bit(t))),
            ));
        } else {
            assert(prev.to_multiset().add(Multiset::empty()) =~= prev.to_multiset());
            assert(flip_moves(prev).to_multiset().add(Multiset::empty()) =~= flip_moves(prev).to_multiset());
        }
    }
}

/// Drops on the empty squares, seen from the other side, are the drops of
/// the flipped piece on the flipped empty squares, in another order.
#[verifier::rlimit(50)]
proof fn lemma_drops_flip(idx: i32, e: i32, e2: i32)
    requires
        forall|t: int| 0 <= t < 12 ==> (e2 & #[trigger] sq_bit(flip_square(t)) != 0) == (e & sq_bit(t) != 0),
    ensures
        drops_multiset(flip(idx), e2, 12) == flipped_drops_multiset(idx, e, 12),
{
    broadcast use vstd::multiset::group_multiset_axioms;

    assert(drop_square(0) == 0);
    assert(drop_square(1) == 3);
    assert(drop_square(2) == 6);
    assert(drop_square(3) == 9);
    assert(drop_square(4) == 1);
    assert(drop_square(5) == 4);
    assert(drop_square(6) == 7);
    assert(drop_square(7) == 10);
    assert(drop_square(8) == 2);
    assert(drop_square(9) == 5);
    assert(drop_square(10) == 8);
    assert(drop_square(11) == 11);
    lemma_flip_sq_bit(0);
    assert(flipped_drop_term(idx, e, 0) == drop_term(flip(idx), e2, 9));
    lemma_flip_sq_bit(1);
    assert(flipped_drop_term(idx, e, 1) == drop_term(flip(idx), e2, 10));
    lemma_flip_sq_bit(2);
    assert(flipped_drop_term(idx, e, 2) == drop_term(flip(idx), e2, 11));
    lemma_flip_sq_bit(3);
    assert(flipped_drop_term(idx, e, 3) == drop_term(flip(idx), e2, 6));
    lemma_flip_sq_bit(4);
    assert(flipped_drop_term(idx, e, 4) == drop_term(flip(idx), e2, 7));
    lemma_flip_sq_bit(5);
    assert(flipped_drop_term(idx, e, 5) == drop_term(flip(idx), e2, 8));
    lemma_flip_sq_bit(6);
    assert(flipped_drop_term(idx, e, 6) == drop_term(flip(idx), e2, 3));
    lemma_flip_sq_bit(7);
    assert(flipped_drop_term(idx, e, 7) == drop_term(flip(idx), e2, 4));
    lemma_flip_sq_bit(8);
    assert(flipped_drop_term(idx, e, 8) == drop_term(flip(idx), e2, 5));
    lemma_flip_sq_bit(9);
    assert(flipped_drop_term(idx, e, 9) == drop_term(flip(idx), e2, 0));
    lemma_flip_sq_bit(10);
    assert(flipped_drop_term(idx, e, 10) == drop_term(flip(idx), e2, 1));
    lemma_flip_sq_bit(11);
    assert(flipped_drop_term(idx, e, 11) == drop_term(flip(idx), e2, 2));
    reveal_with_fuel(drops_multiset, 13);
    reveal_with_fuel(flipped_drops_multiset, 13);
    let d = Multiset::empty().add(drop_term(flip(idx), e2, 0)).add(drop_term(flip(idx), e2, 3)).add(drop_term(flip(idx), e2, 6)).add(drop_term(flip(idx), e2, 9)).add(drop_term(flip(idx), e2, 1)).add(drop_term(flip(idx), e2, 4)).add(drop_term(flip(idx), e2, 7)).add(drop_term(flip(idx), e2, 10)).add(drop_term(flip(idx), e2, 2)).add(drop_term(flip(idx), e2, 5)).add(drop_term(flip(idx), e2, 8)).add(drop_term(flip(idx), e2, 11));
    let f = Multiset::empty().add(flipped_drop_term(idx, e, 0)).add(flipped_drop_term(idx, e, 3)).add(flipped_drop_term(idx, e, 6)).add(flipped_drop_term(idx, e, 9)).add(flipped_drop_term(idx, e, 1)).add(flipped_drop_term(idx, e, 4)).add(flipped_drop_term(idx, e, 7)).add(flipped_drop_term(idx, e, 10)).add(flipped_drop_term(idx, e, 2)).add(flipped_drop_term(idx, e, 5)).add(flipped_drop_term(idx, e, 8)).add(flipped_drop_term(idx, e, 11));
    assert(drops_multiset(flip(idx), e2, 12) == d);
    assert(flipped_drops_multiset(idx, e, 12) == f);
    assert(d =~= f);
}

proof fn lemma_flip_empty(a: i32, c: i32, y: i32)
    by (bit_vector)
    requires
        0 <= a < 0x100_0000,
        0 <= c < 0x100_0000,
        0 <= y < 0x100_0000,
    ensures
        (!(flip(c) | flip(a)) & flip(y) != 0) == (!(a | c) & y != 0),
{
}

/// The drops of one kind held in hand (`h`), seen from the other side, are
/// those of the flipped hand on the flipped empty squares, in another order.
proof fn lemma_drop_moves_flip(x: i32, hand: i32, h: i32, e: i32, e2: i32)
    requires
        hand == 0x3f000i32 || hand == 0xfc0000i32,
        h == x & hand,
        forall|t: int| 0 <= t < 12 ==> (e2 & #[trigger] sq_bit(flip_square(t)) != 0) == (e & sq_bit(t) != 0),
    ensures
        drop_moves(flip(h), e2).to_multiset() == flip_moves(drop_moves(h, e)).to_multiset(),
{
    lemma_flip_lowest_hand(x, hand, h);
    if h != 0 {
        let idx = lowest_bit(h);
        lemma_drop_targets_multiset(flip(idx), e2, 12);
        lemma_drop_targets_multiset(idx, e, 12);
        lemma_drops_flip(idx, e, e2);
    } else {
        assert(flip_moves(seq![]) =~= seq![]);
    }
}

/// The moves of player 2 mirror those of player 1, and the other way round:
/// on a position whose bitboards lie within the 24 squares and slots and in
/// which the mover has at most two pieces of each kind, the moves listed for
/// the mirrored position and the other player are the mirrored moves, in
/// another order.
#[verifier::spinoff_prover]
#[verifier::rlimit(60)]
pub proof fn lemma_move_list_mirror(b: BitBoard, is_player1: bool)
    requires
        b.in_range(),
        at_most_two(own_of(b, is_player1) & b.hb),
        at_most_two(own_of(b, is_player1) & b.zb),
        at_most_two(own_of(b, is_player1) & b.kb),
        at_most_two(own_of(b, is_player1) & b.nb),
    ensures
        move_list(flip_board(b), !is_player1).to_multiset() == flip_moves(move_list(b, is_player1)).to_multiset(),
{
    broadcast use vstd::multiset::group_multiset_axioms, vstd::seq_lib::lemma_multiset_commutative;

    reveal(move_list);
    let own = own_of(b, is_player1);
    let fb = flip_board(b);
    let fo = own_of(fb, !is_player1);
    lemma_flip_board_fields(b, is_player1);
    assert(fo == flip(own));
    lemma_flip_ops(own, b.hb);
    lemma_flip_ops(own, b.zb);
    lemma_flip_ops(own, b.kb);
    lemma_flip_ops(own, b.lb);
    lemma_flip_ops(own, b.nb);
    assert forall|t: int| #[trigger] steps_moves(fo, t, flip_dirs(elephant_dirs()), 4) == steps_moves(fo, t, elephant_dirs(), 4) && steps_moves(fo, t, flip_dirs(giraffe_dirs()), 4) == steps_moves(fo, t, giraffe_dirs(), 4) && steps_moves(fo, t, flip_dirs(lion_dirs()), 8) == steps_moves(fo, t, lion_dirs(), 8) && steps_moves(fo, t, flip_dirs(hen_dirs(is_player1)), 6) == steps_moves(fo, t, hen_dirs(!is_player1), 6) by {
        lemma_dirs_flip(fo, t, is_player1);
    }
    assert forall|t: int| #[trigger] steps_moves(fo, t, flip_dirs(chick_dirs(is_player1)), 1) == steps_moves(fo, t, chick_dirs(!is_player1), 1) by {
        lemma_dirs_flip(fo, t, is_player1);
    }
    assert forall|t: int| #[trigger] steps_moves(fo, t, flip_dirs(giraffe_dirs()), 4) == steps_moves(fo, t, giraffe_dirs(), 4) by {
        lemma_dirs_flip(fo, t, is_player1);
    }
    assert forall|t: int| #[trigger] steps_moves(fo, t, flip_dirs(lion_dirs()), 8) == steps_moves(fo, t, lion_dirs(), 8) by {
        lemma_dirs_flip(fo, t, is_player1);
    }
    assert forall|t: int| #[trigger] steps_moves(fo, t, flip_dirs(hen_dirs(is_player1)), 6) == steps_moves(fo, t, hen_dirs(!is_player1), 6) by {
        lemma_dirs_flip(fo, t, is_player1);
    }
    assert(small_steps(chick_dirs(is_player1)));
    assert(small_steps(elephant_dirs()));
    assert(small_steps(giraffe_dirs()));
    assert(small_steps(lion_dirs()));
    assert(small_steps(hen_dirs(is_player1)));
    let a1 = kind_moves(own, own & b.hb, chick_dirs(is_player1));
    let a2 = kind_moves(own, own & b.zb, elephant_dirs());
    let a3 = kind_moves(own, own & b.kb, giraffe_dirs());
    let a4 = square_moves(own, own & b.lb, lion_dirs());
    let a5 = kind_moves(own, own & b.nb, hen_dirs(is_player1));
    lemma_kind_moves_flip_multiset(own, own & b.hb, chick_dirs(is_player1), chick_dirs(!is_player1));
    lemma_kind_moves_flip_multiset(own, own & b.zb, elephant_dirs(), elephant_dirs());
    lemma_kind_moves_flip_multiset(own, own & b.kb, giraffe_dirs(), giraffe_dirs());
    lemma_square_moves_flip_multiset(own, own & b.lb, lion_dirs(), lion_dirs());
    lemma_kind_moves_flip_multiset(own, own & b.nb, hen_dirs(is_player1), hen_dirs(!is_player1));
    let hand = hand_mask(is_player1);
    let e = !(b.pb1 | b.pb2);
    let e2 = !(fb.pb1 | fb.pb2);
    assert forall|t: int| 0 <= t < 12 implies (e2 & #[trigger] sq_bit(flip_square(t)) != 0) == (e & sq_bit(t) != 0) by {
        lemma_flip_sq_bit(t);
        lemma_flip_empty(b.pb1, b.pb2, sq_bit(t));
    }
    lemma_flip_ops(b.hb, hand);
    lemma_flip_ops(b.zb, hand);
    lemma_flip_ops(b.kb, hand);
    lemma_flip_masks_eq(b.hb, is_player1);
    lemma_flip_masks_eq(b.zb, is_player1);
    lemma_flip_masks_eq(b.kb, is_player1);
    let a6 = drop_moves(b.hb & hand, e);
    let a7 = drop_moves(b.zb & hand, e);
    let a8 = drop_moves(b.kb & hand, e);
    lemma_drop_moves_flip(b.hb, hand, b.hb & hand, e, e2);
    lemma_drop_moves_flip(b.zb, hand, b.zb & hand, e, e2);
    lemma_drop_moves_flip(b.kb, hand, b.kb & hand, e, e2);
    let ml = a1 + a2 + a3 + a4 + a5 + a6 + a7 + a8;
    assert(move_list(b, is_player1) == ml);
    assert(flip_moves(ml) =~= flip_moves(a1) + flip_moves(a2) + flip_moves(a3) + flip_moves(a4) + flip_moves(a5)
        + flip_moves(a6) + flip_moves(a7) + flip_moves(a8));
}

proof fn lemma_flip_masks_eq(x: i32, is_player1: bool)
    requires
        0 <= x < 0x100_0000,
    ensures
        flip(x) & hand_mask(!is_player1) == flip(x & hand_mask(is_player1)),
{
    lemma_flip_ops(x, 0);
}

proof fn lemma_flip_lion_facts(lb: i32, p: i32)
    requires
        0 <= lb < 0x100_0000,
        0 <= p < 0x100_0000,
    ensures
        (flip(lb) & flip(p) == 0) == (lb & p == 0),
        (flip(lb) & flip(p) & 0x7 != 0) == (lb & p & 0xe00 != 0),
        (flip(lb) & flip(p) & 0xe00 != 0) == (lb & p & 0x7 != 0),
{
    lemma_flip_ops(lb, p);
    lemma_flip_ops(lb & p, 0);
    lemma_flip_ops(lb & p, 0x7);
    lemma_flip_ops(lb & p, 0xe00);
    lemma_flip_ops(lb & p & 0x7, 0);
    lemma_flip_ops(lb & p & 0xe00, 0);
}

/// The end of the game is judged alike for both players: seen from the other
/// side, a position is won, lost or undecided for the other player exactly
/// as it is for this one (a try of the second player's lion counts as the
/// first player's does). Left out are the positions in which both lions are
/// gone, or both lions hold their try, where the first player is favoured.
pub proof fn lemma_judge_mirror(b: BitBoard, bef: BitBoard, is_player1: bool)
    requires
        b.in_range(),
        bef.in_range(),
        b.lb & b.pb1 != 0 || b.lb & b.pb2 != 0,
        !(b.lb & b.pb1 & 0x7 != 0 && bef.lb & bef.pb1 & 0x7 != 0 && b.lb & b.pb2 & 0xe00 != 0 && bef.lb
            & bef.pb2 & 0xe00 != 0),
    ensures
        judge_score(flip_board(b), flip_board(bef), !is_player1) == judge_score(b, bef, is_player1),
{
    lemma_flip_lion_facts(b.lb, b.pb1);
    lemma_flip_lion_facts(b.lb, b.pb2);
    lemma_flip_lion_facts(bef.lb, bef.pb1);
    lemma_flip_lion_facts(bef.lb, bef.pb2);
}

/// The depth of the main search does not depend on which player holds the
/// pieces in hand: the position seen from the other side is searched as
/// deep.
pub proof fn lemma_search_depth_mirror(b: BitBoard)
    requires
        b.in_range(),
    ensures
        depth_for(flip_board(b)) == depth_for(b),
{
    lemma_search_depth_rule(b);
    lemma_search_depth_rule(flip_board(b));
    lemma_flip_ops(b.pb1, 0xfc0000);
    lemma_flip_ops(b.pb2, 0xfc0000);
    lemma_pop_shift_six(b.pb2 & 0xfc0000);
    lemma_pop_shift_six((b.pb1 & 0x3f000) << 6);
}

} // verus!
