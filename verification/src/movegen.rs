use vstd::prelude::*;

use crate::bit_board::{BitBoard, sq_bit, own_of, hand_mask, own_bits, hand_mask_of};

verus! {

/// Steps of the first player's chick and of the second player's chick, as
/// `(column change, row change)`; the first player advances towards rank 1.
pub open spec fn chick_dirs(is_player1: bool) -> Seq<(i32, i32)> {
    if is_player1 {
        seq![(0i32, -1i32)]
    } else {
        seq![(0i32, 1i32)]
    }
}

/// Steps of an elephant, in the order in which its moves are listed.
pub open spec fn elephant_dirs() -> Seq<(i32, i32)> {
    seq![(1i32, 1i32), (-1i32, 1i32), (-1i32, -1i32), (1i32, -1i32)]
}

/// Steps of a giraffe, in the order in which its moves are listed.
pub open spec fn giraffe_dirs() -> Seq<(i32, i32)> {
    seq![(0i32, 1i32), (1i32, 0i32), (-1i32, 0i32), (0i32, -1i32)]
}

/// Steps of a lion, in the order in which its moves are listed.
pub open spec fn lion_dirs() -> Seq<(i32, i32)> {
    seq![
        (0i32, -1i32),
        (1i32, -1i32),
        (-1i32, -1i32),
        (1i32, 0i32),
        (-1i32, 0i32),
        (1i32, 1i32),
        (-1i32, 1i32),
        (0i32, 1i32),
    ]
}

/// Steps of a hen of either player, in the order in which its moves are
/// listed.
pub open spec fn hen_dirs(is_player1: bool) -> Seq<(i32, i32)> {
    if is_player1 {
        seq![(0i32, 1i32), (1i32, -1i32), (1i32, 0i32), (-1i32, -1i32), (-1i32, 0i32), (0i32, -1i32)]
    } else {
        seq![(-1i32, 0i32), (-1i32, 1i32), (0i32, -1i32), (0i32, 1i32), (1i32, 0i32), (1i32, 1i32)]
    }
}

/// Every step moves at most one column and one row.
pub open spec fn small_steps(dirs: Seq<(i32, i32)>) -> bool {
    forall|i: int|
        0 <= i < dirs.len() ==> -1 <= #[trigger] dirs[i].0 <= 1 && -1 <= dirs[i].1 <= 1
}

/// The board square reached from square `s` by step `d`, if it is on the
/// board.
pub open spec fn step(s: int, d: (i32, i32)) -> Option<int> {
    let c = s % 3 + d.0;
    let r = s / 3 + d.1;
    if 0 <= c < 3 && 0 <= r < 4 {
        Some(r * 3 + c)
    } else {
        None
    }
}

/// The moves from square `s` along `dirs`, in order, to squares on the board
/// that the mover (`own`) does not occupy.
pub open spec fn piece_moves(own: i32, s: int, dirs: Seq<(i32, i32)>) -> Seq<(i32, i32)>
    decreases dirs.len(),
{
    if dirs.len() == 0 {
        seq![]
    } else {
        let prev = piece_moves(own, s, dirs.drop_last());
        match step(s, dirs.last()) {
            Some(t) => if own & sq_bit(t) == 0 {
                prev.push((sq_bit(s), sq_bit(t)))
            } else {
                prev
            },
            None => prev,
        }
    }
}

/// The first board square `s >= from` whose mask is exactly `v`.
pub open spec fn find_square(v: i32, from: nat) -> Option<int>
    decreases 12 - from,
{
    if from >= 12 {
        None
    } else if v == sq_bit(from as int) {
        Some(from as int)
    } else {
        find_square(v, from + 1)
    }
}

/// The moves of the piece whose mask is `v`; none unless `v` is exactly one
/// board square.
pub open spec fn square_moves(own: i32, v: i32, dirs: Seq<(i32, i32)>) -> Seq<(i32, i32)> {
    match find_square(v, 0) {
        Some(s) => piece_moves(own, s, dirs),
        None => seq![],
    }
}

/// The lowest set bit of `x`.
pub open spec fn lowest_bit(x: i32) -> i32 {
    x & ((-x) as i32)
}

/// The moves of the two pieces of one kind held in `x`: the piece on the
/// lowest set bit, then the rest (a second piece on a board square).
pub open spec fn kind_moves(own: i32, x: i32, dirs: Seq<(i32, i32)>) -> Seq<(i32, i32)> {
    let low = lowest_bit(x);
    square_moves(own, low, dirs) + square_moves(own, x ^ low, dirs)
}

/// The board squares in the order in which drops are listed: file A from
/// rank 1 to rank 4, then file B, then file C.
pub open spec fn drop_square(k: int) -> int {
    (k % 4) * 3 + k / 4
}

/// Drops of the piece in hand slot `idx` on the first `k` squares of
/// `drop_square` that are empty.
pub open spec fn drop_targets(idx: i32, empty: i32, k: nat) -> Seq<(i32, i32)>
    decreases k,
{
    if k == 0 {
        seq![]
    } else {
        let prev = drop_targets(idx, empty, (k - 1) as nat);
        let t = drop_square(k - 1);
        if empty & sq_bit(t) != 0 {
            prev.push((idx, sq_bit(t)))
        } else {
            prev
        }
    }
}

/// Drops of one kind held in hand (`h`): the piece in the lowest slot is
/// dropped on each empty square.
pub open spec fn drop_moves(h: i32, empty: i32) -> Seq<(i32, i32)> {
    if h != 0 {
        drop_targets(lowest_bit(h), empty, 12)
    } else {
        seq![]
    }
}

/// All moves of one player, in the order in which they are listed: chicks,
/// elephants, giraffes, the lion, hens, then drops of a chick, an elephant
/// and a giraffe from hand.
#[verifier::opaque]
pub open spec fn move_list(b: BitBoard, is_player1: bool) -> Seq<(i32, i32)> {
    let own = own_of(b, is_player1);
    let hand = hand_mask(is_player1);
    let empty = !(b.pb1 | b.pb2);
    kind_moves(own, own & b.hb, chick_dirs(is_player1)) + kind_moves(
        own,
        own & b.zb,
        elephant_dirs(),
    ) + kind_moves(own, own & b.kb, giraffe_dirs()) + square_moves(own, own & b.lb, lion_dirs())
        + kind_moves(own, own & b.nb, hen_dirs(is_player1)) + drop_moves(b.hb & hand, empty)
        + drop_moves(b.zb & hand, empty) + drop_moves(b.kb & hand, empty)
}

/// The lowest set bit of each kind of the mover's pieces can be computed:
/// none of them is exactly bit 31.
pub open spec fn move_gen_defined(b: BitBoard, is_player1: bool) -> bool {
    let own = own_of(b, is_player1);
    &&& own & b.hb != i32::MIN
    &&& own & b.zb != i32::MIN
    &&& own & b.kb != i32::MIN
    &&& own & b.nb != i32::MIN
}

fn chick_dirs_exec(is_player1: bool) -> (r: Vec<(i32, i32)>)
    ensures
        r@ == chick_dirs(is_player1),
{
    let r = if is_player1 {
        vec![(0i32, -1i32)]
    } else {
        vec![(0i32, 1i32)]
    };
    assert(r@ =~= chick_dirs(is_player1));
    r
}

fn elephant_dirs_exec() -> (r: Vec<(i32, i32)>)
    ensures
        r@ == elephant_dirs(),
{
    let r = vec![(1i32, 1i32), (-1i32, 1i32), (-1i32, -1i32), (1i32, -1i32)];
    assert(r@ =~= elephant_dirs());
    r
}

fn giraffe_dirs_exec() -> (r: Vec<(i32, i32)>)
    ensures
        r@ == giraffe_dirs(),
{
    let r = vec![(0i32, 1i32), (1i32, 0i32), (-1i32, 0i32), (0i32, -1i32)];
    assert(r@ =~= giraffe_dirs());
    r
}

fn lion_dirs_exec() -> (r: Vec<(i32, i32)>)
    ensures
        r@ == lion_dirs(),
{
    let r = vec![
        (0i32, -1i32),
        (1i32, -1i32),
        (-1i32, -1i32),
        (1i32, 0i32),
        (-1i32, 0i32),
        (1i32, 1i32),
        (-1i32, 1i32),
        (0i32, 1i32),
    ];
    assert(r@ =~= lion_dirs());
    r
}

fn hen_dirs_exec(is_player1: bool) -> (r: Vec<(i32, i32)>)
    ensures
        r@ == hen_dirs(is_player1),
{
    let r = if is_player1 {
        vec![(0i32, 1i32), (1i32, -1i32), (1i32, 0i32), (-1i32, -1i32), (-1i32, 0i32), (0i32, -1i32)]
    } else {
        vec![(-1i32, 0i32), (-1i32, 1i32), (0i32, -1i32), (0i32, 1i32), (1i32, 0i32), (1i32, 1i32)]
    };
    assert(r@ =~= hen_dirs(is_player1));
    r
}

fn push_piece_moves(out: &mut Vec<(i32, i32)>, own: i32, s: usize, dirs: &Vec<(i32, i32)>)
    requires
        s < 12,
        small_steps(dirs@),
    ensures
        final(out)@ == old(out)@ + piece_moves(own, s as int, dirs@),
{
    let ghost base = out@;
    let src: i32 = 1i32 << (s as u32);
    let col: i32 = (s % 3) as i32;
    let row: i32 = (s / 3) as i32;
    let mut i: usize = 0;
    assert(dirs@.take(0) =~= Seq::<(i32, i32)>::empty());
    while i < dirs.len()
        invariant
            i <= dirs@.len(),
            s < 12,
            src == sq_bit(s as int),
            col == s as int % 3,
            row == s as int / 3,
            small_steps(dirs@),
            out@ == base + piece_moves(own, s as int, dirs@.take(i as int)),
        decreases dirs@.len() - i,
    {
        let d = dirs[i];
        assert(-1 <= dirs@[i as int].0 <= 1 && -1 <= dirs@[i as int].1 <= 1);
        let c: i32 = col + d.0;
        let r: i32 = row + d.1;
        assert(dirs@.take(i + 1).drop_last() =~= dirs@.take(i as int));
        assert(dirs@.take(i + 1).last() == d);
        if 0 <= c && c < 3 && 0 <= r && r < 4 {
            let t: u32 = (r * 3 + c) as u32;
            let dst: i32 = 1i32 << t;
            assert(dst == sq_bit((r * 3 + c) as int));
            if own & dst == 0 {
                out.push((src, dst));
            }
        }
        proof {
            assert(out@ =~= base + piece_moves(own, s as int, dirs@.take(i + 1)));
        }
        i = i + 1;
    }
    assert(dirs@.take(dirs@.len() as int) =~= dirs@);
}

fn find_square_exec(v: i32) -> (r: Option<usize>)
    ensures
        match r {
            Some(s) => s < 12 && find_square(v, 0) == Some(s as int),
            None => find_square(v, 0) is None,
        },
{
    let mut s: usize = 0;
    while s < 12
        invariant
            s <= 12,
            find_square(v, 0) == find_square(v, s as nat),
        decreases 12 - s,
    {
        if v == 1i32 << (s as u32) {
            return Some(s);
        }
        s = s + 1;
    }
    None
}

fn push_square_moves(out: &mut Vec<(i32, i32)>, own: i32, v: i32, dirs: &Vec<(i32, i32)>)
    requires
        small_steps(dirs@),
    ensures
        final(out)@ == old(out)@ + square_moves(own, v, dirs@),
{
    match find_square_exec(v) {
        Some(s) => {
            push_piece_moves(out, own, s, dirs);
        },
        None => {
            assert(out@ =~= out@ + Seq::<(i32, i32)>::empty());
        },
    }
}

fn push_kind_moves(out: &mut Vec<(i32, i32)>, own: i32, x: i32, dirs: &Vec<(i32, i32)>)
    requires
        small_steps(dirs@),
        x != i32::MIN,
    ensures
        final(out)@ == old(out)@ + kind_moves(own, x, dirs@),
{
    let ghost base = out@;
    let low: i32 = x & -x;
    push_square_moves(out, own, low, dirs);
    push_square_moves(out, own, x ^ low, dirs);
    assert(out@ =~= base + kind_moves(own, x, dirs@));
}

fn push_drop_moves(out: &mut Vec<(i32, i32)>, h: i32, empty: i32)
    requires
        h != i32::MIN,
    ensures
        final(out)@ == old(out)@ + drop_moves(h, empty),
{
    let ghost base = out@;
    if h != 0 {
        let idx: i32 = h & -h;
        let mut k: usize = 0;
        while k < 12
            invariant
                k <= 12,
                h != 0,
                idx == lowest_bit(h),
                out@ == base + drop_targets(idx, empty, k as nat),
            decreases 12 - k,
        {
            let t: u32 = ((k % 4) * 3 + k / 4) as u32;
            let dst: i32 = 1i32 << t;
            assert(dst == sq_bit(drop_square(k as int)));
            if empty & dst != 0 {
                out.push((idx, dst));
            }
            k = k + 1;
        }
    } else {
        assert(out@ =~= base + drop_moves(h, empty));
    }
}

/// Every move of player 1 (`is_player1`) or player 2 on `board`, as
/// `(src, dst)` masks, in the order of `move_list`.
pub fn next_move_list(board: &BitBoard, is_player1: bool) -> (r: Vec<(i32, i32)>)
    requires
        move_gen_defined(*board, is_player1),
    ensures
        r@ == move_list(*board, is_player1),
{
    reveal(move_list);
    let mut next_move_list: Vec<(i32, i32)> = Vec::new();
    let player_board = own_bits(board, is_player1);
    let hand = hand_mask_of(is_player1);
    let empty_bit: i32 = !(board.pb1 | board.pb2);
    push_kind_moves(&mut next_move_list, player_board, player_board & board.hb, &chick_dirs_exec(is_player1));
    push_kind_moves(&mut next_move_list, player_board, player_board & board.zb, &elephant_dirs_exec());
    push_kind_moves(&mut next_move_list, player_board, player_board & board.kb, &giraffe_dirs_exec());
    push_square_moves(&mut next_move_list, player_board, player_board & board.lb, &lion_dirs_exec());
    push_kind_moves(&mut next_move_list, player_board, player_board & board.nb, &hen_dirs_exec(is_player1));
    let hb = board.hb;
    let zb = board.zb;
    let kb = board.kb;
    assert((hb & hand) != i32::MIN && (zb & hand) != i32::MIN && (kb & hand) != i32::MIN)
        by (bit_vector)
        requires
            hand == 0x3f000i32 || hand == 0xfc0000i32,
    ;
    push_drop_moves(&mut next_move_list, board.hb & hand, empty_bit);
    push_drop_moves(&mut next_move_list, board.zb & hand, empty_bit);
    push_drop_moves(&mut next_move_list, board.kb & hand, empty_bit);
    next_move_list
}

/// Squares `s` and `t` are distinct neighbours (a king's step apart).
pub open spec fn adjacent(s: int, t: int) -> bool {
    &&& s != t
    &&& -1 <= s % 3 - t % 3 <= 1
    &&& -1 <= s / 3 - t / 3 <= 1
}

/// `m` moves a piece of the mover (`own`) from a board square to a
/// neighbouring board square that the mover does not occupy.
pub open spec fn is_board_move(own: i32, m: (i32, i32)) -> bool {
    exists|s: int, t: int|
        0 <= s < 12 && 0 <= t < 12 && adjacent(s, t) && #[trigger] sq_bit(s) == m.0
            && #[trigger] sq_bit(t) == m.1 && own & m.0 != 0 && own & m.1 == 0
}

/// `x` has exactly one set bit.
pub open spec fn single_bit(x: i32) -> bool {
    x != 0 && (x & ((x - 1) as i32)) == 0
}

/// `m` drops a chick, elephant or giraffe from one slot of the mover's hand
/// on an empty board square.
pub open spec fn is_drop(b: BitBoard, is_player1: bool, m: (i32, i32)) -> bool {
    &&& m.0 > 0
    &&& single_bit(m.0)
    &&& (b.hb | b.zb | b.kb) & m.0 == m.0
    &&& m.0 & !hand_mask(is_player1) == 0
    &&& (b.pb1 | b.pb2) & m.1 == 0
    &&& exists|t: int| 0 <= t < 12 && #[trigger] sq_bit(t) == m.1
}

/// `m` is a board move or a drop of the mover.
pub open spec fn is_sound_move(b: BitBoard, is_player1: bool, m: (i32, i32)) -> bool {
    is_board_move(own_of(b, is_player1), m) || is_drop(b, is_player1, m)
}

proof fn lemma_sq_bit_positive(s: int)
    requires
        0 <= s < 24,
    ensures
        sq_bit(s) > 0,
{
    let u = s as u32;
    assert((1i32 << u) > 0) by (bit_vector)
        requires
            u < 24,
    ;
}

proof fn lemma_sq_bit_free(x: i32, t: int)
    requires
        0 <= t < 12,
        !x & sq_bit(t) != 0,
    ensures
        x & sq_bit(t) == 0,
{
    let u = t as u32;
    let y = !x;
    assert((!x & (1i32 << u)) != 0 ==> (x & (1i32 << u)) == 0) by (bit_vector)
        requires
            u < 12,
    ;
}

proof fn lemma_find_square(v: i32, from: nat)
    ensures
        match find_square(v, from) {
            Some(s) => from <= s < 12 && v == sq_bit(s),
            None => true,
        },
    decreases 12 - from,
{
    if from < 12 && v != sq_bit(from as int) {
        lemma_find_square(v, from + 1);
    }
}

proof fn lemma_piece_moves_sound(own: i32, s: int, dirs: Seq<(i32, i32)>)
    requires
        0 <= s < 12,
        own & sq_bit(s) != 0,
        small_steps(dirs),
        forall|i: int| 0 <= i < dirs.len() ==> #[trigger] dirs[i] != (0i32, 0i32),
    ensures
        forall|i: int|
            0 <= i < piece_moves(own, s, dirs).len() ==> is_board_move(
                own,
                #[trigger] piece_moves(own, s, dirs)[i],
            ),
    decreases dirs.len(),
{
    if dirs.len() > 0 {
        let prev = piece_moves(own, s, dirs.drop_last());
        assert forall|i: int| 0 <= i < dirs.drop_last().len() implies -1 <= #[trigger] dirs.drop_last()[i].0 <= 1
            && -1 <= dirs.drop_last()[i].1 <= 1 && dirs.drop_last()[i] != (0i32, 0i32) by {
            assert(dirs.drop_last()[i] == dirs[i]);
        }
        lemma_piece_moves_sound(own, s, dirs.drop_last());
        let d = dirs.last();
        assert(d == dirs[dirs.len() - 1]);
        match step(s, d) {
            Some(t) => {
                if own & sq_bit(t) == 0 {
                    let m = (sq_bit(s), sq_bit(t));
                    assert(adjacent(s, t));
                    assert(is_board_move(own, m));
                    assert forall|i: int|
                        0 <= i < piece_moves(own, s, dirs).len() implies is_board_move(
                        own,
                        #[trigger] piece_moves(own, s, dirs)[i],
                    ) by {
                        if i < prev.len() {
                            assert(piece_moves(own, s, dirs)[i] == prev[i]);
                        }
                    }
                }
            },
            None => {},
        }
    }
}

proof fn lemma_square_moves_sound(own: i32, v: i32, dirs: Seq<(i32, i32)>)
    requires
        own & v == v,
        small_steps(dirs),
        forall|i: int| 0 <= i < dirs.len() ==> #[trigger] dirs[i] != (0i32, 0i32),
    ensures
        forall|i: int|
            0 <= i < square_moves(own, v, dirs).len() ==> is_board_move(
                own,
                #[trigger] square_moves(own, v, dirs)[i],
            ),
{
    lemma_find_square(v, 0);
    match find_square(v, 0) {
        Some(s) => {
            lemma_sq_bit_positive(s);
            lemma_piece_moves_sound(own, s, dirs);
        },
        None => {},
    }
}

proof fn lemma_kind_moves_sound(own: i32, k: i32, dirs: Seq<(i32, i32)>)
    requires
        small_steps(dirs),
        forall|i: int| 0 <= i < dirs.len() ==> #[trigger] dirs[i] != (0i32, 0i32),
    ensures
        forall|i: int|
            0 <= i < kind_moves(own, own & k, dirs).len() ==> is_board_move(
                own,
                #[trigger] kind_moves(own, own & k, dirs)[i],
            ),
{
    let x = own & k;
    let low = lowest_bit(x);
    let neg = (-x) as i32;
    assert(own & (x & neg) == (x & neg) && own & (x ^ (x & neg)) == (x ^ (x & neg))) by (bit_vector)
        requires
            x == own & k,
    ;
    lemma_square_moves_sound(own, low, dirs);
    lemma_square_moves_sound(own, x ^ low, dirs);
    let a = square_moves(own, low, dirs);
    let c = square_moves(own, x ^ low, dirs);
    assert forall|i: int| 0 <= i < (a + c).len() implies is_board_move(own, #[trigger] (a + c)[i]) by {
        if i < a.len() {
            assert((a + c)[i] == a[i]);
        } else {
            assert((a + c)[i] == c[i - a.len()]);
        }
    }
}

proof fn lemma_drop_targets_unfold(idx: i32, empty: i32, k: nat)
    ensures
        k == 0 ==> drop_targets(idx, empty, k).len() == 0,
        k > 0 ==> drop_targets(idx, empty, k) == (if empty & sq_bit(drop_square(k - 1)) != 0 {
            drop_targets(idx, empty, (k - 1) as nat).push((idx, sq_bit(drop_square(k - 1))))
        } else {
            drop_targets(idx, empty, (k - 1) as nat)
        }),
{
    reveal_with_fuel(drop_targets, 2);
}

proof fn lemma_drop_targets_sound(b: BitBoard, is_player1: bool, idx: i32, k: nat)
    requires
        idx > 0,
        single_bit(idx),
        (b.hb | b.zb | b.kb) & idx == idx,
        idx & !hand_mask(is_player1) == 0,
        k <= 12,
    ensures
        forall|i: int|
            0 <= i < drop_targets(idx, !(b.pb1 | b.pb2), k).len() ==> is_drop(
                b,
                is_player1,
                #[trigger] drop_targets(idx, !(b.pb1 | b.pb2), k)[i],
            ),
    decreases k,
{
    let empty = !(b.pb1 | b.pb2);
    if k > 0 {
        lemma_drop_targets_sound(b, is_player1, idx, (k - 1) as nat);
        let prev = drop_targets(idx, empty, (k - 1) as nat);
        let t = drop_square(k - 1);
        let j = k - 1;
        lemma_drop_targets_unfold(idx, empty, k);
        assert(0 <= t < 12) by (nonlinear_arith)
            requires
                t == (j % 4) * 3 + j / 4,
                0 <= j < 12,
        ;
        if empty & sq_bit(t) != 0 {
            lemma_sq_bit_free(b.pb1 | b.pb2, t);
            assert(drop_targets(idx, empty, k) == prev.push((idx, sq_bit(t))));
            assert(is_drop(b, is_player1, (idx, sq_bit(t))));
            assert forall|i: int|
                0 <= i < drop_targets(idx, empty, k).len() implies is_drop(
                b,
                is_player1,
                #[trigger] drop_targets(idx, empty, k)[i],
            ) by {
                if i < prev.len() {
                    assert(drop_targets(idx, empty, k)[i] == prev[i]);
                }
            }
        } else {
            assert(drop_targets(idx, empty, k) == prev);
        }
    } else {
        lemma_drop_targets_unfold(idx, empty, k);
    }
}

proof fn lemma_drop_moves_sound(b: BitBoard, is_player1: bool, k: i32)
    requires
        k == b.hb || k == b.zb || k == b.kb,
    ensures
        forall|i: int|
            0 <= i < drop_moves(k & hand_mask(is_player1), !(b.pb1 | b.pb2)).len() ==> is_drop(
                b,
                is_player1,
                #[trigger] drop_moves(k & hand_mask(is_player1), !(b.pb1 | b.pb2))[i],
            ),
{
    let hand = hand_mask(is_player1);
    let h = k & hand;
    let u = b.hb | b.zb | b.kb;
    let (hb, zb, kb) = (b.hb, b.zb, b.kb);
    assert((hb | zb | kb) & hb == hb && (hb | zb | kb) & zb == zb && (hb | zb | kb) & kb == kb)
        by (bit_vector);
    if h != 0 {
        let low = h & ((-h) as i32);
        assert(low > 0 && low & !hand == 0 && u & low == low && low != 0 && (low & ((low - 1) as i32)) == 0)
            by (bit_vector)
            requires
                h == k & hand,
                h != 0,
                low == h & ((-h) as i32),
                u & k == k,
                hand == 0x3f000i32 || hand == 0xfc0000i32,
        ;
        lemma_drop_targets_sound(b, is_player1, lowest_bit(h), 12);
    }
}

proof fn lemma_concat_sound(b: BitBoard, is_player1: bool, x: Seq<(i32, i32)>, y: Seq<(i32, i32)>)
    requires
        forall|i: int| 0 <= i < x.len() ==> is_sound_move(b, is_player1, #[trigger] x[i]),
        forall|i: int| 0 <= i < y.len() ==> is_sound_move(b, is_player1, #[trigger] y[i]),
    ensures
        forall|i: int| 0 <= i < (x + y).len() ==> is_sound_move(b, is_player1, #[trigger] (x + y)[i]),
{
    assert forall|i: int| 0 <= i < (x + y).len() implies is_sound_move(b, is_player1, #[trigger] (x + y)[i]) by {
        if i < x.len() {
            assert((x + y)[i] == x[i]);
        } else {
            assert((x + y)[i] == y[i - x.len()]);
        }
    }
}

/// Every listed move either moves one of the mover's pieces from a board
/// square to a neighbouring board square that the mover does not occupy, or
/// drops a piece from the mover's hand on an empty board square.
pub proof fn lemma_move_list_sound(b: BitBoard, is_player1: bool)
    ensures
        forall|i: int|
            0 <= i < move_list(b, is_player1).len() ==> is_sound_move(
                b,
                is_player1,
                #[trigger] move_list(b, is_player1)[i],
            ),
{
    reveal(move_list);
    let own = own_of(b, is_player1);
    let hand = hand_mask(is_player1);
    let empty = !(b.pb1 | b.pb2);
    assert(small_steps(chick_dirs(is_player1)));
    assert(small_steps(elephant_dirs()));
    assert(small_steps(giraffe_dirs()));
    assert(small_steps(lion_dirs()));
    assert(small_steps(hen_dirs(is_player1)));
    lemma_kind_moves_sound(own, b.hb, chick_dirs(is_player1));
    lemma_kind_moves_sound(own, b.zb, elephant_dirs());
    lemma_kind_moves_sound(own, b.kb, giraffe_dirs());
    let lb = b.lb;
    assert(own & (own & lb) == own & lb) by (bit_vector);
    lemma_square_moves_sound(own, own & b.lb, lion_dirs());
    lemma_kind_moves_sound(own, b.nb, hen_dirs(is_player1));
    lemma_drop_moves_sound(b, is_player1, b.hb);
    lemma_drop_moves_sound(b, is_player1, b.zb);
    lemma_drop_moves_sound(b, is_player1, b.kb);
    let s1 = kind_moves(own, own & b.hb, chick_dirs(is_player1));
    let s2 = kind_moves(own, own & b.zb, elephant_dirs());
    let s3 = kind_moves(own, own & b.kb, giraffe_dirs());
    let s4 = square_moves(own, own & b.lb, lion_dirs());
    let s5 = kind_moves(own, own & b.nb, hen_dirs(is_player1));
    let s6 = drop_moves(b.hb & hand, empty);
    let s7 = drop_moves(b.zb & hand, empty);
    let s8 = drop_moves(b.kb & hand, empty);
    lemma_concat_sound(b, is_player1, s1, s2);
    lemma_concat_sound(b, is_player1, s1 + s2, s3);
    lemma_concat_sound(b, is_player1, s1 + s2 + s3, s4);
    lemma_concat_sound(b, is_player1, s1 + s2 + s3 + s4, s5);
    lemma_concat_sound(b, is_player1, s1 + s2 + s3 + s4 + s5, s6);
    lemma_concat_sound(b, is_player1, s1 + s2 + s3 + s4 + s5 + s6, s7);
    lemma_concat_sound(b, is_player1, s1 + s2 + s3 + s4 + s5 + s6 + s7, s8);
}

/// Both masks of every listed move are positive.
pub proof fn lemma_move_list_positive(b: BitBoard, is_player1: bool)
    ensures
        forall|i: int|
            0 <= i < move_list(b, is_player1).len() ==> (#[trigger] move_list(b, is_player1)[i]).0
                > 0 && move_list(b, is_player1)[i].1 > 0,
{
    lemma_move_list_sound(b, is_player1);
    assert forall|i: int| 0 <= i < move_list(b, is_player1).len() implies (
    #[trigger] move_list(b, is_player1)[i]).0 > 0 && move_list(b, is_player1)[i].1 > 0 by {
        let m = move_list(b, is_player1)[i];
        assert(is_sound_move(b, is_player1, m));
        if is_board_move(own_of(b, is_player1), m) {
            let (s, t) = choose|s: int, t: int|
                0 <= s < 12 && 0 <= t < 12 && adjacent(s, t) && #[trigger] sq_bit(s) == m.0
                    && #[trigger] sq_bit(t) == m.1 && own_of(b, is_player1) & m.0 != 0 && own_of(
                    b,
                    is_player1,
                ) & m.1 == 0;
            lemma_sq_bit_positive(s);
            lemma_sq_bit_positive(t);
        } else {
            let t = choose|t: int| 0 <= t < 12 && #[trigger] sq_bit(t) == m.1;
            lemma_sq_bit_positive(t);
        }
    }
}

/// On a board whose bitboards are non-negative the moves can be generated.
pub proof fn lemma_move_gen_defined(b: BitBoard, is_player1: bool)
    requires
        b.non_negative(),
    ensures
        move_gen_defined(b, is_player1),
{
    let own = own_of(b, is_player1);
    let hb = b.hb;
    let zb = b.zb;
    let kb = b.kb;
    let nb = b.nb;
    assert((own & hb) >= 0 && (own & zb) >= 0 && (own & kb) >= 0 && (own & nb) >= 0) by (bit_vector)
        requires
            own >= 0,
    ;
}

} // verus!
