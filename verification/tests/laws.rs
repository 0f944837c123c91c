use dobutsu::bit_board::{BitBoard, BOARD_MASK, D_HAND_MASK, E_HAND_MASK};
use dobutsu::parse::{board_text_well_formed, make_bit_board};
use dobutsu::eval::{eval_function, judge};
use dobutsu::movegen::next_move_list;
use dobutsu::moves::make_moved_board;
use dobutsu::search::{nega_alpha, nega_scout};

fn sample_boards() -> Vec<BitBoard> {
    vec![
        BitBoard { pb1: 0xe80, pb2: 0x17, lb: 0x402, kb: 0x801, zb: 0x204, hb: 0x90, nb: 0x0 },
        BitBoard { pb1: 0x1e10, pb2: 0x7, lb: 0x402, kb: 0x801, zb: 0x204, hb: 0x1010, nb: 0x0 },
        BitBoard { pb1: 0x1e00, pb2: 0x40013, lb: 0x402, kb: 0x801, zb: 0x210, hb: 0x41000, nb: 0x0 },
        BitBoard { pb1: 0x1c80, pb2: 0x40013, lb: 0x402, kb: 0x801, zb: 0x90, hb: 0x41000, nb: 0x0 },
        BitBoard { pb1: 0x1c80, pb2: 0x113, lb: 0x402, kb: 0x801, zb: 0x90, hb: 0x1100, nb: 0x0 },
        BitBoard { pb1: 0xc88, pb2: 0x113, lb: 0x402, kb: 0x801, zb: 0x90, hb: 0x108, nb: 0x0 },
        BitBoard { pb1: 0x488, pb2: 0x40813, lb: 0x402, kb: 0x40001, zb: 0x90, hb: 0x8, nb: 0x800 },
        BitBoard { pb1: 0x610, pb2: 0x22, lb: 0x402, kb: 0x200, zb: 0x0, hb: 0x0, nb: 0x30 },
        BitBoard { pb1: 0x3400, pb2: 0x1c0002, lb: 0x402, kb: 0x41000, zb: 0x82000, hb: 0x100000, nb: 0x0 },
    ]
}

fn fields(b: &BitBoard) -> [i32; 7] {
    [b.pb1, b.pb2, b.lb, b.kb, b.zb, b.hb, b.nb]
}

fn square_of(bit: i32) -> Option<i32> {
    (0..24).find(|s| bit == 1i32 << s)
}

#[test]
fn listed_moves_are_board_moves_or_drops() {
    for b in sample_boards() {
        for is_player1 in [true, false] {
            let own = if is_player1 { b.pb1 } else { b.pb2 };
            let hand = if is_player1 { D_HAND_MASK } else { E_HAND_MASK };
            for (src, dst) in next_move_list(&b, is_player1) {
                let t = square_of(dst).unwrap();
                assert!(t < 12);
                if src & hand != 0 {
                    assert!(src > 0 && src & !hand == 0);
                    assert_eq!((b.pb1 | b.pb2) & dst, 0);
                } else {
                    let s = square_of(src).unwrap();
                    assert!(s < 12 && s != t);
                    assert!((s % 3 - t % 3).abs() <= 1 && (s / 3 - t / 3).abs() <= 1);
                    assert_ne!(own & src, 0);
                    assert_eq!(own & dst, 0);
                }
            }
        }
    }
}

#[test]
fn moves_keep_boards_in_range_and_occupy_destination() {
    for b in sample_boards() {
        for is_player1 in [true, false] {
            for mv in next_move_list(&b, is_player1) {
                let after = make_moved_board(&b, mv, is_player1);
                for f in fields(&after) {
                    assert!(0 <= f && f < 0x100_0000);
                }
                let (own, opp) = if is_player1 { (after.pb1, after.pb2) } else { (after.pb2, after.pb1) };
                assert_eq!(mv.1 & !BOARD_MASK, 0);
                assert_eq!(own & mv.1, mv.1);
                let hand = if is_player1 { D_HAND_MASK } else { E_HAND_MASK };
                if mv.0 & hand == 0 {
                    assert_eq!(opp & mv.1, 0);
                    assert_eq!(own & mv.0, mv.0 & mv.1);
                }
            }
        }
    }
}

#[test]
fn judge_is_zero_sum_and_eval_counts_for_player1() {
    for b in sample_boards() {
        for bef in sample_boards() {
            let j = judge(&b, &bef, true);
            assert_eq!(j, -judge(&b, &bef, false));
            assert!(j == 0 || j == 10000 || j == -10000);
            if j == 0 {
                assert_eq!(eval_function(&b, &bef, true), eval_function(&b, &bef, false));
            }
        }
    }
}

#[test]
fn alpha_beta_score_respects_window() {
    for b in sample_boards() {
        for is_player1 in [true, false] {
            for depth in 1..3 {
                let v = nega_alpha(&b, &b, is_player1, depth, i32::MIN + 1, i32::MAX).point;
                for (alpha, beta) in [(-3, 4), (-100, -2), (2, 100), (v - 1, v + 1), (v, v + 5), (v - 5, v)] {
                    let r = nega_alpha(&b, &b, is_player1, depth, alpha, beta).point;
                    if v <= alpha {
                        assert!(v <= r && r <= alpha);
                    } else if v < beta {
                        assert_eq!(r, v);
                    } else {
                        assert!(beta <= r && r <= v);
                    }
                }
            }
        }
    }
}

#[test]
fn searches_choose_listed_moves() {
    for b in sample_boards() {
        for is_player1 in [true, false] {
            let moves = next_move_list(&b, is_player1);
            let a = nega_alpha(&b, &b, is_player1, 2, -50000, 50000).best_move;
            assert!(a == (0, 0) || moves.contains(&a));
            let s = nega_scout(&b, &b, is_player1, 2, -50000, 50000).best_move;
            assert!(s == (0, 0) || moves.contains(&s));
        }
    }
}

fn consistent(b: &BitBoard) -> bool {
    let kinds = [b.lb, b.kb, b.zb, b.hb, b.nb];
    let mut ok = fields(b).iter().all(|&f| 0 <= f && f < 0x100_0000);
    ok = ok && b.pb1 & b.pb2 == 0;
    for i in 0..5 {
        for j in (i + 1)..5 {
            ok = ok && kinds[i] & kinds[j] == 0;
        }
    }
    ok = ok && (b.pb1 | b.pb2) == (b.lb | b.kb | b.zb | b.hb | b.nb);
    ok = ok && b.pb1 & E_HAND_MASK == 0 && b.pb2 & D_HAND_MASK == 0;
    let h1 = b.pb1 & D_HAND_MASK;
    let h2 = b.pb2 & E_HAND_MASK;
    ok = ok && h1 & (h1 + 0x1000) == 0 && h2 & (h2 + 0x40000) == 0;
    ok && (b.lb | b.nb) & (D_HAND_MASK | E_HAND_MASK) == 0
}

#[test]
fn moves_keep_positions_consistent() {
    for b in sample_boards() {
        assert!(consistent(&b));
        for is_player1 in [true, false] {
            let (own, opp) = if is_player1 { (b.pb1, b.pb2) } else { (b.pb2, b.pb1) };
            let hand = if is_player1 { D_HAND_MASK } else { E_HAND_MASK };
            for mv in next_move_list(&b, is_player1) {
                if own & hand != hand && b.lb & opp & mv.1 == 0 {
                    assert!(consistent(&make_moved_board(&b, mv, is_player1)));
                }
            }
        }
    }
}

#[test]
fn capturing_the_lion_wins() {
    // Player 1's chick on square 4 can take the lion on square 1.
    let b = BitBoard { pb1: 0x1e10, pb2: 0x7, lb: 0x402, kb: 0x801, zb: 0x204, hb: 0x1010, nb: 0x0 };
    let mut wins = 0;
    for is_player1 in [true, false] {
        let opp = if is_player1 { b.pb2 } else { b.pb1 };
        for mv in next_move_list(&b, is_player1) {
            if b.lb & opp == mv.1 {
                let after = make_moved_board(&b, mv, is_player1);
                assert_eq!(judge(&after, &b, is_player1), 10000);
                wins += 1;
            }
        }
    }
    assert!(wins >= 1);
}

fn flip(x: i32) -> i32 {
    ((x & 0x7) << 9) | ((x >> 9) & 0x7) | ((x & 0x38) << 3) | ((x >> 3) & 0x38) | ((x & 0x3f000) << 6)
        | ((x >> 6) & 0x3f000)
}

fn flip_board(b: &BitBoard) -> BitBoard {
    BitBoard {
        pb1: flip(b.pb2),
        pb2: flip(b.pb1),
        lb: flip(b.lb),
        kb: flip(b.kb),
        zb: flip(b.zb),
        hb: flip(b.hb),
        nb: flip(b.nb),
    }
}

fn pop(x: i32) -> u32 {
    (x & 0xff_ffff).count_ones()
}

#[test]
fn moves_mirror_between_players() {
    for b in sample_boards() {
        let fb = flip_board(&b);
        for is_player1 in [true, false] {
            let own = if is_player1 { b.pb1 } else { b.pb2 };
            let hand = if is_player1 { D_HAND_MASK } else { E_HAND_MASK };
            if own & hand == hand {
                continue;
            }
            for s in 0..24 {
                for d in 0..24 {
                    if s == d {
                        continue;
                    }
                    let (src, dst) = (1i32 << s, 1i32 << d);
                    let mirrored = make_moved_board(&fb, (flip(src), flip(dst)), !is_player1);
                    assert_eq!(mirrored, flip_board(&make_moved_board(&b, (src, dst), is_player1)));
                }
            }
            let mut listed: Vec<(i32, i32)> =
                next_move_list(&b, is_player1).iter().map(|&(s, d)| (flip(s), flip(d))).collect();
            let mut mirrored = next_move_list(&fb, !is_player1);
            listed.sort();
            mirrored.sort();
            assert_eq!(listed, mirrored);
        }
    }
}

#[test]
fn listed_moves_keep_piece_counts() {
    for b in sample_boards() {
        for is_player1 in [true, false] {
            let own = if is_player1 { b.pb1 } else { b.pb2 };
            let hand = if is_player1 { D_HAND_MASK } else { E_HAND_MASK };
            if own & hand == hand {
                continue;
            }
            for mv in next_move_list(&b, is_player1) {
                let r = make_moved_board(&b, mv, is_player1);
                assert_eq!(pop(r.pb1 | r.pb2), pop(b.pb1 | b.pb2));
                assert_eq!(pop(r.lb), pop(b.lb));
                assert_eq!(pop(r.kb), pop(b.kb));
                assert_eq!(pop(r.zb), pop(b.zb));
                assert_eq!(pop(r.hb | r.nb), pop(b.hb | b.nb));
            }
        }
    }
}

#[test]
fn alpha_beta_best_move_matches_score() {
    for b in sample_boards() {
        for is_player1 in [true, false] {
            if judge(&b, &b, is_player1) != 0 {
                continue;
            }
            let depth = 2;
            let v = nega_alpha(&b, &b, is_player1, depth, -50000, 50000).point;
            for (alpha, beta) in [(-50000, 50000), (v - 1, v + 1), (v, v + 3), (v - 3, v), (-2, 2)] {
                let r = nega_alpha(&b, &b, is_player1, depth, alpha, beta);
                assert!(r.point >= alpha);
                assert_eq!(r.best_move == (0, 0), r.point == alpha);
                if r.best_move != (0, 0) {
                    assert!(next_move_list(&b, is_player1).contains(&r.best_move));
                }
                if alpha < v && v < beta {
                    let child = make_moved_board(&b, r.best_move, is_player1);
                    let reply = nega_alpha(&child, &b, !is_player1, depth - 1, -50000, 50000).point;
                    assert_eq!(-reply, v);
                }
            }
        }
    }
}

#[test]
fn board_text_items_in_any_order() {
    let items = [
        "A1 g2", "B1 l2", "C1 e2", "A2 --", "B2 c2", "C2 --", "A3 --", "B3 c1", "C3 --", "A4 e1", "B4 l1",
        "C4 g1", "D1 --", "E1 --",
    ];
    let text = |order: &[usize]| -> Vec<u8> {
        let parts: Vec<&str> = order.iter().map(|&i| items[i]).collect();
        format!("{}, \n", parts.join(", ")).into_bytes()
    };
    let forward: Vec<usize> = (0..items.len()).collect();
    let backward: Vec<usize> = (0..items.len()).rev().collect();
    let shuffled: Vec<usize> = (0..items.len()).map(|i| (i * 5) % items.len()).collect();
    let mut a = text(&forward);
    let mut b = text(&backward);
    let mut c = text(&shuffled);
    assert!(board_text_well_formed(&a) && board_text_well_formed(&b) && board_text_well_formed(&c));
    let expected = BitBoard { pb1: 0xe80, pb2: 0x17, lb: 0x402, kb: 0x801, zb: 0x204, hb: 0x90, nb: 0x0 };
    assert_eq!(make_bit_board(&mut a), expected);
    assert_eq!(make_bit_board(&mut b), expected);
    assert_eq!(make_bit_board(&mut c), expected);
}
