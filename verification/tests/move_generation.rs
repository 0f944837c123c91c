use dobutsu::bit_board::BitBoard;
use dobutsu::movegen::next_move_list;


#[test]
fn move_list_initial_player1() {
    let board = BitBoard { pb1: 0xe80, pb2: 0x17, lb: 0x402, kb: 0x801, zb: 0x204, hb: 0x90, nb: 0x0 };
    let expected: Vec<(i32, i32)> = vec![(0x80, 0x10), (0x800, 0x100), (0x400, 0x100), (0x400, 0x40)];
    assert_eq!(next_move_list(&board, true), expected);
}

#[test]
fn move_list_initial_player2() {
    let board = BitBoard { pb1: 0xe80, pb2: 0x17, lb: 0x402, kb: 0x801, zb: 0x204, hb: 0x90, nb: 0x0 };
    let expected: Vec<(i32, i32)> = vec![(0x10, 0x80), (0x1, 0x8), (0x2, 0x20), (0x2, 0x8)];
    assert_eq!(next_move_list(&board, false), expected);
}

#[test]
fn move_list_after1_player1() {
    let board = BitBoard { pb1: 0x1e10, pb2: 0x7, lb: 0x402, kb: 0x801, zb: 0x204, hb: 0x1010, nb: 0x0 };
    let expected: Vec<(i32, i32)> = vec![(0x10, 0x2), (0x200, 0x80), (0x800, 0x100), (0x400, 0x80), (0x400, 0x100), (0x400, 0x40), (0x1000, 0x8), (0x1000, 0x40), (0x1000, 0x80), (0x1000, 0x20), (0x1000, 0x100)];
    assert_eq!(next_move_list(&board, true), expected);
}

#[test]
fn move_list_after1_player2() {
    let board = BitBoard { pb1: 0x1e10, pb2: 0x7, lb: 0x402, kb: 0x801, zb: 0x204, hb: 0x1010, nb: 0x0 };
    let expected: Vec<(i32, i32)> = vec![(0x4, 0x10), (0x1, 0x8), (0x2, 0x20), (0x2, 0x8), (0x2, 0x10)];
    assert_eq!(next_move_list(&board, false), expected);
}

#[test]
fn move_list_after2_player1() {
    let board = BitBoard { pb1: 0x1e00, pb2: 0x40013, lb: 0x402, kb: 0x801, zb: 0x210, hb: 0x41000, nb: 0x0 };
    let expected: Vec<(i32, i32)> = vec![(0x200, 0x80), (0x800, 0x100), (0x400, 0x80), (0x400, 0x100), (0x400, 0x40), (0x1000, 0x8), (0x1000, 0x40), (0x1000, 0x80), (0x1000, 0x4), (0x1000, 0x20), (0x1000, 0x100)];
    assert_eq!(next_move_list(&board, true), expected);
}

#[test]
fn move_list_after2_player2() {
    let board = BitBoard { pb1: 0x1e00, pb2: 0x40013, lb: 0x402, kb: 0x801, zb: 0x210, hb: 0x41000, nb: 0x0 };
    let expected: Vec<(i32, i32)> = vec![(0x10, 0x100), (0x10, 0x40), (0x10, 0x4), (0x1, 0x8), (0x2, 0x4), (0x2, 0x20), (0x2, 0x8), (0x40000, 0x8), (0x40000, 0x40), (0x40000, 0x80), (0x40000, 0x4), (0x40000, 0x20), (0x40000, 0x100)];
    assert_eq!(next_move_list(&board, false), expected);
}

#[test]
fn move_list_after3_player1() {
    let board = BitBoard { pb1: 0x1c80, pb2: 0x40013, lb: 0x402, kb: 0x801, zb: 0x90, hb: 0x41000, nb: 0x0 };
    let expected: Vec<(i32, i32)> = vec![(0x80, 0x200), (0x80, 0x8), (0x80, 0x20), (0x800, 0x100), (0x400, 0x100), (0x400, 0x40), (0x400, 0x200), (0x1000, 0x8), (0x1000, 0x40), (0x1000, 0x200), (0x1000, 0x4), (0x1000, 0x20), (0x1000, 0x100)];
    assert_eq!(next_move_list(&board, true), expected);
}

#[test]
fn move_list_after3_player2() {
    let board = BitBoard { pb1: 0x1c80, pb2: 0x40013, lb: 0x402, kb: 0x801, zb: 0x90, hb: 0x41000, nb: 0x0 };
    let expected: Vec<(i32, i32)> = vec![(0x10, 0x100), (0x10, 0x40), (0x10, 0x4), (0x1, 0x8), (0x2, 0x4), (0x2, 0x20), (0x2, 0x8), (0x40000, 0x8), (0x40000, 0x40), (0x40000, 0x200), (0x40000, 0x4), (0x40000, 0x20), (0x40000, 0x100)];
    assert_eq!(next_move_list(&board, false), expected);
}

#[test]
fn move_list_after4_player1() {
    let board = BitBoard { pb1: 0x1c80, pb2: 0x113, lb: 0x402, kb: 0x801, zb: 0x90, hb: 0x1100, nb: 0x0 };
    let expected: Vec<(i32, i32)> = vec![(0x80, 0x200), (0x80, 0x8), (0x80, 0x20), (0x800, 0x100), (0x400, 0x100), (0x400, 0x40), (0x400, 0x200), (0x1000, 0x8), (0x1000, 0x40), (0x1000, 0x200), (0x1000, 0x4), (0x1000, 0x20)];
    assert_eq!(next_move_list(&board, true), expected);
}

#[test]
fn move_list_after4_player2() {
    let board = BitBoard { pb1: 0x1c80, pb2: 0x113, lb: 0x402, kb: 0x801, zb: 0x90, hb: 0x1100, nb: 0x0 };
    let expected: Vec<(i32, i32)> = vec![(0x100, 0x800), (0x10, 0x40), (0x10, 0x4), (0x1, 0x8), (0x2, 0x4), (0x2, 0x20), (0x2, 0x8)];
    assert_eq!(next_move_list(&board, false), expected);
}

#[test]
fn move_list_after5_player1() {
    let board = BitBoard { pb1: 0xc88, pb2: 0x113, lb: 0x402, kb: 0x801, zb: 0x90, hb: 0x108, nb: 0x0 };
    let expected: Vec<(i32, i32)> = vec![(0x8, 0x1), (0x80, 0x200), (0x80, 0x20), (0x800, 0x100), (0x400, 0x100), (0x400, 0x40), (0x400, 0x200)];
    assert_eq!(next_move_list(&board, true), expected);
}

#[test]
fn move_list_after5_player2() {
    let board = BitBoard { pb1: 0xc88, pb2: 0x113, lb: 0x402, kb: 0x801, zb: 0x90, hb: 0x108, nb: 0x0 };
    let expected: Vec<(i32, i32)> = vec![(0x100, 0x800), (0x10, 0x40), (0x10, 0x4), (0x1, 0x8), (0x2, 0x4), (0x2, 0x20), (0x2, 0x8)];
    assert_eq!(next_move_list(&board, false), expected);
}

#[test]
fn move_list_after6_player1() {
    let board = BitBoard { pb1: 0x488, pb2: 0x40813, lb: 0x402, kb: 0x40001, zb: 0x90, hb: 0x8, nb: 0x800 };
    let expected: Vec<(i32, i32)> = vec![(0x8, 0x1), (0x80, 0x800), (0x80, 0x200), (0x80, 0x20), (0x400, 0x100), (0x400, 0x40), (0x400, 0x800), (0x400, 0x200)];
    assert_eq!(next_move_list(&board, true), expected);
}

#[test]
fn move_list_after6_player2() {
    let board = BitBoard { pb1: 0x488, pb2: 0x40813, lb: 0x402, kb: 0x40001, zb: 0x90, hb: 0x8, nb: 0x800 };
    let expected: Vec<(i32, i32)> = vec![(0x10, 0x100), (0x10, 0x40), (0x10, 0x4), (0x1, 0x8), (0x2, 0x4), (0x2, 0x20), (0x2, 0x8), (0x800, 0x400), (0x800, 0x100), (0x40000, 0x40), (0x40000, 0x200), (0x40000, 0x4), (0x40000, 0x20), (0x40000, 0x100)];
    assert_eq!(next_move_list(&board, false), expected);
}

#[test]
fn move_list_hens_player1() {
    let board = BitBoard { pb1: 0x610, pb2: 0x22, lb: 0x402, kb: 0x200, zb: 0x0, hb: 0x0, nb: 0x30 };
    let expected: Vec<(i32, i32)> = vec![(0x200, 0x40), (0x400, 0x80), (0x400, 0x100), (0x400, 0x40), (0x400, 0x800), (0x10, 0x80), (0x10, 0x4), (0x10, 0x20), (0x10, 0x1), (0x10, 0x8), (0x10, 0x2)];
    assert_eq!(next_move_list(&board, true), expected);
}

#[test]
fn move_list_hens_player2() {
    let board = BitBoard { pb1: 0x610, pb2: 0x22, lb: 0x402, kb: 0x200, zb: 0x0, hb: 0x0, nb: 0x30 };
    let expected: Vec<(i32, i32)> = vec![(0x2, 0x4), (0x2, 0x1), (0x2, 0x8), (0x2, 0x10), (0x20, 0x10), (0x20, 0x80), (0x20, 0x4), (0x20, 0x100)];
    assert_eq!(next_move_list(&board, false), expected);
}

#[test]
fn move_list_drops_player1() {
    let board = BitBoard { pb1: 0x3400, pb2: 0x1c0002, lb: 0x402, kb: 0x41000, zb: 0x82000, hb: 0x100000, nb: 0x0 };
    let expected: Vec<(i32, i32)> = vec![(0x400, 0x80), (0x400, 0x100), (0x400, 0x40), (0x400, 0x800), (0x400, 0x200), (0x2000, 0x1), (0x2000, 0x8), (0x2000, 0x40), (0x2000, 0x200), (0x2000, 0x10), (0x2000, 0x80), (0x2000, 0x4), (0x2000, 0x20), (0x2000, 0x100), (0x2000, 0x800), (0x1000, 0x1), (0x1000, 0x8), (0x1000, 0x40), (0x1000, 0x200), (0x1000, 0x10), (0x1000, 0x80), (0x1000, 0x4), (0x1000, 0x20), (0x1000, 0x100), (0x1000, 0x800)];
    assert_eq!(next_move_list(&board, true), expected);
}

#[test]
fn move_list_drops_player2() {
    let board = BitBoard { pb1: 0x3400, pb2: 0x1c0002, lb: 0x402, kb: 0x41000, zb: 0x82000, hb: 0x100000, nb: 0x0 };
    let expected: Vec<(i32, i32)> = vec![(0x2, 0x4), (0x2, 0x1), (0x2, 0x20), (0x2, 0x8), (0x2, 0x10), (0x100000, 0x1), (0x100000, 0x8), (0x100000, 0x40), (0x100000, 0x200), (0x100000, 0x10), (0x100000, 0x80), (0x100000, 0x4), (0x100000, 0x20), (0x100000, 0x100), (0x100000, 0x800), (0x80000, 0x1), (0x80000, 0x8), (0x80000, 0x40), (0x80000, 0x200), (0x80000, 0x10), (0x80000, 0x80), (0x80000, 0x4), (0x80000, 0x20), (0x80000, 0x100), (0x80000, 0x800), (0x40000, 0x1), (0x40000, 0x8), (0x40000, 0x40), (0x40000, 0x200), (0x40000, 0x10), (0x40000, 0x80), (0x40000, 0x4), (0x40000, 0x20), (0x40000, 0x100), (0x40000, 0x800)];
    assert_eq!(next_move_list(&board, false), expected);
}
