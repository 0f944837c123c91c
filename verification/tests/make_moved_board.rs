use dobutsu::bit_board::{
    BitBoard, A1_INDEX, A2_INDEX, A3_INDEX, A4_INDEX, B1_INDEX, B2_INDEX, B3_INDEX, B4_INDEX,
    C1_INDEX, C2_INDEX, C3_INDEX, C4_INDEX, D1_INDEX, E1_INDEX, E2_INDEX, E3_INDEX,
};
use dobutsu::moves::make_moved_board;

#[test]
fn test1_make_moved_board() {
    let mut board = BitBoard {
        pb1: 0b_000000_000000_111_010_000_000,
        lb: 0b_000000_000000_010_000_000_010,
        kb: 0b_000000_000000_100_000_000_001,
        zb: 0b_000000_000000_001_000_000_100,
        hb: 0b_000000_000000_000_010_010_000,
        nb: 0b_000000_000000_000_000_000_000,
        pb2: 0b_000000_000000_000_000_010_111,
    };
    let move_vec_list = [
        (B3_INDEX, B2_INDEX),
        (C1_INDEX, B2_INDEX),
        (A4_INDEX, B3_INDEX),
        (E1_INDEX, C3_INDEX),
        (D1_INDEX, A2_INDEX),
        (C3_INDEX, C4_INDEX),
        (B3_INDEX, C4_INDEX),
        (A1_INDEX, A2_INDEX),
        (C4_INDEX, B3_INDEX),
        (A2_INDEX, A3_INDEX),
        (D1_INDEX, A4_INDEX),
        (A3_INDEX, B3_INDEX),
        (B4_INDEX, B3_INDEX),
        (E3_INDEX, C2_INDEX),
        (B3_INDEX, B4_INDEX),
        (E1_INDEX, B3_INDEX),
        (B4_INDEX, C4_INDEX),
        (E1_INDEX, C3_INDEX),
        (C4_INDEX, B3_INDEX),
        (C2_INDEX, B3_INDEX),
    ];
    println!("{}", board.display_string());
    let mut is_player1 = true;
    for move_vec in move_vec_list {
        println!("{:?}", move_vec);
        board = make_moved_board(&board, move_vec, is_player1);
        println!("{}", board.display_string());
        is_player1 = !is_player1;
    }

    let moved_board = BitBoard {
        pb1: 0b_000000_000011_001_000_000_000,
        lb: 0b_000001_000000_000_000_000_010,
        kb: 0b_000000_000011_000_000_000_000,
        zb: 0b_000000_000000_000_010_010_000,
        hb: 0b_000000_000000_001_100_000_000,
        nb: 0b_000000_000000_000_000_000_000,
        pb2: 0b_000001_000000_000_110_010_010,
    };
    assert_eq!(moved_board, board);
}

#[test]
fn test2_make_moved_board() {
    let mut board = BitBoard {
        pb1: 0b_000000_000000_111_010_000_000,
        lb: 0b_000000_000000_010_000_000_010,
        kb: 0b_000000_000000_100_000_000_001,
        zb: 0b_000000_000000_001_000_000_100,
        hb: 0b_000000_000000_000_010_000_000,
        nb: 0b_000000_000000_000_000_010_000,
        pb2: 0b_000000_000000_000_000_010_111,
    };
    let move_vec_list = [
        (B3_INDEX, A1_INDEX),
        (B2_INDEX, A2_INDEX),
        (A1_INDEX, A2_INDEX),
        (C1_INDEX, B2_INDEX),
        (A2_INDEX, A3_INDEX),
        (B2_INDEX, A3_INDEX),
        (B4_INDEX, A3_INDEX),
        (E1_INDEX, A2_INDEX),
        (A3_INDEX, A2_INDEX),
        (B1_INDEX, C1_INDEX),
        (D1_INDEX, B3_INDEX),
        (C1_INDEX, B1_INDEX),
        (D1_INDEX, A3_INDEX),
    ];
    let mut is_player1 = true;
    //println!("{}", board.display_string());
    for move_vec in move_vec_list {
        board = make_moved_board(&board, move_vec, is_player1);
        //println!("{}, {:?}", if is_player1 { "p1" } else { "p2" }, move_vec);
        //println!("{}", board.display_string());
        is_player1 = !is_player1;
    }

    let moved_board = BitBoard {
        pb1: 0b_000000_000011_101_011_001_000,
        lb: 0b_000000_000000_000_000_001_010,
        kb: 0b_000000_000000_100_010_000_000,
        zb: 0b_000000_000001_001_000_000_000,
        hb: 0b_000000_000010_000_001_000_000,
        nb: 0b_000000_000000_000_000_000_000,
        pb2: 0b_000000_000000_000_000_000_010,
    };
    assert_eq!(moved_board, board);
}

#[test]
fn test3_make_moved_board() {
    let mut board = BitBoard {
        pb1: 0b_000000_000000_111_010_000_000,
        lb: 0b_000000_000000_010_000_000_010,
        kb: 0b_000000_000000_100_000_000_001,
        zb: 0b_000000_000000_001_000_000_100,
        hb: 0b_000000_000000_000_010_010_000,
        nb: 0b_000000_000000_000_000_000_000,
        pb2: 0b_000000_000000_000_000_010_111,
    };
    let move_vec_list = [
        (C4_INDEX, C3_INDEX),
        (B2_INDEX, A4_INDEX),
        (C3_INDEX, C2_INDEX),
        (A4_INDEX, C2_INDEX),
        (B3_INDEX, B2_INDEX),
        (C2_INDEX, B3_INDEX),
        (B4_INDEX, C4_INDEX),
        (B3_INDEX, B2_INDEX),
        (C4_INDEX, B2_INDEX),
        (E2_INDEX, B4_INDEX),
        (D1_INDEX, B3_INDEX),
        (B1_INDEX, B3_INDEX),
        (B2_INDEX, B1_INDEX),
        (E2_INDEX, C4_INDEX),
    ];
    let mut is_player1 = true;
    for move_vec in move_vec_list {
        board = make_moved_board(&board, move_vec, is_player1);
        println!("{:?}", board);
        is_player1 = !is_player1;
    }
    let moved_board = BitBoard {
        pb1: 0b_000000_000000_000_000_000_010,
        lb: 0b_000000_000000_000_010_000_010,
        kb: 0b_000000_000000_010_000_000_001,
        zb: 0b_000001_000000_000_000_000_100,
        hb: 0b_000010_000000_100_000_000_000,
        nb: 0b_000000_000000_000_000_000_000,
        pb2: 0b_000011_000000_110_010_000_101,
    };
    assert_eq!(moved_board, board);
}

