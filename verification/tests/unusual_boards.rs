use dobutsu::bit_board::BitBoard;
use dobutsu::movegen::next_move_list;
use dobutsu::moves::make_moved_board;

#[test]
fn unusual_board_0_p1() {
    let board = BitBoard { pb1: 647892279, pb2: 207388624, lb: -1993371605, kb: -1791911843, zb: -2115547403, hb: 369140570, nb: 300026767 };
    let moves = next_move_list(&board, true);
    let expected: Vec<(i32, i32)> = vec![(1, 8), (1, 8), (8192, 8), (16384, 8), (4096, 8)];
    assert_eq!(moves, expected);
    let after: Vec<BitBoard> = vec![
        BitBoard { pb1: 647892286, pb2: 207388624, lb: -1993371606, kb: -1791911843, zb: -2115547403, hb: 369140570, nb: 300026767 },
        BitBoard { pb1: 647892286, pb2: 207388624, lb: -1993371606, kb: -1791911843, zb: -2115547403, hb: 369140570, nb: 300026767 },
        BitBoard { pb1: 647826751, pb2: 207388624, lb: -1993371605, kb: -1791960995, zb: -2115653899, hb: 369115994, nb: 300026767 },
        BitBoard { pb1: 647826751, pb2: 207388624, lb: -1993371605, kb: -1791960995, zb: -2115662083, hb: 369124186, nb: 300026767 },
        BitBoard { pb1: 647826751, pb2: 207388624, lb: -1993375701, kb: -1791965091, zb: -2115653899, hb: 369120090, nb: 300026767 },
    ];
    for (k, b) in after.iter().enumerate() {
        assert_eq!(&make_moved_board(&board, moves[k], true), b);
    }
}

#[test]
fn unusual_board_0_p2() {
    let board = BitBoard { pb1: 647892279, pb2: 207388624, lb: -1993371605, kb: -1791911843, zb: -2115547403, hb: 369140570, nb: 300026767 };
    let moves = next_move_list(&board, false);
    let expected: Vec<(i32, i32)> = vec![(16, 1), (16, 4), (16, 32), (16, 8), (16, 2), (262144, 8), (1048576, 8)];
    assert_eq!(moves, expected);
    let after: Vec<BitBoard> = vec![
        BitBoard { pb1: 647892278, pb2: 209485761, lb: -1989177302, kb: -1791911843, zb: -2115547403, hb: 369140555, nb: 300026767 },
        BitBoard { pb1: 647892275, pb2: 209485764, lb: -1993371605, kb: -1787717543, zb: -2115547403, hb: 369140558, nb: 300026767 },
        BitBoard { pb1: 647892247, pb2: 209485792, lb: -1989177333, kb: -1791911843, zb: -2115547403, hb: 369140586, nb: 300026767 },
        BitBoard { pb1: 647892279, pb2: 207388616, lb: -1993371605, kb: -1791911843, zb: -2115547403, hb: 369140554, nb: 300026767 },
        BitBoard { pb1: 647892277, pb2: 209485762, lb: -1993371605, kb: -1791911843, zb: -2115547403, hb: 375432010, nb: 300026767 },
        BitBoard { pb1: 647892279, pb2: 204242904, lb: -1993633749, kb: -1793484707, zb: -2123149579, hb: 369140570, nb: 300026767 },
    ];
    for (k, b) in after.iter().enumerate() {
        assert_eq!(&make_moved_board(&board, moves[k], false), b);
    }
}

#[test]
fn unusual_board_1_p1() {
    let board = BitBoard { pb1: -1928237362, pb2: -743664465, lb: 15895568, kb: -1600162123, zb: 1037872, hb: 6655194, nb: 949539216 };
    let moves = next_move_list(&board, true);
    let expected: Vec<(i32, i32)> = vec![(4, 32), (128, 32), (128, 256), (128, 16), (32768, 16), (32768, 256), (4096, 16), (4096, 256), (4096, 16), (4096, 256)];
    assert_eq!(moves, expected);
    let after: Vec<BitBoard> = vec![
        BitBoard { pb1: -1928233238, pb2: -743664497, lb: 15895568, kb: -1600162127, zb: 1037872, hb: 6655194, nb: 949539216 },
        BitBoard { pb1: -1928233362, pb2: -743664497, lb: 15895568, kb: -1600162155, zb: 1037872, hb: 6655098, nb: 949539216 },
        BitBoard { pb1: -1928237234, pb2: -743664465, lb: 15895568, kb: -1600162123, zb: 1037872, hb: 6655322, nb: 949539216 },
        BitBoard { pb1: -1928237474, pb2: -743664465, lb: 15895568, kb: -1600162123, zb: 1037872, hb: 6655066, nb: 949539216 },
        BitBoard { pb1: -1928270114, pb2: -743664465, lb: 15895568, kb: -1600260427, zb: 906800, hb: 6589658, nb: 949539216 },
        BitBoard { pb1: -1928269874, pb2: -743664465, lb: 15895568, kb: -1600260427, zb: 906800, hb: 6589914, nb: 949539216 },
    ];
    for (k, b) in after.iter().enumerate() {
        assert_eq!(&make_moved_board(&board, moves[k], true), b);
    }
}

#[test]
fn unusual_board_1_p2() {
    let board = BitBoard { pb1: -1928237362, pb2: -743664465, lb: 15895568, kb: -1600162123, zb: 1037872, hb: 6655194, nb: 949539216 };
    let moves = next_move_list(&board, false);
    let expected: Vec<(i32, i32)> = vec![(2, 16), (128, 64), (128, 512), (128, 16), (128, 256), (128, 2048), (262144, 16), (262144, 256), (262144, 16), (262144, 256), (262144, 16), (262144, 256)];
    assert_eq!(moves, expected);
    let after: Vec<BitBoard> = vec![
        BitBoard { pb1: -1928237362, pb2: -743664451, lb: 15895568, kb: -1600162123, zb: 1037872, hb: 6655192, nb: 949539216 },
        BitBoard { pb1: -1928237426, pb2: -742615953, lb: 15895568, kb: -1600162123, zb: 1037872, hb: 16092250, nb: 949539216 },
        BitBoard { pb1: -1928237874, pb2: -742615505, lb: 15895568, kb: -1598065483, zb: 1037872, hb: 6655066, nb: 949539728 },
        BitBoard { pb1: -1928237362, pb2: -743664577, lb: 15895568, kb: -1600162123, zb: 1037872, hb: 6655066, nb: 949539216 },
        BitBoard { pb1: -1928237362, pb2: -743664337, lb: 15895568, kb: -1600162123, zb: 1037872, hb: 6655322, nb: 949539216 },
        BitBoard { pb1: -1928239410, pb2: -742613969, lb: 15895568, kb: -1600162123, zb: 1037872, hb: 16090202, nb: 949541264 },
    ];
    for (k, b) in after.iter().enumerate() {
        assert_eq!(&make_moved_board(&board, moves[k], false), b);
    }
}

#[test]
fn unusual_board_2_p1() {
    let board = BitBoard { pb1: -607873333, pb2: 1800188482, lb: 505913792, kb: 9399557, zb: 3032085, hb: -1841663127, nb: 6247794 };
    let moves = next_move_list(&board, true);
    let expected: Vec<(i32, i32)> = vec![(1, 16), (2, 16), (2, 4), (4096, 16), (4096, 4), (4096, 32), (4096, 256), (4096, 2048), (16384, 16), (16384, 4), (16384, 32), (16384, 256), (16384, 2048), (8192, 16), (8192, 4), (8192, 32), (8192, 256), (8192, 2048)];
    assert_eq!(moves, expected);
    let after: Vec<BitBoard> = vec![
        BitBoard { pb1: -607873318, pb2: 1800188482, lb: 505913792, kb: 9399557, zb: 3032085, hb: -1841663112, nb: 6247794 },
        BitBoard { pb1: -607873319, pb2: 1800188482, lb: 505913792, kb: 9399557, zb: 3032085, hb: -1841663127, nb: 6247792 },
        BitBoard { pb1: -607873331, pb2: 1800188482, lb: 505913792, kb: 9399557, zb: 3032085, hb: -1841663127, nb: 6247796 },
        BitBoard { pb1: -607893797, pb2: 1800188482, lb: 505913792, kb: 9288965, zb: 2958357, hb: -1841745031, nb: 6247794 },
        BitBoard { pb1: -607893809, pb2: 1800188482, lb: 505913792, kb: 9288965, zb: 2958357, hb: -1841745043, nb: 6247794 },
        BitBoard { pb1: -607893781, pb2: 1800188482, lb: 505913792, kb: 9288965, zb: 2958357, hb: -1841745047, nb: 6247794 },
    ];
    for (k, b) in after.iter().enumerate() {
        assert_eq!(&make_moved_board(&board, moves[k], true), b);
    }
}

#[test]
fn unusual_board_2_p2() {
    let board = BitBoard { pb1: -607873333, pb2: 1800188482, lb: 505913792, kb: 9399557, zb: 3032085, hb: -1841663127, nb: 6247794 };
    let moves = next_move_list(&board, false);
    let expected: Vec<(i32, i32)> = vec![(2, 1), (2, 8), (2, 16), (2, 4), (2, 32), (524288, 16), (524288, 4), (524288, 32), (524288, 256), (524288, 2048), (262144, 16), (262144, 4), (262144, 32), (262144, 256), (262144, 2048), (262144, 16), (262144, 4), (262144, 32), (262144, 256), (262144, 2048)];
    assert_eq!(moves, expected);
    let after: Vec<BitBoard> = vec![
        BitBoard { pb1: -607873334, pb2: 1801237057, lb: 505913792, kb: 9399557, zb: 3032085, hb: -1837468824, nb: 6247793 },
        BitBoard { pb1: -607873341, pb2: 1801237064, lb: 505913792, kb: 9399557, zb: 3032085, hb: -1837468831, nb: 6247800 },
        BitBoard { pb1: -607873333, pb2: 1800188496, lb: 505913792, kb: 9399557, zb: 3032085, hb: -1841663127, nb: 6247792 },
        BitBoard { pb1: -607873333, pb2: 1800188484, lb: 505913792, kb: 9399557, zb: 3032085, hb: -1841663127, nb: 6247796 },
        BitBoard { pb1: -607873333, pb2: 1800188512, lb: 505913792, kb: 9399557, zb: 3032085, hb: -1841663127, nb: 6247792 },
        BitBoard { pb1: -607873333, pb2: 1797567058, lb: 505913792, kb: 4680965, zb: 1459221, hb: -1843760263, nb: 6247794 },
    ];
    for (k, b) in after.iter().enumerate() {
        assert_eq!(&make_moved_board(&board, moves[k], false), b);
    }
}

#[test]
fn unusual_board_3_p1() {
    let board = BitBoard { pb1: -1236474846, pb2: 255985076, lb: 8328453, kb: 7173808, zb: 7811503, hb: 7603172, nb: 1066984055 };
    let moves = next_move_list(&board, true);
    let expected: Vec<(i32, i32)> = vec![(32, 4), (2, 8), (32, 256), (32, 16), (32, 4), (2, 16), (2, 4), (2, 1), (4096, 1), (4096, 8), (4096, 64), (4096, 512), (4096, 2048), (4096, 1), (4096, 8), (4096, 64), (4096, 512), (4096, 2048)];
    assert_eq!(moves, expected);
    let after: Vec<BitBoard> = vec![
        BitBoard { pb1: -1236470778, pb2: 255985072, lb: 8328453, kb: 7173808, zb: 7811503, hb: 7664576, nb: 1066984055 },
        BitBoard { pb1: -1236474840, pb2: 255985076, lb: 8328453, kb: 7173808, zb: 7811501, hb: 7603172, nb: 1066984055 },
        BitBoard { pb1: -1236470526, pb2: 255984820, lb: 8328453, kb: 7173808, zb: 7811503, hb: 7664580, nb: 1066984055 },
        BitBoard { pb1: -1236470766, pb2: 255985060, lb: 8328453, kb: 7206560, zb: 7811503, hb: 7603156, nb: 1066984055 },
        BitBoard { pb1: -1236470778, pb2: 255985072, lb: 8328453, kb: 7173808, zb: 7811503, hb: 7664576, nb: 1066984055 },
        BitBoard { pb1: -1236470736, pb2: 255985060, lb: 8328453, kb: 7206560, zb: 7811517, hb: 7603172, nb: 1066984055 },
    ];
    for (k, b) in after.iter().enumerate() {
        assert_eq!(&make_moved_board(&board, moves[k], true), b);
    }
}

#[test]
fn unusual_board_3_p2() {
    let board = BitBoard { pb1: -1236474846, pb2: 255985076, lb: 8328453, kb: 7173808, zb: 7811503, hb: 7603172, nb: 1066984055 };
    let moves = next_move_list(&board, false);
    let expected: Vec<(i32, i32)> = vec![(16, 8), (16, 2), (4, 2), (262144, 1), (262144, 8), (262144, 64), (262144, 512), (262144, 2048), (262144, 1), (262144, 8), (262144, 64), (262144, 512), (262144, 2048), (262144, 1), (262144, 8), (262144, 64), (262144, 512), (262144, 2048)];
    assert_eq!(moves, expected);
    let after: Vec<BitBoard> = vec![
        BitBoard { pb1: -1236474846, pb2: 255985068, lb: 8328453, kb: 7173800, zb: 7811503, hb: 7603172, nb: 1066984055 },
        BitBoard { pb1: -1236474848, pb2: 256247206, lb: 8328453, kb: 7173794, zb: 7811501, hb: 7603172, nb: 1066984055 },
        BitBoard { pb1: -1236474848, pb2: 256247218, lb: 8328453, kb: 7173808, zb: 7811501, hb: 7603170, nb: 1066984055 },
        BitBoard { pb1: -1236474846, pb2: 253887925, lb: 8328453, kb: 3634864, zb: 3879343, hb: 3671013, nb: 1066984055 },
        BitBoard { pb1: -1236474846, pb2: 253887932, lb: 8328453, kb: 3634864, zb: 3879343, hb: 3671020, nb: 1066984055 },
        BitBoard { pb1: -1236474846, pb2: 253887988, lb: 8328453, kb: 3634864, zb: 3879343, hb: 3671012, nb: 1066984055 },
    ];
    for (k, b) in after.iter().enumerate() {
        assert_eq!(&make_moved_board(&board, moves[k], false), b);
    }
}

#[test]
fn unusual_board_4_p1() {
    let board = BitBoard { pb1: 11727180, pb2: 1373299, lb: 8811335, kb: 1475216845, zb: 4830794, hb: 1228106, nb: 1795823848 };
    let moves = next_move_list(&board, true);
    let expected: Vec<(i32, i32)> = vec![(8, 1), (8, 128), (8, 2), (4, 32), (4, 2), (8, 2), (8, 16), (8, 1), (4096, 512), (4096, 128), (4096, 2048), (4096, 512), (4096, 128), (4096, 2048), (131072, 512), (131072, 128), (131072, 2048)];
    assert_eq!(moves, expected);
    let after: Vec<BitBoard> = vec![
        BitBoard { pb1: 11792709, pb2: 1373298, lb: 8876870, kb: 1475216845, zb: 4830794, hb: 1228098, nb: 1795823849 },
        BitBoard { pb1: 11727300, pb2: 1373299, lb: 8811335, kb: 1475216845, zb: 4830794, hb: 1228226, nb: 1795823848 },
        BitBoard { pb1: 11792710, pb2: 1373297, lb: 8811335, kb: 1475216845, zb: 4830794, hb: 1293632, nb: 1795823850 },
        BitBoard { pb1: 11792744, pb2: 1373267, lb: 8811363, kb: 1475216845, zb: 4830794, hb: 1293642, nb: 1795823816 },
        BitBoard { pb1: 11792714, pb2: 1373297, lb: 8811331, kb: 1475216845, zb: 4830794, hb: 1293640, nb: 1795823848 },
        BitBoard { pb1: 11792710, pb2: 1373297, lb: 8811335, kb: 1475216845, zb: 4830794, hb: 1293632, nb: 1795823850 },
    ];
    for (k, b) in after.iter().enumerate() {
        assert_eq!(&make_moved_board(&board, moves[k], true), b);
    }
}

#[test]
fn unusual_board_4_p2() {
    let board = BitBoard { pb1: 11727180, pb2: 1373299, lb: 8811335, kb: 1475216845, zb: 4830794, hb: 1228106, nb: 1795823848 };
    let moves = next_move_list(&board, false);
    let expected: Vec<(i32, i32)> = vec![(2, 8), (1, 8), (32, 128), (32, 4), (32, 256), (1048576, 512), (1048576, 128), (1048576, 2048), (524288, 512), (524288, 128), (524288, 2048), (262144, 512), (262144, 128), (262144, 2048)];
    assert_eq!(moves, expected);
    let after: Vec<BitBoard> = vec![
        BitBoard { pb1: 11727172, pb2: 1897593, lb: 8811335, kb: 1475216845, zb: 4830794, hb: 1752392, nb: 1795823848 },
        BitBoard { pb1: 11727172, pb2: 1897594, lb: 8811342, kb: 1475216845, zb: 4830794, hb: 1752386, nb: 1795823848 },
        BitBoard { pb1: 11727180, pb2: 1373395, lb: 8811335, kb: 1475216845, zb: 4830794, hb: 1228106, nb: 1795823816 },
        BitBoard { pb1: 11727176, pb2: 1897559, lb: 10384195, kb: 1475216845, zb: 4830794, hb: 1228106, nb: 1795823820 },
        BitBoard { pb1: 11726924, pb2: 1897811, lb: 8811335, kb: 1475216845, zb: 4830794, hb: 1752138, nb: 1795824072 },
        BitBoard { pb1: 11727180, pb2: 325235, lb: 8811335, kb: 1475216845, zb: 4830794, hb: 180042, nb: 1795823848 },
    ];
    for (k, b) in after.iter().enumerate() {
        assert_eq!(&make_moved_board(&board, moves[k], false), b);
    }
}

#[test]
fn unusual_board_5_p1() {
    let board = BitBoard { pb1: 1469118510, pb2: 2100080514, lb: -163126796, kb: 12827370, zb: 13238803, hb: 5263809, nb: 1504004731 };
    let moves = next_move_list(&board, true);
    let expected: Vec<(i32, i32)> = vec![(2, 16), (2, 1), (2, 16), (2, 1), (4096, 1), (4096, 64), (4096, 16), (131072, 1), (131072, 64), (131072, 16), (4096, 1), (4096, 64), (4096, 16)];
    assert_eq!(moves, expected);
    let after: Vec<BitBoard> = vec![
        BitBoard { pb1: 1469118524, pb2: 2100080514, lb: -163126796, kb: 12827384, zb: 13238803, hb: 5263809, nb: 1504004731 },
        BitBoard { pb1: 1469118509, pb2: 2100080514, lb: -163126796, kb: 12827369, zb: 13238803, hb: 5263809, nb: 1504004731 },
        BitBoard { pb1: 1469118524, pb2: 2100080514, lb: -163126796, kb: 12827384, zb: 13238803, hb: 5263809, nb: 1504004731 },
        BitBoard { pb1: 1469118509, pb2: 2100080514, lb: -163126796, kb: 12827369, zb: 13238803, hb: 5263809, nb: 1504004731 },
        BitBoard { pb1: 1469085743, pb2: 2100080514, lb: -163126796, kb: 12704490, zb: 13173267, hb: 5251521, nb: 1504004731 },
        BitBoard { pb1: 1469085806, pb2: 2100080514, lb: -163126796, kb: 12704490, zb: 13173267, hb: 5251521, nb: 1504004731 },
    ];
    for (k, b) in after.iter().enumerate() {
        assert_eq!(&make_moved_board(&board, moves[k], true), b);
    }
}

#[test]
fn unusual_board_5_p2() {
    let board = BitBoard { pb1: 1469118510, pb2: 2100080514, lb: -163126796, kb: 12827370, zb: 13238803, hb: 5263809, nb: 1504004731 };
    let moves = next_move_list(&board, false);
    let expected: Vec<(i32, i32)> = vec![(2, 32), (2, 8), (2, 16), (2, 4), (2, 1), (2, 1), (2, 8), (2, 16), (2, 4), (2, 32), (1048576, 1), (1048576, 64), (1048576, 16), (524288, 1), (524288, 64), (524288, 16), (4194304, 1), (4194304, 64), (4194304, 16)];
    assert_eq!(moves, expected);
    let after: Vec<BitBoard> = vec![
        BitBoard { pb1: 1469118478, pb2: 2101129120, lb: -159981100, kb: 12827368, zb: 13238803, hb: 5263809, nb: 1504004731 },
        BitBoard { pb1: 1469118502, pb2: 2101129096, lb: -163126796, kb: 15973096, zb: 13238803, hb: 5263809, nb: 1504004731 },
        BitBoard { pb1: 1469118510, pb2: 2100080528, lb: -163126796, kb: 12827384, zb: 13238803, hb: 5263809, nb: 1504004731 },
        BitBoard { pb1: 1469118506, pb2: 2101129092, lb: -159981072, kb: 12827372, zb: 13238803, hb: 5263809, nb: 1504004731 },
        BitBoard { pb1: 1469118510, pb2: 2100080513, lb: -163126796, kb: 12827369, zb: 13238803, hb: 5263809, nb: 1504004731 },
        BitBoard { pb1: 1469118510, pb2: 2100080513, lb: -163126796, kb: 12827369, zb: 13238803, hb: 5263809, nb: 1504004731 },
    ];
    for (k, b) in after.iter().enumerate() {
        assert_eq!(&make_moved_board(&board, moves[k], false), b);
    }
}

#[test]
fn arbitrary_move_0() {
    let board = BitBoard { pb1: 9971871, pb2: 8332820, lb: 9729027, kb: 13369628, zb: 7653855, hb: 1153650, nb: 14092320 };
    assert_eq!(make_moved_board(&board, (15849118, 128), false), BitBoard { pb1: 9971871, pb2: 401536, lb: 9729027, kb: 12976412, zb: 7522783, hb: 2272, nb: 14092320 });
}

#[test]
fn arbitrary_move_1() {
    let board = BitBoard { pb1: 1017864, pb2: 12266818, lb: 11769083, kb: 5194349, zb: 10857020, hb: 9696328, nb: 16661385 };
    assert_eq!(make_moved_board(&board, (13789609, 12023019), true), BitBoard { pb1: 12512491, pb2: 12266818, lb: 11769083, kb: 5161581, zb: 10807868, hb: 11988203, nb: 16661385 });
}

#[test]
fn arbitrary_move_2() {
    let board = BitBoard { pb1: 14882066, pb2: 11218131, lb: 5821782, kb: 378543, zb: 15781464, hb: 7745961, nb: 5963698 };
    assert_eq!(make_moved_board(&board, (32, 128), false), BitBoard { pb1: 14882066, pb2: 11218131, lb: 5821782, kb: 378543, zb: 15781464, hb: 7745929, nb: 5963698 });
}

#[test]
fn arbitrary_move_3() {
    let board = BitBoard { pb1: 12888810, pb2: 4822307, lb: 2169968, kb: 12387681, zb: 4154287, hb: 6675615, nb: 6559047 };
    assert_eq!(make_moved_board(&board, (32768, 6738472), true), BitBoard { pb1: 15039210, pb2: 4822307, lb: 2169968, kb: 12354913, zb: 4055983, hb: 6676159, nb: 6559047 });
}

#[test]
fn arbitrary_move_4() {
    let board = BitBoard { pb1: 14820721, pb2: 2297239, lb: 13745234, kb: 7222954, zb: 14495254, hb: 9231152, nb: 4671130 };
    assert_eq!(make_moved_board(&board, (6967519, 14834294), false), BitBoard { pb1: 14820721, pb2: 6512502, lb: 13745234, kb: 6960810, zb: 4926998, hb: 6478710, nb: 4671130 });
}

#[test]
fn arbitrary_move_5() {
    let board = BitBoard { pb1: 16068063, pb2: 3871367, lb: 2532032, kb: 1392252, zb: 2956442, hb: 2538365, nb: 3891590 };
    assert_eq!(make_moved_board(&board, (2097152, 128), true), BitBoard { pb1: 13975007, pb2: 3871239, lb: 2601536, kb: 1392252, zb: 2956442, hb: 441341, nb: 3891590 });
}
