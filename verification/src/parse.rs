use vstd::prelude::*;

use crate::bit_board::{BitBoard, sq_bit};
use crate::text::string_push;

verus! {

/// The index of a board square ("A1".."C4": 0..12), a slot of the first
/// player's hand ("D1".."D6": 12..18) or of the second player's hand
/// ("E1".."E6": 18..24) named by a file letter and a rank digit, given as
/// ASCII codes (65 is 'A', 49 is '1'); 0 for any other name.
pub open spec fn square_index(file: u8, rank: u8) -> int {
    if 65 <= file <= 67 && 49 <= rank <= 52 {
        (rank - 49) * 3 + (file - 65)
    } else if file == 68 && 49 <= rank <= 54 {
        12 + (rank - 49)
    } else if file == 69 && 49 <= rank <= 54 {
        18 + (rank - 49)
    } else {
        0
    }
}

/// The index of the square or hand slot named by `s = (file, rank)`.
pub fn piece_to_pos(s: (u8, u8)) -> (r: i32)
    ensures
        r == square_index(s.0, s.1),
        0 <= r < 24,
{
    let (file, rank) = s;
    if 65 <= file && file <= 67 && 49 <= rank && rank <= 52 {
        ((rank - 49) * 3 + (file - 65)) as i32
    } else if file == 68 && 49 <= rank && rank <= 54 {
        12 + (rank - 49) as i32
    } else if file == 69 && 49 <= rank && rank <= 54 {
        18 + (rank - 49) as i32
    } else {
        0
    }
}

/// The first square or hand slot `s >= from` whose mask is exactly `v`.
pub open spec fn find_slot(v: i32, from: nat) -> Option<int>
    decreases 24 - from,
{
    if from >= 24 {
        None
    } else if v == sq_bit(from as int) {
        Some(from as int)
    } else {
        find_slot(v, from + 1)
    }
}

/// The file letter of square or hand slot `s`.
pub open spec fn file_char(s: int) -> char {
    if s < 12 {
        (65 + s % 3) as char
    } else if s < 18 {
        'D'
    } else {
        'E'
    }
}

/// The rank digit of square or hand slot `s`.
pub open spec fn rank_char(s: int) -> char {
    if s < 12 {
        (49 + s / 3) as char
    } else if s < 18 {
        (49 + s - 12) as char
    } else {
        (49 + s - 18) as char
    }
}

/// The name ("A1".."E6") of the square or hand slot whose mask is `i`,
/// empty when `i` is not the mask of one.
pub open spec fn board_name(i: i32) -> Seq<char> {
    match find_slot(i, 0) {
        Some(s) => seq![file_char(s), rank_char(s)],
        None => seq![],
    }
}

fn digit_char(d: u8) -> (c: char)
    requires
        d < 6,
    ensures
        c == (49 + d) as char,
{
    match d {
        0 => '1',
        1 => '2',
        2 => '3',
        3 => '4',
        4 => '5',
        _ => '6',
    }
}

/// The name of the square or hand slot whose mask is `i` ("A1".."E6"), or
/// the empty string.
pub fn get_board_name(i: i32) -> (r: String)
    ensures
        r@ == board_name(i),
{
    let mut name = String::new();
    let mut s: u32 = 0;
    while s < 24
        invariant
            s <= 24,
            find_slot(i, 0) == find_slot(i, s as nat),
            name@ == Seq::<char>::empty(),
        decreases 24 - s,
    {
        if i == 1i32 << s {
            if s < 12 {
                let f = match s % 3 {
                    0 => 'A',
                    1 => 'B',
                    _ => 'C',
                };
                string_push(&mut name, f);
                string_push(&mut name, digit_char((s / 3) as u8));
            } else if s < 18 {
                string_push(&mut name, 'D');
                string_push(&mut name, digit_char((s - 12) as u8));
            } else {
                string_push(&mut name, 'E');
                string_push(&mut name, digit_char((s - 18) as u8));
            }
            assert(name@ =~= board_name(i));
            return name;
        }
        s = s + 1;
    }
    name
}

/// `c` is an ASCII whitespace byte (tab, line feed, vertical tab, form feed,
/// carriage return or space).
pub open spec fn is_ascii_ws(c: u8) -> bool {
    c == 0x20 || (0x09 <= c && c <= 0x0d)
}

/// The bytes `a b c` encode a three-byte Unicode whitespace character
/// (U+1680, U+2000..U+200A, U+2028, U+2029, U+202F, U+205F or U+3000).
pub open spec fn is_ws3(a: u8, b: u8, c: u8) -> bool {
    ||| a == 0xe1 && b == 0x9a && c == 0x80
    ||| a == 0xe2 && b == 0x80 && ((0x80 <= c && c <= 0x8a) || c == 0xa8 || c == 0xa9 || c == 0xaf)
    ||| a == 0xe2 && b == 0x81 && c == 0x9f
    ||| a == 0xe3 && b == 0x80 && c == 0x80
}

/// The length of the UTF-8 encoding of a Unicode whitespace character that
/// starts at `i` and ends by `hi`, or 0.
pub open spec fn ws_at(s: Seq<u8>, i: int, hi: int) -> int {
    if i < hi && is_ascii_ws(s[i]) {
        1
    } else if i + 1 < hi && s[i] == 0xc2 && (s[i + 1] == 0x85 || s[i + 1] == 0xa0) {
        2
    } else if i + 2 < hi && is_ws3(s[i], s[i + 1], s[i + 2]) {
        3
    } else {
        0
    }
}

/// The length of the UTF-8 encoding of a Unicode whitespace character that
/// ends at `j` and starts at or after `lo`, or 0.
pub open spec fn ws_before(s: Seq<u8>, lo: int, j: int) -> int {
    if lo < j && is_ascii_ws(s[j - 1]) {
        1
    } else if lo + 1 < j && s[j - 2] == 0xc2 && (s[j - 1] == 0x85 || s[j - 1] == 0xa0) {
        2
    } else if lo + 2 < j && is_ws3(s[j - 3], s[j - 2], s[j - 1]) {
        3
    } else {
        0
    }
}

/// The start of `s[lo..hi]` once its leading whitespace is trimmed.
pub open spec fn trim_lo(s: Seq<u8>, lo: int, hi: int) -> int
    decreases hi - lo,
{
    if lo < hi && ws_at(s, lo, hi) > 0 {
        trim_lo(s, lo + ws_at(s, lo, hi), hi)
    } else {
        lo
    }
}

/// The end of `s[lo..hi]` once its trailing whitespace is trimmed.
pub open spec fn trim_hi(s: Seq<u8>, lo: int, hi: int) -> int
    decreases hi - lo,
{
    if lo < hi && ws_before(s, lo, hi) > 0 {
        trim_hi(s, lo, hi - ws_before(s, lo, hi))
    } else {
        hi
    }
}

/// The first `", "` separator at or after `i` in `s[..n]`, or `n`.
pub open spec fn next_sep(s: Seq<u8>, n: int, i: int) -> int
    decreases n - i,
{
    if i + 1 >= n {
        n
    } else if s[i] == 0x2c && s[i + 1] == 0x20 {
        i
    } else {
        next_sep(s, n, i + 1)
    }
}

pub proof fn lemma_next_sep(s: Seq<u8>, n: int, i: int)
    requires
        0 <= i <= n,
    ensures
        i <= next_sep(s, n, i) <= n,
        next_sep(s, n, i) < n ==> next_sep(s, n, i) + 2 <= n,
    decreases n - i,
{
    if i + 1 < n && !(s[i] == 0x2c && s[i + 1] == 0x20) {
        lemma_next_sep(s, n, i + 1);
    }
}

proof fn lemma_trim(s: Seq<u8>, lo: int, hi: int)
    requires
        lo <= hi,
    ensures
        lo <= trim_lo(s, lo, hi) <= hi,
        lo <= trim_hi(s, lo, hi) <= hi,
    decreases hi - lo,
{
    if lo < hi && ws_at(s, lo, hi) > 0 {
        lemma_trim(s, lo + ws_at(s, lo, hi), hi);
    }
    if lo < hi && ws_before(s, lo, hi) > 0 {
        lemma_trim(s, lo, hi - ws_before(s, lo, hi));
    }
}

/// `b` with the piece described by the item `s[lo..hi]` added: an item
/// "XY kP" puts a piece of kind `k` (l lion, g giraffe, e elephant,
/// c chick, h hen) of player `P` on square or hand slot XY; an item with
/// `-` as its kind adds nothing. In ASCII: `-` is 0x2d, `1` 0x31, `2` 0x32,
/// `l` 0x6c, `g` 0x67, `e` 0x65, `c` 0x63 and `h` 0x68.
pub open spec fn apply_item(b: BitBoard, s: Seq<u8>, lo: int, hi: int) -> BitBoard {
    if s[lo + 3] == 0x2d {
        b
    } else {
        let bit = sq_bit(square_index(s[lo], s[lo + 1]));
        let kind = s[lo + 3];
        let owner = s[lo + 4];
        BitBoard {
            pb1: if owner == 0x31 { b.pb1 | bit } else { b.pb1 },
            pb2: if owner == 0x32 { b.pb2 | bit } else { b.pb2 },
            lb: if kind == 0x6c { b.lb | bit } else { b.lb },
            kb: if kind == 0x67 { b.kb | bit } else { b.kb },
            zb: if kind == 0x65 { b.zb | bit } else { b.zb },
            hb: if kind == 0x63 { b.hb | bit } else { b.hb },
            nb: if kind == 0x68 { b.nb | bit } else { b.nb },
        }
    }
}

/// The board described by the items of `s[start..n]`, separated by `", "`
/// and trimmed of whitespace, added in order to `b`.
pub open spec fn parse_from(s: Seq<u8>, n: int, start: int, b: BitBoard) -> BitBoard
    decreases n - start,
{
    if start < 0 || start > n {
        b
    } else {
        let k = next_sep(s, n, start);
        let lo = trim_lo(s, start, k);
        let hi = trim_hi(s, lo, k);
        let b2 = apply_item(b, s, lo, hi);
        if k < n {
            proof {
                lemma_next_sep(s, n, start);
            }
            parse_from(s, n, k + 2, b2)
        } else {
            b2
        }
    }
}

/// Every trimmed item of `s[start..n]` has at least four bytes, and five
/// unless its fourth byte is `-`.
pub open spec fn items_ok(s: Seq<u8>, n: int, start: int) -> bool
    decreases n - start,
{
    if start < 0 || start > n {
        true
    } else {
        let k = next_sep(s, n, start);
        let lo = trim_lo(s, start, k);
        let hi = trim_hi(s, lo, k);
        &&& hi - lo >= 4
        &&& s[lo + 3] != 0x2d ==> hi - lo >= 5
        &&& k < n ==> {
            proof {
                lemma_next_sep(s, n, start);
            }
            items_ok(s, n, k + 2)
        }
    }
}

/// A continuation byte of UTF-8.
pub open spec fn is_cont(c: u8) -> bool {
    0x80 <= c && c <= 0xbf
}

/// The length of the well-formed UTF-8 encoding of one character that starts
/// at `i` in `s`, or 0 if none does.
pub open spec fn utf8_char_len(s: Seq<u8>, i: int) -> int {
    let n = s.len();
    let b0 = s[i];
    if b0 < 0x80 {
        1
    } else if 0xc2 <= b0 && b0 <= 0xdf && i + 1 < n && is_cont(s[i + 1]) {
        2
    } else if b0 == 0xe0 && i + 2 < n && 0xa0 <= s[i + 1] && s[i + 1] <= 0xbf && is_cont(s[i + 2]) {
        3
    } else if ((0xe1 <= b0 && b0 <= 0xec) || b0 == 0xee || b0 == 0xef) && i + 2 < n && is_cont(
        s[i + 1],
    ) && is_cont(s[i + 2]) {
        3
    } else if b0 == 0xed && i + 2 < n && 0x80 <= s[i + 1] && s[i + 1] <= 0x9f && is_cont(s[i + 2]) {
        3
    } else if b0 == 0xf0 && i + 3 < n && 0x90 <= s[i + 1] && s[i + 1] <= 0xbf && is_cont(s[i + 2])
        && is_cont(s[i + 3]) {
        4
    } else if 0xf1 <= b0 && b0 <= 0xf3 && i + 3 < n && is_cont(s[i + 1]) && is_cont(s[i + 2])
        && is_cont(s[i + 3]) {
        4
    } else if b0 == 0xf4 && i + 3 < n && 0x80 <= s[i + 1] && s[i + 1] <= 0x8f && is_cont(s[i + 2])
        && is_cont(s[i + 3]) {
        4
    } else {
        0
    }
}

/// `s[i..]` is well-formed UTF-8.
pub open spec fn utf8_from(s: Seq<u8>, i: int) -> bool
    decreases s.len() - i,
{
    if i < 0 || i >= s.len() {
        true
    } else {
        let l = utf8_char_len(s, i);
        l > 0 && utf8_from(s, i + l)
    }
}

/// `s` is well-formed UTF-8.
pub open spec fn valid_utf8(s: Seq<u8>) -> bool {
    utf8_from(s, 0)
}

/// The board sent as text: the bytes before the last three hold the items.
pub open spec fn board_text_ok(v: Seq<u8>) -> bool {
    &&& v.len() >= 3
    &&& valid_utf8(v.subrange(0, v.len() - 3))
    &&& items_ok(v, v.len() - 3, 0)
}

/// The empty board.
pub open spec fn empty_board() -> BitBoard {
    BitBoard { pb1: 0, pb2: 0, lb: 0, kb: 0, zb: 0, hb: 0, nb: 0 }
}

fn ws_at_exec(v: &Vec<u8>, i: usize, hi: usize) -> (r: usize)
    requires
        hi <= v@.len(),
    ensures
        r == ws_at(v@, i as int, hi as int),
{
    if i < hi && (v[i] == 0x20 || (0x09 <= v[i] && v[i] <= 0x0d)) {
        1
    } else if i < hi && hi - i > 1 && v[i] == 0xc2 && (v[i + 1] == 0x85 || v[i + 1] == 0xa0) {
        2
    } else if i < hi && hi - i > 2 && is_ws3_exec(v[i], v[i + 1], v[i + 2]) {
        3
    } else {
        0
    }
}

fn ws_before_exec(v: &Vec<u8>, lo: usize, j: usize) -> (r: usize)
    requires
        j <= v@.len(),
    ensures
        r == ws_before(v@, lo as int, j as int),
{
    if lo < j && (v[j - 1] == 0x20 || (0x09 <= v[j - 1] && v[j - 1] <= 0x0d)) {
        1
    } else if lo < j && j - lo > 1 && v[j - 2] == 0xc2 && (v[j - 1] == 0x85 || v[j - 1] == 0xa0) {
        2
    } else if lo < j && j - lo > 2 && is_ws3_exec(v[j - 3], v[j - 2], v[j - 1]) {
        3
    } else {
        0
    }
}

fn is_ws3_exec(a: u8, b: u8, c: u8) -> (r: bool)
    ensures
        r == is_ws3(a, b, c),
{
    (a == 0xe1 && b == 0x9a && c == 0x80) || (a == 0xe2 && b == 0x80 && ((0x80 <= c && c <= 0x8a)
        || c == 0xa8 || c == 0xa9 || c == 0xaf)) || (a == 0xe2 && b == 0x81 && c == 0x9f) || (a
        == 0xe3 && b == 0x80 && c == 0x80)
}

fn next_sep_exec(v: &Vec<u8>, n: usize, i: usize) -> (r: usize)
    requires
        n <= v@.len(),
        i <= n,
    ensures
        r == next_sep(v@, n as int, i as int),
{
    let mut k = i;
    while n - k > 1
        invariant
            i <= k <= n,
            n <= v@.len(),
            next_sep(v@, n as int, i as int) == next_sep(v@, n as int, k as int),
        decreases n - k,
    {
        if v[k] == 0x2c && v[k + 1] == 0x20 {
            return k;
        }
        k = k + 1;
    }
    n
}

fn trim_lo_exec(v: &Vec<u8>, lo: usize, hi: usize) -> (r: usize)
    requires
        lo <= hi <= v@.len(),
    ensures
        r == trim_lo(v@, lo as int, hi as int),
{
    let mut i = lo;
    loop
        invariant
            lo <= i <= hi,
            hi <= v@.len(),
            trim_lo(v@, lo as int, hi as int) == trim_lo(v@, i as int, hi as int),
        decreases hi - i,
    {
        let w = ws_at_exec(v, i, hi);
        if i < hi && w > 0 {
            i = i + w;
        } else {
            return i;
        }
    }
}

fn trim_hi_exec(v: &Vec<u8>, lo: usize, hi: usize) -> (r: usize)
    requires
        lo <= hi <= v@.len(),
    ensures
        r == trim_hi(v@, lo as int, hi as int),
{
    let mut j = hi;
    loop
        invariant
            lo <= j <= hi,
            hi <= v@.len(),
            trim_hi(v@, lo as int, hi as int) == trim_hi(v@, lo as int, j as int),
        decreases j - lo,
    {
        let w = ws_before_exec(v, lo, j);
        if lo < j && w > 0 {
            j = j - w;
        } else {
            return j;
        }
    }
}

proof fn lemma_or_bit_in_range(x: i32, p: int)
    requires
        0 <= x < 0x100_0000,
        0 <= p < 24,
    ensures
        0 <= (x | sq_bit(p)) < 0x100_0000,
{
    let u = p as u32;
    assert(0 <= (x | (1i32 << u)) < 0x100_0000) by (bit_vector)
        requires
            0 <= x < 0x100_0000,
            u < 24,
    ;
}

fn apply_item_exec(b: &mut BitBoard, v: &Vec<u8>, lo: usize, hi: usize)
    requires
        lo + 4 <= hi <= v@.len(),
        v@[lo + 3] != 0x2d ==> lo + 5 <= hi,
    ensures
        *final(b) == apply_item(*old(b), v@, lo as int, hi as int),
        old(b).in_range() ==> final(b).in_range(),
{
    if v[lo + 3] != 0x2d {
        let p = piece_to_pos((v[lo], v[lo + 1]));
        let bit: i32 = 1i32 << (p as u32);
        assert(bit == sq_bit(p as int));
        proof {
            if b.in_range() {
                lemma_or_bit_in_range(b.pb1, p as int);
                lemma_or_bit_in_range(b.pb2, p as int);
                lemma_or_bit_in_range(b.lb, p as int);
                lemma_or_bit_in_range(b.kb, p as int);
                lemma_or_bit_in_range(b.zb, p as int);
                lemma_or_bit_in_range(b.hb, p as int);
                lemma_or_bit_in_range(b.nb, p as int);
            }
        }
        if v[lo + 4] == 0x31 {
            b.pb1 = b.pb1 | bit;
        } else if v[lo + 4] == 0x32 {
            b.pb2 = b.pb2 | bit;
        }
        let kind = v[lo + 3];
        if kind == 0x6c {
            b.lb = b.lb | bit;
        } else if kind == 0x67 {
            b.kb = b.kb | bit;
        } else if kind == 0x65 {
            b.zb = b.zb | bit;
        } else if kind == 0x63 {
            b.hb = b.hb | bit;
        } else if kind == 0x68 {
            b.nb = b.nb | bit;
        }
    }
}

/// The board described by the text `board_vec`: items such as "A1 g2"
/// (square or hand slot, kind, owner; a `-` kind for an empty square)
/// separated by `", "`, followed by three more bytes.
pub fn make_bit_board(board_vec: &mut Vec<u8>) -> (r: BitBoard)
    requires
        board_text_ok(old(board_vec)@),
    ensures
        final(board_vec)@ == old(board_vec)@,
        r == parse_from(old(board_vec)@, old(board_vec)@.len() - 3, 0, empty_board()),
        r.in_range(),
{
    let n = board_vec.len() - 3;
    let ghost text = board_vec@;
    let mut b = BitBoard { pb1: 0, pb2: 0, lb: 0, kb: 0, zb: 0, hb: 0, nb: 0 };
    let mut start: usize = 0;
    loop
        invariant
            board_vec@ == text,
            n == text.len() - 3,
            start <= n,
            items_ok(text, n as int, start as int),
            b.in_range(),
            parse_from(text, n as int, 0, empty_board()) == parse_from(text, n as int, start as int, b),
        decreases n - start,
    {
        let k = next_sep_exec(board_vec, n, start);
        proof {
            lemma_next_sep(text, n as int, start as int);
        }
        let lo = trim_lo_exec(board_vec, start, k);
        proof {
            lemma_trim(text, start as int, k as int);
        }
        let hi = trim_hi_exec(board_vec, lo, k);
        proof {
            lemma_trim(text, lo as int, k as int);
        }
        apply_item_exec(&mut b, board_vec, lo, hi);
        if k < n {
            start = k + 2;
        } else {
            return b;
        }
    }
}

fn is_cont_exec(c: u8) -> (r: bool)
    ensures
        r == is_cont(c),
{
    0x80 <= c && c <= 0xbf
}

fn utf8_char_len_exec(v: &Vec<u8>, n: usize, i: usize) -> (r: usize)
    requires
        i < n <= v@.len(),
    ensures
        r == utf8_char_len(v@.subrange(0, n as int), i as int),
{
    let ghost s = v@.subrange(0, n as int);
    let b0 = v[i];
    let rem = n - i;
    if b0 < 0x80 {
        1
    } else if 0xc2 <= b0 && b0 <= 0xdf && rem > 1 && is_cont_exec(v[i + 1]) {
        2
    } else if b0 == 0xe0 && rem > 2 && 0xa0 <= v[i + 1] && v[i + 1] <= 0xbf && is_cont_exec(v[i + 2]) {
        3
    } else if ((0xe1 <= b0 && b0 <= 0xec) || b0 == 0xee || b0 == 0xef) && rem > 2 && is_cont_exec(
        v[i + 1],
    ) && is_cont_exec(v[i + 2]) {
        3
    } else if b0 == 0xed && rem > 2 && 0x80 <= v[i + 1] && v[i + 1] <= 0x9f && is_cont_exec(v[i + 2]) {
        3
    } else if b0 == 0xf0 && rem > 3 && 0x90 <= v[i + 1] && v[i + 1] <= 0xbf && is_cont_exec(v[i + 2])
        && is_cont_exec(v[i + 3]) {
        4
    } else if 0xf1 <= b0 && b0 <= 0xf3 && rem > 3 && is_cont_exec(v[i + 1]) && is_cont_exec(v[i + 2])
        && is_cont_exec(v[i + 3]) {
        4
    } else if b0 == 0xf4 && rem > 3 && 0x80 <= v[i + 1] && v[i + 1] <= 0x8f && is_cont_exec(v[i + 2])
        && is_cont_exec(v[i + 3]) {
        4
    } else {
        0
    }
}

/// Whether `board_vec` can be read by `make_bit_board`: at least three
/// bytes, well-formed UTF-8 before the last three, and every item long
/// enough.
pub fn board_text_well_formed(board_vec: &Vec<u8>) -> (r: bool)
    ensures
        r == board_text_ok(board_vec@),
{
    if board_vec.len() < 3 {
        return false;
    }
    let n = board_vec.len() - 3;
    let ghost s = board_vec@.subrange(0, n as int);
    let mut i: usize = 0;
    while i < n
        invariant
            i <= n,
            n == board_vec@.len() - 3,
            s == board_vec@.subrange(0, n as int),
            valid_utf8(s) == utf8_from(s, i as int),
        decreases n - i,
    {
        let l = utf8_char_len_exec(board_vec, n, i);
        if l == 0 {
            return false;
        }
        i = i + l;
    }
    let mut start: usize = 0;
    loop
        invariant
            n == board_vec@.len() - 3,
            start <= n,
            valid_utf8(s),
            s == board_vec@.subrange(0, n as int),
            items_ok(board_vec@, n as int, 0) == items_ok(board_vec@, n as int, start as int),
        decreases n - start,
    {
        let k = next_sep_exec(board_vec, n, start);
        proof {
            lemma_next_sep(board_vec@, n as int, start as int);
        }
        let lo = trim_lo_exec(board_vec, start, k);
        proof {
            lemma_trim(board_vec@, start as int, k as int);
        }
        let hi = trim_hi_exec(board_vec, lo, k);
        proof {
            lemma_trim(board_vec@, lo as int, k as int);
        }
        if hi - lo < 4 {
            return false;
        }
        if board_vec[lo + 3] != 0x2d && hi - lo < 5 {
            return false;
        }
        if k < n {
            start = k + 2;
        } else {
            return true;
        }
    }
}

proof fn lemma_sq_bit_distinct(s: int, t: int)
    requires
        0 <= s < 24,
        0 <= t < 24,
        s != t,
    ensures
        sq_bit(s) != sq_bit(t),
{
    let u = s as u32;
    let w = t as u32;
    assert((1i32 << u) != (1i32 << w)) by (bit_vector)
        requires
            u < 24,
            w < 24,
            u != w,
    ;
}

proof fn lemma_find_slot_hit(s: int, from: nat)
    requires
        0 <= s < 24,
        from <= s,
    ensures
        find_slot(sq_bit(s), from) == Some(s),
    decreases s - from,
{
    if from < s {
        lemma_sq_bit_distinct(from as int, s);
        lemma_find_slot_hit(s, from + 1);
    }
}

/// Naming a square or hand slot and reading the name back gives the same
/// square or slot: `piece_to_pos` undoes `get_board_name`.
pub proof fn lemma_name_round_trip(s: int)
    requires
        0 <= s < 24,
    ensures
        board_name(sq_bit(s)).len() == 2,
        square_index(board_name(sq_bit(s))[0] as u8, board_name(sq_bit(s))[1] as u8) == s,
{
    lemma_find_slot_hit(s, 0);
}

/// The items of the board text may come in any order: adding one item and
/// then another gives the same board as adding them the other way round.
pub proof fn lemma_item_order(b: BitBoard, s: Seq<u8>, lo1: int, hi1: int, t: Seq<u8>, lo2: int, hi2: int)
    ensures
        apply_item(apply_item(b, s, lo1, hi1), t, lo2, hi2) == apply_item(
            apply_item(b, t, lo2, hi2),
            s,
            lo1,
            hi1,
        ),
{
    assert forall|x: i32, a: i32, c: i32| #![auto] ((x | a) | c) == ((x | c) | a) by {
        assert(((x | a) | c) == ((x | c) | a)) by (bit_vector);
    }
}

} // verus!
