use vstd::prelude::*;

use crate::bit_board::{BitBoard, D_HAND_MASK, E_HAND_MASK};
use crate::parse::{board_name, get_board_name};
use crate::text::string_push;
use crate::counts::{pop, pop_from};

verus! {

/// Depth of the main search when few pieces are in hand.
pub const DEPTH: i32 = 9;

/// The number of set bits among the lowest `n` bits of `x`.
pub open spec fn bit_count(x: u32, n: nat) -> nat
    decreases n,
{
    if n == 0 {
        0
    } else {
        bit_count(x, (n - 1) as nat) + (if (x >> ((n - 1) as u32)) & 1 == 1 { 1nat } else { 0nat })
    }
}

/// The number of pieces in both hands.
pub open spec fn hand_count(b: BitBoard) -> nat {
    bit_count((b.pb1 & D_HAND_MASK) as u32, 32) + bit_count((b.pb2 & E_HAND_MASK) as u32, 32)
}

/// The depth of the main search on `b`: `DEPTH` with at most two pieces in
/// hand, one less with at most four, two less with more.
pub open spec fn depth_for(b: BitBoard) -> int {
    if hand_count(b) <= 2 {
        DEPTH as int
    } else if hand_count(b) <= 4 {
        DEPTH - 1
    } else {
        DEPTH - 2
    }
}

fn count_bits(x: u32) -> (r: u32)
    ensures
        r == bit_count(x, 32),
        r <= 32,
{
    let mut n: u32 = 0;
    let mut k: u32 = 0;
    while k < 32
        invariant
            k <= 32,
            n == bit_count(x, k as nat),
            n <= k,
        decreases 32 - k,
    {
        if (x >> k) & 1 == 1 {
            n = n + 1;
        }
        k = k + 1;
    }
    n
}

/// The number of pieces in the first player's hand and in the second
/// player's hand.
pub fn hand_counts(board: &BitBoard) -> (r: (u32, u32))
    ensures
        r.0 == bit_count((board.pb1 & D_HAND_MASK) as u32, 32),
        r.1 == bit_count((board.pb2 & E_HAND_MASK) as u32, 32),
        r.0 <= 32,
        r.1 <= 32,
{
    (count_bits((board.pb1 & D_HAND_MASK) as u32), count_bits((board.pb2 & E_HAND_MASK) as u32))
}

/// The depth of the main search on `board` (see `depth_for`).
pub fn search_depth(board: &BitBoard) -> (r: i32)
    ensures
        r == depth_for(*board),
{
    let (p1, p2) = hand_counts(board);
    let count = p1 + p2;
    if count <= 2 {
        DEPTH
    } else if count <= 4 {
        DEPTH - 1
    } else {
        DEPTH - 2
    }
}

/// The greeting "You are Player1" or "You are Player2" names the first
/// player unless its fifteenth byte is `2`.
pub fn greeting_is_player1(greeting: &Vec<u8>) -> (r: bool)
    requires
        greeting@.len() > 14,
    ensures
        r == (greeting@[14] != 0x32),
{
    greeting[14] != 0x32
}

/// The reply to "turn" names the player to move in its seventh byte: it is
/// this player's turn when that byte is the player's digit in the greeting.
pub fn is_own_turn(reply: &Vec<u8>, greeting: &Vec<u8>) -> (r: bool)
    requires
        reply@.len() > 6,
        greeting@.len() > 14,
    ensures
        r == (reply@[6] == greeting@[14]),
{
    reply[6] == greeting[14]
}

/// The command that plays `best_move`: "mv", the name of the source and the
/// name of the destination, separated by spaces.
pub fn move_command(best_move: (i32, i32)) -> (r: String)
    ensures
        r@ == seq!['m', 'v', ' '] + board_name(best_move.0) + seq![' '] + board_name(best_move.1),
{
    let mut cmd = String::new();
    string_push(&mut cmd, 'm');
    string_push(&mut cmd, 'v');
    string_push(&mut cmd, ' ');
    cmd.append(get_board_name(best_move.0).as_str());
    string_push(&mut cmd, ' ');
    cmd.append(get_board_name(best_move.1).as_str());
    assert(cmd@ =~= seq!['m', 'v', ' '] + board_name(best_move.0) + seq![' '] + board_name(best_move.1));
    cmd
}

/// The position taken as the one before the first move: only the two lions,
/// on B1 (first player) and B4 (second player).
pub fn first_previous_board() -> (r: BitBoard)
    ensures
        r == (BitBoard { pb1: 0x2, pb2: 0x400, lb: 0x402, kb: 0, zb: 0, hb: 0, nb: 0 }),
{
    BitBoard { pb1: 0b000_000_000_010, pb2: 0b010_000_000_000, lb: 0b010_000_000_010, kb: 0, zb: 0, hb: 0, nb: 0 }
}

proof fn lemma_hand_bit(y: i32, m: i32, u: u32, k: u32)
    by (bit_vector)
    requires
        m == 0x3f000 || m == 0xfc0000,
        u == (y & m) as u32,
        k < 32,
    ensures
        0 <= y & m < 0x100_0000,
        k < 24 ==> (((u >> k) & 1 == 1) == (((y & m) >> k) & 1 == 1)),
        k >= 24 ==> (u >> k) & 1 != 1,
{
}

proof fn lemma_bit_count_low(y: i32, m: i32, n: nat)
    requires
        m == 0x3f000 || m == 0xfc0000,
        n <= 24,
    ensures
        bit_count((y & m) as u32, n) + pop_from(y & m, n) == pop(y & m),
    decreases n,
{
    if n > 0 {
        lemma_bit_count_low(y, m, (n - 1) as nat);
        lemma_hand_bit(y, m, (y & m) as u32, (n - 1) as u32);
    }
}

proof fn lemma_bit_count_high(y: i32, m: i32, n: nat)
    requires
        m == 0x3f000 || m == 0xfc0000,
        24 <= n <= 32,
    ensures
        bit_count((y & m) as u32, n) == bit_count((y & m) as u32, 24),
    decreases n,
{
    if n > 24 {
        lemma_bit_count_high(y, m, (n - 1) as nat);
        lemma_hand_bit(y, m, (y & m) as u32, (n - 1) as u32);
    }
}

/// The pieces counted in a hand are the pieces the hand holds.
pub proof fn lemma_hand_count_pop(y: i32, m: i32)
    requires
        m == 0x3f000 || m == 0xfc0000,
    ensures
        bit_count((y & m) as u32, 32) == pop(y & m),
{
    lemma_bit_count_low(y, m, 24);
    lemma_bit_count_high(y, m, 32);
}

/// The main search is 9 plies deep while both hands together hold at most
/// two pieces, 8 with three or four, 7 with more: the pieces of both
/// players' hands count alike.
pub proof fn lemma_search_depth_rule(b: BitBoard)
    ensures
        ({
            let n = pop(b.pb1 & 0x3f000) + pop(b.pb2 & 0xfc0000);
            depth_for(b) == if n <= 2 {
                9int
            } else if n <= 4 {
                8int
            } else {
                7int
            }
        }),
{
    lemma_hand_count_pop(b.pb1, 0x3f000);
    lemma_hand_count_pop(b.pb2, 0xfc0000);
}

} // verus!
