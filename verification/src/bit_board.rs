use vstd::prelude::*;

verus! {

/// A position of the game as seven bitboards.
///
/// Bits 0..12 are the twelve squares of the 3x4 board (bit `3 * row + column`,
/// row 0 being rank 1, column 0 being file A), bits 12..18 the first player's
/// hand (file D) and bits 18..24 the second player's hand (file E).
#[derive(Clone, Debug, PartialEq)]
pub struct BitBoard {
    /// Pieces of the first player.
    pub pb1: i32,
    /// Pieces of the second player.
    pub pb2: i32,
    /// Lions.
    pub lb: i32,
    /// Giraffes.
    pub kb: i32,
    /// Elephants.
    pub zb: i32,
    /// Chicks.
    pub hb: i32,
    /// Hens.
    pub nb: i32,
}

/// The square A1.
pub const A1_INDEX: i32 = 0x1;
/// The square B1.
pub const B1_INDEX: i32 = 0x2;
/// The square C1.
pub const C1_INDEX: i32 = 0x4;
/// The square A2.
pub const A2_INDEX: i32 = 0x8;
/// The square B2.
pub const B2_INDEX: i32 = 0x10;
/// The square C2.
pub const C2_INDEX: i32 = 0x20;
/// The square A3.
pub const A3_INDEX: i32 = 0x40;
/// The square B3.
pub const B3_INDEX: i32 = 0x80;
/// The square C3.
pub const C3_INDEX: i32 = 0x100;
/// The square A4.
pub const A4_INDEX: i32 = 0x200;
/// The square B4.
pub const B4_INDEX: i32 = 0x400;
/// The square C4.
pub const C4_INDEX: i32 = 0x800;
/// The slot of the first player's hand D1.
pub const D1_INDEX: i32 = 0x1000;
/// The slot of the first player's hand D2.
pub const D2_INDEX: i32 = 0x2000;
/// The slot of the first player's hand D3.
pub const D3_INDEX: i32 = 0x4000;
/// The slot of the first player's hand D4.
pub const D4_INDEX: i32 = 0x8000;
/// The slot of the first player's hand D5.
pub const D5_INDEX: i32 = 0x10000;
/// The slot of the first player's hand D6.
pub const D6_INDEX: i32 = 0x20000;
/// The slot of the second player's hand E1.
pub const E1_INDEX: i32 = 0x40000;
/// The slot of the second player's hand E2.
pub const E2_INDEX: i32 = 0x80000;
/// The slot of the second player's hand E3.
pub const E3_INDEX: i32 = 0x100000;
/// The slot of the second player's hand E4.
pub const E4_INDEX: i32 = 0x200000;
/// The slot of the second player's hand E5.
pub const E5_INDEX: i32 = 0x400000;
/// The slot of the second player's hand E6.
pub const E6_INDEX: i32 = 0x800000;

/// The twelve squares of the board.
pub const BOARD_MASK: i32 = 0xfff;
/// Both hands.
pub const HAND_MASK: i32 = 0xfff000;
/// Rank 1, where the first player's chick is promoted.
pub const D_TRY_MASK: i32 = 0x7;
/// Rank 4, where the second player's chick is promoted.
pub const E_TRY_MASK: i32 = 0xe00;
/// The first player's hand.
pub const D_HAND_MASK: i32 = 0x3f000;
/// The second player's hand.
pub const E_HAND_MASK: i32 = 0xfc0000;

/// The square or hand slot `s` (0..24) as a one-bit mask.
pub open spec fn sq_bit(s: int) -> i32 {
    (1i32 << (s as u32))
}

impl BitBoard {
    /// Every bitboard is non-negative (bit 31 is never set).
    pub open spec fn non_negative(&self) -> bool {
        &&& self.pb1 >= 0
        &&& self.pb2 >= 0
        &&& self.lb >= 0
        &&& self.kb >= 0
        &&& self.zb >= 0
        &&& self.hb >= 0
        &&& self.nb >= 0
    }

    /// Every bitboard lies within the 24 squares and hand slots.
    pub open spec fn in_range(&self) -> bool {
        &&& 0 <= self.pb1 < 0x100_0000
        &&& 0 <= self.pb2 < 0x100_0000
        &&& 0 <= self.lb < 0x100_0000
        &&& 0 <= self.kb < 0x100_0000
        &&& 0 <= self.zb < 0x100_0000
        &&& 0 <= self.hb < 0x100_0000
        &&& 0 <= self.nb < 0x100_0000
    }
}

/// The bitboard of the pieces of one player.
pub open spec fn own_of(b: BitBoard, is_player1: bool) -> i32 {
    if is_player1 { b.pb1 } else { b.pb2 }
}

/// The bitboard of the pieces of the other player.
pub open spec fn opp_of(b: BitBoard, is_player1: bool) -> i32 {
    if is_player1 { b.pb2 } else { b.pb1 }
}

/// The hand of one player.
pub open spec fn hand_mask(is_player1: bool) -> i32 {
    if is_player1 { D_HAND_MASK } else { E_HAND_MASK }
}

/// The rank on which a chick of one player is promoted.
pub open spec fn try_mask(is_player1: bool) -> i32 {
    if is_player1 { D_TRY_MASK } else { E_TRY_MASK }
}

/// The first slot of the hand of one player.
pub open spec fn hand_base(is_player1: bool) -> i32 {
    if is_player1 { 0x1000 } else { 0x40000 }
}

pub fn own_bits(b: &BitBoard, is_player1: bool) -> (r: i32)
    ensures
        r == own_of(*b, is_player1),
{
    if is_player1 { b.pb1 } else { b.pb2 }
}

pub fn hand_mask_of(is_player1: bool) -> (r: i32)
    ensures
        r == hand_mask(is_player1),
{
    if is_player1 { D_HAND_MASK } else { E_HAND_MASK }
}

} // verus!
