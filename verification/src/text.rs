use vstd::prelude::*;

use crate::bit_board::BitBoard;

verus! {

/// Appends `c` to `s`.
///
/// Calls `String::push`, which std documents as appending the character to
/// the end of the string; the contract states exactly that.
#[verifier::external_body]
pub(crate) fn string_push(s: &mut String, c: char)
    ensures
        final(s)@ == old(s)@.push(c),
{
    s.push(c);
}

/// The characters of `input` in reverse order.
pub fn reverse_string(input: &String) -> (r: String)
    ensures
        r@ == input@.reverse(),
{
    let s = input.as_str();
    let n = s.unicode_len();
    let mut reversed = String::new();
    let mut i: usize = n;
    while i > 0
        invariant
            i <= n,
            n == input@.len(),
            s@ == input@,
            reversed@ == input@.subrange(i as int, n as int).reverse(),
        decreases i,
    {
        i = i - 1;
        let c = s.get_char(i);
        string_push(&mut reversed, c);
        assert(input@.subrange(i as int, n as int).reverse() =~= input@.subrange(i + 1, n as int).reverse().push(c));
    }
    assert(input@.subrange(0, n as int) =~= input@);
    reversed
}

/// The digit of bit `k` of `x`.
pub open spec fn bit_char(x: u32, k: nat) -> char {
    if (x >> (k as u32)) & 1 == 1 {
        '1'
    } else {
        '0'
    }
}

/// The digits of bits `w - 1` down to 0 of `x`.
pub open spec fn bin_digits(x: u32, w: nat) -> Seq<char>
    decreases w,
{
    if w == 0 {
        seq![]
    } else {
        seq![bit_char(x, (w - 1) as nat)] + bin_digits(x, (w - 1) as nat)
    }
}

/// The number of binary digits printed for `x` when at least `w` are: the
/// first `w' >= w` above which `x` has no set bit.
pub open spec fn bin_width_from(x: u32, w: nat) -> nat
    decreases 32 - w,
{
    if w >= 32 || (x >> (w as u32)) == 0 {
        w
    } else {
        bin_width_from(x, w + 1)
    }
}

/// The binary text of `v` (its two's complement bits, most significant
/// first, without leading zeros beyond a width of 24 digits).
pub open spec fn binary_text(v: i32) -> Seq<char> {
    bin_digits(v as u32, bin_width_from(v as u32, 24))
}

proof fn lemma_bin_width(x: u32, w: nat)
    requires
        w <= 32,
    ensures
        w <= bin_width_from(x, w) <= 32,
    decreases 32 - w,
{
    if w < 32 && (x >> (w as u32)) != 0 {
        lemma_bin_width(x, w + 1);
    }
}

proof fn lemma_bin_digits_len(x: u32, w: nat)
    ensures
        bin_digits(x, w).len() == w,
    decreases w,
{
    if w > 0 {
        lemma_bin_digits_len(x, (w - 1) as nat);
    }
}

/// The binary text of `v`: its digits, most significant first, zero-padded
/// to 24 digits.
pub fn binary_string(v: i32) -> (r: String)
    ensures
        r@ == binary_text(v),
        r@.len() >= 24,
{
    let x: u32 = v as u32;
    let mut w: u32 = 24;
    while w < 32 && (x >> w) != 0
        invariant
            24 <= w <= 32,
            bin_width_from(x, 24) == bin_width_from(x, w as nat),
        decreases 32 - w,
    {
        w = w + 1;
    }
    let mut out = String::new();
    let mut k: u32 = w;
    assert(out@ + bin_digits(x, w as nat) =~= bin_digits(x, w as nat));
    while k > 0
        invariant
            k <= w <= 32,
            out@ + bin_digits(x, k as nat) == bin_digits(x, w as nat),
        decreases k,
    {
        k = k - 1;
        let c = if (x >> k) & 1 == 1 {
            '1'
        } else {
            '0'
        };
        assert(c == bit_char(x, k as nat));
        let ghost before = out@;
        string_push(&mut out, c);
        assert(bin_digits(x, (k + 1) as nat) == seq![c] + bin_digits(x, k as nat));
        assert(out@ + bin_digits(x, k as nat) =~= before + bin_digits(x, (k + 1) as nat));
    }
    assert(out@ =~= bin_digits(x, w as nat));
    proof {
        lemma_bin_width(x, 24);
        lemma_bin_digits_len(x, w as nat);
    }
    out
}

/// The character views of a sequence of strings.
pub open spec fn views(v: Seq<String>) -> Seq<Seq<char>> {
    v.map_values(|s: String| s@)
}

/// The cells `revs[i][lo..lo + w]` of the first `n` strings, each followed
/// by `gap`.
pub open spec fn cells(revs: Seq<Seq<char>>, lo: int, w: int, gap: Seq<char>, n: nat) -> Seq<char>
    decreases n,
{
    if n == 0 {
        seq![]
    } else {
        cells(revs, lo, w, gap, (n - 1) as nat) + revs[n - 1].subrange(lo, lo + w) + gap
    }
}

/// The binary texts of the seven bitboards, least significant bit first,
/// in the order pb1, pb2, lb, kb, zb, hb, nb.
pub open spec fn reversed_fields(b: BitBoard) -> Seq<Seq<char>> {
    seq![
        binary_text(b.pb1).reverse(),
        binary_text(b.pb2).reverse(),
        binary_text(b.lb).reverse(),
        binary_text(b.kb).reverse(),
        binary_text(b.zb).reverse(),
        binary_text(b.hb).reverse(),
        binary_text(b.nb).reverse(),
    ]
}

/// Rank `j` of the board (files A to C) for each bitboard, as a line.
pub open spec fn board_row(revs: Seq<Seq<char>>, j: int) -> Seq<char> {
    " "@ + cells(revs, 3 * j, 3, "     "@, 7) + "\n"@
}

/// The text that shows a position: for each of the seven bitboards, the
/// second player's hand (slots 18..24), the four ranks of the board and the
/// first player's hand (slots 12..18), as 0/1 digits, between two rules.
pub open spec fn display_text(b: BitBoard) -> Seq<char> {
    let revs = reversed_fields(b);
    "---------------------------------------------"@ + "\n"@
        + "pb1     pb2      lb      kb      zb      hb      nb"@ + "\n"@ + cells(revs, 18, 6, "  "@, 7)
        + "\n"@ + board_row(revs, 0) + board_row(revs, 1) + board_row(revs, 2) + board_row(revs, 3)
        + cells(revs, 12, 6, "  "@, 7) + "\n"@ + "---------------------------------"@ + "\n"@
}

fn push_cells(out: &mut String, revs: &Vec<String>, lo: usize, w: usize, gap: &str)
    requires
        revs@.len() == 7,
        lo + w <= 24,
        forall|i: int| 0 <= i < 7 ==> (#[trigger] revs@[i])@.len() >= 24,
    ensures
        final(out)@ == old(out)@ + cells(views(revs@), lo as int, w as int, gap@, 7),
{
    let ghost base = out@;
    let ghost vs = views(revs@);
    let mut i: usize = 0;
    while i < 7
        invariant
            i <= 7,
            revs@.len() == 7,
            lo + w <= 24,
            vs == views(revs@),
            forall|k: int| 0 <= k < 7 ==> (#[trigger] revs@[k])@.len() >= 24,
            out@ == base + cells(vs, lo as int, w as int, gap@, i as nat),
        decreases 7 - i,
    {
        let t = revs[i].as_str();
        assert(vs[i as int] == revs@[i as int]@);
        let ghost row_start = out@;
        let mut k: usize = lo;
        while k < lo + w
            invariant
                lo <= k <= lo + w,
                lo + w <= 24,
                t@ == vs[i as int],
                t@.len() >= 24,
                out@ == row_start + vs[i as int].subrange(lo as int, k as int),
            decreases lo + w - k,
        {
            let c = t.get_char(k);
            string_push(out, c);
            assert(vs[i as int].subrange(lo as int, k + 1) =~= vs[i as int].subrange(lo as int, k as int).push(c));
            k = k + 1;
        }
        out.append(gap);
        assert(cells(vs, lo as int, w as int, gap@, (i + 1) as nat) == cells(vs, lo as int, w as int, gap@, i as nat)
            + vs[i as int].subrange(lo as int, (lo + w) as int) + gap@);
        assert(out@ =~= base + cells(vs, lo as int, w as int, gap@, (i + 1) as nat));
        i = i + 1;
    }
}

fn push_board_row(out: &mut String, revs: &Vec<String>, j: usize)
    requires
        revs@.len() == 7,
        j < 4,
        forall|i: int| 0 <= i < 7 ==> (#[trigger] revs@[i])@.len() >= 24,
    ensures
        final(out)@ == old(out)@ + board_row(views(revs@), j as int),
{
    let ghost base = out@;
    out.append(" ");
    push_cells(out, revs, 3 * j, 3, "     ");
    out.append("\n");
    assert(out@ =~= base + board_row(views(revs@), j as int));
}

impl BitBoard {
    /// The text that shows this position (see `display_text`).
    pub fn display_string(&self) -> (r: String)
        ensures
            r@ == display_text(*self),
    {
        let revs = vec![
            reverse_string(&binary_string(self.pb1)),
            reverse_string(&binary_string(self.pb2)),
            reverse_string(&binary_string(self.lb)),
            reverse_string(&binary_string(self.kb)),
            reverse_string(&binary_string(self.zb)),
            reverse_string(&binary_string(self.hb)),
            reverse_string(&binary_string(self.nb)),
        ];
        assert(views(revs@) =~= reversed_fields(*self));
        let mut out = String::new();
        out.append("---------------------------------------------");
        out.append("\n");
        out.append("pb1     pb2      lb      kb      zb      hb      nb");
        out.append("\n");
        push_cells(&mut out, &revs, 18, 6, "  ");
        out.append("\n");
        push_board_row(&mut out, &revs, 0);
        push_board_row(&mut out, &revs, 1);
        push_board_row(&mut out, &revs, 2);
        push_board_row(&mut out, &revs, 3);
        push_cells(&mut out, &revs, 12, 6, "  ");
        out.append("\n");
        out.append("---------------------------------");
        out.append("\n");
        assert(out@ =~= display_text(*self));
        out
    }
}

} // verus!
