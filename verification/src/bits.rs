//! The board as bits of a 64-bit word, and what the word operations of
//! the bit boards do to single bits.
//!
//! Column `c` takes the seven bits from `7 * c` upwards: six cells from
//! the bottom row up, and a guard bit above them that is never set.
use vstd::prelude::*;

verus! {

/// One bit at the bottom cell of every column.
pub const BOTTOM_MASK: u64 = 0x0000_0408_1020_4081;

/// One bit at every cell of the board.
pub const BOARD_MASK: u64 = 0x0000_fdfb_f7ef_dfbf;

/// Bit `i` of `x` is set.
pub open spec fn bit64(x: u64, i: u64) -> bool {
    i < 64 && (x >> i) & 1 == 1
}

/// Bit `i` of `x` is set; no bit is set outside the word.
pub open spec fn bit(x: u64, i: int) -> bool {
    0 <= i < 64 && bit64(x, i as u64)
}

/// The bit of cell `(c, r)` is set in `x`.
pub open spec fn bit_at(x: u64, c: int, r: int) -> bool {
    bit(x, 7 * c + r)
}

/// The bottom cell of column `c`.
pub open spec fn bottom_bit(c: u64) -> u64 {
    1u64 << (c * 7)
}

/// The top cell of column `c`.
pub open spec fn top_bit(c: u64) -> u64 {
    0x20u64 << (c * 7)
}

/// The cells of column `c`.
pub open spec fn column_bits(c: u64) -> u64 {
    0x3fu64 << (c * 7)
}

/// The bit `k` places below bit `i` is set.
pub open spec fn below(x: u64, i: u64, k: u64) -> bool {
    i >= k && bit64(x, (i - k) as u64)
}

/// The bit `k` places above bit `i` is set.
pub open spec fn above(x: u64, i: u64, k: u64) -> bool {
    i + k < 64 && bit64(x, (i + k) as u64)
}

/// Three bits of `x` at distances that are multiples of `d` from bit `i`
/// make, together with bit `i`, four bits in a row at distance `d`.
pub open spec fn axis64(x: u64, i: u64, d: u64) -> bool {
    ||| below(x, i, (3 * d) as u64) && below(x, i, (2 * d) as u64) && below(x, i, d)
    ||| below(x, i, (2 * d) as u64) && below(x, i, d) && above(x, i, d)
    ||| below(x, i, d) && above(x, i, d) && above(x, i, (2 * d) as u64)
    ||| above(x, i, d) && above(x, i, (2 * d) as u64) && above(x, i, (3 * d) as u64)
}

/// As `axis64`, for a place given as an `int`.
pub open spec fn axis(x: u64, i: int, d: int) -> bool {
    ||| bit(x, i - 3 * d) && bit(x, i - 2 * d) && bit(x, i - d)
    ||| bit(x, i - 2 * d) && bit(x, i - d) && bit(x, i + d)
    ||| bit(x, i - d) && bit(x, i + d) && bit(x, i + 2 * d)
    ||| bit(x, i + d) && bit(x, i + 2 * d) && bit(x, i + 3 * d)
}

/// The cells that would complete four in a row for the stones in
/// `position`, among the cells that `mask` leaves vacant.
pub open spec fn winning_cells(position: u64, mask: u64) -> u64 {
    let vertical = (position << 1) & (position << 2) & (position << 3);
    let left = (position << 7) & (position << 14);
    let right = (position >> 7) & (position >> 14);
    let down_left = (position << 6) & (position << 12);
    let down_right = (position >> 6) & (position >> 12);
    let up_left = (position << 8) & (position << 16);
    let up_right = (position >> 8) & (position >> 16);
    (vertical | (left & (position << 21)) | (left & (position >> 7)) | (right & (position >> 21))
        | (right & (position << 7)) | (down_left & (position << 18)) | (down_left & (position
        >> 6)) | (down_right & (position >> 18)) | (down_right & (position << 6)) | (up_left & (
    position << 24)) | (up_left & (position >> 8)) | (up_right & (position >> 24)) | (up_right & (
    position << 8))) & (mask ^ BOARD_MASK)
}

/// The stones in `mask` fill every column from the bottom without a gap,
/// and none lies outside the board.
pub open spec fn stacked(mask: u64) -> bool {
    mask & !BOARD_MASK == 0 && mask & ((mask + BOTTOM_MASK) as u64) == 0
}

/// Number of set bits of `x` among its lowest `n` bits.
pub open spec fn count_bits(x: u64, n: nat) -> nat
    decreases n,
{
    if n == 0 {
        0
    } else {
        count_bits(x, (n - 1) as nat) + if bit(x, n - 1) {
            1nat
        } else {
            0nat
        }
    }
}

pub proof fn lemma_winning_cells64(p: u64, m: u64, i: u64)
    by (bit_vector)
    requires
        i < 64,
    ensures
        bit64(winning_cells(p, m), i) == (bit64(m ^ 0x0000_fdfb_f7ef_dfbfu64, i) && ((below(p, i, 1)
            && below(p, i, 2) && below(p, i, 3)) || axis64(p, i, 7) || axis64(p, i, 6) || axis64(
            p,
            i,
            8,
        ))),
{
}

/// Which bits `winning_cells` sets: those that the mask and the board
/// differ in, and that have three stones below them or three stones with
/// them in a row along one of the other axes.
pub proof fn lemma_winning_cells(p: u64, m: u64, i: int)
    ensures
        bit(winning_cells(p, m), i) == (bit(m ^ BOARD_MASK, i) && ((bit(p, i - 1) && bit(p, i - 2)
            && bit(p, i - 3)) || axis(p, i, 7) || axis(p, i, 6) || axis(p, i, 8))),
{
    if 0 <= i < 64 {
        lemma_winning_cells64(p, m, i as u64);
    }
}

pub proof fn lemma_masks64(i: u64)
    by (bit_vector)
    ensures
        bit64(0x0000_fdfb_f7ef_dfbfu64, i) == (i < 49 && i % 7 != 6),
        bit64(0x0000_0408_1020_4081u64, i) == (i < 49 && i % 7 == 0),
        !bit64(0, i),
{
}

/// The bits of the two masks, and of the empty word.
pub proof fn lemma_masks(i: int)
    ensures
        bit(BOARD_MASK, i) == (0 <= i < 49 && i % 7 != 6),
        bit(BOTTOM_MASK, i) == (0 <= i < 49 && i % 7 == 0),
        !bit(0, i),
{
    if 0 <= i < 64 {
        lemma_masks64(i as u64);
    }
}

pub proof fn lemma_ops64(a: u64, b: u64, i: u64)
    by (bit_vector)
    ensures
        bit64(a & b, i) == (bit64(a, i) && bit64(b, i)),
        bit64(a | b, i) == (bit64(a, i) || bit64(b, i)),
        bit64(a ^ b, i) == (bit64(a, i) != bit64(b, i)),
        bit64(!a, i) == (i < 64 && !bit64(a, i)),
        bit64(a >> 1, i) == (i < 63 && bit64(a, (i + 1) as u64)),
{
}

/// The bits of a conjunction, a disjunction, a difference, a complement
/// and a shift by one place.
pub proof fn lemma_ops(a: u64, b: u64, i: int)
    ensures
        bit(a & b, i) == (bit(a, i) && bit(b, i)),
        bit(a | b, i) == (bit(a, i) || bit(b, i)),
        bit(a ^ b, i) == (bit(a, i) != bit(b, i)),
        bit(!a, i) == (0 <= i < 64 && !bit(a, i)),
        bit(a >> 1, i) == (0 <= i && bit(a, i + 1)),
{
    if 0 <= i < 64 {
        lemma_ops64(a, b, i as u64);
    }
}

pub proof fn lemma_column_masks64(c: u64, i: u64)
    by (bit_vector)
    requires
        c < 7,
    ensures
        bit64(bottom_bit(c), i) == (i == c * 7),
        bit64(top_bit(c), i) == (i == c * 7 + 5),
        bit64(column_bits(c), i) == (c * 7 <= i < c * 7 + 6),
{
}

/// The bits of the masks of a single column: its bottom cell, its top
/// cell and all its cells.
pub proof fn lemma_column_masks(c: u64, i: int)
    requires
        c < 7,
    ensures
        bit(bottom_bit(c), i) == (i == c * 7),
        bit(top_bit(c), i) == (i == c * 7 + 5),
        bit(column_bits(c), i) == (c * 7 <= i < c * 7 + 6),
{
    if 0 <= i < 64 {
        lemma_column_masks64(c, i as u64);
    }
}

pub proof fn lemma_stacked64(mask: u64, stones: u64, i: u64)
    by (bit_vector)
    requires
        mask & !0x0000_fdfb_f7ef_dfbfu64 == 0 && mask & ((mask + 0x0000_0408_1020_4081u64) as u64)
            == 0,
        stones & !mask == 0,
    ensures
        mask + 0x0000_0408_1020_4081u64 <= 0xffff_ffff_ffff_ffffu64,
        mask + stones < 0x0100_0000_0000_0000u64,
        bit64(stones, i) ==> bit64(mask, i),
        bit64(mask, i) ==> i < 49 && i % 7 != 6 && (i % 7 == 0 || below(mask, i, 1)),
        bit64(((mask + 0x0000_0408_1020_4081u64) as u64) & 0x0000_fdfb_f7ef_dfbfu64, i) == (i < 49
            && i % 7 != 6 && !bit64(mask, i) && (i % 7 == 0 || below(mask, i, 1))),
{
}

/// In a stacked mask every stone lies on the board and, unless it lies
/// in the bottom row, on another stone. Adding `BOTTOM_MASK` to it gives
/// the lowest vacant cell of every column that has one.
pub proof fn lemma_stacked(mask: u64, stones: u64, i: int)
    requires
        stacked(mask),
        stones & !mask == 0,
    ensures
        mask + BOTTOM_MASK <= u64::MAX,
        mask + stones < 0x0100_0000_0000_0000u64,
        bit(stones, i) ==> bit(mask, i),
        bit(mask, i) ==> 0 <= i < 49 && i % 7 != 6 && (i % 7 == 0 || bit(mask, i - 1)),
        bit(((mask + BOTTOM_MASK) as u64) & BOARD_MASK, i) == (0 <= i < 49 && i % 7 != 6 && !bit(
            mask,
            i,
        ) && (i % 7 == 0 || bit(mask, i - 1))),
{
    if 0 <= i < 64 {
        lemma_stacked64(mask, stones, i as u64);
    } else {
        lemma_stacked64(mask, stones, 0);
    }
}

pub proof fn lemma_drop64(mask: u64, c: u64, i: u64)
    by (bit_vector)
    requires
        mask & !0x0000_fdfb_f7ef_dfbfu64 == 0 && mask & ((mask + 0x0000_0408_1020_4081u64) as u64)
            == 0,
        c < 7,
    ensures
        mask + bottom_bit(c) <= 0xffff_ffff_ffff_ffffu64,
        bit64(((mask + bottom_bit(c)) as u64) & column_bits(c), i) == (c
            * 7 <= i < c * 7 + 6 && !bit64(mask, i) && (i == c * 7 || below(mask, i, 1))),
        !bit64(mask, (c * 7 + 5) as u64) ==> bit64(mask | ((mask + bottom_bit(c)) as u64), i)
            == (bit64(mask, i) || (c * 7 <= i < c * 7 + 6 && !bit64(mask, i) && (i == c * 7
            || below(mask, i, 1)))),
        !bit64(mask, (c * 7 + 5) as u64) ==> {
            let after = mask | ((mask + bottom_bit(c)) as u64);
            after & !0x0000_fdfb_f7ef_dfbfu64 == 0 && after & ((after
                + 0x0000_0408_1020_4081u64) as u64) == 0
        },
{
}

/// Adding the bottom bit of a column to a stacked mask gives the lowest
/// vacant cell of that column; joined to the mask it gives a stacked
/// mask again, if the column has a vacant cell.
pub proof fn lemma_drop(mask: u64, c: u64, i: int)
    requires
        stacked(mask),
        c < 7,
    ensures
        mask + bottom_bit(c) <= u64::MAX,
        bit(((mask + bottom_bit(c)) as u64) & column_bits(c), i) == (c
            * 7 <= i < c * 7 + 6 && !bit(mask, i) && (i == c * 7 || bit(mask, i - 1))),
        !bit(mask, c * 7 + 5) ==> bit(mask | ((mask + bottom_bit(c)) as u64), i) == (bit(
            mask,
            i,
        ) || (c * 7 <= i < c * 7 + 6 && !bit(mask, i) && (i == c * 7 || bit(mask, i - 1)))),
        !bit(mask, c * 7 + 5) ==> stacked(mask | ((mask + bottom_bit(c)) as u64)),
{
    if 0 <= i < 64 {
        lemma_drop64(mask, c, i as u64);
    } else {
        lemma_drop64(mask, c, 0);
    }
}

/// Two boards with the same sum of stones and mask have the same stones
/// and the same mask.
pub proof fn lemma_key_injective(p1: u64, m1: u64, p2: u64, m2: u64)
    by (bit_vector)
    requires
        m1 & !0x0000_fdfb_f7ef_dfbfu64 == 0 && m1 & ((m1 + 0x0000_0408_1020_4081u64) as u64) == 0,
        m2 & !0x0000_fdfb_f7ef_dfbfu64 == 0 && m2 & ((m2 + 0x0000_0408_1020_4081u64) as u64) == 0,
        p1 & !m1 == 0,
        p2 & !m2 == 0,
        p1 + m1 == p2 + m2,
    ensures
        p1 == p2,
        m1 == m2,
{
}

/// The stones of the other player, which are those of the mask that are
/// not among the given ones, are stones of the mask and of any larger
/// mask.
pub proof fn lemma_other_stones(stones: u64, mask: u64, more: u64)
    by (bit_vector)
    requires
        stones & !mask == 0,
    ensures
        (stones ^ mask) & !mask == 0,
        (stones ^ mask) & !(mask | more) == 0,
        stones <= mask,
        mask != 0 ==> stones + mask != 0,
{
}

/// A word is zero exactly if none of its bits is set.
pub proof fn lemma_zero(x: u64)
    ensures
        x == 0 <==> forall|i: int| !bit(x, i),
        x != 0 ==> bit(x, vstd::std_specs::bits::u64_trailing_zeros(x) as int),
{
    vstd::std_specs::bits::axiom_u64_trailing_zeros(x);
    if x == 0 {
        assert forall|i: int| !bit(x, i) by {
            lemma_masks(i);
        }
    } else {
        let i = vstd::std_specs::bits::u64_trailing_zeros(x);
        assert(bit(x, i as int));
    }
}

/// Words with the same bits are the same word.
pub proof fn lemma_same_bits(a: u64, b: u64)
    requires
        forall|i: int| bit(a, i) == bit(b, i),
    ensures
        a == b,
{
    lemma_zero(a ^ b);
    assert forall|i: int| !bit(a ^ b, i) by {
        lemma_ops(a, b, i);
    }
    assert(a ^ b == 0 ==> a == b) by (bit_vector);
}

pub proof fn lemma_single64(f: u64, i: u64, j: u64)
    by (bit_vector)
    requires
        f != 0,
    ensures
        f & ((f - 1) as u64) == 0 && bit64(f, i) && bit64(f, j) ==> i == j,
        bit64(f & ((f - 1) as u64), j) ==> bit64(f, j) && f ^ (1u64 << j) != 0,
        j < 64 ==> bit64(f ^ (1u64 << j), i) == (bit64(f, i) != (i == j)),
{
}

/// `f & (f - 1)` is zero exactly if at most one bit of `f` is set.
pub proof fn lemma_single(f: u64)
    requires
        f != 0,
    ensures
        f & ((f - 1) as u64) == 0 <==> forall|i: int, j: int| bit(f, i) && bit(f, j) ==> i == j,
{
    if f & ((f - 1) as u64) == 0 {
        assert forall|i: int, j: int| bit(f, i) && bit(f, j) implies i == j by {
            lemma_single64(f, i as u64, j as u64);
        }
    } else {
        let g = f & ((f - 1) as u64);
        lemma_zero(g);
        let j = vstd::std_specs::bits::u64_trailing_zeros(g);
        lemma_single64(f, 0, j as u64);
        let h = f ^ (1u64 << (j as u64));
        lemma_zero(h);
        let i = vstd::std_specs::bits::u64_trailing_zeros(h);
        lemma_single64(f, i as u64, j as u64);
        assert(bit(f, i as int) && bit(f, j as int) && i != j);
    }
}

/// The bits of `word` that start four set bits in a row at distance `d`.
pub open spec fn runs(word: u64, d: u64) -> u64 {
    (word & (word >> d)) & ((word & (word >> d)) >> ((2 * d) as u64))
}

pub proof fn lemma_runs64(p: u64, d: u64, i: u64)
    by (bit_vector)
    requires
        0 < d < 9,
    ensures
        bit64(runs(p, d), i) == (bit64(p, i) && above(p, i, d) && above(p, i, (2 * d) as u64)
            && above(p, i, (3 * d) as u64)),
{
}

/// Which bits stay when a word is joined with itself shifted by `d` and
/// the result with itself shifted by `2 * d`: those that start four bits
/// in a row at distance `d`.
pub proof fn lemma_runs(p: u64, d: u64, i: int)
    requires
        0 < d < 9,
    ensures
        bit(runs(p, d), i) == (bit(p, i) && bit(p, i + d) && bit(p, i + 2 * d) && bit(
            p,
            i + 3 * d,
        )),
{
    if 0 <= i < 64 {
        lemma_runs64(p, d, i as u64);
    }
}

/// A word shares a bit with the word of a single bit exactly if it has
/// that bit.
pub proof fn lemma_probe(x: u64, i: u64)
    by (bit_vector)
    requires
        i < 64,
    ensures
        (x & (1u64 << i) != 0) == bit64(x, i),
{
}

/// The word with a bit at the bottom cell of each of the first `width`
/// columns, for columns of `height` cells and a guard bit.
pub open spec fn bottom_spec(width: nat, height: nat) -> u64
    decreases width,
{
    if width == 0 {
        0
    } else {
        (1u64 << (((height + 1) * (width - 1)) as u64)) | bottom_spec((width - 1) as nat, height)
    }
}

/// `BOTTOM_MASK` and `BOARD_MASK` are the bottom cells and the cells of
/// seven columns of six cells, and the seven columns of seven bits fit
/// in a word.
pub proof fn lemma_bottom_mask()
    ensures
        bottom_spec(7, 6) == BOTTOM_MASK,
        BOTTOM_MASK * 63 == BOARD_MASK,
        (crate::position::HEIGHT + 1) * crate::position::WIDTH <= 64,
{
    reveal_with_fuel(bottom_spec, 8);
    assert((1u64 << 42) | ((1u64 << 35) | ((1u64 << 28) | ((1u64 << 21) | ((1u64 << 14) | ((1u64
        << 7) | ((1u64 << 0) | 0)))))) == 0x0000_0408_1020_4081u64) by (bit_vector);
}

/// `u64::count_ones` of the standard library, which is documented to
/// return the number of ones in the binary representation of the word:
/// `count_bits` counts the set bits among all 64.
pub assume_specification[ u64::count_ones ](x: u64) -> (ones: u32)
    ensures
        ones == count_bits(x, 64),
;

} // verus!
