//! How two words of bits show a position: `mask` holds a bit for every
//! stone, `stones` a bit for every stone of the player to move.
use vstd::prelude::*;
use crate::bits::axis;
use crate::bits::bit;
use crate::bits::bit_at;
use crate::bits::bottom_bit;
use crate::bits::column_bits;
use crate::bits::lemma_column_masks;
use crate::bits::lemma_drop;
use crate::bits::lemma_key_injective;
use crate::bits::lemma_masks;
use crate::bits::lemma_ops;
use crate::bits::lemma_other_stones;
use crate::bits::lemma_zero;
use crate::bits::top_bit;
use crate::bits::BOTTOM_MASK;
use crate::bits::lemma_runs;
use crate::bits::lemma_single;
use crate::bits::runs;
use crate::bits::count_bits;
use crate::position::lemma_nonlosing;
use crate::position::one_if;
use crate::position::lemma_position_ext;
use crate::bits::lemma_winning_cells;
use crate::bits::winning_cells;
use crate::bits::BOARD_MASK;
use crate::bits::lemma_stacked;
use crate::bits::stacked;
use crate::position::Position;

verus! {

/// Number of stones in column `c` of a stacked mask: the row of its
/// lowest vacant cell.
pub open spec fn height_of(mask: u64, c: int) -> int {
    if !bit_at(mask, c, 0) {
        0
    } else if !bit_at(mask, c, 1) {
        1
    } else if !bit_at(mask, c, 2) {
        2
    } else if !bit_at(mask, c, 3) {
        3
    } else if !bit_at(mask, c, 4) {
        4
    } else if !bit_at(mask, c, 5) {
        5
    } else {
        6
    }
}

/// The position that the two words show.
pub open spec fn position_of(stones: u64, mask: u64) -> Position {
    Position {
        stacks: Seq::new(
            7,
            |c: int| Seq::new(height_of(mask, c) as nat, |r: int| bit_at(stones, c, r)),
        ),
    }
}

/// The two words show a position: the mask is stacked, and every stone
/// of the player to move is a stone of the mask.
pub open spec fn shows_position(stones: u64, mask: u64) -> bool {
    stacked(mask) && stones & !mask == 0
}

/// The bits of `word` are the stones of one player in `p`, up to one row
/// below and above the board.
pub open spec fn shows_stones(word: u64, p: Position, own: bool) -> bool {
    forall|c: int, r: int| -1 <= r <= 6 ==> #[trigger] bit_at(word, c, r) == p.stone(own, c, r)
}

/// The bits of `mask` are the stones of `p`, up to one row below and
/// above the board.
pub open spec fn shows_heights(mask: u64, p: Position) -> bool {
    forall|c: int, r: int|
        -1 <= r <= 6 ==> #[trigger] bit_at(mask, c, r) == (0 <= c < 7 && 0 <= r < p.height(c))
}

/// The facts about one column of a stacked mask.
pub proof fn lemma_column(stones: u64, mask: u64, c: int)
    requires
        shows_position(stones, mask),
    ensures
        0 <= height_of(mask, c) <= 6,
        !(0 <= c < 7) ==> height_of(mask, c) == 0,
        forall|r: int| -1 <= r <= 6 ==> #[trigger] bit_at(mask, c, r) == (0 <= r < height_of(mask, c)),
        forall|r: int| -1 <= r <= 6 ==> (#[trigger] bit_at(stones, c, r) ==> bit_at(mask, c, r)),
{
    lemma_stacked(mask, stones, 7 * c - 1);
    lemma_stacked(mask, stones, 7 * c);
    lemma_stacked(mask, stones, 7 * c + 1);
    lemma_stacked(mask, stones, 7 * c + 2);
    lemma_stacked(mask, stones, 7 * c + 3);
    lemma_stacked(mask, stones, 7 * c + 4);
    lemma_stacked(mask, stones, 7 * c + 5);
    lemma_stacked(mask, stones, 7 * c + 6);
}

/// What the two words of a position show, cell by cell.
pub proof fn lemma_cells(stones: u64, mask: u64)
    requires
        shows_position(stones, mask),
    ensures
        position_of(stones, mask).wf(),
        forall|c: int| 0 <= c < 7 ==> #[trigger] position_of(stones, mask).height(c) == height_of(mask, c),
        shows_heights(mask, position_of(stones, mask)),
        shows_stones(stones, position_of(stones, mask), true),
        shows_stones(stones ^ mask, position_of(stones, mask), false),
        shows_position(stones ^ mask, mask),
{
    let p = position_of(stones, mask);
    lemma_column(stones, mask, 0);
    lemma_column(stones, mask, 1);
    lemma_column(stones, mask, 2);
    lemma_column(stones, mask, 3);
    lemma_column(stones, mask, 4);
    lemma_column(stones, mask, 5);
    lemma_column(stones, mask, 6);
    assert forall|c: int, r: int| -1 <= r <= 6 implies #[trigger] bit_at(mask, c, r) == (0 <= c < 7
        && 0 <= r < p.height(c)) by {
        lemma_column(stones, mask, c);
    }
    assert forall|c: int, r: int| -1 <= r <= 6 implies #[trigger] bit_at(stones, c, r) == p.stone(
        true,
        c,
        r,
    ) by {
        lemma_column(stones, mask, c);
    }
    crate::bits::lemma_other_stones(stones, mask, 0);
    assert forall|c: int, r: int| -1 <= r <= 6 implies #[trigger] bit_at(stones ^ mask, c, r)
        == p.stone(false, c, r) by {
        lemma_column(stones, mask, c);
        crate::bits::lemma_ops(stones, mask, 7 * c + r);
        assert(bit_at(stones, c, r) == bit(stones, 7 * c + r));
        assert(bit_at(mask, c, r) == bit(mask, 7 * c + r));
    }
}

/// The bit of a cell next to `(c, r)` is the stone of that cell.
proof fn lemma_stone(word: u64, q: Position, own: bool, c: int, r: int, dc: int, dr: int)
    requires
        shows_stones(word, q, own),
        q.wf(),
        0 <= r < 6,
        -3 <= dr <= 3,
    ensures
        -1 <= r + dr <= 6 ==> bit(word, 7 * c + r + 7 * dc + dr) == q.stone(own, c + dc, r + dr),
        !q.stone(own, c + dc, -1),
        !q.stone(own, c + dc, 6),
{
    if -1 <= r + dr <= 6 {
        assert(bit_at(word, c + dc, r + dr) == bit(word, 7 * c + r + 7 * dc + dr));
    }
}

/// Along the row of cell `(c, r)`, three bits in a row with the bit of
/// the cell are three stones in line with the cell.
proof fn lemma_axis_level(word: u64, q: Position, own: bool, c: int, r: int)
    requires
        shows_stones(word, q, own),
        q.wf(),
        0 <= c < 7,
        0 <= r < 6,
    ensures
        axis(word, 7 * c + r, 7) == q.line(own, c, r, 1, 0),
{
    lemma_stone(word, q, own, c, r, -3, 0);
    lemma_stone(word, q, own, c, r, -2, 0);
    lemma_stone(word, q, own, c, r, -1, 0);
    lemma_stone(word, q, own, c, r, 1, 0);
    lemma_stone(word, q, own, c, r, 2, 0);
    lemma_stone(word, q, own, c, r, 3, 0);
}

/// The same along the diagonal that rises to the right.
proof fn lemma_axis_rising(word: u64, q: Position, own: bool, c: int, r: int)
    requires
        shows_stones(word, q, own),
        q.wf(),
        0 <= c < 7,
        0 <= r < 6,
    ensures
        axis(word, 7 * c + r, 8) == q.line(own, c, r, 1, 1),
{
    lemma_stone(word, q, own, c, r, -3, -3);
    lemma_stone(word, q, own, c, r, -2, -2);
    lemma_stone(word, q, own, c, r, -1, -1);
    lemma_stone(word, q, own, c, r, 1, 1);
    lemma_stone(word, q, own, c, r, 2, 2);
    lemma_stone(word, q, own, c, r, 3, 3);
}

/// The same along the diagonal that falls to the right.
proof fn lemma_axis_falling(word: u64, q: Position, own: bool, c: int, r: int)
    requires
        shows_stones(word, q, own),
        q.wf(),
        0 <= c < 7,
        0 <= r < 6,
    ensures
        axis(word, 7 * c + r, 6) == q.line(own, c, r, 1, -1),
{
    lemma_stone(word, q, own, c, r, -3, 3);
    lemma_stone(word, q, own, c, r, -2, 2);
    lemma_stone(word, q, own, c, r, -1, 1);
    lemma_stone(word, q, own, c, r, 1, -1);
    lemma_stone(word, q, own, c, r, 2, -2);
    lemma_stone(word, q, own, c, r, 3, -3);
}

/// `winning_cells` marks the vacant cells that complete four in a line.
///
/// `word` holds the stones of one player in `q`, and `mask` is stacked.
/// Then the bit of a cell that `mask` leaves vacant is set exactly if a
/// stone of that player on the cell would complete four in a line,
/// provided that no stone of the player lies above the cell.
pub proof fn lemma_threat(word: u64, mask: u64, q: Position, own: bool, c: int, r: int)
    requires
        stacked(mask),
        shows_stones(word, q, own),
        q.wf(),
        0 <= c < 7,
        0 <= r < 6,
        !q.stone(own, c, r + 1),
    ensures
        bit_at(winning_cells(word, mask), c, r) == (!bit_at(mask, c, r) && q.completes(own, c, r)),
{
    reveal(Position::completes);
    let i = 7 * c + r;
    lemma_winning_cells(word, mask, i);
    lemma_ops(mask, BOARD_MASK, i);
    lemma_masks(i);
    lemma_axis_level(word, q, own, c, r);
    lemma_axis_rising(word, q, own, c, r);
    lemma_axis_falling(word, q, own, c, r);
    lemma_stone(word, q, own, c, r, 0, -1);
    lemma_stone(word, q, own, c, r, 0, -2);
    lemma_stone(word, q, own, c, r, 0, -3);
    assert(bit_at(winning_cells(word, mask), c, r) == bit(winning_cells(word, mask), i));
    assert(bit_at(mask, c, r) == bit(mask, i));
}

/// `winning_cells` marks no bit outside the cells of the board.
pub proof fn lemma_threat_on_board(word: u64, mask: u64, i: int)
    requires
        stacked(mask),
    ensures
        bit(winning_cells(word, mask), i) ==> 0 <= i < 49 && i % 7 != 6 && !bit(mask, i),
{
    lemma_winning_cells(word, mask, i);
    lemma_ops(mask, BOARD_MASK, i);
    lemma_masks(i);
    assert(0u64 & !mask == 0) by (bit_vector);
    lemma_stacked(mask, 0, i);
}

/// A column has room exactly if its top cell is not in the mask.
pub proof fn lemma_playable(stones: u64, mask: u64, c: u64)
    requires
        shows_position(stones, mask),
        c < 7,
    ensures
        (mask & top_bit(c) == 0) == position_of(stones, mask).playable(c as int),
{
    lemma_cells(stones, mask);
    let word = mask & top_bit(c);
    lemma_zero(word);
    assert(bit_at(mask, c as int, 5) == bit(mask, 7 * c + 5));
    lemma_ops(mask, top_bit(c), 7 * c + 5);
    lemma_column_masks(c, 7 * c + 5);
    assert forall|i: int| bit(word, i) implies i == 7 * c + 5 by {
        lemma_ops(mask, top_bit(c), i);
        lemma_column_masks(c, i);
    }
}

/// The words of a position after a move: the stones change sides, and
/// the mask gains the lowest vacant cell of the column.
pub proof fn lemma_words_after_play(stones: u64, mask: u64, c: u64)
    requires
        shows_position(stones, mask),
        c < 7,
        position_of(stones, mask).playable(c as int),
    ensures
        mask + bottom_bit(c) <= u64::MAX,
        shows_position(stones ^ mask, mask | ((mask + bottom_bit(c)) as u64)),
        position_of(stones ^ mask, mask | ((mask + bottom_bit(c)) as u64)) == position_of(
            stones,
            mask,
        ).play(c as int),
{
    let p = position_of(stones, mask);
    let after_mask = mask | ((mask + bottom_bit(c)) as u64);
    let after_stones = stones ^ mask;
    let q = position_of(after_stones, after_mask);
    lemma_cells(stones, mask);
    lemma_playable(stones, mask, c);
    assert(bit_at(mask, c as int, 5) == bit(mask, 7 * c + 5));
    lemma_drop(mask, c, 0);
    lemma_other_stones(stones, mask, (mask + bottom_bit(c)) as u64);
    lemma_cells(after_stones, after_mask);
    reveal(Position::play);
    assert forall|x: int, r: int| 0 <= x < 7 && 0 <= r < 6 implies #[trigger] bit_at(
        after_mask,
        x,
        r,
    ) == (bit_at(mask, x, r) || (x == c && r == p.height(x))) by {
        lemma_drop(mask, c, 7 * x + r);
        if r > 0 {
            assert(bit_at(mask, x, r - 1) == bit(mask, 7 * x + r - 1));
        }
    }
    assert forall|x: int| 0 <= x < 7 implies #[trigger] q.height(x) == p.play(c as int).height(
        x,
    ) by {
        assert(bit_at(after_mask, x, 0) == (bit_at(mask, x, 0) || (x == c && 0 == p.height(x))));
        assert(bit_at(after_mask, x, 1) == (bit_at(mask, x, 1) || (x == c && 1 == p.height(x))));
        assert(bit_at(after_mask, x, 2) == (bit_at(mask, x, 2) || (x == c && 2 == p.height(x))));
        assert(bit_at(after_mask, x, 3) == (bit_at(mask, x, 3) || (x == c && 3 == p.height(x))));
        assert(bit_at(after_mask, x, 4) == (bit_at(mask, x, 4) || (x == c && 4 == p.height(x))));
        assert(bit_at(after_mask, x, 5) == (bit_at(mask, x, 5) || (x == c && 5 == p.height(x))));
    }
    assert forall|x: int| 0 <= x < 7 implies #[trigger] q.stacks[x] =~= p.play(c as int).stacks[x] by {
        assert(q.height(x) == p.play(c as int).height(x));
        assert forall|r: int| 0 <= r < q.height(x) implies q.stacks[x][r] == p.play(
            c as int,
        ).stacks[x][r] by {
            lemma_ops(stones, mask, 7 * x + r);
            assert(bit_at(stones, x, r) == bit(stones, 7 * x + r));
            assert(bit_at(mask, x, r) == bit(mask, 7 * x + r));
            assert(bit_at(after_stones, x, r) == bit(after_stones, 7 * x + r));
        }
    }
    lemma_position_ext(q, p.play(c as int));
}

/// The sum of the two words of a position fits in 56 bits, is zero only
/// for the empty board, and belongs to no other position.
pub proof fn lemma_key(stones: u64, mask: u64, other_stones: u64, other_mask: u64)
    requires
        shows_position(stones, mask),
        shows_position(other_stones, other_mask),
    ensures
        stones + mask < 0x0100_0000_0000_0000,
        position_of(stones, mask).moves() > 0 ==> stones + mask != 0,
        stones + mask == other_stones + other_mask ==> stones == other_stones && mask
            == other_mask,
{
    crate::bits::lemma_stacked(mask, stones, 0);
    if stones + mask == other_stones + other_mask {
        lemma_key_injective(stones, mask, other_stones, other_mask);
    }
    lemma_other_stones(stones, mask, 0);
    if mask == 0 {
        lemma_cells(stones, mask);
        lemma_zero(mask);
        assert(!bit_at(mask, 0, 0) && !bit_at(mask, 1, 0) && !bit_at(mask, 2, 0) && !bit_at(
            mask,
            3,
            0,
        ) && !bit_at(mask, 4, 0) && !bit_at(mask, 5, 0) && !bit_at(mask, 6, 0));
    }
}

/// Words that show the same position are the same words.
pub proof fn lemma_words_of_position(stones: u64, mask: u64, other_stones: u64, other_mask: u64)
    requires
        shows_position(stones, mask),
        shows_position(other_stones, other_mask),
        position_of(stones, mask) == position_of(other_stones, other_mask),
    ensures
        stones == other_stones,
        mask == other_mask,
{
    let p = position_of(stones, mask);
    lemma_cells(stones, mask);
    lemma_cells(other_stones, other_mask);
    assert forall|i: int| bit(mask, i) == bit(other_mask, i) by {
        crate::bits::lemma_stacked(mask, stones, i);
        crate::bits::lemma_stacked(other_mask, other_stones, i);
        if 0 <= i < 49 && i % 7 != 6 {
            let c = i / 7;
            let r = i % 7;
            assert(bit_at(mask, c, r) == bit(mask, i));
            assert(bit_at(other_mask, c, r) == bit(other_mask, i));
        }
    }
    crate::bits::lemma_same_bits(mask, other_mask);
    assert forall|i: int| bit(stones, i) == bit(other_stones, i) by {
        crate::bits::lemma_stacked(mask, stones, i);
        crate::bits::lemma_stacked(other_mask, other_stones, i);
        if 0 <= i < 49 && i % 7 != 6 {
            let c = i / 7;
            let r = i % 7;
            assert(bit_at(stones, c, r) == bit(stones, i));
            assert(bit_at(other_stones, c, r) == bit(other_stones, i));
            assert(bit_at(mask, c, r) == bit(mask, i));
            if bit(mask, i) {
                assert(p.stone(true, c, r) == bit_at(stones, c, r));
                assert(p.stone(true, c, r) == bit_at(other_stones, c, r));
            }
        }
    }
    crate::bits::lemma_same_bits(stones, other_stones);
}

/// The lowest vacant cell of every column that has one.
pub open spec fn landing_cells(mask: u64) -> u64 {
    ((mask + BOTTOM_MASK) as u64) & BOARD_MASK
}

/// The bits of `landing_cells`: in every column the cell at the height
/// of the column, if that cell is on the board.
pub proof fn lemma_landing_cells(stones: u64, mask: u64)
    requires
        shows_position(stones, mask),
    ensures
        mask + BOTTOM_MASK <= u64::MAX,
        forall|c: int, r: int|
            0 <= c < 7 && 0 <= r < 6 ==> #[trigger] bit_at(landing_cells(mask), c, r) == (r
                == height_of(mask, c)),
        forall|i: int|
            bit(landing_cells(mask), i) ==> 0 <= i < 49 && i % 7 < 6 && i % 7 == height_of(
                mask,
                i / 7,
            ),
{
    crate::bits::lemma_stacked(mask, stones, 0);
    assert forall|c: int, r: int| 0 <= c < 7 && 0 <= r < 6 implies #[trigger] bit_at(
        landing_cells(mask),
        c,
        r,
    ) == (r == height_of(mask, c)) by {
        lemma_column(stones, mask, c);
        crate::bits::lemma_stacked(mask, stones, 7 * c + r);
        assert(bit_at(mask, c, r) == bit(mask, 7 * c + r));
        assert(bit_at(mask, c, r - 1) == bit(mask, 7 * c + r - 1));
    }
    assert forall|i: int| bit(landing_cells(mask), i) implies 0 <= i < 49 && i % 7 < 6 && i % 7
        == height_of(mask, i / 7) by {
        crate::bits::lemma_stacked(mask, stones, i);
        let c = i / 7;
        let r = i % 7;
        assert(bit_at(landing_cells(mask), c, r) == bit(landing_cells(mask), i));
    }
}

/// The landing cells that win, within one column, are not empty exactly
/// if the player to move wins by playing the column.
pub proof fn lemma_wins(stones: u64, mask: u64, c: u64)
    requires
        shows_position(stones, mask),
        c < 7,
    ensures
        (landing_cells(mask) & winning_cells(stones, mask) & column_bits(c) != 0) == position_of(
            stones,
            mask,
        ).wins(c as int),
{
    let p = position_of(stones, mask);
    let land = landing_cells(mask);
    let win = winning_cells(stones, mask);
    let word = land & win & column_bits(c);
    let h = height_of(mask, c as int);
    lemma_cells(stones, mask);
    lemma_landing_cells(stones, mask);
    lemma_zero(word);
    if h < 6 {
        lemma_threat(stones, mask, p, true, c as int, h);
        let i = 7 * c + h;
        lemma_ops(land & win, column_bits(c), i);
        lemma_ops(land, win, i);
        lemma_column_masks(c, i);
        assert(bit_at(land, c as int, h) == bit(land, i));
        assert(bit_at(win, c as int, h) == bit(win, i));
        assert(bit_at(mask, c as int, h) == bit(mask, i));
        assert(bit(word, i) == p.wins(c as int));
    }
    if word != 0 {
        let i = vstd::std_specs::bits::u64_trailing_zeros(word) as int;
        lemma_ops(land & win, column_bits(c), i);
        lemma_ops(land, win, i);
        lemma_column_masks(c, i);
        assert(i == 7 * c + h);
    }
}

/// The landing cells that win are not empty exactly if the player to
/// move has a winning move.
pub proof fn lemma_can_win(stones: u64, mask: u64)
    requires
        shows_position(stones, mask),
    ensures
        (landing_cells(mask) & winning_cells(stones, mask) != 0) == position_of(
            stones,
            mask,
        ).can_win(),
{
    let p = position_of(stones, mask);
    let land = landing_cells(mask);
    let win = winning_cells(stones, mask);
    let word = land & win;
    lemma_zero(word);
    assert forall|c: u64| c < 7 implies (#[trigger] bit(word, 7 * c + height_of(mask, c as int))
        && height_of(mask, c as int) < 6) == p.wins(c as int) by {
        lemma_wins(stones, mask, c);
        let one = word & column_bits(c);
        let i = 7 * c + height_of(mask, c as int);
        lemma_zero(one);
        lemma_ops(word, column_bits(c), i);
        lemma_column_masks(c, i);
        lemma_column(stones, mask, c as int);
        if one != 0 {
            let j = vstd::std_specs::bits::u64_trailing_zeros(one) as int;
            lemma_ops(word, column_bits(c), j);
            lemma_column_masks(c, j);
            lemma_ops(land, win, j);
            lemma_landing_cells(stones, mask);
            assert(j == i);
        }
    }
    if word != 0 {
        let i = vstd::std_specs::bits::u64_trailing_zeros(word) as int;
        lemma_ops(land, win, i);
        lemma_landing_cells(stones, mask);
        let c = (i / 7) as u64;
        assert(bit(word, 7 * c + height_of(mask, c as int)));
        assert(p.wins(c as int));
    }
    if p.can_win() {
        let c: u64 = if p.wins(0) {
            0
        } else if p.wins(1) {
            1
        } else if p.wins(2) {
            2
        } else if p.wins(3) {
            3
        } else if p.wins(4) {
            4
        } else if p.wins(5) {
            5
        } else {
            6
        };
        assert(bit(word, 7 * c + height_of(mask, c as int)));
    }
}

/// The vacant cells on which the opponent would complete four.
pub open spec fn opponent_cells(stones: u64, mask: u64) -> u64 {
    winning_cells(stones ^ mask, mask)
}

/// The landing cells on which the opponent would complete four: where
/// there is one, it has to be taken.
pub open spec fn forced_cells(stones: u64, mask: u64) -> u64 {
    landing_cells(mask) & opponent_cells(stones, mask)
}

/// The landing cells that keep the opponent from winning at once, where
/// at most one cell is forced: the forced cell or, without one, every
/// landing cell, unless the opponent would complete four on the cell
/// above it.
pub open spec fn safe_cells(stones: u64, mask: u64) -> u64 {
    (if forced_cells(stones, mask) != 0 {
        forced_cells(stones, mask)
    } else {
        landing_cells(mask)
    }) & !(opponent_cells(stones, mask) >> 1)
}

/// A word of landing cells has a bit in a column exactly if it holds the
/// landing cell of that column.
pub proof fn lemma_landing_in_column(stones: u64, mask: u64, word: u64, c: u64)
    requires
        shows_position(stones, mask),
        c < 7,
        forall|i: int| bit(word, i) ==> bit(landing_cells(mask), i),
    ensures
        (word & column_bits(c) != 0) == (height_of(mask, c as int) < 6 && bit(
            word,
            7 * c + height_of(mask, c as int),
        )),
{
    let one = word & column_bits(c);
    let h = height_of(mask, c as int);
    lemma_landing_cells(stones, mask);
    lemma_column(stones, mask, c as int);
    lemma_zero(one);
    lemma_ops(word, column_bits(c), 7 * c + h);
    lemma_column_masks(c, 7 * c + h);
    if one != 0 {
        let j = vstd::std_specs::bits::u64_trailing_zeros(one) as int;
        lemma_ops(word, column_bits(c), j);
        lemma_column_masks(c, j);
        assert(bit(landing_cells(mask), j));
        assert(j == 7 * c + h);
    }
}

/// A word of landing cells that is not zero holds the landing cell of
/// some column.
pub proof fn lemma_some_landing(stones: u64, mask: u64, word: u64) -> (c: u64)
    requires
        shows_position(stones, mask),
        forall|i: int| bit(word, i) ==> bit(landing_cells(mask), i),
        word != 0,
    ensures
        c < 7,
        height_of(mask, c as int) < 6,
        bit(word, 7 * c + height_of(mask, c as int)),
{
    lemma_zero(word);
    let i = vstd::std_specs::bits::u64_trailing_zeros(word) as int;
    lemma_landing_cells(stones, mask);
    assert(bit(landing_cells(mask), i));
    (i / 7) as u64
}

/// What the words of the opponent's cells say about one column: whether
/// its landing cell is forced, and whether a stone in the column gives
/// the opponent the cell above it.
pub proof fn lemma_opponent_cells(stones: u64, mask: u64, c: int)
    requires
        shows_position(stones, mask),
        0 <= c < 7,
    ensures
        ({
            let p = position_of(stones, mask);
            let h = height_of(mask, c);
            &&& h < 6 ==> bit(forced_cells(stones, mask), 7 * c + h) == p.danger(c)
            &&& h < 6 ==> bit(opponent_cells(stones, mask) >> 1, 7 * c + h) == p.opens(c)
            &&& h >= 6 ==> !p.danger(c)
        }),
{
    let p = position_of(stones, mask);
    let h = height_of(mask, c);
    let opp = opponent_cells(stones, mask);
    lemma_cells(stones, mask);
    lemma_landing_cells(stones, mask);
    lemma_column(stones, mask, c);
    if h < 6 {
        let i = 7 * c + h;
        lemma_threat(stones ^ mask, mask, p, false, c, h);
        lemma_ops(landing_cells(mask), opp, i);
        lemma_ops(opp, 0, i);
        assert(bit_at(landing_cells(mask), c, h) == bit(landing_cells(mask), i));
        assert(bit_at(opp, c, h) == bit(opp, i));
        assert(bit_at(mask, c, h) == bit(mask, i));
        if h + 1 < 6 {
            lemma_threat(stones ^ mask, mask, p, false, c, h + 1);
            assert(bit_at(opp, c, h + 1) == bit(opp, i + 1));
            assert(bit_at(mask, c, h + 1) == bit(mask, i + 1));
        } else {
            lemma_threat_on_board(stones ^ mask, mask, i + 1);
        }
    }
}

/// A forced cell is the landing cell of a column in which the opponent
/// threatens to win.
pub proof fn lemma_forced_bit(stones: u64, mask: u64, i: int)
    requires
        shows_position(stones, mask),
        bit(forced_cells(stones, mask), i),
    ensures
        0 <= i / 7 < 7,
        i == 7 * (i / 7) + height_of(mask, i / 7),
        position_of(stones, mask).danger(i / 7),
{
    lemma_landing_cells(stones, mask);
    lemma_ops(landing_cells(mask), opponent_cells(stones, mask), i);
    lemma_opponent_cells(stones, mask, i / 7);
}

/// With two forced cells, every move lets the opponent win at once.
pub proof fn lemma_two_forced(stones: u64, mask: u64)
    requires
        shows_position(stones, mask),
        forced_cells(stones, mask) != 0,
        forced_cells(stones, mask) & ((forced_cells(stones, mask) - 1) as u64) != 0,
    ensures
        !position_of(stones, mask).has_nonlosing(),
{
    let p = position_of(stones, mask);
    let forced = forced_cells(stones, mask);
    lemma_cells(stones, mask);
    lemma_single(forced);
    let (i, j) = choose|i: int, j: int| bit(forced, i) && bit(forced, j) && i != j;
    lemma_forced_bit(stones, mask, i);
    lemma_forced_bit(stones, mask, j);
    let a = i / 7;
    let b = j / 7;
    assert(a != b);
    assert forall|c: int| 0 <= c < 7 implies !#[trigger] p.nonlosing(c) by {
        lemma_nonlosing(p, c);
        assert(p.danger_beside(c));
    }
}

/// With at most one forced cell, the safe cells hold the landing cell of
/// a column exactly if a stone in that column keeps the opponent from
/// winning at once.
pub proof fn lemma_safe_column(stones: u64, mask: u64, c: u64)
    requires
        shows_position(stones, mask),
        forced_cells(stones, mask) == 0 || forced_cells(stones, mask) & ((forced_cells(
            stones,
            mask,
        ) - 1) as u64) == 0,
        c < 7,
    ensures
        (safe_cells(stones, mask) & column_bits(c) != 0) == position_of(stones, mask).nonlosing(
            c as int,
        ),
        forall|i: int| bit(safe_cells(stones, mask), i) ==> bit(landing_cells(mask), i),
{
    let p = position_of(stones, mask);
    let land = landing_cells(mask);
    let opp = opponent_cells(stones, mask);
    let forced = forced_cells(stones, mask);
    let safe = safe_cells(stones, mask);
    let h = height_of(mask, c as int);
    let base = if forced != 0 {
        forced
    } else {
        land
    };
    lemma_cells(stones, mask);
    lemma_landing_cells(stones, mask);
    assert forall|i: int| bit(safe, i) implies bit(land, i) by {
        lemma_ops(base, !(opp >> 1), i);
        lemma_ops(land, opp, i);
    }
    assert forall|i: int| bit(forced, i) implies bit(land, i) by {
        lemma_ops(land, opp, i);
    }
    lemma_landing_in_column(stones, mask, safe, c);
    lemma_nonlosing(p, c as int);
    lemma_opponent_cells(stones, mask, c as int);
    lemma_zero(forced);
    // Whether the opponent threatens the landing cell of another column.
    if p.danger_beside(c as int) {
        let x: int = if c != 0 && p.danger(0) {
            0
        } else if c != 1 && p.danger(1) {
            1
        } else if c != 2 && p.danger(2) {
            2
        } else if c != 3 && p.danger(3) {
            3
        } else if c != 4 && p.danger(4) {
            4
        } else if c != 5 && p.danger(5) {
            5
        } else {
            6
        };
        lemma_opponent_cells(stones, mask, x);
        assert(bit(forced, 7 * x + height_of(mask, x)));
        lemma_single(forced);
        if h < 6 && bit(forced, 7 * c + h) {
            assert(7 * x + height_of(mask, x) == 7 * c + h);
            lemma_column(stones, mask, x);
        }
    } else if forced != 0 {
        let one = lemma_some_landing(stones, mask, forced);
        lemma_forced_bit(stones, mask, 7 * one + height_of(mask, one as int));
        assert(p.danger(one as int));
        assert(one == c);
    }
    if h < 6 {
        lemma_ops(base, !(opp >> 1), 7 * c + h);
        lemma_ops(opp >> 1, 0, 7 * c + h);
        lemma_ops(land, opp, 7 * c + h);
        assert(bit_at(land, c as int, h) == bit(land, 7 * c + h));
    }
}

/// What the forced cells and the safe cells say about the moves that
/// keep the opponent from winning at once.
pub proof fn lemma_safe_cells(stones: u64, mask: u64)
    requires
        shows_position(stones, mask),
    ensures
        ({
            let p = position_of(stones, mask);
            let forced = forced_cells(stones, mask);
            let safe = safe_cells(stones, mask);
            &&& forced != 0 && forced & ((forced - 1) as u64) != 0 ==> !p.has_nonlosing()
            &&& forced == 0 || forced & ((forced - 1) as u64) == 0 ==> {
                &&& (safe == 0) == !p.has_nonlosing()
                &&& forall|c: u64|
                    c < 7 ==> (#[trigger] (safe & column_bits(c)) != 0) == p.nonlosing(c as int)
            }
        }),
{
    let p = position_of(stones, mask);
    let forced = forced_cells(stones, mask);
    let safe = safe_cells(stones, mask);
    if forced != 0 && forced & ((forced - 1) as u64) != 0 {
        lemma_two_forced(stones, mask);
    } else {
        lemma_safe_column(stones, mask, 0);
        lemma_safe_column(stones, mask, 1);
        lemma_safe_column(stones, mask, 2);
        lemma_safe_column(stones, mask, 3);
        lemma_safe_column(stones, mask, 4);
        lemma_safe_column(stones, mask, 5);
        lemma_safe_column(stones, mask, 6);
        if safe != 0 {
            let c = lemma_some_landing(stones, mask, safe);
            lemma_landing_in_column(stones, mask, safe, c);
        }
        if p.has_nonlosing() {
            let c: u64 = if p.nonlosing(0) {
                0
            } else if p.nonlosing(1) {
                1
            } else if p.nonlosing(2) {
                2
            } else if p.nonlosing(3) {
                3
            } else if p.nonlosing(4) {
                4
            } else if p.nonlosing(5) {
                5
            } else {
                6
            };
            lemma_zero(safe & column_bits(c));
            let j = vstd::std_specs::bits::u64_trailing_zeros(safe & column_bits(c)) as int;
            lemma_ops(safe, column_bits(c), j);
            lemma_zero(safe);
        }
    }
}

/// The stones of the player to move with the stone that a move in
/// column `c` adds.
pub open spec fn stones_after(stones: u64, mask: u64, c: u64) -> u64 {
    stones | (((mask + bottom_bit(c)) as u64) & column_bits(c))
}

/// The set bits of the seven places of a column, counted one by one.
pub proof fn lemma_count_column(word: u64, x: int)
    requires
        0 <= x,
    ensures
        count_bits(word, (7 * x + 7) as nat) == count_bits(word, (7 * x) as nat) + one_if(
            bit(word, 7 * x),
        ) + one_if(bit(word, 7 * x + 1)) + one_if(bit(word, 7 * x + 2)) + one_if(
            bit(word, 7 * x + 3),
        ) + one_if(bit(word, 7 * x + 4)) + one_if(bit(word, 7 * x + 5)) + one_if(
            bit(word, 7 * x + 6),
        ),
{
    reveal_with_fuel(count_bits, 8);
}

/// A word without bits from place 49 on has all its set bits among the
/// lowest 49.
pub proof fn lemma_count_board(word: u64)
    requires
        forall|i: int| bit(word, i) ==> i < 49,
    ensures
        count_bits(word, 64) == count_bits(word, 49),
{
    reveal_with_fuel(count_bits, 16);
}

/// The word of stones after a move shows the stones of the position
/// with the move.
pub proof fn lemma_stones_after(stones: u64, mask: u64, c: u64)
    requires
        shows_position(stones, mask),
        c < 7,
    ensures
        mask + bottom_bit(c) <= u64::MAX,
        position_of(stones, mask).with_move(c as int).wf(),
        shows_stones(
            stones_after(stones, mask, c),
            position_of(stones, mask).with_move(c as int),
            true,
        ),
{
    let p = position_of(stones, mask);
    let q = p.with_move(c as int);
    let added = ((mask + bottom_bit(c)) as u64) & column_bits(c);
    let word = stones_after(stones, mask, c);
    lemma_cells(stones, mask);
    lemma_drop(mask, c, 0);
    assert forall|x: int, y: int| -1 <= y <= 6 implies #[trigger] bit_at(word, x, y) == q.stone(
        true,
        x,
        y,
    ) by {
        let i = 7 * x + y;
        lemma_ops(stones, added, i);
        lemma_drop(mask, c, i);
        lemma_column(stones, mask, x);
        assert(bit_at(stones, x, y) == bit(stones, i));
        assert(bit_at(mask, x, y) == bit(mask, i));
        assert(bit_at(mask, x, y - 1) == bit(mask, i - 1));
        assert(bit_at(word, x, y) == bit(word, i));
        if 0 <= x < 7 {
            assert(q.height(x) == p.height(x) + if x == c && p.playable(c as int) {
                1int
            } else {
                0int
            });
        }
    }
}

/// The score of a move: the cells that `winning_cells` marks for the
/// stones after the move are the openings that the move leaves.
pub proof fn lemma_score(stones: u64, mask: u64, c: u64)
    requires
        shows_position(stones, mask),
        c < 7,
    ensures
        count_bits(winning_cells(stones_after(stones, mask, c), mask), 64) == position_of(
            stones,
            mask,
        ).threats_after(c as int),
{
    let p = position_of(stones, mask);
    let q = p.with_move(c as int);
    let after = stones_after(stones, mask, c);
    let word = winning_cells(after, mask);
    lemma_cells(stones, mask);
    lemma_stones_after(stones, mask, c);
    assert forall|i: int| bit(word, i) implies i < 49 by {
        lemma_threat_on_board(after, mask, i);
    }
    lemma_count_board(word);
    assert forall|x: int, y: int| 0 <= x < 7 && 0 <= y < 6 implies bit(word, 7 * x + y)
        == #[trigger] p.opening(c as int, x, y) by {
        lemma_column(stones, mask, x);
        assert(bit_at(word, x, y) == bit(word, 7 * x + y));
        assert(bit_at(mask, x, y) == bit(mask, 7 * x + y));
        if p.vacant(x, y) {
            lemma_threat(after, mask, q, true, x, y);
        } else {
            lemma_threat_on_board(after, mask, 7 * x + y);
        }
    }
    assert forall|x: int| 0 <= x < 7 implies count_bits(word, (7 * x + 7) as nat) == count_bits(
        word,
        (7 * x) as nat,
    ) + #[trigger] p.openings_in(c as int, x) by {
        lemma_count_column(word, x);
        lemma_threat_on_board(after, mask, 7 * x + 6);
        assert(bit(word, 7 * x) == p.opening(c as int, x, 0));
        assert(bit(word, 7 * x + 1) == p.opening(c as int, x, 1));
        assert(bit(word, 7 * x + 2) == p.opening(c as int, x, 2));
        assert(bit(word, 7 * x + 3) == p.opening(c as int, x, 3));
        assert(bit(word, 7 * x + 4) == p.opening(c as int, x, 4));
        assert(bit(word, 7 * x + 5) == p.opening(c as int, x, 5));
    }
    assert(count_bits(word, 0) == 0);
    assert(count_bits(word, 7) == p.openings_in(c as int, 0));
    assert(count_bits(word, 14) == count_bits(word, 7) + p.openings_in(c as int, 1));
    assert(count_bits(word, 21) == count_bits(word, 14) + p.openings_in(c as int, 2));
    assert(count_bits(word, 28) == count_bits(word, 21) + p.openings_in(c as int, 3));
    assert(count_bits(word, 35) == count_bits(word, 28) + p.openings_in(c as int, 4));
    assert(count_bits(word, 42) == count_bits(word, 35) + p.openings_in(c as int, 5));
    assert(count_bits(word, 49) == count_bits(word, 42) + p.openings_in(c as int, 6));
}

/// Some four bits of the word lie in a row along one of the four axes.
pub open spec fn aligned(word: u64) -> bool {
    runs(word, 1) != 0 || runs(word, 7) != 0 || runs(word, 6) != 0 || runs(word, 8) != 0
}

/// Four bits in a row at distance `7 * dc + dr` are four stones in a
/// line with direction `(dc, dr)`.
proof fn lemma_run_is_four(word: u64, q: Position, d: u64, dc: int, dr: int)
    requires
        shows_stones(word, q, true),
        q.wf(),
        runs(word, d) != 0,
        d == 7 * dc + dr,
        (dc == 0 && dr == 1) || (dc == 1 && -1 <= dr <= 1),
    ensures
        q.has_four(true),
{
    lemma_zero(runs(word, d));
    let i = vstd::std_specs::bits::u64_trailing_zeros(runs(word, d)) as int;
    lemma_runs(word, d, i);
    let x = i / 7;
    let y = i % 7;
    assert(bit_at(word, x, y) == bit(word, i));
    assert(bit_at(word, x + dc, y + dr) == bit(word, i + d));
    assert(bit_at(word, x + 2 * dc, y + 2 * dr) == bit(word, i + 2 * d));
    assert(bit_at(word, x + 3 * dc, y + 3 * dr) == bit(word, i + 3 * d));
    assert(q.stone(true, x, y));
    assert(q.stone(true, x + dc, y + dr));
    assert(q.stone(true, x + 2 * dc, y + 2 * dr));
    assert(q.stone(true, x + 3 * dc, y + 3 * dr));
    assert(q.four_from(true, x, y, dc, dr));
    assert(q.four_at(true, x, y));
}

/// Four stones in a line with direction `(dc, dr)` are four bits in a
/// row at distance `7 * dc + dr`.
proof fn lemma_four_is_run(word: u64, q: Position, x: int, y: int, d: u64, dc: int, dr: int)
    requires
        shows_stones(word, q, true),
        q.wf(),
        q.four_from(true, x, y, dc, dr),
        d == 7 * dc + dr,
        (dc == 0 && dr == 1) || (dc == 1 && -1 <= dr <= 1),
    ensures
        runs(word, d) != 0,
{
    let i = 7 * x + y;
    lemma_runs(word, d, i);
    assert(bit_at(word, x, y) == bit(word, i));
    assert(bit_at(word, x + dc, y + dr) == bit(word, i + d));
    assert(bit_at(word, x + 2 * dc, y + 2 * dr) == bit(word, i + 2 * d));
    assert(bit_at(word, x + 3 * dc, y + 3 * dr) == bit(word, i + 3 * d));
    lemma_zero(runs(word, d));
}

/// The word of a player's stones has four bits in a row exactly if the
/// player has four stones in a line.
pub proof fn lemma_aligned(word: u64, q: Position)
    requires
        shows_stones(word, q, true),
        q.wf(),
    ensures
        aligned(word) == q.has_four(true),
{
    if runs(word, 1) != 0 {
        lemma_run_is_four(word, q, 1, 0, 1);
    }
    if runs(word, 7) != 0 {
        lemma_run_is_four(word, q, 7, 1, 0);
    }
    if runs(word, 6) != 0 {
        lemma_run_is_four(word, q, 6, 1, -1);
    }
    if runs(word, 8) != 0 {
        lemma_run_is_four(word, q, 8, 1, 1);
    }
    if q.has_four(true) {
        let (x, y) = choose|x: int, y: int| #[trigger] q.four_at(true, x, y);
        if q.four_from(true, x, y, 0, 1) {
            lemma_four_is_run(word, q, x, y, 1, 0, 1);
        } else if q.four_from(true, x, y, 1, 0) {
            lemma_four_is_run(word, q, x, y, 7, 1, 0);
        } else if q.four_from(true, x, y, 1, 1) {
            lemma_four_is_run(word, q, x, y, 8, 1, 1);
        } else {
            lemma_four_is_run(word, q, x, y, 6, 1, -1);
        }
    }
}

/// Both searches for a winning move in the words find what a search
/// along the lines through the landing cell finds: the search among the
/// cells that complete four, and, where the player to move has no four in
/// a line yet, the search for four in a row after the move.
pub proof fn lemma_win_detection(stones: u64, mask: u64, c: u64)
    requires
        shows_position(stones, mask),
        c < 7,
    ensures
        (landing_cells(mask) & winning_cells(stones, mask) & column_bits(c) != 0) == position_of(
            stones,
            mask,
        ).wins(c as int),
        !position_of(stones, mask).has_four(true) ==> aligned(stones_after(stones, mask, c))
            == position_of(stones, mask).wins(c as int),
{
    let p = position_of(stones, mask);
    lemma_wins(stones, mask, c);
    lemma_cells(stones, mask);
    lemma_stones_after(stones, mask, c);
    lemma_aligned(stones_after(stones, mask, c), p.with_move(c as int));
    if !p.has_four(true) {
        crate::position::lemma_four_after_move(p, c as int);
    }
}

} // verus!
