//! A board of two 64-bit words that keeps to the rules: a stone that
//! the rules do not allow is not played.
use vstd::prelude::*;
use vstd::std_specs::iter::IteratorSpec;
use vstd::string::StringExecFns;
use crate::bits::bottom_bit;
use crate::bits::column_bits;
use crate::bits::top_bit;
use crate::bits::BOARD_MASK;
use crate::bits::BOTTOM_MASK;
use crate::board::lemma_guarded_step;
use crate::board::replay_guarded;
use crate::board::Column;
use crate::layout::lemma_aligned;
use crate::layout::lemma_cells;
use crate::layout::lemma_playable;
use crate::layout::lemma_stones_after;
use crate::layout::lemma_words_after_play;
use crate::layout::position_of;
use crate::layout::shows_position;
use crate::layout::stones_after;
use crate::position::lemma_four_after_move;
use crate::position::lemma_no_four_after_play;
use crate::position::lemma_play;
use crate::position::lemma_position_ext;
use crate::position::lemma_picture_step;
use crate::position::picture;
use crate::position::symbol;
use crate::position::Position;
use crate::position::HEIGHT;
use crate::position::WIDTH;

verus! {

/// A board of two 64-bit words on which no player has four in a line.
#[derive(Copy, Clone, Debug)]
pub struct BitBoard {
    n_moves: usize,
    pos: u64,  // the stones of the player to move
    mask: u64,  // all stones
}

impl Default for BitBoard {
    fn default() -> (board: Self)
        ensures
            board.wf(),
            board@ == Position::empty(),
    {
        BitBoard::new()
    }
}

impl BitBoard {
    /// The word with a bit for every stone of the player to move.
    pub closed spec fn stones(&self) -> u64 {
        self.pos
    }

    /// The word with a bit for every stone.
    pub closed spec fn mask(&self) -> u64 {
        self.mask
    }

    /// The number of moves that the board has counted.
    pub closed spec fn count(&self) -> nat {
        self.n_moves as nat
    }

    /// The position that the two words show.
    pub open spec fn view(&self) -> Position {
        position_of(self.stones(), self.mask())
    }

    /// The words show a position in which no player has four in a line,
    /// and the number of moves is the number of stones.
    pub open spec fn wf(&self) -> bool {
        &&& shows_position(self.stones(), self.mask())
        &&& self.count() == self@.moves()
        &&& !self@.has_four(true)
        &&& !self@.has_four(false)
    }

    /// On a well-formed board the game is not over.
    pub proof fn lemma_wf(&self)
        requires
            self.wf(),
        ensures
            self@.wf(),
            !self@.has_four(true),
            !self@.has_four(false),
    {
        lemma_cells(self.pos, self.mask);
    }

    /// The empty board.
    pub fn new() -> (board: Self)
        ensures
            board.wf(),
            board@ == Position::empty(),
            board.stones() == 0,
            board.mask() == 0,
    {
        let board = BitBoard { n_moves: 0, pos: 0, mask: 0 };
        proof {
            assert(0u64 & !BOARD_MASK == 0 && 0u64 & ((0u64 + BOTTOM_MASK) as u64) == 0 && 0u64
                & !0u64 == 0) by (bit_vector);
            lemma_cells(0, 0);
            assert forall|c: int| 0 <= c < 7 implies #[trigger] board@.stacks[c]
                =~= Position::empty().stacks[c] by {
                crate::bits::lemma_masks(7 * c);
            }
            lemma_position_ext(board@, Position::empty());
            assert forall|own: bool, c: int, r: int| !#[trigger] Position::empty().four_at(
                own,
                c,
                r,
            ) by {}
        }
        board
    }

    /// The board after the given moves from the empty board. A stone
    /// that the rules do not allow is left out.
    pub fn from_notation(notation: &str) -> (board: Self)
        requires
            forall|i: int| 0 <= i < notation@.len() ==> Column::parse_spec(notation@[i]) is Some,
        ensures
            board.wf(),
            board@ == replay_guarded(notation@),
    {
        let mut board = BitBoard::new();
        let mut chars = notation.chars();
        let ghost mut done: int = 0;
        proof {
            assert(notation@.take(0) =~= Seq::<char>::empty());
        }
        loop
            invariant
                0 <= done <= notation@.len(),
                chars.remaining() == notation@.skip(done),
                board.wf(),
                board@ == replay_guarded(notation@.take(done)),
                forall|i: int|
                    0 <= i < notation@.len() ==> Column::parse_spec(notation@[i]) is Some,
            decreases notation@.len() - done,
        {
            let c = match chars.next() {
                Some(c) => c,
                None => {
                    proof {
                        assert(notation@.take(done) =~= notation@);
                    }
                    return board;
                },
            };
            proof {
                assert(c == notation@[done]);
                lemma_guarded_step(notation@, done);
            }
            let column = Column::from(c);
            board.play(column);
            proof {
                done = done + 1;
            }
        }
    }

    /// Checks if there is still room in the column.
    #[inline]
    pub fn is_playable(&self, column: Column) -> (playable: bool)
        requires
            self.wf(),
        ensures
            playable == self@.playable(column@),
    {
        proof {
            lemma_playable(self.pos, self.mask, column@ as u64);
        }
        self.mask & BitBoard::top_mask(column) == 0
    }

    /// Checks if a stone in the given column would win the game for the
    /// player to move: with the stone added to the stones of the player,
    /// each axis is searched for four stones in a row.
    pub fn is_winning(&self, column: Column) -> (winning: bool)
        requires
            self.wf(),
        ensures
            winning == self@.wins(column@),
    {
        proof {
            lemma_cells(self.pos, self.mask);
            lemma_stones_after(self.pos, self.mask, column@ as u64);
            lemma_aligned(
                stones_after(self.pos, self.mask, column@ as u64),
                self@.with_move(column@),
            );
            lemma_four_after_move(self@, column@);
        }
        // The stone goes to the lowest vacant cell of the column, and with
        // it to the stones of the player to move
        let pos = self.pos | ((self.mask + BitBoard::bottom_mask(column)) & BitBoard::column_mask(
            column,
        ));
        // Vertical
        let m = pos & (pos >> 1);
        if m & (m >> 2) != 0 {
            return true;
        }
        // Horizontal

        let m = pos & (pos >> (HEIGHT + 1));
        if m & (m >> (2 * (HEIGHT + 1))) != 0 {
            return true;
        }
        // Diagonal \

        let m = pos & (pos >> HEIGHT);
        if m & (m >> (2 * HEIGHT)) != 0 {
            return true;
        }
        // Diagonal /

        let m = pos & (pos >> (HEIGHT + 2));
        if m & (m >> (2 * (HEIGHT + 2))) != 0 {
            return true;
        }
        false
    }

    /// Returns the number of stones on the board.
    #[inline]
    pub fn number_of_moves(&self) -> (moves: u32)
        requires
            self.wf(),
        ensures
            moves == self@.moves(),
    {
        proof {
            lemma_cells(self.pos, self.mask);
        }
        self.n_moves as u32
    }

    /// Plays a stone in the given column and returns the number of stones
    /// on the board. Nothing is played where the column is full or the
    /// stone would win the game.
    pub fn play(&mut self, column: Column) -> (moves: u32)
        requires
            old(self).wf(),
        ensures
            final(self).wf(),
            moves == final(self)@.moves(),
            old(self)@.playable(column@) && !old(self)@.wins(column@) ==> final(self)@ == old(
                self,
            )@.play(column@),
            !(old(self)@.playable(column@) && !old(self)@.wins(column@)) ==> *final(self) == *old(
                self,
            ),
    {
        proof {
            lemma_cells(self.pos, self.mask);
        }
        if self.is_winning(column) || !self.is_playable(column) {
            return self.n_moves as u32;
        }
        proof {
            lemma_words_after_play(self.pos, self.mask, column@ as u64);
            lemma_play(self@, column@);
            lemma_no_four_after_play(self@, column@);
        }
        self.pos ^= self.mask;  // the other player is to move
        self.mask |= self.mask + BitBoard::bottom_mask(column);  // the stone

        self.n_moves += 1;
        self.n_moves as u32
    }

    /// The character that shows a cell.
    fn cell_text(&self, column: usize, row: usize) -> (text: &'static str)
        requires
            self.wf(),
            column < 7,
            row < 6,
        ensures
            text@ == seq![symbol(self@, column as int, row as int)],
    {
        let place = row + column * 7;
        let pos = 1u64 << place;
        let is_stone = self.mask & pos != 0;
        let is_stone_current_player = self.pos & pos != 0;
        let is_p1 = self.n_moves % 2 == 0;
        proof {
            lemma_cells(self.pos, self.mask);
            crate::layout::lemma_column(self.pos, self.mask, column as int);
            crate::bits::lemma_probe(self.mask, place as u64);
            crate::bits::lemma_probe(self.pos, place as u64);
            assert(crate::bits::bit_at(self.mask, column as int, row as int) == crate::bits::bit(
                self.mask,
                place as int,
            ));
            assert(crate::bits::bit_at(self.pos, column as int, row as int) == crate::bits::bit(
                self.pos,
                place as int,
            ));
            reveal_strlit("X");
            reveal_strlit("O");
            reveal_strlit("-");
        }
        if is_stone {
            if is_stone_current_player == is_p1 {
                "X"
            } else {
                "O"
            }
        } else {
            "-"
        }
    }

    /// The picture of the board: six lines of seven characters, `X` for
    /// the stones of the player who moved first, `O` for those of the
    /// other player and `-` for a vacant cell.
    pub fn render(&self) -> (text: String)
        requires
            self.wf(),
        ensures
            text@ == picture(self@),
    {
        let ghost p = self@;
        let mut s = String::new();
        let mut row: usize = HEIGHT;
        proof {
            lemma_picture_step(p, 0, 0);
            reveal_strlit("\n");
        }
        while row > 0
            invariant
                self.wf(),
                p == self@,
                row <= 6,
                s@ == picture(p).take(8 * (6 - row)),
                "\n"@ == seq!['\n'],
            decreases row,
        {
            row -= 1;
            let mut column: usize = 0;
            while column < WIDTH
                invariant
                    self.wf(),
                    p == self@,
                    row < 6,
                    column <= 7,
                    s@ == picture(p).take(8 * (5 - row) + column),
                decreases 7 - column,
            {
                proof {
                    lemma_picture_step(p, row as int, column as int);
                }
                s.append(self.cell_text(column, row));
                column += 1;
            }
            proof {
                lemma_picture_step(p, row as int, 7);
            }
            s.append("\n");
        }
        s
    }

    #[inline]
    fn bottom_mask(column: Column) -> (word: u64)
        ensures
            word == bottom_bit(column@ as u64),
    {
        1u64 << (column.index() * 7)
    }

    #[inline]
    fn column_mask(column: Column) -> (word: u64)
        ensures
            word == column_bits(column@ as u64),
    {
        0x3fu64 << (column.index() * 7)
    }

    #[inline]
    fn top_mask(column: Column) -> (word: u64)
        ensures
            word == top_bit(column@ as u64),
    {
        0x20u64 << (column.index() * 7)
    }
}

} // verus!
