//! Columns, scored moves, and what a board has to offer to a solver.
use vstd::prelude::*;
use vstd::std_specs::iter::IteratorSpec;
use vstd::string::StringExecFns;
use crate::bits::bottom_bit;
use crate::bits::column_bits;
use crate::bits::lemma_stacked;
use crate::bits::top_bit;
use crate::bits::winning_cells;
use crate::bits::BOARD_MASK;
use crate::bits::BOTTOM_MASK;
use crate::layout::landing_cells;
use crate::layout::lemma_can_win;
use crate::layout::lemma_cells;
use crate::layout::lemma_key;
use crate::layout::lemma_playable;
use crate::layout::lemma_safe_cells;
use crate::layout::lemma_score;
use crate::layout::lemma_stones_after;
use crate::layout::lemma_wins;
use crate::layout::lemma_words_after_play;
use crate::layout::opponent_cells;
use crate::layout::position_of;
use crate::layout::safe_cells;
use crate::layout::shows_position;
use crate::position::lemma_picture_step;
use crate::position::picture;
use crate::position::symbol;
use crate::position::Position;
pub use crate::position::HEIGHT;
pub use crate::position::WIDTH;
use crate::transposition_table::KEY_LIMIT;

pub mod array_board;
pub mod bitboard;

verus! {

/// A column of the board, `A` being the leftmost.
#[derive(Copy, Clone, PartialEq, Eq, Debug, Structural)]
pub enum Column {
    A,
    B,
    C,
    D,
    E,
    F,
    G,
}

impl View for Column {
    type V = int;

    /// The number of the column, counted from 0 at the left.
    open spec fn view(&self) -> int {
        match self {
            Column::A => 0,
            Column::B => 1,
            Column::C => 2,
            Column::D => 3,
            Column::E => 4,
            Column::F => 5,
            Column::G => 6,
        }
    }
}

impl Column {
    /// Number of columns.
    pub const COUNT: usize = 7;

    /// The column that a character of the move notation names: a digit
    /// from `1` to `7` or a letter from `A` to `G` in either case.
    pub open spec fn parse_spec(c: char) -> Option<Column> {
        if c == '1' || c == 'A' || c == 'a' {
            Some(Column::A)
        } else if c == '2' || c == 'B' || c == 'b' {
            Some(Column::B)
        } else if c == '3' || c == 'C' || c == 'c' {
            Some(Column::C)
        } else if c == '4' || c == 'D' || c == 'd' {
            Some(Column::D)
        } else if c == '5' || c == 'E' || c == 'e' {
            Some(Column::E)
        } else if c == '6' || c == 'F' || c == 'f' {
            Some(Column::F)
        } else if c == '7' || c == 'G' || c == 'g' {
            Some(Column::G)
        } else {
            None
        }
    }

    /// The column with the given number, if there is one.
    pub open spec fn from_repr_spec(index: int) -> Option<Column> {
        if index == 0 {
            Some(Column::A)
        } else if index == 1 {
            Some(Column::B)
        } else if index == 2 {
            Some(Column::C)
        } else if index == 3 {
            Some(Column::D)
        } else if index == 4 {
            Some(Column::E)
        } else if index == 5 {
            Some(Column::F)
        } else if index == 6 {
            Some(Column::G)
        } else {
            None
        }
    }

    /// The number of the column, counted from 0 at the left.
    pub fn index(self) -> (i: usize)
        ensures
            i == self@,
            i < 7,
    {
        match self {
            Column::A => 0,
            Column::B => 1,
            Column::C => 2,
            Column::D => 3,
            Column::E => 4,
            Column::F => 5,
            Column::G => 6,
        }
    }

    /// The column with the given number, if there is one.
    pub fn from_repr(index: usize) -> (column: Option<Column>)
        ensures
            column == Column::from_repr_spec(index as int),
            index < 7 <==> column is Some,
            column matches Some(c) ==> c@ == index,
    {
        match index {
            0 => Some(Column::A),
            1 => Some(Column::B),
            2 => Some(Column::C),
            3 => Some(Column::D),
            4 => Some(Column::E),
            5 => Some(Column::F),
            6 => Some(Column::G),
            _ => None,
        }
    }

    /// All columns from left to right.
    pub fn all() -> (columns: [Column; 7])
        ensures
            forall|i: int| 0 <= i < 7 ==> (#[trigger] columns[i])@ == i,
    {
        [Column::A, Column::B, Column::C, Column::D, Column::E, Column::F, Column::G]
    }

    /// The column that a character of the move notation names, or `None`
    /// for any other character.
    pub fn parse(c: char) -> (column: Option<Column>)
        ensures
            column == Column::parse_spec(c),
    {
        match c {
            '1' | 'A' | 'a' => Some(Column::A),
            '2' | 'B' | 'b' => Some(Column::B),
            '3' | 'C' | 'c' => Some(Column::C),
            '4' | 'D' | 'd' => Some(Column::D),
            '5' | 'E' | 'e' => Some(Column::E),
            '6' | 'F' | 'f' => Some(Column::F),
            '7' | 'G' | 'g' => Some(Column::G),
            _ => None,
        }
    }

    /// The column that a character of the move notation names.
    pub fn from(c: char) -> (column: Column)
        requires
            Column::parse_spec(c) is Some,
        ensures
            Some(column) == Column::parse_spec(c),
    {
        match Column::parse(c) {
            Some(column) => column,
            None => vstd::pervasive::unreached(),
        }
    }
}

/// A move together with its score: the higher the score, the earlier
/// the move deserves to be tried.
#[derive(Debug, Copy, Clone, PartialEq, Eq, Structural)]
pub struct ScoredMove {
    pub column: Column,
    pub score: u32,
}

/// A board that can be played on and handed to a solver.
///
/// A board shows a [`Position`]. Its key identifies that position among
/// the well-formed boards of its type, and fits in 56 bits.
pub trait Board: Copy {
    /// The position that the board shows.
    spec fn view(&self) -> Position;

    /// The board is in a state that its operations keep up.
    spec fn wf(&self) -> bool;

    /// The key of the board.
    spec fn key_spec(&self) -> u64;

    /// A well-formed board shows a well-formed position, and its key
    /// fits in 56 bits.
    proof fn lemma_wf(&self)
        requires
            self.wf(),
        ensures
            self@.wf(),
            self.key_spec() < KEY_LIMIT,
    ;

    /// Boards with the same key show the same position.
    proof fn lemma_key_injective(&self, other: &Self)
        requires
            self.wf(),
            other.wf(),
            self.key_spec() == other.key_spec(),
        ensures
            self@ == other@,
    ;

    /// Checks if there is still room in the column.
    fn is_playable(&self, column: Column) -> (playable: bool)
        requires
            self.wf(),
        ensures
            playable == self@.playable(column@),
    ;

    /// Checks if a stone in the given column would win the game for the
    /// player to move.
    fn is_winning(&self, column: Column) -> (winning: bool)
        requires
            self.wf(),
        ensures
            winning == self@.wins(column@),
    ;

    /// Plays a stone in the given column and returns the number of
    /// stones on the board. The column must have room.
    fn play(&mut self, column: Column) -> (moves: u32)
        requires
            old(self).wf(),
            old(self)@.playable(column@),
        ensures
            final(self).wf(),
            final(self)@ == old(self)@.play(column@),
            moves == final(self)@.moves(),
            moves == old(self)@.moves() + 1,
    ;

    /// Returns the number of stones on the board.
    fn number_of_moves(&self) -> (moves: u32)
        requires
            self.wf(),
        ensures
            moves == self@.moves(),
    ;

    /// Returns the key of the position.
    fn key(&self) -> (key: u64)
        requires
            self.wf(),
        ensures
            key == self.key_spec(),
    ;

    /// Returns for each column whether playing it leaves the opponent
    /// without a winning answer, or `None` if no column does. To be
    /// called only where the player to move has no winning move.
    fn possible_nonlosing_moves(&self) -> (moves: Option<[bool; WIDTH]>)
        requires
            self.wf(),
            !self@.can_win(),
        ensures
            moves is None <==> !self@.has_nonlosing(),
            moves matches Some(columns) ==> forall|c: int|
                0 <= c < 7 ==> #[trigger] columns[c] == self@.nonlosing(c),
    ;

    /// Returns whether the player to move has a winning move.
    fn can_win_in_one_move(&self) -> (winning: bool)
        requires
            self.wf(),
        ensures
            winning == self@.can_win(),
    ;

    /// Returns the move with its score: the higher, the better the move
    /// looks. The score guides the order of the search, not its result.
    fn score_move(&self, column: Column) -> (scored: ScoredMove)
        requires
            self.wf(),
        ensures
            scored.column == column,
    ;
}

/// The position that a sequence of moves leads to from the empty board,
/// or `None` where a character names no column or a column is full.
pub open spec fn replay(moves: Seq<char>) -> Option<Position>
    decreases moves.len(),
{
    if moves.len() == 0 {
        Some(Position::empty())
    } else {
        match (replay(moves.drop_last()), Column::parse_spec(moves.last())) {
            (Some(p), Some(column)) => if p.playable(column@) {
                Some(p.play(column@))
            } else {
                None
            },
            _ => None,
        }
    }
}

/// The position after a stone in the given column where the rules allow
/// it: the column has room and the stone does not win the game. The
/// position stays as it is otherwise.
pub open spec fn guarded_play(p: Position, column: Column) -> Position {
    if p.playable(column@) && !p.wins(column@) {
        p.play(column@)
    } else {
        p
    }
}

/// The position that a sequence of moves leads to from the empty board
/// when every stone that the rules do not allow is left out.
pub open spec fn replay_guarded(moves: Seq<char>) -> Position
    decreases moves.len(),
{
    if moves.len() == 0 {
        Position::empty()
    } else {
        match Column::parse_spec(moves.last()) {
            Some(column) => guarded_play(replay_guarded(moves.drop_last()), column),
            None => replay_guarded(moves.drop_last()),
        }
    }
}

/// The first `n + 1` moves lead to where the first `n` moves and the
/// move after them lead.
pub proof fn lemma_guarded_step(moves: Seq<char>, n: int)
    requires
        0 <= n < moves.len(),
        Column::parse_spec(moves[n]) is Some,
    ensures
        replay_guarded(moves.take(n + 1)) == guarded_play(
            replay_guarded(moves.take(n)),
            Column::parse_spec(moves[n])->0,
        ),
{
    assert(moves.take(n + 1).drop_last() =~= moves.take(n));
}

/// Moves that do not lead to a position by their first part do not lead
/// to one as a whole.
pub proof fn lemma_replay_prefix(moves: Seq<char>, n: int)
    requires
        0 <= n <= moves.len(),
        replay(moves.take(n)) is None,
    ensures
        replay(moves) is None,
    decreases moves.len(),
{
    if n < moves.len() {
        assert(moves.drop_last().take(n) =~= moves.take(n));
        lemma_replay_prefix(moves.drop_last(), n);
    } else {
        assert(moves.take(n) =~= moves);
    }
}

/// A board of two 64-bit words: one bit for every stone, and one bit for
/// every stone of the player to move.
#[derive(Copy, Clone, Debug)]
pub struct BitBoard {
    n_moves: usize,
    pos: u64,
    mask: u64,
}

impl Default for BitBoard {
    fn default() -> (board: Self)
        ensures
            board.wf(),
            board@ == Position::empty(),
    {
        BitBoard::new()
    }
}

impl Board for BitBoard {
    /// The position that the two words show.
    open spec fn view(&self) -> Position {
        position_of(self.stones(), self.mask())
    }

    /// The two words show a position, and the number of moves is the
    /// number of its stones.
    open spec fn wf(&self) -> bool {
        shows_position(self.stones(), self.mask()) && self.count() == self@.moves()
    }

    /// The sum of the two words.
    open spec fn key_spec(&self) -> u64 {
        (self.stones() + self.mask()) as u64
    }

    proof fn lemma_wf(&self) {
        lemma_cells(self.pos, self.mask);
        lemma_key(self.pos, self.mask, self.pos, self.mask);
    }

    proof fn lemma_key_injective(&self, other: &Self) {
        lemma_key(other.pos, other.mask, self.pos, self.mask);
        lemma_key(self.pos, self.mask, other.pos, other.mask);
    }

    #[inline]
    fn is_playable(&self, column: Column) -> (playable: bool) {
        proof {
            lemma_playable(self.pos, self.mask, column@ as u64);
        }
        self.mask & BitBoard::top_mask_col(column) == 0
    }

    fn is_winning(&self, column: Column) -> (winning: bool) {
        proof {
            lemma_wins(self.pos, self.mask, column@ as u64);
        }
        self.possible_moves() & self.winning_position() & BitBoard::column_mask(column) != 0
    }

    #[inline]
    fn number_of_moves(&self) -> (moves: u32) {
        proof {
            lemma_cells(self.pos, self.mask);
        }
        self.n_moves as u32
    }

    fn play(&mut self, column: Column) -> (moves: u32)
        ensures
            final(self).stones() == old(self).stones() ^ old(self).mask(),
            final(self).mask() == old(self).mask() | ((old(self).mask() + bottom_bit(
                column@ as u64,
            )) as u64),
            final(self).count() == old(self).count() + 1,
    {
        proof {
            lemma_cells(self.pos, self.mask);
            lemma_words_after_play(self.pos, self.mask, column@ as u64);
            crate::position::lemma_play(self@, column@);
        }
        self.pos ^= self.mask;  // the other player is to move
        self.mask |= self.mask + BitBoard::bottom_mask_col(column);  // the stone

        self.n_moves += 1;
        self.n_moves as u32
    }

    #[inline]
    fn key(&self) -> (key: u64) {
        proof {
            lemma_key(self.pos, self.mask, self.pos, self.mask);
        }
        self.pos + self.mask
    }

    fn can_win_in_one_move(&self) -> (winning: bool) {
        proof {
            lemma_can_win(self.pos, self.mask);
        }
        self.possible_moves() & self.winning_position() != 0
    }

    fn possible_nonlosing_moves(&self) -> (moves: Option<[bool; WIDTH]>) {
        if self.can_win_in_one_move() {
            // not to be called where a move wins the game at once
            return vstd::pervasive::unreached();
        }
        proof {
            lemma_safe_cells(self.pos, self.mask);
        }
        let mut possible = self.possible_moves();
        let opponent_win = self.opponent_winning_position();
        let forced_moves = possible & opponent_win;
        if forced_moves != 0 {
            if forced_moves & (forced_moves - 1) != 0 {
                // more than one forced move: nothing helps
                return None;
            }
            possible = forced_moves;
        }
        // No stone right below a cell that wins for the opponent.

        possible &= !(opponent_win >> 1);
        if possible == 0 {
            return None;
        }
        let mut moves = [false;WIDTH];
        let columns = Column::all();
        let mut i: usize = 0;
        while i < 7
            invariant
                i <= 7,
                possible == safe_cells(self.pos, self.mask),
                forall|j: int| 0 <= j < 7 ==> (#[trigger] columns[j])@ == j,
                forall|c: u64|
                    c < 7 ==> (#[trigger] (possible & column_bits(c)) != 0) == self@.nonlosing(
                        c as int,
                    ),
                forall|c: int|
                    0 <= c < 7 ==> #[trigger] moves[c] == (c < i && self@.nonlosing(c)),
            decreases 7 - i,
        {
            let column = columns[i];
            assert(((possible & column_bits(i as u64)) != 0) == self@.nonlosing(i as int));
            if possible & BitBoard::column_mask(column) != 0 {
                moves[column.index()] = true;
            }
            i += 1;
        }
        Some(moves)
    }

    // The score is the number of cells that win after the move
    fn score_move(&self, column: Column) -> (scored: ScoredMove)
        ensures
            scored.score == self@.threats_after(column@),
    {
        proof {
            lemma_stones_after(self.pos, self.mask, column@ as u64);
            lemma_score(self.pos, self.mask, column@ as u64);
        }
        let move_bitmask = (self.mask + BitBoard::bottom_mask_col(column)) & BitBoard::column_mask(
            column,
        );
        let score = BitBoard::compute_winning_position(
            self.pos | move_bitmask,
            self.mask,
        ).count_ones();
        ScoredMove { column, score }
    }
}

impl BitBoard {
    /// Boards that show the same position have the same key, and the
    /// same words.
    pub proof fn lemma_key_of_position(&self, other: &Self)
        requires
            self.wf(),
            other.wf(),
            self@ == other@,
        ensures
            self.key_spec() == other.key_spec(),
            self.stones() == other.stones(),
            self.mask() == other.mask(),
            self.count() == other.count(),
    {
        crate::layout::lemma_words_of_position(self.pos, self.mask, other.pos, other.mask);
    }

    /// The word with a bit for every stone of the player to move.
    pub closed spec fn stones(&self) -> u64 {
        self.pos
    }

    /// The word with a bit for every stone.
    pub closed spec fn mask(&self) -> u64 {
        self.mask
    }

    /// The number of moves that the board has counted.
    pub closed spec fn count(&self) -> nat {
        self.n_moves as nat
    }

    /// The empty board.
    pub fn new() -> (board: Self)
        ensures
            board.wf(),
            board@ == Position::empty(),
            board.stones() == 0,
            board.mask() == 0,
    {
        let board = BitBoard { n_moves: 0, pos: 0, mask: 0 };
        proof {
            assert(0u64 & !BOARD_MASK == 0 && 0u64 & ((0u64 + BOTTOM_MASK) as u64) == 0 && 0u64
                & !0u64 == 0) by (bit_vector);
            lemma_cells(0, 0);
            assert forall|c: int| 0 <= c < 7 implies #[trigger] board@.stacks[c]
                =~= Position::empty().stacks[c] by {
                crate::bits::lemma_masks(7 * c);
            }
            crate::position::lemma_position_ext(board@, Position::empty());
        }
        board
    }

    /// The board after the given moves from the empty board, or `None`
    /// where a character names no column or a column is full.
    pub fn try_from_notation(notation: &str) -> (board: Option<Self>)
        ensures
            match board {
                Some(board) => board.wf() && replay(notation@) == Some(board@),
                None => replay(notation@) is None,
            },
    {
        let mut board = BitBoard::new();
        let mut chars = notation.chars();
        let ghost mut done: int = 0;
        proof {
            assert(notation@.take(0) =~= Seq::<char>::empty());
        }
        loop
            invariant
                0 <= done <= notation@.len(),
                chars.remaining() == notation@.skip(done),
                board.wf(),
                replay(notation@.take(done)) == Some(board@),
            decreases notation@.len() - done,
        {
            let c = match chars.next() {
                Some(c) => c,
                None => {
                    proof {
                        assert(notation@.take(done) =~= notation@);
                    }
                    return Some(board);
                },
            };
            proof {
                assert(c == notation@[done]);
                assert(notation@.take(done + 1).drop_last() =~= notation@.take(done));
            }
            let column = match Column::parse(c) {
                Some(column) => column,
                None => {
                    proof {
                        lemma_replay_prefix(notation@, done + 1);
                    }
                    return None;
                },
            };
            if !board.is_playable(column) {
                proof {
                    lemma_replay_prefix(notation@, done + 1);
                }
                return None;
            }
            board.play(column);
            proof {
                done = done + 1;
            }
        }
    }

    /// The board after the given moves from the empty board.
    pub fn from_notation(notation: &str) -> (board: Self)
        requires
            replay(notation@) is Some,
        ensures
            board.wf(),
            replay(notation@) == Some(board@),
    {
        match BitBoard::try_from_notation(notation) {
            Some(board) => board,
            None => vstd::pervasive::unreached(),
        }
    }

    /// The character that shows a cell.
    fn cell_text(&self, column: usize, row: usize) -> (text: &'static str)
        requires
            self.wf(),
            column < 7,
            row < 6,
        ensures
            text@ == seq![symbol(self@, column as int, row as int)],
    {
        let place = row + column * 7;
        let pos = 1u64 << place;
        let is_stone = self.mask & pos != 0;
        let is_stone_current_player = self.pos & pos != 0;
        let is_p1 = self.n_moves % 2 == 0;
        proof {
            lemma_cells(self.pos, self.mask);
            crate::layout::lemma_column(self.pos, self.mask, column as int);
            crate::bits::lemma_probe(self.mask, place as u64);
            crate::bits::lemma_probe(self.pos, place as u64);
            assert(crate::bits::bit_at(self.mask, column as int, row as int) == crate::bits::bit(
                self.mask,
                place as int,
            ));
            assert(crate::bits::bit_at(self.pos, column as int, row as int) == crate::bits::bit(
                self.pos,
                place as int,
            ));
            reveal_strlit("X");
            reveal_strlit("O");
            reveal_strlit("-");
        }
        if is_stone {
            if is_stone_current_player == is_p1 {
                "X"
            } else {
                "O"
            }
        } else {
            "-"
        }
    }

    /// The picture of the board: six lines of seven characters, `X` for
    /// the stones of the player who moved first, `O` for those of the
    /// other player and `-` for a vacant cell.
    pub fn render(&self) -> (text: String)
        requires
            self.wf(),
        ensures
            text@ == picture(self@),
    {
        let ghost p = self@;
        let mut s = String::new();
        let mut row: usize = HEIGHT;
        proof {
            lemma_picture_step(p, 0, 0);
            reveal_strlit("\n");
        }
        while row > 0
            invariant
                self.wf(),
                p == self@,
                row <= 6,
                s@ == picture(p).take(8 * (6 - row)),
                "\n"@ == seq!['\n'],
            decreases row,
        {
            row -= 1;
            let mut column: usize = 0;
            while column < WIDTH
                invariant
                    self.wf(),
                    p == self@,
                    row < 6,
                    column <= 7,
                    s@ == picture(p).take(8 * (5 - row) + column),
                decreases 7 - column,
            {
                proof {
                    lemma_picture_step(p, row as int, column as int);
                }
                s.append(self.cell_text(column, row));
                column += 1;
            }
            proof {
                lemma_picture_step(p, row as int, 7);
            }
            s.append("\n");
        }
        s
    }

    /// The word with a bit at the bottom cell of each of the first
    /// `width` columns, for columns of `height` cells and a guard bit.
    pub fn bottom(width: usize, height: usize) -> (word: u64)
        requires
            (height + 1) * width <= 64,
        ensures
            word == crate::bits::bottom_spec(width as nat, height as nat),
        decreases width,
    {
        if width == 0 {
            0
        } else {
            assert((height + 1) * (width - 1) < 64 && (height + 1) * (width - 1) >= 0 && height
                + 1 <= 64) by (nonlinear_arith)
                requires
                    (height + 1) * width <= 64,
                    width >= 1,
            ;
            (1u64 << ((height + 1) * (width - 1))) | BitBoard::bottom(width - 1, height)
        }
    }

    #[inline]
    fn bottom_mask_col(column: Column) -> (word: u64)
        ensures
            word == bottom_bit(column@ as u64),
    {
        1u64 << (column.index() * 7)
    }

    #[inline]
    fn column_mask(column: Column) -> (word: u64)
        ensures
            word == column_bits(column@ as u64),
    {
        0x3fu64 << (column.index() * 7)
    }

    #[inline]
    fn top_mask_col(column: Column) -> (word: u64)
        ensures
            word == top_bit(column@ as u64),
    {
        0x20u64 << (column.index() * 7)
    }

    #[inline]
    fn possible_moves(&self) -> (word: u64)
        requires
            self.wf(),
        ensures
            word == landing_cells(self.mask),
    {
        proof {
            lemma_stacked(self.mask, self.pos, 0);
        }
        (self.mask + BOTTOM_MASK) & BOARD_MASK
    }

    // The cells that win for the player to move
    fn winning_position(&self) -> (word: u64)
        ensures
            word == winning_cells(self.pos, self.mask),
    {
        BitBoard::compute_winning_position(self.pos, self.mask)
    }

    // The cells that win for the opponent
    fn opponent_winning_position(&self) -> (word: u64)
        ensures
            word == opponent_cells(self.pos, self.mask),
    {
        BitBoard::compute_winning_position(self.pos ^ self.mask, self.mask)
    }

    // The cells that win for the player with the given stones: each shift
    // moves the stones onto the cell that they would win on
    fn compute_winning_position(position: u64, mask: u64) -> (word: u64)
        ensures
            word == winning_cells(position, mask),
    {
        let vertical = (position << 1) & (position << 2) & (position << 3);
        let left = (position << 7) & (position << 14);
        let right = (position >> 7) & (position >> 14);
        let down_left = (position << 6) & (position << 12);
        let down_right = (position >> 6) & (position >> 12);
        let up_left = (position << 8) & (position << 16);
        let up_right = (position >> 8) & (position >> 16);
        (vertical | (left & (position << 21)) | (left & (position >> 7)) | (right & (position
            >> 21)) | (right & (position << 7)) | (down_left & (position << 18)) | (down_left & (
        position >> 6)) | (down_right & (position >> 18)) | (down_right & (position << 6)) | (
        up_left & (position << 24)) | (up_left & (position >> 8)) | (up_right & (position >> 24))
            | (up_right & (position << 8))) & (mask ^ BOARD_MASK)
    }
}

} // verus!
