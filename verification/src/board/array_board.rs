//! A board kept as a grid of slots: slow, and simple enough to check
//! the bit boards against.
use vstd::prelude::*;
use vstd::std_specs::iter::IteratorSpec;
use vstd::string::StringExecFns;
use crate::board::lemma_guarded_step;
use crate::board::replay_guarded;
use crate::board::Column;
use crate::position::lemma_play;
use crate::position::caption;
use crate::position::lemma_picture_step;
use crate::position::lemma_position_ext;
use crate::position::picture;
use crate::position::symbol;
use crate::position::Position;
use crate::position::HEIGHT;
use crate::position::WIDTH;

verus! {

#[derive(Copy, Clone, PartialEq, Eq, Debug, Structural)]
enum Slot {
    Empty,
    P1,
    P2,
}

/// A board represented by a two-dimensional array of slots.
///
/// Moves that the rules do not allow are not played: a stone in a full
/// column, and a stone that would win the game.
#[derive(Copy, Clone, Debug)]
pub struct ArrayBoard {
    slots: [[Slot; WIDTH]; HEIGHT],
    height: [usize; WIDTH],  // Number of stones in each column
    n_moves: u32,
}

impl Default for ArrayBoard {
    fn default() -> (board: Self)
        ensures
            board.wf(),
            board@ == Position::empty(),
    {
        ArrayBoard::new()
    }
}

impl ArrayBoard {
    /// The player to move.
    closed spec fn player(&self) -> Slot {
        if self.n_moves % 2 == 0 {
            Slot::P1
        } else {
            Slot::P2
        }
    }

    /// The position that the board shows.
    pub closed spec fn view(&self) -> Position {
        Position {
            stacks: Seq::new(
                7,
                |c: int|
                    Seq::new(
                        self.height[c] as nat,
                        |r: int| self.slots[r][c] == self.player(),
                    ),
            ),
        }
    }

    /// The heights are those of the stones in the grid, and the number of
    /// moves is the number of stones.
    pub closed spec fn wf(&self) -> bool {
        &&& forall|c: int| 0 <= c < 7 ==> #[trigger] self.height[c] <= 6
        &&& forall|r: int, c: int|
            0 <= r < 6 && 0 <= c < 7 ==> (#[trigger] self.slots[r][c] != Slot::Empty) == (r
                < self.height[c])
        &&& self.n_moves == self.height[0] + self.height[1] + self.height[2] + self.height[3]
            + self.height[4] + self.height[5] + self.height[6]
    }

    /// A well-formed board shows a well-formed position; its stones are
    /// those of the grid.
    proof fn lemma_view(&self)
        requires
            self.wf(),
        ensures
            self@.wf(),
            self@.moves() == self.n_moves,
            forall|c: int| 0 <= c < 7 ==> #[trigger] self@.height(c) == self.height[c],
            forall|c: int, r: int|
                0 <= c < 7 && 0 <= r < 6 ==> #[trigger] self@.stone(true, c, r) == (
                self.slots[r][c] == self.player()),
            forall|c: int, r: int| !(0 <= c < 7 && 0 <= r < 6) ==> !#[trigger] self@.stone(true, c, r),
    {
        assert(self.height[0] <= 6 && self.height[1] <= 6 && self.height[2] <= 6 && self.height[3]
            <= 6 && self.height[4] <= 6 && self.height[5] <= 6 && self.height[6] <= 6);
        assert forall|c: int, r: int| 0 <= c < 7 && 0 <= r < 6 implies #[trigger] self@.stone(
            true,
            c,
            r,
        ) == (self.slots[r][c] == self.player()) by {
            assert((self.slots[r][c] != Slot::Empty) == (r < self.height[c]));
        }
    }

    /// Creates a new, empty board
    pub fn new() -> (board: ArrayBoard)
        ensures
            board.wf(),
            board@ == Position::empty(),
    {
        let board = ArrayBoard { slots: [[Slot::Empty;WIDTH];HEIGHT], height: [0;WIDTH], n_moves: 0 };
        proof {
            assert forall|c: int| 0 <= c < 7 implies #[trigger] board@.stacks[c]
                =~= Position::empty().stacks[c] by {}
            lemma_position_ext(board@, Position::empty());
        }
        board
    }

    /// Creates a board from a sequence of played columns. A stone that
    /// the rules do not allow is left out.
    pub fn from_notation(notation: &str) -> (board: ArrayBoard)
        requires
            forall|i: int| 0 <= i < notation@.len() ==> Column::parse_spec(notation@[i]) is Some,
        ensures
            board.wf(),
            board@ == replay_guarded(notation@),
    {
        let mut board = ArrayBoard::new();
        let mut chars = notation.chars();
        let ghost mut done: int = 0;
        proof {
            assert(notation@.take(0) =~= Seq::<char>::empty());
        }
        loop
            invariant
                0 <= done <= notation@.len(),
                chars.remaining() == notation@.skip(done),
                board.wf(),
                board@ == replay_guarded(notation@.take(done)),
                forall|i: int|
                    0 <= i < notation@.len() ==> Column::parse_spec(notation@[i]) is Some,
            decreases notation@.len() - done,
        {
            let c = match chars.next() {
                Some(c) => c,
                None => {
                    proof {
                        assert(notation@.take(done) =~= notation@);
                    }
                    return board;
                },
            };
            proof {
                assert(c == notation@[done]);
                lemma_guarded_step(notation@, done);
            }
            board.play(Column::from(c));
            proof {
                done = done + 1;
            }
        }
    }

    #[inline]
    fn get_current_player(&self) -> (player: Slot)
        ensures
            player == self.player(),
            player != Slot::Empty,
    {
        let player = self.n_moves % 2;
        if player == 0 {
            Slot::P1
        } else {
            Slot::P2
        }
    }

    /// Number of stones of the player to move that follow cell
    /// `(column, row)` without a gap in the direction `(dx, dy)`, as far
    /// as it matters whether there are three.
    fn count_adjacent(&self, column: usize, row: usize, dx: i32, dy: i32) -> (n_adjacent: u32)
        requires
            self.wf(),
            column < 7,
            row < 6,
            dx == 1 || dx == -1,
            -1 <= dy <= 1,
        ensures
            n_adjacent <= 6,
            n_adjacent >= 1 <==> self@.stone(true, column + dx, row + dy),
            n_adjacent >= 2 <==> self@.stone(true, column + dx, row + dy) && self@.stone(
                true,
                column + 2 * dx,
                row + 2 * dy,
            ),
            n_adjacent >= 3 <==> self@.stone(true, column + dx, row + dy) && self@.stone(
                true,
                column + 2 * dx,
                row + 2 * dy,
            ) && self@.stone(true, column + 3 * dx, row + 3 * dy),
    {
        let player = self.get_current_player();
        let mut n_adjacent: u32 = 0;
        let mut x: i32 = column as i32 + dx;
        let mut y: i32 = row as i32 + dy;
        proof {
            self.lemma_view();
        }
        while x >= 0 && x < WIDTH as i32 && y >= 0 && y < HEIGHT as i32
            invariant
                self.wf(),
                player == self.player(),
                column < 7,
                row < 6,
                dx == 1 || dx == -1,
                -1 <= dy <= 1,
                n_adjacent <= 6,
                dx == 1 ==> x == column + n_adjacent + 1,
                dx == -1 ==> x == column - n_adjacent - 1,
                dy == 1 ==> y == row + n_adjacent + 1,
                dy == 0 ==> y == row,
                dy == -1 ==> y == row - n_adjacent - 1,
                n_adjacent >= 1 ==> self@.stone(true, column + dx, row + dy),
                n_adjacent >= 2 ==> self@.stone(true, column + 2 * dx, row + 2 * dy),
                n_adjacent >= 3 ==> self@.stone(true, column + 3 * dx, row + 3 * dy),
                forall|c: int, r: int|
                    0 <= c < 7 && 0 <= r < 6 ==> #[trigger] self@.stone(true, c, r) == (
                    self.slots[r][c] == self.player()),
                forall|c: int, r: int|
                    !(0 <= c < 7 && 0 <= r < 6) ==> !#[trigger] self@.stone(true, c, r),
            ensures
                n_adjacent <= 6,
                n_adjacent >= 1 ==> self@.stone(true, column + dx, row + dy),
                n_adjacent >= 2 ==> self@.stone(true, column + 2 * dx, row + 2 * dy),
                n_adjacent >= 3 ==> self@.stone(true, column + 3 * dx, row + 3 * dy),
                n_adjacent == 0 ==> !self@.stone(true, column + dx, row + dy),
                n_adjacent == 1 ==> !self@.stone(true, column + 2 * dx, row + 2 * dy),
                n_adjacent == 2 ==> !self@.stone(true, column + 3 * dx, row + 3 * dy),
            decreases 7 - n_adjacent,
        {
            if self.slots[y as usize][x as usize] == player {
                n_adjacent += 1;
            } else {
                break ;
            }
            x += dx;
            y += dy;
        }
        n_adjacent
    }

    /// Checks if there is still room in the column.
    #[inline]
    pub fn is_playable(&self, column: Column) -> (playable: bool)
        requires
            self.wf(),
        ensures
            playable == self@.playable(column@),
    {
        proof {
            self.lemma_view();
        }
        self.height[column.index()] < HEIGHT
    }

    /// Checks if a stone in the given column would win the game for the
    /// player to move, by looking along the lines through the cell on
    /// which it would land.
    pub fn is_winning(&self, column: Column) -> (winning: bool)
        requires
            self.wf(),
        ensures
            winning == self@.wins(column@),
    {
        if !self.is_playable(column) {
            return false;
        }
        let ghost p = self@;
        let col = column.index();
        let row = self.height[col];
        let player = self.get_current_player();
        proof {
            self.lemma_view();
            reveal(Position::completes);
        }

        if row >= 3 {
            // Check vertical
            if self.slots[row - 1][col] == player && self.slots[row - 2][col] == player
                && self.slots[row - 3][col] == player {
                return true;
            }
        }
        assert(!p.line(true, col as int, row as int, 0, 1));

        // Check horizontal and diagonals for number of adjacent pieces
        let mut dy: i32 = -1;
        while dy <= 1
            invariant
                self.wf(),
                p == self@,
                col == column@,
                row < 6,
                row == p.height(col as int),
                -1 <= dy <= 2,
                !p.line(true, col as int, row as int, 0, 1),
                dy > -1 ==> !p.line(true, col as int, row as int, 1, -1),
                dy > 0 ==> !p.line(true, col as int, row as int, 1, 0),
                dy > 1 ==> !p.line(true, col as int, row as int, 1, 1),
            decreases 2 - dy,
        {
            proof {
                reveal(Position::completes);
            }
            // dy = -1 is \, dy = 0 is -, dy = 1 is /
            let left = self.count_adjacent(col, row, -1, -dy);
            if left >= 3 {
                return true;
            }
            let right = self.count_adjacent(col, row, 1, dy);
            if left + right >= 3 {
                return true;
            }
            dy += 1;
        }
        proof {
            reveal(Position::completes);
        }

        false
    }

    /// Plays a piece in the given column and returns the number of played
    /// moves. Nothing is played where the column is full or the stone
    /// would win the game.
    pub fn play(&mut self, column: Column) -> (moves: u32)
        requires
            old(self).wf(),
        ensures
            final(self).wf(),
            moves == final(self)@.moves(),
            old(self)@.playable(column@) && !old(self)@.wins(column@) ==> final(self)@ == old(
                self,
            )@.play(column@),
            !(old(self)@.playable(column@) && !old(self)@.wins(column@)) ==> *final(self) == *old(
                self,
            ),
    {
        proof {
            self.lemma_view();
        }
        if !self.is_playable(column) || self.is_winning(column) {
            return self.n_moves;
        }
        let ghost p = self@;
        let ghost c = column@;
        let column = column.index();
        let row = self.height[column];
        let player = self.get_current_player();

        self.slots[row][column] = player;
        self.height[column] += 1;
        self.n_moves += 1;

        proof {
            reveal(Position::play);
            lemma_play(p, c);
            assert forall|r: int, x: int| 0 <= r < 6 && 0 <= x < 7 implies (
            #[trigger] self.slots[r][x] != Slot::Empty) == (r < self.height[x]) by {
                assert((old(self).slots[r][x] != Slot::Empty) == (r < old(self).height[x]));
            }
            assert forall|x: int| 0 <= x < 7 implies #[trigger] self@.stacks[x] =~= p.play(
                c,
            ).stacks[x] by {
                assert forall|r: int| 0 <= r < self.height[x] implies self@.stacks[x][r] == p.play(
                    c,
                ).stacks[x][r] by {
                    assert((old(self).slots[r][x] != Slot::Empty) == (r < old(self).height[x]));
                }
            }
            lemma_position_ext(self@, p.play(c));
        }
        self.n_moves
    }

    /// The character that shows a cell.
    fn cell_text(&self, column: usize, row: usize) -> (text: &'static str)
        requires
            self.wf(),
            column < 7,
            row < 6,
        ensures
            text@ == seq![symbol(self@, column as int, row as int)],
    {
        proof {
            self.lemma_view();
            assert((self.slots[row as int][column as int] != Slot::Empty) == (row
                < self.height[column as int]));
            reveal_strlit("X");
            reveal_strlit("O");
            reveal_strlit("-");
        }
        match self.slots[row][column] {
            Slot::Empty => "-",
            Slot::P1 => "X",
            Slot::P2 => "O",
        }
    }

    /// The picture of the board, and below it the player to move: `X`
    /// for the player who moved first, `O` for the other player.
    pub fn render(&self) -> (text: String)
        requires
            self.wf(),
        ensures
            text@ == picture(self@) + caption(self@),
    {
        let ghost p = self@;
        let mut s = String::new();
        let mut row: usize = HEIGHT;
        proof {
            lemma_picture_step(p, 0, 0);
            reveal_strlit("\n");
        }
        while row > 0
            invariant
                self.wf(),
                p == self@,
                row <= 6,
                s@ == picture(p).take(8 * (6 - row)),
                "\n"@ == seq!['\n'],
            decreases row,
        {
            row -= 1;
            let mut column: usize = 0;
            while column < WIDTH
                invariant
                    self.wf(),
                    p == self@,
                    row < 6,
                    column <= 7,
                    s@ == picture(p).take(8 * (5 - row) + column),
                decreases 7 - column,
            {
                proof {
                    lemma_picture_step(p, row as int, column as int);
                }
                s.append(self.cell_text(column, row));
                column += 1;
            }
            proof {
                lemma_picture_step(p, row as int, 7);
            }
            s.append("\n");
        }
        let next_player = self.get_current_player();
        s.append("Next player: ");
        if next_player == Slot::P1 {
            s.append("X");
        } else {
            s.append("O");
        }
        s.append("\n");
        proof {
            self.lemma_view();
            reveal_strlit("X");
            reveal_strlit("O");
            reveal_strlit("\n");
            assert(s@ =~= picture(p) + caption(p));
        }
        s
    }

    /// Returns the number of moves made so far
    #[inline]
    pub fn number_of_moves(&self) -> (moves: u32)
        requires
            self.wf(),
        ensures
            moves == self@.moves(),
    {
        proof {
            self.lemma_view();
        }
        self.n_moves
    }
}

} // verus!
