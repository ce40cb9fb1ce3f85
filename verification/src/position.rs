//! The mathematical model of a position: seven stacks of stones.
//!
//! Every board representation of this crate is described by a [`Position`].
//! Stones are recorded relative to the player to move: `true` is a stone of
//! the player to move, `false` a stone of the opponent.
use vstd::prelude::*;

verus! {

/// Number of columns of the board.
pub const WIDTH: usize = 7;

/// Number of rows of the board.
pub const HEIGHT: usize = 6;

/// 1 if the condition holds, else 0.
pub open spec fn one_if(condition: bool) -> nat {
    if condition {
        1
    } else {
        0
    }
}

/// A position, as seven stacks of stones listed from the bottom up.
pub struct Position {
    pub stacks: Seq<Seq<bool>>,
}

impl Position {
    /// There are seven stacks and none is higher than the board.
    pub open spec fn wf(self) -> bool {
        &&& self.stacks.len() == 7
        &&& self.stacks[0].len() <= 6
        &&& self.stacks[1].len() <= 6
        &&& self.stacks[2].len() <= 6
        &&& self.stacks[3].len() <= 6
        &&& self.stacks[4].len() <= 6
        &&& self.stacks[5].len() <= 6
        &&& self.stacks[6].len() <= 6
    }

    /// The position before any move.
    pub open spec fn empty() -> Position {
        Position { stacks: Seq::new(7, |c: int| Seq::<bool>::empty()) }
    }

    /// Number of stones in column `c`.
    pub open spec fn height(self, c: int) -> int {
        if 0 <= c < 7 {
            self.stacks[c].len() as int
        } else {
            0
        }
    }

    /// Number of stones on the board.
    pub open spec fn moves(self) -> int {
        self.height(0) + self.height(1) + self.height(2) + self.height(3) + self.height(4)
            + self.height(5) + self.height(6)
    }

    /// Cell `(c, r)` holds a stone, and it belongs to the player to move
    /// exactly if `own` is true.
    pub open spec fn stone(self, own: bool, c: int, r: int) -> bool {
        0 <= c < 7 && 0 <= r < self.height(c) && self.stacks[c][r] == own
    }

    /// Cell `(c, r)` is on the board and holds no stone.
    pub open spec fn vacant(self, c: int, r: int) -> bool {
        0 <= c < 7 && self.height(c) <= r < 6
    }

    /// Column `c` has room for another stone.
    pub open spec fn playable(self, c: int) -> bool {
        0 <= c < 7 && self.height(c) < 6
    }

    /// Three stones of one player lie on the line through `(c, r)` with
    /// direction `(dc, dr)` so that a fourth one on `(c, r)` makes four
    /// adjacent cells of that player.
    pub open spec fn line(self, own: bool, c: int, r: int, dc: int, dr: int) -> bool {
        ||| self.stone(own, c - 3 * dc, r - 3 * dr) && self.stone(own, c - 2 * dc, r - 2 * dr)
            && self.stone(own, c - dc, r - dr)
        ||| self.stone(own, c - 2 * dc, r - 2 * dr) && self.stone(own, c - dc, r - dr)
            && self.stone(own, c + dc, r + dr)
        ||| self.stone(own, c - dc, r - dr) && self.stone(own, c + dc, r + dr) && self.stone(
            own,
            c + 2 * dc,
            r + 2 * dr,
        )
        ||| self.stone(own, c + dc, r + dr) && self.stone(own, c + 2 * dc, r + 2 * dr)
            && self.stone(own, c + 3 * dc, r + 3 * dr)
    }

    /// A stone of the given player on `(c, r)` would complete four in a
    /// line: vertically, horizontally or along one of the two diagonals.
    #[verifier::opaque]
    pub open spec fn completes(self, own: bool, c: int, r: int) -> bool {
        ||| self.line(own, c, r, 0, 1)
        ||| self.line(own, c, r, 1, 0)
        ||| self.line(own, c, r, 1, 1)
        ||| self.line(own, c, r, 1, -1)
    }

    /// The player to move wins by playing column `c`.
    pub open spec fn wins(self, c: int) -> bool {
        self.playable(c) && self.completes(true, c, self.height(c))
    }

    /// The player to move has a winning move.
    pub open spec fn can_win(self) -> bool {
        self.wins(0) || self.wins(1) || self.wins(2) || self.wins(3) || self.wins(4) || self.wins(
            5,
        ) || self.wins(6)
    }

    /// The position after the player to move has played column `c`. The
    /// new stone goes on top of the column, and every stone changes sides,
    /// because the other player is then to move.
    #[verifier::opaque]
    pub open spec fn play(self, c: int) -> Position {
        Position {
            stacks: Seq::new(
                7,
                |x: int|
                    Seq::new(
                        (if x == c {
                            self.height(x) + 1
                        } else {
                            self.height(x)
                        }) as nat,
                        |r: int|
                            if x == c && r == self.height(x) {
                                false
                            } else {
                                !self.stacks[x][r]
                            },
                    ),
            ),
        }
    }

    /// Column `c` can be played and the opponent has no winning answer.
    pub open spec fn nonlosing(self, c: int) -> bool {
        self.playable(c) && !self.play(c).can_win()
    }

    /// Some move leaves the opponent without a winning answer.
    pub open spec fn has_nonlosing(self) -> bool {
        self.nonlosing(0) || self.nonlosing(1) || self.nonlosing(2) || self.nonlosing(3)
            || self.nonlosing(4) || self.nonlosing(5) || self.nonlosing(6)
    }

    /// The opponent threatens the cell on which a stone in column `x`
    /// would land.
    pub open spec fn danger(self, x: int) -> bool {
        self.playable(x) && self.completes(false, x, self.height(x))
    }

    /// A stone in column `c` gives the opponent a cell to win on: the
    /// cell above the stone.
    pub open spec fn opens(self, c: int) -> bool {
        self.height(c) + 1 < 6 && self.completes(false, c, self.height(c) + 1)
    }

    /// The opponent threatens the landing cell of a column other than
    /// `c`.
    pub open spec fn danger_beside(self, c: int) -> bool {
        ||| c != 0 && self.danger(0)
        ||| c != 1 && self.danger(1)
        ||| c != 2 && self.danger(2)
        ||| c != 3 && self.danger(3)
        ||| c != 4 && self.danger(4)
        ||| c != 5 && self.danger(5)
        ||| c != 6 && self.danger(6)
    }

    /// The position with a stone of the player to move added to column
    /// `c`, if the column has room, and the same player still to move.
    pub open spec fn with_move(self, c: int) -> Position {
        Position {
            stacks: Seq::new(
                7,
                |x: int|
                    if x == c && self.playable(c) {
                        self.stacks[x].push(true)
                    } else {
                        self.stacks[x]
                    },
            ),
        }
    }

    /// Four stones of one player lie in a line that starts at `(c, r)`
    /// and runs in the direction `(dc, dr)`.
    pub open spec fn four_from(self, own: bool, c: int, r: int, dc: int, dr: int) -> bool {
        self.stone(own, c, r) && self.stone(own, c + dc, r + dr) && self.stone(
            own,
            c + 2 * dc,
            r + 2 * dr,
        ) && self.stone(own, c + 3 * dc, r + 3 * dr)
    }

    /// Four stones of one player lie in a line that starts at `(c, r)`.
    pub open spec fn four_at(self, own: bool, c: int, r: int) -> bool {
        ||| self.four_from(own, c, r, 0, 1)
        ||| self.four_from(own, c, r, 1, 0)
        ||| self.four_from(own, c, r, 1, 1)
        ||| self.four_from(own, c, r, 1, -1)
    }

    /// One player has four stones in a line: the game is over.
    pub open spec fn has_four(self, own: bool) -> bool {
        exists|c: int, r: int| #[trigger] self.four_at(own, c, r)
    }

    /// After a stone in column `c`, another stone of the same player on
    /// `(x, y)` would complete four in a line, and `(x, y)` is vacant
    /// before the move.
    pub open spec fn opening(self, c: int, x: int, y: int) -> bool {
        self.vacant(x, y) && self.with_move(c).completes(true, x, y)
    }

    /// Number of openings in column `x` after a stone in column `c`.
    pub open spec fn openings_in(self, c: int, x: int) -> nat {
        one_if(self.opening(c, x, 0)) + one_if(self.opening(c, x, 1)) + one_if(
            self.opening(c, x, 2),
        ) + one_if(self.opening(c, x, 3)) + one_if(self.opening(c, x, 4)) + one_if(
            self.opening(c, x, 5),
        )
    }

    /// Number of openings on the board after a stone in column `c`: the
    /// score by which the moves are ordered.
    pub open spec fn threats_after(self, c: int) -> nat {
        self.openings_in(c, 0) + self.openings_in(c, 1) + self.openings_in(c, 2)
            + self.openings_in(c, 3) + self.openings_in(c, 4) + self.openings_in(c, 5)
            + self.openings_in(c, 6)
    }
}

/// Two positions with the same stacks are the same position.
pub proof fn lemma_position_ext(p: Position, q: Position)
    requires
        p.stacks.len() == q.stacks.len(),
        forall|c: int| 0 <= c < p.stacks.len() ==> #[trigger] p.stacks[c] =~= q.stacks[c],
    ensures
        p == q,
{
    assert(p.stacks =~= q.stacks);
}

/// A legal move keeps the position well formed and adds one stone.
pub proof fn lemma_play(p: Position, c: int)
    requires
        p.wf(),
        p.playable(c),
    ensures
        p.play(c).wf(),
        p.play(c).moves() == p.moves() + 1,
        forall|x: int| 0 <= x < 7 ==> #[trigger] p.play(c).height(x) == p.height(x) + if x == c {
            1int
        } else {
            0int
        },
{
    reveal(Position::play);
}

/// After a move, the player to move has the stones that the opponent
/// had before it, and completes four where the opponent did.
pub proof fn lemma_play_stones(p: Position, c: int)
    requires
        p.wf(),
        p.playable(c),
    ensures
        forall|x: int, y: int| #[trigger] p.play(c).stone(true, x, y) == p.stone(false, x, y),
        forall|x: int, y: int| #[trigger]
            p.play(c).completes(true, x, y) == p.completes(false, x, y),
{
    reveal(Position::play);
    assert forall|x: int, y: int| #[trigger] p.play(c).stone(true, x, y) == p.stone(
        false,
        x,
        y,
    ) by {}
    reveal(Position::completes);
}

/// A move keeps the opponent from winning at once exactly if the
/// opponent threatens neither the landing cell of another column nor the
/// cell above the new stone.
pub proof fn lemma_nonlosing(p: Position, c: int)
    requires
        p.wf(),
        0 <= c < 7,
    ensures
        p.nonlosing(c) == (p.playable(c) && !p.opens(c) && !p.danger_beside(c)),
{
    if p.playable(c) {
        lemma_play(p, c);
        lemma_play_stones(p, c);
        let q = p.play(c);
        assert forall|x: int| 0 <= x < 7 implies #[trigger] q.wins(x) == (if x == c {
            p.opens(c)
        } else {
            p.danger(x)
        }) by {
            assert(q.height(x) == p.height(x) + if x == c {
                1int
            } else {
                0int
            });
        }
    }
}

/// Where the player to move has no four in a line, a stone makes one
/// exactly if it is a winning move.
pub proof fn lemma_four_after_move(p: Position, c: int)
    requires
        p.wf(),
        0 <= c < 7,
        !p.has_four(true),
    ensures
        p.with_move(c).has_four(true) == p.wins(c),
{
    reveal(Position::completes);
    let q = p.with_move(c);
    let h = p.height(c);
    assert forall|x: int, y: int| #[trigger] q.stone(true, x, y) == (p.stone(true, x, y) || (x == c
        && y == h && p.playable(c))) by {}
    if q.has_four(true) {
        let (x, y) = choose|x: int, y: int| #[trigger] q.four_at(true, x, y);
        assert(!p.four_at(true, x, y));
        assert(p.wins(c));
    }
    if p.wins(c) {
        if p.line(true, c, h, 0, 1) {
            lemma_line_makes_four(p, c, 0, 1);
        } else if p.line(true, c, h, 1, 0) {
            lemma_line_makes_four(p, c, 1, 0);
        } else if p.line(true, c, h, 1, 1) {
            lemma_line_makes_four(p, c, 1, 1);
        } else {
            lemma_line_makes_four(p, c, 1, -1);
        }
    }
}

/// A winning stone is one of four in a line.
proof fn lemma_line_makes_four(p: Position, c: int, dc: int, dr: int)
    requires
        p.wf(),
        p.playable(c),
        p.line(true, c, p.height(c), dc, dr),
        (dc == 0 && dr == 1) || (dc == 1 && -1 <= dr <= 1),
    ensures
        p.with_move(c).has_four(true),
{
    let q = p.with_move(c);
    let h = p.height(c);
    assert forall|x: int, y: int| #[trigger] q.stone(true, x, y) == (p.stone(true, x, y) || (x == c
        && y == h)) by {}
    if p.stone(true, c - 3 * dc, h - 3 * dr) && p.stone(true, c - 2 * dc, h - 2 * dr) && p.stone(
        true,
        c - dc,
        h - dr,
    ) {
        assert(q.four_from(true, c - 3 * dc, h - 3 * dr, dc, dr));
        assert(q.four_at(true, c - 3 * dc, h - 3 * dr));
    } else if p.stone(true, c - 2 * dc, h - 2 * dr) && p.stone(true, c - dc, h - dr) && p.stone(
        true,
        c + dc,
        h + dr,
    ) {
        assert(q.four_from(true, c - 2 * dc, h - 2 * dr, dc, dr));
        assert(q.four_at(true, c - 2 * dc, h - 2 * dr));
    } else if p.stone(true, c - dc, h - dr) && p.stone(true, c + dc, h + dr) && p.stone(
        true,
        c + 2 * dc,
        h + 2 * dr,
    ) {
        assert(q.four_from(true, c - dc, h - dr, dc, dr));
        assert(q.four_at(true, c - dc, h - dr));
    } else {
        assert(q.four_from(true, c, h, dc, dr));
        assert(q.four_at(true, c, h));
    }
}

/// After a move that does not win, in a position without four in a
/// line, there is still no four in a line.
pub proof fn lemma_no_four_after_play(p: Position, c: int)
    requires
        p.wf(),
        p.playable(c),
        !p.wins(c),
        !p.has_four(true),
        !p.has_four(false),
    ensures
        !p.play(c).has_four(true),
        !p.play(c).has_four(false),
{
    let q = p.play(c);
    let w = p.with_move(c);
    lemma_play(p, c);
    lemma_play_stones(p, c);
    lemma_four_after_move(p, c);
    if q.has_four(true) {
        let (x, y) = choose|x: int, y: int| #[trigger] q.four_at(true, x, y);
        assert(p.four_at(false, x, y));
    }
    if q.has_four(false) {
        let (x, y) = choose|x: int, y: int| #[trigger] q.four_at(false, x, y);
        reveal(Position::play);
        assert forall|a: int, b: int| #[trigger] q.stone(false, a, b) == w.stone(true, a, b) by {}
        assert(w.four_at(true, x, y));
    }
}

/// A well-formed position that is not full has a playable column.
pub proof fn lemma_room(p: Position)
    requires
        p.wf(),
        p.moves() < 42,
    ensures
        p.playable(0) || p.playable(1) || p.playable(2) || p.playable(3) || p.playable(4)
            || p.playable(5) || p.playable(6),
{
}

/// The character that shows cell `(c, r)`: `-` for a vacant cell, `X`
/// for a stone of the player who moved first and `O` for a stone of the
/// other player.
pub open spec fn symbol(p: Position, c: int, r: int) -> char {
    if !(0 <= c < 7 && 0 <= r < p.height(c)) {
        '-'
    } else if p.stacks[c][r] == (p.moves() % 2 == 0) {
        'X'
    } else {
        'O'
    }
}

/// The picture of a position: six lines of seven characters, the top row
/// first, each line closed by a line feed.
pub open spec fn picture(p: Position) -> Seq<char> {
    Seq::new(
        48,
        |k: int|
            if k % 8 == 7 {
                '\n'
            } else {
                symbol(p, k % 8, 5 - k / 8)
            },
    )
}

/// The picture grows character by character.
pub proof fn lemma_picture_step(p: Position, row: int, column: int)
    requires
        0 <= row < 6,
        0 <= column <= 7,
    ensures
        picture(p).take(8 * (5 - row) + column + 1) == picture(p).take(
            8 * (5 - row) + column,
        ).push(
            if column == 7 {
                '\n'
            } else {
                symbol(p, column, row)
            },
        ),
        picture(p).take(0) == Seq::<char>::empty(),
        picture(p).take(48) == picture(p),
{
    let k = 8 * (5 - row) + column;
    assert(picture(p).take(k + 1) =~= picture(p).take(k).push(picture(p)[k]));
    assert(picture(p).take(0) =~= Seq::<char>::empty());
    assert(picture(p).take(48) =~= picture(p));
}

/// The line that names the player to move: `X` for the player who moved
/// first, `O` for the other player.
pub open spec fn caption(p: Position) -> Seq<char> {
    "Next player: "@ + seq![
        if p.moves() % 2 == 0 {
            'X'
        } else {
            'O'
        },
        '\n',
    ]
}

} // verus!
