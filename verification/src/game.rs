//! The game-theoretic score of a position, and the facts about it that
//! the searches rest on.
use vstd::prelude::*;
use crate::position::Position;

verus! {

/// Score of a position with `moves` stones in which the player to move
/// wins at once: the earlier the win, the higher the score.
pub open spec fn win_score(moves: int) -> int {
    (43 - moves) / 2
}

/// The larger of two scores.
pub open spec fn larger(a: int, b: int) -> int {
    if a >= b {
        a
    } else {
        b
    }
}

/// What a move is worth to the player who makes it, given what the
/// resulting position is worth to the opponent. A column that cannot be
/// played is worth less than any score.
pub open spec fn move_value(playable: bool, answer: int) -> int {
    if playable {
        -answer
    } else {
        -42
    }
}

/// What the search promises about its result `v` for a position of score
/// `value` searched with the window `(alpha, beta)`: the exact score
/// inside the window, and a bound on the side of the score outside it.
pub open spec fn within_window(v: int, value: int, alpha: int, beta: int) -> bool {
    &&& value <= alpha ==> value <= v <= alpha
    &&& value >= beta ==> beta <= v <= value
    &&& alpha < value < beta ==> v == value
}

impl Position {
    /// Score of the position for the player to move when at most `depth`
    /// more stones are played: a win at once scores `win_score`, a full
    /// board scores nothing, and otherwise the player takes the move that
    /// is worst for the opponent.
    pub open spec fn value_within(self, depth: nat) -> int
        decreases depth,
    {
        if depth == 0 {
            0
        } else if self.can_win() {
            win_score(self.moves())
        } else {
            let d = (depth - 1) as nat;
            larger(
                larger(
                    larger(
                        move_value(self.playable(0), self.play(0).value_within(d)),
                        move_value(self.playable(1), self.play(1).value_within(d)),
                    ),
                    larger(
                        move_value(self.playable(2), self.play(2).value_within(d)),
                        move_value(self.playable(3), self.play(3).value_within(d)),
                    ),
                ),
                larger(
                    larger(
                        move_value(self.playable(4), self.play(4).value_within(d)),
                        move_value(self.playable(5), self.play(5).value_within(d)),
                    ),
                    move_value(self.playable(6), self.play(6).value_within(d)),
                ),
            )
        }
    }

    /// The game-theoretic score of the position for the player to move,
    /// with play going on until the board is full.
    pub open spec fn value(self) -> int {
        self.value_within((42 - self.moves()) as nat)
    }

    /// What playing column `c` is worth to the player to move.
    pub open spec fn reply(self, c: int) -> int {
        move_value(self.playable(c), self.play(c).value())
    }
}

/// The score of a position in terms of the scores of its moves.
pub proof fn lemma_value_unfold(p: Position)
    requires
        p.wf(),
    ensures
        p.moves() >= 42 ==> p.value() == 0,
        p.moves() < 42 && p.can_win() ==> p.value() == win_score(p.moves()),
        p.moves() < 42 && !p.can_win() ==> p.value() == larger(
            larger(larger(p.reply(0), p.reply(1)), larger(p.reply(2), p.reply(3))),
            larger(larger(p.reply(4), p.reply(5)), p.reply(6)),
        ),
{
    if p.moves() < 42 && !p.can_win() {
        lemma_play_each(p);
    }
}

/// Every legal move adds exactly one stone.
pub proof fn lemma_play_each(p: Position)
    requires
        p.wf(),
    ensures
        forall|c: int| #[trigger]
            p.playable(c) ==> p.play(c).wf() && p.play(c).moves() == p.moves() + 1,
{
    assert forall|c: int| #[trigger] p.playable(c) implies p.play(c).wf() && p.play(c).moves()
        == p.moves() + 1 by {
        crate::position::lemma_play(p, c);
    }
}

/// No move is worth more than the position, and some move is worth as
/// much, unless the player to move wins at once or the board is full.
pub proof fn lemma_value_is_best_reply(p: Position)
    requires
        p.wf(),
        p.moves() < 42,
        !p.can_win(),
    ensures
        forall|c: int| 0 <= c < 7 ==> #[trigger] p.reply(c) <= p.value(),
        exists|c: int| 0 <= c < 7 && p.playable(c) && #[trigger] p.reply(c) == p.value(),
        p.value() > -42,
{
    lemma_value_unfold(p);
    crate::position::lemma_room(p);
    lemma_play_each(p);
    assert forall|c: int| 0 <= c < 7 && p.playable(c) implies #[trigger] p.reply(c) > -42 by {
        lemma_value_bounds(p.play(c));
    }
    let v = p.value();
    assert(p.reply(0) == v || p.reply(1) == v || p.reply(2) == v || p.reply(3) == v || p.reply(4)
        == v || p.reply(5) == v || p.reply(6) == v);
    let w = if p.reply(0) == v {
        0int
    } else if p.reply(1) == v {
        1int
    } else if p.reply(2) == v {
        2int
    } else if p.reply(3) == v {
        3int
    } else if p.reply(4) == v {
        4int
    } else if p.reply(5) == v {
        5int
    } else {
        6int
    };
    assert(p.reply(w) == v);
    assert(0 <= w < 7 && p.playable(w));
}

/// The score of a position with `m` stones lies between a loss on the
/// opponent's next move and a win at once.
pub proof fn lemma_value_bounds(p: Position)
    requires
        p.wf(),
    ensures
        -((42 - p.moves()) / 2) <= p.value() <= win_score(p.moves()),
        p.moves() < 42 && !p.can_win() ==> p.value() <= (41 - p.moves()) / 2,
    decreases 42 - p.moves(),
{
    lemma_value_unfold(p);
    if p.moves() < 42 && !p.can_win() {
        lemma_play_each(p);
        crate::position::lemma_room(p);
        assert forall|c: int| 0 <= c < 7 && p.playable(c) implies -((42 - p.moves()) / 2)
            <= #[trigger] p.reply(c) <= (41 - p.moves()) / 2 by {
            lemma_value_bounds(p.play(c));
        }
    }
}

/// A move that lets the opponent win at once is worth the lowest score
/// the position can have.
pub proof fn lemma_losing_move(p: Position, c: int)
    requires
        p.wf(),
        p.playable(c),
        p.play(c).can_win(),
    ensures
        p.reply(c) == -((42 - p.moves()) / 2),
{
    crate::position::lemma_play(p, c);
    lemma_value_unfold(p.play(c));
}

/// A move after which the opponent cannot win at once is worth at least
/// a loss on the opponent's move after next.
pub proof fn lemma_nonlosing_move(p: Position, c: int)
    requires
        p.wf(),
        p.moves() <= 40,
        p.nonlosing(c),
    ensures
        p.reply(c) >= -((40 - p.moves()) / 2),
{
    crate::position::lemma_play(p, c);
    lemma_value_bounds(p.play(c));
}

/// Without a winning move and without a move that keeps the opponent
/// from winning, the position is lost on the opponent's next move.
pub proof fn lemma_forced_loss(p: Position)
    requires
        p.wf(),
        !p.can_win(),
        !p.has_nonlosing(),
    ensures
        p.value() == -((42 - p.moves()) / 2),
{
    lemma_value_unfold(p);
    if p.moves() < 42 {
        crate::position::lemma_room(p);
        assert forall|c: int| 0 <= c < 7 && p.playable(c) implies #[trigger] p.reply(c) == -((42
            - p.moves()) / 2) by {
            lemma_losing_move(p, c);
        }
    }
}

/// With at most two cells left, no winning move and a move that keeps
/// the opponent from winning, the game is drawn.
pub proof fn lemma_late_draw(p: Position)
    requires
        p.wf(),
        p.moves() >= 40,
        !p.can_win(),
        p.has_nonlosing(),
    ensures
        p.value() == 0,
{
    lemma_play_each(p);
    lemma_value_is_best_reply(p);
    lemma_value_bounds(p);
    if p.moves() == 40 {
        let c = choose|c: int| 0 <= c < 7 && #[trigger] p.nonlosing(c);
        lemma_nonlosing_move(p, c);
    } else {
        let w = choose|c: int| 0 <= c < 7 && p.playable(c) && #[trigger] p.reply(c) == p.value();
        lemma_value_unfold(p.play(w));
    }
}

/// Only the moves that keep the opponent from winning at once matter:
/// if one exists, the score of the position is the best of their values.
pub proof fn lemma_value_over_nonlosing(p: Position, bound: int)
    requires
        p.wf(),
        p.moves() <= 40,
        !p.can_win(),
        p.has_nonlosing(),
        forall|c: int| 0 <= c < 7 && p.nonlosing(c) ==> #[trigger] p.reply(c) <= bound,
        bound >= -((40 - p.moves()) / 2),
    ensures
        p.value() <= bound,
{
    lemma_value_is_best_reply(p);
    let w = choose|c: int| 0 <= c < 7 && p.playable(c) && #[trigger] p.reply(c) == p.value();
    if !p.nonlosing(w) {
        lemma_losing_move(p, w);
    }
}

/// Half of `x`, rounded towards zero.
pub open spec fn half(x: int) -> int {
    if x >= 0 {
        x / 2
    } else {
        -((-x) / 2)
    }
}

/// The score of a position with `m` stones lies between `-(40 - m) / 2`
/// and `(42 - m) / 2`, the halves rounded towards zero, unless
///
/// - the board is full,
/// - the player to move wins at once with an even-numbered stone, or
/// - the player to move has no winning move and no move that keeps the
///   opponent from winning at once.
pub proof fn lemma_score_bounds(p: Position)
    requires
        p.wf(),
        p.moves() < 42,
        !(p.can_win() && p.moves() % 2 == 1),
        p.can_win() || p.has_nonlosing(),
    ensures
        -half(40 - p.moves()) <= p.value() <= half(42 - p.moves()),
{
    lemma_value_unfold(p);
    lemma_value_bounds(p);
    if !p.can_win() {
        if p.moves() >= 40 {
            lemma_late_draw(p);
        } else {
            lemma_value_is_best_reply(p);
            let c = choose|c: int| 0 <= c < 7 && #[trigger] p.nonlosing(c);
            lemma_nonlosing_move(p, c);
            assert(p.reply(c) <= p.value());
        }
    }
}

} // verus!
