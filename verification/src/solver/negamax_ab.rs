//! Negamax search with alpha-beta pruning, with or without a table.
use vstd::prelude::*;
use crate::board::Board;
use crate::board::Column;
use crate::game::lemma_value_bounds;
use crate::game::lemma_value_is_best_reply;
use crate::game::lemma_value_unfold;
use crate::game::within_window;
use crate::position::lemma_play;
use crate::position::WIDTH;
use crate::solver::column_order;
use crate::solver::generate_move_order;
use crate::solver::lemma_sound_after_store;
use crate::solver::score;
use crate::solver::sound_for;
use crate::solver::stored_byte;
use crate::solver::SolveResult;
use crate::solver::MIN_SCORE;
use crate::transposition_table::default_slots;
use crate::transposition_table::unused;
use crate::transposition_table::Entry;
use crate::transposition_table::TranspositionTable;

verus! {

/// A solver that searches every move, pruned by the window alone.
pub struct NegamaxSolver {
    table: Option<TranspositionTable>,
}

impl Default for NegamaxSolver {
    /// A solver without a table.
    fn default() -> (solver: Self)
        ensures
            solver.slots() is None,
    {
        Self { table: None }
    }
}

impl NegamaxSolver {
    /// The slots of the solver's table, if it has one.
    pub closed spec fn slots(&self) -> Option<Seq<Entry>> {
        match self.table {
            Some(table) => Some(table@),
            None => None,
        }
    }

    /// Whatever the solver's table holds for a board of type `B` is an
    /// upper bound on the score of its position.
    pub open spec fn sound<B: Board>(&self) -> bool {
        match self.slots() {
            Some(slots) => sound_for::<B>(slots),
            None => true,
        }
    }

    /// A solver without a table.
    pub fn new() -> (solver: Self)
        ensures
            solver.slots() is None,
    {
        Self { table: None }
    }

    /// A solver with an unused table of the default size.
    pub fn new_with_table() -> (solver: Self)
        ensures
            solver.slots() matches Some(slots) && default_slots(slots),
    {
        Self { table: Some(TranspositionTable::default()) }
    }

    /// A solver with the given table.
    pub fn new_with_custom_table(table: TranspositionTable) -> (solver: Self)
        ensures
            solver.slots() == Some(table@),
    {
        Self { table: Some(table) }
    }

    /// What `solve` promises of its result and of the solver after it.
    ///
    /// The score is the score of the position if the solver has no
    /// table, or if its table was sound for the type of the board. A win
    /// at once and a full board take one node and are right whatever the
    /// table holds. A table stays sound if it was.
    pub open spec fn solved<B: Board>(
        before: Self,
        position: &B,
        result: SolveResult,
        after: Self,
    ) -> bool {
        &&& result.nodes_searched >= 1
        &&& -21 <= result.score <= 21
        &&& before.slots() is Some == after.slots() is Some
        &&& before.slots() matches Some(slots) ==> after.slots()->0.len() == slots.len()
        &&& before.sound::<B>() ==> after.sound::<B>()
        &&& before.sound::<B>() ==> result.score == position@.value()
        &&& position@.can_win() || position@.moves() >= 42 ==> result.score == position@.value()
            && result.nodes_searched == 1 && after.slots() == before.slots()
    }

    /// Computes the score of the position for the player to move.
    pub fn solve<B: Board>(&mut self, position: &B) -> (result: SolveResult)
        requires
            position.wf(),
        ensures
            Self::solved(*old(self), position, result, *final(self)),
    {
        let order = generate_move_order();
        let mut nodes_searched: usize = 0;
        let ab: i32 = 21;
        proof {
            position.lemma_wf();
            lemma_value_bounds(position@);
        }
        let score = self.solve_impl(position, &mut nodes_searched, -ab, ab, &order);
        SolveResult { score, nodes_searched }
    }

    /// Searches the position with the window `(alpha, beta)`: the result
    /// is the score where it lies inside the window, and else a bound on
    /// the side on which it lies.
    pub fn solve_ab<B: Board>(&mut self, position: &B, alpha: i32, beta: i32) -> (result:
        SolveResult)
        requires
            position.wf(),
            -21 <= alpha < beta <= 21,
        ensures
            result.nodes_searched >= 1,
            -21 <= result.score <= 21,
            old(self).slots() is Some == final(self).slots() is Some,
            old(self).slots() matches Some(slots) ==> final(self).slots()->0.len() == slots.len(),
            old(self).sound::<B>() ==> final(self).sound::<B>(),
            old(self).sound::<B>() ==> within_window(
                result.score as int,
                position@.value(),
                alpha as int,
                beta as int,
            ),
            position@.can_win() || position@.moves() >= 42 ==> result.score == position@.value()
                && result.nodes_searched == 1 && final(self).slots() == old(self).slots(),
    {
        let order = generate_move_order();
        let mut nodes_searched: usize = 0;
        let score = self.solve_impl(position, &mut nodes_searched, alpha, beta, &order);
        SolveResult { score, nodes_searched }
    }

    /// Marks every slot of the table unused, if there is a table.
    pub fn clear_table(&mut self)
        ensures
            match final(self).slots() {
                Some(slots) => old(self).slots() is Some && slots.len() == old(self).slots()->0.len()
                    && unused(slots),
                None => old(self).slots() is None,
            },
    {
        match &mut self.table {
            Some(table) => {
                table.clear();
            },
            None => {},
        }
    }

    fn solve_impl<B: Board>(
        &mut self,
        position: &B,
        nodes_searched: &mut usize,
        alpha: i32,
        beta: i32,
        order: &[Column; WIDTH],
    ) -> (v: i32)
        requires
            position.wf(),
            -21 <= alpha < beta <= 21,
            forall|i: int| 0 <= i < 7 ==> (#[trigger] order[i])@ == column_order(i),
        ensures
            -21 <= v <= 21,
            *final(nodes_searched) > *old(nodes_searched) || *final(nodes_searched) == usize::MAX,
            old(self).slots() is Some == final(self).slots() is Some,
            old(self).slots() matches Some(slots) ==> final(self).slots()->0.len() == slots.len(),
            old(self).sound::<B>() ==> final(self).sound::<B>(),
            old(self).sound::<B>() ==> within_window(
                v as int,
                position@.value(),
                alpha as int,
                beta as int,
            ),
            position@.can_win() || position@.moves() >= 42 ==> v == position@.value()
                && *final(nodes_searched) == old(nodes_searched).saturating_add(1)
                && final(self).slots() == old(self).slots(),
        decreases 42 - position@.moves(),
    {
        *nodes_searched = nodes_searched.saturating_add(1);
        let ghost p = position@;
        let ghost exact = old(self).sound::<B>();
        proof {
            position.lemma_wf();
            lemma_value_bounds(p);
            lemma_value_unfold(p);
        }
        let moves = position.number_of_moves();

        // A full board is a draw.
        if moves == 42 {
            return 0;
        }
        // A winning move ends the game.

        let columns = Column::all();
        let mut i: usize = 0;
        while i < 7
            invariant
                i <= 7,
                position.wf(),
                p == position@,
                moves == p.moves(),
                moves < 42,
                *nodes_searched > *old(nodes_searched) || *nodes_searched == usize::MAX,
                *nodes_searched == old(nodes_searched).saturating_add(1),
                self.slots() == old(self).slots(),
                forall|j: int| 0 <= j < 7 ==> (#[trigger] columns[j])@ == j,
                forall|c: int| 0 <= c < i ==> !p.wins(c),
            decreases 7 - i,
        {
            let column = columns[i];
            if position.is_playable(column) && position.is_winning(column) {
                assert(p.can_win());
                return score(moves);
            }
            i += 1;
        }
        assert(!p.can_win());

        // The best that is left is a win with the player's next stone.
        let mut max: i32 = (41 - moves as i32) / 2;
        let mut lower = alpha;
        let mut upper = beta;
        let key = position.key();
        match &self.table {
            Some(table) => {
                match table.get(key) {
                    Some(stored_score) => {
                        max = stored_score as i32 + MIN_SCORE - 1;
                    },
                    None => {},
                }
            },
            None => {},
        }
        assert(exact ==> p.value() <= max);
        if upper > max {
            upper = max;
            if lower >= upper {
                return lower;
            }
        }
        proof {
            lemma_value_is_best_reply(p);
        }

        let mut k: usize = 0;
        while k < 7
            invariant
                k <= 7,
                position.wf(),
                p == position@,
                p.wf(),
                p.moves() == moves,
                moves < 42,
                !p.can_win(),
                key == position.key_spec(),
                forall|i: int| 0 <= i < 7 ==> (#[trigger] order[i])@ == column_order(i),
                -21 <= alpha <= lower < upper <= beta <= 21,
                *nodes_searched > *old(nodes_searched) || *nodes_searched == usize::MAX,
                old(self).slots() is Some == self.slots() is Some,
                old(self).slots() matches Some(slots) ==> self.slots()->0.len() == slots.len(),
                old(self).sound::<B>() ==> self.sound::<B>(),
                exact == old(self).sound::<B>(),
                exact ==> forall|j: int| 0 <= j < k ==> #[trigger] p.reply(column_order(j)) <= lower,
                exact ==> lower == alpha || exists|c: int|
                    0 <= c < 7 && p.playable(c) && #[trigger] p.reply(c) == lower,
                exact ==> upper == beta || p.value() <= upper,
                forall|c: int| 0 <= c < 7 ==> #[trigger] p.reply(c) <= p.value(),
            decreases 7 - k,
        {
            let column = order[k];
            if position.is_playable(column) {
                let mut next_position = *position;
                next_position.play(column);
                proof {
                    lemma_play(p, column@);
                    next_position.lemma_wf();
                }
                let score = -self.solve_impl(&next_position, nodes_searched, -upper, -lower, order);
                if score >= upper {
                    // The opponent will not let the game come here.
                    assert(exact ==> within_window(
                        score as int,
                        p.value(),
                        alpha as int,
                        beta as int,
                    )) by {
                        assert(p.reply(column@) <= p.value());
                    }
                    return score;
                }
                if score > lower {
                    lower = score;
                    assert(exact ==> p.reply(column@) == lower);
                }
            }
            k += 1;
        }

        proof {
            assert(column_order(0) == 3 && column_order(1) == 4 && column_order(2) == 2
                && column_order(3) == 5 && column_order(4) == 1 && column_order(5) == 6
                && column_order(6) == 0);
            if exact {
                assert(p.reply(column_order(0)) <= lower);
                assert(p.reply(column_order(1)) <= lower);
                assert(p.reply(column_order(2)) <= lower);
                assert(p.reply(column_order(3)) <= lower);
                assert(p.reply(column_order(4)) <= lower);
                assert(p.reply(column_order(5)) <= lower);
                assert(p.reply(column_order(6)) <= lower);
                assert(p.value() <= lower);
            }
        }
        // What is stored is a bound that the byte can hold.
        let bound = if lower < MIN_SCORE {
            MIN_SCORE
        } else {
            lower
        };
        let byte = (bound - MIN_SCORE + 1) as u8;
        assert(byte == stored_byte(lower as int));
        let ghost before = self.slots();
        match &mut self.table {
            Some(table) => {
                table.set(key, byte);
            },
            None => {},
        }
        proof {
            if self.slots() is Some && old(self).sound::<B>() {
                lemma_sound_after_store::<B>(before->0, *position, byte);
            }
        }
        lower
    }
}

} // verus!
