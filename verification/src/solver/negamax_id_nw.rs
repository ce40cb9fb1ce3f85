//! Search by probes with an empty window, on top of the alpha-beta
//! search with a table.
use vstd::prelude::*;
use crate::board::Board;
use crate::game::lemma_value_bounds;
use crate::game::lemma_value_unfold;
use crate::solver::lemma_sound_when_clear;
use crate::solver::negamax_ab::NegamaxSolver;
use crate::solver::score;
use crate::solver::sound_for;
use crate::solver::SolveResult;
use crate::transposition_table::default_slots;
use crate::transposition_table::Entry;
use crate::transposition_table::TranspositionTable;

verus! {

/// A solver that closes in on the score by searches with an empty
/// window.
pub struct NegamaxID {
    solver: NegamaxSolver,
}

impl Default for NegamaxID {
    /// A solver without a table.
    fn default() -> (solver: Self)
        ensures
            solver.slots() is None,
    {
        Self { solver: NegamaxSolver::default() }
    }
}

impl NegamaxID {
    /// The slots of the solver's table, if it has one.
    pub closed spec fn slots(&self) -> Option<Seq<Entry>> {
        self.solver.slots()
    }

    /// A solver with an unused table of the default size.
    pub fn new() -> (solver: Self)
        ensures
            solver.slots() matches Some(slots) && default_slots(slots),
    {
        Self { solver: NegamaxSolver::new_with_table() }
    }

    /// A solver with the given table.
    pub fn new_with_custom_table(table: TranspositionTable) -> (solver: Self)
        ensures
            solver.slots() == Some(table@),
    {
        Self { solver: NegamaxSolver::new_with_custom_table(table) }
    }

    /// What `solve` promises of its result and of the solver after it.
    ///
    /// The score is the score of the position, whatever the table held:
    /// the table is cleared first, and what the search leaves in it is
    /// sound for the type of the board. A win at once and a full board
    /// are found without a search.
    pub open spec fn solved<B: Board>(
        before: Self,
        position: &B,
        result: SolveResult,
        after: Self,
    ) -> bool {
        &&& position@.moves() < 42 ==> result.nodes_searched >= 1
        &&& -21 <= result.score <= 21
        &&& before.slots() is Some == after.slots() is Some
        &&& before.slots() matches Some(slots) ==> after.slots()->0.len() == slots.len()
        &&& position@.can_win() ==> result.nodes_searched == 1
        &&& !position@.can_win() && position@.moves() >= 42 ==> result.nodes_searched == 0
        &&& result.score == position@.value()
        &&& after.slots() matches Some(slots) ==> sound_for::<B>(slots)
    }

    /// Computes the score of the position for the player to move. The
    /// table is cleared first.
    pub fn solve<B: Board>(&mut self, position: &B) -> (result: SolveResult)
        requires
            position.wf(),
        ensures
            Self::solved(*old(self), position, result, *final(self)),
    {
        self.solver.clear_table();
        let ghost p = position@;
        proof {
            position.lemma_wf();
            lemma_value_bounds(p);
            lemma_value_unfold(p);
            if self.solver.slots() is Some {
                lemma_sound_when_clear::<B>(self.solver.slots()->0);
            }
        }
        let moves = position.number_of_moves();
        if position.can_win_in_one_move() {
            return SolveResult { score: score(moves), nodes_searched: 1 };
        }
        let mut min: i32 = -((42 - moves as i32) / 2);
        let mut max: i32 = (43 - moves as i32) / 2;
        let mut nodes: usize = 0;
        let ghost span = max - min;

        while min < max
            invariant
                position.wf(),
                p == position@,
                -21 <= min <= 21,
                -21 <= max <= 21,
                self.solver.sound::<B>(),
                old(self).slots() is Some == self.solver.slots() is Some,
                old(self).slots() matches Some(slots) ==> self.solver.slots()->0.len()
                    == slots.len(),
                min <= p.value() <= max,
                nodes >= 1 || (max - min == span && nodes == 0),
                p.moves() >= 42 ==> min == 0 && max == 0 && nodes == 0,
            decreases
                    (if max > min {
                        max - min
                    } else {
                        0
                    }),
        {
            let mut mid = min + (max - min) / 2;
            if mid <= 0 && min / 2 < mid {
                mid = min / 2;
            } else if mid >= 0 && max / 2 > mid {
                mid = max / 2;
            }
            assert(min <= mid < max);
            let result = self.solver.solve_ab(position, mid, mid + 1);
            if result.score > mid {
                min = result.score;
            } else {
                max = result.score;
            }
            nodes = nodes.saturating_add(result.nodes_searched);
        }

        proof {
            position.lemma_wf();
            lemma_value_unfold(p);
        }
        SolveResult { score: min, nodes_searched: nodes }
    }
}

} // verus!
