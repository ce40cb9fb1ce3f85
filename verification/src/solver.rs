//! Solvers that compute the exact score of a position.
use vstd::prelude::*;
use crate::board::Board;
use crate::board::Column;
use crate::game::lemma_forced_loss;
use crate::game::lemma_late_draw;
use crate::game::lemma_nonlosing_move;
use crate::game::lemma_value_bounds;
use crate::game::lemma_value_is_best_reply;
use crate::game::lemma_value_over_nonlosing;
use crate::game::lemma_value_unfold;
use crate::game::win_score;
use crate::game::within_window;
use crate::move_queue::lemma_enter;
use crate::move_queue::lemma_leave;
use crate::move_queue::lemma_rank_in_range;
use crate::move_queue::queued;
use crate::move_queue::rank;
use crate::move_queue::MoveQueue;
use crate::position::lemma_play;
use crate::transposition_table::TranspositionTable;
use crate::position::WIDTH;
use crate::transposition_table::default_slots;
use crate::transposition_table::found;
use crate::transposition_table::unused;
use crate::transposition_table::slot_of;
use crate::transposition_table::stored;
use crate::transposition_table::Entry;

pub mod negamax_ab;
pub mod negamax_id_nw;

verus! {

/// The score that the table stores as 1: a stored byte `s` stands for
/// the bound `s + MIN_SCORE - 1`. No byte below 1 is stored.
pub const MIN_SCORE: i32 = -18;

/// The result of a solve operation: the score of the position for the
/// player to move and the number of positions that were searched.
pub struct SolveResult {
    pub score: i32,
    pub nodes_searched: usize,
}

/// The upper bound on a position's score that a stored byte stands for.
pub open spec fn stored_bound(score: u8) -> int {
    score as int + MIN_SCORE - 1
}

/// Whatever the slots hold for the key of a board of type `B` is a byte
/// of at least 1 that stands for an upper bound on the score of the
/// board's position.
pub open spec fn sound_for<B: Board>(slots: Seq<Entry>) -> bool {
    forall|b: B|
        #![trigger b.key_spec()]
        b.wf() ==> match found(slots, b.key_spec()) {
            Some(s) => s >= 1 && b@.value() <= stored_bound(s),
            None => true,
        }
}

/// The byte that is stored for the bound `bound`: the bound itself
/// where it is at least `MIN_SCORE`, else `MIN_SCORE`, counted from
/// `MIN_SCORE` as 1.
pub open spec fn stored_byte(bound: int) -> int {
    if bound < MIN_SCORE {
        1
    } else {
        bound - MIN_SCORE + 1
    }
}

/// Storing a byte of at least 1 for a board keeps the slots sound, if
/// the bound that the byte stands for holds for the board's position.
/// The byte is then found under the key of the board.
pub proof fn lemma_sound_after_store<B: Board>(slots: Seq<Entry>, board: B, score: u8)
    requires
        slots.len() > 0,
        sound_for::<B>(slots),
        board.wf(),
        score >= 1,
        board@.value() <= stored_bound(score),
    ensures
        sound_for::<B>(stored(slots, board.key_spec(), score)),
        found(stored(slots, board.key_spec(), score), board.key_spec()) == Some(score),
{
    let after = stored(slots, board.key_spec(), score);
    board.lemma_wf();
    assert forall|b: B| #![trigger b.key_spec()] b.wf() implies match found(
        after,
        b.key_spec(),
    ) {
        Some(s) => s >= 1 && b@.value() <= stored_bound(s),
        None => true,
    } by {
        b.lemma_wf();
        if found(after, b.key_spec()) is Some && slot_of(slots.len(), b.key_spec()) == slot_of(
            slots.len(),
            board.key_spec(),
        ) {
            assert(b.key_spec() == board.key_spec());
            b.lemma_key_injective(&board);
        }
    }
}

/// Slots that are all unused are sound for every type of board.
pub proof fn lemma_sound_when_clear<B: Board>(slots: Seq<Entry>)
    requires
        unused(slots),
    ensures
        sound_for::<B>(slots),
{
    assert forall|b: B| #![trigger b.key_spec()] b.wf() implies found(slots, b.key_spec())
        is None by {
        crate::transposition_table::lemma_found_in_unused(slots, b.key_spec());
    }
}

/// The column that is tried in place `i`: the centre column first, then
/// its neighbours in turn, right before left, moving outwards.
pub open spec fn column_order(i: int) -> int {
    if i % 2 == 0 {
        3 - (i + 1) / 2
    } else {
        3 + (i + 1) / 2
    }
}

/// The column inside a `Some`.
pub fn unwrap_col(c: Option<Column>) -> (column: Column)
    requires
        c is Some,
    ensures
        c == Some(column),
{
    match c {
        Some(c) => c,
        None => vstd::pervasive::unreached(),
    }
}

/// The order in which the searches try the columns.
pub fn generate_move_order() -> (order: [Column; WIDTH])
    ensures
        forall|i: int| 0 <= i < 7 ==> (#[trigger] order[i])@ == column_order(i),
        order@ == seq![
            Column::D,
            Column::E,
            Column::C,
            Column::F,
            Column::B,
            Column::G,
            Column::A,
        ],
{
    let mid: usize = Column::COUNT / 2;
    let mut order = [Column::A;WIDTH];
    let mut index: usize = 0;
    while index < WIDTH
        invariant
            mid == 3,
            index <= 7,
            forall|i: int| 0 <= i < index ==> (#[trigger] order[i])@ == column_order(i),
        decreases 7 - index,
    {
        let half = (index + 1) / 2;
        let column = if index % 2 == 0 {
            mid - half
        } else {
            mid + half
        };
        order[index] = unwrap_col(Column::from_repr(column));
        index += 1;
    }
    proof {
        assert(order[0]@ == 3 && order[1]@ == 4 && order[2]@ == 2 && order[3]@ == 5 && order[4]@
            == 1 && order[5]@ == 6 && order[6]@ == 0);
        assert(order@ =~= seq![
            Column::D,
            Column::E,
            Column::C,
            Column::F,
            Column::B,
            Column::G,
            Column::A,
        ]);
    }
    order
}

/// The score of a position with `n_moves` stones in which the player to
/// move wins at once.
pub fn score(n_moves: u32) -> (s: i32)
    requires
        n_moves <= 42,
    ensures
        s == win_score(n_moves as int),
{
    (43 - n_moves as i32) / 2
}

/// A solver that prunes forced moves, tries the most promising moves
/// first and closes in on the score by searches with an empty window.
pub struct Solver {
    table: TranspositionTable,
}

impl Default for Solver {
    fn default() -> (solver: Self)
        ensures
            default_slots(solver.slots()),
    {
        Self::new()
    }
}

impl Solver {
    /// The slots of the solver's table.
    pub closed spec fn slots(&self) -> Seq<Entry> {
        self.table@
    }

    /// Whatever the solver's table holds for a board of type `B` is an
    /// upper bound on the score of its position.
    pub open spec fn sound<B: Board>(&self) -> bool {
        sound_for::<B>(self.slots())
    }

    /// A solver with an unused table of the default size.
    pub fn new() -> (solver: Self)
        ensures
            default_slots(solver.slots()),
    {
        Self { table: TranspositionTable::default() }
    }

    /// A solver with the given table.
    pub fn new_with_table(table: TranspositionTable) -> (solver: Self)
        ensures
            solver.slots() == table@,
    {
        Self { table }
    }

    /// Marks every slot of the table unused.
    pub fn clear(&mut self)
        ensures
            final(self).slots().len() == old(self).slots().len(),
            unused(final(self).slots()),
    {
        self.table.clear();
    }

    /// What `solve` promises of its result and of the solver after it.
    ///
    /// The score is the score of the position if the table was sound
    /// for the type of the board. Whatever the table holds, the score is
    /// right and the table stays as it was where the search does not
    /// read it: for a win at once, which takes no search, for a full
    /// board, for a position without a move that keeps the opponent from
    /// winning at once, which takes one node, and for a position with at
    /// most two cells left. The table keeps its size, and stays sound if
    /// it was.
    pub open spec fn solved<B: Board>(
        before: Self,
        position: &B,
        result: SolveResult,
        after: Self,
    ) -> bool {
        &&& -21 <= result.score <= 21
        &&& position@.can_win() ==> result.nodes_searched == 1 && result.score
            == position@.value() && after.slots() == before.slots()
        &&& !position@.can_win() && position@.moves() < 42 ==> result.nodes_searched >= 1
        &&& position@.moves() >= 42 ==> result.nodes_searched == 0 && result.score
            == position@.value() && after.slots() == before.slots()
        &&& !position@.can_win() && !position@.has_nonlosing() && position@.moves() < 42
            ==> result.nodes_searched == 1 && result.score == position@.value() && after.slots()
            == before.slots()
        &&& !position@.can_win() && position@.has_nonlosing() && position@.moves() >= 40
            ==> result.score == position@.value() && after.slots() == before.slots()
        &&& after.slots().len() == before.slots().len()
        &&& before.sound::<B>() ==> after.sound::<B>()
        &&& before.sound::<B>() ==> result.score == position@.value()
    }

    /// Computes the score of the position for the player to move.
    pub fn solve<B: Board>(&mut self, position: &B) -> (result: SolveResult)
        requires
            position.wf(),
        ensures
            Self::solved(*old(self), position, result, *final(self)),
    {
        let ghost p = position@;
        proof {
            position.lemma_wf();
            lemma_value_bounds(p);
            lemma_value_unfold(p);
        }
        let moves = position.number_of_moves();
        if position.can_win_in_one_move() {
            return SolveResult { score: score(moves), nodes_searched: 1 };
        }
        let order = generate_move_order();
        let mut min: i32 = -((42 - moves as i32) / 2);
        let mut max: i32 = (43 - moves as i32) / 2;
        let mut nodes: usize = 0;
        let ghost exact = old(self).sound::<B>();
        let ghost early = !p.has_nonlosing() || p.moves() >= 40;
        let ghost span = max - min;
        proof {
            if p.moves() < 42 && !p.has_nonlosing() {
                lemma_forced_loss(p);
            }
            if p.moves() >= 40 && p.has_nonlosing() {
                lemma_late_draw(p);
            }
        }

        while min < max
            invariant
                position.wf(),
                p == position@,
                !p.can_win(),
                -21 <= min <= 21,
                -21 <= max <= 21,
                forall|i: int| 0 <= i < 7 ==> (#[trigger] order[i])@ == column_order(i),
                exact == old(self).sound::<B>(),
                early == (!p.has_nonlosing() || p.moves() >= 40),
                old(self).sound::<B>() ==> self.sound::<B>(),
                self.slots().len() == old(self).slots().len(),
                exact || early ==> min <= p.value() <= max,
                early ==> self.slots() == old(self).slots(),
                !p.has_nonlosing() && p.moves() < 42 ==> p.value() == -((42 - p.moves()) / 2) && (
                (nodes == 0 && min == p.value() && min < max) || (nodes == 1 && min >= max)),
                nodes >= 1 || (max - min == span && nodes == 0 && self.slots() == old(
                    self,
                ).slots()),
                p.moves() >= 42 ==> min == 0 && max == 0 && nodes == 0 && self.slots() == old(
                    self,
                ).slots(),
            decreases
                    (if max > min {
                        max - min
                    } else {
                        0
                    }),
        {
            let mut mid = min + (max - min) / 2;
            if mid <= 0 && min / 2 < mid {
                mid = min / 2;
            } else if mid >= 0 && max / 2 > mid {
                mid = max / 2;
            }
            assert(min <= mid < max);
            let mut nodes_searched: usize = 0;
            let score = self.solve_impl(position, &mut nodes_searched, mid, mid + 1, &order);
            if score > mid {
                min = score;
            } else {
                max = score;
            }
            nodes = nodes.saturating_add(nodes_searched);
        }

        proof {
            position.lemma_wf();
            lemma_value_unfold(p);
        }
        SolveResult { score: min, nodes_searched: nodes }
    }

    fn solve_impl<B: Board>(
        &mut self,
        position: &B,
        nodes_searched: &mut usize,
        alpha: i32,
        beta: i32,
        order: &[Column; WIDTH],
    ) -> (v: i32)
        requires
            position.wf(),
            !position@.can_win(),
            -21 <= alpha < beta <= 21,
            forall|i: int| 0 <= i < 7 ==> (#[trigger] order[i])@ == column_order(i),
        ensures
            -21 <= v <= 21,
            *final(nodes_searched) > *old(nodes_searched) || *final(nodes_searched) == usize::MAX,
            final(self).slots().len() == old(self).slots().len(),
            old(self).sound::<B>() ==> final(self).sound::<B>(),
            old(self).sound::<B>() ==> within_window(
                v as int,
                position@.value(),
                alpha as int,
                beta as int,
            ),
            !position@.has_nonlosing() ==> v == -((42 - position@.moves()) / 2),
            position@.has_nonlosing() && position@.moves() >= 40 ==> v == 0,
            !position@.has_nonlosing() || position@.moves() >= 40 ==> v == position@.value()
                && *final(nodes_searched) == old(nodes_searched).saturating_add(1)
                && final(self).slots() == old(self).slots(),
        decreases 42 - position@.moves(),
    {
        *nodes_searched = nodes_searched.saturating_add(1);
        let ghost p = position@;
        let ghost exact = old(self).sound::<B>();
        proof {
            position.lemma_wf();
            lemma_value_bounds(p);
            lemma_value_unfold(p);
        }
        let moves = position.number_of_moves();

        // Without a move that keeps the opponent from winning, the game
        // is lost with the opponent's next stone.
        let possible_moves = match position.possible_nonlosing_moves() {
            None => {
                proof {
                    lemma_forced_loss(p);
                }
                return -((42 - moves as i32) / 2);
            },
            Some(possible_moves) => possible_moves,
        };

        // With two cells left nobody can win any more.
        if moves >= 40 {
            proof {
                lemma_late_draw(p);
            }
            return 0;
        }
        proof {
            lemma_value_is_best_reply(p);
            let c = choose|c: int| 0 <= c < 7 && #[trigger] p.nonlosing(c);
            lemma_nonlosing_move(p, c);
            assert(p.reply(c) <= p.value());
        }

        // The opponent cannot win with the next stone.
        let mut lower = alpha;
        let mut upper = beta;
        let min: i32 = -((40 - moves as i32) / 2);
        if lower < min {
            lower = min;
            if lower >= upper {
                return lower;
            }
        }
        // The best that is left is a win with the player's next stone.

        let mut max: i32 = (41 - moves as i32) / 2;
        let key = position.key();
        match self.table.get(key) {
            Some(stored_score) => {
                max = stored_score as i32 + MIN_SCORE - 1;
            },
            None => {},
        }
        assert(exact ==> p.value() <= max);
        if upper > max {
            upper = max;
            if lower >= upper {
                return lower;
            }
        }
        let ghost lower_start = lower;

        // The moves that are left, the most promising first.
        let mut queue = MoveQueue::with_capacity(WIDTH);
        let mut k: usize = 0;
        while k < 7
            invariant
                k <= 7,
                position.wf(),
                p == position@,
                forall|i: int| 0 <= i < 7 ==> (#[trigger] order[i])@ == column_order(i),
                forall|c: int| 0 <= c < 7 ==> #[trigger] possible_moves[c] == p.nonlosing(c),
                forall|j: int|
                    0 <= j < k && p.nonlosing(column_order(j)) ==> #[trigger] queued(
                        queue@,
                        column_order(j),
                    ),
                forall|c: int| queued(queue@, c) ==> 0 <= c < 7 && p.nonlosing(c),
            decreases 7 - k,
        {
            let column = order[k];
            if possible_moves[column.index()] {
                let scored = position.score_move(column);
                proof {
                    lemma_rank_in_range(queue@, scored.score);
                    lemma_enter(queue@, rank(queue@, scored.score), scored);
                }
                queue.push(scored);
            }
            k += 1;
        }
        proof {
            assert(column_order(0) == 3 && column_order(1) == 4 && column_order(2) == 2
                && column_order(3) == 5 && column_order(4) == 1 && column_order(5) == 6
                && column_order(6) == 0);
            assert(forall|c: int| 0 <= c < 7 && p.nonlosing(c) ==> #[trigger] queued(queue@, c));
        }

        loop
            invariant
                position.wf(),
                p == position@,
                p.wf(),
                p.moves() == moves,
                moves < 40,
                !p.can_win(),
                p.has_nonlosing(),
                key == position.key_spec(),
                min == -((40 - moves) / 2),
                p.value() >= min,
                forall|i: int| 0 <= i < 7 ==> (#[trigger] order[i])@ == column_order(i),
                -21 <= alpha <= lower_start <= lower < upper <= beta <= 21,
                min <= lower_start,
                lower_start == alpha || lower_start == min,
                *nodes_searched > *old(nodes_searched) || *nodes_searched == usize::MAX,
                self.slots().len() == old(self).slots().len(),
                old(self).sound::<B>() ==> self.sound::<B>(),
                exact == old(self).sound::<B>(),
                forall|c: int| queued(queue@, c) ==> 0 <= c < 7 && p.nonlosing(c),
                exact ==> forall|c: int|
                    0 <= c < 7 && p.nonlosing(c) ==> #[trigger] p.reply(c) <= lower || queued(
                        queue@,
                        c,
                    ),
                exact ==> lower == lower_start || exists|c: int|
                    0 <= c < 7 && p.playable(c) && #[trigger] p.reply(c) == lower,
                exact ==> upper == beta || p.value() <= upper,
                forall|c: int| 0 <= c < 7 ==> #[trigger] p.reply(c) <= p.value(),
            ensures
                queue@.len() == 0,
            decreases queue@.len(),
        {
            let ghost waiting = queue@;
            let column = match queue.pop() {
                Some(scored) => scored.column,
                None => {
                    break ;
                },
            };
            proof {
                lemma_leave(waiting);
                assert(waiting[0].column@ == column@);
                assert(queued(waiting, column@));
                assert(p.nonlosing(column@));
            }
            let mut next_position = *position;
            next_position.play(column);
            proof {
                lemma_play(p, column@);
                next_position.lemma_wf();
            }
            let score = -self.solve_impl(&next_position, nodes_searched, -upper, -lower, order);
            if score >= upper {
                // The opponent will not let the game come here.
                assert(exact ==> within_window(
                    score as int,
                    p.value(),
                    alpha as int,
                    beta as int,
                )) by {
                    assert(p.reply(column@) <= p.value());
                }
                return score;
            }
            if score > lower {
                lower = score;
                assert(exact ==> p.reply(column@) == lower);
            }
        }

        proof {
            if exact {
                assert forall|c: int| 0 <= c < 7 && p.nonlosing(c) implies #[trigger] p.reply(c)
                    <= lower by {
                    assert(!queued(queue@, c));
                }
                lemma_value_over_nonlosing(p, lower as int);
            }
        }
        // What is stored is a bound that the byte can hold.
        let bound = if lower < MIN_SCORE {
            MIN_SCORE
        } else {
            lower
        };
        let byte = (bound - MIN_SCORE + 1) as u8;
        assert(byte == stored_byte(lower as int));
        let ghost before = self.slots();
        self.table.set(key, byte);
        proof {
            if old(self).sound::<B>() {
                lemma_sound_after_store::<B>(before, *position, byte);
            }
        }
        lower
    }
}

/// The three solvers give the same score, the score of the position:
/// the search of every move, the search by probes with an empty window,
/// and the search that prunes forced moves and orders the moves.
///
/// A solver that is handed a table needs the table to be sound for the
/// type of the board; a new table and a cleared one are.
pub proof fn lemma_solvers_agree<B: Board>(
    position: B,
    plain_before: negamax_ab::NegamaxSolver,
    plain: SolveResult,
    plain_after: negamax_ab::NegamaxSolver,
    probing_before: negamax_id_nw::NegamaxID,
    probing: SolveResult,
    probing_after: negamax_id_nw::NegamaxID,
    full_before: Solver,
    full: SolveResult,
    full_after: Solver,
)
    requires
        position.wf(),
        plain_before.sound::<B>(),
        full_before.sound::<B>(),
        negamax_ab::NegamaxSolver::solved(plain_before, &position, plain, plain_after),
        negamax_id_nw::NegamaxID::solved(probing_before, &position, probing, probing_after),
        Solver::solved(full_before, &position, full, full_after),
    ensures
        plain.score == position@.value(),
        probing.score == position@.value(),
        full.score == position@.value(),
{
}

/// The score that the solver returns for a board with `m` stones lies
/// between `-(40 - m) / 2` and `(42 - m) / 2`, the halves rounded towards
/// zero, where the score of the position does.
pub proof fn lemma_solved_score_bounds<B: Board>(
    position: B,
    before: Solver,
    result: SolveResult,
    after: Solver,
)
    requires
        position.wf(),
        before.sound::<B>(),
        Solver::solved(before, &position, result, after),
        position@.moves() < 42,
        !(position@.can_win() && position@.moves() % 2 == 1),
        position@.can_win() || position@.has_nonlosing(),
    ensures
        -crate::game::half(40 - position@.moves()) <= result.score <= crate::game::half(
            42 - position@.moves(),
        ),
{
    position.lemma_wf();
    crate::game::lemma_score_bounds(position@);
}

} // verus!
