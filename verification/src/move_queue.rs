//! A queue that hands out scored moves by score, the highest first, and
//! moves of equal score in the order in which they came.
use vstd::prelude::*;
use vstd::std_specs::cmp::PartialOrdSpecImpl;
use core::cmp::Ordering;
use crate::board::ScoredMove;

verus! {

/// Scored moves are ordered by their scores alone.
impl PartialOrd for ScoredMove {
    fn partial_cmp(&self, other: &Self) -> (order: Option<Ordering>) {
        if self.score < other.score {
            Some(Ordering::Less)
        } else if self.score > other.score {
            Some(Ordering::Greater)
        } else {
            Some(Ordering::Equal)
        }
    }
}

impl PartialOrdSpecImpl for ScoredMove {
    open spec fn obeys_partial_cmp_spec() -> bool {
        true
    }

    open spec fn partial_cmp_spec(&self, other: &Self) -> Option<Ordering> {
        if self.score < other.score {
            Some(Ordering::Less)
        } else if self.score > other.score {
            Some(Ordering::Greater)
        } else {
            Some(Ordering::Equal)
        }
    }
}

/// No move has a higher score than a move before it.
pub open spec fn descending(moves: Seq<ScoredMove>) -> bool {
    forall|i: int, j: int| 0 <= i < j < moves.len() ==> moves[i].score >= moves[j].score
}

/// The place at which a move with the given score enters the queue:
/// behind every move that scores at least as much.
pub open spec fn rank(moves: Seq<ScoredMove>, score: u32) -> int
    decreases moves.len(),
{
    if moves.len() == 0 || moves[0].score < score {
        0
    } else {
        1 + rank(moves.drop_first(), score)
    }
}

/// Some move of the queue plays column `c`.
pub open spec fn queued(moves: Seq<ScoredMove>, c: int) -> bool {
    exists|i: int| 0 <= i < moves.len() && (#[trigger] moves[i]).column@ == c
}

/// The rank of a score is the place of the first move that scores less.
pub proof fn lemma_rank(moves: Seq<ScoredMove>, score: u32, place: int)
    requires
        0 <= place <= moves.len(),
        forall|i: int| 0 <= i < place ==> (#[trigger] moves[i]).score >= score,
        place < moves.len() ==> moves[place].score < score,
    ensures
        rank(moves, score) == place,
    decreases moves.len(),
{
    if place > 0 {
        let rest = moves.drop_first();
        assert forall|i: int| 0 <= i < place - 1 implies (#[trigger] rest[i]).score >= score by {
            assert(rest[i] == moves[i + 1]);
        }
        lemma_rank(rest, score, place - 1);
    }
}

/// The rank of a score is a place of the queue or the place behind it.
pub proof fn lemma_rank_in_range(moves: Seq<ScoredMove>, score: u32)
    ensures
        0 <= rank(moves, score) <= moves.len(),
    decreases moves.len(),
{
    if !(moves.len() == 0 || moves[0].score < score) {
        lemma_rank_in_range(moves.drop_first(), score);
    }
}

/// A move that enters a queue adds its column to the columns of the
/// queue, and no other.
pub proof fn lemma_enter(moves: Seq<ScoredMove>, place: int, scored: ScoredMove)
    requires
        0 <= place <= moves.len(),
    ensures
        queued(moves.insert(place, scored), scored.column@),
        forall|c: int|
            #![trigger queued(moves.insert(place, scored), c)]
            queued(moves, c) ==> queued(moves.insert(place, scored), c),
        forall|c: int|
            #![trigger queued(moves.insert(place, scored), c)]
            queued(moves.insert(place, scored), c) ==> c == scored.column@ || queued(moves, c),
{
    let after = moves.insert(place, scored);
    assert(after[place] == scored);
    assert forall|c: int| queued(moves, c) implies queued(after, c) by {
        let i = choose|i: int| 0 <= i < moves.len() && (#[trigger] moves[i]).column@ == c;
        if i < place {
            assert(after[i] == moves[i]);
        } else {
            assert(after[i + 1] == moves[i]);
        }
    }
    assert forall|c: int| queued(after, c) implies c == scored.column@ || queued(moves, c) by {
        let i = choose|i: int| 0 <= i < after.len() && (#[trigger] after[i]).column@ == c;
        if i < place {
            assert(after[i] == moves[i]);
        } else if i > place {
            assert(after[i] == moves[i - 1]);
        }
    }
}

/// A move that enters a descending queue at its rank leaves the queue
/// descending.
pub proof fn lemma_enter_descending(moves: Seq<ScoredMove>, scored: ScoredMove)
    requires
        descending(moves),
    ensures
        descending(moves.insert(rank(moves, scored.score), scored)),
{
    let place = lemma_rank_exists(moves, scored.score);
}

/// The rank of a score in a descending queue: every move before it
/// scores at least as much, and the move at it, if any, scores less.
pub proof fn lemma_rank_exists(moves: Seq<ScoredMove>, score: u32) -> (place: int)
    requires
        descending(moves),
    ensures
        place == rank(moves, score),
        0 <= place <= moves.len(),
        forall|i: int| 0 <= i < place ==> (#[trigger] moves[i]).score >= score,
        forall|i: int| place <= i < moves.len() ==> (#[trigger] moves[i]).score < score,
    decreases moves.len(),
{
    if moves.len() == 0 || moves[0].score < score {
        0
    } else {
        let rest = moves.drop_first();
        assert forall|i: int, j: int| 0 <= i < j < rest.len() implies rest[i].score
            >= rest[j].score by {
            assert(rest[i] == moves[i + 1] && rest[j] == moves[j + 1]);
        }
        let place = lemma_rank_exists(rest, score);
        assert forall|i: int| 0 <= i < place + 1 implies (#[trigger] moves[i]).score >= score by {
            if i > 0 {
                assert(rest[i - 1] == moves[i]);
            }
        }
        assert forall|i: int| place + 1 <= i < moves.len() implies (#[trigger] moves[i]).score
            < score by {
            assert(rest[i - 1] == moves[i]);
        }
        place + 1
    }
}

/// When the first move leaves the queue, the queue stays descending.
pub proof fn lemma_leave_descending(moves: Seq<ScoredMove>)
    requires
        descending(moves),
        moves.len() > 0,
    ensures
        descending(moves.drop_first()),
{
    let rest = moves.drop_first();
    assert forall|i: int, j: int| 0 <= i < j < rest.len() implies rest[i].score
        >= rest[j].score by {
        assert(rest[i] == moves[i + 1] && rest[j] == moves[j + 1]);
    }
}

/// When the first move leaves the queue, the queue keeps the columns of
/// the other moves, and no other.
pub proof fn lemma_leave(moves: Seq<ScoredMove>)
    requires
        moves.len() > 0,
    ensures
        forall|c: int|
            #![trigger queued(moves.drop_first(), c)]
            queued(moves, c) ==> c == moves[0].column@ || queued(moves.drop_first(), c),
        forall|c: int|
            #![trigger queued(moves.drop_first(), c)]
            queued(moves.drop_first(), c) ==> queued(moves, c),
{
    let rest = moves.drop_first();
    assert forall|c: int| queued(moves, c) implies c == moves[0].column@ || queued(rest, c) by {
        let i = choose|i: int| 0 <= i < moves.len() && (#[trigger] moves[i]).column@ == c;
        if i > 0 {
            assert(rest[i - 1] == moves[i]);
        }
    }
    assert forall|c: int| queued(rest, c) implies queued(moves, c) by {
        let i = choose|i: int| 0 <= i < rest.len() && (#[trigger] rest[i]).column@ == c;
        assert(rest[i] == moves[i + 1]);
    }
}

/// Scored moves waiting to be tried, the most promising first.
pub struct MoveQueue {
    moves: Vec<ScoredMove>,
}

impl MoveQueue {
    /// The moves in the order in which they will leave the queue.
    pub closed spec fn view(&self) -> Seq<ScoredMove> {
        self.moves@
    }

    /// A queue without moves.
    pub fn new() -> (queue: Self)
        ensures
            queue@ == Seq::<ScoredMove>::empty(),
    {
        MoveQueue { moves: Vec::new() }
    }

    /// A queue without moves, with room for `capacity` of them. The
    /// moves, of eight bytes each, have to fit in the address space.
    pub fn with_capacity(capacity: usize) -> (queue: Self)
        requires
            capacity <= usize::MAX / 16,
        ensures
            queue@ == Seq::<ScoredMove>::empty(),
    {
        MoveQueue { moves: Vec::with_capacity(capacity) }
    }

    /// Adds a move behind every move that scores at least as much.
    pub fn push(&mut self, scored: ScoredMove)
        ensures
            final(self)@ == old(self)@.insert(rank(old(self)@, scored.score), scored),
            descending(old(self)@) ==> descending(final(self)@),
    {
        proof {
            if descending(self.moves@) {
                lemma_enter_descending(self.moves@, scored);
            }
        }
        let mut place: usize = 0;
        while place < self.moves.len() && self.moves[place] >= scored
            invariant
                place <= self.moves@.len(),
                self.moves@ == old(self).moves@,
                forall|i: int| 0 <= i < place ==> (#[trigger] self.moves@[i]).score >= scored.score,
            decreases self.moves@.len() - place,
        {
            place += 1;
        }
        proof {
            lemma_rank(self.moves@, scored.score, place as int);
        }
        self.moves.insert(place, scored);
    }

    /// Takes the first move out of the queue, if there is one.
    pub fn pop(&mut self) -> (first: Option<ScoredMove>)
        ensures
            descending(old(self)@) ==> descending(final(self)@),
            old(self)@.len() == 0 ==> first is None && final(self)@ == old(self)@,
            old(self)@.len() > 0 ==> first == Some(old(self)@[0]) && final(self)@ == old(
                self,
            )@.drop_first(),
    {
        if self.moves.len() == 0 {
            None
        } else {
            proof {
                if descending(self.moves@) {
                    lemma_leave_descending(self.moves@);
                }
                assert(self.moves@.remove(0) =~= self.moves@.drop_first());
            }
            Some(self.moves.remove(0))
        }
    }
}

} // verus!
