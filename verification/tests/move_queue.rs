use connect4_solver::board::Column;
use connect4_solver::board::ScoredMove;
use connect4_solver::move_queue::MoveQueue;

fn scored(column: Column, score: u32) -> ScoredMove {
    ScoredMove { column, score }
}

#[test]
fn an_empty_queue_gives_nothing() {
    let mut queue = MoveQueue::new();
    assert_eq!(queue.pop(), None);
    let mut queue = MoveQueue::with_capacity(7);
    assert_eq!(queue.pop(), None);
}

#[test]
fn the_highest_score_comes_first() {
    let mut queue = MoveQueue::new();
    queue.push(scored(Column::D, 0));
    queue.push(scored(Column::E, 3));
    queue.push(scored(Column::C, 1));
    queue.push(scored(Column::F, 2));
    assert_eq!(queue.pop(), Some(scored(Column::E, 3)));
    assert_eq!(queue.pop(), Some(scored(Column::F, 2)));
    assert_eq!(queue.pop(), Some(scored(Column::C, 1)));
    assert_eq!(queue.pop(), Some(scored(Column::D, 0)));
    assert_eq!(queue.pop(), None);
}

#[test]
fn equal_scores_keep_their_order() {
    let mut queue = MoveQueue::new();
    let order = [
        Column::D,
        Column::E,
        Column::C,
        Column::F,
        Column::B,
        Column::G,
        Column::A,
    ];
    for column in order {
        queue.push(scored(column, 1));
    }
    for column in order {
        assert_eq!(queue.pop(), Some(scored(column, 1)));
    }
    assert_eq!(queue.pop(), None);
}

#[test]
fn pushes_and_pops_in_turn() {
    let mut queue = MoveQueue::new();
    queue.push(scored(Column::A, 5));
    queue.push(scored(Column::B, 5));
    assert_eq!(queue.pop(), Some(scored(Column::A, 5)));
    queue.push(scored(Column::C, 5));
    queue.push(scored(Column::D, 6));
    assert_eq!(queue.pop(), Some(scored(Column::D, 6)));
    assert_eq!(queue.pop(), Some(scored(Column::B, 5)));
    assert_eq!(queue.pop(), Some(scored(Column::C, 5)));
}

#[test]
fn moves_are_ordered_by_score_alone() {
    let low = scored(Column::G, 1);
    let high = scored(Column::A, 2);
    assert!(low < high);
    assert!(high > low);
    assert!(low <= high);
    assert_eq!(low.partial_cmp(&high), Some(std::cmp::Ordering::Less));
    assert_eq!(high.partial_cmp(&low), Some(std::cmp::Ordering::Greater));
    // the same score in another column: neither comes first, and yet
    // the moves are not the same
    let other = scored(Column::B, 1);
    assert_eq!(low.partial_cmp(&other), Some(std::cmp::Ordering::Equal));
    assert!(low <= other && low >= other);
    assert!(low != other);
    assert!(low == scored(Column::G, 1));
}
