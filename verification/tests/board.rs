use connect4_solver::board::BitBoard;
use connect4_solver::board::Board;
use connect4_solver::board::Column;
use connect4_solver::board::ScoredMove;
use connect4_solver::board::HEIGHT;
use connect4_solver::board::WIDTH;
use connect4_solver::move_queue::MoveQueue;

#[test]
fn board_test_is_playable() {
    let mut board = BitBoard::new();
    Column::all()
        .into_iter()
        .for_each(|c| assert!(board.is_playable(c)));

    for _ in 0..HEIGHT {
        board.play(Column::A);
    }

    assert!(!board.is_playable(Column::A));
}

#[test]
fn board_test_is_winning_horizontal() {
    let board = BitBoard::from_notation("435462");
    assert!(board.is_winning(Column::G));
    assert!(board.can_win_in_one_move());
    Column::all()
        .into_iter()
        .filter(|&c| c != Column::G)
        .for_each(|c| assert!(!board.is_winning(c)));
}

#[test]
fn board_test_is_winning_vertical() {
    let board = BitBoard::from_notation("123451121517");
    assert!(board.is_winning(Column::A));
    assert!(board.can_win_in_one_move());
    Column::all()
        .into_iter()
        .skip(1)
        .for_each(|c| assert!(!board.is_winning(c)));
}

#[test]
fn board_test_is_winning_diagonal() {
    let board = BitBoard::from_notation("453433222");
    assert!(board.is_winning(Column::B));
    assert!(board.can_win_in_one_move());

    let board = BitBoard::from_notation("2334454551");
    assert!(board.is_winning(Column::E));
    assert!(board.can_win_in_one_move());
}

#[test]
fn board_test_is_winning_2_places() {
    let board = BitBoard::from_notation("445362322111");
    assert!(board.is_winning(Column::A)); // diagonal win
    assert!(board.is_winning(Column::G)); // horizontal win
    assert!(board.can_win_in_one_move());

    Column::all()
        .into_iter()
        .filter(|&c| c != Column::G && c != Column::A)
        .for_each(|c| assert!(!board.is_winning(c)));
}

#[test]
fn board_test_play() {
    let mut board = BitBoard::new();
    assert_eq!(board.play(Column::D), 1);
    assert_eq!(board.play(Column::E), 2);
    assert_eq!(board.play(Column::D), 3);
    assert_eq!(board.play(Column::G), 4);
}

#[test]
fn test_possible_nonlosing_moves() {
    let board = BitBoard::new();
    let moves = board.possible_nonlosing_moves();
    assert_eq!(moves, Some([true; WIDTH])); // all columns are possible

    // Losing position
    let board = BitBoard::from_notation("4453623221115");

    // Player 2's turn, but player 1 can win in A or G. So there's nothing player 2 can do
    assert_eq!(board.possible_nonlosing_moves(), None); // all columns are false

    // Player 1 can win in E
    let mut board = BitBoard::from_notation("2334465545");
    assert!(board.is_winning(Column::E));
    board.play(Column::A); // don't win yet
    assert_eq!(
        board.possible_nonlosing_moves(),
        Some([false, false, false, false, true, false, false])
    ); // only E is possible otherwise p1 wins
}

#[test]
fn test_move_scoring() {
    // A move with higher score is a move that creates possible wins by forming a connected 3 line
    let board = BitBoard::from_notation("4655");

    // Playing C will create a possible win in the next move, so it's score should be 1
    assert_eq!(board.score_move(Column::C).score, 1);

    let board = BitBoard::from_notation("465556677141");
    // Playing C allows 2 wins in the next move (by playing eiter B or F)
    // Additionally, playing F also allows 2 wins (in C or G, although G is not yet possible)
    // or B allows 1 win in the next move by playing C
    assert_eq!(board.score_move(Column::C).score, 2);
    assert_eq!(board.score_move(Column::F).score, 2);
    assert_eq!(board.score_move(Column::B).score, 1);
}

#[test]
fn move_sorting_with_heap() {
    let mut heap = MoveQueue::new();

    // We want the insertion order preserved in case of moves with the same score (stable sort)
    let move1 = ScoredMove {
        column: Column::A,
        score: 1,
    };
    let move2 = ScoredMove {
        column: Column::B,
        score: 2,
    };
    let move3 = ScoredMove {
        column: Column::C,
        score: 2,
    };
    let move4 = ScoredMove {
        column: Column::D,
        score: 1,
    };

    // expected sequence is B, C, A, D
    heap.push(move1);
    heap.push(move2);
    heap.push(move3);
    heap.push(move4);

    assert_eq!(heap.pop(), Some(move2));
    assert_eq!(heap.pop(), Some(move3));
    assert_eq!(heap.pop(), Some(move1));
    assert_eq!(heap.pop(), Some(move4));
}
