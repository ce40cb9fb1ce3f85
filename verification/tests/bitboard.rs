use connect4_solver::board::bitboard::BitBoard;
use connect4_solver::board::Column;
use connect4_solver::board::HEIGHT;

#[test]
fn bitboard_test_is_playable() {
    let mut board = BitBoard::new();
    Column::all()
        .into_iter()
        .for_each(|c| assert!(board.is_playable(c)));

    for _ in 0..HEIGHT {
        board.play(Column::A);
    }

    assert!(!board.is_playable(Column::A));
}

#[test]
fn bitboard_test_is_winning_horizontal() {
    let board = BitBoard::from_notation("435462");
    assert!(board.is_winning(Column::G));
    Column::all()
        .into_iter()
        .filter(|&c| c != Column::G)
        .for_each(|c| assert!(!board.is_winning(c)));
}

#[test]
fn bitboard_test_is_winning_vertical() {
    let board = BitBoard::from_notation("123451121517");
    assert!(board.is_winning(Column::A));
    Column::all()
        .into_iter()
        .skip(1)
        .for_each(|c| assert!(!board.is_winning(c)));
}

#[test]
fn bitboard_test_is_winning_diagonal() {
    let board = BitBoard::from_notation("453433222");
    assert!(board.is_winning(Column::B));

    let board = BitBoard::from_notation("2334454551");
    assert!(board.is_winning(Column::E));
}

#[test]
fn bitboard_test_is_winning_2_places() {
    let board = BitBoard::from_notation("445362322111");
    assert!(board.is_winning(Column::A)); // diagonal win
    assert!(board.is_winning(Column::G)); // horizontal win

    Column::all()
        .into_iter()
        .filter(|&c| c != Column::G && c != Column::A)
        .for_each(|c| assert!(!board.is_winning(c)));
}

#[test]
fn bitboard_winning_move_doesnt_count() {
    let mut board = BitBoard::from_notation("123451121517"); // Wins with A
    assert!(board.is_winning(Column::A));

    let current_moves = board.number_of_moves();
    assert_eq!(board.play(Column::A), current_moves); // number doesn't change
}

#[test]
fn bitboard_test_play() {
    let mut board = BitBoard::new();
    assert_eq!(board.play(Column::D), 1);
    assert_eq!(board.play(Column::E), 2);
    assert_eq!(board.play(Column::D), 3);
    assert_eq!(board.play(Column::G), 4);
}
