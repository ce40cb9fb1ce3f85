use connect4_solver::board::array_board::ArrayBoard;
use connect4_solver::board::bitboard::BitBoard as CheckedBitBoard;
use connect4_solver::board::BitBoard;
use connect4_solver::board::Board;
use connect4_solver::board::Column;
use connect4_solver::board::HEIGHT;
use connect4_solver::board::WIDTH;

#[test]
fn the_board_has_seven_columns_of_six_cells() {
    assert_eq!(WIDTH, 7);
    assert_eq!(HEIGHT, 6);
    assert_eq!(Column::COUNT, 7);
}

#[test]
fn columns_by_digit_and_letter() {
    let columns = Column::all();
    for (i, digit) in "1234567".chars().enumerate() {
        assert_eq!(Column::parse(digit), Some(columns[i]));
        assert_eq!(Column::from(digit), columns[i]);
    }
    for (i, letter) in "ABCDEFG".chars().enumerate() {
        assert_eq!(Column::parse(letter), Some(columns[i]));
        assert_eq!(Column::from(letter), columns[i]);
    }
    for (i, letter) in "abcdefg".chars().enumerate() {
        assert_eq!(Column::parse(letter), Some(columns[i]));
        assert_eq!(Column::from(letter), columns[i]);
    }
}

#[test]
fn other_characters_name_no_column() {
    for c in ['0', '8', '9', 'H', 'h', ' ', '-', '\n', 'é', '@', '`'] {
        assert_eq!(Column::parse(c), None);
    }
}

#[test]
fn columns_by_number() {
    let columns = Column::all();
    for i in 0..7 {
        assert_eq!(Column::from_repr(i), Some(columns[i]));
        assert_eq!(columns[i].index(), i);
    }
    assert_eq!(Column::from_repr(7), None);
    assert_eq!(Column::from_repr(usize::MAX), None);
    assert_eq!(columns[0], Column::A);
    assert_eq!(columns[6], Column::G);
}

#[test]
fn notation_with_letters() {
    let digits = BitBoard::from_notation("435462");
    let letters = BitBoard::from_notation("DcEdFb");
    assert_eq!(digits.key(), letters.key());
    assert_eq!(digits.render(), letters.render());
}

#[test]
fn notation_that_is_refused() {
    assert!(BitBoard::try_from_notation("").is_some());
    assert!(BitBoard::try_from_notation("4455").is_some());
    // a character that names no column
    assert!(BitBoard::try_from_notation("44x5").is_none());
    assert!(BitBoard::try_from_notation("4 4").is_none());
    assert!(BitBoard::try_from_notation("8").is_none());
    // a seventh stone in a column
    assert!(BitBoard::try_from_notation("111111").is_some());
    assert!(BitBoard::try_from_notation("1111111").is_none());
    assert!(BitBoard::try_from_notation("11111121").is_none());
}

#[test]
fn try_from_notation_gives_the_same_board() {
    let a = BitBoard::try_from_notation("445362322111").unwrap();
    let b = BitBoard::from_notation("445362322111");
    assert_eq!(a.key(), b.key());
    assert_eq!(a.number_of_moves(), 12);
    assert_eq!(b.number_of_moves(), 12);
}

#[test]
fn the_empty_board() {
    let board = BitBoard::new();
    assert_eq!(board.number_of_moves(), 0);
    assert_eq!(board.key(), 0);
    assert!(!board.can_win_in_one_move());
    assert_eq!(board.render(), "-------\n".repeat(6));
    assert_eq!(BitBoard::default().key(), 0);
    assert_eq!(BitBoard::from_notation("").key(), 0);
    assert_eq!(CheckedBitBoard::new().number_of_moves(), 0);
    assert_eq!(CheckedBitBoard::default().render(), "-------\n".repeat(6));
    assert_eq!(ArrayBoard::new().number_of_moves(), 0);
    assert_eq!(
        ArrayBoard::default().render(),
        format!("{}Next player: X\n", "-------\n".repeat(6))
    );
}

#[test]
fn the_picture_of_a_position() {
    let board = BitBoard::from_notation("32164625");
    let expected = "-------\n-------\n-------\n-------\n-X---O-\nXOXXOO-\n";
    assert_eq!(board.render(), expected);
    let board = ArrayBoard::from_notation("32164625");
    assert_eq!(board.render(), format!("{}Next player: X\n", expected));
    // with an odd number of stones the second player is to move
    let board = BitBoard::from_notation("444");
    assert_eq!(
        board.render(),
        "-------\n-------\n-------\n---X---\n---O---\n---X---\n"
    );
    let board = ArrayBoard::from_notation("444");
    assert!(board.render().ends_with("Next player: O\n"));
}

#[test]
fn the_key_is_the_sum_of_the_two_words() {
    // one stone in A: the mask has bit 0, the player to move has no stone
    assert_eq!(BitBoard::from_notation("1").key(), 1);
    // the second stone in A: mask 0b11, stones of the player to move 0b01
    assert_eq!(BitBoard::from_notation("11").key(), 0b11 + 0b01);
    // stones in A and B: mask has bits 0 and 7, the player to move owns bit 0
    assert_eq!(BitBoard::from_notation("12").key(), (1 + (1 << 7)) + 1);
    // a stone in G: bit 42
    assert_eq!(BitBoard::from_notation("7").key(), 1 << 42);
}

#[test]
fn bottom_words() {
    assert_eq!(BitBoard::bottom(0, 6), 0);
    assert_eq!(BitBoard::bottom(1, 6), 1);
    assert_eq!(BitBoard::bottom(2, 6), 0b1000_0001);
    assert_eq!(BitBoard::bottom(7, 6), 0x0000_0408_1020_4081);
    assert_eq!(BitBoard::bottom(3, 1), 0b1_0101);
}

#[test]
fn a_stone_that_wins_is_not_played_on_the_checked_boards() {
    let mut board = CheckedBitBoard::from_notation("435462");
    assert!(board.is_winning(Column::G));
    assert_eq!(board.play(Column::G), 6);
    assert_eq!(board.number_of_moves(), 6);
    // the same holds inside a notation: the stone in G is left out
    let skipped = CheckedBitBoard::from_notation("4354627");
    assert_eq!(skipped.number_of_moves(), 6);
    assert_eq!(skipped.render(), board.render());
    let skipped = ArrayBoard::from_notation("4354627");
    assert_eq!(skipped.number_of_moves(), 6);
}

#[test]
fn a_stone_in_a_full_column_is_not_played_on_the_checked_boards() {
    let mut board = CheckedBitBoard::from_notation("111111");
    assert!(!board.is_playable(Column::A));
    assert!(!board.is_winning(Column::A));
    assert_eq!(board.play(Column::A), 6);
    let mut board = ArrayBoard::from_notation("1111111");
    assert_eq!(board.number_of_moves(), 6);
    assert!(!board.is_winning(Column::A));
    assert_eq!(board.play(Column::A), 6);
}

#[test]
fn scores_of_moves() {
    let board = BitBoard::from_notation("465556677141");
    let scores: Vec<u32> = Column::all()
        .into_iter()
        .map(|c| board.score_move(c).score)
        .collect();
    assert_eq!(scores, vec![0, 1, 2, 3, 1, 2, 1]);
    assert_eq!(board.score_move(Column::E).column, Column::E);
    // a full column adds no stone: the cells that win are those of the position
    let board = BitBoard::from_notation("111111");
    assert!(!board.is_playable(Column::A));
    assert_eq!(board.score_move(Column::A).score, 0);
    // three stones of the player to move in A: the fourth cell of A wins,
    // with or without a stone in G
    let board = BitBoard::from_notation("121212");
    assert_eq!(board.score_move(Column::G).score, 1);
}
