use connect4_solver::board::array_board::ArrayBoard;
use connect4_solver::board::bitboard::BitBoard as CheckedBitBoard;
use connect4_solver::board::BitBoard;
use connect4_solver::board::Board;
use connect4_solver::board::Column;
use std::collections::HashMap;

// A small generator of numbers, the same on every run.
struct Numbers(u64);

impl Numbers {
    fn next(&mut self) -> u64 {
        self.0 = self
            .0
            .wrapping_mul(6364136223846793005)
            .wrapping_add(1442695040888963407);
        self.0 >> 33
    }
}

// Plays stones that the rules allow on the three boards at once, and
// checks after each stone that the boards agree.
fn play_along(numbers: &mut Numbers, mut check: impl FnMut(&BitBoard, &CheckedBitBoard, &ArrayBoard)) {
    let mut bits = BitBoard::new();
    let mut checked = CheckedBitBoard::new();
    let mut array = ArrayBoard::new();
    check(&bits, &checked, &array);
    loop {
        let allowed: Vec<Column> = Column::all()
            .into_iter()
            .filter(|&c| array.is_playable(c) && !array.is_winning(c))
            .collect();
        if allowed.is_empty() {
            break;
        }
        let column = allowed[(numbers.next() % allowed.len() as u64) as usize];
        let moves = bits.play(column);
        assert_eq!(checked.play(column), moves);
        assert_eq!(array.play(column), moves);
        check(&bits, &checked, &array);
    }
}

#[test]
fn the_boards_find_the_same_winning_moves() {
    let mut numbers = Numbers(1);
    let mut positions = 0;
    for _ in 0..300 {
        play_along(&mut numbers, |bits, checked, array| {
            positions += 1;
            for column in Column::all() {
                let expected = array.is_winning(column);
                assert_eq!(bits.is_winning(column), expected);
                assert_eq!(checked.is_winning(column), expected);
                assert_eq!(bits.is_playable(column), array.is_playable(column));
                assert_eq!(checked.is_playable(column), array.is_playable(column));
            }
            let any = Column::all().into_iter().any(|c| array.is_winning(c));
            assert_eq!(bits.can_win_in_one_move(), any);
            assert_eq!(bits.number_of_moves(), array.number_of_moves());
            assert_eq!(checked.number_of_moves(), array.number_of_moves());
        });
    }
    assert!(positions > 3000);
}

#[test]
fn the_boards_draw_the_same_picture() {
    let mut numbers = Numbers(2);
    for _ in 0..50 {
        play_along(&mut numbers, |bits, checked, array| {
            let picture = bits.render();
            assert_eq!(checked.render(), picture);
            let next = if array.number_of_moves() % 2 == 0 { "X" } else { "O" };
            assert_eq!(array.render(), format!("{}Next player: {}\n", picture, next));
        });
    }
}

#[test]
fn no_two_positions_share_a_key() {
    let mut numbers = Numbers(3);
    let mut seen: HashMap<u64, String> = HashMap::new();
    for _ in 0..500 {
        play_along(&mut numbers, |bits, _, _| {
            let key = bits.key();
            assert!(key < 1 << 56);
            assert_eq!(key == 0, bits.number_of_moves() == 0);
            let picture = bits.render();
            if let Some(other) = seen.get(&key) {
                assert_eq!(*other, picture);
            } else {
                seen.insert(key, picture);
            }
        });
    }
    assert!(seen.len() > 5000);
}

#[test]
fn the_order_of_the_moves_does_not_change_the_key() {
    let a = BitBoard::from_notation("1213");
    let b = BitBoard::from_notation("1312");
    assert_eq!(a.key(), b.key());
    assert_eq!(a.render(), b.render());
    let c = BitBoard::from_notation("1231");
    assert_ne!(a.key(), c.key());
}

#[test]
fn nonlosing_moves_leave_no_winning_answer() {
    let mut numbers = Numbers(4);
    let mut with_none = 0;
    let mut with_some = 0;
    for _ in 0..300 {
        play_along(&mut numbers, |bits, _, _| {
            if bits.can_win_in_one_move() {
                return;
            }
            let mut expected = [false; 7];
            for column in Column::all() {
                if bits.is_playable(column) {
                    let mut next = *bits;
                    next.play(column);
                    expected[column.index()] = !next.can_win_in_one_move();
                }
            }
            match bits.possible_nonlosing_moves() {
                Some(moves) => {
                    with_some += 1;
                    assert_eq!(moves, expected);
                    assert!(moves.contains(&true));
                }
                None => {
                    with_none += 1;
                    assert!(!expected.contains(&true));
                }
            }
        });
    }
    assert!(with_none > 0 && with_some > 0);
}
