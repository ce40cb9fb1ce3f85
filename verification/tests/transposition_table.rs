use connect4_solver::transposition_table::calc_next_prime;
use connect4_solver::transposition_table::has_factor;
use connect4_solver::transposition_table::med;
use connect4_solver::transposition_table::TranspositionTable;

#[test]
fn a_new_table_finds_nothing() {
    let table = TranspositionTable::with_size_bits(4);
    for key in 0..200u64 {
        assert_eq!(table.get(key), None);
    }
    // an unused slot is a miss for key 0 too, the key of the empty board
    assert_eq!(table.get(0), None);
    assert_eq!(table.get(1 << 56), None);
    assert_eq!(table.get(u64::MAX), None);
}

#[test]
fn score_zero_for_key_zero_is_an_unused_slot() {
    let mut table = TranspositionTable::with_size_bits(4);
    // the word of key 0 with score 0 is the word of an unused slot
    table.set(0, 0);
    assert_eq!(table.get(0), None);
    // so it is for a key whose low 56 bits are 0: 17 slots, and 17 * 2^56
    // has slot 0
    table.set(17 << 56, 0);
    assert_eq!(table.get(17 << 56), None);
    // every other score is found under key 0
    for score in 1..=255u8 {
        table.set(0, score);
        assert_eq!(table.get(0), Some(score));
    }
    // and score 0 under every other key
    table.set(5, 0);
    assert_eq!(table.get(5), Some(0));
    // writing the unused word over a slot empties it
    table.set(0, 7);
    table.set(0, 0);
    assert_eq!(table.get(0), None);
}

#[test]
fn what_was_set_is_found() {
    let mut table = TranspositionTable::with_size_bits(4);
    table.set(12345, 7);
    assert_eq!(table.get(12345), Some(7));
    table.set(12345, 9);
    assert_eq!(table.get(12345), Some(9));
    table.set(0, 3);
    assert_eq!(table.get(0), Some(3));
    table.set(u64::MAX, 255);
    assert_eq!(table.get(u64::MAX), Some(255));
}

#[test]
fn another_slot_does_not_disturb() {
    // 2 bits make 5 slots: keys 3 and 7 have the slots 3 and 2
    let mut table = TranspositionTable::with_size_bits(2);
    table.set(3, 10);
    table.set(7, 20);
    assert_eq!(table.get(3), Some(10));
    assert_eq!(table.get(7), Some(20));
}

#[test]
fn the_same_slot_is_overwritten() {
    // 2 bits make 5 slots: keys 3 and 8 share slot 3
    let mut table = TranspositionTable::with_size_bits(2);
    table.set(3, 10);
    assert_eq!(table.get(8), None);
    table.set(8, 20);
    assert_eq!(table.get(3), None);
    assert_eq!(table.get(8), Some(20));
}

#[test]
fn keys_are_told_apart_by_their_low_56_bits() {
    // 5 slots: adding 5 * 2^56 changes neither the slot nor the low 56 bits
    let mut table = TranspositionTable::with_size_bits(2);
    let key: u64 = 0x00ab_cdef_0123_4567;
    let twin = key + 5 * (1u64 << 56);
    table.set(key, 42);
    assert_eq!(table.get(twin), Some(42));
    // adding 5 changes the low bits and keeps the slot
    assert_eq!(table.get(key + 5), None);
}

#[test]
fn clear_forgets_everything() {
    let mut table = TranspositionTable::with_size_bits(3);
    for key in 0..50u64 {
        table.set(key, key as u8 + 1);
    }
    for key in 39..50u64 {
        assert_eq!(table.get(key), Some(key as u8 + 1));
    }
    table.clear();
    for key in 0..50u64 {
        assert_eq!(table.get(key), None);
    }
    // the size is still 11: keys 4 and 15 share a slot, keys 4 and 12 do not
    table.set(4, 1);
    table.set(12, 2);
    assert_eq!(table.get(4), Some(1));
    table.set(15, 3);
    assert_eq!(table.get(4), None);
}

#[test]
fn the_default_table_has_a_prime_size() {
    // the first prime from 2^23 on is 8388617
    let mut table = TranspositionTable::new();
    table.set(5, 1);
    table.set(5 + 8388617, 2);
    assert_eq!(table.get(5), None);
    assert_eq!(table.get(5 + 8388617), Some(2));
    table.set(5 + 8388608, 3);
    assert_eq!(table.get(5 + 8388617), Some(2));
    assert_eq!(table.get(5 + 8388608), Some(3));
    let table = TranspositionTable::default();
    assert_eq!(table.get(77), None);
}

#[test]
fn next_primes() {
    let expected = [
        0usize, 1, 2, 3, 5, 5, 7, 7, 11, 11, 11, 11, 13, 13, 17, 17, 17, 17, 19, 19,
    ];
    for (n, p) in expected.into_iter().enumerate() {
        assert_eq!(calc_next_prime(n), Some(p));
    }
    assert_eq!(calc_next_prime(1 << 10), Some(1031));
    assert_eq!(calc_next_prime(1 << 16), Some(65537));
    assert_eq!(calc_next_prime(1 << 20), Some(1048583));
    assert_eq!(calc_next_prime(1 << 23), Some(8388617));
    // nothing from here on is prime
    assert_eq!(calc_next_prime(usize::MAX), None);
}

#[test]
fn factors_in_a_range() {
    assert!(has_factor(91, 2, 91)); // 7 * 13
    assert!(!has_factor(97, 2, 97));
    assert!(has_factor(91, 7, 8));
    assert!(!has_factor(91, 8, 13)); // 13 * 13 is more than 91
    assert!(!has_factor(91, 2, 7));
    // an empty range still tries its lower end
    assert!(has_factor(49, 7, 7));
    assert!(has_factor(49, 7, 3));
    assert!(!has_factor(4, 3, 4));
    // a lower end whose square does not fit
    assert!(!has_factor(usize::MAX, usize::MAX, usize::MAX));
}

#[test]
fn the_middle() {
    assert_eq!(med(2, 10), 6);
    assert_eq!(med(2, 9), 5);
    assert_eq!(med(9, 2), 5);
    assert_eq!(med(0, 0), 0);
    assert_eq!(med(usize::MAX, usize::MAX), usize::MAX);
    assert_eq!(med(usize::MAX, usize::MAX - 1), usize::MAX - 1);
}
