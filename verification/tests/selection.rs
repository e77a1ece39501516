use prize_pool::allocation::ProbabilityError;
use prize_pool::probability::select_winning_item_index;
use prize_pool::selection::sum_probabilities;

#[test]
fn the_winner_is_the_first_entry_whose_running_sum_exceeds_the_draw() {
    let probabilities = [7000u32, 2000, 1000];
    assert_eq!(select_winning_item_index(&probabilities, 0), Ok(0));
    assert_eq!(select_winning_item_index(&probabilities, 6999), Ok(0));
    assert_eq!(select_winning_item_index(&probabilities, 7000), Ok(1));
    assert_eq!(select_winning_item_index(&probabilities, 8999), Ok(1));
    assert_eq!(select_winning_item_index(&probabilities, 9000), Ok(2));
    assert_eq!(select_winning_item_index(&probabilities, 9999), Ok(2));
    assert_eq!(select_winning_item_index(&probabilities, 10_000), Ok(0));
    assert_eq!(select_winning_item_index(&probabilities, u64::MAX), Ok(0));
}

#[test]
fn selection_is_deterministic() {
    let probabilities = [9086u32, 813, 101];
    for seed in [0u64, 1, 9085, 9086, 9999, 123_456_789, u64::MAX] {
        let first = select_winning_item_index(&probabilities, seed);
        let second = select_winning_item_index(&probabilities, seed);
        assert_eq!(first, second);
        assert!(first.is_ok());
    }
}

#[test]
fn ten_thousand_seeds_match_the_probabilities() {
    let probabilities = [7000u32, 2000, 1000];
    let mut results = [0u32; 3];
    for seed in 0..10_000u64 {
        let winner = select_winning_item_index(&probabilities, seed).unwrap();
        results[winner] += 1;
    }
    assert_eq!(results, [7000, 2000, 1000]);
    assert!(results[0] > 6650 && results[0] < 7350);
    assert!(results[1] > 1900 && results[1] < 2100);
    assert!(results[2] > 950 && results[2] < 1050);
}

#[test]
fn scattered_seeds_stay_within_tolerance() {
    let probabilities = [7000u32, 2000, 1000];
    let mut results = [0u32; 3];
    let mut seed: u64 = 0x9E37_79B9_7F4A_7C15;
    for _ in 0..10_000 {
        seed ^= seed << 13;
        seed ^= seed >> 7;
        seed ^= seed << 17;
        let winner = select_winning_item_index(&probabilities, seed).unwrap();
        results[winner] += 1;
    }
    assert!(results[0] > 6650 && results[0] < 7350);
    assert!(results[1] > 1800 && results[1] < 2200);
    assert!(results[2] > 850 && results[2] < 1150);
}

#[test]
fn entries_of_zero_are_never_selected() {
    let probabilities = [0u32, 5, 0, 5];
    for seed in 0..100u64 {
        let winner = select_winning_item_index(&probabilities, seed).unwrap();
        assert!(winner == 1 || winner == 3);
    }
    assert_eq!(select_winning_item_index(&probabilities, 7), Ok(3));
    assert_eq!(select_winning_item_index(&probabilities, 4), Ok(1));
    assert_eq!(select_winning_item_index(&probabilities, 5), Ok(3));
}

#[test]
fn no_available_items_is_refused() {
    assert_eq!(
        select_winning_item_index(&[], 42),
        Err(ProbabilityError::NoAvailableItems)
    );
    assert_eq!(
        select_winning_item_index(&[0, 0, 0], 42),
        Err(ProbabilityError::NoAvailableItems)
    );
}

#[test]
fn large_probabilities_do_not_overflow() {
    let probabilities = [u32::MAX, u32::MAX, u32::MAX];
    assert_eq!(sum_probabilities(&probabilities), 3 * (u32::MAX as u128));
    assert_eq!(select_winning_item_index(&probabilities, u32::MAX as u64), Ok(1));
    assert_eq!(select_winning_item_index(&probabilities, u32::MAX as u64 - 1), Ok(0));
}
