use mancala::{sow, Player};

fn board_with(pits: &[(usize, u32)]) -> Vec<u32> {
    let mut counts = vec![0u32; 14];
    for &(i, c) in pits {
        counts[i] = c;
    }
    counts
}

#[test]
fn sow_six_from_pit_zero_reaches_own_store() {
    let mut counts = board_with(&[(0, 6)]);
    let (landing, trace) = sow(&mut counts, 0, Player::One);
    assert_eq!(landing, 6);
    assert_eq!(trace.0, vec![0, 1, 2, 3, 4, 5, 6]);
    assert_eq!(counts, vec![0, 1, 1, 1, 1, 1, 1, 0, 0, 0, 0, 0, 0, 0]);
}

#[test]
fn thirteen_stones_skip_opponent_store_once() {
    let mut counts = board_with(&[(0, 13)]);
    let (landing, trace) = sow(&mut counts, 0, Player::One);
    assert_eq!(landing, 0);
    assert_eq!(trace.0, vec![0, 1, 2, 3, 4, 5, 6, 7, 8, 9, 10, 11, 12, 0]);
    assert_eq!(counts[13], 0);
    for i in 0..13 {
        assert_eq!(counts[i], 1);
    }
}

#[test]
fn thirteen_stones_for_player_two() {
    let mut counts = board_with(&[(7, 13)]);
    let (landing, trace) = sow(&mut counts, 7, Player::Two);
    assert_eq!(landing, 7);
    assert_eq!(trace.0, vec![7, 8, 9, 10, 11, 12, 13, 0, 1, 2, 3, 4, 5, 7]);
    assert_eq!(counts[6], 0);
    for i in (0..14).filter(|&i| i != 6) {
        assert_eq!(counts[i], 1);
    }
}

#[test]
fn two_laps_skip_opponent_store_twice() {
    let mut counts = board_with(&[(3, 27)]);
    let (landing, trace) = sow(&mut counts, 3, Player::One);
    assert_eq!(trace.0.len(), 28);
    assert_eq!(trace.0.iter().filter(|&&i| i == 13).count(), 0);
    assert_eq!(counts[13], 0);
    assert_eq!(counts[3], 2);
    assert_eq!(counts[4], 3);
    assert_eq!(counts[5], 2);
    assert_eq!(landing, 4);
    assert_eq!(counts.iter().sum::<u32>(), 27);
}

#[test]
fn player_two_sows_through_own_store_and_skips_store_one() {
    let mut counts = board_with(&[(12, 9)]);
    let (landing, trace) = sow(&mut counts, 12, Player::Two);
    assert_eq!(trace.0, vec![12, 13, 0, 1, 2, 3, 4, 5, 7, 8]);
    assert_eq!(landing, 8);
    assert_eq!(counts[6], 0);
    assert_eq!(counts[13], 1);
}

#[test]
fn sow_of_one_stone_moves_one_pit() {
    let mut counts = board_with(&[(4, 1), (5, 2)]);
    let (landing, trace) = sow(&mut counts, 4, Player::One);
    assert_eq!(landing, 5);
    assert_eq!(trace.0, vec![4, 5]);
    assert_eq!(counts[4], 0);
    assert_eq!(counts[5], 3);
}
