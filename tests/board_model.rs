use mancala::{Board, CurrentPlayer, GameMode, Player, LENGTH, SLOT_START_AMOUNT, STORE_1, STORE_2};

#[test]
fn new_board_has_six_per_pit_and_empty_stores() {
    let board = Board::new();
    assert_eq!(board.counts.len(), LENGTH);
    for i in 0..LENGTH {
        if i == STORE_1 || i == STORE_2 {
            assert_eq!(board.counts[i], 0);
        } else {
            assert_eq!(board.counts[i], SLOT_START_AMOUNT);
        }
    }
    assert_eq!(board.counts.iter().sum::<u32>(), 72);
}

#[test]
fn stores_are_six_and_thirteen() {
    let stores: Vec<usize> = (0..LENGTH).filter(|&i| Board::is_store(i)).collect();
    assert_eq!(stores, vec![6, 13]);
    assert_eq!(Board::get_store(Player::One), 6);
    assert_eq!(Board::get_store(Player::Two), 13);
}

#[test]
fn owner_splits_at_store_one() {
    for i in 0..=6 {
        assert_eq!(Board::owner(i), Player::One);
    }
    for i in 7..14 {
        assert_eq!(Board::owner(i), Player::Two);
    }
}

#[test]
fn pit_ranges_exclude_stores() {
    assert_eq!(Board::get_slots(Player::One), 0..6);
    assert_eq!(Board::get_slots(Player::Two), 7..13);
}

#[test]
fn opposite_pits_mirror_the_board() {
    assert_eq!(Board::opposite(0), 12);
    assert_eq!(Board::opposite(2), 10);
    assert_eq!(Board::opposite(5), 7);
    assert_eq!(Board::opposite(7), 5);
    assert_eq!(Board::opposite(12), 0);
}

#[test]
fn slot_order_mirrors_first_half() {
    assert_eq!(
        Board::slot_order(),
        vec![6, 5, 4, 3, 2, 1, 0, 7, 8, 9, 10, 11, 12, 13]
    );
}

#[test]
fn player_flip_and_names() {
    assert_eq!(Player::One.flip(), Player::Two);
    assert_eq!(Player::Two.flip(), Player::One);
    assert_eq!(Player::One.to_string(), "PLAYER 1");
    assert_eq!(Player::Two.to_string(), "PLAYER 2");
    assert_eq!(Player::iter(), vec![Player::One, Player::Two]);
    assert_eq!(Player::default(), Player::One);
}

#[test]
fn current_player_flips_back_and_forth() {
    let mut current = CurrentPlayer::default();
    assert_eq!(current.0, Player::One);
    current.flip();
    assert_eq!(current.0, Player::Two);
    current.flip();
    assert_eq!(current.0, Player::One);
}

#[test]
fn game_mode_names() {
    assert_eq!(GameMode::Avalanche.to_string(), "AVALANCHE");
    assert_eq!(GameMode::Capture.to_string(), "CAPTURE");
    assert_eq!(GameMode::iter(), vec![GameMode::Avalanche, GameMode::Capture]);
    assert_eq!(GameMode::default(), GameMode::Avalanche);
}
