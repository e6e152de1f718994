use mancala::{
    handle_move, handle_move_end, Board, CurrentPlayer, GameMode, MoveEndAction, Player,
};

fn board_with(pits: &[(usize, u32)]) -> Board {
    let mut counts = vec![0u32; 14];
    for &(i, c) in pits {
        counts[i] = c;
    }
    Board { counts }
}

fn total(board: &Board) -> u32 {
    board.counts.iter().sum()
}

#[test]
fn opening_move_into_own_store_continues() {
    let mut board = Board::new();
    let mut current = CurrentPlayer(Player::One);
    let outcome = handle_move(&mut board, GameMode::Avalanche, &mut current, 0).unwrap();
    assert_eq!(outcome.action, MoveEndAction::Continue);
    assert_eq!(current.0, Player::One);
    assert_eq!(outcome.moves.len(), 1);
    assert_eq!(outcome.moves[0].0, vec![0, 1, 2, 3, 4, 5, 6]);
    assert!(outcome.capture.is_none());
    assert_eq!(board.counts[0], 0);
    for i in 1..=5 {
        assert_eq!(board.counts[i], 7);
    }
    assert_eq!(board.counts[6], 1);
    assert_eq!(total(&board), 72);
}

#[test]
fn landing_in_own_store_keeps_the_turn_in_capture_mode() {
    let mut board = board_with(&[(9, 4), (2, 3)]);
    let mut current = CurrentPlayer(Player::Two);
    let outcome = handle_move(&mut board, GameMode::Capture, &mut current, 9).unwrap();
    assert_eq!(outcome.action, MoveEndAction::Continue);
    assert_eq!(current.0, Player::Two);
    assert_eq!(board.counts[13], 1);
}

#[test]
fn capture_moves_opposite_stones_and_lander_into_store() {
    let mut board = board_with(&[(1, 1), (10, 4), (8, 2)]);
    let mut current = CurrentPlayer(Player::One);
    let outcome = handle_move(&mut board, GameMode::Capture, &mut current, 1).unwrap();
    assert_eq!(outcome.action, MoveEndAction::Continue);
    assert_eq!(current.0, Player::One);
    let capture = outcome.capture.unwrap();
    assert_eq!(capture.slots, vec![2, 10]);
    assert_eq!(capture.store, 6);
    assert_eq!(board.counts[6], 5);
    assert_eq!(board.counts[2], 0);
    assert_eq!(board.counts[10], 0);
    assert_eq!(board.counts[1], 0);
    assert_eq!(total(&board), 7);
}

#[test]
fn no_capture_when_opposite_is_empty() {
    let mut board = board_with(&[(1, 1), (8, 2)]);
    let mut current = CurrentPlayer(Player::One);
    let outcome = handle_move(&mut board, GameMode::Capture, &mut current, 1).unwrap();
    assert_eq!(outcome.action, MoveEndAction::End);
    assert!(outcome.capture.is_none());
    assert_eq!(current.0, Player::Two);
    assert_eq!(board.counts[2], 1);
}

#[test]
fn no_capture_on_opponent_side() {
    let mut board = board_with(&[(5, 2), (4, 3)]);
    let mut current = CurrentPlayer(Player::One);
    let outcome = handle_move(&mut board, GameMode::Capture, &mut current, 5).unwrap();
    assert_eq!(outcome.moves[0].0, vec![5, 6, 7]);
    assert_eq!(outcome.action, MoveEndAction::End);
    assert!(outcome.capture.is_none());
    assert_eq!(board.counts[7], 1);
    assert_eq!(current.0, Player::Two);
}

#[test]
fn avalanche_repeats_from_landing_pit() {
    let mut board = board_with(&[(0, 1), (1, 1), (9, 5)]);
    let mut current = CurrentPlayer(Player::One);
    let outcome = handle_move(&mut board, GameMode::Avalanche, &mut current, 0).unwrap();
    assert_eq!(outcome.moves.len(), 2);
    assert_eq!(outcome.moves[0].0, vec![0, 1]);
    assert_eq!(outcome.moves[1].0, vec![1, 2, 3]);
    assert_eq!(outcome.action, MoveEndAction::End);
    assert_eq!(current.0, Player::Two);
    assert_eq!(board.counts, vec![0, 0, 1, 1, 0, 0, 0, 0, 0, 5, 0, 0, 0, 0]);
}

#[test]
fn avalanche_repeat_ending_in_store_continues() {
    let mut board = board_with(&[(3, 1), (4, 1)]);
    let mut current = CurrentPlayer(Player::One);
    let outcome = handle_move(&mut board, GameMode::Avalanche, &mut current, 3).unwrap();
    assert_eq!(outcome.moves.len(), 2);
    assert_eq!(outcome.moves[1].0, vec![4, 5, 6]);
    assert_eq!(outcome.action, MoveEndAction::Continue);
    assert_eq!(current.0, Player::One);
}

#[test]
fn immediate_end_flips_once_with_one_trace() {
    let mut board = board_with(&[(2, 2), (10, 1)]);
    let mut current = CurrentPlayer(Player::One);
    let outcome = handle_move(&mut board, GameMode::Avalanche, &mut current, 2).unwrap();
    assert_eq!(outcome.moves.len(), 1);
    assert_eq!(outcome.action, MoveEndAction::End);
    assert_eq!(current.0, Player::Two);
}

#[test]
fn empty_pit_is_rejected() {
    let mut board = Board::new();
    board.counts[3] = 0;
    let before = board.counts.clone();
    let mut current = CurrentPlayer(Player::One);
    assert!(handle_move(&mut board, GameMode::Avalanche, &mut current, 3).is_none());
    assert_eq!(board.counts, before);
    assert_eq!(current.0, Player::One);
}

#[test]
fn opponent_pit_is_rejected() {
    let mut board = Board::new();
    let before = board.counts.clone();
    let mut current = CurrentPlayer(Player::One);
    assert!(handle_move(&mut board, GameMode::Capture, &mut current, 8).is_none());
    assert_eq!(board.counts, before);
    assert_eq!(current.0, Player::One);
}

#[test]
fn store_is_rejected() {
    let mut board = board_with(&[(6, 4), (0, 1)]);
    let before = board.counts.clone();
    let mut current = CurrentPlayer(Player::One);
    assert!(handle_move(&mut board, GameMode::Avalanche, &mut current, 6).is_none());
    assert_eq!(board.counts, before);
}

#[test]
fn total_is_kept_over_many_moves() {
    for mode in [GameMode::Avalanche, GameMode::Capture] {
        let mut board = Board::new();
        let mut current = CurrentPlayer::default();
        for turn in 0..60 {
            let range = Board::get_slots(current.0);
            let playable: Vec<usize> = range.filter(|&i| board.counts[i] > 0).collect();
            if playable.is_empty() {
                break;
            }
            let pit = playable[turn % playable.len()];
            let outcome = handle_move(&mut board, mode, &mut current, pit);
            assert!(outcome.is_some());
            assert_eq!(total(&board), 72);
        }
    }
}

#[test]
fn opponent_store_never_grows_on_own_move() {
    let mut board = Board::new();
    let mut current = CurrentPlayer(Player::One);
    board.counts[5] = 20;
    let outcome = handle_move(&mut board, GameMode::Capture, &mut current, 5).unwrap();
    assert_eq!(board.counts[13], 0);
    for m in &outcome.moves {
        assert!(!m.0[1..].contains(&13));
    }
}

#[test]
fn move_end_in_own_store_is_continue() {
    let mut counts = vec![0u32; 14];
    counts[13] = 3;
    let (action, capture) = handle_move_end(13, GameMode::Avalanche, Player::Two, &mut counts);
    assert_eq!(action, MoveEndAction::Continue);
    assert!(capture.is_none());
}

#[test]
fn move_end_capture_for_player_two() {
    let mut counts = vec![0u32; 14];
    counts[8] = 1;
    counts[4] = 6;
    counts[13] = 2;
    let (action, capture) = handle_move_end(8, GameMode::Capture, Player::Two, &mut counts);
    assert_eq!(action, MoveEndAction::Continue);
    let capture = capture.unwrap();
    assert_eq!(capture.slots, vec![8, 4]);
    assert_eq!(capture.store, 13);
    assert_eq!(counts[13], 9);
    assert_eq!(counts[8], 0);
    assert_eq!(counts[4], 0);
}

#[test]
fn move_end_repeat_and_end() {
    let mut counts = vec![0u32; 14];
    counts[3] = 2;
    counts[4] = 1;
    assert_eq!(
        handle_move_end(3, GameMode::Avalanche, Player::One, &mut counts).0,
        MoveEndAction::Repeat
    );
    assert_eq!(
        handle_move_end(4, GameMode::Avalanche, Player::One, &mut counts).0,
        MoveEndAction::End
    );
    assert_eq!(
        handle_move_end(3, GameMode::Capture, Player::One, &mut counts).0,
        MoveEndAction::End
    );
}
