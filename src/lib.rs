//! A two-player Mancala engine with two rule variants, Avalanche and Capture.
//!
//! The board is a ring of fourteen pit counts. The engine sows stones around
//! the ring, decides after each sow whether the turn repeats, continues or
//! ends, executes captures, and detects the end of the game.

pub mod ai;
pub mod board;
pub mod menu;
pub mod game_over;
pub mod player;
pub mod sow;
pub mod turn;

pub use board::{Board, LENGTH, SLOT_START_AMOUNT, STORE_1, STORE_2};
pub use player::{CurrentPlayer, GameMode, Player};
pub use sow::{sow, MoveEvent};
pub use turn::{handle_move, handle_move_end, CaptureEvent, MoveEndAction, MoveOutcome};
pub use game_over::{capture_side, check_game_over, GameOverEvent, Winner};
pub use ai::{ai_choice, ai_to_move, playable_pits, AiPlayer, AI_NAME};
pub use menu::{ai_seat, Profile, Profiles, Selected};
