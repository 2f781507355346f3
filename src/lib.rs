//! Dice-gambling rounds keyed by chat room: a per-room game engine that
//! resolves a winner and a loser by extremal rolls with tie-break rerolls,
//! and a registry that owns at most one game per room.

pub mod error;
pub mod gamble_classic;
pub mod gamble_game;
pub mod gamble_game_manager;
pub mod utils;

pub use error::{GameError, GameStatus};
pub use gamble_classic::{GambleClassic, GameView};
pub use gamble_game::GambleGame;
pub use gamble_game_manager::{parse_stake, GGMResponse, GambleGameManager, HELP};
pub use utils::{
    build_matched_roll_message, fmt_amount, map_game_error_to_discord_message,
    map_ggm_response_to_discord_message,
};
