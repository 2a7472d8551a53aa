//! A joker-aware poker hand evaluator, with the card, deck, player and game
//! bookkeeping around it.

pub mod card;
pub mod deck;
pub mod error;
pub mod game;
pub mod hand;
pub mod laws;
pub mod player;

pub use card::{Card, Rank, Suit};
pub use deck::Deck;
pub use error::{GameError, GameResult};
pub use game::Game;
pub use hand::{Hand, HandRank};
pub use player::Player;
