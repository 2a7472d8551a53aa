use vstd::prelude::*;
use crate::game::GameState;

verus! {

/// Relies on std's `io::Error` only as an opaque value carried inside
/// `GameError::IoError`.
#[verifier::external_type_specification]
#[verifier::external_body]
pub struct ExIoError(std::io::Error);

/// Everything that can go wrong around a table.
#[derive(Debug)]
pub enum GameError {
    InvalidBet(String),
    InsufficientChips { needed: u32, available: u32 },
    InvalidGameState { current: GameState, expected: GameState },
    InvalidAction(String),
    PlayerNotFound(String),
    InvalidCardCount(usize),
    CardNotFound(String),
    InvalidDraw(String),
    GameFull { max: usize, attempted: String },
    InvalidJokerCount(u32),
    EmptyDeck,
    RoundInProgress,
    NoRoundInProgress,
    PlayerNotInRound(String),
    BetOutOfRange { min: u32, max: u32, attempted: u32 },
    IoError(std::io::Error),
}

pub type GameResult<T> = Result<T, GameError>;

impl GameError {
    /// Errors after which the game cannot go on: I/O failures and an empty
    /// deck.
    pub fn is_fatal(&self) -> (r: bool)
        ensures
            r == (self is IoError || self is EmptyDeck),
    {
        matches!(self, GameError::IoError(_) | GameError::EmptyDeck)
    }

    /// Errors a player can recover from by choosing again: a bad bet, too few
    /// chips, or a bad action.
    pub fn can_retry(&self) -> (r: bool)
        ensures
            r == (self is InvalidBet || self is InsufficientChips || self is InvalidAction),
    {
        matches!(
            self,
            GameError::InvalidBet(_) | GameError::InsufficientChips { .. } | GameError::InvalidAction(_)
        )
    }
}

} // verus!
