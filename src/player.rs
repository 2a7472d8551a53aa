use vstd::prelude::*;
use crate::hand::Hand;

verus! {

/// Error returned when a player is asked for more chips than they hold.
pub const INSUFFICIENT_CHIPS: &'static str = "Insufficient chips";

/// A seat at the table: chips, the current hand, and win statistics.
pub struct Player {
    pub name: String,
    pub chips: u32,
    pub hand: Option<Hand>,
    pub in_round: bool,
    pub wins: u32,
    pub hands_played: u32,
}

impl Player {
    /// A player with `starting_chips`, no hand, in the round, no statistics.
    pub fn new(name: String, starting_chips: u32) -> (p: Player)
        ensures
            p.name@ == name@,
            p.chips == starting_chips,
            p.hand.is_none(),
            p.in_round,
            p.wins == 0,
            p.hands_played == 0,
    {
        Player { name, chips: starting_chips, hand: None, in_round: true, wins: 0, hands_played: 0 }
    }

    /// Takes `amount` chips for a bet and returns it; fails, taking nothing,
    /// when the player holds fewer chips.
    pub fn place_bet(&mut self, amount: u32) -> (r: Result<u32, &'static str>)
        ensures
            amount <= old(self).chips ==> r == Ok::<u32, &'static str>(amount) && *final(self) == (
            Player { chips: (old(self).chips - amount) as u32, ..*old(self) }),
            amount > old(self).chips ==> r == Err::<u32, &'static str>(INSUFFICIENT_CHIPS)
                && *final(self) == *old(self),
    {
        if amount > self.chips {
            return Err(INSUFFICIENT_CHIPS);
        }
        self.chips = self.chips - amount;
        Ok(amount)
    }

    pub fn add_chips(&mut self, amount: u32)
        requires
            old(self).chips + amount <= u32::MAX,
        ensures
            *final(self) == (Player { chips: (old(self).chips + amount) as u32, ..*old(self) }),
    {
        self.chips = self.chips + amount;
    }

    /// Takes `amount` chips; fails, taking nothing, when the player holds
    /// fewer chips.
    pub fn remove_chips(&mut self, amount: u32) -> (r: Result<(), &'static str>)
        ensures
            amount <= old(self).chips ==> r == Ok::<(), &'static str>(()) && *final(self) == (
            Player { chips: (old(self).chips - amount) as u32, ..*old(self) }),
            amount > old(self).chips ==> r == Err::<(), &'static str>(INSUFFICIENT_CHIPS)
                && *final(self) == *old(self),
    {
        if amount > self.chips {
            return Err(INSUFFICIENT_CHIPS);
        }
        self.chips = self.chips - amount;
        Ok(())
    }

    pub fn add_win(&mut self)
        requires
            old(self).wins < u32::MAX,
        ensures
            *final(self) == (Player { wins: (old(self).wins + 1) as u32, ..*old(self) }),
    {
        self.wins = self.wins + 1;
    }

    pub fn add_hand_played(&mut self)
        requires
            old(self).hands_played < u32::MAX,
        ensures
            *final(self) == (Player { hands_played: (old(self).hands_played + 1) as u32, ..*old(self) }),
    {
        self.hands_played = self.hands_played + 1;
    }

    pub fn get_wins(&self) -> (r: u32)
        ensures
            r == self.wins,
    {
        self.wins
    }

    pub fn get_hands_played(&self) -> (r: u32)
        ensures
            r == self.hands_played,
    {
        self.hands_played
    }
}

} // verus!
