use vstd::prelude::*;
use crate::card::Card;
use crate::deck::{fresh_deck, Deck};
use crate::hand::{hand_value, Hand};
use crate::player::{Player, INSUFFICIENT_CHIPS};

verus! {

/// Error returned for a bet under the table minimum.
pub const BELOW_MINIMUM: &'static str = "Bet is below minimum";

/// Cards dealt to each player at the start of a round.
pub const HAND_SIZE: usize = 5;

/// Phase of a round.
#[derive(Debug, Clone, Copy, PartialEq, Eq, Structural)]
pub enum GameState {
    Betting,
    Drawing,
    ShowDown,
    GameOver,
}

/// What the player whose turn it is does in a betting round.
#[derive(Debug, Clone, Copy, PartialEq, Eq, Structural)]
pub enum BetChoice {
    /// Match the current bet; a player who cannot afford it folds.
    Call,
    /// Bet the given amount, which becomes the current bet.
    Raise(u32),
    Fold,
}

/// Progress of a betting round: the bet to match and how many players have
/// acted.
#[derive(Debug, Clone, Copy, PartialEq, Eq, Structural)]
pub struct BettingRound {
    pub current_bet: u32,
    pub players_acted: usize,
}

/// A table: players, the deck, the pot and the phase of the round.
pub struct Game {
    deck: Deck,
    players: Vec<Player>,
    pot: u32,
    current_player: usize,
    state: GameState,
    min_bet: u32,
    num_jokers: u32,
}

/// Number of players still in the round.
pub open spec fn count_in_round(players: Seq<Player>) -> nat
    decreases players.len(),
{
    if players.len() == 0 {
        0
    } else {
        count_in_round(players.drop_last()) + if players.last().in_round {
            1nat
        } else {
            0nat
        }
    }
}

/// A player who takes part in the showdown: still in the round, with a hand.
pub open spec fn contends(p: Player) -> bool {
    p.in_round && p.hand.is_some()
}

/// Strength of a contending player's hand.
pub open spec fn hand_level(p: Player) -> int {
    hand_value(p.hand.unwrap().cards@).level()
}

/// The strongest hand level among the contenders, 0 when there are none.
pub open spec fn best_level(players: Seq<Player>) -> int
    decreases players.len(),
{
    if players.len() == 0 {
        0
    } else {
        let b = best_level(players.drop_last());
        let p = players.last();
        if contends(p) && hand_level(p) > b {
            hand_level(p)
        } else {
            b
        }
    }
}

/// Player `i` wins the showdown: a contender with the strongest hand.
pub open spec fn wins_showdown(players: Seq<Player>, i: int) -> bool {
    contends(players[i]) && hand_level(players[i]) == best_level(players)
}

/// The table after the player whose turn it is makes `choice` in `round`, the
/// bet that then stands, and the turn passing to the next player.
pub open spec fn after_turn(g: GameView, round: BettingRound, choice: BetChoice) -> (GameView,
    BettingRound) {
    let cur = g.current_player as int;
    let p = g.players[cur];
    let next = ((g.current_player + 1) % (g.players.len() as int)) as usize;
    let acted = (round.players_acted + 1) as usize;
    let (players, pot, bet) = match choice {
        BetChoice::Call => if round.current_bet <= p.chips {
            (
                g.players.update(cur, Player { chips: (p.chips - round.current_bet) as u32, ..p }),
                (g.pot + round.current_bet) as u32,
                round.current_bet,
            )
        } else {
            (g.players.update(cur, Player { in_round: false, ..p }), g.pot, round.current_bet)
        },
        BetChoice::Raise(amount) => if amount <= p.chips {
            (
                g.players.update(cur, Player { chips: (p.chips - amount) as u32, ..p }),
                (g.pot + amount) as u32,
                amount,
            )
        } else {
            (g.players, g.pot, round.current_bet)
        },
        BetChoice::Fold => (
            g.players.update(cur, Player { in_round: false, ..p }),
            g.pot,
            round.current_bet,
        ),
    };
    (
        GameView { players, pot, current_player: next, ..g },
        BettingRound { current_bet: bet, players_acted: acted },
    )
}

/// Each player, still named and holding the same chips and statistics, is in
/// the round with the five cards of `cards` that start at five times its
/// position.
pub open spec fn dealt_from(old_players: Seq<Player>, new_players: Seq<Player>, cards: Seq<Card>) -> bool {
    &&& new_players.len() == old_players.len()
    &&& forall|i: int|
        0 <= i < old_players.len() ==> {
            let o = old_players[i];
            let n = #[trigger] new_players[i];
            &&& n.name == o.name
            &&& n.chips == o.chips
            &&& n.wins == o.wins
            &&& n.hands_played == o.hands_played
            &&& n.in_round
            &&& n.hand.is_some()
            &&& n.hand.unwrap().cards@ == cards.subrange(5 * i, 5 * i + 5)
        }
}

/// The strength of a player's hand when the player contends in the showdown.
fn contender_level(p: &Player) -> (r: Option<u8>)
    ensures
        contends(*p) ==> r == Some(hand_level(*p) as u8) && 0 <= hand_level(*p) <= 10,
        !contends(*p) ==> r.is_none(),
{
    if p.in_round {
        match &p.hand {
            Some(h) => Some(h.evaluate().strength()),
            None => None,
        }
    } else {
        None
    }
}

/// The state of a table as the contracts see it.
pub ghost struct GameView {
    pub deck: Seq<Card>,
    pub players: Seq<Player>,
    pub pot: u32,
    pub current_player: usize,
    pub state: GameState,
    pub min_bet: u32,
    pub num_jokers: u32,
}

impl View for Game {
    type V = GameView;

    closed spec fn view(&self) -> GameView {
        GameView {
            deck: self.deck@,
            players: self.players@,
            pot: self.pot,
            current_player: self.current_player,
            state: self.state,
            min_bet: self.min_bet,
            num_jokers: self.num_jokers,
        }
    }
}

impl Game {
    /// A table with one player per name, each holding `starting_chips`, a
    /// fresh deck, an empty pot, and the first player to act.
    pub fn new(player_names: Vec<String>, starting_chips: u32, min_bet: u32, num_jokers: u32) -> (g:
        Game)
        ensures
            g@.players.len() == player_names@.len(),
            forall|i: int|
                0 <= i < player_names@.len() ==> {
                    let p = #[trigger] g@.players[i];
                    &&& p.name@ == player_names@[i]@
                    &&& p.chips == starting_chips
                    &&& p.hand.is_none()
                    &&& p.in_round
                    &&& p.wins == 0
                    &&& p.hands_played == 0
                },
            g@.deck == fresh_deck(num_jokers as nat),
            g@.pot == 0,
            g@.current_player == 0,
            g@.state == GameState::Betting,
            g@.min_bet == min_bet,
            g@.num_jokers == num_jokers,
    {
        let mut players: Vec<Player> = Vec::new();
        let mut i: usize = 0;
        while i < player_names.len()
            invariant
                i <= player_names@.len(),
                players@.len() == i,
                forall|k: int|
                    0 <= k < i ==> {
                        let p = #[trigger] players@[k];
                        &&& p.name@ == player_names@[k]@
                        &&& p.chips == starting_chips
                        &&& p.hand.is_none()
                        &&& p.in_round
                        &&& p.wins == 0
                        &&& p.hands_played == 0
                    },
            decreases player_names@.len() - i,
        {
            let name = player_names[i].clone();
            players.push(Player::new(name, starting_chips));
            i += 1;
        }
        Game {
            deck: Deck::new(num_jokers),
            players,
            pot: 0,
            current_player: 0,
            state: GameState::Betting,
            min_bet,
            num_jokers,
        }
    }

    pub fn get_players(&self) -> (r: &Vec<Player>)
        ensures
            r@ == self@.players,
    {
        &self.players
    }

    /// Mutable access to the players; the rest of the table is unchanged.
    pub fn get_players_mut(&mut self) -> (r: &mut Vec<Player>)
        ensures
            r@ == old(self)@.players,
            final(self)@ == (GameView { players: final(r)@, ..old(self)@ }),
    {
        &mut self.players
    }

    pub fn get_min_bet(&self) -> (r: u32)
        ensures
            r == self@.min_bet,
    {
        self.min_bet
    }

    pub fn get_state(&self) -> (r: &GameState)
        ensures
            *r == self@.state,
    {
        &self.state
    }

    /// Seat of the player whose turn it is.
    pub fn get_current_player(&self) -> (r: usize)
        ensures
            r == self@.current_player,
    {
        self.current_player
    }

    pub fn get_pot(&self) -> (r: u32)
        ensures
            r == self@.pot,
    {
        self.pot
    }

    pub fn is_game_over(&self) -> (r: bool)
        ensures
            r == (self@.state == GameState::GameOver),
    {
        match self.state {
            GameState::GameOver => true,
            _ => false,
        }
    }

    pub fn set_game_state(&mut self, state: GameState)
        ensures
            final(self)@ == (GameView { state, ..old(self)@ }),
    {
        self.state = state;
    }

    pub fn set_pot(&mut self, pot: u32)
        ensures
            final(self)@ == (GameView { pot, ..old(self)@ }),
    {
        self.pot = pot;
    }

    /// Gives the player at `player_idx` the hand `hand`.
    pub fn set_player_hand(&mut self, player_idx: usize, hand: Hand)
        requires
            player_idx < old(self)@.players.len(),
        ensures
            final(self)@ == (GameView {
                players: old(self)@.players.update(
                    player_idx as int,
                    Player { hand: Some(hand), ..old(self)@.players[player_idx as int] },
                ),
                ..old(self)@
            }),
    {
        self.players[player_idx].hand = Some(hand);
    }

    /// Takes the player at `player_idx` out of the round.
    pub fn test_fold_player(&mut self, player_idx: usize)
        requires
            player_idx < old(self)@.players.len(),
        ensures
            final(self)@ == (GameView {
                players: old(self)@.players.update(
                    player_idx as int,
                    Player { in_round: false, ..old(self)@.players[player_idx as int] },
                ),
                ..old(self)@
            }),
    {
        self.players[player_idx].in_round = false;
    }

    fn place_bet(&mut self, player_idx: usize, amount: u32) -> (r: Result<u32, &'static str>)
        requires
            player_idx < old(self)@.players.len(),
        ensures
            ({
                let p = old(self)@.players[player_idx as int];
                &&& amount <= p.chips ==> r == Ok::<u32, &'static str>(amount) && final(self)@ == (
                GameView {
                    players: old(self)@.players.update(
                        player_idx as int,
                        Player { chips: (p.chips - amount) as u32, ..p },
                    ),
                    ..old(self)@
                })
                &&& amount > p.chips ==> r == Err::<u32, &'static str>(INSUFFICIENT_CHIPS)
                    && final(self)@ == old(self)@
            }),
    {
        let r = self.players[player_idx].place_bet(amount);
        proof {
            if amount <= old(self)@.players[player_idx as int].chips {
                assert(self@.players =~= old(self)@.players.update(
                    player_idx as int,
                    Player {
                        chips: (old(self)@.players[player_idx as int].chips - amount) as u32,
                        ..old(self)@.players[player_idx as int]
                    },
                ));
            } else {
                assert(self@.players =~= old(self)@.players);
            }
        }
        r
    }

    /// A bet by the player at `player_idx` into the pot. It must reach the
    /// table minimum and not exceed the player's chips; a refused bet changes
    /// nothing.
    pub fn test_place_bet(&mut self, player_idx: usize, amount: u32) -> (r: Result<u32, &'static str>)
        requires
            player_idx < old(self)@.players.len(),
            old(self)@.pot + amount <= u32::MAX,
        ensures
            ({
                let p = old(self)@.players[player_idx as int];
                &&& amount < old(self)@.min_bet ==> r == Err::<u32, &'static str>(BELOW_MINIMUM)
                    && final(self)@ == old(self)@
                &&& old(self)@.min_bet <= amount && amount > p.chips ==> r == Err::<
                    u32,
                    &'static str,
                >(INSUFFICIENT_CHIPS) && final(self)@ == old(self)@
                &&& old(self)@.min_bet <= amount <= p.chips ==> r == Ok::<u32, &'static str>(amount)
                    && final(self)@ == (GameView {
                    players: old(self)@.players.update(
                        player_idx as int,
                        Player { chips: (p.chips - amount) as u32, ..p },
                    ),
                    pot: (old(self)@.pot + amount) as u32,
                    ..old(self)@
                })
            }),
    {
        if amount < self.min_bet {
            return Err(BELOW_MINIMUM);
        }
        let r = self.place_bet(player_idx, amount);
        if let Ok(bet) = r {
            self.pot = self.pot + bet;
        }
        r
    }

    /// Moves the whole pot to the player at `player_idx`.
    pub fn distribute_pot_to_player(&mut self, player_idx: usize)
        requires
            player_idx < old(self)@.players.len(),
            old(self)@.players[player_idx as int].chips + old(self)@.pot <= u32::MAX,
        ensures
            final(self)@ == (GameView {
                players: old(self)@.players.update(
                    player_idx as int,
                    Player {
                        chips: (old(self)@.players[player_idx as int].chips + old(self)@.pot) as u32,
                        ..old(self)@.players[player_idx as int]
                    },
                ),
                pot: 0,
                ..old(self)@
            }),
    {
        let pot = self.pot;
        self.players[player_idx].add_chips(pot);
        self.pot = 0;
        proof {
            assert(self@.players =~= old(self)@.players.update(
                player_idx as int,
                Player {
                    chips: (old(self)@.players[player_idx as int].chips + old(self)@.pot) as u32,
                    ..old(self)@.players[player_idx as int]
                },
            ));
        }
    }

    /// Passes the turn to the next seat, wrapping after the last.
    pub fn next_player(&mut self)
        requires
            old(self)@.current_player < old(self)@.players.len(),
        ensures
            final(self)@ == (GameView {
                current_player: ((old(self)@.current_player + 1) % (old(self)@.players.len() as int)) as usize,
                ..old(self)@
            }),
    {
        let n = self.players.len();
        self.current_player = (self.current_player + 1) % n;
    }

    /// Number of players still in the round.
    pub fn active_players_count(&self) -> (r: usize)
        ensures
            r == count_in_round(self@.players),
    {
        let mut n: usize = 0;
        let mut i: usize = 0;
        while i < self.players.len()
            invariant
                i <= self@.players.len(),
                n == count_in_round(self@.players.take(i as int)),
                n <= i,
            decreases self@.players.len() - i,
        {
            proof {
                assert(self@.players.take(i + 1).drop_last() =~= self@.players.take(i as int));
            }
            if self.players[i].in_round {
                n += 1;
            }
            i += 1;
        }
        proof {
            assert(self@.players.take(i as int) =~= self@.players);
        }
        n
    }

    /// Installs `deck`, empties the pot, opens the betting, and deals five
    /// cards from the top of the deck to each player in seat order, putting
    /// every player back in the round.
    fn begin_round(&mut self, deck: Deck)
        requires
            deck@.len() >= HAND_SIZE * old(self)@.players.len(),
        ensures
            dealt_from(old(self)@.players, final(self)@.players, deck@),
            final(self)@.deck == deck@.skip(5 * (old(self)@.players.len() as int)),
            final(self)@.pot == 0,
            final(self)@.state == GameState::Betting,
            final(self)@.current_player == old(self)@.current_player,
            final(self)@.min_bet == old(self)@.min_bet,
            final(self)@.num_jokers == old(self)@.num_jokers,
    {
        let ghost cards = deck@;
        let ghost before = self@.players;
        self.deck = deck;
        self.pot = 0;
        self.state = GameState::Betting;
        let n = self.players.len();
        let mut i: usize = 0;
        while i < n
            invariant
                i <= n,
                n == before.len(),
                self@.players.len() == n,
                cards.len() >= 5 * n,
                self.deck@ == cards.skip(5 * i),
                self@.pot == 0,
                self@.state == GameState::Betting,
                self@.current_player == old(self)@.current_player,
                self@.min_bet == old(self)@.min_bet,
                self@.num_jokers == old(self)@.num_jokers,
                forall|k: int| i <= k < n ==> #[trigger] self@.players[k] == before[k],
                forall|k: int|
                    0 <= k < i ==> {
                        let o = before[k];
                        let p = #[trigger] self@.players[k];
                        &&& p.name == o.name
                        &&& p.chips == o.chips
                        &&& p.wins == o.wins
                        &&& p.hands_played == o.hands_played
                        &&& p.in_round
                        &&& p.hand.is_some()
                        &&& p.hand.unwrap().cards@ == cards.subrange(5 * k, 5 * k + 5)
                    },
            decreases n - i,
        {
            let hand = self.deck.deal(HAND_SIZE);
            proof {
                assert(hand.cards@ =~= cards.subrange(5 * i, 5 * i + 5));
                assert(self.deck@ =~= cards.skip(5 * (i + 1)));
            }
            self.players[i].hand = Some(hand);
            self.players[i].in_round = true;
            i += 1;
        }
    }

    /// Starts a round from an unshuffled fresh deck: empty pot, betting open,
    /// every player in the round with the next five cards.
    pub fn setup_test_round(&mut self)
        requires
            HAND_SIZE * old(self)@.players.len() <= 52 + old(self)@.num_jokers,
        ensures
            dealt_from(old(self)@.players, final(self)@.players, fresh_deck(old(self)@.num_jokers as nat)),
            final(self)@.deck == fresh_deck(old(self)@.num_jokers as nat).skip(
                5 * (old(self)@.players.len() as int),
            ),
            final(self)@.pot == 0,
            final(self)@.state == GameState::Betting,
            final(self)@.current_player == old(self)@.current_player,
            final(self)@.min_bet == old(self)@.min_bet,
            final(self)@.num_jokers == old(self)@.num_jokers,
    {
        let deck = Deck::new(self.num_jokers);
        self.begin_round(deck);
    }

    /// Starts a round from a freshly shuffled deck: empty pot, betting open,
    /// every player in the round with the next five cards of that deck.
    pub fn deal_round(&mut self)
        requires
            HAND_SIZE * old(self)@.players.len() <= 52 + old(self)@.num_jokers,
        ensures
            exists|d: Seq<Card>|
                {
                    &&& d.to_multiset() == fresh_deck(old(self)@.num_jokers as nat).to_multiset()
                    &&& d.len() == 52 + old(self)@.num_jokers
                    &&& #[trigger] dealt_from(old(self)@.players, final(self)@.players, d)
                    &&& final(self)@.deck == d.skip(5 * (old(self)@.players.len() as int))
                },
            final(self)@.pot == 0,
            final(self)@.state == GameState::Betting,
            final(self)@.current_player == old(self)@.current_player,
            final(self)@.min_bet == old(self)@.min_bet,
            final(self)@.num_jokers == old(self)@.num_jokers,
    {
        let mut deck = Deck::new(self.num_jokers);
        deck.shuffle();
        let ghost d = deck@;
        self.begin_round(deck);
        assert(dealt_from(old(self)@.players, self@.players, d));
    }

    /// A betting round that asks for the table minimum and in which nobody has
    /// acted yet.
    pub fn start_betting(&self) -> (r: BettingRound)
        ensures
            r == (BettingRound { current_bet: self@.min_bet, players_acted: 0 }),
    {
        BettingRound { current_bet: self.min_bet, players_acted: 0 }
    }

    /// The round is over once as many players have acted as are still in it.
    pub fn betting_over(&self, round: &BettingRound) -> (r: bool)
        ensures
            r == (round.players_acted >= count_in_round(self@.players)),
    {
        round.players_acted >= self.active_players_count()
    }

    /// Whether the player whose turn it is still has to act (has not folded).
    pub fn current_must_act(&self) -> (r: bool)
        requires
            self@.current_player < self@.players.len(),
        ensures
            r == self@.players[self@.current_player as int].in_round,
    {
        self.players[self.current_player].in_round
    }

    /// Applies `choice` for the player whose turn it is, then passes the turn.
    pub fn take_turn(&mut self, round: BettingRound, choice: BetChoice) -> (r: BettingRound)
        requires
            old(self)@.current_player < old(self)@.players.len(),
            old(self)@.pot + old(self)@.players[old(self)@.current_player as int].chips <= u32::MAX,
            round.players_acted < usize::MAX,
        ensures
            (final(self)@, r) == after_turn(old(self)@, round, choice),
    {
        let cur = self.current_player;
        let mut bet = round.current_bet;
        match choice {
            BetChoice::Call => {
                match self.place_bet(cur, round.current_bet) {
                    Ok(b) => {
                        self.pot = self.pot + b;
                    },
                    Err(_) => {
                        self.players[cur].in_round = false;
                    },
                }
            },
            BetChoice::Raise(amount) => {
                if let Ok(b) = self.place_bet(cur, amount) {
                    self.pot = self.pot + b;
                    bet = amount;
                }
            },
            BetChoice::Fold => {
                self.players[cur].in_round = false;
            },
        }
        self.next_player();
        let r = BettingRound { current_bet: bet, players_acted: round.players_acted + 1 };
        proof {
            let (v, rr) = after_turn(old(self)@, round, choice);
            assert(self@.players =~= v.players);
        }
        r
    }

    /// The showdown: the contenders with the strongest hand share the pot
    /// equally, in seat order; what an uneven split leaves stays in the pot.
    /// Returns the winners' seats in increasing order. Nobody is paid when no
    /// player contends.
    pub fn finish_round(&mut self) -> (winners: Vec<usize>)
        requires
            forall|i: int|
                0 <= i < old(self)@.players.len() ==> #[trigger] old(self)@.players[i].chips
                    + old(self)@.pot <= u32::MAX,
        ensures
            forall|k: int|
                0 <= k < winners@.len() ==> winners@[k] < old(self)@.players.len()
                    && wins_showdown(old(self)@.players, #[trigger] winners@[k] as int),
            forall|k1: int, k2: int|
                0 <= k1 < k2 < winners@.len() ==> winners@[k1] < winners@[k2],
            forall|i: int|
                0 <= i < old(self)@.players.len() && wins_showdown(old(self)@.players, i)
                    ==> winners@.contains(i as usize),
            final(self)@.players.len() == old(self)@.players.len(),
            forall|i: int|
                0 <= i < old(self)@.players.len() ==> #[trigger] final(self)@.players[i] == (
                Player {
                    chips: (old(self)@.players[i].chips + if wins_showdown(old(self)@.players, i) {
                        (old(self)@.pot as int) / (winners@.len() as int)
                    } else {
                        0
                    }) as u32,
                    ..old(self)@.players[i]
                }),
            final(self)@.pot as int == (if winners@.len() > 0 {
                (old(self)@.pot as int) % (winners@.len() as int)
            } else {
                old(self)@.pot as int
            }),
            final(self)@.state == GameState::GameOver,
            final(self)@.deck == old(self)@.deck,
            final(self)@.current_player == old(self)@.current_player,
            final(self)@.min_bet == old(self)@.min_bet,
            final(self)@.num_jokers == old(self)@.num_jokers,
    {
        let ghost before = self@.players;
        let n = self.players.len();
        let mut best: u8 = 0;
        let mut i: usize = 0;
        while i < n
            invariant
                i <= n,
                n == before.len(),
                self@.players == before,
                best as int == best_level(before.take(i as int)),
            decreases n - i,
        {
            proof {
                assert(before.take(i + 1).drop_last() =~= before.take(i as int));
            }
            if let Some(level) = contender_level(&self.players[i]) {
                if level > best {
                    best = level;
                }
            }
            i += 1;
        }
        proof {
            assert(before.take(n as int) =~= before);
        }
        let mut winners: Vec<usize> = Vec::new();
        let mut i: usize = 0;
        while i < n
            invariant
                i <= n,
                n == before.len(),
                self@.players == before,
                best as int == best_level(before),
                forall|k: int|
                    0 <= k < winners@.len() ==> winners@[k] < i && wins_showdown(
                        before,
                        #[trigger] winners@[k] as int,
                    ),
                forall|k1: int, k2: int|
                    0 <= k1 < k2 < winners@.len() ==> winners@[k1] < winners@[k2],
                forall|j: int| 0 <= j < i && wins_showdown(before, j) ==> winners@.contains(j as usize),
            decreases n - i,
        {
            let level = contender_level(&self.players[i]);
            let ghost earlier = winners@;
            if level == Some(best) {
                winners.push(i);
                proof {
                    assert(winners@[winners@.len() - 1] == i);
                    assert forall|j: int|
                        0 <= j < i && wins_showdown(before, j) implies winners@.contains(
                        j as usize,
                    ) by {
                        let k = choose|k: int| 0 <= k < earlier.len() && earlier[k] == j as usize;
                        assert(winners@[k] == j as usize);
                    }
                }
            }
            i += 1;
        }
        let w = winners.len();
        if w > 0 {
            let total = self.pot as usize;
            proof {
                assert(total / w <= total) by (nonlinear_arith)
                    requires
                        w >= 1,
                        total >= 0,
                ;
            }
            let share = (total / w) as u32;
            let mut i: usize = 0;
            while i < n
                invariant
                    i <= n,
                    n == before.len(),
                    w == winners@.len(),
                    best as int == best_level(before),
                    share == (self@.pot as int) / (w as int),
                    share <= self@.pot,
                    self@.pot == old(self)@.pot,
                    self@.players.len() == n,
                    before == old(self)@.players,
                    forall|j: int|
                        0 <= j < n ==> #[trigger] before[j].chips + old(self)@.pot <= u32::MAX,
                    forall|k: int| i <= k < n ==> #[trigger] self@.players[k] == before[k],
                    forall|k: int|
                        0 <= k < i ==> #[trigger] self@.players[k] == (Player {
                            chips: (before[k].chips + if wins_showdown(before, k) {
                                share as int
                            } else {
                                0
                            }) as u32,
                            ..before[k]
                        }),
                    self@.deck == old(self)@.deck,
                    self@.current_player == old(self)@.current_player,
                    self@.min_bet == old(self)@.min_bet,
                    self@.num_jokers == old(self)@.num_jokers,
                decreases n - i,
            {
                let level = contender_level(&self.players[i]);
                if level == Some(best) {
                    self.players[i].add_chips(share);
                }
                i += 1;
            }
            proof {
                assert(total % w < w && total % w <= total) by (nonlinear_arith)
                    requires
                        w >= 1,
                        total >= 0,
                ;
            }
            self.pot = (total % w) as u32;
        }
        self.state = GameState::GameOver;
        winners
    }
}

} // verus!
