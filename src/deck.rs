use vstd::prelude::*;
use rand::seq::SliceRandom;
use crate::card::{Card, Rank, Suit, NUM_RANKS, NUM_SUITS};
use crate::hand::Hand;

verus! {

/// Number of non-joker cards in a deck.
pub const STANDARD_CARDS: usize = 52;

/// Card `i` (0..52) of a fresh deck: suits in the order Hearts, Diamonds,
/// Clubs, Spades, and within each suit the ranks from Two to Ace.
pub open spec fn standard_card(i: int) -> Card {
    Card { rank: Rank::at(i % 13), suit: Suit::at(i / 13), is_joker: false }
}

/// The card that stands for a joker in a fresh deck.
pub open spec fn joker_card() -> Card {
    Card { rank: Rank::Ace, suit: Suit::Hearts, is_joker: true }
}

/// A fresh deck: the 52 standard cards in order, then `num_jokers` jokers.
pub open spec fn fresh_deck(num_jokers: nat) -> Seq<Card> {
    Seq::new(
        52 + num_jokers,
        |i: int|
            if i < 52 {
                standard_card(i)
            } else {
                joker_card()
            },
    )
}

/// The cards not yet dealt, top first.
pub struct Deck {
    cards: Vec<Card>,
}

impl View for Deck {
    type V = Seq<Card>;

    closed spec fn view(&self) -> Seq<Card> {
        self.cards@
    }
}

/// Relies on rand's `SliceRandom::shuffle` with the thread-local generator,
/// which reorders the slice by swaps: the same cards come back, in some order.
#[verifier::external_body]
fn shuffle_cards(cards: &mut Vec<Card>)
    ensures
        final(cards)@.len() == old(cards)@.len(),
        final(cards)@.to_multiset() == old(cards)@.to_multiset(),
{
    let mut rng = rand::thread_rng();
    cards.shuffle(&mut rng);
}

fn suit_at(i: usize) -> (s: Suit)
    requires
        i < NUM_SUITS,
    ensures
        s == Suit::at(i as int),
{
    if i == 0 {
        Suit::Hearts
    } else if i == 1 {
        Suit::Diamonds
    } else if i == 2 {
        Suit::Clubs
    } else {
        Suit::Spades
    }
}

impl Deck {
    /// The 52 standard cards in suit and rank order, then `num_jokers` jokers.
    pub fn new(num_jokers: u32) -> (d: Deck)
        ensures
            d@ == fresh_deck(num_jokers as nat),
    {
        let mut cards: Vec<Card> = Vec::new();
        let mut s: usize = 0;
        while s < NUM_SUITS
            invariant
                s <= NUM_SUITS,
                cards@.len() == 13 * s,
                forall|i: int| 0 <= i < cards@.len() ==> cards@[i] == standard_card(i),
            decreases NUM_SUITS - s,
        {
            let suit = suit_at(s);
            let mut r: usize = 0;
            while r < NUM_RANKS
                invariant
                    s < NUM_SUITS,
                    r <= NUM_RANKS,
                    suit == Suit::at(s as int),
                    cards@.len() == 13 * s + r,
                    forall|i: int| 0 <= i < cards@.len() ==> cards@[i] == standard_card(i),
                decreases NUM_RANKS - r,
            {
                let rank = match Rank::from_u8(r as u8) {
                    Some(rank) => rank,
                    None => Rank::Two,
                };
                proof {
                    let i = 13 * s + r;
                    assert(i % 13 == r as int && i / 13 == s as int) by (nonlinear_arith)
                        requires
                            i == 13 * s + r,
                            r < 13,
                    ;
                }
                cards.push(Card::new(rank, suit, false));
                r += 1;
            }
            s += 1;
        }
        let mut k: u32 = 0;
        while k < num_jokers
            invariant
                k <= num_jokers,
                cards@.len() == 52 + k,
                forall|i: int|
                    0 <= i < cards@.len() ==> cards@[i] == (if i < 52 {
                        standard_card(i)
                    } else {
                        joker_card()
                    }),
            decreases num_jokers - k,
        {
            cards.push(Card::new(Rank::Ace, Suit::Hearts, true));
            k += 1;
        }
        let d = Deck { cards };
        assert(d@ =~= fresh_deck(num_jokers as nat));
        d
    }

    /// Number of cards left.
    pub fn len(&self) -> (r: usize)
        ensures
            r == self@.len(),
    {
        self.cards.len()
    }

    /// Puts the cards in a random order.
    pub fn shuffle(&mut self)
        ensures
            final(self)@.len() == old(self)@.len(),
            final(self)@.to_multiset() == old(self)@.to_multiset(),
    {
        shuffle_cards(&mut self.cards);
    }

    /// Takes the top `num_cards` cards as a hand.
    pub fn deal(&mut self, num_cards: usize) -> (h: Hand)
        requires
            num_cards <= old(self)@.len(),
        ensures
            h.cards@ == old(self)@.take(num_cards as int),
            final(self)@ == old(self)@.skip(num_cards as int),
    {
        let mut dealt = self.cards.split_off(num_cards);
        std::mem::swap(&mut self.cards, &mut dealt);
        proof {
            assert(dealt@ =~= old(self)@.take(num_cards as int));
            assert(self.cards@ =~= old(self)@.skip(num_cards as int));
        }
        Hand::new(dealt)
    }
}

} // verus!
