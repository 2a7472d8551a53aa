use vstd::prelude::*;
use crate::card::{Card, NUM_RANKS, NUM_SUITS};

verus! {

/// Poker hand categories, weakest first.
#[derive(Debug, Clone, Copy, PartialEq, Eq, Structural, PartialOrd, Ord, Hash)]
pub enum HandRank {
    HighCard,
    OnePair,
    TwoPair,
    ThreeOfAKind,
    Straight,
    Flush,
    FullHouse,
    FourOfAKind,
    StraightFlush,
    RoyalFlush,
    FiveOfAKind,
}

impl HandRank {
    /// Position of the category in the total order, 0 for HighCard up to 10
    /// for FiveOfAKind.
    pub open spec fn level(self) -> int {
        match self {
            HandRank::HighCard => 0,
            HandRank::OnePair => 1,
            HandRank::TwoPair => 2,
            HandRank::ThreeOfAKind => 3,
            HandRank::Straight => 4,
            HandRank::Flush => 5,
            HandRank::FullHouse => 6,
            HandRank::FourOfAKind => 7,
            HandRank::StraightFlush => 8,
            HandRank::RoyalFlush => 9,
            HandRank::FiveOfAKind => 10,
        }
    }

    /// Executable form of `level`, used to compare two categories.
    pub fn strength(&self) -> (r: u8)
        ensures
            r as int == self.level(),
    {
        match self {
            HandRank::HighCard => 0,
            HandRank::OnePair => 1,
            HandRank::TwoPair => 2,
            HandRank::ThreeOfAKind => 3,
            HandRank::Straight => 4,
            HandRank::Flush => 5,
            HandRank::FullHouse => 6,
            HandRank::FourOfAKind => 7,
            HandRank::StraightFlush => 8,
            HandRank::RoyalFlush => 9,
            HandRank::FiveOfAKind => 10,
        }
    }
}

// ---------------------------------------------------------------------------
// Model: histograms of a sequence of cards.

/// Number of cards of `cards` that satisfy `p`.
pub open spec fn count_where(cards: Seq<Card>, p: spec_fn(Card) -> bool) -> nat
    decreases cards.len(),
{
    if cards.len() == 0 {
        0
    } else {
        count_where(cards.drop_last(), p) + if p(cards.last()) {
            1nat
        } else {
            0nat
        }
    }
}

/// Number of jokers.
pub open spec fn joker_count(cards: Seq<Card>) -> nat {
    count_where(cards, |c: Card| c.is_joker)
}

/// Number of non-joker cards of the rank with ordinal `r`.
pub open spec fn rank_count(cards: Seq<Card>, r: int) -> nat {
    count_where(cards, |c: Card| !c.is_joker && c.rank.ord() == r)
}

/// Number of non-joker cards of the suit with index `s`.
pub open spec fn suit_count(cards: Seq<Card>, s: int) -> nat {
    count_where(cards, |c: Card| !c.is_joker && c.suit.index() == s)
}

/// Number of non-joker cards of suit `s` and rank `r`.
pub open spec fn suited_rank_count(cards: Seq<Card>, s: int, r: int) -> nat {
    count_where(cards, |c: Card| !c.is_joker && c.suit.index() == s && c.rank.ord() == r)
}

/// For each rank ordinal, whether a non-joker card of that rank is present.
pub open spec fn rank_presence(cards: Seq<Card>) -> Seq<bool> {
    Seq::new(13, |r: int| rank_count(cards, r) > 0)
}

/// For each rank ordinal, whether a non-joker card of suit `s` and that rank
/// is present.
pub open spec fn suit_rank_presence(cards: Seq<Card>, s: int) -> Seq<bool> {
    Seq::new(13, |r: int| suited_rank_count(cards, s, r) > 0)
}

/// The suit with the most non-joker cards; among equal counts, the first in
/// suit order. Computed over the suits with index below `n`.
pub open spec fn leading_suit_upto(cards: Seq<Card>, n: int) -> int
    decreases n,
{
    if n <= 1 {
        0
    } else {
        let b = leading_suit_upto(cards, n - 1);
        if suit_count(cards, n - 1) > suit_count(cards, b) {
            n - 1
        } else {
            b
        }
    }
}

/// The suit with the most non-joker cards (the first such suit on a tie).
pub open spec fn leading_suit(cards: Seq<Card>) -> int {
    leading_suit_upto(cards, 4)
}

// ---------------------------------------------------------------------------
// Model: runs of ranks.

/// 1 when rank `r` is absent from `present`, else 0.
pub open spec fn gap(present: Seq<bool>, r: int) -> int {
    if present[r] {
        0
    } else {
        1
    }
}

/// Number of ranks absent among the `n` ranks that follow `low` cyclically,
/// `low` included: `(low + i) mod 13` for `i` in `0..n`.
pub open spec fn gaps_from(present: Seq<bool>, low: int, n: int) -> int
    decreases n,
{
    if n <= 0 {
        0
    } else {
        gaps_from(present, low, n - 1) + gap(present, (low + n - 1) % 13)
    }
}

/// Number of ranks missing from the five-rank run that starts at `low`. The
/// run starting at the Ace is the Ace-low straight, the one starting at the
/// Ten is the royal run.
pub open spec fn run_gaps(present: Seq<bool>, low: int) -> int {
    gaps_from(present, low, 5)
}

/// Ordinal of the Ace, the low end of the Ace-low run.
pub open spec fn ace_ord() -> int {
    12
}

/// Ordinal of the Ten, the low end of the royal run.
pub open spec fn ten_ord() -> int {
    8
}

/// Whether the ranks in `present`, with `jokers` fill-ins, complete a run of
/// five: either a run that starts at a present rank, or the Ace-low run.
pub open spec fn straight_possible(present: Seq<bool>, jokers: nat) -> bool {
    (exists|r: int| 0 <= r < 13 && present[r] && #[trigger] run_gaps(present, r) <= jokers)
        || run_gaps(present, ace_ord()) <= jokers
}

// ---------------------------------------------------------------------------
// Model: which categories a hand can reach.

/// Some rank, topped up with every joker, reaches `t` cards.
pub open spec fn of_a_kind(cards: Seq<Card>, t: int) -> bool {
    exists|r: int| 0 <= r < 13 && #[trigger] rank_count(cards, r) + joker_count(cards) >= t
}

/// Two distinct ranks, one with at least `a` cards and one with at least `b`.
pub open spec fn two_ranks(cards: Seq<Card>, a: int, b: int) -> bool {
    exists|x: int, y: int|
        0 <= x < 13 && 0 <= y < 13 && x != y && #[trigger] rank_count(cards, x) >= a
            && #[trigger] rank_count(cards, y) >= b
}

/// The leading suit, topped up with jokers, reaches five cards, and the jokers
/// cover the ranks Ten to Ace that it lacks.
pub open spec fn royal_possible(cards: Seq<Card>) -> bool {
    let s = leading_suit(cards);
    let j = joker_count(cards);
    suit_count(cards, s) + j >= 5 && run_gaps(suit_rank_presence(cards, s), ten_ord()) <= j
}

/// The leading suit, topped up with jokers, reaches five cards, and its ranks
/// with the jokers complete a run.
pub open spec fn straight_flush_possible(cards: Seq<Card>) -> bool {
    let s = leading_suit(cards);
    let j = joker_count(cards);
    suit_count(cards, s) + j >= 5 && straight_possible(suit_rank_presence(cards, s), j)
}

/// A triple and a pair on two distinct ranks, the jokers filling in: three or
/// more jokers always make one.
pub open spec fn full_house_possible(cards: Seq<Card>) -> bool {
    let j = joker_count(cards);
    if j == 0 {
        two_ranks(cards, 3, 2)
    } else if j == 1 {
        two_ranks(cards, 3, 1) || two_ranks(cards, 2, 2)
    } else if j == 2 {
        two_ranks(cards, 2, 1)
    } else {
        true
    }
}

/// Some suit, topped up with jokers, reaches five cards.
pub open spec fn flush_possible(cards: Seq<Card>) -> bool {
    exists|s: int| 0 <= s < 4 && #[trigger] suit_count(cards, s) + joker_count(cards) >= 5
}

/// Two distinct ranks, each made a pair with the jokers' help.
pub open spec fn two_pair_possible(cards: Seq<Card>) -> bool {
    let j = joker_count(cards);
    if j == 0 {
        two_ranks(cards, 2, 2)
    } else if j == 1 {
        two_ranks(cards, 2, 1)
    } else {
        two_ranks(cards, 1, 1)
    }
}

/// Whether the hand, with its jokers as fill-ins, can reach category `k`.
pub open spec fn achievable(cards: Seq<Card>, k: HandRank) -> bool {
    match k {
        HandRank::FiveOfAKind => joker_count(cards) == 5 || of_a_kind(cards, 5),
        HandRank::RoyalFlush => royal_possible(cards),
        HandRank::StraightFlush => straight_flush_possible(cards),
        HandRank::FourOfAKind => of_a_kind(cards, 4),
        HandRank::FullHouse => full_house_possible(cards),
        HandRank::Flush => flush_possible(cards),
        HandRank::Straight => straight_possible(rank_presence(cards), joker_count(cards)),
        HandRank::ThreeOfAKind => of_a_kind(cards, 3),
        HandRank::TwoPair => two_pair_possible(cards),
        HandRank::OnePair => of_a_kind(cards, 2),
        HandRank::HighCard => true,
    }
}

/// The classification of a hand: the first achievable category, strongest
/// first.
pub open spec fn hand_value(cards: Seq<Card>) -> HandRank {
    if achievable(cards, HandRank::FiveOfAKind) {
        HandRank::FiveOfAKind
    } else if achievable(cards, HandRank::RoyalFlush) {
        HandRank::RoyalFlush
    } else if achievable(cards, HandRank::StraightFlush) {
        HandRank::StraightFlush
    } else if achievable(cards, HandRank::FourOfAKind) {
        HandRank::FourOfAKind
    } else if achievable(cards, HandRank::FullHouse) {
        HandRank::FullHouse
    } else if achievable(cards, HandRank::Flush) {
        HandRank::Flush
    } else if achievable(cards, HandRank::Straight) {
        HandRank::Straight
    } else if achievable(cards, HandRank::ThreeOfAKind) {
        HandRank::ThreeOfAKind
    } else if achievable(cards, HandRank::TwoPair) {
        HandRank::TwoPair
    } else if achievable(cards, HandRank::OnePair) {
        HandRank::OnePair
    } else {
        HandRank::HighCard
    }
}


// ---------------------------------------------------------------------------
// Executable evaluation.

/// A hand of cards, in the order they were dealt.
#[derive(Debug, Clone)]
pub struct Hand {
    pub cards: Vec<Card>,
}

/// Counts the jokers, and the non-joker cards per rank and per suit.
fn tally(cards: &Vec<Card>) -> (r: (usize, Vec<usize>, Vec<usize>))
    ensures
        r.0 == joker_count(cards@),
        r.1@.len() == NUM_RANKS,
        r.2@.len() == NUM_SUITS,
        forall|k: int|
            0 <= k < 13 ==> #[trigger] r.1@[k] == rank_count(cards@, k) && r.1@[k] + r.0
                <= cards@.len(),
        forall|s: int|
            0 <= s < 4 ==> #[trigger] r.2@[s] == suit_count(cards@, s) && r.2@[s] + r.0
                <= cards@.len(),
{
    let mut jokers: usize = 0;
    let mut ranks: Vec<usize> = Vec::new();
    let mut k: usize = 0;
    while k < NUM_RANKS
        invariant
            k <= NUM_RANKS,
            ranks@.len() == k,
            forall|j: int| 0 <= j < k ==> ranks@[j] == 0,
        decreases NUM_RANKS - k,
    {
        ranks.push(0);
        k += 1;
    }
    let mut suits: Vec<usize> = Vec::new();
    let mut k: usize = 0;
    while k < NUM_SUITS
        invariant
            k <= NUM_SUITS,
            suits@.len() == k,
            forall|j: int| 0 <= j < k ==> suits@[j] == 0,
        decreases NUM_SUITS - k,
    {
        suits.push(0);
        k += 1;
    }
    let mut i: usize = 0;
    while i < cards.len()
        invariant
            i <= cards@.len(),
            ranks@.len() == NUM_RANKS,
            suits@.len() == NUM_SUITS,
            jokers == joker_count(cards@.take(i as int)),
            jokers <= i,
            forall|k: int|
                0 <= k < 13 ==> ranks@[k] == rank_count(cards@.take(i as int), k) && ranks@[k]
                    + jokers <= i,
            forall|s: int|
                0 <= s < 4 ==> suits@[s] == suit_count(cards@.take(i as int), s) && suits@[s]
                    + jokers <= i,
        decreases cards@.len() - i,
    {
        let c = cards[i];
        proof {
            assert(cards@.take(i + 1).drop_last() =~= cards@.take(i as int));
            assert(cards@.take(i + 1).last() == c);
        }
        if c.is_joker {
            jokers += 1;
        } else {
            let r = c.rank.to_u8() as usize;
            ranks[r] = ranks[r] + 1;
            let s = c.suit.to_index();
            suits[s] = suits[s] + 1;
        }
        i += 1;
    }
    proof {
        assert(cards@.take(cards@.len() as int) =~= cards@);
    }
    (jokers, ranks, suits)
}

/// The index of a largest count, that count, and the largest count among the
/// other indices.
fn top_two(counts: &Vec<usize>) -> (r: (usize, usize, usize))
    requires
        counts@.len() == NUM_RANKS,
    ensures
        r.0 < NUM_RANKS,
        counts@[r.0 as int] == r.1,
        r.2 <= r.1,
        forall|k: int| 0 <= k < 13 ==> counts@[k] <= r.1,
        forall|k: int| 0 <= k < 13 && k != r.0 ==> counts@[k] <= r.2,
        r.2 == 0 || exists|k: int| 0 <= k < 13 && k != r.0 && counts@[k] == r.2,
{
    let mut best: usize = 0;
    let mut first: usize = counts[0];
    let mut second: usize = 0;
    let mut k: usize = 1;
    while k < NUM_RANKS
        invariant
            1 <= k <= NUM_RANKS,
            counts@.len() == NUM_RANKS,
            best < k,
            counts@[best as int] == first,
            second <= first,
            forall|j: int| 0 <= j < k ==> counts@[j] <= first,
            forall|j: int| 0 <= j < k && j != best ==> counts@[j] <= second,
            second == 0 || exists|j: int| 0 <= j < k && j != best && counts@[j] == second,
        decreases NUM_RANKS - k,
    {
        if counts[k] > first {
            second = first;
            best = k;
            first = counts[k];
        } else if counts[k] > second {
            second = counts[k];
        }
        k += 1;
    }
    (best, first, second)
}

/// The largest count decides every "of a kind" test, and the two largest
/// counts decide every test on two distinct ranks.
proof fn lemma_top_two(cards: Seq<Card>, counts: Seq<usize>, best: int, first: int, second: int)
    requires
        counts.len() == 13,
        0 <= best < 13,
        counts[best] == first,
        second <= first,
        forall|k: int| 0 <= k < 13 ==> counts[k] == rank_count(cards, k),
        forall|k: int| 0 <= k < 13 ==> counts[k] <= first,
        forall|k: int| 0 <= k < 13 && k != best ==> counts[k] <= second,
        second == 0 || exists|k: int| 0 <= k < 13 && k != best && counts[k] == second,
    ensures
        forall|t: int| of_a_kind(cards, t) <==> first + joker_count(cards) >= t,
        forall|a: int, b: int|
            a >= b >= 1 ==> (two_ranks(cards, a, b) <==> (first >= a && second >= b)),
{
    assert forall|t: int| of_a_kind(cards, t) <==> first + joker_count(cards) >= t by {
        if first + joker_count(cards) >= t {
            assert(rank_count(cards, best) + joker_count(cards) >= t);
        }
        if of_a_kind(cards, t) {
            let r = choose|r: int| 0 <= r < 13 && #[trigger] rank_count(cards, r) + joker_count(cards) >= t;
            assert(counts[r] <= first);
        }
    }
    assert forall|a: int, b: int|
        a >= b >= 1 implies (two_ranks(cards, a, b) <==> (first >= a && second >= b)) by {
        if first >= a && second >= b {
            let y = choose|k: int| 0 <= k < 13 && k != best && counts[k] == second;
            assert(rank_count(cards, best) >= a && rank_count(cards, y) >= b);
        }
        if two_ranks(cards, a, b) {
            let (x, y) = choose|x: int, y: int|
                0 <= x < 13 && 0 <= y < 13 && x != y && #[trigger] rank_count(cards, x) >= a
                    && #[trigger] rank_count(cards, y) >= b;
            assert(counts[x] <= first);
            if x != best {
                assert(counts[x] <= second);
            } else {
                assert(counts[y] <= second);
            }
        }
    }
}

/// Index of the suit with the largest count, the first one on a tie.
fn leading_suit_index(suit_counts: &Vec<usize>, Ghost(cards): Ghost<Seq<Card>>) -> (r: usize)
    requires
        suit_counts@.len() == NUM_SUITS,
        forall|s: int| 0 <= s < 4 ==> suit_counts@[s] == suit_count(cards, s),
    ensures
        r < NUM_SUITS,
        r == leading_suit(cards),
{
    let mut best: usize = 0;
    let mut s: usize = 1;
    while s < NUM_SUITS
        invariant
            1 <= s <= NUM_SUITS,
            suit_counts@.len() == NUM_SUITS,
            forall|t: int| 0 <= t < 4 ==> suit_counts@[t] == suit_count(cards, t),
            best < s,
            best == leading_suit_upto(cards, s as int),
        decreases NUM_SUITS - s,
    {
        if suit_counts[s] > suit_counts[best] {
            best = s;
        }
        s += 1;
    }
    best
}

/// For each rank, whether a non-joker card of suit `suit` and that rank is in
/// `cards`.
fn suit_ranks(cards: &Vec<Card>, suit: usize) -> (r: Vec<bool>)
    requires
        suit < NUM_SUITS,
    ensures
        r@ == suit_rank_presence(cards@, suit as int),
{
    let mut present: Vec<bool> = Vec::new();
    let mut k: usize = 0;
    while k < NUM_RANKS
        invariant
            k <= NUM_RANKS,
            present@.len() == k,
            forall|j: int| 0 <= j < k ==> !present@[j],
        decreases NUM_RANKS - k,
    {
        present.push(false);
        k += 1;
    }
    let mut i: usize = 0;
    while i < cards.len()
        invariant
            i <= cards@.len(),
            suit < NUM_SUITS,
            present@.len() == NUM_RANKS,
            forall|k: int|
                0 <= k < 13 ==> present@[k] == (suited_rank_count(
                    cards@.take(i as int),
                    suit as int,
                    k,
                ) > 0),
        decreases cards@.len() - i,
    {
        let c = cards[i];
        proof {
            assert(cards@.take(i + 1).drop_last() =~= cards@.take(i as int));
            assert(cards@.take(i + 1).last() == c);
        }
        if !c.is_joker && c.suit.to_index() == suit {
            let r = c.rank.to_u8() as usize;
            present[r] = true;
        }
        i += 1;
    }
    proof {
        assert(cards@.take(cards@.len() as int) =~= cards@);
    }
    assert(present@ =~= suit_rank_presence(cards@, suit as int));
    present
}

/// For each rank, whether its count is positive.
fn presence_of(counts: &Vec<usize>) -> (r: Vec<bool>)
    requires
        counts@.len() == NUM_RANKS,
    ensures
        r@.len() == 13,
        forall|k: int| 0 <= k < 13 ==> r@[k] == (counts@[k] > 0),
{
    let mut present: Vec<bool> = Vec::new();
    let mut k: usize = 0;
    while k < NUM_RANKS
        invariant
            k <= NUM_RANKS,
            counts@.len() == NUM_RANKS,
            present@.len() == k,
            forall|j: int| 0 <= j < k ==> present@[j] == (counts@[j] > 0),
        decreases NUM_RANKS - k,
    {
        present.push(counts[k] > 0);
        k += 1;
    }
    present
}

/// Number of ranks missing from the five-rank run that starts at `low`.
fn count_run_gaps(present: &Vec<bool>, low: usize) -> (r: usize)
    requires
        present@.len() == NUM_RANKS,
        low < NUM_RANKS,
    ensures
        r as int == run_gaps(present@, low as int),
        r <= 5,
{
    let mut missing: usize = 0;
    let mut i: usize = 0;
    while i < 5
        invariant
            i <= 5,
            low < NUM_RANKS,
            present@.len() == NUM_RANKS,
            missing as int == gaps_from(present@, low as int, i as int),
            missing <= i,
        decreases 5 - i,
    {
        let needed = (low + i) % NUM_RANKS;
        if !present[needed] {
            missing += 1;
        }
        i += 1;
    }
    missing
}

impl Hand {
    pub fn new(cards: Vec<Card>) -> (h: Hand)
        ensures
            h.cards@ == cards@,
    {
        Hand { cards }
    }

    /// The best category the hand reaches, its jokers standing in for any
    /// card. Total: any number of cards, empty included, gets a category.
    pub fn evaluate(&self) -> (r: HandRank)
        ensures
            r == hand_value(self.cards@),
    {
        let ghost cards = self.cards@;
        let n = self.cards.len();
        let (num_jokers, rank_counts, suit_counts) = tally(&self.cards);
        if num_jokers == 5 {
            return HandRank::FiveOfAKind;
        }
        let (best, highest, second) = top_two(&rank_counts);
        proof {
            assert(rank_counts@[best as int] + num_jokers <= cards.len());
            lemma_top_two(cards, rank_counts@, best as int, highest as int, second as int);
        }
        if highest + num_jokers >= 5 {
            return HandRank::FiveOfAKind;
        }
        let lead = leading_suit_index(&suit_counts, Ghost(cards));
        let suited = suit_ranks(&self.cards, lead);
        let lead_count = suit_counts[lead];
        assert(suit_counts@[lead as int] + num_jokers <= cards.len());
        if Self::is_royal_flush(num_jokers, lead_count, &suited) {
            return HandRank::RoyalFlush;
        }
        if Self::is_straight_flush(num_jokers, lead_count, &suited) {
            return HandRank::StraightFlush;
        }
        if highest + num_jokers >= 4 {
            return HandRank::FourOfAKind;
        }
        if Self::is_full_house(num_jokers, highest, second) {
            return HandRank::FullHouse;
        }
        if Self::is_flush(num_jokers, &suit_counts) {
            proof {
                let s = choose|s: int| 0 <= s < 4 && suit_counts@[s] + num_jokers >= 5;
                assert(suit_count(cards, s) + joker_count(cards) >= 5);
            }
            return HandRank::Flush;
        }
        proof {
            if flush_possible(cards) {
                let s = choose|s: int|
                    0 <= s < 4 && #[trigger] suit_count(cards, s) + joker_count(cards) >= 5;
                assert(suit_counts@[s] + num_jokers >= 5);
            }
        }
        let present = presence_of(&rank_counts);
        proof {
            assert(present@ =~= rank_presence(cards));
        }
        if Self::is_straight(num_jokers, &present) {
            return HandRank::Straight;
        }
        if highest + num_jokers >= 3 {
            return HandRank::ThreeOfAKind;
        }
        if Self::is_two_pair(num_jokers, highest, second) {
            return HandRank::TwoPair;
        }
        if highest + num_jokers >= 2 {
            return HandRank::OnePair;
        }
        HandRank::HighCard
    }

    /// The leading suit, topped up with jokers, holds five cards that cover
    /// Ten through Ace.
    fn is_royal_flush(num_jokers: usize, lead_count: usize, suited: &Vec<bool>) -> (r: bool)
        requires
            suited@.len() == NUM_RANKS,
            lead_count + num_jokers <= usize::MAX,
        ensures
            r == (lead_count + num_jokers >= 5 && run_gaps(suited@, ten_ord()) <= num_jokers),
    {
        if lead_count + num_jokers >= 5 {
            let missing_ranks = count_run_gaps(suited, 8);
            return missing_ranks <= num_jokers;
        }
        false
    }

    /// The leading suit, topped up with jokers, holds five cards that form a
    /// run.
    fn is_straight_flush(num_jokers: usize, lead_count: usize, suited: &Vec<bool>) -> (r: bool)
        requires
            suited@.len() == NUM_RANKS,
            lead_count + num_jokers <= usize::MAX,
        ensures
            r == (lead_count + num_jokers >= 5 && straight_possible(suited@, num_jokers as nat)),
    {
        if lead_count + num_jokers >= 5 {
            return Self::can_form_straight(suited, num_jokers);
        }
        false
    }

    /// Full house test on the two largest rank counts.
    fn is_full_house(num_jokers: usize, highest: usize, second: usize) -> (r: bool)
        ensures
            r == (if num_jokers == 0 {
                highest >= 3 && second >= 2
            } else if num_jokers == 1 {
                (highest >= 3 && second >= 1) || (highest >= 2 && second >= 2)
            } else if num_jokers == 2 {
                highest >= 2 && second >= 1
            } else {
                true
            }),
    {
        match num_jokers {
            0 => highest >= 3 && second >= 2,
            1 => (highest >= 3 && second >= 1) || (highest >= 2 && second >= 2),
            2 => highest >= 2 && second >= 1,
            _ => true,
        }
    }

    /// Some suit, topped up with jokers, reaches five cards.
    fn is_flush(num_jokers: usize, suit_counts: &Vec<usize>) -> (r: bool)
        requires
            suit_counts@.len() == NUM_SUITS,
            forall|s: int| 0 <= s < 4 ==> suit_counts@[s] + num_jokers <= usize::MAX,
        ensures
            r == exists|s: int| 0 <= s < 4 && suit_counts@[s] + num_jokers >= 5,
    {
        let mut s: usize = 0;
        while s < NUM_SUITS
            invariant
                s <= NUM_SUITS,
                suit_counts@.len() == NUM_SUITS,
                forall|t: int| 0 <= t < 4 ==> suit_counts@[t] + num_jokers <= usize::MAX,
                forall|t: int| 0 <= t < s ==> suit_counts@[t] + num_jokers < 5,
            decreases NUM_SUITS - s,
        {
            if suit_counts[s] + num_jokers >= 5 {
                return true;
            }
            s += 1;
        }
        false
    }

    /// The present ranks, with jokers as fill-ins, form a run of five.
    fn is_straight(num_jokers: usize, present: &Vec<bool>) -> (r: bool)
        requires
            present@.len() == NUM_RANKS,
        ensures
            r == straight_possible(present@, num_jokers as nat),
    {
        Self::can_form_straight(present, num_jokers)
    }

    /// Scans the runs that start at each present rank, wrapping past the Ace,
    /// then the Ace-low run.
    fn can_form_straight(present: &Vec<bool>, num_jokers: usize) -> (r: bool)
        requires
            present@.len() == NUM_RANKS,
        ensures
            r == straight_possible(present@, num_jokers as nat),
    {
        let mut low: usize = 0;
        while low < NUM_RANKS
            invariant
                low <= NUM_RANKS,
                present@.len() == NUM_RANKS,
                forall|q: int|
                    0 <= q < low && present@[q] ==> #[trigger] run_gaps(present@, q) > num_jokers,
            decreases NUM_RANKS - low,
        {
            if present[low] {
                let missing_ranks = count_run_gaps(present, low);
                if missing_ranks <= num_jokers {
                    return true;
                }
            }
            low += 1;
        }
        let missing_ranks = count_run_gaps(present, 12);
        missing_ranks <= num_jokers
    }

    /// Two pair test on the two largest rank counts: two distinct ranks are
    /// needed.
    fn is_two_pair(num_jokers: usize, highest: usize, second: usize) -> (r: bool)
        ensures
            r == (second >= 1 && if num_jokers == 0 {
                highest >= 2 && second >= 2
            } else if num_jokers == 1 {
                highest >= 2
            } else {
                true
            }),
    {
        if second >= 1 {
            match num_jokers {
                0 => highest >= 2 && second >= 2,
                1 => highest >= 2,
                _ => true,
            }
        } else {
            false
        }
    }
}

} // verus!
