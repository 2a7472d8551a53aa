use vstd::prelude::*;
use crate::card::Card;
use crate::hand::{
    achievable, count_where, hand_value, joker_count, leading_suit, leading_suit_upto, rank_count,
    rank_presence, run_gaps, gaps_from, straight_possible, suit_count, suit_rank_presence,
    suited_rank_count, of_a_kind, two_ranks, HandRank,
};

verus! {

/// Replacing the card at `i` by `c` changes a count by what the two cards
/// contribute.
pub proof fn lemma_count_update(cards: Seq<Card>, i: int, c: Card, p: spec_fn(Card) -> bool)
    requires
        0 <= i < cards.len(),
    ensures
        count_where(cards.update(i, c), p) + (if p(cards[i]) {
            1int
        } else {
            0int
        }) == count_where(cards, p) + (if p(c) {
            1int
        } else {
            0int
        }),
    decreases cards.len(),
{
    let u = cards.update(i, c);
    if i == cards.len() - 1 {
        assert(u.drop_last() =~= cards.drop_last());
    } else {
        lemma_count_update(cards.drop_last(), i, c, p);
        assert(u.drop_last() =~= cards.drop_last().update(i, c));
    }
}

/// Every card is a joker or belongs to exactly one suit.
pub proof fn lemma_suits_partition(cards: Seq<Card>)
    ensures
        suit_count(cards, 0) + suit_count(cards, 1) + suit_count(cards, 2) + suit_count(cards, 3)
            + joker_count(cards) == cards.len(),
    decreases cards.len(),
{
    if cards.len() > 0 {
        lemma_suits_partition(cards.drop_last());
    }
}

/// The leading suit has the largest count.
pub proof fn lemma_leading_suit_upto(cards: Seq<Card>, n: int)
    requires
        1 <= n <= 4,
    ensures
        0 <= leading_suit_upto(cards, n) < n,
        forall|t: int|
            0 <= t < n ==> suit_count(cards, leading_suit_upto(cards, n)) >= #[trigger] suit_count(
                cards,
                t,
            ),
    decreases n,
{
    if n > 1 {
        lemma_leading_suit_upto(cards, n - 1);
    }
}

/// How the histograms change when a non-joker card is replaced by a joker.
pub proof fn lemma_joker_swap_counts(cards: Seq<Card>, i: int, j: Card)
    requires
        0 <= i < cards.len(),
        !cards[i].is_joker,
        j.is_joker,
    ensures
        joker_count(cards.update(i, j)) == joker_count(cards) + 1,
        forall|r: int|
            #[trigger] rank_count(cards.update(i, j), r) + (if cards[i].rank.ord() == r {
                1int
            } else {
                0int
            }) == rank_count(cards, r),
        forall|s: int|
            #[trigger] suit_count(cards.update(i, j), s) + (if cards[i].suit.index() == s {
                1int
            } else {
                0int
            }) == suit_count(cards, s),
        forall|s: int, r: int|
            #[trigger] suited_rank_count(cards.update(i, j), s, r) + (if cards[i].suit.index()
                == s && cards[i].rank.ord() == r {
                1int
            } else {
                0int
            }) == suited_rank_count(cards, s, r),
{
    lemma_count_update(cards, i, j, |c: Card| c.is_joker);
    assert forall|r: int|
        #[trigger] rank_count(cards.update(i, j), r) + (if cards[i].rank.ord() == r {
            1int
        } else {
            0int
        }) == rank_count(cards, r) by {
        lemma_count_update(cards, i, j, |c: Card| !c.is_joker && c.rank.ord() == r);
    }
    assert forall|s: int|
        #[trigger] suit_count(cards.update(i, j), s) + (if cards[i].suit.index() == s {
            1int
        } else {
            0int
        }) == suit_count(cards, s) by {
        lemma_count_update(cards, i, j, |c: Card| !c.is_joker && c.suit.index() == s);
    }
    assert forall|s: int, r: int|
        #[trigger] suited_rank_count(cards.update(i, j), s, r) + (if cards[i].suit.index() == s
            && cards[i].rank.ord() == r {
            1int
        } else {
            0int
        }) == suited_rank_count(cards, s, r) by {
        lemma_count_update(
            cards,
            i,
            j,
            |c: Card| !c.is_joker && c.suit.index() == s && c.rank.ord() == r,
        );
    }
}


/// Losing one rank costs a run at most one more fill-in.
pub proof fn lemma_run_gaps_weaken(p: Seq<bool>, q: Seq<bool>, low: int, rx: int)
    requires
        p.len() == 13,
        q.len() == 13,
        0 <= low < 13,
        forall|r: int| 0 <= r < 13 && r != rx && p[r] ==> q[r],
    ensures
        run_gaps(q, low) <= run_gaps(p, low) + 1,
{
    reveal_with_fuel(gaps_from, 6);
}

/// A run of five with enough fill-ins, wherever it starts, is found by the
/// scan: from its first present rank, or as the Ace-low run when no rank of it
/// is present.
#[verifier::rlimit(100)]
pub proof fn lemma_straight_from_any_start(p: Seq<bool>, low: int, jokers: nat)
    requires
        p.len() == 13,
        0 <= low < 13,
        run_gaps(p, low) <= jokers,
    ensures
        straight_possible(p, jokers),
{
    reveal_with_fuel(gaps_from, 6);
    if p[low] {
        assert(run_gaps(p, low) <= jokers);
    } else if p[(low + 1) % 13] {
        let r = (low + 1) % 13;
        assert(run_gaps(p, r) <= jokers);
    } else if p[(low + 2) % 13] {
        let r = (low + 2) % 13;
        assert(run_gaps(p, r) <= jokers);
    } else if p[(low + 3) % 13] {
        let r = (low + 3) % 13;
        assert(run_gaps(p, r) <= jokers);
    } else if p[(low + 4) % 13] {
        let r = (low + 4) % 13;
        assert(run_gaps(p, r) <= jokers);
    } else {
        assert(run_gaps(p, 12) <= jokers);
    }
}

/// A run still completes after one rank is lost and one joker is gained.
pub proof fn lemma_straight_after_joker(p: Seq<bool>, q: Seq<bool>, rx: int, jokers: nat)
    requires
        p.len() == 13,
        q.len() == 13,
        forall|r: int| 0 <= r < 13 && r != rx && p[r] ==> q[r],
        straight_possible(p, jokers),
    ensures
        straight_possible(q, jokers + 1),
{
    if run_gaps(p, 12) <= jokers {
        lemma_run_gaps_weaken(p, q, 12, rx);
    } else {
        let r = choose|r: int| 0 <= r < 13 && p[r] && #[trigger] run_gaps(p, r) <= jokers;
        lemma_run_gaps_weaken(p, q, r, rx);
        lemma_straight_from_any_start(q, r, jokers + 1);
    }
}


/// The classification is at least as strong as any achievable category.
pub proof fn lemma_value_covers(cards: Seq<Card>, k: HandRank)
    requires
        achievable(cards, k),
    ensures
        hand_value(cards).level() >= k.level(),
{
}

/// The classification is itself achievable.
pub proof fn lemma_value_achievable(cards: Seq<Card>)
    ensures
        achievable(cards, hand_value(cards)),
{
}

/// With five jokers or more, five of a kind is achievable.
proof fn lemma_many_jokers(cards: Seq<Card>)
    requires
        joker_count(cards) >= 5,
    ensures
        hand_value(cards) == HandRank::FiveOfAKind,
{
    assert(rank_count(cards, 0) + joker_count(cards) >= 5);
}

/// Whatever category a hand of at most five cards achieves, the same hand with
/// one non-joker card replaced by a joker is classified at least as strong.
proof fn lemma_reach_after_joker(cards: Seq<Card>, i: int, j: Card, k: HandRank)
    requires
        0 <= i < cards.len(),
        cards.len() <= 5,
        !cards[i].is_joker,
        j.is_joker,
        achievable(cards, k),
    ensures
        hand_value(cards.update(i, j)).level() >= k.level(),
{
    let h = cards.update(i, j);
    let jk = joker_count(cards);
    let rx = cards[i].rank.ord();
    let sx = cards[i].suit.index();
    lemma_joker_swap_counts(cards, i, j);
    if jk >= 4 {
        lemma_many_jokers(h);
        return;
    }
    match k {
        HandRank::FiveOfAKind | HandRank::FourOfAKind | HandRank::ThreeOfAKind
        | HandRank::OnePair => {
            let t = if k == HandRank::FiveOfAKind {
                5int
            } else if k == HandRank::FourOfAKind {
                4int
            } else if k == HandRank::ThreeOfAKind {
                3int
            } else {
                2int
            };
            let r = choose|r: int| 0 <= r < 13 && #[trigger] rank_count(cards, r) + jk >= t;
            assert(rank_count(h, r) + joker_count(h) >= t);
            assert(of_a_kind(h, t));
            lemma_value_covers(h, k);
        },
        HandRank::RoyalFlush | HandRank::StraightFlush => {
            let s = leading_suit(cards);
            lemma_leading_suit_upto(cards, 4);
            lemma_suits_partition(cards);
            lemma_suits_partition(h);
            assert(suit_count(cards, sx) >= 1);
            assert(sx == s);
            let s2 = leading_suit(h);
            lemma_leading_suit_upto(h, 4);
            assert(suit_count(h, s) >= 1);
            assert(s2 == s);
            let p = suit_rank_presence(cards, s);
            let q = suit_rank_presence(h, s);
            assert forall|r: int| 0 <= r < 13 && r != rx && p[r] implies q[r] by {
                assert(suited_rank_count(h, s, r) == suited_rank_count(cards, s, r));
            }
            if k == HandRank::RoyalFlush {
                lemma_run_gaps_weaken(p, q, 8, rx);
            } else {
                lemma_straight_after_joker(p, q, rx, jk);
            }
            lemma_value_covers(h, k);
        },
        HandRank::FullHouse => {
            if jk == 0 {
                let (x, y) = choose|x: int, y: int|
                    0 <= x < 13 && 0 <= y < 13 && x != y && #[trigger] rank_count(cards, x) >= 3
                        && #[trigger] rank_count(cards, y) >= 2;
                assert(rank_count(h, x) >= 2 && rank_count(h, y) >= 1);
                if rx == x {
                    assert(two_ranks(h, 2, 2));
                } else {
                    assert(two_ranks(h, 3, 1));
                }
                lemma_value_covers(h, k);
            } else if jk == 1 {
                if two_ranks(cards, 3, 1) {
                    let (x, y) = choose|x: int, y: int|
                        0 <= x < 13 && 0 <= y < 13 && x != y && #[trigger] rank_count(cards, x)
                            >= 3 && #[trigger] rank_count(cards, y) >= 1;
                    assert(rank_count(h, x) >= 2);
                    if rx == y {
                        assert(rank_count(h, x) + joker_count(h) >= 5);
                        lemma_value_covers(h, HandRank::FiveOfAKind);
                    } else {
                        assert(rank_count(h, y) >= 1);
                        assert(two_ranks(h, 2, 1));
                        lemma_value_covers(h, k);
                    }
                } else {
                    let (x, y) = choose|x: int, y: int|
                        0 <= x < 13 && 0 <= y < 13 && x != y && #[trigger] rank_count(cards, x)
                            >= 2 && #[trigger] rank_count(cards, y) >= 2;
                    assert(rank_count(h, x) >= 1 && rank_count(h, y) >= 1);
                    if rx == x {
                        assert(two_ranks(h, 2, 1));
                    } else {
                        assert(rank_count(h, x) >= 2);
                        assert(two_ranks(h, 2, 1));
                    }
                    lemma_value_covers(h, k);
                }
            } else {
                lemma_value_covers(h, k);
            }
        },
        HandRank::Flush => {
            let s = choose|s: int| 0 <= s < 4 && #[trigger] suit_count(cards, s) + jk >= 5;
            assert(suit_count(h, s) + joker_count(h) >= 5);
            lemma_value_covers(h, k);
        },
        HandRank::Straight => {
            let p = rank_presence(cards);
            let q = rank_presence(h);
            assert forall|r: int| 0 <= r < 13 && r != rx && p[r] implies q[r] by {
                assert(rank_count(h, r) == rank_count(cards, r));
            }
            lemma_straight_after_joker(p, q, rx, jk);
            lemma_value_covers(h, k);
        },
        HandRank::TwoPair => {
            if jk == 0 {
                let (x, y) = choose|x: int, y: int|
                    0 <= x < 13 && 0 <= y < 13 && x != y && #[trigger] rank_count(cards, x) >= 2
                        && #[trigger] rank_count(cards, y) >= 2;
                assert(rank_count(h, x) >= 1 && rank_count(h, y) >= 1);
                if rx == x {
                    assert(rank_count(h, y) >= 2);
                    assert(two_ranks(h, 2, 1));
                } else {
                    assert(rank_count(h, x) >= 2);
                    assert(two_ranks(h, 2, 1));
                }
                lemma_value_covers(h, k);
            } else {
                let b = if jk == 1 {
                    2int
                } else {
                    1int
                };
                let (x, y) = choose|x: int, y: int|
                    0 <= x < 13 && 0 <= y < 13 && x != y && #[trigger] rank_count(cards, x) >= b
                        && #[trigger] rank_count(cards, y) >= 1;
                if rx == x && rank_count(h, x) == 0 {
                    assert(rank_count(h, y) + joker_count(h) >= 4);
                    lemma_value_covers(h, HandRank::FourOfAKind);
                } else if rx == y && rank_count(h, y) == 0 {
                    assert(rank_count(h, x) + joker_count(h) >= 4);
                    lemma_value_covers(h, HandRank::FourOfAKind);
                } else {
                    assert(rank_count(h, x) >= 1 && rank_count(h, y) >= 1);
                    assert(two_ranks(h, 1, 1));
                    lemma_value_covers(h, k);
                }
            }
        },
        HandRank::HighCard => {},
    }
}

/// Replacing a non-joker card of a hand of at most five cards by a joker never
/// lowers its classification.
pub proof fn lemma_joker_never_hurts(cards: Seq<Card>, i: int, j: Card)
    requires
        0 <= i < cards.len(),
        cards.len() <= 5,
        !cards[i].is_joker,
        j.is_joker,
    ensures
        hand_value(cards.update(i, j)).level() >= hand_value(cards).level(),
{
    lemma_value_achievable(cards);
    lemma_reach_after_joker(cards, i, j, hand_value(cards));
}


/// A sequence made of jokers only counts every card as a joker.
proof fn lemma_all_jokers_count(cards: Seq<Card>)
    requires
        forall|i: int| 0 <= i < cards.len() ==> #[trigger] cards[i].is_joker,
    ensures
        joker_count(cards) == cards.len(),
    decreases cards.len(),
{
    if cards.len() > 0 {
        let d = cards.drop_last();
        assert forall|i: int| 0 <= i < d.len() implies #[trigger] d[i].is_joker by {
            assert(d[i] == cards[i]);
        }
        lemma_all_jokers_count(d);
    }
}

/// A hand of five jokers is five of a kind, whatever their placeholder rank
/// and suit.
pub proof fn lemma_all_wild(cards: Seq<Card>)
    requires
        cards.len() == 5,
        forall|i: int| 0 <= i < cards.len() ==> #[trigger] cards[i].is_joker,
    ensures
        hand_value(cards) == HandRank::FiveOfAKind,
{
    lemma_all_jokers_count(cards);
}

/// The classification depends on the cards alone: equal hands are classified
/// alike, however often they are evaluated.
pub proof fn lemma_value_is_pure(a: Seq<Card>, b: Seq<Card>)
    requires
        a == b,
    ensures
        hand_value(a) == hand_value(b),
{
}

/// The empty hand is a high card.
pub proof fn lemma_empty_hand()
    ensures
        hand_value(Seq::<Card>::empty()) == HandRank::HighCard,
{
    let e = Seq::<Card>::empty();
    reveal_with_fuel(gaps_from, 6);
    assert forall|r: int| #[trigger] rank_count(e, r) == 0 by {}
    assert forall|s: int| #[trigger] suit_count(e, s) == 0 by {}
    assert(rank_presence(e) =~= Seq::new(13, |r: int| false));
    assert forall|r: int| 0 <= r < 13 implies !#[trigger] rank_presence(e)[r] by {}
    assert(run_gaps(rank_presence(e), 12) == 5);
}


/// Three natural cards of three different ranks are a high card.
#[verifier::rlimit(100)]
pub proof fn lemma_three_unmatched_is_high_card(cards: Seq<Card>)
    requires
        cards.len() == 3,
        forall|i: int| 0 <= i < 3 ==> !(#[trigger] cards[i]).is_joker,
        cards[0].rank != cards[1].rank,
        cards[0].rank != cards[2].rank,
        cards[1].rank != cards[2].rank,
    ensures
        hand_value(cards) == HandRank::HighCard,
{
    let c0 = cards[0];
    let c1 = cards[1];
    let c2 = cards[2];
    assert(!c0.is_joker && !c1.is_joker && !c2.is_joker);
    assert(cards.drop_last().drop_last().drop_last() =~= Seq::<Card>::empty());
    assert(cards.drop_last().drop_last().last() == c0);
    assert(cards.drop_last().last() == c1);
    assert(cards.last() == c2);
    reveal_with_fuel(count_where, 4);
    reveal_with_fuel(gaps_from, 6);
    assert(joker_count(cards) == 0);
    assert forall|r: int|
        #[trigger] rank_count(cards, r) == (if c0.rank.ord() == r {
            1int
        } else {
            0int
        }) + (if c1.rank.ord() == r {
            1int
        } else {
            0int
        }) + (if c2.rank.ord() == r {
            1int
        } else {
            0int
        }) by {}
    assert forall|r: int| #[trigger] rank_count(cards, r) <= 1 by {}
    lemma_suits_partition(cards);
    assert forall|s: int| 0 <= s < 4 implies #[trigger] suit_count(cards, s) <= 3 by {}
    let p = rank_presence(cards);
    assert forall|r: int| 0 <= r < 13 implies (#[trigger] p[r] <==> (r == c0.rank.ord()
        || r == c1.rank.ord() || r == c2.rank.ord())) by {}
    assert forall|r: int| 0 <= r < 13 implies #[trigger] run_gaps(p, r) >= 2 by {}
    assert(!of_a_kind(cards, 2));
    assert(!two_ranks(cards, 2, 2));
    assert(!two_ranks(cards, 3, 2));
    lemma_leading_suit_upto(cards, 4);
}

} // verus!
