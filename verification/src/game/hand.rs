//! Hand representation and scoring (soft/hard aces, bust detection).

use vstd::prelude::*;

use super::card::{Card, Rank};

verus! {

/// The state of a single hand.
#[derive(Debug, Clone, Copy, PartialEq, Eq, Structural)]
pub enum HandState {
    /// Hand is active (player can act).
    Active,
    /// Player has chosen to stand.
    Standing,
    /// Hand has gone over 21.
    Busted,
    /// Natural blackjack (Ace + 10-value on first two cards).
    Blackjack,
}

/// A player or dealer hand.
#[derive(Debug, Clone)]
pub struct Hand {
    /// Cards in the hand.
    pub cards: Vec<Card>,
    /// Wager on this hand (in chips).
    pub bet: u32,
    /// Current state of the hand.
    pub state: HandState,
    /// Whether the player doubled down on this hand.
    pub is_doubled: bool,
}

/// The mathematical model of a hand: its cards as a sequence.
#[verifier::ext_equal]
pub struct HandView {
    /// Cards in the hand, in the order they were dealt.
    pub cards: Seq<Card>,
    /// Wager on this hand.
    pub bet: u32,
    /// Current state of the hand.
    pub state: HandState,
    /// Whether the player doubled down on this hand.
    pub is_doubled: bool,
}

impl View for Hand {
    type V = HandView;

    open spec fn view(&self) -> HandView {
        HandView {
            cards: self.cards@,
            bet: self.bet,
            state: self.state,
            is_doubled: self.is_doubled,
        }
    }
}

/// Points of a rank with the Ace counted low (1).
pub open spec fn low_points(r: Rank) -> nat {
    if r == Rank::Ace {
        1
    } else {
        r.points() as nat
    }
}

/// Total of the cards with every Ace counted as 1.
pub open spec fn hard_total(cards: Seq<Card>) -> nat
    decreases cards.len(),
{
    if cards.len() == 0 {
        0
    } else {
        hard_total(cards.drop_last()) + low_points(cards.last().rank)
    }
}

/// Total of the cards with every Ace counted as 11.
pub open spec fn raw_total(cards: Seq<Card>) -> nat
    decreases cards.len(),
{
    if cards.len() == 0 {
        0
    } else {
        raw_total(cards.drop_last()) + cards.last().rank.points() as nat
    }
}

/// Number of Aces among the cards.
pub open spec fn ace_count(cards: Seq<Card>) -> nat
    decreases cards.len(),
{
    if cards.len() == 0 {
        0
    } else {
        ace_count(cards.drop_last()) + (if cards.last().rank == Rank::Ace {
            1nat
        } else {
            0nat
        })
    }
}

/// The total is soft: one Ace can still count as 11 without going over 21.
pub open spec fn is_soft_total(cards: Seq<Card>) -> bool {
    ace_count(cards) > 0 && hard_total(cards) + 10 <= 21
}

/// The best total: the soft total when there is one, else the hard total.
pub open spec fn best_total(cards: Seq<Card>) -> nat {
    if is_soft_total(cards) {
        hard_total(cards) + 10
    } else {
        hard_total(cards)
    }
}

/// The score reported for a hand: the best total, capped at 255.
pub open spec fn hand_score(cards: Seq<Card>) -> u8 {
    if best_total(cards) <= 255 {
        best_total(cards) as u8
    } else {
        255
    }
}

/// The cards total more than 21.
pub open spec fn is_bust_cards(cards: Seq<Card>) -> bool {
    hand_score(cards) > 21
}

/// Exactly two cards that total 21.
pub open spec fn is_natural(cards: Seq<Card>) -> bool {
    cards.len() == 2 && hand_score(cards) == 21
}

/// Exactly two cards of the same rank.
pub open spec fn is_pair_cards(cards: Seq<Card>) -> bool {
    cards.len() == 2 && cards[0].rank == cards[1].rank
}

/// The result of demoting Aces from 11 to 1, one at a time, while the total is over 21.
pub open spec fn demoted_total(total: int, aces: nat) -> int
    decreases aces,
{
    if total > 21 && aces > 0 {
        demoted_total(total - 10, (aces - 1) as nat)
    } else {
        total
    }
}

/// The number of Aces still counted as 11 after that demotion.
pub open spec fn demoted_aces(total: int, aces: nat) -> nat
    decreases aces,
{
    if total > 21 && aces > 0 {
        demoted_aces(total - 10, (aces - 1) as nat)
    } else {
        aces
    }
}

/// The total of the cards when exactly `j` of the Aces count as 11.
pub open spec fn total_with_high_aces(cards: Seq<Card>, j: int) -> int {
    hard_total(cards) + 10 * j
}

/// `t` is a total the cards can make, counting each Ace as 1 or as 11.
pub open spec fn can_total(cards: Seq<Card>, t: int) -> bool {
    exists|j: int| 0 <= j <= ace_count(cards) && t == #[trigger] total_with_high_aces(cards, j)
}

/// A hard total of at least the number of Aces, and the high-Ace total ten more per Ace.
pub proof fn lemma_totals(cards: Seq<Card>)
    ensures
        hard_total(cards) >= ace_count(cards),
        raw_total(cards) == hard_total(cards) + 10 * ace_count(cards),
    decreases cards.len(),
{
    if cards.len() > 0 {
        lemma_totals(cards.drop_last());
    }
}

proof fn lemma_demotion(h: int, k: nat)
    requires
        h >= k,
        h >= 0,
    ensures
        demoted_total(h + 10 * k, k) == (if k >= 1 && h + 10 <= 21 {
            h + 10
        } else {
            h
        }),
        demoted_aces(h + 10 * k, k) == (if k >= 1 && h + 10 <= 21 {
            1nat
        } else {
            0nat
        }),
    decreases k,
{
    if k > 0 {
        if h + 10 * k > 21 {
            lemma_demotion(h, (k - 1) as nat);
            assert(h + 10 * k - 10 == h + 10 * (k - 1));
        }
    }
}

/// The score is what demoting Aces from 11 to 1, one at a time while the hand
/// is over 21, leaves (capped at 255); the hand is soft exactly when an Ace is
/// still counted as 11 at the end and the total is at most 21.
pub proof fn lemma_score_is_ace_demotion(cards: Seq<Card>)
    ensures
        best_total(cards) == demoted_total(raw_total(cards) as int, ace_count(cards)),
        is_soft_total(cards) == (demoted_aces(raw_total(cards) as int, ace_count(cards)) > 0
            && demoted_total(raw_total(cards) as int, ace_count(cards)) <= 21),
{
    lemma_totals(cards);
    lemma_demotion(hard_total(cards) as int, ace_count(cards));
}

/// The score is the highest total of at most 21 the cards can make, counting each
/// Ace as 1 or 11; when every such total is over 21 it is the lowest one.
pub proof fn lemma_score_is_best_count(cards: Seq<Card>)
    ensures
        can_total(cards, best_total(cards) as int),
        best_total(cards) <= 21 ==> forall|t: int|
            can_total(cards, t) && t <= 21 ==> t <= best_total(cards),
        best_total(cards) > 21 ==> forall|t: int| can_total(cards, t) ==> best_total(cards) <= t,
{
    lemma_totals(cards);
    if is_soft_total(cards) {
        assert(total_with_high_aces(cards, 1) == best_total(cards));
    } else {
        assert(total_with_high_aces(cards, 0) == best_total(cards));
    }
    assert forall|t: int| can_total(cards, t) && t <= 21 implies t <= best_total(cards) by {
        let j = choose|j: int| 0 <= j <= ace_count(cards) && t == total_with_high_aces(cards, j);
        if j >= 2 {
            assert(hard_total(cards) + 10 * j >= 22);
        }
    }
    assert forall|t: int| best_total(cards) > 21 && can_total(cards, t) implies best_total(cards)
        <= t by {
        let j = choose|j: int| 0 <= j <= ace_count(cards) && t == total_with_high_aces(cards, j);
    }
}

impl Hand {
    /// Create a new empty hand with a given bet.
    #[must_use]
    pub fn new(bet: u32) -> (h: Self)
        ensures
            h@ == (HandView { cards: Seq::empty(), bet, state: HandState::Active, is_doubled: false }),
    {
        Self { cards: Vec::new(), bet, state: HandState::Active, is_doubled: false }
    }

    /// A copy of this hand with the same cards, bet, state and doubled flag.
    pub fn duplicate(&self) -> (h: Self)
        ensures
            h@ == self@,
    {
        let cards = self.cards.clone();
        assert(cards@ =~= self.cards@);
        Hand { cards, bet: self.bet, state: self.state, is_doubled: self.is_doubled }
    }

    /// The hard total (capped at 256) and whether the hand holds an Ace.
    fn hard_total_and_ace(&self) -> (r: (u32, bool))
        ensures
            r.0 == (if hard_total(self.cards@) < 256 {
                hard_total(self.cards@)
            } else {
                256
            }),
            r.1 == (ace_count(self.cards@) > 0),
    {
        let mut hard: u32 = 0;
        let mut ace = false;
        let n = self.cards.len();
        for i in 0..n
            invariant
                n == self.cards@.len(),
                hard == (if hard_total(self.cards@.take(i as int)) < 256 {
                    hard_total(self.cards@.take(i as int))
                } else {
                    256
                }),
                ace == (ace_count(self.cards@.take(i as int)) > 0),
        {
            let rank = self.cards[i].rank;
            let v: u32 = if rank == Rank::Ace {
                ace = true;
                1
            } else {
                rank.value() as u32
            };
            hard = if hard + v > 256 {
                256
            } else {
                hard + v
            };
            assert(self.cards@.take(i + 1).drop_last() =~= self.cards@.take(i as int));
        }
        assert(self.cards@.take(n as int) =~= self.cards@);
        (hard, ace)
    }

    /// Compute the best score for this hand (highest value ≤ 21, or lowest bust value).
    #[must_use]
    pub fn score(&self) -> (s: u8)
        ensures
            s == hand_score(self.cards@),
    {
        let (hard, ace) = self.hard_total_and_ace();
        if ace && hard + 10 <= 21 {
            (hard + 10) as u8
        } else if hard > 255 {
            255
        } else {
            hard as u8
        }
    }

    /// True if the hand is a bust (score > 21).
    #[must_use]
    pub fn is_bust(&self) -> (b: bool)
        ensures
            b == is_bust_cards(self.cards@),
            b == (best_total(self.cards@) > 21),
    {
        self.score() > 21
    }

    /// True if the hand is a natural blackjack (exactly 2 cards, score == 21).
    #[must_use]
    pub fn is_natural_blackjack(&self) -> (b: bool)
        ensures
            b == is_natural(self.cards@),
    {
        self.cards.len() == 2 && self.score() == 21
    }

    /// True if the hand is a pair (same rank on both cards) — required for split.
    #[must_use]
    pub fn is_pair(&self) -> (b: bool)
        ensures
            b == is_pair_cards(self.cards@),
    {
        self.cards.len() == 2 && self.cards[0].rank == self.cards[1].rank
    }

    /// True if the score is "soft" (at least one Ace is still counted as 11).
    #[must_use]
    pub fn is_soft(&self) -> (b: bool)
        ensures
            b == is_soft_total(self.cards@),
    {
        let (hard, ace) = self.hard_total_and_ace();
        ace && hard + 10 <= 21
    }
}

} // verus!
