//! Card primitives: suits, ranks, the six-deck shoe and its shuffle.

use rand::seq::SliceRandom;
use rand_core::OsRng;
use vstd::prelude::*;

verus! {

/// Card suit.
#[derive(Debug, Clone, Copy, PartialEq, Eq, Hash, Structural)]
pub enum Suit {
    /// Clubs
    Clubs,
    /// Diamonds
    Diamonds,
    /// Hearts
    Hearts,
    /// Spades
    Spades,
}

/// Card rank.
#[derive(Debug, Clone, Copy, PartialEq, Eq, Hash, Structural)]
pub enum Rank {
    /// Two
    Two,
    /// Three
    Three,
    /// Four
    Four,
    /// Five
    Five,
    /// Six
    Six,
    /// Seven
    Seven,
    /// Eight
    Eight,
    /// Nine
    Nine,
    /// Ten
    Ten,
    /// Jack
    Jack,
    /// Queen
    Queen,
    /// King
    King,
    /// Ace
    Ace,
}

/// A playing card.
#[derive(Debug, Clone, Copy, PartialEq, Eq, Hash, Structural)]
pub struct Card {
    /// Suit of the card.
    pub suit: Suit,
    /// Rank of the card.
    pub rank: Rank,
}

/// Number of cards in a fresh shoe: six full decks of 52 cards.
pub const SHOE_SIZE: usize = 312;

impl Rank {
    /// Point value of a rank, with the Ace counted high (11).
    pub open spec fn points(self) -> u8 {
        match self {
            Rank::Two => 2,
            Rank::Three => 3,
            Rank::Four => 4,
            Rank::Five => 5,
            Rank::Six => 6,
            Rank::Seven => 7,
            Rank::Eight => 8,
            Rank::Nine => 9,
            Rank::Ten | Rank::Jack | Rank::Queen | Rank::King => 10,
            Rank::Ace => 11,
        }
    }

    /// Base point value (Ace = 11; handled as soft/hard in hand scoring).
    #[must_use]
    pub fn value(self) -> (v: u8)
        ensures
            v == self.points(),
    {
        match self {
            Rank::Two => 2,
            Rank::Three => 3,
            Rank::Four => 4,
            Rank::Five => 5,
            Rank::Six => 6,
            Rank::Seven => 7,
            Rank::Eight => 8,
            Rank::Nine => 9,
            Rank::Ten | Rank::Jack | Rank::Queen | Rank::King => 10,
            Rank::Ace => 11,
        }
    }
}

/// The suit at position `i` in the order clubs, diamonds, hearts, spades.
pub open spec fn suit_at(i: int) -> Suit {
    if i == 0 {
        Suit::Clubs
    } else if i == 1 {
        Suit::Diamonds
    } else if i == 2 {
        Suit::Hearts
    } else {
        Suit::Spades
    }
}

/// The rank at position `i` in the order two, three, ..., king, ace.
pub open spec fn rank_at(i: int) -> Rank {
    if i == 0 {
        Rank::Two
    } else if i == 1 {
        Rank::Three
    } else if i == 2 {
        Rank::Four
    } else if i == 3 {
        Rank::Five
    } else if i == 4 {
        Rank::Six
    } else if i == 5 {
        Rank::Seven
    } else if i == 6 {
        Rank::Eight
    } else if i == 7 {
        Rank::Nine
    } else if i == 8 {
        Rank::Ten
    } else if i == 9 {
        Rank::Jack
    } else if i == 10 {
        Rank::Queen
    } else if i == 11 {
        Rank::King
    } else {
        Rank::Ace
    }
}

/// The card at position `i` of the unshuffled shoe: decks one after the other,
/// each deck suit by suit, each suit rank by rank.
pub open spec fn shoe_card(i: int) -> Card {
    Card { suit: suit_at((i % 52) / 13), rank: rank_at(i % 13) }
}

/// The unshuffled six-deck shoe.
pub open spec fn canonical_shoe() -> Seq<Card> {
    Seq::new(SHOE_SIZE as nat, |i: int| shoe_card(i))
}

/// A fresh shoe: some ordering of exactly the cards of six full decks.
pub open spec fn is_fresh_shoe(s: Seq<Card>) -> bool {
    s.to_multiset() == canonical_shoe().to_multiset()
}

fn suit_from_index(i: usize) -> (s: Suit)
    requires
        i < 4,
    ensures
        s == suit_at(i as int),
{
    if i == 0 {
        Suit::Clubs
    } else if i == 1 {
        Suit::Diamonds
    } else if i == 2 {
        Suit::Hearts
    } else {
        Suit::Spades
    }
}

fn rank_from_index(i: usize) -> (r: Rank)
    requires
        i < 13,
    ensures
        r == rank_at(i as int),
{
    if i == 0 {
        Rank::Two
    } else if i == 1 {
        Rank::Three
    } else if i == 2 {
        Rank::Four
    } else if i == 3 {
        Rank::Five
    } else if i == 4 {
        Rank::Six
    } else if i == 5 {
        Rank::Seven
    } else if i == 6 {
        Rank::Eight
    } else if i == 7 {
        Rank::Nine
    } else if i == 8 {
        Rank::Ten
    } else if i == 9 {
        Rank::Jack
    } else if i == 10 {
        Rank::Queen
    } else if i == 11 {
        Rank::King
    } else {
        Rank::Ace
    }
}

/// Shuffles `deck` in place with the operating system's random number generator.
///
/// Calls `rand::seq::SliceRandom::shuffle` (rand 0.8) with `rand_core::OsRng`.
/// That shuffle is a Fisher-Yates pass made only of swaps, so the contract
/// claims that the result is a reordering of the same cards. Which order comes
/// out is left unsaid: it is random. `OsRng` panics if the operating system
/// cannot supply random bytes; that failure depends on the machine, not on
/// the argument, and is not excluded here.
#[verifier::external_body]
fn shuffle_cards(deck: &mut Vec<Card>)
    ensures
        final(deck)@.len() == old(deck)@.len(),
        final(deck)@.to_multiset() == old(deck)@.to_multiset(),
{
    deck.shuffle(&mut OsRng);
}

/// Build a fresh 6-deck shoe (312 cards) and shuffle it with OsRng.
#[must_use]
pub fn new_shoe() -> (shoe: Vec<Card>)
    ensures
        shoe@.len() == SHOE_SIZE,
        is_fresh_shoe(shoe@),
{
    let mut deck: Vec<Card> = Vec::new();
    let mut i: usize = 0;
    while i < SHOE_SIZE
        invariant
            i <= SHOE_SIZE,
            deck@ == canonical_shoe().take(i as int),
        decreases SHOE_SIZE - i,
    {
        let card = Card { suit: suit_from_index((i % 52) / 13), rank: rank_from_index(i % 13) };
        deck.push(card);
        assert(deck@ =~= canonical_shoe().take(i + 1));
        i = i + 1;
    }
    assert(deck@ =~= canonical_shoe());
    shuffle_cards(&mut deck);
    deck
}

/// Position of a suit in the order clubs, diamonds, hearts, spades.
pub open spec fn suit_index(s: Suit) -> int {
    match s {
        Suit::Clubs => 0,
        Suit::Diamonds => 1,
        Suit::Hearts => 2,
        Suit::Spades => 3,
    }
}

/// Position of a rank in the order two, three, ..., king, ace.
pub open spec fn rank_index(r: Rank) -> int {
    match r {
        Rank::Two => 0,
        Rank::Three => 1,
        Rank::Four => 2,
        Rank::Five => 3,
        Rank::Six => 4,
        Rank::Seven => 5,
        Rank::Eight => 6,
        Rank::Nine => 7,
        Rank::Ten => 8,
        Rank::Jack => 9,
        Rank::Queen => 10,
        Rank::King => 11,
        Rank::Ace => 12,
    }
}

/// Position of a card within one deck of the unshuffled shoe.
pub open spec fn card_index(c: Card) -> int {
    suit_index(c.suit) * 13 + rank_index(c.rank)
}

proof fn lemma_mod_52_13(k: int)
    requires
        k >= 0,
    ensures
        k % 13 == (k % 52) % 13,
        0 <= (k % 52) / 13 < 4,
        (k % 52) == ((k % 52) / 13) * 13 + (k % 52) % 13,
{
    assert(k % 13 == (k % 52) % 13) by (nonlinear_arith)
        requires
            k >= 0,
    ;
}

proof fn lemma_shoe_card_index(k: int, c: Card)
    requires
        k >= 0,
    ensures
        (shoe_card(k) == c) == (k % 52 == card_index(c)),
{
    lemma_mod_52_13(k);
}

proof fn lemma_step_count(k: int, idx: int)
    requires
        1 <= k,
        0 <= idx < 52,
    ensures
        (k + 51 - idx) / 52 == (k + 50 - idx) / 52 + (if (k - 1) % 52 == idx {
            1int
        } else {
            0int
        }),
{
    assert((k + 51 - idx) / 52 == (k + 50 - idx) / 52 + (if (k - 1) % 52 == idx {
        1int
    } else {
        0int
    })) by (nonlinear_arith)
        requires
            1 <= k,
            0 <= idx < 52,
    ;
}

proof fn lemma_prefix_count(k: int, c: Card)
    requires
        0 <= k <= SHOE_SIZE,
    ensures
        canonical_shoe().take(k).to_multiset().count(c) == (k + 51 - card_index(c)) / 52,
    decreases k,
{
    broadcast use vstd::seq_lib::group_to_multiset_ensures;

    if k == 0 {
        assert(canonical_shoe().take(0) =~= Seq::<Card>::empty());
        assert(Seq::<Card>::empty().to_multiset().len() == 0);
    } else {
        lemma_prefix_count(k - 1, c);
        assert(canonical_shoe().take(k) =~= canonical_shoe().take(k - 1).push(shoe_card(k - 1)));
        lemma_shoe_card_index(k - 1, c);
        lemma_step_count(k, card_index(c));
    }
}

/// A fresh shoe holds 312 cards: each of the 52 cards of a deck exactly six times.
pub proof fn lemma_fresh_shoe_counts(s: Seq<Card>)
    requires
        is_fresh_shoe(s),
    ensures
        s.len() == SHOE_SIZE,
        forall|c: Card| #[trigger] s.to_multiset().count(c) == 6,
{
    broadcast use vstd::seq_lib::group_to_multiset_ensures;

    assert(canonical_shoe().take(SHOE_SIZE as int) =~= canonical_shoe());
    assert forall|c: Card| #[trigger] s.to_multiset().count(c) == 6 by {
        lemma_prefix_count(SHOE_SIZE as int, c);
    }
    assert(s.to_multiset().len() == canonical_shoe().to_multiset().len());
}

} // verus!
