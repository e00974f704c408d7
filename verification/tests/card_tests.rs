use blackjack::game::card::{new_shoe, Card, Rank, Suit};

#[test]
fn test_shoe_has_312_cards() {
    let shoe = new_shoe();
    assert_eq!(shoe.len(), 312);
}

#[test]
fn test_shoe_has_correct_distribution() {
    let shoe = new_shoe();
    // 6 decks * 4 suits * 1 rank = 24 of each rank
    let aces = shoe.iter().filter(|c| c.rank == Rank::Ace).count();
    assert_eq!(aces, 24);
    let kings = shoe.iter().filter(|c| c.rank == Rank::King).count();
    assert_eq!(kings, 24);
}

#[test]
fn test_rank_values() {
    assert_eq!(Rank::Two.value(), 2);
    assert_eq!(Rank::Ten.value(), 10);
    assert_eq!(Rank::Jack.value(), 10);
    assert_eq!(Rank::Queen.value(), 10);
    assert_eq!(Rank::King.value(), 10);
    assert_eq!(Rank::Ace.value(), 11);
}

fn canonical() -> Vec<Card> {
    let suits = [Suit::Clubs, Suit::Diamonds, Suit::Hearts, Suit::Spades];
    let ranks = [
        Rank::Two, Rank::Three, Rank::Four, Rank::Five, Rank::Six,
        Rank::Seven, Rank::Eight, Rank::Nine, Rank::Ten,
        Rank::Jack, Rank::Queen, Rank::King, Rank::Ace,
    ];
    let mut deck = Vec::new();
    for _ in 0..6 {
        for &s in suits.iter() {
            for &r in ranks.iter() {
                deck.push(Card { suit: s, rank: r });
            }
        }
    }
    deck
}

#[test]
fn test_shoe_is_shuffled() {
    // A shuffled shoe should not be in canonical (sorted) order.
    let canonical = canonical();
    let shoe = new_shoe();
    assert_ne!(shoe, canonical, "Shoe should not be in canonical sorted order after shuffle");
}

#[test]
fn test_shoe_holds_each_card_six_times() {
    let shoe = new_shoe();
    for c in canonical().iter().take(52) {
        assert_eq!(shoe.iter().filter(|x| *x == c).count(), 6);
    }
}

#[test]
fn test_rank_values_all() {
    let expected = [
        (Rank::Three, 3), (Rank::Four, 4), (Rank::Five, 5), (Rank::Six, 6),
        (Rank::Seven, 7), (Rank::Eight, 8), (Rank::Nine, 9),
    ];
    for (r, v) in expected {
        assert_eq!(r.value(), v);
    }
}
