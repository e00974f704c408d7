use blackjack::game::card::{Card, Rank, Suit};
use blackjack::game::dealer::{dealer_has_blackjack, play_dealer};
use blackjack::game::hand::Hand;
use blackjack::game::state::GameState;

fn card(rank: Rank) -> Card {
    Card { suit: Suit::Hearts, rank }
}

#[test]
fn test_dealer_stands_on_hard_17() {
    let mut gs = GameState::new();
    gs.dealer_hand = Hand::new(0);
    gs.dealer_hand.cards.push(card(Rank::Ten));
    gs.dealer_hand.cards.push(card(Rank::Seven));
    play_dealer(&mut gs);
    assert_eq!(gs.dealer_hand.score(), 17);
    assert_eq!(gs.dealer_hand.cards.len(), 2);
}

#[test]
fn test_dealer_hits_on_16() {
    let mut gs = GameState::new();
    gs.dealer_hand = Hand::new(0);
    gs.dealer_hand.cards.push(card(Rank::Ten));
    gs.dealer_hand.cards.push(card(Rank::Six));
    play_dealer(&mut gs);
    // Dealer must have drawn at least one more card (started at 16, must hit)
    assert!(gs.dealer_hand.cards.len() >= 3);
    // After play_dealer exits, score is always >= 17 (loop invariant)
    assert!(gs.dealer_hand.score() >= 17);
}

#[test]
fn test_dealer_stands_on_soft_17() {
    let mut gs = GameState::new();
    gs.dealer_hand = Hand::new(0);
    gs.dealer_hand.cards.push(card(Rank::Ace));
    gs.dealer_hand.cards.push(card(Rank::Six));
    // Soft 17: Ace + Six. Standard rule: stand on soft 17.
    play_dealer(&mut gs);
    assert_eq!(gs.dealer_hand.score(), 17);
    assert_eq!(gs.dealer_hand.cards.len(), 2);
}

#[test]
fn test_dealer_blackjack_detection() {
    let mut h = Hand::new(0);
    h.cards.push(card(Rank::Ace));
    h.cards.push(card(Rank::King));
    assert!(dealer_has_blackjack(&h));
}

#[test]
fn test_dealer_no_blackjack_on_non_natural() {
    let mut h = Hand::new(0);
    h.cards.push(card(Rank::Ten));
    h.cards.push(card(Rank::Five));
    h.cards.push(card(Rank::Six));
    assert!(!dealer_has_blackjack(&h));
}

#[test]
fn test_dealer_draws_from_top_of_deck_until_17() {
    // Known deck (more than the reshuffle threshold): the top is the end.
    let mut gs = GameState::new();
    let mut deck = vec![card(Rank::Two); 60];
    deck.push(card(Rank::King)); // drawn third (never reached)
    deck.push(card(Rank::Three)); // drawn second
    deck.push(card(Rank::Two)); // drawn first
    gs.deck = deck;
    gs.dealer_hand = Hand::new(0);
    gs.dealer_hand.cards.push(card(Rank::Ten));
    gs.dealer_hand.cards.push(card(Rank::Two));
    play_dealer(&mut gs);
    // 12 -> 14 -> 17: stops at 17 after two cards.
    assert_eq!(gs.dealer_hand.cards.len(), 4);
    assert_eq!(gs.dealer_hand.score(), 17);
    assert_eq!(gs.deck.len(), 61);
    assert_eq!(gs.deck[60].rank, Rank::King);
}

#[test]
fn test_dealer_soft_16_hits_and_ace_turns_hard() {
    let mut gs = GameState::new();
    let mut deck = vec![card(Rank::Two); 60];
    deck.push(card(Rank::Ten)); // A+5+10 = hard 16, must hit again
    gs.deck = deck;
    gs.deck.insert(0, card(Rank::Five)); // bottom, unused
    gs.deck.push(card(Rank::Ten));
    gs.dealer_hand = Hand::new(0);
    gs.dealer_hand.cards.push(card(Rank::Ace));
    gs.dealer_hand.cards.push(card(Rank::Five));
    play_dealer(&mut gs);
    // A+5 = soft 16 -> +10 = hard 16 -> +10 = 26 bust
    assert_eq!(gs.dealer_hand.cards.len(), 4);
    assert!(gs.dealer_hand.is_bust());
}
