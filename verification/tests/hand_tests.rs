use blackjack::game::card::{Card, Rank, Suit};
use blackjack::game::hand::{Hand, HandState};

fn card(rank: Rank) -> Card {
    Card { suit: Suit::Spades, rank }
}

#[test]
fn test_score_simple() {
    let mut h = Hand::new(10);
    h.cards.push(card(Rank::Five));
    h.cards.push(card(Rank::Seven));
    assert_eq!(h.score(), 12);
}

#[test]
fn test_score_soft_ace() {
    let mut h = Hand::new(10);
    h.cards.push(card(Rank::Ace));
    h.cards.push(card(Rank::Six));
    assert_eq!(h.score(), 17); // soft 17
    assert!(h.is_soft());
}

#[test]
fn test_score_ace_demotion() {
    let mut h = Hand::new(10);
    h.cards.push(card(Rank::Ace));
    h.cards.push(card(Rank::Nine));
    h.cards.push(card(Rank::Five));
    assert_eq!(h.score(), 15); // Ace demoted to 1
}

#[test]
fn test_natural_blackjack() {
    let mut h = Hand::new(10);
    h.cards.push(card(Rank::Ace));
    h.cards.push(card(Rank::King));
    assert!(h.is_natural_blackjack());
    assert_eq!(h.score(), 21);
}

#[test]
fn test_bust() {
    let mut h = Hand::new(10);
    h.cards.push(card(Rank::King));
    h.cards.push(card(Rank::Queen));
    h.cards.push(card(Rank::Five));
    assert!(h.is_bust());
    assert_eq!(h.score(), 25);
}

#[test]
fn test_is_pair() {
    let mut h = Hand::new(10);
    h.cards.push(card(Rank::Eight));
    h.cards.push(card(Rank::Eight));
    assert!(h.is_pair());
}

#[test]
fn test_not_pair_different_ranks() {
    let mut h = Hand::new(10);
    h.cards.push(card(Rank::Eight));
    h.cards.push(card(Rank::Nine));
    assert!(!h.is_pair());
}

#[test]
fn test_two_aces_score() {
    let mut h = Hand::new(10);
    h.cards.push(card(Rank::Ace));
    h.cards.push(card(Rank::Ace));
    assert_eq!(h.score(), 12); // one Ace = 11, other = 1
}

#[test]
fn test_two_aces_and_eight_is_soft_20() {
    let mut h = Hand::new(10);
    h.cards.push(card(Rank::Ace));
    h.cards.push(card(Rank::Ace));
    h.cards.push(card(Rank::Eight));
    assert_eq!(h.score(), 20);
    assert!(h.is_soft(), "A+A+8 should be soft 20");
}

#[test]
fn test_three_aces_score() {
    let mut h = Hand::new(10);
    h.cards.push(card(Rank::Ace));
    h.cards.push(card(Rank::Ace));
    h.cards.push(card(Rank::Ace));
    assert_eq!(h.score(), 13); // 11 + 1 + 1
}

#[test]
fn test_is_not_soft_when_all_aces_demoted() {
    let mut h = Hand::new(10);
    h.cards.push(card(Rank::Ace));
    h.cards.push(card(Rank::Nine));
    h.cards.push(card(Rank::Five));
    assert_eq!(h.score(), 15); // hard 15
    assert!(!h.is_soft(), "A+9+5 should be hard 15");
}

#[test]
fn test_new_hand_is_empty_and_active() {
    let h = Hand::new(25);
    assert!(h.cards.is_empty());
    assert_eq!(h.bet, 25);
    assert_eq!(h.state, HandState::Active);
    assert!(!h.is_doubled);
    assert_eq!(h.score(), 0);
}

#[test]
fn test_score_caps_at_255() {
    // 30 tens total 300: the score is capped at u8::MAX.
    let mut h = Hand::new(1);
    for _ in 0..30 {
        h.cards.push(card(Rank::Ten));
    }
    assert_eq!(h.score(), 255);
    assert!(h.is_bust());
}

#[test]
fn test_three_cards_21_is_not_natural() {
    let mut h = Hand::new(1);
    h.cards.push(card(Rank::Seven));
    h.cards.push(card(Rank::Seven));
    h.cards.push(card(Rank::Seven));
    assert_eq!(h.score(), 21);
    assert!(!h.is_natural_blackjack());
    assert!(!h.is_soft());
}

#[test]
fn test_soft_twenty_one_with_ace_and_ten_cards() {
    // A + 10 + 10: the Ace must count low, hard 21.
    let mut h = Hand::new(1);
    h.cards.push(card(Rank::Ace));
    h.cards.push(card(Rank::Ten));
    h.cards.push(card(Rank::King));
    assert_eq!(h.score(), 21);
    assert!(!h.is_soft());
    assert!(!h.is_bust());
}

#[test]
fn test_duplicate_copies_everything() {
    let mut h = Hand::new(40);
    h.cards.push(card(Rank::Two));
    h.state = HandState::Standing;
    h.is_doubled = true;
    let d = h.duplicate();
    assert_eq!(d.cards, h.cards);
    assert_eq!(d.bet, 40);
    assert_eq!(d.state, HandState::Standing);
    assert!(d.is_doubled);
}
