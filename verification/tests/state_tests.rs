use blackjack::game::card::{Card, Rank, Suit};
use blackjack::game::hand::{Hand, HandState};
use blackjack::game::state::{Action, GamePhase, GameState, RESHUFFLE_THRESHOLD, STARTING_CHIPS};

fn card(rank: Rank) -> Card {
    Card { suit: Suit::Clubs, rank }
}

#[test]
fn test_new_game_defaults() {
    let gs = GameState::new();
    assert_eq!(gs.chips, STARTING_CHIPS);
    assert_eq!(gs.phase, GamePhase::Waiting);
    assert!(gs.player_hands.is_empty());
}

#[test]
fn test_draw_card_reduces_deck() {
    let mut gs = GameState::new();
    let initial = gs.deck.len();
    gs.draw_card();
    assert_eq!(gs.deck.len(), initial - 1);
}

#[test]
fn test_available_actions_waiting() {
    let gs = GameState::new();
    assert_eq!(gs.available_actions(), vec![Action::Deal]);
}

#[test]
fn test_available_actions_complete() {
    let mut gs = GameState::new();
    gs.phase = GamePhase::Complete;
    assert_eq!(gs.available_actions(), vec![Action::NewHand]);
}

#[test]
fn test_available_actions_dealer_turn() {
    let mut gs = GameState::new();
    gs.phase = GamePhase::DealerTurn;
    assert!(gs.available_actions().is_empty());
}

#[test]
fn test_draw_card_takes_top_card() {
    let mut gs = GameState::new();
    let mut deck = vec![card(Rank::Two); RESHUFFLE_THRESHOLD];
    deck.push(card(Rank::Queen));
    gs.deck = deck;
    let c = gs.draw_card();
    assert_eq!(c, card(Rank::Queen));
    assert_eq!(gs.deck.len(), RESHUFFLE_THRESHOLD);
}

#[test]
fn test_draw_card_reshuffles_below_threshold() {
    let mut gs = GameState::new();
    gs.deck = vec![card(Rank::Two); RESHUFFLE_THRESHOLD - 1];
    gs.draw_card();
    // A fresh 312-card shoe, less the card drawn.
    assert_eq!(gs.deck.len(), 311);
}

fn player_turn_with(cards: &[Rank], bet: u32, chips: u32) -> GameState {
    let mut gs = GameState::new();
    let mut hand = Hand::new(bet);
    for r in cards {
        hand.cards.push(card(*r));
    }
    gs.player_hands = vec![hand];
    gs.chips = chips;
    gs.phase = GamePhase::PlayerTurn;
    gs
}

#[test]
fn test_available_actions_pair_offers_double_and_split() {
    let gs = player_turn_with(&[Rank::Eight, Rank::Eight], 10, 100);
    assert_eq!(gs.available_actions(), vec![Action::Hit, Action::Stand, Action::Double, Action::Split]);
}

#[test]
fn test_available_actions_no_chips_only_hit_stand() {
    let gs = player_turn_with(&[Rank::Eight, Rank::Eight], 10, 5);
    assert_eq!(gs.available_actions(), vec![Action::Hit, Action::Stand]);
}

#[test]
fn test_available_actions_split_limit() {
    let mut gs = player_turn_with(&[Rank::Eight, Rank::Eight], 10, 100);
    gs.split_count = 3;
    assert_eq!(gs.available_actions(), vec![Action::Hit, Action::Stand, Action::Double]);
}

#[test]
fn test_available_actions_insurance_offered() {
    let mut gs = player_turn_with(&[Rank::Five, Rank::Nine], 10, 100);
    gs.insurance_offered = true;
    assert_eq!(gs.available_actions(), vec![Action::Hit, Action::Stand, Action::Double, Action::Insurance]);
    gs.insurance_bet = Some(5);
    assert_eq!(gs.available_actions(), vec![Action::Hit, Action::Stand, Action::Double]);
}

#[test]
fn test_available_actions_three_cards_no_double() {
    let gs = player_turn_with(&[Rank::Two, Rank::Three, Rank::Four], 10, 100);
    assert_eq!(gs.available_actions(), vec![Action::Hit, Action::Stand]);
}

#[test]
fn test_available_actions_inactive_or_missing_hand() {
    let mut gs = player_turn_with(&[Rank::Two, Rank::Three], 10, 100);
    gs.player_hands[0].state = HandState::Standing;
    assert!(gs.available_actions().is_empty());
    gs.active_hand_index = 5;
    assert!(gs.available_actions().is_empty());
}

#[test]
fn test_advance_hand_skips_finished_hands() {
    let mut gs = player_turn_with(&[Rank::Two, Rank::Three], 10, 100);
    let mut h1 = Hand::new(10);
    h1.state = HandState::Busted;
    let h2 = Hand::new(10);
    gs.player_hands.push(h1);
    gs.player_hands.push(h2);
    assert!(gs.advance_hand());
    assert_eq!(gs.active_hand_index, 2);
    assert!(!gs.advance_hand());
    assert_eq!(gs.active_hand_index, 2);
}

#[test]
fn test_default_matches_new() {
    let gs = GameState::default();
    assert_eq!(gs.chips, STARTING_CHIPS);
    assert_eq!(gs.deck.len(), 312);
    assert_eq!(gs.dealer_hand.cards.len(), 0);
}

#[test]
fn test_no_insurance_after_split() {
    let mut gs = player_turn_with(&[Rank::Five, Rank::Nine], 10, 100);
    gs.insurance_offered = true;
    gs.split_count = 1;
    assert_eq!(gs.available_actions(), vec![Action::Hit, Action::Stand, Action::Double]);
}

#[test]
fn test_touch_keeps_the_game() {
    let mut gs = GameState::new();
    let before = gs.last_activity;
    gs.touch();
    assert!(gs.last_activity >= before);
    assert_eq!(gs.chips, STARTING_CHIPS);
    let at = gs.last_activity;
    gs.record_activity(before);
    assert_eq!(gs.last_activity, before);
    assert!(at >= before);
}
