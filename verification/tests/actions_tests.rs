use blackjack::game::actions::{action_fits, deal, double, hit, insurance, new_hand, resolve_round, split, stand};
use blackjack::game::card::{Card, Rank, Suit};
use blackjack::game::hand::{Hand, HandState};
use blackjack::game::state::{Action, GamePhase, GameState, STARTING_CHIPS};

#[test]
fn test_deal_valid() {
    let mut gs = GameState::new();
    deal(&mut gs, 100).expect("deal failed");
    assert_eq!(gs.player_hands.len(), 1);
    assert_eq!(gs.player_hands[0].cards.len(), 2);
    // Dealer always starts with 2 cards; if player has natural BJ, play_dealer
    // may draw additional cards, so we assert >= 2.
    assert!(gs.dealer_hand.cards.len() >= 2);
    // Bet deduction happened unconditionally; if BJ resolved, payout was added back.
    // In PlayerTurn the bet is still outstanding; in Complete it has been settled.
    if gs.phase == GamePhase::PlayerTurn {
        assert_eq!(gs.chips, STARTING_CHIPS - 100);
    }
}

#[test]
fn test_deal_insufficient_chips() {
    let mut gs = GameState::new();
    let result = deal(&mut gs, STARTING_CHIPS + 1);
    assert!(result.is_err());
}

#[test]
fn test_deal_zero_bet() {
    let mut gs = GameState::new();
    let result = deal(&mut gs, 0);
    assert!(result.is_err());
}

#[test]
fn test_new_hand_resets_state() {
    let mut gs = GameState::new();
    gs.phase = GamePhase::Complete;
    new_hand(&mut gs).expect("new_hand failed");
    assert_eq!(gs.phase, GamePhase::Waiting);
    assert!(gs.player_hands.is_empty());
}

#[test]
fn test_new_hand_requires_complete_phase() {
    let mut gs = GameState::new();
    assert!(new_hand(&mut gs).is_err());
}

#[test]
fn test_hit_adds_card() {
    let mut gs = GameState::new();
    deal(&mut gs, 50).expect("deal");
    // Only test if in PlayerTurn (may be Complete on natural BJ)
    if gs.phase == GamePhase::PlayerTurn {
        let cards_before = gs.player_hands[0].cards.len();
        hit(&mut gs).expect("hit");
        // Hand may have ended (bust) but a card was drawn
        assert!(gs.player_hands[0].cards.len() > cards_before);
    }
}

#[test]
fn test_stand_transitions_phase() {
    let mut gs = GameState::new();
    deal(&mut gs, 50).expect("deal");
    if gs.phase == GamePhase::PlayerTurn {
        stand(&mut gs).expect("stand");
        // After standing with one hand, dealer plays and round completes
        assert_eq!(gs.phase, GamePhase::Complete);
    }
}

#[test]
fn test_double_doubles_bet() {
    let mut gs = GameState::new();
    deal(&mut gs, 50).expect("deal");
    if gs.phase == GamePhase::PlayerTurn {
        let original_bet = gs.player_hands[0].bet;
        double(&mut gs).expect("double");
        // Bet should be doubled (resolve_round may have changed chips, but bet is captured before)
        assert_eq!(gs.player_hands[0].bet, original_bet * 2);
        // Hand should be marked as doubled
        assert!(gs.player_hands[0].is_doubled);
        // Round must be complete after double (one card dealt then stand, dealer plays)
        assert_eq!(gs.phase, GamePhase::Complete);
    }
}

#[test]
fn test_invalid_action_returns_error() {
    let mut gs = GameState::new();
    // Can't hit in Waiting phase
    assert!(hit(&mut gs).is_err());
    // Can't stand in Waiting phase
    assert!(stand(&mut gs).is_err());
}

#[test]
fn test_resolve_round_win_pays_correctly() {
    let mut gs = GameState::new();
    // Set up a won hand manually
    let mut hand = Hand::new(100);
    hand.state = HandState::Standing;
    // Give player a 20 (King + Ten)
    hand.cards.push(Card { suit: Suit::Spades, rank: Rank::King });
    hand.cards.push(Card { suit: Suit::Spades, rank: Rank::Ten });
    gs.player_hands = vec![hand];
    gs.chips = 0; // chips already deducted at bet time

    // Dealer has 15 (Ten + Five)
    gs.dealer_hand = Hand::new(0);
    gs.dealer_hand.cards.push(Card { suit: Suit::Hearts, rank: Rank::Ten });
    gs.dealer_hand.cards.push(Card { suit: Suit::Hearts, rank: Rank::Five });
    gs.dealer_hand.state = HandState::Standing; // dealer stopped (not relevant to resolve_round)

    // Manually set dealer score to 15 by calling play_dealer would draw more cards;
    // instead just test with a bust dealer
    gs.dealer_hand.cards.push(Card { suit: Suit::Hearts, rank: Rank::King }); // bust: 25
    gs.dealer_hand.state = HandState::Busted;

    resolve_round(&mut gs);
    // Player wins with bust dealer: gets bet * 2 = 200
    assert_eq!(gs.chips, 200);
}

#[test]
fn test_resolve_round_push_tie() {
    let mut gs = GameState::new();
    // Player has 20 (King + Ten)
    let mut hand = Hand::new(100);
    hand.state = HandState::Standing;
    hand.cards.push(Card { suit: Suit::Spades, rank: Rank::King });
    hand.cards.push(Card { suit: Suit::Spades, rank: Rank::Ten });
    gs.player_hands = vec![hand];
    gs.chips = 0;
    // Dealer also has 20 (King + Ten)
    gs.dealer_hand = Hand::new(0);
    gs.dealer_hand.cards.push(Card { suit: Suit::Hearts, rank: Rank::King });
    gs.dealer_hand.cards.push(Card { suit: Suit::Hearts, rank: Rank::Ten });
    resolve_round(&mut gs);
    // Push: bet returned
    assert_eq!(gs.chips, 100);
}

#[test]
fn test_resolve_round_player_bj_vs_dealer_bj_is_push() {
    let mut gs = GameState::new();
    let mut hand = Hand::new(100);
    hand.state = HandState::Blackjack;
    hand.cards.push(Card { suit: Suit::Spades, rank: Rank::Ace });
    hand.cards.push(Card { suit: Suit::Spades, rank: Rank::King });
    gs.player_hands = vec![hand];
    gs.chips = 0;
    // Dealer also has blackjack
    gs.dealer_hand = Hand::new(0);
    gs.dealer_hand.cards.push(Card { suit: Suit::Hearts, rank: Rank::Ace });
    gs.dealer_hand.cards.push(Card { suit: Suit::Hearts, rank: Rank::King });
    resolve_round(&mut gs);
    // Push: bet returned
    assert_eq!(gs.chips, 100);
}

#[test]
fn test_resolve_round_insurance_win() {
    let mut gs = GameState::new();
    let mut hand = Hand::new(100);
    hand.state = HandState::Standing;
    hand.cards.push(Card { suit: Suit::Spades, rank: Rank::Ten });
    hand.cards.push(Card { suit: Suit::Spades, rank: Rank::Eight });
    gs.player_hands = vec![hand];
    gs.chips = 0;
    gs.insurance_bet = Some(50); // player took insurance
    // Dealer has blackjack
    gs.dealer_hand = Hand::new(0);
    gs.dealer_hand.cards.push(Card { suit: Suit::Hearts, rank: Rank::Ace });
    gs.dealer_hand.cards.push(Card { suit: Suit::Hearts, rank: Rank::King });
    resolve_round(&mut gs);
    // Insurance pays 2:1: 50 * 3 = 150 (original 50 + 100 profit)
    // Player's standing hand loses to dealer BJ: 0 returned
    assert_eq!(gs.chips, 150);
}

// ── Deterministic rounds: a known deck, drawn from its end ──────────────────

fn c(rank: Rank) -> Card {
    Card { suit: Suit::Diamonds, rank }
}

/// A game whose next draws are `draws`, in order; plenty of low cards below.
fn game_drawing(draws: &[Rank]) -> GameState {
    let mut gs = GameState::new();
    let mut deck = vec![c(Rank::Two); 60];
    for r in draws.iter().rev() {
        deck.push(c(*r));
    }
    gs.deck = deck;
    gs
}

#[test]
fn test_deal_order_player_dealer_player_dealer() {
    let mut gs = game_drawing(&[Rank::Five, Rank::Ace, Rank::Nine, Rank::Seven]);
    deal(&mut gs, 100).expect("deal");
    assert_eq!(gs.phase, GamePhase::PlayerTurn);
    assert_eq!(gs.player_hands[0].cards, vec![c(Rank::Five), c(Rank::Nine)]);
    assert_eq!(gs.dealer_hand.cards, vec![c(Rank::Ace), c(Rank::Seven)]);
    assert_eq!(gs.chips, 900);
    assert!(gs.insurance_offered);
    assert_eq!(gs.available_actions(), vec![Action::Hit, Action::Stand, Action::Double, Action::Insurance]);
}

#[test]
fn test_deal_natural_pays_three_to_two() {
    let mut gs = game_drawing(&[Rank::Ace, Rank::Ten, Rank::King, Rank::Seven]);
    deal(&mut gs, 100).expect("deal");
    assert_eq!(gs.phase, GamePhase::Complete);
    assert_eq!(gs.player_hands[0].state, HandState::Blackjack);
    assert_eq!(gs.chips, 1150);
    assert_eq!(gs.insurance_bet, None);
    assert_eq!(gs.available_actions(), vec![Action::NewHand]);
}

#[test]
fn test_deal_natural_against_dealer_natural_is_push() {
    let mut gs = game_drawing(&[Rank::Ace, Rank::Ace, Rank::King, Rank::Queen]);
    deal(&mut gs, 100).expect("deal");
    assert_eq!(gs.phase, GamePhase::Complete);
    assert_eq!(gs.chips, 1000);
}

#[test]
fn test_deal_error_messages_leave_state_unchanged() {
    let mut gs = GameState::new();
    let e = deal(&mut gs, 0).unwrap_err();
    assert_eq!(e.0, "bet must be greater than 0");
    let e = deal(&mut gs, 5000).unwrap_err();
    assert_eq!(e.message(), "insufficient chips");
    assert_eq!(gs.chips, STARTING_CHIPS);
    assert_eq!(gs.phase, GamePhase::Waiting);
    gs.phase = GamePhase::Complete;
    let e = deal(&mut gs, 10).unwrap_err();
    assert_eq!(e.0, "not in Waiting phase");
}

#[test]
fn test_unavailable_action_message() {
    let mut gs = GameState::new();
    let e = hit(&mut gs).unwrap_err();
    assert_eq!(e.0, "action Hit is not available right now");
    let e = split(&mut gs).unwrap_err();
    assert_eq!(e.0, "action Split is not available right now");
    let e = insurance(&mut gs).unwrap_err();
    assert_eq!(e.0, "action Insurance is not available right now");
    let e = new_hand(&mut gs).unwrap_err();
    assert_eq!(e.0, "round is not complete yet");
}

#[test]
fn test_hit_bust_loses_and_completes() {
    // Player 10+6, dealer 10+7, hit draws a King: bust.
    let mut gs = game_drawing(&[Rank::Ten, Rank::Ten, Rank::Six, Rank::Seven, Rank::King]);
    deal(&mut gs, 100).expect("deal");
    hit(&mut gs).expect("hit");
    assert_eq!(gs.player_hands[0].state, HandState::Busted);
    assert_eq!(gs.phase, GamePhase::Complete);
    assert_eq!(gs.chips, 900);
}

#[test]
fn test_hit_without_bust_keeps_turn() {
    let mut gs = game_drawing(&[Rank::Two, Rank::Ten, Rank::Three, Rank::Seven, Rank::Four]);
    deal(&mut gs, 100).expect("deal");
    hit(&mut gs).expect("hit");
    assert_eq!(gs.phase, GamePhase::PlayerTurn);
    assert_eq!(gs.player_hands[0].score(), 9);
    assert_eq!(gs.chips + gs.player_hands[0].bet, 1000);
}

#[test]
fn test_stand_win_pays_even_money() {
    let mut gs = game_drawing(&[Rank::Ten, Rank::Ten, Rank::Queen, Rank::Seven]);
    deal(&mut gs, 100).expect("deal");
    stand(&mut gs).expect("stand");
    assert_eq!(gs.phase, GamePhase::Complete);
    assert_eq!(gs.chips, 1100);
}

#[test]
fn test_stand_lose_to_higher_dealer() {
    let mut gs = game_drawing(&[Rank::Ten, Rank::Ten, Rank::Seven, Rank::Nine]);
    deal(&mut gs, 100).expect("deal");
    stand(&mut gs).expect("stand");
    assert_eq!(gs.chips, 900);
}

#[test]
fn test_double_wins_double_stake() {
    // Player 5+6, dealer 10+7, double draws a Ten: 21 beats 17.
    let mut gs = game_drawing(&[Rank::Five, Rank::Ten, Rank::Six, Rank::Seven, Rank::Ten]);
    deal(&mut gs, 100).expect("deal");
    double(&mut gs).expect("double");
    assert_eq!(gs.player_hands[0].bet, 200);
    assert_eq!(gs.player_hands[0].state, HandState::Standing);
    assert_eq!(gs.phase, GamePhase::Complete);
    assert_eq!(gs.chips, 1200);
}

#[test]
fn test_split_pair_makes_two_hands() {
    // Player 8+8, dealer 10+7; split draws 3 then 2.
    let mut gs = game_drawing(&[Rank::Eight, Rank::Ten, Rank::Eight, Rank::Seven, Rank::Three, Rank::Two]);
    deal(&mut gs, 100).expect("deal");
    split(&mut gs).expect("split");
    assert_eq!(gs.player_hands.len(), 2);
    assert_eq!(gs.split_count, 1);
    assert_eq!(gs.chips, 800);
    assert_eq!(gs.player_hands[0].cards, vec![c(Rank::Eight), c(Rank::Three)]);
    assert_eq!(gs.player_hands[1].cards, vec![c(Rank::Eight), c(Rank::Two)]);
    assert_eq!(gs.phase, GamePhase::PlayerTurn);
    // Stand on the first hand moves to the second.
    stand(&mut gs).expect("stand");
    assert_eq!(gs.active_hand_index, 1);
    assert_eq!(gs.phase, GamePhase::PlayerTurn);
    stand(&mut gs).expect("stand");
    assert_eq!(gs.phase, GamePhase::Complete);
    // 11 and 10 both lose to 17.
    assert_eq!(gs.chips, 800);
}

#[test]
fn test_split_aces_stand_and_complete() {
    let mut gs = game_drawing(&[Rank::Ace, Rank::Ten, Rank::Ace, Rank::Seven, Rank::King, Rank::Nine]);
    deal(&mut gs, 100).expect("deal");
    split(&mut gs).expect("split");
    assert_eq!(gs.phase, GamePhase::Complete);
    assert_eq!(gs.player_hands[0].state, HandState::Standing);
    assert_eq!(gs.player_hands[1].state, HandState::Standing);
    // A+K = 21 wins, A+9 = 20 wins against 17: 800 + 200 + 200.
    assert_eq!(gs.chips, 1200);
}

#[test]
fn test_insurance_takes_half_the_bet() {
    let mut gs = game_drawing(&[Rank::Five, Rank::Ace, Rank::Nine, Rank::Seven]);
    deal(&mut gs, 100).expect("deal");
    insurance(&mut gs).expect("insurance");
    assert_eq!(gs.insurance_bet, Some(50));
    assert_eq!(gs.chips, 850);
    assert!(!gs.available_actions().contains(&Action::Insurance));
}

#[test]
fn test_insurance_bet_too_small() {
    let mut gs = game_drawing(&[Rank::Five, Rank::Ace, Rank::Nine, Rank::Seven]);
    deal(&mut gs, 1).expect("deal");
    let e = insurance(&mut gs).unwrap_err();
    assert_eq!(e.0, "bet too small for insurance");
    assert_eq!(gs.chips, 999);
}

#[test]
fn test_insurance_insufficient_chips() {
    let mut gs = game_drawing(&[Rank::Five, Rank::Ace, Rank::Nine, Rank::Seven]);
    deal(&mut gs, 1000).expect("deal");
    let e = insurance(&mut gs).unwrap_err();
    assert_eq!(e.0, "insufficient chips for insurance");
    assert_eq!(gs.insurance_bet, None);
}

#[test]
fn test_new_hand_keeps_chips_and_deck() {
    let mut gs = game_drawing(&[Rank::Ten, Rank::Ten, Rank::Queen, Rank::Seven]);
    deal(&mut gs, 100).expect("deal");
    stand(&mut gs).expect("stand");
    let deck_len = gs.deck.len();
    new_hand(&mut gs).expect("new hand");
    assert_eq!(gs.chips, 1100);
    assert_eq!(gs.deck.len(), deck_len);
    assert!(gs.dealer_hand.cards.is_empty());
    assert_eq!(gs.split_count, 0);
    assert_eq!(gs.insurance_bet, None);
    assert!(!gs.insurance_offered);
    assert_eq!(gs.available_actions(), vec![Action::Deal]);
}

#[test]
fn test_resolve_round_blackjack_pays_three_to_two() {
    let mut gs = GameState::new();
    let mut hand = Hand::new(10);
    hand.state = HandState::Blackjack;
    gs.player_hands = vec![hand];
    gs.chips = 0;
    gs.dealer_hand = Hand::new(0);
    gs.dealer_hand.cards.push(c(Rank::Ten));
    gs.dealer_hand.cards.push(c(Rank::Nine));
    resolve_round(&mut gs);
    assert_eq!(gs.chips, 25);
}

#[test]
fn test_resolve_round_dealer_blackjack_beats_21() {
    let mut gs = GameState::new();
    let mut hand = Hand::new(10);
    hand.state = HandState::Standing;
    hand.cards.push(c(Rank::Seven));
    hand.cards.push(c(Rank::Seven));
    hand.cards.push(c(Rank::Seven));
    gs.player_hands = vec![hand];
    gs.chips = 0;
    gs.insurance_bet = None;
    gs.dealer_hand = Hand::new(0);
    gs.dealer_hand.cards.push(c(Rank::Ace));
    gs.dealer_hand.cards.push(c(Rank::Queen));
    resolve_round(&mut gs);
    assert_eq!(gs.chips, 0);
}

#[test]
fn test_resolve_round_lost_insurance_and_busted_hand() {
    let mut gs = GameState::new();
    let mut hand = Hand::new(10);
    hand.state = HandState::Busted;
    gs.player_hands = vec![hand];
    gs.chips = 7;
    gs.insurance_bet = Some(5);
    gs.dealer_hand = Hand::new(0);
    gs.dealer_hand.cards.push(c(Rank::Ace));
    gs.dealer_hand.cards.push(c(Rank::Six));
    resolve_round(&mut gs);
    assert_eq!(gs.chips, 7);
    assert_eq!(gs.insurance_bet, None);
}

#[test]
fn test_split_under_dealer_ace_withdraws_insurance() {
    // Player 8+8, dealer shows an Ace; after the split hand 0 has two cards
    // again, but insurance is no longer on offer.
    let mut gs = game_drawing(&[Rank::Eight, Rank::Ace, Rank::Eight, Rank::Seven, Rank::Three, Rank::Two]);
    deal(&mut gs, 100).expect("deal");
    assert!(gs.available_actions().contains(&Action::Insurance));
    split(&mut gs).expect("split");
    assert_eq!(gs.player_hands[0].cards.len(), 2);
    assert!(!gs.available_actions().contains(&Action::Insurance));
    let e = insurance(&mut gs).unwrap_err();
    assert_eq!(e.0, "action Insurance is not available right now");
}

/// A player turn on one hand of `ranks` with bet `bet` and `chips` left.
fn turn_with(ranks: [Rank; 2], bet: u32, chips: u32) -> GameState {
    let mut gs = GameState::new();
    let mut hand = Hand::new(bet);
    hand.cards.push(c(ranks[0]));
    hand.cards.push(c(ranks[1]));
    gs.player_hands = vec![hand];
    gs.chips = chips;
    gs.phase = GamePhase::PlayerTurn;
    gs
}

#[test]
fn test_action_fits_counts_only_reachable_payouts() {
    let gs = turn_with([Rank::Five, Rank::Six], 1_000_000_000, 3_300_000_000);
    // A hit settles only when it busts the hand: nothing is credited to it.
    assert!(action_fits(&gs, Action::Hit));
    // A stand may credit the hand twice its bet: 3_300_000_000 + 2_000_000_000 overflows.
    assert!(!action_fits(&gs, Action::Stand));
    assert!(!action_fits(&gs, Action::Double));
    // Actions that cannot overflow always fit.
    assert!(action_fits(&gs, Action::Insurance));
    assert!(action_fits(&gs, Action::NewHand));
}

#[test]
fn test_action_fits_split_of_non_aces_settles_nothing() {
    let eights = turn_with([Rank::Eight, Rank::Eight], 1_000_000_000, 3_300_000_000);
    assert!(action_fits(&eights, Action::Split));
    let aces = turn_with([Rank::Ace, Rank::Ace], 1_000_000_000, 3_300_000_000);
    assert!(!action_fits(&aces, Action::Split));
}
