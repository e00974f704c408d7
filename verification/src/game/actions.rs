//! Game action implementations: deal, hit, stand, double, split, insurance, new_hand.

use vstd::prelude::*;

use super::card::{Card, Rank};
use super::dealer::{dealer_has_blackjack, dealer_plays, draw_chain, play_dealer};
use super::hand::{is_bust_cards, is_natural, Hand, HandState, HandView};
use super::rules::{
    active_hand_view, advance_or_finish, deal_after_draws, dealt, double_after_draw,
    finish_round, lemma_round_finished, double_done, lemma_insert_hand,
    headroom_if_active_busts, lemma_sum_push, lemma_sum_update, max_return, max_returns, hand_bets, split_after_draws, split_done, hand_return, hand_returns, hit_after_draw, hit_done,
    insurance_return, lemma_advance_keeps_table, lemma_headroom_fits, lemma_sum_nonneg,
    lemma_update_hand, reset_round, round_headroom, seq_sum, settled, settlement_fits, staked,
    stand_done, within_split_limit,
};
use super::laws::{
    bust_marked, lemma_double_outcome, lemma_hit_moves_on, lemma_play_on_active_hand,
    lemma_two_cards_not_bust,
};
use super::state::{draw_one, hand_views};
use super::state::{is_legal, legal_actions, Action, GamePhase, GameState, GameView};

verus! {

/// Error returned when an action is not valid in the current state.
#[derive(Debug)]
pub struct ActionError(pub String);

impl ActionError {
    /// The message carried by the error.
    pub fn message(&self) -> (m: String)
        ensures
            m@ == self.0@,
    {
        self.0.clone()
    }
}

/// The name of an action, as its debug formatting prints it.
pub open spec fn action_label(a: Action) -> Seq<char> {
    match a {
        Action::Deal => "Deal"@,
        Action::Hit => "Hit"@,
        Action::Stand => "Stand"@,
        Action::Double => "Double"@,
        Action::Split => "Split"@,
        Action::Insurance => "Insurance"@,
        Action::NewHand => "NewHand"@,
    }
}

/// The message of the error for an action the rules do not allow right now.
pub open spec fn unavailable_message(a: Action) -> Seq<char> {
    "action "@ + action_label(a) + " is not available right now"@
}

fn action_name(a: Action) -> (s: &'static str)
    ensures
        s@ == action_label(a),
{
    match a {
        Action::Deal => "Deal",
        Action::Hit => "Hit",
        Action::Stand => "Stand",
        Action::Double => "Double",
        Action::Split => "Split",
        Action::Insurance => "Insurance",
        Action::NewHand => "NewHand",
    }
}

fn error(msg: &str) -> (e: ActionError)
    ensures
        e.0@ == msg@,
{
    ActionError(String::from_str(msg))
}

// ── Private helpers ──────────────────────────────────────────────────────────

fn require_action(gs: &GameState, action: Action) -> (r: Result<(), ActionError>)
    ensures
        r is Ok <==> is_legal(gs@, action),
        r matches Err(e) ==> e.0@ == unavailable_message(action),
{
    let actions = gs.available_actions();
    let n = actions.len();
    for i in 0..n
        invariant
            n == actions@.len(),
            actions@ == legal_actions(gs@),
            forall|j: int| 0 <= j < i ==> actions@[j] != action,
    {
        if actions[i] == action {
            return Ok(());
        }
    }
    let mut msg = String::from_str("action ");
    msg.append(action_name(action));
    msg.append(" is not available right now");
    Err(ActionError(msg))
}

fn active_hand(gs: &GameState) -> (r: Result<&Hand, ActionError>)
    ensures
        match r {
            Ok(h) => gs.active_hand_index < gs.player_hands@.len() && *h
                == gs.player_hands@[gs.active_hand_index as int],
            Err(e) => gs.active_hand_index >= gs.player_hands@.len() && e.0@ == "no active hand"@,
        },
{
    if gs.active_hand_index < gs.player_hands.len() {
        Ok(&gs.player_hands[gs.active_hand_index])
    } else {
        Err(error("no active hand"))
    }
}

fn active_hand_mut(gs: &mut GameState) -> (r: Result<&mut Hand, ActionError>)
    ensures
        match r {
            Ok(h) => {
                &&& old(gs).active_hand_index < old(gs).player_hands@.len()
                &&& *h == old(gs).player_hands@[old(gs).active_hand_index as int]
                &&& final(gs).player_hands@ == old(gs).player_hands@.update(
                    old(gs).active_hand_index as int,
                    *final(h),
                )
                &&& final(gs)@ == (GameView { hands: hand_views(final(gs).player_hands@), ..old(gs)@ })
                &&& final(gs).last_activity == old(gs).last_activity
            },
            Err(e) => {
                &&& old(gs).active_hand_index >= old(gs).player_hands@.len()
                &&& e.0@ == "no active hand"@
                &&& *final(gs) == *old(gs)
            },
        },
{
    let idx = gs.active_hand_index;
    if idx < gs.player_hands.len() {
        Ok(&mut gs.player_hands[idx])
    } else {
        Err(error("no active hand"))
    }
}

/// After a hand's state changes, advance to the next hand or run the dealer turn.
fn maybe_advance_or_end(gs: &mut GameState)
    requires
        old(gs).active_hand_index < usize::MAX,
        round_headroom(old(gs)@) <= u32::MAX,
    ensures
        advance_or_finish(old(gs)@, final(gs)@),
{
    if !gs.advance_hand() {
        // All player hands are resolved; dealer plays
        gs.phase = GamePhase::DealerTurn;
        let ghost before = gs@;
        assert(before == (GameView { phase: GamePhase::DealerTurn, ..old(gs)@ }));
        play_dealer(gs);
        let ghost mid = gs@;
        proof {
            let drawn = choose|drawn: Seq<super::card::Card>|
                #![trigger super::dealer::dealer_stops(before.dealer.cards, drawn)]
                super::dealer::draws(before.deck, drawn, mid.deck)
                    && super::dealer::dealer_stops(before.dealer.cards, drawn) && mid == (
                GameView {
                    deck: mid.deck,
                    dealer: HandView { cards: before.dealer.cards + drawn, ..before.dealer },
                    ..before
                });
            assert(round_headroom(mid) == round_headroom(old(gs)@));
            lemma_headroom_fits(mid);
        }
        resolve_round(gs);
        gs.phase = GamePhase::Complete;
        proof {
            assert(dealer_plays(GameView { phase: GamePhase::DealerTurn, ..old(gs)@ }, mid));
            assert(gs@ == (GameView { phase: GamePhase::Complete, ..settled(mid) }));
        }
    }
}

/// Settle all hands and update chip balance. Called automatically at end of player turn.
pub fn resolve_round(gs: &mut GameState)
    requires
        settlement_fits(old(gs)@),
    ensures
        final(gs)@ == settled(old(gs)@),
        final(gs).last_activity == old(gs).last_activity,
{
    let ghost v = gs@;
    let dealer_score = gs.dealer_hand.score();
    let dealer_bj = dealer_has_blackjack(&gs.dealer_hand);
    let dealer_bust = gs.dealer_hand.is_bust();
    let ghost credits = hand_returns(v.hands, v.dealer.cards);
    proof {
        assert forall|i: int| 0 <= i < credits.len() implies #[trigger] credits[i] >= 0 by {
            assert(credits[i] == hand_return(v.hands[i], v.dealer.cards));
        }
        lemma_sum_nonneg(credits);
        assert(credits.take(0) =~= Seq::<int>::empty());
    }
    // Resolve insurance side bet first
    let insurance = gs.insurance_bet;
    gs.insurance_bet = None;
    if let Some(ins) = insurance {
        if dealer_bj {
            gs.chips = gs.chips + ins * 3;  // 2:1 payout + original insurance bet returned
            // else insurance is lost (already deducted at placement)
        }
    }
    let n = gs.player_hands.len();
    for i in 0..n
        invariant
            n == v.hands.len(),
            credits == hand_returns(v.hands, v.dealer.cards),
            forall|k: int| 0 <= k <= credits.len() ==> seq_sum(#[trigger] credits.take(k)) <= seq_sum(credits),
            forall|k: int| 0 <= k < credits.len() ==> #[trigger] credits[k] >= 0,
            settlement_fits(v),
            dealer_score == super::hand::hand_score(v.dealer.cards),
            dealer_bj == is_natural(v.dealer.cards),
            dealer_bust == super::hand::is_bust_cards(v.dealer.cards),
            gs@ == (GameView { chips: gs.chips, insurance_bet: None, ..v }),
            gs.chips == v.chips + insurance_return(v.insurance_bet, v.dealer.cards) + seq_sum(
                credits.take(i as int),
            ),
            gs.last_activity == old(gs).last_activity,
    {
        let ghost h = v.hands[i as int];
        assert(gs.player_hands@[i as int]@ == h);
        let credit: u32;
        {
            let hand = &gs.player_hands[i];
            credit = match hand.state {
                HandState::Busted => {
                    // Chips already deducted at deal time; nothing to return
                    0
                },
                HandState::Blackjack => {
                    if dealer_bj {
                        hand.bet  // push: return bet
                    } else {
                        assert(v.hands[i as int].state == HandState::Blackjack);
                        hand.bet + (hand.bet * 3 / 2)  // 3:2 payout
                    }
                },
                HandState::Standing => {
                    let player_score = hand.score();
                    if dealer_bj {
                        // Dealer blackjack beats player standing hand
                        0
                    } else if dealer_bust || player_score > dealer_score {
                        assert(credits[i as int] == 2 * h.bet);
                        assert(credits.take(i + 1).drop_last() =~= credits.take(i as int));
                        hand.bet * 2  // win: bet + winnings
                    } else if player_score == dealer_score {
                        hand.bet  // push: return bet
                    } else {
                        // player loses (chips already deducted)
                        0
                    }
                },
                HandState::Active => {
                    // Shouldn't happen; treat as loss
                    0
                },
            };
        }
        proof {
            assert(credits[i as int] == hand_return(h, v.dealer.cards));
            assert(credit == credits[i as int]);
            assert(credits.take(i + 1).drop_last() =~= credits.take(i as int));
        }
        gs.chips = gs.chips + credit;
    }
    proof {
        assert(credits.take(n as int) =~= credits);
    }
}

/// The error `insurance` answers with in the state `v`, when it fails.
pub open spec fn insurance_error(v: GameView) -> Seq<char> {
    if !is_legal(v, Action::Insurance) {
        unavailable_message(Action::Insurance)
    } else if active_hand_view(v).bet / 2 == 0 {
        "bet too small for insurance"@
    } else {
        "insufficient chips for insurance"@
    }
}

/// Hit: deal one card to the active hand.
pub fn hit(gs: &mut GameState) -> (r: Result<(), ActionError>)
    requires
        is_legal(old(gs)@, Action::Hit) ==> headroom_if_active_busts(old(gs)@) <= u32::MAX,
    ensures
        r is Ok <==> is_legal(old(gs)@, Action::Hit),
        r matches Err(e) ==> final(gs)@ == old(gs)@ && final(gs).last_activity == old(
            gs,
        ).last_activity && e.0@ == unavailable_message(Action::Hit),
        r is Ok ==> hit_done(old(gs)@, final(gs)@),
        r is Ok ==> (final(gs)@.phase == GamePhase::Complete <==> (is_bust_cards(
            final(gs)@.hands[old(gs)@.active as int].cards,
        ) && forall|j: int|
            old(gs)@.active < j < old(gs)@.hands.len() ==> (#[trigger] old(gs)@.hands[j]).state
                != HandState::Active)),
        r is Ok && final(gs)@.phase != GamePhase::Complete ==> final(gs)@.phase
            == GamePhase::PlayerTurn && final(gs)@.hands[final(gs)@.active as int].state
            == HandState::Active,
        within_split_limit(old(gs)@) ==> within_split_limit(final(gs)@),
        bust_marked(old(gs)@) ==> bust_marked(final(gs)@),
        final(gs)@.phase != GamePhase::Complete ==> final(gs)@.chips + staked(final(gs)@) == old(
            gs,
        )@.chips + staked(old(gs)@),
{
    if let Err(e) = require_action(gs, Action::Hit) {
        return Err(e);
    }
    let ghost v = gs@;
    let card = gs.draw_card();
    let ghost deck = gs@.deck;
    let idx = gs.active_hand_index;
    let ghost h = v.hands[idx as int];
    assert(gs.player_hands@[idx as int]@ == h);
    match active_hand_mut(gs) {
        Ok(hand) => {
            hand.cards.push(card);
            if hand.is_bust() {
                hand.state = HandState::Busted;
            }
        },
        Err(e) => {
            return Err(e);
        },
    }
    let busted = match active_hand(gs) {
        Ok(h) => h.state == HandState::Busted,
        Err(_) => false,
    };
    let ghost h2 = gs.player_hands@[idx as int]@;
    let ghost v1 = gs@;
    proof {
        assert(hand_views(gs.player_hands@) =~= v.hands.update(idx as int, h2));
        assert(v1 == (GameView { deck, hands: v.hands.update(idx as int, h2), ..v }));
        lemma_update_hand(v.hands, idx as int, h2);
        assert(idx < gs.player_hands.len());
    }
    if busted {
        maybe_advance_or_end(gs);
    }
    gs.touch();
    proof {
        assert(hit_after_draw(v, card, deck, gs@));
        if busted {
            lemma_advance_keeps_table(v1, gs@);
        }
        assert(hit_done(v, gs@));
        assert(v.hands.len() == gs.player_hands@.len());
        lemma_hit_moves_on(v, gs@);
    }
    Ok(())
}

/// Stand: end action on the active hand.
pub fn stand(gs: &mut GameState) -> (r: Result<(), ActionError>)
    requires
        is_legal(old(gs)@, Action::Stand) ==> round_headroom(old(gs)@) <= u32::MAX,
    ensures
        r is Ok <==> is_legal(old(gs)@, Action::Stand),
        r matches Err(e) ==> final(gs)@ == old(gs)@ && final(gs).last_activity == old(
            gs,
        ).last_activity && e.0@ == unavailable_message(Action::Stand),
        r is Ok ==> stand_done(old(gs)@, final(gs)@),
        within_split_limit(old(gs)@) ==> within_split_limit(final(gs)@),
        bust_marked(old(gs)@) ==> bust_marked(final(gs)@),
        final(gs)@.phase != GamePhase::Complete ==> final(gs)@.chips + staked(final(gs)@) == old(
            gs,
        )@.chips + staked(old(gs)@),
{
    if let Err(e) = require_action(gs, Action::Stand) {
        return Err(e);
    }
    let ghost v = gs@;
    let idx = gs.active_hand_index;
    match active_hand_mut(gs) {
        Ok(hand) => {
            hand.state = HandState::Standing;
        },
        Err(e) => {
            return Err(e);
        },
    }
    let ghost h2 = HandView { state: HandState::Standing, ..v.hands[idx as int] };
    let ghost v1 = gs@;
    proof {
        assert(hand_views(gs.player_hands@) =~= v.hands.update(idx as int, h2));
        assert(v1 == (GameView { hands: v.hands.update(idx as int, h2), ..v }));
        lemma_update_hand(v.hands, idx as int, h2);
        assert(idx < gs.player_hands.len());
    }
    maybe_advance_or_end(gs);
    gs.touch();
    proof {
        lemma_advance_keeps_table(v1, gs@);
    }
    Ok(())
}

/// Take insurance (pays 2:1 if dealer has blackjack).
pub fn insurance(gs: &mut GameState) -> (r: Result<(), ActionError>)
    ensures
        r is Ok <==> is_legal(old(gs)@, Action::Insurance) && active_hand_view(old(gs)@).bet / 2
            > 0 && active_hand_view(old(gs)@).bet / 2 <= old(gs)@.chips,
        r matches Err(e) ==> final(gs)@ == old(gs)@ && final(gs).last_activity == old(
            gs,
        ).last_activity && e.0@ == insurance_error(old(gs)@),
        r is Ok ==> final(gs)@ == (GameView {
            chips: (old(gs)@.chips - active_hand_view(old(gs)@).bet / 2) as u32,
            insurance_bet: Some((active_hand_view(old(gs)@).bet / 2) as u32),
            ..old(gs)@
        }),
        within_split_limit(old(gs)@) ==> within_split_limit(final(gs)@),
        bust_marked(old(gs)@) ==> bust_marked(final(gs)@),
        final(gs)@.chips + staked(final(gs)@) == old(gs)@.chips + staked(old(gs)@),
{
    if let Err(e) = require_action(gs, Action::Insurance) {
        return Err(e);
    }
    let hand_bet = match active_hand(gs) {
        Ok(h) => h.bet,
        Err(e) => {
            return Err(e);
        },
    };
    let max_insurance = hand_bet / 2;
    if max_insurance == 0 {
        return Err(error("bet too small for insurance"));
    }
    if max_insurance > gs.chips {
        return Err(error("insufficient chips for insurance"));
    }
    gs.chips = gs.chips - max_insurance;
    gs.insurance_bet = Some(max_insurance);
    gs.touch();
    Ok(())
}

/// Prepare for the next hand: resets round state, keeps chips. Requires Complete phase.
pub fn new_hand(gs: &mut GameState) -> (r: Result<(), ActionError>)
    ensures
        r is Ok <==> old(gs)@.phase == GamePhase::Complete,
        r matches Err(e) ==> final(gs)@ == old(gs)@ && final(gs).last_activity == old(
            gs,
        ).last_activity && e.0@ == "round is not complete yet"@,
        r is Ok ==> final(gs)@ == reset_round(old(gs)@),
        within_split_limit(final(gs)@) || final(gs)@ == old(gs)@,
        bust_marked(final(gs)@) || final(gs)@ == old(gs)@,
{
    if gs.phase != GamePhase::Complete {
        return Err(error("round is not complete yet"));
    }
    gs.player_hands.clear();
    gs.dealer_hand = Hand::new(0);
    gs.active_hand_index = 0;
    gs.insurance_bet = None;
    gs.insurance_offered = false;
    gs.split_count = 0;
    gs.phase = GamePhase::Waiting;
    gs.touch();
    assert(hand_views(gs.player_hands@) =~= Seq::<HandView>::empty());
    Ok(())
}

proof fn lemma_active_max_return(v: GameView)
    requires
        v.active < v.hands.len(),
    ensures
        max_return(v.hands[v.active as int]) <= seq_sum(max_returns(v.hands)),
        seq_sum(max_returns(v.hands)) >= 0,
{
    let m = max_returns(v.hands);
    assert forall|i: int| 0 <= i < m.len() implies #[trigger] m[i] >= 0 by {
        assert(m[i] == max_return(v.hands[i]));
    }
    lemma_sum_nonneg(m);
    assert(m[v.active as int] == max_return(v.hands[v.active as int]));
}

/// Double down: double the bet, deal exactly one card, then stand.
pub fn double(gs: &mut GameState) -> (r: Result<(), ActionError>)
    requires
        is_legal(old(gs)@, Action::Double) ==> round_headroom(old(gs)@) + active_hand_view(
            old(gs)@,
        ).bet <= u32::MAX,
    ensures
        r is Ok <==> is_legal(old(gs)@, Action::Double),
        r matches Err(e) ==> final(gs)@ == old(gs)@ && final(gs).last_activity == old(
            gs,
        ).last_activity && e.0@ == unavailable_message(Action::Double),
        r is Ok ==> double_done(old(gs)@, final(gs)@),
        r is Ok ==> (final(gs)@.hands[old(gs)@.active as int].state == HandState::Busted
            <==> is_bust_cards(final(gs)@.hands[old(gs)@.active as int].cards)),
        within_split_limit(old(gs)@) ==> within_split_limit(final(gs)@),
        bust_marked(old(gs)@) ==> bust_marked(final(gs)@),
        final(gs)@.phase != GamePhase::Complete ==> final(gs)@.chips + staked(final(gs)@) == old(
            gs,
        )@.chips + staked(old(gs)@),
{
    if let Err(e) = require_action(gs, Action::Double) {
        return Err(e);
    }
    let extra_bet = match active_hand(gs) {
        Ok(h) => h.bet,
        Err(e) => {
            return Err(e);
        },
    };
    if extra_bet > gs.chips {
        return Err(error("insufficient chips to double"));
    }
    let ghost v = gs@;
    proof {
        lemma_active_max_return(v);
    }
    gs.chips = gs.chips - extra_bet;
    let card = gs.draw_card();
    let ghost deck = gs@.deck;
    let idx = gs.active_hand_index;
    let ghost h = v.hands[idx as int];
    assert(gs.player_hands@[idx as int]@ == h);
    match active_hand_mut(gs) {
        Ok(hand) => {
            hand.bet = hand.bet * 2;
            hand.is_doubled = true;
            hand.cards.push(card);
            hand.state = if hand.is_bust() {
                HandState::Busted
            } else {
                HandState::Standing
            };
        },
        Err(e) => {
            return Err(e);
        },
    }
    let ghost h2 = gs.player_hands@[idx as int]@;
    let ghost v1 = gs@;
    proof {
        assert(hand_views(gs.player_hands@) =~= v.hands.update(idx as int, h2));
        assert(v1 == (GameView {
            deck,
            chips: (v.chips - h.bet) as u32,
            hands: v.hands.update(idx as int, h2),
            ..v
        }));
        lemma_update_hand(v.hands, idx as int, h2);
        assert(idx < gs.player_hands.len());
    }
    maybe_advance_or_end(gs);
    gs.touch();
    proof {
        assert(draw_one(v.deck, deck, card));
        assert(double_after_draw(v, card, deck, gs@));
        assert(double_done(v, gs@));
        lemma_double_outcome(v, gs@);
        lemma_advance_keeps_table(v1, gs@);
    }
    Ok(())
}

/// Split: split a pair into two hands, deal one card to each.
pub fn split(gs: &mut GameState) -> (r: Result<(), ActionError>)
    requires
        is_legal(old(gs)@, Action::Split) && active_hand_view(old(gs)@).cards[0].rank == Rank::Ace
            ==> round_headroom(old(gs)@) + active_hand_view(old(gs)@).bet <= u32::MAX,
    ensures
        r is Ok <==> is_legal(old(gs)@, Action::Split),
        r matches Err(e) ==> final(gs)@ == old(gs)@ && final(gs).last_activity == old(
            gs,
        ).last_activity && e.0@ == unavailable_message(Action::Split),
        r is Ok ==> split_done(old(gs)@, final(gs)@),
        within_split_limit(old(gs)@) ==> within_split_limit(final(gs)@),
        bust_marked(old(gs)@) ==> bust_marked(final(gs)@),
        final(gs)@.phase != GamePhase::Complete ==> final(gs)@.chips + staked(final(gs)@) == old(
            gs,
        )@.chips + staked(old(gs)@),
{
    if let Err(e) = require_action(gs, Action::Split) {
        return Err(e);
    }
    let extra_bet = match active_hand(gs) {
        Ok(h) => h.bet,
        Err(e) => {
            return Err(e);
        },
    };
    if extra_bet > gs.chips {
        return Err(error("insufficient chips to split"));
    }
    let ghost v = gs@;
    proof {
        lemma_active_max_return(v);
    }
    gs.chips = gs.chips - extra_bet;
    gs.split_count = gs.split_count + 1;

    let idx = gs.active_hand_index;
    // Explicit guards: require exactly 2 cards before indexing (available_actions should
    // already enforce this, but we defend in depth to avoid runtime panics).
    let n_cards = if idx < gs.player_hands.len() {
        gs.player_hands[idx].cards.len()
    } else {
        0
    };
    if n_cards < 2 {
        return Err(error("hand does not have enough cards to split"));
    }
    let ghost h = v.hands[idx as int];
    assert(gs.player_hands@[idx as int]@ == h);
    let split_aces = gs.player_hands[idx].cards[0].rank == Rank::Ace;

    // Remove the second card to form the new hand
    let second_card = gs.player_hands[idx].cards.remove(1);
    let bet = gs.player_hands[idx].bet;

    // Deal one card to the first split hand
    let ghost d0 = gs@.deck;
    let card_for_first = gs.draw_card();
    let ghost d1 = gs@.deck;
    gs.player_hands[idx].cards.push(card_for_first);

    // Deal one card to the second split hand
    let card_for_second = gs.draw_card();
    let ghost d2 = gs@.deck;
    let mut new_hand = Hand::new(bet);
    new_hand.cards.push(second_card);
    new_hand.cards.push(card_for_second);

    // Split aces: each hand gets exactly one card, no further action allowed
    if split_aces {
        gs.player_hands[idx].state = HandState::Standing;
        new_hand.state = HandState::Standing;
    }
    let ghost first = gs.player_hands@[idx as int]@;
    let ghost second = new_hand@;
    let ghost mid_hands = hand_views(gs.player_hands@);
    gs.player_hands.insert(idx + 1, new_hand);
    let ghost v1 = gs@;
    proof {
        assert(first.cards =~= seq![h.cards[0], card_for_first]);
        assert(second.cards =~= seq![h.cards[1], card_for_second]);
        assert(mid_hands =~= v.hands.update(idx as int, first));
        assert(hand_views(gs.player_hands@) =~= mid_hands.insert(idx + 1, second));
        lemma_update_hand(v.hands, idx as int, first);
        lemma_insert_hand(mid_hands, idx + 1, second);
        assert(v1 == (GameView {
            deck: d2,
            chips: (v.chips - h.bet) as u32,
            split_count: (v.split_count + 1) as usize,
            hands: v.hands.update(idx as int, first).insert(idx + 1, second),
            ..v
        }));
        assert(idx < gs.player_hands.len());
    }

    // If split aces, both hands are already standing — advance to dealer turn
    if split_aces {
        maybe_advance_or_end(gs);
    }
    gs.touch();
    proof {
        assert(d0 == v.deck);
        assert(draw_one(v.deck, d1, card_for_first));
        assert(draw_one(d1, d2, card_for_second));
        assert(split_after_draws(v, card_for_first, card_for_second, d2, gs@));
        assert(split_done(v, gs@));
        lemma_two_cards_not_bust(first.cards);
        lemma_two_cards_not_bust(second.cards);
        if bust_marked(v) {
            assert forall|k: int| 0 <= k < v1.hands.len() implies ((#[trigger] v1.hands[k]).state
                == HandState::Busted <==> is_bust_cards(v1.hands[k].cards)) by {
                if k < idx {
                    assert(v1.hands[k] == v.hands[k]);
                } else if k > idx + 1 {
                    assert(v1.hands[k] == v.hands[k - 1]);
                }
            }
            assert(bust_marked(v1));
        }
        if split_aces {
            lemma_advance_keeps_table(v1, gs@);
        }
    }
    Ok(())
}

/// The error `deal` answers with in the state `v`, when it fails.
pub open spec fn deal_error(v: GameView, bet: u32) -> Seq<char> {
    if v.phase != GamePhase::Waiting {
        "not in Waiting phase"@
    } else if bet == 0 {
        "bet must be greater than 0"@
    } else {
        "insufficient chips"@
    }
}

/// Place a bet and deal initial cards. Transitions Waiting → PlayerTurn (or Complete on BJ).
pub fn deal(gs: &mut GameState, bet: u32) -> (r: Result<(), ActionError>)
    requires
        old(gs)@.phase == GamePhase::Waiting && 0 < bet <= old(gs)@.chips ==> 3 * bet
            <= u32::MAX && old(gs)@.chips + (3 * bet) / 2 <= u32::MAX,
    ensures
        r is Ok <==> old(gs)@.phase == GamePhase::Waiting && 0 < bet <= old(gs)@.chips,
        r matches Err(e) ==> final(gs)@ == old(gs)@ && final(gs).last_activity == old(
            gs,
        ).last_activity && e.0@ == deal_error(old(gs)@, bet),
        r is Ok ==> dealt(old(gs)@, bet, final(gs)@),
        r is Ok ==> within_split_limit(final(gs)@),
        r is Ok ==> bust_marked(final(gs)@),
        r is Ok && final(gs)@.phase != GamePhase::Complete ==> final(gs)@.chips + bet == old(
            gs,
        )@.chips && staked(final(gs)@) == bet,
{
    if gs.phase != GamePhase::Waiting {
        return Err(error("not in Waiting phase"));
    }
    if bet == 0 {
        return Err(error("bet must be greater than 0"));
    }
    if bet > gs.chips {
        return Err(error("insufficient chips"));
    }
    let ghost v = gs@;

    gs.chips = gs.chips - bet;
    gs.player_hands.clear();
    gs.active_hand_index = 0;
    gs.insurance_bet = None;
    gs.insurance_offered = false;
    gs.split_count = 0;

    // Classic deal order: player, dealer, player, dealer
    let mut hand = Hand::new(bet);
    gs.dealer_hand = Hand::new(0);
    let ghost d0 = gs@.deck;
    let c1 = gs.draw_card();
    let ghost d1 = gs@.deck;
    hand.cards.push(c1);
    let c2 = gs.draw_card();  // face-up card
    let ghost d2 = gs@.deck;
    gs.dealer_hand.cards.push(c2);
    let c3 = gs.draw_card();
    let ghost d3 = gs@.deck;
    hand.cards.push(c3);
    let c4 = gs.draw_card();  // hole card
    let ghost d4 = gs@.deck;
    gs.dealer_hand.cards.push(c4);

    // Offer insurance if dealer shows Ace
    if gs.dealer_hand.cards.len() > 0 && gs.dealer_hand.cards[0].rank == Rank::Ace {
        gs.insurance_offered = true;
    }
    let ghost cards = seq![c1, c2, c3, c4];
    let ghost decks = seq![d0, d1, d2, d3, d4];
    let ghost player = HandView {
        cards: seq![c1, c3],
        bet,
        state: HandState::Active,
        is_doubled: false,
    };
    let ghost dealt_view = GameView {
        session_id: v.session_id,
        deck: d4,
        hands: seq![player],
        active: 0,
        dealer: HandView {
            cards: seq![c2, c4],
            bet: 0,
            state: HandState::Active,
            is_doubled: false,
        },
        chips: (v.chips - bet) as u32,
        insurance_bet: None,
        phase: GamePhase::PlayerTurn,
        split_count: 0,
        insurance_offered: c2.rank == Rank::Ace,
    };
    proof {
        assert(d0 == v.deck);
        assert(hand.cards@ =~= seq![c1, c3]);
        assert(gs.dealer_hand.cards@ =~= seq![c2, c4]);
        assert forall|i: int| 0 <= i < cards.len() implies #[trigger] draw_one(
            decks[i],
            decks[i + 1],
            cards[i],
        ) by {
            if i == 0 {
                assert(draw_one(d0, d1, c1));
            } else if i == 1 {
                assert(draw_one(d1, d2, c2));
            } else if i == 2 {
                assert(draw_one(d2, d3, c3));
            } else {
                assert(draw_one(d3, d4, c4));
            }
        }
        assert(draw_chain(decks, cards));
    }

    // Check player natural blackjack
    if hand.is_natural_blackjack() {
        hand.state = HandState::Blackjack;
        gs.player_hands.push(hand);
        let ghost bj = HandView { state: HandState::Blackjack, ..player };
        // Skip to dealer turn and resolve immediately
        gs.phase = GamePhase::DealerTurn;
        let ghost before = gs@;
        proof {
            assert(hand_views(gs.player_hands@) =~= seq![bj]);
            assert(before == (GameView {
                phase: GamePhase::DealerTurn,
                ..GameView { hands: seq![bj], ..dealt_view }
            }));
        }
        play_dealer(gs);
        let ghost mid = gs@;
        proof {
            let drawn = choose|drawn: Seq<Card>|
                #![trigger super::dealer::dealer_stops(before.dealer.cards, drawn)]
                super::dealer::draws(before.deck, drawn, mid.deck)
                    && super::dealer::dealer_stops(before.dealer.cards, drawn) && mid == (
                GameView {
                    deck: mid.deck,
                    dealer: HandView { cards: before.dealer.cards + drawn, ..before.dealer },
                    ..before
                });
            assert(hand_returns(mid.hands, mid.dealer.cards) =~= Seq::<int>::empty().push(
                hand_return(bj, mid.dealer.cards),
            ));
            lemma_sum_push(Seq::<int>::empty(), hand_return(bj, mid.dealer.cards));
            assert(settlement_fits(mid));
        }
        resolve_round(gs);
        gs.phase = GamePhase::Complete;
        proof {
            assert(dealer_plays(before, mid));
            assert(gs@ == (GameView { phase: GamePhase::Complete, ..settled(mid) }));
            assert(finish_round(GameView { hands: seq![bj], ..dealt_view }, gs@));
            lemma_round_finished(GameView { hands: seq![bj], ..dealt_view }, gs@);
        }
    } else {
        gs.player_hands.push(hand);
        gs.phase = GamePhase::PlayerTurn;
        proof {
            assert(hand_views(gs.player_hands@) =~= seq![player]);
            assert(gs@ == dealt_view);
            assert(hand_bets(dealt_view.hands) =~= Seq::<int>::empty().push(bet as int));
            lemma_sum_push(Seq::<int>::empty(), bet as int);
        }
    }
    gs.touch();
    proof {
        assert(deal_after_draws(v, bet, cards, decks[4], gs@));
        lemma_two_cards_not_bust(player.cards);
        assert(dealt(v, bet, gs@));
    }
    Ok(())
}

/// The most hand `skip` can still be credited, zero when there is no such hand.
pub open spec fn max_return_at(v: GameView, skip: int) -> int {
    if 0 <= skip < v.hands.len() {
        max_return(v.hands[skip])
    } else {
        0
    }
}

/// The chips plus the most the round can still credit, leaving out hand `skip`
/// and adding `extra`, fit in a `u32`.
fn headroom_within(gs: &GameState, extra: u32, skip: usize) -> (fits: bool)
    ensures
        fits == (round_headroom(gs@) - max_return_at(gs@, skip as int) + extra <= u32::MAX),
{
    let ghost v = gs@;
    let ghost m = max_returns(v.hands);
    let n = gs.player_hands.len();
    let ghost m2 = if skip < n {
        m.update(skip as int, 0)
    } else {
        m
    };
    proof {
        lemma_sum_nonneg_max_returns(v);
        if skip < n {
            lemma_sum_update(m, skip as int, 0);
            assert(m[skip as int] == max_return(v.hands[skip as int]));
            assert forall|i: int| 0 <= i < m2.len() implies #[trigger] m2[i] >= 0 by {
                assert(m[i] == max_return(v.hands[i]));
            }
        } else {
            assert forall|i: int| 0 <= i < m2.len() implies #[trigger] m2[i] >= 0 by {
                assert(m[i] == max_return(v.hands[i]));
            }
        }
        lemma_sum_nonneg(m2);
        assert(seq_sum(m2) == seq_sum(m) - max_return_at(v, skip as int));
        assert(m2.take(0) =~= Seq::<int>::empty());
    }
    let mut total: u64 = gs.chips as u64 + extra as u64;
    match gs.insurance_bet {
        Some(ins) => {
            total = total + 3 * (ins as u64);
        },
        None => {},
    }
    if total > u32::MAX as u64 {
        return false;
    }
    for i in 0..n
        invariant
            n == v.hands.len(),
            v == gs@,
            m == max_returns(v.hands),
            m2.len() == n,
            forall|k: int| 0 <= k < n ==> m2[k] == (if k == skip {
                0
            } else {
                m[k]
            }),
            forall|k: int| 0 <= k <= m2.len() ==> seq_sum(#[trigger] m2.take(k)) <= seq_sum(m2),
            seq_sum(m2) == seq_sum(m) - max_return_at(v, skip as int),
            total <= u32::MAX,
            total == v.chips + extra + (match v.insurance_bet {
                Some(ins) => 3 * ins,
                None => 0,
            }) + seq_sum(m2.take(i as int)),
    {
        let hand = &gs.player_hands[i];
        assert(hand@ == v.hands[i as int]);
        let most: u64 = if i == skip {
            0
        } else {
            match hand.state {
                HandState::Busted => 0,
                HandState::Blackjack => 3 * (hand.bet as u64),
                _ => 2 * (hand.bet as u64),
            }
        };
        proof {
            assert(m[i as int] == max_return(v.hands[i as int]));
            assert(m2.take(i + 1).drop_last() =~= m2.take(i as int));
        }
        total = total + most;
        if total > u32::MAX as u64 {
            proof {
                assert(seq_sum(m2.take(i + 1)) <= seq_sum(m2));
            }
            return false;
        }
    }
    proof {
        assert(m2.take(n as int) =~= m2);
    }
    true
}

/// Settling the round, with `extra` more chips of headroom needed, cannot
/// overflow the chip count, whatever cards the dealer draws.
pub fn round_headroom_fits(gs: &GameState, extra: u32) -> (fits: bool)
    ensures
        fits == (round_headroom(gs@) + extra <= u32::MAX),
{
    headroom_within(gs, extra, gs.player_hands.len())
}

/// The chip count cannot overflow whatever `action` leads to: the test a caller
/// makes before `hit`, `stand`, `double` and `split` (the others cannot overflow).
pub open spec fn action_fits_spec(v: GameView, action: Action) -> bool {
    match action {
        Action::Hit => is_legal(v, Action::Hit) ==> headroom_if_active_busts(v) <= u32::MAX,
        Action::Stand => is_legal(v, Action::Stand) ==> round_headroom(v) <= u32::MAX,
        Action::Double => is_legal(v, Action::Double) ==> round_headroom(v) + active_hand_view(
            v,
        ).bet <= u32::MAX,
        Action::Split => is_legal(v, Action::Split) && active_hand_view(v).cards[0].rank
            == Rank::Ace ==> round_headroom(v) + active_hand_view(v).bet <= u32::MAX,
        _ => true,
    }
}

/// Whether `action` can be taken without overflowing the chip count, whatever
/// cards are drawn: exactly the precondition of the action's function.
pub fn action_fits(gs: &GameState, action: Action) -> (fits: bool)
    ensures
        fits == action_fits_spec(gs@, action),
{
    match action {
        Action::Hit | Action::Stand | Action::Double | Action::Split => {},
        _ => {
            return true;
        },
    }
    if require_action(gs, action).is_err() {
        return true;
    }
    let idx = gs.active_hand_index;
    let bet = gs.player_hands[idx].bet;
    assert(gs.player_hands@[idx as int]@ == active_hand_view(gs@));
    match action {
        Action::Hit => headroom_within(gs, 0, idx),
        Action::Stand => headroom_within(gs, 0, gs.player_hands.len()),
        Action::Double => headroom_within(gs, bet, gs.player_hands.len()),
        _ => {
            if gs.player_hands[idx].cards[0].rank == Rank::Ace {
                headroom_within(gs, bet, gs.player_hands.len())
            } else {
                true
            }
        },
    }
}

proof fn lemma_sum_nonneg_max_returns(v: GameView)
    ensures
        seq_sum(max_returns(v.hands)) >= 0,
        forall|k: int|
            0 <= k <= max_returns(v.hands).len() ==> seq_sum(#[trigger] max_returns(v.hands).take(k))
                <= seq_sum(max_returns(v.hands)),
{
    let m = max_returns(v.hands);
    assert forall|i: int| 0 <= i < m.len() implies #[trigger] m[i] >= 0 by {
        assert(m[i] == max_return(v.hands[i]));
    }
    lemma_sum_nonneg(m);
}

/// Dealing with bet `bet` cannot overflow the chip count, even when the player
/// is dealt a natural: the test a caller makes before `deal`.
pub fn deal_fits(gs: &GameState, bet: u32) -> (fits: bool)
    ensures
        fits == (gs@.phase == GamePhase::Waiting && 0 < bet <= gs@.chips ==> 3 * bet <= u32::MAX
            && gs@.chips + (3 * bet) / 2 <= u32::MAX),
{
    if gs.phase == GamePhase::Waiting && 0 < bet && bet <= gs.chips {
        let triple = 3 * (bet as u64);
        triple <= u32::MAX as u64 && gs.chips as u64 + triple / 2 <= u32::MAX as u64
    } else {
        true
    }
}

} // verus!
