//! Laws of a round that relate the player's actions to the hands' scores, the
//! order of play and the settlement.

use vstd::prelude::*;

use super::card::Card;
use super::hand::{
    best_total, hand_score, hard_total, is_bust_cards, is_natural, low_points, HandState, HandView,
};
use super::rules::{
    active_hand_view, advance_or_finish, double_after_draw, double_done, hand_return,
    hit_after_draw, hit_done, lemma_advance_keeps_table,
};
use super::state::{draw_one, first_active_from, is_legal, legal_actions, Action, GamePhase, GameView};

verus! {

/// Every hand is marked Busted exactly when its cards score over 21.
pub open spec fn bust_marked(v: GameView) -> bool {
    forall|i: int|
        0 <= i < v.hands.len() ==> ((#[trigger] v.hands[i]).state == HandState::Busted
            <==> is_bust_cards(v.hands[i].cards))
}

/// Two cards never score over 21.
pub proof fn lemma_two_cards_not_bust(cards: Seq<Card>)
    requires
        cards.len() == 2,
    ensures
        !is_bust_cards(cards),
{
    assert(cards.drop_last().drop_last() =~= Seq::<Card>::empty());
    assert(hard_total(cards.drop_last().drop_last()) == 0);
    assert(low_points(cards.drop_last().last().rank) <= 10);
    assert(low_points(cards.last().rank) <= 10);
    assert(hard_total(cards.drop_last()) <= 10);
    assert(hard_total(cards) <= 20);
    assert(best_total(cards) <= 21);
}

/// `first_active_from` finds the first Active hand at or after `i`.
pub proof fn lemma_first_active(hands: Seq<HandView>, i: int)
    requires
        0 <= i,
    ensures
        match first_active_from(hands, i) {
            Some(j) => i <= j < hands.len() && hands[j].state == HandState::Active && forall|k: int|
                i <= k < j ==> (#[trigger] hands[k]).state != HandState::Active,
            None => forall|k: int| i <= k < hands.len() ==> (#[trigger] hands[k]).state != HandState::Active,
        },
    decreases hands.len() - i,
{
    if i < hands.len() && hands[i].state != HandState::Active {
        lemma_first_active(hands, i + 1);
    }
}

/// Hit, stand, double and split are legal only in the player's turn, on an
/// Active hand.
pub proof fn lemma_play_on_active_hand(v: GameView, a: Action)
    requires
        a == Action::Hit || a == Action::Stand || a == Action::Double || a == Action::Split,
        is_legal(v, a),
    ensures
        v.phase == GamePhase::PlayerTurn,
        v.active < v.hands.len(),
        v.hands[v.active as int].state == HandState::Active,
{
    if !(v.phase == GamePhase::PlayerTurn && v.active < v.hands.len()
        && v.hands[v.active as int].state == HandState::Active) {
        assert(legal_actions(v).len() <= 1);
        assert(!legal_actions(v).contains(a)) by {
            if legal_actions(v).contains(a) {
                let k = choose|k: int| 0 <= k < legal_actions(v).len() && legal_actions(v)[k] == a;
            }
        }
    }
}

/// When the hands of `v` are marked by their scores, a hand whose cards score
/// over 21 is credited nothing by the settlement, whatever the dealer holds.
pub proof fn lemma_bust_hand_credited_nothing(v: GameView, i: int, dealer: Seq<Card>)
    requires
        bust_marked(v),
        0 <= i < v.hands.len(),
        is_bust_cards(v.hands[i].cards),
    ensures
        hand_return(v.hands[i], dealer) == 0,
{
    assert(v.hands[i].state == HandState::Busted);
}

/// A double down gives the active hand exactly one more card, marks it doubled,
/// and leaves it Busted when its cards score over 21 and Standing otherwise;
/// the other hands are untouched.
pub proof fn lemma_double_outcome(v: GameView, v2: GameView)
    requires
        is_legal(v, Action::Double),
        double_done(v, v2),
    ensures
        v2.hands.len() == v.hands.len(),
        forall|k: int| 0 <= k < v.hands.len() && k != v.active ==> v2.hands[k] == v.hands[k],
        v2.hands[v.active as int].cards.len() == v.hands[v.active as int].cards.len() + 1,
        v2.hands[v.active as int].cards.subrange(0, v.hands[v.active as int].cards.len() as int)
            == v.hands[v.active as int].cards,
        v2.hands[v.active as int].is_doubled,
        v2.hands[v.active as int].state == HandState::Busted <==> is_bust_cards(
            v2.hands[v.active as int].cards,
        ),
        v2.hands[v.active as int].state == HandState::Busted || v2.hands[v.active as int].state
            == HandState::Standing,
        bust_marked(v) ==> bust_marked(v2),
{
    let (c, deck) = choose|c: Card, deck: Seq<Card>|
        #[trigger] draw_one(v.deck, deck, c) && double_after_draw(v, c, deck, v2);
    let h = active_hand_view(v);
    let cards = h.cards.push(c);
    let h2 = HandView {
        cards,
        bet: (2 * h.bet) as u32,
        state: if is_bust_cards(cards) {
            HandState::Busted
        } else {
            HandState::Standing
        },
        is_doubled: true,
    };
    let v1 = GameView {
        deck,
        chips: (v.chips - h.bet) as u32,
        hands: v.hands.update(v.active as int, h2),
        ..v
    };
    lemma_play_on_active_hand(v, Action::Double);
    lemma_advance_keeps_table(v1, v2);
    assert(cards.subrange(0, h.cards.len() as int) =~= h.cards);
}

/// A hit gives the active hand one more card. Unless the hand goes over 21 the
/// player keeps acting on it. A hand that goes over 21 is Busted, and play moves
/// to the first later hand that is still Active; only when there is none does
/// the dealer play and the round complete.
pub proof fn lemma_hit_moves_on(v: GameView, v2: GameView)
    requires
        is_legal(v, Action::Hit),
        v.hands.len() <= usize::MAX,
        hit_done(v, v2),
    ensures
        v2.hands.len() == v.hands.len(),
        forall|k: int| 0 <= k < v.hands.len() && k != v.active ==> v2.hands[k] == v.hands[k],
        v2.hands[v.active as int].cards.len() == v.hands[v.active as int].cards.len() + 1,
        v2.hands[v.active as int].cards.subrange(0, v.hands[v.active as int].cards.len() as int)
            == v.hands[v.active as int].cards,
        !is_bust_cards(v2.hands[v.active as int].cards) ==> {
            &&& v2.phase == GamePhase::PlayerTurn
            &&& v2.active == v.active
            &&& v2.hands[v.active as int].state == HandState::Active
            &&& v2.chips == v.chips
            &&& v2.dealer == v.dealer
        },
        is_bust_cards(v2.hands[v.active as int].cards) ==> v2.hands[v.active as int].state
            == HandState::Busted,
        is_bust_cards(v2.hands[v.active as int].cards) && (exists|j: int|
            v.active < j < v.hands.len() && (#[trigger] v.hands[j]).state == HandState::Active)
            ==> {
            &&& v2.phase == GamePhase::PlayerTurn
            &&& v.active < v2.active < v.hands.len()
            &&& v2.hands[v2.active as int].state == HandState::Active
            &&& forall|k: int| v.active < k < v2.active ==> (#[trigger] v.hands[k]).state
                != HandState::Active
            &&& v2.chips == v.chips
            &&& v2.dealer == v.dealer
        },
        is_bust_cards(v2.hands[v.active as int].cards) && !(exists|j: int|
            v.active < j < v.hands.len() && (#[trigger] v.hands[j]).state == HandState::Active)
            ==> v2.phase == GamePhase::Complete,
        bust_marked(v) ==> bust_marked(v2),
{
    let (c, deck) = choose|c: Card, deck: Seq<Card>|
        #[trigger] draw_one(v.deck, deck, c) && hit_after_draw(v, c, deck, v2);
    let a = v.active as int;
    let h = active_hand_view(v);
    let cards = h.cards.push(c);
    let bust = is_bust_cards(cards);
    let h2 = HandView {
        cards,
        state: if bust {
            HandState::Busted
        } else {
            h.state
        },
        ..h
    };
    let v1 = GameView { deck, hands: v.hands.update(a, h2), ..v };
    lemma_play_on_active_hand(v, Action::Hit);
    assert(cards.subrange(0, h.cards.len() as int) =~= h.cards);
    if bust {
        lemma_advance_keeps_table(v1, v2);
        lemma_first_active(v1.hands, a + 1);
        match first_active_from(v1.hands, a + 1) {
            Some(j) => {
                assert(v1.hands[j] == v.hands[j]);
                assert forall|k: int| v.active < k < v2.active implies (#[trigger] v.hands[k]).state
                    != HandState::Active by {
                    assert(v1.hands[k] == v.hands[k]);
                }
            },
            None => {
                assert forall|j: int|
                    v.active < j < v.hands.len() implies (#[trigger] v.hands[j]).state
                    != HandState::Active by {
                    assert(v1.hands[j] == v.hands[j]);
                }
                assert(v2.phase == GamePhase::Complete);
            },
        }
    }
}

/// Insurance is offered only before the player acts: on the first hand of an
/// unsplit round, Active and still holding its two dealt cards, once per round.
pub proof fn lemma_insurance_only_before_acting(v: GameView)
    requires
        is_legal(v, Action::Insurance),
    ensures
        v.phase == GamePhase::PlayerTurn,
        v.active == 0,
        v.hands.len() > 0,
        v.hands[0].state == HandState::Active,
        v.hands[0].cards.len() == 2,
        v.split_count == 0,
        v.insurance_bet is None,
        v.insurance_offered,
{
    if v.phase == GamePhase::PlayerTurn && v.active < v.hands.len() && v.hands[v.active as int].state
        == HandState::Active {
        let h = v.hands[v.active as int];
        let a1 = seq![Action::Hit, Action::Stand];
        let a2 = if h.cards.len() == 2 && v.chips >= h.bet {
            a1.push(Action::Double)
        } else {
            a1
        };
        let a3 = if super::hand::is_pair_cards(h.cards) && v.split_count
            < super::state::MAX_SPLITS && v.chips >= h.bet {
            a2.push(Action::Split)
        } else {
            a2
        };
        if !(v.insurance_offered && v.insurance_bet is None && v.split_count == 0 && v.active == 0
            && h.cards.len() == 2) {
            assert(legal_actions(v) == a3);
            assert(!a3.contains(Action::Insurance)) by {
                if a3.contains(Action::Insurance) {
                    let k = choose|k: int| 0 <= k < a3.len() && a3[k] == Action::Insurance;
                }
            }
        }
    } else {
        assert(!legal_actions(v).contains(Action::Insurance)) by {
            if legal_actions(v).contains(Action::Insurance) {
                let k = choose|k: int|
                    0 <= k < legal_actions(v).len() && legal_actions(v)[k] == Action::Insurance;
            }
        }
    }
}

/// Once the player has hit a hand of two or more cards, insurance is no longer offered.
pub proof fn lemma_no_insurance_after_hit(v: GameView, v2: GameView)
    requires
        is_legal(v, Action::Hit),
        v.hands.len() <= usize::MAX,
        v.hands[v.active as int].cards.len() >= 2,
        hit_done(v, v2),
    ensures
        !is_legal(v2, Action::Insurance),
{
    lemma_hit_moves_on(v, v2);
    if is_legal(v2, Action::Insurance) {
        lemma_insurance_only_before_acting(v2);
    }
}

/// A Standing hand is settled by its score against the dealer's alone, doubled
/// or not: against a dealer natural it gets nothing; otherwise it gets twice its
/// bet when the dealer busts or it scores higher, its bet back on a tie, and
/// nothing when it scores lower.
pub proof fn lemma_standing_hand_credit(h: HandView, dealer: Seq<Card>)
    requires
        h.state == HandState::Standing,
    ensures
        is_natural(dealer) ==> hand_return(h, dealer) == 0,
        !is_natural(dealer) && is_bust_cards(dealer) ==> hand_return(h, dealer) == 2 * h.bet,
        !is_natural(dealer) && hand_score(h.cards) > hand_score(dealer) ==> hand_return(h, dealer)
            == 2 * h.bet,
        !is_natural(dealer) && !is_bust_cards(dealer) && hand_score(h.cards) == hand_score(dealer)
            ==> hand_return(h, dealer) == h.bet,
        !is_natural(dealer) && !is_bust_cards(dealer) && hand_score(h.cards) < hand_score(dealer)
            ==> hand_return(h, dealer) == 0,
{
}

/// Doubling changes what a hand is credited only through its bet: the doubled
/// flag itself never changes the settlement.
pub proof fn lemma_credit_ignores_doubled_flag(h: HandView, dealer: Seq<Card>, doubled: bool)
    ensures
        hand_return(HandView { is_doubled: doubled, ..h }, dealer) == hand_return(h, dealer),
{
}

} // verus!
