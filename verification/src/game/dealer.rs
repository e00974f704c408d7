//! Dealer AI: hits on hard/soft 16 or less, stands on soft 17+.

use vstd::prelude::*;

use super::card::Card;
use super::hand::{hand_score, hard_total, is_natural, low_points, Hand, HandView};
use super::state::{draw_one, GameState, GameView};

verus! {

/// `decks[i]` becomes `decks[i + 1]` by drawing `cards[i]`, for every card in turn.
pub open spec fn draw_chain(decks: Seq<Seq<Card>>, cards: Seq<Card>) -> bool {
    &&& decks.len() == cards.len() + 1
    &&& forall|i: int|
        0 <= i < cards.len() ==> #[trigger] draw_one(decks[i], decks[i + 1], cards[i])
}

/// Drawing `cards` one after the other takes the deck `before` to `after`.
pub open spec fn draws(before: Seq<Card>, cards: Seq<Card>, after: Seq<Card>) -> bool {
    exists|decks: Seq<Seq<Card>>|
        #[trigger] draw_chain(decks, cards) && decks[0] == before && decks.last() == after
}

/// Starting from `start`, the dealer drew exactly `drawn`: each card was taken
/// while the score was 16 or less, and the final score is 17 or more.
pub open spec fn dealer_stops(start: Seq<Card>, drawn: Seq<Card>) -> bool {
    &&& hand_score(start + drawn) >= 17
    &&& forall|k: int| 0 <= k < drawn.len() ==> hand_score(start + #[trigger] drawn.take(k)) < 17
}

/// `v2` is `v` after the dealer has played out the hand by the house rule,
/// drawing from the shoe; nothing else changes.
pub open spec fn dealer_plays(v: GameView, v2: GameView) -> bool {
    exists|drawn: Seq<Card>|
        #![trigger dealer_stops(v.dealer.cards, drawn)]
        draws(v.deck, drawn, v2.deck) && dealer_stops(v.dealer.cards, drawn) && v2 == (GameView {
            deck: v2.deck,
            dealer: HandView { cards: v.dealer.cards + drawn, ..v.dealer },
            ..v
        })
}

/// How far the hard total is below 17 (zero from 17 on).
spec fn points_below_seventeen(cards: Seq<Card>) -> nat {
    if hard_total(cards) < 17 {
        (17 - hard_total(cards)) as nat
    } else {
        0
    }
}

proof fn lemma_hard_total_push(cards: Seq<Card>, c: Card)
    ensures
        hard_total(cards.push(c)) == hard_total(cards) + low_points(c.rank),
        low_points(c.rank) >= 1,
{
    assert(cards.push(c).drop_last() =~= cards);
}

/// Run the dealer's turn to completion.
/// Standard rule: dealer hits on 16 or less (soft or hard), stands on 17+ (soft or hard).
pub fn play_dealer(gs: &mut GameState)
    ensures
        dealer_plays(old(gs)@, final(gs)@),
        final(gs).last_activity == old(gs).last_activity,
{
    let ghost start = gs@;
    let ghost mut decks: Seq<Seq<Card>> = seq![gs@.deck];
    let ghost mut drawn: Seq<Card> = Seq::empty();
    assert(start.dealer.cards + drawn =~= start.dealer.cards);
    while gs.dealer_hand.score() < 17
        invariant
            draw_chain(decks, drawn),
            decks[0] == start.deck,
            decks.last() == gs@.deck,
            gs@ == (GameView {
                deck: gs@.deck,
                dealer: HandView { cards: start.dealer.cards + drawn, ..start.dealer },
                ..start
            }),
            forall|k: int|
                0 <= k < drawn.len() ==> hand_score(start.dealer.cards + #[trigger] drawn.take(k))
                    < 17,
            gs.last_activity == old(gs).last_activity,
        decreases points_below_seventeen(gs.dealer_hand.cards@),
    {
        let ghost before = gs.dealer_hand.cards@;
        let card = gs.draw_card();
        gs.dealer_hand.cards.push(card);
        proof {
            lemma_hard_total_push(before, card);
            assert(hard_total(before) < 17);
            let old_drawn = drawn;
            decks = decks.push(gs@.deck);
            drawn = drawn.push(card);
            assert(drawn.take(old_drawn.len() as int) =~= old_drawn);
            assert forall|k: int| 0 <= k < drawn.len() implies hand_score(
                start.dealer.cards + #[trigger] drawn.take(k),
            ) < 17 by {
                if k < old_drawn.len() {
                    assert(drawn.take(k) =~= old_drawn.take(k));
                }
            }
            assert forall|i: int| 0 <= i < drawn.len() implies #[trigger] draw_one(
                decks[i],
                decks[i + 1],
                drawn[i],
            ) by {
                if i < old_drawn.len() {
                    assert(draw_one(decks[i], decks[i + 1], old_drawn[i]));
                }
            }
            assert(start.dealer.cards + drawn =~= before.push(card));
            assert(gs@ =~= (GameView {
                deck: gs@.deck,
                dealer: HandView { cards: start.dealer.cards + drawn, ..start.dealer },
                ..start
            }));
        }
    }
    proof {
        assert(draw_chain(decks, drawn));
        assert(dealer_stops(start.dealer.cards, drawn));
    }
}

/// True if the dealer's hand is a natural blackjack.
#[must_use]
pub fn dealer_has_blackjack(dealer: &Hand) -> (b: bool)
    ensures
        b == is_natural(dealer.cards@),
{
    dealer.is_natural_blackjack()
}

} // verus!
