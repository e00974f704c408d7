//! The rules of a round, stated over the models of the game: settlement, the
//! chips a round may still pay out, and what each player action leads to.

use vstd::prelude::*;

use super::card::{Card, Rank};
use super::dealer::{dealer_plays, draw_chain};
use super::hand::{hand_score, is_bust_cards, is_natural, HandState, HandView};
use super::state::{
    draw_one, first_active_from, legal_actions, Action, GamePhase, GameView, MAX_SPLITS,
};

verus! {

/// The sum of a sequence of integers.
pub open spec fn seq_sum(s: Seq<int>) -> int
    decreases s.len(),
{
    if s.len() == 0 {
        0
    } else {
        seq_sum(s.drop_last()) + s.last()
    }
}

/// Chips credited back for one player hand when the dealer holds `dealer`.
pub open spec fn hand_return(h: HandView, dealer: Seq<Card>) -> int {
    let dealer_bj = is_natural(dealer);
    match h.state {
        HandState::Busted => 0,
        HandState::Blackjack => if dealer_bj {
            h.bet as int
        } else {
            h.bet + (h.bet * 3) / 2
        },
        HandState::Standing => {
            let ps = hand_score(h.cards);
            let ds = hand_score(dealer);
            if dealer_bj {
                0
            } else if is_bust_cards(dealer) || ps > ds {
                2 * h.bet
            } else if ps == ds {
                h.bet as int
            } else {
                0
            }
        },
        HandState::Active => 0,
    }
}

/// Chips credited back for the insurance side bet.
pub open spec fn insurance_return(insurance_bet: Option<u32>, dealer: Seq<Card>) -> int {
    match insurance_bet {
        Some(ins) => if is_natural(dealer) {
            3 * ins
        } else {
            0
        },
        None => 0,
    }
}

/// The returns of the hands, one for each hand.
pub open spec fn hand_returns(hands: Seq<HandView>, dealer: Seq<Card>) -> Seq<int> {
    hands.map_values(|h: HandView| hand_return(h, dealer))
}

/// Everything the settlement of `v` credits back.
pub open spec fn round_return(v: GameView) -> int {
    insurance_return(v.insurance_bet, v.dealer.cards) + seq_sum(hand_returns(v.hands, v.dealer.cards))
}

/// The state after settling every hand and the insurance bet of `v`.
pub open spec fn settled(v: GameView) -> GameView {
    GameView { chips: (v.chips + round_return(v)) as u32, insurance_bet: None, ..v }
}

/// Settling `v` stays within the range of a `u32` chip count, intermediate
/// products included.
pub open spec fn settlement_fits(v: GameView) -> bool {
    &&& v.chips + round_return(v) <= u32::MAX
    &&& !is_natural(v.dealer.cards) ==> forall|i: int|
        0 <= i < v.hands.len() && (#[trigger] v.hands[i]).state == HandState::Blackjack ==> 3
            * v.hands[i].bet <= u32::MAX
}

/// The most a hand can still be credited, whatever the dealer ends with.
pub open spec fn max_return(h: HandView) -> int {
    match h.state {
        HandState::Busted => 0,
        HandState::Blackjack => 3 * h.bet,
        _ => 2 * h.bet,
    }
}

/// The most each hand can still be credited.
pub open spec fn max_returns(hands: Seq<HandView>) -> Seq<int> {
    hands.map_values(|h: HandView| max_return(h))
}

/// The chips plus the most the round can still credit back.
pub open spec fn round_headroom(v: GameView) -> int {
    v.chips + (match v.insurance_bet {
        Some(ins) => 3 * ins,
        None => 0,
    }) + seq_sum(max_returns(v.hands))
}

/// The headroom of `v` with the active hand counted as busted: the round is
/// settled after a hit only when the hit busts that hand, which is then credited nothing.
pub open spec fn headroom_if_active_busts(v: GameView) -> int {
    round_headroom(v) - max_return(active_hand_view(v))
}

/// Chips on the table: the bets of the hands and the insurance bet.
pub open spec fn staked(v: GameView) -> int {
    seq_sum(hand_bets(v.hands)) + (match v.insurance_bet {
        Some(ins) => ins as int,
        None => 0,
    })
}

/// At most `MAX_SPLITS` splits, and one hand more than the splits at most.
pub open spec fn within_split_limit(v: GameView) -> bool {
    v.split_count <= MAX_SPLITS && v.hands.len() <= v.split_count + 1
}

/// `v2` is `v` after the dealer's turn and the settlement: the round is complete.
pub open spec fn finish_round(v: GameView, v2: GameView) -> bool {
    exists|mid: GameView|
        #[trigger] dealer_plays(GameView { phase: GamePhase::DealerTurn, ..v }, mid) && v2 == (
        GameView { phase: GamePhase::Complete, ..settled(mid) })
}

/// After the active hand is done: move to the next Active hand, or, when there is
/// none, play the dealer and settle.
pub open spec fn advance_or_finish(v: GameView, v2: GameView) -> bool {
    match first_active_from(v.hands, v.active + 1) {
        Some(i) => v2 == (GameView { active: i as usize, ..v }),
        None => finish_round(v, v2),
    }
}

/// The hand the player is acting on.
pub open spec fn active_hand_view(v: GameView) -> HandView {
    v.hands[v.active as int]
}

/// `v2` is `v` after the player's deal with bet `bet`, the cards dealt being
/// `cards` (player, dealer, player, dealer) and the deck ending as `deck`.
pub open spec fn deal_after_draws(
    v: GameView,
    bet: u32,
    cards: Seq<Card>,
    deck: Seq<Card>,
    v2: GameView,
) -> bool {
    let player = HandView {
        cards: seq![cards[0], cards[2]],
        bet,
        state: HandState::Active,
        is_doubled: false,
    };
    let dealt = GameView {
        session_id: v.session_id,
        deck,
        hands: seq![player],
        active: 0,
        dealer: HandView {
            cards: seq![cards[1], cards[3]],
            bet: 0,
            state: HandState::Active,
            is_doubled: false,
        },
        chips: (v.chips - bet) as u32,
        insurance_bet: None,
        phase: GamePhase::PlayerTurn,
        split_count: 0,
        insurance_offered: cards[1].rank == Rank::Ace,
    };
    if is_natural(player.cards) {
        finish_round(
            GameView { hands: seq![HandView { state: HandState::Blackjack, ..player }], ..dealt },
            v2,
        )
    } else {
        v2 == dealt
    }
}

/// `v2` is `v` after a successful deal with bet `bet`.
pub open spec fn dealt(v: GameView, bet: u32, v2: GameView) -> bool {
    exists|decks: Seq<Seq<Card>>, cards: Seq<Card>|
        #[trigger] draw_chain(decks, cards) && cards.len() == 4 && decks[0] == v.deck
            && deal_after_draws(v, bet, cards, decks[4], v2)
}

/// `v2` is `v` after the active hand is hit with `c`, the deck ending as `deck`.
pub open spec fn hit_after_draw(v: GameView, c: Card, deck: Seq<Card>, v2: GameView) -> bool {
    let h = active_hand_view(v);
    let cards = h.cards.push(c);
    let bust = is_bust_cards(cards);
    let h2 = HandView {
        cards,
        state: if bust {
            HandState::Busted
        } else {
            h.state
        },
        ..h
    };
    let v1 = GameView { deck, hands: v.hands.update(v.active as int, h2), ..v };
    if bust {
        advance_or_finish(v1, v2)
    } else {
        v2 == v1
    }
}

/// `v2` is `v` after a successful hit.
pub open spec fn hit_done(v: GameView, v2: GameView) -> bool {
    exists|c: Card, deck: Seq<Card>|
        #[trigger] draw_one(v.deck, deck, c) && hit_after_draw(v, c, deck, v2)
}

/// `v2` is `v` after a successful stand.
pub open spec fn stand_done(v: GameView, v2: GameView) -> bool {
    let h = active_hand_view(v);
    advance_or_finish(
        GameView {
            hands: v.hands.update(v.active as int, HandView { state: HandState::Standing, ..h }),
            ..v
        },
        v2,
    )
}

/// `v2` is `v` after the active hand doubles down and draws `c`, the deck ending as `deck`.
pub open spec fn double_after_draw(v: GameView, c: Card, deck: Seq<Card>, v2: GameView) -> bool {
    let h = active_hand_view(v);
    let cards = h.cards.push(c);
    let h2 = HandView {
        cards,
        bet: (2 * h.bet) as u32,
        state: if is_bust_cards(cards) {
            HandState::Busted
        } else {
            HandState::Standing
        },
        is_doubled: true,
    };
    advance_or_finish(
        GameView {
            deck,
            chips: (v.chips - h.bet) as u32,
            hands: v.hands.update(v.active as int, h2),
            ..v
        },
        v2,
    )
}

/// `v2` is `v` after a successful double down.
pub open spec fn double_done(v: GameView, v2: GameView) -> bool {
    exists|c: Card, deck: Seq<Card>|
        #[trigger] draw_one(v.deck, deck, c) && double_after_draw(v, c, deck, v2)
}

/// `v2` is `v` after the active pair is split, the first hand drawing `c1` and
/// the second `c2`, the deck ending as `deck`.
pub open spec fn split_after_draws(v: GameView, c1: Card, c2: Card, deck: Seq<Card>, v2: GameView) -> bool {
    let i = v.active as int;
    let h = active_hand_view(v);
    let aces = h.cards[0].rank == Rank::Ace;
    let first = HandView {
        cards: seq![h.cards[0], c1],
        state: if aces {
            HandState::Standing
        } else {
            h.state
        },
        ..h
    };
    let second = HandView {
        cards: seq![h.cards[1], c2],
        bet: h.bet,
        state: if aces {
            HandState::Standing
        } else {
            HandState::Active
        },
        is_doubled: false,
    };
    let v1 = GameView {
        deck,
        chips: (v.chips - h.bet) as u32,
        split_count: (v.split_count + 1) as usize,
        hands: v.hands.update(i, first).insert(i + 1, second),
        ..v
    };
    if aces {
        advance_or_finish(v1, v2)
    } else {
        v2 == v1
    }
}

/// `v2` is `v` after a successful split.
pub open spec fn split_done(v: GameView, v2: GameView) -> bool {
    exists|c1: Card, d1: Seq<Card>, c2: Card, d2: Seq<Card>|
        #![trigger draw_one(v.deck, d1, c1), draw_one(d1, d2, c2)]
        draw_one(v.deck, d1, c1) && draw_one(d1, d2, c2) && split_after_draws(v, c1, c2, d2, v2)
}

/// The state of a fresh round: no hands, an empty dealer hand, nothing staked.
pub open spec fn reset_round(v: GameView) -> GameView {
    GameView {
        hands: Seq::empty(),
        dealer: HandView {
            cards: Seq::empty(),
            bet: 0,
            state: HandState::Active,
            is_doubled: false,
        },
        active: 0,
        insurance_bet: None,
        insurance_offered: false,
        split_count: 0,
        phase: GamePhase::Waiting,
        ..v
    }
}

// ── Lemmas on sums ──────────────────────────────────────────────────────────

pub proof fn lemma_sum_push(s: Seq<int>, x: int)
    ensures
        seq_sum(s.push(x)) == seq_sum(s) + x,
{
    assert(s.push(x).drop_last() =~= s);
}

pub proof fn lemma_sum_update(s: Seq<int>, i: int, x: int)
    requires
        0 <= i < s.len(),
    ensures
        seq_sum(s.update(i, x)) == seq_sum(s) - s[i] + x,
    decreases s.len(),
{
    if i == s.len() - 1 {
        assert(s.update(i, x).drop_last() =~= s.drop_last());
    } else {
        lemma_sum_update(s.drop_last(), i, x);
        assert(s.update(i, x).drop_last() =~= s.drop_last().update(i, x));
    }
}

pub proof fn lemma_sum_insert(s: Seq<int>, i: int, x: int)
    requires
        0 <= i <= s.len(),
    ensures
        seq_sum(s.insert(i, x)) == seq_sum(s) + x,
    decreases s.len(),
{
    if i == s.len() {
        assert(s.insert(i, x) =~= s.push(x));
        lemma_sum_push(s, x);
    } else {
        lemma_sum_insert(s.drop_last(), i, x);
        assert(s.insert(i, x).drop_last() =~= s.drop_last().insert(i, x));
    }
}

/// A sum of non-negative terms is at least each term and at least each prefix sum.
pub proof fn lemma_sum_nonneg(s: Seq<int>)
    requires
        forall|i: int| 0 <= i < s.len() ==> s[i] >= 0,
    ensures
        seq_sum(s) >= 0,
        forall|i: int| 0 <= i < s.len() ==> s[i] <= seq_sum(s),
        forall|k: int| 0 <= k <= s.len() ==> seq_sum(#[trigger] s.take(k)) <= seq_sum(s),
    decreases s.len(),
{
    if s.len() > 0 {
        let t = s.drop_last();
        lemma_sum_nonneg(t);
        assert forall|i: int| 0 <= i < s.len() implies s[i] <= seq_sum(s) by {
            if i < t.len() {
                assert(t[i] == s[i]);
            }
        }
        assert forall|k: int| 0 <= k <= s.len() implies seq_sum(#[trigger] s.take(k)) <= seq_sum(s) by {
            if k == s.len() {
                assert(s.take(k) =~= s);
            } else {
                assert(s.take(k) =~= t.take(k));
            }
        }
    } else {
        assert forall|k: int| 0 <= k <= s.len() implies seq_sum(#[trigger] s.take(k)) <= seq_sum(s) by {
            assert(s.take(k) =~= s);
        }
    }
}

/// Pointwise smaller terms give a smaller sum.
pub proof fn lemma_sum_le(s: Seq<int>, t: Seq<int>)
    requires
        s.len() == t.len(),
        forall|i: int| 0 <= i < s.len() ==> s[i] <= t[i],
    ensures
        seq_sum(s) <= seq_sum(t),
    decreases s.len(),
{
    if s.len() > 0 {
        lemma_sum_le(s.drop_last(), t.drop_last());
    }
}

/// The settlement never credits a hand more than `max_return`, so a round whose
/// headroom fits in a `u32` settles without overflow, whatever the dealer holds.
pub proof fn lemma_headroom_fits(v: GameView)
    requires
        round_headroom(v) <= u32::MAX,
    ensures
        settlement_fits(v),
        round_return(v) >= 0,
{
    let r = hand_returns(v.hands, v.dealer.cards);
    let m = max_returns(v.hands);
    assert forall|i: int| 0 <= i < r.len() implies 0 <= #[trigger] r[i] <= m[i] by {
        assert(r[i] == hand_return(v.hands[i], v.dealer.cards));
        assert(m[i] == max_return(v.hands[i]));
    }
    lemma_sum_le(r, m);
    lemma_sum_nonneg(r);
    lemma_sum_nonneg(m);
    assert forall|i: int|
        0 <= i < v.hands.len() && (#[trigger] v.hands[i]).state == HandState::Blackjack implies 3
        * v.hands[i].bet <= u32::MAX by {
        assert(m[i] == max_return(v.hands[i]));
    }
}

/// The bets of the hands, one for each hand.
pub open spec fn hand_bets(hands: Seq<HandView>) -> Seq<int> {
    hands.map_values(|h: HandView| h.bet as int)
}

/// Replacing one hand changes the sums of bets and of most-possible returns by
/// the difference between the new hand and the old one.
pub proof fn lemma_update_hand(hands: Seq<HandView>, i: int, h: HandView)
    requires
        0 <= i < hands.len(),
    ensures
        seq_sum(max_returns(hands.update(i, h))) == seq_sum(max_returns(hands)) - max_return(
            hands[i],
        ) + max_return(h),
        seq_sum(hand_bets(hands.update(i, h))) == seq_sum(hand_bets(hands)) - hands[i].bet + h.bet,
{
    assert(max_returns(hands.update(i, h)) =~= max_returns(hands).update(i, max_return(h)));
    assert(hand_bets(hands.update(i, h)) =~= hand_bets(hands).update(i, h.bet as int));
    lemma_sum_update(max_returns(hands), i, max_return(h));
    lemma_sum_update(hand_bets(hands), i, h.bet as int);
}

/// Inserting a hand adds its bet and its most-possible return to the sums.
pub proof fn lemma_insert_hand(hands: Seq<HandView>, i: int, h: HandView)
    requires
        0 <= i <= hands.len(),
    ensures
        seq_sum(max_returns(hands.insert(i, h))) == seq_sum(max_returns(hands)) + max_return(h),
        seq_sum(hand_bets(hands.insert(i, h))) == seq_sum(hand_bets(hands)) + h.bet,
{
    assert(max_returns(hands.insert(i, h)) =~= max_returns(hands).insert(i, max_return(h)));
    assert(hand_bets(hands.insert(i, h)) =~= hand_bets(hands).insert(i, h.bet as int));
    lemma_sum_insert(max_returns(hands), i, max_return(h));
    lemma_sum_insert(hand_bets(hands), i, h.bet as int);
}

/// Moving on or finishing the round keeps the hands and the split count; unless
/// the round is complete it also keeps the chips, the insurance bet and the phase.
pub proof fn lemma_advance_keeps_table(v: GameView, v2: GameView)
    requires
        advance_or_finish(v, v2),
    ensures
        v2.hands == v.hands,
        v2.split_count == v.split_count,
        v2.session_id == v.session_id,
        v2.phase == GamePhase::Complete || (v2.chips == v.chips && v2.insurance_bet
            == v.insurance_bet && v2.phase == v.phase),
{
    match first_active_from(v.hands, v.active + 1) {
        Some(i) => {},
        None => {
            let mid = choose|mid: GameView|
                #[trigger] dealer_plays(GameView { phase: GamePhase::DealerTurn, ..v }, mid) && v2
                    == (GameView { phase: GamePhase::Complete, ..settled(mid) });
            let drawn = choose|drawn: Seq<Card>|
                #![trigger super::dealer::dealer_stops(v.dealer.cards, drawn)]
                super::dealer::draws(v.deck, drawn, mid.deck) && super::dealer::dealer_stops(
                    v.dealer.cards,
                    drawn,
                ) && mid == (GameView {
                    deck: mid.deck,
                    dealer: HandView { cards: v.dealer.cards + drawn, ..v.dealer },
                    ..GameView { phase: GamePhase::DealerTurn, ..v }
                });
        },
    }
}

/// A finished round is complete, its only legal action is a new hand, the
/// insurance bet is settled, the player's hands are kept for display, and the
/// dealer has drawn on from the cards held to a score of 17 or more.
pub proof fn lemma_round_finished(v: GameView, v2: GameView)
    requires
        finish_round(v, v2),
    ensures
        v2.phase == GamePhase::Complete,
        legal_actions(v2) == seq![Action::NewHand],
        v2.insurance_bet is None,
        v2.hands == v.hands,
        hand_score(v2.dealer.cards) >= 17,
        v2.dealer.cards.len() >= v.dealer.cards.len(),
        v2.dealer.cards.subrange(0, v.dealer.cards.len() as int) == v.dealer.cards,
{
    let mid = choose|mid: GameView|
        #[trigger] dealer_plays(GameView { phase: GamePhase::DealerTurn, ..v }, mid) && v2 == (
        GameView { phase: GamePhase::Complete, ..settled(mid) });
    let drawn = choose|drawn: Seq<Card>|
        #![trigger super::dealer::dealer_stops(v.dealer.cards, drawn)]
        super::dealer::draws(v.deck, drawn, mid.deck) && super::dealer::dealer_stops(
            v.dealer.cards,
            drawn,
        ) && mid == (GameView {
            deck: mid.deck,
            dealer: HandView { cards: v.dealer.cards + drawn, ..v.dealer },
            ..GameView { phase: GamePhase::DealerTurn, ..v }
        });
    assert((v.dealer.cards + drawn).subrange(0, v.dealer.cards.len() as int) =~= v.dealer.cards);
}

} // verus!
