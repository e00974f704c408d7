//! The client-facing view of a game: what a response may show of the table.

use vstd::prelude::*;

use crate::game::card::Card;
use crate::game::hand::Hand;
use crate::game::state::{hand_views, legal_actions, Action, GamePhase, GameState};

verus! {

/// Public game state returned to the client on every response.
pub struct GameStateResponse {
    /// Session identifier.
    pub session_id: u128,
    /// Current chip balance.
    pub chips: u32,
    /// Current game phase.
    pub phase: GamePhase,
    /// All player hands.
    pub player_hands: Vec<Hand>,
    /// Dealer's face-up card (first card). Hidden hole card during PlayerTurn.
    pub dealer_visible_card: Option<Card>,
    /// Full dealer hand — only revealed in DealerTurn and Complete phases.
    pub dealer_hand: Option<Hand>,
    /// Actions the player can take right now.
    pub available_actions: Vec<Action>,
}

/// Body of a deal request.
pub struct DealRequest {
    /// Chips to bet.
    pub bet: u32,
}

/// The dealer's whole hand may be shown in this phase.
pub open spec fn reveals_dealer(phase: GamePhase) -> bool {
    phase == GamePhase::DealerTurn || phase == GamePhase::Complete
}

fn copy_hands(hands: &Vec<Hand>) -> (r: Vec<Hand>)
    ensures
        hand_views(r@) == hand_views(hands@),
{
    let mut r: Vec<Hand> = Vec::new();
    let n = hands.len();
    for i in 0..n
        invariant
            n == hands@.len(),
            r@.len() == i,
            forall|j: int| 0 <= j < i ==> (#[trigger] r@[j])@ == hands@[j]@,
    {
        r.push(hands[i].duplicate());
    }
    assert(hand_views(r@) =~= hand_views(hands@));
    r
}

/// Build a client-safe response from the server-side game state.
///
/// The dealer's hole card never leaves the server while the player acts: only
/// the first dealer card is shown until the dealer's turn.
pub fn to_response(gs: &GameState) -> (r: GameStateResponse)
    ensures
        r.session_id == gs.session_id,
        r.chips == gs.chips,
        r.phase == gs.phase,
        hand_views(r.player_hands@) == gs@.hands,
        r.dealer_visible_card == (if gs.dealer_hand.cards@.len() > 0 {
            Some(gs.dealer_hand.cards@[0])
        } else {
            None
        }),
        match r.dealer_hand {
            Some(h) => reveals_dealer(gs.phase) && h@ == gs.dealer_hand@,
            None => !reveals_dealer(gs.phase),
        },
        r.available_actions@ == legal_actions(gs@),
{
    let reveal_dealer = gs.phase == GamePhase::DealerTurn || gs.phase == GamePhase::Complete;
    let dealer_visible_card = if gs.dealer_hand.cards.len() > 0 {
        Some(gs.dealer_hand.cards[0])
    } else {
        None
    };
    GameStateResponse {
        session_id: gs.session_id,
        chips: gs.chips,
        phase: gs.phase,
        player_hands: copy_hands(&gs.player_hands),
        dealer_visible_card,
        dealer_hand: if reveal_dealer {
            Some(gs.dealer_hand.duplicate())
        } else {
            None
        },
        available_actions: gs.available_actions(),
    }
}

} // verus!
