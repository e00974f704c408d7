//! Top-level game state and phase management.

use std::time::Instant;

use vstd::prelude::*;

use super::card::{is_fresh_shoe, new_shoe, Card, Rank, Suit, SHOE_SIZE};
use super::hand::{is_pair_cards, Hand, HandState, HandView};

verus! {

/// Reshuffle when fewer than this many cards remain.
pub const RESHUFFLE_THRESHOLD: usize = 52;

/// Starting chip count for new sessions.
pub const STARTING_CHIPS: u32 = 1_000;

/// Maximum number of splits allowed per round (results in 4 hands max).
pub const MAX_SPLITS: usize = 3;

/// Phase of the current round.
#[derive(Debug, Clone, Copy, PartialEq, Eq, Structural)]
pub enum GamePhase {
    /// Waiting for the player to place a bet and deal.
    Waiting,
    /// Player is making decisions on their hands.
    PlayerTurn,
    /// Dealer is playing out their hand.
    DealerTurn,
    /// Round is complete; results available.
    Complete,
}

/// What actions the player can take right now.
#[derive(Debug, Clone, Copy, PartialEq, Eq, Structural)]
pub enum Action {
    /// Deal a new hand (only in Waiting phase).
    Deal,
    /// Hit: take another card.
    Hit,
    /// Stand: end action on this hand.
    Stand,
    /// Double down.
    Double,
    /// Split a pair.
    Split,
    /// Take insurance (dealer shows Ace, before player acts).
    Insurance,
    /// Start next hand after round is complete.
    NewHand,
}

/// Per-round outcome for a player hand.
#[derive(Debug, Clone, Copy, PartialEq, Eq, Structural)]
pub enum HandResult {
    /// Player wins (1:1).
    Win,
    /// Player has a natural blackjack (3:2).
    Blackjack,
    /// Push — bet returned.
    Push,
    /// Player loses.
    Lose,
}

#[verifier::external_type_specification]
#[verifier::external_body]
pub struct ExInstant(Instant);

/// The full server-side game state for one session.
pub struct GameState {
    /// Unique session identifier (the 128 bits of a random UUID).
    pub session_id: u128,
    /// The shoe (deck of cards).
    pub deck: Vec<Card>,
    /// All player hands (grows after splits).
    pub player_hands: Vec<Hand>,
    /// Index of the hand the player is currently acting on.
    pub active_hand_index: usize,
    /// The dealer's hand.
    pub dealer_hand: Hand,
    /// Player's chip balance.
    pub chips: u32,
    /// Insurance bet amount, if placed.
    pub insurance_bet: Option<u32>,
    /// Current phase of the game.
    pub phase: GamePhase,
    /// Last activity timestamp (for session expiry).
    pub last_activity: Instant,
    /// Number of splits performed this round.
    pub split_count: usize,
    /// Whether insurance was offered this round.
    pub insurance_offered: bool,
}

/// The mathematical model of a game: everything but the activity timestamp.
#[verifier::ext_equal]
pub struct GameView {
    /// Session identifier.
    pub session_id: u128,
    /// The shoe; its last card is the top.
    pub deck: Seq<Card>,
    /// The player's hands.
    pub hands: Seq<HandView>,
    /// Index of the hand the player is acting on.
    pub active: usize,
    /// The dealer's hand.
    pub dealer: HandView,
    /// Chip balance.
    pub chips: u32,
    /// Insurance bet, if placed.
    pub insurance_bet: Option<u32>,
    /// Phase of the round.
    pub phase: GamePhase,
    /// Splits performed this round.
    pub split_count: usize,
    /// Whether insurance was offered this round.
    pub insurance_offered: bool,
}

/// The models of a sequence of hands.
pub open spec fn hand_views(hands: Seq<Hand>) -> Seq<HandView> {
    hands.map_values(|h: Hand| h@)
}

impl View for GameState {
    type V = GameView;

    open spec fn view(&self) -> GameView {
        GameView {
            session_id: self.session_id,
            deck: self.deck@,
            hands: hand_views(self.player_hands@),
            active: self.active_hand_index,
            dealer: self.dealer_hand@,
            chips: self.chips,
            insurance_bet: self.insurance_bet,
            phase: self.phase,
            split_count: self.split_count,
            insurance_offered: self.insurance_offered,
        }
    }
}

/// An empty hand with the given bet.
pub open spec fn empty_hand(bet: u32) -> HandView {
    HandView { cards: Seq::empty(), bet, state: HandState::Active, is_doubled: false }
}

/// Drawing `c` takes the deck `before` to `after`: the top (last) card when at
/// least `RESHUFFLE_THRESHOLD` cards remain; otherwise the last card of a fresh shoe.
pub open spec fn draw_one(before: Seq<Card>, after: Seq<Card>, c: Card) -> bool {
    if before.len() >= RESHUFFLE_THRESHOLD {
        after == before.drop_last() && c == before.last()
    } else {
        is_fresh_shoe(after.push(c))
    }
}

/// The actions the rules allow in the state `v`, in the order they are listed.
pub open spec fn legal_actions(v: GameView) -> Seq<Action> {
    match v.phase {
        GamePhase::Waiting => seq![Action::Deal],
        GamePhase::Complete => seq![Action::NewHand],
        GamePhase::DealerTurn => seq![],
        GamePhase::PlayerTurn => {
            if v.active >= v.hands.len() {
                seq![]
            } else {
                let h = v.hands[v.active as int];
                if h.state != HandState::Active {
                    seq![]
                } else {
                    let a1 = seq![Action::Hit, Action::Stand];
                    let a2 = if h.cards.len() == 2 && v.chips >= h.bet {
                        a1.push(Action::Double)
                    } else {
                        a1
                    };
                    let a3 = if is_pair_cards(h.cards) && v.split_count < MAX_SPLITS && v.chips
                        >= h.bet {
                        a2.push(Action::Split)
                    } else {
                        a2
                    };
                    if v.insurance_offered && v.insurance_bet is None && v.split_count == 0
                        && v.active == 0 && h.cards.len() == 2 {
                        a3.push(Action::Insurance)
                    } else {
                        a3
                    }
                }
            }
        },
    }
}

/// The action `a` is legal in the state `v`.
pub open spec fn is_legal(v: GameView, a: Action) -> bool {
    legal_actions(v).contains(a)
}

/// The index of the first Active hand at position `i` or later.
pub open spec fn first_active_from(hands: Seq<HandView>, i: int) -> Option<int>
    decreases hands.len() - i,
{
    if i < 0 || i >= hands.len() {
        None
    } else if hands[i].state == HandState::Active {
        Some(i)
    } else {
        first_active_from(hands, i + 1)
    }
}

/// Returns a fresh random session identifier.
///
/// Calls `uuid::Uuid::new_v4` and hands back its 128 bits (`Uuid::as_u128`).
/// Nothing is claimed of the value: it is random.
#[verifier::external_body]
fn new_session_id() -> u128 {
    uuid::Uuid::new_v4().as_u128()
}

/// Reads the monotonic clock with `std::time::Instant::now`. Nothing is claimed
/// of the value: it depends on the time.
#[verifier::external_body]
fn now() -> Instant {
    Instant::now()
}

impl GameState {
    /// Create a new game state with a freshly shuffled shoe.
    #[must_use]
    pub fn new() -> (gs: Self)
        ensures
            gs@ == (GameView {
                session_id: gs@.session_id,
                deck: gs@.deck,
                hands: Seq::empty(),
                active: 0,
                dealer: empty_hand(0),
                chips: STARTING_CHIPS,
                insurance_bet: None,
                phase: GamePhase::Waiting,
                split_count: 0,
                insurance_offered: false,
            }),
            gs@.deck.len() == SHOE_SIZE,
            is_fresh_shoe(gs@.deck),
    {
        let gs = Self {
            session_id: new_session_id(),
            deck: new_shoe(),
            player_hands: Vec::new(),
            active_hand_index: 0,
            dealer_hand: Hand::new(0),
            chips: STARTING_CHIPS,
            insurance_bet: None,
            phase: GamePhase::Waiting,
            last_activity: now(),
            split_count: 0,
            insurance_offered: false,
        };
        assert(hand_views(gs.player_hands@) =~= Seq::<HandView>::empty());
        gs
    }

    /// Draw the top card from the deck, reshuffling if below threshold.
    ///
    /// Uses `pop()` (O(1)) rather than `remove(0)` (O(n)); cards are pre-shuffled so
    /// drawing from the back is equivalent. The deck always has cards here:
    /// either ≥ RESHUFFLE_THRESHOLD if untouched, or 312 if just reshuffled.
    pub fn draw_card(&mut self) -> (c: Card)
        ensures
            draw_one(old(self)@.deck, final(self)@.deck, c),
            final(self)@ == (GameView { deck: final(self)@.deck, ..old(self)@ }),
            final(self).player_hands == old(self).player_hands,
            final(self).dealer_hand == old(self).dealer_hand,
            final(self).last_activity == old(self).last_activity,
    {
        if self.deck.len() < RESHUFFLE_THRESHOLD {
            self.deck = new_shoe();
        }
        if self.deck.is_empty() {
            self.deck = new_shoe();
        }
        let ghost full = self.deck@;
        match self.deck.pop() {
            Some(c) => {
                assert(self.deck@.push(c) =~= full);
                c
            },
            None => Card { suit: Suit::Spades, rank: Rank::Ace },
        }
    }

    /// Record activity at the instant `at`: the timestamp becomes `at`, nothing
    /// else changes.
    pub fn record_activity(&mut self, at: Instant)
        ensures
            final(self).last_activity == at,
            final(self)@ == old(self)@,
    {
        self.last_activity = at;
    }

    /// Touch last_activity timestamp.
    pub fn touch(&mut self)
        ensures
            final(self)@ == old(self)@,
    {
        self.record_activity(now());
    }

    /// Compute the list of legal actions for the current state.
    #[must_use]
    pub fn available_actions(&self) -> (actions: Vec<Action>)
        ensures
            actions@ == legal_actions(self@),
    {
        let mut actions: Vec<Action> = Vec::new();
        match self.phase {
            GamePhase::Waiting => {
                actions.push(Action::Deal);
            },
            GamePhase::Complete => {
                actions.push(Action::NewHand);
            },
            GamePhase::DealerTurn => {},
            GamePhase::PlayerTurn => {
                if self.active_hand_index >= self.player_hands.len() {
                    return actions;
                }
                let hand = &self.player_hands[self.active_hand_index];
                if hand.state != HandState::Active {
                    return actions;
                }
                actions.push(Action::Hit);
                actions.push(Action::Stand);
                // Double: only on first 2 cards
                if hand.cards.len() == 2 && self.chips >= hand.bet {
                    actions.push(Action::Double);
                }
                // Split: pair + under split limit + enough chips
                if hand.is_pair() && self.split_count < MAX_SPLITS && self.chips >= hand.bet {
                    actions.push(Action::Split);
                }
                // Insurance: offered this round, not yet taken, no split yet (not on split hands),
                // first hand only, and player hasn't acted yet (still has exactly 2 cards).
                if self.insurance_offered && self.insurance_bet.is_none() && self.split_count == 0
                    && self.active_hand_index == 0 && hand.cards.len() == 2 {
                    actions.push(Action::Insurance);
                }
            },
        }
        proof {
            assert(actions@ =~= legal_actions(self@));
        }
        actions
    }

    /// Advance active_hand_index to the next Active hand, or return false if none remain.
    pub fn advance_hand(&mut self) -> (found: bool)
        requires
            old(self).active_hand_index < usize::MAX,
        ensures
            match first_active_from(old(self)@.hands, old(self)@.active + 1) {
                Some(i) => found && final(self)@ == (GameView { active: i as usize, ..old(self)@ }),
                None => !found && final(self)@ == old(self)@,
            },
            final(self).last_activity == old(self).last_activity,
    {
        let n = self.player_hands.len();
        let mut i = self.active_hand_index + 1;
        while i < n
            invariant
                n == self.player_hands@.len(),
                self.active_hand_index + 1 <= i,
                self@ == old(self)@,
                self.last_activity == old(self).last_activity,
                first_active_from(self@.hands, self@.active + 1) == first_active_from(
                    self@.hands,
                    i as int,
                ),
            decreases n - i,
        {
            if self.player_hands[i].state == HandState::Active {
                self.active_hand_index = i;
                return true;
            }
            i = i + 1;
        }
        false
    }
}

impl Default for GameState {
    fn default() -> (gs: Self)
        ensures
            gs@ == (GameView {
                session_id: gs@.session_id,
                deck: gs@.deck,
                hands: Seq::empty(),
                active: 0,
                dealer: empty_hand(0),
                chips: STARTING_CHIPS,
                insurance_bet: None,
                phase: GamePhase::Waiting,
                split_count: 0,
                insurance_offered: false,
            }),
            is_fresh_shoe(gs@.deck),
    {
        Self::new()
    }
}

} // verus!
