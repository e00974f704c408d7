//! Game rules: cards, hands, the table state, the dealer and the player's actions.

pub mod card;
pub mod hand;
pub mod state;
pub mod dealer;
pub mod rules;
pub mod actions;
pub mod laws;
