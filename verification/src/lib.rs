//! Blackjack game engine: cards, hands, dealer rules, round actions and settlement.

pub mod cli;
pub mod game;
pub mod handlers;
pub mod session;
