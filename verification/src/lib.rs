//! Rule engine and room directory for Badam Sat, a card game in which the
//! players build each suit outward from its seven.
//!
//! The crate is layered, leaves first: [`cards`] holds the card values,
//! [`stacks`] the per-suit stacks and the playing area, [`players`] the hands,
//! [`games`] the turn-by-turn state machine, [`rooms`] one hosted game with its
//! roster, and [`server`] the directory of rooms; [`errors`] holds what rooms
//! and server answer when they refuse a call, and [`sorting`] the order in
//! which a hand is shown. Every function is verified
//! against the contract written on it, but for two that call outside code:
//! the shuffle of the cards and the drawing of a room's identifier.

pub mod cards;
pub mod errors;
pub mod games;
pub mod players;
pub mod rooms;
pub mod server;
pub mod sorting;
pub mod stacks;
