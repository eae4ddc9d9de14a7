//! A two-player abstract board game engine.
//!
//! Players place sized pieces from a finite personal pool onto a bounded
//! grid. A placement displaces ("bounces") the pieces on the eight
//! neighbouring cells according to size rules; three same-owner pieces in a
//! straight line are promoted into new Big pieces for their owner, and a
//! line of three Big pieces wins the game.
//!
//! The crate exposes pure operations on an explicit [`state::GameState`]
//! value, and parsers that turn command text into the typed values those
//! operations consume. Reading input and rendering the board are the
//! caller's concern.

pub mod board;
pub mod detect;
pub mod errors;
pub mod laws;
pub mod parse;
pub mod place;
pub mod resolve;
pub mod state;
