//! A chess engine that is trying, sincerely and with some skill, to lose.
//!
//! `zero-elo` plays legal, ordinary-looking chess in service of an ordinary
//! goal held backwards: it wants to be checkmated, and it wants that to happen
//! against an opponent who is genuinely trying to win. That is harder than it
//! sounds. The naive version, which hangs everything and resigns its material to
//! the board, trades down into a bare king and *draws*, and a draw is half a
//! point the engine did not want.
//!
//! So the engine plays real chess in reverse:
//!
//! * it maximises its own [badness](eval) instead of minimising it;
//! * it keeps enough enemy material on the board to be mated by;
//! * it treats stalemate, repetition and dead material as failures, ranked
//!   below any position where it is merely losing;
//! * and it decides how much to count on the opponent to punish it, via
//!   [`OpponentModel`].

use vstd::prelude::*;

pub mod attacks;
pub mod bits;
pub mod chess;
pub mod clock;
pub mod console;
pub mod eval;
pub mod game;
pub mod position;
pub mod rules;
pub mod search;
pub mod text;
pub mod uci;

pub use game::{Game, SetupError};
pub use search::{Engine, Limits, OpponentModel, Options, Score, SearchInfo, SearchResult};

verus! {

/// The name reported to UCI clients.
pub const ENGINE_NAME: &'static str = "zero-elo 0.1.0";
/// The author reported to UCI clients.
pub const ENGINE_AUTHOR: &'static str = "Hans Larsen";

} // verus!
