//! The search: alpha-beta over a score that measures how badly the engine is
//! doing, maximised rather than minimised.
//!
//! # Which way is up
//!
//! Every score here is *badness* for the **victim**, the side the engine is
//! playing. Being checkmated is `+MATE`; delivering checkmate is `-MATE`; a
//! draw sits just below zero, because half a point is still a point too many.
//! The victim always maximises.
//!
//! # What the opponent wants
//!
//! This is the part an ordinary engine does not have to think about. Normal
//! chess is zero-sum, so one player's gain is the other's loss and minimax
//! applies. Here the engine's goal is "I lose", and whether the opponent shares
//! that goal is a modelling choice, not a fact:
//!
//! * [`OpponentModel::Optimistic`] assumes the opponent is playing to win, so
//!   they *also* want the engine to lose. Both sides maximise the same score.
//!   This is what a real opponent does, and it finds the fastest defeats, but
//!   a maximum at every node means alpha-beta has nothing to prune against, so
//!   the search is wide and shallow. The opponent's replies are narrowed to the
//!   most punishing few ([`Options::opponent_moves`]) to keep it affordable.
//! * [`OpponentModel::Paranoid`] assumes the opponent will do everything in
//!   their power to *avoid* beating the engine: they decline every gift and
//!   refuse every mate. Minimax applies again and the search goes deep. What it
//!   finds are losses that hold up no matter how uncooperative the opponent is.
//!
//! Neither is strictly better. Optimistic loses faster against opponents who
//! want to win; paranoid is the one to use against another copy of this engine.
//!
//! # Layout
//!
//! [`model`] says what the search computes; [`engine`] and [`root`] compute it.
//! [`score`], [`ordering`] and [`table`] are the parts they are made of.

pub mod engine;
pub mod laws;
pub mod limits;
pub mod model;
pub mod options;
pub mod ordering;
mod recursion;
pub mod root;
pub mod score;
pub mod table;
pub mod values;

pub use engine::Engine;
pub use limits::Limits;
pub use options::{OpponentModel, Options};
pub use root::{Search, SearchInfo, SearchResult};
pub use score::{Score, INFINITY, MATE, MATE_IN_MAX_PLY, MAX_PLY};
