//! The Universal Chess Interface, as spoken to a GUI.
//!
//! [`protocol`] says what each line of a client means; a [`Server`] works it out,
//! line by line; [`run`] does so for a whole session, and [`session::perform`]
//! does to an engine what a reply asks for.
//!
//! # Scores are reported the way a GUI expects
//!
//! UCI scores are conventionally written from the engine's point of view, with
//! positive meaning "I am winning". This engine reports in exactly that
//! convention, which means the numbers it sends are usually negative and
//! getting worse. That is the engine succeeding, not failing. `info string`
//! lines carry the same position in the engine's own terms.

pub mod commands;
pub mod laws;
pub mod protocol;
pub mod report;
pub mod server;
pub mod session;

pub use protocol::{Action, Flow, Reply};
pub use server::Server;
pub use session::{run, run_logged, run_with, Transcript};
