//! Tallying of votes cast in a single-contest election.
//!
//! The engine in [`engine`] counts valid votes per choice, ranks the choices
//! by count with a stable descending sort, and decides a winner under a
//! strict-majority tie rule. The mathematical model of the whole computation
//! lives in [`model`], and [`laws`] proves the general properties of the
//! tally.

pub mod engine;
pub mod laws;
pub mod model;
pub mod types;
