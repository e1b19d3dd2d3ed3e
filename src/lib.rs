//! Move search for a falling-block puzzle player: a beam-search planner over
//! placements, a chain-potential estimate, a vote over sampled futures, the
//! weight tables of several players, and the puyop.com field format.
//!
//! The grid engine (gravity, group elimination, scoring) and the random piece
//! source are outside this library: the planner lists the placements it needs
//! resolved and takes the engine's answers as plain values.

pub mod color;
pub mod decision;
pub mod text;
pub mod grid;
pub mod evaluator;
pub mod beam;
pub mod planner;
pub mod vote;
pub mod potential;
pub mod connect;
pub mod ai;
pub mod takapt;
pub mod history;
pub mod players;
pub mod puyop_decoder;
pub mod puyop_parser;
