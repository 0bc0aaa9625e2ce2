//! A verified engine for live, multi-participant quizzes.
//!
//! The engine tracks, per quiz, a current-question pointer and a score
//! table for the running cycle, scores submitted answers, derives a
//! ranked leaderboard, and fans question-advance and leaderboard-update
//! events out to subscribers over multicast channels.

use vstd::prelude::*;

pub mod broker;
pub mod catalog;
pub mod controller;
pub mod ranking;
pub mod registry;
pub mod scores;
pub mod scoring;
pub mod session;

verus! {

/// A request-scoped failure of the engine or of the player registry.
#[derive(Clone, Copy, Debug, PartialEq, Eq, Structural)]
pub enum QuizError {
    /// The named quiz (or its designated correct choice) does not exist.
    NotFound,
    /// An answer was submitted while no question is active.
    InvalidState,
    /// An answer was submitted without a resolvable player identity.
    MissingIdentity,
    /// A registration clashed with an existing username.
    Conflict,
}

} // verus!
