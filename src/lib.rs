use vstd::prelude::*;

/// Cards, their lifecycle stages, store rows, grades and the stability policy.
pub mod card;
/// Declarative card queries: evaluation over a collection and compilation to
/// one parameterised statement.
pub mod query;
/// The prerequisite graph between cards.
pub mod deps;
/// The incremental-reading hierarchy of sources, extracts and clozes.
pub mod incread;
/// The review-session state machine.
pub mod session;

verus! {

} // verus!
