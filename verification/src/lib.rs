//! Core of a multi-phase group election: a fixed sequence of phases, two
//! voting rounds keyed by voter name, a deterministic tally with a
//! descending-count / descending-name order, and a keyed store of election
//! processes with a per-election notification channel.

pub mod errors;
pub mod phase;
pub mod process;
pub mod registry;
pub mod round;
pub mod tally;
pub mod text;
