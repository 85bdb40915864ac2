use vstd::prelude::*;

verus! {

/// Everything that an operation on an election can reject.
///
/// - `NotFound`: the referenced election id is not in the store.
/// - `PhaseConflict`: a guarded transition was requested for a phase the
///   process is no longer in; nothing was mutated.
/// - `UnknownPhase`: a phase label did not name any phase.
/// - `InvalidDirection`: a transition direction was not one of the known ones.
/// - `UnknownNominee`: a nominee id outside the election's registry.
#[derive(Clone, Copy, PartialEq, Eq, Structural, Debug)]
pub enum ElectionError {
    NotFound,
    PhaseConflict,
    UnknownPhase,
    InvalidDirection,
    UnknownNominee,
}

} // verus!
