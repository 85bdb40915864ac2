use vstd::prelude::*;

use crate::errors::ElectionError;
use crate::text::str_same;

verus! {

/// The five stages of an election process, in their fixed total order:
/// `FirstVote` is initial, `SafetyRound` is terminal.
#[derive(Clone, Copy, PartialEq, Eq, Structural, Debug)]
pub enum ElectionPhase {
    FirstVote,
    FirstTally,
    SecondVote,
    SecondTally,
    SafetyRound,
}

impl ElectionPhase {
    /// The successor in the fixed order, saturating at `SafetyRound`.
    pub open spec fn spec_next(self) -> ElectionPhase {
        match self {
            ElectionPhase::FirstVote => ElectionPhase::FirstTally,
            ElectionPhase::FirstTally => ElectionPhase::SecondVote,
            ElectionPhase::SecondVote => ElectionPhase::SecondTally,
            ElectionPhase::SecondTally => ElectionPhase::SafetyRound,
            ElectionPhase::SafetyRound => ElectionPhase::SafetyRound,
        }
    }

    /// The predecessor in the fixed order, saturating at `FirstVote`.
    pub open spec fn spec_prev(self) -> ElectionPhase {
        match self {
            ElectionPhase::FirstVote => ElectionPhase::FirstVote,
            ElectionPhase::FirstTally => ElectionPhase::FirstVote,
            ElectionPhase::SecondVote => ElectionPhase::FirstTally,
            ElectionPhase::SecondTally => ElectionPhase::SecondVote,
            ElectionPhase::SafetyRound => ElectionPhase::SecondTally,
        }
    }

    pub fn step_next(&self) -> (r: ElectionPhase)
        ensures
            r == self.spec_next(),
    {
        match self {
            ElectionPhase::FirstVote => ElectionPhase::FirstTally,
            ElectionPhase::FirstTally => ElectionPhase::SecondVote,
            ElectionPhase::SecondVote => ElectionPhase::SecondTally,
            ElectionPhase::SecondTally => ElectionPhase::SafetyRound,
            ElectionPhase::SafetyRound => ElectionPhase::SafetyRound,
        }
    }

    pub fn step_prev(&self) -> (r: ElectionPhase)
        ensures
            r == self.spec_prev(),
    {
        match self {
            ElectionPhase::FirstVote => ElectionPhase::FirstVote,
            ElectionPhase::FirstTally => ElectionPhase::FirstVote,
            ElectionPhase::SecondVote => ElectionPhase::FirstTally,
            ElectionPhase::SecondTally => ElectionPhase::SecondVote,
            ElectionPhase::SafetyRound => ElectionPhase::SecondTally,
        }
    }

    /// The display title of the phase.
    pub open spec fn spec_title(self) -> Seq<char> {
        match self {
            ElectionPhase::FirstVote => "First Vote"@,
            ElectionPhase::FirstTally => "Results of First Vote"@,
            ElectionPhase::SecondVote => "Second Vote"@,
            ElectionPhase::SecondTally => "Results of Second Vote"@,
            ElectionPhase::SafetyRound => "Safety Round"@,
        }
    }

    pub fn nice_title(&self) -> (r: &'static str)
        ensures
            r@ == self.spec_title(),
    {
        match self {
            ElectionPhase::FirstVote => "First Vote",
            ElectionPhase::FirstTally => "Results of First Vote",
            ElectionPhase::SecondVote => "Second Vote",
            ElectionPhase::SecondTally => "Results of Second Vote",
            ElectionPhase::SafetyRound => "Safety Round",
        }
    }

    /// The display description of the phase, as plain text.
    pub open spec fn spec_description(self) -> Seq<char> {
        match self {
            ElectionPhase::FirstVote => "Please vote for your preferred candidate."@,
            ElectionPhase::FirstTally => "The results of the first vote are in! Everyone can now explain their vote."@,
            ElectionPhase::SecondVote => "Please vote for your preferred candidate."@,
            ElectionPhase::SecondTally => "The results of the second vote are in!"@,
            ElectionPhase::SafetyRound => "Is this decision safe enough to try?"@,
        }
    }

    pub fn nice_description(&self) -> (r: &'static str)
        ensures
            r@ == self.spec_description(),
    {
        match self {
            ElectionPhase::FirstVote => "Please vote for your preferred candidate.",
            ElectionPhase::FirstTally => "The results of the first vote are in! Everyone can now explain their vote.",
            ElectionPhase::SecondVote => "Please vote for your preferred candidate.",
            ElectionPhase::SecondTally => "The results of the second vote are in!",
            ElectionPhase::SafetyRound => "Is this decision safe enough to try?",
        }
    }

    /// The canonical label of the phase, used when a caller names a phase in
    /// a request and when one is shown in a link.
    pub open spec fn spec_label(self) -> Seq<char> {
        match self {
            ElectionPhase::FirstVote => "FirstVote"@,
            ElectionPhase::FirstTally => "FirstTally"@,
            ElectionPhase::SecondVote => "SecondVote"@,
            ElectionPhase::SecondTally => "SecondTally"@,
            ElectionPhase::SafetyRound => "SafetyRound"@,
        }
    }

    pub fn label(&self) -> (r: &'static str)
        ensures
            r@ == self.spec_label(),
    {
        match self {
            ElectionPhase::FirstVote => "FirstVote",
            ElectionPhase::FirstTally => "FirstTally",
            ElectionPhase::SecondVote => "SecondVote",
            ElectionPhase::SecondTally => "SecondTally",
            ElectionPhase::SafetyRound => "SafetyRound",
        }
    }
}

/// The phase whose canonical label is `s`, if any.
pub open spec fn phase_of_label(s: Seq<char>) -> Option<ElectionPhase> {
    if s == ElectionPhase::FirstVote.spec_label() {
        Some(ElectionPhase::FirstVote)
    } else if s == ElectionPhase::FirstTally.spec_label() {
        Some(ElectionPhase::FirstTally)
    } else if s == ElectionPhase::SecondVote.spec_label() {
        Some(ElectionPhase::SecondVote)
    } else if s == ElectionPhase::SecondTally.spec_label() {
        Some(ElectionPhase::SecondTally)
    } else if s == ElectionPhase::SafetyRound.spec_label() {
        Some(ElectionPhase::SafetyRound)
    } else {
        None
    }
}

/// Reads a phase from its canonical label; any other text is rejected with
/// `UnknownPhase`.
pub fn parse_phase(s: &str) -> (r: Result<ElectionPhase, ElectionError>)
    ensures
        r == (match phase_of_label(s@) {
            Some(p) => Ok::<ElectionPhase, ElectionError>(p),
            None => Err(ElectionError::UnknownPhase),
        }),
{
    if str_same(s, "FirstVote") {
        Ok(ElectionPhase::FirstVote)
    } else if str_same(s, "FirstTally") {
        Ok(ElectionPhase::FirstTally)
    } else if str_same(s, "SecondVote") {
        Ok(ElectionPhase::SecondVote)
    } else if str_same(s, "SecondTally") {
        Ok(ElectionPhase::SecondTally)
    } else if str_same(s, "SafetyRound") {
        Ok(ElectionPhase::SafetyRound)
    } else {
        Err(ElectionError::UnknownPhase)
    }
}

/// What a guarded transition asks for: a step forward, a step backward, or a
/// reset of the round that is open for voting.
#[derive(Clone, Copy, PartialEq, Eq, Structural, Debug)]
pub enum StepDirection {
    Next,
    Prev,
    Reset,
}

/// The direction whose label is `s`, if any.
pub open spec fn direction_of_label(s: Seq<char>) -> Option<StepDirection> {
    if s == "next"@ {
        Some(StepDirection::Next)
    } else if s == "prev"@ {
        Some(StepDirection::Prev)
    } else if s == "reset"@ {
        Some(StepDirection::Reset)
    } else {
        None
    }
}

/// Reads a transition direction from its label; any other text is rejected
/// with `InvalidDirection`.
pub fn parse_direction(s: &str) -> (r: Result<StepDirection, ElectionError>)
    ensures
        r == (match direction_of_label(s@) {
            Some(d) => Ok::<StepDirection, ElectionError>(d),
            None => Err(ElectionError::InvalidDirection),
        }),
{
    if str_same(s, "next") {
        Ok(StepDirection::Next)
    } else if str_same(s, "prev") {
        Ok(StepDirection::Prev)
    } else if str_same(s, "reset") {
        Ok(StepDirection::Reset)
    } else {
        Err(ElectionError::InvalidDirection)
    }
}

/// Phases only saturate at the two ends: stepping forward from the terminal
/// phase and stepping backward from the initial phase change nothing.
pub proof fn lemma_phase_saturation()
    ensures
        ElectionPhase::SafetyRound.spec_next() == ElectionPhase::SafetyRound,
        ElectionPhase::FirstVote.spec_prev() == ElectionPhase::FirstVote,
{
}

/// Away from both ends of the phase order, stepping forward and stepping
/// backward invert each other.
pub proof fn lemma_phase_local_invertibility(p: ElectionPhase)
    requires
        p != ElectionPhase::FirstVote,
        p != ElectionPhase::SafetyRound,
    ensures
        p.spec_next().spec_prev() == p,
        p.spec_prev().spec_next() == p,
{
}

} // verus!
