use iep::errors::ElectionError;
use iep::phase::{parse_direction, parse_phase, ElectionPhase, StepDirection};

#[test]
fn phase_order_walks_all_five_stages() {
    let p0 = ElectionPhase::FirstVote;
    let p1 = p0.step_next();
    let p2 = p1.step_next();
    let p3 = p2.step_next();
    let p4 = p3.step_next();
    assert_eq!(p1, ElectionPhase::FirstTally);
    assert_eq!(p2, ElectionPhase::SecondVote);
    assert_eq!(p3, ElectionPhase::SecondTally);
    assert_eq!(p4, ElectionPhase::SafetyRound);
}

#[test]
fn phase_saturates_at_both_ends() {
    assert_eq!(
        ElectionPhase::SafetyRound.step_next(),
        ElectionPhase::SafetyRound
    );
    assert_eq!(
        ElectionPhase::FirstVote.step_prev(),
        ElectionPhase::FirstVote
    );
}

#[test]
fn phase_steps_invert_away_from_the_ends() {
    for p in [
        ElectionPhase::FirstTally,
        ElectionPhase::SecondVote,
        ElectionPhase::SecondTally,
    ] {
        assert_eq!(p.step_next().step_prev(), p);
        assert_eq!(p.step_prev().step_next(), p);
    }
    // at the ends the round trips land on the neighbour instead
    assert_eq!(
        ElectionPhase::FirstVote.step_prev().step_next(),
        ElectionPhase::FirstTally
    );
    assert_eq!(
        ElectionPhase::SafetyRound.step_next().step_prev(),
        ElectionPhase::SecondTally
    );
}

#[test]
fn phase_labels_parse_back() {
    for p in [
        ElectionPhase::FirstVote,
        ElectionPhase::FirstTally,
        ElectionPhase::SecondVote,
        ElectionPhase::SecondTally,
        ElectionPhase::SafetyRound,
    ] {
        assert_eq!(parse_phase(p.label()), Ok(p));
    }
}

#[test]
fn unknown_phase_label_is_rejected() {
    assert_eq!(parse_phase("ThirdVote"), Err(ElectionError::UnknownPhase));
    assert_eq!(parse_phase(""), Err(ElectionError::UnknownPhase));
    assert_eq!(parse_phase("firstvote"), Err(ElectionError::UnknownPhase));
}

#[test]
fn directions_parse_and_reject() {
    assert_eq!(parse_direction("next"), Ok(StepDirection::Next));
    assert_eq!(parse_direction("prev"), Ok(StepDirection::Prev));
    assert_eq!(parse_direction("reset"), Ok(StepDirection::Reset));
    assert_eq!(
        parse_direction("sideways"),
        Err(ElectionError::InvalidDirection)
    );
}

#[test]
fn phase_titles_are_the_displayed_ones() {
    assert_eq!(ElectionPhase::FirstVote.nice_title(), "First Vote");
    assert_eq!(
        ElectionPhase::FirstTally.nice_title(),
        "Results of First Vote"
    );
    assert_eq!(ElectionPhase::SecondVote.nice_title(), "Second Vote");
    assert_eq!(
        ElectionPhase::SecondTally.nice_title(),
        "Results of Second Vote"
    );
    assert_eq!(ElectionPhase::SafetyRound.nice_title(), "Safety Round");
}
