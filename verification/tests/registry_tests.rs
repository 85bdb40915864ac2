use iep::errors::ElectionError;
use iep::phase::ElectionPhase;
use iep::process::ElectionProcess;
use iep::registry::{ElectionDb, ElectionUpdate};
use iep::round::Round;

#[test]
fn create_election_returns_a_five_character_id() {
    let mut db = ElectionDb::new();
    let id = db.create_election("Lead".to_string(), vec!["B", "A"]);
    assert_eq!(id.chars().count(), 5);
    let snap = db.get_snapshot(&id).unwrap();
    assert_eq!(snap.phase, ElectionPhase::FirstVote);
    assert_eq!(snap.elected_role, "Lead");
    assert_eq!(
        snap.nominees,
        vec![(0u64, "A".to_string()), (1u64, "B".to_string())]
    );
    assert_eq!(snap.vote_count, 0);
}

#[test]
fn lookups_of_unknown_ids_fail_with_not_found() {
    let mut db = ElectionDb::new();
    assert!(matches!(
        db.get_snapshot("zzzzz"),
        Err(ElectionError::NotFound)
    ));
    assert_eq!(
        db.cast_vote("zzzzz", "v1".to_string(), 0),
        Err(ElectionError::NotFound)
    );
    assert_eq!(
        db.request_transition("zzzzz", "FirstVote", "next"),
        Err(ElectionError::NotFound)
    );
    assert!(matches!(db.subscribe("zzzzz"), Err(ElectionError::NotFound)));
}

#[test]
fn votes_for_unknown_nominees_are_rejected_at_the_boundary() {
    let mut db = ElectionDb::new();
    let id = db.create_election("Lead".to_string(), vec!["A", "B"]);
    assert_eq!(
        db.cast_vote(&id, "v1".to_string(), 9),
        Err(ElectionError::UnknownNominee)
    );
    // nothing was recorded
    assert_eq!(db.get_snapshot(&id).unwrap().vote_count, 0);
}

#[test]
fn cast_votes_appear_in_the_snapshot() {
    let mut db = ElectionDb::new();
    let id = db.create_election("Lead".to_string(), vec!["A", "B"]);
    assert_eq!(db.cast_vote(&id, "bob".to_string(), 1), Ok(()));
    assert_eq!(db.cast_vote(&id, "alice".to_string(), 0), Ok(()));
    let snap = db.get_snapshot(&id).unwrap();
    assert_eq!(snap.vote_count, 2);
    assert_eq!(snap.voters, vec!["alice".to_string(), "bob".to_string()]);
    assert_eq!(
        snap.votes,
        vec![("alice".to_string(), 0u64), ("bob".to_string(), 1u64)]
    );
}

#[test]
fn a_stale_expected_phase_is_a_conflict_and_mutates_nothing() {
    let mut db = ElectionDb::new();
    let id = db.create_election("Lead".to_string(), vec!["A", "B"]);
    db.cast_vote(&id, "v1".to_string(), 0).unwrap();
    // the election is in FirstVote; a caller that still sees SecondVote loses
    assert_eq!(
        db.request_transition(&id, "SecondVote", "next"),
        Err(ElectionError::PhaseConflict)
    );
    let snap = db.get_snapshot(&id).unwrap();
    assert_eq!(snap.phase, ElectionPhase::FirstVote);
    assert_eq!(snap.vote_count, 1);
}

#[test]
fn malformed_transition_requests_are_rejected_before_any_mutation() {
    let mut db = ElectionDb::new();
    let id = db.create_election("Lead".to_string(), vec!["A", "B"]);
    assert_eq!(
        db.request_transition(&id, "FifthVote", "next"),
        Err(ElectionError::UnknownPhase)
    );
    assert_eq!(
        db.request_transition(&id, "FirstVote", "sideways"),
        Err(ElectionError::InvalidDirection)
    );
    assert_eq!(db.get_snapshot(&id).unwrap().phase, ElectionPhase::FirstVote);
}

#[test]
fn matching_transitions_step_and_reset() {
    let mut db = ElectionDb::new();
    let id = db.create_election("Lead".to_string(), vec!["A", "B"]);
    assert_eq!(db.request_transition(&id, "FirstVote", "next"), Ok(()));
    assert_eq!(db.get_snapshot(&id).unwrap().phase, ElectionPhase::FirstTally);
    assert_eq!(db.request_transition(&id, "FirstTally", "prev"), Ok(()));
    assert_eq!(db.get_snapshot(&id).unwrap().phase, ElectionPhase::FirstVote);

    db.cast_vote(&id, "v1".to_string(), 0).unwrap();
    assert_eq!(db.request_transition(&id, "FirstVote", "reset"), Ok(()));
    let snap = db.get_snapshot(&id).unwrap();
    assert_eq!(snap.phase, ElectionPhase::FirstVote);
    assert_eq!(snap.vote_count, 0);
}

#[test]
fn subscribers_observe_vote_and_phase_changes() {
    let mut db = ElectionDb::new();
    let id = db.create_election("Lead".to_string(), vec!["A", "B"]);
    let mut rx = db.subscribe(&id).unwrap();
    db.cast_vote(&id, "v1".to_string(), 0).unwrap();
    assert_eq!(rx.try_recv(), Ok(ElectionUpdate::VotesChanged));
    db.request_transition(&id, "FirstVote", "next").unwrap();
    assert_eq!(rx.try_recv(), Ok(ElectionUpdate::PhaseChanged));
    // no further events are pending
    assert!(rx.try_recv().is_err());
}

#[test]
fn elections_do_not_interfere() {
    let mut db = ElectionDb::new();
    let id1 = db.create_election("Lead".to_string(), vec!["A", "B"]);
    let id2 = db.create_election("Scribe".to_string(), vec!["C"]);
    assert_ne!(id1, id2);
    db.cast_vote(&id1, "v1".to_string(), 0).unwrap();
    db.request_transition(&id2, "FirstVote", "next").unwrap();
    let s1 = db.get_snapshot(&id1).unwrap();
    let s2 = db.get_snapshot(&id2).unwrap();
    assert_eq!(s1.phase, ElectionPhase::FirstVote);
    assert_eq!(s1.vote_count, 1);
    assert_eq!(s2.phase, ElectionPhase::FirstTally);
    assert_eq!(s2.vote_count, 0);
}

#[test]
fn a_prefilled_election_can_be_stored_under_its_id() {
    let mut db = ElectionDb::new();
    let mut first = Round::new();
    first.insert("Test Voter 1".to_string(), 13589);
    first.insert("Test Voter 2".to_string(), 29852);
    first.insert("Test Voter 3".to_string(), 13589);
    let demo = ElectionProcess::new(
        "1337".to_string(),
        ElectionPhase::FirstVote,
        "Test Role".to_string(),
        vec![
            (13589, "Test Nominee 1".to_string()),
            (29852, "Test2".to_string()),
            (96109, "Test Nominee 3".to_string()),
        ],
        first,
        Round::new(),
    );
    db.insert_election(demo);
    let snap = db.get_snapshot("1337").unwrap();
    assert_eq!(snap.elected_role, "Test Role");
    assert_eq!(snap.vote_count, 3);
    assert_eq!(
        snap.tally.results,
        vec![
            ("Test Nominee 1".to_string(), 2usize),
            ("Test2".to_string(), 1usize)
        ]
    );
}

#[test]
fn end_to_end_scenario() {
    let mut db = ElectionDb::new();
    let id = db.create_election("Lead".to_string(), vec!["B", "A", "A"]);
    let snap = db.get_snapshot(&id).unwrap();
    assert_eq!(
        snap.nominees,
        vec![(0u64, "A".to_string()), (1u64, "B".to_string())]
    );

    assert_eq!(db.cast_vote(&id, "x".to_string(), 0), Ok(()));
    assert_eq!(db.cast_vote(&id, "y".to_string(), 1), Ok(()));
    assert_eq!(db.cast_vote(&id, "z".to_string(), 0), Ok(()));
    let snap = db.get_snapshot(&id).unwrap();
    assert_eq!(snap.phase, ElectionPhase::FirstVote);
    assert_eq!(
        snap.tally.results,
        vec![("A".to_string(), 2usize), ("B".to_string(), 1usize)]
    );

    let mut rx = db.subscribe(&id).unwrap();
    assert_eq!(db.request_transition(&id, "FirstVote", "next"), Ok(()));
    assert_eq!(db.get_snapshot(&id).unwrap().phase, ElectionPhase::FirstTally);
    assert_eq!(rx.try_recv(), Ok(ElectionUpdate::PhaseChanged));
}
