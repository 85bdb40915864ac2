use iep::errors::ElectionError;
use iep::phase::ElectionPhase;
use iep::process::ElectionProcess;
use iep::round::Round;
use iep::tally::AccumulatedVotes;

fn fresh(nominees: Vec<&str>) -> ElectionProcess {
    ElectionProcess::new_and_cleaned("e1".to_string(), "Scrum Master".to_string(), nominees)
}

#[test]
fn create_assigns_dense_ids_in_sorted_deduplicated_order() {
    let p = fresh(vec!["B", "A", "A"]);
    assert_eq!(
        p.get_sorted_nominees(),
        vec![(0u64, "A".to_string()), (1u64, "B".to_string())]
    );

    let q = fresh(vec!["carol", "alice", "", "bob", "alice", ""]);
    assert_eq!(
        q.get_sorted_nominees(),
        vec![
            (0u64, "alice".to_string()),
            (1u64, "bob".to_string()),
            (2u64, "carol".to_string())
        ]
    );
}

#[test]
fn create_is_deterministic_for_the_same_input() {
    let a = fresh(vec!["x", "m", "", "m", "z"]);
    let b = fresh(vec!["x", "m", "", "m", "z"]);
    assert_eq!(a.get_sorted_nominees(), b.get_sorted_nominees());
}

#[test]
fn create_starts_in_first_vote_with_empty_rounds() {
    let p = fresh(vec!["A", "B"]);
    assert_eq!(p.phase(), ElectionPhase::FirstVote);
    assert_eq!(p.vote_count(), 0);
    assert!(p.voters().is_empty());
    assert!(p.accumulated_votes().results.is_empty());
}

#[test]
fn votes_only_land_while_a_vote_phase_is_open() {
    let mut p = fresh(vec!["A", "B"]);
    p.add_vote("v1".to_string(), 0);
    assert_eq!(p.vote_count(), 1);

    // FirstTally: a vote is silently dropped and nothing changes
    p.step_next();
    p.add_vote("v2".to_string(), 1);
    assert_eq!(p.vote_count(), 1);
    assert_eq!(p.voters(), vec!["v1".to_string()]);

    // SecondTally and SafetyRound drop votes too
    p.step_next();
    p.step_next();
    p.add_vote("v3".to_string(), 1);
    assert_eq!(p.vote_count(), 0);
    p.step_next();
    p.add_vote("v4".to_string(), 1);
    assert!(p.accumulated_votes().results.is_empty());
}

#[test]
fn a_voter_can_change_their_vote_while_the_round_is_open() {
    let mut p = fresh(vec!["A", "B"]);
    p.add_vote("v1".to_string(), 0);
    p.add_vote("v1".to_string(), 1);
    assert_eq!(p.vote_count(), 1);
    let t = p.accumulated_votes();
    assert_eq!(t.results, vec![("B".to_string(), 1usize)]);
}

#[test]
fn safety_round_reads_the_second_round() {
    let mut p = fresh(vec!["A", "B"]);
    // first round
    p.add_vote("v1".to_string(), 0);
    // move to the second vote phase and vote there
    p.step_next();
    p.step_next();
    p.add_vote("v1".to_string(), 1);
    p.add_vote("v2".to_string(), 1);
    // SecondTally, then SafetyRound: both read round 2
    p.step_next();
    p.step_next();
    assert_eq!(p.phase(), ElectionPhase::SafetyRound);
    let t = p.accumulated_votes();
    assert_eq!(t.results, vec![("B".to_string(), 2usize)]);
}

#[test]
fn reset_clears_only_the_open_round() {
    let mut p = fresh(vec!["A", "B"]);
    p.add_vote("v1".to_string(), 0);
    p.reset_votes();
    assert_eq!(p.vote_count(), 0);

    // a reset outside a vote phase changes nothing
    p.add_vote("v1".to_string(), 0);
    p.step_next();
    p.reset_votes();
    assert_eq!(p.vote_count(), 1);

    // a reset in the second vote phase clears round 2 and keeps round 1
    p.step_next();
    p.add_vote("v9".to_string(), 1);
    p.reset_votes();
    assert_eq!(p.vote_count(), 0);
    p.step_prev();
    assert_eq!(p.vote_count(), 1);
}

#[test]
fn voters_come_out_in_ascending_name_order() {
    let mut p = fresh(vec!["A", "B"]);
    p.add_vote("mallory".to_string(), 0);
    p.add_vote("alice".to_string(), 1);
    p.add_vote("bob".to_string(), 0);
    assert_eq!(
        p.voters(),
        vec!["alice".to_string(), "bob".to_string(), "mallory".to_string()]
    );
}

#[test]
fn nominee_labels_resolve_and_unknown_ids_are_faults() {
    let p = fresh(vec!["A", "B"]);
    assert_eq!(p.get_vote(0), "A");
    assert_eq!(p.get_vote(1), "B");
    assert_eq!(p.vote_label(1), Ok("B".to_string()));
    assert_eq!(p.vote_label(7), Err(ElectionError::UnknownNominee));
}

#[test]
fn equal_counts_are_listed_in_descending_name_order() {
    // registry {0: "Amy", 1: "Bo"}; round {"v1": 0, "v2": 1}
    let mut p = fresh(vec!["Amy", "Bo"]);
    assert_eq!(
        p.get_sorted_nominees(),
        vec![(0u64, "Amy".to_string()), (1u64, "Bo".to_string())]
    );
    p.add_vote("v1".to_string(), 0);
    p.add_vote("v2".to_string(), 1);
    let t = p.accumulated_votes();
    assert_eq!(
        t.results,
        vec![("Bo".to_string(), 1usize), ("Amy".to_string(), 1usize)]
    );
}

#[test]
fn higher_counts_come_first() {
    let mut p = fresh(vec!["A", "B", "C"]);
    p.add_vote("v1".to_string(), 2);
    p.add_vote("v2".to_string(), 2);
    p.add_vote("v3".to_string(), 0);
    p.add_vote("v4".to_string(), 2);
    p.add_vote("v5".to_string(), 0);
    let t = p.accumulated_votes();
    assert_eq!(
        t.results,
        vec![("C".to_string(), 3usize), ("A".to_string(), 2usize)]
    );
}

#[test]
fn accumulation_ignores_the_order_votes_arrived_in() {
    let mut a = fresh(vec!["A", "B", "C"]);
    a.add_vote("v1".to_string(), 0);
    a.add_vote("v2".to_string(), 1);
    a.add_vote("v3".to_string(), 0);

    let mut b = fresh(vec!["A", "B", "C"]);
    b.add_vote("v3".to_string(), 0);
    b.add_vote("v1".to_string(), 0);
    b.add_vote("v2".to_string(), 1);

    assert_eq!(a.accumulated_votes().results, b.accumulated_votes().results);

    // re-running on an unchanged round yields the identical ordered result
    assert_eq!(a.accumulated_votes().results, a.accumulated_votes().results);
}

#[test]
fn max_count_of_an_empty_accumulation_is_one() {
    let p = fresh(vec!["A", "B"]);
    let t = p.accumulated_votes();
    assert!(t.results.is_empty());
    assert_eq!(t.max_votes(), 1);

    let empty = AccumulatedVotes { results: vec![] };
    assert_eq!(empty.max_votes(), 1);
}

#[test]
fn all_co_leaders_are_reported_in_result_order() {
    let mut p = fresh(vec!["Amy", "Bo", "Cy"]);
    p.add_vote("v1".to_string(), 0);
    p.add_vote("v2".to_string(), 1);
    p.add_vote("v3".to_string(), 2);
    p.add_vote("v4".to_string(), 2);
    p.add_vote("v5".to_string(), 0);
    let t = p.accumulated_votes();
    assert_eq!(t.max_votes(), 2);
    assert_eq!(
        t.all_with_max_votes(),
        vec!["Cy".to_string(), "Amy".to_string()]
    );
}

#[test]
fn new_accepts_a_prefilled_election() {
    let mut first = Round::new();
    first.insert("Test Voter 1".to_string(), 13589);
    first.insert("Test Voter 2".to_string(), 29852);
    first.insert("Test Voter 3".to_string(), 13589);
    let p = ElectionProcess::new(
        "1337".to_string(),
        ElectionPhase::FirstVote,
        "Test Role".to_string(),
        vec![
            (13589, "Test Nominee 1".to_string()),
            (29852, "Test2".to_string()),
            (96109, "Test Nominee 3".to_string()),
        ],
        first,
        Round::new(),
    );
    assert_eq!(p.id(), "1337");
    assert_eq!(p.elected_role(), "Test Role");
    assert_eq!(p.vote_count(), 3);
    let t = p.accumulated_votes();
    assert_eq!(
        t.results,
        vec![
            ("Test Nominee 1".to_string(), 2usize),
            ("Test2".to_string(), 1usize)
        ]
    );
}
