use vstd::prelude::*;

use crate::errors::ElectionError;
use crate::phase::{direction_of_label, parse_direction, parse_phase, phase_of_label,
    ElectionPhase, StepDirection};
use crate::process::{nom_names, strs_view, ElectionProcess};
use crate::tally::{is_tally, AccumulatedVotes};
use crate::text::{names_ascending, names_of, str_same};

verus! {

/// A change of one election, fanned out to that election's subscribers.
#[derive(Clone, Copy, PartialEq, Eq, Structural, Debug)]
pub enum ElectionUpdate {
    VotesChanged,
    PhaseChanged,
}

#[verifier::external_type_specification]
#[verifier::external_body]
#[verifier::reject_recursive_types(T)]
pub struct ExSender<T>(tokio::sync::broadcast::Sender<T>);

#[verifier::external_type_specification]
#[verifier::external_body]
#[verifier::reject_recursive_types(T)]
pub struct ExReceiver<T>(tokio::sync::broadcast::Receiver<T>);

#[verifier::external_type_specification]
#[verifier::external_body]
#[verifier::reject_recursive_types(T)]
pub struct ExSendError<T>(tokio::sync::broadcast::error::SendError<T>);

/// Relies on tokio::sync::broadcast::channel: makes a fresh channel of the
/// given capacity; it panics only when the capacity is zero or above
/// usize::MAX / 2.
#[verifier::external_body]
fn new_update_channel(capacity: usize) -> tokio::sync::broadcast::Sender<ElectionUpdate>
    requires
        1 <= capacity <= usize::MAX / 2,
{
    tokio::sync::broadcast::channel(capacity).0
}

/// Relies on tokio::sync::broadcast::Sender::send: hands the value to every
/// receiver subscribed at that moment and returns their number, which is then
/// at least one; with no receiver it returns the value back as the error.
#[verifier::external_body]
fn send_update(s: &tokio::sync::broadcast::Sender<ElectionUpdate>, e: ElectionUpdate) -> (r:
    Result<usize, tokio::sync::broadcast::error::SendError<ElectionUpdate>>)
    ensures
        match r {
            Ok(n) => n >= 1,
            Err(_) => true,
        },
{
    s.send(e)
}

/// Relies on tokio::sync::broadcast::Sender::subscribe: a fresh receiver that
/// sees the values sent after this call.
#[verifier::external_body]
fn subscribe_channel(s: &tokio::sync::broadcast::Sender<ElectionUpdate>) -> tokio::sync::broadcast::Receiver<
    ElectionUpdate,
> {
    s.subscribe()
}

/// Relies on rand's Alphanumeric sampler: builds a string of exactly `len`
/// random ASCII alphanumeric characters.
#[verifier::external_body]
fn random_token(len: usize) -> (r: String)
    ensures
        r@.len() == len,
{
    rand::distributions::DistString::sample_string(
        &rand::distributions::Alphanumeric,
        &mut rand::thread_rng(),
        len,
    )
}

/// Relies on str::to_ascii_lowercase: ASCII letters are mapped to lower case
/// one for one and every other character is kept, so the number of characters
/// is unchanged.
#[verifier::external_body]
fn ascii_lowercase(s: &str) -> (r: String)
    ensures
        r@.len() == s@.len(),
{
    s.to_ascii_lowercase()
}

/// A consistent read of one election, taken in one critical section: the
/// phase, the role, the registry, and the current round's voters, votes and
/// accumulated tally.
pub struct ElectionSnapshot {
    pub phase: ElectionPhase,
    pub elected_role: String,
    pub nominees: Vec<(u64, String)>,
    pub voters: Vec<String>,
    pub votes: Vec<(String, u64)>,
    pub vote_count: usize,
    pub tally: AccumulatedVotes,
}

/// One election's two co-located resources: its process and the broadcast
/// sender that fans its change events out to subscribers. They are created
/// together and live together under one id.
pub struct ElectionEntry {
    pub process: ElectionProcess,
    pub sender: tokio::sync::broadcast::Sender<ElectionUpdate>,
}

/// Ids of the entry list are pairwise distinct.
pub open spec fn entry_ids_distinct(s: Seq<ElectionEntry>) -> bool {
    forall|i: int, j: int|
        0 <= i < j < s.len() ==> (#[trigger] s[i]).process.spec_id() != (
        #[trigger] s[j]).process.spec_id()
}

/// The keyed store of all live elections. Each entry is reached through its
/// process's id; ids are unique.
pub struct ElectionDb {
    entries: Vec<ElectionEntry>,
}

impl ElectionDb {
    pub closed spec fn entries_seq(&self) -> Seq<ElectionEntry> {
        self.entries@
    }

    pub open spec fn has_election(&self, id: Seq<char>) -> bool {
        exists|i: int|
            0 <= i < self.entries_seq().len() && (#[trigger] self.entries_seq()[i]).process.spec_id()
                == id
    }

    pub open spec fn index_of(&self, id: Seq<char>) -> int {
        choose|i: int|
            0 <= i < self.entries_seq().len() && (#[trigger] self.entries_seq()[i]).process.spec_id()
                == id
    }

    /// The stored process of election `id`, which must be present.
    pub open spec fn election_at(&self, id: Seq<char>) -> ElectionProcess {
        self.entries_seq()[self.index_of(id)].process
    }

    pub closed spec fn wf(&self) -> bool {
        &&& entry_ids_distinct(self.entries@)
        &&& forall|i: int| 0 <= i < self.entries@.len() ==> (#[trigger] self.entries@[i]).process.wf()
    }

    /// With distinct ids, an entry's index is the index its id resolves to.
    proof fn lemma_index_of(&self, i: int)
        requires
            self.wf(),
            0 <= i < self.entries_seq().len(),
        ensures
            self.has_election(self.entries_seq()[i].process.spec_id()),
            self.index_of(self.entries_seq()[i].process.spec_id()) == i,
            self.election_at(self.entries_seq()[i].process.spec_id())
                == self.entries_seq()[i].process,
    {
        let id = self.entries_seq()[i].process.spec_id();
        assert(self.has_election(id));
        let j = self.index_of(id);
        if i != j {
            assert(self.entries_seq()[i].process.spec_id()
                != self.entries_seq()[j].process.spec_id());
        }
    }

    pub fn new() -> (r: ElectionDb)
        ensures
            r.wf(),
            forall|x: Seq<char>| !r.has_election(x),
    {
        ElectionDb { entries: Vec::new() }
    }

    /// The index that holds election `id`, if any.
    fn find_index(&self, id: &str) -> (r: Option<usize>)
        requires
            self.wf(),
        ensures
            match r {
                Some(i) => self.has_election(id@) && i == self.index_of(id@) && i
                    < self.entries_seq().len(),
                None => !self.has_election(id@),
            },
    {
        let n = self.entries.len();
        let mut i: usize = 0;
        while i < n
            invariant
                i <= n,
                n == self.entries@.len(),
                self.wf(),
                forall|j: int| 0 <= j < i ==> (#[trigger] self.entries@[j]).process.spec_id() != id@,
            decreases n - i,
        {
            if str_same(self.entries[i].process.id(), id) {
                proof {
                    self.lemma_index_of(i as int);
                }
                return Some(i);
            }
            i += 1;
        }
        None
    }

    /// Stores `process` under its own id, next to a fresh notification
    /// channel; an election already stored under that id is replaced.
    pub fn insert_election(&mut self, process: ElectionProcess)
        requires
            old(self).wf(),
            process.wf(),
        ensures
            final (self).wf(),
            final (self).has_election(process.spec_id()),
            final (self).election_at(process.spec_id()) == process,
            forall|x: Seq<char>|
                x != process.spec_id() ==> (final (self).has_election(x) <==> old(self).has_election(
                    x,
                )),
            forall|x: Seq<char>|
                x != process.spec_id() && old(self).has_election(x) ==> final (self).election_at(x)
                    == old(self).election_at(x),
    {
        let sender = new_update_channel(16);
        let entry = ElectionEntry { process, sender };
        let found = self.find_index(entry.process.id());
        let ghost pid = entry.process.spec_id();
        match found {
            Some(i) => {
                self.entries[i] = entry;
                proof {
                    self.membership_after_update(*old(self), i as int, pid);
                }
            },
            None => {
                self.entries.push(entry);
                proof {
                    self.membership_after_push(*old(self), pid);
                }
            },
        }
    }

    /// After overwriting index `i` (which held id `pid`) with an entry of the
    /// same id, lookups behave as an insert.
    proof fn membership_after_update(&self, prev: ElectionDb, i: int, pid: Seq<char>)
        requires
            prev.wf(),
            0 <= i < prev.entries_seq().len(),
            prev.entries_seq()[i].process.spec_id() == pid,
            i == prev.index_of(pid),
            self.entries_seq() == prev.entries_seq().update(
                i,
                self.entries_seq()[i],
            ),
            self.entries_seq()[i].process.spec_id() == pid,
            self.entries_seq()[i].process.wf(),
        ensures
            self.wf(),
            self.has_election(pid),
            self.election_at(pid) == self.entries_seq()[i].process,
            forall|x: Seq<char>| x != pid ==> (self.has_election(x) <==> prev.has_election(x)),
            forall|x: Seq<char>|
                x != pid && prev.has_election(x) ==> self.election_at(x) == prev.election_at(x),
    {
        assert(entry_ids_distinct(self.entries_seq()));
        assert(self.wf());
        self.lemma_index_of(i);
        assert forall|x: Seq<char>| x != pid implies (self.has_election(x)
            <==> prev.has_election(x)) by {
            if self.has_election(x) {
                let k = choose|k: int|
                    0 <= k < self.entries_seq().len() && (
                    #[trigger] self.entries_seq()[k]).process.spec_id() == x;
                assert(k != i);
                assert(prev.entries_seq()[k].process.spec_id() == x);
            }
            if prev.has_election(x) {
                let k = choose|k: int|
                    0 <= k < prev.entries_seq().len() && (
                    #[trigger] prev.entries_seq()[k]).process.spec_id() == x;
                assert(k != i);
                assert(self.entries_seq()[k].process.spec_id() == x);
            }
        }
        assert forall|x: Seq<char>| x != pid && prev.has_election(x) implies self.election_at(x)
            == prev.election_at(x) by {
            let k = choose|k: int|
                0 <= k < prev.entries_seq().len() && (
                #[trigger] prev.entries_seq()[k]).process.spec_id() == x;
            assert(k != i);
            assert(self.entries_seq()[k].process.spec_id() == x);
            self.lemma_index_of(k);
            prev.lemma_index_of(k);
        }
    }

    /// Creates a fresh election: a five-character random id, the process
    /// built from the submitted nominee names (blank names dropped, the rest
    /// sorted, deduplicated and numbered 0, 1, ... in that order), and its
    /// notification channel, all stored under the new id, which is returned.
    pub fn create_election(&mut self, elected_role: String, raw_nominees: Vec<&str>) -> (r: String)
        requires
            old(self).wf(),
        ensures
            final (self).wf(),
            r@.len() == 5,
            final (self).has_election(r@),
            forall|x: Seq<char>|
                x != r@ ==> (final (self).has_election(x) <==> old(self).has_election(x)),
            forall|x: Seq<char>|
                x != r@ && old(self).has_election(x) ==> final (self).election_at(x) == old(
                    self,
                ).election_at(x),
            ({
                let p = final (self).election_at(r@);
                &&& p.wf()
                &&& p.spec_id() == r@
                &&& p.spec_phase() == ElectionPhase::FirstVote
                &&& p.spec_role() == elected_role@
                &&& p.round1() == Map::<Seq<char>, u64>::empty()
                &&& p.round2() == Map::<Seq<char>, u64>::empty()
                &&& forall|i: int|
                    0 <= i < p.noms_seq().len() ==> (#[trigger] p.noms_seq()[i]).0 == i as u64
                &&& names_ascending(nom_names(p.noms_seq()))
                &&& forall|x: Seq<char>| #[trigger]
                    nom_names(p.noms_seq()).contains(x) <==> (strs_view(raw_nominees@).contains(x)
                        && x.len() > 0)
            }),
    {
        let token = random_token(5);
        let id = ascii_lowercase(token.as_str());
        let process = ElectionProcess::new_and_cleaned(id.clone(), elected_role, raw_nominees);
        self.insert_election(process);
        id
    }

    /// Applies one vote to election `id`: `NotFound` if the id is unknown,
    /// `UnknownNominee` if the chosen nominee is outside that election's
    /// registry (checked here, at the boundary, before anything changes).
    /// Otherwise the vote is handed to the process — which applies it in an
    /// open vote phase and silently drops it in any other — and a vote-change
    /// notification goes out to the election's subscribers.
    pub fn cast_vote(&mut self, id: &str, voter_name: String, vote: u64) -> (r: Result<
        (),
        ElectionError,
    >)
        requires
            old(self).wf(),
        ensures
            final (self).wf(),
            r is Err ==> *final (self) == *old(self),
            r is Ok <==> old(self).has_election(id@) && old(self).election_at(
                id@,
            ).noms().dom().contains(vote),
            (r == Err::<(), ElectionError>(ElectionError::NotFound)) <==> !old(self).has_election(
                id@,
            ),
            old(self).has_election(id@) && !old(self).election_at(id@).noms().dom().contains(vote)
                ==> r == Err::<(), ElectionError>(ElectionError::UnknownNominee),
            r is Ok ==> ElectionProcess::vote_applied(
                old(self).election_at(id@),
                final (self).election_at(id@),
                voter_name@,
                vote,
            ),
            r is Ok ==> (forall|x: Seq<char>|
                final (self).has_election(x) <==> old(self).has_election(x)),
            r is Ok ==> (forall|x: Seq<char>|
                x != id@ && old(self).has_election(x) ==> final (self).election_at(x) == old(
                    self,
                ).election_at(x)),
    {
        let i = match self.find_index(id) {
            Some(i) => i,
            None => {
                return Err(ElectionError::NotFound);
            },
        };
        if !self.entries[i].process.has_nominee(vote) {
            return Err(ElectionError::UnknownNominee);
        }
        let ghost prev = *self;
        let e = &mut self.entries[i];
        e.process.add_vote(voter_name, vote);
        proof {
            self.membership_after_update(prev, i as int, id@);
        }
        let _sent = send_update(&self.entries[i].sender, ElectionUpdate::VotesChanged);
        Ok(())
    }

    /// The guarded transition: the caller names the phase it believes the
    /// election is in and a direction. An unknown id is `NotFound`; an
    /// unreadable phase label is `UnknownPhase`; a label that reads as a
    /// phase other than the election's actual one is `PhaseConflict` (a stale
    /// caller — nothing is mutated); an unknown direction is
    /// `InvalidDirection`. Only when everything matches is the step or reset
    /// applied, and a phase-change notification then goes out.
    pub fn request_transition(&mut self, id: &str, expected_phase: &str, direction: &str) -> (r:
        Result<(), ElectionError>)
        requires
            old(self).wf(),
        ensures
            final (self).wf(),
            r is Err ==> *final (self) == *old(self),
            (r == Err::<(), ElectionError>(ElectionError::NotFound)) <==> !old(self).has_election(
                id@,
            ),
            old(self).has_election(id@) ==> (match phase_of_label(expected_phase@) {
                None => r == Err::<(), ElectionError>(ElectionError::UnknownPhase),
                Some(exp) => if exp != old(self).election_at(id@).spec_phase() {
                    r == Err::<(), ElectionError>(ElectionError::PhaseConflict)
                } else {
                    match direction_of_label(direction@) {
                        None => r == Err::<(), ElectionError>(ElectionError::InvalidDirection),
                        Some(dir) => r == Ok::<(), ElectionError>(())
                            && ElectionProcess::transition_applied(
                            old(self).election_at(id@),
                            final (self).election_at(id@),
                            dir,
                        ),
                    }
                },
            }),
            r is Ok ==> (forall|x: Seq<char>|
                final (self).has_election(x) <==> old(self).has_election(x)),
            r is Ok ==> (forall|x: Seq<char>|
                x != id@ && old(self).has_election(x) ==> final (self).election_at(x) == old(
                    self,
                ).election_at(x)),
    {
        let i = match self.find_index(id) {
            Some(i) => i,
            None => {
                return Err(ElectionError::NotFound);
            },
        };
        let expected = match parse_phase(expected_phase) {
            Ok(p) => p,
            Err(e) => {
                return Err(e);
            },
        };
        let actual = self.entries[i].process.phase();
        if actual != expected {
            return Err(ElectionError::PhaseConflict);
        }
        let dir = match parse_direction(direction) {
            Ok(d) => d,
            Err(e) => {
                return Err(e);
            },
        };
        let ghost prev = *self;
        let e = &mut self.entries[i];
        match dir {
            StepDirection::Next => e.process.step_next(),
            StepDirection::Prev => e.process.step_prev(),
            StepDirection::Reset => e.process.reset_votes(),
        }
        proof {
            self.membership_after_update(prev, i as int, id@);
        }
        let _sent = send_update(&self.entries[i].sender, ElectionUpdate::PhaseChanged);
        Ok(())
    }

    /// A consistent view of election `id`, or `NotFound`: its phase, role and
    /// registry, the current round's voters and votes in ascending voter
    /// order, the round's size, and the accumulated tally.
    pub fn get_snapshot(&self, id: &str) -> (r: Result<ElectionSnapshot, ElectionError>)
        requires
            self.wf(),
        ensures
            r is Ok <==> self.has_election(id@),
            r matches Err(e) ==> e == ElectionError::NotFound,
            r matches Ok(s) ==> ({
                let p = self.election_at(id@);
                &&& s.phase == p.spec_phase()
                &&& s.elected_role@ == p.spec_role()
                &&& s.nominees@.map_values(|q: (u64, String)| (q.0, q.1@)) == p.noms_seq()
                &&& names_ascending(names_of(s.voters@))
                &&& (forall|x: Seq<char>| #[trigger]
                    names_of(s.voters@).contains(x) <==> p.current_round_map().dom().contains(x))
                &&& s.votes@.len() == s.voters@.len()
                &&& (forall|j: int|
                    0 <= j < s.votes@.len() ==> (#[trigger] s.votes@[j]).0@ == s.voters@[j]@
                        && p.current_round_map().dom().contains(s.votes@[j].0@)
                        && s.votes@[j].1 == p.current_round_map()[s.votes@[j].0@])
                &&& s.vote_count == p.spec_vote_count()
                &&& is_tally(s.tally@, p.current_round_map(), p.noms())
            }),
    {
        let i = match self.find_index(id) {
            Some(i) => i,
            None => {
                return Err(ElectionError::NotFound);
            },
        };
        let p = &self.entries[i].process;
        let voters = p.voters();
        let round = p.current_round();
        let n = voters.len();
        let mut votes: Vec<(String, u64)> = Vec::new();
        let mut k: usize = 0;
        while k < n
            invariant
                k <= n,
                n == voters@.len(),
                round.wf(),
                round@ == p.current_round_map(),
                forall|x: Seq<char>| #[trigger]
                    names_of(voters@).contains(x) <==> round@.dom().contains(x),
                votes@.len() == k,
                forall|j: int|
                    0 <= j < k ==> (#[trigger] votes@[j]).0@ == voters@[j]@ && round@.dom().contains(
                        votes@[j].0@,
                    ) && votes@[j].1 == round@[votes@[j].0@],
            decreases n - k,
        {
            proof {
                assert(names_of(voters@)[k as int] == voters@[k as int]@);
                assert(names_of(voters@).contains(voters@[k as int]@));
            }
            let choice = round.get(voters[k].as_str());
            match choice {
                Some(vote) => {
                    let voter = voters[k].clone();
                    votes.push((voter, vote));
                },
                None => {
                    proof {
                        assert(false);
                    }
                },
            }
            k += 1;
        }
        Ok(
            ElectionSnapshot {
                phase: p.phase(),
                elected_role: String::from_str(p.elected_role()),
                nominees: p.get_sorted_nominees(),
                voters,
                votes,
                vote_count: p.vote_count(),
                tally: p.accumulated_votes(),
            },
        )
    }

    /// A fresh receive handle on election `id`'s notification channel, or
    /// `NotFound`. The receiver sees the events published after this call.
    pub fn subscribe(&self, id: &str) -> (r: Result<
        tokio::sync::broadcast::Receiver<ElectionUpdate>,
        ElectionError,
    >)
        requires
            self.wf(),
        ensures
            r is Ok <==> self.has_election(id@),
            r matches Err(e) ==> e == ElectionError::NotFound,
    {
        match self.find_index(id) {
            Some(i) => Ok(subscribe_channel(&self.entries[i].sender)),
            None => Err(ElectionError::NotFound),
        }
    }

    /// After appending an entry with a fresh or replacing id at the end,
    /// lookups behave as an insert.
    proof fn membership_after_push(&self, prev: ElectionDb, pid: Seq<char>)
        requires
            prev.wf(),
            !prev.has_election(pid),
            self.entries_seq() == prev.entries_seq().push(
                self.entries_seq().last(),
            ),
            self.entries_seq().last().process.spec_id() == pid,
            self.entries_seq().last().process.wf(),
        ensures
            self.wf(),
            self.has_election(pid),
            self.election_at(pid) == self.entries_seq().last().process,
            forall|x: Seq<char>| x != pid ==> (self.has_election(x) <==> prev.has_election(x)),
            forall|x: Seq<char>|
                x != pid && prev.has_election(x) ==> self.election_at(x) == prev.election_at(x),
    {
        let n = prev.entries_seq().len();
        assert forall|i: int, j: int| 0 <= i < j < self.entries_seq().len() implies (
        #[trigger] self.entries_seq()[i]).process.spec_id() != (
        #[trigger] self.entries_seq()[j]).process.spec_id() by {
            if j == n {
                assert(self.entries_seq()[i].process.spec_id()
                    == prev.entries_seq()[i].process.spec_id());
                if self.entries_seq()[i].process.spec_id() == pid {
                    assert(prev.has_election(pid));
                }
            } else {
                assert(self.entries_seq()[i] == prev.entries_seq()[i]);
                assert(self.entries_seq()[j] == prev.entries_seq()[j]);
            }
        }
        assert forall|i: int|
            0 <= i < self.entries_seq().len() implies (
        #[trigger] self.entries_seq()[i]).process.wf() by {
            if i < n {
                assert(self.entries_seq()[i] == prev.entries_seq()[i]);
            }
        }
        assert(self.wf());
        assert(self.entries_seq()[n as int].process.spec_id() == pid);
        self.lemma_index_of(n as int);
        assert forall|x: Seq<char>| x != pid implies (self.has_election(x)
            <==> prev.has_election(x)) by {
            if self.has_election(x) {
                let k = choose|k: int|
                    0 <= k < self.entries_seq().len() && (
                    #[trigger] self.entries_seq()[k]).process.spec_id() == x;
                assert(k != n);
                assert(prev.entries_seq()[k].process.spec_id() == x);
            }
            if prev.has_election(x) {
                let k = choose|k: int|
                    0 <= k < prev.entries_seq().len() && (
                    #[trigger] prev.entries_seq()[k]).process.spec_id() == x;
                assert(self.entries_seq()[k].process.spec_id() == x);
            }
        }
        assert forall|x: Seq<char>| x != pid && prev.has_election(x) implies self.election_at(x)
            == prev.election_at(x) by {
            let k = choose|k: int|
                0 <= k < prev.entries_seq().len() && (
                #[trigger] prev.entries_seq()[k]).process.spec_id() == x;
            assert(self.entries_seq()[k].process.spec_id() == x);
            self.lemma_index_of(k);
            prev.lemma_index_of(k);
        }
    }
}

} // verus!
