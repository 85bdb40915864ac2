use vstd::prelude::*;

use crate::errors::ElectionError;
use crate::phase::{ElectionPhase, StepDirection};
use crate::round::{votes_for, Round};
use crate::tally::{
    counts_some_nominee, entries_view, insert_tally_entry, is_count_entry, is_tally, tally_sorted,
    AccumulatedVotes,
};
use crate::text::{
    insert_name_sorted, lemma_str_lt_irreflexive, names_ascending, names_of,
};

verus! {

/// Nominee ids are strictly ascending (so also pairwise distinct).
pub open spec fn nom_ids_ascending(s: Seq<(u64, String)>) -> bool {
    forall|i: int, j: int| 0 <= i < j < s.len() ==> s[i].0 < s[j].0
}

/// Nominee display names are pairwise distinct.
pub open spec fn nom_names_distinct(s: Seq<(u64, String)>) -> bool {
    forall|i: int, j: int| 0 <= i < j < s.len() ==> s[i].1@ != s[j].1@
}

/// Whether some nominee entry carries id `id`.
pub open spec fn has_nom_id(s: Seq<(u64, String)>, id: u64) -> bool {
    exists|i: int| 0 <= i < s.len() && s[i].0 == id
}

/// The id-to-name map that a nominee entry list stands for.
pub open spec fn noms_map_of(s: Seq<(u64, String)>) -> Map<u64, Seq<char>>
    decreases s.len(),
{
    if s.len() == 0 {
        Map::empty()
    } else {
        noms_map_of(s.drop_last()).insert(s.last().0, s.last().1@)
    }
}

pub proof fn lemma_noms_dom(s: Seq<(u64, String)>)
    ensures
        forall|id: u64| #[trigger] noms_map_of(s).dom().contains(id) <==> has_nom_id(s, id),
        noms_map_of(s).dom().finite(),
    decreases s.len(),
{
    if s.len() > 0 {
        let pre = s.drop_last();
        lemma_noms_dom(pre);
        assert forall|id: u64| #[trigger]
            noms_map_of(s).dom().contains(id) <==> has_nom_id(s, id) by {
            if noms_map_of(s).dom().contains(id) {
                if id == s.last().0 {
                    assert(s[s.len() - 1].0 == id);
                } else {
                    let i = choose|i: int| 0 <= i < pre.len() && pre[i].0 == id;
                    assert(s[i].0 == id);
                }
            }
            if has_nom_id(s, id) {
                let i = choose|i: int| 0 <= i < s.len() && s[i].0 == id;
                if i < s.len() - 1 {
                    assert(pre[i].0 == id);
                    assert(has_nom_id(pre, id));
                }
            }
        }
    }
}

pub proof fn lemma_noms_val(s: Seq<(u64, String)>, i: int)
    requires
        nom_ids_ascending(s),
        0 <= i < s.len(),
    ensures
        noms_map_of(s).dom().contains(s[i].0),
        noms_map_of(s)[s[i].0] == s[i].1@,
    decreases s.len(),
{
    if i == s.len() - 1 {
    } else {
        lemma_noms_val(s.drop_last(), i);
        assert(s.drop_last()[i] == s[i]);
        assert(s[i].0 != s.last().0);
    }
}

/// The names of a nominee view sequence, in entry order.
pub open spec fn nom_names(s: Seq<(u64, Seq<char>)>) -> Seq<Seq<char>> {
    s.map_values(|p: (u64, Seq<char>)| p.1)
}

/// The characters of each string in a borrowed-string sequence.
pub open spec fn strs_view(s: Seq<&str>) -> Seq<Seq<char>> {
    s.map_values(|x: &str| x@)
}

/// The tally entry that nominee list `s`'s entry `j` contributes under round
/// `m`: the nominee's name and vote count.
spec fn nominee_entry(s: Seq<(u64, String)>, m: Map<Seq<char>, u64>, j: int) -> (
    Seq<char>,
    int,
) {
    (s[j].1@, votes_for(m, s[j].0) as int)
}

/// Whether nominee list `s`'s entry `j` received any votes in round `m`.
spec fn nominee_counted(s: Seq<(u64, String)>, m: Map<Seq<char>, u64>, j: int) -> bool {
    votes_for(m, s[j].0) > 0
}

/// Every vote of round `m` names an id of the registry.
pub open spec fn round_refs_noms(m: Map<Seq<char>, u64>, noms: Map<u64, Seq<char>>) -> bool {
    forall|v: Seq<char>| #[trigger] m.dom().contains(v) ==> noms.dom().contains(m[v])
}

/// One election: an identity, the elected role's name, the current phase, the
/// immutable nominee registry, and the two voting rounds.
pub struct ElectionProcess {
    id: String,
    phase: ElectionPhase,
    elected_role: String,
    nominees: Vec<(u64, String)>,
    first_round: Round,
    second_round: Round,
}

impl ElectionProcess {
    pub closed spec fn spec_id(&self) -> Seq<char> {
        self.id@
    }

    pub closed spec fn spec_phase(&self) -> ElectionPhase {
        self.phase
    }

    pub closed spec fn spec_role(&self) -> Seq<char> {
        self.elected_role@
    }

    /// The nominee registry as an id-ordered sequence of (id, name).
    pub closed spec fn noms_seq(&self) -> Seq<(u64, Seq<char>)> {
        self.nominees@.map_values(|p: (u64, String)| (p.0, p.1@))
    }

    /// The nominee registry as a map from id to name.
    pub closed spec fn noms(&self) -> Map<u64, Seq<char>> {
        noms_map_of(self.nominees@)
    }

    pub closed spec fn round1(&self) -> Map<Seq<char>, u64> {
        self.first_round@
    }

    pub closed spec fn round2(&self) -> Map<Seq<char>, u64> {
        self.second_round@
    }

    pub closed spec fn wf(&self) -> bool {
        &&& nom_ids_ascending(self.nominees@)
        &&& nom_names_distinct(self.nominees@)
        &&& self.first_round.wf()
        &&& self.second_round.wf()
        &&& round_refs_noms(self.round1(), self.noms())
        &&& round_refs_noms(self.round2(), self.noms())
    }

    /// The round that the current phase reads and (in a vote phase) writes:
    /// the first two phases work on round 1, all later ones on round 2 — in
    /// particular, the safety round reads round 2 rather than a fresh round.
    pub open spec fn current_round_map(&self) -> Map<Seq<char>, u64> {
        if self.spec_phase() == ElectionPhase::FirstVote || self.spec_phase()
            == ElectionPhase::FirstTally {
            self.round1()
        } else {
            self.round2()
        }
    }

    /// All fields other than the phase agree between `a` and `b`.
    pub open spec fn same_except_phase(a: &ElectionProcess, b: &ElectionProcess) -> bool {
        &&& a.spec_id() == b.spec_id()
        &&& a.spec_role() == b.spec_role()
        &&& a.noms_seq() == b.noms_seq()
        &&& a.noms() == b.noms()
        &&& a.round1() == b.round1()
        &&& a.round2() == b.round2()
    }

    /// `p1` is `p0` after one vote by `voter` for `vote`: the vote lands in
    /// the round of the open vote phase, and in any other phase nothing
    /// changes.
    pub open spec fn vote_applied(
        p0: ElectionProcess,
        p1: ElectionProcess,
        voter: Seq<char>,
        vote: u64,
    ) -> bool {
        &&& p1.spec_phase() == p0.spec_phase()
        &&& p1.spec_id() == p0.spec_id()
        &&& p1.spec_role() == p0.spec_role()
        &&& p1.noms_seq() == p0.noms_seq()
        &&& p1.noms() == p0.noms()
        &&& if p0.spec_phase() == ElectionPhase::FirstVote {
            p1.round1() == p0.round1().insert(voter, vote) && p1.round2() == p0.round2()
        } else if p0.spec_phase() == ElectionPhase::SecondVote {
            p1.round2() == p0.round2().insert(voter, vote) && p1.round1() == p0.round1()
        } else {
            p1 == p0
        }
    }

    /// `p1` is `p0` after a reset of the round that is open for voting; in
    /// any phase without an open round nothing changes.
    pub open spec fn reset_applied(p0: ElectionProcess, p1: ElectionProcess) -> bool {
        &&& p1.spec_phase() == p0.spec_phase()
        &&& p1.spec_id() == p0.spec_id()
        &&& p1.spec_role() == p0.spec_role()
        &&& p1.noms_seq() == p0.noms_seq()
        &&& p1.noms() == p0.noms()
        &&& if p0.spec_phase() == ElectionPhase::FirstVote {
            p1.round1() == Map::<Seq<char>, u64>::empty() && p1.round2() == p0.round2()
        } else if p0.spec_phase() == ElectionPhase::SecondVote {
            p1.round2() == Map::<Seq<char>, u64>::empty() && p1.round1() == p0.round1()
        } else {
            p1 == p0
        }
    }

    /// `p1` is `p0` after the requested transition: a phase step in the given
    /// direction, or a reset of the open round.
    pub open spec fn transition_applied(
        p0: ElectionProcess,
        p1: ElectionProcess,
        dir: StepDirection,
    ) -> bool {
        match dir {
            StepDirection::Next => Self::same_except_phase(&p1, &p0) && p1.spec_phase()
                == p0.spec_phase().spec_next(),
            StepDirection::Prev => Self::same_except_phase(&p1, &p0) && p1.spec_phase()
                == p0.spec_phase().spec_prev(),
            StepDirection::Reset => Self::reset_applied(p0, p1),
        }
    }

    pub fn new(
        id: String,
        phase: ElectionPhase,
        elected_role: String,
        nominees: Vec<(u64, String)>,
        first_round: Round,
        second_round: Round,
    ) -> (r: Self)
        requires
            nom_ids_ascending(nominees@),
            nom_names_distinct(nominees@),
            first_round.wf(),
            second_round.wf(),
            round_refs_noms(first_round@, noms_map_of(nominees@)),
            round_refs_noms(second_round@, noms_map_of(nominees@)),
        ensures
            r.wf(),
            r.spec_id() == id@,
            r.spec_phase() == phase,
            r.spec_role() == elected_role@,
            r.noms() == noms_map_of(nominees@),
            r.noms_seq() == nominees@.map_values(|p: (u64, String)| (p.0, p.1@)),
            r.round1() == first_round@,
            r.round2() == second_round@,
    {
        ElectionProcess { id, phase, elected_role, nominees, first_round, second_round }
    }

    /// Builds a fresh election from the submitted nominee names: blank names
    /// are discarded, the rest are sorted and deduplicated, and ids 0, 1, ...
    /// are assigned in that ascending name order. The same submitted list
    /// always yields the same registry. The process starts in the first vote
    /// phase with both rounds empty.
    pub fn new_and_cleaned(id: String, elected_role: String, nominees: Vec<&str>) -> (r: Self)
        ensures
            r.wf(),
            r.spec_id() == id@,
            r.spec_phase() == ElectionPhase::FirstVote,
            r.spec_role() == elected_role@,
            r.round1() == Map::<Seq<char>, u64>::empty(),
            r.round2() == Map::<Seq<char>, u64>::empty(),
            forall|i: int| 0 <= i < r.noms_seq().len() ==> r.noms_seq()[i].0 == i as u64,
            names_ascending(nom_names(r.noms_seq())),
            forall|x: Seq<char>| #[trigger]
                nom_names(r.noms_seq()).contains(x) <==> (strs_view(nominees@).contains(x)
                    && x.len() > 0),
    {
        let n = nominees.len();
        let mut names: Vec<String> = Vec::new();
        let mut i: usize = 0;
        while i < n
            invariant
                i <= n,
                n == nominees@.len(),
                names_ascending(names_of(names@)),
                forall|x: Seq<char>| #[trigger]
                    names_of(names@).contains(x) <==> (strs_view(nominees@.take(i as int)).contains(
                        x,
                    ) && x.len() > 0),
            decreases n - i,
        {
            let ghost prev = names_of(names@);
            let s = nominees[i];
            if !s.is_empty() {
                insert_name_sorted(&mut names, String::from_str(s));
            }
            proof {
                let done = strs_view(nominees@.take(i as int));
                let cur = strs_view(nominees@.take(i + 1));
                assert forall|x: Seq<char>| #[trigger]
                    cur.contains(x) <==> (done.contains(x) || x == nominees@[i as int]@) by {
                    if cur.contains(x) {
                        let j = choose|j: int| 0 <= j < cur.len() && cur[j] == x;
                        if j < i {
                            assert(done[j] == x);
                        }
                    }
                    if done.contains(x) {
                        let j = choose|j: int| 0 <= j < done.len() && done[j] == x;
                        assert(cur[j] == x);
                    }
                    if x == nominees@[i as int]@ {
                        assert(cur[i as int] == x);
                    }
                }
            }
            i += 1;
        }
        proof {
            assert(nominees@.take(n as int) =~= nominees@);
        }
        let m = names.len();
        let mut cleaned: Vec<(u64, String)> = Vec::new();
        let mut j: usize = 0;
        while j < m
            invariant
                j <= m,
                m == names@.len(),
                cleaned@.len() == j,
                forall|t: int|
                    0 <= t < j ==> (#[trigger] cleaned@[t]).0 == t as u64 && cleaned@[t].1@
                        == names@[t]@,
            decreases m - j,
        {
            let entry = names[j].clone();
            cleaned.push((j as u64, entry));
            j += 1;
        }
        proof {
            assert forall|t1: int, t2: int| 0 <= t1 < t2 < cleaned@.len() implies cleaned@[t1].1@
                != cleaned@[t2].1@ by {
                assert(names_of(names@)[t1] == cleaned@[t1].1@);
                assert(names_of(names@)[t2] == cleaned@[t2].1@);
                if cleaned@[t1].1@ == cleaned@[t2].1@ {
                    lemma_str_lt_irreflexive(cleaned@[t1].1@);
                }
            }
        }
        let r = ElectionProcess {
            id,
            phase: ElectionPhase::FirstVote,
            elected_role,
            nominees: cleaned,
            first_round: Round::new(),
            second_round: Round::new(),
        };
        proof {
            assert(nom_names(r.noms_seq()) =~= names_of(names@));
        }
        r
    }

    pub fn id(&self) -> (r: &str)
        ensures
            r@ == self.spec_id(),
    {
        self.id.as_str()
    }

    pub fn elected_role(&self) -> (r: &str)
        ensures
            r@ == self.spec_role(),
    {
        self.elected_role.as_str()
    }

    pub fn phase(&self) -> (r: ElectionPhase)
        ensures
            r == self.spec_phase(),
    {
        self.phase
    }

    /// Moves the phase one step forward, saturating at the terminal phase;
    /// nothing else changes.
    pub fn step_next(&mut self)
        requires
            old(self).wf(),
        ensures
            final (self).wf(),
            final (self).spec_phase() == old(self).spec_phase().spec_next(),
            Self::same_except_phase(final (self), old(self)),
    {
        self.phase = self.phase.step_next();
    }

    /// Moves the phase one step backward, saturating at the initial phase;
    /// nothing else changes.
    pub fn step_prev(&mut self)
        requires
            old(self).wf(),
        ensures
            final (self).wf(),
            final (self).spec_phase() == old(self).spec_phase().spec_prev(),
            Self::same_except_phase(final (self), old(self)),
    {
        self.phase = self.phase.step_prev();
    }

    /// Clears the round that is currently open for voting: round 1 in the
    /// first vote phase, round 2 in the second; in every other phase this
    /// does nothing.
    pub fn reset_votes(&mut self)
        requires
            old(self).wf(),
        ensures
            final (self).wf(),
            Self::reset_applied(*old(self), *final (self)),
    {
        if matches!(self.phase, ElectionPhase::FirstVote) {
            self.first_round = Round::new();
        } else if matches!(self.phase, ElectionPhase::SecondVote) {
            self.second_round = Round::new();
        }
    }

    /// Records `voter_name`'s vote for nominee `vote` — but only while a
    /// vote phase is open: in round 1 during the first vote phase, in round 2
    /// during the second. In any other phase the vote is silently dropped
    /// and nothing changes.
    pub fn add_vote(&mut self, voter_name: String, vote: u64)
        requires
            old(self).wf(),
            (old(self).spec_phase() == ElectionPhase::FirstVote || old(self).spec_phase()
                == ElectionPhase::SecondVote) ==> old(self).noms().dom().contains(vote),
        ensures
            final (self).wf(),
            Self::vote_applied(*old(self), *final (self), voter_name@, vote),
    {
        match self.phase {
            ElectionPhase::FirstVote => {
                self.first_round.insert(voter_name, vote);
            },
            ElectionPhase::SecondVote => {
                self.second_round.insert(voter_name, vote);
            },
            _ => {},
        }
    }

    /// The display name of nominee `vote`, which must be in the registry.
    pub fn get_vote(&self, vote: u64) -> (r: &str)
        requires
            self.wf(),
            self.noms().dom().contains(vote),
        ensures
            r@ == self.noms()[vote],
    {
        let n = self.nominees.len();
        let mut i: usize = 0;
        while i < n
            invariant
                i <= n,
                n == self.nominees@.len(),
                self.wf(),
                self.noms().dom().contains(vote),
                forall|j: int| 0 <= j < i ==> self.nominees@[j].0 != vote,
            decreases n - i,
        {
            if self.nominees[i].0 == vote {
                proof {
                    lemma_noms_val(self.nominees@, i as int);
                }
                return self.nominees[i].1.as_str();
            }
            i += 1;
        }
        proof {
            lemma_noms_dom(self.nominees@);
            assert(!has_nom_id(self.nominees@, vote));
            assert(false);
        }
        vstd::pervasive::unreached()
    }

    /// Whether nominee id `vote` is in the registry.
    pub fn has_nominee(&self, vote: u64) -> (r: bool)
        requires
            self.wf(),
        ensures
            r == self.noms().dom().contains(vote),
    {
        let n = self.nominees.len();
        let mut i: usize = 0;
        while i < n
            invariant
                i <= n,
                n == self.nominees@.len(),
                self.wf(),
                forall|j: int| 0 <= j < i ==> self.nominees@[j].0 != vote,
            decreases n - i,
        {
            if self.nominees[i].0 == vote {
                proof {
                    lemma_noms_val(self.nominees@, i as int);
                }
                return true;
            }
            i += 1;
        }
        proof {
            lemma_noms_dom(self.nominees@);
            assert(!has_nom_id(self.nominees@, vote));
        }
        false
    }

    /// The display name of nominee `vote`, or `UnknownNominee` if the id is
    /// outside the registry.
    pub fn vote_label(&self, vote: u64) -> (r: Result<String, ElectionError>)
        requires
            self.wf(),
        ensures
            match r {
                Ok(name) => self.noms().dom().contains(vote) && name@ == self.noms()[vote],
                Err(e) => e == ElectionError::UnknownNominee && !self.noms().dom().contains(vote),
            },
    {
        let n = self.nominees.len();
        let mut i: usize = 0;
        while i < n
            invariant
                i <= n,
                n == self.nominees@.len(),
                self.wf(),
                forall|j: int| 0 <= j < i ==> self.nominees@[j].0 != vote,
            decreases n - i,
        {
            if self.nominees[i].0 == vote {
                proof {
                    lemma_noms_val(self.nominees@, i as int);
                }
                return Ok(self.nominees[i].1.clone());
            }
            i += 1;
        }
        proof {
            lemma_noms_dom(self.nominees@);
            assert(!has_nom_id(self.nominees@, vote));
        }
        Err(ElectionError::UnknownNominee)
    }

    /// The registry as (id, name) pairs in ascending id order.
    pub fn get_sorted_nominees(&self) -> (r: Vec<(u64, String)>)
        ensures
            r@.map_values(|p: (u64, String)| (p.0, p.1@)) == self.noms_seq(),
    {
        let n = self.nominees.len();
        let mut out: Vec<(u64, String)> = Vec::new();
        let mut i: usize = 0;
        while i < n
            invariant
                i <= n,
                n == self.nominees@.len(),
                out@.len() == i,
                forall|j: int|
                    0 <= j < i ==> (#[trigger] out@[j]).0 == self.nominees@[j].0 && out@[j].1@
                        == self.nominees@[j].1@,
            decreases n - i,
        {
            let name = self.nominees[i].1.clone();
            out.push((self.nominees[i].0, name));
            i += 1;
        }
        proof {
            assert(out@.map_values(|p: (u64, String)| (p.0, p.1@)) =~= self.noms_seq());
        }
        out
    }

    /// How many voters the phase's round has, except that the safety round
    /// reports zero.
    pub open spec fn spec_vote_count(&self) -> int {
        match self.spec_phase() {
            ElectionPhase::FirstVote => self.round1().dom().len() as int,
            ElectionPhase::FirstTally => self.round1().dom().len() as int,
            ElectionPhase::SecondVote => self.round2().dom().len() as int,
            ElectionPhase::SecondTally => self.round2().dom().len() as int,
            ElectionPhase::SafetyRound => 0,
        }
    }

    pub fn vote_count(&self) -> (n: usize)
        requires
            self.wf(),
        ensures
            n == self.spec_vote_count(),
    {
        match self.phase {
            ElectionPhase::FirstVote => self.first_round.len(),
            ElectionPhase::FirstTally => self.first_round.len(),
            ElectionPhase::SecondVote => self.second_round.len(),
            ElectionPhase::SecondTally => self.second_round.len(),
            ElectionPhase::SafetyRound => 0,
        }
    }

    /// The round the current phase works on.
    pub fn current_round(&self) -> (r: &Round)
        ensures
            r@ == self.current_round_map(),
            self.wf() ==> r.wf(),
    {
        match self.phase {
            ElectionPhase::FirstVote => &self.first_round,
            ElectionPhase::FirstTally => &self.first_round,
            ElectionPhase::SecondVote => &self.second_round,
            ElectionPhase::SecondTally => &self.second_round,
            ElectionPhase::SafetyRound => &self.second_round,
        }
    }

    /// The current round's voter names, in ascending lexicographic order.
    pub fn voters(&self) -> (r: Vec<String>)
        requires
            self.wf(),
        ensures
            names_ascending(names_of(r@)),
            forall|x: Seq<char>| #[trigger]
                names_of(r@).contains(x) <==> self.current_round_map().dom().contains(x),
    {
        self.current_round().voters_sorted()
    }

    /// Accumulates the current round: one entry per nominee that received
    /// votes, with its display name and count, in strictly descending count
    /// order, ties broken by descending name.
    pub fn accumulated_votes(&self) -> (r: AccumulatedVotes)
        requires
            self.wf(),
        ensures
            is_tally(r@, self.current_round_map(), self.noms()),
    {
        let ghost m = self.current_round_map();
        let ghost noms_rep = self.nominees@;
        let round = self.current_round();
        let n = self.nominees.len();
        let mut out: Vec<(String, usize)> = Vec::new();
        let mut k: usize = 0;
        while k < n
            invariant
                k <= n,
                n == self.nominees@.len(),
                self.wf(),
                m == self.current_round_map(),
                noms_rep == self.nominees@,
                round.wf(),
                round@ == m,
                tally_sorted(entries_view(out@)),
                forall|x: (Seq<char>, int)| #[trigger]
                    entries_view(out@).contains(x) <==> exists|j: int|
                        0 <= j < k && x == nominee_entry(noms_rep, m, j) && nominee_counted(
                            noms_rep,
                            m,
                            j,
                        ),
            decreases n - k,
        {
            let ghost before = entries_view(out@);
            let id = self.nominees[k].0;
            let c = round.count_for(id);
            proof {
                assert(nominee_entry(noms_rep, m, k as int) == (
                    self.nominees@[k as int].1@,
                    c as int,
                ));
            }
            if c > 0 {
                proof {
                    assert forall|i: int|
                        0 <= i < out@.len() implies (#[trigger] out@[i]).0@
                        != self.nominees@[k as int].1@ by {
                        assert(entries_view(out@)[i] == (out@[i].0@, out@[i].1 as int));
                        assert(entries_view(out@).contains(entries_view(out@)[i]));
                        let j = choose|j: int|
                            0 <= j < k && entries_view(out@)[i] == nominee_entry(noms_rep, m, j)
                                && nominee_counted(noms_rep, m, j);
                        assert(self.nominees@[j].1@ != self.nominees@[k as int].1@);
                    }
                }
                let name = self.nominees[k].1.clone();
                insert_tally_entry(&mut out, name, c);
                proof {
                    assert forall|x: (Seq<char>, int)| #[trigger]
                        entries_view(out@).contains(x) <==> exists|j: int|
                            0 <= j < k + 1 && x == nominee_entry(noms_rep, m, j) && nominee_counted(
                                noms_rep,
                                m,
                                j,
                            ) by {
                        if entries_view(out@).contains(x) {
                            if before.contains(x) {
                                let j = choose|j: int|
                                    0 <= j < k && x == nominee_entry(noms_rep, m, j)
                                        && nominee_counted(noms_rep, m, j);
                                assert(0 <= j < k + 1 && x == nominee_entry(noms_rep, m, j)
                                    && nominee_counted(noms_rep, m, j));
                            } else {
                                assert(0 <= k < k + 1 && x == nominee_entry(noms_rep, m, k as int)
                                    && nominee_counted(noms_rep, m, k as int));
                            }
                        }
                        if exists|j: int|
                            0 <= j < k + 1 && x == nominee_entry(noms_rep, m, j) && nominee_counted(
                                noms_rep,
                                m,
                                j,
                            ) {
                            let j = choose|j: int|
                                0 <= j < k + 1 && x == nominee_entry(noms_rep, m, j)
                                    && nominee_counted(noms_rep, m, j);
                            if j < k {
                                assert(before.contains(x));
                                assert(entries_view(out@).contains(x));
                            } else {
                                assert(x == (self.nominees@[k as int].1@, c as int));
                                assert(entries_view(out@).contains(x));
                            }
                        }
                    }
                }
            } else {
                proof {
                    assert forall|x: (Seq<char>, int)| #[trigger]
                        entries_view(out@).contains(x) <==> exists|j: int|
                            0 <= j < k + 1 && x == nominee_entry(noms_rep, m, j) && nominee_counted(
                                noms_rep,
                                m,
                                j,
                            ) by {
                        if entries_view(out@).contains(x) {
                            let j = choose|j: int|
                                0 <= j < k && x == nominee_entry(noms_rep, m, j) && nominee_counted(
                                    noms_rep,
                                    m,
                                    j,
                                );
                            assert(0 <= j < k + 1 && x == nominee_entry(noms_rep, m, j)
                                && nominee_counted(noms_rep, m, j));
                        }
                        if exists|j: int|
                            0 <= j < k + 1 && x == nominee_entry(noms_rep, m, j) && nominee_counted(
                                noms_rep,
                                m,
                                j,
                            ) {
                            let j = choose|j: int|
                                0 <= j < k + 1 && x == nominee_entry(noms_rep, m, j)
                                    && nominee_counted(noms_rep, m, j);
                            assert(j < k);
                            assert(entries_view(out@).contains(x));
                        }
                    }
                }
            }
            k += 1;
        }
        let ghost gout = entries_view(out@);
        proof {
            lemma_noms_dom(self.nominees@);
            assert forall|i: int| 0 <= i < gout.len() implies counts_some_nominee(
                #[trigger] gout[i],
                m,
                self.noms(),
            ) by {
                assert(gout.contains(gout[i]));
                let j = choose|j: int|
                    0 <= j < n && gout[i] == nominee_entry(noms_rep, m, j) && nominee_counted(
                        noms_rep,
                        m,
                        j,
                    );
                lemma_noms_val(self.nominees@, j);
                assert(is_count_entry(gout[i], m, self.noms(), self.nominees@[j].0));
            }
            assert forall|id: u64|
                #![trigger self.noms().dom().contains(id)]
                self.noms().dom().contains(id) && votes_for(m, id) > 0 implies gout.contains(
                (self.noms()[id], votes_for(m, id) as int),
            ) by {
                assert(has_nom_id(self.nominees@, id));
                let j = choose|j: int| 0 <= j < self.nominees@.len() && self.nominees@[j].0 == id;
                lemma_noms_val(self.nominees@, j);
                assert(0 <= j < n && (self.noms()[id], votes_for(m, id) as int) == nominee_entry(
                    noms_rep,
                    m,
                    j,
                ) && nominee_counted(noms_rep, m, j));
            }
            assert(is_tally(gout, m, self.noms()));
        }
        let r = AccumulatedVotes { results: out };
        proof {
            assert(r@ == gout);
        }
        r
    }
}

} // verus!
