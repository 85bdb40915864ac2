use vstd::prelude::*;

use crate::text::{insert_name_sorted, names_ascending, names_of, str_same};

verus! {

/// Keys of an entry list are pairwise distinct.
pub open spec fn keys_distinct(s: Seq<(String, u64)>) -> bool {
    forall|i: int, j: int| 0 <= i < j < s.len() ==> s[i].0@ != s[j].0@
}

/// Whether some entry of the list has key `k`.
pub open spec fn has_key(s: Seq<(String, u64)>, k: Seq<char>) -> bool {
    exists|i: int| 0 <= i < s.len() && s[i].0@ == k
}

/// The map that an entry list stands for (a later entry wins over an earlier
/// one with the same key).
pub open spec fn map_of(s: Seq<(String, u64)>) -> Map<Seq<char>, u64>
    decreases s.len(),
{
    if s.len() == 0 {
        Map::empty()
    } else {
        map_of(s.drop_last()).insert(s.last().0@, s.last().1)
    }
}

pub proof fn lemma_map_of_dom(s: Seq<(String, u64)>)
    ensures
        forall|k: Seq<char>| #[trigger] map_of(s).dom().contains(k) <==> has_key(s, k),
        map_of(s).dom().finite(),
    decreases s.len(),
{
    if s.len() == 0 {
    } else {
        let pre = s.drop_last();
        lemma_map_of_dom(pre);
        assert forall|k: Seq<char>| #[trigger] map_of(s).dom().contains(k) <==> has_key(s, k) by {
            if map_of(s).dom().contains(k) {
                if k == s.last().0@ {
                    assert(s[s.len() - 1].0@ == k);
                } else {
                    let i = choose|i: int| 0 <= i < pre.len() && pre[i].0@ == k;
                    assert(s[i].0@ == k);
                }
            }
            if has_key(s, k) {
                let i = choose|i: int| 0 <= i < s.len() && s[i].0@ == k;
                if i < s.len() - 1 {
                    assert(pre[i].0@ == k);
                    assert(has_key(pre, k));
                }
            }
        }
    }
}

pub proof fn lemma_map_of_val(s: Seq<(String, u64)>, i: int)
    requires
        keys_distinct(s),
        0 <= i < s.len(),
    ensures
        map_of(s).dom().contains(s[i].0@),
        map_of(s)[s[i].0@] == s[i].1,
    decreases s.len(),
{
    if i == s.len() - 1 {
    } else {
        lemma_map_of_val(s.drop_last(), i);
        assert(s.drop_last()[i] == s[i]);
    }
}

pub proof fn lemma_map_of_len(s: Seq<(String, u64)>)
    requires
        keys_distinct(s),
    ensures
        map_of(s).dom().len() == s.len(),
    decreases s.len(),
{
    if s.len() > 0 {
        let pre = s.drop_last();
        lemma_map_of_len(pre);
        lemma_map_of_dom(pre);
        assert(!has_key(pre, s.last().0@));
        assert(map_of(s).dom() =~= map_of(pre).dom().insert(s.last().0@));
    }
}

/// Overwriting the entry at `i` with one that keeps its key is, at the map
/// level, one insert.
pub proof fn lemma_map_of_update(s: Seq<(String, u64)>, i: int, p: (String, u64))
    requires
        keys_distinct(s),
        0 <= i < s.len(),
        s[i].0@ == p.0@,
    ensures
        map_of(s.update(i, p)) == map_of(s).insert(p.0@, p.1),
        keys_distinct(s.update(i, p)),
    decreases s.len(),
{
    let t = s.update(i, p);
    if i == s.len() - 1 {
        assert(t.drop_last() =~= s.drop_last());
        assert(t.last() == p);
        assert(map_of(s.drop_last()).insert(p.0@, p.1) =~= map_of(s.drop_last()).insert(
            s.last().0@,
            s.last().1,
        ).insert(p.0@, p.1));
    } else {
        assert(t.drop_last() =~= s.drop_last().update(i, p));
        assert(t.last() == s.last());
        lemma_map_of_update(s.drop_last(), i, p);
        // the two inserted keys differ, so the inserts commute
        assert(s[i].0@ != s.last().0@);
        assert(map_of(s.drop_last()).insert(p.0@, p.1).insert(s.last().0@, s.last().1)
            =~= map_of(s.drop_last()).insert(s.last().0@, s.last().1).insert(p.0@, p.1));
    }
}

/// Appending an entry with a fresh key is, at the map level, one insert.
pub proof fn lemma_map_of_push(s: Seq<(String, u64)>, p: (String, u64))
    ensures
        map_of(s.push(p)) == map_of(s).insert(p.0@, p.1),
{
    assert(s.push(p).drop_last() =~= s);
    assert(s.push(p).last() == p);
}

/// The voters of round `m` who chose nominee `id`.
pub open spec fn choosers(m: Map<Seq<char>, u64>, id: u64) -> Set<Seq<char>> {
    m.dom().filter(|v: Seq<char>| m[v] == id)
}

/// How many voters of round `m` chose nominee `id`.
pub open spec fn votes_for(m: Map<Seq<char>, u64>, id: u64) -> nat {
    choosers(m, id).len()
}

/// How many entries of the list chose nominee `id`.
pub open spec fn count_in(s: Seq<(String, u64)>, id: u64) -> int
    decreases s.len(),
{
    if s.len() == 0 {
        0
    } else {
        count_in(s.drop_last(), id) + if s.last().1 == id {
            1int
        } else {
            0int
        }
    }
}

pub proof fn lemma_count_in(s: Seq<(String, u64)>, id: u64)
    requires
        keys_distinct(s),
    ensures
        choosers(map_of(s), id).finite(),
        votes_for(map_of(s), id) == count_in(s, id),
        count_in(s, id) >= 0,
    decreases s.len(),
{
    let m = map_of(s);
    if s.len() == 0 {
        assert(m.dom() =~= Set::<Seq<char>>::empty());
        assert(choosers(m, id) =~= Set::<Seq<char>>::empty());
    } else {
        let pre = s.drop_last();
        let k = s.last().0@;
        let mp = map_of(pre);
        lemma_count_in(pre, id);
        lemma_map_of_dom(pre);
        assert(!has_key(pre, k));
        assert(!mp.dom().contains(k));
        if s.last().1 == id {
            assert(choosers(m, id) =~= choosers(mp, id).insert(k));
            assert(!choosers(mp, id).contains(k));
        } else {
            assert(choosers(m, id) =~= choosers(mp, id));
        }
    }
}

/// One voting round: a mapping from voter name to chosen nominee id, with a
/// voter's latest entry winning. The mathematical content is the map view;
/// the order of the underlying entries carries no meaning.
pub struct Round {
    entries: Vec<(String, u64)>,
}

impl View for Round {
    type V = Map<Seq<char>, u64>;

    closed spec fn view(&self) -> Map<Seq<char>, u64> {
        map_of(self.entries@)
    }
}

impl Round {
    pub closed spec fn wf(&self) -> bool {
        keys_distinct(self.entries@)
    }

    pub fn new() -> (r: Round)
        ensures
            r.wf(),
            r@ == Map::<Seq<char>, u64>::empty(),
    {
        Round { entries: Vec::new() }
    }

    /// How many voters have voted in this round.
    pub fn len(&self) -> (n: usize)
        requires
            self.wf(),
        ensures
            n == self@.dom().len(),
    {
        proof {
            lemma_map_of_len(self.entries@);
        }
        self.entries.len()
    }

    /// Records (or changes) `voter`'s vote.
    pub fn insert(&mut self, voter: String, vote: u64)
        requires
            old(self).wf(),
        ensures
            final (self).wf(),
            final (self)@ == old(self)@.insert(voter@, vote),
    {
        let n = self.entries.len();
        let mut i: usize = 0;
        while i < n
            invariant
                i <= n,
                n == self.entries@.len(),
                *self == *old(self),
                self.wf(),
                forall|j: int| 0 <= j < i ==> self.entries@[j].0@ != voter@,
            decreases n - i,
        {
            if str_same(self.entries[i].0.as_str(), voter.as_str()) {
                proof {
                    lemma_map_of_update(self.entries@, i as int, (voter, vote));
                }
                self.entries[i] = (voter, vote);
                return ;
            }
            i += 1;
        }
        proof {
            lemma_map_of_push(self.entries@, (voter, vote));
        }
        self.entries.push((voter, vote));
    }

    /// The vote that `voter` has cast in this round, if any.
    pub fn get(&self, voter: &str) -> (r: Option<u64>)
        requires
            self.wf(),
        ensures
            match r {
                Some(v) => self@.dom().contains(voter@) && self@[voter@] == v,
                None => !self@.dom().contains(voter@),
            },
    {
        let n = self.entries.len();
        let mut i: usize = 0;
        while i < n
            invariant
                i <= n,
                n == self.entries@.len(),
                self.wf(),
                forall|j: int| 0 <= j < i ==> self.entries@[j].0@ != voter@,
            decreases n - i,
        {
            if str_same(self.entries[i].0.as_str(), voter) {
                proof {
                    lemma_map_of_val(self.entries@, i as int);
                }
                return Some(self.entries[i].1);
            }
            i += 1;
        }
        proof {
            lemma_map_of_dom(self.entries@);
            assert(!has_key(self.entries@, voter@));
        }
        None
    }

    /// How many voters of this round chose nominee `id`.
    pub fn count_for(&self, id: u64) -> (c: usize)
        requires
            self.wf(),
        ensures
            c == votes_for(self@, id),
    {
        let n = self.entries.len();
        let mut c: usize = 0;
        let mut i: usize = 0;
        while i < n
            invariant
                i <= n,
                n == self.entries@.len(),
                c <= i,
                c as int == count_in(self.entries@.take(i as int), id),
            decreases n - i,
        {
            proof {
                assert(self.entries@.take(i + 1).drop_last() =~= self.entries@.take(i as int));
                assert(self.entries@.take(i + 1).last() == self.entries@[i as int]);
            }
            if self.entries[i].1 == id {
                c += 1;
            }
            i += 1;
        }
        proof {
            assert(self.entries@.take(n as int) =~= self.entries@);
            lemma_count_in(self.entries@, id);
        }
        c
    }

    /// The names of this round's voters, in ascending lexicographic order.
    pub fn voters_sorted(&self) -> (r: Vec<String>)
        requires
            self.wf(),
        ensures
            names_ascending(names_of(r@)),
            forall|x: Seq<char>| #[trigger]
                names_of(r@).contains(x) <==> self@.dom().contains(x),
    {
        let n = self.entries.len();
        let mut out: Vec<String> = Vec::new();
        let mut i: usize = 0;
        while i < n
            invariant
                i <= n,
                n == self.entries@.len(),
                names_ascending(names_of(out@)),
                forall|x: Seq<char>| #[trigger]
                    names_of(out@).contains(x) <==> has_key(self.entries@.take(i as int), x),
            decreases n - i,
        {
            let ghost prev = self.entries@.take(i as int);
            insert_name_sorted(&mut out, self.entries[i].0.clone());
            proof {
                let cur = self.entries@.take(i + 1);
                assert forall|x: Seq<char>| has_key(cur, x) <==> (has_key(prev, x) || x
                    == self.entries@[i as int].0@) by {
                    if has_key(cur, x) {
                        let j = choose|j: int| 0 <= j < cur.len() && cur[j].0@ == x;
                        if j < i {
                            assert(prev[j].0@ == x);
                        }
                    }
                    if has_key(prev, x) {
                        let j = choose|j: int| 0 <= j < prev.len() && prev[j].0@ == x;
                        assert(cur[j].0@ == x);
                    }
                    if x == self.entries@[i as int].0@ {
                        assert(cur[i as int].0@ == x);
                    }
                }
            }
            i += 1;
        }
        proof {
            assert(self.entries@.take(n as int) =~= self.entries@);
            lemma_map_of_dom(self.entries@);
        }
        out
    }
}

} // verus!
