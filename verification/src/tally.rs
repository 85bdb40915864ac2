use vstd::prelude::*;

use crate::round::{choosers, votes_for};
use crate::text::{names_of, str_less, str_lt, lemma_str_lt_irreflexive, lemma_str_lt_asymmetric,
    lemma_str_lt_connected, lemma_str_lt_transitive};

verus! {

/// The strict order in which tally entries are listed, read backwards: the
/// final list is strictly descending in this order, so higher counts come
/// first and, among equal counts, lexicographically later names come first.
pub open spec fn tally_lt(a: (Seq<char>, int), b: (Seq<char>, int)) -> bool {
    a.1 < b.1 || (a.1 == b.1 && str_lt(a.0, b.0))
}

pub proof fn lemma_tally_lt_irreflexive(a: (Seq<char>, int))
    ensures
        !tally_lt(a, a),
{
    lemma_str_lt_irreflexive(a.0);
}

pub proof fn lemma_tally_lt_asymmetric(a: (Seq<char>, int), b: (Seq<char>, int))
    ensures
        tally_lt(a, b) ==> !tally_lt(b, a),
{
    lemma_str_lt_asymmetric(a.0, b.0);
}

pub proof fn lemma_tally_lt_transitive(a: (Seq<char>, int), b: (Seq<char>, int), c: (Seq<char>, int))
    ensures
        tally_lt(a, b) && tally_lt(b, c) ==> tally_lt(a, c),
{
    lemma_str_lt_transitive(a.0, b.0, c.0);
}

/// Two entries that differ in name or in count are strictly ordered one way
/// or the other.
pub proof fn lemma_tally_lt_connected(a: (Seq<char>, int), b: (Seq<char>, int))
    requires
        a.0 != b.0 || a.1 != b.1,
    ensures
        tally_lt(a, b) || tally_lt(b, a),
{
    if a.1 == b.1 {
        lemma_str_lt_connected(a.0, b.0);
    }
}

/// Strictly descending in `tally_lt`: every later entry is strictly below
/// every earlier one.
pub open spec fn tally_sorted(rs: Seq<(Seq<char>, int)>) -> bool {
    forall|i: int, j: int| 0 <= i < j < rs.len() ==> tally_lt(rs[j], rs[i])
}

/// Entry `x` reports, under nominee registry `noms`, the number of voters of
/// round `m` who chose nominee `id`, and that number is positive.
pub open spec fn is_count_entry(
    x: (Seq<char>, int),
    m: Map<Seq<char>, u64>,
    noms: Map<u64, Seq<char>>,
    id: u64,
) -> bool {
    &&& noms.dom().contains(id)
    &&& noms[id] == x.0
    &&& x.1 == votes_for(m, id) as int
    &&& x.1 > 0
}

/// Entry `x` reports some nominee's positive vote count.
pub open spec fn counts_some_nominee(
    x: (Seq<char>, int),
    m: Map<Seq<char>, u64>,
    noms: Map<u64, Seq<char>>,
) -> bool {
    exists|id: u64| is_count_entry(x, m, noms, id)
}

/// `rs` is the accumulation of round `m` under registry `noms`: one entry per
/// nominee that received votes, carrying that nominee's name and vote count,
/// in strictly descending count order with descending-name tie-break. The
/// round's entry order plays no part: `rs` is determined by the round as a
/// map.
pub open spec fn is_tally(
    rs: Seq<(Seq<char>, int)>,
    m: Map<Seq<char>, u64>,
    noms: Map<u64, Seq<char>>,
) -> bool {
    &&& forall|i: int| 0 <= i < rs.len() ==> counts_some_nominee(#[trigger] rs[i], m, noms)
    &&& forall|id: u64|
        #![trigger noms.dom().contains(id)]
        noms.dom().contains(id) && votes_for(m, id) > 0 ==> rs.contains(
            (noms[id], votes_for(m, id) as int),
        )
    &&& tally_sorted(rs)
}

/// Two strictly descending sequences with the same members are equal.
pub proof fn lemma_tally_sorted_unique(a: Seq<(Seq<char>, int)>, b: Seq<(Seq<char>, int)>)
    requires
        tally_sorted(a),
        tally_sorted(b),
        forall|x: (Seq<char>, int)| #[trigger] a.contains(x) <==> b.contains(x),
    ensures
        a =~= b,
    decreases a.len(),
{
    if a.len() == 0 {
        if b.len() > 0 {
            assert(b.contains(b[0]));
            assert(a.contains(b[0]));
            assert(false);
        }
    } else {
        assert(a.contains(a[0]));
        assert(b.contains(a[0]));
        let k = choose|k: int| 0 <= k < b.len() && b[k] == a[0];
        if k > 0 {
            assert(tally_lt(b[k], b[0]));
            assert(b.contains(b[0]));
            assert(a.contains(b[0]));
            let m = choose|m: int| 0 <= m < a.len() && a[m] == b[0];
            if m > 0 {
                assert(tally_lt(a[m], a[0]));
                lemma_tally_lt_asymmetric(a[0], b[0]);
                assert(false);
            } else {
                lemma_tally_lt_irreflexive(a[0]);
                assert(false);
            }
        }
        assert(a[0] == b[0]);
        let at = a.drop_first();
        let bt = b.drop_first();
        assert forall|x: (Seq<char>, int)| #[trigger] at.contains(x) <==> bt.contains(x) by {
            if at.contains(x) {
                let i = choose|i: int| 0 <= i < at.len() && at[i] == x;
                assert(a[i + 1] == x);
                assert(a.contains(x));
                assert(b.contains(x));
                let j = choose|j: int| 0 <= j < b.len() && b[j] == x;
                assert(tally_lt(x, a[0]));
                if j == 0 {
                    lemma_tally_lt_irreflexive(x);
                    assert(false);
                }
                assert(bt[j - 1] == x);
                assert(bt.contains(x));
            }
            if bt.contains(x) {
                let i = choose|i: int| 0 <= i < bt.len() && bt[i] == x;
                assert(b[i + 1] == x);
                assert(b.contains(x));
                assert(a.contains(x));
                let j = choose|j: int| 0 <= j < a.len() && a[j] == x;
                assert(tally_lt(x, b[0]));
                if j == 0 {
                    lemma_tally_lt_irreflexive(x);
                    assert(false);
                }
                assert(at[j - 1] == x);
                assert(at.contains(x));
            }
        }
        lemma_tally_sorted_unique(at, bt);
        assert forall|i: int| 0 <= i < a.len() implies a[i] == b[i] by {
            if i > 0 {
                assert(a[i] == at[i - 1]);
                assert(b[i] == bt[i - 1]);
            }
        }
        assert(a =~= b);
    }
}

/// A round and a registry admit exactly one accumulation: the tally is
/// deterministic, however the round's entries are ordered.
pub proof fn lemma_tally_deterministic(
    rs1: Seq<(Seq<char>, int)>,
    rs2: Seq<(Seq<char>, int)>,
    m: Map<Seq<char>, u64>,
    noms: Map<u64, Seq<char>>,
)
    requires
        is_tally(rs1, m, noms),
        is_tally(rs2, m, noms),
    ensures
        rs1 =~= rs2,
{
    assert forall|x: (Seq<char>, int)| #[trigger] rs1.contains(x) <==> rs2.contains(x) by {
        if rs1.contains(x) {
            let i = choose|i: int| 0 <= i < rs1.len() && rs1[i] == x;
            assert(counts_some_nominee(rs1[i], m, noms));
            let id = choose|id: u64| is_count_entry(rs1[i], m, noms, id);
            assert(rs2.contains((noms[id], votes_for(m, id) as int)));
        }
        if rs2.contains(x) {
            let i = choose|i: int| 0 <= i < rs2.len() && rs2[i] == x;
            assert(counts_some_nominee(rs2[i], m, noms));
            let id = choose|id: u64| is_count_entry(rs2[i], m, noms, id);
            assert(rs1.contains((noms[id], votes_for(m, id) as int)));
        }
    }
    lemma_tally_sorted_unique(rs1, rs2);
}

/// An empty round accumulates to no entries at all, and the highest count
/// reported for it is 1, not 0.
pub proof fn lemma_empty_round_tally(rs: Seq<(Seq<char>, int)>, noms: Map<u64, Seq<char>>)
    requires
        is_tally(rs, Map::<Seq<char>, u64>::empty(), noms),
    ensures
        rs =~= Seq::<(Seq<char>, int)>::empty(),
        max_count_of(rs) == 1,
{
    let m = Map::<Seq<char>, u64>::empty();
    if rs.len() > 0 {
        assert(counts_some_nominee(rs[0], m, noms));
        let id = choose|id: u64| is_count_entry(rs[0], m, noms, id);
        assert(choosers(m, id) =~= Set::<Seq<char>>::empty());
        assert(false);
    }
}

/// The mathematical content of a result list: each entry as its name's
/// characters and its count.
pub open spec fn entries_view(s: Seq<(String, usize)>) -> Seq<(Seq<char>, int)> {
    s.map_values(|p: (String, usize)| (p.0@, p.1 as int))
}

/// The accumulated results of one round: nominee display name and vote
/// count, in strictly descending count order with descending-name tie-break.
pub struct AccumulatedVotes {
    pub results: Vec<(String, usize)>,
}

impl View for AccumulatedVotes {
    type V = Seq<(Seq<char>, int)>;

    open spec fn view(&self) -> Seq<(Seq<char>, int)> {
        entries_view(self.results@)
    }
}

/// The highest count among the entries, or 1 of an empty list (so a renderer
/// that divides by it never divides by zero).
pub open spec fn max_count_of(rs: Seq<(Seq<char>, int)>) -> int
    decreases rs.len(),
{
    if rs.len() == 0 {
        1
    } else if rs.len() == 1 {
        rs[0].1
    } else {
        let m = max_count_of(rs.drop_last());
        if rs.last().1 > m {
            rs.last().1
        } else {
            m
        }
    }
}

/// The names of the entries whose count is exactly `c`, in entry order.
pub open spec fn with_count(rs: Seq<(Seq<char>, int)>, c: int) -> Seq<Seq<char>>
    decreases rs.len(),
{
    if rs.len() == 0 {
        Seq::empty()
    } else {
        let pre = with_count(rs.drop_last(), c);
        if rs.last().1 == c {
            pre.push(rs.last().0)
        } else {
            pre
        }
    }
}

/// The names of all co-leading entries, in entry order.
pub open spec fn winners_of(rs: Seq<(Seq<char>, int)>) -> Seq<Seq<char>> {
    with_count(rs, max_count_of(rs))
}

impl AccumulatedVotes {
    /// The highest vote count present, or 1 if there are no results.
    pub fn max_votes(&self) -> (r: usize)
        ensures
            r as int == max_count_of(self@),
    {
        let n = self.results.len();
        if n == 0 {
            return 1;
        }
        let mut m: usize = self.results[0].1;
        let mut i: usize = 1;
        while i < n
            invariant
                1 <= i <= n,
                n == self.results@.len(),
                m as int == max_count_of(entries_view(self.results@).take(i as int)),
            decreases n - i,
        {
            proof {
                let ev = entries_view(self.results@);
                assert(ev.take(i + 1).drop_last() =~= ev.take(i as int));
                assert(ev.take(i + 1).last() == ev[i as int]);
            }
            if self.results[i].1 > m {
                m = self.results[i].1;
            }
            i += 1;
        }
        proof {
            assert(entries_view(self.results@).take(n as int) =~= entries_view(self.results@));
        }
        m
    }

    /// Every nominee whose count equals the highest count, in result order.
    pub fn all_with_max_votes(&self) -> (r: Vec<String>)
        ensures
            names_of(r@) == winners_of(self@),
    {
        let m = self.max_votes();
        let n = self.results.len();
        let mut out: Vec<String> = Vec::new();
        let mut i: usize = 0;
        while i < n
            invariant
                i <= n,
                n == self.results@.len(),
                m as int == max_count_of(entries_view(self.results@)),
                names_of(out@) =~= with_count(
                    entries_view(self.results@).take(i as int),
                    m as int,
                ),
            decreases n - i,
        {
            proof {
                let ev = entries_view(self.results@);
                assert(ev.take(i + 1).drop_last() =~= ev.take(i as int));
                assert(ev.take(i + 1).last() == ev[i as int]);
            }
            let ghost before = names_of(out@);
            if self.results[i].1 == m {
                let name = self.results[i].0.clone();
                out.push(name);
                proof {
                    assert(names_of(out@) =~= before.push(self.results@[i as int].0@));
                }
            }
            i += 1;
        }
        proof {
            assert(entries_view(self.results@).take(n as int) =~= entries_view(self.results@));
        }
        out
    }
}

/// Whether entry `(an, ac)` comes strictly before `(bn, bc)` in tally order.
fn entry_less(an: &String, ac: usize, bn: &String, bc: usize) -> (r: bool)
    ensures
        r == tally_lt((an@, ac as int), (bn@, bc as int)),
{
    if ac != bc {
        ac < bc
    } else {
        str_less(an.as_str(), bn.as_str())
    }
}

/// Inserts an entry whose name is fresh into a strictly descending result
/// list, keeping it strictly descending.
pub fn insert_tally_entry(v: &mut Vec<(String, usize)>, name: String, cnt: usize)
    requires
        tally_sorted(entries_view(old(v)@)),
        forall|i: int| 0 <= i < old(v)@.len() ==> old(v)@[i].0@ != name@,
    ensures
        tally_sorted(entries_view(final(v)@)),
        forall|x: (Seq<char>, int)| #[trigger]
            entries_view(final(v)@).contains(x) <==> (entries_view(old(v)@).contains(x) || x == (
                name@,
                cnt as int,
            )),
{
    let ghost orig = entries_view(v@);
    let ghost e = (name@, cnt as int);
    let mut p: usize = 0;
    loop
        invariant
            p <= v@.len(),
            v@ == old(v)@,
            e == (name@, cnt as int),
            forall|j: int| 0 <= j < p ==> tally_lt(e, entries_view(v@)[j]),
        ensures
            p <= v@.len(),
            v@ == old(v)@,
            forall|j: int| 0 <= j < p ==> tally_lt(e, entries_view(v@)[j]),
            p == v@.len() || !tally_lt(e, entries_view(v@)[p as int]),
        decreases v@.len() - p,
    {
        if p >= v.len() {
            break ;
        }
        proof {
            assert(entries_view(v@)[p as int] == (v@[p as int].0@, v@[p as int].1 as int));
        }
        let more = entry_less(&name, cnt, &v[p].0, v[p].1);
        if !more {
            break ;
        }
        p += 1;
    }
    proof {
        // every entry at or past p is strictly below the new entry
        assert forall|j: int| p <= j < v@.len() implies tally_lt(entries_view(v@)[j], e) by {
            if j == p {
                lemma_tally_lt_connected(e, entries_view(v@)[j]);
            } else {
                lemma_tally_lt_connected(e, entries_view(v@)[p as int]);
                assert(tally_lt(entries_view(v@)[j], entries_view(v@)[p as int]));
                lemma_tally_lt_transitive(entries_view(v@)[j], entries_view(v@)[p as int], e);
            }
        }
    }
    v.insert(p, (name, cnt));
    proof {
        let after = entries_view(v@);
        assert(after =~= orig.take(p as int).push(e) + orig.skip(p as int));
        assert forall|i: int, j: int| 0 <= i < j < after.len() implies tally_lt(
            after[j],
            after[i],
        ) by {
            if i < p && j > p {
                lemma_tally_lt_transitive(after[j], e, after[i]);
            }
        }
        assert forall|x: (Seq<char>, int)| #[trigger]
            after.contains(x) <==> (orig.contains(x) || x == e) by {
            if orig.contains(x) {
                let k = choose|k: int| 0 <= k < orig.len() && orig[k] == x;
                if k < p {
                    assert(after[k] == x);
                } else {
                    assert(after[k + 1] == x);
                }
                assert(after.contains(x));
            }
            if x == e {
                assert(after[p as int] == x);
                assert(after.contains(x));
            }
            if after.contains(x) {
                let k = choose|k: int| 0 <= k < after.len() && after[k] == x;
                if k < p {
                    assert(orig[k] == x);
                    assert(orig.contains(x));
                } else if k == p {
                    assert(x == e);
                } else {
                    assert(orig[k - 1] == x);
                    assert(orig.contains(x));
                }
            }
        }
    }
}

} // verus!
