use vstd::prelude::*;

verus! {

/// Strict lexicographic order on character sequences, by code point. This is
/// the order in which nominee names and voter names are listed.
pub open spec fn str_lt(a: Seq<char>, b: Seq<char>) -> bool
    decreases a.len(),
{
    if b.len() == 0 {
        false
    } else if a.len() == 0 {
        true
    } else if a[0] != b[0] {
        a[0] < b[0]
    } else {
        str_lt(a.drop_first(), b.drop_first())
    }
}

pub proof fn lemma_str_lt_irreflexive(a: Seq<char>)
    ensures
        !str_lt(a, a),
    decreases a.len(),
{
    if a.len() > 0 {
        lemma_str_lt_irreflexive(a.drop_first());
    }
}

pub proof fn lemma_str_lt_asymmetric(a: Seq<char>, b: Seq<char>)
    ensures
        str_lt(a, b) ==> !str_lt(b, a),
    decreases a.len(),
{
    if a.len() > 0 && b.len() > 0 && a[0] == b[0] {
        lemma_str_lt_asymmetric(a.drop_first(), b.drop_first());
    }
}

/// Any two distinct character sequences are ordered one way or the other.
pub proof fn lemma_str_lt_connected(a: Seq<char>, b: Seq<char>)
    ensures
        a != b ==> str_lt(a, b) || str_lt(b, a),
    decreases a.len(),
{
    if a.len() == 0 && b.len() == 0 {
        assert(a =~= b);
    }
    if a.len() > 0 && b.len() > 0 && a[0] == b[0] {
        lemma_str_lt_connected(a.drop_first(), b.drop_first());
        if a.drop_first() == b.drop_first() {
            assert forall|i: int| 0 <= i < a.len() implies a[i] == b[i] by {
                if i > 0 {
                    assert(a[i] == a.drop_first()[i - 1]);
                    assert(b[i] == b.drop_first()[i - 1]);
                }
            }
            assert(a =~= b);
        }
    }
}

pub proof fn lemma_str_lt_transitive(a: Seq<char>, b: Seq<char>, c: Seq<char>)
    ensures
        str_lt(a, b) && str_lt(b, c) ==> str_lt(a, c),
    decreases a.len(),
{
    if a.len() > 0 && b.len() > 0 && c.len() > 0 {
        if a[0] == b[0] && b[0] == c[0] {
            lemma_str_lt_transitive(a.drop_first(), b.drop_first(), c.drop_first());
        }
    }
}

/// Dropping an equal prefix of both sequences does not change their order.
proof fn lemma_str_lt_skip(a: Seq<char>, b: Seq<char>, i: int)
    requires
        0 <= i <= a.len(),
        i <= b.len(),
        forall|j: int| 0 <= j < i ==> a[j] == b[j],
    ensures
        str_lt(a, b) == str_lt(a.skip(i), b.skip(i)),
    decreases i,
{
    if i > 0 {
        lemma_str_lt_skip(a.drop_first(), b.drop_first(), i - 1);
        assert(a.drop_first().skip(i - 1) =~= a.skip(i));
        assert(b.drop_first().skip(i - 1) =~= b.skip(i));
    } else {
        assert(a.skip(0) =~= a);
        assert(b.skip(0) =~= b);
    }
}

/// Whether `a` comes strictly before `b` in lexicographic order.
pub fn str_less(a: &str, b: &str) -> (r: bool)
    ensures
        r == str_lt(a@, b@),
{
    let la = a.unicode_len();
    let lb = b.unicode_len();
    let mut i: usize = 0;
    loop
        invariant
            la == a@.len(),
            lb == b@.len(),
            i <= la,
            i <= lb,
            forall|j: int| 0 <= j < i ==> a@[j] == b@[j],
        ensures
            i <= la,
            i <= lb,
            i == la || i == lb,
            forall|j: int| 0 <= j < i ==> a@[j] == b@[j],
        decreases la - i,
    {
        if i >= la || i >= lb {
            break ;
        }
        let ca = a.get_char(i);
        let cb = b.get_char(i);
        if ca != cb {
            proof {
                lemma_str_lt_skip(a@, b@, i as int);
                assert(a@.skip(i as int)[0] == a@[i as int]);
                assert(b@.skip(i as int)[0] == b@[i as int]);
            }
            return ca < cb;
        }
        i += 1;
    }
    proof {
        lemma_str_lt_skip(a@, b@, i as int);
        assert(a@.skip(i as int).len() == la - i);
        assert(b@.skip(i as int).len() == lb - i);
    }
    la < lb
}

/// Whether `a` and `b` hold the same characters.
pub fn str_same(a: &str, b: &str) -> (r: bool)
    ensures
        r == (a@ == b@),
{
    let la = a.unicode_len();
    let lb = b.unicode_len();
    if la != lb {
        return false;
    }
    let mut i: usize = 0;
    while i < la
        invariant
            la == a@.len(),
            la == b@.len(),
            i <= la,
            forall|j: int| 0 <= j < i ==> a@[j] == b@[j],
        decreases la - i,
    {
        if a.get_char(i) != b.get_char(i) {
            return false;
        }
        i += 1;
    }
    proof {
        assert(a@ =~= b@);
    }
    true
}

/// Whether the names in `s`, read as character sequences, are strictly
/// ascending (so also pairwise distinct).
pub open spec fn names_ascending(s: Seq<Seq<char>>) -> bool {
    forall|i: int, j: int| 0 <= i < j < s.len() ==> str_lt(s[i], s[j])
}

pub open spec fn names_of(s: Seq<String>) -> Seq<Seq<char>> {
    s.map_values(|n: String| n@)
}

/// Inserts `name` into a strictly ascending vector of names, keeping it
/// strictly ascending; a name that is already present is left alone.
pub fn insert_name_sorted(v: &mut Vec<String>, name: String)
    requires
        names_ascending(names_of(old(v)@)),
    ensures
        names_ascending(names_of(final(v)@)),
        forall|x: Seq<char>| #[trigger]
            names_of(final(v)@).contains(x) <==> (names_of(old(v)@).contains(x) || x == name@),
{
    let ghost orig = names_of(v@);
    let mut p: usize = 0;
    while p < v.len() && str_less(v[p].as_str(), name.as_str())
        invariant
            p <= v@.len(),
            v@ == old(v)@,
            forall|j: int| 0 <= j < p ==> str_lt(names_of(v@)[j], name@),
        decreases v@.len() - p,
    {
        p += 1;
    }
    if p < v.len() && str_same(v[p].as_str(), name.as_str()) {
        proof {
            assert(names_of(v@)[p as int] == name@);
            assert(names_of(v@).contains(name@));
        }
        return ;
    }
    proof {
        // every name at or past p is strictly greater than `name`
        assert forall|j: int| p <= j < v@.len() implies str_lt(name@, names_of(v@)[j]) by {
            if j == p {
                lemma_str_lt_connected(name@, names_of(v@)[j]);
            } else {
                lemma_str_lt_connected(name@, names_of(v@)[p as int]);
                lemma_str_lt_transitive(name@, names_of(v@)[p as int], names_of(v@)[j]);
            }
        }
    }
    v.insert(p, name);
    proof {
        let after = names_of(v@);
        assert(after =~= orig.take(p as int).push(name@) + orig.skip(p as int));
        assert forall|i: int, j: int| 0 <= i < j < after.len() implies str_lt(
            after[i],
            after[j],
        ) by {
            if i < p && j > p {
                lemma_str_lt_transitive(after[i], name@, after[j]);
            }
        }
        assert forall|x: Seq<char>| #[trigger]
            after.contains(x) <==> (orig.contains(x) || x == name@) by {
            if orig.contains(x) {
                let k = choose|k: int| 0 <= k < orig.len() && orig[k] == x;
                if k < p {
                    assert(after[k] == x);
                } else {
                    assert(after[k + 1] == x);
                }
                assert(after.contains(x));
            }
            if x == name@ {
                assert(after[p as int] == x);
                assert(after.contains(x));
            }
            if after.contains(x) {
                let k = choose|k: int| 0 <= k < after.len() && after[k] == x;
                if k < p {
                    assert(orig[k] == x);
                    assert(orig.contains(x));
                } else if k == p {
                    assert(x == name@);
                } else {
                    assert(orig[k - 1] == x);
                    assert(orig.contains(x));
                }
            }
        }
    }
}

} // verus!
