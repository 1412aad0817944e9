//! Lookup in association vectors keyed by strings.
//!
//! The inspector keeps its per-domain and per-source tables as vectors of
//! key/value pairs.  A table is read through [`find_index`], the index of the
//! first pair whose key has the wanted view; the lemmas here relate that
//! index to element updates and pushes, which is all the inspector needs to
//! maintain a `Map` view of a table.

use vstd::prelude::*;

verus! {

/// Index of the first pair in `s` whose key reads as `k`, or `-1` when no
/// pair does.
pub open spec fn find_index<V>(s: Seq<(String, V)>, k: Seq<char>) -> int
    decreases s.len(),
{
    if s.len() == 0 {
        -1
    } else if s[0].0@ == k {
        0
    } else {
        let r = find_index(s.skip(1), k);
        if r < 0 {
            -1
        } else {
            r + 1
        }
    }
}

/// Basic facts about [`find_index`]: it stays in range, lands on a matching
/// key, and is the first such position.
pub proof fn lemma_find_index_props<V>(s: Seq<(String, V)>, k: Seq<char>)
    ensures
        -1 <= find_index(s, k) < s.len(),
        find_index(s, k) >= 0 ==> s[find_index(s, k)].0@ == k,
        forall|j: int|
            0 <= j < s.len() && s[j].0@ == k ==> 0 <= find_index(s, k) <= j,
    decreases s.len(),
{
    if s.len() == 0 {
    } else if s[0].0@ == k {
    } else {
        lemma_find_index_props(s.skip(1), k);
        assert forall|j: int|
            0 <= j < s.len() && s[j].0@ == k implies 0 <= find_index(s, k) <= j by {
            assert(s.skip(1)[j - 1] == s[j]);
        }
    }
}

/// A position that matches, with no earlier match, is the found index.
pub proof fn lemma_find_index_of_match<V>(s: Seq<(String, V)>, k: Seq<char>, i: int)
    requires
        0 <= i < s.len(),
        s[i].0@ == k,
        forall|j: int| 0 <= j < i ==> s[j].0@ != k,
    ensures
        find_index(s, k) == i,
    decreases s.len(),
{
    if i == 0 {
    } else {
        assert forall|j: int| 0 <= j < i - 1 implies s.skip(1)[j].0@ != k by {
            assert(s.skip(1)[j] == s[j + 1]);
        }
        assert(s.skip(1)[i - 1] == s[i]);
        lemma_find_index_of_match(s.skip(1), k, i - 1);
    }
}

/// When no pair matches, nothing is found.
pub proof fn lemma_find_index_none<V>(s: Seq<(String, V)>, k: Seq<char>)
    requires
        forall|j: int| 0 <= j < s.len() ==> s[j].0@ != k,
    ensures
        find_index(s, k) == -1,
    decreases s.len(),
{
    if s.len() == 0 {
    } else {
        assert forall|j: int| 0 <= j < s.skip(1).len() implies s.skip(1)[j].0@ != k by {
            assert(s.skip(1)[j] == s[j + 1]);
        }
        lemma_find_index_none(s.skip(1), k);
    }
}

/// Replacing a pair by one with the same key view moves no index.
pub proof fn lemma_find_index_update<V>(s: Seq<(String, V)>, i: int, p: (String, V), k: Seq<char>)
    requires
        0 <= i < s.len(),
        p.0@ == s[i].0@,
    ensures
        find_index(s.update(i, p), k) == find_index(s, k),
    decreases s.len(),
{
    let t = s.update(i, p);
    if i == 0 {
        assert(t.skip(1) =~= s.skip(1));
    } else {
        assert(t[0] == s[0]);
        assert(t.skip(1) =~= s.skip(1).update(i - 1, p));
        lemma_find_index_update(s.skip(1), i - 1, p, k);
    }
}

/// Appending a pair leaves every found index alone and makes exactly the new
/// key findable.
pub proof fn lemma_find_index_push<V>(s: Seq<(String, V)>, p: (String, V), k: Seq<char>)
    ensures
        find_index(s.push(p), k) == (if find_index(s, k) >= 0 {
            find_index(s, k)
        } else if p.0@ == k {
            s.len() as int
        } else {
            -1
        }),
    decreases s.len(),
{
    let t = s.push(p);
    assert(t.len() == s.len() + 1);
    if s.len() == 0 {
        assert(t[0] == p);
        if p.0@ != k {
            assert(t.skip(1) =~= Seq::<(String, V)>::empty());
            assert(find_index(t.skip(1), k) == -1);
        }
    } else {
        assert(t[0] == s[0]);
        assert(t.skip(1) =~= s.skip(1).push(p));
        lemma_find_index_push(s.skip(1), p, k);
        if s[0].0@ != k {
            assert(find_index(t, k) == (if find_index(t.skip(1), k) < 0 {
                -1
            } else {
                find_index(t.skip(1), k) + 1
            }));
        }
    }
}

/// Linear scan for the first pair whose key equals `k`.
pub fn find_key<V>(v: &Vec<(String, V)>, k: &str) -> (r: Option<usize>)
    ensures
        (match r {
            Some(i) => i < v@.len() && find_index(v@, k@) == i as int,
            None => find_index(v@, k@) == -1,
        }),
{
    let key: String = k.to_owned();
    let n = v.len();
    let mut i: usize = 0;
    while i < n
        invariant
            n == v@.len(),
            i <= n,
            key@ == k@,
            forall|j: int| 0 <= j < i ==> v@[j].0@ != k@,
        decreases n - i,
    {
        if v[i].0 == key {
            proof {
                lemma_find_index_of_match(v@, k@, i as int);
            }
            return Some(i);
        }
        i += 1;
    }
    proof {
        lemma_find_index_none(v@, k@);
    }
    None
}

} // verus!
