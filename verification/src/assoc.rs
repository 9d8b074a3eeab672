//! Tables keyed by strings, kept as lists of pairs: a later pair for a key
//! hides the earlier ones, as a later insertion into a map replaces the value
//! stored before.
use crate::text::{chars_eq, chars_of};
use vstd::prelude::*;

verus! {

/// The map that the list of pairs stands for: each pair inserted in turn.
pub open spec fn pairs_map<V>(s: Seq<(String, V)>) -> Map<Seq<char>, V>
    decreases s.len(),
{
    if s.len() == 0 {
        Map::empty()
    } else {
        pairs_map(s.drop_last()).insert(s.last().0@, s.last().1)
    }
}

/// `i` is the last position of the list that holds the key `k`.
pub open spec fn is_last_key<V>(s: Seq<(String, V)>, i: int, k: Seq<char>) -> bool {
    &&& 0 <= i < s.len()
    &&& s[i].0@ == k
    &&& forall|j: int| i < j < s.len() ==> (#[trigger] s[j]).0@ != k
}

/// No position of the list holds the key `k`.
pub open spec fn key_absent<V>(s: Seq<(String, V)>, k: Seq<char>) -> bool {
    forall|j: int| 0 <= j < s.len() ==> (#[trigger] s[j]).0@ != k
}

/// No key occurs twice in the list.
pub open spec fn keys_unique<V>(s: Seq<(String, V)>) -> bool {
    forall|i: int, j: int| 0 <= i < j < s.len() ==> (#[trigger] s[i]).0@ != (#[trigger] s[j]).0@
}

/// The list without the pairs whose key is `k`.
pub open spec fn without_key<V>(s: Seq<(String, V)>, k: Seq<char>) -> Seq<(String, V)>
    decreases s.len(),
{
    if s.len() == 0 {
        s
    } else {
        let p = without_key(s.drop_last(), k);
        if s.last().0@ == k {
            p
        } else {
            p.push(s.last())
        }
    }
}

pub proof fn lemma_pairs_map_last<V>(s: Seq<(String, V)>, i: int, k: Seq<char>)
    requires
        is_last_key(s, i, k),
    ensures
        pairs_map(s).contains_key(k),
        pairs_map(s)[k] == s[i].1,
    decreases s.len(),
{
    if i < s.len() - 1 {
        let t = s.drop_last();
        assert(is_last_key(t, i, k)) by {
            assert forall|j: int| i < j < t.len() implies (#[trigger] t[j]).0@ != k by {
                assert(t[j] == s[j]);
            }
        }
        lemma_pairs_map_last(t, i, k);
        assert(s[s.len() - 1].0@ != k);
    }
}

pub proof fn lemma_pairs_map_absent<V>(s: Seq<(String, V)>, k: Seq<char>)
    requires
        key_absent(s, k),
    ensures
        !pairs_map(s).contains_key(k),
    decreases s.len(),
{
    if s.len() > 0 {
        let t = s.drop_last();
        assert(key_absent(t, k)) by {
            assert forall|j: int| 0 <= j < t.len() implies (#[trigger] t[j]).0@ != k by {
                assert(t[j] == s[j]);
            }
        }
        lemma_pairs_map_absent(t, k);
        assert(s[s.len() - 1].0@ != k);
    }
}

pub proof fn lemma_pairs_map_update_last<V>(s: Seq<(String, V)>, i: int, v: V)
    requires
        is_last_key(s, i, s[i].0@),
    ensures
        pairs_map(s.update(i, (s[i].0, v))) == pairs_map(s).insert(s[i].0@, v),
    decreases s.len(),
{
    let k = s[i].0@;
    let u = s.update(i, (s[i].0, v));
    if i == s.len() - 1 {
        assert(u.drop_last() =~= s.drop_last());
        assert(pairs_map(u) =~= pairs_map(s).insert(k, v));
    } else {
        let t = s.drop_last();
        assert(is_last_key(t, i, k)) by {
            assert forall|j: int| i < j < t.len() implies (#[trigger] t[j]).0@ != k by {
                assert(t[j] == s[j]);
            }
        }
        lemma_pairs_map_update_last(t, i, v);
        assert(u.drop_last() =~= t.update(i, (t[i].0, v)));
        assert(s.last().0@ != k);
        assert(pairs_map(u) =~= pairs_map(s).insert(k, v));
    }
}

pub proof fn lemma_pairs_map_without<V>(s: Seq<(String, V)>, k: Seq<char>)
    ensures
        pairs_map(without_key(s, k)) == pairs_map(s).remove(k),
    decreases s.len(),
{
    if s.len() == 0 {
        assert(pairs_map(s).remove(k) =~= Map::empty());
    } else {
        let t = s.drop_last();
        lemma_pairs_map_without(t, k);
        if s.last().0@ == k {
            assert(pairs_map(s).remove(k) =~= pairs_map(t).remove(k));
        } else {
            let p = without_key(t, k);
            assert(p.push(s.last()).drop_last() =~= p);
            assert(pairs_map(s).remove(k) =~= pairs_map(t).remove(k).insert(s.last().0@, s.last().1));
        }
    }
}

pub proof fn lemma_without_key_absent<V>(s: Seq<(String, V)>, k: Seq<char>, k2: Seq<char>)
    requires
        k2 == k || key_absent(s, k2),
    ensures
        key_absent(without_key(s, k), k2),
    decreases s.len(),
{
    if s.len() > 0 {
        let t = s.drop_last();
        assert(k2 == k || key_absent(t, k2)) by {
            if k2 != k {
                assert forall|j: int| 0 <= j < t.len() implies (#[trigger] t[j]).0@ != k2 by {
                    assert(t[j] == s[j]);
                }
            }
        }
        lemma_without_key_absent(t, k, k2);
        let p = without_key(t, k);
        if s.last().0@ != k {
            assert(s.last() == s[s.len() - 1]);
            assert forall|j: int| 0 <= j < p.push(s.last()).len() implies (#[trigger] p.push(
                s.last(),
            )[j]).0@ != k2 by {
                if j < p.len() {
                    assert(p.push(s.last())[j] == p[j]);
                }
            }
        }
    }
}

pub proof fn lemma_without_key_unique<V>(s: Seq<(String, V)>, k: Seq<char>)
    requires
        keys_unique(s),
    ensures
        keys_unique(without_key(s, k)),
        key_absent(without_key(s, k), k),
    decreases s.len(),
{
    lemma_without_key_absent(s, k, k);
    if s.len() > 0 {
        let t = s.drop_last();
        assert(keys_unique(t)) by {
            assert forall|i: int, j: int| 0 <= i < j < t.len() implies (#[trigger] t[i]).0@ != (
            #[trigger] t[j]).0@ by {
                assert(t[i] == s[i] && t[j] == s[j]);
            }
        }
        lemma_without_key_unique(t, k);
        let p = without_key(t, k);
        let last = s.last();
        if last.0@ != k {
            assert(key_absent(t, last.0@)) by {
                assert forall|j: int| 0 <= j < t.len() implies (#[trigger] t[j]).0@ != last.0@ by {
                    assert(t[j] == s[j]);
                    assert(s[j].0@ != s[s.len() - 1].0@);
                }
            }
            lemma_without_key_absent(t, k, last.0@);
            let q = p.push(last);
            assert forall|i: int, j: int| 0 <= i < j < q.len() implies (#[trigger] q[i]).0@ != (
            #[trigger] q[j]).0@ by {
                assert(q[i] == p[i]);
                if j < p.len() {
                    assert(q[j] == p[j]);
                }
            }
        }
    }
}

/// Every key of the list is a key of the map that it stands for.
pub proof fn lemma_pairs_map_has_key<V>(s: Seq<(String, V)>, j: int)
    requires
        0 <= j < s.len(),
    ensures
        pairs_map(s).contains_key(s[j].0@),
    decreases s.len(),
{
    if j < s.len() - 1 {
        lemma_pairs_map_has_key(s.drop_last(), j);
        assert(s.drop_last()[j] == s[j]);
    }
}

/// Every key of the map that the list stands for is held by a position of
/// the list.
pub proof fn lemma_pairs_map_key_held<V>(s: Seq<(String, V)>, k: Seq<char>)
    requires
        pairs_map(s).contains_key(k),
    ensures
        exists|j: int| 0 <= j < s.len() && (#[trigger] s[j]).0@ == k,
    decreases s.len(),
{
    if s.last().0@ != k {
        let t = s.drop_last();
        lemma_pairs_map_key_held(t, k);
        let j = choose|j: int| 0 <= j < t.len() && (#[trigger] t[j]).0@ == k;
        assert(s[j] == t[j]);
    } else {
        assert(s[s.len() - 1].0@ == k);
    }
}

/// Whether the key of a pair is `k`.
pub fn key_is<V>(e: &(String, V), k: &[char]) -> (r: bool)
    ensures
        r == (e.0@ == k@),
{
    let kv = chars_of(e.0.as_str());
    chars_eq(kv.as_slice(), k)
}

/// The last position that holds the key `k`, if any.
pub fn find_last<V>(s: &Vec<(String, V)>, k: &[char]) -> (r: Option<usize>)
    ensures
        match r {
            Some(i) => is_last_key(s@, i as int, k@) && pairs_map(s@).contains_key(k@) && pairs_map(
                s@,
            )[k@] == s@[i as int].1,
            None => key_absent(s@, k@) && !pairs_map(s@).contains_key(k@),
        },
{
    let mut i = s.len();
    while i > 0
        invariant
            i <= s@.len(),
            forall|j: int| i <= j < s@.len() ==> (#[trigger] s@[j]).0@ != k@,
        decreases i,
    {
        if key_is(&s[i - 1], k) {
            proof {
                lemma_pairs_map_last(s@, i - 1, k@);
            }
            return Some(i - 1);
        }
        i = i - 1;
    }
    proof {
        lemma_pairs_map_absent(s@, k@);
    }
    None
}

/// Drops every pair whose key is `k`.
pub fn remove_key<V>(s: &mut Vec<(String, V)>, k: &[char])
    ensures
        final(s)@ == without_key(old(s)@, k@),
        pairs_map(final(s)@) == pairs_map(old(s)@).remove(k@),
        keys_unique(old(s)@) ==> keys_unique(final(s)@),
{
    let ghost orig = s@;
    let mut rest: Vec<(String, V)> = Vec::new();
    std::mem::swap(s, &mut rest);
    let mut n: usize = 0;
    let total = rest.len();
    while rest.len() > 0
        invariant
            total == orig.len(),
            n + rest@.len() == total,
            rest@ == orig.skip(n as int),
            s@ == without_key(orig.take(n as int), k@),
        decreases rest@.len(),
    {
        let e = rest.remove(0);
        assert(orig.take(n + 1).drop_last() =~= orig.take(n as int));
        assert(orig.take(n + 1).last() == e);
        let keep = !key_is(&e, k);
        if keep {
            s.push(e);
        }
        n = n + 1;
        assert(rest@ =~= orig.skip(n as int));
    }
    assert(orig.take(n as int) =~= orig);
    proof {
        lemma_pairs_map_without(orig, k@);
        if keys_unique(orig) {
            lemma_without_key_unique(orig, k@);
        }
    }
}

/// Stores `v` under `k`, in place of whatever was stored under `k`.
pub fn put<V>(s: &mut Vec<(String, V)>, k: String, v: V)
    ensures
        pairs_map(final(s)@) == pairs_map(old(s)@).insert(k@, v),
        keys_unique(old(s)@) ==> keys_unique(final(s)@),
{
    let kv = chars_of(k.as_str());
    let ghost orig = s@;
    proof {
        lemma_without_key_absent(orig, k@, k@);
    }
    remove_key(s, kv.as_slice());
    let ghost before = s@;
    assert(key_absent(before, k@));
    s.push((k, v));
    assert(s@.drop_last() =~= before);
    assert forall|i: int, j: int|
        keys_unique(before) && 0 <= i < j < s@.len() implies (#[trigger] s@[i]).0@ != (
    #[trigger] s@[j]).0@ by {
        assert(s@[i] == before[i]);
        if j < before.len() {
            assert(s@[j] == before[j]);
        }
    }
    assert(pairs_map(old(s)@).remove(k@).insert(k@, v) =~= pairs_map(old(s)@).insert(k@, v));
}

} // verus!
