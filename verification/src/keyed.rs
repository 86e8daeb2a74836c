//! Maps kept as sequences of (key, value) pairs with distinct keys.
use vstd::prelude::*;

verus! {

/// No key occurs twice in `s`.
pub open spec fn keys_unique<V>(s: Seq<(Seq<char>, V)>) -> bool {
    forall|i: int, j: int| 0 <= i < j < s.len() ==> #[trigger] s[i].0 != #[trigger] s[j].0
}

/// Some pair of `s` has the key `k`.
pub open spec fn has_key<V>(s: Seq<(Seq<char>, V)>, k: Seq<char>) -> bool {
    exists|i: int| 0 <= i < s.len() && #[trigger] s[i].0 == k
}

/// The map that the pairs of `s` describe.
pub open spec fn pairs_map<V>(s: Seq<(Seq<char>, V)>) -> Map<Seq<char>, V> {
    Map::new(
        |k: Seq<char>| has_key(s, k),
        |k: Seq<char>| s[choose|i: int| 0 <= i < s.len() && #[trigger] s[i].0 == k].1,
    )
}

pub proof fn lemma_pairs_lookup<V>(s: Seq<(Seq<char>, V)>, i: int)
    requires
        keys_unique(s),
        0 <= i < s.len(),
    ensures
        pairs_map(s).contains_key(s[i].0),
        pairs_map(s)[s[i].0] == s[i].1,
{
    let k = s[i].0;
    assert(has_key(s, k));
    let j = choose|j: int| 0 <= j < s.len() && #[trigger] s[j].0 == k;
    if j != i {
        if j < i {
            assert(s[j].0 != s[i].0);
        } else {
            assert(s[i].0 != s[j].0);
        }
    }
}

pub proof fn lemma_pairs_absent<V>(s: Seq<(Seq<char>, V)>, k: Seq<char>)
    requires
        forall|i: int| 0 <= i < s.len() ==> #[trigger] s[i].0 != k,
    ensures
        !pairs_map(s).contains_key(k),
{
}

pub proof fn lemma_pairs_push<V>(s: Seq<(Seq<char>, V)>, k: Seq<char>, v: V)
    requires
        keys_unique(s),
        forall|i: int| 0 <= i < s.len() ==> #[trigger] s[i].0 != k,
    ensures
        keys_unique(s.push((k, v))),
        pairs_map(s.push((k, v))) == pairs_map(s).insert(k, v),
{
    let t = s.push((k, v));
    assert forall|i: int, j: int| 0 <= i < j < t.len() implies #[trigger] t[i].0 != #[trigger] t[j].0 by {
        if j == s.len() {
            assert(s[i].0 != k);
        } else {
            assert(s[i].0 != s[j].0);
        }
    }
    let m = pairs_map(t);
    let m0 = pairs_map(s).insert(k, v);
    assert forall|x: Seq<char>| #[trigger] m.contains_key(x) == m0.contains_key(x) by {
        if has_key(t, x) {
            let i = choose|i: int| 0 <= i < t.len() && #[trigger] t[i].0 == x;
            if i < s.len() {
                assert(s[i].0 == x);
                assert(has_key(s, x));
            }
        }
        if has_key(s, x) {
            let i = choose|i: int| 0 <= i < s.len() && #[trigger] s[i].0 == x;
            assert(t[i].0 == x);
        }
        if x == k {
            assert(t[s.len() as int].0 == k);
        }
    }
    assert forall|x: Seq<char>| #[trigger] m.contains_key(x) implies m[x] == m0[x] by {
        lemma_pairs_after(s, t, k, v, x);
    }
    assert(m =~= m0);
}

proof fn lemma_pairs_after<V>(s: Seq<(Seq<char>, V)>, t: Seq<(Seq<char>, V)>, k: Seq<char>, v: V, x: Seq<char>)
    requires
        keys_unique(s),
        forall|i: int| 0 <= i < s.len() ==> #[trigger] s[i].0 != k,
        t == s.push((k, v)),
        keys_unique(t),
        has_key(t, x),
    ensures
        pairs_map(t)[x] == pairs_map(s).insert(k, v)[x],
{
    let i = choose|i: int| 0 <= i < t.len() && #[trigger] t[i].0 == x;
    lemma_pairs_lookup(t, i);
    if i < s.len() {
        assert(s[i].0 == x);
        lemma_pairs_lookup(s, i);
    }
}

pub proof fn lemma_pairs_update<V>(s: Seq<(Seq<char>, V)>, i: int, v: V)
    requires
        keys_unique(s),
        0 <= i < s.len(),
    ensures
        keys_unique(s.update(i, (s[i].0, v))),
        pairs_map(s.update(i, (s[i].0, v))) == pairs_map(s).insert(s[i].0, v),
{
    let k = s[i].0;
    let t = s.update(i, (k, v));
    assert forall|a: int, b: int| 0 <= a < b < t.len() implies #[trigger] t[a].0 != #[trigger] t[b].0 by {
        assert(s[a].0 != s[b].0);
    }
    let m = pairs_map(t);
    let m0 = pairs_map(s).insert(k, v);
    assert forall|x: Seq<char>| #[trigger] m.contains_key(x) == m0.contains_key(x) by {
        if has_key(t, x) {
            let j = choose|j: int| 0 <= j < t.len() && #[trigger] t[j].0 == x;
            assert(s[j].0 == x);
        }
        if has_key(s, x) {
            let j = choose|j: int| 0 <= j < s.len() && #[trigger] s[j].0 == x;
            assert(t[j].0 == x);
        }
        if x == k {
            assert(t[i].0 == k);
        }
    }
    assert forall|x: Seq<char>| #[trigger] m.contains_key(x) implies m[x] == m0[x] by {
        let j = choose|j: int| 0 <= j < t.len() && #[trigger] t[j].0 == x;
        lemma_pairs_lookup(t, j);
        if j != i {
            assert(s[j].0 == x);
            lemma_pairs_lookup(s, j);
        }
    }
    assert(m =~= m0);
}

} // verus!
