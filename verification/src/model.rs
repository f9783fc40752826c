//! The mathematical model of the cache: a sequence of `(key, value)` entries
//! in recency order, most recent first, together with the two transitions a
//! call can take (a hit's one-step promotion, a miss's eviction-and-insert)
//! and the laws that hold of them.

use vstd::prelude::*;

verus! {

/// No key appears twice among the entries.
pub open spec fn distinct_keys<K, V>(s: Seq<(K, V)>) -> bool {
    forall|i: int, j: int| 0 <= i < j < s.len() ==> (#[trigger] s[i]).0 != (#[trigger] s[j]).0
}

/// Whether `k` currently has an entry.
pub open spec fn has_key<K, V>(s: Seq<(K, V)>, k: K) -> bool {
    exists|i: int| 0 <= i < s.len() && (#[trigger] s[i]).0 == k
}

/// The recency rank of `k`: the position of its entry, rank 0 being the most
/// recent. Meaningful only when `k` has an entry and the keys are distinct.
pub open spec fn key_rank<K, V>(s: Seq<(K, V)>, k: K) -> int {
    choose|i: int| 0 <= i < s.len() && (#[trigger] s[i]).0 == k
}

/// The value cached for `k`.
pub open spec fn value_at<K, V>(s: Seq<(K, V)>, k: K) -> V {
    s[key_rank(s, k)].1
}

/// A hit on the entry at rank `i`: it swaps places with the entry one rank
/// more recent, a single-step promotion toward the front. A hit at rank 0
/// changes nothing.
pub open spec fn promote_at<K, V>(s: Seq<(K, V)>, i: int) -> Seq<(K, V)> {
    if 0 < i < s.len() {
        s.update(i - 1, s[i]).update(i, s[i - 1])
    } else {
        s
    }
}

/// The entries after a miss on `k` computed `v`, under capacity `cap`: with
/// capacity 0 nothing is retained; at capacity the entry of highest rank is
/// evicted; the fresh entry enters at the back, with no initial promotion.
pub open spec fn after_miss<K, V>(s: Seq<(K, V)>, cap: nat, k: K, v: V) -> Seq<(K, V)> {
    if cap == 0 {
        s
    } else if s.len() == cap {
        s.drop_last().push((k, v))
    } else {
        s.push((k, v))
    }
}

/// With distinct keys, the rank of a cached key is the one position that
/// holds it.
pub proof fn lemma_rank_unique<K, V>(s: Seq<(K, V)>, k: K)
    requires
        distinct_keys(s),
        has_key(s, k),
    ensures
        0 <= key_rank(s, k) < s.len(),
        s[key_rank(s, k)].0 == k,
        forall|j: int| 0 <= j < s.len() && (#[trigger] s[j]).0 == k ==> j == key_rank(s, k),
{
    let r = key_rank(s, k);
    assert(0 <= r < s.len() && s[r].0 == k);
}

/// Law: a hit's promotion only reorders. It keeps the entry count, keeps the
/// keys distinct, caches exactly the same keys with exactly the same values,
/// and moves the hit entry one rank toward the front.
pub proof fn lemma_promote_preserves_cache<K, V>(s: Seq<(K, V)>, i: int)
    requires
        distinct_keys(s),
    ensures
        promote_at(s, i).len() == s.len(),
        distinct_keys(promote_at(s, i)),
        forall|k: K| has_key(promote_at(s, i), k) <==> has_key(s, k),
        forall|k: K| has_key(s, k) ==> value_at(promote_at(s, i), k) == value_at(s, k),
        0 < i < s.len() ==> key_rank(promote_at(s, i), s[i].0) == i - 1,
{
    if 0 < i < s.len() {
        let t = promote_at(s, i);
        assert forall|j: int| 0 <= j < t.len() implies t[j] == (
            if j == i - 1 { s[i] } else if j == i { s[i - 1] } else { s[j] }
        ) by {}
        assert forall|k: K| has_key(t, k) implies has_key(s, k) by {
            let j = choose|j: int| 0 <= j < t.len() && (#[trigger] t[j]).0 == k;
            if j == i - 1 {
                assert(s[i].0 == k);
            } else if j == i {
                assert(s[i - 1].0 == k);
            } else {
                assert(s[j].0 == k);
            }
        }
        assert forall|k: K| has_key(s, k) implies has_key(t, k) by {
            let j = choose|j: int| 0 <= j < s.len() && (#[trigger] s[j]).0 == k;
            if j == i - 1 {
                assert(t[i].0 == k);
            } else if j == i {
                assert(t[i - 1].0 == k);
            } else {
                assert(t[j].0 == k);
            }
        }
        assert forall|k: K| has_key(s, k) implies value_at(t, k) == value_at(s, k) by {
            lemma_rank_unique(s, k);
            let j = key_rank(s, k);
            let jt = if j == i - 1 { i } else if j == i { i - 1 } else { j };
            assert(t[jt] == s[j]);
            lemma_rank_unique(t, k);
            assert(key_rank(t, k) == jt);
        }
        lemma_rank_unique(t, s[i].0);
        assert(t[i - 1].0 == s[i].0);
    }
}

/// Law: once a miss has cached `v` for `k`, the very next call on `k` is a
/// hit. The entry is present with value `v`, and a hit hands back the cached
/// value unchanged, so the second call returns exactly what the first did.
pub proof fn lemma_hit_after_miss<K, V>(s: Seq<(K, V)>, cap: nat, k: K, v: V)
    requires
        distinct_keys(s),
        !has_key(s, k),
        s.len() <= cap,
        cap > 0,
    ensures
        ({
            let s1 = after_miss(s, cap, k, v);
            &&& distinct_keys(s1)
            &&& has_key(s1, k)
            &&& value_at(s1, k) == v
            &&& value_at(promote_at(s1, key_rank(s1, k)), k) == v
        }),
{
    let s1 = after_miss(s, cap, k, v);
    lemma_miss_updates_entries(s, cap, k, v);
    lemma_rank_unique(s1, k);
    lemma_promote_preserves_cache(s1, key_rank(s1, k));
}

/// Law: what a miss does to the entries. The fresh key is cached with the
/// computed value at the back of the order; keys stay distinct; the count
/// stays within capacity. With room to spare every prior entry survives;
/// at capacity exactly the entry of highest rank is evicted (the least
/// recent under the one-step promotion model) and every other entry keeps
/// its value and its rank.
pub proof fn lemma_miss_updates_entries<K, V>(s: Seq<(K, V)>, cap: nat, k: K, v: V)
    requires
        distinct_keys(s),
        !has_key(s, k),
        s.len() <= cap,
        cap > 0,
    ensures
        ({
            let s1 = after_miss(s, cap, k, v);
            &&& distinct_keys(s1)
            &&& s1.len() <= cap
            &&& has_key(s1, k)
            &&& value_at(s1, k) == v
            &&& key_rank(s1, k) == s1.len() - 1
            &&& s.len() < cap ==> forall|k2: K|
                has_key(s, k2) ==> has_key(s1, k2) && value_at(s1, k2) == value_at(s, k2)
                    && key_rank(s1, k2) == key_rank(s, k2)
            &&& s.len() == cap ==> !has_key(s1, s.last().0)
            &&& s.len() == cap ==> forall|k2: K|
                has_key(s, k2) && k2 != s.last().0 ==> has_key(s1, k2) && value_at(s1, k2)
                    == value_at(s, k2) && key_rank(s1, k2) == key_rank(s, k2)
        }),
{
    let s1 = after_miss(s, cap, k, v);
    let kept = if s.len() == cap { s.drop_last() } else { s };
    assert(s1 == kept.push((k, v)));
    assert(forall|j: int| 0 <= j < kept.len() ==> kept[j] == s[j]);
    assert(s1[s1.len() - 1] == (k, v));
    assert(distinct_keys(s1)) by {
        assert forall|i: int, j: int| 0 <= i < j < s1.len() implies (#[trigger] s1[i]).0 != (
        #[trigger] s1[j]).0 by {
            if j == s1.len() - 1 {
                assert(s1[i] == s[i]);
                assert(s[i].0 != k);
            }
        }
    }
    assert(has_key(s1, k));
    lemma_rank_unique(s1, k);
    if s.len() == cap {
        let e = s.last().0;
        assert(s[s.len() - 1].0 == e);
        assert(e != k);
        assert(!has_key(s1, e)) by {
            assert forall|j: int| 0 <= j < s1.len() implies (#[trigger] s1[j]).0 != e by {
                if j < s1.len() - 1 {
                    assert(s1[j] == s[j]);
                    assert(s[j].0 != s[s.len() - 1].0);
                }
            }
        }
    }
    assert forall|k2: K|
        has_key(s, k2) && (s.len() < cap || k2 != s.last().0) implies has_key(s1, k2)
        && value_at(s1, k2) == value_at(s, k2) && key_rank(s1, k2) == key_rank(s, k2) by {
        lemma_rank_unique(s, k2);
        let j = key_rank(s, k2);
        assert(j < kept.len());
        assert(s1[j] == s[j]);
        assert(has_key(s1, k2));
        lemma_rank_unique(s1, k2);
        assert(key_rank(s1, k2) == j);
    }
}

/// Law: with capacity 0 nothing is ever retained, so no key is ever cached
/// and every call is a miss that runs the callable.
pub proof fn lemma_zero_capacity_retains_nothing<K, V>(s: Seq<(K, V)>, k: K, v: V)
    requires
        s.len() == 0,
    ensures
        after_miss(s, 0, k, v).len() == 0,
        !has_key(s, k),
{
}

/// Law: neither transition pushes the entry count past the capacity, so the
/// number of cached keys never exceeds it over any sequence of calls.
pub proof fn lemma_capacity_bound<K, V>(s: Seq<(K, V)>, cap: nat, k: K, v: V, i: int)
    requires
        s.len() <= cap,
    ensures
        after_miss(s, cap, k, v).len() <= cap,
        promote_at(s, i).len() == s.len(),
{
}

} // verus!
