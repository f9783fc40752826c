//! The cache itself: a fixed-capacity memoizing wrapper around a callable.

use vstd::prelude::*;
use vstd::std_specs::cmp::PartialEqSpec;

use crate::model::{after_miss, distinct_keys, has_key, key_rank, promote_at, value_at};

verus! {

/// The key type's `==` answers logical equality exactly. This is the cache's
/// precondition on the key type: a key whose comparison disagrees with true
/// equality makes lookup meaningless.
pub open spec fn key_eq_exact<K: PartialEq>() -> bool {
    &&& K::obeys_eq_spec()
    &&& forall|a: K, b: K| #[trigger] a.eq_spec(&b) <==> a == b
}

/// Cloning a value of the type yields that very value, so a hit hands back
/// exactly what was cached.
pub open spec fn clone_exact<V: Clone>() -> bool {
    forall|a: V, b: V| #[trigger] cloned::<V>(a, b) ==> a == b
}

/// A bounded memoization cache around `func`.
///
/// The entries sit in one vector in recency order, the most recent first, so
/// an entry's recency rank is its position and the mapping and the order can
/// never disagree. A hit promotes its entry one rank toward the front; a
/// miss runs the callable, evicts the entry of highest rank when the cache
/// is full, and appends the fresh entry at the back.
#[verifier::reject_recursive_types(Ti)]
#[verifier::reject_recursive_types(To)]
pub struct Cached<Ti, To, F> where Ti: Eq + Copy, To: Clone, F: Fn(Ti) -> To {
    capacity: usize,
    func: F,
    entries: Vec<(Ti, To)>,
    invoked: Ghost<Seq<Ti>>,
}

impl<Ti, To, F> View for Cached<Ti, To, F> where Ti: Eq + Copy, To: Clone, F: Fn(Ti) -> To {
    type V = Seq<(Ti, To)>;

    /// The cached entries in recency order, most recent first.
    closed spec fn view(&self) -> Seq<(Ti, To)> {
        self.entries@
    }
}

impl<Ti, To, F> Cached<Ti, To, F> where Ti: Eq + Copy, To: Clone, F: Fn(Ti) -> To {
    /// The capacity fixed at construction.
    pub closed spec fn spec_capacity(&self) -> nat {
        self.capacity as nat
    }

    /// The wrapped callable.
    pub closed spec fn spec_func(&self) -> F {
        self.func
    }

    /// The inputs the callable has been run on, in order: one per miss,
    /// none on a hit.
    pub closed spec fn invocations(&self) -> Seq<Ti> {
        self.invoked@
    }

    /// Well-formedness: the key and value types behave, the keys are
    /// distinct, the entry count never exceeds the capacity, and every
    /// cached value is one the callable can return for its key.
    pub open spec fn wf(&self) -> bool {
        &&& key_eq_exact::<Ti>()
        &&& clone_exact::<To>()
        &&& distinct_keys(self@)
        &&& self@.len() <= self.spec_capacity()
        &&& forall|i: int|
            0 <= i < self@.len() ==> call_ensures(
                self.spec_func(),
                ((#[trigger] self@[i]).0,),
                self@[i].1,
            )
    }

    /// Creates a cache of fixed `capacity` around `func`. Capacity 0 is the
    /// valid degenerate cache that never retains anything.
    pub fn new(capacity: usize, func: F) -> (c: Self)
        requires
            key_eq_exact::<Ti>(),
            clone_exact::<To>(),
        ensures
            c.wf(),
            c@ == Seq::<(Ti, To)>::empty(),
            c.spec_capacity() == capacity,
            c.spec_func() == func,
            c.invocations() == Seq::<Ti>::empty(),
    {
        let entries: Vec<(Ti, To)> = Vec::with_capacity(capacity);
        Cached { capacity, func, entries, invoked: Ghost(Seq::empty()) }
    }

    /// Linear lookup of `x` among the entries: its rank when cached.
    fn position_of(&self, x: Ti) -> (r: Option<usize>)
        requires
            key_eq_exact::<Ti>(),
        ensures
            match r {
                Some(i) => i < self@.len() && self@[i as int].0 == x,
                None => !has_key(self@, x),
            },
    {
        let mut i: usize = 0;
        while i < self.entries.len()
            invariant
                key_eq_exact::<Ti>(),
                i <= self@.len(),
                forall|j: int| 0 <= j < i ==> (#[trigger] self@[j]).0 != x,
            decreases self@.len() - i,
        {
            if self.entries[i].0 == x {
                return Some(i);
            }
            i = i + 1;
        }
        None
    }

    /// The value for `x`.
    ///
    /// On a hit the cached value comes back, the entry moves one rank toward
    /// the front, and the callable is not run. On a miss the callable runs
    /// exactly once; when the cache is full its entry of highest rank is
    /// evicted, and the fresh entry enters at the back. Either way the
    /// result is one the callable can return for `x`.
    pub fn call(&mut self, x: Ti) -> (r: To)
        requires
            old(self).wf(),
            !has_key(old(self)@, x) ==> call_requires(old(self).spec_func(), (x,)),
        ensures
            final(self).wf(),
            final(self).spec_capacity() == old(self).spec_capacity(),
            final(self).spec_func() == old(self).spec_func(),
            call_ensures(old(self).spec_func(), (x,), r),
            has_key(old(self)@, x) ==> ({
                &&& r == value_at(old(self)@, x)
                &&& final(self)@ == promote_at(old(self)@, key_rank(old(self)@, x))
                &&& final(self).invocations() == old(self).invocations()
            }),
            !has_key(old(self)@, x) ==> ({
                &&& final(self)@ == after_miss(old(self)@, old(self).spec_capacity(), x, r)
                &&& final(self).invocations() == old(self).invocations().push(x)
            }),
    {
        let ghost s0 = self@;
        match self.position_of(x) {
            Some(i) => {
                proof {
                    assert(has_key(s0, x));
                    crate::model::lemma_rank_unique(s0, x);
                    assert(key_rank(s0, x) == i);
                }
                let val = self.entries[i].1.clone();
                proof {
                    assert(cloned::<To>(s0[i as int].1, val));
                    assert(val == s0[i as int].1);
                }
                if i > 0 {
                    let moved = self.entries.remove(i);
                    self.entries.insert(i - 1, moved);
                    proof {
                        let t = self@;
                        let p = promote_at(s0, i as int);
                        assert forall|j: int| 0 <= j < p.len() implies t[j] == p[j] by {
                            let u = s0.remove(i as int);
                            if j < i - 1 {
                                assert(t[j] == u[j]);
                            } else if j > i - 1 {
                                assert(t[j] == u[j - 1]);
                            }
                        }
                        assert(t =~= p);
                        crate::model::lemma_promote_preserves_cache(s0, i as int);
                    }
                }
                val
            },
            None => {
                let val = (self.func)(x);
                proof {
                    self.invoked@ = self.invoked@.push(x);
                }
                if self.capacity > 0 {
                    if self.entries.len() == self.capacity {
                        self.entries.pop();
                        proof {
                            assert(self@ =~= s0.drop_last());
                        }
                    }
                    let stored = val.clone();
                    proof {
                        assert(cloned::<To>(val, stored));
                        assert(stored == val);
                    }
                    self.entries.push((x, stored));
                    proof {
                        assert(self@ == after_miss(s0, old(self).spec_capacity(), x, val));
                        assert(distinct_keys(self@)) by {
                            assert forall|a: int, b: int|
                                0 <= a < b < self@.len() implies (#[trigger] self@[a]).0 != (
                            #[trigger] self@[b]).0 by {
                                if b == self@.len() - 1 {
                                    assert(self@[a] == s0[a]);
                                }
                            }
                        }
                    }
                }
                val
            },
        }
    }

    /// The number of cached entries.
    pub fn len(&self) -> (n: usize)
        ensures
            n == self@.len(),
    {
        self.entries.len()
    }

    /// The capacity fixed at construction.
    pub fn capacity(&self) -> (c: usize)
        ensures
            c == self.spec_capacity(),
    {
        self.capacity
    }

    /// The recency rank of `x`, 0 being the most recent, or `None` when `x`
    /// is not cached.
    pub fn rank(&self, x: Ti) -> (r: Option<usize>)
        requires
            self.wf(),
        ensures
            match r {
                Some(i) => has_key(self@, x) && i == key_rank(self@, x),
                None => !has_key(self@, x),
            },
    {
        match self.position_of(x) {
            Some(i) => {
                proof {
                    assert(has_key(self@, x));
                    crate::model::lemma_rank_unique(self@, x);
                }
                Some(i)
            },
            None => None,
        }
    }
}

} // verus!
