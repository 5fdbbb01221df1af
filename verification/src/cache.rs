//! The memoizing cache: a bounded, recency-ordered mapping from validated
//! names to memoized outcomes.
//!
//! The cache is modelled as a sequence of `(name, entry)` pairs ordered from
//! most recently used (index 0) to least recently used (the last index). An
//! entry is `Some(text)` for a final description and `None` for a confirmed
//! absence; upstream failures are never stored. Both a hit and a fill move
//! the touched name to the front, and a fill into a full cache drops the last
//! pair first.
use vstd::prelude::*;

use crate::api::Alpha;

verus! {

/// A recency-ordered cache content: pairs of a name and its memoized entry,
/// most recently used first.
pub type EntrySeq = Seq<(Seq<char>, Option<Seq<char>>)>;

/// The characters of an optional text, entry by entry.
pub open spec fn opt_text_view(v: Option<String>) -> Option<Seq<char>> {
    match v {
        Some(s) => Some(s@),
        None => None,
    }
}

/// No name occurs twice.
pub open spec fn keys_distinct(es: EntrySeq) -> bool {
    forall|i: int, j: int| 0 <= i < j < es.len() ==> (#[trigger] es[i]).0 != (#[trigger] es[j]).0
}

/// Whether `k` is one of the cached names.
pub open spec fn has_key(es: EntrySeq, k: Seq<char>) -> bool {
    exists|i: int| 0 <= i < es.len() && (#[trigger] es[i]).0 == k
}

/// The position of `k`; meaningful only when `has_key(es, k)`.
pub open spec fn key_index(es: EntrySeq, k: Seq<char>) -> int {
    choose|i: int| 0 <= i < es.len() && (#[trigger] es[i]).0 == k
}

/// The entry stored under `k`; meaningful only when `has_key(es, k)`.
pub open spec fn stored_value(es: EntrySeq, k: Seq<char>) -> Option<Seq<char>> {
    es[key_index(es, k)].1
}

/// The cache after a hit on `k`: the pair moves to the most-recent end, the
/// front; everything else keeps its order. Meaningful only when
/// `has_key(es, k)`.
pub open spec fn touched(es: EntrySeq, k: Seq<char>) -> EntrySeq {
    seq![es[key_index(es, k)]] + es.remove(key_index(es, k))
}

/// The cache after the absent name `k` is filled with entry `v`: the new pair
/// stands at the front, and when the cache already holds `cap` pairs the
/// least recently used one, the last, is dropped first. Meaningful only when
/// `!has_key(es, k)`.
pub open spec fn inserted(es: EntrySeq, k: Seq<char>, v: Option<Seq<char>>, cap: nat) -> EntrySeq {
    if es.len() >= cap {
        seq![(k, v)] + es.drop_last()
    } else {
        seq![(k, v)] + es
    }
}

/// When names are distinct, `key_index` is the one position that holds `k`.
proof fn lemma_key_index(es: EntrySeq, k: Seq<char>)
    requires
        keys_distinct(es),
        has_key(es, k),
    ensures
        0 <= key_index(es, k) < es.len(),
        es[key_index(es, k)].0 == k,
        forall|j: int| 0 <= j < es.len() && (#[trigger] es[j]).0 == k ==> j == key_index(es, k),
{
    let i = key_index(es, k);
    assert(0 <= i < es.len() && es[i].0 == k);
    assert forall|j: int| 0 <= j < es.len() && (#[trigger] es[j]).0 == k implies j == i by {
        if j < i {
            assert(es[j].0 != es[i].0);
        } else if i < j {
            assert(es[i].0 != es[j].0);
        }
    }
}

/// Law: a hit changes only recency. The touched name moves to the front with
/// its entry unchanged, no pair is added or dropped, and every name keeps its
/// entry.
pub proof fn lemma_touched_wf(es: EntrySeq, k: Seq<char>)
    requires
        keys_distinct(es),
        has_key(es, k),
    ensures
        touched(es, k).len() == es.len(),
        keys_distinct(touched(es, k)),
        touched(es, k)[0].0 == k,
        touched(es, k)[0].1 == stored_value(es, k),
        forall|k2: Seq<char>| #[trigger] has_key(touched(es, k), k2) <==> has_key(es, k2),
        forall|k2: Seq<char>|
            #[trigger] has_key(es, k2) ==> stored_value(touched(es, k), k2) == stored_value(es, k2),
{
    let i = key_index(es, k);
    lemma_key_index(es, k);
    es.remove_ensures(i);
    let t = touched(es, k);
    assert(t.len() == es.len());
    // every position of `t` shows a pair of `es`
    assert forall|p: int| 0 <= p < t.len() implies exists|q: int|
        0 <= q < es.len() && es[q] == #[trigger] t[p] && (p == 0 <==> q == i) by {
        if p == 0 {
            assert(es[i] == t[p]);
        } else if p - 1 < i {
            assert(es[p - 1] == t[p]);
            assert(p - 1 != i);
        } else {
            assert(es[p] == t[p]);
            assert(p != i);
        }
    }
    assert(keys_distinct(t)) by {
        assert forall|p: int, q: int| 0 <= p < q < t.len() implies t[p].0 != t[q].0 by {
            let p2 = if p == 0 {
                i
            } else if p - 1 < i {
                p - 1
            } else {
                p as int
            };
            let q2 = if q - 1 < i {
                q - 1
            } else {
                q as int
            };
            assert(t[p] == es[p2]);
            assert(t[q] == es[q2]);
            assert(p2 != q2);
            if p2 < q2 {
                assert(es[p2].0 != es[q2].0);
            } else {
                assert(es[q2].0 != es[p2].0);
            }
        }
    }
    assert forall|k2: Seq<char>| #[trigger] has_key(t, k2) implies has_key(es, k2) by {
        let p = choose|p: int| 0 <= p < t.len() && (#[trigger] t[p]).0 == k2;
        if p == 0 {
            assert(es[i].0 == k2);
        } else if p - 1 < i {
            assert(es[p - 1].0 == k2);
        } else {
            assert(es[p].0 == k2);
        }
    }
    assert forall|k2: Seq<char>| #[trigger] has_key(es, k2) implies has_key(t, k2) by {
        let q = choose|q: int| 0 <= q < es.len() && (#[trigger] es[q]).0 == k2;
        if q == i {
            assert(t[0].0 == k2);
        } else if q < i {
            assert(t[q + 1] == es[q]);
            assert(t[q + 1].0 == k2);
        } else {
            assert(t[q] == es[q]);
            assert(t[q].0 == k2);
        }
    }
    assert forall|k2: Seq<char>| #[trigger] has_key(es, k2) implies stored_value(t, k2)
        == stored_value(es, k2) by {
        lemma_key_index(es, k2);
        lemma_key_index(t, k2);
        let q = key_index(es, k2);
        let p = if q == i {
            0
        } else if q < i {
            q + 1
        } else {
            q as int
        };
        assert(t[p] == es[q]);
        assert(t[p].0 == k2);
        assert(p == key_index(t, k2));
    }
}

/// Law: a fill stores the new pair at the front with exactly the computed
/// entry; every other surviving name keeps its entry.
pub proof fn lemma_inserted_wf(es: EntrySeq, k: Seq<char>, v: Option<Seq<char>>, cap: nat)
    requires
        keys_distinct(es),
        !has_key(es, k),
        es.len() <= cap,
        cap >= 1,
    ensures
        inserted(es, k, v, cap).len() <= cap,
        1 <= inserted(es, k, v, cap).len(),
        keys_distinct(inserted(es, k, v, cap)),
        inserted(es, k, v, cap)[0].0 == k,
        inserted(es, k, v, cap)[0].1 == v,
        has_key(inserted(es, k, v, cap), k),
        stored_value(inserted(es, k, v, cap), k) == v,
        forall|k2: Seq<char>|
            k2 != k && #[trigger] has_key(inserted(es, k, v, cap), k2) ==> has_key(es, k2)
                && stored_value(inserted(es, k, v, cap), k2) == stored_value(es, k2),
        es.len() < cap ==> forall|k2: Seq<char>|
            #[trigger] has_key(es, k2) ==> has_key(inserted(es, k, v, cap), k2),
{
    let t = inserted(es, k, v, cap);
    let base = if es.len() >= cap {
        es.drop_last()
    } else {
        es
    };
    assert(t == seq![(k, v)] + base);
    assert(t[0] == (k, v));
    assert(forall|p: int| 1 <= p < t.len() ==> #[trigger] t[p] == base[p - 1]);
    assert(forall|q: int| 0 <= q < base.len() ==> #[trigger] base[q] == es[q]);
    assert(keys_distinct(t)) by {
        assert forall|p: int, q: int| 0 <= p < q < t.len() implies t[p].0 != t[q].0 by {
            if p == 0 {
                assert(es[q - 1].0 == t[q].0);
                if t[q].0 == k {
                    assert(has_key(es, k));
                }
            } else {
                assert(t[p] == es[p - 1]);
                assert(t[q] == es[q - 1]);
                assert(es[p - 1].0 != es[q - 1].0);
            }
        }
    }
    assert(has_key(t, k)) by {
        assert(t[0].0 == k);
    }
    lemma_key_index(t, k);
    assert(key_index(t, k) == 0);
    assert forall|k2: Seq<char>| k2 != k && #[trigger] has_key(t, k2) implies has_key(es, k2)
        && stored_value(t, k2) == stored_value(es, k2) by {
        let p = choose|p: int| 0 <= p < t.len() && (#[trigger] t[p]).0 == k2;
        assert(p != 0);
        assert(t[p] == es[p - 1]);
        assert(es[p - 1].0 == k2);
        assert(has_key(es, k2));
        lemma_key_index(es, k2);
        lemma_key_index(t, k2);
        assert(key_index(es, k2) == p - 1);
        assert(key_index(t, k2) == p);
    }
    if es.len() < cap {
        assert forall|k2: Seq<char>| #[trigger] has_key(es, k2) implies has_key(t, k2) by {
            let q = choose|q: int| 0 <= q < es.len() && (#[trigger] es[q]).0 == k2;
            assert(t[q + 1] == es[q]);
            assert(t[q + 1].0 == k2);
        }
    }
}

/// Law: filling a full cache evicts exactly the least recently used name.
/// A name survives the fill iff it is the new one, or was cached and is not
/// the last (least recently used) pair's name.
pub proof fn lemma_eviction(es: EntrySeq, k: Seq<char>, v: Option<Seq<char>>, cap: nat)
    requires
        keys_distinct(es),
        !has_key(es, k),
        es.len() == cap,
        cap >= 1,
    ensures
        inserted(es, k, v, cap).len() == cap,
        forall|k2: Seq<char>|
            #[trigger] has_key(inserted(es, k, v, cap), k2) <==> (k2 == k || (has_key(es, k2)
                && k2 != es.last().0)),
{
    let t = inserted(es, k, v, cap);
    lemma_inserted_wf(es, k, v, cap);
    assert(t == seq![(k, v)] + es.drop_last());
    assert forall|k2: Seq<char>| #[trigger] has_key(t, k2) implies (k2 == k || (has_key(es, k2)
        && k2 != es.last().0)) by {
        if k2 != k {
            let p = choose|p: int| 0 <= p < t.len() && (#[trigger] t[p]).0 == k2;
            assert(p != 0);
            assert(t[p] == es[p - 1]);
            assert(es[p - 1].0 == k2);
            assert(p - 1 < es.len() - 1);
            assert(es[p - 1].0 != es[es.len() - 1].0);
        }
    }
    assert forall|k2: Seq<char>| k2 == k || (has_key(es, k2) && k2 != es.last().0) implies
        #[trigger] has_key(t, k2) by {
        if k2 == k {
            assert(t[0].0 == k);
        } else {
            let q = choose|q: int| 0 <= q < es.len() && (#[trigger] es[q]).0 == k2;
            assert(q != es.len() - 1);
            assert(t[q + 1] == es[q]);
            assert(t[q + 1].0 == k2);
        }
    }
}

/// Law: memoization is stable. Filling an absent name with a computed entry
/// and then hitting that name finds exactly the filled entry, so a repeated
/// lookup is answered from the cache with the same outcome.
pub proof fn lemma_fill_then_hit(es: EntrySeq, k: Seq<char>, v: Option<Seq<char>>, cap: nat)
    requires
        keys_distinct(es),
        !has_key(es, k),
        es.len() <= cap,
        cap >= 1,
    ensures
        has_key(inserted(es, k, v, cap), k),
        stored_value(inserted(es, k, v, cap), k) == v,
        has_key(touched(inserted(es, k, v, cap), k), k),
        stored_value(touched(inserted(es, k, v, cap), k), k) == v,
{
    lemma_inserted_wf(es, k, v, cap);
    lemma_touched_wf(inserted(es, k, v, cap), k);
}

#[verifier::external_type_specification]
#[verifier::external_body]
#[verifier::reject_recursive_types(K)]
#[verifier::reject_recursive_types(V)]
#[verifier::reject_recursive_types(S)]
pub struct ExLruCache<K, V, S>(lru::LruCache<K, V, S>);

/// The recency-ordered store behind the cache, hashed with std's seeded
/// default hasher.
pub type LruStore = lru::LruCache<String, Option<String>, std::collections::hash_map::RandomState>;

/// Names the content of a recency-ordered store: its pairs from most recently
/// used to least recently used.
pub uninterp spec fn lru_entries(c: LruStore) -> EntrySeq;

/// Names the bound the store was created with.
pub uninterp spec fn lru_bound(c: LruStore) -> nat;

/// Relies on lru::LruCache::new: creates an empty store that holds at most
/// `cap` pairs.
#[verifier::external_body]
fn lru_new(cap: usize) -> (c: LruStore)
    requires
        cap >= 1,
    ensures
        lru_entries(c) == Seq::<(Seq<char>, Option<Seq<char>>)>::empty(),
        lru_bound(c) == cap as nat,
{
    lru::LruCache::with_hasher(
        std::num::NonZeroUsize::new(cap).unwrap(),
        std::collections::hash_map::RandomState::new(),
    )
}

/// Relies on lru::LruCache::get: returns the value stored under the key,
/// moving that key to the most-recently-used position; an absent key leaves
/// the store unchanged.
#[verifier::external_body]
fn lru_get(c: &mut LruStore, k: &String) -> (r: Option<Option<String>>)
    ensures
        lru_bound(*final(c)) == lru_bound(*old(c)),
        match r {
            Some(v) => has_key(lru_entries(*old(c)), k@) && opt_text_view(v) == stored_value(
                lru_entries(*old(c)),
                k@,
            ) && lru_entries(*final(c)) == touched(lru_entries(*old(c)), k@),
            None => !has_key(lru_entries(*old(c)), k@) && lru_entries(*final(c)) == lru_entries(
                *old(c),
            ),
        },
{
    c.get(k).cloned()
}

/// Relies on lru::LruCache::put: inserts the pair at the most-recently-used
/// position, evicting the least-recently-used pair when the store is full.
#[verifier::external_body]
fn lru_put(c: &mut LruStore, k: String, v: Option<String>)
    requires
        !has_key(lru_entries(*old(c)), k@),
        lru_entries(*old(c)).len() <= lru_bound(*old(c)),
    ensures
        lru_bound(*final(c)) == lru_bound(*old(c)),
        lru_entries(*final(c)) == inserted(
            lru_entries(*old(c)),
            k@,
            opt_text_view(v),
            lru_bound(*old(c)),
        ),
{
    c.put(k, v);
}

/// Bounded-capacity, recency-ordered store of memoized lookup outcomes,
/// keyed by validated names.
pub struct Cache {
    inner: LruStore,
}

impl Cache {
    /// The cached pairs, most recently used first.
    pub closed spec fn entries(self) -> EntrySeq {
        lru_entries(self.inner)
    }

    /// The fixed maximum number of pairs.
    pub closed spec fn capacity(self) -> nat {
        lru_bound(self.inner)
    }

    /// The cache never outgrows its capacity and holds each name at most once.
    pub open spec fn wf(self) -> bool {
        &&& self.capacity() >= 1
        &&& self.entries().len() <= self.capacity()
        &&& keys_distinct(self.entries())
    }

    /// An empty cache of the given capacity; a capacity below one is rejected
    /// by every caller.
    pub fn new(capacity: usize) -> (c: Cache)
        requires
            capacity >= 1,
        ensures
            c.wf(),
            c.entries() == Seq::<(Seq<char>, Option<Seq<char>>)>::empty(),
            c.capacity() == capacity as nat,
    {
        Cache { inner: lru_new(capacity) }
    }

    /// The single-flight memoizing operation: a cached name is answered
    /// immediately, marking it most recently used, without running `f`; an
    /// absent name runs `f` once, stores a successful outcome (evicting the
    /// least recently used pair when full), and propagates a failure without
    /// storing anything.
    pub fn get_or_calculate<E, F>(&mut self, k: &Alpha, f: F) -> (r: Result<Option<String>, E>) where
        F: FnOnce() -> Result<Option<String>, E>,

        requires
            old(self).wf(),
            call_requires(f, ()),
        ensures
            final(self).wf(),
            final(self).capacity() == old(self).capacity(),
            match r {
                Ok(v) => if has_key(old(self).entries(), k@) {
                    opt_text_view(v) == stored_value(old(self).entries(), k@)
                        && final(self).entries() == touched(old(self).entries(), k@)
                } else {
                    call_ensures(f, (), Ok(v)) && final(self).entries() == inserted(
                        old(self).entries(),
                        k@,
                        opt_text_view(v),
                        old(self).capacity(),
                    )
                },
                Err(e) => !has_key(old(self).entries(), k@) && call_ensures(f, (), Err(e))
                    && final(self).entries() == old(self).entries(),
            },
    {
        let key: String = k.as_str().to_owned();
        match lru_get(&mut self.inner, &key) {
            Some(v) => {
                proof {
                    lemma_touched_wf(old(self).entries(), k@);
                }
                Ok(v)
            },
            None => match f() {
                Ok(v) => {
                    let stored: Option<String> = match &v {
                        Some(s) => Some(s.clone()),
                        None => None,
                    };
                    proof {
                        lemma_inserted_wf(
                            old(self).entries(),
                            k@,
                            opt_text_view(stored),
                            old(self).capacity(),
                        );
                    }
                    lru_put(&mut self.inner, key, stored);
                    Ok(v)
                },
                Err(e) => Err(e),
            },
        }
    }
}

} // verus!
