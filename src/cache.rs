//! The bounded projection cache of an aggregate type, kept in `lru::LruCache`.
use lru::LruCache;
use vstd::prelude::*;

verus! {

/// `lru::LruCache`, held opaque: what it holds is named by `lru_entries`.
#[verifier::external_type_specification]
#[verifier::external_body]
#[verifier::reject_recursive_types(K)]
#[verifier::reject_recursive_types(V)]
#[verifier::reject_recursive_types(S)]
pub struct ExLruCache<K, V, S>(LruCache<K, V, S>);

/// The hasher that `lru::LruCache` uses by default, held opaque.
#[verifier::external_type_specification]
#[verifier::external_body]
pub struct ExDefaultHasher(lru::DefaultHasher);

/// An entry of the cache as plain values: aggregate id, last sequence number, projection.
pub type CacheLine = (Seq<char>, (i64, Seq<u8>));

/// What an `LruCache` of projections holds, most recently used first.
pub uninterp spec fn lru_entries(c: LruCache<String, (i64, Vec<u8>)>) -> Seq<CacheLine>;

/// The number of entries an `LruCache` of projections was made to hold.
pub uninterp spec fn lru_capacity(c: LruCache<String, (i64, Vec<u8>)>) -> nat;

/// The first position of key `k` in `s`, or -1 if it does not occur.
pub open spec fn key_position(s: Seq<CacheLine>, k: Seq<char>) -> int
    decreases s.len(),
{
    if s.len() == 0 {
        -1
    } else if s[0].0 == k {
        0
    } else {
        let p = key_position(s.drop_first(), k);
        if p < 0 {
            -1
        } else {
            p + 1
        }
    }
}

/// No key occurs twice and there are no more entries than the capacity.
pub open spec fn lru_wf(s: Seq<CacheLine>, cap: nat) -> bool {
    &&& s.len() <= cap
    &&& forall|i: int, j: int| 0 <= i < j < s.len() ==> s[i].0 != s[j].0
}

/// The entries after `put(k, v)`: an entry of `k` moves to the front with the new value;
/// a new key goes to the front, pushing out the least recently used entry when the
/// cache is full; a cache of capacity zero takes nothing new.
pub open spec fn entries_after_put(s: Seq<CacheLine>, cap: nat, k: Seq<char>, v: (i64, Seq<u8>)) -> Seq<CacheLine> {
    let p = key_position(s, k);
    if p >= 0 {
        seq![(k, v)] + s.remove(p)
    } else if cap == 0 {
        s
    } else if s.len() >= cap {
        seq![(k, v)] + s.drop_last()
    } else {
        seq![(k, v)] + s
    }
}

pub open spec fn value_view(v: (i64, Vec<u8>)) -> (i64, Seq<u8>) {
    (v.0, v.1@)
}

/// Relies on `LruCache::new`: an empty cache that holds at most `cap` entries.
#[verifier::external_body]
pub(crate) fn lru_new(cap: usize) -> (r: LruCache<String, (i64, Vec<u8>)>)
    ensures
        lru_entries(r) == Seq::<CacheLine>::empty(),
        lru_capacity(r) == cap,
{
    LruCache::new(cap)
}

/// Relies on `LruCache::get`: the value under `k`, whose entry becomes the most
/// recently used one.
#[verifier::external_body]
pub(crate) fn lru_get(c: &mut LruCache<String, (i64, Vec<u8>)>, k: &String) -> (r: Option<(i64, Vec<u8>)>)
    ensures
        lru_capacity(*final(c)) == lru_capacity(*old(c)),
        ({
            let s = lru_entries(*old(c));
            let p = key_position(s, k@);
            if p >= 0 {
                &&& r matches Some(v) && value_view(v) == s[p].1
                &&& lru_entries(*final(c)) == seq![s[p]] + s.remove(p)
            } else {
                &&& r is None
                &&& lru_entries(*final(c)) == s
            }
        }),
{
    c.get(k).cloned()
}

/// Relies on `LruCache::put`: stores `v` under `k` as the most recently used entry,
/// evicting the least recently used one when a new key finds the cache full.
#[verifier::external_body]
pub(crate) fn lru_put(c: &mut LruCache<String, (i64, Vec<u8>)>, k: String, v: (i64, Vec<u8>))
    ensures
        lru_capacity(*final(c)) == lru_capacity(*old(c)),
        lru_entries(*final(c)) == entries_after_put(lru_entries(*old(c)), lru_capacity(*old(c)), k@, value_view(v)),
{
    c.put(k, v);
}

/// Relies on `LruCache::pop`: removes the entry of `k` and hands back its value.
#[verifier::external_body]
pub(crate) fn lru_pop(c: &mut LruCache<String, (i64, Vec<u8>)>, k: &String) -> (r: Option<(i64, Vec<u8>)>)
    ensures
        lru_capacity(*final(c)) == lru_capacity(*old(c)),
        ({
            let s = lru_entries(*old(c));
            let p = key_position(s, k@);
            if p >= 0 {
                &&& r matches Some(v) && value_view(v) == s[p].1
                &&& lru_entries(*final(c)) == s.remove(p)
            } else {
                &&& r is None
                &&& lru_entries(*final(c)) == s
            }
        }),
{
    c.pop(k)
}

} // verus!

verus! {

/// What `s` holds under key `k`: the value of its first entry with that key.
pub open spec fn lookup_line(s: Seq<CacheLine>, k: Seq<char>) -> Option<(i64, Seq<u8>)> {
    let p = key_position(s, k);
    if p >= 0 {
        Some(s[p].1)
    } else {
        None
    }
}

proof fn lemma_key_position(s: Seq<CacheLine>, k: Seq<char>)
    ensures
        -1 <= key_position(s, k) < s.len(),
        key_position(s, k) >= 0 ==> s[key_position(s, k)].0 == k,
        key_position(s, k) < 0 ==> forall|j: int| 0 <= j < s.len() ==> s[j].0 != k,
        forall|j: int| 0 <= j < key_position(s, k) ==> s[j].0 != k,
    decreases s.len(),
{
    if s.len() > 0 && s[0].0 != k {
        let t = s.drop_first();
        lemma_key_position(t, k);
        assert forall|j: int| 0 < j < s.len() implies s[j] == t[j - 1] by {}
    }
}

/// With distinct keys, the lookup of `k` is the value at any index that holds `k`,
/// and nothing where no index does.
proof fn lemma_lookup_index(s: Seq<CacheLine>, k: Seq<char>)
    requires
        forall|i: int, j: int| 0 <= i < j < s.len() ==> s[i].0 != s[j].0,
    ensures
        forall|i: int| 0 <= i < s.len() && #[trigger] s[i].0 == k ==> lookup_line(s, k) == Some(s[i].1),
        (forall|i: int| 0 <= i < s.len() ==> s[i].0 != k) ==> lookup_line(s, k) is None,
{
    lemma_key_position(s, k);
}

/// Projections of the aggregates of one type by aggregate id, bounded in number,
/// the least recently used going first.
pub struct ProjectionCache {
    lru: LruCache<String, (i64, Vec<u8>)>,
}

impl ProjectionCache {
    /// The entries, most recently used first.
    pub closed spec fn entries(&self) -> Seq<CacheLine> {
        lru_entries(self.lru)
    }

    pub closed spec fn capacity(&self) -> nat {
        lru_capacity(self.lru)
    }

    pub open spec fn wf(&self) -> bool {
        lru_wf(self.entries(), self.capacity())
    }

    /// The last sequence number and projection cached for aggregate `id`.
    pub open spec fn cached(&self, id: Seq<char>) -> Option<(i64, Seq<u8>)> {
        lookup_line(self.entries(), id)
    }

    /// An empty cache for at most `capacity` aggregates.
    pub fn new(capacity: usize) -> (r: Self)
        ensures
            r.wf(),
            r.capacity() == capacity,
            forall|id: Seq<char>| #[trigger] r.cached(id) is None,
    {
        ProjectionCache { lru: lru_new(capacity) }
    }

    /// What is cached for `id`; the entry becomes the most recently used.
    pub fn lookup(&mut self, id: &String) -> (r: Option<(i64, Vec<u8>)>)
        requires
            old(self).wf(),
        ensures
            final(self).wf(),
            final(self).capacity() == old(self).capacity(),
            r matches Some(v) ==> old(self).cached(id@) == Some(value_view(v)),
            r is None ==> old(self).cached(id@) is None,
            forall|k: Seq<char>| #[trigger] final(self).cached(k) == old(self).cached(k),
    {
        let ghost s = self.entries();
        let r = lru_get(&mut self.lru, id);
        proof {
            lemma_key_position(s, id@);
            let f = self.entries();
            let p = key_position(s, id@);
            if p >= 0 {
                assert forall|i: int| 0 < i <= p implies f[i] == s[i - 1] by {}
                assert forall|i: int| p < i < s.len() implies f[i] == s[i] by {}
                assert(f[0] == s[p]);
                assert forall|a: int, b: int| 0 <= a < b < f.len() implies f[a].0 != f[b].0 by {
                    let ia = if a == 0 { p } else if a <= p { a - 1 } else { a };
                    let ib = if b <= p { b - 1 } else { b };
                    assert(f[a] == s[ia]);
                    assert(f[b] == s[ib]);
                }
                assert forall|k: Seq<char>| #[trigger] lookup_line(f, k) == lookup_line(s, k) by {
                    lemma_lookup_index(s, k);
                    lemma_lookup_index(f, k);
                    if exists|i: int| 0 <= i < s.len() && s[i].0 == k {
                        let i = choose|i: int| 0 <= i < s.len() && s[i].0 == k;
                        let fi = if i == p { 0 } else if i < p { i + 1 } else { i };
                        assert(f[fi] == s[i]);
                    } else {
                        assert forall|i: int| 0 <= i < f.len() implies f[i].0 != k by {
                            let si = if i == 0 { p } else if i <= p { i - 1 } else { i };
                            assert(f[i] == s[si]);
                        }
                    }
                }
            }
            lemma_lookup_index(s, id@);
        }
        r
    }
}


impl ProjectionCache {
    /// Caches `(seq, projection)` for `id` as its most recently used entry. Other
    /// entries stay as they were, but for the least recently used one, which leaves
    /// when a new id finds the cache full.
    pub fn store(&mut self, id: String, seq: i64, projection: Vec<u8>)
        requires
            old(self).wf(),
            old(self).capacity() > 0,
        ensures
            final(self).wf(),
            final(self).capacity() == old(self).capacity(),
            final(self).cached(id@) == Some((seq, projection@)),
            forall|k: Seq<char>|
                k != id@ && (#[trigger] final(self).cached(k)) is Some ==> final(self).cached(k) == old(self).cached(k),
            old(self).cached(id@) is Some || old(self).entries().len() < old(self).capacity() ==> forall|k: Seq<char>|
                k != id@ ==> #[trigger] final(self).cached(k) == old(self).cached(k),
            old(self).cached(id@) is None && old(self).entries().len() == old(self).capacity() ==> {
                &&& final(self).cached(old(self).entries().last().0) is None
                &&& forall|k: Seq<char>|
                    k != id@ && k != old(self).entries().last().0 ==> #[trigger] final(self).cached(k) == old(
                        self,
                    ).cached(k)
            },
    {
        let ghost s = self.entries();
        let ghost key = id@;
        let ghost v = (seq, projection@);
        lru_put(&mut self.lru, id, (seq, projection));
        proof {
            lemma_key_position(s, key);
            lemma_lookup_index(s, key);
            let f = self.entries();
            let p = key_position(s, key);
            let cap = self.capacity();
            assert(f[0] == (key, v));
            // The position in `s` of the entry at position `i > 0` of `f`.
            let src = |i: int| if p >= 0 && i > p { i } else { i - 1 };
            assert forall|i: int| 0 < i < f.len() implies 0 <= #[trigger] src(i) < s.len() && f[i] == s[src(i)]
                && s[src(i)].0 != key by {}
            assert forall|a: int, b: int| 0 <= a < b < f.len() implies f[a].0 != f[b].0 by {
                assert(f[b] == s[src(b)]);
                if a > 0 {
                    assert(f[a] == s[src(a)]);
                }
            }
            assert(f.len() <= cap);
            lemma_lookup_index(f, key);
            assert forall|k: Seq<char>| k != key && (#[trigger] lookup_line(f, k)) is Some implies lookup_line(f, k)
                == lookup_line(s, k) by {
                lemma_lookup_index(s, k);
                lemma_lookup_index(f, k);
                let i = choose|i: int| 0 <= i < f.len() && f[i].0 == k;
                assert(f[i] == s[src(i)]);
            }
            if p < 0 && s.len() == cap {
                let gone = s.last().0;
                lemma_lookup_index(f, gone);
                assert forall|i: int| 0 <= i < f.len() implies f[i].0 != gone by {
                    if i > 0 {
                        assert(f[i] == s[src(i)]);
                        assert(src(i) < s.len() - 1);
                    }
                }
                assert forall|k: Seq<char>| k != key && k != gone implies #[trigger] lookup_line(f, k) == lookup_line(
                    s,
                    k,
                ) by {
                    lemma_lookup_index(s, k);
                    lemma_lookup_index(f, k);
                    if exists|i: int| 0 <= i < s.len() && s[i].0 == k {
                        let i = choose|i: int| 0 <= i < s.len() && s[i].0 == k;
                        assert(i < s.len() - 1);
                        assert(src(i + 1) == i);
                        assert(f[i + 1] == s[i]);
                    } else {
                        assert forall|i: int| 0 <= i < f.len() implies f[i].0 != k by {
                            if i > 0 {
                                assert(f[i] == s[src(i)]);
                            }
                        }
                    }
                }
            }
            if p >= 0 || s.len() < cap {
                assert forall|k: Seq<char>| k != key implies #[trigger] lookup_line(f, k) == lookup_line(s, k) by {
                    lemma_lookup_index(s, k);
                    lemma_lookup_index(f, k);
                    if exists|i: int| 0 <= i < s.len() && s[i].0 == k {
                        let i = choose|i: int| 0 <= i < s.len() && s[i].0 == k;
                        let fi = if p >= 0 && i > p { i } else { i + 1 };
                        assert(src(fi) == i);
                        assert(f[fi] == s[i]);
                    } else {
                        assert forall|i: int| 0 <= i < f.len() implies f[i].0 != k by {
                            if i > 0 {
                                assert(f[i] == s[src(i)]);
                            }
                        }
                    }
                }
            }
        }
    }

    /// Puts back what was cached for `id` before: `previous`, or nothing.
    pub fn restore(&mut self, id: &String, previous: Option<(i64, Vec<u8>)>)
        requires
            old(self).wf(),
            old(self).capacity() > 0,
        ensures
            final(self).wf(),
            final(self).capacity() == old(self).capacity(),
            final(self).cached(id@) == match previous {
                Some(v) => Some(value_view(v)),
                None => None::<(i64, Seq<u8>)>,
            },
            forall|k: Seq<char>|
                k != id@ && (#[trigger] final(self).cached(k)) is Some ==> final(self).cached(k) == old(self).cached(k),
    {
        match previous {
            Some(v) => {
                self.store(id.clone(), v.0, v.1);
            },
            None => {
                let ghost s = self.entries();
                let _ = lru_pop(&mut self.lru, id);
                proof {
                    lemma_key_position(s, id@);
                    lemma_lookup_index(s, id@);
                    let f = self.entries();
                    let p = key_position(s, id@);
                    if p >= 0 {
                        let src = |i: int| if i >= p { i + 1 } else { i };
                        assert forall|i: int| 0 <= i < f.len() implies 0 <= #[trigger] src(i) < s.len() && f[i]
                            == s[src(i)] && s[src(i)].0 != id@ by {}
                        assert forall|a: int, b: int| 0 <= a < b < f.len() implies f[a].0 != f[b].0 by {
                            assert(f[a] == s[src(a)]);
                            assert(f[b] == s[src(b)]);
                        }
                        lemma_lookup_index(f, id@);
                        assert forall|k: Seq<char>| k != id@ && (#[trigger] lookup_line(f, k)) is Some implies lookup_line(
                            f,
                            k,
                        ) == lookup_line(s, k) by {
                            lemma_lookup_index(s, k);
                            lemma_lookup_index(f, k);
                            let i = choose|i: int| 0 <= i < f.len() && f[i].0 == k;
                            assert(f[i] == s[src(i)]);
                        }
                    }
                }
            },
        }
    }
}

} // verus!
