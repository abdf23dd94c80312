use lru::LruCache;
use std::num::NonZeroUsize;
use std::sync::Arc;
use vstd::prelude::*;

verus! {

broadcast use vstd::seq_lib::group_seq_properties;

/// A least-recently-used map of the `lru` crate.
#[verifier::external_type_specification]
#[verifier::external_body]
#[verifier::reject_recursive_types(K)]
#[verifier::reject_recursive_types(V)]
#[verifier::reject_recursive_types(S)]
pub struct ExLruCache<K, V, S>(LruCache<K, V, S>);

/// The hasher state of an `lru` cache.
#[verifier::external_type_specification]
#[verifier::external_body]
pub struct ExLruHasher(lru::DefaultHasher);

/// The entries of an index, most recently used first: each key with its slot.
pub uninterp spec fn lru_entries(c: LruCache<String, usize>) -> Seq<(Seq<char>, usize)>;

/// The capacity an index was made with.
pub uninterp spec fn lru_capacity(c: LruCache<String, usize>) -> nat;

/// The keys of `e`, in order.
pub open spec fn keys_of<V>(e: Seq<(Seq<char>, V)>) -> Seq<Seq<char>> {
    e.map_values(|x: (Seq<char>, V)| x.0)
}

/// Position of `k` in `keys`, searching from the back; -1 when absent.
pub open spec fn position_in(keys: Seq<Seq<char>>, k: Seq<char>) -> int
    decreases keys.len(),
{
    if keys.len() == 0 {
        -1
    } else if keys.last() == k {
        keys.len() - 1
    } else {
        position_in(keys.drop_last(), k)
    }
}

/// Entries `e` of a cache with capacity `cap` after `k` is put with value `v`:
/// `k` becomes the most recently used; an entry it replaces goes, and when
/// `k` is new and the cache is full, the least recently used entry goes.
pub open spec fn after_put<V>(e: Seq<(Seq<char>, V)>, cap: nat, k: Seq<char>, v: V) -> Seq<
    (Seq<char>, V),
> {
    let p = position_in(keys_of(e), k);
    if p >= 0 {
        seq![(k, v)] + e.remove(p)
    } else if e.len() >= cap {
        seq![(k, v)] + e.drop_last()
    } else {
        seq![(k, v)] + e
    }
}

/// Entries `e` after a lookup of `k`: a key found becomes the most recently used.
pub open spec fn after_get<V>(e: Seq<(Seq<char>, V)>, k: Seq<char>) -> Seq<(Seq<char>, V)> {
    let p = position_in(keys_of(e), k);
    if p >= 0 {
        seq![e[p]] + e.remove(p)
    } else {
        e
    }
}

/// The value stored under `k` in `e`.
pub open spec fn found<V>(e: Seq<(Seq<char>, V)>, k: Seq<char>) -> Option<V> {
    let p = position_in(keys_of(e), k);
    if p >= 0 {
        Some(e[p].1)
    } else {
        None
    }
}

/// Relies on `lru::LruCache::new`: an empty cache that holds at most `cap` entries.
#[verifier::external_body]
fn index_with_capacity(cap: usize) -> (r: LruCache<String, usize>)
    requires
        cap > 0,
    ensures
        lru_entries(r) == Seq::<(Seq<char>, usize)>::empty(),
        lru_capacity(r) == cap,
{
    LruCache::new(NonZeroUsize::new(cap).unwrap())
}

/// Relies on `lru::LruCache::get`: the value of `k`, which becomes the most
/// recently used entry.
#[verifier::external_body]
fn index_get(c: &mut LruCache<String, usize>, k: &str) -> (r: Option<usize>)
    ensures
        r == found(lru_entries(*old(c)), k@),
        lru_entries(*final(c)) == after_get(lru_entries(*old(c)), k@),
        lru_capacity(*final(c)) == lru_capacity(*old(c)),
{
    c.get(k).copied()
}

/// Relies on `lru::LruCache::peek_lru`: the value of the least recently used
/// entry, without changing the order.
#[verifier::external_body]
fn index_peek_lru(c: &LruCache<String, usize>) -> (r: Option<usize>)
    ensures
        lru_entries(*c).len() == 0 ==> r is None,
        lru_entries(*c).len() > 0 ==> r == Some(lru_entries(*c).last().1),
{
    c.peek_lru().map(|(_, v)| *v)
}

/// Relies on `lru::LruCache::put`: stores `v` under `k` as the most recently
/// used entry, evicting the least recently used one when `k` is new and the
/// cache is full.
#[verifier::external_body]
fn index_put(c: &mut LruCache<String, usize>, k: String, v: usize)
    ensures
        lru_entries(*final(c)) == after_put(lru_entries(*old(c)), lru_capacity(*old(c)), k@, v),
        lru_capacity(*final(c)) == lru_capacity(*old(c)),
{
    c.put(k, v);
}

/// Relies on `Arc::clone`: another handle to the same value.
#[verifier::external_body]
fn share<T>(a: &Arc<T>) -> (r: Arc<T>)
    ensures
        r == *a,
{
    Arc::clone(a)
}

proof fn lemma_position(keys: Seq<Seq<char>>, k: Seq<char>)
    ensures
        -1 <= position_in(keys, k) < keys.len(),
        position_in(keys, k) >= 0 ==> keys[position_in(keys, k)] == k,
        position_in(keys, k) == -1 <==> forall|i: int| 0 <= i < keys.len() ==> keys[i] != k,
        keys.no_duplicates() ==> forall|i: int|
            0 <= i < keys.len() && keys[i] == k ==> position_in(keys, k) == i,
    decreases keys.len(),
{
    if keys.len() > 0 {
        let t = keys.drop_last();
        lemma_position(t, k);
        assert(forall|i: int| 0 <= i < t.len() ==> t[i] == keys[i]);
    }
}

/// A cache of compiled modules keyed by content hash, evicting the least
/// recently used entry beyond its capacity.
///
/// The recency order lives in an `lru` index that maps each key to a slot of
/// `modules`; a slot is reused when its entry is evicted.
pub struct ModuleCache<T> {
    index: LruCache<String, usize>,
    modules: Vec<Arc<T>>,
    capacity: usize,
}

impl<T> ModuleCache<T> {
    /// Keys and modules, most recently used first.
    pub closed spec fn entries(&self) -> Seq<(Seq<char>, Arc<T>)> {
        lru_entries(self.index).map_values(
            |e: (Seq<char>, usize)| (e.0, self.modules@[e.1 as int]),
        )
    }

    /// Most number of entries held.
    pub closed spec fn capacity(&self) -> nat {
        self.capacity as nat
    }

    /// What callers may rely on: a positive capacity, no more entries than
    /// that, and each key at most once.
    pub open spec fn bounded(&self) -> bool {
        &&& self.capacity() > 0
        &&& self.entries().len() <= self.capacity()
        &&& keys_of(self.entries()).no_duplicates()
    }

    /// A well-formed cache is bounded.
    pub proof fn lemma_wf_bounded(&self)
        requires
            self.wf(),
        ensures
            self.bounded(),
    {
        assert(keys_of(self.entries()) =~= keys_of(lru_entries(self.index)));
    }

    pub closed spec fn wf(&self) -> bool {
        let e = lru_entries(self.index);
        &&& self.capacity > 0
        &&& lru_capacity(self.index) == self.capacity
        &&& keys_of(e).no_duplicates()
        &&& e.len() <= self.capacity
        &&& self.modules@.len() == e.len()
        &&& forall|i: int| 0 <= i < e.len() ==> e[i].1 < e.len()
        &&& forall|i: int, j: int| 0 <= i < e.len() && 0 <= j < e.len() && i != j ==> e[i].1 != e[j].1
    }

    /// An empty cache that holds at most `cap` modules.
    pub fn new_with_capacity(cap: usize) -> (r: ModuleCache<T>)
        requires
            cap > 0,
        ensures
            r.wf(),
            r.bounded(),
            r.capacity() == cap,
            r.entries() == Seq::<(Seq<char>, Arc<T>)>::empty(),
    {
        let r = ModuleCache { index: index_with_capacity(cap), modules: Vec::new(), capacity: cap };
        assert(r.entries() =~= Seq::<(Seq<char>, Arc<T>)>::empty());
        assert(keys_of(lru_entries(r.index)) =~= Seq::<Seq<char>>::empty());
        proof {
            r.lemma_wf_bounded();
        }
        r
    }

    /// An empty cache that holds at most 128 modules.
    pub fn new() -> (r: ModuleCache<T>)
        ensures
            r.wf(),
            r.bounded(),
            r.capacity() == 128,
            r.entries() == Seq::<(Seq<char>, Arc<T>)>::empty(),
    {
        ModuleCache::new_with_capacity(128)
    }

    /// The module stored under `key`, which becomes the most recently used.
    pub fn get(&mut self, key: &str) -> (r: Option<Arc<T>>)
        requires
            old(self).wf(),
        ensures
            final(self).wf(),
            final(self).capacity() == old(self).capacity(),
            final(self).bounded(),
            r == found(old(self).entries(), key@),
            final(self).entries() == after_get(old(self).entries(), key@),
    {
        let ghost e0 = lru_entries(self.index);
        let ghost old_entries = self.entries();
        proof {
            assert(keys_of(old_entries) =~= keys_of(e0));
            lemma_position(keys_of(e0), key@);
        }
        let slot = index_get(&mut self.index, key);
        let ghost e1 = lru_entries(self.index);
        proof {
            let p = position_in(keys_of(e0), key@);
            if p >= 0 {
                assert(e1 =~= seq![e0[p]] + e0.remove(p));
                assert(keys_of(e1) =~= seq![keys_of(e0)[p]] + keys_of(e0).remove(p));
                assert(keys_of(e1).no_duplicates()) by {
                    assert forall|i: int, j: int|
                        0 <= i < e1.len() && 0 <= j < e1.len() && i != j implies keys_of(e1)[i]
                        != keys_of(e1)[j] by {
                        let si = if i == 0 { p } else if i - 1 < p { i - 1 } else { i };
                        let sj = if j == 0 { p } else if j - 1 < p { j - 1 } else { j };
                        assert(e1[i] == e0[si] && e1[j] == e0[sj]);
                    }
                }
                assert forall|i: int, j: int|
                    0 <= i < e1.len() && 0 <= j < e1.len() && i != j implies e1[i].1 != e1[j].1 by {
                    let si = if i == 0 { p } else if i - 1 < p { i - 1 } else { i };
                    let sj = if j == 0 { p } else if j - 1 < p { j - 1 } else { j };
                    assert(e1[i] == e0[si] && e1[j] == e0[sj]);
                }
                assert forall|i: int| 0 <= i < e1.len() implies e1[i].1 < e1.len() by {
                    let si = if i == 0 { p } else if i - 1 < p { i - 1 } else { i };
                    assert(e1[i] == e0[si]);
                }
                assert(self.entries() =~= after_get(old_entries, key@));
            } else {
                assert(self.entries() =~= after_get(old_entries, key@));
            }
        }
        proof {
            self.lemma_wf_bounded();
        }
        match slot {
            Some(s) => Some(share(&self.modules[s])),
            None => None,
        }
    }

    /// Stores `module` under `key` as the most recently used entry. A new key
    /// in a full cache evicts the least recently used entry.
    pub fn put(&mut self, key: String, module: Arc<T>)
        requires
            old(self).wf(),
        ensures
            final(self).wf(),
            final(self).capacity() == old(self).capacity(),
            final(self).entries() == after_put(
                old(self).entries(),
                old(self).capacity(),
                key@,
                module,
            ),
            final(self).bounded(),
            found(final(self).entries(), key@) == Some(module),
    {
        proof {
            self.lemma_wf_bounded();
            lemma_put_then_get(self.entries(), self.capacity as nat, key@, module);
        }
        let ghost old_entries = self.entries();
        let ghost e0 = lru_entries(self.index);
        proof {
            assert(keys_of(old_entries) =~= keys_of(e0));
            lemma_position(keys_of(e0), key@);
        }
        match index_get(&mut self.index, key.as_str()) {
            Some(slot) => {
                let ghost e1 = lru_entries(self.index);
                let ghost p = position_in(keys_of(e0), key@);
                self.modules.set(slot, module);
                proof {
                    assert(e1 =~= seq![e0[p]] + e0.remove(p));
                    assert(keys_of(e1) =~= seq![keys_of(e0)[p]] + keys_of(e0).remove(p));
                    assert forall|i: int, j: int|
                        0 <= i < e1.len() && 0 <= j < e1.len() && i != j implies keys_of(e1)[i]
                        != keys_of(e1)[j] && e1[i].1 != e1[j].1 by {
                        let si = if i == 0 { p } else if i - 1 < p { i - 1 } else { i };
                        let sj = if j == 0 { p } else if j - 1 < p { j - 1 } else { j };
                        assert(e1[i] == e0[si] && e1[j] == e0[sj]);
                    }
                    assert forall|i: int| 0 <= i < e1.len() implies e1[i].1 < e1.len() by {
                        let si = if i == 0 { p } else if i - 1 < p { i - 1 } else { i };
                        assert(e1[i] == e0[si]);
                    }
                    assert(self.entries() =~= after_put(
                        old_entries,
                        self.capacity as nat,
                        key@,
                        module,
                    ));
                }
            },
            None => {
                let n = self.modules.len();
                if n < self.capacity {
                    self.modules.push(module);
                    index_put(&mut self.index, key, n);
                    proof {
                        let e1 = lru_entries(self.index);
                        assert(e1 =~= seq![(key@, n)] + e0);
                        assert(keys_of(e1) =~= seq![key@] + keys_of(e0));
                        assert forall|i: int, j: int|
                            0 <= i < e1.len() && 0 <= j < e1.len() && i != j implies keys_of(
                                e1,
                            )[i] != keys_of(e1)[j] && e1[i].1 != e1[j].1 by {
                            if i > 0 && j > 0 {
                                assert(e1[i] == e0[i - 1] && e1[j] == e0[j - 1]);
                            } else if i > 0 {
                                assert(e1[i] == e0[i - 1]);
                                assert(keys_of(e0)[i - 1] == e0[i - 1].0);
                            } else {
                                assert(e1[j] == e0[j - 1]);
                                assert(keys_of(e0)[j - 1] == e0[j - 1].0);
                            }
                        }
                        assert forall|i: int| 0 <= i < e1.len() implies e1[i].1 < e1.len() by {
                            if i > 0 {
                                assert(e1[i] == e0[i - 1]);
                            }
                        }
                        assert(self.entries() =~= after_put(
                            old_entries,
                            self.capacity as nat,
                            key@,
                            module,
                        ));
                    }
                } else {
                    let slot = match index_peek_lru(&self.index) {
                        Some(s) => s,
                        None => 0,
                    };
                    let ghost last = e0.len() - 1;
                    self.modules.set(slot, module);
                    index_put(&mut self.index, key, slot);
                    proof {
                        let e1 = lru_entries(self.index);
                        assert(slot == e0[last].1);
                        assert(e1 =~= seq![(key@, slot)] + e0.drop_last());
                        assert(keys_of(e1) =~= seq![key@] + keys_of(e0).drop_last());
                        assert forall|i: int, j: int|
                            0 <= i < e1.len() && 0 <= j < e1.len() && i != j implies keys_of(
                                e1,
                            )[i] != keys_of(e1)[j] && e1[i].1 != e1[j].1 by {
                            if i > 0 && j > 0 {
                                assert(e1[i] == e0[i - 1] && e1[j] == e0[j - 1]);
                            } else if i > 0 {
                                assert(e1[i] == e0[i - 1]);
                                assert(keys_of(e0)[i - 1] == e0[i - 1].0);
                            } else {
                                assert(e1[j] == e0[j - 1]);
                                assert(keys_of(e0)[j - 1] == e0[j - 1].0);
                            }
                        }
                        assert forall|i: int| 0 <= i < e1.len() implies e1[i].1 < e1.len() by {
                            if i > 0 {
                                assert(e1[i] == e0[i - 1]);
                            }
                        }
                        assert forall|i: int| 0 <= i < e0.len() - 1 implies self.modules@[#[trigger] e0[i].1 as int]
                            == old(self).modules@[e0[i].1 as int] by {
                            assert(e0[i].1 != e0[last].1);
                        }
                        assert(self.entries() =~= after_put(
                            old_entries,
                            self.capacity as nat,
                            key@,
                            module,
                        ));
                    }
                }
            },
        }
        proof {
            self.lemma_wf_bounded();
        }
    }
}

/// After `put(k, v)`, a lookup of `k` finds `v`, and a cache that held at
/// most `cap` entries still does.
pub proof fn lemma_put_then_get<V>(e: Seq<(Seq<char>, V)>, cap: nat, k: Seq<char>, v: V)
    requires
        keys_of(e).no_duplicates(),
        e.len() <= cap,
        cap > 0,
    ensures
        found(after_put(e, cap, k, v), k) == Some(v),
        after_put(e, cap, k, v).len() <= cap,
        keys_of(after_put(e, cap, k, v)).no_duplicates(),
{
    let keys = keys_of(e);
    lemma_position(keys, k);
    let p = position_in(keys, k);
    let e1 = after_put(e, cap, k, v);
    let rest = if p >= 0 {
        e.remove(p)
    } else if e.len() >= cap {
        e.drop_last()
    } else {
        e
    };
    assert(e1 =~= seq![(k, v)] + rest);
    assert forall|i: int| 0 <= i < rest.len() implies rest[i].0 != k && exists|j: int|
        0 <= j < e.len() && j != p && rest[i] == e[j] by {
        let j = if p >= 0 && i >= p { i + 1 } else { i };
        assert(rest[i] == e[j]);
        assert(keys[j] == e[j].0);
    }
    assert forall|i: int, j: int|
        0 <= i < e1.len() && 0 <= j < e1.len() && i != j implies keys_of(e1)[i] != keys_of(
            e1,
        )[j] by {
        if i > 0 && j > 0 {
            let si = if p >= 0 && i - 1 >= p { i } else { i - 1 };
            let sj = if p >= 0 && j - 1 >= p { j } else { j - 1 };
            assert(e1[i] == e[si] && e1[j] == e[sj]);
            assert(keys[si] == e[si].0 && keys[sj] == e[sj].0);
        } else if i > 0 {
            assert(e1[i] == rest[i - 1]);
        } else {
            assert(e1[j] == rest[j - 1]);
        }
    }
    lemma_position(keys_of(e1), k);
    assert(keys_of(e1)[0] == k);
}

} // verus!
