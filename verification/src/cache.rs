//! Memoizing key-to-value cache with lazy growth and a bounded-size,
//! age-based eviction policy.
//!
//! The cache is purely a performance device: a miss is always recoverable
//! by recomputing the value, and any entry may be dropped at any insert.
use vstd::prelude::*;

verus! {

/// Entry count above which an insert first evicts the older half.
pub const CACHE_SIZE_LIMIT: usize = 500000;

/// The key-to-value map described by an entry list (later entries win).
pub open spec fn entries_map<V>(s: Seq<(u64, V, u64)>) -> Map<u64, V>
    decreases s.len(),
{
    if s.len() == 0 {
        Map::empty()
    } else {
        entries_map(s.drop_last()).insert(s.last().0, s.last().1)
    }
}

/// No two entries share a key.
pub open spec fn nodup_keys<V>(s: Seq<(u64, V, u64)>) -> bool {
    forall|i: int, j: int| 0 <= i < j < s.len() ==> (#[trigger] s[i]).0 != (#[trigger] s[j]).0
}

proof fn lemma_entries_map_index<V>(s: Seq<(u64, V, u64)>, i: int)
    requires
        nodup_keys(s),
        0 <= i < s.len(),
    ensures
        entries_map(s).dom().contains(s[i].0),
        entries_map(s)[s[i].0] == s[i].1,
    decreases s.len(),
{
    if i + 1 < s.len() {
        assert(s.drop_last()[i] == s[i]);
        lemma_entries_map_index(s.drop_last(), i);
    }
}

proof fn lemma_entries_map_absent<V>(s: Seq<(u64, V, u64)>, k: u64)
    requires
        forall|i: int| 0 <= i < s.len() ==> (#[trigger] s[i]).0 != k,
    ensures
        !entries_map(s).dom().contains(k),
    decreases s.len(),
{
    if s.len() > 0 {
        assert(forall|i: int|
            0 <= i < s.drop_last().len() ==> (#[trigger] s.drop_last()[i]).0 != k);
        lemma_entries_map_absent(s.drop_last(), k);
    }
}

proof fn lemma_entries_map_key_index<V>(s: Seq<(u64, V, u64)>, k: u64) -> (i: int)
    requires
        entries_map(s).dom().contains(k),
    ensures
        0 <= i < s.len(),
        s[i].0 == k,
    decreases s.len(),
{
    if s.len() == 0 {
        0
    } else if s.last().0 == k {
        s.len() - 1
    } else {
        let i = lemma_entries_map_key_index(s.drop_last(), k);
        assert(s.drop_last()[i] == s[i]);
        i
    }
}

proof fn lemma_entries_len<V>(s: Seq<(u64, V, u64)>)
    requires
        nodup_keys(s),
    ensures
        entries_map(s).dom().len() == s.len(),
        entries_map(s).dom().finite(),
    decreases s.len(),
{
    if s.len() > 0 {
        lemma_entries_len(s.drop_last());
        lemma_entries_map_absent(s.drop_last(), s.last().0);
    }
}

proof fn lemma_entries_map_remove<V>(s: Seq<(u64, V, u64)>, at: int)
    requires
        nodup_keys(s),
        0 <= at < s.len(),
    ensures
        entries_map(s.remove(at)) == entries_map(s).remove(s[at].0),
    decreases s.len(),
{
    let post = s.remove(at);
    if at == s.len() - 1 {
        assert(post =~= s.drop_last());
        assert(forall|i: int|
            0 <= i < s.drop_last().len() ==> (#[trigger] s.drop_last()[i]).0 != s.last().0);
        lemma_entries_map_absent(s.drop_last(), s.last().0);
        assert(entries_map(s.drop_last()) =~= entries_map(s).remove(s[at].0));
    } else {
        assert(post.drop_last() =~= s.drop_last().remove(at));
        assert(post.last() == s.last());
        assert(forall|i: int| 0 <= i < s.drop_last().len() ==> s.drop_last()[i] == s[i]);
        lemma_entries_map_remove(s.drop_last(), at);
        assert(entries_map(post) == entries_map(s.drop_last()).remove(s[at].0).insert(
            s.last().0,
            s.last().1,
        ));
        assert(s[at].0 != s.last().0);
        assert(entries_map(s.drop_last()).remove(s[at].0).insert(s.last().0, s.last().1)
            =~= entries_map(s.drop_last()).insert(s.last().0, s.last().1).remove(s[at].0));
    }
}

proof fn lemma_remove_keeps_entries<V>(pre: Seq<(u64, V, u64)>, at: int)
    requires
        0 <= at < pre.len(),
        nodup_keys(pre),
    ensures
        nodup_keys(pre.remove(at)),
        forall|i: int|
            0 <= i < pre.remove(at).len() ==> pre.contains(#[trigger] pre.remove(at)[i]),
{
    let post = pre.remove(at);
    assert forall|i: int| 0 <= i < post.len() implies pre.contains(#[trigger] post[i]) by {
        if i < at {
            assert(pre[i] == post[i]);
        } else {
            assert(pre[i + 1] == post[i]);
        }
    }
    assert forall|i: int, j: int| 0 <= i < j < post.len() implies (#[trigger] post[i]).0 != (
    #[trigger] post[j]).0 by {
        let pi = if i < at {
            i
        } else {
            i + 1
        };
        let pj = if j < at {
            j
        } else {
            j + 1
        };
        assert(post[i] == pre[pi]);
        assert(post[j] == pre[pj]);
    }
}

/// A memoizing cache from `u64` keys to values. Each entry carries a
/// logical timestamp (an insertion counter, not wall-clock time); when an
/// insert finds the cache past [`CACHE_SIZE_LIMIT`], every entry whose
/// timestamp lies below the mean is evicted first — an approximate
/// "evict the older half" in one linear pass.
pub struct Cache<V> {
    entries: Vec<(u64, V, u64)>,
    counter: u64,
}

impl<V> Cache<V> {
    /// The key-to-value map this cache currently holds.
    pub closed spec fn view(&self) -> Map<u64, V> {
        entries_map(self.entries@)
    }

    /// The cache's internal invariant: entry keys are unique.
    pub closed spec fn wf(&self) -> bool {
        nodup_keys(self.entries@)
    }

    /// A fresh, empty cache.
    pub fn new() -> (r: Cache<V>)
        ensures
            r.wf(),
            r@ == Map::<u64, V>::empty(),
    {
        Cache { entries: Vec::new(), counter: 0 }
    }

    /// How many entries the cache currently holds.
    pub fn len(&self) -> (r: usize)
        requires
            self.wf(),
        ensures
            r == self@.dom().len(),
    {
        proof {
            lemma_entries_len(self.entries@);
        }
        self.entries.len()
    }

    /// Look a key up; `None` exactly when the cache does not hold it.
    pub fn lookup(&self, key: u64) -> (r: Option<&V>)
        requires
            self.wf(),
        ensures
            match r {
                Option::Some(v) => self@.dom().contains(key) && *v == self@[key],
                Option::None => !self@.dom().contains(key),
            },
    {
        let n = self.entries.len();
        let mut i: usize = 0;
        while i < n
            invariant
                i <= n,
                n == self.entries@.len(),
                self.wf(),
                forall|j: int| 0 <= j < i ==> (#[trigger] self.entries@[j]).0 != key,
            decreases n - i,
        {
            if self.entries[i].0 == key {
                proof {
                    lemma_entries_map_index(self.entries@, i as int);
                }
                return Option::Some(&self.entries[i].1);
            }
            i = i + 1;
        }
        proof {
            lemma_entries_map_absent(self.entries@, key);
        }
        Option::None
    }

    /// Insert a value under a key, replacing any previous value. At or
    /// below the size bound nothing else changes: the map is exactly the
    /// old map plus the new binding. Past the bound, entries stamped below
    /// the mean timestamp are evicted first; any other key therefore
    /// either keeps its old value or disappears, and is never rebound.
    pub fn insert(&mut self, key: u64, value: V)
        requires
            old(self).wf(),
        ensures
            final(self).wf(),
            final(self)@.dom().contains(key),
            final(self)@[key] == value,
            forall|k: u64|
                k != key && #[trigger] final(self)@.dom().contains(k) ==> old(
                    self,
                )@.dom().contains(k) && final(self)@[k] == old(self)@[k],
            old(self)@.dom().len() <= CACHE_SIZE_LIMIT ==> final(self)@ == old(self)@.insert(
                key,
                value,
            ),
    {
        let ghost orig = self.entries@;
        proof {
            lemma_entries_len(orig);
        }
        self.maybe_evict();
        let ghost mid = self.entries@;
        self.remove_key(key);
        let ghost kept = self.entries@;
        let stamp = self.counter;
        self.counter = self.counter.wrapping_add(1);
        self.entries.push((key, value, stamp));
        proof {
            assert(self.entries@.drop_last() =~= kept);
            assert(final(self).wf());
            assert(self@ == entries_map(kept).insert(key, value));
            if entries_map(orig).dom().len() <= CACHE_SIZE_LIMIT {
                assert(mid == orig);
                assert(entries_map(kept) == entries_map(orig).remove(key));
                assert(self@ =~= old(self)@.insert(key, value));
            }
            assert forall|k: u64|
                k != key && #[trigger] self@.dom().contains(k) implies old(self)@.dom().contains(k)
                && self@[k] == old(self)@[k] by {
                assert(entries_map(kept).dom().contains(k));
                let i = lemma_entries_map_key_index(kept, k);
                lemma_entries_map_index(kept, i);
                assert(mid.contains(kept[i]));
                let l = choose|l: int| 0 <= l < mid.len() && mid[l] == kept[i];
                assert(orig.contains(mid[l]));
                let m = choose|m: int| 0 <= m < orig.len() && orig[m] == mid[l];
                lemma_entries_map_index(orig, m);
                assert(orig[m].0 == k);
                assert(old(self)@[k] == orig[m].1);
                assert(self@[k] == entries_map(kept)[k]);
            }
        }
    }

    /// Run the eviction pass when the cache is over its size bound;
    /// otherwise leave everything in place.
    fn maybe_evict(&mut self)
        requires
            old(self).wf(),
        ensures
            final(self).wf(),
            final(self).counter == old(self).counter,
            old(self).entries@.len() <= CACHE_SIZE_LIMIT ==> final(self).entries@ == old(
                self,
            ).entries@,
            forall|i: int|
                0 <= i < final(self).entries@.len() ==> old(self).entries@.contains(
                    #[trigger] final(self).entries@[i],
                ),
    {
        if self.entries.len() > CACHE_SIZE_LIMIT {
            self.evict_older_half();
        } else {
            proof {
                assert forall|i: int| 0 <= i < self.entries@.len() implies old(
                    self,
                ).entries@.contains(#[trigger] self.entries@[i]) by {
                    assert(old(self).entries@[i] == self.entries@[i]);
                }
            }
        }
    }

    /// Drop the entry bound to `key`, if any.
    fn remove_key(&mut self, key: u64)
        requires
            old(self).wf(),
        ensures
            final(self).wf(),
            final(self).counter == old(self).counter,
            final(self)@ == old(self)@.remove(key),
            forall|j: int|
                0 <= j < final(self).entries@.len() ==> (#[trigger] final(self).entries@[j]).0
                    != key,
            forall|i: int|
                0 <= i < final(self).entries@.len() ==> old(self).entries@.contains(
                    #[trigger] final(self).entries@[i],
                ),
    {
        let n = self.entries.len();
        let mut i: usize = 0;
        while i < n
            invariant
                i <= n,
                n == self.entries@.len(),
                self.entries@ == old(self).entries@,
                self.counter == old(self).counter,
                old(self).wf(),
                forall|j: int| 0 <= j < i ==> (#[trigger] self.entries@[j]).0 != key,
            decreases n - i,
        {
            if self.entries[i].0 == key {
                let ghost pre = self.entries@;
                self.entries.remove(i);
                proof {
                    lemma_remove_keeps_entries(pre, i as int);
                    lemma_entries_map_remove(pre, i as int);
                    assert(self.entries@ == pre.remove(i as int));
                    assert forall|j: int| 0 <= j < self.entries@.len() implies (#[trigger] self.entries@[j]).0
                        != key by {
                        if j < i {
                            assert(self.entries@[j] == pre[j]);
                        } else {
                            assert(self.entries@[j] == pre[j + 1]);
                        }
                    }
                }
                return;
            }
            i = i + 1;
        }
        proof {
            lemma_entries_map_absent(self.entries@, key);
            assert(self@.remove(key) =~= self@);
            assert forall|i: int| 0 <= i < self.entries@.len() implies old(self).entries@.contains(
                #[trigger] self.entries@[i],
            ) by {
                assert(old(self).entries@[i] == self.entries@[i]);
            }
        }
    }

    /// One eviction pass: drop every entry whose timestamp is below the
    /// mean of all timestamps. Keeps keys unique and values unchanged.
    fn evict_older_half(&mut self)
        requires
            old(self).wf(),
            old(self).entries@.len() > 0,
        ensures
            final(self).wf(),
            final(self).counter == old(self).counter,
            forall|i: int|
                0 <= i < final(self).entries@.len() ==> old(self).entries@.contains(
                    #[trigger] final(self).entries@[i],
                ),
    {
        let n = self.entries.len();
        let mut total: u128 = 0;
        let mut i: usize = 0;
        while i < n
            invariant
                i <= n,
                n == self.entries@.len(),
                self == old(self),
                total <= (i as u128) * (u64::MAX as u128),
            decreases n - i,
        {
            let t = self.entries[i].2;
            proof {
                assert((i as u128 + 1) * (u64::MAX as u128) == (i as u128) * (u64::MAX as u128) + (
                u64::MAX as u128)) by (nonlinear_arith);
            }
            total = total + (t as u128);
            i = i + 1;
        }
        proof {
            assert(total / (n as u128) <= u64::MAX) by (nonlinear_arith)
                requires
                    n > 0,
                    total <= (n as u128) * (u64::MAX as u128),
            ;
        }
        let avg = (total / (n as u128)) as u64;
        let mut j: usize = 0;
        while j < self.entries.len()
            invariant
                j <= self.entries@.len(),
                nodup_keys(self.entries@),
                self.counter == old(self).counter,
                forall|i: int|
                    0 <= i < self.entries@.len() ==> old(self).entries@.contains(
                        #[trigger] self.entries@[i],
                    ),
            decreases self.entries@.len() - j,
        {
            if self.entries[j].2 < avg {
                let ghost pre = self.entries@;
                self.entries.remove(j);
                proof {
                    lemma_remove_keeps_entries(pre, j as int);
                    assert(self.entries@ == pre.remove(j as int));
                    assert forall|i: int| 0 <= i < self.entries@.len() implies old(
                        self,
                    ).entries@.contains(#[trigger] self.entries@[i]) by {
                        assert(pre.contains(self.entries@[i]));
                        let l = choose|l: int| 0 <= l < pre.len() && pre[l] == self.entries@[i];
                        assert(old(self).entries@.contains(pre[l]));
                    }
                }
            } else {
                j = j + 1;
            }
        }
    }
}

} // verus!
