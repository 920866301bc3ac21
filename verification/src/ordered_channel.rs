//! The ordered output channel: producers deposit results under arbitrary
//! indices in any completion order; a consumer takes them out strictly in
//! ascending index order.
//!
//! This is the channel's state and ordering logic. The blocking shell
//! around it — the lock and the condition variable on which a consumer
//! waits until the index it needs has been deposited — stands outside,
//! wrapped around these operations.
use vstd::prelude::*;

verus! {

/// The index-to-value table described by an entry list (later entries win).
pub open spec fn slots_map<T>(s: Seq<(usize, T)>) -> Map<usize, T>
    decreases s.len(),
{
    if s.len() == 0 {
        Map::empty()
    } else {
        slots_map(s.drop_last()).insert(s.last().0, s.last().1)
    }
}

/// No two entries share an index.
pub open spec fn nodup_slots<T>(s: Seq<(usize, T)>) -> bool {
    forall|i: int, j: int| 0 <= i < j < s.len() ==> (#[trigger] s[i]).0 != (#[trigger] s[j]).0
}

proof fn lemma_slots_map_index<T>(s: Seq<(usize, T)>, i: int)
    requires
        nodup_slots(s),
        0 <= i < s.len(),
    ensures
        slots_map(s).dom().contains(s[i].0),
        slots_map(s)[s[i].0] == s[i].1,
    decreases s.len(),
{
    if i + 1 < s.len() {
        assert(s.drop_last()[i] == s[i]);
        lemma_slots_map_index(s.drop_last(), i);
    }
}

proof fn lemma_slots_map_absent<T>(s: Seq<(usize, T)>, k: usize)
    requires
        forall|i: int| 0 <= i < s.len() ==> (#[trigger] s[i]).0 != k,
    ensures
        !slots_map(s).dom().contains(k),
    decreases s.len(),
{
    if s.len() > 0 {
        assert(forall|i: int|
            0 <= i < s.drop_last().len() ==> (#[trigger] s.drop_last()[i]).0 != k);
        lemma_slots_map_absent(s.drop_last(), k);
    }
}

proof fn lemma_slots_map_remove<T>(s: Seq<(usize, T)>, at: int)
    requires
        nodup_slots(s),
        0 <= at < s.len(),
    ensures
        nodup_slots(s.remove(at)),
        slots_map(s.remove(at)) == slots_map(s).remove(s[at].0),
    decreases s.len(),
{
    let post = s.remove(at);
    assert forall|i: int, j: int| 0 <= i < j < post.len() implies (#[trigger] post[i]).0 != (
    #[trigger] post[j]).0 by {
        let pi = if i < at {
            i
        } else {
            i + 1
        };
        let pj = if j < at {
            j
        } else {
            j + 1
        };
        assert(post[i] == s[pi]);
        assert(post[j] == s[pj]);
    }
    if at == s.len() - 1 {
        assert(post =~= s.drop_last());
        lemma_slots_map_absent(s.drop_last(), s.last().0);
        assert(slots_map(s.drop_last()) =~= slots_map(s).remove(s[at].0));
    } else {
        assert(post.drop_last() =~= s.drop_last().remove(at));
        assert(post.last() == s.last());
        lemma_slots_map_remove(s.drop_last(), at);
        assert(slots_map(post) == slots_map(s.drop_last()).remove(s[at].0).insert(
            s.last().0,
            s.last().1,
        ));
        assert(s[at].0 != s.last().0);
        assert(slots_map(s.drop_last()).remove(s[at].0).insert(s.last().0, s.last().1)
            =~= slots_map(s.drop_last()).insert(s.last().0, s.last().1).remove(s[at].0));
    }
}

/// The ordered channel's table: results deposited by index, each index at
/// most once, awaiting consumption in index order.
pub struct OrderedChannel<T> {
    slots: Vec<(usize, T)>,
}

impl<T> OrderedChannel<T> {
    /// The deposited results, by index.
    pub closed spec fn view(&self) -> Map<usize, T> {
        slots_map(self.slots@)
    }

    /// The channel's internal invariant: indices are unique.
    pub closed spec fn wf(&self) -> bool {
        nodup_slots(self.slots@)
    }

    /// A fresh channel holding nothing.
    pub fn new() -> (r: OrderedChannel<T>)
        ensures
            r.wf(),
            r@ == Map::<usize, T>::empty(),
    {
        OrderedChannel { slots: Vec::new() }
    }

    /// Deposit the result of task `i`. A later deposit under the same
    /// index replaces the earlier one.
    pub fn put(&mut self, i: usize, object: T)
        requires
            old(self).wf(),
        ensures
            final(self).wf(),
            final(self)@ == old(self)@.insert(i, object),
    {
        self.remove_index(i);
        let ghost kept = self.slots@;
        self.slots.push((i, object));
        proof {
            assert(self.slots@.drop_last() =~= kept);
            assert(self@ =~= old(self)@.insert(i, object));
        }
    }

    /// Take the result of task `i` out, when it is there. The blocking
    /// consumer retries (after waiting) as long as this yields nothing.
    pub fn get(&mut self, i: usize) -> (r: Option<T>)
        requires
            old(self).wf(),
        ensures
            final(self).wf(),
            (match r {
                Option::Some(v) => old(self)@.dom().contains(i) && v == old(self)@[i]
                    && final(self)@ == old(self)@.remove(i),
                Option::None => !old(self)@.dom().contains(i) && final(self)@ == old(self)@,
            }),
    {
        let n = self.slots.len();
        let mut k: usize = 0;
        while k < n
            invariant
                k <= n,
                n == self.slots@.len(),
                self == old(self),
                old(self).wf(),
                forall|j: int| 0 <= j < k ==> (#[trigger] self.slots@[j]).0 != i,
            decreases n - k,
        {
            if self.slots[k].0 == i {
                proof {
                    lemma_slots_map_index(self.slots@, k as int);
                    lemma_slots_map_remove(self.slots@, k as int);
                }
                let (_, v) = self.slots.remove(k);
                return Option::Some(v);
            }
            k = k + 1;
        }
        proof {
            lemma_slots_map_absent(self.slots@, i);
        }
        Option::None
    }

    /// Drop any result deposited under index `i`.
    fn remove_index(&mut self, i: usize)
        requires
            old(self).wf(),
        ensures
            final(self).wf(),
            final(self)@ == old(self)@.remove(i),
            forall|j: int| 0 <= j < final(self).slots@.len() ==> (#[trigger] final(self).slots@[j]).0
                != i,
    {
        let n = self.slots.len();
        let mut k: usize = 0;
        while k < n
            invariant
                k <= n,
                n == self.slots@.len(),
                self == old(self),
                old(self).wf(),
                forall|j: int| 0 <= j < k ==> (#[trigger] self.slots@[j]).0 != i,
            decreases n - k,
        {
            if self.slots[k].0 == i {
                let ghost pre = self.slots@;
                proof {
                    lemma_slots_map_remove(pre, k as int);
                }
                self.slots.remove(k);
                proof {
                    assert forall|j: int| 0 <= j < self.slots@.len() implies (
                    #[trigger] self.slots@[j]).0 != i by {
                        if j < k {
                            assert(self.slots@[j] == pre[j]);
                        } else {
                            assert(self.slots@[j] == pre[j + 1]);
                        }
                    }
                }
                return ;
            }
            k = k + 1;
        }
        proof {
            lemma_slots_map_absent(self.slots@, i);
            assert(self@.remove(i) =~= self@);
        }
    }

    /// Begin consuming `total` results in ascending index order.
    pub fn iter(self, total: usize) -> (r: OrderedChannelIterator<T>)
        requires
            self.wf(),
        ensures
            r.wf(),
            r@ == self@,
            r.position() == 0,
            r.limit() == total,
    {
        OrderedChannelIterator { channel: self, iter_counter: 0, total }
    }
}

/// A consumer working through channel indices `0..total`, in order. It
/// yields exactly `total` results and then nothing, provided each index
/// has been deposited by the time it is asked for — which the blocking
/// shell outside guarantees by waiting.
pub struct OrderedChannelIterator<T> {
    channel: OrderedChannel<T>,
    iter_counter: usize,
    total: usize,
}

impl<T> OrderedChannelIterator<T> {
    /// What the underlying channel still holds.
    pub closed spec fn view(&self) -> Map<usize, T> {
        self.channel@
    }

    /// The iterator's internal invariant: the channel's, and a position
    /// that never passes the limit.
    pub closed spec fn wf(&self) -> bool {
        self.channel.wf() && self.iter_counter <= self.total
    }

    /// The next index to be consumed.
    pub closed spec fn position(&self) -> usize {
        self.iter_counter
    }

    /// How many results this iterator yields in all.
    pub closed spec fn limit(&self) -> usize {
        self.total
    }

    /// The next result, in index order: the value deposited under the
    /// current position. Yields nothing once `total` results are out.
    pub fn next(&mut self) -> (r: Option<T>)
        requires
            old(self).wf(),
            old(self).position() < old(self).limit() ==> old(self)@.dom().contains(
                old(self).position(),
            ),
        ensures
            final(self).wf(),
            final(self).limit() == old(self).limit(),
            (match r {
                Option::Some(v) => old(self).position() < old(self).limit() && v == old(self)@[old(
                    self,
                ).position()] && final(self).position() == old(self).position() + 1 && final(self)@
                    == old(self)@.remove(old(self).position()),
                Option::None => old(self).position() == old(self).limit() && *final(self) == *old(
                    self,
                ),
            }),
    {
        if self.iter_counter == self.total {
            return Option::None;
        }
        let i = self.iter_counter;
        self.iter_counter = i + 1;
        let r = self.channel.get(i);
        match r {
            Option::Some(v) => Option::Some(v),
            Option::None => {
                // Unreachable: the position was deposited.
                proof {
                    assert(false);
                }
                Option::None
            },
        }
    }
}

/// Deposits under distinct indices commute: whatever order producers
/// finish in, the channel ends up holding the same table, so consumption
/// in index order yields the same results.
pub proof fn lemma_puts_commute<T>(m: Map<usize, T>, i: usize, v: T, j: usize, w: T)
    requires
        i != j,
    ensures
        m.insert(i, v).insert(j, w) == m.insert(j, w).insert(i, v),
{
    assert(m.insert(i, v).insert(j, w) =~= m.insert(j, w).insert(i, v));
}

} // verus!
