//! The bounded history of log events replayed to new log subscribers.
use vstd::prelude::*;

use std::collections::VecDeque;

verus! {

/// Log events kept for replay.
pub const HISTORY_CAPACITY: usize = 2048;

/// The last `n` items of `s` (all of them when there are fewer).
pub open spec fn last_n<T>(s: Seq<T>, n: nat) -> Seq<T> {
    if s.len() <= n {
        s
    } else {
        s.skip(s.len() - n)
    }
}

/// The ring behind a [`LogHistory`].
struct Ring<T> {
    entries: VecDeque<T>,
    capacity: usize,
}

impl<T> Ring<T> {
    fn placeholder() -> (l: Ring<T>)
        ensures
            l.wf(),
    {
        Ring::new(0)
    }

    /// The entries held, oldest first.
    spec fn view(&self) -> Seq<T> {
        self.entries@
    }

    /// How many entries are kept at most.
    spec fn capacity_limit(&self) -> nat {
        self.capacity as nat
    }

    spec fn wf(&self) -> bool {
        self.entries@.len() <= self.capacity
    }

    /// An empty history keeping at most `capacity` entries (none at all
    /// for a capacity of zero).
    fn new(capacity: usize) -> (h: Ring<T>)
        ensures
            h.wf(),
            h.view() == Seq::<T>::empty(),
            h.capacity_limit() == capacity,
    {
        Ring { entries: VecDeque::new(), capacity }
    }

    /// Appends an entry, dropping the oldest one when the history is full.
    fn record(&mut self, entry: T)
        requires
            old(self).wf(),
        ensures
            final(self).wf(),
            final(self).capacity_limit() == old(self).capacity_limit(),
            final(self).view() == last_n(old(self).view().push(entry), old(self).capacity_limit()),
    {
        let ghost pre = self.entries@;
        if self.capacity == 0 {
            proof {
                let s = pre.push(entry);
                assert(s.skip(s.len() as int) =~= Seq::<T>::empty());
                assert(self.entries@ =~= Seq::<T>::empty());
            }
            return;
        }
        if self.entries.len() >= self.capacity {
            let _ = self.entries.pop_front();
        }
        self.entries.push_back(entry);
        proof {
            let s = pre.push(entry);
            if pre.len() >= self.capacity {
                assert(self.entries@ =~= s.skip(s.len() - self.capacity));
            } else {
                assert(self.entries@ =~= s);
            }
        }
    }

    /// Number of entries held.
    fn len(&self) -> (n: usize)
        ensures
            n == self.view().len(),
    {
        self.entries.len()
    }

    /// The `i`-th oldest entry.
    fn get(&self, i: usize) -> (e: &T)
        requires
            i < self.view().len(),
        ensures
            *e == self.view()[i as int],
    {
        &self.entries[i]
    }
}

/// A first-in, first-out history that keeps only its newest entries.
pub struct LogHistory<T> {
    ring: Ring<T>,
}

impl<T> LogHistory<T> {
    #[verifier::type_invariant]
    spec fn inv(&self) -> bool {
        self.ring.wf()
    }

    fn take_ring(&mut self) -> (l: Ring<T>)
        ensures
            l.wf(),
            l == old(self).ring,
    {
        proof {
            use_type_invariant(&*self);
        }
        let mut l = Ring::placeholder();
        std::mem::swap(&mut l, &mut self.ring);
        l
    }

    /// The entries held, oldest first.
    pub closed spec fn view(&self) -> Seq<T> {
        self.ring.view()
    }

    /// How many entries are kept at most.
    pub closed spec fn capacity_limit(&self) -> nat {
        self.ring.capacity_limit()
    }

    /// An empty history keeping at most `capacity` entries (none at all
    /// for a capacity of zero).
    pub fn new(capacity: usize) -> (h: LogHistory<T>)
        ensures
            h.view() == Seq::<T>::empty(),
            h.capacity_limit() == capacity,
    {
        LogHistory { ring: Ring::new(capacity) }
    }

    /// Appends an entry, dropping the oldest one when the history is full.
    pub fn record(&mut self, entry: T)
        ensures
            final(self).capacity_limit() == old(self).capacity_limit(),
            final(self).view() == last_n(old(self).view().push(entry), old(self).capacity_limit()),
    {
        let mut l = self.take_ring();
        l.record(entry);
        self.ring = l;
    }

    /// Number of entries held.
    pub fn len(&self) -> (n: usize)
        ensures
            n == self.view().len(),
    {
        proof {
            use_type_invariant(self);
        }
        self.ring.len()
    }

    /// The `i`-th oldest entry.
    pub fn get(&self, i: usize) -> (e: &T)
        requires
            i < self.view().len(),
        ensures
            *e == self.view()[i as int],
    {
        proof {
            use_type_invariant(self);
        }
        self.ring.get(i)
    }
}

/// A history never holds more than its capacity, and what it holds is the
/// newest entries in the order they were recorded.
pub proof fn lemma_history_keeps_newest<T>(s: Seq<T>, e: T, n: nat)
    requires
        n > 0,
        s.len() <= n,
    ensures
        last_n(s.push(e), n).len() <= n,
        last_n(s.push(e), n).last() == e,
        s.len() < n ==> last_n(s.push(e), n) == s.push(e),
        s.len() == n ==> last_n(s.push(e), n) == s.drop_first().push(e),
{
    if s.len() == n {
        assert(s.push(e).skip(s.push(e).len() - n) =~= s.drop_first().push(e));
    }
}

} // verus!
