use crate::message::TransactionId;
use vstd::prelude::*;

verus! {

/// When a transaction's current wait ends, in milliseconds of a monotonic
/// clock.
#[derive(Clone, Copy, Debug, PartialEq, Eq, Structural)]
pub struct PendingTimeout {
    pub timeout_at: u64,
    pub tid: TransactionId,
}

/// The pending timeouts, earliest first on request. Ties are broken by
/// position.
pub struct TimerQueue {
    items: Vec<PendingTimeout>,
}

/// `p` ends no later than any timeout in `s`.
pub open spec fn is_earliest(s: Seq<PendingTimeout>, p: PendingTimeout) -> bool {
    forall|j: int| 0 <= j < s.len() ==> p.timeout_at <= (#[trigger] s[j]).timeout_at
}

impl View for TimerQueue {
    type V = Seq<PendingTimeout>;

    closed spec fn view(&self) -> Seq<PendingTimeout> {
        self.items@
    }
}

impl TimerQueue {
    pub fn new() -> (r: TimerQueue)
        ensures
            r@ == Seq::<PendingTimeout>::empty(),
    {
        TimerQueue { items: Vec::new() }
    }

    pub fn len(&self) -> (r: usize)
        ensures
            r == self@.len(),
    {
        self.items.len()
    }

    pub fn push(&mut self, p: PendingTimeout)
        ensures
            final(self)@ == old(self)@.push(p),
    {
        self.items.push(p);
    }

    /// The position of an earliest timeout.
    fn index_of_min(&self) -> (r: usize)
        requires
            self@.len() > 0,
        ensures
            r < self@.len(),
            is_earliest(self@, self@[r as int]),
    {
        let mut best: usize = 0;
        let mut i: usize = 1;
        while i < self.items.len()
            invariant
                1 <= i <= self.items.len(),
                best < i,
                forall|j: int| 0 <= j < i ==> self.items@[best as int].timeout_at <= (#[trigger] self.items@[j]).timeout_at,
            decreases self.items.len() - i,
        {
            if self.items[i].timeout_at < self.items[best].timeout_at {
                best = i;
            }
            i = i + 1;
        }
        best
    }

    /// An earliest timeout, or `None` when there is none.
    pub fn peek_min(&self) -> (r: Option<PendingTimeout>)
        ensures
            r is None <==> self@.len() == 0,
            r matches Some(p) ==> self@.contains(p) && is_earliest(self@, p),
    {
        if self.items.len() == 0 {
            None
        } else {
            let i = self.index_of_min();
            Some(self.items[i])
        }
    }

    /// Takes out an earliest timeout, or gives `None` and changes nothing when
    /// there is none.
    pub fn pop_min(&mut self) -> (r: Option<PendingTimeout>)
        ensures
            r is None <==> old(self)@.len() == 0,
            r is None ==> final(self)@ == old(self)@,
            r matches Some(p) ==> exists|i: int|
                0 <= i < old(self)@.len() && old(self)@[i] == p && is_earliest(old(self)@, p)
                    && final(self)@ == old(self)@.remove(i),
    {
        if self.items.len() == 0 {
            None
        } else {
            let i = self.index_of_min();
            let p = self.items.remove(i);
            Some(p)
        }
    }

    /// Takes out the first timeout of `tid`, if there is one, keeping the
    /// order of the rest. Says whether there was one.
    pub fn remove_tid(&mut self, tid: TransactionId) -> (r: bool)
        ensures
            r <==> exists|i: int| 0 <= i < old(self)@.len() && old(self)@[i].tid == tid,
            r ==> exists|i: int|
                0 <= i < old(self)@.len() && old(self)@[i].tid == tid && final(self)@ == old(self)@.remove(i),
            !r ==> final(self)@ == old(self)@,
    {
        let mut i: usize = 0;
        while i < self.items.len()
            invariant
                i <= self.items.len(),
                self.items@ == old(self).items@,
                forall|j: int| 0 <= j < i ==> (#[trigger] self.items@[j]).tid != tid,
            decreases self.items.len() - i,
        {
            if self.items[i].tid == tid {
                assert(old(self)@[i as int].tid == tid);
                let _ = self.items.remove(i);
                return true;
            }
            i = i + 1;
        }
        false
    }

    /// An earliest timeout among those that have ended by `now` and whose id
    /// is not in `excluded`, or `None` when there is none.
    pub fn earliest_due(&self, now: u64, excluded: &Vec<TransactionId>) -> (r: Option<PendingTimeout>)
        ensures
            r is None ==> forall|i: int|
                0 <= i < self@.len() && (#[trigger] self@[i]).timeout_at <= now ==> excluded@.contains(self@[i].tid),
            r matches Some(p) ==> {
                &&& self@.contains(p)
                &&& p.timeout_at <= now
                &&& !excluded@.contains(p.tid)
                &&& forall|i: int|
                    0 <= i < self@.len() && (#[trigger] self@[i]).timeout_at <= now && !excluded@.contains(self@[i].tid)
                        ==> p.timeout_at <= self@[i].timeout_at
            },
    {
        let mut best: Option<PendingTimeout> = None;
        let mut i: usize = 0;
        while i < self.items.len()
            invariant
                i <= self.items.len(),
                best is None ==> forall|j: int|
                    0 <= j < i && (#[trigger] self.items@[j]).timeout_at <= now ==> excluded@.contains(self.items@[j].tid),
                best matches Some(p) ==> {
                    &&& self.items@.contains(p)
                    &&& p.timeout_at <= now
                    &&& !excluded@.contains(p.tid)
                    &&& forall|j: int|
                        0 <= j < i && (#[trigger] self.items@[j]).timeout_at <= now && !excluded@.contains(self.items@[j].tid)
                            ==> p.timeout_at <= self.items@[j].timeout_at
                },
            decreases self.items.len() - i,
        {
            let q = self.items[i];
            if q.timeout_at <= now && !contains_tid(excluded, q.tid) {
                let better = match best {
                    None => true,
                    Some(p) => q.timeout_at < p.timeout_at,
                };
                if better {
                    best = Some(q);
                }
            }
            i = i + 1;
        }
        best
    }
}

/// Whether `tid` is in `v`.
pub fn contains_tid(v: &Vec<TransactionId>, tid: TransactionId) -> (r: bool)
    ensures
        r == v@.contains(tid),
{
    let mut i: usize = 0;
    while i < v.len()
        invariant
            i <= v.len(),
            forall|j: int| 0 <= j < i ==> v@[j] != tid,
        decreases v.len() - i,
    {
        if v[i] == tid {
            assert(v@[i as int] == tid);
            return true;
        }
        i = i + 1;
    }
    false
}

} // verus!
