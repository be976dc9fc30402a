use crate::message::{
    duplicate_tlvs, tlvs_view, valid_tid, Class, Header, Indication, Message, PeerAddr, Response, Tlv,
    TransactionError, TransactionId, TID_LIMIT,
};
use crate::outstanding::{OutstandingTable, Request};
use crate::rto::{NoRetransmissionsConstTimeout, RtoPolicy, DEFAULT_RTO};
use crate::timer_queue::{is_earliest, PendingTimeout, TimerQueue};
use vstd::prelude::*;

verus! {

/// Relies on rand::random: a 128-bit integer drawn uniformly. Nothing is
/// known of its value.
#[verifier::external_body]
fn random_u128() -> (r: u128) {
    rand::random::<u128>()
}

/// A transaction id drawn at random.
pub fn random_tid() -> (r: TransactionId)
    ensures
        valid_tid(r),
{
    random_u128() % TID_LIMIT
}

/// The time from `start` to `now`, or 0 when `now` is earlier.
pub open spec fn elapsed(start: u64, now: u64) -> u64 {
    if start <= now {
        (now - start) as u64
    } else {
        0
    }
}

/// `now + rto`, or the largest time when that does not fit.
pub open spec fn deadline(now: u64, rto: u64) -> u64 {
    if now + rto <= u64::MAX {
        (now + rto) as u64
    } else {
        u64::MAX
    }
}

/// When the first wait of a request sent at `now` ends, given what the
/// policy answered: its timeout, or the default one.
pub open spec fn initial_deadline(now: u64, decision: Option<u64>) -> u64 {
    match decision {
        Some(rto) => deadline(now, rto),
        None => deadline(now, DEFAULT_RTO),
    }
}

/// `request` as it stands after its first send at `now`.
pub open spec fn sent_once<S>(request: Request<S>, now: u64) -> Request<S> {
    Request {
        destination_addr: request.destination_addr,
        method: request.method,
        attributes: request.attributes,
        response_sink: request.response_sink,
        attempts_made: 1,
        start_time: now,
    }
}

/// `request` as it stands after one more send.
pub open spec fn sent_again<S>(request: Request<S>) -> Request<S> {
    Request {
        destination_addr: request.destination_addr,
        method: request.method,
        attributes: request.attributes,
        response_sink: request.response_sink,
        attempts_made: if request.attempts_made < usize::MAX {
            (request.attempts_made + 1) as usize
        } else {
            usize::MAX
        },
        start_time: request.start_time,
    }
}

/// `m` is a request message of `method` and `tid` that carries `attributes`.
pub open spec fn is_request_message(m: Message, method: u16, tid: TransactionId, attributes: Seq<Tlv>) -> bool {
    &&& m.header == (Header { class: Class::Request, method, transaction_id: tid })
    &&& tlvs_view(m.attributes@) == tlvs_view(attributes)
}

/// What a timer's expiry calls for.
pub enum Expiry<S> {
    /// The transaction is over: this sink gets `Timeout`.
    TimedOut(S),
    /// Send this message again to this peer.
    Retransmit(Message, PeerAddr),
}

/// What an inbound message calls for.
pub enum Incoming<S> {
    /// A request: this side is a client only.
    Ignored,
    /// An indication, to hand to the user.
    Indication(Indication),
    /// A reply to no transaction in flight.
    Orphaned,
    /// A reply from another address than the request went to; the
    /// transaction stays.
    UnexpectedSource,
    /// The transaction is over: this sink gets this outcome.
    Resolved(S, Result<Response, TransactionError>),
}

/// The outcome that a reply of `class`, `method` and `attributes` gives a
/// request of `request_method`.
pub open spec fn reply_outcome(
    request_method: u16,
    class: Class,
    method: u16,
    attributes: Vec<Tlv>,
) -> Result<Response, TransactionError> {
    if request_method != method {
        Err(TransactionError::MethodMismatch { request_method, response_method: method })
    } else if class == Class::Response {
        Ok(Response::Success(attributes))
    } else {
        Ok(Response::Error(attributes))
    }
}

/// Each request of `m` has exactly one timeout in `s` and each timeout of `s`
/// belongs to a request of `m`; ids are valid and each request has been sent.
pub open spec fn consistent<S>(s: Seq<PendingTimeout>, m: Map<TransactionId, Request<S>>) -> bool {
    &&& forall|i: int| 0 <= i < s.len() ==> m.contains_key(#[trigger] s[i].tid)
    &&& forall|t: TransactionId| #[trigger] m.contains_key(t) ==> exists|i: int| 0 <= i < s.len() && s[i].tid == t
    &&& forall|i: int, j: int|
        0 <= i < s.len() && 0 <= j < s.len() && i != j ==> #[trigger] s[i].tid != #[trigger] s[j].tid
    &&& forall|t: TransactionId| #[trigger] m.contains_key(t) ==> valid_tid(t) && m[t].attempts_made >= 1
}

/// Taking out a timeout and its request keeps the two consistent.
proof fn lemma_consistent_remove<S>(s: Seq<PendingTimeout>, m: Map<TransactionId, Request<S>>, i: int)
    requires
        consistent(s, m),
        0 <= i < s.len(),
    ensures
        consistent(s.remove(i), m.remove(s[i].tid)),
        forall|k: int| 0 <= k < s.remove(i).len() ==> (#[trigger] s.remove(i)[k]).tid != s[i].tid,
{
    let s2 = s.remove(i);
    let m2 = m.remove(s[i].tid);
    assert forall|k: int| 0 <= k < s2.len() implies (#[trigger] s2[k]).tid != s[i].tid && m2.contains_key(s2[k].tid) by {
        if k < i {
            assert(s2[k] == s[k]);
        } else {
            assert(s2[k] == s[k + 1]);
        }
    }
    assert forall|t: TransactionId| #[trigger] m2.contains_key(t) implies exists|k: int| 0 <= k < s2.len() && s2[k].tid == t by {
        let j = choose|j: int| 0 <= j < s.len() && s[j].tid == t;
        assert(j != i);
        if j < i {
            assert(s2[j] == s[j]);
        } else {
            assert(s2[j - 1] == s[j]);
        }
    }
    assert forall|a: int, b: int| 0 <= a < s2.len() && 0 <= b < s2.len() && a != b implies #[trigger] s2[a].tid != #[trigger] s2[b].tid by {
        let a1 = if a < i { a } else { a + 1 };
        let b1 = if b < i { b } else { b + 1 };
        assert(s2[a] == s[a1]);
        assert(s2[b] == s[b1]);
    }
}

/// Adding a timeout and a request of a new id keeps the two consistent.
proof fn lemma_consistent_push<S>(s: Seq<PendingTimeout>, m: Map<TransactionId, Request<S>>, p: PendingTimeout, request: Request<S>)
    requires
        consistent(s, m),
        !m.contains_key(p.tid),
        valid_tid(p.tid),
        request.attempts_made >= 1,
    ensures
        consistent(s.push(p), m.insert(p.tid, request)),
{
    let s2 = s.push(p);
    let m2 = m.insert(p.tid, request);
    assert(s2[s.len() as int] == p);
    assert forall|k: int| 0 <= k < s2.len() implies m2.contains_key(#[trigger] s2[k].tid) by {
        if k < s.len() {
            assert(s2[k] == s[k]);
        }
    }
    assert forall|t: TransactionId| #[trigger] m2.contains_key(t) implies exists|k: int| 0 <= k < s2.len() && s2[k].tid == t by {
        if t != p.tid {
            let j = choose|j: int| 0 <= j < s.len() && s[j].tid == t;
            assert(s2[j] == s[j]);
        }
    }
    assert forall|a: int, b: int| 0 <= a < s2.len() && 0 <= b < s2.len() && a != b implies #[trigger] s2[a].tid != #[trigger] s2[b].tid by {
        if a < s.len() {
            assert(s2[a] == s[a]);
            assert(m.contains_key(s[a].tid));
        }
        if b < s.len() {
            assert(s2[b] == s[b]);
            assert(m.contains_key(s[b].tid));
        }
    }
}

/// `after` is `before` without the one timeout of `tid`.
pub open spec fn removed_timer(before: Seq<PendingTimeout>, after: Seq<PendingTimeout>, tid: TransactionId) -> bool {
    exists|i: int| 0 <= i < before.len() && before[i].tid == tid && after == before.remove(i)
}

/// A reply of `class` for `tid` from `source_addr` would change `m`: it is a
/// reply, to a request in flight, from the peer that the request went to.
pub open spec fn reply_changes_state<P: RtoPolicy, S>(m: Manager<P, S>, class: Class, tid: TransactionId, source_addr: PeerAddr) -> bool {
    &&& class == Class::Response || class == Class::Error
    &&& m.table().contains_key(tid)
    &&& m.table()[tid].destination_addr == source_addr
}

/// The number of outstanding requests equals the number of distinct
/// transaction ids among the pending timeouts, which is the number of
/// pending timeouts.
pub proof fn lemma_table_size_matches_timers<P: RtoPolicy, S>(m: Manager<P, S>)
    requires
        m.wf(),
    ensures
        m.table().len() == m.timers().map_values(|p: PendingTimeout| p.tid).to_set().len(),
        m.table().len() == m.timers().len(),
{
    m.outstanding_requests.lemma_finite();
    let tids = m.timers().map_values(|p: PendingTimeout| p.tid);
    assert forall|i: int, j: int| 0 <= i < tids.len() && 0 <= j < tids.len() && i != j implies tids[i] != tids[j] by {
        assert(tids[i] == m.timers()[i].tid);
        assert(tids[j] == m.timers()[j].tid);
    }
    assert forall|t: TransactionId| tids.to_set().contains(t) <==> m.table().dom().contains(t) by {
        if m.table().contains_key(t) {
            let i = choose|i: int| 0 <= i < m.timers().len() && m.timers()[i].tid == t;
            assert(tids[i] == t);
        }
        if tids.contains(t) {
            let i = choose|i: int| 0 <= i < tids.len() && tids[i] == t;
            assert(m.timers()[i].tid == t);
        }
    }
    assert(tids.to_set() =~= m.table().dom());
    tids.unique_seq_to_set();
}

/// Once the transaction `tid` has ended, in any way, nothing can end it
/// again: no message for `tid` changes the state, whatever its class and
/// sender, and no timeout of `tid` is left to expire.
pub proof fn lemma_ended_transaction_is_inert<P: RtoPolicy, S>(before: Manager<P, S>, after: Manager<P, S>, tid: TransactionId)
    requires
        after.wf(),
        after.table() == before.table().remove(tid),
    ensures
        forall|class: Class, source_addr: PeerAddr| !reply_changes_state(after, class, tid, source_addr),
        forall|i: int| 0 <= i < after.timers().len() ==> (#[trigger] after.timers()[i]).tid != tid,
{
}

/// Under a constant timeout `d` without retransmissions, the first wait of a
/// request sent at `now` ends at `now + d`, never at the default; when it
/// ends, the request having been sent once, the policy's answer ends the
/// transaction with a timeout.
pub proof fn lemma_const_timeout_ends_after_one_wait<S>(policy: NoRetransmissionsConstTimeout, request: Request<S>, now: u64)
    ensures
        initial_deadline(now, policy.rto_of(request.destination_addr, 0, now)) == deadline(now, policy.timeout),
        policy.rto_of(request.destination_addr, sent_once(request, now).attempts_made, now) is None,
{
}

/// Taking out the timeout of `tid` keeps every timeout of another id.
proof fn lemma_removed_keeps_others(before: Seq<PendingTimeout>, after: Seq<PendingTimeout>, tid: TransactionId, q: PendingTimeout)
    requires
        removed_timer(before, after, tid),
        before.contains(q),
        q.tid != tid,
    ensures
        after.contains(q),
{
    let k = choose|k: int| 0 <= k < before.len() && before[k].tid == tid && after == before.remove(k);
    let j = choose|j: int| 0 <= j < before.len() && before[j] == q;
    if j < k {
        assert(after[j] == q);
    } else {
        assert(after[j - 1] == q);
    }
}

/// The timeout of `tid` in `s` has ended by `now`.
pub open spec fn is_due(s: Seq<PendingTimeout>, tid: TransactionId, now: u64) -> bool {
    exists|i: int| 0 <= i < s.len() && s[i].tid == tid && s[i].timeout_at <= now
}

/// When the wait of `tid` in `s` ends.
pub open spec fn deadline_of(s: Seq<PendingTimeout>, tid: TransactionId) -> u64 {
    s[choose|i: int| 0 <= i < s.len() && s[i].tid == tid].timeout_at
}

/// What the policy of `m` answers when the wait of `tid` ends: asked with
/// the request's destination, sends so far and start.
pub open spec fn answer_at_expiry<P: RtoPolicy, S>(m: Manager<P, S>, tid: TransactionId) -> Option<u64> {
    let q = m.table()[tid];
    m.policy().rto_of(q.destination_addr, q.attempts_made, q.start_time)
}

/// `e` is what the end of the wait of `tid` in `m` calls for: the sink, to
/// be told of the timeout, when the policy gives up; else the request again.
pub open spec fn expiry_of<P: RtoPolicy, S>(m: Manager<P, S>, tid: TransactionId, e: Expiry<S>) -> bool {
    let q = m.table()[tid];
    match answer_at_expiry(m, tid) {
        None => e matches Expiry::TimedOut(sink) && sink == q.response_sink,
        Some(_) => e matches Expiry::Retransmit(msg, dest) && dest == q.destination_addr
            && is_request_message(msg, q.method, tid, q.attributes@),
    }
}

/// `table` and `timers` hold what the end of the wait of `tid` in `m` at
/// `now` leaves: nothing of `tid` when the policy gives up; else the request
/// sent once more, waiting as long as the policy said.
pub open spec fn expired_in<P: RtoPolicy, S>(
    m: Manager<P, S>,
    table: Map<TransactionId, Request<S>>,
    timers: Seq<PendingTimeout>,
    tid: TransactionId,
    now: u64,
) -> bool {
    match answer_at_expiry(m, tid) {
        None => !table.contains_key(tid),
        Some(rto) => table.contains_key(tid) && table[tid] == sent_again(m.table()[tid])
            && timers.contains(PendingTimeout { timeout_at: deadline(now, rto), tid }),
    }
}

/// Under a constant timeout without retransmissions, every outstanding
/// request ends when its wait ends: the policy's answer at its expiry is
/// `None`, so `handle_timeouts` at or after its deadline gives its sink
/// `TimedOut` and takes it out.
pub proof fn lemma_const_timeout_every_expiry_ends<S>(m: Manager<NoRetransmissionsConstTimeout, S>, tid: TransactionId)
    requires
        m.wf(),
        m.table().contains_key(tid),
    ensures
        answer_at_expiry(m, tid) is None,
{
}

/// Distinct ids, each of a timeout of `s`, are no more than the timeouts.
proof fn lemma_distinct_bounded(s: Seq<PendingTimeout>, ts: Seq<TransactionId>)
    requires
        ts.no_duplicates(),
        forall|j: int| 0 <= j < ts.len() ==> exists|i: int| 0 <= i < s.len() && s[i].tid == #[trigger] ts[j],
    ensures
        ts.len() <= s.len(),
{
    broadcast use vstd::seq_lib::seq_to_set_is_finite;
    let tids = s.map_values(|p: PendingTimeout| p.tid);
    assert forall|t: TransactionId| ts.to_set().contains(t) implies tids.to_set().contains(t) by {
        let j = choose|j: int| 0 <= j < ts.len() && ts[j] == t;
        let i = choose|i: int| 0 <= i < s.len() && s[i].tid == ts[j];
        assert(tids[i] == t);
    }
    ts.unique_seq_to_set();
    tids.lemma_cardinality_of_set();
    vstd::set_lib::lemma_len_subset(ts.to_set(), tids.to_set());
}

/// The state of the transactions in flight: the pending timeouts, the
/// outstanding requests, and the retransmission policy.
pub struct Manager<P, S> {
    pending_timeouts: TimerQueue,
    outstanding_requests: OutstandingTable<S>,
    rto: P,
}

impl<P: RtoPolicy, S> Manager<P, S> {
    /// The pending timeouts.
    pub closed spec fn timers(&self) -> Seq<PendingTimeout> {
        self.pending_timeouts@
    }

    /// The outstanding requests by transaction id.
    pub closed spec fn table(&self) -> Map<TransactionId, Request<S>> {
        self.outstanding_requests@
    }

    /// The retransmission policy.
    pub closed spec fn policy(&self) -> P {
        self.rto
    }

    /// Each outstanding request has exactly one pending timeout and each
    /// pending timeout belongs to an outstanding request; ids are valid and
    /// each request has been sent.
    pub open spec fn wf(&self) -> bool {
        consistent(self.timers(), self.table())
    }

    pub fn new(rto_policy: P) -> (r: Self)
        ensures
            r.wf(),
            r.timers() == Seq::<PendingTimeout>::empty(),
            r.table() == Map::<TransactionId, Request<S>>::empty(),
            r.policy() == rto_policy,
    {
        Manager { pending_timeouts: TimerQueue::new(), outstanding_requests: OutstandingTable::new(), rto: rto_policy }
    }

    /// How many requests are in flight.
    pub fn outstanding(&self) -> (r: usize)
        ensures
            r == self.table().len(),
    {
        self.outstanding_requests.len()
    }

    /// Whether the processor may stop: both submission queues are closed
    /// and no request is in flight.
    pub fn may_shut_down(&self, requests_open: bool, indications_open: bool) -> (r: bool)
        ensures
            r == (!requests_open && !indications_open && self.table().len() == 0),
    {
        !requests_open && !indications_open && self.outstanding_requests.len() == 0
    }

    /// How many timeouts are pending.
    pub fn pending(&self) -> (r: usize)
        ensures
            r == self.timers().len(),
    {
        self.pending_timeouts.len()
    }

    /// When the earliest pending timeout ends, or `None` when nothing waits.
    pub fn next_timeout(&self) -> (r: Option<u64>)
        ensures
            r is None <==> self.timers().len() == 0,
            r matches Some(t) ==> exists|p: PendingTimeout|
                self.timers().contains(p) && is_earliest(self.timers(), p) && p.timeout_at == t,
    {
        match self.pending_timeouts.peek_min() {
            Some(p) => Some(p.timeout_at),
            None => None,
        }
    }

    /// Records `request` as sent at `now` under the fresh id `tid`, with the
    /// policy's answer `initial_rto` for its first wait, and gives the message
    /// that was sent with its destination.
    pub fn register_request(&mut self, request: Request<S>, tid: TransactionId, now: u64, initial_rto: Option<u64>) -> (r: (Message, PeerAddr))
        requires
            old(self).wf(),
            valid_tid(tid),
            !old(self).table().contains_key(tid),
        ensures
            final(self).wf(),
            final(self).policy() == old(self).policy(),
            final(self).table() == old(self).table().insert(tid, sent_once(request, now)),
            final(self).timers() == old(self).timers().push(
                PendingTimeout { timeout_at: initial_deadline(now, initial_rto), tid },
            ),
            is_request_message(r.0, request.method, tid, request.attributes@),
            r.1 == request.destination_addr,
    {
        proof {
            lemma_consistent_push(
                old(self).timers(),
                old(self).table(),
                PendingTimeout { timeout_at: initial_deadline(now, initial_rto), tid },
                sent_once(request, now),
            );
        }
        let msg = Message::request(request.method, tid, duplicate_tlvs(&request.attributes));
        let dest = request.destination_addr;
        let rto = match initial_rto {
            Some(rto) => rto,
            None => DEFAULT_RTO,
        };
        self.pending_timeouts.push(PendingTimeout { timeout_at: now.saturating_add(rto), tid });
        let mut request = request;
        request.attempts_made = 1;
        request.start_time = now;
        self.outstanding_requests.insert(tid, request);
        (msg, dest)
    }

    /// A timeout of another id than `tid` outlives the expiry of `tid`.
    proof fn lemma_kept_by_expire(before: Self, after: Self, tid: TransactionId, decision: Option<u64>, now: u64, q: PendingTimeout)
        requires
            before.timers().contains(q),
            q.tid != tid,
            decision is None ==> removed_timer(before.timers(), after.timers(), tid),
            decision matches Some(rto) ==> exists|mid: Seq<PendingTimeout>|
                removed_timer(before.timers(), mid, tid) && after.timers() == mid.push(
                    PendingTimeout { timeout_at: deadline(now, rto), tid },
                ),
        ensures
            after.timers().contains(q),
    {
        match decision {
            None => lemma_removed_keeps_others(before.timers(), after.timers(), tid, q),
            Some(rto) => {
                let mid = choose|mid: Seq<PendingTimeout>|
                    removed_timer(before.timers(), mid, tid) && after.timers() == mid.push(
                        PendingTimeout { timeout_at: deadline(now, rto), tid },
                    );
                lemma_removed_keeps_others(before.timers(), mid, tid, q);
                let j = choose|j: int| 0 <= j < mid.len() && mid[j] == q;
                assert(after.timers()[j] == q);
            },
        }
    }

    /// A timeout of another id than `tid` after the expiry of `tid` was
    /// there before.
    proof fn lemma_expire_source(before: Self, after: Self, tid: TransactionId, decision: Option<u64>, now: u64, x: PendingTimeout)
        requires
            after.timers().contains(x),
            x.tid != tid,
            decision is None ==> removed_timer(before.timers(), after.timers(), tid),
            decision matches Some(rto) ==> exists|mid: Seq<PendingTimeout>|
                removed_timer(before.timers(), mid, tid) && after.timers() == mid.push(
                    PendingTimeout { timeout_at: deadline(now, rto), tid },
                ),
        ensures
            before.timers().contains(x),
    {
        let mid = match decision {
            None => after.timers(),
            Some(rto) => choose|mid: Seq<PendingTimeout>|
                removed_timer(before.timers(), mid, tid) && after.timers() == mid.push(
                    PendingTimeout { timeout_at: deadline(now, rto), tid },
                ),
        };
        assert(mid.contains(x)) by {
            let j = choose|j: int| 0 <= j < after.timers().len() && after.timers()[j] == x;
            if decision is Some {
                assert(j < mid.len());
                assert(mid[j] == x);
            }
        }
        let k = choose|k: int| 0 <= k < before.timers().len() && before.timers()[k].tid == tid && mid == before.timers().remove(k);
        let j = choose|j: int| 0 <= j < mid.len() && mid[j] == x;
        if j < k {
            assert(before.timers()[j] == x);
        } else {
            assert(before.timers()[j + 1] == x);
        }
    }

    /// Nothing of `self` differs from `other`.
    pub open spec fn unchanged_from(&self, other: &Self) -> bool {
        &&& self.timers() == other.timers()
        &&& self.table() == other.table()
        &&& self.policy() == other.policy()
    }

    /// Ends the transaction `tid`: takes out its request and its timeout.
    fn drop_transaction(&mut self, tid: TransactionId) -> (r: Request<S>)
        requires
            old(self).wf(),
            old(self).table().contains_key(tid),
        ensures
            final(self).wf(),
            final(self).policy() == old(self).policy(),
            r == old(self).table()[tid],
            final(self).table() == old(self).table().remove(tid),
            removed_timer(old(self).timers(), final(self).timers(), tid),
    {
        let found = self.pending_timeouts.remove_tid(tid);
        proof {
            let i = choose|i: int| 0 <= i < old(self).timers().len() && old(self).timers()[i].tid == tid;
            assert(found);
            let j = choose|j: int|
                0 <= j < old(self).timers().len() && old(self).timers()[j].tid == tid
                    && self.timers() == old(self).timers().remove(j);
            lemma_consistent_remove(old(self).timers(), old(self).table(), j);
        }
        self.outstanding_requests.remove(tid).unwrap()
    }

    /// Acts on the end of the wait of `tid` at `now`, given what the policy
    /// answered: `None` ends the transaction with a timeout; `Some(rto)` sends
    /// the request again and waits `rto` more.
    pub fn expire(&mut self, tid: TransactionId, decision: Option<u64>, now: u64) -> (r: Expiry<S>)
        requires
            old(self).wf(),
            old(self).table().contains_key(tid),
        ensures
            final(self).wf(),
            final(self).policy() == old(self).policy(),
            decision is None ==> {
                &&& r matches Expiry::TimedOut(sink) && sink == old(self).table()[tid].response_sink
                &&& final(self).table() == old(self).table().remove(tid)
                &&& removed_timer(old(self).timers(), final(self).timers(), tid)
            },
            decision matches Some(rto) ==> {
                let request = old(self).table()[tid];
                &&& r matches Expiry::Retransmit(m, dest) && dest == request.destination_addr
                    && is_request_message(m, request.method, tid, request.attributes@)
                &&& final(self).table() == old(self).table().insert(tid, sent_again(request))
                &&& exists|mid: Seq<PendingTimeout>|
                    removed_timer(old(self).timers(), mid, tid) && final(self).timers() == mid.push(
                        PendingTimeout { timeout_at: deadline(now, rto), tid },
                    )
            },
    {
        let ghost before = *self;
        let request = self.drop_transaction(tid);
        match decision {
            None => Expiry::TimedOut(request.response_sink),
            Some(rto) => {
                proof {
                    lemma_consistent_push(
                        self.timers(),
                        self.table(),
                        PendingTimeout { timeout_at: deadline(now, rto), tid },
                        sent_again(request),
                    );
                }
                let msg = Message::request(request.method, tid, duplicate_tlvs(&request.attributes));
                let dest = request.destination_addr;
                let mut request = request;
                request.attempts_made = request.attempts_made.saturating_add(1);
                self.pending_timeouts.push(PendingTimeout { timeout_at: now.saturating_add(rto), tid });
                self.outstanding_requests.insert(tid, request);
                assert(self.table() =~= before.table().insert(tid, sent_again(before.table()[tid])));
                Expiry::Retransmit(msg, dest)
            },
        }
    }

    /// Acts on the timeouts that had ended by `now` when the call began, each
    /// once, earliest first: asks the policy about each with the request's
    /// destination, sends so far and start, and ends or resends it as
    /// `expire` does. Gives each id with what its expiry calls for, in order.
    /// A timeout that a resend sets to `now` waits for the next call.
    pub fn handle_timeouts(&mut self, now: u64) -> (r: Vec<(TransactionId, Expiry<S>)>)
        requires
            old(self).wf(),
        ensures
            final(self).wf(),
            final(self).policy() == old(self).policy(),
            forall|t: TransactionId| #[trigger] final(self).table().contains_key(t) ==> old(self).table().contains_key(t),
            forall|t: TransactionId|
                old(self).table().contains_key(t) && !is_due(old(self).timers(), t, now) ==> {
                    &&& final(self).table().contains_key(t)
                    &&& final(self).table()[t] == old(self).table()[t]
                    &&& forall|i: int| 0 <= i < old(self).timers().len() && (#[trigger] old(self).timers()[i]).tid == t
                        ==> final(self).timers().contains(old(self).timers()[i])
                },
            forall|t: TransactionId| #[trigger] is_due(old(self).timers(), t, now) ==> {
                &&& expired_in(*old(self), final(self).table(), final(self).timers(), t, now)
                &&& exists|j: int| 0 <= j < r@.len() && r@[j].0 == t
            },
            forall|j: int| 0 <= j < r@.len() ==> is_due(old(self).timers(), (#[trigger] r@[j]).0, now)
                && expiry_of(*old(self), r@[j].0, r@[j].1),
            forall|j: int, k: int| 0 <= j < r@.len() && 0 <= k < r@.len() && j != k ==> (#[trigger] r@[j]).0 != (#[trigger] r@[k]).0,
            forall|j: int, k: int| 0 <= j < k < r@.len() ==> deadline_of(old(self).timers(), (#[trigger] r@[j]).0)
                <= deadline_of(old(self).timers(), (#[trigger] r@[k]).0),
            forall|i: int| 0 <= i < final(self).timers().len() && !is_due(old(self).timers(), (#[trigger] final(self).timers()[i]).tid, now)
                ==> final(self).timers()[i].timeout_at > now,
    {
        let ghost o = *self;
        let mut out: Vec<(TransactionId, Expiry<S>)> = Vec::new();
        let mut done: Vec<TransactionId> = Vec::new();
        loop
            invariant
                self.wf(),
                o.wf(),
                o == *old(self),
                self.policy() == o.policy(),
                done@.len() == out@.len(),
                done@.len() <= o.timers().len(),
                forall|j: int| 0 <= j < out@.len() ==> done@[j] == (#[trigger] out@[j]).0,
                done@.no_duplicates(),
                forall|j: int| 0 <= j < done@.len() ==> is_due(o.timers(), #[trigger] done@[j], now),
                forall|j: int, k: int| 0 <= j < k < done@.len() ==> deadline_of(o.timers(), #[trigger] done@[j])
                    <= deadline_of(o.timers(), #[trigger] done@[k]),
                forall|j: int, i: int|
                    0 <= j < done@.len() && 0 <= i < o.timers().len() && (#[trigger] o.timers()[i]).timeout_at <= now
                        && !done@.contains(o.timers()[i].tid) ==> deadline_of(o.timers(), #[trigger] done@[j]) <= o.timers()[i].timeout_at,
                forall|j: int| 0 <= j < out@.len() ==> expiry_of(o, (#[trigger] out@[j]).0, out@[j].1),
                forall|t: TransactionId| #[trigger] self.table().contains_key(t) ==> o.table().contains_key(t),
                forall|t: TransactionId| #[trigger] o.table().contains_key(t) && !done@.contains(t) ==> {
                    &&& self.table().contains_key(t)
                    &&& self.table()[t] == o.table()[t]
                    &&& forall|i: int| 0 <= i < o.timers().len() && (#[trigger] o.timers()[i]).tid == t
                        ==> self.timers().contains(o.timers()[i])
                },
                forall|t: TransactionId| #[trigger] done@.contains(t) ==> expired_in(o, self.table(), self.timers(), t, now),
                forall|i: int| 0 <= i < self.timers().len() && !done@.contains((#[trigger] self.timers()[i]).tid)
                    ==> o.timers().contains(self.timers()[i]),
            ensures
                forall|i: int| 0 <= i < self.timers().len() && (#[trigger] self.timers()[i]).timeout_at <= now
                    ==> done@.contains(self.timers()[i].tid),
            decreases o.timers().len() - done@.len(),
        {
            let p = match self.pending_timeouts.earliest_due(now, &done) {
                Some(p) => p,
                None => break,
            };
            let ghost before = *self;
            let ghost t = p.tid;
            proof {
                let ip = choose|ip: int| 0 <= ip < o.timers().len() && o.timers()[ip] == p;
                assert(o.timers()[ip].tid == t);
                assert(is_due(o.timers(), t, now));
                assert(o.table().contains_key(o.timers()[ip].tid));
                assert(before.table()[t] == o.table()[t]);
                lemma_distinct_bounded(o.timers(), done@.push(t));
                let c = choose|c: int| 0 <= c < o.timers().len() && o.timers()[c].tid == t;
                assert(c == ip);
                assert(deadline_of(o.timers(), t) == p.timeout_at);
                assert forall|i: int|
                    0 <= i < o.timers().len() && (#[trigger] o.timers()[i]).timeout_at <= now && !done@.contains(o.timers()[i].tid)
                        implies p.timeout_at <= o.timers()[i].timeout_at by {
                    assert(o.table().contains_key(o.timers()[i].tid));
                    let k = choose|k: int| 0 <= k < before.timers().len() && before.timers()[k] == o.timers()[i];
                    assert(before.timers()[k].timeout_at <= now);
                }
            }
            let request = self.outstanding_requests.get(p.tid).unwrap();
            let decision = self.rto.calculate_rto(request.destination_addr, request.attempts_made, request.start_time);
            let e = self.expire(p.tid, decision, now);
            let ghost old_done = done@;
            out.push((p.tid, e));
            done.push(p.tid);
            proof {
                assert(done@[done@.len() - 1] == t);
                assert(done@.contains(t));
                assert forall|u: TransactionId| old_done.contains(u) implies #[trigger] done@.contains(u) by {
                    let j = choose|j: int| 0 <= j < old_done.len() && old_done[j] == u;
                    assert(done@[j] == u);
                }
                assert forall|u: TransactionId| #[trigger] done@.contains(u) implies old_done.contains(u) || u == t by {
                    let j = choose|j: int| 0 <= j < done@.len() && done@[j] == u;
                    if j < old_done.len() {
                        assert(old_done[j] == u);
                    }
                }
                assert(expired_in(o, self.table(), self.timers(), t, now)) by {
                    if let Some(rto) = decision {
                        assert(self.timers()[self.timers().len() - 1] == PendingTimeout { timeout_at: deadline(now, rto), tid: t });
                    }
                }
                assert forall|u: TransactionId| #[trigger] done@.contains(u) implies expired_in(o, self.table(), self.timers(), u, now) by {
                    if u != t {
                        assert(old_done.contains(u));
                        assert(expired_in(o, before.table(), before.timers(), u, now));
                        if let Some(rto) = answer_at_expiry(o, u) {
                            let q = PendingTimeout { timeout_at: deadline(now, rto), tid: u };
                            Self::lemma_kept_by_expire(before, *self, t, decision, now, q);
                        }
                    }
                }
                assert forall|u: TransactionId| #[trigger] o.table().contains_key(u) && !done@.contains(u) implies {
                    &&& self.table().contains_key(u)
                    &&& self.table()[u] == o.table()[u]
                    &&& forall|i: int| 0 <= i < o.timers().len() && (#[trigger] o.timers()[i]).tid == u
                        ==> self.timers().contains(o.timers()[i])
                } by {
                    assert(u != t);
                    assert(!old_done.contains(u));
                    assert forall|i: int| 0 <= i < o.timers().len() && (#[trigger] o.timers()[i]).tid == u
                        implies self.timers().contains(o.timers()[i]) by {
                        Self::lemma_kept_by_expire(before, *self, t, decision, now, o.timers()[i]);
                    }
                }
                assert forall|i: int| 0 <= i < self.timers().len() && !done@.contains((#[trigger] self.timers()[i]).tid)
                    implies o.timers().contains(self.timers()[i]) by {
                    let x = self.timers()[i];
                    assert(x.tid != t);
                    Self::lemma_expire_source(before, *self, t, decision, now, x);
                }
                assert forall|j: int, k: int| 0 <= j < k < done@.len() implies deadline_of(o.timers(), #[trigger] done@[j])
                    <= deadline_of(o.timers(), #[trigger] done@[k]) by {
                    if k < old_done.len() {
                        assert(old_done[j] == done@[j] && old_done[k] == done@[k]);
                    } else {
                        assert(old_done[j] == done@[j]);
                        assert(!old_done.contains(t));
                    }
                }
                assert forall|j: int, i: int|
                    0 <= j < done@.len() && 0 <= i < o.timers().len() && (#[trigger] o.timers()[i]).timeout_at <= now
                        && !done@.contains(o.timers()[i].tid) implies deadline_of(o.timers(), #[trigger] done@[j]) <= o.timers()[i].timeout_at by {
                    if j < old_done.len() {
                        assert(old_done[j] == done@[j]);
                        assert(!old_done.contains(o.timers()[i].tid));
                    }
                }
                assert forall|a: int, b: int| 0 <= a < done@.len() && 0 <= b < done@.len() && a != b implies done@[a] != done@[b] by {
                    if a < old_done.len() && b < old_done.len() {
                        assert(old_done[a] == done@[a] && old_done[b] == done@[b]);
                    } else if a < old_done.len() {
                        assert(old_done.contains(done@[a]));
                    } else {
                        assert(old_done.contains(done@[b]));
                    }
                }
            }
        }
        proof {
            assert forall|u: TransactionId| #[trigger] is_due(o.timers(), u, now) implies done@.contains(u) by {
                let i = choose|i: int| 0 <= i < o.timers().len() && o.timers()[i].tid == u && o.timers()[i].timeout_at <= now;
                if !done@.contains(u) {
                    assert(o.table().contains_key(o.timers()[i].tid));
                    let k = choose|k: int| 0 <= k < self.timers().len() && self.timers()[k] == o.timers()[i];
                    assert(self.timers()[k].timeout_at <= now);
                }
            }
            assert forall|j: int, k: int| 0 <= j < k < out@.len() implies deadline_of(o.timers(), (#[trigger] out@[j]).0)
                <= deadline_of(o.timers(), (#[trigger] out@[k]).0) by {
                assert(done@[j] == out@[j].0 && done@[k] == out@[k].0);
            }
            assert forall|u: TransactionId| #[trigger] is_due(o.timers(), u, now) implies exists|j: int| 0 <= j < out@.len() && out@[j].0 == u by {
                let j = choose|j: int| 0 <= j < done@.len() && done@[j] == u;
                assert(out@[j].0 == u);
            }
            assert forall|i: int| 0 <= i < self.timers().len() && !is_due(o.timers(), (#[trigger] self.timers()[i]).tid, now)
                implies self.timers()[i].timeout_at > now by {
                let x = self.timers()[i];
                if done@.contains(x.tid) {
                    let j = choose|j: int| 0 <= j < done@.len() && done@[j] == x.tid;
                }
                let k = choose|k: int| 0 <= k < o.timers().len() && o.timers()[k] == x;
            }
        }
        out
    }

    /// Sends `request` at `now` under a fresh random id: asks the policy for
    /// its first wait, with the destination, no send before and `now`, and
    /// records it. Gives the message to send and its destination, or the
    /// request back when no fresh id came up in a few draws, which cannot
    /// happen while nothing is outstanding.
    pub fn handle_outgoing_request(&mut self, request: Request<S>, now: u64) -> (r: Result<(Message, PeerAddr), Request<S>>)
        requires
            old(self).wf(),
        ensures
            final(self).wf(),
            final(self).policy() == old(self).policy(),
            r is Err ==> old(self).table().len() > 0,
            r matches Err(q) ==> q == request && final(self).unchanged_from(old(self)),
            r matches Ok(sent) ==> exists|tid: TransactionId| {
                &&& valid_tid(tid)
                &&& !old(self).table().contains_key(tid)
                &&& final(self).table() == old(self).table().insert(tid, sent_once(request, now))
                &&& final(self).timers() == old(self).timers().push(
                    PendingTimeout {
                        timeout_at: initial_deadline(now, old(self).policy().rto_of(request.destination_addr, 0, now)),
                        tid,
                    },
                )
                &&& is_request_message(sent.0, request.method, tid, request.attributes@)
                &&& sent.1 == request.destination_addr
            },
    {
        let mut tid = random_tid();
        let mut draws: usize = 1;
        while self.outstanding_requests.contains(tid) && draws < MAX_TID_DRAWS
            invariant
                valid_tid(tid),
                draws <= MAX_TID_DRAWS,
            decreases MAX_TID_DRAWS - draws,
        {
            tid = random_tid();
            draws = draws + 1;
        }
        if self.outstanding_requests.contains(tid) {
            proof {
                self.outstanding_requests.lemma_finite();
                vstd::set_lib::lemma_set_empty_equivalency_len(self.table().dom());
            }
            return Err(request);
        }
        let initial_rto = self.rto.calculate_rto(request.destination_addr, 0, now);
        Ok(self.register_request(request, tid, now, initial_rto))
    }

    /// Sends an indication under a random id: gives the message and its
    /// destination. Nothing is recorded.
    pub fn handle_outgoing_indication(&self, indication: Indication) -> (r: (Message, PeerAddr))
        ensures
            r.0.header.class == Class::Indication,
            r.0.header.method == indication.method,
            valid_tid(r.0.header.transaction_id),
            r.0.attributes == indication.attributes,
            r.1 == indication.farend_addr,
    {
        let tid = random_tid();
        let Indication { farend_addr, method, attributes } = indication;
        (Message::indication(method, tid, attributes), farend_addr)
    }

    /// Acts on `message` from `source_addr`, received at `now`. A reply from
    /// the peer that its request went to ends that transaction, and gives the
    /// policy a round-trip sample when the request was sent once.
    pub fn handle_incoming_message(&mut self, message: Message, source_addr: PeerAddr, now: u64) -> (r: Incoming<S>)
        requires
            old(self).wf(),
        ensures
            final(self).wf(),
            ({
                let header = message.header;
                let tid = header.transaction_id;
                let request = old(self).table()[tid];
                let is_reply = header.class == Class::Response || header.class == Class::Error;
                &&& header.class == Class::Request ==> r is Ignored && final(self).unchanged_from(old(self))
                &&& header.class == Class::Indication ==> final(self).unchanged_from(old(self))
                    && (r matches Incoming::Indication(ind) && ind.farend_addr == source_addr
                        && ind.method == header.method && ind.attributes == message.attributes)
                &&& !reply_changes_state(*old(self), header.class, tid, source_addr) ==> final(self).unchanged_from(old(self))
                &&& is_reply && !old(self).table().contains_key(tid) ==> r is Orphaned
                    && final(self).unchanged_from(old(self))
                &&& is_reply && old(self).table().contains_key(tid) && request.destination_addr != source_addr
                    ==> r is UnexpectedSource && final(self).unchanged_from(old(self))
                &&& is_reply && old(self).table().contains_key(tid) && request.destination_addr == source_addr
                    ==> {
                    &&& (r matches Incoming::Resolved(sink, outcome) && sink == request.response_sink
                        && outcome == reply_outcome(request.method, header.class, header.method, message.attributes))
                    &&& final(self).table() == old(self).table().remove(tid)
                    &&& removed_timer(old(self).timers(), final(self).timers(), tid)
                    &&& request.attempts_made != 1 ==> final(self).policy() == old(self).policy()
                    &&& request.attempts_made == 1 ==> final(self).policy() == old(self).policy().sampled(
                        source_addr,
                        elapsed(request.start_time, now),
                    )
                }
            }),
    {
        let Message { header, attributes } = message;
        match header.class {
            Class::Request => Incoming::Ignored,
            Class::Indication => Incoming::Indication(
                Indication { farend_addr: source_addr, method: header.method, attributes },
            ),
            Class::Response | Class::Error => {
                let tid = header.transaction_id;
                match self.outstanding_requests.get(tid) {
                    None => {
                        return Incoming::Orphaned;
                    },
                    Some(request) => {
                        if request.destination_addr != source_addr {
                            return Incoming::UnexpectedSource;
                        }
                    },
                }
                let request = self.drop_transaction(tid);
                if request.attempts_made == 1 {
                    self.rto.submit_rtt(source_addr, now.saturating_sub(request.start_time));
                }
                let request_method = request.method;
                let response_method = header.method;
                let outcome = if request_method != response_method {
                    Err(TransactionError::MethodMismatch { request_method, response_method })
                } else if header.class == Class::Response {
                    Ok(Response::Success(attributes))
                } else {
                    Ok(Response::Error(attributes))
                };
                Incoming::Resolved(request.response_sink, outcome)
            },
        }
    }

    /// Ends every transaction, as on shutdown: gives the sink of each
    /// outstanding request, to be told that the channel closed.
    pub fn close(&mut self) -> (r: Vec<S>)
        requires
            old(self).wf(),
        ensures
            final(self).wf(),
            final(self).policy() == old(self).policy(),
            final(self).table() == Map::<TransactionId, Request<S>>::empty(),
            final(self).timers() == Seq::<PendingTimeout>::empty(),
            r@.len() == old(self).timers().len(),
            forall|t: TransactionId| #[trigger] old(self).table().contains_key(t)
                ==> r@.contains(old(self).table()[t].response_sink),
    {
        let mut sinks: Vec<S> = Vec::new();
        while self.pending_timeouts.len() > 0
            invariant
                self.wf(),
                self.policy() == old(self).policy(),
                sinks@.len() + self.timers().len() == old(self).timers().len(),
                forall|t: TransactionId| #[trigger] self.table().contains_key(t)
                    ==> old(self).table().contains_key(t) && self.table()[t] == old(self).table()[t],
                forall|t: TransactionId| #[trigger] old(self).table().contains_key(t)
                    ==> self.table().contains_key(t) || sinks@.contains(old(self).table()[t].response_sink),
            decreases self.timers().len(),
        {
            let ghost before = *self;
            let p = self.pending_timeouts.pop_min().unwrap();
            proof {
                let i = choose|i: int|
                    0 <= i < before.timers().len() && before.timers()[i] == p && is_earliest(before.timers(), p)
                        && self.timers() == before.timers().remove(i);
                lemma_consistent_remove(before.timers(), before.table(), i);
            }
            let request = self.outstanding_requests.remove(p.tid).unwrap();
            let ghost old_sinks = sinks@;
            sinks.push(request.response_sink);
            proof {
                assert forall|t: TransactionId| #[trigger] old(self).table().contains_key(t)
                    implies self.table().contains_key(t) || sinks@.contains(old(self).table()[t].response_sink) by {
                    if t == p.tid {
                        assert(sinks@[sinks@.len() - 1] == old(self).table()[t].response_sink);
                    } else if !self.table().contains_key(t) {
                        assert(!before.table().contains_key(t));
                        let k = choose|k: int| 0 <= k < old_sinks.len() && old_sinks[k] == old(self).table()[t].response_sink;
                        assert(sinks@[k] == old_sinks[k]);
                    }
                }
            }
        }
        proof {
            assert forall|t: TransactionId| !self.table().contains_key(t) by {
                if self.table().contains_key(t) {
                    let i = choose|i: int| 0 <= i < self.timers().len() && self.timers()[i].tid == t;
                }
            }
            assert(self.table() =~= Map::<TransactionId, Request<S>>::empty());
            assert(self.timers() =~= Seq::<PendingTimeout>::empty());
        }
        sinks
    }
}

/// How many ids `handle_outgoing_request` draws before giving up.
pub const MAX_TID_DRAWS: usize = 8;

} // verus!
