use crate::message::{PeerAddr, Tlv, TransactionId};
use std::collections::HashMap;
use vstd::prelude::*;

verus! {

broadcast use vstd::std_specs::hash::group_hash_axioms;

/// A request in flight. `S` is where its outcome goes; it is handed back
/// exactly once, when the transaction ends.
pub struct Request<S> {
    pub destination_addr: PeerAddr,
    pub method: u16,
    pub attributes: Vec<Tlv>,
    pub response_sink: S,
    /// How many times the request has been sent.
    pub attempts_made: usize,
    /// When it was first sent, in milliseconds of a monotonic clock.
    pub start_time: u64,
}

impl<S> Request<S> {
    /// A request not sent yet.
    pub fn new(destination_addr: PeerAddr, method: u16, attributes: Vec<Tlv>, response_sink: S) -> (r: Self)
        ensures
            r.destination_addr == destination_addr,
            r.method == method,
            r.attributes == attributes,
            r.response_sink == response_sink,
            r.attempts_made == 0,
            r.start_time == 0,
    {
        Request { destination_addr, method, attributes, response_sink, attempts_made: 0, start_time: 0 }
    }
}

/// The requests in flight, by transaction id.
pub struct OutstandingTable<S> {
    requests: HashMap<TransactionId, Request<S>>,
}

impl<S> View for OutstandingTable<S> {
    type V = Map<TransactionId, Request<S>>;

    closed spec fn view(&self) -> Map<TransactionId, Request<S>> {
        self.requests@
    }
}

impl<S> OutstandingTable<S> {
    pub fn new() -> (r: Self)
        ensures
            r@ == Map::<TransactionId, Request<S>>::empty(),
    {
        OutstandingTable { requests: HashMap::new() }
    }

    /// Finitely many requests are held.
    pub proof fn lemma_finite(&self)
        ensures
            self@.dom().finite(),
    {
    }

    pub fn len(&self) -> (r: usize)
        ensures
            r == self@.len(),
    {
        self.requests.len()
    }

    pub fn contains(&self, tid: TransactionId) -> (r: bool)
        ensures
            r == self@.contains_key(tid),
    {
        self.requests.contains_key(&tid)
    }

    pub fn get(&self, tid: TransactionId) -> (r: Option<&Request<S>>)
        ensures
            r matches Some(q) ==> self@.contains_key(tid) && *q == self@[tid],
            r is None ==> !self@.contains_key(tid),
    {
        self.requests.get(&tid)
    }

    /// Adds `request` under `tid`, replacing what was there.
    pub fn insert(&mut self, tid: TransactionId, request: Request<S>)
        ensures
            final(self)@ == old(self)@.insert(tid, request),
    {
        let _ = self.requests.insert(tid, request);
    }

    /// Takes out the request of `tid`, if there is one.
    pub fn remove(&mut self, tid: TransactionId) -> (r: Option<Request<S>>)
        ensures
            final(self)@ == old(self)@.remove(tid),
            r matches Some(q) ==> old(self)@.contains_key(tid) && q == old(self)@[tid],
            r is None ==> !old(self)@.contains_key(tid),
    {
        self.requests.remove(&tid)
    }
}

} // verus!
