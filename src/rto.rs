use crate::message::PeerAddr;
use vstd::prelude::*;

verus! {

/// The timeout that stands in for the first one when a policy gives none, in
/// milliseconds.
pub const DEFAULT_RTO: u64 = 1500;

/// Decides when to retransmit a request or give it up, and learns from
/// round-trip-time samples. Times and durations are in milliseconds of a
/// monotonic clock.
pub trait RtoPolicy: Sized {
    /// What `calculate_rto` answers.
    spec fn rto_of(&self, destination: PeerAddr, attempts_made: usize, start_time: u64) -> Option<u64>;

    /// The policy after it took in a sample.
    spec fn sampled(&self, destination: PeerAddr, elapsed: u64) -> Self;

    /// `Some(d)`: wait `d` and retransmit; `None`: the transaction has timed
    /// out. `attempts_made` is 0 on the first call for a request.
    fn calculate_rto(&self, destination: PeerAddr, attempts_made: usize, start_time: u64) -> (r: Option<u64>)
        ensures
            r == self.rto_of(destination, attempts_made, start_time),
    ;

    /// A round-trip time observed on a request that was sent once.
    fn submit_rtt(&mut self, destination: PeerAddr, elapsed: u64)
        ensures
            *final(self) == old(self).sampled(destination, elapsed),
    ;
}

/// A policy that never retransmits and waits a fixed time for a reply.
#[derive(Clone, Copy, Debug)]
pub struct NoRetransmissionsConstTimeout {
    pub timeout: u64,
}

impl NoRetransmissionsConstTimeout {
    pub fn new(timeout: u64) -> (r: Self)
        ensures
            r.timeout == timeout,
    {
        NoRetransmissionsConstTimeout { timeout }
    }

    /// What `calculate_rto` returns after `attempts_made` sends.
    pub open spec fn spec_rto(&self, attempts_made: usize) -> Option<u64> {
        if attempts_made == 0 {
            Some(self.timeout)
        } else {
            None
        }
    }
}

impl RtoPolicy for NoRetransmissionsConstTimeout {
    open spec fn rto_of(&self, destination: PeerAddr, attempts_made: usize, start_time: u64) -> Option<u64> {
        self.spec_rto(attempts_made)
    }

    open spec fn sampled(&self, destination: PeerAddr, elapsed: u64) -> Self {
        *self
    }

    fn calculate_rto(&self, destination: PeerAddr, attempts_made: usize, start_time: u64) -> (r: Option<u64>) {
        if attempts_made == 0 {
            Some(self.timeout)
        } else {
            None
        }
    }

    fn submit_rtt(&mut self, destination: PeerAddr, elapsed: u64) {
    }
}

} // verus!
