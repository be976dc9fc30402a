//! Transaction layer of a STUN client: matching requests to replies,
//! retransmission timers and round-trip-time feedback.
pub mod manager;
pub mod message;
pub mod outstanding;
pub mod rto;
pub mod timer_queue;
