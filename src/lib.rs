//! An in-memory message-queue broker: named queues with publisher and
//! subscriber membership and an append-only message log, a per-client view
//! across all queues, and a registry that guards each queue with its own lock.

use vstd::prelude::*;

pub mod client;
pub mod message;
pub mod queue;
pub mod log;
pub mod registry;

verus! {

/// The ways in which a broker operation can fail. Every failure leaves the
/// state it touched exactly as it was.
#[derive(Debug, Clone, Copy, PartialEq, Eq, Structural)]
pub enum BrokerError {
    /// The queue name is taken, or the client already holds the role.
    Conflict,
    /// No queue has the given name.
    NotFound,
    /// The client is not a publisher of the queue.
    NotPublisher,
    /// The client is not a subscriber of the queue.
    NotSubscribed,
}

} // verus!
