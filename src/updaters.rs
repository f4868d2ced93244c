//! Decisions shared by the tasks that republish the player's status.

use vstd::prelude::*;

verus! {

/// What one receive on the status stream produced.
pub enum Received<T> {
    Value(T),
    /// The receiver fell behind and this many statuses were dropped.
    Lagged(u64),
    Closed,
}

/// What the updater does with it.
pub enum RecvStep<T> {
    /// Use this status.
    Deliver(T),
    /// Only the latest status matters: receive again.
    Retry,
    /// The stream has ended: stop with an error.
    Stop,
}

/// Decides what an updater does with one receive on the status stream.
pub fn recv_step<T>(received: Received<T>) -> (r: RecvStep<T>)
    ensures
        match received {
            Received::Value(v) => r == RecvStep::Deliver(v),
            Received::Lagged(_) => r is Retry,
            Received::Closed => r is Stop,
        },
{
    match received {
        Received::Value(v) => RecvStep::Deliver(v),
        Received::Lagged(_) => RecvStep::Retry,
        Received::Closed => RecvStep::Stop,
    }
}

} // verus!
