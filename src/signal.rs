//! The readiness signal: a publish-once cell that any number of observers
//! wait on for the identity of the connected account.
//!
//! Policy across reconnects: the first identity published is kept for the
//! life of the process. A later handshake does not replace it, so every
//! observer, early or late, sees the same value.

use crate::native::{Identity, NativeError};
use vstd::prelude::*;

verus! {

/// What the signal currently holds.
pub enum Readiness {
    Unknown,
    Known(Identity),
    Failed(NativeError),
}

/// What one observer learns when it looks at the signal.
pub enum Observation {
    /// Nothing is published yet; the observer is parked until it is.
    Pending,
    Ready(Identity),
    Failed(NativeError),
}

pub struct SignalView {
    pub state: Readiness,
    /// Observers parked while the state is unknown, in arrival order.
    pub waiters: Seq<u64>,
}

pub struct ReadinessSignal {
    state: Readiness,
    waiters: Vec<u64>,
}

impl View for ReadinessSignal {
    type V = SignalView;

    closed spec fn view(&self) -> SignalView {
        SignalView { state: self.state, waiters: self.waiters@ }
    }
}

/// An observer arrives: it is parked while the state is unknown and answered
/// at once otherwise.
pub open spec fn observe_spec(s: SignalView, waiter: u64) -> (SignalView, Observation) {
    match s.state {
        Readiness::Unknown => (SignalView { waiters: s.waiters.push(waiter), ..s }, Observation::Pending),
        Readiness::Known(i) => (s, Observation::Ready(i)),
        Readiness::Failed(e) => (s, Observation::Failed(e)),
    }
}

/// The identity is published: the parked observers are released, to be
/// answered with it. A signal that already holds a value keeps it.
pub open spec fn publish_spec(s: SignalView, identity: Identity) -> (SignalView, Seq<u64>) {
    match s.state {
        Readiness::Unknown => (SignalView { state: Readiness::Known(identity), waiters: seq![] }, s.waiters),
        _ => (s, seq![]),
    }
}

/// A definitive error arrives before any identity: the parked observers are
/// released, to be answered with it. A published identity is kept.
pub open spec fn fail_spec(s: SignalView, error: NativeError) -> (SignalView, Seq<u64>) {
    match s.state {
        Readiness::Unknown => (SignalView { state: Readiness::Failed(error), waiters: seq![] }, s.waiters),
        _ => (s, seq![]),
    }
}

impl ReadinessSignal {
    pub fn new() -> (r: ReadinessSignal)
        ensures
            r@.state == Readiness::Unknown,
            r@.waiters == Seq::<u64>::empty(),
    {
        ReadinessSignal { state: Readiness::Unknown, waiters: Vec::new() }
    }

    /// Looks at the signal on behalf of `waiter`.
    pub fn observe(&mut self, waiter: u64) -> (r: Observation)
        ensures
            (final(self)@, r) == observe_spec(old(self)@, waiter),
    {
        match &self.state {
            Readiness::Unknown => {
                self.waiters.push(waiter);
                Observation::Pending
            },
            Readiness::Known(i) => Observation::Ready(i.duplicate()),
            Readiness::Failed(e) => Observation::Failed(e.duplicate()),
        }
    }

    /// Publishes `identity` and returns the observers to wake with it.
    pub fn publish(&mut self, identity: Identity) -> (r: Vec<u64>)
        ensures
            (final(self)@, r@) == publish_spec(old(self)@, identity),
    {
        match self.state {
            Readiness::Unknown => {
                self.state = Readiness::Known(identity);
                let mut released = Vec::new();
                std::mem::swap(&mut released, &mut self.waiters);
                released
            },
            _ => Vec::new(),
        }
    }

    /// Records a definitive error and returns the observers to wake with it.
    pub fn fail(&mut self, error: NativeError) -> (r: Vec<u64>)
        ensures
            (final(self)@, r@) == fail_spec(old(self)@, error),
    {
        match self.state {
            Readiness::Unknown => {
                self.state = Readiness::Failed(error);
                let mut released = Vec::new();
                std::mem::swap(&mut released, &mut self.waiters);
                released
            },
            _ => Vec::new(),
        }
    }
}

/// One thing that happens to the signal.
pub enum SignalOp {
    Observe(u64),
    Publish(Identity),
    Fail(NativeError),
}

/// The state reached, and what each observer was told, over a run of operations.
pub open spec fn replay(s: SignalView, ops: Seq<SignalOp>) -> (SignalView, Seq<Observation>)
    decreases ops.len(),
{
    if ops.len() == 0 {
        (s, seq![])
    } else {
        let (t, seen) = replay(s, ops.drop_last());
        match ops.last() {
            SignalOp::Observe(w) => (observe_spec(t, w).0, seen.push(observe_spec(t, w).1)),
            SignalOp::Publish(i) => (publish_spec(t, i).0, seen),
            SignalOp::Fail(e) => (fail_spec(t, e).0, seen),
        }
    }
}

proof fn lemma_known_is_kept(s: SignalView, identity: Identity, ops: Seq<SignalOp>)
    requires
        s.state == Readiness::Known(identity),
    ensures
        replay(s, ops).0.state == Readiness::Known(identity),
        forall|k: int| 0 <= k < replay(s, ops).1.len() ==> #[trigger] replay(s, ops).1[k] == Observation::Ready(identity),
    decreases ops.len(),
{
    if ops.len() > 0 {
        lemma_known_is_kept(s, identity, ops.drop_last());
    }
}

/// Readiness is published once. Publishing to a signal that holds nothing
/// yet releases exactly the observers that were parked, to be answered with
/// the identity; from then on the signal keeps that identity whatever
/// follows (more observers, another publication, an error), and every
/// observer is answered with it at once.
pub proof fn lemma_published_identity_is_stable(s: SignalView, identity: Identity, later: Seq<SignalOp>)
    requires
        s.state == Readiness::Unknown,
    ensures
        ({
            let (p, woken) = publish_spec(s, identity);
            &&& woken == s.waiters
            &&& p.state == Readiness::Known(identity)
            &&& replay(p, later).0.state == Readiness::Known(identity)
            &&& forall|k: int| 0 <= k < replay(p, later).1.len() ==> #[trigger] replay(p, later).1[k] == Observation::Ready(identity)
        }),
{
    lemma_known_is_kept(publish_spec(s, identity).0, identity, later);
}

} // verus!
