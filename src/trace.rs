//! Laws about whole runs of the supervisor: any sequence of submissions,
//! observer arrivals and events, starting from any well-formed state.

use crate::native::{Identity, NativeError};
use crate::signal::{observe_spec, Observation, Readiness};
use crate::supervisor::{
    answered, lemma_answered_concat, lemma_step_accounts, pending, step_spec, submit_spec, tickets,
    wf_view, Command, Event, Job, Phase, SupervisorView, BACKOFF_MS,
};
use vstd::prelude::*;

verus! {

/// One thing that reaches the supervisor.
pub enum Input<T> {
    Submit(T),
    Observe(u64),
    Deliver(Event),
}

pub open spec fn apply<T>(v: SupervisorView<T>, input: Input<T>) -> (SupervisorView<T>, Seq<Command<T>>) {
    match input {
        Input::Submit(work) => (submit_spec(v, work).0, seq![]),
        Input::Observe(waiter) => (SupervisorView { signal: observe_spec(v.signal, waiter).0, ..v }, seq![]),
        Input::Deliver(event) => step_spec(v, event),
    }
}

/// The state reached and the commands issued, in order, over a run.
pub open spec fn run<T>(v: SupervisorView<T>, inputs: Seq<Input<T>>) -> (SupervisorView<T>, Seq<Command<T>>)
    decreases inputs.len(),
{
    if inputs.len() == 0 {
        (v, seq![])
    } else {
        let (u, cs) = run(v, inputs.drop_last());
        let (w, ds) = apply(u, inputs.last());
        (w, cs + ds)
    }
}

proof fn lemma_apply_accounts<T>(v: SupervisorView<T>, input: Input<T>)
    requires
        wf_view(v),
    ensures
        ({
            let (w, cs) = apply(v, input);
            &&& wf_view(w)
            &&& w.next_ticket >= v.next_ticket
            &&& answered(cs).no_duplicates()
            &&& forall|k: int|
                0 <= k < answered(cs).len() ==> #[trigger] answered(cs)[k] < v.next_ticket
                    && !v.settled.contains(answered(cs)[k])
            &&& w.settled == v.settled + answered(cs).to_set()
        }),
{
    match input {
        Input::Deliver(event) => {
            lemma_step_accounts(v, event);
        },
        _ => {
            let w = apply(v, input).0;
            assert(answered(Seq::<Command<T>>::empty()) =~= Seq::<u64>::empty());
            assert(w.settled =~= v.settled + Seq::<u64>::empty().to_set());
            if let Input::Submit(work) = input {
                if !(v.phase == Phase::Errored || v.next_ticket == u64::MAX) {
                    crate::supervisor::lemma_submit_accounts(v, work);
                }
            } else {
                assert(pending(w) =~= pending(v));
            }
        },
    }
}

/// No response is lost. Whatever jobs, observers and events arrive, the
/// commands of a run answer only tickets that were issued and not yet
/// answered, never the same ticket twice; every issued ticket is then either
/// answered or still held, never both; and once the supervisor has stopped,
/// every issued ticket has been answered.
pub proof fn lemma_no_lost_response<T>(v: SupervisorView<T>, inputs: Seq<Input<T>>)
    requires
        wf_view(v),
    ensures
        ({
            let (w, cs) = run(v, inputs);
            &&& wf_view(w)
            &&& answered(cs).no_duplicates()
            &&& forall|k: int|
                0 <= k < answered(cs).len() ==> #[trigger] answered(cs)[k] < w.next_ticket
                    && !v.settled.contains(answered(cs)[k])
            &&& w.settled == v.settled + answered(cs).to_set()
            &&& forall|t: u64|
                t < w.next_ticket ==> (#[trigger] w.settled.contains(t) <==> !tickets(pending(w)).contains(t))
            &&& w.phase == Phase::Errored ==> forall|t: u64| t < w.next_ticket ==> #[trigger] w.settled.contains(t)
        }),
    decreases inputs.len(),
{
    let (w, all) = run(v, inputs);
    if inputs.len() == 0 {
        assert(answered(Seq::<Command<T>>::empty()) =~= Seq::<u64>::empty());
        assert(v.settled =~= v.settled + Seq::<u64>::empty().to_set());
    } else {
        lemma_no_lost_response(v, inputs.drop_last());
        let (u, cs) = run(v, inputs.drop_last());
        let ds = apply(u, inputs.last()).1;
        lemma_apply_accounts(u, inputs.last());
        lemma_answered_concat(cs, ds);
        let a = answered(cs);
        let b = answered(ds);
        assert(answered(all) == a + b);
        assert forall|i: int, j: int| 0 <= i < j < (a + b).len() implies (a + b)[i] != (a + b)[j] by {
            if i < a.len() && j >= a.len() {
                assert(u.settled.contains(a[i])) by {
                    assert(a.to_set().contains(a[i]));
                }
                assert(!u.settled.contains(b[j - a.len()]));
            }
        }
        assert forall|k: int| 0 <= k < (a + b).len() implies #[trigger] (a + b)[k] < w.next_ticket
            && !v.settled.contains((a + b)[k]) by {
            if k >= a.len() {
                assert(!u.settled.contains(b[k - a.len()]));
            }
        }
        assert(w.settled =~= v.settled + (a + b).to_set()) by {
            assert forall|t: u64| (a + b).to_set().contains(t) <==> a.to_set().contains(t) || b.to_set().contains(t) by {
                if (a + b).to_set().contains(t) {
                    let k = choose|k: int| 0 <= k < (a + b).len() && (a + b)[k] == t;
                    if k < a.len() {
                        assert(a[k] == t);
                    } else {
                        assert(b[k - a.len()] == t);
                    }
                }
                if a.to_set().contains(t) {
                    let k = choose|k: int| 0 <= k < a.len() && a[k] == t;
                    assert((a + b)[k] == t);
                }
                if b.to_set().contains(t) {
                    let k = choose|k: int| 0 <= k < b.len() && b[k] == t;
                    assert((a + b)[k + a.len()] == t);
                }
            }
        }
    }
    assert forall|t: u64| t < w.next_ticket implies (#[trigger] w.settled.contains(t) <==> !tickets(pending(w)).contains(t)) by {
        if w.settled.contains(t) && tickets(pending(w)).contains(t) {
            let k = choose|k: int| 0 <= k < tickets(pending(w)).len() && tickets(pending(w))[k] == t;
            assert(!w.settled.contains(tickets(pending(w))[k]));
        }
    }
    if w.phase == Phase::Errored {
        assert(tickets(pending(w)) =~= Seq::<u64>::empty());
    }
}

/// No connection attempt has been made yet, or a sleep of at least the
/// backoff delay came after the last one.
pub open spec fn backed_off<T>(cs: Seq<Command<T>>) -> bool
    decreases cs.len(),
{
    if cs.len() == 0 {
        true
    } else {
        match cs.last() {
            Command::Connect => false,
            Command::Sleep(ms) => ms >= BACKOFF_MS || backed_off(cs.drop_last()),
            _ => backed_off(cs.drop_last()),
        }
    }
}

proof fn lemma_apply_connects<T>(v: SupervisorView<T>, input: Input<T>)
    ensures
        ({
            let (w, ds) = apply(v, input);
            &&& forall|k: int| 0 <= k < ds.len() && #[trigger] ds[k] is Connect ==> k == 0 && v.phase == Phase::Disconnected
            &&& w.phase == Phase::Disconnected ==> (ds.len() == 0 && v.phase == Phase::Disconnected) || ds.last() == Command::<T>::Sleep(BACKOFF_MS)
        }),
{
}

/// Connection attempts are spaced out. In the commands of any run, each
/// `Connect` is preceded, since the previous `Connect`, by a sleep of at
/// least the backoff delay; a failed attempt never leads straight to another.
pub proof fn lemma_attempts_spaced<T>(v: SupervisorView<T>, inputs: Seq<Input<T>>)
    ensures
        ({
            let (w, cs) = run(v, inputs);
            &&& forall|j: int| 0 <= j < cs.len() && #[trigger] cs[j] is Connect ==> backed_off(cs.take(j))
            &&& w.phase == Phase::Disconnected ==> backed_off(cs)
        }),
    decreases inputs.len(),
{
    if inputs.len() > 0 {
        lemma_attempts_spaced(v, inputs.drop_last());
        let (u, cs) = run(v, inputs.drop_last());
        let (w, ds) = apply(u, inputs.last());
        lemma_apply_connects(u, inputs.last());
        let all = cs + ds;
        assert forall|j: int| 0 <= j < all.len() && #[trigger] all[j] is Connect implies backed_off(all.take(j)) by {
            if j < cs.len() {
                assert(all.take(j) =~= cs.take(j));
            } else {
                assert(ds[j - cs.len()] is Connect);
                assert(all.take(j) =~= cs);
            }
        }
        if w.phase == Phase::Disconnected {
            if ds.len() == 0 {
                assert(all =~= cs);
            } else {
                assert(all.last() == ds.last());
            }
        }
    }
}

proof fn lemma_stopped_is_quiet<T>(v: SupervisorView<T>, inputs: Seq<Input<T>>)
    requires
        v.phase == Phase::Errored,
    ensures
        run(v, inputs).0.phase == Phase::Errored,
        run(v, inputs).1 == Seq::<Command<T>>::empty(),
    decreases inputs.len(),
{
    if inputs.len() > 0 {
        lemma_stopped_is_quiet(v, inputs.drop_last());
        assert(run(v, inputs).1 =~= Seq::<Command<T>>::empty());
    }
}

/// A non-recoverable error is final. The step that meets it ends with one
/// `Exit` carrying that error, and no other `Exit`; after it the supervisor
/// stays stopped and no input, of any kind, produces another command, so no
/// connection is attempted again.
pub proof fn lemma_fatal_is_final<T>(v: SupervisorView<T>, error: NativeError, later: Seq<Input<T>>)
    requires
        v.phase != Phase::Errored,
    ensures
        ({
            let (w, cs) = step_spec(v, Event::Fatal(error));
            &&& w.phase == Phase::Errored
            &&& cs.len() > 0 && cs.last() == Command::<T>::Exit(error)
            &&& forall|k: int| 0 <= k < cs.len() - 1 ==> !(#[trigger] cs[k] is Exit)
            &&& run(w, later).0.phase == Phase::Errored
            &&& run(w, later).1 == Seq::<Command<T>>::empty()
        }),
{
    let w = step_spec(v, Event::Fatal(error)).0;
    lemma_stopped_is_quiet(w, later);
}

/// Jobs touch the native handle only on the loop's own turn: a step issues a
/// `Run` only for a `Turn` event while connected, and then issues nothing else.
pub proof fn lemma_runs_only_on_turn<T>(v: SupervisorView<T>, event: Event)
    ensures
        ({
            let cs = step_spec(v, event).1;
            forall|k: int|
                0 <= k < cs.len() && #[trigger] cs[k] is Run ==> v.phase == Phase::Connected && event is Turn
                    && cs.len() == 1
        }),
{
}

/// `n` turns of a live connection, with nothing else arriving.
pub open spec fn turns<T>(n: nat) -> Seq<Input<T>> {
    Seq::new(n, |i: int| Input::Deliver(Event::Turn))
}

/// While the connection stays up, the jobs held are run one per turn, in
/// order: after `k` turns the first `k` of them have each left in a `Run`,
/// and the rest are still held. With `k` the number held, every one has run.
pub proof fn lemma_turns_drain<T>(v: SupervisorView<T>, k: nat)
    requires
        v.phase == Phase::Connected,
        k <= pending(v).len(),
    ensures
        ({
            let (w, cs) = run(v, turns::<T>(k));
            &&& w.phase == Phase::Connected
            &&& pending(w) == pending(v).skip(k as int)
            &&& cs == pending(v).take(k as int).map_values(|j: Job<T>| Command::Run(j))
        }),
    decreases k,
{
    if k == 0 {
        assert(pending(v).skip(0) =~= pending(v));
        assert(pending(v).take(0).map_values(|j: Job<T>| Command::Run(j)) =~= Seq::<Command<T>>::empty());
    } else {
        let m = (k - 1) as nat;
        lemma_turns_drain(v, m);
        assert(turns::<T>(k).drop_last() =~= turns::<T>(m));
        let (u, cs) = run(v, turns::<T>(m));
        let (w, ds) = step_spec(u, Event::Turn);
        assert(pending(u).len() > 0);
        assert(pending(u)[0] == pending(v)[m as int]);
        if u.in_flight.len() == 0 {
            assert(pending(u) =~= u.queued);
            assert(pending(w) =~= u.queued.drop_first());
        } else {
            assert(pending(w) =~= pending(u).drop_first());
        }
        assert(pending(w) =~= pending(v).skip(k as int));
        assert(ds =~= seq![Command::Run(pending(v)[m as int])]);
        assert(pending(v).take(k as int).map_values(|j: Job<T>| Command::Run(j)) =~= pending(v).take(
            m as int,
        ).map_values(|j: Job<T>| Command::Run(j)) + ds);
    }
}

/// The identity survives reconnects: once the supervisor's signal holds an
/// identity, no run of submissions, observers and events (reconnects and
/// errors included) changes it, and every observer is answered with it.
pub proof fn lemma_identity_survives<T>(v: SupervisorView<T>, identity: Identity, inputs: Seq<Input<T>>, waiter: u64)
    requires
        v.signal.state == Readiness::Known(identity),
    ensures
        run(v, inputs).0.signal.state == Readiness::Known(identity),
        observe_spec(run(v, inputs).0.signal, waiter).1 == Observation::Ready(identity),
    decreases inputs.len(),
{
    if inputs.len() > 0 {
        lemma_identity_survives(v, identity, inputs.drop_last(), waiter);
    }
}

} // verus!
