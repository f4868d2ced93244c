//! The supervisor: the one owner of the native connection.
//!
//! It runs on a thread of its own and is driven as a state machine. The
//! thread hands it what happened (an [`Event`]) and gets back what to do next
//! (a list of [`Command`]s): sleep, connect, pump the native layer, run a job,
//! answer a caller. Jobs come in through [`Supervisor::submit`] and each one
//! leaves in exactly one `Run` or `Fail` command.

use crate::native::{Identity, NativeError};
use crate::signal::{fail_spec, observe_spec, publish_spec, Observation, ReadinessSignal, SignalView};
use std::collections::VecDeque;
use vstd::prelude::*;

verus! {

/// Delay before each connection attempt that follows a failure, in milliseconds.
pub const BACKOFF_MS: u64 = 1000;

#[derive(Clone, Copy, Debug, PartialEq, Eq, Structural)]
pub enum Phase {
    Disconnected,
    Connecting,
    Connected,
    /// A non-recoverable error ended the supervisor; nothing is retried.
    Errored,
}

/// Why a job was answered without being run.
#[derive(Clone, Copy, Debug, PartialEq, Eq, Structural)]
pub enum Failure {
    /// The connection dropped after the job was drained.
    Closed,
    /// The supervisor stopped on a non-recoverable error.
    Shutdown,
}

/// A unit of work for the native handle, with the ticket that names it.
pub struct Job<T> {
    pub ticket: u64,
    pub work: T,
}

/// What the supervisor thread reports after carrying out a command.
pub enum Event {
    /// The loop starts, or a backoff delay has elapsed.
    Resume,
    /// The handshake failed because the host is not reachable for now.
    Unavailable,
    /// The handshake succeeded and the native layer named the account.
    Ready(Identity),
    /// The native layer was pumped, or a job ran, and the connection is up.
    Turn,
    /// The native layer reports that the connection dropped.
    Lost,
    /// The native layer failed in a way that retrying would repeat.
    Fatal(NativeError),
}

/// What the supervisor thread must do next.
pub enum Command<T> {
    /// Wait this many milliseconds, then report `Resume`.
    Sleep(u64),
    /// Open a connection and report `Ready`, `Unavailable`, `Lost` or `Fatal`.
    Connect,
    /// Pump the native layer once, hand over what callers submitted, then
    /// report `Turn`, `Lost` or `Fatal`.
    Pump,
    /// Run the job against the native handle, answer its caller with the
    /// result, then report `Turn`, `Lost` or `Fatal`.
    Run(Job<T>),
    /// Answer the job's caller with this failure; the job never runs.
    Fail(Job<T>, Failure),
    /// Answer a parked identity observer.
    Wake(u64, Identity),
    /// Answer a parked identity observer with an error.
    Refuse(u64, NativeError),
    /// Stop the supervisor with this error.
    Exit(NativeError),
}

pub struct SupervisorView<T> {
    pub phase: Phase,
    /// The ticket that the next accepted job gets; all smaller ones were issued.
    pub next_ticket: u64,
    /// Jobs accepted and not yet drained, in order of submission.
    pub queued: Seq<Job<T>>,
    /// Jobs drained from the queue and not yet run.
    pub in_flight: Seq<Job<T>>,
    pub signal: SignalView,
    /// Tickets whose job has left in a `Run` or `Fail` command.
    pub settled: Set<u64>,
}

pub struct Supervisor<T> {
    phase: Phase,
    next_ticket: u64,
    queued: VecDeque<Job<T>>,
    in_flight: VecDeque<Job<T>>,
    signal: ReadinessSignal,
    settled: Ghost<Set<u64>>,
}

impl<T> View for Supervisor<T> {
    type V = SupervisorView<T>;

    closed spec fn view(&self) -> SupervisorView<T> {
        SupervisorView {
            phase: self.phase,
            next_ticket: self.next_ticket,
            queued: self.queued@,
            in_flight: self.in_flight@,
            signal: self.signal@,
            settled: self.settled@,
        }
    }
}

pub open spec fn tickets<T>(jobs: Seq<Job<T>>) -> Seq<u64> {
    jobs.map_values(|j: Job<T>| j.ticket)
}

/// The jobs that are held and not yet answered, in the order they will run.
pub open spec fn pending<T>(v: SupervisorView<T>) -> Seq<Job<T>> {
    v.in_flight + v.queued
}

/// Every issued ticket is either held exactly once or settled, never both;
/// a stopped supervisor holds nothing; only a live connection has drained jobs.
pub open spec fn wf_view<T>(v: SupervisorView<T>) -> bool {
    let held = tickets(pending(v));
    &&& held.no_duplicates()
    &&& forall|k: int| 0 <= k < held.len() ==> held[k] < v.next_ticket && !v.settled.contains(#[trigger] held[k])
    &&& forall|t: u64| #[trigger] v.settled.contains(t) ==> t < v.next_ticket
    &&& forall|t: u64| t < v.next_ticket ==> #[trigger] v.settled.contains(t) || held.contains(t)
    &&& v.phase == Phase::Errored ==> pending(v).len() == 0
    &&& v.phase != Phase::Connected ==> v.in_flight.len() == 0
}

pub open spec fn initial_view<T>() -> SupervisorView<T> {
    SupervisorView {
        phase: Phase::Disconnected,
        next_ticket: 0,
        queued: seq![],
        in_flight: seq![],
        signal: SignalView { state: crate::signal::Readiness::Unknown, waiters: seq![] },
        settled: Set::empty(),
    }
}

/// A job is accepted unless the supervisor has stopped or has no ticket left.
pub open spec fn submit_spec<T>(v: SupervisorView<T>, work: T) -> (SupervisorView<T>, Result<u64, T>) {
    if v.phase == Phase::Errored || v.next_ticket == u64::MAX {
        (v, Err(work))
    } else {
        (
            SupervisorView {
                next_ticket: (v.next_ticket + 1) as u64,
                queued: v.queued.push(Job { ticket: v.next_ticket, work }),
                ..v
            },
            Ok(v.next_ticket),
        )
    }
}

pub open spec fn fail_all<T>(jobs: Seq<Job<T>>, failure: Failure) -> Seq<Command<T>> {
    jobs.map_values(|j: Job<T>| Command::Fail(j, failure))
}

pub open spec fn wake_all<T>(waiters: Seq<u64>, identity: Identity) -> Seq<Command<T>> {
    waiters.map_values(|w: u64| Command::Wake(w, identity))
}

pub open spec fn refuse_all<T>(waiters: Seq<u64>, error: NativeError) -> Seq<Command<T>> {
    waiters.map_values(|w: u64| Command::Refuse(w, error))
}

/// One turn of a live connection: drain the queue if nothing is in flight,
/// then run the first job held, or pump again when there is none.
pub open spec fn turn_spec<T>(v: SupervisorView<T>) -> (SupervisorView<T>, Seq<Command<T>>) {
    if pending(v).len() == 0 {
        (v, seq![Command::Pump])
    } else if v.in_flight.len() == 0 {
        (
            SupervisorView {
                in_flight: v.queued.drop_first(),
                queued: seq![],
                settled: v.settled.insert(v.queued[0].ticket),
                ..v
            },
            seq![Command::Run(v.queued[0])],
        )
    } else {
        (
            SupervisorView {
                in_flight: v.in_flight.drop_first(),
                settled: v.settled.insert(v.in_flight[0].ticket),
                ..v
            },
            seq![Command::Run(v.in_flight[0])],
        )
    }
}

/// The connection state machine. An event that does not fit the phase
/// changes nothing and asks for nothing.
pub open spec fn step_spec<T>(v: SupervisorView<T>, event: Event) -> (SupervisorView<T>, Seq<Command<T>>) {
    match event {
        Event::Resume => if v.phase == Phase::Disconnected {
            (SupervisorView { phase: Phase::Connecting, ..v }, seq![Command::Connect])
        } else {
            (v, seq![])
        },
        Event::Unavailable => if v.phase == Phase::Connecting {
            (SupervisorView { phase: Phase::Disconnected, ..v }, seq![Command::Sleep(BACKOFF_MS)])
        } else {
            (v, seq![])
        },
        Event::Ready(identity) => if v.phase == Phase::Connecting {
            let (signal, woken) = publish_spec(v.signal, identity);
            (
                SupervisorView { phase: Phase::Connected, signal, ..v },
                wake_all(woken, identity).push(Command::Pump),
            )
        } else {
            (v, seq![])
        },
        Event::Turn => if v.phase == Phase::Connected {
            turn_spec(v)
        } else {
            (v, seq![])
        },
        Event::Lost => if v.phase == Phase::Connecting {
            (SupervisorView { phase: Phase::Disconnected, ..v }, seq![Command::Sleep(BACKOFF_MS)])
        } else if v.phase == Phase::Connected {
            (
                SupervisorView {
                    phase: Phase::Disconnected,
                    in_flight: seq![],
                    settled: v.settled + tickets(v.in_flight).to_set(),
                    ..v
                },
                fail_all(v.in_flight, Failure::Closed).push(Command::Sleep(BACKOFF_MS)),
            )
        } else {
            (v, seq![])
        },
        Event::Fatal(error) => if v.phase != Phase::Errored {
            let (signal, woken) = fail_spec(v.signal, error);
            (
                SupervisorView {
                    phase: Phase::Errored,
                    queued: seq![],
                    in_flight: seq![],
                    signal,
                    settled: v.settled + tickets(pending(v)).to_set(),
                    ..v
                },
                (fail_all(pending(v), Failure::Shutdown) + refuse_all(woken, error)).push(Command::Exit(error)),
            )
        } else {
            (v, seq![])
        },
    }
}

/// The tickets that a command answers: one for `Run` and `Fail`, none otherwise.
pub open spec fn answered_by<T>(c: Command<T>) -> Seq<u64> {
    match c {
        Command::Run(j) => seq![j.ticket],
        Command::Fail(j, _) => seq![j.ticket],
        _ => seq![],
    }
}

/// The tickets that a list of commands answers, in order.
pub open spec fn answered<T>(cs: Seq<Command<T>>) -> Seq<u64>
    decreases cs.len(),
{
    if cs.len() == 0 {
        seq![]
    } else {
        answered(cs.drop_last()) + answered_by(cs.last())
    }
}

impl<T> Supervisor<T> {
    pub open spec fn wf(&self) -> bool {
        wf_view(self@)
    }

    pub fn new() -> (r: Supervisor<T>)
        ensures
            r@ == initial_view::<T>(),
            r.wf(),
    {
        let r = Supervisor {
            phase: Phase::Disconnected,
            next_ticket: 0,
            queued: VecDeque::new(),
            in_flight: VecDeque::new(),
            signal: ReadinessSignal::new(),
            settled: Ghost(Set::empty()),
        };
        assert(tickets(pending(r@)) =~= seq![]);
        r
    }

    pub fn phase(&self) -> (r: Phase)
        ensures
            r == self@.phase,
    {
        self.phase
    }

    /// Accepts a job and returns its ticket, or hands the work back when the
    /// supervisor has stopped or has run out of tickets.
    pub fn submit(&mut self, work: T) -> (r: Result<u64, T>)
        requires
            old(self).wf(),
        ensures
            final(self).wf(),
            (final(self)@, r) == submit_spec(old(self)@, work),
    {
        if self.phase == Phase::Errored || self.next_ticket == u64::MAX {
            return Err(work);
        }
        let ticket = self.next_ticket;
        proof {
            lemma_submit_accounts(self@, work);
        }
        self.queued.push_back(Job { ticket, work });
        self.next_ticket = ticket + 1;
        Ok(ticket)
    }

    /// Looks at the readiness signal on behalf of an identity observer.
    pub fn observe(&mut self, waiter: u64) -> (r: Observation)
        requires
            old(self).wf(),
        ensures
            final(self).wf(),
            final(self)@ == (SupervisorView { signal: observe_spec(old(self)@.signal, waiter).0, ..old(self)@ }),
            r == observe_spec(old(self)@.signal, waiter).1,
    {
        self.signal.observe(waiter)
    }

    /// Carries the state machine over one event and returns what the
    /// supervisor thread must do next, in order.
    pub fn step(&mut self, event: Event) -> (r: Vec<Command<T>>)
        requires
            old(self).wf(),
        ensures
            final(self).wf(),
            (final(self)@, r@) == step_spec(old(self)@, event),
    {
        proof {
            lemma_step_accounts(self@, event);
        }
        let mut out: Vec<Command<T>> = Vec::new();
        match event {
            Event::Resume => {
                if self.phase == Phase::Disconnected {
                    self.phase = Phase::Connecting;
                    out.push(Command::Connect);
                }
            },
            Event::Unavailable => {
                if self.phase == Phase::Connecting {
                    self.phase = Phase::Disconnected;
                    out.push(Command::Sleep(BACKOFF_MS));
                }
            },
            Event::Ready(identity) => {
                if self.phase == Phase::Connecting {
                    let woken = self.signal.publish(identity.duplicate());
                    wake_each(&woken, &identity, &mut out);
                    out.push(Command::Pump);
                    self.phase = Phase::Connected;
                }
            },
            Event::Turn => {
                if self.phase == Phase::Connected {
                    out = self.turn();
                }
            },
            Event::Lost => {
                if self.phase == Phase::Connecting {
                    self.phase = Phase::Disconnected;
                    out.push(Command::Sleep(BACKOFF_MS));
                } else if self.phase == Phase::Connected {
                    let ghost before = self@;
                    let mut drained = VecDeque::new();
                    std::mem::swap(&mut drained, &mut self.in_flight);
                    fail_each(drained, Failure::Closed, &mut out);
                    out.push(Command::Sleep(BACKOFF_MS));
                    self.settled = Ghost(before.settled + tickets(before.in_flight).to_set());
                    self.phase = Phase::Disconnected;
                    assert(out@ =~= fail_all(before.in_flight, Failure::Closed).push(Command::Sleep(BACKOFF_MS)));
                }
            },
            Event::Fatal(error) => {
                if self.phase != Phase::Errored {
                    let ghost before = self@;
                    let woken = self.signal.fail(error.duplicate());
                    let mut held = VecDeque::new();
                    std::mem::swap(&mut held, &mut self.in_flight);
                    let mut queued = VecDeque::new();
                    std::mem::swap(&mut queued, &mut self.queued);
                    held.append(&mut queued);
                    fail_each(held, Failure::Shutdown, &mut out);
                    refuse_each(&woken, &error, &mut out);
                    out.push(Command::Exit(error));
                    self.settled = Ghost(before.settled + tickets(pending(before)).to_set());
                    self.phase = Phase::Errored;
                    assert(out@ =~= (fail_all(pending(before), Failure::Shutdown) + refuse_all(woken@, error)).push(
                        Command::Exit(error),
                    ));
                }
            },
        }
        out
    }

    /// One turn of a live connection.
    fn turn(&mut self) -> (r: Vec<Command<T>>)
        requires
            old(self)@.phase == Phase::Connected,
        ensures
            (final(self)@, r@) == turn_spec(old(self)@),
    {
        let ghost before = self@;
        let mut out: Vec<Command<T>> = Vec::new();
        if self.in_flight.len() == 0 {
            std::mem::swap(&mut self.in_flight, &mut self.queued);
        }
        match self.in_flight.pop_front() {
            Some(job) => {
                self.settled = Ghost(self.settled@.insert(job.ticket));
                out.push(Command::Run(job));
            },
            None => {
                out.push(Command::Pump);
            },
        }
        proof {
            if before.in_flight.len() == 0 {
                assert(before.queued =~= pending(before));
                assert(self@.queued =~= Seq::<Job<T>>::empty());
            }
            if pending(before).len() > 0 {
                assert(out@ =~= seq![Command::Run(pending(before)[0])]);
            } else {
                assert(out@ =~= seq![Command::<T>::Pump]);
            }
        }
        out
    }
}

/// Appends a `Fail` command for each job, in order.
fn fail_each<T>(jobs: VecDeque<Job<T>>, failure: Failure, out: &mut Vec<Command<T>>)
    ensures
        final(out)@ == old(out)@ + fail_all(jobs@, failure),
{
    let mut jobs = jobs;
    let ghost all = jobs@;
    let ghost start = out@;
    while jobs.len() > 0
        invariant
            jobs@.len() <= all.len(),
            jobs@ == all.subrange(all.len() - jobs@.len(), all.len() as int),
            out@ == start + fail_all(all.subrange(0, all.len() - jobs@.len()), failure),
        decreases jobs@.len(),
    {
        let ghost done = all.len() - jobs@.len();
        if let Some(job) = jobs.pop_front() {
            assert(job == all[done]);
            out.push(Command::Fail(job, failure));
            assert(all.subrange(0, done + 1) =~= all.subrange(0, done).push(job));
            assert(fail_all(all.subrange(0, done + 1), failure) =~= fail_all(all.subrange(0, done), failure).push(
                Command::Fail(job, failure),
            ));
            assert(jobs@ =~= all.subrange(done + 1, all.len() as int));
        }
    }
    assert(all.subrange(0, all.len() as int) =~= all);
}

/// Appends a `Wake` command for each waiter, in order.
fn wake_each<T>(waiters: &Vec<u64>, identity: &Identity, out: &mut Vec<Command<T>>)
    ensures
        final(out)@ == old(out)@ + wake_all(waiters@, *identity),
{
    let ghost start = out@;
    let mut i: usize = 0;
    while i < waiters.len()
        invariant
            i <= waiters@.len(),
            out@ == start + wake_all::<T>(waiters@.subrange(0, i as int), *identity),
        decreases waiters@.len() - i,
    {
        out.push(Command::Wake(waiters[i], identity.duplicate()));
        assert(waiters@.subrange(0, i + 1) =~= waiters@.subrange(0, i as int).push(waiters@[i as int]));
        assert(wake_all::<T>(waiters@.subrange(0, i + 1), *identity) =~= wake_all::<T>(
            waiters@.subrange(0, i as int),
            *identity,
        ).push(Command::Wake(waiters@[i as int], *identity)));
        i = i + 1;
    }
    assert(waiters@.subrange(0, i as int) =~= waiters@);
}

/// Appends a `Refuse` command for each waiter, in order.
fn refuse_each<T>(waiters: &Vec<u64>, error: &NativeError, out: &mut Vec<Command<T>>)
    ensures
        final(out)@ == old(out)@ + refuse_all(waiters@, *error),
{
    let ghost start = out@;
    let mut i: usize = 0;
    while i < waiters.len()
        invariant
            i <= waiters@.len(),
            out@ == start + refuse_all::<T>(waiters@.subrange(0, i as int), *error),
        decreases waiters@.len() - i,
    {
        out.push(Command::Refuse(waiters[i], error.duplicate()));
        assert(waiters@.subrange(0, i + 1) =~= waiters@.subrange(0, i as int).push(waiters@[i as int]));
        assert(refuse_all::<T>(waiters@.subrange(0, i + 1), *error) =~= refuse_all::<T>(
            waiters@.subrange(0, i as int),
            *error,
        ).push(Command::Refuse(waiters@[i as int], *error)));
        i = i + 1;
    }
    assert(waiters@.subrange(0, i as int) =~= waiters@);
}

pub proof fn lemma_submit_accounts<T>(v: SupervisorView<T>, work: T)
    requires
        wf_view(v),
        v.phase != Phase::Errored,
        v.next_ticket < u64::MAX,
    ensures
        wf_view(submit_spec(v, work).0),
{
    let w = submit_spec(v, work).0;
    let held = tickets(pending(v));
    let t = v.next_ticket;
    assert(pending(w) =~= pending(v).push(Job { ticket: t, work }));
    assert(tickets(pending(w)) =~= held.push(t));
    assert forall|i: int, j: int| 0 <= i < j < held.push(t).len() implies held.push(t)[i] != held.push(t)[j] by {
        if j == held.len() {
            assert(held[i] < t);
        }
    }
    assert forall|u: u64| u < w.next_ticket implies #[trigger] w.settled.contains(u) || tickets(pending(w)).contains(u) by {
        if u == t {
            assert(held.push(t)[held.len() as int] == t);
        } else if !v.settled.contains(u) {
            let k = choose|k: int| 0 <= k < held.len() && held[k] == u;
            assert(held.push(t)[k] == u);
        }
    }
}

proof fn lemma_answered_single<T>(c: Command<T>)
    ensures
        answered(seq![c]) == answered_by(c),
{
    assert(seq![c].drop_last() =~= Seq::<Command<T>>::empty());
    assert(answered(Seq::<Command<T>>::empty()) == Seq::<u64>::empty());
    assert(Seq::<u64>::empty() + answered_by(c) =~= answered_by(c));
}

pub proof fn lemma_answered_concat<T>(a: Seq<Command<T>>, b: Seq<Command<T>>)
    ensures
        answered(a + b) == answered(a) + answered(b),
    decreases b.len(),
{
    if b.len() == 0 {
        assert(a + b =~= a);
        assert(answered(b) =~= seq![]);
        assert(answered(a) + answered(b) =~= answered(a));
    } else {
        lemma_answered_concat(a, b.drop_last());
        assert((a + b).drop_last() =~= a + b.drop_last());
        assert((a + b).last() == b.last());
        assert(answered(a) + answered(b) =~= answered(a) + answered(b.drop_last()) + answered_by(b.last()));
    }
}

proof fn lemma_answered_fail_all<T>(jobs: Seq<Job<T>>, failure: Failure)
    ensures
        answered(fail_all(jobs, failure)) == tickets(jobs),
    decreases jobs.len(),
{
    if jobs.len() == 0 {
        assert(fail_all(jobs, failure) =~= seq![]);
        assert(tickets(jobs) =~= seq![]);
    } else {
        lemma_answered_fail_all(jobs.drop_last(), failure);
        assert(fail_all(jobs, failure).drop_last() =~= fail_all(jobs.drop_last(), failure));
        assert(tickets(jobs) =~= tickets(jobs.drop_last()).push(jobs.last().ticket));
    }
}

proof fn lemma_answered_wake_all<T>(waiters: Seq<u64>, identity: Identity)
    ensures
        answered(wake_all::<T>(waiters, identity)) == Seq::<u64>::empty(),
    decreases waiters.len(),
{
    if waiters.len() > 0 {
        lemma_answered_wake_all::<T>(waiters.drop_last(), identity);
        assert(wake_all::<T>(waiters, identity).drop_last() =~= wake_all::<T>(waiters.drop_last(), identity));
    }
    assert(answered(wake_all::<T>(waiters, identity)) =~= Seq::<u64>::empty());
}

proof fn lemma_answered_refuse_all<T>(waiters: Seq<u64>, error: NativeError)
    ensures
        answered(refuse_all::<T>(waiters, error)) == Seq::<u64>::empty(),
    decreases waiters.len(),
{
    if waiters.len() > 0 {
        lemma_answered_refuse_all::<T>(waiters.drop_last(), error);
        assert(refuse_all::<T>(waiters, error).drop_last() =~= refuse_all::<T>(waiters.drop_last(), error));
    }
    assert(answered(refuse_all::<T>(waiters, error)) =~= Seq::<u64>::empty());
}

proof fn lemma_tickets_subrange<T>(jobs: Seq<Job<T>>, i: int, j: int)
    requires
        0 <= i <= j <= jobs.len(),
    ensures
        tickets(jobs.subrange(i, j)) == tickets(jobs).subrange(i, j),
{
    assert(tickets(jobs.subrange(i, j)) =~= tickets(jobs).subrange(i, j));
}

/// Answering the first `n` held jobs keeps the books: they leave the held
/// list, join the settled set, and were neither settled before nor repeated.
proof fn lemma_settle_prefix<T>(v: SupervisorView<T>, w: SupervisorView<T>, n: int)
    requires
        wf_view(v),
        0 <= n <= pending(v).len(),
        pending(w) == pending(v).subrange(n, pending(v).len() as int),
        w.next_ticket == v.next_ticket,
        w.settled == v.settled + tickets(pending(v).subrange(0, n)).to_set(),
        w.phase == Phase::Errored ==> pending(w).len() == 0,
        w.phase != Phase::Connected ==> w.in_flight.len() == 0,
    ensures
        wf_view(w),
        tickets(pending(v).subrange(0, n)).no_duplicates(),
        forall|k: int|
            0 <= k < n ==> #[trigger] tickets(pending(v).subrange(0, n))[k] < v.next_ticket
                && !v.settled.contains(tickets(pending(v).subrange(0, n))[k]),
{
    let held = tickets(pending(v));
    let len = pending(v).len() as int;
    lemma_tickets_subrange(pending(v), 0, n);
    lemma_tickets_subrange(pending(v), n, len);
    let done = held.subrange(0, n);
    let rest = held.subrange(n, len);
    assert(tickets(pending(w)) == rest);
    assert forall|k: int| 0 <= k < rest.len() implies rest[k] < w.next_ticket && !w.settled.contains(#[trigger] rest[k]) by {
        assert(rest[k] == held[k + n]);
        if done.to_set().contains(rest[k]) {
            let m = choose|m: int| 0 <= m < done.len() && done[m] == rest[k];
            assert(held[m] == held[k + n]);
        }
    }
    assert forall|t: u64| #[trigger] w.settled.contains(t) implies t < w.next_ticket by {
        if !v.settled.contains(t) {
            assert(done.to_set().contains(t));
            let m = choose|m: int| 0 <= m < done.len() && done[m] == t;
            assert(held[m] == t);
        }
    }
    assert forall|t: u64| t < w.next_ticket implies #[trigger] w.settled.contains(t) || tickets(pending(w)).contains(t) by {
        if !v.settled.contains(t) {
            let m = choose|m: int| 0 <= m < held.len() && held[m] == t;
            if m < n {
                assert(done[m] == t);
                assert(done.to_set().contains(t));
            } else {
                assert(rest[m - n] == t);
            }
        }
    }
    assert forall|i: int, j: int| 0 <= i < j < rest.len() implies rest[i] != rest[j] by {
        assert(rest[i] == held[i + n] && rest[j] == held[j + n]);
    }
    assert forall|i: int, j: int| 0 <= i < j < done.len() implies done[i] != done[j] by {
        assert(done[i] == held[i] && done[j] == held[j]);
    }
    assert forall|k: int| 0 <= k < n implies #[trigger] done[k] < v.next_ticket && !v.settled.contains(done[k]) by {
        assert(done[k] == held[k]);
    }
}

/// Every step of the state machine keeps the books of tickets: the tickets
/// it answers were issued, were not answered before, are not repeated, and
/// are exactly the ones that join the settled set.
pub proof fn lemma_step_accounts<T>(v: SupervisorView<T>, event: Event)
    requires
        wf_view(v),
    ensures
        ({
            let (w, cs) = step_spec(v, event);
            &&& wf_view(w)
            &&& w.next_ticket == v.next_ticket
            &&& answered(cs).no_duplicates()
            &&& forall|k: int|
                0 <= k < answered(cs).len() ==> #[trigger] answered(cs)[k] < v.next_ticket
                    && !v.settled.contains(answered(cs)[k])
            &&& w.settled == v.settled + answered(cs).to_set()
        }),
{
    let (w, cs) = step_spec(v, event);
    let len = pending(v).len() as int;
    let quiet = answered(cs) == Seq::<u64>::empty() && w.settled == v.settled && pending(w) == pending(v);
    match event {
        Event::Ready(identity) => {
            if v.phase == Phase::Connecting {
                let woken = publish_spec(v.signal, identity).1;
                lemma_answered_wake_all::<T>(woken, identity);
                lemma_answered_concat(wake_all::<T>(woken, identity), seq![Command::Pump]);
                lemma_answered_single(Command::<T>::Pump);
                assert(cs =~= wake_all::<T>(woken, identity) + seq![Command::Pump]);
            }
            assert(answered(cs) =~= Seq::<u64>::empty());
        },
        Event::Turn => {
            if v.phase == Phase::Connected && len > 0 {
                let first = pending(v)[0];
                assert(pending(w) =~= pending(v).subrange(1, len));
                assert(tickets(pending(v).subrange(0, 1)) =~= seq![first.ticket]);
                assert forall|u: u64| seq![first.ticket].to_set().contains(u) <==> u == first.ticket by {
                    if u == first.ticket {
                        assert(seq![first.ticket][0] == u);
                    }
                }
                assert(seq![first.ticket].to_set() =~= set![first.ticket]);
                lemma_answered_single(Command::Run(first));
                assert(w.settled =~= v.settled + tickets(pending(v).subrange(0, 1)).to_set());
                lemma_settle_prefix(v, w, 1);
                assert(answered(cs) =~= seq![first.ticket]);
            } else {
                lemma_answered_single(Command::<T>::Pump);
                assert(answered(cs) =~= Seq::<u64>::empty());
            }
        },
        Event::Lost => {
            if v.phase == Phase::Connected {
                let n = v.in_flight.len() as int;
                assert(v.in_flight =~= pending(v).subrange(0, n));
                assert(pending(w) =~= pending(v).subrange(n, len));
                lemma_settle_prefix(v, w, n);
                lemma_answered_fail_all(v.in_flight, Failure::Closed);
                lemma_answered_concat(fail_all(v.in_flight, Failure::Closed), seq![Command::Sleep(BACKOFF_MS)]);
                lemma_answered_single(Command::<T>::Sleep(BACKOFF_MS));
                assert(cs =~= fail_all(v.in_flight, Failure::Closed) + seq![Command::Sleep(BACKOFF_MS)]);
                assert(answered(cs) =~= tickets(v.in_flight));
            } else {
                lemma_answered_single(Command::<T>::Sleep(BACKOFF_MS));
                assert(answered(cs) =~= Seq::<u64>::empty());
            }
        },
        Event::Fatal(error) => {
            if v.phase != Phase::Errored {
                let woken = fail_spec(v.signal, error).1;
                assert(pending(v) =~= pending(v).subrange(0, len));
                assert(pending(w) =~= pending(v).subrange(len, len));
                lemma_settle_prefix(v, w, len);
                lemma_answered_fail_all(pending(v), Failure::Shutdown);
                lemma_answered_refuse_all::<T>(woken, error);
                lemma_answered_concat(fail_all(pending(v), Failure::Shutdown), refuse_all::<T>(woken, error));
                lemma_answered_concat(
                    fail_all(pending(v), Failure::Shutdown) + refuse_all::<T>(woken, error),
                    seq![Command::Exit(error)],
                );
                lemma_answered_single(Command::<T>::Exit(error));
                assert(cs =~= fail_all(pending(v), Failure::Shutdown) + refuse_all::<T>(woken, error) + seq![Command::Exit(error)]);
                assert(answered(cs) =~= tickets(pending(v)));
            } else {
                assert(answered(cs) =~= Seq::<u64>::empty());
            }
        },
        _ => {
            lemma_answered_single(Command::<T>::Connect);
            lemma_answered_single(Command::<T>::Sleep(BACKOFF_MS));
            assert(answered(cs) =~= Seq::<u64>::empty());
        },
    }
    if answered(cs) == Seq::<u64>::empty() {
        assert(w.settled =~= v.settled + answered(cs).to_set());
        assert(pending(w) =~= pending(v));
    }
}

} // verus!
