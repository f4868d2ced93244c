use mpdiscord::native::{Identity, NativeError};
use mpdiscord::signal::Observation;
use mpdiscord::supervisor::{Command, Event, Failure, Phase, Supervisor, BACKOFF_MS};

fn alice() -> Identity {
    Identity::new(7, "alice".to_string())
}

fn connect<T>(sup: &mut Supervisor<T>) {
    let cs = sup.step(Event::Resume);
    assert!(matches!(cs.as_slice(), [Command::Connect]));
    let cs = sup.step(Event::Ready(alice()));
    assert!(matches!(cs.last(), Some(Command::Pump)));
    assert_eq!(sup.phase(), Phase::Connected);
}

#[test]
fn update_before_connection_runs_once_after_handshake() {
    let mut sup: Supervisor<String> = Supervisor::new();
    let ticket = sup.submit("payload A".to_string()).ok().unwrap();
    assert_eq!(ticket, 0);

    let cs = sup.step(Event::Resume);
    assert!(matches!(cs.as_slice(), [Command::Connect]));
    let cs = sup.step(Event::Ready(alice()));
    assert!(matches!(cs.as_slice(), [Command::Pump]));

    let mut calls = Vec::new();
    let cs = sup.step(Event::Turn);
    assert_eq!(cs.len(), 1);
    for c in cs {
        match c {
            Command::Run(job) => calls.push((job.ticket, job.work)),
            _ => panic!("expected a run"),
        }
    }
    assert_eq!(calls, vec![(0, "payload A".to_string())]);

    let cs = sup.step(Event::Turn);
    assert!(matches!(cs.as_slice(), [Command::Pump]));
}

#[test]
fn every_submitted_job_gets_one_outcome_across_a_disconnect() {
    let n: u64 = 50;
    let mut sup: Supervisor<u64> = Supervisor::new();
    connect(&mut sup);
    for i in 0..n {
        assert_eq!(sup.submit(i).ok(), Some(i));
    }
    let mut outcomes: Vec<(u64, bool)> = Vec::new();
    // Run ten of them, then lose the connection mid-drain.
    for _ in 0..10 {
        for c in sup.step(Event::Turn) {
            match c {
                Command::Run(job) => outcomes.push((job.ticket, true)),
                _ => panic!("expected a run"),
            }
        }
    }
    let cs = sup.step(Event::Lost);
    assert!(matches!(cs.last(), Some(Command::Sleep(ms)) if *ms == BACKOFF_MS));
    for c in cs {
        match c {
            Command::Fail(job, Failure::Closed) => outcomes.push((job.ticket, false)),
            Command::Sleep(_) => {}
            _ => panic!("unexpected command"),
        }
    }
    assert_eq!(outcomes.len() as u64, n);
    let mut seen: Vec<u64> = outcomes.iter().map(|o| o.0).collect();
    seen.sort();
    assert_eq!(seen, (0..n).collect::<Vec<u64>>());
    assert_eq!(sup.phase(), Phase::Disconnected);
}

#[test]
fn jobs_queued_after_a_disconnect_wait_for_the_next_connection() {
    let mut sup: Supervisor<u8> = Supervisor::new();
    connect(&mut sup);
    sup.step(Event::Lost);
    assert_eq!(sup.submit(9).ok(), Some(0));
    let cs = sup.step(Event::Turn);
    assert!(cs.is_empty());
    let cs = sup.step(Event::Resume);
    assert!(matches!(cs.as_slice(), [Command::Connect]));
    let cs = sup.step(Event::Ready(alice()));
    assert!(matches!(cs.as_slice(), [Command::Pump]));
    let cs = sup.step(Event::Turn);
    assert!(matches!(cs.as_slice(), [Command::Run(job)] if job.work == 9));
}

#[test]
fn transient_failures_each_back_off() {
    let n = 25;
    let mut sup: Supervisor<()> = Supervisor::new();
    let mut log: Vec<String> = Vec::new();
    let mut event = Event::Resume;
    let mut failures = 0;
    loop {
        let cs = sup.step(event);
        assert_eq!(cs.len(), 1);
        event = match &cs[0] {
            Command::Connect => {
                log.push("connect".to_string());
                if failures < n {
                    failures += 1;
                    Event::Unavailable
                } else {
                    Event::Ready(alice())
                }
            }
            Command::Sleep(ms) => {
                assert_eq!(*ms, 1000);
                log.push("sleep".to_string());
                Event::Resume
            }
            Command::Pump => break,
            _ => panic!("unexpected command"),
        };
    }
    let connects = log.iter().filter(|l| l.as_str() == "connect").count();
    let sleeps = log.iter().filter(|l| l.as_str() == "sleep").count();
    assert_eq!(connects, n + 1);
    assert_eq!(sleeps, n);
    for pair in log.windows(2) {
        assert_ne!(pair[0], pair[1]);
    }
}

#[test]
fn fatal_error_stops_once_and_answers_everyone() {
    let mut sup: Supervisor<u8> = Supervisor::new();
    assert!(matches!(sup.observe(1), Observation::Pending));
    sup.step(Event::Resume);
    assert_eq!(sup.submit(1).ok(), Some(0));
    assert_eq!(sup.submit(2).ok(), Some(1));
    let cs = sup.step(Event::Fatal(NativeError::new("bad handshake".to_string())));
    assert_eq!(cs.len(), 4);
    assert!(matches!(&cs[0], Command::Fail(job, Failure::Shutdown) if job.ticket == 0));
    assert!(matches!(&cs[1], Command::Fail(job, Failure::Shutdown) if job.ticket == 1));
    assert!(matches!(&cs[2], Command::Refuse(1, e) if e.message == "bad handshake"));
    assert!(matches!(&cs[3], Command::Exit(e) if e.message == "bad handshake"));
    assert_eq!(sup.phase(), Phase::Errored);

    for event in [Event::Resume, Event::Unavailable, Event::Turn, Event::Lost, Event::Ready(alice())] {
        assert!(sup.step(event).is_empty());
    }
    assert!(sup.step(Event::Fatal(NativeError::new("again".to_string()))).is_empty());
    assert_eq!(sup.submit(3).err(), Some(3));
    assert!(matches!(sup.observe(2), Observation::Failed(e) if e.message == "bad handshake"));
}

#[test]
fn fatal_error_while_connected_fails_drained_and_queued_jobs() {
    let mut sup: Supervisor<u8> = Supervisor::new();
    connect(&mut sup);
    sup.submit(1).ok().unwrap();
    sup.submit(2).ok().unwrap();
    let cs = sup.step(Event::Turn);
    assert!(matches!(cs.as_slice(), [Command::Run(job)] if job.ticket == 0));
    sup.submit(3).ok().unwrap();
    let cs = sup.step(Event::Fatal(NativeError::new("lost runtime".to_string())));
    let failed: Vec<u64> = cs
        .iter()
        .filter_map(|c| match c {
            Command::Fail(job, Failure::Shutdown) => Some(job.ticket),
            _ => None,
        })
        .collect();
    assert_eq!(failed, vec![1, 2]);
    assert!(matches!(cs.last(), Some(Command::Exit(_))));
    assert_eq!(cs.iter().filter(|c| matches!(c, Command::Exit(_))).count(), 1);
}

#[test]
fn observers_parked_before_the_handshake_are_woken() {
    let mut sup: Supervisor<()> = Supervisor::new();
    for w in 0..1000u64 {
        assert!(matches!(sup.observe(w), Observation::Pending));
    }
    sup.step(Event::Resume);
    let cs = sup.step(Event::Ready(alice()));
    assert_eq!(cs.len(), 1001);
    for (k, c) in cs.iter().take(1000).enumerate() {
        assert!(matches!(c, Command::Wake(w, i) if *w == k as u64 && *i == alice()));
    }
    assert!(matches!(sup.observe(5000), Observation::Ready(i) if i == alice()));
}

#[test]
fn out_of_place_events_change_nothing() {
    let mut sup: Supervisor<()> = Supervisor::new();
    assert!(sup.step(Event::Turn).is_empty());
    assert!(sup.step(Event::Unavailable).is_empty());
    assert!(sup.step(Event::Lost).is_empty());
    assert!(sup.step(Event::Ready(alice())).is_empty());
    assert_eq!(sup.phase(), Phase::Disconnected);
    sup.step(Event::Resume);
    let cs = sup.step(Event::Lost);
    assert!(matches!(cs.as_slice(), [Command::Sleep(1000)]));
}
