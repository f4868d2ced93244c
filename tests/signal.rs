use mpdiscord::native::{Identity, NativeError};
use mpdiscord::signal::{Observation, ReadinessSignal};

fn bob() -> Identity {
    Identity::new(42, "bob".to_string())
}

#[test]
fn thousand_waiters_see_one_publication() {
    let mut signal = ReadinessSignal::new();
    for w in 0..1000u64 {
        assert!(matches!(signal.observe(w), Observation::Pending));
    }
    let woken = signal.publish(bob());
    assert_eq!(woken, (0..1000u64).collect::<Vec<u64>>());
    for w in 1000..2000u64 {
        assert!(matches!(signal.observe(w), Observation::Ready(i) if i == bob()));
    }
}

#[test]
fn first_identity_is_kept_across_reconnects() {
    let mut signal = ReadinessSignal::new();
    assert!(signal.publish(bob()).is_empty());
    assert!(signal.publish(Identity::new(1, "carol".to_string())).is_empty());
    assert!(signal.fail(NativeError::new("late".to_string())).is_empty());
    assert!(matches!(signal.observe(3), Observation::Ready(i) if i.username == "bob" && i.id == 42));
}

#[test]
fn error_before_publication_wakes_waiters_with_it() {
    let mut signal = ReadinessSignal::new();
    signal.observe(1);
    signal.observe(2);
    let woken = signal.fail(NativeError::new("incompatible".to_string()));
    assert_eq!(woken, vec![1, 2]);
    assert!(matches!(signal.observe(3), Observation::Failed(e) if e.message == "incompatible"));
    assert!(signal.publish(bob()).is_empty());
    assert!(matches!(signal.observe(4), Observation::Failed(_)));
}
