use mpdiscord::art::resize_box;
use mpdiscord::updaters::{recv_step, Received, RecvStep};

#[test]
fn lag_is_skipped_and_close_stops() {
    assert!(matches!(recv_step(Received::Value(5)), RecvStep::Deliver(5)));
    assert!(matches!(recv_step(Received::<u8>::Lagged(3)), RecvStep::Retry));
    assert!(matches!(recv_step(Received::<u8>::Closed), RecvStep::Stop));
}

#[test]
fn large_covers_are_fitted_into_the_box() {
    assert_eq!(resize_box(1024, 1024), None);
    assert_eq!(resize_box(1025, 10), Some((1000, 1000)));
    assert_eq!(resize_box(10, 2000), Some((1000, 1000)));
}
