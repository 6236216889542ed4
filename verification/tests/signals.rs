use pxls::signals::stop_requested;
use pxls::ProgressSink;
use std::sync::atomic::{AtomicBool, Ordering};
use std::sync::mpsc::channel;
use std::sync::Arc;

#[test]
fn reports_go_down_the_channel_in_order() {
    let (tx, rx) = channel();
    let mut sink = ProgressSink::new(tx);
    sink.report(1, 3);
    sink.report(2, 3);
    sink.report(3, 3);
    assert_eq!(rx.try_iter().collect::<Vec<(u64, u64)>>(), vec![(1, 3), (2, 3), (3, 3)]);
}

#[test]
fn reports_to_a_closed_channel_are_dropped() {
    let (tx, rx) = channel();
    let mut sink = ProgressSink::new(tx);
    drop(rx);
    sink.report(1, 1);
}

#[test]
fn silent_sink_takes_reports() {
    let mut sink = ProgressSink::silent();
    sink.report(1, 2);
    sink.report(2, 2);
}

#[test]
fn stop_flag_is_read_as_it_stands() {
    let stop = Arc::new(AtomicBool::new(false));
    assert!(!stop_requested(&stop));
    stop.store(true, Ordering::Relaxed);
    assert!(stop_requested(&stop));
}
