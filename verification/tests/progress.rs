use kuvatin::progress::{ProgressSink, RunWindow};

fn latest(sink: &ProgressSink) -> (f32, String) {
    let (bits, status) = sink.latest();
    (f32::from_bits(bits), status)
}

#[test]
fn the_fraction_is_clamped_into_range() {
    let mut sink = ProgressSink::new();
    sink.set((-1.0f32).to_bits(), "before the start");
    assert_eq!(latest(&sink).0, 0.0);
    sink.set(2.0f32.to_bits(), "past the end");
    assert_eq!(latest(&sink).0, 1.0);
    sink.set(0.25f32.to_bits(), "a quarter");
    assert_eq!(latest(&sink), (0.25, "a quarter".to_string()));
}

/// `done / total` with an empty queue is NaN, and NaN survives `clamp` —
/// it would reach the window as a bar of undefined width.
#[test]
fn a_nonsense_fraction_reads_as_no_progress() {
    let mut sink = ProgressSink::new();
    sink.set(f32::NAN.to_bits(), "empty queue");
    assert_eq!(latest(&sink).0, 0.0);
    sink.set(f32::INFINITY.to_bits(), "still nonsense");
    assert_eq!(latest(&sink).0, 0.0);
}

#[test]
fn what_is_below_every_number_is_no_progress() {
    let mut sink = ProgressSink::new();
    sink.set(0.5f32.to_bits(), "half");
    sink.set(f32::NEG_INFINITY.to_bits(), "nonsense");
    assert_eq!(latest(&sink), (0.0, "nonsense".to_string()));
    sink.set((-f32::NAN).to_bits(), "");
    assert_eq!(latest(&sink).0, 0.0);
    sink.set(f32::MAX.to_bits(), "");
    assert_eq!(latest(&sink).0, 1.0);
}

#[test]
fn cancellation_latches_once_asked_for() {
    let mut sink = ProgressSink::new();
    assert!(!sink.cancelled());
    sink.cancel();
    assert!(sink.cancelled());
    // Later progress does not clear it: the run is over either way.
    sink.set(0.9f32.to_bits(), "nearly there");
    assert!(sink.cancelled());
}

#[test]
fn a_headless_run_never_reports_cancellation() {
    let mut sink = ProgressSink::new();
    sink.set(0.5f32.to_bits(), "half");
    let seen = (sink.cancelled(), latest(&sink));
    assert_eq!(seen, (false, (0.5, "half".to_string())));
}

#[test]
fn an_instant_job_shows_no_window() {
    let mut w = RunWindow::new();
    assert!(!w.ends());
    w.work_ended();
    assert!(!w.grace_over());
    assert!(!w.up && w.ends());
}

#[test]
fn a_cancelled_run_keeps_its_window_until_the_work_stops() {
    let mut w = RunWindow::new();
    let mut sink = ProgressSink::new();
    assert!(w.grace_over());
    w.cancel_asked(&mut sink);
    assert!(sink.cancelled() && w.cancelling);
    assert!(!w.ends(), "the work has not noticed yet");
    w.work_ended();
    assert!(w.ends());
}

#[test]
fn work_without_a_result_is_an_error() {
    assert_eq!(RunWindow::outcome(Some(3)), Ok(3));
    assert_eq!(
        RunWindow::outcome::<u8>(None),
        Err("the run stopped unexpectedly (internal error)")
    );
}
