//! What a headless run publishes of its progress, and whether it is to stop.

use vstd::prelude::*;

verus! {

/// 1.0, as the bits of a single-precision number.
pub const ONE: u32 = 0x3f80_0000;

/// The bits of infinity; above them are those of what is no number.
pub const INFINITY: u32 = 0x7f80_0000;

/// The bits of −0.0; above them are those of the numbers below 0.
pub const MINUS_ZERO: u32 = 0x8000_0000;

/// The fraction to show for a number, both by their bits: what is not finite is
/// no progress, and the rest is kept between 0 and 1. Numbers above 0 are in the
/// order of their bits.
pub open spec fn shown(fraction: u32) -> u32 {
    let size = if fraction >= MINUS_ZERO {
        fraction - MINUS_ZERO
    } else {
        fraction as int
    };
    if size >= INFINITY {
        0
    } else if fraction > MINUS_ZERO {
        0
    } else if fraction < MINUS_ZERO && fraction > ONE {
        ONE
    } else {
        fraction
    }
}

/// The work's side of the progress window: publish progress, poll for
/// cancellation.
pub struct ProgressSink {
    fraction: u32,
    status: String,
    cancel: bool,
}

/// What a sink holds.
#[verifier::ext_equal]
pub struct SinkModel {
    pub fraction: u32,
    pub status: Seq<char>,
    pub cancel: bool,
}

impl View for ProgressSink {
    type V = SinkModel;

    closed spec fn view(&self) -> SinkModel {
        SinkModel { fraction: self.fraction, status: self.status@, cancel: self.cancel }
    }
}

impl ProgressSink {
    pub fn new() -> (r: ProgressSink)
        ensures
            r@ == (SinkModel { fraction: 0, status: seq![], cancel: false }),
    {
        let r = ProgressSink { fraction: 0, status: String::new(), cancel: false };
        assert(r@ =~= SinkModel { fraction: 0, status: seq![], cancel: false });
        r
    }

    /// Publish progress; the fraction is given by its bits. `done / total` is no
    /// number for an empty queue, and would reach the window as a bar of
    /// undefined width.
    pub fn set(&mut self, fraction: u32, status: &str)
        ensures
            final(self)@ == (SinkModel {
                fraction: shown(fraction),
                status: status@,
                ..old(self)@
            }),
    {
        let size: u32 = if fraction >= MINUS_ZERO {
            fraction - MINUS_ZERO
        } else {
            fraction
        };
        self.fraction = if size >= INFINITY || fraction > MINUS_ZERO {
            0
        } else if fraction < MINUS_ZERO && fraction > ONE {
            ONE
        } else {
            fraction
        };
        self.status = String::from_str(status);
    }

    /// The most recent fraction, by its bits, and status the work reported.
    pub fn latest(&self) -> (r: (u32, String))
        ensures
            r.0 == self@.fraction,
            r.1@ == self@.status,
    {
        (self.fraction, self.status.clone())
    }

    pub fn cancelled(&self) -> (r: bool)
        ensures
            r == self@.cancel,
    {
        self.cancel
    }

    /// Ask the work to stop.
    pub fn cancel(&mut self)
        ensures
            final(self)@ == (SinkModel { cancel: true, ..old(self)@ }),
    {
        self.cancel = true;
    }
}

/// The fraction that is shown is 0, or between 0 and 1.
pub proof fn a_fraction_is_in_range(fraction: u32)
    ensures
        shown(fraction) <= ONE || shown(fraction) == MINUS_ZERO,
{
}

/// A fraction between 0 and 1 is shown as it is.
pub proof fn a_fraction_in_range_stays(fraction: u32)
    requires
        fraction <= ONE,
    ensures
        shown(fraction) == fraction,
{
}

/// Something that happens to a sink.
pub enum SinkEvent {
    Report { fraction: u32, status: Seq<char> },
    Cancel,
}

/// A sink after a run of events.
pub open spec fn sink_after(sink: SinkModel, events: Seq<SinkEvent>) -> SinkModel
    decreases events.len(),
{
    if events.len() == 0 {
        sink
    } else {
        let before = sink_after(sink, events.drop_last());
        match events.last() {
            SinkEvent::Report { fraction, status } => SinkModel {
                fraction: shown(fraction),
                status,
                ..before
            },
            SinkEvent::Cancel => SinkModel { cancel: true, ..before },
        }
    }
}

/// Cancellation latches once asked for: whatever follows does not clear it, and
/// without it nothing else raises it.
pub proof fn cancellation_latches(sink: SinkModel, events: Seq<SinkEvent>)
    ensures
        sink_after(sink, events).cancel <==> sink.cancel || exists|i: int|
            0 <= i < events.len() && #[trigger] events[i] is Cancel,
    decreases events.len(),
{
    if events.len() > 0 {
        let rest = events.drop_last();
        cancellation_latches(sink, rest);
        if exists|i: int| 0 <= i < rest.len() && #[trigger] rest[i] is Cancel {
            let i = choose|i: int| 0 <= i < rest.len() && #[trigger] rest[i] is Cancel;
            assert(events[i] is Cancel);
        }
        if events.last() is Cancel {
            assert(events[events.len() - 1] is Cancel);
        }
        if exists|i: int| 0 <= i < events.len() && #[trigger] events[i] is Cancel {
            let i = choose|i: int| 0 <= i < events.len() && #[trigger] events[i] is Cancel;
            if i < rest.len() {
                assert(rest[i] is Cancel);
            }
        }
    }
}

// ---------------------------------------------------------------------------
// The window
// ---------------------------------------------------------------------------

/// The progress window of a headless run. The work runs on a thread of its own;
/// the window only appears if the work outlives a short grace period, so an
/// instant one-file job doesn't flash a dialog, and it stays until the work has
/// stopped, so partial output can be cleaned up.
#[derive(Clone, Copy, PartialEq, Eq, Structural, Debug)]
pub struct RunWindow {
    /// The work has ended.
    pub done: bool,
    /// The window was put up.
    pub up: bool,
    /// It says that the run is being cancelled.
    pub cancelling: bool,
}

impl RunWindow {
    /// The work starts, and no window is up.
    pub fn new() -> (r: RunWindow)
        ensures
            r == (RunWindow { done: false, up: false, cancelling: false }),
    {
        RunWindow { done: false, up: false, cancelling: false }
    }

    /// The work has ended, in whatever way.
    pub fn work_ended(&mut self)
        ensures
            *final(self) == (RunWindow { done: true, ..*old(self) }),
    {
        self.done = true;
    }

    /// The grace period is over: whether to put the window up now.
    pub fn grace_over(&mut self) -> (show: bool)
        ensures
            show == !old(self).done,
            *final(self) == (RunWindow { up: old(self).up || show, ..*old(self) }),
    {
        let show = !self.done;
        if show {
            self.up = true;
        }
        show
    }

    /// The Cancel button or the close box: the work is asked to stop, and the
    /// window stays and says so.
    pub fn cancel_asked(&mut self, sink: &mut ProgressSink)
        ensures
            final(sink)@ == (SinkModel { cancel: true, ..old(sink)@ }),
            *final(self) == (RunWindow { cancelling: true, ..*old(self) }),
    {
        sink.cancel();
        self.cancelling = true;
    }

    /// Whether a tick ends the loop. A quit that the work posts before the loop
    /// runs is lost, so each tick looks again: the loop cannot outlive the work
    /// by more than one.
    pub fn ends(&self) -> (r: bool)
        ensures
            r == self.done,
    {
        self.done
    }

    /// What a run returns: the result of its work, or an error where the work
    /// ended without one.
    pub fn outcome<T>(result: Option<T>) -> (r: Result<T, &'static str>)
        ensures
            match result {
                Some(t) => r == Ok::<T, &'static str>(t),
                None => r is Err && r->Err_0@
                    == "the run stopped unexpectedly (internal error)"@,
            },
    {
        match result {
            Some(t) => Ok(t),
            None => Err("the run stopped unexpectedly (internal error)"),
        }
    }
}

/// Something that happens to the window.
pub enum WindowEvent {
    WorkEnded,
    GraceOver,
    CancelAsked,
}

/// The window after a run of events, from the start.
pub open spec fn window_after(events: Seq<WindowEvent>) -> RunWindow
    decreases events.len(),
{
    if events.len() == 0 {
        RunWindow { done: false, up: false, cancelling: false }
    } else {
        let w = window_after(events.drop_last());
        match events.last() {
            WindowEvent::WorkEnded => RunWindow { done: true, ..w },
            WindowEvent::GraceOver => RunWindow { up: w.up || !w.done, ..w },
            WindowEvent::CancelAsked => RunWindow { cancelling: true, ..w },
        }
    }
}

/// The window stays until the work has stopped, however often it is asked to
/// close; and once the work has stopped, the loop ends.
pub proof fn the_window_stays_until_the_work_stops(events: Seq<WindowEvent>)
    ensures
        window_after(events).done <==> exists|i: int|
            0 <= i < events.len() && #[trigger] events[i] is WorkEnded,
    decreases events.len(),
{
    if events.len() > 0 {
        let rest = events.drop_last();
        the_window_stays_until_the_work_stops(rest);
        if exists|i: int| 0 <= i < rest.len() && #[trigger] rest[i] is WorkEnded {
            let i = choose|i: int| 0 <= i < rest.len() && #[trigger] rest[i] is WorkEnded;
            assert(events[i] is WorkEnded);
        }
        if events.last() is WorkEnded {
            assert(events[events.len() - 1] is WorkEnded);
        }
        if exists|i: int| 0 <= i < events.len() && #[trigger] events[i] is WorkEnded {
            let i = choose|i: int| 0 <= i < events.len() && #[trigger] events[i] is WorkEnded;
            if i < rest.len() {
                assert(rest[i] is WorkEnded);
            }
        }
    }
}

/// A job that ends within the grace period never shows its window.
pub proof fn an_instant_job_shows_no_window(events: Seq<WindowEvent>, ended: int)
    requires
        0 <= ended < events.len(),
        events[ended] is WorkEnded,
        forall|i: int| 0 <= i < ended ==> !(#[trigger] events[i] is GraceOver),
    ensures
        !window_after(events).up,
    decreases events.len(),
{
    let rest = events.drop_last();
    if ended < rest.len() {
        assert(rest[ended] is WorkEnded);
        assert forall|i: int| 0 <= i < ended implies !(#[trigger] rest[i] is GraceOver) by {
            assert(events[i] == rest[i]);
        }
        an_instant_job_shows_no_window(rest, ended);
        the_window_stays_until_the_work_stops(rest);
    } else {
        lemma_no_window_without_grace(rest);
    }
}

proof fn lemma_no_window_without_grace(events: Seq<WindowEvent>)
    requires
        forall|i: int| 0 <= i < events.len() ==> !(#[trigger] events[i] is GraceOver),
    ensures
        !window_after(events).up,
    decreases events.len(),
{
    if events.len() > 0 {
        let rest = events.drop_last();
        assert forall|i: int| 0 <= i < rest.len() implies !(#[trigger] rest[i] is GraceOver) by {
            assert(events[i] == rest[i]);
        }
        lemma_no_window_without_grace(rest);
        assert(!(events[events.len() - 1] is GraceOver));
    }
}

/// What a report leaves in the sink, by the bits of the fraction: one from 0 to 1 as
/// it is, one above as 1, and one below 0 or not finite as 0. The status is the one
/// reported, and a report neither asks for a cancel nor clears one.
pub proof fn a_report_is_kept_within_bounds(sink: &mut ProgressSink, fraction: u32, status: &str)
    requires
        call_ensures(ProgressSink::set, (sink, fraction, status), ()),
    ensures
        fraction <= 0x3f80_0000 ==> final(sink)@.fraction == fraction,
        0x3f80_0000 < fraction < 0x7f80_0000 ==> final(sink)@.fraction == 0x3f80_0000,
        0x7f80_0000 <= fraction < 0x8000_0000 ==> final(sink)@.fraction == 0,
        fraction > 0x8000_0000 ==> final(sink)@.fraction == 0,
        fraction == 0x8000_0000 ==> final(sink)@.fraction == 0x8000_0000,
        final(sink)@.status == status@,
        final(sink)@.cancel == old(sink)@.cancel,
{
}

/// What is read from the sink is what it holds; to cancel changes nothing that was
/// reported.
pub proof fn the_latest_report_is_read(
    sink: &ProgressSink,
    latest: (u32, String),
    cancelled: bool,
    other: &mut ProgressSink,
)
    requires
        call_ensures(ProgressSink::latest, (sink,), latest),
        call_ensures(ProgressSink::cancelled, (sink,), cancelled),
        call_ensures(ProgressSink::cancel, (other,), ()),
    ensures
        latest.0 == sink@.fraction && latest.1@ == sink@.status,
        cancelled == sink@.cancel,
        final(other)@.cancel,
        final(other)@.fraction == old(other)@.fraction && final(other)@.status == old(other)@.status,
{
}

/// The grace period's end puts the window up exactly where the work still runs; to ask
/// for a cancel reaches the work and leaves the window as it is but for what it says;
/// only the work's own end ends the loop.
pub proof fn only_the_work_ends_the_loop(
    ended: &mut RunWindow,
    grace: &mut RunWindow,
    show: bool,
    asked: &mut RunWindow,
    sink: &mut ProgressSink,
    w: &RunWindow,
    ends: bool,
)
    requires
        call_ensures(RunWindow::work_ended, (ended,), ()),
        call_ensures(RunWindow::grace_over, (grace,), show),
        call_ensures(RunWindow::cancel_asked, (asked, sink), ()),
        call_ensures(RunWindow::ends, (w,), ends),
    ensures
        final(ended).done && final(ended).up == old(ended).up && final(ended).cancelling == old(ended).cancelling,
        show == !old(grace).done,
        final(grace).up == (old(grace).up || show),
        final(grace).done == old(grace).done && final(grace).cancelling == old(grace).cancelling,
        final(asked).cancelling && final(asked).up == old(asked).up && final(asked).done == old(asked).done,
        final(sink)@.cancel && final(sink)@.fraction == old(sink)@.fraction,
        final(sink)@.status == old(sink)@.status,
        ends == w.done,
{
}

/// A run returns what its work returned; where that returned nothing the run says so.
pub proof fn a_run_returns_what_its_work_did<T>(result: Option<T>, r: Result<T, &'static str>)
    requires
        call_ensures(RunWindow::outcome::<T>, (result,), r),
    ensures
        result is Some ==> r is Ok && r->Ok_0 == result->0,
        result is None ==> r is Err && r->Err_0@
            == "the run stopped unexpectedly (internal error)"@,
{
}

} // verus!
