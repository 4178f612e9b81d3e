use kuvatin::export::{
    clock, export_settings, export_status_line, extension, should_fall_back, Ask, Asked, Encoder,
    ExportControls, ExportSettings, ExportState, OutputFile, Pace, Phase, VideoCodec, STALL_TICKS,
};
use kuvatin::paths::{FilePath, Part};

/// What the window works out of a fraction and the seconds so far.
fn pace(fraction: f32, elapsed: u64) -> Pace {
    Pace {
        percent: (fraction.clamp(0.0, 1.0) * 100.0).round() as u64,
        nothing: fraction <= 0.0,
        everything: fraction >= 1.0,
        elapsed,
        left: if fraction > 0.0 {
            (elapsed as f32 * (1.0 - fraction) / fraction) as u64
        } else {
            0
        },
    }
}

fn line(fraction: f32, elapsed: u64) -> String {
    export_status_line(pace(fraction, elapsed))
}

/// An estimate from the first second of a render is noise; a software
/// H.264 pass can spend that long on its first frame.
#[test]
fn no_estimate_until_there_is_something_to_estimate_from() {
    assert_eq!(line(0.0, 0), "0%");
    assert_eq!(line(0.4, 2), "40%");
}

#[test]
fn elapsed_and_remaining_once_the_render_is_under_way() {
    // A quarter done in thirty seconds: ninety more to go.
    assert_eq!(
        line(0.25, 30),
        "25% \u{b7} 0:30 elapsed \u{b7} about 1:30 left"
    );
}

#[test]
fn a_long_render_is_clocked_in_hours() {
    assert_eq!(
        line(0.5, 3600),
        "50% \u{b7} 1:00:00 elapsed \u{b7} about 1:00:00 left"
    );
}

/// At the end there is nothing left to predict, and "about 0:00 left"
/// reads like a stall.
#[test]
fn the_estimate_drops_away_at_the_finish() {
    assert_eq!(line(1.0, 75), "100% \u{b7} 1:15 elapsed");
}

/// The machine was asked to decide, the hardware encoder it picked failed, and
/// the file is still wanted.
#[test]
fn a_hardware_failure_under_automatic_is_retried_in_software() {
    assert!(should_fall_back(Encoder::Auto, Some(true), false));
}

#[test]
fn nothing_else_is_retried() {
    // The software encoder failing is not an encoder problem.
    assert!(!should_fall_back(Encoder::Auto, Some(false), false));
    // Asked for hardware: report the failure, do not substitute.
    assert!(!should_fall_back(Encoder::Hardware, Some(true), false));
    // Already software.
    assert!(!should_fall_back(Encoder::Software, Some(false), false));
    // Once is a fallback; twice is a loop.
    assert!(!should_fall_back(Encoder::Auto, Some(true), true));
    // It fell over before an encoder existed: something else is wrong.
    assert!(!should_fall_back(Encoder::Auto, None, false));
}

#[test]
fn the_clock_rolls_over_at_a_minute_and_at_an_hour() {
    assert_eq!(clock(9), "0:09");
    assert_eq!(clock(59), "0:59");
    assert_eq!(clock(60), "1:00");
    assert_eq!(clock(3599), "59:59");
    assert_eq!(clock(3661), "1:01:01");
}

fn output() -> OutputFile {
    OutputFile {
        path: FilePath {
            parts: vec![Part::Name("cut.mp4".chars().map(|c| c as u32).collect())],
        },
        shown: "cut.mp4".into(),
    }
}

fn settings(encoder: i32) -> ExportSettings {
    export_settings(ExportControls {
        codec: 0,
        width: 1920,
        height: 1080,
        fps: 30,
        bitrate_kbps: 8000,
        encoder,
    })
}

fn rendering(encoder: i32) -> ExportState {
    let mut ex = ExportState::new();
    assert!(ex.begin(output(), settings(encoder), None).is_none());
    assert!(ex.started(None).is_none());
    ex
}

#[test]
fn the_controls_say_the_settings() {
    let s = export_settings(ExportControls {
        codec: 1,
        width: 640,
        height: 360,
        fps: 1000,
        bitrate_kbps: -5,
        encoder: 2,
    });
    assert_eq!(
        s,
        ExportSettings {
            codec: VideoCodec::Vp9,
            width: 640,
            height: 360,
            fps: 240,
            bitrate_kbps: 0,
            encoder: Encoder::Software,
        }
    );
    assert_eq!(extension(s.codec), "webm");
    assert_eq!(extension(VideoCodec::H264), "mp4");
    assert_eq!(settings(7).encoder, Encoder::Auto);
    assert_eq!(settings(1).encoder, Encoder::Hardware);
}

#[test]
fn an_export_goes_through_its_phases() {
    let mut ex = ExportState::new();
    assert_eq!(ex.ask(), Ask::Nothing);
    assert!(!ex.active() && !ex.pending());
    assert!(ex.begin(output(), settings(0), None).is_none());
    assert_eq!(ex.ask(), Ask::RenderReady);
    assert!(ex.pending());
    assert!(ex.started(None).is_none());
    assert_eq!(ex.ask(), Ask::RenderStatus);
    assert!(ex.active() && !ex.pending());
    ex.rendered(Some(75), Some("x264enc".into()), None);
    assert_eq!(ex.ask(), Ask::RestoreReady);
    let d = ex.restored().unwrap();
    assert_eq!(d.title, "Export finished");
    assert_eq!(d.detail, "cut.mp4\n\nTook 1:15\nEncoder: x264enc");
    assert_eq!(d.reveal, "cut.mp4");
    assert!(d.info);
    assert_eq!(ex.ask(), Ask::Nothing);
}

#[test]
fn an_export_that_cannot_start_says_why() {
    let mut ex = ExportState::new();
    let d = ex.begin(output(), settings(0), Some("busy".into())).unwrap();
    assert_eq!((d.title.as_str(), d.detail.as_str()), ("Export failed to start", "busy"));
    assert_eq!(ex.ask(), Ask::Nothing);
    assert!(ex.begin(output(), settings(0), None).is_none());
    let (gone, d) = ex.started(Some("no encoder".into())).unwrap();
    assert_eq!(gone.shown, "cut.mp4");
    assert_eq!(d.detail, "no encoder");
    assert_eq!(ex.ask(), Ask::Nothing);
}

#[test]
fn a_cancelled_export_is_silent_and_its_file_goes() {
    let mut ex = rendering(0);
    assert_eq!(ex.cancel().unwrap().shown, "cut.mp4");
    assert!(ex.cancel().is_none(), "the preview is already coming back");
    assert!(ex.restored().is_none());
    let mut idle = ExportState::new();
    assert!(idle.cancel().is_none());
}

#[test]
fn a_render_falls_back_once_and_then_gives_up() {
    let mut ex = rendering(0);
    assert!(ex.wants_retry(Some(true)));
    ex.retry();
    assert!(matches!(
        &ex.phase,
        Phase::Starting { settings, .. } if settings.encoder == Encoder::Software
    ));
    assert!(ex.started(None).is_none());
    assert!(!ex.wants_retry(Some(true)));
    let gone = ex.give_up("it broke".into(), Some("x264enc".into()));
    assert_eq!(gone.shown, "cut.mp4");
    let d = ex.restored().unwrap();
    assert_eq!(d.title, "Export failed");
    assert_eq!(d.detail, "it broke\n\nEncoder: x264enc");
}

#[test]
fn a_fallback_is_told_at_the_end() {
    let mut ex = rendering(0);
    ex.retry();
    ex.started(None);
    ex.rendered(None, None, None);
    let d = ex.restored().unwrap();
    assert!(d.detail.starts_with("cut.mp4\n\nThe hardware encoder failed on this export"));
}

#[test]
fn a_preview_that_does_not_come_back_is_told() {
    let mut ex = rendering(0);
    ex.rendered(Some(1), None, Some("no pipeline".into()));
    let d = ex.restored().unwrap();
    assert_eq!(
        d.detail,
        "The file is written, but the preview could not be restored: no pipeline"
    );
    assert!(!d.info);
}

#[test]
fn only_a_render_without_progress_looks_stuck() {
    let mut ex = rendering(0);
    assert!(!ex.progressed(0.1f32.to_bits()));
    for _ in 1..STALL_TICKS {
        assert!(!ex.progressed(0.1f32.to_bits()));
    }
    assert!(ex.progressed(0.05f32.to_bits()), "going back is no progress");
    assert!(!ex.progressed(0.2f32.to_bits()), "it moved");
    assert_eq!(
        ExportState::status(true, pace(0.5, 10)),
        "Export appears stuck \u{2014} you can cancel."
    );
    assert_eq!(ExportState::status(false, pace(0.0, 0)), "0%");
}

/// With nothing on the timeline there is nothing to export; with an export on its
/// way, no second one.
#[test]
fn an_export_needs_a_project_and_comes_alone() {
    let mut state = ExportState::new();
    match state.asked(false) {
        Asked::Nothing(d) => {
            assert_eq!(d.title, "Nothing to export");
            assert_eq!(d.detail, "Add a clip to the timeline first.");
        }
        _ => panic!("there is nothing to export"),
    }
    assert!(matches!(state.asked(true), Asked::Choose));
    let file = OutputFile {
        shown: "out.mp4".into(),
        path: FilePath {
            parts: vec![Part::RootDir],
        },
    };
    let settings = export_settings(ExportControls {
        codec: 0,
        width: 640,
        height: 360,
        fps: 25,
        bitrate_kbps: 0,
        encoder: 0,
    });
    assert!(state.begin(file, settings, None).is_none());
    assert!(matches!(state.asked(true), Asked::Busy));
    assert!(matches!(state.asked(false), Asked::Busy));
}
