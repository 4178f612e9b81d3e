use kuvatin::playback::{
    canvas_size, end_of_timeline, may_preview, may_undo, pauses_in, play_pause, shuttle, starts_again,
    time_line, AtEnd, PlayPause, Shuttle, NEAR_END,
};

/// The shuttle at a rate, which lies between two whole numbers.
fn at(key: i32, playing: bool, rate: f64) -> Shuttle {
    shuttle(key, playing, rate.floor() as i64, rate.ceil() as i64)
}

#[test]
fn shuttle_l_plays_then_climbs_to_eight_and_stops() {
    assert_eq!(at(1, false, 1.0), Shuttle::Play(1), "paused: play");
    assert_eq!(at(1, true, 1.0), Shuttle::Play(2));
    assert_eq!(at(1, true, 2.0), Shuttle::Play(4));
    assert_eq!(at(1, true, 4.0), Shuttle::Play(8));
    assert_eq!(at(1, true, 8.0), Shuttle::Play(8), "8x is the top");
}

#[test]
fn shuttle_j_climbs_down_and_pauses_at_normal_speed() {
    assert_eq!(at(-1, true, 8.0), Shuttle::Play(4));
    assert_eq!(at(-1, true, 4.0), Shuttle::Play(2));
    assert_eq!(at(-1, true, 2.0), Shuttle::Play(1));
    assert_eq!(at(-1, true, 1.0), Shuttle::Pause);
}

#[test]
fn shuttle_j_while_paused_steps_back_a_frame() {
    assert_eq!(at(-1, false, 1.0), Shuttle::Step(-1));
}

#[test]
fn shuttle_k_pauses_from_any_speed_and_plays_when_paused() {
    for rate in [1.0, 2.0, 8.0] {
        assert_eq!(at(0, true, rate), Shuttle::Pause, "{rate}");
    }
    assert_eq!(at(0, false, 4.0), Shuttle::Play(1));
}

#[test]
fn shuttle_from_a_rate_off_the_ladder_goes_to_the_next_rung() {
    assert_eq!(at(1, true, 3.0), Shuttle::Play(4));
    assert_eq!(at(-1, true, 3.0), Shuttle::Play(2));
}

#[test]
fn a_broken_rate_goes_to_the_next_rung_too() {
    assert_eq!(at(1, true, 1.5), Shuttle::Play(2));
    assert_eq!(at(-1, true, 1.5), Shuttle::Play(1));
    assert_eq!(at(1, true, 0.5), Shuttle::Play(1));
    assert_eq!(at(-1, true, 9.5), Shuttle::Play(8));
}

#[test]
fn play_from_a_finished_timeline_starts_again() {
    let end: u64 = 10_000_000_000;
    assert_eq!(play_pause(true, Some(0), Some(end)), PlayPause::Pause);
    assert_eq!(
        play_pause(false, Some(end), Some(end)),
        PlayPause::Play { restart: true }
    );
    assert_eq!(
        play_pause(false, Some(end - NEAR_END - 1), Some(end)),
        PlayPause::Play { restart: false }
    );
    assert!(starts_again(Some(end - NEAR_END), Some(end)));
    assert!(!starts_again(None, Some(end)));
    assert!(!starts_again(Some(end), None));
    assert!(starts_again(Some(0), Some(0)));
}

#[test]
fn at_the_end_it_stops_or_repeats() {
    assert_eq!(end_of_timeline(true, true, false), AtEnd::Stop);
    assert_eq!(end_of_timeline(true, true, true), AtEnd::Restart);
    assert_eq!(end_of_timeline(true, false, true), AtEnd::PlayOn);
    assert_eq!(end_of_timeline(false, true, false), AtEnd::PlayOn);
}

#[test]
fn an_export_has_the_pipeline_to_itself() {
    assert!(may_preview(false, false, 1));
    assert!(!may_preview(true, false, 1));
    assert!(!may_preview(false, true, 1));
    assert!(!may_preview(false, false, 0));
    assert!(may_undo(false, false, false));
    assert!(!may_undo(true, false, false));
    assert!(!may_undo(false, true, false));
    assert!(!may_undo(false, false, true));
}

#[test]
fn the_time_is_shown_in_minutes() {
    assert_eq!(time_line(7, 90), "0:07 / 1:30");
    assert_eq!(time_line(0, 3600), "0:00 / 60:00");
}

#[test]
fn the_canvas_stays_within_what_the_engine_composes() {
    assert_eq!(canvas_size(1, 9000), (16, 4320));
    assert_eq!(canvas_size(1920, 1080), (1920, 1080));
    assert_eq!(canvas_size(8000, -3), (7680, 16));
}

#[test]
fn leaving_videos_mode_pauses() {
    assert!(pauses_in(0) && pauses_in(2) && pauses_in(-1));
    assert!(!pauses_in(1));
}
