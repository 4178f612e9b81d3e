//! Playing the timeline: play and pause, the end of the timeline, the shuttle
//! keys, the canvas size, and where a new clip goes.

use crate::clip::{ClipKind, Picture, Real, RowModel, TimelineClip};
use crate::paths::{name_of, FilePath};
use crate::text::{decimal, padded, push_decimal, push_padded};
use vstd::prelude::*;

verus! {

/// How close to its end a timeline counts as finished, in nanoseconds.
pub const NEAR_END: u64 = 120_000_000;

/// The seconds a still lasts on the timeline.
pub const STILL_SECS: u64 = 5;

/// What Play/Pause does.
#[derive(Clone, Copy, PartialEq, Eq, Structural, Debug)]
pub enum PlayPause {
    Pause,
    /// Play; from the start again, where the timeline is finished.
    Play { restart: bool },
}

/// Whether the position is at the end of the timeline.
pub open spec fn finished(position: Option<u64>, duration: Option<u64>) -> bool {
    position is Some && duration is Some && position->0 + NEAR_END >= duration->0
}

/// Play or pause. Play from a finished timeline restarts it instead of pausing
/// again on the same last frame. Times are in nanoseconds.
pub fn play_pause(playing: bool, position: Option<u64>, duration: Option<u64>) -> (r: PlayPause)
    ensures
        r == if playing {
            PlayPause::Pause
        } else {
            PlayPause::Play { restart: finished(position, duration) }
        },
{
    if playing {
        return PlayPause::Pause;
    }
    PlayPause::Play { restart: starts_again(position, duration) }
}

/// Whether playing on means starting again: the position is at the end.
pub fn starts_again(position: Option<u64>, duration: Option<u64>) -> (r: bool)
    ensures
        r == finished(position, duration),
{
    match (position, duration) {
        (Some(p), Some(d)) => d <= NEAR_END || p >= d - NEAR_END,
        _ => false,
    }
}

/// What the preview does at the end of the timeline.
#[derive(Clone, Copy, PartialEq, Eq, Structural, Debug)]
pub enum AtEnd {
    PlayOn,
    /// Repeat is on: from the start again.
    Restart,
    /// Show that it stopped.
    Stop,
}

/// What a tick of the preview does, where `at_end` tells whether the timeline
/// has one and the position is there.
pub fn end_of_timeline(at_end: bool, playing: bool, repeat: bool) -> (r: AtEnd)
    ensures
        r == if at_end && playing {
            if repeat {
                AtEnd::Restart
            } else {
                AtEnd::Stop
            }
        } else {
            AtEnd::PlayOn
        },
{
    if at_end && playing {
        if repeat {
            AtEnd::Restart
        } else {
            AtEnd::Stop
        }
    } else {
        AtEnd::PlayOn
    }
}

/// The mode of the window in which videos are edited.
pub const VIDEO_MODE: i32 = 1;

/// Whether a tick may touch the pipeline: never while a render is in progress
/// or about to start, and not in another mode, where there is nothing to
/// preview.
pub fn may_preview(export_active: bool, export_pending: bool, mode: i32) -> (r: bool)
    ensures
        r == (!export_active && !export_pending && mode == VIDEO_MODE),
{
    !export_active && !export_pending && mode == VIDEO_MODE
}

/// Whether the preview pauses where the window changes to this mode: leaving
/// Videos mode stops the sound.
pub fn pauses_in(mode: i32) -> (r: bool)
    ensures
        r == (mode != VIDEO_MODE),
{
    mode != VIDEO_MODE
}

/// Whether an undo or a redo may run: the engine refuses edits during an
/// export, and there is nothing to undo on an engine that never started.
pub fn may_undo(export_active: bool, export_pending: bool, engine_down: bool) -> (r: bool)
    ensures
        r == !(export_active || export_pending || engine_down),
{
    !(export_active || export_pending || engine_down)
}

/// A time as minutes and seconds.
pub open spec fn minutes_text(secs: nat) -> Seq<char> {
    decimal(secs / 60) + ":"@ + padded(secs % 60, 2)
}

/// "0:07 / 1:30": the position and the length of the timeline, in seconds.
pub fn time_line(position: u64, duration: u64) -> (r: String)
    ensures
        r@ == minutes_text(position as nat) + " / "@ + minutes_text(duration as nat),
{
    let mut s = String::new();
    push_minutes(&mut s, position);
    s.append(" / ");
    push_minutes(&mut s, duration);
    assert(s@ =~= minutes_text(position as nat) + " / "@ + minutes_text(duration as nat));
    s
}

fn push_minutes(s: &mut String, secs: u64)
    ensures
        final(s)@ == old(s)@ + minutes_text(secs as nat),
{
    push_decimal(s, secs / 60);
    s.append(":");
    push_padded(s, secs % 60, 2);
    assert(s@ =~= old(s)@ + minutes_text(secs as nat));
}

/// The number, or the nearest within both bounds.
pub open spec fn within(x: int, low: int, high: int) -> int {
    if x < low {
        low
    } else if x > high {
        high
    } else {
        x
    }
}

/// The canvas size that was asked for, within what the engine composes.
pub fn canvas_size(w: i32, h: i32) -> (r: (i32, i32))
    ensures
        r.0 == within(w as int, 16, 7680),
        r.1 == within(h as int, 16, 4320),
{
    let w2: i32 = if w < 16 {
        16
    } else if w > 7680 {
        7680
    } else {
        w
    };
    let h2: i32 = if h < 16 {
        16
    } else if h > 4320 {
        4320
    } else {
        h
    };
    (w2, h2)
}

// ---------------------------------------------------------------------------
// The shuttle
// ---------------------------------------------------------------------------

/// The fastest speed of the shuttle, whose speeds are 1, 2, 4 and 8.
pub const TOP_SPEED: u32 = 8;

/// Whether the shuttle has this speed.
pub open spec fn is_speed(r: int) -> bool {
    r == 1 || r == 2 || r == 4 || r == 8
}

/// What a shuttle key asks the transport to do.
#[derive(Clone, Copy, PartialEq, Eq, Structural, Debug)]
pub enum Shuttle {
    /// Play forward at this rate.
    Play(u32),
    /// Stop, at normal speed.
    Pause,
    /// Step one frame back (-1) or on (+1), paused.
    Step(i32),
}

/// The next speed above a rate, or the fastest. A rate is given by the whole
/// number not above it, since speeds are whole numbers.
pub open spec fn faster(rate_floor: int) -> int {
    if rate_floor < 1 {
        1
    } else if rate_floor < 2 {
        2
    } else if rate_floor < 4 {
        4
    } else {
        8
    }
}

/// The next speed below a rate, or zero where there is none. A rate is given by
/// the whole number not below it.
pub open spec fn slower(rate_ceil: int) -> int {
    if rate_ceil > 8 {
        8
    } else if rate_ceil > 4 {
        4
    } else if rate_ceil > 2 {
        2
    } else if rate_ceil > 1 {
        1
    } else {
        0
    }
}

/// What a shuttle key does.
pub open spec fn shuttled(key: int, playing: bool, rate_floor: int, rate_ceil: int) -> Shuttle {
    if playing {
        if key > 0 {
            Shuttle::Play(faster(rate_floor) as u32)
        } else if key < 0 {
            if slower(rate_ceil) == 0 {
                Shuttle::Pause
            } else {
                Shuttle::Play(slower(rate_ceil) as u32)
            }
        } else {
            Shuttle::Pause
        }
    } else if key < 0 {
        Shuttle::Step((-1) as i32)
    } else {
        Shuttle::Play(1)
    }
}

/// `key` is negative for J, 0 for K and positive for L; the rate the preview
/// plays at now lies between the whole numbers `rate_floor` and `rate_ceil`. L
/// plays, then climbs the ladder; J climbs down it and pauses at normal speed,
/// or steps a frame back when paused; K pauses, or plays.
pub fn shuttle(key: i32, playing: bool, rate_floor: i64, rate_ceil: i64) -> (r: Shuttle)
    ensures
        r == shuttled(key as int, playing, rate_floor as int, rate_ceil as int),
{
    if !playing {
        return if key < 0 {
            Shuttle::Step(-1)
        } else {
            Shuttle::Play(1)
        };
    }
    if key > 0 {
        let next: u32 = if rate_floor < 1 {
            1
        } else if rate_floor < 2 {
            2
        } else if rate_floor < 4 {
            4
        } else {
            8
        };
        Shuttle::Play(next)
    } else if key < 0 {
        if rate_ceil > 8 {
            Shuttle::Play(8)
        } else if rate_ceil > 4 {
            Shuttle::Play(4)
        } else if rate_ceil > 2 {
            Shuttle::Play(2)
        } else if rate_ceil > 1 {
            Shuttle::Play(1)
        } else {
            Shuttle::Pause
        }
    } else {
        Shuttle::Pause
    }
}

/// The shuttle climbs to the next speed above the rate, or stays at the top,
/// and climbs down to the next below it.
pub proof fn the_shuttle_climbs_its_ladder(rate_floor: int, rate_ceil: int, r: int)
    requires
        is_speed(r),
    ensures
        is_speed(faster(rate_floor)),
        rate_floor < TOP_SPEED ==> faster(rate_floor) > rate_floor,
        r > rate_floor ==> faster(rate_floor) <= r,
        rate_floor >= TOP_SPEED ==> faster(rate_floor) == TOP_SPEED,
        slower(rate_ceil) == 0 || is_speed(slower(rate_ceil)),
        slower(rate_ceil) != 0 ==> slower(rate_ceil) < rate_ceil,
        r < rate_ceil ==> slower(rate_ceil) >= r,
{
}

/// J takes back what L did: from any speed but the top, L then J plays at that
/// speed again.
pub proof fn j_takes_back_l(r: int)
    requires
        is_speed(r),
        r != TOP_SPEED,
    ensures
        shuttled(1, true, r, r) == Shuttle::Play(faster(r) as u32),
        shuttled(-1, true, faster(r), faster(r)) == Shuttle::Play(r as u32),
{
}

// ---------------------------------------------------------------------------
// New clips
// ---------------------------------------------------------------------------

/// Where a media file goes on the timeline.
#[derive(Clone, Copy, PartialEq, Eq, Structural, Debug)]
pub struct NewClip {
    pub track: usize,
    /// The seconds it lasts, where the file itself has no length.
    pub still_secs: Option<u64>,
    pub kind: ClipKind,
}

/// Where a media file goes on the timeline. Lower layers are composited on top,
/// so images (overlays) go on layer 0 and videos on layer 1 (the base,
/// underneath).
pub fn place_media(is_image: bool) -> (r: NewClip)
    ensures
        r == if is_image {
            NewClip { track: 0, still_secs: Some(STILL_SECS), kind: ClipKind::Image }
        } else {
            NewClip { track: 1, still_secs: None, kind: ClipKind::Video }
        },
{
    if is_image {
        NewClip { track: 0, still_secs: Some(STILL_SECS), kind: ClipKind::Image }
    } else {
        NewClip { track: 1, still_secs: None, kind: ClipKind::Video }
    }
}

/// Where an image sequence goes: sequences are footage, not overlays, so onto
/// the base video track, with the length that their URI carries.
pub fn place_sequence() -> (r: NewClip)
    ensures
        r == (NewClip { track: 1, still_secs: None, kind: ClipKind::Sequence }),
{
    NewClip { track: 1, still_secs: None, kind: ClipKind::Sequence }
}

/// A clip as the engine placed it.
pub struct PlacedClip {
    pub id: String,
    pub track: usize,
    pub start: Real,
    pub duration: Real,
}

/// The row of a clip that was just added: at its natural speed, from its
/// start, not selected.
pub open spec fn added_row(
    placed: PlacedClip,
    name: Seq<char>,
    kind: ClipKind,
    thumb: Picture,
    one: Real,
) -> RowModel {
    RowModel {
        id: placed.id@,
        track: placed.track as i32,
        start: placed.start,
        duration: placed.duration,
        inpoint: Real { bits: 0 },
        rate: one,
        name,
        kind,
        selected: false,
        thumb,
        wave: None,
    }
}

/// The row of a clip that was just added. `one` is the rate of natural speed.
pub fn added_clip(
    placed: PlacedClip,
    name: &String,
    kind: ClipKind,
    thumb: Picture,
    one: Real,
) -> (r: TimelineClip)
    ensures
        r@ == added_row(placed, name@, kind, thumb, one),
{
    TimelineClip {
        id: placed.id,
        track: placed.track as i32,
        start: placed.start,
        duration: placed.duration,
        inpoint: Real { bits: 0 },
        rate: one,
        name: name.clone(),
        kind,
        selected: false,
        thumb,
        wave: None,
    }
}

/// What a media file is called in the bin and on the timeline.
pub fn media_name(path: &FilePath) -> (r: String)
    ensures
        r@ == name_of(path@),
{
    path.name_or_empty()
}

// ---------------------------------------------------------------------------
// Laws
// ---------------------------------------------------------------------------

/// Play/Pause pauses what plays and plays what does not. It starts again exactly
/// where the position is within 120 milliseconds of the end, or past it, and both are
/// known.
pub proof fn a_finished_timeline_starts_again(
    playing: bool,
    position: Option<u64>,
    duration: Option<u64>,
    r: PlayPause,
    again: bool,
)
    requires
        call_ensures(play_pause, (playing, position, duration), r),
        call_ensures(starts_again, (position, duration), again),
    ensures
        r is Pause <==> playing,
        !playing ==> r == (PlayPause::Play { restart: again }),
        position is None || duration is None ==> !again,
        position is Some && duration is Some ==> (again <==> duration->0 - position->0
            <= 120_000_000),
{
}

/// The end of the timeline counts only while it plays: with repeat on it starts
/// again, without it stops.
pub proof fn the_end_counts_while_it_plays(at_end: bool, playing: bool, repeat: bool, r: AtEnd)
    requires
        call_ensures(end_of_timeline, (at_end, playing, repeat), r),
    ensures
        r is Restart <==> at_end && playing && repeat,
        r is Stop <==> at_end && playing && !repeat,
        r is PlayOn <==> !at_end || !playing,
{
}

/// Nothing is previewed, undone or redone during an export or before one; a preview is
/// only in the Videos mode, and leaving that pauses it.
pub proof fn an_export_has_the_engine_to_itself(
    active: bool,
    pending: bool,
    down: bool,
    mode: i32,
    preview: bool,
    undo: bool,
    pauses: bool,
)
    requires
        call_ensures(may_preview, (active, pending, mode), preview),
        call_ensures(may_undo, (active, pending, down), undo),
        call_ensures(pauses_in, (mode,), pauses),
    ensures
        active || pending ==> !preview && !undo,
        !active && !pending ==> preview == (mode == 1),
        !active && !pending ==> undo == !down,
        pauses == (mode != 1),
{
}

/// Times are shown in minutes, and the seconds past them in two digits.
pub proof fn times_are_shown_in_minutes(position: u64, duration: u64, r: String)
    requires
        call_ensures(time_line, (position, duration), r),
    ensures
        r@ == decimal(position as nat / 60) + ":"@ + padded(position as nat % 60, 2) + (" / "@ + (
        decimal(duration as nat / 60) + ":"@ + padded(duration as nat % 60, 2))),
{
    assert(r@ =~= decimal(position as nat / 60) + ":"@ + padded(position as nat % 60, 2) + (" / "@
        + (decimal(duration as nat / 60) + ":"@ + padded(duration as nat % 60, 2))));
}

/// A canvas from 16 by 16 to 7680 by 4320 is as asked for; each side that is not is
/// the nearest that is.
pub proof fn a_canvas_is_as_asked_for(w: i32, h: i32, r: (i32, i32))
    requires
        call_ensures(canvas_size, (w, h), r),
    ensures
        16 <= w <= 7680 ==> r.0 == w,
        w < 16 ==> r.0 == 16,
        w > 7680 ==> r.0 == 7680,
        16 <= h <= 4320 ==> r.1 == h,
        h < 16 ==> r.1 == 16,
        h > 4320 ==> r.1 == 4320,
{
}

/// What the shuttle keys do. At rest J steps back a frame, K and L play at normal
/// speed. While it plays K pauses; L goes to the next of the speeds 1, 2, 4 and 8
/// above the rate, or stays at 8; J goes to the next below it, and pauses where there
/// is none.
pub proof fn the_shuttle_keys(key: i32, playing: bool, rate_floor: i64, rate_ceil: i64, r: Shuttle)
    requires
        call_ensures(shuttle, (key, playing, rate_floor, rate_ceil), r),
    ensures
        !playing && key < 0 ==> r == Shuttle::Step(-1i32),
        !playing && key >= 0 ==> r == Shuttle::Play(1),
        playing && key == 0 ==> r is Pause,
        playing && key > 0 && rate_floor < 1 ==> r == Shuttle::Play(1),
        playing && key > 0 && rate_floor == 1 ==> r == Shuttle::Play(2),
        playing && key > 0 && 2 <= rate_floor < 4 ==> r == Shuttle::Play(4),
        playing && key > 0 && rate_floor >= 4 ==> r == Shuttle::Play(8),
        playing && key < 0 && rate_ceil <= 1 ==> r is Pause,
        playing && key < 0 && rate_ceil == 2 ==> r == Shuttle::Play(1),
        playing && key < 0 && 2 < rate_ceil <= 4 ==> r == Shuttle::Play(2),
        playing && key < 0 && 4 < rate_ceil <= 8 ==> r == Shuttle::Play(4),
        playing && key < 0 && rate_ceil > 8 ==> r == Shuttle::Play(8),
{
}

/// An image goes on the upper layer for five seconds, a video on the base layer for
/// as long as it lasts; an image sequence is footage, and goes where videos go.
pub proof fn images_go_over_videos(image: NewClip, video: NewClip, sequence: NewClip)
    requires
        call_ensures(place_media, (true,), image),
        call_ensures(place_media, (false,), video),
        call_ensures(place_sequence, (), sequence),
    ensures
        image.track == 0 && image.still_secs == Some(5u64) && image.kind is Image,
        video.track == 1 && video.still_secs is None && video.kind is Video,
        sequence.track == 1 && sequence.still_secs is None && sequence.kind is Sequence,
{
}

/// The row of a new clip lies where the engine placed the clip, from the start of its
/// source and at natural speed, not selected and with no sound drawn yet.
pub proof fn a_new_clip_lies_where_it_was_placed(
    placed: PlacedClip,
    name: &String,
    kind: ClipKind,
    thumb: Picture,
    one: Real,
    r: TimelineClip,
)
    requires
        call_ensures(added_clip, (placed, name, kind, thumb, one), r),
    ensures
        r.id@ == placed.id@ && r.name@ == name@ && r.kind == kind && r.thumb == thumb,
        placed.track <= i32::MAX ==> r.track == placed.track,
        r.start == placed.start && r.duration == placed.duration,
        r.inpoint.bits == 0 && r.rate == one,
        !r.selected && r.wave is None,
{
    assert(r@.id == r.id@ && r@.name == r.name@ && r@.kind == r.kind && r@.thumb == r.thumb);
    assert(r@.track == r.track && r@.start == r.start && r@.duration == r.duration);
    assert(r@.inpoint == r.inpoint && r@.rate == r.rate && r@.selected == r.selected);
    assert(r@.wave == r.wave);
}

/// A media file is called by its own name.
pub proof fn a_media_file_is_called_by_its_name(path: &FilePath, name: String, r: String)
    requires
        call_ensures(FilePath::name_or_empty, (path,), name),
        call_ensures(media_name, (path,), r),
    ensures
        r@ == name@,
{
}

} // verus!
