use kuvatin::clip::{ClipKind, Picture, Real, TimelineClip, Wave};
use kuvatin::paths::{FilePath, Part};
use kuvatin::playback::{added_clip, media_name, place_media, place_sequence, PlacedClip, STILL_SECS};
use kuvatin::timeline::{
    add_track, drop_move, drop_target_track, grow_tracks, lengthened, moved, nearest_edge, on_track,
    remove_timeline_clip, resync_tracks, select, selection_after_removal, set_wave, thumb_arrived,
    Geometry, MAX_TRACKS,
};

fn number(x: f64) -> Real {
    Real { bits: x.to_bits() }
}

fn row(id: &str) -> TimelineClip {
    TimelineClip {
        id: id.into(),
        track: 0,
        start: number(1.0),
        duration: number(2.0),
        inpoint: number(0.0),
        rate: number(1.0),
        name: format!("{id}.mp4"),
        kind: ClipKind::Video,
        selected: false,
        thumb: Picture { id: 0, width: 0 },
        wave: None,
    }
}

// ---- where a dropped clip lands -----------------------------------------

#[test]
fn dragging_above_the_top_track_stops_at_the_top() {
    assert_eq!(drop_target_track(1, -5, 3, 3), 0);
}

/// One past the last row is a new track, and so is anything further: a
/// long drag makes one track, not a gap.
#[test]
fn dragging_below_the_last_track_makes_one_new_track() {
    assert_eq!(drop_target_track(1, 1, 2, 2), 2);
    assert_eq!(drop_target_track(1, 9, 2, 2), 2);
}

/// A track added with "+ New track" has a row but no engine layer until a
/// clip lands on it. It is still somewhere a clip can be dropped.
#[test]
fn a_row_the_engine_has_no_track_for_yet_is_still_a_target() {
    assert_eq!(drop_target_track(0, 3, 2, 4), 3);
    assert_eq!(drop_target_track(0, 9, 2, 4), 4);
}

#[test]
fn a_drop_on_its_own_track_moves_nothing() {
    assert_eq!(drop_move(0, -1, 2, 2), None);
    assert_eq!(drop_move(1, 0, 2, 2), None);
    assert_eq!(drop_move(0, 1, 2, 2), Some(1));
}

// ---- selection after a clip is removed ----------------------------------

#[test]
fn removing_the_selected_clip_clears_the_selection() {
    assert_eq!(selection_after_removal(2, 2), -1);
}

/// The rows after the removed one shift down, so the index follows them.
#[test]
fn removing_an_earlier_clip_keeps_the_same_clip_selected() {
    assert_eq!(selection_after_removal(3, 1), 2);
}

#[test]
fn removing_a_later_clip_changes_nothing() {
    assert_eq!(selection_after_removal(1, 3), 1);
}

#[test]
fn with_nothing_selected_nothing_becomes_selected() {
    assert_eq!(selection_after_removal(-1, 0), -1);
}

#[test]
fn a_removed_row_names_its_clip() {
    let mut rows = vec![row("a"), row("b"), row("c")];
    let gone = remove_timeline_clip(&mut rows, 2, 1).unwrap();
    assert_eq!(gone.id, "b");
    assert_eq!(gone.select, 1);
    assert_eq!(rows.len(), 2);
    assert_eq!(rows[1].id, "c");
    assert!(remove_timeline_clip(&mut rows, 0, 2).is_none());
    assert!(remove_timeline_clip(&mut rows, 0, -1).is_none());
    assert_eq!(rows.len(), 2);
}

#[test]
fn one_row_is_selected_at_most() {
    let mut rows = vec![row("a"), row("b")];
    rows[0].selected = true;
    let shown = select(&mut rows, 1);
    assert_eq!(shown.id, "b");
    assert_eq!(shown.name, "b.mp4");
    assert!(!rows[0].selected && rows[1].selected);
    let none = select(&mut rows, -1);
    assert_eq!(none.id, "");
    assert!(!rows[0].selected && !rows[1].selected);
}

#[test]
fn a_moved_clip_shows_where_the_engine_put_it() {
    let mut rows = vec![row("a"), row("b")];
    moved(
        &mut rows,
        1,
        Some(Geometry {
            start: number(5.0),
            inpoint: number(0.5),
            duration: number(1.5),
        }),
    );
    assert_eq!((rows[1].start, rows[1].inpoint), (number(5.0), number(0.5)));
    assert_eq!(rows[1].duration, number(1.5));
    assert_eq!(rows[0].start, number(1.0));
    moved(&mut rows, 0, None);
    assert_eq!(rows[0].start, number(1.0));
}

#[test]
fn rows_take_their_tracks_from_the_engine() {
    let mut rows = vec![row("a"), row("b")];
    on_track(&mut rows, 0, 3);
    assert_eq!((rows[0].track, rows[1].track), (3, 0));
    resync_tracks(&mut rows, &vec![None, Some(2)]);
    assert_eq!((rows[0].track, rows[1].track), (3, 2));
}

#[test]
fn tracks_are_labelled_and_limited() {
    let mut tracks: Vec<String> = Vec::new();
    grow_tracks(&mut tracks, 2);
    assert_eq!(tracks, ["Track 1", "Track 2"]);
    grow_tracks(&mut tracks, 1);
    assert_eq!(tracks.len(), 2, "never shrinks");
    add_track(&mut tracks);
    assert_eq!(tracks[2], "Track 3");
    grow_tracks(&mut tracks, MAX_TRACKS);
    add_track(&mut tracks);
    assert_eq!(tracks.len(), MAX_TRACKS);
}

#[test]
fn stills_go_above_the_footage() {
    let image = place_media(true);
    assert_eq!((image.track, image.still_secs), (0, Some(STILL_SECS)));
    assert_eq!(image.kind, ClipKind::Image);
    let video = place_media(false);
    assert_eq!((video.track, video.still_secs), (1, None));
    assert_eq!(place_sequence().kind, ClipKind::Sequence);
    assert_eq!(place_sequence().track, 1);
}

#[test]
fn an_added_clip_starts_at_its_natural_speed() {
    let row = added_clip(
        PlacedClip {
            id: "x".into(),
            track: 1,
            start: number(3.0),
            duration: number(4.0),
        },
        &"intro.mp4".to_string(),
        ClipKind::Video,
        Picture { id: 9, width: 2 },
        number(1.0),
    );
    assert_eq!((row.id.as_str(), row.name.as_str()), ("x", "intro.mp4"));
    assert_eq!((row.track, row.start, row.duration), (1, number(3.0), number(4.0)));
    assert_eq!((row.inpoint, row.rate), (number(0.0), number(1.0)));
    assert!(!row.selected);
}

#[test]
fn media_is_called_by_its_file_name() {
    let path = FilePath {
        parts: vec![
            Part::RootDir,
            Part::Name("intro.mp4".chars().map(|c| c as u32).collect()),
        ],
    };
    assert_eq!(media_name(&path), "intro.mp4");
    let up = FilePath {
        parts: vec![Part::ParentDir],
    };
    assert_eq!(media_name(&up), "");
}

/// Two edges in range: the one needing the smaller nudge wins, and of two that
/// need the same the earlier.
#[test]
fn the_nearest_edge_below_the_limit_is_taken() {
    let bits = |xs: &[f32]| xs.iter().map(|x| x.to_bits()).collect::<Vec<u32>>();
    let limit = 0.08f32.to_bits();
    assert_eq!(nearest_edge(&bits(&[0.05, 0.03, 0.07]), limit), Some(1));
    assert_eq!(nearest_edge(&bits(&[0.5, 0.03, 0.03]), limit), Some(1));
    assert_eq!(nearest_edge(&bits(&[0.09, 1.0]), limit), None);
    assert_eq!(nearest_edge(&Vec::new(), limit), None);
}

/// The Duration field writes how long the clip lasts, and nothing else.
#[test]
fn a_new_length_leaves_the_place_alone() {
    let mut rows = vec![row("a"), row("b")];
    lengthened(&mut rows, 1, number(9.0));
    let mut longer = row("b");
    longer.duration = number(9.0);
    assert_eq!(rows, vec![row("a"), longer]);
}

/// What is decoded late goes to every row of its clip, and to no other.
#[test]
fn what_is_decoded_goes_to_the_rows_of_its_clip() {
    let mut rows = vec![row("a"), row("b"), row("a")];
    let thumb = Picture { id: 3, width: 160 };
    thumb_arrived(&mut rows, &"a".to_string(), thumb);
    let mut shown = row("a");
    shown.thumb = thumb;
    assert_eq!(rows[0], shown);
    assert_eq!(rows[1], row("b"));
    assert_eq!(rows[2], shown);
    let wave = Wave {
        picture: Picture { id: 4, width: 512 },
        secs: number(2.5),
    };
    set_wave(&mut rows, &"b".to_string(), wave);
    assert_eq!(rows[1].wave, Some(wave));
    assert_eq!((rows[0].wave, rows[2].wave), (None, None));
    let before = rows.len();
    thumb_arrived(&mut rows, &"gone".to_string(), thumb);
    set_wave(&mut rows, &"gone".to_string(), wave);
    assert_eq!(rows.len(), before);
    assert_eq!(rows[1].thumb, Picture { id: 0, width: 0 });
}
