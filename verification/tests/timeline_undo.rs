use kuvatin::assoc::Assoc;
use kuvatin::clip::{ClipKind, ClipRecord, LayoutRecord, Picture, Real, TimelineClip};
use kuvatin::history::{History, Step};
use kuvatin::recorder::record_captures;
use kuvatin::timeline_apply::{begin, missing_sources, settle, Run, Start, Work};
use kuvatin::timeline_rows::{
    applied_from_engine, rows_after, selection_after, set_track_rows, Applied,
};
use kuvatin::timeline_undo::{
    diff, plan, target_tracks, Capture, ClipChange, Direction, Plan, StepKind, TimelineStep,
};

fn number(x: f64) -> Real {
    Real { bits: x.to_bits() }
}

fn rec(track: usize, start: f64, duration: f64) -> ClipRecord {
    ClipRecord {
        uri: "file:///C:/media/intro.mp4".into(),
        name: "intro.mp4".into(),
        kind: ClipKind::Video,
        track,
        start: number(start),
        inpoint: number(0.0),
        duration: number(duration),
        rate: number(1.0),
        layout: LayoutRecord {
            posx: 0,
            posy: 0,
            scale: number(1.0),
            alpha: number(1.0),
            volume: number(1.0),
        },
        sequence: None,
    }
}

fn clips(clips: &[(&str, ClipRecord)]) -> Vec<(String, ClipRecord)> {
    clips
        .iter()
        .map(|(id, r)| (id.to_string(), r.clone()))
        .collect()
}

fn cap(list: &[(&str, ClipRecord)], tracks: usize) -> Capture {
    Capture::of(&clips(list), tracks)
}

fn row(id: &str, r: &ClipRecord) -> TimelineClip {
    TimelineClip {
        id: id.into(),
        track: r.track as i32,
        start: r.start,
        duration: r.duration,
        inpoint: r.inpoint,
        name: r.name.clone(),
        kind: ClipKind::Video,
        selected: false,
        thumb: Picture { id: 0, width: 0 },
        rate: r.rate,
        wave: None,
    }
}

fn picture(width: u32) -> Picture {
    Picture { id: 7, width }
}

fn by_id(rows: Vec<TimelineClip>) -> Assoc<TimelineClip> {
    let mut r = Assoc::new();
    for row in rows {
        r.insert(row.id.clone(), row);
    }
    r
}

fn step(kind: StepKind, subject: &str, before: &Capture, after: &Capture) -> TimelineStep {
    TimelineStep::new(
        kind,
        Some(&subject.to_string()),
        &"intro.mp4".to_string(),
        before,
        after,
        &Assoc::new(),
    )
}

fn keeps(s: &TimelineStep, id: &str) -> bool {
    s.kept_rows.contains_key(&id.to_string())
}

fn ids(rows: &[TimelineClip]) -> Vec<&str> {
    rows.iter().map(|r| r.id.as_str()).collect()
}

#[test]
fn the_comparison_finds_changed_added_and_removed_clips() {
    let before = cap(&[("a", rec(0, 0.0, 2.0)), ("b", rec(1, 0.0, 2.0))], 2);
    let after = cap(&[("a", rec(0, 1.0, 2.0)), ("c", rec(1, 4.0, 1.0))], 2);
    let changes = diff(&before, &after);
    assert_eq!(
        changes,
        vec![
            ClipChange {
                id: "a".into(),
                before: Some(rec(0, 0.0, 2.0)),
                after: Some(rec(0, 1.0, 2.0)),
            },
            ClipChange {
                id: "b".into(),
                before: Some(rec(1, 0.0, 2.0)),
                after: None,
            },
            ClipChange {
                id: "c".into(),
                before: None,
                after: Some(rec(1, 4.0, 1.0)),
            },
        ]
    );
}

/// A drop that lands where the clip already was is not a step.
#[test]
fn an_edit_that_changed_nothing_makes_an_empty_step() {
    let same = cap(&[("a", rec(0, 0.0, 2.0))], 2);
    assert!(step(StepKind::Move, "a", &same, &same).is_empty());
    let one_more_track = cap(&[("a", rec(0, 0.0, 2.0))], 3);
    assert!(!TimelineStep::new(
        StepKind::AddTrack,
        None,
        &String::new(),
        &same,
        &one_more_track,
        &Assoc::new()
    )
    .is_empty());
}

#[test]
fn a_step_keeps_the_rows_of_clips_that_come_and_go() {
    let before = cap(&[("a", rec(0, 0.0, 2.0)), ("b", rec(1, 0.0, 2.0))], 2);
    let after = cap(&[("a", rec(0, 1.0, 2.0)), ("c", rec(1, 4.0, 1.0))], 2);
    let rows = by_id(
        ["a", "b", "c"]
            .into_iter()
            .map(|id| row(id, &rec(0, 0.0, 2.0)))
            .collect(),
    );
    let s = TimelineStep::new(
        StepKind::Delete,
        Some(&"b".to_string()),
        &"intro.mp4".to_string(),
        &before,
        &after,
        &rows,
    );
    assert!(keeps(&s, "b"), "b goes, so its row is kept for an undo");
    assert!(keeps(&s, "c"), "c comes, so its row is kept for a redo");
    assert!(!keeps(&s, "a"), "a only moved");
}

#[test]
fn gestures_on_the_same_clip_merge_and_nothing_else_does() {
    let (c0, c1) = (
        cap(&[("a", rec(0, 0.0, 2.0))], 2),
        cap(&[("a", rec(0, 1.0, 2.0))], 2),
    );
    for kind in [
        StepKind::Move,
        StepKind::Trim,
        StepKind::Transform,
        StepKind::Duration,
    ] {
        let first = step(kind, "a", &c0, &c1);
        assert!(first.merges_with(&step(kind, "a", &c1, &c0)), "{kind:?}");
        assert!(
            !first.merges_with(&step(kind, "b", &c1, &c0)),
            "{kind:?} of another clip"
        );
    }
    for kind in [
        StepKind::Add,
        StepKind::Delete,
        StepKind::ReorderTracks,
        StepKind::AddTrack,
        StepKind::Split,
    ] {
        assert!(
            !step(kind, "a", &c0, &c1).merges_with(&step(kind, "a", &c1, &c0)),
            "{kind:?} never merges"
        );
    }
    assert!(
        !step(StepKind::Move, "a", &c0, &c1).merges_with(&step(StepKind::Trim, "a", &c1, &c0)),
        "another kind"
    );
}

#[test]
fn absorbing_keeps_the_first_before_and_the_last_after() {
    let c0 = cap(&[("a", rec(0, 0.0, 2.0)), ("b", rec(1, 0.0, 2.0))], 2);
    let c1 = cap(&[("a", rec(0, 1.0, 2.0)), ("b", rec(1, 0.0, 2.0))], 2);
    let c2 = cap(&[("a", rec(0, 3.0, 2.0)), ("b", rec(1, 5.0, 2.0))], 3);
    let mut first = step(StepKind::Move, "a", &c0, &c1);
    first.absorb(step(StepKind::Move, "a", &c1, &c2));
    assert_eq!(
        first.changes,
        diff(&c0, &c2),
        "b, which only the newer step touched, is in too"
    );
    assert_eq!((first.tracks_before, first.tracks_after), (2, 3));
}

#[test]
fn a_drag_back_to_where_it_started_absorbs_into_nothing() {
    let c0 = cap(&[("a", rec(0, 0.0, 2.0))], 2);
    let c1 = cap(&[("a", rec(0, 1.0, 2.0))], 2);
    let mut first = step(StepKind::Move, "a", &c0, &c1);
    first.absorb(step(StepKind::Move, "a", &c1, &c0));
    assert!(first.is_empty());
}

#[test]
fn undo_plans_removals_writes_and_restores() {
    let before = cap(&[("a", rec(0, 0.0, 2.0)), ("b", rec(1, 0.0, 2.0))], 2);
    let after = cap(&[("a", rec(0, 1.0, 2.0)), ("c", rec(1, 4.0, 1.0))], 2);
    let s = step(StepKind::Move, "a", &before, &after);
    assert_eq!(
        plan(&s, Direction::Undo),
        Plan {
            removes: vec!["c".into()],
            writes: vec![("a".into(), rec(0, 0.0, 2.0))],
            restores: vec![("b".into(), rec(1, 0.0, 2.0))],
        }
    );
    assert_eq!(target_tracks(&s, Direction::Undo), 2);
}

#[test]
fn redo_is_the_same_plan_the_other_way() {
    let before = cap(&[("b", rec(1, 0.0, 2.0))], 2);
    let after = cap(&[("c", rec(1, 4.0, 1.0))], 3);
    let s = step(StepKind::Delete, "b", &before, &after);
    assert_eq!(
        plan(&s, Direction::Redo),
        Plan {
            removes: vec!["b".into()],
            writes: vec![],
            restores: vec![("c".into(), rec(1, 4.0, 1.0))],
        }
    );
    assert_eq!(target_tracks(&s, Direction::Redo), 3);
}

/// Undo removes the right half and writes the left one back whole; redo
/// writes the left half again and brings the right one back.
#[test]
fn a_split_undoes_to_one_clip_and_redoes_to_two() {
    let whole = rec(0, 0.0, 4.0);
    let left = rec(0, 0.0, 1.5);
    let mut right = rec(0, 1.5, 2.5);
    right.inpoint = number(1.5);
    let before = cap(&[("a", whole.clone())], 2);
    let after = cap(&[("a", left.clone()), ("b", right.clone())], 2);
    let s = step(StepKind::Split, "a", &before, &after);
    assert_eq!(
        plan(&s, Direction::Undo),
        Plan {
            removes: vec!["b".into()],
            writes: vec![("a".into(), whole)],
            restores: vec![],
        }
    );
    assert_eq!(
        plan(&s, Direction::Redo),
        Plan {
            removes: vec![],
            writes: vec![("a".into(), left)],
            restores: vec![("b".into(), right)],
        }
    );
}

#[test]
fn renaming_a_clip_rewrites_every_mention_of_it() {
    let before = cap(&[("old", rec(0, 0.0, 2.0)), ("other", rec(1, 0.0, 2.0))], 2);
    let after = cap(&[("other", rec(1, 1.0, 2.0))], 2);
    let rows = by_id(vec![row("old", &rec(0, 0.0, 2.0))]);
    let mut s = TimelineStep::new(
        StepKind::Delete,
        Some(&"old".to_string()),
        &"intro.mp4".to_string(),
        &before,
        &after,
        &rows,
    );
    s.rename_clip(&"old".to_string(), &"new".to_string());
    assert_eq!(s.subject.as_deref(), Some("new"));
    let ids: Vec<&str> = s.changes.iter().map(|c| c.id.as_str()).collect();
    assert_eq!(ids, vec!["new", "other"], "only the renamed clip's change");
    assert!(keeps(&s, "new") && !keeps(&s, "old"));
}

#[test]
fn rows_follow_what_was_applied() {
    let mut shown = row("a", &rec(0, 0.0, 2.0));
    shown.selected = true;
    shown.name = "renamed in the bin".into();
    let rows = vec![shown, row("b", &rec(1, 0.0, 2.0))];
    let mut kept_c = row("c", &rec(0, 0.0, 1.0));
    kept_c.name = "frame_%04d.png".into();
    kept_c.kind = ClipKind::Sequence;
    kept_c.thumb = picture(2);
    kept_c.selected = true;
    let kept = by_id(vec![kept_c]);
    let mut moved = rec(1, 3.0, 1.5);
    moved.inpoint = number(0.5);
    let mut still = rec(2, 6.0, 1.0);
    still.uri = "file:///C:/media/still.png".into();
    still.name = "still.png".into();
    still.kind = ClipKind::Image;
    let applied = vec![
        Applied {
            id: "b".into(),
            now_id: "b".into(),
            record: None,
        },
        Applied {
            id: "c".into(),
            now_id: "c2".into(),
            record: Some(rec(1, 4.0, 1.0)),
        },
        Applied {
            id: "d".into(),
            now_id: "d".into(),
            record: Some(still),
        },
        Applied {
            id: "a".into(),
            now_id: "a".into(),
            record: Some(moved),
        },
    ];
    let out = rows_after(&rows, &applied, &kept);
    assert_eq!(
        ids(&out),
        vec!["a", "c2", "d"],
        "b gone, c back under the ID it has now, d back"
    );
    let a = &out[0];
    assert_eq!(
        (a.track, a.start, a.duration, a.inpoint),
        (1, number(3.0), number(1.5), number(0.5)),
        "an updated row takes every part of the new place"
    );
    assert!(a.selected, "and keeps its selection");
    assert_eq!(a.name.as_str(), "renamed in the bin", "and its name");
    let c = &out[1];
    assert_eq!((c.track, c.start, c.duration), (1, number(4.0), number(1.0)));
    assert_eq!(
        c.name.as_str(),
        "frame_%04d.png",
        "the kept row's name, not the record's"
    );
    assert_eq!(c.kind, ClipKind::Sequence);
    assert_eq!(c.thumb.width, 2, "and its picture");
    assert!(!c.selected, "the selection is decided afterwards");
    let d = &out[2];
    assert_eq!(
        d.name.as_str(),
        "still.png",
        "no kept row: built from the record"
    );
    assert_eq!(d.kind, ClipKind::Image);
    assert_eq!((d.track, d.start, d.duration), (2, number(6.0), number(1.0)));
}

#[test]
fn the_steps_own_clip_is_selected_first() {
    let rows = vec![row("a", &rec(0, 0.0, 2.0)), row("b", &rec(1, 0.0, 2.0))];
    let (a, b, gone) = ("a".to_string(), "b".to_string(), "gone".to_string());
    assert_eq!(selection_after(&rows, Some(&b), Some(&a)), 1);
    assert_eq!(
        selection_after(&rows, Some(&gone), Some(&a)),
        0,
        "else the old selection"
    );
    assert_eq!(
        selection_after(&rows, None, Some(&gone)),
        -1,
        "else nothing"
    );
}

#[test]
fn each_kind_describes_itself() {
    let c = cap(&[], 2);
    let d = |kind| step(kind, "a", &c, &c).describe();
    assert_eq!(d(StepKind::Move), "moving intro.mp4");
    assert_eq!(d(StepKind::Trim), "trimming intro.mp4");
    assert_eq!(d(StepKind::Transform), "transforming intro.mp4");
    assert_eq!(d(StepKind::Duration), "changing the duration of intro.mp4");
    assert_eq!(d(StepKind::Add), "adding intro.mp4");
    assert_eq!(d(StepKind::Delete), "deleting intro.mp4");
    assert_eq!(d(StepKind::ReorderTracks), "reordering tracks");
    assert_eq!(d(StepKind::AddTrack), "adding a track");
    assert_eq!(d(StepKind::Split), "splitting intro.mp4");
}

/// A delete is recorded while the row is still there, so the step knows
/// the clip's name and keeps its row for the undo.
#[test]
fn the_recorder_names_the_clip_and_keeps_its_row() {
    let mut shown = row("a", &rec(0, 0.0, 2.0));
    shown.name = "intro (bin name).mp4".into();
    let rows = vec![shown];
    let mut history = History::new();
    let before = cap(&[("a", rec(0, 0.0, 2.0))], 2);
    let after = cap(&[], 2);
    let a = "a".to_string();
    record_captures(&mut history, &rows, StepKind::Delete, Some(&a), &before, &after, 0);
    let s = history.peek_undo().expect("a step");
    assert_eq!(s.describe(), "deleting intro (bin name).mp4");
    assert_eq!(
        s.kept_rows.get(&a).map(|r| r.name.as_str()),
        Some("intro (bin name).mp4")
    );
}

#[test]
fn a_new_track_is_recorded_without_a_project() {
    let mut history: History<TimelineStep> = History::new();
    let mut tracks = vec!["Track 1".to_string(), "Track 2".to_string()];
    let before = Capture::of(&Vec::new(), tracks.len());
    tracks.push("Track 3".into());
    let after = Capture::of(&Vec::new(), tracks.len());
    record_captures(
        &mut history,
        &Vec::new(),
        StepKind::AddTrack,
        None,
        &before,
        &after,
        0,
    );
    let s = history.peek_undo().expect("a step");
    assert_eq!((s.tracks_before, s.tracks_after), (2, 3));
}

#[test]
fn an_edit_that_changed_nothing_records_nothing() {
    let mut history = History::new();
    let rows = vec![row("a", &rec(0, 0.0, 2.0))];
    let same = cap(&[("a", rec(0, 0.0, 2.0))], 2);
    let a = "a".to_string();
    record_captures(&mut history, &rows, StepKind::Move, Some(&a), &same, &same, 0);
    assert!(!history.can_undo());
}

/// An add is recorded after its row is pushed, so the step keeps the row a
/// redo brings back.
#[test]
fn the_recorder_keeps_the_row_of_an_added_clip() {
    let mut history = History::new();
    let before = cap(&[], 2);
    let rows = vec![row("a", &rec(0, 0.0, 2.0))];
    let after = cap(&[("a", rec(0, 0.0, 2.0))], 2);
    let a = "a".to_string();
    record_captures(&mut history, &rows, StepKind::Add, Some(&a), &before, &after, 0);
    let s = history.peek_undo().expect("a step");
    assert_eq!(s.describe(), "adding intro.mp4");
    assert!(keeps(s, "a"), "the row a redo brings back");
}

/// After a write failed partway, the rows are rebuilt from what the engine
/// actually holds, so the screen never disagrees with the edit.
#[test]
fn rows_can_be_resynced_from_the_engine() {
    let rows = vec![row("a", &rec(0, 0.0, 2.0)), row("gone", &rec(1, 0.0, 2.0))];
    let engine = clips(&[("a", rec(0, 5.0, 2.0)), ("new", rec(1, 1.0, 1.0))]);
    let applied = applied_from_engine(&rows, &engine);
    let out = rows_after(&rows, &applied, &Assoc::new());
    assert_eq!(ids(&out), vec!["a", "new"]);
    assert_eq!(out[0].start, number(5.0));
}

#[test]
fn track_rows_grow_and_shrink_to_a_count() {
    let mut tracks = vec!["Track 1".to_string(), "Track 2".to_string()];
    set_track_rows(&mut tracks, 4);
    assert_eq!(tracks.len(), 4);
    assert_eq!(tracks[3].as_str(), "Track 4");
    set_track_rows(&mut tracks, 1);
    assert_eq!(tracks.len(), 1);
}

#[test]
fn a_row_takes_its_speed_from_the_record() {
    let mut shown = row("a", &rec(0, 0.0, 4.0));
    shown.thumb = picture(3);
    let mut fast = rec(0, 0.0, 2.0);
    fast.rate = number(2.0);
    let applied = vec![Applied {
        id: "a".into(),
        now_id: "a".into(),
        record: Some(fast),
    }];
    let out = rows_after(&vec![shown], &applied, &Assoc::new());
    assert_eq!(out[0].rate, number(2.0), "undo puts the speed back on the row");
    assert_eq!(out[0].duration, number(2.0));
    assert_eq!(out[0].thumb.width, 3, "and leaves the picture alone");
}

/// A rate-only change is one changed clip, and undoes as one write.
#[test]
fn a_speed_change_is_one_changed_clip() {
    let normal = rec(0, 0.0, 4.0);
    let mut other = normal.clone();
    other.rate = number(2.0);
    let c0 = cap(&[("a", normal.clone())], 2);
    let c1 = cap(&[("a", other)], 2);
    assert_eq!(diff(&c0, &c1).len(), 1);
    assert_eq!(
        plan(&step(StepKind::Move, "a", &c0, &c1), Direction::Undo),
        Plan {
            removes: vec![],
            writes: vec![("a".into(), normal)],
            restores: vec![],
        }
    );
}

// ---- carrying a step out ------------------------------------------------

fn deleted() -> (History<TimelineStep>, Vec<TimelineClip>) {
    let mut history = History::new();
    let mut rows = vec![row("a", &rec(0, 0.0, 2.0)), row("b", &rec(1, 0.0, 2.0))];
    let before = cap(&[("a", rec(0, 0.0, 2.0)), ("b", rec(1, 0.0, 2.0))], 2);
    let after = cap(&[("a", rec(0, 0.0, 2.0))], 2);
    let b = "b".to_string();
    record_captures(&mut history, &rows, StepKind::Delete, Some(&b), &before, &after, 0);
    rows.pop();
    (history, rows)
}

fn work_of(history: &History<TimelineStep>, dir: Direction) -> Work {
    match begin(history, dir, true) {
        Start::Engine(work) => work,
        _ => panic!("the engine has work to do"),
    }
}

/// A deleted clip comes back under another ID; the next redo removes it by
/// that one.
#[test]
fn an_undone_delete_comes_back_under_its_new_id() {
    let (mut history, rows) = deleted();
    let work = work_of(&history, Direction::Undo);
    assert_eq!(work.plan.restores.len(), 1);
    assert!(missing_sources(&work, &vec![true]).is_none());
    let mut run = Run::written(&work.plan, &Vec::new());
    assert_eq!(run.next_restore(&work.plan), Some(0));
    run.restored(&work.plan, &"b2".to_string());
    assert_eq!(run.next_restore(&work.plan), None);
    let shown = run.finish(&work, &rows, 0, &Vec::new(), 2);
    assert_eq!(ids(&shown.rows), vec!["a", "b2"]);
    assert_eq!(shown.select, 1, "the clip the step is about");
    assert_eq!(shown.track_rows, 2);
    assert!(shown.failed.is_none());
    settle(&mut history, Direction::Undo, false, &shown.renames, 0);
    assert!(!history.can_undo() && history.can_redo());
    let redo = work_of(&history, Direction::Redo);
    assert_eq!(redo.plan.removes, vec!["b2".to_string()]);
}

#[test]
fn a_missing_source_stops_the_whole_step() {
    let (history, _) = deleted();
    let work = work_of(&history, Direction::Undo);
    let d = missing_sources(&work, &vec![false]).unwrap();
    assert_eq!(d.title, "Could not undo");
    assert_eq!(
        d.detail,
        "This file is no longer where it was, so nothing was changed:\nintro.mp4"
    );
}

#[test]
fn a_refused_restore_leaves_the_step_to_be_tried_again() {
    let (mut history, rows) = deleted();
    let work = work_of(&history, Direction::Undo);
    let mut run = Run::written(&work.plan, &Vec::new());
    run.refused(&work.plan, "no such file");
    let engine = clips(&[("a", rec(0, 5.0, 2.0))]);
    let shown = run.finish(&work, &rows, -1, &engine, 3);
    assert_eq!(ids(&shown.rows), vec!["a"]);
    assert_eq!(shown.rows[0].start, number(5.0), "what the engine holds");
    assert_eq!(shown.track_rows, 3);
    let d = shown.failed.unwrap();
    assert_eq!(d.title, "Could not undo");
    assert!(d.detail.contains("intro.mp4: no such file"));
    settle(&mut history, Direction::Undo, true, &shown.renames, 0);
    assert!(history.can_undo());
}

#[test]
fn track_rows_need_no_engine() {
    let mut history: History<TimelineStep> = History::new();
    assert!(matches!(
        begin(&history, Direction::Undo, true),
        Start::Nothing
    ));
    let before = Capture::of(&Vec::new(), 2);
    let after = Capture::of(&Vec::new(), 3);
    record_captures(
        &mut history,
        &Vec::new(),
        StepKind::AddTrack,
        None,
        &before,
        &after,
        0,
    );
    assert!(matches!(
        begin(&history, Direction::Undo, false),
        Start::TracksOnly(2)
    ));
    let (moved, _) = deleted();
    assert!(matches!(
        begin(&moved, Direction::Undo, false),
        Start::Nothing
    ));
}

/// Numbers compare as numbers do: what is no number differs from itself, the two
/// zeros are one, and so are equal infinities.
#[test]
fn records_compare_number_by_number() {
    let one = |r: ClipRecord| cap(&[("a", r)], 2);
    let differs = |x: ClipRecord, y: ClipRecord| diff(&one(x), &one(y)).len() == 1;
    assert!(!differs(rec(0, 0.0, 1.0), rec(0, -0.0, 1.0)));
    assert!(differs(rec(0, f64::NAN, 1.0), rec(0, f64::NAN, 1.0)));
    assert!(differs(rec(0, -f64::NAN, 1.0), rec(0, 1.0, 1.0)));
    assert!(differs(rec(0, 1.0, 1.0), rec(0, -1.0, 1.0)));
    assert!(!differs(rec(0, f64::INFINITY, 1.0), rec(0, f64::INFINITY, 1.0)));
    assert!(differs(rec(0, f64::INFINITY, 1.0), rec(0, f64::NEG_INFINITY, 1.0)));
    let mut loud = rec(0, 0.0, 1.0);
    loud.layout.volume = number(0.5);
    assert!(differs(loud.clone(), rec(0, 0.0, 1.0)));
    assert!(!differs(loud.clone(), loud));
    for x in [0.0, -0.0, 1.5, f64::MIN_POSITIVE, f64::MAX, f64::INFINITY, f64::NAN] {
        for y in [0.0, -0.0, 1.5, -1.5, f64::INFINITY, f64::NEG_INFINITY, f64::NAN] {
            assert_eq!(number(x) == number(y), x == y, "{x} {y}");
        }
    }
}
