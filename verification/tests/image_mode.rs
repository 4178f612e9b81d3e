use kuvatin::file_rows::{FileRow, RowEdit};
use kuvatin::image_history::ThumbData;
use kuvatin::image_mode::{clamp_crop, dims, ImageState};
use kuvatin::paths::{FilePath, Part};

fn p(name: &str) -> FilePath {
    FilePath {
        parts: vec![Part::Name(name.chars().map(|c| c as u32).collect())],
    }
}

fn paths(names: &[&str]) -> Vec<FilePath> {
    names.iter().map(|n| p(n)).collect()
}

fn state(names: &[&str]) -> ImageState {
    ImageState::new(&paths(names))
}

fn shown(st: &ImageState) -> Vec<&str> {
    st.rows.iter().map(|r| r.name.as_str()).collect()
}

fn thumb() -> ThumbData {
    ThumbData {
        rgba: vec![1, 2, 3, 255],
        w: 1,
        h: 1,
        dims: "640×480".into(),
    }
}

/// The rows of a window that took these edits.
fn apply(mut rows: Vec<FileRow>, edits: &[RowEdit]) -> Vec<FileRow> {
    for e in edits {
        match e {
            RowEdit::Remove(i) => {
                rows.remove(*i);
            }
            RowEdit::Insert(i, row) => rows.insert(*i, row.clone()),
            RowEdit::Replace(i, row) => rows[*i] = row.clone(),
        }
    }
    rows
}

fn copy(rows: &[FileRow]) -> Vec<FileRow> {
    rows.iter().map(|r| r.clone()).collect()
}

#[test]
fn the_selection_follows_its_file_across_an_add() {
    let mut st = state(&["b.png", "d.png"]);
    st.select_file(1);
    let before = copy(&st.rows);
    let added = st.add_paths(&paths(&["c.png", "a.png", "b.png"]));
    assert_eq!(shown(&st), ["a.png", "b.png", "c.png", "d.png"]);
    assert_eq!(st.selected, 3);
    assert_eq!(apply(before, &added.edits), st.rows);
    assert_eq!(
        added.missing,
        paths(&["a.png", "b.png", "c.png", "d.png"])
    );
}

#[test]
fn rows_that_stay_keep_what_they_show() {
    let mut st = state(&["b.png"]);
    st.thumb_ready(&p("b.png"), &thumb());
    st.start_run();
    st.file_done(&p("b.png"), true, &"410 KB (-66%)".to_string());
    st.run_ended();
    let added = st.add_paths(&paths(&["a.png"]));
    assert_eq!(st.rows[1].status, "done");
    assert_eq!(st.rows[1].result, "410 KB (-66%)");
    assert_eq!(st.rows[1].dims, "640×480");
    assert_eq!(st.rows[0].status, "queued");
    assert_eq!(added.missing, paths(&["a.png"]), "b.png is in the cache");
    assert_eq!(added.edits.len(), 1);
}

#[test]
fn removing_a_file_moves_the_selection_with_its_file() {
    let mut st = state(&["a.png", "b.png", "c.png"]);
    st.select_file(2);
    let before = copy(&st.rows);
    let edits = st.remove_file(0).unwrap();
    assert_eq!(st.selected, 1);
    assert_eq!(apply(before, &edits), st.rows);
    let (path, gen) = st.select_file(1).unwrap();
    assert_eq!(path, p("c.png"));
    assert_eq!(st.preview_ready(gen, &path, 10, 10), Some(None));
    st.cropping = true;
    st.remove_file(1);
    assert_eq!(st.selected, -1);
    assert!(!st.cropping && st.edit.is_none());
    assert!(st.remove_file(5).is_none());
    assert!(st.remove_file(-1).is_none());
}

#[test]
fn a_running_batch_keeps_its_list() {
    let mut st = state(&["a.png"]);
    assert!(st.start_run());
    assert!(!st.start_run(), "one at a time");
    assert!(st.remove_file(0).is_none());
    assert!(st.clear_files().is_none());
    st.file_done(&p("a.png"), false, &String::new());
    assert_eq!(st.rows[0].status, "error");
    st.run_ended();
    assert!(st.start_run());
    assert_eq!(st.rows[0].status, "queued");
    st.run_ended();
    let before = copy(&st.rows);
    let edits = st.clear_files().unwrap();
    assert!(apply(before, &edits).is_empty() && st.rows.is_empty());
    assert!(!st.start_run(), "nothing to convert");
}

/// A slow decode that lands after the user has moved on is dropped.
#[test]
fn a_late_preview_is_dropped() {
    let mut st = state(&["a.png", "b.png"]);
    let (a, first) = st.select_file(0).unwrap();
    let (b, second) = st.select_file(1).unwrap();
    assert_eq!(st.preview_ready(first, &a, 10, 10), None);
    assert!(st.preview_unreadable(first, &a).is_none());
    assert!(st.edit.is_none());
    let edits = st.preview_unreadable(second, &b).unwrap();
    assert_eq!(st.rows[1].dims, "unreadable");
    assert_eq!(edits.len(), 1);
    assert!(st.select_file(2).is_none() && st.select_file(-1).is_none());
}

#[test]
fn a_crop_is_kept_for_its_file() {
    let mut st = state(&["a.png"]);
    assert!(st.apply_crop(0, 0, 1, 1).is_empty(), "nothing to crop");
    let (path, gen) = st.select_file(0).unwrap();
    st.preview_ready(gen, &path, 100, 50);
    st.cropping = true;
    let edits = st.apply_crop(90, 0, 50, 500);
    assert_eq!(edits.len(), 1);
    assert!(st.rows[0].cropped && !st.cropping);
    assert_eq!(
        st.preview_ready(gen, &path, 100, 50),
        Some(Some((90, 0, 10, 50)))
    );
    st.remove_file(0);
    st.add_paths(&paths(&["a.png"]));
    assert!(!st.rows[0].cropped, "the crop went with its file");
}

#[test]
fn a_crop_stays_inside_its_image() {
    assert_eq!(clamp_crop(10, 20, 30, 40, 100, 100), (10, 20, 30, 40));
    assert_eq!(clamp_crop(200, 200, 5, 5, 100, 50), (99, 49, 1, 1));
    assert_eq!(clamp_crop(0, 0, 0, 0, 100, 50), (0, 0, 1, 1));
    assert_eq!(clamp_crop(0, 0, 999, 999, 100, 50), (0, 0, 100, 50));
}

#[test]
fn a_thumbnail_of_a_file_that_is_gone_is_only_kept() {
    let mut st = state(&["a.png"]);
    assert!(st.thumb_ready(&p("gone.png"), &thumb()).is_empty());
    assert_eq!(st.rows[0].dims, "");
    let added = st.add_paths(&paths(&["gone.png"]));
    assert_eq!(added.missing, paths(&["a.png"]));
    assert_eq!(st.rows[1].dims, "640×480");
    assert_eq!(st.unreadable(&p("a.png")).len(), 1);
    assert_eq!(st.rows[0].dims, "unreadable");
    assert!(st.unreadable(&p("other.png")).is_empty());
    assert_eq!(dims(1920, 1080), "1920×1080");
}
