use kuvatin::history::Step;
use kuvatin::image_history::{files_phrase, ImageStep, Lists, Outcome, ThumbData};
use kuvatin::paths::{Drive, FilePath, Part, Prefix};

fn text(s: &str) -> Vec<u32> {
    s.chars().map(|c| c as u32).collect()
}

/// `C:/photos/<name>`.
fn p(name: &str) -> FilePath {
    FilePath {
        parts: vec![
            Part::Prefix(Prefix::Disk(Drive { letter: b'C' })),
            Part::RootDir,
            Part::Name(text("photos")),
            Part::Name(text(name)),
        ],
    }
}

fn thumb() -> ThumbData {
    ThumbData {
        rgba: vec![0, 0, 0, 255],
        w: 1,
        h: 1,
        dims: "1×1".into(),
    }
}

fn lists(files: &[&str]) -> Lists {
    let mut l = Lists::new();
    l.files = files.iter().map(|f| p(f)).collect();
    l
}

fn everything_exists(_: &FilePath) -> bool {
    true
}

fn not_gone(path: &FilePath) -> bool {
    path.file_name() != Some("gone.jpg".to_string())
}

#[test]
fn steps_describe_themselves() {
    let add = ImageStep::AddFiles {
        paths: vec![p("a.jpg"), p("b.jpg")],
    };
    assert_eq!(add.describe(), "adding 2 files");
    let one = ImageStep::AddFiles {
        paths: vec![p("a.jpg")],
    };
    assert_eq!(one.describe(), "adding 1 file");
    let rm = ImageStep::RemoveFile {
        path: p("a.jpg"),
        crop: None,
    };
    assert_eq!(rm.describe(), "removing a.jpg");
    let clear = ImageStep::ClearList {
        paths: vec![p("a.jpg"); 40],
        crops: vec![],
        thumbs: vec![],
    };
    assert_eq!(clear.describe(), "clearing the list (40 files)");
    let crop = ImageStep::ApplyCrop {
        path: p("a.jpg"),
        before: None,
        after: (0, 0, 5, 5),
    };
    assert_eq!(crop.describe(), "cropping a.jpg");
}

#[test]
fn nothing_merges_and_no_ops_are_empty() {
    let crop = ImageStep::ApplyCrop {
        path: p("a.jpg"),
        before: None,
        after: (0, 0, 5, 5),
    };
    assert!(!crop.merges_with(&crop));
    assert!(
        ImageStep::AddFiles { paths: vec![] }.is_empty(),
        "re-adding files already there"
    );
    let same = ImageStep::ApplyCrop {
        path: p("a.jpg"),
        before: Some((0, 0, 5, 5)),
        after: (0, 0, 5, 5),
    };
    assert!(same.is_empty(), "applying the crop that was already there");
}

#[test]
fn undoing_an_add_removes_only_the_new_files() {
    let mut s = lists(&["a.jpg", "b.jpg", "c.jpg"]);
    let step = ImageStep::AddFiles {
        paths: vec![p("a.jpg"), p("c.jpg")],
    };
    let out = step.undo(&mut s, &everything_exists);
    assert_eq!(s.files, vec![p("b.jpg")]);
    assert_eq!(out, Outcome::default());
    step.redo(&mut s, &everything_exists);
    assert_eq!(
        s.files,
        vec![p("a.jpg"), p("b.jpg"), p("c.jpg")],
        "sorted back in on both sides"
    );
}

#[test]
fn undoing_a_remove_brings_back_the_file_and_its_crop_and_selects_it() {
    let mut s = lists(&["a.jpg", "c.jpg"]);
    let step = ImageStep::RemoveFile {
        path: p("b.jpg"),
        crop: Some((1, 2, 3, 4)),
    };
    let out = step.undo(&mut s, &everything_exists);
    assert_eq!(s.files, vec![p("a.jpg"), p("b.jpg"), p("c.jpg")]);
    assert_eq!(s.crops.get(&p("b.jpg")), Some(&(1, 2, 3, 4)));
    assert_eq!(out.select, Some(p("b.jpg")));
    step.redo(&mut s, &everything_exists);
    assert_eq!(s.files, vec![p("a.jpg"), p("c.jpg")]);
    assert!(s.crops.is_empty());
}

#[test]
fn undoing_a_clear_restores_paths_crops_and_thumbnails() {
    let mut s = lists(&[]);
    let step = ImageStep::ClearList {
        paths: vec![p("a.jpg"), p("b.jpg")],
        crops: vec![(p("b.jpg"), (0, 0, 9, 9))],
        thumbs: vec![(p("a.jpg"), thumb())],
    };
    step.undo(&mut s, &everything_exists);
    assert_eq!(s.files, vec![p("a.jpg"), p("b.jpg")]);
    assert_eq!(s.crops.get(&p("b.jpg")), Some(&(0, 0, 9, 9)));
    assert!(s.thumbs.contains_key(&p("a.jpg")), "no decode needed");
    step.redo(&mut s, &everything_exists);
    assert!(s.files.is_empty() && s.crops.is_empty() && s.thumbs.is_empty());
}

#[test]
fn undoing_a_crop_puts_back_the_previous_crop_or_none() {
    let mut s = lists(&["a.jpg"]);
    s.crops.insert(p("a.jpg"), (5, 5, 5, 5));
    let first = ImageStep::ApplyCrop {
        path: p("a.jpg"),
        before: None,
        after: (1, 1, 1, 1),
    };
    first.undo(&mut s, &everything_exists);
    assert!(s.crops.is_empty(), "there was no crop before");
    let second = ImageStep::ApplyCrop {
        path: p("a.jpg"),
        before: Some((1, 1, 1, 1)),
        after: (2, 2, 2, 2),
    };
    let out = second.undo(&mut s, &everything_exists);
    assert_eq!(s.crops.get(&p("a.jpg")), Some(&(1, 1, 1, 1)));
    assert_eq!(out.select, Some(p("a.jpg")), "the crop outline follows");
    let out = second.redo(&mut s, &everything_exists);
    assert_eq!(s.crops.get(&p("a.jpg")), Some(&(2, 2, 2, 2)));
    assert_eq!(
        out.select,
        Some(p("a.jpg")),
        "a redone crop selects its file too"
    );
}

#[test]
fn a_file_gone_from_disk_is_skipped_and_counted() {
    let mut s = lists(&[]);
    let step = ImageStep::ClearList {
        paths: vec![p("a.jpg"), p("gone.jpg")],
        crops: vec![(p("gone.jpg"), (0, 0, 1, 1))],
        thumbs: vec![],
    };
    let out = step.undo(&mut s, &not_gone);
    assert_eq!(s.files, vec![p("a.jpg")]);
    assert!(
        s.crops.is_empty(),
        "no crop for a file that is not in the list"
    );
    assert_eq!(out.skipped, 1);
}

#[test]
fn a_step_that_changes_something_is_not_empty() {
    assert!(!ImageStep::AddFiles {
        paths: vec![p("a.jpg")]
    }
    .is_empty());
    assert!(!ImageStep::RemoveFile {
        path: p("a.jpg"),
        crop: None
    }
    .is_empty());
    let clear = ImageStep::ClearList {
        paths: vec![p("a.jpg")],
        crops: vec![],
        thumbs: vec![],
    };
    assert!(!clear.is_empty());
    let nothing = ImageStep::ClearList {
        paths: vec![],
        crops: vec![],
        thumbs: vec![],
    };
    assert!(nothing.is_empty(), "clearing an empty list");
    let recrop = ImageStep::ApplyCrop {
        path: p("a.jpg"),
        before: Some((0, 0, 5, 5)),
        after: (1, 1, 5, 5),
    };
    assert!(!recrop.is_empty(), "a crop over a different crop");
}

#[test]
fn adding_back_and_removing_back_skip_and_count_a_file_gone_from_disk() {
    let mut s = lists(&["a.jpg"]);
    let add = ImageStep::AddFiles {
        paths: vec![p("b.jpg"), p("gone.jpg")],
    };
    let out = add.redo(&mut s, &not_gone);
    assert_eq!(s.files, vec![p("a.jpg"), p("b.jpg")]);
    assert_eq!(out.skipped, 1);
    let mut s = lists(&["a.jpg"]);
    let remove = ImageStep::RemoveFile {
        path: p("gone.jpg"),
        crop: Some((1, 1, 1, 1)),
    };
    let out = remove.undo(&mut s, &not_gone);
    assert_eq!(s.files, vec![p("a.jpg")]);
    assert!(
        s.crops.is_empty(),
        "no crop for a file that did not come back"
    );
    assert_eq!(
        out,
        Outcome {
            skipped: 1,
            select: None
        }
    );
}

/// A crop belongs to a file in the list: undoing or redoing one for a file
/// that is not there leaves no crop behind for a later add to pick up.
#[test]
fn a_crop_for_a_file_not_in_the_list_is_not_written() {
    let mut s = lists(&[]);
    let crop = ImageStep::ApplyCrop {
        path: p("a.jpg"),
        before: Some((1, 1, 1, 1)),
        after: (2, 2, 2, 2),
    };
    let out = crop.undo(&mut s, &everything_exists);
    assert!(s.crops.is_empty() && out.select.is_none(), "undo");
    let out = crop.redo(&mut s, &everything_exists);
    assert!(s.crops.is_empty() && out.select.is_none(), "redo");
}

#[test]
fn counts_of_files_read_as_english() {
    assert_eq!(files_phrase(0), "0 files");
    assert_eq!(files_phrase(1), "1 file");
    assert_eq!(files_phrase(1234), "1234 files");
}

/// Undoing a step and doing it again leaves the lists as they were.
#[test]
fn a_step_done_again_is_done() {
    let mut s = lists(&["a.jpg", "b.jpg"]);
    s.crops.insert(p("a.jpg"), (2, 2, 2, 2));
    let crop = ImageStep::ApplyCrop {
        path: p("a.jpg"),
        before: Some((1, 1, 1, 1)),
        after: (2, 2, 2, 2),
    };
    crop.undo(&mut s, &everything_exists);
    crop.redo(&mut s, &everything_exists);
    assert_eq!(s.crops.get(&p("a.jpg")), Some(&(2, 2, 2, 2)));
    assert_eq!(s.files, vec![p("a.jpg"), p("b.jpg")]);
}
