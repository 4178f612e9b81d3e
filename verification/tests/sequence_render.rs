use kuvatin::paths::{FilePath, Part};
use kuvatin::sequence_render::{
    converting, label, output_name, resolve_sequences, settle, Detected, Frame, Rendered, Selected,
    SequenceReport,
};

fn path(names: &[&str]) -> FilePath {
    FilePath {
        parts: names
            .iter()
            .map(|n| Part::Name(n.chars().map(|c| c as u32).collect()))
            .collect(),
    }
}

fn p(name: &str) -> FilePath {
    path(&["renders", name])
}

fn frame(run: &str, number: u64, name: &str) -> Frame {
    Frame {
        run: run.into(),
        number,
        path: p(name),
    }
}

fn formats() -> Vec<String> {
    vec!["png".into(), "jpg".into(), "exr".into()]
}

fn runs(firsts: &[Frame]) -> Vec<&str> {
    firsts.iter().map(|f| f.run.as_str()).collect()
}

/// Picking frames 3 and 1 of one run yields ONE sequence starting at 1.
#[test]
fn selected_frames_of_one_run_merge_from_the_lowest() {
    let frames: Vec<Frame> = (1..=5)
        .map(|i| frame("f_", i, &format!("f_{i:03}.png")))
        .collect();
    let r = resolve_sequences(
        &vec![
            Selected::Numbered(frames[2].clone()),
            Selected::Numbered(frames[0].clone()),
        ],
        &formats(),
    );
    assert!(r.failures.is_empty());
    assert_eq!(r.firsts.len(), 1);
    assert_eq!(r.firsts[0].number, 1);
    let s = settle(
        &r.firsts,
        &vec![Detected::Frames {
            count: 5,
            first: p("f_001.png"),
        }],
    );
    assert_eq!(s.order, vec![0]);
    assert!(s.failures.is_empty());
}

/// A folder yields every run inside it; unnumbered images are ignored.
#[test]
fn a_folder_yields_each_run_inside_it() {
    let mut frames: Vec<Frame> = (1..=3)
        .map(|i| frame("a_", i, &format!("a_{i:03}.png")))
        .collect();
    frames.extend((1..=2).map(|i| frame("b_", i, &format!("b_{i}.jpg"))));
    let r = resolve_sequences(
        &vec![Selected::Folder {
            path: path(&["renders"]),
            frames,
        }],
        &formats(),
    );
    assert!(r.failures.is_empty());
    assert_eq!(runs(&r.firsts), ["a_", "b_"]);
    let s = settle(
        &r.firsts,
        &vec![
            Detected::Frames {
                count: 3,
                first: p("a_001.png"),
            },
            Detected::Frames {
                count: 2,
                first: p("b_1.jpg"),
            },
        ],
    );
    assert_eq!(s.order, vec![0, 1]);
}

/// Unnumbered files, lone frames and frame-less folders are reported, not
/// silently skipped.
#[test]
fn rejects_what_is_not_a_sequence() {
    let r = resolve_sequences(
        &vec![
            Selected::Unnumbered {
                path: p("photo.png"),
                error: "no frame number".into(),
            },
            Selected::Numbered(frame("single_", 7, "single_7.png")),
            Selected::Folder {
                path: p("empty"),
                frames: vec![],
            },
            Selected::NoFrame(p("scan_0001.tif")),
        ],
        &formats(),
    );
    let s = settle(
        &r.firsts,
        &vec![Detected::Frames {
            count: 1,
            first: p("single_7.png"),
        }],
    );
    assert!(s.order.is_empty());
    let mut failures = r.failures;
    failures.extend(s.failures);
    let failed: Vec<FilePath> = failures.iter().map(|(p, _)| p.clone()).collect();
    assert_eq!(
        failed,
        [
            p("photo.png"),
            p("empty"),
            p("scan_0001.tif"),
            p("single_7.png")
        ]
    );
    assert_eq!(failures[0].1, "no frame number");
    assert!(failures[2].1.contains("not a sequence frame format"));
    assert!(failures[3].1.contains("only one frame"));
}

#[test]
fn a_run_that_cannot_be_read_is_reported() {
    let firsts = vec![frame("b_", 1, "b_1.png"), frame("a_", 1, "a_1.png")];
    let s = settle(
        &firsts,
        &vec![
            Detected::Unreadable("gone".into()),
            Detected::Frames {
                count: 2,
                first: p("a_1.png"),
            },
        ],
    );
    assert_eq!(s.order, vec![1]);
    assert_eq!(s.failures, vec![(p("b_1.png"), "gone".to_string())]);
}

#[test]
fn runs_are_rendered_in_the_order_of_their_first_frames() {
    let firsts = vec![frame("b_", 1, "b_1.png"), frame("a_", 1, "a_1.png")];
    let detected = |first: &str| Detected::Frames {
        count: 2,
        first: p(first),
    };
    let s = settle(&firsts, &vec![detected("b_1.png"), detected("a_1.png")]);
    assert_eq!(s.order, vec![1, 0]);
}

/// Output naming: trimmed prefix, folder name for bare numbers.
#[test]
fn output_names_derive_from_the_prefix() {
    let renders = path(&["work", "renders"]);
    assert_eq!(output_name("frame_", &renders), "frame.mp4");
    assert_eq!(output_name("shot 1 -.", &renders), "shot 1.mp4");
    assert_eq!(output_name("", &renders), "renders.mp4");
    assert_eq!(output_name("_-", &renders), "renders.mp4");
}

#[test]
fn progress_says_which_run_of_how_many() {
    assert_eq!(label("f_%04d.png", 0, 1), "f_%04d.png");
    assert_eq!(label("f_%04d.png", 1, 3), "f_%04d.png (2 of 3)");
    assert_eq!(
        converting("f_%04d.exr", 3, 24),
        "f_%04d.exr  \u{b7}  converting EXR 3 / 24"
    );
}

#[test]
fn a_render_reports_what_became_of_each_run() {
    assert_eq!(
        SequenceReport::begin(0, Vec::new()).err(),
        Some("no image sequence in selection")
    );
    let mut r = SequenceReport::begin(3, vec![(p("x.tif"), "no".into())])
        .ok()
        .unwrap();
    assert!(r.ended(Rendered::Written(p("a.mp4"))));
    assert!(r.ended(Rendered::Failed {
        first: p("b_1.png"),
        error: "broken".into()
    }));
    assert!(!r.ended(Rendered::Cancelled));
    assert_eq!(r.rendered, vec![p("a.mp4")]);
    assert_eq!(
        r.failures,
        vec![
            (p("x.tif"), "no".to_string()),
            (p("b_1.png"), "broken".to_string())
        ]
    );
    assert!(r.cancelled);
}
