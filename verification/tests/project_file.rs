use kuvatin::clip::{ClipKind, ClipRecord, LayoutRecord, Real, SequenceSpec};
use kuvatin::paths::{Drive, FilePath, Part, Prefix};
use kuvatin::project_file::{
    asks_before_opening, file_label, kind_of, left_out, nothing_to_save, restore_models, save_target, saved,
    sequence_to_save, uri_extension, KnownSequence, SavedClip,
};

fn text(s: &str) -> Vec<u32> {
    s.chars().map(|c| c as u32).collect()
}

fn p(name: &str) -> FilePath {
    FilePath {
        parts: vec![Part::Name(text(name))],
    }
}

fn number(x: f64) -> Real {
    Real { bits: x.to_bits() }
}

fn record(uri: &str, kind: ClipKind, track: usize) -> ClipRecord {
    ClipRecord {
        uri: uri.into(),
        name: "intro.mp4".into(),
        kind,
        track,
        start: number(1.0),
        inpoint: number(0.0),
        duration: number(2.0),
        rate: number(1.0),
        layout: LayoutRecord {
            posx: 0,
            posy: 0,
            scale: number(1.0),
            alpha: number(1.0),
            volume: number(1.0),
        },
        sequence: None,
    }
}

fn sequence(prefix: &str) -> SequenceSpec {
    SequenceSpec {
        dir: p("renders"),
        prefix: prefix.into(),
        pattern: format!("{prefix}%04d.png"),
        first: p(&format!("{prefix}0001.png")),
        start: 1,
        count: 24,
        fps: 24,
    }
}

/// The extensions that the app reads as images, some of them.
fn image(uri: &str) -> bool {
    ["png", "jpg"].contains(&uri_extension(uri).as_str())
}

fn kind(uri: &str) -> ClipKind {
    kind_of(uri, image(uri))
}

#[test]
fn a_uri_says_what_kind_of_clip_it_is() {
    assert_eq!(
        kind("imagesequence://C:/r/f_%04d.png?start-index=1&framerate=24/1"),
        ClipKind::Sequence
    );
    assert_eq!(kind("file:///C:/shots/take1.mp4"), ClipKind::Video);
    assert_eq!(kind("file:///C:/shots/logo.png"), ClipKind::Image);
    // A query on a plain file URI must not be read as part of the
    // extension: `.png?x=1` is still a PNG.
    assert_eq!(kind("file:///C:/shots/logo.png?x=1"), ClipKind::Image);
}

#[test]
fn an_extension_is_read_in_lower_case() {
    assert_eq!(uri_extension("file:///C:/shots/LOGO.PNG?x=1"), "png");
    assert_eq!(uri_extension("file:///a.b/ÄÄ.ÄI"), "äi");
    assert_eq!(uri_extension("nothing"), "nothing");
}

#[test]
fn the_label_is_the_file_name() {
    let path = FilePath {
        parts: vec![
            Part::Prefix(Prefix::Disk(Drive { letter: b'C' })),
            Part::RootDir,
            Part::Name(text("work")),
            Part::Name(text("edit")),
            Part::Name(text("cut.kuvatin")),
        ],
    };
    assert_eq!(file_label(&path).as_str(), "cut.kuvatin");
}

#[test]
fn a_reopened_project_is_shown_as_it_was() {
    let records = vec![
        ("a".to_string(), record("file:///intro.mp4", ClipKind::Video, 1)),
        ("b".to_string(), record("file:///logo.png", ClipKind::Image, 3)),
    ];
    let clips = vec![
        SavedClip {
            name: "intro.mp4".into(),
            source: Some(p("intro.mp4")),
            sequence: None,
        },
        SavedClip {
            name: "intro again".into(),
            source: Some(p("intro.mp4")),
            sequence: None,
        },
        SavedClip {
            name: "run".into(),
            source: None,
            sequence: Some(sequence("f_")),
        },
        SavedClip {
            name: "from nowhere".into(),
            source: None,
            sequence: None,
        },
    ];
    let r = restore_models(&records, &clips);
    assert_eq!(r.rows.len(), 2);
    assert_eq!((r.rows[0].id.as_str(), r.rows[0].track), ("a", 1));
    assert_eq!(r.rows[1].kind, ClipKind::Image);
    assert_eq!(r.tracks, ["Track 1", "Track 2", "Track 3", "Track 4"]);
    assert_eq!(r.bin, [p("intro.mp4"), p("f_0001.png")]);
    let names: Vec<&str> = r.assets.iter().map(|a| a.name.as_str()).collect();
    assert_eq!(names, ["intro.mp4", "run"]);
    assert!(r.assets.iter().all(|a| a.thumb.width == 0));
    assert_eq!(r.sequences.get(&p("f_0001.png")), Some(&sequence("f_")));
    assert!(r.sequences.get(&p("intro.mp4")).is_none());
    assert_eq!(restore_models(&Vec::new(), &Vec::new()).tracks.len(), 2);
}

#[test]
fn clips_without_their_sources_are_named() {
    assert!(left_out(&Vec::new()).is_none());
    assert_eq!(
        left_out(&vec!["a.mp4".to_string()]).unwrap().detail,
        "1 clip left out because its source is missing:\na.mp4"
    );
    let d = left_out(&vec!["a.mp4".to_string(), "b.mp4".to_string()]).unwrap();
    assert_eq!(d.title, "Some media could not be found");
    assert_eq!(
        d.detail,
        "2 clips left out because their sources are missing:\na.mp4\nb.mp4"
    );
}

#[test]
fn a_saved_project_says_where_it_is() {
    let one = saved("C:/cut.kuvatin", 1);
    assert_eq!(one.title, "Project saved");
    assert_eq!(one.detail, "C:/cut.kuvatin\n\n1 clip on the timeline.");
    assert_eq!(
        saved("C:/cut.kuvatin", 3).detail,
        "C:/cut.kuvatin\n\n3 clips on the timeline."
    );
}

#[test]
fn a_sequence_is_saved_with_what_the_bin_knows_of_it() {
    let known = vec![
        KnownSequence {
            uri: "imagesequence://g".into(),
            spec: sequence("g_"),
        },
        KnownSequence {
            uri: "imagesequence://f".into(),
            spec: sequence("f_"),
        },
    ];
    let clip = record("imagesequence://f", ClipKind::Sequence, 0);
    assert_eq!(sequence_to_save(&clip, &known), Some(sequence("f_")));
    let unknown = record("imagesequence://h", ClipKind::Sequence, 0);
    assert_eq!(sequence_to_save(&unknown, &known), None);
    let video = record("file:///f.mp4", ClipKind::Video, 0);
    assert_eq!(sequence_to_save(&video, &known), None);
}

#[test]
fn a_known_file_is_saved_to_without_asking() {
    let current = Some(p("cut.kuvatin"));
    assert_eq!(save_target(&current, false), current);
    assert_eq!(save_target(&current, true), None);
    assert_eq!(save_target(&None, false), None);
    assert!(asks_before_opening(1) && !asks_before_opening(0));
}

#[test]
fn an_empty_editor_has_nothing_to_save() {
    assert!(nothing_to_save(true).is_none());
    let d = nothing_to_save(false).expect("a dialog");
    assert_eq!(d.title, "Nothing to save");
    assert_eq!(d.detail, "Add a clip to the timeline first.");
}
