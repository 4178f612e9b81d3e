use kuvatin::clip::{Asset, Picture, SequenceSpec};
use kuvatin::import::{
    add_from_bin, add_to_bin, bin_thumb_arrived, remove_from_bin, Arrival, BinAdd, Expansions, Found, ImportQueue, Scan, SeenSet, SeqEnd, SeqStart,
};
use kuvatin::paths::{FilePath, Part};
use kuvatin::sorted_map::SortedMap;

fn p(name: &str) -> FilePath {
    FilePath {
        parts: vec![Part::Name(name.chars().map(|c| c as u32).collect())],
    }
}

fn paths(names: &[&str]) -> Vec<FilePath> {
    names.iter().map(|n| p(n)).collect()
}

fn scan(media: &[&str], frames_only: &[&str]) -> Scan {
    Scan {
        media: paths(media),
        frames_only: paths(frames_only),
    }
}

fn found(names: &[&str]) -> Vec<Found> {
    names
        .iter()
        .map(|n| Found {
            path: p(n),
            key: p(&n.to_lowercase()),
        })
        .collect()
}

/// The drain timer sleeps while nothing is in flight, so a scan that has
/// started — or has finished but not been collected — must keep it awake.
/// If `busy` ever dipped false with a result pending, the files would sit
/// in the queue until something else woke the timer.
#[test]
fn a_scan_keeps_the_drain_awake_until_its_result_is_collected() {
    let mut ex = Expansions::new();
    assert!(!ex.busy());
    ex.start();
    assert!(ex.busy(), "a scan is running");
    ex.finish(scan(&["a.mp4"], &[]));
    assert!(ex.busy(), "the result is waiting to be collected");
    let taken = ex.take();
    assert_eq!(taken.len(), 1);
    assert_eq!(taken[0].media, paths(&["a.mp4"]));
    assert!(!ex.busy(), "nothing left");
}

#[test]
fn results_are_handed_over_exactly_once() {
    let mut ex = Expansions::new();
    ex.start();
    ex.finish(scan(&["a.mp4"], &["f.exr"]));
    assert_eq!(ex.take().len(), 1);
    assert!(ex.take().is_empty(), "a second drain finds nothing");
}

/// Two drops in quick succession: both scans are accounted for, and the
/// drain gets both results whether or not they finished together.
#[test]
fn two_scans_are_both_accounted_for() {
    let mut ex = Expansions::new();
    ex.start();
    ex.start();
    ex.finish(scan(&["a.mp4"], &[]));
    assert!(ex.busy());
    assert_eq!(ex.take().len(), 1);
    assert!(ex.busy(), "the second scan is still running");
    ex.finish(scan(&["b.mp4"], &[]));
    assert_eq!(ex.take().len(), 1);
    assert!(!ex.busy());
}

/// Different spellings of one file are one "seen" entry: the canonical form is
/// what is kept.
#[test]
fn spellings_of_one_file_are_one_entry() {
    let mut seen = SeenSet::new();
    assert!(seen.insert(&p("clip.mp4")));
    assert!(!seen.insert(&p("clip.mp4")));
    assert!(seen.contains(&p("clip.mp4")));
    assert!(seen.insert(&p("another.mp4")));
    seen.remove(&p("clip.mp4"));
    assert!(!seen.contains(&p("clip.mp4")));
    assert!(seen.contains(&p("another.mp4")));
    seen.reseed(&paths(&["b.mp4", "a.mp4", "b.mp4"]));
    assert!(seen.contains(&p("a.mp4")) && seen.contains(&p("b.mp4")));
    assert!(!seen.contains(&p("another.mp4")));
}

#[test]
fn a_file_is_queued_once_however_it_is_spelled() {
    let mut q = ImportQueue::new();
    assert!(q.idle(false));
    assert!(!q.idle(true));
    let first = q.queue_collected(&found(&["A.mp4", "a.mp4", "b.mp4"]), 0);
    assert_eq!(first.items.len(), 2);
    assert_eq!(first.items[0].path, p("A.mp4"));
    assert_eq!(first.items[1].path, p("b.mp4"));
    assert!(first.show && first.dialog.is_none());
    assert_eq!(q.total, 2);
    let again = q.queue_collected(&found(&["b.mp4"]), 3);
    assert!(again.items.is_empty() && !again.show);
    let d = again.dialog.unwrap();
    assert_eq!(d.title, "EXR frames import as a sequence");
    assert_eq!(
        d.detail,
        "3 EXR file(s) were skipped. Use Import sequence\u{2026} and pick the first frame of the run."
    );
}

#[test]
fn an_import_ends_with_a_summary_of_what_failed() {
    let mut q = ImportQueue::new();
    q.queue_collected(&found(&["a.mp4", "b.mp4", "c.mp4"]), 0);
    let gen = q.current_gen();
    assert_eq!(
        q.arrived(gen, &p("a.mp4"), &"a.mp4".to_string(), false, 0),
        Arrival::Added { on_timeline: true }
    );
    assert_eq!(
        q.arrived(gen, &p("b.mp4"), &"b.mp4".to_string(), true, 1),
        Arrival::Failed
    );
    let mid = q.end_of_drain(0, 0);
    assert!(!mid.close && mid.dialog.is_none());
    assert_eq!(mid.progress, Some((2, 3)));
    assert_eq!(
        q.arrived(gen, &p("c.mp4"), &"c.mp4".to_string(), false, 1),
        Arrival::Added { on_timeline: false }
    );
    let end = q.end_of_drain(0, 0);
    assert!(end.close);
    assert_eq!(end.progress, Some((3, 3)));
    assert_eq!(
        end.dialog.unwrap().detail,
        "1 file(s) couldn't be read as media:\nb.mp4"
    );
    assert!(q.idle(false));
    // The failed one can be tried again; the others are in the bin.
    let again = q.queue_collected(&found(&["a.mp4", "b.mp4"]), 0);
    assert_eq!(again.items.len(), 1);
}

#[test]
fn a_cancel_leaves_the_stragglers_behind() {
    let mut q = ImportQueue::new();
    q.queue_collected(&found(&["a.mp4", "b.mp4"]), 0);
    let gen = q.current_gen();
    q.cancel(&paths(&["a.mp4"]));
    assert_ne!(q.current_gen(), gen);
    assert_eq!(
        q.arrived(gen, &p("b.mp4"), &"b.mp4".to_string(), false, 0),
        Arrival::Stale
    );
    assert_eq!(q.total, 0);
    let again = q.queue_collected(&found(&["a.mp4", "b.mp4"]), 0);
    assert_eq!(again.items.len(), 1, "only what never reached the bin");
    q.forget(&p("a.mp4"));
    assert_eq!(q.queue_collected(&found(&["a.mp4"]), 0).items.len(), 1);
    q.reseed(&Vec::new());
    assert_eq!(q.queue_collected(&found(&["a.mp4"]), 0).items.len(), 1);
}

fn spec() -> SequenceSpec {
    SequenceSpec {
        dir: FilePath { parts: vec![] },
        prefix: "f_".into(),
        start: 1,
        first: p("f_0001.png"),
        pattern: "f_%04d.png".into(),
        count: 24,
        fps: 30,
    }
}

#[test]
fn one_sequence_is_imported_at_a_time() {
    let mut q = ImportQueue::new();
    assert!(matches!(
        q.confirm_sequence(None, &p("x"), 24),
        SeqStart::Nothing
    ));
    match q.confirm_sequence(Some(spec()), &p("f_0001.png"), 999) {
        SeqStart::Go {
            spec,
            bin_name,
            clip_name,
        } => {
            assert_eq!(spec.fps, 240);
            assert_eq!(bin_name, "f_%04d.png \u{b7} 24f");
            assert_eq!(clip_name, "f_%04d.png");
        }
        _ => panic!("it should run"),
    }
    assert!(!q.idle(false));
    match q.confirm_sequence(Some(spec()), &p("g_0001.png"), 24) {
        SeqStart::Refused(d) => assert_eq!(d.title, "A sequence is already being converted"),
        _ => panic!("it should be refused"),
    }
    assert_eq!(q.end_of_drain(3, 24).progress, Some((3, 24)));
    assert!(matches!(
        q.sequence_done(&p("f_0001.png"), true, None, false),
        SeqEnd::Added
    ));
    assert!(q.sequence_closes());
    match q.confirm_sequence(Some(spec()), &p("f_0001.png"), 24) {
        SeqStart::Refused(d) => assert_eq!(d.title, "Already imported"),
        _ => panic!("it should be refused"),
    }
}

#[test]
fn a_failed_sequence_can_be_tried_again() {
    let mut q = ImportQueue::new();
    q.confirm_sequence(Some(spec()), &p("f_0001.png"), 0);
    match q.sequence_done(&p("f_0001.png"), true, Some("no frames".into()), false) {
        SeqEnd::Failed(d) => assert_eq!(d.detail, "no frames"),
        _ => panic!("it failed"),
    }
    assert!(matches!(
        q.confirm_sequence(Some(spec()), &p("f_0001.png"), 24),
        SeqStart::Go { .. }
    ));
    match q.sequence_done(&p("f_0001.png"), false, None, false) {
        SeqEnd::Failed(d) => assert_eq!(d.detail, "unknown error"),
        _ => panic!("it failed"),
    }
    assert!(matches!(
        q.confirm_sequence(Some(spec()), &p("f_0001.png"), 24),
        SeqStart::Go { .. }
    ));
    assert!(matches!(
        q.sequence_done(&p("f_0001.png"), true, None, true),
        SeqEnd::Forgotten
    ));
}

#[test]
fn a_bin_entry_goes_with_its_row() {
    let mut bin = paths(&["a.mp4", "b.mp4"]);
    let gone = remove_from_bin(&mut bin, 2, 0);
    assert!(gone.row);
    assert_eq!(gone.path, Some(p("a.mp4")));
    assert_eq!(bin, paths(&["b.mp4"]));
    let none = remove_from_bin(&mut bin, 1, 5);
    assert!(!none.row && none.path.is_none());
    assert!(!remove_from_bin(&mut bin, 1, -1).row);
}

/// A bin entry that stands for a sequence adds the whole of it, any other its
/// file.
#[test]
fn a_bin_entry_adds_its_sequence_or_its_file() {
    let bin = paths(&["a.mp4", "shot_0001.png"]);
    let spec = SequenceSpec {
        dir: p("renders"),
        prefix: "shot_".into(),
        pattern: "shot_%04d.png".into(),
        first: p("shot_0001.png"),
        start: 1,
        count: 24,
        fps: 24,
    };
    let mut sequences = SortedMap::new();
    sequences.insert(p("shot_0001.png"), spec.clone());
    assert_eq!(add_from_bin(&bin, &sequences, 0), BinAdd::File(p("a.mp4")));
    assert_eq!(
        add_from_bin(&bin, &sequences, 1),
        BinAdd::Sequence {
            spec,
            name: "shot_%04d.png".into()
        }
    );
    assert_eq!(add_from_bin(&bin, &sequences, 2), BinAdd::Nothing);
    assert_eq!(add_from_bin(&bin, &sequences, -1), BinAdd::Nothing);
    sequences.remove(&p("shot_0001.png"));
    assert_eq!(
        add_from_bin(&bin, &sequences, 1),
        BinAdd::File(p("shot_0001.png"))
    );
}

/// A picture that is decoded late goes to the bin's rows of its name.
#[test]
fn a_picture_goes_to_the_bins_rows_of_its_name() {
    let none = Picture { id: 0, width: 0 };
    let thumb = Picture { id: 5, width: 160 };
    let asset = |name: &str, thumb: Picture| Asset {
        name: name.into(),
        thumb,
    };
    let mut assets = Vec::new();
    add_to_bin(&mut assets, &p("a.mp4"), none);
    add_to_bin(&mut assets, &p("b.mp4"), none);
    add_to_bin(&mut assets, &FilePath { parts: vec![Part::RootDir] }, thumb);
    assert_eq!(
        assets,
        [asset("a.mp4", none), asset("b.mp4", none), asset("", thumb)]
    );
    bin_thumb_arrived(&mut assets, &"b.mp4".to_string(), thumb);
    assert_eq!(
        assets,
        [asset("a.mp4", none), asset("b.mp4", thumb), asset("", thumb)]
    );
}
