use kuvatin::batch::Ended;
use kuvatin::paths::{FilePath, Part};
use kuvatin::presets::{
    CropMode, Job, OutputFormat, PngOptimize, Preset, ResizeMode,
};
use kuvatin::quickrun::{
    begin, report as report_of, resolve_preset, status, verdict, FileOutcome, QuickRunReport, Verdict,
};

fn p(name: &str) -> FilePath {
    FilePath {
        parts: vec![Part::Name(name.chars().map(|c| c as u32).collect())],
    }
}

fn report(total: usize, failed: usize, cancelled: usize) -> QuickRunReport {
    QuickRunReport {
        total,
        failures: (0..failed)
            .map(|n| (p(&format!("{n}.png")), "no".to_string()))
            .collect(),
        cancelled,
    }
}

/// The contract of the whole right-click feature: a cancelled run says
/// nothing, a run with failures reports them and exits non-zero, and an
/// ordinary run just logs.
#[test]
fn a_cancelled_run_is_silent_even_when_files_had_already_failed() {
    assert_eq!(verdict(&report(9, 2, 4)), Verdict::Cancelled);
    assert_eq!(verdict(&report(9, 0, 9)), Verdict::Cancelled);
}

#[test]
fn failures_are_reported_against_the_total() {
    assert_eq!(
        verdict(&report(5, 2, 0)),
        Verdict::Failed {
            failed: 2,
            total: 5
        }
    );
}

#[test]
fn a_clean_run_counts_what_it_converted() {
    assert_eq!(verdict(&report(3, 0, 0)), Verdict::Converted(3));
    assert_eq!(report(3, 0, 0).failure_count(), 0);
}

fn job() -> Job {
    Job {
        format: OutputFormat::Webp,
        quality: 80,
        png: PngOptimize::Off,
        suffix: String::new(),
        subfolder: false,
        resize: ResizeMode::Other(0),
        crop: CropMode::Other(0),
    }
}

fn store() -> Vec<Preset> {
    ["Convert to PNG", "Convert to WebP"]
        .iter()
        .map(|n| Preset {
            name: n.to_string(),
            job: job(),
        })
        .collect()
}

/// "unknown preset" on its own sends the user hunting for a typo when the
/// real story is that their store could not be read and was replaced.
#[test]
fn an_unknown_preset_carries_the_stores_warning() {
    let note =
        Some("presets.toml could not be read (invalid UTF-8); using the built-ins.".to_string());
    let err = resolve_preset(&store(), &note, "My Preset").expect_err("not a built-in");
    assert!(err.contains("My Preset"), "names the preset: {err}");
    assert!(err.contains("could not be read"), "explains why: {err}");
}

/// With a healthy store the message stays short: it really is a typo.
#[test]
fn an_unknown_preset_in_a_healthy_store_says_only_that() {
    let err = resolve_preset(&store(), &None, "Nope").expect_err("not a built-in");
    assert!(err.contains("Nope"), "{err}");
    assert!(!err.contains("presets.toml"), "no invented context: {err}");
    assert_eq!(err, "unknown preset: Nope");
}

/// Resolution matches the way the menu and the command line spell names.
#[test]
fn a_known_preset_resolves_case_insensitively() {
    let store = store();
    let i = resolve_preset(&store, &None, "  convert to WEBP ").expect("a built-in");
    assert_eq!(store[i].name, "Convert to WebP");
}

#[test]
fn a_run_is_tallied_file_by_file() {
    let results = vec![
        FileOutcome { input: p("a.png"), ended: Ended::Written("out/a.webp".into()) },
        FileOutcome { input: p("b.png"), ended: Ended::Failed("bad data".into()) },
        FileOutcome { input: p("c.png"), ended: Ended::Cancelled },
        FileOutcome { input: p("d.png"), ended: Ended::Failed("too big".into()) },
    ];
    let r = report_of(&results);
    assert_eq!(r.total, 4);
    assert_eq!(
        r.failures,
        vec![
            (p("b.png"), "bad data".to_string()),
            (p("d.png"), "too big".to_string())
        ]
    );
    assert_eq!(r.cancelled, 1);
}

#[test]
fn the_status_line_counts() {
    assert_eq!(status(3, 12, "a.png"), "3 / 12  ·  a.png");
}

/// A selection without a single image is an error, not an empty success.
#[test]
fn a_run_over_no_image_is_an_error() {
    assert_eq!(begin(0), Err("no image files in selection"));
    assert_eq!(begin(1), Ok(()));
    assert_eq!(begin(usize::MAX), Ok(()));
}
