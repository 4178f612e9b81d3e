use kuvatin::batch::{
    items, output_stem, run_finished, run_title, save_to, BatchSummary, Ended, FileResult, SaveTo,
};
use kuvatin::paths::{FilePath, Part};
use kuvatin::presets::{CropMode, Job, OutputFormat, PngOptimize, ResizeMode};
use kuvatin::sorted_map::SortedMap;

fn p(name: &str) -> FilePath {
    FilePath {
        parts: vec![Part::Name(name.chars().map(|c| c as u32).collect())],
    }
}

fn job() -> Job {
    Job {
        format: OutputFormat::Webp,
        quality: 80,
        png: PngOptimize::Off,
        suffix: "-web".into(),
        subfolder: false,
        resize: ResizeMode::Other(1),
        crop: CropMode::Other(0),
    }
}

fn result(name: &str, ended: Ended) -> FileResult {
    FileResult {
        name: name.into(),
        ended,
    }
}

#[test]
fn a_clean_run_says_how_many_files_it_converted() {
    let s = BatchSummary {
        ok: 3,
        ..Default::default()
    };
    assert_eq!(run_title(&s), "Converted 3 files");
    let one = BatchSummary {
        ok: 1,
        ..Default::default()
    };
    assert_eq!(run_title(&one), "Converted 1 file");
}

#[test]
fn failures_are_counted_against_the_total() {
    let s = BatchSummary {
        ok: 2,
        failed: 1,
        ..Default::default()
    };
    assert_eq!(run_title(&s), "Converted 2 of 3 files");
}

#[test]
fn a_cancelled_run_says_so_rather_than_claiming_success() {
    let s = BatchSummary {
        ok: 2,
        cancelled: 3,
        ..Default::default()
    };
    assert_eq!(run_title(&s), "Cancelled after 2 of 5 files");
}

#[test]
fn a_crop_of_a_file_overrides_the_jobs_own() {
    let mut crops = SortedMap::new();
    crops.insert(p("b.png"), (1, 2, 3, 4));
    let all = items(&vec![p("a.png"), p("b.png")], &crops, &job());
    assert_eq!(all.len(), 2);
    assert_eq!(all[0].input, p("a.png"));
    assert_eq!(all[0].job, job());
    assert_eq!(
        all[1].job.crop,
        CropMode::Rect {
            x: 1,
            y: 2,
            width: 3,
            height: 4
        }
    );
    assert_eq!(all[1].job.suffix, "-web");
}

#[test]
fn one_file_is_named_and_several_go_to_a_folder() {
    assert_eq!(save_to(1, false), SaveTo::File);
    assert_eq!(save_to(2, false), SaveTo::Folder);
    assert_eq!(save_to(1, true), SaveTo::Subfolder);
    assert_eq!(output_stem(&p("kuva.a.png")), "kuva.a");
    assert_eq!(
        output_stem(&FilePath {
            parts: vec![Part::RootDir]
        }),
        "image"
    );
}

#[test]
fn a_finished_run_names_what_failed() {
    let s = BatchSummary {
        ok: 1,
        failed: 1,
        cancelled: 0,
    };
    let d = run_finished(
        &s,
        &"10 KB to 4 KB".to_string(),
        &vec![
            result("a.png", Ended::Failed("broken".into())),
            result("b.png", Ended::Written("C:/out/b.webp".into())),
        ],
    );
    assert_eq!(d.title, "Converted 1 of 2 files");
    assert_eq!(d.detail, "10 KB to 4 KB\n\n1 file failed:\na.png: broken");
    assert!(!d.info && d.reveal.is_empty());
}

#[test]
fn a_clean_run_offers_the_folder_it_wrote_to() {
    let s = BatchSummary {
        ok: 2,
        failed: 0,
        cancelled: 1,
    };
    let d = run_finished(
        &s,
        &String::new(),
        &vec![
            result("a.png", Ended::Cancelled),
            result("b.png", Ended::Written("C:/out/b.webp".into())),
            result("c.png", Ended::Written("C:/out/c.webp".into())),
        ],
    );
    assert!(d.info);
    assert_eq!(d.reveal, "C:/out/b.webp");
    assert_eq!(d.detail, "");
    assert_eq!(d.title, "Cancelled after 2 of 3 files");
}
