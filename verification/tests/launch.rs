use kuvatin::cli::Mode;
use kuvatin::launch::{group_of, quick_finish, sequence_finish, Finish};
use kuvatin::paths::{FilePath, Part};
use kuvatin::quickrun::QuickRunReport;
use kuvatin::sequence_render::SequenceReport;

fn p(name: &str) -> FilePath {
    FilePath {
        parts: vec![Part::Name(name.chars().map(|c| c as u32).collect())],
    }
}

#[test]
fn presets_meet_in_their_own_groups() {
    let quick = |preset: &str| Mode::QuickRun {
        preset: preset.into(),
        paths: vec!["a.png".into()],
    };
    assert_eq!(group_of(&quick("A")).as_deref(), Some("preset:A"));
    assert_ne!(group_of(&quick("A")), group_of(&quick("B")));
    assert_eq!(
        group_of(&Mode::SequenceMp4 {
            paths: vec!["a.png".into()],
            fps: 30
        })
        .as_deref(),
        Some("sequence-mp4")
    );
    assert_eq!(
        group_of(&Mode::Gui {
            paths: vec!["a.png".into()]
        })
        .as_deref(),
        Some("open")
    );
    assert_eq!(group_of(&Mode::Gui { paths: vec![] }), None);
    assert_eq!(group_of(&Mode::Register), None);
}

#[test]
fn a_quick_run_ends_as_its_report_says() {
    let clean = QuickRunReport {
        total: 3,
        failures: vec![],
        cancelled: 0,
    };
    assert_eq!(
        quick_finish(&clean, &Vec::new()),
        Finish::Log("quick run done: 3 file(s) converted".into())
    );
    let failed = QuickRunReport {
        total: 3,
        failures: vec![
            (p("a.png"), "broken".into()),
            (
                FilePath {
                    parts: vec![Part::RootDir],
                },
                "a folder".into(),
            ),
        ],
        cancelled: 0,
    };
    assert_eq!(
        quick_finish(&failed, &vec!["C:/a.png".into(), "/".into()]),
        Finish::Fail {
            title: "Kuvatin \u{2014} some files failed",
            message: "2 of 3 file(s) could not be processed:\n\n\u{2022} a.png: broken\n\u{2022} /: a folder\n"
                .into()
        }
    );
    let cancelled = QuickRunReport {
        cancelled: 1,
        ..failed
    };
    assert_eq!(
        quick_finish(&cancelled, &vec![String::new(), String::new()]),
        Finish::Silent
    );
}

#[test]
fn a_render_ends_as_its_report_says() {
    let done = SequenceReport {
        rendered: vec![p("a.mp4"), p("b.mp4")],
        failures: vec![],
        cancelled: false,
    };
    assert_eq!(
        sequence_finish(&done, &Vec::new()),
        Finish::Log("sequence render done: 2 MP4(s) written".into())
    );
    let failed = SequenceReport {
        failures: vec![(p("c_1.png"), "gone".into())],
        ..done
    };
    assert_eq!(
        sequence_finish(&failed, &vec!["C:/c_1.png".into()]),
        Finish::Fail {
            title: "Kuvatin \u{2014} sequence render",
            message: "2 rendered, 1 could not be rendered:\n\n\u{2022} c_1.png: gone\n".into()
        }
    );
    let cancelled = SequenceReport {
        cancelled: true,
        ..failed
    };
    assert_eq!(
        sequence_finish(&cancelled, &vec![String::new()]),
        Finish::Silent
    );
}
