use kuvatin::cli::{parse_number, repair_drive_root, BadArguments, Cli, CliError, Mode};

fn parse(args: &[&str]) -> Result<Cli, CliError> {
    let all: Vec<String> = std::iter::once("kuvatin")
        .chain(args.iter().copied())
        .map(|a| a.to_string())
        .collect();
    Cli::try_parse_from(&"2.13.0".to_string(), &all)
}

fn mode_of(args: &[&str]) -> Mode {
    parse(args).unwrap().into_mode()
}

fn parse_err(args: &[&str]) -> bool {
    parse(args).is_err()
}

fn bad(args: &[&str]) -> BadArguments {
    match parse(args) {
        Err(CliError::Bad(b)) => b,
        other => panic!("not refused: {other:?}"),
    }
}

#[test]
fn no_args_is_gui() {
    assert_eq!(mode_of(&[]), Mode::Gui { paths: vec![] });
}

#[test]
fn files_only_is_gui_with_paths() {
    assert_eq!(
        mode_of(&["a.png", "b.jpg"]),
        Mode::Gui {
            paths: vec!["a.png".into(), "b.jpg".into()]
        }
    );
}

#[test]
fn preset_is_quickrun() {
    assert_eq!(
        mode_of(&["--preset", "Convert to WebP", "a.png"]),
        Mode::QuickRun {
            preset: "Convert to WebP".into(),
            paths: vec!["a.png".into()]
        }
    );
}

#[test]
fn register_flag() {
    assert_eq!(mode_of(&["--register"]), Mode::Register);
    assert_eq!(mode_of(&["--unregister", "--quiet"]), Mode::Unregister);
    assert_eq!(mode_of(&["--print-extensions"]), Mode::PrintExtensions);
    assert!(parse_err(&["--print-extensions", "--register"]));
}

#[test]
fn sequence_mp4_defaults_to_30_fps_and_takes_fps() {
    assert_eq!(
        mode_of(&["--sequence-mp4", "frame_0001.png"]),
        Mode::SequenceMp4 {
            paths: vec!["frame_0001.png".into()],
            fps: 30
        }
    );
    assert_eq!(
        mode_of(&["--sequence-mp4", "--fps", "24", "C:/renders"]),
        Mode::SequenceMp4 {
            paths: vec!["C:/renders".into()],
            fps: 24
        }
    );
}

/// Modes are mutually exclusive and --fps only means something with
/// --sequence-mp4; nonsense is a parse error, not a silent choice.
#[test]
fn conflicting_or_dangling_flags_are_rejected() {
    assert!(parse_err(&["--preset", "X", "--sequence-mp4", "a.png"]));
    assert!(parse_err(&["--register", "--unregister"]));
    assert!(parse_err(&["--preset", "X", "--register"]));
    assert!(parse_err(&["--fps", "24", "a.png"]));
}

/// A headless mode without any PATH is reported, not silently a no-op.
#[test]
fn headless_modes_need_a_path() {
    assert!(matches!(mode_of(&["--preset", "X"]), Mode::Invalid(_)));
    assert!(matches!(mode_of(&["--sequence-mp4"]), Mode::Invalid(_)));
}

#[test]
fn repairs_the_drive_root_quote_artifact() {
    let repair = |s: &str| repair_drive_root(&s.to_string());
    assert_eq!(repair("C:\""), "C:\\");
    assert_eq!(repair("d:\""), "d:\\");
    // Anything else is untouched — including a genuine three-char argument.
    assert_eq!(repair("C:\\"), "C:\\");
    assert_eq!(repair("ab\""), "ab\"");
    assert_eq!(repair("C:\\dir\""), "C:\\dir\"");
    // Repairing once is enough.
    assert_eq!(repair(&repair("C:\"")), "C:\\");
}

#[test]
fn every_pair_of_modes_conflicts() {
    let modes: [&[&str]; 5] = [
        &["--preset", "X"],
        &["--sequence-mp4"],
        &["--register"],
        &["--unregister"],
        &["--print-extensions"],
    ];
    for i in 0..5 {
        for j in 0..5 {
            if i == j {
                continue;
            }
            let both: Vec<&str> = modes[i].iter().chain(modes[j].iter()).copied().collect();
            assert!(matches!(bad(&both), BadArguments::Conflict(_, _)), "{both:?}");
        }
    }
    assert_eq!(
        bad(&["--register", "--preset", "X"]),
        BadArguments::Conflict("--preset <NAME>", "--register")
    );
    assert_eq!(
        bad(&["--register", "--preset", "X"]).message(),
        "the argument '--preset <NAME>' cannot be used with '--register'"
    );
}

#[test]
fn each_refusal_says_what_is_wrong() {
    assert_eq!(bad(&["--fps", "24", "a.png"]), BadArguments::FpsAlone);
    assert_eq!(bad(&["--fps", "24", "--preset", "X", "a.png"]), BadArguments::FpsAlone);
    assert_eq!(
        bad(&["--fps", "24"]).message(),
        "the argument '--fps <FPS>' needs '--sequence-mp4'"
    );
    assert_eq!(
        bad(&["--sequence-mp4", "--fps", "fast", "a"]),
        BadArguments::NotANumber("fast".into())
    );
    assert_eq!(
        bad(&["--sequence-mp4", "--fps", "fast", "a"]).message(),
        "invalid value 'fast' for '--fps <FPS>'"
    );
    assert_eq!(bad(&["a.png", ""]), BadArguments::EmptyPath);
    assert_eq!(
        bad(&[""]).message(),
        "a value is required for '[PATH]...' but none was supplied"
    );
}

/// Unknown flags, missing values and repeated ones are refused with status 2;
/// help and version are given with status 0.
#[test]
fn what_clap_refuses_is_refused() {
    for args in [
        &["--nonsense"][..],
        &["--preset"],
        &["--quiet", "--quiet"],
        &["--preset", "A", "--preset", "B", "x.png"],
        &["--register=yes"],
    ] {
        match parse(args) {
            Err(CliError::Refused { status, message }) => {
                assert_eq!(status, 2, "{args:?}");
                assert!(message.starts_with("error:"), "{message}");
            }
            other => panic!("{args:?} gave {other:?}"),
        }
    }
    for (flag, has) in [("--help", "--sequence-mp4"), ("--version", "kuvatin 2.13.0")] {
        match parse(&[flag]) {
            Err(CliError::Refused { status, message }) => {
                assert_eq!(status, 0, "{flag}");
                assert!(message.contains(has), "{message}");
            }
            other => panic!("{flag} gave {other:?}"),
        }
    }
}

#[test]
fn options_may_stand_anywhere() {
    assert_eq!(
        mode_of(&["a.png", "--preset=X", "b.png", "--quiet", "--", "--c.png"]),
        Mode::QuickRun {
            preset: "X".into(),
            paths: vec!["a.png".into(), "b.png".into(), "--c.png".into()]
        }
    );
    let cli = parse(&["--quiet", "a.png"]).unwrap();
    assert!(cli.quiet && !cli.register);
    assert_eq!(cli.fps, 30);
}

#[test]
fn a_frame_rate_is_a_number_that_fits() {
    assert_eq!(parse_number("0"), Some(0));
    assert_eq!(parse_number("+24"), Some(24));
    assert_eq!(parse_number("-0"), Some(0));
    assert_eq!(parse_number("00030"), Some(30));
    assert_eq!(parse_number("4294967295"), Some(u32::MAX));
    assert_eq!(parse_number("4294967296"), None);
    assert_eq!(parse_number("99999999999999999999999999"), None);
    for text in ["", "+", "-", "-1", "2.5", "1 ", " 1", "x", "++1"] {
        assert_eq!(parse_number(text), None, "{text:?}");
    }
}
