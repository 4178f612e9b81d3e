use kuvatin::dialogs::{
    failure_log_line, failure_message, join, join_first, name_list, show_error, show_info,
    show_info_at, Failure,
};

fn names(n: usize) -> Vec<String> {
    (1..=n).map(|i| format!("f{i}.png")).collect()
}

#[test]
fn gui_dialog_name_lists_are_capped() {
    let names: Vec<String> = (1..=12).map(|i| format!("f{i}.png")).collect();
    let s = name_list(&names);
    assert_eq!(s.lines().count(), 11);
    assert!(s.ends_with("\u{2026}and 2 more"));
    assert_eq!(name_list(&names[..3].to_vec()), "f1.png\nf2.png\nf3.png");
}

#[test]
fn mod_dialog_name_lists_are_capped() {
    let names: Vec<String> = (1..=12).map(|i| format!("f{i}.png")).collect();
    let s = name_list(&names);
    assert_eq!(s.lines().count(), 11);
    assert!(s.ends_with("\u{2026}and 2 more"));
    assert_eq!(name_list(&names[..3].to_vec()), "f1.png\nf2.png\nf3.png");
}

#[test]
fn ten_names_are_all_shown() {
    let s = name_list(&names(10));
    assert_eq!(s.lines().count(), 10);
    assert!(s.ends_with("f10.png"));
    assert_eq!(name_list(&Vec::new()), "");
}

#[test]
fn texts_are_joined_with_a_separator_between_them() {
    let texts = names(3);
    assert_eq!(join(&texts, ", "), "f1.png, f2.png, f3.png");
    assert_eq!(join_first(&texts, 2, "-"), "f1.png-f2.png");
    assert_eq!(join_first(&texts, 0, "-"), "");
}

#[test]
fn the_dialogs_say_what_they_are() {
    let e = show_error("No".into(), "why".into());
    assert_eq!((e.title.as_str(), e.detail.as_str()), ("No", "why"));
    assert!(!e.info && e.reveal.is_empty());
    let i = show_info("Yes".into(), "what".into());
    assert!(i.info && i.reveal.is_empty());
    let at = show_info_at("Yes".into(), "what".into(), "C:/out.mp4".into());
    assert!(at.info);
    assert_eq!(at.reveal, "C:/out.mp4");
}

#[test]
fn failures_are_named_with_their_reasons() {
    let failures = vec![
        Failure {
            name: "a.png".into(),
            error: "broken".into(),
        },
        Failure {
            name: "b.png".into(),
            error: "gone".into(),
        },
    ];
    let m = failure_message("2 of 3 files could not be converted.", &failures);
    assert_eq!(
        m,
        "2 of 3 files could not be converted.\n\n\u{2022} a.png: broken\n\u{2022} b.png: gone\n"
    );
    assert_eq!(
        failure_log_line("Kuvatin", 2, "x\ny"),
        "FAIL Kuvatin: 2 failure(s): x | y"
    );
}

#[test]
fn a_long_list_of_failures_is_cut_at_ten() {
    let failures: Vec<Failure> = names(12)
        .into_iter()
        .map(|name| Failure {
            name,
            error: "no".into(),
        })
        .collect();
    let m = failure_message("Twelve failed.", &failures);
    assert!(m.ends_with("\u{2022} f10.png: no\n\u{2026}and 2 more.\n"));
    assert_eq!(m.lines().count(), 13);
}
