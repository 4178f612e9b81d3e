use kuvatin::applog::{
    context, crash_path, dir, is_large, log, log_path, rotated, timestamp, Panic, LOG_MAX_BYTES,
};
use kuvatin::calendar::{date_of, Date};
use kuvatin::paths::{FilePath, Part};
use std::time::{SystemTime, UNIX_EPOCH};

fn path(names: &[&str]) -> FilePath {
    FilePath {
        parts: names
            .iter()
            .map(|n| Part::Name(n.chars().map(|c| c as u32).collect()))
            .collect(),
    }
}

#[test]
fn timestamps_are_iso_utc() {
    let now = SystemTime::now()
        .duration_since(UNIX_EPOCH)
        .unwrap()
        .as_secs();
    let t = timestamp(now);
    assert_eq!(t.len(), 20, "{t}");
    assert!(t.ends_with('Z') && t.as_bytes()[10] == b'T', "{t}");
    assert!(t.starts_with("20"), "{t}");
}

#[test]
fn timestamps_know_the_calendar() {
    assert_eq!(timestamp(0), "1970-01-01T00:00:00Z");
    assert_eq!(timestamp(951_782_399), "2000-02-28T23:59:59Z");
    assert_eq!(timestamp(951_782_400), "2000-02-29T00:00:00Z");
    assert_eq!(timestamp(1_757_423_045), "2025-09-09T13:04:05Z");
    assert_eq!(timestamp(4_107_542_399), "2100-02-28T23:59:59Z");
    assert_eq!(timestamp(4_107_542_400), "2100-03-01T00:00:00Z");
    assert_eq!(timestamp(253_402_300_799), "9999-12-31T23:59:59Z");
    assert_eq!(timestamp(253_402_300_800), "10000-01-01T00:00:00Z");
    assert_eq!(
        date_of(59),
        Date {
            year: 1970,
            month: 3,
            day: 1
        }
    );
}

#[test]
fn a_line_says_when_and_who() {
    assert_eq!(
        log(1_757_423_045, 1234, "started"),
        "2025-09-09T13:04:05Z pid=1234 started\n"
    );
}

#[test]
fn a_large_log_is_moved_away() {
    assert!(!is_large(LOG_MAX_BYTES));
    assert!(is_large(LOG_MAX_BYTES + 1));
    let log = log_path(&path(&["Kuvatin"]));
    assert_eq!(log, path(&["Kuvatin", "kuvatin.log"]));
    assert_eq!(rotated(&log), path(&["Kuvatin", "kuvatin.log.1"]));
    assert_eq!(
        crash_path(&path(&["Kuvatin"])),
        path(&["Kuvatin", "crash.log"])
    );
}

#[test]
fn the_log_goes_where_the_user_looks() {
    let known = Some(path(&["known"]));
    let variable = Some(path(&["variable"]));
    let temp = path(&["temp"]);
    assert_eq!(dir(&known, &variable, &temp), path(&["known", "Kuvatin"]));
    assert_eq!(dir(&None, &variable, &temp), path(&["variable", "Kuvatin"]));
    assert_eq!(dir(&None, &None, &temp), path(&["temp", "Kuvatin"]));
}

#[test]
fn the_context_names_what_is_unset() {
    assert_eq!(
        context(&Some("k.exe".into()), &None, &Some("C:/local".into())),
        "exe=k.exe, USERNAME=<unset>, LOCALAPPDATA=C:/local"
    );
    assert_eq!(
        context(&None, &Some("me".into()), &None),
        "exe=?, USERNAME=me, LOCALAPPDATA=<unset>"
    );
}

#[test]
fn only_the_main_thread_puts_up_a_dialog() {
    let main = Panic {
        message: Some("index out of range".into()),
        location: "main.rs:7".into(),
        thread: Some("main".into()),
    };
    assert_eq!(
        main.dialog("C:/crash.log").unwrap(),
        "index out of range\n\nat main.rs:7\n\nDetails were written to C:/crash.log."
    );
    assert_eq!(
        main.crash_entry(0, "2.13.0", 9, "<frames>"),
        "---- 1970-01-01T00:00:00Z Kuvatin 2.13.0 pid=9 thread=main\nindex out of range\n  at main.rs:7\n<frames>\n\n"
    );
    let worker = Panic {
        message: None,
        location: String::new(),
        thread: None,
    };
    assert!(worker.dialog("C:/crash.log").is_none());
    assert_eq!(
        worker.log_line(),
        "PANIC on thread ?: unknown panic (at )"
    );
}

/// Timestamps sort as time does.
#[test]
fn timestamps_sort() {
    let moments = [
        0,
        59,
        60,
        3_599,
        3_600,
        86_399,
        86_400,
        951_782_399,
        951_782_400,
        946_684_800 + 31 * 86_400,
        1_893_455_999,
        1_893_456_000,
        253_402_300_799,
    ];
    let mut sorted = moments.to_vec();
    sorted.sort();
    let texts: Vec<String> = sorted.iter().map(|s| timestamp(*s)).collect();
    for pair in texts.windows(2) {
        assert!(pair[0] < pair[1], "{pair:?}");
    }
    assert_eq!(texts.last().map(String::as_str), Some("9999-12-31T23:59:59Z"));
}
