use kuvatin::settings::Settings;
use kuvatin::updates::{
    apply_status, check_due, check_failed, checked, download_ended, finish_sentence,
    network_reason, readable, sentence, version_to_install, win32_code, AfterDownload, Phase,
    Runs,
};

#[test]
fn an_hresult_gives_up_the_win32_error_inside_it() {
    assert_eq!(win32_code("0x80072EE7"), Some(12007));
    assert_eq!(win32_code("the download stopped (0x80072ee2)"), Some(12002));
    // A different facility is not a Win32 error, and a bare number is not
    // an HRESULT at all.
    assert_eq!(win32_code("0x80004005"), None);
    assert_eq!(win32_code("the server answered HTTP 404"), None);
    assert_eq!(win32_code("0x8007"), None);
}

#[test]
fn a_transport_failure_reads_as_a_sentence() {
    assert_eq!(
        readable("0x80072EE7", "2.13.0"),
        "Could not reach the download: the address could not be looked up."
    );
    assert_eq!(
        readable("0x80072EFD", "2.13.0"),
        "Could not reach the download: no connection could be made."
    );
    assert_eq!(
        readable("0x80072EE2", "2.13.0"),
        "Could not reach the download: the connection timed out."
    );
    assert_eq!(
        readable("0x80072EFE", "2.13.0"),
        "Could not reach the download: the connection was lost."
    );
}

#[test]
fn a_code_with_no_words_for_it_still_shows_behind_a_lead_in() {
    let said = readable("0x80072F05", "2.13.0");
    assert!(
        said.starts_with("Could not reach the download: "),
        "no lead-in: {said}"
    );
    assert!(said.contains("0x80072F05"), "code went missing: {said}");
}

#[test]
fn the_other_failures_keep_their_own_words() {
    assert_eq!(
        readable("the download did not arrive intact", "2.13.0"),
        "The download did not arrive intact."
    );
    assert_eq!(
        readable("the server answered HTTP 404", "2.13.0"),
        "Version 2.13.0 has no installer published."
    );
    assert_eq!(
        readable(
            r"could not write to C:\Temp\kuvatin\update: access denied",
            "2.13.0"
        ),
        r"Could not write to C:\Temp\kuvatin\update: access denied."
    );
}

#[test]
fn the_first_win32_error_of_a_text_counts() {
    assert_eq!(win32_code("0x80004005 then 0x80072EFD"), Some(12029));
    assert_eq!(win32_code("0x0x80072EFD"), Some(12029));
    assert_eq!(win32_code("0x8007ää2EFD"), None);
    assert_eq!(win32_code(""), None);
    // One outside WinHTTP's range is an error with words of its own.
    assert_eq!(readable("no access (0x80070005)", "1"), "No access (0x80070005).");
    assert_eq!(readable("0x80072F05..", "1"), "Could not reach the download: Windows reported 0x80072F05.");
}

#[test]
fn each_network_reason_has_words() {
    let words = [
        (12002, "the connection timed out"),
        (12007, "the address could not be looked up"),
        (12029, "no connection could be made"),
        (12030, "the connection was lost"),
        (12031, "the connection was lost"),
        (12045, "the secure connection could not be set up"),
        (12175, "the secure connection could not be set up"),
        (12152, "the server's answer made no sense"),
    ];
    for (n, text) in words {
        assert_eq!(network_reason(n), Some(text));
    }
    assert_eq!(network_reason(12000), None);
}

#[test]
fn a_sentence_has_a_capital_and_an_end() {
    assert_eq!(sentence("  it broke \n"), "It broke.");
    assert_eq!(sentence("did it?"), "Did it?");
    assert_eq!(sentence("it did!"), "It did!");
    assert_eq!(sentence("über"), "Über.");
    assert_eq!(sentence("ßx"), "SSx.");
    assert_eq!(sentence(" \t "), "The update did not go through.");
    assert_eq!(finish_sentence("A", "b"), "Ab.");
    assert_eq!(finish_sentence("", ""), ".");
}

fn settings(on: bool, last: u64, seen: &str) -> Settings {
    Settings {
        check_updates: on,
        last_update_check: last,
        latest_seen: seen.into(),
    }
}

#[test]
fn the_status_line_follows_the_settings() {
    let off = apply_status(&settings(false, 0, "3.0.0"), true, "2.13.0");
    assert_eq!(off.text, "Off. Kuvatin makes no network requests unless you turn this on.");
    assert!(!off.enabled);
    assert_eq!(off.available, "3.0.0");
    let fresh = apply_status(&settings(true, 0, ""), true, "2.13.0");
    assert_eq!((fresh.text.as_str(), fresh.available.as_str()), ("Not checked yet.", ""));
    let newer = apply_status(&settings(true, 5, "3.0.0"), true, "2.13.0");
    assert_eq!(newer.text, "Version 3.0.0 is available.");
    let same = apply_status(&settings(true, 5, "2.13.0"), false, "2.13.0");
    assert_eq!((same.text.as_str(), same.available.as_str()), ("Up to date (2.13.0).", ""));
}

#[test]
fn a_check_is_due_once_the_interval_is_over() {
    let s = settings(true, 1000, "");
    assert!(!check_due(&s, 1500, 600, false));
    assert!(check_due(&s, 1600, 600, false));
    assert!(check_due(&s, 1001, 600, true), "a forced check ignores the interval");
    assert!(!check_due(&s, 10, 600, false), "a clock that was set back");
}

#[test]
fn a_check_is_remembered() {
    let mut s = settings(true, 0, "2.0.0");
    checked(&mut s, 77, Some("2.1.0".into()));
    assert_eq!(s, settings(true, 77, "2.1.0"));
    checked(&mut s, 99, None);
    assert_eq!(s, settings(true, 99, "2.1.0"));
    assert_eq!(check_failed("no network"), "Could not check: no network");
}

/// Cancel wins even when it lands after the download finished, and a run that a
/// later one replaced is never installed.
#[test]
fn only_the_current_run_is_installed() {
    let mut runs = Runs::new();
    let first = runs.start();
    assert!(!runs.stopped(first));
    assert_eq!(
        download_ended(&runs, first, Phase::Working, &None, "2.0"),
        AfterDownload::Install
    );
    let second = runs.start();
    assert!(runs.stopped(first) && !runs.stopped(second));
    assert_eq!(
        download_ended(&runs, first, Phase::Confirm, &None, "2.0"),
        AfterDownload::Discard { sweep: true, close: false }
    );
    runs.cancel();
    assert_eq!(
        download_ended(&runs, second, Phase::Working, &Some("stopped".into()), "2.0"),
        AfterDownload::Discard { sweep: false, close: true }
    );
    let third = runs.start();
    assert_eq!(
        download_ended(&runs, third, Phase::Working, &Some("0x80072EE2".into()), "2.0"),
        AfterDownload::Fail("Could not reach the download: the connection timed out.".into())
    );
}

#[test]
fn there_must_be_a_version_to_install() {
    assert_eq!(version_to_install(&settings(true, 1, "")), Err("There is no version to install."));
    assert_eq!(version_to_install(&settings(true, 1, "2.1")), Ok("2.1".to_string()));
}

/// Making a sentence of a sentence changes nothing.
#[test]
fn a_sentence_is_one_already() {
    for said in ["  it broke \n", "did it?", "", "0x80072EE7", "a", "\u{b5}m", "stra\u{df}e!"] {
        let once = sentence(said);
        assert_eq!(sentence(&once), once);
        assert_eq!(once.trim(), once);
    }
    assert_eq!(sentence("zebra"), "Zebra.");
    assert_eq!(sentence("[a]"), "[a].");
    assert_eq!(sentence("{a}"), "{a}.");
}
