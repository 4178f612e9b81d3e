use kuvatin::paths::{FilePath, Part};
use kuvatin::rendezvous::{
    claim_step, coalesce, decode_path, encode_path, entry_names, group_dir, hash_dir,
    is_spool_entry, is_stale, lead, lock_step, own_name, preset_group, read_spool, spool_body,
    ClaimStep, LockStep, LockTry, Role, Settling, FIRST_ARRIVAL_GRACE, QUIET, STALE,
};
use kuvatin::utf16::{decode, encode};

fn p(name: &str) -> FilePath {
    FilePath {
        parts: vec![Part::Name(name.chars().map(|c| c as u32).collect())],
    }
}

fn leader_paths(role: &Role) -> Option<&Vec<FilePath>> {
    match role {
        Role::Leader(v) => Some(v),
        Role::Follower => None,
    }
}

fn units(text: &str) -> Vec<u16> {
    text.encode_utf16().collect()
}

const MS: u64 = 1_000_000;

/// Non-ASCII paths (and several per process) survive the spool round trip,
/// as does a name starting with the escape character.
#[test]
fn paths_round_trip_verbatim() {
    let mine = vec![
        units("C:/Työt/kuva ä.png"),
        units("D:/render/frame_0001.exr"),
        units("#w:not-hex.png"),
    ];
    assert_eq!(read_spool(&spool_body(&mine)), mine);
}

/// A path that isn't valid Unicode (an unpaired surrogate in an NTFS name)
/// used to come back as a `U+FFFD` look-alike that doesn't exist.
#[test]
fn a_non_unicode_path_survives_the_spool() {
    let units: Vec<u16> = "C:\\odd\\"
        .encode_utf16()
        .chain([0xD800, 'x' as u16])
        .collect();
    assert!(decode(&units).is_none(), "fixture must be non-Unicode");
    let line = encode_path(&units);
    assert!(line.starts_with("#w:"), "{line}");
    assert_eq!(decode_path(&line), units);
    assert_eq!(read_spool(&spool_body(&vec![units.clone()])), vec![units]);
}

#[test]
fn a_plain_path_is_spooled_as_it_is() {
    assert_eq!(encode_path(&units("C:/img/1.png")), "C:/img/1.png");
    assert_eq!(decode_path("C:/img/1.png"), units("C:/img/1.png"));
    assert_eq!(encode_path(&units("#1.png")), "#u:#1.png");
    assert_eq!(decode_path(&encode_path(&units("#1.png"))), units("#1.png"));
    assert_eq!(decode_path("#w:0041zzzz004"), vec![0x41], "what is no unit");
}

#[test]
fn empty_lines_of_a_spool_entry_are_nothing() {
    assert_eq!(
        read_spool("a.png\n\nb.png\r\n"),
        vec![units("a.png"), units("b.png")]
    );
    assert!(read_spool("").is_empty());
}

/// A single right-click shouldn't wait out the whole quiet window: with
/// no second arrival, the leader goes ahead after the grace period.
#[test]
fn a_lone_arrival_does_not_wait_the_full_quiet_window() {
    let quiet = 1500 * MS;
    let mut s = Settling::new(0, 1, quiet);
    assert!(!s.look(FIRST_ARRIVAL_GRACE - 1, 1));
    assert!(s.look(FIRST_ARRIVAL_GRACE, 1));
    assert!(FIRST_ARRIVAL_GRACE < 900 * MS);
    assert_eq!(
        leader_paths(&lead(&vec![p("only.png")])),
        Some(&vec![p("only.png")])
    );
}

/// While arrivals keep coming the batch stays open, and it closes once they
/// have been quiet for the whole window.
#[test]
fn a_burst_stays_open_until_it_is_quiet() {
    let mut s = Settling::new(0, 1, QUIET);
    let mut now = 0;
    for count in 2..9 {
        now += 200 * MS;
        assert!(!s.look(now, count), "{count}");
    }
    assert!(!s.look(now + QUIET - 1, 8));
    assert!(s.look(now + QUIET, 8));
}

/// Sequential runs are independent batches — nothing carries over.
#[test]
fn a_later_run_starts_its_own_batch() {
    assert_eq!(
        leader_paths(&lead(&vec![p("a.png")])),
        Some(&vec![p("a.png")])
    );
    assert_eq!(
        leader_paths(&lead(&vec![p("b.png")])),
        Some(&vec![p("b.png")])
    );
}

/// Eight arrivals make one batch that holds every path once, in order.
#[test]
fn a_batch_holds_every_path_once() {
    let arrived: Vec<FilePath> = [3, 1, 0, 2, 1, 3]
        .iter()
        .map(|i| p(&format!("{i}.png")))
        .collect();
    let all = coalesce(lead(&arrived)).unwrap();
    let expect: Vec<FilePath> = (0..4).map(|i| p(&format!("{i}.png"))).collect();
    assert_eq!(all, expect);
    assert!(coalesce(lead(&Vec::new())).is_none(), "all claimed already");
    assert!(coalesce(Role::Follower).is_none());
}

/// Different groups (presets) never merge: each has a directory of its own.
#[test]
fn groups_have_their_own_directories() {
    assert_ne!(
        group_dir(&preset_group("A")),
        group_dir(&preset_group("B"))
    );
    assert_eq!(group_dir("open"), group_dir("open"));
    assert_eq!(group_dir("open").len(), 16);
    assert_eq!(hash_dir(0xab), "00000000000000ab");
    assert_eq!(hash_dir(u64::MAX), "ffffffffffffffff");
    assert_eq!(preset_group("Web"), "preset:Web");
}

/// A lock left by a crashed leader is retired, once; a live one is respected.
#[test]
fn only_a_stale_lock_is_retired() {
    assert_eq!(lock_step(LockTry::Created, false), LockStep::Lead);
    let old = LockTry::Held {
        age: Some(120 * 1000 * MS),
    };
    assert_eq!(lock_step(old, false), LockStep::Retire);
    assert_eq!(lock_step(old, true), LockStep::Follow);
    let live = LockTry::Held { age: Some(MS) };
    assert_eq!(lock_step(live, false), LockStep::Follow);
    assert_eq!(
        lock_step(LockTry::Held { age: None }, false),
        LockStep::Follow
    );
    assert_eq!(lock_step(LockTry::Failed, true), LockStep::Lead);
    assert!(!is_stale(Some(STALE)) && is_stale(Some(STALE + 1)));
}

/// Spool debris from a crashed run must not be silently converted later.
#[test]
fn stale_entries_are_deleted_and_fresh_ones_taken() {
    let entry = p("999-0-0.paths");
    assert!(is_spool_entry(&entry));
    assert_eq!(claim_step(&entry, Some(120 * 1000 * MS)), ClaimStep::Delete);
    assert_eq!(claim_step(&entry, Some(MS)), ClaimStep::Take);
    assert_eq!(claim_step(&entry, None), ClaimStep::Take);
    assert_eq!(claim_step(&p("999-0-0.tmp"), None), ClaimStep::Leave);
    assert_eq!(claim_step(&p("lock"), None), ClaimStep::Leave);
}

#[test]
fn entries_are_named_after_their_process() {
    let names = entry_names(999, 3, 340_282_366_920_938_463_463_374_607_431_768_211_455);
    assert_eq!(
        names.entry,
        "999-3-340282366920938463463374607431768211455.paths"
    );
    assert_eq!(
        names.temporary,
        "999-3-340282366920938463463374607431768211455.tmp"
    );
    assert_eq!(entry_names(1, 0, 0).entry, "1-0-0.paths");
    assert_eq!(own_name("claim", 7, 2), "claim-7-2");
}

#[test]
fn units_and_text_are_each_others() {
    for text in ["", "abc", "Työt ä", "\u{1F600} x \u{10FFFF}", "\u{FFFF}\u{E000}"] {
        assert_eq!(encode(text), units(text));
        assert_eq!(decode(&units(text)).as_deref(), Some(text));
    }
    assert_eq!(decode(&vec![0xDC00]), None);
    assert_eq!(decode(&vec![0xD83D, 0x41]), None);
    assert_eq!(decode(&vec![0x41, 0xD83D]), None);
}
