use kuvatin::gather::{Action, Gather, Stage};
use kuvatin::paths::{FilePath, Part};
use kuvatin::rendezvous::{
    claim_step, entry_names, group_dir, read_spool, spool_body, ClaimStep, LockTry, Role, STALE,
};
use kuvatin::utf16::decode;
use std::collections::BTreeMap;

const MS: u64 = 1_000_000;

fn p(s: &str) -> FilePath {
    FilePath {
        parts: vec![Part::Name(s.chars().map(|c| c as u32).collect())],
    }
}

fn leader_paths(role: &Role) -> Option<&Vec<FilePath>> {
    match role {
        Role::Leader(v) => Some(v),
        Role::Follower => None,
    }
}

/// The directory of a group: its lock, and its entries with what they hold,
/// each with the time it was made.
#[derive(Default)]
struct Dir {
    lock: Option<u64>,
    entries: BTreeMap<String, (u64, String)>,
}

impl Dir {
    fn count(&self) -> usize {
        self.entries.len()
    }
}

/// A process that meets others.
struct Process {
    gather: Gather,
    pid: u32,
    paths: Vec<String>,
    next: u64,
}

fn process(pid: u32, paths: &[&str], arrives: u64, quiet: u64) -> Process {
    Process {
        gather: Gather::new(paths.iter().map(|s| p(s)).collect(), quiet),
        pid,
        paths: paths.iter().map(|s| s.to_string()).collect(),
        next: arrives,
    }
}

/// One action of a process, at `now`.
fn act(me: &mut Process, dir: &mut Dir, now: u64) {
    me.next = now + MS;
    match me.gather.action() {
        Action::Spool => {
            let units: Vec<Vec<u16>> = me
                .paths
                .iter()
                .map(|s| s.encode_utf16().collect())
                .collect();
            let name = entry_names(me.pid, 0, now as u128).entry;
            dir.entries.insert(name, (now, spool_body(&units)));
            me.gather.spooled(true);
        }
        Action::TryLock => {
            let attempt = match dir.lock {
                None => {
                    dir.lock = Some(now);
                    LockTry::Created
                }
                Some(made) => LockTry::Held {
                    age: Some(now - made),
                },
            };
            me.gather.tried(attempt, now, dir.count());
        }
        Action::Retire => {
            if dir.lock.map_or(false, |made| now - made > STALE) {
                dir.lock = None;
            }
            me.gather.retired();
        }
        Action::Count => {
            me.next = now + 40 * MS;
            me.gather.counted(now, dir.count());
        }
        Action::Sweep => {
            let mut claimed = Vec::new();
            let all: Vec<String> = dir.entries.keys().cloned().collect();
            for name in all {
                let made = dir.entries[&name].0;
                match claim_step(&p(&name), Some(now - made)) {
                    ClaimStep::Leave => {}
                    ClaimStep::Delete => {
                        dir.entries.remove(&name);
                    }
                    ClaimStep::Take => {
                        let (_, body) = dir.entries.remove(&name).unwrap();
                        for units in read_spool(&body) {
                            claimed.push(p(&decode(&units).unwrap()));
                        }
                    }
                }
            }
            me.gather.swept(claimed);
        }
        Action::Release => {
            dir.lock = None;
            me.gather.released();
        }
        Action::Stop => unreachable!(),
    }
}

/// Let the processes meet until all are done; the earliest goes first.
fn meet(mut all: Vec<Process>, dir: &mut Dir) -> Vec<Role> {
    loop {
        let waiting = all
            .iter_mut()
            .filter(|q| q.gather.action() != Action::Stop)
            .min_by_key(|q| q.next);
        match waiting {
            Some(me) => {
                let now = me.next;
                act(me, dir, now);
            }
            None => break,
        }
    }
    all.iter().map(|q| q.gather.role().unwrap()).collect()
}

/// Eight processes arrive in a staggered burst (like Explorer's
/// CreateProcess loop): exactly one leads and it holds every path, no
/// path is lost or duplicated, and nothing is left behind.
#[test]
fn a_burst_of_processes_yields_one_leader_holding_every_path() {
    let mut dir = Dir::default();
    let all = (0..8)
        .map(|i| {
            process(
                i,
                &[&format!("C:/img/{i}.png")],
                i as u64 * 15 * MS,
                250 * MS,
            )
        })
        .collect();
    let roles = meet(all, &mut dir);
    let mut union: Vec<FilePath> = roles
        .iter()
        .filter_map(leader_paths)
        .flatten()
        .cloned()
        .collect();
    let mut expect: Vec<FilePath> = (0..8).map(|i| p(&format!("C:/img/{i}.png"))).collect();
    let by_text = |a: &FilePath, b: &FilePath| a.file_name().cmp(&b.file_name());
    union.sort_by(by_text);
    expect.sort_by(by_text);
    assert_eq!(union, expect, "every path exactly once: {roles:?}");
    let busy_leaders = roles
        .iter()
        .filter(|r| leader_paths(r).map_or(false, |v| !v.is_empty()))
        .count();
    assert_eq!(busy_leaders, 1, "one batch, not several: {roles:?}");
    assert_eq!(dir.count(), 0, "spool drained");
    assert!(dir.lock.is_none(), "lock released");
}

/// Two processes that both judge a lock stale must not both lead: only
/// the rename winner retires it, the other follows.
#[test]
fn a_stale_lock_is_retired_by_exactly_one_process() {
    let mut dir = Dir {
        lock: Some(0),
        ..Dir::default()
    };
    let all = (0..4)
        .map(|i| process(i, &[&format!("{i}.png")], 120_000 * MS, 200 * MS))
        .collect();
    let roles = meet(all, &mut dir);
    let leaders = roles
        .iter()
        .filter(|r| leader_paths(r).map_or(false, |v| !v.is_empty()))
        .count();
    assert_eq!(leaders, 1, "one leader despite the stale lock: {roles:?}");
}

/// Different groups (presets) never merge, even when concurrent.
#[test]
fn groups_are_isolated() {
    assert_ne!(group_dir("preset:A"), group_dir("preset:B"));
    let (mut a, mut b) = (Dir::default(), Dir::default());
    assert_eq!(
        meet(vec![process(1, &["a.png"], 0, 120 * MS)], &mut a),
        vec![Role::Leader(vec![p("a.png")])]
    );
    assert_eq!(
        meet(vec![process(2, &["b.png"], 0, 120 * MS)], &mut b),
        vec![Role::Leader(vec![p("b.png")])]
    );
}

/// A lock left by a crashed leader is taken over; a live lock is respected.
#[test]
fn a_crashed_leaders_lock_is_taken_over_but_a_live_one_is_not() {
    let mut dir = Dir {
        lock: Some(0),
        ..Dir::default()
    };
    let now = 120_000 * MS;
    assert_eq!(
        meet(vec![process(1, &["a.png"], now, 50 * MS)], &mut dir),
        vec![Role::Leader(vec![p("a.png")])]
    );
    dir.lock = Some(now);
    assert_eq!(
        meet(vec![process(2, &["b.png"], now, 50 * MS)], &mut dir),
        vec![Role::Follower]
    );
}

/// Spool debris from a crashed run must not be silently converted later.
#[test]
fn stale_spool_debris_is_discarded_not_batched() {
    let mut dir = Dir::default();
    dir.entries.insert(
        "999-0-0.paths".into(),
        (0, "C:/old/forgotten.png".to_string()),
    );
    let roles = meet(
        vec![process(1, &["new.png"], 120_000 * MS, 50 * MS)],
        &mut dir,
    );
    assert_eq!(roles, vec![Role::Leader(vec![p("new.png")])]);
    assert_eq!(dir.count(), 0, "debris deleted");
}

/// One that spools while a leader holds the lock leaves its entry to the
/// leader's last sweep.
#[test]
fn the_last_sweep_takes_what_came_before_the_release() {
    let mut dir = Dir::default();
    let mut first = process(1, &["a.png"], 0, 50 * MS);
    while first.gather.stage != Stage::Releasing {
        let now = first.next;
        act(&mut first, &mut dir, now);
    }
    let mut late = process(2, &["b.png"], first.next, 50 * MS);
    let now = late.next;
    act(&mut late, &mut dir, now);
    act(&mut late, &mut dir, now);
    assert_eq!(late.gather.role(), Some(Role::Follower));
    let roles = meet(vec![first], &mut dir);
    assert_eq!(roles, vec![Role::Leader(vec![p("a.png"), p("b.png")])]);
}

/// Never fails: one that cannot spool runs its own paths alone.
#[test]
fn without_a_spool_a_process_runs_alone() {
    let mut g = Gather::new(vec![p("b.png"), p("a.png")], 50 * MS);
    assert!(g.role().is_none());
    g.spooled(false);
    assert_eq!(g.action(), Action::Stop);
    assert_eq!(
        g.role(),
        Some(Role::Leader(vec![p("b.png"), p("a.png")]))
    );
}

/// One that spooled in time but came to the lock when the leader was done leads
/// an empty batch.
#[test]
fn a_leader_after_the_batch_finds_nothing() {
    let mut dir = Dir::default();
    let mut first = process(1, &["b.png"], 0, 50 * MS);
    let mut slow = process(2, &["a.png", "b.png"], 0, 50 * MS);
    act(&mut first, &mut dir, 0);
    act(&mut slow, &mut dir, 0);
    let roles = meet(vec![first], &mut dir);
    assert_eq!(roles, vec![Role::Leader(vec![p("a.png"), p("b.png")])]);
    let roles = meet(vec![slow], &mut dir);
    assert_eq!(roles, vec![Role::Leader(vec![])]);
    assert!(dir.count() == 0 && dir.lock.is_none());
}

/// A call that comes when the ones before it are done starts its own batch.
#[test]
fn a_later_call_is_a_batch_of_its_own() {
    let mut dir = Dir::default();
    let early = meet(vec![process(1, &["a.png"], 0, 50 * MS)], &mut dir);
    let late = meet(vec![process(2, &["b.png"], 900 * MS, 50 * MS)], &mut dir);
    assert_eq!(early, vec![Role::Leader(vec![p("a.png")])]);
    assert_eq!(late, vec![Role::Leader(vec![p("b.png")])]);
}

/// One that spooled between the leader's claims and its release, and came to the
/// lock when the leader's last sweep was over, leads an empty batch too.
#[test]
fn one_that_spooled_before_the_release_is_in_the_batch() {
    let mut dir = Dir::default();
    let mut first = process(1, &["b.png"], 0, 50 * MS);
    while first.gather.stage != Stage::Releasing {
        let now = first.next;
        act(&mut first, &mut dir, now);
    }
    let now = first.next;
    let mut late = process(2, &["a.png"], now, 50 * MS);
    act(&mut late, &mut dir, now);
    let roles = meet(vec![first], &mut dir);
    assert_eq!(roles, vec![Role::Leader(vec![p("a.png"), p("b.png")])]);
    late.next = now + 10 * MS;
    let roles = meet(vec![late], &mut dir);
    assert_eq!(roles, vec![Role::Leader(vec![])]);
    assert!(dir.count() == 0 && dir.lock.is_none());
}
