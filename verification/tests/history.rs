use kuvatin::history::{History, Step, MAX_STEPS};

/// A step that changes the value named `what` from `before` to `after`.
#[derive(Debug, Clone, PartialEq)]
struct Change {
    what: &'static str,
    before: i32,
    after: i32,
    merges: bool,
}

fn set(what: &'static str, before: i32, after: i32) -> Change {
    Change {
        what,
        before,
        after,
        merges: true,
    }
}

impl Step for Change {
    fn describe(&self) -> String {
        format!("change of {}", self.what)
    }
    fn merges_with(&self, newer: &Self) -> bool {
        self.merges && newer.merges && self.what == newer.what
    }
    fn absorb(&mut self, newer: Self) {
        self.after = newer.after;
    }
    fn is_empty(&self) -> bool {
        self.before == self.after
    }
}

/// A moment, in nanoseconds.
fn at(ms: u64) -> u64 {
    7_000_000_000 + ms * 1_000_000
}

#[test]
fn undo_and_redo_walk_the_steps_in_order() {
    let mut h = History::new();
    h.record(set("a", 0, 1), at(0));
    h.record(set("b", 0, 1), at(5000));
    assert_eq!(h.peek_undo().map(|s| s.what), Some("b"));
    h.commit_undo();
    assert_eq!(h.peek_undo().map(|s| s.what), Some("a"));
    assert_eq!(h.peek_redo().map(|s| s.what), Some("b"));
    h.commit_redo(at(6000));
    assert_eq!(h.peek_undo().map(|s| s.what), Some("b"));
    assert!(!h.can_redo());
}

#[test]
fn a_new_step_clears_redo() {
    let mut h = History::new();
    h.record(set("a", 0, 1), at(0));
    h.commit_undo();
    assert!(h.can_redo());
    h.record(set("b", 0, 1), at(100));
    assert!(!h.can_redo());
}

#[test]
fn changes_to_the_same_thing_within_a_second_are_one_step() {
    let mut h = History::new();
    h.record(set("a", 0, 1), at(0));
    h.record(set("a", 1, 2), at(500));
    assert_eq!(h.peek_undo(), Some(&set("a", 0, 2)));
    h.commit_undo();
    assert!(!h.can_undo(), "one step, not two");
}

#[test]
fn a_change_at_exactly_one_second_is_a_new_step() {
    let mut h = History::new();
    h.record(set("a", 0, 1), at(0));
    h.record(set("a", 1, 2), at(1000));
    h.commit_undo();
    assert!(h.can_undo(), "two steps");
}

/// A slow, steady drag is one gesture: the window runs from the last change.
#[test]
fn the_window_runs_from_the_last_change_not_the_first() {
    let mut h = History::new();
    h.record(set("a", 0, 1), at(0));
    h.record(set("a", 1, 2), at(900));
    h.record(set("a", 2, 3), at(1800));
    assert_eq!(h.peek_undo(), Some(&set("a", 0, 3)));
}

/// A drag that ends where it began changed nothing, so it leaves no step.
#[test]
fn a_gesture_that_ends_where_it_began_leaves_no_step() {
    let mut h = History::new();
    h.record(set("a", 0, 1), at(0));
    h.record(set("a", 1, 0), at(400));
    assert!(!h.can_undo());
}

#[test]
fn changes_to_different_things_never_merge() {
    let mut h = History::new();
    h.record(set("a", 0, 1), at(0));
    h.record(set("b", 0, 1), at(100));
    h.commit_undo();
    assert!(h.can_undo(), "two steps");
}

/// Undo during a gesture, then carry on: the next change must not fold
/// into the step beneath the undone one, even inside the merge window.
#[test]
fn a_change_right_after_an_undo_is_its_own_step() {
    let mut h = History::new();
    h.record(set("a", 0, 1), at(0));
    h.record(set("b", 0, 1), at(100));
    h.commit_undo();
    h.record(set("a", 1, 2), at(200));
    assert_eq!(h.peek_undo(), Some(&set("a", 1, 2)));
    h.commit_undo();
    assert_eq!(h.peek_undo(), Some(&set("a", 0, 1)));
}

#[test]
fn the_oldest_step_goes_when_the_cap_is_reached() {
    let mut h = History::new();
    for i in 0..=(MAX_STEPS as i32) {
        let mut s = set("a", i, i + 1);
        s.merges = false;
        h.record(s, at(i as u64));
    }
    let mut undone = Vec::new();
    while let Some(s) = h.peek_undo() {
        undone.push(s.before);
        h.commit_undo();
    }
    assert_eq!(undone.len(), MAX_STEPS);
    assert_eq!(*undone.last().unwrap(), 1, "step 0 was dropped");
}

#[test]
fn a_step_that_changed_nothing_is_ignored() {
    let mut h = History::new();
    h.record(set("a", 3, 3), at(0));
    assert!(!h.can_undo());
    // ...and it leaves redo alone: re-applying a crop that is already
    // there must not throw away what could be redone.
    h.record(set("a", 0, 1), at(100));
    h.commit_undo();
    h.record(set("a", 0, 0), at(200));
    assert!(h.can_redo());
}

/// Undo is two-phase: until the caller says the step was applied, it stays.
#[test]
fn an_undo_that_was_never_committed_leaves_the_step_in_place() {
    let mut h = History::new();
    h.record(set("a", 0, 1), at(0));
    let _ = h.peek_undo();
    assert!(h.can_undo());
    assert!(!h.can_redo());
}

#[test]
fn the_hints_name_the_step() {
    let mut h: History<Change> = History::new();
    assert_eq!(h.undo_hint(), "Nothing to undo");
    assert_eq!(h.redo_hint(), "Nothing to redo");
    h.record(set("volume", 0, 1), at(0));
    assert_eq!(h.undo_hint(), "Undo change of volume");
    h.commit_undo();
    assert_eq!(h.redo_hint(), "Redo change of volume");
}

#[test]
fn clear_empties_both_stacks() {
    let mut h = History::new();
    h.record(set("a", 0, 1), at(0));
    h.record(set("b", 0, 1), at(2000));
    h.commit_undo();
    h.clear();
    assert!(!h.can_undo() && !h.can_redo());
}

#[test]
fn every_step_on_both_stacks_can_be_rewritten() {
    let mut h = History::new();
    h.record(set("a", 0, 1), at(0));
    h.record(set("b", 0, 1), at(5000));
    h.commit_undo();
    h.steps_mut(|mut s: Change| {
        s.what = "c";
        s
    });
    assert_eq!(h.peek_undo().map(|s| s.what), Some("c"));
    assert_eq!(h.peek_redo().map(|s| s.what), Some("c"));
}

/// A gesture that cancels itself out between an undo and the next change
/// must not let that change merge into the step beneath: the seal holds.
#[test]
fn a_cancelled_gesture_keeps_the_seal() {
    let mut h = History::new();
    h.record(set("a", 0, 1), at(0));
    h.record(set("b", 0, 1), at(100));
    h.commit_undo();
    h.record(set("c", 0, 1), at(200));
    h.record(set("c", 1, 0), at(300));
    h.record(set("a", 1, 2), at(400));
    assert_eq!(h.peek_undo(), Some(&set("a", 1, 2)));
    h.commit_undo();
    assert_eq!(h.peek_undo(), Some(&set("a", 0, 1)));
}

#[test]
fn a_sealed_history_starts_a_new_step() {
    let mut h = History::new();
    h.record(set("a", 0, 1), at(0));
    h.seal();
    h.record(set("a", 1, 2), at(100));
    h.commit_undo();
    assert!(h.can_undo(), "two steps");
}

/// What an undo takes back, a redo brings forth again, and the other way round.
#[test]
fn undo_and_redo_take_each_other_back() {
    let mut h = History::new();
    h.record(set("a", 0, 1), at(0));
    h.record(set("b", 0, 1), at(2000));
    h.commit_undo();
    h.commit_redo(at(3000));
    assert_eq!(h.peek_undo(), Some(&set("b", 0, 1)));
    h.commit_undo();
    assert_eq!(h.peek_redo(), Some(&set("b", 0, 1)));
    assert_eq!(h.peek_undo(), Some(&set("a", 0, 1)));
}

/// An undo of nothing changes nothing but that the next change stands alone.
#[test]
fn an_empty_history_has_nothing_to_commit() {
    let mut h: History<Change> = History::default();
    h.commit_undo();
    h.commit_redo(at(0));
    assert!(!h.can_undo() && !h.can_redo());
    h.record(set("a", 0, 1), at(10));
    assert_eq!(h.peek_undo(), Some(&set("a", 0, 1)));
}

/// Walking back gives the newest steps, newest first.
#[test]
fn walking_back_gives_the_newest_steps() {
    for n in [1, 3, MAX_STEPS as i32, MAX_STEPS as i32 + 50] {
        let mut h = History::new();
        for i in 0..n {
            let mut s = set("a", i, i + 1);
            s.merges = false;
            h.record(s, at(i as u64));
        }
        let mut undone = Vec::new();
        while let Some(s) = h.peek_undo() {
            undone.push(s.before);
            h.commit_undo();
        }
        let kept = n.min(MAX_STEPS as i32);
        assert_eq!(undone, (n - kept..n).rev().collect::<Vec<i32>>());
    }
}
