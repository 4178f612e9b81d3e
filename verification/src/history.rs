//! Undo and redo, as a pair of stacks that knows nothing about what a step
//! does. Each mode supplies its own step type (the timeline's clip records,
//! Images mode's files and crops) and applies a step itself; this decides what
//! a new step merges into, when the oldest is dropped, and what the buttons say.

use crate::text::concat;
use std::collections::VecDeque;
use vstd::prelude::*;

verus! {

/// Steps kept per history. Enough to walk back through an evening's editing,
/// and bounded, because a step can hold thumbnails.
pub const MAX_STEPS: usize = 200;

/// How close together two changes of the same kind to the same thing must be
/// to count as one gesture, in nanoseconds: a slider drag, a mouse drag, a
/// held arrow key.
pub const MERGE_WINDOW: u64 = 1_000_000_000;

/// What a history needs from a step.
pub trait Step: Sized {
    /// The noun phrase that [`Self::describe`] gives.
    open spec fn phrase(&self) -> Seq<char> {
        arbitrary()
    }

    /// Whether `newer` continues the gesture of this step.
    open spec fn continued_by(&self, newer: &Self) -> bool {
        arbitrary()
    }

    /// Whether `all` is this step with `newer` folded into it.
    open spec fn folds(&self, newer: &Self, all: &Self) -> bool {
        arbitrary()
    }

    /// Whether the step changed nothing.
    open spec fn changed_nothing(&self) -> bool {
        arbitrary()
    }

    /// A noun phrase for the buttons: "trim of intro.mp4", "adding 3 files".
    fn describe(&self) -> (r: String)
        ensures
            r@ == self.phrase(),
    ;

    /// Whether `newer`, recorded straight after this step, continues the same
    /// gesture. The history adds the timing condition itself.
    fn merges_with(&self, newer: &Self) -> (r: bool)
        ensures
            r == self.continued_by(newer),
    ;

    /// Fold `newer` into this step: keep this step's "before", take `newer`'s
    /// "after".
    fn absorb(&mut self, newer: Self)
        ensures
            old(self).folds(&newer, final(self)),
    ;

    /// A step that changed nothing. The history ignores it.
    fn is_empty(&self) -> (r: bool)
        ensures
            r == self.changed_nothing(),
    ;
}

/// One mode's undo and redo stacks.
pub struct History<S> {
    /// Oldest first, each step with the time it last changed.
    undo: VecDeque<(S, u64)>,
    redo: Vec<S>,
    /// Set by an undo, a redo, [`Self::seal`], or a merge that emptied the top
    /// step; cleared by the next non-empty record. A change made right after
    /// an undo is a new step, never part of the one before it.
    sealed: bool,
}

/// What a history holds.
#[verifier::ext_equal]
pub struct Stacks<S> {
    /// The steps that can be undone, oldest first, with their times.
    pub undo: Seq<(S, u64)>,
    /// The steps that can be redone, the next one last.
    pub redo: Seq<S>,
    pub sealed: bool,
}

impl<S> View for History<S> {
    type V = Stacks<S>;

    closed spec fn view(&self) -> Stacks<S> {
        Stacks { undo: self.undo@, redo: self.redo@, sealed: self.sealed }
    }
}

/// The steps with `step` on top, without the oldest where they are too many.
pub open spec fn pushed<S>(undo: Seq<(S, u64)>, step: S, now: u64) -> Seq<(S, u64)> {
    let all = undo.push((step, now));
    if all.len() > MAX_STEPS {
        all.drop_first()
    } else {
        all
    }
}

impl<S: Step> Stacks<S> {
    /// No history is longer than [`MAX_STEPS`].
    pub open spec fn bounded(self) -> bool {
        self.undo.len() <= MAX_STEPS
    }

    /// Whether a step recorded now goes into the one on top.
    pub open spec fn merges(self, step: S, now: u64) -> bool {
        &&& self.undo.len() > 0
        &&& !self.sealed
        &&& now - self.undo.last().1 < MERGE_WINDOW
        &&& self.undo.last().0.continued_by(&step)
    }

    /// Whether recording `step` now can leave `after`.
    pub open spec fn records(self, step: S, now: u64, after: Stacks<S>) -> bool {
        if step.changed_nothing() {
            after == self
        } else if self.merges(step, now) {
            exists|all: S| #[trigger] self.merged(step, now, all, after)
        } else {
            after == (Stacks { undo: pushed(self.undo, step, now), redo: seq![], sealed: false })
        }
    }

    /// The history after `step` went into the one on top, which became `all`.
    pub open spec fn merged(self, step: S, now: u64, all: S, after: Stacks<S>) -> bool {
        &&& self.undo.last().0.folds(&step, &all)
        &&& after == if all.changed_nothing() {
            Stacks { undo: self.undo.drop_last(), redo: seq![], sealed: true }
        } else {
            Stacks { undo: self.undo.drop_last().push((all, now)), redo: seq![], sealed: false }
        }
    }

    /// The history after its last step was undone.
    pub open spec fn undone(self) -> Stacks<S> {
        if self.undo.len() == 0 {
            Stacks { sealed: true, ..self }
        } else {
            Stacks {
                undo: self.undo.drop_last(),
                redo: self.redo.push(self.undo.last().0),
                sealed: true,
            }
        }
    }

    /// The history after the step last undone was done again.
    pub open spec fn redone(self, now: u64) -> Stacks<S> {
        if self.redo.len() == 0 {
            Stacks { sealed: true, ..self }
        } else {
            Stacks {
                undo: pushed(self.undo, self.redo.last(), now),
                redo: self.redo.drop_last(),
                sealed: true,
            }
        }
    }
}

impl<S: Step> History<S> {
    pub fn new() -> (r: Self)
        ensures
            r@ == (Stacks::<S> { undo: seq![], redo: seq![], sealed: false }),
            r@.bounded(),
    {
        History { undo: VecDeque::new(), redo: Vec::new(), sealed: false }
    }

    /// Add a step the caller has just applied. It merges into the step on top
    /// when that step continues the same gesture within [`MERGE_WINDOW`];
    /// otherwise it is pushed, dropping the oldest past [`MAX_STEPS`]. Any
    /// non-empty record clears redo. A step that merges back to nothing is
    /// removed, and the next change starts a step of its own.
    pub fn record(&mut self, step: S, now: u64)
        requires
            old(self)@.bounded(),
        ensures
            old(self)@.records(step, now, final(self)@),
            final(self)@.bounded(),
    {
        if step.is_empty() {
            return;
        }
        let ghost before = self@;
        self.redo.clear();
        let sealed = self.sealed;
        self.sealed = false;
        if let Some((top, last)) = self.undo.pop_back() {
            let recent = now.saturating_sub(last) < MERGE_WINDOW;
            if !sealed && recent && top.merges_with(&step) {
                let mut top = top;
                top.absorb(step);
                // A drag that ends where it began changed nothing after all.
                // It still separates what came before from what comes next,
                // so the next change must not merge across it.
                let ghost all = top;
                if top.is_empty() {
                    self.sealed = true;
                } else {
                    self.undo.push_back((top, now));
                }
                assert(before.merged(step, now, all, self@));
                return;
            }
            self.undo.push_back((top, last));
            assert(self.undo@ =~= before.undo);
        }
        self.push(step, now);
    }

    fn push(&mut self, step: S, now: u64)
        requires
            old(self)@.bounded(),
        ensures
            final(self)@ == (Stacks { undo: pushed(old(self)@.undo, step, now), ..old(self)@ }),
            final(self)@.bounded(),
    {
        self.undo.push_back((step, now));
        if self.undo.len() > MAX_STEPS {
            self.undo.pop_front();
        }
    }

    /// The step an undo would apply. Apply it, then call [`Self::commit_undo`];
    /// if applying failed, do not, and the step stays where it is.
    pub fn peek_undo(&self) -> (r: Option<&S>)
        ensures
            r == if self@.undo.len() == 0 {
                None
            } else {
                Some(&self@.undo.last().0)
            },
    {
        let n: usize = self.undo.len();
        if n == 0 {
            None
        } else {
            Some(&self.undo[n - 1].0)
        }
    }

    /// The step a redo would apply; the same two phases as undo.
    pub fn peek_redo(&self) -> (r: Option<&S>)
        ensures
            r == if self@.redo.len() == 0 {
                None
            } else {
                Some(&self@.redo.last())
            },
    {
        let n: usize = self.redo.len();
        if n == 0 {
            None
        } else {
            Some(&self.redo[n - 1])
        }
    }

    /// The step from [`Self::peek_undo`] was applied: move it to redo.
    pub fn commit_undo(&mut self)
        requires
            old(self)@.bounded(),
        ensures
            final(self)@ == old(self)@.undone(),
            final(self)@.bounded(),
    {
        if let Some((step, _)) = self.undo.pop_back() {
            self.redo.push(step);
        }
        self.sealed = true;
    }

    /// The step from [`Self::peek_redo`] was applied: move it back to undo.
    pub fn commit_redo(&mut self, now: u64)
        requires
            old(self)@.bounded(),
        ensures
            final(self)@ == old(self)@.redone(now),
            final(self)@.bounded(),
    {
        if let Some(step) = self.redo.pop() {
            self.push(step, now);
        }
        self.sealed = true;
    }

    pub fn can_undo(&self) -> (r: bool)
        ensures
            r == (self@.undo.len() > 0),
    {
        self.undo.len() > 0
    }

    pub fn can_redo(&self) -> (r: bool)
        ensures
            r == (self@.redo.len() > 0),
    {
        self.redo.len() > 0
    }

    /// "Undo trim of intro.mp4", or "Nothing to undo".
    pub fn undo_hint(&self) -> (r: String)
        ensures
            r@ == if self@.undo.len() == 0 {
                "Nothing to undo"@
            } else {
                "Undo "@ + self@.undo.last().0.phrase()
            },
    {
        match self.peek_undo() {
            Some(step) => concat("Undo ", step.describe().as_str()),
            None => String::from_str("Nothing to undo"),
        }
    }

    /// "Redo trim of intro.mp4", or "Nothing to redo".
    pub fn redo_hint(&self) -> (r: String)
        ensures
            r@ == if self@.redo.len() == 0 {
                "Nothing to redo"@
            } else {
                "Redo "@ + self@.redo.last().phrase()
            },
    {
        match self.peek_redo() {
            Some(step) => concat("Redo ", step.describe().as_str()),
            None => String::from_str("Nothing to redo"),
        }
    }

    pub fn clear(&mut self)
        ensures
            final(self)@ == (Stacks::<S> { undo: seq![], redo: seq![], sealed: false }),
            final(self)@.bounded(),
    {
        self.undo.clear();
        self.redo.clear();
        self.sealed = false;
    }

    /// Make the next change a step of its own, whatever it is. For a caller
    /// whose undo or redo failed partway: the step on top no longer matches
    /// what is on screen, so nothing may merge into it.
    pub fn seal(&mut self)
        ensures
            final(self)@ == (Stacks { sealed: true, ..old(self)@ }),
    {
        self.sealed = true;
    }

    /// Every step on both stacks, rewritten by `f`, for a handle that changed
    /// (a clip restored under a new ID).
    pub fn steps_mut<F: Fn(S) -> S>(&mut self, f: F)
        requires
            forall|s: S| call_requires(f, (s,)),
        ensures
            final(self)@.sealed == old(self)@.sealed,
            final(self)@.undo.len() == old(self)@.undo.len(),
            forall|i: int|
                0 <= i < old(self)@.undo.len() ==> {
                    &&& call_ensures(f, (old(self)@.undo[i].0,), (#[trigger] final(self)@.undo[i]).0)
                    &&& final(self)@.undo[i].1 == old(self)@.undo[i].1
                },
            final(self)@.redo.len() == old(self)@.redo.len(),
            forall|i: int|
                0 <= i < old(self)@.redo.len() ==> call_ensures(
                    f,
                    (old(self)@.redo[i],),
                    #[trigger] final(self)@.redo[i],
                ),
    {
        let ghost before = self@;
        let mut undo: VecDeque<(S, u64)> = VecDeque::new();
        let mut i: usize = 0;
        let n: usize = self.undo.len();
        while i < n
            invariant
                i <= n,
                n == before.undo.len(),
                self@ == (Stacks { undo: before.undo.skip(i as int), ..before }),
                forall|s: S| call_requires(f, (s,)),
                undo@.len() == i,
                forall|j: int|
                    0 <= j < i ==> {
                        &&& call_ensures(f, (before.undo[j].0,), (#[trigger] undo@[j]).0)
                        &&& undo@[j].1 == before.undo[j].1
                    },
            decreases n - i,
        {
            assert(before.undo.skip(i as int)[0] == before.undo[i as int]);
            if let Some((step, at)) = self.undo.pop_front() {
                assert(self.undo@ =~= before.undo.skip(i + 1));
                undo.push_back((f(step), at));
            }
            i += 1;
        }
        self.undo = undo;
        let mut redo: Vec<S> = Vec::new();
        let mut old_redo: Vec<S> = Vec::new();
        core::mem::swap(&mut self.redo, &mut old_redo);
        while old_redo.len() > 0
            invariant
                forall|s: S| call_requires(f, (s,)),
                old_redo.len() + redo.len() == before.redo.len(),
                old_redo@ == before.redo.take(old_redo@.len() as int),
                forall|j: int|
                    0 <= j < redo@.len() ==> call_ensures(
                        f,
                        (before.redo[before.redo.len() - 1 - j],),
                        #[trigger] redo@[j],
                    ),
                self.redo@.len() == 0,
                self.undo@ == undo@,
                self.sealed == before.sealed,
            decreases old_redo.len(),
        {
            if let Some(step) = old_redo.pop() {
                redo.push(f(step));
            }
        }
        while redo.len() > 0
            invariant
                self.redo.len() + redo.len() == before.redo.len(),
                forall|j: int|
                    0 <= j < redo@.len() ==> call_ensures(
                        f,
                        (before.redo[before.redo.len() - 1 - j],),
                        #[trigger] redo@[j],
                    ),
                forall|j: int|
                    0 <= j < self.redo@.len() ==> call_ensures(
                        f,
                        (before.redo[j],),
                        #[trigger] self.redo@[j],
                    ),
                self.undo@ == undo@,
                self.sealed == before.sealed,
            decreases redo.len(),
        {
            if let Some(step) = redo.pop() {
                self.redo.push(step);
            }
        }
    }
}

impl<S: Step> Default for History<S> {
    fn default() -> (r: Self)
        ensures
            r@ == (Stacks::<S> { undo: seq![], redo: seq![], sealed: false }),
    {
        History::new()
    }
}

// ---------------------------------------------------------------------------
// Laws
// ---------------------------------------------------------------------------

/// Undoing a step and doing it again leaves the same steps in the same order
/// on both stacks; only the time of the step is new.
pub proof fn redo_undoes_an_undo<S: Step>(h: Stacks<S>, now: u64)
    requires
        h.bounded(),
        h.undo.len() > 0,
    ensures
        h.undone().redone(now).undo == h.undo.drop_last().push((h.undo.last().0, now)),
        h.undone().redone(now).redo == h.redo,
{
    assert(h.undone().redo.drop_last() =~= h.redo);
}

/// Doing a step again and undoing it leaves the same steps on both stacks, as
/// long as the step that came back did not push the oldest one out.
pub proof fn undo_undoes_a_redo<S: Step>(h: Stacks<S>, now: u64)
    requires
        h.undo.len() < MAX_STEPS,
        h.redo.len() > 0,
    ensures
        h.redone(now).undone().undo == h.undo,
        h.redone(now).undone().redo == h.redo,
{
    assert(h.redone(now).undone().undo =~= h.undo);
    assert(h.redone(now).undone().redo =~= h.redo);
}

/// A step that changed something clears what could be redone; one that changed
/// nothing leaves the whole history alone.
pub proof fn a_change_clears_redo<S: Step>(h: Stacks<S>, step: S, now: u64, after: Stacks<S>)
    requires
        h.records(step, now, after),
    ensures
        !step.changed_nothing() ==> after.redo.len() == 0,
        step.changed_nothing() ==> after == h,
{
}

/// After an undo, a redo or a seal the next change is a step of its own,
/// however soon it comes and whatever it is.
pub proof fn a_sealed_history_starts_a_new_step<S: Step>(
    h: Stacks<S>,
    step: S,
    now: u64,
    after: Stacks<S>,
)
    requires
        h.bounded(),
        h.sealed,
        !step.changed_nothing(),
        h.records(step, now, after),
    ensures
        after.undo == pushed(h.undo, step, now),
        after.undo.last() == (step, now),
{
}

/// A gesture that cancels itself out leaves the steps beneath it alone and
/// keeps the next change apart from them.
pub proof fn a_cancelled_gesture_keeps_the_seal<S: Step>(
    h: Stacks<S>,
    step: S,
    now: u64,
    after: Stacks<S>,
)
    requires
        !step.changed_nothing(),
        h.merges(step, now),
        h.records(step, now, after),
        after.undo.len() < h.undo.len(),
    ensures
        after.undo == h.undo.drop_last(),
        after.sealed,
{
    let all = choose|all: S| #[trigger] h.merged(step, now, all, after);
    assert(h.merged(step, now, all, after));
}

/// Two changes a second or more apart are two steps.
pub proof fn a_second_apart_is_a_new_step<S: Step>(
    h: Stacks<S>,
    step: S,
    now: u64,
    after: Stacks<S>,
)
    requires
        h.undo.len() > 0,
        now >= h.undo.last().1 + MERGE_WINDOW,
        !step.changed_nothing(),
        h.records(step, now, after),
    ensures
        after.undo == pushed(h.undo, step, now),
{
}

/// The steps that come back when everything is undone, in the order in which
/// they do: the one that an undo would apply, then those that come after it.
pub open spec fn walk_back<S: Step>(h: Stacks<S>) -> Seq<S>
    decreases h.undo.len(),
{
    if h.undo.len() == 0 {
        seq![]
    } else {
        seq![h.undo.last().0] + walk_back(h.undone())
    }
}

/// Whether recording step `i` can lead from state `i` to the next.
pub open spec fn recorded_at<S: Step>(
    states: Seq<Stacks<S>>,
    steps: Seq<(S, u64)>,
    i: int,
) -> bool {
    states[i].records(steps[i].0, steps[i].1, states[i + 1])
}

/// Whether a history can go from each of these states to the next by recording
/// these steps, each at its time.
pub open spec fn recorded<S: Step>(states: Seq<Stacks<S>>, steps: Seq<(S, u64)>) -> bool {
    &&& states.len() == steps.len() + 1
    &&& forall|i: int| 0 <= i < steps.len() ==> #[trigger] recorded_at(states, steps, i)
}

/// Whether step `i` changed something, and does not continue the gesture of the
/// one before it in time to merge with it.
pub open spec fn separate_at<S: Step>(steps: Seq<(S, u64)>, i: int) -> bool {
    &&& !steps[i].0.changed_nothing()
    &&& i > 0 ==> !(steps[i].1 - steps[i - 1].1 < MERGE_WINDOW && steps[i - 1].0.continued_by(
        &steps[i].0,
    ))
}

/// Whether each step changed something, and none merges with the one before it.
pub open spec fn separate<S: Step>(steps: Seq<(S, u64)>) -> bool {
    forall|i: int| 0 <= i < steps.len() ==> #[trigger] separate_at(steps, i)
}

/// How many of `n` steps a history keeps.
pub open spec fn kept(n: nat) -> nat {
    if n < MAX_STEPS {
        n
    } else {
        MAX_STEPS as nat
    }
}

/// A history that records step after step, none of which merges with the one
/// before it, keeps the newest [`MAX_STEPS`] of them: walking back gives those
/// and no others, the newest first.
pub proof fn the_newest_steps_are_kept<S: Step>(states: Seq<Stacks<S>>, steps: Seq<(S, u64)>)
    requires
        recorded(states, steps),
        separate(steps),
        states[0] == (Stacks::<S> { undo: seq![], redo: seq![], sealed: false }),
    ensures
        states.last().undo == steps.skip(steps.len() - kept(steps.len())),
        walk_back(states.last()) == Seq::new(
            kept(steps.len()),
            |i: int| steps[steps.len() - 1 - i].0,
        ),
{
    lemma_newest_kept(states, steps, steps.len());
    lemma_walk_back(states.last());
    assert(walk_back(states.last()) =~= Seq::new(
        kept(steps.len()),
        |i: int| steps[steps.len() - 1 - i].0,
    ));
}

/// What is on the stack after `n` of the steps.
proof fn lemma_newest_kept<S: Step>(states: Seq<Stacks<S>>, steps: Seq<(S, u64)>, n: nat)
    requires
        n <= steps.len(),
        recorded(states, steps),
        separate(steps),
        states[0] == (Stacks::<S> { undo: seq![], redo: seq![], sealed: false }),
    ensures
        states[n as int] == (Stacks::<S> {
            undo: steps.subrange(n - kept(n), n as int),
            redo: seq![],
            sealed: false,
        }),
    decreases n,
{
    if n == 0 {
        assert(steps.subrange(0, 0) =~= Seq::<(S, u64)>::empty());
    } else {
        let m = (n - 1) as nat;
        lemma_newest_kept(states, steps, m);
        let before = states[m as int];
        assert(recorded_at(states, steps, m as int));
        assert(separate_at(steps, m as int));
        if before.undo.len() > 0 {
            assert(before.undo.last() == steps[m - 1]);
        }
        assert(before.undo.push(steps[m as int]) =~= steps.subrange(m - kept(m), n as int));
        assert(states[n as int].undo =~= steps.subrange(n - kept(n), n as int));
    }
}

/// Walking back gives the steps on the stack, from the top.
proof fn lemma_walk_back<S: Step>(h: Stacks<S>)
    ensures
        walk_back(h) == Seq::new(h.undo.len(), |i: int| h.undo[h.undo.len() - 1 - i].0),
    decreases h.undo.len(),
{
    if h.undo.len() > 0 {
        lemma_walk_back(h.undone());
    }
    assert(walk_back(h) =~= Seq::new(h.undo.len(), |i: int| h.undo[h.undo.len() - 1 - i].0));
}

/// What recording does to the stacks. A step that changed nothing leaves them
/// alone. One that continues the gesture on top within a second, with no undo, redo
/// or seal since, goes into it: the step on top becomes one with both folded in, or
/// goes where the two cancel each other out. Any other goes on top of the steps
/// that are there, of which the oldest goes where they would be more than two
/// hundred. A step that changed something leaves nothing to redo.
pub proof fn a_step_goes_on_top_or_into_the_top<S: Step>(h: &mut History<S>, step: S, now: u64)
    requires
        call_ensures(History::<S>::record, (h, step, now), ()),
        old(h)@.undo.len() <= 200,
    ensures
        step.changed_nothing() ==> final(h)@ == old(h)@,
        !step.changed_nothing() ==> final(h)@.redo.len() == 0,
        ({
            let u = old(h)@.undo;
            let v = final(h)@.undo;
            let joins = u.len() > 0 && !old(h)@.sealed && now - u.last().1 < 1_000_000_000
                && u.last().0.continued_by(&step);
            &&& !step.changed_nothing() && joins ==> {
                ||| {
                    &&& v.len() == u.len()
                    &&& u.last().0.folds(&step, &v.last().0)
                    &&& v.last().1 == now && !v.last().0.changed_nothing()
                    &&& !final(h)@.sealed
                }
                ||| v.len() == u.len() - 1 && final(h)@.sealed
            }
            &&& !step.changed_nothing() && joins ==> forall|i: int|
                0 <= i < u.len() - 1 ==> (#[trigger] v[i]) == u[i]
            &&& !step.changed_nothing() && !joins && u.len() < 200 ==> {
                &&& v.len() == u.len() + 1
                &&& v.last() == (step, now)
                &&& !final(h)@.sealed
                &&& forall|i: int| 0 <= i < u.len() ==> (#[trigger] v[i]) == u[i]
            }
            &&& !step.changed_nothing() && !joins && u.len() == 200 ==> {
                &&& v.len() == 200
                &&& v.last() == (step, now)
                &&& !final(h)@.sealed
                &&& forall|i: int| 0 <= i < 199 ==> (#[trigger] v[i]) == u[i + 1]
            }
        }),
{
}

/// An undo takes the newest step off and makes it the next one to redo; nothing
/// else on either stack moves, and the next change is a step of its own.
pub proof fn an_undo_moves_one_step<S: Step>(h: &mut History<S>)
    requires
        call_ensures(History::<S>::commit_undo, (h,), ()),
    ensures
        final(h)@.sealed,
        old(h)@.undo.len() == 0 ==> final(h)@.undo == old(h)@.undo && final(h)@.redo == old(h)@.redo,
        old(h)@.undo.len() > 0 ==> {
            &&& final(h)@.undo.len() == old(h)@.undo.len() - 1
            &&& final(h)@.redo.len() == old(h)@.redo.len() + 1
            &&& final(h)@.redo.last() == old(h)@.undo.last().0
            &&& forall|i: int|
                0 <= i < old(h)@.undo.len() - 1 ==> (#[trigger] final(h)@.undo[i]) == old(h)@.undo[i]
            &&& forall|i: int|
                0 <= i < old(h)@.redo.len() ==> (#[trigger] final(h)@.redo[i]) == old(h)@.redo[i]
        },
{
}

/// A redo takes the step last undone and puts it on top of those to undo, with the
/// time of the redo; where those were two hundred the oldest goes.
pub proof fn a_redo_moves_one_step<S: Step>(h: &mut History<S>, now: u64)
    requires
        call_ensures(History::<S>::commit_redo, (h, now), ()),
        old(h)@.undo.len() <= 200,
    ensures
        final(h)@.sealed,
        old(h)@.redo.len() == 0 ==> final(h)@.undo == old(h)@.undo && final(h)@.redo == old(h)@.redo,
        old(h)@.redo.len() > 0 ==> {
            &&& final(h)@.redo.len() == old(h)@.redo.len() - 1
            &&& final(h)@.undo.len() == if old(h)@.undo.len() < 200 {
                old(h)@.undo.len() + 1
            } else {
                200
            }
            &&& final(h)@.undo.last() == (old(h)@.redo.last(), now)
            &&& forall|i: int|
                0 <= i < old(h)@.redo.len() - 1 ==> (#[trigger] final(h)@.redo[i]) == old(h)@.redo[i]
            &&& old(h)@.undo.len() < 200 ==> forall|i: int|
                0 <= i < old(h)@.undo.len() ==> (#[trigger] final(h)@.undo[i]) == old(h)@.undo[i]
        },
{
}

/// What is peeked at is what is committed next; a hint names that step, and says so
/// where there is none.
pub proof fn the_buttons_speak_of_the_next_step<S: Step>(
    h: &History<S>,
    undo: Option<&S>,
    redo: Option<&S>,
    can_undo: bool,
    can_redo: bool,
    undo_hint: String,
    redo_hint: String,
)
    requires
        call_ensures(History::<S>::peek_undo, (h,), undo),
        call_ensures(History::<S>::peek_redo, (h,), redo),
        call_ensures(History::<S>::can_undo, (h,), can_undo),
        call_ensures(History::<S>::can_redo, (h,), can_redo),
        call_ensures(History::<S>::undo_hint, (h,), undo_hint),
        call_ensures(History::<S>::redo_hint, (h,), redo_hint),
    ensures
        undo is Some <==> h@.undo.len() > 0,
        undo is Some ==> *undo->0 == h@.undo.last().0,
        redo is Some <==> h@.redo.len() > 0,
        redo is Some ==> *redo->0 == h@.redo.last(),
        can_undo == undo is Some,
        can_redo == redo is Some,
        undo is Some ==> undo_hint@ == "Undo "@ + undo->0.phrase(),
        undo is None ==> undo_hint@ == "Nothing to undo"@,
        redo is Some ==> redo_hint@ == "Redo "@ + redo->0.phrase(),
        redo is None ==> redo_hint@ == "Nothing to redo"@,
{
}

/// Sealing moves no step; clearing leaves none.
pub proof fn sealing_moves_nothing_and_clearing_leaves_nothing<S: Step>(
    sealed: &mut History<S>,
    cleared: &mut History<S>,
)
    requires
        call_ensures(History::<S>::seal, (sealed,), ()),
        call_ensures(History::<S>::clear, (cleared,), ()),
    ensures
        final(sealed)@.sealed,
        final(sealed)@.undo == old(sealed)@.undo && final(sealed)@.redo == old(sealed)@.redo,
        final(cleared)@.undo.len() == 0 && final(cleared)@.redo.len() == 0,
        !final(cleared)@.sealed,
{
}

} // verus!
