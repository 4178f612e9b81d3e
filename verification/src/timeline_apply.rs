//! Taking the timeline to the other side of a step. The engine does the work;
//! this decides what it is asked, and what its answers mean for the rows, the
//! selection, the history and the person who asked.
//!
//! The order of events: [`begin`] reads the newest step; [`missing_sources`]
//! stops the whole thing where a clip's file is gone; the engine removes the
//! plan's clips and takes its writes, and [`Run::written`] hears which it
//! refused; then one restore after the other, each told to [`Run`]; at last
//! [`Run::finish`] says what to show and [`settle`] brings the history in line.

use crate::assoc::Assoc;
use crate::clip::{opt_model, ClipRecord, RecordModel, RowModel, TimelineClip};
use crate::dialogs::{name_lines, name_list, Dialog, DialogModel};
use crate::history::{History, Stacks};
use crate::order::{models, Duplicate};
use crate::text::concat;
use crate::timeline_laws::{after_plan, between, plans_take_the_timeline_across};
use crate::timeline_rows::{
    after_all, applied_from_engine, clip_ids, gone_rows, mirrors, present_clips, rows_after,
    lemma_first_row, row_at, rows_follow_a_plan, selected_row, selection_after, whole_plan, Applied,
    AppliedModel,
};
use crate::timeline_undo::{
    entry, plan, plan_of, target_tracks, Direction, Plan, PlanModel, Records, TimelineModel,
    TimelineStep,
};
use vstd::prelude::*;

verus! {

/// What there is to do for one step.
pub struct Work {
    pub dir: Direction,
    pub plan: Plan,
    /// The track rows on the side the step goes to.
    pub tracks: usize,
    pub subject: Option<String>,
    pub kept: Assoc<TimelineClip>,
}

/// What there is to do for one step.
#[verifier::ext_equal]
pub struct WorkModel {
    pub dir: Direction,
    pub plan: PlanModel,
    pub tracks: usize,
    pub subject: Option<Seq<char>>,
    pub kept: Map<Seq<char>, RowModel>,
}

impl View for Work {
    type V = WorkModel;

    open spec fn view(&self) -> WorkModel {
        WorkModel {
            dir: self.dir,
            plan: self.plan@,
            tracks: self.tracks,
            subject: opt_model(self.subject),
            kept: self.kept@,
        }
    }
}

/// What there is to do to bring the timeline to the `dir` side of a step.
pub open spec fn work_of(step: TimelineModel, dir: Direction) -> WorkModel {
    WorkModel {
        dir,
        plan: plan_of(step.changes, dir),
        tracks: match dir {
            Direction::Undo => step.tracks_before,
            Direction::Redo => step.tracks_after,
        },
        subject: step.subject,
        kept: step.kept,
    }
}

/// Whether a plan asks nothing of the engine.
pub open spec fn plan_is_empty(plan: PlanModel) -> bool {
    plan.removes.len() == 0 && plan.writes.len() == 0 && plan.restores.len() == 0
}

/// How an undo or a redo starts.
pub enum Start {
    /// There is no step, or no engine to carry it out.
    Nothing,
    /// The step only changed track rows (a track added before any clip was
    /// placed), which needs no engine: show this many, and commit it.
    TracksOnly(usize),
    /// The engine has work to do.
    Engine(Work),
}

/// The step that an undo or a redo would apply.
pub open spec fn next_step(h: Stacks<TimelineStep>, dir: Direction) -> Option<TimelineModel> {
    match dir {
        Direction::Undo => if h.undo.len() == 0 {
            None
        } else {
            Some(h.undo.last().0@)
        },
        Direction::Redo => if h.redo.len() == 0 {
            None
        } else {
            Some(h.redo.last()@)
        },
    }
}

/// Read what to do for the newest undo (or redo) step.
pub fn begin(history: &History<TimelineStep>, dir: Direction, has_project: bool) -> (r: Start)
    ensures
        match next_step(history@, dir) {
            None => r is Nothing,
            Some(step) => {
                let work = work_of(step, dir);
                if has_project {
                    r matches Start::Engine(w) && w@ == work
                } else if plan_is_empty(work.plan) {
                    r matches Start::TracksOnly(n) && n == work.tracks
                } else {
                    r is Nothing
                }
            },
        },
{
    let step = match dir {
        Direction::Undo => history.peek_undo(),
        Direction::Redo => history.peek_redo(),
    };
    match step {
        None => Start::Nothing,
        Some(step) => {
            let plan = plan(step, dir);
            let tracks: usize = target_tracks(step, dir);
            if has_project {
                Start::Engine(
                    Work {
                        dir,
                        plan,
                        tracks,
                        subject: match &step.subject {
                            Some(s) => Some(s.clone()),
                            None => None,
                        },
                        kept: step.kept_rows.duplicate(),
                    },
                )
            } else if plan.removes.len() == 0 && plan.writes.len() == 0 && plan.restores.len() == 0 {
                Start::TracksOnly(tracks)
            } else {
                Start::Nothing
            }
        },
    }
}

/// "Could not undo", "Could not redo".
pub open spec fn could_not(dir: Direction) -> Seq<char> {
    match dir {
        Direction::Undo => "Could not undo"@,
        Direction::Redo => "Could not redo"@,
    }
}

fn could_not_title(dir: Direction) -> (r: String)
    ensures
        r@ == could_not(dir),
{
    match dir {
        Direction::Undo => String::from_str("Could not undo"),
        Direction::Redo => String::from_str("Could not redo"),
    }
}

/// The names of the clips to restore whose source is not there, by the row
/// kept for each where there is one.
pub open spec fn missing_names(
    restores: Seq<(Seq<char>, RecordModel)>,
    available: Seq<bool>,
    kept: Map<Seq<char>, RowModel>,
) -> Seq<Seq<char>>
    decreases restores.len(),
{
    if restores.len() == 0 {
        seq![]
    } else {
        let rest = missing_names(restores.drop_last(), available.drop_last(), kept);
        if available.last() {
            rest
        } else {
            rest.push(
                match entry(kept, restores.last().0) {
                    Some(row) => row.name,
                    None => restores.last().1.name,
                },
            )
        }
    }
}

/// What to say of clips whose file has gone since.
pub open spec fn missing_text(names: Seq<Seq<char>>) -> Seq<char> {
    if names.len() == 1 {
        "This file is no longer where it was, so nothing was changed:\n"@ + name_lines(names)
    } else {
        "These files are no longer where they was, so nothing was changed:\n"@ + name_lines(names)
    }
}

/// A deleted clip whose file has gone since: say which, and change nothing.
/// `available` tells of each restore of the plan whether its source is there.
pub fn missing_sources(work: &Work, available: &Vec<bool>) -> (r: Option<Dialog>)
    requires
        available.len() == work.plan.restores.len(),
    ensures
        ({
            let names = missing_names(work@.plan.restores, available@, work@.kept);
            if names.len() == 0 {
                r is None
            } else {
                r is Some && r->0@ == (DialogModel {
                    title: could_not(work.dir),
                    detail: missing_text(names),
                    info: false,
                    reveal: seq![],
                })
            }
        }),
{
    let ghost rs = work@.plan.restores;
    let mut missing: Vec<String> = Vec::new();
    let mut i: usize = 0;
    assert(models(missing@) =~= missing_names(rs.take(0), available@.take(0), work@.kept));
    while i < available.len()
        invariant
            i <= available.len(),
            available.len() == work.plan.restores.len(),
            rs == work@.plan.restores,
            models(missing@) == missing_names(
                rs.take(i as int),
                available@.take(i as int),
                work@.kept,
            ),
        decreases available.len() - i,
    {
        let ghost m0 = models(missing@);
        assert(rs[i as int] == (work.plan.restores[i as int].0@, work.plan.restores[i as int].1@));
        assert(rs.take(i + 1).drop_last() =~= rs.take(i as int));
        assert(available@.take(i + 1).drop_last() =~= available@.take(i as int));
        if !available[i] {
            let entry = &work.plan.restores[i];
            let name = match work.kept.get(&entry.0) {
                Some(row) => row.name.clone(),
                None => entry.1.name.clone(),
            };
            missing.push(name);
            assert(models(missing@) =~= m0.push(missing@.last()@));
        }
        i += 1;
    }
    assert(rs.take(i as int) =~= rs);
    assert(available@.take(i as int) =~= available@);
    if missing.len() == 0 {
        return None;
    }
    let names = name_list(&missing);
    let detail = if missing.len() == 1 {
        concat("This file is no longer where it was, so nothing was changed:\n", names.as_str())
    } else {
        concat(
            "These files are no longer where they was, so nothing was changed:\n",
            names.as_str(),
        )
    };
    Some(crate::dialogs::show_error(could_not_title(work.dir), detail))
}

/// A step being carried out: what the engine did so far, and what it refused.
pub struct Run {
    pub applied: Vec<Applied>,
    /// The first thing the engine refused, for the dialog.
    pub failed: Option<String>,
    /// The restores that were dealt with.
    pub restored: usize,
}

/// A step being carried out.
#[verifier::ext_equal]
pub struct RunModel {
    pub applied: Seq<AppliedModel>,
    pub failed: Option<Seq<char>>,
    pub restored: nat,
}

impl View for Run {
    type V = RunModel;

    open spec fn view(&self) -> RunModel {
        RunModel {
            applied: models(self.applied@),
            failed: opt_model(self.failed),
            restored: self.restored as nat,
        }
    }
}

/// What was written, of the writes that were not refused.
pub open spec fn accepted(
    writes: Seq<(Seq<char>, RecordModel)>,
    refused: Seq<Seq<char>>,
) -> Seq<AppliedModel>
    decreases writes.len(),
{
    if writes.len() == 0 {
        seq![]
    } else if refused.contains(writes.last().0) {
        accepted(writes.drop_last(), refused)
    } else {
        accepted(writes.drop_last(), refused).push(
            AppliedModel {
                id: writes.last().0,
                now_id: writes.last().0,
                record: Some(writes.last().1),
            },
        )
    }
}

/// The name of the first clip whose write was refused.
pub open spec fn first_refused(
    writes: Seq<(Seq<char>, RecordModel)>,
    refused: Seq<Seq<char>>,
) -> Option<Seq<char>>
    decreases writes.len(),
{
    if writes.len() == 0 {
        None
    } else {
        match first_refused(writes.drop_last(), refused) {
            Some(name) => Some(name),
            None => if refused.contains(writes.last().0) {
                Some(writes.last().1.name)
            } else {
                None
            },
        }
    }
}

/// The removals of a plan, done.
pub open spec fn removed(ids: Seq<Seq<char>>) -> Seq<AppliedModel> {
    ids.map_values(|id: Seq<char>| AppliedModel { id, now_id: id, record: None })
}

fn is_among(ids: &Vec<String>, id: &String) -> (r: bool)
    ensures
        r == models(ids@).contains(id@),
{
    let mut i: usize = 0;
    while i < ids.len()
        invariant
            i <= ids.len(),
            forall|j: int| 0 <= j < i ==> (#[trigger] models(ids@)[j]) != id@,
        decreases ids.len() - i,
    {
        assert(models(ids@)[i as int] == ids[i as int]@);
        if ids[i] == *id {
            return true;
        }
        i += 1;
    }
    false
}

impl Run {
    /// The plan's clips are removed, and its writes were tried as one batch, of
    /// which the engine refused those of `refused`.
    pub fn written(plan: &Plan, refused: &Vec<String>) -> (r: Run)
        ensures
            r@ == (RunModel {
                applied: removed(plan@.removes) + accepted(plan@.writes, models(refused@)),
                failed: first_refused(plan@.writes, models(refused@)),
                restored: 0,
            }),
    {
        let ghost no = models(refused@);
        let mut applied: Vec<Applied> = Vec::new();
        let mut i: usize = 0;
        assert(models(applied@) =~= removed(plan@.removes.take(0)));
        while i < plan.removes.len()
            invariant
                i <= plan.removes.len(),
                models(applied@) == removed(plan@.removes.take(i as int)),
            decreases plan.removes.len() - i,
        {
            let ghost a0 = models(applied@);
            applied.push(
                Applied {
                    id: plan.removes[i].clone(),
                    now_id: plan.removes[i].clone(),
                    record: None,
                },
            );
            assert(models(applied@) =~= a0.push(applied@.last()@));
            assert(models(applied@) =~= removed(plan@.removes.take(i + 1)));
            i += 1;
        }
        assert(plan@.removes.take(i as int) =~= plan@.removes);
        let ghost gone = models(applied@);
        let ghost ws = plan@.writes;
        let mut failed: Option<String> = None;
        let mut k: usize = 0;
        assert(models(applied@) =~= gone + accepted(ws.take(0), no));
        while k < plan.writes.len()
            invariant
                k <= plan.writes.len(),
                ws == plan@.writes,
                no == models(refused@),
                models(applied@) == gone + accepted(ws.take(k as int), no),
                opt_model(failed) == first_refused(ws.take(k as int), no),
            decreases plan.writes.len() - k,
        {
            let ghost a0 = models(applied@);
            let write = &plan.writes[k];
            assert(ws[k as int] == (write.0@, write.1@));
            assert(ws.take(k + 1).drop_last() =~= ws.take(k as int));
            if is_among(refused, &write.0) {
                if failed.is_none() {
                    failed = Some(write.1.name.clone());
                }
            } else {
                applied.push(
                    Applied {
                        id: write.0.clone(),
                        now_id: write.0.clone(),
                        record: Some(write.1.clone()),
                    },
                );
                assert(models(applied@) =~= a0.push(applied@.last()@));
            }
            assert(models(applied@) =~= gone + accepted(ws.take(k + 1), no));
            k += 1;
        }
        assert(ws.take(k as int) =~= ws);
        Run { applied, failed, restored: 0 }
    }

    /// The restore to do next: none once something failed or all are done.
    pub fn next_restore(&self, plan: &Plan) -> (r: Option<usize>)
        ensures
            r == if self.failed is None && self.restored < plan.restores.len() {
                Some(self.restored)
            } else {
                None
            },
    {
        if self.failed.is_none() && self.restored < plan.restores.len() {
            Some(self.restored)
        } else {
            None
        }
    }

    /// The clip of the next restore is back: the engine handed it out under
    /// `now_id`. (A retry after a restore failed partway finds the ones that
    /// worked back already, under the IDs every step now uses.)
    pub fn restored(&mut self, plan: &Plan, now_id: &String)
        requires
            old(self).failed is None,
            old(self).restored < plan.restores.len(),
        ensures
            final(self)@ == (RunModel {
                applied: old(self)@.applied.push(
                    AppliedModel {
                        id: plan@.restores[old(self).restored as int].0,
                        now_id: now_id@,
                        record: Some(plan@.restores[old(self).restored as int].1),
                    },
                ),
                restored: old(self)@.restored + 1,
                ..old(self)@
            }),
    {
        let ghost before = self@;
        let restore = &plan.restores[self.restored];
        assert(plan@.restores[self.restored as int] == (restore.0@, restore.1@));
        self.applied.push(
            Applied {
                id: restore.0.clone(),
                now_id: now_id.clone(),
                record: Some(restore.1.clone()),
            },
        );
        assert(models(self.applied@) =~= before.applied.push(self.applied@.last()@));
        self.restored = self.restored + 1;
    }

    /// The engine refused the next restore.
    pub fn refused(&mut self, plan: &Plan, error: &str)
        requires
            old(self).failed is None,
            old(self).restored < plan.restores.len(),
        ensures
            final(self)@ == (RunModel {
                failed: Some(
                    plan@.restores[old(self).restored as int].1.name + ": "@ + error@,
                ),
                ..old(self)@
            }),
    {
        let restore = &plan.restores[self.restored];
        assert(plan@.restores[self.restored as int] == (restore.0@, restore.1@));
        let mut s = concat(restore.1.name.as_str(), ": ");
        s.append(error);
        self.failed = Some(s);
    }
}

// ---------------------------------------------------------------------------
// Afterwards
// ---------------------------------------------------------------------------

/// The IDs that changed: a restore keeps a clip's ID; should one ever hand back
/// a new one, every step must use it from now on.
pub open spec fn renames_of(applied: Seq<AppliedModel>) -> Seq<(Seq<char>, Seq<char>)>
    decreases applied.len(),
{
    if applied.len() == 0 {
        seq![]
    } else if applied.last().id != applied.last().now_id {
        renames_of(applied.drop_last()).push((applied.last().id, applied.last().now_id))
    } else {
        renames_of(applied.drop_last())
    }
}

fn renames(applied: &Vec<Applied>) -> (r: Vec<(String, String)>)
    ensures
        models(r@) == renames_of(models(applied@)),
{
    let ghost m = models(applied@);
    let mut r: Vec<(String, String)> = Vec::new();
    let mut i: usize = 0;
    assert(models(r@) =~= renames_of(m.take(0)));
    while i < applied.len()
        invariant
            i <= applied.len(),
            m == models(applied@),
            models(r@) == renames_of(m.take(i as int)),
        decreases applied.len() - i,
    {
        let ghost r0 = models(r@);
        assert(m[i as int] == applied[i as int]@);
        assert(m.take(i + 1).drop_last() =~= m.take(i as int));
        if applied[i].id != applied[i].now_id {
            r.push((applied[i].id.clone(), applied[i].now_id.clone()));
            assert(models(r@) =~= r0.push((applied[i as int].id@, applied[i as int].now_id@)));
        }
        i += 1;
    }
    assert(m.take(i as int) =~= m);
    r
}

/// The kept rows under the IDs that the clips have now.
pub open spec fn kept_renamed(
    kept: Map<Seq<char>, RowModel>,
    renames: Seq<(Seq<char>, Seq<char>)>,
) -> Map<Seq<char>, RowModel>
    decreases renames.len(),
{
    if renames.len() == 0 {
        kept
    } else {
        let rest = kept_renamed(kept, renames.drop_last());
        let (from, to) = renames.last();
        if rest.dom().contains(from) {
            rest.remove(from).insert(to, rest[from])
        } else {
            rest
        }
    }
}

/// The ID that a clip has now: the new one of the first rename of it.
pub open spec fn id_now(id: Seq<char>, renames: Seq<(Seq<char>, Seq<char>)>) -> Seq<char>
    decreases renames.len(),
{
    if renames.len() == 0 {
        id
    } else if renames[0].0 == id {
        renames[0].1
    } else {
        id_now(id, renames.drop_first())
    }
}

/// What to show once a step was carried out, as far as it went.
pub struct Shown {
    pub rows: Vec<TimelineClip>,
    pub track_rows: usize,
    /// The row to select, or -1.
    pub select: i32,
    /// The clips that came back without a thumbnail: decode it again.
    pub without_thumb: Vec<(String, ClipRecord)>,
    pub renames: Vec<(String, String)>,
    pub failed: Option<Dialog>,
}

/// The rows after a run: those of the plan, or, after a failure, those of the
/// clips that the engine holds.
pub open spec fn rows_shown(
    work: WorkModel,
    run: RunModel,
    rows: Seq<RowModel>,
    engine: Seq<(Seq<char>, RecordModel)>,
) -> Seq<RowModel> {
    if run.failed is Some {
        after_all(
            rows,
            gone_rows(rows, clip_ids(engine)) + present_clips(engine),
            kept_renamed(work.kept, renames_of(run.applied)),
        )
    } else {
        after_all(rows, run.applied, work.kept)
    }
}

/// Whether the clip has a row without a picture.
pub open spec fn lacks_picture(rows: Seq<RowModel>, id: Seq<char>) -> bool {
    exists|i: int| 0 <= i < rows.len() && (#[trigger] rows[i]).id == id && rows[i].thumb.width == 0
}

/// The restores whose clip has a row without a picture.
pub open spec fn to_decode(
    restores: Seq<(Seq<char>, RecordModel)>,
    rows: Seq<RowModel>,
) -> Seq<(Seq<char>, RecordModel)>
    decreases restores.len(),
{
    if restores.len() == 0 {
        seq![]
    } else if lacks_picture(rows, restores.last().0) {
        to_decode(restores.drop_last(), rows).push(restores.last())
    } else {
        to_decode(restores.drop_last(), rows)
    }
}

/// What to say when the engine refused a change.
pub open spec fn refusal_text(what: Seq<char>) -> Seq<char> {
    "The engine refused a change, so the timeline shows what it holds now and the step is still there to try again.\n"@
        + what
}

fn has_no_picture(rows: &Vec<TimelineClip>, id: &String) -> (r: bool)
    ensures
        r == lacks_picture(models(rows@), id@),
{
    let mut i: usize = 0;
    while i < rows.len()
        invariant
            i <= rows.len(),
            forall|j: int|
                0 <= j < i ==> !((#[trigger] models(rows@)[j]).id == id@ && models(
                    rows@,
                )[j].thumb.width == 0),
        decreases rows.len() - i,
    {
        assert(models(rows@)[i as int] == rows[i as int]@);
        if rows[i].id == *id && rows[i].thumb.width == 0 {
            return true;
        }
        i += 1;
    }
    false
}

/// The ID that a clip has now.
fn current_id(id: &String, renames: &Vec<(String, String)>) -> (r: String)
    ensures
        r@ == id_now(id@, models(renames@)),
{
    let ghost m = models(renames@);
    let mut i: usize = 0;
    assert(m.skip(0) =~= m);
    while i < renames.len()
        invariant
            i <= renames.len(),
            m == models(renames@),
            id_now(id@, m) == id_now(id@, m.skip(i as int)),
        decreases renames.len() - i,
    {
        assert(m[i as int] == (renames[i as int].0@, renames[i as int].1@));
        assert(m.skip(i as int)[0] == m[i as int]);
        assert(m.skip(i as int).drop_first() =~= m.skip(i + 1));
        if renames[i].0 == *id {
            return renames[i].1.clone();
        }
        i += 1;
    }
    assert(m.skip(i as int).len() == 0);
    id.clone()
}

impl Run {
    /// What to show: on a failure, the rows follow the engine (whose clips are
    /// `engine`) rather than the plan, and the engine knows a restored clip by
    /// the ID it has now.
    pub fn finish(
        &self,
        work: &Work,
        rows: &Vec<TimelineClip>,
        selected: i32,
        engine: &Vec<(String, ClipRecord)>,
        engine_tracks: usize,
    ) -> (r: Shown)
        requires
            rows_shown(work@, self@, models(rows@), models(engine@)).len() <= i32::MAX,
        ensures
            models(r.rows@) == rows_shown(work@, self@, models(rows@), models(engine@)),
            r.track_rows == if work.tracks >= engine_tracks {
                work.tracks
            } else {
                engine_tracks
            },
            models(r.renames@) == renames_of(self@.applied),
            r.select == selected_row(
                models(r.rows@),
                match work@.subject {
                    Some(id) => Some(id_now(id, renames_of(self@.applied))),
                    None => None,
                },
                if 0 <= selected < rows.len() {
                    Some(rows[selected as int].id@)
                } else {
                    None
                },
            ),
            models(r.without_thumb@) == to_decode(work@.plan.restores, models(r.rows@)),
            match self@.failed {
                Some(what) => r.failed is Some && r.failed->0@ == (DialogModel {
                    title: could_not(work.dir),
                    detail: refusal_text(what),
                    info: false,
                    reveal: seq![],
                }),
                None => r.failed is None,
            },
    {
        let renames = renames(&self.applied);
        let ghost rn = models(renames@);
        let new_rows = if self.failed.is_some() {
            let mut kept = work.kept.duplicate();
            let mut i: usize = 0;
            while i < renames.len()
                invariant
                    i <= renames.len(),
                    rn == models(renames@),
                    kept@ == kept_renamed(work@.kept, rn.take(i as int)),
                decreases renames.len() - i,
            {
                assert(rn[i as int] == (renames[i as int].0@, renames[i as int].1@));
                assert(rn.take(i + 1).drop_last() =~= rn.take(i as int));
                let row = match kept.get(&renames[i].0) {
                    Some(row) => Some(row.clone()),
                    None => None,
                };
                if let Some(row) = row {
                    kept.remove(&renames[i].0);
                    kept.insert(renames[i].1.clone(), row);
                }
                i += 1;
            }
            assert(rn.take(i as int) =~= rn);
            let from_engine = applied_from_engine(rows, engine);
            rows_after(rows, &from_engine, &kept)
        } else {
            rows_after(rows, &self.applied, &work.kept)
        };
        let subject = match &work.subject {
            Some(id) => Some(current_id(id, &renames)),
            None => None,
        };
        let was_selected = if selected >= 0 && (selected as usize) < rows.len() {
            Some(&rows[selected as usize].id)
        } else {
            None
        };
        let select = match &subject {
            Some(id) => selection_after(&new_rows, Some(id), was_selected),
            None => selection_after(&new_rows, None, was_selected),
        };
        let ghost rs = work@.plan.restores;
        let mut without_thumb: Vec<(String, ClipRecord)> = Vec::new();
        let mut k: usize = 0;
        assert(models(without_thumb@) =~= to_decode(rs.take(0), models(new_rows@)));
        while k < work.plan.restores.len()
            invariant
                k <= work.plan.restores.len(),
                rs == work@.plan.restores,
                models(without_thumb@) == to_decode(rs.take(k as int), models(new_rows@)),
            decreases work.plan.restores.len() - k,
        {
            let ghost w0 = models(without_thumb@);
            let restore = &work.plan.restores[k];
            assert(rs[k as int] == (restore.0@, restore.1@));
            assert(rs.take(k + 1).drop_last() =~= rs.take(k as int));
            if has_no_picture(&new_rows, &restore.0) {
                without_thumb.push((restore.0.clone(), restore.1.clone()));
                assert(models(without_thumb@) =~= w0.push((restore.0@, restore.1@)));
            }
            k += 1;
        }
        assert(rs.take(k as int) =~= rs);
        let failed = match &self.failed {
            Some(what) => Some(
                crate::dialogs::show_error(
                    could_not_title(work.dir),
                    concat(
                        "The engine refused a change, so the timeline shows what it holds now and the step is still there to try again.\n",
                        what.as_str(),
                    ),
                ),
            ),
            None => None,
        };
        let track_rows: usize = if work.tracks >= engine_tracks {
            work.tracks
        } else {
            engine_tracks
        };
        Shown { rows: new_rows, track_rows, select, without_thumb, renames, failed }
    }
}

/// A step with clips renamed, one after the other.
pub open spec fn all_renamed(
    step: TimelineModel,
    renames: Seq<(Seq<char>, Seq<char>)>,
) -> TimelineModel
    decreases renames.len(),
{
    if renames.len() == 0 {
        step
    } else {
        all_renamed(step, renames.drop_last()).with_rename(renames.last().0, renames.last().1)
    }
}

/// Whether `after` are the stacks of `before` with clips renamed in every step.
pub open spec fn stacks_renamed(
    before: Stacks<TimelineStep>,
    renames: Seq<(Seq<char>, Seq<char>)>,
    after: Stacks<TimelineStep>,
) -> bool {
    &&& after.sealed == before.sealed
    &&& after.undo.len() == before.undo.len()
    &&& forall|i: int|
        0 <= i < before.undo.len() ==> (#[trigger] after.undo[i]).0@ == all_renamed(
            before.undo[i].0@,
            renames,
        ) && after.undo[i].1 == before.undo[i].1
    &&& after.redo.len() == before.redo.len()
    &&& forall|i: int|
        0 <= i < before.redo.len() ==> (#[trigger] after.redo[i])@ == all_renamed(
            before.redo[i]@,
            renames,
        )
}

/// The history once a step was carried out (before renames): the step moves to
/// the other stack, or, after a failure, stays to be tried again, sealed off
/// from the next edit.
pub open spec fn after_step(
    h: Stacks<TimelineStep>,
    dir: Direction,
    failed: bool,
    now: u64,
) -> Stacks<TimelineStep> {
    if failed {
        Stacks { sealed: true, ..h }
    } else {
        match dir {
            Direction::Undo => h.undone(),
            Direction::Redo => h.redone(now),
        }
    }
}

/// The step with a clip renamed.
fn rename_in(step: TimelineStep, from: &String, to: &String) -> (r: TimelineStep)
    ensures
        r@ == step@.with_rename(from@, to@),
{
    let mut step = step;
    step.rename_clip(from, to);
    step
}

/// Bring the history in line with what became of a step: commit it, or, where
/// the engine refused a part, leave it to be tried again; it no longer matches
/// the timeline then, so the next edit must not merge into it. Every step uses
/// the IDs that the clips have now.
pub fn settle(
    history: &mut History<TimelineStep>,
    dir: Direction,
    failed: bool,
    renames: &Vec<(String, String)>,
    now: u64,
)
    requires
        old(history)@.bounded(),
    ensures
        final(history)@.bounded(),
        stacks_renamed(
            after_step(old(history)@, dir, failed, now),
            models(renames@),
            final(history)@,
        ),
{
    if failed {
        history.seal();
    } else {
        match dir {
            Direction::Undo => history.commit_undo(),
            Direction::Redo => history.commit_redo(now),
        }
    }
    let ghost before = history@;
    let ghost rn = models(renames@);
    let mut i: usize = 0;
    assert(stacks_renamed(before, rn.take(0), history@));
    while i < renames.len()
        invariant
            i <= renames.len(),
            rn == models(renames@),
            history@.bounded(),
            stacks_renamed(before, rn.take(i as int), history@),
        decreases renames.len() - i,
    {
        let ghost h0 = history@;
        let from = &renames[i].0;
        let to = &renames[i].1;
        assert(rn[i as int] == (from@, to@));
        assert(rn.take(i + 1).drop_last() =~= rn.take(i as int));
        let rename = |s: TimelineStep| -> (r: TimelineStep)
            ensures
                r@ == s@.with_rename(from@, to@),
            { rename_in(s, from, to) };
        history.steps_mut(rename);
        proof {
            assert forall|j: int| 0 <= j < before.undo.len() implies (#[trigger] history@.undo[j]).0@
                == all_renamed(before.undo[j].0@, rn.take(i + 1)) && history@.undo[j].1
                == before.undo[j].1 by {
                assert(h0.undo[j].0@ == all_renamed(before.undo[j].0@, rn.take(i as int)));
            }
            assert forall|j: int| 0 <= j < before.redo.len() implies (#[trigger] history@.redo[j])@
                == all_renamed(before.redo[j]@, rn.take(i + 1)) by {
                assert(h0.redo[j]@ == all_renamed(before.redo[j]@, rn.take(i as int)));
            }
        }
        i += 1;
    }
    assert(rn.take(i as int) =~= rn);
}

// ---------------------------------------------------------------------------
// Laws
// ---------------------------------------------------------------------------

/// The run of a plan of which the engine refused nothing: every clip removed,
/// written and restored under the ID it had.
pub open spec fn clean_run(plan: PlanModel) -> RunModel {
    RunModel { applied: whole_plan(plan), failed: None, restored: plan.restores.len() }
}

proof fn lemma_nothing_refused(writes: Seq<(Seq<char>, RecordModel)>)
    ensures
        accepted(writes, seq![]) == present_clips(writes),
        first_refused(writes, seq![]) is None,
    decreases writes.len(),
{
    if writes.len() == 0 {
        assert(accepted(writes, seq![]) =~= present_clips(writes));
    } else {
        lemma_nothing_refused(writes.drop_last());
        assert(present_clips(writes) =~= present_clips(writes.drop_last()).push(
            AppliedModel {
                id: writes.last().0,
                now_id: writes.last().0,
                record: Some(writes.last().1),
            },
        ));
    }
}

/// Where the engine refuses nothing and restores keep their IDs, the events
/// of a run add up to the whole plan.
pub proof fn a_run_without_refusals_is_the_whole_plan(plan: PlanModel)
    ensures
        removed(plan.removes) + accepted(plan.writes, seq![]) + present_clips(plan.restores)
            == clean_run(plan).applied,
        first_refused(plan.writes, seq![]) is None,
        renames_of(clean_run(plan).applied).len() == 0,
{
    lemma_nothing_refused(plan.writes);
    assert forall|i: int| 0 <= i < clean_run(plan).applied.len() implies (
    #[trigger] clean_run(plan).applied[i]).id == clean_run(plan).applied[i].now_id by {}
    lemma_no_renames(clean_run(plan).applied);
}

proof fn lemma_no_renames(applied: Seq<AppliedModel>)
    requires
        forall|i: int| 0 <= i < applied.len() ==> (#[trigger] applied[i]).id == applied[i].now_id,
    ensures
        renames_of(applied).len() == 0,
    decreases applied.len(),
{
    if applied.len() > 0 {
        let rest = applied.drop_last();
        assert forall|i: int| 0 <= i < rest.len() implies (#[trigger] rest[i]).id
            == rest[i].now_id by {
            assert(rest[i] == applied[i]);
        }
        assert(applied[applied.len() - 1].id == applied[applied.len() - 1].now_id);
        lemma_no_renames(rest);
    }
}

/// An undo that the engine carries out takes both the clips and the rows to
/// before the step: the engine then holds what it held, and the rows show it.
pub proof fn an_undo_shows_what_was_before(
    step: TimelineModel,
    before: Records,
    after: Records,
    rows: Seq<RowModel>,
    engine: Seq<(Seq<char>, RecordModel)>,
)
    requires
        between(step.changes, before, after),
        mirrors(rows, after),
    ensures
        ({
            let work = work_of(step, Direction::Undo);
            let run = clean_run(work.plan);
            &&& after_plan(after, work.plan) == before
            &&& mirrors(rows_shown(work, run, rows, engine), before)
        }),
{
    plans_take_the_timeline_across(step.changes, before, after);
    rows_follow_a_plan(rows, after, plan_of(step.changes, Direction::Undo), step.kept);
}

/// A redo that the engine carries out takes both the clips and the rows to
/// after the step.
pub proof fn a_redo_shows_what_was_after(
    step: TimelineModel,
    before: Records,
    after: Records,
    rows: Seq<RowModel>,
    engine: Seq<(Seq<char>, RecordModel)>,
)
    requires
        between(step.changes, before, after),
        mirrors(rows, before),
    ensures
        ({
            let work = work_of(step, Direction::Redo);
            let run = clean_run(work.plan);
            &&& after_plan(before, work.plan) == after
            &&& mirrors(rows_shown(work, run, rows, engine), after)
        }),
{
    plans_take_the_timeline_across(step.changes, before, after);
    rows_follow_a_plan(rows, before, plan_of(step.changes, Direction::Redo), step.kept);
}

/// A step that the engine refused stays where it was, and the next edit does
/// not merge into it.
pub proof fn a_refused_step_can_be_tried_again(
    h: Stacks<TimelineStep>,
    dir: Direction,
    now: u64,
)
    ensures
        after_step(h, dir, true, now).undo == h.undo,
        after_step(h, dir, true, now).redo == h.redo,
        after_step(h, dir, true, now).sealed,
{
}

// ---------------------------------------------------------------------------
// What each answer of the engine leads to
// ---------------------------------------------------------------------------

/// What is begun with is the newest step of the direction: its plan, the tracks of the
/// side it goes to, its clip and its rows. Without a project only a step that asks
/// nothing of the engine is begun, and without a step nothing is.
pub proof fn the_newest_step_is_begun(
    history: &History<TimelineStep>,
    dir: Direction,
    has_project: bool,
    r: Start,
    undo: Option<&TimelineStep>,
    redo: Option<&TimelineStep>,
    way: Plan,
    tracks: usize,
)
    requires
        call_ensures(begin, (history, dir, has_project), r),
        call_ensures(History::<TimelineStep>::peek_undo, (history,), undo),
        call_ensures(History::<TimelineStep>::peek_redo, (history,), redo),
        (if dir is Undo {
            undo
        } else {
            redo
        }) matches Some(step) ==> call_ensures(plan, (step, dir), way) && call_ensures(
            target_tracks,
            (step, dir),
            tracks,
        ),
    ensures
        ({
            let next = if dir is Undo {
                undo
            } else {
                redo
            };
            let none = way.removes.len() == 0 && way.writes.len() == 0 && way.restores.len() == 0;
            &&& next is None ==> r is Nothing
            &&& next is Some && has_project ==> (r matches Start::Engine(w) && {
                &&& w.dir == dir && w.plan@ == way@ && w.tracks == tracks
                &&& opt_model(w.subject) == opt_model(next->0.subject)
                &&& w.kept@ == next->0.kept_rows@
            })
            &&& next is Some && !has_project && none ==> (r matches Start::TracksOnly(n) && n
                == tracks)
            &&& next is Some && !has_project && !none ==> r is Nothing
        }),
{
    assert(way@.removes.len() == way.removes.len() && way@.writes.len() == way.writes.len());
    assert(way@.restores.len() == way.restores.len());
    if let Start::Engine(w) = r {
        assert(w@.dir == w.dir && w@.plan == w.plan@ && w@.tracks == w.tracks);
        assert(w@.subject == opt_model(w.subject) && w@.kept == w.kept@);
    }
}

/// One more clip to restore is named among those that are missing exactly where its
/// source is not there: by the row kept for it, or else by its record.
pub proof fn a_missing_source_is_named(
    restores: Seq<(Seq<char>, RecordModel)>,
    available: Seq<bool>,
    kept: Map<Seq<char>, RowModel>,
    next: (Seq<char>, RecordModel),
    there: bool,
)
    ensures
        missing_names(seq![], seq![], kept) == Seq::<Seq<char>>::empty(),
        there ==> missing_names(restores.push(next), available.push(there), kept) == missing_names(
            restores,
            available,
            kept,
        ),
        !there && kept.dom().contains(next.0) ==> missing_names(
            restores.push(next),
            available.push(there),
            kept,
        ) == missing_names(restores, available, kept).push(kept[next.0].name),
        !there && !kept.dom().contains(next.0) ==> missing_names(
            restores.push(next),
            available.push(there),
            kept,
        ) == missing_names(restores, available, kept).push(next.1.name),
{
    assert(restores.push(next).drop_last() =~= restores);
    assert(available.push(there).drop_last() =~= available);
}

proof fn lemma_all_there(
    restores: Seq<(Seq<char>, RecordModel)>,
    available: Seq<bool>,
    kept: Map<Seq<char>, RowModel>,
)
    requires
        restores.len() == available.len(),
    ensures
        missing_names(restores, available, kept).len() == 0 <==> forall|i: int|
            0 <= i < available.len() ==> #[trigger] available[i],
    decreases restores.len(),
{
    if restores.len() > 0 {
        let less = available.drop_last();
        lemma_all_there(restores.drop_last(), less, kept);
        assert(available[available.len() - 1] == available.last());
        if available.last() {
            if forall|i: int| 0 <= i < less.len() ==> #[trigger] less[i] {
                assert forall|i: int| 0 <= i < available.len() implies #[trigger] available[i] by {
                    if i < less.len() {
                        assert(less[i]);
                    }
                }
            } else {
                let i = choose|i: int| 0 <= i < less.len() && !#[trigger] less[i];
                assert(!available[i]);
            }
        }
    }
}

/// A step is stopped exactly where the source of a clip to restore is missing, and then
/// nothing is changed and the missing ones are listed.
pub proof fn a_missing_source_stops_the_step(work: &Work, available: &Vec<bool>, r: Option<Dialog>)
    requires
        call_ensures(missing_sources, (work, available), r),
        available.len() == work.plan.restores.len(),
    ensures
        r is None <==> forall|i: int| 0 <= i < available.len() ==> #[trigger] available@[i],
        r is Some ==> {
            let names = missing_names(work@.plan.restores, available@, work@.kept);
            &&& !r->0.info && r->0.reveal@.len() == 0
            &&& work.dir is Undo ==> r->0.title@ == "Could not undo"@
            &&& work.dir is Redo ==> r->0.title@ == "Could not redo"@
            &&& names.len() == 1 ==> r->0.detail@
                == "This file is no longer where it was, so nothing was changed:\n"@ + name_lines(
                names,
            )
            &&& names.len() > 1 ==> r->0.detail@
                == "These files are no longer where they was, so nothing was changed:\n"@
                + name_lines(names)
        },
{
    assert(work@.plan.restores.len() == work.plan.restores.len());
    lemma_all_there(work@.plan.restores, available@, work@.kept);
    if let Some(d) = r {
        assert(d@.title == d.title@ && d@.detail == d.detail@ && d@.info == d.info);
        assert(d@.reveal == d.reveal@);
    }
}

/// A write is done unless the engine refused it, and the first that it refused is the
/// failure that is told.
pub proof fn a_write_is_done_unless_refused(
    writes: Seq<(Seq<char>, RecordModel)>,
    next: (Seq<char>, RecordModel),
    refused: Seq<Seq<char>>,
)
    ensures
        accepted(seq![], refused) == Seq::<AppliedModel>::empty(),
        first_refused(seq![], refused) is None,
        !refused.contains(next.0) ==> accepted(writes.push(next), refused) == accepted(
            writes,
            refused,
        ).push(AppliedModel { id: next.0, now_id: next.0, record: Some(next.1) }),
        refused.contains(next.0) ==> accepted(writes.push(next), refused) == accepted(
            writes,
            refused,
        ),
        first_refused(writes, refused) is Some ==> first_refused(writes.push(next), refused)
            == first_refused(writes, refused),
        first_refused(writes, refused) is None && refused.contains(next.0) ==> first_refused(
            writes.push(next),
            refused,
        ) == Some(next.1.name),
        first_refused(writes, refused) is None && !refused.contains(next.0) ==> first_refused(
            writes.push(next),
            refused,
        ) is None,
{
    assert(writes.push(next).drop_last() =~= writes);
}

/// What was done of a plan so far: every clip to remove is gone, in order, and then come
/// the writes that were not refused; no restore is done yet.
pub proof fn removals_come_before_writes(plan: &Plan, refused: &Vec<String>, r: Run, k: int)
    requires
        call_ensures(Run::written, (plan, refused), r),
    ensures
        r.applied.len() == plan.removes.len() + accepted(plan@.writes, models(refused@)).len(),
        0 <= k < plan.removes.len() ==> r.applied[k].id@ == plan.removes[k]@
            && r.applied[k].now_id@ == plan.removes[k]@ && r.applied[k].record is None,
        plan.removes.len() <= k < r.applied.len() ==> r.applied[k]@ == accepted(
            plan@.writes,
            models(refused@),
        )[k - plan.removes.len()],
        opt_model(r.failed) == first_refused(plan@.writes, models(refused@)),
        r.restored == 0,
{
    let m = models(r.applied@);
    assert(r@.applied == m && m.len() == r.applied.len());
    assert(plan@.removes == models(plan.removes@));
    assert(plan@.removes.len() == plan.removes.len());
    assert(r@.restored == r.restored && r@.failed == opt_model(r.failed));
    if 0 <= k < r.applied.len() {
        assert(m[k] == r.applied[k]@);
        if k < plan.removes.len() {
            assert(models(plan.removes@)[k] == plan.removes[k]@);
        }
    }
}

/// Restores are done one after the other, in the plan's order, until the engine refuses
/// one: a clip that is back is noted with its record under the ID it has now; a refusal
/// is told with the clip's name, and ends the run.
pub proof fn restores_are_done_in_turn(
    run: &Run,
    plan: &Plan,
    next: Option<usize>,
    back: &mut Run,
    now_id: &String,
    refused: &mut Run,
    error: &str,
)
    requires
        call_ensures(Run::next_restore, (run, plan), next),
        call_ensures(Run::restored, (back, plan, now_id), ()),
        old(back).restored < plan.restores.len(),
        call_ensures(Run::refused, (refused, plan, error), ()),
        old(refused).restored < plan.restores.len(),
    ensures
        next is Some <==> run.failed is None && run.restored < plan.restores.len(),
        next is Some ==> next->0 == run.restored,
        final(back).restored == old(back).restored + 1,
        final(back)@.failed == old(back)@.failed,
        final(back)@.applied.len() == old(back)@.applied.len() + 1,
        final(back)@.applied.drop_last() == old(back)@.applied,
        ({
            let a = final(back)@.applied.last();
            let restore = plan.restores[old(back).restored as int];
            a.id == restore.0@ && a.now_id == now_id@ && a.record == Some(restore.1@)
        }),
        final(refused)@.failed == Some(
            plan.restores[old(refused).restored as int].1.name@ + ": "@ + error@,
        ),
        final(refused)@.applied == old(refused)@.applied,
        final(refused).restored == old(refused).restored,
{
    assert(plan@.restores == models(plan.restores@));
    let i = old(back).restored as int;
    let j = old(refused).restored as int;
    assert(models(plan.restores@)[i] == plan.restores[i]@);
    assert(models(plan.restores@)[j] == plan.restores[j]@);
    assert(final(back)@.restored == final(back).restored);
    assert(final(refused)@.restored == final(refused).restored);
    assert(final(back)@.applied.drop_last() =~= old(back)@.applied);
}

/// A clip that came back under another ID is among the renames, and no other is; the ID
/// that a clip has now is the new one of its first rename, or the one it had.
pub proof fn a_clip_under_another_id_is_renamed(
    applied: Seq<AppliedModel>,
    next: AppliedModel,
    renames: Seq<(Seq<char>, Seq<char>)>,
    id: Seq<char>,
    i: int,
)
    ensures
        renames_of(seq![]) == Seq::<(Seq<char>, Seq<char>)>::empty(),
        next.id == next.now_id ==> renames_of(applied.push(next)) == renames_of(applied),
        next.id != next.now_id ==> renames_of(applied.push(next)) == renames_of(applied).push(
            (next.id, next.now_id),
        ),
        0 <= i < renames.len() && renames[i].0 == id && (forall|j: int|
            0 <= j < i ==> (#[trigger] renames[j]).0 != id) ==> id_now(id, renames)
            == renames[i].1,
        (forall|j: int| 0 <= j < renames.len() ==> (#[trigger] renames[j]).0 != id) ==> id_now(
            id,
            renames,
        ) == id,
{
    assert(applied.push(next).drop_last() =~= applied);
    if 0 <= i < renames.len() && renames[i].0 == id && (forall|j: int|
        0 <= j < i ==> (#[trigger] renames[j]).0 != id) {
        lemma_id_now(id, renames, i);
    }
    if forall|j: int| 0 <= j < renames.len() ==> (#[trigger] renames[j]).0 != id {
        lemma_id_now(id, renames, renames.len() as int);
    }
}

proof fn lemma_id_now(id: Seq<char>, renames: Seq<(Seq<char>, Seq<char>)>, i: int)
    requires
        0 <= i <= renames.len(),
        i < renames.len() ==> renames[i].0 == id,
        forall|j: int| 0 <= j < i ==> (#[trigger] renames[j]).0 != id,
    ensures
        i < renames.len() ==> id_now(id, renames) == renames[i].1,
        i == renames.len() ==> id_now(id, renames) == id,
    decreases renames.len(),
{
    if i > 0 {
        assert(renames[0].0 != id);
        let less = renames.drop_first();
        assert forall|j: int| 0 <= j < i - 1 implies (#[trigger] less[j]).0 != id by {
            assert(less[j] == renames[j + 1]);
        }
        lemma_id_now(id, less, i - 1);
    }
}

/// The restores to decode are those whose clip has a row without a picture, in order.
pub proof fn a_row_without_a_picture_is_decoded(
    restores: Seq<(Seq<char>, RecordModel)>,
    next: (Seq<char>, RecordModel),
    rows: Seq<RowModel>,
)
    ensures
        to_decode(seq![], rows) == Seq::<(Seq<char>, RecordModel)>::empty(),
        (exists|i: int|
            0 <= i < rows.len() && (#[trigger] rows[i]).id == next.0 && rows[i].thumb.width == 0)
            ==> to_decode(restores.push(next), rows) == to_decode(restores, rows).push(next),
        (forall|i: int|
            0 <= i < rows.len() && (#[trigger] rows[i]).id == next.0 ==> rows[i].thumb.width != 0)
            ==> to_decode(restores.push(next), rows) == to_decode(restores, rows),
{
    assert(restores.push(next).drop_last() =~= restores);
}

/// What is shown after a run. Where nothing failed the rows are those that the
/// operations make of the rows before; where something did, those that the engine's
/// clips make of them. As many track rows are shown as the step or the engine needs,
/// whichever is more. A failure is told, and none where there was none.
pub proof fn the_rows_follow_what_was_done(
    run: &Run,
    work: &Work,
    rows: &Vec<TimelineClip>,
    selected: i32,
    engine: &Vec<(String, ClipRecord)>,
    tracks: usize,
    r: Shown,
    done: Vec<TimelineClip>,
    resync: Vec<Applied>,
)
    requires
        call_ensures(Run::finish, (run, work, rows, selected, engine, tracks), r),
        call_ensures(rows_after, (rows, &run.applied, &work.kept), done),
        call_ensures(applied_from_engine, (rows, engine), resync),
    ensures
        run.failed is None ==> models(r.rows@) == models(done@) && r.failed is None,
        run.failed is Some ==> models(r.rows@) == after_all(
            models(rows@),
            models(resync@),
            kept_renamed(work@.kept, renames_of(models(run.applied@))),
        ),
        r.track_rows >= work.tracks && r.track_rows >= tracks,
        r.track_rows == work.tracks || r.track_rows == tracks,
        models(r.renames@) == renames_of(models(run.applied@)),
        models(r.without_thumb@) == to_decode(work@.plan.restores, models(r.rows@)),
        run.failed is Some ==> {
            &&& r.failed is Some && !r.failed->0.info
            &&& work.dir is Undo ==> r.failed->0.title@ == "Could not undo"@
            &&& work.dir is Redo ==> r.failed->0.title@ == "Could not redo"@
            &&& r.failed->0.detail@
                == "The engine refused a change, so the timeline shows what it holds now and the step is still there to try again.\n"@
                + run.failed->0@
        },
{
    assert(run@.applied == models(run.applied@) && run@.failed == opt_model(run.failed));
    assert(work@.kept == work.kept@ && work@.tracks == work.tracks && work@.dir == work.dir);
    if let Some(d) = r.failed {
        assert(d@.title == d.title@ && d@.detail == d.detail@ && d@.info == d.info);
    }
}

/// The row selected after a run is that of the step's own clip, under the ID it has now;
/// where it has none, that of the clip that was selected; else none is.
pub proof fn the_clip_of_the_step_is_selected(
    run: &Run,
    work: &Work,
    rows: &Vec<TimelineClip>,
    selected: i32,
    engine: &Vec<(String, ClipRecord)>,
    tracks: usize,
    r: Shown,
    i: int,
)
    requires
        call_ensures(Run::finish, (run, work, rows, selected, engine, tracks), r),
        0 <= i < r.rows.len(),
    ensures
        work.subject matches Some(id) ==> row_at(
            models(r.rows@),
            id_now(id@, models(r.renames@)),
            i,
        ) ==> r.select == i,
        work.subject is None && 0 <= selected < rows.len() && row_at(
            models(r.rows@),
            rows[selected as int].id@,
            i,
        ) ==> r.select == i,
        work.subject is None && !(0 <= selected < rows.len()) ==> r.select == -1,
{
    let m = models(r.rows@);
    assert(work@.subject == opt_model(work.subject));
    assert(models(r.renames@) == renames_of(run@.applied));
    if let Some(id) = work.subject {
        let now = id_now(id@, models(r.renames@));
        if row_at(m, now, i) {
            lemma_first_row(m, now, i);
        }
    } else if 0 <= selected < rows.len() {
        let id = rows[selected as int].id@;
        if row_at(m, id, i) {
            lemma_first_row(m, id, i);
        }
    }
}

/// A step that was carried out moves to the other stack, and is the only one that moves.
/// One that the engine refused stays on top, sealed off. Without renames every step
/// stays as it is.
pub proof fn a_step_moves_once_it_is_carried_out(
    history: &mut History<TimelineStep>,
    dir: Direction,
    failed: bool,
    renames: &Vec<(String, String)>,
    now: u64,
)
    requires
        call_ensures(settle, (history, dir, failed, renames, now), ()),
        old(history)@.undo.len() < 200,
    ensures
        final(history)@.sealed,
        failed ==> final(history)@.undo.len() == old(history)@.undo.len() && final(history)@.redo.len() == old(history)@.redo.len(),
        !failed && dir is Undo && old(history)@.undo.len() > 0 ==> {
            &&& final(history)@.undo.len() == old(history)@.undo.len() - 1
            &&& final(history)@.redo.len() == old(history)@.redo.len() + 1
            &&& renames.len() == 0 ==> final(history)@.redo.last()@ == old(history)@.undo.last().0@
        },
        !failed && dir is Redo && old(history)@.redo.len() > 0 ==> {
            &&& final(history)@.undo.len() == old(history)@.undo.len() + 1
            &&& final(history)@.redo.len() == old(history)@.redo.len() - 1
            &&& final(history)@.undo.last().1 == now
            &&& renames.len() == 0 ==> final(history)@.undo.last().0@ == old(history)@.redo.last()@
        },
        renames.len() == 0 && failed ==> forall|i: int|
            0 <= i < old(history)@.undo.len() ==> (#[trigger] final(history)@.undo[i]).0@ == old(history)@.undo[i].0@,
{
    let h = after_step(old(history)@, dir, failed, now);
    let names = models(renames@);
    assert(names.len() == renames.len());
    assert(stacks_renamed(h, names, final(history)@));
    if h.undo.len() > 0 {
        let k = h.undo.len() - 1;
        assert(final(history)@.undo[k].0@ == all_renamed(h.undo[k].0@, names));
    }
    if h.redo.len() > 0 {
        let k = h.redo.len() - 1;
        assert(final(history)@.redo[k]@ == all_renamed(h.redo[k]@, names));
    }
}

/// One more rename moves the row kept for the clip to its new ID, and no other row.
pub proof fn a_kept_row_follows_its_clip(
    kept: Map<Seq<char>, RowModel>,
    renames: Seq<(Seq<char>, Seq<char>)>,
    next: (Seq<char>, Seq<char>),
    id: Seq<char>,
)
    ensures
        kept_renamed(kept, seq![]) == kept,
        ({
            let before = kept_renamed(kept, renames);
            let after = kept_renamed(kept, renames.push(next));
            &&& !before.dom().contains(next.0) ==> after == before
            &&& before.dom().contains(next.0) ==> after.dom().contains(next.1) && after[next.1]
                == before[next.0]
            &&& before.dom().contains(next.0) && next.0 != next.1 ==> !after.dom().contains(next.0)
            &&& id != next.0 && id != next.1 ==> entry(after, id) == entry(before, id)
        }),
{
    assert(renames.push(next).drop_last() =~= renames);
}

/// The renames of a run are applied to a step one after the other.
pub proof fn renames_are_applied_in_turn(
    step: TimelineModel,
    renames: Seq<(Seq<char>, Seq<char>)>,
    next: (Seq<char>, Seq<char>),
)
    ensures
        all_renamed(step, seq![]) == step,
        all_renamed(step, renames.push(next)) == all_renamed(step, renames).with_rename(
            next.0,
            next.1,
        ),
{
    assert(renames.push(next).drop_last() =~= renames);
}

} // verus!
