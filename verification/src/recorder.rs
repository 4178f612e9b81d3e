//! Recording an edit of the timeline as a step of its history.

use crate::clip::{equal_records, RowModel, TimelineClip};
use crate::history::{History, Step};
use crate::order::models;
use crate::timeline_rows::{
    find_row, index_rows, lemma_first_row, lemma_no_row, position, row_at, rows_by_id,
};
use crate::timeline_undo::{
    comes_or_goes, entry, ids_of, is_diff, Capture, CaptureModel, StepKind, TimelineModel, TimelineStep,
};
use vstd::prelude::*;

verus! {

/// What a step calls its clip: by the clip's row, else by its record before the
/// edit, else by its record after it.
pub open spec fn step_name(
    rows: Seq<RowModel>,
    subject: Option<Seq<char>>,
    before: CaptureModel,
    after: CaptureModel,
) -> Seq<char> {
    match subject {
        None => seq![],
        Some(id) => match find_row(rows, id) {
            Some(i) => rows[i].name,
            None => match (entry(before.records, id), entry(after.records, id)) {
                (Some(record), _) => record.name,
                (None, Some(record)) => record.name,
                (None, None) => seq![],
            },
        },
    }
}

/// Whether `step` is what an edit changed: the comparison of both captures, and
/// the rows of the clips that come or go.
pub open spec fn is_step_of(
    step: TimelineModel,
    kind: StepKind,
    subject: Option<Seq<char>>,
    rows: Seq<RowModel>,
    before: CaptureModel,
    after: CaptureModel,
) -> bool {
    &&& step.kind == kind
    &&& step.subject == subject
    &&& step.name == step_name(rows, subject, before, after)
    &&& is_diff(before.records, after.records, step.changes)
    &&& step.kept == rows_by_id(rows).restrict(
        Set::new(|id: Seq<char>| comes_or_goes(step.changes, id)),
    )
    &&& step.tracks_before == before.tracks
    &&& step.tracks_after == after.tracks
}

/// Record what an edit changed. Call it after the engine edit and after an
/// added clip's row is pushed, but before a deleted clip's row is removed:
/// the step's name and the rows it keeps come from the rows.
pub fn record_captures(
    history: &mut History<TimelineStep>,
    rows: &Vec<TimelineClip>,
    kind: StepKind,
    subject: Option<&String>,
    before: &Capture,
    after: &Capture,
    now: u64,
)
    requires
        old(history)@.bounded(),
        before.wf(),
        after.wf(),
    ensures
        final(history)@.bounded(),
        exists|step: TimelineStep|
            {
                &&& #[trigger] old(history)@.records(step, now, final(history)@)
                &&& is_step_of(
                    step@,
                    kind,
                    match subject {
                        Some(s) => Some(s@),
                        None => None,
                    },
                    models(rows@),
                    before@,
                    after@,
                )
            },
{
    let name = match subject {
        None => String::new(),
        Some(id) => match position(rows, id) {
            Some(i) => {
                assert(models(rows@)[i as int] == rows[i as int]@);
                rows[i].name.clone()
            },
            None => match before.records.get(id) {
                Some(record) => record.name.clone(),
                None => match after.records.get(id) {
                    Some(record) => record.name.clone(),
                    None => String::new(),
                },
            },
        },
    };
    let by_id = index_rows(rows);
    let step = TimelineStep::new(kind, subject, &name, before, after, &by_id);
    let ghost s = step;
    history.record(step, now);
    assert(old(history)@.records(s, now, history@));
}

/// A step is called by the first row of its clip; where there is none, by the clip's
/// record before the edit, or else by the one after it; one that is about no clip has
/// no name.
pub proof fn a_step_is_called_by_its_clip(
    rows: Seq<RowModel>,
    subject: Option<Seq<char>>,
    before: CaptureModel,
    after: CaptureModel,
    i: int,
)
    ensures
        subject is None ==> step_name(rows, subject, before, after).len() == 0,
        subject matches Some(id) ==> {
            &&& 0 <= i < rows.len() && rows[i].id == id && (forall|j: int|
                0 <= j < i ==> (#[trigger] rows[j]).id != id) ==> step_name(
                rows,
                subject,
                before,
                after,
            ) == rows[i].name
            &&& (forall|j: int| 0 <= j < rows.len() ==> (#[trigger] rows[j]).id != id) ==> {
                let name = step_name(rows, subject, before, after);
                &&& before.records.dom().contains(id) ==> name == before.records[id].name
                &&& !before.records.dom().contains(id) && after.records.dom().contains(id) ==> name
                    == after.records[id].name
                &&& !before.records.dom().contains(id) && !after.records.dom().contains(id)
                    ==> name.len() == 0
            }
        },
{
    if let Some(id) = subject {
        if 0 <= i < rows.len() && rows[i].id == id && (forall|j: int|
            0 <= j < i ==> (#[trigger] rows[j]).id != id) {
            assert(row_at(rows, id, i));
            lemma_first_row(rows, id, i);
        }
        if forall|j: int| 0 <= j < rows.len() ==> (#[trigger] rows[j]).id != id {
            lemma_no_row(rows, id);
        }
    }
}

/// An edit that changed a clip's track, or brought or took a clip, is recorded: what
/// could be redone is gone, and the newest step to undo is of this moment, unless it
/// went into the one before it and cancelled that out.
pub proof fn an_edit_is_recorded(
    history: &mut History<TimelineStep>,
    rows: &Vec<TimelineClip>,
    kind: StepKind,
    subject: Option<&String>,
    before: &Capture,
    after: &Capture,
    now: u64,
    id: Seq<char>,
)
    requires
        call_ensures(record_captures, (history, rows, kind, subject, before, after, now), ()),
        old(history)@.bounded(),
        before.records@.dom().contains(id) != after.records@.dom().contains(id)
            || before.records@.dom().contains(id) && before.records@[id].track
            != after.records@[id].track || before.tracks != after.tracks,
    ensures
        final(history)@.redo.len() == 0,
        final(history)@.undo.len() >= old(history)@.undo.len() ==> final(history)@.undo.len() > 0
            && final(history)@.undo.last().1 == now,
        old(history)@.sealed || old(history)@.undo.len() == 0 ==> final(history)@.undo.last().0.kind == kind && final(history)@.undo.last().0.tracks_before
            == before.tracks && final(history)@.undo.last().0.tracks_after == after.tracks,
        old(history)@.sealed || old(history)@.undo.len() == 0 ==> {
            let step = final(history)@.undo.last().0@;
            let of: Option<Seq<char>> = match subject {
                Some(s) => Some(s@),
                None => None,
            };
            &&& step.subject == of
            &&& step.name == step_name(models(rows@), of, before@, after@)
            &&& is_diff(before.records@, after.records@, step.changes)
        },
{
    let subject_id = match subject {
        Some(s) => Some(s@),
        None => None,
    };
    let step = choose|step: TimelineStep|
        {
            &&& #[trigger] old(history)@.records(step, now, final(history)@)
            &&& is_step_of(step@, kind, subject_id, models(rows@), before@, after@)
        };
    let changes = step@.changes;
    if before.tracks == after.tracks {
        assert(!equal_records(entry(before@.records, id), entry(after@.records, id)));
        assert(ids_of(changes).contains(id));
        assert(ids_of(changes).len() == changes.len());
    }
    assert(step@.tracks_before == step.tracks_before && step@.tracks_after == step.tracks_after);
    assert(step@.kind == step.kind);
    assert(!step.changed_nothing());
}

} // verus!
