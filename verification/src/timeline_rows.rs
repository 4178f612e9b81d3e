//! The timeline's rows: how they follow what the engine did, and which of them
//! is selected afterwards.

use crate::assoc::Assoc;
use crate::clip::{fresh_row, opt_model, ClipRecord, RecordModel, RowModel, TimelineClip};
use crate::order::{insert_sorted, listed, models};
use crate::text::{decimal, push_decimal};
use crate::timeline_laws::{after_plan, put_all};
use crate::timeline_undo::{entry, PlanModel, Records};
use vstd::prelude::*;

verus! {

/// What one engine operation did, as the rows need it: the clip's ID in the
/// step, the ID it has now (a restore can hand back a new one), and its
/// record, or `None` if the clip is gone.
#[derive(PartialEq, Debug)]
pub struct Applied {
    pub id: String,
    pub now_id: String,
    pub record: Option<ClipRecord>,
}

/// What one engine operation did.
pub struct AppliedModel {
    pub id: Seq<char>,
    pub now_id: Seq<char>,
    pub record: Option<RecordModel>,
}

impl View for Applied {
    type V = AppliedModel;

    open spec fn view(&self) -> AppliedModel {
        AppliedModel {
            id: self.id@,
            now_id: self.now_id@,
            record: opt_model(self.record),
        }
    }
}

/// Whether the first row of a clip is at `i`.
pub open spec fn row_at(rows: Seq<RowModel>, id: Seq<char>, i: int) -> bool {
    &&& 0 <= i < rows.len()
    &&& rows[i].id == id
    &&& forall|j: int| 0 <= j < i ==> (#[trigger] rows[j]).id != id
}

/// Where the first row of a clip is, if it has one.
pub open spec fn find_row(rows: Seq<RowModel>, id: Seq<char>) -> Option<int> {
    if exists|i: int| row_at(rows, id, i) {
        Some(choose|i: int| row_at(rows, id, i))
    } else {
        None
    }
}

/// There is only one first row of a clip.
pub proof fn lemma_first_row(rows: Seq<RowModel>, id: Seq<char>, i: int)
    requires
        row_at(rows, id, i),
    ensures
        find_row(rows, id) == Some(i),
{
    let k = choose|k: int| row_at(rows, id, k);
    assert(row_at(rows, id, k));
    if k < i {
        assert(rows[k].id != id);
    }
    if i < k {
        assert(rows[i].id != id);
    }
}

/// A clip of which no row is has none.
pub proof fn lemma_no_row(rows: Seq<RowModel>, id: Seq<char>)
    requires
        forall|j: int| 0 <= j < rows.len() ==> (#[trigger] rows[j]).id != id,
    ensures
        find_row(rows, id) is None,
{
    if exists|i: int| row_at(rows, id, i) {
        let i = choose|i: int| row_at(rows, id, i);
        assert(rows[i].id == id);
    }
}

/// Where the first row of a clip is, if it has one.
pub fn position(rows: &Vec<TimelineClip>, id: &String) -> (r: Option<usize>)
    ensures
        match r {
            Some(i) => i < rows.len() && row_at(models(rows@), id@, i as int) && find_row(
                models(rows@),
                id@,
            ) == Some(i as int),
            None => find_row(models(rows@), id@) is None && forall|j: int|
                0 <= j < rows.len() ==> (#[trigger] models(rows@)[j]).id != id@,
        },
{
    let ghost m = models(rows@);
    let mut i: usize = 0;
    while i < rows.len()
        invariant
            i <= rows.len(),
            m == models(rows@),
            forall|j: int| 0 <= j < i ==> (#[trigger] m[j]).id != id@,
        decreases rows.len() - i,
    {
        assert(m[i as int] == rows[i as int]@);
        if rows[i].id == *id {
            proof {
                lemma_first_row(m, id@, i as int);
            }
            return Some(i);
        }
        i += 1;
    }
    proof {
        lemma_no_row(m, id@);
    }
    None
}

/// The row of a clip that comes back: the one kept for it, unselected, or else
/// one built from its record.
pub open spec fn returned_row(
    id: Seq<char>,
    record: RecordModel,
    kept: Option<RowModel>,
) -> RowModel {
    match kept {
        Some(row) => RowModel { selected: false, ..row }.placed(id, record),
        None => fresh_row(id, record),
    }
}

/// The rows after one engine operation.
pub open spec fn after_one(
    rows: Seq<RowModel>,
    a: AppliedModel,
    kept: Map<Seq<char>, RowModel>,
) -> Seq<RowModel> {
    match (a.record, find_row(rows, a.id)) {
        (None, Some(i)) => rows.remove(i),
        (None, None) => rows,
        (Some(record), Some(i)) => rows.update(i, rows[i].placed(a.now_id, record)),
        (Some(record), None) => rows.push(returned_row(a.now_id, record, entry(kept, a.id))),
    }
}

/// The rows after engine operations, one after the other.
pub open spec fn after_all(
    rows: Seq<RowModel>,
    applied: Seq<AppliedModel>,
    kept: Map<Seq<char>, RowModel>,
) -> Seq<RowModel>
    decreases applied.len(),
{
    if applied.len() == 0 {
        rows
    } else {
        after_one(after_all(rows, applied.drop_last(), kept), applied.last(), kept)
    }
}

/// The timeline rows after `applied`. A gone clip loses its row; a changed
/// clip keeps its row (name, thumbnail, selection) in its new place; a clip
/// that comes back gets the row `kept` has for it, unselected, or else a row
/// built from its record.
pub fn rows_after(
    rows: &Vec<TimelineClip>,
    applied: &Vec<Applied>,
    kept: &Assoc<TimelineClip>,
) -> (r: Vec<TimelineClip>)
    ensures
        models(r@) == after_all(models(rows@), models(applied@), kept@),
{
    let mut out = clone_rows(rows);
    let ghost start = models(rows@);
    let ghost ops = models(applied@);
    let mut k: usize = 0;
    while k < applied.len()
        invariant
            k <= applied.len(),
            ops == models(applied@),
            models(out@) == after_all(start, ops.take(k as int), kept@),
        decreases applied.len() - k,
    {
        let a = &applied[k];
        let ghost before = models(out@);
        assert(ops[k as int] == a@);
        assert(ops.take(k + 1).drop_last() =~= ops.take(k as int));
        match (&a.record, position(&out, &a.id)) {
            (None, Some(i)) => {
                let _ = out.remove(i);
                assert(models(out@) =~= before.remove(i as int));
            },
            (None, None) => {},
            (Some(record), Some(i)) => {
                let mut row = out[i].clone();
                row.place(&a.now_id, record);
                out.set(i, row);
                assert(models(out@) =~= before.update(
                    i as int,
                    before[i as int].placed(a.now_id@, record@),
                ));
            },
            (Some(record), None) => {
                let row = match kept.get(&a.id) {
                    Some(row) => {
                        let mut row = row.clone();
                        row.selected = false;
                        row.place(&a.now_id, record);
                        row
                    },
                    None => TimelineClip::fresh(&a.now_id, record),
                };
                let ghost added = row@;
                out.push(row);
                assert(models(out@) =~= before.push(added));
            },
        }
        k += 1;
    }
    assert(ops.take(k as int) =~= ops);
    out
}

/// The same rows once more.
pub fn clone_rows(rows: &Vec<TimelineClip>) -> (r: Vec<TimelineClip>)
    ensures
        models(r@) == models(rows@),
{
    let mut r: Vec<TimelineClip> = Vec::new();
    let mut i: usize = 0;
    while i < rows.len()
        invariant
            i <= rows.len(),
            r.len() == i,
            forall|j: int| 0 <= j < i ==> (#[trigger] r@[j])@ == rows@[j]@,
        decreases rows.len() - i,
    {
        r.push(rows[i].clone());
        i += 1;
    }
    assert(models(r@) =~= models(rows@));
    r
}

/// The rows by the ID of their clip, the later of two with one ID.
pub open spec fn rows_by_id(rows: Seq<RowModel>) -> Map<Seq<char>, RowModel>
    decreases rows.len(),
{
    if rows.len() == 0 {
        Map::empty()
    } else {
        rows_by_id(rows.drop_last()).insert(rows.last().id, rows.last())
    }
}

/// The rows by the ID of their clip.
pub fn index_rows(rows: &Vec<TimelineClip>) -> (r: Assoc<TimelineClip>)
    ensures
        r@ == rows_by_id(models(rows@)),
{
    let mut r: Assoc<TimelineClip> = Assoc::new();
    let ghost m = models(rows@);
    let mut i: usize = 0;
    while i < rows.len()
        invariant
            i <= rows.len(),
            m == models(rows@),
            r@ == rows_by_id(m.take(i as int)),
        decreases rows.len() - i,
    {
        r.insert(rows[i].id.clone(), rows[i].clone());
        assert(m[i as int] == rows[i as int]@);
        assert(m.take(i + 1).drop_last() =~= m.take(i as int));
        i += 1;
    }
    assert(m.take(i as int) =~= m);
    r
}

/// The row to select after an undo or redo.
pub open spec fn selected_row(
    rows: Seq<RowModel>,
    subject: Option<Seq<char>>,
    selected: Option<Seq<char>>,
) -> int {
    let first = match subject {
        Some(id) => find_row(rows, id),
        None => None,
    };
    let second = match selected {
        Some(id) => find_row(rows, id),
        None => None,
    };
    match (first, second) {
        (Some(i), _) => i,
        (None, Some(i)) => i,
        (None, None) => -1,
    }
}

/// The row to select after an undo or redo: the step's own clip if it is on
/// the timeline, so the change is visible; else the clip that was selected, if
/// it still exists; else none.
pub fn selection_after(
    rows: &Vec<TimelineClip>,
    subject: Option<&String>,
    selected: Option<&String>,
) -> (r: i32)
    requires
        rows.len() <= i32::MAX,
    ensures
        r == selected_row(
            models(rows@),
            match subject {
                Some(s) => Some(s@),
                None => None,
            },
            match selected {
                Some(s) => Some(s@),
                None => None,
            },
        ),
{
    if let Some(id) = subject {
        if let Some(i) = position(rows, id) {
            return i as i32;
        }
    }
    if let Some(id) = selected {
        if let Some(i) = position(rows, id) {
            return i as i32;
        }
    }
    -1
}

/// The IDs of the engine's clips.
pub open spec fn clip_ids(records: Seq<(Seq<char>, RecordModel)>) -> Seq<Seq<char>> {
    records.map_values(|e: (Seq<char>, RecordModel)| e.0)
}

/// For each row whose clip the engine does not have: that it is gone.
pub open spec fn gone_rows(rows: Seq<RowModel>, live: Seq<Seq<char>>) -> Seq<AppliedModel>
    decreases rows.len(),
{
    if rows.len() == 0 {
        seq![]
    } else if live.contains(rows.last().id) {
        gone_rows(rows.drop_last(), live)
    } else {
        gone_rows(rows.drop_last(), live).push(
            AppliedModel { id: rows.last().id, now_id: rows.last().id, record: None },
        )
    }
}

/// For each clip of the engine: that it is as it is.
pub open spec fn present_clips(records: Seq<(Seq<char>, RecordModel)>) -> Seq<AppliedModel> {
    records.map_values(
        |e: (Seq<char>, RecordModel)| AppliedModel { id: e.0, now_id: e.0, record: Some(e.1) },
    )
}

/// Writes that bring the rows in line with the engine's clips, whatever the
/// rows show now: every row whose clip is gone, then every clip as it is.
pub fn applied_from_engine(
    rows: &Vec<TimelineClip>,
    records: &Vec<(String, ClipRecord)>,
) -> (r: Vec<Applied>)
    ensures
        models(r@) == gone_rows(models(rows@), clip_ids(models(records@))) + present_clips(
            models(records@),
        ),
{
    let ghost m = models(rows@);
    let ghost e = models(records@);
    let live = live_ids(records);
    let mut r: Vec<Applied> = Vec::new();
    let mut i: usize = 0;
    assert(models(r@) =~= gone_rows(m.take(0), clip_ids(e)));
    while i < rows.len()
        invariant
            i <= rows.len(),
            m == models(rows@),
            listed::<String>(models(live@)),
            models(live@).to_set() == clip_ids(e).to_set(),
            models(r@) == gone_rows(m.take(i as int), clip_ids(e)),
        decreases rows.len() - i,
    {
        let ghost r0 = models(r@);
        assert(m[i as int] == rows[i as int]@);
        assert(m.take(i + 1).drop_last() =~= m.take(i as int));
        assert(models(live@).to_set().contains(rows[i as int].id@) == clip_ids(
            e,
        ).to_set().contains(rows[i as int].id@));
        if !crate::order::contains(&live, &rows[i].id) {
            r.push(Applied { id: rows[i].id.clone(), now_id: rows[i].id.clone(), record: None });
            assert(models(r@) =~= r0.push(
                AppliedModel { id: rows[i as int].id@, now_id: rows[i as int].id@, record: None },
            ));
        }
        i += 1;
    }
    assert(m.take(i as int) =~= m);
    let ghost gone = models(r@);
    let mut k: usize = 0;
    assert(models(r@) =~= gone + present_clips(e.take(0)));
    while k < records.len()
        invariant
            k <= records.len(),
            e == models(records@),
            models(r@) == gone + present_clips(e.take(k as int)),
        decreases records.len() - k,
    {
        let ghost r0 = models(r@);
        assert(e[k as int] == (records[k as int].0@, records[k as int].1@));
        r.push(
            Applied {
                id: records[k].0.clone(),
                now_id: records[k].0.clone(),
                record: Some(records[k].1.clone()),
            },
        );
        assert(models(r@) =~= r0.push(r@.last()@));
        assert(models(r@) =~= gone + present_clips(e.take(k + 1)));
        k += 1;
    }
    assert(e.take(k as int) =~= e);
    r
}

/// The IDs of the engine's clips, in order.
fn live_ids(records: &Vec<(String, ClipRecord)>) -> (r: Vec<String>)
    ensures
        listed::<String>(models(r@)),
        models(r@).to_set() == clip_ids(models(records@)).to_set(),
{
    let ghost ids = clip_ids(models(records@));
    let mut r: Vec<String> = Vec::new();
    let mut i: usize = 0;
    assert(models(r@).to_set() =~= ids.take(0).to_set());
    while i < records.len()
        invariant
            i <= records.len(),
            ids == clip_ids(models(records@)),
            listed::<String>(models(r@)),
            models(r@).to_set() == ids.take(i as int).to_set(),
        decreases records.len() - i,
    {
        insert_sorted(&mut r, records[i].0.clone());
        proof {
            assert(ids[i as int] == records[i as int].0@);
            assert(ids.take(i + 1) =~= ids.take(i as int).push(ids[i as int]));
            crate::order::lemma_push_to_set(ids.take(i as int), ids[i as int]);
        }
        i += 1;
    }
    assert(ids.take(i as int) =~= ids);
    r
}

/// The name of the track row at place `i`.
pub open spec fn track_name(i: int) -> Seq<char> {
    "Track "@ + decimal((i + 1) as nat)
}

/// The track rows, cut or grown to `count`, new ones named in order.
pub open spec fn track_rows(tracks: Seq<Seq<char>>, count: nat) -> Seq<Seq<char>> {
    Seq::new(count, |i: int| if i < tracks.len() { tracks[i] } else { track_name(i) })
}

/// Make the timeline show exactly `count` track rows, named in order.
pub fn set_track_rows(tracks: &mut Vec<String>, count: usize)
    ensures
        models(final(tracks)@) == track_rows(models(old(tracks)@), count as nat),
{
    let ghost before = models(tracks@);
    tracks.truncate(count);
    assert(forall|j: int| 0 <= j < tracks.len() ==> (#[trigger] tracks@[j]) == old(tracks)@[j]);
    assert forall|j: int| 0 <= j < tracks.len() implies (#[trigger] tracks@[j])@ == before[j] by {
        assert(tracks@[j] == old(tracks)@[j]);
    }
    while tracks.len() < count
        invariant
            tracks.len() <= count,
            before.len() <= tracks.len() || tracks.len() == count,
            forall|j: int|
                0 <= j < tracks.len() ==> (#[trigger] tracks@[j])@ == if j < before.len() {
                    before[j]
                } else {
                    track_name(j)
                },
        decreases count - tracks.len(),
    {
        let mut name = String::from_str("Track ");
        push_decimal(&mut name, tracks.len() as u64 + 1);
        tracks.push(name);
    }
    assert(models(tracks@) =~= track_rows(before, count as nat));
}

// ---------------------------------------------------------------------------
// Laws
// ---------------------------------------------------------------------------

/// Whether the rows show what the engine holds: one row per clip, where its
/// record places it.
pub open spec fn mirrors(rows: Seq<RowModel>, records: Records) -> bool {
    &&& forall|i: int, j: int|
        0 <= i < j < rows.len() ==> (#[trigger] rows[i]).id != (#[trigger] rows[j]).id
    &&& forall|i: int|
        0 <= i < rows.len() ==> records.dom().contains((#[trigger] rows[i]).id) && rows[i]
            == rows[i].placed(rows[i].id, records[rows[i].id])
    &&& forall|id: Seq<char>| #[trigger]
        records.dom().contains(id) ==> exists|i: int|
            0 <= i < rows.len() && (#[trigger] rows[i]).id == id
}

/// The engine's records after one operation that keeps the clip's ID.
pub open spec fn engine_after_one(records: Records, a: AppliedModel) -> Records {
    match a.record {
        Some(record) => records.insert(a.id, record),
        None => records.remove(a.id),
    }
}

/// The engine's records after operations that keep the clips' IDs.
pub open spec fn engine_after(records: Records, applied: Seq<AppliedModel>) -> Records
    decreases applied.len(),
{
    if applied.len() == 0 {
        records
    } else {
        engine_after_one(engine_after(records, applied.drop_last()), applied.last())
    }
}

proof fn lemma_mirror_one(
    rows: Seq<RowModel>,
    records: Records,
    a: AppliedModel,
    kept: Map<Seq<char>, RowModel>,
)
    requires
        mirrors(rows, records),
        a.id == a.now_id,
    ensures
        mirrors(after_one(rows, a, kept), engine_after_one(records, a)),
{
    let out = after_one(rows, a, kept);
    let e = engine_after_one(records, a);
    if exists|i: int| 0 <= i < rows.len() && (#[trigger] rows[i]).id == a.id {
        let i = choose|i: int| 0 <= i < rows.len() && (#[trigger] rows[i]).id == a.id;
        assert(row_at(rows, a.id, i)) by {
            assert forall|j: int| 0 <= j < i implies (#[trigger] rows[j]).id != a.id by {
                assert(rows[j].id != rows[i].id);
            }
        }
        lemma_first_row(rows, a.id, i);
        match a.record {
            None => {
                assert forall|k: int| 0 <= k < out.len() implies #[trigger] out[k] == rows[if k < i {
                    k
                } else {
                    k + 1
                }] by {}
                assert forall|k: int| 0 <= k < out.len() implies e.dom().contains(
                    (#[trigger] out[k]).id,
                ) && out[k] == out[k].placed(out[k].id, e[out[k].id]) by {
                    let m = if k < i { k } else { k + 1 };
                    assert(out[k] == rows[m]);
                    if m < i {
                        assert(rows[m].id != rows[i].id);
                    } else {
                        assert(rows[i].id != rows[m].id);
                    }
                }
                assert forall|x: int, y: int| 0 <= x < y < out.len() implies (#[trigger] out[x]).id
                    != (#[trigger] out[y]).id by {
                    let mx = if x < i { x } else { x + 1 };
                    let my = if y < i { y } else { y + 1 };
                    assert(rows[mx].id != rows[my].id);
                }
                assert forall|id: Seq<char>| #[trigger] e.dom().contains(id) implies exists|k: int|
                    0 <= k < out.len() && (#[trigger] out[k]).id == id by {
                    assert(records.dom().contains(id));
                    let m = choose|m: int| 0 <= m < rows.len() && (#[trigger] rows[m]).id == id;
                    let k = if m < i { m } else { m - 1 };
                    assert(out[k] == rows[m]);
                }
            },
            Some(record) => {
                assert forall|k: int| 0 <= k < out.len() implies e.dom().contains(
                    (#[trigger] out[k]).id,
                ) && out[k] == out[k].placed(out[k].id, e[out[k].id]) by {
                    if k != i {
                        assert(out[k] == rows[k]);
                        if k < i {
                            assert(rows[k].id != rows[i].id);
                        } else {
                            assert(rows[i].id != rows[k].id);
                        }
                    }
                }
                assert forall|x: int, y: int| 0 <= x < y < out.len() implies (#[trigger] out[x]).id
                    != (#[trigger] out[y]).id by {
                    assert(rows[x].id != rows[y].id);
                }
                assert forall|id: Seq<char>| #[trigger] e.dom().contains(id) implies exists|k: int|
                    0 <= k < out.len() && (#[trigger] out[k]).id == id by {
                    if id == a.id {
                        assert(out[i].id == id);
                    } else {
                        assert(records.dom().contains(id));
                        let m = choose|m: int| 0 <= m < rows.len() && (#[trigger] rows[m]).id == id;
                        assert(out[m].id == id);
                    }
                }
            },
        }
    } else {
        lemma_no_row(rows, a.id);
        if records.dom().contains(a.id) {
            let i = choose|i: int| 0 <= i < rows.len() && (#[trigger] rows[i]).id == a.id;
            assert(false);
        }
        match a.record {
            None => {
                assert(e =~= records);
            },
            Some(record) => {
                let n = rows.len() as int;
                assert(out[n].id == a.id);
                assert forall|k: int| 0 <= k < out.len() implies e.dom().contains(
                    (#[trigger] out[k]).id,
                ) && out[k] == out[k].placed(out[k].id, e[out[k].id]) by {
                    if k < n {
                        assert(out[k] == rows[k]);
                        assert(rows[k].id != a.id);
                    }
                }
                assert forall|x: int, y: int| 0 <= x < y < out.len() implies (#[trigger] out[x]).id
                    != (#[trigger] out[y]).id by {
                    if y < n {
                        assert(rows[x].id != rows[y].id);
                    } else {
                        assert(rows[x].id != a.id);
                    }
                }
                assert forall|id: Seq<char>| #[trigger] e.dom().contains(id) implies exists|k: int|
                    0 <= k < out.len() && (#[trigger] out[k]).id == id by {
                    if id == a.id {
                        assert(out[n].id == id);
                    } else {
                        assert(records.dom().contains(id));
                        let m = choose|m: int| 0 <= m < rows.len() && (#[trigger] rows[m]).id == id;
                        assert(out[m].id == id);
                    }
                }
            },
        }
    }
}

/// Rows that show what the engine holds still do after operations that keep
/// the clips' IDs.
pub proof fn rows_keep_mirroring(
    rows: Seq<RowModel>,
    records: Records,
    applied: Seq<AppliedModel>,
    kept: Map<Seq<char>, RowModel>,
)
    requires
        mirrors(rows, records),
        forall|i: int| 0 <= i < applied.len() ==> (#[trigger] applied[i]).id == applied[i].now_id,
    ensures
        mirrors(after_all(rows, applied, kept), engine_after(records, applied)),
    decreases applied.len(),
{
    if applied.len() > 0 {
        let rest = applied.drop_last();
        assert forall|i: int| 0 <= i < rest.len() implies (#[trigger] rest[i]).id
            == rest[i].now_id by {
            assert(rest[i] == applied[i]);
        }
        rows_keep_mirroring(rows, records, rest, kept);
        lemma_mirror_one(
            after_all(rows, rest, kept),
            engine_after(records, rest),
            applied.last(),
            kept,
        );
    }
}

/// What the engine did when it carried out a whole plan, every clip under the
/// ID it had.
pub open spec fn whole_plan(plan: PlanModel) -> Seq<AppliedModel> {
    plan.removes.map_values(|id: Seq<char>| AppliedModel { id, now_id: id, record: None })
        + present_clips(plan.writes) + present_clips(plan.restores)
}

proof fn lemma_engine_after_add(records: Records, a: Seq<AppliedModel>, b: Seq<AppliedModel>)
    ensures
        engine_after(records, a + b) == engine_after(engine_after(records, a), b),
    decreases b.len(),
{
    if b.len() == 0 {
        assert(a + b =~= a);
    } else {
        assert((a + b).drop_last() =~= a + b.drop_last());
        lemma_engine_after_add(records, a, b.drop_last());
    }
}

proof fn lemma_engine_removes(records: Records, ids: Seq<Seq<char>>)
    ensures
        engine_after(
            records,
            ids.map_values(|id: Seq<char>| AppliedModel { id, now_id: id, record: None }),
        ) == records.remove_keys(ids.to_set()),
    decreases ids.len(),
{
    let ops = ids.map_values(|id: Seq<char>| AppliedModel { id, now_id: id, record: None });
    if ids.len() == 0 {
        assert(records.remove_keys(ids.to_set()) =~= records);
    } else {
        let rest = ids.drop_last();
        lemma_engine_removes(records, rest);
        assert(ops.drop_last() =~= rest.map_values(
            |id: Seq<char>| AppliedModel { id, now_id: id, record: None },
        ));
        assert(ids =~= rest.push(ids.last()));
        crate::order::lemma_push_to_set(rest, ids.last());
        assert(engine_after(records, ops) =~= records.remove_keys(ids.to_set()));
    }
}

proof fn lemma_engine_writes(records: Records, writes: Seq<(Seq<char>, RecordModel)>)
    ensures
        engine_after(records, present_clips(writes)) == put_all(records, writes),
    decreases writes.len(),
{
    if writes.len() > 0 {
        let rest = writes.drop_last();
        lemma_engine_writes(records, rest);
        assert(present_clips(writes).drop_last() =~= present_clips(rest));
    }
}

/// Rows that show what the engine holds still do after it carried out a plan.
pub proof fn rows_follow_a_plan(
    rows: Seq<RowModel>,
    records: Records,
    plan: PlanModel,
    kept: Map<Seq<char>, RowModel>,
)
    requires
        mirrors(rows, records),
    ensures
        mirrors(after_all(rows, whole_plan(plan), kept), after_plan(records, plan)),
{
    let removes = plan.removes.map_values(
        |id: Seq<char>| AppliedModel { id, now_id: id, record: None },
    );
    let all = whole_plan(plan);
    rows_keep_mirroring(rows, records, all, kept);
    lemma_engine_after_add(records, removes + present_clips(plan.writes), present_clips(plan.restores));
    lemma_engine_after_add(records, removes, present_clips(plan.writes));
    lemma_engine_removes(records, plan.removes);
    let r1 = records.remove_keys(plan.removes.to_set());
    lemma_engine_writes(r1, plan.writes);
    lemma_engine_writes(put_all(r1, plan.writes), plan.restores);
}

// ---------------------------------------------------------------------------
// Resyncing
// ---------------------------------------------------------------------------

/// Whether no clip has two rows.
pub open spec fn distinct_rows(rows: Seq<RowModel>) -> bool {
    forall|i: int, j: int|
        0 <= i < j < rows.len() ==> (#[trigger] rows[i]).id != (#[trigger] rows[j]).id
}

/// Whether a clip has a row.
spec fn has_row(rows: Seq<RowModel>, id: Seq<char>) -> bool {
    exists|i: int| 0 <= i < rows.len() && (#[trigger] rows[i]).id == id
}

/// What one operation does to the rows, whatever they show.
proof fn lemma_one_operation(
    rows: Seq<RowModel>,
    a: AppliedModel,
    kept: Map<Seq<char>, RowModel>,
)
    requires
        distinct_rows(rows),
        a.id == a.now_id,
    ensures
        distinct_rows(after_one(rows, a, kept)),
        forall|id: Seq<char>| #[trigger]
            has_row(after_one(rows, a, kept), id) <==> if id == a.id {
                a.record is Some
            } else {
                has_row(rows, id)
            },
        forall|k: int|
            0 <= k < after_one(rows, a, kept).len() ==> if (#[trigger] after_one(
                rows,
                a,
                kept,
            )[k]).id == a.id {
                a.record is Some && after_one(rows, a, kept)[k] == after_one(rows, a, kept)[k].placed(
                    a.id,
                    a.record->0,
                )
            } else {
                rows.contains(after_one(rows, a, kept)[k])
            },
{
    let out = after_one(rows, a, kept);
    if has_row(rows, a.id) {
        let i = choose|i: int| 0 <= i < rows.len() && (#[trigger] rows[i]).id == a.id;
        assert(row_at(rows, a.id, i)) by {
            assert forall|j: int| 0 <= j < i implies (#[trigger] rows[j]).id != a.id by {
                assert(rows[j].id != rows[i].id);
            }
        }
        lemma_first_row(rows, a.id, i);
        if a.record is None {
            assert forall|x: int, y: int| 0 <= x < y < out.len() implies (#[trigger] out[x]).id != (
            #[trigger] out[y]).id by {
                let mx = if x < i { x } else { x + 1 };
                let my = if y < i { y } else { y + 1 };
                assert(rows[mx].id != rows[my].id);
            }
            assert forall|k: int| 0 <= k < out.len() implies (#[trigger] out[k]).id != a.id
                && rows.contains(out[k]) by {
                let m = if k < i { k } else { k + 1 };
                assert(out[k] == rows[m]);
                if m < i {
                    assert(rows[m].id != rows[i].id);
                } else {
                    assert(rows[i].id != rows[m].id);
                }
            }
            assert forall|id: Seq<char>| #[trigger] has_row(out, id) <==> id != a.id && has_row(
                rows,
                id,
            ) by {
                if has_row(out, id) {
                    let k = choose|k: int| 0 <= k < out.len() && (#[trigger] out[k]).id == id;
                    let m = if k < i { k } else { k + 1 };
                    assert(rows[m].id == id);
                }
                if id != a.id && has_row(rows, id) {
                    let m = choose|m: int| 0 <= m < rows.len() && (#[trigger] rows[m]).id == id;
                    let k = if m < i { m } else { m - 1 };
                    assert(out[k].id == id);
                }
            }
        } else {
            assert forall|x: int, y: int| 0 <= x < y < out.len() implies (#[trigger] out[x]).id != (
            #[trigger] out[y]).id by {
                assert(rows[x].id != rows[y].id);
            }
            assert forall|k: int| 0 <= k < out.len() && k != i implies (#[trigger] out[k]).id != a.id
                && rows.contains(out[k]) by {
                assert(out[k] == rows[k]);
                if k < i {
                    assert(rows[k].id != rows[i].id);
                } else {
                    assert(rows[i].id != rows[k].id);
                }
            }
            assert forall|id: Seq<char>| #[trigger] has_row(out, id) <==> has_row(rows, id) by {
                if has_row(out, id) {
                    let k = choose|k: int| 0 <= k < out.len() && (#[trigger] out[k]).id == id;
                    assert(rows[k].id == id);
                }
                if has_row(rows, id) {
                    let k = choose|k: int| 0 <= k < rows.len() && (#[trigger] rows[k]).id == id;
                    assert(out[k].id == id);
                }
            }
        }
    } else {
        assert forall|j: int| 0 <= j < rows.len() implies (#[trigger] rows[j]).id != a.id by {
            if rows[j].id == a.id {
                assert(has_row(rows, a.id));
            }
        }
        lemma_no_row(rows, a.id);
        assert forall|k: int| 0 <= k < rows.len() implies rows.contains(#[trigger] rows[k]) by {}
        if a.record is Some {
            let n = rows.len() as int;
            assert(out[n].id == a.id);
            assert forall|x: int, y: int| 0 <= x < y < out.len() implies (#[trigger] out[x]).id != (
            #[trigger] out[y]).id by {
                assert(out[x] == rows[x]);
                if y < n {
                    assert(rows[x].id != rows[y].id);
                }
            }
            assert forall|k: int| 0 <= k < n implies (#[trigger] out[k]) == rows[k] by {}
            assert forall|id: Seq<char>| #[trigger] has_row(out, id) <==> id == a.id || has_row(
                rows,
                id,
            ) by {
                if has_row(out, id) {
                    let k = choose|k: int| 0 <= k < out.len() && (#[trigger] out[k]).id == id;
                    if k < n {
                        assert(rows[k].id == id);
                    }
                }
                if has_row(rows, id) {
                    let k = choose|k: int| 0 <= k < rows.len() && (#[trigger] rows[k]).id == id;
                    assert(out[k].id == id);
                }
            }
        }
    }
}

proof fn lemma_gone(
    rows: Seq<RowModel>,
    ops: Seq<AppliedModel>,
    kept: Map<Seq<char>, RowModel>,
)
    requires
        distinct_rows(rows),
        forall|i: int|
            0 <= i < ops.len() ==> (#[trigger] ops[i]).id == ops[i].now_id && ops[i].record is None,
    ensures
        distinct_rows(after_all(rows, ops, kept)),
        forall|id: Seq<char>| #[trigger]
            has_row(after_all(rows, ops, kept), id) ==> has_row(rows, id) && forall|i: int|
                0 <= i < ops.len() ==> (#[trigger] ops[i]).id != id,
    decreases ops.len(),
{
    if ops.len() > 0 {
        let rest = ops.drop_last();
        assert forall|i: int| 0 <= i < rest.len() implies (#[trigger] rest[i]).id == rest[i].now_id
            && rest[i].record is None by {
            assert(rest[i] == ops[i]);
        }
        lemma_gone(rows, rest, kept);
        let mid = after_all(rows, rest, kept);
        assert(ops[ops.len() - 1].id == ops[ops.len() - 1].now_id);
        lemma_one_operation(mid, ops.last(), kept);
        assert forall|id: Seq<char>| #[trigger] has_row(after_all(rows, ops, kept), id) implies has_row(
            rows,
            id,
        ) && forall|i: int| 0 <= i < ops.len() ==> (#[trigger] ops[i]).id != id by {
            assert(has_row(mid, id));
            assert forall|i: int| 0 <= i < ops.len() implies (#[trigger] ops[i]).id != id by {
                if i < rest.len() {
                    assert(rest[i] == ops[i]);
                }
            }
        }
    }
}

proof fn lemma_gone_rows(rows: Seq<RowModel>, live: Seq<Seq<char>>)
    ensures
        forall|i: int|
            0 <= i < gone_rows(rows, live).len() ==> (#[trigger] gone_rows(rows, live)[i]).id
                == gone_rows(rows, live)[i].now_id && gone_rows(rows, live)[i].record is None,
        forall|k: int|
            0 <= k < rows.len() && !live.contains((#[trigger] rows[k]).id) ==> exists|i: int|
                0 <= i < gone_rows(rows, live).len() && (#[trigger] gone_rows(rows, live)[i]).id
                    == rows[k].id,
    decreases rows.len(),
{
    if rows.len() > 0 {
        let rest = rows.drop_last();
        let g = gone_rows(rest, live);
        let f = gone_rows(rows, live);
        lemma_gone_rows(rest, live);
        assert forall|i: int| 0 <= i < f.len() implies (#[trigger] f[i]).id == f[i].now_id
            && f[i].record is None by {
            if i < g.len() {
                assert(f[i] == g[i]);
            }
        }
        assert forall|k: int| 0 <= k < rows.len() && !live.contains((#[trigger] rows[k]).id) implies exists|
            i: int,
        |
            0 <= i < f.len() && (#[trigger] f[i]).id == rows[k].id by {
            if k < rest.len() {
                assert(rest[k] == rows[k]);
                let i = choose|i: int| 0 <= i < g.len() && (#[trigger] g[i]).id == rest[k].id;
                assert(f[i] == g[i]);
            } else {
                assert(f[g.len() as int].id == rows[k].id);
            }
        }
    }
}

proof fn lemma_after_all_add(
    rows: Seq<RowModel>,
    a: Seq<AppliedModel>,
    b: Seq<AppliedModel>,
    kept: Map<Seq<char>, RowModel>,
)
    ensures
        after_all(rows, a + b, kept) == after_all(after_all(rows, a, kept), b, kept),
    decreases b.len(),
{
    if b.len() == 0 {
        assert(a + b =~= a);
    } else {
        assert((a + b).drop_last() =~= a + b.drop_last());
        lemma_after_all_add(rows, a, b.drop_last(), kept);
    }
}

/// Whether no clip of the engine is listed twice.
pub open spec fn distinct_clips(engine: Seq<(Seq<char>, RecordModel)>) -> bool {
    forall|i: int, j: int|
        0 <= i < j < engine.len() ==> (#[trigger] engine[i]).0 != (#[trigger] engine[j]).0
}

proof fn lemma_present(
    rows: Seq<RowModel>,
    engine: Seq<(Seq<char>, RecordModel)>,
    kept: Map<Seq<char>, RowModel>,
)
    requires
        distinct_rows(rows),
        distinct_clips(engine),
    ensures
        ({
            let out = after_all(rows, present_clips(engine), kept);
            &&& distinct_rows(out)
            &&& forall|k: int|
                0 <= k < out.len() ==> forall|i: int|
                    0 <= i < engine.len() && (#[trigger] engine[i]).0 == (#[trigger] out[k]).id
                        ==> out[k] == out[k].placed(out[k].id, engine[i].1)
            &&& forall|id: Seq<char>| #[trigger]
                has_row(out, id) <==> has_row(rows, id) || clip_ids(engine).contains(id)
        }),
    decreases engine.len(),
{
    let out = after_all(rows, present_clips(engine), kept);
    if engine.len() > 0 {
        let rest = engine.drop_last();
        let last = engine.last();
        let n = engine.len() - 1;
        assert forall|i: int, j: int| 0 <= i < j < rest.len() implies (#[trigger] rest[i]).0 != (
        #[trigger] rest[j]).0 by {
            assert(engine[i].0 != engine[j].0);
        }
        lemma_present(rows, rest, kept);
        assert(present_clips(engine).drop_last() =~= present_clips(rest));
        let mid = after_all(rows, present_clips(rest), kept);
        let op = AppliedModel { id: last.0, now_id: last.0, record: Some(last.1) };
        assert(present_clips(engine).last() == op);
        lemma_one_operation(mid, op, kept);
        assert forall|k: int, i: int|
            0 <= k < out.len() && 0 <= i < engine.len() && (#[trigger] engine[i]).0 == (
            #[trigger] out[k]).id implies out[k] == out[k].placed(out[k].id, engine[i].1) by {
            if i == n {
                assert(out[k].id == op.id);
            } else {
                assert(engine[i].0 != engine[n].0);
                assert(mid.contains(out[k]));
                let m = choose|m: int| 0 <= m < mid.len() && mid[m] == out[k];
                assert(rest[i] == engine[i]);
                assert(rest[i].0 == mid[m].id);
            }
        }
        assert forall|id: Seq<char>| #[trigger] has_row(out, id) <==> has_row(rows, id) || clip_ids(
            engine,
        ).contains(id) by {
            assert(clip_ids(engine) =~= clip_ids(rest).push(last.0));
            if clip_ids(rest).contains(id) {
                let i = choose|i: int| 0 <= i < clip_ids(rest).len() && clip_ids(rest)[i] == id;
                assert(clip_ids(engine)[i] == id);
            }
            if id == last.0 {
                assert(clip_ids(engine)[n] == id);
            }
            if clip_ids(engine).contains(id) && id != last.0 {
                let i = choose|i: int| 0 <= i < clip_ids(engine).len() && clip_ids(engine)[i] == id;
                assert(clip_ids(rest)[i] == id);
            }
        }
    } else {
        assert(present_clips(engine).len() == 0);
        assert forall|id: Seq<char>| !clip_ids(engine).contains(id) by {}
    }
}

/// The engine's clips as a map: one entry per clip, with its record.
pub proof fn lemma_engine_map(engine: Seq<(Seq<char>, RecordModel)>)
    requires
        distinct_clips(engine),
    ensures
        forall|id: Seq<char>| #[trigger]
            put_all(Map::empty(), engine).dom().contains(id) <==> clip_ids(engine).contains(id),
        forall|i: int|
            0 <= i < engine.len() ==> put_all(Map::empty(), engine)[(#[trigger] engine[i]).0]
                == engine[i].1,
    decreases engine.len(),
{
    if engine.len() > 0 {
        let rest = engine.drop_last();
        let last = engine.last();
        let n = engine.len() - 1;
        assert forall|i: int, j: int| 0 <= i < j < rest.len() implies (#[trigger] rest[i]).0 != (
        #[trigger] rest[j]).0 by {
            assert(engine[i].0 != engine[j].0);
        }
        lemma_engine_map(rest);
        let m = put_all(Map::<Seq<char>, RecordModel>::empty(), engine);
        let mr = put_all(Map::<Seq<char>, RecordModel>::empty(), rest);
        assert(clip_ids(engine) =~= clip_ids(rest).push(last.0));
        assert forall|id: Seq<char>| #[trigger] m.dom().contains(id) <==> clip_ids(engine).contains(
            id,
        ) by {
            assert(mr.dom().contains(id) <==> clip_ids(rest).contains(id));
            if clip_ids(rest).contains(id) {
                let i = choose|i: int| 0 <= i < clip_ids(rest).len() && clip_ids(rest)[i] == id;
                assert(clip_ids(engine)[i] == id);
            }
            if id == last.0 {
                assert(clip_ids(engine)[n] == id);
            }
            if clip_ids(engine).contains(id) && id != last.0 {
                let i = choose|i: int| 0 <= i < clip_ids(engine).len() && clip_ids(engine)[i] == id;
                assert(clip_ids(rest)[i] == id);
            }
        }
        assert forall|i: int| 0 <= i < engine.len() implies m[(#[trigger] engine[i]).0]
            == engine[i].1 by {
            if i < n {
                assert(rest[i] == engine[i]);
                assert(engine[i].0 != engine[n].0);
            }
        }
    }
}

/// After a change that failed partway, the rows are brought in line with what
/// the engine actually holds, whatever they showed: the screen never disagrees
/// with the edit.
pub proof fn rows_are_resynced_from_the_engine(
    rows: Seq<RowModel>,
    engine: Seq<(Seq<char>, RecordModel)>,
    kept: Map<Seq<char>, RowModel>,
)
    requires
        distinct_rows(rows),
        distinct_clips(engine),
    ensures
        mirrors(
            after_all(
                rows,
                gone_rows(rows, clip_ids(engine)) + present_clips(engine),
                kept,
            ),
            put_all(Map::empty(), engine),
        ),
{
    let live = clip_ids(engine);
    let gone = gone_rows(rows, live);
    lemma_gone_rows(rows, live);
    lemma_gone(rows, gone, kept);
    let mid = after_all(rows, gone, kept);
    lemma_present(mid, engine, kept);
    lemma_after_all_add(rows, gone, present_clips(engine), kept);
    lemma_engine_map(engine);
    let out = after_all(rows, gone + present_clips(engine), kept);
    let e = put_all(Map::<Seq<char>, RecordModel>::empty(), engine);
    assert forall|id: Seq<char>| has_row(mid, id) implies live.contains(id) by {
        let k = choose|k: int| 0 <= k < rows.len() && (#[trigger] rows[k]).id == id;
        assert(has_row(rows, id));
        if !live.contains(id) {
            assert(!live.contains(rows[k].id));
            let i = choose|i: int| 0 <= i < gone.len() && (#[trigger] gone[i]).id == rows[k].id;
            assert(gone[i].id != id);
        }
    }
    assert forall|k: int| 0 <= k < out.len() implies e.dom().contains((#[trigger] out[k]).id)
        && out[k] == out[k].placed(out[k].id, e[out[k].id]) by {
        assert(has_row(out, out[k].id));
        assert(live.contains(out[k].id));
        let i = choose|i: int| 0 <= i < live.len() && live[i] == out[k].id;
        assert(engine[i].0 == out[k].id);
    }
    assert forall|id: Seq<char>| #[trigger] e.dom().contains(id) implies exists|i: int|
        0 <= i < out.len() && (#[trigger] out[i]).id == id by {
        assert(has_row(out, id));
    }
}

// ---------------------------------------------------------------------------
// Rows one by one
// ---------------------------------------------------------------------------

/// The row that is found is the first of its clip; none is found where there is none.
pub proof fn the_first_row_of_a_clip_is_found(rows: &Vec<TimelineClip>, id: &String, r: Option<usize>)
    requires
        call_ensures(position, (rows, id), r),
    ensures
        r is Some ==> r->0 < rows.len() && rows[r->0 as int].id@ == id@ && forall|j: int|
            0 <= j < r->0 ==> (#[trigger] rows[j]).id@ != id@,
        r is None ==> forall|j: int| 0 <= j < rows.len() ==> (#[trigger] rows[j]).id@ != id@,
{
    let m = models(rows@);
    if let Some(i) = r {
        assert(m[i as int] == rows[i as int]@);
        assert forall|j: int| 0 <= j < i implies (#[trigger] rows[j]).id@ != id@ by {
            assert(m[j] == rows[j]@);
        }
    } else {
        assert forall|j: int| 0 <= j < rows.len() implies (#[trigger] rows[j]).id@ != id@ by {
            assert(m[j] == rows[j]@);
        }
    }
}

/// Whether a row lies where a record puts its clip.
pub open spec fn lies_at(row: RowModel, record: RecordModel) -> bool {
    &&& record.track <= i32::MAX ==> row.track == record.track
    &&& row.start == record.start
    &&& row.duration == record.duration
    &&& row.inpoint == record.inpoint
    &&& row.rate == record.rate
}

/// Whether two rows look the same, wherever they lie.
pub open spec fn looks_like(row: RowModel, other: RowModel) -> bool {
    row.name == other.name && row.kind == other.kind && row.thumb == other.thumb && row.wave
        == other.wave
}

/// What one engine operation does to the rows. A clip that is gone loses its row, and
/// no other row changes. A clip that changed keeps its row, its place among the rows,
/// its looks and its selection, and the row moves to where the record puts the clip.
/// A clip that comes back gets a row at the end, unselected, with the looks of the row
/// kept for it, or those of its record.
pub proof fn one_operation_touches_one_row(
    rows: Seq<RowModel>,
    a: AppliedModel,
    kept: Map<Seq<char>, RowModel>,
    i: int,
)
    ensures
        row_at(rows, a.id, i) && a.record is None ==> {
            let after = after_one(rows, a, kept);
            &&& after.len() == rows.len() - 1
            &&& forall|j: int| 0 <= j < i ==> (#[trigger] after[j]) == rows[j]
            &&& forall|j: int| i <= j < after.len() ==> (#[trigger] after[j]) == rows[j + 1]
        },
        row_at(rows, a.id, i) && a.record is Some ==> {
            let after = after_one(rows, a, kept);
            &&& after.len() == rows.len()
            &&& forall|j: int| 0 <= j < rows.len() && j != i ==> (#[trigger] after[j]) == rows[j]
            &&& after[i].id == a.now_id
            &&& lies_at(after[i], a.record->0)
            &&& looks_like(after[i], rows[i])
            &&& after[i].selected == rows[i].selected
        },
        (forall|j: int| 0 <= j < rows.len() ==> (#[trigger] rows[j]).id != a.id) && a.record is None
            ==> after_one(rows, a, kept) == rows,
        (forall|j: int| 0 <= j < rows.len() ==> (#[trigger] rows[j]).id != a.id) && a.record is Some
            ==> {
            let after = after_one(rows, a, kept);
            &&& after.len() == rows.len() + 1
            &&& forall|j: int| 0 <= j < rows.len() ==> (#[trigger] after[j]) == rows[j]
            &&& after.last().id == a.now_id
            &&& !after.last().selected
            &&& lies_at(after.last(), a.record->0)
            &&& kept.dom().contains(a.id) ==> looks_like(after.last(), kept[a.id])
            &&& !kept.dom().contains(a.id) ==> after.last().name == a.record->0.name
                && after.last().kind == a.record->0.kind && after.last().thumb.width == 0
                && after.last().wave is None
        },
{
    if row_at(rows, a.id, i) {
        lemma_first_row(rows, a.id, i);
    } else if forall|j: int| 0 <= j < rows.len() ==> (#[trigger] rows[j]).id != a.id {
        lemma_no_row(rows, a.id);
    }
}

/// Operations take effect one after the other: after one more, the rows are what it
/// makes of those before it.
pub proof fn operations_take_effect_in_turn(
    rows: &Vec<TimelineClip>,
    applied: &Vec<Applied>,
    more: &Vec<Applied>,
    kept: &Assoc<TimelineClip>,
    r: Vec<TimelineClip>,
    s: Vec<TimelineClip>,
)
    requires
        call_ensures(rows_after, (rows, applied, kept), r),
        call_ensures(rows_after, (rows, more, kept), s),
        more.len() == applied.len() + 1,
        forall|i: int| 0 <= i < applied.len() ==> (#[trigger] more[i])@ == applied[i]@,
    ensures
        applied.len() == 0 ==> models(r@) == models(rows@),
        models(s@) == after_one(models(r@), more[applied.len() as int]@, kept@),
{
    assert(models(more@).drop_last() =~= models(applied@));
    assert(models(more@).last() == more[applied.len() as int]@);
}

/// The rows by ID hold every row's clip, with its last row, and nothing else.
pub proof fn rows_are_found_by_their_ids(
    rows: &Vec<TimelineClip>,
    r: Assoc<TimelineClip>,
    id: Seq<char>,
    i: int,
)
    requires
        call_ensures(index_rows, (rows,), r),
    ensures
        r@.dom().contains(id) <==> exists|j: int|
            0 <= j < rows.len() && (#[trigger] rows[j]).id@ == id,
        0 <= i < rows.len() && rows[i].id@ == id && (forall|j: int|
            i < j < rows.len() ==> (#[trigger] rows[j]).id@ != id) ==> r@[id] == rows[i]@,
{
    let m = models(rows@);
    assert forall|j: int| 0 <= j < rows.len() implies (#[trigger] m[j]) == rows[j]@ by {}
    lemma_by_id(m, id);
    if r@.dom().contains(id) {
        let j = choose|j: int| 0 <= j < m.len() && (#[trigger] m[j]).id == id;
        assert(rows[j].id@ == id);
    }
    if exists|j: int| 0 <= j < rows.len() && (#[trigger] rows[j]).id@ == id {
        let j = choose|j: int| 0 <= j < rows.len() && (#[trigger] rows[j]).id@ == id;
        assert(m[j].id == id);
    }
    if 0 <= i < rows.len() && rows[i].id@ == id && (forall|j: int|
        i < j < rows.len() ==> (#[trigger] rows[j]).id@ != id) {
        assert forall|j: int| i < j < m.len() implies (#[trigger] m[j]).id != id by {
            assert(rows[j].id@ != id);
        }
        lemma_last_by_id(m, i);
    }
}

proof fn lemma_by_id(rows: Seq<RowModel>, id: Seq<char>)
    ensures
        rows_by_id(rows).dom().contains(id) <==> exists|j: int|
            0 <= j < rows.len() && (#[trigger] rows[j]).id == id,
    decreases rows.len(),
{
    if rows.len() > 0 {
        let less = rows.drop_last();
        lemma_by_id(less, id);
        assert(rows[rows.len() - 1] == rows.last());
        if exists|j: int| 0 <= j < rows.len() && (#[trigger] rows[j]).id == id {
            let j = choose|j: int| 0 <= j < rows.len() && (#[trigger] rows[j]).id == id;
            if j < less.len() {
                assert(less[j].id == id);
            }
        }
        if exists|j: int| 0 <= j < less.len() && (#[trigger] less[j]).id == id {
            let j = choose|j: int| 0 <= j < less.len() && (#[trigger] less[j]).id == id;
            assert(rows[j].id == id);
        }
    }
}

proof fn lemma_last_by_id(rows: Seq<RowModel>, i: int)
    requires
        0 <= i < rows.len(),
        forall|j: int| i < j < rows.len() ==> (#[trigger] rows[j]).id != rows[i].id,
    ensures
        rows_by_id(rows)[rows[i].id] == rows[i],
    decreases rows.len(),
{
    if i < rows.len() - 1 {
        let less = rows.drop_last();
        assert forall|j: int| i < j < less.len() implies (#[trigger] less[j]).id != less[i].id by {
            assert(rows[j].id != rows[i].id);
        }
        lemma_last_by_id(less, i);
        assert(rows[rows.len() - 1].id != rows[i].id);
    }
}

/// The row selected after an undo or redo is the first of the step's own clip; where
/// that has none, the first of the clip that was selected; where that has none either,
/// no row is.
pub proof fn the_steps_own_clip_is_selected(
    rows: &Vec<TimelineClip>,
    subject: Option<&String>,
    selected: Option<&String>,
    r: i32,
    first: Option<usize>,
    second: Option<usize>,
)
    requires
        call_ensures(selection_after, (rows, subject, selected), r),
        subject is Some ==> call_ensures(position, (rows, subject->0), first),
        subject is None ==> first is None,
        selected is Some ==> call_ensures(position, (rows, selected->0), second),
        selected is None ==> second is None,
    ensures
        first is Some ==> r == first->0,
        first is None && second is Some ==> r == second->0,
        first is None && second is None ==> r == -1,
{
}

/// To bring the rows in line, every row whose clip the engine does not have is told to
/// go, in the order of the rows, and then every clip of the engine to be as it is.
pub proof fn every_row_is_brought_in_line(
    rows: &Vec<TimelineClip>,
    records: &Vec<(String, ClipRecord)>,
    r: Vec<Applied>,
    k: int,
)
    requires
        call_ensures(applied_from_engine, (rows, records), r),
    ensures
        r.len() >= records.len(),
        0 <= k < records.len() ==> {
            let a = r[r.len() - records.len() + k];
            &&& a.id@ == records[k].0@ && a.now_id@ == records[k].0@
            &&& a.record is Some && a.record->0@ == records[k].1@
        },
        0 <= k < rows.len() && (forall|j: int|
            0 <= j < records.len() ==> (#[trigger] records[j]).0@ != rows[k].id@) ==> exists|n: int|
            0 <= n < r.len() - records.len() && (#[trigger] r[n]).id@ == rows[k].id@ && r[n].record
                is None,
        0 <= k < r.len() - records.len() ==> r[k].record is None && r[k].id@ == r[k].now_id@ && (
        exists|i: int| 0 <= i < rows.len() && (#[trigger] rows[i]).id@ == r[k].id@) && (forall|
            j: int,
        |
            0 <= j < records.len() ==> (#[trigger] records[j]).0@ != r[k].id@),
{
    let m = models(r@);
    let rm = models(rows@);
    let em = models(records@);
    let live = clip_ids(em);
    let gone = gone_rows(rm, live);
    assert(m == gone + present_clips(em));
    assert(m.len() == r.len() && em.len() == records.len() && rm.len() == rows.len());
    assert(present_clips(em).len() == records.len());
    assert forall|j: int| 0 <= j < records.len() implies live[j] == (#[trigger] records[j]).0@ by {
        assert(em[j] == records[j]@);
    }
    lemma_gone_rows(rm, live);
    lemma_gone_origin(rm, live);
    if 0 <= k < records.len() {
        let n = r.len() - records.len() + k;
        assert(m[n] == r[n]@);
        assert(m[n] == present_clips(em)[k]);
        assert(em[k] == records[k]@);
    }
    if 0 <= k < rows.len() && (forall|j: int|
        0 <= j < records.len() ==> (#[trigger] records[j]).0@ != rows[k].id@) {
        assert(rm[k] == rows[k]@);
        if live.contains(rm[k].id) {
            let j = live.index_of(rm[k].id);
            assert(records[j].0@ == rows[k].id@);
        }
        let n = choose|n: int| 0 <= n < gone.len() && (#[trigger] gone[n]).id == rm[k].id;
        assert(m[n] == r[n]@ && m[n] == gone[n]);
        assert(gone[n].record is None);
        assert(r[n].id@ == rows[k].id@);
    }
    if 0 <= k < r.len() - records.len() {
        assert(m[k] == r[k]@ && m[k] == gone[k]);
        let i = choose|i: int| 0 <= i < rm.len() && (#[trigger] rm[i]).id == gone[k].id;
        assert(rm[i] == rows[i]@);
        assert(rows[i].id@ == r[k].id@);
        assert forall|j: int| 0 <= j < records.len() implies (#[trigger] records[j]).0@
            != r[k].id@ by {
            assert(live[j] == records[j].0@);
            assert(live.contains(live[j]));
        }
    }
}

proof fn lemma_gone_origin(rows: Seq<RowModel>, live: Seq<Seq<char>>)
    ensures
        forall|n: int|
            0 <= n < gone_rows(rows, live).len() ==> !live.contains(
                (#[trigger] gone_rows(rows, live)[n]).id,
            ) && exists|i: int|
                0 <= i < rows.len() && (#[trigger] rows[i]).id == gone_rows(rows, live)[n].id,
    decreases rows.len(),
{
    if rows.len() > 0 {
        let less = rows.drop_last();
        lemma_gone_origin(less, live);
        let gone = gone_rows(rows, live);
        assert forall|n: int| 0 <= n < gone.len() implies !live.contains(
            (#[trigger] gone[n]).id,
        ) && exists|i: int| 0 <= i < rows.len() && (#[trigger] rows[i]).id == gone[n].id by {
            if n < gone_rows(less, live).len() {
                assert(gone[n] == gone_rows(less, live)[n]);
                let i = choose|i: int|
                    0 <= i < less.len() && (#[trigger] less[i]).id == gone_rows(less, live)[n].id;
                assert(rows[i] == less[i]);
            } else {
                assert(rows[rows.len() - 1].id == gone[n].id);
            }
        }
    }
}

/// The timeline shows as many track rows as asked for. Those that stay keep their
/// names; a new one is named after its place, counted from one.
pub proof fn tracks_are_named_in_order(tracks: &mut Vec<String>, count: usize, i: int)
    requires
        call_ensures(set_track_rows, (tracks, count), ()),
    ensures
        final(tracks).len() == count,
        0 <= i < count && i < old(tracks).len() ==> final(tracks)[i]@ == old(tracks)[i]@,
        0 <= i < count && i >= old(tracks).len() ==> final(tracks)[i]@ == "Track "@ + decimal(
            (i + 1) as nat,
        ),
{
    let m = models(final(tracks)@);
    assert(m.len() == final(tracks).len());
    if 0 <= i < count {
        assert(m[i] == final(tracks)[i]@);
        if i < old(tracks).len() {
            assert(models(old(tracks)@)[i] == old(tracks)[i]@);
        }
    }
}

} // verus!
