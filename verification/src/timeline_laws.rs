//! What the steps of the timeline promise together: a plan takes the timeline
//! exactly to the other side of its step, and a merged step spans both.

use crate::clip::{
    alike, equal_records, is_nan, numbers_are_equal_by_their_bits, opt_model, ClipRecord, RecordModel,
    TimelineClip,
};
use crate::text::{text_before, text_order_is_total};
use crate::assoc::Assoc;
use crate::order::models;
use crate::timeline_undo::{
    change_at, comes_or_goes, diff, entry, fold_all, fold_one, ids_of, is_diff, one_sided, plan_of,
    plan, real_changes, records_of, target_tracks, Capture, ChangeModel, ClipChange, Direction, Plan,
    PlanModel, Records, StepKind, TimelineStep,
};
use crate::history::Step;
use vstd::prelude::*;

verus! {

/// Whether no clip is changed twice.
pub open spec fn distinct_ids(changes: Seq<ChangeModel>) -> bool {
    forall|i: int, j: int|
        0 <= i < j < changes.len() ==> (#[trigger] changes[i]).id != (#[trigger] changes[j]).id
}

/// Whether `changes` lead from one state of the timeline to another: each holds
/// its clip's record on both sides, and no other clip differs.
pub open spec fn between(changes: Seq<ChangeModel>, before: Records, after: Records) -> bool {
    &&& distinct_ids(changes)
    &&& forall|i: int|
        0 <= i < changes.len() ==> (#[trigger] changes[i]).before == entry(before, changes[i].id)
            && changes[i].after == entry(after, changes[i].id)
    &&& forall|id: Seq<char>|
        entry(before, id) == #[trigger] entry(after, id) || exists|i: int|
            0 <= i < changes.len() && (#[trigger] changes[i]).id == id
}

/// The records with these written.
pub open spec fn put_all(records: Records, writes: Seq<(Seq<char>, RecordModel)>) -> Records
    decreases writes.len(),
{
    if writes.len() == 0 {
        records
    } else {
        put_all(records, writes.drop_last()).insert(writes.last().0, writes.last().1)
    }
}

/// The records after a plan was carried out: removals, then writes, then
/// restores.
pub open spec fn after_plan(records: Records, plan: PlanModel) -> Records {
    put_all(put_all(records.remove_keys(plan.removes.to_set()), plan.writes), plan.restores)
}

/// Whether a comparison sees all that differs between two states: no clip differs
/// in the sign of a zero alone.
pub open spec fn told_apart(before: Records, after: Records) -> bool {
    forall|id: Seq<char>| #[trigger]
        equal_records(entry(before, id), entry(after, id)) ==> entry(before, id) == entry(after, id)
}

/// The changes between two states that a comparison finds lead from the one to
/// the other.
pub proof fn a_comparison_leads_across(before: Records, after: Records, changes: Seq<ChangeModel>)
    requires
        is_diff(before, after, changes),
        told_apart(before, after),
    ensures
        between(changes, before, after),
        forall|i: int|
            0 <= i < changes.len() ==> !equal_records(
                (#[trigger] changes[i]).before,
                changes[i].after,
            ),
{
    let ids = ids_of(changes);
    assert forall|i: int, j: int| 0 <= i < j < changes.len() implies (#[trigger] changes[i]).id != (
    #[trigger] changes[j]).id by {
        assert(crate::text::text_before(ids[i], ids[j]));
        text_order_is_total(ids[i], ids[j], ids[i]);
    }
    assert forall|i: int| 0 <= i < changes.len() implies !equal_records(
        (#[trigger] changes[i]).before,
        changes[i].after,
    ) by {
        assert(ids[i] == changes[i].id);
        assert(ids.contains(changes[i].id));
    }
    assert forall|id: Seq<char>|
        entry(before, id) == #[trigger] entry(after, id) || exists|i: int|
            0 <= i < changes.len() && (#[trigger] changes[i]).id == id by {
        if !equal_records(entry(before, id), entry(after, id)) {
            assert(ids.contains(id));
            let i = choose|i: int| 0 <= i < ids.len() && ids[i] == id;
            assert(changes[i].id == id);
        }
    }
}

proof fn lemma_put_all(records: Records, writes: Seq<(Seq<char>, RecordModel)>, id: Seq<char>)
    ensures
        (forall|k: int| 0 <= k < writes.len() ==> (#[trigger] writes[k]).0 != id) ==> entry(
            put_all(records, writes),
            id,
        ) == entry(records, id),
        (exists|k: int| 0 <= k < writes.len() && (#[trigger] writes[k]).0 == id) ==> exists|k: int|
            0 <= k < writes.len() && (#[trigger] writes[k]).0 == id && entry(
                put_all(records, writes),
                id,
            ) == Some(writes[k].1),
    decreases writes.len(),
{
    if writes.len() > 0 {
        let rest = writes.drop_last();
        lemma_put_all(records, rest, id);
        let n = writes.len() - 1;
        if writes[n].0 == id {
            assert(entry(put_all(records, writes), id) == Some(writes[n].1));
        } else {
            assert(entry(put_all(records, writes), id) == entry(put_all(records, rest), id));
            if exists|k: int| 0 <= k < writes.len() && (#[trigger] writes[k]).0 == id {
                let k = choose|k: int| 0 <= k < writes.len() && (#[trigger] writes[k]).0 == id;
                assert(rest[k].0 == id);
                let m = choose|m: int|
                    0 <= m < rest.len() && (#[trigger] rest[m]).0 == id && entry(
                        put_all(records, rest),
                        id,
                    ) == Some(rest[m].1);
                assert(writes[m].0 == id);
            } else {
                assert forall|k: int| 0 <= k < rest.len() implies (#[trigger] rest[k]).0 != id by {
                    assert(writes[k].0 != id);
                }
            }
        }
    }
}

/// Whether the change at `i` is one of clip `id` from one side to the other.
spec fn goes(
    changes: Seq<ChangeModel>,
    dir: Direction,
    i: int,
    id: Seq<char>,
    from: bool,
    to: Option<RecordModel>,
) -> bool {
    &&& 0 <= i < changes.len()
    &&& changes[i].id == id
    &&& changes[i].from_side(dir) is Some == from
    &&& changes[i].to_side(dir) == to
}

/// Whether a change of clip `id` goes from one side to the other so.
spec fn comes_from(
    changes: Seq<ChangeModel>,
    dir: Direction,
    id: Seq<char>,
    from: bool,
    to: Option<RecordModel>,
) -> bool {
    exists|i: int| goes(changes, dir, i, id, from, to)
}

proof fn lemma_comes_from_more(
    changes: Seq<ChangeModel>,
    dir: Direction,
    id: Seq<char>,
    from: bool,
    to: Option<RecordModel>,
)
    requires
        changes.len() > 0,
        comes_from(changes.drop_last(), dir, id, from, to),
    ensures
        comes_from(changes, dir, id, from, to),
{
    let i = choose|i: int| goes(changes.drop_last(), dir, i, id, from, to);
    assert(goes(changes, dir, i, id, from, to));
}

/// Every operation of a plan comes from a change.
proof fn lemma_plan_comes_from(changes: Seq<ChangeModel>, dir: Direction)
    ensures
        forall|k: int|
            0 <= k < plan_of(changes, dir).removes.len() ==> comes_from(
                changes,
                dir,
                #[trigger] plan_of(changes, dir).removes[k],
                true,
                None,
            ),
        forall|k: int|
            0 <= k < plan_of(changes, dir).writes.len() ==> comes_from(
                changes,
                dir,
                (#[trigger] plan_of(changes, dir).writes[k]).0,
                true,
                Some(plan_of(changes, dir).writes[k].1),
            ),
        forall|k: int|
            0 <= k < plan_of(changes, dir).restores.len() ==> comes_from(
                changes,
                dir,
                (#[trigger] plan_of(changes, dir).restores[k]).0,
                false,
                Some(plan_of(changes, dir).restores[k].1),
            ),
    decreases changes.len(),
{
    let p = plan_of(changes, dir);
    if changes.len() > 0 {
        let rest = changes.drop_last();
        lemma_plan_comes_from(rest, dir);
        let q = plan_of(rest, dir);
        let n = changes.len() - 1;
        assert forall|k: int| 0 <= k < p.removes.len() implies comes_from(
            changes,
            dir,
            #[trigger] p.removes[k],
            true,
            None,
        ) by {
            if k < q.removes.len() {
                assert(p.removes[k] == q.removes[k]);
                lemma_comes_from_more(changes, dir, p.removes[k], true, None);
            } else {
                assert(goes(changes, dir, n, p.removes[k], true, None));
            }
        }
        assert forall|k: int| 0 <= k < p.writes.len() implies comes_from(
            changes,
            dir,
            (#[trigger] p.writes[k]).0,
            true,
            Some(p.writes[k].1),
        ) by {
            if k < q.writes.len() {
                assert(p.writes[k] == q.writes[k]);
                lemma_comes_from_more(changes, dir, p.writes[k].0, true, Some(p.writes[k].1));
            } else {
                assert(goes(changes, dir, n, p.writes[k].0, true, Some(p.writes[k].1)));
            }
        }
        assert forall|k: int| 0 <= k < p.restores.len() implies comes_from(
            changes,
            dir,
            (#[trigger] p.restores[k]).0,
            false,
            Some(p.restores[k].1),
        ) by {
            if k < q.restores.len() {
                assert(p.restores[k] == q.restores[k]);
                lemma_comes_from_more(changes, dir, p.restores[k].0, false, Some(p.restores[k].1));
            } else {
                assert(goes(changes, dir, n, p.restores[k].0, false, Some(p.restores[k].1)));
            }
        }
    }
}

/// Every change is in the plan.
proof fn lemma_plan_holds(changes: Seq<ChangeModel>, dir: Direction, i: int)
    requires
        0 <= i < changes.len(),
    ensures
        ({
            let p = plan_of(changes, dir);
            let c = changes[i];
            match (c.from_side(dir), c.to_side(dir)) {
                (Some(_), None) => p.removes.contains(c.id),
                (Some(_), Some(r)) => exists|k: int|
                    0 <= k < p.writes.len() && #[trigger] p.writes[k] == (c.id, r),
                (None, Some(r)) => exists|k: int|
                    0 <= k < p.restores.len() && #[trigger] p.restores[k] == (c.id, r),
                (None, None) => true,
            }
        }),
    decreases changes.len(),
{
    let p = plan_of(changes, dir);
    let rest = changes.drop_last();
    let q = plan_of(rest, dir);
    let c = changes[i];
    if i < rest.len() {
        lemma_plan_holds(rest, dir, i);
        assert(rest[i] == c);
        match (c.from_side(dir), c.to_side(dir)) {
            (Some(_), None) => {
                let k = choose|k: int| 0 <= k < q.removes.len() && q.removes[k] == c.id;
                assert(p.removes[k] == c.id);
            },
            (Some(_), Some(r)) => {
                let k = choose|k: int|
                    0 <= k < q.writes.len() && #[trigger] q.writes[k] == (c.id, r);
                assert(p.writes[k] == (c.id, r));
            },
            (None, Some(r)) => {
                let k = choose|k: int|
                    0 <= k < q.restores.len() && #[trigger] q.restores[k] == (c.id, r);
                assert(p.restores[k] == (c.id, r));
            },
            (None, None) => {},
        }
    } else {
        match (c.from_side(dir), c.to_side(dir)) {
            (Some(_), None) => {
                assert(p.removes[q.removes.len() as int] == c.id);
            },
            (Some(_), Some(r)) => {
                assert(p.writes[q.writes.len() as int] == (c.id, r));
            },
            (None, Some(r)) => {
                assert(p.restores[q.restores.len() as int] == (c.id, r));
            },
            (None, None) => {},
        }
    }
}

/// What a plan makes of one clip.
proof fn lemma_plan_entry(
    changes: Seq<ChangeModel>,
    dir: Direction,
    records: Records,
    id: Seq<char>,
)
    requires
        distinct_ids(changes),
        forall|i: int|
            0 <= i < changes.len() ==> (#[trigger] changes[i]).from_side(dir) == entry(
                records,
                changes[i].id,
            ),
    ensures
        forall|i: int|
            0 <= i < changes.len() && (#[trigger] changes[i]).id == id ==> entry(
                after_plan(records, plan_of(changes, dir)),
                id,
            ) == changes[i].to_side(dir),
        (forall|i: int| 0 <= i < changes.len() ==> (#[trigger] changes[i]).id != id) ==> entry(
            after_plan(records, plan_of(changes, dir)),
            id,
        ) == entry(records, id),
{
    let p = plan_of(changes, dir);
    let r1 = records.remove_keys(p.removes.to_set());
    let r2 = put_all(r1, p.writes);
    lemma_plan_comes_from(changes, dir);
    lemma_put_all(r1, p.writes, id);
    lemma_put_all(r2, p.restores, id);
    let removed = p.removes.contains(id);
    let written = exists|k: int| 0 <= k < p.writes.len() && (#[trigger] p.writes[k]).0 == id;
    let restored = exists|k: int| 0 <= k < p.restores.len() && (#[trigger] p.restores[k]).0 == id;
    if exists|i: int| 0 <= i < changes.len() && (#[trigger] changes[i]).id == id {
        let i = choose|i: int| 0 <= i < changes.len() && (#[trigger] changes[i]).id == id;
        lemma_plan_holds(changes, dir, i);
        let c = changes[i];
        if removed {
            let k = choose|k: int| 0 <= k < p.removes.len() && p.removes[k] == id;
            assert(comes_from(changes, dir, p.removes[k], true, None));
            let j = choose|j: int| goes(changes, dir, j, p.removes[k], true, None);
            assert(changes[j].id == id);
            assert(j == i);
        }
        if written {
            assert forall|k: int| 0 <= k < p.writes.len() && (#[trigger] p.writes[k]).0 == id implies c.from_side(
                dir,
            ) is Some && c.to_side(dir) == Some(p.writes[k].1) by {
                let j = choose|j: int|
                    goes(changes, dir, j, p.writes[k].0, true, Some(p.writes[k].1));
                assert(changes[j].id == id);
                assert(j == i);
            }
        }
        if restored {
            assert forall|k: int| 0 <= k < p.restores.len() && (#[trigger] p.restores[k]).0 == id implies c.from_side(
                dir,
            ) is None && c.to_side(dir) == Some(p.restores[k].1) by {
                let j = choose|j: int|
                    goes(changes, dir, j, p.restores[k].0, false, Some(p.restores[k].1));
                assert(changes[j].id == id);
                assert(j == i);
            }
        }
        assert(entry(after_plan(records, p), id) == c.to_side(dir));
        assert forall|m: int| 0 <= m < changes.len() && (#[trigger] changes[m]).id == id implies entry(
            after_plan(records, p),
            id,
        ) == changes[m].to_side(dir) by {
            assert(m == i);
        }
    } else {
        if removed {
            let k = choose|k: int| 0 <= k < p.removes.len() && p.removes[k] == id;
            assert(comes_from(changes, dir, p.removes[k], true, None));
            let j = choose|j: int| goes(changes, dir, j, p.removes[k], true, None);
            assert(changes[j].id == id);
        }
        if written {
            let k = choose|k: int| 0 <= k < p.writes.len() && (#[trigger] p.writes[k]).0 == id;
            let j = choose|j: int| goes(changes, dir, j, p.writes[k].0, true, Some(p.writes[k].1));
            assert(changes[j].id == id);
        }
        if restored {
            let k = choose|k: int| 0 <= k < p.restores.len() && (#[trigger] p.restores[k]).0 == id;
            let j = choose|j: int|
                goes(changes, dir, j, p.restores[k].0, false, Some(p.restores[k].1));
            assert(changes[j].id == id);
        }
        assert(!p.removes.to_set().contains(id));
    }
}

/// Two maps with the same entries are the same.
proof fn lemma_same_entries(a: Records, b: Records)
    requires
        forall|id: Seq<char>| #[trigger] entry(a, id) == entry(b, id),
    ensures
        a == b,
{
    assert forall|id: Seq<char>| a.dom().contains(id) <==> b.dom().contains(id) by {
        assert(entry(a, id) == entry(b, id));
    }
    assert forall|id: Seq<char>| a.dom().contains(id) implies a[id] == b[id] by {
        assert(entry(a, id) == entry(b, id));
    }
    assert(a =~= b);
}

/// The undo plan takes the timeline exactly to before the step, and the redo
/// plan exactly to after it.
pub proof fn plans_take_the_timeline_across(
    changes: Seq<ChangeModel>,
    before: Records,
    after: Records,
)
    requires
        between(changes, before, after),
    ensures
        after_plan(after, plan_of(changes, Direction::Undo)) == before,
        after_plan(before, plan_of(changes, Direction::Redo)) == after,
{
    let back = after_plan(after, plan_of(changes, Direction::Undo));
    let forth = after_plan(before, plan_of(changes, Direction::Redo));
    assert forall|id: Seq<char>| #[trigger] entry(back, id) == entry(before, id) by {
        lemma_plan_entry(changes, Direction::Undo, after, id);
        if !(exists|i: int| 0 <= i < changes.len() && (#[trigger] changes[i]).id == id) {
            assert(entry(before, id) == entry(after, id));
        }
    }
    assert forall|id: Seq<char>| #[trigger] entry(forth, id) == entry(after, id) by {
        lemma_plan_entry(changes, Direction::Redo, before, id);
        if !(exists|i: int| 0 <= i < changes.len() && (#[trigger] changes[i]).id == id) {
            assert(entry(before, id) == entry(after, id));
        }
    }
    lemma_same_entries(back, before);
    lemma_same_entries(forth, after);
}

// ---------------------------------------------------------------------------
// Merging
// ---------------------------------------------------------------------------

/// Where a clip is changed.
spec fn at(changes: Seq<ChangeModel>, i: int, id: Seq<char>) -> bool {
    0 <= i < changes.len() && changes[i].id == id
}

/// Folding one change in: its clip keeps its "before" and takes the newer
/// "after", every other clip keeps its change.
proof fn lemma_fold_one(changes: Seq<ChangeModel>, newer: ChangeModel)
    requires
        distinct_ids(changes),
    ensures
        distinct_ids(fold_one(changes, newer)),
        forall|i: int|
            0 <= i < changes.len() ==> #[trigger] fold_one(changes, newer)[i] == if changes[i].id
                == newer.id {
                ChangeModel { after: newer.after, ..changes[i] }
            } else {
                changes[i]
            },
        (exists|i: int| at(changes, i, newer.id)) ==> fold_one(changes, newer).len()
            == changes.len(),
        !(exists|i: int| at(changes, i, newer.id)) ==> fold_one(changes, newer) == changes.push(
            newer,
        ),
{
    if exists|i: int| at(changes, i, newer.id) {
        let k = choose|k: int| at(changes, k, newer.id);
        assert(change_at(changes, newer.id, k)) by {
            assert forall|j: int| 0 <= j < k implies (#[trigger] changes[j]).id != newer.id by {
                assert(changes[j].id != changes[k].id);
            }
        }
        let i = choose|i: int| change_at(changes, newer.id, i);
        assert(i == k);
        let f = fold_one(changes, newer);
        assert forall|m: int| 0 <= m < changes.len() implies #[trigger] f[m] == if changes[m].id
            == newer.id {
            ChangeModel { after: newer.after, ..changes[m] }
        } else {
            changes[m]
        } by {
            if m != i && changes[m].id == newer.id {
                assert(changes[m].id != changes[i].id);
            }
        }
        assert forall|a: int, b: int| 0 <= a < b < f.len() implies (#[trigger] f[a]).id != (
        #[trigger] f[b]).id by {
            assert(changes[a].id != changes[b].id);
        }
    } else {
        assert(!(exists|i: int| change_at(changes, newer.id, i))) by {
            if exists|i: int| change_at(changes, newer.id, i) {
                let i = choose|i: int| change_at(changes, newer.id, i);
                assert(at(changes, i, newer.id));
            }
        }
        let f = fold_one(changes, newer);
        assert forall|m: int| 0 <= m < changes.len() implies #[trigger] f[m] == if changes[m].id
            == newer.id {
            ChangeModel { after: newer.after, ..changes[m] }
        } else {
            changes[m]
        } by {
            assert(!at(changes, m, newer.id));
        }
        assert forall|a: int, b: int| 0 <= a < b < f.len() implies (#[trigger] f[a]).id != (
        #[trigger] f[b]).id by {
            if b == changes.len() {
                assert(!at(changes, a, newer.id));
            } else {
                assert(changes[a].id != changes[b].id);
            }
        }
    }
}

/// Whether both lists change the clip of `c`, and `c` is the one over the other.
spec fn from_both(older: Seq<ChangeModel>, newer: Seq<ChangeModel>, c: ChangeModel) -> bool {
    exists|i: int, j: int|
        #[trigger] at(older, i, c.id) && #[trigger] at(newer, j, c.id) && c == (ChangeModel {
            after: newer[j].after,
            ..older[i]
        })
}

/// Whether `c` is a change of one list.
spec fn from_one(changes: Seq<ChangeModel>, c: ChangeModel) -> bool {
    exists|i: int| #[trigger] at(changes, i, c.id) && c == changes[i]
}

/// Whether the list changes a clip.
spec fn touches(changes: Seq<ChangeModel>, id: Seq<char>) -> bool {
    exists|i: int| #[trigger] at(changes, i, id)
}

/// What folding makes of one clip.
spec fn folded(older: Seq<ChangeModel>, newer: Seq<ChangeModel>, c: ChangeModel) -> bool {
    if touches(older, c.id) {
        if touches(newer, c.id) {
            from_both(older, newer, c)
        } else {
            from_one(older, c)
        }
    } else {
        from_one(newer, c)
    }
}

/// What folding makes of each clip.
proof fn lemma_fold_all(older: Seq<ChangeModel>, newer: Seq<ChangeModel>)
    requires
        distinct_ids(older),
        distinct_ids(newer),
    ensures
        distinct_ids(fold_all(older, newer)),
        forall|k: int|
            0 <= k < fold_all(older, newer).len() ==> folded(
                older,
                newer,
                #[trigger] fold_all(older, newer)[k],
            ),
        forall|id: Seq<char>| #[trigger]
            touches(fold_all(older, newer), id) <==> touches(older, id) || touches(newer, id),
    decreases newer.len(),
{
    let f = fold_all(older, newer);
    if newer.len() == 0 {
        assert forall|k: int| 0 <= k < f.len() implies folded(older, newer, #[trigger] f[k]) by {
            assert(at(older, k, f[k].id));
            assert(!touches(newer, f[k].id));
        }
    } else {
        let rest = newer.drop_last();
        let n = newer.last();
        let g = fold_all(older, rest);
        let last = newer.len() - 1;
        assert forall|a: int, b: int| 0 <= a < b < rest.len() implies (#[trigger] rest[a]).id != (
        #[trigger] rest[b]).id by {
            assert(newer[a].id != newer[b].id);
        }
        lemma_fold_all(older, rest);
        lemma_fold_one(g, n);
        assert(at(newer, last, n.id));
        assert(!touches(rest, n.id)) by {
            if touches(rest, n.id) {
                let j = choose|j: int| at(rest, j, n.id);
                assert(newer[j].id != newer[last].id);
            }
        }
        assert forall|id: Seq<char>| id != n.id implies touches(newer, id) == touches(rest, id) by {
            lemma_touches_more(newer, id);
        }
        assert forall|k: int| 0 <= k < f.len() implies folded(older, newer, #[trigger] f[k]) by {
            lemma_fold_step(older, newer, g, f, k);
        }
        assert forall|id: Seq<char>| #[trigger] touches(f, id) <==> touches(older, id) || touches(
            newer,
            id,
        ) by {
            lemma_touches_more(newer, id);
            if touches(g, id) {
                let k = choose|k: int| at(g, k, id);
                assert(f[k].id == g[k].id);
                assert(at(f, k, id));
            }
            if touches(f, id) {
                let k = choose|k: int| at(f, k, id);
                if k < g.len() {
                    assert(f[k].id == g[k].id);
                    assert(at(g, k, id));
                } else {
                    assert(f[k] == n);
                }
            }
            if id == n.id && !touches(g, id) {
                assert(!(exists|i: int| at(g, i, n.id)));
                assert(at(f, g.len() as int, id));
            }
        }
    }
}

/// One more change adds its clip to those changed.
proof fn lemma_touches_more(changes: Seq<ChangeModel>, id: Seq<char>)
    requires
        changes.len() > 0,
    ensures
        touches(changes, id) <==> touches(changes.drop_last(), id) || changes.last().id == id,
{
    let rest = changes.drop_last();
    if touches(rest, id) {
        let i = choose|i: int| at(rest, i, id);
        assert(at(changes, i, id));
    }
    if changes.last().id == id {
        assert(at(changes, changes.len() - 1, id));
    }
    if touches(changes, id) {
        let i = choose|i: int| at(changes, i, id);
        if i < rest.len() {
            assert(at(rest, i, id));
        }
    }
}

/// What folding the last change in makes of the clip at `k`.
proof fn lemma_fold_step(
    older: Seq<ChangeModel>,
    newer: Seq<ChangeModel>,
    g: Seq<ChangeModel>,
    f: Seq<ChangeModel>,
    k: int,
)
    requires
        distinct_ids(older),
        newer.len() > 0,
        distinct_ids(g),
        g == fold_all(older, newer.drop_last()),
        f == fold_one(g, newer.last()),
        0 <= k < f.len(),
        !touches(newer.drop_last(), newer.last().id),
        forall|i: int|
            0 <= i < g.len() ==> folded(older, newer.drop_last(), #[trigger] g[i]),
        forall|id: Seq<char>| #[trigger]
            touches(g, id) <==> touches(older, id) || touches(newer.drop_last(), id),
    ensures
        folded(older, newer, f[k]),
{
    let rest = newer.drop_last();
    let n = newer.last();
    let last = newer.len() - 1;
    let c = f[k];
    lemma_fold_one(g, n);
    lemma_touches_more(newer, c.id);
    assert(at(newer, last, n.id));
    if k < g.len() {
        let d = g[k];
        assert(at(g, k, d.id));
        assert(folded(older, rest, d));
        if d.id == n.id {
            assert(touches(older, d.id));
            assert(from_one(older, d));
            let i = choose|i: int| #[trigger] at(older, i, d.id) && d == older[i];
            assert(at(older, i, c.id) && at(newer, last, c.id));
            assert(c == (ChangeModel { after: newer[last].after, ..older[i] }));
            assert(from_both(older, newer, c));
        } else {
            assert(c == d);
            if touches(older, c.id) && touches(rest, c.id) {
                let (i, j) = choose|i: int, j: int|
                    #[trigger] at(older, i, d.id) && #[trigger] at(rest, j, d.id) && d == (
                    ChangeModel { after: rest[j].after, ..older[i] });
                assert(at(older, i, c.id) && at(newer, j, c.id));
                assert(c == (ChangeModel { after: newer[j].after, ..older[i] }));
            } else if !touches(older, c.id) {
                let j = choose|j: int| #[trigger] at(rest, j, d.id) && d == rest[j];
                assert(at(newer, j, c.id) && c == newer[j]);
            }
        }
    } else {
        assert(c == n);
        assert(!touches(g, n.id)) by {
            if touches(g, n.id) {
                assert(exists|i: int| at(g, i, n.id));
            }
        }
        assert(at(newer, last, c.id) && c == newer[last]);
        assert(from_one(newer, c));
    }
}

/// Leaving out what is no change keeps the rest.
proof fn lemma_real_changes(changes: Seq<ChangeModel>)
    requires
        distinct_ids(changes),
    ensures
        distinct_ids(real_changes(changes)),
        forall|k: int|
            0 <= k < real_changes(changes).len() ==> exists|i: int|
                0 <= i < changes.len() && changes[i] == #[trigger] real_changes(changes)[k]
                    && !equal_records(changes[i].before, changes[i].after),
        forall|i: int|
            0 <= i < changes.len() && !equal_records(
                (#[trigger] changes[i]).before,
                changes[i].after,
            ) ==> exists|
                k: int,
            |
                at(real_changes(changes), k, changes[i].id),
    decreases changes.len(),
{
    if changes.len() > 0 {
        let rest = changes.drop_last();
        let c = changes.last();
        let n = changes.len() - 1;
        assert(distinct_ids(rest)) by {
            assert forall|a: int, b: int| 0 <= a < b < rest.len() implies (#[trigger] rest[a]).id
                != (#[trigger] rest[b]).id by {
                assert(changes[a].id != changes[b].id);
            }
        }
        lemma_real_changes(rest);
        let r = real_changes(changes);
        let q = real_changes(rest);
        assert forall|k: int| 0 <= k < r.len() implies exists|i: int|
            0 <= i < changes.len() && changes[i] == #[trigger] r[k] && !equal_records(
                changes[i].before,
                changes[i].after,
            ) by {
            if k < q.len() {
                assert(r[k] == q[k]);
                let i = choose|i: int|
                    0 <= i < rest.len() && rest[i] == q[k] && !equal_records(rest[i].before, rest[i].after);
                assert(changes[i] == r[k]);
            } else {
                assert(changes[n] == r[k]);
            }
        }
        assert forall|a: int, b: int| 0 <= a < b < r.len() implies (#[trigger] r[a]).id != (
        #[trigger] r[b]).id by {
            assert(r[a] == q[a]);
            if b < q.len() {
                assert(q[a].id != q[b].id);
            } else {
                let i = choose|i: int|
                    0 <= i < rest.len() && rest[i] == q[a] && !equal_records(rest[i].before, rest[i].after);
                assert(changes[i].id != changes[n].id);
            }
        }
        assert forall|i: int|
            0 <= i < changes.len() && !equal_records(
                (#[trigger] changes[i]).before,
                changes[i].after,
            ) implies exists|
            k: int,
        |
            at(r, k, changes[i].id) by {
            if i < n {
                assert(rest[i] == changes[i]);
                let k = choose|k: int| at(q, k, rest[i].id);
                assert(r[k] == q[k]);
                assert(at(r, k, changes[i].id));
            } else {
                assert(at(r, q.len() as int, changes[i].id));
            }
        }
    }
}

/// A merged step leads from where the first one started to where the last one
/// ended, and holds no clip that is back where it was.
pub proof fn a_merged_step_spans_both(
    older: Seq<ChangeModel>,
    newer: Seq<ChangeModel>,
    before: Records,
    middle: Records,
    after: Records,
)
    requires
        between(older, before, middle),
        between(newer, middle, after),
        told_apart(before, after),
    ensures
        between(real_changes(fold_all(older, newer)), before, after),
        forall|i: int|
            0 <= i < real_changes(fold_all(older, newer)).len() ==> !equal_records(
                (#[trigger] real_changes(fold_all(older, newer))[i]).before,
                real_changes(fold_all(older, newer))[i].after,
            ),
{
    lemma_fold_all(older, newer);
    let f = fold_all(older, newer);
    lemma_real_changes(f);
    let r = real_changes(f);
    assert forall|k: int| 0 <= k < f.len() implies (#[trigger] f[k]).before == entry(before, f[k].id)
        && f[k].after == entry(after, f[k].id) by {
        let c = f[k];
        assert(folded(older, newer, c));
        lemma_untouched(older, before, middle, c.id);
        lemma_untouched(newer, middle, after, c.id);
        if touches(older, c.id) && touches(newer, c.id) {
            let (i, j) = choose|i: int, j: int|
                #[trigger] at(older, i, c.id) && #[trigger] at(newer, j, c.id) && c == (
                ChangeModel { after: newer[j].after, ..older[i] });
            assert(older[i].before == entry(before, older[i].id));
            assert(newer[j].after == entry(after, newer[j].id));
        } else if touches(older, c.id) {
            let i = choose|i: int| #[trigger] at(older, i, c.id) && c == older[i];
            assert(older[i].before == entry(before, older[i].id));
        } else {
            let j = choose|j: int| #[trigger] at(newer, j, c.id) && c == newer[j];
            assert(newer[j].before == entry(middle, newer[j].id));
        }
    }
    assert forall|k: int| 0 <= k < r.len() implies (#[trigger] r[k]).before == entry(before, r[k].id)
        && r[k].after == entry(after, r[k].id) && !equal_records(r[k].before, r[k].after) by {
        let i = choose|i: int|
            0 <= i < f.len() && f[i] == r[k] && !equal_records(f[i].before, f[i].after);
        assert(f[i].before == entry(before, f[i].id));
    }
    assert forall|id: Seq<char>|
        entry(before, id) == #[trigger] entry(after, id) || exists|i: int|
            0 <= i < r.len() && (#[trigger] r[i]).id == id by {
        if entry(before, id) != entry(after, id) {
            lemma_untouched(older, before, middle, id);
            lemma_untouched(newer, middle, after, id);
            assert(touches(f, id));
            let k = choose|k: int| at(f, k, id);
            assert(f[k].before != f[k].after);
            let m = choose|m: int| at(r, m, f[k].id);
            assert(r[m].id == id);
        }
    }
}

/// A clip that no change is of is the same on both sides.
proof fn lemma_untouched(
    changes: Seq<ChangeModel>,
    before: Records,
    after: Records,
    id: Seq<char>,
)
    requires
        between(changes, before, after),
    ensures
        !touches(changes, id) ==> entry(before, id) == entry(after, id),
{
    if entry(before, id) != entry(after, id) {
        let i = choose|i: int| 0 <= i < changes.len() && (#[trigger] changes[i]).id == id;
        assert(at(changes, i, id));
    }
}

// ---------------------------------------------------------------------------
// Telling captures apart
// ---------------------------------------------------------------------------

/// Whether a record holds the negative zero.
pub open spec fn holds_negative_zero(r: RecordModel) -> bool {
    let zero: u64 = 0x8000_0000_0000_0000;
    ||| r.start.bits == zero || r.inpoint.bits == zero || r.duration.bits == zero
    ||| r.rate.bits == zero || r.layout.scale.bits == zero || r.layout.alpha.bits == zero
    ||| r.layout.volume.bits == zero
}

/// Two captures none of whose records holds the negative zero are told apart: a
/// clip whose records compare equal has the very same record in both.
pub proof fn captures_are_told_apart(before: Records, after: Records)
    requires
        forall|id: Seq<char>| #[trigger]
            before.dom().contains(id) ==> !holds_negative_zero(before[id]),
        forall|id: Seq<char>| #[trigger]
            after.dom().contains(id) ==> !holds_negative_zero(after[id]),
    ensures
        told_apart(before, after),
        forall|id: Seq<char>|
            before.dom().contains(id) && after.dom().contains(id) && equal_records(
                Some(#[trigger] before[id]),
                Some(#[trigger] after[id]),
            ) ==> before[id] == after[id],
{
    assert forall|id: Seq<char>| #[trigger]
        equal_records(entry(before, id), entry(after, id)) implies entry(before, id) == entry(
        after,
        id,
    ) by {
        if before.dom().contains(id) && after.dom().contains(id) {
            lemma_the_same_record(before[id], after[id]);
        }
    }
    assert forall|id: Seq<char>|
        before.dom().contains(id) && after.dom().contains(id) && equal_records(
            Some(#[trigger] before[id]),
            Some(#[trigger] after[id]),
        ) implies before[id] == after[id] by {
        lemma_the_same_record(before[id], after[id]);
    }
}

proof fn lemma_the_same_record(a: RecordModel, b: RecordModel)
    requires
        a.equals(b),
        !holds_negative_zero(a),
        !holds_negative_zero(b),
    ensures
        a == b,
{
    assert(a.start == b.start && a.inpoint == b.inpoint && a.duration == b.duration);
    assert(a.rate == b.rate);
    assert(a.layout == b.layout);
}

/// Whether two records differ in a field that holds no number with a fraction.
pub open spec fn differ_plainly(a: RecordModel, b: RecordModel) -> bool {
    ||| a.uri != b.uri || a.name != b.name || a.kind != b.kind || a.track != b.track
    ||| a.layout.posx != b.layout.posx || a.layout.posy != b.layout.posy
    ||| a.sequence != b.sequence
}

/// Whether two records differ in a number by more than the sign of a zero.
pub open spec fn differ_in_number(a: RecordModel, b: RecordModel) -> bool {
    ||| !alike(a.start, b.start) || !alike(a.inpoint, b.inpoint)
    ||| !alike(a.duration, b.duration) || !alike(a.rate, b.rate)
    ||| !alike(a.layout.scale, b.layout.scale) || !alike(a.layout.alpha, b.layout.alpha)
    ||| !alike(a.layout.volume, b.layout.volume)
}

/// Whether a record holds something that is no number.
pub open spec fn record_holds_nan(a: RecordModel) -> bool {
    ||| is_nan(a.start) || is_nan(a.inpoint) || is_nan(a.duration) || is_nan(a.rate)
    ||| is_nan(a.layout.scale) || is_nan(a.layout.alpha) || is_nan(a.layout.volume)
}

/// Whether a step holds a clip, with its record on both sides.
pub open spec fn holds_change(
    changes: Seq<ClipChange>,
    id: Seq<char>,
    before: Option<RecordModel>,
    after: Option<RecordModel>,
) -> bool {
    exists|k: int|
        0 <= k < changes.len() && (#[trigger] changes[k]).id@ == id && opt_model(changes[k].before)
            == before && opt_model(changes[k].after) == after
}

/// What a comparison of two captures finds: a clip whose records differ in the
/// URI, name, kind, track, place on the canvas or run of frames, or in a number by
/// more than the sign of a zero, is among the changes with both its records; so is
/// a clip that only one capture holds. A clip whose records differ in none of
/// these, and hold no NaN, is not.
pub proof fn a_clip_that_differs_is_found(
    before: &Capture,
    after: &Capture,
    r: Vec<ClipChange>,
    id: Seq<char>,
)
    requires
        call_ensures(diff, (before, after), r),
    ensures
        before.records@.dom().contains(id) && after.records@.dom().contains(id) && (differ_plainly(
            before.records@[id],
            after.records@[id],
        ) || differ_in_number(before.records@[id], after.records@[id])) ==> holds_change(
            r@,
            id,
            Some(before.records@[id]),
            Some(after.records@[id]),
        ),
        before.records@.dom().contains(id) && !after.records@.dom().contains(id) ==> holds_change(
            r@,
            id,
            Some(before.records@[id]),
            None,
        ),
        !before.records@.dom().contains(id) && after.records@.dom().contains(id) ==> holds_change(
            r@,
            id,
            None,
            Some(after.records@[id]),
        ),
        before.records@.dom().contains(id) && after.records@.dom().contains(id) && !differ_plainly(
            before.records@[id],
            after.records@[id],
        ) && !differ_in_number(before.records@[id], after.records@[id]) && !record_holds_nan(
            before.records@[id],
        ) && !record_holds_nan(after.records@[id]) ==> forall|k: int|
            0 <= k < r.len() ==> (#[trigger] r[k]).id@ != id,
        !before.records@.dom().contains(id) && !after.records@.dom().contains(id) ==> forall|k: int|
            0 <= k < r.len() ==> (#[trigger] r[k]).id@ != id,
{
    lemma_found(before.records@, after.records@, r@, id);
    if before.records@.dom().contains(id) && after.records@.dom().contains(id) {
        lemma_equal_exactly(before.records@[id], after.records@[id]);
    }
}

/// Two records are equal exactly where they differ in nothing and hold no NaN.
proof fn lemma_equal_exactly(a: RecordModel, b: RecordModel)
    ensures
        equal_records(Some(a), Some(b)) ==> !differ_plainly(a, b),
        equal_records(Some(a), Some(b)) ==> !differ_in_number(a, b),
        !differ_plainly(a, b) && !differ_in_number(a, b) && !record_holds_nan(a)
            && !record_holds_nan(b) ==> equal_records(Some(a), Some(b)),
{
    if a.equals(b) {
        numbers_are_equal_by_their_bits(a.start, b.start);
        numbers_are_equal_by_their_bits(a.inpoint, b.inpoint);
        numbers_are_equal_by_their_bits(a.duration, b.duration);
        numbers_are_equal_by_their_bits(a.rate, b.rate);
        numbers_are_equal_by_their_bits(a.layout.scale, b.layout.scale);
        numbers_are_equal_by_their_bits(a.layout.alpha, b.layout.alpha);
        numbers_are_equal_by_their_bits(a.layout.volume, b.layout.volume);
    }
    if !differ_plainly(a, b) && !differ_in_number(a, b) && !record_holds_nan(a)
        && !record_holds_nan(b) {
        assert(a.start.equals(b.start)) by {
            numbers_are_equal_by_their_bits(a.start, b.start);
        }
        assert(a.inpoint.equals(b.inpoint)) by {
            numbers_are_equal_by_their_bits(a.inpoint, b.inpoint);
        }
        assert(a.duration.equals(b.duration)) by {
            numbers_are_equal_by_their_bits(a.duration, b.duration);
        }
        assert(a.rate.equals(b.rate)) by {
            numbers_are_equal_by_their_bits(a.rate, b.rate);
        }
        assert(a.layout.equals(b.layout)) by {
            numbers_are_equal_by_their_bits(a.layout.scale, b.layout.scale);
            numbers_are_equal_by_their_bits(a.layout.alpha, b.layout.alpha);
            numbers_are_equal_by_their_bits(a.layout.volume, b.layout.volume);
        }
        assert(a.equals(b));
    }
}

/// The same of the step that records an edit: above all, a clip whose track
/// differs between the captures around the edit is among the step's changes.
pub proof fn a_clip_that_differs_is_in_the_step(
    kind: StepKind,
    subject: Option<&String>,
    name: &String,
    before: &Capture,
    after: &Capture,
    rows: &Assoc<TimelineClip>,
    r: TimelineStep,
    id: Seq<char>,
)
    requires
        call_ensures(TimelineStep::new, (kind, subject, name, before, after, rows), r),
    ensures
        before.records@.dom().contains(id) && after.records@.dom().contains(id)
            && before.records@[id].track != after.records@[id].track ==> holds_change(
            r.changes@,
            id,
            Some(before.records@[id]),
            Some(after.records@[id]),
        ),
        before.records@.dom().contains(id) && after.records@.dom().contains(id) && (differ_plainly(
            before.records@[id],
            after.records@[id],
        ) || differ_in_number(before.records@[id], after.records@[id])) ==> holds_change(
            r.changes@,
            id,
            Some(before.records@[id]),
            Some(after.records@[id]),
        ),
        before.records@.dom().contains(id) && !after.records@.dom().contains(id) ==> holds_change(
            r.changes@,
            id,
            Some(before.records@[id]),
            None,
        ) && (rows@.dom().contains(id) ==> r.kept_rows@.dom().contains(id) && r.kept_rows@[id]
            == rows@[id]),
        !before.records@.dom().contains(id) && after.records@.dom().contains(id) ==> holds_change(
            r.changes@,
            id,
            None,
            Some(after.records@[id]),
        ) && (rows@.dom().contains(id) ==> r.kept_rows@.dom().contains(id) && r.kept_rows@[id]
            == rows@[id]),
        before.records@.dom().contains(id) == after.records@.dom().contains(id)
            ==> !r.kept_rows@.dom().contains(id),
        r.kind == kind && r.name@ == name@,
        subject is Some ==> r.subject is Some && r.subject->0@ == subject->0@,
        subject is None ==> r.subject is None,
        r.tracks_before == before.tracks && r.tracks_after == after.tracks,
{
    lemma_found(before.records@, after.records@, r.changes@, id);
    if before.records@.dom().contains(id) && after.records@.dom().contains(id) {
        lemma_equal_exactly(before.records@[id], after.records@[id]);
    }
    let m = r@.changes;
    assert(m == models(r.changes@));
    if before.records@.dom().contains(id) != after.records@.dom().contains(id) {
        let k = choose|k: int|
            0 <= k < r.changes.len() && (#[trigger] r.changes@[k]).id@ == id && opt_model(
                r.changes@[k].before,
            ) == entry(before.records@, id) && opt_model(r.changes@[k].after) == entry(
                after.records@,
                id,
            );
        assert(m[k] == r.changes@[k]@);
        assert(comes_or_goes(m, id));
        assert(r@.kept == r.kept_rows@);
        assert(r@.kept.dom().contains(id) <==> rows@.dom().contains(id));
    } else {
        assert(!comes_or_goes(m, id)) by {
            if comes_or_goes(m, id) {
                let k = choose|k: int|
                    0 <= k < m.len() && (#[trigger] m[k]).id == id && one_sided(m[k]);
                assert(m[k].before == entry(before.records@, id));
                assert(m[k].after == entry(after.records@, id));
            }
        }
    }
    assert(r@.name == r.name@);
    assert(r@.subject == opt_model(r.subject));
}

proof fn lemma_found(before: Records, after: Records, changes: Seq<ClipChange>, id: Seq<char>)
    requires
        is_diff(before, after, models(changes)),
    ensures
        !equal_records(entry(before, id), entry(after, id)) ==> holds_change(
            changes,
            id,
            entry(before, id),
            entry(after, id),
        ),
        equal_records(entry(before, id), entry(after, id)) ==> forall|k: int|
            0 <= k < changes.len() ==> (#[trigger] changes[k]).id@ != id,
{
    let m = models(changes);
    let ids = ids_of(m);
    assert forall|k: int| 0 <= k < changes.len() implies ids[k] == (#[trigger] changes[k]).id@ by {
        assert(m[k] == changes[k]@);
    }
    if !equal_records(entry(before, id), entry(after, id)) {
        assert(ids.contains(id));
        let k = ids.index_of(id);
        assert(m[k] == changes[k]@);
        assert(changes[k].id@ == id);
    } else {
        assert forall|k: int| 0 <= k < changes.len() implies (#[trigger] changes[k]).id@ != id by {
            if changes[k].id@ == id {
                assert(ids[k] == id);
                assert(ids.contains(id));
            }
        }
    }
}

/// The changes that a comparison finds come in the order of their clips' IDs, each
/// clip once.
pub proof fn changes_come_in_order(
    before: &Capture,
    after: &Capture,
    r: Vec<ClipChange>,
    i: int,
    j: int,
)
    requires
        call_ensures(diff, (before, after), r),
        0 <= i < j < r.len(),
    ensures
        text_before(r[i].id@, r[j].id@),
{
    let ids = ids_of(models(r@));
    assert(models(r@)[i] == r[i]@ && models(r@)[j] == r[j]@);
    assert(ids[i] == r[i].id@ && ids[j] == r[j].id@);
}

/// Whether the last clip listed under an ID is at `i`.
pub open spec fn last_listed(clips: Seq<(String, ClipRecord)>, id: Seq<char>, i: int) -> bool {
    &&& 0 <= i < clips.len()
    &&& clips[i].0@ == id
    &&& forall|j: int| i < j < clips.len() ==> (#[trigger] clips[j]).0@ != id
}

/// A capture holds the clips that the engine lists and no others, each with its
/// record: the last one listed where an ID is listed twice.
pub proof fn a_capture_holds_what_is_listed(
    clips: &Vec<(String, ClipRecord)>,
    tracks: usize,
    r: Capture,
    id: Seq<char>,
)
    requires
        call_ensures(Capture::of, (clips, tracks), r),
    ensures
        r.tracks == tracks,
        r.records@.dom().contains(id) <==> exists|i: int|
            0 <= i < clips.len() && (#[trigger] clips[i]).0@ == id,
        forall|i: int| #[trigger] last_listed(clips@, id, i) ==> r.records@[id] == clips[i].1@,
{
    assert(r@.records == r.records@ && r@.tracks == r.tracks);
    lemma_none_listed(clips@, id);
    if r.records@.dom().contains(id) {
        let i = lemma_listed(clips@, id);
        assert(clips[i].0@ == id);
        assert forall|k: int| #[trigger] last_listed(clips@, id, k) implies r.records@[id]
            == clips[k].1@ by {
            if k < i {
                assert(clips@[i].0@ != id);
            }
            if i < k {
                assert(clips@[k].0@ != id);
            }
        }
    } else {
        assert forall|k: int| #[trigger] last_listed(clips@, id, k) implies r.records@[id]
            == clips[k].1@ by {
            assert(clips@[k].0@ == id);
        }
    }
}

proof fn lemma_listed(clips: Seq<(String, ClipRecord)>, id: Seq<char>) -> (i: int)
    requires
        records_of(clips).dom().contains(id),
    ensures
        last_listed(clips, id, i),
        records_of(clips)[id] == clips[i].1@,
    decreases clips.len(),
{
    if clips.last().0@ == id {
        clips.len() - 1
    } else {
        let less = clips.drop_last();
        let i = lemma_listed(less, id);
        assert forall|j: int| i < j < clips.len() implies (#[trigger] clips[j]).0@ != id by {
            if j < less.len() {
                assert(less[j] == clips[j]);
            }
        }
        i
    }
}

proof fn lemma_none_listed(clips: Seq<(String, ClipRecord)>, id: Seq<char>)
    ensures
        forall|i: int|
            0 <= i < clips.len() && (#[trigger] clips[i]).0@ == id ==> records_of(
                clips,
            ).dom().contains(id),
    decreases clips.len(),
{
    if clips.len() > 0 {
        let less = clips.drop_last();
        lemma_none_listed(less, id);
        assert forall|i: int| 0 <= i < clips.len() && (#[trigger] clips[i]).0@ == id implies records_of(
            clips,
        ).dom().contains(id) by {
            if i < less.len() {
                assert(less[i] == clips[i]);
            }
        }
    }
}

/// A plan's operations come from the step's changes: on the way back a clip that
/// the step brought is removed, one that it took comes back with the record it
/// had, and any other takes the record it had; on the way forth the other way
/// round.
pub proof fn a_plan_goes_to_the_other_side(
    step: &TimelineStep,
    dir: Direction,
    r: Plan,
    i: int,
)
    requires
        call_ensures(plan, (step, dir), r),
        0 <= i < step.changes.len(),
    ensures
        ({
            let c = step.changes[i];
            let from = if dir is Undo {
                c.after
            } else {
                c.before
            };
            let to = if dir is Undo {
                c.before
            } else {
                c.after
            };
            &&& from is Some && to is None ==> exists|k: int|
                0 <= k < r.removes.len() && (#[trigger] r.removes[k])@ == c.id@
            &&& from is Some && to is Some ==> exists|k: int|
                0 <= k < r.writes.len() && (#[trigger] r.writes[k]).0@ == c.id@ && r.writes[k].1@
                    == to->0@
            &&& from is None && to is Some ==> exists|k: int|
                0 <= k < r.restores.len() && (#[trigger] r.restores[k]).0@ == c.id@
                    && r.restores[k].1@ == to->0@
        }),
{
    let m = models(step.changes@);
    assert(step@.changes == m);
    let c = step.changes[i];
    assert(m[i] == c@);
    let p = plan_of(m, dir);
    assert(r@ == p);
    lemma_plan_holds(m, dir, i);
    match (m[i].from_side(dir), m[i].to_side(dir)) {
        (Some(_), None) => {
            let k = p.removes.index_of(c.id@);
            assert(models(r.removes@)[k] == r.removes[k]@);
        },
        (Some(_), Some(x)) => {
            let k = choose|k: int|
                0 <= k < p.writes.len() && #[trigger] p.writes[k] == (m[i].id, x);
            assert(models(r.writes@)[k] == r.writes[k]@);
            assert(r.writes[k].0@ == c.id@);
        },
        (None, Some(x)) => {
            let k = choose|k: int|
                0 <= k < p.restores.len() && #[trigger] p.restores[k] == (m[i].id, x);
            assert(models(r.restores@)[k] == r.restores[k]@);
            assert(r.restores[k].0@ == c.id@);
        },
        (None, None) => {},
    }
}

/// A plan holds as many operations as the step has changes of clips that are there
/// on some side.
pub proof fn a_plan_adds_nothing(step: &TimelineStep, dir: Direction, r: Plan)
    requires
        call_ensures(plan, (step, dir), r),
        forall|i: int|
            0 <= i < step.changes.len() ==> (#[trigger] step.changes[i]).before is Some
                || step.changes[i].after is Some,
    ensures
        r.removes.len() + r.writes.len() + r.restores.len() == step.changes.len(),
{
    let m = models(step.changes@);
    assert forall|i: int| 0 <= i < m.len() implies (#[trigger] m[i]).before is Some
        || m[i].after is Some by {
        assert(m[i] == step.changes[i]@);
    }
    lemma_plan_size(m, dir);
    assert(r@.removes == models(r.removes@) && r@.writes == models(r.writes@));
    assert(r@.restores == models(r.restores@));
}

proof fn lemma_plan_size(changes: Seq<ChangeModel>, dir: Direction)
    requires
        forall|i: int|
            0 <= i < changes.len() ==> (#[trigger] changes[i]).before is Some
                || changes[i].after is Some,
    ensures
        ({
            let p = plan_of(changes, dir);
            p.removes.len() + p.writes.len() + p.restores.len() == changes.len()
        }),
    decreases changes.len(),
{
    if changes.len() > 0 {
        let less = changes.drop_last();
        assert forall|i: int| 0 <= i < less.len() implies (#[trigger] less[i]).before is Some
            || less[i].after is Some by {
            assert(less[i] == changes[i]);
        }
        lemma_plan_size(less, dir);
        assert(changes[changes.len() - 1] == changes.last());
    }
}

/// The rows shown are those before the edit where it is undone, those after it
/// where it is done again.
pub proof fn the_rows_shown_are_those_of_the_side(step: &TimelineStep, dir: Direction, r: usize)
    requires
        call_ensures(target_tracks, (step, dir), r),
    ensures
        dir is Undo ==> r == step.tracks_before,
        dir is Redo ==> r == step.tracks_after,
{
}

/// Steps merge only within one gesture: both move, trim, transform or stretch, and
/// both are of one and the same clip.
pub proof fn only_a_gesture_merges(older: &TimelineStep, newer: &TimelineStep, r: bool)
    requires
        call_ensures(TimelineStep::merges_with, (older, newer), r),
    ensures
        r <==> {
            &&& older.kind == newer.kind
            &&& older.kind is Move || older.kind is Trim || older.kind is Transform
                || older.kind is Duration
            &&& older.subject is Some && newer.subject is Some
            &&& older.subject->0@ == newer.subject->0@
        },
{
    assert(older@.kind == older.kind && newer@.kind == newer.kind);
    assert(older@.subject == opt_model(older.subject));
    assert(newer@.subject == opt_model(newer.subject));
}

/// A step is empty exactly where it changed no clip and no row.
pub proof fn a_step_of_no_change_is_empty(step: &TimelineStep, r: bool)
    requires
        call_ensures(TimelineStep::is_empty, (step,), r),
    ensures
        r <==> step.changes.len() == 0 && step.tracks_before == step.tracks_after,
{
    assert(step@.changes.len() == step.changes.len());
}

/// A merged step keeps what it is about and where it started, ends where the newer
/// one ends, and holds the rows of both, the newer one's where both hold one.
pub proof fn a_merged_step_ends_where_the_newer_ends(step: &mut TimelineStep, newer: TimelineStep)
    requires
        call_ensures(TimelineStep::absorb, (step, newer), ()),
    ensures
        final(step).kind == old(step).kind,
        final(step).name@ == old(step).name@,
        final(step)@.subject == old(step)@.subject,
        final(step).tracks_before == old(step).tracks_before,
        final(step).tracks_after == newer.tracks_after,
        forall|id: Seq<char>| #[trigger]
            final(step).kept_rows@.dom().contains(id) <==> old(step).kept_rows@.dom().contains(id)
                || newer.kept_rows@.dom().contains(id),
        forall|id: Seq<char>|
            newer.kept_rows@.dom().contains(id) ==> #[trigger] final(step).kept_rows@[id]
                == newer.kept_rows@[id],
        forall|id: Seq<char>|
            old(step).kept_rows@.dom().contains(id) && !newer.kept_rows@.dom().contains(id)
                ==> #[trigger] final(step).kept_rows@[id] == old(step).kept_rows@[id],
{
    let a = old(step)@;
    let b = final(step)@;
    assert(b == a.absorbed(newer@));
    assert(b.kind == final(step).kind && b.name == final(step).name@);
    assert(b.tracks_before == final(step).tracks_before);
    assert(b.tracks_after == final(step).tracks_after);
    assert(b.kept == final(step).kept_rows@ && a.kept == old(step).kept_rows@);
}

/// How a step describes itself.
pub proof fn a_step_says_what_it_did(step: &TimelineStep, r: String)
    requires
        call_ensures(TimelineStep::describe, (step,), r),
    ensures
        step.kind is Move ==> r@ == "moving "@ + step.name@,
        step.kind is Trim ==> r@ == "trimming "@ + step.name@,
        step.kind is Transform ==> r@ == "transforming "@ + step.name@,
        step.kind is Duration ==> r@ == "changing the duration of "@ + step.name@,
        step.kind is Add ==> r@ == "adding "@ + step.name@,
        step.kind is Delete ==> r@ == "deleting "@ + step.name@,
        step.kind is ReorderTracks ==> r@ == "reordering tracks"@,
        step.kind is AddTrack ==> r@ == "adding a track"@,
        step.kind is Split ==> r@ == "splitting "@ + step.name@,
{
}

/// A clip that got a new ID has it everywhere in the step, and nothing else in the
/// step changes.
pub proof fn a_renamed_clip_is_renamed_everywhere(
    step: &mut TimelineStep,
    old_id: &String,
    new_id: &String,
)
    requires
        call_ensures(TimelineStep::rename_clip, (step, old_id, new_id), ()),
    ensures
        final(step).kind == old(step).kind && final(step).name@ == old(step).name@,
        final(step).tracks_before == old(step).tracks_before,
        final(step).tracks_after == old(step).tracks_after,
        final(step).subject is Some <==> old(step).subject is Some,
        old(step).subject is Some ==> final(step).subject->0@ == if old(step).subject->0@
            == old_id@ {
            new_id@
        } else {
            old(step).subject->0@
        },
        final(step).changes.len() == old(step).changes.len(),
        forall|i: int|
            0 <= i < old(step).changes.len() ==> {
                &&& (#[trigger] final(step).changes[i])@.before == old(step).changes[i]@.before
                &&& final(step).changes[i]@.after == old(step).changes[i]@.after
                &&& old(step).changes[i].id@ == old_id@ ==> final(step).changes[i].id@ == new_id@
                &&& old(step).changes[i].id@ != old_id@ ==> final(step).changes[i].id@ == old(step).changes[i].id@
            },
        old(step).kept_rows@.dom().contains(old_id@) ==> final(step).kept_rows@.dom().contains(
            new_id@,
        ) && final(step).kept_rows@[new_id@] == old(step).kept_rows@[old_id@],
        old(step).kept_rows@.dom().contains(old_id@) && old_id@ != new_id@ ==> !final(step).kept_rows@.dom().contains(old_id@),
        forall|id: Seq<char>|
            id != old_id@ && id != new_id@ ==> (#[trigger] final(step).kept_rows@.dom().contains(
                id,
            ) <==> old(step).kept_rows@.dom().contains(id)),
{
    let a = old(step)@;
    let b = final(step)@;
    assert(b == a.with_rename(old_id@, new_id@));
    assert(b.kind == final(step).kind && b.name == final(step).name@);
    assert(b.subject == opt_model(final(step).subject));
    assert(a.subject == opt_model(old(step).subject));
    assert(b.tracks_before == final(step).tracks_before);
    assert(b.tracks_after == final(step).tracks_after);
    assert(b.kept == final(step).kept_rows@ && a.kept == old(step).kept_rows@);
    assert(a.changes == models(old(step).changes@));
    assert(b.changes == models(final(step).changes@));
    assert forall|i: int| 0 <= i < old(step).changes.len() implies {
        &&& (#[trigger] final(step).changes[i])@.before == old(step).changes[i]@.before
        &&& final(step).changes[i]@.after == old(step).changes[i]@.after
        &&& old(step).changes[i].id@ == old_id@ ==> final(step).changes[i].id@ == new_id@
        &&& old(step).changes[i].id@ != old_id@ ==> final(step).changes[i].id@ == old(step).changes[i].id@
    } by {
        assert(a.changes[i] == old(step).changes[i]@);
        assert(b.changes[i] == final(step).changes[i]@);
    }
}

} // verus!
