//! What holds of every restore that reapplies the ledger.

use vstd::prelude::*;

use crate::clock::readable_instant;
use crate::error::StoreError;
use crate::ledger::{
    after_repurges, comes_back, covered, entries, first_fault, first_refusal, imported,
    insert_by_age, keep_tombstone, law_ordering_keeps_every_entry, ledger_of, lemma_first_refusal,
    lemma_newest_first_members, newest_first, present, readings_needed, reapply_step,
    repo_paths_of, repurge_fault, repurged, resurrected, with_imported, RepurgedSession,
};
use crate::order::texts;
use crate::purge_laws::{
    law_purge_reaches_every_layer, law_purge_spares_siblings, lemma_proposal_collected,
    lemma_run_collected, lemma_session_at, same_session_data, sessions_of,
};
use crate::session_purge::{
    applied_from, derived_proposals, derived_runs, entry_fault, keep_page, keep_proposal, keep_run,
    keep_session, lists_derived_paths, page_derived, page_path_fault, path_derived, purge_fault,
    purged, refused_path, run_of, session_at, session_scope, staged_by, staged_proposals,
    tombstone_at, tombstone_of, well_formed_ids, without_session,
};
use crate::store::{
    lemma_filter, lemma_filter_all, links_to, LedgerEntry, PageRow, ProposalRow, SessionRow,
    StoreView, TombstoneView,
};

verus! {

/// `a` and `b` record one deletion: the same session, scope, id and time.
pub open spec fn same_deletion(a: LedgerEntry, b: LedgerEntry) -> bool {
    &&& a.session_id == b.session_id
    &&& a.workspace_id == b.workspace_id
    &&& a.project_id == b.project_id
    &&& a.tombstone_id == b.tombstone_id
    &&& a.purged_at == b.purged_at
}

/// Every tombstone of the database can be read.
pub open spec fn readable_ledger(st: StoreView) -> bool {
    forall|i: int|
        0 <= i < st.tombstones.len() ==> entry_fault((#[trigger] st.tombstones[i]).entry) is None
}

/// Some tombstone of the database records the deletion that `e` records.
pub open spec fn recorded(st: StoreView, e: LedgerEntry) -> bool {
    exists|i: int|
        0 <= i < st.tombstones.len() && same_deletion(#[trigger] st.tombstones[i].entry, e)
}

/// Importing keeps every tombstone that was there, adds no session and takes none
/// away, and covers every session of the list.
pub proof fn law_import_keeps_and_covers(st: StoreView, list: Seq<LedgerEntry>)
    ensures
        st.tombstones.is_prefix_of(imported(st, list).tombstones),
        imported(st, list) == (StoreView { tombstones: imported(st, list).tombstones, ..st }),
        forall|k: int|
            0 <= k < list.len() ==> covered(imported(st, list), (#[trigger] list[k]).session_id),
    decreases list.len(),
{
    if list.len() > 0 {
        let rest = list.drop_last();
        let part = imported(st, rest);
        let whole = imported(st, list);
        law_import_keeps_and_covers(st, rest);
        assert(whole == with_imported(part, list.last()));
        assert(st.tombstones == part.tombstones.take(st.tombstones.len() as int));
        assert(whole.tombstones.take(st.tombstones.len() as int) == st.tombstones);
        assert forall|k: int|
            0 <= k < list.len() implies covered(whole, (#[trigger] list[k]).session_id) by {
            if k == list.len() - 1 {
                if !covered(part, list.last().session_id) {
                    assert(whole.tombstones.last().entry == list.last());
                    assert(whole.tombstones[part.tombstones.len() as int].entry.session_id
                        == list[k].session_id);
                }
            } else {
                assert(rest[k] == list[k]);
                assert(covered(part, rest[k].session_id));
            }
            if covered(part, list[k].session_id) {
                let i = choose|i: int|
                    0 <= i < part.tombstones.len() && (
                    #[trigger] part.tombstones[i]).entry.session_id == list[k].session_id;
                assert(whole.tombstones[i] == part.tombstones[i]);
            }
        }
    }
}

/// Importing a ledger twice is importing it once.
pub proof fn law_import_is_idempotent(st: StoreView, list: Seq<LedgerEntry>)
    ensures
        imported(imported(st, list), list) == imported(st, list),
{
    law_import_keeps_and_covers(st, list);
    lemma_nothing_left_to_import(imported(st, list), list);
}

proof fn lemma_nothing_left_to_import(st: StoreView, list: Seq<LedgerEntry>)
    requires
        forall|k: int|
            0 <= k < list.len() ==> covered(st, (#[trigger] list[k]).session_id),
    ensures
        imported(st, list) == st,
    decreases list.len(),
{
    if list.len() > 0 {
        let rest = list.drop_last();
        assert forall|k: int|
            0 <= k < rest.len() implies covered(st, (#[trigger] rest[k]).session_id) by {
            assert(rest[k] == list[k]);
        }
        lemma_nothing_left_to_import(st, rest);
        assert(list.last() == list[list.len() - 1]);
    }
}

/// What one repurge does to the sessions and to the ledger.
proof fn lemma_repurge(st: StoreView, e: LedgerEntry, now: int)
    ensures
        !present(repurged(st, e, now), e.session_id),
        forall|s: Seq<u8>| #[trigger] present(repurged(st, e, now), s) ==> present(st, s),
        forall|s: Seq<u8>| #[trigger]
            covered(repurged(st, e, now), s) ==> covered(st, s) || s == e.session_id,
        forall|s: Seq<u8>| #[trigger] covered(st, s) ==> covered(repurged(st, e, now), s),
        readable_ledger(st) && entry_fault(e) is None ==> readable_ledger(repurged(st, e, now)),
        recorded(repurged(st, e, now), e),
        forall|d: LedgerEntry| #[trigger]
            recorded(st, d) && d.session_id != e.session_id ==> recorded(repurged(st, e, now), d),
        forall|s: Seq<u8>| s != e.session_id ==> #[trigger] same_session_data(
            st,
            repurged(st, e, now),
            s,
        ),
{
    let after = repurged(st, e, now);
    let cut = purged(st, e.workspace_id, e.project_id, e.session_id, now, e.tombstone_id);
    let keep = keep_session(e.session_id);
    law_purge_reaches_every_layer(
        st,
        e.workspace_id,
        e.project_id,
        e.session_id,
        now,
        e.tombstone_id,
    );
    if present(after, e.session_id) {
        let i = choose|i: int|
            0 <= i < after.sessions.len() && (#[trigger] after.sessions[i]).id@ == e.session_id;
        assert(cut.sessions[i].id@ == e.session_id);
        assert(present(cut, e.session_id));
    }
    lemma_filter(st.sessions, keep);
    assert forall|s: Seq<u8>| #[trigger] present(after, s) implies present(st, s) by {
        let i = choose|i: int|
            0 <= i < after.sessions.len() && (#[trigger] after.sessions[i]).id@ == s;
        assert(st.sessions.contains(after.sessions[i]));
        let k = choose|k: int| 0 <= k < st.sessions.len() && st.sessions[k] == after.sessions[i];
        assert(st.sessions[k].id@ == s);
    }
    let stays = keep_tombstone(e.session_id);
    lemma_filter(st.tombstones, stays);
    let kept = st.tombstones.filter(stays);
    let n = kept.len() as int;
    assert forall|s: Seq<u8>| #[trigger] covered(after, s) implies covered(st, s) || s
        == e.session_id by {
        let i = choose|i: int|
            0 <= i < after.tombstones.len() && (#[trigger] after.tombstones[i]).entry.session_id
                == s;
        if i < n {
            assert(st.tombstones.contains(kept[i]));
            let k = choose|k: int|
                0 <= k < st.tombstones.len() && st.tombstones[k] == kept[i];
            assert(st.tombstones[k].entry.session_id == s);
        }
    }
    assert(same_deletion(after.tombstones[n].entry, e));
    assert forall|s: Seq<u8>| #[trigger] covered(st, s) implies covered(after, s) by {
        let i = choose|i: int|
            0 <= i < st.tombstones.len() && (#[trigger] st.tombstones[i]).entry.session_id == s;
        if s == e.session_id {
            assert(after.tombstones[n].entry.session_id == s);
        } else {
            assert(stays(st.tombstones[i]));
            assert(kept.contains(st.tombstones[i]));
            let k = choose|k: int| 0 <= k < n && kept[k] == st.tombstones[i];
            assert(after.tombstones[k].entry.session_id == s);
        }
    }
    if readable_ledger(st) && entry_fault(e) is None {
        assert forall|i: int| 0 <= i < after.tombstones.len() implies entry_fault(
            (#[trigger] after.tombstones[i]).entry,
        ) is None by {
            if i < n {
                assert(st.tombstones.contains(kept[i]));
                let k = choose|k: int| 0 <= k < st.tombstones.len() && st.tombstones[k] == kept[i];
                assert(entry_fault(st.tombstones[k].entry) is None);
            }
        }
    }
    assert forall|d: LedgerEntry| #[trigger] recorded(st, d) && d.session_id
        != e.session_id implies recorded(after, d) by {
        let i = choose|i: int|
            0 <= i < st.tombstones.len() && same_deletion(#[trigger] st.tombstones[i].entry, d);
        assert(stays(st.tombstones[i]));
        assert(kept.contains(st.tombstones[i]));
        let k = choose|k: int| 0 <= k < n && kept[k] == st.tombstones[i];
        assert(after.tombstones[k] == st.tombstones[i]);
    }
    assert forall|s: Seq<u8>| s != e.session_id implies #[trigger] same_session_data(
        st,
        after,
        s,
    ) by {
        law_purge_spares_siblings(
            st,
            e.workspace_id,
            e.project_id,
            e.session_id,
            now,
            e.tombstone_id,
            s,
        );
    }
}

/// The sessions that the first `k` entries of `work` name.
spec fn done(work: Seq<LedgerEntry>, k: int, s: Seq<u8>) -> bool {
    exists|j: int| 0 <= j < k && (#[trigger] work[j]).session_id == s
}

proof fn lemma_repurges(st: StoreView, work: Seq<LedgerEntry>, nows: Seq<int>, k: int)
    requires
        0 <= k <= work.len(),
        forall|j: int| 0 <= j < work.len() ==> covered(st, (#[trigger] work[j]).session_id),
    ensures
        forall|s: Seq<u8>| #[trigger]
            present(after_repurges(st, work, nows, k), s) ==> present(st, s) && !done(work, k, s),
        forall|s: Seq<u8>| #[trigger]
            covered(after_repurges(st, work, nows, k), s) <==> covered(st, s),
        forall|d: LedgerEntry| #[trigger]
            recorded(st, d) && !done(work, k, d.session_id) ==> recorded(
                after_repurges(st, work, nows, k),
                d,
            ),
        forall|s: Seq<u8>|
            !done(work, k, s) ==> #[trigger] same_session_data(
                st,
                after_repurges(st, work, nows, k),
                s,
            ),
    decreases k,
{
    let after = after_repurges(st, work, nows, k);
    if k > 0 {
        lemma_repurges(st, work, nows, k - 1);
        let before = after_repurges(st, work, nows, k - 1);
        let e = work[k - 1];
        lemma_repurge(before, e, nows[k - 1]);
        assert forall|s: Seq<u8>| #[trigger] present(after, s) implies present(st, s) && !done(
            work,
            k,
            s,
        ) by {
            assert(present(before, s));
            if done(work, k, s) {
                let j = choose|j: int| 0 <= j < k && (#[trigger] work[j]).session_id == s;
                if j < k - 1 {
                    assert(done(work, k - 1, s));
                }
            }
        }
        assert forall|s: Seq<u8>| #[trigger] covered(after, s) <==> covered(st, s) by {
            assert(covered(before, s) <==> covered(st, s));
            assert(covered(st, e.session_id));
        }
        assert forall|d: LedgerEntry| #[trigger] recorded(st, d) && !done(
            work,
            k,
            d.session_id,
        ) implies recorded(after, d) by {
            assert(work[k - 1].session_id != d.session_id);
            if done(work, k - 1, d.session_id) {
                let j = choose|j: int|
                    0 <= j < k - 1 && (#[trigger] work[j]).session_id == d.session_id;
                assert(done(work, k, d.session_id));
            }
            assert(recorded(before, d));
        }
        assert forall|s: Seq<u8>| !done(work, k, s) implies #[trigger] same_session_data(
            st,
            after,
            s,
        ) by {
            assert(work[k - 1].session_id != s);
            if done(work, k - 1, s) {
                let j = choose|j: int| 0 <= j < k - 1 && (#[trigger] work[j]).session_id == s;
                assert(work[j].session_id == s);
            }
            assert(same_session_data(st, before, s));
            assert(same_session_data(before, after, s));
        }
    }
}

/// Entries of the work list are tombstones of present sessions, and all of them.
proof fn lemma_work_list(st: StoreView)
    ensures
        forall|e: LedgerEntry| #[trigger]
            resurrected(st).contains(e) <==> entries(st.tombstones).contains(e) && present(
                st,
                e.session_id,
            ),
        forall|j: int|
            0 <= j < resurrected(st).len() ==> covered(
                st,
                (#[trigger] resurrected(st)[j]).session_id,
            ),
{
    let all = ledger_of(st);
    lemma_filter(all, comes_back(st));
    assert forall|e: LedgerEntry| #[trigger]
        resurrected(st).contains(e) <==> entries(st.tombstones).contains(e) && present(
            st,
            e.session_id,
        ) by {
        lemma_newest_first_members(entries(st.tombstones), e);
    }
    assert forall|j: int| 0 <= j < resurrected(st).len() implies covered(
        st,
        (#[trigger] resurrected(st)[j]).session_id,
    ) by {
        let e = resurrected(st)[j];
        assert(resurrected(st).contains(e));
        let i = choose|i: int|
            0 <= i < entries(st.tombstones).len() && entries(st.tombstones)[i] == e;
        assert(st.tombstones[i].entry.session_id == e.session_id);
    }
}

/// Reapplying a ledger reads the clock at most once for each tombstone of the
/// database and each of the ledger.
pub proof fn law_readings_are_bounded(before: StoreView, list: Seq<LedgerEntry>)
    ensures
        readings_needed(before, list) <= before.tombstones.len() + list.len(),
{
    let st = imported(before, list);
    lemma_import_adds_at_most(before, list);
    law_ordering_keeps_every_entry(entries(st.tombstones));
    lemma_filter(ledger_of(st), comes_back(st));
}

proof fn lemma_import_adds_at_most(st: StoreView, list: Seq<LedgerEntry>)
    ensures
        imported(st, list).tombstones.len() <= st.tombstones.len() + list.len(),
    decreases list.len(),
{
    if list.len() > 0 {
        lemma_import_adds_at_most(st, list.drop_last());
    }
}

/// A restore cannot serve what the ledger says was deleted: once the ledger has
/// been reapplied, no covered session is present, so the last check counts zero.
/// Every session of the ledger is covered, and so is gone, whatever the snapshot
/// brought back.
pub proof fn law_nothing_stays_resurrected(
    before: StoreView,
    after: StoreView,
    list: Seq<LedgerEntry>,
    nows: Seq<int>,
    r: Result<Vec<RepurgedSession>, StoreError>,
)
    requires
        reapply_step(before, after, list, nows, r),
        r is Ok,
    ensures
        resurrected(after).len() == 0,
        forall|k: int|
            0 <= k < list.len() ==> !present(after, (#[trigger] list[k]).session_id),
{
    let st = imported(before, list);
    let work = resurrected(st);
    lemma_work_list(st);
    lemma_first_refusal(st, work, nows, 0);
    lemma_repurges(st, work, nows, work.len() as int);
    assert forall|s: Seq<u8>| #[trigger] covered(st, s) implies !present(after, s) by {
        if present(after, s) {
            let i = choose|i: int|
                0 <= i < st.tombstones.len() && (#[trigger] st.tombstones[i]).entry.session_id
                    == s;
            let e = st.tombstones[i].entry;
            assert(entries(st.tombstones)[i] == e);
            assert(work.contains(e));
            let j = choose|j: int| 0 <= j < work.len() && work[j] == e;
            assert(done(work, work.len() as int, s));
        }
    }
    if resurrected(after).len() > 0 {
        lemma_work_list(after);
        let e = resurrected(after)[0];
        assert(resurrected(after).contains(e));
        assert(covered(after, e.session_id));
        assert(covered(st, e.session_id));
        assert(present(after, e.session_id));
        assert(false);
    }
    law_import_keeps_and_covers(before, list);
}

/// A receipt keeps identifying its deletion: reapplying the ledger loses no
/// tombstone, and each keeps its id and time, also those of sessions that had to
/// be purged again, and also where a refusal ended it early.
pub proof fn law_tombstones_outlive_a_restore(
    before: StoreView,
    after: StoreView,
    list: Seq<LedgerEntry>,
    nows: Seq<int>,
    r: Result<Vec<RepurgedSession>, StoreError>,
    e: LedgerEntry,
)
    requires
        before.unique_keys(),
        reapply_step(before, after, list, nows, r),
        recorded(imported(before, list), e),
    ensures
        recorded(after, e),
{
    let st = imported(before, list);
    let work = resurrected(st);
    let n = first_refusal(st, work, nows, 0);
    lemma_first_refusal(st, work, nows, 0);
    lemma_work_list(st);
    lemma_import_keeps_keys(before, list);
    lemma_repurges(st, work, nows, n);
    if done(work, n, e.session_id) {
        let j = choose|j: int| 0 <= j < n && (#[trigger] work[j]).session_id == e.session_id;
        lemma_last_mention(st, work, nows, e, j, n);
    }
}

/// Importing keeps at most one tombstone per session.
proof fn lemma_import_keeps_keys(st: StoreView, list: Seq<LedgerEntry>)
    requires
        st.unique_keys(),
    ensures
        imported(st, list).unique_keys(),
    decreases list.len(),
{
    if list.len() > 0 {
        let part = imported(st, list.drop_last());
        lemma_import_keeps_keys(st, list.drop_last());
        let whole = imported(st, list);
        assert forall|i: int, j: int| 0 <= i < j < whole.tombstones.len() implies (
        #[trigger] whole.tombstones[i]).entry.session_id != (
        #[trigger] whole.tombstones[j]).entry.session_id by {
            assert(part.tombstones[i].entry.session_id == whole.tombstones[i].entry.session_id);
            if j < part.tombstones.len() {
                assert(part.tombstones[j].entry.session_id
                    == whole.tombstones[j].entry.session_id);
            }
        }
    }
}

/// A deletion that the work list names at `j` is recorded once `j` is done, and
/// stays so.
proof fn lemma_last_mention(
    st: StoreView,
    work: Seq<LedgerEntry>,
    nows: Seq<int>,
    e: LedgerEntry,
    j: int,
    k: int,
)
    requires
        st.unique_keys(),
        work == resurrected(st),
        recorded(st, e),
        0 <= j < k <= work.len(),
        work[j].session_id == e.session_id,
    ensures
        recorded(after_repurges(st, work, nows, k), e),
    decreases k,
{
    let before = after_repurges(st, work, nows, k - 1);
    let last = work[k - 1];
    lemma_work_list(st);
    lemma_repurge(before, last, nows[k - 1]);
    if last.session_id == e.session_id {
        // One tombstone per session, so this entry records the same deletion.
        assert(work.contains(last));
        let a = choose|a: int|
            0 <= a < entries(st.tombstones).len() && entries(st.tombstones)[a] == last;
        let b = choose|b: int|
            0 <= b < st.tombstones.len() && same_deletion(#[trigger] st.tombstones[b].entry, e);
        assert(st.tombstones[a].entry == last);
        assert(a == b) by {
            if a < b {
                assert(st.tombstones[a].entry.session_id != st.tombstones[b].entry.session_id);
            } else if b < a {
                assert(st.tombstones[b].entry.session_id != st.tombstones[a].entry.session_id);
            }
        }
        let after = after_repurges(st, work, nows, k);
        assert(recorded(after, last));
        let m = choose|m: int|
            0 <= m < after.tombstones.len() && same_deletion(
                #[trigger] after.tombstones[m].entry,
                last,
            );
        assert(same_deletion(after.tombstones[m].entry, e));
    } else {
        lemma_last_mention(st, work, nows, e, j, k - 1);
    }
}

/// Reapplying the ledger does no harm to sessions that it does not cover: their
/// rows, observations, jobs and claims are what the snapshot held.
pub proof fn law_reapply_spares_uncovered_sessions(
    before: StoreView,
    after: StoreView,
    list: Seq<LedgerEntry>,
    nows: Seq<int>,
    r: Result<Vec<RepurgedSession>, StoreError>,
    session: Seq<u8>,
)
    requires
        reapply_step(before, after, list, nows, r),
        !covered(imported(before, list), session),
    ensures
        same_session_data(before, after, session),
{
    let st = imported(before, list);
    let work = resurrected(st);
    let n = first_refusal(st, work, nows, 0);
    law_import_keeps_and_covers(before, list);
    lemma_work_list(st);
    lemma_first_refusal(st, work, nows, 0);
    lemma_repurges(st, work, nows, n);
    if done(work, n, session) {
        let j = choose|j: int| 0 <= j < n && (#[trigger] work[j]).session_id == session;
        assert(covered(st, work[j].session_id));
    }
    assert(same_session_data(st, after_repurges(st, work, nows, n), session));
}

/// No session is named twice.
spec fn names_apart(list: Seq<LedgerEntry>) -> bool {
    forall|i: int, j: int|
        0 <= i < j < list.len() ==> (#[trigger] list[i]).session_id != (
        #[trigger] list[j]).session_id
}

proof fn lemma_insert_names_apart(list: Seq<LedgerEntry>, e: LedgerEntry)
    requires
        names_apart(list),
        forall|i: int| 0 <= i < list.len() ==> (#[trigger] list[i]).session_id != e.session_id,
    ensures
        names_apart(insert_by_age(list, e)),
        forall|i: int|
            0 <= i < insert_by_age(list, e).len() ==> #[trigger] insert_by_age(list, e)[i] == e
                || list.contains(insert_by_age(list, e)[i]),
    decreases list.len(),
{
    let put = insert_by_age(list, e);
    if list.len() == 0 || list.last().purged_at >= e.purged_at {
        assert forall|i: int| 0 <= i < put.len() implies #[trigger] put[i] == e || list.contains(
            put[i],
        ) by {
            if i < list.len() {
                assert(list[i] == put[i]);
            }
        }
    } else {
        let rest = list.drop_last();
        let part = insert_by_age(rest, e);
        lemma_insert_names_apart(rest, e);
        assert forall|i: int| 0 <= i < part.len() implies (#[trigger] part[i] == e || (
        list.contains(part[i]) && part[i].session_id != list.last().session_id)) by {
            if part[i] != e {
                let k = choose|k: int| 0 <= k < rest.len() && rest[k] == part[i];
                assert(list[k] == part[i]);
                assert(list[list.len() - 1] == list.last());
            }
        }
        assert(list[list.len() - 1] == list.last());
        assert(put == part.push(list.last()));
    }
}

proof fn lemma_ordered_names_apart(list: Seq<LedgerEntry>)
    requires
        names_apart(list),
    ensures
        names_apart(newest_first(list)),
    decreases list.len(),
{
    if list.len() > 0 {
        let rest = list.drop_last();
        lemma_ordered_names_apart(rest);
        let part = newest_first(rest);
        assert forall|i: int| 0 <= i < part.len() implies (#[trigger] part[i]).session_id
            != list.last().session_id by {
            assert(part.contains(part[i]));
            lemma_newest_first_members(rest, part[i]);
            let k = choose|k: int| 0 <= k < rest.len() && rest[k] == part[i];
            assert(list[k] == part[i]);
            assert(list[list.len() - 1] == list.last());
        }
        lemma_insert_names_apart(part, list.last());
    }
}

proof fn lemma_picked_names_apart(list: Seq<LedgerEntry>, pick: spec_fn(LedgerEntry) -> bool)
    requires
        names_apart(list),
    ensures
        names_apart(list.filter(pick)),
    decreases list.len(),
{
    reveal(Seq::filter);
    if list.len() > 0 {
        let rest = list.drop_last();
        let part = rest.filter(pick);
        lemma_picked_names_apart(rest, pick);
        lemma_filter(rest, pick);
        assert forall|i: int| 0 <= i < part.len() implies (#[trigger] part[i]).session_id
            != list.last().session_id by {
            assert(part.contains(part[i]));
            let k = choose|k: int| 0 <= k < rest.len() && rest[k] == part[i];
            assert(list[k] == part[i]);
            assert(list[list.len() - 1] == list.last());
        }
    }
}

/// A session has one tombstone, so it is on the work list once.
proof fn lemma_work_names_apart(st: StoreView)
    requires
        st.unique_keys(),
    ensures
        names_apart(resurrected(st)),
{
    let all = entries(st.tombstones);
    assert forall|i: int, j: int| 0 <= i < j < all.len() implies (#[trigger] all[i]).session_id
        != (#[trigger] all[j]).session_id by {
        assert(st.tombstones[i].entry.session_id != st.tombstones[j].entry.session_id);
    }
    lemma_ordered_names_apart(all);
    lemma_picked_names_apart(ledger_of(st), comes_back(st));
}

/// A ledger is read back without a fault just where every entry can be read.
proof fn lemma_no_fault(list: Seq<LedgerEntry>)
    ensures
        first_fault(list) is None <==> forall|i: int|
            0 <= i < list.len() ==> entry_fault(#[trigger] list[i]) is None,
    decreases list.len(),
{
    if list.len() > 0 {
        let rest = list.drop_first();
        lemma_no_fault(rest);
        if first_fault(list) is None {
            assert forall|i: int| 0 <= i < list.len() implies entry_fault(
                #[trigger] list[i],
            ) is None by {
                if i > 0 {
                    assert(rest[i - 1] == list[i]);
                }
            }
        } else if entry_fault(list[0]) is None {
            let i = choose|i: int| 0 <= i < rest.len() && entry_fault(#[trigger] rest[i]) is Some;
            assert(list[i + 1] == rest[i]);
        }
    }
}

proof fn lemma_readable_ledger(st: StoreView)
    ensures
        first_fault(ledger_of(st)) is None <==> readable_ledger(st),
{
    let all = entries(st.tombstones);
    let list = ledger_of(st);
    lemma_no_fault(list);
    if readable_ledger(st) {
        assert forall|i: int| 0 <= i < list.len() implies entry_fault(#[trigger] list[i]) is None by {
            assert(list.contains(list[i]));
            lemma_newest_first_members(all, list[i]);
            let k = choose|k: int| 0 <= k < all.len() && all[k] == list[i];
            assert(entry_fault(st.tombstones[k].entry) is None);
        }
    }
    if first_fault(list) is None {
        assert forall|i: int| 0 <= i < st.tombstones.len() implies entry_fault(
            (#[trigger] st.tombstones[i]).entry,
        ) is None by {
            assert(all[i] == st.tombstones[i].entry);
            assert(all.contains(all[i]));
            lemma_newest_first_members(all, all[i]);
            let k = choose|k: int| 0 <= k < list.len() && list[k] == all[i];
            assert(entry_fault(list[k]) is None);
        }
    }
}

/// Importing entries that can be read keeps the ledger readable.
proof fn lemma_import_stays_readable(st: StoreView, list: Seq<LedgerEntry>)
    requires
        readable_ledger(st),
        forall|k: int| 0 <= k < list.len() ==> entry_fault(#[trigger] list[k]) is None,
    ensures
        readable_ledger(imported(st, list)),
    decreases list.len(),
{
    if list.len() > 0 {
        let rest = list.drop_last();
        assert forall|k: int| 0 <= k < rest.len() implies entry_fault(#[trigger] rest[k]) is None by {
            assert(rest[k] == list[k]);
        }
        lemma_import_stays_readable(st, rest);
        let part = imported(st, rest);
        let whole = imported(st, list);
        assert(list[list.len() - 1] == list.last());
        assert forall|i: int| 0 <= i < whole.tombstones.len() implies entry_fault(
            (#[trigger] whole.tombstones[i]).entry,
        ) is None by {
            if i < part.tombstones.len() {
                assert(whole.tombstones[i] == part.tombstones[i]);
            }
        }
    }
}

/// The row that a session is looked up by is the first of its rows.
proof fn lemma_first_row(rows: Seq<SessionRow>, session: Seq<u8>, from: int)
    requires
        0 <= from <= rows.len(),
    ensures
        ({
            let of = rows.skip(from).filter(sessions_of(session));
            let at = session_at(rows, session, from);
            &&& at < rows.len() <==> of.len() > 0
            &&& of.len() > 0 ==> of[0] == rows[at]
        }),
    decreases rows.len() - from,
{
    let part = rows.skip(from);
    let pick = sessions_of(session);
    if from == rows.len() {
        reveal(Seq::filter);
        assert(part == Seq::<SessionRow>::empty());
    } else {
        lemma_first_row(rows, session, from + 1);
        assert(part == seq![part[0]] + rows.skip(from + 1));
        Seq::filter_distributes_over_add(seq![part[0]], rows.skip(from + 1), pick);
        assert(seq![part[0]].filter(pick) == if pick(part[0]) {
            seq![part[0]]
        } else {
            Seq::empty()
        }) by {
            reveal(Seq::filter);
            let none = Seq::<SessionRow>::empty();
            assert(seq![part[0]].drop_last() == none);
            assert(none.filter(pick) == none);
            assert(none.push(part[0]) == seq![part[0]]);
        }
    }
}

/// Where a session's rows are the same, it lives in the same scope.
proof fn lemma_same_scope(a: StoreView, b: StoreView, session: Seq<u8>)
    requires
        same_session_data(a, b, session),
    ensures
        session_scope(a, session) == session_scope(b, session),
        present(a, session) <==> present(b, session),
{
    lemma_first_row(a.sessions, session, 0);
    lemma_first_row(b.sessions, session, 0);
    assert(a.sessions.skip(0) == a.sessions);
    assert(b.sessions.skip(0) == b.sessions);
    lemma_session_at(a.sessions, session, 0);
    lemma_session_at(b.sessions, session, 0);
    lemma_filter(a.sessions, sessions_of(session));
    lemma_filter(b.sessions, sessions_of(session));
}

/// The ids that `runs` staged are those of the proposals that name one of `runs`.
pub(crate) proof fn lemma_staged(st: StoreView, runs: Seq<Seq<u8>>, id: Seq<u8>)
    ensures
        staged_proposals(st, runs).contains(id) ==> exists|p: ProposalRow| #[trigger]
            st.proposals.contains(p) && runs.contains(p.run_id@) && p.id@ == id,
    decreases runs.len(),
{
    if runs.len() > 0 && staged_proposals(st, runs).contains(id) {
        let rest = runs.drop_last();
        let head = staged_proposals(st, rest);
        let picked = st.proposals.filter(staged_by(runs.last()));
        let tail = picked.map_values(|p: ProposalRow| p.id@);
        lemma_staged(st, rest, id);
        lemma_filter(st.proposals, staged_by(runs.last()));
        let k = choose|k: int| 0 <= k < (head + tail).len() && (head + tail)[k] == id;
        if k < head.len() {
            assert(head.contains(id));
            let p = choose|p: ProposalRow| #[trigger]
                st.proposals.contains(p) && rest.contains(p.run_id@) && p.id@ == id;
            let i = choose|i: int| 0 <= i < rest.len() && rest[i] == p.run_id@;
            assert(runs[i] == p.run_id@);
            assert(st.proposals.contains(p) && runs.contains(p.run_id@) && p.id@ == id);
        } else {
            let p = picked[k - head.len()];
            assert(picked.contains(p));
            assert(runs[runs.len() - 1] == p.run_id@);
            assert(st.proposals.contains(p) && runs.contains(p.run_id@) && p.id@ == id);
        }
    }
}

/// What `runs` staged depends on the proposals alone.
proof fn lemma_same_staged(a: StoreView, b: StoreView, runs: Seq<Seq<u8>>)
    requires
        a.proposals == b.proposals,
    ensures
        staged_proposals(a, runs) == staged_proposals(b, runs),
    decreases runs.len(),
{
    if runs.len() > 0 {
        lemma_same_staged(a, b, runs.drop_last());
    }
}

/// Purging one session leaves no proposal of another that was not there before.
proof fn lemma_proposals_shrink(
    st: StoreView,
    e: LedgerEntry,
    now: int,
    session: Seq<u8>,
    id: Seq<u8>,
)
    requires
        derived_proposals(repurged(st, e, now), session).contains(id),
    ensures
        derived_proposals(st, session).contains(id),
{
    let after = repurged(st, e, now);
    let runs = derived_runs(st, session);
    let left = derived_runs(after, session);
    lemma_filter(st.runs, keep_run(derived_runs(st, e.session_id)));
    lemma_filter(after.runs, run_of(session));
    lemma_filter(st.proposals, keep_proposal(derived_proposals(st, e.session_id)));
    lemma_staged(after, left, id);
    let p = choose|p: ProposalRow| #[trigger]
        after.proposals.contains(p) && left.contains(p.run_id@) && p.id@ == id;
    let i = choose|i: int| 0 <= i < left.len() && left[i] == p.run_id@;
    let run = after.runs.filter(run_of(session))[i];
    assert(after.runs.filter(run_of(session)).contains(run));
    assert(st.runs.contains(run));
    lemma_run_collected(st, session, run);
    lemma_proposal_collected(st, runs, p);
}

/// Purging one session leaves no path derived from another that was not there before.
proof fn lemma_paths_shrink(
    st: StoreView,
    e: LedgerEntry,
    now: int,
    workspace: Seq<u8>,
    project: Seq<u8>,
    session: Seq<u8>,
    path: Seq<char>,
)
    requires
        path_derived(repurged(st, e, now), workspace, project, session, path),
    ensures
        path_derived(st, workspace, project, session, path),
{
    let after = repurged(st, e, now);
    let keep = keep_page(st, e.workspace_id, e.project_id, e.session_id);
    lemma_filter(st.pages, keep);
    lemma_filter(st.proposals, keep_proposal(derived_proposals(st, e.session_id)));
    let i = choose|i: int|
        0 <= i < after.pages.len() && (#[trigger] after.pages[i]).path@ == path && page_derived(
            after,
            workspace,
            project,
            session,
            after.pages[i],
        );
    let page = after.pages[i];
    assert(st.pages.contains(page));
    let k = choose|k: int| 0 <= k < st.pages.len() && st.pages[k] == page;
    let left = derived_proposals(after, session);
    if applied_from(after, page, left) {
        let j = choose|j: int|
            0 <= j < after.proposals.len() && left.contains((#[trigger] after.proposals[j]).id@)
                && links_to(after.proposals[j].applied_page_id, page.id@);
        let p = after.proposals[j];
        lemma_proposals_shrink(st, e, now, session, p.id@);
        assert(st.proposals.contains(p));
        let m = choose|m: int| 0 <= m < st.proposals.len() && st.proposals[m] == p;
        assert(derived_proposals(st, session).contains(st.proposals[m].id@));
        assert(applied_from(st, page, derived_proposals(st, session)));
    }
    assert(st.pages[k].path@ == path);
}

/// A session that could be purged again at the outset can be purged again once
/// others have been.
proof fn lemma_stays_repurgeable(
    st: StoreView,
    work: Seq<LedgerEntry>,
    nows: Seq<int>,
    k: int,
    e: LedgerEntry,
    now: int,
)
    requires
        0 <= k <= work.len(),
        forall|j: int| 0 <= j < k ==> (#[trigger] work[j]).session_id != e.session_id,
        repurge_fault(st, e, now) is None,
    ensures
        repurge_fault(after_repurges(st, work, nows, k), e, now) is None,
    decreases k,
{
    if k > 0 {
        let before = after_repurges(st, work, nows, k - 1);
        lemma_stays_repurgeable(st, work, nows, k - 1, e, now);
        lemma_repurge(before, work[k - 1], nows[k - 1]);
        assert(work[k - 1].session_id != e.session_id);
        let after = after_repurges(st, work, nows, k);
        assert(same_session_data(before, after, e.session_id));
        lemma_same_scope(before, after, e.session_id);
        let ids = derived_proposals(before, e.session_id);
        let left = derived_proposals(after, e.session_id);
        assert forall|i: int| 0 <= i < left.len() implies (#[trigger] left[i]).len() == 16 by {
            assert(left.contains(left[i]));
            lemma_proposals_shrink(before, work[k - 1], nows[k - 1], e.session_id, left[i]);
            let j = choose|j: int| 0 <= j < ids.len() && ids[j] == left[i];
            assert(ids[j].len() == 16);
        }
        assert forall|p: Seq<char>| !#[trigger]
            refused_path(after, e.workspace_id, e.project_id, e.session_id, p) by {
            if refused_path(after, e.workspace_id, e.project_id, e.session_id, p) {
                lemma_paths_shrink(
                    before,
                    work[k - 1],
                    nows[k - 1],
                    e.workspace_id,
                    e.project_id,
                    e.session_id,
                    p,
                );
                assert(refused_path(before, e.workspace_id, e.project_id, e.session_id, p));
            }
        }
    }
}

/// What a session's removal takes does not depend on the ledger.
proof fn lemma_ledger_is_not_read(
    a: StoreView,
    b: StoreView,
    workspace: Seq<u8>,
    project: Seq<u8>,
    session: Seq<u8>,
)
    requires
        b == (StoreView { tombstones: b.tombstones, ..a }),
    ensures
        without_session(b, workspace, project, session) == (StoreView {
            tombstones: b.tombstones,
            ..without_session(a, workspace, project, session)
        }),
        forall|paths: Seq<Seq<char>>| #[trigger]
            lists_derived_paths(b, workspace, project, session, paths) ==> lists_derived_paths(
                a,
                workspace,
                project,
                session,
                paths,
            ),
        page_path_fault(a, workspace, project, session) is None ==> page_path_fault(
            b,
            workspace,
            project,
            session,
        ) is None,
{
    lemma_same_staged(a, b, derived_runs(a, session));
    let ids = derived_proposals(a, session);
    assert(derived_proposals(b, session) == ids);
    assert forall|p: PageRow| #[trigger] applied_from(a, p, ids) == applied_from(b, p, ids) by {
        if applied_from(a, p, ids) {
            let j = choose|j: int|
                0 <= j < a.proposals.len() && ids.contains((#[trigger] a.proposals[j]).id@)
                    && links_to(a.proposals[j].applied_page_id, p.id@);
            assert(ids.contains(b.proposals[j].id@));
        }
        if applied_from(b, p, ids) {
            let j = choose|j: int|
                0 <= j < b.proposals.len() && ids.contains((#[trigger] b.proposals[j]).id@)
                    && links_to(b.proposals[j].applied_page_id, p.id@);
            assert(ids.contains(a.proposals[j].id@));
        }
    }
    assert forall|path: Seq<char>| #[trigger]
        path_derived(a, workspace, project, session, path) == path_derived(
            b,
            workspace,
            project,
            session,
            path,
        ) by {
        assert forall|i: int| 0 <= i < a.pages.len() implies page_derived(
            a,
            workspace,
            project,
            session,
            #[trigger] a.pages[i],
        ) == page_derived(b, workspace, project, session, b.pages[i]) by {
            assert(applied_from(a, a.pages[i], ids) == applied_from(b, a.pages[i], ids));
        }
        if path_derived(a, workspace, project, session, path) {
            let i = choose|i: int|
                0 <= i < a.pages.len() && (#[trigger] a.pages[i]).path@ == path && page_derived(
                    a,
                    workspace,
                    project,
                    session,
                    a.pages[i],
                );
            assert(b.pages[i].path@ == path);
        }
        if path_derived(b, workspace, project, session, path) {
            let i = choose|i: int|
                0 <= i < b.pages.len() && (#[trigger] b.pages[i]).path@ == path && page_derived(
                    b,
                    workspace,
                    project,
                    session,
                    b.pages[i],
                );
            assert(a.pages[i].path@ == path);
        }
    }
    assert forall|p: Seq<char>| #[trigger]
        refused_path(b, workspace, project, session, p) implies refused_path(
        a,
        workspace,
        project,
        session,
        p,
    ) by {
        assert(path_derived(a, workspace, project, session, p) == path_derived(
            b,
            workspace,
            project,
            session,
            p,
        ));
    }
    assert(keep_page(a, workspace, project, session) =~= keep_page(
        b,
        workspace,
        project,
        session,
    ));
}

/// Reapplying a ledger succeeds where each session that came back lives in the
/// scope that its tombstone names, the pages and proposals derived from it have
/// well-formed paths and ids, and the clock can be read. It answers with exactly those sessions.
pub proof fn law_reapply_succeeds(
    before: StoreView,
    after: StoreView,
    list: Seq<LedgerEntry>,
    nows: Seq<int>,
    r: Result<Vec<RepurgedSession>, StoreError>,
)
    requires
        before.unique_keys(),
        readable_ledger(before),
        forall|k: int| 0 <= k < list.len() ==> entry_fault(#[trigger] list[k]) is None,
        forall|e: LedgerEntry| #[trigger]
            resurrected(imported(before, list)).contains(e) ==> session_scope(
                before,
                e.session_id,
            ) == Some((e.workspace_id, e.project_id)) && page_path_fault(
                before,
                e.workspace_id,
                e.project_id,
                e.session_id,
            ) is None && well_formed_ids(derived_proposals(before, e.session_id)),
        nows.len() >= readings_needed(before, list),
        forall|k: int| 0 <= k < nows.len() ==> readable_instant(#[trigger] nows[k]),
        reapply_step(before, after, list, nows, r),
    ensures
        r matches Ok(out) && {
            let work = resurrected(imported(before, list));
            &&& out@.len() == work.len()
            &&& forall|j: int|
                0 <= j < work.len() ==> (#[trigger] out@[j]).session_id@ == work[j].session_id
        },
{
    let st = imported(before, list);
    let work = resurrected(st);
    law_import_keeps_and_covers(before, list);
    lemma_import_stays_readable(before, list);
    lemma_readable_ledger(st);
    lemma_import_keeps_keys(before, list);
    lemma_work_names_apart(st);
    let k = first_refusal(st, work, nows, 0);
    lemma_first_refusal(st, work, nows, 0);
    if k < work.len() {
        assert(work.contains(work[k]));
        assert(readable_instant(nows[k]));
        lemma_same_staged(before, st, derived_runs(st, work[k].session_id));
        lemma_ledger_is_not_read(
            before,
            st,
            work[k].workspace_id,
            work[k].project_id,
            work[k].session_id,
        );
        assert(repurge_fault(st, work[k], nows[k]) is None);
        lemma_stays_repurgeable(st, work, nows, k, work[k], nows[k]);
    }
    if let Ok(out) = r {
        assert forall|j: int| 0 <= j < work.len() implies (#[trigger] out@[j]).session_id@
            == work[j].session_id by {
            assert(out@[j].reports(after_repurges(st, work, nows, j), work[j]));
        }
    }
}

/// A restore that was refused is not taken for a safe one: the ledger cannot be
/// read, or the last check counts a session that came back.
pub proof fn law_a_refused_restore_is_not_safe(
    before: StoreView,
    after: StoreView,
    list: Seq<LedgerEntry>,
    nows: Seq<int>,
    r: Result<Vec<RepurgedSession>, StoreError>,
)
    requires
        before.unique_keys(),
        reapply_step(before, after, list, nows, r),
        r is Err,
    ensures
        first_fault(ledger_of(after)) is Some || resurrected(after).len() > 0,
{
    let st = imported(before, list);
    let work = resurrected(st);
    if first_fault(ledger_of(st)) is None {
        lemma_import_keeps_keys(before, list);
        lemma_work_names_apart(st);
        lemma_work_list(st);
        let k = first_refusal(st, work, nows, 0);
        lemma_first_refusal(st, work, nows, 0);
        lemma_repurges(st, work, nows, k);
        let s = work[k].session_id;
        if done(work, k, s) {
            let j = choose|j: int| 0 <= j < k && (#[trigger] work[j]).session_id == s;
            assert(work[j].session_id != work[k].session_id);
        }
        assert(work.contains(work[k]));
        assert(present(st, s));
        assert(same_session_data(st, after, s));
        lemma_same_scope(st, after, s);
        assert(covered(after, s));
        let i = choose|i: int|
            0 <= i < after.tombstones.len() && (#[trigger] after.tombstones[i]).entry.session_id
                == s;
        lemma_work_list(after);
        assert(entries(after.tombstones)[i] == after.tombstones[i].entry);
        assert(resurrected(after).contains(after.tombstones[i].entry));
    }
}

/// Reapplying a ledger once more purges nothing and changes nothing, whatever the
/// clock reads.
pub proof fn law_reapply_is_idempotent(
    before: StoreView,
    once: StoreView,
    twice: StoreView,
    list: Seq<LedgerEntry>,
    nows: Seq<int>,
    r: Result<Vec<RepurgedSession>, StoreError>,
    later: Seq<int>,
    again: Result<Vec<RepurgedSession>, StoreError>,
)
    requires
        reapply_step(before, once, list, nows, r),
        r is Ok,
        reapply_step(once, twice, list, later, again),
    ensures
        again matches Ok(out) && out@.len() == 0,
        twice == once,
{
    let st = imported(before, list);
    let work = resurrected(st);
    let n = work.len() as int;
    law_nothing_stays_resurrected(before, once, list, nows, r);
    law_import_keeps_and_covers(before, list);
    lemma_work_list(st);
    lemma_first_refusal(st, work, nows, 0);
    lemma_repurges(st, work, nows, n);
    assert forall|k: int| 0 <= k < list.len() implies covered(
        once,
        (#[trigger] list[k]).session_id,
    ) by {
        assert(covered(st, list[k].session_id));
    }
    lemma_nothing_left_to_import(once, list);
    lemma_readable_ledger(st);
    lemma_repurges_stay_readable(st, nows, n);
    lemma_readable_ledger(once);
}

proof fn lemma_repurges_stay_readable(st: StoreView, nows: Seq<int>, k: int)
    requires
        readable_ledger(st),
        0 <= k <= resurrected(st).len(),
    ensures
        readable_ledger(after_repurges(st, resurrected(st), nows, k)),
    decreases k,
{
    if k > 0 {
        let work = resurrected(st);
        let e = work[k - 1];
        lemma_repurges_stay_readable(st, nows, k - 1);
        lemma_repurge(after_repurges(st, work, nows, k - 1), e, nows[k - 1]);
        lemma_work_list(st);
        assert(work.contains(e));
        let i = choose|i: int|
            0 <= i < entries(st.tombstones).len() && entries(st.tombstones)[i] == e;
        assert(entry_fault(st.tombstones[i].entry) is None);
    }
}

/// Importing a list of which only `e` is new takes over `e` alone.
proof fn lemma_import_one(st: StoreView, list: Seq<LedgerEntry>, e: LedgerEntry)
    requires
        !covered(st, e.session_id),
        forall|k: int|
            0 <= k < list.len() ==> #[trigger] list[k] == e || covered(st, list[k].session_id),
    ensures
        imported(st, list) == if list.contains(e) {
            with_imported(st, e)
        } else {
            st
        },
    decreases list.len(),
{
    if list.len() > 0 {
        let rest = list.drop_last();
        assert forall|k: int| 0 <= k < rest.len() implies #[trigger] rest[k] == e || covered(
            st,
            rest[k].session_id,
        ) by {
            assert(rest[k] == list[k]);
        }
        lemma_import_one(st, rest, e);
        assert(list[list.len() - 1] == list.last());
        let part = imported(st, rest);
        if rest.contains(e) {
            let i = choose|i: int| 0 <= i < rest.len() && rest[i] == e;
            assert(list[i] == e);
            assert(part.tombstones[st.tombstones.len() as int].entry == e);
            assert(covered(part, e.session_id));
        } else if list.contains(e) {
            let i = choose|i: int| 0 <= i < list.len() && list[i] == e;
            if i < rest.len() {
                assert(rest[i] == e);
            }
        }
        let last = list.last();
        if last != e {
            let i = choose|i: int|
                0 <= i < st.tombstones.len() && (#[trigger] st.tombstones[i]).entry.session_id
                    == last.session_id;
            assert(part.tombstones[i] == st.tombstones[i]);
            assert(covered(part, last.session_id));
        }
    }
}

/// Restoring a snapshot taken before a purge, with the ledger that the purge left,
/// succeeds whenever the clock can be read, whatever was purged earlier. Exactly
/// the purged session is purged again, and the answer names the pages derived from
/// it. What is served afterwards is what purging the session leaves, and the ledger
/// reads as it did before the restore, with the id and time of the purge.
pub proof fn law_a_snapshot_cannot_undo_a_purge(
    st: StoreView,
    workspace: Seq<u8>,
    project: Seq<u8>,
    session: Seq<u8>,
    now: int,
    tombstone_id: Seq<u8>,
    after: StoreView,
    nows: Seq<int>,
    r: Result<Vec<RepurgedSession>, StoreError>,
)
    requires
        workspace.len() == 16,
        project.len() == 16,
        session.len() == 16,
        tombstone_id.len() == 16,
        st.unique_keys(),
        readable_ledger(st),
        resurrected(st).len() == 0,
        purge_fault(st, workspace, project, session, now) is None,
        tombstone_of(st, session) is None,
        reapply_step(
            st,
            after,
            ledger_of(purged(st, workspace, project, session, now, tombstone_id)),
            nows,
            r,
        ),
        nows.len() > 0,
        forall|k: int| 0 <= k < nows.len() ==> readable_instant(#[trigger] nows[k]),
    ensures
        ({
            let cut = purged(st, workspace, project, session, now, tombstone_id);
            let again = purged(st, workspace, project, session, nows[0], tombstone_id);
            &&& r matches Ok(out) && out@.len() == 1 && out@[0].reports(
                st,
                cut.tombstones.last().entry,
            )
            &&& after == (StoreView { tombstones: after.tombstones, ..again })
            &&& ledger_of(after) == ledger_of(cut)
            &&& !present(after, session)
            &&& resurrected(after).len() == 0
            &&& tombstone_of(after, session) == Some(cut.tombstones.last().entry)
        }),
{
    let cut = purged(st, workspace, project, session, now, tombstone_id);
    let n = st.tombstones.len() as int;
    let e = cut.tombstones[n].entry;
    let all = entries(cut.tombstones);
    let list = ledger_of(cut);
    let restored = imported(st, list);
    let work = resurrected(restored);
    lemma_not_covered(st, session);
    assert(all[n] == e);
    assert(all.contains(e));
    lemma_newest_first_members(all, e);
    assert forall|k: int| 0 <= k < list.len() implies #[trigger] list[k] == e || covered(
        st,
        list[k].session_id,
    ) by {
        assert(list.contains(list[k]));
        lemma_newest_first_members(all, list[k]);
        let i = choose|i: int| 0 <= i < all.len() && all[i] == list[k];
        if i < n {
            assert(st.tombstones[i].entry == list[k]);
        }
    }
    lemma_import_one(st, list, e);
    assert(restored == with_imported(st, e));
    assert forall|k: int| 0 <= k < list.len() implies entry_fault(#[trigger] list[k]) is None by {
        assert(list.contains(list[k]));
        lemma_newest_first_members(all, list[k]);
        let i = choose|i: int| 0 <= i < all.len() && all[i] == list[k];
        if i < n {
            assert(entry_fault(st.tombstones[i].entry) is None);
        }
    }
    // The work list is the purged session, once.
    lemma_work_list(st);
    lemma_work_list(restored);
    lemma_import_keeps_keys(st, list);
    lemma_work_names_apart(restored);
    assert forall|d: LedgerEntry| #[trigger] work.contains(d) implies d == e by {
        let them = entries(restored.tombstones);
        let i = choose|i: int| 0 <= i < them.len() && them[i] == d;
        if i < n {
            assert(entries(st.tombstones)[i] == d);
            assert(present(st, d.session_id)) by {
                let k = choose|k: int|
                    0 <= k < restored.sessions.len() && (#[trigger] restored.sessions[k]).id@
                        == d.session_id;
                assert(st.sessions[k].id@ == d.session_id);
            }
            assert(resurrected(st).contains(d));
        }
    }
    lemma_session_at(st.sessions, session, 0);
    let at = session_at(st.sessions, session, 0);
    assert(restored.sessions[at].id@ == session);
    assert(present(restored, session));
    assert(entries(restored.tombstones)[n] == e);
    assert(work.contains(e));
    assert(work.len() == 1) by {
        if work.len() > 1 {
            assert(work.contains(work[0]));
            assert(work.contains(work[1]));
            assert(work[0].session_id != work[1].session_id);
        }
    }
    assert(work[0] == e) by {
        assert(work.contains(work[0]));
    }
    law_reapply_succeeds(st, after, list, nows, r);
    law_nothing_stays_resurrected(st, after, list, nows, r);
    let k = choose|k: int| 0 <= k < list.len() && list[k] == e;
    assert(!present(after, list[k].session_id));
    lemma_first_refusal(restored, work, nows, 0);
    assert(after == repurged(restored, e, nows[0])) by {
        assert(after_repurges(restored, work, nows, 0) == restored);
        assert(after == after_repurges(restored, work, nows, 1));
    }
    lemma_ledger_is_not_read(st, restored, workspace, project, session);
    let out = r->Ok_0;
    assert(out@[0].reports(restored, e));
    let paths = choose|paths: Seq<Seq<char>>| #[trigger]
        lists_derived_paths(restored, workspace, project, session, paths) && texts(
            out@[0].repo_paths@,
        ) == repo_paths_of(workspace, project, paths);
    assert(lists_derived_paths(st, workspace, project, session, paths));
    assert(out@[0].reports(st, e));
    // Dropping the imported row leaves the rows that the snapshot had.
    let stays = keep_tombstone(session);
    assert(restored.tombstones.filter(stays) == st.tombstones) by {
        reveal(Seq::filter);
        assert(restored.tombstones.drop_last() == st.tombstones);
        assert forall|i: int| 0 <= i < st.tombstones.len() implies stays(
            #[trigger] st.tombstones[i],
        ) by {
            assert(st.tombstones[i].entry.session_id != session);
        }
        lemma_filter_all(st.tombstones, stays);
    }
    assert(entries(after.tombstones) == all);
    lemma_found_by(after.tombstones, session, 0, n);
    let at = tombstone_at(after.tombstones, session, 0);
    if at < n {
        assert(after.tombstones[at] == st.tombstones[at]);
    }
}

/// A session whose tombstone is not found is not covered.
proof fn lemma_not_covered(st: StoreView, session: Seq<u8>)
    requires
        tombstone_of(st, session) is None,
    ensures
        !covered(st, session),
{
    if covered(st, session) {
        let i = choose|i: int|
            0 <= i < st.tombstones.len() && (#[trigger] st.tombstones[i]).entry.session_id
                == session;
        lemma_found_by(st.tombstones, session, 0, i);
    }
}

proof fn lemma_found_by(rows: Seq<TombstoneView>, session: Seq<u8>, from: int, i: int)
    requires
        0 <= from <= i < rows.len(),
        rows[i].entry.session_id == session,
    ensures
        from <= tombstone_at(rows, session, from) <= i,
        rows[tombstone_at(rows, session, from)].entry.session_id == session,
    decreases i - from,
{
    if rows[from].entry.session_id != session {
        lemma_found_by(rows, session, from + 1, i);
    }
}

} // verus!
