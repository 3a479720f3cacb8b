//! What each operation on the database does, said of its arguments and its result alone.

use vstd::prelude::*;

use crate::clock::{now_microsecond, range_error_text, shown_by_the_clock};
use crate::error::StoreError;
use crate::ids::{drawn_at_random, ProjectId, SessionId, Uuid, WorkspaceId};
use crate::ledger::{
    all_clock_readings, all_tombstones, count_resurrected, first_fault, first_refusal,
    import_tombstones, imported, ledger, ledger_of, lemma_first_refusal, numbers,
    read_ledger_from_db, read_off_the_clock, readings_needed, readings_taken, reapply_ledger,
    reapply_ledger_at, reapply_step, repurge_step, repurge_tombstoned_session,
    repurge_tombstoned_session_at, repurged, resurrected, resurrected_sessions, RepurgedSession,
};
use crate::ledger_rows::{
    ends_with, has_row, is_new, law_import_by_the_rows, law_one_bad_entry_spoils_the_ledger,
    law_reapply_goes_step_by_step, law_the_ledger_is_every_row,
    law_the_ledger_keeps_the_rows_of_one_instant, law_what_came_back_by_the_rows, leads_through,
};
use crate::purge_rows::{
    answered_by, decided_by_rows, law_a_tombstone_decides, law_busy_by_the_rows,
    law_purge_by_the_rows, law_purge_is_refused_for_cause, law_purge_receipt_by_the_rows,
    law_readable_tombstones, law_repurge_by_the_rows, law_the_first_tombstone_is_found,
    leaves_by_rows, lemma_repurged_by_rows, reports_rows,
};
use crate::session_purge::{
    entry_fault, find_session_tombstone, is_session_purged, purge_session, purge_session_at,
    purge_step, session_purge_is_busy, SessionPurgeReceipt, SessionTombstone,
};
use crate::store::{LedgerEntry, Store, StoreView, TombstoneRow, TombstoneView};

verus! {

/// Ingest is refused exactly where some tombstone row holds the three ids, whatever else it
/// holds.
pub proof fn law_is_session_purged(
    store: &Store,
    workspace_id: WorkspaceId,
    project_id: ProjectId,
    session_id: SessionId,
    r: Result<bool, StoreError>,
)
    requires
        call_ensures(is_session_purged, (store, workspace_id, project_id, session_id), r),
    ensures
        r is Ok,
        r->Ok_0 <==> exists|i: int|
            0 <= i < store.tombstones@.len() && (#[trigger] store.tombstones@[i]).session_id@
                == session_id.bytes@ && store.tombstones@[i].workspace_id@ == workspace_id.bytes@
                && store.tombstones@[i].project_id@ == project_id.bytes@,
{
    if exists|i: int|
        0 <= i < store.tombstones@.len() && (#[trigger] store.tombstones@[i]).session_id@
            == session_id.bytes@ && store.tombstones@[i].workspace_id@ == workspace_id.bytes@
            && store.tombstones@[i].project_id@ == project_id.bytes@ {
        let i = choose|i: int|
            0 <= i < store.tombstones@.len() && (#[trigger] store.tombstones@[i]).session_id@
                == session_id.bytes@ && store.tombstones@[i].workspace_id@ == workspace_id.bytes@
                && store.tombstones@[i].project_id@ == project_id.bytes@;
        assert(store@.tombstones[i].entry.session_id == session_id@);
    }
}

/// The row holds identifiers of sixteen bytes and an instant in range.
pub open spec fn reads(row: TombstoneRow) -> bool {
    row.session_id@.len() == 16 && row.workspace_id@.len() == 16 && row.project_id@.len() == 16
        && row.tombstone_id@.len() == 16 && -377705023201000000 <= row.purged_at
        <= 253402207200000000
}

/// The tombstone holds what the row does.
pub open spec fn copies(t: SessionTombstone, row: TombstoneRow) -> bool {
    t.session_id.bytes@ == row.session_id@ && t.workspace_id.bytes@ == row.workspace_id@
        && t.project_id.bytes@ == row.project_id@ && t.tombstone_id.bytes@ == row.tombstone_id@
        && t.schema_version == row.schema_version && t.purged_at.microsecond == row.purged_at
}

/// The error says what is wrong with the row: a scope or session id before a receipt id,
/// and that before the time.
pub open spec fn blames(e: StoreError, row: TombstoneRow) -> bool {
    if row.session_id@.len() != 16 || row.workspace_id@.len() != 16 || row.project_id@.len()
        != 16 {
        e is InvalidId
    } else if row.tombstone_id@.len() != 16 {
        e matches StoreError::InvalidState(m) && m@ == "malformed uuid blob"@
    } else {
        e matches StoreError::InvalidState(m) && m@ == "tombstone timestamp: "@
            + range_error_text()
    }
}

/// The tombstone of a session is the first row that names it, read; there is none where no
/// row does; and a row that cannot be read is an error.
pub proof fn law_find_session_tombstone(
    store: &Store,
    session_id: SessionId,
    r: Result<Option<SessionTombstone>, StoreError>,
)
    requires
        call_ensures(find_session_tombstone, (store, session_id), r),
    ensures
        (forall|i: int|
            0 <= i < store.tombstones@.len() ==> (#[trigger] store.tombstones@[i]).session_id@
                != session_id.bytes@) ==> (r matches Ok(None)),
        forall|i: int|
            0 <= i < store.tombstones@.len() && (#[trigger] store.tombstones@[i]).session_id@
                == session_id.bytes@ && (forall|j: int|
                0 <= j < i ==> (#[trigger] store.tombstones@[j]).session_id@ != session_id.bytes@)
                ==> if reads(store.tombstones@[i]) {
                r matches Ok(Some(t)) && copies(t, store.tombstones@[i])
            } else {
                r matches Err(e) && blames(e, store.tombstones@[i])
            },
{
    law_the_first_tombstone_is_found(store@, session_id@);
    if forall|i: int|
        0 <= i < store.tombstones@.len() ==> (#[trigger] store.tombstones@[i]).session_id@
            != session_id.bytes@ {
        assert forall|i: int| 0 <= i < store@.tombstones.len() implies (
        #[trigger] store@.tombstones[i]).entry.session_id != session_id@ by {
            assert(store@.tombstones[i] == store.tombstones@[i]@);
        }
    }
    assert forall|i: int|
        0 <= i < store.tombstones@.len() && (#[trigger] store.tombstones@[i]).session_id@
            == session_id.bytes@ && (forall|j: int|
            0 <= j < i ==> (#[trigger] store.tombstones@[j]).session_id@
                != session_id.bytes@) implies if reads(store.tombstones@[i]) {
        r matches Ok(Some(t)) && copies(t, store.tombstones@[i])
    } else {
        r matches Err(e) && blames(e, store.tombstones@[i])
    } by {
        assert(store@.tombstones[i] == store.tombstones@[i]@);
        assert forall|j: int| 0 <= j < i implies (#[trigger] store@.tombstones[j]).entry.session_id
            != session_id@ by {
            assert(store@.tombstones[j] == store.tombstones@[j]@);
        }
        assert(store@.tombstones[i].entry.session_id == session_id@);
        law_readable_tombstones(store@.tombstones[i].entry);
    }
}

/// A purge is held up by an open session, else by a job that is queued or running, else by
/// a claim, and by nothing else.
pub proof fn law_session_purge_is_busy(
    store: &Store,
    session_id: SessionId,
    r: Result<Option<String>, StoreError>,
)
    requires
        call_ensures(session_purge_is_busy, (store, session_id), r),
    ensures
        r is Ok,
        ({
            let open = exists|i: int|
                0 <= i < store.sessions@.len() && (#[trigger] store.sessions@[i]).id@
                    == session_id.bytes@ && store.sessions@[i].ended_at is None;
            let queued = exists|i: int|
                0 <= i < store.jobs@.len() && (#[trigger] store.jobs@[i]).session_id@
                    == session_id.bytes@ && (store.jobs@[i].state@ == "pending"@
                    || store.jobs@[i].state@ == "running"@);
            let held = exists|i: int|
                0 <= i < store.claims@.len() && (#[trigger] store.claims@[i]).session_id@
                    == session_id.bytes@;
            match r->Ok_0 {
                Some(why) => if open {
                    why@ == "session is still open"@
                } else if queued {
                    why@ == "a consolidation job is queued or running"@
                } else {
                    held && why@ == "an auto-improvement claim is outstanding"@
                },
                None => !open && !queued && !held,
            }
        }),
{
    law_busy_by_the_rows(store@, session_id@);
}

/// What a purge does to the database and answers, at a given instant and under a given id.
///
/// Where a tombstone row names the session, the first one answers and nothing changes.
/// Else the rows decide: a refusal names its cause and changes nothing; a purge that is
/// carried out leaves the rows that the columns do not say go, adds the tombstone and the
/// audit record, and reports what went.
pub proof fn law_purge_session_at(
    store: &mut Store,
    workspace_id: WorkspaceId,
    project_id: ProjectId,
    session_id: SessionId,
    now: i64,
    tombstone_id: Uuid,
    r: Result<SessionPurgeReceipt, StoreError>,
)
    requires
        call_ensures(
            purge_session_at,
            (store, workspace_id, project_id, session_id, now, tombstone_id),
            r,
        ),
    ensures
        purge_does(
            old(store)@,
            final(store)@,
            workspace_id.bytes@,
            project_id.bytes@,
            session_id.bytes@,
            now as int,
            tombstone_id.bytes@,
            r,
        ),
{
    lemma_purge_does(
        old(store)@,
        final(store)@,
        workspace_id@,
        project_id@,
        session_id@,
        now as int,
        tombstone_id@,
        r,
    );
}

/// What a purge does to the database `st` and answers.
pub open spec fn purge_does(
    st: StoreView,
    after: StoreView,
    workspace: Seq<u8>,
    project: Seq<u8>,
    session: Seq<u8>,
    now: int,
    tombstone_id: Seq<u8>,
    r: Result<SessionPurgeReceipt, StoreError>,
) -> bool {
    &&& forall|i: int|
        0 <= i < st.tombstones.len() && (#[trigger] st.tombstones[i]).entry.session_id == session
            && (forall|j: int|
            0 <= j < i ==> (#[trigger] st.tombstones[j]).entry.session_id != session) ==> after
            == st && answered_by(st.tombstones[i].entry, workspace, project, session, r)
    &&& (forall|i: int|
        0 <= i < st.tombstones.len() ==> (#[trigger] st.tombstones[i]).entry.session_id
            != session) ==> {
        &&& decided_by_rows(st, workspace, project, session, now, r)
        &&& r is Err ==> after == st
        &&& r matches Ok(receipt) ==> {
            &&& leaves_by_rows(st, after, workspace, project, session, now)
            &&& after.tombstones == st.tombstones.push(
                TombstoneView {
                    entry: LedgerEntry {
                        session_id: session,
                        workspace_id: workspace,
                        project_id: project,
                        tombstone_id,
                        schema_version: 1,
                        purged_at: now,
                    },
                    audit_id: Some(st.audits.len() as int),
                },
            )
            &&& receipt.status is Purged
            &&& receipt.tombstone_id.bytes@ == tombstone_id
            &&& receipt.purged_at.microsecond == now
            &&& receipt.backup_cutoff.microsecond == now
            &&& reports_rows(st, after, workspace, project, session, receipt)
        }
    }
}

proof fn lemma_purge_does(
    st: StoreView,
    after: StoreView,
    workspace: Seq<u8>,
    project: Seq<u8>,
    session: Seq<u8>,
    now: int,
    tombstone_id: Seq<u8>,
    r: Result<SessionPurgeReceipt, StoreError>,
)
    requires
        purge_step(st, after, workspace, project, session, now, tombstone_id, r),
    ensures
        purge_does(st, after, workspace, project, session, now, tombstone_id, r),
{
    assert forall|i: int|
        0 <= i < st.tombstones.len() && (#[trigger] st.tombstones[i]).entry.session_id == session
            && (forall|j: int|
            0 <= j < i ==> (#[trigger] st.tombstones[j]).entry.session_id != session) implies after
        == st && answered_by(st.tombstones[i].entry, workspace, project, session, r) by {
        law_a_tombstone_decides(
            st,
            after,
            workspace,
            project,
            session,
            now,
            tombstone_id,
            r,
            i,
        );
    }
    if forall|i: int|
        0 <= i < st.tombstones.len() ==> (#[trigger] st.tombstones[i]).entry.session_id
            != session {
        law_purge_is_refused_for_cause(
            st,
            after,
            workspace,
            project,
            session,
            now,
            tombstone_id,
            r,
        );
        if let Ok(receipt) = r {
            law_purge_by_the_rows(st, after, workspace, project, session, now, tombstone_id, r);
            law_purge_receipt_by_the_rows(
                st,
                after,
                workspace,
                project,
                session,
                now,
                tombstone_id,
                receipt,
            );
        }
    }
}

/// A purge now does what one at a given instant and under a given id does, for an instant
/// read off the clock and an id drawn at random.
pub proof fn law_purge_session(
    store: &mut Store,
    workspace_id: WorkspaceId,
    project_id: ProjectId,
    session_id: SessionId,
    r: Result<SessionPurgeReceipt, StoreError>,
)
    requires
        call_ensures(purge_session, (store, workspace_id, project_id, session_id), r),
    ensures
        exists|now: i64, tombstone_id: Uuid|
            shown_by_the_clock(now) && drawn_at_random(tombstone_id.bytes)
                && #[trigger] purge_does(
                old(store)@,
                final(store)@,
                workspace_id.bytes@,
                project_id.bytes@,
                session_id.bytes@,
                now as int,
                tombstone_id.bytes@,
                r,
            ),
{
    let (now, tombstone_id) = choose|now: i64, tombstone_id: Uuid|
        call_ensures(now_microsecond, (), now) && call_ensures(Uuid::new_v4, (), tombstone_id)
            && #[trigger] purge_step(
            old(store)@,
            final(store)@,
            workspace_id@,
            project_id@,
            session_id@,
            now as int,
            tombstone_id@,
            r,
        );
    lemma_purge_does(
        old(store)@,
        final(store)@,
        workspace_id@,
        project_id@,
        session_id@,
        now as int,
        tombstone_id@,
        r,
    );
}

/// The entries of the tombstone rows.
spec fn row_entries(store: Store) -> Seq<LedgerEntry> {
    store.tombstones@.map_values(|row: TombstoneRow| row@.entry)
}

proof fn lemma_row_entries(store: Store)
    ensures
        row_entries(store) == store@.tombstones.map_values(|t: TombstoneView| t.entry),
{
}

/// The entries of one instant, in their order.
pub open spec fn of_instant(list: Seq<LedgerEntry>, instant: int) -> Seq<LedgerEntry> {
    list.filter(|e: LedgerEntry| e.purged_at == instant)
}

/// The ledger of a database is every tombstone row, read, none before a newer one, and those
/// of one instant in the order of their rows. It is an error exactly where some row cannot
/// be read, and then says what is wrong with such a row.
pub proof fn law_all_tombstones(store: &Store, r: Result<Vec<SessionTombstone>, StoreError>)
    requires
        call_ensures(all_tombstones, (store,), r),
    ensures
        r is Ok <==> forall|i: int|
            0 <= i < store.tombstones@.len() ==> reads(#[trigger] store.tombstones@[i]),
        r matches Err(e) ==> exists|i: int|
            0 <= i < store.tombstones@.len() && !reads(#[trigger] store.tombstones@[i]) && blames(
                e,
                store.tombstones@[i],
            ),
        r matches Ok(list) ==> {
            let read = list@.map_values(|t: SessionTombstone| t@);
            let rows = store.tombstones@.map_values(|row: TombstoneRow| row@.entry);
            &&& list@.len() == store.tombstones@.len()
            &&& read.to_multiset() == rows.to_multiset()
            &&& forall|i: int, j: int|
                0 <= i < j < list@.len() ==> (#[trigger] list@[i]).purged_at.microsecond >= (
                #[trigger] list@[j]).purged_at.microsecond
            &&& forall|instant: int| #[trigger]
                of_instant(read, instant) == of_instant(rows, instant)
        },
{
    broadcast use vstd::seq_lib::group_to_multiset_ensures;

    let all = ledger_of(store@);
    let rows = row_entries(*store);
    lemma_row_entries(*store);
    law_the_ledger_is_every_row(store@);
    law_one_bad_entry_spoils_the_ledger(all);
    assert forall|e: LedgerEntry| #[trigger] all.contains(e) == rows.contains(e) by {
        assert(all.to_multiset().contains(e) == rows.to_multiset().contains(e));
    }
    assert forall|i: int| 0 <= i < store.tombstones@.len() implies (reads(
        #[trigger] store.tombstones@[i],
    ) <==> entry_fault(rows[i]) is None) by {
        law_readable_tombstones(rows[i]);
    }
    assert forall|k: int| 0 <= k < all.len() implies rows.contains(#[trigger] all[k]) by {
        assert(all.contains(all[k]));
    }
    if forall|i: int|
        0 <= i < store.tombstones@.len() ==> reads(#[trigger] store.tombstones@[i]) {
        assert forall|k: int| 0 <= k < all.len() implies entry_fault(
            #[trigger] all[k],
        ) is None by {
            let i = choose|i: int| 0 <= i < rows.len() && rows[i] == all[k];
            assert(reads(store.tombstones@[i]));
        }
        lemma_no_entry_fault(all);
    }
    if first_fault(all) is None {
        assert forall|i: int| 0 <= i < store.tombstones@.len() implies reads(
            #[trigger] store.tombstones@[i],
        ) by {
            assert(rows.contains(rows[i]));
            assert(all.contains(rows[i]));
            let k = choose|k: int| 0 <= k < all.len() && all[k] == rows[i];
            assert(all[k].session_id.len() == 16);
        }
    } else {
        let k = lemma_told_entry(all);
        assert(rows.contains(all[k]));
        let i = choose|i: int| 0 <= i < rows.len() && rows[i] == all[k];
        law_readable_tombstones(rows[i]);
        assert(!reads(store.tombstones@[i]));
        if let Err(e) = r {
            assert(blames(e, store.tombstones@[i]));
        }
    }
    if let Ok(list) = r {
        let read = list@.map_values(|t: SessionTombstone| t@);
        assert(read == all);
        assert forall|i: int, j: int| 0 <= i < j < list@.len() implies (
        #[trigger] list@[i]).purged_at.microsecond >= (
        #[trigger] list@[j]).purged_at.microsecond by {
            assert(read[i] == list@[i]@ && read[j] == list@[j]@);
            assert(all[i].purged_at >= all[j].purged_at);
        }
        assert forall|instant: int| #[trigger]
            of_instant(read, instant) == of_instant(rows, instant) by {
            law_the_ledger_keeps_the_rows_of_one_instant(store@, instant);
        }
    }
}

/// Where no entry has a fault, the ledger has none.
proof fn lemma_no_entry_fault(list: Seq<LedgerEntry>)
    requires
        forall|k: int| 0 <= k < list.len() ==> entry_fault(#[trigger] list[k]) is None,
    ensures
        first_fault(list) is None,
{
    law_one_bad_entry_spoils_the_ledger(list);
    assert forall|k: int| 0 <= k < list.len() implies (#[trigger] list[k]).session_id.len() == 16
        && list[k].workspace_id.len() == 16 && list[k].project_id.len() == 16
        && list[k].tombstone_id.len() == 16 && -377705023201000000 <= list[k].purged_at
        <= 253402207200000000 by {
        law_readable_tombstones(list[k]);
    }
}

/// The fault that is told is that of some entry.
proof fn lemma_told_entry(list: Seq<LedgerEntry>) -> (k: int)
    requires
        first_fault(list) is Some,
    ensures
        0 <= k < list.len(),
        first_fault(list) == entry_fault(list[k]),
    decreases list.len(),
{
    if entry_fault(list[0]) is Some {
        0
    } else {
        let k = lemma_told_entry(list.drop_first());
        assert(list.drop_first()[k] == list[k + 1]);
        k + 1
    }
}

/// The sessions that came back are the entries of the ledger, in its order, whose session
/// has a row. Where the ledger cannot be read, this is the same error.
pub proof fn law_resurrected_sessions(
    store: &Store,
    all: Result<Vec<SessionTombstone>, StoreError>,
    r: Result<Vec<SessionTombstone>, StoreError>,
)
    requires
        call_ensures(all_tombstones, (store,), all),
        call_ensures(resurrected_sessions, (store,), r),
    ensures
        all is Ok <==> r is Ok,
        all matches Err(e) ==> (r matches Err(f) && e@ == f@),
        all matches Ok(ledger) ==> (r matches Ok(list) && list@.map_values(
            |t: SessionTombstone| t@,
        ) == ledger@.map_values(|t: SessionTombstone| t@).filter(
            |e: LedgerEntry| has_row(store@, e.session_id),
        )),
{
    law_what_came_back_by_the_rows(store@);
}

/// How many came back is how many are listed, and none exactly where no session row has the
/// id that a tombstone row names.
pub proof fn law_count_resurrected(
    store: &Store,
    list: Result<Vec<SessionTombstone>, StoreError>,
    r: Result<usize, StoreError>,
)
    requires
        call_ensures(resurrected_sessions, (store,), list),
        call_ensures(count_resurrected, (store,), r),
    ensures
        list is Ok <==> r is Ok,
        list matches Err(e) ==> (r matches Err(f) && e@ == f@),
        list matches Ok(l) ==> (r matches Ok(n) && n == l@.len()),
        r matches Ok(n) ==> (n == 0 <==> forall|i: int, j: int|
            0 <= i < store.tombstones@.len() && 0 <= j < store.sessions@.len() ==> (
            #[trigger] store.sessions@[j]).id@ != (#[trigger] store.tombstones@[i]).session_id@),
{
    law_what_came_back_by_the_rows(store@);
    if let Ok(l) = list {
        assert(ledger(l@).len() == l@.len());
    }
    if let Ok(n) = r {
        if n == 0 {
            assert forall|i: int, j: int|
                0 <= i < store.tombstones@.len() && 0 <= j < store.sessions@.len() implies (
            #[trigger] store.sessions@[j]).id@ != (
            #[trigger] store.tombstones@[i]).session_id@ by {
                assert(store@.sessions[j].id@ != store@.tombstones[i].entry.session_id);
            }
        } else if forall|i: int, j: int|
            0 <= i < store.tombstones@.len() && 0 <= j < store.sessions@.len() ==> (
            #[trigger] store.sessions@[j]).id@ != (#[trigger] store.tombstones@[i]).session_id@ {
            assert forall|i: int, j: int|
                0 <= i < store@.tombstones.len() && 0 <= j < store@.sessions.len() implies (
            #[trigger] store@.sessions[j]).id@ != (
            #[trigger] store@.tombstones[i]).entry.session_id by {
                assert(store.sessions@[j].id@ != store.tombstones@[i].session_id@);
            }
        }
    }
}

/// The ledger read from a database is that database's; where there is none, it is empty.
pub proof fn law_read_ledger_from_db(
    found: Option<&Store>,
    all: Result<Vec<SessionTombstone>, StoreError>,
    r: Result<Vec<SessionTombstone>, StoreError>,
)
    requires
        call_ensures(read_ledger_from_db, (found,), r),
        found matches Some(store) ==> call_ensures(all_tombstones, (store,), all),
    ensures
        found is None ==> (r matches Ok(list) && list@.len() == 0),
        found is Some && all is Ok ==> (r matches Ok(list) && list@.map_values(
            |t: SessionTombstone| t@,
        ) == all->Ok_0@.map_values(|t: SessionTombstone| t@)),
        found is Some && all is Err ==> (r matches Err(e) && e@ == all->Err_0@),
{
    if let Ok(list) = r {
        assert(ledger(list@) == list@.map_values(|t: SessionTombstone| t@));
    }
}

/// Importing tombstones changes no table but theirs, keeps the rows that were there, adds
/// the first of the list for each session that no row named, as it stands and without an
/// audit record, and counts those. Ingest of a session so added is refused in the scope
/// that its entry names.
pub proof fn law_import_tombstones(
    store: &mut Store,
    list: &Vec<SessionTombstone>,
    r: Result<usize, StoreError>,
)
    requires
        call_ensures(import_tombstones, (store, list), r),
    ensures
        ({
            let st = old(store)@;
            let after = final(store)@;
            let entries = list@.map_values(|t: SessionTombstone| t@);
            let n = st.tombstones.len() as int;
            &&& r matches Ok(added)
            &&& added == after.tombstones.len() - n
            &&& after == (StoreView { tombstones: after.tombstones, ..st })
            &&& forall|i: int| 0 <= i < n ==> #[trigger] after.tombstones[i] == st.tombstones[i]
            &&& forall|i: int|
                n <= i < after.tombstones.len() ==> (
                #[trigger] after.tombstones[i]).audit_id is None && exists|k: int|
                    #[trigger] is_new(st, entries, k) && entries[k] == after.tombstones[i].entry
            &&& forall|k: int| #[trigger]
                is_new(st, entries, k) ==> exists|i: int|
                    n <= i < after.tombstones.len() && #[trigger] after.tombstones[i] == (
                    TombstoneView { entry: entries[k], audit_id: None })
            &&& forall|i: int, j: int|
                n <= i < j < after.tombstones.len() ==> (
                #[trigger] after.tombstones[i]).entry.session_id != (
                #[trigger] after.tombstones[j]).entry.session_id
        }),
{
    let st = old(store)@;
    let after = final(store)@;
    law_import_by_the_rows(st, ledger(list@));
    assert(ledger(list@) == list@.map_values(|t: SessionTombstone| t@));
    assert(after == (StoreView { tombstones: after.tombstones, ..st }));
}

/// What is imported is refused: a session that no row named is purged, once imported, in the
/// workspace and project of its first entry, and ingest for it is refused there.
pub proof fn law_imported_sessions_are_refused(
    store: &mut Store,
    list: &Vec<SessionTombstone>,
    imported: Result<usize, StoreError>,
    k: int,
    refused: Result<bool, StoreError>,
)
    requires
        call_ensures(import_tombstones, (store, list), imported),
        0 <= k < list@.len(),
        forall|i: int|
            0 <= i < old(store)@.tombstones.len() ==> (
            #[trigger] old(store)@.tombstones[i]).entry.session_id != list@[k].session_id.bytes@,
        forall|j: int|
            0 <= j < k ==> (#[trigger] list@[j]).session_id.bytes@ != list@[k].session_id.bytes@,
        call_ensures(
            is_session_purged,
            (
                final(store),
                list@[k].workspace_id,
                list@[k].project_id,
                list@[k].session_id,
            ),
            refused,
        ),
    ensures
        refused matches Ok(b) && b,
{
    let st = old(store)@;
    let entries = ledger(list@);
    law_import_by_the_rows(st, entries);
    assert forall|j: int| 0 <= j < k implies (#[trigger] entries[j]).session_id
        != entries[k].session_id by {
        assert(entries[j] == list@[j]@);
    }
    assert(entries[k] == list@[k]@);
    assert(is_new(st, entries, k));
}

/// What purging again what a tombstone covers does to the database `st` and answers: the
/// rows decide as for a first purge; a refusal changes nothing; else the rows go that a
/// first purge would take, the ledger row of the session is replaced by one at the end with
/// the old id and time, and the receipt carries those.
pub open spec fn repurge_does(
    st: StoreView,
    after: StoreView,
    e: LedgerEntry,
    now: int,
    r: Result<SessionPurgeReceipt, StoreError>,
) -> bool {
    &&& decided_by_rows(st, e.workspace_id, e.project_id, e.session_id, now, r)
    &&& r is Err ==> after == st
    &&& r matches Ok(receipt) ==> {
        &&& leaves_by_rows(st, after, e.workspace_id, e.project_id, e.session_id, now)
        &&& after.tombstones == other_rows(st.tombstones, e.session_id).push(
            TombstoneView {
                entry: LedgerEntry {
                    session_id: e.session_id,
                    workspace_id: e.workspace_id,
                    project_id: e.project_id,
                    tombstone_id: e.tombstone_id,
                    schema_version: 1,
                    purged_at: e.purged_at,
                },
                audit_id: Some(st.audits.len() as int),
            },
        )
        &&& receipt.status is Purged
        &&& receipt.tombstone_id.bytes@ == e.tombstone_id
        &&& receipt.purged_at.microsecond == e.purged_at
        &&& receipt.backup_cutoff.microsecond == now
        &&& reports_rows(st, after, e.workspace_id, e.project_id, e.session_id, receipt)
    }
}

/// The tombstone rows of other sessions, in their order.
pub open spec fn other_rows(rows: Seq<TombstoneView>, session: Seq<u8>) -> Seq<TombstoneView> {
    rows.filter(|t: TombstoneView| t.entry.session_id != session)
}

/// Purging again at a given instant does what a first purge would, under the old tombstone.
pub proof fn law_repurge_tombstoned_session_at(
    store: &mut Store,
    tombstone: &SessionTombstone,
    now: i64,
    r: Result<SessionPurgeReceipt, StoreError>,
)
    requires
        call_ensures(repurge_tombstoned_session_at, (store, tombstone, now), r),
    ensures
        repurge_does(old(store)@, final(store)@, tombstone@, now as int, r),
{
    law_repurge_by_the_rows(old(store)@, final(store)@, tombstone@, now as int, r);
}

/// Purging again now does so at an instant read off the clock.
pub proof fn law_repurge_tombstoned_session(
    store: &mut Store,
    tombstone: &SessionTombstone,
    r: Result<SessionPurgeReceipt, StoreError>,
)
    requires
        call_ensures(repurge_tombstoned_session, (store, tombstone), r),
    ensures
        exists|now: i64|
            shown_by_the_clock(now) && #[trigger] repurge_does(
                old(store)@,
                final(store)@,
                tombstone@,
                now as int,
                r,
            ),
{
    let now = choose|now: i64|
        call_ensures(now_microsecond, (), now) && #[trigger] repurge_step(
            old(store)@,
            final(store)@,
            tombstone@,
            now as int,
            r,
        );
    law_repurge_by_the_rows(old(store)@, final(store)@, tombstone@, now as int, r);
    assert(repurge_does(old(store)@, final(store)@, tombstone@, now as int, r));
    assert(shown_by_the_clock(now));
}

/// Each state but the last becomes the next when the next session of `work` is purged again
/// at its instant, as [`repurge_does`] says.
pub open spec fn purges_through(
    work: Seq<LedgerEntry>,
    nows: Seq<int>,
    states: Seq<StoreView>,
) -> bool {
    &&& 1 <= states.len() <= work.len() + 1
    &&& forall|j: int|
        0 <= j < states.len() - 1 ==> purged_again(
            #[trigger] states[j],
            states[j + 1],
            work[j],
            nows[j],
        )
}

/// `after` is what is left of `st` once the session of `e` was purged again.
pub open spec fn purged_again(st: StoreView, after: StoreView, e: LedgerEntry, now: int) -> bool {
    &&& leaves_by_rows(st, after, e.workspace_id, e.project_id, e.session_id, now)
    &&& after.tombstones == other_rows(st.tombstones, e.session_id).push(
        TombstoneView {
            entry: LedgerEntry {
                session_id: e.session_id,
                workspace_id: e.workspace_id,
                project_id: e.project_id,
                tombstone_id: e.tombstone_id,
                schema_version: 1,
                purged_at: e.purged_at,
            },
            audit_id: Some(st.audits.len() as int),
        },
    )
}

/// What reapplying a ledger does, at given instants. The ledger is imported. If some row
/// then cannot be read, that is the error, and nothing more is done. Else each session that
/// came back is purged again, in the order of the ledger; the first refusal ends it and
/// gives the error; and otherwise each is reported, with where its pages sat.
pub open spec fn reapply_does(
    st: StoreView,
    after: StoreView,
    list: Seq<LedgerEntry>,
    nows: Seq<int>,
    r: Result<Vec<RepurgedSession>, StoreError>,
) -> bool {
    let had = imported(st, list);
    let work = ledger_of(had).filter(|e: LedgerEntry| has_row(had, e.session_id));
    match first_fault(ledger_of(had)) {
        Some(f) => (r matches Err(e) && e@ == f) && after == had,
        None => exists|states: Seq<StoreView>| #[trigger]
            purges_through(work, nows, states) && states[0] == had && ends_with(
                work,
                nows,
                states,
                after,
                r,
            ),
    }
}

proof fn lemma_reapply_does(
    st: StoreView,
    after: StoreView,
    list: Seq<LedgerEntry>,
    nows: Seq<int>,
    r: Result<Vec<RepurgedSession>, StoreError>,
)
    requires
        reapply_step(st, after, list, nows, r),
    ensures
        reapply_does(st, after, list, nows, r),
{
    let had = imported(st, list);
    let work = resurrected(had);
    law_reapply_goes_step_by_step(st, after, list, nows, r);
    law_what_came_back_by_the_rows(had);
    if first_fault(ledger_of(had)) is None {
        let states = choose|states: Seq<StoreView>| #[trigger]
            leads_through(had, work, nows, states) && ends_with(work, nows, states, after, r);
        assert forall|j: int| 0 <= j < states.len() - 1 implies purged_again(
            #[trigger] states[j],
            states[j + 1],
            work[j],
            nows[j],
        ) by {
            assert(states[j + 1] == repurged(states[j], work[j], nows[j]));
            lemma_repurged_by_rows(states[j], work[j], nows[j]);
        }
        assert(purges_through(work, nows, states));
    }
}

/// Reapplying a ledger at given instants.
pub proof fn law_reapply_ledger_at(
    store: &mut Store,
    tombstones: &Vec<SessionTombstone>,
    nows: &Vec<i64>,
    r: Result<Vec<RepurgedSession>, StoreError>,
)
    requires
        call_ensures(reapply_ledger_at, (store, tombstones, nows), r),
    ensures
        reapply_does(
            old(store)@,
            final(store)@,
            tombstones@.map_values(|t: SessionTombstone| t@),
            nows@.map_values(|m: i64| m as int),
            r,
        ),
{
    assert(ledger(tombstones@) == tombstones@.map_values(|t: SessionTombstone| t@));
    assert(numbers(nows@) == nows@.map_values(|m: i64| m as int));
    lemma_reapply_does(old(store)@, final(store)@, ledger(tombstones@), numbers(nows@), r);
}

/// Reapplying a ledger now does so at instants that the clock can show; where it goes
/// through, each was read off the clock.
pub proof fn law_reapply_ledger(
    store: &mut Store,
    tombstones: &Vec<SessionTombstone>,
    r: Result<Vec<RepurgedSession>, StoreError>,
)
    requires
        call_ensures(reapply_ledger, (store, tombstones), r),
    ensures
        exists|nows: Seq<int>| #[trigger]
            reapply_does(
                old(store)@,
                final(store)@,
                ledger(tombstones@),
                nows,
                r,
            ) && all_clock_readings(nows) && (r is Ok ==> forall|j: int|
                0 <= j < nows.len() ==> read_off_the_clock(#[trigger] nows[j])),
{
    let st = imported(old(store)@, ledger(tombstones@));
    let nows = choose|nows: Seq<int>|
        nows.len() == readings_needed(old(store)@, ledger(tombstones@)) && all_clock_readings(nows)
            && #[trigger] reapply_step(
            old(store)@,
            final(store)@,
            ledger(tombstones@),
            nows,
            r,
        ) && (first_fault(ledger_of(st)) is None ==> readings_taken(st, resurrected(st), nows));
    lemma_reapply_does(old(store)@, final(store)@, ledger(tombstones@), nows, r);
    if r is Ok {
        lemma_first_refusal(st, resurrected(st), nows, 0);
        assert forall|j: int| 0 <= j < nows.len() implies read_off_the_clock(
            #[trigger] nows[j],
        ) by {
            assert(j <= first_refusal(st, resurrected(st), nows, 0));
        }
    }
}

} // verus!
