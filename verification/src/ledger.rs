//! The tombstone ledger, and reapplying it to a restored database.
//!
//! A restore carries the ledger across the overwrite: without it, restoring a
//! snapshot taken before a purge brings back everything that the purge removed.

use vstd::prelude::*;

use crate::clock::{clock_reading, now_microsecond};
use crate::error::{Fault, StoreError};
use crate::ids::{bytes_of, hyphenated, same_bytes, ProjectId, SessionId, WorkspaceId};
use crate::order::texts;
use crate::session_purge::{
    derived_proposals, entry_fault, lists_derived_paths, page_paths, purged, read_tombstone,
    removal_fault, remove_session, uuids, PagePath, SessionPurgeReceipt, SessionTombstone,
    SESSION_PURGE_SCHEMA_VERSION,
};
use crate::store::{delete_where, LedgerEntry, Store, StoreView, TombstoneRow, TombstoneView};
use crate::text::joined;

verus! {

/// The entries of a list of tombstone rows.
pub open spec fn entries(rows: Seq<TombstoneView>) -> Seq<LedgerEntry> {
    rows.map_values(|t: TombstoneView| t.entry)
}

/// `list`, newest first, with `e` put behind everything at least as new.
pub open spec fn insert_by_age(list: Seq<LedgerEntry>, e: LedgerEntry) -> Seq<LedgerEntry>
    decreases list.len(),
{
    if list.len() == 0 || list.last().purged_at >= e.purged_at {
        list.push(e)
    } else {
        insert_by_age(list.drop_last(), e).push(list.last())
    }
}

/// `list` ordered newest first; entries of one instant keep their order.
pub open spec fn newest_first(list: Seq<LedgerEntry>) -> Seq<LedgerEntry>
    decreases list.len(),
{
    if list.len() == 0 {
        list
    } else {
        insert_by_age(newest_first(list.drop_last()), list.last())
    }
}

/// No entry is newer than one before it.
pub open spec fn falls_in_age(list: Seq<LedgerEntry>) -> bool {
    forall|i: int, j: int|
        0 <= i < j < list.len() ==> (#[trigger] list[i]).purged_at >= (#[trigger] list[j]).purged_at
}

proof fn lemma_insert_by_age(list: Seq<LedgerEntry>, e: LedgerEntry)
    requires
        falls_in_age(list),
    ensures
        falls_in_age(insert_by_age(list, e)),
        insert_by_age(list, e).len() == list.len() + 1,
        insert_by_age(list, e).to_multiset() == list.to_multiset().insert(e),
    decreases list.len(),
{
    broadcast use vstd::seq_lib::group_to_multiset_ensures;

    if list.len() == 0 || list.last().purged_at >= e.purged_at {
    } else {
        let rest = list.drop_last();
        lemma_insert_by_age(rest, e);
        let put = insert_by_age(rest, e);
        assert forall|i: int, j: int| 0 <= i < j < put.push(list.last()).len() implies (
        #[trigger] put.push(list.last())[i]).purged_at >= (
        #[trigger] put.push(list.last())[j]).purged_at by {
            if j == put.len() {
                assert(put.to_multiset().contains(put[i]));
                if put[i] != e {
                    assert(rest.to_multiset().contains(put[i]));
                    assert(rest.contains(put[i]));
                    let k = choose|k: int| 0 <= k < rest.len() && rest[k] == put[i];
                    assert(list[k] == put[i]);
                }
            }
        }
        assert(list == rest.push(list.last()));
        assert(list.to_multiset() == rest.to_multiset().insert(list.last()));
        assert(insert_by_age(list, e).to_multiset() =~= list.to_multiset().insert(e));
    }
}

/// The ledger is read back whole: ordering it drops, adds and changes no entry,
/// and puts none before a newer one.
pub proof fn law_ordering_keeps_every_entry(list: Seq<LedgerEntry>)
    ensures
        falls_in_age(newest_first(list)),
        newest_first(list).len() == list.len(),
        newest_first(list).to_multiset() == list.to_multiset(),
    decreases list.len(),
{
    broadcast use vstd::seq_lib::group_to_multiset_ensures;

    if list.len() > 0 {
        law_ordering_keeps_every_entry(list.drop_last());
        lemma_insert_by_age(newest_first(list.drop_last()), list.last());
        assert(list == list.drop_last().push(list.last()));
    }
}

/// The same entries, so the same membership.
pub(crate) proof fn lemma_newest_first_members(list: Seq<LedgerEntry>, e: LedgerEntry)
    ensures
        newest_first(list).contains(e) <==> list.contains(e),
{
    broadcast use vstd::seq_lib::group_to_multiset_ensures;

    law_ordering_keeps_every_entry(list);
    assert(newest_first(list).to_multiset().contains(e) <==> list.to_multiset().contains(e));
}

proof fn lemma_insert_position(list: Seq<LedgerEntry>, e: LedgerEntry, p: int)
    requires
        0 <= p <= list.len(),
        p > 0 ==> list[p - 1].purged_at >= e.purged_at,
        forall|j: int| p <= j < list.len() ==> (#[trigger] list[j]).purged_at < e.purged_at,
    ensures
        insert_by_age(list, e) == list.insert(p, e),
    decreases list.len(),
{
    if p == list.len() {
        assert(list.insert(p, e) == list.push(e));
    } else {
        lemma_insert_position(list.drop_last(), e, p);
        assert(list.drop_last().insert(p, e).push(list.last()) == list.insert(p, e));
    }
}

/// The first entry of `list` that cannot be read, told by its fault.
pub open spec fn first_fault(list: Seq<LedgerEntry>) -> Option<Fault>
    decreases list.len(),
{
    if list.len() == 0 {
        None
    } else if entry_fault(list[0]) is Some {
        entry_fault(list[0])
    } else {
        first_fault(list.drop_first())
    }
}

/// The entries of a list of tombstones.
pub open spec fn ledger(list: Seq<SessionTombstone>) -> Seq<LedgerEntry> {
    list.map_values(|t: SessionTombstone| t@)
}

/// Every tombstone of the database, newest first.
pub open spec fn ledger_of(st: StoreView) -> Seq<LedgerEntry> {
    newest_first(entries(st.tombstones))
}

/// The rows at the given positions.
spec fn rows_at(rows: Seq<TombstoneRow>, at: Seq<usize>) -> Seq<LedgerEntry> {
    at.map_values(|i: usize| rows[i as int]@.entry)
}

/// The positions of the tombstone rows, newest first.
fn order_by_age(rows: &Vec<TombstoneRow>) -> (at: Vec<usize>)
    ensures
        forall|k: int| 0 <= k < at@.len() ==> #[trigger] at@[k] < rows@.len(),
        rows_at(rows@, at@) == newest_first(rows@.map_values(|t: TombstoneRow| t@.entry)),
{
    let mut at: Vec<usize> = Vec::new();
    let ghost all = rows@.map_values(|t: TombstoneRow| t@.entry);
    assert(all.take(0) == Seq::<LedgerEntry>::empty());
    let mut i: usize = 0;
    while i < rows.len()
        invariant
            all == rows@.map_values(|t: TombstoneRow| t@.entry),
            i <= rows@.len(),
            forall|k: int| 0 <= k < at@.len() ==> #[trigger] at@[k] < rows@.len(),
            rows_at(rows@, at@) == newest_first(all.take(i as int)),
        decreases rows@.len() - i,
    {
        let ghost list = rows_at(rows@, at@);
        let ghost e = all[i as int];
        let mut p: usize = at.len();
        while p > 0 && rows[at[p - 1]].purged_at < rows[i].purged_at
            invariant
                i < rows@.len(),
                p <= at@.len(),
                list == rows_at(rows@, at@),
                e == rows@[i as int]@.entry,
                forall|k: int| 0 <= k < at@.len() ==> #[trigger] at@[k] < rows@.len(),
                forall|j: int|
                    p <= j < list.len() ==> (#[trigger] list[j]).purged_at < e.purged_at,
            decreases p,
        {
            assert(list[p - 1] == rows@[at@[p - 1] as int]@.entry);
            p = p - 1;
        }
        let ghost before = at@;
        at.insert(p, i);
        proof {
            if p > 0 {
                assert(list[p - 1] == rows@[before[p - 1] as int]@.entry);
            }
            lemma_insert_position(list, e, p as int);
            assert(rows_at(rows@, at@) == list.insert(p as int, e));
            assert(all.take(i + 1).drop_last() == all.take(i as int));
            assert forall|k: int| 0 <= k < at@.len() implies #[trigger] at@[k] < rows@.len() by {
                if k < p {
                    assert(at@[k] == before[k]);
                } else if k > p {
                    assert(at@[k] == before[k - 1]);
                }
            }
        }
        i = i + 1;
    }
    assert(all.take(all.len() as int) == all);
    at
}

/// Every tombstone in this database, newest first.
pub fn all_tombstones(store: &Store) -> (r: Result<Vec<SessionTombstone>, StoreError>)
    ensures
        match first_fault(ledger_of(store@)) {
            None => r matches Ok(list) && ledger(list@) == ledger_of(store@),
            Some(f) => r matches Err(e) && e@ == f,
        },
{
    let at = order_by_age(&store.tombstones);
    let ghost all = ledger_of(store@);
    proof {
        assert(entries(store@.tombstones) == store.tombstones@.map_values(
            |t: TombstoneRow| t@.entry,
        ));
        assert(all.skip(0) == all);
    }
    let mut out: Vec<SessionTombstone> = Vec::new();
    let mut k: usize = 0;
    while k < at.len()
        invariant
            k <= at@.len(),
            all == rows_at(store.tombstones@, at@),
            forall|j: int| 0 <= j < at@.len() ==> #[trigger] at@[j] < store.tombstones@.len(),
            ledger(out@) == all.take(k as int),
            first_fault(all) == first_fault(all.skip(k as int)),
            all == ledger_of(store@),
        decreases at@.len() - k,
    {
        let ghost before = out@;
        assert(all.skip(k as int)[0] == store.tombstones@[at@[k as int] as int]@.entry);
        let found = read_tombstone(&store.tombstones[at[k]])?;
        out.push(found);
        proof {
            assert(all.skip(k as int).drop_first() == all.skip(k + 1));
            assert(ledger(out@) == ledger(before).push(all[k as int]));
            assert(all.take(k + 1) == all.take(k as int).push(all[k as int]));
        }
        k = k + 1;
    }
    assert(all.take(all.len() as int) == all);
    Ok(out)
}

/// Some tombstone covers `session`, in whatever scope.
pub open spec fn covered(st: StoreView, session: Seq<u8>) -> bool {
    exists|i: int|
        0 <= i < st.tombstones.len() && (#[trigger] st.tombstones[i]).entry.session_id == session
}

/// `session` has a row.
pub open spec fn present(st: StoreView, session: Seq<u8>) -> bool {
    exists|i: int| 0 <= i < st.sessions.len() && (#[trigger] st.sessions[i]).id@ == session
}

/// The database with the tombstone `e` taken over, unless its session is covered
/// already.
pub open spec fn with_imported(st: StoreView, e: LedgerEntry) -> StoreView {
    if !covered(st, e.session_id) {
        StoreView {
            tombstones: st.tombstones.push(TombstoneView { entry: e, audit_id: None }),
            ..st
        }
    } else {
        st
    }
}

/// The database with the tombstones of `list` taken over, in order.
pub open spec fn imported(st: StoreView, list: Seq<LedgerEntry>) -> StoreView
    decreases list.len(),
{
    if list.len() == 0 {
        st
    } else {
        with_imported(imported(st, list.drop_last()), list.last())
    }
}

/// Whether some tombstone covers the session.
fn is_covered(store: &Store, session: &[u8]) -> (r: bool)
    ensures
        r == covered(store@, session@),
{
    let mut i: usize = 0;
    while i < store.tombstones.len()
        invariant
            i <= store.tombstones@.len(),
            forall|j: int|
                0 <= j < i ==> (#[trigger] store@.tombstones[j]).entry.session_id != session@,
        decreases store.tombstones@.len() - i,
    {
        assert(store@.tombstones[i as int] == store.tombstones@[i as int]@);
        if same_bytes(store.tombstones[i].session_id.as_slice(), session) {
            return true;
        }
        i = i + 1;
    }
    false
}

/// Take over tombstones carried from another database, keeping any already
/// present. Returns the number of rows newly inserted.
///
/// Restore imports the ledger before the restored state is made available, so a
/// session purged after the snapshot was taken is purged again rather than served.
pub fn import_tombstones(store: &mut Store, tombstones: &Vec<SessionTombstone>) -> (r: Result<
    usize,
    StoreError,
>)
    ensures
        final(store)@ == imported(old(store)@, ledger(tombstones@)),
        r matches Ok(n) && n == final(store)@.tombstones.len() - old(store)@.tombstones.len(),
{
    let ghost all = ledger(tombstones@);
    let ghost st = store@;
    assert(all.take(0) == Seq::<LedgerEntry>::empty());
    let mut inserted: usize = 0;
    let mut i: usize = 0;
    while i < tombstones.len()
        invariant
            all == ledger(tombstones@),
            i <= tombstones@.len(),
            store@ == imported(st, all.take(i as int)),
            inserted == store@.tombstones.len() - st.tombstones.len(),
        decreases tombstones@.len() - i,
    {
        let t = &tombstones[i];
        proof {
            assert(all.take(i + 1).drop_last() == all.take(i as int));
            assert(all.take(i + 1).last() == t@);
        }
        if !is_covered(store, t.session_id.as_bytes()) {
            let ghost before = store@;
            store.tombstones.push(
                TombstoneRow {
                    session_id: bytes_of(t.session_id.as_bytes()),
                    workspace_id: bytes_of(t.workspace_id.as_bytes()),
                    project_id: bytes_of(t.project_id.as_bytes()),
                    tombstone_id: bytes_of(t.tombstone_id.as_bytes()),
                    schema_version: t.schema_version,
                    purged_at: t.purged_at.microsecond,
                    audit_id: None,
                },
            );
            assert(store@.tombstones == with_imported(before, t@).tombstones);
            assert(store@ == with_imported(before, t@));
            let total: usize = store.tombstones.len();
            assert(inserted < total);
            inserted = inserted + 1;
        }
        i = i + 1;
    }
    assert(all.take(all.len() as int) == all);
    Ok(inserted)
}

/// Picks the entries whose session has a row in `st`.
pub open spec fn comes_back(st: StoreView) -> spec_fn(LedgerEntry) -> bool {
    |e: LedgerEntry| present(st, e.session_id)
}

/// The tombstones whose session is present all the same, newest first.
pub open spec fn resurrected(st: StoreView) -> Seq<LedgerEntry> {
    ledger_of(st).filter(comes_back(st))
}

/// Whether the session has a row.
fn is_present(store: &Store, session: &[u8]) -> (r: bool)
    ensures
        r == present(store@, session@),
{
    let mut i: usize = 0;
    while i < store.sessions.len()
        invariant
            i <= store.sessions@.len(),
            forall|j: int| 0 <= j < i ==> (#[trigger] store@.sessions[j]).id@ != session@,
        decreases store.sessions@.len() - i,
    {
        assert(store@.sessions[i as int] == store.sessions@[i as int]);
        if same_bytes(store.sessions[i].id.as_slice(), session) {
            return true;
        }
        i = i + 1;
    }
    false
}

/// Sessions that a tombstone covers but whose rows are still present.
///
/// After a restore this is the work list: each one is a session that the ledger
/// says was deleted and the restored snapshot brought back. An empty result is
/// the check that the restore is safe to expose.
pub fn resurrected_sessions(store: &Store) -> (r: Result<Vec<SessionTombstone>, StoreError>)
    ensures
        match first_fault(ledger_of(store@)) {
            None => r matches Ok(list) && ledger(list@) == resurrected(store@),
            Some(f) => r matches Err(e) && e@ == f,
        },
{
    let all = all_tombstones(store)?;
    let ghost rows = ledger(all@);
    let ghost pick = comes_back(store@);
    let mut out: Vec<SessionTombstone> = Vec::new();
    let mut i: usize = 0;
    reveal(Seq::filter);
    assert(rows.take(0) == Seq::<LedgerEntry>::empty());
    while i < all.len()
        invariant
            rows == ledger(all@),
            pick == comes_back(store@),
            i <= all@.len(),
            ledger(out@) == rows.take(i as int).filter(pick),
        decreases all@.len() - i,
    {
        let t = all[i];
        let ghost before = out@;
        proof {
            reveal(Seq::filter);
            assert(rows.take(i + 1).drop_last() == rows.take(i as int));
            assert(rows.take(i + 1).last() == t@);
        }
        if is_present(store, t.session_id.as_bytes()) {
            out.push(t);
            assert(ledger(out@) == ledger(before).push(t@));
        }
        i = i + 1;
    }
    assert(rows.take(rows.len() as int) == rows);
    Ok(out)
}

/// How many purged sessions still have rows in this database.
///
/// The check that a restore runs last: anything but zero means the restored
/// state serves content that the ledger says was deleted.
pub fn count_resurrected(store: &Store) -> (r: Result<usize, StoreError>)
    ensures
        match first_fault(ledger_of(store@)) {
            None => r matches Ok(n) && n == resurrected(store@).len(),
            Some(f) => r matches Err(e) && e@ == f,
        },
{
    let list = resurrected_sessions(store)?;
    assert(ledger(list@).len() == list@.len());
    Ok(list.len())
}

/// The ledger of a database, where there is one to read: a missing database, and
/// one older than the ledger, yield an empty ledger.
pub fn read_ledger_from_db(found: Option<&Store>) -> (r: Result<
    Vec<SessionTombstone>,
    StoreError,
>)
    ensures
        match found {
            None => r matches Ok(list) && list@.len() == 0,
            Some(store) => match first_fault(ledger_of(store@)) {
                None => r matches Ok(list) && ledger(list@) == ledger_of(store@),
                Some(f) => r matches Err(e) && e@ == f,
            },
        },
{
    match found {
        None => Ok(Vec::new()),
        Some(store) => all_tombstones(store),
    }
}

/// Tombstones of other sessions.
pub open spec fn keep_tombstone(session: Seq<u8>) -> spec_fn(TombstoneView) -> bool {
    |t: TombstoneView| t.entry.session_id != session
}

/// The database without the ledger row of `session`.
pub open spec fn uncovered(st: StoreView, session: Seq<u8>) -> StoreView {
    StoreView { tombstones: st.tombstones.filter(keep_tombstone(session)), ..st }
}

/// Why purging again what the tombstone `e` covers is refused at `now`, if it is.
pub open spec fn repurge_fault(st: StoreView, e: LedgerEntry, now: int) -> Option<Fault> {
    removal_fault(st, e.workspace_id, e.project_id, e.session_id, now)
}

/// The database after the session of `e` was purged again at `now`: the tombstone
/// keeps the original id and time, and carries the present contract version.
pub open spec fn repurged(st: StoreView, e: LedgerEntry, now: int) -> StoreView {
    StoreView {
        tombstones: st.tombstones.filter(keep_tombstone(e.session_id)).push(
            TombstoneView {
                entry: LedgerEntry {
                    schema_version: SESSION_PURGE_SCHEMA_VERSION as int,
                    ..e
                },
                audit_id: Some(st.audits.len() as int),
            },
        ),
        ..purged(st, e.workspace_id, e.project_id, e.session_id, now, e.tombstone_id)
    }
}

/// What purging again leaves and answers. A refusal changes nothing: the session
/// stays covered.
pub open spec fn repurge_step(
    before: StoreView,
    after: StoreView,
    e: LedgerEntry,
    now: int,
    r: Result<SessionPurgeReceipt, StoreError>,
) -> bool {
    match repurge_fault(before, e, now) {
        Some(f) => (r matches Err(err) && err@ == f) && after == before,
        None => r matches Ok(receipt) && {
            &&& after == repurged(before, e, now)
            &&& receipt.status is Purged
            &&& receipt.tombstone_id@ == e.tombstone_id
            &&& receipt.purged_at@ == e.purged_at
            &&& receipt.backup_cutoff@ == now
            &&& receipt.counts.count_difference(before, after)
            &&& lists_derived_paths(
                before,
                e.workspace_id,
                e.project_id,
                e.session_id,
                page_paths(receipt.removed_pages@),
            )
            &&& uuids(receipt.removed_proposal_sidecars@) == derived_proposals(
                before,
                e.session_id,
            )
            &&& receipt.warnings@.len() == 0
        },
    }
}

/// Dropping rows by what they record drops the same rows.
proof fn lemma_filter_views(rows: Seq<TombstoneRow>, session: Seq<u8>)
    ensures
        rows.filter(|t: TombstoneRow| t.session_id@ != session).map_values(
            |t: TombstoneRow| t@,
        ) == rows.map_values(|t: TombstoneRow| t@).filter(keep_tombstone(session)),
    decreases rows.len(),
{
    reveal(Seq::filter);
    if rows.len() > 0 {
        lemma_filter_views(rows.drop_last(), session);
        let views = rows.map_values(|t: TombstoneRow| t@);
        assert(views.drop_last() == rows.drop_last().map_values(|t: TombstoneRow| t@));
        let keep = |t: TombstoneRow| t.session_id@ != session;
        if keep(rows.last()) {
            assert(rows.filter(keep).map_values(|t: TombstoneRow| t@) == rows.drop_last().filter(
                keep,
            ).map_values(|t: TombstoneRow| t@).push(rows.last()@));
        }
    }
}

/// Drop the ledger row of a session.
fn drop_tombstone(store: &mut Store, session_id: &SessionId)
    ensures
        final(store)@ == uncovered(old(store)@, session_id@),
{
    let ghost before = store@;
    let ghost session = session_id@;
    let ghost keep = |t: TombstoneRow| t.session_id@ != session;
    let doomed = |t: &TombstoneRow| -> (b: bool)
        ensures
            b == !keep(*t),
    { same_bytes(t.session_id.as_slice(), session_id.as_bytes()) };
    proof {
        lemma_filter_views(store.tombstones@, session);
    }
    delete_where(&mut store.tombstones, doomed, Ghost(keep));
    assert(store@ == uncovered(before, session_id@));
}

/// Purge a session whose rows came back with a restored snapshot, at a given
/// instant.
///
/// Distinct from an ordinary purge because the tombstone already exists: that one
/// would stop at it and report the session as purged without removing the rows
/// that came back. The new ledger row takes the place of the old one and carries
/// the original tombstone id and time, so that a receipt which an operator already
/// holds keeps identifying this deletion. Where the purge is refused the ledger
/// keeps the row it had.
pub fn repurge_tombstoned_session_at(
    store: &mut Store,
    tombstone: &SessionTombstone,
    now_microsecond: i64,
) -> (r: Result<SessionPurgeReceipt, StoreError>)
    ensures
        repurge_step(old(store)@, final(store)@, tombstone@, now_microsecond as int, r),
{
    let ghost before = store@;
    let ghost e = tombstone@;
    let mut receipt = remove_session(
        store,
        tombstone.workspace_id,
        tombstone.project_id,
        tombstone.session_id,
        now_microsecond,
        tombstone.tombstone_id,
    )?;
    let ghost cut = store@;
    assert(cut.tombstones.len() == before.tombstones.len() + 1);
    assert(cut.tombstones.last() == store.tombstones@.last()@);
    let mut row = store.tombstones.pop().unwrap();
    assert(store@.tombstones == cut.tombstones.drop_last());
    assert(cut.tombstones.drop_last() == before.tombstones);
    drop_tombstone(store, &tombstone.session_id);
    row.purged_at = tombstone.purged_at.microsecond;
    let ghost kept = store@.tombstones;
    store.tombstones.push(row);
    receipt.purged_at = tombstone.purged_at;
    proof {
        let after = repurged(before, e, now_microsecond as int);
        assert(store@.tombstones == kept.push(row@));
        assert(store@.tombstones == after.tombstones);
        assert(store@ == after);
    }
    Ok(receipt)
}

/// Purge a session whose rows came back with a restored snapshot, now.
pub fn repurge_tombstoned_session(store: &mut Store, tombstone: &SessionTombstone) -> (r: Result<
    SessionPurgeReceipt,
    StoreError,
>)
    ensures
        exists|now: int|
            clock_reading(now) && #[trigger] repurge_step(
                old(store)@,
                final(store)@,
                tombstone@,
                now,
                r,
            ),
        exists|now: i64|
            call_ensures(now_microsecond, (), now) && #[trigger] repurge_step(
                old(store)@,
                final(store)@,
                tombstone@,
                now as int,
                r,
            ),
{
    let now: i64 = now_microsecond();
    repurge_tombstoned_session_at(store, tombstone, now)
}

/// One session that a restore brought back and that was removed again.
#[derive(Debug, Clone)]
pub struct RepurgedSession {
    /// The session that the ledger said was deleted.
    pub session_id: SessionId,
    /// Wiki paths, relative to the wiki root, whose files and history the caller
    /// must still remove. Scoped `<workspace>/<project>/<page path>`, because
    /// that is how they sit in the shared wiki tree.
    pub repo_paths: Vec<String>,
}

/// Where the page at `path` of a project sits in the shared wiki tree.
pub open spec fn repo_path(workspace: Seq<u8>, project: Seq<u8>, path: Seq<char>) -> Seq<char> {
    hyphenated(workspace) + "/"@ + hyphenated(project) + "/"@ + path
}

/// Where the pages at `paths` sit.
pub open spec fn repo_paths_of(
    workspace: Seq<u8>,
    project: Seq<u8>,
    paths: Seq<Seq<char>>,
) -> Seq<Seq<char>> {
    paths.map_values(|p: Seq<char>| repo_path(workspace, project, p))
}

impl RepurgedSession {
    /// Names the session of `e`, and where the pages derived from it in `st` sit.
    pub open spec fn reports(self, st: StoreView, e: LedgerEntry) -> bool {
        &&& self.session_id@ == e.session_id
        &&& exists|paths: Seq<Seq<char>>| #[trigger]
            lists_derived_paths(st, e.workspace_id, e.project_id, e.session_id, paths) && texts(
                self.repo_paths@,
            ) == repo_paths_of(e.workspace_id, e.project_id, paths)
    }
}

/// Where the given pages sit in the shared wiki tree.
fn scoped_paths(pages: &Vec<PagePath>, workspace_id: &WorkspaceId, project_id: &ProjectId) -> (out:
    Vec<String>)
    ensures
        texts(out@) == repo_paths_of(workspace_id@, project_id@, page_paths(pages@)),
{
    let head = joined(workspace_id.to_text().as_str(), "/");
    let head = joined(head.as_str(), project_id.to_text().as_str());
    let head = joined(head.as_str(), "/");
    let mut out: Vec<String> = Vec::new();
    let ghost all = repo_paths_of(workspace_id@, project_id@, page_paths(pages@));
    let mut i: usize = 0;
    while i < pages.len()
        invariant
            head@ == hyphenated(workspace_id@) + "/"@ + hyphenated(project_id@) + "/"@,
            all == repo_paths_of(workspace_id@, project_id@, page_paths(pages@)),
            i <= pages@.len(),
            texts(out@) == all.take(i as int),
        decreases pages@.len() - i,
    {
        let ghost before = out@;
        out.push(joined(head.as_str(), pages[i].as_str()));
        proof {
            assert(texts(out@) == texts(before).push(all[i as int]));
            assert(all.take(i + 1) == all.take(i as int).push(all[i as int]));
        }
        i = i + 1;
    }
    assert(all.take(all.len() as int) == all);
    out
}

/// The database after the first `k` sessions of `work` were purged again, each at
/// its instant.
pub open spec fn after_repurges(
    st: StoreView,
    work: Seq<LedgerEntry>,
    nows: Seq<int>,
    k: int,
) -> StoreView
    decreases k,
{
    if k <= 0 {
        st
    } else {
        repurged(after_repurges(st, work, nows, k - 1), work[k - 1], nows[k - 1])
    }
}

/// The first session of `work`, at `from` or later, that cannot be purged again at
/// its instant once those before it have been; `work.len()` where there is none.
pub open spec fn first_refusal(
    st: StoreView,
    work: Seq<LedgerEntry>,
    nows: Seq<int>,
    from: int,
) -> int
    decreases work.len() - from,
{
    if from < 0 || from >= work.len() {
        work.len() as int
    } else if repurge_fault(after_repurges(st, work, nows, from), work[from], nows[from]) is Some {
        from
    } else {
        first_refusal(st, work, nows, from + 1)
    }
}

/// What reapplying the ledger `list` leaves and answers, where the clock reads
/// `nows[k]` when the `k`th session is purged again. The first refusal ends it,
/// with the tombstone of the refused session in place.
pub open spec fn reapply_step(
    before: StoreView,
    after: StoreView,
    list: Seq<LedgerEntry>,
    nows: Seq<int>,
    r: Result<Vec<RepurgedSession>, StoreError>,
) -> bool {
    let st = imported(before, list);
    let work = resurrected(st);
    let k = first_refusal(st, work, nows, 0);
    match first_fault(ledger_of(st)) {
        Some(f) => (r matches Err(e) && e@ == f) && after == st,
        None => after == after_repurges(st, work, nows, k) && if k < work.len() {
            r matches Err(e) && repurge_fault(after, work[k], nows[k]) == Some(e@)
        } else {
            r matches Ok(out) && out@.len() == work.len() && forall|j: int|
                0 <= j < work.len() ==> (#[trigger] out@[j]).reports(
                    after_repurges(st, work, nows, j),
                    work[j],
                )
        },
    }
}

/// How often reapplying the ledger `list` reads the clock at most.
pub open spec fn readings_needed(before: StoreView, list: Seq<LedgerEntry>) -> nat {
    resurrected(imported(before, list)).len()
}

proof fn lemma_later_readings(
    st: StoreView,
    work: Seq<LedgerEntry>,
    nows: Seq<int>,
    i: int,
    now: int,
    k: int,
)
    requires
        k <= i < nows.len(),
    ensures
        after_repurges(st, work, nows.update(i, now), k) == after_repurges(st, work, nows, k),
    decreases k,
{
    if k > 0 {
        lemma_later_readings(st, work, nows, i, now, k - 1);
    }
}

/// The first refusal is a refusal, and the sessions before it can be purged again.
pub(crate) proof fn lemma_first_refusal(
    st: StoreView,
    work: Seq<LedgerEntry>,
    nows: Seq<int>,
    from: int,
)
    requires
        0 <= from <= work.len(),
    ensures
        ({
            let k = first_refusal(st, work, nows, from);
            &&& from <= k <= work.len()
            &&& k < work.len() ==> repurge_fault(
                after_repurges(st, work, nows, k),
                work[k],
                nows[k],
            ) is Some
        }),
    decreases work.len() - from,
{
    if from < work.len() {
        lemma_first_refusal(st, work, nows, from + 1);
    }
}

/// Where the sessions before `k` can all be purged again, the first refusal is not
/// before `k`.
proof fn lemma_no_refusal_before(
    st: StoreView,
    work: Seq<LedgerEntry>,
    nows: Seq<int>,
    from: int,
    k: int,
)
    requires
        0 <= from <= k <= work.len(),
        forall|j: int|
            from <= j < k ==> repurge_fault(
                #[trigger] after_repurges(st, work, nows, j),
                work[j],
                nows[j],
            ) is None,
    ensures
        first_refusal(st, work, nows, from) == first_refusal(st, work, nows, k),
    decreases k - from,
{
    if from < k {
        assert(repurge_fault(
            after_repurges(st, work, nows, from),
            work[from],
            nows[from],
        ) is None);
        lemma_no_refusal_before(st, work, nows, from + 1, k);
    }
}

/// Every one of `nows` is an instant that the clock can show.
pub open spec fn all_clock_readings(nows: Seq<int>) -> bool {
    forall|i: int| 0 <= i < nows.len() ==> clock_reading(#[trigger] nows[i])
}

/// `now` was read off the clock.
pub open spec fn read_off_the_clock(now: int) -> bool {
    exists|m: i64| #[trigger] call_ensures(now_microsecond, (), m) && m == now
}

/// Each instant at which a session of `work` is purged again, or is refused, was read off
/// the clock.
pub open spec fn readings_taken(st: StoreView, work: Seq<LedgerEntry>, nows: Seq<int>) -> bool {
    forall|j: int|
        0 <= j < nows.len() && j <= first_refusal(st, work, nows, 0) ==> read_off_the_clock(
            #[trigger] nows[j],
        )
}

/// The numbers of a list.
pub open spec fn numbers(list: Seq<i64>) -> Seq<int> {
    list.map_values(|m: i64| m as int)
}

/// Import `tombstones` and purge again what came back: at the given instants, or
/// each at the clock's reading where none are given.
fn reapply(
    store: &mut Store,
    tombstones: &Vec<SessionTombstone>,
    given: Option<&Vec<i64>>,
) -> (r: Result<Vec<RepurgedSession>, StoreError>)
    requires
        given matches Some(v) ==> v@.len() >= readings_needed(old(store)@, ledger(tombstones@)),
    ensures
        match given {
            Some(v) => reapply_step(
                old(store)@,
                final(store)@,
                ledger(tombstones@),
                numbers(v@),
                r,
            ),
            None => exists|nows: Seq<int>|
                nows.len() == readings_needed(old(store)@, ledger(tombstones@))
                    && all_clock_readings(nows) && #[trigger] reapply_step(
                    old(store)@,
                    final(store)@,
                    ledger(tombstones@),
                    nows,
                    r,
                ) && {
                    let st = imported(old(store)@, ledger(tombstones@));
                    first_fault(ledger_of(st)) is None ==> readings_taken(
                        st,
                        resurrected(st),
                        nows,
                    )
                },
        },
{
    let ghost before = store@;
    let ghost list = ledger(tombstones@);
    import_tombstones(store, tombstones)?;
    let ghost st = store@;
    let ghost todo = resurrected(st);
    let ghost mut nows: Seq<int> = match given {
        Some(v) => numbers(v@),
        None => Seq::new(todo.len(), |i: int| 0int),
    };
    let work = match resurrected_sessions(store) {
        Ok(work) => work,
        Err(e) => {
            let r: Result<Vec<RepurgedSession>, StoreError> = Err(e);
            assert(reapply_step(before, store@, list, nows, r));
            return r;
        },
    };
    let mut out: Vec<RepurgedSession> = Vec::new();
    let mut k: usize = 0;
    while k < work.len()
        invariant
            before == old(store)@,
            list == ledger(tombstones@),
            st == imported(before, list),
            first_fault(ledger_of(st)) is None,
            todo == resurrected(st),
            todo == ledger(work@),
            k <= work@.len(),
            k == out@.len(),
            todo.len() <= nows.len(),
            given matches Some(v) ==> nows == numbers(v@),
            given is None ==> nows.len() == todo.len() && all_clock_readings(nows),
            given is None ==> forall|j: int|
                0 <= j < k ==> read_off_the_clock(#[trigger] nows[j]),
            store@ == after_repurges(st, todo, nows, k as int),
            forall|j: int|
                0 <= j < k ==> repurge_fault(
                    #[trigger] after_repurges(st, todo, nows, j),
                    todo[j],
                    nows[j],
                ) is None,
            forall|j: int|
                0 <= j < k ==> (#[trigger] out@[j]).reports(
                    after_repurges(st, todo, nows, j),
                    todo[j],
                ),
        decreases work@.len() - k,
    {
        let t = work[k];
        let now: i64 = match given {
            Some(v) => v[k],
            None => now_microsecond(),
        };
        let ghost at = store@;
        proof {
            assert(t@ == todo[k as int]);
            let read = nows.update(k as int, now as int);
            assert(given is None ==> read_off_the_clock(now as int));
            assert forall|j: int| 0 <= j <= k implies #[trigger] after_repurges(st, todo, read, j)
                == after_repurges(st, todo, nows, j) by {
                lemma_later_readings(st, todo, nows, k as int, now as int, j);
            }
            if given is Some {
                assert(read == nows);
            }
            nows = read;
            lemma_no_refusal_before(st, todo, nows, 0, k as int);
        }
        let receipt = match repurge_tombstoned_session_at(store, &t, now) {
            Ok(receipt) => receipt,
            Err(e) => {
                let r: Result<Vec<RepurgedSession>, StoreError> = Err(e);
                assert(first_refusal(st, todo, nows, 0) == k);
                assert(reapply_step(before, store@, list, nows, r));
                return r;
            },
        };
        let repo_paths = scoped_paths(&receipt.removed_pages, &t.workspace_id, &t.project_id);
        let done = RepurgedSession { session_id: t.session_id, repo_paths };
        proof {
            assert(lists_derived_paths(
                at,
                todo[k as int].workspace_id,
                todo[k as int].project_id,
                todo[k as int].session_id,
                page_paths(receipt.removed_pages@),
            ));
            assert(done.reports(at, todo[k as int]));
            assert(after_repurges(st, todo, nows, k + 1) == repurged(at, todo[k as int], now as int));
        }
        out.push(done);
        k = k + 1;
    }
    proof {
        lemma_no_refusal_before(st, todo, nows, 0, todo.len() as int);
    }
    let r: Result<Vec<RepurgedSession>, StoreError> = Ok(out);
    assert(reapply_step(before, store@, list, nows, r));
    r
}

/// Import `tombstones` into the restored database and purge again anything they
/// cover that came back with the snapshot, the `k`th such session at `nows[k]`.
///
/// What [`reapply_ledger`] does, for given clock readings. One for each tombstone of
/// the database and each of `tombstones` is always enough.
pub fn reapply_ledger_at(
    store: &mut Store,
    tombstones: &Vec<SessionTombstone>,
    nows: &Vec<i64>,
) -> (r: Result<Vec<RepurgedSession>, StoreError>)
    requires
        nows@.len() >= readings_needed(old(store)@, ledger(tombstones@)),
    ensures
        reapply_step(
            old(store)@,
            final(store)@,
            ledger(tombstones@),
            numbers(nows@),
            r,
        ),
{
    reapply(store, tombstones, Some(nows))
}

/// Import `tombstones` into the restored database and purge again anything they
/// cover that came back with the snapshot.
///
/// Returns what was purged again, so that the caller can reapply the filesystem
/// and git layers, which the snapshot also restored.
pub fn reapply_ledger(store: &mut Store, tombstones: &Vec<SessionTombstone>) -> (r: Result<
    Vec<RepurgedSession>,
    StoreError,
>)
    ensures
        exists|nows: Seq<int>|
            nows.len() == readings_needed(old(store)@, ledger(tombstones@))
                && all_clock_readings(nows) && #[trigger] reapply_step(
                old(store)@,
                final(store)@,
                ledger(tombstones@),
                nows,
                r,
            ) && {
                let st = imported(old(store)@, ledger(tombstones@));
                first_fault(ledger_of(st)) is None ==> readings_taken(st, resurrected(st), nows)
            },
{
    reapply(store, tombstones, None)
}

} // verus!
