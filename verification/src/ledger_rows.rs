//! What the ledger holds and what reapplying it does, row by row and step by step.

use vstd::prelude::*;

use crate::error::StoreError;
use crate::ids::hyphenated;
use crate::ledger::{
    after_repurges, comes_back, covered, entries, first_fault, first_refusal, imported,
    insert_by_age, law_ordering_keeps_every_entry, ledger, ledger_of, lemma_first_refusal,
    lemma_newest_first_members, newest_first, numbers, present, reapply_step, repo_paths_of,
    repurge_fault, repurged, resurrected, with_imported, RepurgedSession,
};
use crate::order::{before, texts};
use crate::purge_rows::{lemma_filters_agree, lemma_path_comes_from, path_comes_from};
use crate::session_purge::{entry_fault, lists_derived_paths, purged_in, SessionTombstone};
use crate::store::{lemma_filter, LedgerEntry, Store, StoreView, TombstoneRow, TombstoneView};

verus! {

/// A tombstone says what its columns hold, and so does a tombstone row.
pub proof fn law_a_tombstone_says_what_it_holds(t: SessionTombstone, row: TombstoneRow)
    ensures
        t@.session_id == t.session_id@,
        t@.workspace_id == t.workspace_id@,
        t@.project_id == t.project_id@,
        t@.tombstone_id == t.tombstone_id@,
        t@.schema_version == t.schema_version,
        t@.purged_at == t.purged_at.microsecond,
        row@.entry.session_id == row.session_id@,
        row@.entry.workspace_id == row.workspace_id@,
        row@.entry.project_id == row.project_id@,
        row@.entry.tombstone_id == row.tombstone_id@,
        row@.entry.schema_version == row.schema_version,
        row@.entry.purged_at == row.purged_at,
        row.audit_id is None ==> row@.audit_id is None,
        row.audit_id matches Some(i) ==> row@.audit_id == Some(i as int),
{
}

/// A database says what its tables hold, row for row.
pub proof fn law_a_database_says_what_it_holds(s: Store)
    ensures
        s@.sessions == s.sessions@,
        s@.observations == s.observations@,
        s@.handoffs == s.handoffs@,
        s@.jobs == s.jobs@,
        s@.claims == s.claims@,
        s@.runs == s.runs@,
        s@.proposals == s.proposals@,
        s@.events == s.events@,
        s@.rejections == s.rejections@,
        s@.pages == s.pages@,
        s@.entities == s.entities@,
        s@.links == s.links@,
        s@.tombstones.len() == s.tombstones@.len(),
        forall|i: int|
            0 <= i < s.tombstones@.len() ==> #[trigger] s@.tombstones[i] == s.tombstones@[i]@,
        s@.audits.len() == s.audits@.len(),
        forall|i: int|
            0 <= i < s.audits@.len() ==> (#[trigger] s@.audits[i]).action == s.audits@[i].action@
                && s@.audits[i].workspace_id == s.audits@[i].workspace_id@
                && s@.audits[i].project_id == s.audits@[i].project_id@ && s@.audits[i].at
                == s.audits@[i].at,
        s@.refused_paths.len() == s.refused_paths@.len(),
        forall|i: int|
            0 <= i < s.refused_paths@.len() ==> (#[trigger] s@.refused_paths[i]).path
                == s.refused_paths@[i].path@ && s@.refused_paths[i].reason
                == s.refused_paths@[i].reason@,
{
}

/// A list of tombstones says what each says, and a list of instants counts each.
pub proof fn law_a_list_says_what_each_says(list: Seq<SessionTombstone>, nows: Seq<i64>)
    ensures
        ledger(list).len() == list.len(),
        forall|i: int| 0 <= i < list.len() ==> #[trigger] ledger(list)[i] == list[i]@,
        numbers(nows).len() == nows.len(),
        forall|i: int| 0 <= i < nows.len() ==> #[trigger] numbers(nows)[i] == nows[i],
{
}

/// The ledger of a database is the entries of its tombstone rows, each as often as it
/// stands there, and none is newer than one before it.
pub proof fn law_the_ledger_is_every_row(st: StoreView)
    ensures
        ledger_of(st).len() == st.tombstones.len(),
        ledger_of(st).to_multiset() == st.tombstones.map_values(
            |t: TombstoneView| t.entry,
        ).to_multiset(),
        forall|i: int, j: int|
            0 <= i < j < ledger_of(st).len() ==> (#[trigger] ledger_of(st)[i]).purged_at >= (
            #[trigger] ledger_of(st)[j]).purged_at,
        forall|i: int|
            0 <= i < st.tombstones.len() ==> ledger_of(st).contains(
                (#[trigger] st.tombstones[i]).entry,
            ),
{
    law_ordering_keeps_every_entry(entries(st.tombstones));
    assert(entries(st.tombstones) == st.tombstones.map_values(|t: TombstoneView| t.entry));
    assert forall|i: int| 0 <= i < st.tombstones.len() implies ledger_of(st).contains(
        (#[trigger] st.tombstones[i]).entry,
    ) by {
        assert(entries(st.tombstones)[i] == st.tombstones[i].entry);
        assert(entries(st.tombstones).contains(st.tombstones[i].entry));
        lemma_newest_first_members(entries(st.tombstones), st.tombstones[i].entry);
    }
}

/// Entries of one instant stand in the ledger as their rows stand in the table.
pub proof fn law_the_ledger_keeps_the_rows_of_one_instant(st: StoreView, instant: int)
    ensures
        ledger_of(st).filter(|e: LedgerEntry| e.purged_at == instant) == st.tombstones.map_values(
            |t: TombstoneView| t.entry,
        ).filter(|e: LedgerEntry| e.purged_at == instant),
{
    assert(entries(st.tombstones) == st.tombstones.map_values(|t: TombstoneView| t.entry));
    lemma_ordering_is_stable(entries(st.tombstones), instant);
}

proof fn lemma_ordering_is_stable(list: Seq<LedgerEntry>, instant: int)
    ensures
        newest_first(list).filter(|e: LedgerEntry| e.purged_at == instant) == list.filter(
            |e: LedgerEntry| e.purged_at == instant,
        ),
    decreases list.len(),
{
    reveal(Seq::filter);
    if list.len() > 0 {
        lemma_ordering_is_stable(list.drop_last(), instant);
        lemma_insertion_is_stable(newest_first(list.drop_last()), list.last(), instant);
    }
}

proof fn lemma_insertion_is_stable(list: Seq<LedgerEntry>, e: LedgerEntry, instant: int)
    ensures
        insert_by_age(list, e).filter(|x: LedgerEntry| x.purged_at == instant) == if e.purged_at
            == instant {
            list.filter(|x: LedgerEntry| x.purged_at == instant).push(e)
        } else {
            list.filter(|x: LedgerEntry| x.purged_at == instant)
        },
    decreases list.len(),
{
    reveal(Seq::filter);
    if list.len() == 0 || list.last().purged_at >= e.purged_at {
        assert(list.push(e).drop_last() == list);
    } else {
        let rest = list.drop_last();
        lemma_insertion_is_stable(rest, e, instant);
        let put = insert_by_age(rest, e);
        assert(put.push(list.last()).drop_last() == put);
    }
}

/// The ledger can be read exactly where each of its entries can, and else the first that
/// cannot is told.
pub proof fn law_one_bad_entry_spoils_the_ledger(list: Seq<LedgerEntry>)
    ensures
        (forall|i: int|
            0 <= i < list.len() ==> (#[trigger] list[i]).session_id.len() == 16
                && list[i].workspace_id.len() == 16 && list[i].project_id.len() == 16
                && list[i].tombstone_id.len() == 16 && -377705023201000000 <= list[i].purged_at
                <= 253402207200000000) <==> first_fault(list) is None,
        forall|i: int|
            0 <= i < list.len() && entry_fault(#[trigger] list[i]) is Some && (forall|j: int|
                0 <= j < i ==> entry_fault(#[trigger] list[j]) is None) ==> first_fault(list)
                == entry_fault(list[i]),
    decreases list.len(),
{
    if list.len() > 0 {
        let rest = list.drop_first();
        law_one_bad_entry_spoils_the_ledger(rest);
        if first_fault(list) is None {
            assert forall|i: int| 0 <= i < list.len() implies entry_fault(
                #[trigger] list[i],
            ) is None by {
                if i > 0 {
                    assert(rest[i - 1] == list[i]);
                }
            }
        }
        if forall|i: int| 0 <= i < list.len() ==> entry_fault(#[trigger] list[i]) is None {
            assert forall|i: int| 0 <= i < rest.len() implies entry_fault(
                #[trigger] rest[i],
            ) is None by {
                assert(rest[i] == list[i + 1]);
            }
        }
        assert forall|i: int|
            0 <= i < list.len() && entry_fault(#[trigger] list[i]) is Some && (forall|j: int|
                0 <= j < i ==> entry_fault(#[trigger] list[j]) is None) implies first_fault(list)
            == entry_fault(list[i]) by {
            if i > 0 {
                assert(entry_fault(list[0]) is None);
                assert(rest[i - 1] == list[i]);
                assert forall|j: int| 0 <= j < i - 1 implies entry_fault(
                    #[trigger] rest[j],
                ) is None by {
                    assert(rest[j] == list[j + 1]);
                }
            }
        }
    }
}

/// The `k`th entry of the list names a session that no row of the database names, nor an
/// entry before it.
pub open spec fn is_new(st: StoreView, list: Seq<LedgerEntry>, k: int) -> bool {
    &&& 0 <= k < list.len()
    &&& forall|i: int|
        0 <= i < st.tombstones.len() ==> (#[trigger] st.tombstones[i]).entry.session_id
            != list[k].session_id
    &&& forall|j: int| 0 <= j < k ==> (#[trigger] list[j]).session_id != list[k].session_id
}

/// What importing has done once it has gone through the list.
spec fn takes_over(st: StoreView, after: StoreView, list: Seq<LedgerEntry>) -> bool {
    let n = st.tombstones.len() as int;
    &&& after == (StoreView { tombstones: after.tombstones, ..st })
    &&& n <= after.tombstones.len()
    &&& forall|i: int| 0 <= i < n ==> #[trigger] after.tombstones[i] == st.tombstones[i]
    &&& forall|i: int|
        n <= i < after.tombstones.len() ==> (#[trigger] after.tombstones[i]).audit_id is None
            && exists|k: int|
            #[trigger] is_new(st, list, k) && list[k] == after.tombstones[i].entry
    &&& forall|k: int| #[trigger]
        is_new(st, list, k) ==> exists|i: int|
            n <= i < after.tombstones.len() && #[trigger] after.tombstones[i] == (TombstoneView {
                entry: list[k],
                audit_id: None,
            })
    &&& forall|i: int, j: int|
        n <= i < j < after.tombstones.len() ==> (#[trigger] after.tombstones[i]).entry.session_id
            != (#[trigger] after.tombstones[j]).entry.session_id
}

/// What is new is decided by the entries up to it.
proof fn lemma_new_in_front(st: StoreView, list: Seq<LedgerEntry>)
    requires
        list.len() > 0,
    ensures
        forall|k: int|
            0 <= k < list.len() - 1 ==> #[trigger] is_new(st, list.drop_last(), k) == is_new(
                st,
                list,
                k,
            ),
{
    let rest = list.drop_last();
    let last = list.len() - 1;
    assert forall|k: int| 0 <= k < last implies #[trigger] is_new(st, rest, k) == is_new(
        st,
        list,
        k,
    ) by {
        assert(rest[k] == list[k]);
        if is_new(st, rest, k) {
            assert forall|j: int| 0 <= j < k implies (#[trigger] list[j]).session_id
                != list[k].session_id by {
                assert(rest[j] == list[j]);
            }
        }
        if is_new(st, list, k) {
            assert forall|j: int| 0 <= j < k implies (#[trigger] rest[j]).session_id
                != rest[k].session_id by {
                assert(rest[j] == list[j]);
            }
        }
    }
}

/// The last entry of the list is new unless its session is named once the others are taken
/// over.
proof fn lemma_covered_or_new(st: StoreView, part: StoreView, list: Seq<LedgerEntry>)
    requires
        list.len() > 0,
        takes_over(st, part, list.drop_last()),
    ensures
        covered(part, list.last().session_id) == !is_new(st, list, list.len() - 1),
{
    let n = st.tombstones.len() as int;
    let rest = list.drop_last();
    let last = list.len() - 1;
    let s = list.last().session_id;
    lemma_new_in_front(st, list);
    if covered(part, s) {
        let i = choose|i: int|
            0 <= i < part.tombstones.len() && (
            #[trigger] part.tombstones[i]).entry.session_id == s;
        if i < n {
            assert(st.tombstones[i].entry.session_id == s);
        } else {
            let k = choose|k: int|
                #[trigger] is_new(st, rest, k) && rest[k] == part.tombstones[i].entry;
            assert(list[k].session_id == s);
        }
    } else {
        assert forall|i: int| 0 <= i < n implies (
        #[trigger] st.tombstones[i]).entry.session_id != s by {
            assert(part.tombstones[i].entry.session_id != s);
        }
        assert forall|j: int| 0 <= j < last implies (#[trigger] list[j]).session_id
            != s by {
            if list[j].session_id == s {
                if named(st, s) {
                    let i = choose|i: int|
                        0 <= i < st.tombstones.len() && (
                        #[trigger] st.tombstones[i]).entry.session_id == s;
                    assert(part.tombstones[i].entry.session_id == s);
                } else {
                    lemma_somewhere_new(st, list, j);
                    let m = choose|m: int|
                        0 <= m <= j && #[trigger] is_new(st, list, m)
                            && list[m].session_id == s;
                    assert(is_new(st, rest, m));
                    let i = choose|i: int|
                        n <= i < part.tombstones.len() && #[trigger] part.tombstones[i]
                            == (TombstoneView { entry: rest[m], audit_id: None });
                    assert(part.tombstones[i].entry.session_id == s);
                }
            }
        }
    }
}

proof fn lemma_takes_over(st: StoreView, list: Seq<LedgerEntry>)
    ensures
        takes_over(st, imported(st, list), list),
    decreases list.len(),
{
    let n = st.tombstones.len() as int;
    let after = imported(st, list);
    if list.len() > 0 {
        let rest = list.drop_last();
        let part = imported(st, rest);
        let last = list.len() - 1;
        lemma_takes_over(st, rest);
        assert(after == with_imported(part, list.last()));
        lemma_new_in_front(st, list);
        let s = list.last().session_id;
        lemma_covered_or_new(st, part, list);
        assert forall|i: int| n <= i < after.tombstones.len() implies (
        #[trigger] after.tombstones[i]).audit_id is None && exists|k: int|
            #[trigger] is_new(st, list, k) && list[k] == after.tombstones[i].entry by {
            if i < part.tombstones.len() {
                assert(after.tombstones[i] == part.tombstones[i]);
                let k = choose|k: int|
                    #[trigger] is_new(st, rest, k) && rest[k] == part.tombstones[i].entry;
                assert(is_new(st, list, k) && list[k] == after.tombstones[i].entry);
            } else {
                assert(is_new(st, list, last) && list[last] == after.tombstones[i].entry);
            }
        }
        assert forall|k: int| #[trigger] is_new(st, list, k) implies exists|i: int|
            n <= i < after.tombstones.len() && #[trigger] after.tombstones[i] == (TombstoneView {
                entry: list[k],
                audit_id: None,
            }) by {
            if k < last {
                assert(is_new(st, rest, k));
                let i = choose|i: int|
                    n <= i < part.tombstones.len() && #[trigger] part.tombstones[i] == (
                    TombstoneView { entry: rest[k], audit_id: None });
                assert(after.tombstones[i] == part.tombstones[i]);
            } else {
                assert(after.tombstones[part.tombstones.len() as int].entry == list[k]);
            }
        }
        assert forall|i: int, j: int| n <= i < j < after.tombstones.len() implies (
        #[trigger] after.tombstones[i]).entry.session_id != (
        #[trigger] after.tombstones[j]).entry.session_id by {
            assert(after.tombstones[i] == part.tombstones[i]);
            if j < part.tombstones.len() {
                assert(after.tombstones[j] == part.tombstones[j]);
            } else {
                assert(!covered(part, s));
            }
        }
        assert forall|i: int| 0 <= i < n implies #[trigger] after.tombstones[i]
            == st.tombstones[i] by {
            assert(part.tombstones[i] == st.tombstones[i]);
        }
    } else {
        assert forall|k: int| !#[trigger] is_new(st, list, k) by {}
    }
}

/// Some tombstone row names the session.
pub open spec fn named(st: StoreView, session: Seq<u8>) -> bool {
    exists|i: int|
        0 <= i < st.tombstones.len() && (#[trigger] st.tombstones[i]).entry.session_id == session
}

/// Of the entries of one session that no row names, the first is new.
proof fn lemma_somewhere_new(st: StoreView, list: Seq<LedgerEntry>, j: int)
    requires
        0 <= j < list.len(),
        !named(st, list[j].session_id),
    ensures
        exists|m: int|
            0 <= m <= j && #[trigger] is_new(st, list, m) && list[m].session_id
                == list[j].session_id,
    decreases j,
{
    let s = list[j].session_id;
    if exists|i: int| 0 <= i < j && (#[trigger] list[i]).session_id == s {
        let i = choose|i: int| 0 <= i < j && (#[trigger] list[i]).session_id == s;
        lemma_somewhere_new(st, list, i);
    } else {
        assert(is_new(st, list, j));
    }
}

/// Importing a ledger changes no table but the tombstones, keeps the rows that were there,
/// and adds one row for each session that no row named: the first entry of the list for
/// it, as it stands, without an audit record. Every session so added is purged in the
/// scope that its entry names.
pub proof fn law_import_by_the_rows(st: StoreView, list: Seq<LedgerEntry>)
    ensures
        ({
            let after = imported(st, list);
            let n = st.tombstones.len() as int;
            &&& after.sessions == st.sessions
            &&& after.observations == st.observations
            &&& after.handoffs == st.handoffs
            &&& after.jobs == st.jobs
            &&& after.claims == st.claims
            &&& after.runs == st.runs
            &&& after.proposals == st.proposals
            &&& after.events == st.events
            &&& after.rejections == st.rejections
            &&& after.pages == st.pages
            &&& after.entities == st.entities
            &&& after.links == st.links
            &&& after.audits == st.audits
            &&& after.refused_paths == st.refused_paths
            &&& n <= after.tombstones.len()
            &&& forall|i: int| 0 <= i < n ==> #[trigger] after.tombstones[i] == st.tombstones[i]
            &&& forall|i: int|
                n <= i < after.tombstones.len() ==> (
                #[trigger] after.tombstones[i]).audit_id is None && exists|k: int|
                    #[trigger] is_new(st, list, k) && list[k] == after.tombstones[i].entry
            &&& forall|k: int| #[trigger]
                is_new(st, list, k) ==> exists|i: int|
                    n <= i < after.tombstones.len() && #[trigger] after.tombstones[i] == (
                    TombstoneView { entry: list[k], audit_id: None })
            &&& forall|i: int, j: int|
                n <= i < j < after.tombstones.len() ==> (
                #[trigger] after.tombstones[i]).entry.session_id != (
                #[trigger] after.tombstones[j]).entry.session_id
            &&& forall|k: int| #[trigger]
                is_new(st, list, k) ==> purged_in(
                    after,
                    list[k].workspace_id,
                    list[k].project_id,
                    list[k].session_id,
                )
        }),
{
    let after = imported(st, list);
    let n = st.tombstones.len() as int;
    lemma_takes_over(st, list);
    assert forall|k: int| #[trigger] is_new(st, list, k) implies purged_in(
        after,
        list[k].workspace_id,
        list[k].project_id,
        list[k].session_id,
    ) by {
        let i = choose|i: int|
            n <= i < after.tombstones.len() && #[trigger] after.tombstones[i] == (TombstoneView {
                entry: list[k],
                audit_id: None,
            });
        assert(after.tombstones[i].entry.session_id == list[k].session_id);
    }
}

/// Importing goes entry by entry, in order: nothing for none; for one, its row at the end,
/// unless a row names the session; and two lists, one behind the other, are imported one
/// after the other.
pub proof fn law_import_goes_entry_by_entry(
    st: StoreView,
    a: Seq<LedgerEntry>,
    b: Seq<LedgerEntry>,
)
    ensures
        a.len() == 0 ==> imported(st, a) == st,
        a.len() == 1 ==> imported(st, a).tombstones == if named(st, a[0].session_id) {
            st.tombstones
        } else {
            st.tombstones.push(TombstoneView { entry: a[0], audit_id: None })
        },
        imported(st, a + b) == imported(imported(st, a), b),
    decreases b.len(),
{
    if a.len() == 1 {
        assert(imported(st, a.drop_last()) == st);
        assert(covered(st, a[0].session_id) == named(st, a[0].session_id));
    }
    if b.len() == 0 {
        assert(a + b == a);
    } else {
        law_import_goes_entry_by_entry(st, a, b.drop_last());
        assert((a + b).drop_last() == a + b.drop_last());
        assert((a + b).last() == b.last());
    }
}

/// Some session row has this id.
pub open spec fn has_row(st: StoreView, session: Seq<u8>) -> bool {
    exists|j: int| 0 <= j < st.sessions.len() && (#[trigger] st.sessions[j]).id@ == session
}

/// What came back is the part of the ledger, in its order, whose session has a row.
/// Nothing came back exactly where no session row has the id that a tombstone names.
pub proof fn law_what_came_back_by_the_rows(st: StoreView)
    ensures
        resurrected(st) == ledger_of(st).filter(|e: LedgerEntry| has_row(st, e.session_id)),
        resurrected(st).len() == 0 <==> forall|i: int, j: int|
            0 <= i < st.tombstones.len() && 0 <= j < st.sessions.len() ==> (
            #[trigger] st.sessions[j]).id@ != (#[trigger] st.tombstones[i]).entry.session_id,
{
    assert forall|s: Seq<u8>| #[trigger] present(st, s) == has_row(st, s) by {}
    lemma_filters_agree(
        ledger_of(st),
        comes_back(st),
        |e: LedgerEntry| has_row(st, e.session_id),
    );
    lemma_filter(ledger_of(st), comes_back(st));
    if resurrected(st).len() == 0 {
        assert forall|i: int, j: int|
            0 <= i < st.tombstones.len() && 0 <= j < st.sessions.len() implies (
        #[trigger] st.sessions[j]).id@ != (#[trigger] st.tombstones[i]).entry.session_id by {
            let e = st.tombstones[i].entry;
            assert(entries(st.tombstones)[i] == e);
            assert(entries(st.tombstones).contains(e));
            lemma_newest_first_members(entries(st.tombstones), e);
            if st.sessions[j].id@ == e.session_id {
                assert(present(st, e.session_id));
                assert(resurrected(st).contains(e));
            }
        }
    } else {
        let e = resurrected(st)[0];
        assert(resurrected(st).contains(e));
        lemma_newest_first_members(entries(st.tombstones), e);
        let i = choose|i: int|
            0 <= i < entries(st.tombstones).len() && entries(st.tombstones)[i] == e;
        let j = choose|j: int|
            0 <= j < st.sessions.len() && (#[trigger] st.sessions[j]).id@ == e.session_id;
        assert(st.sessions[j].id@ == st.tombstones[i].entry.session_id);
    }
}

/// `states` lead from `st` through the first entries of `work`: each is what the one
/// before becomes when the next session is purged again at its instant, and none of
/// these purges is refused.
pub open spec fn leads_through(
    st: StoreView,
    work: Seq<LedgerEntry>,
    nows: Seq<int>,
    states: Seq<StoreView>,
) -> bool {
    &&& 1 <= states.len() <= work.len() + 1
    &&& states[0] == st
    &&& forall|j: int|
        0 <= j < states.len() - 1 ==> repurge_fault(
            #[trigger] states[j],
            work[j],
            nows[j],
        ) is None && states[j + 1] == repurged(states[j], work[j], nows[j])
}

/// The paths that the report gives are those of which a version came from the session in
/// `st`, each once and in order, below `<workspace>/<project>/`.
pub open spec fn gives_paths(
    st: StoreView,
    e: LedgerEntry,
    report: RepurgedSession,
    paths: Seq<Seq<char>>,
) -> bool {
    &&& forall|i: int, j: int|
        0 <= i < j < paths.len() ==> before(#[trigger] paths[i], #[trigger] paths[j])
    &&& forall|p: Seq<char>| #[trigger]
        paths.contains(p) <==> path_comes_from(
            st,
            e.workspace_id,
            e.project_id,
            e.session_id,
            p,
        )
    &&& report.repo_paths@.len() == paths.len()
    &&& forall|i: int|
        0 <= i < paths.len() ==> (#[trigger] report.repo_paths@[i])@ == hyphenated(
            e.workspace_id,
        ) + "/"@ + hyphenated(e.project_id) + "/"@ + paths[i]
}

/// The report names the session of `e` and gives the paths that its pages have in `st`.
pub open spec fn tells_of(st: StoreView, e: LedgerEntry, report: RepurgedSession) -> bool {
    report.session_id@ == e.session_id && exists|paths: Seq<Seq<char>>| #[trigger]
        gives_paths(st, e, report, paths)
}

/// The last of `states` is what is left. Where it is reached through all of `work`, the
/// answer gives each session, in order, with the paths that its pages had when it was
/// purged again; else the answer is why the next session could not be purged there.
pub open spec fn ends_with(
    work: Seq<LedgerEntry>,
    nows: Seq<int>,
    states: Seq<StoreView>,
    after: StoreView,
    r: Result<Vec<RepurgedSession>, StoreError>,
) -> bool {
    &&& after == states.last()
    &&& match r {
        Err(e) => states.len() <= work.len() && repurge_fault(
            after,
            work[states.len() - 1],
            nows[states.len() - 1],
        ) == Some(e@),
        Ok(out) => states.len() == work.len() + 1 && out@.len() == work.len() && forall|j: int|
            0 <= j < work.len() ==> tells_of(states[j], work[j], #[trigger] out@[j]),
    }
}

/// Reapplying a ledger imports it, and then purges again, one after another, each session
/// that came back. A ledger that cannot be read ends it before the first purge; the first
/// refused purge ends it there and names the error. Else it answers, in order, with each
/// of the sessions and with where its pages sat.
pub proof fn law_reapply_goes_step_by_step(
    st: StoreView,
    after: StoreView,
    list: Seq<LedgerEntry>,
    nows: Seq<int>,
    r: Result<Vec<RepurgedSession>, StoreError>,
)
    requires
        reapply_step(st, after, list, nows, r),
    ensures
        ({
            let had = imported(st, list);
            match first_fault(ledger_of(had)) {
                Some(f) => (r matches Err(e) && e@ == f) && after == had,
                None => exists|states: Seq<StoreView>| #[trigger]
                    leads_through(had, resurrected(had), nows, states) && ends_with(
                        resurrected(had),
                        nows,
                        states,
                        after,
                        r,
                    ),
            }
        }),
{
    let had = imported(st, list);
    let work = resurrected(had);
    if first_fault(ledger_of(had)) is None {
        let k = first_refusal(had, work, nows, 0);
        lemma_first_refusal(had, work, nows, 0);
        lemma_none_before(had, work, nows, 0);
        let states = Seq::new((k + 1) as nat, |j: int| after_repurges(had, work, nows, j));
        assert forall|j: int| 0 <= j < states.len() - 1 implies repurge_fault(
            #[trigger] states[j],
            work[j],
            nows[j],
        ) is None && states[j + 1] == repurged(states[j], work[j], nows[j]) by {
            assert(states[j] == after_repurges(had, work, nows, j));
            assert(states[j + 1] == after_repurges(had, work, nows, j + 1));
        }
        assert(states[0] == had);
        assert(leads_through(had, work, nows, states));
        assert(states.last() == after_repurges(had, work, nows, k));
        if let Ok(out) = r {
            assert forall|j: int| 0 <= j < work.len() implies tells_of(
                states[j],
                work[j],
                #[trigger] out@[j],
            ) by {
                let e = work[j];
                let s = after_repurges(had, work, nows, j);
                assert(states[j] == s);
                assert(out@[j].reports(s, e));
                let paths = choose|paths: Seq<Seq<char>>| #[trigger]
                    lists_derived_paths(s, e.workspace_id, e.project_id, e.session_id, paths)
                        && texts(out@[j].repo_paths@) == repo_paths_of(
                        e.workspace_id,
                        e.project_id,
                        paths,
                    );
                assert forall|p: Seq<char>| #[trigger] paths.contains(p) <==> path_comes_from(
                    s,
                    e.workspace_id,
                    e.project_id,
                    e.session_id,
                    p,
                ) by {
                    lemma_path_comes_from(s, e.workspace_id, e.project_id, e.session_id, p);
                }
                let given = out@[j].repo_paths@;
                assert(texts(given).len() == given.len());
                assert forall|i: int| 0 <= i < paths.len() implies (#[trigger] given[i])@
                    == hyphenated(e.workspace_id) + "/"@ + hyphenated(e.project_id) + "/"@
                    + paths[i] by {
                    assert(texts(given)[i] == given[i]@);
                    assert(repo_paths_of(e.workspace_id, e.project_id, paths)[i]
                        == texts(given)[i]);
                }
                assert(gives_paths(s, e, out@[j], paths));
            }
        }
        assert(ends_with(work, nows, states, after, r));
    }
}

/// No purge before the first refusal is refused.
proof fn lemma_none_before(st: StoreView, work: Seq<LedgerEntry>, nows: Seq<int>, from: int)
    requires
        0 <= from <= work.len(),
    ensures
        forall|j: int|
            from <= j < first_refusal(st, work, nows, from) ==> repurge_fault(
                #[trigger] after_repurges(st, work, nows, j),
                work[j],
                nows[j],
            ) is None,
    decreases work.len() - from,
{
    if from < work.len() {
        lemma_none_before(st, work, nows, from + 1);
    }
}

} // verus!
