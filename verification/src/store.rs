//! The tables that a purge reads and cuts: of each row the columns that say what
//! it is derived from, and the `rowid` it is found by. No row holds content.

use vstd::prelude::*;

verus! {

/// A nullable identifier column that holds `id`.
pub open spec fn links_to(column: Option<Vec<u8>>, id: Seq<u8>) -> bool {
    column matches Some(v) && v@ == id
}

/// A `sessions` row.
#[derive(Debug, Clone)]
pub struct SessionRow {
    pub id: Vec<u8>,
    pub workspace_id: Vec<u8>,
    pub project_id: Vec<u8>,
    /// `None` while the session is open.
    pub ended_at: Option<i64>,
}

/// An `observations` row.
#[derive(Debug, Clone)]
pub struct ObservationRow {
    pub rowid: i64,
    pub session_id: Vec<u8>,
}

/// A `handoffs` row. Both links go null when their session is deleted.
#[derive(Debug, Clone)]
pub struct HandoffRow {
    pub rowid: i64,
    pub from_session_id: Option<Vec<u8>>,
    pub accepted_by_session: Option<Vec<u8>>,
}

/// A `session_consolidation_jobs` row.
#[derive(Debug, Clone)]
pub struct JobRow {
    pub rowid: i64,
    pub session_id: Vec<u8>,
    pub state: String,
}

/// An `auto_improve_scheduler_claims` row.
#[derive(Debug, Clone)]
pub struct ClaimRow {
    pub rowid: i64,
    pub session_id: Vec<u8>,
}

/// An `auto_improve_runs` row.
#[derive(Debug, Clone)]
pub struct RunRow {
    pub rowid: i64,
    pub id: Vec<u8>,
    pub source_session_id: Option<Vec<u8>>,
    pub session_id: Option<Vec<u8>>,
}

/// An `auto_improve_proposals` row.
#[derive(Debug, Clone)]
pub struct ProposalRow {
    pub rowid: i64,
    pub id: Vec<u8>,
    pub run_id: Vec<u8>,
    pub applied_page_id: Option<Vec<u8>>,
}

/// An `auto_improve_proposal_events` row.
#[derive(Debug, Clone)]
pub struct EventRow {
    pub rowid: i64,
    pub proposal_id: Vec<u8>,
}

/// An `auto_improve_rejections` row.
#[derive(Debug, Clone)]
pub struct RejectionRow {
    pub rowid: i64,
    pub source_session_id: Option<Vec<u8>>,
    pub source_run_id: Option<Vec<u8>>,
    pub source_proposal_id: Option<Vec<u8>>,
}

/// A `pages` row: one version of the page at `path`.
#[derive(Debug, Clone)]
pub struct PageRow {
    pub rowid: i64,
    pub id: Vec<u8>,
    pub workspace_id: Vec<u8>,
    pub project_id: Vec<u8>,
    pub path: String,
    pub source_session_id: Option<Vec<u8>>,
}

/// An `entities` row.
#[derive(Debug, Clone)]
pub struct EntityRow {
    pub rowid: i64,
    pub id: Vec<u8>,
    pub workspace_id: Vec<u8>,
    pub project_id: Vec<u8>,
}

/// An `entity_page_links` row. It goes with the page version it links.
#[derive(Debug, Clone)]
pub struct LinkRow {
    pub rowid: i64,
    pub entity_id: Vec<u8>,
    pub page_id: Vec<u8>,
}

/// A `session_tombstones` row, as stored.
#[derive(Debug, Clone)]
pub struct TombstoneRow {
    pub session_id: Vec<u8>,
    pub workspace_id: Vec<u8>,
    pub project_id: Vec<u8>,
    pub tombstone_id: Vec<u8>,
    pub schema_version: i64,
    pub purged_at: i64,
    /// Position of the audit record of the purge, if it happened here.
    pub audit_id: Option<usize>,
}

/// An audit record. It names the scope, never what was deleted.
#[derive(Debug, Clone)]
pub struct AuditRow {
    pub action: String,
    pub workspace_id: Vec<u8>,
    pub project_id: Vec<u8>,
    pub at: i64,
}

/// What a tombstone records.
#[verifier::ext_equal]
pub struct LedgerEntry {
    pub session_id: Seq<u8>,
    pub workspace_id: Seq<u8>,
    pub project_id: Seq<u8>,
    pub tombstone_id: Seq<u8>,
    pub schema_version: int,
    pub purged_at: int,
}

/// A tombstone row: the record, and where its audit record is.
#[verifier::ext_equal]
pub struct TombstoneView {
    pub entry: LedgerEntry,
    pub audit_id: Option<int>,
}

impl View for TombstoneRow {
    type V = TombstoneView;

    open spec fn view(&self) -> TombstoneView {
        TombstoneView {
            entry: LedgerEntry {
                session_id: self.session_id@,
                workspace_id: self.workspace_id@,
                project_id: self.project_id@,
                tombstone_id: self.tombstone_id@,
                schema_version: self.schema_version as int,
                purged_at: self.purged_at as int,
            },
            audit_id: match self.audit_id {
                Some(i) => Some(i as int),
                None => None,
            },
        }
    }
}

/// What an audit record says.
#[verifier::ext_equal]
pub struct AuditView {
    pub action: Seq<char>,
    pub workspace_id: Seq<u8>,
    pub project_id: Seq<u8>,
    pub at: int,
}

impl View for AuditRow {
    type V = AuditView;

    open spec fn view(&self) -> AuditView {
        AuditView {
            action: self.action@,
            workspace_id: self.workspace_id@,
            project_id: self.project_id@,
            at: self.at as int,
        }
    }
}

/// A stored path that is not accepted as a page path, and what is wrong with it.
#[derive(Debug, Clone)]
pub struct PathRefusal {
    pub path: String,
    pub reason: String,
}

/// What is said of a stored path.
pub struct PathRefusalView {
    pub path: Seq<char>,
    pub reason: Seq<char>,
}

impl View for PathRefusal {
    type V = PathRefusalView;

    open spec fn view(&self) -> PathRefusalView {
        PathRefusalView { path: self.path@, reason: self.reason@ }
    }
}

/// The database, as far as a purge is concerned.
#[derive(Debug, Clone)]
pub struct Store {
    pub sessions: Vec<SessionRow>,
    pub observations: Vec<ObservationRow>,
    pub handoffs: Vec<HandoffRow>,
    pub jobs: Vec<JobRow>,
    pub claims: Vec<ClaimRow>,
    pub runs: Vec<RunRow>,
    pub proposals: Vec<ProposalRow>,
    pub events: Vec<EventRow>,
    pub rejections: Vec<RejectionRow>,
    pub pages: Vec<PageRow>,
    pub entities: Vec<EntityRow>,
    pub links: Vec<LinkRow>,
    pub tombstones: Vec<TombstoneRow>,
    pub audits: Vec<AuditRow>,
    /// The stored page paths that did not pass the check of their form.
    pub refused_paths: Vec<PathRefusal>,
}

/// The contents of a [`Store`].
#[verifier::ext_equal]
pub struct StoreView {
    pub sessions: Seq<SessionRow>,
    pub observations: Seq<ObservationRow>,
    pub handoffs: Seq<HandoffRow>,
    pub jobs: Seq<JobRow>,
    pub claims: Seq<ClaimRow>,
    pub runs: Seq<RunRow>,
    pub proposals: Seq<ProposalRow>,
    pub events: Seq<EventRow>,
    pub rejections: Seq<RejectionRow>,
    pub pages: Seq<PageRow>,
    pub entities: Seq<EntityRow>,
    pub links: Seq<LinkRow>,
    pub tombstones: Seq<TombstoneView>,
    pub audits: Seq<AuditView>,
    pub refused_paths: Seq<PathRefusalView>,
}

/// The byte strings that a list of byte vectors holds.
pub open spec fn blobs(v: Seq<Vec<u8>>) -> Seq<Seq<u8>> {
    v.map_values(|b: Vec<u8>| b@)
}

impl View for Store {
    type V = StoreView;

    open spec fn view(&self) -> StoreView {
        StoreView {
            sessions: self.sessions@,
            observations: self.observations@,
            handoffs: self.handoffs@,
            jobs: self.jobs@,
            claims: self.claims@,
            runs: self.runs@,
            proposals: self.proposals@,
            events: self.events@,
            rejections: self.rejections@,
            pages: self.pages@,
            entities: self.entities@,
            links: self.links@,
            tombstones: self.tombstones@.map_values(|t: TombstoneRow| t@),
            audits: self.audits@.map_values(|a: AuditRow| a@),
            refused_paths: self.refused_paths@.map_values(|p: PathRefusal| p@),
        }
    }
}

impl StoreView {
    /// The keys that the schema keeps unique: at most one row per session, and
    /// at most one tombstone per session.
    pub open spec fn unique_keys(self) -> bool {
        &&& forall|i: int, j: int|
            0 <= i < j < self.sessions.len() ==> (#[trigger] self.sessions[i]).id@ != (
            #[trigger] self.sessions[j]).id@
        &&& forall|i: int, j: int|
            0 <= i < j < self.tombstones.len() ==> (
            #[trigger] self.tombstones[i]).entry.session_id != (
            #[trigger] self.tombstones[j]).entry.session_id
    }
}

impl Store {
    /// A database without rows.
    pub fn new() -> (s: Store)
        ensures
            s@ == (StoreView {
                sessions: Seq::empty(),
                observations: Seq::empty(),
                handoffs: Seq::empty(),
                jobs: Seq::empty(),
                claims: Seq::empty(),
                runs: Seq::empty(),
                proposals: Seq::empty(),
                events: Seq::empty(),
                rejections: Seq::empty(),
                pages: Seq::empty(),
                entities: Seq::empty(),
                links: Seq::empty(),
                tombstones: Seq::empty(),
                audits: Seq::empty(),
                refused_paths: Seq::empty(),
            }),
            s@.unique_keys(),
    {
        Store {
            sessions: Vec::new(),
            observations: Vec::new(),
            handoffs: Vec::new(),
            jobs: Vec::new(),
            claims: Vec::new(),
            runs: Vec::new(),
            proposals: Vec::new(),
            events: Vec::new(),
            rejections: Vec::new(),
            pages: Vec::new(),
            entities: Vec::new(),
            links: Vec::new(),
            tombstones: Vec::new(),
            audits: Vec::new(),
            refused_paths: Vec::new(),
        }
    }
}

/// Delete the rows that `doomed` picks, keeping the others in their order, and
/// count them.
pub(crate) fn delete_where<T, F: Fn(&T) -> bool>(
    rows: &mut Vec<T>,
    doomed: F,
    Ghost(keep): Ghost<spec_fn(T) -> bool>,
) -> (removed: usize)
    requires
        forall|t: T| #[trigger] doomed.requires((&t,)),
        forall|t: T, b: bool| #[trigger] doomed.ensures((&t,), b) ==> b == !keep(t),
    ensures
        final(rows)@ == old(rows)@.filter(keep),
        removed == old(rows)@.len() - final(rows)@.len(),
{
    let ghost all = rows@;
    let total: usize = rows.len();
    let mut taken: Vec<T> = Vec::new();
    std::mem::swap(rows, &mut taken);
    let mut removed: usize = 0;
    for row in it: taken
        invariant
            forall|t: T| #[trigger] doomed.requires((&t,)),
            forall|t: T, b: bool| #[trigger] doomed.ensures((&t,), b) ==> b == !keep(t),
            it.seq() == all,
            rows@ == all.take(it.index()).filter(keep),
            removed + rows@.len() == it.index(),
            all.len() == total,
    {
        proof {
            assert(all.take(it.index() + 1).drop_last() == all.take(it.index()));
            assert(all.take(it.index() + 1).last() == row);
            reveal(Seq::filter);
        }
        if doomed(&row) {
            removed = removed + 1;
        } else {
            rows.push(row);
        }
    }
    assert(all.take(all.len() as int) == all);
    removed
}

/// What a filter leaves: exactly the rows that it picks.
pub proof fn lemma_filter<T>(rows: Seq<T>, keep: spec_fn(T) -> bool)
    ensures
        forall|t: T| #[trigger] rows.filter(keep).contains(t) <==> rows.contains(t) && keep(t),
        forall|i: int|
            0 <= i < rows.filter(keep).len() ==> keep(#[trigger] rows.filter(keep)[i])
                && rows.contains(rows.filter(keep)[i]),
        rows.filter(keep).len() <= rows.len(),
    decreases rows.len(),
{
    reveal(Seq::filter);
    if rows.len() > 0 {
        let rest = rows.drop_last();
        let left = rest.filter(keep);
        lemma_filter(rest, keep);
        assert(rows == rest.push(rows.last()));
        assert forall|t: T| #[trigger] rows.filter(keep).contains(t) <==> rows.contains(t) && keep(
            t,
        ) by {
            if rows.contains(t) && keep(t) {
                if t == rows.last() {
                    assert(rows.filter(keep).last() == t);
                } else {
                    let k = choose|k: int| 0 <= k < rows.len() && rows[k] == t;
                    assert(rest[k] == t);
                    assert(left.contains(t));
                    let m = choose|m: int| 0 <= m < left.len() && left[m] == t;
                    assert(rows.filter(keep)[m] == t);
                }
            }
            if rows.filter(keep).contains(t) {
                let m = choose|m: int|
                    0 <= m < rows.filter(keep).len() && rows.filter(keep)[m] == t;
                if m < left.len() {
                    assert(left.contains(t));
                    let k = choose|k: int| 0 <= k < rest.len() && rest[k] == t;
                    assert(rows[k] == t);
                } else {
                    assert(rows[rows.len() - 1] == t);
                }
            }
        }
        assert forall|i: int| 0 <= i < rows.filter(keep).len() implies keep(
            #[trigger] rows.filter(keep)[i],
        ) && rows.contains(rows.filter(keep)[i]) by {
            assert(rows.filter(keep).contains(rows.filter(keep)[i]));
        }
    }
}

/// A filter that picks every row leaves them all.
pub proof fn lemma_filter_all<T>(rows: Seq<T>, keep: spec_fn(T) -> bool)
    requires
        forall|i: int| 0 <= i < rows.len() ==> keep(#[trigger] rows[i]),
    ensures
        rows.filter(keep) == rows,
    decreases rows.len(),
{
    reveal(Seq::filter);
    if rows.len() > 0 {
        assert forall|i: int| 0 <= i < rows.drop_last().len() implies keep(
            #[trigger] rows.drop_last()[i],
        ) by {
            assert(keep(rows[i]));
        }
        lemma_filter_all(rows.drop_last(), keep);
        assert(rows == rows.drop_last().push(rows.last()));
    }
}

} // verus!
