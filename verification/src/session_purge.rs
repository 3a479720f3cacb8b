//! Strong per-session deletion: the relational half.
//!
//! A purge removes a session and everything derived from it, and records a
//! content-free tombstone. Wiki files, sidecars and git objects are the caller's
//! to remove, driven by the paths that the receipt names.
//!
//! Two rules shape it:
//!
//! 1. **Collect before cutting.** The links that identify derived rows go null
//!    when the session row goes, so every target is resolved first.
//! 2. **Identity only, never text.** Targets are chosen by identifier, link, or
//!    the deterministic `sessions/<uuid>.md` path.

use vstd::prelude::*;

use crate::clock::{
    clock_reading, now_microsecond, range_error_text, readable_instant, Timestamp,
};
use crate::error::{Fault, StoreError};
use crate::ids::{
    bytes_of, hyphenated, is_random_id, same_bytes, sixteen, ProjectId, SessionId, Uuid,
    WorkspaceId,
};
use crate::order::{before, insert_distinct, lemma_before_asymmetric, strictly_sorted, texts};
use crate::store::{
    blobs, delete_where, links_to, AuditRow, AuditView, ClaimRow, EntityRow, EventRow, HandoffRow,
    JobRow, LedgerEntry, LinkRow, ObservationRow, PageRow, PathRefusalView, ProposalRow,
    RejectionRow, RunRow, SessionRow, Store, StoreView, TombstoneRow, TombstoneView,
};
use crate::text::{joined, same_text};

verus! {

/// Contract version stamped on every tombstone written here.
///
/// A restore reapplies tombstones written by older builds, so a reader must be
/// able to tell which guarantees a row was produced under.
pub const SESSION_PURGE_SCHEMA_VERSION: i64 = 1;

/// Whether the purge did the work or found it already done.
#[derive(Clone, Copy, Debug, PartialEq, Eq, Structural)]
pub enum SessionPurgeStatus {
    /// The session existed and was removed by this call.
    Purged,
    /// A tombstone already covered this session; nothing was left to remove.
    AlreadyPurged,
}

impl SessionPurgeStatus {
    /// Stable wire representation for the receipt.
    pub fn as_str(self) -> (s: &'static str)
        ensures
            self is Purged ==> s@ == "purged"@,
            self is AlreadyPurged ==> s@ == "already_purged"@,
    {
        match self {
            SessionPurgeStatus::Purged => "purged",
            SessionPurgeStatus::AlreadyPurged => "already_purged",
        }
    }
}

/// Rows removed, per layer. Counts never carry deleted content.
#[derive(Clone, Copy, Debug, PartialEq, Eq, Structural)]
pub struct SessionPurgeCounts {
    /// `sessions` rows (0 or 1).
    pub sessions: u64,
    /// `observations` rows.
    pub observations: u64,
    /// Handoffs produced by, or accepted by, this session.
    pub handoffs: u64,
    /// Queued consolidation jobs.
    pub consolidation_jobs: u64,
    /// Auto-improvement scheduler claims.
    pub auto_improve_scheduler_claims: u64,
    /// Auto-improvement runs derived from this session.
    pub auto_improve_runs: u64,
    /// Proposals staged by those runs.
    pub auto_improve_proposals: u64,
    /// Lifecycle events of those proposals.
    pub auto_improve_proposal_events: u64,
    /// Rejections whose evidence came from this session.
    pub auto_improve_rejections: u64,
    /// Page versions removed across every affected path.
    pub page_versions: u64,
}

impl Default for SessionPurgeCounts {
    fn default() -> (c: SessionPurgeCounts)
        ensures
            c.is_zero(),
    {
        SessionPurgeCounts {
            sessions: 0,
            observations: 0,
            handoffs: 0,
            consolidation_jobs: 0,
            auto_improve_scheduler_claims: 0,
            auto_improve_runs: 0,
            auto_improve_proposals: 0,
            auto_improve_proposal_events: 0,
            auto_improve_rejections: 0,
            page_versions: 0,
        }
    }
}

impl SessionPurgeCounts {
    /// Nothing was removed.
    pub open spec fn is_zero(self) -> bool {
        self == SessionPurgeCounts {
            sessions: 0,
            observations: 0,
            handoffs: 0,
            consolidation_jobs: 0,
            auto_improve_scheduler_claims: 0,
            auto_improve_runs: 0,
            auto_improve_proposals: 0,
            auto_improve_proposal_events: 0,
            auto_improve_rejections: 0,
            page_versions: 0,
        }
    }

    /// The counts are the sizes of what `after` lacks of `before`.
    pub open spec fn count_difference(self, before: StoreView, after: StoreView) -> bool {
        &&& self.sessions == before.sessions.len() - after.sessions.len()
        &&& self.observations == before.observations.len() - after.observations.len()
        &&& self.handoffs == before.handoffs.len() - after.handoffs.len()
        &&& self.consolidation_jobs == before.jobs.len() - after.jobs.len()
        &&& self.auto_improve_scheduler_claims == before.claims.len() - after.claims.len()
        &&& self.auto_improve_runs == before.runs.len() - after.runs.len()
        &&& self.auto_improve_proposals == before.proposals.len() - after.proposals.len()
        &&& self.auto_improve_proposal_events == before.events.len() - after.events.len()
        &&& self.auto_improve_rejections == before.rejections.len() - after.rejections.len()
        &&& self.page_versions == before.pages.len() - after.pages.len()
    }
}

/// A page's path within its project's wiki.
#[derive(Clone, Debug, PartialEq, Eq)]
pub struct PagePath {
    pub path: String,
}

impl PagePath {
    /// The path as text.
    pub fn as_str(&self) -> (s: &str)
        ensures
            s@ == self.path@,
    {
        self.path.as_str()
    }
}

/// What a purge removed, plus what the filesystem layers still must remove.
#[derive(Clone, Debug)]
pub struct SessionPurgeReceipt {
    /// Whether this call did the work.
    pub status: SessionPurgeStatus,
    /// Stable id of the tombstone covering this session.
    pub tombstone_id: Uuid,
    /// When the session was purged (the first purge, on a repeat call).
    pub purged_at: Timestamp,
    /// Snapshots taken before this instant may still contain purged content.
    pub backup_cutoff: Timestamp,
    /// Rows removed per layer.
    pub counts: SessionPurgeCounts,
    /// Wiki pages whose every version was removed.
    pub removed_pages: Vec<PagePath>,
    /// Proposals whose sidecar files must be removed from disk.
    pub removed_proposal_sidecars: Vec<Uuid>,
    /// Non-fatal conditions the operator should see.
    pub warnings: Vec<String>,
}

/// A tombstone. Content-free by contract.
#[derive(Clone, Copy, Debug, PartialEq, Eq)]
pub struct SessionTombstone {
    /// The purged session.
    pub session_id: SessionId,
    /// Owning workspace.
    pub workspace_id: WorkspaceId,
    /// Owning project.
    pub project_id: ProjectId,
    /// Stable receipt id.
    pub tombstone_id: Uuid,
    /// Contract version of the purge that wrote this row.
    pub schema_version: i64,
    /// When the purge completed.
    pub purged_at: Timestamp,
}

impl View for SessionTombstone {
    type V = LedgerEntry;

    open spec fn view(&self) -> LedgerEntry {
        LedgerEntry {
            session_id: self.session_id@,
            workspace_id: self.workspace_id@,
            project_id: self.project_id@,
            tombstone_id: self.tombstone_id@,
            schema_version: self.schema_version as int,
            purged_at: self.purged_at@,
        }
    }
}

/// The deterministic wiki path of a session's page.
pub open spec fn session_page(session: Seq<u8>) -> Seq<char> {
    "sessions/"@ + hyphenated(session) + ".md"@
}

/// The deterministic wiki path of a session's page. An identity, not a search:
/// a purge can claim every version of it without inspecting any page.
fn session_page_path(session_id: &SessionId) -> (s: String)
    ensures
        s@ == session_page(session_id@),
{
    let head = joined("sessions/", session_id.to_text().as_str());
    joined(head.as_str(), ".md")
}

/// Why a stored tombstone cannot be read, if it cannot.
pub open spec fn entry_fault(e: LedgerEntry) -> Option<Fault> {
    if e.session_id.len() != 16 || e.workspace_id.len() != 16 || e.project_id.len() != 16 {
        Some(Fault::InvalidId)
    } else if e.tombstone_id.len() != 16 {
        Some(Fault::InvalidState("malformed uuid blob"@))
    } else if !readable_instant(e.purged_at) {
        Some(Fault::InvalidState("tombstone timestamp: "@ + range_error_text()))
    } else {
        None
    }
}

/// The identifier stored as `raw`.
fn uuid_from_slice(raw: &[u8]) -> (r: Result<Uuid, StoreError>)
    ensures
        r is Ok <==> raw@.len() == 16,
        r matches Ok(id) ==> id@ == raw@,
        r matches Err(e) ==> e@ == Fault::InvalidState("malformed uuid blob"@),
{
    match sixteen(raw) {
        Some(bytes) => Ok(Uuid { bytes }),
        None => Err(StoreError::InvalidState("malformed uuid blob".to_owned())),
    }
}

/// An affected-row count as receipts carry it, of one width on every platform.
fn rows(affected: usize) -> (n: Result<u64, StoreError>)
    ensures
        n matches Ok(m) && m == affected,
{
    Ok(affected as u64)
}

/// Read a stored tombstone.
pub(crate) fn read_tombstone(row: &TombstoneRow) -> (r: Result<SessionTombstone, StoreError>)
    ensures
        match r {
            Ok(t) => entry_fault(row@.entry) is None && t@ == row@.entry,
            Err(e) => entry_fault(row@.entry) == Some(e@),
        },
{
    let session_id = SessionId::from_slice(row.session_id.as_slice())?;
    let workspace_id = WorkspaceId::from_slice(row.workspace_id.as_slice())?;
    let project_id = ProjectId::from_slice(row.project_id.as_slice())?;
    let tombstone_id = uuid_from_slice(row.tombstone_id.as_slice())?;
    match Timestamp::from_microsecond(row.purged_at) {
        Ok(purged_at) => Ok(
            SessionTombstone {
                session_id,
                workspace_id,
                project_id,
                tombstone_id,
                schema_version: row.schema_version,
                purged_at,
            },
        ),
        Err(e) => Err(StoreError::InvalidState(joined("tombstone timestamp: ", e.as_str()))),
    }
}

/// The position of the first tombstone of `session`, from `from` on; the table's
/// length if there is none.
pub open spec fn tombstone_at(rows: Seq<TombstoneView>, session: Seq<u8>, from: int) -> int
    decreases rows.len() - from,
{
    if from < 0 || from >= rows.len() {
        rows.len() as int
    } else if rows[from].entry.session_id == session {
        from
    } else {
        tombstone_at(rows, session, from + 1)
    }
}

/// The tombstone that covers `session`, if any.
pub open spec fn tombstone_of(st: StoreView, session: Seq<u8>) -> Option<LedgerEntry> {
    let i = tombstone_at(st.tombstones, session, 0);
    if i < st.tombstones.len() {
        Some(st.tombstones[i].entry)
    } else {
        None
    }
}

/// Read the tombstone covering `session_id`, if any.
pub fn find_session_tombstone(store: &Store, session_id: SessionId) -> (r: Result<
    Option<SessionTombstone>,
    StoreError,
>)
    ensures
        match tombstone_of(store@, session_id@) {
            None => r matches Ok(None),
            Some(e) => match entry_fault(e) {
                None => r matches Ok(Some(t)) && t@ == e,
                Some(f) => r matches Err(err) && err@ == f,
            },
        },
{
    let mut i: usize = 0;
    while i < store.tombstones.len()
        invariant
            i <= store.tombstones@.len(),
            tombstone_at(store@.tombstones, session_id@, 0) == tombstone_at(
                store@.tombstones,
                session_id@,
                i as int,
            ),
        decreases store.tombstones@.len() - i,
    {
        assert(store@.tombstones[i as int] == store.tombstones@[i as int]@);
        if same_bytes(store.tombstones[i].session_id.as_slice(), session_id.as_bytes()) {
            let found = read_tombstone(&store.tombstones[i])?;
            return Ok(Some(found));
        }
        i = i + 1;
    }
    Ok(None)
}

/// A tombstone covers `session` in exactly this scope.
pub open spec fn purged_in(
    st: StoreView,
    workspace: Seq<u8>,
    project: Seq<u8>,
    session: Seq<u8>,
) -> bool {
    exists|i: int|
        0 <= i < st.tombstones.len() && (#[trigger] st.tombstones[i]).entry.session_id == session
            && st.tombstones[i].entry.workspace_id == workspace
            && st.tombstones[i].entry.project_id == project
}

/// Whether ingest for this exact `(workspace, project, session)` must be refused
/// as terminal. Scope is part of the check, so a tombstone never suppresses a
/// session of the same id living in another project.
pub fn is_session_purged(
    store: &Store,
    workspace_id: WorkspaceId,
    project_id: ProjectId,
    session_id: SessionId,
) -> (r: Result<bool, StoreError>)
    ensures
        r matches Ok(b) && b == purged_in(store@, workspace_id@, project_id@, session_id@),
{
    let mut i: usize = 0;
    while i < store.tombstones.len()
        invariant
            i <= store.tombstones@.len(),
            forall|j: int|
                0 <= j < i ==> !((#[trigger] store@.tombstones[j]).entry.session_id == session_id@
                    && store@.tombstones[j].entry.workspace_id == workspace_id@
                    && store@.tombstones[j].entry.project_id == project_id@),
        decreases store.tombstones@.len() - i,
    {
        let row = &store.tombstones[i];
        assert(store@.tombstones[i as int] == row@);
        if same_bytes(row.session_id.as_slice(), session_id.as_bytes()) && same_bytes(
            row.workspace_id.as_slice(),
            workspace_id.as_bytes(),
        ) && same_bytes(row.project_id.as_slice(), project_id.as_bytes()) {
            return Ok(true);
        }
        i = i + 1;
    }
    Ok(false)
}

/// `session` has a row without an end.
pub open spec fn still_open(st: StoreView, session: Seq<u8>) -> bool {
    exists|i: int|
        0 <= i < st.sessions.len() && (#[trigger] st.sessions[i]).id@ == session
            && st.sessions[i].ended_at is None
}

/// A consolidation job of `session` is waiting or running.
pub open spec fn job_pending(st: StoreView, session: Seq<u8>) -> bool {
    exists|i: int|
        0 <= i < st.jobs.len() && (#[trigger] st.jobs[i]).session_id@ == session && (
        st.jobs[i].state@ == "pending"@ || st.jobs[i].state@ == "running"@)
}

/// The scheduler holds a claim on `session`.
pub open spec fn claimed(st: StoreView, session: Seq<u8>) -> bool {
    exists|i: int| 0 <= i < st.claims.len() && (#[trigger] st.claims[i]).session_id@ == session
}

/// Why purging `session` now would cut something off, if it would: an open
/// session is reported before a job, and a job before a claim.
pub open spec fn busy_reason(st: StoreView, session: Seq<u8>) -> Option<Seq<char>> {
    if still_open(st, session) {
        Some("session is still open"@)
    } else if job_pending(st, session) {
        Some("a consolidation job is queued or running"@)
    } else if claimed(st, session) {
        Some("an auto-improvement claim is outstanding"@)
    } else {
        None
    }
}

/// Whether a live session, queued consolidation, or in-flight auto-improvement
/// run would be cut off by purging now. Callers surface this as a conflict unless
/// the operator forces the purge.
pub fn session_purge_is_busy(store: &Store, session_id: SessionId) -> (r: Result<
    Option<String>,
    StoreError,
>)
    ensures
        match busy_reason(store@, session_id@) {
            None => r matches Ok(None),
            Some(why) => r matches Ok(Some(t)) && t@ == why,
        },
{
    let mut i: usize = 0;
    while i < store.sessions.len()
        invariant
            i <= store.sessions@.len(),
            forall|j: int|
                0 <= j < i ==> !((#[trigger] store@.sessions[j]).id@ == session_id@
                    && store@.sessions[j].ended_at is None),
        decreases store.sessions@.len() - i,
    {
        let row = &store.sessions[i];
        assert(store@.sessions[i as int] == row);
        if same_bytes(row.id.as_slice(), session_id.as_bytes()) && row.ended_at.is_none() {
            return Ok(Some("session is still open".to_owned()));
        }
        i = i + 1;
    }
    let mut i: usize = 0;
    while i < store.jobs.len()
        invariant
            i <= store.jobs@.len(),
            !still_open(store@, session_id@),
            forall|j: int|
                0 <= j < i ==> !((#[trigger] store@.jobs[j]).session_id@ == session_id@ && (
                store@.jobs[j].state@ == "pending"@ || store@.jobs[j].state@ == "running"@)),
        decreases store.jobs@.len() - i,
    {
        let row = &store.jobs[i];
        assert(store@.jobs[i as int] == row);
        if same_bytes(row.session_id.as_slice(), session_id.as_bytes()) && (same_text(
            row.state.as_str(),
            "pending",
        ) || same_text(row.state.as_str(), "running")) {
            return Ok(Some("a consolidation job is queued or running".to_owned()));
        }
        i = i + 1;
    }
    let mut i: usize = 0;
    while i < store.claims.len()
        invariant
            i <= store.claims@.len(),
            !still_open(store@, session_id@),
            !job_pending(store@, session_id@),
            forall|j: int|
                0 <= j < i ==> (#[trigger] store@.claims[j]).session_id@ != session_id@,
        decreases store.claims@.len() - i,
    {
        let row = &store.claims[i];
        assert(store@.claims[i as int] == row);
        if same_bytes(row.session_id.as_slice(), session_id.as_bytes()) {
            return Ok(Some("an auto-improvement claim is outstanding".to_owned()));
        }
        i = i + 1;
    }
    Ok(None)
}

/// The runs derived from `session`.
pub open spec fn run_of(session: Seq<u8>) -> spec_fn(RunRow) -> bool {
    |r: RunRow| links_to(r.source_session_id, session) || links_to(r.session_id, session)
}

/// The ids of the runs derived from `session`, in table order.
pub open spec fn derived_runs(st: StoreView, session: Seq<u8>) -> Seq<Seq<u8>> {
    st.runs.filter(run_of(session)).map_values(|r: RunRow| r.id@)
}

/// The proposals that run `run` staged.
pub open spec fn staged_by(run: Seq<u8>) -> spec_fn(ProposalRow) -> bool {
    |p: ProposalRow| p.run_id@ == run
}

/// The ids of the proposals that `runs` staged, run by run.
pub open spec fn staged_proposals(st: StoreView, runs: Seq<Seq<u8>>) -> Seq<Seq<u8>>
    decreases runs.len(),
{
    if runs.len() == 0 {
        Seq::empty()
    } else {
        staged_proposals(st, runs.drop_last()) + st.proposals.filter(
            staged_by(runs.last()),
        ).map_values(|p: ProposalRow| p.id@)
    }
}

/// The ids of the proposals derived from `session`.
pub open spec fn derived_proposals(st: StoreView, session: Seq<u8>) -> Seq<Seq<u8>> {
    staged_proposals(st, derived_runs(st, session))
}

/// `page` lies in this workspace and project.
pub open spec fn page_in_scope(page: PageRow, workspace: Seq<u8>, project: Seq<u8>) -> bool {
    page.workspace_id@ == workspace && page.project_id@ == project
}

/// `page` was written by applying one of `proposals`.
pub open spec fn applied_from(st: StoreView, page: PageRow, proposals: Seq<Seq<u8>>) -> bool {
    exists|j: int|
        0 <= j < st.proposals.len() && proposals.contains((#[trigger] st.proposals[j]).id@)
            && links_to(st.proposals[j].applied_page_id, page.id@)
}

/// `page` is derived from `session`, by identity: its provenance link, the
/// deterministic path, or a proposal it was applied from.
pub open spec fn page_derived(
    st: StoreView,
    workspace: Seq<u8>,
    project: Seq<u8>,
    session: Seq<u8>,
    page: PageRow,
) -> bool {
    ||| page_in_scope(page, workspace, project) && (links_to(page.source_session_id, session)
        || page.path@ == session_page(session))
    ||| applied_from(st, page, derived_proposals(st, session))
}

/// `path` is one whose content is derived from `session`: some version of it is.
pub open spec fn path_derived(
    st: StoreView,
    workspace: Seq<u8>,
    project: Seq<u8>,
    session: Seq<u8>,
    path: Seq<char>,
) -> bool {
    exists|i: int|
        0 <= i < st.pages.len() && (#[trigger] st.pages[i]).path@ == path && page_derived(
            st,
            workspace,
            project,
            session,
            st.pages[i],
        )
}

/// `paths` are the paths derived from `session`, sorted, each once.
pub open spec fn lists_derived_paths(
    st: StoreView,
    workspace: Seq<u8>,
    project: Seq<u8>,
    session: Seq<u8>,
    paths: Seq<Seq<char>>,
) -> bool {
    &&& strictly_sorted(paths)
    &&& forall|p: Seq<char>| #[trigger]
        paths.contains(p) <==> path_derived(st, workspace, project, session, p)
}

/// Where `path` stands among the refused ones from `from` on, or their number.
pub open spec fn refusal_at(rows: Seq<PathRefusalView>, path: Seq<char>, from: int) -> int
    decreases rows.len() - from,
{
    if from < 0 || from >= rows.len() {
        rows.len() as int
    } else if rows[from].path == path {
        from
    } else {
        refusal_at(rows, path, from + 1)
    }
}

/// What is wrong with `path` as a page path, if anything.
pub open spec fn path_refusal(st: StoreView, path: Seq<char>) -> Option<Seq<char>> {
    let i = refusal_at(st.refused_paths, path, 0);
    if i < st.refused_paths.len() {
        Some(st.refused_paths[i].reason)
    } else {
        None
    }
}

/// `path` is derived from `session`, and something is wrong with it.
pub open spec fn refused_path(
    st: StoreView,
    workspace: Seq<u8>,
    project: Seq<u8>,
    session: Seq<u8>,
    path: Seq<char>,
) -> bool {
    path_derived(st, workspace, project, session, path) && path_refusal(st, path) is Some
}

/// `path` is the first of these paths, in their order.
pub open spec fn first_refused_path(
    st: StoreView,
    workspace: Seq<u8>,
    project: Seq<u8>,
    session: Seq<u8>,
    path: Seq<char>,
) -> bool {
    &&& refused_path(st, workspace, project, session, path)
    &&& forall|p: Seq<char>| #[trigger]
        refused_path(st, workspace, project, session, p) && p != path ==> before(path, p)
}

/// The refusal to purge a session with a derived path that is no page path, told by
/// the first such path, if there is one.
pub open spec fn page_path_fault(
    st: StoreView,
    workspace: Seq<u8>,
    project: Seq<u8>,
    session: Seq<u8>,
) -> Option<Fault> {
    if exists|p: Seq<char>| #[trigger] refused_path(st, workspace, project, session, p) {
        let first = choose|p: Seq<char>| #[trigger]
            first_refused_path(st, workspace, project, session, p);
        Some(Fault::InvalidState("page path: "@ + path_refusal(st, first)->0))
    } else {
        None
    }
}

/// A first refused path is the one that the refusal tells.
proof fn lemma_page_path_fault(
    st: StoreView,
    workspace: Seq<u8>,
    project: Seq<u8>,
    session: Seq<u8>,
    path: Seq<char>,
)
    requires
        first_refused_path(st, workspace, project, session, path),
    ensures
        page_path_fault(st, workspace, project, session) == Some(
            Fault::InvalidState("page path: "@ + path_refusal(st, path)->0),
        ),
{
    let first = choose|p: Seq<char>| #[trigger]
        first_refused_path(st, workspace, project, session, p);
    if first != path {
        assert(refused_path(st, workspace, project, session, first));
        lemma_before_asymmetric(path, first);
    }
}

/// What is wrong with a stored path, if anything.
fn find_path_refusal<'a>(store: &'a Store, path: &str) -> (r: Option<&'a str>)
    ensures
        match r {
            Some(why) => path_refusal(store@, path@) == Some(why@),
            None => path_refusal(store@, path@) is None,
        },
{
    let mut i: usize = 0;
    while i < store.refused_paths.len()
        invariant
            i <= store.refused_paths@.len(),
            refusal_at(store@.refused_paths, path@, 0) == refusal_at(
                store@.refused_paths,
                path@,
                i as int,
            ),
        decreases store.refused_paths@.len() - i,
    {
        assert(store@.refused_paths[i as int] == store.refused_paths@[i as int]@);
        if same_text(store.refused_paths[i].path.as_str(), path) {
            return Some(store.refused_paths[i].reason.as_str());
        }
        i = i + 1;
    }
    None
}

/// Whether `id` is one of `ids`.
fn id_among(ids: &Vec<Vec<u8>>, id: &[u8]) -> (r: bool)
    ensures
        r == blobs(ids@).contains(id@),
{
    let mut i: usize = 0;
    while i < ids.len()
        invariant
            i <= ids@.len(),
            forall|j: int| 0 <= j < i ==> #[trigger] blobs(ids@)[j] != id@,
        decreases ids@.len() - i,
    {
        assert(blobs(ids@)[i as int] == ids@[i as int]@);
        if same_bytes(ids[i].as_slice(), id) {
            return true;
        }
        i = i + 1;
    }
    false
}

/// Whether a nullable identifier column holds `id`.
fn column_holds(column: &Option<Vec<u8>>, id: &[u8]) -> (r: bool)
    ensures
        r == links_to(*column, id@),
{
    match column {
        Some(v) => same_bytes(v.as_slice(), id),
        None => false,
    }
}

/// Whether a nullable identifier column holds one of `ids`.
fn column_among(column: &Option<Vec<u8>>, ids: &Vec<Vec<u8>>) -> (r: bool)
    ensures
        r == (column matches Some(v) && blobs(ids@).contains(v@)),
{
    match column {
        Some(v) => id_among(ids, v.as_slice()),
        None => false,
    }
}

/// The ids of the runs derived from a session.
fn collect_blob_ids(store: &Store, session_id: &SessionId) -> (ids: Vec<Vec<u8>>)
    ensures
        blobs(ids@) == derived_runs(store@, session_id@),
{
    let mut ids: Vec<Vec<u8>> = Vec::new();
    let mut i: usize = 0;
    let ghost rows = store@.runs;
    let ghost pick = run_of(session_id@);
    assert(rows.take(0) == Seq::<RunRow>::empty());
    reveal(Seq::filter);
    while i < store.runs.len()
        invariant
            rows == store.runs@,
            pick == run_of(session_id@),
            i <= rows.len(),
            blobs(ids@) == rows.take(i as int).filter(pick).map_values(|r: RunRow| r.id@),
        decreases rows.len() - i,
    {
        let row = &store.runs[i];
        let ghost before = ids@;
        proof {
            reveal(Seq::filter);
            assert(rows.take(i + 1).drop_last() == rows.take(i as int));
            assert(rows.take(i + 1).last() == row);
        }
        if column_holds(&row.source_session_id, session_id.as_bytes()) || column_holds(
            &row.session_id,
            session_id.as_bytes(),
        ) {
            ids.push(bytes_of(row.id.as_slice()));
            assert(blobs(ids@) == blobs(before).push(row.id@));
        }
        i = i + 1;
    }
    assert(rows.take(rows.len() as int) == rows);
    ids
}

/// The ids of the proposals that the given runs staged.
fn collect_children(store: &Store, runs: &Vec<Vec<u8>>) -> (ids: Vec<Vec<u8>>)
    ensures
        blobs(ids@) == staged_proposals(store@, blobs(runs@)),
{
    let mut ids: Vec<Vec<u8>> = Vec::new();
    let mut k: usize = 0;
    let ghost rows = store@.proposals;
    assert(blobs(runs@).take(0) == Seq::<Seq<u8>>::empty());
    while k < runs.len()
        invariant
            rows == store@.proposals,
            k <= runs@.len(),
            blobs(ids@) == staged_proposals(store@, blobs(runs@).take(k as int)),
        decreases runs@.len() - k,
    {
        let run = &runs[k];
        let ghost pick = staged_by(run@);
        let ghost done = blobs(ids@);
        let mut i: usize = 0;
        proof {
            reveal(Seq::filter);
            assert(rows.take(0) == Seq::<ProposalRow>::empty());
            assert(done + rows.take(0).filter(pick).map_values(|p: ProposalRow| p.id@) == done);
        }
        while i < store.proposals.len()
            invariant
                rows == store.proposals@,
                pick == staged_by(run@),
                i <= rows.len(),
                blobs(ids@) == done + rows.take(i as int).filter(pick).map_values(
                    |p: ProposalRow| p.id@,
                ),
            decreases rows.len() - i,
        {
            let row = &store.proposals[i];
            let ghost before = ids@;
            proof {
                reveal(Seq::filter);
                assert(rows.take(i + 1).drop_last() == rows.take(i as int));
                assert(rows.take(i + 1).last() == row);
            }
            if same_bytes(row.run_id.as_slice(), run.as_slice()) {
                ids.push(bytes_of(row.id.as_slice()));
                assert(blobs(ids@) == blobs(before).push(row.id@));
                assert(blobs(ids@) == done + rows.take(i + 1).filter(pick).map_values(
                    |p: ProposalRow| p.id@,
                ));
            }
            i = i + 1;
        }
        proof {
            assert(rows.take(rows.len() as int) == rows);
            let upto = blobs(runs@).take(k + 1);
            assert(upto.drop_last() == blobs(runs@).take(k as int));
            assert(upto.last() == run@);
        }
        k = k + 1;
    }
    assert(blobs(runs@).take(runs@.len() as int) == blobs(runs@));
    ids
}

/// Whether a page version was written by applying one of the given proposals.
fn page_applied_from(store: &Store, page: &PageRow, proposals: &Vec<Vec<u8>>) -> (r: bool)
    ensures
        r == applied_from(store@, *page, blobs(proposals@)),
{
    let mut i: usize = 0;
    while i < store.proposals.len()
        invariant
            i <= store.proposals@.len(),
            forall|j: int|
                0 <= j < i ==> !(blobs(proposals@).contains((#[trigger] store@.proposals[j]).id@)
                    && links_to(store@.proposals[j].applied_page_id, page.id@)),
        decreases store.proposals@.len() - i,
    {
        let row = &store.proposals[i];
        assert(store@.proposals[i as int] == row);
        if id_among(proposals, row.id.as_slice()) && column_holds(
            &row.applied_page_id,
            page.id.as_slice(),
        ) {
            return true;
        }
        i = i + 1;
    }
    false
}

/// The paths that a list of pages names.
pub open spec fn page_paths(pages: Seq<PagePath>) -> Seq<Seq<char>> {
    pages.map_values(|p: PagePath| p.path@)
}

/// Every wiki path whose content is derived from this session, unless one of them is
/// no page path.
///
/// Three sources, all by identity: the provenance column, the deterministic
/// `sessions/<uuid>.md` path, and pages applied from this session's proposals.
fn collect_page_paths(
    store: &Store,
    workspace_id: &WorkspaceId,
    project_id: &ProjectId,
    session_id: &SessionId,
    proposal_ids: &Vec<Vec<u8>>,
) -> (r: Result<Vec<PagePath>, StoreError>)
    requires
        blobs(proposal_ids@) == derived_proposals(store@, session_id@),
    ensures
        match page_path_fault(store@, workspace_id@, project_id@, session_id@) {
            None => r matches Ok(pages) && lists_derived_paths(
                store@,
                workspace_id@,
                project_id@,
                session_id@,
                page_paths(pages@),
            ),
            Some(f) => r matches Err(e) && e@ == f,
        },
{
    let own_path = session_page_path(session_id);
    let mut paths: Vec<String> = Vec::new();
    let mut i: usize = 0;
    while i < store.pages.len()
        invariant
            own_path@ == session_page(session_id@),
            blobs(proposal_ids@) == derived_proposals(store@, session_id@),
            i <= store.pages@.len(),
            strictly_sorted(texts(paths@)),
            forall|p: Seq<char>| #[trigger]
                texts(paths@).to_set().contains(p) <==> exists|j: int|
                    0 <= j < i && (#[trigger] store@.pages[j]).path@ == p && page_derived(
                        store@,
                        workspace_id@,
                        project_id@,
                        session_id@,
                        store@.pages[j],
                    ),
        decreases store.pages@.len() - i,
    {
        let page = &store.pages[i];
        assert(store@.pages[i as int] == page);
        let own = same_bytes(page.workspace_id.as_slice(), workspace_id.as_bytes()) && same_bytes(
            page.project_id.as_slice(),
            project_id.as_bytes(),
        ) && (column_holds(&page.source_session_id, session_id.as_bytes()) || same_text(
            page.path.as_str(),
            own_path.as_str(),
        ));
        let derived = own || page_applied_from(store, page, proposal_ids);
        assert(derived == page_derived(
            store@,
            workspace_id@,
            project_id@,
            session_id@,
            *page,
        ));
        if derived {
            insert_distinct(&mut paths, page.path.as_str().to_owned());
        }
        i = i + 1;
    }
    let ghost listed = texts(paths@);
    proof {
        assert forall|p: Seq<char>| #[trigger] listed.contains(p) <==> path_derived(
            store@,
            workspace_id@,
            project_id@,
            session_id@,
            p,
        ) by {
            assert(listed.contains(p) <==> listed.to_set().contains(p));
        }
    }
    let mut pages: Vec<PagePath> = Vec::new();
    let mut i: usize = 0;
    while i < paths.len()
        invariant
            listed == texts(paths@),
            strictly_sorted(listed),
            forall|p: Seq<char>| #[trigger]
                listed.contains(p) <==> path_derived(
                    store@,
                    workspace_id@,
                    project_id@,
                    session_id@,
                    p,
                ),
            i <= paths@.len(),
            page_paths(pages@) == listed.take(i as int),
            forall|j: int| 0 <= j < i ==> path_refusal(store@, #[trigger] listed[j]) is None,
        decreases paths@.len() - i,
    {
        let ghost had = pages@;
        assert(listed[i as int] == paths@[i as int]@);
        if let Some(why) = find_path_refusal(store, paths[i].as_str()) {
            proof {
                let path = listed[i as int];
                assert(listed.contains(path));
                assert forall|p: Seq<char>| #[trigger]
                    refused_path(store@, workspace_id@, project_id@, session_id@, p) && p
                        != path implies before(path, p) by {
                    assert(listed.contains(p));
                    let j = choose|j: int| 0 <= j < listed.len() && listed[j] == p;
                    assert(i < j);
                }
                lemma_page_path_fault(
                    store@,
                    workspace_id@,
                    project_id@,
                    session_id@,
                    path,
                );
            }
            return Err(StoreError::InvalidState(joined("page path: ", why)));
        }
        pages.push(PagePath { path: paths[i].as_str().to_owned() });
        proof {
            assert(page_paths(pages@) == page_paths(had).push(listed[i as int]));
            assert(listed.take(i + 1) == listed.take(i as int).push(listed[i as int]));
        }
        i = i + 1;
    }
    proof {
        assert(listed.take(listed.len() as int) == listed);
        assert forall|p: Seq<char>| !#[trigger]
            refused_path(store@, workspace_id@, project_id@, session_id@, p) by {
            if path_derived(store@, workspace_id@, project_id@, session_id@, p) {
                assert(listed.contains(p));
                let j = choose|j: int| 0 <= j < listed.len() && listed[j] == p;
                assert(path_refusal(store@, listed[j]) is None);
            }
        }
    }
    Ok(pages)
}

/// The identifiers that a list of uuids holds.
pub open spec fn uuids(ids: Seq<Uuid>) -> Seq<Seq<u8>> {
    ids.map_values(|id: Uuid| id@)
}

/// Every stored id is one that can be read back.
pub open spec fn well_formed_ids(ids: Seq<Seq<u8>>) -> bool {
    forall|i: int| 0 <= i < ids.len() ==> (#[trigger] ids[i]).len() == 16
}

/// The proposals' ids, whose sidecar files must be removed.
fn collect_sidecars(proposal_ids: &Vec<Vec<u8>>) -> (r: Result<Vec<Uuid>, StoreError>)
    ensures
        r is Ok <==> well_formed_ids(blobs(proposal_ids@)),
        r matches Ok(ids) ==> uuids(ids@) == blobs(proposal_ids@),
        r matches Err(e) ==> e@ == Fault::InvalidState("malformed uuid blob"@),
{
    let ghost all = blobs(proposal_ids@);
    let mut out: Vec<Uuid> = Vec::new();
    let mut i: usize = 0;
    while i < proposal_ids.len()
        invariant
            all == blobs(proposal_ids@),
            i <= proposal_ids@.len(),
            uuids(out@) == all.take(i as int),
            forall|j: int| 0 <= j < i ==> (#[trigger] all[j]).len() == 16,
        decreases proposal_ids@.len() - i,
    {
        let ghost before = out@;
        assert(all[i as int] == proposal_ids@[i as int]@);
        let id = uuid_from_slice(proposal_ids[i].as_slice())?;
        out.push(id);
        proof {
            assert(uuids(out@) == uuids(before).push(all[i as int]));
            assert(all.take(i + 1) == all.take(i as int).push(all[i as int]));
        }
        i = i + 1;
    }
    assert(all.take(all.len() as int) == all);
    Ok(out)
}

/// Lifecycle events of other proposals.
pub open spec fn keep_event(proposals: Seq<Seq<u8>>) -> spec_fn(EventRow) -> bool {
    |e: EventRow| !proposals.contains(e.proposal_id@)
}

/// Rejections that reach `session` by none of their three links.
pub open spec fn keep_rejection(
    session: Seq<u8>,
    runs: Seq<Seq<u8>>,
    proposals: Seq<Seq<u8>>,
) -> spec_fn(RejectionRow) -> bool {
    |r: RejectionRow|
        !links_to(r.source_session_id, session) && !(r.source_run_id matches Some(v)
            && runs.contains(v@)) && !(r.source_proposal_id matches Some(v) && proposals.contains(
            v@,
        ))
}

/// Other proposals.
pub open spec fn keep_proposal(proposals: Seq<Seq<u8>>) -> spec_fn(ProposalRow) -> bool {
    |p: ProposalRow| !proposals.contains(p.id@)
}

/// Other runs.
pub open spec fn keep_run(runs: Seq<Seq<u8>>) -> spec_fn(RunRow) -> bool {
    |r: RunRow| !runs.contains(r.id@)
}

/// Claims on other sessions.
pub open spec fn keep_claim(session: Seq<u8>) -> spec_fn(ClaimRow) -> bool {
    |c: ClaimRow| c.session_id@ != session
}

/// Jobs of other sessions.
pub open spec fn keep_job(session: Seq<u8>) -> spec_fn(JobRow) -> bool {
    |j: JobRow| j.session_id@ != session
}

/// Handoffs that `session` neither produced nor accepted.
pub open spec fn keep_handoff(session: Seq<u8>) -> spec_fn(HandoffRow) -> bool {
    |h: HandoffRow|
        !links_to(h.from_session_id, session) && !links_to(h.accepted_by_session, session)
}

/// Page versions outside the scope, and those at paths not derived from `session`.
pub open spec fn keep_page(
    st: StoreView,
    workspace: Seq<u8>,
    project: Seq<u8>,
    session: Seq<u8>,
) -> spec_fn(PageRow) -> bool {
    |p: PageRow|
        !(page_in_scope(p, workspace, project) && path_derived(
            st,
            workspace,
            project,
            session,
            p.path@,
        ))
}

/// `id` is that of a page version which goes.
pub open spec fn page_goes(pages: Seq<PageRow>, keep: spec_fn(PageRow) -> bool, id: Seq<u8>) -> bool {
    exists|i: int| 0 <= i < pages.len() && (#[trigger] pages[i]).id@ == id && !keep(pages[i])
}

/// Links to page versions that stay.
pub open spec fn keep_link(pages: Seq<PageRow>, keep: spec_fn(PageRow) -> bool) -> spec_fn(
    LinkRow,
) -> bool {
    |l: LinkRow| !page_goes(pages, keep, l.page_id@)
}

/// Some link names the entity `id`.
pub open spec fn entity_linked(links: Seq<LinkRow>, id: Seq<u8>) -> bool {
    exists|i: int| 0 <= i < links.len() && (#[trigger] links[i]).entity_id@ == id
}

/// Entities outside the scope, and those that something still links to.
pub open spec fn keep_entity(
    links: Seq<LinkRow>,
    workspace: Seq<u8>,
    project: Seq<u8>,
) -> spec_fn(EntityRow) -> bool {
    |e: EntityRow|
        !(e.workspace_id@ == workspace && e.project_id@ == project) || entity_linked(links, e.id@)
}

/// Observations of other sessions.
pub open spec fn keep_observation(session: Seq<u8>) -> spec_fn(ObservationRow) -> bool {
    |o: ObservationRow| o.session_id@ != session
}

/// Other sessions.
pub open spec fn keep_session(session: Seq<u8>) -> spec_fn(SessionRow) -> bool {
    |s: SessionRow| s.id@ != session
}

/// The database without `session` and everything derived from it.
pub open spec fn without_session(
    st: StoreView,
    workspace: Seq<u8>,
    project: Seq<u8>,
    session: Seq<u8>,
) -> StoreView {
    let runs = derived_runs(st, session);
    let proposals = derived_proposals(st, session);
    let keep = keep_page(st, workspace, project, session);
    let pages = st.pages.filter(keep);
    let links = st.links.filter(keep_link(st.pages, keep));
    StoreView {
        events: st.events.filter(keep_event(proposals)),
        rejections: st.rejections.filter(keep_rejection(session, runs, proposals)),
        proposals: st.proposals.filter(keep_proposal(proposals)),
        runs: st.runs.filter(keep_run(runs)),
        claims: st.claims.filter(keep_claim(session)),
        jobs: st.jobs.filter(keep_job(session)),
        handoffs: st.handoffs.filter(keep_handoff(session)),
        pages,
        links,
        entities: if pages.len() < st.pages.len() {
            st.entities.filter(keep_entity(links, workspace, project))
        } else {
            st.entities
        },
        observations: st.observations.filter(keep_observation(session)),
        sessions: st.sessions.filter(keep_session(session)),
        ..st
    }
}

/// Whether `path` is one of `pages`.
fn path_among(pages: &Vec<PagePath>, path: &str) -> (r: bool)
    ensures
        r == page_paths(pages@).contains(path@),
{
    let mut i: usize = 0;
    while i < pages.len()
        invariant
            i <= pages@.len(),
            forall|j: int| 0 <= j < i ==> #[trigger] page_paths(pages@)[j] != path@,
        decreases pages@.len() - i,
    {
        assert(page_paths(pages@)[i as int] == pages@[i as int].path@);
        if same_text(pages[i].as_str(), path) {
            return true;
        }
        i = i + 1;
    }
    false
}

/// Whether some link names the entity `id`.
fn is_linked(links: &Vec<LinkRow>, id: &[u8]) -> (r: bool)
    ensures
        r == entity_linked(links@, id@),
{
    let mut i: usize = 0;
    while i < links.len()
        invariant
            i <= links@.len(),
            forall|j: int| 0 <= j < i ==> (#[trigger] links@[j]).entity_id@ != id@,
        decreases links@.len() - i,
    {
        if same_bytes(links[i].entity_id.as_slice(), id) {
            return true;
        }
        i = i + 1;
    }
    false
}

/// Whether a page version lies in the scope at one of the given paths.
fn page_doomed(
    page: &PageRow,
    workspace_id: &WorkspaceId,
    project_id: &ProjectId,
    pages: &Vec<PagePath>,
) -> (r: bool)
    ensures
        r == (page_in_scope(*page, workspace_id@, project_id@) && page_paths(pages@).contains(
            page.path@,
        )),
{
    same_bytes(page.workspace_id.as_slice(), workspace_id.as_bytes()) && same_bytes(
        page.project_id.as_slice(),
        project_id.as_bytes(),
    ) && path_among(pages, page.path.as_str())
}

/// Delete the page versions at the given paths, the links to them, and the
/// entities of the scope that nothing links to any more. Entities are shared, so
/// one goes only when its last link does. Returns the number of page versions.
fn delete_pages(
    store: &mut Store,
    workspace_id: &WorkspaceId,
    project_id: &ProjectId,
    pages: &Vec<PagePath>,
    Ghost(keep): Ghost<spec_fn(PageRow) -> bool>,
) -> (removed: usize)
    requires
        forall|p: PageRow| #[trigger]
            keep(p) == !(page_in_scope(p, workspace_id@, project_id@) && page_paths(
                pages@,
            ).contains(p.path@)),
    ensures
        final(store).pages@ == old(store).pages@.filter(keep),
        final(store).links@ == old(store).links@.filter(keep_link(old(store).pages@, keep)),
        final(store).entities@ == if final(store).pages@.len() < old(store).pages@.len() {
            old(store).entities@.filter(
                keep_entity(final(store).links@, workspace_id@, project_id@),
            )
        } else {
            old(store).entities@
        },
        removed == old(store).pages@.len() - final(store).pages@.len(),
        *final(store) == (Store {
            pages: final(store).pages,
            links: final(store).links,
            entities: final(store).entities,
            ..*old(store)
        }),
{
    let ghost all = store.pages@;
    let mut going: Vec<Vec<u8>> = Vec::new();
    let mut i: usize = 0;
    while i < store.pages.len()
        invariant
            *store == *old(store),
            all == store.pages@,
            i <= all.len(),
            forall|p: PageRow| #[trigger]
                keep(p) == !(page_in_scope(p, workspace_id@, project_id@) && page_paths(
                    pages@,
                ).contains(p.path@)),
            forall|id: Seq<u8>| #[trigger]
                blobs(going@).contains(id) <==> page_goes(all.take(i as int), keep, id),
        decreases all.len() - i,
    {
        let page = &store.pages[i];
        let ghost before = going@;
        let ghost doomed = !keep(*page);
        if page_doomed(page, workspace_id, project_id, pages) {
            going.push(bytes_of(page.id.as_slice()));
            assert(blobs(going@) == blobs(before).push(page.id@));
        }
        proof {
            let now = all.take(i + 1);
            assert(now[i as int] == page);
            assert forall|id: Seq<u8>| #[trigger]
                blobs(going@).contains(id) <==> page_goes(now, keep, id) by {
                if blobs(going@).contains(id) {
                    if blobs(before).contains(id) {
                        let k = choose|k: int|
                            0 <= k < all.take(i as int).len() && (#[trigger] all.take(
                                i as int,
                            )[k]).id@ == id && !keep(all.take(i as int)[k]);
                        assert(now[k].id@ == id);
                    } else {
                        assert(now[i as int].id@ == id);
                    }
                }
                if page_goes(now, keep, id) {
                    let k = choose|k: int|
                        0 <= k < now.len() && (#[trigger] now[k]).id@ == id && !keep(now[k]);
                    if k < i {
                        assert(all.take(i as int)[k].id@ == id);
                        assert(blobs(before).contains(id));
                        let m = choose|m: int|
                            0 <= m < blobs(before).len() && blobs(before)[m] == id;
                        assert(blobs(going@)[m] == id);
                    } else {
                        assert(blobs(going@)[before.len() as int] == id);
                    }
                }
            }
        }
        i = i + 1;
    }
    assert(all.take(all.len() as int) == all);
    let doomed_page = |p: &PageRow| -> (b: bool)
        ensures
            b == !keep(*p),
    { page_doomed(p, workspace_id, project_id, pages) };
    let removed: usize = delete_where(&mut store.pages, doomed_page, Ghost(keep));
    let ghost stays = keep_link(all, keep);
    let doomed_link = |l: &LinkRow| -> (b: bool)
        ensures
            b == !stays(*l),
    { id_among(&going, l.page_id.as_slice()) };
    delete_where(&mut store.links, doomed_link, Ghost(stays));
    if removed > 0 {
        let links = &store.links;
        let ghost stays = keep_entity(links@, workspace_id@, project_id@);
        let orphan = |e: &EntityRow| -> (b: bool)
            ensures
                b == !stays(*e),
        {
            same_bytes(e.workspace_id.as_slice(), workspace_id.as_bytes()) && same_bytes(
                e.project_id.as_slice(),
                project_id.as_bytes(),
            ) && !is_linked(links, e.id.as_slice())
        };
        delete_where(&mut store.entities, orphan, Ghost(stays));
    }
    removed
}

/// The position of the first row of `session`, from `from` on; the table's
/// length if there is none.
pub open spec fn session_at(rows: Seq<SessionRow>, session: Seq<u8>, from: int) -> int
    decreases rows.len() - from,
{
    if from < 0 || from >= rows.len() {
        rows.len() as int
    } else if rows[from].id@ == session {
        from
    } else {
        session_at(rows, session, from + 1)
    }
}

/// The workspace and project that `session` lives in, if it exists.
pub open spec fn session_scope(st: StoreView, session: Seq<u8>) -> Option<(Seq<u8>, Seq<u8>)> {
    let i = session_at(st.sessions, session, 0);
    if i < st.sessions.len() {
        Some((st.sessions[i].workspace_id@, st.sessions[i].project_id@))
    } else {
        None
    }
}

/// The refusal of a request that names the wrong scope.
pub open spec fn scope_conflict() -> Fault {
    Fault::InvalidState("session id belongs to a different workspace or project"@)
}

/// Why removing the rows of `session` at `now` is refused, if it is.
pub open spec fn removal_fault(
    st: StoreView,
    workspace: Seq<u8>,
    project: Seq<u8>,
    session: Seq<u8>,
    now: int,
) -> Option<Fault> {
    match session_scope(st, session) {
        None => Some(Fault::NotFound("session"@)),
        Some(scope) => if scope != (workspace, project) {
            Some(scope_conflict())
        } else if page_path_fault(st, workspace, project, session) is Some {
            page_path_fault(st, workspace, project, session)
        } else if !well_formed_ids(derived_proposals(st, session)) {
            Some(Fault::InvalidState("malformed uuid blob"@))
        } else if !readable_instant(now) {
            Some(Fault::InvalidState("purge timestamp: "@ + range_error_text()))
        } else {
            None
        },
    }
}

/// Why purging `session` at `now` is refused, if it is.
pub open spec fn purge_fault(
    st: StoreView,
    workspace: Seq<u8>,
    project: Seq<u8>,
    session: Seq<u8>,
    now: int,
) -> Option<Fault> {
    match tombstone_of(st, session) {
        Some(e) => if entry_fault(e) is Some {
            entry_fault(e)
        } else if e.workspace_id != workspace || e.project_id != project {
            Some(scope_conflict())
        } else {
            None
        },
        None => removal_fault(st, workspace, project, session, now),
    }
}

/// The database after purging `session` at `now`: what was derived from it is
/// gone, and an audit record and a tombstone that points at it are added.
pub open spec fn purged(
    st: StoreView,
    workspace: Seq<u8>,
    project: Seq<u8>,
    session: Seq<u8>,
    now: int,
    tombstone_id: Seq<u8>,
) -> StoreView {
    StoreView {
        audits: st.audits.push(
            AuditView {
                action: "purge_session"@,
                workspace_id: workspace,
                project_id: project,
                at: now,
            },
        ),
        tombstones: st.tombstones.push(
            TombstoneView {
                entry: LedgerEntry {
                    session_id: session,
                    workspace_id: workspace,
                    project_id: project,
                    tombstone_id,
                    schema_version: SESSION_PURGE_SCHEMA_VERSION as int,
                    purged_at: now,
                },
                audit_id: Some(st.audits.len() as int),
            },
        ),
        ..without_session(st, workspace, project, session)
    }
}

impl SessionPurgeReceipt {
    /// The receipt of a purge that found the tombstone `e` in place.
    pub open spec fn reports_earlier_purge(self, e: LedgerEntry) -> bool {
        &&& self.status is AlreadyPurged
        &&& self.tombstone_id@ == e.tombstone_id
        &&& self.purged_at@ == e.purged_at
        &&& self.backup_cutoff@ == e.purged_at
        &&& self.counts.is_zero()
        &&& self.removed_pages@.len() == 0
        &&& self.removed_proposal_sidecars@.len() == 0
        &&& self.warnings@.len() == 0
    }

    /// The receipt of the purge that led from `before` to `after`.
    pub open spec fn reports_purge(
        self,
        before: StoreView,
        after: StoreView,
        workspace: Seq<u8>,
        project: Seq<u8>,
        session: Seq<u8>,
        now: int,
        tombstone_id: Seq<u8>,
    ) -> bool {
        &&& self.status is Purged
        &&& self.tombstone_id@ == tombstone_id
        &&& self.purged_at@ == now
        &&& self.backup_cutoff@ == now
        &&& self.counts.count_difference(before, after)
        &&& lists_derived_paths(
            before,
            workspace,
            project,
            session,
            page_paths(self.removed_pages@),
        )
        &&& uuids(self.removed_proposal_sidecars@) == derived_proposals(before, session)
        &&& self.warnings@.len() == 0
    }
}

/// What purging `session` leaves and answers, for the clock reading `now` and the
/// fresh identifier `tombstone_id`. A refusal changes nothing.
pub open spec fn purge_step(
    before: StoreView,
    after: StoreView,
    workspace: Seq<u8>,
    project: Seq<u8>,
    session: Seq<u8>,
    now: int,
    tombstone_id: Seq<u8>,
    r: Result<SessionPurgeReceipt, StoreError>,
) -> bool {
    match purge_fault(before, workspace, project, session, now) {
        Some(f) => (r matches Err(e) && e@ == f) && after == before,
        None => r matches Ok(receipt) && match tombstone_of(before, session) {
            Some(e) => after == before && receipt.reports_earlier_purge(e),
            None => after == purged(before, workspace, project, session, now, tombstone_id)
                && receipt.reports_purge(
                before,
                after,
                workspace,
                project,
                session,
                now,
                tombstone_id,
            ),
        },
    }
}

/// The position of the row of a session, if it exists.
fn find_session_row(store: &Store, session_id: &SessionId) -> (r: Option<usize>)
    ensures
        match r {
            Some(i) => i == session_at(store@.sessions, session_id@, 0) && i
                < store.sessions@.len(),
            None => session_at(store@.sessions, session_id@, 0) == store.sessions@.len(),
        },
{
    let mut i: usize = 0;
    while i < store.sessions.len()
        invariant
            i <= store.sessions@.len(),
            session_at(store@.sessions, session_id@, 0) == session_at(
                store@.sessions,
                session_id@,
                i as int,
            ),
        decreases store.sessions@.len() - i,
    {
        if same_bytes(store.sessions[i].id.as_slice(), session_id.as_bytes()) {
            return Some(i);
        }
        i = i + 1;
    }
    None
}

/// Delete what the collected ids and paths name, children first, and count it
/// per layer.
fn delete_collected(
    store: &mut Store,
    workspace_id: &WorkspaceId,
    project_id: &ProjectId,
    session_id: &SessionId,
    run_ids: &Vec<Vec<u8>>,
    proposal_ids: &Vec<Vec<u8>>,
    pages: &Vec<PagePath>,
) -> (r: Result<SessionPurgeCounts, StoreError>)
    requires
        blobs(run_ids@) == derived_runs(old(store)@, session_id@),
        blobs(proposal_ids@) == derived_proposals(old(store)@, session_id@),
        lists_derived_paths(
            old(store)@,
            workspace_id@,
            project_id@,
            session_id@,
            page_paths(pages@),
        ),
    ensures
        final(store)@ == without_session(
            old(store)@,
            workspace_id@,
            project_id@,
            session_id@,
        ),
        r matches Ok(counts) && counts.count_difference(old(store)@, final(store)@),
{
    let ghost st = store@;
    let ghost runs = blobs(run_ids@);
    let ghost proposals = blobs(proposal_ids@);

    let ghost stays = keep_event(proposals);
    let doomed = |e: &EventRow| -> (b: bool)
        ensures
            b == !stays(*e),
    { id_among(proposal_ids, e.proposal_id.as_slice()) };
    let events: u64 = rows(delete_where(&mut store.events, doomed, Ghost(stays)))?;

    let ghost stays = keep_rejection(session_id@, runs, proposals);
    let doomed = |r: &RejectionRow| -> (b: bool)
        ensures
            b == !stays(*r),
    {
        column_holds(&r.source_session_id, session_id.as_bytes()) || column_among(
            &r.source_run_id,
            run_ids,
        ) || column_among(&r.source_proposal_id, proposal_ids)
    };
    let rejections: u64 = rows(delete_where(&mut store.rejections, doomed, Ghost(stays)))?;

    let ghost stays = keep_proposal(proposals);
    let doomed = |p: &ProposalRow| -> (b: bool)
        ensures
            b == !stays(*p),
    { id_among(proposal_ids, p.id.as_slice()) };
    let proposals_gone: u64 = rows(delete_where(&mut store.proposals, doomed, Ghost(stays)))?;

    let ghost stays = keep_run(runs);
    let doomed = |r: &RunRow| -> (b: bool)
        ensures
            b == !stays(*r),
    { id_among(run_ids, r.id.as_slice()) };
    let runs_gone: u64 = rows(delete_where(&mut store.runs, doomed, Ghost(stays)))?;

    let ghost stays = keep_claim(session_id@);
    let doomed = |c: &ClaimRow| -> (b: bool)
        ensures
            b == !stays(*c),
    { same_bytes(c.session_id.as_slice(), session_id.as_bytes()) };
    let claims: u64 = rows(delete_where(&mut store.claims, doomed, Ghost(stays)))?;

    let ghost stays = keep_job(session_id@);
    let doomed = |j: &JobRow| -> (b: bool)
        ensures
            b == !stays(*j),
    { same_bytes(j.session_id.as_slice(), session_id.as_bytes()) };
    let jobs: u64 = rows(delete_where(&mut store.jobs, doomed, Ghost(stays)))?;

    // Handoffs link the session twice and both links go null with it, so the rows
    // are deleted explicitly or the baton survives its session.
    let ghost stays = keep_handoff(session_id@);
    let doomed = |h: &HandoffRow| -> (b: bool)
        ensures
            b == !stays(*h),
    {
        column_holds(&h.from_session_id, session_id.as_bytes()) || column_holds(
            &h.accepted_by_session,
            session_id.as_bytes(),
        )
    };
    let handoffs: u64 = rows(delete_where(&mut store.handoffs, doomed, Ghost(stays)))?;

    let ghost stays = keep_page(st, workspace_id@, project_id@, session_id@);
    let page_versions: u64 = rows(
        delete_pages(store, workspace_id, project_id, pages, Ghost(stays)),
    )?;

    let ghost stays = keep_observation(session_id@);
    let doomed = |o: &ObservationRow| -> (b: bool)
        ensures
            b == !stays(*o),
    { same_bytes(o.session_id.as_slice(), session_id.as_bytes()) };
    let observations: u64 = rows(delete_where(&mut store.observations, doomed, Ghost(stays)))?;

    let ghost stays = keep_session(session_id@);
    let doomed = |s: &SessionRow| -> (b: bool)
        ensures
            b == !stays(*s),
    { same_bytes(s.id.as_slice(), session_id.as_bytes()) };
    let sessions: u64 = rows(delete_where(&mut store.sessions, doomed, Ghost(stays)))?;

    Ok(
        SessionPurgeCounts {
            sessions,
            observations,
            handoffs,
            consolidation_jobs: jobs,
            auto_improve_scheduler_claims: claims,
            auto_improve_runs: runs_gone,
            auto_improve_proposals: proposals_gone,
            auto_improve_proposal_events: events,
            auto_improve_rejections: rejections,
            page_versions,
        },
    )
}

/// Remove the rows of a session and everything derived from it, whether or not a
/// tombstone covers it, and add a tombstone. A refusal changes nothing.
pub(crate) fn remove_session(
    store: &mut Store,
    workspace_id: WorkspaceId,
    project_id: ProjectId,
    session_id: SessionId,
    now_microsecond: i64,
    tombstone_id: Uuid,
) -> (r: Result<SessionPurgeReceipt, StoreError>)
    ensures
        match removal_fault(
            old(store)@,
            workspace_id@,
            project_id@,
            session_id@,
            now_microsecond as int,
        ) {
            Some(f) => (r matches Err(e) && e@ == f) && final(store)@ == old(store)@,
            None => r matches Ok(receipt) && final(store)@ == purged(
                old(store)@,
                workspace_id@,
                project_id@,
                session_id@,
                now_microsecond as int,
                tombstone_id@,
            ) && receipt.reports_purge(
                old(store)@,
                final(store)@,
                workspace_id@,
                project_id@,
                session_id@,
                now_microsecond as int,
                tombstone_id@,
            ),
        },
{
    let conflict = "session id belongs to a different workspace or project";
    match find_session_row(store, &session_id) {
        None => {
            return Err(StoreError::NotFound("session".to_owned()));
        },
        Some(i) => {
            let row = &store.sessions[i];
            if !same_bytes(row.workspace_id.as_slice(), workspace_id.as_bytes()) || !same_bytes(
                row.project_id.as_slice(),
                project_id.as_bytes(),
            ) {
                return Err(StoreError::InvalidState(conflict.to_owned()));
            }
        },
    }
    // Everything is collected before the first delete: the links used here go
    // null with the rows they point at.
    let run_ids = collect_blob_ids(store, &session_id);
    let proposal_ids = collect_children(store, &run_ids);
    let pages = collect_page_paths(
        store,
        &workspace_id,
        &project_id,
        &session_id,
        &proposal_ids,
    )?;
    let sidecars = collect_sidecars(&proposal_ids)?;
    let now = match Timestamp::from_microsecond(now_microsecond) {
        Ok(now) => now,
        Err(e) => {
            return Err(StoreError::InvalidState(joined("purge timestamp: ", e.as_str())));
        },
    };
    let counts = delete_collected(
        store,
        &workspace_id,
        &project_id,
        &session_id,
        &run_ids,
        &proposal_ids,
        &pages,
    )?;
    // The tombstone points at the audit record rather than repeating its detail,
    // which is what keeps it content-free.
    let audit_id: usize = store.audits.len();
    store.audits.push(
        AuditRow {
            action: "purge_session".to_owned(),
            workspace_id: bytes_of(workspace_id.as_bytes()),
            project_id: bytes_of(project_id.as_bytes()),
            at: now.microsecond,
        },
    );
    store.tombstones.push(
        TombstoneRow {
            session_id: bytes_of(session_id.as_bytes()),
            workspace_id: bytes_of(workspace_id.as_bytes()),
            project_id: bytes_of(project_id.as_bytes()),
            tombstone_id: bytes_of(tombstone_id.as_bytes()),
            schema_version: SESSION_PURGE_SCHEMA_VERSION,
            purged_at: now.microsecond,
            audit_id: Some(audit_id),
        },
    );
    proof {
        let after = purged(
            old(store)@,
            workspace_id@,
            project_id@,
            session_id@,
            now_microsecond as int,
            tombstone_id@,
        );
        assert(store@.audits == after.audits);
        assert(store@.tombstones == after.tombstones);
        assert(store@ == after);
    }
    Ok(
        SessionPurgeReceipt {
            status: SessionPurgeStatus::Purged,
            tombstone_id,
            purged_at: now,
            backup_cutoff: now,
            counts,
            removed_pages: pages,
            removed_proposal_sidecars: sidecars,
            warnings: Vec::new(),
        },
    )
}

/// Remove a session and everything derived from it, at a given instant and under
/// a given tombstone id.
///
/// The scope must be the session's own: an id that exists in a different project
/// is a conflict, not a target. A repeat call reports the original tombstone and
/// zero counts.
pub fn purge_session_at(
    store: &mut Store,
    workspace_id: WorkspaceId,
    project_id: ProjectId,
    session_id: SessionId,
    now_microsecond: i64,
    tombstone_id: Uuid,
) -> (r: Result<SessionPurgeReceipt, StoreError>)
    ensures
        purge_step(
            old(store)@,
            final(store)@,
            workspace_id@,
            project_id@,
            session_id@,
            now_microsecond as int,
            tombstone_id@,
            r,
        ),
{
    let conflict = "session id belongs to a different workspace or project";
    if let Some(existing) = find_session_tombstone(store, session_id)? {
        if !same_bytes(existing.workspace_id.as_bytes(), workspace_id.as_bytes()) || !same_bytes(
            existing.project_id.as_bytes(),
            project_id.as_bytes(),
        ) {
            return Err(StoreError::InvalidState(conflict.to_owned()));
        }
        return Ok(
            SessionPurgeReceipt {
                status: SessionPurgeStatus::AlreadyPurged,
                tombstone_id: existing.tombstone_id,
                purged_at: existing.purged_at,
                backup_cutoff: existing.purged_at,
                counts: SessionPurgeCounts::default(),
                removed_pages: Vec::new(),
                removed_proposal_sidecars: Vec::new(),
                warnings: Vec::new(),
            },
        );
    }
    remove_session(
        store,
        workspace_id,
        project_id,
        session_id,
        now_microsecond,
        tombstone_id,
    )
}

/// Remove a session and everything derived from it, now.
///
/// What [`purge_session_at`] does, at the clock's reading and under a fresh
/// tombstone id.
pub fn purge_session(
    store: &mut Store,
    workspace_id: WorkspaceId,
    project_id: ProjectId,
    session_id: SessionId,
) -> (r: Result<SessionPurgeReceipt, StoreError>)
    ensures
        exists|now: int, tombstone_id: Seq<u8>|
            clock_reading(now) && is_random_id(tombstone_id) && #[trigger] purge_step(
                old(store)@,
                final(store)@,
                workspace_id@,
                project_id@,
                session_id@,
                now,
                tombstone_id,
                r,
            ),
        exists|now: i64, tombstone_id: Uuid|
            call_ensures(now_microsecond, (), now) && call_ensures(Uuid::new_v4, (), tombstone_id)
                && #[trigger] purge_step(
                old(store)@,
                final(store)@,
                workspace_id@,
                project_id@,
                session_id@,
                now as int,
                tombstone_id@,
                r,
            ),
{
    let now: i64 = now_microsecond();
    let tombstone_id = Uuid::new_v4();
    purge_session_at(store, workspace_id, project_id, session_id, now, tombstone_id)
}

} // verus!
