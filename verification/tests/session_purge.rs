//! Purging sessions from a database, and what a restore may bring back.

use ai_memory_purge::error::StoreError;
use ai_memory_purge::ids::{ProjectId, SessionId, Uuid, WorkspaceId};
use ai_memory_purge::ledger::{
    all_tombstones, count_resurrected, import_tombstones, read_ledger_from_db, reapply_ledger,
    reapply_ledger_at, repurge_tombstoned_session, repurge_tombstoned_session_at, resurrected_sessions,
};
use ai_memory_purge::session_purge::{
    find_session_tombstone, is_session_purged, purge_session, purge_session_at,
    session_purge_is_busy, PagePath, SessionPurgeCounts, SessionPurgeStatus,
    SESSION_PURGE_SCHEMA_VERSION,
};
use ai_memory_purge::store::{
    ClaimRow, EntityRow, EventRow, HandoffRow, JobRow, LinkRow, ObservationRow, PageRow,
    PathRefusal, ProposalRow, RejectionRow, RunRow, SessionRow, Store, TombstoneRow,
};

const CANARY_A: &str = "canary-alpha-9f3c";
const CANARY_B: &str = "canary-bravo-71de";
const OUT_OF_RANGE: &str = "parameter 'Unix timestamp microseconds' is not in the required range \
                            of -377705023201000000..=253402207200000000";

fn random_id() -> [u8; 16] {
    uuid::Uuid::new_v4().into_bytes()
}

/// A database, and beside it the text that each row of it holds.
struct Fixture {
    store: Store,
    bodies: Vec<(&'static str, i64, String)>,
    next_rowid: i64,
    workspace_id: WorkspaceId,
    project_id: ProjectId,
}

fn fixture() -> Fixture {
    let workspace_id = WorkspaceId { bytes: random_id() };
    let project_id = ProjectId { bytes: random_id() };
    Fixture { store: Store::new(), bodies: Vec::new(), next_rowid: 1, workspace_id, project_id }
}

impl Fixture {
    fn row(&mut self, table: &'static str, body: &str) -> i64 {
        let rowid = self.next_rowid;
        self.next_rowid += 1;
        self.bodies.push((table, rowid, body.to_string()));
        rowid
    }

    fn begin_session(&mut self) -> SessionId {
        let id = SessionId { bytes: random_id() };
        self.store.sessions.push(SessionRow {
            id: id.bytes.to_vec(),
            workspace_id: self.workspace_id.bytes.to_vec(),
            project_id: self.project_id.bytes.to_vec(),
            ended_at: None,
        });
        id
    }

    /// A later version that declares no provenance takes over that of the one before.
    fn upsert_page(&mut self, path: &str, source: Option<SessionId>, body: &str) -> Vec<u8> {
        let inherited = self
            .store
            .pages
            .iter()
            .rev()
            .find(|p| p.path == path)
            .and_then(|p| p.source_session_id.clone());
        let rowid = self.row("pages", body);
        let id = random_id().to_vec();
        self.store.pages.push(PageRow {
            rowid,
            id: id.clone(),
            workspace_id: self.workspace_id.bytes.to_vec(),
            project_id: self.project_id.bytes.to_vec(),
            path: path.to_string(),
            source_session_id: source.map(|s| s.bytes.to_vec()).or(inherited),
        });
        id
    }

    fn seed_session(&mut self, canary: &str) -> SessionId {
        let id = self.begin_session();
        let rowid = self.row("observations", canary);
        self.store.observations.push(ObservationRow { rowid, session_id: id.bytes.to_vec() });
        let rowid = self.row("handoffs", canary);
        self.store.handoffs.push(HandoffRow {
            rowid,
            from_session_id: Some(id.bytes.to_vec()),
            accepted_by_session: None,
        });
        self.upsert_page(&session_page(id), Some(id), canary);
        id
    }

    /// A session with a second, arbitrarily named page, as consolidation produces.
    fn seed(&mut self, canary: &str) -> SessionId {
        let id = self.seed_session(canary);
        let notes = format!("derived/{}-notes.md", id.to_text());
        self.upsert_page(&notes, Some(id), &format!("derived note quoting {canary}"));
        id
    }

    /// The layers that still hold a row whose text contains the canary.
    fn canary_hits(&self, canary: &str) -> Vec<&'static str> {
        layers_holding(&self.store, &self.bodies, canary)
    }
}

fn session_page(id: SessionId) -> String {
    format!("sessions/{}.md", id.to_text())
}

fn layers_holding(
    store: &Store,
    bodies: &[(&'static str, i64, String)],
    canary: &str,
) -> Vec<&'static str> {
    let holds = |table: &str, present: Vec<i64>| {
        bodies.iter().any(|(t, r, b)| *t == table && present.contains(r) && b.contains(canary))
    };
    let mut hits = Vec::new();
    if holds("observations", store.observations.iter().map(|r| r.rowid).collect()) {
        hits.push("observations");
    }
    if holds("handoffs", store.handoffs.iter().map(|r| r.rowid).collect()) {
        hits.push("handoffs");
    }
    if holds("pages", store.pages.iter().map(|r| r.rowid).collect()) {
        hits.push("pages");
    }
    hits
}

fn scope_of(store: &Store, id: SessionId) -> Option<(Vec<u8>, Vec<u8>)> {
    store
        .sessions
        .iter()
        .find(|s| s.id == id.bytes.to_vec())
        .map(|s| (s.workspace_id.clone(), s.project_id.clone()))
}

#[test]
fn purge_removes_every_layer_and_leaves_only_a_tombstone() {
    let mut fx = fixture();
    let session_id = fx.seed_session(CANARY_A);
    assert!(!fx.canary_hits(CANARY_A).is_empty(), "fixture must actually store the canary");

    let receipt =
        purge_session(&mut fx.store, fx.workspace_id, fx.project_id, session_id).unwrap();

    assert_eq!(receipt.status, SessionPurgeStatus::Purged);
    assert_eq!(receipt.counts.sessions, 1);
    assert_eq!(receipt.counts.observations, 1);
    assert_eq!(receipt.counts.handoffs, 1);
    assert_eq!(receipt.counts.page_versions, 1);
    assert_eq!(receipt.removed_pages, vec![PagePath { path: session_page(session_id) }]);

    assert!(scope_of(&fx.store, session_id).is_none());
    assert_eq!(fx.canary_hits(CANARY_A), Vec::<&str>::new());

    let tombstone = find_session_tombstone(&fx.store, session_id)
        .unwrap()
        .expect("a tombstone must survive");
    assert_eq!(tombstone.tombstone_id, receipt.tombstone_id);
    assert_eq!(tombstone.schema_version, SESSION_PURGE_SCHEMA_VERSION);
    assert_eq!(tombstone.workspace_id, fx.workspace_id);
}

#[test]
fn purge_leaves_a_sibling_session_untouched() {
    let mut fx = fixture();
    let session_a = fx.seed_session(CANARY_A);
    let session_b = fx.seed_session(CANARY_B);

    purge_session(&mut fx.store, fx.workspace_id, fx.project_id, session_a).unwrap();

    assert_eq!(fx.canary_hits(CANARY_A), Vec::<&str>::new());
    assert_eq!(
        fx.canary_hits(CANARY_B),
        vec!["observations", "handoffs", "pages"],
        "B must survive in every layer"
    );
    assert!(find_session_tombstone(&fx.store, session_b).unwrap().is_none());
}

#[test]
fn purge_is_idempotent_and_keeps_the_original_tombstone() {
    let mut fx = fixture();
    let session_id = fx.seed_session(CANARY_A);

    let first = purge_session(&mut fx.store, fx.workspace_id, fx.project_id, session_id).unwrap();
    let second = purge_session(&mut fx.store, fx.workspace_id, fx.project_id, session_id).unwrap();

    assert_eq!(second.status, SessionPurgeStatus::AlreadyPurged);
    assert_eq!(second.tombstone_id, first.tombstone_id);
    assert_eq!(second.purged_at, first.purged_at);
    assert_eq!(second.counts, SessionPurgeCounts::default());
    assert_eq!(fx.canary_hits(CANARY_A), Vec::<&str>::new());
}

#[test]
fn purge_refuses_a_session_that_lives_in_another_project() {
    let mut fx = fixture();
    let session_id = fx.seed_session(CANARY_A);
    let other = ProjectId { bytes: random_id() };

    let err = purge_session(&mut fx.store, fx.workspace_id, other, session_id).unwrap_err();
    assert!(
        matches!(err, StoreError::InvalidState(ref m) if m.contains("different workspace or project")),
        "unexpected error: {err:?}"
    );
    assert!(!fx.canary_hits(CANARY_A).is_empty());
}

#[test]
fn purge_refuses_an_unknown_session() {
    let mut fx = fixture();
    let unknown = SessionId { bytes: random_id() };
    let err =
        purge_session(&mut fx.store, fx.workspace_id, fx.project_id, unknown).unwrap_err();
    assert!(matches!(err, StoreError::NotFound(_)), "{err:?}");
}

#[test]
fn tombstones_are_scoped_so_a_same_id_session_elsewhere_still_ingests() {
    let mut fx = fixture();
    let session_id = fx.seed_session(CANARY_A);
    let other = ProjectId { bytes: random_id() };
    purge_session(&mut fx.store, fx.workspace_id, fx.project_id, session_id).unwrap();

    assert!(is_session_purged(&fx.store, fx.workspace_id, fx.project_id, session_id).unwrap());
    assert!(
        !is_session_purged(&fx.store, fx.workspace_id, other, session_id).unwrap(),
        "a tombstone must not suppress the same UUID in a different project"
    );
}

#[test]
fn busy_detection_reports_an_open_session() {
    let mut fx = fixture();
    let session_id = fx.seed_session(CANARY_A);
    assert_eq!(
        session_purge_is_busy(&fx.store, session_id).unwrap().as_deref(),
        Some("session is still open")
    );
    fx.store.sessions[0].ended_at = Some(1);
    assert_eq!(session_purge_is_busy(&fx.store, session_id).unwrap(), None);
}

#[test]
fn busy_detection_reports_jobs_before_claims() {
    let mut fx = fixture();
    let session_id = fx.seed_session(CANARY_A);
    fx.store.sessions[0].ended_at = Some(1);
    fx.store.claims.push(ClaimRow { rowid: 90, session_id: session_id.bytes.to_vec() });
    assert_eq!(
        session_purge_is_busy(&fx.store, session_id).unwrap().as_deref(),
        Some("an auto-improvement claim is outstanding")
    );
    for state in ["pending", "running"] {
        fx.store.jobs.push(JobRow {
            rowid: 91,
            session_id: session_id.bytes.to_vec(),
            state: state.to_string(),
        });
        assert_eq!(
            session_purge_is_busy(&fx.store, session_id).unwrap().as_deref(),
            Some("a consolidation job is queued or running")
        );
        fx.store.jobs.pop();
    }
    fx.store.jobs.push(JobRow {
        rowid: 92,
        session_id: session_id.bytes.to_vec(),
        state: "done".to_string(),
    });
    fx.store.claims.clear();
    assert_eq!(session_purge_is_busy(&fx.store, session_id).unwrap(), None);
}

#[test]
fn page_provenance_survives_a_rewrite_that_declares_none() {
    let mut fx = fixture();
    let session_id = fx.seed_session(CANARY_A);
    let path = session_page(session_id);
    fx.upsert_page(&path, None, &format!("rewritten {CANARY_A}"));

    let inherited = fx.store.pages.last().unwrap().source_session_id.clone();
    assert_eq!(
        inherited.as_deref(),
        Some(&session_id.bytes[..]),
        "a rewrite must inherit the superseded version's provenance"
    );

    let receipt =
        purge_session(&mut fx.store, fx.workspace_id, fx.project_id, session_id).unwrap();
    assert_eq!(receipt.counts.page_versions, 2, "both versions must go");
    assert_eq!(fx.canary_hits(CANARY_A), Vec::<&str>::new());
}

#[test]
fn every_version_of_the_session_page_goes_without_provenance() {
    let mut fx = fixture();
    let session_id = fx.begin_session();
    fx.upsert_page(&session_page(session_id), None, CANARY_A);
    fx.upsert_page("notes/other.md", None, CANARY_B);
    let receipt =
        purge_session(&mut fx.store, fx.workspace_id, fx.project_id, session_id).unwrap();
    assert_eq!(receipt.counts.page_versions, 1);
    assert_eq!(fx.canary_hits(CANARY_A), Vec::<&str>::new());
    assert_eq!(fx.canary_hits(CANARY_B), vec!["pages"]);
}

#[test]
fn purge_removes_multi_page_output_by_provenance_alone() {
    let mut fx = fixture();
    let session_id = fx.seed_session(CANARY_A);
    let derived = PagePath { path: "architecture/decisions.md".to_string() };
    fx.upsert_page(
        "architecture/decisions.md",
        Some(session_id),
        &format!("derived from {CANARY_A}"),
    );

    let receipt =
        purge_session(&mut fx.store, fx.workspace_id, fx.project_id, session_id).unwrap();
    assert!(
        receipt.removed_pages.contains(&derived),
        "removed pages must include multi-page output: {:?}",
        receipt.removed_pages
    );
    assert_eq!(fx.canary_hits(CANARY_A), Vec::<&str>::new());
}

#[test]
fn purge_removes_a_session_from_every_layer_and_spares_its_sibling() {
    let mut fx = fixture();
    let a = fx.seed(CANARY_A);
    let b = fx.seed(CANARY_B);
    assert!(!fx.canary_hits(CANARY_A).is_empty());
    assert!(!fx.canary_hits(CANARY_B).is_empty());

    let receipt = purge_session(&mut fx.store, fx.workspace_id, fx.project_id, a).unwrap();
    assert_eq!(receipt.status, SessionPurgeStatus::Purged);
    assert!(
        receipt.removed_pages.contains(&PagePath { path: session_page(a) }),
        "the session page must be among the removed pages"
    );
    assert_eq!(
        receipt.removed_pages.len(),
        2,
        "multi-page output is found by provenance, not just the session path"
    );
    assert_eq!(fx.canary_hits(CANARY_A), Vec::<&str>::new());
    assert_eq!(
        fx.canary_hits(CANARY_B),
        vec!["observations", "handoffs", "pages"],
        "B must be untouched in every layer"
    );
    assert!(scope_of(&fx.store, a).is_none());
    assert!(scope_of(&fx.store, b).is_some());
    assert!(is_session_purged(&fx.store, fx.workspace_id, fx.project_id, a).unwrap());
    assert!(!is_session_purged(&fx.store, fx.workspace_id, fx.project_id, b).unwrap());
}

#[test]
fn a_restored_pre_purge_snapshot_is_re_purged_before_it_can_be_served() {
    let mut fx = fixture();
    let a = fx.seed(CANARY_A);
    fx.seed(CANARY_B);
    let snapshot = fx.store.clone();

    purge_session(&mut fx.store, fx.workspace_id, fx.project_id, a).unwrap();
    let ledger = read_ledger_from_db(Some(&fx.store)).unwrap();
    assert_eq!(ledger.len(), 1);

    fx.store = snapshot;
    assert!(
        !fx.canary_hits(CANARY_A).is_empty(),
        "the snapshot must genuinely resurrect A, or this proves nothing"
    );
    assert_eq!(
        count_resurrected(&fx.store).unwrap(),
        0,
        "the restored snapshot has no ledger of its own yet"
    );

    let repurged = reapply_ledger(&mut fx.store, &ledger).unwrap();
    assert_eq!(repurged.len(), 1);
    assert_eq!(repurged[0].session_id, a);
    assert_eq!(
        repurged[0].repo_paths.len(),
        2,
        "the caller is told which files and history to reapply"
    );
    let scope = format!("{}/{}", fx.workspace_id.to_text(), fx.project_id.to_text());
    assert_eq!(
        repurged[0].repo_paths,
        vec![
            format!("{scope}/derived/{}-notes.md", a.to_text()),
            format!("{scope}/{}", session_page(a)),
        ]
    );

    assert_eq!(
        fx.canary_hits(CANARY_A),
        Vec::<&str>::new(),
        "a restore must not serve content the ledger says was deleted"
    );
    assert_eq!(
        fx.canary_hits(CANARY_B),
        vec!["observations", "handoffs", "pages"],
        "reapplying the ledger must not harm sessions it does not cover"
    );
    assert_eq!(
        count_resurrected(&fx.store).unwrap(),
        0,
        "the fail-closed check must pass once the ledger is reapplied"
    );

    let after = read_ledger_from_db(Some(&fx.store)).unwrap();
    assert_eq!(after.len(), 1);
    assert_eq!(after[0].tombstone_id, ledger[0].tombstone_id);
    assert_eq!(after[0].purged_at, ledger[0].purged_at);
}

#[test]
fn a_snapshot_taken_after_the_purge_carries_the_tombstone_and_not_the_data() {
    let mut fx = fixture();
    let a = fx.seed(CANARY_A);
    let receipt = purge_session(&mut fx.store, fx.workspace_id, fx.project_id, a).unwrap();

    let post = fx.store.clone();
    assert_eq!(
        layers_holding(&post, &fx.bodies, CANARY_A),
        Vec::<&str>::new(),
        "a post-purge snapshot must not contain the purged content"
    );
    let ledger = read_ledger_from_db(Some(&post)).unwrap();
    assert_eq!(ledger.len(), 1, "and it must carry the tombstone");
    assert_eq!(ledger[0].tombstone_id, receipt.tombstone_id);
    assert!(receipt.backup_cutoff >= receipt.purged_at);
}

#[test]
fn purging_a_second_time_changes_nothing() {
    let mut fx = fixture();
    let a = fx.seed(CANARY_A);
    let first = purge_session(&mut fx.store, fx.workspace_id, fx.project_id, a).unwrap();
    let counts_after_first = fx.store.pages.len();

    let second = purge_session(&mut fx.store, fx.workspace_id, fx.project_id, a).unwrap();
    assert_eq!(second.status, SessionPurgeStatus::AlreadyPurged);
    assert_eq!(second.tombstone_id, first.tombstone_id);
    assert_eq!(second.purged_at, first.purged_at);
    assert_eq!(
        counts_after_first,
        fx.store.pages.len(),
        "a repeat purge must not change any counts"
    );
    assert_eq!(fx.store.tombstones.len(), 1);
    assert_eq!(fx.store.audits.len(), 1);
}

#[test]
fn a_purge_cannot_be_aimed_at_another_projects_session() {
    let mut fx = fixture();
    let a = fx.seed(CANARY_A);
    let other = ProjectId { bytes: random_id() };
    let err = purge_session(&mut fx.store, fx.workspace_id, other, a).unwrap_err();
    assert_eq!(
        err,
        StoreError::InvalidState(
            "session id belongs to a different workspace or project".to_string()
        )
    );
    assert!(
        !fx.canary_hits(CANARY_A).is_empty(),
        "a misdirected purge must not remove anything"
    );
    assert!(fx.store.tombstones.is_empty());
}

#[test]
fn a_tombstone_of_another_scope_is_a_conflict() {
    let mut fx = fixture();
    let a = fx.seed(CANARY_A);
    let other = ProjectId { bytes: random_id() };
    purge_session(&mut fx.store, fx.workspace_id, fx.project_id, a).unwrap();
    let err = purge_session(&mut fx.store, fx.workspace_id, other, a).unwrap_err();
    assert!(matches!(err, StoreError::InvalidState(_)));
}

/// Everything that auto-improvement derived from the session goes with it; what
/// belongs to other runs stays.
#[test]
fn auto_improvement_artifacts_go_with_their_session() {
    let mut fx = fixture();
    let a = fx.seed_session(CANARY_A);
    let b = fx.seed_session(CANARY_B);
    let run_a = random_id().to_vec();
    let run_b = random_id().to_vec();
    let prop_a = random_id().to_vec();
    let prop_b = random_id().to_vec();
    let applied = fx.upsert_page("guides/applied.md", None, CANARY_A);
    fx.upsert_page("guides/applied.md", None, CANARY_A);
    fx.store.runs.push(RunRow {
        rowid: 50,
        id: run_a.clone(),
        source_session_id: Some(a.bytes.to_vec()),
        session_id: None,
    });
    fx.store.runs.push(RunRow {
        rowid: 51,
        id: run_b.clone(),
        source_session_id: None,
        session_id: Some(b.bytes.to_vec()),
    });
    fx.store.proposals.push(ProposalRow {
        rowid: 52,
        id: prop_a.clone(),
        run_id: run_a.clone(),
        applied_page_id: Some(applied),
    });
    fx.store.proposals.push(ProposalRow {
        rowid: 53,
        id: prop_b.clone(),
        run_id: run_b.clone(),
        applied_page_id: None,
    });
    fx.store.events.push(EventRow { rowid: 54, proposal_id: prop_a.clone() });
    fx.store.events.push(EventRow { rowid: 55, proposal_id: prop_b.clone() });
    for (rowid, session, run, proposal) in [
        (56, Some(a.bytes.to_vec()), None, None),
        (57, None, Some(run_a.clone()), None),
        (58, None, None, Some(prop_a.clone())),
        (59, Some(b.bytes.to_vec()), Some(run_b.clone()), Some(prop_b.clone())),
    ] {
        fx.store.rejections.push(RejectionRow {
            rowid,
            source_session_id: session,
            source_run_id: run,
            source_proposal_id: proposal,
        });
    }
    fx.store.handoffs.push(HandoffRow {
        rowid: 60,
        from_session_id: Some(b.bytes.to_vec()),
        accepted_by_session: Some(a.bytes.to_vec()),
    });
    fx.store.jobs.push(JobRow {
        rowid: 61,
        session_id: a.bytes.to_vec(),
        state: "done".to_string(),
    });
    fx.store.claims.push(ClaimRow { rowid: 62, session_id: a.bytes.to_vec() });

    let receipt = purge_session_at(
        &mut fx.store,
        fx.workspace_id,
        fx.project_id,
        a,
        1_700_000_000_000_000,
        Uuid { bytes: [7; 16] },
    )
    .unwrap();

    assert_eq!(
        receipt.counts,
        SessionPurgeCounts {
            sessions: 1,
            observations: 1,
            handoffs: 2,
            consolidation_jobs: 1,
            auto_improve_scheduler_claims: 1,
            auto_improve_runs: 1,
            auto_improve_proposals: 1,
            auto_improve_proposal_events: 1,
            auto_improve_rejections: 3,
            page_versions: 3,
        }
    );
    assert_eq!(receipt.tombstone_id, Uuid { bytes: [7; 16] });
    assert_eq!(receipt.purged_at.microsecond, 1_700_000_000_000_000);
    assert_eq!(receipt.removed_proposal_sidecars.len(), 1);
    assert_eq!(receipt.removed_proposal_sidecars[0].bytes.to_vec(), prop_a);
    assert_eq!(
        receipt.removed_pages,
        vec![
            PagePath { path: "guides/applied.md".to_string() },
            PagePath { path: session_page(a) },
        ]
    );
    assert_eq!(fx.store.runs.len(), 1);
    assert_eq!(fx.store.proposals[0].id, prop_b);
    assert_eq!(fx.store.events[0].rowid, 55);
    assert_eq!(fx.store.rejections.len(), 1);
    assert_eq!(fx.store.rejections[0].rowid, 59);
    assert_eq!(fx.store.tombstones[0].audit_id, Some(0));
    assert_eq!(fx.store.audits[0].action, "purge_session");
    assert_eq!(fx.store.audits[0].at, 1_700_000_000_000_000);
}

#[test]
fn entities_go_only_with_their_last_link() {
    let mut fx = fixture();
    let a = fx.begin_session();
    let page = fx.upsert_page(&session_page(a), Some(a), CANARY_A);
    let kept_page = fx.upsert_page("notes/kept.md", None, CANARY_B);
    for (rowid, id) in [(70, 1u8), (71, 2), (72, 3)] {
        fx.store.entities.push(EntityRow {
            rowid,
            id: vec![id; 16],
            workspace_id: fx.workspace_id.bytes.to_vec(),
            project_id: fx.project_id.bytes.to_vec(),
        });
    }
    fx.store.entities[2].project_id = random_id().to_vec();
    fx.store.links.push(LinkRow { rowid: 73, entity_id: vec![1; 16], page_id: page.clone() });
    fx.store.links.push(LinkRow { rowid: 74, entity_id: vec![2; 16], page_id: page });
    fx.store.links.push(LinkRow { rowid: 75, entity_id: vec![2; 16], page_id: kept_page });

    purge_session(&mut fx.store, fx.workspace_id, fx.project_id, a).unwrap();
    let left: Vec<i64> = fx.store.entities.iter().map(|e| e.rowid).collect();
    assert_eq!(left, vec![71, 72]);
    assert_eq!(fx.store.links.len(), 1);
    assert_eq!(fx.store.links[0].rowid, 75);
}

#[test]
fn a_malformed_proposal_id_refuses_the_purge() {
    let mut fx = fixture();
    let a = fx.seed_session(CANARY_A);
    fx.store.runs.push(RunRow {
        rowid: 1,
        id: vec![1],
        source_session_id: None,
        session_id: Some(a.bytes.to_vec()),
    });
    fx.store.proposals.push(ProposalRow {
        rowid: 2,
        id: vec![9; 15],
        run_id: vec![1],
        applied_page_id: None,
    });
    let err = purge_session(&mut fx.store, fx.workspace_id, fx.project_id, a).unwrap_err();
    assert_eq!(err, StoreError::InvalidState("malformed uuid blob".to_string()));
    assert!(!fx.canary_hits(CANARY_A).is_empty());
    assert!(fx.store.tombstones.is_empty());
}

#[test]
fn a_malformed_page_path_refuses_the_purge() {
    let mut fx = fixture();
    let a = fx.seed_session(CANARY_A);
    let b = fx.seed_session(CANARY_B);
    for path in ["b/../x", "a/../x"] {
        fx.upsert_page(path, Some(a), CANARY_A);
    }
    // A proposal with a malformed id is found only after the paths.
    fx.store.runs.push(RunRow {
        rowid: 1,
        id: vec![1],
        source_session_id: None,
        session_id: Some(a.bytes.to_vec()),
    });
    fx.store.proposals.push(ProposalRow {
        rowid: 2,
        id: vec![9; 15],
        run_id: vec![1],
        applied_page_id: None,
    });
    for (path, reason) in [("b/../x", "second"), ("a/../x", "first"), ("other", "third")] {
        fx.store
            .refused_paths
            .push(PathRefusal { path: path.to_string(), reason: reason.to_string() });
    }
    let err = purge_session(&mut fx.store, fx.workspace_id, fx.project_id, a).unwrap_err();
    assert_eq!(err, StoreError::InvalidState("page path: first".to_string()));
    assert!(!fx.canary_hits(CANARY_A).is_empty());
    assert!(fx.store.tombstones.is_empty());
    // Refused paths that are not derived from a session do not stop its purge.
    purge_session(&mut fx.store, fx.workspace_id, fx.project_id, b).unwrap();
    assert_eq!(fx.canary_hits(CANARY_B), Vec::<&str>::new());
}

#[test]
fn an_instant_out_of_range_refuses_the_purge() {
    let mut fx = fixture();
    let a = fx.seed_session(CANARY_A);
    let err = purge_session_at(
        &mut fx.store,
        fx.workspace_id,
        fx.project_id,
        a,
        253_402_207_200_000_001,
        Uuid { bytes: [7; 16] },
    )
    .unwrap_err();
    assert_eq!(err, StoreError::InvalidState(format!("purge timestamp: {OUT_OF_RANGE}")));
    assert!(!fx.canary_hits(CANARY_A).is_empty());
    for at in [253_402_207_200_000_000i64, -377_705_023_201_000_000] {
        let mut copy = fx.store.clone();
        let receipt = purge_session_at(
            &mut copy,
            fx.workspace_id,
            fx.project_id,
            a,
            at,
            Uuid { bytes: [7; 16] },
        )
        .unwrap();
        assert_eq!(receipt.purged_at.microsecond, at);
    }
}

fn tombstone_row(session: u8, purged_at: i64) -> TombstoneRow {
    TombstoneRow {
        session_id: vec![session; 16],
        workspace_id: vec![1; 16],
        project_id: vec![2; 16],
        tombstone_id: vec![session; 16],
        schema_version: 1,
        purged_at,
        audit_id: None,
    }
}

#[test]
fn malformed_tombstones_are_reported() {
    let mut store = Store::new();
    store.tombstones.push(tombstone_row(1, 10));
    store.tombstones[0].workspace_id = vec![1; 3];
    let id = SessionId { bytes: [1; 16] };
    assert_eq!(find_session_tombstone(&store, id).unwrap_err(), StoreError::InvalidId);
    store.tombstones[0] = tombstone_row(1, 10);
    store.tombstones[0].tombstone_id = vec![];
    assert_eq!(
        all_tombstones(&store).unwrap_err(),
        StoreError::InvalidState("malformed uuid blob".to_string())
    );
    store.tombstones[0] = tombstone_row(1, i64::MAX);
    assert_eq!(
        find_session_tombstone(&store, id).unwrap_err(),
        StoreError::InvalidState(format!("tombstone timestamp: {OUT_OF_RANGE}"))
    );
}

#[test]
fn the_ledger_is_read_newest_first() {
    let mut store = Store::new();
    for (session, at) in [(1u8, 10), (2, 30), (3, 20), (4, 30)] {
        store.tombstones.push(tombstone_row(session, at));
    }
    let order: Vec<u8> =
        all_tombstones(&store).unwrap().iter().map(|t| t.session_id.bytes[0]).collect();
    assert_eq!(order, vec![2, 4, 3, 1]);
    // The newest malformed row decides.
    store.tombstones[0].project_id = vec![];
    store.tombstones[2].tombstone_id = vec![];
    assert_eq!(
        all_tombstones(&store).unwrap_err(),
        StoreError::InvalidState("malformed uuid blob".to_string())
    );
}

#[test]
fn a_missing_database_has_an_empty_ledger() {
    assert!(read_ledger_from_db(None).unwrap().is_empty());
}

#[test]
fn import_keeps_what_is_there() {
    let mut source = Store::new();
    for (session, at) in [(1u8, 10), (2, 20), (3, 30)] {
        source.tombstones.push(tombstone_row(session, at));
    }
    source.tombstones[2].project_id = vec![9; 16];
    let ledger = all_tombstones(&source).unwrap();

    let mut store = Store::new();
    store.tombstones.push(tombstone_row(2, 99));
    assert_eq!(import_tombstones(&mut store, &ledger).unwrap(), 2);
    assert_eq!(store.tombstones.len(), 3);
    assert_eq!(store.tombstones[0].purged_at, 99);
    assert_eq!(store.tombstones[1].session_id, vec![3; 16]);
    assert_eq!(store.tombstones[1].project_id, vec![9; 16]);
    assert_eq!(store.tombstones[2].session_id, vec![1; 16]);
    assert_eq!(store.tombstones[2].audit_id, None);
    assert_eq!(import_tombstones(&mut store, &ledger).unwrap(), 0);
}

#[test]
fn a_tombstone_is_imported_though_its_scope_is_gone() {
    let mut source = Store::new();
    source.tombstones.push(tombstone_row(7, 10));
    let ledger = all_tombstones(&source).unwrap();
    let mut store = Store::new();
    assert_eq!(import_tombstones(&mut store, &ledger).unwrap(), 1);
    let id = SessionId { bytes: [7; 16] };
    let found = find_session_tombstone(&store, id).unwrap().unwrap();
    assert_eq!(found.tombstone_id, Uuid { bytes: [7; 16] });
    assert_eq!(found.purged_at.microsecond, 10);
}

#[test]
fn repurging_restores_the_original_id_and_time() {
    let mut fx = fixture();
    let a = fx.seed(CANARY_A);
    let snapshot = fx.store.clone();
    let first = purge_session_at(
        &mut fx.store,
        fx.workspace_id,
        fx.project_id,
        a,
        1_000,
        Uuid { bytes: [3; 16] },
    )
    .unwrap();
    let ledger = all_tombstones(&fx.store).unwrap();

    fx.store = snapshot;
    import_tombstones(&mut fx.store, &ledger).unwrap();
    fx.store.tombstones[0].schema_version = 0;
    let work = resurrected_sessions(&fx.store).unwrap();
    assert_eq!(work.len(), 1);
    assert_eq!(work[0].schema_version, 0);
    let again = repurge_tombstoned_session_at(&mut fx.store, &work[0], 5_000).unwrap();
    assert_eq!(again.status, SessionPurgeStatus::Purged);
    assert_eq!(again.tombstone_id, first.tombstone_id);
    assert_eq!(again.purged_at, first.purged_at);
    assert_eq!(again.backup_cutoff.microsecond, 5_000);
    assert_eq!(again.counts, first.counts);
    let row = find_session_tombstone(&fx.store, a).unwrap().unwrap();
    assert_eq!(row.schema_version, SESSION_PURGE_SCHEMA_VERSION);
    assert_eq!(row.purged_at.microsecond, 1_000);
    assert_eq!(fx.store.audits.last().unwrap().at, 5_000);
}

#[test]
fn a_refused_repurge_leaves_the_ledger_as_it_was() {
    let mut fx = fixture();
    let a = fx.seed(CANARY_A);
    let other = ProjectId { bytes: random_id() };
    let tombstone = ai_memory_purge::session_purge::SessionTombstone {
        session_id: a,
        workspace_id: fx.workspace_id,
        project_id: other,
        tombstone_id: Uuid { bytes: [3; 16] },
        schema_version: 1,
        purged_at: ai_memory_purge::clock::Timestamp { microsecond: 7 },
    };
    let ledger = vec![tombstone];
    let err = reapply_ledger(&mut fx.store, &ledger).unwrap_err();
    assert_eq!(
        err,
        StoreError::InvalidState(
            "session id belongs to a different workspace or project".to_string()
        )
    );
    assert!(!fx.canary_hits(CANARY_A).is_empty());
    // The session stays covered, so the last check does not pass.
    assert_eq!(all_tombstones(&fx.store).unwrap(), ledger);
    assert_eq!(count_resurrected(&fx.store).unwrap(), 1);

    assert!(repurge_tombstoned_session(&mut fx.store, &tombstone).is_err());
    assert_eq!(fx.store.tombstones.len(), 1);
    assert_eq!(fx.store.tombstones[0].audit_id, None);
    assert!(fx.store.audits.is_empty());
}

#[test]
fn a_ledger_is_reapplied_at_given_instants() {
    let mut fx = fixture();
    let a = fx.seed(CANARY_A);
    let b = fx.seed(CANARY_B);
    let early = fx.seed("canary-charlie-0a4d");
    purge_session_at(
        &mut fx.store,
        fx.workspace_id,
        fx.project_id,
        early,
        500,
        Uuid { bytes: [1; 16] },
    )
    .unwrap();
    // The snapshot has a ledger of its own.
    let snapshot = fx.store.clone();
    for (session, at, id) in [(a, 1_000, 2), (b, 2_000, 3)] {
        purge_session_at(
            &mut fx.store,
            fx.workspace_id,
            fx.project_id,
            session,
            at,
            Uuid { bytes: [id; 16] },
        )
        .unwrap();
    }
    let ledger = all_tombstones(&fx.store).unwrap();
    assert_eq!(ledger.len(), 3);

    fx.store = snapshot.clone();
    let again = reapply_ledger_at(&mut fx.store, &ledger, &vec![7_000, 8_000]).unwrap();
    let sessions: Vec<SessionId> = again.iter().map(|r| r.session_id).collect();
    assert_eq!(sessions, vec![b, a], "newest first");
    let audits: Vec<i64> = fx.store.audits.iter().map(|r| r.at).collect();
    assert_eq!(audits, vec![500, 7_000, 8_000]);
    assert_eq!(fx.canary_hits(CANARY_A), Vec::<&str>::new());
    assert_eq!(fx.canary_hits(CANARY_B), Vec::<&str>::new());
    assert_eq!(count_resurrected(&fx.store).unwrap(), 0);
    assert_eq!(all_tombstones(&fx.store).unwrap(), ledger);

    // Once more purges nothing and changes nothing.
    let tombstones = fx.store.tombstones.clone();
    assert!(reapply_ledger_at(&mut fx.store, &ledger, &Vec::new()).unwrap().is_empty());
    assert!(reapply_ledger(&mut fx.store, &ledger).unwrap().is_empty());
    assert_eq!(format!("{tombstones:?}"), format!("{:?}", fx.store.tombstones));
    assert_eq!(fx.store.audits.len(), 3);

    // A reading that is no instant ends it, with what was done so far in place.
    fx.store = snapshot;
    let err = reapply_ledger_at(&mut fx.store, &ledger, &vec![7_000, i64::MAX]).unwrap_err();
    assert_eq!(err, StoreError::InvalidState(format!("purge timestamp: {OUT_OF_RANGE}")));
    assert_eq!(fx.canary_hits(CANARY_B), Vec::<&str>::new());
    assert!(!fx.canary_hits(CANARY_A).is_empty());
    assert_eq!(count_resurrected(&fx.store).unwrap(), 1);
    assert!(find_session_tombstone(&fx.store, a).unwrap().is_some());
}

#[test]
fn statuses_have_stable_names() {
    assert_eq!(SessionPurgeStatus::Purged.as_str(), "purged");
    assert_eq!(SessionPurgeStatus::AlreadyPurged.as_str(), "already_purged");
}
