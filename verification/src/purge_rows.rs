//! What a purge does, row by row and column by column.
//!
//! The laws here name no collected list: which row goes is said by the columns of that
//! row and of the rows it points at.

use vstd::prelude::*;

use crate::clock::range_error_text;
use crate::error::{Fault, StoreError};
use crate::ids::{hyphenated, Uuid};
use crate::ledger::{keep_tombstone, repurge_step, repurged};
use crate::ledger_laws::lemma_staged;
use crate::order::{before, lemma_before_total, lemma_before_transitive};
use crate::purge_laws::{lemma_proposal_collected, lemma_run_collected, lemma_session_at};
use crate::session_purge::{
    busy_reason, claimed, derived_proposals, derived_runs, entity_linked, entry_fault,
    first_refused_path, job_pending, keep_claim, keep_entity, keep_event, keep_handoff, keep_job,
    keep_link, keep_observation, keep_page, keep_proposal, keep_rejection, keep_run, keep_session,
    lists_derived_paths, page_derived, page_goes, page_paths, path_derived, purge_step, purged,
    purged_in, refusal_at, refused_path, removal_fault, run_of, session_at, staged_by,
    staged_proposals, still_open, tombstone_at, tombstone_of, uuids, well_formed_ids,
    SessionPurgeReceipt,
};
use crate::store::{
    lemma_filter, AuditView, ClaimRow, EntityRow, EventRow, HandoffRow, JobRow, LedgerEntry,
    LinkRow, ObservationRow, PageRow, PathRefusalView, ProposalRow, RejectionRow, RunRow,
    SessionRow, StoreView, TombstoneView,
};

verus! {

/// The nullable column is not null, and holds `id`.
pub open spec fn holds(column: Option<Vec<u8>>, id: Seq<u8>) -> bool {
    match column {
        Some(v) => v@ == id,
        None => false,
    }
}

/// Some run row has this id and names the session in one of its two session columns.
pub open spec fn names_run(st: StoreView, session: Seq<u8>, id: Seq<u8>) -> bool {
    exists|k: int|
        0 <= k < st.runs.len() && (#[trigger] st.runs[k]).id@ == id && (holds(
            st.runs[k].source_session_id,
            session,
        ) || holds(st.runs[k].session_id, session))
}

/// Some proposal row has this id, and its `run_id` is that of such a run.
pub open spec fn names_proposal(st: StoreView, session: Seq<u8>, id: Seq<u8>) -> bool {
    exists|k: int|
        0 <= k < st.proposals.len() && (#[trigger] st.proposals[k]).id@ == id && names_run(
            st,
            session,
            st.proposals[k].run_id@,
        )
}

/// Some proposal of the session has been applied as the page version `page`.
pub open spec fn names_page(st: StoreView, session: Seq<u8>, page: Seq<u8>) -> bool {
    exists|k: int|
        0 <= k < st.proposals.len() && holds((#[trigger] st.proposals[k]).applied_page_id, page)
            && names_proposal(st, session, st.proposals[k].id@)
}

/// The columns of `page` say that it comes from the session: in the scope, it names
/// the session or lies at `sessions/<id>.md`; or a proposal of the session was applied
/// as it.
pub open spec fn comes_from(
    st: StoreView,
    workspace: Seq<u8>,
    project: Seq<u8>,
    session: Seq<u8>,
    page: PageRow,
) -> bool {
    ||| page.workspace_id@ == workspace && page.project_id@ == project && (holds(
        page.source_session_id,
        session,
    ) || page.path@ == "sessions/"@ + hyphenated(session) + ".md"@)
    ||| names_page(st, session, page.id@)
}

/// Some page version at `path` comes from the session.
pub open spec fn path_comes_from(
    st: StoreView,
    workspace: Seq<u8>,
    project: Seq<u8>,
    session: Seq<u8>,
    path: Seq<char>,
) -> bool {
    exists|k: int|
        0 <= k < st.pages.len() && (#[trigger] st.pages[k]).path@ == path && comes_from(
            st,
            workspace,
            project,
            session,
            st.pages[k],
        )
}

/// `page` lies in the scope, at a path of which some version comes from the session.
pub open spec fn taken(
    st: StoreView,
    workspace: Seq<u8>,
    project: Seq<u8>,
    session: Seq<u8>,
    page: PageRow,
) -> bool {
    page.workspace_id@ == workspace && page.project_id@ == project && path_comes_from(
        st,
        workspace,
        project,
        session,
        page.path@,
    )
}

/// Some page version with this id is taken.
pub open spec fn taken_id(
    st: StoreView,
    workspace: Seq<u8>,
    project: Seq<u8>,
    session: Seq<u8>,
    id: Seq<u8>,
) -> bool {
    exists|k: int|
        0 <= k < st.pages.len() && (#[trigger] st.pages[k]).id@ == id && taken(
            st,
            workspace,
            project,
            session,
            st.pages[k],
        )
}

/// Some link row names this entity.
pub open spec fn some_link(links: Seq<LinkRow>, entity: Seq<u8>) -> bool {
    exists|k: int| 0 <= k < links.len() && (#[trigger] links[k]).entity_id@ == entity
}

/// Entities outside the scope, and those that some link row names.
pub open spec fn needed(links: Seq<LinkRow>, workspace: Seq<u8>, project: Seq<u8>) -> spec_fn(
    EntityRow,
) -> bool {
    |e: EntityRow|
        !(e.workspace_id@ == workspace && e.project_id@ == project) || some_link(links, e.id@)
}

/// Predicates that agree on every row pick the same rows.
pub(crate) proof fn lemma_filters_agree<T>(
    rows: Seq<T>,
    p: spec_fn(T) -> bool,
    q: spec_fn(T) -> bool,
)
    requires
        forall|t: T| #[trigger] p(t) == q(t),
    ensures
        rows.filter(p) == rows.filter(q),
{
    assert(p =~= q);
}

/// The collected runs are those that the columns name.
proof fn lemma_names_run(st: StoreView, session: Seq<u8>, id: Seq<u8>)
    ensures
        derived_runs(st, session).contains(id) == names_run(st, session, id),
{
    let picked = st.runs.filter(run_of(session));
    lemma_filter(st.runs, run_of(session));
    if derived_runs(st, session).contains(id) {
        let m = choose|m: int|
            0 <= m < derived_runs(st, session).len() && derived_runs(st, session)[m] == id;
        assert(picked.contains(picked[m]));
        let k = choose|k: int| 0 <= k < st.runs.len() && st.runs[k] == picked[m];
        assert(st.runs[k].id@ == id);
    }
    if names_run(st, session, id) {
        let k = choose|k: int|
            0 <= k < st.runs.len() && (#[trigger] st.runs[k]).id@ == id && (holds(
                st.runs[k].source_session_id,
                session,
            ) || holds(st.runs[k].session_id, session));
        assert(st.runs.contains(st.runs[k]));
        assert(run_of(session)(st.runs[k]));
        lemma_run_collected(st, session, st.runs[k]);
    }
}

/// The collected proposals are those that the columns name.
proof fn lemma_names_proposal(st: StoreView, session: Seq<u8>, id: Seq<u8>)
    ensures
        derived_proposals(st, session).contains(id) == names_proposal(st, session, id),
{
    let runs = derived_runs(st, session);
    if derived_proposals(st, session).contains(id) {
        lemma_staged(st, runs, id);
        let p = choose|p: ProposalRow| #[trigger]
            st.proposals.contains(p) && runs.contains(p.run_id@) && p.id@ == id;
        lemma_names_run(st, session, p.run_id@);
        let k = choose|k: int| 0 <= k < st.proposals.len() && st.proposals[k] == p;
        assert(st.proposals[k].id@ == id);
    }
    if names_proposal(st, session, id) {
        let k = choose|k: int|
            0 <= k < st.proposals.len() && (#[trigger] st.proposals[k]).id@ == id && names_run(
                st,
                session,
                st.proposals[k].run_id@,
            );
        lemma_names_run(st, session, st.proposals[k].run_id@);
        assert(st.proposals.contains(st.proposals[k]));
        lemma_proposal_collected(st, runs, st.proposals[k]);
    }
}

/// The derived pages are those that the columns name.
proof fn lemma_comes_from(
    st: StoreView,
    workspace: Seq<u8>,
    project: Seq<u8>,
    session: Seq<u8>,
    page: PageRow,
)
    ensures
        page_derived(st, workspace, project, session, page) == comes_from(
            st,
            workspace,
            project,
            session,
            page,
        ),
{
    let proposals = derived_proposals(st, session);
    assert forall|id: Seq<u8>| #[trigger]
        proposals.contains(id) == names_proposal(st, session, id) by {
        lemma_names_proposal(st, session, id);
    }
    if names_page(st, session, page.id@) {
        let k = choose|k: int|
            0 <= k < st.proposals.len() && holds(
                (#[trigger] st.proposals[k]).applied_page_id,
                page.id@,
            ) && names_proposal(st, session, st.proposals[k].id@);
        assert(proposals.contains(st.proposals[k].id@));
    }
}

/// The derived paths are those that the columns name.
pub(crate) proof fn lemma_path_comes_from(
    st: StoreView,
    workspace: Seq<u8>,
    project: Seq<u8>,
    session: Seq<u8>,
    path: Seq<char>,
)
    ensures
        path_derived(st, workspace, project, session, path) == path_comes_from(
            st,
            workspace,
            project,
            session,
            path,
        ),
{
    assert forall|p: PageRow| #[trigger]
        page_derived(st, workspace, project, session, p) == comes_from(
            st,
            workspace,
            project,
            session,
            p,
        ) by {
        lemma_comes_from(st, workspace, project, session, p);
    }
    if path_comes_from(st, workspace, project, session, path) {
        let k = choose|k: int|
            0 <= k < st.pages.len() && (#[trigger] st.pages[k]).path@ == path && comes_from(
                st,
                workspace,
                project,
                session,
                st.pages[k],
            );
        assert(page_derived(st, workspace, project, session, st.pages[k]));
    }
}

/// `after` holds, of every table of `st`, the rows that are not said to go by their own
/// columns and those of the rows they point at, in their order, and one audit record
/// more. The ledger is left open.
///
/// Of the session go its own rows and those that name it. Of its runs: every row of such
/// an id. Of their proposals: every row of such an id, its events and its rejections.
/// Of the pages: every version in the scope at a path of which some version comes from
/// the session, with the links to it; and where a version went, the entities of the
/// scope that no link is left to.
pub open spec fn leaves_by_rows(
    st: StoreView,
    after: StoreView,
    workspace: Seq<u8>,
    project: Seq<u8>,
    session: Seq<u8>,
    now: int,
) -> bool {
    &&& after.sessions == st.sessions.filter(|s: SessionRow| s.id@ != session)
    &&& after.observations == st.observations.filter(
        |o: ObservationRow| o.session_id@ != session,
    )
    &&& after.handoffs == st.handoffs.filter(
        |h: HandoffRow|
            !holds(h.from_session_id, session) && !holds(h.accepted_by_session, session),
    )
    &&& after.jobs == st.jobs.filter(|j: JobRow| j.session_id@ != session)
    &&& after.claims == st.claims.filter(|c: ClaimRow| c.session_id@ != session)
    &&& after.runs == st.runs.filter(|x: RunRow| !names_run(st, session, x.id@))
    &&& after.proposals == st.proposals.filter(
        |p: ProposalRow| !names_proposal(st, session, p.id@),
    )
    &&& after.events == st.events.filter(
        |e: EventRow| !names_proposal(st, session, e.proposal_id@),
    )
    &&& after.rejections == st.rejections.filter(
        |x: RejectionRow|
            !holds(x.source_session_id, session) && !(x.source_run_id is Some && names_run(
                st,
                session,
                x.source_run_id->0@,
            )) && !(x.source_proposal_id is Some && names_proposal(
                st,
                session,
                x.source_proposal_id->0@,
            )),
    )
    &&& after.pages == st.pages.filter(
        |p: PageRow| !taken(st, workspace, project, session, p),
    )
    &&& after.links == st.links.filter(
        |l: LinkRow| !taken_id(st, workspace, project, session, l.page_id@),
    )
    &&& after.entities == if after.pages.len() == st.pages.len() {
        st.entities
    } else {
        st.entities.filter(needed(after.links, workspace, project))
    }
    &&& after.audits == st.audits.push(
        AuditView {
            action: "purge_session"@,
            workspace_id: workspace,
            project_id: project,
            at: now,
        },
    )
    &&& after.refused_paths == st.refused_paths
}

/// What a removal leaves is said by the rows.
proof fn lemma_leaves_by_rows(
    st: StoreView,
    after: StoreView,
    workspace: Seq<u8>,
    project: Seq<u8>,
    session: Seq<u8>,
    now: int,
    tombstone_id: Seq<u8>,
)
    requires
        after == (StoreView {
            tombstones: after.tombstones,
            ..purged(st, workspace, project, session, now, tombstone_id)
        }),
    ensures
        leaves_by_rows(st, after, workspace, project, session, now),
{
    let runs = derived_runs(st, session);
    let proposals = derived_proposals(st, session);
    assert forall|id: Seq<u8>| #[trigger] runs.contains(id) == names_run(st, session, id) by {
        lemma_names_run(st, session, id);
    }
    assert forall|id: Seq<u8>| #[trigger]
        proposals.contains(id) == names_proposal(st, session, id) by {
        lemma_names_proposal(st, session, id);
    }
    let keep = keep_page(st, workspace, project, session);
    assert forall|p: PageRow| #[trigger]
        keep(p) == !taken(st, workspace, project, session, p) by {
        lemma_path_comes_from(st, workspace, project, session, p.path@);
    }
    assert forall|id: Seq<u8>| #[trigger]
        page_goes(st.pages, keep, id) == taken_id(st, workspace, project, session, id) by {
        if taken_id(st, workspace, project, session, id) {
            let k = choose|k: int|
                0 <= k < st.pages.len() && (#[trigger] st.pages[k]).id@ == id && taken(
                    st,
                    workspace,
                    project,
                    session,
                    st.pages[k],
                );
            assert(!keep(st.pages[k]));
        }
    }
    lemma_filters_agree(st.sessions, keep_session(session), |s: SessionRow| s.id@ != session);
    lemma_filters_agree(
        st.observations,
        keep_observation(session),
        |o: ObservationRow| o.session_id@ != session,
    );
    lemma_filters_agree(
        st.handoffs,
        keep_handoff(session),
        |h: HandoffRow|
            !holds(h.from_session_id, session) && !holds(h.accepted_by_session, session),
    );
    lemma_filters_agree(st.jobs, keep_job(session), |j: JobRow| j.session_id@ != session);
    lemma_filters_agree(st.claims, keep_claim(session), |c: ClaimRow| c.session_id@ != session);
    lemma_filters_agree(
        st.runs,
        keep_run(runs),
        |x: RunRow| !names_run(st, session, x.id@),
    );
    lemma_filters_agree(
        st.proposals,
        keep_proposal(proposals),
        |p: ProposalRow| !names_proposal(st, session, p.id@),
    );
    lemma_filters_agree(
        st.events,
        keep_event(proposals),
        |e: EventRow| !names_proposal(st, session, e.proposal_id@),
    );
    lemma_filters_agree(
        st.rejections,
        keep_rejection(session, runs, proposals),
        |x: RejectionRow|
            !holds(x.source_session_id, session) && !(x.source_run_id is Some && names_run(
                st,
                session,
                x.source_run_id->0@,
            )) && !(x.source_proposal_id is Some && names_proposal(
                st,
                session,
                x.source_proposal_id->0@,
            )),
    );
    lemma_filters_agree(
        st.pages,
        keep,
        |p: PageRow| !taken(st, workspace, project, session, p),
    );
    lemma_filters_agree(
        st.links,
        keep_link(st.pages, keep),
        |l: LinkRow| !taken_id(st, workspace, project, session, l.page_id@),
    );
    assert forall|id: Seq<u8>| #[trigger]
        entity_linked(after.links, id) == some_link(after.links, id) by {}
    lemma_filters_agree(
        st.entities,
        keep_entity(after.links, workspace, project),
        needed(after.links, workspace, project),
    );
    lemma_filter(st.pages, keep);
}

/// A purge that is carried out leaves exactly the rows that the columns do not say go, and
/// adds one tombstone and the audit record that it points at.
pub proof fn law_purge_by_the_rows(
    st: StoreView,
    after: StoreView,
    workspace: Seq<u8>,
    project: Seq<u8>,
    session: Seq<u8>,
    now: int,
    tombstone_id: Seq<u8>,
    r: Result<SessionPurgeReceipt, StoreError>,
)
    requires
        purge_step(st, after, workspace, project, session, now, tombstone_id, r),
        forall|i: int|
            0 <= i < st.tombstones.len() ==> (#[trigger] st.tombstones[i]).entry.session_id
                != session,
        r is Ok,
    ensures
        leaves_by_rows(st, after, workspace, project, session, now),
        after.tombstones == st.tombstones.push(
            TombstoneView {
                entry: LedgerEntry {
                    session_id: session,
                    workspace_id: workspace,
                    project_id: project,
                    tombstone_id,
                    schema_version: 1,
                    purged_at: now,
                },
                audit_id: Some(st.audits.len() as int),
            },
        ),
{
    lemma_no_tombstone(st.tombstones, session, 0);
    lemma_leaves_by_rows(st, after, workspace, project, session, now, tombstone_id);
}

/// Where no row names the session, the search for its tombstone ends at the table's end.
proof fn lemma_no_tombstone(rows: Seq<TombstoneView>, session: Seq<u8>, from: int)
    requires
        0 <= from <= rows.len(),
        forall|i: int| from <= i < rows.len() ==> (#[trigger] rows[i]).entry.session_id != session,
    ensures
        tombstone_at(rows, session, from) == rows.len(),
    decreases rows.len() - from,
{
    if from < rows.len() {
        lemma_no_tombstone(rows, session, from + 1);
    }
}

/// The receipt counts, layer by layer, the rows of `st` that `after` lacks; lists, each
/// once and in order, the paths of which some version comes from the session; names
/// exactly the proposals of the session, run by run; and warns of nothing.
pub open spec fn reports_rows(
    st: StoreView,
    after: StoreView,
    workspace: Seq<u8>,
    project: Seq<u8>,
    session: Seq<u8>,
    receipt: SessionPurgeReceipt,
) -> bool {
    &&& receipt.counts.sessions == st.sessions.len() - after.sessions.len()
    &&& receipt.counts.observations == st.observations.len() - after.observations.len()
    &&& receipt.counts.handoffs == st.handoffs.len() - after.handoffs.len()
    &&& receipt.counts.consolidation_jobs == st.jobs.len() - after.jobs.len()
    &&& receipt.counts.auto_improve_scheduler_claims == st.claims.len() - after.claims.len()
    &&& receipt.counts.auto_improve_runs == st.runs.len() - after.runs.len()
    &&& receipt.counts.auto_improve_proposals == st.proposals.len() - after.proposals.len()
    &&& receipt.counts.auto_improve_proposal_events == st.events.len() - after.events.len()
    &&& receipt.counts.auto_improve_rejections == st.rejections.len() - after.rejections.len()
    &&& receipt.counts.page_versions == st.pages.len() - after.pages.len()
    &&& forall|i: int, j: int|
        0 <= i < j < receipt.removed_pages@.len() ==> before(
            (#[trigger] receipt.removed_pages@[i]).path@,
            (#[trigger] receipt.removed_pages@[j]).path@,
        )
    &&& forall|i: int|
        0 <= i < receipt.removed_pages@.len() ==> path_comes_from(
            st,
            workspace,
            project,
            session,
            (#[trigger] receipt.removed_pages@[i]).path@,
        )
    &&& forall|k: int|
        0 <= k < st.pages.len() && comes_from(
            st,
            workspace,
            project,
            session,
            #[trigger] st.pages[k],
        ) ==> exists|i: int|
            0 <= i < receipt.removed_pages@.len() && (
            #[trigger] receipt.removed_pages@[i]).path@ == st.pages[k].path@
    &&& forall|i: int|
        0 <= i < receipt.removed_proposal_sidecars@.len() ==> names_proposal(
            st,
            session,
            (#[trigger] receipt.removed_proposal_sidecars@[i])@,
        )
    &&& forall|id: Seq<u8>| #[trigger]
        names_proposal(st, session, id) ==> exists|i: int|
            0 <= i < receipt.removed_proposal_sidecars@.len() && (
            #[trigger] receipt.removed_proposal_sidecars@[i])@ == id
    &&& receipt.removed_proposal_sidecars@.map_values(|id: Uuid| id.bytes@) == own_runs(
        st,
        session,
    ).map_values(staged_ids(st)).flatten()
    &&& receipt.warnings@.len() == 0
}

/// The run rows that name the session in one of their two session columns, in their order.
pub open spec fn own_runs(st: StoreView, session: Seq<u8>) -> Seq<RunRow> {
    st.runs.filter(
        |x: RunRow| holds(x.source_session_id, session) || holds(x.session_id, session),
    )
}

/// The ids of the proposal rows that name a run, in their order.
pub open spec fn staged_ids(st: StoreView) -> spec_fn(RunRow) -> Seq<Seq<u8>> {
    |x: RunRow| st.proposals.filter(|p: ProposalRow| p.run_id@ == x.id@).map_values(
        |p: ProposalRow| p.id@,
    )
}

/// The collected proposals stand run by run.
proof fn lemma_staged_in_order(st: StoreView, rows: Seq<RunRow>)
    ensures
        staged_proposals(st, rows.map_values(|r: RunRow| r.id@)) == rows.map_values(
            staged_ids(st),
        ).flatten(),
    decreases rows.len(),
{
    let ids = rows.map_values(|r: RunRow| r.id@);
    let lists = rows.map_values(staged_ids(st));
    lists.lemma_flatten_and_flatten_alt_are_equivalent();
    if rows.len() > 0 {
        let rest = rows.drop_last();
        let last = rows.last();
        lemma_staged_in_order(st, rest);
        rest.map_values(staged_ids(st)).lemma_flatten_and_flatten_alt_are_equivalent();
        assert(ids.drop_last() == rest.map_values(|r: RunRow| r.id@));
        assert(ids.last() == last.id@);
        assert(lists.drop_last() == rest.map_values(staged_ids(st)));
        assert(staged_by(last.id@) =~= (|p: ProposalRow| p.run_id@ == last.id@));
        assert(lists.last() == st.proposals.filter(staged_by(last.id@)).map_values(
            |p: ProposalRow| p.id@,
        ));
    }
}

/// A receipt of the collected lists reports the rows.
proof fn lemma_reports_rows(
    st: StoreView,
    after: StoreView,
    workspace: Seq<u8>,
    project: Seq<u8>,
    session: Seq<u8>,
    receipt: SessionPurgeReceipt,
)
    requires
        receipt.counts.count_difference(st, after),
        lists_derived_paths(
            st,
            workspace,
            project,
            session,
            page_paths(receipt.removed_pages@),
        ),
        uuids(receipt.removed_proposal_sidecars@) == derived_proposals(st, session),
        receipt.warnings@.len() == 0,
    ensures
        reports_rows(st, after, workspace, project, session, receipt),
{
    let pages = receipt.removed_pages@;
    let listed = page_paths(pages);
    assert forall|p: Seq<char>| #[trigger]
        path_derived(st, workspace, project, session, p) == path_comes_from(
            st,
            workspace,
            project,
            session,
            p,
        ) by {
        lemma_path_comes_from(st, workspace, project, session, p);
    }
    assert forall|i: int, j: int| 0 <= i < j < pages.len() implies before(
        (#[trigger] pages[i]).path@,
        (#[trigger] pages[j]).path@,
    ) by {
        assert(listed[i] == pages[i].path@);
        assert(listed[j] == pages[j].path@);
    }
    assert forall|i: int| 0 <= i < pages.len() implies path_comes_from(
        st,
        workspace,
        project,
        session,
        (#[trigger] pages[i]).path@,
    ) by {
        assert(listed[i] == pages[i].path@);
        assert(listed.contains(pages[i].path@));
    }
    assert forall|k: int|
        0 <= k < st.pages.len() && comes_from(
            st,
            workspace,
            project,
            session,
            #[trigger] st.pages[k],
        ) implies exists|i: int|
        0 <= i < pages.len() && (#[trigger] pages[i]).path@ == st.pages[k].path@ by {
        let path = st.pages[k].path@;
        assert(path_comes_from(st, workspace, project, session, path));
        assert(path_derived(st, workspace, project, session, path));
        assert(listed.contains(path));
        let i = choose|i: int| 0 <= i < listed.len() && listed[i] == path;
        assert(pages[i].path@ == path);
    }
    let ids = receipt.removed_proposal_sidecars@;
    assert(run_of(session) =~= (|x: RunRow|
        holds(x.source_session_id, session) || holds(x.session_id, session)));
    lemma_staged_in_order(st, own_runs(st, session));
    assert(derived_runs(st, session) == own_runs(st, session).map_values(|r: RunRow| r.id@));
    assert(ids.map_values(|id: Uuid| id.bytes@) == uuids(ids));
    assert forall|i: int| 0 <= i < ids.len() implies names_proposal(
        st,
        session,
        (#[trigger] ids[i])@,
    ) by {
        assert(uuids(ids)[i] == ids[i]@);
        assert(derived_proposals(st, session).contains(ids[i]@));
        lemma_names_proposal(st, session, ids[i]@);
    }
    assert forall|id: Seq<u8>| #[trigger] names_proposal(st, session, id) implies exists|i: int|
        0 <= i < ids.len() && (#[trigger] ids[i])@ == id by {
        lemma_names_proposal(st, session, id);
        let i = choose|i: int| 0 <= i < uuids(ids).len() && uuids(ids)[i] == id;
        assert(ids[i]@ == id);
    }
}

/// The receipt of a purge that is carried out reports what went, under the id and the time
/// of the tombstone.
pub proof fn law_purge_receipt_by_the_rows(
    st: StoreView,
    after: StoreView,
    workspace: Seq<u8>,
    project: Seq<u8>,
    session: Seq<u8>,
    now: int,
    tombstone_id: Seq<u8>,
    receipt: SessionPurgeReceipt,
)
    requires
        purge_step(st, after, workspace, project, session, now, tombstone_id, Ok(receipt)),
        forall|i: int|
            0 <= i < st.tombstones.len() ==> (#[trigger] st.tombstones[i]).entry.session_id
                != session,
    ensures
        receipt.status is Purged,
        receipt.tombstone_id@ == tombstone_id,
        receipt.purged_at@ == now,
        receipt.backup_cutoff@ == now,
        reports_rows(st, after, workspace, project, session, receipt),
{
    lemma_no_tombstone(st.tombstones, session, 0);
    lemma_reports_rows(st, after, workspace, project, session, receipt);
}

/// The first row of `rows` that names the session is what the search finds.
proof fn lemma_first_tombstone(rows: Seq<TombstoneView>, session: Seq<u8>, from: int, i: int)
    requires
        0 <= from <= i < rows.len(),
        rows[i].entry.session_id == session,
        forall|j: int| from <= j < i ==> (#[trigger] rows[j]).entry.session_id != session,
    ensures
        tombstone_at(rows, session, from) == i,
    decreases i - from,
{
    if from < i {
        lemma_first_tombstone(rows, session, from + 1, i);
    }
}

/// The answer that a tombstone gives to a purge: a malformed row is an error, another
/// scope a conflict, and else the purge is reported as done before, under the row's id and
/// time, with nothing removed.
pub open spec fn answered_by(
    row: LedgerEntry,
    workspace: Seq<u8>,
    project: Seq<u8>,
    session: Seq<u8>,
    r: Result<SessionPurgeReceipt, StoreError>,
) -> bool {
    if session.len() != 16 || row.workspace_id.len() != 16 || row.project_id.len() != 16 {
        r matches Err(StoreError::InvalidId)
    } else if row.tombstone_id.len() != 16 {
        r matches Err(StoreError::InvalidState(m)) && m@ == "malformed uuid blob"@
    } else if row.purged_at < -377705023201000000 || row.purged_at > 253402207200000000 {
        r matches Err(StoreError::InvalidState(m)) && m@ == "tombstone timestamp: "@
            + range_error_text()
    } else if row.workspace_id != workspace || row.project_id != project {
        r matches Err(StoreError::InvalidState(m)) && m@
            == "session id belongs to a different workspace or project"@
    } else {
        &&& r matches Ok(receipt)
        &&& receipt.status is AlreadyPurged
        &&& receipt.tombstone_id@ == row.tombstone_id
        &&& receipt.purged_at@ == row.purged_at
        &&& receipt.backup_cutoff@ == row.purged_at
        &&& receipt.counts.sessions == 0
        &&& receipt.counts.observations == 0
        &&& receipt.counts.handoffs == 0
        &&& receipt.counts.consolidation_jobs == 0
        &&& receipt.counts.auto_improve_scheduler_claims == 0
        &&& receipt.counts.auto_improve_runs == 0
        &&& receipt.counts.auto_improve_proposals == 0
        &&& receipt.counts.auto_improve_proposal_events == 0
        &&& receipt.counts.auto_improve_rejections == 0
        &&& receipt.counts.page_versions == 0
        &&& receipt.removed_pages@.len() == 0
        &&& receipt.removed_proposal_sidecars@.len() == 0
        &&& receipt.warnings@.len() == 0
    }
}

/// A purge of a session that a tombstone names is decided by the first such row alone,
/// and changes nothing.
pub proof fn law_a_tombstone_decides(
    st: StoreView,
    after: StoreView,
    workspace: Seq<u8>,
    project: Seq<u8>,
    session: Seq<u8>,
    now: int,
    tombstone_id: Seq<u8>,
    r: Result<SessionPurgeReceipt, StoreError>,
    i: int,
)
    requires
        purge_step(st, after, workspace, project, session, now, tombstone_id, r),
        0 <= i < st.tombstones.len(),
        st.tombstones[i].entry.session_id == session,
        forall|j: int| 0 <= j < i ==> (#[trigger] st.tombstones[j]).entry.session_id != session,
    ensures
        after == st,
        answered_by(st.tombstones[i].entry, workspace, project, session, r),
{
    lemma_first_tombstone(st.tombstones, session, 0, i);
}

/// The stored path is derived from the session, and some row says what is wrong with it.
pub open spec fn path_is_bad(
    st: StoreView,
    workspace: Seq<u8>,
    project: Seq<u8>,
    session: Seq<u8>,
    path: Seq<char>,
) -> bool {
    path_comes_from(st, workspace, project, session, path) && exists|k: int|
        0 <= k < st.refused_paths.len() && (#[trigger] st.refused_paths[k]).path == path
}

/// The first row that says what is wrong with a path is what the search finds.
proof fn lemma_refusal_at(rows: Seq<PathRefusalView>, path: Seq<char>, from: int)
    requires
        0 <= from <= rows.len(),
    ensures
        from <= refusal_at(rows, path, from) <= rows.len(),
        refusal_at(rows, path, from) < rows.len() ==> rows[refusal_at(rows, path, from)].path
            == path,
        forall|k: int|
            from <= k < refusal_at(rows, path, from) ==> (#[trigger] rows[k]).path != path,
    decreases rows.len() - from,
{
    if from < rows.len() && rows[from].path != path {
        lemma_refusal_at(rows, path, from + 1);
    }
}

/// The refused derived paths are those that the columns and rows name.
proof fn lemma_path_is_bad(
    st: StoreView,
    workspace: Seq<u8>,
    project: Seq<u8>,
    session: Seq<u8>,
    path: Seq<char>,
)
    ensures
        refused_path(st, workspace, project, session, path) == path_is_bad(
            st,
            workspace,
            project,
            session,
            path,
        ),
{
    lemma_path_comes_from(st, workspace, project, session, path);
    lemma_refusal_at(st.refused_paths, path, 0);
    let i = refusal_at(st.refused_paths, path, 0);
    if i < st.refused_paths.len() {
        assert(st.refused_paths[i].path == path);
    }
}

/// Of the refused derived paths among the first `n` page rows, one sorts before all others.
proof fn lemma_least_bad_path(
    st: StoreView,
    workspace: Seq<u8>,
    project: Seq<u8>,
    session: Seq<u8>,
    n: int,
) -> (least: Seq<char>)
    requires
        0 <= n <= st.pages.len(),
        exists|k: int|
            0 <= k < n && refused_path(
                st,
                workspace,
                project,
                session,
                (#[trigger] st.pages[k]).path@,
            ),
    ensures
        refused_path(st, workspace, project, session, least),
        forall|k: int|
            0 <= k < n && refused_path(
                st,
                workspace,
                project,
                session,
                (#[trigger] st.pages[k]).path@,
            ) && st.pages[k].path@ != least ==> before(least, st.pages[k].path@),
    decreases n,
{
    let here = st.pages[n - 1].path@;
    if exists|k: int|
        0 <= k < n - 1 && refused_path(
            st,
            workspace,
            project,
            session,
            (#[trigger] st.pages[k]).path@,
        ) {
        let rest = lemma_least_bad_path(st, workspace, project, session, n - 1);
        lemma_before_total(here, rest);
        if refused_path(st, workspace, project, session, here) && before(here, rest) {
            assert forall|k: int|
                0 <= k < n && refused_path(
                    st,
                    workspace,
                    project,
                    session,
                    (#[trigger] st.pages[k]).path@,
                ) && st.pages[k].path@ != here implies before(here, st.pages[k].path@) by {
                if st.pages[k].path@ != rest {
                    lemma_before_transitive(here, rest, st.pages[k].path@);
                }
            }
            here
        } else {
            rest
        }
    } else {
        here
    }
}

/// Where some derived path is refused, one is the first.
proof fn lemma_first_refused_exists(
    st: StoreView,
    workspace: Seq<u8>,
    project: Seq<u8>,
    session: Seq<u8>,
    path: Seq<char>,
)
    requires
        refused_path(st, workspace, project, session, path),
    ensures
        exists|p: Seq<char>| #[trigger] first_refused_path(st, workspace, project, session, p),
{
    let k = choose|k: int|
        0 <= k < st.pages.len() && (#[trigger] st.pages[k]).path@ == path && page_derived(
            st,
            workspace,
            project,
            session,
            st.pages[k],
        );
    assert(refused_path(st, workspace, project, session, st.pages[k].path@));
    let least = lemma_least_bad_path(st, workspace, project, session, st.pages.len() as int);
    assert forall|p: Seq<char>| #[trigger]
        refused_path(st, workspace, project, session, p) && p != least implies before(least, p) by {
        let m = choose|m: int|
            0 <= m < st.pages.len() && (#[trigger] st.pages[m]).path@ == p && page_derived(
                st,
                workspace,
                project,
                session,
                st.pages[m],
            );
        assert(refused_path(st, workspace, project, session, st.pages[m].path@));
    }
    assert(first_refused_path(st, workspace, project, session, least));
}

/// The message tells what the first row about `path` says of it, and `path` is derived
/// from the session and sorts before every other such path.
pub open spec fn tells_of(
    st: StoreView,
    workspace: Seq<u8>,
    project: Seq<u8>,
    session: Seq<u8>,
    path: Seq<char>,
    k: int,
    message: Seq<char>,
) -> bool {
    &&& path_comes_from(st, workspace, project, session, path)
    &&& forall|p: Seq<char>| #[trigger]
        path_is_bad(st, workspace, project, session, p) && p != path ==> before(path, p)
    &&& 0 <= k < st.refused_paths.len()
    &&& st.refused_paths[k].path == path
    &&& forall|j: int| 0 <= j < k ==> (#[trigger] st.refused_paths[j]).path != path
    &&& message == "page path: "@ + st.refused_paths[k].reason
}

/// The removal of a session is answered by the rows: carried out exactly where the first
/// row of the session exists and lies in the named scope, no derived path is refused,
/// every proposal of the session has an id of sixteen bytes, and the time can be read
/// back. The first of these that fails names the error.
pub open spec fn decided_by_rows(
    st: StoreView,
    workspace: Seq<u8>,
    project: Seq<u8>,
    session: Seq<u8>,
    now: int,
    r: Result<SessionPurgeReceipt, StoreError>,
) -> bool {
    &&& (forall|i: int| 0 <= i < st.sessions.len() ==> (#[trigger] st.sessions[i]).id@ != session)
        ==> (r matches Err(StoreError::NotFound(m)) && m@ == "session"@)
    &&& forall|i: int|
        0 <= i < st.sessions.len() && (#[trigger] st.sessions[i]).id@ == session && (forall|
            j: int,
        |
            0 <= j < i ==> (#[trigger] st.sessions[j]).id@ != session) ==> {
            if st.sessions[i].workspace_id@ != workspace || st.sessions[i].project_id@
                != project {
                r matches Err(StoreError::InvalidState(m)) && m@
                    == "session id belongs to a different workspace or project"@
            } else if exists|p: Seq<char>| #[trigger]
                path_is_bad(st, workspace, project, session, p) {
                r matches Err(StoreError::InvalidState(m)) && exists|p: Seq<char>, k: int|
                    #[trigger] tells_of(st, workspace, project, session, p, k, m@)
            } else if exists|id: Seq<u8>| #[trigger]
                names_proposal(st, session, id) && id.len() != 16 {
                r matches Err(StoreError::InvalidState(m)) && m@ == "malformed uuid blob"@
            } else if now < -377705023201000000 || now > 253402207200000000 {
                r matches Err(StoreError::InvalidState(m)) && m@ == "purge timestamp: "@
                    + range_error_text()
            } else {
                r is Ok
            }
        }
}

/// The fault of a removal is the one that the rows name.
proof fn lemma_decided_by_rows(
    st: StoreView,
    workspace: Seq<u8>,
    project: Seq<u8>,
    session: Seq<u8>,
    now: int,
    r: Result<SessionPurgeReceipt, StoreError>,
)
    requires
        match removal_fault(st, workspace, project, session, now) {
            Some(f) => r matches Err(e) && e@ == f,
            None => r is Ok,
        },
    ensures
        decided_by_rows(st, workspace, project, session, now, r),
{
    lemma_session_at(st.sessions, session, 0);
    let found = session_at(st.sessions, session, 0);
    assert forall|p: Seq<char>| #[trigger]
        refused_path(st, workspace, project, session, p) == path_is_bad(
            st,
            workspace,
            project,
            session,
            p,
        ) by {
        lemma_path_is_bad(st, workspace, project, session, p);
    }
    let proposals = derived_proposals(st, session);
    assert(well_formed_ids(proposals) == !(exists|id: Seq<u8>| #[trigger]
        names_proposal(st, session, id) && id.len() != 16)) by {
        if well_formed_ids(proposals) {
            assert forall|id: Seq<u8>| #[trigger] names_proposal(st, session, id) implies id.len()
                == 16 by {
                lemma_names_proposal(st, session, id);
                let i = choose|i: int| 0 <= i < proposals.len() && proposals[i] == id;
                assert(proposals[i].len() == 16);
            }
        } else {
            let i = choose|i: int|
                0 <= i < proposals.len() && (#[trigger] proposals[i]).len() != 16;
            assert(proposals.contains(proposals[i]));
            lemma_names_proposal(st, session, proposals[i]);
            assert(names_proposal(st, session, proposals[i]));
        }
    }
    assert forall|i: int|
        0 <= i < st.sessions.len() && (#[trigger] st.sessions[i]).id@ == session && (forall|
            j: int,
        |
            0 <= j < i ==> (#[trigger] st.sessions[j]).id@ != session) implies i == found by {
        if found < i {
            assert(st.sessions[found].id@ != session);
        }
    }
    if exists|p: Seq<char>| #[trigger] path_is_bad(st, workspace, project, session, p) {
        let bad = choose|p: Seq<char>| #[trigger]
            path_is_bad(st, workspace, project, session, p);
        assert(refused_path(st, workspace, project, session, bad));
        lemma_first_refused_exists(st, workspace, project, session, bad);
        let first = choose|p: Seq<char>| #[trigger]
            first_refused_path(st, workspace, project, session, p);
        assert(first_refused_path(st, workspace, project, session, first));
        lemma_path_comes_from(st, workspace, project, session, first);
        lemma_refusal_at(st.refused_paths, first, 0);
        let k = refusal_at(st.refused_paths, first, 0);
        let text = "page path: "@ + st.refused_paths[k].reason;
        assert forall|p: Seq<char>| #[trigger]
            path_is_bad(st, workspace, project, session, p) && p != first implies before(
            first,
            p,
        ) by {
            assert(refused_path(st, workspace, project, session, p));
        }
        assert(tells_of(st, workspace, project, session, first, k, text));
    }
}

/// A purge of a session without a tombstone is refused for the cause that the rows name,
/// and for no other; and a refusal changes nothing.
pub proof fn law_purge_is_refused_for_cause(
    st: StoreView,
    after: StoreView,
    workspace: Seq<u8>,
    project: Seq<u8>,
    session: Seq<u8>,
    now: int,
    tombstone_id: Seq<u8>,
    r: Result<SessionPurgeReceipt, StoreError>,
)
    requires
        purge_step(st, after, workspace, project, session, now, tombstone_id, r),
        forall|i: int|
            0 <= i < st.tombstones.len() ==> (#[trigger] st.tombstones[i]).entry.session_id
                != session,
    ensures
        decided_by_rows(st, workspace, project, session, now, r),
        r is Err ==> after == st,
{
    lemma_no_tombstone(st.tombstones, session, 0);
    lemma_decided_by_rows(st, workspace, project, session, now, r);
}

/// What a search for the tombstone of a session finds: nothing where no row names the
/// session, else the first row that does.
pub proof fn law_the_first_tombstone_is_found(st: StoreView, session: Seq<u8>)
    ensures
        tombstone_of(st, session) is None <==> forall|i: int|
            0 <= i < st.tombstones.len() ==> (#[trigger] st.tombstones[i]).entry.session_id
                != session,
        forall|i: int|
            0 <= i < st.tombstones.len() && (#[trigger] st.tombstones[i]).entry.session_id
                == session && (forall|j: int|
                0 <= j < i ==> (#[trigger] st.tombstones[j]).entry.session_id != session)
                ==> tombstone_of(st, session) == Some(st.tombstones[i].entry),
{
    if forall|i: int|
        0 <= i < st.tombstones.len() ==> (#[trigger] st.tombstones[i]).entry.session_id
            != session {
        lemma_no_tombstone(st.tombstones, session, 0);
    } else {
        lemma_some_tombstone(st.tombstones, session, 0);
    }
    assert forall|i: int|
        0 <= i < st.tombstones.len() && (#[trigger] st.tombstones[i]).entry.session_id == session
            && (forall|j: int|
            0 <= j < i ==> (#[trigger] st.tombstones[j]).entry.session_id
                != session) implies tombstone_of(st, session) == Some(
        st.tombstones[i].entry,
    ) by {
        lemma_first_tombstone(st.tombstones, session, 0, i);
    }
}

/// Where some row names the session, the search ends before the table's end.
proof fn lemma_some_tombstone(rows: Seq<TombstoneView>, session: Seq<u8>, from: int)
    requires
        0 <= from,
        exists|i: int| from <= i < rows.len() && (#[trigger] rows[i]).entry.session_id == session,
    ensures
        tombstone_at(rows, session, from) < rows.len(),
    decreases rows.len() - from,
{
    if rows[from].entry.session_id != session {
        lemma_some_tombstone(rows, session, from + 1);
    }
}

/// A tombstone can be read exactly where its four ids have sixteen bytes and its time is
/// in range; a wrong scope or session id is reported before a wrong receipt id, and that
/// before a wrong time.
pub proof fn law_readable_tombstones(e: LedgerEntry)
    ensures
        entry_fault(e) is None <==> e.session_id.len() == 16 && e.workspace_id.len() == 16
            && e.project_id.len() == 16 && e.tombstone_id.len() == 16 && -377705023201000000
            <= e.purged_at <= 253402207200000000,
        (e.session_id.len() != 16 || e.workspace_id.len() != 16 || e.project_id.len() != 16)
            ==> entry_fault(e) == Some(Fault::InvalidId),
        e.session_id.len() == 16 && e.workspace_id.len() == 16 && e.project_id.len() == 16
            && e.tombstone_id.len() != 16 ==> entry_fault(e) == Some(
            Fault::InvalidState("malformed uuid blob"@),
        ),
        e.session_id.len() == 16 && e.workspace_id.len() == 16 && e.project_id.len() == 16
            && e.tombstone_id.len() == 16 && !(-377705023201000000 <= e.purged_at
            <= 253402207200000000) ==> entry_fault(e) == Some(
            Fault::InvalidState("tombstone timestamp: "@ + range_error_text()),
        ),
{
}

/// Whether a session is purged in a scope is said by three columns of the tombstones:
/// some row holds these three ids. What else the row holds says nothing.
pub proof fn law_purged_is_said_by_three_columns(
    st: StoreView,
    workspace: Seq<u8>,
    project: Seq<u8>,
    session: Seq<u8>,
)
    ensures
        (exists|i: int|
            0 <= i < st.tombstones.len() && (#[trigger] st.tombstones[i]).entry.session_id
                == session && st.tombstones[i].entry.workspace_id == workspace
                && st.tombstones[i].entry.project_id == project) ==> purged_in(
            st,
            workspace,
            project,
            session,
        ),
        purged_in(st, workspace, project, session) ==> exists|i: int|
            0 <= i < st.tombstones.len() && (#[trigger] st.tombstones[i]).entry.session_id
                == session && st.tombstones[i].entry.workspace_id == workspace
                && st.tombstones[i].entry.project_id == project,
{
}

/// Two ledgers whose rows agree on the three ids refuse the same ingest, however their
/// receipt ids, versions, times and audit records differ.
pub proof fn law_ingest_reads_nothing_else(
    a: StoreView,
    b: StoreView,
    workspace: Seq<u8>,
    project: Seq<u8>,
    session: Seq<u8>,
)
    requires
        a.tombstones.len() == b.tombstones.len(),
        forall|i: int|
            0 <= i < a.tombstones.len() ==> (#[trigger] a.tombstones[i]).entry.session_id
                == b.tombstones[i].entry.session_id && a.tombstones[i].entry.workspace_id
                == b.tombstones[i].entry.workspace_id && a.tombstones[i].entry.project_id
                == b.tombstones[i].entry.project_id,
    ensures
        purged_in(a, workspace, project, session) == purged_in(b, workspace, project, session),
{
    if purged_in(a, workspace, project, session) {
        let i = choose|i: int|
            0 <= i < a.tombstones.len() && (#[trigger] a.tombstones[i]).entry.session_id
                == session && a.tombstones[i].entry.workspace_id == workspace
                && a.tombstones[i].entry.project_id == project;
        assert(b.tombstones[i].entry.session_id == session);
    }
    if purged_in(b, workspace, project, session) {
        let i = choose|i: int|
            0 <= i < b.tombstones.len() && (#[trigger] b.tombstones[i]).entry.session_id
                == session && b.tombstones[i].entry.workspace_id == workspace
                && b.tombstones[i].entry.project_id == project;
        assert(a.tombstones[i].entry.session_id == session);
    }
}

/// When a purge would cut something off: a row of the session has no end; or else a job
/// of the session is `pending` or `running`; or else a claim names the session. In any
/// other state nothing would be cut off.
pub proof fn law_busy_by_the_rows(st: StoreView, session: Seq<u8>)
    ensures
        ({
            let open = exists|i: int|
                0 <= i < st.sessions.len() && (#[trigger] st.sessions[i]).id@ == session
                    && st.sessions[i].ended_at is None;
            let queued = exists|i: int|
                0 <= i < st.jobs.len() && (#[trigger] st.jobs[i]).session_id@ == session && (
                st.jobs[i].state@ == "pending"@ || st.jobs[i].state@ == "running"@);
            let held = exists|i: int|
                0 <= i < st.claims.len() && (#[trigger] st.claims[i]).session_id@ == session;
            &&& open ==> busy_reason(st, session) == Some("session is still open"@)
            &&& !open && queued ==> busy_reason(st, session) == Some(
                "a consolidation job is queued or running"@,
            )
            &&& !open && !queued && held ==> busy_reason(st, session) == Some(
                "an auto-improvement claim is outstanding"@,
            )
            &&& !open && !queued && !held ==> busy_reason(st, session) is None
        }),
{
    assert(still_open(st, session) == exists|i: int|
        0 <= i < st.sessions.len() && (#[trigger] st.sessions[i]).id@ == session
            && st.sessions[i].ended_at is None);
    assert(job_pending(st, session) == exists|i: int|
        0 <= i < st.jobs.len() && (#[trigger] st.jobs[i]).session_id@ == session && (
        st.jobs[i].state@ == "pending"@ || st.jobs[i].state@ == "running"@));
    assert(claimed(st, session) == exists|i: int|
        0 <= i < st.claims.len() && (#[trigger] st.claims[i]).session_id@ == session);
}

/// Purging again what a tombstone covers takes and reports what a first purge would, for
/// the same causes is refused, and changes nothing where it is. The ledger rows of other
/// sessions stay in their order; the session's are replaced by one at the end, with the
/// old receipt id and time, the present version, and the new audit record. The receipt
/// carries the old id and time, and the present instant as the cutoff for backups.
pub proof fn law_repurge_by_the_rows(
    st: StoreView,
    after: StoreView,
    e: LedgerEntry,
    now: int,
    r: Result<SessionPurgeReceipt, StoreError>,
)
    requires
        repurge_step(st, after, e, now, r),
    ensures
        decided_by_rows(st, e.workspace_id, e.project_id, e.session_id, now, r),
        r is Err ==> after == st,
        r matches Ok(receipt) ==> {
            &&& leaves_by_rows(st, after, e.workspace_id, e.project_id, e.session_id, now)
            &&& after.tombstones == st.tombstones.filter(
                |t: TombstoneView| t.entry.session_id != e.session_id,
            ).push(
                TombstoneView {
                    entry: LedgerEntry {
                        session_id: e.session_id,
                        workspace_id: e.workspace_id,
                        project_id: e.project_id,
                        tombstone_id: e.tombstone_id,
                        schema_version: 1,
                        purged_at: e.purged_at,
                    },
                    audit_id: Some(st.audits.len() as int),
                },
            )
            &&& receipt.status is Purged
            &&& receipt.tombstone_id@ == e.tombstone_id
            &&& receipt.purged_at@ == e.purged_at
            &&& receipt.backup_cutoff@ == now
            &&& reports_rows(st, after, e.workspace_id, e.project_id, e.session_id, receipt)
        },
{
    lemma_decided_by_rows(st, e.workspace_id, e.project_id, e.session_id, now, r);
    if let Ok(receipt) = r {
        lemma_leaves_by_rows(
            st,
            after,
            e.workspace_id,
            e.project_id,
            e.session_id,
            now,
            e.tombstone_id,
        );
        lemma_reports_rows(st, after, e.workspace_id, e.project_id, e.session_id, receipt);
        lemma_filters_agree(
            st.tombstones,
            keep_tombstone(e.session_id),
            |t: TombstoneView| t.entry.session_id != e.session_id,
        );
    }
}

/// What purging again leaves, where it is carried out, is said by the rows.
pub(crate) proof fn lemma_repurged_by_rows(st: StoreView, e: LedgerEntry, now: int)
    ensures
        leaves_by_rows(
            st,
            repurged(st, e, now),
            e.workspace_id,
            e.project_id,
            e.session_id,
            now,
        ),
        repurged(st, e, now).tombstones == st.tombstones.filter(
            |t: TombstoneView| t.entry.session_id != e.session_id,
        ).push(
            TombstoneView {
                entry: LedgerEntry {
                    session_id: e.session_id,
                    workspace_id: e.workspace_id,
                    project_id: e.project_id,
                    tombstone_id: e.tombstone_id,
                    schema_version: 1,
                    purged_at: e.purged_at,
                },
                audit_id: Some(st.audits.len() as int),
            },
        ),
{
    lemma_leaves_by_rows(
        st,
        repurged(st, e, now),
        e.workspace_id,
        e.project_id,
        e.session_id,
        now,
        e.tombstone_id,
    );
    lemma_filters_agree(
        st.tombstones,
        keep_tombstone(e.session_id),
        |t: TombstoneView| t.entry.session_id != e.session_id,
    );
}

} // verus!
