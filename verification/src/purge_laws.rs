//! What holds of every purge, stated over the database before and after it.

use vstd::prelude::*;

use crate::error::StoreError;
use crate::ledger::present;
use crate::session_purge::{
    derived_proposals, derived_runs, entity_linked, entry_fault, keep_claim, keep_entity,
    keep_event, keep_handoff, keep_job, keep_link, keep_observation, keep_page, keep_proposal,
    keep_rejection, keep_run, keep_session, page_derived, page_in_scope, path_derived, purge_fault,
    purge_step, purged, purged_in, run_of, scope_conflict, session_at, session_page, session_scope,
    staged_by, staged_proposals, tombstone_at, tombstone_of, without_session, SessionPurgeReceipt,
    SESSION_PURGE_SCHEMA_VERSION,
};
use crate::store::{
    lemma_filter, lemma_filter_all, links_to, ClaimRow, EntityRow, EventRow, HandoffRow, JobRow,
    LinkRow, ObservationRow, PageRow, ProposalRow, RejectionRow, RunRow, SessionRow, StoreView,
    TombstoneView,
};

verus! {

/// Narrowing by `keep` first changes nothing of what `pick` picks.
proof fn lemma_filter_twice<T>(
    rows: Seq<T>,
    keep: spec_fn(T) -> bool,
    pick: spec_fn(T) -> bool,
)
    requires
        forall|t: T| #[trigger] pick(t) ==> keep(t),
    ensures
        rows.filter(keep).filter(pick) == rows.filter(pick),
    decreases rows.len(),
{
    reveal(Seq::filter);
    if rows.len() > 0 {
        lemma_filter_twice(rows.drop_last(), keep, pick);
        let left = rows.drop_last().filter(keep);
        if keep(rows.last()) {
            assert(left.push(rows.last()).drop_last() == left);
        }
    }
}

/// A run derived from the session is among the collected ones.
pub(crate) proof fn lemma_run_collected(st: StoreView, session: Seq<u8>, run: RunRow)
    requires
        st.runs.contains(run),
        run_of(session)(run),
    ensures
        derived_runs(st, session).contains(run.id@),
{
    let picked = st.runs.filter(run_of(session));
    lemma_filter(st.runs, run_of(session));
    assert(picked.contains(run));
    let k = choose|k: int| 0 <= k < picked.len() && picked[k] == run;
    assert(derived_runs(st, session)[k] == run.id@);
}

/// A proposal that one of the runs staged is among the collected ones.
pub(crate) proof fn lemma_proposal_collected(st: StoreView, runs: Seq<Seq<u8>>, p: ProposalRow)
    requires
        st.proposals.contains(p),
        runs.contains(p.run_id@),
    ensures
        staged_proposals(st, runs).contains(p.id@),
    decreases runs.len(),
{
    let rest = staged_proposals(st, runs.drop_last());
    let picked = st.proposals.filter(staged_by(runs.last()));
    let here = picked.map_values(|q: ProposalRow| q.id@);
    let all = rest + here;
    if p.run_id@ == runs.last() {
        lemma_filter(st.proposals, staged_by(runs.last()));
        assert(picked.contains(p));
        let k = choose|k: int| 0 <= k < picked.len() && picked[k] == p;
        assert(here[k] == p.id@);
        assert(all[rest.len() + k] == p.id@);
    } else {
        let k = choose|k: int| 0 <= k < runs.len() && runs[k] == p.run_id@;
        assert(runs.drop_last()[k] == p.run_id@);
        lemma_proposal_collected(st, runs.drop_last(), p);
        let m = choose|m: int| 0 <= m < rest.len() && rest[m] == p.id@;
        assert(all[m] == p.id@);
    }
}

/// A purge reaches every layer: afterwards no row is the session, belongs to it,
/// links to it, or stems from one of its runs or proposals, and no page version of
/// the scope is left at a path derived from it.
pub proof fn law_purge_reaches_every_layer(
    st: StoreView,
    workspace: Seq<u8>,
    project: Seq<u8>,
    session: Seq<u8>,
    now: int,
    tombstone_id: Seq<u8>,
)
    ensures
        ({
            let after = purged(st, workspace, project, session, now, tombstone_id);
            let runs = derived_runs(st, session);
            let proposals = derived_proposals(st, session);
            &&& !present(after, session)
            &&& forall|o: ObservationRow| #[trigger]
                after.observations.contains(o) ==> o.session_id@ != session
            &&& forall|h: HandoffRow| #[trigger]
                after.handoffs.contains(h) ==> !links_to(h.from_session_id, session) && !links_to(
                    h.accepted_by_session,
                    session,
                )
            &&& forall|j: JobRow| #[trigger] after.jobs.contains(j) ==> j.session_id@ != session
            &&& forall|c: ClaimRow| #[trigger]
                after.claims.contains(c) ==> c.session_id@ != session
            &&& forall|r: RunRow| #[trigger]
                after.runs.contains(r) ==> !links_to(r.source_session_id, session) && !links_to(
                    r.session_id,
                    session,
                )
            &&& forall|p: ProposalRow| #[trigger]
                after.proposals.contains(p) ==> !runs.contains(p.run_id@)
            &&& forall|e: EventRow| #[trigger]
                after.events.contains(e) ==> !proposals.contains(e.proposal_id@)
            &&& forall|r: RejectionRow| #[trigger]
                after.rejections.contains(r) ==> !links_to(r.source_session_id, session) && !(
                r.source_run_id matches Some(v) && runs.contains(v@)) && !(
                r.source_proposal_id matches Some(v) && proposals.contains(v@))
            &&& forall|p: PageRow| #[trigger]
                after.pages.contains(p) && page_in_scope(p, workspace, project) ==> !path_derived(
                    st,
                    workspace,
                    project,
                    session,
                    p.path@,
                )
            &&& forall|p: PageRow| #[trigger]
                after.pages.contains(p) && page_in_scope(p, workspace, project) ==> !links_to(
                    p.source_session_id,
                    session,
                ) && p.path@ != session_page(session)
        }),
{
    let after = purged(st, workspace, project, session, now, tombstone_id);
    let runs = derived_runs(st, session);
    let proposals = derived_proposals(st, session);
    let keep = keep_page(st, workspace, project, session);
    lemma_filter(st.sessions, keep_session(session));
    lemma_filter(st.observations, keep_observation(session));
    lemma_filter(st.handoffs, keep_handoff(session));
    lemma_filter(st.jobs, keep_job(session));
    lemma_filter(st.claims, keep_claim(session));
    lemma_filter(st.runs, keep_run(runs));
    lemma_filter(st.proposals, keep_proposal(proposals));
    lemma_filter(st.events, keep_event(proposals));
    lemma_filter(st.rejections, keep_rejection(session, runs, proposals));
    lemma_filter(st.pages, keep);
    assert forall|r: RunRow| #[trigger] after.runs.contains(r) implies !links_to(
        r.source_session_id,
        session,
    ) && !links_to(r.session_id, session) by {
        if run_of(session)(r) {
            lemma_run_collected(st, session, r);
        }
    }
    assert forall|p: ProposalRow| #[trigger] after.proposals.contains(p) implies !runs.contains(
        p.run_id@,
    ) by {
        if runs.contains(p.run_id@) {
            lemma_proposal_collected(st, runs, p);
        }
    }
    assert forall|p: PageRow| #[trigger]
        after.pages.contains(p) && page_in_scope(p, workspace, project) implies !links_to(
        p.source_session_id,
        session,
    ) && p.path@ != session_page(session) by {
        assert(keep(p) && st.pages.contains(p));
        let i = choose|i: int| 0 <= i < st.pages.len() && st.pages[i] == p;
        if links_to(p.source_session_id, session) || p.path@ == session_page(session) {
            assert(st.pages[i].path@ == p.path@ && page_derived(
                st,
                workspace,
                project,
                session,
                st.pages[i],
            ));
            assert(path_derived(st, workspace, project, session, p.path@));
        }
    }
}

/// A purge takes nothing else: every session, observation, handoff, job, claim, run,
/// proposal, event, rejection and page version that is not derived from the session
/// stays, and earlier tombstones and audit records are untouched.
pub proof fn law_purge_takes_nothing_else(
    st: StoreView,
    workspace: Seq<u8>,
    project: Seq<u8>,
    session: Seq<u8>,
    now: int,
    tombstone_id: Seq<u8>,
)
    ensures
        ({
            let after = purged(st, workspace, project, session, now, tombstone_id);
            let runs = derived_runs(st, session);
            let proposals = derived_proposals(st, session);
            &&& forall|s: SessionRow| #[trigger]
                st.sessions.contains(s) && s.id@ != session ==> after.sessions.contains(s)
            &&& forall|o: ObservationRow| #[trigger]
                st.observations.contains(o) && o.session_id@ != session
                    ==> after.observations.contains(o)
            &&& forall|h: HandoffRow| #[trigger]
                st.handoffs.contains(h) && !links_to(h.from_session_id, session) && !links_to(
                    h.accepted_by_session,
                    session,
                ) ==> after.handoffs.contains(h)
            &&& forall|j: JobRow| #[trigger]
                st.jobs.contains(j) && j.session_id@ != session ==> after.jobs.contains(j)
            &&& forall|c: ClaimRow| #[trigger]
                st.claims.contains(c) && c.session_id@ != session ==> after.claims.contains(c)
            &&& forall|r: RunRow| #[trigger]
                st.runs.contains(r) && !runs.contains(r.id@) ==> after.runs.contains(r)
            &&& forall|p: ProposalRow| #[trigger]
                st.proposals.contains(p) && !proposals.contains(p.id@)
                    ==> after.proposals.contains(p)
            &&& forall|e: EventRow| #[trigger]
                st.events.contains(e) && !proposals.contains(e.proposal_id@)
                    ==> after.events.contains(e)
            &&& forall|r: RejectionRow| #[trigger]
                st.rejections.contains(r) && !links_to(r.source_session_id, session) && !(
                r.source_run_id matches Some(v) && runs.contains(v@)) && !(
                r.source_proposal_id matches Some(v) && proposals.contains(v@))
                    ==> after.rejections.contains(r)
            &&& forall|p: PageRow| #[trigger]
                st.pages.contains(p) && !(page_in_scope(p, workspace, project) && path_derived(
                    st,
                    workspace,
                    project,
                    session,
                    p.path@,
                )) ==> after.pages.contains(p)
            &&& st.tombstones.is_prefix_of(after.tombstones)
            &&& st.audits.is_prefix_of(after.audits)
        }),
{
    let after = purged(st, workspace, project, session, now, tombstone_id);
    let runs = derived_runs(st, session);
    let proposals = derived_proposals(st, session);
    lemma_filter(st.sessions, keep_session(session));
    lemma_filter(st.observations, keep_observation(session));
    lemma_filter(st.handoffs, keep_handoff(session));
    lemma_filter(st.jobs, keep_job(session));
    lemma_filter(st.claims, keep_claim(session));
    lemma_filter(st.runs, keep_run(runs));
    lemma_filter(st.proposals, keep_proposal(proposals));
    lemma_filter(st.events, keep_event(proposals));
    lemma_filter(st.rejections, keep_rejection(session, runs, proposals));
    lemma_filter(st.pages, keep_page(st, workspace, project, session));
    assert(after.tombstones.take(st.tombstones.len() as int) == st.tombstones);
    assert(after.audits.take(st.audits.len() as int) == st.audits);
}

/// Picks the rows of one session.
pub open spec fn sessions_of(session: Seq<u8>) -> spec_fn(SessionRow) -> bool {
    |s: SessionRow| s.id@ == session
}

/// Picks the observations of one session.
pub open spec fn observations_of(session: Seq<u8>) -> spec_fn(ObservationRow) -> bool {
    |o: ObservationRow| o.session_id@ == session
}

/// Picks the jobs of one session.
pub open spec fn jobs_of(session: Seq<u8>) -> spec_fn(JobRow) -> bool {
    |j: JobRow| j.session_id@ == session
}

/// Picks the claims on one session.
pub open spec fn claims_of(session: Seq<u8>) -> spec_fn(ClaimRow) -> bool {
    |c: ClaimRow| c.session_id@ == session
}

/// Picks the handoffs of one session that do not involve another.
pub open spec fn handoffs_of(session: Seq<u8>, other: Seq<u8>) -> spec_fn(HandoffRow) -> bool {
    |h: HandoffRow|
        (links_to(h.from_session_id, session) || links_to(h.accepted_by_session, session))
            && !links_to(h.from_session_id, other) && !links_to(h.accepted_by_session, other)
}

/// What one session holds of the database is the same in both.
pub open spec fn same_session_data(a: StoreView, b: StoreView, session: Seq<u8>) -> bool {
    &&& a.sessions.filter(sessions_of(session)) == b.sessions.filter(sessions_of(session))
    &&& a.observations.filter(observations_of(session)) == b.observations.filter(
        observations_of(session),
    )
    &&& a.jobs.filter(jobs_of(session)) == b.jobs.filter(jobs_of(session))
    &&& a.claims.filter(claims_of(session)) == b.claims.filter(claims_of(session))
}

/// A sibling session is left as it was: its row, observations, jobs and claims,
/// the handoffs it does not share with the purged session, and its tombstone or
/// the lack of one.
pub proof fn law_purge_spares_siblings(
    st: StoreView,
    workspace: Seq<u8>,
    project: Seq<u8>,
    session: Seq<u8>,
    now: int,
    tombstone_id: Seq<u8>,
    sibling: Seq<u8>,
)
    requires
        sibling != session,
    ensures
        ({
            let after = purged(st, workspace, project, session, now, tombstone_id);
            &&& same_session_data(st, after, sibling)
            &&& after.handoffs.filter(handoffs_of(sibling, session)) == st.handoffs.filter(
                handoffs_of(sibling, session),
            )
            &&& tombstone_of(after, sibling) == tombstone_of(st, sibling)
        }),
{
    let after = purged(st, workspace, project, session, now, tombstone_id);
    lemma_filter_twice(st.sessions, keep_session(session), sessions_of(sibling));
    lemma_filter_twice(st.observations, keep_observation(session), observations_of(sibling));
    lemma_filter_twice(st.jobs, keep_job(session), jobs_of(sibling));
    lemma_filter_twice(st.claims, keep_claim(session), claims_of(sibling));
    lemma_filter_twice(st.handoffs, keep_handoff(session), handoffs_of(sibling, session));
    lemma_tombstone_at(st.tombstones, after.tombstones.last(), sibling, 0);
}

/// A row added behind the others is found only where none before it is.
proof fn lemma_tombstone_at(
    rows: Seq<TombstoneView>,
    added: TombstoneView,
    session: Seq<u8>,
    from: int,
)
    requires
        0 <= from <= rows.len(),
    ensures
        from <= tombstone_at(rows, session, from) <= rows.len(),
        tombstone_at(rows, session, from) < rows.len() ==> tombstone_at(
            rows.push(added),
            session,
            from,
        ) == tombstone_at(rows, session, from),
        tombstone_at(rows, session, from) == rows.len() && added.entry.session_id == session
            ==> tombstone_at(rows.push(added), session, from) == rows.len(),
        tombstone_at(rows, session, from) == rows.len() && added.entry.session_id != session
            ==> tombstone_at(rows.push(added), session, from) == rows.len() + 1,
    decreases rows.len() - from,
{
    if from < rows.len() {
        lemma_tombstone_at(rows, added, session, from + 1);
    } else {
        assert(tombstone_at(rows.push(added), session, from + 1) == rows.len() + 1);
    }
}

/// No row before the one found has the session's id, and the one found has it.
pub(crate) proof fn lemma_session_at(rows: Seq<SessionRow>, session: Seq<u8>, from: int)
    requires
        0 <= from <= rows.len(),
    ensures
        from <= session_at(rows, session, from) <= rows.len(),
        session_at(rows, session, from) < rows.len() ==> rows[session_at(
            rows,
            session,
            from,
        )].id@ == session,
        forall|i: int|
            from <= i < session_at(rows, session, from) ==> (#[trigger] rows[i]).id@ != session,
    decreases rows.len() - from,
{
    if from < rows.len() && rows[from].id@ != session {
        lemma_session_at(rows, session, from + 1);
    }
}

/// Purging is idempotent: whatever the clock reads and whatever id is drawn, a
/// second purge is accepted, finds the first one's tombstone, and so changes
/// nothing and reports its id and time with zero counts.
pub proof fn law_purge_is_idempotent(
    st: StoreView,
    workspace: Seq<u8>,
    project: Seq<u8>,
    session: Seq<u8>,
    now: int,
    tombstone_id: Seq<u8>,
    later: int,
    other_id: Seq<u8>,
    after: StoreView,
    r: Result<SessionPurgeReceipt, StoreError>,
)
    requires
        workspace.len() == 16,
        project.len() == 16,
        session.len() == 16,
        tombstone_id.len() == 16,
        tombstone_of(st, session) is None,
        purge_fault(st, workspace, project, session, now) is None,
        purge_step(
            purged(st, workspace, project, session, now, tombstone_id),
            after,
            workspace,
            project,
            session,
            later,
            other_id,
            r,
        ),
    ensures
        after == purged(st, workspace, project, session, now, tombstone_id),
        r matches Ok(receipt) && receipt.status is AlreadyPurged && receipt.tombstone_id@
            == tombstone_id && receipt.purged_at@ == now && receipt.counts.is_zero(),
{
    let once = purged(st, workspace, project, session, now, tombstone_id);
    lemma_tombstone_at(st.tombstones, once.tombstones.last(), session, 0);
    assert(tombstone_of(once, session) == Some(once.tombstones.last().entry));
}

/// A purge leaves its tombstone: what is found afterwards records the session, its
/// scope, the purge's id and time and the present contract version, and points at the
/// audit record that was added with it.
pub proof fn law_purge_leaves_its_tombstone(
    st: StoreView,
    workspace: Seq<u8>,
    project: Seq<u8>,
    session: Seq<u8>,
    now: int,
    tombstone_id: Seq<u8>,
)
    requires
        tombstone_of(st, session) is None,
    ensures
        ({
            let after = purged(st, workspace, project, session, now, tombstone_id);
            let row = after.tombstones.last();
            &&& tombstone_of(after, session) == Some(row.entry)
            &&& row.entry.session_id == session
            &&& row.entry.workspace_id == workspace
            &&& row.entry.project_id == project
            &&& row.entry.tombstone_id == tombstone_id
            &&& row.entry.schema_version == SESSION_PURGE_SCHEMA_VERSION
            &&& row.entry.purged_at == now
            &&& row.audit_id matches Some(i) && 0 <= i < after.audits.len() && after.audits[i].action
                == "purge_session"@ && after.audits[i].at == now
        }),
{
    let after = purged(st, workspace, project, session, now, tombstone_id);
    lemma_tombstone_at(st.tombstones, after.tombstones.last(), session, 0);
}

/// A purge cannot be aimed at another project's session: where the session, or the
/// tombstone that covers it, belongs to another scope, the request is refused and
/// nothing changes.
pub proof fn law_wrong_scope_changes_nothing(
    st: StoreView,
    workspace: Seq<u8>,
    project: Seq<u8>,
    session: Seq<u8>,
    now: int,
    tombstone_id: Seq<u8>,
    after: StoreView,
    r: Result<SessionPurgeReceipt, StoreError>,
)
    requires
        match tombstone_of(st, session) {
            Some(e) => entry_fault(e) is None && (e.workspace_id != workspace || e.project_id
                != project),
            None => session_scope(st, session) matches Some(scope) && scope != (
                workspace,
                project,
            ),
        },
        purge_step(st, after, workspace, project, session, now, tombstone_id, r),
    ensures
        after == st,
        r matches Err(e) && e@ == scope_conflict(),
{
}

/// A tombstone covers its own scope alone: after a purge the session is purged in
/// that scope, and in any other exactly where it was before.
pub proof fn law_tombstones_are_scoped(
    st: StoreView,
    workspace: Seq<u8>,
    project: Seq<u8>,
    session: Seq<u8>,
    now: int,
    tombstone_id: Seq<u8>,
    other_workspace: Seq<u8>,
    other_project: Seq<u8>,
)
    ensures
        ({
            let after = purged(st, workspace, project, session, now, tombstone_id);
            &&& purged_in(after, workspace, project, session)
            &&& (other_workspace != workspace || other_project != project) ==> purged_in(
                after,
                other_workspace,
                other_project,
                session,
            ) == purged_in(st, other_workspace, other_project, session)
        }),
{
    let after = purged(st, workspace, project, session, now, tombstone_id);
    let n = st.tombstones.len() as int;
    assert(after.tombstones[n].entry.session_id == session);
    if other_workspace != workspace || other_project != project {
        if purged_in(st, other_workspace, other_project, session) {
            let i = choose|i: int|
                0 <= i < n && (#[trigger] st.tombstones[i]).entry.session_id == session
                    && st.tombstones[i].entry.workspace_id == other_workspace
                    && st.tombstones[i].entry.project_id == other_project;
            assert(after.tombstones[i] == st.tombstones[i]);
        }
        if purged_in(after, other_workspace, other_project, session) {
            let i = choose|i: int|
                0 <= i < after.tombstones.len() && (#[trigger] after.tombstones[i]).entry.session_id
                    == session && after.tombstones[i].entry.workspace_id == other_workspace
                    && after.tombstones[i].entry.project_id == other_project;
            assert(i != n);
            assert(st.tombstones[i] == after.tombstones[i]);
        }
    }
}

/// Dropping rows keeps the others' keys apart.
proof fn lemma_filter_keeps_sessions_apart(rows: Seq<SessionRow>, keep: spec_fn(SessionRow) -> bool)
    requires
        forall|i: int, j: int|
            0 <= i < j < rows.len() ==> (#[trigger] rows[i]).id@ != (#[trigger] rows[j]).id@,
    ensures
        forall|i: int, j: int|
            0 <= i < j < rows.filter(keep).len() ==> (#[trigger] rows.filter(keep)[i]).id@ != (
            #[trigger] rows.filter(keep)[j]).id@,
    decreases rows.len(),
{
    reveal(Seq::filter);
    if rows.len() > 0 {
        let rest = rows.drop_last();
        lemma_filter_keeps_sessions_apart(rest, keep);
        lemma_filter(rest, keep);
        let left = rest.filter(keep);
        assert forall|i: int, j: int| 0 <= i < j < rows.filter(keep).len() implies (
        #[trigger] rows.filter(keep)[i]).id@ != (#[trigger] rows.filter(keep)[j]).id@ by {
            if j == left.len() {
                assert(rest.contains(left[i]));
                let k = choose|k: int| 0 <= k < rest.len() && rest[k] == left[i];
                assert(rows[k].id@ != rows[rows.len() - 1].id@);
            } else {
                assert(left[i].id@ != left[j].id@);
            }
        }
    }
}

/// Of rows with distinct ids, dropping one id drops one row where it occurs.
proof fn lemma_drop_one_session(rows: Seq<SessionRow>, session: Seq<u8>, at: int)
    requires
        0 <= at < rows.len(),
        rows[at].id@ == session,
        forall|i: int, j: int|
            0 <= i < j < rows.len() ==> (#[trigger] rows[i]).id@ != (#[trigger] rows[j]).id@,
    ensures
        rows.filter(keep_session(session)).len() == rows.len() - 1,
    decreases rows.len(),
{
    reveal(Seq::filter);
    let keep = keep_session(session);
    let rest = rows.drop_last();
    if at == rows.len() - 1 {
        assert forall|i: int| 0 <= i < rest.len() implies keep(#[trigger] rest[i]) by {
            assert(rows[i].id@ != rows[at].id@);
        }
        lemma_filter_all(rest, keep);
    } else {
        assert(rows[at].id@ != rows[rows.len() - 1].id@);
        assert(rest[at].id@ == session);
        lemma_drop_one_session(rest, session, at);
    }
}

/// A purge that is carried out keeps the keys unique, and where they are unique it
/// removes exactly one session row.
pub proof fn law_purge_keeps_keys_unique(
    st: StoreView,
    workspace: Seq<u8>,
    project: Seq<u8>,
    session: Seq<u8>,
    now: int,
    tombstone_id: Seq<u8>,
)
    requires
        st.unique_keys(),
        tombstone_of(st, session) is None,
        purge_fault(st, workspace, project, session, now) is None,
    ensures
        ({
            let after = purged(st, workspace, project, session, now, tombstone_id);
            &&& after.unique_keys()
            &&& st.sessions.len() - after.sessions.len() == 1
        }),
{
    let after = purged(st, workspace, project, session, now, tombstone_id);
    let n = st.tombstones.len() as int;
    lemma_filter_keeps_sessions_apart(st.sessions, keep_session(session));
    lemma_session_at(st.sessions, session, 0);
    lemma_drop_one_session(st.sessions, session, session_at(st.sessions, session, 0));
    assert forall|i: int, j: int| 0 <= i < j < after.tombstones.len() implies (
    #[trigger] after.tombstones[i]).entry.session_id != (
    #[trigger] after.tombstones[j]).entry.session_id by {
        if j == n {
            lemma_not_found(st.tombstones, session, 0, i);
        } else {
            assert(st.tombstones[i].entry.session_id != st.tombstones[j].entry.session_id);
        }
    }
}

/// Where no tombstone is found, no row has the session's id.
proof fn lemma_not_found(
    rows: Seq<TombstoneView>,
    session: Seq<u8>,
    from: int,
    i: int,
)
    requires
        0 <= from <= i < rows.len(),
        tombstone_at(rows, session, from) >= rows.len(),
    ensures
        rows[i].entry.session_id != session,
    decreases rows.len() - from,
{
    if from < i {
        lemma_not_found(rows, session, from + 1, i);
    }
}

/// Entities are shared: one survives exactly where it lies outside the scope, or a
/// page version that stays still links to it; where no page version went, all
/// survive.
pub proof fn law_shared_entities_survive(
    st: StoreView,
    workspace: Seq<u8>,
    project: Seq<u8>,
    session: Seq<u8>,
    e: EntityRow,
)
    requires
        st.entities.contains(e),
    ensures
        ({
            let after = without_session(st, workspace, project, session);
            &&& after.entities.contains(e) <==> {
                ||| after.pages.len() == st.pages.len()
                ||| e.workspace_id@ != workspace
                ||| e.project_id@ != project
                ||| entity_linked(after.links, e.id@)
            }
            &&& forall|l: LinkRow| #[trigger]
                after.links.contains(l) <==> st.links.contains(l) && keep_link(
                    st.pages,
                    keep_page(st, workspace, project, session),
                )(l)
        }),
{
    let after = without_session(st, workspace, project, session);
    let keep = keep_page(st, workspace, project, session);
    lemma_filter(st.pages, keep);
    lemma_filter(st.links, keep_link(st.pages, keep));
    lemma_filter(st.entities, keep_entity(after.links, workspace, project));
}

} // verus!
