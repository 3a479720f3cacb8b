//! What each operation on a history answers, said of its arguments and its result alone.

use vstd::prelude::*;
use vstd::utf8::encode_utf8;

use crate::git_laws::stands_before;
use crate::git_paths::{
    has_nameless, holds_listed, is_clean, law_a_copy_by_the_names,
    law_a_copy_is_made_entry_by_entry, law_a_replacement_is_refused_for_cause,
    law_destroyed_contents_by_the_paths, law_only_nameless_directories_stop_a_walk, passes,
    some_cut, some_file, stands, told_of,
};
use crate::git_plans::{
    law_a_history_plan_by_its_parts, law_a_rebuilt_commit_by_its_parts,
    law_leftovers_by_their_names, law_rebuilt_references_by_their_parts, named_by_purge,
};
use crate::git_purge::{
    blob_id, blobs_reachable_only_through, build_replacement, head_view, history_purge_step,
    history_view, leftover_scratch_dirs, lists_doomed_blobs, oids, plan_history_purge,
    purge_paths_from_history, references_view, retired_name, scratch_name, short_id,
    verify_replacement, Commit, CommitView, GitPurgeReport, Head, HeadView, HistoryPurge,
    PlannedReference, Rebuild, Reference, ReferenceView, RootEntry, WikiError,
};
use crate::git_swap::{
    actions_of, after_build, install_replacement, install_steps, recover_interrupted_purge,
    recovery_steps, steps_view, AfterBuild, AfterFailure, Found, JournalState, OnFailure,
    PurgeJournal, Recovery, Step, SwapAction,
};
use crate::git_tree::{copy_tree_without, tree_view, EntryView, NodeView, Oid, TreeEntry};
use crate::ids::{drawn_at_random, hex, hyphenated, Uuid};
use crate::order::texts;
use crate::swap_laws::{law_a_step_says_what_it_holds, law_actions_in_their_order};
use crate::text::decimal;

verus! {

/// A copy of a tree without doomed paths holds each file exactly where it stood, with its
/// mode and content, unless a path on the way to it is doomed, and of the directories those
/// in which something is left.
pub proof fn law_copy_tree_without(
    entries: &Vec<TreeEntry>,
    prefix: &str,
    doomed: &Vec<String>,
    out: Vec<TreeEntry>,
    names: Seq<Seq<char>>,
    mode: int,
    id: Seq<u8>,
    left: Seq<EntryView>,
)
    requires
        call_ensures(copy_tree_without, (entries, prefix, doomed), out),
    ensures
        stands(tree_view(out@), names, mode, NodeView::Blob(id)) <==> stands(
            tree_view(entries@),
            names,
            mode,
            NodeView::Blob(id),
        ) && !passes(prefix@, names, texts(doomed@)),
        stands(tree_view(out@), names, mode, NodeView::Other(id)) <==> stands(
            tree_view(entries@),
            names,
            mode,
            NodeView::Other(id),
        ) && !passes(prefix@, names, texts(doomed@)),
        stands(tree_view(out@), names, mode, NodeView::Tree(left)) <==> some_cut(
            tree_view(entries@),
            prefix@,
            texts(doomed@),
            names,
            mode,
            left,
        ),
{
    law_a_copy_by_the_names(
        tree_view(entries@),
        prefix@,
        texts(doomed@),
        names,
        mode,
        id,
        left,
    );
}

/// The copies of two lists of entries stand one behind the other in the copy of both.
pub proof fn law_copies_stand_one_behind_the_other(
    a: &Vec<TreeEntry>,
    b: &Vec<TreeEntry>,
    both: &Vec<TreeEntry>,
    prefix: &str,
    doomed: &Vec<String>,
    x: Vec<TreeEntry>,
    y: Vec<TreeEntry>,
    out: Vec<TreeEntry>,
)
    requires
        tree_view(both@) == tree_view(a@) + tree_view(b@),
        call_ensures(copy_tree_without, (a, prefix, doomed), x),
        call_ensures(copy_tree_without, (b, prefix, doomed), y),
        call_ensures(copy_tree_without, (both, prefix, doomed), out),
    ensures
        tree_view(out@) == tree_view(x@) + tree_view(y@),
{
    law_a_copy_is_made_entry_by_entry(
        tree_view(a@),
        tree_view(b@),
        prefix@,
        texts(doomed@),
    );
}

/// Some commit of the history holds, at whatever depth, a directory that is not empty and
/// has no readable name.
pub open spec fn some_nameless(commits: Seq<CommitView>) -> bool {
    exists|i: int| 0 <= i < commits.len() && has_nameless((#[trigger] commits[i]).tree)
}

/// The contents that purging some paths destroys: exactly those that some commit holds at or
/// below one of the paths and no commit holds anywhere else, each once. A history with a
/// nameless directory is refused.
pub proof fn law_blobs_reachable_only_through(
    history: &Vec<Commit>,
    doomed: &Vec<String>,
    r: Result<Vec<Oid>, WikiError>,
    id: Seq<u8>,
)
    requires
        call_ensures(blobs_reachable_only_through, (history, doomed), r),
    ensures
        r is Err <==> some_nameless(history_view(history@)),
        r matches Err(e) ==> e.message@ == "git purge: a directory name is not UTF-8"@,
        r matches Ok(ids) ==> {
            let listed = exists|k: int| 0 <= k < ids@.len() && (#[trigger] ids@[k]).bytes@ == id;
            let commits = history_view(history@);
            &&& listed <==> some_file(commits, texts(doomed@), id, true) && !some_file(
                commits,
                texts(doomed@),
                id,
                false,
            )
            &&& forall|i: int, j: int|
                0 <= i < j < ids@.len() ==> (#[trigger] ids@[i]).bytes@ != (
                #[trigger] ids@[j]).bytes@
        },
{
    let commits = history_view(history@);
    law_only_nameless_directories_stop_a_walk(commits);
    if let Ok(ids) = r {
        law_destroyed_contents_by_the_paths(commits, texts(doomed@), oids(ids@), id);
        assert forall|k: int| 0 <= k < ids@.len() implies oids(ids@)[k] == (
        #[trigger] ids@[k]).bytes@ by {}
        if oids(ids@).contains(id) {
            let k = choose|k: int| 0 <= k < oids(ids@).len() && oids(ids@)[k] == id;
            assert(ids@[k].bytes@ == id);
        }
        if exists|k: int| 0 <= k < ids@.len() && (#[trigger] ids@[k]).bytes@ == id {
            let k = choose|k: int| 0 <= k < ids@.len() && (#[trigger] ids@[k]).bytes@ == id;
            assert(oids(ids@)[k] == id);
            assert(oids(ids@).contains(id));
        }
        assert forall|i: int, j: int| 0 <= i < j < ids@.len() implies (
        #[trigger] ids@[i]).bytes@ != (#[trigger] ids@[j]).bytes@ by {
            assert(oids(ids@)[i] != oids(ids@)[j]);
        }
    }
}

/// What a rebuild holds of a commit and of the references, part by part.
pub proof fn law_build_replacement(
    history: &Vec<Commit>,
    head: &Option<Head>,
    refs: &Vec<Reference>,
    doomed: &Vec<String>,
    out: Rebuild,
    i: int,
    names: Seq<Seq<char>>,
    mode: int,
    id: Seq<u8>,
)
    requires
        call_ensures(build_replacement, (history, head, refs, doomed), out),
    ensures
        out.commits@.len() == history@.len(),
        0 <= i < history@.len() ==> rebuilds_commit(
            history_view(history@),
            texts(doomed@),
            out,
            i,
            names,
            mode,
            id,
        ),
        rebuilds_references(
            history_view(history@),
            head_view(*head),
            references_view(refs@),
            out,
        ),
{
    lemma_rebuild(
        history_view(history@),
        head_view(*head),
        references_view(refs@),
        texts(doomed@),
        out,
        i,
        names,
        mode,
        id,
    );
}

/// What a rebuild holds of the `i`th commit: each file off the doomed paths where it stood,
/// with its mode and content; of the parents those that stand before it, rebuilt and in their
/// order; author and committer; and the message, or nothing where it cannot be read.
pub open spec fn rebuilds_commit(
    commits: Seq<CommitView>,
    doomed: Seq<Seq<char>>,
    out: Rebuild,
    i: int,
    names: Seq<Seq<char>>,
    mode: int,
    id: Seq<u8>,
) -> bool {
    let c = out.commits@[i];
    &&& stands(tree_view(c.tree@), names, mode, NodeView::Blob(id)) <==> stands(
        commits[i].tree,
        names,
        mode,
        NodeView::Blob(id),
    ) && !passes(Seq::empty(), names, doomed)
    &&& stands(tree_view(c.tree@), names, mode, NodeView::Other(id)) <==> stands(
        commits[i].tree,
        names,
        mode,
        NodeView::Other(id),
    ) && !passes(Seq::empty(), names, doomed)
    &&& forall|p: int| 0 <= p < c.parents@.len() ==> #[trigger] c.parents@[p] < i
    &&& c.parents@.map_values(|p: usize| commits[p as int].id) == commits[i].parents.filter(
        |parent: Seq<u8>| stands_before(commits, parent, i),
    )
    &&& c.author@ == commits[i].author
    &&& c.committer@ == commits[i].committer
    &&& commits[i].message matches Some(m) ==> c.message@ == m
    &&& commits[i].message is None ==> c.message@.len() == 0
}

/// What a rebuild holds of the head and the references.
pub open spec fn rebuilds_references(
    commits: Seq<CommitView>,
    head: Option<HeadView>,
    refs: Seq<ReferenceView>,
    out: Rebuild,
) -> bool {
    let n = commits.len() as int;
    let name = if head is Some && head->0.branch is Some {
        "refs/heads/"@ + head->0.branch->0
    } else {
        "refs/heads/"@ + "main"@
    };
    &&& out.head is None <==> n == 0
    &&& out.head matches Some(p) ==> p.name@ == name && p.commit < n && if head is Some
        && stands_before(commits, head->0.target, n) {
        commits[p.commit as int].id == head->0.target
    } else {
        p.commit == n - 1
    }
    &&& forall|k: int|
        0 <= k < out.references@.len() ==> (#[trigger] out.references@[k]).commit < n
    &&& out.references@.map_values(|r: PlannedReference| (r.name@, commits[r.commit as int].id))
        == refs.filter(
        |r: ReferenceView| r.name != name && stands_before(commits, r.target, n),
    ).map_values(|r: ReferenceView| (r.name, r.target))
}

proof fn lemma_rebuild(
    commits: Seq<CommitView>,
    head: Option<HeadView>,
    refs: Seq<ReferenceView>,
    doomed: Seq<Seq<char>>,
    out: Rebuild,
    i: int,
    names: Seq<Seq<char>>,
    mode: int,
    id: Seq<u8>,
)
    requires
        out.rebuilds(commits, head, refs, doomed),
    ensures
        out.commits@.len() == commits.len(),
        0 <= i < commits.len() ==> rebuilds_commit(commits, doomed, out, i, names, mode, id),
        rebuilds_references(commits, head, refs, out),
{
    if 0 <= i < commits.len() {
        law_a_rebuilt_commit_by_its_parts(
            commits,
            head,
            refs,
            doomed,
            out,
            i,
            names,
            mode,
            id,
        );
        assert(out.commits@[i].rewrites(commits, i, doomed));
    }
    law_rebuilt_references_by_their_parts(commits, head, refs, doomed, out);
}

/// A replacement passes exactly if every commit of it is clean of the purged paths and no
/// object of it is a purged blob; else the first commit that is not clean is told of, or the
/// first such object.
pub proof fn law_verify_replacement(
    history: &Vec<Commit>,
    objects: &Vec<Oid>,
    purged: &Vec<String>,
    blobs: &Vec<Oid>,
    r: Result<(), WikiError>,
)
    requires
        call_ensures(verify_replacement, (history, objects, purged, blobs), r),
    ensures
        ({
            let commits = history_view(history@);
            let paths = texts(purged@);
            let all = objects@.map_values(|o: Oid| o.bytes@);
            let gone = blobs@.map_values(|o: Oid| o.bytes@);
            &&& r is Ok <==> (forall|i: int|
                0 <= i < commits.len() ==> is_clean(#[trigger] commits[i], paths)) && (forall|
                k: int,
            |
                0 <= k < all.len() ==> !gone.contains(#[trigger] all[k]))
            &&& forall|i: int|
                0 <= i < commits.len() && !is_clean(#[trigger] commits[i], paths) && (forall|
                    j: int,
                |
                    0 <= j < i ==> is_clean(#[trigger] commits[j], paths)) ==> (r matches Err(e)
                    && told_of(commits[i], paths, e.message@) && (!holds_listed(commits[i], paths)
                    ==> e.message@ == "git purge: a directory name is not UTF-8"@))
            &&& (forall|i: int|
                0 <= i < commits.len() ==> is_clean(#[trigger] commits[i], paths)) ==> forall|
                k: int,
            |
                0 <= k < all.len() && gone.contains(#[trigger] all[k]) && (forall|j: int|
                    0 <= j < k ==> !gone.contains(#[trigger] all[j])) ==> (r matches Err(e)
                    && e.message@
                    == "git purge: rebuilt object database still contains purged blob "@ + hex(
                    all[k],
                ))
        }),
{
    assert(oids(objects@) == objects@.map_values(|o: Oid| o.bytes@));
    assert(oids(blobs@) == blobs@.map_values(|o: Oid| o.bytes@));
    law_a_replacement_is_refused_for_cause(
        history_view(history@),
        oids(objects@),
        texts(purged@),
        oids(blobs@),
    );
}

/// How ids are shortened and the two transient directories are named.
pub proof fn law_purge_names(
    oid: &Oid,
    short: String,
    id: &str,
    scratch: String,
    retired: String,
)
    requires
        call_ensures(short_id, (oid,), short),
        call_ensures(scratch_name, (id,), scratch),
        call_ensures(retired_name, (id,), retired),
    ensures
        short@ == hex(oid.bytes@).take(16),
        scratch@ == ".ai-memory-purge-"@ + "new-"@ + id@,
        retired@ == ".ai-memory-purge-"@ + "old-"@ + id@,
{
}

/// The parts of a plan: its id out of the hash and the attempt, the two directories named by
/// it, the object count, the contents that exist only through the paths, and the rebuild.
pub open spec fn plan_holds(
    plan: HistoryPurge,
    hash: Seq<u8>,
    attempt: Seq<u8>,
    paths: Seq<Seq<char>>,
    commits: Seq<CommitView>,
    head: Option<HeadView>,
    refs: Seq<ReferenceView>,
    objects_before: usize,
) -> bool {
    let id = hex(hash).take(16) + "-"@ + hyphenated(attempt);
    &&& plan.purge_id@ == id
    &&& plan.scratch@ == ".ai-memory-purge-"@ + "new-"@ + id
    &&& plan.retired@ == ".ai-memory-purge-"@ + "old-"@ + id
    &&& plan.objects_before == objects_before
    &&& lists_doomed_blobs(
        commits,
        paths,
        plan.doomed_blobs@.map_values(|o: Oid| o.bytes@),
    )
    &&& plan.rebuild.rebuilds(commits, head, refs, paths)
}

/// A plan for a given hash and attempt. A history with a nameless directory is refused, and
/// so is a hash that could not be had, for its own reason.
pub proof fn law_plan_history_purge(
    hashed: Result<Oid, String>,
    attempt: Uuid,
    paths: &Vec<String>,
    history: &Vec<Commit>,
    head: &Option<Head>,
    refs: &Vec<Reference>,
    objects_before: usize,
    r: Result<HistoryPurge, WikiError>,
)
    requires
        call_ensures(
            plan_history_purge,
            (hashed, attempt, paths, history, head, refs, objects_before),
            r,
        ),
    ensures
        some_nameless(history_view(history@)) ==> (r matches Err(e) && e.message@
            == "git purge: a directory name is not UTF-8"@),
        !some_nameless(history_view(history@)) ==> match hashed {
            Err(why) => r matches Err(e) && e.message@ == "git purge: "@ + why@,
            Ok(hash) => r matches Ok(plan) && plan_holds(
                plan,
                hash.bytes@,
                attempt.bytes@,
                texts(paths@),
                history_view(history@),
                head_view(*head),
                references_view(refs@),
                objects_before,
            ),
        },
{
    law_only_nameless_directories_stop_a_walk(history_view(history@));
    if let Ok(plan) = r {
        assert(oids(plan.doomed_blobs@) == plan.doomed_blobs@.map_values(|o: Oid| o.bytes@));
    }
}

/// Working out the removal of some paths: nothing is to be done for none. Else the plan is
/// for the hash of the root and the object count, and for an attempt drawn at random.
pub proof fn law_purge_paths_from_history(
    root: &str,
    paths: &Vec<String>,
    history: &Vec<Commit>,
    head: &Option<Head>,
    refs: &Vec<Reference>,
    objects_before: usize,
    r: Result<Option<HistoryPurge>, WikiError>,
)
    requires
        call_ensures(
            purge_paths_from_history,
            (root, paths, history, head, refs, objects_before),
            r,
        ),
    ensures
        paths@.len() == 0 ==> (r matches Ok(None)),
        paths@.len() > 0 && some_nameless(history_view(history@)) ==> (r matches Err(e)
            && e.message@ == "git purge: a directory name is not UTF-8"@),
        paths@.len() > 0 && !some_nameless(history_view(history@)) ==> match blob_id(
            encode_utf8(root@ + "-"@ + decimal(objects_before as nat)),
        ) {
            None => r matches Err(e) && "git purge: "@.is_prefix_of(e.message@),
            Some(hash) => r matches Ok(Some(plan)) && exists|attempt: Uuid|
                drawn_at_random(attempt.bytes) && #[trigger] plan_holds(
                    plan,
                    hash,
                    attempt.bytes@,
                    texts(paths@),
                    history_view(history@),
                    head_view(*head),
                    references_view(refs@),
                    objects_before,
                ),
        },
{
    if paths@.len() > 0 {
        let attempt = choose|attempt: Uuid|
            call_ensures(Uuid::new_v4, (), attempt) && #[trigger] history_purge_step(
                root@,
                texts(paths@),
                history_view(history@),
                head_view(*head),
                references_view(refs@),
                objects_before,
                attempt@,
                r,
            );
        law_a_history_plan_by_its_parts(
            root@,
            texts(paths@),
            history_view(history@),
            head_view(*head),
            references_view(refs@),
            objects_before,
            attempt@,
            r,
        );
        assert(drawn_at_random(attempt.bytes));
        if let Ok(Some(plan)) = r {
            if let Some(hash) = blob_id(
                encode_utf8(root@ + "-"@ + decimal(objects_before as nat)),
            ) {
                assert(some_nameless(history_view(history@)) || plan_holds(
                    plan,
                    hash,
                    attempt.bytes@,
                    texts(paths@),
                    history_view(history@),
                    head_view(*head),
                    references_view(refs@),
                    objects_before,
                ));
            }
        }
    }
}

/// The report counts the commits that were rewritten, the objects before and after, and the
/// contents that were destroyed, and one repository unless there was no commit.
pub proof fn law_report(plan: &HistoryPurge, objects_after: usize, r: GitPurgeReport)
    requires
        call_ensures(HistoryPurge::report, (plan, objects_after), r),
    ensures
        r.commits_rewritten == plan.rebuild.commits@.len(),
        r.objects_before == plan.objects_before,
        r.objects_after == objects_after,
        r.blobs_destroyed == plan.doomed_blobs@.len(),
        r.repositories_rebuilt == if plan.rebuild.commits@.len() == 0 {
            0int
        } else {
            1int
        },
{
    lemma_vec_len(plan.rebuild.commits);
    lemma_vec_len(plan.doomed_blobs);
}

proof fn lemma_vec_len<T>(v: Vec<T>)
    ensures
        v@.len() <= usize::MAX,
        v@.len() as usize == v@.len(),
{
    assert(v@.len() == v.len());
}

/// What is left of a purge in the root directory: the directories whose name starts as that
/// of a purge's, all of them and in their order.
pub proof fn law_leftover_scratch_dirs(entries: &Vec<RootEntry>, out: Vec<String>)
    requires
        call_ensures(leftover_scratch_dirs, (entries,), out),
    ensures
        out@.map_values(|t: String| t@) == entries@.filter(
            |e: RootEntry| e.is_directory && named_by_purge(e.name@),
        ).map_values(|e: RootEntry| e.name@),
{
    law_leftovers_by_their_names(entries@);
    assert(texts(out@) == out@.map_values(|t: String| t@));
}

/// The step is this action, and what its failure means.
pub open spec fn is_step(s: Step, action: SwapAction, on_failure: Option<Seq<char>>) -> bool {
    s.action == action && match on_failure {
        None => s.on_failure is Ignore,
        Some(context) => s.on_failure matches OnFailure::Fail(c) && c@ == context,
    }
}

/// A verified replacement is swapped in by these steps, in this order.
pub proof fn law_install_replacement(steps: Vec<Step>)
    requires
        call_ensures(install_replacement, (), steps),
    ensures
        installs(steps@),
{
    lemma_installs(steps@);
}

/// The steps that swap a replacement in.
pub open spec fn installs(steps: Seq<Step>) -> bool {
    &&& steps.len() == 7
    &&& steps[0].action == SwapAction::WriteJournal(JournalState::Prepared)
    &&& steps[0].on_failure is Report
    &&& steps[1].action == SwapAction::WriteJournal(JournalState::Swapping)
    &&& steps[1].on_failure is Report
    &&& is_step(steps[2], SwapAction::RetireLive, Some("retiring old .git"@))
    &&& steps[3].action == SwapAction::InstallNew
    &&& steps[3].on_failure matches OnFailure::PutBack(c) && c@ == "installing rebuilt .git"@
    &&& is_step(steps[4], SwapAction::RemoveRetired, Some("removing retired .git"@))
    &&& is_step(steps[5], SwapAction::RemoveScratch, None)
    &&& is_step(steps[6], SwapAction::RemoveJournal, Some("removing purge journal"@))
}

proof fn lemma_installs(steps: Seq<Step>)
    requires
        steps_view(steps) == install_steps(),
    ensures
        installs(steps),
{
    assert(steps_view(steps).len() == steps.len());
    assert forall|k: int| 0 <= k < steps.len() implies install_steps()[k] == (
    #[trigger] steps[k])@ by {
        assert(steps_view(steps)[k] == steps[k]@);
    }
    assert(install_steps()[0] == steps[0]@);
    assert(install_steps()[1] == steps[1]@);
    assert(install_steps()[2] == steps[2]@);
    assert(install_steps()[3] == steps[3]@);
    assert(install_steps()[4] == steps[4]@);
    assert(install_steps()[5] == steps[5]@);
    assert(install_steps()[6] == steps[6]@);
}

/// A replacement that was built and verified is installed; one that was not is given up,
/// with its error, and the directory it was built in is removed.
pub proof fn law_after_build(verified: Result<(), WikiError>, r: AfterBuild)
    requires
        call_ensures(after_build, (verified,), r),
    ensures
        verified is Ok ==> (r matches AfterBuild::Install(steps) && installs(steps@)),
        verified matches Err(e) ==> (r matches AfterBuild::GiveUp(cleanup, error) && cleanup@
            == seq![SwapAction::RemoveScratch] && error == e),
{
    if let AfterBuild::Install(steps) = r {
        if verified is Ok {
            lemma_installs(steps@);
        }
    }
}

/// What follows a failed step: nothing, or the end, with the error in so many words, and
/// with the old repository put back where the new one could not be moved into place.
pub proof fn law_after_failure(step: &Step, detail: &str, r: AfterFailure)
    requires
        call_ensures(Step::after_failure, (step, detail), r),
    ensures
        match step.on_failure {
            OnFailure::Ignore => r is Continue,
            OnFailure::Report => r matches AfterFailure::Stop(cleanup, e) && cleanup@.len() == 0
                && e.message@ == "git purge: "@ + detail@,
            OnFailure::Fail(context) => r matches AfterFailure::Stop(cleanup, e) && cleanup@.len()
                == 0 && e.message@ == "git purge: "@ + context@ + ": "@ + detail@,
            OnFailure::PutBack(context) => r matches AfterFailure::Stop(cleanup, e) && cleanup@
                == seq![
                SwapAction::RestoreRetired,
                SwapAction::RemoveScratch,
                SwapAction::RemoveJournal,
            ] && e.message@ == "git purge: "@ + context@ + ": "@ + detail@,
        },
{
}

/// How an interrupted purge is resolved: by these actions, in this order; with an error only
/// where nothing but the old repository is left; and under the directories that the journal
/// names.
pub proof fn law_recover_interrupted_purge(
    journal: Option<&PurgeJournal>,
    found: Found,
    r: Recovery,
)
    requires
        call_ensures(recover_interrupted_purge, (journal, found), r),
    ensures
        ({
            let lost = journal is Some && journal->0.state == JournalState::Swapping && !found.live
                && !found.new && found.retired;
            let actions = r.steps@.map_values(|s: Step| s.action);
            &&& journal is None ==> actions.len() == 0 && (r.outcome matches Ok(b) && !b)
            &&& journal is None ==> r.scratch is None && r.retired is None
            &&& journal is Some && !lost ==> (r.outcome matches Ok(b) && b)
            &&& lost ==> (r.outcome matches Err(e) && e.message@
                == "git purge: interrupted before the rebuilt repository was installed; the purge must be re-run"@)
            &&& journal matches Some(j) ==> (r.scratch matches Some(s) && s@
                == ".ai-memory-purge-"@ + "new-"@ + j.purge_id@) && (r.retired matches Some(s)
                && s@ == ".ai-memory-purge-"@ + "old-"@ + j.purge_id@)
            &&& lost ==> actions == seq![SwapAction::RestoreRetired, SwapAction::RemoveJournal]
            &&& journal matches Some(j) ==> j.state == JournalState::Prepared ==> actions == seq![
                SwapAction::RemoveScratch,
                SwapAction::RemoveRetired,
                SwapAction::RemoveJournal,
            ]
            &&& journal matches Some(j) ==> j.state == JournalState::Swapping && !lost ==> actions
                == (if found.live && found.new && !found.retired {
                seq![SwapAction::RetireLive, SwapAction::InstallNew, SwapAction::RemoveRetired]
            } else if !found.live && found.new && found.retired {
                seq![SwapAction::InstallNew, SwapAction::RemoveRetired]
            } else if !found.live && found.new {
                seq![SwapAction::InstallNew]
            } else if found.retired {
                seq![SwapAction::RemoveRetired]
            } else {
                Seq::empty()
            }) + seq![SwapAction::RemoveScratch, SwapAction::RemoveJournal]
        }),
{
    let state = match journal {
        Some(j) => Some(j.state),
        None => None,
    };
    law_actions_in_their_order(state, found);
    assert(r.steps@.map_values(|s: Step| s.action) == actions_of(recovery_steps(state, found))) by {
        assert(steps_view(r.steps@).len() == r.steps@.len());
        assert forall|k: int| 0 <= k < r.steps@.len() implies (#[trigger] r.steps@[k]).action
            == actions_of(recovery_steps(state, found))[k] by {
            law_a_step_says_what_it_holds(r.steps@, k);
        }
    }
}

} // verus!
