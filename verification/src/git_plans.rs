//! What every plan of a history purge says, part by part.

use vstd::prelude::*;
use vstd::utf8::encode_utf8;

use crate::git_laws::{lemma_latest, lemma_latest_found, stands_before};
use crate::git_paths::{
    has_nameless, law_a_copy_by_the_names, law_only_nameless_directories_stop_a_walk, passes,
    stands,
};
use crate::git_purge::{
    blob_id, head_name, head_view, history_purge_step, history_view, is_scratch, kept_references,
    latest, lists_doomed_blobs, names_of, oids, planned_references, positions, references_view,
    remapped, starts_as_scratch, Commit, CommitView, Head, HeadView, HistoryPurge, PlannedReference,
    Rebuild, Reference, ReferenceView, RootEntry, WikiError,
};
use crate::git_tree::{
    entry_view, lemma_tree_view_len, node_view, tree_view, Node, NodeView, Oid, TreeEntry,
};
use crate::ids::{hex, hyphenated};
use crate::text::decimal;

verus! {

/// A tree says what its entries hold, entry for entry.
pub proof fn law_a_tree_says_what_it_holds(entries: Seq<TreeEntry>, k: int)
    requires
        0 <= k < entries.len(),
    ensures
        tree_view(entries).len() == entries.len(),
        tree_view(entries)[k].mode == entries[k].mode,
        entries[k].name is None ==> tree_view(entries)[k].name is None,
        entries[k].name matches Some(n) ==> tree_view(entries)[k].name == Some(n@),
        entries[k].node matches Node::Blob(id) ==> tree_view(entries)[k].node == NodeView::Blob(
            id.bytes@,
        ),
        entries[k].node matches Node::Other(id) ==> tree_view(entries)[k].node == NodeView::Other(
            id.bytes@,
        ),
        entries[k].node matches Node::Tree(below) ==> tree_view(entries)[k].node == NodeView::Tree(
            tree_view(below@),
        ),
    decreases entries.len(),
{
    lemma_tree_view_len(entries);
    lemma_tree_view_len(entries.drop_last());
    if k < entries.len() - 1 {
        law_a_tree_says_what_it_holds(entries.drop_last(), k);
        assert(entries.drop_last()[k] == entries[k]);
    } else {
        let e = entries[k];
        assert(tree_view(entries)[k] == entry_view(e));
        assert(entry_view(e).node == node_view(e.node));
    }
}

/// A commit, a head and a reference say what they hold.
pub proof fn law_a_commit_says_what_it_holds(c: Commit, h: Head, r: Reference)
    ensures
        c@.id == c.id.bytes@,
        c@.parents.len() == c.parents@.len(),
        forall|p: int|
            0 <= p < c.parents@.len() ==> #[trigger] c@.parents[p] == c.parents@[p].bytes@,
        c@.tree == tree_view(c.tree@),
        c@.author.name == c.author.name@,
        c@.author.email == c.author.email@,
        c@.author.seconds == c.author.seconds,
        c@.author.offset_minutes == c.author.offset_minutes,
        c@.committer.name == c.committer.name@,
        c@.committer.email == c.committer.email@,
        c@.committer.seconds == c.committer.seconds,
        c@.committer.offset_minutes == c.committer.offset_minutes,
        c.message is None ==> c@.message is None,
        c.message matches Some(m) ==> c@.message == Some(m@),
        h@.target == h.target.bytes@,
        h.branch is None ==> h@.branch is None,
        h.branch matches Some(b) ==> h@.branch == Some(b@),
        r@.name == r.name@,
        r@.target == r.target.bytes@,
{
}

/// Lists of commits and of references say what each says, and so does a head.
pub proof fn law_a_history_says_what_it_holds(
    commits: Seq<Commit>,
    head: Option<Head>,
    refs: Seq<Reference>,
)
    ensures
        history_view(commits).len() == commits.len(),
        forall|i: int|
            0 <= i < commits.len() ==> #[trigger] history_view(commits)[i] == commits[i]@,
        references_view(refs).len() == refs.len(),
        forall|i: int| 0 <= i < refs.len() ==> #[trigger] references_view(refs)[i] == refs[i]@,
        head is None ==> head_view(head) is None,
        head matches Some(h) ==> head_view(head) == Some(h@),
{
}

/// A parent is carried over exactly if it stands before.
proof fn lemma_parents_carried(commits: Seq<CommitView>, parents: Seq<Seq<u8>>, i: int)
    requires
        0 <= i <= commits.len(),
    ensures
        forall|p: int|
            0 <= p < remapped(commits, parents, i).len() ==> 0 <= #[trigger] remapped(
                commits,
                parents,
                i,
            )[p] < i,
        remapped(commits, parents, i).map_values(|j: int| commits[j].id) == parents.filter(
            |id: Seq<u8>| stands_before(commits, id, i),
        ),
    decreases parents.len(),
{
    reveal(Seq::filter);
    if parents.len() > 0 {
        let rest = parents.drop_last();
        let last = parents.last();
        let part = remapped(commits, rest, i);
        lemma_parents_carried(commits, rest, i);
        lemma_latest(commits, last, i);
        if stands_before(commits, last, i) {
            let j = choose|j: int| 0 <= j < i && (#[trigger] commits[j]).id == last;
            lemma_latest_found(commits, last, i, j);
        }
        if let Some(j) = latest(commits, last, i) {
            assert(stands_before(commits, last, i)) by {
                assert(commits[j].id == last);
            }
            assert(remapped(commits, parents, i) == part.push(j));
            assert(part.push(j).map_values(|j: int| commits[j].id) == part.map_values(
                |j: int| commits[j].id,
            ).push(last));
        }
    }
}

/// The references that are carried over are those that lead into the history, but for the
/// one of the head.
proof fn lemma_references_carried(
    commits: Seq<CommitView>,
    refs: Seq<ReferenceView>,
    taken: Seq<char>,
)
    ensures
        forall|k: int|
            0 <= k < kept_references(commits, refs, taken).len() ==> 0 <= (
            #[trigger] kept_references(commits, refs, taken)[k]).1 < commits.len(),
        kept_references(commits, refs, taken).map_values(
            |p: (Seq<char>, int)| (p.0, commits[p.1].id),
        ) == refs.filter(
            |r: ReferenceView|
                r.name != taken && stands_before(commits, r.target, commits.len() as int),
        ).map_values(|r: ReferenceView| (r.name, r.target)),
    decreases refs.len(),
{
    reveal(Seq::filter);
    let n = commits.len() as int;
    if refs.len() > 0 {
        let rest = refs.drop_last();
        let last = refs.last();
        let part = kept_references(commits, rest, taken);
        let picked = rest.filter(
            |r: ReferenceView|
                r.name != taken && stands_before(commits, r.target, commits.len() as int),
        );
        lemma_references_carried(commits, rest, taken);
        lemma_latest(commits, last.target, n);
        if stands_before(commits, last.target, n) {
            let j = choose|j: int| 0 <= j < n && (#[trigger] commits[j]).id == last.target;
            lemma_latest_found(commits, last.target, n, j);
        }
        if let Some(j) = latest(commits, last.target, n) {
            assert(stands_before(commits, last.target, n)) by {
                assert(commits[j].id == last.target);
            }
            if last.name != taken {
                assert(kept_references(commits, refs, taken) == part.push((last.name, j)));
                assert(part.push((last.name, j)).map_values(
                    |p: (Seq<char>, int)| (p.0, commits[p.1].id),
                ) == part.map_values(|p: (Seq<char>, int)| (p.0, commits[p.1].id)).push(
                    (last.name, last.target),
                ));
                assert(picked.push(last).map_values(|r: ReferenceView| (r.name, r.target))
                    == picked.map_values(|r: ReferenceView| (r.name, r.target)).push(
                    (last.name, last.target),
                ));
            }
        }
    }
}

/// What a rebuild keeps of a commit. A file stands in it exactly where it stood, with its
/// mode and content, unless the way to it passes a doomed path. Its parents are, in their
/// order, those that stand before it, rebuilt. Author and committer are the same, and so
/// is the message; one that cannot be read is left empty.
pub proof fn law_a_rebuilt_commit_by_its_parts(
    commits: Seq<CommitView>,
    head: Option<HeadView>,
    refs: Seq<ReferenceView>,
    doomed: Seq<Seq<char>>,
    rebuilt: Rebuild,
    i: int,
    names: Seq<Seq<char>>,
    mode: int,
    id: Seq<u8>,
)
    requires
        rebuilt.rebuilds(commits, head, refs, doomed),
        0 <= i < commits.len(),
    ensures
        rebuilt.commits@.len() == commits.len(),
        stands(tree_view(rebuilt.commits@[i].tree@), names, mode, NodeView::Blob(id)) <==> stands(
            commits[i].tree,
            names,
            mode,
            NodeView::Blob(id),
        ) && !passes(Seq::empty(), names, doomed),
        stands(tree_view(rebuilt.commits@[i].tree@), names, mode, NodeView::Other(id)) <==> stands(
            commits[i].tree,
            names,
            mode,
            NodeView::Other(id),
        ) && !passes(Seq::empty(), names, doomed),
        forall|p: int|
            0 <= p < rebuilt.commits@[i].parents@.len() ==> #[trigger] rebuilt.commits@[i].parents@[
                p] < i,
        rebuilt.commits@[i].parents@.map_values(|p: usize| commits[p as int].id)
            == commits[i].parents.filter(|parent: Seq<u8>| stands_before(commits, parent, i)),
        rebuilt.commits@[i].author.name@ == commits[i].author.name,
        rebuilt.commits@[i].author.email@ == commits[i].author.email,
        rebuilt.commits@[i].author.seconds == commits[i].author.seconds,
        rebuilt.commits@[i].author.offset_minutes == commits[i].author.offset_minutes,
        rebuilt.commits@[i].committer.name@ == commits[i].committer.name,
        rebuilt.commits@[i].committer.email@ == commits[i].committer.email,
        rebuilt.commits@[i].committer.seconds == commits[i].committer.seconds,
        rebuilt.commits@[i].committer.offset_minutes == commits[i].committer.offset_minutes,
        commits[i].message matches Some(m) ==> rebuilt.commits@[i].message@ == m,
        commits[i].message is None ==> rebuilt.commits@[i].message@.len() == 0,
{
    let c = rebuilt.commits@[i];
    assert(c.rewrites(commits, i, doomed));
    law_a_copy_by_the_names(
        commits[i].tree,
        Seq::empty(),
        doomed,
        names,
        mode,
        id,
        Seq::empty(),
    );
    let now = c.parents@;
    lemma_parents_carried(commits, commits[i].parents, i);
    let carried = remapped(commits, commits[i].parents, i);
    assert(positions(now) == carried);
    assert forall|p: int| 0 <= p < now.len() implies #[trigger] now[p] < i by {
        assert(positions(now)[p] == now[p] as int);
        assert(carried[p] == now[p] as int);
    }
    assert(now.map_values(|p: usize| commits[p as int].id) == carried.map_values(
        |j: int| commits[j].id,
    )) by {
        assert forall|p: int| 0 <= p < now.len() implies positions(now)[p] == #[trigger] now[
            p] as int by {}
    }
}

/// What a rebuild keeps of the head and the references. There is a head unless there is no
/// commit; it is the branch of that name, or `main` where there was none; it leads to the
/// rewrite of the commit it led to, or to the last where it led to none. The other
/// references are those that lead to a commit of the history, in their order.
pub proof fn law_rebuilt_references_by_their_parts(
    commits: Seq<CommitView>,
    head: Option<HeadView>,
    refs: Seq<ReferenceView>,
    doomed: Seq<Seq<char>>,
    rebuilt: Rebuild,
)
    requires
        rebuilt.rebuilds(commits, head, refs, doomed),
    ensures
        ({
            let n = commits.len() as int;
            let name = if head is Some && head->0.branch is Some {
                "refs/heads/"@ + head->0.branch->0
            } else {
                "refs/heads/"@ + "main"@
            };
            &&& rebuilt.head is None <==> n == 0
            &&& rebuilt.head matches Some(p) ==> p.name@ == name && p.commit < n && if head is Some
                && stands_before(commits, head->0.target, n) {
                commits[p.commit as int].id == head->0.target
            } else {
                p.commit == n - 1
            }
            &&& forall|k: int|
                0 <= k < rebuilt.references@.len() ==> (#[trigger] rebuilt.references@[k]).commit
                    < n
            &&& rebuilt.references@.map_values(
                |r: PlannedReference| (r.name@, commits[r.commit as int].id),
            ) == refs.filter(
                |r: ReferenceView| r.name != name && stands_before(commits, r.target, n),
            ).map_values(|r: ReferenceView| (r.name, r.target))
        }),
{
    let n = commits.len() as int;
    let name = if head is Some && head->0.branch is Some {
        "refs/heads/"@ + head->0.branch->0
    } else {
        "refs/heads/"@ + "main"@
    };
    assert(head_name(head) == name);
    if let Some(h) = head {
        lemma_latest(commits, h.target, n);
        if stands_before(commits, h.target, n) {
            let j = choose|j: int| 0 <= j < n && (#[trigger] commits[j]).id == h.target;
            lemma_latest_found(commits, h.target, n, j);
        } else if let Some(j) = latest(commits, h.target, n) {
            assert(commits[j].id == h.target);
        }
    }
    lemma_references_carried(commits, refs, name);
    let given = rebuilt.references@;
    let planned = planned_references(given);
    assert forall|k: int| 0 <= k < given.len() implies (#[trigger] given[k]).commit < n by {
        assert(planned[k] == (given[k].name@, given[k].commit as int));
    }
    assert(given.map_values(|r: PlannedReference| (r.name@, commits[r.commit as int].id))
        == planned.map_values(|p: (Seq<char>, int)| (p.0, commits[p.1].id))) by {
        assert forall|k: int| 0 <= k < given.len() implies planned[k] == (
            (#[trigger] given[k]).name@,
            given[k].commit as int,
        ) by {}
    }
    assert((|r: ReferenceView| r.name != name && stands_before(commits, r.target, n)) =~= (
    |r: ReferenceView|
        r.name != name && stands_before(commits, r.target, commits.len() as int)));
}

/// What working out a history purge answers. A history with a nameless directory is
/// refused. Else the root and the object count are hashed, and the plan carries the first
/// sixteen digits of the hash and the attempt's id in its own id and in the names of its
/// two directories, the count as it was, the contents that exist only through the paths,
/// and the rebuild without the paths.
pub proof fn law_a_history_plan_by_its_parts(
    root: Seq<char>,
    paths: Seq<Seq<char>>,
    commits: Seq<CommitView>,
    head: Option<HeadView>,
    refs: Seq<ReferenceView>,
    objects_before: usize,
    attempt: Seq<u8>,
    r: Result<Option<HistoryPurge>, WikiError>,
)
    requires
        history_purge_step(root, paths, commits, head, refs, objects_before, attempt, r),
    ensures
        (exists|i: int| 0 <= i < commits.len() && has_nameless((#[trigger] commits[i]).tree)) ==> (
        r matches Err(e) && e.message@ == "git purge: a directory name is not UTF-8"@),
        (forall|i: int| 0 <= i < commits.len() ==> !has_nameless((#[trigger] commits[i]).tree))
            ==> match blob_id(encode_utf8(root + "-"@ + decimal(objects_before as nat))) {
            None => r matches Err(e) && "git purge: "@.is_prefix_of(e.message@),
            Some(hash) => {
                let id = hex(hash).take(16) + "-"@ + hyphenated(attempt);
                &&& r matches Ok(Some(plan))
                &&& plan.purge_id@ == id
                &&& plan.scratch@ == ".ai-memory-purge-"@ + "new-"@ + id
                &&& plan.retired@ == ".ai-memory-purge-"@ + "old-"@ + id
                &&& plan.objects_before == objects_before
                &&& lists_doomed_blobs(
                    commits,
                    paths,
                    plan.doomed_blobs@.map_values(|o: Oid| o.bytes@),
                )
                &&& plan.rebuild.rebuilds(commits, head, refs, paths)
            },
        },
{
    law_only_nameless_directories_stop_a_walk(commits);
    if let Ok(Some(plan)) = r {
        assert(oids(plan.doomed_blobs@) == plan.doomed_blobs@.map_values(
            |o: Oid| o.bytes@,
        ));
    }
}

/// The name of an entry starts as that of a purge's directories.
pub open spec fn named_by_purge(name: Seq<char>) -> bool {
    name.len() >= ".ai-memory-purge-"@.len() && name.take(".ai-memory-purge-"@.len() as int)
        == ".ai-memory-purge-"@
}

/// What is left of a purge in the root directory: the directories with such a name, all of
/// them and in their order.
pub proof fn law_leftovers_by_their_names(entries: Seq<RootEntry>)
    ensures
        names_of(entries.filter(is_scratch())) == entries.filter(
            |e: RootEntry| e.is_directory && named_by_purge(e.name@),
        ).map_values(|e: RootEntry| e.name@),
{
    assert forall|name: Seq<char>| #[trigger] starts_as_scratch(name) == named_by_purge(name) by {
        let p = ".ai-memory-purge-"@;
        if p.is_prefix_of(name) {
            assert(name.take(p.len() as int) == p);
        }
        if named_by_purge(name) {
            assert(name.subrange(0, p.len() as int) == p);
        }
    }
    assert(is_scratch() =~= (|e: RootEntry| e.is_directory && named_by_purge(e.name@)));
}

} // verus!
