//! What holds of every rebuild of a history without doomed paths.

use vstd::prelude::*;

use crate::git_purge::{
    all_readable, all_visits, commit_offence, first_doomed, head_name, history_offence,
    kept_references, latest, lemma_readable, lists_doomed_blobs, object_offence, only_through,
    planned_references, positions, reaches, readable, remapped, replacement_offence, CommitView,
    HeadView, Rebuild, ReferenceView,
};
use crate::git_tree::{
    pruned, pruned_entry, tree_view, walk, walk_entry, EntryView, NodeView, VisitView,
};
use crate::store::lemma_filter;

verus! {

/// A file or other leaf of a tree, with everything that git records of it.
#[verifier::ext_equal]
pub struct Leaf {
    pub path: Seq<char>,
    pub mode: int,
    pub id: Seq<u8>,
    pub is_blob: bool,
    /// The path, or that of a directory above it, is doomed.
    pub doomed: bool,
}

/// The leaves of a tree, in order. Below a name that cannot be read there are none.
/// Where `inside`, a directory above the tree is doomed.
pub open spec fn leaves(
    entries: Seq<EntryView>,
    prefix: Seq<char>,
    doomed: Seq<Seq<char>>,
    inside: bool,
) -> Seq<Leaf>
    decreases entries,
{
    if entries.len() == 0 {
        Seq::empty()
    } else {
        leaves(entries.drop_last(), prefix, doomed, inside) + entry_leaves(
            entries.last(),
            prefix,
            doomed,
            inside,
        )
    }
}

/// The leaves of one entry.
pub open spec fn entry_leaves(
    e: EntryView,
    prefix: Seq<char>,
    doomed: Seq<Seq<char>>,
    inside: bool,
) -> Seq<Leaf>
    decreases e,
{
    match e.name {
        None => Seq::empty(),
        Some(name) => {
            let path = prefix + name;
            let marked = inside || doomed.contains(path);
            match e.node {
                NodeView::Tree(entries) => leaves(entries, path + "/"@, doomed, marked),
                NodeView::Blob(id) => seq![
                    Leaf { path, mode: e.mode, id, is_blob: true, doomed: marked },
                ],
                NodeView::Other(id) => seq![
                    Leaf { path, mode: e.mode, id, is_blob: false, doomed: marked },
                ],
            }
        },
    }
}

/// The leaves of a whole tree.
pub open spec fn tree_leaves(tree: Seq<EntryView>, doomed: Seq<Seq<char>>) -> Seq<Leaf> {
    leaves(tree, Seq::empty(), doomed, false)
}

/// Picks the leaves that a purge leaves alone: all but those at or below a doomed
/// path.
pub open spec fn survives() -> spec_fn(Leaf) -> bool {
    |l: Leaf| !l.doomed
}

/// No directory of the tree is empty, and every name can be read.
pub open spec fn well_kept(entries: Seq<EntryView>) -> bool
    decreases entries,
{
    entries.len() > 0 ==> well_kept(entries.drop_last()) && well_kept_entry(entries.last())
}

/// The same of one entry.
pub open spec fn well_kept_entry(e: EntryView) -> bool
    decreases e,
{
    e.name is Some && (e.node matches NodeView::Tree(entries) ==> entries.len() > 0 && well_kept(
        entries,
    ))
}

/// A leaf whose own path is doomed is marked, and so is every leaf below a doomed
/// directory.
proof fn lemma_leaf_marks(
    entries: Seq<EntryView>,
    prefix: Seq<char>,
    doomed: Seq<Seq<char>>,
    inside: bool,
)
    ensures
        forall|i: int|
            #![trigger leaves(entries, prefix, doomed, inside)[i]]
            0 <= i < leaves(entries, prefix, doomed, inside).len() && (inside || doomed.contains(
                leaves(entries, prefix, doomed, inside)[i].path,
            )) ==> leaves(entries, prefix, doomed, inside)[i].doomed,
    decreases entries,
{
    if entries.len() > 0 {
        let a = leaves(entries.drop_last(), prefix, doomed, inside);
        let b = entry_leaves(entries.last(), prefix, doomed, inside);
        lemma_leaf_marks(entries.drop_last(), prefix, doomed, inside);
        lemma_entry_leaf_marks(entries.last(), prefix, doomed, inside);
        let all = leaves(entries, prefix, doomed, inside);
        assert forall|i: int|
            #![trigger all[i]]
            0 <= i < all.len() && (inside || doomed.contains(all[i].path)) implies all[i].doomed by {
            if i < a.len() {
                assert(all[i] == a[i]);
            } else {
                assert(all[i] == b[i - a.len()]);
            }
        }
    }
}

proof fn lemma_entry_leaf_marks(
    e: EntryView,
    prefix: Seq<char>,
    doomed: Seq<Seq<char>>,
    inside: bool,
)
    ensures
        forall|i: int|
            #![trigger entry_leaves(e, prefix, doomed, inside)[i]]
            0 <= i < entry_leaves(e, prefix, doomed, inside).len() && (inside || doomed.contains(
                entry_leaves(e, prefix, doomed, inside)[i].path,
            )) ==> entry_leaves(e, prefix, doomed, inside)[i].doomed,
    decreases e,
{
    if let Some(name) = e.name {
        if let NodeView::Tree(entries) = e.node {
            let path = prefix + name;
            let marked = inside || doomed.contains(path);
            lemma_leaf_marks(entries, path + "/"@, doomed, marked);
            assert(entry_leaves(e, prefix, doomed, inside) == leaves(
                entries,
                path + "/"@,
                doomed,
                marked,
            ));
        }
    }
}

/// Nothing below a doomed directory survives.
proof fn lemma_none_survive(entries: Seq<EntryView>, prefix: Seq<char>, doomed: Seq<Seq<char>>)
    ensures
        leaves(entries, prefix, doomed, true).filter(survives()) == Seq::<Leaf>::empty(),
{
    let all = leaves(entries, prefix, doomed, true);
    lemma_leaf_marks(entries, prefix, doomed, true);
    lemma_filter(all, survives());
    let left = all.filter(survives());
    if left.len() > 0 {
        assert(left.contains(left[0]));
        let k = choose|k: int| 0 <= k < all.len() && all[k] == left[0];
        assert(all[k].doomed);
    }
}

/// A rebuilt tree has exactly the surviving leaves, at their paths, in their order,
/// with their modes and contents; no directory is left empty.
pub proof fn law_surviving_files_are_kept_as_they_are(
    entries: Seq<EntryView>,
    prefix: Seq<char>,
    doomed: Seq<Seq<char>>,
)
    ensures
        leaves(pruned(entries, prefix, doomed), prefix, doomed, false) == leaves(
            entries,
            prefix,
            doomed,
            false,
        ).filter(survives()),
        well_kept(pruned(entries, prefix, doomed)),
    decreases entries,
{
    reveal(Seq::filter);
    if entries.len() > 0 {
        let rest = entries.drop_last();
        let last = entries.last();
        let before = leaves(rest, prefix, doomed, false);
        law_surviving_files_are_kept_as_they_are(rest, prefix, doomed);
        lemma_entry_leaves(last, prefix, doomed);
        Seq::filter_distributes_over_add(
            before,
            entry_leaves(last, prefix, doomed, false),
            survives(),
        );
        let left = pruned(rest, prefix, doomed);
        match pruned_entry(last, prefix, doomed) {
            Some(e) => {
                assert(left.push(e).drop_last() == left);
            },
            None => {
                assert(before.filter(survives()) + Seq::<Leaf>::empty() == before.filter(
                    survives(),
                ));
            },
        }
    }
}

proof fn lemma_entry_leaves(e: EntryView, prefix: Seq<char>, doomed: Seq<Seq<char>>)
    ensures
        match pruned_entry(e, prefix, doomed) {
            Some(left) => entry_leaves(left, prefix, doomed, false) == entry_leaves(
                e,
                prefix,
                doomed,
                false,
            ).filter(survives()) && well_kept_entry(left),
            None => entry_leaves(e, prefix, doomed, false).filter(survives()) == Seq::<
                Leaf,
            >::empty(),
        },
    decreases e,
{
    reveal(Seq::filter);
    if let Some(name) = e.name {
        let path = prefix + name;
        let all = entry_leaves(e, prefix, doomed, false);
        if let NodeView::Tree(entries) = e.node {
            let below = path + "/"@;
            if doomed.contains(path) {
                lemma_none_survive(entries, below, doomed);
            } else {
                law_surviving_files_are_kept_as_they_are(entries, below, doomed);
                let left = pruned(entries, below, doomed);
                if left.len() == 0 {
                    assert(leaves(left, below, doomed, false) == Seq::<Leaf>::empty());
                } else {
                    let kept = EntryView { node: NodeView::Tree(left), ..e };
                    assert(pruned_entry(e, prefix, doomed) == Some(kept));
                    assert(entry_leaves(kept, prefix, doomed, false) == leaves(
                        left,
                        below,
                        doomed,
                        false,
                    ));
                    assert(well_kept_entry(kept));
                }
            }
        } else {
            assert(all.len() == 1);
            assert(all.drop_last() == Seq::<Leaf>::empty());
            assert(all.drop_last().filter(survives()) == Seq::<Leaf>::empty());
            if doomed.contains(path) {
                assert(!survives()(all.last()));
            } else {
                assert(survives()(all.last()));
                assert(all.filter(survives()) == all);
            }
        }
    }
}

/// A well kept directory holds some leaf.
proof fn lemma_well_kept_has_leaf(
    entries: Seq<EntryView>,
    prefix: Seq<char>,
    doomed: Seq<Seq<char>>,
    inside: bool,
)
    requires
        well_kept(entries),
        entries.len() > 0,
    ensures
        leaves(entries, prefix, doomed, inside).len() > 0,
    decreases entries,
{
    let e = entries.last();
    assert(well_kept_entry(e));
    if let Some(name) = e.name {
        if let NodeView::Tree(below) = e.node {
            let path = prefix + name;
            let marked = inside || doomed.contains(path);
            lemma_well_kept_has_leaf(below, path + "/"@, doomed, marked);
            assert(entry_leaves(e, prefix, doomed, inside) == leaves(
                below,
                path + "/"@,
                doomed,
                marked,
            ));
        }
    }
    assert(entry_leaves(e, prefix, doomed, inside).len() > 0);
}

/// Dooming no leaf of it leaves a well kept tree as it is. In particular, purging a
/// tree again changes nothing.
pub proof fn law_untouched_trees_stay(
    entries: Seq<EntryView>,
    prefix: Seq<char>,
    doomed: Seq<Seq<char>>,
)
    requires
        well_kept(entries),
        forall|i: int|
            0 <= i < leaves(entries, prefix, doomed, false).len() ==> survives()(
                #[trigger] leaves(entries, prefix, doomed, false)[i],
            ),
    ensures
        pruned(entries, prefix, doomed) == entries,
    decreases entries,
{
    if entries.len() > 0 {
        let rest = entries.drop_last();
        let last = entries.last();
        let a = leaves(rest, prefix, doomed, false);
        let b = entry_leaves(last, prefix, doomed, false);
        let all = leaves(entries, prefix, doomed, false);
        assert(all == a + b);
        assert forall|i: int| 0 <= i < a.len() implies survives()(#[trigger] a[i]) by {
            assert(all[i] == a[i]);
        }
        assert forall|i: int| 0 <= i < b.len() implies survives()(#[trigger] b[i]) by {
            assert(all[a.len() + i] == b[i]);
        }
        law_untouched_trees_stay(rest, prefix, doomed);
        lemma_untouched_entry(last, prefix, doomed);
        assert(entries == rest.push(last));
    } else {
        assert(entries =~= Seq::<EntryView>::empty());
    }
}

proof fn lemma_untouched_entry(e: EntryView, prefix: Seq<char>, doomed: Seq<Seq<char>>)
    requires
        well_kept_entry(e),
        forall|i: int|
            0 <= i < entry_leaves(e, prefix, doomed, false).len() ==> survives()(
                #[trigger] entry_leaves(e, prefix, doomed, false)[i],
            ),
    ensures
        pruned_entry(e, prefix, doomed) == Some(e),
    decreases e,
{
    if let Some(name) = e.name {
        let path = prefix + name;
        let all = entry_leaves(e, prefix, doomed, false);
        if let NodeView::Tree(entries) = e.node {
            let below = path + "/"@;
            let marked = doomed.contains(path);
            lemma_well_kept_has_leaf(entries, below, doomed, marked);
            lemma_leaf_marks(entries, below, doomed, marked);
            assert(all == leaves(entries, below, doomed, marked));
            assert(survives()(all[0]));
            assert(!marked);
            assert forall|i: int| 0 <= i < leaves(entries, below, doomed, false).len() implies
                survives()(#[trigger] leaves(entries, below, doomed, false)[i]) by {
                assert(survives()(all[i]));
            }
            law_untouched_trees_stay(entries, below, doomed);
        } else {
            assert(survives()(all[0]));
        }
    }
}

/// Purging the same paths again changes nothing.
pub proof fn law_pruning_is_idempotent(
    entries: Seq<EntryView>,
    prefix: Seq<char>,
    doomed: Seq<Seq<char>>,
)
    ensures
        pruned(pruned(entries, prefix, doomed), prefix, doomed) == pruned(entries, prefix, doomed),
{
    law_surviving_files_are_kept_as_they_are(entries, prefix, doomed);
    lemma_filter(leaves(entries, prefix, doomed, false), survives());
    law_untouched_trees_stay(pruned(entries, prefix, doomed), prefix, doomed);
}

/// The visit that meets a blob.
spec fn meets(path: Seq<char>, id: Seq<u8>, marked: bool) -> VisitView {
    VisitView { path, blob: Some(id), doomed: marked }
}

/// A walk meets a blob exactly where a leaf is one, if it gets through.
proof fn lemma_walk_meets_leaves(
    entries: Seq<EntryView>,
    prefix: Seq<char>,
    doomed: Seq<Seq<char>>,
    inside: bool,
)
    requires
        walk(entries, prefix, doomed, inside).complete,
    ensures
        forall|path: Seq<char>, id: Seq<u8>, m: bool|
            walk(entries, prefix, doomed, inside).visits.contains(#[trigger] meets(path, id, m))
                <==> has_blob(leaves(entries, prefix, doomed, inside), path, id, m),
    decreases entries,
{
    let w = walk(entries, prefix, doomed, inside);
    if entries.len() > 0 {
        let rest = entries.drop_last();
        let last = entries.last();
        let a = walk(rest, prefix, doomed, inside).visits;
        let b = walk_entry(last, prefix, doomed, inside).visits;
        let c = leaves(rest, prefix, doomed, inside);
        let d = entry_leaves(last, prefix, doomed, inside);
        lemma_walk_meets_leaves(rest, prefix, doomed, inside);
        lemma_walk_entry_meets_leaves(last, prefix, doomed, inside);
        assert forall|path: Seq<char>, id: Seq<u8>, m: bool|
            w.visits.contains(#[trigger] meets(path, id, m)) <==> has_blob(
                leaves(entries, prefix, doomed, inside),
                path,
                id,
                m,
            ) by {
            let v = meets(path, id, m);
            lemma_contains_concat(a, b, v);
            lemma_has_blob_concat(c, d, path, id, m);
            assert(a.contains(v) <==> has_blob(c, path, id, m));
            assert(b.contains(v) <==> has_blob(d, path, id, m));
        }
    }
}

proof fn lemma_walk_entry_meets_leaves(
    e: EntryView,
    prefix: Seq<char>,
    doomed: Seq<Seq<char>>,
    inside: bool,
)
    requires
        walk_entry(e, prefix, doomed, inside).complete,
    ensures
        forall|path: Seq<char>, id: Seq<u8>, m: bool|
            walk_entry(e, prefix, doomed, inside).visits.contains(#[trigger] meets(path, id, m))
                <==> has_blob(entry_leaves(e, prefix, doomed, inside), path, id, m),
    decreases e,
{
    let w = walk_entry(e, prefix, doomed, inside);
    let all = entry_leaves(e, prefix, doomed, inside);
    if let Some(name) = e.name {
        let here = prefix + name;
        let marked = inside || doomed.contains(here);
        match e.node {
            NodeView::Tree(entries) => {
                let own = seq![VisitView { path: here, blob: None, doomed: marked }];
                let below = walk(entries, here + "/"@, doomed, marked).visits;
                lemma_walk_meets_leaves(entries, here + "/"@, doomed, marked);
                assert forall|path: Seq<char>, id: Seq<u8>, m: bool|
                    w.visits.contains(#[trigger] meets(path, id, m)) <==> has_blob(
                        all,
                        path,
                        id,
                        m,
                    ) by {
                    let v = meets(path, id, m);
                    lemma_contains_concat(own, below, v);
                    assert(!own.contains(v));
                    assert(below.contains(v) <==> has_blob(all, path, id, m));
                }
            },
            NodeView::Blob(blob) => {
                assert forall|path: Seq<char>, id: Seq<u8>, m: bool|
                    w.visits.contains(#[trigger] meets(path, id, m)) <==> has_blob(
                        all,
                        path,
                        id,
                        m,
                    ) by {
                    assert(w.visits[0] == meets(here, blob, marked));
                    assert(all[0].path == here);
                }
            },
            NodeView::Other(_) => {
                assert forall|path: Seq<char>, id: Seq<u8>, m: bool|
                    w.visits.contains(#[trigger] meets(path, id, m)) <==> has_blob(
                        all,
                        path,
                        id,
                        m,
                    ) by {
                    assert(!all[0].is_blob);
                }
            },
        }
    }
}

/// The blob `id` is a leaf at `path`, doomed or not.
pub open spec fn has_blob(all: Seq<Leaf>, path: Seq<char>, id: Seq<u8>, doomed: bool) -> bool {
    exists|i: int|
        0 <= i < all.len() && (#[trigger] all[i]).is_blob && all[i].path == path && all[i].id == id
            && all[i].doomed == doomed
}

pub(crate) proof fn lemma_contains_concat<T>(a: Seq<T>, b: Seq<T>, x: T)
    ensures
        (a + b).contains(x) <==> a.contains(x) || b.contains(x),
{
    if a.contains(x) {
        let k = choose|k: int| 0 <= k < a.len() && a[k] == x;
        assert((a + b)[k] == x);
    }
    if b.contains(x) {
        let k = choose|k: int| 0 <= k < b.len() && b[k] == x;
        assert((a + b)[a.len() + k] == x);
    }
}

proof fn lemma_has_blob_concat(a: Seq<Leaf>, b: Seq<Leaf>, path: Seq<char>, id: Seq<u8>, m: bool)
    ensures
        has_blob(a + b, path, id, m) <==> has_blob(a, path, id, m) || has_blob(b, path, id, m),
{
    if has_blob(a, path, id, m) {
        let i = choose|i: int|
            0 <= i < a.len() && (#[trigger] a[i]).is_blob && a[i].path == path && a[i].id == id
                && a[i].doomed == m;
        assert((a + b)[i] == a[i]);
    }
    if has_blob(b, path, id, m) {
        let i = choose|i: int|
            0 <= i < b.len() && (#[trigger] b[i]).is_blob && b[i].path == path && b[i].id == id
                && b[i].doomed == m;
        assert((a + b)[a.len() + i] == b[i]);
    }
    if has_blob(a + b, path, id, m) {
        let i = choose|i: int|
            0 <= i < (a + b).len() && (#[trigger] (a + b)[i]).is_blob && (a + b)[i].path == path
                && (a + b)[i].id == id && (a + b)[i].doomed == m;
        if i < a.len() {
            assert(a[i] == (a + b)[i]);
        } else {
            assert(b[i - a.len()] == (a + b)[i]);
        }
    }
}

/// A tree that is well kept can be walked to its end, and one without doomed paths
/// is met with none.
proof fn lemma_pruned_walk(entries: Seq<EntryView>, prefix: Seq<char>, doomed: Seq<Seq<char>>)
    ensures
        walk(pruned(entries, prefix, doomed), prefix, doomed, false).complete,
        forall|k: int|
            0 <= k < walk(pruned(entries, prefix, doomed), prefix, doomed, false).visits.len()
                ==> !doomed.contains(
                (#[trigger] walk(
                    pruned(entries, prefix, doomed),
                    prefix,
                    doomed,
                    false,
                ).visits[k]).path,
            ),
    decreases entries,
{
    if entries.len() > 0 {
        let rest = pruned(entries.drop_last(), prefix, doomed);
        let last = entries.last();
        lemma_pruned_walk(entries.drop_last(), prefix, doomed);
        lemma_pruned_entry_walk(last, prefix, doomed);
        if let Some(e) = pruned_entry(last, prefix, doomed) {
            assert(rest.push(e).drop_last() == rest);
            let a = walk(rest, prefix, doomed, false).visits;
            let b = walk_entry(e, prefix, doomed, false).visits;
            let all = walk(pruned(entries, prefix, doomed), prefix, doomed, false).visits;
            assert(all == a + b);
            assert forall|k: int| 0 <= k < all.len() implies !doomed.contains(
                (#[trigger] all[k]).path,
            ) by {
                if k < a.len() {
                    assert(all[k] == a[k]);
                } else {
                    assert(all[k] == b[k - a.len()]);
                }
            }
        }
    }
}

proof fn lemma_pruned_entry_walk(e: EntryView, prefix: Seq<char>, doomed: Seq<Seq<char>>)
    ensures
        pruned_entry(e, prefix, doomed) matches Some(left) ==> {
            let w = walk_entry(left, prefix, doomed, false);
            &&& w.complete
            &&& forall|k: int|
                0 <= k < w.visits.len() ==> !doomed.contains((#[trigger] w.visits[k]).path)
        },
    decreases e,
{
    if let Some(name) = e.name {
        let path = prefix + name;
        if let NodeView::Tree(entries) = e.node {
            let below = path + "/"@;
            lemma_pruned_walk(entries, below, doomed);
            if let Some(left) = pruned_entry(e, prefix, doomed) {
                let own = seq![VisitView { path, blob: None, doomed: false }];
                let rest = walk(pruned(entries, below, doomed), below, doomed, false).visits;
                let w = walk_entry(left, prefix, doomed, false);
                assert(w.visits == own + rest);
                assert forall|k: int| 0 <= k < w.visits.len() implies !doomed.contains(
                    (#[trigger] w.visits[k]).path,
                ) by {
                    if k > 0 {
                        assert(w.visits[k] == rest[k - 1]);
                    }
                }
            }
        }
    }
}

/// A walk through the whole history meets what some commit's walk meets.
pub(crate) proof fn lemma_all_visits(commits: Seq<CommitView>, doomed: Seq<Seq<char>>, v: VisitView, i: int)
    requires
        0 <= i < commits.len(),
        walk(commits[i].tree, Seq::empty(), doomed, false).visits.contains(v),
    ensures
        all_visits(commits, doomed).contains(v),
    decreases commits.len(),
{
    let rest = commits.drop_last();
    let last = walk(commits.last().tree, Seq::empty(), doomed, false).visits;
    lemma_contains_concat(all_visits(rest, doomed), last, v);
    if i < rest.len() {
        assert(rest[i] == commits[i]);
        lemma_all_visits(rest, doomed, v, i);
    }
}

/// The deletion is real: every file of the rebuilt history stands at a path that is
/// not doomed, and holds no blob that existed only through doomed paths.
pub proof fn law_doomed_blobs_are_gone(
    commits: Seq<CommitView>,
    head: Option<HeadView>,
    refs: Seq<ReferenceView>,
    doomed: Seq<Seq<char>>,
    rebuilt: Rebuild,
    i: int,
    path: Seq<char>,
    id: Seq<u8>,
    marked: bool,
)
    requires
        all_readable(commits),
        rebuilt.rebuilds(commits, head, refs, doomed),
        0 <= i < commits.len(),
        has_blob(tree_leaves(tree_view(rebuilt.commits@[i].tree@), doomed), path, id, marked),
    ensures
        !only_through(all_visits(commits, doomed), id),
        !doomed.contains(path),
        !marked,
{
    let tree = commits[i].tree;
    let old = tree_leaves(tree, doomed);
    let now = tree_view(rebuilt.commits@[i].tree@);
    let left = tree_leaves(now, doomed);
    assert(rebuilt.commits@[i].rewrites(commits, i, doomed));
    law_surviving_files_are_kept_as_they_are(tree, Seq::empty(), doomed);
    lemma_filter(old, survives());
    lemma_leaf_marks(now, Seq::empty(), doomed, false);
    let k = choose|k: int|
        0 <= k < left.len() && (#[trigger] left[k]).is_blob && left[k].path == path && left[k].id
            == id && left[k].doomed == marked;
    assert(survives()(left[k]));
    assert(old.contains(left[k]));
    let m = choose|m: int| 0 <= m < old.len() && old[m] == left[k];
    assert(has_blob(old, path, id, false)) by {
        assert(old[m].is_blob);
    }
    lemma_reached(commits, doomed, i, path, id);
}

/// A surviving file reaches its blob.
proof fn lemma_reached(
    commits: Seq<CommitView>,
    doomed: Seq<Seq<char>>,
    i: int,
    path: Seq<char>,
    id: Seq<u8>,
)
    requires
        all_readable(commits),
        0 <= i < commits.len(),
        has_blob(tree_leaves(commits[i].tree, doomed), path, id, false),
    ensures
        reaches(all_visits(commits, doomed), false, id),
{
    let v = meets(path, id, false);
    let all = all_visits(commits, doomed);
    assert(readable(commits[i].tree));
    lemma_readable(commits[i].tree, doomed);
    lemma_walk_meets_leaves(commits[i].tree, Seq::empty(), doomed, false);
    lemma_all_visits(commits, doomed, v, i);
    let n = choose|n: int| 0 <= n < all.len() && all[n] == v;
    assert(all[n].blob == Some(id));
}

/// Shared content is spared: a blob that a surviving path uses is not destroyed.
pub proof fn law_shared_blobs_are_spared(
    commits: Seq<CommitView>,
    doomed: Seq<Seq<char>>,
    destroyed: Seq<Seq<u8>>,
    i: int,
    path: Seq<char>,
    id: Seq<u8>,
)
    requires
        all_readable(commits),
        lists_doomed_blobs(commits, doomed, destroyed),
        0 <= i < commits.len(),
        has_blob(tree_leaves(commits[i].tree, doomed), path, id, false),
    ensures
        !destroyed.contains(id),
{
    lemma_reached(commits, doomed, i, path, id);
}

/// A parent that stands earlier is found there.
pub(crate) proof fn lemma_latest_found(commits: Seq<CommitView>, id: Seq<u8>, upto: int, j: int)
    requires
        0 <= j < upto <= commits.len(),
        commits[j].id == id,
    ensures
        latest(commits, id, upto) matches Some(k) && 0 <= k < upto && commits[k].id == id,
    decreases upto,
{
    if commits[upto - 1].id != id {
        lemma_latest_found(commits, id, upto - 1, j);
    }
}

/// A commit with this id stands among the first `upto`.
pub open spec fn stands_before(commits: Seq<CommitView>, id: Seq<u8>, upto: int) -> bool {
    exists|j: int| 0 <= j < upto && (#[trigger] commits[j]).id == id
}

/// Every parent stands before its child.
pub open spec fn parents_first(commits: Seq<CommitView>) -> bool {
    forall|i: int, p: int|
        0 <= i < commits.len() && 0 <= p < commits[i].parents.len() ==> stands_before(
            commits,
            #[trigger] commits[i].parents[p],
            i,
        )
}

proof fn lemma_remapped(commits: Seq<CommitView>, parents: Seq<Seq<u8>>, i: int)
    requires
        0 <= i <= commits.len(),
        forall|p: int|
            0 <= p < parents.len() ==> stands_before(commits, #[trigger] parents[p], i),
    ensures
        remapped(commits, parents, i).len() == parents.len(),
        forall|p: int|
            0 <= p < parents.len() ==> 0 <= #[trigger] remapped(commits, parents, i)[p] < i
                && commits[remapped(commits, parents, i)[p]].id == parents[p],
    decreases parents.len(),
{
    if parents.len() > 0 {
        let rest = parents.drop_last();
        assert forall|p: int| 0 <= p < rest.len() implies stands_before(
            commits,
            #[trigger] rest[p],
            i,
        ) by {
            assert(rest[p] == parents[p]);
        }
        lemma_remapped(commits, rest, i);
        let p = parents.len() - 1;
        assert(stands_before(commits, parents[p], i));
        let j = choose|j: int| 0 <= j < i && (#[trigger] commits[j]).id == parents[p];
        lemma_latest_found(commits, parents.last(), i, j);
        assert forall|q: int| 0 <= q < parents.len() implies 0 <= #[trigger] remapped(
            commits,
            parents,
            i,
        )[q] < i && commits[remapped(commits, parents, i)[q]].id == parents[q] by {
            if q < rest.len() {
                assert(remapped(commits, rest, i)[q] == remapped(commits, parents, i)[q]);
                assert(rest[q] == parents[q]);
            }
        }
    }
}

/// History is kept, not squashed: one rebuilt commit for each old one, and where
/// parents come first, each has all its parents, rebuilt, in their order, and
/// already written before it. Author, committer and readable message are kept.
pub proof fn law_history_is_kept(
    commits: Seq<CommitView>,
    head: Option<HeadView>,
    refs: Seq<ReferenceView>,
    doomed: Seq<Seq<char>>,
    rebuilt: Rebuild,
    i: int,
)
    requires
        rebuilt.rebuilds(commits, head, refs, doomed),
        parents_first(commits),
        0 <= i < commits.len(),
    ensures
        rebuilt.commits@.len() == commits.len(),
        rebuilt.commits@[i].parents@.len() == commits[i].parents.len(),
        forall|p: int|
            0 <= p < commits[i].parents.len() ==> (#[trigger] rebuilt.commits@[i].parents@[p]) < i
                && commits[rebuilt.commits@[i].parents@[p] as int].id == commits[i].parents[p],
        rebuilt.commits@[i].author@ == commits[i].author,
        rebuilt.commits@[i].committer@ == commits[i].committer,
        commits[i].message matches Some(m) ==> rebuilt.commits@[i].message@ == m,
{
    let parents = commits[i].parents;
    let now = rebuilt.commits@[i].parents@;
    assert(rebuilt.commits@[i].rewrites(commits, i, doomed));
    assert forall|p: int| 0 <= p < parents.len() implies stands_before(
        commits,
        #[trigger] parents[p],
        i,
    ) by {
        assert(commits[i].parents[p] == parents[p]);
    }
    lemma_remapped(commits, parents, i);
    assert(positions(now) == remapped(commits, parents, i));
    assert forall|p: int| 0 <= p < parents.len() implies (#[trigger] now[p]) < i && commits[now[
        p] as int].id == parents[p] by {
        assert(positions(now)[p] == now[p] as int);
    }
}

/// No two commits have one id.
pub open spec fn ids_apart(commits: Seq<CommitView>) -> bool {
    forall|i: int, j: int|
        0 <= i < j < commits.len() ==> (#[trigger] commits[i]).id != (#[trigger] commits[j]).id
}

/// From each commit of `chain`, given by positions, the next is a parent.
pub open spec fn descends(commits: Seq<CommitView>, chain: Seq<int>) -> bool {
    &&& forall|k: int| 0 <= k < chain.len() ==> 0 <= #[trigger] chain[k] < commits.len()
    &&& forall|k: int|
        #![trigger chain[k]]
        0 <= k < chain.len() - 1 ==> commits[chain[k]].parents.contains(commits[chain[k + 1]].id)
}

/// The same among the planned commits.
pub open spec fn descends_rebuilt(rebuilt: Rebuild, chain: Seq<int>) -> bool {
    &&& forall|k: int| 0 <= k < chain.len() ==> 0 <= #[trigger] chain[k] < rebuilt.commits@.len()
    &&& forall|k: int|
        #![trigger chain[k]]
        0 <= k < chain.len() - 1 ==> positions(rebuilt.commits@[chain[k]].parents@).contains(
            chain[k + 1],
        )
}

proof fn lemma_parent_kept(
    commits: Seq<CommitView>,
    head: Option<HeadView>,
    refs: Seq<ReferenceView>,
    doomed: Seq<Seq<char>>,
    rebuilt: Rebuild,
    i: int,
    j: int,
)
    requires
        rebuilt.rebuilds(commits, head, refs, doomed),
        parents_first(commits),
        ids_apart(commits),
        0 <= i < commits.len(),
        0 <= j < commits.len(),
    ensures
        commits[i].parents.contains(commits[j].id) <==> positions(
            rebuilt.commits@[i].parents@,
        ).contains(j),
{
    let parents = commits[i].parents;
    let now = rebuilt.commits@[i].parents@;
    law_history_is_kept(commits, head, refs, doomed, rebuilt, i);
    if parents.contains(commits[j].id) {
        let p = choose|p: int| 0 <= p < parents.len() && parents[p] == commits[j].id;
        let at = now[p] as int;
        assert(commits[at].id == commits[j].id);
        if at < j {
            assert(commits[at].id != commits[j].id);
        } else if j < at {
            assert(commits[j].id != commits[at].id);
        }
        assert(positions(now)[p] == j);
    }
    if positions(now).contains(j) {
        let p = choose|p: int| 0 <= p < positions(now).len() && positions(now)[p] == j;
        assert(now[p] == j);
        assert(parents[p] == commits[j].id);
    }
}

/// Descent is kept: a line of commits leads from child to parent in the rebuilt
/// history exactly if it does in the old one. So each commit, and with it each
/// branch, reaches as many commits as before.
pub proof fn law_descent_is_kept(
    commits: Seq<CommitView>,
    head: Option<HeadView>,
    refs: Seq<ReferenceView>,
    doomed: Seq<Seq<char>>,
    rebuilt: Rebuild,
    chain: Seq<int>,
)
    requires
        rebuilt.rebuilds(commits, head, refs, doomed),
        parents_first(commits),
        ids_apart(commits),
    ensures
        descends(commits, chain) <==> descends_rebuilt(rebuilt, chain),
{
    if forall|k: int| 0 <= k < chain.len() ==> 0 <= #[trigger] chain[k] < commits.len() {
        assert forall|k: int|
            #![trigger chain[k]]
            0 <= k < chain.len() - 1 implies (commits[chain[k]].parents.contains(
            commits[chain[k + 1]].id,
        ) <==> positions(rebuilt.commits@[chain[k]].parents@).contains(chain[k + 1])) by {
            assert(0 <= chain[k + 1] < commits.len());
            lemma_parent_kept(commits, head, refs, doomed, rebuilt, chain[k], chain[k + 1]);
        }
    }
}

pub(crate) proof fn lemma_latest(commits: Seq<CommitView>, id: Seq<u8>, upto: int)
    requires
        upto <= commits.len(),
    ensures
        latest(commits, id, upto) matches Some(k) ==> 0 <= k < upto && commits[k].id == id,
    decreases upto,
{
    if upto > 0 && commits[upto - 1].id != id {
        lemma_latest(commits, id, upto - 1);
    }
}

proof fn lemma_kept_references(commits: Seq<CommitView>, refs: Seq<ReferenceView>, taken: Seq<char>)
    ensures
        forall|k: int|
            0 <= k < kept_references(commits, refs, taken).len() ==> leads_as(
                commits,
                refs,
                #[trigger] kept_references(commits, refs, taken)[k],
            ),
        forall|i: int|
            0 <= i < refs.len() && (#[trigger] refs[i]).name != taken && stands_before(
                commits,
                refs[i].target,
                commits.len() as int,
            ) ==> still_leads(commits, refs[i], kept_references(commits, refs, taken)),
    decreases refs.len(),
{
    if refs.len() > 0 {
        let rest = refs.drop_last();
        let last = refs.last();
        let part = kept_references(commits, rest, taken);
        let all = kept_references(commits, refs, taken);
        let n = commits.len() as int;
        lemma_kept_references(commits, rest, taken);
        lemma_latest(commits, last.target, n);
        assert(refs[refs.len() - 1] == last);
        assert forall|k: int| 0 <= k < all.len() implies leads_as(commits, refs, #[trigger] all[k]) by {
            if k < part.len() {
                assert(all[k] == part[k]);
                assert(leads_as(commits, rest, part[k]));
                let i = choose|i: int|
                    0 <= i < rest.len() && (#[trigger] rest[i]).name == part[k].0
                        && rest[i].target == commits[part[k].1].id;
                assert(refs[i] == rest[i]);
            } else {
                assert(refs[refs.len() - 1].name == all[k].0);
            }
        }
        assert forall|i: int|
            0 <= i < refs.len() && (#[trigger] refs[i]).name != taken && stands_before(
                commits,
                refs[i].target,
                n,
            ) implies still_leads(commits, refs[i], all) by {
            if i < rest.len() {
                assert(rest[i] == refs[i]);
                assert(still_leads(commits, rest[i], part));
                let k = choose|k: int|
                    0 <= k < part.len() && (#[trigger] part[k]).0 == rest[i].name && 0 <= part[k].1
                        < commits.len() && commits[part[k].1].id == rest[i].target;
                assert(all[k] == part[k]);
            } else {
                let j = choose|j: int| 0 <= j < n && (#[trigger] commits[j]).id == last.target;
                lemma_latest_found(commits, last.target, n, j);
                assert(all[part.len() as int].0 == last.name);
            }
        }
    }
}

/// A planned reference has the name of one of `refs` and leads where it led.
pub open spec fn leads_as(
    commits: Seq<CommitView>,
    refs: Seq<ReferenceView>,
    planned: (Seq<char>, int),
) -> bool {
    &&& 0 <= planned.1 < commits.len()
    &&& exists|i: int|
        0 <= i < refs.len() && (#[trigger] refs[i]).name == planned.0 && refs[i].target
            == commits[planned.1].id
}

/// `r` is among the planned references and leads to its commit.
pub open spec fn still_leads(
    commits: Seq<CommitView>,
    r: ReferenceView,
    planned: Seq<(Seq<char>, int)>,
) -> bool {
    exists|k: int|
        0 <= k < planned.len() && (#[trigger] planned[k]).0 == r.name && 0 <= planned[k].1
            < commits.len() && commits[planned[k].1].id == r.target
}

/// The head and the other references are kept: the head leads to the rewrite of
/// its own commit, every other reference into the history leads to the rewrite of
/// its commit, and no reference is made up.
pub proof fn law_references_are_kept(
    commits: Seq<CommitView>,
    head: Option<HeadView>,
    refs: Seq<ReferenceView>,
    doomed: Seq<Seq<char>>,
    rebuilt: Rebuild,
)
    requires
        rebuilt.rebuilds(commits, head, refs, doomed),
    ensures
        head matches Some(h) ==> stands_before(commits, h.target, commits.len() as int) ==> (
        rebuilt.head matches Some(p) && p.commit < commits.len() && commits[p.commit as int].id
            == h.target),
        forall|i: int|
            0 <= i < refs.len() && (#[trigger] refs[i]).name != head_name(head) && stands_before(
                commits,
                refs[i].target,
                commits.len() as int,
            ) ==> still_leads(commits, refs[i], planned_references(rebuilt.references@)),
        forall|k: int|
            0 <= k < rebuilt.references@.len() ==> leads_as(
                commits,
                refs,
                #[trigger] planned_references(rebuilt.references@)[k],
            ),
{
    lemma_kept_references(commits, refs, head_name(head));
    if let Some(h) = head {
        let n = commits.len() as int;
        if stands_before(commits, h.target, n) {
            let j = choose|j: int| 0 <= j < n && (#[trigger] commits[j]).id == h.target;
            lemma_latest_found(commits, h.target, n, j);
        }
    }
}

pub(crate) proof fn lemma_no_first_doomed(visits: Seq<VisitView>, doomed: Seq<Seq<char>>)
    ensures
        first_doomed(visits, doomed) is None <==> forall|k: int|
            0 <= k < visits.len() ==> !doomed.contains((#[trigger] visits[k]).path),
    decreases visits.len(),
{
    if visits.len() > 0 {
        let rest = visits.drop_last();
        lemma_no_first_doomed(rest, doomed);
        if first_doomed(visits, doomed) is None {
            assert forall|k: int| 0 <= k < visits.len() implies !doomed.contains(
                (#[trigger] visits[k]).path,
            ) by {
                if k < rest.len() {
                    assert(rest[k] == visits[k]);
                }
            }
        } else if first_doomed(rest, doomed) is Some {
            let k = choose|k: int|
                0 <= k < rest.len() && doomed.contains((#[trigger] rest[k]).path);
            assert(visits[k] == rest[k]);
        } else {
            assert(doomed.contains(visits[visits.len() - 1].path));
        }
    }
}

pub(crate) proof fn lemma_no_history_offence(commits: Seq<CommitView>, doomed: Seq<Seq<char>>)
    ensures
        history_offence(commits, doomed) is None <==> forall|i: int|
            0 <= i < commits.len() ==> commit_offence(#[trigger] commits[i], doomed) is None,
    decreases commits.len(),
{
    if commits.len() > 0 {
        let rest = commits.drop_last();
        lemma_no_history_offence(rest, doomed);
        if history_offence(commits, doomed) is None {
            assert forall|i: int| 0 <= i < commits.len() implies commit_offence(
                #[trigger] commits[i],
                doomed,
            ) is None by {
                if i < rest.len() {
                    assert(rest[i] == commits[i]);
                }
            }
        } else if history_offence(rest, doomed) is Some {
            let i = choose|i: int|
                0 <= i < rest.len() && commit_offence(#[trigger] rest[i], doomed) is Some;
            assert(commits[i] == rest[i]);
        } else {
            assert(commit_offence(commits[commits.len() - 1], doomed) is Some);
        }
    }
}

pub(crate) proof fn lemma_no_object_offence(objects: Seq<Seq<u8>>, blobs: Seq<Seq<u8>>)
    ensures
        object_offence(objects, blobs) is None <==> forall|i: int|
            0 <= i < objects.len() ==> !blobs.contains(#[trigger] objects[i]),
    decreases objects.len(),
{
    if objects.len() > 0 {
        let rest = objects.drop_last();
        lemma_no_object_offence(rest, blobs);
        if object_offence(objects, blobs) is None {
            assert forall|i: int| 0 <= i < objects.len() implies !blobs.contains(
                #[trigger] objects[i],
            ) by {
                if i < rest.len() {
                    assert(rest[i] == objects[i]);
                }
            }
        } else if object_offence(rest, blobs) is Some {
            let i = choose|i: int| 0 <= i < rest.len() && blobs.contains(#[trigger] rest[i]);
            assert(objects[i] == rest[i]);
        } else {
            assert(blobs.contains(objects[objects.len() - 1]));
        }
    }
}

/// Verification fails closed: a replacement passes exactly if every commit can be
/// read to its end and names no purged path, and no object of its database,
/// reachable or not, is a purged blob.
pub proof fn law_verified_means_absent(
    commits: Seq<CommitView>,
    objects: Seq<Seq<u8>>,
    doomed: Seq<Seq<char>>,
    doomed_blobs: Seq<Seq<u8>>,
)
    ensures
        replacement_offence(commits, objects, doomed, doomed_blobs) is None <==> {
            &&& all_readable(commits)
            &&& forall|i: int| 0 <= i < commits.len() ==> lacks(#[trigger] commits[i], doomed)
            &&& forall|k: int|
                0 <= k < objects.len() ==> !doomed_blobs.contains(#[trigger] objects[k])
        },
{
    lemma_no_history_offence(commits, doomed);
    lemma_no_object_offence(objects, doomed_blobs);
    assert forall|i: int| 0 <= i < commits.len() implies (commit_offence(
        #[trigger] commits[i],
        doomed,
    ) is None <==> readable(commits[i].tree) && lacks(commits[i], doomed)) by {
        lemma_no_first_doomed(
            walk(commits[i].tree, Seq::empty(), doomed, false).visits,
            doomed,
        );
        lemma_readable(commits[i].tree, doomed);
    }
    if history_offence(commits, doomed) is None {
        assert forall|i: int| 0 <= i < commits.len() implies readable(
            (#[trigger] commits[i]).tree,
        ) && lacks(commits[i], doomed) by {
            assert(commit_offence(commits[i], doomed) is None);
        }
    } else if all_readable(commits) && forall|i: int|
        0 <= i < commits.len() ==> lacks(#[trigger] commits[i], doomed) {
        let i = choose|i: int|
            0 <= i < commits.len() && commit_offence(#[trigger] commits[i], doomed) is Some;
        assert(readable(commits[i].tree) && lacks(commits[i], doomed));
    }
}

/// No path of the commit is doomed.
pub open spec fn lacks(c: CommitView, doomed: Seq<Seq<char>>) -> bool {
    let visits = walk(c.tree, Seq::empty(), doomed, false).visits;
    forall|k: int| 0 <= k < visits.len() ==> !doomed.contains((#[trigger] visits[k]).path)
}

/// A rebuild passes the path check: whatever stood at a purged path, file or
/// directory, is gone from every commit.
pub proof fn law_rebuilds_pass_verification(
    commits: Seq<CommitView>,
    doomed: Seq<Seq<char>>,
    rebuilt: Seq<CommitView>,
)
    requires
        rebuilt.len() == commits.len(),
        forall|i: int|
            0 <= i < commits.len() ==> (#[trigger] rebuilt[i]).tree == pruned(
                commits[i].tree,
                Seq::empty(),
                doomed,
            ),
    ensures
        history_offence(rebuilt, doomed) is None,
{
    lemma_no_history_offence(rebuilt, doomed);
    assert forall|i: int| 0 <= i < rebuilt.len() implies commit_offence(
        #[trigger] rebuilt[i],
        doomed,
    ) is None by {
        lemma_pruned_walk(commits[i].tree, Seq::empty(), doomed);
        lemma_no_first_doomed(
            walk(rebuilt[i].tree, Seq::empty(), doomed, false).visits,
            doomed,
        );
    }
}

} // verus!
