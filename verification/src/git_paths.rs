//! What a history holds and what a rebuild keeps of it, said by the names that lead
//! through its trees.

use vstd::prelude::*;

use crate::git_laws::{
    lemma_all_visits, lemma_contains_concat, lemma_no_first_doomed, lemma_no_history_offence,
    lemma_no_object_offence,
};
use crate::git_purge::{
    all_readable, all_visits, commit_offence, first_doomed, history_offence, lemma_readable,
    lists_doomed_blobs, object_offence, reaches, readable, replacement_offence, CommitView,
};
use crate::git_tree::{pruned, pruned_entry, walk, walk_entry, EntryView, NodeView, VisitView};
use crate::ids::hex;

verus! {

/// The names lead, directory by directory, to an entry of this mode that holds `node`.
pub open spec fn stands(
    entries: Seq<EntryView>,
    names: Seq<Seq<char>>,
    mode: int,
    node: NodeView,
) -> bool
    decreases names.len(),
{
    names.len() > 0 && exists|k: int|
        0 <= k < entries.len() && (#[trigger] entries[k]).name == Some(names[0]) && if names.len()
            == 1 {
            entries[k].mode == mode && entries[k].node == node
        } else {
            entries[k].node matches NodeView::Tree(below) && stands(
                below,
                names.drop_first(),
                mode,
                node,
            )
        }
}

/// The names, with `/` between them, behind `prefix`.
pub open spec fn spelled(prefix: Seq<char>, names: Seq<Seq<char>>) -> Seq<char>
    decreases names.len(),
{
    if names.len() <= 1 {
        prefix + names[0]
    } else {
        spelled(prefix + names[0] + "/"@, names.drop_first())
    }
}

/// On the way that the names lead, the last step included, one of the paths is listed.
pub open spec fn passes(prefix: Seq<char>, names: Seq<Seq<char>>, listed: Seq<Seq<char>>) -> bool
    decreases names.len(),
{
    names.len() > 0 && (listed.contains(prefix + names[0]) || passes(
        prefix + names[0] + "/"@,
        names.drop_first(),
        listed,
    ))
}

/// The names lead, directory by directory, to the directory with the entries `inner`.
pub open spec fn opens(
    entries: Seq<EntryView>,
    names: Seq<Seq<char>>,
    inner: Seq<EntryView>,
) -> bool
    decreases names.len(),
{
    if names.len() == 0 {
        inner == entries
    } else {
        exists|k: int|
            0 <= k < entries.len() && (#[trigger] entries[k]).name == Some(names[0]) && (
            entries[k].node matches NodeView::Tree(below) && opens(
                below,
                names.drop_first(),
                inner,
            ))
    }
}

/// One entry more leads where it leads, and where the others did.
proof fn lemma_stands_more(
    entries: Seq<EntryView>,
    names: Seq<Seq<char>>,
    mode: int,
    node: NodeView,
)
    requires
        entries.len() > 0,
    ensures
        stands(entries, names, mode, node) == (stands(entries.drop_last(), names, mode, node)
            || stands(seq![entries.last()], names, mode, node)),
{
    let rest = entries.drop_last();
    let one = seq![entries.last()];
    if stands(rest, names, mode, node) {
        let k = choose|k: int|
            0 <= k < rest.len() && (#[trigger] rest[k]).name == Some(names[0]) && if names.len()
                == 1 {
                rest[k].mode == mode && rest[k].node == node
            } else {
                rest[k].node matches NodeView::Tree(below) && stands(
                    below,
                    names.drop_first(),
                    mode,
                    node,
                )
            };
        assert(entries[k] == rest[k]);
    }
    if stands(one, names, mode, node) {
        assert(one[0] == entries[entries.len() - 1]);
    }
    if stands(entries, names, mode, node) {
        let k = choose|k: int|
            0 <= k < entries.len() && (#[trigger] entries[k]).name == Some(names[0])
                && if names.len() == 1 {
                entries[k].mode == mode && entries[k].node == node
            } else {
                entries[k].node matches NodeView::Tree(below) && stands(
                    below,
                    names.drop_first(),
                    mode,
                    node,
                )
            };
        if k < rest.len() {
            assert(rest[k] == entries[k]);
        } else {
            assert(one[0] == entries[k]);
        }
    }
}

/// The visit of the entry that the names lead to.
spec fn visit_of(
    prefix: Seq<char>,
    listed: Seq<Seq<char>>,
    inside: bool,
    names: Seq<Seq<char>>,
    node: NodeView,
) -> VisitView {
    VisitView {
        path: spelled(prefix, names),
        blob: match node {
            NodeView::Blob(id) => Some(id),
            _ => None,
        },
        doomed: inside || passes(prefix, names, listed),
    }
}

/// Some names lead to the entry that `v` visits.
spec fn met(
    entries: Seq<EntryView>,
    prefix: Seq<char>,
    listed: Seq<Seq<char>>,
    inside: bool,
    v: VisitView,
) -> bool {
    exists|names: Seq<Seq<char>>, mode: int, node: NodeView| #[trigger]
        stands(entries, names, mode, node) && v == visit_of(prefix, listed, inside, names, node)
}

/// A walk meets only entries that names lead to, and all of them if it gets through.
proof fn lemma_walk_meets(
    entries: Seq<EntryView>,
    prefix: Seq<char>,
    listed: Seq<Seq<char>>,
    inside: bool,
    v: VisitView,
)
    ensures
        walk(entries, prefix, listed, inside).visits.contains(v) ==> met(
            entries,
            prefix,
            listed,
            inside,
            v,
        ),
        walk(entries, prefix, listed, inside).complete && met(
            entries,
            prefix,
            listed,
            inside,
            v,
        ) ==> walk(entries, prefix, listed, inside).visits.contains(v),
    decreases entries,
{
    if entries.len() > 0 {
        let rest = entries.drop_last();
        let last = entries.last();
        let one = seq![last];
        lemma_walk_meets(rest, prefix, listed, inside, v);
        lemma_walk_entry_meets(last, prefix, listed, inside, v);
        lemma_contains_concat(
            walk(rest, prefix, listed, inside).visits,
            walk_entry(last, prefix, listed, inside).visits,
            v,
        );
        if met(rest, prefix, listed, inside, v) {
            let (names, mode, node) = choose|names: Seq<Seq<char>>, mode: int, node: NodeView|
                #[trigger] stands(rest, names, mode, node) && v == visit_of(
                    prefix,
                    listed,
                    inside,
                    names,
                    node,
                );
            lemma_stands_more(entries, names, mode, node);
            assert(stands(entries, names, mode, node));
        }
        if met(one, prefix, listed, inside, v) {
            let (names, mode, node) = choose|names: Seq<Seq<char>>, mode: int, node: NodeView|
                #[trigger] stands(one, names, mode, node) && v == visit_of(
                    prefix,
                    listed,
                    inside,
                    names,
                    node,
                );
            lemma_stands_more(entries, names, mode, node);
            assert(stands(entries, names, mode, node));
        }
        if met(entries, prefix, listed, inside, v) {
            let (names, mode, node) = choose|names: Seq<Seq<char>>, mode: int, node: NodeView|
                #[trigger] stands(entries, names, mode, node) && v == visit_of(
                    prefix,
                    listed,
                    inside,
                    names,
                    node,
                );
            lemma_stands_more(entries, names, mode, node);
            assert(stands(rest, names, mode, node) || stands(one, names, mode, node));
        }
    }
}

proof fn lemma_walk_entry_meets(
    e: EntryView,
    prefix: Seq<char>,
    listed: Seq<Seq<char>>,
    inside: bool,
    v: VisitView,
)
    ensures
        walk_entry(e, prefix, listed, inside).visits.contains(v) ==> met(
            seq![e],
            prefix,
            listed,
            inside,
            v,
        ),
        walk_entry(e, prefix, listed, inside).complete && met(
            seq![e],
            prefix,
            listed,
            inside,
            v,
        ) ==> walk_entry(e, prefix, listed, inside).visits.contains(v),
    decreases e,
{
    let one = seq![e];
    let w = walk_entry(e, prefix, listed, inside);
    if let Some(name) = e.name {
        let path = prefix + name;
        let marked = inside || listed.contains(path);
        let own = visit_of(prefix, listed, inside, seq![name], e.node);
        assert(seq![name].drop_first().len() == 0);
        assert(!passes(path + "/"@, seq![name].drop_first(), listed));
        assert(own == VisitView { path, blob: own.blob, doomed: marked });
        assert(one[0] == e);
        assert(stands(one, seq![name], e.mode, e.node));
        assert(met(one, prefix, listed, inside, own));
        if let NodeView::Tree(below) = e.node {
            let inner = walk(below, path + "/"@, listed, marked);
            lemma_walk_meets(below, path + "/"@, listed, marked, v);
            lemma_contains_concat(seq![own], inner.visits, v);
            assert(seq![own].contains(v) == (v == own)) by {
                assert(seq![own][0] == own);
            }
            assert(w.visits == seq![own] + inner.visits);
            if met(below, path + "/"@, listed, marked, v) {
                let (names, mode, node) = choose|
                    names: Seq<Seq<char>>,
                    mode: int,
                    node: NodeView,
                | #[trigger]
                    stands(below, names, mode, node) && v == visit_of(
                        path + "/"@,
                        listed,
                        marked,
                        names,
                        node,
                    );
                let longer = seq![name] + names;
                assert(longer.drop_first() == names);
                assert(longer[0] == name);
                assert(one[0].name == Some(longer[0]));
                assert(stands(one, longer, mode, node));
                assert(v == visit_of(prefix, listed, inside, longer, node));
            }
            if met(one, prefix, listed, inside, v) && v != own {
                let (names, mode, node) = choose|
                    names: Seq<Seq<char>>,
                    mode: int,
                    node: NodeView,
                | #[trigger]
                    stands(one, names, mode, node) && v == visit_of(
                        prefix,
                        listed,
                        inside,
                        names,
                        node,
                    );
                assert(names[0] == name);
                if names.len() == 1 {
                    assert(names == seq![name]);
                } else {
                    assert(stands(below, names.drop_first(), mode, node));
                    assert(v == visit_of(
                        path + "/"@,
                        listed,
                        marked,
                        names.drop_first(),
                        node,
                    ));
                }
            }
        } else {
            assert(w.visits == seq![own]);
            assert(w.visits[0] == own);
            if met(one, prefix, listed, inside, v) {
                let (names, mode, node) = choose|
                    names: Seq<Seq<char>>,
                    mode: int,
                    node: NodeView,
                | #[trigger]
                    stands(one, names, mode, node) && v == visit_of(
                        prefix,
                        listed,
                        inside,
                        names,
                        node,
                    );
                assert(names[0] == name);
                assert(names.len() == 1);
                assert(names == seq![name]);
            }
        }
    } else {
        if met(one, prefix, listed, inside, v) {
            let (names, mode, node) = choose|names: Seq<Seq<char>>, mode: int, node: NodeView|
                #[trigger] stands(one, names, mode, node) && v == visit_of(
                    prefix,
                    listed,
                    inside,
                    names,
                    node,
                );
            assert(one[0].name == Some(names[0]));
        }
    }
}

/// What the whole history's walks meet, some commit's does.
proof fn lemma_some_commit(commits: Seq<CommitView>, listed: Seq<Seq<char>>, v: VisitView) -> (i:
    int)
    requires
        all_visits(commits, listed).contains(v),
    ensures
        0 <= i < commits.len(),
        walk(commits[i].tree, Seq::empty(), listed, false).visits.contains(v),
    decreases commits.len(),
{
    let rest = commits.drop_last();
    let last = walk(commits.last().tree, Seq::empty(), listed, false).visits;
    lemma_contains_concat(all_visits(rest, listed), last, v);
    if last.contains(v) {
        commits.len() - 1
    } else {
        let i = lemma_some_commit(rest, listed, v);
        assert(rest[i] == commits[i]);
        i
    }
}

/// In some commit, names lead to a file with this content, past a listed path or past
/// none.
pub open spec fn some_file(
    commits: Seq<CommitView>,
    listed: Seq<Seq<char>>,
    id: Seq<u8>,
    past_listed: bool,
) -> bool {
    exists|i: int, names: Seq<Seq<char>>, mode: int|
        0 <= i < commits.len() && #[trigger] stands(
            commits[i].tree,
            names,
            mode,
            NodeView::Blob(id),
        ) && passes(Seq::empty(), names, listed) == past_listed
}

proof fn lemma_reaches_by_names(
    commits: Seq<CommitView>,
    listed: Seq<Seq<char>>,
    id: Seq<u8>,
    past_listed: bool,
)
    requires
        all_readable(commits),
    ensures
        reaches(all_visits(commits, listed), past_listed, id) == some_file(
            commits,
            listed,
            id,
            past_listed,
        ),
{
    let all = all_visits(commits, listed);
    if reaches(all, past_listed, id) {
        let k = choose|k: int|
            0 <= k < all.len() && (#[trigger] all[k]).blob == Some(id) && all[k].doomed
                == past_listed;
        assert(all.contains(all[k]));
        let i = lemma_some_commit(commits, listed, all[k]);
        assert(readable(commits[i].tree));
        lemma_readable(commits[i].tree, listed);
        lemma_walk_meets(commits[i].tree, Seq::empty(), listed, false, all[k]);
        let (names, mode, node) = choose|names: Seq<Seq<char>>, mode: int, node: NodeView|
            #[trigger] stands(commits[i].tree, names, mode, node) && all[k] == visit_of(
                Seq::empty(),
                listed,
                false,
                names,
                node,
            );
        assert(node == NodeView::Blob(id));
        assert(stands(commits[i].tree, names, mode, NodeView::Blob(id)));
    }
    if some_file(commits, listed, id, past_listed) {
        let (i, names, mode) = choose|i: int, names: Seq<Seq<char>>, mode: int|
            0 <= i < commits.len() && #[trigger] stands(
                commits[i].tree,
                names,
                mode,
                NodeView::Blob(id),
            ) && passes(Seq::empty(), names, listed) == past_listed;
        let v = visit_of(Seq::empty(), listed, false, names, NodeView::Blob(id));
        assert(met(commits[i].tree, Seq::empty(), listed, false, v));
        assert(readable(commits[i].tree));
        lemma_readable(commits[i].tree, listed);
        lemma_walk_meets(commits[i].tree, Seq::empty(), listed, false, v);
        lemma_all_visits(commits, listed, v, i);
        let k = choose|k: int| 0 <= k < all.len() && all[k] == v;
        assert(all[k].blob == Some(id));
    }
}

/// Which contents are destroyed, however many paths are purged: exactly those that some
/// commit holds at or below one of these paths, and no commit holds anywhere else. Each is
/// listed once.
pub proof fn law_destroyed_contents_by_the_paths(
    commits: Seq<CommitView>,
    doomed: Seq<Seq<char>>,
    destroyed: Seq<Seq<u8>>,
    id: Seq<u8>,
)
    requires
        all_readable(commits),
        lists_doomed_blobs(commits, doomed, destroyed),
    ensures
        some_file(commits, doomed, id, true) && !some_file(commits, doomed, id, false)
            ==> destroyed.contains(id),
        destroyed.contains(id) ==> some_file(commits, doomed, id, true),
        destroyed.contains(id) ==> !some_file(commits, doomed, id, false),
        forall|i: int, j: int|
            0 <= i < j < destroyed.len() ==> #[trigger] destroyed[i] != #[trigger] destroyed[j],
{
    lemma_reaches_by_names(commits, doomed, id, true);
    lemma_reaches_by_names(commits, doomed, id, false);
}

/// What a pruned tree holds is what is left of its entries.
proof fn lemma_pruned_members(
    entries: Seq<EntryView>,
    prefix: Seq<char>,
    doomed: Seq<Seq<char>>,
    x: EntryView,
)
    ensures
        pruned(entries, prefix, doomed).contains(x) == exists|k: int|
            0 <= k < entries.len() && pruned_entry(#[trigger] entries[k], prefix, doomed) == Some(
                x,
            ),
    decreases entries.len(),
{
    let left = pruned(entries, prefix, doomed);
    if entries.len() > 0 {
        let rest = entries.drop_last();
        let last = entries.len() - 1;
        let part = pruned(rest, prefix, doomed);
        lemma_pruned_members(rest, prefix, doomed, x);
        if left.contains(x) {
            let m = choose|m: int| 0 <= m < left.len() && left[m] == x;
            if m < part.len() {
                assert(part[m] == x);
                assert(part.contains(x));
                let k = choose|k: int|
                    0 <= k < rest.len() && pruned_entry(#[trigger] rest[k], prefix, doomed)
                        == Some(x);
                assert(entries[k] == rest[k]);
            } else {
                assert(pruned_entry(entries[last], prefix, doomed) == Some(x));
            }
        }
        if exists|k: int|
            0 <= k < entries.len() && pruned_entry(#[trigger] entries[k], prefix, doomed) == Some(
                x,
            ) {
            let k = choose|k: int|
                0 <= k < entries.len() && pruned_entry(#[trigger] entries[k], prefix, doomed)
                    == Some(x);
            if k < last {
                assert(rest[k] == entries[k]);
                assert(part.contains(x));
                let m = choose|m: int| 0 <= m < part.len() && part[m] == x;
                assert(left[m] == x);
            } else {
                assert(left[part.len() as int] == x);
            }
        }
    } else {
        assert(left.len() == 0);
    }
}

/// What stands in the pruned tree: what stands in the tree, off the doomed paths, as it
/// is; and of directories, those that something is left in, with what is left.
proof fn lemma_pruned_by_names(
    entries: Seq<EntryView>,
    prefix: Seq<char>,
    doomed: Seq<Seq<char>>,
    names: Seq<Seq<char>>,
    mode: int,
    node: NodeView,
)
    ensures
        !(node is Tree) ==> stands(pruned(entries, prefix, doomed), names, mode, node) == (stands(
            entries,
            names,
            mode,
            node,
        ) && !passes(prefix, names, doomed)),
        node matches NodeView::Tree(left) ==> stands(
            pruned(entries, prefix, doomed),
            names,
            mode,
            node,
        ) == some_cut(entries, prefix, doomed, names, mode, left),
    decreases names.len(),
{
    let left = pruned(entries, prefix, doomed);
    if names.len() > 0 {
        let rest = names.drop_first();
        let here = prefix + names[0];
        let below = here + "/"@;
        if stands(left, names, mode, node) {
            let k = choose|k: int|
                0 <= k < left.len() && (#[trigger] left[k]).name == Some(names[0])
                    && if names.len() == 1 {
                    left[k].mode == mode && left[k].node == node
                } else {
                    left[k].node matches NodeView::Tree(b) && stands(b, rest, mode, node)
                };
            assert(left.contains(left[k]));
            lemma_pruned_members(entries, prefix, doomed, left[k]);
            let m = choose|m: int|
                0 <= m < entries.len() && pruned_entry(#[trigger] entries[m], prefix, doomed)
                    == Some(left[k]);
            assert(entries[m].name == Some(names[0]));
            if names.len() == 1 {
                assert(!passes(below, rest, doomed));
                if let NodeView::Tree(inner) = entries[m].node {
                    assert(stands(entries, names, mode, NodeView::Tree(inner)));
                    assert(spelled(prefix, names) == here);
                    let cut = pruned(inner, below, doomed);
                    assert(cut_from(entries, prefix, doomed, names, mode, cut, inner));
                } else {
                    assert(stands(entries, names, mode, node));
                }
            } else if let NodeView::Tree(inner) = entries[m].node {
                lemma_pruned_by_names(inner, below, doomed, rest, mode, node);
                if let NodeView::Tree(cut) = node {
                    let old = choose|old: Seq<EntryView>| #[trigger]
                        cut_from(inner, below, doomed, rest, mode, cut, old);
                    assert(stands(entries, names, mode, NodeView::Tree(old)));
                    assert(cut_from(entries, prefix, doomed, names, mode, cut, old));
                }
            }
        }
        if !(node is Tree) && stands(entries, names, mode, node) && !passes(
            prefix,
            names,
            doomed,
        ) {
            lemma_cut_stands(entries, prefix, doomed, names, mode, node, node);
        }
        if let NodeView::Tree(cut) = node {
            if some_cut(entries, prefix, doomed, names, mode, cut) {
                let old = choose|old: Seq<EntryView>| #[trigger]
                    cut_from(entries, prefix, doomed, names, mode, cut, old);
                lemma_cut_stands(
                    entries,
                    prefix,
                    doomed,
                    names,
                    mode,
                    NodeView::Tree(old),
                    node,
                );
            }
        }
    }
}

/// What stands off the doomed paths leaves its trace in the pruned tree.
proof fn lemma_cut_stands(
    entries: Seq<EntryView>,
    prefix: Seq<char>,
    doomed: Seq<Seq<char>>,
    names: Seq<Seq<char>>,
    mode: int,
    old: NodeView,
    now: NodeView,
)
    requires
        stands(entries, names, mode, old),
        !passes(prefix, names, doomed),
        match old {
            NodeView::Tree(inner) => now matches NodeView::Tree(left) && left.len() > 0 && left
                == pruned(inner, spelled(prefix, names) + "/"@, doomed),
            _ => now == old,
        },
    ensures
        stands(pruned(entries, prefix, doomed), names, mode, now),
    decreases names.len(),
{
    let left = pruned(entries, prefix, doomed);
    let rest = names.drop_first();
    let here = prefix + names[0];
    let below = here + "/"@;
    let m = choose|m: int|
        0 <= m < entries.len() && (#[trigger] entries[m]).name == Some(names[0]) && if names.len()
            == 1 {
            entries[m].mode == mode && entries[m].node == old
        } else {
            entries[m].node matches NodeView::Tree(b) && stands(b, rest, mode, old)
        };
    let e = entries[m];
    let kept = if names.len() == 1 {
        EntryView { node: now, ..e }
    } else {
        let b = e.node->Tree_0;
        EntryView { node: NodeView::Tree(pruned(b, below, doomed)), ..e }
    };
    if names.len() > 1 {
        let b = e.node->Tree_0;
        lemma_cut_stands(b, below, doomed, rest, mode, old, now);
        assert(pruned(b, below, doomed).len() > 0) by {
            assert(stands(pruned(b, below, doomed), rest, mode, now));
        }
    }
    assert(pruned_entry(e, prefix, doomed) == Some(kept));
    lemma_pruned_members(entries, prefix, doomed, kept);
    assert(left.contains(kept));
    let k = choose|k: int| 0 <= k < left.len() && left[k] == kept;
    assert(left[k].name == Some(names[0]));
}

/// `left` is what is left of the directory `old`, which the names lead to off the doomed
/// paths, and it is not empty.
pub open spec fn cut_from(
    entries: Seq<EntryView>,
    prefix: Seq<char>,
    doomed: Seq<Seq<char>>,
    names: Seq<Seq<char>>,
    mode: int,
    left: Seq<EntryView>,
    old: Seq<EntryView>,
) -> bool {
    &&& stands(entries, names, mode, NodeView::Tree(old))
    &&& !passes(prefix, names, doomed)
    &&& left == pruned(old, spelled(prefix, names) + "/"@, doomed)
    &&& left.len() > 0
}

/// `left` is what is left of some directory that the names lead to.
pub open spec fn some_cut(
    entries: Seq<EntryView>,
    prefix: Seq<char>,
    doomed: Seq<Seq<char>>,
    names: Seq<Seq<char>>,
    mode: int,
    left: Seq<EntryView>,
) -> bool {
    exists|old: Seq<EntryView>| #[trigger]
        cut_from(entries, prefix, doomed, names, mode, left, old)
}

/// What a copy of a tree without doomed paths holds, name by name. A file, or a leaf of
/// another kind, stands in it exactly where it stood, with its mode and content, unless a
/// path on the way to it, its own included, is doomed. A directory stands in it exactly
/// where one stood off the doomed paths, with its mode, and something in it is left.
pub proof fn law_a_copy_by_the_names(
    entries: Seq<EntryView>,
    prefix: Seq<char>,
    doomed: Seq<Seq<char>>,
    names: Seq<Seq<char>>,
    mode: int,
    id: Seq<u8>,
    left: Seq<EntryView>,
)
    ensures
        stands(pruned(entries, prefix, doomed), names, mode, NodeView::Blob(id)) <==> stands(
            entries,
            names,
            mode,
            NodeView::Blob(id),
        ) && !passes(prefix, names, doomed),
        stands(pruned(entries, prefix, doomed), names, mode, NodeView::Other(id)) <==> stands(
            entries,
            names,
            mode,
            NodeView::Other(id),
        ) && !passes(prefix, names, doomed),
        stands(pruned(entries, prefix, doomed), names, mode, NodeView::Tree(left)) <==> some_cut(
            entries,
            prefix,
            doomed,
            names,
            mode,
            left,
        ),
{
    lemma_pruned_by_names(entries, prefix, doomed, names, mode, NodeView::Blob(id));
    lemma_pruned_by_names(entries, prefix, doomed, names, mode, NodeView::Other(id));
    lemma_pruned_by_names(entries, prefix, doomed, names, mode, NodeView::Tree(left));
}

/// Copying works entry by entry: the copy of two lists of entries, one behind the other,
/// is the copy of each. So entries keep their order, and none bears on another.
pub proof fn law_a_copy_is_made_entry_by_entry(
    a: Seq<EntryView>,
    b: Seq<EntryView>,
    prefix: Seq<char>,
    doomed: Seq<Seq<char>>,
)
    ensures
        pruned(a + b, prefix, doomed) == pruned(a, prefix, doomed) + pruned(b, prefix, doomed),
        a.len() == 1 ==> pruned(a, prefix, doomed).len() <= 1,
    decreases b.len(),
{
    if a.len() == 1 {
        assert(pruned(a.drop_last(), prefix, doomed).len() == 0);
    }
    if b.len() == 0 {
        assert(a + b == a);
        assert(pruned(a, prefix, doomed) + pruned(b, prefix, doomed) == pruned(
            a,
            prefix,
            doomed,
        ));
    } else {
        let c = b.drop_last();
        law_a_copy_is_made_entry_by_entry(a, c, prefix, doomed);
        assert((a + b).drop_last() == a + c);
        assert((a + b).last() == b.last());
        let left = pruned(a, prefix, doomed) + pruned(c, prefix, doomed);
        if let Some(e) = pruned_entry(b.last(), prefix, doomed) {
            assert(left.push(e) == pruned(a, prefix, doomed) + pruned(c, prefix, doomed).push(e));
        }
    }
}

/// Names lead to a directory that holds a further one, not empty, whose own name cannot
/// be read.
pub open spec fn has_nameless(entries: Seq<EntryView>) -> bool {
    exists|names: Seq<Seq<char>>, inner: Seq<EntryView>, k: int|
        #![trigger opens(entries, names, inner), inner[k]]
        opens(entries, names, inner) && 0 <= k < inner.len() && inner[k].name is None && (
        inner[k].node matches NodeView::Tree(held) && held.len() > 0)
}

/// A walk gets through unless it comes to such a directory.
proof fn lemma_walk_gets_through(
    entries: Seq<EntryView>,
    prefix: Seq<char>,
    listed: Seq<Seq<char>>,
    inside: bool,
)
    ensures
        walk(entries, prefix, listed, inside).complete == !has_nameless(entries),
    decreases entries,
{
    if entries.len() > 0 {
        let rest = entries.drop_last();
        let e = entries.last();
        let last = entries.len() - 1;
        lemma_walk_gets_through(rest, prefix, listed, inside);
        lemma_entry_gets_through(e, prefix, listed, inside);
        if has_nameless(rest) {
            let (names, inner, k) = choose|
                names: Seq<Seq<char>>,
                inner: Seq<EntryView>,
                k: int,
            |
                #![trigger opens(rest, names, inner), inner[k]]
                opens(rest, names, inner) && 0 <= k < inner.len() && inner[k].name is None && (
                inner[k].node matches NodeView::Tree(held) && held.len() > 0);
            if names.len() == 0 {
                assert(opens(entries, names, entries));
                assert(entries[k] == rest[k]);
            } else {
                let m = choose|m: int|
                    0 <= m < rest.len() && (#[trigger] rest[m]).name == Some(names[0]) && (
                    rest[m].node matches NodeView::Tree(b) && opens(b, names.drop_first(), inner));
                assert(entries[m] == rest[m]);
                assert(opens(entries, names, inner));
            }
            assert(has_nameless(entries));
        }
        if nameless_entry(e) {
            if e.name is None {
                assert(opens(entries, Seq::empty(), entries));
                assert(entries[last] == e);
            } else if let NodeView::Tree(b) = e.node {
                let (names, inner, k) = choose|
                    names: Seq<Seq<char>>,
                    inner: Seq<EntryView>,
                    k: int,
                |
                    #![trigger opens(b, names, inner), inner[k]]
                    opens(b, names, inner) && 0 <= k < inner.len() && inner[k].name is None && (
                    inner[k].node matches NodeView::Tree(held) && held.len() > 0);
                let longer = seq![e.name->0] + names;
                assert(longer.drop_first() == names);
                assert(entries[last].name == Some(longer[0]));
                assert(opens(entries, longer, inner));
                assert(inner[k].name is None);
            }
            assert(has_nameless(entries));
        }
        if has_nameless(entries) {
            let (names, inner, k) = choose|
                names: Seq<Seq<char>>,
                inner: Seq<EntryView>,
                k: int,
            |
                #![trigger opens(entries, names, inner), inner[k]]
                opens(entries, names, inner) && 0 <= k < inner.len() && inner[k].name is None && (
                inner[k].node matches NodeView::Tree(held) && held.len() > 0);
            if names.len() == 0 {
                if k < last {
                    assert(opens(rest, names, rest));
                    assert(rest[k] == entries[k]);
                    assert(has_nameless(rest));
                } else {
                    assert(nameless_entry(e));
                }
            } else {
                let m = choose|m: int|
                    0 <= m < entries.len() && (#[trigger] entries[m]).name == Some(names[0]) && (
                    entries[m].node matches NodeView::Tree(b) && opens(
                        b,
                        names.drop_first(),
                        inner,
                    ));
                if m < last {
                    assert(rest[m] == entries[m]);
                    assert(opens(rest, names, inner));
                    assert(inner[k].name is None);
                    assert(has_nameless(rest));
                } else {
                    let b = e.node->Tree_0;
                    assert(opens(b, names.drop_first(), inner));
                    assert(inner[k].name is None);
                    assert(has_nameless(b));
                }
            }
        }
    } else {
        assert(!has_nameless(entries)) by {
            if has_nameless(entries) {
                let (names, inner, k) = choose|
                    names: Seq<Seq<char>>,
                    inner: Seq<EntryView>,
                    k: int,
                |
                    #![trigger opens(entries, names, inner), inner[k]]
                    opens(entries, names, inner) && 0 <= k < inner.len() && inner[k].name is None
                        && (inner[k].node matches NodeView::Tree(held) && held.len() > 0);
                assert(names.len() == 0);
            }
        }
    }
}

/// The entry is such a directory, or has one below it.
spec fn nameless_entry(e: EntryView) -> bool {
    match e.name {
        None => e.node matches NodeView::Tree(held) && held.len() > 0,
        Some(_) => e.node matches NodeView::Tree(b) && has_nameless(b),
    }
}

proof fn lemma_entry_gets_through(
    e: EntryView,
    prefix: Seq<char>,
    listed: Seq<Seq<char>>,
    inside: bool,
)
    ensures
        walk_entry(e, prefix, listed, inside).complete == !nameless_entry(e),
    decreases e,
{
    if let Some(name) = e.name {
        if let NodeView::Tree(b) = e.node {
            let path = prefix + name;
            lemma_walk_gets_through(b, path + "/"@, listed, inside || listed.contains(path));
        }
    }
}

/// A history can be read exactly where no tree in it holds, at whatever depth, a directory
/// that is not empty and whose name cannot be read.
pub proof fn law_only_nameless_directories_stop_a_walk(commits: Seq<CommitView>)
    ensures
        all_readable(commits) <==> forall|i: int|
            0 <= i < commits.len() ==> !has_nameless((#[trigger] commits[i]).tree),
{
    assert forall|t: Seq<EntryView>| #[trigger] readable(t) == !has_nameless(t) by {
        lemma_walk_gets_through(t, Seq::empty(), Seq::empty(), false);
    }
}

/// Names lead to something, file, directory or other, at a listed path of the commit.
pub open spec fn holds_listed(c: CommitView, listed: Seq<Seq<char>>) -> bool {
    exists|names: Seq<Seq<char>>, mode: int, node: NodeView| #[trigger]
        stands(c.tree, names, mode, node) && listed.contains(spelled(Seq::empty(), names))
}

/// The commit holds nothing at a purged path, and can be read to its end.
pub open spec fn is_clean(c: CommitView, purged: Seq<Seq<char>>) -> bool {
    !has_nameless(c.tree) && !holds_listed(c, purged)
}

/// What a refusal may say of a commit: that a purged path is left in it, which then leads
/// to something; or that it cannot be read to its end, which then is so.
pub open spec fn told_of(c: CommitView, purged: Seq<Seq<char>>, message: Seq<char>) -> bool {
    ||| has_nameless(c.tree) && message == "git purge: a directory name is not UTF-8"@
    ||| exists|names: Seq<Seq<char>>, mode: int, node: NodeView| #[trigger]
        stands(c.tree, names, mode, node) && purged.contains(spelled(Seq::empty(), names))
            && message == "git purge: rebuilt history still contains "@ + spelled(
            Seq::empty(),
            names,
        ) + " at commit "@ + hex(c.id)
}

proof fn lemma_commit_offence(c: CommitView, purged: Seq<Seq<char>>)
    ensures
        commit_offence(c, purged) is None <==> is_clean(c, purged),
        commit_offence(c, purged) matches Some(m) ==> told_of(c, purged, m),
        commit_offence(c, purged) is Some && !holds_listed(c, purged) ==> commit_offence(c, purged)
            == Some("git purge: a directory name is not UTF-8"@),
{
    let w = walk(c.tree, Seq::empty(), purged, false);
    lemma_walk_gets_through(c.tree, Seq::empty(), purged, false);
    lemma_no_first_doomed(w.visits, purged);
    if first_doomed(w.visits, purged) is Some {
        let k = lemma_first_doomed(w.visits, purged);
        let v = w.visits[k];
        assert(w.visits.contains(v));
        lemma_walk_meets(c.tree, Seq::empty(), purged, false, v);
        let (names, mode, node) = choose|names: Seq<Seq<char>>, mode: int, node: NodeView|
            #[trigger] stands(c.tree, names, mode, node) && v == visit_of(
                Seq::empty(),
                purged,
                false,
                names,
                node,
            );
        assert(stands(c.tree, names, mode, node) && purged.contains(
            spelled(Seq::empty(), names),
        ));
    } else if w.complete {
        assert(!holds_listed(c, purged)) by {
            if holds_listed(c, purged) {
                let (names, mode, node) = choose|
                    names: Seq<Seq<char>>,
                    mode: int,
                    node: NodeView,
                | #[trigger]
                    stands(c.tree, names, mode, node) && purged.contains(
                        spelled(Seq::empty(), names),
                    );
                let v = visit_of(Seq::empty(), purged, false, names, node);
                assert(met(c.tree, Seq::empty(), purged, false, v));
                lemma_walk_meets(c.tree, Seq::empty(), purged, false, v);
                let k = choose|k: int| 0 <= k < w.visits.len() && w.visits[k] == v;
                assert(purged.contains(w.visits[k].path));
            }
        }
    }
}

/// The first doomed path is that of some visit.
proof fn lemma_first_doomed(visits: Seq<VisitView>, listed: Seq<Seq<char>>) -> (k: int)
    requires
        first_doomed(visits, listed) is Some,
    ensures
        0 <= k < visits.len(),
        first_doomed(visits, listed) == Some(visits[k].path),
        listed.contains(visits[k].path),
    decreases visits.len(),
{
    let rest = visits.drop_last();
    if first_doomed(rest, listed) is Some {
        let k = lemma_first_doomed(rest, listed);
        assert(rest[k] == visits[k]);
        k
    } else {
        visits.len() - 1
    }
}

/// The first commit with an offence tells the history's.
proof fn lemma_history_offence(commits: Seq<CommitView>, purged: Seq<Seq<char>>, i: int)
    requires
        0 <= i < commits.len(),
        commit_offence(commits[i], purged) is Some,
        forall|j: int| 0 <= j < i ==> commit_offence(#[trigger] commits[j], purged) is None,
    ensures
        history_offence(commits, purged) == commit_offence(commits[i], purged),
    decreases commits.len(),
{
    let rest = commits.drop_last();
    if i < rest.len() {
        assert(rest[i] == commits[i]);
        assert forall|j: int| 0 <= j < i implies commit_offence(
            #[trigger] rest[j],
            purged,
        ) is None by {
            assert(rest[j] == commits[j]);
        }
        lemma_history_offence(rest, purged, i);
    } else {
        lemma_no_history_offence(rest, purged);
        assert forall|j: int| 0 <= j < rest.len() implies commit_offence(
            #[trigger] rest[j],
            purged,
        ) is None by {
            assert(rest[j] == commits[j]);
        }
    }
}

/// The first object that is a purged blob tells the database's offence.
proof fn lemma_object_offence(objects: Seq<Seq<u8>>, blobs: Seq<Seq<u8>>, k: int)
    requires
        0 <= k < objects.len(),
        blobs.contains(objects[k]),
        forall|j: int| 0 <= j < k ==> !blobs.contains(#[trigger] objects[j]),
    ensures
        object_offence(objects, blobs) == Some(
            "git purge: rebuilt object database still contains purged blob "@ + hex(objects[k]),
        ),
    decreases objects.len(),
{
    let rest = objects.drop_last();
    if k < rest.len() {
        assert(rest[k] == objects[k]);
        assert forall|j: int| 0 <= j < k implies !blobs.contains(#[trigger] rest[j]) by {
            assert(rest[j] == objects[j]);
        }
        lemma_object_offence(rest, blobs, k);
    } else {
        lemma_no_object_offence(rest, blobs);
        assert forall|j: int| 0 <= j < rest.len() implies !blobs.contains(#[trigger] rest[j]) by {
            assert(rest[j] == objects[j]);
        }
    }
}

/// When a replacement is refused, and what is said: the first commit that is not clean is
/// told of; where all are, the first object that is a purged blob is named; and where
/// there is none, the replacement passes.
pub proof fn law_a_replacement_is_refused_for_cause(
    commits: Seq<CommitView>,
    objects: Seq<Seq<u8>>,
    purged: Seq<Seq<char>>,
    blobs: Seq<Seq<u8>>,
)
    ensures
        ({
            let said = replacement_offence(commits, objects, purged, blobs);
            &&& said is None <==> (forall|i: int|
                0 <= i < commits.len() ==> is_clean(#[trigger] commits[i], purged)) && (forall|
                k: int,
            |
                0 <= k < objects.len() ==> !blobs.contains(#[trigger] objects[k]))
            &&& forall|i: int|
                0 <= i < commits.len() && !is_clean(#[trigger] commits[i], purged) && (forall|
                    j: int,
                |
                    0 <= j < i ==> is_clean(#[trigger] commits[j], purged)) ==> (said matches Some(
                    m,
                ) && told_of(commits[i], purged, m) && (!holds_listed(commits[i], purged) ==> m
                    == "git purge: a directory name is not UTF-8"@))
            &&& (forall|i: int|
                0 <= i < commits.len() ==> is_clean(#[trigger] commits[i], purged)) ==> forall|
                k: int,
            |
                0 <= k < objects.len() && blobs.contains(#[trigger] objects[k]) && (forall|j: int|
                    0 <= j < k ==> !blobs.contains(#[trigger] objects[j])) ==> said == Some(
                    "git purge: rebuilt object database still contains purged blob "@ + hex(
                        objects[k],
                    ),
                )
        }),
{
    let said = replacement_offence(commits, objects, purged, blobs);
    assert forall|c: CommitView| #[trigger]
        is_clean(c, purged) == (commit_offence(c, purged) is None) by {
        lemma_commit_offence(c, purged);
    }
    lemma_no_history_offence(commits, purged);
    lemma_no_object_offence(objects, blobs);
    if history_offence(commits, purged) is None {
        assert forall|i: int| 0 <= i < commits.len() implies is_clean(
            #[trigger] commits[i],
            purged,
        ) by {
            assert(commit_offence(commits[i], purged) is None);
        }
    } else {
        let i = choose|i: int|
            0 <= i < commits.len() && commit_offence(#[trigger] commits[i], purged) is Some;
        assert(!is_clean(commits[i], purged));
    }
    assert forall|i: int|
        0 <= i < commits.len() && !is_clean(#[trigger] commits[i], purged) && (forall|j: int|
            0 <= j < i ==> is_clean(#[trigger] commits[j], purged)) implies (said matches Some(m)
        && told_of(commits[i], purged, m) && (!holds_listed(commits[i], purged) ==> m
        == "git purge: a directory name is not UTF-8"@)) by {
        assert forall|j: int| 0 <= j < i implies commit_offence(
            #[trigger] commits[j],
            purged,
        ) is None by {
            assert(is_clean(commits[j], purged));
        }
        lemma_history_offence(commits, purged, i);
        lemma_commit_offence(commits[i], purged);
    }
    assert forall|k: int|
        0 <= k < objects.len() && blobs.contains(#[trigger] objects[k]) && (forall|j: int|
            0 <= j < k ==> !blobs.contains(#[trigger] objects[j])) implies object_offence(
        objects,
        blobs,
    ) == Some(
        "git purge: rebuilt object database still contains purged blob "@ + hex(objects[k]),
    ) by {
        lemma_object_offence(objects, blobs, k);
    }
}

/// A walk goes through a tree entry by entry, each directory before what it holds. Of two
/// lists of entries, one behind the other, the second is walked once the first has been
/// walked to its end. An entry without a readable name is passed over, unless it is a
/// directory that is not empty, which ends the walk.
pub proof fn law_a_walk_goes_entry_by_entry(
    a: Seq<EntryView>,
    b: Seq<EntryView>,
    prefix: Seq<char>,
    listed: Seq<Seq<char>>,
    inside: bool,
)
    ensures
        a.len() == 0 ==> walk(a, prefix, listed, inside).complete && walk(
            a,
            prefix,
            listed,
            inside,
        ).visits.len() == 0,
        walk(a, prefix, listed, inside).complete ==> walk(a + b, prefix, listed, inside).complete
            == walk(b, prefix, listed, inside).complete && walk(
            a + b,
            prefix,
            listed,
            inside,
        ).visits == walk(a, prefix, listed, inside).visits + walk(
            b,
            prefix,
            listed,
            inside,
        ).visits,
        !walk(a, prefix, listed, inside).complete ==> walk(a + b, prefix, listed, inside) == walk(
            a,
            prefix,
            listed,
            inside,
        ),
        a.len() == 1 && a[0].name is None ==> walk(a, prefix, listed, inside).visits.len() == 0 && (
        walk(a, prefix, listed, inside).complete <==> !(a[0].node is Tree
            && a[0].node->Tree_0.len() > 0)),
        a.len() == 1 && a[0].name is Some ==> {
            let path = prefix + a[0].name->0;
            let marked = inside || listed.contains(path);
            let own = VisitView {
                path,
                blob: match a[0].node {
                    NodeView::Blob(id) => Some(id),
                    _ => None,
                },
                doomed: marked,
            };
            let w = walk(a, prefix, listed, inside);
            match a[0].node {
                NodeView::Tree(below) => w.visits == seq![own] + walk(
                    below,
                    path + "/"@,
                    listed,
                    marked,
                ).visits && w.complete == walk(below, path + "/"@, listed, marked).complete,
                _ => w.visits == seq![own] && w.complete,
            }
        },
    decreases b.len(),
{
    if a.len() == 1 {
        let none = walk(a.drop_last(), prefix, listed, inside);
        assert(none.complete && none.visits == Seq::<VisitView>::empty());
        let here = walk_entry(a[0], prefix, listed, inside);
        assert(walk(a, prefix, listed, inside).visits == here.visits);
    }
    if b.len() == 0 {
        assert(a + b == a);
        assert(walk(a, prefix, listed, inside).visits + walk(b, prefix, listed, inside).visits
            == walk(a, prefix, listed, inside).visits);
    } else {
        let c = b.drop_last();
        law_a_walk_goes_entry_by_entry(a, c, prefix, listed, inside);
        assert((a + b).drop_last() == a + c);
        assert((a + b).last() == b.last());
        let x = walk(a, prefix, listed, inside).visits;
        let y = walk(c, prefix, listed, inside).visits;
        let z = walk_entry(b.last(), prefix, listed, inside).visits;
        assert((x + y) + z == x + (y + z));
    }
}

/// Of several purged paths that a commit still holds, the one that a walk comes to first is
/// named.
pub proof fn law_the_first_purged_path_is_named(c: CommitView, purged: Seq<Seq<char>>, k: int)
    requires
        0 <= k < walk(c.tree, Seq::empty(), purged, false).visits.len(),
        purged.contains(walk(c.tree, Seq::empty(), purged, false).visits[k].path),
        forall|j: int|
            0 <= j < k ==> !purged.contains(
                (#[trigger] walk(c.tree, Seq::empty(), purged, false).visits[j]).path,
            ),
    ensures
        replacement_offence(seq![c], Seq::empty(), purged, Seq::empty()) == Some(
            "git purge: rebuilt history still contains "@ + walk(
                c.tree,
                Seq::empty(),
                purged,
                false,
            ).visits[k].path + " at commit "@ + hex(c.id),
        ),
{
    lemma_first_of(walk(c.tree, Seq::empty(), purged, false).visits, purged, k);
    assert(seq![c][0] == c);
    lemma_history_offence(seq![c], purged, 0);
}

proof fn lemma_first_of(visits: Seq<VisitView>, listed: Seq<Seq<char>>, k: int)
    requires
        0 <= k < visits.len(),
        listed.contains(visits[k].path),
        forall|j: int| 0 <= j < k ==> !listed.contains((#[trigger] visits[j]).path),
    ensures
        first_doomed(visits, listed) == Some(visits[k].path),
    decreases visits.len(),
{
    let rest = visits.drop_last();
    if k < rest.len() {
        assert(rest[k] == visits[k]);
        assert forall|j: int| 0 <= j < k implies !listed.contains((#[trigger] rest[j]).path) by {
            assert(rest[j] == visits[j]);
        }
        lemma_first_of(rest, listed, k);
    } else {
        lemma_no_first_doomed(rest, listed);
        assert forall|j: int| 0 <= j < rest.len() implies !listed.contains(
            (#[trigger] rest[j]).path,
        ) by {
            assert(rest[j] == visits[j]);
        }
    }
}

} // verus!
