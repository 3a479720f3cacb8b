//! Trees of a git repository as plain values: walking them, and copying them
//! without doomed paths.

use vstd::prelude::*;

use crate::order::texts;
use crate::text::{joined, same_text};

verus! {

/// An object id.
#[derive(Clone, Copy, Debug, PartialEq, Eq, Hash)]
pub struct Oid {
    pub bytes: [u8; 20],
}

impl View for Oid {
    type V = Seq<u8>;

    open spec fn view(&self) -> Seq<u8> {
        self.bytes@
    }
}

/// One entry of a tree.
#[derive(Debug)]
pub struct TreeEntry {
    /// `None` where the stored name is not UTF-8.
    pub name: Option<String>,
    /// File mode bits.
    pub mode: i32,
    /// What the entry holds.
    pub node: Node,
}

/// What a tree entry holds.
#[derive(Debug)]
pub enum Node {
    /// A directory, with its entries.
    Tree(Vec<TreeEntry>),
    /// A file, by the id of its content.
    Blob(Oid),
    /// A submodule or anything else, carried by id.
    Other(Oid),
}

/// What a tree entry says.
pub struct EntryView {
    pub name: Option<Seq<char>>,
    pub mode: int,
    pub node: NodeView,
}

/// What an entry holds.
pub enum NodeView {
    Tree(Seq<EntryView>),
    Blob(Seq<u8>),
    Other(Seq<u8>),
}

/// The entries of a tree.
pub open spec fn tree_view(entries: Seq<TreeEntry>) -> Seq<EntryView>
    decreases entries,
{
    if entries.len() == 0 {
        Seq::empty()
    } else {
        tree_view(entries.drop_last()).push(entry_view(entries.last()))
    }
}

/// What an entry says.
pub open spec fn entry_view(entry: TreeEntry) -> EntryView
    decreases entry,
{
    EntryView {
        name: match entry.name {
            Some(n) => Some(n@),
            None => None,
        },
        mode: entry.mode as int,
        node: node_view(entry.node),
    }
}

/// What an entry's node holds.
pub open spec fn node_view(node: Node) -> NodeView
    decreases node,
{
    match node {
        Node::Tree(entries) => NodeView::Tree(tree_view(entries@)),
        Node::Blob(id) => NodeView::Blob(id@),
        Node::Other(id) => NodeView::Other(id@),
    }
}

/// `entries` without what stands at a doomed path, be it a file, a directory with
/// everything in it or anything else, without entries whose name cannot be read,
/// and without directories that hold nothing (any more).
pub open spec fn pruned(
    entries: Seq<EntryView>,
    prefix: Seq<char>,
    doomed: Seq<Seq<char>>,
) -> Seq<EntryView>
    decreases entries,
{
    if entries.len() == 0 {
        Seq::empty()
    } else {
        let rest = pruned(entries.drop_last(), prefix, doomed);
        match pruned_entry(entries.last(), prefix, doomed) {
            Some(e) => rest.push(e),
            None => rest,
        }
    }
}

/// What is left of one entry, if anything.
pub open spec fn pruned_entry(
    e: EntryView,
    prefix: Seq<char>,
    doomed: Seq<Seq<char>>,
) -> Option<EntryView>
    decreases e,
{
    match e.name {
        None => None,
        Some(name) => if doomed.contains(prefix + name) {
            None
        } else if let NodeView::Tree(entries) = e.node {
            let left = pruned(entries, prefix + name + "/"@, doomed);
            if left.len() == 0 {
                None
            } else {
                Some(EntryView { node: NodeView::Tree(left), ..e })
            }
        } else {
            Some(e)
        },
    }
}

/// Whether `path` is one of `paths`.
pub fn path_listed(paths: &Vec<String>, path: &str) -> (r: bool)
    ensures
        r == texts(paths@).contains(path@),
{
    let mut i: usize = 0;
    while i < paths.len()
        invariant
            i <= paths@.len(),
            forall|j: int| 0 <= j < i ==> #[trigger] texts(paths@)[j] != path@,
        decreases paths@.len() - i,
    {
        assert(texts(paths@)[i as int] == paths@[i as int]@);
        if same_text(paths[i].as_str(), path) {
            return true;
        }
        i = i + 1;
    }
    false
}

/// Copy a tree, omitting any entry whose full path is doomed, and any directory
/// that becomes empty, so that a purge cannot leave an empty shell where a
/// session's pages used to live.
pub fn copy_tree_without(entries: &Vec<TreeEntry>, prefix: &str, doomed: &Vec<String>) -> (out: Vec<
    TreeEntry,
>)
    ensures
        tree_view(out@) == pruned(tree_view(entries@), prefix@, texts(doomed@)),
    decreases entries,
{
    let mut out: Vec<TreeEntry> = Vec::new();
    let mut i: usize = 0;
    assert(entries@.take(0) == Seq::<TreeEntry>::empty());
    while i < entries.len()
        invariant
            i <= entries@.len(),
            tree_view(out@) == pruned(
                tree_view(entries@.take(i as int)),
                prefix@,
                texts(doomed@),
            ),
        decreases entries@.len() - i,
    {
        let ghost before = out@;
        let entry = &entries[i];
        proof {
            let upto = entries@.take(i + 1);
            assert(upto.drop_last() == entries@.take(i as int));
            assert(upto.last() == entry);
            let seen = tree_view(entries@.take(i as int));
            assert(tree_view(upto) == seen.push(entry_view(*entry)));
            assert(tree_view(upto).drop_last() == seen);
            assert(pruned(tree_view(upto), prefix@, texts(doomed@)) == match pruned_entry(
                entry_view(*entry),
                prefix@,
                texts(doomed@),
            ) {
                Some(e) => pruned(seen, prefix@, texts(doomed@)).push(e),
                None => pruned(seen, prefix@, texts(doomed@)),
            });
        }
        if let Some(name) = &entry.name {
            let full = joined(prefix, name.as_str());
            let kept: Option<Node> = if path_listed(doomed, full.as_str()) {
                None
            } else {
                match &entry.node {
                    Node::Tree(sub) => {
                        let sub_prefix = joined(full.as_str(), "/");
                        let left = copy_tree_without(sub, sub_prefix.as_str(), doomed);
                        assert(tree_view(left@).len() == left@.len()) by {
                            lemma_tree_view_len(left@);
                        }
                        if left.len() > 0 {
                            Some(Node::Tree(left))
                        } else {
                            None
                        }
                    },
                    Node::Blob(id) => Some(Node::Blob(*id)),
                    Node::Other(id) => Some(Node::Other(*id)),
                }
            };
            let ghost ev = entry_view(*entry);
            assert(ev.name == Some(name@) && ev.node == node_view(entry.node));
            assert(match kept {
                Some(node) => pruned_entry(ev, prefix@, texts(doomed@)) == Some(
                    EntryView { node: node_view(node), ..ev },
                ),
                None => pruned_entry(ev, prefix@, texts(doomed@)) is None,
            });
            if let Some(node) = kept {
                let ghost held = node_view(node);
                let copy = TreeEntry {
                    name: Some(name.as_str().to_owned()),
                    mode: entry.mode,
                    node,
                };
                out.push(copy);
                assert(out@.drop_last() == before);
                assert(entry_view(copy) == EntryView { node: held, ..ev });
                assert(tree_view(out@) == tree_view(before).push(entry_view(copy)));
            }
        }
        i = i + 1;
    }
    assert(entries@.take(i as int) == entries@);
    out
}

/// A tree's view has one entry per entry.
pub proof fn lemma_tree_view_len(entries: Seq<TreeEntry>)
    ensures
        tree_view(entries).len() == entries.len(),
    decreases entries.len(),
{
    if entries.len() > 0 {
        lemma_tree_view_len(entries.drop_last());
    }
}

/// One entry met on a walk through a tree.
#[derive(Debug, Clone)]
pub struct Visit {
    /// The entry's full path.
    pub path: String,
    /// The id of its content, for a file.
    pub blob: Option<Oid>,
    /// Whether the path, or that of a directory above it, is doomed.
    pub doomed: bool,
}

/// What was met.
#[verifier::ext_equal]
pub struct VisitView {
    pub path: Seq<char>,
    pub blob: Option<Seq<u8>>,
    pub doomed: bool,
}

impl View for Visit {
    type V = VisitView;

    open spec fn view(&self) -> VisitView {
        VisitView {
            path: self.path@,
            blob: match self.blob {
                Some(id) => Some(id@),
                None => None,
            },
            doomed: self.doomed,
        }
    }
}

/// What a list of visits met.
pub open spec fn visits_view(visits: Seq<Visit>) -> Seq<VisitView> {
    visits.map_values(|v: Visit| v@)
}

/// A walk: what it met, and whether it got through. It stops inside a directory
/// whose name cannot be read.
#[verifier::ext_equal]
pub struct Walk {
    pub visits: Seq<VisitView>,
    pub complete: bool,
}

/// The walk through `entries`, each directory before what it holds. An entry whose
/// own name cannot be read is passed over. Where `inside`, a directory above
/// `entries` is doomed.
pub open spec fn walk(
    entries: Seq<EntryView>,
    prefix: Seq<char>,
    doomed: Seq<Seq<char>>,
    inside: bool,
) -> Walk
    decreases entries,
{
    if entries.len() == 0 {
        Walk { visits: Seq::empty(), complete: true }
    } else {
        let rest = walk(entries.drop_last(), prefix, doomed, inside);
        if rest.complete {
            let here = walk_entry(entries.last(), prefix, doomed, inside);
            Walk { visits: rest.visits + here.visits, complete: here.complete }
        } else {
            rest
        }
    }
}

/// The walk through one entry.
pub open spec fn walk_entry(
    e: EntryView,
    prefix: Seq<char>,
    doomed: Seq<Seq<char>>,
    inside: bool,
) -> Walk
    decreases e,
{
    match e.name {
        None => Walk {
            visits: Seq::empty(),
            complete: !(e.node matches NodeView::Tree(entries) && entries.len() > 0),
        },
        Some(name) => {
            let path = prefix + name;
            let marked = inside || doomed.contains(path);
            match e.node {
                NodeView::Tree(entries) => {
                    let below = walk(entries, path + "/"@, doomed, marked);
                    Walk {
                        visits: seq![VisitView { path, blob: None, doomed: marked }] + below.visits,
                        complete: below.complete,
                    }
                },
                NodeView::Blob(id) => Walk {
                    visits: seq![VisitView { path, blob: Some(id), doomed: marked }],
                    complete: true,
                },
                NodeView::Other(_) => Walk {
                    visits: seq![VisitView { path, blob: None, doomed: marked }],
                    complete: true,
                },
            }
        },
    }
}

/// Add what a walk through one entry meets to `out`. Returns whether it got through.
fn visit_entry(
    entry: &TreeEntry,
    prefix: &str,
    doomed: &Vec<String>,
    inside: bool,
    out: &mut Vec<Visit>,
) -> (complete: bool)
    ensures
        visits_view(final(out)@) == visits_view(old(out)@) + walk_entry(
            entry_view(*entry),
            prefix@,
            texts(doomed@),
            inside,
        ).visits,
        complete == walk_entry(entry_view(*entry), prefix@, texts(doomed@), inside).complete,
    decreases entry,
{
    let ghost before = out@;
    let ghost ev = entry_view(*entry);
    assert(ev.node == node_view(entry.node));
    match &entry.name {
        None => {
            let complete = match &entry.node {
                Node::Tree(sub) => {
                    proof {
                        lemma_tree_view_len(sub@);
                    }
                    sub.len() == 0
                },
                Node::Blob(_) => true,
                Node::Other(_) => true,
            };
            assert(visits_view(out@) == visits_view(before) + Seq::<VisitView>::empty());
            complete
        },
        Some(name) => {
            let path = joined(prefix, name.as_str());
            let marked = inside || path_listed(doomed, path.as_str());
            let blob = match &entry.node {
                Node::Blob(id) => Some(*id),
                _ => None,
            };
            let below = joined(path.as_str(), "/");
            let own = Visit { path, blob, doomed: marked };
            out.push(own);
            assert(visits_view(out@) == visits_view(before) + seq![own@]);
            match &entry.node {
                Node::Tree(sub) => {
                    let complete = walk_tree(sub, below.as_str(), doomed, marked, out);
                    assert(walk_entry(ev, prefix@, texts(doomed@), inside).visits == seq![own@]
                        + walk(tree_view(sub@), below@, texts(doomed@), marked).visits);
                    assert(visits_view(out@) == visits_view(before) + walk_entry(
                        ev,
                        prefix@,
                        texts(doomed@),
                        inside,
                    ).visits);
                    complete
                },
                Node::Blob(_) => true,
                Node::Other(_) => true,
            }
        },
    }
}

/// Add what a walk through `entries` meets to `out`. Returns whether it got through.
pub fn walk_tree(
    entries: &Vec<TreeEntry>,
    prefix: &str,
    doomed: &Vec<String>,
    inside: bool,
    out: &mut Vec<Visit>,
) -> (complete: bool)
    ensures
        visits_view(final(out)@) == visits_view(old(out)@) + walk(
            tree_view(entries@),
            prefix@,
            texts(doomed@),
            inside,
        ).visits,
        complete == walk(tree_view(entries@), prefix@, texts(doomed@), inside).complete,
    decreases entries,
{
    let ghost start = visits_view(out@);
    let ghost all = walk(tree_view(entries@), prefix@, texts(doomed@), inside);
    let mut i: usize = 0;
    assert(entries@.take(0) == Seq::<TreeEntry>::empty());
    assert(start + Seq::<VisitView>::empty() == start);
    while i < entries.len()
        invariant
            start == visits_view(old(out)@),
            all == walk(tree_view(entries@), prefix@, texts(doomed@), inside),
            i <= entries@.len(),
            walk(tree_view(entries@.take(i as int)), prefix@, texts(doomed@), inside).complete,
            visits_view(out@) == start + walk(
                tree_view(entries@.take(i as int)),
                prefix@,
                texts(doomed@),
                inside,
            ).visits,
        decreases entries@.len() - i,
    {
        let ghost before = visits_view(out@);
        proof {
            let upto = entries@.take(i + 1);
            assert(upto.drop_last() == entries@.take(i as int));
            let seen = tree_view(entries@.take(i as int));
            assert(tree_view(upto) == seen.push(entry_view(entries@[i as int])));
            assert(tree_view(upto).drop_last() == seen);
        }
        let through = visit_entry(&entries[i], prefix, doomed, inside, out);
        proof {
            let upto = entries@.take(i + 1);
            assert(visits_view(out@) == start + walk(
                tree_view(upto),
                prefix@,
                texts(doomed@),
                inside,
            ).visits);
            if !through {
                lemma_walk_stops(entries@, prefix@, texts(doomed@), inside, i + 1);
            }
        }
        if !through {
            return false;
        }
        i = i + 1;
    }
    assert(entries@.take(i as int) == entries@);
    true
}

/// A walk that has stopped meets nothing more.
proof fn lemma_walk_stops(
    entries: Seq<TreeEntry>,
    prefix: Seq<char>,
    doomed: Seq<Seq<char>>,
    inside: bool,
    k: int,
)
    requires
        0 <= k <= entries.len(),
        !walk(tree_view(entries.take(k)), prefix, doomed, inside).complete,
    ensures
        walk(tree_view(entries), prefix, doomed, inside) == walk(
            tree_view(entries.take(k)),
            prefix,
            doomed,
            inside,
        ),
    decreases entries.len() - k,
{
    if k == entries.len() {
        assert(entries.take(k) == entries);
    } else {
        let upto = entries.take(k + 1);
        assert(upto.drop_last() == entries.take(k));
        assert(tree_view(upto).drop_last() == tree_view(entries.take(k)));
        lemma_walk_stops(entries, prefix, doomed, inside, k + 1);
    }
}

} // verus!
