//! Physical removal of paths from the wiki repository's history.
//!
//! Deleting a file and committing leaves every earlier version reachable. Strong
//! deletion means that the content is gone from the object database itself, not
//! merely unreferenced. git never changes objects, it only stops referring to
//! them, so history is not rewritten in place: a new repository is built that
//! holds only what survives, verified, and swapped in.

use vstd::prelude::*;
use vstd::utf8::encode_utf8;

use crate::git_tree::{
    copy_tree_without, path_listed, pruned, tree_view, visits_view, walk, walk_entry, walk_tree,
    EntryView, NodeView, Oid, TreeEntry, Visit, VisitView,
};
use crate::ids::{
    bytes_of, hex, hex_text, hyphenated, is_random_id, lemma_hyphenated_injective, same_bytes, Uuid,
};
use crate::order::texts;
use crate::text::{
    begins_with, chars_of, decimal, decimal_of, joined, same_text, string_of,
};

verus! {

/// Why a wiki operation failed.
#[derive(Debug, Clone, PartialEq, Eq)]
pub struct WikiError {
    pub message: String,
}

/// What a history purge removed.
#[derive(Debug, Clone, Copy, PartialEq, Eq, Structural)]
pub struct GitPurgeReport {
    /// Commits carried over into the rebuilt repository.
    pub commits_rewritten: usize,
    /// Objects in the old database, counted before the rebuild.
    pub objects_before: usize,
    /// Objects in the rebuilt database.
    pub objects_after: usize,
    /// Blob objects that existed only through the purged paths and are absent from
    /// the rebuilt database. This is the number that makes the deletion real
    /// rather than merely unreferenced.
    pub blobs_destroyed: usize,
    /// Repositories rebuilt (0 when there was no history to rewrite, else 1).
    pub repositories_rebuilt: usize,
}

impl Default for GitPurgeReport {
    fn default() -> (r: GitPurgeReport)
        ensures
            r == (GitPurgeReport {
                commits_rewritten: 0,
                objects_before: 0,
                objects_after: 0,
                blobs_destroyed: 0,
                repositories_rebuilt: 0,
            }),
    {
        GitPurgeReport {
            commits_rewritten: 0,
            objects_before: 0,
            objects_after: 0,
            blobs_destroyed: 0,
            repositories_rebuilt: 0,
        }
    }
}

/// Who made a commit, and when.
#[derive(Debug, Clone, PartialEq, Eq)]
pub struct Signature {
    /// Bytes, because git takes names in any encoding.
    pub name: Vec<u8>,
    pub email: Vec<u8>,
    /// Seconds since the Unix epoch.
    pub seconds: i64,
    /// The time zone, as minutes ahead of UTC.
    pub offset_minutes: i32,
}

/// What a signature says.
pub struct SignatureView {
    pub name: Seq<u8>,
    pub email: Seq<u8>,
    pub seconds: int,
    pub offset_minutes: int,
}

impl View for Signature {
    type V = SignatureView;

    open spec fn view(&self) -> SignatureView {
        SignatureView {
            name: self.name@,
            email: self.email@,
            seconds: self.seconds as int,
            offset_minutes: self.offset_minutes as int,
        }
    }
}

/// A commit: its id, its parents' ids, its tree, and what is recorded of it.
#[derive(Debug)]
pub struct Commit {
    pub id: Oid,
    pub parents: Vec<Oid>,
    pub tree: Vec<TreeEntry>,
    pub author: Signature,
    pub committer: Signature,
    /// `None` where the message is not UTF-8.
    pub message: Option<String>,
}

/// What a commit says.
pub struct CommitView {
    pub id: Seq<u8>,
    pub parents: Seq<Seq<u8>>,
    pub tree: Seq<EntryView>,
    pub author: SignatureView,
    pub committer: SignatureView,
    pub message: Option<Seq<char>>,
}

/// The ids that a list holds.
pub open spec fn oids(ids: Seq<Oid>) -> Seq<Seq<u8>> {
    ids.map_values(|id: Oid| id@)
}

impl View for Commit {
    type V = CommitView;

    open spec fn view(&self) -> CommitView {
        CommitView {
            id: self.id@,
            parents: oids(self.parents@),
            tree: tree_view(self.tree@),
            author: self.author@,
            committer: self.committer@,
            message: match self.message {
                Some(m) => Some(m@),
                None => None,
            },
        }
    }
}

/// What is checked out: the branch, where its name can be read, and its commit.
#[derive(Debug, Clone)]
pub struct Head {
    pub branch: Option<String>,
    pub target: Oid,
}

/// What a head says.
pub struct HeadView {
    pub branch: Option<Seq<char>>,
    pub target: Seq<u8>,
}

impl View for Head {
    type V = HeadView;

    open spec fn view(&self) -> HeadView {
        HeadView {
            branch: match self.branch {
                Some(b) => Some(b@),
                None => None,
            },
            target: self.target@,
        }
    }
}

/// What an optional head says.
pub open spec fn head_view(head: Option<Head>) -> Option<HeadView> {
    match head {
        Some(h) => Some(h@),
        None => None,
    }
}

/// A reference, by its full name, and the commit it leads to.
#[derive(Debug, Clone)]
pub struct Reference {
    pub name: String,
    pub target: Oid,
}

/// What a reference says.
pub struct ReferenceView {
    pub name: Seq<char>,
    pub target: Seq<u8>,
}

impl View for Reference {
    type V = ReferenceView;

    open spec fn view(&self) -> ReferenceView {
        ReferenceView { name: self.name@, target: self.target@ }
    }
}

/// What a list of references says.
pub open spec fn references_view(refs: Seq<Reference>) -> Seq<ReferenceView> {
    refs.map_values(|r: Reference| r@)
}

/// What a list of commits says.
pub open spec fn history_view(commits: Seq<Commit>) -> Seq<CommitView> {
    commits.map_values(|c: Commit| c@)
}

/// Whether `id` is one of `ids`.
pub fn oid_listed(ids: &Vec<Oid>, id: &Oid) -> (r: bool)
    ensures
        r == oids(ids@).contains(id@),
{
    let mut i: usize = 0;
    while i < ids.len()
        invariant
            i <= ids@.len(),
            forall|j: int| 0 <= j < i ==> #[trigger] oids(ids@)[j] != id@,
        decreases ids@.len() - i,
    {
        assert(oids(ids@)[i as int] == ids@[i as int]@);
        if same_bytes(ids[i].bytes.as_slice(), id.bytes.as_slice()) {
            return true;
        }
        i = i + 1;
    }
    false
}

/// The walks through all commits' trees, one behind the other.
pub open spec fn all_visits(commits: Seq<CommitView>, doomed: Seq<Seq<char>>) -> Seq<VisitView>
    decreases commits.len(),
{
    if commits.len() == 0 {
        Seq::empty()
    } else {
        all_visits(commits.drop_last(), doomed) + walk(
            commits.last().tree,
            Seq::empty(),
            doomed,
            false,
        ).visits
    }
}

/// A tree can be walked to its end, which is no matter of what is doomed.
pub open spec fn readable(tree: Seq<EntryView>) -> bool {
    walk(tree, Seq::empty(), Seq::empty(), false).complete
}

/// Every commit's tree can be walked to its end.
pub open spec fn all_readable(commits: Seq<CommitView>) -> bool {
    forall|i: int| 0 <= i < commits.len() ==> readable((#[trigger] commits[i]).tree)
}

/// Some visit meets the blob `id` at a doomed path or below one, or elsewhere.
pub open spec fn reaches(visits: Seq<VisitView>, through_doomed: bool, id: Seq<u8>) -> bool {
    exists|k: int|
        0 <= k < visits.len() && (#[trigger] visits[k]).blob == Some(id) && visits[k].doomed
            == through_doomed
}

/// The blob `id` is reachable only through doomed paths.
pub open spec fn only_through(visits: Seq<VisitView>, id: Seq<u8>) -> bool {
    reaches(visits, true, id) && !reaches(visits, false, id)
}

/// `ids` are the blobs of `commits` reachable only through doomed paths, each once.
pub open spec fn lists_doomed_blobs(
    commits: Seq<CommitView>,
    doomed: Seq<Seq<char>>,
    ids: Seq<Seq<u8>>,
) -> bool {
    &&& ids.no_duplicates()
    &&& forall|id: Seq<u8>| #[trigger]
        ids.contains(id) <==> only_through(all_visits(commits, doomed), id)
}

proof fn lemma_reaches_concat(
    a: Seq<VisitView>,
    b: Seq<VisitView>,
    through: bool,
    id: Seq<u8>,
)
    ensures
        reaches(a + b, through, id) <==> reaches(a, through, id) || reaches(b, through, id),
{
    if reaches(a, through, id) {
        let k = choose|k: int|
            0 <= k < a.len() && (#[trigger] a[k]).blob == Some(id) && a[k].doomed == through;
        assert((a + b)[k] == a[k]);
    }
    if reaches(b, through, id) {
        let k = choose|k: int|
            0 <= k < b.len() && (#[trigger] b[k]).blob == Some(id) && b[k].doomed == through;
        assert((a + b)[a.len() + k] == b[k]);
    }
    if reaches(a + b, through, id) {
        let k = choose|k: int|
            0 <= k < (a + b).len() && (#[trigger] (a + b)[k]).blob == Some(id) && (a + b)[k].doomed
                == through;
        if k < a.len() {
            assert(a[k] == (a + b)[k]);
        } else {
            assert(b[k - a.len()] == (a + b)[k]);
        }
    }
}

/// Note the blobs that one walk meets at doomed paths.
fn note_doomed(visits: &Vec<Visit>, ids: &mut Vec<Oid>, Ghost(seen): Ghost<Seq<VisitView>>)
    requires
        oids(old(ids)@).no_duplicates(),
        forall|id: Seq<u8>| #[trigger]
            oids(old(ids)@).contains(id) <==> reaches(seen, true, id),
    ensures
        oids(final(ids)@).no_duplicates(),
        forall|id: Seq<u8>| #[trigger]
            oids(final(ids)@).contains(id) <==> reaches(
                seen + visits_view(visits@),
                true,
                id,
            ),
{
    let ghost all = visits_view(visits@);
    let mut i: usize = 0;
    assert(seen + all.take(0) == seen);
    while i < visits.len()
        invariant
            all == visits_view(visits@),
            i <= visits@.len(),
            oids(ids@).no_duplicates(),
            forall|id: Seq<u8>| #[trigger]
                oids(ids@).contains(id) <==> reaches(seen + all.take(i as int), true, id),
        decreases visits@.len() - i,
    {
        let ghost before = ids@;
        let visit = &visits[i];
        assert(all[i as int] == visit@);
        if let Some(id) = &visit.blob {
            if visit.doomed && !oid_listed(ids, id) {
                ids.push(*id);
                assert(oids(ids@) == oids(before).push(id@));
                assert(oids(ids@).no_duplicates());
            }
        }
        proof {
            let now = seen + all.take(i + 1);
            let then = seen + all.take(i as int);
            assert(now == then + seq![all[i as int]]);
            assert forall|id: Seq<u8>| #[trigger]
                oids(ids@).contains(id) <==> reaches(now, true, id) by {
                let one = seq![all[i as int]];
                lemma_reaches_concat(then, one, true, id);
                assert(oids(before).contains(id) <==> reaches(then, true, id));
                assert(reaches(one, true, id) <==> (one[0].blob == Some(id) && one[0].doomed));
                if ids@.len() > before.len() {
                    assert(oids(ids@).last() == visit.blob.unwrap()@);
                    assert(oids(ids@).contains(id) <==> oids(before).contains(id) || id
                        == visit.blob.unwrap()@) by {
                        if oids(before).contains(id) {
                            let k = choose|k: int|
                                0 <= k < oids(before).len() && oids(before)[k] == id;
                            assert(oids(ids@)[k] == id);
                        }
                    }
                }
            }
        }
        i = i + 1;
    }
    assert(all.take(all.len() as int) == all);
}

/// Drop from `ids` the blobs that one walk meets at surviving paths.
fn drop_survivors(visits: &Vec<Visit>, ids: &mut Vec<Oid>, Ghost(wanted): Ghost<
    spec_fn(Seq<u8>) -> bool,
>, Ghost(seen): Ghost<Seq<VisitView>>)
    requires
        oids(old(ids)@).no_duplicates(),
        forall|id: Seq<u8>| #[trigger]
            oids(old(ids)@).contains(id) <==> wanted(id) && !reaches(seen, false, id),
    ensures
        oids(final(ids)@).no_duplicates(),
        forall|id: Seq<u8>| #[trigger]
            oids(final(ids)@).contains(id) <==> wanted(id) && !reaches(
                seen + visits_view(visits@),
                false,
                id,
            ),
{
    let ghost all = visits_view(visits@);
    let mut i: usize = 0;
    assert(seen + all.take(0) == seen);
    while i < visits.len()
        invariant
            all == visits_view(visits@),
            i <= visits@.len(),
            oids(ids@).no_duplicates(),
            forall|id: Seq<u8>| #[trigger]
                oids(ids@).contains(id) <==> wanted(id) && !reaches(
                    seen + all.take(i as int),
                    false,
                    id,
                ),
        decreases visits@.len() - i,
    {
        let ghost before = ids@;
        let visit = &visits[i];
        assert(all[i as int] == visit@);
        let mut gone: Ghost<Option<Seq<u8>>> = Ghost(None);
        if let Some(id) = &visit.blob {
            if !visit.doomed {
                drop_oid(ids, id);
                proof {
                    gone@ = Some(id@);
                }
            }
        }
        proof {
            let now = seen + all.take(i + 1);
            let then = seen + all.take(i as int);
            let one = seq![all[i as int]];
            assert(now == then + one);
            assert forall|id: Seq<u8>| #[trigger]
                oids(ids@).contains(id) <==> wanted(id) && !reaches(now, false, id) by {
                lemma_reaches_concat(then, one, false, id);
                assert(oids(before).contains(id) <==> wanted(id) && !reaches(
                    then,
                    false,
                    id,
                ));
                assert(reaches(one, false, id) <==> (one[0].blob == Some(id) && !one[0].doomed));
                assert(reaches(one, false, id) <==> gone@ == Some(id));
            }
        }
        i = i + 1;
    }
    assert(all.take(all.len() as int) == all);
}

/// Drop one id from a list without repetitions.
fn drop_oid(ids: &mut Vec<Oid>, id: &Oid)
    requires
        oids(old(ids)@).no_duplicates(),
    ensures
        oids(final(ids)@).no_duplicates(),
        forall|x: Seq<u8>| #[trigger]
            oids(final(ids)@).contains(x) <==> oids(old(ids)@).contains(x) && x != id@,
{
    let ghost before = oids(ids@);
    let mut i: usize = 0;
    while i < ids.len()
        invariant
            before == oids(ids@),
            before == oids(old(ids)@),
            before.no_duplicates(),
            i <= ids@.len(),
            forall|j: int| 0 <= j < i ==> #[trigger] before[j] != id@,
        decreases ids@.len() - i,
    {
        assert(before[i as int] == ids@[i as int]@);
        if same_bytes(ids[i].bytes.as_slice(), id.bytes.as_slice()) {
            ids.remove(i);
            proof {
                let after = oids(ids@);
                assert(after == before.remove(i as int));
                assert forall|x: Seq<u8>| #[trigger] after.contains(x) <==> before.contains(x) && x
                    != id@ by {
                    if after.contains(x) {
                        let k = choose|k: int| 0 <= k < after.len() && after[k] == x;
                        if k < i {
                            assert(before[k] == x);
                        } else {
                            assert(before[k + 1] == x);
                        }
                    }
                    if before.contains(x) && x != id@ {
                        let k = choose|k: int| 0 <= k < before.len() && before[k] == x;
                        if k < i {
                            assert(after[k] == x);
                        } else {
                            assert(after[k - 1] == x);
                        }
                    }
                }
                assert(after.no_duplicates()) by {
                    assert forall|a: int, b: int|
                        0 <= a < after.len() && 0 <= b < after.len() && a != b implies after[a]
                        != after[b] by {
                        let a0 = if a < i { a } else { a + 1 };
                        let b0 = if b < i { b } else { b + 1 };
                        assert(before[a0] != before[b0]);
                    }
                }
            }
            return;
        }
        i = i + 1;
    }
    assert(!before.contains(id@));
}

/// How far a walk gets does not depend on what is doomed.
pub proof fn lemma_readable(tree: Seq<EntryView>, doomed: Seq<Seq<char>>)
    ensures
        readable(tree) == walk(tree, Seq::empty(), doomed, false).complete,
{
    lemma_walk_complete(tree, Seq::empty(), Seq::empty(), doomed, false, false);
}

proof fn lemma_walk_complete(
    entries: Seq<EntryView>,
    prefix: Seq<char>,
    doomed: Seq<Seq<char>>,
    other: Seq<Seq<char>>,
    inside: bool,
    elsewhere: bool,
)
    ensures
        walk(entries, prefix, doomed, inside).complete == walk(
            entries,
            prefix,
            other,
            elsewhere,
        ).complete,
    decreases entries,
{
    if entries.len() > 0 {
        lemma_walk_complete(entries.drop_last(), prefix, doomed, other, inside, elsewhere);
        lemma_walk_entry_complete(entries.last(), prefix, doomed, other, inside, elsewhere);
    }
}

proof fn lemma_walk_entry_complete(
    e: EntryView,
    prefix: Seq<char>,
    doomed: Seq<Seq<char>>,
    other: Seq<Seq<char>>,
    inside: bool,
    elsewhere: bool,
)
    ensures
        walk_entry(e, prefix, doomed, inside).complete == walk_entry(
            e,
            prefix,
            other,
            elsewhere,
        ).complete,
    decreases e,
{
    if let Some(name) = e.name {
        if let NodeView::Tree(entries) = e.node {
            let path = prefix + name;
            lemma_walk_complete(
                entries,
                path + "/"@,
                doomed,
                other,
                inside || doomed.contains(path),
                elsewhere || other.contains(path),
            );
        }
    }
}

/// The error of a tree that cannot be walked to its end.
pub open spec fn unreadable_message() -> Seq<char> {
    "git purge: a directory name is not UTF-8"@
}

/// The blobs that are reachable only through the doomed paths.
///
/// Blobs shared with a surviving path are left out: git stores one object for
/// identical content, so destroying it would corrupt the page that keeps it.
pub fn blobs_reachable_only_through(history: &Vec<Commit>, doomed: &Vec<String>) -> (r: Result<
    Vec<Oid>,
    WikiError,
>)
    ensures
        r is Ok <==> all_readable(history_view(history@)),
        r matches Ok(ids) ==> lists_doomed_blobs(
            history_view(history@),
            texts(doomed@),
            oids(ids@),
        ),
        r matches Err(e) ==> e.message@ == unreadable_message(),
{
    let ghost commits = history_view(history@);
    let ghost paths = texts(doomed@);
    let mut ids: Vec<Oid> = Vec::new();
    let mut i: usize = 0;
    assert(commits.take(0) == Seq::<CommitView>::empty());
    while i < history.len()
        invariant
            commits == history_view(history@),
            paths == texts(doomed@),
            i <= history@.len(),
            forall|j: int| 0 <= j < i ==> readable((#[trigger] commits[j]).tree),
            oids(ids@).no_duplicates(),
            forall|id: Seq<u8>| #[trigger]
                oids(ids@).contains(id) <==> reaches(
                    all_visits(commits.take(i as int), paths),
                    true,
                    id,
                ),
        decreases history@.len() - i,
    {
        let mut visits: Vec<Visit> = Vec::new();
        let through = walk_tree(&history[i].tree, "", doomed, false, &mut visits);
        proof {
            reveal_strlit("");
            assert(""@ == Seq::<char>::empty());
            assert(commits[i as int].tree == tree_view(history@[i as int].tree@));
            assert(visits_view(visits@) == walk(
                commits[i as int].tree,
                Seq::empty(),
                paths,
                false,
            ).visits);
            lemma_readable(commits[i as int].tree, paths);
            let upto = commits.take(i + 1);
            assert(upto.drop_last() == commits.take(i as int));
            assert(all_visits(upto, paths) == all_visits(commits.take(i as int), paths)
                + visits_view(visits@));
        }
        if !through {
            return Err(
                WikiError { message: "git purge: a directory name is not UTF-8".to_owned() },
            );
        }
        note_doomed(&visits, &mut ids, Ghost(all_visits(commits.take(i as int), paths)));
        i = i + 1;
    }
    let ghost wanted = |id: Seq<u8>| reaches(all_visits(commits, paths), true, id);
    assert(commits.take(i as int) == commits);
    let mut i: usize = 0;
    assert(commits.take(0) == Seq::<CommitView>::empty());
    while i < history.len()
        invariant
            commits == history_view(history@),
            paths == texts(doomed@),
            all_readable(commits),
            i <= history@.len(),
            oids(ids@).no_duplicates(),
            forall|id: Seq<u8>| #[trigger]
                oids(ids@).contains(id) <==> wanted(id) && !reaches(
                    all_visits(commits.take(i as int), paths),
                    false,
                    id,
                ),
        decreases history@.len() - i,
    {
        let mut visits: Vec<Visit> = Vec::new();
        walk_tree(&history[i].tree, "", doomed, false, &mut visits);
        proof {
            reveal_strlit("");
            assert(""@ == Seq::<char>::empty());
            assert(commits[i as int].tree == tree_view(history@[i as int].tree@));
            assert(visits_view(visits@) == walk(
                commits[i as int].tree,
                Seq::empty(),
                paths,
                false,
            ).visits);
            lemma_readable(commits[i as int].tree, paths);
            let upto = commits.take(i + 1);
            assert(upto.drop_last() == commits.take(i as int));
            assert(all_visits(upto, paths) == all_visits(commits.take(i as int), paths)
                + visits_view(visits@));
        }
        drop_survivors(
            &visits,
            &mut ids,
            Ghost(wanted),
            Ghost(all_visits(commits.take(i as int), paths)),
        );
        i = i + 1;
    }
    assert(commits.take(i as int) == commits);
    Ok(ids)
}

/// A commit to be written into the rebuilt repository.
#[derive(Debug)]
pub struct PlannedCommit {
    /// Positions of the rebuilt parents.
    pub parents: Vec<usize>,
    /// The tree without doomed paths.
    pub tree: Vec<TreeEntry>,
    pub author: Signature,
    pub committer: Signature,
    pub message: String,
}

/// A reference to be written into the rebuilt repository.
#[derive(Debug, Clone)]
pub struct PlannedReference {
    pub name: String,
    /// Position of the rebuilt commit that it leads to.
    pub commit: usize,
}

/// What is to be written into the rebuilt repository.
#[derive(Debug)]
pub struct Rebuild {
    /// One commit for each of the old history, in its order.
    pub commits: Vec<PlannedCommit>,
    /// The branch that is made the head.
    pub head: Option<PlannedReference>,
    /// The other references.
    pub references: Vec<PlannedReference>,
}

/// The position of the last commit with this id among the first `upto`.
pub open spec fn latest(commits: Seq<CommitView>, id: Seq<u8>, upto: int) -> Option<int>
    decreases upto,
{
    if upto <= 0 {
        None
    } else if commits[upto - 1].id == id {
        Some(upto - 1)
    } else {
        latest(commits, id, upto - 1)
    }
}

/// The rebuilt parents: where each parent stands among the first `upto` commits.
/// A parent that is not among them is left out.
pub open spec fn remapped(
    commits: Seq<CommitView>,
    parents: Seq<Seq<u8>>,
    upto: int,
) -> Seq<int>
    decreases parents.len(),
{
    if parents.len() == 0 {
        Seq::empty()
    } else {
        let rest = remapped(commits, parents.drop_last(), upto);
        match latest(commits, parents.last(), upto) {
            Some(j) => rest.push(j),
            None => rest,
        }
    }
}

/// Positions as numbers.
pub open spec fn positions(v: Seq<usize>) -> Seq<int> {
    v.map_values(|i: usize| i as int)
}

/// The full name of the branch that becomes the head.
pub open spec fn head_name(head: Option<HeadView>) -> Seq<char> {
    "refs/heads/"@ + match head {
        Some(HeadView { branch: Some(branch), .. }) => branch,
        _ => "main"@,
    }
}

/// The position of the commit that the head leads to: that of its own commit, or
/// of the last one where there is no head or it leads outside the history.
pub open spec fn head_commit(commits: Seq<CommitView>, head: Option<HeadView>) -> int {
    match head {
        Some(h) => match latest(commits, h.target, commits.len() as int) {
            Some(j) => j,
            None => commits.len() - 1,
        },
        None => commits.len() - 1,
    }
}

/// The references other than the one named `taken` that lead into the history, by
/// name and position.
pub open spec fn kept_references(
    commits: Seq<CommitView>,
    refs: Seq<ReferenceView>,
    taken: Seq<char>,
) -> Seq<(Seq<char>, int)>
    decreases refs.len(),
{
    if refs.len() == 0 {
        Seq::empty()
    } else {
        let rest = kept_references(commits, refs.drop_last(), taken);
        match latest(commits, refs.last().target, commits.len() as int) {
            Some(j) => if refs.last().name == taken {
                rest
            } else {
                rest.push((refs.last().name, j))
            },
            None => rest,
        }
    }
}

/// Planned references, by name and position.
pub open spec fn planned_references(refs: Seq<PlannedReference>) -> Seq<(Seq<char>, int)> {
    refs.map_values(|r: PlannedReference| (r.name@, r.commit as int))
}

impl PlannedCommit {
    /// Stands for `commits[i]`: its tree without doomed paths, its parents at their
    /// new places, the same author and committer, and the same message, or none
    /// where it cannot be read.
    pub open spec fn rewrites(
        self,
        commits: Seq<CommitView>,
        i: int,
        doomed: Seq<Seq<char>>,
    ) -> bool {
        &&& tree_view(self.tree@) == pruned(commits[i].tree, Seq::empty(), doomed)
        &&& positions(self.parents@) == remapped(commits, commits[i].parents, i)
        &&& self.author@ == commits[i].author
        &&& self.committer@ == commits[i].committer
        &&& self.message@ == match commits[i].message {
            Some(m) => m,
            None => Seq::empty(),
        }
    }
}

impl Rebuild {
    /// The rebuild of `commits` without doomed paths: the same history, commit for
    /// commit, with the head and the other references leading where they led.
    pub open spec fn rebuilds(
        self,
        commits: Seq<CommitView>,
        head: Option<HeadView>,
        refs: Seq<ReferenceView>,
        doomed: Seq<Seq<char>>,
    ) -> bool {
        &&& self.commits@.len() == commits.len()
        &&& forall|i: int|
            0 <= i < commits.len() ==> (#[trigger] self.commits@[i]).rewrites(commits, i, doomed)
        &&& match self.head {
            Some(h) => commits.len() > 0 && h.name@ == head_name(head) && h.commit == head_commit(
                commits,
                head,
            ),
            None => commits.len() == 0,
        }
        &&& planned_references(self.references@) == kept_references(
            commits,
            refs,
            head_name(head),
        )
    }
}

/// Where a commit stands among the first `upto`.
fn find_commit(history: &Vec<Commit>, id: &Oid, upto: usize) -> (r: Option<usize>)
    requires
        upto <= history@.len(),
    ensures
        match r {
            Some(j) => latest(history_view(history@), id@, upto as int) == Some(j as int),
            None => latest(history_view(history@), id@, upto as int) is None,
        },
{
    let ghost commits = history_view(history@);
    let mut k: usize = upto;
    while k > 0
        invariant
            commits == history_view(history@),
            k <= upto <= history@.len(),
            latest(commits, id@, upto as int) == latest(commits, id@, k as int),
        decreases k,
    {
        assert(commits[k - 1].id == history@[k - 1].id@);
        if same_bytes(history[k - 1].id.bytes.as_slice(), id.bytes.as_slice()) {
            return Some(k - 1);
        }
        k = k - 1;
    }
    None
}

/// The same signature once more.
fn copy_signature(s: &Signature) -> (r: Signature)
    ensures
        r@ == s@,
{
    Signature {
        name: bytes_of(s.name.as_slice()),
        email: bytes_of(s.email.as_slice()),
        seconds: s.seconds,
        offset_minutes: s.offset_minutes,
    }
}

/// The positions of the rebuilt parents of `history[i]`.
fn rebuilt_parents(history: &Vec<Commit>, i: usize) -> (parents: Vec<usize>)
    requires
        i < history@.len(),
    ensures
        positions(parents@) == remapped(
            history_view(history@),
            oids(history@[i as int].parents@),
            i as int,
        ),
{
    let ghost commits = history_view(history@);
    let commit = &history[i];
    let ghost wanted = oids(commit.parents@);
    let mut parents: Vec<usize> = Vec::new();
    let mut k: usize = 0;
    assert(wanted.take(0) == Seq::<Seq<u8>>::empty());
    assert(positions(parents@) == Seq::<int>::empty());
    while k < commit.parents.len()
        invariant
            commits == history_view(history@),
            wanted == oids(commit.parents@),
            i < history@.len(),
            k <= commit.parents@.len(),
            positions(parents@) == remapped(commits, wanted.take(k as int), i as int),
        decreases commit.parents@.len() - k,
    {
        let ghost before = parents@;
        proof {
            let upto = wanted.take(k + 1);
            assert(upto.drop_last() == wanted.take(k as int));
            assert(upto.last() == commit.parents@[k as int]@);
        }
        if let Some(at) = find_commit(history, &commit.parents[k], i) {
            parents.push(at);
            assert(positions(parents@) == positions(before).push(at as int));
        }
        k = k + 1;
    }
    assert(wanted.take(wanted.len() as int) == wanted);
    parents
}

/// Plan the references other than the one named `taken`.
fn rebuilt_references(history: &Vec<Commit>, refs: &Vec<Reference>, taken: &str) -> (out: Vec<
    PlannedReference,
>)
    ensures
        planned_references(out@) == kept_references(
            history_view(history@),
            references_view(refs@),
            taken@,
        ),
{
    let ghost commits = history_view(history@);
    let ghost all = references_view(refs@);
    let mut out: Vec<PlannedReference> = Vec::new();
    let mut i: usize = 0;
    assert(all.take(0) == Seq::<ReferenceView>::empty());
    assert(planned_references(out@) == Seq::<(Seq<char>, int)>::empty());
    while i < refs.len()
        invariant
            commits == history_view(history@),
            all == references_view(refs@),
            i <= refs@.len(),
            planned_references(out@) == kept_references(commits, all.take(i as int), taken@),
        decreases refs@.len() - i,
    {
        let ghost before = out@;
        proof {
            assert(all.take(i + 1).drop_last() == all.take(i as int));
            assert(all.take(i + 1).last() == refs@[i as int]@);
        }
        if let Some(commit) = find_commit(history, &refs[i].target, history.len()) {
            if !same_text(refs[i].name.as_str(), taken) {
                out.push(PlannedReference { name: refs[i].name.as_str().to_owned(), commit });
                assert(planned_references(out@) == planned_references(before).push(
                    (refs@[i as int].name@, commit as int),
                ));
            }
        }
        i = i + 1;
    }
    assert(all.take(all.len() as int) == all);
    out
}

/// Plan a replacement repository that holds the same history without doomed paths.
///
/// `history` is ordered parents first, because a commit can only be rebuilt once
/// its parents are. `head` is what is checked out, `refs` are all references that
/// lead to a commit.
pub fn build_replacement(
    history: &Vec<Commit>,
    head: &Option<Head>,
    refs: &Vec<Reference>,
    doomed: &Vec<String>,
) -> (out: Rebuild)
    ensures
        out.rebuilds(
            history_view(history@),
            head_view(*head),
            references_view(refs@),
            texts(doomed@),
        ),
{
    let ghost commits = history_view(history@);
    let mut planned: Vec<PlannedCommit> = Vec::new();
    let mut i: usize = 0;
    proof {
        reveal_strlit("");
        assert(""@ == Seq::<char>::empty());
    }
    while i < history.len()
        invariant
            commits == history_view(history@),
            ""@ == Seq::<char>::empty(),
            i <= history@.len(),
            planned@.len() == i,
            forall|k: int|
                0 <= k < i ==> (#[trigger] planned@[k]).rewrites(commits, k, texts(doomed@)),
        decreases history@.len() - i,
    {
        let commit = &history[i];
        assert(commits[i as int] == commit@);
        let tree = copy_tree_without(&commit.tree, "", doomed);
        let parents = rebuilt_parents(history, i);
        let message = match &commit.message {
            Some(m) => m.as_str().to_owned(),
            None => "".to_owned(),
        };
        let made = PlannedCommit {
            parents,
            tree,
            author: copy_signature(&commit.author),
            committer: copy_signature(&commit.committer),
            message,
        };
        assert(made.rewrites(commits, i as int, texts(doomed@)));
        planned.push(made);
        i = i + 1;
    }
    let name = match head {
        Some(Head { branch: Some(branch), .. }) => joined("refs/heads/", branch.as_str()),
        _ => joined("refs/heads/", "main"),
    };
    let references = rebuilt_references(history, refs, name.as_str());
    let head = if history.len() == 0 {
        None
    } else {
        let last: usize = history.len() - 1;
        let commit: usize = match head {
            Some(h) => match find_commit(history, &h.target, history.len()) {
                Some(at) => at,
                None => last,
            },
            None => last,
        };
        Some(PlannedReference { name, commit })
    };
    Rebuild { commits: planned, head, references }
}

/// The first doomed path that a walk met.
pub open spec fn first_doomed(visits: Seq<VisitView>, doomed: Seq<Seq<char>>) -> Option<Seq<char>>
    decreases visits.len(),
{
    if visits.len() == 0 {
        None
    } else if first_doomed(visits.drop_last(), doomed) is Some {
        first_doomed(visits.drop_last(), doomed)
    } else if doomed.contains(visits.last().path) {
        Some(visits.last().path)
    } else {
        None
    }
}

/// What is wrong with one rebuilt commit, if anything: a doomed path in it, or a
/// tree that cannot be walked to its end.
pub open spec fn commit_offence(c: CommitView, doomed: Seq<Seq<char>>) -> Option<Seq<char>> {
    let w = walk(c.tree, Seq::empty(), doomed, false);
    match first_doomed(w.visits, doomed) {
        Some(path) => Some(
            "git purge: rebuilt history still contains "@ + path + " at commit "@ + hex(c.id),
        ),
        None => if w.complete {
            None
        } else {
            Some(unreadable_message())
        },
    }
}

/// What is wrong with the rebuilt history, if anything.
pub open spec fn history_offence(
    commits: Seq<CommitView>,
    doomed: Seq<Seq<char>>,
) -> Option<Seq<char>>
    decreases commits.len(),
{
    if commits.len() == 0 {
        None
    } else if history_offence(commits.drop_last(), doomed) is Some {
        history_offence(commits.drop_last(), doomed)
    } else {
        commit_offence(commits.last(), doomed)
    }
}

/// The first object that is one of the purged blobs, as an error.
pub open spec fn object_offence(
    objects: Seq<Seq<u8>>,
    doomed_blobs: Seq<Seq<u8>>,
) -> Option<Seq<char>>
    decreases objects.len(),
{
    if objects.len() == 0 {
        None
    } else if object_offence(objects.drop_last(), doomed_blobs) is Some {
        object_offence(objects.drop_last(), doomed_blobs)
    } else if doomed_blobs.contains(objects.last()) {
        Some(
            "git purge: rebuilt object database still contains purged blob "@ + hex(
                objects.last(),
            ),
        )
    } else {
        None
    }
}

/// Why a rebuilt repository is refused, if it is.
pub open spec fn replacement_offence(
    commits: Seq<CommitView>,
    objects: Seq<Seq<u8>>,
    doomed: Seq<Seq<char>>,
    doomed_blobs: Seq<Seq<u8>>,
) -> Option<Seq<char>> {
    match history_offence(commits, doomed) {
        Some(m) => Some(m),
        None => object_offence(objects, doomed_blobs),
    }
}

/// The first doomed path of a walk.
fn find_doomed(visits: &Vec<Visit>, doomed: &Vec<String>) -> (r: Option<String>)
    ensures
        match r {
            Some(p) => first_doomed(visits_view(visits@), texts(doomed@)) == Some(p@),
            None => first_doomed(visits_view(visits@), texts(doomed@)) is None,
        },
{
    let ghost all = visits_view(visits@);
    let ghost paths = texts(doomed@);
    let mut i: usize = 0;
    assert(all.take(0) == Seq::<VisitView>::empty());
    while i < visits.len()
        invariant
            all == visits_view(visits@),
            paths == texts(doomed@),
            i <= visits@.len(),
            first_doomed(all.take(i as int), paths) is None,
        decreases visits@.len() - i,
    {
        proof {
            assert(all.take(i + 1).drop_last() == all.take(i as int));
            assert(all.take(i + 1).last() == visits@[i as int]@);
        }
        if path_listed(doomed, visits[i].path.as_str()) {
            proof {
                lemma_first_doomed_stays(all, paths, i + 1);
            }
            return Some(visits[i].path.as_str().to_owned());
        }
        i = i + 1;
    }
    assert(all.take(all.len() as int) == all);
    None
}

proof fn lemma_first_doomed_stays(visits: Seq<VisitView>, doomed: Seq<Seq<char>>, k: int)
    requires
        0 <= k <= visits.len(),
        first_doomed(visits.take(k), doomed) is Some,
    ensures
        first_doomed(visits, doomed) == first_doomed(visits.take(k), doomed),
    decreases visits.len() - k,
{
    if k == visits.len() {
        assert(visits.take(k) == visits);
    } else {
        assert(visits.take(k + 1).drop_last() == visits.take(k));
        lemma_first_doomed_stays(visits, doomed, k + 1);
    }
}

proof fn lemma_history_offence_stays(commits: Seq<CommitView>, doomed: Seq<Seq<char>>, k: int)
    requires
        0 <= k <= commits.len(),
        history_offence(commits.take(k), doomed) is Some,
    ensures
        history_offence(commits, doomed) == history_offence(commits.take(k), doomed),
    decreases commits.len() - k,
{
    if k == commits.len() {
        assert(commits.take(k) == commits);
    } else {
        assert(commits.take(k + 1).drop_last() == commits.take(k));
        lemma_history_offence_stays(commits, doomed, k + 1);
    }
}

proof fn lemma_object_offence_stays(objects: Seq<Seq<u8>>, blobs: Seq<Seq<u8>>, k: int)
    requires
        0 <= k <= objects.len(),
        object_offence(objects.take(k), blobs) is Some,
    ensures
        object_offence(objects, blobs) == object_offence(objects.take(k), blobs),
    decreases objects.len() - k,
{
    if k == objects.len() {
        assert(objects.take(k) == objects);
    } else {
        assert(objects.take(k + 1).drop_last() == objects.take(k));
        lemma_object_offence_stays(objects, blobs, k + 1);
    }
}

/// Fail closed unless the rebuilt repository provably lacks the purged content.
///
/// `history` is every commit of the rebuilt repository, `objects` every object of
/// its database, reachable or not. Two independent checks, because either alone
/// can pass while the deletion is incomplete: a path check would miss a blob
/// present under another name, and an object check would miss a path added again
/// by a later commit.
pub fn verify_replacement(
    history: &Vec<Commit>,
    objects: &Vec<Oid>,
    doomed: &Vec<String>,
    doomed_blobs: &Vec<Oid>,
) -> (r: Result<(), WikiError>)
    ensures
        match replacement_offence(
            history_view(history@),
            oids(objects@),
            texts(doomed@),
            oids(doomed_blobs@),
        ) {
            None => r is Ok,
            Some(m) => r matches Err(e) && e.message@ == m,
        },
{
    let ghost commits = history_view(history@);
    let ghost paths = texts(doomed@);
    let mut i: usize = 0;
    assert(commits.take(0) == Seq::<CommitView>::empty());
    while i < history.len()
        invariant
            commits == history_view(history@),
            paths == texts(doomed@),
            i <= history@.len(),
            history_offence(commits.take(i as int), paths) is None,
        decreases history@.len() - i,
    {
        let mut visits: Vec<Visit> = Vec::new();
        let through = walk_tree(&history[i].tree, "", doomed, false, &mut visits);
        proof {
            reveal_strlit("");
            assert(""@ == Seq::<char>::empty());
            assert(commits[i as int] == history@[i as int]@);
            assert(visits_view(visits@) == walk(
                commits[i as int].tree,
                Seq::empty(),
                paths,
                false,
            ).visits);
            assert(commits.take(i + 1).drop_last() == commits.take(i as int));
            assert(commits.take(i + 1).last() == commits[i as int]);
        }
        if let Some(path) = find_doomed(&visits, doomed) {
            let message = joined("git purge: rebuilt history still contains ", path.as_str());
            let message = joined(message.as_str(), " at commit ");
            let message = joined(
                message.as_str(),
                hex_text(history[i].id.bytes.as_slice()).as_str(),
            );
            proof {
                lemma_history_offence_stays(commits, paths, i + 1);
            }
            return Err(WikiError { message });
        }
        if !through {
            proof {
                lemma_history_offence_stays(commits, paths, i + 1);
            }
            return Err(
                WikiError { message: "git purge: a directory name is not UTF-8".to_owned() },
            );
        }
        i = i + 1;
    }
    assert(commits.take(commits.len() as int) == commits);
    let ghost all = oids(objects@);
    let ghost blobs = oids(doomed_blobs@);
    let mut i: usize = 0;
    assert(all.take(0) == Seq::<Seq<u8>>::empty());
    while i < objects.len()
        invariant
            all == oids(objects@),
            blobs == oids(doomed_blobs@),
            i <= objects@.len(),
            object_offence(all.take(i as int), blobs) is None,
            history_offence(history_view(history@), texts(doomed@)) is None,
        decreases objects@.len() - i,
    {
        proof {
            assert(all.take(i + 1).drop_last() == all.take(i as int));
            assert(all.take(i + 1).last() == objects@[i as int]@);
        }
        if oid_listed(doomed_blobs, &objects[i]) {
            proof {
                lemma_object_offence_stays(all, blobs, i + 1);
            }
            return Err(
                WikiError {
                    message: joined(
                        "git purge: rebuilt object database still contains purged blob ",
                        hex_text(objects[i].bytes.as_slice()).as_str(),
                    ),
                },
            );
        }
        i = i + 1;
    }
    assert(all.take(all.len() as int) == all);
    Ok(())
}

/// The id that git gives to a blob with this content, if it gives it one: content
/// in which it detects an attack on the hash is refused.
pub uninterp spec fn blob_id(content: Seq<u8>) -> Option<Seq<u8>>;

/// Calls `git2::Oid::hash_object` for a blob, which computes the SHA-1 of the
/// content behind a blob header. Whether there is an id, and which, is named, not
/// spelled out. What the error says is not claimed.
#[verifier::external_body]
fn git_blob_id(content: &[u8]) -> (r: Result<[u8; 20], String>)
    ensures
        match r {
            Ok(id) => blob_id(content@) == Some(id@),
            Err(_) => blob_id(content@) is None,
        },
{
    let id = git2::Oid::hash_object(git2::ObjectType::Blob, content).map_err(|e| e.to_string())?;
    <[u8; 20]>::try_from(id.as_bytes()).map_err(|e| e.to_string())
}

/// Prefix of both transient directories, so that recovery can recognise them and
/// nothing mistakes them for wiki content.
pub open spec fn scratch_prefix() -> Seq<char> {
    ".ai-memory-purge-"@
}

/// The short form of an object id: its first 16 digits.
pub fn short_id(id: &Oid) -> (s: String)
    ensures
        s@ == hex(id@).take(16),
{
    let text = hex_text(id.bytes.as_slice());
    let chars = chars_of(text.as_str());
    assert(hex(id@).take(16) == hex(id@).subrange(0, 16));
    string_of(&chars, 0, 16)
}

/// What the hash in the id of a purge is taken of: the root and the object count.
pub open spec fn purge_key(root: Seq<char>, objects_before: nat) -> Seq<u8> {
    encode_utf8(root + "-"@ + decimal(objects_before))
}

/// The id of a purge: the short form of the hash, which tells the repository, and
/// the attempt, so that a crashed run's directories are never mistaken for this
/// one's.
pub open spec fn purge_id_of(hash: Seq<u8>, attempt: Seq<u8>) -> Seq<char> {
    hex(hash).take(16) + "-"@ + hyphenated(attempt)
}

/// The id of a purge is unique: two attempts have different ones, whatever they hash,
/// also on an unchanged repository.
pub proof fn law_attempts_have_ids_of_their_own(
    hash: Seq<u8>,
    attempt: Seq<u8>,
    other_hash: Seq<u8>,
    other_attempt: Seq<u8>,
)
    requires
        attempt.len() == 16,
        other_attempt.len() == 16,
        attempt != other_attempt,
    ensures
        purge_id_of(hash, attempt) != purge_id_of(other_hash, other_attempt),
{
    let a = purge_id_of(hash, attempt);
    let b = purge_id_of(other_hash, other_attempt);
    assert(a.skip(a.len() - 36) == hyphenated(attempt));
    assert(b.skip(b.len() - 36) == hyphenated(other_attempt));
    if a == b {
        lemma_hyphenated_injective(attempt, other_attempt);
    }
}

/// Hashes the root of a repository and the number of its objects.
fn hash_purge_key(root: &str, objects_before: usize) -> (r: Result<Oid, String>)
    ensures
        match r {
            Ok(id) => blob_id(purge_key(root@, objects_before as nat)) == Some(id@),
            Err(_) => blob_id(purge_key(root@, objects_before as nat)) is None,
        },
{
    let text = joined(root, "-");
    let text = joined(text.as_str(), decimal_of(objects_before as u64).as_str());
    match git_blob_id(text.as_str().as_bytes()) {
        Ok(bytes) => Ok(Oid { bytes }),
        Err(e) => Err(e),
    }
}

/// Everything that a purge of the history has to do, worked out before anything is
/// touched.
#[derive(Debug)]
pub struct HistoryPurge {
    /// Unique id of this purge, and the suffix of its directories.
    pub purge_id: String,
    /// The directory that the replacement is built in.
    pub scratch: String,
    /// Where the old repository is moved aside to.
    pub retired: String,
    /// Blobs that must be absent from the replacement.
    pub doomed_blobs: Vec<Oid>,
    /// What the replacement holds.
    pub rebuild: Rebuild,
    /// Objects in the old database.
    pub objects_before: usize,
}

impl HistoryPurge {
    /// Plans the removal of `paths` from `commits`, under the id that the hash and
    /// the attempt give.
    pub open spec fn plans(
        self,
        hash: Seq<u8>,
        attempt: Seq<u8>,
        paths: Seq<Seq<char>>,
        commits: Seq<CommitView>,
        head: Option<HeadView>,
        refs: Seq<ReferenceView>,
        objects_before: usize,
    ) -> bool {
        &&& self.purge_id@ == purge_id_of(hash, attempt)
        &&& self.scratch@ == scratch_prefix() + "new-"@ + self.purge_id@
        &&& self.retired@ == scratch_prefix() + "old-"@ + self.purge_id@
        &&& lists_doomed_blobs(commits, paths, oids(self.doomed_blobs@))
        &&& self.rebuild.rebuilds(commits, head, refs, paths)
        &&& self.objects_before == objects_before
    }
}

/// Name of the directory that purge `id` builds the replacement in.
pub fn scratch_name(id: &str) -> (s: String)
    ensures
        s@ == scratch_prefix() + "new-"@ + id@,
{
    joined(joined(".ai-memory-purge-", "new-").as_str(), id)
}

/// Name of the directory that purge `id` moves the old repository aside to.
pub fn retired_name(id: &str) -> (s: String)
    ensures
        s@ == scratch_prefix() + "old-"@ + id@,
{
    joined(joined(".ai-memory-purge-", "old-").as_str(), id)
}

/// The transient directories of a purge are recognised as such, are two different
/// ones, and differ from those of any other purge.
pub proof fn law_transient_directories_are_recognised(a: Seq<char>, b: Seq<char>)
    ensures
        starts_as_scratch(scratch_prefix() + "new-"@ + a),
        starts_as_scratch(scratch_prefix() + "old-"@ + a),
        scratch_prefix() + "new-"@ + a != scratch_prefix() + "old-"@ + b,
        a != b ==> scratch_prefix() + "new-"@ + a != scratch_prefix() + "new-"@ + b,
        a != b ==> scratch_prefix() + "old-"@ + a != scratch_prefix() + "old-"@ + b,
{
    reveal_strlit("new-");
    reveal_strlit("old-");
    let p = scratch_prefix();
    let n = p.len() as int;
    let new_a = p + "new-"@ + a;
    let new_b = p + "new-"@ + b;
    let old_a = p + "old-"@ + a;
    let old_b = p + "old-"@ + b;
    assert(new_a.take(n) == p);
    assert(old_a.take(n) == p);
    assert(new_a[n] == 'n');
    assert(old_b[n] == 'o');
    assert(new_a.skip(n + 4) == a);
    assert(new_b.skip(n + 4) == b);
    assert(old_a.skip(n + 4) == a);
    assert(old_b.skip(n + 4) == b);
}

/// Work out the removal of `paths` from every commit of `history`, in the attempt
/// that `attempt` names, where the hash for its id is `hashed`, or could not be had
/// for the reason it gives.
pub fn plan_history_purge(
    hashed: Result<Oid, String>,
    attempt: Uuid,
    paths: &Vec<String>,
    history: &Vec<Commit>,
    head: &Option<Head>,
    refs: &Vec<Reference>,
    objects_before: usize,
) -> (r: Result<HistoryPurge, WikiError>)
    ensures
        !all_readable(history_view(history@)) ==> (r matches Err(e) && e.message@
            == unreadable_message()),
        all_readable(history_view(history@)) ==> match hashed {
            Ok(hash) => r matches Ok(plan) && plan.plans(
                hash@,
                attempt@,
                texts(paths@),
                history_view(history@),
                head_view(*head),
                references_view(refs@),
                objects_before,
            ),
            Err(why) => r matches Err(e) && e.message@ == "git purge: "@ + why@,
        },
{
    let doomed_blobs = blobs_reachable_only_through(history, paths)?;
    let purge_id = match hashed {
        Ok(hash) => {
            let head = joined(short_id(&hash).as_str(), "-");
            joined(head.as_str(), attempt.to_text().as_str())
        },
        Err(why) => {
            return Err(WikiError { message: joined("git purge: ", why.as_str()) });
        },
    };
    let scratch = scratch_name(purge_id.as_str());
    let retired = retired_name(purge_id.as_str());
    let rebuild = build_replacement(history, head, refs, paths);
    Ok(HistoryPurge { purge_id, scratch, retired, doomed_blobs, rebuild, objects_before })
}

/// What working out the removal of some paths answers, in the attempt that `attempt`
/// names.
pub open spec fn history_purge_step(
    root: Seq<char>,
    paths: Seq<Seq<char>>,
    commits: Seq<CommitView>,
    head: Option<HeadView>,
    refs: Seq<ReferenceView>,
    objects_before: usize,
    attempt: Seq<u8>,
    r: Result<Option<HistoryPurge>, WikiError>,
) -> bool {
    if !all_readable(commits) {
        r matches Err(e) && e.message@ == unreadable_message()
    } else {
        match blob_id(purge_key(root, objects_before as nat)) {
            Some(hash) => r matches Ok(Some(plan)) && plan.plans(
                hash,
                attempt,
                paths,
                commits,
                head,
                refs,
                objects_before,
            ),
            None => r matches Err(e) && "git purge: "@.is_prefix_of(e.message@),
        }
    }
}

/// Work out the removal of `paths` from every commit of the wiki repository at
/// `root`. Without paths there is nothing to do, and the report is the default one.
///
/// `history` is every commit reachable from a reference or the head, parents
/// first; `objects_before` counts every object of the database. Each call is an
/// attempt of its own, named by a fresh random identifier.
pub fn purge_paths_from_history(
    root: &str,
    paths: &Vec<String>,
    history: &Vec<Commit>,
    head: &Option<Head>,
    refs: &Vec<Reference>,
    objects_before: usize,
) -> (r: Result<Option<HistoryPurge>, WikiError>)
    ensures
        paths@.len() == 0 ==> r matches Ok(None),
        paths@.len() > 0 ==> exists|attempt: Seq<u8>|
            is_random_id(attempt) && #[trigger] history_purge_step(
                root@,
                texts(paths@),
                history_view(history@),
                head_view(*head),
                references_view(refs@),
                objects_before,
                attempt,
                r,
            ),
        paths@.len() > 0 ==> exists|attempt: Uuid|
            call_ensures(Uuid::new_v4, (), attempt) && #[trigger] history_purge_step(
                root@,
                texts(paths@),
                history_view(history@),
                head_view(*head),
                references_view(refs@),
                objects_before,
                attempt@,
                r,
            ),
{
    if paths.len() == 0 {
        return Ok(None);
    }
    let attempt = Uuid::new_v4();
    let hashed = hash_purge_key(root, objects_before);
    let planned = plan_history_purge(hashed, attempt, paths, history, head, refs, objects_before);
    let r: Result<Option<HistoryPurge>, WikiError> = match planned {
        Ok(plan) => Ok(Some(plan)),
        Err(e) => {
            proof {
                if all_readable(history_view(history@)) {
                    assert(e.message@.take("git purge: "@.len() as int) == "git purge: "@);
                }
            }
            Err(e)
        },
    };
    assert(history_purge_step(
        root@,
        texts(paths@),
        history_view(history@),
        head_view(*head),
        references_view(refs@),
        objects_before,
        attempt@,
        r,
    ));
    r
}

impl HistoryPurge {
    /// The report of this purge, once the replacement is installed and the old
    /// repository is gone.
    pub fn report(&self, objects_after: usize) -> (r: GitPurgeReport)
        ensures
            r == (GitPurgeReport {
                commits_rewritten: self.rebuild.commits@.len() as usize,
                objects_before: self.objects_before,
                objects_after,
                blobs_destroyed: self.doomed_blobs@.len() as usize,
                repositories_rebuilt: if self.rebuild.commits@.len() == 0 {
                    0
                } else {
                    1
                },
            }),
    {
        GitPurgeReport {
            commits_rewritten: self.rebuild.commits.len(),
            objects_before: self.objects_before,
            objects_after,
            blobs_destroyed: self.doomed_blobs.len(),
            repositories_rebuilt: if self.rebuild.commits.len() == 0 {
                0
            } else {
                1
            },
        }
    }
}

/// What stands in the wiki's root directory.
#[derive(Debug, Clone)]
pub struct RootEntry {
    pub name: String,
    pub is_directory: bool,
}

/// A name as a purge gives it to its transient directories.
pub open spec fn starts_as_scratch(name: Seq<char>) -> bool {
    scratch_prefix().is_prefix_of(name)
}

/// Picks the directories that belong to a purge.
pub open spec fn is_scratch() -> spec_fn(RootEntry) -> bool {
    |e: RootEntry| e.is_directory && starts_as_scratch(e.name@)
}

/// The names of a list of entries.
pub open spec fn names_of(entries: Seq<RootEntry>) -> Seq<Seq<char>> {
    entries.map_values(|e: RootEntry| e.name@)
}

/// Which of the directories found in the wiki's root belong to a purge.
///
/// None remain after a successful purge; this lets callers assert it rather than
/// rely on it. The journal is a file, and is not listed.
#[must_use]
pub fn leftover_scratch_dirs(entries: &Vec<RootEntry>) -> (out: Vec<String>)
    ensures
        texts(out@) == names_of(entries@.filter(is_scratch())),
{
    let prefix = chars_of(".ai-memory-purge-");
    let ghost all = entries@;
    let ghost pick = is_scratch();
    let mut out: Vec<String> = Vec::new();
    let mut i: usize = 0;
    reveal(Seq::filter);
    assert(all.take(0) == Seq::<RootEntry>::empty());
    assert(texts(out@) == names_of(all.take(0).filter(pick)));
    while i < entries.len()
        invariant
            prefix@ == scratch_prefix(),
            all == entries@,
            pick == is_scratch(),
            i <= entries@.len(),
            texts(out@) == names_of(all.take(i as int).filter(pick)),
        decreases entries@.len() - i,
    {
        let ghost before = out@;
        let ghost kept = all.take(i as int).filter(pick);
        let entry = &entries[i];
        proof {
            reveal(Seq::filter);
            assert(all.take(i + 1).drop_last() == all.take(i as int));
            assert(all.take(i + 1).last() == entry);
            assert(names_of(kept.push(*entry)) == names_of(kept).push(entry.name@));
        }
        if entry.is_directory && begins_with(&chars_of(entry.name.as_str()), &prefix) {
            out.push(entry.name.as_str().to_owned());
            assert(texts(out@) == texts(before).push(entry.name@));
        }
        i = i + 1;
    }
    assert(all.take(all.len() as int) == all);
    out
}

} // verus!
