//! Rebuilding a history without doomed paths, and swapping it in.

use ai_memory_purge::git_purge::{
    blobs_reachable_only_through, build_replacement, leftover_scratch_dirs, plan_history_purge,
    purge_paths_from_history, retired_name, scratch_name, verify_replacement, Commit,
    GitPurgeReport, Head, HistoryPurge, PlannedReference, Reference, RootEntry, Signature,
    WikiError,
};
use ai_memory_purge::git_swap::{
    after_build, install_replacement, recover_interrupted_purge, AfterBuild, AfterFailure, Found,
    JournalState, OnFailure, PurgeJournal, Step, SwapAction,
};
use ai_memory_purge::git_tree::{copy_tree_without, Node, Oid, TreeEntry};
use ai_memory_purge::ids::Uuid;

const DOOMED_CANARY: &str = "doomed-canary-4b7e91";
const KEPT_CANARY: &str = "kept-canary-2f8c03";
const FILE_MODE: i32 = 0o100644;
const DIR_MODE: i32 = 0o040000;

fn blob_id(content: &str) -> Oid {
    let id = git2::Oid::hash_object(git2::ObjectType::Blob, content.as_bytes()).unwrap();
    Oid { bytes: <[u8; 20]>::try_from(id.as_bytes()).unwrap() }
}

fn file(name: &str, content: &str) -> TreeEntry {
    TreeEntry {
        name: Some(name.to_string()),
        mode: FILE_MODE,
        node: Node::Blob(blob_id(content)),
    }
}

fn dir(name: &str, entries: Vec<TreeEntry>) -> TreeEntry {
    TreeEntry { name: Some(name.to_string()), mode: DIR_MODE, node: Node::Tree(entries) }
}

fn oid(n: u8) -> Oid {
    Oid { bytes: [n; 20] }
}

fn signature(name: &str, seconds: i64) -> Signature {
    Signature {
        name: name.as_bytes().to_vec(),
        email: b"wiki@example.org".to_vec(),
        seconds,
        offset_minutes: -90,
    }
}

fn commit(id: u8, parents: &[u8], tree: Vec<TreeEntry>) -> Commit {
    Commit {
        id: oid(id),
        parents: parents.iter().map(|p| oid(*p)).collect(),
        tree,
        author: signature("author", i64::from(id)),
        committer: signature("committer", 100 + i64::from(id)),
        message: Some(format!("commit {id}")),
    }
}

/// The branch checked out, at this commit.
fn head(branch: &str, target: u8) -> Option<Head> {
    Some(Head { branch: Some(branch.to_string()), target: oid(target) })
}

fn reference(name: &str, target: u8) -> Reference {
    Reference { name: name.to_string(), target: oid(target) }
}

/// The name of a planned reference, and where it leads.
fn lead(r: &PlannedReference) -> (&str, usize) {
    (r.name.as_str(), r.commit)
}

/// Three commits: the doomed page in two versions, and an unrelated page that must
/// survive in both of its own. Beside it the content of every blob.
fn fixture() -> (Vec<Commit>, Vec<String>) {
    let doomed_1 = format!("v1 {DOOMED_CANARY}");
    let doomed_2 = format!("v2 {DOOMED_CANARY} more");
    let kept_1 = format!("v1 {KEPT_CANARY}");
    let kept_2 = format!("v2 {KEPT_CANARY} more");
    let tree = |kept: &str, doomed: &str| {
        vec![
            dir("notes", vec![file("keep.md", kept)]),
            dir("sessions", vec![file("doomed.md", doomed)]),
        ]
    };
    let history = vec![
        commit(1, &[], tree(&kept_1, &doomed_1)),
        commit(2, &[1], tree(&kept_1, &doomed_2)),
        commit(3, &[2], tree(&kept_2, &doomed_2)),
    ];
    (history, vec![doomed_1, doomed_2, kept_1, kept_2])
}

fn doomed_paths() -> Vec<String> {
    vec!["sessions/doomed.md".to_string()]
}

fn collect_blobs(tree: &[TreeEntry], out: &mut Vec<Oid>) {
    for entry in tree {
        match &entry.node {
            Node::Tree(sub) => collect_blobs(sub, out),
            Node::Blob(id) => out.push(*id),
            Node::Other(_) => {}
        }
    }
}

/// Whether some blob of the rebuilt history holds the canary.
fn canary_in_rebuild(plan: &HistoryPurge, contents: &[String], canary: &str) -> bool {
    let mut ids = Vec::new();
    for c in &plan.rebuild.commits {
        collect_blobs(&c.tree, &mut ids);
    }
    contents.iter().any(|c| c.contains(canary) && ids.contains(&blob_id(c)))
}

fn find<'a>(tree: &'a [TreeEntry], path: &str) -> Option<&'a Node> {
    let (first, rest) = match path.split_once('/') {
        Some((first, rest)) => (first, Some(rest)),
        None => (path, None),
    };
    let entry = tree.iter().find(|e| e.name.as_deref() == Some(first))?;
    match (rest, &entry.node) {
        (None, node) => Some(node),
        (Some(rest), Node::Tree(sub)) => find(sub, rest),
        (Some(_), _) => None,
    }
}

fn plan_for(history: &Vec<Commit>, objects: usize) -> HistoryPurge {
    let tip = u8::try_from(history.len()).unwrap();
    let refs = vec![reference("refs/heads/main", tip)];
    purge_paths_from_history(
        "/data/wiki",
        &doomed_paths(),
        history,
        &head("main", tip),
        &refs,
        objects,
    )
    .unwrap()
    .unwrap()
}

#[test]
fn purge_destroys_every_historical_version_of_the_path() {
    let (history, contents) = fixture();
    let plan = plan_for(&history, 15);
    let report = plan.report(11);

    assert_eq!(report.repositories_rebuilt, 1);
    assert_eq!(report.commits_rewritten, 3, "history is preserved, not squashed");
    assert_eq!(
        report.blobs_destroyed, 2,
        "both versions of the doomed page must be destroyed"
    );
    assert_eq!(report.objects_before, 15);
    assert_eq!(report.objects_after, 11);
    assert!(
        !canary_in_rebuild(&plan, &contents, DOOMED_CANARY),
        "the doomed canary must not survive in ANY object, reachable or not"
    );
    assert!(
        canary_in_rebuild(&plan, &contents, KEPT_CANARY),
        "the unrelated page must survive"
    );
    assert!(plan.doomed_blobs.contains(&blob_id(&contents[0])));
    assert!(plan.doomed_blobs.contains(&blob_id(&contents[1])));
}

#[test]
fn purge_preserves_history_and_the_surviving_pages_content() {
    let (history, contents) = fixture();
    let plan = plan_for(&history, 15);
    assert_eq!(plan.rebuild.commits.len(), 3, "commit history survives the rewrite");
    let parents: Vec<Vec<usize>> =
        plan.rebuild.commits.iter().map(|c| c.parents.clone()).collect();
    assert_eq!(parents, vec![vec![], vec![0], vec![1]]);
    assert_eq!(plan.rebuild.head.as_ref().map(lead), Some(("refs/heads/main", 2)));
    assert!(plan.rebuild.references.is_empty());
    for (old, new) in history.iter().zip(&plan.rebuild.commits) {
        assert_eq!(new.author, old.author);
        assert_eq!(new.committer, old.committer);
        assert_eq!(Some(&new.message), old.message.as_ref());
    }

    let kept_at = |i: usize| match find(&plan.rebuild.commits[i].tree, "notes/keep.md") {
        Some(Node::Blob(id)) => *id,
        other => panic!("{other:?}"),
    };
    assert_eq!(kept_at(0), blob_id(&contents[2]));
    assert_eq!(kept_at(2), blob_id(&contents[3]));
    assert!(contents[3].contains("v2"));
    for c in &plan.rebuild.commits {
        assert!(find(&c.tree, "sessions/doomed.md").is_none());
    }
}

#[test]
fn purge_spares_a_blob_shared_with_a_surviving_page() {
    let shared = "identical body shared by two pages";
    let history = vec![commit(
        1,
        &[],
        vec![
            dir("notes", vec![file("keep.md", shared)]),
            dir("sessions", vec![file("doomed.md", shared)]),
        ],
    )];
    let plan = plan_for(&history, 5);
    assert_eq!(
        plan.report(4).blobs_destroyed, 0,
        "a blob the surviving page also uses must be spared"
    );
    let tree = &plan.rebuild.commits[0].tree;
    assert!(find(tree, "sessions/doomed.md").is_none());
    match find(tree, "notes/keep.md") {
        Some(Node::Blob(id)) => assert_eq!(
            *id,
            blob_id(shared),
            "the surviving page must still resolve its content"
        ),
        other => panic!("{other:?}"),
    }
}

#[test]
fn purge_drops_directories_it_empties() {
    let (history, _) = fixture();
    let plan = plan_for(&history, 15);
    assert!(
        find(&plan.rebuild.commits[2].tree, "sessions").is_none(),
        "the emptied directory must be gone, not left as an empty tree"
    );
    let nested = vec![
        dir("a", vec![dir("b", vec![dir("c", vec![file("x.md", "x")])])]),
        file("y.md", "y"),
    ];
    let left = copy_tree_without(&nested, "", &vec!["a/b/c/x.md".to_string()]);
    assert_eq!(left.len(), 1);
    assert_eq!(left[0].name.as_deref(), Some("y.md"));
}

#[test]
fn purging_nothing_is_a_no_op() {
    let (history, _) = fixture();
    let plan =
        purge_paths_from_history(
            "/data/wiki",
            &Vec::new(),
            &history,
            &head("main", 3),
            &Vec::new(),
            15,
        )
        .unwrap();
    assert!(plan.is_none());
    assert_eq!(
        GitPurgeReport::default(),
        GitPurgeReport {
            commits_rewritten: 0,
            objects_before: 0,
            objects_after: 0,
            blobs_destroyed: 0,
            repositories_rebuilt: 0,
        }
    );
}

#[test]
fn every_attempt_has_an_id_of_its_own() {
    let (history, _) = fixture();
    let plan = plan_for(&history, 15);
    let hash =
        git2::Oid::hash_object(git2::ObjectType::Blob, b"/data/wiki-15").unwrap().to_string();
    let (head, attempt) = plan.purge_id.split_at(16);
    assert_eq!(head, &hash[..16]);
    let attempt = uuid::Uuid::parse_str(attempt.strip_prefix('-').unwrap()).unwrap();
    assert_eq!(attempt.get_version_num(), 4);
    assert_eq!(plan.scratch, format!(".ai-memory-purge-new-{}", plan.purge_id));
    assert_eq!(plan.retired, format!(".ai-memory-purge-old-{}", plan.purge_id));
    // Also on an unchanged repository.
    let again = plan_for(&history, 15);
    assert_eq!(again.purge_id[..16], plan.purge_id[..16]);
    assert_ne!(again.purge_id, plan.purge_id);
    assert_ne!(again.scratch, plan.scratch);
    assert_ne!(plan_for(&history, 16).purge_id[..16], plan.purge_id[..16]);
}

#[test]
fn a_purge_is_planned_for_a_given_hash_and_attempt() {
    let (history, contents) = fixture();
    let hashed = Oid { bytes: [0xab; 20] };
    let main = head("main", 3);
    let attempt = Uuid { bytes: [7; 16] };
    let plan = plan_history_purge(
        Ok(hashed),
        attempt,
        &doomed_paths(),
        &history,
        &main,
        &Vec::new(),
        15,
    )
    .unwrap();
    assert_eq!(plan.purge_id, "abababababababab-07070707-0707-0707-0707-070707070707");
    assert_eq!(plan.scratch, scratch_name(&plan.purge_id));
    assert_eq!(plan.retired, retired_name(&plan.purge_id));
    assert_eq!(plan.objects_before, 15);
    assert_eq!(plan.doomed_blobs, vec![blob_id(&contents[0]), blob_id(&contents[1])]);
    assert_eq!(plan.rebuild.commits.len(), 3);

    let refused = Err("collision".to_string());
    let err = plan_history_purge(
        refused,
        attempt,
        &doomed_paths(),
        &history,
        &main,
        &Vec::new(),
        15,
    )
    .unwrap_err();
    assert_eq!(err.message, "git purge: collision");
}

#[test]
fn a_history_without_a_branch_name_gets_main() {
    let (history, _) = fixture();
    let rebuild = build_replacement(&history, &None, &Vec::new(), &doomed_paths());
    assert_eq!(rebuild.head.as_ref().map(lead), Some(("refs/heads/main", 2)));
    let unnamed = Some(Head { branch: None, target: oid(2) });
    let rebuild = build_replacement(&history, &unnamed, &Vec::new(), &doomed_paths());
    assert_eq!(rebuild.head.as_ref().map(lead), Some(("refs/heads/main", 1)));
    // A head that leads outside the history is pointed at its last commit.
    let rebuild = build_replacement(&history, &head("x", 9), &Vec::new(), &doomed_paths());
    assert_eq!(rebuild.head.as_ref().map(lead), Some(("refs/heads/x", 2)));
    let refs = vec![reference("refs/heads/x", 9)];
    let empty = build_replacement(&Vec::new(), &head("trunk", 1), &refs, &doomed_paths());
    assert!(empty.head.is_none());
    assert!(empty.references.is_empty());
    assert!(empty.commits.is_empty());
}

#[test]
fn a_repository_without_commits_is_not_rebuilt() {
    let plan =
        purge_paths_from_history("/w", &doomed_paths(), &Vec::new(), &None, &Vec::new(), 0)
            .unwrap()
            .unwrap();
    let report = plan.report(0);
    assert_eq!(report.repositories_rebuilt, 0);
    assert_eq!(report.commits_rewritten, 0);
    assert_eq!(report.blobs_destroyed, 0);
}

#[test]
fn every_branch_leads_where_it_led() {
    // main: 1 - 2 - 4, aside: 1 - 3; the commit of `aside` is the last one listed.
    let history = vec![
        commit(1, &[], vec![file("a", "a")]),
        commit(2, &[1], vec![file("a", "b")]),
        commit(4, &[2], vec![file("a", "d")]),
        commit(3, &[1], vec![file("a", "c")]),
    ];
    let refs = vec![
        reference("refs/heads/aside", 3),
        reference("refs/heads/main", 4),
        reference("refs/tags/first", 1),
        reference("refs/tags/elsewhere", 99),
    ];
    let rebuild = build_replacement(&history, &head("main", 4), &refs, &doomed_paths());
    assert_eq!(rebuild.head.as_ref().map(lead), Some(("refs/heads/main", 2)));
    let leads: Vec<(&str, usize)> = rebuild.references.iter().map(lead).collect();
    assert_eq!(leads, vec![("refs/heads/aside", 3), ("refs/tags/first", 0)]);

    let reached = |tip: usize| {
        let (mut n, mut at) = (1, tip);
        while let Some(parent) = rebuild.commits[at].parents.first() {
            at = *parent;
            n += 1;
        }
        n
    };
    assert_eq!(reached(2), 3, "the head reaches as many commits as before");
    assert_eq!(reached(3), 2);
}

#[test]
fn a_message_that_cannot_be_read_becomes_empty() {
    let mut history = vec![commit(1, &[], vec![file("a", "a")])];
    history[0].message = None;
    history[0].author.name = vec![0xff];
    let rebuild = build_replacement(&history, &None, &Vec::new(), &doomed_paths());
    assert_eq!(rebuild.commits[0].message, "");
    assert_eq!(rebuild.commits[0].author.name, vec![0xff]);
}

#[test]
fn a_doomed_directory_goes_with_everything_in_it() {
    let doomed = vec!["sessions".to_string()];
    let tree = vec![dir("sessions", vec![file("a.md", "a")])];
    assert!(copy_tree_without(&tree, "", &doomed).is_empty());

    let shared = dir("notes", vec![file("keep.md", "shared")]);
    let inner = dir("sub", vec![file("b.md", "only"), file("c.md", "shared")]);
    let history = vec![commit(1, &[], vec![shared, dir("sessions", vec![inner])])];
    assert_eq!(
        blobs_reachable_only_through(&history, &doomed).unwrap(),
        vec![blob_id("only")]
    );
    let plan =
        purge_paths_from_history("/w", &doomed, &history, &head("main", 1), &Vec::new(), 6)
            .unwrap()
            .unwrap();
    let left = &plan.rebuild.commits[0].tree;
    assert!(find(left, "sessions").is_none());
    assert!(find(left, "notes/keep.md").is_some());
    let rebuilt = vec![commit(1, &[], copy_tree_without(left, "", &Vec::new()))];
    let objects = vec![blob_id("shared")];
    assert!(verify_replacement(&rebuilt, &objects, &doomed, &plan.doomed_blobs).is_ok());
}

#[test]
fn merges_keep_all_their_known_parents() {
    let history = vec![
        commit(1, &[], vec![file("a", "a")]),
        commit(2, &[1], vec![file("a", "b")]),
        commit(3, &[1, 99], vec![file("a", "c")]),
        commit(4, &[3, 2], vec![file("a", "d")]),
    ];
    let rebuild = build_replacement(&history, &head("main", 4), &Vec::new(), &doomed_paths());
    let parents: Vec<Vec<usize>> = rebuild.commits.iter().map(|c| c.parents.clone()).collect();
    assert_eq!(parents, vec![vec![], vec![0], vec![0], vec![2, 1]]);
}

#[test]
fn unreadable_names_are_dropped_and_unreadable_directories_refused() {
    let unnamed = TreeEntry { name: None, mode: FILE_MODE, node: Node::Blob(blob_id("n")) };
    let left = copy_tree_without(&vec![unnamed, file("a", "a")], "", &Vec::new());
    assert_eq!(left.len(), 1);

    let hidden =
        TreeEntry { name: None, mode: DIR_MODE, node: Node::Tree(vec![file("x", "x")]) };
    let history = vec![commit(1, &[], vec![hidden])];
    let err = blobs_reachable_only_through(&history, &doomed_paths()).unwrap_err();
    assert_eq!(err.message, "git purge: a directory name is not UTF-8");
    let err = purge_paths_from_history(
        "/w",
        &doomed_paths(),
        &history,
        &None,
        &Vec::new(),
        1,
    )
    .unwrap_err();
    assert_eq!(err.message, "git purge: a directory name is not UTF-8");
}

#[test]
fn submodules_are_carried_by_id() {
    let module = TreeEntry {
        name: Some("module".to_string()),
        mode: 0o160000,
        node: Node::Other(Oid { bytes: [9; 20] }),
    };
    let tree = vec![module];
    assert!(copy_tree_without(&tree, "", &vec!["module".to_string()]).is_empty());
    let left = copy_tree_without(&tree, "", &doomed_paths());
    assert!(matches!(left[0].node, Node::Other(Oid { bytes }) if bytes == [9; 20]));
    assert_eq!(left[0].mode, 0o160000);
}

#[test]
fn verification_accepts_the_rebuild_and_refuses_the_old_history() {
    let (history, contents) = fixture();
    let plan = plan_for(&history, 15);
    let mut rebuilt = Vec::new();
    let mut objects = Vec::new();
    for (i, c) in plan.rebuild.commits.iter().enumerate() {
        collect_blobs(&c.tree, &mut objects);
        rebuilt.push(commit(40 + i as u8, &[], copy_tree_without(&c.tree, "", &Vec::new())));
    }
    assert!(verify_replacement(&rebuilt, &objects, &doomed_paths(), &plan.doomed_blobs).is_ok());

    let err =
        verify_replacement(&history, &objects, &doomed_paths(), &plan.doomed_blobs).unwrap_err();
    assert_eq!(
        err.message,
        format!(
            "git purge: rebuilt history still contains sessions/doomed.md at commit {}",
            "01".repeat(20)
        )
    );

    // A dangling object is found though no commit refers to it.
    let stray = blob_id(&contents[1]);
    objects.push(stray);
    let err =
        verify_replacement(&rebuilt, &objects, &doomed_paths(), &plan.doomed_blobs).unwrap_err();
    let hex = git2::Oid::from_bytes(&stray.bytes).unwrap().to_string();
    assert_eq!(
        err.message,
        format!("git purge: rebuilt object database still contains purged blob {hex}")
    );

    // A doomed path that names a directory counts as well.
    let dirs = vec![commit(1, &[], vec![dir("sessions", vec![file("other.md", "o")])])];
    let doomed = vec!["sessions".to_string()];
    let err = verify_replacement(&dirs, &Vec::new(), &doomed, &Vec::new()).unwrap_err();
    assert_eq!(
        err.message,
        format!(
            "git purge: rebuilt history still contains sessions at commit {}",
            "01".repeat(20)
        )
    );
}

/// The wiki's root directory: which history each place holds.
#[derive(Debug, Clone, PartialEq)]
struct Disk {
    live: Option<&'static str>,
    scratch: bool,
    new: Option<&'static str>,
    retired: Option<&'static str>,
    journal: Option<JournalState>,
}

impl Disk {
    fn built() -> Disk {
        Disk { live: Some("old"), scratch: true, new: Some("rebuilt"), retired: None, journal: None }
    }

    fn clean(live: &'static str) -> Disk {
        Disk { live: Some(live), scratch: false, new: None, retired: None, journal: None }
    }

    fn perform(&mut self, action: SwapAction) {
        match action {
            SwapAction::WriteJournal(state) => self.journal = Some(state),
            SwapAction::RetireLive => self.retired = self.live.take(),
            SwapAction::InstallNew => self.live = self.new.take(),
            SwapAction::RestoreRetired => self.live = self.retired.take(),
            SwapAction::RemoveRetired => self.retired = None,
            SwapAction::RemoveScratch => {
                self.scratch = false;
                self.new = None;
            }
            SwapAction::RemoveJournal => self.journal = None,
        }
    }

    fn journal_file(&self, id: &str) -> Option<PurgeJournal> {
        self.journal.map(|state| PurgeJournal {
            purge_id: id.to_string(),
            paths: doomed_paths(),
            state,
        })
    }

    fn found(&self) -> Found {
        Found {
            live: self.live.is_some(),
            new: self.new.is_some(),
            retired: self.retired.is_some(),
        }
    }

    /// What a look into the root directory of a wiki shows, while purge `id` runs.
    fn entries(&self, id: &str) -> Vec<RootEntry> {
        let mut found = vec![root_entry("notes", true)];
        if self.live.is_some() {
            found.push(root_entry(".git", true));
        }
        if self.scratch {
            found.push(root_entry(&scratch_name(id), true));
        }
        if self.retired.is_some() {
            found.push(root_entry(&retired_name(id), true));
        }
        if self.journal.is_some() {
            found.push(root_entry(".ai-memory-purge-journal.json", false));
        }
        found
    }

    /// Recover, and say what recovery reported.
    fn recover(&mut self) -> Result<bool, String> {
        let journal = self.journal_file("deadbeefdeadbeef");
        let recovery = recover_interrupted_purge(journal.as_ref(), self.found());
        for step in &recovery.steps {
            self.perform(step.action);
        }
        recovery.outcome.map_err(|e| e.message)
    }
}

fn root_entry(name: &str, is_directory: bool) -> RootEntry {
    RootEntry { name: name.to_string(), is_directory }
}

#[test]
fn purge_leaves_no_scratch_or_retired_directory_behind() {
    let (history, _) = fixture();
    let plan = plan_for(&history, 15);
    let mut disk = Disk::built();
    assert_eq!(leftover_scratch_dirs(&disk.entries(&plan.purge_id)), vec![plan.scratch.clone()]);
    for (k, step) in install_replacement().iter().enumerate() {
        disk.perform(step.action);
        if k == 2 {
            assert_eq!(
                leftover_scratch_dirs(&disk.entries(&plan.purge_id)),
                vec![plan.scratch.clone(), plan.retired.clone()]
            );
        }
    }
    assert_eq!(disk, Disk::clean("rebuilt"));
    assert_eq!(
        leftover_scratch_dirs(&disk.entries(&plan.purge_id)),
        Vec::<String>::new(),
        "no quarantine copy, .bak, or swap directory may remain"
    );
}

#[test]
fn leftovers_are_directories_with_the_prefix() {
    let entries: Vec<RootEntry> = [
        ".git",
        ".ai-memory-purge-new-abc",
        "x.ai-memory-purge-",
        ".ai-memory-purge-old-abc",
        ".ai-memory-purge",
    ]
    .iter()
    .map(|s| root_entry(s, true))
    .collect();
    assert_eq!(
        leftover_scratch_dirs(&entries),
        vec![scratch_name("abc"), retired_name("abc")]
    );
    let journal =
        vec![root_entry(".ai-memory-purge-journal.json", false), root_entry("notes", true)];
    assert_eq!(leftover_scratch_dirs(&journal), Vec::<String>::new());
}

#[test]
fn recovery_finishes_a_swap_interrupted_after_the_old_repo_moved() {
    let mut disk = Disk::built();
    for step in install_replacement().iter().take(3) {
        disk.perform(step.action);
    }
    assert_eq!(disk.live, None);
    assert_eq!(disk.journal, Some(JournalState::Swapping));

    assert_eq!(disk.recover(), Ok(true));
    assert!(disk.live.is_some(), "the wiki must have a repo again");
    assert_eq!(
        disk,
        Disk::clean("rebuilt"),
        "recovery must converge on the PURGED state, not restore the old history"
    );
}

#[test]
fn recovery_finishes_a_swap_interrupted_before_its_first_rename() {
    let mut disk = Disk::built();
    for step in install_replacement().iter().take(2) {
        disk.perform(step.action);
    }
    assert_eq!(disk.live, Some("old"));
    assert_eq!(disk.journal, Some(JournalState::Swapping));
    let journal = disk.journal_file("deadbeefdeadbeef");
    let recovery = recover_interrupted_purge(journal.as_ref(), disk.found());
    let actions: Vec<SwapAction> = recovery.steps.iter().map(|s| s.action).collect();
    assert_eq!(
        actions,
        vec![
            SwapAction::RetireLive,
            SwapAction::InstallNew,
            SwapAction::RemoveRetired,
            SwapAction::RemoveScratch,
            SwapAction::RemoveJournal,
        ]
    );
    assert_eq!(
        recovery.steps[0].on_failure,
        OnFailure::Fail("retiring old .git during recovery".to_string())
    );
    assert_eq!(disk.recover(), Ok(true));
    assert_eq!(disk, Disk::clean("rebuilt"));
}

#[test]
fn recovery_rolls_back_a_purge_interrupted_before_the_swap() {
    let mut disk = Disk::clean("old");
    disk.scratch = true;
    disk.journal = Some(JournalState::Prepared);
    assert_eq!(disk.recover(), Ok(true));
    assert_eq!(
        disk,
        Disk::clean("old"),
        "an unverified replacement must not be installed by recovery"
    );
}

#[test]
fn recovery_is_a_no_op_without_a_journal() {
    let mut disk = Disk::clean("old");
    assert_eq!(disk.recover(), Ok(false));
    assert_eq!(disk, Disk::clean("old"));
}

#[test]
fn every_interruption_is_resolved() {
    let steps = install_replacement();
    for k in 1..steps.len() {
        let mut disk = Disk::built();
        for step in steps.iter().take(k) {
            disk.perform(step.action);
        }
        let expected = if k >= 2 { "rebuilt" } else { "old" };
        // Recovery may itself be interrupted, after any number of its steps.
        let journal = disk.journal_file("deadbeefdeadbeef");
        let recovery = recover_interrupted_purge(journal.as_ref(), disk.found());
        for m in 0..=recovery.steps.len() {
            let mut again = disk.clone();
            for step in recovery.steps.iter().take(m) {
                again.perform(step.action);
            }
            assert_eq!(again.recover(), Ok(m < recovery.steps.len()));
            assert_eq!(again, Disk::clean(expected), "after {k} steps and {m} of recovery");
        }
    }
}

#[test]
fn a_lost_replacement_is_reported() {
    let mut disk = Disk::clean("old");
    disk.live = None;
    disk.retired = Some("old");
    disk.journal = Some(JournalState::Swapping);
    assert_eq!(
        disk.recover(),
        Err("git purge: interrupted before the rebuilt repository was installed; \
             the purge must be re-run"
            .to_string())
    );
    assert_eq!(disk, Disk::clean("old"));
}

#[test]
fn recovery_names_the_directories_of_the_journal() {
    let journal = PurgeJournal {
        purge_id: "abc123".to_string(),
        paths: doomed_paths(),
        state: JournalState::Prepared,
    };
    let found = Found { live: true, new: false, retired: false };
    let recovery = recover_interrupted_purge(Some(&journal), found);
    assert_eq!(recovery.scratch.as_deref(), Some(".ai-memory-purge-new-abc123"));
    assert_eq!(recovery.retired.as_deref(), Some(".ai-memory-purge-old-abc123"));
}

#[test]
fn a_failed_install_puts_the_old_repository_back() {
    let steps = install_replacement();
    assert_eq!(steps[3].action, SwapAction::InstallNew);
    let mut disk = Disk::built();
    for step in steps.iter().take(3) {
        disk.perform(step.action);
    }
    match steps[3].after_failure("disk full") {
        AfterFailure::Stop(cleanup, error) => {
            assert_eq!(error.message, "git purge: installing rebuilt .git: disk full");
            for action in cleanup {
                disk.perform(action);
            }
        }
        AfterFailure::Continue => panic!("must stop"),
    }
    assert_eq!(disk, Disk::clean("old"));
}

#[test]
fn an_unverified_replacement_is_not_installed() {
    let mut disk = Disk::built();
    match after_build(Err(WikiError { message: "still there".to_string() })) {
        AfterBuild::GiveUp(cleanup, error) => {
            assert_eq!(error.message, "still there");
            for action in cleanup {
                disk.perform(action);
            }
        }
        AfterBuild::Install(_) => panic!("must give up"),
    }
    assert_eq!(disk, Disk::clean("old"));
    match after_build(Ok(())) {
        AfterBuild::Install(steps) => assert_eq!(steps, install_replacement()),
        AfterBuild::GiveUp(_, e) => panic!("{e:?}"),
    }
}

#[test]
fn failures_are_reported_as_their_steps_say() {
    let steps = install_replacement();
    let message = |step: &Step| match step.after_failure("x") {
        AfterFailure::Stop(_, e) => Some(e.message),
        AfterFailure::Continue => None,
    };
    let messages: Vec<Option<String>> = steps.iter().map(message).collect();
    assert_eq!(
        messages,
        vec![
            Some("git purge: x".to_string()),
            Some("git purge: x".to_string()),
            Some("git purge: retiring old .git: x".to_string()),
            Some("git purge: installing rebuilt .git: x".to_string()),
            Some("git purge: removing retired .git: x".to_string()),
            None,
            Some("git purge: removing purge journal: x".to_string()),
        ]
    );
    let step = Step {
        action: SwapAction::RemoveScratch,
        on_failure: OnFailure::Fail("ctx".to_string()),
    };
    assert_eq!(message(&step).as_deref(), Some("git purge: ctx: x"));
}

#[test]
fn pruning_twice_changes_nothing_more() {
    let (history, _) = fixture();
    let once = copy_tree_without(&history[1].tree, "", &doomed_paths());
    let twice = copy_tree_without(&once, "", &doomed_paths());
    assert_eq!(format!("{once:?}"), format!("{twice:?}"));
    let untouched = copy_tree_without(&history[1].tree, "", &vec!["other.md".to_string()]);
    assert_eq!(format!("{untouched:?}"), format!("{:?}", history[1].tree));
}
