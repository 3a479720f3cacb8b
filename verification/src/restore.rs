//! Restoring a backup: which archive entries are accepted, when existing data may be
//! overwritten, and when the restored state is safe to serve.

use vstd::prelude::*;

use crate::ledger::RepurgedSession;
use crate::order::texts;
use crate::text::{begins_with, chars_of, decimal, decimal_of, joined, occurs_at, same_text};

verus! {

/// Why a restore was refused.
#[derive(Debug, Clone, PartialEq, Eq)]
pub struct RestoreError {
    pub message: String,
}

/// What an archive entry is.
#[derive(Debug, Clone, Copy, PartialEq, Eq, Structural)]
pub enum EntryKind {
    File,
    Directory,
    Symlink,
    HardLink,
    /// Devices, pipes, extension headers and anything else.
    Other,
}

/// What an archive entry with this type flag is.
pub open spec fn kind_of(flag: u8) -> EntryKind {
    if flag == 0 || flag == 48 {
        EntryKind::File
    } else if flag == 49 {
        EntryKind::HardLink
    } else if flag == 50 {
        EntryKind::Symlink
    } else if flag == 53 {
        EntryKind::Directory
    } else {
        EntryKind::Other
    }
}

/// Calls `tar::EntryType::new`, which reads the type flag of a header: a zero byte
/// or `0` is a regular file, `1` a hard link, `2` a symbolic link and `5` a
/// directory.
#[verifier::external_body]
fn tar_entry_kind(flag: u8) -> (kind: EntryKind)
    ensures
        kind == kind_of(flag),
{
    match tar::EntryType::new(flag) {
        tar::EntryType::Regular => EntryKind::File,
        tar::EntryType::Directory => EntryKind::Directory,
        tar::EntryType::Symlink => EntryKind::Symlink,
        tar::EntryType::Link => EntryKind::HardLink,
        _ => EntryKind::Other,
    }
}

/// How the platform that a backup is restored on reads paths.
#[derive(Debug, Clone, Copy, PartialEq, Eq, Structural)]
pub enum PathStyle {
    /// Segments are separated by `/`.
    Unix,
    /// Segments are separated by `/` or `\`, and a path may start with a drive.
    Windows,
}

/// `c` separates the segments of a path.
pub open spec fn separator(style: PathStyle, c: char) -> bool {
    c == '/' || (style == PathStyle::Windows && c == '\\')
}

/// `part` is a whole segment of the path, at position `i`.
pub open spec fn segment_at(style: PathStyle, path: Seq<char>, part: Seq<char>, i: int) -> bool {
    &&& occurs_at(path, part, i)
    &&& i == 0 || separator(style, path[i - 1])
    &&& i + part.len() == path.len() || separator(style, path[i + part.len()])
}

/// The path starts with a letter and a colon, which is a drive on Windows.
pub open spec fn starts_with_drive(path: Seq<char>) -> bool {
    path.len() >= 2 && ('a' as int <= path[0] as int <= 'z' as int || 'A' as int <= path[0] as int
        <= 'Z' as int) && path[1] == ':'
}

/// A path that could leave the directory it is extracted into: one that starts at a
/// root or with a drive, or one with a `..` segment, or one that starts with a `.`
/// segment. Network and device paths of Windows start with a separator as well.
pub open spec fn unsafe_path(style: PathStyle, path: Seq<char>) -> bool {
    ||| path.len() > 0 && separator(style, path[0])
    ||| style == PathStyle::Windows && starts_with_drive(path)
    ||| exists|i: int| segment_at(style, path, seq!['.', '.'], i)
    ||| segment_at(style, path, seq!['.'], 0)
}

/// A path that a backup holds an entry of this kind for.
pub open spec fn expected_path(path: Seq<char>, kind: EntryKind) -> bool {
    if kind == EntryKind::Directory {
        path == "wiki"@ || "wiki/"@.is_prefix_of(path) || path == "db"@
    } else {
        path == "config.toml"@ || path == "db/memory.sqlite"@ || "wiki/"@.is_prefix_of(path)
    }
}

/// Why an archive entry is refused, if it is.
pub open spec fn entry_refusal(
    style: PathStyle,
    path: Seq<char>,
    kind: EntryKind,
) -> Option<Seq<char>> {
    if unsafe_path(style, path) {
        Some("backup contains unsafe path: "@ + path)
    } else if kind == EntryKind::Symlink || kind == EntryKind::HardLink {
        Some("backup contains unsupported link entry: "@ + path)
    } else if kind == EntryKind::Other {
        Some("backup contains unsupported entry type: "@ + path)
    } else if !expected_path(path, kind) {
        Some("backup contains unexpected path: "@ + path)
    } else {
        None
    }
}

/// Whether a character separates the segments of a path.
fn is_separator(style: PathStyle, c: char) -> (r: bool)
    ensures
        r == separator(style, c),
{
    c == '/' || (style == PathStyle::Windows && c == '\\')
}

/// Whether a segment made of this many dots stands at position `i`.
fn is_segment(style: PathStyle, path: &Vec<char>, dots: usize, i: usize) -> (r: bool)
    requires
        dots == 1 || dots == 2,
        i <= path@.len(),
    ensures
        r == segment_at(
            style,
            path@,
            if dots == 1 {
                seq!['.']
            } else {
                seq!['.', '.']
            },
            i as int,
        ),
{
    let ghost part: Seq<char> = if dots == 1 {
        seq!['.']
    } else {
        seq!['.', '.']
    };
    let total: usize = path.len();
    if total - i < dots {
        return false;
    }
    if path[i] != '.' {
        assert(path@.subrange(i as int, i + part.len())[0] != part[0]);
        return false;
    }
    if dots == 2 && path[i + 1] != '.' {
        assert(path@.subrange(i as int, i + part.len())[1] != part[1]);
        return false;
    }
    assert(path@.subrange(i as int, i + part.len()) == part);
    (i == 0 || is_separator(style, path[i - 1])) && (i + dots == total || is_separator(
        style,
        path[i + dots],
    ))
}

/// Whether a path could leave the directory it is extracted into.
fn leaves_directory(style: PathStyle, path: &Vec<char>) -> (r: bool)
    ensures
        r == unsafe_path(style, path@),
{
    if path.len() > 0 && is_separator(style, path[0]) {
        return true;
    }
    if style == PathStyle::Windows && path.len() >= 2 && path[1] == ':' && (('a' <= path[0]
        && path[0] <= 'z') || ('A' <= path[0] && path[0] <= 'Z')) {
        return true;
    }
    if is_segment(style, path, 1, 0) {
        return true;
    }
    let mut i: usize = 0;
    while i < path.len()
        invariant
            i <= path@.len(),
            forall|j: int| 0 <= j < i ==> !segment_at(style, path@, seq!['.', '.'], j),
        decreases path@.len() - i,
    {
        if is_segment(style, path, 2, i) {
            return true;
        }
        i = i + 1;
    }
    assert forall|j: int| !segment_at(style, path@, seq!['.', '.'], j) by {
        if segment_at(style, path@, seq!['.', '.'], j) {
            assert(j < path@.len());
        }
    }
    false
}

/// Accept an archive entry, by its path and the type flag of its header, or say why
/// not. Nothing is extracted that has not been accepted. `style` is that of the
/// platform that the backup is restored on.
pub fn validate_restore_entry(style: PathStyle, path: &str, type_flag: u8) -> (r: Result<
    (),
    RestoreError,
>)
    ensures
        match entry_refusal(style, path@, kind_of(type_flag)) {
            None => r is Ok,
            Some(m) => r matches Err(e) && e.message@ == m,
        },
{
    let chars = chars_of(path);
    if leaves_directory(style, &chars) {
        return Err(RestoreError { message: joined("backup contains unsafe path: ", path) });
    }
    let kind = tar_entry_kind(type_flag);
    match kind {
        EntryKind::Symlink | EntryKind::HardLink => {
            return Err(
                RestoreError {
                    message: joined("backup contains unsupported link entry: ", path),
                },
            );
        },
        EntryKind::Other => {
            return Err(
                RestoreError {
                    message: joined("backup contains unsupported entry type: ", path),
                },
            );
        },
        EntryKind::File | EntryKind::Directory => {},
    }
    let in_wiki = begins_with(&chars, &chars_of("wiki/"));
    let allowed = match kind {
        EntryKind::Directory => same_text(path, "wiki") || in_wiki || same_text(path, "db"),
        _ => same_text(path, "config.toml") || same_text(path, "db/memory.sqlite") || in_wiki,
    };
    if !allowed {
        return Err(RestoreError { message: joined("backup contains unexpected path: ", path) });
    }
    Ok(())
}

/// What is accepted stays inside: a relative path without `..`, in the places that
/// a backup writes to, and only files and directories.
pub proof fn law_accepted_entries_stay_inside(style: PathStyle, path: Seq<char>, kind: EntryKind)
    requires
        entry_refusal(style, path, kind) is None,
    ensures
        kind == EntryKind::File || kind == EntryKind::Directory,
        path.len() > 0 ==> !separator(style, path[0]),
        style == PathStyle::Windows ==> !starts_with_drive(path),
        forall|i: int| !segment_at(style, path, seq!['.', '.'], i),
        path == "config.toml"@ || path == "db"@ || path == "db/memory.sqlite"@ || path == "wiki"@
            || "wiki/"@.is_prefix_of(path),
{
}

/// Refuse a source that is not there.
pub fn check_source(found: bool, from: &str) -> (r: Result<(), RestoreError>)
    ensures
        r is Ok <==> found,
        r matches Err(e) ==> e.message@ == "source tarball "@ + from@ + " not found"@,
{
    if found {
        Ok(())
    } else {
        let message = joined(joined("source tarball ", from).as_str(), " not found");
        Err(RestoreError { message })
    }
}

/// Whether the wiki and the database that are there have to be dropped first.
/// Existing data is overwritten only when forced.
pub fn clear_before_restore(
    wiki_has_entries: bool,
    db_exists: bool,
    force: bool,
    data_dir: &str,
) -> (r: Result<bool, RestoreError>)
    ensures
        match r {
            Ok(clear) => clear == (wiki_has_entries || db_exists) && (clear ==> force),
            Err(e) => (wiki_has_entries || db_exists) && !force && e.message@
                == "refusing to restore: data dir at "@ + data_dir@
                + " is non-empty (pass --force to overwrite)"@,
        },
{
    if !(wiki_has_entries || db_exists) {
        return Ok(false);
    }
    if !force {
        let message = joined("refusing to restore: data dir at ", data_dir);
        let message = joined(message.as_str(), " is non-empty (pass --force to overwrite)");
        return Err(RestoreError { message });
    }
    Ok(true)
}

/// Refuse a place given for the ledger that holds no database. Naming one is what
/// makes restoring into a fresh directory safe: there is no ledger to carry over.
pub fn check_ledger_source(tombstones_from: Option<&str>, db_found: bool) -> (r: Result<
    (),
    RestoreError,
>)
    ensures
        r is Ok <==> tombstones_from is None || db_found,
        r matches Err(e) ==> (tombstones_from matches Some(from) && e.message@
            == "--tombstones-from "@ + from@
            + " has no db/memory.sqlite to read a tombstone ledger from"@),
{
    match tombstones_from {
        Some(from) if !db_found => {
            let message = joined("--tombstones-from ", from);
            let message = joined(
                message.as_str(),
                " has no db/memory.sqlite to read a tombstone ledger from",
            );
            Err(RestoreError { message })
        },
        _ => Ok(()),
    }
}

/// The wiki paths of all sessions purged again, session by session.
pub open spec fn all_repo_paths(repurged: Seq<RepurgedSession>) -> Seq<Seq<char>>
    decreases repurged.len(),
{
    if repurged.len() == 0 {
        Seq::empty()
    } else {
        all_repo_paths(repurged.drop_last()) + texts(repurged.last().repo_paths@)
    }
}

/// The files to remove from the wiki, and from its history if there are any: they
/// came back with the snapshot as the rows did.
pub fn pages_to_remove(repurged: &Vec<RepurgedSession>) -> (paths: Vec<String>)
    ensures
        texts(paths@) == all_repo_paths(repurged@),
{
    let mut paths: Vec<String> = Vec::new();
    let mut i: usize = 0;
    assert(repurged@.take(0) == Seq::<RepurgedSession>::empty());
    assert(texts(paths@) == Seq::<Seq<char>>::empty());
    while i < repurged.len()
        invariant
            i <= repurged@.len(),
            texts(paths@) == all_repo_paths(repurged@.take(i as int)),
        decreases repurged@.len() - i,
    {
        let session = &repurged[i];
        let ghost start = texts(paths@);
        let ghost more = texts(session.repo_paths@);
        let mut k: usize = 0;
        assert(start + more.take(0) == start);
        while k < session.repo_paths.len()
            invariant
                k <= session.repo_paths@.len(),
                more == texts(session.repo_paths@),
                texts(paths@) == start + more.take(k as int),
            decreases session.repo_paths@.len() - k,
        {
            let ghost before = paths@;
            paths.push(session.repo_paths[k].as_str().to_owned());
            proof {
                assert(texts(paths@) == texts(before).push(more[k as int]));
                assert(start + more.take(k + 1) == (start + more.take(k as int)).push(
                    more[k as int],
                ));
            }
            k = k + 1;
        }
        proof {
            assert(more.take(more.len() as int) == more);
            let upto = repurged@.take(i + 1);
            assert(upto.drop_last() == repurged@.take(i as int));
            assert(upto.last() == session);
        }
        i = i + 1;
    }
    assert(repurged@.take(i as int) == repurged@);
    paths
}

/// The last check of a restore fails closed: reporting success on a state that
/// serves purged sessions would be worse than refusing. Returns how many sessions
/// had to be purged again.
pub fn restore_verdict(still_present: usize, repurged: usize) -> (r: Result<usize, RestoreError>)
    ensures
        r is Ok <==> still_present == 0,
        r matches Ok(n) ==> n == repurged,
        r matches Err(e) ==> e.message@ == "restore aborted: "@ + decimal(still_present as nat)
            + " purged session(s) survive in the restored state. The data directory is NOT safe to serve."@,
{
    if still_present > 0 {
        let message = joined("restore aborted: ", decimal_of(still_present as u64).as_str());
        let message = joined(
            message.as_str(),
            " purged session(s) survive in the restored state. The data directory is NOT safe to serve.",
        );
        return Err(RestoreError { message });
    }
    Ok(repurged)
}

/// What a completed restore prints.
pub open spec fn restore_lines(
    from: Seq<char>,
    data_dir: Seq<char>,
    reapplied: nat,
) -> Seq<Seq<char>> {
    let first = seq!["restored "@ + from + " -> "@ + data_dir];
    if reapplied > 0 {
        first.push(
            "re-purged "@ + decimal(reapplied)
                + " session(s) the tombstone ledger says were deleted"@,
        )
    } else {
        first
    }
}

/// What a completed restore prints, line by line.
pub fn restore_report(from: &str, data_dir: &str, reapplied: usize) -> (lines: Vec<String>)
    ensures
        texts(lines@) == restore_lines(from@, data_dir@, reapplied as nat),
{
    let mut lines: Vec<String> = Vec::new();
    let line = joined("restored ", from);
    let line = joined(line.as_str(), " -> ");
    lines.push(joined(line.as_str(), data_dir));
    assert(texts(lines@) == seq!["restored "@ + from@ + " -> "@ + data_dir@]);
    if reapplied > 0 {
        let ghost before = lines@;
        let line = joined("re-purged ", decimal_of(reapplied as u64).as_str());
        let line = joined(line.as_str(), " session(s) the tombstone ledger says were deleted");
        lines.push(line);
        assert(texts(lines@) == texts(before).push(line@));
    }
    lines
}

} // verus!
