//! What each operation on logs, backups, stored values and printed text answers, said of its
//! arguments and its result alone.

use vstd::prelude::*;

use crate::chat::{law_effort_labels_differ, law_role_labels_differ, ReasoningEffort, Role};
use crate::clock::Timestamp;
use crate::command_laws::{
    blank, is_core, law_receipts_are_told_in_full, law_trimming_takes_the_space_around, printed_if,
};
use crate::error::StoreError;
use crate::git_purge::{oid_listed, oids};
use crate::git_tree::{path_listed, Oid};
use crate::ids::{hyphenated, names_uuid, ProjectId, SessionId, WorkspaceId};
use crate::ledger::RepurgedSession;
use crate::log_laws::{
    closed, holds_anonymous, law_a_body_loses_its_marked_lines, law_counted_lines_are_gone,
    law_log_outcomes_add_up, law_logs_are_named_so, marked, names_log,
};
use crate::log_purge::{
    change_of, file_change, is_log_name, log_name, purge_session_lines, reported, session_marker,
    total_removed, Change, LogChange, LogFile, LogPurge, LogPurgeOutcome,
};
use crate::order::{before, sorts_before, texts};
use crate::purge_command::{
    layer_lines, prepare_request, printed, quoted, receipt_output, total_removed_rows, total_rows,
    trim_text, trimmed, CommandError, LayerCount, OutputLine, Printed, PurgeSessionRequest,
    ReceiptSummary, SpoolSweep,
};
use crate::restore::{
    check_ledger_source, check_source, clear_before_restore, pages_to_remove, restore_report,
    restore_verdict, validate_restore_entry, PathStyle, RestoreError,
};
use crate::restore_laws::{
    law_backups_are_accepted_whole, law_pages_to_remove_add_up, law_restore_says_what_it_did,
    ordinary,
};
use crate::session_purge::SessionPurgeStatus;
use crate::text::{decimal, decimal_of, lines_of, split_lines};
use crate::text_laws::{
    law_numbers_read_back, law_texts_are_ordered_where_they_part, parts_at, read_number,
};

verus! {

/// The marker of a session, and which files are monthly logs.
pub proof fn law_markers_and_names(session_id: SessionId, s: String, name: &str, is_log: bool)
    requires
        call_ensures(session_marker, (session_id,), s),
        call_ensures(is_log_name, (name,), is_log),
    ensures
        s@ == "<!-- ai-memory:session="@ + hyphenated(session_id.bytes@) + " -->"@,
        is_log == names_log(name@),
{
    law_logs_are_named_so(name@);
}

/// What becomes of a file with this name and body. One that is no monthly log stays. A log
/// with an anonymous entry stays or, forced, is removed. Any other that has lines of the
/// session is written anew with its other lines; and one that has none stays.
pub open spec fn changes_to(
    name: Seq<char>,
    body: Seq<char>,
    session: Seq<u8>,
    force: bool,
    change: LogChange,
) -> bool {
    let lines = lines_of(body);
    if !names_log(name) {
        change is Keep
    } else if holds_anonymous(lines, session) {
        if force {
            change is Remove
        } else {
            change is Keep
        }
    } else if exists|k: int| 0 <= k < lines.len() && marked(#[trigger] lines[k], session) {
        change matches LogChange::Rewrite(text) && text@ == closed(
            lines.filter(|l: Seq<char>| !marked(l, session)),
        )
    } else {
        change is Keep
    }
}

/// How many lines of the session are taken out of a file with this name and body.
pub open spec fn taken_from(
    name: Seq<char>,
    body: Seq<char>,
    session: Seq<u8>,
    force: bool,
) -> nat {
    if names_log(name) && (force || !holds_anonymous(lines_of(body), session)) {
        lines_of(body).filter(|l: Seq<char>| marked(l, session)).len()
    } else {
        0
    }
}

/// Visiting a file decides what becomes of it by its name and its lines, adds the lines
/// that are taken out to the count, and reports the name of a log that is left intact for
/// its anonymous entries.
pub proof fn law_visit(purge: &mut LogPurge, name: &str, body: &str, change: LogChange)
    requires
        call_ensures(LogPurge::visit, (purge, name, body), change),
    ensures
        ({
            let session = old(purge).session_id.bytes@;
            let force = old(purge).force;
            let intact = names_log(name@) && !force && holds_anonymous(lines_of(body@), session);
            &&& changes_to(name@, body@, session, force, change)
            &&& final(purge).session_id == old(purge).session_id
            &&& final(purge).force == force
            &&& final(purge).outcome.removed == old(purge).outcome.removed + taken_from(
                name@,
                body@,
                session,
                force,
            )
            &&& texts(final(purge).outcome.unattributed_files@).to_multiset() == if intact {
                texts(old(purge).outcome.unattributed_files@).to_multiset().insert(name@)
            } else {
                texts(old(purge).outcome.unattributed_files@).to_multiset()
            }
        }),
{
    let session = old(purge).session_id@;
    let force = old(purge).force;
    law_logs_are_named_so(name@);
    law_counted_lines_are_gone(body@, session, force);
    lemma_change(name@, body@, session, force, change);
}

proof fn lemma_change(
    name: Seq<char>,
    body: Seq<char>,
    session: Seq<u8>,
    force: bool,
    change: LogChange,
)
    requires
        change@ == if log_name(name) {
            change_of(body, session, force)
        } else {
            Change::Keep
        },
    ensures
        changes_to(name, body, session, force, change),
{
    law_a_body_loses_its_marked_lines(body, session, force);
    law_logs_are_named_so(name);
}

/// The lines taken out of all files.
pub open spec fn taken_from_all(files: Seq<LogFile>, session: Seq<u8>, force: bool) -> nat
    decreases files.len(),
{
    if files.len() == 0 {
        0
    } else {
        taken_from(files[0].name@, files[0].body@, session, force) + taken_from_all(
            files.drop_first(),
            session,
            force,
        )
    }
}

/// The names of the logs that are left intact for their anonymous entries, in their order.
pub open spec fn left_intact(files: Seq<LogFile>, session: Seq<u8>, force: bool) -> Seq<Seq<char>>
    decreases files.len(),
{
    if files.len() == 0 {
        Seq::empty()
    } else {
        (if names_log(files[0].name@) && !force && holds_anonymous(
            lines_of(files[0].body@),
            session,
        ) {
            seq![files[0].name@]
        } else {
            Seq::empty()
        }) + left_intact(files.drop_first(), session, force)
    }
}

proof fn lemma_outcome(files: Seq<LogFile>, session: Seq<u8>, force: bool)
    ensures
        total_removed(files, session, force) == taken_from_all(files, session, force),
        reported(files, session, force) == left_intact(files, session, force),
    decreases files.len(),
{
    let none = Seq::<LogFile>::empty();
    if files.len() == 0 {
        law_log_outcomes_add_up(files, none, session, force);
    } else {
        let rest = files.drop_first();
        let one = seq![files[0]];
        lemma_outcome(rest, session, force);
        law_log_outcomes_add_up(one, rest, session, force);
        assert(one + rest == files);
    }
}

/// Purging a list of files decides of each by its name and its lines, counts the lines that
/// are taken out of all, and reports, in order, the logs that are left intact.
pub proof fn law_purge_session_lines(
    files: &Vec<LogFile>,
    session_id: SessionId,
    force: bool,
    r: (Vec<LogChange>, LogPurgeOutcome),
    i: int,
)
    requires
        call_ensures(purge_session_lines, (files, session_id, force), r),
    ensures
        r.0@.len() == files@.len(),
        0 <= i < files@.len() ==> changes_to(
            files@[i].name@,
            files@[i].body@,
            session_id.bytes@,
            force,
            r.0@[i],
        ),
        r.1.removed == taken_from_all(files@, session_id.bytes@, force),
        texts(r.1.unattributed_files@).to_multiset() == left_intact(
            files@,
            session_id.bytes@,
            force,
        ).to_multiset(),
        forall|a: int, b: int|
            0 <= a < b < r.1.unattributed_files@.len() ==> !before(
                (#[trigger] r.1.unattributed_files@[b])@,
                (#[trigger] r.1.unattributed_files@[a])@,
            ),
{
    if 0 <= i < files@.len() {
        let f = files@[i];
        assert(r.0@[i]@ == file_change(f, session_id@, force));
        lemma_change(f.name@, f.body@, session_id@, force, r.0@[i]);
    }
    lemma_outcome(files@, session_id@, force);
    let names = r.1.unattributed_files@;
    assert forall|a: int, b: int| 0 <= a < b < names.len() implies !before(
        (#[trigger] names[b])@,
        (#[trigger] names[a])@,
    ) by {
        assert(texts(names)[a] == names[a]@ && texts(names)[b] == names[b]@);
    }
}

/// Which archive entries are accepted, and what is said of the others.
pub proof fn law_validate_restore_entry(
    style: PathStyle,
    path: &str,
    flag: u8,
    r: Result<(), RestoreError>,
)
    requires
        call_ensures(validate_restore_entry, (style, path, flag), r),
    ensures
        ({
            let p = path@;
            let file = flag == 0 || flag == 48;
            let link = flag == 49 || flag == 50;
            let below = p.len() >= 5 && p[0] == 'w' && p[1] == 'i' && p[2] == 'k' && p[3] == 'i'
                && p[4] == '/';
            let place = if file {
                p == "config.toml"@ || p == "db/memory.sqlite"@ || below
            } else {
                p == "wiki"@ || p == "db"@ || below
            };
            &&& r is Ok <==> ordinary(style, p) && (file || flag == 53) && place
            &&& r matches Err(e) ==> e.message@ == if !ordinary(style, p) {
                "backup contains unsafe path: "@ + p
            } else if link {
                "backup contains unsupported link entry: "@ + p
            } else if !file && flag != 53 {
                "backup contains unsupported entry type: "@ + p
            } else {
                "backup contains unexpected path: "@ + p
            }
        }),
{
    law_backups_are_accepted_whole(style, path@, flag);
}

/// What a restore refuses before it starts, and what it says at its end.
pub proof fn law_restore_checks(
    found: bool,
    from: &str,
    source: Result<(), RestoreError>,
    wiki_has_entries: bool,
    db_exists: bool,
    force: bool,
    data_dir: &str,
    clear: Result<bool, RestoreError>,
    still_present: usize,
    repurged: usize,
    verdict: Result<usize, RestoreError>,
)
    requires
        call_ensures(check_source, (found, from), source),
        call_ensures(
            clear_before_restore,
            (wiki_has_entries, db_exists, force, data_dir),
            clear,
        ),
        call_ensures(restore_verdict, (still_present, repurged), verdict),
    ensures
        source is Ok <==> found,
        source matches Err(e) ==> e.message@ == "source tarball "@ + from@ + " not found"@,
        clear is Err <==> (wiki_has_entries || db_exists) && !force,
        clear matches Ok(b) ==> b == (wiki_has_entries || db_exists),
        clear matches Err(e) ==> e.message@ == "refusing to restore: data dir at "@ + data_dir@
            + " is non-empty (pass --force to overwrite)"@,
        verdict is Ok <==> still_present == 0,
        verdict matches Ok(n) ==> n == repurged,
        verdict matches Err(e) ==> e.message@ == "restore aborted: "@ + decimal(
            still_present as nat,
        )
            + " purged session(s) survive in the restored state. The data directory is NOT safe to serve."@,
{
}

/// A place that is named for the ledger has to hold a database.
pub proof fn law_check_ledger_source(
    from: Option<&str>,
    db_found: bool,
    r: Result<(), RestoreError>,
)
    requires
        call_ensures(check_ledger_source, (from, db_found), r),
    ensures
        r is Err <==> from is Some && !db_found,
        r matches Err(e) ==> e.message@ == "--tombstones-from "@ + from->0@
            + " has no db/memory.sqlite to read a tombstone ledger from"@,
{
}

/// The pages to remove are those of each session, session by session; and a restore says
/// where the data came from and went to, and how many sessions were purged again, if any.
pub proof fn law_pages_to_remove_and_report(
    a: &Vec<RepurgedSession>,
    b: &Vec<RepurgedSession>,
    both: &Vec<RepurgedSession>,
    x: Vec<String>,
    y: Vec<String>,
    out: Vec<String>,
    from: &str,
    data_dir: &str,
    reapplied: usize,
    lines: Vec<String>,
)
    requires
        both@ == a@ + b@,
        call_ensures(pages_to_remove, (a,), x),
        call_ensures(pages_to_remove, (b,), y),
        call_ensures(pages_to_remove, (both,), out),
        call_ensures(restore_report, (from, data_dir, reapplied), lines),
    ensures
        a@.len() == 0 ==> x@.len() == 0,
        a@.len() == 1 ==> texts(x@) == texts(a@[0].repo_paths@),
        texts(out@) == texts(x@) + texts(y@),
        texts(lines@) == if reapplied == 0 {
            seq!["restored "@ + from@ + " -> "@ + data_dir@]
        } else {
            seq![
                "restored "@ + from@ + " -> "@ + data_dir@,
                "re-purged "@ + decimal(reapplied as nat)
                    + " session(s) the tombstone ledger says were deleted"@,
            ]
        },
{
    law_pages_to_remove_add_up(a@, b@);
    law_restore_says_what_it_did(from@, data_dir@, reapplied as nat);
    assert(texts(x@).len() == x@.len());
    if a@.len() == 1 {
        assert(texts(a@[0].repo_paths@) == a@[0].repo_paths@.map_values(|t: String| t@));
    }
}

/// Trimming a text takes the space around it, all of it and nothing else.
pub proof fn law_trim_text(s: &str, out: String)
    requires
        call_ensures(trim_text, (s,), out),
    ensures
        exists|i: int, j: int| #[trigger] is_core(s@, i, j) && out@ == s@.subrange(i, j),
        out@.len() > 0 ==> !blank(out@[0]) && !blank(out@[out@.len() - 1]),
{
    law_trimming_takes_the_space_around(s@);
    let (i, j) = choose|i: int, j: int| #[trigger]
        is_core(s@, i, j) && trimmed(s@) == s@.subrange(i, j);
    assert(is_core(s@, i, j) && out@ == s@.subrange(i, j));
}

/// A request is made exactly where the argument, trimmed, names a session and the operator
/// has confirmed; it carries the arguments as they are and the id in its canonical form.
pub proof fn law_prepare_request(
    workspace: &str,
    project: &str,
    session_id: &str,
    confirm: bool,
    force: bool,
    r: Result<(SessionId, PurgeSessionRequest), CommandError>,
)
    requires
        call_ensures(prepare_request, (workspace, project, session_id, confirm, force), r),
    ensures
        ({
            let named = exists|b: Seq<u8>| #[trigger] names_uuid(trimmed(session_id@), b);
            &&& r is Ok <==> named && confirm
            &&& r matches Ok(p) ==> names_uuid(trimmed(session_id@), p.0.bytes@)
                && p.1.workspace@ == workspace@ && p.1.project@ == project@ && p.1.session_id@
                == hyphenated(p.0.bytes@) && p.1.confirm && p.1.force == force
            &&& r matches Err(e) ==> !named ==> e.message@
                == "--session-id must be a complete session UUID (got "@ + quoted(session_id@)
                + "). Prefixes and titles are not accepted: this deletion is irreversible."@
            &&& r matches Err(e) ==> named ==> exists|b: Seq<u8>| #[trigger]
                names_uuid(trimmed(session_id@), b) && e.message@
                    == "purge-session is destructive and irreversible. It removes the session, its\nobservations, handoffs, derived pages, and auto-improvement artifacts across\nevery layer, leaving only a content-free tombstone.\n\nRe-run with --confirm to proceed:\n\n  ai-memory purge-session --workspace "@
                    + workspace@ + " --project "@ + project@ + " --session-id "@ + hyphenated(b)
                    + " --confirm"@
        }),
{
}

/// What is printed for a receipt, in full and in order, and the rows that are counted.
pub proof fn law_receipt_output(
    receipt: &ReceiptSummary,
    sweep: SpoolSweep,
    workspace: &str,
    project: &str,
    session_id: SessionId,
    lines: Vec<OutputLine>,
    counts: &Vec<LayerCount>,
    total: u64,
)
    requires
        call_ensures(receipt_output, (receipt, sweep, workspace, project, session_id), lines),
        call_ensures(total_removed_rows, (counts,), total),
    ensures
        total == total_rows(counts@),
        ({
            let repeated = receipt.status is Some && receipt.status->0@ == "already_purged"@;
            let scope = workspace@ + "/"@ + project@ + " session "@ + hyphenated(
                session_id.bytes@,
            );
            printed(lines@) == printed_if(repeated, "already purged: "@ + scope, false)
                + printed_if(
                !repeated,
                "purged "@ + scope + " ("@ + decimal(total_rows(receipt.counts@)) + " rows)"@,
                false,
            ) + (if repeated {
                Seq::empty()
            } else {
                layer_lines(receipt.counts@)
            }) + printed_if(
                sweep.removed > 0,
                "  local spool: "@ + decimal(sweep.removed as nat) + " queued events removed"@,
                false,
            ) + printed_if(
                sweep.unreadable > 0,
                "  warning: "@ + decimal(sweep.unreadable as nat)
                    + " local spool entries could not be read or removed"@,
                true,
            ) + printed_if(
                receipt.backup_cutoff is Some,
                "  backups taken before "@ + receipt.backup_cutoff->0@
                    + " still contain this session"@,
                false,
            ) + seq![
                Printed {
                    text: "  spools on other hosts are not reachable from here; the server tombstone refuses them with 410"@,
                    is_error: false,
                },
            ] + Seq::new(
                receipt.warnings@.len(),
                |i: int| Printed { text: "  warning: "@ + receipt.warnings@[i]@, is_error: true },
            ) + seq![Printed { text: seq!['\n'] + receipt.pretty@, is_error: false }]
        }),
{
    law_receipts_are_told_in_full(*receipt, sweep, workspace@, project@, session_id@);
}

/// What the provider of each kind is sent.
pub proof fn law_efforts_sent(
    e: ReasoningEffort,
    grok: ReasoningEffort,
    openai: ReasoningEffort,
    anthropic: Option<ReasoningEffort>,
)
    requires
        call_ensures(ReasoningEffort::grok_chat_effort, (e,), grok),
        call_ensures(ReasoningEffort::openai_wire_effort, (e,), openai),
        call_ensures(ReasoningEffort::anthropic_output_effort, (e,), anthropic),
    ensures
        grok == match e {
            ReasoningEffort::Off | ReasoningEffort::Minimal => ReasoningEffort::Low,
            ReasoningEffort::Max
            | ReasoningEffort::Ultra
            | ReasoningEffort::Persistent => ReasoningEffort::XHigh,
            other => other,
        },
        openai == match e {
            ReasoningEffort::Ultra | ReasoningEffort::Persistent => ReasoningEffort::Max,
            other => other,
        },
        anthropic == match e {
            ReasoningEffort::Off => None,
            ReasoningEffort::Minimal => Some(ReasoningEffort::Low),
            ReasoningEffort::Ultra | ReasoningEffort::Persistent => Some(ReasoningEffort::Max),
            other => Some(other),
        },
{
}

/// A role and an effort are written by their labels, word for word.
pub proof fn law_labels_written(
    role: Role,
    role_text: &'static str,
    effort: ReasoningEffort,
    effort_text: &'static str,
)
    requires
        call_ensures(Role::as_str, (role,), role_text),
        call_ensures(ReasoningEffort::as_str, (effort,), effort_text),
    ensures
        role_text@ == match role {
            Role::User => "user"@,
            Role::Assistant => "assistant"@,
        },
        effort_text@ == match effort {
            ReasoningEffort::Off => "none"@,
            ReasoningEffort::Minimal => "minimal"@,
            ReasoningEffort::Low => "low"@,
            ReasoningEffort::Medium => "medium"@,
            ReasoningEffort::High => "high"@,
            ReasoningEffort::XHigh => "xhigh"@,
            ReasoningEffort::Max => "max"@,
            ReasoningEffort::Ultra => "ultra"@,
            ReasoningEffort::Persistent => "persistent"@,
        },
{
}

/// A number is written so that it reads back; two texts are ordered where they part; and a
/// text is split into its lines.
pub proof fn law_texts(
    n: u64,
    written: String,
    a: &str,
    b: &str,
    first: bool,
    s: &str,
    lines: Vec<Vec<char>>,
)
    requires
        call_ensures(decimal_of, (n,), written),
        call_ensures(sorts_before, (a, b), first),
        call_ensures(split_lines, (s,), lines),
    ensures
        read_number(written@) == n,
        written@.len() > 1 ==> written@[0] != '0',
        first <==> exists|k: int| #[trigger] parts_at(a@, b@, k),
        lines@.map_values(|l: Vec<char>| l@) == lines_of(s@),
{
    law_numbers_read_back(n as nat);
    law_texts_are_ordered_where_they_part(a@, b@);
}

/// A label is read as what it names, and any other text as nothing.
pub proof fn law_labels_read(
    s: &str,
    role: Option<Role>,
    effort: Option<ReasoningEffort>,
    any_role: Role,
    any_effort: ReasoningEffort,
)
    requires
        call_ensures(Role::from_label, (s,), role),
        call_ensures(ReasoningEffort::from_label, (s,), effort),
    ensures
        any_role.label() == s@ ==> role == Some(any_role),
        role matches Some(read) ==> read.label() == s@,
        any_effort.label() == s@ ==> effort == Some(any_effort),
        effort matches Some(read) ==> read.label() == s@,
{
    if let Some(read) = role {
        if any_role.label() == s@ {
            law_role_labels_differ(read, any_role);
        }
    }
    if let Some(read) = effort {
        if any_effort.label() == s@ {
            law_effort_labels_differ(read, any_effort);
        }
    }
}

/// The efforts are listed from the least reasoning to the most, each once.
pub proof fn law_variants(v: Vec<ReasoningEffort>)
    requires
        call_ensures(ReasoningEffort::variants, (), v),
    ensures
        v@ == seq![
            ReasoningEffort::Off,
            ReasoningEffort::Minimal,
            ReasoningEffort::Low,
            ReasoningEffort::Medium,
            ReasoningEffort::High,
            ReasoningEffort::XHigh,
            ReasoningEffort::Max,
            ReasoningEffort::Ultra,
            ReasoningEffort::Persistent,
        ],
{
    let all = seq![
        ReasoningEffort::Off,
        ReasoningEffort::Minimal,
        ReasoningEffort::Low,
        ReasoningEffort::Medium,
        ReasoningEffort::High,
        ReasoningEffort::XHigh,
        ReasoningEffort::Max,
        ReasoningEffort::Ultra,
        ReasoningEffort::Persistent,
    ];
    assert forall|i: int| 0 <= i < 9 implies #[trigger] v@[i] == all[i] by {
        assert(v@[i].rank() == i);
    }
    assert(v@ == all);
}

/// A stored identifier is read exactly if it has sixteen bytes, and is then those bytes; an
/// instant is read exactly if it is in range; and a receipt says which of two things was
/// done.
pub proof fn law_stored_values_are_read(
    raw: &[u8],
    session: Result<SessionId, StoreError>,
    workspace: Result<WorkspaceId, StoreError>,
    project: Result<ProjectId, StoreError>,
    m: i64,
    instant: Result<Timestamp, String>,
    status: SessionPurgeStatus,
    said: &'static str,
)
    requires
        call_ensures(SessionId::from_slice, (raw,), session),
        call_ensures(WorkspaceId::from_slice, (raw,), workspace),
        call_ensures(ProjectId::from_slice, (raw,), project),
        call_ensures(Timestamp::from_microsecond, (m,), instant),
        call_ensures(SessionPurgeStatus::as_str, (status,), said),
    ensures
        session is Ok <==> raw@.len() == 16,
        session matches Ok(id) ==> id.bytes@ == raw@,
        session matches Err(e) ==> e is InvalidId,
        workspace is Ok <==> raw@.len() == 16,
        workspace matches Ok(id) ==> id.bytes@ == raw@,
        workspace matches Err(e) ==> e is InvalidId,
        project is Ok <==> raw@.len() == 16,
        project matches Ok(id) ==> id.bytes@ == raw@,
        project matches Err(e) ==> e is InvalidId,
        instant is Ok <==> -377705023201000000 <= m <= 253402207200000000,
        instant matches Ok(t) ==> t.microsecond == m,
        said@ == match status {
            SessionPurgeStatus::Purged => "purged"@,
            SessionPurgeStatus::AlreadyPurged => "already_purged"@,
        },
{
}

/// A text is found in a list, and an object id in a list of them, exactly if it is there.
pub proof fn law_lists_are_searched(
    paths: &Vec<String>,
    path: &str,
    path_found: bool,
    ids: &Vec<Oid>,
    id: &Oid,
    id_found: bool,
)
    requires
        call_ensures(path_listed, (paths, path), path_found),
        call_ensures(oid_listed, (ids, id), id_found),
    ensures
        path_found <==> exists|i: int|
            0 <= i < paths@.len() && (#[trigger] paths@[i])@ == path@,
        id_found <==> exists|i: int|
            0 <= i < ids@.len() && (#[trigger] ids@[i]).bytes@ == id.bytes@,
{
    if exists|i: int| 0 <= i < paths@.len() && (#[trigger] paths@[i])@ == path@ {
        let i = choose|i: int| 0 <= i < paths@.len() && (#[trigger] paths@[i])@ == path@;
        assert(texts(paths@)[i] == path@);
    }
    if texts(paths@).contains(path@) {
        let i = choose|i: int| 0 <= i < texts(paths@).len() && texts(paths@)[i] == path@;
        assert(paths@[i]@ == path@);
    }
    if exists|i: int| 0 <= i < ids@.len() && (#[trigger] ids@[i]).bytes@ == id.bytes@ {
        let i = choose|i: int| 0 <= i < ids@.len() && (#[trigger] ids@[i]).bytes@ == id.bytes@;
        assert(oids(ids@)[i] == id@);
    }
    if oids(ids@).contains(id@) {
        let i = choose|i: int| 0 <= i < oids(ids@).len() && oids(ids@)[i] == id@;
        assert(ids@[i].bytes@ == id.bytes@);
    }
}

} // verus!
