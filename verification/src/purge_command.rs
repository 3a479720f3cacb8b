//! The `purge-session` command: what it sends, and what it prints.

use vstd::prelude::*;

use crate::ids::{hyphenated, names_uuid, SessionId};
use crate::text::{chars_of, decimal, decimal_of, joined, same_text, string_of};

verus! {

/// Why the command was not carried out.
#[derive(Debug, Clone, PartialEq, Eq)]
pub struct CommandError {
    pub message: String,
}

/// Request that asks the server to purge a session.
#[derive(Debug, Clone, PartialEq, Eq)]
pub struct PurgeSessionRequest {
    pub workspace: String,
    pub project: String,
    pub session_id: String,
    pub confirm: bool,
    /// Purge even when the session is open or has work in flight.
    pub force: bool,
}

/// `c` is white space: what Unicode gives the property `White_Space`.
pub open spec fn white_space(c: char) -> bool {
    let n = c as int;
    ||| 9 <= n <= 13
    ||| n == 32
    ||| n == 0x85
    ||| n == 0xA0
    ||| n == 0x1680
    ||| 0x2000 <= n <= 0x200A
    ||| n == 0x2028
    ||| n == 0x2029
    ||| n == 0x202F
    ||| n == 0x205F
    ||| n == 0x3000
}

/// Whether `c` is white space.
fn is_white_space(c: char) -> (r: bool)
    ensures
        r == white_space(c),
{
    let n: u32 = c as u32;
    (9 <= n && n <= 13) || n == 32 || n == 0x85 || n == 0xA0 || n == 0x1680 || (0x2000 <= n && n
        <= 0x200A) || n == 0x2028 || n == 0x2029 || n == 0x202F || n == 0x205F || n == 0x3000
}

/// `s` without the white space that it starts with.
pub open spec fn trimmed_front(s: Seq<char>) -> Seq<char>
    decreases s.len(),
{
    if s.len() > 0 && white_space(s[0]) {
        trimmed_front(s.drop_first())
    } else {
        s
    }
}

/// `s` without the white space that it ends with.
pub open spec fn trimmed_back(s: Seq<char>) -> Seq<char>
    decreases s.len(),
{
    if s.len() > 0 && white_space(s.last()) {
        trimmed_back(s.drop_last())
    } else {
        s
    }
}

/// `s` without the white space around it.
pub open spec fn trimmed(s: Seq<char>) -> Seq<char> {
    trimmed_back(trimmed_front(s))
}

/// A text without the white space around it.
pub fn trim_text(s: &str) -> (out: String)
    ensures
        out@ == trimmed(s@),
{
    let chars = chars_of(s);
    let mut from: usize = 0;
    assert(s@.skip(0) == s@);
    while from < chars.len() && is_white_space(chars[from])
        invariant
            chars@ == s@,
            from <= s@.len(),
            trimmed_front(s@) == trimmed_front(s@.skip(from as int)),
        decreases s@.len() - from,
    {
        assert(s@.skip(from as int).drop_first() == s@.skip(from + 1));
        from = from + 1;
    }
    let mut to: usize = chars.len();
    let ghost front = s@.skip(from as int);
    assert(s@.subrange(from as int, to as int) == front);
    while to > from && is_white_space(chars[to - 1])
        invariant
            chars@ == s@,
            front == s@.skip(from as int),
            from <= to <= s@.len(),
            trimmed_back(front) == trimmed_back(s@.subrange(from as int, to as int)),
        decreases to - from,
    {
        let ghost now = s@.subrange(from as int, to as int);
        assert(now.last() == s@[to - 1]);
        assert(now.drop_last() == s@.subrange(from as int, to - 1));
        to = to - 1;
    }
    proof {
        let now = s@.subrange(from as int, to as int);
        if now.len() > 0 {
            assert(now.last() == s@[to - 1]);
        }
    }
    string_of(&chars, from, to)
}

/// How `str`'s `Debug` writes a text: quoted and escaped.
pub uninterp spec fn quoted(s: Seq<char>) -> Seq<char>;

/// Calls `str`'s `Debug`, which writes the text in quotes with its special
/// characters escaped. The text is named, not spelled out.
#[verifier::external_body]
fn debug_text(s: &str) -> (out: String)
    ensures
        out@ == quoted(s@),
{
    format!("{s:?}")
}

/// The refusal of an argument that is not a complete session id, the argument being
/// shown as `shown`.
pub open spec fn bad_id_message(shown: Seq<char>) -> Seq<char> {
    "--session-id must be a complete session UUID (got "@ + shown
        + "). Prefixes and titles are not accepted: this deletion is irreversible."@
}

/// The refusal of an argument that is not a complete session id.
pub fn bad_id_error(shown: &str) -> (e: CommandError)
    ensures
        e.message@ == bad_id_message(shown@),
{
    let message = joined("--session-id must be a complete session UUID (got ", shown);
    let message = joined(
        message.as_str(),
        "). Prefixes and titles are not accepted: this deletion is irreversible.",
    );
    CommandError { message }
}

/// What is asked of an operator who has not confirmed.
pub open spec fn confirm_message(
    workspace: Seq<char>,
    project: Seq<char>,
    session: Seq<u8>,
) -> Seq<char> {
    "purge-session is destructive and irreversible. It removes the session, its\nobservations, handoffs, derived pages, and auto-improvement artifacts across\nevery layer, leaving only a content-free tombstone.\n\nRe-run with --confirm to proceed:\n\n  ai-memory purge-session --workspace "@
        + workspace + " --project "@ + project + " --session-id "@ + hyphenated(session)
        + " --confirm"@
}

/// The request that purges the session named by `session_id`, or why it is not sent.
///
/// The id is validated before anything is sent: a slip that happened to name another
/// session could not be undone, so only a complete, well-formed id is accepted.
pub fn prepare_request(
    workspace: &str,
    project: &str,
    session_id: &str,
    confirm: bool,
    force: bool,
) -> (r: Result<(SessionId, PurgeSessionRequest), CommandError>)
    ensures
        match r {
            Ok((id, request)) => {
                &&& names_uuid(trimmed(session_id@), id@)
                &&& confirm
                &&& request.workspace@ == workspace@
                &&& request.project@ == project@
                &&& request.session_id@ == hyphenated(id@)
                &&& request.confirm
                &&& request.force == force
            },
            Err(e) => {
                ||| (forall|b: Seq<u8>| !#[trigger] names_uuid(trimmed(session_id@), b))
                    && e.message@ == bad_id_message(quoted(session_id@))
                ||| !confirm && exists|b: Seq<u8>| #[trigger]
                    names_uuid(trimmed(session_id@), b) && e.message@ == confirm_message(
                        workspace@,
                        project@,
                        b,
                    )
            },
        },
{
    let text = trim_text(session_id);
    let id = match SessionId::parse(text.as_str()) {
        Some(id) => id,
        None => {
            return Err(bad_id_error(debug_text(session_id).as_str()));
        },
    };
    let canonical = id.to_text();
    if !confirm {
        let message = joined(
            "purge-session is destructive and irreversible. It removes the session, its\nobservations, handoffs, derived pages, and auto-improvement artifacts across\nevery layer, leaving only a content-free tombstone.\n\nRe-run with --confirm to proceed:\n\n  ai-memory purge-session --workspace ",
            workspace,
        );
        let message = joined(message.as_str(), " --project ");
        let message = joined(message.as_str(), project);
        let message = joined(message.as_str(), " --session-id ");
        let message = joined(message.as_str(), canonical.as_str());
        let message = joined(message.as_str(), " --confirm");
        assert(names_uuid(trimmed(session_id@), id@));
        return Err(CommandError { message });
    }
    let request = PurgeSessionRequest {
        workspace: workspace.to_owned(),
        project: project.to_owned(),
        session_id: canonical,
        confirm: true,
        force,
    };
    Ok((id, request))
}

/// Rows removed from one layer, as a receipt reports it.
#[derive(Debug, Clone, PartialEq, Eq)]
pub struct LayerCount {
    pub layer: String,
    /// `None` where the receipt holds something other than a count.
    pub rows: Option<u64>,
}

/// What the command reads of the server's receipt.
#[derive(Debug, Clone, PartialEq, Eq)]
pub struct ReceiptSummary {
    pub status: Option<String>,
    pub counts: Vec<LayerCount>,
    pub backup_cutoff: Option<String>,
    pub warnings: Vec<String>,
    /// The receipt as it came, laid out for reading.
    pub pretty: String,
}

/// What sweeping the local spool did.
#[derive(Debug, Clone, Copy, PartialEq, Eq, Structural)]
pub struct SpoolSweep {
    pub removed: u64,
    pub kept: u64,
    pub unreadable: u64,
}

/// Something printed.
#[derive(Debug, Clone, PartialEq, Eq)]
pub struct OutputLine {
    pub text: String,
    /// Printed as an error rather than as output.
    pub is_error: bool,
}

/// What is printed, in the abstract.
#[verifier::ext_equal]
pub struct Printed {
    pub text: Seq<char>,
    pub is_error: bool,
}

impl View for OutputLine {
    type V = Printed;

    open spec fn view(&self) -> Printed {
        Printed { text: self.text@, is_error: self.is_error }
    }
}

/// What a list of lines prints.
pub open spec fn printed(lines: Seq<OutputLine>) -> Seq<Printed> {
    lines.map_values(|l: OutputLine| l@)
}

/// The rows of a layer, nothing where no count is given.
pub open spec fn layer_rows(c: LayerCount) -> nat {
    match c.rows {
        Some(n) => n as nat,
        None => 0,
    }
}

/// The rows removed over all layers.
pub open spec fn total_rows(counts: Seq<LayerCount>) -> nat
    decreases counts.len(),
{
    if counts.len() == 0 {
        0
    } else {
        total_rows(counts.drop_last()) + layer_rows(counts.last())
    }
}

/// One line for each layer that lost rows.
pub open spec fn layer_lines(counts: Seq<LayerCount>) -> Seq<Printed>
    decreases counts.len(),
{
    if counts.len() == 0 {
        Seq::empty()
    } else {
        let rest = layer_lines(counts.drop_last());
        let last = counts.last();
        if layer_rows(last) > 0 {
            rest.push(
                Printed {
                    text: "  "@ + last.layer@ + ": "@ + decimal(layer_rows(last)),
                    is_error: false,
                },
            )
        } else {
            rest
        }
    }
}

/// A line of output.
pub open spec fn out(text: Seq<char>) -> Printed {
    Printed { text, is_error: false }
}

/// A line of warning.
pub open spec fn warn(text: Seq<char>) -> Printed {
    Printed { text, is_error: true }
}

/// What is printed of the session itself.
pub open spec fn session_lines(
    r: ReceiptSummary,
    workspace: Seq<char>,
    project: Seq<char>,
    session: Seq<u8>,
) -> Seq<Printed> {
    let scope = workspace + "/"@ + project + " session "@ + hyphenated(session);
    if r.status matches Some(s) && s@ == "already_purged"@ {
        seq![out("already purged: "@ + scope)]
    } else {
        seq![out("purged "@ + scope + " ("@ + decimal(total_rows(r.counts@)) + " rows)"@)]
            + layer_lines(r.counts@)
    }
}

/// What is printed of the local spool.
pub open spec fn spool_lines(sweep: SpoolSweep) -> Seq<Printed> {
    let removed = if sweep.removed > 0 {
        seq![
            out(
                "  local spool: "@ + decimal(sweep.removed as nat) + " queued events removed"@,
            ),
        ]
    } else {
        Seq::empty()
    };
    if sweep.unreadable > 0 {
        removed.push(
            warn(
                "  warning: "@ + decimal(sweep.unreadable as nat)
                    + " local spool entries could not be read or removed"@,
            ),
        )
    } else {
        removed
    }
}

/// What is printed of backups.
pub open spec fn backup_lines(r: ReceiptSummary) -> Seq<Printed> {
    match r.backup_cutoff {
        Some(cutoff) => seq![
            out("  backups taken before "@ + cutoff@ + " still contain this session"@),
        ],
        None => Seq::empty(),
    }
}

/// What is printed of other hosts' spools.
pub open spec fn other_hosts_line() -> Printed {
    out(
        "  spools on other hosts are not reachable from here; the server tombstone refuses them with 410"@,
    )
}

/// One line for each warning of the receipt.
pub open spec fn warning_lines(warnings: Seq<String>) -> Seq<Printed> {
    warnings.map_values(|w: String| warn("  warning: "@ + w@))
}

/// Everything that the command prints for a receipt.
pub open spec fn receipt_lines(
    r: ReceiptSummary,
    sweep: SpoolSweep,
    workspace: Seq<char>,
    project: Seq<char>,
    session: Seq<u8>,
) -> Seq<Printed> {
    session_lines(r, workspace, project, session) + spool_lines(sweep) + backup_lines(r) + seq![
        other_hosts_line(),
    ] + warning_lines(r.warnings@) + seq![out(seq!['\n'] + r.pretty@)]
}

fn push_output(lines: &mut Vec<OutputLine>, text: String, is_error: bool)
    ensures
        printed(final(lines)@) == printed(old(lines)@).push(Printed { text: text@, is_error }),
{
    lines.push(OutputLine { text, is_error });
    assert(printed(lines@) == printed(old(lines)@).push(Printed { text: text@, is_error }));
}

proof fn lemma_total_grows(counts: Seq<LayerCount>, k: int)
    requires
        0 <= k <= counts.len(),
    ensures
        total_rows(counts.take(k)) <= total_rows(counts),
    decreases counts.len(),
{
    if k < counts.len() {
        assert(counts.drop_last().take(k) == counts.take(k));
        lemma_total_grows(counts.drop_last(), k);
    } else {
        assert(counts.take(k) == counts);
    }
}

/// The rows removed over all layers.
pub fn total_removed_rows(counts: &Vec<LayerCount>) -> (n: u64)
    requires
        total_rows(counts@) <= u64::MAX,
    ensures
        n == total_rows(counts@),
{
    let mut total: u64 = 0;
    let mut i: usize = 0;
    assert(counts@.take(0) == Seq::<LayerCount>::empty());
    while i < counts.len()
        invariant
            total_rows(counts@) <= u64::MAX,
            i <= counts@.len(),
            total == total_rows(counts@.take(i as int)),
        decreases counts@.len() - i,
    {
        proof {
            assert(counts@.take(i + 1).drop_last() == counts@.take(i as int));
            lemma_total_grows(counts@, i + 1);
        }
        if let Some(n) = counts[i].rows {
            total = total + n;
        }
        i = i + 1;
    }
    assert(counts@.take(i as int) == counts@);
    total
}

/// What the command prints for the server's receipt and the local sweep.
pub fn receipt_output(
    receipt: &ReceiptSummary,
    sweep: SpoolSweep,
    workspace: &str,
    project: &str,
    session_id: SessionId,
) -> (lines: Vec<OutputLine>)
    requires
        total_rows(receipt.counts@) <= u64::MAX,
    ensures
        printed(lines@) == receipt_lines(
            *receipt,
            sweep,
            workspace@,
            project@,
            session_id@,
        ),
{
    let mut lines: Vec<OutputLine> = Vec::new();
    assert(printed(lines@) == Seq::<Printed>::empty());
    let scope = joined(joined(workspace, "/").as_str(), project);
    let scope = joined(joined(scope.as_str(), " session ").as_str(), session_id.to_text().as_str());
    let repeated = match &receipt.status {
        Some(status) => same_text(status.as_str(), "already_purged"),
        None => false,
    };
    if repeated {
        push_output(&mut lines, joined("already purged: ", scope.as_str()), false);
    } else {
        let total: u64 = total_removed_rows(&receipt.counts);
        let text = joined(joined("purged ", scope.as_str()).as_str(), " (");
        let text = joined(joined(text.as_str(), decimal_of(total).as_str()).as_str(), " rows)");
        push_output(&mut lines, text, false);
        let ghost head = printed(lines@);
        let ghost counts = receipt.counts@;
        let mut i: usize = 0;
        assert(counts.take(0) == Seq::<LayerCount>::empty());
        assert(head + Seq::<Printed>::empty() == head);
        while i < receipt.counts.len()
            invariant
                counts == receipt.counts@,
                i <= counts.len(),
                printed(lines@) == head + layer_lines(counts.take(i as int)),
            decreases counts.len() - i,
        {
            let count = &receipt.counts[i];
            let ghost before = printed(lines@);
            proof {
                assert(counts.take(i + 1).drop_last() == counts.take(i as int));
                assert(counts.take(i + 1).last() == count);
            }
            if let Some(n) = count.rows {
                if n > 0 {
                    let text = joined("  ", count.layer.as_str());
                    let text = joined(joined(text.as_str(), ": ").as_str(), decimal_of(n).as_str());
                    push_output(&mut lines, text, false);
                    assert(printed(lines@) == head + layer_lines(counts.take(i + 1)));
                }
            }
            i = i + 1;
        }
        assert(counts.take(i as int) == counts);
    }
    let ghost so_far = session_lines(*receipt, workspace@, project@, session_id@);
    assert(printed(lines@) == so_far);
    if sweep.removed > 0 {
        let text = joined("  local spool: ", decimal_of(sweep.removed).as_str());
        push_output(&mut lines, joined(text.as_str(), " queued events removed"), false);
    }
    if sweep.unreadable > 0 {
        let text = joined("  warning: ", decimal_of(sweep.unreadable).as_str());
        let text = joined(text.as_str(), " local spool entries could not be read or removed");
        push_output(&mut lines, text, true);
    }
    let ghost so_far = so_far + spool_lines(sweep);
    assert(printed(lines@) == so_far);
    if let Some(cutoff) = &receipt.backup_cutoff {
        let text = joined("  backups taken before ", cutoff.as_str());
        push_output(&mut lines, joined(text.as_str(), " still contain this session"), false);
    }
    let ghost so_far = so_far + backup_lines(*receipt);
    assert(printed(lines@) == so_far);
    push_output(
        &mut lines,
        "  spools on other hosts are not reachable from here; the server tombstone refuses them with 410".to_owned(),
        false,
    );
    let ghost so_far = so_far + seq![other_hosts_line()];
    assert(printed(lines@) == so_far);
    let ghost warnings = warning_lines(receipt.warnings@);
    let mut i: usize = 0;
    assert(so_far + warnings.take(0) == so_far);
    while i < receipt.warnings.len()
        invariant
            warnings == warning_lines(receipt.warnings@),
            i <= receipt.warnings@.len(),
            printed(lines@) == so_far + warnings.take(i as int),
        decreases receipt.warnings@.len() - i,
    {
        push_output(&mut lines, joined("  warning: ", receipt.warnings[i].as_str()), true);
        assert(so_far + warnings.take(i + 1) == (so_far + warnings.take(i as int)).push(
            warnings[i as int],
        ));
        i = i + 1;
    }
    assert(warnings.take(i as int) == warnings);
    let ghost so_far = so_far + warnings;
    let mut last = String::new();
    last.push('\n');
    assert(last@ == seq!['\n']);
    push_output(&mut lines, joined(last.as_str(), receipt.pretty.as_str()), false);
    assert(printed(lines@) == so_far + seq![out(seq!['\n'] + receipt.pretty@)]);
    lines
}

} // verus!
