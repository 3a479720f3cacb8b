//! Removal of one session's entries from the monthly logs.
//!
//! The marker format and the removal that keys on it live in one place: an entry is
//! removed because it carries the session's marker, never because of what it says.

use vstd::prelude::*;

use crate::ids::{hyphenated, lemma_hyphenated_injective, SessionId};
use crate::order::{insert_in_order, sorted, texts};
use crate::store::{lemma_filter, lemma_filter_all};
use crate::text::{
    begins_with, char_rows, chars_of, contains_text, finishes_with, has_text, joined, line_feed_from,
    lemma_line_feed_from, lines_from, lines_of, occurs_at, split_lines, without_cr,
};

verus! {

/// What every session marker starts with.
pub open spec fn marker_prefix() -> Seq<char> {
    "<!-- ai-memory:session="@
}

/// The marker that a log entry of `session` carries: an HTML comment, so that it
/// is invisible in every renderer while staying exact.
pub open spec fn marker_of(session: Seq<u8>) -> Seq<char> {
    marker_prefix() + hyphenated(session) + " -->"@
}

/// The exact marker string that a log entry for `session_id` carries.
#[must_use]
pub fn session_marker(session_id: SessionId) -> (s: String)
    ensures
        s@ == marker_of(session_id@),
{
    let head = joined("<!-- ai-memory:session=", session_id.to_text().as_str());
    joined(head.as_str(), " -->")
}

/// Outcome of removing one session's entries from the monthly logs.
#[derive(Debug, Clone, PartialEq, Eq)]
pub struct LogPurgeOutcome {
    /// Attributed lines removed because they belong to the purged session.
    pub removed: usize,
    /// Monthly log files that still hold entries written before entries carried
    /// markers, and were left intact. Those entries cannot be attributed to any
    /// session, so they are neither removed nor claimed to be clean.
    pub unattributed_files: Vec<String>,
}

impl Default for LogPurgeOutcome {
    fn default() -> (r: LogPurgeOutcome)
        ensures
            r.removed == 0,
            r.unattributed_files@.len() == 0,
    {
        LogPurgeOutcome { removed: 0, unattributed_files: Vec::new() }
    }
}

/// A file of a project's wiki directory.
#[derive(Debug, Clone)]
pub struct LogFile {
    pub name: String,
    pub body: String,
}

/// What becomes of a file.
#[derive(Debug, Clone, PartialEq, Eq)]
pub enum LogChange {
    /// It stays as it is.
    Keep,
    /// It is written anew with this body.
    Rewrite(String),
    /// It is removed whole.
    Remove,
}

/// What becomes of a file, in the abstract.
#[verifier::ext_equal]
pub enum Change {
    Keep,
    Rewrite(Seq<char>),
    Remove,
}

impl View for LogChange {
    type V = Change;

    open spec fn view(&self) -> Change {
        match self {
            LogChange::Keep => Change::Keep,
            LogChange::Rewrite(body) => Change::Rewrite(body@),
            LogChange::Remove => Change::Remove,
        }
    }
}

/// `name` is that of a monthly log.
pub open spec fn log_name(name: Seq<char>) -> bool {
    "log-"@.is_prefix_of(name) && ".md"@.is_suffix_of(name)
}

/// Whether `name` is that of a monthly log.
pub fn is_log_name(name: &str) -> (r: bool)
    ensures
        r == log_name(name@),
{
    let chars = chars_of(name);
    begins_with(&chars, &chars_of("log-")) && finishes_with(&chars, &chars_of(".md"))
}

/// Lines that do not belong to the session: those without its marker.
pub open spec fn spared(session: Seq<u8>) -> spec_fn(Seq<char>) -> bool {
    |line: Seq<char>| !has_text(line, marker_of(session))
}

/// The lines of a log that stay.
pub open spec fn kept_lines(body: Seq<char>, session: Seq<u8>) -> Seq<Seq<char>> {
    lines_of(body).filter(spared(session))
}

/// How many lines of a log go.
pub open spec fn lines_removed(body: Seq<char>, session: Seq<u8>) -> int {
    lines_of(body).len() - kept_lines(body, session).len()
}

/// A text made of lines, each closed by a line feed.
pub open spec fn text_of(lines: Seq<Seq<char>>) -> Seq<char>
    decreases lines.len(),
{
    if lines.len() == 0 {
        Seq::empty()
    } else {
        text_of(lines.drop_last()) + lines.last() + seq!['\n']
    }
}

/// A line opens an entry that carries no marker of any session. Only entry headers
/// carry one; other lines belong to whichever entry precedes them.
pub open spec fn unattributed_header(line: Seq<char>) -> bool {
    "## ["@.is_prefix_of(line) && !has_text(line, marker_prefix())
}

/// Among the lines of a log that stay is an entry of unknown origin.
pub open spec fn has_unattributed(body: Seq<char>, session: Seq<u8>) -> bool {
    exists|i: int|
        0 <= i < kept_lines(body, session).len() && unattributed_header(
            #[trigger] kept_lines(body, session)[i],
        )
}

/// What becomes of a log with this body. The file is the unit of retention: one that
/// holds entries of unknown origin is left intact or, forced, goes whole, which is
/// the only way to be sure that the session left nothing in it.
pub open spec fn change_of(body: Seq<char>, session: Seq<u8>, force: bool) -> Change {
    if has_unattributed(body, session) {
        if force {
            Change::Remove
        } else {
            Change::Keep
        }
    } else if lines_removed(body, session) > 0 {
        Change::Rewrite(text_of(kept_lines(body, session)))
    } else {
        Change::Keep
    }
}

/// How many of the session's lines are taken out of a log: none where it is left
/// intact.
pub open spec fn lines_taken(body: Seq<char>, session: Seq<u8>, force: bool) -> int {
    if has_unattributed(body, session) && !force {
        0
    } else {
        lines_removed(body, session)
    }
}

/// The purge of one log, read through.
struct LogScan {
    kept: String,
    removed: usize,
    unattributed: bool,
}

/// Add characters to a text.
fn push_line(text: &mut String, line: &Vec<char>)
    ensures
        final(text)@ == old(text)@ + line@ + seq!['\n'],
{
    let ghost before = text@;
    let mut i: usize = 0;
    while i < line.len()
        invariant
            before == old(text)@,
            i <= line@.len(),
            text@ == before + line@.take(i as int),
        decreases line@.len() - i,
    {
        text.push(line[i]);
        assert(before + line@.take(i + 1) == (before + line@.take(i as int)).push(
            line@[i as int],
        ));
        i = i + 1;
    }
    assert(line@.take(i as int) == line@);
    text.push('\n');
    assert(text@ == before + line@ + seq!['\n']);
}

/// Read one log through, keeping what does not belong to the session.
fn scan_log(body: &str, session_id: &SessionId) -> (r: LogScan)
    ensures
        r.kept@ == text_of(kept_lines(body@, session_id@)),
        r.removed == lines_removed(body@, session_id@),
        r.unattributed == has_unattributed(body@, session_id@),
{
    let lines = split_lines(body);
    let marker = chars_of(session_marker(*session_id).as_str());
    let prefix = chars_of("<!-- ai-memory:session=");
    let header = chars_of("## [");
    let ghost all = char_rows(lines@);
    let ghost keep = spared(session_id@);
    let total: usize = lines.len();
    let mut kept = String::new();
    let mut removed: usize = 0;
    let mut unattributed = false;
    let mut i: usize = 0;
    reveal(Seq::filter);
    assert(all.take(0) == Seq::<Seq<char>>::empty());
    while i < lines.len()
        invariant
            all == char_rows(lines@),
            keep == spared(session_id@),
            marker@ == marker_of(session_id@),
            prefix@ == marker_prefix(),
            header@ == "## ["@,
            total == lines@.len(),
            i <= lines@.len(),
            kept@ == text_of(all.take(i as int).filter(keep)),
            removed + all.take(i as int).filter(keep).len() == i,
            unattributed == exists|j: int|
                0 <= j < all.take(i as int).filter(keep).len() && unattributed_header(
                    #[trigger] all.take(i as int).filter(keep)[j],
                ),
        decreases lines@.len() - i,
    {
        let line = &lines[i];
        let ghost before = all.take(i as int).filter(keep);
        let ghost now = all.take(i + 1).filter(keep);
        proof {
            reveal(Seq::filter);
            assert(all.take(i + 1).drop_last() == all.take(i as int));
            assert(all.take(i + 1).last() == line@);
        }
        if contains_text(line, &marker) {
            removed = removed + 1;
        } else {
            assert(now == before.push(line@));
            assert(now.drop_last() == before);
            let opens = begins_with(line, &header) && !contains_text(line, &prefix);
            proof {
                if opens {
                    assert(unattributed_header(now[before.len() as int]));
                }
                if unattributed {
                    let j = choose|j: int|
                        0 <= j < before.len() && unattributed_header(#[trigger] before[j]);
                    assert(now[j] == before[j]);
                }
                if exists|j: int|
                    0 <= j < now.len() && unattributed_header(#[trigger] now[j]) {
                    let j = choose|j: int|
                        0 <= j < now.len() && unattributed_header(#[trigger] now[j]);
                    if j < before.len() {
                        assert(before[j] == now[j]);
                    }
                }
            }
            if opens {
                unattributed = true;
            }
            push_line(&mut kept, line);
        }
        i = i + 1;
    }
    assert(all.take(all.len() as int) == all);
    LogScan { kept, removed, unattributed }
}

/// The removal of one session's entries, file by file.
#[derive(Debug)]
pub struct LogPurge {
    pub session_id: SessionId,
    pub force: bool,
    pub outcome: LogPurgeOutcome,
}

impl LogPurge {
    /// The reported files are in order.
    pub open spec fn wf(self) -> bool {
        sorted(texts(self.outcome.unattributed_files@))
    }

    /// Begin the removal of the entries of `session_id`.
    pub fn new(session_id: SessionId, force: bool) -> (r: LogPurge)
        ensures
            r.wf(),
            r.session_id@ == session_id@,
            r.force == force,
            r.outcome.removed == 0,
            r.outcome.unattributed_files@.len() == 0,
    {
        LogPurge { session_id, force, outcome: LogPurgeOutcome::default() }
    }

    /// Decide what becomes of a file, and take it into the outcome. A file that is
    /// no monthly log stays as it is.
    pub fn visit(&mut self, name: &str, body: &str) -> (change: LogChange)
        requires
            old(self).wf(),
            log_name(name@) ==> old(self).outcome.removed + lines_taken(
                body@,
                old(self).session_id@,
                old(self).force,
            ) <= usize::MAX,
        ensures
            final(self).wf(),
            final(self).session_id == old(self).session_id,
            final(self).force == old(self).force,
            !log_name(name@) ==> change is Keep && final(self).outcome == old(self).outcome,
            log_name(name@) ==> {
                let session = old(self).session_id@;
                &&& change@ == change_of(body@, session, old(self).force)
                &&& final(self).outcome.removed == old(self).outcome.removed + lines_taken(
                    body@,
                    session,
                    old(self).force,
                )
                &&& texts(final(self).outcome.unattributed_files@).to_multiset() == if !old(
                    self,
                ).force && has_unattributed(body@, session) {
                    texts(old(self).outcome.unattributed_files@).to_multiset().insert(name@)
                } else {
                    texts(old(self).outcome.unattributed_files@).to_multiset()
                }
            },
    {
        if !is_log_name(name) {
            return LogChange::Keep;
        }
        let scan = scan_log(body, &self.session_id);
        if scan.unattributed && !self.force {
            insert_in_order(&mut self.outcome.unattributed_files, name.to_owned());
            return LogChange::Keep;
        }
        self.outcome.removed = self.outcome.removed + scan.removed;
        if scan.unattributed {
            LogChange::Remove
        } else if scan.removed > 0 {
            LogChange::Rewrite(scan.kept)
        } else {
            LogChange::Keep
        }
    }
}

/// How many lines are taken out of all logs.
pub open spec fn total_removed(files: Seq<LogFile>, session: Seq<u8>, force: bool) -> int
    decreases files.len(),
{
    if files.len() == 0 {
        0
    } else {
        total_removed(files.drop_last(), session, force) + if log_name(files.last().name@) {
            lines_taken(files.last().body@, session, force)
        } else {
            0
        }
    }
}

/// The names of the logs that hold entries of unknown origin and are left intact.
pub open spec fn reported(files: Seq<LogFile>, session: Seq<u8>, force: bool) -> Seq<Seq<char>>
    decreases files.len(),
{
    if files.len() == 0 {
        Seq::empty()
    } else {
        let rest = reported(files.drop_last(), session, force);
        if log_name(files.last().name@) && !force && has_unattributed(files.last().body@, session) {
            rest.push(files.last().name@)
        } else {
            rest
        }
    }
}

/// What becomes of one file.
pub open spec fn file_change(file: LogFile, session: Seq<u8>, force: bool) -> Change {
    if log_name(file.name@) {
        change_of(file.body@, session, force)
    } else {
        Change::Keep
    }
}

proof fn lemma_total_grows(files: Seq<LogFile>, session: Seq<u8>, force: bool, k: int)
    requires
        0 <= k <= files.len(),
    ensures
        0 <= total_removed(files.take(k), session, force) <= total_removed(files, session, force),
    decreases files.len(),
{
    if files.len() > 0 {
        lemma_kept_is_fewer(files.last().body@, session);
        if k == files.len() {
            assert(files.take(k) == files);
            lemma_total_grows(files.drop_last(), session, force, 0);
            lemma_total_grows(files.drop_last(), session, force, files.len() - 1);
            assert(files.drop_last().take(files.len() - 1) == files.drop_last());
        } else {
            assert(files.drop_last().take(k) == files.take(k));
            lemma_total_grows(files.drop_last(), session, force, k);
        }
    }
}

proof fn lemma_kept_is_fewer(body: Seq<char>, session: Seq<u8>)
    ensures
        lines_removed(body, session) >= 0,
{
    lemma_filter(lines_of(body), spared(session));
}

/// Remove every log entry attributed to `session_id` from a project's monthly logs.
///
/// Forced, a log that still holds entries of unknown origin is removed whole, at the
/// cost of other sessions' entries of that month. Otherwise such logs are reported
/// and left intact. Returns what becomes of each file, and the outcome.
pub fn purge_session_lines(files: &Vec<LogFile>, session_id: SessionId, force: bool) -> (r: (
    Vec<LogChange>,
    LogPurgeOutcome,
))
    requires
        total_removed(files@, session_id@, force) <= usize::MAX,
    ensures
        r.0@.len() == files@.len(),
        forall|i: int|
            0 <= i < files@.len() ==> (#[trigger] r.0@[i])@ == file_change(
                files@[i],
                session_id@,
                force,
            ),
        r.1.removed == total_removed(files@, session_id@, force),
        sorted(texts(r.1.unattributed_files@)),
        texts(r.1.unattributed_files@).to_multiset() == reported(
            files@,
            session_id@,
            force,
        ).to_multiset(),
{
    let mut purge = LogPurge::new(session_id, force);
    let mut changes: Vec<LogChange> = Vec::new();
    let mut i: usize = 0;
    proof {
        assert(files@.take(0) == Seq::<LogFile>::empty());
        assert(texts(purge.outcome.unattributed_files@) == Seq::<Seq<char>>::empty());
    }
    while i < files.len()
        invariant
            total_removed(files@, session_id@, force) <= usize::MAX,
            i <= files@.len(),
            purge.wf(),
            purge.session_id@ == session_id@,
            purge.force == force,
            changes@.len() == i,
            forall|j: int|
                0 <= j < i ==> (#[trigger] changes@[j])@ == file_change(
                    files@[j],
                    session_id@,
                    force,
                ),
            purge.outcome.removed == total_removed(files@.take(i as int), session_id@, force),
            texts(purge.outcome.unattributed_files@).to_multiset() == reported(
                files@.take(i as int),
                session_id@,
                force,
            ).to_multiset(),
        decreases files@.len() - i,
    {
        let file = &files[i];
        proof {
            let upto = files@.take(i + 1);
            assert(upto.drop_last() == files@.take(i as int));
            assert(upto.last() == file);
            lemma_total_grows(files@, session_id@, force, i + 1);
            let rest = reported(upto.drop_last(), session_id@, force);
            broadcast use vstd::seq_lib::group_to_multiset_ensures;

            assert(rest.push(file.name@).to_multiset() == rest.to_multiset().insert(file.name@));
        }
        let change = purge.visit(file.name.as_str(), file.body.as_str());
        changes.push(change);
        i = i + 1;
    }
    assert(files@.take(i as int) == files@);
    (changes, purge.outcome)
}

proof fn lemma_marker_length(session: Seq<u8>)
    requires
        session.len() == 16,
    ensures
        marker_of(session).len() == marker_prefix().len() + 40,
        hyphenated(session).len() == 36,
{
    reveal_strlit(" -->");
    assert(" -->"@.len() == 4);
}

/// A marker names one session: that of another is neither equal to it nor part of
/// it, so an entry is never removed for carrying another session's marker.
pub proof fn law_markers_tell_sessions_apart(a: Seq<u8>, b: Seq<u8>)
    requires
        a.len() == 16,
        b.len() == 16,
    ensures
        has_text(marker_of(a), marker_of(b)) <==> a == b,
        has_text(marker_of(a), marker_prefix()),
{
    lemma_marker_length(a);
    lemma_marker_length(b);
    let p = marker_prefix();
    assert(occurs_at(marker_of(a), p, 0)) by {
        assert(marker_of(a).subrange(0, 0int + p.len()) == p);
    }
    if a == b {
        assert(occurs_at(marker_of(a), marker_of(b), 0)) by {
            assert(marker_of(a).subrange(0, 0int + marker_of(b).len()) == marker_of(b));
        }
    }
    if has_text(marker_of(a), marker_of(b)) {
        let i = choose|i: int| occurs_at(marker_of(a), marker_of(b), i);
        assert(i == 0);
        assert(marker_of(a) == marker_of(b)) by {
            assert(marker_of(a).subrange(0, marker_of(b).len() as int) == marker_of(a));
        }
        let n = p.len() as int;
        assert(marker_of(a).subrange(n, n + 36) == hyphenated(a));
        assert(marker_of(b).subrange(n, n + 36) == hyphenated(b));
        lemma_hyphenated_injective(a, b);
    }
}

/// The lines that stay are those without the session's marker, all of them and in
/// their order, and the lines that go are counted.
pub proof fn law_only_marked_lines_go(body: Seq<char>, session: Seq<u8>)
    ensures
        forall|line: Seq<char>| #[trigger]
            kept_lines(body, session).contains(line) <==> lines_of(body).contains(line)
                && !has_text(line, marker_of(session)),
        lines_removed(body, session) == lines_of(body).filter(
            |line: Seq<char>| has_text(line, marker_of(session)),
        ).len(),
{
    lemma_filter(lines_of(body), spared(session));
    lemma_split_count(lines_of(body), marker_of(session), session);
}

pub(crate) proof fn lemma_split_count(lines: Seq<Seq<char>>, marker: Seq<char>, session: Seq<u8>)
    requires
        marker == marker_of(session),
    ensures
        lines.len() == lines.filter(spared(session)).len() + lines.filter(
            |line: Seq<char>| has_text(line, marker),
        ).len(),
    decreases lines.len(),
{
    reveal(Seq::filter);
    if lines.len() > 0 {
        lemma_split_count(lines.drop_last(), marker, session);
    }
}

/// No line feed in a line.
pub open spec fn one_line(line: Seq<char>) -> bool {
    forall|i: int| 0 <= i < line.len() ==> line[i] != '\n'
}

proof fn lemma_line_feed_shift(s: Seq<char>, c: int, j: int)
    requires
        0 <= c,
        0 <= j,
        c + j <= s.len(),
    ensures
        line_feed_from(s, c + j) == c + line_feed_from(s.skip(c), j),
    decreases s.len() - c - j,
{
    if c + j < s.len() && s[c + j] != '\n' {
        lemma_line_feed_shift(s, c, j + 1);
    }
}

proof fn lemma_lines_shift(s: Seq<char>, c: int, j: int)
    requires
        0 <= c,
        0 <= j,
        c + j <= s.len(),
    ensures
        lines_from(s, c + j) == lines_from(s.skip(c), j),
    decreases s.len() - c - j,
{
    let t = s.skip(c);
    if c + j < s.len() {
        lemma_line_feed_shift(s, c, j);
        lemma_line_feed_from(s, c + j);
        let k = line_feed_from(s, c + j);
        if k < s.len() {
            lemma_lines_shift(s, c, k - c + 1);
            assert(s.subrange(c + j, k) == t.subrange(j, k - c));
        } else {
            assert(s.subrange(c + j, s.len() as int) == t.subrange(j, t.len() as int));
        }
    }
}

/// The first line feed of a line closed by one is the one that closes it.
proof fn lemma_first_feed(line: Seq<char>, rest: Seq<char>, i: int)
    requires
        one_line(line),
        0 <= i <= line.len(),
    ensures
        line_feed_from(line + seq!['\n'] + rest, i) == line.len(),
    decreases line.len() - i,
{
    let s = line + seq!['\n'] + rest;
    if i < line.len() {
        assert(s[i] == line[i]);
        lemma_first_feed(line, rest, i + 1);
    } else {
        assert(s[i] == '\n');
    }
}

/// A closed line in front is the first of the lines.
pub(crate) proof fn lemma_lines_of_closed(line: Seq<char>, rest: Seq<char>)
    requires
        one_line(line),
    ensures
        lines_of(line + seq!['\n'] + rest) == seq![without_cr(line)] + lines_of(rest),
{
    let s = line + seq!['\n'] + rest;
    lemma_first_feed(line, rest, 0);
    assert(s.subrange(0, line.len() as int) == line);
    lemma_lines_shift(s, line.len() as int + 1, 0);
    assert(s.skip(line.len() as int + 1) == rest);
}

pub(crate) proof fn lemma_text_of_front(lines: Seq<Seq<char>>)
    requires
        lines.len() > 0,
    ensures
        text_of(lines) == lines[0] + seq!['\n'] + text_of(lines.drop_first()),
    decreases lines.len(),
{
    let rest = lines.drop_first();
    if lines.len() == 1 {
        assert(lines.drop_last() == Seq::<Seq<char>>::empty());
        assert(rest == Seq::<Seq<char>>::empty());
        assert(text_of(lines) == lines[0] + seq!['\n'] + text_of(rest));
    } else {
        lemma_text_of_front(lines.drop_last());
        assert(lines.drop_last().drop_first() == rest.drop_last());
        assert(text_of(lines) == lines[0] + seq!['\n'] + text_of(rest));
    }
}

/// Reading a text made of lines gives them back, but for a carriage return that one
/// closes with.
proof fn lemma_lines_of_text(lines: Seq<Seq<char>>)
    requires
        forall|i: int| 0 <= i < lines.len() ==> one_line(#[trigger] lines[i]),
    ensures
        lines_of(text_of(lines)) == lines.map_values(|l: Seq<char>| without_cr(l)),
    decreases lines.len(),
{
    let all = lines.map_values(|l: Seq<char>| without_cr(l));
    if lines.len() == 0 {
        assert(all == Seq::<Seq<char>>::empty());
    } else {
        let rest = lines.drop_first();
        assert forall|i: int| 0 <= i < rest.len() implies one_line(#[trigger] rest[i]) by {
            assert(rest[i] == lines[i + 1]);
        }
        lemma_text_of_front(lines);
        lemma_lines_of_closed(lines[0], text_of(rest));
        lemma_lines_of_text(rest);
        assert(all == seq![without_cr(lines[0])] + rest.map_values(
            |l: Seq<char>| without_cr(l),
        ));
    }
}

proof fn lemma_lines_hold_no_feed(s: Seq<char>, i: int)
    requires
        0 <= i <= s.len(),
    ensures
        forall|k: int| 0 <= k < lines_from(s, i).len() ==> one_line(#[trigger] lines_from(s, i)[k]),
    decreases s.len() - i,
{
    if i < s.len() {
        lemma_line_feed_from(s, i);
        let k = line_feed_from(s, i);
        if k < s.len() {
            lemma_lines_hold_no_feed(s, k + 1);
            let line = without_cr(s.subrange(i, k));
            let rest = lines_from(s, k + 1);
            assert forall|j: int| 0 <= j < line.len() implies line[j] != '\n' by {
                assert(line[j] == s[i + j]);
            }
            assert(lines_from(s, i) == seq![line] + rest);
            assert forall|m: int| 0 <= m < lines_from(s, i).len() implies one_line(
                #[trigger] lines_from(s, i)[m],
            ) by {
                if m > 0 {
                    assert(one_line(rest[m - 1]));
                }
            }
        } else {
            let line = s.subrange(i, s.len() as int);
            assert forall|j: int| 0 <= j < line.len() implies line[j] != '\n' by {
                assert(line[j] == s[i + j]);
            }
            assert(lines_from(s, i) == seq![line]);
        }
    }
}

proof fn lemma_spared_without_cr(line: Seq<char>, marker: Seq<char>)
    requires
        !has_text(line, marker),
    ensures
        !has_text(without_cr(line), marker),
{
    if has_text(without_cr(line), marker) {
        let i = choose|i: int| occurs_at(without_cr(line), marker, i);
        assert(line.subrange(i, i + marker.len()) == without_cr(line).subrange(
            i,
            i + marker.len(),
        ));
        assert(occurs_at(line, marker, i));
    }
}

/// Without force, a log with entries of unknown origin is left as it is, reported,
/// and adds nothing to the count. Forced, it is removed.
pub proof fn law_unattributed_logs_are_left_intact(file: LogFile, session: Seq<u8>)
    requires
        log_name(file.name@),
        has_unattributed(file.body@, session),
    ensures
        file_change(file, session, false) is Keep,
        reported(seq![file], session, false) == seq![file.name@],
        total_removed(seq![file], session, false) == 0,
        file_change(file, session, true) is Remove,
        reported(seq![file], session, true) == Seq::<Seq<char>>::empty(),
{
    let none = Seq::<LogFile>::empty();
    assert(seq![file].drop_last() == none);
    assert(total_removed(none, session, false) == 0);
    assert(reported(none, session, false) == Seq::<Seq<char>>::empty());
    assert(reported(none, session, true) == Seq::<Seq<char>>::empty());
    assert(Seq::<Seq<char>>::empty().push(file.name@) == seq![file.name@]);
}

/// Purging a log again finds nothing: what a rewrite wrote holds no line of the
/// session, so it is not written once more.
pub proof fn law_log_purge_is_idempotent(body: Seq<char>, session: Seq<u8>)
    ensures
        lines_removed(text_of(kept_lines(body, session)), session) == 0,
{
    let kept = kept_lines(body, session);
    let again = lines_of(text_of(kept));
    let marker = marker_of(session);
    lemma_filter(lines_of(body), spared(session));
    lemma_lines_hold_no_feed(body, 0);
    assert forall|i: int| 0 <= i < kept.len() implies one_line(#[trigger] kept[i]) by {
        assert(lines_of(body).contains(kept[i]));
        let k = choose|k: int| 0 <= k < lines_of(body).len() && lines_of(body)[k] == kept[i];
        assert(one_line(lines_from(body, 0)[k]));
    }
    lemma_lines_of_text(kept);
    assert forall|i: int| 0 <= i < again.len() implies spared(session)(#[trigger] again[i]) by {
        assert(again[i] == without_cr(kept[i]));
        assert(spared(session)(kept[i]));
        lemma_spared_without_cr(kept[i], marker);
    }
    lemma_filter_all(again, spared(session));
}

} // verus!
