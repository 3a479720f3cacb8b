//! What holds of every log that a purge reads, said of its lines.

use vstd::prelude::*;

use crate::ids::hyphenated;
use crate::log_purge::{
    change_of, file_change, has_unattributed, kept_lines, law_log_purge_is_idempotent,
    lemma_lines_of_closed, lemma_split_count, lemma_text_of_front, lines_taken, log_name, marker_of,
    marker_prefix, reported, spared, text_of, total_removed, unattributed_header, Change, LogChange,
    LogFile,
};
use crate::store::lemma_filter;
use crate::text::{has_text, lemma_line_feed_from, lines_of, occurs_at};

verus! {

/// `part` is the piece of `line` that starts at `i`.
pub open spec fn piece_at(line: Seq<char>, part: Seq<char>, i: int) -> bool {
    0 <= i <= line.len() - part.len() && line.subrange(i, i + part.len()) == part
}

/// `part` is a piece of `line`.
pub open spec fn says(line: Seq<char>, part: Seq<char>) -> bool {
    exists|i: int| #[trigger] piece_at(line, part, i)
}

/// The line carries the comment that names the session.
pub open spec fn marked(line: Seq<char>, session: Seq<u8>) -> bool {
    says(line, "<!-- ai-memory:session="@ + hyphenated(session) + " -->"@)
}

/// The line opens an entry, and carries no comment that names a session.
pub open spec fn anonymous(line: Seq<char>) -> bool {
    line.len() >= 4 && line[0] == '#' && line[1] == '#' && line[2] == ' ' && line[3] == '['
        && !says(line, "<!-- ai-memory:session="@)
}

/// Among the lines that do not carry the session's comment, one opens an anonymous entry.
pub open spec fn holds_anonymous(lines: Seq<Seq<char>>, session: Seq<u8>) -> bool {
    exists|k: int|
        0 <= k < lines.len() && !marked(lines[k], session) && anonymous(#[trigger] lines[k])
}

/// The lines, each with a line feed behind it, one after another.
pub open spec fn closed(lines: Seq<Seq<char>>) -> Seq<char>
    decreases lines.len(),
{
    if lines.len() == 0 {
        Seq::empty()
    } else {
        lines[0] + seq!['\n'] + closed(lines.drop_first())
    }
}

/// The name starts with `log-` and ends with `.md`.
pub open spec fn names_log(name: Seq<char>) -> bool {
    &&& name.len() >= 4
    &&& name[0] == 'l' && name[1] == 'o' && name[2] == 'g' && name[3] == '-'
    &&& name[name.len() - 3] == '.' && name[name.len() - 2] == 'm' && name[name.len() - 1] == 'd'
}

proof fn lemma_says(line: Seq<char>, part: Seq<char>)
    ensures
        says(line, part) == has_text(line, part),
{
    if has_text(line, part) {
        let i = choose|i: int| occurs_at(line, part, i);
        assert(piece_at(line, part, i));
    }
    if says(line, part) {
        let i = choose|i: int| #[trigger] piece_at(line, part, i);
        assert(occurs_at(line, part, i));
    }
}

proof fn lemma_closed(lines: Seq<Seq<char>>)
    ensures
        closed(lines) == text_of(lines),
    decreases lines.len(),
{
    if lines.len() > 0 {
        lemma_text_of_front(lines);
        lemma_closed(lines.drop_first());
    }
}

proof fn lemma_anonymous(line: Seq<char>)
    ensures
        anonymous(line) == unattributed_header(line),
{
    reveal_strlit("## [");
    lemma_says(line, "<!-- ai-memory:session="@);
    let head = "## ["@;
    if head.is_prefix_of(line) {
        assert(line.subrange(0, 4) == head);
        assert(line.subrange(0, 4)[0] == line[0]);
        assert(line.subrange(0, 4)[1] == line[1]);
        assert(line.subrange(0, 4)[2] == line[2]);
        assert(line.subrange(0, 4)[3] == line[3]);
    }
    if anonymous(line) {
        assert(line.subrange(0, 4) == head);
    }
}

/// A monthly log is named `log-….md`, and every such file is one.
pub proof fn law_logs_are_named_so(name: Seq<char>)
    ensures
        log_name(name) == names_log(name),
{
    reveal_strlit("log-");
    reveal_strlit(".md");
    let head = "log-"@;
    let tail = ".md"@;
    let n = name.len() as int;
    if head.is_prefix_of(name) {
        assert(name.subrange(0, 4) == head);
        assert(name.subrange(0, 4)[0] == name[0]);
        assert(name.subrange(0, 4)[1] == name[1]);
        assert(name.subrange(0, 4)[2] == name[2]);
        assert(name.subrange(0, 4)[3] == name[3]);
    }
    if tail.is_suffix_of(name) {
        assert(name.subrange(n - 3, n) == tail);
        assert(name.subrange(n - 3, n)[0] == name[n - 3]);
        assert(name.subrange(n - 3, n)[1] == name[n - 2]);
        assert(name.subrange(n - 3, n)[2] == name[n - 1]);
    }
    if names_log(name) {
        assert(name.subrange(0, 4) == head);
        assert(name.subrange(n - 3, n) == tail);
    }
}

/// The comment that an entry of the session carries, letter for letter.
pub proof fn law_the_marker_names_the_session(session: Seq<u8>)
    ensures
        marker_of(session) == "<!-- ai-memory:session="@ + hyphenated(session) + " -->"@,
        marker_prefix() == "<!-- ai-memory:session="@,
{
}

/// The predicate picks the lines that the marker does not.
proof fn lemma_spared(lines: Seq<Seq<char>>, session: Seq<u8>)
    ensures
        lines.filter(spared(session)) == lines.filter(|l: Seq<char>| !marked(l, session)),
        lines.len() == lines.filter(spared(session)).len() + lines.filter(
            |l: Seq<char>| marked(l, session),
        ).len(),
{
    assert forall|l: Seq<char>| #[trigger] marked(l, session) == has_text(
        l,
        marker_of(session),
    ) by {
        lemma_says(l, marker_of(session));
    }
    assert(spared(session) =~= (|l: Seq<char>| !marked(l, session)));
    let marker = marker_of(session);
    assert((|l: Seq<char>| has_text(l, marker)) =~= (|l: Seq<char>| marked(l, session)));
    lemma_split_count(lines, marker, session);
}

/// The lines of unknown origin are those that the characters say are.
proof fn lemma_holds_anonymous(body: Seq<char>, session: Seq<u8>)
    ensures
        has_unattributed(body, session) == holds_anonymous(lines_of(body), session),
{
    let lines = lines_of(body);
    let kept = kept_lines(body, session);
    lemma_filter(lines, spared(session));
    assert forall|l: Seq<char>| #[trigger] unattributed_header(l) == anonymous(l) by {
        lemma_anonymous(l);
    }
    assert forall|l: Seq<char>| #[trigger] spared(session)(l) == !marked(l, session) by {
        lemma_says(l, marker_of(session));
    }
    if has_unattributed(body, session) {
        let i = choose|i: int| 0 <= i < kept.len() && unattributed_header(#[trigger] kept[i]);
        assert(kept.contains(kept[i]));
        let k = choose|k: int| 0 <= k < lines.len() && lines[k] == kept[i];
        assert(spared(session)(lines[k]));
        assert(anonymous(lines[k]));
    }
    if holds_anonymous(lines, session) {
        let k = choose|k: int|
            0 <= k < lines.len() && !marked(lines[k], session) && anonymous(#[trigger] lines[k]);
        assert(spared(session)(lines[k]));
        assert(lines.contains(lines[k]));
        assert(kept.contains(lines[k]));
        let i = choose|i: int| 0 <= i < kept.len() && kept[i] == lines[k];
        assert(unattributed_header(kept[i]));
    }
}

/// What becomes of a log, said of its lines. A log with an anonymous entry stays or, forced,
/// is removed. Any other log that has lines of the session, however many, is written anew
/// with all its other lines, in their order and each closed by a line feed; and one that has
/// none stays.
pub proof fn law_a_body_loses_its_marked_lines(body: Seq<char>, session: Seq<u8>, force: bool)
    ensures
        ({
            let lines = lines_of(body);
            let change = change_of(body, session, force);
            if holds_anonymous(lines, session) {
                if force {
                    change is Remove
                } else {
                    change is Keep
                }
            } else if exists|k: int| 0 <= k < lines.len() && marked(#[trigger] lines[k], session) {
                change == Change::Rewrite(
                    closed(lines.filter(|l: Seq<char>| !marked(l, session))),
                )
            } else {
                change is Keep
            }
        }),
{
    let lines = lines_of(body);
    lemma_holds_anonymous(body, session);
    lemma_spared(lines, session);
    lemma_closed(kept_lines(body, session));
    let hit = |l: Seq<char>| marked(l, session);
    lemma_filter(lines, hit);
    if exists|k: int| 0 <= k < lines.len() && marked(#[trigger] lines[k], session) {
        let k = choose|k: int| 0 <= k < lines.len() && marked(#[trigger] lines[k], session);
        assert(lines.contains(lines[k]) && hit(lines[k]));
        assert(lines.filter(hit).contains(lines[k]));
        assert(lines.filter(hit).len() > 0);
    } else if lines.filter(hit).len() > 0 {
        let l = lines.filter(hit)[0];
        assert(hit(l) && lines.contains(l));
        let k = choose|k: int| 0 <= k < lines.len() && lines[k] == l;
        assert(marked(lines[k], session));
    }
}

/// What becomes of a file, said of its name and its lines. A file that is no monthly log
/// stays. A log with an anonymous entry stays or, forced, is removed. Any other log that
/// has lines of the session, however many, is written anew with all its other lines, in
/// their order and each closed by a line feed; and one that has none stays.
pub proof fn law_a_log_loses_its_marked_lines(file: LogFile, session: Seq<u8>, force: bool)
    ensures
        ({
            let lines = lines_of(file.body@);
            let change = file_change(file, session, force);
            if !names_log(file.name@) {
                change is Keep
            } else if holds_anonymous(lines, session) {
                if force {
                    change is Remove
                } else {
                    change is Keep
                }
            } else if exists|k: int| 0 <= k < lines.len() && marked(#[trigger] lines[k], session) {
                change == Change::Rewrite(
                    closed(lines.filter(|l: Seq<char>| !marked(l, session))),
                )
            } else {
                change is Keep
            }
        }),
{
    law_logs_are_named_so(file.name@);
    law_a_body_loses_its_marked_lines(file.body@, session, force);
}

/// The lines taken out of a log are counted one by one, and none where the log is left
/// intact. Whenever any is counted, nothing of the session is left: the log is removed, or
/// is written anew with a text of which no line carries the session's comment.
pub proof fn law_counted_lines_are_gone(body: Seq<char>, session: Seq<u8>, force: bool)
    ensures
        lines_taken(body, session, force) == if holds_anonymous(lines_of(body), session)
            && !force {
            0
        } else {
            lines_of(body).filter(|l: Seq<char>| marked(l, session)).len() as int
        },
        has_unattributed(body, session) == holds_anonymous(lines_of(body), session),
        lines_taken(body, session, force) > 0 ==> match change_of(body, session, force) {
            Change::Keep => false,
            Change::Remove => true,
            Change::Rewrite(text) => forall|k: int|
                0 <= k < lines_of(text).len() ==> !marked(#[trigger] lines_of(text)[k], session),
        },
{
    let lines = lines_of(body);
    lemma_holds_anonymous(body, session);
    lemma_spared(lines, session);
    law_log_purge_is_idempotent(body, session);
    let text = text_of(kept_lines(body, session));
    let again = lines_of(text);
    lemma_spared(again, session);
    let hit = |l: Seq<char>| marked(l, session);
    lemma_filter(again, hit);
    assert forall|k: int| 0 <= k < again.len() implies !marked(#[trigger] again[k], session) by {
        if marked(again[k], session) {
            assert(again.contains(again[k]) && hit(again[k]));
            assert(again.filter(hit).contains(again[k]));
        }
    }
}

/// What is counted over several files adds up file by file, and what is reported stands
/// file by file: nothing for none; for one, what its lines say; and for two lists, the
/// one behind the other.
pub proof fn law_log_outcomes_add_up(
    a: Seq<LogFile>,
    b: Seq<LogFile>,
    session: Seq<u8>,
    force: bool,
)
    ensures
        a.len() == 0 ==> total_removed(a, session, force) == 0 && reported(
            a,
            session,
            force,
        ).len() == 0,
        a.len() == 1 ==> total_removed(a, session, force) == if names_log(a[0].name@) && (force
            || !holds_anonymous(lines_of(a[0].body@), session)) {
            lines_of(a[0].body@).filter(|l: Seq<char>| marked(l, session)).len() as int
        } else {
            0
        },
        a.len() == 1 ==> reported(a, session, force) == if names_log(a[0].name@) && !force
            && holds_anonymous(lines_of(a[0].body@), session) {
            seq![a[0].name@]
        } else {
            Seq::empty()
        },
        total_removed(a + b, session, force) == total_removed(a, session, force) + total_removed(
            b,
            session,
            force,
        ),
        reported(a + b, session, force) == reported(a, session, force) + reported(
            b,
            session,
            force,
        ),
    decreases b.len(),
{
    if a.len() == 1 {
        let none = a.drop_last();
        assert(total_removed(none, session, force) == 0);
        assert(reported(none, session, force) == Seq::<Seq<char>>::empty());
        law_logs_are_named_so(a[0].name@);
        law_counted_lines_are_gone(a[0].body@, session, force);
        assert(Seq::<Seq<char>>::empty().push(a[0].name@) == seq![a[0].name@]);
    }
    if b.len() == 0 {
        assert(a + b == a);
        assert(reported(a, session, force) + reported(b, session, force) == reported(
            a,
            session,
            force,
        ));
    } else {
        let c = b.drop_last();
        law_log_outcomes_add_up(a, c, session, force);
        assert((a + b).drop_last() == a + c);
        let rest = reported(a, session, force) + reported(c, session, force);
        assert(rest.push(b.last().name@) == reported(a, session, force) + reported(
            c,
            session,
            force,
        ).push(b.last().name@));
    }
}

/// How a text is read as lines: an empty text has none; what is not closed by a line feed
/// is one line, as it stands; and a line feed closes the line before it, from which one
/// carriage return at its end is dropped.
pub proof fn law_lines_end_at_line_feeds(line: Seq<char>, rest: Seq<char>)
    requires
        forall|i: int| 0 <= i < line.len() ==> line[i] != '\n',
    ensures
        lines_of(Seq::empty()).len() == 0,
        line.len() > 0 ==> lines_of(line) == seq![line],
        lines_of(line + seq!['\n'] + rest) == seq![
            if line.len() > 0 && line[line.len() - 1] == '\r' {
                line.take(line.len() - 1)
            } else {
                line
            },
        ] + lines_of(rest),
{
    lemma_lines_of_closed(line, rest);
    lemma_line_feed_from(line, 0);
    assert(line.subrange(0, line.len() as int) == line);
    if line.len() > 0 {
        assert(line.drop_last() == line.take(line.len() - 1));
    }
}

/// What is done with a file is what the decision says.
pub proof fn law_a_change_says_what_it_holds(change: LogChange)
    ensures
        change is Keep <==> change@ is Keep,
        change is Remove <==> change@ is Remove,
        change matches LogChange::Rewrite(body) ==> change@ == Change::Rewrite(body@),
{
}

} // verus!
