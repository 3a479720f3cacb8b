//! What holds of every argument that the command reads and of everything that it prints.

use vstd::prelude::*;

use crate::ids::hyphenated;
use crate::purge_command::{
    bad_id_message, confirm_message, layer_lines, layer_rows, out, printed, receipt_lines,
    total_rows, trimmed, trimmed_back, trimmed_front, warning_lines, white_space, LayerCount,
    OutputLine, Printed, ReceiptSummary, SpoolSweep,
};
use crate::text::decimal;

verus! {

/// One of the characters that are taken for space around an argument.
pub open spec fn blank(c: char) -> bool {
    c == '\u{9}' || c == '\u{a}' || c == '\u{b}' || c == '\u{c}' || c == '\u{d}' || c == '\u{20}'
        || c == '\u{85}' || c == '\u{a0}' || c == '\u{1680}' || c == '\u{2000}' || c == '\u{2001}'
        || c == '\u{2002}' || c == '\u{2003}' || c == '\u{2004}' || c == '\u{2005}' || c
        == '\u{2006}' || c == '\u{2007}' || c == '\u{2008}' || c == '\u{2009}' || c == '\u{200a}'
        || c == '\u{2028}' || c == '\u{2029}' || c == '\u{202f}' || c == '\u{205f}' || c
        == '\u{3000}'
}

/// The part of `s` from `i` to `j` is what is left without the space around it.
pub open spec fn is_core(s: Seq<char>, i: int, j: int) -> bool {
    &&& 0 <= i <= j <= s.len()
    &&& forall|k: int| 0 <= k < i ==> blank(#[trigger] s[k])
    &&& forall|k: int| j <= k < s.len() ==> blank(#[trigger] s[k])
    &&& i < j ==> !blank(s[i]) && !blank(s[j - 1])
}

proof fn lemma_trimmed_front(s: Seq<char>) -> (i: int)
    ensures
        0 <= i <= s.len(),
        trimmed_front(s) == s.skip(i),
        forall|k: int| 0 <= k < i ==> white_space(#[trigger] s[k]),
        i < s.len() ==> !white_space(s[i]),
    decreases s.len(),
{
    if s.len() > 0 && white_space(s[0]) {
        let rest = s.drop_first();
        let m = lemma_trimmed_front(rest);
        assert(rest.skip(m) == s.skip(m + 1));
        assert forall|k: int| 0 <= k < m + 1 implies white_space(#[trigger] s[k]) by {
            if k > 0 {
                assert(rest[k - 1] == s[k]);
            }
        }
        m + 1
    } else {
        assert(s.skip(0) == s);
        0
    }
}

proof fn lemma_trimmed_back(s: Seq<char>) -> (j: int)
    ensures
        0 <= j <= s.len(),
        trimmed_back(s) == s.take(j),
        forall|k: int| j <= k < s.len() ==> white_space(#[trigger] s[k]),
        j > 0 ==> !white_space(s[j - 1]),
    decreases s.len(),
{
    if s.len() > 0 && white_space(s.last()) {
        let rest = s.drop_last();
        let m = lemma_trimmed_back(rest);
        assert(rest.take(m) == s.take(m));
        assert forall|k: int| m <= k < s.len() implies white_space(#[trigger] s[k]) by {
            if k < rest.len() {
                assert(rest[k] == s[k]);
            }
        }
        m
    } else {
        assert(s.take(s.len() as int) == s);
        s.len() as int
    }
}

/// Trimming an argument takes away the space around it, all of it and nothing else.
pub proof fn law_trimming_takes_the_space_around(s: Seq<char>)
    ensures
        exists|i: int, j: int| #[trigger] is_core(s, i, j) && trimmed(s) == s.subrange(i, j),
        forall|i: int, j: int| #[trigger]
            is_core(s, i, j) && i < j ==> trimmed(s) == s.subrange(i, j),
{
    assert forall|c: char| #[trigger] blank(c) == white_space(c) by {}
    let i = lemma_trimmed_front(s);
    let rest = s.skip(i);
    let n = lemma_trimmed_back(rest);
    let j = i + n;
    assert(trimmed(s) == s.subrange(i, j));
    assert forall|k: int| j <= k < s.len() implies blank(#[trigger] s[k]) by {
        assert(rest[k - i] == s[k]);
    }
    if i < j {
        assert(rest[0] == s[i]);
        assert(rest[n - 1] == s[j - 1]);
    }
    assert forall|k: int| 0 <= k < i implies blank(#[trigger] s[k]) by {
        assert(white_space(s[k]));
    }
    assert(is_core(s, i, j));
    assert forall|a: int, b: int| #[trigger] is_core(s, a, b) && a < b implies trimmed(s)
        == s.subrange(a, b) by {
        if i == j {
            assert(i == s.len()) by {
                if i < s.len() {
                    assert(!white_space(s[i]));
                    assert(rest[0] == s[i]);
                    assert(white_space(rest[0]));
                }
            }
            assert(blank(s[a]));
        } else {
            if a < i {
                assert(blank(s[a]));
            }
            if i < a {
                assert(blank(s[i]));
            }
            if b < j {
                assert(blank(s[j - 1]));
            }
            if j < b {
                assert(blank(s[b - 1]));
            }
        }
    }
}

/// What is said to an operator whose argument names no session, and to one who has not
/// confirmed, word for word.
pub proof fn law_refusals_of_the_command(
    shown: Seq<char>,
    workspace: Seq<char>,
    project: Seq<char>,
    session: Seq<u8>,
)
    ensures
        bad_id_message(shown) == "--session-id must be a complete session UUID (got "@ + shown
            + "). Prefixes and titles are not accepted: this deletion is irreversible."@,
        confirm_message(workspace, project, session)
            == "purge-session is destructive and irreversible. It removes the session, its\nobservations, handoffs, derived pages, and auto-improvement artifacts across\nevery layer, leaving only a content-free tombstone.\n\nRe-run with --confirm to proceed:\n\n  ai-memory purge-session --workspace "@
            + workspace + " --project "@ + project + " --session-id "@ + hyphenated(session)
            + " --confirm"@,
{
}

/// Rows add up over the layers, and layers are listed in their order: none for none; for
/// one, its rows, and a line if there are any; for two lists, one behind the other. A layer
/// without a count counts as nothing.
pub proof fn law_layers_add_up(a: Seq<LayerCount>, b: Seq<LayerCount>)
    ensures
        a.len() == 0 ==> total_rows(a) == 0 && layer_lines(a).len() == 0,
        a.len() == 1 && a[0].rows is None ==> total_rows(a) == 0 && layer_lines(a).len() == 0,
        a.len() == 1 ==> (a[0].rows matches Some(n) ==> total_rows(a) == n && (n == 0
            ==> layer_lines(a).len() == 0) && (n > 0 ==> layer_lines(a) == seq![
            Printed {
                text: "  "@ + a[0].layer@ + ": "@ + decimal(n as nat),
                is_error: false,
            },
        ])),
        total_rows(a + b) == total_rows(a) + total_rows(b),
        layer_lines(a + b) == layer_lines(a) + layer_lines(b),
    decreases b.len(),
{
    if a.len() == 1 {
        assert(total_rows(a.drop_last()) == 0);
        assert(layer_lines(a.drop_last()) == Seq::<Printed>::empty());
        assert(total_rows(a) == layer_rows(a[0]));
    }
    if b.len() == 0 {
        assert(a + b == a);
        assert(layer_lines(a) + layer_lines(b) == layer_lines(a));
    } else {
        let c = b.drop_last();
        law_layers_add_up(a, c);
        assert((a + b).drop_last() == a + c);
        if layer_rows(b.last()) > 0 {
            let line = layer_lines(b).last();
            assert((layer_lines(a) + layer_lines(c)).push(line) == layer_lines(a) + layer_lines(
                c,
            ).push(line));
        }
    }
}

/// The lines that are printed where a condition holds.
pub open spec fn printed_if(condition: bool, text: Seq<char>, is_error: bool) -> Seq<Printed> {
    if condition {
        seq![Printed { text, is_error }]
    } else {
        Seq::empty()
    }
}

/// Everything that is printed for a receipt, in order: what became of the session, with the
/// rows that each layer lost unless it had been purged before; events removed from the local
/// spool, if any, and entries there that could not be, if any, as an error; the backups that
/// still hold the session, if the receipt says; that other hosts are out of reach; each
/// warning, as an error; and the receipt itself.
pub proof fn law_receipts_are_told_in_full(
    r: ReceiptSummary,
    sweep: SpoolSweep,
    workspace: Seq<char>,
    project: Seq<char>,
    session: Seq<u8>,
)
    ensures
        ({
            let repeated = r.status is Some && r.status->0@ == "already_purged"@;
            let scope = workspace + "/"@ + project + " session "@ + hyphenated(session);
            receipt_lines(r, sweep, workspace, project, session) == printed_if(
                repeated,
                "already purged: "@ + scope,
                false,
            ) + printed_if(
                !repeated,
                "purged "@ + scope + " ("@ + decimal(total_rows(r.counts@)) + " rows)"@,
                false,
            ) + (if repeated {
                Seq::empty()
            } else {
                layer_lines(r.counts@)
            }) + printed_if(
                sweep.removed > 0,
                "  local spool: "@ + decimal(sweep.removed as nat) + " queued events removed"@,
                false,
            ) + printed_if(
                sweep.unreadable > 0,
                "  warning: "@ + decimal(sweep.unreadable as nat)
                    + " local spool entries could not be read or removed"@,
                true,
            ) + printed_if(
                r.backup_cutoff is Some,
                "  backups taken before "@ + r.backup_cutoff->0@ + " still contain this session"@,
                false,
            ) + seq![
                Printed {
                    text: "  spools on other hosts are not reachable from here; the server tombstone refuses them with 410"@,
                    is_error: false,
                },
            ] + Seq::new(
                r.warnings@.len(),
                |i: int| Printed { text: "  warning: "@ + r.warnings@[i]@, is_error: true },
            ) + seq![Printed { text: seq!['\n'] + r.pretty@, is_error: false }]
        }),
{
    assert(warning_lines(r.warnings@) == Seq::new(
        r.warnings@.len(),
        |i: int| Printed { text: "  warning: "@ + r.warnings@[i]@, is_error: true },
    ));
}

/// A line says what it holds.
pub proof fn law_a_line_says_what_it_holds(lines: Seq<OutputLine>, k: int)
    requires
        0 <= k < lines.len(),
    ensures
        printed(lines).len() == lines.len(),
        printed(lines)[k].text == lines[k].text@,
        printed(lines)[k].is_error == lines[k].is_error,
{
}

} // verus!
