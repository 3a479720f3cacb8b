//! Removing a session's entries from the monthly logs.

use ai_memory_purge::ids::SessionId;
use ai_memory_purge::log_purge::{
    is_log_name, purge_session_lines, session_marker, LogChange, LogFile, LogPurge,
    LogPurgeOutcome,
};

fn session(n: u8) -> SessionId {
    SessionId { bytes: [n; 16] }
}

fn log(name: &str, body: &str) -> LogFile {
    LogFile { name: name.to_string(), body: body.to_string() }
}

fn entry(n: u8, text: &str) -> String {
    format!("## [2026-05-01] {text} {}\n", session_marker(session(n)))
}

#[test]
fn the_marker_is_exact() {
    assert_eq!(
        session_marker(session(0xab)),
        "<!-- ai-memory:session=abababab-abab-abab-abab-abababababab -->"
    );
    assert!(!session_marker(session(1)).contains(&session_marker(session(2))));
}

#[test]
fn only_monthly_logs_are_touched() {
    for (name, expected) in [
        ("log-2026-05.md", true),
        ("log-.md", true),
        ("log.md", false),
        ("log-2026-05.txt", false),
        ("xlog-2026-05.md", false),
        ("", false),
    ] {
        assert_eq!(is_log_name(name), expected, "{name}");
    }
    let body = entry(1, "mine");
    let files = vec![log("notes.md", &body)];
    let (changes, outcome) = purge_session_lines(&files, session(1), true);
    assert_eq!(changes, vec![LogChange::Keep]);
    assert_eq!(outcome, LogPurgeOutcome::default());
}

#[test]
fn attributed_lines_go_and_others_stay() {
    let body = format!("{}tail of mine\r\n{}", entry(1, "mine"), entry(2, "other"));
    let files = vec![log("log-2026-05.md", &body)];
    let (changes, outcome) = purge_session_lines(&files, session(1), false);
    assert_eq!(
        changes,
        vec![LogChange::Rewrite(format!("tail of mine\n{}", entry(2, "other")))]
    );
    assert_eq!(outcome.removed, 1);
    assert!(outcome.unattributed_files.is_empty());

    // A second purge finds nothing.
    if let LogChange::Rewrite(again) = &changes[0] {
        let (changes, outcome) =
            purge_session_lines(&vec![log("log-2026-05.md", again)], session(1), false);
        assert_eq!(changes, vec![LogChange::Keep]);
        assert_eq!(outcome.removed, 0);
    }
}

#[test]
fn unattributed_logs_are_reported_unless_forced() {
    let mixed = format!("## [2026-04-01] legacy entry\n{}", entry(1, "mine"));
    let files = vec![
        log("log-2026-05.md", &entry(1, "mine")),
        log("log-2026-04.md", &mixed),
        log("log-2026-03.md", "## [2026-03-01] legacy only\n"),
        log("log-2026-02.md", "no headers at all\n"),
    ];
    let (changes, outcome) = purge_session_lines(&files, session(1), false);
    assert_eq!(
        changes,
        vec![
            LogChange::Rewrite(String::new()),
            LogChange::Keep,
            LogChange::Keep,
            LogChange::Keep,
        ]
    );
    assert_eq!(outcome.removed, 1);
    assert_eq!(outcome.unattributed_files, vec!["log-2026-03.md", "log-2026-04.md"]);

    let (changes, outcome) = purge_session_lines(&files, session(1), true);
    assert_eq!(
        changes,
        vec![
            LogChange::Rewrite(String::new()),
            LogChange::Remove,
            LogChange::Remove,
            LogChange::Keep,
        ]
    );
    assert_eq!(outcome.removed, 2);
    assert!(outcome.unattributed_files.is_empty());
}

#[test]
fn a_log_with_a_legacy_entry_is_left_intact() {
    let body = format!("## [x] legacy\n## [y] mine {}", session_marker(session(1)));
    let files = vec![log("log-2026-04.md", &body)];
    let (changes, outcome) = purge_session_lines(&files, session(1), false);
    assert_eq!(changes, vec![LogChange::Keep]);
    assert_eq!(outcome.removed, 0);
    assert_eq!(outcome.unattributed_files, vec!["log-2026-04.md"]);
    let (changes, outcome) = purge_session_lines(&files, session(1), true);
    assert_eq!(changes, vec![LogChange::Remove]);
    assert_eq!(outcome.removed, 1);
    assert!(outcome.unattributed_files.is_empty());
}

#[test]
fn other_sessions_headers_are_attributed() {
    let files = vec![log("log-2026-05.md", &entry(2, "other"))];
    let (changes, outcome) = purge_session_lines(&files, session(1), true);
    assert_eq!(changes, vec![LogChange::Keep]);
    assert_eq!(outcome, LogPurgeOutcome::default());
}

#[test]
fn files_can_be_visited_one_by_one() {
    let mut purge = LogPurge::new(session(1), false);
    assert_eq!(purge.visit("log-b.md", "## [x] legacy\n"), LogChange::Keep);
    assert_eq!(purge.visit("log-a.md", "## [x] legacy\n"), LogChange::Keep);
    assert_eq!(purge.visit("log-c.md", &entry(1, "m")), LogChange::Rewrite(String::new()));
    assert_eq!(purge.outcome.removed, 1);
    assert_eq!(purge.outcome.unattributed_files, vec!["log-a.md", "log-b.md"]);
}
