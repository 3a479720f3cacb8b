//! The `purge-session` command.

use ai_memory_purge::ids::SessionId;
use ai_memory_purge::purge_command::{
    prepare_request, receipt_output, total_removed_rows, trim_text, LayerCount, PurgeSessionRequest,
    ReceiptSummary, SpoolSweep,
};

const ID: &str = "67e55044-10b1-426f-9247-bb680e5fe0c8";

#[test]
fn a_confirmed_complete_id_is_sent() {
    let (id, request) =
        prepare_request("default", "audit", " \t67E5504410B1426F9247BB680E5FE0C8\n", true, false)
            .unwrap();
    assert_eq!(Some(id), SessionId::parse(ID));
    assert_eq!(
        request,
        PurgeSessionRequest {
            workspace: "default".to_string(),
            project: "audit".to_string(),
            session_id: ID.to_string(),
            confirm: true,
            force: false,
        }
    );
    assert!(prepare_request("w", "p", ID, true, true).unwrap().1.force);
}

#[test]
fn an_incomplete_id_is_refused() {
    let err = prepare_request("w", "p", "67e5\"\n", true, false).unwrap_err();
    assert_eq!(
        err.message,
        "--session-id must be a complete session UUID (got \"67e5\\\"\\n\"). \
         Prefixes and titles are not accepted: this deletion is irreversible."
    );
    assert!(prepare_request("w", "p", "", false, false)
        .unwrap_err()
        .message
        .contains("(got \"\")"));
}

#[test]
fn an_unconfirmed_purge_is_explained() {
    let err = prepare_request("w", "p", ID, false, true).unwrap_err();
    assert_eq!(
        err.message,
        format!(
            "purge-session is destructive and irreversible. It removes the session, its\n\
             observations, handoffs, derived pages, and auto-improvement artifacts across\n\
             every layer, leaving only a content-free tombstone.\n\n\
             Re-run with --confirm to proceed:\n\n  \
             ai-memory purge-session --workspace w --project p \
             --session-id {ID} --confirm"
        )
    );
}

#[test]
fn white_space_is_trimmed_as_in_the_standard_library() {
    for c in 0..0x3100u32 {
        if let Some(c) = char::from_u32(c) {
            let text = format!("{c}a{c}b{c}");
            assert_eq!(trim_text(&text), text.trim(), "{c:?}");
        }
    }
    assert_eq!(trim_text(" \u{3000} "), "");
}

fn count(layer: &str, rows: Option<u64>) -> LayerCount {
    LayerCount { layer: layer.to_string(), rows }
}

fn print(receipt: &ReceiptSummary, sweep: SpoolSweep) -> Vec<(String, bool)> {
    receipt_output(receipt, sweep, "w", "p", SessionId::parse(ID).unwrap())
        .into_iter()
        .map(|l| (l.text, l.is_error))
        .collect()
}

#[test]
fn a_purge_is_reported_layer_by_layer() {
    let receipt = ReceiptSummary {
        status: Some("purged".to_string()),
        counts: vec![
            count("handoffs", Some(2)),
            count("observations", Some(40)),
            count("note", None),
            count("sessions", Some(0)),
        ],
        backup_cutoff: Some("2026-05-01T00:00:00Z".to_string()),
        warnings: vec!["careful".to_string()],
        pretty: "{}".to_string(),
    };
    assert_eq!(total_removed_rows(&receipt.counts), 42);
    let sweep = SpoolSweep { removed: 3, kept: 1, unreadable: 2 };
    let expected: Vec<(String, bool)> = vec![
        (format!("purged w/p session {ID} (42 rows)"), false),
        ("  handoffs: 2".to_string(), false),
        ("  observations: 40".to_string(), false),
        ("  local spool: 3 queued events removed".to_string(), false),
        (
            "  warning: 2 local spool entries could not be read or removed".to_string(),
            true,
        ),
        (
            "  backups taken before 2026-05-01T00:00:00Z still contain this session".to_string(),
            false,
        ),
        (
            "  spools on other hosts are not reachable from here; the server tombstone \
             refuses them with 410"
                .to_string(),
            false,
        ),
        ("  warning: careful".to_string(), true),
        ("\n{}".to_string(), false),
    ];
    assert_eq!(print(&receipt, sweep), expected);
}

#[test]
fn a_repeated_purge_is_reported_as_such() {
    let receipt = ReceiptSummary {
        status: Some("already_purged".to_string()),
        counts: vec![count("sessions", Some(1))],
        backup_cutoff: None,
        warnings: Vec::new(),
        pretty: "{}".to_string(),
    };
    let lines = print(&receipt, SpoolSweep { removed: 0, kept: 0, unreadable: 0 });
    assert_eq!(lines.len(), 3);
    assert_eq!(lines[0].0, format!("already purged: w/p session {ID}"));

    let unknown = ReceiptSummary { status: None, ..receipt };
    let lines = print(&unknown, SpoolSweep { removed: 0, kept: 0, unreadable: 0 });
    assert_eq!(lines[0].0, format!("purged w/p session {ID} (1 rows)"));
}
