//! Which archive entries are accepted, and when a restore goes on.

use ai_memory_purge::ids::SessionId;
use ai_memory_purge::ledger::RepurgedSession;
use ai_memory_purge::restore::{
    check_ledger_source, check_source, clear_before_restore, pages_to_remove, restore_report,
    restore_verdict, validate_restore_entry, PathStyle,
};

fn append(builder: &mut tar::Builder<&mut Vec<u8>>, path: &str, entry_type: tar::EntryType) {
    let mut header = tar::Header::new_gnu();
    header.set_path(path).unwrap();
    header.set_entry_type(entry_type);
    if entry_type.is_symlink() || entry_type.is_hard_link() {
        header.set_link_name("/etc/passwd").unwrap();
    }
    let body: &[u8] = if entry_type.is_file() { b"body" } else { b"" };
    header.set_size(body.len() as u64);
    header.set_cksum();
    builder.append(&header, body).unwrap();
}

fn archive_with_entries(entries: &[(&str, tar::EntryType)]) -> Vec<u8> {
    let mut bytes = Vec::new();
    {
        let mut builder = tar::Builder::new(&mut bytes);
        for (path, entry_type) in entries {
            append(&mut builder, path, *entry_type);
        }
        builder.finish().unwrap();
    }
    bytes
}

/// The style of the platform that the tests run on.
fn host_style() -> PathStyle {
    if std::path::MAIN_SEPARATOR == '\\' {
        PathStyle::Windows
    } else {
        PathStyle::Unix
    }
}

/// Read an archive entry by entry, accepting each before it would be extracted.
fn check_archive(bytes: &[u8]) -> Result<Vec<String>, String> {
    let mut accepted = Vec::new();
    let mut archive = tar::Archive::new(bytes);
    for entry in archive.entries().unwrap() {
        let entry = entry.unwrap();
        let path = entry.path().unwrap().to_string_lossy().into_owned();
        let flag = entry.header().entry_type().as_byte();
        validate_restore_entry(host_style(), &path, flag).map_err(|e| e.message)?;
        accepted.push(path);
    }
    Ok(accepted)
}

#[test]
fn restore_accepts_expected_backup_paths() {
    let bytes = archive_with_entries(&[
        ("wiki", tar::EntryType::dir()),
        ("wiki/default/project/notes/x.md", tar::EntryType::file()),
        ("db/memory.sqlite", tar::EntryType::file()),
        ("config.toml", tar::EntryType::file()),
    ]);
    let accepted = check_archive(&bytes).unwrap();
    assert!(accepted.contains(&"wiki/default/project/notes/x.md".to_string()));
    assert!(accepted.contains(&"db/memory.sqlite".to_string()));
    assert!(accepted.contains(&"config.toml".to_string()));
    assert_eq!(accepted.len(), 4);
}

#[test]
fn restore_rejects_link_entries() {
    for entry_type in [tar::EntryType::symlink(), tar::EntryType::hard_link()] {
        let bytes = archive_with_entries(&[("wiki/link.md", entry_type)]);
        let err = check_archive(&bytes).unwrap_err();
        assert!(err.contains("unsupported link entry"));
    }
}

#[test]
fn restore_rejects_unexpected_or_unsafe_paths() {
    for (style, path) in [
        (PathStyle::Unix, "../config.toml"),
        (PathStyle::Unix, "/tmp/x"),
        (PathStyle::Windows, "../config.toml"),
        (PathStyle::Windows, "/tmp/x"),
    ] {
        let err = validate_restore_entry(style, path, tar::EntryType::file().as_byte()).unwrap_err();
        assert!(
            err.message.contains("unsafe path"),
            "unexpected error for {path}: {err:?}"
        );
    }

    let path = "db/extra.sqlite";
    let bytes = archive_with_entries(&[(path, tar::EntryType::file())]);
    let err = check_archive(&bytes).unwrap_err();
    assert!(err.contains("unexpected path"), "unexpected error for {path}: {err}");
}

#[test]
fn unsafe_paths_are_those_with_unusual_components() {
    let file = tar::EntryType::file().as_byte();
    for path in [
        "wiki/x.md", "wiki/./x.md", "wiki/../x.md", "wiki/..", "..", ".", "./wiki/x.md",
        "wiki/..x/y.md", "wiki/x..", "wiki//x.md", "/", "", "wiki/...", ".wiki", "wiki/.",
    ] {
        let normal = std::path::Path::new(path)
            .components()
            .all(|c| matches!(c, std::path::Component::Normal(_)));
        let refused = match validate_restore_entry(host_style(), path, file) {
            Ok(()) => false,
            Err(e) => e.message == format!("backup contains unsafe path: {path}"),
        };
        assert_eq!(refused, !normal, "{path:?}");
    }
}

#[test]
fn windows_paths_have_more_separators_and_drives() {
    let file = tar::EntryType::file().as_byte();
    for (path, on_unix, on_windows) in [
        ("wiki/x.md", false, false),
        ("wiki/..\\x", false, true),
        ("wiki\\..\\x", false, true),
        ("wiki/a\\b.md", false, false),
        ("\\wiki", false, true),
        ("\\\\server\\share\\wiki", false, true),
        ("C:wiki/x.md", false, true),
        ("z:\\x", false, true),
        ("1:x", false, false),
        (":x", false, false),
        (".\\wiki", false, true),
        ("wiki\\.\\x", false, false),
        ("..\\x", false, true),
        ("wiki/../x", true, true),
        ("/x", true, true),
    ] {
        for (style, unsafe_there) in
            [(PathStyle::Unix, on_unix), (PathStyle::Windows, on_windows)]
        {
            let refused = match validate_restore_entry(style, path, file) {
                Ok(()) => false,
                Err(e) => e.message == format!("backup contains unsafe path: {path}"),
            };
            assert_eq!(refused, unsafe_there, "{path:?} in {style:?}");
        }
    }
}

#[test]
fn entry_types_are_told_apart() {
    let kinds: Vec<(u8, &str)> = vec![
        (0, "ok"),
        (b'0', "ok"),
        (b'1', "backup contains unsupported link entry: wiki/x"),
        (b'2', "backup contains unsupported link entry: wiki/x"),
        (b'3', "backup contains unsupported entry type: wiki/x"),
        (b'4', "backup contains unsupported entry type: wiki/x"),
        (b'5', "ok"),
        (b'6', "backup contains unsupported entry type: wiki/x"),
        (b'7', "backup contains unsupported entry type: wiki/x"),
        (b'x', "backup contains unsupported entry type: wiki/x"),
        (b'S', "backup contains unsupported entry type: wiki/x"),
        (255, "backup contains unsupported entry type: wiki/x"),
    ];
    for (flag, expected) in kinds {
        let got = match validate_restore_entry(host_style(), "wiki/x", flag) {
            Ok(()) => "ok".to_string(),
            Err(e) => e.message,
        };
        assert_eq!(got, expected, "{flag}");
    }
    let dir = tar::EntryType::dir().as_byte();
    assert!(validate_restore_entry(host_style(), "db", dir).is_ok());
    assert!(validate_restore_entry(host_style(), "db", b'0').is_err());
    assert!(validate_restore_entry(host_style(), "config.toml", dir).is_err());
    assert_eq!(
        validate_restore_entry(host_style(), "models", dir).unwrap_err().message,
        "backup contains unexpected path: models"
    );
}

#[test]
fn existing_data_is_overwritten_only_when_forced() {
    assert_eq!(clear_before_restore(false, false, false, "/d"), Ok(false));
    assert_eq!(clear_before_restore(false, false, true, "/d"), Ok(false));
    assert_eq!(clear_before_restore(true, false, true, "/d"), Ok(true));
    assert_eq!(clear_before_restore(false, true, true, "/d"), Ok(true));
    for (wiki, db) in [(true, false), (false, true), (true, true)] {
        assert_eq!(
            clear_before_restore(wiki, db, false, "/d").unwrap_err().message,
            "refusing to restore: data dir at /d is non-empty (pass --force to overwrite)"
        );
    }
    assert!(check_source(true, "b.tgz").is_ok());
    assert_eq!(
        check_source(false, "b.tgz").unwrap_err().message,
        "source tarball b.tgz not found"
    );
}

#[test]
fn an_explicit_ledger_must_be_there() {
    assert!(check_ledger_source(None, false).is_ok());
    assert!(check_ledger_source(Some("/old"), true).is_ok());
    assert_eq!(
        check_ledger_source(Some("/old"), false).unwrap_err().message,
        "--tombstones-from /old has no db/memory.sqlite to read a tombstone ledger from"
    );
}

#[test]
fn a_restore_fails_closed() {
    assert_eq!(restore_verdict(0, 3), Ok(3));
    assert_eq!(
        restore_verdict(2, 3).unwrap_err().message,
        "restore aborted: 2 purged session(s) survive in the restored state. \
         The data directory is NOT safe to serve."
    );
}

#[test]
fn pages_of_all_sessions_are_removed() {
    let one = RepurgedSession {
        session_id: SessionId { bytes: [1; 16] },
        repo_paths: vec!["a".to_string(), "b".to_string()],
    };
    let two = RepurgedSession {
        session_id: SessionId { bytes: [2; 16] },
        repo_paths: vec!["c".to_string()],
    };
    assert_eq!(pages_to_remove(&vec![one, two]), vec!["a", "b", "c"]);
    assert!(pages_to_remove(&Vec::new()).is_empty());
}

#[test]
fn a_restore_reports_what_it_did() {
    assert_eq!(restore_report("b.tgz", "/d", 0), vec!["restored b.tgz -> /d"]);
    assert_eq!(
        restore_report("b.tgz", "/d", 2),
        vec![
            "restored b.tgz -> /d",
            "re-purged 2 session(s) the tombstone ledger says were deleted",
        ]
    );
}
