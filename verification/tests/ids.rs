//! Identifiers, instants and the text primitives.

use ai_memory_purge::clock::{now_microsecond, Timestamp};
use ai_memory_purge::error::StoreError;
use ai_memory_purge::ids::{hex_text, ProjectId, SessionId, Uuid, WorkspaceId};
use ai_memory_purge::order::{insert_distinct, insert_in_order, sorts_before};
use ai_memory_purge::text::{decimal_of, split_lines};

const CANONICAL: &str = "67e55044-10b1-426f-9247-bb680e5fe0c8";

#[test]
fn a_session_id_is_read_in_all_its_forms() {
    let id = SessionId::parse(CANONICAL).unwrap();
    assert_eq!(id.bytes[0], 0x67);
    assert_eq!(id.bytes[15], 0xc8);
    assert_eq!(id.to_text(), CANONICAL);
    for form in [
        "67e5504410b1426f9247bb680e5fe0c8",
        "67E55044-10B1-426F-9247-BB680E5FE0C8",
        "{67e55044-10b1-426f-9247-bb680e5fe0c8}",
        "urn:uuid:67e55044-10b1-426f-9247-bb680e5fe0c8",
        "URN:UUID:67e55044-10b1-426f-9247-bb680e5fe0c8",
    ] {
        assert_eq!(SessionId::parse(form), Some(id), "{form}");
    }
}

#[test]
fn prefixes_and_other_texts_name_no_session() {
    for text in [
        "",
        "67e55044",
        "67e55044-10b1-426f-9247-bb680e5fe0c",
        "67e55044-10b1-426f-9247-bb680e5fe0cg",
        "67e5504410b1-426f-9247-bb680e5fe0c8-",
        " 67e55044-10b1-426f-9247-bb680e5fe0c8",
        "{67e5504410b1426f9247bb680e5fe0c8}",
        "my session",
    ] {
        assert_eq!(SessionId::parse(text), None, "{text}");
    }
}

#[test]
fn stored_ids_have_sixteen_bytes() {
    assert_eq!(SessionId::from_slice(&[5; 16]).unwrap().bytes, [5; 16]);
    assert_eq!(SessionId::from_slice(&[5; 15]).unwrap_err(), StoreError::InvalidId);
    assert_eq!(WorkspaceId::from_slice(&[]).unwrap_err(), StoreError::InvalidId);
    assert_eq!(ProjectId::from_slice(&[5; 17]).unwrap_err(), StoreError::InvalidId);
    assert_eq!(
        WorkspaceId { bytes: [0xab; 16] }.to_text(),
        "abababab-abab-abab-abab-abababababab"
    );
}

#[test]
fn random_ids_are_version_four_and_differ() {
    let a = Uuid::new_v4();
    let b = Uuid::new_v4();
    assert_ne!(a, b);
    assert_eq!(a.bytes[6] >> 4, 4);
    assert_eq!(a.bytes[8] >> 6, 2);
}

#[test]
fn instants_have_a_range() {
    assert_eq!(Timestamp::from_microsecond(12).unwrap().microsecond, 12);
    assert!(Timestamp::from_microsecond(253_402_207_200_000_000).is_ok());
    let text = Timestamp::from_microsecond(253_402_207_200_000_001).unwrap_err();
    assert_eq!(
        text,
        "parameter 'Unix timestamp microseconds' is not in the required range of \
         -377705023201000000..=253402207200000000"
    );
    assert!(Timestamp::from_microsecond(-377_705_023_201_000_000).is_ok());
    assert_eq!(Timestamp::from_microsecond(-377_705_023_201_000_001).unwrap_err(), text);
    assert_eq!(Timestamp::from_microsecond(i64::MIN).unwrap_err(), text);
    assert!(now_microsecond() > 1_700_000_000_000_000);
}

#[test]
fn lines_end_as_in_the_standard_library() {
    for text in ["", "a", "a\n", "a\nb", "a\r\nb\r", "\n\n", "a\r\r\nb", "\u{e9}\n\u{20ac}"] {
        let lines: Vec<String> =
            split_lines(text).iter().map(|l| l.iter().collect()).collect();
        let expected: Vec<String> = text.lines().map(str::to_string).collect();
        assert_eq!(lines, expected, "{text:?}");
    }
}

#[test]
fn numbers_are_written_in_decimal() {
    for n in [0u64, 7, 10, 99, 1024, u64::MAX] {
        assert_eq!(decimal_of(n), format!("{n}"));
    }
    assert_eq!(hex_text(&[0x00, 0x0f, 0xa5]), "000fa5");
}

#[test]
fn texts_sort_as_in_the_standard_library() {
    let words = ["", "a", "ab", "b", "Z", "\u{e9}", "\u{10348}", "\u{ffff}"];
    for a in words {
        for b in words {
            assert_eq!(sorts_before(a, b), a < b, "{a:?} {b:?}");
        }
    }
    let mut distinct: Vec<String> = Vec::new();
    let mut all: Vec<String> = Vec::new();
    for w in ["b", "a", "c", "b", "a"] {
        insert_distinct(&mut distinct, w.to_string());
        insert_in_order(&mut all, w.to_string());
    }
    assert_eq!(distinct, vec!["a", "b", "c"]);
    assert_eq!(all, vec!["a", "a", "b", "b", "c"]);
}
