//! Identifiers: 128-bit UUIDs, their canonical text, and the texts that name one.

use vstd::prelude::*;

use crate::error::StoreError;

verus! {

/// The lower-case hexadecimal digit for `d`.
pub open spec fn hex_digit(d: int) -> char {
    if d < 10 {
        (('0' as int + d) as u32) as char
    } else {
        (('a' as int + d - 10) as u32) as char
    }
}

/// Two lower-case hexadecimal digits per byte.
pub open spec fn hex(bytes: Seq<u8>) -> Seq<char> {
    Seq::new(
        bytes.len() * 2,
        |i: int|
            if i % 2 == 0 {
                hex_digit(bytes[i / 2] as int / 16)
            } else {
                hex_digit(bytes[i / 2] as int % 16)
            },
    )
}

/// The canonical text of a UUID: lower-case hexadecimal in groups of 8, 4, 4, 4
/// and 12 digits, joined by hyphens.
pub open spec fn hyphenated(b: Seq<u8>) -> Seq<char> {
    hex(b.subrange(0, 4)) + seq!['-'] + hex(b.subrange(4, 6)) + seq!['-'] + hex(b.subrange(6, 8))
        + seq!['-'] + hex(b.subrange(8, 10)) + seq!['-'] + hex(b.subrange(10, 16))
}

/// `c` with an ASCII capital letter made small.
pub open spec fn small_letter(c: char) -> char {
    if 'A' as int <= c as int <= 'Z' as int {
        ((c as int + 32) as u32) as char
    } else {
        c
    }
}

/// `s` with its ASCII capital letters made small.
pub open spec fn small_letters(s: Seq<char>) -> Seq<char> {
    s.map_values(|c: char| small_letter(c))
}

/// `s` names the UUID `b`: 32 hexadecimal digits, or the hyphenated form, bare,
/// in braces, or behind `urn:uuid:`. Capital and small letters are alike.
pub open spec fn names_uuid(s: Seq<char>, b: Seq<u8>) -> bool {
    let t = small_letters(s);
    &&& b.len() == 16
    &&& {
        ||| t == hex(b)
        ||| t == hyphenated(b)
        ||| t == seq!['{'] + hyphenated(b) + seq!['}']
        ||| t == seq!['u', 'r', 'n', ':', 'u', 'u', 'i', 'd', ':'] + hyphenated(b)
    }
}

/// Calls `uuid::Uuid`'s `Display`, which writes the hyphenated lower-case form.
#[verifier::external_body]
fn uuid_text(bytes: &[u8; 16]) -> (s: String)
    ensures
        s@ == hyphenated(bytes@),
{
    uuid::Uuid::from_bytes(*bytes).to_string()
}

/// Calls `uuid::Uuid::parse_str`, which accepts the four shapes of
/// [`names_uuid`] and nothing else.
#[verifier::external_body]
fn uuid_parse(s: &str) -> (r: Option<[u8; 16]>)
    ensures
        r matches Some(b) ==> names_uuid(s@, b@),
        r is None ==> forall|b: Seq<u8>| !#[trigger] names_uuid(s@, b),
{
    uuid::Uuid::parse_str(s).ok().map(|u| u.into_bytes())
}

/// `b` is a version 4 identifier: its version and variant bits say so.
pub open spec fn is_random_id(b: Seq<u8>) -> bool {
    b.len() == 16 && b[6] as int / 16 == 4 && b[8] as int / 64 == 2
}

/// Calls `uuid::Uuid::new_v4`, which draws 122 random bits and sets the version
/// and variant bits. Nothing more is claimed: the rest is chance.
#[verifier::external_body]
fn uuid_random() -> (r: [u8; 16])
    ensures
        is_random_id(r@),
{
    uuid::Uuid::new_v4().into_bytes()
}

/// `bytes` came out of a random draw.
pub closed spec fn drawn_at_random(bytes: [u8; 16]) -> bool {
    call_ensures(uuid_random, (), bytes)
}

/// What counts as drawn came out of a draw, and has the form of a random identifier.
proof fn law_random_identifiers_are_drawn(bytes: [u8; 16])
    requires
        drawn_at_random(bytes),
    ensures
        call_ensures(uuid_random, (), bytes),
        is_random_id(bytes@),
{
}

/// Whether two byte strings are equal.
pub fn same_bytes(a: &[u8], b: &[u8]) -> (r: bool)
    ensures
        r == (a@ == b@),
{
    if a.len() != b.len() {
        return false;
    }
    let mut i: usize = 0;
    while i < a.len()
        invariant
            i <= a@.len() == b@.len(),
            a@.take(i as int) == b@.take(i as int),
        decreases a@.len() - i,
    {
        if a[i] != b[i] {
            return false;
        }
        assert(a@.take(i + 1) == a@.take(i as int).push(a@[i as int]));
        assert(b@.take(i + 1) == b@.take(i as int).push(b@[i as int]));
        i = i + 1;
    }
    assert(a@.take(i as int) == a@);
    assert(b@.take(i as int) == b@);
    true
}

/// The 16 bytes of `raw`, if it has that length.
pub fn sixteen(raw: &[u8]) -> (r: Option<[u8; 16]>)
    ensures
        r matches Some(b) ==> b@ == raw@,
        r is Some <==> raw@.len() == 16,
{
    if raw.len() != 16 {
        return None;
    }
    let b = [
        raw[0], raw[1], raw[2], raw[3], raw[4], raw[5], raw[6], raw[7], raw[8], raw[9], raw[10],
        raw[11], raw[12], raw[13], raw[14], raw[15],
    ];
    assert(b@ == raw@);
    Some(b)
}

/// The lower-case hexadecimal digit for `d`.
fn hex_char(d: u8) -> (c: char)
    requires
        d < 16,
    ensures
        c == hex_digit(d as int),
{
    if d < 10 {
        (48u8 + d) as char
    } else {
        (87u8 + d) as char
    }
}

/// Two lower-case hexadecimal digits per byte.
pub fn hex_text(bytes: &[u8]) -> (s: String)
    ensures
        s@ == hex(bytes@),
{
    let mut s = String::new();
    let mut i: usize = 0;
    while i < bytes.len()
        invariant
            i <= bytes@.len(),
            s@ == hex(bytes@.take(i as int)),
        decreases bytes@.len() - i,
    {
        let b: u8 = bytes[i];
        s.push(hex_char(b / 16));
        s.push(hex_char(b % 16));
        proof {
            let now = bytes@.take(i + 1);
            assert forall|k: int| 0 <= k < s@.len() implies s@[k] == hex(now)[k] by {
                if k < 2 * i {
                    assert(bytes@.take(i as int)[k / 2] == now[k / 2]);
                }
            }
            assert(s@ == hex(now));
        }
        i = i + 1;
    }
    assert(bytes@.take(i as int) == bytes@);
    s
}

/// A byte string's own copy.
pub fn bytes_of(a: &[u8]) -> (r: Vec<u8>)
    ensures
        r@ == a@,
{
    let mut out: Vec<u8> = Vec::new();
    let mut i: usize = 0;
    while i < a.len()
        invariant
            i <= a@.len(),
            out@ == a@.take(i as int),
        decreases a@.len() - i,
    {
        out.push(a[i]);
        assert(a@.take(i + 1) == a@.take(i as int).push(a@[i as int]));
        i = i + 1;
    }
    assert(a@.take(i as int) == a@);
    out
}

/// A session's identifier.
#[derive(Clone, Copy, Debug, PartialEq, Eq, Hash)]
pub struct SessionId {
    pub bytes: [u8; 16],
}

impl View for SessionId {
    type V = Seq<u8>;

    open spec fn view(&self) -> Seq<u8> {
        self.bytes@
    }
}

impl SessionId {
    /// The identifier stored as `raw`, which must be 16 bytes long.
    pub fn from_slice(raw: &[u8]) -> (r: Result<SessionId, StoreError>)
        ensures
            r is Ok <==> raw@.len() == 16,
            r matches Ok(id) ==> id@ == raw@,
            r matches Err(e) ==> e is InvalidId,
    {
        match sixteen(raw) {
            Some(bytes) => Ok(SessionId { bytes }),
            None => Err(StoreError::InvalidId),
        }
    }

    /// The bytes that the store holds for this identifier.
    pub fn as_bytes(&self) -> (b: &[u8])
        ensures
            b@ == self@,
    {
        self.bytes.as_slice()
    }

    /// The canonical text.
    pub fn to_text(&self) -> (s: String)
        ensures
            s@ == hyphenated(self@),
    {
        uuid_text(&self.bytes)
    }
}

/// A workspace's identifier.
#[derive(Clone, Copy, Debug, PartialEq, Eq, Hash)]
pub struct WorkspaceId {
    pub bytes: [u8; 16],
}

impl View for WorkspaceId {
    type V = Seq<u8>;

    open spec fn view(&self) -> Seq<u8> {
        self.bytes@
    }
}

impl WorkspaceId {
    /// The identifier stored as `raw`, which must be 16 bytes long.
    pub fn from_slice(raw: &[u8]) -> (r: Result<WorkspaceId, StoreError>)
        ensures
            r is Ok <==> raw@.len() == 16,
            r matches Ok(id) ==> id@ == raw@,
            r matches Err(e) ==> e is InvalidId,
    {
        match sixteen(raw) {
            Some(bytes) => Ok(WorkspaceId { bytes }),
            None => Err(StoreError::InvalidId),
        }
    }

    /// The bytes that the store holds for this identifier.
    pub fn as_bytes(&self) -> (b: &[u8])
        ensures
            b@ == self@,
    {
        self.bytes.as_slice()
    }

    /// The canonical text.
    pub fn to_text(&self) -> (s: String)
        ensures
            s@ == hyphenated(self@),
    {
        uuid_text(&self.bytes)
    }
}

/// A project's identifier.
#[derive(Clone, Copy, Debug, PartialEq, Eq, Hash)]
pub struct ProjectId {
    pub bytes: [u8; 16],
}

impl View for ProjectId {
    type V = Seq<u8>;

    open spec fn view(&self) -> Seq<u8> {
        self.bytes@
    }
}

impl ProjectId {
    /// The identifier stored as `raw`, which must be 16 bytes long.
    pub fn from_slice(raw: &[u8]) -> (r: Result<ProjectId, StoreError>)
        ensures
            r is Ok <==> raw@.len() == 16,
            r matches Ok(id) ==> id@ == raw@,
            r matches Err(e) ==> e is InvalidId,
    {
        match sixteen(raw) {
            Some(bytes) => Ok(ProjectId { bytes }),
            None => Err(StoreError::InvalidId),
        }
    }

    /// The bytes that the store holds for this identifier.
    pub fn as_bytes(&self) -> (b: &[u8])
        ensures
            b@ == self@,
    {
        self.bytes.as_slice()
    }

    /// The canonical text.
    pub fn to_text(&self) -> (s: String)
        ensures
            s@ == hyphenated(self@),
    {
        uuid_text(&self.bytes)
    }
}

impl SessionId {
    /// The session that `s` names.
    pub fn parse(s: &str) -> (r: Option<SessionId>)
        ensures
            r matches Some(id) ==> names_uuid(s@, id@),
            r is None ==> forall|b: Seq<u8>| !#[trigger] names_uuid(s@, b),
    {
        match uuid_parse(s) {
            Some(bytes) => Some(SessionId { bytes }),
            None => None,
        }
    }
}

/// An identifier of a tombstone, a proposal or an attempt.
#[derive(Clone, Copy, Debug, PartialEq, Eq, Hash)]
pub struct Uuid {
    pub bytes: [u8; 16],
}

impl View for Uuid {
    type V = Seq<u8>;

    open spec fn view(&self) -> Seq<u8> {
        self.bytes@
    }
}

impl Uuid {
    /// A random (version 4) identifier.
    pub fn new_v4() -> (r: Uuid)
        ensures
            is_random_id(r@),
            drawn_at_random(r.bytes),
    {
        Uuid { bytes: uuid_random() }
    }

    /// The bytes that the store holds for this identifier.
    pub fn as_bytes(&self) -> (b: &[u8])
        ensures
            b@ == self@,
    {
        self.bytes.as_slice()
    }

    /// The canonical text.
    pub fn to_text(&self) -> (s: String)
        ensures
            s@ == hyphenated(self@),
    {
        uuid_text(&self.bytes)
    }
}

proof fn lemma_hex_digit(d: int)
    requires
        0 <= d < 16,
    ensures
        hex_digit(d) as int == (if d < 10 { 48 + d } else { 87 + d }),
{
}

proof fn lemma_hex_injective(a: Seq<u8>, b: Seq<u8>)
    requires
        hex(a) == hex(b),
    ensures
        a == b,
{
    assert(hex(a).len() == a.len() * 2);
    assert(hex(b).len() == b.len() * 2);
    assert forall|i: int| 0 <= i < a.len() implies a[i] == b[i] by {
        assert((2 * i) / 2 == i && (2 * i + 1) / 2 == i);
        assert(hex(a)[2 * i] == hex_digit(a[i] as int / 16));
        assert(hex(b)[2 * i] == hex_digit(b[i] as int / 16));
        assert(hex(a)[2 * i + 1] == hex_digit(a[i] as int % 16));
        assert(hex(b)[2 * i + 1] == hex_digit(b[i] as int % 16));
        lemma_hex_digit(a[i] as int / 16);
        lemma_hex_digit(b[i] as int / 16);
        lemma_hex_digit(a[i] as int % 16);
        lemma_hex_digit(b[i] as int % 16);
    }
}

/// Two identifiers with the same canonical text are the same.
pub proof fn lemma_hyphenated_injective(a: Seq<u8>, b: Seq<u8>)
    requires
        a.len() == 16,
        b.len() == 16,
        hyphenated(a) == hyphenated(b),
    ensures
        a == b,
{
    let s = hyphenated(a);
    let t = hyphenated(b);
    assert(s.subrange(0, 8) == hex(a.subrange(0, 4)));
    assert(t.subrange(0, 8) == hex(b.subrange(0, 4)));
    assert(s.subrange(9, 13) == hex(a.subrange(4, 6)));
    assert(t.subrange(9, 13) == hex(b.subrange(4, 6)));
    assert(s.subrange(14, 18) == hex(a.subrange(6, 8)));
    assert(t.subrange(14, 18) == hex(b.subrange(6, 8)));
    assert(s.subrange(19, 23) == hex(a.subrange(8, 10)));
    assert(t.subrange(19, 23) == hex(b.subrange(8, 10)));
    assert(s.subrange(24, 36) == hex(a.subrange(10, 16)));
    assert(t.subrange(24, 36) == hex(b.subrange(10, 16)));
    lemma_hex_injective(a.subrange(0, 4), b.subrange(0, 4));
    lemma_hex_injective(a.subrange(4, 6), b.subrange(4, 6));
    lemma_hex_injective(a.subrange(6, 8), b.subrange(6, 8));
    lemma_hex_injective(a.subrange(8, 10), b.subrange(8, 10));
    lemma_hex_injective(a.subrange(10, 16), b.subrange(10, 16));
    assert(a == a.subrange(0, 4) + a.subrange(4, 6) + a.subrange(6, 8) + a.subrange(8, 10)
        + a.subrange(10, 16));
    assert(b == b.subrange(0, 4) + b.subrange(4, 6) + b.subrange(6, 8) + b.subrange(8, 10)
        + b.subrange(10, 16));
}

/// A canonical text is 36 hexadecimal digits and hyphens.
pub proof fn lemma_hyphenated_chars(b: Seq<u8>)
    requires
        b.len() == 16,
    ensures
        hyphenated(b).len() == 36,
        forall|i: int|
            0 <= i < 36 ==> {
                ||| #[trigger] hyphenated(b)[i] == '-'
                ||| '0' as int <= hyphenated(b)[i] as int <= '9' as int
                ||| 'a' as int <= hyphenated(b)[i] as int <= 'f' as int
            },
{
    assert forall|d: int| 0 <= d < 16 implies ('0' as int <= #[trigger] hex_digit(d) as int
        <= '9' as int || 'a' as int <= hex_digit(d) as int <= 'f' as int) by {
        lemma_hex_digit(d);
    }
}

/// A text names at most one identifier, so parsing has one answer.
pub proof fn law_a_text_names_one_identifier(s: Seq<char>, a: Seq<u8>, b: Seq<u8>)
    requires
        names_uuid(s, a),
        names_uuid(s, b),
    ensures
        a == b,
{
    let t = small_letters(s);
    lemma_hyphenated_chars(a);
    lemma_hyphenated_chars(b);
    let urn = seq!['u', 'r', 'n', ':', 'u', 'u', 'i', 'd', ':'];
    if t.len() == 32 {
        lemma_hex_injective(a, b);
    } else if t.len() == 36 {
        lemma_hyphenated_injective(a, b);
    } else if t.len() == 38 {
        assert(t.subrange(1, 37) == hyphenated(a));
        assert(t.subrange(1, 37) == hyphenated(b));
        lemma_hyphenated_injective(a, b);
    } else {
        assert(t.subrange(9, 45) == hyphenated(a));
        assert(t.subrange(9, 45) == hyphenated(b));
        lemma_hyphenated_injective(a, b);
    }
}

/// The canonical text of an identifier names that identifier: what is printed
/// can be read back.
pub proof fn law_canonical_text_reads_back(b: Seq<u8>)
    requires
        b.len() == 16,
    ensures
        names_uuid(hyphenated(b), b),
{
    lemma_hyphenated_chars(b);
    assert(small_letters(hyphenated(b)) == hyphenated(b));
}

/// Only a complete identifier is accepted: a text that names one has the length
/// of one of the four shapes, so no prefix or title of another length does.
pub proof fn law_only_complete_identifiers(s: Seq<char>, b: Seq<u8>)
    requires
        names_uuid(s, b),
    ensures
        s.len() == 32 || s.len() == 36 || s.len() == 38 || s.len() == 45,
{
    lemma_hyphenated_chars(b);
    assert(small_letters(s).len() == s.len());
}

} // verus!
