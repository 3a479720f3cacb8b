//! Text primitives: every string is reasoned about as its sequence of characters.

use vstd::prelude::*;

verus! {

/// `String::push` appends one character.
pub assume_specification[ String::push ](s: &mut String, c: char)
    ensures
        final(s)@ == old(s)@.push(c),
;

/// The characters of `s`, in order.
pub fn chars_of(s: &str) -> (out: Vec<char>)
    ensures
        out@ == s@,
{
    let mut out: Vec<char> = Vec::new();
    for c in it: s.chars()
        invariant
            out@ == it.seq().take(it.index()),
            it.seq() == s@,
    {
        out.push(c);
        assert(it.seq().take(it.index() + 1) == it.seq().take(it.index()).push(c));
    }
    assert(s@.take(s@.len() as int) == s@);
    out
}

/// The string made of `chars[from..to]`.
pub fn string_of(chars: &Vec<char>, from: usize, to: usize) -> (out: String)
    requires
        from <= to <= chars@.len(),
    ensures
        out@ == chars@.subrange(from as int, to as int),
{
    let mut out = String::new();
    let mut i: usize = from;
    while i < to
        invariant
            from <= i <= to <= chars@.len(),
            out@ == chars@.subrange(from as int, i as int),
        decreases to - i,
    {
        out.push(chars[i]);
        assert(chars@.subrange(from as int, i + 1) == chars@.subrange(from as int, i as int).push(
            chars@[i as int],
        ));
        i = i + 1;
    }
    out
}

/// Whether two strings hold the same characters.
pub fn same_text(a: &str, b: &str) -> (r: bool)
    ensures
        r == (a@ == b@),
{
    a.to_owned() == b.to_owned()
}

/// `a` followed by `b`.
pub fn joined(a: &str, b: &str) -> (out: String)
    ensures
        out@ == a@ + b@,
{
    let mut out = String::from(a);
    out.append(b);
    out
}

/// `part` stands in `whole` at position `i`.
pub open spec fn occurs_at(whole: Seq<char>, part: Seq<char>, i: int) -> bool {
    0 <= i && i + part.len() <= whole.len() && whole.subrange(i, i + part.len()) == part
}

/// `part` stands somewhere in `whole`.
pub open spec fn has_text(whole: Seq<char>, part: Seq<char>) -> bool {
    exists|i: int| occurs_at(whole, part, i)
}

/// Whether `part` stands at position `i` of `whole`.
fn stands_at(whole: &Vec<char>, part: &Vec<char>, i: usize) -> (r: bool)
    requires
        i + part@.len() <= whole@.len(),
    ensures
        r == occurs_at(whole@, part@, i as int),
{
    let total: usize = whole.len();
    let mut k: usize = 0;
    while k < part.len()
        invariant
            k <= part@.len(),
            i + part@.len() <= total == whole@.len(),
            forall|j: int| 0 <= j < k ==> whole@[i + j] == part@[j],
        decreases part@.len() - k,
    {
        if whole[i + k] != part[k] {
            assert(whole@.subrange(i as int, i + part@.len())[k as int] != part@[k as int]);
            return false;
        }
        k = k + 1;
    }
    assert(whole@.subrange(i as int, i + part@.len()) == part@);
    true
}

/// Whether `part` stands somewhere in `whole`.
pub fn contains_text(whole: &Vec<char>, part: &Vec<char>) -> (r: bool)
    ensures
        r == has_text(whole@, part@),
{
    if part.len() > whole.len() {
        return false;
    }
    let last: usize = whole.len() - part.len();
    let mut i: usize = 0;
    while i <= last
        invariant
            last + part@.len() == whole@.len(),
            i <= last + 1,
            forall|j: int| 0 <= j < i ==> !occurs_at(whole@, part@, j),
        decreases last + 1 - i,
    {
        if stands_at(whole, part, i) {
            return true;
        }
        if i == last {
            return false;
        }
        i = i + 1;
    }
    false
}

/// Whether `whole` begins with `part`.
pub fn begins_with(whole: &Vec<char>, part: &Vec<char>) -> (r: bool)
    ensures
        r == part@.is_prefix_of(whole@),
{
    if part.len() > whole.len() {
        return false;
    }
    assert(whole@.take(part@.len() as int) == whole@.subrange(0, 0int + part@.len()));
    stands_at(whole, part, 0)
}

/// Whether `whole` ends with `part`.
pub fn finishes_with(whole: &Vec<char>, part: &Vec<char>) -> (r: bool)
    ensures
        r == part@.is_suffix_of(whole@),
{
    if part.len() > whole.len() {
        return false;
    }
    let at: usize = whole.len() - part.len();
    stands_at(whole, part, at)
}

/// The position of the first line feed at or after `i`, or the length of `s`.
pub open spec fn line_feed_from(s: Seq<char>, i: int) -> int
    decreases s.len() - i,
{
    if i >= s.len() {
        s.len() as int
    } else if s[i] == '\n' {
        i
    } else {
        line_feed_from(s, i + 1)
    }
}

/// A line without the carriage return that a `\r\n` line ending leaves on it.
pub open spec fn without_cr(line: Seq<char>) -> Seq<char> {
    if line.len() > 0 && line.last() == '\r' {
        line.drop_last()
    } else {
        line
    }
}

/// The lines of `s` from position `i` on. A line ends at `\n` or `\r\n`; the
/// last one may lack its ending, and then keeps a carriage return it closes with.
pub open spec fn lines_from(s: Seq<char>, i: int) -> Seq<Seq<char>>
    decreases s.len() - i,
    via lines_from_decreases
{
    if i < 0 || i >= s.len() {
        Seq::empty()
    } else {
        let k = line_feed_from(s, i);
        if k >= s.len() {
            seq![s.subrange(i, s.len() as int)]
        } else {
            seq![without_cr(s.subrange(i, k))] + lines_from(s, k + 1)
        }
    }
}

#[via_fn]
proof fn lines_from_decreases(s: Seq<char>, i: int) {
    if 0 <= i < s.len() {
        lemma_line_feed_from(s, i);
    }
}

/// The lines of a text.
pub open spec fn lines_of(s: Seq<char>) -> Seq<Seq<char>> {
    lines_from(s, 0)
}

/// The line feed found is the first one at or after `i`.
pub proof fn lemma_line_feed_from(s: Seq<char>, i: int)
    requires
        0 <= i <= s.len(),
    ensures
        i <= line_feed_from(s, i) <= s.len(),
        line_feed_from(s, i) < s.len() ==> s[line_feed_from(s, i)] == '\n',
        forall|j: int| i <= j < line_feed_from(s, i) ==> s[j] != '\n',
    decreases s.len() - i,
{
    if i < s.len() && s[i] != '\n' {
        lemma_line_feed_from(s, i + 1);
    }
}

/// The views of a list of character vectors.
pub open spec fn char_rows(v: Seq<Vec<char>>) -> Seq<Seq<char>> {
    v.map_values(|l: Vec<char>| l@)
}

/// Split a text into its lines.
pub fn split_lines(s: &str) -> (out: Vec<Vec<char>>)
    ensures
        char_rows(out@) == lines_of(s@),
{
    let chars = chars_of(s);
    let mut out: Vec<Vec<char>> = Vec::new();
    let mut current: Vec<char> = Vec::new();
    let mut start: Ghost<int> = Ghost(0);
    let mut i: usize = 0;
    while i < chars.len()
        invariant
            chars@ == s@,
            0 <= start@ <= i <= chars@.len(),
            current@ == chars@.subrange(start@, i as int),
            line_feed_from(chars@, start@) == line_feed_from(chars@, i as int),
            char_rows(out@) + lines_from(chars@, start@) == lines_of(chars@),
        decreases chars@.len() - i,
    {
        let c = chars[i];
        if c == '\n' {
            let ghost before = out@;
            if current.len() > 0 && current[current.len() - 1] == '\r' {
                current.pop();
            }
            let ghost line = current@;
            out.push(current);
            current = Vec::new();
            proof {
                assert(line == without_cr(chars@.subrange(start@, i as int)));
                assert(char_rows(out@) == char_rows(before).push(line));
                assert(lines_from(chars@, start@) == seq![line] + lines_from(chars@, i + 1));
                assert(char_rows(out@) + lines_from(chars@, i + 1) == char_rows(before)
                    + lines_from(chars@, start@));
                start@ = i + 1;
            }
        } else {
            current.push(c);
            assert(chars@.subrange(start@, i + 1) == chars@.subrange(start@, i as int).push(c));
        }
        i = i + 1;
    }
    if current.len() > 0 {
        let ghost before = out@;
        let ghost line = current@;
        out.push(current);
        assert(char_rows(out@) == char_rows(before).push(line));
        assert(lines_from(chars@, start@) == seq![line]);
    } else {
        assert(lines_from(chars@, start@) == Seq::<Seq<char>>::empty());
    }
    assert(char_rows(out@) == lines_of(s@));
    out
}

/// The decimal digit for `d`.
pub open spec fn digit_char(d: nat) -> char {
    (('0' as nat + d) as u32) as char
}

/// The decimal notation of `n`.
pub open spec fn decimal(n: nat) -> Seq<char>
    decreases n,
{
    if n < 10 {
        seq![digit_char(n)]
    } else {
        decimal(n / 10).push(digit_char(n % 10))
    }
}

fn digit_of(d: u8) -> (c: char)
    requires
        d < 10,
    ensures
        c == digit_char(d as nat),
{
    (48u8 + d) as char
}

/// `n` in decimal notation.
pub fn decimal_of(n: u64) -> (out: String)
    ensures
        out@ == decimal(n as nat),
    decreases n,
{
    let d = digit_of((n % 10) as u8);
    if n < 10 {
        let mut out = String::new();
        out.push(d);
        assert(out@ == seq![digit_char(n as nat)]);
        out
    } else {
        let mut out = decimal_of(n / 10);
        out.push(d);
        out
    }
}

} // verus!
