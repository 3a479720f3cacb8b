//! Ordering of texts by their characters' code points, and sorted lists of texts.

use vstd::prelude::*;

use crate::text::chars_of;

verus! {

/// `a` sorts strictly before `b`: at the first difference `a` has the smaller
/// code point, or `a` is a proper prefix of `b`.
pub open spec fn before(a: Seq<char>, b: Seq<char>) -> bool
    decreases a.len(),
{
    if b.len() == 0 {
        false
    } else if a.len() == 0 {
        true
    } else if a[0] != b[0] {
        (a[0] as int) < (b[0] as int)
    } else {
        before(a.drop_first(), b.drop_first())
    }
}

/// Of two texts at most one sorts before the other, so none sorts before itself.
pub proof fn lemma_before_asymmetric(a: Seq<char>, b: Seq<char>)
    ensures
        before(a, b) ==> !before(b, a),
    decreases a.len(),
{
    if a.len() > 0 && b.len() > 0 && a[0] == b[0] {
        lemma_before_asymmetric(a.drop_first(), b.drop_first());
    }
}

/// Two different texts are ordered one way or the other.
pub proof fn lemma_before_total(a: Seq<char>, b: Seq<char>)
    ensures
        before(a, b) || before(b, a) || a == b,
    decreases a.len(),
{
    if a.len() > 0 && b.len() > 0 {
        if a[0] == b[0] {
            lemma_before_total(a.drop_first(), b.drop_first());
            if a.drop_first() == b.drop_first() {
                assert(a == seq![a[0]] + a.drop_first());
                assert(b == seq![b[0]] + b.drop_first());
            }
        }
    } else if a.len() == 0 && b.len() == 0 {
        assert(a == b);
    }
}

/// The order is transitive.
pub proof fn lemma_before_transitive(a: Seq<char>, b: Seq<char>, c: Seq<char>)
    requires
        before(a, b),
        before(b, c),
    ensures
        before(a, c),
    decreases a.len(),
{
    if a.len() > 0 && a[0] == b[0] && b[0] == c[0] {
        lemma_before_transitive(a.drop_first(), b.drop_first(), c.drop_first());
    }
}

/// The code point of a character.
fn code_point(c: char) -> (n: u32)
    ensures
        n == c as int,
{
    c as u32
}

/// Whether `a` sorts strictly before `b`.
pub fn sorts_before(a: &str, b: &str) -> (r: bool)
    ensures
        r == before(a@, b@),
{
    let left = chars_of(a);
    let right = chars_of(b);
    let mut i: usize = 0;
    assert(a@.skip(0) == a@);
    assert(b@.skip(0) == b@);
    while i < left.len() && i < right.len()
        invariant
            left@ == a@,
            right@ == b@,
            i <= a@.len(),
            i <= b@.len(),
            before(a@, b@) == before(a@.skip(i as int), b@.skip(i as int)),
        decreases a@.len() - i,
    {
        if left[i] != right[i] {
            return code_point(left[i]) < code_point(right[i]);
        }
        assert(a@.skip(i as int).drop_first() == a@.skip(i + 1));
        assert(b@.skip(i as int).drop_first() == b@.skip(i + 1));
        i = i + 1;
    }
    i < right.len()
}

/// The texts that a list of strings holds.
pub open spec fn texts(v: Seq<String>) -> Seq<Seq<char>> {
    v.map_values(|s: String| s@)
}

/// Each text sorts strictly before every later one.
pub open spec fn strictly_sorted(v: Seq<Seq<char>>) -> bool {
    forall|i: int, j: int| 0 <= i < j < v.len() ==> before(#[trigger] v[i], #[trigger] v[j])
}

/// No text sorts before an earlier one.
pub open spec fn sorted(v: Seq<Seq<char>>) -> bool {
    forall|i: int, j: int| 0 <= i < j < v.len() ==> !before(#[trigger] v[j], #[trigger] v[i])
}

/// Put `s` into a sorted list without repetitions, unless it is there already.
pub fn insert_distinct(v: &mut Vec<String>, s: String)
    requires
        strictly_sorted(texts(old(v)@)),
    ensures
        strictly_sorted(texts(final(v)@)),
        texts(final(v)@).to_set() == texts(old(v)@).to_set().insert(s@),
{
    let ghost rows = texts(v@);
    let mut i: usize = 0;
    while i < v.len() && sorts_before(v[i].as_str(), s.as_str())
        invariant
            v@ == old(v)@,
            rows == texts(v@),
            i <= v@.len(),
            forall|j: int| 0 <= j < i ==> before(#[trigger] rows[j], s@),
        decreases v@.len() - i,
    {
        i = i + 1;
    }
    if i < v.len() && !sorts_before(s.as_str(), v[i].as_str()) {
        proof {
            lemma_before_total(rows[i as int], s@);
            assert(rows.contains(s@));
            assert(rows.to_set() == rows.to_set().insert(s@));
        }
        return;
    }
    let ghost text = s@;
    v.insert(i, s);
    proof {
        let after = texts(v@);
        assert(after == rows.insert(i as int, text));
        assert forall|a: int, b: int| 0 <= a < b < after.len() implies before(
            #[trigger] after[a],
            #[trigger] after[b],
        ) by {
            if b == i {
            } else if a == i {
                if b > i + 1 {
                    lemma_before_transitive(text, rows[i as int], rows[b - 1]);
                }
            } else {
                let a0 = if a < i { a } else { a - 1 };
                let b0 = if b < i { b } else { b - 1 };
                assert(before(rows[a0], rows[b0]));
            }
        }
        lemma_insert_to_set(rows, i as int, text);
    }
}

proof fn lemma_insert_to_set(rows: Seq<Seq<char>>, i: int, text: Seq<char>)
    requires
        0 <= i <= rows.len(),
    ensures
        rows.insert(i, text).to_set() == rows.to_set().insert(text),
{
    let after = rows.insert(i, text);
    assert forall|x: Seq<char>| after.contains(x) == (rows.contains(x) || x == text) by {
        if after.contains(x) {
            let k = choose|k: int| 0 <= k < after.len() && after[k] == x;
            if k < i {
                assert(rows[k] == x);
            } else if k > i {
                assert(rows[k - 1] == x);
            }
        }
        if rows.contains(x) {
            let k = choose|k: int| 0 <= k < rows.len() && rows[k] == x;
            if k < i {
                assert(after[k] == x);
            } else {
                assert(after[k + 1] == x);
            }
        }
        assert(after[i] == text);
    }
    assert(after.to_set() =~= rows.to_set().insert(text));
}

/// Put `s` into a sorted list, behind any equal text.
pub fn insert_in_order(v: &mut Vec<String>, s: String)
    requires
        sorted(texts(old(v)@)),
    ensures
        sorted(texts(final(v)@)),
        texts(final(v)@).to_multiset() == texts(old(v)@).to_multiset().insert(s@),
{
    let ghost rows = texts(v@);
    let mut i: usize = 0;
    while i < v.len() && !sorts_before(s.as_str(), v[i].as_str())
        invariant
            v@ == old(v)@,
            rows == texts(v@),
            i <= v@.len(),
            forall|j: int| 0 <= j < i ==> !before(s@, #[trigger] rows[j]),
        decreases v@.len() - i,
    {
        i = i + 1;
    }
    let ghost text = s@;
    v.insert(i, s);
    proof {
        let after = texts(v@);
        assert(after == rows.insert(i as int, text));
        assert forall|a: int, b: int| 0 <= a < b < after.len() implies !before(
            #[trigger] after[b],
            #[trigger] after[a],
        ) by {
            if b == i {
            } else if a == i {
                if before(rows[b - 1], text) {
                    lemma_before_transitive(rows[b - 1], text, rows[i as int]);
                    lemma_before_asymmetric(rows[b - 1], rows[i as int]);
                }
            } else {
                let a0 = if a < i { a } else { a - 1 };
                let b0 = if b < i { b } else { b - 1 };
                assert(!before(rows[b0], rows[a0]));
            }
        }
        vstd::seq_lib::to_multiset_insert(rows, i as int, text);
    }
}

} // verus!
