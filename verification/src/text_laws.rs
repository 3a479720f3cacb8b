//! What holds of every number, identifier and list of texts that is written or ordered.

use vstd::prelude::*;

use crate::clock::Timestamp;
use crate::ids::{hex, hex_digit, ProjectId, SessionId, Uuid, WorkspaceId};
use crate::order::{before, sorted, strictly_sorted, texts};
use crate::text::{decimal, digit_char, has_text, occurs_at};

verus! {

/// The number that a row of decimal digits stands for.
pub open spec fn read_number(s: Seq<char>) -> int
    decreases s.len(),
{
    if s.len() == 0 {
        0
    } else {
        read_number(s.drop_last()) * 10 + (s.last() as int - '0' as int)
    }
}

/// A number is written in decimal digits that read back as it, without a zero in front.
pub proof fn law_numbers_read_back(n: nat)
    ensures
        decimal(n).len() > 0,
        forall|i: int| 0 <= i < decimal(n).len() ==> '0' <= #[trigger] decimal(n)[i] <= '9',
        decimal(n).len() > 1 ==> decimal(n)[0] != '0',
        read_number(decimal(n)) == n,
    decreases n,
{
    let d = n % 10;
    assert(digit_char(d) as int == '0' as int + d);
    if n < 10 {
        assert(decimal(n).drop_last() == Seq::<char>::empty());
        assert(read_number(Seq::<char>::empty()) == 0);
        assert(read_number(decimal(n)) == digit_char(n) as int - '0' as int);
    } else {
        law_numbers_read_back(n / 10);
        let front = decimal(n / 10);
        assert(decimal(n).drop_last() == front);
        assert(decimal(n)[0] == front[0]);
        if front.len() == 1 {
            assert(front.drop_last() == Seq::<char>::empty());
            assert(read_number(front.drop_last()) == 0);
            assert(read_number(front) == front[0] as int - '0' as int);
        }
    }
}

/// An identifier is written with two digits for each byte, the high half first, out of
/// `0` to `9` and `a` to `f`.
pub proof fn law_bytes_are_written_in_two_digits(bytes: Seq<u8>, i: int)
    requires
        0 <= i < bytes.len(),
    ensures
        hex(bytes).len() == 2 * bytes.len(),
        hex(bytes)[2 * i] == "0123456789abcdef"@[bytes[i] as int / 16],
        hex(bytes)[2 * i + 1] == "0123456789abcdef"@[bytes[i] as int % 16],
{
    lemma_digit(bytes[i] as int / 16);
    lemma_digit(bytes[i] as int % 16);
    assert((2 * i) % 2 == 0 && (2 * i) / 2 == i);
    assert((2 * i + 1) % 2 == 1 && (2 * i + 1) / 2 == i);
}

proof fn lemma_digit(d: int)
    requires
        0 <= d < 16,
    ensures
        hex_digit(d) == "0123456789abcdef"@[d],
{
    reveal_strlit("0123456789abcdef");
    let all = "0123456789abcdef"@;
    assert(all[0] == '0' && all[1] == '1' && all[2] == '2' && all[3] == '3' && all[4] == '4'
        && all[5] == '5' && all[6] == '6' && all[7] == '7' && all[8] == '8' && all[9] == '9'
        && all[10] == 'a' && all[11] == 'b' && all[12] == 'c' && all[13] == 'd' && all[14] == 'e'
        && all[15] == 'f');
}

/// `a` and `b` agree up to `k`, and there `a` ends while `b` goes on, or has the smaller
/// character.
pub open spec fn parts_at(a: Seq<char>, b: Seq<char>, k: int) -> bool {
    &&& 0 <= k <= a.len()
    &&& k < b.len()
    &&& forall|i: int| 0 <= i < k ==> a[i] == #[trigger] b[i]
    &&& k == a.len() || a[k] < b[k]
}

/// Two texts are ordered by the first place where they part.
pub proof fn law_texts_are_ordered_where_they_part(a: Seq<char>, b: Seq<char>)
    ensures
        before(a, b) <==> exists|k: int| #[trigger] parts_at(a, b, k),
    decreases a.len(),
{
    if b.len() == 0 {
    } else if a.len() == 0 {
        assert(parts_at(a, b, 0));
    } else if a[0] != b[0] {
        if a[0] < b[0] {
            assert(parts_at(a, b, 0));
        }
        if exists|k: int| #[trigger] parts_at(a, b, k) {
            let k = choose|k: int| #[trigger] parts_at(a, b, k);
            if k > 0 {
                assert(a[0] == b[0]);
            }
        }
    } else {
        let x = a.drop_first();
        let y = b.drop_first();
        law_texts_are_ordered_where_they_part(x, y);
        if exists|k: int| #[trigger] parts_at(x, y, k) {
            let k = choose|k: int| #[trigger] parts_at(x, y, k);
            assert forall|i: int| 0 <= i < k + 1 implies a[i] == #[trigger] b[i] by {
                if i > 0 {
                    assert(y[i - 1] == b[i]);
                    assert(x[i - 1] == a[i]);
                }
            }
            assert(parts_at(a, b, k + 1));
        }
        if exists|k: int| #[trigger] parts_at(a, b, k) {
            let k = choose|k: int| #[trigger] parts_at(a, b, k);
            assert(k > 0);
            assert forall|i: int| 0 <= i < k - 1 implies x[i] == #[trigger] y[i] by {
                assert(a[i + 1] == b[i + 1]);
            }
            assert(parts_at(x, y, k - 1));
        }
    }
}

/// What it is for a list to be sorted: of two texts the later never sorts before the
/// earlier, and where none is repeated, the earlier sorts before the later.
pub proof fn law_sorted_lists_rise(v: Seq<Seq<char>>, i: int, j: int)
    requires
        0 <= i < j < v.len(),
    ensures
        sorted(v) ==> !before(v[j], v[i]),
        strictly_sorted(v) ==> before(v[i], v[j]),
        (forall|a: int, b: int|
            0 <= a < b < v.len() ==> before(#[trigger] v[a], #[trigger] v[b])) ==> strictly_sorted(
            v,
        ),
        (forall|a: int, b: int|
            0 <= a < b < v.len() ==> !before(#[trigger] v[b], #[trigger] v[a])) ==> sorted(v),
{
}

/// A list of texts holds the text of each.
pub proof fn law_a_list_holds_each_text(v: Seq<String>)
    ensures
        texts(v).len() == v.len(),
        forall|i: int| 0 <= i < v.len() ==> #[trigger] texts(v)[i] == v[i]@,
{
}

/// One text stands in another where every character of it does, one after another.
pub proof fn law_a_text_stands_where_its_characters_do(
    whole: Seq<char>,
    part: Seq<char>,
    i: int,
)
    ensures
        occurs_at(whole, part, i) <==> 0 <= i <= whole.len() - part.len() && forall|k: int|
            0 <= k < part.len() ==> whole[i + k] == #[trigger] part[k],
        occurs_at(whole, part, i) ==> has_text(whole, part),
        has_text(whole, part) ==> exists|at: int| #[trigger] occurs_at(whole, part, at),
{
    if occurs_at(whole, part, i) {
        assert forall|k: int| 0 <= k < part.len() implies whole[i + k] == #[trigger] part[k] by {
            assert(whole.subrange(i, i + part.len())[k] == whole[i + k]);
        }
    }
    if 0 <= i <= whole.len() - part.len() && forall|k: int|
        0 <= k < part.len() ==> whole[i + k] == #[trigger] part[k] {
        assert(whole.subrange(i, i + part.len()) == part);
    }
}

/// Identifiers say their bytes, and an instant its microseconds.
pub proof fn law_identifiers_say_their_bytes(
    session: SessionId,
    workspace: WorkspaceId,
    project: ProjectId,
    id: Uuid,
    instant: Timestamp,
)
    ensures
        session@ == session.bytes@,
        workspace@ == workspace.bytes@,
        project@ == project.bytes@,
        id@ == id.bytes@,
        instant@ == instant.microsecond,
{
}

} // verus!
