//! What holds of every restore, said of the characters of a path and the flag of an entry.

use vstd::prelude::*;

use crate::ledger::RepurgedSession;
use crate::order::texts;
use crate::restore::{
    all_repo_paths, entry_refusal, kind_of, restore_lines, segment_at, unsafe_path, PathStyle,
};
use crate::text::{decimal, occurs_at};

verus! {

/// `c` ends one component of a path and starts the next.
pub open spec fn divides(style: PathStyle, c: char) -> bool {
    c == '/' || (style is Windows && c == '\\')
}

/// Two dots stand at `i`, between the ends of the path or characters that divide it.
pub open spec fn climbs_at(style: PathStyle, path: Seq<char>, i: int) -> bool {
    &&& 0 <= i < path.len() - 1
    &&& path[i] == '.' && path[i + 1] == '.'
    &&& i == 0 || divides(style, path[i - 1])
    &&& i + 2 == path.len() || divides(style, path[i + 2])
}

/// Every component of the path is an ordinary name: it starts at no root and at no drive,
/// none of its components is `..`, and the first is not `.`.
pub open spec fn ordinary(style: PathStyle, path: Seq<char>) -> bool {
    &&& path.len() > 0 ==> !divides(style, path[0])
    &&& style is Windows && path.len() > 1 && path[1] == ':' ==> !('a' <= path[0] <= 'z') && !('A'
        <= path[0] <= 'Z')
    &&& path.len() == 1 || (path.len() > 1 && divides(style, path[1])) ==> path[0] != '.'
    &&& forall|i: int| !#[trigger] climbs_at(style, path, i)
}

/// A path that is not ordinary is one that could leave the directory, read by its
/// characters.
proof fn lemma_ordinary(style: PathStyle, path: Seq<char>)
    ensures
        ordinary(style, path) == !unsafe_path(style, path),
{
    let dots = seq!['.', '.'];
    let dot = seq!['.'];
    assert forall|i: int| segment_at(style, path, dots, i) == #[trigger] climbs_at(
        style,
        path,
        i,
    ) by {
        if occurs_at(path, dots, i) {
            assert(path.subrange(i, i + 2)[0] == '.');
            assert(path.subrange(i, i + 2)[1] == '.');
        }
        if climbs_at(style, path, i) {
            assert(path.subrange(i, i + 2) == dots);
        }
    }
    if occurs_at(path, dot, 0) {
        assert(path.subrange(0, 1)[0] == '.');
    }
    if path.len() > 0 && path[0] == '.' {
        assert(path.subrange(0, 1) == dot);
    }
    if exists|i: int| segment_at(style, path, dots, i) {
        let i = choose|i: int| segment_at(style, path, dots, i);
        assert(climbs_at(style, path, i));
    }
}

/// Which archive entries are accepted, and what is said of the others: only a file and a
/// directory can be; only at a path of ordinary components; a file only as `config.toml`,
/// as `db/memory.sqlite` or anywhere below `wiki/`, a directory only as `wiki`, as `db` or
/// anywhere below `wiki/`. Every such entry is accepted.
pub proof fn law_backups_are_accepted_whole(style: PathStyle, path: Seq<char>, flag: u8)
    ensures
        ({
            let file = flag == 0 || flag == 48;
            let link = flag == 49 || flag == 50;
            let below = path.len() >= 5 && path[0] == 'w' && path[1] == 'i' && path[2] == 'k'
                && path[3] == 'i' && path[4] == '/';
            let place = if file {
                path == "config.toml"@ || path == "db/memory.sqlite"@ || below
            } else {
                path == "wiki"@ || path == "db"@ || below
            };
            let said = entry_refusal(style, path, kind_of(flag));
            &&& ordinary(style, path) && (file || flag == 53) && place <==> said is None
            &&& !ordinary(style, path) ==> said == Some("backup contains unsafe path: "@ + path)
            &&& ordinary(style, path) && link ==> said == Some(
                "backup contains unsupported link entry: "@ + path,
            )
            &&& ordinary(style, path) && !link && !file && flag != 53 ==> said == Some(
                "backup contains unsupported entry type: "@ + path,
            )
            &&& ordinary(style, path) && (file || flag == 53) && !place ==> said == Some(
                "backup contains unexpected path: "@ + path,
            )
        }),
{
    lemma_ordinary(style, path);
    reveal_strlit("wiki/");
    let head = "wiki/"@;
    if head.is_prefix_of(path) {
        assert(path.take(5) == head);
        assert(path[0] == path.take(5)[0]);
        assert(path[1] == path.take(5)[1]);
        assert(path[2] == path.take(5)[2]);
        assert(path[3] == path.take(5)[3]);
        assert(path[4] == path.take(5)[4]);
    }
    if path.len() >= 5 && path[0] == 'w' && path[1] == 'i' && path[2] == 'k' && path[3] == 'i'
        && path[4] == '/' {
        assert(path.subrange(0, 5) == head);
    }
}

/// A page may have any name and lie at any depth: where the path of a file in the wiki is
/// accepted, so is that of a file below it, whatever its name, as long as the name holds
/// no character that divides a path and is not `..`.
pub proof fn law_any_name_is_accepted_below_the_wiki(
    style: PathStyle,
    path: Seq<char>,
    name: Seq<char>,
)
    requires
        "wiki/"@.is_prefix_of(path),
        entry_refusal(style, path, kind_of(48)) is None,
        forall|i: int| 0 <= i < name.len() ==> !divides(style, #[trigger] name[i]),
        name != seq!['.', '.'],
    ensures
        entry_refusal(style, path + seq!['/'] + name, kind_of(48)) is None,
{
    let longer = path + seq!['/'] + name;
    let n = path.len() as int;
    law_backups_are_accepted_whole(style, path, 48);
    law_backups_are_accepted_whole(style, longer, 48);
    reveal_strlit("wiki/");
    assert(path.subrange(0, 5) == "wiki/"@);
    assert forall|j: int| 0 <= j < 5 implies longer[j] == #[trigger] "wiki/"@[j] by {
        assert(path.subrange(0, 5)[j] == path[j]);
    }
    assert(longer[0] == "wiki/"@[0] && longer[1] == "wiki/"@[1] && longer[2] == "wiki/"@[2]
        && longer[3] == "wiki/"@[3] && longer[4] == "wiki/"@[4]);
    assert forall|i: int| !#[trigger] climbs_at(style, longer, i) by {
        if climbs_at(style, longer, i) {
            assert(longer[n] == '/');
            if i + 2 <= n {
                assert(path[i] == longer[i] && path[i + 1] == longer[i + 1]);
                if i > 0 {
                    assert(path[i - 1] == longer[i - 1]);
                }
                if i + 2 < n {
                    assert(path[i + 2] == longer[i + 2]);
                }
                assert(climbs_at(style, path, i));
            } else {
                assert(i > n);
                if i > n + 1 {
                    assert(longer[i - 1] == name[i - n - 2]);
                }
                if i + 2 < longer.len() {
                    assert(longer[i + 2] == name[i + 1 - n]);
                }
                assert(name[0] == longer[n + 1] && name[1] == longer[n + 2]);
                assert(name == seq!['.', '.']);
            }
        }
    }
}

/// The pages to remove are those of each session, session by session: nothing for none,
/// the session's own for one, and those of two lists one behind the other.
pub proof fn law_pages_to_remove_add_up(a: Seq<RepurgedSession>, b: Seq<RepurgedSession>)
    ensures
        a.len() == 0 ==> all_repo_paths(a).len() == 0,
        a.len() == 1 ==> all_repo_paths(a) == a[0].repo_paths@.map_values(|t: String| t@),
        all_repo_paths(a + b) == all_repo_paths(a) + all_repo_paths(b),
    decreases b.len(),
{
    if a.len() == 1 {
        assert(all_repo_paths(a.drop_last()) == Seq::<Seq<char>>::empty());
        assert(all_repo_paths(a) == texts(a[0].repo_paths@));
        assert(texts(a[0].repo_paths@) == a[0].repo_paths@.map_values(|t: String| t@));
    }
    if b.len() == 0 {
        assert(a + b == a);
        assert(all_repo_paths(a) + all_repo_paths(b) == all_repo_paths(a));
    } else {
        let c = b.drop_last();
        law_pages_to_remove_add_up(a, c);
        assert((a + b).drop_last() == a + c);
        let more = texts(b.last().repo_paths@);
        assert((all_repo_paths(a) + all_repo_paths(c)) + more == all_repo_paths(a) + (
        all_repo_paths(c) + more));
    }
}

/// A completed restore says where the data came from and went to, and, where sessions had
/// to be purged again, how many.
pub proof fn law_restore_says_what_it_did(from: Seq<char>, data_dir: Seq<char>, reapplied: nat)
    ensures
        restore_lines(from, data_dir, reapplied).len() == if reapplied == 0 {
            1int
        } else {
            2int
        },
        restore_lines(from, data_dir, reapplied)[0] == "restored "@ + from + " -> "@ + data_dir,
        reapplied > 0 ==> restore_lines(from, data_dir, reapplied)[1] == "re-purged "@ + decimal(
            reapplied,
        ) + " session(s) the tombstone ledger says were deleted"@,
{
}

} // verus!
