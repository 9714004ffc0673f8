//! The files of a review: each with its own text before and after.

use crate::git::{both_sides, range_taken, uncommitted_taken, worktree_taken, BytesRead};
use crate::reorder::ChangeText;
use crate::rules::FileRead;
use vstd::prelude::*;

verus! {

/// The text that is kept under a name; nothing where there is none.
pub open spec fn kept_under(blobs: Map<Seq<char>, Seq<char>>, name: Seq<char>) -> Seq<char> {
    if blobs.dom().contains(name) {
        blobs[name]
    } else {
        Seq::empty()
    }
}

/// Whether no file's text before is another's text after.
pub open spec fn names_apart(paths: Seq<Seq<char>>, base: Seq<char>, tip: Seq<char>) -> bool {
    forall|i: int, j: int|
        0 <= i < paths.len() && 0 <= j < paths.len() ==> base + seq![':'] + #[trigger] paths[i] != tip + seq![':']
            + #[trigger] paths[j]
}

proof fn lemma_name_of_another(rev: Seq<char>, p: Seq<char>, q: Seq<char>)
    requires
        p != q,
    ensures
        rev + seq![':'] + p != rev + seq![':'] + q,
{
    let a = rev + seq![':'] + p;
    let b = rev + seq![':'] + q;
    if a == b {
        assert(p =~= a.skip(rev.len() as int + 1));
        assert(q =~= b.skip(rev.len() as int + 1));
    }
}

proof fn lemma_range_taken(
    paths: Seq<Seq<char>>,
    base: Seq<char>,
    tip: Seq<char>,
    blobs: Map<Seq<char>, Seq<char>>,
    n: int,
)
    requires
        0 <= n <= paths.len(),
        paths.no_duplicates(),
        names_apart(paths, base, tip),
    ensures
        ({
            let (all, left) = range_taken(paths, base, tip, blobs, n);
            &&& all.len() == n
            &&& forall|i: int|
                0 <= i < n ==> (#[trigger] all[i]) == (ChangeText {
                    path: paths[i],
                    old: Some(kept_under(blobs, base + seq![':'] + paths[i])),
                    new: Some(kept_under(blobs, tip + seq![':'] + paths[i])),
                })
            &&& forall|i: int|
                n <= i < paths.len() ==> kept_under(left, base + seq![':'] + #[trigger] paths[i]) == kept_under(
                    blobs,
                    base + seq![':'] + paths[i],
                ) && kept_under(left, tip + seq![':'] + paths[i]) == kept_under(blobs, tip + seq![':'] + paths[i])
        }),
    decreases n,
{
    reveal_strlit(":");
    reveal_strlit("");
    assert(":"@ =~= seq![':']);
    assert(""@ =~= Seq::<char>::empty());
    if n > 0 {
        lemma_range_taken(paths, base, tip, blobs, n - 1);
        let p = paths[n - 1];
        assert forall|i: int| n <= i < paths.len() implies base + seq![':'] + #[trigger] paths[i] != base + seq![':']
            + p && tip + seq![':'] + paths[i] != tip + seq![':'] + p by {
            lemma_name_of_another(base, paths[i], p);
            lemma_name_of_another(tip, paths[i], p);
        }
    }
}

/// The files of a range come with their own texts: what `base:path` names is what
/// a file held before, what `tip:path` names is what it holds after, and a name
/// that is not known stands for nothing.
pub proof fn law_a_range_gathers_each_file_from_both_ends(
    paths: Seq<Seq<char>>,
    base: Seq<char>,
    tip: Seq<char>,
    blobs: Map<Seq<char>, Seq<char>>,
)
    requires
        paths.no_duplicates(),
        names_apart(paths, base, tip),
    ensures
        ({
            let all = range_taken(paths, base, tip, blobs, paths.len() as int).0;
            &&& all.len() == paths.len()
            &&& forall|i: int|
                0 <= i < paths.len() ==> {
                    let before = base + seq![':'] + paths[i];
                    let after = tip + seq![':'] + paths[i];
                    &&& (#[trigger] all[i]).path == paths[i]
                    &&& all[i].old is Some && all[i].new is Some
                    &&& blobs.dom().contains(before) ==> all[i].old->0 == blobs[before]
                    &&& !blobs.dom().contains(before) ==> all[i].old->0.len() == 0
                    &&& blobs.dom().contains(after) ==> all[i].new->0 == blobs[after]
                    &&& !blobs.dom().contains(after) ==> all[i].new->0.len() == 0
                }
        }),
{
    lemma_range_taken(paths, base, tip, blobs, paths.len() as int);
}

/// Where the two ends are named without a colon and differ, no file's text
/// before is another's text after.
pub proof fn law_the_two_ends_of_a_range_are_told_apart(paths: Seq<Seq<char>>, base: Seq<char>, tip: Seq<char>)
    requires
        base != tip,
        !base.contains(':'),
        !tip.contains(':'),
    ensures
        names_apart(paths, base, tip),
{
    assert forall|i: int, j: int| 0 <= i < paths.len() && 0 <= j < paths.len() implies base + seq![':']
        + #[trigger] paths[i] != tip + seq![':'] + #[trigger] paths[j] by {
        let a = base + seq![':'] + paths[i];
        let b = tip + seq![':'] + paths[j];
        if a == b {
            assert(a[base.len() as int] == ':');
            assert(b[tip.len() as int] == ':');
            if base.len() < tip.len() {
                assert(tip[base.len() as int] == b[base.len() as int]);
            } else if tip.len() < base.len() {
                assert(base[tip.len() as int] == a[tip.len() as int]);
            } else {
                assert forall|k: int| 0 <= k < base.len() implies base[k] == tip[k] by {
                    assert(a[k] == base[k] && b[k] == tip[k]);
                }
                assert(base =~= tip);
            }
        }
    }
}

/// Git is asked for both ends of each file, in the order of the files.
pub proof fn law_both_ends_of_each_file_are_asked_for(base: Seq<char>, tip: Seq<char>, paths: Seq<Seq<char>>, n: int)
    requires
        0 <= n <= paths.len(),
    ensures
        both_sides(base, tip, paths, n).len() == 2 * n,
        forall|i: int|
            0 <= i < n ==> both_sides(base, tip, paths, n)[2 * i] == base + seq![':'] + #[trigger] paths[i]
                && both_sides(base, tip, paths, n)[2 * i + 1] == tip + seq![':'] + paths[i],
    decreases n,
{
    reveal_strlit(":");
    assert(":"@ =~= seq![':']);
    if n > 0 {
        law_both_ends_of_each_file_are_asked_for(base, tip, paths, n - 1);
    }
}

proof fn lemma_uncommitted_taken(
    paths: Seq<Seq<char>>,
    blobs: Map<Seq<char>, Seq<char>>,
    reads: Seq<FileRead>,
    n: int,
)
    requires
        0 <= n <= paths.len(),
        reads.len() == paths.len(),
        paths.no_duplicates(),
    ensures
        ({
            let (all, left) = uncommitted_taken(paths, blobs, reads, n);
            &&& all.len() == n
            &&& forall|i: int|
                0 <= i < n ==> (#[trigger] all[i]) == (ChangeText {
                    path: paths[i],
                    old: Some(kept_under(blobs, "HEAD:"@ + paths[i])),
                    new: Some(
                        match reads[i] {
                            FileRead::Text(s) => s@,
                            _ => Seq::empty(),
                        },
                    ),
                })
            &&& forall|i: int|
                n <= i < paths.len() ==> kept_under(left, "HEAD:"@ + #[trigger] paths[i]) == kept_under(
                    blobs,
                    "HEAD:"@ + paths[i],
                )
        }),
    decreases n,
{
    reveal_strlit(":");
    reveal_strlit("");
    reveal_strlit("HEAD");
    reveal_strlit("HEAD:");
    assert(""@ =~= Seq::<char>::empty());
    assert("HEAD:"@ =~= "HEAD"@ + seq![':']);
    assert("HEAD:"@ =~= "HEAD"@ + ":"@);
    if n > 0 {
        lemma_uncommitted_taken(paths, blobs, reads, n - 1);
        let p = paths[n - 1];
        assert forall|i: int| n <= i < paths.len() implies "HEAD:"@ + #[trigger] paths[i] != "HEAD:"@ + p by {
            lemma_name_of_another("HEAD"@, paths[i], p);
        }
    }
}

/// The files that are not committed come with what the present commit holds of
/// them, and with what was read from the disk.
pub proof fn law_the_working_tree_is_gathered_against_the_present_commit(
    paths: Seq<Seq<char>>,
    blobs: Map<Seq<char>, Seq<char>>,
    reads: Seq<FileRead>,
)
    requires
        reads.len() == paths.len(),
        paths.no_duplicates(),
    ensures
        ({
            let all = uncommitted_taken(paths, blobs, reads, paths.len() as int).0;
            &&& all.len() == paths.len()
            &&& forall|i: int|
                0 <= i < paths.len() ==> {
                    let before = "HEAD:"@ + paths[i];
                    &&& (#[trigger] all[i]).path == paths[i]
                    &&& all[i].old is Some && all[i].new is Some
                    &&& blobs.dom().contains(before) ==> all[i].old->0 == blobs[before]
                    &&& !blobs.dom().contains(before) ==> all[i].old->0.len() == 0
                    &&& reads[i] matches FileRead::Text(s) ==> all[i].new->0 == s@
                    &&& !(reads[i] is Text) ==> all[i].new->0.len() == 0
                }
        }),
{
    lemma_uncommitted_taken(paths, blobs, reads, paths.len() as int);
}

/// The text of a file as its bytes were read: nothing of a file that is gone.
pub open spec fn read_as(r: BytesRead) -> Option<Seq<char>> {
    match r {
        BytesRead::Missing(_) => Some(Seq::empty()),
        BytesRead::Bytes(b) if vstd::utf8::valid_utf8(b@) => Some(vstd::utf8::decode_utf8(b@)),
        _ => None,
    }
}

proof fn lemma_worktree_taken(
    paths: Seq<Seq<char>>,
    base: Seq<char>,
    blobs: Map<Seq<char>, Seq<char>>,
    reads: Seq<BytesRead>,
    n: int,
)
    requires
        0 <= n <= paths.len(),
        reads.len() == paths.len(),
        paths.no_duplicates(),
    ensures
        ({
            let (all, left) = worktree_taken(paths, base, blobs, reads, n);
            &&& all.len() <= n
            &&& forall|k: int| #![trigger all[k]]
                0 <= k < all.len() ==> exists|i: int|
                    0 <= i < n && #[trigger] read_as(reads[i]) is Some && all[k] == (ChangeText {
                        path: paths[i],
                        old: Some(kept_under(blobs, base + seq![':'] + paths[i])),
                        new: read_as(reads[i]),
                    })
            &&& forall|i: int|
                0 <= i < n && #[trigger] read_as(reads[i]) is Some ==> exists|k: int|
                    0 <= k < all.len() && (#[trigger] all[k]).path == paths[i]
            &&& forall|i: int|
                n <= i < paths.len() ==> kept_under(left, base + seq![':'] + #[trigger] paths[i]) == kept_under(
                    blobs,
                    base + seq![':'] + paths[i],
                )
        }),
    decreases n,
{
    reveal_strlit(":");
    reveal_strlit("");
    assert(":"@ =~= seq![':']);
    assert(""@ =~= Seq::<char>::empty());
    if n > 0 {
        lemma_worktree_taken(paths, base, blobs, reads, n - 1);
        let p = paths[n - 1];
        let (had, m) = worktree_taken(paths, base, blobs, reads, n - 1);
        let (all, left) = worktree_taken(paths, base, blobs, reads, n);
        assert forall|i: int| n <= i < paths.len() implies base + seq![':'] + #[trigger] paths[i] != base + seq![':']
            + p by {
            lemma_name_of_another(base, paths[i], p);
        }
        assert(crate::git::text_read(reads[n - 1]) == read_as(reads[n - 1]));
        assert forall|k: int| #![trigger all[k]] 0 <= k < all.len() implies exists|i: int|
            0 <= i < n && #[trigger] read_as(reads[i]) is Some && all[k] == (ChangeText {
                path: paths[i],
                old: Some(kept_under(blobs, base + seq![':'] + paths[i])),
                new: read_as(reads[i]),
            }) by {
            if k < had.len() {
                assert(all[k] == had[k]);
                let i = choose|i: int|
                    0 <= i < n - 1 && #[trigger] read_as(reads[i]) is Some && had[k] == (ChangeText {
                        path: paths[i],
                        old: Some(kept_under(blobs, base + seq![':'] + paths[i])),
                        new: read_as(reads[i]),
                    });
                assert(read_as(reads[i]) is Some);
            } else {
                assert(read_as(reads[n - 1]) is Some);
                assert(all[k].path == paths[n - 1]);
            }
        }
        assert forall|i: int| 0 <= i < n && #[trigger] read_as(reads[i]) is Some implies exists|k: int|
            0 <= k < all.len() && (#[trigger] all[k]).path == paths[i] by {
            if i < n - 1 {
                let k = choose|k: int| 0 <= k < had.len() && (#[trigger] had[k]).path == paths[i];
                assert(all[k] == had[k]);
            } else {
                assert(all[had.len() as int].path == paths[i]);
            }
        }
    }
}

/// The files of the working tree come with what the commit that they are compared
/// with holds of them, and with what was read: every file that could be read, and
/// no other.
pub proof fn law_the_working_tree_is_gathered_against_a_commit(
    paths: Seq<Seq<char>>,
    base: Seq<char>,
    blobs: Map<Seq<char>, Seq<char>>,
    reads: Seq<BytesRead>,
    i: int,
)
    requires
        reads.len() == paths.len(),
        paths.no_duplicates(),
        0 <= i < paths.len(),
    ensures
        ({
            let all = worktree_taken(paths, base, blobs, reads, paths.len() as int).0;
            let before = base + seq![':'] + paths[i];
            &&& read_as(reads[i]) is None ==> forall|k: int| 0 <= k < all.len() ==> (#[trigger] all[k]).path != paths[i]
            &&& read_as(reads[i]) is Some ==> exists|k: int|
                0 <= k < all.len() && (#[trigger] all[k]).path == paths[i] && all[k].new == read_as(reads[i])
                    && all[k].old is Some && (blobs.dom().contains(before) ==> all[k].old->0 == blobs[before]) && (
                !blobs.dom().contains(before) ==> all[k].old->0.len() == 0)
        }),
{
    lemma_worktree_taken(paths, base, blobs, reads, paths.len() as int);
    let all = worktree_taken(paths, base, blobs, reads, paths.len() as int).0;
    if read_as(reads[i]) is Some {
        let k = choose|k: int| 0 <= k < all.len() && (#[trigger] all[k]).path == paths[i];
        let j = choose|j: int|
            0 <= j < paths.len() && #[trigger] read_as(reads[j]) is Some && all[k] == (ChangeText {
                path: paths[j],
                old: Some(kept_under(blobs, base + seq![':'] + paths[j])),
                new: read_as(reads[j]),
            });
        assert(i == j);
    } else {
        assert forall|k: int| 0 <= k < all.len() implies (#[trigger] all[k]).path != paths[i] by {
            let j = choose|j: int|
                0 <= j < paths.len() && #[trigger] read_as(reads[j]) is Some && all[k] == (ChangeText {
                    path: paths[j],
                    old: Some(kept_under(blobs, base + seq![':'] + paths[j])),
                    new: read_as(reads[j]),
                });
        }
    }
}

} // verus!
