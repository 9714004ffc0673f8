//! The working tree against a commit: what differs and what is not yet
//! tracked.

use crate::git::{filled, worktree_list};
use crate::laws::revisions::law_repeated_texts_are_taken_once;
use crate::text::{lemma_text_order_total, sorted_texts, split_on, text_order};
use vstd::prelude::*;

verus! {

proof fn lemma_sorted_holds(s: Seq<Seq<char>>, t: Seq<char>)
    ensures
        sorted_texts(s).contains(t) <==> s.contains(t),
{
    broadcast use vstd::seq_lib::group_to_multiset_ensures;

    lemma_text_order_total();
    s.lemma_sort_by_ensures(text_order());
    assert(sorted_texts(s).to_multiset() == s.to_multiset());
    assert(s.contains(t) <==> s.to_multiset().count(t) > 0);
    assert(sorted_texts(s).contains(t) <==> sorted_texts(s).to_multiset().count(t) > 0);
}

/// The files of a working tree under review are those that differ from the
/// commit and those that are not tracked, and no others.
pub proof fn law_what_differs_and_what_is_new_is_reviewed(
    diff: Seq<char>,
    status: Seq<char>,
    others: Seq<char>,
    path: Seq<char>,
)
    requires
        crate::git::workspace_paths(status) is None,
    ensures
        worktree_list(diff, status, others).contains(path) <==> filled(split_on(diff, '\n')).contains(path) || filled(
            split_on(others, '\n'),
        ).contains(path),
{
    let a = filled(split_on(diff, '\n'));
    let b = filled(split_on(others, '\n'));
    lemma_sorted_holds(a + b, path);
    law_repeated_texts_are_taken_once(sorted_texts(a + b), path);
    if a.contains(path) {
        let k = choose|k: int| 0 <= k < a.len() && a[k] == path;
        assert((a + b)[k] == path);
    }
    if b.contains(path) {
        let k = choose|k: int| 0 <= k < b.len() && b[k] == path;
        assert((a + b)[a.len() + k] == path);
    }
    if (a + b).contains(path) {
        let k = choose|k: int| 0 <= k < (a + b).len() && (a + b)[k] == path;
        if k < a.len() {
            assert(a[k] == path);
        } else {
            assert(b[k - a.len()] == path);
        }
    }
}

/// Where a workspace tells its own changes, they stand beside what differs.
pub proof fn law_the_changes_of_a_workspace_are_reviewed(
    diff: Seq<char>,
    status: Seq<char>,
    others: Seq<char>,
    own: Seq<Seq<char>>,
    path: Seq<char>,
)
    requires
        crate::git::workspace_paths(status) == Some(own),
    ensures
        worktree_list(diff, status, others).contains(path) <==> filled(split_on(diff, '\n')).contains(path)
            || own.contains(path),
{
    let a = filled(split_on(diff, '\n'));
    let b = own;
    lemma_sorted_holds(a + b, path);
    law_repeated_texts_are_taken_once(sorted_texts(a + b), path);
    if a.contains(path) {
        let k = choose|k: int| 0 <= k < a.len() && a[k] == path;
        assert((a + b)[k] == path);
    }
    if b.contains(path) {
        let k = choose|k: int| 0 <= k < b.len() && b[k] == path;
        assert((a + b)[a.len() + k] == path);
    }
    if (a + b).contains(path) {
        let k = choose|k: int| 0 <= k < (a + b).len() && (a + b)[k] == path;
        if k < a.len() {
            assert(a[k] == path);
        } else {
            assert(b[k - a.len()] == path);
        }
    }
}

} // verus!
