//! What a revision means, and which files it holds.

use crate::git::{
    branch_span, changed_paths, declared_from, deduped, filled, find_branch, finding, history_start, list_or_none,
    parent_or_empty, range_ends, workspace_branches, workspace_changes, AskText, FindingText, TargetText,
};
use crate::json::{list_at, text_at, JsonTree};
use crate::text::{contains_text, find_from, lemma_find_from, occurs_at, trimmed};
use vstd::prelude::*;

verus! {

/// Whether two dots stand side by side in a text.
pub open spec fn has_two_dots(s: Seq<char>) -> bool {
    exists|i: int| 0 <= i < s.len() - 1 && #[trigger] s[i] == '.' && s[i + 1] == '.'
}

/// Whether two texts can be the ends of a range that is read in one way: neither
/// has two dots side by side, and no dot stands next to those between them.
pub open spec fn plain_ends(base: Seq<char>, tip: Seq<char>) -> bool {
    &&& !has_two_dots(base)
    &&& !has_two_dots(tip)
    &&& base.len() > 0 ==> base.last() != '.'
    &&& tip.len() > 0 ==> tip[0] != '.'
}

proof fn lemma_two_at(s: Seq<char>, i: int)
    ensures
        occurs_at(s, ".."@, i) <==> 0 <= i && i + 2 <= s.len() && s[i] == '.' && s[i + 1] == '.',
{
    reveal_strlit("..");
    if 0 <= i && i + 2 <= s.len() {
        let part = s.subrange(i, i + 2);
        if s[i] == '.' && s[i + 1] == '.' {
            assert(part =~= ".."@);
        }
        if part == ".."@ {
            assert(part[0] == s[i] && part[1] == s[i + 1]);
        }
    }
}

proof fn lemma_three_at(s: Seq<char>, i: int)
    ensures
        occurs_at(s, "..."@, i) <==> 0 <= i && i + 3 <= s.len() && s[i] == '.' && s[i + 1] == '.' && s[i + 2] == '.',
{
    reveal_strlit("...");
    if 0 <= i && i + 3 <= s.len() {
        let part = s.subrange(i, i + 3);
        if s[i] == '.' && s[i + 1] == '.' && s[i + 2] == '.' {
            assert(part =~= "..."@);
        }
        if part == "..."@ {
            assert(part[0] == s[i] && part[1] == s[i + 1] && part[2] == s[i + 2]);
        }
    }
}

proof fn lemma_no_two_dots(s: Seq<char>)
    requires
        !has_two_dots(s),
    ensures
        !contains_text(s, ".."@),
{
    assert forall|i: int| !occurs_at(s, ".."@, i) by {
        lemma_two_at(s, i);
        if occurs_at(s, ".."@, i) {
            assert(s[i] == '.');
        }
    }
}

proof fn lemma_two_dot_ends(base: Seq<char>, tip: Seq<char>)
    requires
        plain_ends(base, tip),
    ensures
        range_ends(base + seq!['.', '.'] + tip) == Some((base, tip, false)),
        contains_text(base + seq!['.', '.'] + tip, ".."@),
{
    let s = base + seq!['.', '.'] + tip;
    let n = base.len() as int;
    reveal_strlit("..");
    reveal_strlit("...");
    lemma_find_from(s, "..."@, 0);
    lemma_find_from(s, ".."@, 0);
    let j = find_from(s, "..."@, 0);
    let i = find_from(s, ".."@, 0);
    assert forall|k: int| 0 <= k < n implies s[k] == base[k] by {}
    assert forall|k: int| n + 2 <= k < s.len() implies s[k] == tip[k - n - 2] by {}
    if j <= s.len() {
        lemma_three_at(s, j);
        if j + 2 < n {
            assert(base[j] == '.' && base[j + 1] == '.');
        } else if j + 1 == n - 1 || j == n - 1 {
            assert(base.last() == '.');
        } else if j == n {
            assert(tip[0] == '.');
        } else if j == n + 1 {
            assert(tip[0] == '.');
        } else {
            assert(tip[j - n - 2] == '.' && tip[j - n - 1] == '.');
        }
        assert(false);
    }
    lemma_two_at(s, n);
    assert(occurs_at(s, ".."@, n));
    if i < n {
        lemma_two_at(s, i);
        if i + 1 < n {
            assert(base[i] == '.' && base[i + 1] == '.');
        } else {
            assert(base.last() == '.');
        }
        assert(false);
    }
    assert(i == n);
    assert(s.take(n) =~= base);
    assert(s.skip(n + 2) =~= tip);
}

proof fn lemma_three_dot_ends(base: Seq<char>, tip: Seq<char>)
    requires
        plain_ends(base, tip),
    ensures
        range_ends(base + seq!['.', '.', '.'] + tip) == Some((base, tip, true)),
        contains_text(base + seq!['.', '.', '.'] + tip, ".."@),
{
    let s = base + seq!['.', '.', '.'] + tip;
    let n = base.len() as int;
    reveal_strlit("...");
    lemma_find_from(s, "..."@, 0);
    let j = find_from(s, "..."@, 0);
    assert forall|k: int| 0 <= k < n implies s[k] == base[k] by {}
    lemma_three_at(s, n);
    assert(occurs_at(s, "..."@, n));
    if j < n {
        lemma_three_at(s, j);
        if j + 1 < n {
            assert(base[j] == '.' && base[j + 1] == '.');
        } else {
            assert(base.last() == '.');
        }
        assert(false);
    }
    assert(j == n);
    assert(s.take(n) =~= base);
    assert(s.skip(n + 3) =~= tip);
    lemma_two_at(s, n);
    assert(occurs_at(s, ".."@, n));
}

/// The name of a commit that is asked for: an end that is left out is the present
/// commit.
pub open spec fn end_named(s: Seq<char>) -> Seq<char> {
    if s.len() == 0 {
        "HEAD"@
    } else {
        s
    }
}

proof fn lemma_not_zz(base: Seq<char>, dots: Seq<char>, tip: Seq<char>)
    requires
        dots.len() >= 2,
        dots[0] == '.',
    ensures
        base + dots + tip != "zz"@,
{
    reveal_strlit("zz");
    let s = base + dots + tip;
    assert(s[base.len() as int] == '.');
    if s == "zz"@ {
        assert(s.len() == 2);
        assert(s[0] == 'z' && s[1] == 'z');
        assert(base.len() == 0);
    }
}

/// `base..tip` is the change from the one commit to the other: the first reply is
/// where it starts, the second where it ends.
pub proof fn law_two_dots_go_from_base_to_tip(base: Seq<char>, tip: Seq<char>, from: Seq<char>, to: Seq<char>)
    requires
        plain_ends(base, tip),
        base != "zz"@,
        tip != "zz"@,
        trimmed(from).len() > 0,
        trimmed(to).len() > 0,
    ensures
        ({
            let arg = base + seq!['.', '.'] + tip;
            &&& finding(arg, seq![]) == FindingText::Ask(AskText::Commit(end_named(base)))
            &&& finding(arg, seq![from]) == FindingText::Ask(AskText::Commit(end_named(tip)))
            &&& finding(arg, seq![from, to]) == FindingText::Found(TargetText::Range(trimmed(from), trimmed(to)))
        }),
{
    lemma_two_dot_ends(base, tip);
    lemma_not_zz(base, seq!['.', '.'], tip);
    lemma_no_two_dots(tip);
    assert(seq![from, to][0] == from && seq![from, to][1] == to);
}

/// `base...tip` starts where the two part: what is asked for third is the commit
/// that they have in common.
pub proof fn law_three_dots_start_where_the_ends_part(
    base: Seq<char>,
    tip: Seq<char>,
    from: Seq<char>,
    to: Seq<char>,
    shared: Seq<char>,
)
    requires
        plain_ends(base, tip),
        base != "zz"@,
        tip != "zz"@,
        trimmed(from).len() > 0,
        trimmed(to).len() > 0,
        trimmed(shared).len() > 0,
    ensures
        ({
            let arg = base + seq!['.', '.', '.'] + tip;
            &&& finding(arg, seq![]) == FindingText::Ask(AskText::Commit(end_named(base)))
            &&& finding(arg, seq![from]) == FindingText::Ask(AskText::Commit(end_named(tip)))
            &&& finding(arg, seq![from, to]) == FindingText::Ask(AskText::MergeBase(trimmed(from), trimmed(to)))
            &&& finding(arg, seq![from, to, shared]) == FindingText::Found(
                TargetText::Range(trimmed(shared), trimmed(to)),
            )
        }),
{
    lemma_three_dot_ends(base, tip);
    lemma_not_zz(base, seq!['.', '.', '.'], tip);
    lemma_no_two_dots(tip);
    assert(seq![from, to][0] == from && seq![from, to][1] == to);
    assert(seq![from, to, shared][0] == from && seq![from, to, shared][1] == to && seq![from, to, shared][2] == shared);
}

/// `base..zz` is the working tree against the commit, and `base...zz` against what
/// the commit and the present one have in common; `zz` alone is what is not
/// committed.
pub proof fn law_zz_is_the_working_tree(base: Seq<char>, from: Seq<char>, shared: Seq<char>, replies: Seq<Seq<char>>)
    requires
        plain_ends(base, "zz"@),
        base != "zz"@,
        trimmed(from).len() > 0,
        trimmed(shared).len() > 0,
    ensures
        finding("zz"@, replies) == FindingText::Found(TargetText::Uncommitted),
        finding(base + seq!['.', '.'] + "zz"@, seq![from]) == FindingText::Found(
            TargetText::WorktreeRange(trimmed(from)),
        ),
        finding(base + seq!['.', '.', '.'] + "zz"@, seq![from]) == FindingText::Ask(
            AskText::MergeBase(trimmed(from), "HEAD"@),
        ),
        finding(base + seq!['.', '.', '.'] + "zz"@, seq![from, shared]) == FindingText::Found(
            TargetText::WorktreeRange(trimmed(shared)),
        ),
{
    lemma_two_dot_ends(base, "zz"@);
    lemma_three_dot_ends(base, "zz"@);
    lemma_not_zz(base, seq!['.', '.'], "zz"@);
    lemma_not_zz(base, seq!['.', '.', '.'], "zz"@);
    lemma_no_two_dots("zz"@);
    assert(seq![from, shared][0] == from && seq![from, shared][1] == shared);
}

/// A commit that is not known leaves the whole range unknown.
pub proof fn law_an_unknown_end_leaves_a_range_unknown(base: Seq<char>, tip: Seq<char>, from: Seq<char>, to: Seq<char>)
    requires
        plain_ends(base, tip),
        base != "zz"@,
        tip != "zz"@,
    ensures
        trimmed(from).len() == 0 ==> finding(base + seq!['.', '.'] + tip, seq![from]) == FindingText::Unknown,
        trimmed(from).len() > 0 && trimmed(to).len() == 0 ==> finding(base + seq!['.', '.'] + tip, seq![from, to])
            == FindingText::Unknown,
{
    lemma_two_dot_ends(base, tip);
    lemma_not_zz(base, seq!['.', '.'], tip);
    lemma_no_two_dots(tip);
    assert(seq![from, to][0] == from && seq![from, to][1] == to);
}

proof fn lemma_find_branch(v: Seq<JsonTree>, arg: Seq<char>, from: int, k: int)
    requires
        0 <= from <= k < v.len(),
        text_at(v[k], "cliId"@) == arg || text_at(v[k], "name"@) == arg,
        forall|j: int| from <= j < k ==> text_at(#[trigger] v[j], "cliId"@) != arg && text_at(v[j], "name"@) != arg,
    ensures
        find_branch(v, arg, from) == Some(v[k]),
    decreases k - from,
{
    if from < k {
        assert(text_at(v[from], "cliId"@) != arg);
        lemma_find_branch(v, arg, from + 1, k);
    }
}

/// A branch of the workspace is reviewed from before its oldest commit to its
/// newest: branches list their commits from the newest on.
pub proof fn law_a_branch_is_reviewed_whole(
    arg: Seq<char>,
    status: Seq<char>,
    parent: Seq<char>,
    ws: JsonTree,
    k: int,
    commits: Seq<JsonTree>,
)
    requires
        arg != "zz"@,
        !contains_text(arg, ".."@),
        crate::json::json_document(status) == Some(ws),
        0 <= k < workspace_branches(ws).len(),
        text_at(workspace_branches(ws)[k], "cliId"@) == arg || text_at(workspace_branches(ws)[k], "name"@) == arg,
        forall|j: int|
            0 <= j < k ==> text_at(#[trigger] workspace_branches(ws)[j], "cliId"@) != arg && text_at(
                workspace_branches(ws)[j],
                "name"@,
            ) != arg,
        list_at(workspace_branches(ws)[k], "commits"@) == Some(commits),
        commits.len() > 0,
        text_at(commits[0], "commitId"@).len() > 0,
        text_at(commits[commits.len() - 1], "commitId"@).len() > 0,
        trimmed(parent).len() > 0,
    ensures
        finding(arg, seq![]) == FindingText::Ask(AskText::Workspace),
        finding(arg, seq![status]) == FindingText::Ask(
            AskText::Parent(text_at(commits[commits.len() - 1], "commitId"@)),
        ),
        finding(arg, seq![status, parent]) == FindingText::Found(
            TargetText::Range(trimmed(parent), text_at(commits[0], "commitId"@)),
        ),
{
    lemma_find_branch(workspace_branches(ws), arg, 0, k);
    assert(branch_span(ws, arg) == Some(
        (text_at(commits[commits.len() - 1], "commitId"@), text_at(commits[0], "commitId"@)),
    ));
    assert(seq![status, parent][0] == status && seq![status, parent][1] == parent);
}

/// What git knows under a name is reviewed as that commit, where the name is no
/// branch of the workspace.
pub proof fn law_a_commit_of_git_is_reviewed(arg: Seq<char>, status: Seq<char>, sha: Seq<char>)
    requires
        arg != "zz"@,
        !contains_text(arg, ".."@),
        crate::json::json_document(status) is None,
        trimmed(sha).len() > 0,
    ensures
        finding(arg, seq![status]) == FindingText::Ask(AskText::Commit(arg)),
        finding(arg, seq![status, sha]) == FindingText::Found(TargetText::Commit(trimmed(sha))),
{
    assert(seq![status, sha][0] == status && seq![status, sha][1] == sha);
}

/// A first commit is compared with the tree that holds nothing.
pub proof fn law_a_first_commit_is_compared_with_nothing(reply: Seq<char>)
    ensures
        trimmed(reply).len() == 0 ==> parent_or_empty(reply) == "4b825dc642cb6eb9a060e54bf8d69288fbee4904"@,
        trimmed(reply).len() > 0 ==> parent_or_empty(reply) == trimmed(reply),
{
}

/// History is told from the commit that is reviewed, from the end of a range, or
/// from the present commit where the working tree is reviewed.
pub proof fn law_history_is_told_from_the_end_of_the_review(base: Seq<char>, tip: Seq<char>, head: Seq<char>)
    ensures
        history_start(TargetText::Commit(tip), head) == Some(tip),
        history_start(TargetText::Range(base, tip), head) == Some(tip),
        trimmed(head).len() > 0 ==> history_start(TargetText::Uncommitted, head) == Some(trimmed(head)),
        trimmed(head).len() > 0 ==> history_start(TargetText::WorktreeRange(base), head) == Some(trimmed(head)),
        trimmed(head).len() == 0 ==> history_start(TargetText::Uncommitted, head) is None,
{
}

/// Taking out what repeats the one before it loses no text, and leaves no two
/// alike side by side.
pub proof fn law_repeated_texts_are_taken_once(s: Seq<Seq<char>>, t: Seq<char>)
    ensures
        deduped(s).contains(t) <==> s.contains(t),
        forall|i: int| 0 <= i < deduped(s).len() - 1 ==> #[trigger] deduped(s)[i] != deduped(s)[i + 1],
        s.len() > 0 ==> deduped(s).len() > 0 && deduped(s).last() == s.last(),
    decreases s.len(),
{
    if s.len() > 0 {
        let front = s.drop_last();
        law_repeated_texts_are_taken_once(front, t);
        law_repeated_texts_are_taken_once(front, s.last());
        let before = deduped(front);
        let all = deduped(s);
        if all.contains(t) {
            let w = choose|w: int| 0 <= w < all.len() && all[w] == t;
            if w < before.len() {
                assert(before[w] == t);
                let x = choose|x: int| 0 <= x < front.len() && front[x] == t;
                assert(s[x] == t);
            } else {
                assert(s[s.len() - 1] == t);
            }
        }
        if s.contains(t) {
            let x = choose|x: int| 0 <= x < s.len() && s[x] == t;
            if x < front.len() {
                assert(front[x] == t);
                let w = choose|w: int| 0 <= w < before.len() && before[w] == t;
                assert(all[w] == t);
            } else {
                assert(all[all.len() - 1] == t);
            }
        }
    }
}

/// Of some lines those that are not blank count, each without the space around it.
pub proof fn law_blank_lines_do_not_count(parts: Seq<Seq<char>>, t: Seq<char>)
    ensures
        filled(parts).contains(t) <==> t.len() > 0 && exists|i: int|
            0 <= i < parts.len() && trimmed(#[trigger] parts[i]) == t,
    decreases parts.len(),
{
    if parts.len() > 0 {
        let front = parts.drop_last();
        law_blank_lines_do_not_count(front, t);
        let before = filled(front);
        let all = filled(parts);
        if all.contains(t) {
            let w = choose|w: int| 0 <= w < all.len() && all[w] == t;
            if w < before.len() {
                assert(before[w] == t);
                let i = choose|i: int| 0 <= i < front.len() && trimmed(#[trigger] front[i]) == t;
                assert(trimmed(parts[i]) == t);
            } else {
                assert(trimmed(parts[parts.len() - 1]) == t);
            }
        }
        if t.len() > 0 && exists|i: int| 0 <= i < parts.len() && trimmed(#[trigger] parts[i]) == t {
            let i = choose|i: int| 0 <= i < parts.len() && trimmed(#[trigger] parts[i]) == t;
            if i < front.len() {
                assert(trimmed(front[i]) == t);
                let w = choose|w: int| 0 <= w < before.len() && before[w] == t;
                assert(all[w] == t);
            } else {
                assert(all[before.len() as int] == t);
            }
        }
    }
}

/// What a workspace lists as changed are the paths of its changes.
pub proof fn law_the_changes_of_a_workspace_have_their_paths(v: Seq<JsonTree>, n: int, p: Seq<char>)
    requires
        0 <= n <= v.len(),
    ensures
        changed_paths(v, n).contains(p) <==> p.len() > 0 && exists|i: int|
            0 <= i < n && text_at(#[trigger] v[i], "filePath"@) == p,
    decreases n,
{
    if n > 0 {
        law_the_changes_of_a_workspace_have_their_paths(v, n - 1, p);
        let before = changed_paths(v, n - 1);
        let all = changed_paths(v, n);
        if all.contains(p) {
            let w = choose|w: int| 0 <= w < all.len() && all[w] == p;
            if w < before.len() {
                assert(before[w] == p);
                let i = choose|i: int| 0 <= i < n - 1 && text_at(#[trigger] v[i], "filePath"@) == p;
                assert(text_at(v[i], "filePath"@) == p);
            } else {
                assert(text_at(v[n - 1], "filePath"@) == p);
            }
        }
        if p.len() > 0 && exists|i: int| 0 <= i < n && text_at(#[trigger] v[i], "filePath"@) == p {
            let i = choose|i: int| 0 <= i < n && text_at(#[trigger] v[i], "filePath"@) == p;
            if i < n - 1 {
                assert(text_at(v[i], "filePath"@) == p);
                let w = choose|w: int| 0 <= w < before.len() && before[w] == p;
                assert(all[w] == p);
            } else {
                assert(all[before.len() as int] == p);
            }
        }
    }
}

/// A workspace's changes are those that belong to no stack and those that each
/// stack holds.
pub proof fn law_loose_changes_come_first(ws: JsonTree, i: int)
    requires
        0 <= i < list_or_none(ws, "uncommittedChanges"@).len(),
    ensures
        workspace_changes(ws).len() >= list_or_none(ws, "uncommittedChanges"@).len(),
        workspace_changes(ws)[i] == list_or_none(ws, "uncommittedChanges"@)[i],
{
}

/// A path is declared generated where the repository sets or confirms the mark for
/// it, or takes its differences away; where the mark is unset it is not.
pub proof fn law_a_declaration_counts_where_it_says_so(path: Seq<char>)
    requires
        path.len() > 0,
    ensures
        declared_from(seq![path, "linguist-generated"@, "set"@], 0) == seq![path],
        declared_from(seq![path, "linguist-generated"@, "true"@], 0) == seq![path],
        declared_from(seq![path, "diff"@, "unset"@], 0) == seq![path],
        declared_from(seq![path, "linguist-generated"@, "unset"@], 0) == Seq::<Seq<char>>::empty(),
        declared_from(seq![path, "linguist-generated"@, "unspecified"@], 0) == Seq::<Seq<char>>::empty(),
        declared_from(seq![path, "diff"@, "set"@], 0) == Seq::<Seq<char>>::empty(),
{
    reveal_strlit("linguist-generated");
    reveal_strlit("diff");
    reveal_strlit("set");
    reveal_strlit("true");
    reveal_strlit("unset");
    reveal_strlit("unspecified");
    assert("linguist-generated"@.len() == 18 && "diff"@.len() == 4 && "set"@.len() == 3);
    assert("true"@.len() == 4 && "unset"@.len() == 5 && "unspecified"@.len() == 11);
    reveal_with_fuel(declared_from, 2);
    assert(seq![path] + Seq::<Seq<char>>::empty() =~= seq![path]);
}

/// Declarations are read one after another: those of the first path, then those of
/// the rest.
pub proof fn law_declarations_add_up(fields: Seq<Seq<char>>, i: int, p: Seq<char>)
    requires
        0 <= i,
        i + 2 < fields.len(),
        fields[i].len() > 0,
    ensures
        declared_from(fields, i).contains(p) <==> declared_from(fields, i + 3).contains(p) || (fields[i] == p && (
        (fields[i + 1] == "linguist-generated"@ && (fields[i + 2] == "set"@ || fields[i + 2] == "true"@)) || (fields[i
            + 1] == "diff"@ && fields[i + 2] == "unset"@))),
{
    let rest = declared_from(fields, i + 3);
    let all = declared_from(fields, i);
    if crate::git::declares(fields[i + 1], fields[i + 2]) {
        assert(all[0] == fields[i]);
        if rest.contains(p) {
            let w = choose|w: int| 0 <= w < rest.len() && rest[w] == p;
            assert(all[w + 1] == p);
        }
        if all.contains(p) {
            let w = choose|w: int| 0 <= w < all.len() && all[w] == p;
            if w > 0 {
                assert(rest[w - 1] == p);
            }
        }
    }
}

} // verus!
