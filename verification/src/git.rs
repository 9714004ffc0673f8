//! What git and the workspace say: which revisions are meant, which files
//! changed, and what they held.

use crate::filter::Filter;
use crate::json::{array, field, json_document, json_list, json_tree, list_at, parse_json, text_at, JsonTree};
use crate::paths::{cut_at_last, cut_last};
use crate::reorder::{change_texts, Change, ChangeText};
use crate::rules::FileRead;
use crate::text::{
    chars_of, contains_text, ends_with, find, find_from, has_prefix, has_suffix, has_text, join, joined,
    lemma_find_from, option_text, parse_number, parsed_number, same, slice_string, sort, sorted_texts, split_on,
    split_text, starts_with, texts, trim, trimmed,
};
use crate::textmap::TextMap;
use vstd::prelude::*;

verus! {

/// What a first commit is compared with: the tree without files.
pub const EMPTY_TREE: &'static str = "4b825dc642cb6eb9a060e54bf8d69288fbee4904";

/// What is reviewed.
pub enum Target {
    Commit(String),
    /// from one commit to another
    Range(String, String),
    /// the changes that are not committed
    Uncommitted,
    /// from a commit to the working tree
    WorktreeRange(String),
}

/// The same, as text.
pub ghost enum TargetText {
    Commit(Seq<char>),
    Range(Seq<char>, Seq<char>),
    Uncommitted,
    WorktreeRange(Seq<char>),
}

impl Target {
    pub open spec fn text(self) -> TargetText {
        match self {
            Target::Commit(s) => TargetText::Commit(s@),
            Target::Range(b, t) => TargetText::Range(b@, t@),
            Target::Uncommitted => TargetText::Uncommitted,
            Target::WorktreeRange(b) => TargetText::WorktreeRange(b@),
        }
    }

    /// Whether the working tree is what is reviewed.
    pub fn is_worktree(&self) -> (r: bool)
        ensures
            r == (self is Uncommitted || self is WorktreeRange),
    {
        match self {
            Target::Uncommitted => true,
            Target::WorktreeRange(_) => true,
            _ => false,
        }
    }
}

/// A question to git, or to the workspace.
pub enum Ask {
    /// the commit that a revision names
    Commit(String),
    /// the commit before a revision
    Parent(String),
    /// the commit that two have in common
    MergeBase(String, String),
    /// the state of the workspace
    Workspace,
}

/// The same, as text.
pub ghost enum AskText {
    Commit(Seq<char>),
    Parent(Seq<char>),
    MergeBase(Seq<char>, Seq<char>),
    Workspace,
}

impl Ask {
    pub open spec fn text(self) -> AskText {
        match self {
            Ask::Commit(s) => AskText::Commit(s@),
            Ask::Parent(s) => AskText::Parent(s@),
            Ask::MergeBase(a, b) => AskText::MergeBase(a@, b@),
            Ask::Workspace => AskText::Workspace,
        }
    }
}

/// What is known of a revision so far: what to ask next, or what it means.
pub enum Finding {
    Ask(Ask),
    Found(Target),
    /// it means nothing
    Unknown,
}

/// The same, as text.
pub ghost enum FindingText {
    Ask(AskText),
    Found(TargetText),
    Unknown,
}

impl Finding {
    pub open spec fn text(self) -> FindingText {
        match self {
            Finding::Ask(a) => FindingText::Ask(a.text()),
            Finding::Found(t) => FindingText::Found(t.text()),
            Finding::Unknown => FindingText::Unknown,
        }
    }
}

/// A text cut at the first occurrence of another.
pub open spec fn cut_at(s: Seq<char>, pat: Seq<char>) -> Option<(Seq<char>, Seq<char>)> {
    let i = find_from(s, pat, 0);
    if i > s.len() {
        None
    } else {
        Some((s.take(i), s.skip(i + pat.len())))
    }
}

pub fn split_once(s: &str, pat: &str) -> (r: Option<(String, String)>)
    ensures
        match r {
            Some((a, b)) => cut_at(s@, pat@) == Some((a@, b@)),
            None => cut_at(s@, pat@) is None,
        },
{
    let cs = chars_of(s);
    let ps = chars_of(pat);
    let n: usize = cs.len();
    match find(&cs, &ps, 0) {
        Some(i) => {
            proof {
                lemma_find_from(s@, pat@, 0);
                assert(crate::text::occurs_at(s@, pat@, i as int));
                assert(i + pat@.len() <= s@.len());
            }
            let head = slice_string(&cs, 0, i);
            let tail = slice_string(&cs, i + ps.len(), n);
            assert(head@ =~= s@.take(i as int));
            assert(tail@ =~= s@.skip(i + pat@.len()));
            Some((head, tail))
        },
        None => None,
    }
}

/// The two ends of a range, and whether it starts where they part.
pub open spec fn range_ends(arg: Seq<char>) -> Option<(Seq<char>, Seq<char>, bool)> {
    match cut_at(arg, "..."@) {
        Some(c) => Some((c.0, c.1, true)),
        None => match cut_at(arg, ".."@) {
            Some(c) => Some((c.0, c.1, false)),
            None => None,
        },
    }
}

/// An end that is left out is the present commit.
pub open spec fn or_head(s: Seq<char>) -> Seq<char> {
    if s.len() == 0 {
        "HEAD"@
    } else {
        s
    }
}

/// What a range means, as far as the replies tell.
pub open spec fn range_finding(arg: Seq<char>, replies: Seq<Seq<char>>) -> FindingText {
    match range_ends(arg) {
        None => FindingText::Unknown,
        Some((base, tip, symmetric)) => if contains_text(tip, ".."@) || base == "zz"@ {
            FindingText::Unknown
        } else if replies.len() == 0 {
            FindingText::Ask(AskText::Commit(or_head(base)))
        } else if trimmed(replies[0]).len() == 0 {
            FindingText::Unknown
        } else if tip == "zz"@ {
            if !symmetric {
                FindingText::Found(TargetText::WorktreeRange(trimmed(replies[0])))
            } else if replies.len() == 1 {
                FindingText::Ask(AskText::MergeBase(trimmed(replies[0]), "HEAD"@))
            } else if trimmed(replies[1]).len() == 0 {
                FindingText::Unknown
            } else {
                FindingText::Found(TargetText::WorktreeRange(trimmed(replies[1])))
            }
        } else if replies.len() == 1 {
            FindingText::Ask(AskText::Commit(or_head(tip)))
        } else if trimmed(replies[1]).len() == 0 {
            FindingText::Unknown
        } else if !symmetric {
            FindingText::Found(TargetText::Range(trimmed(replies[0]), trimmed(replies[1])))
        } else if replies.len() == 2 {
            FindingText::Ask(AskText::MergeBase(trimmed(replies[0]), trimmed(replies[1])))
        } else if trimmed(replies[2]).len() == 0 {
            FindingText::Unknown
        } else {
            FindingText::Found(TargetText::Range(trimmed(replies[2]), trimmed(replies[1])))
        },
    }
}

fn head_for(s: String) -> (r: String)
    ensures
        r@ == or_head(s@),
{
    if s.as_str().is_empty() {
        "HEAD".to_owned()
    } else {
        s
    }
}

/// What a range means. `base..tip` is the change from one commit to the other;
/// `base...tip` starts where the two part; a side that is left out is the
/// present commit, and `zz` at the end is the working tree. Gives the next
/// question where the replies so far do not settle it.
pub fn resolve_range(arg: &str, replies: &[String]) -> (r: Finding)
    ensures
        r.text() == range_finding(arg@, texts(replies@)),
{
    let (base, tip, symmetric) = match split_once(arg, "...") {
        Some((b, t)) => (b, t, true),
        None => match split_once(arg, "..") {
            Some((b, t)) => (b, t, false),
            None => {
                return Finding::Unknown;
            },
        },
    };
    if has_text(&tip, "..") || same(&base, "zz") {
        return Finding::Unknown;
    }
    let n: usize = replies.len();
    if n == 0 {
        return Finding::Ask(Ask::Commit(head_for(base)));
    }
    assert(texts(replies@)[0] == replies@[0]@);
    let from = trim(&replies[0]);
    if from.as_str().is_empty() {
        return Finding::Unknown;
    }
    if same(&tip, "zz") {
        if !symmetric {
            return Finding::Found(Target::WorktreeRange(from));
        }
        if n == 1 {
            return Finding::Ask(Ask::MergeBase(from, "HEAD".to_owned()));
        }
        assert(texts(replies@)[1] == replies@[1]@);
        let shared = trim(&replies[1]);
        if shared.as_str().is_empty() {
            return Finding::Unknown;
        }
        return Finding::Found(Target::WorktreeRange(shared));
    }
    if n == 1 {
        return Finding::Ask(Ask::Commit(head_for(tip)));
    }
    assert(texts(replies@)[1] == replies@[1]@);
    let to = trim(&replies[1]);
    if to.as_str().is_empty() {
        return Finding::Unknown;
    }
    if !symmetric {
        return Finding::Found(Target::Range(from, to));
    }
    if n == 2 {
        return Finding::Ask(Ask::MergeBase(from, to));
    }
    assert(texts(replies@)[2] == replies@[2]@);
    let shared = trim(&replies[2]);
    if shared.as_str().is_empty() {
        return Finding::Unknown;
    }
    Finding::Found(Target::Range(shared, to))
}

/// The elements of the lists under `key`, of the first `n` values.
pub open spec fn flattened(v: Seq<JsonTree>, key: Seq<char>, n: int) -> Seq<JsonTree>
    decreases n,
{
    if n <= 0 {
        Seq::empty()
    } else {
        flattened(v, key, n - 1) + (match list_at(v[n - 1], key) {
            Some(l) => l,
            None => Seq::empty(),
        })
    }
}

/// The list under `key`, or none of its elements.
pub open spec fn list_or_none(t: JsonTree, key: Seq<char>) -> Seq<JsonTree> {
    match list_at(t, key) {
        Some(l) => l,
        None => Seq::empty(),
    }
}

/// The branches of all the stacks of a workspace.
pub open spec fn workspace_branches(ws: JsonTree) -> Seq<JsonTree> {
    let stacks = list_or_none(ws, "stacks"@);
    flattened(stacks, "branches"@, stacks.len() as int)
}

/// The commits of all the branches of a workspace.
pub open spec fn workspace_commits(ws: JsonTree) -> Seq<JsonTree> {
    let branches = workspace_branches(ws);
    flattened(branches, "commits"@, branches.len() as int)
}

fn array_or_none(v: &serde_json::Value, key: &str) -> (r: Vec<serde_json::Value>)
    ensures
        json_list(r@) == list_or_none(json_tree(*v), key@),
{
    match array(v, key) {
        Some(l) => l,
        None => {
            let v: Vec<serde_json::Value> = Vec::new();
            assert(json_list(v@) =~= Seq::empty());
            v
        },
    }
}

fn flatten(v: &Vec<serde_json::Value>, key: &str) -> (r: Vec<serde_json::Value>)
    ensures
        json_list(r@) == flattened(json_list(v@), key@, v@.len() as int),
{
    let mut out: Vec<serde_json::Value> = Vec::new();
    assert(json_list(out@) =~= Seq::empty());
    for i in 0..v.len()
        invariant
            json_list(out@) == flattened(json_list(v@), key@, i as int),
    {
        let ghost had = json_list(out@);
        let mut more = array_or_none(&v[i], key);
        let ghost extra = json_list(more@);
        out.append(&mut more);
        assert(json_list(out@) =~= had + extra);
        assert(json_list(v@)[i as int] == json_tree(v@[i as int]));
    }
    out
}

/// The branches of all the stacks of a workspace.
fn branches(ws: &serde_json::Value) -> (r: Vec<serde_json::Value>)
    ensures
        json_list(r@) == workspace_branches(json_tree(*ws)),
{
    let stacks = array_or_none(ws, "stacks");
    assert(json_list(stacks@).len() == stacks@.len());
    flatten(&stacks, "branches")
}

/// Whether a branch goes by `arg`.
pub open spec fn branch_named(b: JsonTree, arg: Seq<char>) -> bool {
    text_at(b, "cliId"@) == arg || text_at(b, "name"@) == arg
}

/// The first branch that goes by `arg`.
pub open spec fn find_branch(v: Seq<JsonTree>, arg: Seq<char>, from: int) -> Option<JsonTree>
    decreases v.len() - from,
{
    if from >= v.len() {
        None
    } else if branch_named(v[from], arg) {
        Some(v[from])
    } else {
        find_branch(v, arg, from + 1)
    }
}

/// The oldest and the newest commit of the branch that `arg` names. Branches
/// list their commits from the newest on.
pub open spec fn branch_span(ws: JsonTree, arg: Seq<char>) -> Option<(Seq<char>, Seq<char>)> {
    match find_branch(workspace_branches(ws), arg, 0) {
        None => None,
        Some(b) => match list_at(b, "commits"@) {
            None => None,
            Some(commits) => if commits.len() == 0 || text_at(commits[0], "commitId"@).len() == 0 || text_at(
                commits.last(),
                "commitId"@,
            ).len() == 0 {
                None
            } else {
                Some((text_at(commits.last(), "commitId"@), text_at(commits[0], "commitId"@)))
            },
        },
    }
}

/// The oldest and the newest commit of the branch that `arg` names.
fn branch_commits(ws: &serde_json::Value, arg: &str) -> (r: Option<(String, String)>)
    ensures
        match r {
            Some((oldest, tip)) => branch_span(json_tree(*ws), arg@) == Some((oldest@, tip@)),
            None => branch_span(json_tree(*ws), arg@) is None,
        },
{
    let all = branches(ws);
    let ghost trees = json_list(all@);
    let n: usize = all.len();
    for i in 0..n
        invariant
            n == all@.len(),
            trees == json_list(all@),
            trees == workspace_branches(json_tree(*ws)),
            find_branch(trees, arg@, 0) == find_branch(trees, arg@, i as int),
    {
        assert(trees[i as int] == json_tree(all@[i as int]));
        let b = &all[i];
        if same(&field(b, "cliId"), arg) || same(&field(b, "name"), arg) {
            assert(find_branch(trees, arg@, 0) == Some(trees[i as int]));
            let commits = match array(b, "commits") {
                Some(c) => c,
                None => {
                    return None;
                },
            };
            assert(json_list(commits@).len() == commits@.len());
            if commits.len() == 0 {
                return None;
            }
            assert(json_list(commits@)[0] == json_tree(commits@[0]));
            assert(json_list(commits@).last() == json_tree(commits@.last()));
            let tip = field(&commits[0], "commitId");
            let oldest = field(&commits[commits.len() - 1], "commitId");
            if tip.as_str().is_empty() || oldest.as_str().is_empty() {
                return None;
            }
            return Some((oldest, tip));
        }
    }
    None
}

/// Whether a commit goes by `arg`: by its name in the workspace, or by the start
/// of its change or commit name.
pub open spec fn commit_named(c: JsonTree, arg: Seq<char>) -> bool {
    text_at(c, "cliId"@) == arg || starts_with(text_at(c, "changeId"@), arg) || starts_with(
        text_at(c, "commitId"@),
        arg,
    )
}

/// The first commit that goes by `arg`.
pub open spec fn find_commit(v: Seq<JsonTree>, arg: Seq<char>, from: int) -> Option<Seq<char>>
    decreases v.len() - from,
{
    if from >= v.len() {
        None
    } else if commit_named(v[from], arg) {
        Some(text_at(v[from], "commitId"@))
    } else {
        find_commit(v, arg, from + 1)
    }
}

/// The commit of the workspace that goes by `arg`.
fn commit_target(ws: &serde_json::Value, arg: &str) -> (r: Option<String>)
    ensures
        option_text(r) == find_commit(workspace_commits(json_tree(*ws)), arg@, 0),
{
    let all = branches(ws);
    assert(json_list(all@).len() == all@.len());
    let commits = flatten(&all, "commits");
    let ghost trees = json_list(commits@);
    let n: usize = commits.len();
    for i in 0..n
        invariant
            n == commits@.len(),
            trees == json_list(commits@),
            trees == workspace_commits(json_tree(*ws)),
            find_commit(trees, arg@, 0) == find_commit(trees, arg@, i as int),
    {
        assert(trees[i as int] == json_tree(commits@[i as int]));
        let c = &commits[i];
        if same(&field(c, "cliId"), arg) || has_prefix(&field(c, "changeId"), arg) || has_prefix(
            &field(c, "commitId"),
            arg,
        ) {
            return Some(field(c, "commitId"));
        }
    }
    None
}

/// The commit before, or the tree without files where there is none.
pub open spec fn parent_or_empty(reply: Seq<char>) -> Seq<char> {
    if trimmed(reply).len() == 0 {
        EMPTY_TREE@
    } else {
        trimmed(reply)
    }
}

/// What a commit is compared with, by what git says of the one before it.
pub fn parent_of(reply: &str) -> (r: String)
    ensures
        r@ == parent_or_empty(reply@),
{
    let t = trim(reply);
    if t.as_str().is_empty() {
        EMPTY_TREE.to_owned()
    } else {
        t
    }
}

/// What the name of a revision means, as far as the replies tell.
pub open spec fn named_finding(arg: Seq<char>, replies: Seq<Seq<char>>) -> FindingText {
    if replies.len() == 0 {
        FindingText::Ask(AskText::Workspace)
    } else {
        let ws = json_document(replies[0]);
        let span = match ws {
            Some(w) => branch_span(w, arg),
            None => None,
        };
        match span {
            Some((oldest, tip)) => if replies.len() == 1 {
                FindingText::Ask(AskText::Parent(oldest))
            } else {
                FindingText::Found(TargetText::Range(parent_or_empty(replies[1]), tip))
            },
            None => if replies.len() == 1 {
                FindingText::Ask(AskText::Commit(arg))
            } else if trimmed(replies[1]).len() > 0 {
                FindingText::Found(TargetText::Commit(trimmed(replies[1])))
            } else {
                match ws {
                    Some(w) => match find_commit(workspace_commits(w), arg, 0) {
                        Some(id) => FindingText::Found(TargetText::Commit(id)),
                        None => FindingText::Unknown,
                    },
                    None => FindingText::Unknown,
                }
            },
        }
    }
}

/// What a revision means, as far as the replies tell.
pub open spec fn finding(arg: Seq<char>, replies: Seq<Seq<char>>) -> FindingText {
    if arg == "zz"@ {
        FindingText::Found(TargetText::Uncommitted)
    } else if contains_text(arg, ".."@) {
        range_finding(arg, replies)
    } else {
        named_finding(arg, replies)
    }
}

/// What a revision means: the changes that are not committed, a range, a branch
/// of the workspace, a commit of git, or a commit of the workspace, in this
/// order. Gives the next question where the replies so far do not settle it.
pub fn resolve(arg: &str, replies: &[String]) -> (r: Finding)
    ensures
        r.text() == finding(arg@, texts(replies@)),
{
    if same(arg, "zz") {
        return Finding::Found(Target::Uncommitted);
    }
    if has_text(arg, "..") {
        return resolve_range(arg, replies);
    }
    let n: usize = replies.len();
    if n == 0 {
        return Finding::Ask(Ask::Workspace);
    }
    assert(texts(replies@)[0] == replies@[0]@);
    let ws = parse_json(&replies[0]);
    let span = match &ws {
        Some(w) => branch_commits(w, arg),
        None => None,
    };
    if let Some((oldest, tip)) = span {
        if n == 1 {
            return Finding::Ask(Ask::Parent(oldest));
        }
        assert(texts(replies@)[1] == replies@[1]@);
        return Finding::Found(Target::Range(parent_of(&replies[1]), tip));
    }
    if n == 1 {
        return Finding::Ask(Ask::Commit(arg.to_owned()));
    }
    assert(texts(replies@)[1] == replies@[1]@);
    let sha = trim(&replies[1]);
    if !sha.as_str().is_empty() {
        return Finding::Found(Target::Commit(sha));
    }
    match &ws {
        Some(w) => match commit_target(w, arg) {
            Some(id) => Finding::Found(Target::Commit(id)),
            None => Finding::Unknown,
        },
        None => Finding::Unknown,
    }
}

/// The commit that history is told from.
pub open spec fn history_start(t: TargetText, head: Seq<char>) -> Option<Seq<char>> {
    match t {
        TargetText::Commit(sha) => Some(sha),
        TargetText::Range(_, tip) => Some(tip),
        _ => if trimmed(head).len() == 0 {
            None
        } else {
            Some(trimmed(head))
        },
    }
}

/// The commit that history is told from: a range's tip, or the present commit
/// where the working tree is reviewed. `head` is what git calls the latter.
pub fn review_commit_sha(target: &Target, head: &str) -> (r: Option<String>)
    ensures
        option_text(r) == history_start(target.text(), head@),
{
    match target {
        Target::Commit(sha) => Some(sha.clone()),
        Target::Range(_, tip) => Some(tip.clone()),
        Target::Uncommitted | Target::WorktreeRange(_) => {
            let sha = trim(head);
            if sha.as_str().is_empty() {
                None
            } else {
                Some(sha)
            }
        },
    }
}

/// The texts that are not blank, trimmed.
pub open spec fn filled(parts: Seq<Seq<char>>) -> Seq<Seq<char>>
    decreases parts.len(),
{
    if parts.len() == 0 {
        Seq::empty()
    } else {
        let t = trimmed(parts.last());
        if t.len() == 0 {
            filled(parts.drop_last())
        } else {
            filled(parts.drop_last()).push(t)
        }
    }
}

/// The paths that git lists, one to a line.
pub fn path_lines(text: &str) -> (r: Vec<String>)
    ensures
        texts(r@) == filled(split_on(text@, '\n')),
{
    let parts = split_text(text, '\n');
    let ghost all = texts(parts@);
    let mut out: Vec<String> = Vec::new();
    assert(texts(out@) =~= filled(all.take(0)));
    for i in 0..parts.len()
        invariant
            all == texts(parts@),
            texts(out@) == filled(all.take(i as int)),
    {
        let ghost had = texts(out@);
        assert(all.take(i + 1).drop_last() =~= all.take(i as int));
        assert(all.take(i + 1).last() == parts@[i as int]@);
        let t = trim(&parts[i]);
        if !t.as_str().is_empty() {
            out.push(t);
            assert(texts(out@) =~= had.push(t@));
        }
    }
    assert(all.take(parts@.len() as int) =~= all);
    out
}

/// The texts without those that are the same as the one before.
pub open spec fn deduped(s: Seq<Seq<char>>) -> Seq<Seq<char>>
    decreases s.len(),
{
    if s.len() == 0 {
        Seq::empty()
    } else {
        let before = deduped(s.drop_last());
        if before.len() > 0 && before.last() == s.last() {
            before
        } else {
            before.push(s.last())
        }
    }
}

pub fn dedup(v: Vec<String>) -> (r: Vec<String>)
    ensures
        texts(r@) == deduped(texts(v@)),
{
    let ghost all = texts(v@);
    let mut out: Vec<String> = Vec::new();
    assert(texts(out@) =~= deduped(all.take(0)));
    for i in 0..v.len()
        invariant
            all == texts(v@),
            texts(out@) == deduped(all.take(i as int)),
    {
        let ghost had = texts(out@);
        assert(all.take(i + 1).drop_last() =~= all.take(i as int));
        assert(all.take(i + 1).last() == v@[i as int]@);
        assert(had.len() == out@.len());
        let n: usize = out.len();
        if n > 0 {
            assert(had.last() == out@.last()@);
        }
        if !(n > 0 && same(&out[n - 1], &v[i])) {
            out.push(v[i].clone());
            assert(texts(out@) =~= had.push(v@[i as int]@));
        }
    }
    assert(all.take(v@.len() as int) =~= all);
    out
}

/// The paths of the first `n` changes that have one.
pub open spec fn changed_paths(v: Seq<JsonTree>, n: int) -> Seq<Seq<char>>
    decreases n,
{
    if n <= 0 {
        Seq::empty()
    } else {
        let p = text_at(v[n - 1], "filePath"@);
        if p.len() == 0 {
            changed_paths(v, n - 1)
        } else {
            changed_paths(v, n - 1).push(p)
        }
    }
}

/// The changes that a workspace lists: those that belong to no stack, then those
/// of each stack.
pub open spec fn workspace_changes(ws: JsonTree) -> Seq<JsonTree> {
    let stacks = list_or_none(ws, "stacks"@);
    list_or_none(ws, "uncommittedChanges"@) + flattened(stacks, "assignedChanges"@, stacks.len() as int)
}

/// The paths that a workspace lists as changed; none where the text is no
/// workspace.
pub open spec fn workspace_paths(text: Seq<char>) -> Option<Seq<Seq<char>>> {
    match json_document(text) {
        Some(ws) => Some(changed_paths(workspace_changes(ws), workspace_changes(ws).len() as int)),
        None => None,
    }
}

/// The paths that a workspace lists as changed, where the text is its state.
pub fn workspace_change_paths(text: &str) -> (r: Option<Vec<String>>)
    ensures
        match r {
            Some(v) => workspace_paths(text@) == Some(texts(v@)),
            None => workspace_paths(text@) is None,
        },
{
    let ws = match parse_json(text) {
        Some(w) => w,
        None => {
            return None;
        },
    };
    let mut all = array_or_none(&ws, "uncommittedChanges");
    let ghost loose = json_list(all@);
    let stacks = array_or_none(&ws, "stacks");
    assert(json_list(stacks@).len() == stacks@.len());
    let mut assigned = flatten(&stacks, "assignedChanges");
    let ghost bound = json_list(assigned@);
    all.append(&mut assigned);
    let ghost trees = workspace_changes(json_tree(ws));
    assert(json_list(all@) =~= loose + bound);
    let mut out: Vec<String> = Vec::new();
    assert(texts(out@) =~= Seq::empty());
    for i in 0..all.len()
        invariant
            trees == json_list(all@),
            texts(out@) == changed_paths(trees, i as int),
    {
        let ghost had = texts(out@);
        assert(trees[i as int] == json_tree(all@[i as int]));
        let p = field(&all[i], "filePath");
        if !p.as_str().is_empty() {
            out.push(p);
            assert(texts(out@) =~= had.push(p@));
        }
    }
    Some(out)
}

/// The paths of the changes that are not committed: a path is taken once where
/// it is listed twice in a row.
pub open spec fn uncommitted_list(status: Seq<char>) -> Seq<Seq<char>> {
    deduped(
        match workspace_paths(status) {
            Some(p) => p,
            None => Seq::empty(),
        },
    )
}

pub fn uncommitted_paths(status: &str) -> (r: Vec<String>)
    ensures
        texts(r@) == uncommitted_list(status@),
{
    match workspace_change_paths(status) {
        Some(v) => dedup(v),
        None => {
            let v: Vec<String> = Vec::new();
            assert(texts(v@) =~= Seq::empty());
            dedup(v)
        },
    }
}

/// The paths that differ from a commit in the working tree: those that git
/// compares, and those that it does not track, from the workspace or else from
/// git's own list; each once, in order.
pub open spec fn worktree_list(diff: Seq<char>, status: Seq<char>, others: Seq<char>) -> Seq<Seq<char>> {
    let untracked = match workspace_paths(status) {
        Some(p) => p,
        None => filled(split_on(others, '\n')),
    };
    deduped(sorted_texts(filled(split_on(diff, '\n')) + untracked))
}

pub fn worktree_paths(diff: &str, status: &str, others: &str) -> (r: Vec<String>)
    ensures
        texts(r@) == worktree_list(diff@, status@, others@),
{
    let mut paths = path_lines(diff);
    let ghost compared = texts(paths@);
    let mut more = match workspace_change_paths(status) {
        Some(v) => v,
        None => path_lines(others),
    };
    let ghost extra = texts(more@);
    paths.append(&mut more);
    assert(texts(paths@) =~= compared + extra);
    dedup(sort(paths))
}

/// The next `b` at or after `from`, or the end.
pub open spec fn byte_from(s: Seq<u8>, b: u8, from: int) -> int
    decreases s.len() - from,
{
    if from >= s.len() {
        s.len() as int
    } else if s[from] == b {
        from
    } else {
        byte_from(s, b, from + 1)
    }
}

fn find_byte(s: &[u8], b: u8, from: usize) -> (r: usize)
    requires
        from <= s@.len(),
    ensures
        r == byte_from(s@, b, from as int),
        from <= r <= s@.len(),
{
    let n: usize = s.len();
    let mut i: usize = from;
    while i < n
        invariant
            n == s@.len(),
            from <= i <= n,
            byte_from(s@, b, from as int) == byte_from(s@, b, i as int),
        decreases n - i,
    {
        if s[i] == b {
            return i;
        }
        i = i + 1;
    }
    i
}

/// What `String::from_utf8_lossy` reads bytes as.
pub uninterp spec fn lossy_text(bytes: Seq<u8>) -> Seq<char>;

/// Reads bytes with `String::from_utf8_lossy`: as UTF-8, with U+FFFD in place of
/// what is none. Bytes that are UTF-8 are read as they are; how others are parted
/// is left to the library.
#[verifier::external_body]
fn lossy(bytes: &[u8]) -> (r: String)
    ensures
        r@ == lossy_text(bytes@),
        vstd::utf8::valid_utf8(bytes@) ==> r@ == vstd::utf8::decode_utf8(bytes@),
{
    String::from_utf8_lossy(bytes).into_owned()
}

fn lossy_range(buf: &[u8], from: usize, to: usize) -> (r: String)
    requires
        from <= to <= buf@.len(),
    ensures
        r@ == lossy_text(buf@.subrange(from as int, to as int)),
{
    lossy(vstd::slice::slice_subrange(buf, from, to))
}

/// The size that ends a header.
pub open spec fn header_size(header: Seq<char>) -> Option<int> {
    let last = match cut_at_last(header, ' ') {
        Some(c) => c.1,
        None => header,
    };
    parsed_number(last, 10, usize::MAX as int)
}

/// The texts that `git cat-file --batch` answers with, by what was asked for,
/// from question `k` and byte `i` on. Each answer is a header that ends in the
/// size, a line end, the content, and a line end; a header that ends in
/// "missing" has no content. Reading stops where the answers do.
pub open spec fn batch_texts(
    specs: Seq<Seq<char>>,
    buf: Seq<u8>,
    k: int,
    i: int,
    had: Map<Seq<char>, Seq<char>>,
) -> Map<Seq<char>, Seq<char>>
    decreases specs.len() - k,
{
    if k >= specs.len() || i >= buf.len() {
        had
    } else {
        let nl = byte_from(buf, 10, i);
        let header = lossy_text(buf.subrange(i, nl));
        if nl >= buf.len() {
            had
        } else if ends_with(header, "missing"@) {
            batch_texts(specs, buf, k + 1, nl + 1, had)
        } else {
            match header_size(header) {
                None => had,
                Some(size) => if nl + 1 + size > buf.len() {
                    had
                } else {
                    batch_texts(
                        specs,
                        buf,
                        k + 1,
                        nl + 1 + size + 1,
                        had.insert(specs[k], lossy_text(buf.subrange(nl + 1, nl + 1 + size))),
                    )
                },
            }
        }
    }
}

pub open spec fn blob_texts(m: Map<Seq<char>, String>) -> Map<Seq<char>, Seq<char>> {
    m.map_values(|s: String| s@)
}

fn size_of_header(header: &str) -> (r: Option<usize>)
    ensures
        match r {
            Some(n) => header_size(header@) == Some(n as int),
            None => header_size(header@) is None,
        },
{
    let last = match cut_last(header, ' ') {
        Some((_, tail)) => tail,
        None => header.to_owned(),
    };
    match parse_number(&last, 10, usize::MAX as u64) {
        Some(n) => Some(n as usize),
        None => None,
    }
}

/// The texts that `git cat-file --batch` answers with, by what was asked for.
pub fn git_cat_file_batch(specs: &[String], buf: &[u8]) -> (r: TextMap<String>)
    ensures
        blob_texts(r@) == batch_texts(texts(specs@), buf@, 0, 0, Map::empty()),
{
    let mut out: TextMap<String> = TextMap::new();
    let ghost want = texts(specs@);
    let ghost all = batch_texts(want, buf@, 0, 0, Map::empty());
    assert(blob_texts(out@) =~= Map::empty());
    let n: usize = specs.len();
    let len: usize = buf.len();
    let mut i: usize = 0;
    let mut k: usize = 0;
    while k < n && i < len
        invariant
            n == specs@.len(),
            len == buf@.len(),
            want == texts(specs@),
            k <= n,
            all == batch_texts(want, buf@, 0, 0, Map::empty()),
            all == batch_texts(want, buf@, k as int, i as int, blob_texts(out@)),
        decreases n - k,
    {
        let nl: usize = find_byte(buf, 10, i);
        if nl >= len {
            return out;
        }
        let header = lossy_range(buf, i, nl);
        if has_suffix(&header, "missing") {
            i = nl + 1;
        } else {
            let size: usize = match size_of_header(&header) {
                Some(s) => s,
                None => {
                    return out;
                },
            };
            let at: usize = nl + 1;
            if size > len - at {
                return out;
            }
            let ghost had = blob_texts(out@);
            let text = lossy_range(buf, at, at + size);
            assert(want[k as int] == specs@[k as int]@);
            out.insert(specs[k].clone(), text);
            assert(blob_texts(out@) =~= had.insert(want[k as int], text@));
            if size == len - at {
                // the answers end here, without the last line end
                assert(batch_texts(want, buf@, k + 1, at + size + 1, blob_texts(out@)) == blob_texts(out@));
                return out;
            }
            i = at + size + 1;
        }
        k = k + 1;
    }
    out
}

/// One answer of `git cat-file --batch`: a header, and the content unless the
/// object is missing.
pub ghost struct Answer {
    pub header: Seq<u8>,
    pub content: Option<Seq<u8>>,
}

impl Answer {
    /// Whether the header says what there is: no line end, and "missing" or the
    /// size at its end.
    pub open spec fn fits(self) -> bool {
        let h = lossy_text(self.header);
        &&& forall|i: int| 0 <= i < self.header.len() ==> #[trigger] self.header[i] != 10
        &&& match self.content {
            None => ends_with(h, "missing"@),
            Some(c) => !ends_with(h, "missing"@) && header_size(h) == Some(c.len() as int),
        }
    }

    pub open spec fn bytes(self) -> Seq<u8> {
        match self.content {
            None => self.header.push(10),
            Some(c) => self.header.push(10) + c.push(10),
        }
    }
}

/// The bytes of the answers from the `k`th on.
pub open spec fn answer_bytes(answers: Seq<Answer>, k: int) -> Seq<u8>
    decreases answers.len() - k,
{
    if k >= answers.len() {
        Seq::empty()
    } else {
        answers[k].bytes() + answer_bytes(answers, k + 1)
    }
}

/// What the answers from the `k`th on add to what there is.
pub open spec fn answered(
    specs: Seq<Seq<char>>,
    answers: Seq<Answer>,
    k: int,
    had: Map<Seq<char>, Seq<char>>,
) -> Map<Seq<char>, Seq<char>>
    decreases answers.len() - k,
{
    if k >= answers.len() {
        had
    } else {
        answered(
            specs,
            answers,
            k + 1,
            match answers[k].content {
                None => had,
                Some(c) => had.insert(specs[k], lossy_text(c)),
            },
        )
    }
}

proof fn lemma_byte_from(s: Seq<u8>, from: int, at: int)
    requires
        0 <= from <= at < s.len(),
        s[at] == 10,
        forall|i: int| from <= i < at ==> #[trigger] s[i] != 10,
    ensures
        byte_from(s, 10, from) == at,
    decreases at - from,
{
    if from < at {
        lemma_byte_from(s, from + 1, at);
    }
}

proof fn lemma_batch(
    specs: Seq<Seq<char>>,
    answers: Seq<Answer>,
    before: Seq<u8>,
    k: int,
    had: Map<Seq<char>, Seq<char>>,
)
    requires
        specs.len() == answers.len(),
        0 <= k <= answers.len(),
        forall|i: int| 0 <= i < answers.len() ==> (#[trigger] answers[i]).fits(),
    ensures
        batch_texts(specs, before + answer_bytes(answers, k), k, before.len() as int, had) == answered(
            specs,
            answers,
            k,
            had,
        ),
    decreases answers.len() - k,
{
    let rest = answer_bytes(answers, k);
    let buf = before + rest;
    let i = before.len() as int;
    if k < answers.len() {
        let a = answers[k];
        assert(a.fits());
        let n = a.header.len() as int;
        let nl = i + n;
        assert(rest == a.bytes() + answer_bytes(answers, k + 1));
        assert forall|j: int| i <= j < nl implies #[trigger] buf[j] != 10 by {
            assert(buf[j] == a.header[j - i]);
        }
        assert(buf[nl] == 10);
        lemma_byte_from(buf, i, nl);
        assert(buf.subrange(i, nl) =~= a.header);
        match a.content {
            None => {
                assert(buf =~= (before + a.bytes()) + answer_bytes(answers, k + 1));
                lemma_batch(specs, answers, before + a.bytes(), k + 1, had);
                assert((before + a.bytes()).len() == nl + 1);
            },
            Some(c) => {
                let now = had.insert(specs[k], lossy_text(c));
                assert(buf.subrange(nl + 1, nl + 1 + c.len()) =~= c);
                assert(buf =~= (before + a.bytes()) + answer_bytes(answers, k + 1));
                lemma_batch(specs, answers, before + a.bytes(), k + 1, now);
                assert((before + a.bytes()).len() == nl + 1 + c.len() + 1);
            },
        }
    }
}

/// What git answers with is what is read: each object under what asked for it,
/// whatever bytes it holds, and nothing for those that are missing.
pub proof fn law_a_batch_reads_back(specs: Seq<Seq<char>>, answers: Seq<Answer>)
    requires
        specs.len() == answers.len(),
        forall|i: int| 0 <= i < answers.len() ==> (#[trigger] answers[i]).fits(),
    ensures
        batch_texts(specs, answer_bytes(answers, 0), 0, 0, Map::empty()) == answered(
            specs,
            answers,
            0,
            Map::empty(),
        ),
{
    lemma_batch(specs, answers, Seq::empty(), 0, Map::empty());
    assert(Seq::<u8>::empty() + answer_bytes(answers, 0) =~= answer_bytes(answers, 0));
}

/// What git is asked for the content of a file with.
pub open spec fn blob_spec(rev: Seq<char>, path: Seq<char>) -> Seq<char> {
    rev + ":"@ + path
}

fn spec_of(rev: &str, path: &str) -> (r: String)
    ensures
        r@ == blob_spec(rev@, path@),
{
    rev.to_owned().concat(":").concat(path)
}

/// What git is asked for the old side of files with.
pub fn blob_specs(rev: &str, paths: &[String]) -> (r: Vec<String>)
    ensures
        texts(r@) == texts(paths@).map_values(|p: Seq<char>| blob_spec(rev@, p)),
{
    let mut out: Vec<String> = Vec::new();
    let ghost all = texts(paths@).map_values(|p: Seq<char>| blob_spec(rev@, p));
    for i in 0..paths.len()
        invariant
            all == texts(paths@).map_values(|p: Seq<char>| blob_spec(rev@, p)),
            texts(out@) == all.take(i as int),
    {
        let ghost had = texts(out@);
        out.push(spec_of(rev, &paths[i]));
        assert(texts(out@) =~= had.push(all[i as int]));
        assert(all.take(i + 1) =~= all.take(i as int).push(all[i as int]));
    }
    assert(all.take(paths@.len() as int) =~= all);
    out
}

/// What git is asked for both sides of the first `n` files with.
pub open spec fn both_sides(base: Seq<char>, tip: Seq<char>, paths: Seq<Seq<char>>, n: int) -> Seq<Seq<char>>
    decreases n,
{
    if n <= 0 {
        Seq::empty()
    } else {
        both_sides(base, tip, paths, n - 1).push(blob_spec(base, paths[n - 1])).push(blob_spec(tip, paths[n - 1]))
    }
}

pub fn range_specs(base: &str, tip: &str, paths: &[String]) -> (r: Vec<String>)
    ensures
        texts(r@) == both_sides(base@, tip@, texts(paths@), paths@.len() as int),
{
    let mut out: Vec<String> = Vec::new();
    assert(texts(out@) =~= Seq::empty());
    for i in 0..paths.len()
        invariant
            texts(out@) == both_sides(base@, tip@, texts(paths@), i as int),
    {
        let ghost had = texts(out@);
        out.push(spec_of(base, &paths[i]));
        out.push(spec_of(tip, &paths[i]));
        assert(texts(out@) =~= had.push(blob_spec(base@, paths@[i as int]@)).push(
            blob_spec(tip@, paths@[i as int]@),
        ));
    }
    out
}

/// The text under a name, or nothing.
pub open spec fn blob_or_nothing(m: Map<Seq<char>, Seq<char>>, key: Seq<char>) -> Seq<char> {
    if m.dom().contains(key) {
        m[key]
    } else {
        ""@
    }
}

fn take_blob(blobs: &mut TextMap<String>, key: &str) -> (r: String)
    ensures
        r@ == blob_or_nothing(blob_texts(old(blobs)@), key@),
        blob_texts(final(blobs)@) == blob_texts(old(blobs)@).remove(key@),
{
    let ghost was = blob_texts(blobs@);
    let r = match blobs.remove(key) {
        Some(t) => t,
        None => "".to_owned(),
    };
    assert(blob_texts(blobs@) =~= was.remove(key@));
    r
}

/// The first `n` files of a range, with what is left of the contents: each is
/// taken once.
pub open spec fn range_taken(
    paths: Seq<Seq<char>>,
    base: Seq<char>,
    tip: Seq<char>,
    blobs: Map<Seq<char>, Seq<char>>,
    n: int,
) -> (Seq<ChangeText>, Map<Seq<char>, Seq<char>>)
    decreases n,
{
    if n <= 0 {
        (Seq::empty(), blobs)
    } else {
        let (had, m) = range_taken(paths, base, tip, blobs, n - 1);
        let p = paths[n - 1];
        let left = m.remove(blob_spec(base, p));
        (
            had.push(
                ChangeText {
                    path: p,
                    old: Some(blob_or_nothing(m, blob_spec(base, p))),
                    new: Some(blob_or_nothing(left, blob_spec(tip, p))),
                },
            ),
            left.remove(blob_spec(tip, p)),
        )
    }
}

/// The files of a range, with both their sides; a side that git does not have
/// is empty.
pub fn gather_range(paths: &[String], base: &str, tip: &str, blobs: TextMap<String>) -> (r: Vec<Change>)
    ensures
        change_texts(r@) == range_taken(
            texts(paths@),
            base@,
            tip@,
            blob_texts(blobs@),
            paths@.len() as int,
        ).0,
{
    let ghost start = blob_texts(blobs@);
    let mut blobs = blobs;
    let mut out: Vec<Change> = Vec::new();
    assert(change_texts(out@) =~= Seq::empty());
    for i in 0..paths.len()
        invariant
            (change_texts(out@), blob_texts(blobs@)) == range_taken(texts(paths@), base@, tip@, start, i as int),
    {
        let ghost had = change_texts(out@);
        let path = &paths[i];
        assert(texts(paths@)[i as int] == path@);
        let before = take_blob(&mut blobs, &spec_of(base, path));
        let after = take_blob(&mut blobs, &spec_of(tip, path));
        let c = Change { path: path.clone(), old: Some(before), new: Some(after) };
        out.push(c);
        assert(change_texts(out@) =~= had.push(c.text()));
    }
    out
}

/// What reading the bytes of a file gave.
pub enum BytesRead {
    Bytes(Vec<u8>),
    /// there is no such file: the system's words for it
    Missing(String),
    /// it could not be read: the system's words for it
    Failed(String),
}

/// The text that was read: nothing of a file that is gone, and none of one that
/// cannot be read or is not in UTF-8.
pub open spec fn text_read(r: BytesRead) -> Option<Seq<char>> {
    match r {
        BytesRead::Bytes(b) => if vstd::utf8::valid_utf8(b@) {
            Some(vstd::utf8::decode_utf8(b@))
        } else {
            None
        },
        BytesRead::Missing(_) => Some(""@),
        BytesRead::Failed(_) => None,
    }
}

/// `std::str::from_utf8`: the text that bytes are in UTF-8; none where they are
/// not.
#[verifier::external_body]
fn utf8_text(bytes: &[u8]) -> (r: Option<String>)
    ensures
        match r {
            Some(s) => vstd::utf8::valid_utf8(bytes@) && s@ == vstd::utf8::decode_utf8(bytes@),
            None => !vstd::utf8::valid_utf8(bytes@),
        },
{
    std::str::from_utf8(bytes).ok().map(str::to_owned)
}

fn read_text(r: &BytesRead) -> (t: Option<String>)
    ensures
        option_text(t) == text_read(*r),
{
    match r {
        BytesRead::Bytes(b) => utf8_text(b),
        BytesRead::Missing(_) => Some("".to_owned()),
        BytesRead::Failed(_) => None,
    }
}

/// The first `n` files of the working tree against a commit, with what is left
/// of the contents. A file that is gone is empty; one that cannot be read, or is
/// not in UTF-8, is left out.
pub open spec fn worktree_taken(
    paths: Seq<Seq<char>>,
    base: Seq<char>,
    blobs: Map<Seq<char>, Seq<char>>,
    reads: Seq<BytesRead>,
    n: int,
) -> (Seq<ChangeText>, Map<Seq<char>, Seq<char>>)
    decreases n,
{
    if n <= 0 {
        (Seq::empty(), blobs)
    } else {
        let (had, m) = worktree_taken(paths, base, blobs, reads, n - 1);
        let p = paths[n - 1];
        match text_read(reads[n - 1]) {
            None => (had, m),
            Some(t) => (
                had.push(ChangeText { path: p, old: Some(blob_or_nothing(m, blob_spec(base, p))), new: Some(t) }),
                m.remove(blob_spec(base, p)),
            ),
        }
    }
}

/// How many of the first `n` files give no text.
pub open spec fn unreadable(reads: Seq<BytesRead>, n: int) -> int
    decreases n,
{
    if n <= 0 {
        0
    } else {
        unreadable(reads, n - 1) + (if text_read(reads[n - 1]) is None {
            1int
        } else {
            0int
        })
    }
}

/// The files of the working tree against a commit; those that cannot be read, or
/// are not in UTF-8, are left out and noted.
pub fn gather_worktree_range(
    paths: &[String],
    base: &str,
    blobs: TextMap<String>,
    reads: Vec<BytesRead>,
    filter: &mut Filter,
) -> (r: Vec<Change>)
    requires
        reads@.len() == paths@.len(),
        old(filter).tally.files_unreadable + paths@.len() <= usize::MAX,
    ensures
        change_texts(r@) == worktree_taken(
            texts(paths@),
            base@,
            blob_texts(blobs@),
            reads@,
            paths@.len() as int,
        ).0,
        *final(filter) == (Filter {
            tally: crate::filter::Ledger {
                files_unreadable: (old(filter).tally.files_unreadable + unreadable(
                    reads@,
                    paths@.len() as int,
                )) as usize,
                ..old(filter).tally
            },
            ..*old(filter)
        }),
{
    let ghost start = blob_texts(blobs@);
    let ghost first = *filter;
    let mut blobs = blobs;
    let mut out: Vec<Change> = Vec::new();
    assert(change_texts(out@) =~= Seq::empty());
    let n: usize = paths.len();
    for i in 0..n
        invariant
            n == paths@.len(),
            n == reads@.len(),
            first.tally.files_unreadable + n <= usize::MAX,
            0 <= unreadable(reads@, i as int) <= i,
            (change_texts(out@), blob_texts(blobs@)) == worktree_taken(
                texts(paths@),
                base@,
                start,
                reads@,
                i as int,
            ),
            *filter == (Filter {
                tally: crate::filter::Ledger {
                    files_unreadable: (first.tally.files_unreadable + unreadable(reads@, i as int)) as usize,
                    ..first.tally
                },
                ..first
            }),
    {
        let ghost had = change_texts(out@);
        let path = &paths[i];
        assert(texts(paths@)[i as int] == path@);
        match read_text(&reads[i]) {
            None => {
                filter.note_unreadable();
            },
            Some(after) => {
                let before = take_blob(&mut blobs, &spec_of(base, path));
                let c = Change { path: path.clone(), old: Some(before), new: Some(after) };
                out.push(c);
                assert(change_texts(out@) =~= had.push(c.text()));
            },
        }
    }
    out
}

/// What a file holds, or nothing.
pub open spec fn read_or_nothing(r: FileRead) -> Seq<char> {
    match r {
        FileRead::Text(s) => s@,
        _ => ""@,
    }
}

/// The first `n` files that are not committed, with what is left of the
/// contents. A file that is gone or cannot be read is empty.
pub open spec fn uncommitted_taken(
    paths: Seq<Seq<char>>,
    blobs: Map<Seq<char>, Seq<char>>,
    reads: Seq<FileRead>,
    n: int,
) -> (Seq<ChangeText>, Map<Seq<char>, Seq<char>>)
    decreases n,
{
    if n <= 0 {
        (Seq::empty(), blobs)
    } else {
        let (had, m) = uncommitted_taken(paths, blobs, reads, n - 1);
        let key = blob_spec("HEAD"@, paths[n - 1]);
        (
            had.push(
                ChangeText {
                    path: paths[n - 1],
                    old: Some(blob_or_nothing(m, key)),
                    new: Some(read_or_nothing(reads[n - 1])),
                },
            ),
            m.remove(key),
        )
    }
}

/// The files that are not committed, against the present commit.
pub fn gather_uncommitted(paths: &[String], blobs: TextMap<String>, reads: Vec<FileRead>) -> (r: Vec<Change>)
    requires
        reads@.len() == paths@.len(),
    ensures
        change_texts(r@) == uncommitted_taken(
            texts(paths@),
            blob_texts(blobs@),
            reads@,
            paths@.len() as int,
        ).0,
{
    let ghost start = blob_texts(blobs@);
    let mut blobs = blobs;
    let mut out: Vec<Change> = Vec::new();
    assert(change_texts(out@) =~= Seq::empty());
    let n: usize = paths.len();
    for i in 0..n
        invariant
            n == paths@.len(),
            n == reads@.len(),
            (change_texts(out@), blob_texts(blobs@)) == uncommitted_taken(texts(paths@), start, reads@, i as int),
    {
        let ghost had = change_texts(out@);
        let path = &paths[i];
        assert(texts(paths@)[i as int] == path@);
        let after = match &reads[i] {
            FileRead::Text(s) => s.clone(),
            _ => "".to_owned(),
        };
        let before = take_blob(&mut blobs, &spec_of("HEAD", path));
        let c = Change { path: path.clone(), old: Some(before), new: Some(after) };
        out.push(c);
        assert(change_texts(out@) =~= had.push(c.text()));
    }
    out
}

/// What git is asked for the attributes of paths with.
pub fn attribute_query(paths: &[String]) -> (r: String)
    ensures
        r@ == joined(texts(paths@), "\0"@) + "\0"@,
{
    join(paths, "\0").concat("\0")
}

/// Whether an attribute declares its path generated.
pub open spec fn declares(attr: Seq<char>, value: Seq<char>) -> bool {
    (attr == "linguist-generated"@ && (value == "set"@ || value == "true"@)) || (attr == "diff"@ && value
        == "unset"@)
}

/// The paths that are declared generated, from field `i` on: path, attribute and
/// value by turns, up to a path that is empty.
pub open spec fn declared_from(fields: Seq<Seq<char>>, i: int) -> Seq<Seq<char>>
    decreases fields.len() - i,
{
    if i + 2 >= fields.len() || fields[i].len() == 0 {
        Seq::empty()
    } else if declares(fields[i + 1], fields[i + 2]) {
        seq![fields[i]] + declared_from(fields, i + 3)
    } else {
        declared_from(fields, i + 3)
    }
}

/// The paths that a repository declares generated, by what git answers of their
/// attributes.
pub fn declared_generated(reply: &str) -> (r: Vec<String>)
    ensures
        texts(r@) == declared_from(split_on(reply@, '\0'), 0),
{
    let fields = split_text(reply, '\0');
    let ghost all = texts(fields@);
    let mut out: Vec<String> = Vec::new();
    let n: usize = fields.len();
    let mut i: usize = 0;
    assert(texts(out@) + declared_from(all, 0) =~= declared_from(all, 0));
    while n >= 3 && i <= n - 3 && !fields[i].as_str().is_empty()
        invariant
            n == fields@.len(),
            all == texts(fields@),
            i <= n,
            texts(out@) + declared_from(all, i as int) == declared_from(all, 0),
        decreases n - i,
    {
        let ghost had = texts(out@);
        assert(all[i as int] == fields@[i as int]@);
        assert(all[i + 1] == fields@[i + 1]@);
        assert(all[i + 2] == fields@[i + 2]@);
        let attr = &fields[i + 1];
        let value = &fields[i + 2];
        if (same(attr, "linguist-generated") && (same(value, "set") || same(value, "true"))) || (same(attr, "diff")
            && same(value, "unset")) {
            out.push(fields[i].clone());
            assert(texts(out@) =~= had.push(all[i as int]));
            assert(texts(out@) + declared_from(all, i + 3) =~= had + (seq![all[i as int]] + declared_from(
                all,
                i + 3,
            )));
        }
        i = i + 3;
    }
    proof {
        assert(declared_from(all, i as int) =~= Seq::empty()) by {
            if i < n {
                assert(all[i as int] == fields@[i as int]@);
            }
        }
        assert(texts(out@) + Seq::<Seq<char>>::empty() =~= texts(out@));
    }
    out
}

/// A revision is settled after at most three replies.
pub proof fn law_three_replies_settle_a_revision(arg: Seq<char>, replies: Seq<Seq<char>>)
    requires
        replies.len() >= 3,
    ensures
        !(finding(arg, replies) is Ask),
{
}

/// What is settled stays settled, whatever else is replied.
pub proof fn law_a_settled_revision_stays(arg: Seq<char>, replies: Seq<Seq<char>>, more: Seq<Seq<char>>)
    requires
        !(finding(arg, replies) is Ask),
    ensures
        finding(arg, replies + more) == finding(arg, replies),
{
    let all = replies + more;
    assert(forall|i: int| 0 <= i < replies.len() ==> all[i] == replies[i]);
}

} // verus!
