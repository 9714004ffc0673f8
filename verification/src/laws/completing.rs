//! What is typed into the command bar, and what the audit accounts for.

use crate::commands::{
    audit_lines, completed, completions, directory_of, filled_lines, line_parts, passing, rev_pool, space_from,
};
use crate::filter::Ledger;
use crate::text::{contains_text, decimal, is_space, lowercase, padded_left, starts_with, trimmed};
use crate::view::Hidden;
use vstd::prelude::*;

verus! {

/// The texts that start with another, whatever their case.
pub open spec fn starting(needle: Seq<char>) -> spec_fn(Seq<char>) -> bool {
    |c: Seq<char>| starts_with(lowercase(c), needle)
}

/// The texts that hold another, whatever their case.
pub open spec fn holding(needle: Seq<char>) -> spec_fn(Seq<char>) -> bool {
    |c: Seq<char>| contains_text(lowercase(c), needle)
}

proof fn lemma_passing(candidates: Seq<Seq<char>>, needle: Seq<char>)
    ensures
        passing(candidates, needle, true) == candidates.filter(starting(needle)),
        passing(candidates, needle, false) == candidates.filter(holding(needle)),
    decreases candidates.len(),
{
    reveal(Seq::filter);
    if candidates.len() > 0 {
        lemma_passing(candidates.drop_last(), needle);
    }
}

/// What is offered for an input are the candidates that start with it, whatever
/// the case, in their order; where none does, those that hold it; and all of them
/// for no input.
pub proof fn law_candidates_that_start_with_the_input_come_first(input: Seq<char>, candidates: Seq<Seq<char>>, k: int)
    ensures
        input.len() == 0 ==> completions(input, candidates) == candidates,
        input.len() > 0 && 0 <= k < candidates.len() && starts_with(lowercase(candidates[k]), lowercase(input))
            ==> completions(input, candidates) == candidates.filter(starting(lowercase(input))) && completions(
            input,
            candidates,
        ).contains(candidates[k]),
        input.len() > 0 && (forall|j: int|
            0 <= j < candidates.len() ==> !starts_with(lowercase(#[trigger] candidates[j]), lowercase(input)))
            ==> completions(input, candidates) == candidates.filter(holding(lowercase(input))),
{
    let needle = lowercase(input);
    lemma_passing(candidates, needle);
    if input.len() > 0 && 0 <= k < candidates.len() && starts_with(lowercase(candidates[k]), needle) {
        lemma_filter_holds(candidates, starting(needle), k);
    }
    if forall|j: int| 0 <= j < candidates.len() ==> !starts_with(lowercase(#[trigger] candidates[j]), needle) {
        lemma_filter_empty(candidates, starting(needle));
    }
}

proof fn lemma_filter_holds(s: Seq<Seq<char>>, f: spec_fn(Seq<char>) -> bool, k: int)
    requires
        0 <= k < s.len(),
        f(s[k]),
    ensures
        s.filter(f).contains(s[k]),
    decreases s.len(),
{
    reveal(Seq::filter);
    let front = s.drop_last();
    if k < front.len() {
        lemma_filter_holds(front, f, k);
        let w = choose|w: int| 0 <= w < front.filter(f).len() && front.filter(f)[w] == s[k];
        assert(s.filter(f)[w] == s[k]);
    } else {
        assert(s.filter(f)[front.filter(f).len() as int] == s[k]);
    }
}

proof fn lemma_filter_empty(s: Seq<Seq<char>>, f: spec_fn(Seq<char>) -> bool)
    requires
        forall|k: int| 0 <= k < s.len() ==> !f(#[trigger] s[k]),
    ensures
        s.filter(f).len() == 0,
    decreases s.len(),
{
    reveal(Seq::filter);
    if s.len() > 0 {
        let front = s.drop_last();
        assert forall|k: int| 0 <= k < front.len() implies !f(#[trigger] front[k]) by {
            assert(front[k] == s[k]);
        }
        lemma_filter_empty(front, f);
        assert(!f(s[s.len() - 1]));
    }
}

proof fn lemma_space_from(s: Seq<char>, from: int, at: int)
    requires
        0 <= from <= at <= s.len(),
        at < s.len() ==> is_space(s[at]),
        forall|i: int| from <= i < at ==> !is_space(#[trigger] s[i]),
    ensures
        space_from(s, from) == at,
    decreases at - from,
{
    if from < at {
        lemma_space_from(s, from + 1, at);
    }
}

/// A candidate takes the place of the word that is typed: of the command, before
/// any space, and else of what follows the first one.
pub proof fn law_a_candidate_takes_the_place_of_the_word(name: Seq<char>, rest: Seq<char>, candidate: Seq<char>)
    requires
        forall|i: int| 0 <= i < name.len() ==> !is_space(#[trigger] name[i]),
    ensures
        completed(name, candidate) == candidate + seq![' '],
        completed(name + seq![' '] + rest, candidate) == name + seq![' '] + candidate + seq![' '],
{
    reveal_strlit(" ");
    assert(" "@ =~= seq![' ']);
    lemma_space_from(name, 0, name.len() as int);
    let t = name + seq![' '] + rest;
    assert(is_space(' '));
    assert forall|i: int| 0 <= i < name.len() implies !is_space(#[trigger] t[i]) by {
        assert(t[i] == name[i]);
    }
    lemma_space_from(t, 0, name.len() as int);
    assert(t.take(name.len() as int + 1) =~= name + seq![' ']);
}

/// A line is a name, and what follows the space behind it.
pub proof fn law_a_line_is_a_name_and_an_argument(name: Seq<char>, arg: Seq<char>)
    requires
        name.len() > 0,
        forall|i: int| 0 <= i < name.len() ==> !is_space(#[trigger] name[i]),
        arg.len() > 0,
        !is_space(arg[0]),
        !is_space(arg.last()),
    ensures
        line_parts(name) == (name, Seq::<char>::empty()),
        line_parts(name + seq![' '] + arg) == (name, arg),
{
    reveal_strlit("");
    assert(""@ =~= Seq::<char>::empty());
    lemma_trimmed_stays(name);
    lemma_space_from(name, 0, name.len() as int);
    let t = name + seq![' '] + arg;
    assert(t[0] == name[0]);
    assert(t.last() == arg.last());
    lemma_trimmed_stays(t);
    assert(is_space(' '));
    assert forall|i: int| 0 <= i < name.len() implies !is_space(#[trigger] t[i]) by {
        assert(t[i] == name[i]);
    }
    lemma_space_from(t, 0, name.len() as int);
    assert(t.take(name.len() as int) =~= name);
    assert(t.skip(name.len() as int + 1) =~= arg);
    lemma_trimmed_stays(arg);
}

proof fn lemma_trimmed_stays(s: Seq<char>)
    requires
        s.len() > 0,
        !is_space(s[0]),
        !is_space(s.last()),
    ensures
        trimmed(s) == s,
{
    reveal_with_fuel(crate::text::trim_start, 1);
    reveal_with_fuel(crate::text::trim_end, 1);
}

/// The directory of a path is what stands before its last slash.
pub proof fn law_a_directory_ends_at_the_last_slash(dir: Seq<char>, name: Seq<char>)
    requires
        !name.contains('/'),
    ensures
        directory_of(dir + seq!['/'] + name) == Some(dir),
        directory_of(name) is None,
{
    let p = dir + seq!['/'] + name;
    lemma_after_last(p, dir.len() as int, p.len() as int);
    assert(p.take(dir.len() as int) =~= dir);
    lemma_no_slash(name, name.len() as int);
}

proof fn lemma_after_last(p: Seq<char>, at: int, n: int)
    requires
        0 <= at < n <= p.len(),
        p[at] == '/',
        forall|i: int| at < i < n ==> p[i] != '/',
    ensures
        crate::text::after_last(p, '/', n) == at + 1,
    decreases n,
{
    if n - 1 > at {
        lemma_after_last(p, at, n - 1);
    }
}

proof fn lemma_no_slash(p: Seq<char>, n: int)
    requires
        0 <= n <= p.len(),
        !p.contains('/'),
    ensures
        crate::text::after_last(p, '/', n) <= 0,
    decreases n,
{
    if n > 0 {
        assert(p.contains(p[n - 1]));
        lemma_no_slash(p, n - 1);
    }
}

/// The working tree and the present commit can always be named, before the names
/// that git lists.
pub proof fn law_the_working_tree_can_always_be_named(refs: Seq<char>)
    ensures
        rev_pool(refs).len() >= 2,
        rev_pool(refs)[0] == "zz"@,
        rev_pool(refs)[1] == "HEAD"@,
        rev_pool(refs).skip(2) == filled_lines(crate::text::lines_of(refs)),
{
    assert(rev_pool(refs).skip(2) =~= filled_lines(crate::text::lines_of(refs)));
}

/// A counted line of the audit.
pub open spec fn counted(n: int, what: Seq<char>) -> Seq<char> {
    "  "@ + padded_left(decimal(n), ' ', 4) + "  "@ + what
}

/// The audit gives every count under what it counts: what the view hides, by
/// reason, what was dropped before, and the files that are not there, by reason.
pub proof fn law_the_audit_gives_each_count_its_line(
    total: int,
    shown: int,
    hidden: Hidden,
    ledger: Ledger,
    path_filter: Option<Seq<char>>,
)
    ensures
        ({
            let lines = audit_lines(total, shown, hidden, ledger, path_filter);
            &&& lines[0] == decimal(shown) + " of "@ + decimal(total) + " hunks shown"@
            &&& lines.contains(counted(hidden.noise as int, "generated/formatting noise (:all shows them)"@))
            &&& lines.contains(counted(hidden.comment as int, "not a comment change (:only-comments)"@))
            &&& path_filter is None ==> lines.contains(counted(hidden.glob as int, "outside the path filter"@))
            &&& path_filter is Some ==> lines.contains(
                counted(hidden.glob as int, "outside the path filter '"@ + path_filter->0 + "'"@),
            )
            &&& lines.contains(
                counted(
                    ledger.hunks_import as int,
                    "of which import hunks — noise, but shown by default where the diff put them"@,
                ),
            )
            &&& lines.contains(counted(ledger.hunks_non_comment as int, "not a comment change (--only-comments)"@))
            &&& lines.contains("files: "@ + decimal(ledger.files_seen as int) + " changed, of which"@)
            &&& lines.contains(counted(ledger.files_generated as int, "generated or lock file (--all keeps them)"@))
            &&& lines.contains(counted(ledger.files_declared as int, "declared generated by .gitattributes"@))
            &&& lines.contains(
                counted(ledger.files_globbed as int, "never fetched: excluded by a launch-time glob"@),
            )
            &&& lines.contains(counted(ledger.files_unreadable as int, "listed as changed but unreadable"@))
            &&& hidden.unaccounted == 0 ==> lines.contains("every hidden hunk is accounted for"@)
        }),
{
    let lines = audit_lines(total, shown, hidden, ledger, path_filter);
    assert(lines.contains(lines[3]));
    assert(lines.contains(lines[4]));
    assert(lines.contains(lines[5]));
    assert(lines.contains(lines[6]));
    assert(lines.contains(lines[9]));
    assert(lines.contains(lines[11]));
    assert(lines.contains(lines[12]));
    assert(lines.contains(lines[13]));
    assert(lines.contains(lines[14]));
    assert(lines.contains(lines[15]));
    assert(lines.contains(lines[17]));
}

} // verus!
