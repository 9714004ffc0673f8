//! The history of a symbol: which commits it tells of, and in which order.

use crate::history::{
    classified, direction_lines, file_place, first_label, history_line, history_of, hunk_over, identity_at, label_of,
    naming_part, nearest_earlier, nearest_later, pieces, symbol_anywhere, symbol_named,
};
use crate::model::{FileOut, HunkOut, Output, Symbol, SymbolText};
use crate::text::padded_right;
use vstd::prelude::*;

verus! {

/// Whether a symbol is the one that is looked for: by name, kind and scope.
pub open spec fn is_symbol(s: Symbol, target: SymbolText) -> bool {
    s.name@ == target.name && s.kind@ == target.kind && (match (s.scope, target.scope) {
        (Some(a), Some(b)) => a@ == b,
        (None, None) => true,
        _ => false,
    })
}

/// Whether a hunk lies in the body of a symbol, by the name with its scope.
pub open spec fn is_within(h: HunkOut, target: SymbolText) -> bool {
    match (h.enclosing, target.scope) {
        (Some(e), Some(scope)) => e@ == scope + "."@ + target.name,
        (Some(e), None) => e@ == target.name,
        _ => false,
    }
}

/// Whether a hunk has to do with a symbol: it defines it, or lies in its body.
pub open spec fn concerns(h: HunkOut, target: SymbolText) -> bool {
    (exists|k: int| 0 <= k < h.symbols@.len() && is_symbol(#[trigger] h.symbols@[k], target)) || is_within(h, target)
}

proof fn lemma_concerns(h: HunkOut, target: SymbolText)
    ensures
        crate::history::touches_symbol(h, target) == concerns(h, target),
{
    assert forall|k: int| 0 <= k < h.symbols@.len() implies (#[trigger] h.symbols@[k]).text() == target <==> is_symbol(
        h.symbols@[k],
        target,
    ) by {}
    if concerns(h, target) && !is_within(h, target) {
        let k = choose|k: int| 0 <= k < h.symbols@.len() && is_symbol(#[trigger] h.symbols@[k], target);
        assert(h.symbols@[k].text() == target);
    }
    if exists|k: int| 0 <= k < h.symbols@.len() && (#[trigger] h.symbols@[k]).text() == target {
        let k = choose|k: int| 0 <= k < h.symbols@.len() && (#[trigger] h.symbols@[k]).text() == target;
        assert(is_symbol(h.symbols@[k], target));
    }
}

proof fn lemma_first_label(hunks: Seq<HunkOut>, target: SymbolText, from: int, h: int)
    requires
        0 <= from <= h < hunks.len(),
        concerns(hunks[h], target),
        forall|j: int| from <= j < h ==> !concerns(#[trigger] hunks[j], target),
    ensures
        first_label(hunks, target, from) == Some(label_of(hunks[h].rationale@, target)),
    decreases h - from,
{
    lemma_concerns(hunks[from], target);
    if from < h {
        assert(!concerns(hunks[from], target));
        lemma_first_label(hunks, target, from + 1, h);
    }
}

proof fn lemma_no_label(hunks: Seq<HunkOut>, target: SymbolText, from: int)
    requires
        0 <= from <= hunks.len(),
        forall|j: int| from <= j < hunks.len() ==> !concerns(#[trigger] hunks[j], target),
    ensures
        first_label(hunks, target, from) is None,
    decreases hunks.len() - from,
{
    if from < hunks.len() {
        lemma_concerns(hunks[from], target);
        assert(!concerns(hunks[from], target));
        lemma_no_label(hunks, target, from + 1);
    }
}

proof fn lemma_file_place(files: Seq<FileOut>, path: Seq<char>, from: int, f: int)
    requires
        0 <= from <= f < files.len(),
        files[f].path@ == path,
        forall|g: int| from <= g < f ==> (#[trigger] files[g]).path@ != path,
    ensures
        file_place(files, path, from) == Some(f),
    decreases f - from,
{
    if from < f {
        lemma_file_place(files, path, from + 1, f);
    }
}

proof fn lemma_no_file(files: Seq<FileOut>, path: Seq<char>, from: int)
    requires
        0 <= from <= files.len(),
        forall|g: int| from <= g < files.len() ==> (#[trigger] files[g]).path@ != path,
    ensures
        file_place(files, path, from) is None,
    decreases files.len() - from,
{
    if from < files.len() {
        lemma_no_file(files, path, from + 1);
    }
}

/// A commit that defines a symbol or edits its body is never left out of the
/// symbol's history: the first such hunk of the file tells what it did.
pub proof fn law_a_commit_that_concerns_a_symbol_is_told(
    out: Output,
    path: Seq<char>,
    target: SymbolText,
    f: int,
    h: int,
)
    requires
        0 <= f < out.files@.len(),
        out.files@[f].path@ == path,
        forall|g: int| 0 <= g < f ==> (#[trigger] out.files@[g]).path@ != path,
        0 <= h < out.files@[f].hunks@.len(),
        concerns(out.files@[f].hunks@[h], target),
        forall|j: int| 0 <= j < h ==> !concerns(#[trigger] out.files@[f].hunks@[j], target),
    ensures
        classified(out, path, target) == Some(label_of(out.files@[f].hunks@[h].rationale@, target)),
{
    lemma_file_place(out.files@, path, 0, f);
    lemma_first_label(out.files@[f].hunks@, target, 0, h);
}

/// A commit that has nothing to do with a symbol is not in its history.
pub proof fn law_a_commit_that_leaves_a_symbol_alone_is_not_told(out: Output, path: Seq<char>, target: SymbolText)
    requires
        forall|f: int, h: int|
            0 <= f < out.files@.len() && out.files@[f].path@ == path && 0 <= h < out.files@[f].hunks@.len()
                ==> !concerns(#[trigger] out.files@[f].hunks@[h], target),
    ensures
        classified(out, path, target) is None,
{
    if exists|f: int| 0 <= f < out.files@.len() && (#[trigger] out.files@[f]).path@ == path {
        let f = lemma_first_file(out.files@, path, 0);
        lemma_file_place(out.files@, path, 0, f);
        lemma_no_label(out.files@[f].hunks@, target, 0);
    } else {
        lemma_no_file(out.files@, path, 0);
    }
}

proof fn lemma_first_file(files: Seq<FileOut>, path: Seq<char>, from: int) -> (f: int)
    requires
        0 <= from,
        exists|f: int| from <= f < files.len() && (#[trigger] files[f]).path@ == path,
    ensures
        from <= f < files.len(),
        files[f].path@ == path,
        forall|g: int| from <= g < f ==> (#[trigger] files[g]).path@ != path,
    decreases files.len() - from,
{
    let w = choose|f: int| from <= f < files.len() && (#[trigger] files[f]).path@ == path;
    if files[from].path@ == path {
        from
    } else {
        assert(from + 1 <= w);
        lemma_first_file(files, path, from + 1)
    }
}

/// What is said of a symbol is a part of the rationale that names it as a whole
/// word, bare or with its scope, and no earlier part does; or all of it, where no
/// part names it.
pub proof fn law_a_label_names_its_symbol(rationale: Seq<char>, target: SymbolText)
    ensures
        ({
            let parts = pieces(rationale, "; "@);
            let full = match target.scope {
                Some(scope) => scope + "."@ + target.name,
                None => target.name,
            };
            let named = |p: Seq<char>| crate::history::holds_word(p, target.name) || crate::history::holds_word(p, full);
            ||| exists|k: int|
                0 <= k < parts.len() && named(#[trigger] parts[k]) && label_of(rationale, target) == parts[k] && forall|
                    j: int,
                |
                    0 <= j < k ==> !named(#[trigger] parts[j])
            ||| label_of(rationale, target) == rationale && forall|j: int|
                0 <= j < parts.len() ==> !named(#[trigger] parts[j])
        }),
{
    let parts = pieces(rationale, "; "@);
    lemma_naming_part(parts, target, 0);
}

proof fn lemma_naming_part(parts: Seq<Seq<char>>, target: SymbolText, from: int)
    requires
        0 <= from <= parts.len(),
    ensures
        match naming_part(parts, target, from) {
            Some(p) => exists|k: int|
                from <= k < parts.len() && crate::history::names_symbol(#[trigger] parts[k], target) && p == parts[k]
                    && forall|j: int| from <= j < k ==> !crate::history::names_symbol(#[trigger] parts[j], target),
            None => forall|j: int|
                from <= j < parts.len() ==> !crate::history::names_symbol(#[trigger] parts[j], target),
        },
    decreases parts.len() - from,
{
    if from < parts.len() {
        if crate::history::names_symbol(parts[from], target) {
            assert(crate::history::names_symbol(parts[from], target));
        } else {
            lemma_naming_part(parts, target, from + 1);
            if naming_part(parts, target, from + 1) is Some {
                let k = choose|k: int|
                    from + 1 <= k < parts.len() && crate::history::names_symbol(#[trigger] parts[k], target) && naming_part(
                        parts,
                        target,
                        from + 1,
                    )->0 == parts[k] && forall|j: int|
                        from + 1 <= j < k ==> !crate::history::names_symbol(#[trigger] parts[j], target);
                assert forall|j: int| from <= j < k implies !crate::history::names_symbol(
                    #[trigger] parts[j],
                    target,
                ) by {}
            }
        }
    }
}

/// The earlier commits are told from the farthest in the window to the nearest:
/// the last one told is the one right before the reviewed commit.
pub proof fn law_the_earlier_commits_end_with_the_nearest(shas: Seq<Seq<char>>, current: Seq<char>, window: int, i: int)
    requires
        0 <= window,
        0 <= i < nearest_earlier(shas, current, window).len(),
    ensures
        ({
            let r = nearest_earlier(shas, current, window);
            let skipped: int = if shas.len() > 0 && shas[0] == current {
                1
            } else {
                0
            };
            &&& r.len() == (if shas.len() - skipped < window {
                shas.len() - skipped
            } else {
                window
            })
            &&& r[r.len() - 1 - i] == shas[skipped + i]
        }),
{
}

/// The later commits are told from the nearest on: the last one that git lists
/// comes first.
pub proof fn law_the_later_commits_start_with_the_nearest(shas: Seq<Seq<char>>, window: int, i: int)
    requires
        0 <= window,
        0 <= i < nearest_later(shas, window).len(),
    ensures
        nearest_later(shas, window).len() == (if shas.len() < window {
            shas.len() as int
        } else {
            window
        }),
        nearest_later(shas, window)[i] == shas[shas.len() - 1 - i],
{
}

/// How many of the first `n` commits have something to tell.
pub open spec fn told_before(labels: Seq<Option<String>>, n: int) -> int
    decreases n,
{
    if n <= 0 {
        0
    } else if labels[n - 1] is Some {
        told_before(labels, n - 1) + 1
    } else {
        told_before(labels, n - 1)
    }
}

proof fn lemma_told_before(labels: Seq<Option<String>>, n: int)
    requires
        0 <= n,
    ensures
        0 <= told_before(labels, n) <= n,
        told_before(labels, n) > 0 <==> crate::history::any_label(labels, n),
    decreases n,
{
    if n > 0 {
        lemma_told_before(labels, n - 1);
        if labels[n - 1] is Some {
            assert(crate::history::any_label(labels, n));
        } else if crate::history::any_label(labels, n) {
            let k = choose|k: int| 0 <= k < n && (#[trigger] labels[k]) is Some;
            assert(k < n - 1);
            assert(crate::history::any_label(labels, n - 1));
        } else if crate::history::any_label(labels, n - 1) {
            let k = choose|k: int| 0 <= k < n - 1 && (#[trigger] labels[k]) is Some;
            assert(labels[k] is Some);
        }
    }
}

/// Each commit of a direction that touched the symbol has one line, in the order
/// of the commits: the first line bears the tag, and every line the commit's short
/// name and what it did.
pub proof fn law_each_commit_that_is_told_has_its_line(
    shas: Seq<Seq<char>>,
    labels: Seq<Option<String>>,
    tag: Seq<char>,
    n: int,
    k: int,
)
    requires
        shas.len() == labels.len(),
        0 <= k < n <= shas.len(),
        labels[k] is Some,
    ensures
        direction_lines(shas, labels, tag, n).len() == told_before(labels, n),
        0 <= told_before(labels, k) < told_before(labels, n),
        ({
            let at = told_before(labels, k);
            let short = if shas[k].len() > 7 {
                shas[k].take(7)
            } else {
                shas[k]
            };
            let head = if at == 0 {
                tag
            } else {
                Seq::empty()
            };
            direction_lines(shas, labels, tag, n)[at] == padded_right(head, 7) + "  "@ + short + "  "@ + labels[k]->0@
        }),
    decreases n,
{
    reveal_strlit("");
    assert(""@ =~= Seq::<char>::empty());
    lemma_told_before(labels, n);
    lemma_told_before(labels, n - 1);
    lemma_told_before(labels, k);
    if k < n - 1 {
        law_each_commit_that_is_told_has_its_line(shas, labels, tag, n - 1, k);
    } else {
        lemma_lines_told(shas, labels, tag, n - 1);
    }
}

proof fn lemma_lines_told(shas: Seq<Seq<char>>, labels: Seq<Option<String>>, tag: Seq<char>, n: int)
    requires
        0 <= n <= shas.len(),
        shas.len() == labels.len(),
    ensures
        direction_lines(shas, labels, tag, n).len() == told_before(labels, n),
    decreases n,
{
    if n > 0 {
        lemma_lines_told(shas, labels, tag, n - 1);
    }
}

/// The reviewed commit stands between what came before it and what came after.
pub proof fn law_the_reviewed_commit_stands_between(
    sha: Seq<char>,
    earlier: Seq<Seq<char>>,
    before: Seq<Option<String>>,
    later: Seq<Seq<char>>,
    after: Seq<Option<String>>,
)
    requires
        earlier.len() == before.len(),
        later.len() == after.len(),
    ensures
        ({
            let all = history_of(sha, earlier, before, later, after);
            let at = told_before(before, before.len() as int);
            let short = if sha.len() > 7 {
                sha.take(7)
            } else {
                sha
            };
            &&& all.len() == at + 1 + told_before(after, after.len() as int)
            &&& all.take(at) == direction_lines(earlier, before, "earlier"@, earlier.len() as int)
            &&& all[at] == "CURRENT  "@ + short
            &&& all.skip(at + 1) == direction_lines(later, after, "later"@, later.len() as int)
        }),
{
    lemma_lines_told(earlier, before, "earlier"@, earlier.len() as int);
    lemma_lines_told(later, after, "later"@, later.len() as int);
    lemma_told_before(before, before.len() as int);
    let all = history_of(sha, earlier, before, later, after);
    let at = told_before(before, before.len() as int);
    reveal_strlit("CURRENT");
    reveal_strlit("  ");
    reveal_strlit("CURRENT  ");
    assert(padded_right("CURRENT"@, 7) =~= "CURRENT"@);
    assert("CURRENT"@ + "  "@ =~= "CURRENT  "@);
    assert(all.take(at) =~= direction_lines(earlier, before, "earlier"@, earlier.len() as int));
    assert(all.skip(at + 1) =~= direction_lines(later, after, "later"@, later.len() as int));
}

proof fn lemma_symbol_named(s: Seq<Symbol>, name: Seq<char>, kind: Seq<char>, from: int, k: int)
    requires
        0 <= from <= k < s.len(),
        s[k].name@ == name && s[k].kind@ == kind,
        forall|j: int| from <= j < k ==> !((#[trigger] s[j]).name@ == name && s[j].kind@ == kind),
    ensures
        symbol_named(s, name, kind, from) == Some(s[k].text()),
    decreases k - from,
{
    if from < k {
        lemma_symbol_named(s, name, kind, from + 1, k);
    }
}

proof fn lemma_hunk_over(hunks: Seq<HunkOut>, line: int, from: int, h: int)
    requires
        0 <= from <= h < hunks.len(),
        hunks[h].new_range[0] <= line <= hunks[h].new_range[1],
        forall|j: int| from <= j < h ==> !((#[trigger] hunks[j]).new_range[0] <= line <= hunks[j].new_range[1]),
    ensures
        hunk_over(hunks, line, from) == Some(h),
    decreases h - from,
{
    if from < h {
        lemma_hunk_over(hunks, line, from + 1, h);
    }
}

/// The definition at a row is the symbol of its name and kind in the hunk that
/// holds the row, counted from 0: of two that share both, the one there.
pub proof fn law_a_definition_is_the_symbol_of_its_hunk(
    out: Output,
    path: Seq<char>,
    name: Seq<char>,
    kind: Seq<char>,
    row: int,
    f: int,
    h: int,
    k: int,
)
    requires
        0 <= f < out.files@.len(),
        out.files@[f].path@ == path,
        forall|g: int| 0 <= g < f ==> (#[trigger] out.files@[g]).path@ != path,
        0 <= h < out.files@[f].hunks@.len(),
        out.files@[f].hunks@[h].new_range[0] <= row + 1 <= out.files@[f].hunks@[h].new_range[1],
        forall|j: int|
            0 <= j < h ==> !((#[trigger] out.files@[f].hunks@[j]).new_range[0] <= row + 1
                <= out.files@[f].hunks@[j].new_range[1]),
        0 <= k < out.files@[f].hunks@[h].symbols@.len(),
        out.files@[f].hunks@[h].symbols@[k].name@ == name && out.files@[f].hunks@[h].symbols@[k].kind@ == kind,
        forall|j: int|
            0 <= j < k ==> !((#[trigger] out.files@[f].hunks@[h].symbols@[j]).name@ == name
                && out.files@[f].hunks@[h].symbols@[j].kind@ == kind),
    ensures
        identity_at(out, path, name, kind, row) is Some,
        is_symbol(out.files@[f].hunks@[h].symbols@[k], identity_at(out, path, name, kind, row)->0),
{
    lemma_file_place(out.files@, path, 0, f);
    lemma_hunk_over(out.files@[f].hunks@, row + 1, 0, h);
    lemma_symbol_named(out.files@[f].hunks@[h].symbols@, name, kind, 0, k);
}

proof fn lemma_symbol_is_named(s: Seq<Symbol>, name: Seq<char>, kind: Seq<char>, from: int)
    requires
        0 <= from,
    ensures
        symbol_named(s, name, kind, from) matches Some(x) ==> x.name == name && x.kind == kind,
        (exists|k: int| from <= k < s.len() && (#[trigger] s[k]).name@ == name && s[k].kind@ == kind)
            ==> symbol_named(s, name, kind, from) is Some,
    decreases s.len() - from,
{
    if from < s.len() {
        lemma_symbol_is_named(s, name, kind, from + 1);
    }
}

proof fn lemma_symbol_anywhere(hunks: Seq<HunkOut>, name: Seq<char>, kind: Seq<char>, from: int)
    requires
        0 <= from,
    ensures
        symbol_anywhere(hunks, name, kind, from) matches Some(x) ==> x.name == name && x.kind == kind,
        (exists|h: int, k: int|
            from <= h < hunks.len() && 0 <= k < hunks[h].symbols@.len() && (#[trigger] hunks[h].symbols@[k]).name@ == name
                && hunks[h].symbols@[k].kind@ == kind) ==> symbol_anywhere(hunks, name, kind, from) is Some,
    decreases hunks.len() - from,
{
    if from < hunks.len() {
        lemma_symbol_is_named(hunks[from].symbols@, name, kind, 0);
        lemma_symbol_anywhere(hunks, name, kind, from + 1);
        if exists|h: int, k: int|
            from <= h < hunks.len() && 0 <= k < hunks[h].symbols@.len() && (#[trigger] hunks[h].symbols@[k]).name@ == name
                && hunks[h].symbols@[k].kind@ == kind {
            let (h, k) = choose|h: int, k: int|
                from <= h < hunks.len() && 0 <= k < hunks[h].symbols@.len() && (#[trigger] hunks[h].symbols@[k]).name@
                    == name && hunks[h].symbols@[k].kind@ == kind;
            if h == from {
                assert(hunks[from].symbols@[k].name@ == name);
            } else {
                assert(hunks[h].symbols@[k].name@ == name);
            }
        }
    }
}

/// A definition is known by its own name and kind; it is known wherever some hunk
/// of the file has a symbol of both.
pub proof fn law_a_definition_is_known_by_name_and_kind(
    out: Output,
    path: Seq<char>,
    name: Seq<char>,
    kind: Seq<char>,
    row: int,
    f: int,
    h: int,
    k: int,
)
    requires
        0 <= f < out.files@.len(),
        out.files@[f].path@ == path,
        forall|g: int| 0 <= g < f ==> (#[trigger] out.files@[g]).path@ != path,
        0 <= h < out.files@[f].hunks@.len(),
        0 <= k < out.files@[f].hunks@[h].symbols@.len(),
        out.files@[f].hunks@[h].symbols@[k].name@ == name && out.files@[f].hunks@[h].symbols@[k].kind@ == kind,
    ensures
        identity_at(out, path, name, kind, row) matches Some(x) && x.name == name && x.kind == kind,
{
    lemma_file_place(out.files@, path, 0, f);
    let hunks = out.files@[f].hunks@;
    lemma_symbol_anywhere(hunks, name, kind, 0);
    match hunk_over(hunks, row + 1, 0) {
        Some(g) => {
            lemma_symbol_is_named(hunks[g].symbols@, name, kind, 0);
        },
        None => {},
    }
}

/// A line of the history shows the tag, the first seven characters of the
/// commit's name and the label.
pub proof fn law_a_line_shows_the_commit_and_its_label(tag: Seq<char>, sha: Seq<char>, label: Seq<char>)
    requires
        sha.len() >= 7,
    ensures
        history_line(tag, sha, label) == padded_right(tag, 7) + "  "@ + sha.take(7) + "  "@ + label,
{
    assert(sha.len() == 7 ==> sha.take(7) == sha);
}

} // verus!
