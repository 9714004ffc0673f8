//! What is read off the syntax of a file.

use crate::search::{chars_before, text_bytes, Match};
use crate::syntax::{
    above, byte_slice, child_named, comments_above, definition_above, definition_name, docstring, field_child,
    header_of, leftmost, named_from, occurrence, occurrences, parent_of, shallower, sibling_before, sibling_from,
    text_of, NodeText,
};
use crate::text::contains_text;
use vstd::prelude::*;

verus! {

proof fn lemma_shallower(t: Seq<NodeText>, depth: int, j: int)
    requires
        j < t.len(),
    ensures
        match shallower(t, depth, j) {
            Some(p) => 0 <= p <= j && t[p].depth < depth && forall|k: int|
                p < k <= j ==> (#[trigger] t[k]).depth >= depth,
            None => forall|k: int| 0 <= k <= j ==> (#[trigger] t[k]).depth >= depth,
        },
    decreases j + 1,
{
    if j >= 0 && t[j].depth >= depth {
        lemma_shallower(t, depth, j - 1);
    }
}

/// The parent of a node is the nearest one before it that is less deep; everything
/// between the two is below the parent.
pub proof fn law_a_parent_is_the_nearest_that_is_less_deep(t: Seq<NodeText>, i: int)
    requires
        0 <= i < t.len(),
    ensures
        match parent_of(t, i) {
            Some(p) => 0 <= p < i && t[p].depth < t[i].depth && above(t, p, i),
            None => forall|k: int| 0 <= k < i ==> (#[trigger] t[k]).depth >= t[i].depth,
        },
{
    lemma_shallower(t, t[i].depth, i - 1);
}

proof fn lemma_field_child(t: Seq<NodeText>, i: int, field: Seq<char>, j: int)
    requires
        0 <= i < j,
    ensures
        match field_child(t, i, field, j) {
            Some(c) => j <= c < t.len() && t[c].depth == t[i].depth + 1 && t[c].field == Some(field) && (forall|k: int|
                j <= k <= c ==> (#[trigger] t[k]).depth > t[i].depth) && (forall|k: int|
                j <= k < c ==> !((#[trigger] t[k]).depth == t[i].depth + 1 && t[k].field == Some(field))),
            None => forall|c: int|
                j <= c < t.len() && (forall|k: int| j <= k <= c ==> (#[trigger] t[k]).depth > t[i].depth)
                    ==> !((#[trigger] t[c]).depth == t[i].depth + 1 && t[c].field == Some(field)),
        },
    decreases t.len() - j,
{
    if j < t.len() && t[j].depth > t[i].depth && !(t[j].depth == t[i].depth + 1 && t[j].field == Some(field)) {
        lemma_field_child(t, i, field, j + 1);
        if field_child(t, i, field, j + 1) is None {
            assert forall|c: int|
                j <= c < t.len() && (forall|k: int| j <= k <= c ==> (#[trigger] t[k]).depth > t[i].depth) implies !((
            #[trigger] t[c]).depth == t[i].depth + 1 && t[c].field == Some(field)) by {
                if c > j {
                    assert(forall|k: int| j + 1 <= k <= c ==> (#[trigger] t[k]).depth > t[i].depth);
                }
            }
        }
    } else if j < t.len() && t[j].depth <= t[i].depth {
        assert forall|c: int|
            j <= c < t.len() && (forall|k: int| j <= k <= c ==> (#[trigger] t[k]).depth > t[i].depth) implies !((
        #[trigger] t[c]).depth == t[i].depth + 1 && t[c].field == Some(field)) by {
            assert(t[j].depth > t[i].depth);
        }
    }
}

/// The child that a node calls by a name is directly below it, bears that name, and
/// is the first that does.
pub proof fn law_a_named_child_is_directly_below(t: Seq<NodeText>, i: int, field: Seq<char>)
    requires
        0 <= i < t.len(),
    ensures
        match child_named(t, i, field) {
            Some(c) => i < c < t.len() && above(t, i, c) && t[c].depth == t[i].depth + 1 && t[c].field == Some(field)
                && forall|k: int| i < k < c ==> !((#[trigger] t[k]).depth == t[i].depth + 1 && t[k].field == Some(field)),
            None => forall|c: int|
                i < c < t.len() && above(t, i, c) ==> !((#[trigger] t[c]).depth == t[i].depth + 1 && t[c].field
                    == Some(field)),
        },
{
    lemma_field_child(t, i, field, i + 1);
    match child_named(t, i, field) {
        Some(c) => {
            assert(above(t, i, c)) by {
                assert forall|k: int| i < k <= c implies (#[trigger] t[k]).depth > t[i].depth by {}
            }
        },
        None => {
            assert forall|c: int| i < c < t.len() && above(t, i, c) implies !((#[trigger] t[c]).depth == t[i].depth + 1
                && t[c].field == Some(field)) by {
                assert(forall|k: int| i + 1 <= k <= c ==> (#[trigger] t[k]).depth > t[i].depth);
            }
        },
    }
}

/// A definition goes by what stands under its `name`.
pub proof fn law_a_definition_goes_by_its_name(t: Seq<NodeText>, src: Seq<char>, i: int, c: int)
    requires
        child_named(t, i, "name"@) == Some(c),
    ensures
        definition_name(t, src, i) == Some(text_of(t[c], src)),
{
}

/// The header of a definition runs from its start to its body, or to its end where
/// it has none, without the space behind it.
pub proof fn law_a_header_ends_where_the_body_begins(t: Seq<NodeText>, src: Seq<char>, i: int, b: int)
    ensures
        child_named(t, i, "body"@) == Some(b) ==> header_of(t, src, i) == crate::text::trim_end(
            byte_slice(src, t[i].start, t[b].start),
        ),
        child_named(t, i, "body"@) is None ==> header_of(t, src, i) == crate::text::trim_end(
            byte_slice(src, t[i].start, t[i].end),
        ),
{
}

/// What stands between two bytes is what stands between the two characters that
/// begin there.
pub proof fn law_a_slice_is_what_stands_between(s: Seq<char>, i: int, j: int)
    requires
        0 <= i <= j <= s.len(),
    ensures
        byte_slice(s, text_bytes(s.take(i)), text_bytes(s.take(j))) == s.subrange(i, j),
{
    lemma_bytes_grow(s, i, j);
    lemma_chars_before(s, 0, i);
    lemma_chars_before(s, 0, j);
}

proof fn lemma_bytes_grow(s: Seq<char>, i: int, j: int)
    requires
        0 <= i <= j <= s.len(),
    ensures
        text_bytes(s.take(i)) + (j - i) <= text_bytes(s.take(j)),
    decreases j - i,
{
    if i < j {
        lemma_bytes_grow(s, i, j - 1);
        assert(s.take(j).drop_last() =~= s.take(j - 1));
    }
}

proof fn lemma_chars_before(s: Seq<char>, from: int, i: int)
    requires
        0 <= from <= i <= s.len(),
    ensures
        chars_before(s, text_bytes(s.take(i)), from) == i,
    decreases i - from,
{
    if from < i {
        lemma_bytes_grow(s, from, i);
        lemma_chars_before(s, from + 1, i);
    }
}

proof fn lemma_sibling_from(t: Seq<NodeText>, depth: int, j: int)
    requires
        j < t.len(),
    ensures
        match sibling_from(t, depth, j) {
            Some(s) => 0 <= s <= j && t[s].depth == depth && forall|k: int|
                s < k <= j ==> (#[trigger] t[k]).depth > depth,
            None => true,
        },
    decreases j + 1,
{
    if j >= 0 && t[j].depth > depth {
        lemma_sibling_from(t, depth, j - 1);
    }
}

/// The sibling before a node is as deep as it, and only deeper ones stand between.
pub proof fn law_a_sibling_is_as_deep(t: Seq<NodeText>, i: int)
    requires
        0 <= i < t.len(),
    ensures
        sibling_before(t, i) matches Some(s) ==> 0 <= s < i && t[s].depth == t[i].depth && forall|k: int|
            s < k < i ==> (#[trigger] t[k]).depth > t[i].depth,
{
    lemma_sibling_from(t, t[i].depth, i - 1);
}

/// A comment right above a definition belongs to it, and what is parted from it by
/// a line or is no comment does not.
pub proof fn law_only_a_comment_right_above_belongs(t: Seq<NodeText>, src: Seq<char>, c: int, expect: int)
    requires
        0 <= c < t.len(),
    ensures
        comments_above(t, src, Some(c), expect).len() > 0 <==> contains_text(t[c].kind, "comment"@) && t[c].end_row + 1
            >= expect,
        contains_text(t[c].kind, "comment"@) && t[c].end_row + 1 >= expect ==> comments_above(
            t,
            src,
            Some(c),
            expect,
        ).last() == crate::text::trim_end(text_of(t[c], src)),
        comments_above(t, src, None, expect).len() == 0,
{
}

/// The documentation of a Python definition is the string that its body begins
/// with.
pub proof fn law_a_docstring_begins_the_body(t: Seq<NodeText>, src: Seq<char>, i: int, body: int, first: int, expr: int)
    requires
        child_named(t, i, "body"@) == Some(body),
        named_from(t, body, body + 1) == Some(first),
        named_from(t, first, first + 1) == Some(expr),
    ensures
        t[first].kind == "expression_statement"@ && t[expr].kind == "string"@ ==> docstring(t, src, i) == Some(
            text_of(t[expr], src),
        ),
        t[first].kind != "expression_statement"@ || t[expr].kind != "string"@ ==> docstring(t, src, i) is None,
{
}

/// The occurrences of a name are the identifiers that read like it, each at its own
/// place.
pub proof fn law_occurrences_are_the_identifiers_of_that_name(
    t: Seq<NodeText>,
    src: Seq<char>,
    name: Seq<char>,
    lines: Seq<Seq<char>>,
    n: int,
    m: Match,
)
    requires
        0 <= n <= t.len(),
    ensures
        occurrences(t, src, name, lines, n).contains(m) <==> exists|k: int|
            0 <= k < n && contains_text((#[trigger] t[k]).kind, "identifier"@) && text_of(t[k], src) == name && t[k].row
                == t[k].end_row && 0 <= t[k].row < lines.len() && m == (
                t[k].row as usize,
                chars_before(lines[t[k].row], t[k].col, 0) as usize,
                chars_before(lines[t[k].row], t[k].end_col, 0) as usize,
            ),
    decreases n,
{
    if n > 0 {
        law_occurrences_are_the_identifiers_of_that_name(t, src, name, lines, n - 1, m);
        let before = occurrences(t, src, name, lines, n - 1);
        let all = occurrences(t, src, name, lines, n);
        if all.contains(m) {
            let w = choose|w: int| 0 <= w < all.len() && all[w] == m;
            if w < before.len() {
                assert(before[w] == m);
            } else {
                assert(occurrence(t[n - 1], src, name, lines) == Some(m));
            }
        }
        if before.contains(m) {
            let w = choose|w: int| 0 <= w < before.len() && before[w] == m;
            assert(all[w] == m);
        }
        if occurrence(t[n - 1], src, name, lines) == Some(m) {
            assert(all[before.len() as int] == m);
        }
    }
}

/// The definition that a node lies in is the nearest above it of a kind that
/// defines.
pub proof fn law_a_definition_above_defines(t: Seq<NodeText>, kinds: Seq<Seq<char>>, i: int)
    requires
        0 <= i < t.len(),
    ensures
        definition_above(t, kinds, i) matches Some(d) ==> 0 <= d < i && kinds.contains(t[d].kind) && t[d].depth
            < t[i].depth,
    decreases i,
{
    law_a_parent_is_the_nearest_that_is_less_deep(t, i);
    if let Some(p) = parent_of(t, i) {
        if !kinds.contains(t[p].kind) {
            law_a_definition_above_defines(t, kinds, p);
        }
    }
}

/// Of several names on a line the leftmost one counts.
pub proof fn law_the_leftmost_name_counts(t: Seq<NodeText>, s: Seq<int>)
    ensures
        match leftmost(t, s) {
            Some(b) => s.contains(b) && forall|k: int| 0 <= k < s.len() ==> t[b].col <= t[#[trigger] s[k]].col,
            None => s.len() == 0,
        },
    decreases s.len(),
{
    if s.len() > 0 {
        let front = s.drop_last();
        law_the_leftmost_name_counts(t, front);
        assert(s.contains(s[s.len() - 1]));
        if let Some(b) = leftmost(t, front) {
            let w = choose|w: int| 0 <= w < front.len() && front[w] == b;
            assert(s[w] == b);
            assert forall|k: int| 0 <= k < s.len() implies t[leftmost(t, s)->0].col <= t[#[trigger] s[k]].col by {
                if k < front.len() {
                    assert(front[k] == s[k]);
                }
            }
        }
    }
}

} // verus!
