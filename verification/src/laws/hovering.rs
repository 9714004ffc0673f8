//! What is told of the name under the cursor.

use crate::cursor::Cursor;
use crate::events::{hovered, EffectText};
use crate::finder::{definition_lines, hover_gives, reports, HoverText};
use crate::grammar::{grammar_for, grammar_index, Grammar};
use crate::paths::suffix_of;
use crate::search::text_bytes;
use crate::state::App;
use crate::syntax::{
    above, child_named, comment_before, comments_above, definition_above, definition_kinds, definition_name, doc_of,
    docstring, first_definition, header_of, keyed_node, name_at, names_below, node_under, owner_of, parent_of,
    sibling_before, text_of, widened, KeyText, NodeText,
};
use crate::text::{contains_text, joined, lines_of};
use vstd::prelude::*;

verus! {

/// A name that one node of the file defines is told with the kind and the row
/// of that node, its header and what documents it.
pub proof fn law_a_name_is_told_by_its_definition(
    path: Seq<char>,
    t: Seq<NodeText>,
    src: Seq<char>,
    i: int,
    r: HoverText,
    d: int,
)
    requires
        reports(path, t, src, i, r),
        0 <= d < t.len(),
        definition_kinds(path).contains(t[d].kind),
        definition_name(t, src, d) == Some(text_of(t[i], src)),
        forall|k: int|
            0 <= k < t.len() && k != d ==> definition_name(t, src, k) != Some(text_of(t[i], src)),
    ensures
        r.title == text_of(t[i], src),
        r.definition == Some((t[d].kind, t[d].row)),
        r.lines.len() >= 2 && r.lines[0] == "kind: "@ + t[d].kind && r.lines[1] == ""@,
        doc_of(path, t, src, d) is None ==> r.lines.skip(2) == lines_of(header_of(t, src, d)),
        doc_of(path, t, src, d) is Some ==> r.lines.skip(2) == lines_of(header_of(t, src, d)) + seq![""@] + lines_of(
            doc_of(path, t, src, d)->0,
        ),
{
    let kinds = definition_kinds(path);
    let name = text_of(t[i], src);
    assert(kinds.len() > 0);
    assert(crate::syntax::defines(t, src, kinds, name, d));
    let e = choose|e: int| #[trigger]
        crate::syntax::first_definition(t, src, kinds, name, e, t.len() as int) && r.definition == Some(
            (t[e].kind, t[e].row),
        ) && r.lines == definition_lines(path, t, src, e);
    assert(e == d) by {
        if e != d {
            assert(definition_name(t, src, e) != Some(name));
        }
    }
    let l = definition_lines(path, t, src, d);
    assert(l.skip(2) == lines_of(header_of(t, src, d)) + (match doc_of(path, t, src, d) {
        Some(doc) => seq![""@] + lines_of(doc),
        None => Seq::empty(),
    }));
    assert(l[0] == "kind: "@ + t[d].kind && l[1] == ""@);
}

/// A name that nothing in the file defines is told without a definition.
pub proof fn law_a_name_that_is_not_defined_has_no_definition(
    path: Seq<char>,
    t: Seq<NodeText>,
    src: Seq<char>,
    i: int,
    r: HoverText,
)
    requires
        reports(path, t, src, i, r),
        forall|k: int| 0 <= k < t.len() ==> definition_name(t, src, k) != Some(text_of(t[i], src)),
    ensures
        r.title == text_of(t[i], src),
        r.definition is None,
        r.lines.len() == 1,
{
    let kinds = definition_kinds(path);
    let name = text_of(t[i], src);
    if exists|d: int| 0 <= d < t.len() && #[trigger] crate::syntax::defines(t, src, kinds, name, d) {
        let d = choose|d: int| 0 <= d < t.len() && #[trigger] crate::syntax::defines(t, src, kinds, name, d);
        assert(definition_name(t, src, d) != Some(name));
    }
}

/// An empty file tells nothing, and a file that no grammar reads says that.
pub proof fn law_a_file_without_a_grammar_says_so(a: App, r: Option<HoverText>)
    requires
        hover_gives(a, r),
    ensures
        a.lines().len() == 0 ==> r is None,
        a.lines().len() > 0 && grammar_for(a.path()) is None ==> r is Some && r->0.lines == seq![
            "no grammar available for this file type"@,
        ] && r->0.definition is None,
{
}

/// The documentation of a definition is its docstring in Python, and the comment
/// above it in any other language.
pub proof fn law_documentation_is_where_the_language_puts_it(path: Seq<char>, t: Seq<NodeText>, src: Seq<char>, i: int)
    ensures
        suffix_of(path) == "py"@ || suffix_of(path) == "pyi"@ ==> doc_of(path, t, src, i) == docstring(t, src, i),
        suffix_of(path) == "rs"@ ==> doc_of(path, t, src, i) == comment_before(t, src, i),
        suffix_of(path) == "js"@ ==> doc_of(path, t, src, i) == comment_before(t, src, i),
{
    reveal_strlit("py");
    reveal_strlit("pyi");
    reveal_strlit("rs");
    reveal_strlit("js");
    assert("py"@[0] == 'p' && "rs"@[0] == 'r' && "js"@[0] == 'j' && "pyi"@.len() == 3 && "rs"@.len() == 2);
}

proof fn lemma_named_below(t: Seq<NodeText>, src: Seq<char>, i: int, j: int, k: int)
    requires
        0 <= i <= j <= k < t.len(),
        forall|m: int| i < m <= k ==> (#[trigger] t[m]).named && t[m].depth > t[i].depth,
        contains_text(t[k].kind, "identifier"@),
    ensures
        names_below(t, src, i, j).contains(text_of(t[k], src)),
    decreases k - j,
{
    let name = text_of(t[k], src);
    let all = names_below(t, src, i, j);
    if j > i {
        assert(t[j].named && t[j].depth > t[i].depth);
    }
    if j == k {
        assert(all[0] == name);
    } else {
        lemma_named_below(t, src, i, j + 1, k);
        let rest = names_below(t, src, i, j + 1);
        let x = choose|x: int| 0 <= x < rest.len() && rest[x] == name;
        if contains_text(t[j].kind, "identifier"@) {
            assert(all[x + 1] == name);
        } else {
            assert(all[x] == name);
        }
    }
}

/// A name among the parameters of the definition around it belongs to that
/// definition.
pub proof fn law_a_parameter_belongs_to_its_definition(
    t: Seq<NodeText>,
    src: Seq<char>,
    kinds: Seq<Seq<char>>,
    i: int,
    d: int,
    params: int,
    k: int,
    c: int,
)
    requires
        definition_above(t, kinds, i) == Some(d),
        child_named(t, d, "parameters"@) == Some(params),
        child_named(t, d, "name"@) == Some(c),
        0 <= params <= k < t.len(),
        forall|m: int| params < m <= k ==> (#[trigger] t[m]).named && t[m].depth > t[params].depth,
        contains_text(t[k].kind, "identifier"@),
        text_of(t[k], src) == text_of(t[i], src),
    ensures
        owner_of(t, src, kinds, i) == Some(text_of(t[c], src)),
{
    lemma_named_below(t, src, params, params, k);
}

/// A name that stands under no definition belongs to none.
pub proof fn law_a_name_outside_definitions_has_no_owner(
    t: Seq<NodeText>,
    src: Seq<char>,
    kinds: Seq<Seq<char>>,
    i: int,
)
    requires
        definition_above(t, kinds, i) is None,
    ensures
        owner_of(t, src, kinds, i) is None,
{
}

/// An identifier is the name at its own place; a node that is none widens to
/// what holds it on the same line, and to nothing beyond.
pub proof fn law_a_name_is_looked_for_on_its_line(t: Seq<NodeText>, i: int, line: int, p: int)
    ensures
        contains_text(t[i].kind, "identifier"@) ==> widened(t, i, line) == Some(i),
        !contains_text(t[i].kind, "identifier"@) && parent_of(t, i) is None ==> widened(t, i, line) is None,
        !contains_text(t[i].kind, "identifier"@) && parent_of(t, i) == Some(p) && t[p].row != line ==> widened(
            t,
            i,
            line,
        ) is None,
        !contains_text(t[i].kind, "identifier"@) && parent_of(t, i) == Some(p) && 0 <= p < i && t[p].row == line
            && contains_text(t[p].kind, "identifier"@) ==> widened(t, i, line) == Some(p),
{
    reveal_with_fuel(widened, 3);
}

/// The name under the cursor is an identifier, or is found from one: a node that
/// is none is not taken for a name.
pub proof fn law_the_name_under_the_cursor_is_widened_to(
    g: Grammar,
    t: Seq<NodeText>,
    src: Seq<char>,
    lines: Seq<Seq<char>>,
    c: Cursor,
    key: KeyText,
    i: int,
)
    requires
        c.line < lines.len(),
        c.col <= lines[c.line as int].len(),
        node_under(
            grammar_index(g) as int,
            src,
            c.line as int,
            text_bytes(lines[c.line as int].take(c.col as int)),
        ) == Some(key),
        keyed_node(t, key, 0) == Some(i),
        widened(t, i, c.line as int) is Some,
    ensures
        name_at(g, t, src, lines, c) == widened(t, i, c.line as int),
{
}

/// What is told of a name stays in a box, unless its history can be told too: it
/// can where it is defined and there is a commit to start from.
pub proof fn law_history_is_told_where_there_is_one(a: App, b: App, e: EffectText)
    requires
        hovered(a, b, e),
    ensures
        e == EffectText::Stay || e is History,
        e is History ==> a.review_sha is Some && e->History_0.definition is Some && b == a,
        a.review_sha is None ==> e == EffectText::Stay,
{
}

/// The comment above a definition is its lines, one below the other; without
/// lines there is none.
pub proof fn law_a_comment_above_keeps_its_lines(t: Seq<NodeText>, src: Seq<char>, i: int)
    ensures
        ({
            let lines = comments_above(t, src, sibling_before(t, i), t[i].row);
            &&& (lines.len() == 0 <==> comment_before(t, src, i) is None)
            &&& (lines.len() > 0 ==> comment_before(t, src, i) == Some(joined(lines, "\n"@)))
        }),
{
}

/// Of two definitions of a name that stand beside each other the later one
/// counts, and one that holds another counts before it.
pub proof fn law_the_later_definition_counts(
    t: Seq<NodeText>,
    src: Seq<char>,
    kinds: Seq<Seq<char>>,
    name: Seq<char>,
    d: int,
    k: int,
    n: int,
)
    requires
        first_definition(t, src, kinds, name, d, n),
        0 <= k < n,
        k != d,
        kinds.contains(t[k].kind),
        definition_name(t, src, k) == Some(name),
    ensures
        above(t, d, k) || (k < d && !above(t, k, d)),
{
    assert(crate::syntax::defines(t, src, kinds, name, k));
}

} // verus!
