//! Reading a file's syntax tree: the symbol under the cursor, its definition,
//! its documentation and its occurrences.

use crate::cursor::Cursor;
use crate::editor::holds;
use crate::grammar::{grammar_index, language, language_place, Grammar};
use crate::paths::{suffix, suffix_of};
use crate::search::{byte_to_char_col, char_byte, chars_before, text_bytes, Match};
use crate::text::{
    chars_of, contains_text, has_text, join, joined, option_text, same, slice_string, texts, trim_end, trim_right,
};
use vstd::prelude::*;

verus! {

/// One node of a syntax tree. The nodes of a tree stand in the order in which
/// they open; with their depths that gives the tree.
pub struct SyntaxNode {
    pub kind: String,
    /// whether the grammar names it, rather than quoting its text
    pub named: bool,
    pub start: usize,
    pub end: usize,
    pub row: usize,
    pub col: usize,
    pub end_row: usize,
    pub end_col: usize,
    pub depth: usize,
    /// what its parent calls it
    pub field: Option<String>,
}

/// One node, as text.
pub ghost struct NodeText {
    pub kind: Seq<char>,
    pub named: bool,
    pub start: int,
    pub end: int,
    pub row: int,
    pub col: int,
    pub end_row: int,
    pub end_col: int,
    pub depth: int,
    pub field: Option<Seq<char>>,
}

impl SyntaxNode {
    pub open spec fn text(self) -> NodeText {
        NodeText {
            kind: self.kind@,
            named: self.named,
            start: self.start as int,
            end: self.end as int,
            row: self.row as int,
            col: self.col as int,
            end_row: self.end_row as int,
            end_col: self.end_col as int,
            depth: self.depth as int,
            field: option_text(self.field),
        }
    }
}

pub open spec fn node_texts(v: Seq<SyntaxNode>) -> Seq<NodeText> {
    Seq::new(v.len(), |i: int| v[i].text())
}

/// What tells a node from the others of its tree.
pub struct NodeKey {
    pub kind: String,
    pub start: usize,
    pub end: usize,
    /// the kinds of the nodes that it is in, from the inside out
    pub above: Vec<String>,
}

/// The same, as text.
pub ghost struct KeyText {
    pub kind: Seq<char>,
    pub start: int,
    pub end: int,
    pub above: Seq<Seq<char>>,
}

impl NodeKey {
    pub open spec fn text(self) -> KeyText {
        KeyText { kind: self.kind@, start: self.start as int, end: self.end as int, above: texts(self.above@) }
    }
}

/// The nodes of the tree that `tree_sitter` reads a text as, with the language
/// at a place of the table; none where it cannot read it.
pub uninterp spec fn syntax_tree(place: int, src: Seq<char>) -> Option<Seq<NodeText>>;

/// The smallest node of that tree which spans a point.
pub uninterp spec fn node_under(place: int, src: Seq<char>, row: int, col: int) -> Option<KeyText>;

/// The texts that a query captures in that tree, in order; none where the query
/// does not fit the language.
pub uninterp spec fn query_captures(place: int, src: Seq<char>, query: Seq<char>) -> Option<Seq<Seq<char>>>;

/// `tree_sitter::Parser::parse`, and the nodes of the tree as `TreeCursor` walks
/// them. What tree a text has is left to the crate.
#[verifier::external_body]
fn parse_nodes(l: &tree_sitter::Language, src: &str) -> (r: Option<Vec<SyntaxNode>>)
    ensures
        match r {
            Some(v) => syntax_tree(language_place(*l), src@) == Some(node_texts(v@)),
            None => syntax_tree(language_place(*l), src@) is None,
        },
{
    let mut parser = tree_sitter::Parser::new();
    parser.set_language(l).ok()?;
    let tree = parser.parse(src, None)?;
    let mut at = tree.walk();
    Some((0..tree.root_node().descendant_count()).map(|i| {
        at.goto_descendant(i);
        let n = at.node();
        let first = n.start_position();
        let last = n.end_position();
        SyntaxNode {
            kind: n.kind().into(), named: n.is_named(), start: n.start_byte(), end: n.end_byte(), row: first.row,
            col: first.column, end_row: last.row, end_col: last.column, depth: at.depth() as usize,
            field: at.field_name().map(Into::into) }
    }).collect())
}

/// `tree_sitter::Node::descendant_for_point_range` from the root, on one point:
/// the smallest node that spans it, with those that `Node::parent` leads to.
/// Which one that is, is left to the crate.
#[verifier::external_body]
fn node_at(l: &tree_sitter::Language, src: &str, row: usize, column: usize) -> (r: Option<NodeKey>)
    ensures
        match r {
            Some(k) => node_under(language_place(*l), src@, row as int, column as int) == Some(k.text()),
            None => node_under(language_place(*l), src@, row as int, column as int) is None,
        },
{
    let mut parser = tree_sitter::Parser::new();
    parser.set_language(l).ok()?;
    let tree = parser.parse(src, None)?;
    let point = tree_sitter::Point { row, column };
    let n = tree.root_node().descendant_for_point_range(point, point)?;
    let above = std::iter::successors(n.parent(), |p| p.parent()).map(|p| p.kind().to_owned()).collect();
    Some(NodeKey { kind: n.kind().to_owned(), start: n.start_byte(), end: n.end_byte(), above })
}

/// `tree_sitter::QueryCursor::matches` over the whole tree: the text of every
/// capture, in the order of the matches. What a query matches is left to the
/// crate.
#[verifier::external_body]
pub(crate) fn captures(l: &tree_sitter::Language, src: &str, query: &str) -> (r: Option<Vec<String>>)
    ensures
        match r {
            Some(v) => query_captures(language_place(*l), src@, query@) == Some(texts(v@)),
            None => query_captures(language_place(*l), src@, query@) is None,
        },
{
    let mut parser = tree_sitter::Parser::new();
    parser.set_language(l).ok()?;
    let tree = parser.parse(src, None)?;
    let compiled = tree_sitter::Query::new(l, query).ok()?;
    let mut cursor = tree_sitter::QueryCursor::new();
    let mut matches = cursor.matches(&compiled, tree.root_node(), src.as_bytes());
    let mut out = Vec::new();
    while let Some(m) = tree_sitter::StreamingIterator::next(&mut matches) {
        out.extend(m.captures().iter().flat_map(|c| c.node.utf8_text(src.as_bytes())).map(str::to_owned));
    }
    Some(out)
}

/// A file's text and the nodes of its tree.
pub struct ParsedFile {
    pub grammar: Grammar,
    pub nodes: Vec<SyntaxNode>,
    pub src: String,
}

impl ParsedFile {
    /// Whether the nodes are those of the text.
    pub open spec fn wf(self) -> bool {
        syntax_tree(grammar_index(self.grammar) as int, self.src@) == Some(node_texts(self.nodes@))
    }

    pub open spec fn tree(self) -> Seq<NodeText> {
        node_texts(self.nodes@)
    }
}

/// Reads the tree of a text.
pub fn parse(grammar: Grammar, src: String) -> (r: Option<ParsedFile>)
    ensures
        match r {
            Some(p) => p.wf() && p.src == src && p.grammar == grammar,
            None => syntax_tree(grammar_index(grammar) as int, src@) is None,
        },
{
    match parse_nodes(&language(grammar_index(grammar)), &src) {
        Some(nodes) => Some(ParsedFile { grammar, nodes, src }),
        None => None,
    }
}

/// The text from byte `start` to byte `end`; empty where these are no bounds of
/// characters.
pub open spec fn byte_slice(s: Seq<char>, start: int, end: int) -> Seq<char> {
    let i = chars_before(s, start, 0);
    let j = chars_before(s, end, 0);
    if start <= end && i <= j && text_bytes(s.take(i)) == start && text_bytes(s.take(j)) == end {
        s.subrange(i, j)
    } else {
        ""@
    }
}

/// The text from byte `start` to byte `end`.
pub fn slice_bytes(src: &str, start: usize, end: usize) -> (r: String)
    ensures
        r@ == byte_slice(src@, start as int, end as int),
{
    let i: usize = byte_to_char_col(src, start);
    let j: usize = byte_to_char_col(src, end);
    if start <= end && i <= j && char_byte(src, i) == start && char_byte(src, j) == end {
        let cs = chars_of(src);
        slice_string(&cs, i, j)
    } else {
        "".to_owned()
    }
}

/// The text of a node.
pub open spec fn text_of(n: NodeText, src: Seq<char>) -> Seq<char> {
    byte_slice(src, n.start, n.end)
}

pub fn node_text(n: &SyntaxNode, src: &str) -> (r: String)
    ensures
        r@ == text_of(n.text(), src@),
{
    slice_bytes(src, n.start, n.end)
}

/// Whether node `a` stands above node `b`.
pub open spec fn above(t: Seq<NodeText>, a: int, b: int) -> bool {
    0 <= a < b < t.len() && forall|k: int| a < k <= b ==> (#[trigger] t[k]).depth > t[a].depth
}

/// The last node before `j`, itself counted, that is less deep than `depth`.
pub open spec fn shallower(t: Seq<NodeText>, depth: int, j: int) -> Option<int>
    decreases j + 1,
{
    if j < 0 {
        None
    } else if t[j].depth < depth {
        Some(j)
    } else {
        shallower(t, depth, j - 1)
    }
}

/// The node that node `i` stands directly below.
pub open spec fn parent_of(t: Seq<NodeText>, i: int) -> Option<int> {
    shallower(t, t[i].depth, i - 1)
}

fn parent(p: &ParsedFile, i: usize) -> (r: Option<usize>)
    requires
        i < p.nodes@.len(),
    ensures
        match r {
            Some(j) => parent_of(p.tree(), i as int) == Some(j as int) && j < i,
            None => parent_of(p.tree(), i as int) is None,
        },
{
    let ghost t = p.tree();
    let depth = p.nodes[i].depth;
    let mut j: usize = i;
    assert(t[i as int].depth == depth);
    while j > 0
        invariant
            j <= i < p.nodes@.len(),
            t == p.tree(),
            depth == t[i as int].depth,
            parent_of(t, i as int) == shallower(t, depth as int, j - 1),
        decreases j,
    {
        assert(t[j - 1].depth == p.nodes@[j - 1].depth);
        if p.nodes[j - 1].depth < depth {
            return Some(j - 1);
        }
        j = j - 1;
    }
    None
}

/// The place behind the nodes below one of `depth`, from `k` on.
pub open spec fn below_end(t: Seq<NodeText>, depth: int, k: int) -> int
    decreases t.len() - k,
{
    if k >= t.len() || t[k].depth <= depth {
        k
    } else {
        below_end(t, depth, k + 1)
    }
}

pub proof fn lemma_below_end(t: Seq<NodeText>, depth: int, k: int)
    requires
        0 <= k <= t.len(),
    ensures
        k <= below_end(t, depth, k) <= t.len(),
    decreases t.len() - k,
{
    if k < t.len() && t[k].depth > depth {
        lemma_below_end(t, depth, k + 1);
    }
}

fn skip_below(p: &ParsedFile, i: usize) -> (r: usize)
    requires
        i < p.nodes@.len(),
    ensures
        r == below_end(p.tree(), p.tree()[i as int].depth, i + 1),
        i < r <= p.nodes@.len(),
{
    let ghost t = p.tree();
    let depth = p.nodes[i].depth;
    let n: usize = p.nodes.len();
    assert(t[i as int].depth == depth);
    let mut k: usize = i + 1;
    while k < n && p.nodes[k].depth > depth
        invariant
            i < k <= n,
            n == p.nodes@.len(),
            t == p.tree(),
            below_end(t, depth as int, i + 1) == below_end(t, depth as int, k as int),
        decreases n - k,
    {
        assert(t[k as int].depth == p.nodes@[k as int].depth);
        k = k + 1;
    }
    if k < n {
        assert(t[k as int].depth == p.nodes@[k as int].depth);
    }
    k
}

/// The first child of node `i`, from `j` on, that its parent calls `field`.
pub open spec fn field_child(t: Seq<NodeText>, i: int, field: Seq<char>, j: int) -> Option<int>
    decreases t.len() - j,
{
    if j >= t.len() || t[j].depth <= t[i].depth {
        None
    } else if t[j].depth == t[i].depth + 1 && t[j].field == Some(field) {
        Some(j)
    } else {
        field_child(t, i, field, j + 1)
    }
}

/// The child of node `i` that it calls `field`.
pub open spec fn child_named(t: Seq<NodeText>, i: int, field: Seq<char>) -> Option<int> {
    field_child(t, i, field, i + 1)
}

fn child_by_field_name(p: &ParsedFile, i: usize, field: &str) -> (r: Option<usize>)
    requires
        i < p.nodes@.len(),
    ensures
        match r {
            Some(j) => child_named(p.tree(), i as int, field@) == Some(j as int) && i < j < p.nodes@.len(),
            None => child_named(p.tree(), i as int, field@) is None,
        },
{
    let ghost t = p.tree();
    let depth = p.nodes[i].depth;
    let n: usize = p.nodes.len();
    assert(t[i as int].depth == depth);
    let mut j: usize = i + 1;
    while j < n
        invariant
            i < j <= n,
            n == p.nodes@.len(),
            t == p.tree(),
            depth == t[i as int].depth,
            child_named(t, i as int, field@) == field_child(t, i as int, field@, j as int),
        decreases n - j,
    {
        let node = &p.nodes[j];
        assert(t[j as int] == node.text());
        if node.depth <= depth {
            return None;
        }
        if node.depth - 1 == depth {
            if let Some(f) = &node.field {
                if same(f, field) {
                    return Some(j);
                }
            }
        }
        j = j + 1;
    }
    None
}

/// The first named child of node `i`, from `j` on.
pub open spec fn named_from(t: Seq<NodeText>, i: int, j: int) -> Option<int>
    decreases t.len() - j,
{
    if j >= t.len() || t[j].depth <= t[i].depth {
        None
    } else if t[j].depth == t[i].depth + 1 && t[j].named {
        Some(j)
    } else {
        named_from(t, i, j + 1)
    }
}

fn first_named_child(p: &ParsedFile, i: usize) -> (r: Option<usize>)
    requires
        i < p.nodes@.len(),
    ensures
        match r {
            Some(j) => named_from(p.tree(), i as int, i + 1) == Some(j as int) && i < j < p.nodes@.len(),
            None => named_from(p.tree(), i as int, i + 1) is None,
        },
{
    let ghost t = p.tree();
    let depth = p.nodes[i].depth;
    let n: usize = p.nodes.len();
    assert(t[i as int].depth == depth);
    let mut j: usize = i + 1;
    while j < n
        invariant
            i < j <= n,
            n == p.nodes@.len(),
            t == p.tree(),
            depth == t[i as int].depth,
            named_from(t, i as int, i + 1) == named_from(t, i as int, j as int),
        decreases n - j,
    {
        let node = &p.nodes[j];
        assert(t[j as int] == node.text());
        if node.depth <= depth {
            return None;
        }
        if node.depth - 1 == depth && node.named {
            return Some(j);
        }
        j = j + 1;
    }
    None
}

/// The last node before `j`, itself counted, of the same depth under the same
/// parent.
pub open spec fn sibling_from(t: Seq<NodeText>, depth: int, j: int) -> Option<int>
    decreases j + 1,
{
    if j < 0 || t[j].depth < depth {
        None
    } else if t[j].depth == depth {
        Some(j)
    } else {
        sibling_from(t, depth, j - 1)
    }
}

/// The sibling right before node `i`.
pub open spec fn sibling_before(t: Seq<NodeText>, i: int) -> Option<int> {
    sibling_from(t, t[i].depth, i - 1)
}

pub proof fn lemma_sibling(t: Seq<NodeText>, depth: int, j: int)
    requires
        j >= -1,
    ensures
        match sibling_from(t, depth, j) {
            Some(k) => 0 <= k <= j,
            None => true,
        },
    decreases j + 1,
{
    if j >= 0 && t[j].depth > depth {
        lemma_sibling(t, depth, j - 1);
    }
}

fn prev_sibling(p: &ParsedFile, i: usize) -> (r: Option<usize>)
    requires
        i < p.nodes@.len(),
    ensures
        match r {
            Some(j) => sibling_before(p.tree(), i as int) == Some(j as int) && j < i,
            None => sibling_before(p.tree(), i as int) is None,
        },
{
    let ghost t = p.tree();
    let depth = p.nodes[i].depth;
    assert(t[i as int].depth == depth);
    let mut j: usize = i;
    while j > 0
        invariant
            j <= i < p.nodes@.len(),
            t == p.tree(),
            depth == t[i as int].depth,
            sibling_before(t, i as int) == sibling_from(t, depth as int, j - 1),
        decreases j,
    {
        let node = &p.nodes[j - 1];
        assert(t[j - 1] == node.text());
        if node.depth < depth {
            return None;
        }
        if node.depth == depth {
            return Some(j - 1);
        }
        j = j - 1;
    }
    None
}

/// The kinds of definition that are worth showing, by file extension.
pub open spec fn definition_kinds(path: Seq<char>) -> Seq<Seq<char>> {
    let ext = suffix_of(path);
    if ext == "py"@ || ext == "pyi"@ || ext == "xsh"@ || ext == "xonsh"@ || ext == "xonshrc"@ {
        seq!["function_definition"@, "class_definition"@]
    } else if ext == "rs"@ {
        seq![
            "function_item"@,
            "struct_item"@,
            "enum_item"@,
            "trait_item"@,
            "impl_item"@,
            "const_item"@,
            "static_item"@,
            "type_item"@,
        ]
    } else if ext == "js"@ || ext == "jsx"@ || ext == "mjs"@ || ext == "cjs"@ {
        seq!["function_declaration"@, "class_declaration"@, "method_definition"@]
    } else if ext == "ts"@ || ext == "tsx"@ || ext == "mts"@ || ext == "cts"@ {
        seq![
            "function_declaration"@,
            "class_declaration"@,
            "method_definition"@,
            "interface_declaration"@,
            "type_alias_declaration"@,
        ]
    } else if ext == "go"@ {
        seq!["function_declaration"@, "method_declaration"@, "type_declaration"@]
    } else if ext == "c"@ || ext == "h"@ {
        seq!["function_definition"@, "struct_specifier"@, "enum_specifier"@]
    } else if ext == "cc"@ || ext == "cpp"@ || ext == "cxx"@ || ext == "hpp"@ || ext == "hh"@ || ext == "hxx"@ {
        seq!["function_definition"@, "class_specifier"@, "struct_specifier"@]
    } else if ext == "java"@ {
        seq!["method_declaration"@, "class_declaration"@, "interface_declaration"@]
    } else {
        Seq::empty()
    }
}

fn owned(v: &[&str]) -> (r: Vec<String>)
    ensures
        r@.len() == v@.len(),
        forall|i: int| 0 <= i < v@.len() ==> (#[trigger] r@[i])@ == v@[i]@,
{
    let mut out: Vec<String> = Vec::new();
    for i in 0..v.len()
        invariant
            out@.len() == i,
            forall|k: int| 0 <= k < i ==> (#[trigger] out@[k])@ == v@[k]@,
    {
        out.push(v[i].to_owned());
    }
    out
}

/// The kinds of definition that are worth showing, by file extension.
pub fn def_kinds(path: &str) -> (r: Vec<String>)
    ensures
        texts(r@) == definition_kinds(path@),
{
    let s = suffix(path);
    let ext: &str = &s;
    let r = if same(ext, "py") || same(ext, "pyi") || same(ext, "xsh") || same(ext, "xonsh") || same(
        ext,
        "xonshrc",
    ) {
        owned(&["function_definition", "class_definition"])
    } else if same(ext, "rs") {
        owned(
            &[
                "function_item",
                "struct_item",
                "enum_item",
                "trait_item",
                "impl_item",
                "const_item",
                "static_item",
                "type_item",
            ],
        )
    } else if same(ext, "js") || same(ext, "jsx") || same(ext, "mjs") || same(ext, "cjs") {
        owned(&["function_declaration", "class_declaration", "method_definition"])
    } else if same(ext, "ts") || same(ext, "tsx") || same(ext, "mts") || same(ext, "cts") {
        owned(
            &[
                "function_declaration",
                "class_declaration",
                "method_definition",
                "interface_declaration",
                "type_alias_declaration",
            ],
        )
    } else if same(ext, "go") {
        owned(&["function_declaration", "method_declaration", "type_declaration"])
    } else if same(ext, "c") || same(ext, "h") {
        owned(&["function_definition", "struct_specifier", "enum_specifier"])
    } else if same(ext, "cc") || same(ext, "cpp") || same(ext, "cxx") || same(ext, "hpp") || same(
        ext,
        "hh",
    ) || same(ext, "hxx") {
        owned(&["function_definition", "class_specifier", "struct_specifier"])
    } else if same(ext, "java") {
        owned(&["method_declaration", "class_declaration", "interface_declaration"])
    } else {
        Vec::new()
    };
    assert(texts(r@) =~= definition_kinds(path@));
    r
}

/// Whether a kind is a plain name.
pub open spec fn plain_identifier(kind: Seq<char>) -> bool {
    kind == "identifier"@ || kind == "field_identifier"@
}

/// The first plain name at or below node `i`, from `j` on, parameter lists left
/// out.
pub open spec fn identifier_from(t: Seq<NodeText>, i: int, j: int) -> Option<int>
    decreases t.len() - j,
    when 0 <= i <= j
{
    if j >= t.len() || (j > i && t[j].depth <= t[i].depth) {
        None
    } else if j > i && contains_text(t[j].kind, "parameter"@) {
        proof {
            lemma_below_end(t, t[j].depth, j + 1);
        }
        identifier_from(t, i, below_end(t, t[j].depth, j + 1))
    } else if plain_identifier(t[j].kind) {
        Some(j)
    } else {
        identifier_from(t, i, j + 1)
    }
}

pub fn find_identifier(p: &ParsedFile, i: usize) -> (r: Option<String>)
    requires
        i < p.nodes@.len(),
    ensures
        option_text(r) == (match identifier_from(p.tree(), i as int, i as int) {
            Some(j) => Some(text_of(p.tree()[j], p.src@)),
            None => None,
        }),
{
    let ghost t = p.tree();
    let depth = p.nodes[i].depth;
    let n: usize = p.nodes.len();
    assert(t[i as int].depth == depth);
    let mut j: usize = i;
    while j < n
        invariant
            i <= j <= n,
            n == p.nodes@.len(),
            t == p.tree(),
            depth == t[i as int].depth,
            identifier_from(t, i as int, i as int) == identifier_from(t, i as int, j as int),
        decreases n - j,
    {
        let node = &p.nodes[j];
        assert(t[j as int] == node.text());
        if j > i && node.depth <= depth {
            return None;
        }
        if j > i && has_text(&node.kind, "parameter") {
            j = skip_below(p, j);
        } else if same(&node.kind, "identifier") || same(&node.kind, "field_identifier") {
            return Some(node_text(node, &p.src));
        } else {
            j = j + 1;
        }
    }
    None
}

/// The name of a definition: what it calls its name, else the first plain name
/// of its declarator.
pub open spec fn definition_name(t: Seq<NodeText>, src: Seq<char>, i: int) -> Option<Seq<char>> {
    match child_named(t, i, "name"@) {
        Some(c) => Some(text_of(t[c], src)),
        None => match child_named(t, i, "declarator"@) {
            Some(d) => match identifier_from(t, d, d) {
                Some(j) => Some(text_of(t[j], src)),
                None => None,
            },
            None => None,
        },
    }
}

pub fn def_name(p: &ParsedFile, i: usize) -> (r: Option<String>)
    requires
        i < p.nodes@.len(),
    ensures
        option_text(r) == definition_name(p.tree(), p.src@, i as int),
{
    if let Some(c) = child_by_field_name(p, i, "name") {
        assert(p.tree()[c as int] == p.nodes@[c as int].text());
        return Some(node_text(&p.nodes[c], &p.src));
    }
    match child_by_field_name(p, i, "declarator") {
        Some(d) => find_identifier(p, d),
        None => None,
    }
}

/// Whether node `i` is a definition of `name`.
pub open spec fn defines(t: Seq<NodeText>, src: Seq<char>, kinds: Seq<Seq<char>>, name: Seq<char>, i: int) -> bool {
    kinds.contains(t[i].kind) && definition_name(t, src, i) == Some(name)
}

/// Whether a walk that goes down before it goes on, later children first, meets
/// node `a` before node `b`.
pub open spec fn walks_before(t: Seq<NodeText>, a: int, b: int) -> bool {
    above(t, a, b) || (a > b && !above(t, b, a))
}

/// Whether `i` is the first definition of `name` that such a walk meets.
pub open spec fn first_definition(
    t: Seq<NodeText>,
    src: Seq<char>,
    kinds: Seq<Seq<char>>,
    name: Seq<char>,
    i: int,
    n: int,
) -> bool {
    0 <= i < n && defines(t, src, kinds, name, i) && forall|j: int|
        0 <= j < n && j != i && #[trigger] defines(t, src, kinds, name, j) ==> walks_before(t, i, j)
}

fn is_above(p: &ParsedFile, a: usize, b: usize) -> (r: bool)
    requires
        a < b < p.nodes@.len(),
    ensures
        r == above(p.tree(), a as int, b as int),
{
    let ghost t = p.tree();
    assert(t[a as int].depth == p.nodes@[a as int].depth);
    let mut k: usize = a;
    while k < b
        invariant
            a <= k <= b < p.nodes@.len(),
            t == p.tree(),
            t[a as int].depth == p.nodes@[a as int].depth,
            forall|m: int| a < m <= k ==> (#[trigger] t[m]).depth > t[a as int].depth,
        decreases b - k,
    {
        k = k + 1;
        assert(t[k as int].depth == p.nodes@[k as int].depth);
        if p.nodes[k].depth <= p.nodes[a].depth {
            return false;
        }
    }
    true
}

proof fn lemma_walk_step(
    t: Seq<NodeText>,
    src: Seq<char>,
    kinds: Seq<Seq<char>>,
    name: Seq<char>,
    best: int,
    j: int,
)
    requires
        0 <= best < j < t.len(),
        first_definition(t, src, kinds, name, best, j),
        defines(t, src, kinds, name, j),
    ensures
        first_definition(
            t,
            src,
            kinds,
            name,
            if above(t, best, j) {
                best
            } else {
                j
            },
            j + 1,
        ),
{
    if !above(t, best, j) {
        assert forall|b: int| 0 <= b < j + 1 && b != j && #[trigger] defines(t, src, kinds, name, b) implies walks_before(
            t,
            j,
            b,
        ) by {
            if above(t, b, j) {
                if b != best {
                    assert(walks_before(t, best, b));
                    if above(t, best, b) {
                        assert forall|k: int| best < k <= j implies (#[trigger] t[k]).depth > t[best].depth by {
                            if k > b {
                                assert(t[b].depth > t[best].depth);
                            }
                        }
                        assert(above(t, best, j));
                    } else {
                        assert(best > b);
                        assert(above(t, b, best));
                    }
                }
            }
        }
    }
}

/// The first definition of `name` among the given kinds that a walk meets which
/// goes down before it goes on, later children first.
pub fn find_definition(p: &ParsedFile, kinds: &[String], name: &str) -> (r: Option<usize>)
    ensures
        match r {
            Some(i) => first_definition(
                p.tree(),
                p.src@,
                texts(kinds@),
                name@,
                i as int,
                p.nodes@.len() as int,
            ),
            None => forall|i: int|
                0 <= i < p.nodes@.len() ==> !#[trigger] defines(p.tree(), p.src@, texts(kinds@), name@, i),
        },
{
    let ghost t = p.tree();
    let ghost ks = texts(kinds@);
    let mut best: Option<usize> = None;
    for j in 0..p.nodes.len()
        invariant
            t == p.tree(),
            ks == texts(kinds@),
            match best {
                Some(b) => b < j && first_definition(t, p.src@, ks, name@, b as int, j as int),
                None => forall|i: int| 0 <= i < j ==> !#[trigger] defines(t, p.src@, ks, name@, i),
            },
    {
        assert(t[j as int] == p.nodes@[j as int].text());
        let hit = holds(kinds, &p.nodes[j].kind) && match def_name(p, j) {
            Some(n) => same(&n, name),
            None => false,
        };
        assert(hit == defines(t, p.src@, ks, name@, j as int));
        if hit {
            match best {
                Some(b) => {
                    proof {
                        lemma_walk_step(t, p.src@, ks, name@, b as int, j as int);
                    }
                    if !is_above(p, b, j) {
                        best = Some(j);
                    }
                },
                None => {
                    best = Some(j);
                },
            }
        }
    }
    best
}

/// The header of a definition: its text up to its body.
pub open spec fn header_of(t: Seq<NodeText>, src: Seq<char>, i: int) -> Seq<char> {
    let end = match child_named(t, i, "body"@) {
        Some(b) => t[b].start,
        None => t[i].end,
    };
    trim_end(byte_slice(src, t[i].start, end))
}

pub fn signature(p: &ParsedFile, i: usize) -> (r: String)
    requires
        i < p.nodes@.len(),
    ensures
        r@ == header_of(p.tree(), p.src@, i as int),
{
    assert(p.tree()[i as int] == p.nodes@[i as int].text());
    let end: usize = match child_by_field_name(p, i, "body") {
        Some(b) => {
            assert(p.tree()[b as int] == p.nodes@[b as int].text());
            p.nodes[b].start
        },
        None => p.nodes[i].end,
    };
    trim_right(&slice_bytes(&p.src, p.nodes[i].start, end))
}

/// The string that a definition's body starts with.
pub open spec fn docstring(t: Seq<NodeText>, src: Seq<char>, i: int) -> Option<Seq<char>> {
    match child_named(t, i, "body"@) {
        None => None,
        Some(body) => match named_from(t, body, body + 1) {
            None => None,
            Some(first) => if t[first].kind != "expression_statement"@ {
                None
            } else {
                match named_from(t, first, first + 1) {
                    None => None,
                    Some(expr) => if t[expr].kind == "string"@ {
                        Some(text_of(t[expr], src))
                    } else {
                        None
                    },
                }
            },
        },
    }
}

pub fn python_docstring(p: &ParsedFile, i: usize) -> (r: Option<String>)
    requires
        i < p.nodes@.len(),
    ensures
        option_text(r) == docstring(p.tree(), p.src@, i as int),
{
    let body = match child_by_field_name(p, i, "body") {
        Some(b) => b,
        None => {
            return None;
        },
    };
    let first = match first_named_child(p, body) {
        Some(f) => f,
        None => {
            return None;
        },
    };
    assert(p.tree()[first as int] == p.nodes@[first as int].text());
    if !same(&p.nodes[first].kind, "expression_statement") {
        return None;
    }
    let expr = match first_named_child(p, first) {
        Some(e) => e,
        None => {
            return None;
        },
    };
    assert(p.tree()[expr as int] == p.nodes@[expr as int].text());
    if same(&p.nodes[expr].kind, "string") {
        Some(node_text(&p.nodes[expr], &p.src))
    } else {
        None
    }
}

/// The comments from node `cur` up, without a blank line between them and the
/// row `expect`, in order.
pub open spec fn comments_above(t: Seq<NodeText>, src: Seq<char>, cur: Option<int>, expect: int) -> Seq<Seq<char>>
    decreases (match cur {
        Some(c) => c + 1,
        None => 0,
    }),
{
    match cur {
        None => Seq::empty(),
        Some(c) => if c < 0 || !contains_text(t[c].kind, "comment"@) || t[c].end_row + 1 < expect {
            Seq::empty()
        } else {
            proof {
                lemma_sibling(t, t[c].depth, c - 1);
            }
            comments_above(t, src, sibling_before(t, c), t[c].row).push(trim_end(text_of(t[c], src)))
        },
    }
}

/// The run of comments right above a definition.
pub open spec fn comment_before(t: Seq<NodeText>, src: Seq<char>, i: int) -> Option<Seq<char>> {
    let lines = comments_above(t, src, sibling_before(t, i), t[i].row);
    if lines.len() == 0 {
        None
    } else {
        Some(joined(lines, "\n"@))
    }
}

fn collect_comments(p: &ParsedFile, cur: Option<usize>, expect: usize) -> (r: Vec<String>)
    requires
        cur is Some ==> cur->0 < p.nodes@.len(),
    ensures
        texts(r@) == comments_above(
            p.tree(),
            p.src@,
            match cur {
                Some(c) => Some(c as int),
                None => None,
            },
            expect as int,
        ),
    decreases (match cur {
        Some(c) => c + 1,
        None => 0,
    }),
{
    let ghost t = p.tree();
    let empty: Vec<String> = Vec::new();
    assert(texts(empty@) == Seq::<Seq<char>>::empty());
    match cur {
        None => empty,
        Some(c) => {
            let node = &p.nodes[c];
            assert(t[c as int] == node.text());
            if !has_text(&node.kind, "comment") || (node.end_row < expect && expect - node.end_row > 1) {
                return empty;
            }
            let before = prev_sibling(p, c);
            let mut lines = collect_comments(p, before, node.row);
            let ghost had = texts(lines@);
            let line = trim_right(&node_text(node, &p.src));
            lines.push(line);
            assert(texts(lines@) == had.push(line@));
            lines
        },
    }
}

pub fn leading_comment(p: &ParsedFile, i: usize) -> (r: Option<String>)
    requires
        i < p.nodes@.len(),
    ensures
        option_text(r) == comment_before(p.tree(), p.src@, i as int),
{
    assert(p.tree()[i as int] == p.nodes@[i as int].text());
    let lines = collect_comments(p, prev_sibling(p, i), p.nodes[i].row);
    assert(texts(lines@).len() == lines@.len());
    if lines.len() == 0 {
        None
    } else {
        Some(join(&lines, "\n"))
    }
}

/// The documentation of a definition: in Python its docstring, else the
/// comments above it.
pub open spec fn doc_of(path: Seq<char>, t: Seq<NodeText>, src: Seq<char>, i: int) -> Option<Seq<char>> {
    if suffix_of(path) == "py"@ || suffix_of(path) == "pyi"@ {
        docstring(t, src, i)
    } else {
        comment_before(t, src, i)
    }
}

pub fn doc_for(path: &str, p: &ParsedFile, i: usize) -> (r: Option<String>)
    requires
        i < p.nodes@.len(),
    ensures
        option_text(r) == doc_of(path@, p.tree(), p.src@, i as int),
{
    let ext = suffix(path);
    if same(&ext, "py") || same(&ext, "pyi") {
        python_docstring(p, i)
    } else {
        leading_comment(p, i)
    }
}

/// The node with a key, from `j` on.
pub open spec fn keyed_node(t: Seq<NodeText>, key: KeyText, j: int) -> Option<int>
    decreases t.len() - j,
{
    if j >= t.len() {
        None
    } else if t[j].kind == key.kind && t[j].start == key.start && t[j].end == key.end && t[j].depth
        == key.above.len() {
        Some(j)
    } else {
        keyed_node(t, key, j + 1)
    }
}

fn find_node(p: &ParsedFile, key: &NodeKey) -> (r: Option<usize>)
    ensures
        match r {
            Some(j) => keyed_node(p.tree(), key.text(), 0) == Some(j as int) && j < p.nodes@.len(),
            None => keyed_node(p.tree(), key.text(), 0) is None,
        },
{
    let ghost t = p.tree();
    let n: usize = p.nodes.len();
    let mut j: usize = 0;
    while j < n
        invariant
            j <= n,
            n == p.nodes@.len(),
            t == p.tree(),
            keyed_node(t, key.text(), 0) == keyed_node(t, key.text(), j as int),
        decreases n - j,
    {
        let node = &p.nodes[j];
        assert(t[j as int] == node.text());
        assert(key.text().above.len() == key.above@.len());
        if same(&node.kind, &key.kind) && node.start == key.start && node.end == key.end && node.depth
            == key.above.len() {
            return Some(j);
        }
        j = j + 1;
    }
    None
}

/// The nearest name at or above node `i` that starts on the line.
pub open spec fn widened(t: Seq<NodeText>, i: int, line: int) -> Option<int>
    decreases i,
{
    if contains_text(t[i].kind, "identifier"@) {
        Some(i)
    } else {
        match parent_of(t, i) {
            Some(p) => if 0 <= p < i && t[p].row == line {
                widened(t, p, line)
            } else {
                None
            },
            None => None,
        }
    }
}

fn widen(p: &ParsedFile, i: usize, line: usize) -> (r: Option<usize>)
    requires
        i < p.nodes@.len(),
    ensures
        match r {
            Some(j) => widened(p.tree(), i as int, line as int) == Some(j as int) && j < p.nodes@.len(),
            None => widened(p.tree(), i as int, line as int) is None,
        },
    decreases i,
{
    assert(p.tree()[i as int] == p.nodes@[i as int].text());
    if has_text(&p.nodes[i].kind, "identifier") {
        return Some(i);
    }
    match parent(p, i) {
        Some(q) => {
            assert(p.tree()[q as int] == p.nodes@[q as int].text());
            if p.nodes[q].row == line {
                widen(p, q, line)
            } else {
                None
            }
        },
        None => None,
    }
}

/// Whether a node is a name that starts on the row, at the column or behind it.
pub open spec fn name_on_row(n: NodeText, row: int, col: int) -> bool {
    contains_text(n.kind, "identifier"@) && n.row == row && n.col >= col
}

/// The outermost names on a row, from node `j` on, in order.
pub open spec fn names_on_row(t: Seq<NodeText>, row: int, col: int, j: int) -> Seq<int>
    decreases t.len() - j,
{
    if j < 0 || j >= t.len() {
        Seq::empty()
    } else {
        proof {
            lemma_below_end(t, t[j].depth, j + 1);
        }
        let end = below_end(t, t[j].depth, j + 1);
        if t[j].row > row || t[j].end_row < row || (j > 0 && !t[j].named) {
            names_on_row(t, row, col, end)
        } else if name_on_row(t[j], row, col) {
            seq![j] + names_on_row(t, row, col, end)
        } else {
            names_on_row(t, row, col, j + 1)
        }
    }
}

/// The leftmost of several nodes; of those at one column the last.
pub open spec fn leftmost(t: Seq<NodeText>, s: Seq<int>) -> Option<int>
    decreases s.len(),
{
    if s.len() == 0 {
        None
    } else {
        match leftmost(t, s.drop_last()) {
            None => Some(s.last()),
            Some(b) => if t[s.last()].col <= t[b].col {
                Some(s.last())
            } else {
                Some(b)
            },
        }
    }
}

/// The leftmost name that starts on the row, at the column or behind it.
pub fn first_identifier_on_line(p: &ParsedFile, row: usize, col: usize) -> (r: Option<usize>)
    ensures
        match r {
            Some(i) => leftmost(p.tree(), names_on_row(p.tree(), row as int, col as int, 0)) == Some(i as int) && i
                < p.nodes@.len(),
            None => leftmost(p.tree(), names_on_row(p.tree(), row as int, col as int, 0)) is None,
        },
{
    let ghost t = p.tree();
    let ghost all = names_on_row(t, row as int, col as int, 0);
    let ghost mut seen: Seq<int> = Seq::empty();
    let n: usize = p.nodes.len();
    let mut best: Option<usize> = None;
    let mut j: usize = 0;
    while j < n
        invariant
            j <= n,
            n == p.nodes@.len(),
            t == p.tree(),
            all == seen + names_on_row(t, row as int, col as int, j as int),
            match best {
                Some(b) => leftmost(t, seen) == Some(b as int) && b < n,
                None => leftmost(t, seen) is None,
            },
        decreases n - j,
    {
        let node = &p.nodes[j];
        assert(t[j as int] == node.text());
        if node.row > row || node.end_row < row || (j > 0 && !node.named) {
            j = skip_below(p, j);
        } else if has_text(&node.kind, "identifier") && node.row == row && node.col >= col {
            proof {
                assert(all == seen.push(j as int) + names_on_row(
                    t,
                    row as int,
                    col as int,
                    below_end(t, t[j as int].depth, j + 1),
                )) by {
                    lemma_below_end(t, t[j as int].depth, j + 1);
                }
                assert(seen.push(j as int).drop_last() == seen);
                seen = seen.push(j as int);
            }
            let better = match best {
                Some(b) => {
                    assert(t[b as int] == p.nodes@[b as int].text());
                    node.col <= p.nodes[b].col
                },
                None => true,
            };
            if better {
                best = Some(j);
            }
            j = skip_below(p, j);
        } else {
            j = j + 1;
        }
    }
    assert(names_on_row(t, row as int, col as int, j as int) == Seq::<int>::empty());
    assert(all == seen);
    best
}

/// The name that the cursor is on, or the first behind it on its line.
pub open spec fn name_at(
    g: Grammar,
    t: Seq<NodeText>,
    src: Seq<char>,
    lines: Seq<Seq<char>>,
    c: Cursor,
) -> Option<int> {
    if c.line >= lines.len() {
        None
    } else {
        let line = lines[c.line as int];
        let col = text_bytes(line.take(if c.col < line.len() {
            c.col as int
        } else {
            line.len() as int
        }));
        let under = match node_under(grammar_index(g) as int, src, c.line as int, col) {
            Some(key) => match keyed_node(t, key, 0) {
                Some(i) => widened(t, i, c.line as int),
                None => None,
            },
            None => None,
        };
        match under {
            Some(i) => Some(i),
            None => leftmost(t, names_on_row(t, c.line as int, col, 0)),
        }
    }
}

pub fn identifier_at(p: &ParsedFile, lines: &[String], cursor: Cursor) -> (r: Option<usize>)
    ensures
        match r {
            Some(i) => name_at(p.grammar, p.tree(), p.src@, texts(lines@), cursor) == Some(i as int) && i
                < p.nodes@.len(),
            None => name_at(p.grammar, p.tree(), p.src@, texts(lines@), cursor) is None,
        },
{
    if cursor.line >= lines.len() {
        return None;
    }
    assert(texts(lines@)[cursor.line as int] == lines@[cursor.line as int]@);
    let col: usize = char_byte(&lines[cursor.line], cursor.col);
    let l = language(grammar_index(p.grammar));
    if let Some(key) = node_at(&l, &p.src, cursor.line, col) {
        if let Some(i) = find_node(p, &key) {
            if let Some(j) = widen(p, i, cursor.line) {
                return Some(j);
            }
        }
    }
    first_identifier_on_line(p, cursor.line, col)
}

/// The names below node `i`, from `j` on, quoted text left out, in order.
pub open spec fn names_below(t: Seq<NodeText>, src: Seq<char>, i: int, j: int) -> Seq<Seq<char>>
    decreases t.len() - j,
    when 0 <= i <= j
{
    if j >= t.len() || (j > i && t[j].depth <= t[i].depth) {
        Seq::empty()
    } else if j > i && !t[j].named {
        proof {
            lemma_below_end(t, t[j].depth, j + 1);
        }
        names_below(t, src, i, below_end(t, t[j].depth, j + 1))
    } else if contains_text(t[j].kind, "identifier"@) {
        seq![text_of(t[j], src)] + names_below(t, src, i, j + 1)
    } else {
        names_below(t, src, i, j + 1)
    }
}

/// The names at and below a node.
pub fn subtree_names(p: &ParsedFile, i: usize) -> (r: Vec<String>)
    requires
        i < p.nodes@.len(),
    ensures
        texts(r@) == names_below(p.tree(), p.src@, i as int, i as int),
{
    let ghost t = p.tree();
    let ghost all = names_below(t, p.src@, i as int, i as int);
    let depth = p.nodes[i].depth;
    let n: usize = p.nodes.len();
    assert(t[i as int].depth == depth);
    let mut out: Vec<String> = Vec::new();
    let mut j: usize = i;
    assert(all == texts(out@) + names_below(t, p.src@, i as int, j as int));
    while j < n && !(j > i && p.nodes[j].depth <= depth)
        invariant
            i <= j <= n,
            n == p.nodes@.len(),
            t == p.tree(),
            depth == t[i as int].depth,
            all == texts(out@) + names_below(t, p.src@, i as int, j as int),
        decreases n - j,
    {
        let node = &p.nodes[j];
        assert(t[j as int] == node.text());
        if j > i && !node.named {
            j = skip_below(p, j);
        } else {
            if has_text(&node.kind, "identifier") {
                let ghost had = texts(out@);
                let name = node_text(node, &p.src);
                out.push(name);
                assert(texts(out@) == had.push(name@));
                assert(had + (seq![name@] + names_below(t, p.src@, i as int, j + 1)) == had.push(name@)
                    + names_below(t, p.src@, i as int, j + 1));
            }
            j = j + 1;
        }
    }
    proof {
        if j < n {
            assert(t[j as int].depth == p.nodes@[j as int].depth);
        }
        assert(names_below(t, p.src@, i as int, j as int) == Seq::<Seq<char>>::empty());
        assert(all == texts(out@));
    }
    out
}

/// The nearest node above node `i` of one of the kinds.
pub open spec fn definition_above(t: Seq<NodeText>, kinds: Seq<Seq<char>>, i: int) -> Option<int>
    decreases i,
{
    match parent_of(t, i) {
        Some(p) => if !(0 <= p < i) {
            None
        } else if kinds.contains(t[p].kind) {
            Some(p)
        } else {
            definition_above(t, kinds, p)
        },
        None => None,
    }
}

fn enclosing_definition(p: &ParsedFile, kinds: &[String], i: usize) -> (r: Option<usize>)
    requires
        i < p.nodes@.len(),
    ensures
        match r {
            Some(j) => definition_above(p.tree(), texts(kinds@), i as int) == Some(j as int) && j < p.nodes@.len(),
            None => definition_above(p.tree(), texts(kinds@), i as int) is None,
        },
    decreases i,
{
    match parent(p, i) {
        Some(q) => {
            assert(p.tree()[q as int] == p.nodes@[q as int].text());
            if holds(kinds, &p.nodes[q].kind) {
                Some(q)
            } else {
                enclosing_definition(p, kinds, q)
            }
        },
        None => None,
    }
}

/// The definition that node `i` names a parameter of, if it does.
pub open spec fn owner_of(t: Seq<NodeText>, src: Seq<char>, kinds: Seq<Seq<char>>, i: int) -> Option<Seq<char>> {
    match definition_above(t, kinds, i) {
        None => None,
        Some(d) => match child_named(t, d, "parameters"@) {
            None => None,
            Some(params) => if !names_below(t, src, params, params).contains(text_of(t[i], src)) {
                None
            } else {
                match child_named(t, d, "name"@) {
                    Some(c) => Some(text_of(t[c], src)),
                    None => match child_named(t, d, "declarator"@) {
                        Some(c) => Some(text_of(t[c], src)),
                        None => None,
                    },
                }
            },
        },
    }
}

pub fn parameter_owner(p: &ParsedFile, i: usize, kinds: &[String]) -> (r: Option<String>)
    requires
        i < p.nodes@.len(),
    ensures
        option_text(r) == owner_of(p.tree(), p.src@, texts(kinds@), i as int),
{
    assert(p.tree()[i as int] == p.nodes@[i as int].text());
    let name = node_text(&p.nodes[i], &p.src);
    let d = match enclosing_definition(p, kinds, i) {
        Some(d) => d,
        None => {
            return None;
        },
    };
    let params = match child_by_field_name(p, d, "parameters") {
        Some(c) => c,
        None => {
            return None;
        },
    };
    let names = subtree_names(p, params);
    if !holds(&names, &name) {
        return None;
    }
    let owner = match child_by_field_name(p, d, "name") {
        Some(c) => Some(c),
        None => child_by_field_name(p, d, "declarator"),
    };
    match owner {
        Some(c) => {
            assert(p.tree()[c as int] == p.nodes@[c as int].text());
            Some(node_text(&p.nodes[c], &p.src))
        },
        None => None,
    }
}

/// The place of a name in the lines, where it stands on one of them.
pub open spec fn occurrence(n: NodeText, src: Seq<char>, name: Seq<char>, lines: Seq<Seq<char>>) -> Option<Match> {
    if contains_text(n.kind, "identifier"@) && text_of(n, src) == name && n.row == n.end_row && 0 <= n.row
        < lines.len() {
        Some(
            (
                n.row as usize,
                chars_before(lines[n.row], n.col, 0) as usize,
                chars_before(lines[n.row], n.end_col, 0) as usize,
            ),
        )
    } else {
        None
    }
}

/// The places of a name among the first `k` nodes, in order.
pub open spec fn occurrences(t: Seq<NodeText>, src: Seq<char>, name: Seq<char>, lines: Seq<Seq<char>>, k: int) -> Seq<
    Match,
>
    decreases k,
{
    if k <= 0 {
        Seq::empty()
    } else {
        let before = occurrences(t, src, name, lines, k - 1);
        match occurrence(t[k - 1], src, name, lines) {
            Some(m) => before.push(m),
            None => before,
        }
    }
}

/// Whether one match comes no later than another.
pub open spec fn match_le(a: Match, b: Match) -> bool {
    a.0 < b.0 || (a.0 == b.0 && (a.1 < b.1 || (a.1 == b.1 && a.2 <= b.2)))
}

pub open spec fn in_order(v: Seq<Match>) -> bool {
    forall|i: int, j: int| 0 <= i <= j < v.len() ==> match_le(#[trigger] v[i], #[trigger] v[j])
}

fn insert_match(v: &mut Vec<Match>, m: Match)
    requires
        in_order(old(v)@),
    ensures
        in_order(final(v)@),
        final(v)@.to_multiset() == old(v)@.to_multiset().insert(m),
{
    let ghost before = v@;
    let mut i: usize = v.len();
    while i > 0 && !(v[i - 1].0 < m.0 || (v[i - 1].0 == m.0 && (v[i - 1].1 < m.1 || (v[i - 1].1 == m.1
        && v[i - 1].2 <= m.2))))
        invariant
            v@ == before,
            i <= v@.len(),
            in_order(v@),
            forall|k: int| i <= k < v@.len() ==> match_le(m, #[trigger] v@[k]),
        decreases i,
    {
        i = i - 1;
    }
    v.insert(i, m);
    proof {
        before.to_multiset_ensures();
        assert(v@ == before.insert(i as int, m));
        lemma_insert_multiset(before, i as int, m);
    }
}

proof fn lemma_insert_multiset(s: Seq<Match>, i: int, m: Match)
    requires
        0 <= i <= s.len(),
    ensures
        s.insert(i, m).to_multiset() == s.to_multiset().insert(m),
{
    broadcast use vstd::seq_lib::group_to_multiset_ensures;

    assert(s.insert(i, m) == s.take(i).push(m) + s.skip(i));
    assert(s == s.take(i) + s.skip(i));
    vstd::seq_lib::lemma_multiset_commutative(s.take(i).push(m), s.skip(i));
    vstd::seq_lib::lemma_multiset_commutative(s.take(i), s.skip(i));
    assert(s.insert(i, m).to_multiset() =~= s.to_multiset().insert(m));
}

/// Every occurrence of a name as a name, in document order: no text scan, so a
/// longer name that holds it is none.
pub fn symbol_matches(p: &ParsedFile, name: &str, lines: &[String]) -> (r: Vec<Match>)
    ensures
        in_order(r@),
        r@.to_multiset() == occurrences(
            p.tree(),
            p.src@,
            name@,
            texts(lines@),
            p.nodes@.len() as int,
        ).to_multiset(),
        forall|k: int|
            0 <= k < r@.len() ==> (#[trigger] r@[k]).0 < lines@.len() && r@[k].1 <= lines@[r@[k].0 as int]@.len(),
{
    broadcast use vstd::seq_lib::group_to_multiset_ensures;

    let ghost t = p.tree();
    let ghost ls = texts(lines@);
    let mut out: Vec<Match> = Vec::new();
    for k in 0..p.nodes.len()
        invariant
            t == p.tree(),
            ls == texts(lines@),
            in_order(out@),
            out@.to_multiset() == occurrences(t, p.src@, name@, ls, k as int).to_multiset(),
            forall|m: Match| #[trigger]
                out@.to_multiset().contains(m) ==> m.0 < lines@.len() && m.1 <= lines@[m.0 as int]@.len(),
    {
        let node = &p.nodes[k];
        assert(t[k as int] == node.text());
        if has_text(&node.kind, "identifier") && same(&node_text(node, &p.src), name) && node.row == node.end_row
            && node.row < lines.len() {
            assert(ls[node.row as int] == lines@[node.row as int]@);
            let line = &lines[node.row];
            let m: Match = (
                node.row,
                byte_to_char_col(line, node.col),
                byte_to_char_col(line, node.end_col),
            );
            assert(occurrence(t[k as int], p.src@, name@, ls) == Some(m));
            proof {
                let seen = occurrences(t, p.src@, name@, ls, k as int);
                assert(occurrences(t, p.src@, name@, ls, k + 1) == seen.push(m));
                seen.to_multiset_ensures();
            }
            let ghost had = out@.to_multiset();
            insert_match(&mut out, m);
            assert forall|x: Match| #[trigger] out@.to_multiset().contains(x) implies x.0 < lines@.len() && x.1
                <= lines@[x.0 as int]@.len() by {
                if x != m {
                    assert(had.contains(x));
                }
            }
        } else {
            assert(occurrence(t[k as int], p.src@, name@, ls) is None);
            assert(occurrences(t, p.src@, name@, ls, k + 1) == occurrences(t, p.src@, name@, ls, k as int));
        }
    }
    assert forall|k: int| 0 <= k < out@.len() implies (#[trigger] out@[k]).0 < lines@.len() && out@[k].1
        <= lines@[out@[k].0 as int]@.len() by {
        assert(out@.contains(out@[k]));
        assert(out@.to_multiset().contains(out@[k]));
    }
    out
}

} // verus!
