//! Syntax highlighting: from the events that the highlighter reports to
//! coloured runs of text, line by line.

use crate::code_view::LineSpans;
use crate::editor::{distinct, distinct_of};
use crate::grammar::{
    fence_ext, fence_extension, fence_word, grammar_for, grammar_index, highlight_query, highlight_spec, language,
    language_place, query_of, Grammar,
};
use crate::paths::{suffix, suffix_of};
use crate::syntax::{byte_slice, captures, query_captures, slice_bytes};
use crate::text::{char_from, lemma_char_from, same, split_on, split_text, texts};
use crate::theme::{Color, Role, Syntax};
use vstd::prelude::*;

verus! {

/// The capture names that are coloured, in the order in which the highlighter
/// numbers them.
pub open spec fn capture_names() -> Seq<Seq<char>> {
    seq![
        "attribute"@,
        "boolean"@,
        "comment"@,
        "constant"@,
        "constant.builtin"@,
        "constructor"@,
        "escape"@,
        "function"@,
        "function.builtin"@,
        "function.method"@,
        "keyword"@,
        "label"@,
        "number"@,
        "operator"@,
        "property"@,
        "punctuation"@,
        "punctuation.bracket"@,
        "punctuation.delimiter"@,
        "punctuation.special"@,
        "string"@,
        "string.escape"@,
        "string.special"@,
        "tag"@,
        "text.emphasis"@,
        "text.literal"@,
        "text.reference"@,
        "text.strong"@,
        "text.title"@,
        "text.uri"@,
        "type"@,
        "type.builtin"@,
        "variable"@,
        "variable.builtin"@,
        "variable.parameter"@,
    ]
}

/// The role of each of those captures.
pub open spec fn capture_roles() -> Seq<Role> {
    seq![
        Role::Attribute,
        Role::Number,
        Role::Comment,
        Role::Number,
        Role::Number,
        Role::Type,
        Role::Number,
        Role::Function,
        Role::Function,
        Role::Function,
        Role::Keyword,
        Role::Attribute,
        Role::Number,
        Role::Operator,
        Role::Property,
        Role::Operator,
        Role::Operator,
        Role::Operator,
        Role::Operator,
        Role::Str,
        Role::Number,
        Role::Str,
        Role::Attribute,
        Role::Keyword,
        Role::Str,
        Role::Property,
        Role::Keyword,
        Role::Function,
        Role::Property,
        Role::Type,
        Role::Type,
        Role::Variable,
        Role::Builtin,
        Role::Param,
    ]
}

fn recognized_names() -> (r: Vec<String>)
    ensures
        texts(r@) == capture_names(),
{
    let names = [
            "attribute",
            "boolean",
            "comment",
            "constant",
            "constant.builtin",
            "constructor",
            "escape",
            "function",
            "function.builtin",
            "function.method",
            "keyword",
            "label",
            "number",
            "operator",
            "property",
            "punctuation",
            "punctuation.bracket",
            "punctuation.delimiter",
            "punctuation.special",
            "string",
            "string.escape",
            "string.special",
            "tag",
            "text.emphasis",
            "text.literal",
            "text.reference",
            "text.strong",
            "text.title",
            "text.uri",
            "type",
            "type.builtin",
            "variable",
            "variable.builtin",
            "variable.parameter",
    ];
    let mut out: Vec<String> = Vec::new();
    for i in 0..34
        invariant
            out@.len() == i,
            forall|k: int| 0 <= k < i ==> (#[trigger] out@[k])@ == names@[k]@,
    {
        out.push(names[i].to_owned());
    }
    assert(texts(out@) =~= capture_names());
    out
}

/// The colour of the capture with a number.
pub open spec fn capture_color(h: int, syn: Syntax) -> Color {
    if 0 <= h < capture_roles().len() {
        syn.of(capture_roles()[h])
    } else {
        syn.variable
    }
}

fn color_of(h: usize, syn: &Syntax) -> (r: Color)
    ensures
        r == capture_color(h as int, *syn),
{
    let roles = [
        Role::Attribute,
        Role::Number,
        Role::Comment,
        Role::Number,
        Role::Number,
        Role::Type,
        Role::Number,
        Role::Function,
        Role::Function,
        Role::Function,
        Role::Keyword,
        Role::Attribute,
        Role::Number,
        Role::Operator,
        Role::Property,
        Role::Operator,
        Role::Operator,
        Role::Operator,
        Role::Operator,
        Role::Str,
        Role::Number,
        Role::Str,
        Role::Attribute,
        Role::Keyword,
        Role::Str,
        Role::Property,
        Role::Keyword,
        Role::Function,
        Role::Property,
        Role::Type,
        Role::Type,
        Role::Variable,
        Role::Builtin,
        Role::Param,
    ];
    assert(roles@ =~= capture_roles());
    if h < 34 {
        syn.of(roles[h])
    } else {
        syn.variable
    }
}

/// What the highlighter reports.
#[derive(Clone, Copy, PartialEq, Eq, Debug, Structural)]
pub enum HlEvent {
    /// a capture opens, by its number
    Start(usize),
    End,
    /// text, from one byte to another
    Source(usize, usize),
}

#[verifier::external_type_specification]
#[verifier::external_body]
pub struct ExHighlightConfiguration(tree_sitter_highlight::HighlightConfiguration);

/// What a highlighter is set up with.
pub ghost struct ConfigText {
    /// the place of the language in the table
    pub place: int,
    pub name: Seq<char>,
    pub query: Seq<char>,
    pub injections: Seq<char>,
    pub names: Seq<Seq<char>>,
}

/// Whether the queries of a set-up fit its language.
pub uninterp spec fn config_fits(c: ConfigText) -> bool;

/// What a highlighter was set up with.
pub uninterp spec fn config_of(c: tree_sitter_highlight::HighlightConfiguration) -> ConfigText;

/// The events that a highlighter reports on a text, given the set-ups for the
/// languages inside it by name; none where it fails.
pub uninterp spec fn highlight_events(
    c: ConfigText,
    src: Seq<char>,
    inside: Seq<(Seq<char>, ConfigText)>,
) -> Option<Seq<HlEvent>>;

pub open spec fn inside_texts(v: Seq<(String, tree_sitter_highlight::HighlightConfiguration)>) -> Seq<
    (Seq<char>, ConfigText),
> {
    Seq::new(v.len(), |i: int| (v[i].0@, config_of(v[i].1)))
}

/// `tree_sitter_highlight::HighlightConfiguration::new` and `configure`: a
/// set-up, unless a query does not fit the language. Which queries fit is left
/// to the crate.
#[verifier::external_body]
fn set_up(l: tree_sitter::Language, name: &str, query: &str, injections: &str, names: &[String]) -> (r: Option<
    tree_sitter_highlight::HighlightConfiguration,
>)
    ensures
        ({
            let c = ConfigText {
                place: language_place(l),
                name: name@,
                query: query@,
                injections: injections@,
                names: texts(names@),
            };
            match r {
                Some(h) => config_fits(c) && config_of(h) == c,
                None => !config_fits(c),
            }
        }),
{
    let mut c = tree_sitter_highlight::HighlightConfiguration::new(l, name, query, injections, "").ok()?;
    c.configure(names);
    Some(c)
}

/// The set-up for a language inside a text, by name.
fn pick<'a>(inside: &'a Vec<(String, tree_sitter_highlight::HighlightConfiguration)>, name: &str) -> (r: Option<
    &'a tree_sitter_highlight::HighlightConfiguration,
>)
    ensures
        match r {
            Some(c) => exists|i: int|
                0 <= i < inside@.len() && (#[trigger] inside@[i]).0@ == name@ && inside@[i].1 == *c && forall|k: int|
                    0 <= k < i ==> (#[trigger] inside@[k]).0@ != name@,
            None => forall|k: int| 0 <= k < inside@.len() ==> (#[trigger] inside@[k]).0@ != name@,
        },
{
    for i in 0..inside.len()
        invariant
            forall|k: int| 0 <= k < i ==> (#[trigger] inside@[k]).0@ != name@,
    {
        if same(&inside[i].0, name) {
            assert(inside@[i as int].0@ == name@);
            return Some(&inside[i].1);
        }
    }
    None
}

/// `tree_sitter_highlight::Highlighter::highlight`: the events on a text. What
/// they are is left to the crate; the first set-up of a name serves the texts in
/// that language inside it.
#[verifier::external_body]
fn report(
    c: &tree_sitter_highlight::HighlightConfiguration,
    src: &str,
    inside: &Vec<(String, tree_sitter_highlight::HighlightConfiguration)>,
) -> (r: Option<Vec<HlEvent>>)
    ensures
        match r {
            Some(v) => highlight_events(config_of(*c), src@, inside_texts(inside@)) == Some(v@),
            None => highlight_events(config_of(*c), src@, inside_texts(inside@)) is None,
        },
{
    let mut h = tree_sitter_highlight::Highlighter::new();
    let events = h.highlight(c, src.as_bytes(), None, None, |name| pick(inside, name)).ok()?;
    events.map(|e| Some(match e.ok()? {
        tree_sitter_highlight::HighlightEvent::HighlightStart(h) => HlEvent::Start(h.0),
        tree_sitter_highlight::HighlightEvent::HighlightEnd => HlEvent::End,
        tree_sitter_highlight::HighlightEvent::Source { start, end } => HlEvent::Source(start, end),
    })).collect()
}

/// The query that finds the languages of fenced blocks.
pub open spec fn fence_query() -> Seq<char> {
    "(fenced_code_block (info_string (language) @lang))"@
}

/// The languages that the fenced blocks of a markdown text name, each once.
pub open spec fn fence_languages(src: Seq<char>) -> Seq<Seq<char>> {
    match query_captures(grammar_index(Grammar::Markdown) as int, src, fence_query()) {
        Some(v) => distinct(v),
        None => Seq::empty(),
    }
}

pub fn md_fence_languages(src: &str) -> (r: Vec<String>)
    ensures
        texts(r@) == fence_languages(src@),
{
    match captures(
        &language(grammar_index(Grammar::Markdown)),
        src,
        "(fenced_code_block (info_string (language) @lang))",
    ) {
        Some(v) => distinct_of(&v),
        None => {
            let none: Vec<String> = Vec::new();
            assert(texts(none@) == Seq::<Seq<char>>::empty());
            none
        },
    }
}

/// What markdown hands to other grammars: its inline text, and the body of a
/// fenced block to the language that the fence names. Both are handed over with
/// their children, or the grammars would see gaps.
pub open spec fn markdown_injections() -> Seq<char> {
    "\n((inline) @injection.content\n (#set! injection.language \"markdown_inline\")\n (#set! injection.include-children))\n\n(fenced_code_block\n  (info_string (language) @injection.language)\n  (code_fence_content) @injection.content\n  (#set! injection.include-children))\n"@
}

/// Whether a file is markdown.
pub open spec fn is_markdown(path: Seq<char>) -> bool {
    suffix_of(path) == "md"@ || suffix_of(path) == "markdown"@
}

/// The set-up for a grammar.
pub open spec fn setup(g: Grammar, name: Seq<char>, injections: Seq<char>) -> ConfigText {
    ConfigText {
        place: grammar_index(g) as int,
        name,
        query: query_of(g),
        injections,
        names: capture_names(),
    }
}

pub open spec fn base_setup(g: Grammar, path: Seq<char>) -> ConfigText {
    setup(
        g,
        path,
        if is_markdown(path) {
            markdown_injections()
        } else {
            ""@
        },
    )
}

/// Whether a name is among those that have a set-up.
pub open spec fn has_setup(v: Seq<(Seq<char>, ConfigText)>, name: Seq<char>) -> bool {
    exists|i: int| 0 <= i < v.len() && (#[trigger] v[i]).0 == name
}

/// The set-ups with that of one more fence language, where there is one.
pub open spec fn with_language(v: Seq<(Seq<char>, ConfigText)>, lang: Seq<char>) -> Seq<(Seq<char>, ConfigText)> {
    if has_setup(v, lang) {
        v
    } else {
        match fence_extension(fence_word(lang)) {
            None => v,
            Some(ext) => match grammar_for("x."@ + ext) {
                None => v,
                Some(g) => if config_fits(setup(g, lang, ""@)) {
                    v.push((lang, setup(g, lang, ""@)))
                } else {
                    v
                },
            },
        }
    }
}

pub open spec fn with_languages(v: Seq<(Seq<char>, ConfigText)>, langs: Seq<Seq<char>>) -> Seq<
    (Seq<char>, ConfigText),
>
    decreases langs.len(),
{
    if langs.len() == 0 {
        v
    } else {
        with_language(with_languages(v, langs.drop_last()), langs.last())
    }
}

/// The set-ups for the languages inside a file.
pub open spec fn setups_inside(path: Seq<char>, src: Seq<char>) -> Seq<(Seq<char>, ConfigText)> {
    if is_markdown(path) {
        let inline = setup(Grammar::MarkdownInline, path, ""@);
        with_languages(
            if config_fits(inline) {
                seq![("markdown_inline"@, inline)]
            } else {
                Seq::empty()
            },
            fence_languages(src),
        )
    } else {
        Seq::empty()
    }
}

fn knows(v: &Vec<(String, tree_sitter_highlight::HighlightConfiguration)>, name: &str) -> (r: bool)
    ensures
        r == has_setup(inside_texts(v@), name@),
{
    for i in 0..v.len()
        invariant
            forall|k: int| 0 <= k < i ==> (#[trigger] inside_texts(v@)[k]).0 != name@,
    {
        if same(&v[i].0, name) {
            assert(inside_texts(v@)[i as int].0 == name@);
            return true;
        }
    }
    false
}

fn add_language(
    v: &mut Vec<(String, tree_sitter_highlight::HighlightConfiguration)>,
    lang: &str,
    names: &[String],
)
    requires
        texts(names@) == capture_names(),
    ensures
        inside_texts(final(v)@) == with_language(inside_texts(old(v)@), lang@),
{
    let ghost before = inside_texts(v@);
    if knows(v, lang) {
        return;
    }
    if let Some(ext) = fence_ext(lang) {
        let file = "x.".to_owned().concat(ext);
        if let Some((g, query)) = highlight_spec(&file) {
            if let Some(c) = set_up(language(grammar_index(g)), lang, &query, "", names) {
                v.push((lang.to_owned(), c));
                assert(inside_texts(v@) == before.push((lang@, setup(g, lang@, ""@))));
            }
        }
    }
}

fn set_up_inside(path: &str, src: &str, names: &[String]) -> (r: Vec<
    (String, tree_sitter_highlight::HighlightConfiguration),
>)
    requires
        texts(names@) == capture_names(),
    ensures
        inside_texts(r@) == setups_inside(path@, src@),
{
    let mut v: Vec<(String, tree_sitter_highlight::HighlightConfiguration)> = Vec::new();
    let ext = suffix(path);
    assert(inside_texts(v@) == Seq::<(Seq<char>, ConfigText)>::empty());
    if !(same(&ext, "md") || same(&ext, "markdown")) {
        return v;
    }
    let inline = set_up(
        language(grammar_index(Grammar::MarkdownInline)),
        path,
        &highlight_query(Grammar::MarkdownInline),
        "",
        names,
    );
    if let Some(c) = inline {
        v.push(("markdown_inline".to_owned(), c));
        assert(inside_texts(v@) == seq![
            ("markdown_inline"@, setup(Grammar::MarkdownInline, path@, ""@)),
        ]);
    }
    let ghost start = inside_texts(v@);
    let langs = md_fence_languages(src);
    let ghost all = texts(langs@);
    for i in 0..langs.len()
        invariant
            all == texts(langs@),
            texts(names@) == capture_names(),
            inside_texts(v@) == with_languages(start, all.take(i as int)),
    {
        assert(all.take(i + 1).drop_last() == all.take(i as int));
        assert(all.take(i + 1).last() == langs@[i as int]@);
        add_language(&mut v, &langs[i], names);
    }
    assert(all.take(langs@.len() as int) == all);
    v
}

/// Coloured lines, and the colours of the captures that are open.
pub ghost struct Painted {
    pub lines: Seq<Seq<(Seq<char>, Color)>>,
    pub open: Seq<Color>,
}

/// Lines with a piece of text more on the last of them.
pub open spec fn with_piece(lines: Seq<Seq<(Seq<char>, Color)>>, piece: Seq<char>, color: Color) -> Seq<
    Seq<(Seq<char>, Color)>,
> {
    if piece.len() == 0 || lines.len() == 0 {
        lines
    } else {
        lines.update(lines.len() - 1, lines.last().push((piece, color)))
    }
}

/// Lines with the first `n` pieces of a text more: the first on the last line,
/// each other on a line of its own.
pub open spec fn with_pieces(lines: Seq<Seq<(Seq<char>, Color)>>, pieces: Seq<Seq<char>>, color: Color, n: int) -> Seq<
    Seq<(Seq<char>, Color)>,
>
    decreases n,
{
    if n <= 0 {
        lines
    } else if n == 1 {
        with_piece(lines, pieces[0], color)
    } else {
        with_piece(
            with_pieces(lines, pieces, color, n - 1).push(Seq::empty()),
            pieces[n - 1],
            color,
        )
    }
}

pub open spec fn open_color(p: Painted, syn: Syntax) -> Color {
    if p.open.len() > 0 {
        p.open.last()
    } else {
        syn.variable
    }
}

/// What an event adds.
pub open spec fn event_painted(p: Painted, e: HlEvent, src: Seq<char>, syn: Syntax) -> Painted {
    match e {
        HlEvent::Start(h) => Painted { open: p.open.push(capture_color(h as int, syn)), ..p },
        HlEvent::End => Painted {
            open: if p.open.len() > 0 {
                p.open.drop_last()
            } else {
                p.open
            },
            ..p
        },
        HlEvent::Source(start, end) => {
            let pieces = split_on(byte_slice(src, start as int, end as int), '\n');
            Painted { lines: with_pieces(p.lines, pieces, open_color(p, syn), pieces.len() as int), ..p }
        },
    }
}

pub open spec fn painted(events: Seq<HlEvent>, src: Seq<char>, syn: Syntax) -> Painted
    decreases events.len(),
{
    if events.len() == 0 {
        Painted { lines: seq![Seq::empty()], open: Seq::empty() }
    } else {
        event_painted(painted(events.drop_last(), src, syn), events.last(), src, syn)
    }
}

pub open spec fn run_texts(line: Seq<(String, Color)>) -> Seq<(Seq<char>, Color)> {
    Seq::new(line.len(), |i: int| (line[i].0@, line[i].1))
}

pub open spec fn line_runs(lines: Seq<LineSpans>) -> Seq<Seq<(Seq<char>, Color)>> {
    Seq::new(lines.len(), |i: int| run_texts(lines[i]@))
}

fn add_piece(lines: &mut Vec<LineSpans>, piece: &str, color: Color)
    requires
        old(lines)@.len() > 0,
    ensures
        line_runs(final(lines)@) == with_piece(line_runs(old(lines)@), piece@, color),
        final(lines)@.len() == old(lines)@.len(),
{
    if piece.is_empty() {
        return;
    }
    let ghost before = line_runs(lines@);
    let last: usize = lines.len() - 1;
    let ghost had = lines@[last as int]@;
    lines[last].push((piece.to_owned(), color));
    assert(run_texts(lines@[last as int]@) == run_texts(had).push((piece@, color)));
    assert(line_runs(lines@) == before.update(last as int, before[last as int].push((piece@, color))));
}

fn add_pieces(lines: &mut Vec<LineSpans>, text: &str, color: Color)
    requires
        old(lines)@.len() > 0,
    ensures
        ({
            let pieces = split_on(text@, '\n');
            line_runs(final(lines)@) == with_pieces(line_runs(old(lines)@), pieces, color, pieces.len() as int)
        }),
        final(lines)@.len() > 0,
{
    let pieces = split_text(text, '\n');
    let ghost start = line_runs(lines@);
    let ghost ps = texts(pieces@);
    for i in 0..pieces.len()
        invariant
            ps == texts(pieces@),
            lines@.len() > 0,
            line_runs(lines@) == with_pieces(start, ps, color, i as int),
    {
        if i > 0 {
            let ghost had = line_runs(lines@);
            let fresh: LineSpans = Vec::new();
            assert(run_texts(fresh@) == Seq::<(Seq<char>, Color)>::empty());
            lines.push(fresh);
            assert(line_runs(lines@) == had.push(Seq::empty()));
        }
        assert(ps[i as int] == pieces@[i as int]@);
        add_piece(lines, &pieces[i], color);
    }
}

/// Turns the highlighter's events into coloured lines.
pub fn paint_events(events: &[HlEvent], src: &str, syn: &Syntax) -> (r: Vec<LineSpans>)
    ensures
        line_runs(r@) == painted(events@, src@, *syn).lines,
{
    let mut lines: Vec<LineSpans> = Vec::new();
    let first: LineSpans = Vec::new();
    assert(run_texts(first@) == Seq::<(Seq<char>, Color)>::empty());
    lines.push(first);
    let mut open: Vec<Color> = Vec::new();
    assert(line_runs(lines@) == painted(events@.take(0), src@, *syn).lines);
    for i in 0..events.len()
        invariant
            lines@.len() > 0,
            line_runs(lines@) == painted(events@.take(i as int), src@, *syn).lines,
            open@ == painted(events@.take(i as int), src@, *syn).open,
    {
        assert(events@.take(i + 1).drop_last() == events@.take(i as int));
        match events[i] {
            HlEvent::Start(h) => {
                open.push(color_of(h, syn));
            },
            HlEvent::End => {
                let ghost had = open@;
                let gone = open.pop();
                assert(open@ == (if had.len() > 0 {
                    had.drop_last()
                } else {
                    had
                }));
            },
            HlEvent::Source(start, end) => {
                let color = if open.len() > 0 {
                    open[open.len() - 1]
                } else {
                    syn.variable
                };
                add_pieces(&mut lines, &slice_bytes(src, start, end), color);
            },
        }
    }
    assert(events@.take(events@.len() as int) == events@);
    lines
}

/// The coloured lines of a file; none where no grammar reads it or its queries
/// do not fit.
pub open spec fn file_painted(path: Seq<char>, src: Seq<char>, syn: Syntax) -> Option<Seq<Seq<(Seq<char>, Color)>>> {
    match grammar_for(path) {
        None => None,
        Some(g) => if !config_fits(base_setup(g, path)) {
            None
        } else {
            match highlight_events(base_setup(g, path), src, setups_inside(path, src)) {
                None => None,
                Some(events) => Some(painted(events, src, syn).lines),
            }
        },
    }
}

/// Colours a file, line by line.
pub fn highlight_file(path: &str, src: &str, syn: &Syntax) -> (r: Option<Vec<LineSpans>>)
    ensures
        match r {
            Some(v) => file_painted(path@, src@, *syn) == Some(line_runs(v@)),
            None => file_painted(path@, src@, *syn) is None,
        },
{
    let (g, query) = match highlight_spec(path) {
        Some(s) => s,
        None => {
            return None;
        },
    };
    let names = recognized_names();
    let ext = suffix(path);
    let injections = if same(&ext, "md") || same(&ext, "markdown") {
        "\n((inline) @injection.content\n (#set! injection.language \"markdown_inline\")\n (#set! injection.include-children))\n\n(fenced_code_block\n  (info_string (language) @injection.language)\n  (code_fence_content) @injection.content\n  (#set! injection.include-children))\n"
    } else {
        ""
    };
    let base = match set_up(language(grammar_index(g)), path, &query, injections, &names) {
        Some(c) => c,
        None => {
            return None;
        },
    };
    let inside = set_up_inside(path, src, &names);
    match report(&base, src, &inside) {
        Some(events) => Some(paint_events(&events, src, syn)),
        None => None,
    }
}

/// The text of a coloured line.
pub open spec fn line_text(line: Seq<(Seq<char>, Color)>) -> Seq<char>
    decreases line.len(),
{
    if line.len() == 0 {
        Seq::empty()
    } else {
        line_text(line.drop_last()) + line.last().0
    }
}

/// The text of coloured lines, a line feed between each two.
pub open spec fn all_text(lines: Seq<Seq<(Seq<char>, Color)>>) -> Seq<char>
    decreases lines.len(),
{
    if lines.len() == 0 {
        Seq::empty()
    } else if lines.len() == 1 {
        line_text(lines[0])
    } else {
        all_text(lines.drop_last()).push('\n') + line_text(lines.last())
    }
}

/// The text that events report, one piece after the other.
pub open spec fn event_text(events: Seq<HlEvent>, src: Seq<char>) -> Seq<char>
    decreases events.len(),
{
    if events.len() == 0 {
        Seq::empty()
    } else {
        event_text(events.drop_last(), src) + (match events.last() {
            HlEvent::Source(start, end) => byte_slice(src, start as int, end as int),
            _ => Seq::empty(),
        })
    }
}

proof fn lemma_piece_text(lines: Seq<Seq<(Seq<char>, Color)>>, piece: Seq<char>, color: Color)
    requires
        lines.len() > 0,
    ensures
        all_text(with_piece(lines, piece, color)) == all_text(lines) + piece,
        with_piece(lines, piece, color).len() == lines.len(),
{
    let after = with_piece(lines, piece, color);
    if piece.len() > 0 {
        let n = lines.len() - 1;
        assert(after[n].drop_last() == lines[n]);
        assert(line_text(after[n]) == line_text(lines[n]) + piece);
        assert(after.drop_last() == lines.drop_last());
        assert(all_text(after) =~= all_text(lines) + piece);
    } else {
        assert(all_text(lines) + piece =~= all_text(lines));
    }
}

/// The first `n` pieces with a line feed between each two.
pub open spec fn pieces_text(pieces: Seq<Seq<char>>, n: int) -> Seq<char>
    decreases n,
{
    if n <= 0 {
        Seq::empty()
    } else if n == 1 {
        pieces[0]
    } else {
        pieces_text(pieces, n - 1).push('\n') + pieces[n - 1]
    }
}

proof fn lemma_pieces_text(lines: Seq<Seq<(Seq<char>, Color)>>, pieces: Seq<Seq<char>>, color: Color, n: int)
    requires
        lines.len() > 0,
        0 <= n <= pieces.len(),
    ensures
        all_text(with_pieces(lines, pieces, color, n)) == all_text(lines) + pieces_text(pieces, n),
        with_pieces(lines, pieces, color, n).len() > 0,
    decreases n,
{
    if n == 0 {
        assert(all_text(lines) + pieces_text(pieces, n) =~= all_text(lines));
    } else if n == 1 {
        lemma_piece_text(lines, pieces[0], color);
    } else {
        lemma_pieces_text(lines, pieces, color, n - 1);
        let before = with_pieces(lines, pieces, color, n - 1);
        let fresh = before.push(Seq::empty());
        assert(fresh.drop_last() == before);
        assert(line_text(fresh.last()) == Seq::<char>::empty());
        assert(all_text(fresh) =~= all_text(before).push('\n'));
        lemma_piece_text(fresh, pieces[n - 1], color);
        assert(all_text(lines) + pieces_text(pieces, n - 1).push('\n') + pieces[n - 1] =~= all_text(lines)
            + pieces_text(pieces, n));
        assert(all_text(before).push('\n') =~= all_text(lines) + pieces_text(pieces, n - 1).push('\n'));
    }
}

proof fn lemma_pieces_prepend(first: Seq<char>, rest: Seq<Seq<char>>, n: int)
    requires
        1 <= n <= rest.len(),
    ensures
        pieces_text(seq![first] + rest, n + 1) == first.push('\n') + pieces_text(rest, n),
    decreases n,
{
    let all = seq![first] + rest;
    if n == 1 {
        assert(pieces_text(all, 2) == pieces_text(all, 1).push('\n') + all[1]);
        assert(all[0] == first && all[1] == rest[0]);
    } else {
        lemma_pieces_prepend(first, rest, n - 1);
        assert(all[n] == rest[n - 1]);
        assert(pieces_text(all, n + 1) =~= first.push('\n') + pieces_text(rest, n));
    }
}

proof fn lemma_split_text(s: Seq<char>)
    ensures
        split_on(s, '\n').len() > 0,
        pieces_text(split_on(s, '\n'), split_on(s, '\n').len() as int) == s,
    decreases s.len(),
{
    let i = char_from(s, '\n', 0);
    lemma_char_from(s, '\n', 0);
    if 0 <= i < s.len() {
        let rest = s.skip(i + 1);
        lemma_split_text(rest);
        let pieces = split_on(rest, '\n');
        lemma_pieces_prepend(s.take(i), pieces, pieces.len() as int);
        assert(s[i] == '\n');
        assert(s.take(i).push('\n') + rest =~= s);
    }
}

proof fn lemma_painted_text(events: Seq<HlEvent>, src: Seq<char>, syn: Syntax)
    ensures
        all_text(painted(events, src, syn).lines) == event_text(events, src),
        painted(events, src, syn).lines.len() > 0,
    decreases events.len(),
{
    if events.len() > 0 {
        lemma_painted_text(events.drop_last(), src, syn);
        let p = painted(events.drop_last(), src, syn);
        match events.last() {
            HlEvent::Source(start, end) => {
                let s = byte_slice(src, start as int, end as int);
                lemma_split_text(s);
                let pieces = split_on(s, '\n');
                lemma_pieces_text(p.lines, pieces, open_color(p, syn), pieces.len() as int);
            },
            _ => {
                assert(event_text(events, src) =~= event_text(events.drop_last(), src));
            },
        }
    } else {
        let lines = seq![Seq::<(Seq<char>, Color)>::empty()];
        assert(line_text(lines[0]) == Seq::<char>::empty());
        assert(all_text(lines) =~= Seq::<char>::empty());
    }
}

/// Colouring adds no text and loses none: the coloured lines hold what the
/// highlighter reported, split at the line feeds.
pub proof fn law_highlighting_keeps_the_text(events: Seq<HlEvent>, src: Seq<char>, syn: Syntax)
    ensures
        all_text(painted(events, src, syn).lines) == event_text(events, src),
{
    lemma_painted_text(events, src, syn);
}

} // verus!
