//! Finding things in the selected file: text, symbols, and what is known of the
//! symbol under the cursor.

use crate::cursor::Cursor;
use crate::grammar::{grammar_for, grammar_index, grammar_of_path, Grammar};
use crate::search::{
    after_cursor, before_cursor, cycle_index, cycled, is_match, seek_backward, seek_forward, text_matches,
    text_occurrences, Match,
};
use crate::session::{
    lemma_file_bounds, lemma_line_fits, lemma_put_cursor, lemma_sel, put_cursor, show_cursor,
};
use crate::state::{file_fits, popup_text, prose_box, prose_popup, App, Prompt, Search, SearchKind};
use crate::syntax::{
    definition_kinds, def_kinds, doc_for, doc_of, defines, find_definition, first_definition, header_of,
    identifier_at, in_order, name_at, node_text, occurrences, owner_of, parameter_owner, parse, signature,
    symbol_matches, syntax_tree, text_of, NodeText, ParsedFile,
};
use crate::text::{join, joined, lines_of, split_lines, texts};
use vstd::prelude::*;

verus! {

/// The first match from `from` on behind the cursor; the first of all where
/// none is.
pub open spec fn next_match(ms: Seq<Match>, c: Cursor, inclusive: bool, from: int) -> int
    decreases ms.len() - from,
{
    if from >= ms.len() {
        0
    } else if after_cursor(ms[from], c, inclusive) {
        from
    } else {
        next_match(ms, c, inclusive, from + 1)
    }
}

/// The last match up to `from` before the cursor; the last of all where none is.
pub open spec fn previous_match(ms: Seq<Match>, c: Cursor, inclusive: bool, from: int) -> int
    decreases from + 1,
{
    if from < 0 {
        ms.len() - 1
    } else if before_cursor(ms[from], c, inclusive) {
        from
    } else {
        previous_match(ms, c, inclusive, from - 1)
    }
}

proof fn lemma_next_match(ms: Seq<Match>, c: Cursor, inclusive: bool, from: int, i: int)
    requires
        0 <= from <= i < ms.len(),
        after_cursor(ms[i], c, inclusive),
        forall|k: int| from <= k < i ==> !after_cursor(#[trigger] ms[k], c, inclusive),
    ensures
        next_match(ms, c, inclusive, from) == i,
    decreases i - from,
{
    if from < i {
        lemma_next_match(ms, c, inclusive, from + 1, i);
    }
}

proof fn lemma_no_next_match(ms: Seq<Match>, c: Cursor, inclusive: bool, from: int)
    requires
        0 <= from,
        forall|k: int| from <= k < ms.len() ==> !after_cursor(#[trigger] ms[k], c, inclusive),
    ensures
        next_match(ms, c, inclusive, from) == 0,
    decreases ms.len() - from,
{
    if from < ms.len() {
        lemma_no_next_match(ms, c, inclusive, from + 1);
    }
}

proof fn lemma_previous_match(ms: Seq<Match>, c: Cursor, inclusive: bool, from: int, i: int)
    requires
        0 <= i <= from < ms.len(),
        before_cursor(ms[i], c, inclusive),
        forall|k: int| i < k <= from ==> !before_cursor(#[trigger] ms[k], c, inclusive),
    ensures
        previous_match(ms, c, inclusive, from) == i,
    decreases from - i,
{
    if i < from {
        lemma_previous_match(ms, c, inclusive, from - 1, i);
    }
}

proof fn lemma_no_previous_match(ms: Seq<Match>, c: Cursor, inclusive: bool, from: int)
    requires
        from < ms.len(),
        forall|k: int| 0 <= k <= from ==> !before_cursor(#[trigger] ms[k], c, inclusive),
    ensures
        previous_match(ms, c, inclusive, from) == ms.len() - 1,
    decreases from + 1,
{
    if from >= 0 {
        lemma_no_previous_match(ms, c, inclusive, from - 1);
    }
}

/// Which match a search goes to.
pub open spec fn match_sought(ms: Seq<Match>, c: Cursor, forward: bool, inclusive: bool) -> int {
    if forward {
        next_match(ms, c, inclusive, 0)
    } else {
        previous_match(ms, c, inclusive, ms.len() - 1)
    }
}

/// The session with a search active, and the cursor on the match that it goes
/// to.
pub open spec fn searched(a: App, s: Search, forward: bool, inclusive: bool) -> App {
    if s.matches@.len() == 0 {
        App { search: Some(s), ..a }
    } else {
        let i = match_sought(s.matches@, a.cursor, forward, inclusive);
        let m = s.matches@[i];
        App {
            search: Some(Search { index: i as usize, ..s }),
            ..put_cursor(a, (Cursor { line: m.0, col: m.1 }))
        }
    }
}

/// Whether all the matches are in the selected file.
pub open spec fn all_found(a: App, ms: Seq<Match>) -> bool {
    forall|k: int| 0 <= k < ms.len() ==> a.found(#[trigger] ms[k])
}

/// A match in the selected file is a place in it.
proof fn lemma_found_placed(a: App, m: Match)
    requires
        a.items_wf(),
        a.found(m),
    ensures
        a.placed((Cursor { line: m.0, col: m.1 })),
{
    let f = a.sources@[a.path()];
    assert(file_fits(f));
    lemma_file_bounds(a.lines(), a.lines().len() as int);
    lemma_line_fits(a.lines(), m.0 as int);
}

/// Puts the cursor on the match that a search goes to, and keeps the search.
pub fn jump_search(app: &mut App, search: Search, forward: bool, inclusive: bool)
    requires
        old(app).wf(),
        all_found(*old(app), search.matches@),
        search.matches@.len() > 0 ==> search.index < search.matches@.len(),
    ensures
        *final(app) == searched(*old(app), search, forward, inclusive),
        final(app).wf(),
{
    let ghost start = *app;
    let ghost ms = search.matches@;
    let ghost c = app.cursor;
    let mut search = search;
    if search.matches.len() > 0 {
        let sought = if forward {
            seek_forward(&search.matches, app.cursor, inclusive)
        } else {
            seek_backward(&search.matches, app.cursor, inclusive)
        };
        let i: usize = match sought {
            Some(i) => i,
            None => 0,
        };
        proof {
            if forward {
                if exists|k: int| 0 <= k < ms.len() && after_cursor(#[trigger] ms[k], c, inclusive) {
                    lemma_next_match(ms, c, inclusive, 0, i as int);
                } else {
                    lemma_no_next_match(ms, c, inclusive, 0);
                }
            } else {
                if exists|k: int| 0 <= k < ms.len() && before_cursor(#[trigger] ms[k], c, inclusive) {
                    lemma_previous_match(ms, c, inclusive, ms.len() - 1, i as int);
                } else {
                    lemma_no_previous_match(ms, c, inclusive, ms.len() - 1);
                }
            }
            assert(start.found(ms[i as int]));
            lemma_found_placed(start, ms[i as int]);
        }
        search.index = i;
        let m = search.matches[i];
        proof {
            lemma_put_cursor(start, (Cursor { line: m.0, col: m.1 }));
        }
        show_cursor(app, Cursor { line: m.0, col: m.1 });
    }
    let ghost mid = *app;
    app.search = Some(search);
    proof {
        lemma_search_set(mid, *app);
    }
}

/// A search whose matches are in the selected file keeps the session in order.
proof fn lemma_search_set(a: App, b: App)
    requires
        a.wf(),
        b == (App { search: b.search, prompt: b.prompt, ..a }),
        b.prompt == a.prompt || b.prompt is None,
        match b.search {
            Some(s) => all_found(a, s.matches@) && (s.matches@.len() > 0 ==> s.index < s.matches@.len()),
            None => true,
        },
    ensures
        b.wf(),
{
    assert(b.path() == a.path());
    assert(b.lines() == a.lines());
    if let Some(s) = b.search {
        assert forall|k: int| 0 <= k < s.matches@.len() implies b.found(#[trigger] s.matches@[k]) by {
            assert(a.found(s.matches@[k]));
        }
    }
}

/// The session after the search went `dir` matches on.
pub open spec fn search_cycled(a: App, dir: int) -> App {
    match a.search {
        Some(s) => if s.matches@.len() == 0 {
            a
        } else {
            let i = cycled(s.index as int, s.matches@.len() as int, dir);
            let m = s.matches@[i];
            App {
                search: Some(Search { index: i as usize, ..s }),
                ..put_cursor(a, (Cursor { line: m.0, col: m.1 }))
            }
        },
        None => a,
    }
}

/// Goes to the next or the previous match, around the ends.
pub fn cycle_search(app: &mut App, dir: isize)
    requires
        old(app).wf(),
    ensures
        *final(app) == search_cycled(*old(app), dir as int),
        final(app).wf(),
{
    let ghost start = *app;
    if let Some(s) = app.search.take() {
        let mut s = s;
        let ghost ms = s.matches@;
        if s.matches.len() == 0 {
            app.search = Some(s);
            return;
        }
        let i: usize = cycle_index(s.index, s.matches.len(), dir);
        let m = s.matches[i];
        proof {
            assert(start.found(ms[i as int]));
            lemma_found_placed(start, m);
            lemma_put_cursor(start, (Cursor { line: m.0, col: m.1 }));
        }
        s.index = i;
        show_cursor(app, Cursor { line: m.0, col: m.1 });
        app.search = Some(s);
        proof {
            let mid = put_cursor(start, (Cursor { line: m.0, col: m.1 }));
            assert(mid.path() == start.path());
            assert(mid.lines() == start.lines());
            assert forall|k: int| 0 <= k < ms.len() implies mid.found(#[trigger] ms[k]) by {
                assert(start.found(ms[k]));
            }
            lemma_search_set(mid, *app);
        }
    }
}

/// Runs the search that the prompt holds: the cursor goes to the first match at
/// or behind it.
pub fn accept_search(app: &mut App)
    requires
        old(app).wf(),
    ensures
        match old(app).prompt {
            None => *final(app) == *old(app),
            Some(p) => final(app).search matches Some(s) && text_occurrences(
                old(app).lines(),
                p.text@,
                s.matches@,
            ) && *final(app) == searched(
                (App { prompt: None, ..*old(app) }),
                (Search { kind: SearchKind::Text, pattern: p.text, matches: s.matches, index: 0 }),
                true,
                true,
            ),
        },
        final(app).wf(),
{
    let ghost start = *app;
    proof {
        lemma_sel(start);
    }
    if let Some(p) = app.prompt.take() {
        let ghost mid = *app;
        proof {
            assert(mid == (App { prompt: None, ..start }));
            lemma_search_set(start, mid);
            assert(mid.lines() == start.lines());
        }
        let matches = match app.sources.get(&app.items[app.sel].path) {
            Some(file) => {
                assert(start.lines() == texts(file.1@));
                let ms = text_matches(&file.1, &p.text);
                assert(text_occurrences(texts(file.1@), p.text@, ms@));
                ms
            },
            None => {
                let none: Vec<Match> = Vec::new();
                assert(start.lines().len() == 0);
                assert(text_occurrences(start.lines(), p.text@, none@));
                none
            },
        };
        proof {
            let ms = matches@;
            assert forall|k: int| 0 <= k < ms.len() implies mid.found(#[trigger] ms[k]) by {
                assert(ms.contains(ms[k]));
                assert(is_match(start.lines(), p.text@, ms[k]));
            }
        }
        assert(text_occurrences(start.lines(), p.text@, matches@));
        let search = Search { kind: SearchKind::Text, pattern: p.text, matches, index: 0 };
        jump_search(app, search, true, true);
        assert(app.search->0.matches == search.matches);
    }
}

/// The session after the prompt was closed: the cursor is where it was.
pub open spec fn search_cancelled(a: App) -> App {
    match a.prompt {
        Some(p) => put_cursor((App { prompt: None, ..a }), p.anchor),
        None => a,
    }
}

/// Closes the prompt and puts the cursor back.
pub fn cancel_search(app: &mut App)
    requires
        old(app).wf(),
    ensures
        *final(app) == search_cancelled(*old(app)),
        final(app).wf(),
{
    let ghost start = *app;
    if let Some(p) = app.prompt.take() {
        let ghost mid = *app;
        proof {
            lemma_search_set(start, mid);
            assert(mid.path() == start.path());
            assert(mid.lines() == start.lines());
            assert(mid.placed(p.anchor));
            lemma_put_cursor(mid, p.anchor);
        }
        show_cursor(app, p.anchor);
    }
}

/// Cancelling a search right after the prompt was opened changes nothing but
/// what scrolling the cursor into view does.
pub proof fn law_cancelling_a_search_restores_the_cursor(a: App, p: Prompt)
    requires
        p.anchor == a.cursor,
        a.prompt is None,
    ensures
        search_cancelled((App { prompt: Some(p), ..a })) == put_cursor(a, a.cursor),
{
}

/// The text that a file's lines make.
pub open spec fn source_of(lines: Seq<Seq<char>>) -> Seq<char> {
    joined(lines, "\n"@)
}

/// The tree of the selected file, where a grammar reads it.
pub open spec fn tree_of(a: App) -> Option<(Grammar, Seq<NodeText>)> {
    if a.lines().len() == 0 {
        None
    } else {
        match grammar_for(a.path()) {
            Some(g) => match syntax_tree(grammar_index(g) as int, source_of(a.lines())) {
                Some(t) => Some((g, t)),
                None => None,
            },
            None => None,
        }
    }
}

/// The node of the name under the cursor.
pub open spec fn node_at_cursor(a: App) -> Option<int> {
    match tree_of(a) {
        Some((g, t)) => name_at(g, t, source_of(a.lines()), a.lines(), a.cursor),
        None => None,
    }
}

/// The name under the cursor.
pub open spec fn symbol_at_cursor(a: App) -> Option<Seq<char>> {
    match (tree_of(a), node_at_cursor(a)) {
        (Some((_, t)), Some(i)) => Some(text_of(t[i], source_of(a.lines()))),
        _ => None,
    }
}

/// Whether `ms` are the occurrences of a symbol in the selected file, in order.
pub open spec fn symbol_occurrences(a: App, name: Seq<char>, ms: Seq<Match>) -> bool {
    match tree_of(a) {
        Some((_, t)) => in_order(ms) && ms.to_multiset() == occurrences(
            t,
            source_of(a.lines()),
            name,
            a.lines(),
            t.len() as int,
        ).to_multiset(),
        None => false,
    }
}

fn parse_lines(path: &str, lines: &[String]) -> (r: Option<ParsedFile>)
    ensures
        match r {
            Some(p) => p.wf() && grammar_for(path@) == Some(p.grammar) && p.src@ == source_of(texts(lines@)),
            None => grammar_for(path@) matches Some(g) ==> syntax_tree(
                grammar_index(g) as int,
                source_of(texts(lines@)),
            ) is None,
        },
{
    match grammar_of_path(path) {
        Some(g) => parse(g, join(lines, "\n")),
        None => None,
    }
}

/// Searches for the symbol under the cursor, to the next or the previous
/// occurrence. The one under the cursor does not count.
pub fn symbol_search(app: &mut App, forward: bool)
    requires
        old(app).wf(),
    ensures
        match symbol_at_cursor(*old(app)) {
            None => *final(app) == *old(app),
            Some(name) => final(app).search matches Some(s) && s.pattern@ == name && symbol_occurrences(
                *old(app),
                name,
                s.matches@,
            ) && *final(app) == searched(
                *old(app),
                (Search { kind: SearchKind::Symbol, pattern: s.pattern, matches: s.matches, index: 0 }),
                forward,
                false,
            ),
        },
        final(app).wf(),
{
    let ghost start = *app;
    proof {
        lemma_sel(start);
    }
    let found = match app.sources.get(&app.items[app.sel].path) {
        Some(file) => {
            let nl = &file.1;
            assert(start.lines() == texts(nl@));
            if nl.len() == 0 {
                None
            } else {
                match parse_lines(&app.items[app.sel].path, nl) {
                    Some(p) => match identifier_at(&p, nl, app.cursor) {
                        Some(i) => {
                            assert(p.tree()[i as int] == p.nodes@[i as int].text());
                            let name = node_text(&p.nodes[i], &p.src);
                            let matches = symbol_matches(&p, &name, nl);
                            proof {
                                let ms = matches@;
                                assert forall|k: int| 0 <= k < ms.len() implies start.found(#[trigger] ms[k]) by {
                                    assert(start.lines()[ms[k].0 as int] == nl@[ms[k].0 as int]@);
                                }
                            }
                            Some((name, matches))
                        },
                        None => None,
                    },
                    None => None,
                }
            }
        },
        None => None,
    };
    if let Some((name, matches)) = found {
        jump_search(
            app,
            Search { kind: SearchKind::Symbol, pattern: name, matches, index: 0 },
            forward,
            false,
        );
    }
}

/// What is known of the symbol under the cursor.
pub struct HoverReport {
    pub title: String,
    pub lines: Vec<String>,
    /// the kind and the row of the definition, where the file has it
    pub definition: Option<(String, usize)>,
}

/// The same, as text.
pub ghost struct HoverText {
    pub title: Seq<char>,
    pub lines: Seq<Seq<char>>,
    pub definition: Option<(Seq<char>, int)>,
}

impl HoverReport {
    pub open spec fn text(self) -> HoverText {
        HoverText {
            title: self.title@,
            lines: texts(self.lines@),
            definition: match self.definition {
                Some((kind, row)) => Some((kind@, row as int)),
                None => None,
            },
        }
    }
}

/// What is told of a definition: its kind, its header and its documentation.
pub open spec fn definition_lines(path: Seq<char>, t: Seq<NodeText>, src: Seq<char>, d: int) -> Seq<Seq<char>> {
    seq!["kind: "@ + t[d].kind, ""@] + lines_of(header_of(t, src, d)) + (match doc_of(path, t, src, d) {
        Some(doc) => seq![""@] + lines_of(doc),
        None => Seq::empty(),
    })
}

/// Whether a report is what a tree has to say of the name at node `i`.
pub open spec fn reports(path: Seq<char>, t: Seq<NodeText>, src: Seq<char>, i: int, r: HoverText) -> bool {
    let kinds = definition_kinds(path);
    let name = text_of(t[i], src);
    &&& r.title == name
    &&& if kinds.len() == 0 {
        r.definition is None && r.lines == seq!["definition lookup not supported for this file type"@]
    } else if exists|d: int| 0 <= d < t.len() && #[trigger] defines(t, src, kinds, name, d) {
        exists|d: int| #[trigger]
            first_definition(t, src, kinds, name, d, t.len() as int) && r.definition == Some((t[d].kind, t[d].row))
                && r.lines == definition_lines(path, t, src, d)
    } else {
        r.definition is None && r.lines == (match owner_of(t, src, kinds, i) {
            Some(owner) => seq!["parameter of "@ + owner],
            None => seq!["not defined in this file"@],
        })
    }
}

/// Whether a hover over the selected file gives a report, and which.
pub open spec fn hover_gives(a: App, r: Option<HoverText>) -> bool {
    if a.lines().len() == 0 {
        r is None
    } else if grammar_for(a.path()) is None {
        r == Some(
            HoverText {
                title: "hover"@,
                lines: seq!["no grammar available for this file type"@],
                definition: None,
            },
        )
    } else {
        match tree_of(a) {
            None => r is None,
            Some((g, t)) => match node_at_cursor(a) {
                None => r == Some(
                    HoverText { title: "hover"@, lines: seq!["no symbol here"@], definition: None },
                ),
                Some(i) => r matches Some(h) && reports(a.path(), t, source_of(a.lines()), i, h),
            },
        }
    }
}

fn one_line(s: String) -> (r: Vec<String>)
    ensures
        texts(r@) == seq![s@],
{
    let mut v: Vec<String> = Vec::new();
    v.push(s);
    assert(texts(v@) =~= seq![s@]);
    v
}

fn append_lines(v: &mut Vec<String>, more: Vec<String>)
    ensures
        texts(final(v)@) == texts(old(v)@) + texts(more@),
{
    let ghost had = texts(v@);
    let ghost extra = texts(more@);
    let mut more = more;
    v.append(&mut more);
    assert(texts(v@) =~= had + extra);
}

fn describe(path: &str, p: &ParsedFile, d: usize) -> (r: Vec<String>)
    requires
        d < p.nodes@.len(),
    ensures
        texts(r@) == definition_lines(path@, p.tree(), p.src@, d as int),
{
    assert(p.tree()[d as int] == p.nodes@[d as int].text());
    let mut lines = one_line("kind: ".to_owned().concat(&p.nodes[d].kind));
    append_lines(&mut lines, one_line("".to_owned()));
    assert(texts(lines@) =~= seq!["kind: "@ + p.tree()[d as int].kind, ""@]);
    append_lines(&mut lines, split_lines(&signature(p, d)));
    let ghost head = texts(lines@);
    match doc_for(path, p, d) {
        Some(doc) => {
            append_lines(&mut lines, one_line("".to_owned()));
            append_lines(&mut lines, split_lines(&doc));
            assert(texts(lines@) =~= head + (seq![""@] + lines_of(doc@)));
        },
        None => {
            assert(head =~= head + Seq::<Seq<char>>::empty());
        },
    }
    lines
}

fn report_on(path: &str, p: &ParsedFile, i: usize) -> (r: HoverReport)
    requires
        i < p.nodes@.len(),
    ensures
        reports(path@, p.tree(), p.src@, i as int, r.text()),
{
    let ghost t = p.tree();
    assert(t[i as int] == p.nodes@[i as int].text());
    let name = node_text(&p.nodes[i], &p.src);
    let kinds = def_kinds(path);
    assert(texts(kinds@).len() == kinds@.len());
    if kinds.len() == 0 {
        return HoverReport {
            title: name,
            lines: one_line("definition lookup not supported for this file type".to_owned()),
            definition: None,
        };
    }
    match find_definition(p, &kinds, &name) {
        Some(d) => {
            assert(t[d as int] == p.nodes@[d as int].text());
            let lines = describe(path, p, d);
            let r = HoverReport {
                title: name,
                lines,
                definition: Some((p.nodes[d].kind.clone(), p.nodes[d].row)),
            };
            assert(defines(t, p.src@, texts(kinds@), name@, d as int));
            assert(first_definition(t, p.src@, texts(kinds@), name@, d as int, t.len() as int));
            r
        },
        None => match parameter_owner(p, i, &kinds) {
            Some(owner) => HoverReport {
                title: name,
                lines: one_line("parameter of ".to_owned().concat(&owner)),
                definition: None,
            },
            None => HoverReport {
                title: name,
                lines: one_line("not defined in this file".to_owned()),
                definition: None,
            },
        },
    }
}

/// What is known of the symbol under the cursor, from the selected file alone.
pub fn hover_report(app: &App) -> (r: Option<HoverReport>)
    requires
        app.sel < app.items@.len(),
    ensures
        hover_gives(
            *app,
            match r {
                Some(h) => Some(h.text()),
                None => None,
            },
        ),
{
    let path = &app.items[app.sel].path;
    let file = match app.sources.get(path) {
        Some(f) => f,
        None => {
            return None;
        },
    };
    let nl = &file.1;
    assert(app.lines() == texts(nl@));
    if nl.len() == 0 {
        return None;
    }
    if grammar_of_path(path).is_none() {
        return Some(
            HoverReport {
                title: "hover".to_owned(),
                lines: one_line("no grammar available for this file type".to_owned()),
                definition: None,
            },
        );
    }
    match parse_lines(path, nl) {
        Some(p) => match identifier_at(&p, nl, app.cursor) {
            Some(i) => Some(report_on(path, &p, i)),
            None => Some(
                HoverReport {
                    title: "hover".to_owned(),
                    lines: one_line("no symbol here".to_owned()),
                    definition: None,
                },
            ),
        },
        None => None,
    }
}

/// Shows a report, the history of the definition below it where there is one.
pub fn show_hover(app: &mut App, report: HoverReport, history: Vec<String>)
    ensures
        *final(app) == (App { popup: final(app).popup, ..*old(app) }),
        popup_text(final(app).popup) == Some(
            prose_popup(
                report.title@,
                texts(report.lines@) + (if report.definition is Some {
                    seq![""@] + texts(history@)
                } else {
                    Seq::empty()
                }),
            ),
        ),
{
    let ghost head = texts(report.lines@);
    let ghost past = texts(history@);
    let HoverReport { title, lines, definition } = report;
    let mut lines = lines;
    if definition.is_some() {
        append_lines(&mut lines, one_line("".to_owned()));
        append_lines(&mut lines, history);
        assert(texts(lines@) =~= head + (seq![""@] + past));
    } else {
        assert(texts(lines@) =~= head + Seq::<Seq<char>>::empty());
    }
    app.popup = Some(prose_box(&title, lines));
}

} // verus!
