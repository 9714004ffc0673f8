use ordo::cursor::{
    clamp_cursor, follow_hscroll, follow_scroll, line_end, line_start, move_col, move_line, para_next, para_prev,
    word_end, word_next, word_prev, Cursor,
};
use ordo::grammar::{fence_ext, highlight_spec, Grammar};
use ordo::highlight::highlight_file;
use ordo::history::{
    bound_earlier, bound_later, classify_commit, commit_list, compute_history, label_for, short_sha, symbol_identity,
};
use ordo::load::{highlight_progress, read_progress};
use ordo::model::{qualified_name, symbol_eq, FileOut, HunkOut, Output, Symbol};
use ordo::search::{byte_to_char_col, char_byte, cycle_index, seek_backward, seek_forward, text_matches};
use ordo::syntax::{
    def_kinds, doc_for, find_definition, identifier_at, node_text, parse, signature, symbol_matches, ParsedFile,
};
use ordo::theme::{theme, Color, Theme};

fn lines(s: &[&str]) -> Vec<String> {
    s.iter().map(|s| s.to_string()).collect()
}

fn at(line: usize, col: usize) -> Cursor {
    Cursor { line, col }
}

fn parsed(g: Grammar, src: &str) -> ParsedFile {
    parse(g, src.to_string()).unwrap()
}

#[test]
fn markdown_block_structure_is_highlighted() {
    let syn = Theme::terminal("dark", false).syn;
    let src = "# Title\n\n- item\n\n```rust\nfn f() {}\n```\n";
    let h = highlight_file("f.md", src, &syn).unwrap();
    let heading_marker = h[0].iter().find(|(t, _)| t == "#").unwrap();
    assert_ne!(heading_marker.1, Color::Reset);
    let list_marker = h[2].iter().find(|(t, _)| t.starts_with('-')).unwrap();
    assert_ne!(list_marker.1, Color::Reset);
    let fence_open = h[4].iter().find(|(t, _)| t == "```").unwrap();
    assert_ne!(fence_open.1, Color::Reset);
}

#[test]
fn markdown_inline_emphasis_is_highlighted() {
    let syn = Theme::terminal("dark", false).syn;
    let src = "plain and *emphasised* text\n";
    let h = highlight_file("f.md", src, &syn).unwrap();
    let word = h[0].iter().find(|(t, _)| t == "emphasised").unwrap();
    assert_eq!(word.1, syn.keyword);
}

#[test]
fn markdown_fenced_rust_uses_rust_grammar() {
    let syn = Theme::terminal("dark", false).syn;
    let src = "```rust\nfn add() {\n    let x = 1;\n}\n```\n";
    let h = highlight_file("f.md", src, &syn).unwrap();
    let fn_kw = h[1].iter().find(|(t, _)| t == "fn").unwrap();
    assert_eq!(fn_kw.1, syn.keyword);
    let let_kw = h[2].iter().find(|(t, _)| t == "let").unwrap();
    assert_eq!(let_kw.1, syn.keyword);
}

#[test]
fn markdown_fence_in_unsupported_language_does_not_panic() {
    let syn = Theme::terminal("dark", false).syn;
    let src = "```console\n$ echo hi\nhi\n```\n";
    let h = highlight_file("f.md", src, &syn).unwrap();
    assert_eq!(h.len(), src.lines().count() + 1);
}

#[test]
fn non_markdown_file_highlighting_is_unaffected() {
    let syn = Theme::terminal("dark", false).syn;
    let src = "fn add(a: i32) -> i32 {\n    a\n}\n";
    let h = highlight_file("f.rs", src, &syn).unwrap();
    let fn_kw = h[0].iter().find(|(t, _)| t == "fn").unwrap();
    assert_eq!(fn_kw.1, syn.keyword);
    let ty = h[0].iter().find(|(t, _)| t == "i32").unwrap();
    assert_eq!(ty.1, syn.type_);
}

#[test]
fn highlighting_keeps_every_line_of_a_file() {
    let syn = Theme::terminal("dark", false).syn;
    let src = "fn é() {\n    let s = \"x\";\n}\n";
    let h = highlight_file("f.rs", src, &syn).unwrap();
    let back: Vec<String> = h.iter().map(|l| l.iter().map(|(t, _)| t.as_str()).collect()).collect();
    assert_eq!(back.join("\n"), src);
    assert!(highlight_file("f.unknown", src, &syn).is_none());
}

#[test]
fn every_grammar_colours_its_language() {
    let syn = theme("nord").unwrap().syn;
    let plain = theme("nord").unwrap().fg;
    for (path, src) in [
        ("a.py", "def f():\n    return 1\n"),
        ("a.xsh", "def f():\n    return 1\n"),
        ("a.js", "function f() { return 1; }\n"),
        ("a.rs", "fn f() -> u8 { 1 }\n"),
        ("a.ts", "function f(): number { return 1; }\n"),
        ("a.tsx", "const a: number = 1;\n"),
        ("a.go", "package m\n\nfunc f() {}\n"),
        ("a.c", "int f(void) { return 1; }\n"),
        ("a.cpp", "class A {};\n"),
        ("A.java", "class A { }\n"),
        ("a.lua", "local x = 1\n"),
        ("a.toml", "a = 1\n"),
        ("a.json", "{\"a\": 1}\n"),
        ("a.yaml", "a: 1\n"),
        ("a.cmake", "if(A)\nendif()\n"),
        ("Makefile", "all: a\n\techo a\n"),
        ("a.sh", "if true; then echo a; fi\n"),
        ("a.html", "<p>x</p>\n"),
        ("a.svelte", "{#key a}b{/key}\n"),
        ("a.css", "a { color: red; }\n"),
        ("a.nix", "let a = 1; in a\n"),
        ("a.ini", "[s]\na = 1\n"),
        ("a.md", "# Title\n"),
    ] {
        let h = highlight_file(path, src, &syn).unwrap_or_else(|| panic!("{path} is not highlighted"));
        let back: Vec<String> = h.iter().map(|l| l.iter().map(|(t, _)| t.as_str()).collect()).collect();
        assert_eq!(back.join("\n"), src, "{path}");
        assert!(h.iter().flatten().any(|(_, c)| *c != plain && *c != Color::Reset), "{path}: {h:?}");
    }
}

#[test]
fn read_progress_is_one_based() {
    assert_eq!(read_progress("src/foo.rs", 0, 30), "reading src/foo.rs (1/30)");
    assert_eq!(read_progress("src/foo.rs", 11, 30), "reading src/foo.rs (12/30)");
    assert_eq!(read_progress("src/foo.rs", 29, 30), "reading src/foo.rs (30/30)");
}

#[test]
fn highlight_progress_is_one_based() {
    assert_eq!(highlight_progress(0, 27), "highlighting (1/27)");
    assert_eq!(highlight_progress(7, 27), "highlighting (8/27)");
}

#[test]
fn move_col_clamps_within_line() {
    let ls = lines(&["abc"]);
    let c = at(0, 0);
    assert_eq!(move_col(c, &ls, -1), at(0, 0));
    assert_eq!(move_col(c, &ls, 1), at(0, 1));
    assert_eq!(move_col(at(0, 2), &ls, 5), at(0, 2));
}

#[test]
fn move_line_clamps_and_carries_column() {
    let ls = lines(&["hello", "hi", ""]);
    let c = at(0, 4);
    assert_eq!(move_line(c, &ls, 1), at(1, 1));
    assert_eq!(move_line(c, &ls, 2), at(2, 0));
    assert_eq!(move_line(c, &ls, -5), at(0, 4));
}

#[test]
fn line_start_end() {
    let ls = lines(&["abcdef"]);
    let c = at(0, 3);
    assert_eq!(line_start(c, &ls), at(0, 0));
    assert_eq!(line_end(c, &ls), at(0, 5));
}

#[test]
fn clamp_cursor_handles_shrunk_or_empty_files() {
    let ls = lines(&["ab"]);
    assert_eq!(clamp_cursor(at(5, 5), &ls), at(0, 1));
    assert_eq!(clamp_cursor(at(0, 0), &[]), at(0, 0));
}

#[test]
fn word_next_skips_word_then_whitespace() {
    let ls = lines(&["foo bar  baz"]);
    let c = at(0, 0);
    let c = word_next(c, &ls);
    assert_eq!(c, at(0, 4));
    let c = word_next(c, &ls);
    assert_eq!(c, at(0, 9));
    let c = word_next(c, &ls);
    assert_eq!(c, at(0, 11));
}

#[test]
fn word_next_crosses_lines() {
    let ls = lines(&["foo", "bar"]);
    let c = word_next(at(0, 0), &ls);
    assert_eq!(c, at(1, 0));
}

#[test]
fn word_prev_mirrors_word_next() {
    let ls = lines(&["foo bar  baz"]);
    let c = word_prev(at(0, 9), &ls);
    assert_eq!(c, at(0, 4));
    let c = word_prev(c, &ls);
    assert_eq!(c, at(0, 0));
    let c = word_prev(c, &ls);
    assert_eq!(c, at(0, 0));
}

#[test]
fn word_end_lands_on_last_char_of_word() {
    let ls = lines(&["foo bar"]);
    let c = word_end(at(0, 0), &ls);
    assert_eq!(c, at(0, 2));
    let c = word_end(c, &ls);
    assert_eq!(c, at(0, 6));
}

#[test]
fn word_motion_treats_punctuation_as_its_own_run() {
    let ls = lines(&["foo(bar)"]);
    let c = word_next(at(0, 0), &ls);
    assert_eq!(c, at(0, 3));
    let c = word_next(c, &ls);
    assert_eq!(c, at(0, 4));
}

#[test]
fn para_next_prev_find_blank_lines() {
    let ls = lines(&["a", "b", "", "c", "d"]);
    assert_eq!(para_next(at(0, 0), &ls), at(2, 0));
    assert_eq!(para_prev(at(4, 0), &ls), at(2, 0));
    assert_eq!(para_prev(at(0, 0), &ls), at(0, 0));
}

#[test]
fn follow_scroll_keeps_cursor_in_view() {
    assert_eq!(follow_scroll(5, 0, 10), 0);
    assert_eq!(follow_scroll(0, 5, 10), 0);
    assert_eq!(follow_scroll(20, 5, 10), 11);
    assert_eq!(follow_scroll(9, 0, 10), 0);
    assert_eq!(follow_scroll(10, 0, 10), 1);
}

#[test]
fn follow_hscroll_keeps_cursor_in_view() {
    assert_eq!(follow_hscroll(5, 0, 10), 0);
    assert_eq!(follow_hscroll(15, 0, 10), 6);
    assert_eq!(follow_hscroll(2, 6, 10), 2);
}

#[test]
fn char_byte_handles_multibyte() {
    let line = "héllo";
    assert_eq!(char_byte(line, 0), 0);
    assert_eq!(char_byte(line, 1), 1);
    assert_eq!(char_byte(line, 2), 3);
    assert_eq!(char_byte(line, 99), line.len());
}

#[test]
fn resolves_rust_call_site_to_its_definition() {
    let src = "/// adds two numbers\nfn add(a: i32, b: i32) -> i32 {\n    a + b\n}\n\nfn main() {\n    add(1, 2);\n}\n";
    let p = parsed(Grammar::Rust, src);
    let ls: Vec<String> = src.lines().map(str::to_string).collect();
    let i = identifier_at(&p, &ls, at(6, 5)).unwrap();
    let name = node_text(&p.nodes[i], src);
    assert_eq!(name, "add");
    let kinds = def_kinds("f.rs");
    let def = find_definition(&p, &kinds, &name).unwrap();
    assert_eq!(p.nodes[def].kind, "function_item");
    assert_eq!(signature(&p, def), "fn add(a: i32, b: i32) -> i32");
    assert_eq!(doc_for("f.rs", &p, def).as_deref(), Some("/// adds two numbers"));
}

#[test]
fn reports_missing_rust_definition_plainly() {
    let src = "fn main() {\n    unknown_fn();\n}\n";
    let p = parsed(Grammar::Rust, src);
    let ls: Vec<String> = src.lines().map(str::to_string).collect();
    let i = identifier_at(&p, &ls, at(1, 5)).unwrap();
    let name = node_text(&p.nodes[i], src);
    assert_eq!(name, "unknown_fn");
    assert!(find_definition(&p, &def_kinds("f.rs"), &name).is_none());
}

#[test]
fn extracts_python_docstring_and_signature() {
    let src = "def greet(name):\n    \"\"\"Say hello.\"\"\"\n    print(name)\n";
    let p = parsed(Grammar::Python, src);
    let def = find_definition(&p, &def_kinds("f.py"), "greet").unwrap();
    assert_eq!(p.nodes[def].kind, "function_definition");
    assert_eq!(signature(&p, def), "def greet(name):");
    assert_eq!(doc_for("f.py", &p, def).as_deref(), Some("\"\"\"Say hello.\"\"\""));
}

#[test]
fn c_function_definition_name_comes_from_declarator() {
    let src = "// squares x\nint square(int x) {\n    return x * x;\n}\n";
    let p = parsed(Grammar::C, src);
    let def = find_definition(&p, &def_kinds("f.c"), "square").unwrap();
    assert_eq!(p.nodes[def].kind, "function_definition");
    assert_eq!(signature(&p, def), "int square(int x)");
    assert_eq!(doc_for("f.c", &p, def).as_deref(), Some("// squares x"));
}

#[test]
fn byte_to_char_col_is_the_inverse_of_char_byte() {
    let line = "héllo";
    for col in 0..line.chars().count() {
        assert_eq!(byte_to_char_col(line, char_byte(line, col)), col);
    }
}

const REFINE: &str = "def refine(may_refine_camber_span):\n    may_refine = may_refine_camber_span > 0\n    if may_refine:\n        return may_refine_camber_span\n    return may_refine or may_refine_camber_span\n";

#[test]
fn symbol_occurrences_ignore_substring_matches() {
    let src = REFINE;
    let ls: Vec<String> = src.lines().map(str::to_string).collect();
    let p = parsed(Grammar::Python, src);
    let matches = symbol_matches(&p, "may_refine", &ls);
    assert_eq!(matches.len(), 3);
    for &(line, s, e) in &matches {
        assert_eq!(&ls[line][s..e], "may_refine");
    }
    let long_matches = symbol_matches(&p, "may_refine_camber_span", &ls);
    assert_eq!(long_matches.len(), 4);
}

#[test]
fn text_search_matches_substrings_unlike_symbol_search() {
    let ls: Vec<String> = REFINE.lines().map(str::to_string).collect();
    let matches = text_matches(&ls, "may_refine");
    assert_eq!(matches.len(), 7);
}

#[test]
fn text_matches_empty_pattern_finds_nothing() {
    let ls = lines(&["abc"]);
    assert!(text_matches(&ls, "").is_empty());
}

#[test]
fn cycle_index_wraps_both_directions() {
    assert_eq!(cycle_index(0, 3, 1), 1);
    assert_eq!(cycle_index(2, 3, 1), 0);
    assert_eq!(cycle_index(0, 3, -1), 2);
    assert_eq!(cycle_index(0, 0, 1), 0);
}

#[test]
fn seek_forward_wraps_when_nothing_ahead() {
    let matches = vec![(0, 0, 3), (2, 0, 3)];
    let cursor = at(5, 0);
    assert_eq!(seek_forward(&matches, cursor, true), Some(0));
    let cursor = at(0, 0);
    assert_eq!(seek_forward(&matches, cursor, false), Some(1));
    assert_eq!(seek_forward(&matches, cursor, true), Some(0));
}

#[test]
fn seek_backward_wraps_when_nothing_behind() {
    let matches = vec![(0, 0, 3), (2, 0, 3)];
    let cursor = at(0, 0);
    assert_eq!(seek_backward(&matches, cursor, false), Some(1));
    let cursor = at(2, 0);
    assert_eq!(seek_backward(&matches, cursor, true), Some(1));
    assert_eq!(seek_backward(&matches, cursor, false), Some(0));
}

#[test]
fn search_seek_on_empty_matches_returns_none() {
    let cursor = at(0, 0);
    assert_eq!(seek_forward(&[], cursor, true), None);
    assert_eq!(seek_backward(&[], cursor, false), None);
}

fn sym(name: &str, kind: &str, scope: Option<&str>) -> Symbol {
    Symbol { name: name.to_string(), kind: kind.to_string(), scope: scope.map(str::to_string) }
}

#[test]
fn symbol_eq_requires_matching_name_kind_and_scope() {
    let module_level = sym("run", "function_definition", None);
    let method_a = sym("run", "function_definition", Some("A"));
    assert!(!symbol_eq(&module_level, &method_a));
    let different_kind = sym("run", "async_function_definition", None);
    assert!(!symbol_eq(&module_level, &different_kind));
    let same = sym("run", "function_definition", None);
    assert!(symbol_eq(&module_level, &same));
}

#[test]
fn qualified_name_joins_scope_and_name() {
    assert_eq!(qualified_name(&sym("run", "function_definition", None)), "run");
    assert_eq!(qualified_name(&sym("run", "function_definition", Some("A"))), "A.run");
}

#[test]
fn bound_earlier_drops_current_and_orders_oldest_of_window_first() {
    let shas = lines(&["current", "a", "b", "c"]);
    let got = bound_earlier(&shas, "current", 2);
    assert_eq!(got, vec!["b".to_string(), "a".to_string()]);
}

#[test]
fn bound_earlier_bounds_a_long_lived_files_history() {
    let shas: Vec<String> = (0..20).map(|i| format!("c{i}")).collect();
    let got = bound_earlier(&shas, "none-of-these", 10);
    assert_eq!(got.len(), 10);
    assert_eq!(got.first().unwrap(), "c9");
    assert_eq!(got.last().unwrap(), "c0");
}

#[test]
fn bound_later_orders_nearest_to_rev_first_and_bounds_the_window() {
    let shas = lines(&["head", "b", "a"]);
    let got = bound_later(&shas, 10);
    assert_eq!(got, vec!["a".to_string(), "b".to_string(), "head".to_string()]);
    let many: Vec<String> = (0..20).map(|i| format!("c{i}")).collect();
    let got = bound_later(&many, 10);
    assert_eq!(got.len(), 10);
    assert_eq!(got.first().unwrap(), "c19");
}

fn test_hunk(rationale: &str, enclosing: Option<&str>, symbols: Vec<Symbol>) -> HunkOut {
    HunkOut {
        id: "h1".to_string(),
        old_range: [0, 0],
        new_range: [1, 1],
        category: "definition".to_string(),
        enclosing: enclosing.map(str::to_string),
        rules: vec![],
        group: "g".to_string(),
        rationale: rationale.to_string(),
        noise: false,
        comment: false,
        details: vec![],
        notes: vec![],
        advisories: vec![],
        symbols,
        uses_at: vec![],
    }
}

#[test]
fn label_for_picks_the_fragment_naming_the_symbol() {
    let target = sym("run", "function_definition", None);
    let h = test_hunk("adds helper; changes signature of run", None, vec![]);
    assert_eq!(label_for(&h, &target), "changes signature of run");
}

#[test]
fn a_fence_names_a_language_in_any_case_and_with_attributes() {
    let names = [
        "py", "python", "xonsh", "javascript", "node", "ts", "tsx", "rust", "golang", "c", "c++", "java", "lua", "toml",
    ];
    for name in names {
        let ext = fence_ext(name).expect(name);
        assert!(highlight_spec(&format!("x.{ext}")).is_some(), "{name}");
        assert_eq!(fence_ext(&name.to_ascii_uppercase()), Some(ext));
        assert_eq!(fence_ext(&format!(" {name},ignore")), Some(ext));
        assert_eq!(fence_ext(&format!("{name} {{.numberLines}}")), Some(ext));
    }
    for name in ["console", "json", "diff", "", ",ignore"] {
        assert_eq!(fence_ext(name), None, "{name}");
    }
}

#[test]
fn label_for_takes_no_longer_name_for_the_symbol() {
    let target = sym("run", "function_definition", None);
    let h = test_hunk("adds rerun; changes signature of run", None, vec![]);
    assert_eq!(label_for(&h, &target), "changes signature of run");
    let h = test_hunk("adds run_all; edits A.run", None, vec![]);
    assert_eq!(label_for(&h, &target), "edits A.run");
    let h = test_hunk("adds rerun; adds runs", None, vec![]);
    assert_eq!(label_for(&h, &target), "adds rerun; adds runs");
}

#[test]
fn label_for_falls_back_to_the_whole_rationale_for_a_body_edit() {
    let target = sym("run", "function_definition", Some("A"));
    let h = test_hunk("edits A.run", Some("A.run"), vec![]);
    assert_eq!(label_for(&h, &target), "edits A.run");
}

fn output(path: &str, hunks: Vec<HunkOut>) -> Output {
    Output {
        order: vec![],
        files: vec![FileOut {
            path: path.to_string(),
            hunks,
            degraded: false,
            unsupported: false,
            dropped: vec![],
        }],
        groups: vec![],
        edges: vec![],
        clusters: vec![],
        problems: vec![],
        notes: vec![],
        ledger: vec![],
    }
}

#[test]
fn a_commit_is_classified_by_the_hunk_that_touches_the_symbol() {
    let target = sym("run", "function_definition", Some("A"));
    let other = test_hunk("adds helper", None, vec![sym("helper", "function_definition", None)]);
    let body = test_hunk("edits A.run", Some("A.run"), vec![]);
    let out = output("a.py", vec![other, body]);
    assert_eq!(classify_commit(&out, "a.py", &target).as_deref(), Some("edits A.run"));
    assert_eq!(classify_commit(&out, "b.py", &target), None);
    assert_eq!(classify_commit(&out, "a.py", &sym("run", "function_definition", None)), None);
}

#[test]
fn the_identity_of_a_definition_comes_from_the_hunk_that_holds_it() {
    let mut first = test_hunk("", None, vec![sym("run", "function_definition", Some("A"))]);
    first.new_range = [1, 5];
    let mut second = test_hunk("", None, vec![sym("run", "function_definition", None)]);
    second.new_range = [6, 9];
    let out = output("a.py", vec![first, second]);
    let here = symbol_identity(&out, "a.py", "run", "function_definition", 6).unwrap();
    assert_eq!(here.scope, None);
    let elsewhere = symbol_identity(&out, "a.py", "run", "function_definition", 40).unwrap();
    assert_eq!(elsewhere.scope.as_deref(), Some("A"));
    assert!(symbol_identity(&out, "a.py", "walk", "function_definition", 0).is_none());
}

#[test]
fn a_history_tags_the_first_commit_of_each_direction() {
    assert_eq!(commit_list(" aaa \n\nbbb\n"), lines(&["aaa", "bbb"]));
    assert_eq!(short_sha("0123456789"), "0123456");
    let earlier = lines(&["1111111aa", "2222222bb", "3333333cc"]);
    let before = vec![None, Some("adds run".to_string()), Some("edits run".to_string())];
    let later = lines(&["4444444dd"]);
    let after = vec![Some("renames run".to_string())];
    let got = compute_history("abcdef0123", &earlier, &before, &later, &after);
    assert_eq!(
        got,
        lines(&[
            "earlier  2222222  adds run",
            "         3333333  edits run",
            "CURRENT  abcdef0",
            "later    4444444  renames run",
        ])
    );
}
