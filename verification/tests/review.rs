use std::collections::HashMap;

use ordo::commands::{
    apply_completion, arg_candidates, build_audit, build_command_help, command_completions, command_menu_row,
    command_names, commands, complete, dir_prefix, distinct_sorted, output_lines, parse_command_line, parse_mode,
    parse_strategy, rev_completions, Strategy,
};
use ordo::cursor::Cursor;
use ordo::execute::{
    carry_across_reload, delta_lines, execute_command, quickfix_hunks, set_filters, set_note, CommandOutcome,
};
use ordo::filter::{build_globs, Filter, Ledger};
use ordo::identity::{
    cache_home, comments_file_path, compare_runs, fnv1a, mark_key, marks_file_path, note_key, note_key_named,
    prune_marks, snap_key, symbols_identity, Delta, Snap, MARK_TTL_SECS,
};
use ordo::items::build_items;
use ordo::keys::{keymap, Fold, Pane};
use ordo::links::{
    cascade, cascade_line, coverage, delta_line, draft_rule, note_for, out_of_order_labels,
};
use ordo::model::{
    Edge, EdgeRef, FileOut, Group, HunkOut, Item, LedgerEntry, OrderItem, Output, Refined, Sources, Symbol,
};
use ordo::session::{
    first_visible, fold, folded_view, jump_back, jump_to_edge, last_visible, set_mode, stack_pop_valid, stack_push,
    why_cursor_move, JUMP_STACK_CAP,
};
use ordo::state::{App, Popup};
use ordo::stored::{load_marks, load_notes, save_marks, save_notes};
use ordo::textmap::{TextMap, TextSet};
use ordo::theme::{theme, Color, Theme};
use ordo::view::{
    bucket_key, compute_view, display_row_of, display_rows, hidden_breakdown, view_pos, DisplayRow, Hidden, ViewMode,
};
use ordo::why::{why_rows, WhyKind};

fn lines(v: &[&str]) -> Vec<String> {
    v.iter().map(|s| s.to_string()).collect()
}

fn sym(name: &str, kind: &str, scope: Option<&str>) -> Symbol {
    Symbol { name: name.to_string(), kind: kind.to_string(), scope: scope.map(str::to_string) }
}

fn test_item(path: &str) -> Item {
    Item {
        path: path.to_string(),
        old_range: [0, 0],
        new_range: [0, 0],
        mark: String::new(),
        cat: "other".to_string(),
        rationale: String::new(),
        details: vec![],
        notes: vec![],
        edges: vec![],
        bucket: "g0".to_string(),
        ledger: None,
        advisories: vec![],
        noise: false,
        comment: false,
        symbols: vec![],
        enclosing: None,
        group: String::new(),
        rules: vec![],
        refined: Refined::none(),
        cluster: None,
        uses_at: vec![],
    }
}

fn grouped_item(path: &str, group: &str) -> Item {
    let mut it = test_item(path);
    it.group = group.to_string();
    it.bucket = group.to_string();
    it
}

fn item_with_symbol(path: &str, name: &str) -> Item {
    let mut it = test_item(path);
    it.symbols = vec![sym(name, "function_definition", None)];
    it
}

fn edge(label: &str, target: Option<usize>) -> EdgeRef {
    EdgeRef { label: label.to_string(), target, dependency: label.starts_with('←') }
}

fn test_app(why_len: usize) -> App {
    App {
        items: vec![test_item("a.rs")],
        reviewed: vec![false],
        view: vec![0],
        comments_only: false,
        show_all: true,
        path_filter: None,
        command: None,
        sel: 0,
        scroll: 0,
        hscroll: 0,
        why_scroll: 0,
        why_sel: 0,
        code_len: 0,
        why_len,
        code_height: 10,
        why_height: 5,
        code_width: 10,
        focus: Pane::Why,
        keys: keymap("vim").unwrap(),
        pending: None,
        sources: TextMap::new(),
        highlights: TextMap::new(),
        cursor: Cursor { line: 0, col: 0 },
        popup: None,
        prompt: None,
        search: None,
        review_sha: None,
        uncommitted: false,
        jumps: vec![],
        rev: "HEAD".to_string(),
        marks_path: None,
        marks: HashMap::new(),
        theme: theme("dark").unwrap(),
        show_groups: false,
        groups: TextMap::new(),
        group_reasons: TextMap::new(),
        mode: ViewMode::Hunks,
        deltas: vec![Delta::Same],
        delta_gone: 0,
        notes: HashMap::new(),
        notes_path: None,
        symbol_ledger: vec![],
        collapsed: TextSet::new(),
        ledger: Ledger::new(),
        rules_report: vec![],
        rules: vec![],
        strategy: "comprehension".to_string(),
    }
}

fn dependent_pair() -> App {
    let mut app = test_app(1);
    app.items = vec![test_item("a.py"), test_item("b.py")];
    app.items[1].edges = vec![edge("← a.py:L1   def→use: f", Some(0))];
    app.items[0].edges = vec![edge("→ b.py:L1   def→use: f", Some(1))];
    app.view = vec![0, 1];
    app.reviewed = vec![false, false];
    app.deltas = vec![Delta::Same, Delta::Same];
    app
}

fn dependency_chain() -> App {
    let mut app = test_app(1);
    app.items = vec![test_item("a.py"), test_item("b.py"), test_item("c.py")];
    app.items[1].edges = vec![edge("← a.py:L1   def→use: f", Some(0))];
    app.items[2].edges = vec![edge("← b.py:L1   def→use: g", Some(1))];
    app.view = vec![0, 1, 2];
    app.reviewed = vec![false, false, false];
    app.deltas = vec![Delta::Same, Delta::Same, Delta::Same];
    app
}

fn snaps_of(app: &App, sources: &Sources) -> TextMap<Snap> {
    let order: Vec<usize> = (0..app.items.len()).collect();
    compare_runs(&app.items, &order, sources, &TextMap::new()).0
}

fn colors_eq(a: Color, b: Color) -> bool {
    matches!((a, b), (Color::Rgb(ar, ag, ab), Color::Rgb(br, bg, bb)) if ar == br && ag == bg && ab == bb)
}

#[test]
fn parse_command_line_splits_name_and_argument() {
    let split = |s: &str| parse_command_line(s);
    let pair = |a: &str, b: &str| (a.to_string(), b.to_string());
    assert_eq!(split("strategy defs-first"), pair("strategy", "defs-first"));
    assert_eq!(split("filter   src/*   "), pair("filter", "src/*"));
    assert_eq!(split("q"), pair("q", ""));
    assert_eq!(split("  q  "), pair("q", ""));
    assert_eq!(split(""), pair("", ""));
}

#[test]
fn complete_prefers_a_prefix_match_over_a_substring_one() {
    let candidates = lines(&["comprehension", "defs-first", "file"]);
    assert_eq!(complete("f", &candidates), vec!["file".to_string()]);
}

#[test]
fn complete_falls_back_to_substring_when_no_prefix_matches() {
    let candidates = lines(&["comprehension", "defs-first", "file"]);
    assert_eq!(complete("first", &candidates), vec!["defs-first".to_string()]);
}

#[test]
fn complete_is_case_insensitive() {
    let candidates = lines(&["vim", "vscode"]);
    assert_eq!(complete("VS", &candidates), vec!["vscode".to_string()]);
}

#[test]
fn complete_empty_input_lists_everything_unfiltered() {
    let candidates = lines(&["vim", "vscode"]);
    assert_eq!(complete("", &candidates), candidates);
}

#[test]
fn complete_no_match_yields_an_empty_menu() {
    let candidates = lines(&["vim", "vscode"]);
    assert!(complete("zzz", &candidates).is_empty());
}

#[test]
fn command_completions_lists_command_names_before_any_space() {
    let got = command_completions("str", &[], &[], &[]);
    assert_eq!(got, vec!["strategy".to_string()]);
}

#[test]
fn command_completions_lists_keys_presets() {
    let got = command_completions("keys ", &[], &[], &[]);
    assert_eq!(got, vec!["vim".to_string(), "vscode".to_string()]);
}

#[test]
fn command_completions_lists_strategy_names() {
    let got = command_completions("strategy ", &[], &[], &[]);
    assert_eq!(got, vec!["comprehension".to_string(), "defs-first".to_string(), "file".to_string()]);
}

#[test]
fn command_completions_lists_goto_paths_and_filter_dirs_from_their_own_pools() {
    let goto_paths = lines(&["src/a.rs", "src/b.rs"]);
    let filter_dirs = lines(&["src", "tests"]);
    assert_eq!(command_completions("goto ", &goto_paths, &filter_dirs, &[]), goto_paths);
    assert_eq!(command_completions("filter ", &goto_paths, &filter_dirs, &[]), filter_dirs);
}

#[test]
fn command_completions_narrows_the_argument_by_its_own_partial_word() {
    let goto_paths = lines(&["src/a.rs", "src/b.rs"]);
    assert_eq!(command_completions("goto src/b", &goto_paths, &[], &[]), vec!["src/b.rs".to_string()]);
}

#[test]
fn command_completions_is_empty_for_a_no_argument_command() {
    assert!(command_completions("q ", &[], &[], &[]).is_empty());
    assert!(command_completions("only-comments ", &[], &[], &[]).is_empty());
}

#[test]
fn apply_completion_replaces_the_word_being_completed_and_adds_a_trailing_space() {
    assert_eq!(apply_completion("str", "strategy"), "strategy ");
    assert_eq!(apply_completion("strategy defs", "defs-first"), "strategy defs-first ");
}

#[test]
fn dir_prefix_and_distinct_sorted_derive_stable_glob_candidates() {
    assert_eq!(dir_prefix("src/bin/ordo.rs"), Some("src/bin".to_string()));
    assert_eq!(dir_prefix("Cargo.toml"), None);
    let got = distinct_sorted(&lines(&["src/b.rs", "src/a.rs", "src/a.rs"]));
    assert_eq!(got, vec!["src/a.rs".to_string(), "src/b.rs".to_string()]);
}

#[test]
fn completing_a_command_name_shows_its_help_sentence_beside_it() {
    let names = command_names();
    let (head, help) = command_menu_row("strategy", true, &names, 120);
    assert!(head.starts_with("strategy <"), "{head:?}");
    let all = commands();
    let strategy = all.iter().find(|c| c.name == "strategy").unwrap();
    assert_eq!(help.as_deref(), Some(format!("  — {}", strategy.help).as_str()));
    let (h1, _) = command_menu_row("q", true, &names, 120);
    assert_eq!(h1.chars().count(), head.chars().count());
}

#[test]
fn a_narrow_menu_cuts_the_sentence_and_a_very_narrow_one_drops_it() {
    let names = command_names();
    let (_, help) = command_menu_row("strategy", true, &names, 60);
    let help = help.unwrap();
    assert!(help.ends_with('…'), "{help:?}");
    assert!(help.chars().count() <= 60);
    let (_, none) = command_menu_row("strategy", true, &names, 20);
    assert!(none.is_none());
}

#[test]
fn argument_candidates_carry_no_sentence() {
    let pool = vec!["vim".to_string(), "vscode".to_string()];
    assert_eq!(command_menu_row("vim", false, &pool, 120), ("vim".to_string(), None));
}

#[test]
fn an_alias_carries_no_sentence() {
    let names = command_names();
    for alias in ["qf", "vim-qfl"] {
        assert!(names.contains(&alias.to_string()));
        assert_eq!(command_menu_row(alias, true, &names, 120), (alias.to_string(), None));
        assert_eq!(command_menu_row(alias, true, &lines(&[alias]), 120), (alias.to_string(), None));
    }
}

#[test]
fn command_help_is_generated_from_the_command_table() {
    let help = build_command_help();
    let all = commands();
    let strategy = all.iter().find(|c| c.name == "strategy").unwrap();
    let row = help.iter().find(|l| l.contains(strategy.help)).expect("strategy row present");
    assert!(row.contains(":strategy"), "expected the command name in the row: {row}");
}

#[test]
fn every_command_has_a_non_empty_help_line() {
    for c in commands() {
        assert!(!c.help.trim().is_empty(), ":{} has no help text", c.name);
    }
}

#[test]
fn references_are_offered_after_the_working_tree_and_the_present_commit() {
    assert_eq!(output_lines("main\n\n topic \n"), lines(&["main", "topic"]));
    assert_eq!(rev_completions("main\ntopic\n"), lines(&["zz", "HEAD", "main", "topic"]));
}

#[test]
fn strategies_and_modes_are_read_by_name() {
    assert!(matches!(parse_strategy("defs-first"), Some(Strategy::DefsFirst)));
    assert!(parse_strategy("backwards").is_none());
    assert_eq!(parse_mode("", ViewMode::Hunks), Ok(ViewMode::Ledger));
    assert_eq!(parse_mode("hunks", ViewMode::Ledger), Ok(ViewMode::Hunks));
    assert!(parse_mode("trees", ViewMode::Hunks).is_err());
}

#[test]
fn hidden_breakdown_partitions_the_hidden_set_exactly() {
    let mut noisy = test_item("src/a.rs");
    noisy.noise = true;
    let mut both = test_item("tests/b.rs");
    both.noise = true;
    let outside = test_item("tests/c.rs");
    let shown = test_item("src/d.rs");
    let items = vec![noisy, both, outside, shown];
    let globs = build_globs(&["src/*".to_string()]).unwrap();

    let h = hidden_breakdown(&items, false, false, Some(&globs));
    assert_eq!(h, Hidden { comment: 0, noise: 2, glob: 1, unaccounted: 0 });
    assert_eq!(compute_view(&items, false, false, Some(&globs)).len() + h.noise + h.glob, items.len());
}

#[test]
fn hidden_breakdown_charges_only_comments_before_noise() {
    let mut a = test_item("a.rs");
    a.comment = true;
    let mut b = test_item("b.rs");
    b.noise = true;
    let items = vec![a, b];

    let h = hidden_breakdown(&items, true, false, None);
    assert_eq!(h, Hidden { comment: 1, noise: 0, glob: 0, unaccounted: 0 });
}

#[test]
fn build_audit_reports_every_reason_and_flags_an_unaccounted_remainder() {
    let items = vec![test_item("a.rs"), test_item("b.rs"), test_item("c.rs")];
    let ledger = Ledger {
        files_seen: 9,
        files_generated: 2,
        files_declared: 1,
        files_globbed: 3,
        files_unreadable: 1,
        hunks_import: 4,
        hunks_non_comment: 0,
    };
    let clean = Hidden { comment: 0, noise: 1, glob: 0, unaccounted: 0 };
    let text = build_audit(&items, 2, &clean, &ledger, None).join("\n");
    assert!(text.contains("2 of 3 hunks shown"), "{text}");
    assert!(text.contains("   4  of which import hunks"), "{text}");
    assert!(text.contains("files: 9 changed"), "{text}");
    assert!(text.contains("never fetched: excluded by a launch-time glob"), "{text}");
    assert!(text.contains("every hidden hunk is accounted for"), "{text}");

    let leak = Hidden { comment: 0, noise: 0, glob: 0, unaccounted: 1 };
    let text = build_audit(&items, 2, &leak, &ledger, Some("src/*")).join("\n");
    assert!(text.contains("1 hidden hunk unaccounted for"), "{text}");
    assert!(text.contains("outside the path filter 'src/*'"), "{text}");
}

#[test]
fn compute_view_applies_only_comments_show_all_and_glob_independently() {
    let mut a = test_item("src/a.rs");
    a.comment = true;
    let mut b = test_item("src/b.rs");
    b.noise = true;
    let c = test_item("tests/c.rs");
    let items = vec![a, b, c];

    assert_eq!(compute_view(&items, false, true, None), vec![0, 1, 2]);
    assert_eq!(compute_view(&items, true, true, None), vec![0]);
    assert_eq!(compute_view(&items, false, false, None), vec![0, 2]);

    let globs = build_globs(&["src/*".to_string()]).unwrap();
    assert_eq!(compute_view(&items, false, true, Some(&globs)), vec![0, 1]);
}

#[test]
fn set_filters_clamps_selection_off_a_hunk_that_falls_out_of_view() {
    let mut app = test_app(0);
    app.items = vec![test_item("a.rs"), test_item("b.rs"), test_item("c.rs")];
    app.view = vec![0, 1, 2];
    app.reviewed = vec![false, false, false];
    app.sel = 1;
    app.popup = Some(Popup { title: "x".to_string(), lines: vec![], scroll: 0, hscroll: 0 });

    let globs = build_globs(&["a.rs".to_string()]).unwrap();
    set_filters(&mut app, false, true, Some(("a.rs".to_string(), globs))).unwrap();

    assert_eq!(app.view, vec![0]);
    assert_eq!(app.sel, 0, "selection must move off the now-hidden item");
    assert!(app.popup.is_none(), "select() clears a stale popup");
}

#[test]
fn set_filters_rejects_a_combination_that_would_empty_the_view() {
    let mut app = test_app(0);
    app.items = vec![test_item("a.rs")];
    app.view = vec![0];
    app.reviewed = vec![false];

    let globs = build_globs(&["nope/*".to_string()]).unwrap();
    let err = set_filters(&mut app, false, true, Some(("nope/*".to_string(), globs)));
    assert!(err.is_err());
    assert_eq!(app.view, vec![0]);
    assert!(app.path_filter.is_none());
}

#[test]
fn view_pos_and_first_last_visible_read_the_view_not_the_raw_item_list() {
    assert_eq!(view_pos(&[3, 5, 8], 5), 1);
    assert_eq!(view_pos(&[3, 5, 8], 99), 0);
    let mut app = test_app(0);
    app.view = vec![3, 5, 8];
    assert_eq!(first_visible(&app), 3);
    assert_eq!(last_visible(&app), 8);
}

fn test_hunk(rationale: &str, enclosing: Option<&str>, symbols: Vec<Symbol>) -> HunkOut {
    HunkOut {
        id: "h".to_string(),
        old_range: [1, 1],
        new_range: [1, 1],
        category: "other".to_string(),
        enclosing: enclosing.map(str::to_string),
        rules: vec![],
        group: "g0".to_string(),
        rationale: rationale.to_string(),
        noise: false,
        comment: false,
        details: vec![],
        notes: vec![],
        advisories: vec![],
        symbols,
        uses_at: vec![],
    }
}

fn id_hunk(id: &str) -> HunkOut {
    let mut h = test_hunk("does a thing", None, vec![]);
    h.id = id.to_string();
    h
}

fn order_item(path: &str, hunk: &str) -> OrderItem {
    OrderItem { path: path.to_string(), hunk: hunk.to_string() }
}

fn def_use(from: &str, to: &str, why: &str) -> Edge {
    Edge { from: from.to_string(), to: to.to_string(), why: why.to_string() }
}

fn two_hunks() -> Output {
    Output {
        order: vec![order_item("a.rs", "h1"), order_item("a.rs", "h2")],
        files: vec![FileOut {
            path: "a.rs".to_string(),
            hunks: vec![id_hunk("h1"), id_hunk("h2")],
            degraded: false,
            unsupported: false,
            dropped: vec![],
        }],
        groups: vec![],
        edges: vec![def_use("h1", "h2", "uses it"), def_use("h1", "ghost", "calls it")],
        clusters: vec![],
        problems: vec![],
        notes: vec![],
        ledger: vec![],
    }
}

#[test]
fn build_items_resolves_edge_targets_within_the_review_and_flags_ones_outside_it() {
    let items = build_items(&two_hunks());
    assert_eq!(items.len(), 2);
    assert!(items[0].edges.iter().any(|e| e.target == Some(1)));
    assert!(items[0].edges.iter().any(|e| e.target.is_none()));
}

#[test]
fn an_item_names_its_part_of_the_change_only_where_there_are_several() {
    let mut out = two_hunks();
    out.groups = vec![Group { id: "g0".to_string(), reason: "same scope".to_string() }];
    assert!(build_items(&out).iter().all(|it| it.cluster.is_none()));
    out.clusters = vec![lines(&["h2"]), lines(&["h1"])];
    let items = build_items(&out);
    assert_eq!(items[0].cluster, Some(2));
    assert_eq!(items[1].cluster, Some(1));
}

#[test]
fn stack_pop_on_an_empty_stack_is_a_no_op() {
    let mut stack: Vec<(usize, Cursor)> = vec![];
    assert_eq!(stack_pop_valid(&mut stack, 10), None);
    assert!(stack.is_empty());
}

#[test]
fn stack_push_then_pop_returns_you_to_the_pushed_position() {
    let mut stack: Vec<(usize, Cursor)> = vec![];
    let pos = (2, Cursor { line: 5, col: 1 });
    stack_push(&mut stack, pos);
    assert_eq!(stack_pop_valid(&mut stack, 10), Some(pos));
    assert!(stack.is_empty());
}

#[test]
fn stack_push_is_bounded_dropping_the_oldest_entry_first() {
    let mut stack: Vec<(usize, Cursor)> = vec![];
    for i in 0..JUMP_STACK_CAP + 10 {
        stack_push(&mut stack, (i, Cursor { line: i, col: 0 }));
    }
    assert_eq!(stack.len(), JUMP_STACK_CAP);
    assert_eq!(stack.first().unwrap().0, 10);
    assert_eq!(stack.last().unwrap().0, JUMP_STACK_CAP + 9);
}

#[test]
fn stack_pop_valid_skips_an_entry_whose_index_no_longer_resolves() {
    let mut stack = vec![(0, Cursor { line: 1, col: 1 }), (99, Cursor { line: 0, col: 0 })];
    assert_eq!(stack_pop_valid(&mut stack, 5), Some((0, Cursor { line: 1, col: 1 })));
    assert!(stack.is_empty());
}

#[test]
fn why_rows_marks_edge_lines_and_carries_their_target() {
    let mut it = test_item("a.rs");
    it.edges = vec![edge("→ a.rs:L10   uses it", Some(3)), edge("→ b.rs:L1   calls it", None)];
    let rows = why_rows(&it, &[0, 1, 2, 3], &Theme::terminal("dark", false), None, &[], None, None);
    let edges: Vec<&WhyKind> = rows.iter().map(|r| &r.kind).filter(|k| matches!(k, WhyKind::Edge(_))).collect();
    assert!(matches!(edges[0], WhyKind::Edge(Some(3))));
    assert!(matches!(edges[1], WhyKind::Edge(None)));
}

#[test]
fn why_rows_treats_a_filtered_out_target_as_not_part_of_the_review() {
    let mut it = test_item("a.rs");
    it.edges = vec![edge("→ a.rs:L10   uses it", Some(3))];
    let rows = why_rows(&it, &[0, 1, 2], &Theme::terminal("dark", false), None, &[], None, None);
    let edges: Vec<&WhyKind> = rows.iter().map(|r| &r.kind).filter(|k| matches!(k, WhyKind::Edge(_))).collect();
    assert!(matches!(edges[0], WhyKind::Edge(None)));
}

fn fetch_entry() -> LedgerEntry {
    LedgerEntry {
        name: "fetch".to_string(),
        kind: Some("function_definition".to_string()),
        scope: None,
        path: "a.rs".to_string(),
        at: "h0".to_string(),
        change: "signature".to_string(),
        from: None,
        used_by: vec!["h1".to_string()],
    }
}

#[test]
fn the_list_defaults_to_symbols_and_mode_switches_it_back() {
    let mut app = test_app(1);
    app.items = vec![grouped_item("a.rs", "g0"), grouped_item("b.rs", "g1")];
    app.items[0].ledger = Some(0);
    let led = vec![fetch_entry()];

    set_mode(&mut app, ViewMode::Ledger, &led);
    assert_eq!(app.items[0].bucket, "L0");
    assert_eq!(app.items[1].bucket, "L-");
    assert!(app.show_groups);
    assert_eq!(app.groups.get("L0").map(String::as_str), Some("fetch — signature, used by 1 hunk"));
    assert_eq!(app.groups.get("L-").map(String::as_str), Some("no symbol changed"));

    set_mode(&mut app, ViewMode::Hunks, &led);
    assert_eq!(app.items[0].bucket, "g0");
    assert_eq!(app.items[1].bucket, "g1");
}

#[test]
fn switching_mode_drops_fold_state_keyed_to_the_old_one() {
    let mut app = test_app(1);
    app.items = vec![grouped_item("a.rs", "g0")];
    app.collapsed.insert("g0".to_string());
    set_mode(&mut app, ViewMode::Ledger, &[]);
    assert!(app.collapsed.is_empty());
}

#[test]
fn a_bucket_is_keyed_by_group_or_by_ledger_entry() {
    assert_eq!(bucket_key(ViewMode::Hunks, Some(3), "g7"), "g7");
    assert_eq!(bucket_key(ViewMode::Ledger, Some(3), "g7"), "L3");
    assert_eq!(bucket_key(ViewMode::Ledger, None, "g7"), "L-");
}

fn draft(app: &App, i: usize) -> String {
    draft_rule(app, i, Some("python".to_string())).join("\n")
}

#[test]
fn a_draft_rule_states_the_hunk_it_came_from() {
    let mut app = test_app(1);
    app.items = vec![item_with_symbol("a.py", "fetch")];
    app.items[0].notes = vec!["7 params".to_string()];
    let d = draft(&app, 0);
    assert!(d.contains("[[rule]]"), "{d}");
    assert!(d.contains("lang = \"python\""), "{d}");
    assert!(d.contains("kind = [\"function_definition\"]"), "{d}");
    assert!(d.contains("max-params = 6"), "{d}");
    assert!(d.contains("warn ="), "{d}");
}

#[test]
fn a_draft_turns_each_structural_note_into_its_limit() {
    let mut app = test_app(1);
    app.items = vec![item_with_symbol("a.py", "f")];
    app.items[0].notes = vec!["large definition (120 lines)".to_string(), "deeply nested (depth 4)".to_string()];
    let d = draft(&app, 0);
    assert!(d.contains("max-lines = 119"), "{d}");
    assert!(d.contains("max-nesting = 3"), "{d}");
}

#[test]
fn a_draft_from_a_hunk_with_no_symbol_says_it_is_broad() {
    let mut app = test_app(1);
    app.items = vec![test_item("a.py")];
    let d = draft(&app, 0);
    assert!(!d.contains("kind = ["), "{d}");
    assert!(d.contains("no symbol"), "{d}");
}

#[test]
fn a_cascade_is_transitive_not_just_the_direct_dependents() {
    let app = dependency_chain();
    assert_eq!(cascade(&app, 0), vec![1, 2]);
    assert_eq!(cascade(&app, 1), vec![2]);
    assert!(cascade(&app, 2).is_empty());
}

#[test]
fn a_cascade_terminates_on_a_dependency_cycle() {
    let mut app = dependency_chain();
    app.items[0].edges = vec![edge("← c.py:L1   def→use: h", Some(2))];
    let hit = cascade(&app, 0);
    assert_eq!(hit, vec![1, 2], "{hit:?}");
}

#[test]
fn a_cascade_ignores_hunks_filtered_out_of_the_view() {
    let mut app = dependency_chain();
    app.view = vec![0, 1];
    assert_eq!(cascade(&app, 0), vec![1]);
}

#[test]
fn a_leaf_strands_nothing_and_says_nothing() {
    let app = dependency_chain();
    assert!(cascade_line(&app, 2).is_none());
    assert!(cascade_line(&app, 0).is_some());
}

fn shifted(app: &App, prev: &TextMap<Snap>, by: usize, deps: Option<&str>) -> TextMap<Snap> {
    let mut out = TextMap::new();
    for it in &app.items {
        let key = snap_key(it);
        let s = prev.get(&key).unwrap();
        let d = match deps {
            Some(d) => vec![d.to_string()],
            None => s.d.clone(),
        };
        out.insert(key, Snap { c: s.c.clone(), p: s.p + by, d });
    }
    out
}

#[test]
fn a_hunk_that_only_moved_in_the_reading_order_is_reported_as_such() {
    let app = dependent_pair();
    let sources = Sources::new();
    let prev = shifted(&app, &snaps_of(&app, &sources), 5, None);
    let order: Vec<usize> = (0..app.items.len()).collect();
    let (_, deltas) = compare_runs(&app.items, &order, &sources, &prev);
    assert!(deltas.iter().all(|d| *d == Delta::Moved), "{deltas:?}");
}

#[test]
fn a_run_identical_to_the_last_one_reports_nothing() {
    let app = dependent_pair();
    let sources = Sources::new();
    let prev = snaps_of(&app, &sources);
    let order: Vec<usize> = (0..app.items.len()).collect();
    let (_, deltas) = compare_runs(&app.items, &order, &sources, &prev);
    assert!(deltas.iter().all(|d| *d == Delta::Same), "{deltas:?}");
}

#[test]
fn a_hunk_with_no_previous_snapshot_is_new() {
    let app = dependent_pair();
    let sources = Sources::new();
    let order: Vec<usize> = (0..app.items.len()).collect();
    let (_, deltas) = compare_runs(&app.items, &order, &sources, &TextMap::new());
    assert!(deltas.iter().all(|d| *d == Delta::New), "{deltas:?}");
}

#[test]
fn a_first_run_says_nothing_rather_than_calling_everything_new() {
    let mut app = dependent_pair();
    app.deltas = vec![Delta::New, Delta::New];
    assert!(delta_line(&app, 0).is_none());
    app.deltas = vec![Delta::New, Delta::Same];
    assert!(delta_line(&app, 0).is_some());
}

#[test]
fn a_changed_dependency_set_counts_as_moved() {
    let app = dependent_pair();
    let sources = Sources::new();
    let prev = shifted(&app, &snaps_of(&app, &sources), 0, Some("something-else"));
    let order: Vec<usize> = (0..app.items.len()).collect();
    let (_, deltas) = compare_runs(&app.items, &order, &sources, &prev);
    assert!(deltas.contains(&Delta::Moved), "{deltas:?}");
}

#[test]
fn approving_a_use_before_its_definition_is_reported() {
    let mut app = dependent_pair();
    app.reviewed[1] = true;
    let out = out_of_order_labels(&app, 1);
    assert_eq!(out.len(), 1, "{out:?}");
    assert!(out[0].starts_with("a.py:"), "{out:?}");
}

#[test]
fn reviewing_the_definition_first_says_nothing() {
    let mut app = dependent_pair();
    app.reviewed[0] = true;
    app.reviewed[1] = true;
    assert!(out_of_order_labels(&app, 1).is_empty());
}

#[test]
fn an_unreviewed_hunk_is_not_out_of_order() {
    let app = dependent_pair();
    assert!(out_of_order_labels(&app, 1).is_empty());
}

#[test]
fn edge_coverage_needs_both_ends_reviewed() {
    let mut app = dependent_pair();
    assert_eq!(coverage(&app), (0, 2, 0, 1));
    app.reviewed[1] = true;
    assert_eq!(coverage(&app), (1, 2, 0, 1));
    app.reviewed[0] = true;
    assert_eq!(coverage(&app), (2, 2, 1, 1));
}

#[test]
fn an_edge_leaving_the_view_is_not_counted_against_it() {
    let mut app = dependent_pair();
    app.view = vec![1];
    let (_, _, _, edges) = coverage(&app);
    assert_eq!(edges, 0);
}

#[test]
fn a_note_key_ignores_everything_a_rebase_can_move() {
    let mut a = item_with_symbol("api.py", "fetch");
    a.new_range = [10, 12];
    let mut b = item_with_symbol("moved/elsewhere.py", "fetch");
    b.new_range = [900, 902];
    b.rationale = "totally different".to_string();
    assert_eq!(note_key(&a), note_key(&b));
}

#[test]
fn a_note_key_separates_two_symbols_that_share_a_name() {
    let mut a = item_with_symbol("a.py", "run");
    a.symbols = vec![sym("run", "function_definition", None)];
    let mut b = item_with_symbol("a.py", "run");
    b.symbols = vec![sym("run", "function_definition", Some("Worker"))];
    assert_ne!(note_key(&a), note_key(&b));
}

#[test]
fn a_hunk_with_no_symbol_cannot_be_anchored_to() {
    let it = test_item("a.py");
    assert!(it.symbols.is_empty());
    assert!(note_key(&it).is_none());
}

#[test]
fn a_rename_maps_the_old_identity_onto_the_new_one() {
    let new = item_with_symbol("cfg.py", "load_cfg");
    let old = item_with_symbol("cfg.py", "parse_cfg");
    assert_eq!(note_key_named(&new, "parse_cfg"), note_key(&old));
    assert_ne!(note_key_named(&new, "parse_cfg"), note_key(&new));
}

#[test]
fn notes_round_trip_through_the_cache_file() {
    let mut notes = HashMap::new();
    notes.insert(42u64, "check the retry path".to_string());
    let text = save_notes(&notes).unwrap();
    assert_eq!(load_notes(&text), notes);
}

#[test]
fn a_missing_note_file_is_not_an_error() {
    assert!(load_notes("").is_empty());
}

#[test]
fn why_cursor_move_clamps_at_both_ends() {
    let mut app = test_app(3);
    why_cursor_move(&mut app, -1);
    assert_eq!(app.why_sel, 0, "can't move above the first line");
    why_cursor_move(&mut app, 1);
    assert_eq!(app.why_sel, 1);
    why_cursor_move(&mut app, 10);
    assert_eq!(app.why_sel, 2, "clamps at the last line");
    why_cursor_move(&mut app, 10);
    assert_eq!(app.why_sel, 2, "stays clamped past the last line");
}

#[test]
fn fnv1a_is_stable_for_a_known_input() {
    assert_eq!(fnv1a(b""), 0xcbf29ce484222325);
    assert_eq!(fnv1a(b"hello"), 0xa430d84680aabd0b);
}

fn item_with(path: &str, old: [usize; 2], new: [usize; 2], symbols: Vec<Symbol>, enclosing: Option<&str>) -> Item {
    let mut it = test_item(path);
    it.old_range = old;
    it.new_range = new;
    it.symbols = symbols;
    it.enclosing = enclosing.map(str::to_string);
    it
}

fn sources_for(path: &str, old: &[&str], new: &[&str]) -> Sources {
    let mut s = Sources::new();
    s.insert(path.to_string(), (lines(old), lines(new)));
    s
}

#[test]
fn mark_key_changes_when_hunk_content_changes() {
    let it_a = item_with("f.rs", [1, 1], [1, 1], vec![sym("run", "function_item", None)], None);
    let src_a = sources_for("f.rs", &["fn run() {}"], &["fn run() { 1 }"]);
    let src_b = sources_for("f.rs", &["fn run() {}"], &["fn run() { 2 }"]);
    let ka = mark_key("HEAD", &it_a, &src_a).unwrap();
    let kb = mark_key("HEAD", &it_a, &src_b).unwrap();
    assert_ne!(ka, kb, "a body edit must drop the mark, never carry it over silently");
}

#[test]
fn mark_key_covers_both_old_and_new_sides() {
    let it = item_with("f.rs", [1, 1], [1, 1], vec![], Some("run"));
    let src_a = sources_for("f.rs", &["fn run() { 1 }"], &["fn run() {\n    1\n}"]);
    let src_b = sources_for("f.rs", &["fn run() { 2 }"], &["fn run() {\n    1\n}"]);
    assert_ne!(mark_key("HEAD", &it, &src_a).unwrap(), mark_key("HEAD", &it, &src_b).unwrap());
}

#[test]
fn mark_key_is_unchanged_by_reordering_symbols() {
    let syms_a = vec![sym("a", "function_item", None), sym("b", "function_item", None)];
    let syms_b = vec![sym("b", "function_item", None), sym("a", "function_item", None)];
    let it_a = item_with("f.rs", [1, 1], [1, 2], syms_a, None);
    let it_b = item_with("f.rs", [1, 1], [1, 2], syms_b, None);
    let src = sources_for("f.rs", &["old"], &["fn a() {}", "fn b() {}"]);
    assert_eq!(mark_key("HEAD", &it_a, &src).unwrap(), mark_key("HEAD", &it_b, &src).unwrap());
}

#[test]
fn mark_key_falls_back_to_enclosing_when_no_symbols() {
    let it = item_with("f.rs", [1, 1], [1, 1], vec![], Some("A.run"));
    let src = sources_for("f.rs", &["old"], &["new"]);
    assert!(mark_key("HEAD", &it, &src).is_some());
}

#[test]
fn mark_key_none_without_source_content() {
    let it = item_with("f.rs", [1, 1], [1, 1], vec![], None);
    let empty = Sources::new();
    assert!(mark_key("HEAD", &it, &empty).is_none());
}

#[test]
fn mark_key_differs_across_rev_and_path() {
    let it = item_with("f.rs", [1, 1], [1, 1], vec![sym("run", "function_item", None)], None);
    let src = sources_for("f.rs", &["old"], &["new"]);
    let k1 = mark_key("HEAD", &it, &src).unwrap();
    let k2 = mark_key("abc123", &it, &src).unwrap();
    assert_ne!(k1, k2, "different revs must not collide");

    let it2 = item_with("g.rs", [1, 1], [1, 1], vec![sym("run", "function_item", None)], None);
    let mut src2 = sources_for("f.rs", &["old"], &["new"]);
    src2.insert("g.rs".to_string(), (lines(&["old"]), lines(&["new"])));
    let k3 = mark_key("HEAD", &it2, &src2).unwrap();
    assert_ne!(k1, k3, "different paths must not collide even with identical content/symbol");
}

#[test]
fn prune_marks_drops_old_entries_and_keeps_recent() {
    let now = 1_000_000_000u64;
    let mut marks: HashMap<u64, u64> = HashMap::new();
    marks.insert(1, now);
    marks.insert(2, now - MARK_TTL_SECS + 10);
    marks.insert(3, now - MARK_TTL_SECS - 10);
    marks.insert(4, 0);
    prune_marks(&mut marks, now);
    assert_eq!(marks.len(), 2);
    assert!(marks.contains_key(&1));
    assert!(marks.contains_key(&2));
    assert!(!marks.contains_key(&3));
    assert!(!marks.contains_key(&4));
}

#[test]
fn load_marks_degrades_to_empty_on_a_missing_or_corrupt_file() {
    assert!(load_marks("").is_empty());
    assert!(load_marks("not json").is_empty());
}

#[test]
fn save_marks_then_load_marks_round_trips() {
    let mut marks: HashMap<u64, u64> = HashMap::new();
    marks.insert(0xdeadbeef, 123);
    marks.insert(0x1, 456);
    let text = save_marks(&marks).unwrap();
    let got = load_marks(&text);
    assert_eq!(got, marks);

    let value: serde_json::Value = serde_json::from_str(&text).unwrap();
    let obj = value.as_object().unwrap();
    assert_eq!(obj.len(), 2);
    for (k, v) in obj {
        assert!(u64::from_str_radix(k, 16).is_ok(), "key must be plain hex: {k}");
        assert!(v.is_u64(), "value must be a plain timestamp: {v}");
    }
}

#[test]
fn the_files_of_a_repository_lie_under_the_cache_directory() {
    let home = cache_home(None, Some("/home/ada".to_string()));
    assert_eq!(home.as_deref(), Some("/home/ada/.cache"));
    assert_eq!(cache_home(Some("/x".to_string()), None).as_deref(), Some("/x"));
    assert!(cache_home(None, None).is_none());
    let p = marks_file_path(&home, "/repo").unwrap();
    assert!(p.starts_with("/home/ada/.cache/ordo/reviewed/"), "{p}");
    assert!(p.ends_with(".json"), "{p}");
    let c = comments_file_path(&home, "/repo").unwrap();
    assert_eq!(c, p.replace("/reviewed/", "/comments/"));
    assert!(comments_file_path(&None, "/repo").is_none());
}

#[test]
fn name_kind_and_scope_together_identify_symbols() {
    let a = vec![sym("run", "fn", None), sym("run", "fn", Some("A"))];
    let b = vec![sym("run", "fn", Some("A")), sym("run", "fn", None)];
    assert_eq!(symbols_identity(&a), symbols_identity(&b));
    let others = [
        vec![sym("run", "fn", None)],
        vec![sym("run", "fn", None), sym("run", "method", Some("A"))],
        vec![sym("run", "fn", None), sym("run", "fn", Some("B"))],
        vec![sym("run", "fn", None), sym("run", "fn", None)],
        vec![],
    ];
    for other in others {
        assert_ne!(symbols_identity(&a), symbols_identity(&other));
    }
}

#[test]
fn winnowing_leaves_some_of_the_paths_in_order() {
    let mut f = filt(&["src/*", "!src/skip*"]);
    f.skip_generated = true;
    let paths = lines(&["src/b.rs", "Cargo.lock", "src/skip.rs", "src/a.rs", "src/made.rs", "doc.md"]);
    let generated = [false, true, false, false, false, false];
    let left = f.apply(paths, &generated, &lines(&["src/made.rs"]));
    assert_eq!(left, lines(&["src/b.rs", "src/a.rs"]));
    let t = f.tally;
    assert_eq!((t.files_seen, t.files_generated, t.files_globbed, t.files_declared), (6, 1, 2, 1));
    assert_eq!(t.files_unreadable, 0);
}

fn filt(pats: &[&str]) -> Filter {
    let globs = build_globs(&lines(pats)).unwrap();
    Filter { globs, skip_generated: false, negatives_emptied: false, tally: Ledger::new() }
}

#[test]
fn positives_only_keep_only_matching_paths() {
    let f = filt(&["src/*"]);
    assert!(f.keep("src/a.rs", false));
    assert!(!f.keep("tests/a.rs", false));
}

#[test]
fn negatives_only_keep_everything_except_those() {
    let f = filt(&["!tests/*"]);
    assert!(f.keep("src/a.rs", false));
    assert!(f.keep("README.md", false));
    assert!(!f.keep("tests/a.rs", false));
}

#[test]
fn positive_and_negative_combine_as_and() {
    let f = filt(&["src/*", "!src/generated/*"]);
    assert!(f.keep("src/a.rs", false));
    assert!(!f.keep("src/generated/x.rs", false));
    assert!(!f.keep("tests/a.rs", false), "outside the positive set entirely");
}

#[test]
fn a_negative_excludes_a_path_a_positive_also_matches_regardless_of_order() {
    let f = filt(&["!src/a.rs", "src/*"]);
    assert!(!f.keep("src/a.rs", false));
    let f2 = filt(&["src/*", "!src/a.rs"]);
    assert!(!f2.keep("src/a.rs", false));
}

#[test]
fn escaped_bang_is_a_literal_positive_pattern() {
    let f = filt(&["\\!weird"]);
    assert!(f.keep("!weird", false));
    assert!(!f.keep("weird", false));
}

#[test]
fn apply_note_distinguishes_negatives_emptying_it_from_no_positive_match() {
    let mut f = filt(&["!src/*"]);
    let kept = f.apply(lines(&["src/a.rs", "src/b.rs"]), &[false, false], &[]);
    assert!(kept.is_empty());
    assert_eq!(f.note(), " (every matching path was excluded by a negative glob)");

    let mut f2 = filt(&["nomatch/*"]);
    let kept2 = f2.apply(lines(&["src/a.rs"]), &[false], &[]);
    assert!(kept2.is_empty());
    assert_eq!(f2.note(), " matching the given globs");
}

#[test]
fn filter_command_glob_type_supports_negatives_too() {
    let globs = build_globs(&["!tests/*".to_string()]).unwrap();
    let items = vec![test_item("src/a.rs"), test_item("tests/b.rs")];
    assert_eq!(compute_view(&items, false, true, Some(&globs)), vec![0]);
}

#[test]
fn a_glob_that_cannot_be_read_is_refused() {
    assert!(build_globs(&["src/[".to_string()]).is_err());
}

#[test]
fn the_filter_accounts_for_every_path_it_drops() {
    let mut f = filt(&["src/*"]);
    f.skip_generated = true;
    let paths = lines(&["src/a.rs", "Cargo.lock", "docs/a.md", "src/gen.rs"]);
    let kept = f.apply(paths, &[false, true, false, false], &lines(&["src/gen.rs"]));
    assert_eq!(kept, lines(&["src/a.rs"]));
    f.note_unreadable();
    assert_eq!(f.tally.files_seen, 4);
    assert_eq!(f.tally.files_generated, 1);
    assert_eq!(f.tally.files_globbed, 1);
    assert_eq!(f.tally.files_declared, 1);
    assert_eq!(f.tally.files_unreadable, 1);
}

#[test]
fn display_rows_inserts_one_header_per_contiguous_group_run() {
    let items = vec![grouped_item("a.rs", "g0"), grouped_item("a.rs", "g0"), grouped_item("b.rs", "g1")];
    let mut groups = TextMap::new();
    groups.insert("g0".to_string(), "same definition: run".to_string());
    groups.insert("g1".to_string(), "same scope: top-level".to_string());
    let view = vec![0, 1, 2];

    let rows = display_rows(&view, &items, &groups, true, &TextSet::new());
    let kinds: Vec<&str> = rows
        .iter()
        .map(|r| match r {
            DisplayRow::Header(_) => "header",
            DisplayRow::Item(_) => "item",
        })
        .collect();
    assert_eq!(kinds, vec!["header", "item", "item", "header", "item"]);
    let DisplayRow::Header(reason) = &rows[0] else { panic!("expected a header") };
    assert_eq!(reason, "▾ same definition: run (2)");
}

#[test]
fn theme_completes_from_the_theme_list() {
    let got = command_completions("theme catp", &[], &[], &[]);
    assert_eq!(got.len(), 4, "{got:?}");
    assert!(got.iter().all(|n| n.starts_with("catppuccin-")), "{got:?}");
}

#[test]
fn the_theme_command_swaps_the_palette_and_rejects_an_unknown_name() {
    let mut app = test_app(0);
    assert!(execute_command(&mut app, "theme nord").is_ok());
    assert_eq!(app.theme.name, "nord");
    match execute_command(&mut app, "theme nonesuch") {
        Err(msg) => assert!(msg.contains("unknown theme"), "{msg}"),
        Ok(_) => panic!("an unknown theme must be refused"),
    }
    assert_eq!(app.theme.name, "nord");
}

#[test]
fn a_folded_group_shows_its_header_and_hides_its_hunks() {
    let items = vec![grouped_item("a.rs", "g0"), grouped_item("a.rs", "g0"), grouped_item("b.rs", "g1")];
    let mut groups = TextMap::new();
    groups.insert("g0".to_string(), "same definition: run".to_string());
    groups.insert("g1".to_string(), "same scope: top-level".to_string());
    let view = vec![0, 1, 2];
    let mut collapsed = TextSet::new();
    collapsed.insert("g0".to_string());

    let rows = display_rows(&view, &items, &groups, true, &collapsed);
    let kinds: Vec<&str> = rows
        .iter()
        .map(|r| match r {
            DisplayRow::Header(_) => "header",
            DisplayRow::Item(_) => "item",
        })
        .collect();
    assert_eq!(kinds, vec!["header", "header", "item"]);
    let DisplayRow::Header(h) = &rows[0] else { panic!("expected a header") };
    assert_eq!(h, "▸ same definition: run (2)", "a folded header says what it hides");
}

#[test]
fn a_folded_groups_rows_are_skipped_when_placing_the_selection() {
    let items = vec![grouped_item("a.rs", "g0"), grouped_item("a.rs", "g0"), grouped_item("b.rs", "g1")];
    let view = vec![0, 1, 2];
    let mut collapsed = TextSet::new();
    collapsed.insert("g0".to_string());
    assert_eq!(display_row_of(&view, &items, true, &collapsed, 2), 2);
}

#[test]
fn folding_moves_the_selection_out_of_the_group_it_folds() {
    let mut app = test_app(0);
    app.items = vec![grouped_item("a.rs", "g0"), grouped_item("a.rs", "g0"), grouped_item("b.rs", "g1")];
    app.view = vec![0, 1, 2];
    app.reviewed = vec![false; 3];
    app.sel = 1;
    app.show_groups = true;

    fold(&mut app, Fold::Close);
    assert!(app.collapsed.contains("g0"));
    assert_eq!(app.sel, 2, "selection must land on a row that is drawn");
    assert_eq!(folded_view(&app), vec![2]);

    fold(&mut app, Fold::OpenAll);
    assert!(app.collapsed.is_empty());
    assert_eq!(folded_view(&app), vec![0, 1, 2]);
}

#[test]
fn folding_turns_group_headers_on_because_that_is_what_was_meant() {
    let mut app = test_app(0);
    app.items = vec![grouped_item("a.rs", "g0")];
    app.view = vec![0];
    app.reviewed = vec![false];
    app.show_groups = false;
    fold(&mut app, Fold::Toggle);
    assert!(app.show_groups);
}

#[test]
fn display_rows_is_flat_view_when_groups_are_off() {
    let items = vec![grouped_item("a.rs", "g0"), grouped_item("b.rs", "g1")];
    let groups = TextMap::new();
    let view = vec![0, 1];
    let rows = display_rows(&view, &items, &groups, false, &TextSet::new());
    assert_eq!(rows.len(), 2);
    assert!(rows.iter().all(|r| matches!(r, DisplayRow::Item(_))));
}

#[test]
fn display_row_of_skips_headers_so_selection_never_lands_on_one() {
    let items = vec![grouped_item("a.rs", "g0"), grouped_item("a.rs", "g0"), grouped_item("b.rs", "g1")];
    let groups = TextMap::new();
    let view = vec![0, 1, 2];
    let rows = display_rows(&view, &items, &groups, true, &TextSet::new());

    for pos in 0..view.len() {
        let row = display_row_of(&view, &items, true, &TextSet::new(), pos);
        assert!(
            matches!(rows[row], DisplayRow::Item(_)),
            "selection at view pos {pos} landed on row {row}, which is a header"
        );
    }
    assert_eq!(
        (0..view.len()).map(|p| display_row_of(&view, &items, true, &TextSet::new(), p)).collect::<Vec<_>>(),
        vec![1, 2, 4]
    );
}

#[test]
fn display_row_of_is_identity_when_groups_are_off() {
    let items = vec![grouped_item("a.rs", "g0"), grouped_item("b.rs", "g1")];
    assert_eq!(display_row_of(&[0, 1], &items, false, &TextSet::new(), 0), 0);
    assert_eq!(display_row_of(&[0, 1], &items, false, &TextSet::new(), 1), 1);
}

#[test]
fn carry_across_reload_keeps_keymap_and_theme() {
    let mut app = test_app(0);
    app.keys = keymap("vscode").unwrap();
    app.theme = theme("light").unwrap();
    let (keys, carried) = carry_across_reload(&app);
    assert_eq!(keys.name, "vscode");
    assert_eq!(carried.name, "light");
    assert!(colors_eq(carried.add_bg, theme("light").unwrap().add_bg));
}

#[test]
fn e_command_rejects_an_empty_argument() {
    let mut app = test_app(0);
    match execute_command(&mut app, "e") {
        Err(msg) => assert!(msg.contains("usage")),
        Ok(_) => panic!("expected an error for a missing rev argument"),
    }
}

#[test]
fn arg_candidates_e_offers_the_given_rev_pool() {
    let revs = lines(&["zz", "HEAD", "main"]);
    assert_eq!(arg_candidates("e", &[], &[], &revs), revs);
    assert_eq!(command_completions("e H", &[], &[], &revs), vec!["HEAD".to_string()]);
}

#[test]
fn a_jump_along_an_edge_leads_back() {
    let mut app = dependent_pair();
    app.sel = 1;
    app.why_sel = why_rows(&app.items[1], &app.view, &app.theme, None, &[], None, None)
        .iter()
        .position(|r| matches!(r.kind, WhyKind::Edge(_)))
        .unwrap();
    app.why_len = app.why_sel + 1;
    jump_to_edge(&mut app);
    assert_eq!(app.sel, 0);
    jump_back(&mut app);
    assert_eq!(app.sel, 1);
}

#[test]
fn a_note_that_was_set_reads_back_and_an_empty_one_clears_it() {
    let mut app = test_app(0);
    app.items = vec![item_with_symbol("a.py", "fetch")];
    assert!(set_note(&mut app, "check the retry path").is_ok());
    assert_eq!(note_for(&app, 0), Some("check the retry path"));
    assert!(set_note(&mut app, "").is_ok());
    assert!(note_for(&app, 0).is_none());
    app.items = vec![test_item("a.py")];
    assert!(set_note(&mut app, "lost").is_err());
}

#[test]
fn commands_act_on_the_review_or_are_refused() {
    let mut app = dependent_pair();
    assert!(matches!(execute_command(&mut app, "q"), Ok(CommandOutcome::Quit)));
    assert!(matches!(execute_command(&mut app, "goto b.py"), Ok(CommandOutcome::Done)));
    assert_eq!(app.sel, 1);
    assert!(execute_command(&mut app, "goto c.py").is_err());
    assert!(execute_command(&mut app, "frobnicate").is_err());
    assert!(matches!(execute_command(&mut app, "filter a.py"), Ok(CommandOutcome::Done)));
    assert_eq!(app.view, vec![0]);
    assert!(matches!(execute_command(&mut app, "strategy file"), Ok(CommandOutcome::Reorder(Strategy::File))));
    assert!(matches!(execute_command(&mut app, "e main"), Ok(CommandOutcome::Edit(r)) if r == "main"));
}

#[test]
fn the_quickfix_list_holds_the_hunks_in_view() {
    let mut app = dependent_pair();
    app.items[0].new_range = [7, 9];
    app.items[0].rationale = "adds f".to_string();
    app.reviewed[0] = true;
    app.view = vec![0];
    let q = quickfix_hunks(&app);
    assert_eq!(q.len(), 1);
    assert_eq!(q[0].filename, "a.py");
    assert_eq!(q[0].lnum, 7);
    assert_eq!(q[0].kind, Some('I'));
}

#[test]
fn what_changed_since_the_last_run_is_listed() {
    let mut app = dependent_pair();
    app.deltas = vec![Delta::New, Delta::Moved];
    app.delta_gone = 1;
    app.items[1].new_range = [4, 4];
    app.items[1].rationale = "uses f".to_string();
    assert_eq!(
        delta_lines(&app).unwrap(),
        lines(&["1 new", "0 changed", "1 unchanged but reordered", "1 gone", "", "  moved: b.py:L4  uses f"])
    );
    app.deltas = vec![Delta::New, Delta::New];
    assert!(delta_lines(&app).is_err());
}
