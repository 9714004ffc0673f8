use ordo::code_view::{excerpt, LineSpans};
use ordo::editor::{
    build_command, edit_message, editor_args, is_vim_family, qf_kind, quickfix_command, quickfix_message,
    quickfix_script, resolve_editor, split_command, vim_single_quote, Launch, QfHunk,
};
use ordo::keys::{
    action_help, build_help, ch, chord_label, ctrl, key_label, keymap, mods, norm, plain, Action, Key, KeyCode,
    KeyModifiers, Pane, Resolve,
};
use ordo::paint::{Span, Style};
use ordo::state::popup_width;
use ordo::theme::{Color, Theme};

fn texts(v: &[&str]) -> Vec<String> {
    v.iter().map(|s| s.to_string()).collect()
}

#[test]
fn split_command_separates_program_and_flags() {
    assert_eq!(split_command("code --wait"), vec!["code", "--wait"]);
    assert_eq!(split_command("vim"), vec!["vim"]);
    assert_eq!(split_command("emacsclient  -nw  -a ''"), vec!["emacsclient", "-nw", "-a", "''"]);
}

#[test]
fn editor_args_covers_each_line_argument_shape() {
    assert_eq!(editor_args("vim", "path", 120), texts(&["+120", "path"]));
    assert_eq!(editor_args("nvim", "path", 120), texts(&["+120", "path"]));
    assert_eq!(editor_args("hx", "path", 120), texts(&["path:120"]));
    assert_eq!(editor_args("code", "path", 120), texts(&["-g", "path:120"]));
    assert_eq!(editor_args("subl", "path", 120), texts(&["path"]));
}

#[test]
fn build_command_keeps_editor_flags_ahead_of_the_location() {
    let spec = split_command("code --wait");
    let (program, args) = build_command(&spec, "path", 120).unwrap();
    assert_eq!(program, "code");
    assert_eq!(args, texts(&["--wait", "-g", "path:120"]));
}

#[test]
fn build_command_matches_on_basename_not_full_path() {
    let spec = split_command("/usr/local/bin/hx");
    let (program, args) = build_command(&spec, "path", 120).unwrap();
    assert_eq!(program, "/usr/local/bin/hx");
    assert_eq!(args, texts(&["path:120"]));
}

#[test]
fn build_command_is_none_for_an_empty_spec() {
    assert!(build_command(&[], "path", 120).is_none());
}

#[test]
fn the_editor_is_taken_from_the_environment_in_order() {
    let some = |s: &str| Some(s.to_string());
    assert_eq!(resolve_editor(some("code --wait"), some("nano")), texts(&["code", "--wait"]));
    assert_eq!(resolve_editor(some("  "), some("nano")), texts(&["nano"]));
    assert_eq!(resolve_editor(None, some("")), texts(&["vi"]));
    assert_eq!(resolve_editor(None, None), texts(&["vi"]));
}

#[test]
fn what_came_of_the_editor_is_told() {
    assert_eq!(edit_message(&Launch::Done, "vim", "a.rs", 3, false), "opened a.rs:3");
    assert_eq!(
        edit_message(&Launch::Done, "vim", "a.rs", 3, true),
        "opened a.rs:3 (approximate — this file has changed since the reviewed revision)"
    );
    assert_eq!(
        edit_message(&Launch::Exited("exit status: 1".to_string()), "vim", "a.rs", 3, false),
        "vim exited with exit status: 1"
    );
    assert_eq!(
        edit_message(&Launch::Failed("not found".to_string()), "vim", "a.rs", 3, false),
        "failed to launch 'vim': not found"
    );
    assert_eq!(quickfix_message(&Launch::Done, "nvim", "q.vim"), "opened q.vim in nvim");
}

#[test]
fn key_label_renders_plain_and_modified_keys() {
    assert_eq!(key_label(ch('j')), "j");
    assert_eq!(key_label(ctrl('w')), "C-w");
    assert_eq!(key_label(plain(KeyCode::F(12))), "F12");
    assert_eq!(key_label((KeyCode::F(3), mods(false, true, false))), "S-F3");
    assert_eq!(key_label(plain(KeyCode::Esc)), "Esc");
}

#[test]
fn chord_label_renders_known_chords() {
    assert_eq!(chord_label(Some(ch('g')), ch('g')), "gg");
    assert_eq!(chord_label(Some(ch('g')), ch('e')), "ge");
    assert_eq!(chord_label(Some(ctrl('w')), ctrl('w')), "C-w C-w");
    assert_eq!(chord_label(Some(ctrl('w')), ch('h')), "C-w h");
    assert_eq!(chord_label(None, ch('q')), "q");
}

#[test]
fn help_text_is_generated_from_the_bind_table() {
    let km = keymap("vim").unwrap();
    let help = build_help(&km);
    let (_, desc) = action_help(Action::Hover);
    let row = help.iter().find(|l| l.contains(desc)).expect("hover row present");
    assert!(row.contains('K'), "expected the hover row to list K: {row}");
}

#[test]
fn help_collapses_multiple_keys_bound_to_the_same_action() {
    let km = keymap("vim").unwrap();
    let help = build_help(&km);
    let (_, desc) = action_help(Action::Next);
    let row = help.iter().find(|l| l.contains(desc)).expect("next row present");
    assert!(row.contains('j') && row.contains("Down"), "expected both keys on one row: {row}");
}

#[test]
fn help_covers_both_presets_without_panicking() {
    for name in ["vim", "vscode"] {
        let km = keymap(name).unwrap();
        let help = build_help(&km);
        assert!(!help.is_empty());
    }
    assert!(keymap("emacs").is_none());
}

fn line_text(l: &[Span]) -> String {
    l.iter().map(|s| s.content.as_str()).collect()
}

#[test]
fn excerpt_numbers_lines_and_uses_highlight_segments_when_present() {
    let lines: Vec<String> = vec!["fn a() {}".into(), "let x = 1;".into(), "done".into()];
    let plainly = excerpt(&lines, None, 2, 3, &Theme::terminal("dark", false));
    assert_eq!(plainly.len(), 2);
    assert_eq!(line_text(&plainly[0]), "    2 let x = 1;");
    let hl: Vec<LineSpans> = vec![
        vec![],
        vec![("let ".to_string(), Color::Magenta), ("x = 1;".to_string(), Color::Reset)],
        vec![],
    ];
    let lit = excerpt(&lines, Some(&hl), 2, 2, &Theme::terminal("dark", false));
    assert_eq!(lit.len(), 1);
    assert_eq!(lit[0].len(), 3, "gutter + two coloured segments");
    assert_eq!(lit[0][1].style.fg, Some(Color::Magenta));
}

#[test]
fn popup_width_measures_the_widest_line_across_its_spans() {
    let raw = |s: &str| Span::new(s.to_string(), Style::plain());
    let lines = vec![vec![raw("short")], vec![raw("12345"), raw("67890")], vec![raw("mid")]];
    assert_eq!(popup_width(&lines), 10, "spans on one line sum");
    assert_eq!(popup_width(&[]), 0);
}

#[test]
fn excerpt_stops_at_the_end_of_the_file() {
    let lines: Vec<String> = vec!["only".into()];
    assert_eq!(excerpt(&lines, None, 1, 9, &Theme::terminal("dark", false)).len(), 1);
    assert!(excerpt(&lines, None, 5, 9, &Theme::terminal("dark", false)).is_empty());
}

#[test]
fn vim_takes_arrows_after_a_window_chord() {
    let km = keymap("vim").unwrap();
    let w = Some(ctrl('w'));
    for (key, want) in [
        (plain(KeyCode::Left), Pane::List),
        (plain(KeyCode::Right), Pane::Code),
        (plain(KeyCode::Up), Pane::Code),
        (plain(KeyCode::Down), Pane::Why),
    ] {
        assert!(
            matches!(km.resolve(w, key), Resolve::Act(Action::Focus(p)) if p == want),
            "{}",
            chord_label(w, key)
        );
    }
    assert!(matches!(km.resolve(None, ctrl('w')), Resolve::Pending));
}

#[test]
fn shift_is_part_of_a_character_that_is_typed_with_it() {
    let held = KeyModifiers { control: false, shift: true, alt: false, other: false };
    assert_eq!(norm(KeyCode::Char('K'), held), ch('K'));
}

#[test]
fn no_preset_binds_the_same_chord_twice() {
    for name in ["vim", "vscode"] {
        let km = keymap(name).unwrap();
        let mut seen: Vec<(Option<Key>, Key)> = vec![];
        for (prefix, key, _) in &km.binds {
            let pair = (*prefix, *key);
            assert!(!seen.contains(&pair), "{name}: {} is bound twice", chord_label(*prefix, *key));
            seen.push(pair);
        }
    }
}

#[test]
fn every_bound_action_has_a_help_entry() {
    for name in ["vim", "vscode"] {
        let km = keymap(name).unwrap();
        for (prefix, key, action) in &km.binds {
            let (_, desc) = action_help(*action);
            assert!(!desc.trim().is_empty(), "{name}: {} has no help description", chord_label(*prefix, *key));
        }
    }
}

fn qf_hunk(filename: &str, lnum: usize, kind: Option<char>, cluster: Option<&str>, text: &str) -> QfHunk {
    QfHunk {
        filename: filename.to_string(),
        lnum,
        kind,
        cluster: cluster.map(str::to_string),
        text: text.to_string(),
    }
}

#[test]
fn quickfix_script_has_one_item_line_per_hunk_in_order() {
    let hunks = vec![
        qf_hunk("a.rs", 10, None, None, "first"),
        qf_hunk("b.rs", 20, Some('W'), Some("cluster 1"), "second"),
    ];
    let script = quickfix_script("HEAD", "comprehension", &hunks);
    assert!(script.contains("'nr': '$',"));
    let first = script.find("'filename': 'a.rs'").unwrap();
    let second = script.find("'filename': 'b.rs'").unwrap();
    assert!(first < second, "items must appear in the given order");
    assert!(script.contains("'lnum': 10"));
    assert!(script.contains("'lnum': 20"));
}

#[test]
fn quickfix_script_doubles_apostrophes_and_keeps_unicode_verbatim() {
    let hunks = vec![qf_hunk("a.rs", 1, None, None, "don't lose → this ⚠")];
    let script = quickfix_script("HEAD", "comprehension", &hunks);
    assert!(script.contains("don''t lose → this ⚠"));
    assert_eq!(vim_single_quote("a'b\nc"), "a''b c");
}

#[test]
fn quickfix_script_never_sets_vims_module_key() {
    let script = quickfix_script(
        "HEAD",
        "comprehension",
        &[
            qf_hunk("src/lib.rs", 12, None, Some("c2"), "wires it through"),
            qf_hunk("src/lang.rs", 75, None, None, "adds xonsh"),
        ],
    );
    assert!(!script.contains("'module'"), "{script}");
    assert!(script.contains("'filename': 'src/lib.rs'"), "{script}");
}

#[test]
fn quickfix_script_prefixes_the_cluster_onto_the_text() {
    let script = quickfix_script(
        "HEAD",
        "comprehension",
        &[qf_hunk("src/lib.rs", 12, None, Some("c2"), "wires it through")],
    );
    assert!(script.contains("'text': '[c2] wires it through'"), "{script}");
}

#[test]
fn quickfix_script_leaves_an_unclustered_text_alone() {
    let hunks = vec![qf_hunk("a.rs", 1, None, None, "plain")];
    let script = quickfix_script("HEAD", "comprehension", &hunks);
    assert!(script.contains("'text': 'plain'"), "{script}");
}

#[test]
fn quickfix_script_titles_by_distinct_cluster_count() {
    let hunks = vec![
        qf_hunk("a.rs", 1, None, Some("c1"), "one"),
        qf_hunk("b.rs", 2, None, Some("c2"), "two"),
        qf_hunk("c.rs", 3, None, Some("c2"), "three"),
    ];
    let script = quickfix_script("HEAD", "comprehension", &hunks);
    assert!(script.contains("3 hunks, 2 clusters"), "{script}");
}

#[test]
fn quickfix_script_on_an_empty_export_still_produces_a_valid_call() {
    let script = quickfix_script("HEAD", "comprehension", &[]);
    assert!(script.contains("'nr': '$',"));
    assert!(script.contains("'items': ["));
    assert!(script.trim_end().ends_with("]})"));
    assert!(!script.contains("'filename'"));
}

#[test]
fn a_quickfix_script_is_written_to_the_letter() {
    let hunks = vec![qf_hunk("a.rs", 10, Some('I'), Some("cluster 1"), "it's")];
    let script = quickfix_script("HEAD", "file", &hunks);
    assert_eq!(
        script,
        "call setqflist([], ' ', {\n  \\ 'nr': '$',\n  \\ 'title': 'ordo: HEAD — 1 hunk, 1 cluster',\n  \\ 'context': {'rev': 'HEAD', 'strategy': 'file'},\n  \\ 'items': [\n  \\   {'filename': 'a.rs', 'lnum': 10, 'col': 1, 'type': 'I', 'text': '[cluster 1] it''s'},\n  \\ ]})\n"
    );
}

#[test]
fn qf_kind_warn_beats_reviewed_and_neither_is_empty() {
    assert_eq!(qf_kind(true, false), Some('W'));
    assert_eq!(qf_kind(false, true), Some('I'));
    assert_eq!(qf_kind(true, true), Some('W'));
    assert_eq!(qf_kind(false, false), None);
}

#[test]
fn is_vim_family_matches_vim_and_neovim_by_basename_only() {
    for prog in ["vim", "nvim", "/usr/bin/nvim", "vi", "gvim", "mvim"] {
        assert!(is_vim_family(&[prog.to_string()]), "{prog} should be vim-family");
    }
    for prog in ["code", "emacs", "hx", "subl"] {
        assert!(!is_vim_family(&[prog.to_string()]), "{prog} should not be vim-family");
    }
    assert!(!is_vim_family(&[]));
    let (program, args) = quickfix_command(&texts(&["nvim", "-p"]), "/tmp/q.vim").unwrap();
    assert_eq!(program, "nvim");
    assert_eq!(args, texts(&["-p", "-S", "/tmp/q.vim", "-c", "copen", "-c", "silent! cfirst"]));
}
