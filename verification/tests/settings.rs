use ordo::args::{parse_args, version_line, Start, USAGE};
use ordo::comments::{comment_lines, comment_list, review_comments, set_comment, LineComment};
use ordo::config::{config_schema, CatalogSection, FieldKind, Surface};
use ordo::config_file::{config_write, config_written, toml_list, unhash, upsert_toml};
use ordo::config_ui::{config_includes, config_rule_state, ConfigUi};
use ordo::config_view::{config_help, config_lines, config_theme, config_title, config_toggle, config_top};
use ordo::consumers::{
    is_readable, manifest_needle, needles, other_repos, points_at, shown_as, Scan, MAX_BYTES, MAX_FILES,
};
use ordo::docs::{
    cell, commands_table, keys_table, render, rule_doc, rulesets_table, splice, when_field_of, wrap, DocWorld,
};
use ordo::keys::keymap;
use ordo::reorder::Change;
use ordo::rules::FileRead;
use ordo::theme::theme;

fn lines(v: &[&str]) -> Vec<String> {
    v.iter().map(|s| s.to_string()).collect()
}

fn started(args: &[&str], config: Option<&str>) -> (Start, Vec<String>) {
    parse_args(&lines(args), None, None, config.map(str::to_string))
}

#[test]
fn the_arguments_name_a_revision_globs_and_options() {
    let (start, told) = started(&["main", "src/*", "!tests/*", "--only-comments", "--theme", "nord", "--all"], None);
    assert!(told.is_empty(), "{told:?}");
    let Start::Review(s) = start else { panic!("expected a review") };
    assert_eq!(s.rev, "main");
    assert!(s.only_comments);
    assert_eq!(s.theme.name, "nord");
    assert_eq!(s.keys.name, "vim");
    assert!(!s.filter.skip_generated);
    assert!(s.filter.keep("src/a.rs", true));
    assert!(!s.filter.keep("docs/a.md", false));
}

#[test]
fn without_arguments_the_present_commit_is_reviewed() {
    let (start, _) = started(&[], None);
    let Start::Review(s) = start else { panic!("expected a review") };
    assert_eq!(s.rev, "HEAD");
    assert_eq!(s.theme.name, "dark");
    assert!(s.filter.skip_generated);
    assert!(s.rules.is_empty());
}

#[test]
fn an_argument_counts_before_the_environment_and_that_before_the_file() {
    let config = Some("preset = \"vscode\"\n[theme]\nname = \"nord\"\n".to_string());
    let at = |args: &[&str], keys: Option<&str>, th: Option<&str>| {
        let (start, _) =
            parse_args(&lines(args), keys.map(str::to_string), th.map(str::to_string), config.clone());
        match start {
            Start::Review(s) => (s.keys.name.to_string(), s.theme.name.to_string()),
            _ => panic!("expected a review"),
        }
    };
    let pair = |a: &str, b: &str| (a.to_string(), b.to_string());
    assert_eq!(at(&[], None, None), pair("vscode", "nord"));
    assert_eq!(at(&[], Some("vim"), Some("light")), pair("vim", "light"));
    assert_eq!(at(&["--theme", "dracula"], Some("vim"), Some("light")), pair("vim", "dracula"));
}

#[test]
fn help_version_and_mistakes_stop_before_a_review() {
    assert!(matches!(started(&["--help"], None).0, Start::Help));
    assert!(matches!(started(&["--version"], None).0, Start::Version));
    for bad in [&["--keys"][..], &["--keys", "emacs"], &["--theme", "beige"], &["--nonsense"], &["HEAD", "src/["]] {
        let (start, told) = started(bad, None);
        assert!(matches!(start, Start::Refused), "{bad:?}");
        assert!(!told.is_empty(), "{bad:?}");
    }
    assert!(USAGE.starts_with("ordo — "));
    assert_eq!(version_line("0.1.0", 1), "ordo 0.1.0 (ordo schema 1)");
}

#[test]
fn a_first_configuration_is_asked_for() {
    match started(&["--init-config", "--force", "--theme", "nord"], None).0 {
        Start::Init(preset, theme, force) => {
            assert_eq!((preset.as_str(), theme.as_str(), force), ("vim", "nord", true));
        }
        _ => panic!("expected a configuration to be written"),
    }
}

#[test]
fn problems_of_the_configuration_are_told() {
    let (start, told) = started(&[], Some("nonsense\n"));
    assert!(matches!(start, Start::Review(_)));
    assert_eq!(told.len(), 1);
    assert!(told[0].starts_with("ordo: tui.toml: "), "{told:?}");
}

#[test]
fn a_comment_follows_its_lines_or_goes_stale() {
    let before = lines(&["a", "b", "c"]);
    let mut c = LineComment::new("f.rs", 2, 2, "why b", &before);
    assert_eq!(c.at(), "f.rs:2");
    c.relocate(&lines(&["x", "y", "a", "b", "c"]));
    assert_eq!((c.start, c.end, c.stale), (4, 4, false));
    c.relocate(&lines(&["x", "y"]));
    assert!(c.stale);
}

#[test]
fn a_comment_on_an_unchanged_file_stays() {
    let text = lines(&["a", "b", "b", "c"]);
    let mut c = LineComment::new("f.rs", 3, 3, "the second b", &text);
    c.relocate(&text);
    assert_eq!((c.start, c.end, c.stale), (3, 3, false));
}

#[test]
fn comments_are_set_replaced_and_taken_away() {
    let side = lines(&["a", "b", "c"]);
    let mut all: Vec<LineComment> = vec![];
    assert!(set_comment(&mut all, "f.rs", None, 1, 1, "x").is_err());
    assert!(set_comment(&mut all, "f.rs", Some(&side), 2, 3, "later").is_ok());
    assert!(set_comment(&mut all, "f.rs", Some(&side), 1, 1, "first").is_ok());
    assert_eq!(all.len(), 2);
    let paths = lines(&["f.rs"]);
    assert_eq!(comment_list(&all, &paths), lines(&["f.rs:1  first", "f.rs:2-3  later"]));
    assert!(set_comment(&mut all, "f.rs", Some(&side), 1, 1, "").is_ok());
    assert_eq!(review_comments(&all, &paths).len(), 1);
    assert!(review_comments(&all, &lines(&["other.rs"])).is_empty());
    assert_eq!(comment_lines(4, None), (5, 5));
    assert_eq!(comment_lines(4, Some(7)), (5, 8));
    assert_eq!(comment_lines(7, Some(4)), (5, 8));
}

fn changed_file(path: &str) -> Change {
    Change { path: path.to_string(), old: None, new: None }
}

#[test]
fn a_dependent_is_a_file_that_names_a_changed_module() {
    let n = needles(&[changed_file("script/run.py"), changed_file("web/app.ts"), changed_file("README.md")]);
    assert_eq!(n, lines(&["script.run", "web/app"]));
    let mut scan = Scan { found: vec![], total: 0 };
    assert!(scan.has_room());
    scan.offer("../other", "main.py", "import script.run\n".to_string(), 18, &n);
    scan.offer("../other", "b.py", "import os\n".to_string(), 10, &n);
    assert_eq!(scan.found.len(), 1);
    assert_eq!(scan.found[0].path, "../other/main.py");
    assert_eq!(scan.total, 18);
}

#[test]
fn dependents_are_looked_for_within_bounds() {
    assert_eq!(shown_as("/src/mine", "/src/other"), "../other");
    assert_eq!(shown_as("/src/mine", "/lib/other"), "/lib/other");
    assert_eq!(manifest_needle("mine"), "../mine");
    assert!(is_readable(MAX_BYTES));
    assert!(!is_readable(MAX_BYTES + 1));
    assert_eq!(MAX_FILES, 200);
}

#[test]
fn a_repository_is_looked_into_once_and_never_the_reviewed_one() {
    let found = lines(&["/src/b", "/src/mine", "/src/a", "/src/b"]);
    assert_eq!(other_repos("/src/mine", &found), lines(&["/src/b", "/src/a"]));
    assert!(other_repos("/src/mine", &[]).is_empty());
    assert!(points_at("mine = { path = \"../mine\" }", "mine"));
    assert!(!points_at("mine = \"1\"", "mine"));
}

#[test]
fn a_condition_names_the_field_it_fills() {
    assert_eq!(when_field_of("query-file"), None);
    assert_eq!(when_field_of("noise-when").as_deref(), Some("noise"));
    assert_eq!(when_field_of("enclosing-kind").as_deref(), Some("enclosing_kind"));
}

fn surface() -> Surface {
    Surface {
        tui: Some("/c/ordo/tui.toml".to_string()),
        rules_file: Some("/r/.ordo/rules.toml".to_string()),
        docs_last: true,
        catalog: true,
        disables: lines(&["no-goto"]),
        includes: lines(&["go-uber-guide"]),
        sections: vec![CatalogSection { name: "c".to_string(), rules: lines(&["no-goto", "no-recursion"]) }],
        rulesets: lines(&["c-power-of-ten", "go-uber-guide"]),
    }
}

fn opened() -> ConfigUi {
    ConfigUi::open(&surface(), &keymap("vim").unwrap(), &theme("dark").unwrap())
}

fn catalog() -> Vec<CatalogSection> {
    surface().sections
}

fn select_key(c: &mut ConfigUi, key: &str) {
    for i in 0..c.rows.len() {
        if c.field(i).is_some_and(|f| f.key == key) {
            c.sel = i;
            return;
        }
    }
    panic!("no field {key}");
}

#[test]
fn everything_that_can_be_set_is_listed_by_section() {
    let v = config_schema(&surface(), &keymap("vim").unwrap(), &theme("dark").unwrap());
    let titles: Vec<&str> = v.iter().map(|s| s.title.as_str()).collect();
    assert_eq!(titles, vec!["general", "catalog", "rulesets", "theme roles", "keys"]);
    assert_eq!(v[0].fields[0].key, "preset");
    assert_eq!(v[4].fields.len(), keymap("vim").unwrap().binds.len());
}

#[test]
fn settings_that_were_not_touched_are_not_written() {
    let c = opened();
    assert!(c.changed().is_empty());
    assert!(config_write(&c, None, None).is_none());
    assert_eq!(config_title(&c), " config — Space change · w write · Esc close ");
    assert!(!config_help(&c).is_empty());
}

#[test]
fn switching_a_section_switches_its_rules() {
    let mut c = opened();
    select_key(&mut c, "section:c");
    config_toggle(&mut c, &catalog(), "vim");
    let (_, off) = config_rule_state(&c);
    config_toggle(&mut c, &catalog(), "vim");
    let (_, then) = config_rule_state(&c);
    assert_ne!(off, then);
    assert!(off.is_empty() || off.len() == 2, "{off:?}");
}

#[test]
fn a_section_reads_on_while_any_of_its_rules_is_on() {
    let mut c = opened();
    let on = |c: &ConfigUi, key: &str| {
        let f = c.sections.iter().flat_map(|s| &s.fields).find(|f| f.key == key).unwrap();
        matches!(f.kind, FieldKind::Flag(true))
    };
    for key in ["disable:no-goto", "disable:no-recursion", "disable:no-goto", "section:c", "section:c"] {
        select_key(&mut c, key);
        let (rows, sel) = (c.rows.clone(), c.sel);
        assert!(c.toggle(&catalog()));
        assert!(c.dirty);
        assert_eq!((c.rows.clone(), c.sel), (rows, sel));
        assert_eq!(on(&c, "section:c"), on(&c, "disable:no-goto") || on(&c, "disable:no-recursion"), "{key}");
    }
}

#[test]
fn a_changed_setting_is_written_where_it_belongs() {
    let mut c = opened();
    select_key(&mut c, "docs_last");
    assert!(c.toggle(&catalog()));
    select_key(&mut c, "include:c-power-of-ten");
    assert!(c.toggle(&catalog()));
    assert!(c.dirty);
    assert_eq!(config_includes(&c), lines(&["c-power-of-ten", "go-uber-guide"]));
    let plan = config_write(
        &c,
        Some(("/c/tui.toml".to_string(), FileRead::Text("# mine\npreset = \"vim\"\n".to_string()))),
        Some(("/r/rules.toml".to_string(), FileRead::Missing("none".to_string()))),
    )
    .unwrap();
    assert!(plan.failed.is_empty());
    assert_eq!(plan.writes.len(), 2);
    assert_eq!(plan.writes[0].0, "/c/tui.toml");
    assert_eq!(plan.writes[0].1, "docs_last = false\n# mine\npreset = \"vim\"\n");
    assert!(plan.writes[1].1.contains("include = [\"c-power-of-ten\", \"go-uber-guide\"]"), "{}", plan.writes[1].1);

    let failed = config_write(
        &c,
        Some(("/c/tui.toml".to_string(), FileRead::Failed("denied".to_string()))),
        None,
    )
    .unwrap();
    assert!(failed.writes.is_empty());
    assert_eq!(failed.failed, lines(&["/c/tui.toml: denied"]));

    let p = config_written(&mut c, lines(&["/c/tui.toml"]), vec![]);
    assert!(!p.lines.is_empty());
    assert!(c.changed().is_empty());
}

#[test]
fn the_theme_field_previews_another_theme() {
    let mut c = opened();
    select_key(&mut c, "theme");
    config_toggle(&mut c, &catalog(), "vim");
    let shown = config_theme(&c, &theme("dark").unwrap());
    assert!(shown.is_some_and(|t| t.name != "dark"));
}

#[test]
fn a_text_is_committed_only_where_it_was_edited() {
    let mut c = opened();
    select_key(&mut c, "theme.mark");
    let at = c.sel;
    c.editing = Some("#102030".to_string());
    c.commit_edit();
    assert!(matches!(&c.field(at).unwrap().kind, FieldKind::Text(t) if t == "#102030"));
    assert_eq!(c.changed().len(), 1);
}

#[test]
fn the_settings_screen_follows_the_selection() {
    let mut c = opened();
    c.move_config(3);
    assert_eq!(c.sel, 3);
    c.move_config(-100);
    assert_eq!(c.sel, 0);
    let (rows, at) = config_lines(&c, &theme("dark").unwrap(), 80);
    assert!(at < rows.len());
    assert!(rows.len() > c.rows.len());
    assert_eq!(config_top(0, rows.len(), 10), 0);
}

#[test]
fn a_comment_on_the_same_lines_takes_the_place_of_the_first() {
    let side = lines(&["a", "b", "c"]);
    let mut all: Vec<LineComment> = vec![];
    assert!(set_comment(&mut all, "f.rs", Some(&side), 1, 2, "one").is_ok());
    assert!(set_comment(&mut all, "f.rs", Some(&side), 3, 3, "two").is_ok());
    assert!(set_comment(&mut all, "f.rs", Some(&side), 1, 2, "three").is_ok());
    assert_eq!(all.len(), 2);
    assert_eq!(all[0].text, "three");
    // one line of a span takes the whole comment away
    assert!(set_comment(&mut all, "f.rs", Some(&side), 2, 2, "").is_ok());
    assert_eq!(all.len(), 1);
    assert_eq!(all[0].text, "two");
}

#[test]
fn setting_a_key_again_changes_nothing() {
    let text = "a = 1\n[s]\nc = 3\n[u]\n";
    for (section, key) in [(None, "a"), (None, "z"), (Some("s"), "c"), (Some("s"), "d"), (Some("t"), "\"x y\"")] {
        let once = upsert_toml(text, section, key, "9");
        assert_eq!(upsert_toml(&once, section, key, "9"), once);
    }
    // a key that holds the sign of equality is not found again
    let once = upsert_toml(text, Some("t"), "\"=\"", "9");
    assert_ne!(upsert_toml(&once, Some("t"), "\"=\"", "9"), once);
}

#[test]
fn a_key_is_set_in_place_and_other_lines_stay() {
    assert_eq!(unhash("## x"), " x");
    let text = "a = 1\n# b = 2\n[s]\nc = 3\n";
    assert_eq!(upsert_toml(text, None, "a", "9"), "a = 9\n# b = 2\n[s]\nc = 3\n");
    assert_eq!(upsert_toml(text, None, "b", "7"), "a = 1\nb = 7\n[s]\nc = 3\n");
    assert_eq!(upsert_toml(text, Some("s"), "c", "4"), "a = 1\n# b = 2\n[s]\nc = 4\n");
    let added = upsert_toml(text, Some("t"), "d", "5");
    assert!(added.starts_with(text), "{added}");
    assert!(added.contains("[t]\nd = 5"), "{added}");
    assert_eq!(toml_list(&lines(&["a", "b"])), "[\"a\", \"b\"]");
}

fn doc_world() -> DocWorld {
    DocWorld {
        languages: vec![],
        rulesets: vec![("demo".to_string(), "# Demo rules\n[[rule]]\nname = \"a\"\n".to_string())],
        containers: vec![],
    }
}

#[test]
fn filling_in_blocks_keeps_what_is_outside_of_them() {
    let w = doc_world();
    let text = "# T\n  <!-- ordo:begin rulesets -->\n  old\n  <!-- ordo:end rulesets -->\nmid\n\
        <!-- ordo:begin keys -->\n<!-- ordo:end keys -->\nend\n";
    let (new, keys) = splice(text, "a.md", &w).unwrap();
    assert_eq!(keys, lines(&["rulesets", "keys"]));
    assert!(new.starts_with("# T\n  <!-- ordo:begin rulesets -->\n  | preset"), "{new}");
    assert!(new.contains("\n  <!-- ordo:end rulesets -->\nmid\n<!-- ordo:begin keys -->\n"), "{new}");
    assert!(new.ends_with("\n<!-- ordo:end keys -->\nend\n"), "{new}");
    assert!(!new.contains("  old\n"));
    assert_eq!(splice(&new, "a.md", &w).unwrap(), (new, keys));
}

#[test]
fn tables_are_drawn_from_what_they_describe() {
    assert_eq!(cell("a|b <c> & d"), "a\\|b &lt;c&gt; &amp; d");
    assert_eq!(wrap(&lines(&["one", "two", "three"]), 9), "one, two,\nthree");
    assert!(keys_table().contains("open the text-search prompt"));
    assert!(commands_table().contains("strategy"));
    assert!(rulesets_table(&doc_world().rulesets).contains("| `demo` |"));
    let docs = rule_doc();
    for (i, (key, _, text)) in docs.iter().enumerate() {
        assert!(!text.is_empty(), "{key}");
        assert!(docs.iter().skip(i + 1).all(|(k, _, _)| k != key), "`{key}` is documented twice");
    }
}

#[test]
fn a_block_is_filled_in_and_the_rest_of_a_text_stays() {
    let w = doc_world();
    let plain = "# Title\n\nnothing generated here\n";
    let (same, keys) = splice(plain, "a.md", &w).unwrap();
    assert_eq!(same, plain);
    assert!(keys.is_empty());
    assert!(render("no-such-block", &w).is_none());

    let marked = "<!-- ordo:begin rulesets -->\nstale\n<!-- ordo:end rulesets -->\ntail\n";
    let (new, keys) = splice(marked, "a.md", &w).unwrap();
    assert_eq!(keys, lines(&["rulesets"]));
    assert!(new.starts_with("<!-- ordo:begin rulesets -->\n| preset | source |\n"), "{new}");
    assert!(new.ends_with("<!-- ordo:end rulesets -->\ntail\n"), "{new}");
    assert_eq!(splice(&new, "a.md", &w).unwrap().0, new);
    assert!(splice("<!-- ordo:begin rulesets -->\n", "a.md", &w).is_err());
    assert!(splice("<!-- ordo:begin x -->\n<!-- ordo:end x -->\n", "a.md", &w).is_err());
}
