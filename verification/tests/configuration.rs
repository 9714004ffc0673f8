use std::collections::BTreeMap;
use ordo::keyconfig::{
    apply_key_config, config_path, init_config, parse_key_config, plan_init_config, strip_comment, InitOutcome,
};
use ordo::keys::{
    action_by_name, action_name, all_actions, ch, ctrl, key_label, keymap, parse_bind_keys, parse_key, plain, Action,
    Key, KeyCode,
};
use ordo::rules::{
    load_rules, parse_rules, parse_rules_doc, preset, report_from, rule_sources, FileRead, RuleWorld, RulesReport,
};
use ordo::textmap::TextMap;
use ordo::theme::{
    apply_theme_colors, hex, hex_label, is_role, palettes, parse_hex, theme, theme_names, theme_role_color,
    theme_roles, Color, Palette, Theme,
};

fn lines(v: &[&str]) -> Vec<String> {
    v.iter().map(|s| s.to_string()).collect()
}

fn colors_eq(a: Color, b: Color) -> bool {
    matches!((a, b), (Color::Rgb(ar, ag, ab), Color::Rgb(br, bg, bb)) if ar == br && ag == bg && ab == bb)
}

const GO: &str = "[[rule]]\nname = \"no-panic\"\nlang = \"go\"\nuses = \"panic\"\nwarn = \"panic\"\n\n\
[[rule]]\nname = \"no-init\"\nlang = \"go\"\ndefines = \"init\"\nwarn = \"init\"\n\n\
[[rule]]\nname = \"function-size\"\nlang = \"go\"\nmax-lines = 80\nnote = \"long\"\n";

const C: &str = "[[rule]]\nname = \"no-recursion\"\nlang = \"c\"\nrecursive = true\nwarn = \"recursion\"\n\n\
[[rule]]\nname = \"function-length\"\nlang = \"c\"\nmax-lines = 60\nnote = \"long\"\n";

fn world(files: &[(&str, &str)]) -> RuleWorld {
    let mut w = RuleWorld {
        presets: TextMap::new(),
        files: TextMap::new(),
        categories: lines(&["import", "type-def", "impl", "test", "other"]),
        told: TextMap::new(),
    };
    w.presets.insert("go-uber-guide".to_string(), GO.to_string());
    w.presets.insert("c-power-of-ten".to_string(), C.to_string());
    for (path, text) in files {
        w.files.insert(path.to_string(), FileRead::Text(text.to_string()));
    }
    w
}

fn missing(mut w: RuleWorld, path: &str) -> RuleWorld {
    w.files.insert(path.to_string(), FileRead::Missing("No such file or directory (os error 2)".to_string()));
    w
}

fn rules_of(text: &str) -> (Vec<ordo::rules::Rule>, Vec<String>) {
    parse_rules(text, ".", &world(&[]))
}

#[test]
fn rules_come_from_the_user_then_the_repository() {
    let srcs = rule_sources(None, Some("/home/ada".to_string()), "/repo");
    assert_eq!(srcs.len(), 2);
    assert!(srcs[0].ends_with("ordo/rules.toml"), "{:?}", srcs[0]);
    assert_eq!(srcs[1], "/repo/.ordo/rules.toml");
}

#[test]
fn a_rules_file_parses_into_rules() {
    let (rules, problems) = rules_of(
        "[[rule]]\nname = \"security-first\"\npath = \"src/security/**\"\nnote = \"sensitive\"\npriority = 100\n\n             [[rule]]\nname = \"vendored\"\npath = \"vendor/**\"\nnoise = true\n",
    );
    assert!(problems.is_empty(), "{problems:?}");
    assert_eq!(rules.len(), 2);
    assert_eq!(rules[0].name, "security-first");
    assert_eq!(rules[0].when.path.as_deref(), Some("src/security/**"));
    assert_eq!(rules[0].note.as_deref(), Some("sensitive"));
    assert_eq!(rules[0].priority, 100);
    assert!(rules[1].noise);
}

#[test]
fn a_rule_without_a_name_is_a_problem_not_a_silent_default() {
    let (rules, problems) = rules_of("[[rule]]\npath = \"a/**\"\nnote = \"n\"\n");
    assert!(rules.is_empty());
    assert!(problems[0].contains("missing field `name`"), "{problems:?}");
}

#[test]
fn a_bad_rule_is_reported_and_dropped_not_partially_applied() {
    let (rules, problems) = rules_of("[[rule]]\nname = \"a\"\nnonsense = \"x\"\n");
    assert!(rules.is_empty());
    assert_eq!(problems.len(), 1, "{problems:?}");
    assert!(problems[0].contains("nonsense"), "{problems:?}");
}

#[test]
fn one_broken_rule_does_not_sink_the_others() {
    let (rules, problems) = rules_of(
        "[[rule]]\nname = \"bad\"\npriority = \"soon\"\n\n[[rule]]\nname = \"good\"\npath = \"x/**\"\n",
    );
    assert_eq!(rules.len(), 1);
    assert_eq!(rules[0].name, "good");
    assert_eq!(rules[0].when.path.as_deref(), Some("x/**"));
    assert_eq!(problems.len(), 1, "{problems:?}");
    assert!(problems[0].contains("bad"), "{problems:?}");
}

#[test]
fn an_unknown_key_names_itself_in_the_problem() {
    let (rules, problems) = rules_of("name = \"loose\"\n");
    assert!(rules.is_empty());
    assert!(problems[0].contains("name"), "{problems:?}");
}

#[test]
fn a_query_can_live_in_its_own_file() {
    let q = "(call function: (identifier) @fn)";
    let w = world(&[("rules/q.scm", q)]);
    let (rules, problems) = parse_rules("[[rule]]\nname = \"q\"\nquery-file = \"q.scm\"\n", "rules", &w);
    assert!(problems.is_empty(), "{problems:?}");
    assert_eq!(rules[0].when.query.as_deref(), Some(q));

    let w = missing(w, "rules/nope.scm");
    let (_, problems) = parse_rules("[[rule]]\nname = \"q\"\nquery-file = \"nope.scm\"\n", "rules", &w);
    assert!(problems[0].contains("nope.scm"), "{problems:?}");
}

#[test]
fn a_file_that_was_not_read_yet_is_asked_for() {
    let d = parse_rules_doc("[[rule]]\nname = \"q\"\nquery-file = \"q.scm\"\n", "rules", &world(&[]));
    assert_eq!(d.missing, lines(&["rules/q.scm"]));
}

#[test]
fn a_multi_line_query_and_a_kind_list_both_read() {
    let (rules, problems) = rules_of(
        "[[rule]]\nname = \"loop-shapes\"\nkind = [\"for_statement\", \"while_statement\"]\nquery = '''\n(call\n  function: (identifier) @f)\n'''\n",
    );
    assert!(problems.is_empty(), "{problems:?}");
    assert_eq!(
        rules[0].when.kind.as_deref(),
        Some(&["for_statement".to_string(), "while_statement".to_string()][..])
    );
    assert_eq!(rules[0].when.query.as_deref(), Some("(call\n  function: (identifier) @f)\n"));
}

#[test]
fn kind_as_a_bare_string_also_reads_as_a_one_entry_list() {
    let (rules, problems) = rules_of("[[rule]]\nname = \"one-kind\"\nkind = \"for_statement\"\n");
    assert!(problems.is_empty(), "{problems:?}");
    assert_eq!(rules[0].when.kind.as_deref(), Some(&["for_statement".to_string()][..]));
}

#[test]
fn kebab_case_keys_reach_the_matching_when_fields() {
    let (rules, problems) = rules_of(
        "[[rule]]\nname = \"limits\"\npath-not = \"vendor/**\"\nmax-params = 4\ncontainer-without = \"Drop\"\nmember-uninitialized = true\n",
    );
    assert!(problems.is_empty(), "{problems:?}");
    let w = &rules[0].when;
    assert_eq!(w.path_not.as_deref(), Some("vendor/**"));
    assert_eq!(w.max_params, Some(4));
    assert_eq!(w.container_without.as_deref(), Some("Drop"));
    assert_eq!(w.member_uninitialized, Some(true));
}

#[test]
fn a_rules_flag_file_is_layered_last_and_a_missing_one_is_a_problem() {
    let w = world(&[("extra.toml", "[[rule]]\nname = \"from-flag\"\nkind = \"type_definition\"\nnote = \"n\"\n")]);
    let w = missing(missing(missing(w, "nope.toml"), "/c/ordo/rules.toml"), "/repo/.ordo/rules.toml");
    let home = Some("/c".to_string());
    let (rules, problems) = load_rules(home.clone(), None, "/repo", &lines(&["extra.toml"]), &w);
    assert!(problems.is_empty(), "{problems:?}");
    assert!(rules.iter().any(|r| r.name == "from-flag"));
    let (_, problems) = load_rules(home, None, "/repo", &lines(&["nope.toml"]), &w);
    assert_eq!(problems.len(), 1, "{problems:?}");
    assert!(problems[0].contains("nope.toml"));
}

#[test]
fn an_included_preset_layers_first_and_a_same_named_rule_replaces_its_entry() {
    let w = world(&[(
        "rules.toml",
        "include = [\"go-uber-guide\"]\n[[rule]]\nname = \"no-panic\"\nlang = \"go\"\nuses = \"panic\"\nnote = \"ours: panic is fine in main\"\n[[rule]]\nname = \"no-cgo\"\nlang = \"go\"\nimports = \"C\"\nwarn = \"cgo\"\n",
    )]);
    let r = report_from(&[], &lines(&["rules.toml"]), &w);
    assert!(r.problems.is_empty(), "{:?}", r.problems);
    let preset_len = parse_rules_doc(&preset(&w.presets, "go-uber-guide").unwrap(), ".", &w).rules.len();
    assert_eq!(r.rules.len(), preset_len + 1, "one replaced in place, one added");
    let np = r.rules.iter().find(|x| x.name == "no-panic").unwrap();
    assert_eq!(np.note.as_deref(), Some("ours: panic is fine in main"));
    assert_eq!(r.replaced.len(), 1);
    assert!(r.replaced[0].starts_with("no-panic"), "{:?}", r.replaced);
    assert_eq!(r.origins.iter().find(|(o, _)| o == "go-uber-guide").map(|(_, n)| *n), Some(preset_len - 1));
}

#[test]
fn disables_apply_after_every_layer_so_an_earlier_file_can_silence_a_later_include() {
    let w = world(&[
        ("user.toml", "disable = [\"no-init\", \"*-size\"]\n"),
        ("repo.toml", "include = [\"go-uber-guide\"]\n"),
    ]);
    let r = report_from(&[], &lines(&["user.toml", "repo.toml"]), &w);
    assert!(r.problems.is_empty(), "{:?}", r.problems);
    assert!(r.rules.iter().all(|x| x.name != "no-init"));
    assert!(r.rules.iter().all(|x| x.name != "function-size"));
    assert!(r.disabled.iter().any(|d| d.starts_with("no-init")), "{:?}", r.disabled);
}

#[test]
fn a_missing_include_and_a_duplicate_name_are_problems() {
    let w = world(&[(
        "rules.toml",
        "include = [\"./nope.toml\"]\n[[rule]]\nname = \"twice\"\nnote = \"a\"\n[[rule]]\nname = \"twice\"\nnote = \"b\"\n",
    )]);
    let first = report_from(&[], &lines(&["rules.toml"]), &w);
    assert_eq!(first.missing.len(), 1);
    let w = missing(w, &first.missing[0]);
    let r = report_from(&[], &lines(&["rules.toml"]), &w);
    assert_eq!(r.rules.len(), 1);
    assert!(r.problems.iter().any(|p| p.contains("nope.toml")), "{:?}", r.problems);
    assert!(r.problems.iter().any(|p| p.contains("defined twice")), "{:?}", r.problems);
}

#[test]
fn an_include_cycle_is_reported_not_looped() {
    let text = "include = [\"./rules.toml\"]\n";
    let mut w = world(&[("rules.toml", text)]);
    let mut r: RulesReport = report_from(&[], &lines(&["rules.toml"]), &w);
    while !r.missing.is_empty() {
        for path in &r.missing {
            w.files.insert(path.clone(), FileRead::Text(text.to_string()));
        }
        r = report_from(&[], &lines(&["rules.toml"]), &w);
    }
    assert!(r.problems.iter().any(|p| p.contains("cycle")), "{:?}", r.problems);
}

#[test]
fn a_rules_flag_names_a_preset_or_a_file() {
    let w = missing(world(&[]), "c-power-of-ten");
    let r = report_from(&[], &["c-power-of-ten".to_string()], &w);
    assert!(r.problems.is_empty(), "{:?}", r.problems);
    assert!(r.rules.iter().any(|x| x.name == "no-recursion"));
    assert_eq!(r.origins, vec![("c-power-of-ten".to_string(), r.rules.len())]);
    assert!(r.lines()[0].ends_with("rules active"), "{}", r.lines()[0]);
}

#[test]
fn a_document_that_is_not_toml_is_one_problem() {
    let (rules, problems) = rules_of("[[rule\n");
    assert!(rules.is_empty());
    assert_eq!(problems.len(), 1, "{problems:?}");
}

#[test]
fn the_generated_config_is_one_the_program_accepts() {
    for (preset, theme_name) in [("vim", "dark"), ("vscode", "catppuccin-mocha")] {
        let text = init_config(preset, theme_name);
        let live: String = text
            .lines()
            .map(|l| match l.trim_start().strip_prefix("# ") {
                Some(rest) if rest.contains(" = ") => rest.to_string(),
                _ => l.to_string(),
            })
            .collect::<Vec<_>>()
            .join("\n");
        let cfg = parse_key_config(&live);
        assert!(cfg.problems.is_empty(), "{preset}/{theme_name}: {:?}", cfg.problems);
        assert_eq!(cfg.preset.as_deref(), Some(preset));
        assert_eq!(cfg.theme.as_deref(), Some(theme_name));
    }
}

#[test]
fn the_generated_config_changes_nothing_when_fully_uncommented() {
    let text = init_config("vim", "catppuccin-mocha");
    let live: String = text
        .lines()
        .filter_map(|l| match l.trim_start().strip_prefix("# ") {
            Some(rest) if rest.contains(" = ") => Some(rest.to_string()),
            _ if l.starts_with('[') => Some(l.to_string()),
            _ => None,
        })
        .collect::<Vec<_>>()
        .join("\n");
    let cfg = parse_key_config(&live);
    assert!(cfg.problems.is_empty(), "{:?}", cfg.problems);

    let base = keymap("vim").unwrap();
    let after = apply_key_config(keymap("vim").unwrap(), &cfg);
    assert_eq!(after.binds.len(), base.binds.len(), "no binding gained or lost");
    for b in &base.binds {
        assert!(after.binds.contains(b), "{:?} was dropped", key_label(b.1));
    }

    let t0 = theme("catppuccin-mocha").unwrap();
    let t1 = apply_theme_colors(t0, &cfg.colors);
    for role in theme_roles() {
        assert!(
            colors_eq(theme_role_color(&t0, role), theme_role_color(&t1, role)),
            "role `{role}` changed"
        );
    }
}

#[test]
fn every_generated_binding_names_a_real_action() {
    let text = init_config("vscode", "nord");
    for line in text.lines().filter_map(|l| l.strip_prefix("# \"")) {
        let Some((_, rest)) = line.split_once("\" = \"") else { continue };
        let Some((action, _)) = rest.split_once('"') else { continue };
        assert!(action_by_name(action).is_some(), "`{action}` is not an action");
    }
}

#[test]
fn a_config_is_written_only_where_there_is_none_or_by_force() {
    let place = || Some("/c/ordo/tui.toml".to_string());
    assert!(matches!(plan_init_config(None, false, false, "vim", "dark"), InitOutcome::NoPlace));
    assert!(matches!(
        plan_init_config(place(), true, false, "vim", "dark"),
        InitOutcome::Exists(p) if p == "/c/ordo/tui.toml"
    ));
    match plan_init_config(place(), true, true, "vim", "dark") {
        InitOutcome::Write(p, text) => {
            assert_eq!(p, "/c/ordo/tui.toml");
            assert_eq!(text, init_config("vim", "dark"));
        }
        _ => panic!("a forced write must be made"),
    }
    assert!(config_path(None, None).is_none());
    assert_eq!(config_path(Some("/c".to_string()), None), place());
}

#[test]
fn theme_selects_dark_and_light_by_name() {
    assert!(theme("dark").is_some());
    assert!(theme("light").is_some());
}

#[test]
fn theme_rejects_an_unknown_name() {
    assert!(theme("nonsense").is_none());
}

#[test]
fn light_theme_is_not_the_dark_values_inverted() {
    let dark = theme("dark").unwrap();
    let light = theme("light").unwrap();
    assert!(!colors_eq(dark.add_bg, light.add_bg));
    let Color::Rgb(dr, dg, db) = dark.add_bg else { panic!("dark add_bg not Rgb") };
    let Color::Rgb(lr, lg, lb) = light.add_bg else { panic!("light add_bg not Rgb") };
    assert!(!(lr == 255 - dr && lg == 255 - dg && lb == 255 - db), "not a bitwise inversion");
}

fn fields(t: &Theme) -> Vec<(&'static str, Color)> {
    vec![
        ("fg", t.fg),
        ("dim", t.dim),
        ("border", t.border),
        ("border_focus", t.border_focus),
        ("accent", t.accent),
        ("category", t.category),
        ("mark", t.mark),
        ("reviewed", t.reviewed),
        ("warn", t.warn),
        ("add_fg", t.add_fg),
        ("del_fg", t.del_fg),
        ("add_bg", t.add_bg),
        ("del_bg", t.del_bg),
        ("add_strong_bg", t.add_strong_bg),
        ("del_strong_bg", t.del_strong_bg),
        ("select_bg", t.select_bg),
        ("match_bg", t.match_bg),
        ("match_cur_bg", t.match_cur_bg),
        ("syn.comment", t.syn.comment),
        ("syn.keyword", t.syn.keyword),
        ("syn.string", t.syn.string),
        ("syn.number", t.syn.number),
        ("syn.function", t.syn.function),
        ("syn.type", t.syn.type_),
        ("syn.property", t.syn.property),
        ("syn.operator", t.syn.operator),
        ("syn.variable", t.syn.variable),
        ("syn.builtin", t.syn.builtin),
        ("syn.param", t.syn.param),
        ("syn.attribute", t.syn.attribute),
    ]
}

#[test]
fn every_theme_name_resolves_and_truecolor_themes_leave_nothing_to_the_terminal() {
    for name in theme_names() {
        let t = theme(&name).expect(&name);
        assert_eq!(t.name, name, "a theme must know its own name");
        if name == "dark" || name == "light" {
            assert_eq!(t.fg, Color::Reset, "{name}");
            continue;
        }
        for (role, c) in fields(&t) {
            assert!(matches!(c, Color::Rgb(..)), "{name}: {role} is not truecolor");
        }
    }
}

#[test]
fn a_diff_tint_is_distinguishable_from_the_selection_tint() {
    for name in theme_names() {
        let t = theme(&name).unwrap();
        assert!(!colors_eq(t.add_bg, t.del_bg), "{name}: add/del");
        assert!(!colors_eq(t.add_bg, t.select_bg), "{name}: add/select");
        assert!(!colors_eq(t.del_bg, t.select_bg), "{name}: del/select");
        assert!(!colors_eq(t.add_bg, t.add_strong_bg), "{name}: add/add-strong");
        assert!(!colors_eq(t.del_bg, t.del_strong_bg), "{name}: del/del-strong");
        assert!(!colors_eq(t.match_bg, t.match_cur_bg), "{name}: match/current");
    }
}

#[test]
fn a_complaint_about_a_rule_says_what_was_found_and_expected() {
    let mut w = world(&[]);
    let complaint = |key: &str, value: &str, w: &RuleWorld| {
        let text = format!("[[rule]]\nname = \"r\"\n{key} = {value}\n");
        parse_rules(&text, "", w).1.remove(0)
    };
    assert_eq!(
        complaint("category", "\"x\"", &w),
        "r: unknown variant `x`, expected one of `import`, `type-def`, `impl`, `test`, `other`\nin `category`\n"
    );
    assert_eq!(
        complaint("lang", "1.0", &w),
        "r: invalid type: floating point `1.0`, expected a string\nin `lang`\n"
    );
    assert_eq!(
        complaint("lang", "0.5", &w),
        "r: invalid type: floating point `0.5`, expected a string\nin `lang`\n"
    );
    assert_eq!(
        complaint("noise", "\"a\\n\"", &w),
        "r: invalid type: string \"a\\n\", expected a boolean\nin `noise`\n"
    );
    w.categories = lines(&["a", "b"]);
    assert_eq!(complaint("category", "\"x\"", &w), "r: unknown variant `x`, expected `a` or `b`\nin `category`\n");
    w.categories = lines(&["a"]);
    assert_eq!(complaint("category", "\"x\"", &w), "r: unknown variant `x`, expected `a`\nin `category`\n");
    w.categories = lines(&[]);
    assert_eq!(complaint("category", "\"x\"", &w), "r: unknown variant `x`, there are no variants\nin `category`\n");
}

#[test]
fn a_category_may_be_the_only_key_of_a_table() {
    let w = world(&[]);
    let read = |value: &str| parse_rules(&format!("[[rule]]\nname = \"r\"\ncategory = {value}\n"), "", &w);
    for value in ["\"test\"", "{ test = {} }", "{ test = [] }"] {
        let (rules, problems) = read(value);
        assert!(problems.is_empty(), "{problems:?}");
        assert_eq!(rules[0].when.category.as_deref(), Some("test"));
    }
    let told = [
        ("{}", "wanted exactly 1 element, found 0 elements"),
        ("{ impl = {}, test = {} }", "wanted exactly 1 element, more than 1 element"),
        ("{ test = 1 }", "expected table, found integer"),
        ("{ test = [1] }", "expected empty array"),
        ("{ test = { a = 1 } }", "expected empty table"),
        ("1", "invalid type: unit variant, expected string only"),
        ("1979-05-27", "invalid type: unit variant, expected string only"),
        ("{ test = 1979-05-27 }", "expected table, found datetime"),
    ];
    for (value, why) in told {
        let (rules, problems) = read(value);
        assert!(rules.is_empty());
        assert_eq!(problems, vec![format!("r: {why}\nin `category`\n")]);
    }
}

#[test]
fn a_complaint_about_a_value_is_in_the_words_of_the_reader() {
    let w = world(&[]);
    let values = ["1", "-3", "1.0", "0.25", "1e16", "inf", "-inf", "true", "\"é \\\" \\u0007\"", "[1]", "{ a = 1 }", "1979-05-27"];
    for value in values {
        for key in ["lang", "noise", "max-lines", "priority"] {
            let field = format!("{key} = {value}\n");
            let table: toml::Value = toml::Value::Table(field.parse().unwrap());
            let told = match key {
                "lang" => table.try_into::<BTreeMap<String, String>>().err(),
                "noise" => table.try_into::<BTreeMap<String, bool>>().err(),
                "max-lines" => table.try_into::<BTreeMap<String, usize>>().err(),
                _ => table.try_into::<BTreeMap<String, i64>>().err(),
            };
            let (_, problems) = parse_rules(&format!("[[rule]]\nname = \"r\"\n{field}"), "", &w);
            let expected: Vec<String> = told.into_iter().map(|why| format!("r: {why}")).collect();
            assert_eq!(problems, expected, "{field}");
        }
    }
}

#[test]
fn a_complaint_about_a_rules_file_tells_the_place_where_it_is_known() {
    let mut w = world(&[]);
    let text = "other = 1\n";
    let (rules, problems) = parse_rules(text, "", &w);
    assert!(rules.is_empty());
    assert_eq!(problems, lines(&["unknown field `other`, expected one of `include`, `disable`, `rule`\n"]));
    w.told.insert(text.to_string(), "TOML parse error at line 1, column 1".to_string());
    assert_eq!(parse_rules(text, "", &w).1, lines(&["TOML parse error at line 1, column 1"]));
    // words about another text are not taken
    assert_eq!(parse_rules("other = 2\n", "", &w).1, problems);
}

#[test]
fn parse_hex_takes_the_form_palettes_publish_and_nothing_else() {
    assert_eq!(parse_hex("#89b4fa"), Some(Color::Rgb(0x89, 0xb4, 0xfa)));
    assert_eq!(parse_hex("89b4fa"), Some(Color::Rgb(0x89, 0xb4, 0xfa)));
    assert_eq!(parse_hex("  #000000 "), Some(Color::Rgb(0, 0, 0)));
    assert_eq!(parse_hex("#89b4f"), None, "five digits");
    assert_eq!(parse_hex("#89b4fag"), None, "not hex");
    assert_eq!(parse_hex("blue"), None, "colour names are not accepted");
    assert_eq!(parse_hex("##89b4fa"), None, "one sign at most");
}

#[test]
fn colours_are_mixed_in_parts_of_256_and_written_in_hexadecimal() {
    assert_eq!(hex(0x89b4fa), Color::Rgb(0x89, 0xb4, 0xfa));
    assert_eq!(hex_label(0x89, 0x04, 0xfa), "#8904fa");
    assert_eq!(Palette::mix(0x000000, 0xffffff, 0), Color::Rgb(0, 0, 0));
    assert_eq!(Palette::mix(0x000000, 0xffffff, 256), Color::Rgb(255, 255, 255));
    assert_eq!(palettes().len() + 2, theme_names().len());
    assert!(is_role("border-focus"));
    assert!(!is_role("border_focus"));
}

#[test]
fn every_documented_theme_role_actually_changes_the_theme() {
    let base = theme("catppuccin-mocha").unwrap();
    let sentinel = Color::Rgb(1, 2, 3);
    for role in theme_roles() {
        let got = apply_theme_colors(base, &[(role.to_string(), sentinel)]);
        let changed = fields(&got).iter().filter(|(_, c)| colors_eq(*c, sentinel)).count();
        assert_eq!(changed, 1, "role `{role}` set {changed} fields, expected 1");
        assert!(
            colors_eq(theme_role_color(&got, role), sentinel),
            "role `{role}` reads back a different field than it writes"
        );
    }
}

#[test]
fn a_config_can_name_a_theme_and_override_its_roles() {
    let cfg = parse_key_config(
        "[theme]\nname = \"nord\"\nborder-focus = \"#ff0000\"\nsyntax-keyword = \"00ff00\"\n",
    );
    assert!(cfg.problems.is_empty(), "{:?}", cfg.problems);
    assert_eq!(cfg.theme.as_deref(), Some("nord"));

    let t = apply_theme_colors(theme(&cfg.theme.clone().unwrap()).unwrap(), &cfg.colors);
    assert!(colors_eq(t.border_focus, Color::Rgb(0xff, 0, 0)));
    assert!(colors_eq(t.syn.keyword, Color::Rgb(0, 0xff, 0)));
    assert!(colors_eq(t.syn.string, theme("nord").unwrap().syn.string));
}

#[test]
fn a_bad_theme_line_is_reported_by_number_and_skipped() {
    let cfg = parse_key_config("[theme]\nnmae = \"nord\"\nborder-focus = \"redish\"\nmark = \"#ffcc00\"\n");
    assert_eq!(cfg.problems.len(), 2, "{:?}", cfg.problems);
    assert!(cfg.problems[0].contains("line 2"), "{:?}", cfg.problems);
    assert!(cfg.problems[1].contains("line 3"), "{:?}", cfg.problems);
    assert_eq!(cfg.colors.len(), 1, "the good line still lands");
}

#[test]
fn a_hash_opens_a_comment_only_outside_quotes() {
    assert_eq!(strip_comment("mark = \"#ffcc00\"  # the ⚠ colour"), "mark = \"#ffcc00\"  ");
    assert_eq!(strip_comment("# whole line"), "");
    assert_eq!(strip_comment("preset = \"vim\""), "preset = \"vim\"");

    let cfg = parse_key_config("[theme]\nmark = \"#ffcc00\"  # trailing\n");
    assert!(cfg.problems.is_empty(), "{:?}", cfg.problems);
    assert_eq!(cfg.colors[0].0, "mark");
    assert!(colors_eq(cfg.colors[0].1, Color::Rgb(0xff, 0xcc, 0)));
}

#[test]
fn an_unknown_section_is_reported_rather_than_silently_ignored() {
    let cfg = parse_key_config("[colours]\nfg = \"#ffffff\"\n");
    assert!(cfg.problems[0].contains("unknown section"), "{:?}", cfg.problems);
}

#[test]
fn every_action_has_a_config_name_and_every_name_resolves() {
    let actions = all_actions();
    for km in ["vim", "vscode"] {
        for (_, _, action) in keymap(km).unwrap().binds {
            assert!(actions.contains(&action), "{action:?} is bound in {km} but has no config name");
        }
    }
    for action in actions {
        assert_eq!(action_by_name(action_name(action)), Some(action));
    }
}

#[test]
fn parse_key_is_the_inverse_of_key_label() {
    for km in ["vim", "vscode"] {
        for (prefix, key, _) in keymap(km).unwrap().binds {
            for k in prefix.into_iter().chain([key]) {
                assert_eq!(parse_key(&key_label(k)), Some(k), "{}", key_label(k));
            }
        }
    }
}

#[test]
fn a_chord_is_read_as_one_or_two_keys() {
    assert_eq!(parse_bind_keys("C-w h"), Some((Some(ctrl('w')), ch('h'))));
    assert_eq!(parse_bind_keys("F12"), Some((None, plain(KeyCode::F(12)))));
    assert_eq!(parse_bind_keys("g g g"), None);
    assert_eq!(parse_key(""), None);
    assert_eq!(parse_key("F1x"), None);
}

#[test]
fn a_config_can_add_replace_and_remove_bindings() {
    let cfg = parse_key_config(
        "preset = \"vscode\"\n\n[binds]\n\"C-n\" = \"next\"\n\"g d\" = \"jump-to-edge\"\n\"x\" = \"none\"\n",
    );
    assert!(cfg.problems.is_empty(), "{:?}", cfg.problems);
    assert_eq!(cfg.preset.as_deref(), Some("vscode"));

    let km = apply_key_config(keymap("vim").unwrap(), &cfg);
    let has = |p: Option<Key>, k: Key, a: Action| km.binds.contains(&(p, k, a));
    assert!(has(None, ctrl('n'), Action::Next), "added binding");
    assert!(has(Some(ch('g')), ch('d'), Action::JumpToEdge), "chord binding");
    assert!(
        !km.binds.iter().any(|(p, k, _)| p.is_none() && *k == ch('x')),
        "`none` removes the binding"
    );
}

#[test]
fn a_config_binding_replaces_the_presets_own() {
    let cfg = parse_key_config("[binds]\n\"j\" = \"prev\"\n");
    let km = apply_key_config(keymap("vim").unwrap(), &cfg);
    let bound: Vec<Action> =
        km.binds.iter().filter(|(p, k, _)| p.is_none() && *k == ch('j')).map(|(_, _, a)| *a).collect();
    assert_eq!(bound, vec![Action::Prev], "one binding, the config's");
}

#[test]
fn a_bad_config_line_is_reported_by_number_and_skipped() {
    let cfg = parse_key_config(
        "[binds]\n\"C-n\" = \"nonsense\"\n\"!!\" = \"next\"\nnot a pair\n\"C-y\" = \"help\"\n",
    );
    assert_eq!(cfg.problems.len(), 3, "{:?}", cfg.problems);
    assert!(cfg.problems[0].contains("line 2"), "{:?}", cfg.problems);
    assert!(cfg.problems[1].contains("line 3"), "{:?}", cfg.problems);
    assert_eq!(cfg.binds.len(), 1);
    assert_eq!(cfg.binds[0].2, Some(Action::Help));
}

#[test]
fn comments_and_blank_lines_are_ignored() {
    let cfg = parse_key_config("# a comment\n\npreset = \"vim\"  # trailing\n");
    assert!(cfg.problems.is_empty(), "{:?}", cfg.problems);
    assert_eq!(cfg.preset.as_deref(), Some("vim"));
}

#[test]
fn what_the_generated_file_writes_is_read_back() {
    for (r, g, b) in [(0, 0, 0), (255, 255, 255), (0x89, 0xb4, 0xfa), (9, 16, 160)] {
        assert_eq!(parse_hex(&hex_label(r, g, b)), Some(Color::Rgb(r, g, b)));
    }
    for name in ["vim", "vscode"] {
        let base = keymap(name).unwrap();
        let text: String = init_config(name, "nord")
            .lines()
            .filter_map(|l| if l.starts_with('[') { Some(l) } else { l.strip_prefix("# \"") })
            .map(|l| if l.starts_with('[') { format!("{l}\n") } else { format!("\"{l}\n") })
            .collect();
        let cfg = parse_key_config(&text);
        assert!(cfg.problems.is_empty(), "{:?}", cfg.problems);
        let after = apply_key_config(keymap(name).unwrap(), &cfg);
        assert_eq!(after.binds, base.binds);
    }
}
