use std::collections::HashMap;

use ordo::config::{CatalogSection, Surface};
use ordo::desk::{run_line, Desk, DeskOutcome};
use ordo::draw::{build_list, can_draw, command_bar_rect, command_menu_rect, draw, layout, popup_rect, Area};
use ordo::events::{apply, on_key, quits_loading, Effect};
use ordo::execute::CommandOutcome;
use ordo::filter::{build_globs, Filter};
use ordo::items::build_items;
use ordo::keys::{keymap, mods, Action, KeyCode, KeyModifiers, Pane};
use ordo::load::{
    carry_notes, empty_message, highlight_candidates, highlight_change, load, sources_of, tally, timing_line, Kept,
    LoadResult, Loaded, Times,
};
use ordo::code_view::Highlights;
use ordo::identity::{mark_key, note_key};
use ordo::links::count_edges;
use ordo::model::{Edge, FileOut, HunkOut, LedgerEntry, OrderItem, Output, Symbol};
use ordo::reorder::{run_strategy, show_draft, Change};
use ordo::run::{
    begin, closing_line, edit_target, loading_title, on_lost, on_message, on_press, switch_to, LoadMsg, Phase, Session,
    Step,
};
use ordo::state::App;
use ordo::textmap::TextMap;
use ordo::theme::{theme, Theme};

fn lines(v: &[&str]) -> Vec<String> {
    v.iter().map(|s| s.to_string()).collect()
}

fn hunk(id: &str, name: &str, at: usize) -> HunkOut {
    HunkOut {
        id: id.to_string(),
        old_range: [at, at],
        new_range: [at, at],
        category: "other".to_string(),
        enclosing: None,
        rules: vec![],
        group: "g0".to_string(),
        rationale: format!("changes {name}"),
        noise: false,
        comment: false,
        details: vec![],
        notes: vec![],
        advisories: vec![],
        symbols: vec![Symbol { name: name.to_string(), kind: "function_item".to_string(), scope: None }],
        uses_at: vec![],
    }
}

fn change(path: &str, old: &str, new: &str) -> Change {
    Change { path: path.to_string(), old: Some(old.to_string()), new: Some(new.to_string()) }
}

fn two_files() -> Vec<Change> {
    vec![
        change("a.rs", "fn f() {}\n", "fn f(x: u8) {}\n"),
        change("b.rs", "fn g() { f() }\n", "fn g() { f(1) }\n"),
    ]
}

fn file(path: &str, h: HunkOut) -> FileOut {
    FileOut { path: path.to_string(), hunks: vec![h], degraded: false, unsupported: false, dropped: vec![] }
}

fn account() -> Output {
    let at = |p: &str, h: &str| OrderItem { path: p.to_string(), hunk: h.to_string() };
    Output {
        order: vec![at("a.rs", "h1"), at("b.rs", "h2")],
        files: vec![file("a.rs", hunk("h1", "f", 1)), file("b.rs", hunk("h2", "g", 1))],
        groups: vec![],
        edges: vec![Edge { from: "h1".to_string(), to: "h2".to_string(), why: "def→use: f".to_string() }],
        clusters: vec![],
        problems: vec![],
        notes: vec![],
        ledger: vec![],
    }
}

fn nothing_kept() -> Kept {
    Kept {
        marks_path: Some("/c/marks.json".to_string()),
        marks: HashMap::new(),
        notes_path: None,
        notes: HashMap::new(),
        snaps: TextMap::new(),
    }
}

fn loaded_with(kept: Kept) -> LoadResult {
    let out = account();
    let items = build_items(&out);
    let filter = Filter::new(build_globs(&[]).unwrap(), true);
    let times = Times { read: 1, highlight: 2, order: 3 };
    match load("HEAD", false, sources_of(&two_files()), Highlights::new(), &filter, 2, out, items, kept, 5, times) {
        Loaded::Review(l, _, _) => l,
        Loaded::Nothing(why) => panic!("{why}"),
    }
}

fn dark() -> Theme {
    theme("dark").unwrap()
}

fn fresh() -> Session {
    begin("HEAD".to_string(), keymap("vim").unwrap(), None, false, dark(), vec![], vec![])
}

fn ready() -> Session {
    on_message(fresh(), LoadMsg::Done(Box::new(loaded_with(nothing_kept())))).0
}

fn app() -> App {
    match ready().phase {
        Phase::Ready(a) => *a,
        Phase::Loading(..) => panic!("the review is loaded"),
    }
}

fn held() -> KeyModifiers {
    mods(false, false, false)
}

fn press(a: &mut App, c: char) -> Effect {
    on_key(a, KeyCode::Char(c), held(), 100)
}

#[test]
fn a_review_is_loaded_from_the_account_of_the_change() {
    let l = loaded_with(nothing_kept());
    assert_eq!(l.items.len(), 2);
    assert_eq!(l.view, vec![0, 1]);
    assert_eq!(l.reviewed, vec![false, false]);
    assert_eq!(l.timing, "ordo: read 2 files in 1ms · highlighted 0 in 2ms · ordered 2 hunks into 0 groups, 0 clusters in 3ms");
}

#[test]
fn a_mark_that_was_kept_is_found_again() {
    let mut a = app();
    assert!(matches!(apply(&mut a, Action::ToggleReviewed, 100), Effect::SaveMarks));
    assert!(a.reviewed[0]);
    assert_eq!(a.marks.len(), 1);
    let mut kept = nothing_kept();
    kept.marks = a.marks;
    assert_eq!(loaded_with(kept).reviewed, vec![true, false]);
}

#[test]
fn toggling_twice_leaves_a_hunk_as_it_was() {
    let mut a = app();
    apply(&mut a, Action::ToggleReviewed, 100);
    a.sel = 0;
    apply(&mut a, Action::ToggleReviewed, 101);
    assert!(!a.reviewed[0]);
    assert!(a.marks.is_empty());
}

#[test]
fn an_empty_account_is_told_instead_of_shown() {
    let filter = Filter::new(build_globs(&[]).unwrap(), true);
    let mut out = account();
    out.order = vec![];
    out.files = vec![];
    out.edges = vec![];
    let times = Times { read: 0, highlight: 0, order: 0 };
    let r = load(
        "HEAD", true, sources_of(&[]), Highlights::new(), &filter, 0, out, vec![], nothing_kept(), 5, times,
    );
    match r {
        Loaded::Nothing(why) => assert_eq!(why, empty_message("HEAD", true, filter.note())),
        Loaded::Review(..) => panic!("there is nothing to review"),
    }
    assert_eq!(empty_message("HEAD", false, ""), "ordo: nothing to review in HEAD");
    assert_eq!(empty_message("HEAD", true, "!"), "ordo: nothing to review in HEAD — no comment changes!");
    assert_eq!(
        timing_line(1, 1, 2, 1, 1, &Times { read: 4, highlight: 5, order: 6 }),
        "ordo: read 1 file in 4ms · highlighted 1 in 5ms · ordered 2 hunks into 1 groups, 1 cluster in 6ms"
    );
}

#[test]
fn files_are_read_into_lines_and_painted() {
    let s = sources_of(&two_files());
    assert_eq!(s.get("a.rs").unwrap().1, lines(&["fn f(x: u8) {}"]));
    let changes = two_files();
    assert_eq!(highlight_candidates(&changes), vec![0, 1]);
    let mut h = Highlights::new();
    highlight_change(&mut h, &changes[0], &dark().syn);
    let painted = &h.get("a.rs").unwrap()[0];
    let text: String = painted.iter().map(|(t, _)| t.as_str()).collect();
    assert_eq!(text, "fn f(x: u8) {}");
    assert_eq!(painted.iter().find(|(t, _)| t == "fn").unwrap().1, dark().syn.keyword);
}

#[test]
fn hunks_that_were_dropped_are_tallied() {
    let mut f = file("a.rs", hunk("h1", "f", 1));
    f.dropped = lines(&["not-comment", "not-comment"]);
    f.hunks[0].category = "import".to_string();
    let l = tally(ordo::filter::Ledger::new(), &[f]);
    assert_eq!(l.hunks_import, 1);
}

#[test]
fn a_note_follows_a_renamed_symbol() {
    let items = build_items(&account());
    let mut old = build_items(&account());
    old[0].symbols[0].name = "before".to_string();
    let mut notes = HashMap::new();
    notes.insert(note_key(&old[0]).unwrap(), "keep me".to_string());
    let entry = LedgerEntry {
        name: "f".to_string(),
        kind: Some("function_item".to_string()),
        scope: None,
        path: "a.rs".to_string(),
        at: "h1".to_string(),
        change: "renamed".to_string(),
        from: Some("before".to_string()),
        used_by: vec![],
    };
    assert!(carry_notes(&mut notes, &[entry], &items));
    assert_eq!(notes.get(&note_key(&items[0]).unwrap()).map(String::as_str), Some("keep me"));
}

#[test]
fn a_session_loads_then_runs_then_ends() {
    let s = fresh();
    assert!(matches!(&s.phase, Phase::Loading(..)));
    let (s, ends) = on_message(s, LoadMsg::Progress("reading a.rs".to_string()));
    assert!(!ends);
    assert!(matches!(&s.phase, Phase::Loading(p, _) if p == "reading a.rs"));
    let (_, ends) = on_message(s, LoadMsg::Empty("ordo: nothing".to_string()));
    assert!(ends);
    let (s, ends) = on_lost(fresh());
    assert!(ends);
    assert!(closing_line(s).is_some());
    assert_eq!(loading_title("HEAD"), " HEAD — loading… ");
    assert!(quits_loading(&keymap("vim").unwrap(), KeyCode::Char('q'), held()));
    assert!(!quits_loading(&keymap("vim").unwrap(), KeyCode::Char('j'), held()));
}

#[test]
fn keys_reach_the_review_once_it_is_loaded() {
    let (s, step) = on_press(ready(), KeyCode::Char('j'), held(), 1);
    assert!(matches!(step, Step::Do(Effect::Stay)));
    match &s.phase {
        Phase::Ready(a) => assert_eq!(a.sel, 1),
        Phase::Loading(..) => panic!("the review is loaded"),
    }
    let (_, step) = on_press(s, KeyCode::Char('q'), held(), 1);
    assert!(matches!(step, Step::Leave));
}

#[test]
fn another_revision_starts_over_with_the_same_keys_and_theme() {
    let mut s = ready();
    if let Phase::Ready(a) = &mut s.phase {
        a.keys = keymap("vscode").unwrap();
        a.theme = theme("nord").unwrap();
    }
    let s = switch_to(s, "main".to_string(), Some("abc".to_string()), false);
    assert_eq!(s.rev, "main");
    assert_eq!(s.theme.name, "nord");
    assert!(matches!(&s.phase, Phase::Loading(_, k) if k.name == "vscode"));
}

#[test]
fn a_popup_takes_the_next_key() {
    let mut a = app();
    press(&mut a, '?');
    assert!(a.popup.is_some());
    press(&mut a, 'q');
    assert!(a.popup.is_none(), "quitting closes the popup first");
    assert!(matches!(press(&mut a, 'q'), Effect::Quit));
}

#[test]
fn a_search_is_typed_and_can_be_taken_back() {
    let mut a = app();
    apply(&mut a, Action::Focus(Pane::Code), 1);
    let before = a.cursor;
    press(&mut a, '/');
    assert!(a.prompt.is_some());
    press(&mut a, 'u');
    press(&mut a, '8');
    assert_eq!(a.prompt.as_ref().map(|p| p.text.as_str()), Some("u8"));
    on_key(&mut a, KeyCode::Esc, held(), 1);
    assert!(a.prompt.is_none());
    assert_eq!(a.cursor, before);

    press(&mut a, '/');
    press(&mut a, 'u');
    press(&mut a, '8');
    on_key(&mut a, KeyCode::Enter, held(), 1);
    assert_eq!(a.search.as_ref().map(|s| s.matches.len()), Some(1));
    assert_eq!((a.cursor.line, a.cursor.col), (0, 8));
}

#[test]
fn a_command_is_typed_completed_and_run() {
    let mut a = app();
    press(&mut a, ':');
    assert!(a.command.is_some());
    for c in "them".chars() {
        press(&mut a, c);
    }
    on_key(&mut a, KeyCode::Tab, held(), 1);
    on_key(&mut a, KeyCode::Enter, held(), 1);
    assert_eq!(a.command.as_ref().map(|b| b.text.as_str()), Some("theme "));
    for c in "nord".chars() {
        press(&mut a, c);
    }
    let e = on_key(&mut a, KeyCode::Enter, held(), 1);
    assert!(matches!(e, Effect::Command(CommandOutcome::Done)) || matches!(e, Effect::Stay));
    assert_eq!(a.theme.name, "nord");
}

#[test]
fn another_strategy_orders_the_review_anew() {
    let mut a = app();
    a.reviewed[0] = true;
    let mut out = account();
    out.order.reverse();
    run_strategy(&mut a, "file", &out).unwrap();
    assert_eq!(a.items[0].path, "b.rs");
    assert_eq!(a.strategy, "file");
    out.order = vec![];
    assert!(run_strategy(&mut a, "file", &out).is_err());
    assert_eq!(a.items.len(), 2);
    show_draft(&mut a, Some("rust".to_string()));
    assert!(a.popup.is_some());
}

#[test]
fn the_editor_opens_at_the_hunk() {
    let mut a = app();
    assert_eq!(edit_target(&a, "x", "x"), ("a.rs".to_string(), 1, true));
    a.review_sha = Some("abc".to_string());
    assert_eq!(edit_target(&a, "x", "x"), ("a.rs".to_string(), 1, false));
    assert_eq!(edit_target(&a, "x", "y"), ("a.rs".to_string(), 1, true));
}

fn area(width: u16, height: u16) -> Area {
    Area { x: 0, y: 0, width, height }
}

#[test]
fn boxes_are_placed_within_the_screen() {
    assert_eq!(popup_rect(area(100, 40), 5), Area { x: 5, y: 16, width: 90, height: 7 });
    let bar = command_bar_rect(area(100, 40));
    assert!(bar.width <= 100 && bar.y < 40);
    let menu = command_menu_rect(bar, area(100, 40), 3);
    assert_eq!(menu.width, bar.width);
}

#[test]
fn the_screen_is_split_into_three_panes() {
    let p = layout(area(100, 40));
    assert_eq!(p.list, area(38, 40));
    assert_eq!(p.code, Area { x: 38, y: 0, width: 62, height: 28 });
    assert_eq!(p.why, Area { x: 38, y: 28, width: 62, height: 12 });
    for (whole, list, code) in [
        (Area { x: 0, y: 0, width: 25, height: 15 }, 10, 11),
        (Area { x: 3, y: 7, width: 75, height: 25 }, 29, 18),
        (Area { x: 1, y: 2, width: 0, height: 1 }, 0, 1),
        (Area { x: 0, y: 0, width: 213, height: 59 }, 81, 41),
        (Area { x: 65530, y: 65530, width: 5, height: 5 }, 2, 4),
        (Area { x: 65530, y: 65530, width: 100, height: 100 }, 2, 4),
    ] {
        let p = layout(whole);
        assert_eq!((p.list.width, p.code.height), (list, code), "{whole:?}");
        assert_eq!(p.code.x, whole.x + list);
        assert_eq!(p.why.y, whole.y + code);
    }
    for n in 0..1000u16 {
        let p = layout(area(n, n));
        assert_eq!(p.list.width, (n * 38 + 50) / 100, "{n}");
        assert_eq!(p.code.height, ((u32::from(n) * 70 + 50) / 100) as u16, "{n}");
        assert_eq!(p.list.width + p.code.width, n);
        assert_eq!(p.code.height + p.why.height, n);
    }
}

#[test]
fn the_panes_show_the_review() {
    let mut a = app();
    let s = draw(&mut a, "HEAD", area(120, 40));
    assert!(s.list.title.starts_with(" HEAD — 0/2 reviewed · 0/1 edges"), "{}", s.list.title);
    let text = |l: &ordo::paint::Line| -> String { l.iter().map(|x| x.content.as_str()).collect() };
    assert!(s.code.lines.iter().any(|l| text(l).contains("fn f(x: u8) {}")));
    assert!(s.why.lines.iter().any(|l| text(l).contains("changes f")));
    assert!(s.popup.is_none() && s.bar.is_none());
    assert_eq!(build_list(&a, 60).len(), s.list.lines.len());
    press(&mut a, ':');
    let s = draw(&mut a, "HEAD", area(120, 40));
    assert!(s.bar.is_some_and(|b| b.menu.is_some()));
    on_key(&mut a, KeyCode::Esc, held(), 1);
    press(&mut a, '?');
    let s = draw(&mut a, "HEAD", area(120, 40));
    assert!(s.popup.is_some());
}

fn surface() -> Surface {
    Surface {
        tui: None,
        rules_file: None,
        docs_last: false,
        catalog: true,
        disables: vec![],
        includes: vec![],
        sections: vec![CatalogSection { name: "c".to_string(), rules: lines(&["no-goto"]) }],
        rulesets: vec![],
    }
}

fn desk(kept: bool) -> Desk {
    Desk { config: None, comments: vec![], selection: None, kept }
}

fn shown(a: &App) -> Vec<String> {
    match &a.popup {
        Some(p) => p.lines.iter().map(|l| l.iter().map(|s| s.content.clone()).collect::<String>()).collect(),
        None => vec![],
    }
}

fn is_done(r: Result<DeskOutcome, String>) -> bool {
    matches!(r, Ok(DeskOutcome::Review(CommandOutcome::Done)))
}

#[test]
fn config_opens_the_settings_as_they_are() {
    let mut a = app();
    let mut d = desk(true);
    assert!(is_done(run_line(&mut a, &mut d, &surface(), "config")));
    let c = d.config.expect("the settings are open");
    assert_eq!(c.sel, 0);
    assert!(!c.dirty);
    assert!(c.editing.is_none());
    assert!(c.changed().is_empty());
    assert!(a.popup.is_none());
}

#[test]
fn a_comment_is_made_listed_and_taken_away() {
    let mut a = app();
    let mut d = desk(true);
    let path = a.items[a.sel].path.clone();
    match run_line(&mut a, &mut d, &surface(), "comments") {
        Err(why) => assert_eq!(why, "no line comments in this review — `v` to select, `c` to comment"),
        Ok(_) => panic!("there is no comment yet"),
    }
    match run_line(&mut a, &mut d, &surface(), "comment") {
        Err(why) => assert_eq!(why, "no comment on these lines to delete"),
        Ok(_) => panic!("there is nothing to delete"),
    }
    d.selection = Some(0);
    assert!(matches!(run_line(&mut a, &mut d, &surface(), "comment   why a u8? "), Ok(DeskOutcome::SaveComments)));
    assert_eq!(d.selection, None);
    assert_eq!(d.comments.len(), 1);
    assert_eq!((d.comments[0].start, d.comments[0].end), (1, 1));
    assert!(is_done(run_line(&mut a, &mut d, &surface(), "comments")));
    assert_eq!(shown(&a), vec![format!("{path}:1  why a u8?")]);
    d.kept = false;
    assert!(is_done(run_line(&mut a, &mut d, &surface(), "comment")));
    assert!(d.comments.is_empty());
}

#[test]
fn a_file_without_a_new_side_takes_no_comment() {
    let mut a = app();
    let mut d = desk(true);
    let path = a.items[a.sel].path.clone();
    a.sources = TextMap::new();
    d.selection = Some(3);
    match run_line(&mut a, &mut d, &surface(), "comment x") {
        Err(why) => assert_eq!(why, format!("{path} has no new side to comment on")),
        Ok(_) => panic!("there are no lines"),
    }
    assert_eq!(d.selection, Some(3));
}

#[test]
fn every_other_line_runs_on_the_review() {
    let mut a = app();
    let mut d = desk(true);
    assert!(matches!(
        run_line(&mut a, &mut d, &surface(), "q"),
        Ok(DeskOutcome::Review(CommandOutcome::Quit))
    ));
    match run_line(&mut a, &mut d, &surface(), "commentary") {
        Err(why) => assert_eq!(why, "unknown command 'commentary' — :help lists them"),
        Ok(_) => panic!("there is no such command"),
    }
    assert!(d.config.is_none() && d.comments.is_empty());
}

#[test]
fn an_ordinary_review_can_be_drawn() {
    let a = app();
    assert_eq!(count_edges(&a.items, &a.view), Some(1));
    assert!(can_draw(&a));
}

#[test]
fn a_hunk_whose_lines_moved_down_keeps_its_mark() {
    let before = sources_of(&[change("a.rs", "fn f() {}\n", "fn f(x: u8) {}\n")]);
    let after = sources_of(&[change("a.rs", "// top\nfn f() {}\n", "// top\nfn f(x: u8) {}\n")]);
    let edited = sources_of(&[change("a.rs", "// top\nfn f() {}\n", "// top\nfn f(x: u9) {}\n")]);
    let first = build_items(&account()).remove(0);
    let mut out = account();
    out.files[0].hunks[0].old_range = [2, 2];
    out.files[0].hunks[0].new_range = [2, 2];
    let moved = build_items(&out).remove(0);
    let mark = mark_key("HEAD", &first, &before);
    assert!(mark.is_some());
    assert_eq!(mark_key("HEAD", &moved, &after), mark);
    assert_ne!(mark_key("HEAD", &moved, &edited), mark);
    assert_ne!(mark_key("HEAD", &first, &after), mark);
}
