use ordo::code_view::{code_view, Highlights};
use ordo::items::refine_items;
use ordo::model::{Item, Refined, Sources};
use ordo::paint::{overlay_cursor, overlay_range, slice_range, Line, Restyle, Span, Style};
use ordo::theme::{theme, Color};

fn test_item(path: &str) -> Item {
    Item {
        path: path.to_string(),
        old_range: [0, 0],
        new_range: [0, 0],
        mark: String::new(),
        cat: "other".to_string(),
        rationale: String::new(),
        details: vec![],
        notes: vec![],
        edges: vec![],
        bucket: "g0".to_string(),
        ledger: None,
        advisories: vec![],
        noise: false,
        comment: false,
        symbols: vec![],
        enclosing: None,
        group: String::new(),
        rules: vec![],
        refined: Refined::none(),
        cluster: None,
        uses_at: vec![],
    }
}

fn raw(s: &str) -> Span {
    Span::new(s.to_string(), Style::plain())
}

fn spans_of(l: &[Span]) -> Vec<String> {
    l.iter().map(|s| s.content.clone()).collect()
}

fn text_of(l: &[Span]) -> String {
    l.iter().map(|s| s.content.as_str()).collect()
}

fn sources_of(old: Vec<String>, new: Vec<String>) -> Sources {
    let mut s = Sources::new();
    s.insert("f.rs".to_string(), (old, new));
    s
}

#[test]
fn slice_range_crops_by_char_column_not_byte() {
    let sliced = slice_range(vec![raw("héllo world")], 1, 3);
    assert_eq!(text_of(&sliced), "éll");
}

#[test]
fn slice_range_drops_content_outside_the_window() {
    assert!(slice_range(vec![raw("hello")], 10, 5).is_empty());
    let sliced = slice_range(vec![raw("hello")], 0, 2);
    assert_eq!(text_of(&sliced), "he");
}

#[test]
fn windows_of_windows_are_windows() {
    let line = || vec![raw("hel"), raw("lo wor"), raw("ld")];
    let once = slice_range(slice_range(line(), 2, 7), 1, 4);
    assert_eq!(text_of(&once), text_of(&slice_range(line(), 3, 4)));
}

#[test]
fn an_overlay_keeps_the_text_and_colours_its_range() {
    let out = overlay_range(vec![raw("abcdef")], 2, 4, Restyle::Background(Color::Red));
    assert_eq!(text_of(&out), "abcdef");
    assert_eq!(spans_of(&out), vec!["ab", "cd", "ef"]);
    assert_eq!(out[1].style.bg, Some(Color::Red));
    assert_eq!(out[0].style.bg, None);
    let past = overlay_cursor(vec![raw("ab")], 2);
    assert_eq!(text_of(&past), "ab ");
}

#[test]
fn code_view_horizontal_scroll_keeps_gutter_fixed_and_handles_multibyte() {
    let it = test_item("f.rs");
    let line = "let héllo_world = 1234567890abcdef;".to_string();
    let sources = sources_of(vec![], vec![line]);
    let highlights = Highlights::new();
    let dark = theme("dark").unwrap();
    let (unscrolled, right_clip_0, _) =
        code_view(&it, &sources, &highlights, 16, 0, None, &[], None, &dark, 0, usize::MAX);
    let (scrolled, right_clip_5, _) =
        code_view(&it, &sources, &highlights, 16, 5, None, &[], None, &dark, 0, usize::MAX);
    assert_eq!(unscrolled.len(), 1);
    assert_eq!(scrolled.len(), 1);
    let gutter = |line: &Line| -> Vec<String> { line.iter().take(2).map(|s| s.content.clone()).collect() };
    assert_eq!(gutter(&unscrolled[0]), gutter(&scrolled[0]));
    let rest = |line: &Line| -> String { line[2..].iter().map(|s| s.content.as_str()).collect() };
    assert_ne!(rest(&unscrolled[0]), rest(&scrolled[0]));
    assert!(right_clip_0);
    assert!(right_clip_5);
}

#[test]
fn code_view_tints_only_the_refined_span_of_a_paired_line() {
    let old = "fn f(a: A) {}".to_string();
    let new = "fn f(a: A, b: B) {}".to_string();
    let mut it = test_item("f.rs");
    it.old_range = [1, 1];
    it.new_range = [1, 1];
    let sources = sources_of(vec![old], vec![new]);
    let mut items = vec![it];
    refine_items(&mut items, vec![Some(Refined { added: vec![Some(vec![(9, 15)])], removed: vec![Some(vec![])] })]);
    let it = &items[0];
    assert_eq!(it.refined.added[0], Some(vec![(9, 15)]), "expected only `, b: B` to be refined");

    let theme = theme("dark").unwrap();
    let (rows, _, _) = code_view(it, &sources, &Highlights::new(), 60, 0, None, &[], None, &theme, 0, usize::MAX);
    let added = rows.last().expect("an added row");
    let mut strong = String::new();
    for span in added {
        if span.style.bg == Some(theme.add_strong_bg) {
            strong.push_str(&span.content);
        }
    }
    assert_eq!(strong, ", b: B");
}

#[test]
fn code_view_tints_a_whole_unpaired_line() {
    let mut it = test_item("f.rs");
    it.old_range = [1, 1];
    it.new_range = [1, 1];
    let sources =
        sources_of(vec!["use std::io;".to_string()], vec!["fn totally(different: X) {}".to_string()]);
    let mut items = vec![it];
    refine_items(&mut items, vec![Some(Refined { added: vec![None], removed: vec![None] })]);
    assert_eq!(items[0].refined.added[0], None);

    let theme = theme("dark").unwrap();
    let (rows, _, _) =
        code_view(&items[0], &sources, &Highlights::new(), 60, 0, None, &[], None, &theme, 0, usize::MAX);
    let added = rows.last().unwrap();
    assert!(
        added.iter().all(|s| s.style.bg != Some(theme.add_strong_bg)),
        "an unpaired line must not be partially tinted"
    );
}

#[test]
fn code_view_reports_no_clipping_when_the_line_fits() {
    let it = test_item("f.rs");
    let sources = sources_of(vec![], vec!["short".to_string()]);
    let (_, right_clip, _) = code_view(
        &it,
        &sources,
        &Highlights::new(),
        40,
        0,
        None,
        &[],
        None,
        &theme("dark").unwrap(),
        0,
        usize::MAX,
    );
    assert!(!right_clip);
}

#[test]
fn code_view_window_matches_the_same_slice_of_the_whole_view() {
    let theme = theme("dark").unwrap();
    let old: Vec<String> = (1..=4).map(|i| format!("gone {i}")).collect();
    let new: Vec<String> = (1..=30).map(|i| format!("fn line_{i}() {{}}")).collect();

    for (label, new_range) in [("mid-file", [10, 12]), ("at EOF", [31, 33])] {
        let mut it = test_item("f.rs");
        it.old_range = [1, 4];
        it.new_range = new_range;
        let sources = sources_of(old.clone(), new.clone());
        let highlights = Highlights::new();

        let call = |start: usize, rows: usize| {
            code_view(&it, &sources, &highlights, 60, 0, None, &[], None, &theme, start, rows)
        };
        let (full, clip_full, total) = call(0, usize::MAX);
        assert_eq!(total, new.len() + old.len(), "{label}: total row count");
        assert_eq!(full.len(), total, "{label}: unwindowed view is complete");

        for start in 0..total {
            let (win, clip, t) = call(start, 7);
            assert_eq!(t, total, "{label}: total is window-independent");
            assert_eq!(clip, clip_full, "{label}: clipping is window-independent");
            let want = &full[start..(start + 7).min(total)];
            assert_eq!(win.len(), want.len(), "{label}: window length at {start}");
            for (a, b) in win.iter().zip(want) {
                assert_eq!(spans_of(a), spans_of(b), "{label}: row {start} content");
            }
        }
    }
}
