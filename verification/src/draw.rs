//! What the screen shows: the panes, the box over them, and the command bar.

use crate::code_view::{
    all_rows, code_view, end_row, first_row, highlights_of, last_line, last_offset, overflows, row_total, Overlays,
    RowPainter, GUTTER_W,
};
use crate::commands::{command_menu_row, find_space, menu_row};
use crate::execute::typed_command;
use crate::keys::Pane;
use crate::links::{all_done_edges, all_edges, count_edges, coverage, done_count};
use crate::model::{FileLines, Item};
use crate::paint::{cells, lines_cells, slice_range, text_cells, window_of, Cell, Line, Span, Style};
use crate::search::Match;
use crate::session::{lemma_same_code, lemma_sel, why_content, why_pane};
use crate::state::{counted, popup_width, widest, App, CommandBar, Popup, SearchKind};
use crate::text::{chars_of, decimal, number, texts, width};
use crate::theme::{Color, Theme};
use crate::view::{display_row_of, display_rows, place_of, row_of, rows_shown, view_pos, DisplayRow, RowText};
use crate::why::{why_texts, WhyRow, WhyText};
use vstd::prelude::*;

verus! {

/// A part of the screen, in cells.
#[derive(Clone, Copy, PartialEq, Eq, Debug, Structural)]
pub struct Area {
    pub x: u16,
    pub y: u16,
    pub width: u16,
    pub height: u16,
}

/// `n` less `by`, and no less than zero.
pub open spec fn less(n: int, by: int) -> int {
    if n >= by {
        n - by
    } else {
        0
    }
}

/// `n` kept from `low` to `high`.
pub open spec fn between(n: int, low: int, high: int) -> int {
    if n < low {
        low
    } else if n > high {
        high
    } else {
        n
    }
}

pub open spec fn at_least(n: int, low: int) -> int {
    if n < low {
        low
    } else {
        n
    }
}

/// A sum, as far as a screen counts.
pub open spec fn screen_sum(a: int, b: int) -> int {
    if a + b > u16::MAX {
        u16::MAX as int
    } else {
        a + b
    }
}

fn keep_between(n: u16, low: u16, high: u16) -> (r: u16)
    ensures
        r == between(n as int, low as int, high as int),
{
    if n < low {
        low
    } else if n > high {
        high
    } else {
        n
    }
}

fn at_least_three(n: u16) -> (r: u16)
    ensures
        r == at_least(n as int, 3),
{
    if n < 3 {
        3
    } else {
        n
    }
}

/// The rows that `n` lines take up with a border, as a screen counts them.
pub open spec fn bordered_rows(n: usize) -> int {
    screen_sum((n as u16) as int, 2)
}

fn rows_with_border(n: usize) -> (r: u16)
    ensures
        r == bordered_rows(n),
{
    #[verifier::truncate]
    let rows: u16 = n as u16;
    rows.saturating_add(2)
}

/// The box over a pane: centred, and sized to the lines that it shows.
pub fn popup_rect(area: Area, n_lines: usize) -> (r: Area)
    ensures
        r.width == between(less(area.width as int, 4), 20, 90),
        r.height == between(bordered_rows(n_lines), 3, at_least(less(area.height as int, 2), 3)),
        r.x == screen_sum(area.x as int, less(area.width as int, r.width as int) / 2),
        r.y == screen_sum(area.y as int, less(area.height as int, r.height as int) / 2),
{
    let w = keep_between(area.width.saturating_sub(4), 20, 90);
    let h = keep_between(rows_with_border(n_lines), 3, at_least_three(area.height.saturating_sub(2)));
    Area {
        x: area.x.saturating_add(area.width.saturating_sub(w) / 2),
        y: area.y.saturating_add(area.height.saturating_sub(h) / 2),
        width: w,
        height: h,
    }
}

/// The command bar: one row of text, centred, three fifths of the screen wide.
pub fn command_bar_rect(area: Area) -> (r: Area)
    ensures
        r.width == between(area.width as int * 3 / 5, 20, at_least(less(area.width as int, 4), 20)),
        r.height == 3,
        r.x == screen_sum(area.x as int, less(area.width as int, r.width as int) / 2),
        r.y == screen_sum(area.y as int, 1),
{
    let widest = if area.width < 24 {
        20
    } else {
        area.width - 4
    };
    let w = keep_between((area.width as u32 * 3 / 5) as u16, 20, widest);
    Area {
        x: area.x.saturating_add(area.width.saturating_sub(w) / 2),
        y: area.y.saturating_add(1),
        width: w,
        height: 3,
    }
}

/// The completion menu: right below the bar, and no further than the screen
/// goes.
pub fn command_menu_rect(bar: Area, area: Area, n_candidates: usize) -> (r: Area)
    ensures
        r.x == bar.x,
        r.y == screen_sum(bar.y as int, bar.height as int),
        r.width == bar.width,
        r.height == between(
            bordered_rows(n_candidates),
            3,
            at_least(less(screen_sum(area.y as int, area.height as int), r.y as int), 3),
        ),
{
    let top = bar.y.saturating_add(bar.height);
    let room = at_least_three(area.y.saturating_add(area.height).saturating_sub(top));
    Area { x: bar.x, y: top, width: bar.width, height: keep_between(rows_with_border(n_candidates), 3, room) }
}

/// What is told under a pane's name: the colours of its border and title.
pub open spec fn pane_colors(focused: bool, t: Theme) -> (Color, Color) {
    if focused {
        (t.border_focus, t.border_focus)
    } else {
        (t.border, t.dim)
    }
}

/// A pane: its title, its colours, and its lines.
pub struct PaneView {
    pub title: String,
    pub border: Color,
    pub title_color: Color,
    pub lines: Vec<Line>,
}

/// The same, as text.
pub ghost struct PaneText {
    pub title: Seq<char>,
    pub border: Color,
    pub title_color: Color,
    pub lines: Seq<Seq<Cell>>,
}

impl PaneView {
    pub open spec fn text(self) -> PaneText {
        PaneText {
            title: self.title@,
            border: self.border,
            title_color: self.title_color,
            lines: lines_cells(self.lines@),
        }
    }
}

/// A pane with a title and lines, focused or not.
pub open spec fn pane_of(title: Seq<char>, focused: bool, t: Theme, lines: Seq<Seq<Cell>>) -> PaneText {
    let (border, title_color) = pane_colors(focused, t);
    PaneText { title, border, title_color, lines }
}

fn pane_block(title: String, focused: bool, theme: &Theme, lines: Vec<Line>) -> (r: PaneView)
    ensures
        r.text() == pane_of(title@, focused, *theme, lines_cells(lines@)),
{
    let border = if focused {
        theme.border_focus
    } else {
        theme.border
    };
    let title_color = if focused {
        theme.border_focus
    } else {
        theme.dim
    };
    PaneView { title, border, title_color, lines }
}

/// The style of an item's row.
pub open spec fn row_style(noise: bool, reviewed: bool, t: Theme) -> Style {
    if noise {
        Style::of(t.dim)
    } else if reviewed {
        Style::of(t.reviewed)
    } else {
        Style::of(t.fg)
    }
}

/// The style of a part of an item's row: noise and reviewed rows are of one
/// colour.
pub open spec fn part_style(noise: bool, reviewed: bool, t: Theme, c: Color) -> Style {
    if noise || reviewed {
        row_style(noise, reviewed, t)
    } else {
        Style::of(c)
    }
}

pub open spec fn bold_of(c: Color) -> Style {
    Style { fg: Some(c), bg: None, bold: true, underlined: false, reversed: false }
}

/// The cells of a row of the list.
pub open spec fn list_row(row: RowText, items: Seq<Item>, reviewed: Seq<bool>, t: Theme, wide: int) -> Seq<Cell> {
    match row {
        RowText::Header(reason) => window_of(text_cells("· "@ + reason, bold_of(t.border_focus)), 0, wide),
        RowText::Item(i) => {
            let it = items[i as int];
            let seen = reviewed[i as int];
            window_of(
                text_cells(it.mark@, part_style(it.noise, seen, t, t.mark)) + text_cells(
                    it.path@,
                    row_style(it.noise, seen, t),
                ) + text_cells(":L"@ + decimal(it.new_range[0] as int), part_style(it.noise, seen, t, t.accent))
                    + text_cells(" ["@ + it.cat@ + "]"@, part_style(it.noise, seen, t, t.category)),
                0,
                wide,
            )
        },
    }
}

/// The rows of the list.
pub open spec fn list_rows(a: App, wide: int) -> Seq<Seq<Cell>> {
    let rows = rows_shown(a.view@, a.items@, a.groups@, a.show_groups, a.collapsed@);
    Seq::new(rows.len(), |k: int| list_row(rows[k], a.items@, a.reviewed@, a.theme, wide))
}

fn style_of_row(noise: bool, reviewed: bool, t: &Theme) -> (r: Style)
    ensures
        r == row_style(noise, reviewed, *t),
{
    if noise {
        Style::of(t.dim)
    } else if reviewed {
        Style::of(t.reviewed)
    } else {
        Style::of(t.fg)
    }
}

fn style_of_part(noise: bool, reviewed: bool, t: &Theme, c: Color) -> (r: Style)
    ensures
        r == part_style(noise, reviewed, *t, c),
{
    if noise || reviewed {
        style_of_row(noise, reviewed, t)
    } else {
        Style::of(c)
    }
}

fn push_text(spans: &mut Vec<Span>, text: String, style: Style)
    ensures
        cells(final(spans)@) == cells(old(spans)@) + text_cells(text@, style),
{
    let ghost had = spans@;
    spans.push(Span::new(text, style));
    assert(spans@.drop_last() =~= had);
}

fn item_row(it: &Item, seen: bool, t: &Theme, wide: usize) -> (r: Line)
    ensures
        cells(r@) == window_of(
            text_cells(it.mark@, part_style(it.noise, seen, *t, t.mark)) + text_cells(
                it.path@,
                row_style(it.noise, seen, *t),
            ) + text_cells(":L"@ + decimal(it.new_range[0] as int), part_style(it.noise, seen, *t, t.accent))
                + text_cells(" ["@ + it.cat@ + "]"@, part_style(it.noise, seen, *t, t.category)),
            0,
            wide as int,
        ),
{
    let mut spans: Vec<Span> = Vec::new();
    assert(cells(spans@) =~= Seq::empty());
    push_text(&mut spans, it.mark.clone(), style_of_part(it.noise, seen, t, t.mark));
    assert(cells(spans@) =~= text_cells(it.mark@, part_style(it.noise, seen, *t, t.mark)));
    push_text(&mut spans, it.path.clone(), style_of_row(it.noise, seen, t));
    push_text(
        &mut spans,
        ":L".to_owned().concat(&number(it.new_range[0])),
        style_of_part(it.noise, seen, t, t.accent),
    );
    push_text(
        &mut spans,
        " [".to_owned().concat(&it.cat).concat("]"),
        style_of_part(it.noise, seen, t, t.category),
    );
    slice_range(spans, 0, wide)
}

fn header_row(reason: &str, t: &Theme, wide: usize) -> (r: Line)
    ensures
        cells(r@) == window_of(text_cells("· "@ + reason@, bold_of(t.border_focus)), 0, wide as int),
{
    let mut spans: Vec<Span> = Vec::new();
    assert(cells(spans@) =~= Seq::empty());
    push_text(
        &mut spans,
        "· ".to_owned().concat(reason),
        Style { fg: Some(t.border_focus), bg: None, bold: true, underlined: false, reversed: false },
    );
    assert(cells(spans@) =~= text_cells("· "@ + reason@, bold_of(t.border_focus)));
    slice_range(spans, 0, wide)
}

/// Every item that a row of the list shows is an item.
proof fn lemma_rows_in(a: App, k: int)
    requires
        a.wf(),
        0 <= k < rows_shown(a.view@, a.items@, a.groups@, a.show_groups, a.collapsed@).len(),
    ensures
        rows_shown(a.view@, a.items@, a.groups@, a.show_groups, a.collapsed@)[k] matches RowText::Item(i) ==> i
            < a.items@.len(),
{
    if a.show_groups {
        crate::view::lemma_grouped_items(a.view@, a.items@, a.groups@, a.collapsed@, a.view@.len() as int, k);
        if let RowText::Item(i) = rows_shown(a.view@, a.items@, a.groups@, a.show_groups, a.collapsed@)[k] {
            let w = choose|w: int| 0 <= w < a.view@.len() && a.view@[w] == i;
            assert(a.view@[w] < a.items@.len());
        }
    }
}

/// The rows of the list.
pub fn build_list(app: &App, wide: usize) -> (r: Vec<Line>)
    requires
        app.wf(),
    ensures
        lines_cells(r@) == list_rows(*app, wide as int),
{
    let rows = display_rows(&app.view, &app.items, &app.groups, app.show_groups, &app.collapsed);
    let mut out: Vec<Line> = Vec::new();
    let ghost all = list_rows(*app, wide as int);
    for k in 0..rows.len()
        invariant
            app.wf(),
            all == list_rows(*app, wide as int),
            crate::view::display_texts(rows@) == rows_shown(
                app.view@,
                app.items@,
                app.groups@,
                app.show_groups,
                app.collapsed@,
            ),
            lines_cells(out@) == all.take(k as int),
    {
        let ghost had = lines_cells(out@);
        assert(crate::view::display_texts(rows@)[k as int] == rows@[k as int].text());
        proof {
            lemma_rows_in(*app, k as int);
        }
        let line = match &rows[k] {
            DisplayRow::Header(reason) => header_row(reason, &app.theme, wide),
            DisplayRow::Item(i) => item_row(&app.items[*i], app.reviewed[*i], &app.theme, wide),
        };
        assert(cells(line@) == all[k as int]);
        out.push(line);
        assert(lines_cells(out@) =~= had.push(all[k as int]));
        assert(all.take(k + 1) =~= all.take(k as int).push(all[k as int]));
    }
    assert(crate::view::display_texts(rows@).len() == rows@.len());
    assert(all.take(rows@.len() as int) =~= all);
    out
}

/// The title of the list: how much of the review, and of its dependencies, is
/// covered.
#[verifier::opaque]
pub open spec fn list_title(a: App, rev: Seq<char>) -> Seq<char> {
    let n = a.view@.len() as int;
    let edges = all_edges(a.items@, a.view@, n);
    " "@ + rev + " — "@ + decimal(done_count(a.view@, a.reviewed@, n)) + "/"@ + decimal(n) + " reviewed"@ + (if edges
        > 0 {
        " · "@ + decimal(all_done_edges(a.items@, a.view@, a.reviewed@, n)) + "/"@ + decimal(edges) + " edges"@
    } else {
        ""@
    }) + (if n < a.items@.len() {
        " (filtered)"@
    } else {
        ""@
    }) + " · "@ + a.keys.name@ + " "@
}

/// What machine numbers ask of the counts that are shown.
pub open spec fn counts_shown_fit(a: App) -> bool {
    &&& all_edges(a.items@, a.view@, a.view@.len() as int) <= usize::MAX
    &&& 2 * a.view@.len() <= usize::MAX
}

/// Whether machine numbers hold the counts that are shown.
pub fn can_draw(app: &App) -> (r: bool)
    requires
        app.wf(),
    ensures
        r == counts_shown_fit(*app),
{
    count_edges(&app.items, &app.view).is_some() && app.view.len() <= usize::MAX / 2
}

fn title_of_list(app: &App, rev: &str) -> (r: String)
    requires
        app.wf(),
        counts_shown_fit(*app),
    ensures
        r@ == list_title(*app, rev@),
{
    reveal(list_title);
    let (done, total, edges_done, edges) = coverage(app);
    let linked = if edges > 0 {
        " · ".to_owned().concat(&number(edges_done)).concat("/").concat(&number(edges)).concat(" edges")
    } else {
        "".to_owned()
    };
    let filtered = if app.view.len() < app.items.len() {
        " (filtered)"
    } else {
        ""
    };
    " ".to_owned().concat(rev).concat(" — ").concat(&number(done)).concat("/").concat(&number(total)).concat(
        " reviewed",
    ).concat(&linked).concat(filtered).concat(" · ").concat(app.keys.name).concat(" ")
}

/// The longest of the first `n` lines.
pub open spec fn longest(lines: Seq<Seq<char>>, n: int) -> int
    decreases n,
{
    if n <= 0 {
        0
    } else if lines[n - 1].len() > longest(lines, n - 1) {
        lines[n - 1].len() as int
    } else {
        longest(lines, n - 1)
    }
}

fn longest_line(lines: &[String]) -> (r: usize)
    ensures
        r == longest(texts(lines@), lines@.len() as int),
{
    let mut most: usize = 0;
    for i in 0..lines.len()
        invariant
            most == longest(texts(lines@), i as int),
    {
        let w: usize = width(&lines[i]);
        assert(texts(lines@)[i as int] == lines@[i as int]@);
        if w > most {
            most = w;
        }
    }
    most
}

/// The lower of two numbers.
pub open spec fn lower(a: int, b: int) -> int {
    if a < b {
        a
    } else {
        b
    }
}

/// The session with the code pane measured: it is never scrolled past the
/// longest line of its file.
pub open spec fn measured(a: App, code: Area) -> App {
    App {
        code_height: less(code.height as int, 2) as u16,
        code_width: less(less(code.width as int, 2), GUTTER_W as int) as u16,
        hscroll: lower(a.hscroll as int, longest(a.lines(), a.lines().len() as int)) as u16,
        ..a
    }
}

fn measure(app: &mut App, code: Area)
    requires
        old(app).wf(),
    ensures
        *final(app) == measured(*old(app), code),
        final(app).wf(),
{
    let ghost start = *app;
    proof {
        lemma_sel(start);
    }
    app.code_height = code.height.saturating_sub(2);
    app.code_width = code.width.saturating_sub(2).saturating_sub(6);
    let most: usize = match app.sources.get(&app.items[app.sel].path) {
        Some(f) => longest_line(&f.1),
        None => 0,
    };
    if (app.hscroll as usize) > most {
        app.hscroll = most as u16;
    }
    proof {
        lemma_same_code(start, *app);
    }
}

/// What is laid over the code: the search and the cursor.
pub open spec fn overlays_of(a: App) -> Overlays {
    Overlays {
        hl: highlights_of(a.highlights@, a.path()),
        matches: match a.search {
            Some(s) => s.matches@,
            None => Seq::empty(),
        },
        cur_match: match a.search {
            Some(s) => Some(s.index),
            None => None,
        },
        cursor: Some(a.cursor),
    }
}

pub open spec fn painter_of(a: App, code: Area) -> RowPainter {
    RowPainter { theme: a.theme, width: less(code.width as int, 2) as usize, hscroll: a.hscroll as usize }
}

/// The rows of the code pane, whether some go past its right edge, and how many
/// there are in all.
pub open spec fn code_shown(a: App, code: Area, lines: Seq<Seq<Cell>>, clipped: bool, total: int) -> bool {
    if !a.sources@.dom().contains(a.path()) {
        lines.len() == 0 && !clipped && total == 0
    } else {
        let it = a.items@[a.sel as int];
        let file = a.sources@[a.path()];
        let first = first_row(row_total(it, file), a.scroll as int);
        &&& total == row_total(it, file)
        &&& clipped == overflows(painter_of(a, code), it, file)
        &&& lines == all_rows(painter_of(a, code), it, file, overlays_of(a)).subrange(
            first,
            end_row(row_total(it, file), first, a.code_height as int),
        )
    }
}

proof fn lemma_row_total(it: Item, file: FileLines)
    requires
        crate::state::file_fits(file),
    ensures
        row_total(it, file) <= usize::MAX,
{
    assert(texts(file.0@).len() == file.0@.len());
}

fn build_code(app: &App, code: Area) -> (r: (Vec<Line>, bool, usize))
    requires
        app.wf(),
    ensures
        code_shown(*app, code, lines_cells(r.0@), r.1, r.2 as int),
{
    proof {
        lemma_sel(*app);
        if app.sources@.dom().contains(app.path()) {
            lemma_row_total(app.items@[app.sel as int], app.sources@[app.path()]);
        }
    }
    let none: Vec<Match> = Vec::new();
    let current: Option<usize> = match &app.search {
        Some(s) => Some(s.index),
        None => None,
    };
    let matches = match &app.search {
        Some(s) => &s.matches,
        None => &none,
    };
    assert(matches@ == overlays_of(*app).matches);
    let r = code_view(
        &app.items[app.sel],
        &app.sources,
        &app.highlights,
        code.width.saturating_sub(2) as usize,
        app.hscroll as usize,
        Some(app.cursor),
        matches,
        current,
        &app.theme,
        app.scroll as usize,
        app.code_height as usize,
    );
    assert(!app.sources@.dom().contains(app.path()) ==> lines_cells(r.0@).len() == 0);
    r
}

/// The marks of what is clipped to the left and the right.
pub open spec fn clip_marks(left: bool, right: bool) -> Seq<char> {
    match (left, right) {
        (true, true) => " ‹›"@,
        (true, false) => " ‹"@,
        (false, true) => " ›"@,
        (false, false) => ""@,
    }
}

/// The title of the code pane: the prompt, or the file with the state of the
/// search.
pub open spec fn code_title(a: App, clipped: bool) -> Seq<char> {
    let clip = clip_marks(a.hscroll > 0, clipped);
    match (a.prompt, a.search) {
        (Some(p), _) => " search: "@ + p.text@ + "▏ "@,
        (None, Some(s)) => " "@ + a.path() + clip + "  "@ + search_status(
            s.kind,
            s.pattern@,
            s.matches@.len() as int,
            s.index as int,
        ) + "  ("@ + a.keys.hint@ + ") "@,
        (None, None) => " "@ + a.path() + clip + "  ("@ + a.keys.hint@ + ") "@,
    }
}

/// The state of a search.
pub open spec fn search_status(kind: SearchKind, pattern: Seq<char>, found: int, index: int) -> Seq<char> {
    let glyph = match kind {
        SearchKind::Text => "/"@,
        SearchKind::Symbol => "*"@,
    };
    if found == 0 {
        "no matches for "@ + glyph + pattern
    } else {
        "["@ + decimal(index + 1) + "/"@ + decimal(found) + "] "@ + glyph + pattern
    }
}

fn title_of_code(app: &App, clipped: bool) -> (r: String)
    requires
        app.wf(),
    ensures
        r@ == code_title(*app, clipped),
{
    proof {
        lemma_sel(*app);
    }
    if let Some(p) = &app.prompt {
        return " search: ".to_owned().concat(&p.text).concat("▏ ");
    }
    let clip = match (app.hscroll > 0, clipped) {
        (true, true) => " ‹›",
        (true, false) => " ‹",
        (false, true) => " ›",
        (false, false) => "",
    };
    let head = " ".to_owned().concat(&app.items[app.sel].path).concat(clip);
    match &app.search {
        Some(s) => {
            let glyph = match s.kind {
                SearchKind::Text => "/",
                SearchKind::Symbol => "*",
            };
            let found: usize = s.matches.len();
            let status = if found == 0 {
                "no matches for ".to_owned().concat(glyph).concat(&s.pattern)
            } else {
                "[".to_owned().concat(&number(s.index + 1)).concat("/").concat(&number(found)).concat(
                    "] ",
                ).concat(glyph).concat(&s.pattern)
            };
            head.concat("  ").concat(&status).concat("  (").concat(app.keys.hint).concat(") ")
        },
        None => head.concat("  (").concat(app.keys.hint).concat(") "),
    }
}

/// The session with its panes scrolled no further than they go.
pub open spec fn settled(a: App, code_total: int, why: Area) -> App {
    let n = why_content(a).len() as int;
    App {
        code_len: code_total as usize,
        why_len: n as usize,
        why_height: less(why.height as int, 2) as u16,
        scroll: lower(a.scroll as int, last_offset(code_total)) as u16,
        why_scroll: lower(a.why_scroll as int, last_offset(n)) as u16,
        why_sel: lower(a.why_sel as int, last_offset(n)) as usize,
        ..a
    }
}

fn lower_of(a: u16, b: u16) -> (r: u16)
    ensures
        r == lower(a as int, b as int),
{
    if a < b {
        a
    } else {
        b
    }
}

fn settle(app: &mut App, code_total: usize, why_total: usize, why: Area)
    requires
        old(app).wf(),
        why_total == why_content(*old(app)).len(),
    ensures
        *final(app) == settled(*old(app), code_total as int, why),
        final(app).wf(),
{
    let ghost start = *app;
    app.code_len = code_total;
    app.why_len = why_total;
    app.why_height = why.height.saturating_sub(2);
    app.scroll = lower_of(app.scroll, last_line(code_total));
    app.why_scroll = lower_of(app.why_scroll, last_line(why_total));
    let last = last_line(why_total) as usize;
    if app.why_sel > last {
        app.why_sel = last;
    }
    proof {
        lemma_same_code(start, *app);
    }
}

/// The cells of a line of the why pane: the one that the cursor is on is tinted.
pub open spec fn why_line(row: WhyText, here: bool, t: Theme) -> Seq<Cell> {
    text_cells(
        row.text,
        if here {
            row.style.with_bg(t.select_bg)
        } else {
            row.style
        },
    )
}

pub open spec fn why_lines(rows: Seq<WhyText>, focus: Pane, sel: usize, t: Theme) -> Seq<Seq<Cell>> {
    Seq::new(rows.len(), |i: int| why_line(rows[i], focus == Pane::Why && i == sel, t))
}

fn build_why(rows: Vec<WhyRow>, focus: Pane, sel: usize, t: &Theme) -> (r: Vec<Line>)
    ensures
        lines_cells(r@) == why_lines(why_texts(rows@), focus, sel, *t),
{
    let mut out: Vec<Line> = Vec::new();
    let ghost all = why_lines(why_texts(rows@), focus, sel, *t);
    for i in 0..rows.len()
        invariant
            all == why_lines(why_texts(rows@), focus, sel, *t),
            lines_cells(out@) == all.take(i as int),
    {
        let ghost had = lines_cells(out@);
        let row = &rows[i];
        let style = if focus == Pane::Why && i == sel {
            row.style.with_bg(t.select_bg)
        } else {
            row.style
        };
        let mut spans: Vec<Span> = Vec::new();
        assert(cells(spans@) =~= Seq::empty());
        push_text(&mut spans, row.text.clone(), style);
        assert(why_texts(rows@)[i as int] == rows@[i as int].text());
        assert(cells(spans@) =~= all[i as int]);
        out.push(spans);
        assert(lines_cells(out@) =~= had.push(all[i as int]));
        assert(all.take(i + 1) =~= all.take(i as int).push(all[i as int]));
    }
    assert(all.take(rows@.len() as int) =~= all);
    out
}

/// The box over the panes: its title, its place, and the colour of its border.
/// Its lines and offsets are the session's.
pub struct PopupView {
    pub title: String,
    pub area: Area,
    pub border: Color,
}

/// The popup scrolled no further than it goes.
pub open spec fn settled_popup(p: Popup) -> Popup {
    Popup {
        scroll: lower(p.scroll as int, last_offset(p.lines@.len() as int)) as u16,
        hscroll: lower(
            p.hscroll as int,
            last_offset(counted(widest(lines_cells(p.lines@), p.lines@.len() as int))),
        ) as u16,
        ..p
    }
}

/// Whether some of a popup is out of sight to the side.
pub open spec fn popup_clipped(p: Popup, area: Area) -> bool {
    counted(widest(lines_cells(p.lines@), p.lines@.len() as int)) > less(area.width as int, 2) || p.hscroll > 0
}

/// Whether a box is drawn as it should be over the code pane.
pub open spec fn popup_shown(v: PopupView, p: Popup, code: Area, t: Theme) -> bool {
    &&& v.border == t.mark
    &&& v.title@ == " "@ + p.title@ + (if popup_clipped(p, v.area) {
        " ‹›"@
    } else {
        ""@
    }) + " "@
    &&& v.area.width == between(less(code.width as int, 4), 20, 90)
    &&& v.area.height == between(bordered_rows(p.lines@.len() as usize), 3, at_least(less(code.height as int, 2), 3))
    &&& v.area.x == screen_sum(code.x as int, less(code.width as int, v.area.width as int) / 2)
    &&& v.area.y == screen_sum(code.y as int, less(code.height as int, v.area.height as int) / 2)
}

fn show_popup(p: &Popup, code: Area, t: &Theme) -> (r: PopupView)
    ensures
        popup_shown(r, *p, code, *t),
{
    let area = popup_rect(code, p.lines.len());
    let clipped = popup_width(&p.lines) > area.width.saturating_sub(2) as usize || p.hscroll > 0;
    let marks = if clipped {
        " ‹›"
    } else {
        ""
    };
    PopupView { title: " ".to_owned().concat(&p.title).concat(marks).concat(" "), area, border: t.mark }
}

/// The command bar: its line, its place, the colour of its border, and the menu
/// below it.
pub struct BarView {
    pub line: String,
    pub area: Area,
    pub border: Color,
    pub menu: Option<(Area, Vec<Line>)>,
}

/// The cells of a row of the completion menu.
pub open spec fn menu_cells(candidate: Seq<char>, naming: bool, all: Seq<Seq<char>>, wide: int, here: bool, t: Theme) -> Seq<
    Cell,
> {
    let style = if here {
        Style::filled(t.select_bg)
    } else {
        Style::plain()
    };
    let (head, help) = menu_row(candidate, naming, all, wide);
    text_cells(head, style) + (match help {
        Some(h) => text_cells(h, style.with_fg(t.dim)),
        None => Seq::empty(),
    })
}

/// The rows of the completion menu.
pub open spec fn menu_lines(bar: CommandBar, wide: int, t: Theme) -> Seq<Seq<Cell>> {
    let all = texts(bar.candidates@);
    Seq::new(
        all.len(),
        |i: int|
            menu_cells(
                all[i],
                typed_command(bar.text@) is None,
                all,
                wide,
                bar.selected == Some(i as usize),
                t,
            ),
    )
}

/// Whether the bar is drawn as it should be.
pub open spec fn bar_shown(v: BarView, bar: CommandBar, whole: Area, t: Theme) -> bool {
    &&& v.line@ == ":"@ + bar.text@ + "▏"@
    &&& v.border == t.border_focus
    &&& v.area.width == between(whole.width as int * 3 / 5, 20, at_least(less(whole.width as int, 4), 20))
    &&& v.area.height == 3
    &&& v.area.x == screen_sum(whole.x as int, less(whole.width as int, v.area.width as int) / 2)
    &&& v.area.y == screen_sum(whole.y as int, 1)
    &&& (v.menu is Some <==> bar.candidates@.len() > 0)
    &&& v.menu matches Some(m) ==> {
        &&& m.0.x == v.area.x
        &&& m.0.y == screen_sum(v.area.y as int, 3)
        &&& m.0.width == v.area.width
        &&& m.0.height == between(
            bordered_rows(bar.candidates@.len() as usize),
            3,
            at_least(less(screen_sum(whole.y as int, whole.height as int), m.0.y as int), 3),
        )
        &&& lines_cells(m.1@) == menu_lines(bar, less(v.area.width as int, 2), t)
    }
}

fn build_menu(bar: &CommandBar, wide: usize, t: &Theme) -> (r: Vec<Line>)
    ensures
        lines_cells(r@) == menu_lines(*bar, wide as int, *t),
{
    let cs = chars_of(&bar.text);
    let naming = find_space(&cs) >= cs.len();
    assert(naming == (typed_command(bar.text@) is None));
    let mut out: Vec<Line> = Vec::new();
    let ghost all = menu_lines(*bar, wide as int, *t);
    for i in 0..bar.candidates.len()
        invariant
            naming == (typed_command(bar.text@) is None),
            all == menu_lines(*bar, wide as int, *t),
            lines_cells(out@) == all.take(i as int),
    {
        let ghost had = lines_cells(out@);
        let here = match bar.selected {
            Some(s) => s == i,
            None => false,
        };
        let style = if here {
            Style::filled(t.select_bg)
        } else {
            Style::plain()
        };
        assert(texts(bar.candidates@)[i as int] == bar.candidates@[i as int]@);
        let (head, help) = command_menu_row(&bar.candidates[i], naming, &bar.candidates, wide);
        let mut spans: Vec<Span> = Vec::new();
        assert(cells(spans@) =~= Seq::empty());
        push_text(&mut spans, head, style);
        assert(cells(spans@) =~= text_cells(head@, style));
        if let Some(h) = help {
            push_text(&mut spans, h, style.with_fg(t.dim));
        }
        assert(cells(spans@) =~= all[i as int]);
        out.push(spans);
        assert(lines_cells(out@) =~= had.push(all[i as int]));
        assert(all.take(i + 1) =~= all.take(i as int).push(all[i as int]));
    }
    assert(texts(bar.candidates@).len() == bar.candidates@.len());
    assert(all.take(bar.candidates@.len() as int) =~= all);
    out
}

fn show_bar(bar: &CommandBar, whole: Area, t: &Theme) -> (r: BarView)
    ensures
        bar_shown(r, *bar, whole, *t),
{
    let area = command_bar_rect(whole);
    let line = ":".to_owned().concat(&bar.text).concat("▏");
    let menu = if bar.candidates.len() == 0 {
        None
    } else {
        let place = command_menu_rect(area, whole, bar.candidates.len());
        Some((place, build_menu(bar, place.width.saturating_sub(2) as usize, t)))
    };
    BarView { line, area, border: t.border_focus, menu }
}

/// Where the three panes are.
#[derive(Clone, Copy)]
pub struct Panes {
    pub list: Area,
    pub code: Area,
    pub why: Area,
}

/// Everything that the screen shows.
pub struct Screen {
    pub panes: Panes,
    pub list: PaneView,
    /// the row of the list that is selected
    pub selected: usize,
    pub code: PaneView,
    pub why: PaneView,
    pub popup: Option<PopupView>,
    pub bar: Option<BarView>,
}

/// Whether a screen shows a session as it should, and what drawing it leaves
/// behind: `a` before, `b` after.
pub open spec fn drawn(a: App, b: App, rev: Seq<char>, whole: Area, panes: Panes, s: Screen) -> bool {
    let m = measured(a, panes.code);
    &&& s.panes == panes
    &&& s.list.text() == pane_of(
        list_title(a, rev),
        a.focus == Pane::List,
        a.theme,
        list_rows(a, less(panes.list.width as int, 4)),
    )
    &&& s.selected == row_of(
        a.view@,
        a.items@,
        a.show_groups,
        a.collapsed@,
        place_of(a.view@, a.sel) as int,
    )
    &&& exists|lines: Seq<Seq<Cell>>, clipped: bool, total: int| #[trigger]
        code_shown(m, panes.code, lines, clipped, total) && {
            let c = settled(m, total, panes.why);
            &&& s.code.text() == pane_of(code_title(m, clipped), a.focus == Pane::Code, a.theme, lines)
            &&& s.why.text() == pane_of(
                " why "@,
                a.focus == Pane::Why,
                a.theme,
                why_lines(why_content(m), a.focus, c.why_sel, a.theme),
            )
            &&& b == (App {
                popup: match a.popup {
                    Some(p) => Some(settled_popup(p)),
                    None => None,
                },
                ..c
            })
        }
    &&& (s.popup is Some <==> a.popup is Some)
    &&& a.popup matches Some(p) ==> popup_shown(s.popup->0, settled_popup(p), panes.code, a.theme)
    &&& (s.bar is Some <==> a.command is Some)
    &&& a.command matches Some(bar) ==> bar_shown(s.bar->0, bar, whole, a.theme)
}

/// Makes the screen of a session whose panes are where they are told to be, and
/// keeps its offsets within what there is to see.
pub fn draw_in(app: &mut App, rev: &str, whole: Area, panes: Panes) -> (r: Screen)
    requires
        old(app).wf(),
        counts_shown_fit(*old(app)),
    ensures
        drawn(*old(app), *final(app), rev@, whole, panes, r),
        final(app).wf(),
{
    let ghost start = *app;
    proof {
        lemma_sel(start);
    }
    let list_width = panes.list.width.saturating_sub(4) as usize;
    let rows = build_list(app, list_width);
    let list = pane_block(title_of_list(app, rev), app.focus == Pane::List, &app.theme, rows);
    let selected: usize = display_row_of(
        &app.view,
        &app.items,
        app.show_groups,
        &app.collapsed,
        view_pos(&app.view, app.sel),
    );
    measure(app, panes.code);
    let ghost m = *app;
    let (lines, clipped, total) = build_code(app, panes.code);
    let ghost code_lines = lines_cells(lines@);
    let code = pane_block(title_of_code(app, clipped), app.focus == Pane::Code, &app.theme, lines);
    let told = why_pane(app);
    assert(why_texts(told@).len() == told@.len());
    settle(app, total, told.len(), panes.why);
    let why_rows = build_why(told, app.focus, app.why_sel, &app.theme);
    let why = pane_block(" why ".to_owned(), app.focus == Pane::Why, &app.theme, why_rows);
    let ghost c = *app;
    let mut shown: Option<PopupView> = None;
    if let Some(p) = app.popup.take() {
        let lines_len: usize = p.lines.len();
        let scroll = lower_of(p.scroll, last_line(lines_len));
        let hscroll = lower_of(p.hscroll, last_line(popup_width(&p.lines)));
        let ghost was = p;
        let p = Popup { title: p.title, lines: p.lines, scroll, hscroll };
        assert(p == settled_popup(was));
        shown = Some(show_popup(&p, panes.code, &app.theme));
        app.popup = Some(p);
    }
    let bar = match &app.command {
        Some(b) => Some(show_bar(b, whole, &app.theme)),
        None => None,
    };
    proof {
        lemma_same_code(c, *app);
        assert(code_shown(m, panes.code, code_lines, clipped, total as int));
    }
    Screen { panes, list, selected, code, why, popup: shown, bar }
}

/// `percent` parts of a hundred of `n` cells, to the nearest cell; half a cell
/// counts as a whole one.
pub open spec fn portion(n: int, percent: int) -> int {
    (n * percent + 50) / 100
}

/// The cells from `start` on that a screen can count, of `n` of them.
pub open spec fn countable(start: int, n: int) -> int {
    screen_sum(start, n) - start
}

/// The columns that an area is divided into, the first of `percent` parts of a
/// hundred.
pub open spec fn columns_of(area: Area, percent: int) -> (Area, Area) {
    let n = countable(area.x as int, area.width as int);
    let first = portion(n, percent);
    (
        Area { width: first as u16, ..area },
        Area { x: (area.x + first) as u16, width: (n - first) as u16, ..area },
    )
}

/// The rows that an area is divided into, the first of `percent` parts of a
/// hundred.
pub open spec fn rows_of(area: Area, percent: int) -> (Area, Area) {
    let n = countable(area.y as int, area.height as int);
    let first = portion(n, percent);
    (
        Area { height: first as u16, ..area },
        Area { y: (area.y + first) as u16, height: (n - first) as u16, ..area },
    )
}

/// Two columns of an area.
///
/// Calls ratatui's `Layout::horizontal` with two `Constraint::Percentage`s and
/// `Layout::split`. Its solver is taken to give each column its percentage where
/// the two make a hundred, with nothing before, between or after them, and to
/// round the place where they meet to the nearest cell; an area that reaches past
/// the last cell a screen can count ends there.
#[verifier::external_body]
fn split_columns(area: Area, first: u16, second: u16) -> (r: (Area, Area))
    requires
        first + second == 100,
    ensures
        r == columns_of(area, first as int),
{
    let whole = ratatui::layout::Rect { x: area.x, y: area.y, width: area.width, height: area.height };
    let parts = ratatui::layout::Layout::horizontal(
        [ratatui::layout::Constraint::Percentage(first), ratatui::layout::Constraint::Percentage(second)],
    ).split(whole);
    (
        Area { x: parts[0].x, y: parts[0].y, width: parts[0].width, height: parts[0].height },
        Area { x: parts[1].x, y: parts[1].y, width: parts[1].width, height: parts[1].height },
    )
}

/// Two rows of an area.
///
/// Calls ratatui's `Layout::vertical` with two `Constraint::Percentage`s and
/// `Layout::split`, which is taken to divide the height as it does the width.
#[verifier::external_body]
fn split_rows(area: Area, first: u16, second: u16) -> (r: (Area, Area))
    requires
        first + second == 100,
    ensures
        r == rows_of(area, first as int),
{
    let whole = ratatui::layout::Rect { x: area.x, y: area.y, width: area.width, height: area.height };
    let parts = ratatui::layout::Layout::vertical(
        [ratatui::layout::Constraint::Percentage(first), ratatui::layout::Constraint::Percentage(second)],
    ).split(whole);
    (
        Area { x: parts[0].x, y: parts[0].y, width: parts[0].width, height: parts[0].height },
        Area { x: parts[1].x, y: parts[1].y, width: parts[1].width, height: parts[1].height },
    )
}

/// Where the panes are: the list takes 38 parts of a hundred of the width, the
/// code 70 of the height beside it.
pub open spec fn panes_of(whole: Area) -> Panes {
    let (list, right) = columns_of(whole, 38);
    let (code, why) = rows_of(right, 70);
    Panes { list, code, why }
}

pub fn layout(whole: Area) -> (r: Panes)
    ensures
        r == panes_of(whole),
{
    let (list, right) = split_columns(whole, 38, 62);
    let (code, why) = split_rows(right, 70, 30);
    Panes { list, code, why }
}

/// The panes fill the screen and do not overlap: the list takes one side over its
/// whole height, the code and why panes share the other.
pub proof fn law_the_panes_fill_the_screen(whole: Area)
    requires
        whole.x + whole.width <= u16::MAX,
        whole.y + whole.height <= u16::MAX,
    ensures
        ({
            let p = panes_of(whole);
            &&& p.list.x == whole.x && p.list.y == whole.y && p.list.height == whole.height
            &&& p.code.x == p.list.x + p.list.width && p.code.x + p.code.width == whole.x + whole.width
            &&& p.why.x == p.code.x && p.why.width == p.code.width
            &&& p.code.y == whole.y && p.why.y == p.code.y + p.code.height
            &&& p.why.y + p.why.height == whole.y + whole.height
        }),
{
    let n = whole.width as int;
    let m = whole.height as int;
    assert(0 <= portion(n, 38) <= n);
    assert(0 <= portion(m, 70) <= m);
}

/// Makes the screen of a session.
pub fn draw(app: &mut App, rev: &str, whole: Area) -> (r: Screen)
    requires
        old(app).wf(),
        counts_shown_fit(*old(app)),
    ensures
        r.panes == panes_of(whole),
        drawn(*old(app), *final(app), rev@, whole, r.panes, r),
        final(app).wf(),
{
    let panes = layout(whole);
    draw_in(app, rev, whole, panes)
}

/// Drawing moves nothing but the offsets of the panes, and those only back into
/// what there is to see.
pub proof fn law_drawing_moves_nothing_but_offsets(a: App, b: App, rev: Seq<char>, whole: Area, panes: Panes, s: Screen)
    requires
        a.wf(),
        drawn(a, b, rev, whole, panes, s),
    ensures
        b.sel == a.sel,
        b.view == a.view,
        b.items == a.items,
        b.reviewed == a.reviewed,
        b.cursor == a.cursor,
        b.search == a.search,
        b.marks == a.marks,
        b.notes == a.notes,
        b.hscroll <= a.hscroll,
        b.scroll <= a.scroll,
        b.why_scroll <= a.why_scroll,
        b.why_sel <= a.why_sel,
{
}

} // verus!
