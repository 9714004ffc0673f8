//! What the screen shows of the review: its rows in their colours, what was
//! counted, and the boxes inside their areas.

use crate::code_view::GUTTER_W;
use crate::draw::{
    bar_shown, clip_marks, code_title, list_row, list_title, measured, menu_cells, overlays_of, pane_of, panes_of,
    popup_shown, search_status, settled, settled_popup, why_lines, Area, BarView, PopupView,
};
use crate::keys::Pane;
use crate::links::{all_done_edges, all_edges, done_count};
use crate::model::Item;
use crate::paint::Cell;
use crate::session::why_content;
use crate::state::{App, CommandBar, Popup, SearchKind};
use crate::text::decimal;
use crate::theme::Theme;
use crate::view::RowText;
use crate::why::WhyText;
use vstd::prelude::*;

verus! {

/// A row of the list is dim where the hunk is noise, and else marked as reviewed
/// where it is; what is shown of it is its mark, its path, its first line and
/// its category.
pub proof fn law_a_row_shows_its_hunk(items: Seq<Item>, reviewed: Seq<bool>, t: Theme, i: usize, wide: int, k: int)
    requires
        i < items.len() == reviewed.len(),
        ({
            let it = items[i as int];
            let text = it.mark@ + it.path@ + (":L"@ + decimal(it.new_range[0] as int)) + (" ["@ + it.cat@ + "]"@);
            &&& text.len() <= wide
            &&& 0 <= k < text.len()
        }),
    ensures
        ({
            let it = items[i as int];
            let text = it.mark@ + it.path@ + (":L"@ + decimal(it.new_range[0] as int)) + (" ["@ + it.cat@ + "]"@);
            let row = list_row(RowText::Item(i), items, reviewed, t, wide);
            &&& row.len() == text.len()
            &&& row[k].0 == text[k]
            &&& (it.noise ==> row[k].1.fg == Some(t.dim))
            &&& (!it.noise && reviewed[i as int] ==> row[k].1.fg == Some(t.reviewed))
            &&& (!it.noise && !reviewed[i as int] ==> (k < it.mark@.len() ==> row[k].1.fg == Some(t.mark)) && (it.mark@.len()
                <= k < it.mark@.len() + it.path@.len() ==> row[k].1.fg == Some(t.fg)))
        }),
{
}

/// A header shows the reason of its group.
pub proof fn law_a_header_shows_its_reason(
    reason: Seq<char>,
    items: Seq<Item>,
    reviewed: Seq<bool>,
    t: Theme,
    wide: int,
    k: int,
)
    requires
        0 <= k < reason.len(),
        reason.len() + 2 <= wide,
    ensures
        ({
            let row = list_row(RowText::Header(reason), items, reviewed, t, wide);
            &&& row.len() == reason.len() + 2
            &&& row[k + 2].0 == reason[k]
            &&& row[k + 2].1.bold
        }),
{
    reveal_strlit("· ");
    assert("· "@.len() == 2);
}

/// The pane that has the focus has the colour of the focus on its border and
/// its title; any other has the plain border and a dim title.
pub proof fn law_the_pane_in_focus_stands_out(title: Seq<char>, t: Theme, lines: Seq<Seq<Cell>>)
    ensures
        pane_of(title, true, t, lines).border == t.border_focus,
        pane_of(title, true, t, lines).title_color == t.border_focus,
        pane_of(title, false, t, lines).border == t.border,
        pane_of(title, false, t, lines).title_color == t.dim,
        pane_of(title, true, t, lines).title == title,
        pane_of(title, true, t, lines).lines == lines,
        pane_of(title, false, t, lines).lines == lines,
{
}

/// The mark at the title points to each side on which something is cut off.
pub proof fn law_the_title_points_to_what_is_cut_off(left: bool, right: bool)
    ensures
        clip_marks(left, right).contains('‹') <==> left,
        clip_marks(left, right).contains('›') <==> right,
{
    reveal_strlit(" ‹›");
    reveal_strlit(" ‹");
    reveal_strlit(" ›");
    reveal_strlit("");
    let s = clip_marks(left, right);
    if left && right {
        assert(s[1] == '‹' && s[2] == '›');
    } else if left {
        assert(s[1] == '‹' && s.len() == 2 && s[0] == ' ');
    } else if right {
        assert(s[1] == '›' && s.len() == 2 && s[0] == ' ');
    }
}

/// A search says which match of how many is shown, counted from one, and by
/// what was searched.
pub proof fn law_a_search_says_where_it_is(pattern: Seq<char>, found: int, index: int)
    ensures
        found > 0 ==> search_status(SearchKind::Text, pattern, found, index) == "["@ + decimal(index + 1) + "/"@
            + decimal(found) + "] "@ + "/"@ + pattern,
        found > 0 ==> search_status(SearchKind::Symbol, pattern, found, index) == "["@ + decimal(index + 1) + "/"@
            + decimal(found) + "] "@ + "*"@ + pattern,
        search_status(SearchKind::Text, pattern, 0, index) == "no matches for "@ + "/"@ + pattern,
        search_status(SearchKind::Symbol, pattern, 0, index) == "no matches for "@ + "*"@ + pattern,
{
}

/// The title of the code is what is being searched for while it is typed, and
/// starts with the path of the file else.
pub proof fn law_the_title_of_the_code_names_the_file(a: App, clipped: bool, k: int)
    requires
        a.prompt is None,
        0 <= k < a.path().len(),
    ensures
        code_title(a, clipped).len() > a.path().len() + 1,
        code_title(a, clipped)[0] == ' ',
        code_title(a, clipped)[k + 1] == a.path()[k],
{
    reveal_strlit(" ");
    reveal_strlit(") ");
    reveal_strlit("  (");
    assert(" "@[0] == ' ');
}

/// The row of the why pane that is selected is filled while the pane has the
/// focus, and no other row ever is.
pub proof fn law_only_the_selected_row_is_filled(rows: Seq<WhyText>, focus: Pane, sel: usize, t: Theme, i: int, k: int)
    requires
        0 <= i < rows.len(),
        0 <= k < rows[i].text.len(),
    ensures
        ({
            let lines = why_lines(rows, focus, sel, t);
            &&& lines.len() == rows.len()
            &&& lines[i].len() == rows[i].text.len()
            &&& lines[i][k].0 == rows[i].text[k]
            &&& (focus == Pane::Why && i == sel ==> lines[i][k].1.bg == Some(t.select_bg))
            &&& (focus != Pane::Why || i != sel ==> lines[i][k].1 == rows[i].style)
        }),
{
}

/// The panes stand beside and above each other: the list to the left of the
/// code, and the code above the why pane, without a gap.
pub proof fn law_the_panes_stand_beside_each_other(whole: Area)
    requires
        whole.x + whole.width <= u16::MAX,
        whole.y + whole.height <= u16::MAX,
    ensures
        ({
            let p = panes_of(whole);
            &&& p.list.x == whole.x && p.list.y == whole.y && p.list.height == whole.height
            &&& p.code.x == p.list.x + p.list.width && p.code.y == whole.y
            &&& p.why.x == p.code.x && p.why.y == p.code.y + p.code.height
            &&& p.list.width + p.code.width == whole.width
            &&& p.code.width == p.why.width
            &&& p.code.height + p.why.height == whole.height
        }),
{
    assert((whole.width * 38 + 50) / 100 <= whole.width) by (nonlinear_arith)
        requires
            whole.width >= 0,
    ;
    assert((whole.height * 70 + 50) / 100 <= whole.height) by (nonlinear_arith)
        requires
            whole.height >= 0,
    ;
}

/// The list takes the smaller part of the width, and the code the larger part
/// of the height.
pub proof fn law_the_code_has_the_most_room(whole: Area)
    requires
        whole.x + whole.width <= u16::MAX,
        whole.y + whole.height <= u16::MAX,
        whole.width >= 10,
        whole.height >= 10,
    ensures
        ({
            let p = panes_of(whole);
            &&& p.list.width < p.code.width
            &&& p.why.height < p.code.height
        }),
{
    let w = whole.width as int;
    let h = whole.height as int;
    assert(2 * ((w * 38 + 50) / 100) < w) by (nonlinear_arith)
        requires
            w >= 10,
    ;
    assert(2 * ((h * 70 + 50) / 100) > h && (h * 70 + 50) / 100 <= h) by (nonlinear_arith)
        requires
            h >= 10,
    ;
}

/// The title of the list says which revision is read, how many of the hunks in
/// view were reviewed, and under which keys; where everything is in view and
/// nothing leans on anything it says no more.
pub proof fn law_the_title_of_the_list_counts_what_was_reviewed(a: App, rev: Seq<char>)
    requires
        a.view@.len() == a.items@.len(),
        all_edges(a.items@, a.view@, a.view@.len() as int) == 0,
    ensures
        list_title(a, rev) == " "@ + rev + " — "@ + decimal(
            done_count(a.view@, a.reviewed@, a.view@.len() as int),
        ) + "/"@ + decimal(a.view@.len() as int) + " reviewed"@ + " · "@ + a.keys.name@ + " "@,
{
    reveal(list_title);
    reveal_strlit("");
    let head = " "@ + rev + " — "@ + decimal(done_count(a.view@, a.reviewed@, a.view@.len() as int)) + "/"@ + decimal(
        a.view@.len() as int,
    ) + " reviewed"@;
    assert(head + ""@ == head);
    assert(list_title(a, rev) == head + ""@ + ""@ + " · "@ + a.keys.name@ + " "@);
}

/// Where some hunks are hidden, the title says so.
pub proof fn law_the_title_of_the_list_tells_of_a_filter(a: App, rev: Seq<char>)
    requires
        a.view@.len() < a.items@.len(),
        all_edges(a.items@, a.view@, a.view@.len() as int) == 0,
    ensures
        list_title(a, rev) == " "@ + rev + " — "@ + decimal(
            done_count(a.view@, a.reviewed@, a.view@.len() as int),
        ) + "/"@ + decimal(a.view@.len() as int) + " reviewed"@ + " (filtered)"@ + " · "@ + a.keys.name@ + " "@,
{
    reveal(list_title);
    reveal_strlit("");
    let head = " "@ + rev + " — "@ + decimal(done_count(a.view@, a.reviewed@, a.view@.len() as int)) + "/"@ + decimal(
        a.view@.len() as int,
    ) + " reviewed"@;
    assert(head + ""@ == head);
    assert(list_title(a, rev) == head + ""@ + " (filtered)"@ + " · "@ + a.keys.name@ + " "@);
}

/// Where hunks lean on each other, the title says of how many dependencies both
/// ends were reviewed.
pub proof fn law_the_title_of_the_list_counts_dependencies(a: App, rev: Seq<char>)
    requires
        a.view@.len() == a.items@.len(),
        all_edges(a.items@, a.view@, a.view@.len() as int) > 0,
    ensures
        list_title(a, rev) == " "@ + rev + " — "@ + decimal(
            done_count(a.view@, a.reviewed@, a.view@.len() as int),
        ) + "/"@ + decimal(a.view@.len() as int) + " reviewed"@ + (" · "@ + decimal(
            all_done_edges(a.items@, a.view@, a.reviewed@, a.view@.len() as int),
        ) + "/"@ + decimal(all_edges(a.items@, a.view@, a.view@.len() as int)) + " edges"@) + " · "@ + a.keys.name@
            + " "@,
{
    reveal(list_title);
    reveal_strlit("");
    let n = a.view@.len() as int;
    let head = " "@ + rev + " — "@ + decimal(done_count(a.view@, a.reviewed@, n)) + "/"@ + decimal(n) + " reviewed"@ + (
    " · "@ + decimal(all_done_edges(a.items@, a.view@, a.reviewed@, n)) + "/"@ + decimal(
        all_edges(a.items@, a.view@, n),
    ) + " edges"@);
    assert(head + ""@ == head);
    assert(list_title(a, rev) == head + ""@ + " · "@ + a.keys.name@ + " "@);
}

/// The room for code is what the border and the numbers of the lines leave, and
/// the code is scrolled no further than its longest line is long.
pub proof fn law_the_code_has_the_room_that_is_left(a: App, code: Area)
    requires
        code.width >= 2 + GUTTER_W,
        code.height >= 2,
    ensures
        measured(a, code).code_height == code.height - 2,
        measured(a, code).code_width == code.width - 2 - GUTTER_W,
        measured(a, code).hscroll <= a.hscroll,
        measured(a, code).sel == a.sel && measured(a, code).cursor == a.cursor && measured(a, code).scroll == a.scroll,
{
}

/// Nothing is scrolled further than to its last row, and what is not scrolled so
/// far stays where it is.
pub proof fn law_nothing_is_scrolled_past_its_end(a: App, total: int, why: Area)
    requires
        0 < total <= u16::MAX,
        why_content(a).len() <= u16::MAX,
    ensures
        settled(a, total, why).scroll < total,
        a.scroll < total ==> settled(a, total, why).scroll == a.scroll,
        why_content(a).len() > 0 ==> settled(a, total, why).why_scroll < why_content(a).len(),
        why_content(a).len() > 0 ==> settled(a, total, why).why_sel < why_content(a).len(),
        a.why_sel < why_content(a).len() ==> settled(a, total, why).why_sel == a.why_sel,
        settled(a, total, why).sel == a.sel && settled(a, total, why).cursor == a.cursor,
{
}

/// The candidate that is selected is filled, and no other is.
pub proof fn law_only_the_selected_candidate_is_filled(
    candidate: Seq<char>,
    naming: bool,
    all: Seq<Seq<char>>,
    wide: int,
    t: Theme,
    k: int,
)
    requires
        0 <= k < menu_cells(candidate, naming, all, wide, true, t).len(),
    ensures
        menu_cells(candidate, naming, all, wide, true, t)[k].1.bg == Some(t.select_bg),
        menu_cells(candidate, naming, all, wide, false, t).len() == menu_cells(candidate, naming, all, wide, true, t).len(),
        menu_cells(candidate, naming, all, wide, false, t)[k].1.bg is None,
        menu_cells(candidate, naming, all, wide, false, t)[k].0 == menu_cells(candidate, naming, all, wide, true, t)[k].0,
{
}

/// A box is scrolled no further than to its last line, and stays where it is
/// while it is not.
pub proof fn law_a_box_is_not_scrolled_past_its_end(p: Popup)
    requires
        0 < p.lines@.len() <= u16::MAX,
    ensures
        settled_popup(p).scroll < p.lines@.len(),
        p.scroll < p.lines@.len() ==> settled_popup(p).scroll == p.scroll,
        settled_popup(p).lines == p.lines,
        settled_popup(p).title == p.title,
{
}

/// The code is shown with the cursor, with the matches of the search and with
/// the colours of its file.
pub proof fn law_the_code_is_shown_with_what_lies_over_it(a: App)
    ensures
        overlays_of(a).cursor == Some(a.cursor),
        a.search matches Some(s) ==> overlays_of(a).matches == s.matches@ && overlays_of(a).cur_match == Some(s.index),
        a.search is None ==> overlays_of(a).matches.len() == 0 && overlays_of(a).cur_match is None,
        overlays_of(a).hl == crate::code_view::highlights_of(a.highlights@, a.path()),
{
}

/// A box stands in the middle of the code, as tall as its lines and its border
/// where there is room, and has its own border and title.
pub proof fn law_a_box_stands_over_the_code(v: PopupView, p: Popup, code: Area, t: Theme)
    requires
        popup_shown(v, p, code, t),
        24 <= code.width <= 94,
        p.lines@.len() + 4 <= code.height,
        1 <= p.lines@.len(),
        code.x + code.width <= u16::MAX,
        code.y + code.height <= u16::MAX,
    ensures
        v.border == t.mark,
        v.area.width == code.width - 4,
        v.area.height == p.lines@.len() + 2,
        v.area.x == code.x + 2,
        code.y < v.area.y,
        v.area.y + v.area.height <= code.y + code.height,
        v.title@.len() >= p.title@.len() + 2,
        v.title@.subrange(1, 1 + p.title@.len() as int) == p.title@,
{
    reveal_strlit(" ");
    reveal_strlit(" ‹›");
    reveal_strlit("");
    assert(v.title@.subrange(1, 1 + p.title@.len() as int) =~= p.title@);
}

/// The command bar shows what is typed behind a colon, with a cursor at its end,
/// and its menu right below it.
pub proof fn law_the_command_bar_shows_what_is_typed(v: BarView, bar: CommandBar, whole: Area, t: Theme)
    requires
        bar_shown(v, bar, whole, t),
    ensures
        v.line@ == ":"@ + bar.text@ + "▏"@,
        v.border == t.border_focus,
        v.menu is Some <==> bar.candidates@.len() > 0,
        v.menu matches Some(m) ==> m.0.x == v.area.x && m.0.width == v.area.width && m.1@.len() == bar.candidates@.len(),
        whole.y < u16::MAX ==> v.area.y == whole.y + 1,
{
    if let Some(m) = v.menu {
        assert(crate::paint::lines_cells(m.1@).len() == m.1@.len());
    }
}

} // verus!
