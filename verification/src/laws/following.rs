//! What is told of the selected hunk is about that hunk, and what its lines lead
//! to is where they lead.

use crate::cursor::Cursor;
use crate::identity::note_of;
use crate::keys::{Fold, Pane};
use crate::links::cascade_text;
use crate::model::{symbol_texts, Item};
use crate::session::{
    edge_under, folds_after, jumped_back, jumped_to_edge, preview_lines, preview_popup, told_of, why_content,
};
use crate::state::App;
use crate::text::{decimal, joined};
use vstd::prelude::*;

verus! {

/// The note that is told is the one on the symbols of the selected hunk.
pub proof fn law_the_note_told_is_that_of_the_selected_hunk(a: App, key: u64)
    requires
        note_of(symbol_texts(a.items@[a.sel as int].symbols@)) == Some(key),
    ensures
        a.notes@.dom().contains(key) ==> told_of(a).note == Some(a.notes@[key]@),
        !a.notes@.dom().contains(key) ==> told_of(a).note is None,
{
}

/// A hunk without symbols has no note.
pub proof fn law_a_hunk_without_symbols_has_no_note(a: App)
    requires
        a.items@[a.sel as int].symbols@.len() == 0,
    ensures
        told_of(a).note is None,
{
    assert(symbol_texts(a.items@[a.sel as int].symbols@).len() == 0);
}

/// What rejecting a hunk would strand is counted, and the first three are named
/// by their places; where nothing is stranded nothing is told.
pub proof fn law_what_is_stranded_is_counted_and_named(items: Seq<Item>, hit: Seq<usize>)
    ensures
        hit.len() == 0 <==> cascade_text(items, hit) is None,
        hit.len() == 1 ==> cascade_text(items, hit) == Some(
            "rejecting this strands "@ + decimal(1) + " hunk"@ + " ("@ + (items[hit[0] as int].path@ + ":L"@ + decimal(
                items[hit[0] as int].new_range[0] as int,
            )) + ")"@,
        ),
        hit.len() == 2 ==> cascade_text(items, hit) == Some(
            "rejecting this strands "@ + decimal(2) + " hunk"@ + "s"@ + " ("@ + (items[hit[0] as int].path@ + ":L"@
                + decimal(items[hit[0] as int].new_range[0] as int)) + ", "@ + (items[hit[1] as int].path@ + ":L"@
                + decimal(items[hit[1] as int].new_range[0] as int)) + ")"@,
        ),
{
    reveal_strlit("");
    if hit.len() == 1 {
        let p = crate::links::place_texts(items, hit.take(1));
        let x = items[hit[0] as int].path@ + ":L"@ + decimal(items[hit[0] as int].new_range[0] as int);
        assert(p.len() == 1 && p[0] == x);
        let head = "rejecting this strands "@ + decimal(1) + " hunk"@;
        assert(head + ""@ == head);
        assert(head + " ("@ + x + ""@ == head + " ("@ + x);
    }
    if hit.len() == 2 {
        let p = crate::links::place_texts(items, hit.take(2));
        let x = items[hit[0] as int].path@ + ":L"@ + decimal(items[hit[0] as int].new_range[0] as int);
        let y = items[hit[1] as int].path@ + ":L"@ + decimal(items[hit[1] as int].new_range[0] as int);
        assert(p.len() == 2 && p[0] == x && p[1] == y);
        assert(p.drop_last().len() == 1 && p.drop_last()[0] == x);
        reveal_with_fuel(joined, 3);
        assert(joined(p, ", "@) == x + ", "@ + y);
        let head = "rejecting this strands "@ + decimal(2) + " hunk"@ + "s"@ + " ("@;
        assert(head + (x + ", "@ + y) + ""@ + ")"@ == head + x + ", "@ + y + ")"@);
    }
}

/// The line of the why pane that the selection is on decides where it leads:
/// a line of text leads nowhere.
pub proof fn law_only_a_line_of_a_dependency_leads_on(a: App)
    ensures
        a.why_sel >= why_content(a).len() ==> edge_under(a) is None,
        a.why_sel < why_content(a).len() && why_content(a)[a.why_sel as int].kind is Text ==> edge_under(a) is None,
        a.why_sel < why_content(a).len() && why_content(a)[a.why_sel as int].kind is Edge ==> edge_under(a) == Some(
            why_content(a)[a.why_sel as int].kind->Edge_0,
        ),
{
}

/// A jump selects the hunk it leads to and goes to its code; the marks and the
/// view stay.
pub proof fn law_a_jump_goes_where_it_leads(a: App, jumps: Vec<(usize, Cursor)>, t: usize)
    ensures
        jumped_to_edge(a, jumps, t).sel == t,
        jumped_to_edge(a, jumps, t).focus == Pane::Code,
        jumped_to_edge(a, jumps, t).jumps == jumps,
        jumped_to_edge(a, jumps, t).reviewed == a.reviewed,
        jumped_to_edge(a, jumps, t).view == a.view,
        jumped_to_edge(a, jumps, t).items == a.items,
{
}

/// A jump back selects the hunk it came from, with the cursor where it was.
pub proof fn law_a_jump_back_returns_to_the_place(a: App, jumps: Vec<(usize, Cursor)>, pos: (usize, Cursor))
    ensures
        ({
            let r = jumped_back(a, jumps, pos);
            &&& r.sel == pos.0
            &&& r.focus == Pane::Code
            &&& r.jumps == jumps
            &&& r.reviewed == a.reviewed && r.view == a.view && r.items == a.items
            &&& (pos.1.line < r.lines().len() && pos.1.col < r.lines()[pos.1.line as int].len() ==> r.cursor == pos.1)
        }),
{
    let r = jumped_back(a, jumps, pos);
    let there = crate::session::selected(App { jumps, ..a }, pos.0);
    assert(r.lines() == there.lines());
}

/// A preview starts with the place of the hunk, and gives the reason of a hunk
/// that has one.
pub proof fn law_a_preview_starts_with_the_place(a: App, t: usize, k: int)
    requires
        ({
            let place = a.items@[t as int].path@ + ":L"@ + decimal(a.items@[t as int].new_range[0] as int);
            0 <= k < place.len()
        }),
    ensures
        ({
            let it = a.items@[t as int];
            let place = it.path@ + ":L"@ + decimal(it.new_range[0] as int);
            let lines = preview_lines(a, t);
            &&& lines.len() >= 1
            &&& lines[0].len() == place.len()
            &&& lines[0][k].0 == place[k]
            &&& (it.rationale@ != "change"@ ==> lines.len() >= 3 && lines[2].len() == "reason: "@.len()
                + it.rationale@.len())
        }),
{
    let it = a.items@[t as int];
    let lines = preview_lines(a, t);
    assert(lines[0] == crate::paint::text_cells(
        it.path@ + ":L"@ + decimal(it.new_range[0] as int),
        crate::paint::Style::plain(),
    ));
    if it.rationale@ != "change"@ {
        assert(lines[2] == crate::paint::text_cells(
            "reason: "@ + it.rationale@,
            crate::paint::Style::of(a.theme.border_focus),
        ));
    }
}

/// A dependency on what is not under review says so in its preview.
pub proof fn law_a_preview_of_what_is_not_reviewed_says_so(a: App)
    ensures
        preview_popup(a, None) == crate::state::prose_popup(
            "dep"@,
            seq![
                "the referenced change isn't part of this review"@,
                "(excluded by a glob, --only-comments, or a file not sent to ordo)"@,
            ],
        ),
{
}

/// Folding everything folds the bucket of every hunk, and unfolding everything
/// leaves none folded.
pub proof fn law_folding_all_folds_every_bucket(collapsed: Set<Seq<char>>, here: Seq<char>, items: Seq<Item>, i: int)
    requires
        0 <= i < items.len(),
    ensures
        folds_after(collapsed, here, items, Fold::CloseAll).contains(items[i].bucket@),
        folds_after(collapsed, here, items, Fold::OpenAll) == Set::<Seq<char>>::empty(),
{
    assert(items[i].bucket@ == items[i].bucket@);
}

} // verus!
