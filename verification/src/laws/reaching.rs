//! What the keys reach: the cursor, the search, the command bar and the
//! dependencies.

use crate::cursor::Cursor;
use crate::events::{applied, symbol_searched, EffectText};
use crate::finder::search_cycled;
use crate::keys::{Action, Pane};
use crate::session::{cursor_moved, edge_under, jump_source, preview_popup, pushed, Motion};
use crate::state::{popup_text, App};
use vstd::prelude::*;

verus! {

/// Quitting ends a search that is shown, and only without one the run.
pub proof fn law_quitting_ends_the_search_first(a: App, b: App, now: u64, e: EffectText)
    requires
        a.popup is None,
        applied(a, b, Action::Quit, now, e),
    ensures
        a.search is Some ==> b.search is None && e == EffectText::Stay && b.sel == a.sel && b.cursor == a.cursor,
        a.search is None ==> b == a && e == EffectText::Quit,
{
}

/// In the code the keys move the cursor as they are named; in the other panes
/// they leave everything as it is.
pub proof fn law_the_cursor_moves_in_the_code(a: App, b: App, now: u64, e: EffectText)
    requires
        a.popup is None,
    ensures
        a.focus == Pane::Code && applied(a, b, Action::CursorLeft, now, e) ==> b == cursor_moved(a, Motion::Col(-1isize)),
        a.focus == Pane::Code && applied(a, b, Action::CursorRight, now, e) ==> b == cursor_moved(a, Motion::Col(1isize)),
        a.focus == Pane::Code && applied(a, b, Action::WordNext, now, e) ==> b == cursor_moved(a, Motion::WordNext),
        a.focus == Pane::Code && applied(a, b, Action::WordPrev, now, e) ==> b == cursor_moved(a, Motion::WordPrev),
        a.focus == Pane::Code && applied(a, b, Action::WordEnd, now, e) ==> b == cursor_moved(a, Motion::WordEnd),
        a.focus == Pane::Code && applied(a, b, Action::ParaPrev, now, e) ==> b == cursor_moved(a, Motion::ParaPrev),
        a.focus == Pane::Code && applied(a, b, Action::ParaNext, now, e) ==> b == cursor_moved(a, Motion::ParaNext),
        a.focus != Pane::Code && applied(a, b, Action::WordNext, now, e) ==> b == a,
        a.focus != Pane::Code && applied(a, b, Action::CursorLeft, now, e) ==> b == a,
{
}

/// The ends of a line are those of the cursor's line in the code.
pub proof fn law_the_ends_of_a_line_are_reached_in_the_code(a: App, b: App, now: u64, e: EffectText)
    requires
        a.popup is None,
        a.focus == Pane::Code,
    ensures
        applied(a, b, Action::LineStart, now, e) ==> b == cursor_moved(a, Motion::LineStart),
        applied(a, b, Action::LineEnd, now, e) ==> b == cursor_moved(a, Motion::LineEnd),
{
}

/// A search is opened on the code with nothing typed yet, and remembers where
/// the cursor was.
pub proof fn law_a_search_opens_where_the_cursor_is(a: App, b: App, now: u64, e: EffectText)
    requires
        a.popup is None,
        applied(a, b, Action::SearchOpen, now, e),
    ensures
        e == EffectText::Stay,
        a.focus == Pane::Code ==> b.prompt is Some && b.prompt->0.text@.len() == 0 && b.prompt->0.anchor == a.cursor
            && b.cursor == a.cursor && b.sel == a.sel,
        a.focus != Pane::Code ==> b == a,
{
    reveal_strlit("");
}

/// In the code the next match and the next place of a name lie ahead, and the
/// previous ones behind.
pub proof fn law_the_next_lies_ahead_and_the_previous_behind(a: App, b: App, now: u64, e: EffectText)
    requires
        a.popup is None,
        a.focus == Pane::Code,
    ensures
        applied(a, b, Action::SearchNext, now, e) ==> b == search_cycled(a, 1),
        applied(a, b, Action::SearchPrev, now, e) ==> b == search_cycled(a, -1),
        applied(a, b, Action::SymbolNext, now, e) ==> symbol_searched(a, b, true),
        applied(a, b, Action::SymbolPrev, now, e) ==> symbol_searched(a, b, false),
{
}

/// The command bar opens empty, or with the command that goes to a file.
pub proof fn law_the_command_bar_opens(a: App, b: App, now: u64, e: EffectText)
    requires
        a.popup is None,
    ensures
        applied(a, b, Action::CommandOpen, now, e) ==> b.command is Some && b.command->0.text@.len() == 0 && e
            == EffectText::Stay && b.sel == a.sel,
        applied(a, b, Action::CommandGoto, now, e) ==> b.command is Some && b.command->0.text@ == "goto "@ && e
            == EffectText::Stay && b.sel == a.sel,
{
    reveal_strlit("");
}

/// From the why pane a jump leads to the hunk that its line leads to, and keeps
/// the way back; from another pane, or from a line of text, it leads nowhere.
pub proof fn law_a_jump_starts_from_a_dependency(a: App, b: App, now: u64, e: EffectText, t: usize)
    requires
        a.popup is None,
        applied(a, b, Action::JumpToEdge, now, e),
    ensures
        a.focus == Pane::Why && edge_under(a) == Some(Some(t)) ==> b.sel == t && b.focus == Pane::Code && b.jumps@.len()
            > 0 && b.jumps@.last() == (a.sel, a.cursor),
        a.focus != Pane::Why || edge_under(a) is None ==> b == a,
{
}

/// The way back is kept in order, and when it gets too long its oldest place is
/// forgotten.
pub proof fn law_the_way_back_keeps_the_latest_places(stack: Seq<(usize, Cursor)>, pos: (usize, Cursor))
    ensures
        pushed(stack, pos).last() == pos,
        stack.len() < 50 ==> pushed(stack, pos).drop_last() == stack,
        stack.len() == 50 ==> pushed(stack, pos).drop_last() == stack.skip(1),
{
    assert(stack.push(pos).drop_last() == stack);
    assert(stack.skip(1).push(pos).drop_last() == stack.skip(1));
}

/// A jump back leads to the place that was left last of those still in view, and
/// forgets the way from there.
pub proof fn law_a_jump_back_leads_to_what_was_left(a: App, b: App, now: u64, e: EffectText, k: int)
    requires
        a.popup is None,
        applied(a, b, Action::JumpBack, now, e),
    ensures
        jump_source(a.jumps@, a.view@, a.items@.len() as int) == Some(k) ==> b.sel == a.jumps@[k].0 && b.jumps@
            == a.jumps@.take(k) && b.focus == Pane::Code,
        jump_source(a.jumps@, a.view@, a.items@.len() as int) is None ==> b.sel == a.sel && b.jumps@.len() == 0,
{
}

/// In the why pane a hover shows the hunk that the line leads to, and in the
/// list it shows nothing.
pub proof fn law_a_hover_shows_what_a_line_leads_to(a: App, b: App, now: u64, e: EffectText, t: Option<usize>)
    requires
        a.popup is None,
        applied(a, b, Action::Hover, now, e),
    ensures
        a.focus == Pane::Why && edge_under(a) == Some(t) ==> popup_text(b.popup) == Some(preview_popup(a, t)) && b.sel
            == a.sel,
        a.focus == Pane::Why && edge_under(a) is None ==> b.popup is None,
        a.focus == Pane::List ==> b == a && e == EffectText::Stay,
{
}

} // verus!
