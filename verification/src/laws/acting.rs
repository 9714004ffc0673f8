//! What the keys do to a review.

use crate::events::{applied, command_key, keyed, marks_after, popup_action, prompt_key, EffectText};
use crate::execute::OutcomeText;
use crate::identity::mark_of;
use crate::keys::{norm, resolved, Action, KeyCode, KeyModifiers, Pane, Resolve};
use crate::session::{folded, stepped};
use crate::state::App;
use vstd::prelude::*;

verus! {

/// To mark a hunk turns its own mark over and no other, and moves on to the next
/// one in view; the mark is kept under the hunk's key, at the present time, or
/// taken away.
pub proof fn law_marking_turns_one_mark_over(a: App, b: App, now: u64, e: EffectText, k: int)
    requires
        a.popup is None,
        applied(a, b, Action::ToggleReviewed, now, e),
        a.sel < a.reviewed@.len(),
        0 <= k < a.view@.len(),
        a.view@[k] == a.sel,
        forall|j: int| 0 <= j < k ==> a.view@[j] != a.sel,
    ensures
        b.reviewed@.len() == a.reviewed@.len(),
        b.reviewed@[a.sel as int] == !a.reviewed@[a.sel as int],
        forall|i: int| 0 <= i < a.reviewed@.len() && i != a.sel ==> #[trigger] b.reviewed@[i] == a.reviewed@[i],
        k + 1 < a.view@.len() ==> b.sel == a.view@[k + 1],
        k + 1 == a.view@.len() ==> b.sel == a.sel,
        ({
            let key = mark_of(a.rev@, a.items@[a.sel as int], a.sources@);
            &&& key is Some && !a.reviewed@[a.sel as int] ==> b.marks@.dom().contains(key->0) && b.marks@[key->0] == now
            &&& key is Some && a.reviewed@[a.sel as int] ==> !b.marks@.dom().contains(key->0)
            &&& key is None ==> b.marks@ == a.marks@
            &&& e == EffectText::SaveMarks <==> key is Some && a.marks_path is Some
        }),
        b.items == a.items,
        b.view == a.view,
        b.notes == a.notes,
{
    crate::laws::listing::law_the_place_of_an_item_is_where_it_stands(a.view@, k);
    let key = mark_of(a.rev@, a.items@[a.sel as int], a.sources@);
    if let Some(x) = key {
        let m = if !a.reviewed@[a.sel as int] {
            a.marks@.insert(x, now)
        } else {
            a.marks@.remove(x)
        };
        assert(crate::identity::mark_kept(now, now));
        assert(m.dom().contains(x) <==> !a.reviewed@[a.sel as int]);
    }
}

/// Marks that were kept are not lost by marking, but for those that are too old.
pub proof fn law_marking_keeps_the_other_marks(marks: Map<u64, u64>, key: Option<u64>, on: bool, now: u64, kept: bool, x: u64)
    requires
        marks.dom().contains(x),
        key != Some(x),
        now - marks[x] <= 7776000,
    ensures
        marks_after(marks, key, on, now, kept).dom().contains(x),
        marks_after(marks, key, on, now, kept)[x] == marks[x],
{
}

/// Going on and back step by one; the panes are gone through in their order, and a
/// pane that is named is gone to.
pub proof fn law_a_key_moves_as_it_says(a: App, b: App, pane: Pane, now: u64, e: EffectText)
    requires
        a.popup is None,
    ensures
        applied(a, b, Action::Next, now, e) ==> b == stepped(a, 1),
        applied(a, b, Action::Prev, now, e) ==> b == stepped(a, -1),
        applied(a, b, Action::Focus(pane), now, e) ==> b == (App { focus: pane, ..a }),
        applied(a, b, Action::FocusNext, now, e) ==> b.focus == (match a.focus {
            Pane::List => Pane::Code,
            Pane::Code => Pane::Why,
            Pane::Why => Pane::List,
        }),
        applied(a, b, Action::FocusPrev, now, e) ==> b.focus == (match a.focus {
            Pane::List => Pane::Why,
            Pane::Code => Pane::List,
            Pane::Why => Pane::Code,
        }),
        applied(a, b, Action::OpenEditor, now, e) ==> b == a && e == EffectText::OpenEditor,
{
}

/// The first and the last are those of the pane that is read.
pub proof fn law_the_ends_are_those_of_the_pane(a: App, b: App, now: u64, e: EffectText)
    requires
        a.popup is None,
    ensures
        applied(a, b, Action::First, now, e) ==> match a.focus {
            Pane::List => b.sel == folded(a)[0],
            Pane::Code => b == (App { scroll: 0, ..a }),
            Pane::Why => b == (App { why_scroll: 0, ..a }),
        },
        applied(a, b, Action::Last, now, e) ==> match a.focus {
            Pane::List => b.sel == folded(a)[folded(a).len() - 1],
            Pane::Code => 0 < a.code_len <= 65536 ==> b == (App { scroll: (a.code_len - 1) as u16, ..a }),
            Pane::Why => 0 < a.why_len <= 65536 ==> b == (App { why_scroll: (a.why_len - 1) as u16, ..a }),
        },
{
}

/// A page is fifteen rows and half a page seven, on or back.
pub proof fn law_a_page_is_fifteen_rows(a: App, b: App, now: u64, e: EffectText)
    requires
        a.popup is None,
        a.focus == Pane::Code,
        a.scroll < a.code_len,
    ensures
        applied(a, b, Action::PageDown, now, e) && a.scroll + 15 < a.code_len && a.scroll + 15 <= u16::MAX ==> b.scroll
            == a.scroll + 15,
        applied(a, b, Action::PageUp, now, e) && 15 <= a.scroll ==> b.scroll == a.scroll - 15,
        applied(a, b, Action::HalfDown, now, e) && a.scroll + 7 < a.code_len && a.scroll + 7 <= u16::MAX ==> b.scroll
            == a.scroll + 7,
        applied(a, b, Action::HalfUp, now, e) && 7 <= a.scroll ==> b.scroll == a.scroll - 7,
        applied(a, b, Action::ScrollRight, now, e) && a.hscroll < u16::MAX ==> b.hscroll == a.hscroll + 1,
        applied(a, b, Action::ScrollLeft, now, e) && a.hscroll > 0 ==> b.hscroll == a.hscroll - 1,
{
}

/// A box over the panes is closed by quitting, scrolled by the motions, and hides
/// the panes from every key.
pub proof fn law_a_box_is_scrolled_and_closed(a: App, act: Action)
    requires
        a.popup is Some,
    ensures
        popup_action(a, Action::Quit).popup is None,
        act != Action::Quit ==> popup_action(a, act).popup is Some,
        ({
            let p = a.popup->0;
            let n = p.lines@.len();
            &&& p.scroll + 1 < n && p.scroll < u16::MAX ==> popup_action(a, Action::Next).popup->0.scroll == p.scroll + 1
            &&& 1 <= p.scroll < n ==> popup_action(a, Action::Prev).popup->0.scroll == p.scroll - 1
            &&& p.scroll + 15 < n && p.scroll + 15 <= u16::MAX ==> popup_action(a, Action::PageDown).popup->0.scroll
                == p.scroll + 15
            &&& 15 <= p.scroll < n ==> popup_action(a, Action::PageUp).popup->0.scroll == p.scroll - 15
        }),
        popup_action(a, act).sel == a.sel,
        popup_action(a, act).cursor == a.cursor,
        popup_action(a, act).reviewed == a.reviewed,
{
}

/// What is typed into a search goes to its end, is taken back from there, and is
/// given up with the place that it was begun at.
pub proof fn law_a_search_is_typed(a: App, b: App, c: char, code: KeyCode, held: KeyModifiers)
    requires
        a.prompt is Some,
        prompt_key(a, b, code, held),
    ensures
        code == KeyCode::Char(c) && !held.control ==> b.prompt is Some && b.prompt->0.text@ == a.prompt->0.text@.push(c)
            && b.prompt->0.anchor == a.prompt->0.anchor && b.cursor == a.cursor,
        code == KeyCode::Backspace && a.prompt->0.text@.len() > 0 ==> b.prompt is Some && b.prompt->0.text@
            == a.prompt->0.text@.take(a.prompt->0.text@.len() - 1),
        code == KeyCode::Esc ==> b.prompt is None && b.cursor == a.prompt->0.anchor,
        code == KeyCode::Enter ==> b.prompt is None && b.search is Some && b.search->0.pattern@ == a.prompt->0.text@,
{
    if code == KeyCode::Backspace && a.prompt->0.text@.len() > 0 {
        assert(a.prompt->0.text@.drop_last() =~= a.prompt->0.text@.take(a.prompt->0.text@.len() - 1));
    }
}

/// What is typed into the command bar goes to its end and is taken back from
/// there; the bar is left without running anything.
pub proof fn law_a_command_is_typed(a: App, b: App, c: char, code: KeyCode, held: KeyModifiers, o: OutcomeText)
    requires
        a.command is Some,
        command_key(a, b, code, held, o),
    ensures
        code == KeyCode::Char(c) && !held.control ==> b.command is Some && b.command->0.text@
            == a.command->0.text@.push(c),
        code == KeyCode::Backspace && a.command->0.text@.len() > 0 ==> b.command is Some && b.command->0.text@
            == a.command->0.text@.take(a.command->0.text@.len() - 1),
        code == KeyCode::Esc ==> b == (App { command: None, ..a }) && o == OutcomeText::Done,
        code == KeyCode::Tab || code == KeyCode::Down || code == KeyCode::Up ==> b.command is Some
            && b.command->0.text == a.command->0.text && b.command->0.candidates == a.command->0.candidates,
        code == KeyCode::Down && a.command->0.selected is None && a.command->0.candidates@.len() > 0
            ==> b.command->0.selected == Some(0usize),
        code == KeyCode::Up && a.command->0.selected is None && a.command->0.candidates@.len() > 0
            ==> b.command->0.selected == Some((a.command->0.candidates@.len() - 1) as usize),
{
    if code == KeyCode::Backspace && a.command->0.text@.len() > 0 {
        assert(a.command->0.text@.drop_last() =~= a.command->0.text@.take(a.command->0.text@.len() - 1));
    }
}

/// A key goes to the search while one is typed, then to the command bar while it
/// is open, and else does what it is bound to; a key that begins a chord waits for
/// the next one.
pub proof fn law_a_key_goes_where_it_belongs(
    a: App,
    b: App,
    code: KeyCode,
    held: KeyModifiers,
    now: u64,
    e: EffectText,
)
    requires
        keyed(a, b, code, held, now, e),
    ensures
        a.prompt is Some ==> prompt_key(a, b, code, held),
        a.prompt is None && a.command is Some ==> e is Command && command_key(a, b, code, held, e->Command_0),
        a.prompt is None && a.command is None ==> match resolved(a.keys.binds@, a.pending, norm(code, held)) {
            Resolve::Pending => b.pending == Some(norm(code, held)) && b.sel == a.sel && e == EffectText::Stay,
            Resolve::Miss => b == (App { pending: None, ..a }) && e == EffectText::Stay,
            Resolve::Act(act) => b.pending is None || act == Action::OpenEditor || applied(
                App { pending: None, ..a },
                b,
                act,
                now,
                e,
            ),
        },
{
}

} // verus!
