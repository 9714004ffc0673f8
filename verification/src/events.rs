//! What a key does to a session: through the search prompt, the command bar, or
//! the action that it is bound to.

use crate::code_view::{last_line, last_offset};
use crate::execute::{
    accept_command, accepted, cycle_candidate, menu_fresh, next_candidate, open_command_bar, popped,
    recompute_candidates, typed_command, CommandOutcome, OutcomeText,
};
use crate::finder::{
    accept_search, cancel_search, cycle_search, hover_gives, hover_report, search_cancelled, search_cycled,
    searched, show_hover, symbol_at_cursor, symbol_occurrences, symbol_search, HoverReport, HoverText,
};
use crate::identity::{mark_key, mark_kept, mark_of, prune_marks};
use crate::keys::{
    build_help, help_lines, help_rows, norm, resolved, sections, Action, Fold, KeyCode, KeyModifiers, Keymap, Pane,
    Resolve,
};
use crate::search::text_occurrences;
use crate::session::{
    cursor_move, cursor_moved, edge_under, first_visible, fold, fold_done, folded, folds_after, jump_back,
    jump_source, jump_to_edge, jumped_back, jumped_to_edge, last_visible, lemma_same_code, lemma_sel,
    lemma_selected, page, paged, popup_hscroll, popup_hscrolled, popup_scroll, popup_scrolled, preview_edge,
    preview_popup, pushed, select, selected, step, stepped, Motion, HALF_PAGE, PAGE,
};
use crate::state::{popup_text, prose_box, prose_popup, App, CommandBar, Prompt, Search, SearchKind};
use crate::text::{chars_of, slice_string, texts};
use crate::view::{place_of, view_pos};
use vstd::prelude::*;

verus! {

broadcast use vstd::std_specs::hash::group_hash_axioms;

/// What is left to do outside after a key.
pub enum Effect {
    Stay,
    Quit,
    /// write the reviewed marks
    SaveMarks,
    /// hand the terminal to the editor
    OpenEditor,
    /// show the report, with the history of the definition
    History(HoverReport),
    /// do what a command asks for
    Command(CommandOutcome),
}

/// The same, as text.
pub ghost enum EffectText {
    Stay,
    Quit,
    SaveMarks,
    OpenEditor,
    History(HoverText),
    Command(OutcomeText),
}

impl Effect {
    pub open spec fn text(self) -> EffectText {
        match self {
            Effect::Stay => EffectText::Stay,
            Effect::Quit => EffectText::Quit,
            Effect::SaveMarks => EffectText::SaveMarks,
            Effect::OpenEditor => EffectText::OpenEditor,
            Effect::History(h) => EffectText::History(h.text()),
            Effect::Command(o) => EffectText::Command(o.text()),
        }
    }
}

/// The marks after one was set or taken away; where they are kept on disk, those
/// that are too old go too.
pub open spec fn marks_after(marks: Map<u64, u64>, key: Option<u64>, on: bool, now: u64, kept: bool) -> Map<u64, u64> {
    match key {
        None => marks,
        Some(k) => {
            let m = if on {
                marks.insert(k, now)
            } else {
                marks.remove(k)
            };
            if kept {
                m.restrict(Set::new(|x: u64| mark_kept(now, m[x])))
            } else {
                m
            }
        },
    }
}

/// Brings the kept marks in line with an item, and says whether they have to be
/// written.
pub fn persist_mark(app: &mut App, i: usize, now: u64) -> (save: bool)
    requires
        i < old(app).items@.len(),
        i < old(app).reviewed@.len(),
    ensures
        ({
            let key = mark_of(old(app).rev@, old(app).items@[i as int], old(app).sources@);
            &&& final(app).marks@ == marks_after(
                old(app).marks@,
                key,
                old(app).reviewed@[i as int],
                now,
                old(app).marks_path is Some,
            )
            &&& save == (key is Some && old(app).marks_path is Some)
        }),
        *final(app) == (App { marks: final(app).marks, ..*old(app) }),
{
    let key = match mark_key(&app.rev, &app.items[i], &app.sources) {
        Some(k) => k,
        None => {
            return false;
        },
    };
    if app.reviewed[i] {
        app.marks.insert(key, now);
    } else {
        app.marks.remove(&key);
    }
    if app.marks_path.is_none() {
        return false;
    }
    prune_marks(&mut app.marks, now);
    true
}

/// Whether the selected item's mark was turned over, and the next item selected.
pub open spec fn toggled(a: App, b: App, now: u64, e: EffectText) -> bool {
    let key = mark_of(a.rev@, a.items@[a.sel as int], a.sources@);
    let c = App { reviewed: b.reviewed, marks: b.marks, ..a };
    let pos = place_of(a.view@, a.sel);
    &&& b.reviewed@ == a.reviewed@.update(a.sel as int, !a.reviewed@[a.sel as int])
    &&& b.marks@ == marks_after(
        a.marks@,
        key,
        !a.reviewed@[a.sel as int],
        now,
        a.marks_path is Some,
    )
    &&& e == (if key is Some && a.marks_path is Some {
        EffectText::SaveMarks
    } else {
        EffectText::Stay
    })
    &&& b == (if pos + 1 < a.view@.len() {
        selected(c, a.view@[pos + 1])
    } else {
        c
    })
}

fn toggle_reviewed(app: &mut App, now: u64) -> (r: Effect)
    requires
        old(app).wf(),
        old(app).prompt is None,
    ensures
        toggled(*old(app), *final(app), now, r.text()),
        final(app).wf(),
{
    let ghost start = *app;
    proof {
        lemma_sel(start);
    }
    let i: usize = app.sel;
    let on = !app.reviewed[i];
    app.reviewed.set(i, on);
    let save = persist_mark(app, i, now);
    let ghost mid = *app;
    proof {
        lemma_same_code(start, mid);
    }
    let pos: usize = view_pos(&app.view, i);
    let n: usize = app.view.len();
    if pos + 1 < n {
        let to: usize = app.view[pos + 1];
        proof {
            assert(mid.view@[pos + 1] == to);
            lemma_selected(mid, to);
        }
        select(app, to);
    }
    if save {
        Effect::SaveMarks
    } else {
        Effect::Stay
    }
}

/// What a hover over the code does: the report is shown, unless the history of
/// the definition has to be fetched first.
pub open spec fn hovered(a: App, b: App, e: EffectText) -> bool {
    exists|r: Option<HoverText>| #[trigger]
        hover_gives(a, r) && match r {
            None => b == a && e == EffectText::Stay,
            Some(h) => if h.definition is None {
                e == EffectText::Stay && popped(a, b, prose_popup(h.title, h.lines))
            } else if a.review_sha is None {
                e == EffectText::Stay && popped(
                    a,
                    b,
                    prose_popup(
                        h.title,
                        h.lines + seq![""@, "history: unavailable (no commit to review from)"@],
                    ),
                )
            } else {
                b == a && e == EffectText::History(h)
            },
        }
}

fn hover(app: &mut App) -> (r: Effect)
    requires
        old(app).wf(),
    ensures
        hovered(*old(app), *final(app), r.text()),
        final(app).wf(),
{
    let ghost start = *app;
    proof {
        lemma_sel(start);
    }
    let report = match hover_report(app) {
        Some(r) => r,
        None => {
            assert(hover_gives(start, None));
            return Effect::Stay;
        },
    };
    let ghost h = report.text();
    assert(hover_gives(start, Some(h)));
    if report.definition.is_none() {
        show_hover(app, report, Vec::new());
        assert(h.lines + Seq::<Seq<char>>::empty() =~= h.lines);
        proof {
            lemma_same_code(start, *app);
        }
        return Effect::Stay;
    }
    if app.review_sha.is_none() {
        let mut history: Vec<String> = Vec::new();
        history.push("history: unavailable (no commit to review from)".to_owned());
        assert(texts(history@) =~= seq!["history: unavailable (no commit to review from)"@]);
        show_hover(app, report, history);
        assert(h.lines + (seq![""@] + seq!["history: unavailable (no commit to review from)"@]) =~= h.lines + seq![
            ""@,
            "history: unavailable (no commit to review from)"@,
        ]);
        proof {
            lemma_same_code(start, *app);
        }
        return Effect::Stay;
    }
    Effect::History(report)
}

/// What an action does while a popup is open: it scrolls or closes it.
pub open spec fn popup_action(a: App, act: Action) -> App {
    match a.popup {
        None => a,
        Some(p) => App {
            popup: match act {
                Action::Quit => None,
                Action::Next => Some(popup_scrolled(p, 1)),
                Action::Prev => Some(popup_scrolled(p, -1)),
                Action::PageDown => Some(popup_scrolled(p, PAGE as int)),
                Action::PageUp => Some(popup_scrolled(p, -PAGE)),
                Action::ScrollLeft => Some(popup_hscrolled(p, -1)),
                Action::ScrollRight => Some(popup_hscrolled(p, 1)),
                _ => Some(p),
            },
            ..a
        },
    }
}

fn act_on_popup(app: &mut App, act: Action)
    requires
        old(app).wf(),
    ensures
        old(app).popup is Some ==> *final(app) == popup_action(*old(app), act),
        final(app).wf(),
{
    let ghost start = *app;
    match act {
        Action::Quit => {
            app.popup = None;
        },
        Action::Next => {
            popup_scroll(app, 1);
        },
        Action::Prev => {
            popup_scroll(app, -1);
        },
        Action::PageDown => {
            popup_scroll(app, PAGE);
        },
        Action::PageUp => {
            popup_scroll(app, -PAGE);
        },
        Action::ScrollLeft => {
            popup_hscroll(app, -1);
        },
        Action::ScrollRight => {
            popup_hscroll(app, 1);
        },
        _ => {},
    }
    proof {
        lemma_same_code(start, *app);
    }
}

/// Goes to the start: the first item, the first line of the code, of the why
/// pane.
pub open spec fn at_start(a: App) -> App {
    match a.focus {
        Pane::List => selected(a, folded(a)[0]),
        Pane::Code => App { scroll: 0, ..a },
        Pane::Why => App { why_scroll: 0, ..a },
    }
}

/// Goes to the end.
pub open spec fn at_end(a: App) -> App {
    match a.focus {
        Pane::List => selected(a, folded(a).last()),
        Pane::Code => App { scroll: last_offset(a.code_len as int) as u16, ..a },
        Pane::Why => App { why_scroll: last_offset(a.why_len as int) as u16, ..a },
    }
}

fn go_to_start(app: &mut App)
    requires
        old(app).wf(),
        old(app).prompt is None,
    ensures
        *final(app) == at_start(*old(app)),
        final(app).wf(),
{
    let ghost start = *app;
    match app.focus {
        Pane::List => {
            let to: usize = first_visible(app);
            proof {
                lemma_selected(start, to);
            }
            select(app, to);
        },
        Pane::Code => {
            app.scroll = 0;
            proof {
                lemma_same_code(start, *app);
            }
        },
        Pane::Why => {
            app.why_scroll = 0;
            proof {
                lemma_same_code(start, *app);
            }
        },
    }
}

fn go_to_end(app: &mut App)
    requires
        old(app).wf(),
        old(app).prompt is None,
    ensures
        *final(app) == at_end(*old(app)),
        final(app).wf(),
{
    let ghost start = *app;
    match app.focus {
        Pane::List => {
            let to: usize = last_visible(app);
            proof {
                lemma_selected(start, to);
            }
            select(app, to);
        },
        Pane::Code => {
            app.scroll = last_line(app.code_len);
            proof {
                lemma_same_code(start, *app);
            }
        },
        Pane::Why => {
            app.why_scroll = last_line(app.why_len);
            proof {
                lemma_same_code(start, *app);
            }
        },
    }
}

/// The motion of the code cursor that an action means.
pub open spec fn motion_of(act: Action) -> Option<Motion> {
    match act {
        Action::CursorLeft => Some(Motion::Col(-1isize)),
        Action::CursorRight => Some(Motion::Col(1isize)),
        Action::WordNext => Some(Motion::WordNext),
        Action::WordPrev => Some(Motion::WordPrev),
        Action::WordEnd => Some(Motion::WordEnd),
        Action::ParaPrev => Some(Motion::ParaPrev),
        Action::ParaNext => Some(Motion::ParaNext),
        _ => None,
    }
}

fn motion_for(act: Action) -> (r: Option<Motion>)
    ensures
        r == motion_of(act),
{
    match act {
        Action::CursorLeft => Some(Motion::Col(-1)),
        Action::CursorRight => Some(Motion::Col(1)),
        Action::WordNext => Some(Motion::WordNext),
        Action::WordPrev => Some(Motion::WordPrev),
        Action::WordEnd => Some(Motion::WordEnd),
        Action::ParaPrev => Some(Motion::ParaPrev),
        Action::ParaNext => Some(Motion::ParaNext),
        _ => None,
    }
}

/// Whether a bar was opened with a text.
pub open spec fn bar_opened(a: App, b: App, text: Seq<char>) -> bool {
    b.command matches Some(n) && n.text@ == text && n.rev_cache is None && menu_fresh(a, n) && b == (App {
        command: b.command,
        ..a
    })
}

/// Whether the search went to a symbol.
pub open spec fn symbol_searched(a: App, b: App, forward: bool) -> bool {
    match symbol_at_cursor(a) {
        None => b == a,
        Some(name) => b.search matches Some(s) && s.pattern@ == name && symbol_occurrences(a, name, s.matches@) && b
            == searched(
            a,
            (Search { kind: SearchKind::Symbol, pattern: s.pattern, matches: s.matches, index: 0 }),
            forward,
            false,
        ),
    }
}

/// What an action does in a session without a popup.
pub open spec fn acted(a: App, b: App, act: Action, now: u64, e: EffectText) -> bool {
    let code = a.focus == Pane::Code;
    match act {
        Action::Quit => if a.search is Some {
            b == (App { search: None, ..a }) && e == EffectText::Stay
        } else {
            b == a && e == EffectText::Quit
        },
        Action::Focus(p) => b == (App { focus: p, ..a }) && e == EffectText::Stay,
        Action::FocusNext => b == (App { focus: a.focus.after(), ..a }) && e == EffectText::Stay,
        Action::FocusPrev => b == (App { focus: a.focus.before(), ..a }) && e == EffectText::Stay,
        Action::ToggleReviewed => toggled(a, b, now, e),
        Action::Next => b == stepped(a, 1) && e == EffectText::Stay,
        Action::Prev => b == stepped(a, -1) && e == EffectText::Stay,
        Action::PageDown => b == paged(a, PAGE as int) && e == EffectText::Stay,
        Action::PageUp => b == paged(a, -PAGE) && e == EffectText::Stay,
        Action::HalfDown => b == paged(a, HALF_PAGE as int) && e == EffectText::Stay,
        Action::HalfUp => b == paged(a, -HALF_PAGE) && e == EffectText::Stay,
        Action::First => b == at_start(a) && e == EffectText::Stay,
        Action::Last => b == at_end(a) && e == EffectText::Stay,
        Action::LineStart => b == (if code {
            cursor_moved(a, Motion::LineStart)
        } else {
            at_start(a)
        }) && e == EffectText::Stay,
        Action::LineEnd => b == (if code {
            cursor_moved(a, Motion::LineEnd)
        } else {
            at_end(a)
        }) && e == EffectText::Stay,
        Action::CursorLeft
        | Action::CursorRight
        | Action::WordNext
        | Action::WordPrev
        | Action::WordEnd
        | Action::ParaPrev
        | Action::ParaNext => b == (if code {
            cursor_moved(a, motion_of(act)->0)
        } else {
            a
        }) && e == EffectText::Stay,
        Action::Hover => match a.focus {
            Pane::Code => hovered(a, b, e),
            Pane::Why => e == EffectText::Stay && b == (App { popup: b.popup, ..a }) && match edge_under(a) {
                None => b.popup == a.popup,
                Some(t) => popup_text(b.popup) == Some(preview_popup(a, t)),
            },
            Pane::List => b == a && e == EffectText::Stay,
        },
        Action::SearchOpen => e == EffectText::Stay && if code {
            b.prompt matches Some(p) && p.text@ == ""@ && p.anchor == a.cursor && b == (App {
                prompt: b.prompt,
                ..a
            })
        } else {
            b == a
        },
        Action::SymbolNext => e == EffectText::Stay && if code {
            symbol_searched(a, b, true)
        } else {
            b == a
        },
        Action::SymbolPrev => e == EffectText::Stay && if code {
            symbol_searched(a, b, false)
        } else {
            b == a
        },
        Action::SearchNext => e == EffectText::Stay && b == (if code {
            search_cycled(a, 1)
        } else {
            a
        }),
        Action::SearchPrev => e == EffectText::Stay && b == (if code {
            search_cycled(a, -1)
        } else {
            a
        }),
        Action::Fold(how) => e == EffectText::Stay && fold_done(a, b) && b.collapsed@ == folds_after(
            a.collapsed@,
            a.items@[a.sel as int].bucket@,
            a.items@,
            how,
        ),
        Action::ScrollLeft => e == EffectText::Stay && b == (if code && a.hscroll > 0 {
            App { hscroll: (a.hscroll - 1) as u16, ..a }
        } else {
            a
        }),
        Action::ScrollRight => e == EffectText::Stay && b == (if code && a.hscroll < u16::MAX {
            App { hscroll: (a.hscroll + 1) as u16, ..a }
        } else {
            a
        }),
        Action::Help => e == EffectText::Stay && popped(
            a,
            b,
            prose_popup(
                "keybindings — "@ + a.keys.name@,
                help_lines(help_rows(a.keys.binds@), sections()),
            ),
        ),
        Action::CommandOpen => e == EffectText::Stay && bar_opened(a, b, ""@),
        Action::CommandGoto => e == EffectText::Stay && bar_opened(a, b, "goto "@),
        Action::OpenEditor => b == a && e == EffectText::OpenEditor,
        Action::JumpToEdge => e == EffectText::Stay && match (a.focus == Pane::Why, edge_under(a)) {
            (true, Some(Some(t))) => b.jumps@ == pushed(a.jumps@, (a.sel, a.cursor)) && b == jumped_to_edge(
                a,
                b.jumps,
                t,
            ),
            _ => b == a,
        },
        Action::JumpBack => e == EffectText::Stay && match jump_source(
            a.jumps@,
            a.view@,
            a.items@.len() as int,
        ) {
            Some(k) => b.jumps@ == a.jumps@.take(k) && b == jumped_back(a, b.jumps, a.jumps@[k]),
            None => b.jumps@.len() == 0 && b == (App { jumps: b.jumps, ..a }),
        },
    }
}

/// What an action does: an open popup takes it for itself.
pub open spec fn applied(a: App, b: App, act: Action, now: u64, e: EffectText) -> bool {
    if a.popup is Some {
        b == popup_action(a, act) && e == EffectText::Stay
    } else {
        acted(a, b, act, now, e)
    }
}

fn open_bar(app: &mut App, text: String)
    requires
        old(app).wf(),
        typed_command(text@) != Some("e"@),
    ensures
        bar_opened(*old(app), *final(app), text@),
        final(app).wf(),
{
    let ghost start = *app;
    let _wanted = open_command_bar(app, text);
    proof {
        lemma_bar_kept(start, *app);
    }
}

/// Whatever happens to the command bar, the rest of the session stays in order.
proof fn lemma_bar_kept(a: App, b: App)
    requires
        a.wf(),
        b == (App { command: b.command, ..a }),
        b.command_wf(),
    ensures
        b.wf(),
{
    assert(b.path() == a.path());
    assert(b.lines() == a.lines());
    if let Some(s) = a.search {
        assert forall|k: int| 0 <= k < s.matches@.len() implies b.found(#[trigger] s.matches@[k]) by {
            assert(a.found(s.matches@[k]));
        }
    }
}

/// Runs one action against the focused pane.
#[verifier::rlimit(60)]
pub fn apply(app: &mut App, act: Action, now: u64) -> (r: Effect)
    requires
        old(app).wf(),
        old(app).prompt is None,
    ensures
        applied(*old(app), *final(app), act, now, r.text()),
        final(app).wf(),
{
    let ghost start = *app;
    if app.popup.is_some() {
        act_on_popup(app, act);
        return Effect::Stay;
    }
    let code = app.focus == Pane::Code;
    match act {
        Action::Quit => {
            if app.search.is_some() {
                app.search = None;
                proof {
                    assert(app.path() == start.path());
                    assert(app.lines() == start.lines());
                }
            } else {
                return Effect::Quit;
            }
        },
        Action::Focus(p) => {
            app.focus = p;
            proof {
                lemma_same_code(start, *app);
            }
        },
        Action::FocusNext => {
            app.focus = app.focus.next();
            proof {
                lemma_same_code(start, *app);
            }
        },
        Action::FocusPrev => {
            app.focus = app.focus.prev();
            proof {
                lemma_same_code(start, *app);
            }
        },
        Action::ToggleReviewed => {
            return toggle_reviewed(app, now);
        },
        Action::Next => {
            step(app, 1);
        },
        Action::Prev => {
            step(app, -1);
        },
        Action::PageDown => {
            page(app, PAGE);
            proof {
                lemma_same_code(start, *app);
            }
        },
        Action::PageUp => {
            page(app, -PAGE);
            proof {
                lemma_same_code(start, *app);
            }
        },
        Action::HalfDown => {
            page(app, HALF_PAGE);
            proof {
                lemma_same_code(start, *app);
            }
        },
        Action::HalfUp => {
            page(app, -HALF_PAGE);
            proof {
                lemma_same_code(start, *app);
            }
        },
        Action::First => {
            go_to_start(app);
        },
        Action::Last => {
            go_to_end(app);
        },
        Action::LineStart => {
            if code {
                cursor_move(app, Motion::LineStart);
            } else {
                go_to_start(app);
            }
        },
        Action::LineEnd => {
            if code {
                cursor_move(app, Motion::LineEnd);
            } else {
                go_to_end(app);
            }
        },
        Action::CursorLeft
        | Action::CursorRight
        | Action::WordNext
        | Action::WordPrev
        | Action::WordEnd
        | Action::ParaPrev
        | Action::ParaNext => {
            if code {
                if let Some(m) = motion_for(act) {
                    cursor_move(app, m);
                }
            }
        },
        Action::Hover => match app.focus {
            Pane::Code => {
                return hover(app);
            },
            Pane::Why => {
                preview_edge(app);
            },
            Pane::List => {},
        },
        Action::SearchOpen => {
            if code {
                app.prompt = Some(Prompt { text: "".to_owned(), anchor: app.cursor });
                proof {
                    assert(app.path() == start.path());
                    assert(app.lines() == start.lines());
                    if let Some(s) = start.search {
                        assert forall|k: int| 0 <= k < s.matches@.len() implies app.found(
                            #[trigger] s.matches@[k],
                        ) by {
                            assert(start.found(s.matches@[k]));
                        }
                    }
                }
            }
        },
        Action::SymbolNext => {
            if code {
                symbol_search(app, true);
            }
        },
        Action::SymbolPrev => {
            if code {
                symbol_search(app, false);
            }
        },
        Action::SearchNext => {
            if code {
                cycle_search(app, 1);
            }
        },
        Action::SearchPrev => {
            if code {
                cycle_search(app, -1);
            }
        },
        Action::Fold(how) => {
            fold(app, how);
        },
        Action::ScrollLeft => {
            if code && app.hscroll > 0 {
                app.hscroll = app.hscroll - 1;
            }
            proof {
                lemma_same_code(start, *app);
            }
        },
        Action::ScrollRight => {
            if code && app.hscroll < u16::MAX {
                app.hscroll = app.hscroll + 1;
            }
            proof {
                lemma_same_code(start, *app);
            }
        },
        Action::Help => {
            let title = "keybindings — ".to_owned().concat(app.keys.name);
            let lines = build_help(&app.keys);
            app.popup = Some(prose_box(&title, lines));
            proof {
                lemma_same_code(start, *app);
            }
        },
        Action::CommandOpen => {
            proof {
                reveal_strlit("");
                reveal_strlit("e");
            }
            open_bar(app, "".to_owned());
        },
        Action::CommandGoto => {
            proof {
                reveal_strlit("goto ");
                reveal_strlit("e");
                lemma_goto_is_not_e();
            }
            open_bar(app, "goto ".to_owned());
        },
        Action::OpenEditor => {
            return Effect::OpenEditor;
        },
        Action::JumpToEdge => {
            if app.focus == Pane::Why {
                jump_to_edge(app);
            }
        },
        Action::JumpBack => {
            jump_back(app);
        },
    }
    Effect::Stay
}

proof fn lemma_goto_is_not_e()
    ensures
        typed_command("goto "@) != Some("e"@),
{
    reveal_strlit("goto ");
    reveal_strlit("e");
    let s = "goto "@;
    let at = crate::commands::space_from(s, 0);
    assert(!crate::text::is_space(s[0]) && !crate::text::is_space(s[1]));
    reveal_with_fuel(crate::commands::space_from, 3);
    assert(crate::commands::space_from(s, 0) == crate::commands::space_from(s, 2));
    lemma_space_from(s, 2);
    if typed_command(s) == Some("e"@) {
        assert(s.take(at).len() == 1);
    }
}

proof fn lemma_space_from(s: Seq<char>, from: int)
    requires
        0 <= from <= s.len(),
    ensures
        from <= crate::commands::space_from(s, from),
    decreases s.len() - from,
{
    if from < s.len() && !crate::text::is_space(s[from]) {
        lemma_space_from(s, from + 1);
    }
}

/// A text without its last character.
pub open spec fn shortened(s: Seq<char>) -> Seq<char> {
    if s.len() == 0 {
        s
    } else {
        s.drop_last()
    }
}

fn drop_char(s: &str) -> (r: String)
    ensures
        r@ == shortened(s@),
{
    let cs = chars_of(s);
    if cs.len() == 0 {
        s.to_owned()
    } else {
        let t = slice_string(&cs, 0, cs.len() - 1);
        assert(t@ =~= s@.drop_last());
        t
    }
}

/// What a key does to the search prompt.
pub open spec fn prompt_key(a: App, b: App, code: KeyCode, held: KeyModifiers) -> bool {
    match a.prompt {
        None => b == a,
        Some(p) => match code {
            KeyCode::Enter => b.search matches Some(s) && text_occurrences(a.lines(), p.text@, s.matches@) && b
                == searched(
                (App { prompt: None, ..a }),
                (Search { kind: SearchKind::Text, pattern: p.text, matches: s.matches, index: 0 }),
                true,
                true,
            ),
            KeyCode::Esc => b == search_cancelled(a),
            KeyCode::Backspace => prompt_edited(a, b, shortened(p.text@)),
            KeyCode::Char(c) => if held.control {
                b == a
            } else {
                prompt_edited(a, b, p.text@.push(c))
            },
            _ => b == a,
        },
    }
}

/// Whether the prompt holds another text, and all else is as it was.
pub open spec fn prompt_edited(a: App, b: App, text: Seq<char>) -> bool {
    b.prompt matches Some(q) && q.text@ == text && q.anchor == a.prompt->0.anchor && b == (App {
        prompt: b.prompt,
        ..a
    })
}

/// Handles a key while the search prompt is open.
pub fn handle_prompt_key(app: &mut App, code: KeyCode, held: KeyModifiers)
    requires
        old(app).wf(),
    ensures
        prompt_key(*old(app), *final(app), code, held),
        final(app).wf(),
{
    let ghost start = *app;
    if app.prompt.is_none() {
        return;
    }
    match code {
        KeyCode::Enter => {
            accept_search(app);
        },
        KeyCode::Esc => {
            cancel_search(app);
        },
        KeyCode::Backspace => {
            if let Some(p) = app.prompt.take() {
                app.prompt = Some(Prompt { text: drop_char(&p.text), anchor: p.anchor });
            }
            proof {
                lemma_prompt_kept(start, *app);
            }
        },
        KeyCode::Char(c) => {
            if !held.control {
                if let Some(p) = app.prompt.take() {
                    let mut text = p.text;
                    text.push(c);
                    app.prompt = Some(Prompt { text, anchor: p.anchor });
                }
                proof {
                    lemma_prompt_kept(start, *app);
                }
            }
        },
        _ => {},
    }
}

proof fn lemma_prompt_kept(a: App, b: App)
    requires
        a.wf(),
        b == (App { prompt: b.prompt, ..a }),
        a.prompt is Some,
        b.prompt matches Some(q) && q.anchor == a.prompt->0.anchor,
    ensures
        b.wf(),
{
    assert(b.path() == a.path());
    assert(b.lines() == a.lines());
    if let Some(s) = a.search {
        assert forall|k: int| 0 <= k < s.matches@.len() implies b.found(#[trigger] s.matches@[k]) by {
            assert(a.found(s.matches@[k]));
        }
    }
}

/// Whether the bar holds another text, with the menu that belongs to it.
pub open spec fn bar_edited(a: App, b: App, text: Seq<char>, o: OutcomeText) -> bool {
    b.command matches Some(n) && n.text@ == text && n.rev_cache == a.command->0.rev_cache && menu_fresh(a, n) && b
        == (App { command: b.command, ..a }) && o == (if typed_command(text) == Some("e"@)
        && a.command->0.rev_cache is None {
        OutcomeText::FetchRefs
    } else {
        OutcomeText::Done
    })
}

/// The session after a step through the completion menu.
pub open spec fn menu_stepped(a: App, dir: int) -> App {
    match a.command {
        None => a,
        Some(bar) => if bar.candidates@.len() == 0 {
            a
        } else {
            App {
                command: Some(
                    CommandBar {
                        selected: next_candidate(bar.selected, bar.candidates@.len() as int, dir),
                        ..bar
                    },
                ),
                ..a
            }
        },
    }
}

/// Whether control alone is held.
pub open spec fn control_alone(held: KeyModifiers) -> bool {
    held == (KeyModifiers { control: true, shift: false, alt: false, other: false })
}

/// What a key does to the command bar.
pub open spec fn command_key(a: App, b: App, code: KeyCode, held: KeyModifiers, o: OutcomeText) -> bool {
    match a.command {
        None => b == a && o == OutcomeText::Done,
        Some(bar) => match code {
            KeyCode::Esc => b == (App { command: None, ..a }) && o == OutcomeText::Done,
            KeyCode::Backspace => bar_edited(a, b, shortened(bar.text@), o),
            KeyCode::Tab | KeyCode::Down => b == menu_stepped(a, 1) && o == OutcomeText::Done,
            KeyCode::Up => b == menu_stepped(a, -1) && o == OutcomeText::Done,
            KeyCode::Enter => accepted(a, b, o),
            KeyCode::Char(c) => if c == 'n' && control_alone(held) {
                b == menu_stepped(a, 1) && o == OutcomeText::Done
            } else if c == 'p' && control_alone(held) {
                b == menu_stepped(a, -1) && o == OutcomeText::Done
            } else if held.control {
                b == a && o == OutcomeText::Done
            } else {
                bar_edited(a, b, bar.text@.push(c), o)
            },
            _ => b == a && o == OutcomeText::Done,
        },
    }
}

fn edit_bar(app: &mut App, text: String) -> (r: CommandOutcome)
    requires
        old(app).wf(),
        old(app).command is Some,
    ensures
        bar_edited(*old(app), *final(app), text@, r.text()),
        final(app).wf(),
{
    let ghost start = *app;
    if let Some(bar) = app.command.take() {
        app.command = Some(
            CommandBar {
                text,
                candidates: bar.candidates,
                selected: bar.selected,
                rev_cache: bar.rev_cache,
            },
        );
    }
    let ghost mid = *app;
    let wanted = recompute_candidates(app);
    proof {
        assert(crate::execute::menu_of(mid, text@, crate::execute::revs_of(mid.command->0))
            == crate::execute::menu_of(start, text@, crate::execute::revs_of(mid.command->0)));
        lemma_bar_kept(start, *app);
    }
    if wanted {
        CommandOutcome::FetchRefs
    } else {
        CommandOutcome::Done
    }
}

fn step_menu(app: &mut App, dir: isize)
    requires
        old(app).wf(),
    ensures
        *final(app) == menu_stepped(*old(app), dir as int),
        final(app).wf(),
{
    let ghost start = *app;
    cycle_candidate(app, dir);
    proof {
        lemma_bar_kept(start, *app);
    }
}

/// Handles a key while the command bar is open.
pub fn handle_command_key(app: &mut App, code: KeyCode, held: KeyModifiers) -> (r: CommandOutcome)
    requires
        old(app).wf(),
        old(app).prompt is None,
    ensures
        command_key(*old(app), *final(app), code, held, r.text()),
        final(app).wf(),
{
    let ghost start = *app;
    let text = match &app.command {
        Some(bar) => bar.text.clone(),
        None => {
            return CommandOutcome::Done;
        },
    };
    match code {
        KeyCode::Esc => {
            app.command = None;
            proof {
                lemma_bar_kept(start, *app);
            }
        },
        KeyCode::Backspace => {
            return edit_bar(app, drop_char(&text));
        },
        KeyCode::Tab | KeyCode::Down => {
            step_menu(app, 1);
        },
        KeyCode::Up => {
            step_menu(app, -1);
        },
        KeyCode::Enter => {
            return accept_command(app);
        },
        KeyCode::Char(c) => {
            let alone = held.control && !held.shift && !held.alt && !held.other;
            if c == 'n' && alone {
                step_menu(app, 1);
            } else if c == 'p' && alone {
                step_menu(app, -1);
            } else if !held.control {
                let mut text = text;
                text.push(c);
                return edit_bar(app, text);
            }
        },
        _ => {},
    }
    CommandOutcome::Done
}

/// What a key does to a session.
pub open spec fn keyed(a: App, b: App, code: KeyCode, held: KeyModifiers, now: u64, e: EffectText) -> bool {
    if a.prompt is Some {
        prompt_key(a, b, code, held) && e == EffectText::Stay
    } else if a.command is Some {
        exists|o: OutcomeText| #[trigger]
            command_key(a, b, code, held, o) && e == EffectText::Command(o)
    } else {
        let key = norm(code, held);
        match resolved(a.keys.binds@, a.pending, key) {
            Resolve::Pending => b == (App { pending: Some(key), ..a }) && e == EffectText::Stay,
            Resolve::Miss => b == (App { pending: None, ..a }) && e == EffectText::Stay,
            Resolve::Act(act) => {
                let free = App { pending: None, ..a };
                if act == Action::OpenEditor {
                    b == free && e == EffectText::OpenEditor
                } else {
                    applied(free, b, act, now, e)
                }
            },
        }
    }
}

/// Handles a key: an open prompt takes it, then an open command bar, else it is
/// looked up among the bindings, a chord taking two keys.
pub fn on_key(app: &mut App, code: KeyCode, held: KeyModifiers, now: u64) -> (r: Effect)
    requires
        old(app).wf(),
    ensures
        keyed(*old(app), *final(app), code, held, now, r.text()),
        final(app).wf(),
{
    let ghost start = *app;
    if app.prompt.is_some() {
        handle_prompt_key(app, code, held);
        return Effect::Stay;
    }
    if app.command.is_some() {
        let o = handle_command_key(app, code, held);
        assert(command_key(start, *app, code, held, o.text()));
        return Effect::Command(o);
    }
    let key = norm(code, held);
    match app.keys.resolve(app.pending, key) {
        Resolve::Pending => {
            app.pending = Some(key);
            proof {
                lemma_same_code(start, *app);
            }
            Effect::Stay
        },
        Resolve::Miss => {
            app.pending = None;
            proof {
                lemma_same_code(start, *app);
            }
            Effect::Stay
        },
        Resolve::Act(act) => {
            app.pending = None;
            proof {
                lemma_same_code(start, *app);
            }
            if act == Action::OpenEditor {
                return Effect::OpenEditor;
            }
            apply(app, act, now)
        },
    }
}

/// Whether a key quits while a review is still loading.
pub fn quits_loading(keys: &Keymap, code: KeyCode, held: KeyModifiers) -> (r: bool)
    ensures
        r == (resolved(keys.binds@, None, norm(code, held)) == Resolve::Act(Action::Quit)),
{
    match keys.resolve(None, norm(code, held)) {
        Resolve::Act(a) => a == Action::Quit,
        _ => false,
    }
}

/// An open popup takes every action for itself: nothing quits, and nothing
/// behind it moves.
pub proof fn law_a_popup_swallows_every_action(a: App, b: App, act: Action, now: u64, e: EffectText)
    requires
        a.popup is Some,
        applied(a, b, act, now, e),
    ensures
        e == EffectText::Stay,
        b == (App { popup: b.popup, ..a }),
{
}

/// Leaving a popup, then a search, comes before leaving the review.
pub proof fn law_quitting_peels_off_one_layer(a: App, b: App, now: u64, e: EffectText)
    requires
        applied(a, b, Action::Quit, now, e),
    ensures
        e == EffectText::Quit <==> a.popup is None && a.search is None,
        a.popup is Some ==> b.popup is None,
        a.popup is None && a.search is Some ==> b.search is None,
{
}

/// Marking an item twice leaves its mark as it was.
pub proof fn law_toggling_twice_restores_the_mark(a: App, b: App, c: App, t1: u64, t2: u64, e1: EffectText, e2: EffectText)
    requires
        a.sel < a.reviewed@.len(),
        toggled(a, b, t1, e1),
        toggled((App { sel: a.sel, ..b }), c, t2, e2),
    ensures
        c.reviewed@ == a.reviewed@,
{
    assert(c.reviewed@ =~= a.reviewed@);
}

} // verus!
