//! The command bar, and what each command does to the session.

use crate::code_view::{Highlights, LineSpans};
use crate::commands::{
    apply_completion, audit_lines, build_audit, build_command_help, command_completions, command_lines, completed,
    dir_prefix, directory_of, distinct_sorted, line_parts, menu_for, mode_asked, parse_command_line, parse_mode,
    parse_strategy, rev_completions, rev_pool, space_from, Strategy,
};
use crate::editor::{distinct, qf_kind, quickfix_script, script_of, QfHunk};
use crate::filter::{build_globs, patterns_complaint, PathGlobs};
use crate::finder::source_of;
use crate::highlight::{file_painted, highlight_file, line_runs};
use crate::identity::{note_key, note_of, Delta};
use crate::items::{group_reasons, is_warned, map_texts, warned};
use crate::keys::{keymap, Keymap, Pane};
use crate::links::{first_run, is_first_run, place_label, place_text};
use crate::model::{symbol_texts, FileLines, Item, Sources};
use crate::search::{cycle_index, cycled};
use crate::session::{
    law_switching_the_mode_keeps_the_review, ledger_headers, lemma_same_code, lemma_sel, lemma_selected, rebucketed,
    select, selected, set_mode,
};
use crate::state::{
    filter_globs, lemma_view_in, popup_text, prose_box, prose_line, prose_popup, App, CommandBar, PopupText,
};
use crate::text::{copy_strings, decimal, join, number, option_text, same, sorted_texts, texts, trim, trimmed};
use crate::theme::{theme, theme_name_list, theme_named, theme_names, Syntax, Theme};
use crate::view::{
    compute_view, hidden_breakdown, hidden_for, in_view, view_in, view_of, Hidden, Reason, ViewMode,
};
use vstd::prelude::*;

verus! {

broadcast use vstd::std_specs::hash::group_hash_axioms;

/// The command that a text of the bar names, once its name is typed.
pub open spec fn typed_command(text: Seq<char>) -> Option<Seq<char>> {
    let at = space_from(text, 0);
    if at >= text.len() {
        None
    } else {
        Some(text.take(at))
    }
}

/// The paths of the items in view.
pub open spec fn view_paths(items: Seq<Item>, view: Seq<usize>) -> Seq<Seq<char>> {
    Seq::new(view.len(), |k: int| items[view[k] as int].path@)
}

/// The directories of the first `n` items.
pub open spec fn item_dirs(items: Seq<Item>, n: int) -> Seq<Seq<char>>
    decreases n,
{
    if n <= 0 {
        Seq::empty()
    } else {
        match directory_of(items[n - 1].path@) {
            Some(d) => item_dirs(items, n - 1).push(d),
            None => item_dirs(items, n - 1),
        }
    }
}

/// The completion menu that belongs to a text of the bar.
pub open spec fn menu_of(a: App, text: Seq<char>, revs: Option<Seq<Seq<char>>>) -> Seq<Seq<char>> {
    let cmd = typed_command(text);
    menu_for(
        text,
        if cmd == Some("goto"@) {
            sorted_texts(distinct(view_paths(a.items@, a.view@)))
        } else {
            Seq::empty()
        },
        if cmd == Some("filter"@) {
            sorted_texts(distinct(item_dirs(a.items@, a.items@.len() as int)))
        } else {
            Seq::empty()
        },
        match revs {
            Some(r) => if cmd == Some("e"@) {
                r
            } else {
                Seq::empty()
            },
            None => Seq::empty(),
        },
    )
}

pub open spec fn revs_of(bar: CommandBar) -> Option<Seq<Seq<char>>> {
    match bar.rev_cache {
        Some(v) => Some(texts(v@)),
        None => None,
    }
}

/// Whether a bar holds the menu that belongs to its text.
pub open spec fn menu_fresh(a: App, bar: CommandBar) -> bool {
    texts(bar.candidates@) == menu_of(a, bar.text@, revs_of(bar)) && bar.selected is None
}

/// The command that a text of the bar names, once its name is typed.
fn command_typed(text: &str) -> (r: Option<String>)
    ensures
        option_text(r) == typed_command(text@),
{
    let cs = crate::text::chars_of(text);
    let mut at: usize = 0;
    while at < cs.len() && !crate::text::space(cs[at])
        invariant
            cs@ == text@,
            at <= cs@.len(),
            space_from(text@, 0) == space_from(text@, at as int),
        decreases cs@.len() - at,
    {
        at = at + 1;
    }
    if at == cs.len() {
        None
    } else {
        let name = crate::text::slice_string(&cs, 0, at);
        assert(name@ == text@.take(at as int));
        Some(name)
    }
}

fn goto_paths(app: &App) -> (r: Vec<String>)
    requires
        view_in(app.view@, app.items@),
    ensures
        texts(r@) == sorted_texts(distinct(view_paths(app.items@, app.view@))),
{
    let mut all: Vec<String> = Vec::new();
    let ghost want = view_paths(app.items@, app.view@);
    for k in 0..app.view.len()
        invariant
            view_in(app.view@, app.items@),
            want == view_paths(app.items@, app.view@),
            texts(all@) == want.take(k as int),
    {
        let ghost had = texts(all@);
        let i: usize = app.view[k];
        all.push(app.items[i].path.clone());
        assert(texts(all@) =~= had.push(want[k as int]));
        assert(want.take(k + 1) =~= want.take(k as int).push(want[k as int]));
    }
    assert(want.take(app.view@.len() as int) =~= want);
    distinct_sorted(&all)
}

fn filter_dirs(app: &App) -> (r: Vec<String>)
    ensures
        texts(r@) == sorted_texts(distinct(item_dirs(app.items@, app.items@.len() as int))),
{
    let mut all: Vec<String> = Vec::new();
    assert(texts(all@) =~= item_dirs(app.items@, 0));
    for i in 0..app.items.len()
        invariant
            texts(all@) == item_dirs(app.items@, i as int),
    {
        if let Some(d) = dir_prefix(&app.items[i].path) {
            let ghost had = texts(all@);
            all.push(d);
            assert(texts(all@) =~= had.push(d@));
        }
    }
    distinct_sorted(&all)
}

/// Brings the menu of the command bar up to date with its text, and says whether
/// it needs the revisions on offer, which were not fetched yet.
pub fn recompute_candidates(app: &mut App) -> (wanted: bool)
    requires
        view_in(old(app).view@, old(app).items@),
    ensures
        match old(app).command {
            None => *final(app) == *old(app) && !wanted,
            Some(bar) => final(app).command matches Some(b) && b == (CommandBar {
                candidates: b.candidates,
                selected: None,
                ..bar
            }) && menu_fresh(*old(app), b) && *final(app) == (App { command: final(app).command, ..*old(app) })
                && wanted == (typed_command(bar.text@) == Some("e"@) && bar.rev_cache is None),
        },
{
    let ghost start = *app;
    let bar = match app.command.take() {
        Some(b) => b,
        None => {
            return false;
        },
    };
    let cmd = command_typed(&bar.text);
    let (to_goto, to_filter, to_edit) = match &cmd {
        Some(c) => (same(c, "goto"), same(c, "filter"), same(c, "e")),
        None => (false, false, false),
    };
    let none: Vec<String> = Vec::new();
    assert(texts(none@) =~= Seq::<Seq<char>>::empty());
    let paths = if to_goto {
        goto_paths(app)
    } else {
        copy_strings(&none)
    };
    let dirs = if to_filter {
        filter_dirs(app)
    } else {
        copy_strings(&none)
    };
    let wanted = to_edit && bar.rev_cache.is_none();
    let revs = match &bar.rev_cache {
        Some(v) => {
            if to_edit {
                copy_strings(v)
            } else {
                copy_strings(&none)
            }
        },
        None => copy_strings(&none),
    };
    let candidates = command_completions(&bar.text, &paths, &dirs, &revs);
    app.command = Some(CommandBar { text: bar.text, candidates, selected: None, rev_cache: bar.rev_cache });
    wanted
}

/// Hands the revisions on offer to the command bar, as the list of refs names
/// them.
pub fn supply_refs(app: &mut App, refs: &str)
    requires
        view_in(old(app).view@, old(app).items@),
    ensures
        match old(app).command {
            None => *final(app) == *old(app),
            Some(bar) => final(app).command matches Some(b) && b.text == bar.text && revs_of(b) == Some(
                rev_pool(refs@),
            ) && menu_fresh(*old(app), b) && *final(app) == (App {
                command: final(app).command,
                ..*old(app)
            }),
        },
{
    let ghost start = *app;
    if let Some(bar) = app.command.take() {
        app.command = Some(
            CommandBar {
                text: bar.text,
                candidates: bar.candidates,
                selected: bar.selected,
                rev_cache: Some(rev_completions(refs)),
            },
        );
        let _wanted = recompute_candidates(app);
    }
}

/// Opens the command bar with a text in it.
pub fn open_command_bar(app: &mut App, text: String) -> (wanted: bool)
    requires
        view_in(old(app).view@, old(app).items@),
    ensures
        final(app).command matches Some(b) && b.text == text && b.rev_cache is None && menu_fresh(*old(app), b)
            && *final(app) == (App { command: final(app).command, ..*old(app) }),
        wanted == (typed_command(text@) == Some("e"@)),
{
    app.command = Some(
        CommandBar { text, candidates: Vec::new(), selected: None, rev_cache: None },
    );
    recompute_candidates(app)
}

/// The candidate that is highlighted after a step through the menu.
pub open spec fn next_candidate(selected: Option<usize>, len: int, dir: int) -> Option<usize> {
    match selected {
        None => if dir >= 0 {
            Some(0)
        } else {
            Some((len - 1) as usize)
        },
        Some(i) => Some(cycled(i as int, len, dir) as usize),
    }
}

/// Steps through the completion menu, around its ends.
pub fn cycle_candidate(app: &mut App, dir: isize)
    ensures
        match old(app).command {
            None => *final(app) == *old(app),
            Some(bar) => *final(app) == (App {
                command: Some(
                    if bar.candidates@.len() == 0 {
                        bar
                    } else {
                        CommandBar {
                            selected: next_candidate(bar.selected, bar.candidates@.len() as int, dir as int),
                            ..bar
                        }
                    },
                ),
                ..*old(app)
            }),
        },
        final(app).command matches Some(b) ==> (b.candidates@.len() > 0 ==> (b.selected is Some && b.selected->0
            < b.candidates@.len())),
{
    if let Some(bar) = app.command.take() {
        let len: usize = bar.candidates.len();
        if len == 0 {
            app.command = Some(bar);
            return;
        }
        let selected: usize = match bar.selected {
            None => {
                if dir >= 0 {
                    0
                } else {
                    len - 1
                }
            },
            Some(i) => cycle_index(i, len, dir),
        };
        app.command = Some(
            CommandBar {
                text: bar.text,
                candidates: bar.candidates,
                selected: Some(selected),
                rev_cache: bar.rev_cache,
            },
        );
    }
}

fn copy_keymap(k: &Keymap) -> (r: Keymap)
    ensures
        r.name == k.name,
        r.hint == k.hint,
        r.binds@ == k.binds@,
{
    let mut binds: Vec<crate::keys::Bind> = Vec::new();
    for i in 0..k.binds.len()
        invariant
            binds@ == k.binds@.take(i as int),
    {
        binds.push(k.binds[i]);
        assert(k.binds@.take(i + 1) =~= k.binds@.take(i as int).push(k.binds@[i as int]));
    }
    assert(k.binds@.take(k.binds@.len() as int) =~= k.binds@);
    Keymap { name: k.name, hint: k.hint, binds }
}

/// What outlives the switch to another revision: the keys and the theme.
pub fn carry_across_reload(app: &App) -> (r: (Keymap, Theme))
    ensures
        r.0.name == app.keys.name,
        r.0.hint == app.keys.hint,
        r.0.binds@ == app.keys.binds@,
        r.1 == app.theme,
{
    (copy_keymap(&app.keys), app.theme)
}

/// What is left to do outside after a command.
pub enum CommandOutcome {
    Done,
    Quit,
    /// review another revision
    Edit(String),
    /// write the notes
    SaveNotes,
    /// order the review anew, and show it by the name of the strategy
    Reorder(Strategy),
    /// write the script, and open it in the editor
    Quickfix(String),
    /// show the draft of a rule, given the language of the file
    DraftRule(String),
    /// fetch the revisions that can be named
    FetchRefs,
}

/// The same, as text.
pub ghost enum OutcomeText {
    Done,
    Quit,
    Edit(Seq<char>),
    SaveNotes,
    Reorder(Strategy),
    Quickfix(Seq<char>),
    DraftRule(Seq<char>),
    FetchRefs,
}

impl CommandOutcome {
    pub open spec fn text(self) -> OutcomeText {
        match self {
            CommandOutcome::Done => OutcomeText::Done,
            CommandOutcome::Quit => OutcomeText::Quit,
            CommandOutcome::Edit(rev) => OutcomeText::Edit(rev@),
            CommandOutcome::SaveNotes => OutcomeText::SaveNotes,
            CommandOutcome::Reorder(s) => OutcomeText::Reorder(s),
            CommandOutcome::Quickfix(s) => OutcomeText::Quickfix(s@),
            CommandOutcome::DraftRule(p) => OutcomeText::DraftRule(p@),
            CommandOutcome::FetchRefs => OutcomeText::FetchRefs,
        }
    }
}

pub open spec fn outcome_text(r: Result<CommandOutcome, String>) -> Result<OutcomeText, Seq<char>> {
    match r {
        Ok(o) => Ok(o.text()),
        Err(e) => Err(e@),
    }
}

/// Whether a session differs from another in its popup alone, and what that
/// shows.
pub open spec fn popped(a: App, b: App, p: PopupText) -> bool {
    b == (App { popup: b.popup, ..a }) && popup_text(b.popup) == Some(p)
}

/// The session under other filters: the selection stays where it can.
pub open spec fn filtered(a: App, b: App, comments_only: bool, show_all: bool, filter: Option<(String, PathGlobs)>) -> bool {
    let c = App { comments_only, show_all, path_filter: filter, view: b.view, ..a };
    &&& b.view@ == view_of(a.items@, comments_only, show_all, filter_globs(filter))
    &&& if b.view@.contains(a.sel) {
        b == c
    } else {
        b == selected(c, b.view@[0])
    }
}

/// Whether filters were set, or refused because they would leave nothing.
pub open spec fn filters_done(
    a: App,
    b: App,
    comments_only: bool,
    show_all: bool,
    filter: Option<(String, PathGlobs)>,
    r: Result<(), Seq<char>>,
) -> bool {
    if view_of(a.items@, comments_only, show_all, filter_globs(filter)).len() == 0 {
        r == Err::<(), Seq<char>>("that filter combination leaves nothing to review"@) && b == a
    } else {
        r == Ok::<(), Seq<char>>(()) && filtered(a, b, comments_only, show_all, filter)
    }
}

pub open spec fn unit_text(r: Result<(), String>) -> Result<(), Seq<char>> {
    match r {
        Ok(_) => Ok(()),
        Err(e) => Err(e@),
    }
}

/// Shows a view that holds something, under the path filter that is set.
fn show_view(app: &mut App, comments_only: bool, show_all: bool, view: Vec<usize>)
    requires
        old(app).items_wf(),
        old(app).code_wf(),
        old(app).command_wf(),
        old(app).prompt is None,
        view@ == view_of(old(app).items@, comments_only, show_all, filter_globs(old(app).path_filter)),
        view@.len() > 0,
    ensures
        filtered(*old(app), *final(app), comments_only, show_all, old(app).path_filter),
        final(app).wf(),
{
    let ghost start = *app;
    let n: usize = app.items.len();
    proof {
        lemma_view_in(start.items@, comments_only, show_all, filter_globs(start.path_filter));
    }
    app.comments_only = comments_only;
    app.show_all = show_all;
    app.view = view;
    let ghost mid = *app;
    if !in_view(&app.view, app.sel) {
        let first: usize = app.view[0];
        proof {
            assert(mid.view@[0] == first);
            let tmp = App { sel: first, ..mid };
            assert(tmp.view@.contains(first));
            assert(selected(mid, first) == selected(tmp, first));
            lemma_selected(tmp, first);
        }
        select(app, first);
    } else {
        proof {
            lemma_found_alike(start, mid);
        }
    }
}

/// What was found stays found where the lines are the same.
proof fn lemma_found_alike(a: App, b: App)
    requires
        a.code_wf(),
        a.items == b.items,
        a.sel == b.sel,
        a.sources == b.sources,
    ensures
        a.path() == b.path(),
        a.lines() == b.lines(),
        a.search matches Some(s) ==> forall|k: int| 0 <= k < s.matches@.len() ==> b.found(#[trigger] s.matches@[k]),
{
    if let Some(s) = a.search {
        assert forall|k: int| 0 <= k < s.matches@.len() implies b.found(#[trigger] s.matches@[k]) by {
            assert(a.found(s.matches@[k]));
        }
    }
}

/// Commits filters that leave something.
fn commit_filters(
    app: &mut App,
    comments_only: bool,
    show_all: bool,
    path_filter: Option<(String, PathGlobs)>,
    view: Vec<usize>,
)
    requires
        old(app).wf(),
        old(app).prompt is None,
        view@ == view_of(old(app).items@, comments_only, show_all, filter_globs(path_filter)),
        view@.len() > 0,
    ensures
        filtered(*old(app), *final(app), comments_only, show_all, path_filter),
        final(app).wf(),
{
    let ghost start = *app;
    app.path_filter = path_filter;
    proof {
        lemma_found_alike(start, *app);
    }
    show_view(app, comments_only, show_all, view);
}

/// Sets the filters, unless they would leave nothing to review.
pub fn set_filters(
    app: &mut App,
    comments_only: bool,
    show_all: bool,
    path_filter: Option<(String, PathGlobs)>,
) -> (r: Result<(), String>)
    requires
        old(app).wf(),
        old(app).prompt is None,
    ensures
        filters_done(*old(app), *final(app), comments_only, show_all, path_filter, unit_text(r)),
        final(app).wf(),
{
    let glob = match &path_filter {
        Some(f) => Some(&f.1),
        None => None,
    };
    let view = compute_view(&app.items, comments_only, show_all, glob);
    if view.len() == 0 {
        return Err("that filter combination leaves nothing to review".to_owned());
    }
    commit_filters(app, comments_only, show_all, path_filter, view);
    Ok(())
}

/// Sets what kinds of hunks are shown and keeps the path filter.
fn set_flags(app: &mut App, comments_only: bool, show_all: bool) -> (r: Result<(), String>)
    requires
        old(app).wf(),
        old(app).prompt is None,
    ensures
        filters_done(*old(app), *final(app), comments_only, show_all, old(app).path_filter, unit_text(r)),
        final(app).wf(),
{
    let view = {
        let glob = match &app.path_filter {
            Some(f) => Some(&f.1),
            None => None,
        };
        compute_view(&app.items, comments_only, show_all, glob)
    };
    if view.len() == 0 {
        return Err("that filter combination leaves nothing to review".to_owned());
    }
    show_view(app, comments_only, show_all, view);
    Ok(())
}

/// Filters never leave the review empty, nor the selection outside of it.
pub proof fn law_filters_keep_something_in_view(
    a: App,
    b: App,
    comments_only: bool,
    show_all: bool,
    filter: Option<(String, PathGlobs)>,
    r: Result<(), Seq<char>>,
)
    requires
        a.wf(),
        filters_done(a, b, comments_only, show_all, filter, r),
    ensures
        b.view@.len() > 0,
        b.view@.contains(b.sel),
        r is Err ==> b == a,
{
    if r is Ok && !b.view@.contains(a.sel) {
        assert(b.view@[0] == b.sel);
    }
}

/// The place in the view, from `k` on, of the first item of a path.
pub open spec fn first_of_path(items: Seq<Item>, view: Seq<usize>, path: Seq<char>, k: int) -> Option<usize>
    decreases view.len() - k,
{
    if k >= view.len() {
        None
    } else if items[view[k] as int].path@ == path {
        Some(view[k])
    } else {
        first_of_path(items, view, path, k + 1)
    }
}

/// Whether the first hunk of a path was selected, or why not.
pub open spec fn goto_done(a: App, b: App, path: Seq<char>, r: Result<(), Seq<char>>) -> bool {
    if path.len() == 0 {
        r == Err::<(), Seq<char>>("usage: :goto <path>"@) && b == a
    } else {
        match first_of_path(a.items@, a.view@, path, 0) {
            None => r == Err::<(), Seq<char>>(
                "no visible hunk for path '"@ + path + "' (clear filters with :filter, :all, :only-comments)"@,
            ) && b == a,
            Some(i) => r == Ok::<(), Seq<char>>(()) && b == (App { focus: Pane::Code, ..selected(a, i) }),
        }
    }
}

/// Selects the first hunk of a path in view, and turns to the code.
pub fn run_goto(app: &mut App, path: &str) -> (r: Result<(), String>)
    requires
        old(app).wf(),
        old(app).prompt is None,
    ensures
        goto_done(*old(app), *final(app), path@, unit_text(r)),
        final(app).wf(),
{
    let ghost start = *app;
    if path.is_empty() {
        return Err("usage: :goto <path>".to_owned());
    }
    let mut k: usize = 0;
    while k < app.view.len()
        invariant
            *app == start,
            start.wf(),
            start.prompt is None,
            path@.len() > 0,
            k <= start.view@.len(),
            first_of_path(start.items@, start.view@, path@, 0) == first_of_path(
                start.items@,
                start.view@,
                path@,
                k as int,
            ),
            start == *old(app),
        decreases start.view@.len() - k,
    {
        let i: usize = app.view[k];
        if same(&app.items[i].path, path) {
            proof {
                assert(start.view@[k as int] == i);
                lemma_selected(start, i);
            }
            select(app, i);
            let ghost there = *app;
            app.focus = Pane::Code;
            proof {
                lemma_same_code(there, *app);
            }
            return Ok(());
        }
        k = k + 1;
    }
    Err(
        "no visible hunk for path '".to_owned().concat(path).concat(
            "' (clear filters with :filter, :all, :only-comments)",
        ),
    )
}

/// What `:theme` lists: every theme, the current one marked.
pub open spec fn theme_list_lines(current: Seq<char>) -> Seq<Seq<char>> {
    let names = theme_name_list();
    Seq::new(
        names.len(),
        |i: int|
            (if names[i] == current {
                "▸ "@
            } else {
                "  "@
            }) + names[i],
    )
}

fn list_themes(current: &str) -> (r: Vec<String>)
    ensures
        texts(r@) == theme_list_lines(current@),
{
    let names = theme_names();
    let ghost all = theme_list_lines(current@);
    let mut out: Vec<String> = Vec::new();
    for i in 0..names.len()
        invariant
            texts(names@) == theme_name_list(),
            all == theme_list_lines(current@),
            texts(out@) == all.take(i as int),
    {
        let ghost had = texts(out@);
        assert(texts(names@)[i as int] == names@[i as int]@);
        let mark = if same(&names[i], current) {
            "▸ "
        } else {
            "  "
        };
        out.push(mark.to_owned().concat(&names[i]));
        assert(texts(out@) =~= had.push(all[i as int]));
        assert(all.take(i + 1) =~= all.take(i as int).push(all[i as int]));
    }
    assert(texts(names@).len() == names@.len());
    assert(all.take(names@.len() as int) =~= all);
    out
}

/// Whether a file's colours are those that a theme gives it: new ones where it
/// can be coloured, else as they were.
pub open spec fn recolored(
    was: Vec<LineSpans>,
    is: Vec<LineSpans>,
    path: Seq<char>,
    sources: Map<Seq<char>, FileLines>,
    syn: Syntax,
) -> bool {
    if sources.dom().contains(path) && file_painted(path, source_of(texts(sources[path].1@)), syn) is Some {
        file_painted(path, source_of(texts(sources[path].1@)), syn) == Some(line_runs(is@))
    } else {
        is == was
    }
}

/// Colours every file that has colours with another theme.
fn recolor(highlights: &mut Highlights, sources: &Sources, syn: &Syntax)
    ensures
        final(highlights)@.dom() == old(highlights)@.dom(),
        forall|p: Seq<char>| #[trigger]
            old(highlights)@.dom().contains(p) ==> recolored(
                old(highlights)@[p],
                final(highlights)@[p],
                p,
                sources@,
                *syn,
            ),
{
    let ghost start = highlights@;
    let mut paths: Vec<String> = Vec::new();
    let ghost entries = highlights.entries@;
    for i in 0..highlights.entries.len()
        invariant
            entries == highlights.entries@,
            paths@.len() == i,
            forall|k: int| 0 <= k < i ==> (#[trigger] paths@[k])@ == entries[k].0@,
    {
        paths.push(highlights.entries[i].0.clone());
    }
    proof {
        assert forall|p: Seq<char>| #[trigger] start.dom().contains(p) implies exists|k: int|
            0 <= k < paths@.len() && (#[trigger] paths@[k])@ == p by {
            crate::textmap::lemma_entries_key(entries, p);
            let k = choose|k: int| 0 <= k < entries.len() && (#[trigger] entries[k]).0@ == p;
            assert(paths@[k]@ == p);
        }
        assert forall|k: int| 0 <= k < paths@.len() implies start.dom().contains((#[trigger] paths@[k])@) by {
            crate::textmap::lemma_entries_has(entries, k);
        }
    }
    for i in 0..paths.len()
        invariant
            highlights@.dom() == start.dom(),
            forall|k: int| 0 <= k < paths@.len() ==> start.dom().contains((#[trigger] paths@[k])@),
            forall|p: Seq<char>| #[trigger]
                start.dom().contains(p) ==> (highlights@[p] == start[p] || recolored(
                    start[p],
                    highlights@[p],
                    p,
                    sources@,
                    *syn,
                )),
            forall|k: int|
                0 <= k < i ==> recolored(
                    start[(#[trigger] paths@[k])@],
                    highlights@[paths@[k]@],
                    paths@[k]@,
                    sources@,
                    *syn,
                ),
    {
        let ghost had = highlights@;
        let path = &paths[i];
        if let Some(file) = sources.get(path) {
            if let Some(h) = highlight_file(path, &join(&file.1, "\n"), syn) {
                highlights.insert(path.clone(), h);
                assert(highlights@.dom() =~= start.dom());
            }
        }
        proof {
            assert forall|k: int| 0 <= k < i + 1 implies recolored(
                start[(#[trigger] paths@[k])@],
                highlights@[paths@[k]@],
                paths@[k]@,
                sources@,
                *syn,
            ) by {
                if paths@[k]@ != path@ {
                    assert(recolored(start[paths@[k]@], had[paths@[k]@], paths@[k]@, sources@, *syn));
                } else {
                    assert(start.dom().contains(path@));
                }
            }
        }
    }
    proof {
        assert forall|p: Seq<char>| #[trigger] start.dom().contains(p) implies recolored(
            start[p],
            highlights@[p],
            p,
            sources@,
            *syn,
        ) by {
            let k = choose|k: int| 0 <= k < paths@.len() && (#[trigger] paths@[k])@ == p;
            assert(recolored(start[paths@[k]@], highlights@[paths@[k]@], paths@[k]@, sources@, *syn));
        }
    }
}

/// Whether a session took on another theme, colours and all.
pub open spec fn themed(a: App, b: App, t: Theme) -> bool {
    &&& b == (App { theme: t, highlights: b.highlights, ..a })
    &&& b.highlights@.dom() == a.highlights@.dom()
    &&& forall|p: Seq<char>| #[trigger]
        a.highlights@.dom().contains(p) ==> recolored(a.highlights@[p], b.highlights@[p], p, a.sources@, t.syn)
}

/// Shows a review in another theme.
pub fn swap_theme(app: &mut App, t: Theme)
    requires
        old(app).wf(),
    ensures
        themed(*old(app), *final(app), t),
        final(app).wf(),
{
    let ghost start = *app;
    app.theme = t;
    recolor(&mut app.highlights, &app.sources, &t.syn);
    proof {
        lemma_same_code(start, *app);
    }
}

/// How many items differ from the last run in a way.
pub open spec fn delta_count(deltas: Seq<Delta>, d: Delta, n: int) -> int
    decreases n,
{
    if n <= 0 {
        0
    } else {
        delta_count(deltas, d, n - 1) + (if deltas[n - 1] == d {
            1int
        } else {
            0
        })
    }
}

fn count_delta(deltas: &[Delta], d: Delta) -> (r: usize)
    ensures
        r == delta_count(deltas@, d, deltas@.len() as int),
{
    let mut n: usize = 0;
    for i in 0..deltas.len()
        invariant
            n == delta_count(deltas@, d, i as int),
            n <= i,
    {
        if deltas[i] == d {
            n = n + 1;
        }
    }
    n
}

/// The hunks among the first `n` of the view that read elsewhere now.
pub open spec fn moved_lines(a: App, n: int) -> Seq<Seq<char>>
    decreases n,
{
    if n <= 0 {
        Seq::empty()
    } else {
        let i = a.view@[n - 1] as int;
        if i < a.deltas@.len() && a.deltas@[i] == Delta::Moved {
            moved_lines(a, n - 1).push(
                "  moved: "@ + place_text(a.items@[i]) + "  "@ + a.items@[i].rationale@,
            )
        } else {
            moved_lines(a, n - 1)
        }
    }
}

/// What changed since the review was last opened.
pub open spec fn delta_report(a: App) -> Seq<Seq<char>> {
    let n = a.deltas@.len() as int;
    seq![
        decimal(delta_count(a.deltas@, Delta::New, n)) + " new"@,
        decimal(delta_count(a.deltas@, Delta::Changed, n)) + " changed"@,
        decimal(delta_count(a.deltas@, Delta::Moved, n)) + " unchanged but reordered"@,
        decimal(a.delta_gone as int) + " gone"@,
        ""@,
    ] + moved_lines(a, a.view@.len() as int)
}

/// What changed since the review was last opened; an error where it never was.
pub fn delta_lines(app: &App) -> (r: Result<Vec<String>, String>)
    requires
        view_in(app.view@, app.items@),
    ensures
        match r {
            Ok(lines) => !first_run(app.deltas@) && texts(lines@) == delta_report(*app),
            Err(why) => first_run(app.deltas@) && why@ == "no previous run of this review to compare against"@,
        },
{
    if is_first_run(&app.deltas) {
        return Err("no previous run of this review to compare against".to_owned());
    }
    let mut lines: Vec<String> = vec![
        number(count_delta(&app.deltas, Delta::New)).concat(" new"),
        number(count_delta(&app.deltas, Delta::Changed)).concat(" changed"),
        number(count_delta(&app.deltas, Delta::Moved)).concat(" unchanged but reordered"),
        number(app.delta_gone).concat(" gone"),
        "".to_owned(),
    ];
    let ghost n = app.deltas@.len() as int;
    let ghost head = seq![
        decimal(delta_count(app.deltas@, Delta::New, n)) + " new"@,
        decimal(delta_count(app.deltas@, Delta::Changed, n)) + " changed"@,
        decimal(delta_count(app.deltas@, Delta::Moved, n)) + " unchanged but reordered"@,
        decimal(app.delta_gone as int) + " gone"@,
        ""@,
    ];
    assert(texts(lines@) =~= head + moved_lines(*app, 0));
    for k in 0..app.view.len()
        invariant
            view_in(app.view@, app.items@),
            texts(lines@) == head + moved_lines(*app, k as int),
    {
        let i: usize = app.view[k];
        if i < app.deltas.len() && app.deltas[i] == Delta::Moved {
            let ghost had = texts(lines@);
            let it = &app.items[i];
            let line = "  moved: ".to_owned().concat(&place_label(it)).concat("  ").concat(&it.rationale);
            lines.push(line);
            assert(texts(lines@) =~= had.push(line@));
            assert(texts(lines@) =~= head + moved_lines(*app, k + 1));
        }
    }
    Ok(lines)
}

/// The notes with one more, or with one less where its text is empty.
pub open spec fn notes_after(notes: Map<u64, Seq<char>>, key: u64, text: Seq<char>) -> Map<u64, Seq<char>> {
    if text.len() == 0 {
        notes.remove(key)
    } else {
        notes.insert(key, text)
    }
}

pub open spec fn note_texts(notes: Map<u64, String>) -> Map<u64, Seq<char>> {
    notes.map_values(|s: String| s@)
}

/// Whether a note was set on the selected item's symbol, or why not.
pub open spec fn note_done(a: App, b: App, text: Seq<char>, r: Result<(), Seq<char>>) -> bool {
    match note_of(symbol_texts(a.items@[a.sel as int].symbols@)) {
        None => r == Err::<(), Seq<char>>(
            "this hunk declares no symbol to anchor a note to (try one that defines something)"@,
        ) && b == a,
        Some(key) => r == Ok::<(), Seq<char>>(()) && b == (App { notes: b.notes, ..a }) && note_texts(b.notes@)
            == notes_after(note_texts(a.notes@), key, text),
    }
}

/// Sets or clears the note on the selected item's symbol.
pub fn set_note(app: &mut App, text: &str) -> (r: Result<(), String>)
    requires
        old(app).wf(),
    ensures
        note_done(*old(app), *final(app), text@, unit_text(r)),
        final(app).wf(),
{
    let ghost start = *app;
    proof {
        lemma_sel(start);
    }
    let key = match note_key(&app.items[app.sel]) {
        Some(k) => k,
        None => {
            return Err(
                "this hunk declares no symbol to anchor a note to (try one that defines something)".to_owned(),
            );
        },
    };
    if text.is_empty() {
        app.notes.remove(&key);
        assert(note_texts(app.notes@) =~= note_texts(start.notes@).remove(key));
    } else {
        app.notes.insert(key, text.to_owned());
        assert(note_texts(app.notes@) =~= note_texts(start.notes@).insert(key, text@));
    }
    proof {
        lemma_same_code(start, *app);
    }
    Ok(())
}

/// A note that was set is the one that is shown.
pub proof fn law_a_note_reads_back(a: App, b: App, text: Seq<char>)
    requires
        note_done(a, b, text, Ok(())),
        text.len() > 0,
    ensures
        crate::links::note_text(b.notes@, a.items@[a.sel as int]) == Some(text),
{
    if let Some(key) = note_of(symbol_texts(a.items@[a.sel as int].symbols@)) {
        assert(note_texts(b.notes@).dom().contains(key));
        assert(note_texts(b.notes@)[key] == text);
        assert(b.notes@.dom().contains(key));
    }
}

/// A hunk as the quickfix list names it.
pub open spec fn is_qf_of(h: QfHunk, it: Item, reviewed: bool) -> bool {
    &&& h.filename@ == it.path@
    &&& h.lnum == it.new_range[0]
    &&& h.kind == (if warned(it.rules@) || it.advisories@.len() > 0 {
        Some('W')
    } else if reviewed {
        Some('I')
    } else {
        None
    })
    &&& option_text(h.cluster) == (match it.cluster {
        Some(n) => Some("c"@ + decimal(n as int)),
        None => None,
    })
    &&& h.text@ == it.rationale@
}

/// Whether hunks are those of the view, in its order.
pub open spec fn qf_of_view(hunks: Seq<QfHunk>, a: App) -> bool {
    hunks.len() == a.view@.len() && forall|k: int|
        0 <= k < hunks.len() ==> is_qf_of(
            #[trigger] hunks[k],
            a.items@[a.view@[k] as int],
            a.reviewed@[a.view@[k] as int],
        )
}

/// The hunks of the view, for the quickfix list.
pub fn quickfix_hunks(app: &App) -> (r: Vec<QfHunk>)
    requires
        view_in(app.view@, app.items@),
        app.reviewed@.len() == app.items@.len(),
    ensures
        qf_of_view(r@, *app),
{
    let mut out: Vec<QfHunk> = Vec::new();
    for k in 0..app.view.len()
        invariant
            view_in(app.view@, app.items@),
            app.reviewed@.len() == app.items@.len(),
            out@.len() == k,
            forall|j: int|
                0 <= j < k ==> is_qf_of(
                    #[trigger] out@[j],
                    app.items@[app.view@[j] as int],
                    app.reviewed@[app.view@[j] as int],
                ),
    {
        let i: usize = app.view[k];
        let it = &app.items[i];
        let warn = is_warned(&it.rules) || it.advisories.len() > 0;
        let cluster = match it.cluster {
            Some(n) => Some("c".to_owned().concat(&number(n))),
            None => None,
        };
        out.push(
            QfHunk {
                filename: it.path.clone(),
                lnum: it.new_range[0],
                kind: qf_kind(warn, app.reviewed[i]),
                cluster,
                text: it.rationale.clone(),
            },
        );
    }
    out
}

/// The counts of what the filters hide.
pub open spec fn hidden_counts(a: App, h: Hidden) -> bool {
    let n = a.items@.len() as int;
    let g = filter_globs(a.path_filter);
    &&& h.comment == hidden_for(a.items@, a.comments_only, a.show_all, g, Reason::Comment, n)
    &&& h.noise == hidden_for(a.items@, a.comments_only, a.show_all, g, Reason::Noise, n)
    &&& h.glob == hidden_for(a.items@, a.comments_only, a.show_all, g, Reason::Glob, n)
    &&& h.unaccounted == 0
}

pub open spec fn filter_text(f: Option<(String, PathGlobs)>) -> Option<Seq<char>> {
    match f {
        Some(p) => Some(p.0@),
        None => None,
    }
}

/// The audit of a session.
pub open spec fn audit_of(a: App, lines: Seq<Seq<char>>) -> bool {
    exists|h: Hidden| #[trigger]
        hidden_counts(a, h) && lines == audit_lines(
            a.items@.len() as int,
            a.view@.len() as int,
            h,
            a.ledger,
            filter_text(a.path_filter),
        )
}

fn audit(app: &App) -> (r: Vec<String>)
    ensures
        audit_of(*app, texts(r@)),
{
    let glob = match &app.path_filter {
        Some(f) => Some(&f.1),
        None => None,
    };
    let hidden = hidden_breakdown(&app.items, app.comments_only, app.show_all, glob);
    let named = match &app.path_filter {
        Some(f) => Some(f.0.as_str()),
        None => None,
    };
    assert(hidden_counts(*app, hidden));
    build_audit(&app.items, app.view.len(), &hidden, &app.ledger, named)
}

/// Whether a session switched what its list is a list of.
pub open spec fn mode_switched(a: App, b: App, mode: ViewMode) -> bool {
    &&& b.items@.len() == a.items@.len()
    &&& forall|i: int| 0 <= i < a.items@.len() ==> rebucketed(a.items@[i], #[trigger] b.items@[i], mode)
    &&& b.collapsed@ == Set::<Seq<char>>::empty()
    &&& mode == ViewMode::Ledger ==> map_texts(b.groups@) == ledger_headers(a.symbol_ledger@)
    &&& mode == ViewMode::Hunks ==> b.groups@ == a.group_reasons@
    &&& b == (App {
        mode,
        items: b.items,
        groups: b.groups,
        show_groups: mode == ViewMode::Ledger || a.show_groups,
        collapsed: b.collapsed,
        ..a
    })
}

/// Switches what the list is a list of.
pub fn switch_mode(app: &mut App, mode: ViewMode)
    requires
        old(app).wf(),
    ensures
        mode_switched(*old(app), *final(app), mode),
        final(app).wf(),
{
    let ghost start = *app;
    let mut ledger: Vec<crate::model::LedgerEntry> = Vec::new();
    std::mem::swap(&mut ledger, &mut app.symbol_ledger);
    set_mode(app, mode, &ledger);
    app.symbol_ledger = ledger;
    proof {
        law_switching_the_mode_keeps_the_review(start, *app, mode);
    }
}

/// What a command does: the session before and after, and what comes of it.
pub open spec fn executed(a: App, b: App, line: Seq<char>, r: Result<OutcomeText, Seq<char>>) -> bool {
    let name = line_parts(line).0;
    let arg = trimmed(line_parts(line).1);
    let done = Ok::<OutcomeText, Seq<char>>(OutcomeText::Done);
    if name == ""@ {
        r == done && b == a
    } else if name == "q"@ {
        r == Ok::<OutcomeText, Seq<char>>(OutcomeText::Quit) && b == a
    } else if name == "help"@ {
        r == done && popped(a, b, prose_popup("commands"@, command_lines()))
    } else if name == "rules"@ {
        r == done && popped(a, b, prose_popup("rules"@, texts(a.rules_report@)))
    } else if name == "audit"@ {
        r == done && exists|lines: Seq<Seq<char>>| #[trigger]
            audit_of(a, lines) && popped(a, b, prose_popup("audit"@, lines))
    } else if name == "only-comments"@ {
        filters_done(a, b, !a.comments_only, a.show_all, a.path_filter, unit_of(r)) && plain(r)
    } else if name == "all"@ {
        filters_done(a, b, a.comments_only, !a.show_all, a.path_filter, unit_of(r)) && plain(r)
    } else if name == "filter"@ {
        filter_command(a, b, arg, r)
    } else if name == "theme"@ {
        theme_command(a, b, arg, r)
    } else if name == "keys"@ {
        keys_command(a, b, arg, r)
    } else if name == "strategy"@ {
        b == a && r == strategy_asked(arg)
    } else if name == "group"@ {
        r == done && b == (App { show_groups: !a.show_groups, ..a })
    } else if name == "rule"@ {
        b == a && r == Ok::<OutcomeText, Seq<char>>(OutcomeText::DraftRule(a.path()))
    } else if name == "delta"@ {
        if first_run(a.deltas@) {
            b == a && r == Err::<OutcomeText, Seq<char>>("no previous run of this review to compare against"@)
        } else {
            r == done && popped(a, b, prose_popup("since you last looked"@, delta_report(a)))
        }
    } else if name == "note"@ {
        match r {
            Ok(o) => note_done(a, b, arg, Ok(())) && o == (if a.notes_path is Some {
                OutcomeText::SaveNotes
            } else {
                OutcomeText::Done
            }),
            Err(e) => note_done(a, b, arg, Err(e)),
        }
    } else if name == "mode"@ {
        match mode_asked(arg, a.mode) {
            Some(m) => r == done && mode_switched(a, b, m),
            None => b == a && r == Err::<OutcomeText, Seq<char>>(
                "unknown mode: "@ + arg + " (ledger, hunks)"@,
            ),
        }
    } else if name == "goto"@ {
        goto_done(a, b, arg, unit_of(r)) && plain(r)
    } else if name == "quickfix"@ || name == "qf"@ || name == "vim-qfl"@ {
        b == a && exists|hunks: Seq<QfHunk>| #[trigger]
            qf_of_view(hunks, a) && r == Ok::<OutcomeText, Seq<char>>(
                OutcomeText::Quickfix(script_of(a.rev@, a.strategy@, hunks)),
            )
    } else if name == "e"@ {
        b == a && r == (if arg.len() == 0 {
            Err::<OutcomeText, Seq<char>>("usage: :e <rev>"@)
        } else {
            Ok(OutcomeText::Edit(arg))
        })
    } else {
        b == a && r == Err::<OutcomeText, Seq<char>>(
            "unknown command '"@ + name + "' — :help lists them"@,
        )
    }
}

/// Whether something went well, whatever comes of it.
pub open spec fn unit_of(r: Result<OutcomeText, Seq<char>>) -> Result<(), Seq<char>> {
    match r {
        Ok(_) => Ok(()),
        Err(e) => Err(e),
    }
}

/// Whether nothing is left to do outside.
pub open spec fn plain(r: Result<OutcomeText, Seq<char>>) -> bool {
    r matches Ok(o) ==> o == OutcomeText::Done
}

/// What `:filter` does: no argument clears the path filter.
pub open spec fn filter_command(a: App, b: App, arg: Seq<char>, r: Result<OutcomeText, Seq<char>>) -> bool {
    if arg.len() == 0 {
        filters_done(a, b, a.comments_only, a.show_all, None, unit_of(r)) && plain(r)
    } else {
        match patterns_complaint(seq![arg]) {
            Some(why) => b == a && r == Err::<OutcomeText, Seq<char>>(why),
            None => exists|f: (String, PathGlobs)|
                f.0@ == arg && #[trigger] globs_from(f.1, arg) && filters_done(
                    a,
                    b,
                    a.comments_only,
                    a.show_all,
                    Some(f),
                    unit_of(r),
                ) && plain(r),
        }
    }
}

/// Whether globs are what one pattern means.
pub open spec fn globs_from(g: PathGlobs, pattern: Seq<char>) -> bool {
    forall|path: Seq<char>| #[trigger]
        g.keeps(path) == crate::filter::patterns_keep(seq![pattern], path)
}

/// What `:theme` does: no argument lists the themes.
pub open spec fn theme_command(a: App, b: App, arg: Seq<char>, r: Result<OutcomeText, Seq<char>>) -> bool {
    if arg.len() == 0 {
        r == Ok::<OutcomeText, Seq<char>>(OutcomeText::Done) && popped(
            a,
            b,
            prose_popup("themes"@, theme_list_lines(a.theme.name@)),
        )
    } else {
        match theme_named(arg) {
            None => b == a && r == Err::<OutcomeText, Seq<char>>(
                "unknown theme '"@ + arg + "' (try :theme to list them)"@,
            ),
            Some(t) => r == Ok::<OutcomeText, Seq<char>>(OutcomeText::Done) && themed(a, b, t),
        }
    }
}

/// What `:keys` does.
pub open spec fn keys_command(a: App, b: App, arg: Seq<char>, r: Result<OutcomeText, Seq<char>>) -> bool {
    if arg == "vim"@ || arg == "vscode"@ {
        r == Ok::<OutcomeText, Seq<char>>(OutcomeText::Done) && b == (App { keys: b.keys, ..a })
            && crate::keys::is_preset(b.keys, arg)
    } else {
        b == a && r == Err::<OutcomeText, Seq<char>>(
            "unknown key preset '"@ + arg + "' (want: vim, vscode)"@,
        )
    }
}

/// What `:strategy` asks for.
pub open spec fn strategy_asked(arg: Seq<char>) -> Result<OutcomeText, Seq<char>> {
    if arg == "comprehension"@ {
        Ok(OutcomeText::Reorder(Strategy::Comprehension))
    } else if arg == "defs-first"@ {
        Ok(OutcomeText::Reorder(Strategy::DefsFirst))
    } else if arg == "file"@ {
        Ok(OutcomeText::Reorder(Strategy::File))
    } else {
        Err("unknown strategy '"@ + arg + "' (want: comprehension, defs-first, file)"@)
    }
}

fn run_filter(app: &mut App, arg: &str) -> (r: Result<CommandOutcome, String>)
    requires
        old(app).wf(),
        old(app).prompt is None,
    ensures
        filter_command(*old(app), *final(app), arg@, outcome_text(r)),
        final(app).wf(),
{
    let (comments_only, show_all) = (app.comments_only, app.show_all);
    if arg.is_empty() {
        return match set_filters(app, comments_only, show_all, None) {
            Ok(_) => Ok(CommandOutcome::Done),
            Err(e) => Err(e),
        };
    }
    let mut pats: Vec<String> = Vec::new();
    pats.push(arg.to_owned());
    assert(texts(pats@) =~= seq![arg@]);
    match build_globs(&pats) {
        Err(e) => Err(e),
        Ok(globs) => {
            let filter = (arg.to_owned(), globs);
            proof {
                assert(globs_from(filter.1, arg@));
            }
            match set_filters(app, comments_only, show_all, Some(filter)) {
                Ok(_) => Ok(CommandOutcome::Done),
                Err(e) => Err(e),
            }
        },
    }
}

fn run_theme(app: &mut App, arg: &str) -> (r: Result<CommandOutcome, String>)
    requires
        old(app).wf(),
    ensures
        theme_command(*old(app), *final(app), arg@, outcome_text(r)),
        final(app).wf(),
{
    let ghost start = *app;
    if arg.is_empty() {
        app.popup = Some(prose_box("themes", list_themes(app.theme.name)));
        proof {
            lemma_same_code(start, *app);
        }
        return Ok(CommandOutcome::Done);
    }
    match theme(arg) {
        None => Err("unknown theme '".to_owned().concat(arg).concat("' (try :theme to list them)")),
        Some(t) => {
            swap_theme(app, t);
            Ok(CommandOutcome::Done)
        },
    }
}

fn run_keys(app: &mut App, arg: &str) -> (r: Result<CommandOutcome, String>)
    requires
        old(app).wf(),
    ensures
        keys_command(*old(app), *final(app), arg@, outcome_text(r)),
        final(app).wf(),
{
    let ghost start = *app;
    match keymap(arg) {
        Some(k) => {
            app.keys = k;
            proof {
                lemma_same_code(start, *app);
            }
            Ok(CommandOutcome::Done)
        },
        None => Err(
            "unknown key preset '".to_owned().concat(arg).concat("' (want: vim, vscode)"),
        ),
    }
}

fn show_lines(app: &mut App, title: &str, lines: Vec<String>)
    requires
        old(app).wf(),
    ensures
        popped(*old(app), *final(app), prose_popup(title@, texts(lines@))),
        final(app).wf(),
{
    let ghost start = *app;
    app.popup = Some(prose_box(title, lines));
    proof {
        lemma_same_code(start, *app);
    }
}

/// Runs a command line, without the colon before it. What has to be done outside
/// is handed back; an error says what was wrong with the line.
pub fn execute_command(app: &mut App, line: &str) -> (r: Result<CommandOutcome, String>)
    requires
        old(app).wf(),
        old(app).prompt is None,
    ensures
        executed(*old(app), *final(app), line@, outcome_text(r)),
        final(app).wf(),
{
    let ghost start = *app;
    let parts = parse_command_line(line);
    let name: &str = &parts.0;
    let trimmed_arg = trim(&parts.1);
    let arg: &str = &trimmed_arg;
    if same(name, "") {
        Ok(CommandOutcome::Done)
    } else if same(name, "q") {
        Ok(CommandOutcome::Quit)
    } else if same(name, "help") {
        show_lines(app, "commands", build_command_help());
        Ok(CommandOutcome::Done)
    } else if same(name, "rules") {
        show_lines(app, "rules", copy_strings(&app.rules_report));
        Ok(CommandOutcome::Done)
    } else if same(name, "audit") {
        let lines = audit(app);
        assert(audit_of(start, texts(lines@)));
        show_lines(app, "audit", lines);
        Ok(CommandOutcome::Done)
    } else if same(name, "only-comments") {
        let (comments_only, show_all) = (!app.comments_only, app.show_all);
        match set_flags(app, comments_only, show_all) {
            Ok(_) => Ok(CommandOutcome::Done),
            Err(e) => Err(e),
        }
    } else if same(name, "all") {
        let (comments_only, show_all) = (app.comments_only, !app.show_all);
        match set_flags(app, comments_only, show_all) {
            Ok(_) => Ok(CommandOutcome::Done),
            Err(e) => Err(e),
        }
    } else if same(name, "filter") {
        run_filter(app, arg)
    } else if same(name, "theme") {
        run_theme(app, arg)
    } else if same(name, "keys") {
        run_keys(app, arg)
    } else if same(name, "strategy") {
        match parse_strategy(arg) {
            Some(s) => Ok(CommandOutcome::Reorder(s)),
            None => Err(
                "unknown strategy '".to_owned().concat(arg).concat(
                    "' (want: comprehension, defs-first, file)",
                ),
            ),
        }
    } else if same(name, "group") {
        app.show_groups = !app.show_groups;
        proof {
            lemma_same_code(start, *app);
        }
        Ok(CommandOutcome::Done)
    } else if same(name, "rule") {
        proof {
            lemma_sel(start);
        }
        Ok(CommandOutcome::DraftRule(app.items[app.sel].path.clone()))
    } else if same(name, "delta") {
        match delta_lines(app) {
            Ok(lines) => {
                show_lines(app, "since you last looked", lines);
                Ok(CommandOutcome::Done)
            },
            Err(e) => Err(e),
        }
    } else if same(name, "note") {
        match set_note(app, arg) {
            Ok(_) => {
                if app.notes_path.is_some() {
                    Ok(CommandOutcome::SaveNotes)
                } else {
                    Ok(CommandOutcome::Done)
                }
            },
            Err(e) => Err(e),
        }
    } else if same(name, "mode") {
        match parse_mode(arg, app.mode) {
            Ok(m) => {
                switch_mode(app, m);
                Ok(CommandOutcome::Done)
            },
            Err(e) => Err(e),
        }
    } else if same(name, "goto") {
        match run_goto(app, arg) {
            Ok(_) => Ok(CommandOutcome::Done),
            Err(e) => Err(e),
        }
    } else if same(name, "quickfix") || same(name, "qf") || same(name, "vim-qfl") {
        let hunks = quickfix_hunks(app);
        assert(qf_of_view(hunks@, start));
        Ok(CommandOutcome::Quickfix(quickfix_script(&app.rev, &app.strategy, &hunks)))
    } else if same(name, "e") {
        if arg.is_empty() {
            Err("usage: :e <rev>".to_owned())
        } else {
            Ok(CommandOutcome::Edit(arg.to_owned()))
        }
    } else {
        Err("unknown command '".to_owned().concat(name).concat("' — :help lists them"))
    }
}

/// What accepting the line of the command bar does.
pub open spec fn accepted(a: App, b: App, o: OutcomeText) -> bool {
    match a.command {
        None => b == a && o == OutcomeText::Done,
        Some(bar) => match bar.selected {
            Some(i) => b.command matches Some(n) && n.text@ == completed(bar.text@, bar.candidates@[i as int]@)
                && n.rev_cache == bar.rev_cache && menu_fresh(a, n) && b == (App { command: b.command, ..a }) && o
                == (if typed_command(n.text@) == Some("e"@) && bar.rev_cache is None {
                OutcomeText::FetchRefs
            } else {
                OutcomeText::Done
            }),
            None => {
                let closed = App { command: None, ..a };
                (executed(closed, b, bar.text@, Ok(o))) || (exists|why: Seq<char>| #[trigger]
                    refused(closed, b, bar.text@, why) && o == OutcomeText::Done)
            },
        },
    }
}

/// Whether a line was refused, and the popup says why.
pub open spec fn refused(a: App, b: App, line: Seq<char>, why: Seq<char>) -> bool {
    executed(a, (App { popup: a.popup, ..b }), line, Err(why)) && popup_text(b.popup) == Some(
        prose_popup("command"@, seq![why]),
    )
}

/// Accepts the line of the command bar: a highlighted candidate is put into it;
/// else the bar closes and the line runs.
pub fn accept_command(app: &mut App) -> (r: CommandOutcome)
    requires
        old(app).wf(),
        old(app).prompt is None,
    ensures
        accepted(*old(app), *final(app), r.text()),
        final(app).wf(),
{
    let ghost start = *app;
    let bar = match app.command.take() {
        Some(b) => b,
        None => {
            return CommandOutcome::Done;
        },
    };
    if let Some(i) = bar.selected {
        let text = apply_completion(&bar.text, &bar.candidates[i]);
        app.command = Some(
            CommandBar {
                text,
                candidates: bar.candidates,
                selected: bar.selected,
                rev_cache: bar.rev_cache,
            },
        );
        let ghost mid = *app;
        let wanted = recompute_candidates(app);
        proof {
            assert(menu_of(mid, text@, revs_of(mid.command->0)) == menu_of(start, text@, revs_of(mid.command->0)));
            lemma_code_kept(start, *app);
        }
        return if wanted {
            CommandOutcome::FetchRefs
        } else {
            CommandOutcome::Done
        };
    }
    let ghost closed = *app;
    proof {
        lemma_code_kept(start, closed);
    }
    match execute_command(app, &bar.text) {
        Ok(o) => o,
        Err(why) => {
            let ghost after = *app;
            app.popup = Some(prose_line("command", why));
            proof {
                lemma_errors_change_nothing(closed, after, bar.text@, why@);
                assert((App { popup: closed.popup, ..*app }) == after);
                assert(refused(closed, *app, bar.text@, why@));
                lemma_same_code(after, *app);
            }
            CommandOutcome::Done
        },
    }
}

/// Whatever happens to the command bar, the rest of the session stays in order.
proof fn lemma_code_kept(a: App, b: App)
    requires
        a.wf(),
        b == (App { command: b.command, ..a }),
        b.command_wf(),
    ensures
        b.wf(),
{
    assert(b.path() == a.path());
    assert(b.lines() == a.lines());
    if let Some(s) = a.search {
        assert forall|k: int| 0 <= k < s.matches@.len() implies b.found(#[trigger] s.matches@[k]) by {
            assert(a.found(s.matches@[k]));
        }
    }
}

/// A command that fails leaves the session as it was.
pub proof fn lemma_errors_change_nothing(a: App, b: App, line: Seq<char>, why: Seq<char>)
    requires
        executed(a, b, line, Err(why)),
    ensures
        b == a,
{
}

} // verus!
