//! Moving about in a review: the selection, the code cursor, the why pane, the
//! popups, the folds and the jumps.

use crate::code_view::{excerpt, excerpt_rows, highlights_of};
use crate::cursor::{
    blank_down, blank_up, clamp_cursor, clamped, clamped_cursor, end_word, flat, follow_hscroll, follow_scroll,
    followed, last_col, lemma_line_offset_monotone, line_end, line_offset, line_start, move_col, move_line,
    next_word, para_next, para_prev, place_at, prev_word, start_index, word_end, word_next, word_prev, Cursor,
};
use crate::items::map_texts;
use crate::keys::{Fold, Pane};
use crate::links::{
    cascade_line, cascade_text, delta_line, delta_text, note_for, note_text, out_of_order, out_of_order_labels,
    place_label, place_text, stranded_in,
};
use crate::model::{Item, LedgerEntry};
use crate::paint::{cells, lines_cells, text_cells, Cell, Line, Span, Style};
use crate::state::{
    counted, file_fits, fresh_popup, item_fits, popup_text, popup_width, prose, prose_box, prose_popup, scroll_by,
    scrolled, widest, App, Popup,
};
use crate::text::{decimal, number, same, texts};
use crate::textmap::{TextMap, TextSet};
use crate::view::{
    auto_scroll, bucket_key, bucket_text, cursor_at, cursor_for, in_view, ledger_label, ledger_text, place_of,
    scroll_for, view_in, view_pos, ViewMode,
};
use crate::why::{why_of, why_rows, why_texts, Told, WhyKind, WhyText};
use vstd::prelude::*;

verus! {

/// How far a page goes.
pub const PAGE: isize = 15;

/// How many lines half a page moves.
pub const HALF_PAGE: isize = 7;

/// The session with another item selected: the panes at its start, and nothing
/// shown that belonged to the former one.
pub open spec fn selected(a: App, to: usize) -> App {
    App {
        sel: to,
        scroll: scroll_for(a.items@[to as int]) as u16,
        hscroll: 0,
        why_scroll: 0,
        why_sel: 0,
        cursor: cursor_at(a.items@[to as int], a.sources@),
        popup: None,
        search: None,
        ..a
    }
}

pub fn select(app: &mut App, to: usize)
    requires
        to < old(app).items@.len(),
        item_fits(old(app).items@[to as int]),
    ensures
        *final(app) == selected(*old(app), to),
{
    app.sel = to;
    app.scroll = auto_scroll(&app.items[to]);
    app.hscroll = 0;
    app.why_scroll = 0;
    app.why_sel = 0;
    app.cursor = cursor_for(&app.items[to], &app.sources);
    app.popup = None;
    app.search = None;
}

/// Selecting an item of the view keeps the session in order.
pub proof fn lemma_selected(a: App, to: usize)
    requires
        a.items_wf(),
        a.view_wf(),
        a.command_wf(),
        a.prompt is None,
        a.view@.contains(to),
    ensures
        selected(a, to).wf(),
        to < a.items@.len(),
{
    let w = choose|w: int| 0 <= w < a.view@.len() && a.view@[w] == to;
    assert(a.view@[w] < a.items@.len());
    let b = selected(a, to);
    assert(b.path() == a.items@[to as int].path@);
    if a.sources@.dom().contains(b.path()) {
        let f = a.sources@[b.path()];
        assert(file_fits(f));
        lemma_file_bounds(texts(f.1@), f.1@.len() as int);
        if b.lines().len() > 0 {
            assert(b.cursor.line < b.lines().len());
            assert(b.cursor.col <= last_col(b.lines()[b.cursor.line as int]));
            lemma_line_fits(b.lines(), b.cursor.line as int);
        }
    }
}

/// A file that fits has fewer lines than machine numbers count.
pub proof fn lemma_file_bounds(lines: Seq<Seq<char>>, n: int)
    requires
        0 <= n <= lines.len(),
    ensures
        n <= line_offset(lines, n),
    decreases n,
{
    if n > 0 {
        lemma_file_bounds(lines, n - 1);
    }
}

/// A line of a file that fits is shorter than machine numbers count.
pub proof fn lemma_line_fits(lines: Seq<Seq<char>>, i: int)
    requires
        0 <= i < lines.len(),
    ensures
        line_offset(lines, i) + lines[i].len() < line_offset(lines, lines.len() as int),
        0 <= line_offset(lines, i),
{
    lemma_file_bounds(lines, i);
    lemma_line_offset_monotone(lines, i + 1, lines.len() as int);
}

/// The entries of a view among the first `n` that no fold hides.
pub open spec fn unfolded(view: Seq<usize>, items: Seq<Item>, collapsed: Set<Seq<char>>, n: int) -> Seq<usize>
    decreases n,
{
    if n <= 0 {
        Seq::empty()
    } else {
        let before = unfolded(view, items, collapsed, n - 1);
        if collapsed.contains(items[view[n - 1] as int].bucket@) {
            before
        } else {
            before.push(view[n - 1])
        }
    }
}

/// The items that the folds leave; all of the view where they would leave none.
pub open spec fn folded(a: App) -> Seq<usize> {
    if !a.show_groups || a.collapsed@ == Set::<Seq<char>>::empty() {
        a.view@
    } else {
        let left = unfolded(a.view@, a.items@, a.collapsed@, a.view@.len() as int);
        if left.len() == 0 {
            a.view@
        } else {
            left
        }
    }
}

pub proof fn lemma_unfolded(view: Seq<usize>, items: Seq<Item>, collapsed: Set<Seq<char>>, n: int)
    requires
        0 <= n <= view.len(),
    ensures
        forall|k: int|
            0 <= k < unfolded(view, items, collapsed, n).len() ==> view.contains(
                #[trigger] unfolded(view, items, collapsed, n)[k],
            ) && !collapsed.contains(items[unfolded(view, items, collapsed, n)[k] as int].bucket@),
    decreases n,
{
    if n > 0 {
        lemma_unfolded(view, items, collapsed, n - 1);
        assert(view.contains(view[n - 1]));
    }
}

/// What the folds leave is part of the view.
pub proof fn lemma_folded(a: App)
    ensures
        forall|k: int| 0 <= k < folded(a).len() ==> a.view@.contains(#[trigger] folded(a)[k]),
        a.view@.len() > 0 ==> folded(a).len() > 0,
{
    lemma_unfolded(a.view@, a.items@, a.collapsed@, a.view@.len() as int);
    assert forall|k: int| 0 <= k < folded(a).len() implies a.view@.contains(#[trigger] folded(a)[k]) by {
        if folded(a) == a.view@ {
            assert(a.view@[k] == folded(a)[k]);
        }
    }
}

pub fn folded_view(app: &App) -> (r: Vec<usize>)
    requires
        app.show_groups && app.collapsed@ != Set::<Seq<char>>::empty() ==> view_in(app.view@, app.items@),
    ensures
        r@ == folded(*app),
{
    let mut all: Vec<usize> = Vec::new();
    for n in 0..app.view.len()
        invariant
            all@ == app.view@.take(n as int),
    {
        all.push(app.view[n]);
        assert(app.view@.take(n + 1) == app.view@.take(n as int).push(app.view@[n as int]));
    }
    assert(app.view@.take(app.view@.len() as int) == app.view@);
    if !app.show_groups || app.collapsed.is_empty() {
        return all;
    }
    let mut left: Vec<usize> = Vec::new();
    for n in 0..app.view.len()
        invariant
            view_in(app.view@, app.items@),
            left@ == unfolded(app.view@, app.items@, app.collapsed@, n as int),
    {
        let i: usize = app.view[n];
        if !app.collapsed.contains(&app.items[i].bucket) {
            left.push(i);
        }
    }
    if left.len() == 0 {
        all
    } else {
        left
    }
}

/// The first item that is shown.
pub fn first_visible(app: &App) -> (r: usize)
    requires
        app.view@.len() > 0,
        app.show_groups && app.collapsed@ != Set::<Seq<char>>::empty() ==> view_in(app.view@, app.items@),
    ensures
        r == folded(*app)[0],
        app.view@.contains(r),
{
    proof {
        lemma_folded(*app);
    }
    folded_view(app)[0]
}

/// The last item that is shown.
pub fn last_visible(app: &App) -> (r: usize)
    requires
        app.view@.len() > 0,
        app.show_groups && app.collapsed@ != Set::<Seq<char>>::empty() ==> view_in(app.view@, app.items@),
    ensures
        r == folded(*app).last(),
        app.view@.contains(r),
{
    proof {
        lemma_folded(*app);
    }
    let v = folded_view(app);
    v[v.len() - 1]
}

/// The labels of the first `n` entries of the symbol ledger, by bucket.
pub open spec fn ledger_labels(ledger: Seq<LedgerEntry>, n: int) -> Map<Seq<char>, Seq<char>>
    decreases n,
{
    if n <= 0 {
        Map::empty()
    } else {
        ledger_labels(ledger, n - 1).insert("L"@ + decimal(n - 1), ledger_text(ledger[n - 1]))
    }
}

/// What the bucket headers say in ledger mode.
pub open spec fn ledger_headers(ledger: Seq<LedgerEntry>) -> Map<Seq<char>, Seq<char>> {
    ledger_labels(ledger, ledger.len() as int).insert("L-"@, "no symbol changed"@)
}

fn ledger_groups(ledger: &[LedgerEntry]) -> (r: TextMap<String>)
    ensures
        map_texts(r@) == ledger_headers(ledger@),
{
    let mut m: TextMap<String> = TextMap::new();
    assert(map_texts(m@) =~= ledger_labels(ledger@, 0));
    for i in 0..ledger.len()
        invariant
            map_texts(m@) == ledger_labels(ledger@, i as int),
    {
        let ghost before = m@;
        let label = ledger_label(&ledger[i]);
        let key = "L".to_owned().concat(&number(i));
        m.insert(key, label);
        assert(map_texts(m@) =~= map_texts(before).insert(key@, label@));
    }
    let ghost before = m@;
    m.insert("L-".to_owned(), "no symbol changed".to_owned());
    assert(map_texts(m@) =~= map_texts(before).insert("L-"@, "no symbol changed"@));
    m
}

pub fn copy_map(m: &TextMap<String>) -> (r: TextMap<String>)
    ensures
        r@ == m@,
{
    let mut out: TextMap<String> = TextMap::new();
    let ghost all = m.entries@;
    for i in 0..m.entries.len()
        invariant
            all == m.entries@,
            out@ == crate::textmap::entries_map(all.take(i as int)),
    {
        assert(all.take(i + 1).drop_last() == all.take(i as int));
        let e = &m.entries[i];
        out.insert(e.0.clone(), e.1.clone());
    }
    assert(all.take(m.entries@.len() as int) == all);
    out
}

/// Whether an item differs from another in its bucket alone.
pub open spec fn rebucketed(was: Item, is: Item, mode: ViewMode) -> bool {
    is == (Item { bucket: is.bucket, ..was }) && is.bucket@ == bucket_text(mode, was.ledger, was.group@)
}

/// Switches what the list is a list of: every item moves to its bucket of that
/// mode, the headers follow, and nothing stays folded.
pub fn set_mode(app: &mut App, mode: ViewMode, ledger: &[LedgerEntry])
    ensures
        final(app).items@.len() == old(app).items@.len(),
        forall|i: int|
            0 <= i < old(app).items@.len() ==> rebucketed(
                old(app).items@[i],
                #[trigger] final(app).items@[i],
                mode,
            ),
        final(app).collapsed@ == Set::<Seq<char>>::empty(),
        mode == ViewMode::Ledger ==> map_texts(final(app).groups@) == ledger_headers(ledger@),
        mode == ViewMode::Hunks ==> final(app).groups@ == old(app).group_reasons@,
        *final(app) == (App {
            mode,
            items: final(app).items,
            groups: final(app).groups,
            show_groups: mode == ViewMode::Ledger || old(app).show_groups,
            collapsed: final(app).collapsed,
            ..*old(app)
        }),
{
    let ghost start = *app;
    app.mode = mode;
    let n: usize = app.items.len();
    for i in 0..n
        invariant
            n == app.items@.len(),
            app.items@.len() == start.items@.len(),
            *app == (App { mode, items: app.items, ..start }),
            forall|k: int| 0 <= k < i ==> rebucketed(start.items@[k], #[trigger] app.items@[k], mode),
            forall|k: int| i <= k < n ==> #[trigger] app.items@[k] == start.items@[k],
    {
        let bucket = bucket_key(mode, app.items[i].ledger, &app.items[i].group);
        app.items[i].bucket = bucket;
        assert(app.items@[i as int] == (Item { bucket: app.items@[i as int].bucket, ..start.items@[i as int] }));
    }
    if mode == ViewMode::Ledger {
        app.groups = ledger_groups(ledger);
        app.show_groups = true;
    } else {
        app.groups = copy_map(&app.group_reasons);
    }
    app.collapsed.clear();
}

/// Switching the mode keeps the session in order.
pub proof fn law_switching_the_mode_keeps_the_review(a: App, b: App, mode: ViewMode)
    requires
        a.wf(),
        b.items@.len() == a.items@.len(),
        forall|i: int| 0 <= i < a.items@.len() ==> rebucketed(a.items@[i], #[trigger] b.items@[i], mode),
        b == (App {
            mode,
            items: b.items,
            groups: b.groups,
            show_groups: b.show_groups,
            collapsed: b.collapsed,
            ..a
        }),
    ensures
        b.wf(),
        b.view@ == a.view@,
        b.sel == a.sel,
{
    lemma_rebucketed_view(a.items@, b.items@, mode, a.comments_only, a.show_all, crate::state::filter_globs(a.path_filter), a.items@.len() as int);
    let w = choose|w: int| 0 <= w < a.view@.len() && a.view@[w] == a.sel;
    assert(a.view@[w] < a.items@.len());
    assert(rebucketed(a.items@[a.sel as int], b.items@[a.sel as int], mode));
    assert(b.path() == a.path());
    assert(b.lines() == a.lines());
    assert forall|i: int, j: int|
        0 <= i < b.items@.len() && 0 <= j < b.items@[i].edges@.len() && (
        #[trigger] b.items@[i].edges@[j]).target is Some implies b.items@[i].edges@[j].target->0 < b.items@.len() by {
        assert(rebucketed(a.items@[i], b.items@[i], mode));
        assert(a.items@[i].edges@[j].target is Some);
    }
    assert forall|i: int| 0 <= i < b.items@.len() implies item_fits(#[trigger] b.items@[i]) by {
        assert(rebucketed(a.items@[i], b.items@[i], mode));
        assert(item_fits(a.items@[i]));
    }
    assert(b.placed(b.cursor) == a.placed(a.cursor));
    if let Some(s) = a.search {
        assert forall|k: int| 0 <= k < s.matches@.len() implies b.found(#[trigger] s.matches@[k]) by {
            assert(a.found(s.matches@[k]));
        }
    }
}

proof fn lemma_rebucketed_view(
    a: Seq<Item>,
    b: Seq<Item>,
    mode: ViewMode,
    comments_only: bool,
    show_all: bool,
    glob: Option<crate::filter::PathGlobs>,
    n: int,
)
    requires
        a.len() == b.len(),
        0 <= n <= a.len(),
        forall|i: int| 0 <= i < a.len() ==> rebucketed(a[i], #[trigger] b[i], mode),
    ensures
        crate::view::visible_items(a, comments_only, show_all, glob, n) == crate::view::visible_items(
            b,
            comments_only,
            show_all,
            glob,
            n,
        ),
    decreases n,
{
    if n > 0 {
        lemma_rebucketed_view(a, b, mode, comments_only, show_all, glob, n - 1);
        assert(rebucketed(a[n - 1], b[n - 1], mode));
    }
}

/// The buckets of all the items.
pub open spec fn all_buckets(items: Seq<Item>) -> Set<Seq<char>> {
    Set::new(|b: Seq<char>| exists|i: int| 0 <= i < items.len() && (#[trigger] items[i]).bucket@ == b)
}

/// What is folded after a fold command, `here` being the selected item's bucket.
pub open spec fn folds_after(collapsed: Set<Seq<char>>, here: Seq<char>, items: Seq<Item>, how: Fold) -> Set<
    Seq<char>,
> {
    match how {
        Fold::Toggle => if collapsed.contains(here) {
            collapsed.remove(here)
        } else {
            collapsed.insert(here)
        },
        Fold::Close => collapsed.insert(here),
        Fold::Open => collapsed.remove(here),
        Fold::CloseAll => all_buckets(items),
        Fold::OpenAll => Set::empty(),
    }
}

/// Whether every item of a view is folded away.
pub open spec fn all_folded(view: Seq<usize>, items: Seq<Item>, collapsed: Set<Seq<char>>) -> bool {
    forall|k: int| 0 <= k < view.len() ==> collapsed.contains(items[#[trigger] view[k] as int].bucket@)
}

/// The first entry at or behind `from` that is no smaller than `sel`, else the
/// last entry.
pub open spec fn next_shown(shown: Seq<usize>, sel: usize, from: int) -> usize
    decreases shown.len() - from,
{
    if from >= shown.len() {
        shown.last()
    } else if shown[from] >= sel {
        shown[from]
    } else {
        next_shown(shown, sel, from + 1)
    }
}

/// The session after a fold command: the headers are on, and the selection
/// steps off a bucket that was folded, unless all of them are.
pub open spec fn fold_done(a: App, b: App) -> bool {
    let c = App { show_groups: true, collapsed: b.collapsed, ..a };
    if !all_folded(a.view@, a.items@, b.collapsed@) && b.collapsed@.contains(
        a.items@[a.sel as int].bucket@,
    ) {
        b == selected(c, next_shown(folded(c), a.sel, 0))
    } else {
        b == c
    }
}

pub proof fn lemma_next_shown(shown: Seq<usize>, sel: usize, from: int)
    requires
        shown.len() > 0,
        0 <= from,
    ensures
        shown.contains(next_shown(shown, sel, from)),
    decreases shown.len() - from,
{
    if from < shown.len() && shown[from] < sel {
        lemma_next_shown(shown, sel, from + 1);
    } else if from < shown.len() {
        assert(shown[from] == next_shown(shown, sel, from));
    } else {
        assert(shown[shown.len() - 1] == next_shown(shown, sel, from));
    }
}

fn is_all_folded(app: &App) -> (r: bool)
    requires
        view_in(app.view@, app.items@),
    ensures
        r == all_folded(app.view@, app.items@, app.collapsed@),
{
    for k in 0..app.view.len()
        invariant
            view_in(app.view@, app.items@),
            forall|j: int|
                0 <= j < k ==> app.collapsed@.contains(app.items@[#[trigger] app.view@[j] as int].bucket@),
    {
        let i: usize = app.view[k];
        if !app.collapsed.contains(&app.items[i].bucket) {
            assert(app.view@[k as int] == i);
            return false;
        }
    }
    true
}

/// Folds the selected item's bucket, or all of them.
pub fn fold(app: &mut App, how: Fold)
    requires
        old(app).wf(),
        old(app).prompt is None,
    ensures
        final(app).collapsed@ == folds_after(
            old(app).collapsed@,
            old(app).items@[old(app).sel as int].bucket@,
            old(app).items@,
            how,
        ),
        fold_done(*old(app), *final(app)),
        final(app).wf(),
{
    let ghost start = *app;
    proof {
        let w = choose|w: int| 0 <= w < start.view@.len() && start.view@[w] == start.sel;
        assert(start.view@[w] < start.items@.len());
    }
    app.show_groups = true;
    let here = app.items[app.sel].bucket.clone();
    match how {
        Fold::Toggle => {
            if app.collapsed.contains(&here) {
                app.collapsed.remove(&here);
            } else {
                app.collapsed.insert(here);
            }
        },
        Fold::Close => {
            app.collapsed.insert(here);
        },
        Fold::Open => {
            app.collapsed.remove(&here);
        },
        Fold::CloseAll => {
            let mut all = TextSet::new();
            for i in 0..app.items.len()
                invariant
                    forall|b: Seq<char>| #[trigger]
                        all@.contains(b) <==> exists|k: int|
                            0 <= k < i && (#[trigger] app.items@[k]).bucket@ == b,
            {
                let ghost had = all@;
                all.insert(app.items[i].bucket.clone());
                assert forall|b: Seq<char>| #[trigger] all@.contains(b) <==> exists|k: int|
                    0 <= k < i + 1 && (#[trigger] app.items@[k]).bucket@ == b by {
                    if had.contains(b) {
                        let k = choose|k: int| 0 <= k < i && (#[trigger] app.items@[k]).bucket@ == b;
                        assert(app.items@[k].bucket@ == b);
                    }
                    if b == app.items@[i as int].bucket@ {
                        assert(app.items@[i as int].bucket@ == b);
                    }
                    if exists|k: int| 0 <= k < i + 1 && (#[trigger] app.items@[k]).bucket@ == b {
                        let k = choose|k: int| 0 <= k < i + 1 && (#[trigger] app.items@[k]).bucket@ == b;
                        if k < i {
                            assert(had.contains(b));
                        }
                    }
                }
            }
            app.collapsed = all;
            assert(app.collapsed@ =~= all_buckets(start.items@));
        },
        Fold::OpenAll => {
            app.collapsed.clear();
        },
    }
    let ghost mid = *app;
    assert(mid == (App { show_groups: true, collapsed: mid.collapsed, ..start }));
    assert(mid.wf()) by {
        assert(mid.path() == start.path());
        assert(mid.lines() == start.lines());
        if let Some(s) = start.search {
            assert forall|k: int| 0 <= k < s.matches@.len() implies mid.found(#[trigger] s.matches@[k]) by {
                assert(start.found(s.matches@[k]));
            }
        }
    }
    if !is_all_folded(app) && app.collapsed.contains(&app.items[app.sel].bucket) {
        let shown = folded_view(app);
        proof {
            lemma_folded(mid);
            lemma_next_shown(folded(mid), mid.sel, 0);
        }
        let mut k: usize = 0;
        while k < shown.len() && shown[k] < app.sel
            invariant
                k <= shown@.len(),
                shown@ == folded(mid),
                *app == mid,
                next_shown(folded(mid), mid.sel, 0) == next_shown(folded(mid), mid.sel, k as int),
            decreases shown@.len() - k,
        {
            k = k + 1;
        }
        let to: usize = if k < shown.len() {
            shown[k]
        } else {
            shown[shown.len() - 1]
        };
        proof {
            let f = folded(mid);
            let w = choose|w: int| 0 <= w < f.len() && f[w] == to;
            assert(mid.view@.contains(f[w]));
            lemma_selected(mid, to);
        }
        select(app, to);
    }
}

/// Folding never leaves the selection on a hunk that is folded away, unless all
/// of them are.
pub proof fn law_folding_steps_off_the_fold(a: App, b: App)
    requires
        a.wf(),
        fold_done(a, b),
        !all_folded(a.view@, a.items@, b.collapsed@),
    ensures
        !b.collapsed@.contains(b.items@[b.sel as int].bucket@),
{
    let c = App { show_groups: true, collapsed: b.collapsed, ..a };
    if b.collapsed@.contains(a.items@[a.sel as int].bucket@) {
        let shown = folded(c);
        lemma_folded(c);
        lemma_unfolded(a.view@, a.items@, b.collapsed@, a.view@.len() as int);
        let left = unfolded(a.view@, a.items@, b.collapsed@, a.view@.len() as int);
        let k = choose|k: int|
            0 <= k < a.view@.len() && !b.collapsed@.contains(a.items@[#[trigger] a.view@[k] as int].bucket@);
        lemma_unfolded_holds(a.view@, a.items@, b.collapsed@, a.view@.len() as int, k);
        assert(left.len() > 0);
        assert(c.collapsed@ != Set::<Seq<char>>::empty());
        assert(shown == left);
        lemma_next_shown(shown, a.sel, 0);
        let w = choose|w: int| 0 <= w < left.len() && left[w] == next_shown(shown, a.sel, 0);
        assert(!b.collapsed@.contains(a.items@[left[w] as int].bucket@));
    }
}

proof fn lemma_unfolded_holds(view: Seq<usize>, items: Seq<Item>, collapsed: Set<Seq<char>>, n: int, k: int)
    requires
        0 <= k < n <= view.len(),
        !collapsed.contains(items[view[k] as int].bucket@),
    ensures
        unfolded(view, items, collapsed, n).len() > 0,
    decreases n,
{
    if k < n - 1 {
        lemma_unfolded_holds(view, items, collapsed, n - 1, k);
    }
}

/// A motion of the code cursor.
#[derive(Clone, Copy, PartialEq, Eq, Debug, Structural)]
pub enum Motion {
    Col(isize),
    Line(isize),
    LineStart,
    LineEnd,
    WordNext,
    WordPrev,
    WordEnd,
    ParaPrev,
    ParaNext,
}

/// The place at an index of the flattened lines.
pub open spec fn cursor_at_index(lines: Seq<Seq<char>>, to: int) -> Cursor {
    if flat(lines).len() == 0 {
        Cursor { line: 0, col: 0 }
    } else {
        Cursor { line: place_at(lines, to, 0).0 as usize, col: place_at(lines, to, 0).1 as usize }
    }
}

/// Where a motion leads.
pub open spec fn moved_cursor(m: Motion, c: Cursor, lines: Seq<Seq<char>>) -> Cursor {
    match m {
        Motion::Col(d) => Cursor {
            line: c.line,
            col: clamped(c.col + d, 0, last_col(lines[c.line as int])) as usize,
        },
        Motion::Line(d) => {
            let line = clamped(c.line + d, 0, lines.len() - 1);
            Cursor { line: line as usize, col: clamped(c.col as int, 0, last_col(lines[line])) as usize }
        },
        Motion::LineStart => Cursor { line: c.line, col: 0 },
        Motion::LineEnd => Cursor { line: c.line, col: last_col(lines[c.line as int]) as usize },
        Motion::WordNext => cursor_at_index(lines, next_word(flat(lines), start_index(lines, c))),
        Motion::WordPrev => cursor_at_index(lines, prev_word(flat(lines), start_index(lines, c))),
        Motion::WordEnd => cursor_at_index(lines, end_word(flat(lines), start_index(lines, c))),
        Motion::ParaPrev => Cursor {
            line: if c.line == 0 {
                0
            } else {
                blank_up(lines, c.line - 1) as usize
            },
            col: 0,
        },
        Motion::ParaNext => Cursor {
            line: clamped(blank_down(lines, c.line + 1), 0, lines.len() - 1) as usize,
            col: 0,
        },
    }
}

/// Moves a place.
pub fn move_cursor(m: Motion, c: Cursor, lines: &[String]) -> (r: Cursor)
    requires
        c.line < lines@.len(),
        c.col <= lines@[c.line as int]@.len(),
        line_offset(texts(lines@), lines@.len() as int) <= usize::MAX,
    ensures
        r == moved_cursor(m, c, texts(lines@)),
{
    let ghost ts = texts(lines@);
    proof {
        assert(ts[c.line as int] == lines@[c.line as int]@);
        lemma_line_fits(ts, c.line as int);
        lemma_file_bounds(ts, lines@.len() as int);
    }
    match m {
        Motion::Col(d) => move_col(c, lines, d),
        Motion::Line(d) => {
            let r = move_line(c, lines, d);
            assert(ts[r.line as int] == lines@[r.line as int]@);
            r
        },
        Motion::LineStart => line_start(c, lines),
        Motion::LineEnd => line_end(c, lines),
        Motion::WordNext => word_next(c, lines),
        Motion::WordPrev => word_prev(c, lines),
        Motion::WordEnd => word_end(c, lines),
        Motion::ParaPrev => para_prev(c, lines),
        Motion::ParaNext => para_next(c, lines),
    }
}

/// The session with the cursor put on a place, scrolled to show it.
pub open spec fn put_cursor(a: App, c: Cursor) -> App {
    App {
        cursor: c,
        scroll: followed(c.line as int, a.scroll as int, a.code_height as int) as u16,
        hscroll: followed(c.col as int, a.hscroll as int, a.code_width as int) as u16,
        ..a
    }
}

pub fn show_cursor(app: &mut App, c: Cursor)
    requires
        c.line < usize::MAX,
        c.col < usize::MAX,
    ensures
        *final(app) == put_cursor(*old(app), c),
{
    app.cursor = c;
    app.scroll = follow_scroll(c.line, app.scroll, app.code_height);
    app.hscroll = follow_hscroll(c.col, app.hscroll, app.code_width);
}

/// The session after a motion of the code cursor; nothing moves where the file
/// is not known or empty.
pub open spec fn cursor_moved(a: App, m: Motion) -> App {
    if a.lines().len() == 0 {
        a
    } else {
        put_cursor(a, clamped_cursor(moved_cursor(m, a.cursor, a.lines()), a.lines()))
    }
}

pub proof fn lemma_put_cursor(a: App, c: Cursor)
    requires
        a.wf(),
        a.placed(c),
    ensures
        put_cursor(a, c).wf(),
{
    let b = put_cursor(a, c);
    assert(b.path() == a.path());
    assert(b.lines() == a.lines());
    if let Some(s) = a.search {
        assert forall|k: int| 0 <= k < s.matches@.len() implies b.found(#[trigger] s.matches@[k]) by {
            assert(a.found(s.matches@[k]));
        }
    }
}

/// A place that was clamped to the selected file is in it.
pub proof fn lemma_clamped_placed(a: App, c: Cursor)
    requires
        a.items_wf(),
        a.lines().len() > 0,
    ensures
        a.placed(clamped_cursor(c, a.lines())),
{
    let f = a.sources@[a.path()];
    assert(file_fits(f));
    let r = clamped_cursor(c, a.lines());
    lemma_file_bounds(a.lines(), a.lines().len() as int);
    assert(a.lines().len() <= usize::MAX);
    let line = clamped(c.line as int, 0, a.lines().len() - 1);
    lemma_line_fits(a.lines(), line);
    assert(r.line == line);
}

pub proof fn lemma_sel(a: App)
    requires
        a.view_wf(),
    ensures
        a.sel < a.items@.len(),
{
    let w = choose|w: int| 0 <= w < a.view@.len() && a.view@[w] == a.sel;
    assert(a.view@[w] < a.items@.len());
}

/// Moves the code cursor.
pub fn cursor_move(app: &mut App, m: Motion)
    requires
        old(app).wf(),
    ensures
        *final(app) == cursor_moved(*old(app), m),
        final(app).wf(),
{
    proof {
        lemma_sel(*app);
    }
    let ghost start = *app;
    let to = match app.sources.get(&app.items[app.sel].path) {
        Some(file) => {
            if file.1.len() == 0 {
                None
            } else {
                proof {
                    assert(start.lines() == texts(file.1@));
                    assert(file_fits(*file));
                    assert(start.lines()[start.cursor.line as int] == file.1@[start.cursor.line as int]@);
                }
                Some(clamp_cursor(move_cursor(m, app.cursor, &file.1), &file.1))
            }
        },
        None => None,
    };
    if let Some(c) = to {
        proof {
            lemma_clamped_placed(start, moved_cursor(m, start.cursor, start.lines()));
            lemma_put_cursor(start, c);
        }
        show_cursor(app, c);
    }
}

/// The session after the cursor of the why pane moved.
pub open spec fn why_moved(a: App, by: int) -> App {
    let to = scroll_by(a.why_sel as u16 as int, by, a.why_len as int);
    App {
        why_sel: to as usize,
        why_scroll: followed(to, a.why_scroll as int, a.why_height as int) as u16,
        ..a
    }
}

/// Moves the line that the why pane is on.
pub fn why_cursor_move(app: &mut App, by: isize)
    ensures
        *final(app) == why_moved(*old(app), by as int),
{
    app.why_sel = scrolled(app.why_sel as u16, by, app.why_len) as usize;
    app.why_scroll = follow_scroll(app.why_sel, app.why_scroll, app.why_height);
}

/// The session after a step of one line in the focused pane.
pub open spec fn stepped(a: App, by: int) -> App {
    match a.focus {
        Pane::List => {
            let shown = folded(a);
            selected(a, shown[clamped(place_of(shown, a.sel) + by, 0, shown.len() - 1)])
        },
        Pane::Code => cursor_moved(a, Motion::Line(by as isize)),
        Pane::Why => why_moved(a, by),
    }
}

pub proof fn lemma_same_code(a: App, b: App)
    requires
        a.wf(),
        b.items == a.items,
        b.reviewed@.len() == a.reviewed@.len(),
        b.view == a.view,
        b.sel == a.sel,
        b.comments_only == a.comments_only,
        b.show_all == a.show_all,
        b.path_filter == a.path_filter,
        b.sources == a.sources,
        b.cursor == a.cursor,
        b.prompt == a.prompt,
        b.search == a.search,
        b.command == a.command,
    ensures
        b.wf(),
{
    assert(b.path() == a.path());
    assert(b.lines() == a.lines());
    if let Some(s) = a.search {
        assert forall|k: int| 0 <= k < s.matches@.len() implies b.found(#[trigger] s.matches@[k]) by {
            assert(a.found(s.matches@[k]));
        }
    }
}

/// One line on, in the pane that has the focus.
pub fn step(app: &mut App, by: isize)
    requires
        old(app).wf(),
        old(app).prompt is None,
    ensures
        *final(app) == stepped(*old(app), by as int),
        final(app).wf(),
{
    let ghost start = *app;
    match app.focus {
        Pane::List => {
            let shown = folded_view(app);
            let pos: usize = view_pos(&shown, app.sel);
            proof {
                lemma_folded(start);
            }
            let last: usize = shown.len() - 1;
            let to: usize = crate::cursor::moved(pos, by, last);
            proof {
                assert(start.view@.contains(folded(start)[to as int]));
                lemma_selected(start, shown@[to as int]);
            }
            select(app, shown[to]);
        },
        Pane::Code => {
            cursor_move(app, Motion::Line(by));
        },
        Pane::Why => {
            why_cursor_move(app, by);
            proof {
                lemma_same_code(start, *app);
            }
        },
    }
}

/// The session after a page: the why pane where it has the focus, else the code.
pub open spec fn paged(a: App, by: int) -> App {
    match a.focus {
        Pane::Why => App {
            why_scroll: scroll_by(a.why_scroll as int, by, a.why_len as int) as u16,
            ..a
        },
        _ => App { scroll: scroll_by(a.scroll as int, by, a.code_len as int) as u16, ..a },
    }
}

pub fn page(app: &mut App, by: isize)
    ensures
        *final(app) == paged(*old(app), by as int),
{
    match app.focus {
        Pane::Why => {
            app.why_scroll = scrolled(app.why_scroll, by, app.why_len);
        },
        _ => {
            app.scroll = scrolled(app.scroll, by, app.code_len);
        },
    }
}

/// A popup scrolled by some lines.
pub open spec fn popup_scrolled(p: Popup, by: int) -> Popup {
    Popup { scroll: scroll_by(p.scroll as int, by, p.lines@.len() as int) as u16, ..p }
}

/// A popup scrolled by some columns.
pub open spec fn popup_hscrolled(p: Popup, by: int) -> Popup {
    Popup {
        hscroll: scroll_by(
            p.hscroll as int,
            by,
            counted(widest(lines_cells(p.lines@), p.lines@.len() as int)),
        ) as u16,
        ..p
    }
}

/// Scrolls the popup by `by` lines.
pub fn popup_scroll(app: &mut App, by: isize)
    ensures
        *final(app) == (App {
            popup: match old(app).popup {
                Some(p) => Some(popup_scrolled(p, by as int)),
                None => None,
            },
            ..*old(app)
        }),
{
    if let Some(p) = app.popup.take() {
        let to = scrolled(p.scroll, by, p.lines.len());
        app.popup = Some(Popup { title: p.title, lines: p.lines, scroll: to, hscroll: p.hscroll });
    }
}

/// Scrolls the popup by `by` columns.
pub fn popup_hscroll(app: &mut App, by: isize)
    ensures
        *final(app) == (App {
            popup: match old(app).popup {
                Some(p) => Some(popup_hscrolled(p, by as int)),
                None => None,
            },
            ..*old(app)
        }),
{
    if let Some(p) = app.popup.take() {
        let wide: usize = popup_width(&p.lines);
        let to = scrolled(p.hscroll, by, wide);
        app.popup = Some(Popup { title: p.title, lines: p.lines, scroll: p.scroll, hscroll: to });
    }
}

/// How many jumps are remembered.
pub const JUMP_STACK_CAP: usize = 50;

/// The jumps with one more; the oldest makes room for it.
pub open spec fn pushed(stack: Seq<(usize, Cursor)>, pos: (usize, Cursor)) -> Seq<(usize, Cursor)> {
    if stack.len() >= JUMP_STACK_CAP {
        stack.skip(1).push(pos)
    } else {
        stack.push(pos)
    }
}

pub fn stack_push(stack: &mut Vec<(usize, Cursor)>, pos: (usize, Cursor))
    ensures
        final(stack)@ == pushed(old(stack)@, pos),
{
    if stack.len() >= JUMP_STACK_CAP {
        let ghost had = stack@;
        let _oldest = stack.remove(0);
        assert(stack@ =~= had.skip(1));
    }
    stack.push(pos);
}

/// How many jumps are left after the latest that leads to one of `n` items was
/// taken; none where there is no such jump.
pub open spec fn valid_top(stack: Seq<(usize, Cursor)>, n: int) -> Option<int>
    decreases stack.len(),
{
    if stack.len() == 0 {
        None
    } else if stack.last().0 < n {
        Some(stack.len() - 1)
    } else {
        valid_top(stack.drop_last(), n)
    }
}

/// Takes the latest jump that leads to one of `n_items` items, and those above
/// it.
pub fn stack_pop_valid(stack: &mut Vec<(usize, Cursor)>, n_items: usize) -> (r: Option<(usize, Cursor)>)
    ensures
        match valid_top(old(stack)@, n_items as int) {
            Some(k) => 0 <= k < old(stack)@.len() && r == Some(old(stack)@[k]) && final(stack)@ == old(stack)@.take(k),
            None => r is None && final(stack)@.len() == 0,
        },
        r matches Some(p) ==> p.0 < n_items,
        final(stack)@.len() <= old(stack)@.len(),
{
    let ghost start = stack@;
    assert(start.take(start.len() as int) == start);
    while stack.len() > 0
        invariant
            start == old(stack)@,
            stack@.len() <= start.len(),
            stack@ == start.take(stack@.len() as int),
            valid_top(start, n_items as int) == valid_top(stack@, n_items as int),
        decreases stack@.len(),
    {
        let ghost had = stack@;
        let last: usize = stack.len() - 1;
        let pos = stack[last];
        let _top = stack.pop();
        assert(stack@ == had.drop_last());
        assert(stack@ == start.take(last as int));
        if pos.0 < n_items {
            return Some(pos);
        }
    }
    None
}

/// What was pushed last is popped first, and the jumps below it are as before.
pub proof fn law_a_jump_leads_back(stack: Seq<(usize, Cursor)>, pos: (usize, Cursor), n: int)
    requires
        pos.0 < n,
    ensures
        ({
            let after = pushed(stack, pos);
            valid_top(after, n) == Some(after.len() - 1) && after.last() == pos
        }),
        stack.len() < JUMP_STACK_CAP ==> pushed(stack, pos).drop_last() == stack,
        stack.len() <= JUMP_STACK_CAP ==> pushed(stack, pos).len() <= JUMP_STACK_CAP,
{
    assert(stack.len() < JUMP_STACK_CAP ==> pushed(stack, pos).drop_last() =~= stack);
}

/// What is told of the selected item.
pub open spec fn told_of(a: App) -> Told {
    Told {
        note: note_text(a.notes@, a.items@[a.sel as int]),
        out_of_order: out_of_order(a.items@, a.reviewed@, a.sel as int),
        delta: delta_text(a.deltas@, a.sel as int),
        cascade: cascade_text(
            a.items@,
            stranded_in(a.items@, a.view@, a.sel as int, a.view@.len() as int),
        ),
    }
}

/// The lines of the why pane.
pub open spec fn why_content(a: App) -> Seq<WhyText> {
    why_of(a.items@[a.sel as int], a.view@, a.theme, told_of(a))
}

pub fn why_pane(app: &App) -> (r: Vec<crate::why::WhyRow>)
    requires
        app.items_wf(),
        app.sel < app.items@.len(),
    ensures
        why_texts(r@) == why_content(*app),
{
    let cascade = cascade_line(app, app.sel);
    let cascade_str = match &cascade {
        Some(c) => Some(c.as_str()),
        None => None,
    };
    why_rows(
        &app.items[app.sel],
        &app.view,
        &app.theme,
        note_for(app, app.sel),
        &out_of_order_labels(app, app.sel),
        delta_line(app, app.sel),
        cascade_str,
    )
}

/// The dependency on the line that the why pane is on; none where that line is
/// no dependency.
pub open spec fn edge_under(a: App) -> Option<Option<usize>> {
    let rows = why_content(a);
    if a.why_sel < rows.len() {
        match rows[a.why_sel as int].kind {
            WhyKind::Edge(t) => Some(t),
            WhyKind::Text => None,
        }
    } else {
        None
    }
}

pub fn edge_at_cursor(app: &App) -> (r: Option<Option<usize>>)
    requires
        app.items_wf(),
        app.sel < app.items@.len(),
    ensures
        r == edge_under(*app),
{
    let rows = why_pane(app);
    assert(why_texts(rows@).len() == rows@.len());
    if app.why_sel < rows.len() {
        assert(why_texts(rows@)[app.why_sel as int] == rows@[app.why_sel as int].text());
        match rows[app.why_sel].kind {
            WhyKind::Edge(t) => Some(t),
            WhyKind::Text => None,
        }
    } else {
        None
    }
}

/// A dependency that the why pane leads to is an item in view.
pub proof fn lemma_edge_in_view(a: App)
    requires
        a.items_wf(),
        a.sel < a.items@.len(),
    ensures
        edge_under(a) matches Some(Some(t)) ==> a.view@.contains(t) && t < a.items@.len(),
{
    if let Some(Some(t)) = edge_under(a) {
        let rows = why_content(a);
        let it = a.items@[a.sel as int];
        let told = told_of(a);
        lemma_why_edges(it, a.view@, a.theme, told, a.why_sel as int);
        let e = choose|e: int|
            0 <= e < it.edges@.len() && crate::why::shown_target(#[trigger] it.edges@[e], a.view@) == Some(t);
        assert(a.items@[a.sel as int].edges@[e].target == Some(t));
    }
}

proof fn lemma_why_edges(it: Item, view: Seq<usize>, theme: crate::theme::Theme, told: Told, k: int)
    requires
        0 <= k < why_of(it, view, theme, told).len(),
        why_of(it, view, theme, told)[k].kind is Edge,
    ensures
        exists|e: int|
            0 <= e < it.edges@.len() && WhyKind::Edge(crate::why::shown_target(#[trigger] it.edges@[e], view))
                == why_of(it, view, theme, told)[k].kind,
{
    let edges = crate::why::edge_rows(it.edges@, view, theme);
    let tail = crate::why::all_advisory_rows(it.advisories@, theme, it.advisories@.len() as int);
    let whole = why_of(it, view, theme, told);
    lemma_advisory_kinds(it.advisories@, theme, it.advisories@.len() as int);
    let at = whole.len() - tail.len() - edges.len();
    if k >= at + edges.len() {
        assert(whole[k] == tail[k - at - edges.len()]);
    } else if k >= at {
        assert(whole[k] == edges[k - at]);
        let e = k - at;
        assert(WhyKind::Edge(crate::why::shown_target(it.edges@[e], view)) == whole[k].kind);
    }
}

proof fn lemma_advisory_kinds(advisories: Seq<crate::model::Advisory>, theme: crate::theme::Theme, n: int)
    requires
        0 <= n <= advisories.len(),
    ensures
        forall|k: int|
            0 <= k < crate::why::all_advisory_rows(advisories, theme, n).len() ==> (
            #[trigger] crate::why::all_advisory_rows(advisories, theme, n)[k]).kind == WhyKind::Text,
    decreases n,
{
    if n > 0 {
        lemma_advisory_kinds(advisories, theme, n - 1);
    }
}

/// The lines of a preview of an item.
pub open spec fn preview_lines(a: App, t: usize) -> Seq<Seq<Cell>> {
    let it = a.items@[t as int];
    let n0 = it.new_range[0] as int;
    seq![text_cells(place_text(it), Style::plain())] + (if it.rationale@ != "change"@ {
        seq![
            text_cells(""@, Style::plain()),
            text_cells("reason: "@ + it.rationale@, Style::of(a.theme.border_focus)),
        ]
    } else {
        Seq::empty()
    }) + (if a.sources@.dom().contains(it.path@) && 1 <= n0 <= a.sources@[it.path@].1@.len() {
        seq![text_cells(""@, Style::plain())] + excerpt_rows(
            texts(a.sources@[it.path@].1@),
            highlights_of(a.highlights@, it.path@),
            n0,
            it.new_range[1] as int,
            a.theme,
        )
    } else {
        Seq::empty()
    })
}

/// What previewing a dependency shows.
pub open spec fn preview_popup(a: App, target: Option<usize>) -> crate::state::PopupText {
    match target {
        None => prose_popup(
            "dep"@,
            seq![
                "the referenced change isn't part of this review"@,
                "(excluded by a glob, --only-comments, or a file not sent to ordo)"@,
            ],
        ),
        Some(t) => fresh_popup("dep"@, preview_lines(a, t)),
    }
}

fn push_line(lines: &mut Vec<Line>, line: Line)
    ensures
        lines_cells(final(lines)@) == lines_cells(old(lines)@).push(cells(line@)),
{
    let ghost had = lines_cells(lines@);
    lines.push(line);
    assert(lines_cells(lines@) =~= had.push(cells(line@)));
}

fn styled_line(text: String, style: Style) -> (r: Line)
    ensures
        cells(r@) == text_cells(text@, style),
{
    let mut out: Vec<Span> = Vec::new();
    let sp = Span { content: text, style };
    proof {
        crate::paint::lemma_cells_push(out@, sp);
    }
    out.push(sp);
    assert(cells(out@) =~= text_cells(text@, style));
    out
}

/// Shows the hunk that the why pane's line leads to, without leaving the
/// selected one.
pub fn preview_edge(app: &mut App)
    requires
        old(app).wf(),
    ensures
        *final(app) == (App { popup: final(app).popup, ..*old(app) }),
        match edge_under(*old(app)) {
            None => final(app).popup == old(app).popup,
            Some(target) => popup_text(final(app).popup) == Some(preview_popup(*old(app), target)),
        },
        final(app).wf(),
{
    let ghost start = *app;
    proof {
        lemma_sel(start);
        lemma_edge_in_view(start);
    }
    let target = match edge_at_cursor(app) {
        Some(t) => t,
        None => {
            return;
        },
    };
    let t = match target {
        Some(t) => t,
        None => {
            let mut lines: Vec<String> = Vec::new();
            lines.push("the referenced change isn't part of this review".to_owned());
            lines.push("(excluded by a glob, --only-comments, or a file not sent to ordo)".to_owned());
            assert(texts(lines@) =~= seq![
                "the referenced change isn't part of this review"@,
                "(excluded by a glob, --only-comments, or a file not sent to ordo)"@,
            ]);
            app.popup = Some(prose_box("dep", lines));
            proof {
                lemma_same_code(start, *app);
            }
            return;
        },
    };
    let it = &app.items[t];
    let mut lines: Vec<Line> = Vec::new();
    assert(lines_cells(lines@) =~= Seq::<Seq<Cell>>::empty());
    push_line(&mut lines, prose(place_label(it)));
    let ghost first = lines_cells(lines@);
    assert(first =~= seq![text_cells(place_text(*it), Style::plain())]);
    if !same(&it.rationale, "change") {
        push_line(&mut lines, prose("".to_owned()));
        push_line(
            &mut lines,
            styled_line("reason: ".to_owned().concat(&it.rationale), Style::of(app.theme.border_focus)),
        );
    }
    let ghost reason = if it.rationale@ != "change"@ {
        seq![
            text_cells(""@, Style::plain()),
            text_cells("reason: "@ + it.rationale@, Style::of(app.theme.border_focus)),
        ]
    } else {
        Seq::empty()
    };
    assert(lines_cells(lines@) =~= first + reason);
    let ghost so_far = lines_cells(lines@);
    let n0: usize = it.new_range[0];
    let mut shown = false;
    if let Some(file) = app.sources.get(&it.path) {
        if n0 >= 1 && n0 <= file.1.len() {
            shown = true;
            push_line(&mut lines, prose("".to_owned()));
            let hl = app.highlights.get(&it.path);
            let mut rows = excerpt(&file.1, hl, n0, it.new_range[1], &app.theme);
            let ghost had = lines@;
            let ghost more = rows@;
            lines.append(&mut rows);
            assert(lines_cells(lines@) =~= lines_cells(had) + lines_cells(more));
            assert(lines_cells(lines@) =~= so_far + (seq![text_cells(""@, Style::plain())] + excerpt_rows(
                texts(file.1@),
                highlights_of(app.highlights@, it.path@),
                n0 as int,
                it.new_range[1] as int,
                app.theme,
            )));
        }
    }
    proof {
        if !shown {
            assert(lines_cells(lines@) =~= so_far + Seq::<Seq<Cell>>::empty());
        }
        assert(lines_cells(lines@) == preview_lines(start, t));
    }
    app.popup = Some(Popup::new("dep".to_owned(), lines));
    proof {
        lemma_same_code(start, *app);
    }
}

/// The session after a jump to the dependency on the why pane's line.
pub open spec fn jumped_to_edge(a: App, jumps: Vec<(usize, Cursor)>, t: usize) -> App {
    App { focus: Pane::Code, ..selected(App { jumps, ..a }, t) }
}

/// Goes to the hunk that the why pane's line leads to, and remembers the way
/// back. Nothing happens on a line that leads nowhere.
pub fn jump_to_edge(app: &mut App)
    requires
        old(app).wf(),
        old(app).prompt is None,
    ensures
        match edge_under(*old(app)) {
            Some(Some(t)) => final(app).jumps@ == pushed(old(app).jumps@, (old(app).sel, old(app).cursor))
                && *final(app) == jumped_to_edge(*old(app), final(app).jumps, t),
            _ => *final(app) == *old(app),
        },
        final(app).wf(),
{
    let ghost start = *app;
    proof {
        lemma_sel(start);
        lemma_edge_in_view(start);
    }
    if let Some(Some(t)) = edge_at_cursor(app) {
        let here = (app.sel, app.cursor);
        stack_push(&mut app.jumps, here);
        let ghost mid = *app;
        proof {
            lemma_same_code(start, mid);
            lemma_selected(mid, t);
        }
        select(app, t);
        let ghost there = *app;
        app.focus = Pane::Code;
        proof {
            lemma_same_code(there, *app);
        }
    }
}

/// The place of the latest jump that leads to an item in view.
pub open spec fn jump_source(stack: Seq<(usize, Cursor)>, view: Seq<usize>, n: int) -> Option<int>
    decreases stack.len(),
{
    if stack.len() == 0 {
        None
    } else if stack.last().0 < n && view.contains(stack.last().0) {
        Some(stack.len() - 1)
    } else {
        jump_source(stack.drop_last(), view, n)
    }
}

/// The session after a jump back to a place.
pub open spec fn jumped_back(a: App, jumps: Vec<(usize, Cursor)>, pos: (usize, Cursor)) -> App {
    let there = selected(App { jumps, ..a }, pos.0);
    App {
        cursor: if there.lines().len() > 0 {
            clamped_cursor(pos.1, there.lines())
        } else {
            there.cursor
        },
        focus: Pane::Code,
        ..there
    }
}

proof fn lemma_valid_top(stack: Seq<(usize, Cursor)>, n: int)
    ensures
        valid_top(stack, n) matches Some(k) ==> 0 <= k < stack.len(),
    decreases stack.len(),
{
    if stack.len() > 0 {
        lemma_valid_top(stack.drop_last(), n);
    }
}

proof fn lemma_jump_source_skips(stack: Seq<(usize, Cursor)>, view: Seq<usize>, n: int, k: int)
    requires
        valid_top(stack, n) == Some(k),
        !view.contains(stack[k].0),
    ensures
        jump_source(stack, view, n) == jump_source(stack.take(k), view, n),
        0 <= k < stack.len(),
    decreases stack.len(),
{
    lemma_valid_top(stack.drop_last(), n);
    if stack.len() > 0 {
        if stack.last().0 < n {
            assert(stack.take(k) =~= stack.drop_last());
        } else {
            lemma_jump_source_skips(stack.drop_last(), view, n, k);
            assert(stack.take(k) =~= stack.drop_last().take(k));
        }
    }
}

proof fn lemma_jump_source_here(stack: Seq<(usize, Cursor)>, view: Seq<usize>, n: int, k: int)
    requires
        valid_top(stack, n) == Some(k),
        view.contains(stack[k].0),
    ensures
        jump_source(stack, view, n) == Some(k),
    decreases stack.len(),
{
    lemma_valid_top(stack.drop_last(), n);
    if stack.len() > 0 && stack.last().0 >= n {
        lemma_jump_source_here(stack.drop_last(), view, n, k);
    }
}

proof fn lemma_jump_source_none(stack: Seq<(usize, Cursor)>, view: Seq<usize>, n: int)
    requires
        valid_top(stack, n) is None,
    ensures
        jump_source(stack, view, n) is None,
    decreases stack.len(),
{
    if stack.len() > 0 {
        lemma_jump_source_none(stack.drop_last(), view, n);
    }
}

/// Goes back to where the latest jump was made, those left out that lead to
/// nothing in view.
pub fn jump_back(app: &mut App)
    requires
        old(app).wf(),
        old(app).prompt is None,
    ensures
        match jump_source(old(app).jumps@, old(app).view@, old(app).items@.len() as int) {
            Some(k) => 0 <= k < old(app).jumps@.len() && final(app).jumps@ == old(app).jumps@.take(k)
                && *final(app) == jumped_back(*old(app), final(app).jumps, old(app).jumps@[k]),
            None => final(app).jumps@.len() == 0 && *final(app) == (App {
                jumps: final(app).jumps,
                ..*old(app)
            }),
        },
        final(app).wf(),
{
    let ghost start = *app;
    let ghost stack = app.jumps@;
    let ghost n = app.items@.len() as int;
    assert(stack.take(stack.len() as int) =~= stack);
    let mut found: Option<(usize, Cursor)> = None;
    let mut done = false;
    while !done
        invariant
            n == start.items@.len(),
            stack == start.jumps@,
            *app == (App { jumps: app.jumps, ..start }),
            app.jumps@.len() <= stack.len(),
            app.jumps@ == stack.take(app.jumps@.len() as int),
            !done ==> found is None && jump_source(stack, start.view@, n) == jump_source(
                app.jumps@,
                start.view@,
                n,
            ),
            done ==> match found {
                Some(p) => jump_source(stack, start.view@, n) == Some(app.jumps@.len() as int) && app.jumps@.len()
                    < stack.len() && p == stack[app.jumps@.len() as int] && start.view@.contains(p.0),
                None => jump_source(stack, start.view@, n) is None && app.jumps@.len() == 0,
            },
        decreases (if done {
            0
        } else {
            app.jumps@.len() + 1
        }),
    {
        let ghost had = app.jumps@;
        let n_items: usize = app.items.len();
        match stack_pop_valid(&mut app.jumps, n_items) {
            Some(p) => {
                let ghost k = valid_top(had, n)->0;
                assert(app.jumps@ =~= stack.take(k));
                if in_view(&app.view, p.0) {
                    proof {
                        lemma_jump_source_here(had, start.view@, n, k);
                    }
                    found = Some(p);
                    done = true;
                } else {
                    proof {
                        lemma_jump_source_skips(had, start.view@, n, k);
                        assert(had.take(k) =~= stack.take(k));
                    }
                }
            },
            None => {
                proof {
                    lemma_jump_source_none(had, start.view@, n);
                }
                done = true;
            },
        }
    }
    let ghost mid = *app;
    proof {
        lemma_same_code(start, mid);
    }
    if let Some((to, cursor)) = found {
        proof {
            lemma_selected(mid, to);
        }
        select(app, to);
        let ghost there = *app;
        let place = match app.sources.get(&app.items[to].path) {
            Some(file) => {
                if file.1.len() > 0 {
                    assert(there.lines() == texts(file.1@));
                    Some(clamp_cursor(cursor, &file.1))
                } else {
                    None
                }
            },
            None => None,
        };
        if let Some(c) = place {
            proof {
                lemma_clamped_placed(there, cursor);
                assert(there.search is None && there.prompt is None);
            }
            app.cursor = c;
            assert(app.path() == there.path());
            assert(app.lines() == there.lines());
            assert(app.wf());
        }
        let ghost placed = *app;
        app.focus = Pane::Code;
        proof {
            lemma_same_code(placed, *app);
        }
    }
}

} // verus!
