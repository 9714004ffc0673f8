//! Ordering a review anew, and finishing what a command left to do outside.

use crate::editor::{distinct, distinct_of};
use crate::execute::{popped, unit_text};
use crate::identity::{mark_key, mark_of};
use crate::items::{
    build_items, group_reasons, items_of, lemma_items_in_order, map_texts, output_fits, reasons_of,
};
use crate::links::{draft_rule, drafted};
use crate::model::{FileLines, Item, Output, Sources};
use crate::session::{lemma_same_code, lemma_sel, lemma_selected, select, selected};
use crate::state::{filter_globs, items_fit, lemma_view_in, prose_box, prose_line, prose_popup, App};
use crate::text::{join, joined, option_text, sort, sorted_texts, texts};
use crate::view::{compute_view, view_of};
use std::collections::HashMap;
use vstd::prelude::*;

verus! {

broadcast use vstd::std_specs::hash::group_hash_axioms;

/// One file for the engine: its text before and after.
pub struct Change {
    pub path: String,
    pub old: Option<String>,
    pub new: Option<String>,
}

/// The same, as text.
pub ghost struct ChangeText {
    pub path: Seq<char>,
    pub old: Option<Seq<char>>,
    pub new: Option<Seq<char>>,
}

impl Change {
    pub open spec fn text(self) -> ChangeText {
        ChangeText { path: self.path@, old: option_text(self.old), new: option_text(self.new) }
    }
}

pub open spec fn change_texts(v: Seq<Change>) -> Seq<ChangeText> {
    Seq::new(v.len(), |i: int| v[i].text())
}

/// The paths of the files under review, each once, in order.
pub open spec fn source_paths(sources: Sources) -> Seq<Seq<char>> {
    sorted_texts(distinct(Seq::new(sources.entries@.len(), |i: int| sources.entries@[i].0@)))
}

/// The change that a file's lines make.
pub open spec fn change_of(path: Seq<char>, f: FileLines) -> ChangeText {
    ChangeText {
        path,
        old: Some(joined(texts(f.0@), "\n"@)),
        new: Some(joined(texts(f.1@), "\n"@)),
    }
}

/// The files under review, as the engine takes them, by path.
pub open spec fn changes_of(sources: Sources) -> Seq<ChangeText> {
    let paths = source_paths(sources);
    Seq::new(paths.len(), |i: int| change_of(paths[i], sources@[paths[i]]))
}

/// The files under review, as the engine takes them, by path.
pub fn changes_from_sources(sources: &Sources) -> (r: Vec<Change>)
    ensures
        change_texts(r@) == changes_of(*sources),
{
    let mut keys: Vec<String> = Vec::new();
    let ghost all = Seq::new(sources.entries@.len(), |i: int| sources.entries@[i].0@);
    for i in 0..sources.entries.len()
        invariant
            all == Seq::new(sources.entries@.len(), |i: int| sources.entries@[i].0@),
            texts(keys@) == all.take(i as int),
    {
        let ghost had = texts(keys@);
        keys.push(sources.entries[i].0.clone());
        assert(texts(keys@) =~= had.push(all[i as int]));
        assert(all.take(i + 1) =~= all.take(i as int).push(all[i as int]));
    }
    assert(all.take(sources.entries@.len() as int) =~= all);
    let paths = sort(distinct_of(&keys));
    let ghost ps = source_paths(*sources);
    assert(texts(paths@) == ps);
    let mut out: Vec<Change> = Vec::new();
    for i in 0..paths.len()
        invariant
            ps == source_paths(*sources),
            texts(paths@) == ps,
            all == Seq::new(sources.entries@.len(), |i: int| sources.entries@[i].0@),
            change_texts(out@) == changes_of(*sources).take(i as int),
    {
        let ghost had = change_texts(out@);
        assert(ps[i as int] == paths@[i as int]@);
        proof {
            lemma_sorted_holds(distinct(all), ps[i as int]);
            crate::editor::lemma_distinct_contains(all);
            assert(ps.contains(ps[i as int]));
            let k = choose|k: int| 0 <= k < all.len() && all[k] == ps[i as int];
            crate::textmap::lemma_entries_has(sources.entries@, k);
        }
        if let Some(f) = sources.get(&paths[i]) {
            let c = Change {
                path: paths[i].clone(),
                old: Some(join(&f.0, "\n")),
                new: Some(join(&f.1, "\n")),
            };
            out.push(c);
            assert(change_texts(out@) =~= had.push(changes_of(*sources)[i as int]));
        }
        assert(changes_of(*sources).take(i + 1) =~= changes_of(*sources).take(i as int).push(
            changes_of(*sources)[i as int],
        ));
    }
    assert(texts(paths@).len() == paths@.len());
    assert(changes_of(*sources).take(paths@.len() as int) =~= changes_of(*sources));
    out
}

/// Sorting loses nothing and adds nothing.
proof fn lemma_sorted_holds(s: Seq<Seq<char>>, x: Seq<char>)
    ensures
        sorted_texts(s).contains(x) ==> s.contains(x),
{
    crate::text::lemma_text_order_total();
    s.lemma_sort_by_ensures(crate::text::text_order());
    let t = sorted_texts(s);
    if t.contains(x) {
        broadcast use vstd::seq_lib::group_to_multiset_ensures;

        assert(t.to_multiset().contains(x));
        assert(s.to_multiset().contains(x));
    }
}

/// Whether a review is marked as reviewed by the marks that are kept.
pub open spec fn marked(rev: Seq<char>, it: Item, sources: Map<Seq<char>, FileLines>, marks: Map<u64, u64>) -> bool {
    match mark_of(rev, it, sources) {
        Some(k) => marks.dom().contains(k),
        None => false,
    }
}

pub open spec fn all_marked(
    rev: Seq<char>,
    items: Seq<Item>,
    sources: Map<Seq<char>, FileLines>,
    marks: Map<u64, u64>,
) -> Seq<bool> {
    Seq::new(items.len(), |i: int| marked(rev, items[i], sources, marks))
}

/// Which items are reviewed, by the marks that are kept.
pub fn reviewed_by_marks(rev: &str, items: &[Item], sources: &Sources, marks: &HashMap<u64, u64>) -> (r: Vec<bool>)
    ensures
        r@ == all_marked(rev@, items@, sources@, marks@),
{
    let mut out: Vec<bool> = Vec::new();
    let ghost all = all_marked(rev@, items@, sources@, marks@);
    for i in 0..items.len()
        invariant
            all == all_marked(rev@, items@, sources@, marks@),
            out@ == all.take(i as int),
    {
        let hit = match mark_key(rev, &items[i], sources) {
            Some(k) => marks.contains_key(&k),
            None => false,
        };
        out.push(hit);
        assert(all.take(i + 1) =~= all.take(i as int).push(all[i as int]));
    }
    assert(all.take(items@.len() as int) =~= all);
    out
}

/// The name of a strategy.
pub open spec fn strategy_name(s: crate::commands::Strategy) -> Seq<char> {
    match s {
        crate::commands::Strategy::Comprehension => "comprehension"@,
        crate::commands::Strategy::DefsFirst => "defs-first"@,
        crate::commands::Strategy::File => "file"@,
    }
}

pub fn strategy_label(s: crate::commands::Strategy) -> (r: &'static str)
    ensures
        r@ == strategy_name(s),
{
    match s {
        crate::commands::Strategy::Comprehension => "comprehension",
        crate::commands::Strategy::DefsFirst => "defs-first",
        crate::commands::Strategy::File => "file",
    }
}

/// The session with the items of another order, before one is selected.
pub open spec fn reordered(a: App, b: App, out: Output, name: Seq<char>, c: App) -> bool {
    &&& items_of(c.items@, out, out.order@.len() as int)
    &&& c.reviewed@ == all_marked(a.rev@, c.items@, a.sources@, a.marks@)
    &&& c.view@ == view_of(c.items@, a.comments_only, a.show_all, filter_globs(a.path_filter))
    &&& map_texts(c.groups@) == reasons_of(out, out.groups@.len() as int)
    &&& c.jumps@.len() == 0
    &&& c.strategy@ == name
    &&& c == (App {
        items: c.items,
        reviewed: c.reviewed,
        view: c.view,
        groups: c.groups,
        jumps: c.jumps,
        popup: None,
        search: None,
        strategy: c.strategy,
        ..a
    })
    &&& b == selected(c, c.view@[0])
}

/// Whether a session took on another order, or why not.
pub open spec fn strategy_done(a: App, b: App, out: Output, name: Seq<char>, r: Result<(), Seq<char>>) -> bool {
    match r {
        Err(why) => b == a && exists|items: Seq<Item>| #[trigger]
            items_of(items, out, out.order@.len() as int) && ((items.len() == 0 && why
                == "that strategy leaves nothing to review"@) || (items.len() > 0 && view_of(
                items,
                a.comments_only,
                a.show_all,
                filter_globs(a.path_filter),
            ).len() == 0 && why == "that strategy leaves nothing visible under the current filters"@)),
        Ok(_) => exists|c: App| #[trigger] reordered(a, b, out, name, c) && c.view@.len() > 0,
    }
}

/// Takes on the order that the engine gave for a strategy; a review that would
/// be empty, or have nothing in view, is refused and nothing changes.
pub fn run_strategy(app: &mut App, name: &str, out: &Output) -> (r: Result<(), String>)
    requires
        old(app).wf(),
        old(app).prompt is None,
        output_fits(*out),
    ensures
        strategy_done(*old(app), *final(app), *out, name@, unit_text(r)),
        final(app).wf(),
{
    let ghost start = *app;
    let items = build_items(out);
    let order_len: usize = out.order.len();
    let items_len: usize = items.len();
    proof {
        lemma_items_in_order(items@, *out);
    }
    if items.len() == 0 {
        return Err("that strategy leaves nothing to review".to_owned());
    }
    let reviewed = reviewed_by_marks(&app.rev, &items, &app.sources, &app.marks);
    let view = {
        let glob = match &app.path_filter {
            Some(f) => Some(&f.1),
            None => None,
        };
        compute_view(&items, app.comments_only, app.show_all, glob)
    };
    if view.len() == 0 {
        return Err("that strategy leaves nothing visible under the current filters".to_owned());
    }
    proof {
        lemma_view_in(items@, start.comments_only, start.show_all, filter_globs(start.path_filter));
    }
    app.items = items;
    app.reviewed = reviewed;
    app.view = view;
    app.groups = group_reasons(out);
    app.jumps = Vec::new();
    app.popup = None;
    app.search = None;
    app.strategy = name.to_owned();
    let ghost mid = *app;
    let first: usize = app.view[0];
    proof {
        assert(mid.view@[0] == first);
        let tmp = App { sel: first, ..mid };
        assert(tmp.view@.contains(first));
        assert(selected(mid, first) == selected(tmp, first));
        assert(items_fit(mid.items@));
        lemma_selected(tmp, first);
        assert(reordered(start, selected(mid, first), *out, name@, mid));
    }
    select(app, first);
    Ok(())
}

/// Shows the draft of a rule for the selected item, `lang` being the language of
/// its file.
pub fn show_draft(app: &mut App, lang: Option<String>)
    requires
        old(app).wf(),
    ensures
        popped(
            *old(app),
            *final(app),
            prose_popup("draft rule"@, drafted(old(app).items@[old(app).sel as int], option_text(lang))),
        ),
        final(app).wf(),
{
    let ghost start = *app;
    proof {
        lemma_sel(start);
    }
    let lines = draft_rule(app, app.sel, lang);
    app.popup = Some(prose_box("draft rule", lines));
    proof {
        lemma_same_code(start, *app);
    }
}

/// Says that a revision is not known.
pub fn refuse_revision(app: &mut App, rev: &str)
    requires
        old(app).wf(),
    ensures
        popped(*old(app), *final(app), prose_popup("command"@, seq![crate::args::unknown_text(rev@)])),
        final(app).wf(),
{
    let ghost start = *app;
    let why = crate::args::unknown_revision(rev);
    app.popup = Some(prose_line("command", why));
    proof {
        lemma_same_code(start, *app);
    }
}

/// Says where the quickfix script was written.
pub fn show_quickfix_path(app: &mut App, path: &str)
    requires
        old(app).wf(),
    ensures
        popped(
            *old(app),
            *final(app),
            prose_popup("quickfix"@, seq!["wrote "@ + path@, ":source "@ + path@]),
        ),
        final(app).wf(),
{
    let ghost start = *app;
    let mut lines: Vec<String> = Vec::new();
    lines.push("wrote ".to_owned().concat(path));
    lines.push(":source ".to_owned().concat(path));
    assert(texts(lines@) =~= seq!["wrote "@ + path@, ":source "@ + path@]);
    app.popup = Some(prose_box("quickfix", lines));
    proof {
        lemma_same_code(start, *app);
    }
}

/// Says one thing in a popup.
pub fn show_message(app: &mut App, title: &str, message: String)
    requires
        old(app).wf(),
    ensures
        popped(*old(app), *final(app), prose_popup(title@, seq![message@])),
        final(app).wf(),
{
    let ghost start = *app;
    app.popup = Some(prose_line(title, message));
    proof {
        lemma_same_code(start, *app);
    }
}

} // verus!
