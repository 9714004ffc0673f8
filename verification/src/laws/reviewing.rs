//! A review is made of what the engine gave and of what was kept.

use crate::code_view::Highlights;
use crate::filter::Ledger;
use crate::identity::{mark_of, snap_in, snap_text, Delta, Snap};
use crate::load::{also_painted, review_made, with_new_side, Kept, LoadResult, Times};
use crate::model::{Item, Output, Sources};
use crate::reorder::{all_marked, ChangeText};
use crate::theme::{Color, Syntax};
use vstd::prelude::*;

verus! {

/// Of the marks that were kept those count that are not older than ninety days,
/// with the time they were made.
pub proof fn law_old_marks_are_dropped(
    r: LoadResult,
    moved: bool,
    snaps: Map<Seq<char>, Snap>,
    rev: Seq<char>,
    sources: Sources,
    highlights: Highlights,
    ledger: Ledger,
    files: int,
    out: Output,
    items: Seq<Item>,
    kept: Kept,
    now: u64,
    t: Times,
    key: u64,
)
    requires
        review_made(r, moved, snaps, rev, sources, highlights, ledger, files, out, items, kept, now, t),
    ensures
        r.marks@.dom().contains(key) <==> kept.marks@.dom().contains(key) && now - kept.marks@[key] <= 90 * 24 * 60
            * 60,
        r.marks@.dom().contains(key) ==> r.marks@[key] == kept.marks@[key],
{
}

/// A hunk comes up as reviewed exactly if a mark on it was kept and is not too
/// old.
pub proof fn law_a_hunk_comes_up_reviewed_where_a_mark_was_kept(
    r: LoadResult,
    moved: bool,
    snaps: Map<Seq<char>, Snap>,
    rev: Seq<char>,
    sources: Sources,
    highlights: Highlights,
    ledger: Ledger,
    files: int,
    out: Output,
    items: Seq<Item>,
    kept: Kept,
    now: u64,
    t: Times,
    i: int,
)
    requires
        review_made(r, moved, snaps, rev, sources, highlights, ledger, files, out, items, kept, now, t),
        0 <= i < items.len(),
    ensures
        r.reviewed@.len() == items.len(),
        r.reviewed@[i] <==> mark_of(rev, items[i], sources@) is Some && kept.marks@.dom().contains(
            mark_of(rev, items[i], sources@)->0,
        ) && now - kept.marks@[mark_of(rev, items[i], sources@)->0] <= 90 * 24 * 60 * 60,
{
    assert(r.reviewed@ == all_marked(rev, items, sources@, r.marks@));
}

/// A hunk is new exactly if nothing was remembered of it; and what is shown is
/// what was given, in its order.
pub proof fn law_a_hunk_nothing_was_remembered_of_is_new(
    r: LoadResult,
    moved: bool,
    snaps: Map<Seq<char>, Snap>,
    rev: Seq<char>,
    sources: Sources,
    highlights: Highlights,
    ledger: Ledger,
    files: int,
    out: Output,
    items: Seq<Item>,
    kept: Kept,
    now: u64,
    t: Times,
    i: int,
)
    requires
        review_made(r, moved, snaps, rev, sources, highlights, ledger, files, out, items, kept, now, t),
        0 <= i < items.len(),
    ensures
        r.items@ == items,
        r.sources == sources,
        r.highlights == highlights,
        r.symbol_ledger == out.ledger,
        r.deltas@[i] == Delta::New <==> !kept.snaps@.dom().contains(snap_text(items[i])),
        r.marks_path == kept.marks_path && r.notes_path == kept.notes_path,
{
    let key = snap_text(items[i]);
    assert(r.deltas@[i] == crate::identity::delta_of(snap_in(kept.snaps@, key), snap_in(snaps, key)->0));
}

proof fn lemma_new_sides(changes: Seq<ChangeText>, n: int, i: usize)
    requires
        0 <= n <= changes.len() <= usize::MAX,
    ensures
        with_new_side(changes, n).contains(i) <==> i < n && changes[i as int].new is Some,
    decreases n,
{
    if n > 0 {
        lemma_new_sides(changes, n - 1, i);
        let before = with_new_side(changes, n - 1);
        let w = before.push((n - 1) as usize);
        assert(w[before.len() as int] == (n - 1) as usize);
        if before.contains(i) {
            let k = choose|k: int| 0 <= k < before.len() && before[k] == i;
            assert(w[k] == i);
        }
        if w.contains(i) {
            let k = choose|k: int| 0 <= k < w.len() && w[k] == i;
            assert(k == before.len() || before[k] == i);
        }
    }
}

/// The files that are highlighted are those that are still there.
pub proof fn law_files_that_are_there_are_highlighted(changes: Seq<ChangeText>, i: usize)
    requires
        changes.len() <= usize::MAX,
        i < changes.len(),
    ensures
        with_new_side(changes, changes.len() as int).contains(i) <==> changes[i as int].new is Some,
{
    lemma_new_sides(changes, changes.len() as int, i);
}

/// Highlighting a file paints its new side, and leaves every other file as it
/// was.
pub proof fn law_a_file_is_painted_by_its_new_side(
    m: Map<Seq<char>, Seq<Seq<(Seq<char>, Color)>>>,
    c: ChangeText,
    syn: Syntax,
    other: Seq<char>,
)
    requires
        other != c.path,
    ensures
        c.new is None ==> also_painted(m, c, syn) == m,
        c.new matches Some(src) ==> (crate::highlight::file_painted(c.path, src, syn) matches Some(lines) ==> also_painted(
            m,
            c,
            syn,
        ).dom().contains(c.path) && also_painted(m, c, syn)[c.path] == lines),
        also_painted(m, c, syn).dom().contains(other) <==> m.dom().contains(other),
        m.dom().contains(other) ==> also_painted(m, c, syn)[other] == m[other],
{
}

} // verus!
