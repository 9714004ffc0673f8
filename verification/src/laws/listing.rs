//! What is in view, what is hidden and why, and how the list shows it.

use crate::filter::{glob_matches, set_patterns, PathGlobs};
use crate::model::{FileLines, Item};
use crate::text::decimal;
use crate::view::{
    bucket_count, bucket_text, cursor_at, grouped_rows, hidden_for, hunk_start,
    law_a_view_is_the_visible_items_in_order, place_of, reason, row_count, rows_shown, scroll_for, view_of, visible,
    Reason, RowText, ViewMode,
};
use vstd::prelude::*;

verus! {

/// Whether a path filter lets a path through: it matches something that is
/// wanted, where anything is, and nothing that is not.
pub open spec fn lets_through(g: PathGlobs, path: Seq<char>) -> bool {
    &&& g.wanted matches Some(s) ==> exists|i: int|
        0 <= i < set_patterns(s).len() && glob_matches(#[trigger] set_patterns(s)[i], path)
    &&& g.unwanted matches Some(s) ==> forall|i: int|
        0 <= i < set_patterns(s).len() ==> !glob_matches(#[trigger] set_patterns(s)[i], path)
}

/// An item is in view exactly where it is a comment, if only comments are shown;
/// no noise, unless all is shown; and let through by the path filter, if there is
/// one. The view keeps the reading order.
pub proof fn law_the_filters_decide_what_is_in_view(
    items: Seq<Item>,
    comments_only: bool,
    show_all: bool,
    glob: Option<PathGlobs>,
    i: int,
)
    requires
        0 <= i < items.len() <= usize::MAX,
    ensures
        view_of(items, comments_only, show_all, glob).contains(i as usize) <==> (comments_only ==> items[i].comment) && (
        items[i].noise ==> show_all) && (glob is Some ==> lets_through(glob->0, items[i].path@)),
        forall|a: int, b: int|
            0 <= a < b < view_of(items, comments_only, show_all, glob).len() ==> (#[trigger] view_of(
                items,
                comments_only,
                show_all,
                glob,
            )[a]) < (#[trigger] view_of(items, comments_only, show_all, glob)[b]) < items.len(),
{
    law_a_view_is_the_visible_items_in_order(items, comments_only, show_all, glob);
    let view = view_of(items, comments_only, show_all, glob);
    if view.contains(i as usize) {
        let k = choose|k: int| 0 <= k < view.len() && view[k] == i as usize;
        assert(visible(items[view[k] as int], comments_only, show_all, glob));
    }
    assert(visible(items[i], comments_only, show_all, glob) <==> (comments_only ==> items[i].comment) && (items[i].noise
        ==> show_all) && (glob is Some ==> lets_through(glob->0, items[i].path@)));
}

/// What is hidden is hidden for one reason: not being a comment comes first, noise
/// second, the path filter last. Each item counts once, under its reason.
pub proof fn law_what_is_hidden_has_one_reason(
    items: Seq<Item>,
    comments_only: bool,
    show_all: bool,
    glob: Option<PathGlobs>,
    n: int,
)
    requires
        0 < n <= items.len(),
    ensures
        ({
            let it = items[n - 1];
            let kept = glob is None || lets_through(glob->0, it.path@);
            let by_comment = comments_only && !it.comment;
            let by_noise = !by_comment && it.noise && !show_all;
            let by_glob = !by_comment && !by_noise && !kept;
            let more = |why: Reason| -> int {
                hidden_for(items, comments_only, show_all, glob, why, n) - hidden_for(
                    items,
                    comments_only,
                    show_all,
                    glob,
                    why,
                    n - 1,
                )
            };
            &&& more(Reason::Comment) == (if by_comment {
                1int
            } else {
                0
            })
            &&& more(Reason::Noise) == (if by_noise {
                1int
            } else {
                0
            })
            &&& more(Reason::Glob) == (if by_glob {
                1int
            } else {
                0
            })
        }),
        forall|why: Reason| #[trigger] hidden_for(items, comments_only, show_all, glob, why, 0) == 0,
{
    let it = items[n - 1];
    assert(glob is Some ==> (glob->0.keeps(it.path@) <==> lets_through(glob->0, it.path@)));
}

/// The list groups by group where it shows hunks, and by entry of the symbol
/// ledger where it shows symbols: two items are together exactly where that is the
/// same.
pub proof fn law_buckets_are_groups_or_ledger_entries(a: Option<usize>, b: Option<usize>, group: Seq<char>, other: Seq<char>)
    ensures
        bucket_text(ViewMode::Hunks, a, group) == bucket_text(ViewMode::Hunks, b, other) <==> group == other,
        bucket_text(ViewMode::Ledger, a, group) == bucket_text(ViewMode::Ledger, b, other) <==> a == b,
{
    reveal_strlit("L");
    reveal_strlit("L-");
    let x = bucket_text(ViewMode::Ledger, a, group);
    let y = bucket_text(ViewMode::Ledger, b, other);
    assert("L-"@[1] == '-');
    if a is Some {
        crate::text::lemma_decimal_round_trip(a->0 as nat);
        assert(x.skip(1) =~= decimal(a->0 as int));
        assert(x[1] == decimal(a->0 as int)[0]);
    }
    if b is Some {
        crate::text::lemma_decimal_round_trip(b->0 as nat);
        assert(y.skip(1) =~= decimal(b->0 as int));
        assert(y[1] == decimal(b->0 as int)[0]);
    }
    if x == y && a is Some && b is Some {
        assert(crate::text::parsed_number(decimal(a->0 as int), 10, usize::MAX as int) == Some(a->0 as int));
        assert(crate::text::parsed_number(decimal(b->0 as int), 10, usize::MAX as int) == Some(b->0 as int));
    }
}

/// How many of the entries of a view are in a bucket.
pub open spec fn members(view: Seq<usize>, items: Seq<Item>, bucket: Seq<char>) -> nat {
    view.filter(|i: usize| items[i as int].bucket@ == bucket).len()
}

proof fn lemma_members(view: Seq<usize>, items: Seq<Item>, bucket: Seq<char>, n: int)
    requires
        0 <= n <= view.len(),
    ensures
        bucket_count(view, items, bucket, n) == members(view.take(n), items, bucket),
    decreases n,
{
    reveal(Seq::filter);
    if n > 0 {
        lemma_members(view, items, bucket, n - 1);
        assert(view.take(n).drop_last() =~= view.take(n - 1));
    }
}

/// Where a run of items of one bucket starts, a header stands: folded or open, the
/// reason that the group is one, and how many of the items in view are in it.
pub proof fn law_a_run_starts_with_its_header(
    view: Seq<usize>,
    items: Seq<Item>,
    groups: Map<Seq<char>, String>,
    collapsed: Set<Seq<char>>,
    k: int,
)
    requires
        0 <= k < view.len(),
        k == 0 || items[view[k] as int].bucket@ != items[view[k - 1] as int].bucket@,
    ensures
        ({
            let rows = rows_shown(view, items, groups, true, collapsed);
            let at = row_count(view, items, collapsed, k);
            let bucket = items[view[k] as int].bucket@;
            &&& 0 <= at < rows.len()
            &&& rows[at] == RowText::Header(
                (if collapsed.contains(bucket) {
                    "▸ "@
                } else {
                    "▾ "@
                }) + (if groups.dom().contains(bucket) {
                    groups[bucket]@
                } else {
                    bucket
                }) + " ("@ + decimal(members(view, items, bucket) as int) + ")"@,
            )
            &&& !collapsed.contains(bucket) ==> at + 1 < rows.len() && rows[at + 1] == RowText::Item(view[k])
        }),
{
    let n = view.len() as int;
    lemma_rows_grow(view, items, groups, collapsed, k + 1, n);
    lemma_rows_len(view, items, groups, collapsed, k);
    lemma_rows_len(view, items, groups, collapsed, k + 1);
    lemma_rows_len(view, items, groups, collapsed, n);
    lemma_members(view, items, items[view[k] as int].bucket@, n);
    assert(view.take(n) =~= view);
    reveal_strlit("▸ ");
    reveal_strlit("▾ ");
    reveal_strlit("▸");
    reveal_strlit("▾");
    reveal_strlit(" ");
    assert("▸"@ + " "@ =~= "▸ "@);
    assert("▾"@ + " "@ =~= "▾ "@);
}

proof fn lemma_rows_len(
    view: Seq<usize>,
    items: Seq<Item>,
    groups: Map<Seq<char>, String>,
    collapsed: Set<Seq<char>>,
    n: int,
)
    requires
        0 <= n <= view.len(),
    ensures
        grouped_rows(view, items, groups, collapsed, n).len() == row_count(view, items, collapsed, n),
    decreases n,
{
    if n > 0 {
        lemma_rows_len(view, items, groups, collapsed, n - 1);
    }
}

proof fn lemma_rows_grow(
    view: Seq<usize>,
    items: Seq<Item>,
    groups: Map<Seq<char>, String>,
    collapsed: Set<Seq<char>>,
    a: int,
    b: int,
)
    requires
        0 <= a <= b <= view.len(),
    ensures
        grouped_rows(view, items, groups, collapsed, a).len() <= grouped_rows(view, items, groups, collapsed, b).len(),
        forall|r: int|
            0 <= r < grouped_rows(view, items, groups, collapsed, a).len() ==> #[trigger] grouped_rows(
                view,
                items,
                groups,
                collapsed,
                b,
            )[r] == grouped_rows(view, items, groups, collapsed, a)[r],
    decreases b,
{
    if a < b {
        lemma_rows_grow(view, items, groups, collapsed, a, b - 1);
    }
}

/// A folded bucket hides its items: an item has a row only where its bucket is
/// open, and only items in view have one.
pub proof fn law_a_folded_bucket_hides_its_items(
    view: Seq<usize>,
    items: Seq<Item>,
    groups: Map<Seq<char>, String>,
    collapsed: Set<Seq<char>>,
    n: int,
    r: int,
)
    requires
        0 <= n <= view.len(),
        0 <= r < grouped_rows(view, items, groups, collapsed, n).len(),
    ensures
        grouped_rows(view, items, groups, collapsed, n)[r] matches RowText::Item(i) ==> view.contains(i)
            && !collapsed.contains(items[i as int].bucket@),
    decreases n,
{
    if n > 0 && r < grouped_rows(view, items, groups, collapsed, n - 1).len() {
        law_a_folded_bucket_hides_its_items(view, items, groups, collapsed, n - 1, r);
    }
}

/// Without headers the rows are the items in view.
pub proof fn law_without_groups_the_rows_are_the_view(
    view: Seq<usize>,
    items: Seq<Item>,
    groups: Map<Seq<char>, String>,
    collapsed: Set<Seq<char>>,
    k: int,
)
    requires
        0 <= k < view.len(),
    ensures
        rows_shown(view, items, groups, false, collapsed).len() == view.len(),
        rows_shown(view, items, groups, false, collapsed)[k] == RowText::Item(view[k]),
{
}

/// A hunk opens with its first new line on the fourth row, or as near to it as the
/// top of the file lets it come; its cursor is on that line.
pub proof fn law_a_hunk_opens_near_the_top(it: Item)
    ensures
        ({
            let removed = if 1 <= it.old_range[0] <= it.old_range[1] {
                it.old_range[1] - it.old_range[0] + 1
            } else {
                0
            };
            let first: int = if it.new_range[0] == 0 {
                0
            } else {
                it.new_range[0] - 1
            };
            &&& first + removed > 3 ==> first + removed - scroll_for(it) == 3
            &&& first + removed <= 3 ==> scroll_for(it) == 0
            &&& hunk_start(it).line == first
            &&& hunk_start(it).col == 0
        }),
{
}

/// The cursor of an item is on the first line of its hunk, where the file has that
/// line, and on a line of the file in any case.
pub proof fn law_a_cursor_starts_on_its_hunk(it: Item, sources: Map<Seq<char>, FileLines>)
    requires
        sources.dom().contains(it.path@),
        sources[it.path@].1@.len() > 0,
    ensures
        cursor_at(it, sources).line < sources[it.path@].1@.len(),
        cursor_at(it, sources).col == 0,
        1 <= it.new_range[0] <= sources[it.path@].1@.len() ==> cursor_at(it, sources).line == it.new_range[0] - 1,
{
}

/// The place of an item in view is the first one where it stands.
pub proof fn law_the_place_of_an_item_is_where_it_stands(view: Seq<usize>, k: int)
    requires
        0 <= k < view.len(),
        forall|j: int| 0 <= j < k ==> view[j] != view[k],
    ensures
        place_of(view, view[k]) == k,
{
    lemma_first_place(view, view[k], 0, k);
}

proof fn lemma_first_place(view: Seq<usize>, sel: usize, from: int, k: int)
    requires
        0 <= from <= k < view.len(),
        view[k] == sel,
        forall|j: int| 0 <= j < k ==> view[j] != sel,
    ensures
        crate::view::first_place(view, sel, from) == k,
    decreases k - from,
{
    if from < k {
        lemma_first_place(view, sel, from + 1, k);
    }
}

} // verus!
