//! What leans on what in a review, and how far the reading has come.

use crate::identity::{dependency_keys, order_place, snap_text, Delta};
use crate::links::{
    all_done_edges, all_edges, delta_text, done_count, done_edges, drafted, limit_of, open_targets, out_of_order,
    shown_edges, stranded_in, strands,
};
use crate::model::{EdgeRef, Item};
use crate::text::decimal;
use vstd::prelude::*;

verus! {

proof fn lemma_open_targets(edges: Seq<EdgeRef>, reviewed: Seq<bool>, n: int, t: usize)
    requires
        0 <= n <= edges.len(),
    ensures
        open_targets(edges, reviewed, n).contains(t) <==> exists|e: int|
            0 <= e < n && (#[trigger] edges[e]).dependency && edges[e].target == Some(t) && !reviewed[t as int],
    decreases n,
{
    if n > 0 {
        lemma_open_targets(edges, reviewed, n - 1, t);
        let before = open_targets(edges, reviewed, n - 1);
        let all = open_targets(edges, reviewed, n);
        if before.contains(t) {
            let w = choose|w: int| 0 <= w < before.len() && before[w] == t;
            assert(all[w] == t);
            let e = choose|e: int|
                0 <= e < n - 1 && (#[trigger] edges[e]).dependency && edges[e].target == Some(t) && !reviewed[t as int];
            assert(edges[e].dependency);
        }
        if all.contains(t) {
            let w = choose|w: int| 0 <= w < all.len() && all[w] == t;
            if w < before.len() {
                assert(before[w] == t);
            } else {
                assert(edges[n - 1].dependency);
            }
        }
        if exists|e: int|
            0 <= e < n && (#[trigger] edges[e]).dependency && edges[e].target == Some(t) && !reviewed[t as int] {
            let e = choose|e: int|
                0 <= e < n && (#[trigger] edges[e]).dependency && edges[e].target == Some(t) && !reviewed[t as int];
            if e == n - 1 {
                assert(all[before.len() as int] == t);
            } else {
                assert(edges[e].dependency);
            }
        }
    }
}

/// A hunk was reviewed too early exactly where it was reviewed and something that
/// it uses was not; what it does not use does not count.
pub proof fn law_a_hunk_is_out_of_order_where_what_it_uses_is_open(items: Seq<Item>, reviewed: Seq<bool>, i: int)
    requires
        0 <= i < items.len(),
        reviewed.len() == items.len(),
    ensures
        out_of_order(items, reviewed, i).len() > 0 <==> reviewed[i] && exists|e: int|
            0 <= e < items[i].edges@.len() && (#[trigger] items[i].edges@[e]).dependency && items[i].edges@[e].target
                is Some && !reviewed[items[i].edges@[e].target->0 as int],
        forall|e: int|
            reviewed[i] && 0 <= e < items[i].edges@.len() && (#[trigger] items[i].edges@[e]).dependency
                && items[i].edges@[e].target is Some && !reviewed[items[i].edges@[e].target->0 as int]
                ==> out_of_order(items, reviewed, i).contains(
                items[items[i].edges@[e].target->0 as int].path@ + ":L"@ + decimal(
                    items[items[i].edges@[e].target->0 as int].new_range[0] as int,
                ),
            ),
{
    let edges = items[i].edges@;
    let n = edges.len() as int;
    let open = open_targets(edges, reviewed, n);
    if open.len() > 0 {
        lemma_open_targets(edges, reviewed, n, open[0]);
        assert(open.contains(open[0]));
        let e = choose|e: int|
            0 <= e < n && (#[trigger] edges[e]).dependency && edges[e].target == Some(open[0])
                && !reviewed[open[0] as int];
        assert(items[i].edges@[e].dependency);
    }
    assert forall|e: int| 0 <= e < n && (#[trigger] edges[e]).dependency && edges[e].target is Some
        && !reviewed[edges[e].target->0 as int] implies open.contains(edges[e].target->0) by {
        lemma_open_targets(edges, reviewed, n, edges[e].target->0);
    }
    assert forall|e: int|
        reviewed[i] && 0 <= e < items[i].edges@.len() && (#[trigger] items[i].edges@[e]).dependency
            && items[i].edges@[e].target is Some && !reviewed[items[i].edges@[e].target->0 as int] implies out_of_order(
        items,
        reviewed,
        i,
    ).contains(
        items[items[i].edges@[e].target->0 as int].path@ + ":L"@ + decimal(
            items[items[i].edges@[e].target->0 as int].new_range[0] as int,
        ),
    ) by {
        let t = edges[e].target->0;
        assert(open.contains(t));
        let w = choose|w: int| 0 <= w < open.len() && open[w] == t;
        assert(out_of_order(items, reviewed, i)[w] == crate::links::place_text(items[t as int]));
    }
    if reviewed[i] && exists|e: int|
        0 <= e < items[i].edges@.len() && (#[trigger] items[i].edges@[e]).dependency && items[i].edges@[e].target
            is Some && !reviewed[items[i].edges@[e].target->0 as int] {
        let e = choose|e: int|
            0 <= e < items[i].edges@.len() && (#[trigger] items[i].edges@[e]).dependency && items[i].edges@[e].target
                is Some && !reviewed[items[i].edges@[e].target->0 as int];
        assert(open.contains(edges[e].target->0));
    }
}

/// What a hunk uses directly is what rejecting strands: whoever has an edge to
/// what is rejected is stranded.
pub proof fn law_rejecting_strands_what_leans_on_it(items: Seq<Item>, i: int, j: int, e: int)
    requires
        0 <= i <= usize::MAX,
        0 <= j < items.len(),
        i != j,
        0 <= e < items[j].edges@.len(),
        items[j].edges@[e].dependency,
        items[j].edges@[e].target == Some(i as usize),
    ensures
        strands(items, i, j),
{
    let path = seq![i, j];
    assert(crate::links::depends(items, j, i)) by {
        assert(items[j].edges@[e].dependency);
    }
    assert(crate::links::dependency_path(items, path)) by {
        assert forall|k: int| 0 < k < path.len() implies crate::links::depends(
            items,
            #[trigger] path[k],
            path[k - 1],
        ) by {}
    }
    assert(path.last() == j && path[0] == i);
}

/// Nothing is stranded that uses nothing.
pub proof fn law_what_uses_nothing_is_never_stranded(items: Seq<Item>, i: int, j: int)
    requires
        0 <= j < items.len(),
        forall|e: int| 0 <= e < items[j].edges@.len() ==> !(#[trigger] items[j].edges@[e]).dependency,
    ensures
        !strands(items, i, j),
{
    if strands(items, i, j) {
        let path = choose|path: Seq<int>|
            path.len() >= 2 && path[0] == i && path.last() == j && #[trigger] crate::links::dependency_path(items, path);
        assert(crate::links::depends(items, path[path.len() - 1], path[path.len() - 2]));
    }
}

/// The list of what rejecting strands holds the stranded items in view, and no
/// others.
pub proof fn law_the_stranded_are_listed(items: Seq<Item>, view: Seq<usize>, i: int, n: int, j: usize)
    requires
        0 <= n <= view.len(),
    ensures
        stranded_in(items, view, i, n).contains(j) <==> view.take(n).contains(j) && j < items.len() && strands(
            items,
            i,
            j as int,
        ),
    decreases n,
{
    if n > 0 {
        law_the_stranded_are_listed(items, view, i, n - 1, j);
        let before = stranded_in(items, view, i, n - 1);
        let all = stranded_in(items, view, i, n);
        let had = view.take(n - 1);
        let has = view.take(n);
        assert(has =~= had.push(view[n - 1]));
        if all.contains(j) {
            let w = choose|w: int| 0 <= w < all.len() && all[w] == j;
            if w < before.len() {
                assert(before[w] == j);
                let x = choose|x: int| 0 <= x < had.len() && had[x] == j;
                assert(has[x] == j);
            } else {
                assert(has[n - 1] == j);
            }
        }
        if has.contains(j) && j < items.len() && strands(items, i, j as int) {
            if had.contains(j) {
                let w = choose|w: int| 0 <= w < before.len() && before[w] == j;
                assert(all[w] == j);
            } else {
                let x = choose|x: int| 0 <= x < has.len() && has[x] == j;
                assert(x == n - 1) by {
                    if x < n - 1 {
                        assert(had[x] == j);
                    }
                }
                assert(all[before.len() as int] == j);
            }
        }
    }
}

proof fn lemma_shown_edges(edges: Seq<EdgeRef>, view: Seq<usize>, n: int)
    requires
        0 <= n <= edges.len(),
    ensures
        shown_edges(edges, view, n) == edges.take(n).filter(
            |e: EdgeRef| e.dependency && e.target is Some && view.contains(e.target->0),
        ).len(),
    decreases n,
{
    reveal(Seq::filter);
    if n > 0 {
        lemma_shown_edges(edges, view, n - 1);
        assert(edges.take(n).drop_last() =~= edges.take(n - 1));
    }
}

proof fn lemma_done_edges(edges: Seq<EdgeRef>, view: Seq<usize>, reviewed: Seq<bool>, n: int)
    requires
        0 <= n <= edges.len(),
    ensures
        done_edges(edges, view, reviewed, true, n) == edges.take(n).filter(
            |e: EdgeRef|
                e.dependency && e.target is Some && view.contains(e.target->0) && reviewed[e.target->0 as int],
        ).len(),
        done_edges(edges, view, reviewed, false, n) == 0,
    decreases n,
{
    reveal(Seq::filter);
    if n > 0 {
        lemma_done_edges(edges, view, reviewed, n - 1);
        assert(edges.take(n).drop_last() =~= edges.take(n - 1));
    }
}

/// The dependencies within view count for each item in view: they count as read
/// where the item was reviewed and what it uses was too.
pub proof fn law_a_dependency_is_read_where_both_ends_are(
    items: Seq<Item>,
    view: Seq<usize>,
    reviewed: Seq<bool>,
    n: int,
)
    requires
        0 < n <= view.len(),
    ensures
        ({
            let i = view[n - 1] as int;
            let within = |e: EdgeRef| e.dependency && e.target is Some && view.contains(e.target->0);
            let read = |e: EdgeRef|
                e.dependency && e.target is Some && view.contains(e.target->0) && reviewed[e.target->0 as int];
            &&& all_edges(items, view, n) - all_edges(items, view, n - 1) == items[i].edges@.filter(within).len()
            &&& all_done_edges(items, view, reviewed, n) - all_done_edges(items, view, reviewed, n - 1) == (
            if reviewed[i] {
                items[i].edges@.filter(read).len() as int
            } else {
                0
            })
            &&& all_edges(items, view, 0) == 0
            &&& all_done_edges(items, view, reviewed, 0) == 0
        }),
{
    let edges = items[view[n - 1] as int].edges@;
    let m = edges.len() as int;
    lemma_shown_edges(edges, view, m);
    lemma_done_edges(edges, view, reviewed, m);
    assert(edges.take(m) =~= edges);
}

/// The count of what was reviewed counts each item in view that was.
pub proof fn law_what_was_reviewed_counts_once(view: Seq<usize>, reviewed: Seq<bool>, n: int)
    requires
        0 <= n <= view.len(),
    ensures
        done_count(view, reviewed, n) == view.take(n).filter(|i: usize| reviewed[i as int]).len(),
    decreases n,
{
    reveal(Seq::filter);
    if n > 0 {
        law_what_was_reviewed_counts_once(view, reviewed, n - 1);
        assert(view.take(n).drop_last() =~= view.take(n - 1));
    }
}

/// What is told since the last look: nothing on a first look, and else that a hunk
/// is new, changed or moved exactly where it is.
pub proof fn law_a_first_look_tells_of_no_change(deltas: Seq<Delta>, i: int, j: int)
    requires
        0 <= i < deltas.len(),
        0 <= j < deltas.len(),
    ensures
        (forall|k: int| 0 <= k < deltas.len() ==> #[trigger] deltas[k] == Delta::New) ==> delta_text(deltas, i) is None,
        deltas[j] != Delta::New ==> (delta_text(deltas, i) is None <==> deltas[i] == Delta::Same),
        deltas[j] != Delta::New ==> (delta_text(deltas, i) == Some("new since you last looked"@) <==> deltas[i]
            == Delta::New),
        deltas[j] != Delta::New ==> (delta_text(deltas, i) == Some("changed since you last looked"@) <==> deltas[i]
            == Delta::Changed),
{
    reveal_strlit("new since you last looked");
    reveal_strlit("changed since you last looked");
    reveal_strlit("unchanged, but it reads in a different place now — its dependencies moved");
    let a = "new since you last looked"@;
    let b = "changed since you last looked"@;
    let c = "unchanged, but it reads in a different place now — its dependencies moved"@;
    assert(a[0] == 'n' && b[0] == 'c' && c[0] == 'u');
}

/// What a hunk uses is remembered by the hunks that define it: one key for each
/// edge that is a dependency within the review, in order, and none for the others.
pub proof fn law_what_a_hunk_uses_is_remembered(items: Seq<Item>, edges: Seq<EdgeRef>, e: EdgeRef)
    ensures
        dependency_keys(items, Seq::<EdgeRef>::empty()) == Seq::<Seq<char>>::empty(),
        dependency_keys(items, edges.push(e)) == (if e.dependency && e.target is Some {
            dependency_keys(items, edges).push(snap_text(items[e.target->0 as int]))
        } else {
            dependency_keys(items, edges)
        }),
{
    assert(edges.push(e).drop_last() =~= edges);
}

/// The remembered place of an item is where it stands in the reading order.
pub proof fn law_the_remembered_place_is_in_the_reading_order(order: Seq<usize>, k: int)
    requires
        0 <= k < order.len() <= usize::MAX,
        order.no_duplicates(),
    ensures
        order_place(order, order[k]) == k,
    decreases order.len(),
{
    if k < order.len() - 1 {
        let front = order.drop_last();
        assert(front[k] == order[k]);
        assert forall|a: int, b: int| 0 <= a < front.len() && 0 <= b < front.len() && a != b implies front[a]
            != front[b] by {
            assert(order[a] != order[b]);
        }
        law_the_remembered_place_is_in_the_reading_order(front, k);
    }
}

/// A draft turns the size that was noted into a limit just below it.
pub proof fn law_a_noted_size_becomes_a_limit_below_it(n: nat)
    requires
        0 < n <= usize::MAX,
    ensures
        limit_of(decimal(n as int) + " params"@) == Some("max-params = "@ + decimal(n - 1)),
{
    crate::text::lemma_decimal_round_trip(n);
    reveal_strlit(" params");
    let note = decimal(n as int) + " params"@;
    assert(" params"@.len() == 7);
    assert(note.take(note.len() - 7) =~= decimal(n as int));
    assert(note.subrange(note.len() - 7, note.len() as int) =~= " params"@);
    assert(crate::text::parsed_number(decimal(n as int), 10, usize::MAX as int) == Some(n as int));
}

/// A drafted rule opens a rule, and has the language of the file where that is
/// known.
pub proof fn law_a_draft_names_the_language(it: Item, lang: Seq<char>)
    ensures
        drafted(it, Some(lang)).len() > 5,
        drafted(it, Some(lang))[3] == "[[rule]]"@,
        drafted(it, Some(lang))[5] == "lang = \""@ + lang + "\""@,
        drafted(it, None).len() > 0,
        drafted(it, Some(lang)).remove(5) == drafted(it, None),
{
    let a = drafted(it, Some(lang));
    let b = drafted(it, None);
    assert(a.remove(5) =~= b);
}

} // verus!
