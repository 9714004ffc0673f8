//! What the hunks of a review have to do with each other, and what is told of
//! one of them: its dependencies, what hangs on it, its note, how it differs
//! from the last run, and the rule that its shape suggests.

use crate::commands::distinct_sorted;
use crate::editor::{distinct, plural, plural_of};
use crate::identity::{note_key, note_of, targets_in, Delta};
use crate::model::{symbol_texts, EdgeRef, Item, Symbol};
use crate::state::App;
use crate::text::{
    decimal, ends_with, join, joined, number, option_text, parse_number, parsed_number, replace, replaced,
    sorted_texts, starts_with, strip_prefix, strip_suffix, texts, trim, trimmed,
};
use crate::view::in_view;
use vstd::prelude::*;

verus! {

broadcast use vstd::std_specs::hash::group_hash_axioms;

/// Whether item `j` uses what item `c` defines.
pub open spec fn depends(items: Seq<Item>, j: int, c: int) -> bool {
    0 <= j < items.len() && exists|e: int|
        0 <= e < items[j].edges@.len() && (#[trigger] items[j].edges@[e]).dependency && items[j].edges@[e].target
            == Some(c as usize)
}

/// Whether each item of a path uses what the one before it defines.
pub open spec fn dependency_path(items: Seq<Item>, path: Seq<int>) -> bool {
    forall|k: int| 0 < k < path.len() ==> depends(items, #[trigger] path[k], path[k - 1])
}

/// Whether item `j` would lose its footing without item `i`: it uses what `i`
/// defines, or what something defines that does.
pub open spec fn strands(items: Seq<Item>, i: int, j: int) -> bool {
    j != i && exists|path: Seq<int>|
        path.len() >= 2 && path[0] == i && path.last() == j && #[trigger] dependency_path(items, path)
}

fn uses(it: &Item, c: usize) -> (r: bool)
    ensures
        r == exists|e: int|
            0 <= e < it.edges@.len() && (#[trigger] it.edges@[e]).dependency && it.edges@[e].target == Some(c),
{
    for e in 0..it.edges.len()
        invariant
            forall|k: int|
                0 <= k < e ==> !((#[trigger] it.edges@[k]).dependency && it.edges@[k].target == Some(c)),
    {
        let edge = &it.edges[e];
        if edge.dependency {
            if let Some(t) = edge.target {
                if t == c {
                    assert(it.edges@[e as int].dependency && it.edges@[e as int].target == Some(c));
                    return true;
                }
            }
        }
    }
    false
}

/// How many of the first `n` are false.
spec fn unseen(seen: Seq<bool>, n: int) -> int
    decreases n,
{
    if n <= 0 {
        0
    } else {
        unseen(seen, n - 1) + (if seen[n - 1] {
            0int
        } else {
            1
        })
    }
}

proof fn lemma_unseen(seen: Seq<bool>, j: int, n: int)
    requires
        0 <= j < seen.len(),
        0 <= n <= seen.len(),
        !seen[j],
    ensures
        unseen(seen.update(j, true), n) == unseen(seen, n) - (if j < n {
            1int
        } else {
            0
        }),
        0 <= unseen(seen, n),
    decreases n,
{
    if n > 0 {
        lemma_unseen(seen, j, n - 1);
    }
}

proof fn lemma_unseen_nonneg(seen: Seq<bool>, n: int)
    ensures
        0 <= unseen(seen, n),
    decreases n,
{
    if n > 0 {
        lemma_unseen_nonneg(seen, n - 1);
    }
}

/// Whether an item is `i` or seen.
spec fn touched(seen: Seq<bool>, i: int, c: int) -> bool {
    c == i || (0 <= c < seen.len() && seen[c])
}

/// Whether every item that uses what `c` defines was seen.
spec fn explored(items: Seq<Item>, seen: Seq<bool>, i: int, c: int, n: int) -> bool {
    forall|j: int| 0 <= j < n && j != i && #[trigger] depends(items, j, c) ==> seen[j]
}

proof fn lemma_closed(items: Seq<Item>, seen: Seq<bool>, i: int, path: Seq<int>, k: int)
    requires
        seen.len() == items.len(),
        forall|c: int| #[trigger] touched(seen, i, c) ==> explored(items, seen, i, c, items.len() as int),
        dependency_path(items, path),
        path.len() >= 1,
        path[0] == i,
        0 <= k < path.len(),
    ensures
        touched(seen, i, path[k]),
    decreases k,
{
    if k > 0 {
        lemma_closed(items, seen, i, path, k - 1);
        assert(explored(items, seen, i, path[k - 1], items.len() as int));
        assert(depends(items, path[k], path[k - 1]));
    }
}

/// Which items would lose their footing without item `i`.
#[verifier::rlimit(40)]
fn stranded(items: &[Item], i: usize) -> (r: Vec<bool>)
    ensures
        r@.len() == items@.len(),
        forall|j: int| 0 <= j < items@.len() ==> #[trigger] r@[j] == strands(items@, i as int, j),
{
    let n: usize = items.len();
    let ghost its = items@;
    let mut seen: Vec<bool> = Vec::new();
    for k in 0..n
        invariant
            seen@.len() == k,
            forall|j: int| 0 <= j < k ==> !#[trigger] seen@[j],
    {
        seen.push(false);
    }
    let mut queue: Vec<usize> = Vec::new();
    queue.push(i);
    proof {
        assert(queue@[0] == i);
        lemma_unseen_nonneg(seen@, n as int);
        assert forall|c: int| #[trigger] touched(seen@, i as int, c) implies queue@.contains(c as usize) by {
            assert(c == i);
        }
    }
    while queue.len() > 0
        invariant
            n == its.len(),
            its == items@,
            seen@.len() == n,
            0 <= unseen(seen@, n as int),
            forall|q: int| 0 <= q < queue@.len() ==> touched(seen@, i as int, #[trigger] queue@[q] as int),
            forall|j: int| 0 <= j < n && #[trigger] seen@[j] ==> strands(its, i as int, j),
            forall|c: int| #[trigger]
                touched(seen@, i as int, c) ==> queue@.contains(c as usize) || explored(
                    its,
                    seen@,
                    i as int,
                    c,
                    n as int,
                ),
            forall|c: int| #[trigger] touched(seen@, i as int, c) ==> 0 <= c <= usize::MAX,
        decreases 2 * unseen(seen@, n as int) + queue@.len(),
    {
        let ghost start_seen = seen@;
        let ghost start_queue = queue@;
        let last: usize = queue.len() - 1;
        let cur: usize = queue[last];
        let _gone = queue.pop();
        proof {
            assert(start_queue[last as int] == cur);
            assert(queue@ == start_queue.drop_last());
            assert forall|c: int| #[trigger] touched(seen@, i as int, c) && c != cur implies queue@.contains(c as usize)
                || explored(its, seen@, i as int, c, n as int) by {
                if start_queue.contains(c as usize) {
                    let w = choose|w: int| 0 <= w < start_queue.len() && start_queue[w] == c as usize;
                    assert(w != last);
                    assert(queue@[w] == c as usize);
                }
            }
        }
        let ghost path_to = if cur == i {
            seq![i as int]
        } else {
            choose|path: Seq<int>|
                path.len() >= 2 && path[0] == i && path.last() == cur && #[trigger] dependency_path(its, path)
        };
        proof {
            assert(touched(start_seen, i as int, cur as int));
            if cur != i {
                assert(strands(its, i as int, cur as int));
            }
            assert(path_to.len() >= 1 && path_to[0] == i && path_to.last() == cur && dependency_path(its, path_to));
        }
        let ghost budget = 2 * unseen(seen@, n as int) + queue@.len();
        for j in 0..n
            invariant
                n == its.len(),
                its == items@,
                seen@.len() == n,
                0 <= unseen(seen@, n as int),
                path_to.len() >= 1 && path_to[0] == i && path_to.last() == cur && dependency_path(its, path_to),
                2 * unseen(seen@, n as int) + queue@.len() <= budget,
                forall|q: int| 0 <= q < queue@.len() ==> touched(seen@, i as int, #[trigger] queue@[q] as int),
                forall|k: int| 0 <= k < n && #[trigger] seen@[k] ==> strands(its, i as int, k),
                explored(its, seen@, i as int, cur as int, j as int),
                forall|c: int| #[trigger]
                    touched(seen@, i as int, c) && c != cur ==> queue@.contains(c as usize) || explored(
                        its,
                        seen@,
                        i as int,
                        c,
                        n as int,
                    ),
                forall|c: int| #[trigger] touched(seen@, i as int, c) ==> 0 <= c <= usize::MAX,
        {
            let ghost had = seen@;
            let ghost had_queue = queue@;
            let hit = uses(&items[j], cur);
            assert(hit == depends(its, j as int, cur as int));
            if !seen[j] && j != i && hit {
                proof {
                    lemma_unseen(seen@, j as int, n as int);
                    let longer = path_to.push(j as int);
                    assert forall|k: int| 0 < k < longer.len() implies depends(
                        its,
                        #[trigger] longer[k],
                        longer[k - 1],
                    ) by {
                        if k < path_to.len() {
                            assert(depends(its, path_to[k], path_to[k - 1]));
                        }
                    }
                    assert(dependency_path(its, longer));
                    assert(strands(its, i as int, j as int));
                }
                seen.set(j, true);
                queue.push(j);
                proof {
                    lemma_unseen_nonneg(seen@, n as int);
                    assert(queue@[had_queue.len() as int] == j);
                    assert forall|q: int| 0 <= q < queue@.len() implies touched(
                        seen@,
                        i as int,
                        #[trigger] queue@[q] as int,
                    ) by {
                        if q < had_queue.len() {
                            assert(touched(had, i as int, had_queue[q] as int));
                        }
                    }
                    assert forall|c: int| #[trigger] touched(seen@, i as int, c) && c != cur implies queue@.contains(
                        c as usize,
                    ) || explored(its, seen@, i as int, c, n as int) by {
                        if c != j {
                            assert(touched(had, i as int, c));
                            if had_queue.contains(c as usize) {
                                let w = choose|w: int| 0 <= w < had_queue.len() && had_queue[w] == c as usize;
                                assert(queue@[w] == c as usize);
                            }
                        }
                    }
                    assert forall|k: int| 0 <= k < j + 1 && k != i && #[trigger] depends(its, k, cur as int) implies seen@[k] by {
                        if k < j {
                            assert(had[k]);
                        }
                    }
                }
            }
        }
    }
    proof {
        assert forall|j: int| 0 <= j < n implies #[trigger] seen@[j] == strands(its, i as int, j) by {
            if strands(its, i as int, j) {
                let path = choose|path: Seq<int>|
                    path.len() >= 2 && path[0] == i && path.last() == j && #[trigger] dependency_path(its, path);
                assert forall|c: int| #[trigger] touched(seen@, i as int, c) implies explored(
                    its,
                    seen@,
                    i as int,
                    c,
                    its.len() as int,
                ) by {
                    assert(!queue@.contains(c as usize));
                }
                lemma_closed(its, seen@, i as int, path, path.len() - 1);
            }
        }
    }
    seen
}

/// The entries of a view among the first `n` that would lose their footing
/// without item `i`, each once, in order.
pub open spec fn stranded_in(items: Seq<Item>, view: Seq<usize>, i: int, n: int) -> Seq<usize>
    decreases n,
{
    if n <= 0 {
        Seq::empty()
    } else {
        let before = stranded_in(items, view, i, n - 1);
        let j = view[n - 1];
        if j < items.len() && strands(items, i, j as int) && !view.take(n - 1).contains(j) {
            before.push(j)
        } else {
            before
        }
    }
}

/// Everything in view that would lose its footing if item `i` were rejected, in
/// reading order.
pub fn cascade(app: &App, i: usize) -> (r: Vec<usize>)
    ensures
        r@ == stranded_in(app.items@, app.view@, i as int, app.view@.len() as int),
        forall|k: int| 0 <= k < r@.len() ==> (#[trigger] r@[k]) < app.items@.len(),
{
    let hit = stranded(&app.items, i);
    let mut out: Vec<usize> = Vec::new();
    let view = &app.view;
    for n in 0..view.len()
        invariant
            *view == app.view,
            hit@.len() == app.items@.len(),
            forall|j: int| 0 <= j < app.items@.len() ==> #[trigger] hit@[j] == strands(app.items@, i as int, j),
            out@ == stranded_in(app.items@, view@, i as int, n as int),
            forall|k: int| 0 <= k < out@.len() ==> (#[trigger] out@[k]) < app.items@.len(),
            forall|k: int| 0 <= k < out@.len() ==> view@.take(n as int).contains(#[trigger] out@[k]),
            forall|k: int|
                0 <= k < n && (#[trigger] view@[k]) < app.items@.len() && strands(
                    app.items@,
                    i as int,
                    view@[k] as int,
                ) ==> out@.contains(view@[k]),
    {
        let j: usize = view[n];
        let ghost had = out@;
        let ghost t = view@.take(n as int);
        assert(view@.take(n + 1) == t.push(j));
        if j < app.items.len() && hit[j] && !in_view(&out, j) {
            proof {
                if t.contains(j) {
                    let w = choose|w: int| 0 <= w < t.len() && t[w] == j;
                    assert(view@[w] == j);
                    assert(out@.contains(j));
                }
            }
            out.push(j);
            assert(out@[had.len() as int] == j);
        } else {
            proof {
                if j < app.items@.len() && hit@[j as int] {
                    assert(had.contains(j));
                    let w = choose|w: int| 0 <= w < had.len() && had[w] == j;
                    assert(t.contains(had[w]));
                }
            }
        }
        proof {
            assert forall|k: int| 0 <= k < out@.len() implies view@.take(n + 1).contains(#[trigger] out@[k]) by {
                if k < had.len() {
                    assert(t.contains(had[k]));
                    let w = choose|w: int| 0 <= w < t.len() && t[w] == had[k];
                    assert(view@.take(n + 1)[w] == had[k]);
                } else {
                    assert(view@.take(n + 1)[n as int] == j);
                }
            }
            assert forall|k: int|
                0 <= k < n + 1 && (#[trigger] view@[k]) < app.items@.len() && strands(
                    app.items@,
                    i as int,
                    view@[k] as int,
                ) implies out@.contains(view@[k]) by {
                if k < n {
                    assert(had.contains(view@[k]));
                    let w = choose|w: int| 0 <= w < had.len() && had[w] == view@[k];
                    assert(out@[w] == view@[k]);
                }
            }
        }
    }
    out
}

/// Nothing is stranded by itself, and what hangs on something stranded hangs on
/// the same hunk.
pub proof fn law_stranding_passes_on(items: Seq<Item>, i: int, j: int, k: int)
    requires
        strands(items, i, j),
        depends(items, k, j),
        k != i,
    ensures
        strands(items, i, k),
        !strands(items, i, i),
{
    let path = choose|path: Seq<int>|
        path.len() >= 2 && path[0] == i && path.last() == j && #[trigger] dependency_path(items, path);
    let longer = path.push(k);
    assert forall|m: int| 0 < m < longer.len() implies depends(items, #[trigger] longer[m], longer[m - 1]) by {
        if m < path.len() {
            assert(depends(items, path[m], path[m - 1]));
        }
    }
    assert(dependency_path(items, longer));
    assert(longer.last() == k);
}

/// Where an item stands.
pub open spec fn place_text(it: Item) -> Seq<char> {
    it.path@ + ":L"@ + decimal(it.new_range[0] as int)
}

pub fn place_label(it: &Item) -> (r: String)
    ensures
        r@ == place_text(*it),
{
    it.path.clone().concat(":L").concat(&number(it.new_range[0]))
}

pub open spec fn place_texts(items: Seq<Item>, at: Seq<usize>) -> Seq<Seq<char>> {
    Seq::new(at.len(), |k: int| place_text(items[at[k] as int]))
}

fn place_labels(items: &[Item], at: &[usize]) -> (r: Vec<String>)
    requires
        forall|k: int| 0 <= k < at@.len() ==> (#[trigger] at@[k]) < items@.len(),
    ensures
        texts(r@) == place_texts(items@, at@),
{
    let mut out: Vec<String> = Vec::new();
    for k in 0..at.len()
        invariant
            forall|k: int| 0 <= k < at@.len() ==> (#[trigger] at@[k]) < items@.len(),
            texts(out@) == place_texts(items@, at@).take(k as int),
    {
        let ghost had = texts(out@);
        let line = place_label(&items[at[k]]);
        out.push(line);
        assert(texts(out@) == had.push(place_texts(items@, at@)[k as int]));
        assert(place_texts(items@, at@).take(k + 1) == place_texts(items@, at@).take(k as int).push(
            place_texts(items@, at@)[k as int],
        ));
    }
    assert(place_texts(items@, at@).take(at@.len() as int) == place_texts(items@, at@));
    out
}

/// What rejecting an item would strand, in words.
pub open spec fn cascade_text(items: Seq<Item>, hit: Seq<usize>) -> Option<Seq<char>> {
    if hit.len() == 0 {
        None
    } else {
        let n = hit.len() as int;
        let named = if n < 3 {
            n
        } else {
            3
        };
        Some(
            "rejecting this strands "@ + decimal(n) + " hunk"@ + plural_of(n) + " ("@ + joined(
                place_texts(items, hit.take(named)),
                ", "@,
            ) + (if n > 3 {
                " and "@ + decimal(n - 3) + " more"@
            } else {
                ""@
            }) + ")"@,
        )
    }
}

pub fn cascade_line(app: &App, i: usize) -> (r: Option<String>)
    ensures
        option_text(r) == cascade_text(
            app.items@,
            stranded_in(app.items@, app.view@, i as int, app.view@.len() as int),
        ),
{
    let hit = cascade(app, i);
    let n: usize = hit.len();
    if n == 0 {
        return None;
    }
    let named: usize = if n < 3 {
        n
    } else {
        3
    };
    let mut first: Vec<usize> = Vec::new();
    for k in 0..named
        invariant
            named <= n,
            n == hit@.len(),
            first@ == hit@.take(k as int),
    {
        first.push(hit[k]);
        assert(hit@.take(k + 1) == hit@.take(k as int).push(hit@[k as int]));
    }
    let places = place_labels(&app.items, &first);
    let more = if n > 3 {
        " and ".to_owned().concat(&number(n - 3)).concat(" more")
    } else {
        "".to_owned()
    };
    Some(
        "rejecting this strands ".to_owned().concat(&number(n)).concat(" hunk").concat(plural(n)).concat(
            " (",
        ).concat(&join(&places, ", ")).concat(&more).concat(")"),
    )
}

/// Whether the review was never opened before: everything is new.
pub open spec fn first_run(deltas: Seq<Delta>) -> bool {
    forall|k: int| 0 <= k < deltas.len() ==> #[trigger] deltas[k] == Delta::New
}

pub fn is_first_run(deltas: &[Delta]) -> (r: bool)
    ensures
        r == first_run(deltas@),
{
    for k in 0..deltas.len()
        invariant
            forall|j: int| 0 <= j < k ==> #[trigger] deltas@[j] == Delta::New,
    {
        if deltas[k] != Delta::New {
            assert(deltas@[k as int] != Delta::New);
            return false;
        }
    }
    true
}

/// How an item differs from the last run, in words; nothing where it does not,
/// or where there was no last run.
pub open spec fn delta_text(deltas: Seq<Delta>, i: int) -> Option<Seq<char>> {
    if first_run(deltas) || !(0 <= i < deltas.len()) {
        None
    } else {
        match deltas[i] {
            Delta::New => Some("new since you last looked"@),
            Delta::Changed => Some("changed since you last looked"@),
            Delta::Moved => Some(
                "unchanged, but it reads in a different place now — its dependencies moved"@,
            ),
            Delta::Same => None,
        }
    }
}

pub open spec fn str_text(s: Option<&str>) -> Option<Seq<char>> {
    match s {
        Some(t) => Some(t@),
        None => None,
    }
}

pub fn delta_line(app: &App, i: usize) -> (r: Option<&'static str>)
    ensures
        match r {
            Some(t) => delta_text(app.deltas@, i as int) == Some(t@),
            None => delta_text(app.deltas@, i as int) is None,
        },
{
    if is_first_run(&app.deltas) || i >= app.deltas.len() {
        return None;
    }
    match app.deltas[i] {
        Delta::New => Some("new since you last looked"),
        Delta::Changed => Some("changed since you last looked"),
        Delta::Moved => Some(
            "unchanged, but it reads in a different place now — its dependencies moved",
        ),
        Delta::Same => None,
    }
}

/// The dependencies among the first `n` edges that are not reviewed, in order.
pub open spec fn open_targets(edges: Seq<EdgeRef>, reviewed: Seq<bool>, n: int) -> Seq<usize>
    decreases n,
{
    if n <= 0 {
        Seq::empty()
    } else {
        let before = open_targets(edges, reviewed, n - 1);
        let e = edges[n - 1];
        if e.dependency && e.target is Some && !reviewed[e.target->0 as int] {
            before.push(e.target->0)
        } else {
            before
        }
    }
}

/// The dependencies of an item that are part of the review and not reviewed.
pub fn unreviewed_deps(app: &App, i: usize) -> (r: Vec<usize>)
    requires
        i < app.items@.len(),
        app.reviewed@.len() == app.items@.len(),
        targets_in(app.items@),
    ensures
        r@ == open_targets(
            app.items@[i as int].edges@,
            app.reviewed@,
            app.items@[i as int].edges@.len() as int,
        ),
        forall|k: int| 0 <= k < r@.len() ==> (#[trigger] r@[k]) < app.items@.len(),
{
    let edges = &app.items[i].edges;
    let mut out: Vec<usize> = Vec::new();
    for n in 0..edges.len()
        invariant
            i < app.items@.len(),
            app.reviewed@.len() == app.items@.len(),
            targets_in(app.items@),
            *edges == app.items@[i as int].edges,
            out@ == open_targets(edges@, app.reviewed@, n as int),
            forall|k: int| 0 <= k < out@.len() ==> (#[trigger] out@[k]) < app.items@.len(),
    {
        let e = &edges[n];
        assert(app.items@[i as int].edges@[n as int] == *e);
        if e.dependency {
            if let Some(t) = e.target {
                if !app.reviewed[t] {
                    out.push(t);
                }
            }
        }
    }
    out
}

/// Where the unreviewed dependencies of an item stand, where the item itself is
/// reviewed.
pub open spec fn out_of_order(items: Seq<Item>, reviewed: Seq<bool>, i: int) -> Seq<Seq<char>> {
    if !reviewed[i] {
        Seq::empty()
    } else {
        place_texts(items, open_targets(items[i].edges@, reviewed, items[i].edges@.len() as int))
    }
}

pub fn out_of_order_labels(app: &App, i: usize) -> (r: Vec<String>)
    requires
        i < app.items@.len(),
        app.reviewed@.len() == app.items@.len(),
        targets_in(app.items@),
    ensures
        texts(r@) == out_of_order(app.items@, app.reviewed@, i as int),
{
    if !app.reviewed[i] {
        let none: Vec<String> = Vec::new();
        assert(texts(none@) == Seq::<Seq<char>>::empty());
        return none;
    }
    place_labels(&app.items, &unreviewed_deps(app, i))
}

/// How many of the first `n` entries of a view are reviewed.
pub open spec fn done_count(view: Seq<usize>, reviewed: Seq<bool>, n: int) -> int
    decreases n,
{
    if n <= 0 {
        0
    } else {
        done_count(view, reviewed, n - 1) + (if reviewed[view[n - 1] as int] {
            1int
        } else {
            0
        })
    }
}

/// Whether a dependency has both ends in a view.
pub open spec fn edge_shown(e: EdgeRef, view: Seq<usize>) -> bool {
    e.dependency && e.target is Some && view.contains(e.target->0)
}

/// How many of an item's first `n` edges are shown.
pub open spec fn shown_edges(edges: Seq<EdgeRef>, view: Seq<usize>, n: int) -> int
    decreases n,
{
    if n <= 0 {
        0
    } else {
        shown_edges(edges, view, n - 1) + (if edge_shown(edges[n - 1], view) {
            1int
        } else {
            0
        })
    }
}

/// How many of an item's first `n` edges are shown and have both ends reviewed.
pub open spec fn done_edges(edges: Seq<EdgeRef>, view: Seq<usize>, reviewed: Seq<bool>, here: bool, n: int) -> int
    decreases n,
{
    if n <= 0 {
        0
    } else {
        done_edges(edges, view, reviewed, here, n - 1) + (if edge_shown(edges[n - 1], view) && here
            && reviewed[edges[n - 1].target->0 as int] {
            1int
        } else {
            0
        })
    }
}

/// The dependencies of the first `n` entries of a view that are shown.
pub open spec fn all_edges(items: Seq<Item>, view: Seq<usize>, n: int) -> int
    decreases n,
{
    if n <= 0 {
        0
    } else {
        let edges = items[view[n - 1] as int].edges@;
        all_edges(items, view, n - 1) + shown_edges(edges, view, edges.len() as int)
    }
}

/// Those of them that have both ends reviewed.
pub open spec fn all_done_edges(items: Seq<Item>, view: Seq<usize>, reviewed: Seq<bool>, n: int) -> int
    decreases n,
{
    if n <= 0 {
        0
    } else {
        let edges = items[view[n - 1] as int].edges@;
        all_done_edges(items, view, reviewed, n - 1) + done_edges(
            edges,
            view,
            reviewed,
            reviewed[view[n - 1] as int],
            edges.len() as int,
        )
    }
}

proof fn lemma_edges_bounds(edges: Seq<EdgeRef>, view: Seq<usize>, reviewed: Seq<bool>, here: bool, n: int)
    requires
        0 <= n,
    ensures
        0 <= done_edges(edges, view, reviewed, here, n) <= shown_edges(edges, view, n) <= n,
    decreases n,
{
    if n > 0 {
        lemma_edges_bounds(edges, view, reviewed, here, n - 1);
    }
}

proof fn lemma_all_edges_bounds(items: Seq<Item>, view: Seq<usize>, reviewed: Seq<bool>, n: int)
    requires
        0 <= n,
    ensures
        0 <= all_done_edges(items, view, reviewed, n) <= all_edges(items, view, n),
    decreases n,
{
    if n > 0 {
        lemma_all_edges_bounds(items, view, reviewed, n - 1);
        let edges = items[view[n - 1] as int].edges@;
        lemma_edges_bounds(edges, view, reviewed, reviewed[view[n - 1] as int], edges.len() as int);
    }
}

proof fn lemma_all_edges_monotone(items: Seq<Item>, view: Seq<usize>, a: int, b: int)
    requires
        0 <= a <= b,
    ensures
        all_edges(items, view, a) <= all_edges(items, view, b),
    decreases b,
{
    if a < b {
        lemma_all_edges_monotone(items, view, a, b - 1);
        let edges = items[view[b - 1] as int].edges@;
        lemma_edges_bounds(edges, view, Seq::empty(), false, edges.len() as int);
    }
}

/// How much of the review is understood: the entries of the view that are
/// reviewed, how many there are, the dependencies shown that have both ends
/// reviewed, and how many are shown.
pub fn coverage(app: &App) -> (r: (usize, usize, usize, usize))
    requires
        app.reviewed@.len() == app.items@.len(),
        targets_in(app.items@),
        crate::view::view_in(app.view@, app.items@),
        all_edges(app.items@, app.view@, app.view@.len() as int) <= usize::MAX,
    ensures
        r.0 == done_count(app.view@, app.reviewed@, app.view@.len() as int),
        r.1 == app.view@.len(),
        r.2 == all_done_edges(app.items@, app.view@, app.reviewed@, app.view@.len() as int),
        r.3 == all_edges(app.items@, app.view@, app.view@.len() as int),
{
    let mut done: usize = 0;
    let mut both: usize = 0;
    let mut edges: usize = 0;
    let view = &app.view;
    let ghost total = all_edges(app.items@, view@, view@.len() as int);
    for n in 0..view.len()
        invariant
            *view == app.view,
            app.reviewed@.len() == app.items@.len(),
            targets_in(app.items@),
            crate::view::view_in(view@, app.items@),
            total == all_edges(app.items@, view@, view@.len() as int),
            total <= usize::MAX,
            done == done_count(view@, app.reviewed@, n as int),
            done <= n,
            edges == all_edges(app.items@, view@, n as int),
            both == all_done_edges(app.items@, view@, app.reviewed@, n as int),
            both <= edges,
    {
        let i: usize = view[n];
        let here = app.reviewed[i];
        if here {
            done = done + 1;
        }
        let own = &app.items[i].edges;
        let ghost edges_before = edges as int;
        let ghost both_before = both as int;
        proof {
            lemma_all_edges_monotone(app.items@, view@, n + 1, view@.len() as int);
        }
        for k in 0..own.len()
            invariant
                *view == app.view,
                i < app.items@.len(),
                *own == app.items@[i as int].edges,
                here == app.reviewed@[i as int],
                app.reviewed@.len() == app.items@.len(),
                targets_in(app.items@),
                edges_before + shown_edges(own@, view@, own@.len() as int) <= usize::MAX,
                edges == edges_before + shown_edges(own@, view@, k as int),
                both == both_before + done_edges(own@, view@, app.reviewed@, here, k as int),
                0 <= both_before <= edges_before,
                both <= edges,
        {
            let e = &own[k];
            assert(app.items@[i as int].edges@[k as int] == *e);
            proof {
                lemma_shown_monotone(own@, view@, k + 1, own@.len() as int);
            }
            if e.dependency {
                if let Some(t) = e.target {
                    if in_view(view, t) {
                        edges = edges + 1;
                        if here && app.reviewed[t] {
                            both = both + 1;
                        }
                    }
                }
            }
        }
    }
    (done, app.view.len(), both, edges)
}

/// How many dependencies of a view are shown; none where a machine number does
/// not hold the count.
pub fn count_edges(items: &[Item], view: &[usize]) -> (r: Option<usize>)
    requires
        crate::view::view_in(view@, items@),
    ensures
        match r {
            Some(n) => n == all_edges(items@, view@, view@.len() as int),
            None => all_edges(items@, view@, view@.len() as int) > usize::MAX,
        },
{
    let mut edges: usize = 0;
    for n in 0..view.len()
        invariant
            crate::view::view_in(view@, items@),
            edges == all_edges(items@, view@, n as int),
    {
        let i: usize = view[n];
        let own = &items[i].edges;
        let ghost before = edges as int;
        proof {
            lemma_all_edges_monotone(items@, view@, n + 1, view@.len() as int);
        }
        for k in 0..own.len()
            invariant
                *own == items@[i as int].edges,
                i == view@[n as int],
                0 <= n < view@.len(),
                before == all_edges(items@, view@, n as int),
                all_edges(items@, view@, n + 1) <= all_edges(items@, view@, view@.len() as int),
                edges == before + shown_edges(own@, view@, k as int),
        {
            let e = &own[k];
            proof {
                lemma_shown_monotone(own@, view@, k + 1, own@.len() as int);
            }
            if e.dependency {
                if let Some(t) = e.target {
                    if in_view(view, t) {
                        if edges == usize::MAX {
                            return None;
                        }
                        edges = edges + 1;
                    }
                }
            }
        }
    }
    Some(edges)
}

proof fn lemma_shown_monotone(edges: Seq<EdgeRef>, view: Seq<usize>, a: int, b: int)
    requires
        0 <= a <= b,
    ensures
        shown_edges(edges, view, a) <= shown_edges(edges, view, b),
    decreases b,
{
    if a < b {
        lemma_shown_monotone(edges, view, a, b - 1);
    }
}

proof fn lemma_done_count(view: Seq<usize>, reviewed: Seq<bool>, n: int)
    requires
        0 <= n,
    ensures
        0 <= done_count(view, reviewed, n) <= n,
    decreases n,
{
    if n > 0 {
        lemma_done_count(view, reviewed, n - 1);
    }
}

/// No more is done than there is, hunks and dependencies alike.
pub proof fn law_coverage_is_a_part(items: Seq<Item>, view: Seq<usize>, reviewed: Seq<bool>)
    ensures
        0 <= done_count(view, reviewed, view.len() as int) <= view.len(),
        0 <= all_done_edges(items, view, reviewed, view.len() as int) <= all_edges(
            items,
            view,
            view.len() as int,
        ),
{
    lemma_done_count(view, reviewed, view.len() as int);
    lemma_all_edges_bounds(items, view, reviewed, view.len() as int);
}

/// The note on an item's symbols.
pub open spec fn note_text(notes: Map<u64, String>, it: Item) -> Option<Seq<char>> {
    match note_of(symbol_texts(it.symbols@)) {
        Some(k) => if notes.dom().contains(k) {
            Some(notes[k]@)
        } else {
            None
        },
        None => None,
    }
}

pub fn note_for(app: &App, i: usize) -> (r: Option<&str>)
    requires
        i < app.items@.len(),
    ensures
        str_text(r) == note_text(app.notes@, app.items@[i as int]),
{
    match note_key(&app.items[i]) {
        Some(key) => match app.notes.get(&key) {
            Some(s) => Some(s.as_str()),
            None => None,
        },
        None => None,
    }
}

/// The kinds of the symbols that an item defines.
pub open spec fn kinds_of(symbols: Seq<Symbol>) -> Seq<Seq<char>> {
    Seq::new(symbols.len(), |i: int| symbols[i].kind@)
}

/// Those kinds, each once, in order.
pub open spec fn kind_list(symbols: Seq<Symbol>) -> Seq<Seq<char>> {
    sorted_texts(distinct(kinds_of(symbols)))
}

pub open spec fn quoted_each(s: Seq<Seq<char>>) -> Seq<Seq<char>> {
    Seq::new(s.len(), |i: int| "\""@ + s[i] + "\""@)
}

/// What is left of a text between a start and an end that it has.
pub open spec fn between(s: Seq<char>, prefix: Seq<char>, suffix: Seq<char>) -> Option<Seq<char>> {
    if starts_with(s, prefix) && ends_with(s.skip(prefix.len() as int), suffix) {
        Some(s.skip(prefix.len() as int).take(s.len() - prefix.len() - suffix.len()))
    } else {
        None
    }
}

/// The number between a start and an end, white space around it left out.
pub open spec fn measured(s: Seq<char>, prefix: Seq<char>, suffix: Seq<char>) -> Option<int> {
    match between(s, prefix, suffix) {
        Some(rest) => parsed_number(trimmed(rest), 10, usize::MAX as int),
        None => None,
    }
}

pub open spec fn one_less(n: int) -> int {
    if n > 0 {
        n - 1
    } else {
        0
    }
}

/// The condition that a structural note of a hunk suggests: the limit that it
/// just exceeds.
pub open spec fn limit_of(note: Seq<char>) -> Option<Seq<char>> {
    let params = if ends_with(note, " params"@) {
        parsed_number(note.take(note.len() - 7), 10, usize::MAX as int)
    } else {
        None
    };
    match params {
        Some(p) => Some("max-params = "@ + decimal(one_less(p))),
        None => match measured(note, "large definition ("@, " lines)"@) {
            Some(l) => Some("max-lines = "@ + decimal(one_less(l))),
            None => match measured(note, "deeply nested (depth "@, ")"@) {
                Some(d) => Some("max-nesting = "@ + decimal(one_less(d))),
                None => None,
            },
        },
    }
}

/// The conditions that the first `n` notes suggest.
pub open spec fn limits_of(notes: Seq<Seq<char>>, n: int) -> Seq<Seq<char>>
    decreases n,
{
    if n <= 0 {
        Seq::empty()
    } else {
        match limit_of(notes[n - 1]) {
            Some(l) => limits_of(notes, n - 1).push(l),
            None => limits_of(notes, n - 1),
        }
    }
}

/// The rule that the shape of an item suggests, `lang` being the language of its
/// file.
pub open spec fn drafted(it: Item, lang: Option<Seq<char>>) -> Seq<Seq<char>> {
    let kinds = kind_list(it.symbols@);
    let name = if kinds.len() > 0 {
        "no-"@ + replaced(kinds[0], '_', "-"@)
    } else {
        "unnamed-rule"@
    };
    seq![
        "# paste into .ordo/rules.toml, then delete the conditions that were"@,
        "# incidental — every line below is a fact about the hunk you flagged."@,
        ""@,
        "[[rule]]"@,
        "name = \""@ + name + "\""@,
    ] + (match lang {
        Some(l) => seq!["lang = \""@ + l + "\""@],
        None => Seq::empty(),
    }) + (if kinds.len() > 0 {
        seq!["kind = ["@ + joined(quoted_each(kinds), ", "@) + "]"@]
    } else {
        Seq::empty()
    }) + limits_of(texts(it.notes@), it.notes@.len() as int) + seq![
        "warn = \"TODO: say why this shape is unwanted\""@,
    ] + (if it.symbols@.len() == 0 {
        seq![
            ""@,
            "# this hunk declares no symbol, so the draft has no `kind` to"@,
            "# match on — it will be broader than you probably want."@,
        ]
    } else {
        Seq::empty()
    })
}

fn measure(note: &str, prefix: &str, suffix: &str) -> (r: Option<usize>)
    ensures
        match r {
            Some(n) => measured(note@, prefix@, suffix@) == Some(n as int),
            None => measured(note@, prefix@, suffix@) is None,
        },
{
    let rest = match strip_prefix(note, prefix) {
        Some(rest) => rest,
        None => {
            return None;
        },
    };
    let inner = match strip_suffix(&rest, suffix) {
        Some(inner) => inner,
        None => {
            return None;
        },
    };
    match parse_number(&trim(&inner), 10, usize::MAX as u64) {
        Some(n) => Some(n as usize),
        None => None,
    }
}

fn limit(note: &str) -> (r: Option<String>)
    ensures
        option_text(r) == limit_of(note@),
{
    proof {
        reveal_strlit(" params");
    }
    let params = match strip_suffix(note, " params") {
        Some(n) => parse_number(&n, 10, usize::MAX as u64),
        None => None,
    };
    if let Some(p) = params {
        let n: usize = if p > 0 {
            (p - 1) as usize
        } else {
            0
        };
        return Some("max-params = ".to_owned().concat(&number(n)));
    }
    if let Some(l) = measure(note, "large definition (", " lines)") {
        let n: usize = if l > 0 {
            l - 1
        } else {
            0
        };
        return Some("max-lines = ".to_owned().concat(&number(n)));
    }
    if let Some(d) = measure(note, "deeply nested (depth ", ")") {
        let n: usize = if d > 0 {
            d - 1
        } else {
            0
        };
        return Some("max-nesting = ".to_owned().concat(&number(n)));
    }
    None
}

fn push_text(out: &mut Vec<String>, s: String)
    ensures
        texts(final(out)@) == texts(old(out)@).push(s@),
{
    let ghost had = texts(out@);
    out.push(s);
    assert(texts(out@) == had.push(s@));
}

/// A draft of a rule that matches the shape of an item. Every condition is a
/// fact about it; `lang` is the language of its file.
pub fn draft_rule(app: &App, i: usize, lang: Option<String>) -> (r: Vec<String>)
    requires
        i < app.items@.len(),
    ensures
        texts(r@) == drafted(app.items@[i as int], option_text(lang)),
{
    let it = &app.items[i];
    let mut all_kinds: Vec<String> = Vec::new();
    for k in 0..it.symbols.len()
        invariant
            texts(all_kinds@) == kinds_of(it.symbols@).take(k as int),
    {
        push_text(&mut all_kinds, it.symbols[k].kind.clone());
        assert(kinds_of(it.symbols@).take(k + 1) == kinds_of(it.symbols@).take(k as int).push(
            kinds_of(it.symbols@)[k as int],
        ));
    }
    assert(kinds_of(it.symbols@).take(it.symbols@.len() as int) == kinds_of(it.symbols@));
    let kinds = distinct_sorted(&all_kinds);
    let ghost ks = texts(kinds@);
    assert(ks == kind_list(it.symbols@));
    let name = if kinds.len() > 0 {
        assert(ks[0] == kinds@[0]@);
        "no-".to_owned().concat(&replace(&kinds[0], '_', "-"))
    } else {
        "unnamed-rule".to_owned()
    };
    let mut out: Vec<String> = Vec::new();
    assert(texts(out@) == Seq::<Seq<char>>::empty());
    push_text(&mut out, "# paste into .ordo/rules.toml, then delete the conditions that were".to_owned());
    push_text(&mut out, "# incidental — every line below is a fact about the hunk you flagged.".to_owned());
    push_text(&mut out, "".to_owned());
    push_text(&mut out, "[[rule]]".to_owned());
    push_text(&mut out, "name = \"".to_owned().concat(&name).concat("\""));
    let ghost head = texts(out@);
    assert(head =~= seq![
        "# paste into .ordo/rules.toml, then delete the conditions that were"@,
        "# incidental — every line below is a fact about the hunk you flagged."@,
        ""@,
        "[[rule]]"@,
        "name = \""@ + name@ + "\""@,
    ]);
    let ghost lang_part = match option_text(lang) {
        Some(l) => seq!["lang = \""@ + l + "\""@],
        None => Seq::empty(),
    };
    if let Some(l) = &lang {
        push_text(&mut out, "lang = \"".to_owned().concat(l).concat("\""));
    }
    assert(texts(out@) =~= head + lang_part);
    let ghost kind_part = if ks.len() > 0 {
        seq!["kind = ["@ + joined(quoted_each(ks), ", "@) + "]"@]
    } else {
        Seq::empty()
    };
    if kinds.len() > 0 {
        let mut quoted: Vec<String> = Vec::new();
        for k in 0..kinds.len()
            invariant
                ks == texts(kinds@),
                texts(quoted@) == quoted_each(ks).take(k as int),
        {
            assert(ks[k as int] == kinds@[k as int]@);
            push_text(&mut quoted, "\"".to_owned().concat(&kinds[k]).concat("\""));
            assert(quoted_each(ks).take(k + 1) == quoted_each(ks).take(k as int).push(quoted_each(ks)[k as int]));
        }
        assert(quoted_each(ks).take(kinds@.len() as int) == quoted_each(ks));
        push_text(&mut out, "kind = [".to_owned().concat(&join(&quoted, ", ")).concat("]"));
    }
    assert(texts(out@) =~= head + lang_part + kind_part);
    let ghost facts = texts(out@);
    let ghost notes = texts(it.notes@);
    assert(texts(out@) =~= facts + limits_of(notes, 0));
    for n in 0..it.notes.len()
        invariant
            notes == texts(it.notes@),
            texts(out@) == facts + limits_of(notes, n as int),
    {
        assert(notes[n as int] == it.notes@[n as int]@);
        if let Some(l) = limit(&it.notes[n]) {
            push_text(&mut out, l);
            assert(texts(out@) =~= facts + limits_of(notes, n + 1));
        }
    }
    let ghost conditions = texts(out@);
    push_text(&mut out, "warn = \"TODO: say why this shape is unwanted\"".to_owned());
    assert(texts(out@) =~= conditions + seq!["warn = \"TODO: say why this shape is unwanted\""@]);
    let ghost warned = texts(out@);
    if it.symbols.len() == 0 {
        push_text(&mut out, "".to_owned());
        push_text(&mut out, "# this hunk declares no symbol, so the draft has no `kind` to".to_owned());
        push_text(&mut out, "# match on — it will be broader than you probably want.".to_owned());
        assert(texts(out@) =~= warned + seq![
            ""@,
            "# this hunk declares no symbol, so the draft has no `kind` to"@,
            "# match on — it will be broader than you probably want."@,
        ]);
    } else {
        assert(warned + Seq::<Seq<char>>::empty() =~= warned);
    }
    out
}

} // verus!
