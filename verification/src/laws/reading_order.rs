//! The list of the hunks: what each item tells of its hunk, and which items it
//! leans on.

use crate::items::{
    cluster_in, cluster_number, edge_seen, edge_texts, edges_seen, hunk_in, hunk_of, hunk_place, item_place, items_of,
    known, known_count, ledger_place, lemma_hunk_in, reasons_of, shows, sign_of,
};
use crate::model::{FileOut, HunkOut, Item, LedgerEntry, OrderItem, Output};
use crate::text::{decimal, lowercase, texts};
use vstd::prelude::*;

verus! {

/// Whether every entry of the reading order names a hunk of the account, no two
/// the same one.
pub open spec fn complete(out: Output) -> bool {
    &&& forall|k: int| 0 <= k < out.order@.len() ==> exists|f: int, h: int| #[trigger]
        is_hunk(out, f, h) && out.files@[f].hunks@[h].id@ == (#[trigger] out.order@[k]).hunk@
    &&& forall|k: int, l: int|
        0 <= k < l < out.order@.len() ==> (#[trigger] out.order@[k]).hunk@ != (#[trigger] out.order@[l]).hunk@
}

pub open spec fn is_hunk(out: Output, f: int, h: int) -> bool {
    0 <= f < out.files@.len() && 0 <= h < out.files@[f].hunks@.len()
}

/// Whether no two hunks of an account go by one id.
pub open spec fn ids_differ(out: Output) -> bool {
    forall|f: int, h: int, g: int, i: int| #[trigger]
        is_hunk(out, f, h) && #[trigger] is_hunk(out, g, i) && out.files@[f].hunks@[h].id@
            == out.files@[g].hunks@[i].id@ ==> f == g && h == i
}

proof fn lemma_hunk_place_found(hunks: Seq<HunkOut>, id: Seq<char>, h: int, n: int)
    requires
        0 <= h < n <= hunks.len(),
        hunks[h].id@ == id,
    ensures
        hunk_place(hunks, id, n) is Some,
    decreases n,
{
    if hunks[n - 1].id@ != id {
        lemma_hunk_place_found(hunks, id, h, n - 1);
    }
}

proof fn lemma_hunk_found(files: Seq<FileOut>, id: Seq<char>, f: int, h: int, n: int)
    requires
        0 <= f < n <= files.len(),
        0 <= h < files[f].hunks@.len(),
        files[f].hunks@[h].id@ == id,
    ensures
        hunk_in(files, id, n) is Some,
    decreases n,
{
    if f == n - 1 {
        lemma_hunk_place_found(files[f].hunks@, id, h, files[f].hunks@.len() as int);
    } else {
        lemma_hunk_found(files, id, f, h, n - 1);
    }
}

/// The hunk that an id names is found.
proof fn lemma_the_hunk(out: Output, f: int, h: int)
    requires
        is_hunk(out, f, h),
        ids_differ(out),
    ensures
        hunk_of(out.files@, out.files@[f].hunks@[h].id@) == Some((f, h)),
{
    let id = out.files@[f].hunks@[h].id@;
    lemma_hunk_found(out.files@, id, f, h, out.files@.len() as int);
    lemma_hunk_in(out.files@, id, out.files@.len() as int);
    let (g, i) = hunk_of(out.files@, id)->0;
    assert(is_hunk(out, g, i));
}

proof fn lemma_complete_count(out: Output, n: int)
    requires
        complete(out),
        0 <= n <= out.order@.len(),
    ensures
        known_count(out.order@, out.files@, n) == n,
        forall|k: int| 0 <= k < n ==> known(out.files@, (#[trigger] out.order@[k]).hunk@),
    decreases n,
{
    if n > 0 {
        lemma_complete_count(out, n - 1);
        let id = out.order@[n - 1].hunk@;
        let (f, h) = choose|f: int, h: int| #[trigger] is_hunk(out, f, h) && out.files@[f].hunks@[h].id@ == id;
        lemma_hunk_found(out.files@, id, f, h, out.files@.len() as int);
    }
}

proof fn lemma_place_in_order(out: Output, k: int, n: int)
    requires
        complete(out),
        0 <= k < n <= out.order@.len(),
    ensures
        item_place(out.order@, out.files@, out.order@[k].hunk@, n) == Some(k),
    decreases n,
{
    lemma_complete_count(out, out.order@.len() as int);
    lemma_complete_count(out, n - 1);
    if k < n - 1 {
        lemma_place_in_order(out, k, n - 1);
    }
}

proof fn lemma_place_is_of_the_id(out: Output, id: Seq<char>, n: int)
    requires
        complete(out),
        0 <= n <= out.order@.len(),
    ensures
        item_place(out.order@, out.files@, id, n) matches Some(k) ==> 0 <= k < n && out.order@[k].hunk@ == id,
    decreases n,
{
    if n > 0 {
        lemma_complete_count(out, n - 1);
        lemma_place_is_of_the_id(out, id, n - 1);
    }
}

/// The edge number `e` of an account is among those that either end sees.
proof fn lemma_edge_is_seen(out: Output, id: Seq<char>, e: int, n: int) -> (x: int)
    requires
        0 <= e < n <= out.edges@.len(),
        out.edges@[e].from@ == id || out.edges@[e].to@ == id,
    ensures
        0 <= x < edges_seen(out, id, n).len(),
        edges_seen(out, id, n)[x] == edge_seen(out, out.edges@[e], id),
    decreases n,
{
    if e == n - 1 {
        edges_seen(out, id, n - 1).len() as int
    } else {
        lemma_edge_is_seen(out, id, e, n - 1)
    }
}

/// What a hunk sees is an edge of the account that it is an end of.
proof fn lemma_seen_is_an_edge(out: Output, id: Seq<char>, x: int, n: int) -> (e: int)
    requires
        0 <= n <= out.edges@.len(),
        0 <= x < edges_seen(out, id, n).len(),
    ensures
        0 <= e < n,
        out.edges@[e].from@ == id || out.edges@[e].to@ == id,
        edges_seen(out, id, n)[x] == edge_seen(out, out.edges@[e], id),
    decreases n,
{
    let before = edges_seen(out, id, n - 1);
    if n > 0 && x < before.len() {
        lemma_seen_is_an_edge(out, id, x, n - 1)
    } else {
        n - 1
    }
}

proof fn lemma_item_of_entry(items: Seq<Item>, out: Output, k: int) -> (r: (int, int))
    requires
        complete(out),
        items_of(items, out, out.order@.len() as int),
        0 <= k < out.order@.len(),
    ensures
        items.len() == out.order@.len(),
        is_hunk(out, r.0, r.1),
        out.files@[r.0].hunks@[r.1].id@ == out.order@[k].hunk@,
        shows(items[k], out, out.files@[r.0].path@, out.files@[r.0].hunks@[r.1]),
{
    lemma_complete_count(out, out.order@.len() as int);
    lemma_complete_count(out, k);
    let id = out.order@[k].hunk@;
    lemma_hunk_in(out.files@, id, out.files@.len() as int);
    hunk_of(out.files@, id)->0
}

/// Whether item `j` has an edge that says it uses what item `c` defines.
pub open spec fn leans_on(items: Seq<Item>, j: int, c: int) -> bool {
    exists|x: int|
        0 <= x < items[j].edges@.len() && (#[trigger] items[j].edges@[x]).dependency && items[j].edges@[x].target
            == Some(c as usize)
}

/// An edge of the account from one hunk to another makes the second lean on the
/// first: what is used stands at the edge's start. The first sees it too, as no
/// dependency of its own.
pub proof fn law_the_end_of_an_edge_leans_on_its_start(items: Seq<Item>, out: Output, e: int, a: int, b: int)
    requires
        complete(out),
        out.order@.len() <= usize::MAX,
        items_of(items, out, out.order@.len() as int),
        0 <= e < out.edges@.len(),
        0 <= a < out.order@.len(),
        0 <= b < out.order@.len(),
        a != b,
        out.edges@[e].from@ == out.order@[a].hunk@,
        out.edges@[e].to@ == out.order@[b].hunk@,
    ensures
        items.len() == out.order@.len(),
        leans_on(items, b, a),
        exists|x: int|
            0 <= x < items[a].edges@.len() && !(#[trigger] items[a].edges@[x]).dependency && items[a].edges@[x].target
                == Some(b as usize),
{
    let from = out.edges@[e].from@;
    let to = out.edges@[e].to@;
    let (f, h) = lemma_item_of_entry(items, out, a);
    let (g, i) = lemma_item_of_entry(items, out, b);
    assert(from != to) by {
        if a < b {
            assert(out.order@[a].hunk@ != out.order@[b].hunk@);
        } else {
            assert(out.order@[b].hunk@ != out.order@[a].hunk@);
        }
    }
    let n = out.edges@.len() as int;
    let x = lemma_edge_is_seen(out, from, e, n);
    let y = lemma_edge_is_seen(out, to, e, n);
    lemma_place_in_order(out, a, out.order@.len() as int);
    lemma_place_in_order(out, b, out.order@.len() as int);
    assert(edge_texts(items[a].edges@)[x] == items[a].edges@[x].text());
    assert(edge_texts(items[b].edges@)[y] == items[b].edges@[y].text());
    assert(items[b].edges@[y].dependency && items[b].edges@[y].target == Some(a as usize));
    assert(!items[a].edges@[x].dependency && items[a].edges@[x].target == Some(b as usize));
}

/// An item leans on another only where the account has an edge from the other's
/// hunk to its own.
pub proof fn law_nothing_leans_without_an_edge(items: Seq<Item>, out: Output, b: int, a: int)
    requires
        complete(out),
        out.order@.len() <= usize::MAX,
        items_of(items, out, out.order@.len() as int),
        0 <= a < out.order@.len(),
        0 <= b < out.order@.len(),
        leans_on(items, b, a),
    ensures
        exists|e: int|
            0 <= e < out.edges@.len() && (#[trigger] out.edges@[e]).from@ == out.order@[a].hunk@ && out.edges@[e].to@
                == out.order@[b].hunk@,
{
    let x = choose|x: int|
        0 <= x < items[b].edges@.len() && (#[trigger] items[b].edges@[x]).dependency && items[b].edges@[x].target
            == Some(a as usize);
    let (g, i) = lemma_item_of_entry(items, out, b);
    let id = out.order@[b].hunk@;
    let n = out.edges@.len() as int;
    assert(edge_texts(items[b].edges@)[x] == items[b].edges@[x].text());
    let e = lemma_seen_is_an_edge(out, id, x, n);
    lemma_place_is_of_the_id(out, out.edges@[e].from@, out.order@.len() as int);
    assert(out.edges@[e].to@ == id);
    assert(out.edges@[e].from@ == out.order@[a].hunk@);
}

/// The line of an edge names the hunk at its other end, by the path and the first
/// line, and says what the edge is for; the arrow points from the definition.
pub proof fn law_the_line_of_an_edge_names_the_other_end(
    items: Seq<Item>,
    out: Output,
    k: int,
    e: int,
    f: int,
    h: int,
)
    requires
        complete(out),
        ids_differ(out),
        items_of(items, out, out.order@.len() as int),
        0 <= k < out.order@.len(),
        0 <= e < out.edges@.len(),
        is_hunk(out, f, h),
        out.files@[f].hunks@[h].id@ != out.order@[k].hunk@,
        out.edges@[e].from@ == out.order@[k].hunk@ && out.edges@[e].to@ == out.files@[f].hunks@[h].id@
            || out.edges@[e].to@ == out.order@[k].hunk@ && out.edges@[e].from@ == out.files@[f].hunks@[h].id@,
    ensures
        ({
            let place = out.files@[f].path@ + ":L"@ + decimal(out.files@[f].hunks@[h].new_range[0] as int);
            let arrow = if out.edges@[e].from@ == out.order@[k].hunk@ {
                "→ "@
            } else {
                "← "@
            };
            exists|x: int|
                0 <= x < items[k].edges@.len() && (#[trigger] items[k].edges@[x]).label@ == arrow + place + "   "@
                    + out.edges@[e].why@
        }),
{
    let (g, i) = lemma_item_of_entry(items, out, k);
    let y = lemma_edge_is_seen(out, out.order@[k].hunk@, e, out.edges@.len() as int);
    assert(edge_texts(items[k].edges@)[y] == items[k].edges@[y].text());
    lemma_the_hunk(out, f, h);
}

/// Whether an item tells what a hunk of a file is.
pub open spec fn tells(it: Item, path: Seq<char>, h: HunkOut) -> bool {
    &&& it.path@ == path
    &&& it.old_range[0] == h.old_range[0] && it.old_range[1] == h.old_range[1]
    &&& it.new_range[0] == h.new_range[0] && it.new_range[1] == h.new_range[1]
    &&& it.rationale@ == h.rationale@
    &&& it.cat@ == lowercase(h.category@)
    &&& it.group@ == h.group@
    &&& it.enclosing == h.enclosing
    &&& it.noise == h.noise
    &&& it.comment == h.comment
    &&& it.symbols@ == h.symbols@
    &&& it.details@ == h.details@
    &&& it.notes@ == h.notes@
    &&& it.rules@ == h.rules@
    &&& it.advisories@ == h.advisories@
    &&& it.uses_at@ == h.uses_at@
}

/// The items are the hunks in reading order: item `k` tells of the hunk that entry
/// `k` names. A hunk that something advises on or warns of is marked so before
/// one that is noise.
pub proof fn law_the_items_are_the_hunks_in_reading_order(items: Seq<Item>, out: Output, k: int, f: int, h: int)
    requires
        complete(out),
        ids_differ(out),
        items_of(items, out, out.order@.len() as int),
        0 <= k < out.order@.len(),
        is_hunk(out, f, h),
        out.files@[f].hunks@[h].id@ == out.order@[k].hunk@,
    ensures
        items.len() == out.order@.len(),
        tells(items[k], out.files@[f].path@, out.files@[f].hunks@[h]),
        ({
            let hunk = out.files@[f].hunks@[h];
            let warned = exists|i: int| 0 <= i < hunk.rules@.len() && (#[trigger] hunk.rules@[i]).level@ == "warn"@;
            &&& items[k].mark@ == "⚠ "@ <==> hunk.advisories@.len() > 0 || warned
            &&& items[k].mark@ == "· "@ <==> hunk.advisories@.len() == 0 && !warned && hunk.noise
            &&& items[k].mark@ == ""@ <==> hunk.advisories@.len() == 0 && !warned && !hunk.noise
        }),
{
    reveal_strlit("⚠ ");
    reveal_strlit("· ");
    reveal_strlit("");
    let (g, i) = lemma_item_of_entry(items, out, k);
    assert(is_hunk(out, g, i));
    assert("⚠ "@[0] == '⚠' && "· "@[0] == '·');
    assert("⚠ "@ != "· "@);
    assert("⚠ "@.len() == 2 && "· "@.len() == 2 && ""@.len() == 0);
    assert(items[k].mark@ == sign_of(out.files@[f].hunks@[h]));
}

/// An entry of the reading order that names no hunk of the account is left out,
/// and the rest are as if it had not been there.
pub proof fn law_an_unknown_entry_is_left_out(out: Output, k: int, n: int)
    requires
        0 <= k < n <= out.order@.len(),
        forall|f: int, h: int| #[trigger] is_hunk(out, f, h) ==> out.files@[f].hunks@[h].id@ != out.order@[k].hunk@,
    ensures
        known_count(out.order@, out.files@, n) == known_count(out.order@.remove(k), out.files@, n - 1),
    decreases n,
{
    let id = out.order@[k].hunk@;
    lemma_hunk_in(out.files@, id, out.files@.len() as int);
    if known(out.files@, id) {
        let (f, h) = hunk_of(out.files@, id)->0;
        assert(is_hunk(out, f, h));
    }
    if k < n - 1 {
        law_an_unknown_entry_is_left_out(out, k, n - 1);
        assert(out.order@.remove(k)[n - 2] == out.order@[n - 1]);
    } else {
        lemma_count_of_same(out.order@, out.order@.remove(k), out.files@, n - 1);
    }
}

proof fn lemma_count_of_same(a: Seq<OrderItem>, b: Seq<OrderItem>, files: Seq<FileOut>, n: int)
    requires
        forall|i: int| 0 <= i < n ==> a[i] == b[i],
    ensures
        known_count(a, files, n) == known_count(b, files, n),
    decreases n,
{
    if n > 0 {
        lemma_count_of_same(a, b, files, n - 1);
    }
}

proof fn lemma_ledger_place(ledger: Seq<LedgerEntry>, id: Seq<char>, n: int)
    requires
        0 <= n <= ledger.len(),
    ensures
        match ledger_place(ledger, id, n) {
            Some(l) => 0 <= l < n && ledger[l].at@ == id && forall|m: int| l < m < n ==> (#[trigger] ledger[m]).at@ != id,
            None => forall|m: int| 0 <= m < n ==> (#[trigger] ledger[m]).at@ != id,
        },
    decreases n,
{
    if n > 0 {
        lemma_ledger_place(ledger, id, n - 1);
    }
}

/// An item stands under the entry of the symbol ledger that is anchored to its
/// hunk, the last one where there are several, and under none where none is.
pub proof fn law_an_item_stands_under_its_ledger_entry(items: Seq<Item>, out: Output, k: int)
    requires
        complete(out),
        out.ledger@.len() <= usize::MAX,
        items_of(items, out, out.order@.len() as int),
        0 <= k < out.order@.len(),
    ensures
        match items[k].ledger {
            Some(l) => l < out.ledger@.len() && out.ledger@[l as int].at@ == out.order@[k].hunk@ && forall|m: int|
                l < m < out.ledger@.len() ==> (#[trigger] out.ledger@[m]).at@ != out.order@[k].hunk@,
            None => forall|m: int|
                0 <= m < out.ledger@.len() ==> (#[trigger] out.ledger@[m]).at@ != out.order@[k].hunk@,
        },
{
    let (g, i) = lemma_item_of_entry(items, out, k);
    lemma_ledger_place(out.ledger@, out.order@[k].hunk@, out.ledger@.len() as int);
}

/// Each group has its own reason; the last one counts where an id comes twice.
pub proof fn law_a_group_has_its_own_reason(out: Output, g: int, n: int)
    requires
        0 <= g < n <= out.groups@.len(),
        forall|i: int| g < i < n ==> (#[trigger] out.groups@[i]).id@ != out.groups@[g].id@,
    ensures
        reasons_of(out, n).dom().contains(out.groups@[g].id@),
        reasons_of(out, n)[out.groups@[g].id@] == out.groups@[g].reason@,
    decreases n,
{
    if g < n - 1 {
        law_a_group_has_its_own_reason(out, g, n - 1);
    }
}

proof fn lemma_part(clusters: Seq<Vec<String>>, id: Seq<char>, n: int, k: int)
    requires
        0 <= k < n <= clusters.len(),
        texts(clusters[k]@).contains(id),
        forall|m: int| 0 <= m < clusters.len() && m != k ==> !texts((#[trigger] clusters[m])@).contains(id),
    ensures
        cluster_in(clusters, id, n) == Some(k + 1),
    decreases n,
{
    if k < n - 1 {
        assert(!texts(clusters[n - 1]@).contains(id));
        lemma_part(clusters, id, n - 1, k);
    }
}

/// The parts of a change are numbered from one, and a hunk has the number of
/// the part that holds it; a change that is not divided has no numbers.
pub proof fn law_a_hunk_has_the_number_of_its_part(clusters: Seq<Vec<String>>, id: Seq<char>, k: int)
    requires
        0 <= k < clusters.len(),
        texts(clusters[k]@).contains(id),
        forall|m: int| 0 <= m < clusters.len() && m != k ==> !texts((#[trigger] clusters[m])@).contains(id),
    ensures
        clusters.len() > 1 ==> cluster_number(clusters, id) == Some(k + 1),
        clusters.len() == 1 ==> cluster_number(clusters, id) is None,
{
    lemma_part(clusters, id, clusters.len() as int, k);
}

} // verus!
