//! From the engine's account of a change to the items that are read, in
//! reading order.

use crate::model::{
    copy_symbols, Advisory, Edge, EdgeRef, FileOut, HunkOut, Item, LedgerEntry, OrderItem, Output, Refined, RuleHit,
};
use crate::text::{copy_strings, decimal, lower, lowercase, number, same, texts};
use crate::textmap::TextMap;
use crate::view::{bucket_key, bucket_text, ViewMode};
use vstd::prelude::*;

verus! {

/// The last of the first `n` hunks with an id.
pub open spec fn hunk_place(hunks: Seq<HunkOut>, id: Seq<char>, n: int) -> Option<int>
    decreases n,
{
    if n <= 0 {
        None
    } else if hunks[n - 1].id@ == id {
        Some(n - 1)
    } else {
        hunk_place(hunks, id, n - 1)
    }
}

/// The last hunk with an id among the first `n` files: its file and its place
/// there.
pub open spec fn hunk_in(files: Seq<FileOut>, id: Seq<char>, n: int) -> Option<(int, int)>
    decreases n,
{
    if n <= 0 {
        None
    } else {
        match hunk_place(files[n - 1].hunks@, id, files[n - 1].hunks@.len() as int) {
            Some(h) => Some((n - 1, h)),
            None => hunk_in(files, id, n - 1),
        }
    }
}

pub open spec fn hunk_of(files: Seq<FileOut>, id: Seq<char>) -> Option<(int, int)> {
    hunk_in(files, id, files.len() as int)
}

pub open spec fn known(files: Seq<FileOut>, id: Seq<char>) -> bool {
    hunk_of(files, id) is Some
}

/// A hunk's place in words; its id where it is not known.
pub open spec fn location(files: Seq<FileOut>, id: Seq<char>) -> Seq<char> {
    match hunk_of(files, id) {
        Some((f, h)) => files[f].path@ + ":L"@ + decimal(files[f].hunks@[h].new_range[0] as int),
        None => id,
    }
}

/// How many of the first `n` entries of the reading order are known.
pub open spec fn known_count(order: Seq<OrderItem>, files: Seq<FileOut>, n: int) -> int
    decreases n,
{
    if n <= 0 {
        0
    } else {
        known_count(order, files, n - 1) + if known(files, order[n - 1].hunk@) {
            1int
        } else {
            0
        }
    }
}

/// The item that an id stands for, by the last of the first `n` entries that
/// name it.
pub open spec fn item_place(order: Seq<OrderItem>, files: Seq<FileOut>, id: Seq<char>, n: int) -> Option<int>
    decreases n,
{
    if n <= 0 || !known(files, id) {
        None
    } else if order[n - 1].hunk@ == id {
        Some(known_count(order, files, n - 1))
    } else {
        item_place(order, files, id, n - 1)
    }
}

/// The last entry of the symbol ledger that is anchored to an id.
pub open spec fn ledger_place(ledger: Seq<LedgerEntry>, id: Seq<char>, n: int) -> Option<int>
    decreases n,
{
    if n <= 0 {
        None
    } else if ledger[n - 1].at@ == id {
        Some(n - 1)
    } else {
        ledger_place(ledger, id, n - 1)
    }
}

/// The last of the first `n` parts that an id belongs to, from 1.
pub open spec fn cluster_in(clusters: Seq<Vec<String>>, id: Seq<char>, n: int) -> Option<int>
    decreases n,
{
    if n <= 0 {
        None
    } else if texts(clusters[n - 1]@).contains(id) {
        Some(n)
    } else {
        cluster_in(clusters, id, n - 1)
    }
}

/// The part that an id belongs to, where there is more than one.
pub open spec fn cluster_number(clusters: Seq<Vec<String>>, id: Seq<char>) -> Option<int> {
    if clusters.len() > 1 {
        cluster_in(clusters, id, clusters.len() as int)
    } else {
        None
    }
}

/// What an edge's line shows and where it leads.
pub ghost struct EdgeText {
    pub label: Seq<char>,
    pub target: Option<usize>,
    pub dependency: bool,
}

impl EdgeRef {
    pub open spec fn text(self) -> EdgeText {
        EdgeText { label: self.label@, target: self.target, dependency: self.dependency }
    }
}

pub open spec fn edge_texts(s: Seq<EdgeRef>) -> Seq<EdgeText> {
    Seq::new(s.len(), |i: int| s[i].text())
}

pub open spec fn as_place(p: Option<int>) -> Option<usize> {
    match p {
        Some(i) => Some(i as usize),
        None => None,
    }
}

/// An edge as hunk `id` sees it: toward the use of what it defines, or toward
/// the definition of what it uses.
pub open spec fn edge_seen(out: Output, e: Edge, id: Seq<char>) -> EdgeText {
    let defines = e.from@ == id;
    let other = if defines {
        e.to@
    } else {
        e.from@
    };
    EdgeText {
        label: (if defines {
            "→ "@
        } else {
            "← "@
        }) + location(out.files@, other) + "   "@ + e.why@,
        target: as_place(item_place(out.order@, out.files@, other, out.order@.len() as int)),
        dependency: !defines,
    }
}

/// The edges among the first `n` that touch hunk `id`, as it sees them.
pub open spec fn edges_seen(out: Output, id: Seq<char>, n: int) -> Seq<EdgeText>
    decreases n,
{
    if n <= 0 {
        Seq::empty()
    } else {
        let before = edges_seen(out, id, n - 1);
        let e = out.edges@[n - 1];
        if e.from@ == id || e.to@ == id {
            before.push(edge_seen(out, e, id))
        } else {
            before
        }
    }
}

/// Whether a rule warns about a hunk.
pub open spec fn warned(rules: Seq<RuleHit>) -> bool {
    exists|i: int| 0 <= i < rules.len() && (#[trigger] rules[i]).level@ == "warn"@
}

/// The sign before a hunk's row.
pub open spec fn sign_of(h: HunkOut) -> Seq<char> {
    if h.advisories@.len() > 0 || warned(h.rules@) {
        "⚠ "@
    } else if h.noise {
        "· "@
    } else {
        ""@
    }
}

/// Whether an item shows a hunk of the account.
pub open spec fn shows(it: Item, out: Output, path: Seq<char>, h: HunkOut) -> bool {
    let ledger = as_place(ledger_place(out.ledger@, h.id@, out.ledger@.len() as int));
    &&& it.path@ == path
    &&& it.old_range == h.old_range
    &&& it.new_range == h.new_range
    &&& it.mark@ == sign_of(h)
    &&& it.cat@ == lowercase(h.category@)
    &&& it.rationale@ == h.rationale@
    &&& it.details@ == h.details@
    &&& it.notes@ == h.notes@
    &&& it.uses_at@ == h.uses_at@
    &&& edge_texts(it.edges@) == edges_seen(out, h.id@, out.edges@.len() as int)
    &&& it.bucket@ == bucket_text(ViewMode::Ledger, ledger, h.group@)
    &&& it.ledger == ledger
    &&& it.advisories@ == h.advisories@
    &&& it.noise == h.noise
    &&& it.comment == h.comment
    &&& it.symbols@ == h.symbols@
    &&& it.enclosing == h.enclosing
    &&& it.group@ == h.group@
    &&& it.rules@ == h.rules@
    &&& it.refined.added@.len() == 0
    &&& it.refined.removed@.len() == 0
    &&& it.cluster == as_place(cluster_number(out.clusters@, h.id@))
}

/// Whether the items are those of the reading order: one for each entry that is
/// known, in order.
pub open spec fn items_of(items: Seq<Item>, out: Output, n: int) -> bool {
    &&& items.len() == known_count(out.order@, out.files@, n)
    &&& forall|k: int|
        0 <= k < n && known(out.files@, (#[trigger] out.order@[k]).hunk@) ==> {
            let (f, h) = hunk_of(out.files@, out.order@[k].hunk@)->0;
            shows(
                items[known_count(out.order@, out.files@, k)],
                out,
                out.files@[f].path@,
                out.files@[f].hunks@[h],
            )
        }
}

/// Where an id was found, it is.
pub proof fn lemma_hunk_in(files: Seq<FileOut>, id: Seq<char>, n: int)
    requires
        0 <= n <= files.len(),
    ensures
        hunk_in(files, id, n) matches Some((f, h)) ==> 0 <= f < n && 0 <= h < files[f].hunks@.len()
            && files[f].hunks@[h].id@ == id,
    decreases n,
{
    if n > 0 {
        lemma_hunk_place(files[n - 1].hunks@, id, files[n - 1].hunks@.len() as int);
        lemma_hunk_in(files, id, n - 1);
    }
}

proof fn lemma_hunk_place(hunks: Seq<HunkOut>, id: Seq<char>, n: int)
    requires
        0 <= n <= hunks.len(),
    ensures
        hunk_place(hunks, id, n) matches Some(h) ==> 0 <= h < n && hunks[h].id@ == id,
    decreases n,
{
    if n > 0 {
        lemma_hunk_place(hunks, id, n - 1);
    }
}

fn find_hunk(files: &Vec<FileOut>, id: &str) -> (r: Option<(usize, usize)>)
    ensures
        match r {
            Some((f, h)) => hunk_of(files@, id@) == Some((f as int, h as int)) && f < files@.len() && h
                < files@[f as int].hunks@.len() && files@[f as int].hunks@[h as int].id@ == id@,
            None => hunk_of(files@, id@) is None,
        },
{
    let mut f: usize = files.len();
    while f > 0
        invariant
            f <= files@.len(),
            hunk_of(files@, id@) == hunk_in(files@, id@, f as int),
        decreases f,
    {
        let hunks = &files[f - 1].hunks;
        let mut h: usize = hunks.len();
        while h > 0
            invariant
                0 < f <= files@.len(),
                hunks@ == files@[f - 1].hunks@,
                h <= hunks@.len(),
                hunk_place(hunks@, id@, hunks@.len() as int) == hunk_place(hunks@, id@, h as int),
                hunk_of(files@, id@) == hunk_in(files@, id@, f as int),
            decreases h,
        {
            if same(&hunks[h - 1].id, id) {
                return Some((f - 1, h - 1));
            }
            h = h - 1;
        }
        f = f - 1;
    }
    None
}

fn locate(files: &Vec<FileOut>, id: &str) -> (r: String)
    ensures
        r@ == location(files@, id@),
{
    match find_hunk(files, id) {
        Some((f, h)) => files[f].path.clone().concat(":L").concat(
            &number(files[f].hunks[h].new_range[0]),
        ),
        None => id.to_owned(),
    }
}

/// Entries that are known only add up.
pub proof fn lemma_known_count(order: Seq<OrderItem>, files: Seq<FileOut>, a: int, b: int)
    requires
        0 <= a <= b,
    ensures
        0 <= known_count(order, files, a) <= known_count(order, files, b) <= b,
        known_count(order, files, b) - known_count(order, files, a) <= b - a,
    decreases b,
{
    if b > 0 {
        if a < b {
            lemma_known_count(order, files, a, b - 1);
        } else {
            lemma_known_count(order, files, a - 1, b - 1);
        }
    }
}

fn find_item(out: &Output, id: &str) -> (r: Option<usize>)
    ensures
        r == as_place(item_place(out.order@, out.files@, id@, out.order@.len() as int)),
{
    if find_hunk(&out.files, id).is_none() {
        return None;
    }
    let mut found: Option<usize> = None;
    let mut count: usize = 0;
    for k in 0..out.order.len()
        invariant
            known(out.files@, id@),
            count == known_count(out.order@, out.files@, k as int),
            count <= k,
            found == as_place(item_place(out.order@, out.files@, id@, k as int)),
    {
        if same(&out.order[k].hunk, id) {
            found = Some(count);
        }
        if find_hunk(&out.files, &out.order[k].hunk).is_some() {
            count = count + 1;
        }
    }
    found
}

fn find_ledger(ledger: &Vec<LedgerEntry>, id: &str) -> (r: Option<usize>)
    ensures
        r == as_place(ledger_place(ledger@, id@, ledger@.len() as int)),
{
    let mut n: usize = ledger.len();
    while n > 0
        invariant
            n <= ledger@.len(),
            ledger_place(ledger@, id@, ledger@.len() as int) == ledger_place(ledger@, id@, n as int),
        decreases n,
    {
        if same(&ledger[n - 1].at, id) {
            return Some(n - 1);
        }
        n = n - 1;
    }
    None
}

fn find_cluster(clusters: &Vec<Vec<String>>, id: &str) -> (r: Option<usize>)
    ensures
        r == as_place(cluster_number(clusters@, id@)),
{
    if clusters.len() <= 1 {
        return None;
    }
    let mut n: usize = clusters.len();
    while n > 0
        invariant
            n <= clusters@.len(),
            clusters@.len() > 1,
            cluster_in(clusters@, id@, clusters@.len() as int) == cluster_in(clusters@, id@, n as int),
        decreases n,
    {
        if crate::editor::holds(&clusters[n - 1], id) {
            return Some(n);
        }
        n = n - 1;
    }
    None
}

fn see_edges(out: &Output, id: &str) -> (r: Vec<EdgeRef>)
    ensures
        edge_texts(r@) == edges_seen(*out, id@, out.edges@.len() as int),
{
    let mut seen: Vec<EdgeRef> = Vec::new();
    assert(edge_texts(seen@) == edges_seen(*out, id@, 0));
    for k in 0..out.edges.len()
        invariant
            edge_texts(seen@) == edges_seen(*out, id@, k as int),
    {
        let e = &out.edges[k];
        let defines = same(&e.from, id);
        if defines || same(&e.to, id) {
            let other = if defines {
                &e.to
            } else {
                &e.from
            };
            let arrow = if defines {
                "→ "
            } else {
                "← "
            };
            let label = arrow.to_owned().concat(&locate(&out.files, other)).concat("   ").concat(
                &e.why,
            );
            let r = EdgeRef { label, target: find_item(out, other), dependency: !defines };
            let ghost before = edge_texts(seen@);
            assert(r.text() == edge_seen(*out, *e, id@));
            seen.push(r);
            assert(edge_texts(seen@) == before.push(r.text()));
        }
    }
    seen
}

pub fn is_warned(rules: &Vec<RuleHit>) -> (r: bool)
    ensures
        r == warned(rules@),
{
    for i in 0..rules.len()
        invariant
            forall|k: int| 0 <= k < i ==> (#[trigger] rules@[k]).level@ != "warn"@,
    {
        if same(&rules[i].level, "warn") {
            assert(rules@[i as int].level@ == "warn"@);
            return true;
        }
    }
    false
}

fn copy_rules(v: &Vec<RuleHit>) -> (r: Vec<RuleHit>)
    ensures
        r@ == v@,
{
    let mut r: Vec<RuleHit> = Vec::new();
    for i in 0..v.len()
        invariant
            r@ == v@.take(i as int),
    {
        r.push(
            RuleHit {
                rule: v[i].rule.clone(),
                level: v[i].level.clone(),
                message: v[i].message.clone(),
            },
        );
        assert(v@.take(i + 1) == v@.take(i as int).push(v@[i as int]));
    }
    assert(v@.take(v@.len() as int) == v@);
    r
}

fn copy_advisories(v: &Vec<Advisory>) -> (r: Vec<Advisory>)
    ensures
        r@ == v@,
{
    let mut r: Vec<Advisory> = Vec::new();
    for i in 0..v.len()
        invariant
            r@ == v@.take(i as int),
    {
        r.push(
            Advisory {
                construct: v[i].construct.clone(),
                message: v[i].message.clone(),
                verdict: v[i].verdict,
            },
        );
        assert(v@.take(i + 1) == v@.take(i as int).push(v@[i as int]));
    }
    assert(v@.take(v@.len() as int) == v@);
    r
}

fn copy_rows(v: &Vec<usize>) -> (r: Vec<usize>)
    ensures
        r@ == v@,
{
    let mut r: Vec<usize> = Vec::new();
    for i in 0..v.len()
        invariant
            r@ == v@.take(i as int),
    {
        r.push(v[i]);
        assert(v@.take(i + 1) == v@.take(i as int).push(v@[i as int]));
    }
    assert(v@.take(v@.len() as int) == v@);
    r
}

fn build_item(out: &Output, path: &str, h: &HunkOut) -> (r: Item)
    ensures
        shows(r, *out, path@, *h),
{
    let ledger = find_ledger(&out.ledger, &h.id);
    let mark = if h.advisories.len() > 0 || is_warned(&h.rules) {
        "⚠ "
    } else if h.noise {
        "· "
    } else {
        ""
    };
    Item {
        path: path.to_owned(),
        old_range: h.old_range,
        new_range: h.new_range,
        mark: mark.to_owned(),
        cat: lower(&h.category),
        rationale: h.rationale.clone(),
        details: copy_strings(&h.details),
        notes: copy_strings(&h.notes),
        uses_at: copy_rows(&h.uses_at),
        edges: see_edges(out, &h.id),
        bucket: bucket_key(ViewMode::Ledger, ledger, &h.group),
        ledger,
        advisories: copy_advisories(&h.advisories),
        noise: h.noise,
        comment: h.comment,
        symbols: copy_symbols(&h.symbols),
        enclosing: h.enclosing.clone(),
        group: h.group.clone(),
        rules: copy_rules(&h.rules),
        refined: Refined::none(),
        cluster: find_cluster(&out.clusters, &h.id),
    }
}

/// The items of a review, in reading order: an entry whose hunk is not in the
/// account is left out.
pub fn build_items(out: &Output) -> (r: Vec<Item>)
    ensures
        items_of(r@, *out, out.order@.len() as int),
{
    let mut items: Vec<Item> = Vec::new();
    for k in 0..out.order.len()
        invariant
            items_of(items@, *out, k as int),
    {
        let ghost before = items@;
        proof {
            lemma_known_count(out.order@, out.files@, 0, k as int);
        }
        if let Some((f, h)) = find_hunk(&out.files, &out.order[k].hunk) {
            let it = build_item(out, &out.files[f].path, &out.files[f].hunks[h]);
            items.push(it);
            assert(items@[before.len() as int] == it);
        }
        assert forall|j: int|
            0 <= j < k + 1 && known(out.files@, (#[trigger] out.order@[j]).hunk@) implies {
            let (f, h) = hunk_of(out.files@, out.order@[j].hunk@)->0;
            shows(
                items@[known_count(out.order@, out.files@, j)],
                *out,
                out.files@[f].path@,
                out.files@[f].hunks@[h],
            )
        } by {
            if j < k {
                lemma_known_count(out.order@, out.files@, j + 1, k as int);
                lemma_known_count(out.order@, out.files@, 0, j);
                assert(items@[known_count(out.order@, out.files@, j)] == before[known_count(
                    out.order@,
                    out.files@,
                    j,
                )]);
            }
        }
    }
    items
}

proof fn lemma_item_place(order: Seq<OrderItem>, files: Seq<FileOut>, id: Seq<char>, n: int)
    requires
        0 <= n,
    ensures
        item_place(order, files, id, n) matches Some(i) ==> 0 <= i < known_count(order, files, n),
    decreases n,
{
    if n > 0 {
        lemma_known_count(order, files, 0, n - 1);
        lemma_item_place(order, files, id, n - 1);
    }
}

proof fn lemma_edges_seen(out: Output, id: Seq<char>, n: int)
    requires
        0 <= n <= out.edges@.len(),
        out.order@.len() <= usize::MAX,
    ensures
        forall|k: int|
            0 <= k < edges_seen(out, id, n).len() ==> ((#[trigger] edges_seen(out, id, n)[k]).target matches Some(
                t,
            ) ==> t as int <= usize::MAX && (t as int) < known_count(out.order@, out.files@, out.order@.len() as int)),
    decreases n,
{
    if n > 0 {
        lemma_edges_seen(out, id, n - 1);
        let e = out.edges@[n - 1];
        let other = if e.from@ == id {
            e.to@
        } else {
            e.from@
        };
        lemma_item_place(out.order@, out.files@, other, out.order@.len() as int);
        lemma_known_count(out.order@, out.files@, 0, out.order@.len() as int);
    }
}

/// Every edge of an item that leads somewhere leads to an item of the review.
pub proof fn law_edges_lead_to_items(items: Seq<Item>, out: Output, i: int, j: int)
    requires
        items_of(items, out, out.order@.len() as int),
        out.order@.len() <= usize::MAX,
        0 <= i < items.len(),
        0 <= j < items[i].edges@.len(),
        items[i].edges@[j].target is Some,
    ensures
        items[i].edges@[j].target->0 < items.len(),
{
    let n = out.order@.len() as int;
    let k = lemma_entry_of(out.order@, out.files@, i, n);
    let (f, h) = hunk_of(out.files@, out.order@[k].hunk@)->0;
    let hunk = out.files@[f].hunks@[h];
    assert(shows(items[i], out, out.files@[f].path@, hunk));
    lemma_edges_seen(out, hunk.id@, out.edges@.len() as int);
    assert(edge_texts(items[i].edges@)[j] == items[i].edges@[j].text());
    assert(edges_seen(out, hunk.id@, out.edges@.len() as int)[j].target == items[i].edges@[j].target);
}

/// What machine numbers ask of an account.
pub open spec fn output_fits(out: Output) -> bool {
    forall|f: int, h: int|
        0 <= f < out.files@.len() && 0 <= h < out.files@[f].hunks@.len() ==> (
        #[trigger] out.files@[f].hunks@[h]).new_range[0] + out.files@[f].hunks@[h].old_range[1] <= usize::MAX
}

/// The items of an account that fits do too, and their edges lead to items.
pub proof fn lemma_items_in_order(items: Seq<Item>, out: Output)
    requires
        items_of(items, out, out.order@.len() as int),
        out.order@.len() <= usize::MAX,
        output_fits(out),
    ensures
        forall|i: int|
            0 <= i < items.len() ==> (#[trigger] items[i]).new_range[0] + items[i].old_range[1] <= usize::MAX,
        crate::identity::targets_in(items),
{
    assert forall|i: int| 0 <= i < items.len() implies (#[trigger] items[i]).new_range[0] + items[i].old_range[1]
        <= usize::MAX by {
        let n = out.order@.len() as int;
        let k = lemma_entry_of(out.order@, out.files@, i, n);
        let (f, h) = hunk_of(out.files@, out.order@[k].hunk@)->0;
        lemma_hunk_in(out.files@, out.order@[k].hunk@, out.files@.len() as int);
        assert(shows(items[i], out, out.files@[f].path@, out.files@[f].hunks@[h]));
    }
    assert forall|i: int, j: int|
        0 <= i < items.len() && 0 <= j < items[i].edges@.len() && (
        #[trigger] items[i].edges@[j]).target is Some implies items[i].edges@[j].target->0 < items.len() by {
        law_edges_lead_to_items(items, out, i, j);
    }
}

/// The entry of the reading order that item `i` was made from.
proof fn lemma_entry_of(order: Seq<OrderItem>, files: Seq<FileOut>, i: int, n: int) -> (k: int)
    requires
        0 <= i < known_count(order, files, n),
        0 <= n <= order.len(),
    ensures
        0 <= k < n,
        known(files, order[k].hunk@),
        known_count(order, files, k) == i,
    decreases n,
{
    if known(files, order[n - 1].hunk@) && known_count(order, files, n - 1) == i {
        n - 1
    } else {
        lemma_entry_of(order, files, i, n - 1)
    }
}

/// The reasons of the groups, by id.
pub open spec fn reasons_of(out: Output, n: int) -> Map<Seq<char>, Seq<char>>
    decreases n,
{
    if n <= 0 {
        Map::empty()
    } else {
        reasons_of(out, n - 1).insert(out.groups@[n - 1].id@, out.groups@[n - 1].reason@)
    }
}

/// The texts of a map's strings.
pub open spec fn map_texts(m: Map<Seq<char>, String>) -> Map<Seq<char>, Seq<char>> {
    m.map_values(|s: String| s@)
}

pub fn group_reasons(out: &Output) -> (r: TextMap<String>)
    ensures
        map_texts(r@) == reasons_of(*out, out.groups@.len() as int),
{
    let mut m: TextMap<String> = TextMap::new();
    assert(map_texts(m@) == reasons_of(*out, 0));
    for i in 0..out.groups.len()
        invariant
            map_texts(m@) == reasons_of(*out, i as int),
    {
        let ghost before = m@;
        let g = &out.groups[i];
        m.insert(g.id.clone(), g.reason.clone());
        assert(map_texts(m@) == map_texts(before).insert(g.id@, g.reason@));
    }
    m
}

/// Gives each item the intra-line refinement that was found for it, if any.
pub fn refine_items(items: &mut Vec<Item>, refined: Vec<Option<Refined>>)
    requires
        refined@.len() == old(items)@.len(),
    ensures
        final(items)@.len() == old(items)@.len(),
        forall|i: int|
            0 <= i < old(items)@.len() ==> #[trigger] final(items)@[i] == (match refined@[i] {
                Some(r) => Item { refined: r, ..old(items)@[i] },
                None => old(items)@[i],
            }),
{
    let ghost start = items@;
    let ghost all = refined@;
    let mut refined = refined;
    let n: usize = items.len();
    let mut i: usize = n;
    while i > 0
        invariant
            i <= n,
            n == items@.len(),
            items@.len() == start.len(),
            all.len() == n,
            refined@ == all.take(i as int),
            forall|k: int| 0 <= k < i ==> #[trigger] items@[k] == start[k],
            forall|k: int|
                i <= k < n ==> #[trigger] items@[k] == (match all[k] {
                    Some(r) => Item { refined: r, ..start[k] },
                    None => start[k],
                }),
        decreases i,
    {
        let last = refined.pop();
        assert(all.take(i as int).drop_last() == all.take(i - 1));
        if let Some(Some(r)) = last {
            items[i - 1].refined = r;
        }
        i = i - 1;
    }
}

} // verus!
