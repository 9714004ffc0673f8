//! What the reading-order list shows: which items are visible, why the others
//! are not, and the rows that headers and folds make of them.

use crate::cursor::{clamp_cursor, clamped_cursor, Cursor};
use crate::filter::PathGlobs;
use crate::model::{FileLines, Item, LedgerEntry, Sources};
use crate::text::{decimal, lower, lowercase, number, same, texts};
use crate::textmap::{TextMap, TextSet};
use vstd::prelude::*;

verus! {

/// Whether an item is visible under the filters.
pub open spec fn visible(it: Item, comments_only: bool, show_all: bool, glob: Option<PathGlobs>) -> bool {
    &&& !comments_only || it.comment
    &&& show_all || !it.noise
    &&& match glob {
        Some(g) => g.keeps(it.path@),
        None => true,
    }
}

/// The places of the visible items among the first `n`, in order.
pub open spec fn visible_items(
    items: Seq<Item>,
    comments_only: bool,
    show_all: bool,
    glob: Option<PathGlobs>,
    n: int,
) -> Seq<usize>
    decreases n,
{
    if n <= 0 {
        Seq::empty()
    } else {
        let before = visible_items(items, comments_only, show_all, glob, n - 1);
        if visible(items[n - 1], comments_only, show_all, glob) {
            before.push((n - 1) as usize)
        } else {
            before
        }
    }
}

/// The items that the filters leave.
pub open spec fn view_of(
    items: Seq<Item>,
    comments_only: bool,
    show_all: bool,
    glob: Option<PathGlobs>,
) -> Seq<usize> {
    visible_items(items, comments_only, show_all, glob, items.len() as int)
}

pub open spec fn glob_value(glob: Option<&PathGlobs>) -> Option<PathGlobs> {
    match glob {
        Some(g) => Some(*g),
        None => None,
    }
}

fn is_visible(it: &Item, comments_only: bool, show_all: bool, glob: Option<&PathGlobs>) -> (r: bool)
    ensures
        r == visible(*it, comments_only, show_all, glob_value(glob)),
{
    if comments_only && !it.comment {
        return false;
    }
    if !show_all && it.noise {
        return false;
    }
    match glob {
        Some(g) => g.is_match(&it.path),
        None => true,
    }
}

pub fn compute_view(items: &[Item], comments_only: bool, show_all: bool, glob: Option<&PathGlobs>) -> (r: Vec<
    usize,
>)
    ensures
        r@ == view_of(items@, comments_only, show_all, glob_value(glob)),
{
    let mut out: Vec<usize> = Vec::new();
    for i in 0..items.len()
        invariant
            out@ == visible_items(items@, comments_only, show_all, glob_value(glob), i as int),
    {
        if is_visible(&items[i], comments_only, show_all, glob) {
            out.push(i);
        }
    }
    out
}

/// A view holds exactly the visible items, each once, in reading order.
pub proof fn law_a_view_is_the_visible_items_in_order(
    items: Seq<Item>,
    comments_only: bool,
    show_all: bool,
    glob: Option<PathGlobs>,
)
    requires
        items.len() <= usize::MAX,
    ensures
        ({
            let view = view_of(items, comments_only, show_all, glob);
            &&& forall|k: int| 0 <= k < view.len() ==> (#[trigger] view[k]) < items.len() && visible(
                items[view[k] as int],
                comments_only,
                show_all,
                glob,
            )
            &&& forall|a: int, b: int| 0 <= a < b < view.len() ==> (#[trigger] view[a]) < (#[trigger] view[b])
            &&& forall|i: int|
                0 <= i < items.len() && visible(#[trigger] items[i], comments_only, show_all, glob)
                    ==> view.contains(i as usize)
        }),
{
    lemma_visible_items(items, comments_only, show_all, glob, items.len() as int);
}

pub proof fn lemma_visible_items(
    items: Seq<Item>,
    comments_only: bool,
    show_all: bool,
    glob: Option<PathGlobs>,
    n: int,
)
    requires
        0 <= n <= items.len() <= usize::MAX,
    ensures
        ({
            let view = visible_items(items, comments_only, show_all, glob, n);
            &&& forall|k: int| 0 <= k < view.len() ==> (#[trigger] view[k]) < n && visible(
                items[view[k] as int],
                comments_only,
                show_all,
                glob,
            )
            &&& forall|a: int, b: int| 0 <= a < b < view.len() ==> (#[trigger] view[a]) < (#[trigger] view[b])
            &&& forall|i: int|
                0 <= i < n && visible(#[trigger] items[i], comments_only, show_all, glob)
                    ==> view.contains(i as usize)
        }),
    decreases n,
{
    if n > 0 {
        lemma_visible_items(items, comments_only, show_all, glob, n - 1);
        let before = visible_items(items, comments_only, show_all, glob, n - 1);
        let view = visible_items(items, comments_only, show_all, glob, n);
        assert forall|i: int|
            0 <= i < n && visible(#[trigger] items[i], comments_only, show_all, glob) implies view.contains(
            i as usize,
        ) by {
            if i < n - 1 {
                assert(before.contains(i as usize));
                let w = choose|w: int| 0 <= w < before.len() && before[w] == i as usize;
                assert(view[w] == i as usize);
            } else {
                assert(view[before.len() as int] == i as usize);
            }
        }
    }
}

/// Why the hidden items are hidden.
#[derive(Clone, Copy, PartialEq, Eq, Debug, Structural)]
pub struct Hidden {
    pub comment: usize,
    pub noise: usize,
    pub glob: usize,
    /// hidden for a reason that is not known
    pub unaccounted: usize,
}

/// The first reason for which an item is hidden.
pub enum Reason {
    Shown,
    Comment,
    Noise,
    Glob,
}

pub open spec fn reason(it: Item, comments_only: bool, show_all: bool, glob: Option<PathGlobs>) -> Reason {
    if comments_only && !it.comment {
        Reason::Comment
    } else if !show_all && it.noise {
        Reason::Noise
    } else if glob is Some && !glob->0.keeps(it.path@) {
        Reason::Glob
    } else {
        Reason::Shown
    }
}

/// How many of the first `n` items are hidden for a reason.
pub open spec fn hidden_for(
    items: Seq<Item>,
    comments_only: bool,
    show_all: bool,
    glob: Option<PathGlobs>,
    why: Reason,
    n: int,
) -> int
    decreases n,
{
    if n <= 0 {
        0
    } else {
        hidden_for(items, comments_only, show_all, glob, why, n - 1) + if reason(
            items[n - 1],
            comments_only,
            show_all,
            glob,
        ) == why {
            1int
        } else {
            0
        }
    }
}

/// Each of the first `n` items is visible or hidden for one of the reasons.
pub proof fn lemma_partition(
    items: Seq<Item>,
    comments_only: bool,
    show_all: bool,
    glob: Option<PathGlobs>,
    n: int,
)
    requires
        0 <= n <= items.len(),
    ensures
        visible_items(items, comments_only, show_all, glob, n).len() + hidden_for(
            items,
            comments_only,
            show_all,
            glob,
            Reason::Comment,
            n,
        ) + hidden_for(items, comments_only, show_all, glob, Reason::Noise, n) + hidden_for(
            items,
            comments_only,
            show_all,
            glob,
            Reason::Glob,
            n,
        ) == n,
        0 <= hidden_for(items, comments_only, show_all, glob, Reason::Comment, n),
        0 <= hidden_for(items, comments_only, show_all, glob, Reason::Noise, n),
        0 <= hidden_for(items, comments_only, show_all, glob, Reason::Glob, n),
    decreases n,
{
    if n > 0 {
        lemma_partition(items, comments_only, show_all, glob, n - 1);
    }
}

/// Charges each hidden item to the first reason that hides it: together with
/// what is shown, the counts make up all items.
pub fn hidden_breakdown(
    items: &[Item],
    comments_only: bool,
    show_all: bool,
    glob: Option<&PathGlobs>,
) -> (r: Hidden)
    ensures
        r.comment == hidden_for(
            items@,
            comments_only,
            show_all,
            glob_value(glob),
            Reason::Comment,
            items@.len() as int,
        ),
        r.noise == hidden_for(
            items@,
            comments_only,
            show_all,
            glob_value(glob),
            Reason::Noise,
            items@.len() as int,
        ),
        r.glob == hidden_for(
            items@,
            comments_only,
            show_all,
            glob_value(glob),
            Reason::Glob,
            items@.len() as int,
        ),
        r.unaccounted == 0,
        view_of(items@, comments_only, show_all, glob_value(glob)).len() + r.comment + r.noise + r.glob
            == items@.len(),
{
    let ghost g = glob_value(glob);
    let mut comment: usize = 0;
    let mut noise: usize = 0;
    let mut globbed: usize = 0;
    for i in 0..items.len()
        invariant
            g == glob_value(glob),
            comment == hidden_for(items@, comments_only, show_all, g, Reason::Comment, i as int),
            noise == hidden_for(items@, comments_only, show_all, g, Reason::Noise, i as int),
            globbed == hidden_for(items@, comments_only, show_all, g, Reason::Glob, i as int),
            comment <= i,
            noise <= i,
            globbed <= i,
    {
        let it = &items[i];
        if comments_only && !it.comment {
            comment = comment + 1;
        } else if !show_all && it.noise {
            noise = noise + 1;
        } else {
            match glob {
                Some(gl) => {
                    if !gl.is_match(&it.path) {
                        globbed = globbed + 1;
                    }
                },
                None => {},
            }
        }
    }
    let shown = compute_view(items, comments_only, show_all, glob).len();
    proof {
        lemma_partition(items@, comments_only, show_all, g, items@.len() as int);
    }
    let unaccounted = items.len() - shown - comment - noise - globbed;
    Hidden { comment, noise, glob: globbed, unaccounted }
}

/// What the list is a list of: symbols or hunks.
#[derive(Clone, Copy, PartialEq, Eq, Debug, Structural)]
pub enum ViewMode {
    Ledger,
    Hunks,
}

/// The key that an item groups under.
pub open spec fn bucket_text(mode: ViewMode, ledger: Option<usize>, group: Seq<char>) -> Seq<char> {
    match (mode, ledger) {
        (ViewMode::Hunks, _) => group,
        (ViewMode::Ledger, Some(i)) => "L"@ + decimal(i as int),
        (ViewMode::Ledger, None) => "L-"@,
    }
}

pub fn bucket_key(mode: ViewMode, ledger: Option<usize>, group: &str) -> (r: String)
    ensures
        r@ == bucket_text(mode, ledger, group@),
{
    match (mode, ledger) {
        (ViewMode::Hunks, _) => group.to_owned(),
        (ViewMode::Ledger, Some(i)) => "L".to_owned().concat(&number(i)),
        (ViewMode::Ledger, None) => "L-".to_owned(),
    }
}

/// A symbol's change in words.
pub open spec fn ledger_text(e: LedgerEntry) -> Seq<char> {
    e.name@ + " — "@ + lowercase(e.change@) + (match e.from {
        Some(f) => " from "@ + f@,
        None => ""@,
    }) + (if e.used_by@.len() == 0 {
        ""@
    } else if e.used_by@.len() == 1 {
        ", used by 1 hunk"@
    } else {
        ", used by "@ + decimal(e.used_by@.len() as int) + " hunks"@
    })
}

pub fn ledger_label(e: &LedgerEntry) -> (r: String)
    ensures
        r@ == ledger_text(*e),
{
    let from = match &e.from {
        Some(f) => " from ".to_owned().concat(f),
        None => "".to_owned(),
    };
    let fan = if e.used_by.len() == 0 {
        "".to_owned()
    } else if e.used_by.len() == 1 {
        ", used by 1 hunk".to_owned()
    } else {
        ", used by ".to_owned().concat(&number(e.used_by.len())).concat(" hunks")
    };
    e.name.clone().concat(" — ").concat(&lower(&e.change)).concat(&from).concat(&fan)
}

/// One row of the list: a header, or an item.
pub enum DisplayRow {
    Header(String),
    Item(usize),
}

/// What a row shows.
pub ghost enum RowText {
    Header(Seq<char>),
    Item(usize),
}

impl DisplayRow {
    pub open spec fn text(self) -> RowText {
        match self {
            DisplayRow::Header(h) => RowText::Header(h@),
            DisplayRow::Item(i) => RowText::Item(i),
        }
    }
}

pub open spec fn display_texts(rows: Seq<DisplayRow>) -> Seq<RowText> {
    Seq::new(rows.len(), |i: int| rows[i].text())
}

/// The bucket of the item at place `k` of the view.
pub open spec fn bucket_at(view: Seq<usize>, items: Seq<Item>, k: int) -> Seq<char> {
    items[view[k] as int].bucket@
}

/// How many of the first `n` entries of the view are in a bucket.
pub open spec fn bucket_count(view: Seq<usize>, items: Seq<Item>, bucket: Seq<char>, n: int) -> int
    decreases n,
{
    if n <= 0 {
        0
    } else {
        bucket_count(view, items, bucket, n - 1) + if bucket_at(view, items, n - 1) == bucket {
            1int
        } else {
            0
        }
    }
}

/// Whether the entry at place `k` starts a run of its bucket.
pub open spec fn starts_run(view: Seq<usize>, items: Seq<Item>, k: int) -> bool {
    k == 0 || bucket_at(view, items, k) != bucket_at(view, items, k - 1)
}

/// A bucket's header: whether it is folded, its reason, and its size.
pub open spec fn header_text(
    view: Seq<usize>,
    items: Seq<Item>,
    groups: Map<Seq<char>, String>,
    collapsed: Set<Seq<char>>,
    bucket: Seq<char>,
) -> Seq<char> {
    (if collapsed.contains(bucket) {
        "▸"@
    } else {
        "▾"@
    }) + " "@ + (if groups.dom().contains(bucket) {
        groups[bucket]@
    } else {
        bucket
    }) + " ("@ + decimal(bucket_count(view, items, bucket, view.len() as int)) + ")"@
}

/// The rows that the first `n` entries of the view make: a header where a run
/// starts, and the item unless its bucket is folded.
pub open spec fn grouped_rows(
    view: Seq<usize>,
    items: Seq<Item>,
    groups: Map<Seq<char>, String>,
    collapsed: Set<Seq<char>>,
    n: int,
) -> Seq<RowText>
    decreases n,
{
    if n <= 0 {
        Seq::empty()
    } else {
        let before = grouped_rows(view, items, groups, collapsed, n - 1);
        let bucket = bucket_at(view, items, n - 1);
        let with_header = if starts_run(view, items, n - 1) {
            before.push(RowText::Header(header_text(view, items, groups, collapsed, bucket)))
        } else {
            before
        };
        if collapsed.contains(bucket) {
            with_header
        } else {
            with_header.push(RowText::Item(view[n - 1]))
        }
    }
}

/// Every row of an item among grouped rows shows an item of the view.
pub proof fn lemma_grouped_items(
    view: Seq<usize>,
    items: Seq<Item>,
    groups: Map<Seq<char>, String>,
    collapsed: Set<Seq<char>>,
    n: int,
    k: int,
)
    requires
        0 <= n <= view.len(),
        0 <= k < grouped_rows(view, items, groups, collapsed, n).len(),
    ensures
        grouped_rows(view, items, groups, collapsed, n)[k] matches RowText::Item(i) ==> view.contains(i),
    decreases n,
{
    if n > 0 {
        let before = grouped_rows(view, items, groups, collapsed, n - 1);
        if k < before.len() {
            lemma_grouped_items(view, items, groups, collapsed, n - 1, k);
            assert(grouped_rows(view, items, groups, collapsed, n)[k] == before[k]);
        }
        assert(view[n - 1] == view[n - 1]);
    }
}

pub open spec fn rows_shown(
    view: Seq<usize>,
    items: Seq<Item>,
    groups: Map<Seq<char>, String>,
    show_groups: bool,
    collapsed: Set<Seq<char>>,
) -> Seq<RowText> {
    if show_groups {
        grouped_rows(view, items, groups, collapsed, view.len() as int)
    } else {
        Seq::new(view.len(), |k: int| RowText::Item(view[k]))
    }
}

/// Whether every entry of a view is an item.
pub open spec fn view_in(view: Seq<usize>, items: Seq<Item>) -> bool {
    forall|k: int| 0 <= k < view.len() ==> (#[trigger] view[k]) < items.len()
}

fn count_bucket(view: &[usize], items: &[Item], bucket: &str) -> (r: usize)
    requires
        view_in(view@, items@),
    ensures
        r == bucket_count(view@, items@, bucket@, view@.len() as int),
{
    let mut n: usize = 0;
    for k in 0..view.len()
        invariant
            view_in(view@, items@),
            n == bucket_count(view@, items@, bucket@, k as int),
            n <= k,
    {
        if same(&items[view[k]].bucket, bucket) {
            n = n + 1;
        }
    }
    n
}

/// The rows of the list, in order.
pub fn display_rows(
    view: &[usize],
    items: &[Item],
    groups: &TextMap<String>,
    show_groups: bool,
    collapsed: &TextSet,
) -> (r: Vec<DisplayRow>)
    requires
        view_in(view@, items@),
    ensures
        display_texts(r@) == rows_shown(view@, items@, groups@, show_groups, collapsed@),
{
    let mut rows: Vec<DisplayRow> = Vec::new();
    if !show_groups {
        for k in 0..view.len()
            invariant
                display_texts(rows@) == Seq::new(k as nat, |j: int| RowText::Item(view@[j])),
        {
            let ghost before = display_texts(rows@);
            rows.push(DisplayRow::Item(view[k]));
            assert(display_texts(rows@) == before.push(RowText::Item(view@[k as int])));
            assert(display_texts(rows@) == Seq::new(
                (k + 1) as nat,
                |j: int| RowText::Item(view@[j]),
            ));
        }
        return rows;
    }
    assert(display_texts(rows@) == grouped_rows(view@, items@, groups@, collapsed@, 0));
    for k in 0..view.len()
        invariant
            view_in(view@, items@),
            display_texts(rows@) == grouped_rows(view@, items@, groups@, collapsed@, k as int),
    {
        let bucket = &items[view[k]].bucket;
        let folded = collapsed.contains(bucket);
        let starts = if k == 0 {
            true
        } else {
            !same(bucket, &items[view[k - 1]].bucket)
        };
        if starts {
            let reason = match groups.get(bucket) {
                Some(g) => g.clone(),
                None => bucket.clone(),
            };
            let marker = if folded {
                "▸"
            } else {
                "▾"
            };
            let n = count_bucket(view, items, bucket);
            let head = marker.to_owned().concat(" ").concat(&reason).concat(" (").concat(
                &number(n),
            ).concat(")");
            let ghost before = display_texts(rows@);
            rows.push(DisplayRow::Header(head));
            assert(display_texts(rows@) == before.push(RowText::Header(head@)));
        }
        if !folded {
            let ghost before = display_texts(rows@);
            rows.push(DisplayRow::Item(view[k]));
            assert(display_texts(rows@) == before.push(RowText::Item(view@[k as int])));
        }
    }
    rows
}

/// How many rows the first `n` entries of the view make.
pub open spec fn row_count(view: Seq<usize>, items: Seq<Item>, collapsed: Set<Seq<char>>, n: int) -> int
    decreases n,
{
    if n <= 0 {
        0
    } else {
        row_count(view, items, collapsed, n - 1) + (if starts_run(view, items, n - 1) {
            1int
        } else {
            0
        }) + (if collapsed.contains(bucket_at(view, items, n - 1)) {
            0int
        } else {
            1
        })
    }
}

/// The row on which the entry at place `pos` of the view is highlighted: its
/// own, or its header's where its bucket is folded.
pub open spec fn row_of(
    view: Seq<usize>,
    items: Seq<Item>,
    show_groups: bool,
    collapsed: Set<Seq<char>>,
    pos: int,
) -> int {
    if !show_groups {
        pos
    } else if pos >= view.len() {
        row_count(view, items, collapsed, view.len() as int)
    } else {
        let before = row_count(view, items, collapsed, pos);
        let header = if starts_run(view, items, pos) {
            before
        } else {
            before - 1
        };
        if collapsed.contains(bucket_at(view, items, pos)) {
            header
        } else if starts_run(view, items, pos) {
            before + 1
        } else {
            before
        }
    }
}

proof fn lemma_row_count(view: Seq<usize>, items: Seq<Item>, collapsed: Set<Seq<char>>, n: int)
    requires
        0 <= n <= view.len(),
    ensures
        0 <= row_count(view, items, collapsed, n) <= 2 * n,
        n > 0 ==> row_count(view, items, collapsed, n) >= 1,
    decreases n,
{
    if n > 0 {
        lemma_row_count(view, items, collapsed, n - 1);
    }
}

pub fn display_row_of(
    view: &[usize],
    items: &[Item],
    show_groups: bool,
    collapsed: &TextSet,
    pos: usize,
) -> (r: usize)
    requires
        view_in(view@, items@),
        2 * view@.len() <= usize::MAX,
    ensures
        r == row_of(view@, items@, show_groups, collapsed@, pos as int),
{
    if !show_groups {
        return pos;
    }
    let mut row: usize = 0;
    let n: usize = view.len();
    for k in 0..n
        invariant
            n == view@.len(),
            2 * n <= usize::MAX,
            view_in(view@, items@),
            show_groups,
            k <= pos,
            row == row_count(view@, items@, collapsed@, k as int),
    {
        proof {
            lemma_row_count(view@, items@, collapsed@, k as int);
            lemma_row_count(view@, items@, collapsed@, k + 1);
        }
        let bucket = &items[view[k]].bucket;
        let folded = collapsed.contains(bucket);
        let starts = if k == 0 {
            true
        } else {
            !same(bucket, &items[view[k - 1]].bucket)
        };
        if k == pos {
            return if folded {
                if starts {
                    row
                } else {
                    row - 1
                }
            } else if starts {
                row + 1
            } else {
                row
            };
        }
        if starts {
            row = row + 1;
        }
        if !folded {
            row = row + 1;
        }
    }
    row
}

proof fn lemma_row_count_is_len(
    view: Seq<usize>,
    items: Seq<Item>,
    groups: Map<Seq<char>, String>,
    collapsed: Set<Seq<char>>,
    n: int,
)
    requires
        0 <= n <= view.len(),
    ensures
        grouped_rows(view, items, groups, collapsed, n).len() == row_count(view, items, collapsed, n),
    decreases n,
{
    if n > 0 {
        lemma_row_count_is_len(view, items, groups, collapsed, n - 1);
    }
}

proof fn lemma_grouped_prefix(
    view: Seq<usize>,
    items: Seq<Item>,
    groups: Map<Seq<char>, String>,
    collapsed: Set<Seq<char>>,
    a: int,
    b: int,
)
    requires
        0 <= a <= b <= view.len(),
    ensures
        grouped_rows(view, items, groups, collapsed, a).len() <= grouped_rows(
            view,
            items,
            groups,
            collapsed,
            b,
        ).len(),
        forall|k: int|
            0 <= k < grouped_rows(view, items, groups, collapsed, a).len() ==> grouped_rows(
                view,
                items,
                groups,
                collapsed,
                b,
            )[k] == #[trigger] grouped_rows(view, items, groups, collapsed, a)[k],
    decreases b - a,
{
    if a < b {
        lemma_grouped_prefix(view, items, groups, collapsed, a, b - 1);
    }
}

/// Within a folded run the last row so far is the run's header.
proof fn lemma_folded_header(
    view: Seq<usize>,
    items: Seq<Item>,
    groups: Map<Seq<char>, String>,
    collapsed: Set<Seq<char>>,
    n: int,
)
    requires
        0 < n <= view.len(),
        collapsed.contains(bucket_at(view, items, n - 1)),
    ensures
        ({
            let rows = grouped_rows(view, items, groups, collapsed, n);
            rows.len() > 0 && rows.last() == RowText::Header(
                header_text(view, items, groups, collapsed, bucket_at(view, items, n - 1)),
            )
        }),
    decreases n,
{
    if !starts_run(view, items, n - 1) {
        lemma_folded_header(view, items, groups, collapsed, n - 1);
    }
}

/// The highlighted row is the entry's own item; where its bucket is folded, it
/// is the bucket's header.
pub proof fn law_the_highlight_is_on_the_selected_row(
    view: Seq<usize>,
    items: Seq<Item>,
    groups: Map<Seq<char>, String>,
    show_groups: bool,
    collapsed: Set<Seq<char>>,
    pos: int,
)
    requires
        0 <= pos < view.len(),
    ensures
        ({
            let rows = rows_shown(view, items, groups, show_groups, collapsed);
            let row = row_of(view, items, show_groups, collapsed, pos);
            let bucket = bucket_at(view, items, pos);
            &&& 0 <= row < rows.len()
            &&& rows[row] == (if show_groups && collapsed.contains(bucket) {
                RowText::Header(header_text(view, items, groups, collapsed, bucket))
            } else {
                RowText::Item(view[pos])
            })
        }),
{
    if show_groups {
        let n = view.len() as int;
        lemma_row_count_is_len(view, items, groups, collapsed, pos);
        lemma_row_count_is_len(view, items, groups, collapsed, pos + 1);
        lemma_grouped_prefix(view, items, groups, collapsed, pos + 1, n);
        let rows = grouped_rows(view, items, groups, collapsed, pos + 1);
        let all = grouped_rows(view, items, groups, collapsed, n);
        let bucket = bucket_at(view, items, pos);
        let row = row_of(view, items, show_groups, collapsed, pos);
        if collapsed.contains(bucket) {
            lemma_folded_header(view, items, groups, collapsed, pos + 1);
            assert(row == rows.len() - 1);
        } else {
            assert(row == rows.len() - 1);
            assert(rows.last() == RowText::Item(view[pos]));
        }
        assert(all[row] == rows[row]);
    }
}

/// Where the code view is scrolled to so that a hunk sits a few lines below the
/// top, the lines that it removes counted.
pub open spec fn scroll_for(it: Item) -> int {
    let o0 = it.old_range[0] as int;
    let o1 = it.old_range[1] as int;
    let removed = if 1 <= o0 <= o1 {
        o1 - o0 + 1
    } else {
        0
    };
    let first = if it.new_range[0] >= 1 {
        it.new_range[0] - 1
    } else {
        0
    };
    if first + removed >= 3 {
        first + removed - 3
    } else {
        0
    }
}

pub fn auto_scroll(it: &Item) -> (r: u16)
    requires
        it.new_range[0] + it.old_range[1] <= usize::MAX,
    ensures
        r == scroll_for(*it) as u16,
        scroll_for(*it) <= u16::MAX ==> r == scroll_for(*it),
{
    let o0: usize = it.old_range[0];
    let o1: usize = it.old_range[1];
    let removed: usize = if o0 >= 1 && o0 <= o1 {
        o1 - o0 + 1
    } else {
        0
    };
    let first: usize = if it.new_range[0] >= 1 {
        it.new_range[0] - 1
    } else {
        0
    };
    let at: usize = if first + removed >= 3 {
        first + removed - 3
    } else {
        0
    };
    at as u16
}

/// The first changed line of a hunk.
pub open spec fn hunk_start(it: Item) -> Cursor {
    Cursor {
        line: if it.new_range[0] >= 1 {
            (it.new_range[0] - 1) as usize
        } else {
            0
        },
        col: 0,
    }
}

pub fn start_cursor(it: &Item) -> (r: Cursor)
    ensures
        r == hunk_start(*it),
{
    Cursor {
        line: if it.new_range[0] >= 1 {
            it.new_range[0] - 1
        } else {
            0
        },
        col: 0,
    }
}

/// Where the cursor is put when a hunk is selected.
pub open spec fn cursor_at(it: Item, sources: Map<Seq<char>, FileLines>) -> Cursor {
    if sources.dom().contains(it.path@) {
        clamped_cursor(hunk_start(it), texts(sources[it.path@].1@))
    } else {
        Cursor { line: 0, col: 0 }
    }
}

pub fn cursor_for(it: &Item, sources: &Sources) -> (r: Cursor)
    ensures
        r == cursor_at(*it, sources@),
{
    match sources.get(&it.path) {
        Some(file) => clamp_cursor(start_cursor(it), &file.1),
        None => Cursor { line: 0, col: 0 },
    }
}

/// The first place of an item in a view, or 0.
pub open spec fn place_of(view: Seq<usize>, sel: usize) -> int {
    if view.contains(sel) {
        first_place(view, sel, 0)
    } else {
        0
    }
}

pub open spec fn first_place(view: Seq<usize>, sel: usize, from: int) -> int
    decreases view.len() - from,
{
    if from >= view.len() || view[from] == sel {
        from
    } else {
        first_place(view, sel, from + 1)
    }
}

pub fn view_pos(view: &[usize], sel: usize) -> (r: usize)
    ensures
        r == place_of(view@, sel),
        view@.len() > 0 ==> r < view@.len(),
        view@.contains(sel) ==> view@[r as int] == sel,
{
    let mut i: usize = 0;
    while i < view.len()
        invariant
            i <= view@.len(),
            first_place(view@, sel, 0) == first_place(view@, sel, i as int),
            forall|k: int| 0 <= k < i ==> view@[k] != sel,
        decreases view@.len() - i,
    {
        if view[i] == sel {
            assert(view@[i as int] == sel);
            return i;
        }
        i = i + 1;
    }
    0
}

/// Whether a view holds an item.
pub fn in_view(view: &[usize], i: usize) -> (r: bool)
    ensures
        r == view@.contains(i),
{
    for k in 0..view.len()
        invariant
            forall|j: int| 0 <= j < k ==> view@[j] != i,
    {
        if view[k] == i {
            assert(view@[k as int] == i);
            return true;
        }
    }
    false
}

} // verus!
