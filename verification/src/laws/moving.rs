//! How the cursor and the selection move.

use crate::cursor::{
    blank, blank_down, blank_up, class_of, end_word, next_word, non_space_down, non_space_up, prev_word, run_end,
    run_start, Cursor,
};
use crate::finder::{match_sought, next_match, previous_match, search_cycled, searched};
use crate::keys::{Fold, Pane};
use crate::model::{Item, LedgerEntry};
use crate::paint::lines_cells;
use crate::search::{char_bytes, cycled, text_bytes, Match};
use crate::session::{
    folded, folds_after, jump_source, ledger_headers, ledger_labels, moved_cursor, next_shown, paged, popup_hscrolled,
    popup_scrolled, selected, stepped, unfolded, why_moved, Motion,
};
use crate::state::{counted, widest, App, Popup};
use crate::text::decimal;
use crate::view::ledger_text;
use vstd::prelude::*;

verus! {

/// A step in the list leads to the item that many rows on, and no further than the
/// first and the last.
pub proof fn law_a_step_leads_to_the_next_item(a: App, k: int, by: int)
    requires
        a.focus == Pane::List,
        0 <= k < folded(a).len(),
        folded(a)[k] == a.sel,
        forall|j: int| 0 <= j < k ==> folded(a)[j] != a.sel,
    ensures
        0 <= k + by < folded(a).len() ==> stepped(a, by).sel == folded(a)[k + by],
        k + by < 0 ==> stepped(a, by).sel == folded(a)[0],
        k + by >= folded(a).len() ==> stepped(a, by).sel == folded(a)[folded(a).len() - 1],
        stepped(a, by).items == a.items,
        stepped(a, by).reviewed == a.reviewed,
        stepped(a, by).view == a.view,
{
    crate::laws::listing::law_the_place_of_an_item_is_where_it_stands(folded(a), k);
}

/// What can be stepped to is what is in view and not folded away, in order; all of
/// the view, where nothing is left.
pub proof fn law_folded_items_are_stepped_over(a: App, i: usize)
    requires
        a.show_groups,
        exists|k: int| 0 <= k < a.view@.len() && !a.collapsed@.contains(a.items@[#[trigger] a.view@[k] as int].bucket@),
    ensures
        folded(a).contains(i) <==> a.view@.contains(i) && !a.collapsed@.contains(a.items@[i as int].bucket@),
{
    let n = a.view@.len() as int;
    let k = choose|k: int|
        0 <= k < a.view@.len() && !a.collapsed@.contains(a.items@[#[trigger] a.view@[k] as int].bucket@);
    lemma_unfolded(a.view@, a.items@, a.collapsed@, n, i);
    lemma_unfolded(a.view@, a.items@, a.collapsed@, n, a.view@[k]);
    assert(a.view@.take(n) =~= a.view@);
    assert(a.view@.contains(a.view@[k]));
    assert(unfolded(a.view@, a.items@, a.collapsed@, n).len() > 0);
    if a.collapsed@ == Set::<Seq<char>>::empty() {
        assert(!a.collapsed@.contains(a.items@[i as int].bucket@));
    }
}

proof fn lemma_unfolded(view: Seq<usize>, items: Seq<Item>, collapsed: Set<Seq<char>>, n: int, i: usize)
    requires
        0 <= n <= view.len(),
    ensures
        unfolded(view, items, collapsed, n).contains(i) <==> view.take(n).contains(i) && !collapsed.contains(
            items[i as int].bucket@,
        ),
    decreases n,
{
    if n > 0 {
        lemma_unfolded(view, items, collapsed, n - 1, i);
        let before = unfolded(view, items, collapsed, n - 1);
        let all = unfolded(view, items, collapsed, n);
        let had = view.take(n - 1);
        let has = view.take(n);
        assert(has =~= had.push(view[n - 1]));
        if all.contains(i) {
            let w = choose|w: int| 0 <= w < all.len() && all[w] == i;
            if w < before.len() {
                assert(before[w] == i);
                let x = choose|x: int| 0 <= x < had.len() && had[x] == i;
                assert(has[x] == i);
            } else {
                assert(has[n - 1] == i);
            }
        }
        if has.contains(i) && !collapsed.contains(items[i as int].bucket@) {
            let x = choose|x: int| 0 <= x < has.len() && has[x] == i;
            if x < n - 1 {
                assert(had[x] == i);
                let w = choose|w: int| 0 <= w < before.len() && before[w] == i;
                assert(all[w] == i);
            } else {
                assert(all[before.len() as int] == i);
            }
        }
    }
}

/// To select an item shows it: its file's lines near the hunk, from the left edge,
/// with nothing over it and no search.
pub proof fn law_selecting_shows_the_item(a: App, to: usize)
    ensures
        selected(a, to).sel == to,
        selected(a, to).hscroll == 0,
        selected(a, to).why_sel == 0,
        selected(a, to).popup is None,
        selected(a, to).search is None,
        selected(a, to).items == a.items,
        selected(a, to).view == a.view,
        selected(a, to).reviewed == a.reviewed,
        selected(a, to).focus == a.focus,
{
}

/// Folding touches the bucket that it is asked of, and no other: to toggle folds
/// what is open and opens what is folded, and the whole list folds or opens at
/// once.
pub proof fn law_folding_touches_its_own_bucket(
    collapsed: Set<Seq<char>>,
    here: Seq<char>,
    items: Seq<Item>,
    other: Seq<char>,
)
    ensures
        folds_after(collapsed, here, items, Fold::Close).contains(here),
        !folds_after(collapsed, here, items, Fold::Open).contains(here),
        folds_after(collapsed, here, items, Fold::Toggle).contains(here) <==> !collapsed.contains(here),
        other != here ==> (folds_after(collapsed, here, items, Fold::Close).contains(other) <==> collapsed.contains(
            other,
        )),
        other != here ==> (folds_after(collapsed, here, items, Fold::Open).contains(other) <==> collapsed.contains(
            other,
        )),
        other != here ==> (folds_after(collapsed, here, items, Fold::Toggle).contains(other) <==> collapsed.contains(
            other,
        )),
        folds_after(collapsed, here, items, Fold::CloseAll).contains(other) <==> exists|i: int|
            0 <= i < items.len() && (#[trigger] items[i]).bucket@ == other,
        !folds_after(collapsed, here, items, Fold::OpenAll).contains(other),
{
}

/// The item that is stepped to off a fold is the next one shown, or the last.
pub proof fn law_the_next_shown_is_the_next(shown: Seq<usize>, sel: usize, from: int, k: int)
    requires
        0 <= from <= k < shown.len(),
        shown[k] >= sel,
        forall|j: int| from <= j < k ==> shown[j] < sel,
    ensures
        next_shown(shown, sel, from) == shown[k],
    decreases k - from,
{
    if from < k {
        law_the_next_shown_is_the_next(shown, sel, from + 1, k);
    }
}

/// Paging moves the pane that is read, by as much as it is asked, and no further
/// than there is something to read.
pub proof fn law_paging_moves_the_pane_that_is_read(a: App, by: int)
    requires
        0 <= by,
    ensures
        a.focus == Pane::Why && a.why_scroll + by < a.why_len && a.why_scroll + by <= u16::MAX ==> paged(a, by).why_scroll == a.why_scroll + by
            && paged(a, by).scroll == a.scroll,
        a.focus != Pane::Why && a.scroll + by < a.code_len && a.scroll + by <= u16::MAX ==> paged(a, by).scroll
            == a.scroll + by && paged(a, by).why_scroll == a.why_scroll,
        paged(a, by).sel == a.sel,
        paged(a, by).cursor == a.cursor,
{
}

/// A header stands for each entry of the symbol ledger, under its number, and one
/// for what belongs to none.
pub proof fn law_each_ledger_entry_has_its_header(ledger: Seq<LedgerEntry>, i: int)
    requires
        0 <= i < ledger.len(),
    ensures
        ledger_headers(ledger).dom().contains("L"@ + decimal(i)),
        ledger_headers(ledger)["L"@ + decimal(i)] == ledger_text(ledger[i]),
        ledger_headers(ledger).dom().contains("L-"@),
        ledger_headers(ledger)["L-"@] == "no symbol changed"@,
{
    lemma_ledger_labels(ledger, i, ledger.len() as int);
    reveal_strlit("L");
    reveal_strlit("L-");
    crate::text::lemma_decimal_round_trip(i as nat);
    assert("L-"@[1] == '-');
    assert(("L"@ + decimal(i))[1] == decimal(i)[0]);
}

proof fn lemma_ledger_labels(ledger: Seq<LedgerEntry>, i: int, n: int)
    requires
        0 <= i < n <= ledger.len(),
    ensures
        ledger_labels(ledger, n).dom().contains("L"@ + decimal(i)),
        ledger_labels(ledger, n)["L"@ + decimal(i)] == ledger_text(ledger[i]),
    decreases n,
{
    if i < n - 1 {
        lemma_ledger_labels(ledger, i, n - 1);
        crate::text::lemma_decimal_round_trip(i as nat);
        crate::text::lemma_decimal_round_trip((n - 1) as nat);
        reveal_strlit("L");
        let a = "L"@ + decimal(i);
        let b = "L"@ + decimal(n - 1);
        if a == b {
            assert(a.skip(1) =~= decimal(i));
            assert(b.skip(1) =~= decimal(n - 1));
            assert(crate::text::parsed_number(decimal(i), 10, ledger.len() as int) == Some(i));
            assert(crate::text::parsed_number(decimal(n - 1), 10, ledger.len() as int) == Some(n - 1));
        }
    }
}

/// The header of a symbol tells its name, what became of it, the name that it had,
/// and how many hunks use it.
pub proof fn law_a_header_tells_of_its_symbol(e: LedgerEntry)
    ensures
        e.from is None && e.used_by@.len() == 0 ==> ledger_text(e) == e.name@ + " — "@ + crate::text::lowercase(
            e.change@,
        ),
        e.from is Some && e.used_by@.len() == 0 ==> ledger_text(e) == e.name@ + " — "@ + crate::text::lowercase(
            e.change@,
        ) + " from "@ + e.from->0@,
        e.from is None && e.used_by@.len() > 1 ==> ledger_text(e) == e.name@ + " — "@ + crate::text::lowercase(
            e.change@,
        ) + ", used by "@ + decimal(e.used_by@.len() as int) + " hunks"@,
        e.from is None && e.used_by@.len() == 1 ==> ledger_text(e) == e.name@ + " — "@ + crate::text::lowercase(
            e.change@,
        ) + ", used by 1 hunk"@,
{
    reveal_strlit("");
    let head = e.name@ + " — "@ + crate::text::lowercase(e.change@);
    assert(head + ""@ + ""@ =~= head);
    assert(head + ""@ =~= head);
    let mid = match e.from {
        Some(f) => head + (" from "@ + f@),
        None => head,
    };
    if e.from is Some {
        assert(head + (" from "@ + e.from->0@) + ""@ =~= head + " from "@ + e.from->0@);
    } else if e.used_by@.len() > 1 {
        assert(head + ""@ + (", used by "@ + decimal(e.used_by@.len() as int) + " hunks"@) =~= head + ", used by "@
            + decimal(e.used_by@.len() as int) + " hunks"@);
    }
}

proof fn lemma_next_match(ms: Seq<Match>, c: Cursor, inclusive: bool, from: int, k: int)
    requires
        0 <= from <= k < ms.len(),
        crate::search::after_cursor(ms[k], c, inclusive),
        forall|j: int| from <= j < k ==> !crate::search::after_cursor(#[trigger] ms[j], c, inclusive),
    ensures
        next_match(ms, c, inclusive, from) == k,
    decreases k - from,
{
    if from < k {
        lemma_next_match(ms, c, inclusive, from + 1, k);
    }
}

proof fn lemma_previous_match(ms: Seq<Match>, c: Cursor, inclusive: bool, from: int, k: int)
    requires
        0 <= k <= from < ms.len(),
        crate::search::before_cursor(ms[k], c, inclusive),
        forall|j: int| k < j <= from ==> !crate::search::before_cursor(#[trigger] ms[j], c, inclusive),
    ensures
        previous_match(ms, c, inclusive, from) == k,
    decreases from - k,
{
    if from > k {
        lemma_previous_match(ms, c, inclusive, from - 1, k);
    }
}

/// Whether a place is further on in the text than the cursor.
pub open spec fn further_on(m: Match, c: Cursor) -> bool {
    m.0 > c.line || (m.0 == c.line && m.1 > c.col)
}

/// Whether a place is further back in the text than the cursor.
pub open spec fn further_back(m: Match, c: Cursor) -> bool {
    m.0 < c.line || (m.0 == c.line && m.1 < c.col)
}

/// A search goes to the nearest match on from the cursor, or back from it; the
/// cursor's own place counts where that is asked for.
pub proof fn law_a_search_goes_to_the_nearest_match(ms: Seq<Match>, c: Cursor, inclusive: bool, k: int)
    requires
        0 <= k < ms.len(),
    ensures
        (further_on(ms[k], c) || (inclusive && ms[k].0 == c.line && ms[k].1 == c.col)) && (forall|j: int|
            0 <= j < k ==> further_back(#[trigger] ms[j], c) || (!inclusive && ms[j].0 == c.line && ms[j].1 == c.col))
            ==> match_sought(ms, c, true, inclusive) == k,
        (further_back(ms[k], c) || (inclusive && ms[k].0 == c.line && ms[k].1 == c.col)) && (forall|j: int|
            k < j < ms.len() ==> further_on(#[trigger] ms[j], c) || (!inclusive && ms[j].0 == c.line && ms[j].1
                == c.col)) ==> match_sought(ms, c, false, inclusive) == k,
{
    if (further_on(ms[k], c) || (inclusive && ms[k].0 == c.line && ms[k].1 == c.col)) && (forall|j: int|
        0 <= j < k ==> further_back(#[trigger] ms[j], c) || (!inclusive && ms[j].0 == c.line && ms[j].1 == c.col)) {
        lemma_next_match(ms, c, inclusive, 0, k);
    }
    if (further_back(ms[k], c) || (inclusive && ms[k].0 == c.line && ms[k].1 == c.col)) && (forall|j: int|
        k < j < ms.len() ==> further_on(#[trigger] ms[j], c) || (!inclusive && ms[j].0 == c.line && ms[j].1 == c.col)) {
        lemma_previous_match(ms, c, inclusive, ms.len() - 1, k);
    }
}

/// A search puts the cursor on the match that it goes to.
pub proof fn law_a_search_puts_the_cursor_on_its_match(a: App, s: crate::state::Search, forward: bool, inclusive: bool)
    requires
        s.matches@.len() > 0,
    ensures
        ({
            let m = s.matches@[match_sought(s.matches@, a.cursor, forward, inclusive)];
            let b = searched(a, s, forward, inclusive);
            &&& b.cursor.line == m.0
            &&& b.cursor.col == m.1
            &&& b.search is Some
            &&& b.search->0.matches == s.matches
            &&& b.sel == a.sel
        }),
{
}

/// The next match follows the current one, and the first follows the last.
pub proof fn law_the_first_match_follows_the_last(a: App, s: crate::state::Search)
    requires
        a.search == Some(s),
        s.index < s.matches@.len() <= usize::MAX,
    ensures
        ({
            let b = search_cycled(a, 1);
            let at = if s.index + 1 == s.matches@.len() {
                0
            } else {
                s.index + 1
            };
            &&& b.search is Some
            &&& b.search->0.index == at
            &&& b.cursor.line == s.matches@[at].0
            &&& b.cursor.col == s.matches@[at].1
        }),
        ({
            let b = search_cycled(a, -1);
            let at = if s.index == 0 {
                s.matches@.len() - 1
            } else {
                s.index - 1
            };
            &&& b.search is Some
            &&& b.search->0.index == at
            &&& b.cursor.line == s.matches@[at].0
            &&& b.cursor.col == s.matches@[at].1
        }),
{
    let n = s.matches@.len() as int;
    let i = s.index as int;
    assert(cycled(i, n, 1) == (if i + 1 == n {
        0
    } else {
        i + 1
    })) by {
        if i + 1 == n {
            assert((i + 1) % n == 0) by (nonlinear_arith)
                requires
                    i + 1 == n,
                    n > 0,
            ;
        } else {
            assert((i + 1) % n == i + 1) by (nonlinear_arith)
                requires
                    0 <= i + 1 < n,
            ;
        }
    }
    assert(cycled(i, n, -1) == (if i == 0 {
        n - 1
    } else {
        i - 1
    })) by {
        if i == 0 {
            assert((i - 1) % n == n - 1) by (nonlinear_arith)
                requires
                    i == 0,
                    n > 0,
            ;
        } else {
            assert((i - 1) % n == i - 1) by (nonlinear_arith)
                requires
                    0 <= i - 1 < n,
            ;
        }
    }
}

proof fn lemma_run_end(s: Seq<char>, i: int, class: u8)
    requires
        0 <= i < s.len(),
    ensures
        i <= run_end(s, i, class) < s.len(),
        forall|k: int| i < k <= run_end(s, i, class) ==> class_of(#[trigger] s[k]) == class,
        run_end(s, i, class) + 1 < s.len() ==> class_of(s[run_end(s, i, class) + 1]) != class,
    decreases s.len() - i,
{
    if i + 1 < s.len() && class_of(s[i + 1]) == class {
        lemma_run_end(s, i + 1, class);
    }
}

proof fn lemma_run_start(s: Seq<char>, i: int, class: u8)
    requires
        0 <= i < s.len(),
    ensures
        0 <= run_start(s, i, class) <= i,
        forall|k: int| run_start(s, i, class) <= k < i ==> class_of(#[trigger] s[k]) == class,
        run_start(s, i, class) > 0 ==> class_of(s[run_start(s, i, class) - 1]) != class,
    decreases i,
{
    if i > 0 && class_of(s[i - 1]) == class {
        lemma_run_start(s, i - 1, class);
    }
}

proof fn lemma_non_space_down(s: Seq<char>, i: int)
    requires
        0 <= i < s.len(),
    ensures
        0 <= non_space_down(s, i) <= i,
        forall|k: int| non_space_down(s, i) < k <= i ==> class_of(#[trigger] s[k]) == 0,
        non_space_down(s, i) > 0 ==> class_of(s[non_space_down(s, i)]) != 0,
    decreases i,
{
    if i > 0 && class_of(s[i]) == 0 {
        lemma_non_space_down(s, i - 1);
    }
}

proof fn lemma_non_space_up(s: Seq<char>, i: int)
    requires
        0 <= i <= s.len(),
    ensures
        i <= non_space_up(s, i) <= s.len(),
        forall|k: int| i <= k < non_space_up(s, i) ==> class_of(#[trigger] s[k]) == 0,
        non_space_up(s, i) < s.len() ==> class_of(s[non_space_up(s, i)]) != 0,
    decreases s.len() - i,
{
    if i < s.len() && class_of(s[i]) == 0 {
        lemma_non_space_up(s, i + 1);
    }
}

/// Whether a word starts at a place: no space, and nothing of its kind before it.
pub open spec fn word_starts(s: Seq<char>, i: int) -> bool {
    class_of(s[i]) != 0 && (i == 0 || class_of(s[i - 1]) != class_of(s[i]))
}

/// The next word is the first one that starts behind the cursor; where none does,
/// the end of the text.
pub proof fn law_the_next_word_is_the_first_behind_the_cursor(s: Seq<char>, i: int)
    requires
        0 <= i < s.len(),
    ensures
        i <= next_word(s, i) < s.len(),
        forall|k: int| i < k < next_word(s, i) ==> !#[trigger] word_starts(s, k),
        next_word(s, i) > i && next_word(s, i) < s.len() - 1 ==> word_starts(s, next_word(s, i)),
{
    let c = class_of(s[i]);
    let word = if c != 0 {
        run_end(s, i, c)
    } else {
        i
    };
    if c != 0 {
        lemma_run_end(s, i, c);
    }
    lemma_run_end(s, word, 0);
    let gap = run_end(s, word, 0);
    assert forall|k: int| i < k < next_word(s, i) implies !#[trigger] word_starts(s, k) by {
        if k <= word {
            assert(class_of(s[k]) == c);
            if k - 1 > i {
                assert(class_of(s[k - 1]) == c);
            }
        } else {
            assert(class_of(s[k]) == 0);
        }
    }
}

/// The previous word starts before the cursor, and no word starts between.
pub proof fn law_the_previous_word_is_the_last_before_the_cursor(s: Seq<char>, i: int)
    requires
        0 < i < s.len(),
    ensures
        0 <= prev_word(s, i) < i,
        prev_word(s, i) > 0 ==> word_starts(s, prev_word(s, i)),
        forall|k: int| prev_word(s, i) < k < i ==> !#[trigger] word_starts(s, k),
{
    lemma_non_space_down(s, i - 1);
    let j = non_space_down(s, i - 1);
    lemma_run_start(s, j, class_of(s[j]));
    let r = run_start(s, j, class_of(s[j]));
    assert forall|k: int| prev_word(s, i) < k < i implies !#[trigger] word_starts(s, k) by {
        if k > j {
            assert(class_of(s[k]) == 0);
        } else {
            if k < j {
                assert(class_of(s[k]) == class_of(s[j]));
            }
            assert(class_of(s[k - 1]) == class_of(s[j]));
        }
    }
    if r > 0 {
        if r < j {
            assert(class_of(s[r]) == class_of(s[j]));
        }
    }
}

/// Whether a word ends at a place: no space, and nothing of its kind behind it.
pub open spec fn word_ends(s: Seq<char>, i: int) -> bool {
    class_of(s[i]) != 0 && (i == s.len() - 1 || class_of(s[i + 1]) != class_of(s[i]))
}

/// The end of a word is the first one behind the cursor; where none is, the end of
/// the text.
pub proof fn law_the_end_of_a_word_is_the_first_behind_the_cursor(s: Seq<char>, i: int)
    requires
        0 <= i < s.len() - 1,
    ensures
        i < end_word(s, i) < s.len(),
        end_word(s, i) < s.len() - 1 ==> word_ends(s, end_word(s, i)),
        forall|k: int| i < k < end_word(s, i) ==> !#[trigger] word_ends(s, k),
{
    lemma_non_space_up(s, i + 1);
    let j = non_space_up(s, i + 1);
    if j < s.len() {
        lemma_run_end(s, j, class_of(s[j]));
        let r = run_end(s, j, class_of(s[j]));
        assert forall|k: int| i < k < end_word(s, i) implies !#[trigger] word_ends(s, k) by {
            if k < j {
                assert(class_of(s[k]) == 0);
            } else {
                if k > j {
                    assert(class_of(s[k]) == class_of(s[j]));
                }
                assert(class_of(s[k + 1]) == class_of(s[j]));
            }
        }
        if r > j {
            assert(class_of(s[r]) == class_of(s[j]));
        }
    } else {
        assert forall|k: int| i < k < end_word(s, i) implies !#[trigger] word_ends(s, k) by {
            assert(class_of(s[k]) == 0);
        }
    }
}

/// What a word is made of: letters, digits and underscores are of one kind, other
/// marks of another, and spaces part them.
pub proof fn law_what_a_word_is_made_of(c: char)
    ensures
        'a' <= c <= 'z' || 'A' <= c <= 'Z' || '0' <= c <= '9' || c == '_' ==> class_of(c) == 1,
        c == ' ' || c == '\t' || c == '\n' ==> class_of(c) == 0,
        c == '.' || c == '(' || c == ':' || c == '-' ==> class_of(c) == 2,
{
}

proof fn lemma_blank_up(lines: Seq<Seq<char>>, i: int)
    requires
        0 <= i < lines.len(),
    ensures
        0 <= blank_up(lines, i) <= i,
        blank_up(lines, i) > 0 ==> blank(lines[blank_up(lines, i)]),
        forall|k: int| blank_up(lines, i) < k <= i ==> !blank(#[trigger] lines[k]),
    decreases i,
{
    if i > 0 && !blank(lines[i]) {
        lemma_blank_up(lines, i - 1);
    }
}

proof fn lemma_blank_down(lines: Seq<Seq<char>>, i: int)
    requires
        0 <= i <= lines.len(),
    ensures
        i <= blank_down(lines, i) <= lines.len(),
        blank_down(lines, i) < lines.len() ==> blank(lines[blank_down(lines, i)]),
        forall|k: int| i <= k < blank_down(lines, i) ==> !blank(#[trigger] lines[k]),
    decreases lines.len() - i,
{
    if i < lines.len() && !blank(lines[i]) {
        lemma_blank_down(lines, i + 1);
    }
}

/// A paragraph ends at the nearest blank line, or where the file does.
pub proof fn law_a_paragraph_ends_at_a_blank_line(c: Cursor, lines: Seq<Seq<char>>)
    requires
        c.line < lines.len() <= usize::MAX,
    ensures
        ({
            let up = moved_cursor(Motion::ParaPrev, c, lines);
            &&& up.col == 0
            &&& c.line > 0 ==> up.line < c.line
            &&& up.line > 0 ==> blank(lines[up.line as int])
            &&& forall|k: int| up.line < k < c.line ==> !blank(#[trigger] lines[k])
        }),
        ({
            let down = moved_cursor(Motion::ParaNext, c, lines);
            &&& down.col == 0
            &&& c.line < lines.len() - 1 ==> c.line < down.line
            &&& down.line < lines.len() - 1 ==> blank(lines[down.line as int])
            &&& forall|k: int| c.line < k < down.line ==> !blank(#[trigger] lines[k])
        }),
{
    if c.line > 0 {
        lemma_blank_up(lines, c.line - 1);
    }
    lemma_blank_down(lines, c.line + 1);
}

/// Within a line the cursor moves by columns and stops at both ends; from line to
/// line it keeps its column as far as the line goes.
pub proof fn law_the_cursor_stops_at_the_ends(c: Cursor, lines: Seq<Seq<char>>, by: isize)
    requires
        c.line < lines.len() <= usize::MAX,
        c.col < lines[c.line as int].len() <= usize::MAX,
        forall|l: int| 0 <= l < lines.len() ==> (#[trigger] lines[l]).len() <= usize::MAX,
    ensures
        0 <= c.col + by < lines[c.line as int].len() ==> moved_cursor(Motion::Col(by), c, lines) == (Cursor {
            line: c.line,
            col: (c.col + by) as usize,
        }),
        c.col + by < 0 ==> moved_cursor(Motion::Col(by), c, lines).col == 0,
        c.col + by >= lines[c.line as int].len() ==> moved_cursor(Motion::Col(by), c, lines).col
            == lines[c.line as int].len() - 1,
        0 <= c.line + by < lines.len() && c.col < lines[c.line + by].len() ==> moved_cursor(Motion::Line(by), c, lines)
            == (Cursor { line: (c.line + by) as usize, col: c.col }),
        0 <= c.line + by < lines.len() && 0 < lines[c.line + by].len() <= c.col ==> moved_cursor(
            Motion::Line(by),
            c,
            lines,
        ) == (Cursor { line: (c.line + by) as usize, col: (lines[c.line + by].len() - 1) as usize }),
        c.line + by < 0 ==> moved_cursor(Motion::Line(by), c, lines).line == 0,
        c.line + by >= lines.len() ==> moved_cursor(Motion::Line(by), c, lines).line == lines.len() - 1,
        moved_cursor(Motion::LineStart, c, lines) == (Cursor { line: c.line, col: 0 }),
        moved_cursor(Motion::LineEnd, c, lines) == (Cursor {
            line: c.line,
            col: (lines[c.line as int].len() - 1) as usize,
        }),
{
}

/// A jump leads back to the last place that is still in view.
pub proof fn law_a_jump_leads_back_into_view(stack: Seq<(usize, Cursor)>, view: Seq<usize>, n: int)
    ensures
        match jump_source(stack, view, n) {
            Some(k) => 0 <= k < stack.len() && stack[k].0 < n && view.contains(stack[k].0) && forall|j: int|
                k < j < stack.len() ==> !((#[trigger] stack[j]).0 < n && view.contains(stack[j].0)),
            None => forall|j: int| 0 <= j < stack.len() ==> !((#[trigger] stack[j]).0 < n && view.contains(stack[j].0)),
        },
    decreases stack.len(),
{
    if stack.len() > 0 && !(stack.last().0 < n && view.contains(stack.last().0)) {
        let front = stack.drop_last();
        law_a_jump_leads_back_into_view(front, view, n);
        assert forall|j: int| 0 <= j < front.len() implies front[j] == stack[j] by {}
    }
}

/// A character takes as many bytes as its encoding has.
pub proof fn law_a_text_is_as_long_as_its_encoding(s: Seq<char>)
    ensures
        text_bytes(s) == vstd::utf8::encode_utf8(s).len(),
    decreases s.len(),
{
    if s.len() > 0 {
        let front = s.drop_last();
        law_a_text_is_as_long_as_its_encoding(front);
        assert(s =~= front + seq![s.last()]);
        lemma_encode_concat(front, seq![s.last()]);
        lemma_encode_one(s.last());
    }
}

proof fn lemma_encode_concat(a: Seq<char>, b: Seq<char>)
    ensures
        vstd::utf8::encode_utf8(a + b) == vstd::utf8::encode_utf8(a) + vstd::utf8::encode_utf8(b),
    decreases a.len(),
{
    if a.len() == 0 {
        assert(a + b =~= b);
        assert(vstd::utf8::encode_utf8(a) + vstd::utf8::encode_utf8(b) =~= vstd::utf8::encode_utf8(b));
    } else {
        lemma_encode_concat(a.drop_first(), b);
        assert((a + b).drop_first() =~= a.drop_first() + b);
        assert((a + b)[0] == a[0]);
        assert(vstd::utf8::encode_utf8(a + b) =~= vstd::utf8::encode_utf8(a) + vstd::utf8::encode_utf8(b));
    }
}

proof fn lemma_encode_one(c: char)
    ensures
        vstd::utf8::encode_utf8(seq![c]).len() == char_bytes(c),
{
    assert(seq![c].drop_first() =~= Seq::<char>::empty());
    reveal_with_fuel(vstd::utf8::encode_utf8, 2);
}

/// A box moves down and to the right by what it is told, as far as it goes, and
/// back by the same.
pub proof fn law_a_box_moves_as_it_is_told(p: Popup, by: int)
    requires
        0 < p.lines@.len() <= u16::MAX,
        0 <= p.scroll + by < p.lines@.len(),
    ensures
        popup_scrolled(p, by).scroll == p.scroll + by,
        popup_scrolled(p, by).hscroll == p.hscroll,
        popup_scrolled(p, by).lines == p.lines,
{
}

/// A box moves sideways by what it is told while its widest line goes on.
pub proof fn law_a_box_moves_sideways_as_it_is_told(p: Popup, by: int)
    requires
        0 <= p.hscroll + by < counted(widest(lines_cells(p.lines@), p.lines@.len() as int)) <= u16::MAX,
    ensures
        popup_hscrolled(p, by).hscroll == p.hscroll + by,
        popup_hscrolled(p, by).scroll == p.scroll,
        popup_hscrolled(p, by).lines == p.lines,
{
}

/// The why pane follows the line it is on: that line is among those shown.
pub proof fn law_the_why_pane_follows_its_line(a: App, by: int)
    requires
        a.why_height > 0,
        0 < a.why_len <= u16::MAX,
        a.why_sel <= u16::MAX,
        0 <= a.why_sel + by < a.why_len,
    ensures
        why_moved(a, by).why_sel == a.why_sel + by,
        why_moved(a, by).why_scroll <= why_moved(a, by).why_sel < why_moved(a, by).why_scroll + a.why_height,
        why_moved(a, by).sel == a.sel,
{
}

} // verus!
