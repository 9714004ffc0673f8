//! The accounts that are given of a review add up.

use crate::execute::{hidden_counts, moved_lines, recolored};
use crate::highlight::file_painted;
use crate::identity::Delta;
use crate::model::FileLines;
use crate::state::{filter_globs, App};
use crate::text::{decimal, joined, texts};
use crate::theme::Syntax;
use crate::view::{view_of, Hidden};
use vstd::prelude::*;

verus! {

/// Every hunk is in view or hidden for one of the three reasons: what is shown
/// and what is hidden make up the review.
pub proof fn law_what_is_shown_and_hidden_is_everything(a: App, h: Hidden)
    requires
        hidden_counts(a, h),
        a.view@ == view_of(a.items@, a.comments_only, a.show_all, filter_globs(a.path_filter)),
    ensures
        a.view@.len() + h.comment + h.noise + h.glob == a.items@.len(),
        h.unaccounted == 0,
{
    crate::view::lemma_partition(
        a.items@,
        a.comments_only,
        a.show_all,
        filter_globs(a.path_filter),
        a.items@.len() as int,
    );
}

proof fn lemma_moved(a: App, n: int, k: int)
    requires
        0 <= k < n <= a.view@.len(),
        a.view@[k] < a.deltas@.len(),
        a.deltas@[a.view@[k] as int] == Delta::Moved,
    ensures
        ({
            let it = a.items@[a.view@[k] as int];
            moved_lines(a, n).contains(
                "  moved: "@ + (it.path@ + ":L"@ + decimal(it.new_range[0] as int)) + "  "@ + it.rationale@,
            )
        }),
    decreases n,
{
    let it = a.items@[a.view@[k] as int];
    let line = "  moved: "@ + (it.path@ + ":L"@ + decimal(it.new_range[0] as int)) + "  "@ + it.rationale@;
    let before = moved_lines(a, n - 1);
    let now = moved_lines(a, n);
    if k < n - 1 {
        lemma_moved(a, n - 1, k);
        let j = choose|j: int| 0 <= j < before.len() && before[j] == line;
        assert(now[j] == line);
    } else {
        assert(now[before.len() as int] == line);
    }
}

/// Every hunk in view that is only read elsewhere now is listed, with its place
/// and its reason.
pub proof fn law_a_hunk_that_moved_is_listed(a: App, k: int)
    requires
        0 <= k < a.view@.len(),
        a.view@[k] < a.deltas@.len(),
        a.deltas@[a.view@[k] as int] == Delta::Moved,
    ensures
        ({
            let it = a.items@[a.view@[k] as int];
            moved_lines(a, a.view@.len() as int).contains(
                "  moved: "@ + (it.path@ + ":L"@ + decimal(it.new_range[0] as int)) + "  "@ + it.rationale@,
            )
        }),
{
    lemma_moved(a, a.view@.len() as int, k);
}

/// Where nothing moved, nothing is listed as moved.
pub proof fn law_nothing_is_listed_where_nothing_moved(a: App, n: int)
    requires
        0 <= n <= a.view@.len(),
        forall|i: int| 0 <= i < a.deltas@.len() ==> #[trigger] a.deltas@[i] != Delta::Moved,
    ensures
        moved_lines(a, n).len() == 0,
    decreases n,
{
    if n > 0 {
        law_nothing_is_listed_where_nothing_moved(a, n - 1);
    }
}

/// Another theme colours the new side of a file anew, and a file that is not
/// there keeps the colours it has.
pub proof fn law_a_theme_colors_the_new_side(
    was: Vec<crate::code_view::LineSpans>,
    is: Vec<crate::code_view::LineSpans>,
    path: Seq<char>,
    sources: Map<Seq<char>, FileLines>,
    syn: Syntax,
)
    requires
        recolored(was, is, path, sources, syn),
    ensures
        !sources.dom().contains(path) ==> is == was,
        sources.dom().contains(path) && file_painted(path, joined(texts(sources[path].1@), "\n"@), syn) is Some ==> Some(
            crate::highlight::line_runs(is@),
        ) == file_painted(path, joined(texts(sources[path].1@), "\n"@), syn),
{
}

} // verus!
