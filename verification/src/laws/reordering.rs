//! Another strategy reads the same review in another order.

use crate::model::{Output, Sources};
use crate::reorder::{all_marked, changes_of, reordered, strategy_done};
use crate::state::{filter_globs, App};
use crate::text::{joined, texts};
use crate::view::view_of;
use vstd::prelude::*;

verus! {

/// Another order keeps the marks, the notes and the filters, starts at the first
/// hunk in view, and forgets the jumps and the search.
pub proof fn law_another_order_keeps_what_was_done(a: App, b: App, out: Output, name: Seq<char>, c: App)
    requires
        reordered(a, b, out, name, c),
    ensures
        b.marks == a.marks && b.notes == a.notes && b.sources == a.sources,
        b.comments_only == a.comments_only && b.show_all == a.show_all && b.path_filter == a.path_filter,
        b.strategy@ == name,
        b.sel == b.view@[0],
        b.jumps@.len() == 0 && b.search is None && b.popup is None,
        b.reviewed@ == all_marked(a.rev@, b.items@, a.sources@, a.marks@),
        b.view@ == view_of(b.items@, a.comments_only, a.show_all, filter_globs(a.path_filter)),
        b.rev == a.rev && b.theme == a.theme && b.keys == a.keys,
{
}

/// A strategy that leaves nothing to read is refused, and nothing changes.
pub proof fn law_a_strategy_that_leaves_nothing_is_refused(
    a: App,
    b: App,
    out: Output,
    name: Seq<char>,
    r: Result<(), Seq<char>>,
)
    requires
        strategy_done(a, b, out, name, r),
    ensures
        r is Err ==> b == a,
        r is Err ==> r == Err::<(), Seq<char>>("that strategy leaves nothing to review"@) || r == Err::<(), Seq<char>>(
            "that strategy leaves nothing visible under the current filters"@,
        ),
        r is Ok ==> b.view@.len() > 0 && b.strategy@ == name,
{
}

/// What is ordered anew is every file under review, with both its sides.
pub proof fn law_every_file_is_ordered_anew(sources: Sources, i: int)
    requires
        0 <= i < changes_of(sources).len(),
    ensures
        ({
            let c = changes_of(sources)[i];
            &&& c.old == Some(joined(texts(sources@[c.path].0@), "\n"@))
            &&& c.new == Some(joined(texts(sources@[c.path].1@), "\n"@))
        }),
{
}

} // verus!
