//! A comment stays on the lines it was written on, and is listed with them.

use crate::comments::{
    anchor_at, comment_line, comment_set, comment_touches, comments_in_order, relocated, untouched, LineComment,
};
use crate::desk::{lines_chosen, new_side};
use crate::identity::text_hash;
use crate::state::App;
use crate::text::{decimal, joined, texts};
use vstd::prelude::*;

verus! {

/// The anchor of some lines is made of those lines: what stands before or after
/// them does not change it.
pub proof fn law_an_anchor_is_made_of_its_lines(
    before: Seq<Seq<char>>,
    lines: Seq<Seq<char>>,
    after: Seq<Seq<char>>,
)
    requires
        lines.len() > 0,
    ensures
        anchor_at(before + lines + after, before.len() as int + 1, (before.len() + lines.len()) as int) == text_hash(
            joined(lines, "\n"@),
        ),
{
    let all = before + lines + after;
    assert(all.subrange(before.len() as int, (before.len() + lines.len()) as int) == lines);
}

/// A comment whose lines are where they were stays on them as it is.
pub proof fn law_a_comment_whose_lines_stand_still_stays(c: LineComment, lines: Seq<Seq<char>>)
    requires
        anchor_at(lines, c.start as int, c.end as int) == c.anchor,
    ensures
        relocated(c, lines).start == c.start,
        relocated(c, lines).end == c.end,
        !relocated(c, lines).stale,
        relocated(c, lines).text == c.text,
        relocated(c, lines).path == c.path,
        relocated(c, lines).anchor == c.anchor,
{
}

proof fn lemma_untouched(v: Seq<LineComment>, path: Seq<char>, start: usize, end: usize, c: LineComment)
    ensures
        untouched(v, path, start, end).contains(c) <==> v.contains(c) && !(c.path@ == path && c.start <= end && start
            <= c.end),
        untouched(v, path, start, end).len() <= v.len(),
    decreases v.len(),
{
    if v.len() > 0 {
        let w = v.drop_last();
        let u = untouched(w, path, start, end);
        lemma_untouched(w, path, start, end, c);
        assert(v == w.push(v.last()));
        if w.contains(c) {
            let k = choose|k: int| 0 <= k < w.len() && w[k] == c;
            assert(v[k] == c);
        }
        if v.contains(c) {
            let k = choose|k: int| 0 <= k < v.len() && v[k] == c;
            if k < w.len() {
                assert(w[k] == c);
            }
        }
        let p = u.push(v.last());
        assert(p[u.len() as int] == v.last());
        if u.contains(c) {
            let k = choose|k: int| 0 <= k < u.len() && u[k] == c;
            assert(p[k] == c);
        }
        if p.contains(c) {
            let k = choose|k: int| 0 <= k < p.len() && p[k] == c;
            assert(k == u.len() || u[k] == c);
        }
    }
}

/// An empty text removes the comments on the lines and no others.
pub proof fn law_an_empty_text_removes_what_is_on_the_lines(
    a: Seq<LineComment>,
    b: Seq<LineComment>,
    path: Seq<char>,
    lines: Seq<Seq<char>>,
    start: usize,
    end: usize,
    c: LineComment,
)
    requires
        comment_set(a, b, path, Some(lines), start, end, ""@, Ok(())),
        a.contains(c),
    ensures
        b.contains(c) <==> !(c.path@ == path && c.start <= end && start <= c.end),
{
    reveal_strlit("");
    lemma_untouched(a, path, start, end, c);
}

/// A text that is not empty is kept as a comment on the lines, and every
/// comment on other lines stays.
pub proof fn law_a_text_is_kept_on_its_lines(
    a: Seq<LineComment>,
    b: Seq<LineComment>,
    path: Seq<char>,
    lines: Seq<Seq<char>>,
    start: usize,
    end: usize,
    text: Seq<char>,
    c: LineComment,
)
    requires
        text.len() > 0,
        comment_set(a, b, path, Some(lines), start, end, text, Ok(())),
        a.contains(c),
        !(c.path@ == path && c.start == start && c.end == end),
    ensures
        b.contains(c),
        exists|k: int|
            0 <= k < b.len() && (#[trigger] b[k]).path@ == path && b[k].start == start && b[k].end == end && b[k].text@
                == text && !b[k].stale,
{
    let i = choose|i: int| 0 <= i < a.len() && a[i] == c;
    lemma_place(a, path, start, end, 0);
    match crate::comments::comment_place(a, path, start, end, 0) {
        Some(k) => {
            assert(i != k);
            assert(b[i] == c);
            assert(b[k].text@ == text);
        },
        None => {
            assert(b.drop_last()[i] == c);
            assert(b[i] == c);
            assert(b.last() == b[b.len() - 1]);
        },
    }
}

proof fn lemma_place(v: Seq<LineComment>, path: Seq<char>, start: usize, end: usize, from: int)
    requires
        0 <= from,
    ensures
        crate::comments::comment_place(v, path, start, end, from) matches Some(k) ==> from <= k < v.len() && v[k].path@
            == path && v[k].start == start && v[k].end == end,
    decreases v.len() - from,
{
    if from < v.len() {
        lemma_place(v, path, start, end, from + 1);
    }
}

/// A file that is gone takes no comment, and nothing changes.
pub proof fn law_a_file_that_is_gone_takes_no_comment(
    a: Seq<LineComment>,
    b: Seq<LineComment>,
    path: Seq<char>,
    start: usize,
    end: usize,
    text: Seq<char>,
    r: Result<(), Seq<char>>,
)
    requires
        comment_set(a, b, path, None, start, end, text, r),
    ensures
        b == a,
        r == Err::<(), Seq<char>>(path + " has no new side to comment on"@),
{
}

/// Two ranges touch where they have a line in common.
pub proof fn law_a_comment_touches_lines_that_it_shares(c: LineComment, path: Seq<char>, start: usize, end: usize)
    requires
        c.start <= c.end,
        start <= end,
    ensures
        comment_touches(c, path, start, end) <==> c.path@ == path && exists|n: int|
            #![trigger decimal(n)]
            c.start <= n <= c.end && start <= n <= end,
{
    if comment_touches(c, path, start, end) {
        let n: int = if c.start < start {
            start as int
        } else {
            c.start as int
        };
        let d = decimal(n);
        assert(c.start <= n <= c.end && start <= n <= end);
    }
}

/// A comment is told by its place and its text, and one whose lines changed says
/// so.
pub proof fn law_a_comment_is_told_at_its_place(c: LineComment)
    ensures
        c.start == c.end && !c.stale ==> comment_line(c) == c.path@ + ":"@ + decimal(c.start as int) + "  "@ + c.text@,
        c.start < c.end && !c.stale ==> comment_line(c) == c.path@ + ":"@ + decimal(c.start as int) + "-"@ + decimal(
            c.end as int,
        ) + "  "@ + c.text@,
        c.start == c.end && c.stale ==> comment_line(c) == c.path@ + ":"@ + decimal(c.start as int) + "  "@ + c.text@
            + "  (lines changed since)"@,
{
    reveal_strlit("");
    let s = c.place() + "  "@ + c.text@;
    assert(s + ""@ == s);
}

proof fn lemma_put(v: Seq<LineComment>, order: Seq<usize>, x: usize, y: usize)
    ensures
        crate::comments::put_in(v, order, x).contains(y) <==> order.contains(y) || x == y,
    decreases order.len(),
{
    let r = crate::comments::put_in(v, order, x);
    if order.len() == 0 || crate::comments::comment_le(v[order.last() as int], v[x as int]) {
        lemma_pushed(order, x, y);
    } else {
        lemma_put(v, order.drop_last(), x, y);
        lemma_pushed(crate::comments::put_in(v, order.drop_last(), x), order.last(), y);
        lemma_pushed(order.drop_last(), order.last(), y);
        assert(order.drop_last().push(order.last()) == order);
    }
}

proof fn lemma_pushed(v: Seq<usize>, x: usize, y: usize)
    ensures
        v.push(x).contains(y) <==> v.contains(y) || x == y,
{
    let w = v.push(x);
    assert(w[v.len() as int] == x);
    if v.contains(y) {
        let k = choose|k: int| 0 <= k < v.len() && v[k] == y;
        assert(w[k] == y);
    }
    if w.contains(y) {
        let k = choose|k: int| 0 <= k < w.len() && w[k] == y;
        assert(k == v.len() || v[k] == y);
    }
}

proof fn lemma_listed(v: Seq<LineComment>, paths: Seq<Seq<char>>, n: int, y: usize)
    requires
        0 <= n <= v.len() <= usize::MAX,
    ensures
        comments_in_order(v, paths, n).contains(y) <==> y < n && paths.contains(v[y as int].path@),
    decreases n,
{
    if n > 0 {
        lemma_listed(v, paths, n - 1, y);
        lemma_put(v, comments_in_order(v, paths, n - 1), (n - 1) as usize, y);
    }
}

/// The comments that are listed are those on the files under review.
pub proof fn law_the_comments_on_the_files_are_listed(v: Seq<LineComment>, paths: Seq<Seq<char>>, i: usize)
    requires
        v.len() <= usize::MAX,
        i < v.len(),
    ensures
        comments_in_order(v, paths, v.len() as int).contains(i) <==> paths.contains(v[i as int].path@),
{
    lemma_listed(v, paths, v.len() as int, i);
}

/// A comment goes on the lines from where the selection began to the cursor,
/// whichever comes first, or on the cursor's own line.
pub proof fn law_a_comment_goes_on_the_lines_chosen(line: usize, from: usize)
    requires
        line < usize::MAX,
        from < usize::MAX,
    ensures
        lines_chosen(line, None) == ((line + 1) as usize, (line + 1) as usize),
        from <= line ==> lines_chosen(line, Some(from)) == ((from + 1) as usize, (line + 1) as usize),
        from >= line ==> lines_chosen(line, Some(from)) == ((line + 1) as usize, (from + 1) as usize),
{
}

/// The lines commented on are those of the new side of the file.
pub proof fn law_comments_go_on_the_new_side(a: App)
    ensures
        a.sources@.dom().contains(a.path()) ==> new_side(a) == Some(texts(a.sources@[a.path()].1@)),
        !a.sources@.dom().contains(a.path()) ==> new_side(a) is None,
{
}

} // verus!
