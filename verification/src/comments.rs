//! Comments on lines of the new side. A comment stays on its lines, and follows
//! them only while they read the same.

use crate::identity::{hash_text, text_hash};
use crate::text::{decimal, join, joined, le, number, same, text_le, texts};
use vstd::prelude::*;

verus! {

/// A comment on the lines from `start` to `end`, counted from 1.
pub struct LineComment {
    pub path: String,
    pub start: usize,
    pub end: usize,
    pub text: String,
    /// a hash of the lines that it was written on
    pub anchor: u64,
    /// whether its lines were edited or are gone
    pub stale: bool,
}

/// The hash of the lines from `start` to `end`; zero where there are none.
pub open spec fn anchor_at(lines: Seq<Seq<char>>, start: int, end: int) -> u64 {
    let last = if end < lines.len() {
        end
    } else {
        lines.len() as int
    };
    if 1 <= start <= last {
        text_hash(joined(lines.subrange(start - 1, last), "\n"@))
    } else {
        0
    }
}

pub fn anchor_of(lines: &[String], start: usize, end: usize) -> (r: u64)
    ensures
        r == anchor_at(texts(lines@), start as int, end as int),
{
    let n: usize = lines.len();
    let last: usize = if end < n {
        end
    } else {
        n
    };
    if start < 1 || start > last {
        return 0;
    }
    let part = vstd::slice::slice_subrange(lines, start - 1, last);
    assert(texts(part@) =~= texts(lines@).subrange(start - 1, last as int));
    hash_text(&join(part, "\n"))
}

/// How far apart two numbers are.
pub open spec fn apart(a: int, b: int) -> int {
    if a < b {
        b - a
    } else {
        a - b
    }
}

fn distance(a: usize, b: usize) -> (r: usize)
    ensures
        r == apart(a as int, b as int),
{
    if a < b {
        b - a
    } else {
        a - b
    }
}

/// The place among the first `n`, nearest to `start`, where `len` lines have the
/// hash `anchor`; of two that are as near, the first.
pub open spec fn nearest(lines: Seq<Seq<char>>, len: int, anchor: u64, start: int, n: int) -> Option<int>
    decreases n,
{
    if n <= 0 {
        None
    } else {
        let before = nearest(lines, len, anchor, start, n - 1);
        if anchor_at(lines, n, n + len - 1) != anchor {
            before
        } else {
            match before {
                Some(s) => if apart(n, start) < apart(s, start) {
                    Some(n)
                } else {
                    before
                },
                None => Some(n),
            }
        }
    }
}

/// How many lines a comment is on; one that ends before it starts is on one.
pub open spec fn span_of(c: LineComment) -> int {
    if c.end < c.start {
        1
    } else {
        c.end - c.start + 1
    }
}

/// How many places `len` lines have among `n`.
pub open spec fn places_for(n: int, len: int) -> int {
    if n >= len - 1 {
        n - (len - 1)
    } else {
        0
    }
}

/// A comment put back on its lines in a file as it now reads.
pub open spec fn relocated(c: LineComment, lines: Seq<Seq<char>>) -> LineComment {
    if anchor_at(lines, c.start as int, c.end as int) == c.anchor {
        LineComment { stale: false, ..c }
    } else {
        match nearest(lines, span_of(c), c.anchor, c.start as int, places_for(lines.len() as int, span_of(c))) {
            Some(s) => LineComment { start: s as usize, end: (s + span_of(c) - 1) as usize, stale: false, ..c },
            None => LineComment { stale: true, ..c },
        }
    }
}

impl LineComment {
    pub fn new(path: &str, start: usize, end: usize, text: &str, lines: &[String]) -> (r: LineComment)
        ensures
            r.path@ == path@,
            r.start == start,
            r.end == end,
            r.text@ == text@,
            r.anchor == anchor_at(texts(lines@), start as int, end as int),
            !r.stale,
    {
        LineComment {
            path: path.to_owned(),
            start,
            end,
            text: text.to_owned(),
            anchor: anchor_of(lines, start, end),
            stale: false,
        }
    }

    /// Where a comment is: `path:12`, or `path:12-18`.
    pub open spec fn place(self) -> Seq<char> {
        if self.end > self.start {
            self.path@ + ":"@ + decimal(self.start as int) + "-"@ + decimal(self.end as int)
        } else {
            self.path@ + ":"@ + decimal(self.start as int)
        }
    }

    pub fn at(&self) -> (r: String)
        ensures
            r@ == self.place(),
    {
        let head = self.path.clone().concat(":").concat(&number(self.start));
        if self.end > self.start {
            head.concat("-").concat(&number(self.end))
        } else {
            head
        }
    }

    /// Puts a comment back on its lines in a file as it now reads: where it was,
    /// or at the nearest place where the same lines are. Where they are nowhere
    /// it stays, and is marked stale.
    pub fn relocate(&mut self, lines: &[String])
        requires
            span_of(*old(self)) <= usize::MAX,
        ensures
            *final(self) == relocated(*old(self), texts(lines@)),
    {
        let ghost start = *self;
        let ghost all = texts(lines@);
        if anchor_of(lines, self.start, self.end) == self.anchor {
            self.stale = false;
            return;
        }
        let len: usize = if self.end < self.start {
            1
        } else {
            self.end - self.start + 1
        };
        let n: usize = lines.len();
        let places: usize = if n >= len - 1 {
            n - (len - 1)
        } else {
            0
        };
        let mut best: Option<usize> = None;
        for i in 0..places
            invariant
                *self == start,
                all == texts(lines@),
                all.len() == n,
                len == span_of(start),
                1 <= len,
                places == places_for(n as int, len as int),
                match best {
                    Some(b) => 1 <= b <= i && nearest(all, len as int, start.anchor, start.start as int, i as int)
                        == Some(b as int),
                    None => nearest(all, len as int, start.anchor, start.start as int, i as int) is None,
                },
        {
            let s: usize = i + 1;
            if anchor_of(lines, s, s + (len - 1)) == self.anchor {
                let closer = match best {
                    Some(b) => distance(s, self.start) < distance(b, self.start),
                    None => true,
                };
                if closer {
                    best = Some(s);
                }
            }
        }
        match best {
            Some(s) => {
                self.start = s;
                self.end = s + (len - 1);
                self.stale = false;
            },
            None => {
                self.stale = true;
            },
        }
    }
}

proof fn lemma_nearest(lines: Seq<Seq<char>>, len: int, anchor: u64, start: int, n: int)
    ensures
        match nearest(lines, len, anchor, start, n) {
            Some(s) => 1 <= s <= n && anchor_at(lines, s, s + len - 1) == anchor && forall|k: int|
                1 <= k <= n && anchor_at(lines, k, k + len - 1) == anchor ==> apart(s, start) <= #[trigger] apart(
                    k,
                    start,
                ),
            None => forall|k: int| 1 <= k <= n ==> #[trigger] anchor_at(lines, k, k + len - 1) != anchor,
        },
    decreases n,
{
    if n > 0 {
        lemma_nearest(lines, len, anchor, start, n - 1);
    }
}

/// A comment that is not stale is on lines that read as those it was written on;
/// one that is stale has none in the file, and is where it was.
pub proof fn law_a_comment_is_on_its_lines_or_stale(c: LineComment, lines: Seq<Seq<char>>)
    requires
        c.start <= c.end,
        span_of(c) <= usize::MAX,
        lines.len() <= usize::MAX,
    ensures
        ({
            let r = relocated(c, lines);
            &&& !r.stale ==> anchor_at(lines, r.start as int, r.end as int) == c.anchor
            &&& r.stale ==> r.start == c.start && r.end == c.end && forall|k: int|
                1 <= k <= places_for(lines.len() as int, span_of(c)) ==> #[trigger] anchor_at(
                    lines,
                    k,
                    k + span_of(c) - 1,
                ) != c.anchor
            &&& span_of(r) == span_of(c)
            &&& r.path == c.path
            &&& r.text == c.text
            &&& r.anchor == c.anchor
        }),
{
    lemma_nearest(lines, span_of(c), c.anchor, c.start as int, places_for(lines.len() as int, span_of(c)));
}

/// A comment moves to the nearest place where its lines are.
pub proof fn law_a_comment_moves_to_the_nearest_place(c: LineComment, lines: Seq<Seq<char>>, k: int)
    requires
        c.start <= c.end,
        span_of(c) <= usize::MAX,
        lines.len() <= usize::MAX,
        1 <= k <= places_for(lines.len() as int, span_of(c)),
        anchor_at(lines, k, k + span_of(c) - 1) == c.anchor,
    ensures
        !relocated(c, lines).stale,
        apart(relocated(c, lines).start as int, c.start as int) <= apart(k, c.start as int),
{
    lemma_nearest(lines, span_of(c), c.anchor, c.start as int, places_for(lines.len() as int, span_of(c)));
}

/// A comment on a file that did not change stays where it is.
pub proof fn law_an_unchanged_file_keeps_its_comments(c: LineComment, lines: Seq<Seq<char>>)
    requires
        c.anchor == anchor_at(lines, c.start as int, c.end as int),
        !c.stale,
    ensures
        relocated(c, lines) == c,
{
}

/// The lines that a comment goes on, from 1: those between the cursor and where
/// a selection started, or the cursor's own.
pub fn comment_lines(line: usize, selection: Option<usize>) -> (r: (usize, usize))
    requires
        line < usize::MAX,
        selection matches Some(a) ==> a < usize::MAX,
    ensures
        match selection {
            Some(a) => r == (if a < line {
                ((a + 1) as usize, (line + 1) as usize)
            } else {
                ((line + 1) as usize, (a + 1) as usize)
            }),
            None => r == ((line + 1) as usize, (line + 1) as usize),
        },
{
    let here: usize = line + 1;
    match selection {
        Some(anchor) => {
            let a: usize = anchor + 1;
            if a < here {
                (a, here)
            } else {
                (here, a)
            }
        },
        None => (here, here),
    }
}

/// Whether a comment is on one of some lines of a file.
pub open spec fn comment_touches(c: LineComment, path: Seq<char>, start: usize, end: usize) -> bool {
    c.path@ == path && c.start <= end && start <= c.end
}

/// The comments that are on none of some lines of a file.
pub open spec fn untouched(v: Seq<LineComment>, path: Seq<char>, start: usize, end: usize) -> Seq<LineComment>
    decreases v.len(),
{
    if v.len() == 0 {
        v
    } else if comment_touches(v.last(), path, start, end) {
        untouched(v.drop_last(), path, start, end)
    } else {
        untouched(v.drop_last(), path, start, end).push(v.last())
    }
}

/// The first comment on exactly some lines of a file.
pub open spec fn comment_place(v: Seq<LineComment>, path: Seq<char>, start: usize, end: usize, from: int) -> Option<int>
    decreases v.len() - from,
{
    if from >= v.len() {
        None
    } else if v[from].path@ == path && v[from].start == start && v[from].end == end {
        Some(from)
    } else {
        comment_place(v, path, start, end, from + 1)
    }
}

/// Whether a comment is a new one on some lines.
pub open spec fn is_fresh(
    c: LineComment,
    path: Seq<char>,
    start: usize,
    end: usize,
    text: Seq<char>,
    lines: Seq<Seq<char>>,
) -> bool {
    c.path@ == path && c.start == start && c.end == end && c.text@ == text && c.anchor == anchor_at(
        lines,
        start as int,
        end as int,
    ) && !c.stale
}

/// Whether setting a comment did what it should: `a` before and `b` after. No
/// text takes away every comment on the lines; a text replaces the comment on
/// exactly these lines, or is added.
pub open spec fn comment_set(
    a: Seq<LineComment>,
    b: Seq<LineComment>,
    path: Seq<char>,
    lines: Option<Seq<Seq<char>>>,
    start: usize,
    end: usize,
    text: Seq<char>,
    r: Result<(), Seq<char>>,
) -> bool {
    match lines {
        None => r == Err::<(), Seq<char>>(path + " has no new side to comment on"@) && b == a,
        Some(l) => if text.len() == 0 {
            if untouched(a, path, start, end).len() == a.len() {
                r == Err::<(), Seq<char>>("no comment on these lines to delete"@) && b == a
            } else {
                r is Ok && b == untouched(a, path, start, end)
            }
        } else {
            r is Ok && match comment_place(a, path, start, end, 0) {
                Some(k) => b.len() == a.len() && is_fresh(b[k], path, start, end, text, l) && b == a.update(k, b[k]),
                None => b.len() == a.len() + 1 && is_fresh(b.last(), path, start, end, text, l) && b.drop_last() == a,
            }
        },
    }
}

proof fn lemma_untouched(v: Seq<LineComment>, path: Seq<char>, start: usize, end: usize)
    ensures
        untouched(v, path, start, end).len() <= v.len(),
        untouched(v, path, start, end).len() == v.len() ==> untouched(v, path, start, end) == v,
    decreases v.len(),
{
    if v.len() > 0 {
        lemma_untouched(v.drop_last(), path, start, end);
        assert(v.drop_last().push(v.last()) =~= v);
    }
}

fn drop_touched(v: &mut Vec<LineComment>, path: &str, start: usize, end: usize)
    ensures
        final(v)@ == untouched(old(v)@, path@, start, end),
{
    let ghost all = v@;
    let mut i: usize = 0;
    let ghost mut seen: int = 0;
    assert(all.take(0) =~= Seq::empty());
    assert(v@ =~= untouched(all.take(0), path@, start, end) + all.skip(0));
    while i < v.len()
        invariant
            0 <= seen <= all.len(),
            i == untouched(all.take(seen), path@, start, end).len(),
            v@ == untouched(all.take(seen), path@, start, end) + all.skip(seen),
        decreases all.len() - seen,
    {
        let ghost kept = untouched(all.take(seen), path@, start, end);
        proof {
            assert(seen < all.len());
            assert(v@[i as int] == all[seen]);
            assert(all.take(seen + 1).drop_last() =~= all.take(seen));
        }
        let hit = same(&v[i].path, path) && v[i].start <= end && start <= v[i].end;
        if hit {
            let _ = v.remove(i);
            assert(v@ =~= kept + all.skip(seen + 1));
        } else {
            i = i + 1;
            assert(v@ =~= kept.push(all[seen]) + all.skip(seen + 1));
        }
        proof {
            seen = seen + 1;
        }
    }
    proof {
        assert(seen == all.len());
        assert(all.take(seen) =~= all);
        assert(v@ =~= untouched(all, path@, start, end));
    }
}

pub open spec fn unit_result(r: Result<(), String>) -> Result<(), Seq<char>> {
    match r {
        Ok(_) => Ok(()),
        Err(why) => Err(why@),
    }
}

pub open spec fn lines_option(l: Option<&Vec<String>>) -> Option<Seq<Seq<char>>> {
    match l {
        Some(v) => Some(texts(v@)),
        None => None,
    }
}

/// Sets a comment on lines of a file; no text takes away those that are there.
pub fn set_comment(
    comments: &mut Vec<LineComment>,
    path: &str,
    lines: Option<&Vec<String>>,
    start: usize,
    end: usize,
    text: &str,
) -> (r: Result<(), String>)
    ensures
        comment_set(
            old(comments)@,
            final(comments)@,
            path@,
            lines_option(lines),
            start,
            end,
            text@,
            unit_result(r),
        ),
{
    let ghost a = comments@;
    let side = match lines {
        Some(l) => l,
        None => {
            return Err(path.to_owned().concat(" has no new side to comment on"));
        },
    };
    if text.is_empty() {
        proof {
            lemma_untouched(a, path@, start, end);
        }
        let before: usize = comments.len();
        drop_touched(comments, path, start, end);
        if comments.len() == before {
            return Err("no comment on these lines to delete".to_owned());
        }
        return Ok(());
    }
    let fresh = LineComment::new(path, start, end, text, side);
    let n: usize = comments.len();
    let mut k: usize = 0;
    while k < n && !(same(&comments[k].path, path) && comments[k].start == start && comments[k].end == end)
        invariant
            comments@ == a,
            n == a.len(),
            k <= n,
            comment_place(a, path@, start, end, 0) == comment_place(a, path@, start, end, k as int),
        decreases n - k,
    {
        k = k + 1;
    }
    if k < n {
        comments.set(k, fresh);
        assert(comments@ =~= a.update(k as int, comments@[k as int]));
    } else {
        comments.push(fresh);
        assert(comments@.drop_last() =~= a);
    }
    Ok(())
}

/// The order of comments: by path, then by where they start.
pub open spec fn comment_le(a: LineComment, b: LineComment) -> bool {
    text_le(a.path@, b.path@) && (a.path@ == b.path@ ==> a.start <= b.start)
}

fn comes_before(a: &LineComment, b: &LineComment) -> (r: bool)
    ensures
        r == comment_le(*a, *b),
{
    le(&a.path, &b.path) && (!same(&a.path, &b.path) || a.start <= b.start)
}

/// A row of places with one more put in: behind all that come before it.
pub open spec fn put_in(v: Seq<LineComment>, order: Seq<usize>, x: usize) -> Seq<usize>
    decreases order.len(),
{
    if order.len() == 0 || comment_le(v[order.last() as int], v[x as int]) {
        order.push(x)
    } else {
        put_in(v, order.drop_last(), x).push(order.last())
    }
}

/// The comments among the first `n` that are on some files, in order.
pub open spec fn comments_in_order(v: Seq<LineComment>, paths: Seq<Seq<char>>, n: int) -> Seq<usize>
    decreases n,
{
    if n <= 0 {
        Seq::empty()
    } else if paths.contains(v[n - 1].path@) {
        put_in(v, comments_in_order(v, paths, n - 1), (n - 1) as usize)
    } else {
        comments_in_order(v, paths, n - 1)
    }
}

proof fn lemma_put_in(v: Seq<LineComment>, order: Seq<usize>, x: usize, p: int)
    requires
        0 <= p <= order.len(),
        p == 0 || comment_le(v[order[p - 1] as int], v[x as int]),
        forall|k: int| p <= k < order.len() ==> !comment_le(v[#[trigger] order[k] as int], v[x as int]),
    ensures
        put_in(v, order, x) == order.insert(p, x),
    decreases order.len(),
{
    if order.len() == 0 || comment_le(v[order.last() as int], v[x as int]) {
        assert(p == order.len()) by {
            if p < order.len() {
                assert(!comment_le(v[order[order.len() - 1] as int], v[x as int]));
            }
        }
        assert(order.insert(p, x) =~= order.push(x));
    } else {
        if p == order.len() {
            assert(order[p - 1] == order.last());
        }
        let t = order.drop_last();
        assert forall|k: int| p <= k < t.len() implies !comment_le(v[#[trigger] t[k] as int], v[x as int]) by {
            assert(t[k] == order[k]);
        }
        lemma_put_in(v, t, x, p);
        assert(order.insert(p, x) =~= t.insert(p, x).push(order.last()));
    }
}

proof fn lemma_comments_in_order(v: Seq<LineComment>, paths: Seq<Seq<char>>, n: int)
    requires
        0 <= n <= v.len() <= usize::MAX,
    ensures
        forall|k: int| 0 <= k < comments_in_order(v, paths, n).len() ==> (#[trigger] comments_in_order(v, paths, n)[k]) < n,
        comments_in_order(v, paths, n).len() <= n,
    decreases n,
{
    if n > 0 {
        lemma_comments_in_order(v, paths, n - 1);
        lemma_put_in_bound(v, comments_in_order(v, paths, n - 1), (n - 1) as usize, n);
    }
}

proof fn lemma_put_in_bound(v: Seq<LineComment>, order: Seq<usize>, x: usize, n: int)
    requires
        x < n,
        forall|k: int| 0 <= k < order.len() ==> (#[trigger] order[k]) < n,
    ensures
        forall|k: int| 0 <= k < put_in(v, order, x).len() ==> (#[trigger] put_in(v, order, x)[k]) < n,
        put_in(v, order, x).len() == order.len() + 1,
    decreases order.len(),
{
    if !(order.len() == 0 || comment_le(v[order.last() as int], v[x as int])) {
        lemma_put_in_bound(v, order.drop_last(), x, n);
    }
}

/// The comments on the files of a review, by path and then by where they start.
pub fn review_comments(comments: &Vec<LineComment>, paths: &Vec<String>) -> (r: Vec<usize>)
    ensures
        r@ == comments_in_order(comments@, texts(paths@), comments@.len() as int),
        forall|k: int| 0 <= k < r@.len() ==> (#[trigger] r@[k]) < comments@.len(),
{
    let ghost v = comments@;
    let ghost ps = texts(paths@);
    let mut order: Vec<usize> = Vec::new();
    let n: usize = comments.len();
    for i in 0..n
        invariant
            n == comments@.len(),
            v == comments@,
            ps == texts(paths@),
            order@ == comments_in_order(v, ps, i as int),
    {
        proof {
            lemma_comments_in_order(v, ps, i as int);
        }
        if crate::editor::holds(paths, &comments[i].path) {
            let ghost was = order@;
            let mut p: usize = order.len();
            while p > 0 && !comes_before(&comments[order[p - 1]], &comments[i])
                invariant
                    i < n,
                    n == comments@.len(),
                    v == comments@,
                    order@ == was,
                    p <= was.len(),
                    forall|k: int| 0 <= k < was.len() ==> (#[trigger] was[k]) < i,
                    forall|k: int| p <= k < was.len() ==> !comment_le(v[#[trigger] was[k] as int], v[i as int]),
                decreases p,
            {
                p = p - 1;
            }
            proof {
                lemma_put_in(v, was, i, p as int);
            }
            order.insert(p, i);
        }
    }
    proof {
        lemma_comments_in_order(v, ps, n as int);
    }
    order
}

/// The line that a list of comments shows of one.
pub open spec fn comment_line(c: LineComment) -> Seq<char> {
    c.place() + "  "@ + c.text@ + (if c.stale {
        "  (lines changed since)"@
    } else {
        ""@
    })
}

/// The list of the comments of a review.
pub fn comment_list(comments: &Vec<LineComment>, paths: &Vec<String>) -> (r: Vec<String>)
    ensures
        ({
            let order = comments_in_order(comments@, texts(paths@), comments@.len() as int);
            texts(r@) == Seq::new(order.len(), |k: int| comment_line(comments@[order[k] as int]))
        }),
{
    let order = review_comments(comments, paths);
    let mut out: Vec<String> = Vec::new();
    let ghost all = Seq::new(order@.len(), |k: int| comment_line(comments@[order@[k] as int]));
    assert(texts(out@) =~= all.take(0));
    for k in 0..order.len()
        invariant
            forall|j: int| 0 <= j < order@.len() ==> (#[trigger] order@[j]) < comments@.len(),
            all == Seq::new(order@.len(), |k: int| comment_line(comments@[order@[k] as int])),
            texts(out@) == all.take(k as int),
    {
        let ghost had = texts(out@);
        let at: usize = order[k];
        assert(order@[k as int] < comments@.len());
        let c = &comments[at];
        let mark = if c.stale {
            "  (lines changed since)"
        } else {
            ""
        };
        let line = c.at().concat("  ").concat(&c.text).concat(mark);
        out.push(line);
        assert(texts(out@) =~= had.push(all[k as int]));
        assert(all.take(k + 1) =~= all.take(k as int).push(all[k as int]));
    }
    assert(all.take(order@.len() as int) =~= all);
    out
}

proof fn lemma_order_after(v: Seq<LineComment>, order: Seq<usize>, x: usize)
    requires
        forall|a: int, b: int|
            0 <= a < b < order.len() ==> comment_le(v[#[trigger] order[a] as int], v[#[trigger] order[b] as int]),
    ensures
        ({
            let r = put_in(v, order, x);
            &&& forall|a: int, b: int|
                0 <= a < b < r.len() ==> comment_le(v[#[trigger] r[a] as int], v[#[trigger] r[b] as int])
            &&& forall|y: usize| r.contains(y) <==> order.contains(y) || y == x
        }),
    decreases order.len(),
{
    let r = put_in(v, order, x);
    if order.len() == 0 || comment_le(v[order.last() as int], v[x as int]) {
        assert forall|a: int, b: int| 0 <= a < b < r.len() implies comment_le(
            v[#[trigger] r[a] as int],
            v[#[trigger] r[b] as int],
        ) by {
            if b == order.len() {
                if a < order.len() - 1 {
                    assert(comment_le(v[order[a] as int], v[order[order.len() - 1] as int]));
                    lemma_comment_le_transitive(v[order[a] as int], v[order.last() as int], v[x as int]);
                }
            } else {
                assert(comment_le(v[order[a] as int], v[order[b] as int]));
            }
        }
        assert forall|y: usize| r.contains(y) <==> order.contains(y) || y == x by {
            if order.contains(y) {
                let w = choose|w: int| 0 <= w < order.len() && order[w] == y;
                assert(r[w] == y);
            }
            if y == x {
                assert(r[order.len() as int] == y);
            }
        }
    } else {
        let t = order.drop_last();
        assert forall|a: int, b: int| 0 <= a < b < t.len() implies comment_le(
            v[#[trigger] t[a] as int],
            v[#[trigger] t[b] as int],
        ) by {
            assert(comment_le(v[order[a] as int], v[order[b] as int]));
        }
        lemma_order_after(v, t, x);
        let s = put_in(v, t, x);
        let last = order.last();
        lemma_comment_le_total(v[last as int], v[x as int]);
        assert forall|a: int, b: int| 0 <= a < b < r.len() implies comment_le(
            v[#[trigger] r[a] as int],
            v[#[trigger] r[b] as int],
        ) by {
            if b < s.len() {
                assert(r[a] == s[a] && r[b] == s[b]);
                assert(comment_le(v[s[a] as int], v[s[b] as int]));
            } else {
                assert(r[a] == s[a]);
                assert(s.contains(s[a]));
                if s[a] != x {
                    let w = choose|w: int| 0 <= w < t.len() && t[w] == s[a];
                    assert(order[w] == s[a]);
                    assert(comment_le(v[order[w] as int], v[order[order.len() - 1] as int]));
                }
            }
        }
        assert forall|y: usize| r.contains(y) <==> order.contains(y) || y == x by {
            if order.contains(y) {
                let w = choose|w: int| 0 <= w < order.len() && order[w] == y;
                if w < t.len() {
                    assert(t[w] == y);
                    assert(s.contains(y));
                    let z = choose|z: int| 0 <= z < s.len() && s[z] == y;
                    assert(r[z] == y);
                } else {
                    assert(r[s.len() as int] == y);
                }
            }
            if y == x {
                assert(s.contains(y));
                let z = choose|z: int| 0 <= z < s.len() && s[z] == y;
                assert(r[z] == y);
            }
            if r.contains(y) {
                let z = choose|z: int| 0 <= z < r.len() && r[z] == y;
                if z < s.len() {
                    assert(s[z] == y);
                    assert(s.contains(y));
                    if t.contains(y) {
                        let w = choose|w: int| 0 <= w < t.len() && t[w] == y;
                        assert(order[w] == y);
                    }
                } else {
                    assert(order[order.len() - 1] == y);
                }
            }
        }
    }
}

proof fn lemma_comment_le_transitive(a: LineComment, b: LineComment, c: LineComment)
    requires
        comment_le(a, b),
        comment_le(b, c),
    ensures
        comment_le(a, c),
{
    crate::text::lemma_text_le_transitive(a.path@, b.path@, c.path@);
    if a.path@ == c.path@ {
        crate::text::lemma_text_le_antisymmetric(a.path@, b.path@);
    }
}

proof fn lemma_comment_le_total(a: LineComment, b: LineComment)
    ensures
        comment_le(a, b) || comment_le(b, a),
{
    crate::text::lemma_text_le_total(a.path@, b.path@);
    if text_le(a.path@, b.path@) && text_le(b.path@, a.path@) {
        crate::text::lemma_text_le_antisymmetric(a.path@, b.path@);
    }
}

/// The list of comments is in order, and holds just those on the files of the
/// review.
pub proof fn law_comments_are_listed_in_order(v: Seq<LineComment>, paths: Seq<Seq<char>>, n: int)
    requires
        0 <= n <= v.len() <= usize::MAX,
    ensures
        ({
            let r = comments_in_order(v, paths, n);
            &&& forall|a: int, b: int|
                0 <= a < b < r.len() ==> comment_le(v[#[trigger] r[a] as int], v[#[trigger] r[b] as int])
            &&& forall|i: int| 0 <= i < n ==> (r.contains(i as usize) <==> paths.contains((#[trigger] v[i]).path@))
        }),
    decreases n,
{
    if n > 0 {
        law_comments_are_listed_in_order(v, paths, n - 1);
        lemma_comments_in_order(v, paths, n - 1);
        let before = comments_in_order(v, paths, n - 1);
        lemma_order_after(v, before, (n - 1) as usize);
        let r = comments_in_order(v, paths, n);
        assert forall|i: int| 0 <= i < n implies (r.contains(i as usize) <==> paths.contains(
            (#[trigger] v[i]).path@,
        )) by {
            if i == n - 1 && !paths.contains(v[i].path@) {
                if before.contains(i as usize) {
                    let w = choose|w: int| 0 <= w < before.len() && before[w] == i as usize;
                    assert(before[w] < n - 1);
                }
            }
        }
    }
}

/// Whether no two comments are on the same lines of a file.
pub open spec fn places_differ(v: Seq<LineComment>) -> bool {
    forall|i: int, j: int|
        0 <= i < j < v.len() ==> !((#[trigger] v[i]).path@ == (#[trigger] v[j]).path@ && v[i].start == v[j].start
            && v[i].end == v[j].end)
}

/// Where a comment on exactly some lines is first found.
pub proof fn lemma_comment_place(v: Seq<LineComment>, path: Seq<char>, start: usize, end: usize, from: int)
    requires
        0 <= from <= v.len(),
    ensures
        match comment_place(v, path, start, end, from) {
            Some(k) => from <= k < v.len() && v[k].path@ == path && v[k].start == start && v[k].end == end,
            None => true,
        },
        forall|k: int|
            from <= k < v.len() && (#[trigger] v[k]).path@ == path && v[k].start == start && v[k].end == end
                ==> comment_place(v, path, start, end, from) is Some && comment_place(v, path, start, end, from)->0
                <= k,
    decreases v.len() - from,
{
    if from < v.len() && !(v[from].path@ == path && v[from].start == start && v[from].end == end) {
        lemma_comment_place(v, path, start, end, from + 1);
    }
}

/// What is left untouched is off the lines, and comes from what was there.
proof fn lemma_untouched_is_off(v: Seq<LineComment>, path: Seq<char>, start: usize, end: usize)
    ensures
        forall|k: int|
            0 <= k < untouched(v, path, start, end).len() ==> !comment_touches(
                #[trigger] untouched(v, path, start, end)[k],
                path,
                start,
                end,
            ),
        forall|c: LineComment| #[trigger]
            untouched(v, path, start, end).contains(c) <==> v.contains(c) && !comment_touches(c, path, start, end),
        places_differ(v) ==> places_differ(untouched(v, path, start, end)),
    decreases v.len(),
{
    if v.len() > 0 {
        let before = v.drop_last();
        lemma_untouched_is_off(before, path, start, end);
        let r = untouched(before, path, start, end);
        let all = untouched(v, path, start, end);
        assert(v =~= before.push(v.last()));
        assert forall|c: LineComment| #[trigger] all.contains(c) <==> v.contains(c) && !comment_touches(
            c,
            path,
            start,
            end,
        ) by {
            assert(before.push(v.last()).contains(c) <==> before.contains(c) || c == v.last()) by {
                lemma_push_holds(before, v.last(), c);
            }
            lemma_push_holds(r, v.last(), c);
        }
        if places_differ(v) && !comment_touches(v.last(), path, start, end) {
            assert forall|i: int, j: int| 0 <= i < j < all.len() implies !((#[trigger] all[i]).path@ == (
            #[trigger] all[j]).path@ && all[i].start == all[j].start && all[i].end == all[j].end) by {
                if j == all.len() - 1 {
                    assert(r.contains(r[i]));
                    assert(before.contains(r[i]));
                    let k = choose|k: int| 0 <= k < before.len() && before[k] == r[i];
                    assert(v[k] == r[i] && v[v.len() - 1] == all[j]);
                }
            }
        }
    }
}

proof fn lemma_push_holds(v: Seq<LineComment>, x: LineComment, c: LineComment)
    ensures
        v.push(x).contains(c) <==> v.contains(c) || c == x,
{
    let all = v.push(x);
    if v.contains(c) {
        let k = choose|k: int| 0 <= k < v.len() && v[k] == c;
        assert(all[k] == c);
    }
    if c == x {
        assert(all[v.len() as int] == c);
    }
    if all.contains(c) {
        let k = choose|k: int| 0 <= k < all.len() && all[k] == c;
        if k < v.len() {
            assert(v[k] == c);
        }
    }
}

/// A comment that was set is the one on its lines; one without text takes away
/// just those on its lines; and no two comments come to be on the same lines.
pub proof fn law_a_set_comment_reads_back(
    a: Seq<LineComment>,
    b: Seq<LineComment>,
    path: Seq<char>,
    lines: Seq<Seq<char>>,
    start: usize,
    end: usize,
    text: Seq<char>,
    r: Result<(), Seq<char>>,
)
    requires
        comment_set(a, b, path, Some(lines), start, end, text, r),
    ensures
        text.len() > 0 ==> comment_place(b, path, start, end, 0) is Some && is_fresh(
            b[comment_place(b, path, start, end, 0)->0],
            path,
            start,
            end,
            text,
            lines,
        ),
        text.len() == 0 ==> forall|c: LineComment| #[trigger]
            b.contains(c) <==> a.contains(c) && !comment_touches(c, path, start, end),
        places_differ(a) ==> places_differ(b),
{
    lemma_comment_place(a, path, start, end, 0);
    lemma_comment_place(b, path, start, end, 0);
    if text.len() == 0 {
        lemma_untouched(a, path, start, end);
        lemma_untouched_is_off(a, path, start, end);
    } else {
        match comment_place(a, path, start, end, 0) {
            Some(k) => {
                let k2 = comment_place(b, path, start, end, 0)->0;
                assert(b[k].path@ == path);
                if k2 < k {
                    assert(b[k2] == a[k2]);
                }
                assert(k2 == k);
                assert forall|i: int, j: int| places_differ(a) && 0 <= i < j < b.len() implies !((#[trigger] b[i]).path@
                    == (#[trigger] b[j]).path@ && b[i].start == b[j].start && b[i].end == b[j].end) by {
                    assert(a[i].path@ == b[i].path@ && a[i].start == b[i].start && a[i].end == b[i].end);
                    assert(a[j].path@ == b[j].path@ && a[j].start == b[j].start && a[j].end == b[j].end);
                }
            },
            None => {
                let n = a.len() as int;
                assert(b[n] == b.last());
                let k2 = comment_place(b, path, start, end, 0)->0;
                assert forall|i: int| 0 <= i < n implies #[trigger] b[i] == a[i] by {
                    assert(b.drop_last()[i] == b[i]);
                }
                if k2 < n {
                    assert(b[k2] == a[k2]);
                }
                assert(k2 == n);
                assert forall|i: int, j: int| places_differ(a) && 0 <= i < j < b.len() implies !((#[trigger] b[i]).path@
                    == (#[trigger] b[j]).path@ && b[i].start == b[j].start && b[i].end == b[j].end) by {
                    assert(b[i] == a[i]);
                    if j < n {
                        assert(b[j] == a[j]);
                    }
                }
            },
        }
    }
}

} // verus!
