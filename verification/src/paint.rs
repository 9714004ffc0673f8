//! Styled text: spans, the cells that they show, and what is done to ranges of
//! them.

use crate::text::{chars_of, slice_string};
use crate::theme::Color;
use vstd::prelude::*;

verus! {

/// How a character is shown.
#[derive(Clone, Copy, PartialEq, Eq, Debug, Structural)]
pub struct Style {
    pub fg: Option<Color>,
    pub bg: Option<Color>,
    pub bold: bool,
    pub underlined: bool,
    pub reversed: bool,
}

impl Style {
    #[verifier::allow_in_spec]
    pub fn plain() -> Style
        returns
            (Style { fg: None, bg: None, bold: false, underlined: false, reversed: false }),
    {
        Style { fg: None, bg: None, bold: false, underlined: false, reversed: false }
    }

    #[verifier::allow_in_spec]
    pub fn of(fg: Color) -> Style
        returns
            (Style { fg: Some(fg), bg: None, bold: false, underlined: false, reversed: false }),
    {
        Style { fg: Some(fg), bg: None, bold: false, underlined: false, reversed: false }
    }

    #[verifier::allow_in_spec]
    pub fn on(fg: Color, bg: Color) -> Style
        returns
            (Style { fg: Some(fg), bg: Some(bg), bold: false, underlined: false, reversed: false }),
    {
        Style { fg: Some(fg), bg: Some(bg), bold: false, underlined: false, reversed: false }
    }

    #[verifier::allow_in_spec]
    pub fn filled(bg: Color) -> Style
        returns
            (Style { fg: None, bg: Some(bg), bold: false, underlined: false, reversed: false }),
    {
        Style { fg: None, bg: Some(bg), bold: false, underlined: false, reversed: false }
    }

    /// The style with another foreground.
    #[verifier::allow_in_spec]
    pub fn with_fg(self, fg: Color) -> Style
        returns
            (Style { fg: Some(fg), ..self }),
    {
        Style {
            fg: Some(fg),
            bg: self.bg,
            bold: self.bold,
            underlined: self.underlined,
            reversed: self.reversed,
        }
    }

    /// The style with another background.
    #[verifier::allow_in_spec]
    pub fn with_bg(self, bg: Color) -> Style
        returns
            (Style { bg: Some(bg), ..self }),
    {
        Style {
            fg: self.fg,
            bg: Some(bg),
            bold: self.bold,
            underlined: self.underlined,
            reversed: self.reversed,
        }
    }
}

/// What is done to a style.
#[derive(Clone, Copy, PartialEq, Eq, Debug, Structural)]
pub enum Restyle {
    Background(Color),
    Reverse,
}

impl Restyle {
    #[verifier::allow_in_spec]
    pub fn apply(self, s: Style) -> Style
        returns
            (match self {
                Restyle::Background(c) => Style { bg: Some(c), ..s },
                Restyle::Reverse => Style { reversed: true, ..s },
            }),
    {
        match self {
            Restyle::Background(c) => s.with_bg(c),
            Restyle::Reverse => Style {
                fg: s.fg,
                bg: s.bg,
                bold: s.bold,
                underlined: s.underlined,
                reversed: true,
            },
        }
    }
}

/// A run of characters shown alike.
pub struct Span {
    pub content: String,
    pub style: Style,
}

impl Span {
    pub fn new(content: String, style: Style) -> (r: Span)
        ensures
            r.content == content,
            r.style == style,
    {
        Span { content, style }
    }

    pub fn copied(&self) -> (r: Span)
        ensures
            r == *self,
    {
        Span { content: self.content.clone(), style: self.style }
    }
}

/// A line on the screen.
pub type Line = Vec<Span>;

/// One character on the screen.
pub type Cell = (char, Style);

/// The cells of a text shown in one style.
pub open spec fn text_cells(s: Seq<char>, style: Style) -> Seq<Cell> {
    Seq::new(s.len(), |i: int| (s[i], style))
}

/// The cells of a row of spans.
pub open spec fn cells(spans: Seq<Span>) -> Seq<Cell>
    decreases spans.len(),
{
    if spans.len() == 0 {
        Seq::empty()
    } else {
        cells(spans.drop_last()) + text_cells(spans.last().content@, spans.last().style)
    }
}

/// The cells of each of several lines.
pub open spec fn lines_cells(lines: Seq<Line>) -> Seq<Seq<Cell>> {
    Seq::new(lines.len(), |i: int| cells(lines[i]@))
}

pub proof fn lemma_cells_push(spans: Seq<Span>, sp: Span)
    ensures
        cells(spans.push(sp)) == cells(spans) + text_cells(sp.content@, sp.style),
{
    assert(spans.push(sp).drop_last() == spans);
}

pub proof fn lemma_cells_add(a: Seq<Span>, b: Seq<Span>)
    ensures
        cells(a + b) == cells(a) + cells(b),
    decreases b.len(),
{
    if b.len() == 0 {
        assert(a + b == a);
        assert(cells(a) + cells(b) == cells(a));
    } else {
        lemma_cells_add(a, b.drop_last());
        assert((a + b).drop_last() == a + b.drop_last());
        assert(cells(a + b) == cells(a) + cells(b));
    }
}

/// Cells with the range from `start` to `end` restyled.
pub open spec fn restyled(c: Seq<Cell>, start: int, end: int, how: Restyle) -> Seq<Cell> {
    Seq::new(
        c.len(),
        |i: int|
            if start <= i < end {
                (c[i].0, how.apply(c[i].1))
            } else {
                c[i]
            },
    )
}

/// Adds a span with `m` of its cells, after the first `a`, restyled.
fn push_restyled(out: &mut Vec<Span>, sp: &Span, a: usize, m: usize, how: Restyle)
    requires
        a + m <= sp.content@.len(),
    ensures
        cells(final(out)@) == cells(old(out)@) + restyled(
            text_cells(sp.content@, sp.style),
            a as int,
            a + m,
            how,
        ),
{
    let ghost had = out@;
    let ghost whole = text_cells(sp.content@, sp.style);
    if m == 0 {
        out.push(sp.copied());
        proof {
            lemma_cells_push(had, *sp);
        }
        assert(restyled(whole, a as int, a + m, how) == whole);
        return;
    }
    let cs = chars_of(&sp.content);
    let n: usize = cs.len();
    let b: usize = a + m;
    let ghost first = text_cells(sp.content@.subrange(0, a as int), sp.style);
    let ghost second = text_cells(sp.content@.subrange(a as int, b as int), how.apply(sp.style));
    let ghost third = text_cells(sp.content@.subrange(b as int, n as int), sp.style);
    if a > 0 {
        let piece = Span { content: slice_string(&cs, 0, a), style: sp.style };
        proof {
            lemma_cells_push(out@, piece);
        }
        out.push(piece);
    }
    assert(cells(out@) == cells(had) + first);
    let mid = Span { content: slice_string(&cs, a, b), style: how.apply(sp.style) };
    proof {
        lemma_cells_push(out@, mid);
    }
    out.push(mid);
    assert(cells(out@) == cells(had) + first + second);
    if b < n {
        let rest = Span { content: slice_string(&cs, b, n), style: sp.style };
        proof {
            lemma_cells_push(out@, rest);
        }
        out.push(rest);
    }
    assert(cells(out@) == cells(had) + first + second + third);
    assert(restyled(whole, a as int, a + m, how) == first + second + third);
    assert(cells(had) + first + second + third == cells(had) + (first + second + third));
}

proof fn lemma_restyled_add(c: Seq<Cell>, d: Seq<Cell>, start: int, end: int, how: Restyle, a: int, b: int)
    requires
        0 <= a <= b <= d.len(),
        forall|i: int| #![trigger d[i]] 0 <= i < d.len() ==> (a <= i < b <==> start <= c.len() + i < end),
    ensures
        restyled(c + d, start, end, how) == restyled(c, start, end, how) + restyled(d, a, b, how),
{
    assert(restyled(c + d, start, end, how) =~= restyled(c, start, end, how) + restyled(d, a, b, how));
}

/// Restyles `left` cells after the first `lead` of them.
fn restyle(spans: Vec<Span>, lead: usize, left: usize, how: Restyle) -> (r: Vec<Span>)
    ensures
        cells(r@) == restyled(cells(spans@), lead as int, lead + left, how),
{
    let mut out: Vec<Span> = Vec::new();
    let mut before: usize = lead;
    let mut within: usize = left;
    let ghost start = lead as int;
    let ghost end = lead + left;
    let ghost all = spans@;
    assert(all.take(0) == Seq::<Span>::empty());
    for i in 0..spans.len()
        invariant
            all == spans@,
            start == lead,
            end == lead + left,
            cells(out@) == restyled(cells(all.take(i as int)), start, end, how),
            ({
                let c = cells(all.take(i as int)).len();
                &&& before == (if c < start {
                    start - c
                } else {
                    0
                })
                &&& within == (if c <= start {
                    end - start
                } else if c < end {
                    end - c
                } else {
                    0
                })
            }),
    {
        let sp = &spans[i];
        let ghost was = cells(all.take(i as int));
        assert(all.take(i + 1).drop_last() == all.take(i as int));
        let n: usize = crate::text::width(&sp.content);
        let a: usize = if before < n {
            before
        } else {
            n
        };
        let m: usize = if within < n - a {
            within
        } else {
            n - a
        };
        let ghost more = text_cells(sp.content@, sp.style);
        assert(cells(all.take(i + 1)) == was + more);
        proof {
            lemma_restyled_add(was, more, start, end, how, a as int, a + m);
        }
        push_restyled(&mut out, sp, a, m, how);
        before = before - a;
        within = within - m;
    }
    assert(all.take(spans@.len() as int) == all);
    out
}

/// Restyles the characters from `start` to `end` of a line.
pub fn overlay_range(spans: Vec<Span>, start: usize, end: usize, how: Restyle) -> (r: Vec<Span>)
    ensures
        cells(r@) == restyled(cells(spans@), start as int, end as int, how),
{
    if start >= end {
        assert(restyled(cells(spans@), start as int, end as int, how) == cells(spans@));
        return spans;
    }
    restyle(spans, start, end - start, how)
}

/// The part of a row from `start`, `width` at most.
pub open spec fn window_of(c: Seq<Cell>, start: int, width: int) -> Seq<Cell> {
    if start >= c.len() {
        Seq::empty()
    } else if start + width >= c.len() {
        c.subrange(start, c.len() as int)
    } else {
        c.subrange(start, start + width)
    }
}

/// Crops a line to the `width` characters from `start`.
pub fn slice_range(spans: Vec<Span>, start: usize, width: usize) -> (r: Vec<Span>)
    ensures
        cells(r@) == window_of(cells(spans@), start as int, width as int),
{
    let mut out: Vec<Span> = Vec::new();
    let mut skip: usize = start;
    let mut room: usize = width;
    let ghost all = spans@;
    assert(all.take(0) == Seq::<Span>::empty());
    for i in 0..spans.len()
        invariant
            all == spans@,
            cells(out@) == window_of(cells(all.take(i as int)), start as int, width as int),
            ({
                let c = cells(all.take(i as int)).len();
                &&& skip == (if c < start {
                    start - c
                } else {
                    0
                })
                &&& room == (if c <= start {
                    width as int
                } else if c < start + width {
                    start + width - c
                } else {
                    0
                })
            }),
    {
        let sp = &spans[i];
        let ghost was = cells(all.take(i as int));
        let ghost now = cells(all.take(i + 1));
        let ghost had = out@;
        assert(all.take(i + 1).drop_last() == all.take(i as int));
        let cs = chars_of(&sp.content);
        let n: usize = cs.len();
        let a: usize = if skip < n {
            skip
        } else {
            n
        };
        let m: usize = if room < n - a {
            room
        } else {
            n - a
        };
        assert(now == was + text_cells(sp.content@, sp.style));
        if m > 0 {
            let piece = Span { content: slice_string(&cs, a, a + m), style: sp.style };
            proof {
                lemma_cells_push(had, piece);
            }
            out.push(piece);
            assert(piece.content@ == sp.content@.subrange(a as int, a + m));
            assert(cells(out@) == cells(had) + text_cells(sp.content@.subrange(a as int, a + m), sp.style));
        }
        assert(cells(out@) == window_of(now, start as int, width as int));
        skip = skip - a;
        room = room - m;
    }
    assert(all.take(spans@.len() as int) == all);
    out
}

/// Whether a row has more than `n` cells.
pub fn longer_than(spans: &[Span], n: usize) -> (r: bool)
    ensures
        r == (cells(spans@).len() > n),
{
    let mut left: usize = n;
    let ghost all = spans@;
    for i in 0..spans.len()
        invariant
            all == spans@,
            left + cells(all.take(i as int)).len() == n,
    {
        assert(all.take(i + 1).drop_last() == all.take(i as int));
        let w: usize = crate::text::width(&spans[i].content);
        assert(cells(all.take(i + 1)).len() == cells(all.take(i as int)).len() + w);
        if w > left {
            proof {
                lemma_cells_take(all, i + 1);
            }
            return true;
        }
        left = left - w;
    }
    assert(all.take(spans@.len() as int) == all);
    false
}

proof fn lemma_cells_take(spans: Seq<Span>, n: int)
    requires
        0 <= n <= spans.len(),
    ensures
        cells(spans.take(n)).len() <= cells(spans).len(),
{
    assert(spans == spans.take(n) + spans.skip(n));
    lemma_cells_add(spans.take(n), spans.skip(n));
}

/// A row with the cursor on cell `target`, or on a blank one behind it.
pub open spec fn with_cursor(c: Seq<Cell>, target: int) -> Seq<Cell> {
    if target >= c.len() {
        c.push((' ', Restyle::Reverse.apply(Style::plain())))
    } else {
        restyled(c, target, target + 1, Restyle::Reverse)
    }
}

/// Shows the cursor on the character at `target`; past the last one, on a blank
/// cell of its own.
pub fn overlay_cursor(spans: Vec<Span>, target: usize) -> (r: Vec<Span>)
    ensures
        cells(r@) == with_cursor(cells(spans@), target as int),
{
    if !longer_than(&spans, target) {
        let mut out = spans;
        let blank = Span { content: " ".to_owned(), style: Restyle::Reverse.apply(Style::plain()) };
        proof {
            reveal_strlit(" ");
            lemma_cells_push(out@, blank);
        }
        out.push(blank);
        assert(cells(out@) == with_cursor(cells(spans@), target as int));
        return out;
    }
    restyle(spans, target, 1, Restyle::Reverse)
}

/// Restyling changes no character and no length.
pub proof fn law_overlays_keep_the_text(c: Seq<Cell>, start: int, end: int, how: Restyle)
    ensures
        restyled(c, start, end, how).len() == c.len(),
        forall|i: int| 0 <= i < c.len() ==> (#[trigger] restyled(c, start, end, how)[i]).0 == c[i].0,
{
}

/// Cropping a cropped row is cropping once.
pub proof fn law_windows_compose(c: Seq<Cell>, a: int, m: int, b: int, n: int)
    requires
        0 <= a,
        0 <= b,
        0 <= n,
        b + n <= m,
    ensures
        window_of(window_of(c, a, m), b, n) == window_of(c, a + b, n),
{
    assert(window_of(window_of(c, a, m), b, n) =~= window_of(c, a + b, n));
}

} // verus!
