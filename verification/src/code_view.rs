//! The code pane: a file's new side with the hunk's removed lines shown where
//! they stood, and the excerpt of it that a popup shows.

use crate::cursor::Cursor;
use crate::model::{FileLines, Item, Sources};
use crate::paint::{
    cells, lemma_cells_add, lemma_cells_push, lines_cells, overlay_cursor, overlay_range, restyled, slice_range,
    text_cells, window_of, with_cursor, Cell, Line, Restyle, Span, Style,
};
use crate::search::Match;
use crate::text::{decimal, number, pad_left, padded_left, repeat, repeated, texts, width};
use crate::textmap::TextMap;
use crate::theme::{Color, Theme};
use vstd::prelude::*;

verus! {

/// A highlighted line: runs of text, each in one colour.
pub type LineSpans = Vec<(String, Color)>;

/// The highlighted lines of the files under review, by path.
pub type Highlights = TextMap<Vec<LineSpans>>;

/// The columns before the code: the sign bar, the line number and a mark.
pub const GUTTER_W: usize = 6;

/// The largest scroll offset that still shows something of `len` lines.
pub open spec fn last_offset(len: int) -> int {
    if len <= 0 {
        0
    } else if len - 1 <= u16::MAX {
        len - 1
    } else {
        u16::MAX as int
    }
}

pub fn last_line(len: usize) -> (r: u16)
    ensures
        r == last_offset(len as int),
{
    if len == 0 {
        0
    } else if len - 1 > 0xffff {
        0xffff
    } else {
        (len - 1) as u16
    }
}

/// What every row of the code pane is painted with.
pub struct RowPainter {
    pub theme: Theme,
    /// the pane's width, gutter and all
    pub width: usize,
    pub hscroll: usize,
}

/// One line of the new side, with what the painter needs to know about it.
pub struct SourceRow<'a> {
    /// its place in the new side, from 0
    pub i: usize,
    pub line: &'a str,
    /// inside the hunk's new range
    pub added: bool,
    /// a row that uses what the hunk defines
    pub use_row: bool,
    pub hl: Option<&'a LineSpans>,
    /// the columns that differ from the paired old line
    pub refined: Option<&'a Vec<(usize, usize)>>,
    pub matches: &'a [Match],
    pub cur_match: Option<usize>,
    pub cursor: Option<Cursor>,
}

/// The cells of a highlighted line.
pub open spec fn segment_cells(segs: Seq<(String, Color)>, bg: Color) -> Seq<Cell>
    decreases segs.len(),
{
    if segs.len() == 0 {
        Seq::empty()
    } else {
        segment_cells(segs.drop_last(), bg) + text_cells(
            segs.last().0@,
            Style::on(segs.last().1, bg),
        )
    }
}

impl RowPainter {
    /// The columns left for code.
    pub open spec fn room(self) -> int {
        if self.width >= GUTTER_W {
            self.width - GUTTER_W
        } else {
            0
        }
    }

    /// What machine numbers ask of a painter.
    pub open spec fn fits(self) -> bool {
        self.hscroll + self.width <= usize::MAX - GUTTER_W
    }

    /// A row with the part of the columns from `from` to `to` that is in the
    /// window on another background.
    pub open spec fn tinted(self, c: Seq<Cell>, from: int, to: int, bg: Color) -> Seq<Cell> {
        if to <= self.hscroll || from >= self.hscroll + self.room() {
            c
        } else {
            let first = if from > self.hscroll {
                from - self.hscroll
            } else {
                0
            };
            let last = if to - self.hscroll < self.room() {
                to - self.hscroll
            } else {
                self.room()
            };
            restyled(c, GUTTER_W + first, GUTTER_W + last, Restyle::Background(bg))
        }
    }

    /// A row with the columns that differ from its counterpart tinted strongly.
    pub open spec fn emphasized(self, c: Seq<Cell>, refined: Option<Seq<(usize, usize)>>, bg: Color) -> Seq<Cell>
        decreases (match refined {
            Some(r) => r.len(),
            None => 0,
        }),
    {
        match refined {
            None => c,
            Some(r) => if r.len() == 0 {
                c
            } else {
                self.tinted(
                    self.emphasized(c, Some(r.drop_last()), bg),
                    r.last().0 as int,
                    r.last().1 as int,
                    bg,
                )
            },
        }
    }

    /// A row filled up to the pane's width, given how many cells of it count.
    pub open spec fn padded(self, c: Seq<Cell>, used: int, bg: Color) -> Seq<Cell> {
        if self.width > used {
            c + text_cells(repeated(' ', self.width - used), Style::filled(bg))
        } else {
            c
        }
    }

    /// How many characters of a line of `len` are in the window.
    pub open spec fn shown(self, len: int) -> int {
        if len <= self.hscroll {
            0
        } else if len - self.hscroll < self.room() {
            len - self.hscroll
        } else {
            self.room()
        }
    }

    pub open spec fn clip(self, content: Seq<Cell>) -> Seq<Cell> {
        window_of(content, self.hscroll as int, self.room())
    }

    /// A line of the old side that the hunk removed.
    pub open spec fn removed_cells(self, text: Seq<char>, refined: Option<Seq<(usize, usize)>>) -> Seq<Cell> {
        let t = self.theme;
        let body = text_cells("▎"@, Style::of(t.del_fg)) + text_cells("     "@, Style::on(t.dim, t.del_bg))
            + self.clip(text_cells(text, Style::on(t.del_fg, t.del_bg)));
        self.emphasized(
            self.padded(body, GUTTER_W + self.shown(text.len() as int), t.del_bg),
            refined,
            t.del_strong_bg,
        )
    }

    /// The gutter before a line of the new side.
    pub open spec fn gutter(self, ln: int, added: bool, use_row: bool, bg: Color) -> Seq<Cell> {
        let t = self.theme;
        text_cells(
            if added {
                "▎"@
            } else {
                " "@
            },
            Style::of(t.add_fg),
        ) + text_cells(padded_left(decimal(ln), ' ', 4), Style::on(t.dim, bg)) + (if use_row {
            text_cells("▸"@, Style::on(t.accent, bg))
        } else {
            text_cells(" "@, Style::on(t.dim, bg))
        })
    }

    /// The code of a line: highlighted, or plain where it is not.
    pub open spec fn code_cells(self, line: Seq<char>, hl: Option<Seq<(String, Color)>>, bg: Color) -> Seq<Cell> {
        match hl {
            Some(segs) => if segs.len() > 0 {
                segment_cells(segs, bg)
            } else {
                text_cells(line, Style::on(self.theme.fg, bg))
            },
            None => text_cells(line, Style::on(self.theme.fg, bg)),
        }
    }

    /// A row with the matches on line `i` tinted, the current one its own way.
    pub open spec fn marked(self, c: Seq<Cell>, i: int, matches: Seq<Match>, cur: Option<usize>, n: int) -> Seq<Cell>
        decreases n,
    {
        if n <= 0 {
            c
        } else {
            let before = self.marked(c, i, matches, cur, n - 1);
            let m = matches[n - 1];
            if m.0 != i {
                before
            } else {
                let bg = if cur == Some((n - 1) as usize) {
                    self.theme.match_cur_bg
                } else {
                    self.theme.match_bg
                };
                self.tinted(before, m.1 as int, m.2 as int, bg)
            }
        }
    }

    /// A line of the new side.
    pub open spec fn source_cells(self, r: SourceText) -> Seq<Cell> {
        let bg = if r.added {
            self.theme.add_bg
        } else {
            Color::Reset
        };
        let body = self.gutter(r.i + 1, r.added, r.use_row, bg) + self.clip(self.code_cells(r.line, r.hl, bg));
        let full = if r.added {
            self.emphasized(
                self.padded(body, GUTTER_W + self.shown(r.line.len() as int), bg),
                r.refined,
                self.theme.add_strong_bg,
            )
        } else {
            body
        };
        let found = self.marked(full, r.i, r.matches, r.cur_match, r.matches.len() as int);
        match r.cursor {
            Some(c) => if c.line == r.i && self.hscroll <= c.col < self.hscroll + self.room() {
                with_cursor(found, GUTTER_W + (c.col - self.hscroll))
            } else {
                found
            },
            None => found,
        }
    }
}

/// One line of the new side, as text.
pub ghost struct SourceText {
    pub i: int,
    pub line: Seq<char>,
    pub added: bool,
    pub use_row: bool,
    pub hl: Option<Seq<(String, Color)>>,
    pub refined: Option<Seq<(usize, usize)>>,
    pub matches: Seq<Match>,
    pub cur_match: Option<usize>,
    pub cursor: Option<Cursor>,
}

pub open spec fn spans_view(o: Option<&LineSpans>) -> Option<Seq<(String, Color)>> {
    match o {
        Some(v) => Some(v@),
        None => None,
    }
}

pub open spec fn ranges_view(o: Option<&Vec<(usize, usize)>>) -> Option<Seq<(usize, usize)>> {
    match o {
        Some(v) => Some(v@),
        None => None,
    }
}

impl<'a> SourceRow<'a> {
    pub open spec fn text(self) -> SourceText {
        SourceText {
            i: self.i as int,
            line: self.line@,
            added: self.added,
            use_row: self.use_row,
            hl: spans_view(self.hl),
            refined: ranges_view(self.refined),
            matches: self.matches@,
            cur_match: self.cur_match,
            cursor: self.cursor,
        }
    }
}

fn one_span(text: &str, style: Style) -> (r: Vec<Span>)
    ensures
        cells(r@) == text_cells(text@, style),
{
    let mut out: Vec<Span> = Vec::new();
    let sp = Span { content: text.to_owned(), style };
    proof {
        lemma_cells_push(out@, sp);
    }
    out.push(sp);
    assert(cells(out@) == text_cells(text@, style));
    out
}

fn push_span(spans: &mut Vec<Span>, text: String, style: Style)
    ensures
        cells(final(spans)@) == cells(old(spans)@) + text_cells(text@, style),
{
    let sp = Span { content: text, style };
    proof {
        lemma_cells_push(spans@, sp);
    }
    spans.push(sp);
}

impl RowPainter {
    fn avail(&self) -> (r: usize)
        ensures
            r == self.room(),
    {
        if self.width >= GUTTER_W {
            self.width - GUTTER_W
        } else {
            0
        }
    }

    fn tint(&self, spans: Vec<Span>, from: usize, to: usize, bg: Color) -> (r: Vec<Span>)
        requires
            self.fits(),
        ensures
            cells(r@) == self.tinted(cells(spans@), from as int, to as int, bg),
    {
        let avail: usize = self.avail();
        if to <= self.hscroll || from >= self.hscroll + avail {
            return spans;
        }
        let first: usize = if from > self.hscroll {
            from - self.hscroll
        } else {
            0
        };
        let last: usize = if to - self.hscroll < avail {
            to - self.hscroll
        } else {
            avail
        };
        overlay_range(spans, GUTTER_W + first, GUTTER_W + last, Restyle::Background(bg))
    }

    fn emphasize(&self, spans: Vec<Span>, refined: Option<&Vec<(usize, usize)>>, bg: Color) -> (r: Vec<Span>)
        requires
            self.fits(),
        ensures
            cells(r@) == self.emphasized(cells(spans@), ranges_view(refined), bg),
    {
        let ghost c = cells(spans@);
        let mut out = spans;
        if let Some(v) = refined {
            assert(v@.take(0) == Seq::<(usize, usize)>::empty());
            for i in 0..v.len()
                invariant
                    self.fits(),
                    cells(out@) == self.emphasized(c, Some(v@.take(i as int)), bg),
            {
                assert(v@.take(i + 1).drop_last() == v@.take(i as int));
                out = self.tint(out, v[i].0, v[i].1, bg);
            }
            assert(v@.take(v@.len() as int) == v@);
        }
        out
    }

    fn pad(&self, spans: &mut Vec<Span>, used: usize, bg: Color)
        ensures
            cells(final(spans)@) == self.padded(cells(old(spans)@), used as int, bg),
    {
        if self.width > used {
            push_span(spans, repeat(' ', self.width - used), Style::filled(bg));
        }
    }

    fn shown_of(&self, len: usize) -> (r: usize)
        ensures
            r == self.shown(len as int),
    {
        let avail: usize = self.avail();
        if len <= self.hscroll {
            0
        } else if len - self.hscroll < avail {
            len - self.hscroll
        } else {
            avail
        }
    }

    /// The part of a line that is in the window.
    fn window(&self, content: Vec<Span>) -> (r: Vec<Span>)
        ensures
            cells(r@) == self.clip(cells(content@)),
    {
        slice_range(content, self.hscroll, self.avail())
    }

    /// Paints a line that the hunk removed.
    pub fn removed(&self, text: &str, refined: Option<&Vec<(usize, usize)>>) -> (r: Line)
        requires
            self.fits(),
        ensures
            cells(r@) == self.removed_cells(text@, ranges_view(refined)),
    {
        let t = &self.theme;
        let mut visible = self.window(one_span(text, Style::on(t.del_fg, t.del_bg)));
        let mut spans = one_span("▎", Style::of(t.del_fg));
        push_span(&mut spans, "     ".to_owned(), Style::on(t.dim, t.del_bg));
        proof {
            lemma_cells_add(spans@, visible@);
        }
        spans.append(&mut visible);
        self.pad(&mut spans, GUTTER_W + self.shown_of(width(text)), t.del_bg);
        self.emphasize(spans, refined, t.del_strong_bg)
    }

    fn code(&self, line: &str, hl: Option<&LineSpans>, bg: Color) -> (r: Vec<Span>)
        ensures
            cells(r@) == self.code_cells(line@, spans_view(hl), bg),
    {
        if let Some(segs) = hl {
            if segs.len() > 0 {
                let mut out: Vec<Span> = Vec::new();
                assert(segs@.take(0) == Seq::<(String, Color)>::empty());
                for i in 0..segs.len()
                    invariant
                        cells(out@) == segment_cells(segs@.take(i as int), bg),
                {
                    assert(segs@.take(i + 1).drop_last() == segs@.take(i as int));
                    push_span(&mut out, segs[i].0.clone(), Style::on(segs[i].1, bg));
                }
                assert(segs@.take(segs@.len() as int) == segs@);
                return out;
            }
        }
        one_span(line, Style::on(self.theme.fg, bg))
    }

    /// Paints a line of the new side.
    pub fn source(&self, r: &SourceRow) -> (out: Line)
        requires
            self.fits(),
            r.i < usize::MAX,
        ensures
            cells(out@) == self.source_cells(r.text()),
    {
        let ghost rt = r.text();
        let t = &self.theme;
        let bg = if r.added {
            t.add_bg
        } else {
            Color::Reset
        };
        let mut spans = one_span(
            if r.added {
                "▎"
            } else {
                " "
            },
            Style::of(t.add_fg),
        );
        push_span(&mut spans, pad_left(&number(r.i + 1), ' ', 4), Style::on(t.dim, bg));
        if r.use_row {
            push_span(&mut spans, "▸".to_owned(), Style::on(t.accent, bg));
        } else {
            push_span(&mut spans, " ".to_owned(), Style::on(t.dim, bg));
        }
        assert(cells(spans@) == self.gutter(r.i + 1, r.added, r.use_row, bg));
        let mut visible = self.window(self.code(r.line, r.hl, bg));
        proof {
            lemma_cells_add(spans@, visible@);
        }
        spans.append(&mut visible);
        if r.added {
            self.pad(&mut spans, GUTTER_W + self.shown_of(width(r.line)), bg);
            spans = self.emphasize(spans, r.refined, t.add_strong_bg);
        }
        let ghost full = cells(spans@);
        for k in 0..r.matches.len()
            invariant
                self.fits(),
                *t == self.theme,
                cells(spans@) == self.marked(full, r.i as int, r.matches@, r.cur_match, k as int),
        {
            let m = r.matches[k];
            if m.0 == r.i {
                let current = match r.cur_match {
                    Some(c) => c == k,
                    None => false,
                };
                let mbg = if current {
                    t.match_cur_bg
                } else {
                    t.match_bg
                };
                spans = self.tint(spans, m.1, m.2, mbg);
            }
        }
        if let Some(c) = r.cursor {
            if c.line == r.i && c.col >= self.hscroll && c.col < self.hscroll + self.avail() {
                spans = overlay_cursor(spans, GUTTER_W + (c.col - self.hscroll));
            }
        }
        spans
    }
}

/// The lines of the old side that a hunk removed.
pub open spec fn removed_lines(it: Item, ol: Seq<Seq<char>>) -> Seq<Seq<char>> {
    let o0 = it.old_range[0];
    let o1 = it.old_range[1];
    if 1 <= o0 <= o1 <= ol.len() {
        ol.subrange(o0 - 1, o1 as int)
    } else {
        Seq::empty()
    }
}

/// What a row of the code view is.
pub ghost enum CodeRow {
    /// a removed line, by its place among those that the hunk removed
    Removed(int),
    /// a line of the new side, by its place
    Source(int),
}

/// How many lines of the new side come before the removed ones.
pub open spec fn removal_place(n0: int, lines: int) -> int {
    if n0 - 1 < lines {
        n0 - 1
    } else {
        lines
    }
}

/// How many removed lines the view shows: none where the change stands before
/// the first line.
pub open spec fn shown_removed(n0: int, removed: int) -> int {
    if n0 >= 1 {
        removed
    } else {
        0
    }
}

/// The row at `k`: the new side in order, the removed lines where the change
/// stands, or behind the last line.
pub open spec fn row_at(n0: int, lines: int, removed: int, k: int) -> CodeRow {
    if n0 < 1 {
        CodeRow::Source(k)
    } else {
        let at = removal_place(n0, lines);
        if k < at {
            CodeRow::Source(k)
        } else if k < at + removed {
            CodeRow::Removed(k - at)
        } else {
            CodeRow::Source(k - removed)
        }
    }
}

/// What the engine refined of one line of a side.
pub open spec fn refined_at(side: Seq<Option<Vec<(usize, usize)>>>, k: int) -> Option<Seq<(usize, usize)>> {
    if 0 <= k < side.len() {
        match side[k] {
            Some(v) => Some(v@),
            None => None,
        }
    } else {
        None
    }
}

/// What the code view shows besides the file.
pub ghost struct Overlays {
    pub hl: Option<Seq<LineSpans>>,
    pub matches: Seq<Match>,
    pub cur_match: Option<usize>,
    pub cursor: Option<Cursor>,
}

pub open spec fn highlight_at(hl: Option<Seq<LineSpans>>, i: int) -> Option<Seq<(String, Color)>> {
    match hl {
        Some(h) => if 0 <= i < h.len() {
            Some(h[i]@)
        } else {
            None
        },
        None => None,
    }
}

/// A line of the new side of an item's file.
pub open spec fn source_text(it: Item, nl: Seq<Seq<char>>, o: Overlays, i: int) -> SourceText {
    let n0 = it.new_range[0];
    let n1 = it.new_range[1];
    let added = n0 <= i + 1 <= n1;
    SourceText {
        i,
        line: nl[i],
        added,
        use_row: exists|u: int| 0 <= u < it.uses_at@.len() && #[trigger] it.uses_at@[u] == i + 1,
        hl: highlight_at(o.hl, i),
        refined: if added {
            refined_at(it.refined.added@, i + 1 - n0)
        } else {
            None
        },
        matches: o.matches,
        cur_match: o.cur_match,
        cursor: o.cursor,
    }
}

/// The cells of row `k` of an item's code view.
pub open spec fn row_cells(p: RowPainter, it: Item, file: FileLines, o: Overlays, k: int) -> Seq<Cell> {
    let nl = texts(file.1@);
    let removed = removed_lines(it, texts(file.0@));
    match row_at(it.new_range[0] as int, nl.len() as int, removed.len() as int, k) {
        CodeRow::Removed(j) => p.removed_cells(removed[j], refined_at(it.refined.removed@, j)),
        CodeRow::Source(i) => p.source_cells(source_text(it, nl, o, i)),
    }
}

/// How many rows an item's code view has.
pub open spec fn row_total(it: Item, file: FileLines) -> int {
    file.1@.len() + shown_removed(
        it.new_range[0] as int,
        removed_lines(it, texts(file.0@)).len() as int,
    )
}

/// All the rows of an item's code view.
pub open spec fn all_rows(p: RowPainter, it: Item, file: FileLines, o: Overlays) -> Seq<Seq<Cell>> {
    Seq::new(row_total(it, file) as nat, |k: int| row_cells(p, it, file, o, k))
}

/// The first row shown when the view is scrolled to `start`.
pub open spec fn first_row(total: int, start: int) -> int {
    if start <= last_offset(total) {
        start
    } else {
        last_offset(total)
    }
}

/// The row behind the last one shown.
pub open spec fn end_row(total: int, first: int, rows: int) -> int {
    if first + rows < total {
        first + rows
    } else {
        total
    }
}

/// Whether some line of the view goes past the right edge of the window.
pub open spec fn overflows(p: RowPainter, it: Item, file: FileLines) -> bool {
    let edge = p.hscroll + p.room();
    ||| exists|i: int| 0 <= i < file.1@.len() && (#[trigger] texts(file.1@)[i]).len() > edge
    ||| it.new_range[0] >= 1 && exists|j: int|
        0 <= j < removed_lines(it, texts(file.0@)).len() && (#[trigger] removed_lines(
            it,
            texts(file.0@),
        )[j]).len() > edge
}

pub open spec fn highlights_of(highlights: Map<Seq<char>, Vec<LineSpans>>, path: Seq<char>) -> Option<
    Seq<LineSpans>,
> {
    if highlights.dom().contains(path) {
        Some(highlights[path]@)
    } else {
        None
    }
}

fn any_longer(lines: &[String], from: usize, to: usize, edge: usize) -> (r: bool)
    requires
        from <= to <= lines@.len(),
    ensures
        r == exists|i: int| from <= i < to && (#[trigger] texts(lines@)[i]).len() > edge,
{
    for i in from..to
        invariant
            to <= lines@.len(),
            forall|k: int| from <= k < i ==> (#[trigger] texts(lines@)[k]).len() <= edge,
    {
        if width(&lines[i]) > edge {
            assert(texts(lines@)[i as int].len() > edge);
            return true;
        }
    }
    false
}

fn is_use_row(rows: &[usize], ln: usize) -> (r: bool)
    ensures
        r == exists|u: int| 0 <= u < rows@.len() && #[trigger] rows@[u] == ln,
{
    for u in 0..rows.len()
        invariant
            forall|k: int| 0 <= k < u ==> #[trigger] rows@[k] != ln,
    {
        if rows[u] == ln {
            return true;
        }
    }
    false
}

fn refined_of(side: &Vec<Option<Vec<(usize, usize)>>>, k: usize) -> (r: Option<&Vec<(usize, usize)>>)
    ensures
        ranges_view(r) == refined_at(side@, k as int),
{
    if k < side.len() {
        match &side[k] {
            Some(v) => Some(v),
            None => None,
        }
    } else {
        None
    }
}

fn highlight_of(hl: Option<&Vec<LineSpans>>, i: usize) -> (r: Option<&LineSpans>)
    ensures
        spans_view(r) == highlight_at(
            match hl {
                Some(h) => Some(h@),
                None => None,
            },
            i as int,
        ),
{
    match hl {
        Some(h) => {
            if i < h.len() {
                Some(&h[i])
            } else {
                None
            }
        },
        None => None,
    }
}

/// A window onto an item's code view: its rows from `start`, `rows` at most;
/// whether some line goes past the right edge; and how many rows there are in
/// all.
pub open spec fn window_shown(p: RowPainter, it: Item, file: FileLines, o: Overlays, start: int, rows: int) -> (
    Seq<Seq<Cell>>,
    bool,
    int,
) {
    let total = row_total(it, file);
    let first = first_row(total, start);
    (all_rows(p, it, file, o).subrange(first, end_row(total, first, rows)), overflows(p, it, file), total)
}

/// The rows of an item's code pane from `start`, `rows` at most; whether some
/// line goes past the right edge; and how many rows there are in all.
pub fn code_view(
    it: &Item,
    sources: &Sources,
    highlights: &Highlights,
    wide: usize,
    hscroll: usize,
    cursor: Option<Cursor>,
    matches: &[Match],
    cur_match: Option<usize>,
    theme: &Theme,
    start: usize,
    rows: usize,
) -> (r: (Vec<Line>, bool, usize))
    requires
        hscroll + wide <= usize::MAX - GUTTER_W,
        sources@.dom().contains(it.path@) ==> row_total(*it, sources@[it.path@]) <= usize::MAX,
    ensures
        !sources@.dom().contains(it.path@) ==> r.0@.len() == 0 && !r.1 && r.2 == 0,
        sources@.dom().contains(it.path@) ==> ({
            let file = sources@[it.path@];
            let p = RowPainter { theme: *theme, width: wide, hscroll };
            let o = Overlays {
                hl: highlights_of(highlights@, it.path@),
                matches: matches@,
                cur_match,
                cursor,
            };
            (lines_cells(r.0@), r.1, r.2 as int) == window_shown(p, *it, file, o, start as int, rows as int)
        }),
{
    let file = match sources.get(&it.path) {
        Some(f) => f,
        None => {
            return (Vec::new(), false, 0);
        },
    };
    let hl = highlights.get(&it.path);
    let ol = &file.0;
    let nl = &file.1;
    let o0 = it.old_range[0];
    let o1 = it.old_range[1];
    let n0 = it.new_range[0];
    let n1 = it.new_range[1];
    let p = RowPainter { theme: *theme, width: wide, hscroll };
    let ghost o = Overlays {
        hl: highlights_of(highlights@, it.path@),
        matches: matches@,
        cur_match,
        cursor,
    };
    let ghost removed = removed_lines(*it, texts(ol@));
    let (from, to): (usize, usize) = if 1 <= o0 && o0 <= o1 && o1 <= ol.len() {
        (o0 - 1, o1)
    } else {
        (0, 0)
    };
    assert(removed == texts(ol@).subrange(from as int, to as int));
    let gone: usize = if n0 >= 1 {
        to - from
    } else {
        0
    };
    let n: usize = nl.len();
    let total: usize = n + gone;
    let last = last_line(total) as usize;
    let first: usize = if start <= last {
        start
    } else {
        last
    };
    let end: usize = if rows < total - first {
        first + rows
    } else {
        total
    };
    let edge: usize = hscroll + p.avail();
    let removed_over = any_longer(ol, from, to, edge);
    let right_clip = any_longer(nl, 0, n, edge) || (n0 >= 1 && removed_over);
    proof {
        assert(removed_over == exists|j: int| 0 <= j < removed.len() && (#[trigger] removed[j]).len() > edge) by {
            if removed_over {
                let i = choose|i: int| from <= i < to && (#[trigger] texts(ol@)[i]).len() > edge;
                assert(removed[i - from].len() > edge);
            }
            if exists|j: int| 0 <= j < removed.len() && (#[trigger] removed[j]).len() > edge {
                let j = choose|j: int| 0 <= j < removed.len() && (#[trigger] removed[j]).len() > edge;
                assert(texts(ol@)[from + j].len() > edge);
            }
        }
        assert(right_clip == overflows(p, *it, *file));
    }
    let at: usize = if n0 >= 1 && n0 - 1 < n {
        n0 - 1
    } else {
        n
    };
    let mut out: Vec<Line> = Vec::new();
    let ghost whole = all_rows(p, *it, *file, o);
    assert(lines_cells(out@) == whole.subrange(first as int, first as int));
    for k in first..end
        invariant
            first <= end <= total,
            total == n + gone,
            n == nl@.len(),
            *nl == file.1,
            *ol == file.0,
            n0 == it.new_range[0],
            n1 == it.new_range[1],
            removed == removed_lines(*it, texts(ol@)),
            removed == texts(ol@).subrange(from as int, to as int),
            from <= to <= ol@.len(),
            gone == (if n0 >= 1 {
                to - from
            } else {
                0
            }),
            at == (if n0 >= 1 && n0 - 1 < n {
                n0 - 1
            } else {
                n as int
            }),
            total == row_total(*it, *file),
            p.fits(),
            o == (Overlays {
                hl: match hl {
                    Some(h) => Some(h@),
                    None => None,
                },
                matches: matches@,
                cur_match,
                cursor,
            }),
            whole == all_rows(p, *it, *file, o),
            lines_cells(out@) == whole.subrange(first as int, k as int),
    {
        let ghost had = lines_cells(out@);
        let line: Line = if k >= at && k < at + gone {
            let j: usize = k - at;
            let refined = refined_of(&it.refined.removed, j);
            assert(removed[j as int] == ol@[from + j]@);
            p.removed(&ol[from + j], refined)
        } else {
            let i: usize = if k < at {
                k
            } else {
                k - gone
            };
            let added = n0 <= i + 1 && i + 1 <= n1;
            let refined = if added {
                refined_of(&it.refined.added, i + 1 - n0)
            } else {
                None
            };
            let row = SourceRow {
                i,
                line: &nl[i],
                added,
                use_row: is_use_row(&it.uses_at, i + 1),
                hl: highlight_of(hl, i),
                refined,
                matches,
                cur_match,
                cursor,
            };
            assert(row.text() == source_text(*it, texts(nl@), o, i as int));
            p.source(&row)
        };
        assert(cells(line@) == row_cells(p, *it, *file, o, k as int));
        out.push(line);
        assert(lines_cells(out@) == had.push(whole[k as int]));
        assert(whole.subrange(first as int, k + 1) == whole.subrange(first as int, k as int).push(whole[k as int]));
    }
    (out, right_clip, total)
}

/// A window onto the code view is the same slice of the whole view, with the same
/// width and length: the whole view has all the rows, and as many as it says.
pub proof fn law_a_window_is_a_slice_of_the_whole(
    p: RowPainter,
    it: Item,
    file: FileLines,
    o: Overlays,
    start: int,
    rows: int,
)
    requires
        0 <= start <= last_offset(row_total(it, file)),
        0 <= rows,
        row_total(it, file) <= usize::MAX,
    ensures
        ({
            let full = window_shown(p, it, file, o, 0, usize::MAX as int);
            let win = window_shown(p, it, file, o, start, rows);
            &&& full.0.len() == full.2
            &&& win.0 == full.0.subrange(
                start,
                if start + rows < full.2 {
                    start + rows
                } else {
                    full.2
                },
            )
            &&& win.1 == full.1
            &&& win.2 == full.2
        }),
{
    let all = all_rows(p, it, file, o);
    let full = window_shown(p, it, file, o, 0, usize::MAX as int);
    let total = row_total(it, file);
    if total > 0 {
        assert(full.0 =~= all);
    } else {
        assert(all.len() == 0);
        assert(full.0 =~= all);
    }
}

/// Every line of the new side is shown exactly once, in order, and every shown
/// removed line exactly once, in order.
pub proof fn law_every_line_has_one_row(n0: int, lines: int, removed: int, i: int)
    requires
        0 <= n0,
        0 <= i < lines,
        0 <= removed,
    ensures
        exists|k: int|
            0 <= k < lines + shown_removed(n0, removed) && #[trigger] row_at(n0, lines, removed, k)
                == CodeRow::Source(i),
        forall|k: int, l: int|
            0 <= k < l < lines + shown_removed(n0, removed) ==> #[trigger] row_at(n0, lines, removed, k)
                != #[trigger] row_at(n0, lines, removed, l),
{
    let at = removal_place(n0, lines);
    if n0 < 1 || i < at {
        assert(row_at(n0, lines, removed, i) == CodeRow::Source(i));
    } else {
        assert(row_at(n0, lines, removed, i + removed) == CodeRow::Source(i));
    }
}

/// A numbered line of an excerpt.
pub open spec fn excerpt_cells(line: Seq<char>, hl: Option<Seq<(String, Color)>>, ln: int, theme: Theme) -> Seq<Cell> {
    text_cells(padded_left(decimal(ln), ' ', 5) + " "@, Style::of(theme.dim)) + (match hl {
        Some(segs) => if segs.len() > 0 {
            plain_segments(segs)
        } else {
            text_cells(line, Style::plain())
        },
        None => text_cells(line, Style::plain()),
    })
}

pub open spec fn plain_segments(segs: Seq<(String, Color)>) -> Seq<Cell>
    decreases segs.len(),
{
    if segs.len() == 0 {
        Seq::empty()
    } else {
        plain_segments(segs.drop_last()) + text_cells(segs.last().0@, Style::of(segs.last().1))
    }
}

/// The lines `n0` to `n1` that a file has, numbered.
pub open spec fn excerpt_rows(
    lines: Seq<Seq<char>>,
    hl: Option<Seq<LineSpans>>,
    n0: int,
    n1: int,
    theme: Theme,
) -> Seq<Seq<Cell>> {
    let last = if n1 < lines.len() {
        n1
    } else {
        lines.len() as int
    };
    Seq::new(
        if last >= n0 {
            (last - n0 + 1) as nat
        } else {
            0
        },
        |k: int| excerpt_cells(lines[n0 + k - 1], highlight_at(hl, n0 + k - 1), n0 + k, theme),
    )
}

/// The lines from `n0` to `n1`, with their numbers, as a popup shows them.
pub fn excerpt(lines: &[String], hl: Option<&Vec<LineSpans>>, n0: usize, n1: usize, theme: &Theme) -> (r: Vec<Line>)
    requires
        n0 >= 1,
    ensures
        lines_cells(r@) == excerpt_rows(
            texts(lines@),
            match hl {
                Some(h) => Some(h@),
                None => None,
            },
            n0 as int,
            n1 as int,
            *theme,
        ),
{
    let ghost hv = match hl {
        Some(h) => Some(h@),
        None => None,
    };
    let ghost all = texts(lines@);
    let last: usize = if n1 < lines.len() {
        n1
    } else {
        lines.len()
    };
    let mut out: Vec<Line> = Vec::new();
    let ghost whole = excerpt_rows(all, hv, n0 as int, n1 as int, *theme);
    let stop: usize = if last >= n0 {
        last
    } else {
        n0 - 1
    };
    assert(lines_cells(out@) == whole.take(0));
    let mut ln: usize = n0 - 1;
    while ln < stop
        invariant
            n0 >= 1,
            n0 - 1 <= ln <= stop,
            all == texts(lines@),
            hv == (match hl {
                Some(h) => Some(h@),
                None => None,
            }),
            last <= lines@.len(),
            stop == (if last >= n0 {
                last as int
            } else {
                n0 - 1
            }),
            last == (if n1 < lines@.len() {
                n1 as int
            } else {
                lines@.len() as int
            }),
            whole == excerpt_rows(all, hv, n0 as int, n1 as int, *theme),
            lines_cells(out@) == whole.take(ln - (n0 - 1)),
        decreases stop - ln,
    {
        let ghost had = lines_cells(out@);
        let mut spans = one_span(
            &pad_left(&number(ln + 1), ' ', 5).concat(" "),
            Style::of(theme.dim),
        );
        let ghost head = cells(spans@);
        let segs = highlight_of(hl, ln);
        let colored = match segs {
            Some(s) => s.len() > 0,
            None => false,
        };
        if colored {
            if let Some(s) = segs {
                assert(s@.take(0) == Seq::<(String, Color)>::empty());
                assert(cells(spans@) == head + plain_segments(s@.take(0)));
                for i in 0..s.len()
                    invariant
                        cells(spans@) == head + plain_segments(s@.take(i as int)),
                {
                    assert(s@.take(i + 1).drop_last() == s@.take(i as int));
                    push_span(&mut spans, s[i].0.clone(), Style::of(s[i].1));
                    assert(cells(spans@) == head + plain_segments(s@.take(i + 1)));
                }
                assert(s@.take(s@.len() as int) == s@);
            }
        } else {
            push_span(&mut spans, lines[ln].clone(), Style::plain());
        }
        let ghost k = ln - (n0 - 1);
        assert(cells(spans@) == whole[k]);
        out.push(spans);
        assert(lines_cells(out@) == had.push(whole[k]));
        assert(whole.take(k + 1) == whole.take(k).push(whole[k]));
        ln = ln + 1;
    }
    assert(whole.take(whole.len() as int) == whole);
    out
}

} // verus!
