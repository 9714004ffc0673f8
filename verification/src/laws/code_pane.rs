//! The code of a hunk: which rows are painted as added, which as removed, and
//! which as what was there anyway.

use crate::code_view::{
    all_rows, excerpt_rows, overflows, removed_lines, row_total, source_text, window_shown, GUTTER_W, Overlays,
    RowPainter,
};
use crate::model::{FileLines, Item};
use crate::paint::{text_cells, Cell, Style};
use crate::search::Match;
use crate::text::{decimal, padded_left, texts};
use crate::theme::{Color, Theme};
use vstd::prelude::*;

verus! {

/// How many lines of the old side a hunk removed: those of its old range, where
/// the file has them.
pub open spec fn lines_removed(it: Item, file: FileLines) -> int {
    if 1 <= it.old_range[0] <= it.old_range[1] <= file.0@.len() {
        it.old_range[1] - it.old_range[0] + 1
    } else {
        0
    }
}

/// The row of line `ln` of the new side, counted from 1: the lines of a hunk and
/// those behind it stand below the removed ones.
pub open spec fn row_of_line(it: Item, file: FileLines, ln: int) -> int {
    if 1 <= it.new_range[0] <= ln {
        ln - 1 + lines_removed(it, file)
    } else {
        ln - 1
    }
}

/// Whether line `ln` of the new side is one of a hunk's.
pub open spec fn in_hunk(it: Item, ln: int) -> bool {
    it.new_range[0] <= ln && ln <= it.new_range[1]
}

proof fn lemma_tinted_front(p: RowPainter, c: Seq<Cell>, from: int, to: int, bg: Color, x: int)
    requires
        0 <= x < c.len(),
        x < 6,
    ensures
        p.tinted(c, from, to, bg).len() == c.len(),
        p.tinted(c, from, to, bg)[x] == c[x],
{
}

proof fn lemma_emphasized_front(p: RowPainter, c: Seq<Cell>, r: Option<Seq<(usize, usize)>>, bg: Color, x: int)
    requires
        0 <= x < c.len(),
        x < 6,
    ensures
        p.emphasized(c, r, bg).len() == c.len(),
        p.emphasized(c, r, bg)[x] == c[x],
    decreases (match r {
        Some(s) => s.len(),
        None => 0,
    }),
{
    if let Some(s) = r {
        if s.len() > 0 {
            lemma_emphasized_front(p, c, Some(s.drop_last()), bg, x);
            lemma_tinted_front(
                p,
                p.emphasized(c, Some(s.drop_last()), bg),
                s.last().0 as int,
                s.last().1 as int,
                bg,
                x,
            );
        }
    }
}

proof fn lemma_marked_front(p: RowPainter, c: Seq<Cell>, i: int, m: Seq<Match>, cur: Option<usize>, n: int, x: int)
    requires
        0 <= x < c.len(),
        x < 6,
    ensures
        p.marked(c, i, m, cur, n).len() == c.len(),
        p.marked(c, i, m, cur, n)[x] == c[x],
    decreases n,
{
    if n > 0 {
        lemma_marked_front(p, c, i, m, cur, n - 1, x);
        let before = p.marked(c, i, m, cur, n - 1);
        lemma_tinted_front(p, before, m[n - 1].1 as int, m[n - 1].2 as int, p.theme.match_cur_bg, x);
        lemma_tinted_front(p, before, m[n - 1].1 as int, m[n - 1].2 as int, p.theme.match_bg, x);
    }
}

proof fn lemma_source_front(p: RowPainter, it: Item, nl: Seq<Seq<char>>, o: Overlays, i: int, x: int)
    requires
        0 <= i < nl.len(),
        0 <= x < 6,
    ensures
        ({
            let added = in_hunk(it, i + 1);
            let used = exists|u: int| 0 <= u < it.uses_at@.len() && #[trigger] it.uses_at@[u] == i + 1;
            let bg = if added {
                p.theme.add_bg
            } else {
                Color::Reset
            };
            let row = p.source_cells(source_text(it, nl, o, i));
            let gutter = p.gutter(i + 1, added, used, bg);
            &&& gutter.len() >= 6
            &&& row.len() >= gutter.len()
            &&& row[x] == gutter[x]
        }),
{
    let r = source_text(it, nl, o, i);
    let bg = if r.added {
        p.theme.add_bg
    } else {
        Color::Reset
    };
    reveal_strlit("▎");
    reveal_strlit(" ");
    reveal_strlit("▸");
    let gutter = p.gutter(i + 1, r.added, r.use_row, bg);
    let body = gutter + p.clip(p.code_cells(r.line, r.hl, bg));
    let padded = p.padded(body, GUTTER_W + p.shown(r.line.len() as int), bg);
    lemma_emphasized_front(p, padded, r.refined, p.theme.add_strong_bg, x);
    let full = if r.added {
        p.emphasized(padded, r.refined, p.theme.add_strong_bg)
    } else {
        body
    };
    lemma_marked_front(p, full, i, r.matches, r.cur_match, r.matches.len() as int, x);
}

proof fn lemma_row_of_line(p: RowPainter, it: Item, file: FileLines, o: Overlays, i: int)
    requires
        0 <= i < file.1@.len(),
    ensures
        0 <= row_of_line(it, file, i + 1) < row_total(it, file),
        all_rows(p, it, file, o).len() == row_total(it, file),
        all_rows(p, it, file, o)[row_of_line(it, file, i + 1)] == p.source_cells(
            source_text(it, texts(file.1@), o, i),
        ),
{
    assert(removed_lines(it, texts(file.0@)).len() == lines_removed(it, file));
}

/// The rows of the lines of a hunk, and of no others, bear the bar and the ground
/// of an addition: every other line of the new side is shown as what was there
/// anyway. Each row bears the number of its line.
pub proof fn law_the_lines_of_a_hunk_are_painted_as_added(
    p: RowPainter,
    it: Item,
    file: FileLines,
    o: Overlays,
    ln: int,
)
    requires
        1 <= ln <= file.1@.len() <= usize::MAX,
        p.theme.add_bg != Color::Reset,
    ensures
        ({
            let rows = all_rows(p, it, file, o);
            let k = row_of_line(it, file, ln);
            &&& 0 <= k < rows.len()
            &&& rows[k].len() >= 6
            &&& rows[k][0].0 == (if it.new_range[0] <= ln && ln <= it.new_range[1] {
                '▎'
            } else {
                ' '
            })
            &&& rows[k][0].1.fg == Some(p.theme.add_fg)
            &&& rows[k][1].1.bg == Some(p.theme.add_bg) <==> it.new_range[0] <= ln && ln <= it.new_range[1]
            &&& rows[k][1].1.bg == Some(Color::Reset) <==> !(it.new_range[0] <= ln && ln <= it.new_range[1])
            &&& decimal(ln).len() <= 4 ==> forall|c: int|
                0 <= c < decimal(ln).len() ==> rows[k][5 - decimal(ln).len() + c].0 == #[trigger] decimal(ln)[c]
            &&& decimal(ln).len() <= 4 ==> (rows[k][5].0 == '▸' <==> it.uses_at@.contains(ln as usize))
        }),
{
    let i = ln - 1;
    let nl = texts(file.1@);
    lemma_row_of_line(p, it, file, o, i);
    lemma_source_front(p, it, nl, o, i, 0);
    lemma_source_front(p, it, nl, o, i, 1);
    lemma_source_front(p, it, nl, o, i, 2);
    lemma_source_front(p, it, nl, o, i, 3);
    lemma_source_front(p, it, nl, o, i, 4);
    lemma_source_front(p, it, nl, o, i, 5);
    reveal_strlit("▎");
    reveal_strlit(" ");
    reveal_strlit("▸");
    let used = exists|u: int| 0 <= u < it.uses_at@.len() && #[trigger] it.uses_at@[u] == i + 1;
    assert(used == it.uses_at@.contains(ln as usize)) by {
        if used {
            let u = choose|u: int| 0 <= u < it.uses_at@.len() && #[trigger] it.uses_at@[u] == i + 1;
            assert(it.uses_at@[u] == ln as usize);
        }
    }
    let d = decimal(ln);
    if d.len() <= 4 {
        let padded = padded_left(d, ' ', 4);
        assert(padded.len() == 4);
        assert forall|c: int| 0 <= c < d.len() implies padded[4 - d.len() + c] == #[trigger] d[c] by {}
    }
}

/// The lines that a hunk removed stand in place, above the lines that came for
/// them: as many rows as there are removed lines, in order, with the bar and the
/// ground of a removal and the text that was there.
pub proof fn law_removed_lines_stand_above_what_came_for_them(
    p: RowPainter,
    it: Item,
    file: FileLines,
    o: Overlays,
    j: int,
)
    requires
        1 <= it.old_range[0] <= it.old_range[1] <= file.0@.len(),
        1 <= it.new_range[0] <= file.1@.len() + 1,
        0 <= j <= it.old_range[1] - it.old_range[0],
    ensures
        ({
            let rows = all_rows(p, it, file, o);
            let k = it.new_range[0] - 1 + j;
            let line = file.0@[it.old_range[0] - 1 + j]@;
            &&& 0 <= k < rows.len()
            &&& rows[k].len() >= 6
            &&& rows[k][0].0 == '▎'
            &&& rows[k][0].1.fg == Some(p.theme.del_fg)
            &&& rows[k][1].1.bg == Some(p.theme.del_bg)
            &&& forall|c: int|
                p.hscroll <= c < line.len() && c - p.hscroll + GUTTER_W < p.width ==> 6 + c - p.hscroll < rows[k].len()
                    && rows[k][6 + c - p.hscroll].0 == #[trigger] line[c]
            &&& rows.len() == file.1@.len() + it.old_range[1] - it.old_range[0] + 1
        }),
{
    let ol = texts(file.0@);
    let removed = removed_lines(it, ol);
    let rows = all_rows(p, it, file, o);
    let k = it.new_range[0] - 1 + j;
    let line = file.0@[it.old_range[0] - 1 + j]@;
    assert(removed.len() == it.old_range[1] - it.old_range[0] + 1);
    assert(removed[j] == line);
    let r = crate::code_view::refined_at(it.refined.removed@, j);
    assert(rows[k] == p.removed_cells(line, r));
    let t = p.theme;
    reveal_strlit("▎");
    reveal_strlit("     ");
    let body = text_cells("▎"@, Style::of(t.del_fg)) + text_cells("     "@, Style::on(t.dim, t.del_bg)) + p.clip(
        text_cells(line, Style::on(t.del_fg, t.del_bg)),
    );
    let padded = p.padded(body, GUTTER_W + p.shown(line.len() as int), t.del_bg);
    lemma_emphasized_front(p, padded, r, t.del_strong_bg, 0);
    lemma_emphasized_front(p, padded, r, t.del_strong_bg, 1);
    assert forall|c: int| p.hscroll <= c < line.len() && c - p.hscroll + GUTTER_W < p.width implies 6 + c - p.hscroll
        < rows[k].len() && rows[k][6 + c - p.hscroll].0 == #[trigger] line[c] by {
        let x = 6 + c - p.hscroll;
        assert(body[x].0 == line[c]);
        assert(padded[x] == body[x]);
        lemma_emphasized_text(p, padded, r, t.del_strong_bg, x);
    }
}

proof fn lemma_emphasized_text(p: RowPainter, c: Seq<Cell>, r: Option<Seq<(usize, usize)>>, bg: Color, x: int)
    requires
        0 <= x < c.len(),
    ensures
        p.emphasized(c, r, bg).len() == c.len(),
        p.emphasized(c, r, bg)[x].0 == c[x].0,
    decreases (match r {
        Some(s) => s.len(),
        None => 0,
    }),
{
    if let Some(s) = r {
        if s.len() > 0 {
            lemma_emphasized_text(p, c, Some(s.drop_last()), bg, x);
        }
    }
}

proof fn lemma_marked_text(p: RowPainter, c: Seq<Cell>, i: int, m: Seq<Match>, cur: Option<usize>, n: int, x: int)
    requires
        0 <= x < c.len(),
    ensures
        p.marked(c, i, m, cur, n).len() == c.len(),
        p.marked(c, i, m, cur, n)[x].0 == c[x].0,
    decreases n,
{
    if n > 0 {
        lemma_marked_text(p, c, i, m, cur, n - 1, x);
    }
}

/// A line that is not highlighted shows its own text, from the column that the
/// view is scrolled to up to the right edge.
pub proof fn law_a_row_shows_the_text_of_its_line(p: RowPainter, it: Item, file: FileLines, o: Overlays, ln: int, c: int)
    requires
        1 <= ln <= file.1@.len(),
        decimal(ln).len() <= 4,
        o.hl is None,
        p.hscroll <= c < file.1@[ln - 1]@.len(),
        c - p.hscroll + GUTTER_W < p.width,
    ensures
        ({
            let row = all_rows(p, it, file, o)[row_of_line(it, file, ln)];
            &&& 6 + c - p.hscroll < row.len()
            &&& row[6 + c - p.hscroll].0 == file.1@[ln - 1]@[c]
        }),
{
    let i = ln - 1;
    let nl = texts(file.1@);
    lemma_row_of_line(p, it, file, o, i);
    let r = source_text(it, nl, o, i);
    let bg = if r.added {
        p.theme.add_bg
    } else {
        Color::Reset
    };
    reveal_strlit("▎");
    reveal_strlit(" ");
    reveal_strlit("▸");
    let gutter = p.gutter(i + 1, r.added, r.use_row, bg);
    assert(gutter.len() == 6);
    let body = gutter + p.clip(p.code_cells(r.line, r.hl, bg));
    let x = 6 + c - p.hscroll;
    assert(body[x].0 == r.line[c]);
    let padded = p.padded(body, GUTTER_W + p.shown(r.line.len() as int), bg);
    lemma_emphasized_text(p, padded, r.refined, p.theme.add_strong_bg, x);
    let full = if r.added {
        p.emphasized(padded, r.refined, p.theme.add_strong_bg)
    } else {
        body
    };
    lemma_marked_text(p, full, i, r.matches, r.cur_match, r.matches.len() as int, x);
}

/// Whether match `m` covers column `c` of line `i`.
pub open spec fn covers(m: Match, i: int, c: int) -> bool {
    m.0 == i && m.1 <= c < m.2
}

proof fn lemma_marked_at(
    p: RowPainter,
    row: Seq<Cell>,
    i: int,
    m: Seq<Match>,
    cur: Option<usize>,
    n: int,
    c: int,
    k: int,
)
    requires
        0 <= k < n <= m.len(),
        n <= usize::MAX,
        p.hscroll <= c < p.hscroll + p.room(),
        6 + c - p.hscroll < row.len(),
        covers(m[k], i, c),
        forall|l: int| k < l < n ==> !covers(#[trigger] m[l], i, c),
    ensures
        p.marked(row, i, m, cur, n).len() == row.len(),
        p.marked(row, i, m, cur, n)[6 + c - p.hscroll].1.bg == Some(
            if cur == Some(k as usize) {
                p.theme.match_cur_bg
            } else {
                p.theme.match_bg
            },
        ),
    decreases n,
{
    lemma_marked_text(p, row, i, m, cur, n - 1, 6 + c - p.hscroll);
    if k < n - 1 {
        lemma_marked_at(p, row, i, m, cur, n - 1, c, k);
        assert(!covers(m[n - 1], i, c));
    }
}

/// What a search found is shown as found: a column that a match covers has the
/// ground of a match, and that of the current one where it is the current one.
pub proof fn law_a_match_is_shown_where_it_is(
    p: RowPainter,
    it: Item,
    file: FileLines,
    o: Overlays,
    ln: int,
    c: int,
    k: int,
)
    requires
        1 <= ln <= file.1@.len(),
        decimal(ln).len() <= 4,
        o.hl is None,
        o.cursor is None,
        o.matches.len() <= usize::MAX,
        p.hscroll <= c < file.1@[ln - 1]@.len(),
        c - p.hscroll + GUTTER_W < p.width,
        0 <= k < o.matches.len(),
        o.matches[k].0 == ln - 1,
        o.matches[k].1 <= c < o.matches[k].2,
        forall|l: int| k < l < o.matches.len() ==> !covers(#[trigger] o.matches[l], ln - 1, c),
    ensures
        all_rows(p, it, file, o)[row_of_line(it, file, ln)][6 + c - p.hscroll].1.bg == Some(
            if o.cur_match == Some(k as usize) {
                p.theme.match_cur_bg
            } else {
                p.theme.match_bg
            },
        ),
{
    let i = ln - 1;
    let nl = texts(file.1@);
    lemma_row_of_line(p, it, file, o, i);
    let r = source_text(it, nl, o, i);
    let bg = if r.added {
        p.theme.add_bg
    } else {
        Color::Reset
    };
    reveal_strlit("▎");
    reveal_strlit(" ");
    reveal_strlit("▸");
    let gutter = p.gutter(i + 1, r.added, r.use_row, bg);
    let body = gutter + p.clip(p.code_cells(r.line, r.hl, bg));
    let x = 6 + c - p.hscroll;
    assert(x < body.len());
    let padded = p.padded(body, GUTTER_W + p.shown(r.line.len() as int), bg);
    lemma_emphasized_text(p, padded, r.refined, p.theme.add_strong_bg, x);
    let full = if r.added {
        p.emphasized(padded, r.refined, p.theme.add_strong_bg)
    } else {
        body
    };
    lemma_marked_at(p, full, i, r.matches, r.cur_match, r.matches.len() as int, c, k);
}

/// The cursor is shown on its own column, and nowhere else in the code.
pub proof fn law_the_cursor_is_shown_where_it_is(p: RowPainter, it: Item, file: FileLines, o: Overlays, ln: int, c: int)
    requires
        1 <= ln <= file.1@.len(),
        decimal(ln).len() <= 4,
        o.hl is None,
        o.cursor is Some,
        p.hscroll <= c < file.1@[ln - 1]@.len(),
        c - p.hscroll + GUTTER_W < p.width,
    ensures
        all_rows(p, it, file, o)[row_of_line(it, file, ln)][6 + c - p.hscroll].1.reversed <==> o.cursor->0.line == ln - 1
            && o.cursor->0.col == c,
{
    let i = ln - 1;
    let nl = texts(file.1@);
    lemma_row_of_line(p, it, file, o, i);
    let r = source_text(it, nl, o, i);
    let bg = if r.added {
        p.theme.add_bg
    } else {
        Color::Reset
    };
    reveal_strlit("▎");
    reveal_strlit(" ");
    reveal_strlit("▸");
    let gutter = p.gutter(i + 1, r.added, r.use_row, bg);
    let body = gutter + p.clip(p.code_cells(r.line, r.hl, bg));
    let x = 6 + c - p.hscroll;
    assert(x < body.len());
    assert(!body[x].1.reversed);
    let padded = p.padded(body, GUTTER_W + p.shown(r.line.len() as int), bg);
    lemma_emphasized_straight(p, padded, r.refined, p.theme.add_strong_bg, x);
    let full = if r.added {
        p.emphasized(padded, r.refined, p.theme.add_strong_bg)
    } else {
        body
    };
    lemma_marked_straight(p, full, i, r.matches, r.cur_match, r.matches.len() as int, x);
}

proof fn lemma_emphasized_straight(p: RowPainter, c: Seq<Cell>, r: Option<Seq<(usize, usize)>>, bg: Color, x: int)
    requires
        0 <= x < c.len(),
        !c[x].1.reversed,
    ensures
        p.emphasized(c, r, bg).len() == c.len(),
        !p.emphasized(c, r, bg)[x].1.reversed,
    decreases (match r {
        Some(s) => s.len(),
        None => 0,
    }),
{
    if let Some(s) = r {
        if s.len() > 0 {
            lemma_emphasized_straight(p, c, Some(s.drop_last()), bg, x);
        }
    }
}

proof fn lemma_marked_straight(p: RowPainter, c: Seq<Cell>, i: int, m: Seq<Match>, cur: Option<usize>, n: int, x: int)
    requires
        0 <= x < c.len(),
        !c[x].1.reversed,
    ensures
        p.marked(c, i, m, cur, n).len() == c.len(),
        !p.marked(c, i, m, cur, n)[x].1.reversed,
    decreases n,
{
    if n > 0 {
        lemma_marked_straight(p, c, i, m, cur, n - 1, x);
    }
}

/// The view says that it goes on to the right where some line of the file or some
/// removed line does, and only there.
pub proof fn law_a_view_says_where_it_goes_on(p: RowPainter, it: Item, file: FileLines, o: Overlays, start: int, rows: int)
    requires
        p.width >= GUTTER_W,
    ensures
        window_shown(p, it, file, o, start, rows).1 <==> ((exists|i: int|
            0 <= i < file.1@.len() && (#[trigger] file.1@[i])@.len() > p.hscroll + p.width - 6) || (it.new_range[0]
            >= 1 && exists|j: int|
            it.old_range[0] <= j + 1 <= it.old_range[1] && lines_removed(it, file) > 0 && (#[trigger] file.0@[j])@.len()
                > p.hscroll + p.width - 6)),
{
    let edge = p.hscroll + p.room();
    let ol = texts(file.0@);
    let removed = removed_lines(it, ol);
    if overflows(p, it, file) {
        if exists|i: int| 0 <= i < file.1@.len() && (#[trigger] texts(file.1@)[i]).len() > edge {
            let i = choose|i: int| 0 <= i < file.1@.len() && (#[trigger] texts(file.1@)[i]).len() > edge;
            assert(file.1@[i]@.len() > edge);
        } else {
            let j = choose|j: int| 0 <= j < removed.len() && (#[trigger] removed[j]).len() > edge;
            assert(file.0@[it.old_range[0] - 1 + j]@ == removed[j]);
        }
    }
    if exists|i: int| 0 <= i < file.1@.len() && (#[trigger] file.1@[i])@.len() > edge {
        let i = choose|i: int| 0 <= i < file.1@.len() && (#[trigger] file.1@[i])@.len() > edge;
        assert(texts(file.1@)[i].len() > edge);
    }
    if it.new_range[0] >= 1 && exists|j: int|
        it.old_range[0] <= j + 1 <= it.old_range[1] && lines_removed(it, file) > 0 && (#[trigger] file.0@[j])@.len()
            > edge {
        let j = choose|j: int|
            it.old_range[0] <= j + 1 <= it.old_range[1] && lines_removed(it, file) > 0 && (#[trigger] file.0@[j])@.len()
                > edge;
        assert(removed[j + 1 - it.old_range[0]] == ol[j]);
    }
}

/// A window starts at the row that it is scrolled to, or at the last one, and
/// holds as many rows as it has room for or as there are.
pub proof fn law_a_window_starts_where_it_is_scrolled_to(
    p: RowPainter,
    it: Item,
    file: FileLines,
    o: Overlays,
    start: int,
    rows: int,
    k: int,
)
    requires
        0 <= start,
        0 <= rows,
        0 < row_total(it, file) <= 65536,
    ensures
        ({
            let shown = window_shown(p, it, file, o, start, rows).0;
            let total = file.1@.len() + (if it.new_range[0] >= 1 {
                lines_removed(it, file)
            } else {
                0
            });
            let first = if start < total {
                start
            } else {
                total - 1
            };
            &&& window_shown(p, it, file, o, start, rows).2 == total
            &&& shown.len() == (if rows < total - first {
                rows
            } else {
                total - first
            })
            &&& 0 <= k < shown.len() ==> shown[k] == all_rows(p, it, file, o)[first + k]
        }),
{
    assert(removed_lines(it, texts(file.0@)).len() == lines_removed(it, file));
}

/// An excerpt holds the lines that it is asked for, as far as the file goes, each
/// under its number.
pub proof fn law_an_excerpt_numbers_the_lines_asked_for(lines: Seq<Seq<char>>, n0: int, n1: int, theme: Theme, ln: int)
    requires
        1 <= n0 <= ln <= n1,
        ln <= lines.len(),
    ensures
        ({
            let rows = excerpt_rows(lines, None, n0, n1, theme);
            &&& rows.len() == (if n1 <= lines.len() {
                n1 - n0 + 1
            } else {
                lines.len() - n0 + 1
            })
            &&& decimal(ln).len() <= 5 ==> rows[ln - n0].len() == 6 + lines[ln - 1].len()
            &&& decimal(ln).len() <= 5 ==> forall|c: int|
                0 <= c < lines[ln - 1].len() ==> rows[ln - n0][6 + c].0 == #[trigger] lines[ln - 1][c]
            &&& decimal(ln).len() <= 5 ==> forall|c: int|
                0 <= c < decimal(ln).len() ==> rows[ln - n0][5 - decimal(ln).len() + c].0 == #[trigger] decimal(ln)[c]
        }),
{
    reveal_strlit(" ");
    let d = decimal(ln);
    if d.len() <= 5 {
        let padded = padded_left(d, ' ', 5);
        assert(padded.len() == 5);
        assert forall|c: int| 0 <= c < d.len() implies padded[5 - d.len() + c] == #[trigger] d[c] by {}
    }
}

} // verus!
