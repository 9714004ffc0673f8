//! The cursor in a file's lines, its motions, and the scroll offsets that
//! follow it.

use crate::text::{chars_of, is_space, space, texts, trim, trimmed, width};
use vstd::prelude::*;

verus! {

/// A place in a file: a line, and a character column in it.
#[derive(Clone, Copy, PartialEq, Eq, Debug, Structural)]
pub struct Cursor {
    pub line: usize,
    pub col: usize,
}

/// `x` moved into `lo..=hi`.
pub open spec fn clamped(x: int, lo: int, hi: int) -> int {
    if x < lo {
        lo
    } else if x > hi {
        hi
    } else {
        x
    }
}

/// The last valid column of a line: 0 where it is empty.
pub open spec fn last_col(line: Seq<char>) -> int {
    if line.len() == 0 {
        0
    } else {
        line.len() - 1
    }
}

/// `from` moved by `delta` and into `0..=hi`.
pub fn moved(from: usize, delta: isize, hi: usize) -> (r: usize)
    ensures
        r == clamped(from + delta, 0, hi as int),
{
    if delta < 0 {
        let back: usize = if delta == isize::MIN {
            (isize::MAX as usize) + 1
        } else {
            (-delta) as usize
        };
        let to: usize = if back > from {
            0
        } else {
            from - back
        };
        if to > hi {
            hi
        } else {
            to
        }
    } else if from >= hi || (delta as usize) > hi - from {
        hi
    } else {
        from + delta as usize
    }
}

pub fn col_max(line: &str) -> (r: usize)
    ensures
        r == last_col(line@),
{
    let n = width(line);
    if n == 0 {
        0
    } else {
        n - 1
    }
}

/// The nearest place to `c` that the lines have.
pub open spec fn clamped_cursor(c: Cursor, lines: Seq<Seq<char>>) -> Cursor {
    if lines.len() == 0 {
        Cursor { line: 0, col: 0 }
    } else {
        let line = clamped(c.line as int, 0, lines.len() - 1);
        Cursor {
            line: line as usize,
            col: clamped(c.col as int, 0, last_col(lines[line])) as usize,
        }
    }
}

pub fn clamp_cursor(c: Cursor, lines: &[String]) -> (r: Cursor)
    ensures
        r == clamped_cursor(c, texts(lines@)),
        lines@.len() > 0 ==> r.line < lines@.len() && r.col <= last_col(lines@[r.line as int]@),
{
    if lines.len() == 0 {
        return Cursor { line: 0, col: 0 };
    }
    let line = if c.line > lines.len() - 1 {
        lines.len() - 1
    } else {
        c.line
    };
    let max = col_max(&lines[line]);
    let col = if c.col > max {
        max
    } else {
        c.col
    };
    assert(texts(lines@)[line as int] == lines@[line as int]@);
    Cursor { line, col }
}

/// The column moves by `delta` and stays on the line.
pub fn move_col(c: Cursor, lines: &[String], delta: isize) -> (r: Cursor)
    requires
        c.line < lines@.len(),
    ensures
        r.line == c.line,
        r.col == clamped(c.col + delta, 0, last_col(lines@[c.line as int]@)),
{
    let max = col_max(&lines[c.line]);
    Cursor { line: c.line, col: moved(c.col, delta, max) }
}

/// The line moves by `delta` and stays in the file; the column is carried as
/// far as the new line reaches.
pub fn move_line(c: Cursor, lines: &[String], delta: isize) -> (r: Cursor)
    requires
        lines@.len() > 0,
    ensures
        r.line == clamped(c.line + delta, 0, lines@.len() - 1),
        r.col == clamped(c.col as int, 0, last_col(lines@[r.line as int]@)),
{
    let line = moved(c.line, delta, lines.len() - 1);
    let max = col_max(&lines[line]);
    let col = if c.col > max {
        max
    } else {
        c.col
    };
    Cursor { line, col }
}

pub fn line_start(c: Cursor, _lines: &[String]) -> (r: Cursor)
    ensures
        r == (Cursor { line: c.line, col: 0 }),
{
    Cursor { line: c.line, col: 0 }
}

pub fn line_end(c: Cursor, lines: &[String]) -> (r: Cursor)
    requires
        c.line < lines@.len(),
    ensures
        r.line == c.line,
        r.col == last_col(lines@[c.line as int]@),
{
    Cursor { line: c.line, col: col_max(&lines[c.line]) }
}

/// Whether a line holds white space only.
pub open spec fn blank(line: Seq<char>) -> bool {
    trimmed(line).len() == 0
}

fn is_blank(line: &str) -> (r: bool)
    ensures
        r == blank(line@),
{
    trim(line).as_str().is_empty()
}

/// The nearest blank line at or above `i`, or the first line.
pub open spec fn blank_up(lines: Seq<Seq<char>>, i: int) -> int
    decreases i,
{
    if i <= 0 || blank(lines[i]) {
        i
    } else {
        blank_up(lines, i - 1)
    }
}

/// The nearest blank line at or below `i`, or one past the last line.
pub open spec fn blank_down(lines: Seq<Seq<char>>, i: int) -> int
    decreases lines.len() - i,
{
    if i >= lines.len() || blank(lines[i]) {
        i
    } else {
        blank_down(lines, i + 1)
    }
}

/// The blank line above the cursor, or the first line.
pub fn para_prev(c: Cursor, lines: &[String]) -> (r: Cursor)
    requires
        c.line <= lines@.len(),
    ensures
        r.col == 0,
        r.line == (if c.line == 0 {
            0
        } else {
            blank_up(texts(lines@), c.line - 1)
        }),
        r.line <= c.line,
{
    if c.line == 0 {
        return Cursor { line: 0, col: 0 };
    }
    let mut i: usize = c.line - 1;
    while i > 0 && !is_blank(&lines[i])
        invariant
            i < c.line <= lines@.len(),
            blank_up(texts(lines@), c.line - 1) == blank_up(texts(lines@), i as int),
        decreases i,
    {
        i = i - 1;
    }
    Cursor { line: i, col: 0 }
}

/// The blank line below the cursor, or the last line.
pub fn para_next(c: Cursor, lines: &[String]) -> (r: Cursor)
    requires
        lines@.len() > 0,
        c.line < usize::MAX,
    ensures
        r.col == 0,
        r.line == clamped(blank_down(texts(lines@), c.line + 1), 0, lines@.len() - 1),
{
    let mut i: usize = c.line + 1;
    while i < lines.len() && !is_blank(&lines[i])
        invariant
            c.line < i,
            blank_down(texts(lines@), c.line + 1) == blank_down(texts(lines@), i as int),
            i <= lines@.len() || i == c.line + 1,
        decreases lines@.len() - i,
    {
        i = i + 1;
    }
    assert(i >= lines@.len() || blank(texts(lines@)[i as int]));
    Cursor {
        line: if i > lines.len() - 1 {
            lines.len() - 1
        } else {
            i
        },
        col: 0,
    }
}

/// Whether Unicode counts `c` among letters and numbers.
pub uninterp spec fn alphanumeric(c: char) -> bool;

/// `char::is_alphanumeric`. Below U+0080 that is the digits and the letters
/// `A`–`Z` and `a`–`z`; of other characters nothing more is claimed than that
/// the answer depends on the character alone.
#[verifier::external_body]
fn is_alphanumeric(c: char) -> (r: bool)
    ensures
        r == alphanumeric(c),
        (c as u32) < 128 ==> r == ('0' <= c <= '9' || 'A' <= c <= 'Z' || 'a' <= c <= 'z'),
{
    c.is_alphanumeric()
}

/// Whether a character is a letter or a digit.
pub open spec fn letter_or_digit(c: char) -> bool {
    if (c as u32) < 128 {
        '0' <= c <= '9' || 'A' <= c <= 'Z' || 'a' <= c <= 'z'
    } else {
        alphanumeric(c)
    }
}

/// The class of a character for word motion: 0 for white space, 1 for what
/// words are made of, 2 for the rest.
pub open spec fn class_of(c: char) -> u8 {
    if is_space(c) {
        0
    } else if letter_or_digit(c) || c == '_' {
        1
    } else {
        2
    }
}

pub fn word_class(c: char) -> (r: u8)
    ensures
        r == class_of(c),
{
    if space(c) {
        0
    } else if is_alphanumeric(c) || c == '_' {
        1
    } else {
        2
    }
}

/// The lines with a line feed between each two.
pub open spec fn flat(lines: Seq<Seq<char>>) -> Seq<char>
    decreases lines.len(),
{
    if lines.len() == 0 {
        Seq::empty()
    } else if lines.len() == 1 {
        lines[0]
    } else {
        lines[0].push('\n') + flat(lines.skip(1))
    }
}

/// The number of characters before line `n`, line ends included.
pub open spec fn line_offset(lines: Seq<Seq<char>>, n: int) -> int
    decreases n,
{
    if n <= 0 {
        0
    } else {
        line_offset(lines, n - 1) + lines[n - 1].len() + 1
    }
}

/// The place `idx` characters into `lines`: past the end it is behind the
/// last character.
pub open spec fn place_at(lines: Seq<Seq<char>>, idx: int, line: int) -> (int, int)
    decreases lines.len() - line,
{
    if line >= lines.len() {
        (lines.len() - 1, lines.last().len() as int)
    } else if idx <= lines[line].len() {
        (line, idx)
    } else {
        place_at(lines, idx - lines[line].len() - 1, line + 1)
    }
}

proof fn lemma_flat_push(lines: Seq<Seq<char>>, n: int)
    requires
        0 < n < lines.len(),
    ensures
        flat(lines.take(n + 1)) == flat(lines.take(n)).push('\n') + lines[n],
    decreases n,
{
    let a = lines.take(n + 1);
    let b = lines.take(n);
    if n == 1 {
        assert(a.skip(1) == seq![lines[1]]);
        assert(flat(a.skip(1)) == lines[1]);
        assert(flat(b) == lines[0]);
    } else {
        let rest = lines.skip(1);
        lemma_flat_push(rest, n - 1);
        assert(rest.take(n) == a.skip(1));
        assert(rest.take(n - 1) == b.skip(1));
        assert(flat(a) == a[0].push('\n') + flat(a.skip(1)));
        assert(flat(b) == b[0].push('\n') + flat(b.skip(1)));
        assert(flat(a) == flat(b).push('\n') + lines[n]);
    }
}

/// The length of the lines with a line feed between each two.
pub proof fn lemma_flat_len(lines: Seq<Seq<char>>)
    requires
        lines.len() > 0,
    ensures
        flat(lines).len() + 1 == line_offset(lines, lines.len() as int),
    decreases lines.len(),
{
    assert(lines.take(lines.len() as int) == lines);
    lemma_flat_len_to(lines, lines.len() as int);
}

proof fn lemma_flat_len_to(lines: Seq<Seq<char>>, n: int)
    requires
        0 < n <= lines.len(),
    ensures
        flat(lines.take(n)).len() + 1 == line_offset(lines, n),
    decreases n,
{
    if n == 1 {
        assert(flat(lines.take(1)) == lines[0]);
        assert(line_offset(lines, 0) == 0);
    } else {
        lemma_flat_len_to(lines, n - 1);
        lemma_flat_push(lines, n - 1);
    }
}

pub proof fn lemma_line_offset_monotone(lines: Seq<Seq<char>>, a: int, b: int)
    requires
        0 <= a <= b,
    ensures
        0 <= line_offset(lines, a) <= line_offset(lines, b),
    decreases b,
{
    if b > 0 {
        if a < b {
            lemma_line_offset_monotone(lines, a, b - 1);
        } else {
            lemma_line_offset_monotone(lines, a - 1, b - 1);
        }
    }
}

pub fn joined_chars(lines: &[String]) -> (r: Vec<char>)
    ensures
        r@ == flat(texts(lines@)),
{
    let mut v: Vec<char> = Vec::new();
    let ghost ts = texts(lines@);
    let n = lines.len();
    for i in 0..n
        invariant
            n == lines@.len(),
            ts == texts(lines@),
            v@ == if i == 0 || i == n {
                flat(ts.take(i as int))
            } else {
                flat(ts.take(i as int)).push('\n')
            },
    {
        let mut cs = chars_of(&lines[i]);
        v.append(&mut cs);
        proof {
            if i > 0 {
                lemma_flat_push(ts, i as int);
            } else {
                assert(ts.take(1) == seq![ts[0]]);
                assert(flat(ts.take(1)) == ts[0]);
            }
            assert(v@ == flat(ts.take(i + 1)));
        }
        if i + 1 < n {
            v.push('\n');
        }
    }
    assert(ts.take(n as int) == ts);
    v
}

/// The index of a place in the flattened lines.
pub fn to_index(lines: &[String], c: Cursor) -> (r: usize)
    requires
        c.line <= lines@.len(),
        line_offset(texts(lines@), c.line as int) + c.col <= usize::MAX,
    ensures
        r == line_offset(texts(lines@), c.line as int) + c.col,
{
    let mut idx: usize = 0;
    let ghost ts = texts(lines@);
    for i in 0..c.line
        invariant
            c.line <= lines@.len(),
            ts == texts(lines@),
            line_offset(ts, c.line as int) + c.col <= usize::MAX,
            idx == line_offset(ts, i as int),
    {
        proof {
            lemma_line_offset_monotone(ts, i + 1, c.line as int);
            assert(ts[i as int] == lines@[i as int]@);
        }
        idx = idx + width(&lines[i]) + 1;
    }
    idx + c.col
}

/// The place that an index of the flattened lines stands for.
pub fn from_index(lines: &[String], idx: usize) -> (r: Cursor)
    requires
        lines@.len() > 0,
    ensures
        (r.line as int, r.col as int) == place_at(texts(lines@), idx as int, 0),
{
    let mut left: usize = idx;
    let ghost ts = texts(lines@);
    for i in 0..lines.len()
        invariant
            ts == texts(lines@),
            place_at(ts, idx as int, 0) == place_at(ts, left as int, i as int),
    {
        let len = width(&lines[i]);
        assert(ts[i as int] == lines@[i as int]@);
        if left <= len {
            return Cursor { line: i, col: left };
        }
        left = left - len - 1;
    }
    let last = lines.len() - 1;
    assert(ts.last() == lines@[last as int]@);
    Cursor { line: last, col: width(&lines[last]) }
}

proof fn lemma_place_of_offset(lines: Seq<Seq<char>>, from: int, line: int, col: int)
    requires
        0 <= from <= line < lines.len(),
        0 <= col <= lines[line].len(),
    ensures
        place_at(lines, line_offset(lines, line) - line_offset(lines, from) + col, from) == (line, col),
    decreases line - from,
{
    if from < line {
        lemma_place_of_offset(lines, from + 1, line, col);
        lemma_line_offset_monotone(lines, from + 1, line);
    }
}

/// Flattening a place and reading it back gives the place again.
pub proof fn law_a_place_reads_back(lines: Seq<Seq<char>>, line: int, col: int)
    requires
        0 <= line < lines.len(),
        0 <= col <= lines[line].len(),
    ensures
        place_at(lines, line_offset(lines, line) + col, 0) == (line, col),
{
    lemma_place_of_offset(lines, 0, line, col);
}

proof fn lemma_place_in_lines(lines: Seq<Seq<char>>, idx: int, from: int)
    requires
        lines.len() > 0,
        0 <= from <= lines.len(),
        0 <= idx,
    ensures
        ({
            let p = place_at(lines, idx, from);
            &&& 0 <= p.0 < lines.len()
            &&& 0 <= p.1 <= lines[p.0].len()
        }),
        from < lines.len() && idx < line_offset(lines, lines.len() as int) - line_offset(lines, from) ==> ({
            let p = place_at(lines, idx, from);
            line_offset(lines, p.0) + p.1 == line_offset(lines, from) + idx
        }),
    decreases lines.len() - from,
{
    if from < lines.len() && idx > lines[from].len() {
        lemma_place_in_lines(lines, idx - lines[from].len() - 1, from + 1);
        if from + 1 == lines.len() {
            assert(line_offset(lines, from + 1) == line_offset(lines, from) + lines[from].len() + 1);
        }
    }
}

/// Every index stands for a place in the lines; up to the end of the text the
/// index of that place is the index itself.
pub proof fn law_an_index_reads_back(lines: Seq<Seq<char>>, idx: int)
    requires
        lines.len() > 0,
        0 <= idx,
    ensures
        ({
            let p = place_at(lines, idx, 0);
            &&& 0 <= p.0 < lines.len()
            &&& 0 <= p.1 <= lines[p.0].len()
            &&& idx <= flat(lines).len() ==> line_offset(lines, p.0) + p.1 == idx
        }),
{
    lemma_place_in_lines(lines, idx, 0);
    lemma_flat_len(lines);
}

/// The last index of the run of class `class` characters that follows `i`, or
/// `i` where none follows.
pub open spec fn run_end(s: Seq<char>, i: int, class: u8) -> int
    decreases s.len() - i,
{
    if i + 1 < s.len() && class_of(s[i + 1]) == class {
        run_end(s, i + 1, class)
    } else {
        i
    }
}

/// The first index of the run of class `class` characters that stands before
/// `i`, or `i` where none does.
pub open spec fn run_start(s: Seq<char>, i: int, class: u8) -> int
    decreases i,
{
    if i > 0 && class_of(s[i - 1]) == class {
        run_start(s, i - 1, class)
    } else {
        i
    }
}

/// The first index at or below `i` that is no white space, or 0.
pub open spec fn non_space_down(s: Seq<char>, i: int) -> int
    decreases i,
{
    if i > 0 && class_of(s[i]) == 0 {
        non_space_down(s, i - 1)
    } else {
        i
    }
}

/// The first index at or above `i` that is no white space, or the length.
pub open spec fn non_space_up(s: Seq<char>, i: int) -> int
    decreases s.len() - i,
{
    if i < s.len() && class_of(s[i]) == 0 {
        non_space_up(s, i + 1)
    } else {
        i
    }
}

/// Where `w` leads from index `i`: past the rest of the word or of the
/// punctuation run, and past the white space behind it.
pub open spec fn next_word(s: Seq<char>, i: int) -> int {
    let word = if class_of(s[i]) != 0 {
        run_end(s, i, class_of(s[i]))
    } else {
        i
    };
    let gap = run_end(s, word, 0);
    if gap + 1 < s.len() {
        gap + 1
    } else {
        s.len() - 1
    }
}

/// Where `b` leads from index `i`: to the start of the run before it.
pub open spec fn prev_word(s: Seq<char>, i: int) -> int {
    if i <= 0 {
        0
    } else {
        let j = non_space_down(s, i - 1);
        run_start(s, j, class_of(s[j]))
    }
}

/// Where `e` leads from index `i`: to the end of the run that comes next.
pub open spec fn end_word(s: Seq<char>, i: int) -> int {
    if i + 1 >= s.len() {
        i
    } else {
        let j = non_space_up(s, i + 1);
        if j >= s.len() {
            s.len() - 1
        } else {
            run_end(s, j, class_of(s[j]))
        }
    }
}

/// The index that a motion starts from.
pub open spec fn start_index(lines: Seq<Seq<char>>, c: Cursor) -> int {
    clamped(line_offset(lines, c.line as int) + c.col, 0, flat(lines).len() - 1)
}

/// The cursor after a motion to index `to` of the flattened lines; in an empty
/// text it is the start.
pub open spec fn motion_to(lines: Seq<Seq<char>>, r: Cursor, to: int) -> bool {
    if flat(lines).len() == 0 {
        r == (Cursor { line: 0, col: 0 })
    } else {
        (r.line as int, r.col as int) == place_at(lines, to, 0)
    }
}

fn run_forward(cs: &Vec<char>, from: usize, class: u8) -> (r: usize)
    requires
        from < cs@.len(),
    ensures
        r == run_end(cs@, from as int, class),
        from <= r < cs@.len(),
{
    let n: usize = cs.len();
    let mut i: usize = from;
    while i + 1 < n && word_class(cs[i + 1]) == class
        invariant
            n == cs@.len(),
            from <= i < n,
            run_end(cs@, from as int, class) == run_end(cs@, i as int, class),
        decreases cs@.len() - i,
    {
        i = i + 1;
    }
    i
}

pub fn word_next(c: Cursor, lines: &[String]) -> (r: Cursor)
    requires
        c.line <= lines@.len(),
        line_offset(texts(lines@), c.line as int) + c.col <= usize::MAX,
    ensures
        motion_to(
            texts(lines@),
            r,
            next_word(flat(texts(lines@)), start_index(texts(lines@), c)),
        ),
{
    let chars = joined_chars(lines);
    if chars.len() == 0 {
        return Cursor { line: 0, col: 0 };
    }
    let mut i = to_index(lines, c);
    if i > chars.len() - 1 {
        i = chars.len() - 1;
    }
    proof {
        lemma_line_offset_monotone(texts(lines@), 0, c.line as int);
    }
    let cls = word_class(chars[i]);
    let word = if cls != 0 {
        run_forward(&chars, i, cls)
    } else {
        i
    };
    let gap = run_forward(&chars, word, 0);
    from_index(
        lines,
        if gap + 1 < chars.len() {
            gap + 1
        } else {
            chars.len() - 1
        },
    )
}

pub fn word_prev(c: Cursor, lines: &[String]) -> (r: Cursor)
    requires
        c.line <= lines@.len(),
        line_offset(texts(lines@), c.line as int) + c.col <= usize::MAX,
    ensures
        motion_to(
            texts(lines@),
            r,
            prev_word(flat(texts(lines@)), start_index(texts(lines@), c)),
        ),
{
    let chars = joined_chars(lines);
    if chars.len() == 0 {
        return Cursor { line: 0, col: 0 };
    }
    let ghost s = flat(texts(lines@));
    let mut start = to_index(lines, c);
    if start > chars.len() - 1 {
        start = chars.len() - 1;
    }
    proof {
        lemma_line_offset_monotone(texts(lines@), 0, c.line as int);
    }
    if start == 0 {
        assert(place_at(texts(lines@), 0, 0) == (0int, 0int));
        return Cursor { line: 0, col: 0 };
    }
    let mut i: usize = start - 1;
    while i > 0 && word_class(chars[i]) == 0
        invariant
            i < chars@.len(),
            chars@ == s,
            start >= 1,
            non_space_down(s, start - 1) == non_space_down(s, i as int),
        decreases i,
    {
        i = i - 1;
    }
    let ghost j = i as int;
    let cls = word_class(chars[i]);
    while i > 0 && word_class(chars[i - 1]) == cls
        invariant
            i < chars@.len(),
            chars@ == s,
            run_start(s, j, cls) == run_start(s, i as int, cls),
        decreases i,
    {
        i = i - 1;
    }
    from_index(lines, i)
}

pub fn word_end(c: Cursor, lines: &[String]) -> (r: Cursor)
    requires
        c.line <= lines@.len(),
        line_offset(texts(lines@), c.line as int) + c.col <= usize::MAX,
    ensures
        motion_to(
            texts(lines@),
            r,
            end_word(flat(texts(lines@)), start_index(texts(lines@), c)),
        ),
{
    let chars = joined_chars(lines);
    if chars.len() == 0 {
        return Cursor { line: 0, col: 0 };
    }
    let ghost s = flat(texts(lines@));
    let mut start = to_index(lines, c);
    if start > chars.len() - 1 {
        start = chars.len() - 1;
    }
    proof {
        lemma_line_offset_monotone(texts(lines@), 0, c.line as int);
    }
    if start + 1 >= chars.len() {
        return from_index(lines, start);
    }
    let mut i: usize = start + 1;
    while i < chars.len() && word_class(chars[i]) == 0
        invariant
            i <= chars@.len(),
            chars@ == s,
            non_space_up(s, start + 1) == non_space_up(s, i as int),
        decreases chars@.len() - i,
    {
        i = i + 1;
    }
    if i >= chars.len() {
        return from_index(lines, chars.len() - 1);
    }
    let cls = word_class(chars[i]);
    from_index(lines, run_forward(&chars, i, cls))
}

proof fn lemma_runs(s: Seq<char>, i: int, class: u8)
    requires
        0 <= i < s.len(),
    ensures
        i <= run_end(s, i, class) < s.len(),
        0 <= run_start(s, i, class) <= i,
        0 <= non_space_down(s, i) <= i,
    decreases s.len() - i,
{
    if i + 1 < s.len() && class_of(s[i + 1]) == class {
        lemma_runs(s, i + 1, class);
    }
    lemma_runs_down(s, i, class);
}

proof fn lemma_runs_down(s: Seq<char>, i: int, class: u8)
    requires
        0 <= i < s.len(),
    ensures
        0 <= run_start(s, i, class) <= i,
        0 <= non_space_down(s, i) <= i,
    decreases i,
{
    if i > 0 {
        lemma_runs_down(s, i - 1, class);
    }
}

proof fn lemma_non_space_up(s: Seq<char>, i: int)
    requires
        0 <= i <= s.len(),
    ensures
        i <= non_space_up(s, i) <= s.len(),
    decreases s.len() - i,
{
    if i < s.len() && class_of(s[i]) == 0 {
        lemma_non_space_up(s, i + 1);
    }
}

/// The word motions stay inside the text; `w` and `e` never lead backwards and
/// `b` never leads forwards.
pub proof fn law_word_motions_stay_in_the_text(s: Seq<char>, i: int)
    requires
        0 <= i < s.len(),
    ensures
        i <= next_word(s, i) < s.len(),
        0 <= prev_word(s, i) <= i,
        i <= end_word(s, i) < s.len(),
{
    lemma_runs(s, i, class_of(s[i]));
    let word = if class_of(s[i]) != 0 {
        run_end(s, i, class_of(s[i]))
    } else {
        i
    };
    lemma_runs(s, word, 0);
    if i > 0 {
        lemma_runs(s, i - 1, 0);
        let j = non_space_down(s, i - 1);
        lemma_runs(s, j, class_of(s[j]));
    }
    if i + 1 < s.len() {
        lemma_non_space_up(s, i + 1);
        let j = non_space_up(s, i + 1);
        if j < s.len() {
            lemma_runs(s, j, class_of(s[j]));
        }
    }
}

/// The offset nearest to `scroll` that keeps `line` among `height` visible
/// rows (one row at least).
pub open spec fn followed(line: int, scroll: int, height: int) -> int {
    let h = if height < 1 {
        1
    } else {
        height
    };
    if line < scroll {
        line
    } else if line >= scroll + h {
        line + 1 - h
    } else {
        scroll
    }
}

pub fn follow_scroll(line: usize, scroll: u16, height: u16) -> (r: u16)
    requires
        line < usize::MAX,
    ensures
        r == followed(line as int, scroll as int, height as int) as u16,
        line <= u16::MAX ==> r == followed(line as int, scroll as int, height as int),
{
    let h: usize = if height > 1 {
        height as usize
    } else {
        1
    };
    let s: usize = scroll as usize;
    if line < s {
        line as u16
    } else if line >= s + h {
        (line + 1 - h) as u16
    } else {
        scroll
    }
}

pub fn follow_hscroll(col: usize, hscroll: u16, width: u16) -> (r: u16)
    requires
        col < usize::MAX,
    ensures
        r == followed(col as int, hscroll as int, width as int) as u16,
        col <= u16::MAX ==> r == followed(col as int, hscroll as int, width as int),
{
    follow_scroll(col, hscroll, width)
}

/// What is followed is visible, and nothing moves that did not have to.
pub proof fn law_follow_scroll_keeps_the_line_in_view(line: int, scroll: int, height: int)
    requires
        0 <= line,
        0 <= scroll,
        1 <= height,
    ensures
        followed(line, scroll, height) <= line < followed(line, scroll, height) + height,
        scroll <= line < scroll + height ==> followed(line, scroll, height) == scroll,
        forall|other: int| other <= line < other + height ==> (followed(line, scroll, height) - scroll) * (
        followed(line, scroll, height) - scroll) <= #[trigger] ((other - scroll) * (other - scroll)),
{
    let f = followed(line, scroll, height);
    assert forall|other: int| other <= line < other + height implies (f - scroll) * (f - scroll)
        <= #[trigger] ((other - scroll) * (other - scroll)) by {
        if f != scroll {
            if line < scroll {
                assert(other - scroll <= f - scroll <= 0);
                assert((f - scroll) * (f - scroll) <= (other - scroll) * (other - scroll))
                    by (nonlinear_arith)
                    requires
                        other - scroll <= f - scroll <= 0,
                ;
            } else {
                assert(other - scroll >= f - scroll >= 0);
                assert((f - scroll) * (f - scroll) <= (other - scroll) * (other - scroll))
                    by (nonlinear_arith)
                    requires
                        other - scroll >= f - scroll >= 0,
                ;
            }
        } else {
            assert((other - scroll) * (other - scroll) >= 0) by (nonlinear_arith);
        }
    }
}

} // verus!
