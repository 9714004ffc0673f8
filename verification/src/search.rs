//! Searching a file's lines: byte and character columns, matches, and which
//! match comes next.

use crate::cursor::Cursor;
use crate::text::{chars_of, eq_at, occurs_at, texts};
use vstd::prelude::*;
use vstd::utf8::{encode_scalar, encode_utf8};

verus! {

/// The number of bytes that UTF-8 spends on a character.
pub open spec fn char_bytes(c: char) -> int {
    let u = c as u32;
    if u < 0x80 {
        1
    } else if u < 0x800 {
        2
    } else if u < 0x1_0000 {
        3
    } else {
        4
    }
}

/// The number of bytes that UTF-8 spends on a text.
pub open spec fn text_bytes(s: Seq<char>) -> int
    decreases s.len(),
{
    if s.len() == 0 {
        0
    } else {
        text_bytes(s.drop_last()) + char_bytes(s.last())
    }
}

proof fn lemma_encode_push(s: Seq<char>, c: char)
    ensures
        encode_utf8(s.push(c)) == encode_utf8(s) + encode_scalar(c as u32),
    decreases s.len(),
{
    if s.len() == 0 {
        assert(s.push(c).drop_first() == Seq::<char>::empty());
        assert(encode_utf8(s.push(c).drop_first()) == Seq::<u8>::empty());
        assert(encode_utf8(s.push(c)) == encode_scalar(c as u32));
    } else {
        lemma_encode_push(s.drop_first(), c);
        assert(s.push(c).drop_first() == s.drop_first().push(c));
        assert(s.push(c)[0] == s[0]);
        assert(encode_utf8(s.push(c)) == encode_scalar(s[0] as u32) + encode_utf8(
            s.drop_first().push(c),
        ));
        assert(encode_utf8(s) == encode_scalar(s[0] as u32) + encode_utf8(s.drop_first()));
    }
}

/// The count of bytes is the length of the encoding.
pub proof fn lemma_text_bytes(s: Seq<char>)
    ensures
        text_bytes(s) == encode_utf8(s).len(),
    decreases s.len(),
{
    if s.len() > 0 {
        lemma_text_bytes(s.drop_last());
        lemma_encode_push(s.drop_last(), s.last());
        assert(s.drop_last().push(s.last()) == s);
        vstd::utf8::char_is_scalar(s.last());
    }
}

pub proof fn lemma_text_bytes_monotone(s: Seq<char>, a: int, b: int)
    requires
        0 <= a <= b <= s.len(),
    ensures
        a <= text_bytes(s.take(a)) <= text_bytes(s.take(b)),
        text_bytes(s.take(b)) - text_bytes(s.take(a)) >= b - a,
    decreases b,
{
    if b > a {
        lemma_text_bytes_monotone(s, a, b - 1);
        assert(s.take(b).drop_last() == s.take(b - 1));
    } else if a > 0 {
        lemma_text_bytes_monotone(s, a - 1, b - 1);
        assert(s.take(b).drop_last() == s.take(b - 1));
    }
}

fn char_len(c: char) -> (r: usize)
    ensures
        r == char_bytes(c),
{
    let u = c as u32;
    if u < 0x80 {
        1
    } else if u < 0x800 {
        2
    } else if u < 0x1_0000 {
        3
    } else {
        4
    }
}

/// The byte at which character column `col` of a line starts; the line's
/// length in bytes where it has no such column.
pub fn char_byte(line: &str, col: usize) -> (r: usize)
    ensures
        r == text_bytes(line@.take(if col < line@.len() {
            col as int
        } else {
            line@.len() as int
        })),
{
    let cs = chars_of(line);
    let total = line.as_bytes().len();
    proof {
        lemma_text_bytes(line@);
        assert(line@.take(line@.len() as int) == line@);
    }
    let mut at: usize = 0;
    let mut i: usize = 0;
    while i < cs.len() && i < col
        invariant
            cs@ == line@,
            i <= cs@.len(),
            i <= col,
            at == text_bytes(line@.take(i as int)),
            total == text_bytes(line@.take(line@.len() as int)),
        decreases cs@.len() - i,
    {
        proof {
            lemma_text_bytes_monotone(line@, i + 1, line@.len() as int);
            assert(line@.take(i + 1).drop_last() == line@.take(i as int));
            assert(line@.take(i + 1).last() == cs@[i as int]);
        }
        at = at + char_len(cs[i]);
        i = i + 1;
    }
    at
}

/// The number of characters of `s`, from `from` on, that start before byte
/// `byte`.
pub open spec fn chars_before(s: Seq<char>, byte: int, from: int) -> int
    decreases s.len() - from,
{
    if from >= s.len() || text_bytes(s.take(from)) >= byte {
        from
    } else {
        chars_before(s, byte, from + 1)
    }
}

/// The character column that byte `byte_col` of a line falls at.
pub fn byte_to_char_col(line: &str, byte_col: usize) -> (r: usize)
    ensures
        r == chars_before(line@, byte_col as int, 0),
        r <= line@.len(),
{
    let cs = chars_of(line);
    let total = line.as_bytes().len();
    proof {
        lemma_text_bytes(line@);
        assert(line@.take(line@.len() as int) == line@);
    }
    let mut at: usize = 0;
    let mut i: usize = 0;
    while i < cs.len() && at < byte_col
        invariant
            cs@ == line@,
            i <= cs@.len(),
            at == text_bytes(line@.take(i as int)),
            total == text_bytes(line@.take(line@.len() as int)),
            chars_before(line@, byte_col as int, 0) == chars_before(line@, byte_col as int, i as int),
        decreases cs@.len() - i,
    {
        proof {
            lemma_text_bytes_monotone(line@, i + 1, line@.len() as int);
            assert(line@.take(i + 1).drop_last() == line@.take(i as int));
            assert(line@.take(i + 1).last() == cs@[i as int]);
        }
        at = at + char_len(cs[i]);
        i = i + 1;
    }
    i
}

proof fn lemma_chars_before(s: Seq<char>, col: int, from: int)
    requires
        0 <= from <= col <= s.len(),
    ensures
        chars_before(s, text_bytes(s.take(col)), from) == col,
    decreases col - from,
{
    if from < col {
        lemma_text_bytes_monotone(s, from, col);
        lemma_chars_before(s, col, from + 1);
    }
}

/// Going from a column to its byte and back gives the column again.
pub proof fn law_byte_to_char_col_undoes_char_byte(s: Seq<char>, col: int)
    requires
        0 <= col <= s.len(),
    ensures
        chars_before(s, text_bytes(s.take(col)), 0) == col,
{
    lemma_chars_before(s, col, 0);
}

/// One match: its line, and the character columns at which it starts and ends.
pub type Match = (usize, usize, usize);

/// Whether match `a` stands before match `b` in the document.
pub open spec fn match_before(a: Match, b: Match) -> bool {
    a.0 < b.0 || (a.0 == b.0 && a.1 < b.1)
}

/// Whether `m` is an occurrence of `pat` in the lines.
pub open spec fn is_match(lines: Seq<Seq<char>>, pat: Seq<char>, m: Match) -> bool {
    m.0 < lines.len() && occurs_at(lines[m.0 as int], pat, m.1 as int) && m.2 == m.1 + pat.len()
}

/// Whether `ms` are the occurrences of a text in the lines, one for each
/// position, in document order. An empty text occurs nowhere.
pub open spec fn text_occurrences(lines: Seq<Seq<char>>, pat: Seq<char>, ms: Seq<Match>) -> bool {
    &&& forall|i: int, j: int| 0 <= i < j < ms.len() ==> match_before(#[trigger] ms[i], #[trigger] ms[j])
    &&& forall|m: Match| #[trigger] ms.contains(m) ==> pat.len() > 0 && is_match(lines, pat, m)
    &&& forall|m: Match| pat.len() > 0 && #[trigger] is_match(lines, pat, m) ==> ms.contains(m)
}

/// Every occurrence of the pattern in the lines, in document order.
pub fn text_matches(lines: &[String], pattern: &str) -> (r: Vec<Match>)
    ensures
        text_occurrences(texts(lines@), pattern@, r@),
{
    let mut out: Vec<Match> = Vec::new();
    let pat = chars_of(pattern);
    let plen = pat.len();
    if plen == 0 {
        return out;
    }
    let ghost ts = texts(lines@);
    for i in 0..lines.len()
        invariant
            ts == texts(lines@),
            pat@ == pattern@,
            plen == pat@.len(),
            plen > 0,
            forall|a: int, b: int|
                0 <= a < b < out@.len() ==> match_before(#[trigger] out@[a], #[trigger] out@[b]),
            forall|a: int| 0 <= a < out@.len() ==> (#[trigger] out@[a]).0 < i && is_match(ts, pat@, out@[a]),
            forall|m: Match| m.0 < i && #[trigger] is_match(ts, pat@, m) ==> out@.contains(m),
    {
        let cs = chars_of(&lines[i]);
        assert(ts[i as int] == cs@);
        let n: usize = cs.len();
        let mut start: usize = 0;
        while start <= n && plen <= n - start
            invariant
                i < lines@.len(),
                start <= n + 1,
                n == cs@.len(),
                ts == texts(lines@),
                ts[i as int] == cs@,
                pat@ == pattern@,
                plen == pat@.len(),
                plen > 0,
                forall|a: int, b: int|
                    0 <= a < b < out@.len() ==> match_before(#[trigger] out@[a], #[trigger] out@[b]),
                forall|a: int|
                    0 <= a < out@.len() ==> ((#[trigger] out@[a]).0 < i || (out@[a].0 == i && out@[a].1
                        < start)) && is_match(ts, pat@, out@[a]),
                forall|m: Match|
                    (m.0 < i || (m.0 == i && m.1 < start)) && #[trigger] is_match(ts, pat@, m)
                        ==> out@.contains(m),
            decreases n + 1 - start,
        {
            let ghost before = out@;
            if eq_at(&cs, &pat, start) {
                let m: Match = (i, start, start + plen);
                out.push(m);
                assert(out@ == before.push(m));
                assert(out@[before.len() as int] == m);
                assert forall|k: Match|
                    (k.0 < i || (k.0 == i && k.1 < start + 1)) && #[trigger] is_match(ts, pat@, k)
                        implies out@.contains(k) by {
                    if k.0 == i && k.1 == start {
                        assert(k == m);
                    } else {
                        assert(before.contains(k));
                        let w = choose|w: int| 0 <= w < before.len() && before[w] == k;
                        assert(out@[w] == k);
                    }
                }
            }
            start = start + 1;
        }
        assert forall|m: Match| m.0 < i + 1 && #[trigger] is_match(ts, pat@, m) implies out@.contains(
            m,
        ) by {
            if m.0 == i {
                assert(m.1 < start);
            }
        }
    }
    assert forall|m: Match| #[trigger] out@.contains(m) implies pattern@.len() > 0 && is_match(
        ts,
        pattern@,
        m,
    ) by {
        let w = choose|w: int| 0 <= w < out@.len() && out@[w] == m;
        assert(is_match(ts, pat@, out@[w]));
    }
    out
}

/// Whether a match starts after the cursor, or at it where that counts.
pub open spec fn after_cursor(m: Match, c: Cursor, inclusive: bool) -> bool {
    m.0 > c.line || (m.0 == c.line && (m.1 > c.col || (inclusive && m.1 == c.col)))
}

/// Whether a match starts before the cursor, or at it where that counts.
pub open spec fn before_cursor(m: Match, c: Cursor, inclusive: bool) -> bool {
    m.0 < c.line || (m.0 == c.line && (m.1 < c.col || (inclusive && m.1 == c.col)))
}

/// The first match after the cursor; the first of all where none is.
pub fn seek_forward(matches: &[Match], cursor: Cursor, inclusive: bool) -> (r: Option<usize>)
    ensures
        match r {
            None => matches@.len() == 0,
            Some(i) => i < matches@.len() && if exists|k: int|
                0 <= k < matches@.len() && after_cursor(#[trigger] matches@[k], cursor, inclusive) {
                after_cursor(matches@[i as int], cursor, inclusive) && forall|k: int|
                    0 <= k < i ==> !after_cursor(#[trigger] matches@[k], cursor, inclusive)
            } else {
                i == 0
            },
        },
{
    for i in 0..matches.len()
        invariant
            forall|k: int|
                0 <= k < i ==> !after_cursor(#[trigger] matches@[k], cursor, inclusive),
    {
        let m = matches[i];
        if m.0 > cursor.line || (m.0 == cursor.line && (m.1 > cursor.col || (inclusive && m.1
            == cursor.col))) {
            assert(after_cursor(matches@[i as int], cursor, inclusive));
            return Some(i);
        }
    }
    if matches.len() == 0 {
        None
    } else {
        Some(0)
    }
}

/// The last match before the cursor; the last of all where none is.
pub fn seek_backward(matches: &[Match], cursor: Cursor, inclusive: bool) -> (r: Option<usize>)
    ensures
        match r {
            None => matches@.len() == 0,
            Some(i) => i < matches@.len() && if exists|k: int|
                0 <= k < matches@.len() && before_cursor(#[trigger] matches@[k], cursor, inclusive) {
                before_cursor(matches@[i as int], cursor, inclusive) && forall|k: int|
                    i < k < matches@.len() ==> !before_cursor(
                        #[trigger] matches@[k],
                        cursor,
                        inclusive,
                    )
            } else {
                i == matches@.len() - 1
            },
        },
{
    let mut i: usize = matches.len();
    while i > 0
        invariant
            i <= matches@.len(),
            forall|k: int|
                i <= k < matches@.len() ==> !before_cursor(
                    #[trigger] matches@[k],
                    cursor,
                    inclusive,
                ),
        decreases i,
    {
        let m = matches[i - 1];
        if m.0 < cursor.line || (m.0 == cursor.line && (m.1 < cursor.col || (inclusive && m.1
            == cursor.col))) {
            assert(before_cursor(matches@[i - 1], cursor, inclusive));
            return Some(i - 1);
        }
        i = i - 1;
    }
    if matches.len() == 0 {
        None
    } else {
        Some(matches.len() - 1)
    }
}

/// The index `dir` steps on from `index` among `len`, wrapping around; 0 among
/// none.
pub open spec fn cycled(index: int, len: int, dir: int) -> int {
    if len <= 0 {
        0
    } else {
        (index + dir) % len
    }
}

pub fn cycle_index(index: usize, len: usize, dir: isize) -> (r: usize)
    ensures
        r == cycled(index as int, len as int, dir as int),
        len > 0 ==> r < len,
{
    if len == 0 {
        return 0;
    }
    let at: i128 = (index as i128) + (dir as i128);
    let n: i128 = len as i128;
    let k: i128 = if at >= 0 {
        at % n
    } else {
        let back: i128 = (-at) % n;
        if back == 0 {
            0
        } else {
            n - back
        }
    };
    proof {
        if at >= 0 {
            assert(0 <= at as int % n as int && at as int % (n as int) < n) by (nonlinear_arith)
                requires
                    n > 0,
            ;
        } else {
            lemma_negative_mod(at as int, n as int);
        }
    }
    k as usize
}

proof fn lemma_negative_mod(a: int, n: int)
    requires
        n > 0,
        a < 0,
    ensures
        0 <= (-a) % n < n,
        a % n == (if (-a) % n == 0 {
            0
        } else {
            n - (-a) % n
        }),
{
    let q = (-a) / n;
    let r = (-a) % n;
    vstd::arithmetic::div_mod::lemma_fundamental_div_mod(-a, n);
    assert(0 <= r < n) by {
        vstd::arithmetic::div_mod::lemma_mod_bound(-a, n);
    }
    assert(-a == n * q + r);
    if r == 0 {
        assert(a == n * (-q)) by (nonlinear_arith)
            requires
                -a == n * q,
        ;
        vstd::arithmetic::div_mod::lemma_fundamental_div_mod_converse(a, n, -q, 0);
    } else {
        assert(a == n * (-q - 1) + (n - r)) by (nonlinear_arith)
            requires
                -a == n * q + r,
        ;
        vstd::arithmetic::div_mod::lemma_fundamental_div_mod_converse(a, n, -q - 1, n - r);
    }
}

/// Stepping on and back again leads to where one was.
pub proof fn law_cycling_back_undoes_cycling(index: int, len: int, dir: int)
    requires
        0 <= index < len,
    ensures
        cycled(cycled(index, len, dir), len, -dir) == index,
        0 <= cycled(index, len, dir) < len,
{
    vstd::arithmetic::div_mod::lemma_mod_bound(index + dir, len);
    vstd::arithmetic::div_mod::lemma_sub_mod_noop(index + dir, dir, len);
    vstd::arithmetic::div_mod::lemma_small_mod(index as nat, len as nat);
    let a = (index + dir) % len;
    vstd::arithmetic::div_mod::lemma_sub_mod_noop(a, dir, len);
    vstd::arithmetic::div_mod::lemma_mod_twice(index + dir, len);
    assert((a - dir) % len == ((a % len) - (dir % len)) % len);
    assert((index + dir - dir) % len == (((index + dir) % len) - (dir % len)) % len);
}

} // verus!
