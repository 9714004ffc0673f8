//! Text as a sequence of characters: the spec functions that contracts speak
//! of, and the executable functions that compute them.

use vstd::prelude::*;
use vstd::relations::{antisymmetric, reflexive, strongly_connected, total_ordering, transitive};

verus! {

/// `String::push` appends one character.
pub assume_specification[ String::push ](s: &mut String, c: char)
    ensures
        final(s)@ == old(s)@.push(c),
;

/// The texts that a sequence of strings holds.
pub open spec fn texts(v: Seq<String>) -> Seq<Seq<char>> {
    Seq::new(v.len(), |i: int| v[i]@)
}

/// Whether `pat` stands in `s` at character `i`.
pub open spec fn occurs_at(s: Seq<char>, pat: Seq<char>, i: int) -> bool {
    0 <= i && i + pat.len() <= s.len() && s.subrange(i, i + pat.len()) == pat
}

pub open spec fn starts_with(s: Seq<char>, pat: Seq<char>) -> bool {
    occurs_at(s, pat, 0)
}

pub open spec fn ends_with(s: Seq<char>, pat: Seq<char>) -> bool {
    occurs_at(s, pat, s.len() - pat.len())
}

/// Whether `pat` stands anywhere in `s`.
pub open spec fn contains_text(s: Seq<char>, pat: Seq<char>) -> bool {
    exists|i: int| occurs_at(s, pat, i)
}

/// The first position at or after `from` at which `pat` stands in `s`, or
/// `s.len() + 1` where there is none.
pub open spec fn find_from(s: Seq<char>, pat: Seq<char>, from: int) -> int
    decreases s.len() + 1 - from,
{
    if from > s.len() {
        s.len() as int + 1
    } else if occurs_at(s, pat, from) {
        from
    } else {
        find_from(s, pat, from + 1)
    }
}

/// The position of the first `c` in `s` at or after `from`, or `s.len()`.
pub open spec fn char_from(s: Seq<char>, c: char, from: int) -> int
    decreases s.len() - from,
{
    if from >= s.len() {
        s.len() as int
    } else if s[from] == c {
        from
    } else {
        char_from(s, c, from + 1)
    }
}

/// The position after the last `c` in `s.take(upto)`, or 0.
pub open spec fn after_last(s: Seq<char>, c: char, upto: int) -> int
    decreases upto,
{
    if upto <= 0 {
        0
    } else if s[upto - 1] == c {
        upto
    } else {
        after_last(s, c, upto - 1)
    }
}

/// The pieces of `s` between the characters `sep`: one more than there are
/// separators.
pub open spec fn split_on(s: Seq<char>, sep: char) -> Seq<Seq<char>>
    decreases s.len(),
{
    let i = char_from(s, sep, 0);
    if i < 0 || i >= s.len() {
        seq![s]
    } else {
        seq![s.take(i)] + split_on(s.skip(i + 1), sep)
    }
}

/// One line without the carriage return that may end it.
pub open spec fn without_cr(s: Seq<char>) -> Seq<char> {
    if s.len() > 0 && s.last() == '\r' {
        s.drop_last()
    } else {
        s
    }
}

/// The lines of `s`: ended by a line feed or by a carriage return and a line
/// feed; the last line may do without.
pub open spec fn lines_of(s: Seq<char>) -> Seq<Seq<char>>
    decreases s.len(),
{
    let i = char_from(s, '\n', 0);
    if s.len() == 0 {
        Seq::empty()
    } else if i < 0 || i >= s.len() {
        seq![s]
    } else {
        seq![without_cr(s.take(i))] + lines_of(s.skip(i + 1))
    }
}

/// The texts of `parts` with `sep` between each two neighbours.
pub open spec fn joined(parts: Seq<Seq<char>>, sep: Seq<char>) -> Seq<char>
    decreases parts.len(),
{
    if parts.len() == 0 {
        Seq::empty()
    } else if parts.len() == 1 {
        parts[0]
    } else {
        joined(parts.drop_last(), sep) + sep + parts.last()
    }
}

/// The characters with Unicode's `White_Space` property.
pub open spec fn is_space(c: char) -> bool {
    let u = c as u32;
    9 <= u <= 13 || u == 0x20 || u == 0x85 || u == 0xA0 || u == 0x1680 || 0x2000 <= u <= 0x200A
        || u == 0x2028 || u == 0x2029 || u == 0x202F || u == 0x205F || u == 0x3000
}

pub open spec fn trim_start(s: Seq<char>) -> Seq<char>
    decreases s.len(),
{
    if s.len() > 0 && is_space(s[0]) {
        trim_start(s.skip(1))
    } else {
        s
    }
}

pub open spec fn trim_end(s: Seq<char>) -> Seq<char>
    decreases s.len(),
{
    if s.len() > 0 && is_space(s.last()) {
        trim_end(s.drop_last())
    } else {
        s
    }
}

/// `s` without the white space at both ends.
pub open spec fn trimmed(s: Seq<char>) -> Seq<char> {
    trim_end(trim_start(s))
}

/// `s` without every leading and trailing `c`.
pub open spec fn strip_both(s: Seq<char>, c: char) -> Seq<char>
    decreases s.len(),
{
    if s.len() > 0 && s[0] == c {
        strip_both(s.skip(1), c)
    } else if s.len() > 0 && s.last() == c {
        strip_both(s.drop_last(), c)
    } else {
        s
    }
}

/// The length of the run of non-space characters that `s` starts with.
pub open spec fn word_len(s: Seq<char>) -> int
    decreases s.len(),
{
    if s.len() > 0 && !is_space(s[0]) {
        1 + word_len(s.skip(1))
    } else {
        0
    }
}

/// The maximal runs of non-space characters in `s`.
pub open spec fn words_of(s: Seq<char>) -> Seq<Seq<char>>
    decreases s.len(),
    via words_of_decreases
{
    let t = trim_start(s);
    let n = word_len(t);
    if t.len() == 0 {
        Seq::empty()
    } else {
        seq![t.take(n)] + words_of(t.skip(n))
    }
}

#[via_fn]
proof fn words_of_decreases(s: Seq<char>) {
    lemma_trim_start_len(s);
    let t = trim_start(s);
    if t.len() > 0 {
        lemma_trim_start_head(s);
        lemma_word_len(t);
        assert(word_len(t) >= 1) by {
            lemma_word_len(t.skip(1));
        }
    }
}

pub proof fn lemma_trim_start_len(s: Seq<char>)
    ensures
        trim_start(s).len() <= s.len(),
        exists|k: int| 0 <= k <= s.len() && trim_start(s) == s.skip(k),
    decreases s.len(),
{
    if s.len() > 0 && is_space(s[0]) {
        lemma_trim_start_len(s.skip(1));
        let k = choose|k: int| 0 <= k <= s.skip(1).len() && trim_start(s.skip(1)) == s.skip(1).skip(k);
        assert(s.skip(1).skip(k) == s.skip(k + 1));
        assert(trim_start(s) == s.skip(k + 1));
    } else {
        assert(s.skip(0) == s);
        assert(trim_start(s) == s.skip(0));
    }
}

pub proof fn lemma_trim_start_head(s: Seq<char>)
    ensures
        trim_start(s).len() > 0 ==> !is_space(trim_start(s)[0]),
    decreases s.len(),
{
    if s.len() > 0 && is_space(s[0]) {
        lemma_trim_start_head(s.skip(1));
    }
}

proof fn lemma_word_len(s: Seq<char>)
    ensures
        0 <= word_len(s) <= s.len(),
        forall|i: int| 0 <= i < word_len(s) ==> !is_space(#[trigger] s[i]),
        word_len(s) < s.len() ==> is_space(s[word_len(s)]),
    decreases s.len(),
{
    if s.len() > 0 && !is_space(s[0]) {
        lemma_word_len(s.skip(1));
        let n = word_len(s.skip(1));
        assert forall|i: int| 0 <= i < n + 1 implies !is_space(#[trigger] s[i]) by {
            if i > 0 {
                assert(s[i] == s.skip(1)[i - 1]);
            }
        }
        if n + 1 < s.len() {
            assert(s[n + 1] == s.skip(1)[n]);
        }
    }
}

/// The decimal digit of `d`.
pub open spec fn digit(d: nat) -> char {
    if d < 10 {
        (48 + d) as char
    } else {
        (87 + d) as char
    }
}

/// `n` written in base `base`, without leading zeros; digits above nine are
/// lower-case letters.
pub open spec fn numeral(n: nat, base: nat) -> Seq<char>
    decreases n,
{
    if base < 2 || n < base {
        seq![digit(n)]
    } else {
        proof {
            assert(n / base < n) by (nonlinear_arith)
                requires
                    base >= 2,
                    n >= base,
            ;
        }
        numeral(n / base, base).push(digit(n % base))
    }
}

/// `n` in decimal.
pub open spec fn decimal(n: int) -> Seq<char> {
    if n < 0 {
        seq!['-'] + numeral((-n) as nat, 10)
    } else {
        numeral(n as nat, 10)
    }
}

pub open spec fn repeated(c: char, n: int) -> Seq<char> {
    Seq::new(if n < 0 { 0 } else { n as nat }, |i: int| c)
}

/// `s` filled on the right with spaces up to `width` characters.
pub open spec fn padded_right(s: Seq<char>, width: int) -> Seq<char> {
    s + repeated(' ', width - s.len())
}

/// `s` filled on the left with `c` up to `width` characters.
pub open spec fn padded_left(s: Seq<char>, c: char, width: int) -> Seq<char> {
    repeated(c, width - s.len()) + s
}

/// `s` with every `from` replaced by `to`.
pub open spec fn replaced(s: Seq<char>, from: char, to: Seq<char>) -> Seq<char>
    decreases s.len(),
{
    if s.len() == 0 {
        Seq::empty()
    } else if s.last() == from {
        replaced(s.drop_last(), from, to) + to
    } else {
        replaced(s.drop_last(), from, to).push(s.last())
    }
}

/// The order of texts by their characters' code points.
pub open spec fn text_le(a: Seq<char>, b: Seq<char>) -> bool
    decreases a.len(),
{
    if a.len() == 0 {
        true
    } else if b.len() == 0 {
        false
    } else if a[0] != b[0] {
        (a[0] as u32) < (b[0] as u32)
    } else {
        text_le(a.skip(1), b.skip(1))
    }
}

pub open spec fn text_order() -> spec_fn(Seq<char>, Seq<char>) -> bool {
    |a: Seq<char>, b: Seq<char>| text_le(a, b)
}

/// The texts of `s` in order.
pub open spec fn sorted_texts(s: Seq<Seq<char>>) -> Seq<Seq<char>> {
    s.sort_by(text_order())
}

/// Whether the texts stand in order.
pub open spec fn in_text_order(s: Seq<Seq<char>>) -> bool {
    forall|i: int, j: int| 0 <= i <= j < s.len() ==> text_le(#[trigger] s[i], #[trigger] s[j])
}

pub proof fn lemma_text_le_reflexive(a: Seq<char>)
    ensures
        text_le(a, a),
    decreases a.len(),
{
    if a.len() > 0 {
        lemma_text_le_reflexive(a.skip(1));
    }
}

pub proof fn lemma_text_le_antisymmetric(a: Seq<char>, b: Seq<char>)
    requires
        text_le(a, b),
        text_le(b, a),
    ensures
        a == b,
    decreases a.len(),
{
    if a.len() > 0 && b.len() > 0 {
        lemma_text_le_antisymmetric(a.skip(1), b.skip(1));
        assert(a == seq![a[0]] + a.skip(1));
        assert(b == seq![b[0]] + b.skip(1));
    } else {
        assert(a == b);
    }
}

pub proof fn lemma_text_le_transitive(a: Seq<char>, b: Seq<char>, c: Seq<char>)
    requires
        text_le(a, b),
        text_le(b, c),
    ensures
        text_le(a, c),
    decreases a.len(),
{
    if a.len() > 0 && b.len() > 0 && c.len() > 0 && a[0] == b[0] && b[0] == c[0] {
        lemma_text_le_transitive(a.skip(1), b.skip(1), c.skip(1));
    }
}

pub proof fn lemma_text_le_total(a: Seq<char>, b: Seq<char>)
    ensures
        text_le(a, b) || text_le(b, a),
    decreases a.len(),
{
    if a.len() > 0 && b.len() > 0 {
        if a[0] == b[0] {
            lemma_text_le_total(a.skip(1), b.skip(1));
        } else {
            vstd::utf8::char_u32_cast(a[0], a[0] as u32);
            vstd::utf8::char_u32_cast(b[0], b[0] as u32);
        }
    }
}

/// Texts are totally ordered.
pub proof fn lemma_text_order_total()
    ensures
        total_ordering(text_order()),
{
    let r = text_order();
    assert forall|a: Seq<char>| #[trigger] r(a, a) by {
        lemma_text_le_reflexive(a);
    }
    assert forall|a: Seq<char>, b: Seq<char>| #[trigger] r(a, b) && #[trigger] r(b, a) implies a == b by {
        lemma_text_le_antisymmetric(a, b);
    }
    assert forall|a: Seq<char>, b: Seq<char>, c: Seq<char>| #[trigger]
        r(a, b) && #[trigger] r(b, c) implies r(a, c) by {
        lemma_text_le_transitive(a, b, c);
    }
    assert forall|a: Seq<char>, b: Seq<char>| #[trigger] r(a, b) || #[trigger] r(b, a) by {
        lemma_text_le_total(a, b);
    }
    assert(reflexive(r));
    assert(antisymmetric(r));
    assert(transitive(r));
    assert(strongly_connected(r));
}

/// Texts that stand in order are what sorting any rearrangement of them gives.
pub proof fn lemma_sorted_texts_unique(s: Seq<Seq<char>>, t: Seq<Seq<char>>)
    requires
        in_text_order(s),
        s.to_multiset() == t.to_multiset(),
    ensures
        s == sorted_texts(t),
{
    lemma_text_order_total();
    t.lemma_sort_by_ensures(text_order());
    assert(vstd::relations::sorted_by(s, text_order())) by {
        assert forall|i: int, j: int| 0 <= i < j < s.len() implies (text_order())(s[i], s[j]) by {
            assert(text_le(s[i], s[j]));
        }
    }
    vstd::seq_lib::lemma_sorted_unique(s, sorted_texts(t), text_order());
}

/// The characters of `s`, in order.
pub fn chars_of(s: &str) -> (r: Vec<char>)
    ensures
        r@ == s@,
{
    let mut r: Vec<char> = Vec::new();
    for c in it: s.chars()
        invariant
            r@ == s@.take(it.index() as int),
            it.seq() == s@,
    {
        r.push(c);
        assert(s@.take(it.index() as int + 1) == s@.take(it.index() as int).push(c));
    }
    assert(s@.take(s@.len() as int) == s@);
    r
}

/// The string made of `cs[from..to]`.
pub fn slice_string(cs: &[char], from: usize, to: usize) -> (r: String)
    requires
        from <= to <= cs@.len(),
    ensures
        r@ == cs@.subrange(from as int, to as int),
{
    let mut r = String::new();
    let mut i: usize = from;
    while i < to
        invariant
            from <= i <= to <= cs@.len(),
            r@ == cs@.subrange(from as int, i as int),
        decreases to - i,
    {
        r.push(cs[i]);
        assert(cs@.subrange(from as int, i as int + 1) == cs@.subrange(from as int, i as int).push(
            cs@[i as int],
        ));
        i = i + 1;
    }
    r
}

/// The string made of all of `cs`.
pub fn string_of(cs: &[char]) -> (r: String)
    ensures
        r@ == cs@,
{
    let r = slice_string(cs, 0, cs.len());
    assert(cs@.subrange(0, cs@.len() as int) == cs@);
    r
}

/// Whether two texts are the same.
pub fn same(a: &str, b: &str) -> (r: bool)
    ensures
        r == (a@ == b@),
{
    a.to_owned() == b.to_owned()
}

/// Whether two optional texts are the same.
pub fn same_option(a: &Option<String>, b: &Option<String>) -> (r: bool)
    ensures
        r == (option_text(*a) == option_text(*b)),
{
    match (a, b) {
        (Some(x), Some(y)) => same(x, y),
        (None, None) => true,
        _ => false,
    }
}

/// The text that an optional string holds.
pub open spec fn option_text(s: Option<String>) -> Option<Seq<char>> {
    match s {
        Some(t) => Some(t@),
        None => None,
    }
}

/// A copy of each string.
pub fn copy_strings(v: &[String]) -> (r: Vec<String>)
    ensures
        texts(r@) == texts(v@),
        r@ == v@,
{
    let mut r: Vec<String> = Vec::new();
    for i in 0..v.len()
        invariant
            r@ == v@.take(i as int),
    {
        r.push(v[i].clone());
        assert(v@.take(i as int + 1) == v@.take(i as int).push(v@[i as int]));
    }
    assert(v@.take(v@.len() as int) == v@);
    r
}

pub fn eq_at(s: &[char], pat: &[char], i: usize) -> (r: bool)
    requires
        i <= s@.len(),
    ensures
        r == occurs_at(s@, pat@, i as int),
{
    let n: usize = s.len();
    if pat.len() > n - i {
        return false;
    }
    for k in 0..pat.len()
        invariant
            n == s@.len(),
            i + pat@.len() <= n,
            s@.subrange(i as int, i + k) == pat@.take(k as int),
    {
        if s[i + k] != pat[k] {
            assert(s@.subrange(i as int, i + pat@.len())[k as int] != pat@[k as int]);
            return false;
        }
        assert(s@.subrange(i as int, i + k + 1) == s@.subrange(i as int, i + k).push(s@[i + k]));
        assert(pat@.take(k + 1) == pat@.take(k as int).push(pat@[k as int]));
    }
    assert(pat@.take(pat@.len() as int) == pat@);
    true
}

/// The first position at or after `from` at which `pat` stands in `s`.
pub fn find(s: &[char], pat: &[char], from: usize) -> (r: Option<usize>)
    requires
        from <= s@.len(),
    ensures
        match r {
            Some(i) => i == find_from(s@, pat@, from as int) && from <= i <= s@.len() && occurs_at(
                s@,
                pat@,
                i as int,
            ),
            None => find_from(s@, pat@, from as int) == s@.len() + 1,
        },
{
    let mut i: usize = from;
    loop
        invariant
            from <= i <= s@.len(),
            find_from(s@, pat@, from as int) == find_from(s@, pat@, i as int),
        decreases s@.len() - i,
    {
        if eq_at(s, pat, i) {
            return Some(i);
        }
        if i == s.len() {
            assert(find_from(s@, pat@, i + 1) == s@.len() + 1);
            return None;
        }
        i = i + 1;
    }
}

pub proof fn lemma_find_from(s: Seq<char>, pat: Seq<char>, from: int)
    requires
        0 <= from,
    ensures
        forall|i: int| from <= i < find_from(s, pat, from) ==> !occurs_at(s, pat, i),
        find_from(s, pat, from) <= s.len() ==> occurs_at(s, pat, find_from(s, pat, from))
            && find_from(s, pat, from) >= from,
        from <= s.len() + 1 ==> find_from(s, pat, from) <= s.len() + 1,
    decreases s.len() + 1 - from,
{
    if from <= s.len() && !occurs_at(s, pat, from) {
        lemma_find_from(s, pat, from + 1);
    }
}

/// Whether `pat` stands anywhere in `s`.
pub fn has_text(s: &str, pat: &str) -> (r: bool)
    ensures
        r == contains_text(s@, pat@),
{
    let cs = chars_of(s);
    let ps = chars_of(pat);
    proof {
        lemma_find_from(s@, pat@, 0);
    }
    match find(&cs, &ps, 0) {
        Some(i) => true,
        None => {
            assert(!contains_text(s@, pat@)) by {
                assert forall|i: int| !occurs_at(s@, pat@, i) by {
                    if occurs_at(s@, pat@, i) {
                        assert(i < find_from(s@, pat@, 0));
                    }
                }
            }
            false
        },
    }
}

pub fn has_prefix(s: &str, pat: &str) -> (r: bool)
    ensures
        r == starts_with(s@, pat@),
{
    eq_at(&chars_of(s), &chars_of(pat), 0)
}

pub fn has_suffix(s: &str, pat: &str) -> (r: bool)
    ensures
        r == ends_with(s@, pat@),
{
    let cs = chars_of(s);
    let ps = chars_of(pat);
    if ps.len() > cs.len() {
        false
    } else {
        eq_at(&cs, &ps, cs.len() - ps.len())
    }
}

/// The text after `pat`, where `s` starts with it.
pub fn strip_prefix(s: &str, pat: &str) -> (r: Option<String>)
    ensures
        match r {
            Some(t) => starts_with(s@, pat@) && t@ == s@.skip(pat@.len() as int),
            None => !starts_with(s@, pat@),
        },
{
    let cs = chars_of(s);
    let ps = chars_of(pat);
    if eq_at(&cs, &ps, 0) {
        assert(cs@.subrange(pat@.len() as int, cs@.len() as int) == s@.skip(pat@.len() as int));
        Some(slice_string(&cs, ps.len(), cs.len()))
    } else {
        None
    }
}

/// The text before `pat`, where `s` ends with it.
pub fn strip_suffix(s: &str, pat: &str) -> (r: Option<String>)
    ensures
        match r {
            Some(t) => ends_with(s@, pat@) && t@ == s@.take(s@.len() - pat@.len()),
            None => !ends_with(s@, pat@),
        },
{
    let cs = chars_of(s);
    let ps = chars_of(pat);
    if ps.len() <= cs.len() && eq_at(&cs, &ps, cs.len() - ps.len()) {
        assert(cs@.subrange(0, cs@.len() - pat@.len()) == s@.take(s@.len() - pat@.len()));
        Some(slice_string(&cs, 0, cs.len() - ps.len()))
    } else {
        None
    }
}

/// The position of the first `c` at or after `from`, or the length.
pub fn find_char(s: &[char], c: char, from: usize) -> (r: usize)
    requires
        from <= s@.len(),
    ensures
        r == char_from(s@, c, from as int),
        from <= r <= s@.len(),
        r < s@.len() ==> s@[r as int] == c,
{
    let mut i: usize = from;
    while i < s.len()
        invariant
            from <= i <= s@.len(),
            char_from(s@, c, from as int) == char_from(s@, c, i as int),
        decreases s@.len() - i,
    {
        if s[i] == c {
            return i;
        }
        i = i + 1;
    }
    i
}

pub proof fn lemma_char_from(s: Seq<char>, c: char, from: int)
    requires
        0 <= from <= s.len(),
    ensures
        from <= char_from(s, c, from) <= s.len(),
        char_from(s, c, from) < s.len() ==> s[char_from(s, c, from)] == c,
        forall|i: int| from <= i < char_from(s, c, from) ==> s[i] != c,
    decreases s.len() - from,
{
    if from < s.len() && s[from] != c {
        lemma_char_from(s, c, from + 1);
    }
}

/// Searching from a later start is searching what is left after it.
pub proof fn lemma_char_from_skip(s: Seq<char>, c: char, from: int)
    requires
        0 <= from <= s.len(),
    ensures
        char_from(s.skip(from), c, 0) + from == char_from(s, c, from),
{
    lemma_char_from(s, c, from);
    lemma_char_from(s.skip(from), c, 0);
    let a = char_from(s.skip(from), c, 0);
    let b = char_from(s, c, from);
    if a + from < b {
        assert(s[a + from] == s.skip(from)[a]);
    } else if b < a + from {
        assert(s.skip(from)[b - from] == s[b]);
    }
}

/// The pieces of `s` between the characters `sep`.
pub fn split_text(s: &str, sep: char) -> (r: Vec<String>)
    ensures
        texts(r@) == split_on(s@, sep),
{
    let cs = chars_of(s);
    let mut out: Vec<String> = Vec::new();
    let mut start: usize = 0;
    assert(s@.skip(0) == s@);
    loop
        invariant
            start <= cs@.len(),
            cs@ == s@,
            texts(out@) + split_on(s@.skip(start as int), sep) == split_on(s@, sep),
        decreases cs@.len() - start,
    {
        let i = find_char(&cs, sep, start);
        let ghost rest = s@.skip(start as int);
        proof {
            lemma_char_from_skip(s@, sep, start as int);
            assert(rest.take(i - start) == cs@.subrange(start as int, i as int));
        }
        let ghost before = texts(out@);
        let piece = slice_string(&cs, start, i);
        out.push(piece);
        assert(texts(out@) == before.push(piece@));
        if i == cs.len() {
            assert(rest.take(i - start) == rest);
            assert(texts(out@) == before + seq![rest]);
            return out;
        }
        assert(rest.skip(i - start + 1) == s@.skip(i + 1));
        assert(texts(out@) + split_on(s@.skip(i + 1), sep) == before + (seq![rest.take(i - start)]
            + split_on(rest.skip(i - start + 1), sep)));
        start = i + 1;
    }
}

/// The lines of `s`.
pub fn split_lines(s: &str) -> (r: Vec<String>)
    ensures
        texts(r@) == lines_of(s@),
{
    let cs = chars_of(s);
    let mut out: Vec<String> = Vec::new();
    let mut start: usize = 0;
    assert(s@.skip(0) == s@);
    while start < cs.len()
        invariant
            start <= cs@.len(),
            cs@ == s@,
            texts(out@) + lines_of(s@.skip(start as int)) == lines_of(s@),
        decreases cs@.len() - start,
    {
        let i = find_char(&cs, '\n', start);
        let ghost rest = s@.skip(start as int);
        proof {
            lemma_char_from_skip(s@, '\n', start as int);
        }
        let ghost before = texts(out@);
        if i == cs.len() {
            let piece = slice_string(&cs, start, i);
            assert(piece@ == rest);
            out.push(piece);
            assert(texts(out@) == before.push(piece@));
            assert(texts(out@) == before + seq![rest]);
            return out;
        }
        let end = if i > start && cs[i - 1] == '\r' {
            i - 1
        } else {
            i
        };
        let piece = slice_string(&cs, start, end);
        assert(piece@ == without_cr(rest.take(i - start)));
        out.push(piece);
        assert(texts(out@) == before.push(piece@));
        assert(rest.skip(i - start + 1) == s@.skip(i + 1));
        assert(texts(out@) + lines_of(s@.skip(i + 1)) == before + (seq![without_cr(
            rest.take(i - start),
        )] + lines_of(rest.skip(i - start + 1))));
        start = i + 1;
    }
    assert(lines_of(s@.skip(start as int)) == Seq::<Seq<char>>::empty());
    assert(texts(out@) + Seq::<Seq<char>>::empty() == texts(out@));
    out
}

/// The texts of `parts` with `sep` between each two neighbours.
pub fn join(parts: &[String], sep: &str) -> (r: String)
    ensures
        r@ == joined(texts(parts@), sep@),
{
    let mut r = String::new();
    for i in 0..parts.len()
        invariant
            r@ == joined(texts(parts@).take(i as int), sep@),
    {
        proof {
            let t = texts(parts@).take(i + 1);
            assert(t.drop_last() == texts(parts@).take(i as int));
            assert(t.last() == parts@[i as int]@);
            if i == 0 {
                assert(texts(parts@).take(0) == Seq::<Seq<char>>::empty());
                assert(r@ == Seq::<char>::empty());
                assert(Seq::<char>::empty() + parts@[0]@ == parts@[0]@);
            }
        }
        if i > 0 {
            r.append(sep);
        }
        r.append(&parts[i]);
    }
    assert(texts(parts@).take(parts@.len() as int) == texts(parts@));
    r
}

pub fn space(c: char) -> (r: bool)
    ensures
        r == is_space(c),
{
    let u = c as u32;
    (9 <= u && u <= 13) || u == 0x20 || u == 0x85 || u == 0xA0 || u == 0x1680 || (0x2000 <= u && u
        <= 0x200A) || u == 0x2028 || u == 0x2029 || u == 0x202F || u == 0x205F || u == 0x3000
}

/// The position of the first character of `s` that is no white space, or the
/// length.
fn first_non_space(s: &[char]) -> (r: usize)
    ensures
        r <= s@.len(),
        trim_start(s@) == s@.skip(r as int),
{
    let mut i: usize = 0;
    assert(s@.skip(0) == s@);
    while i < s.len() && space(s[i])
        invariant
            i <= s@.len(),
            trim_start(s@) == trim_start(s@.skip(i as int)),
        decreases s@.len() - i,
    {
        assert(s@.skip(i as int).skip(1) == s@.skip(i + 1));
        i = i + 1;
    }
    i
}

/// `s` without the white space at both ends.
pub fn trim(s: &str) -> (r: String)
    ensures
        r@ == trimmed(s@),
{
    let cs = chars_of(s);
    let from = first_non_space(&cs);
    let mut to: usize = cs.len();
    let ghost t = s@.skip(from as int);
    assert(t.take(to - from) == t);
    while to > from && space(cs[to - 1])
        invariant
            from <= to <= cs@.len(),
            cs@ == s@,
            t == s@.skip(from as int),
            trim_end(t) == trim_end(t.take(to - from)),
        decreases to,
    {
        assert(t.take(to - from).drop_last() == t.take(to - from - 1));
        to = to - 1;
    }
    assert(t.take(to - from) == cs@.subrange(from as int, to as int));
    slice_string(&cs, from, to)
}

/// `s` without the white space at its start.
pub fn trim_left(s: &str) -> (r: String)
    ensures
        r@ == trim_start(s@),
{
    let cs = chars_of(s);
    let from = first_non_space(&cs);
    assert(s@.skip(from as int) == cs@.subrange(from as int, cs@.len() as int));
    slice_string(&cs, from, cs.len())
}

/// `s` without the white space at its end.
pub fn trim_right(s: &str) -> (r: String)
    ensures
        r@ == trim_end(s@),
{
    let cs = chars_of(s);
    let mut to: usize = cs.len();
    assert(s@.take(to as int) == s@);
    while to > 0 && space(cs[to - 1])
        invariant
            to <= cs@.len(),
            cs@ == s@,
            trim_end(s@) == trim_end(s@.take(to as int)),
        decreases to,
    {
        assert(s@.take(to as int).drop_last() == s@.take(to - 1));
        to = to - 1;
    }
    assert(s@.take(to as int) == cs@.subrange(0, to as int));
    slice_string(&cs, 0, to)
}

/// `s` without every leading and trailing `c`.
pub fn trim_char(s: &str, c: char) -> (r: String)
    ensures
        r@ == strip_both(s@, c),
{
    let cs = chars_of(s);
    let mut from: usize = 0;
    let mut to: usize = cs.len();
    assert(s@.subrange(0, s@.len() as int) == s@);
    loop
        invariant
            from <= to <= cs@.len(),
            cs@ == s@,
            strip_both(s@, c) == strip_both(s@.subrange(from as int, to as int), c),
        decreases to - from,
    {
        let ghost w = s@.subrange(from as int, to as int);
        if from < to && cs[from] == c {
            assert(w.skip(1) == s@.subrange(from + 1, to as int));
            from = from + 1;
        } else if from < to && cs[to - 1] == c {
            assert(w.drop_last() == s@.subrange(from as int, to - 1));
            to = to - 1;
        } else {
            return slice_string(&cs, from, to);
        }
    }
}

/// The maximal runs of non-space characters in `s`.
pub fn split_words(s: &str) -> (r: Vec<String>)
    ensures
        texts(r@) == words_of(s@),
{
    let cs = chars_of(s);
    let mut out: Vec<String> = Vec::new();
    let mut i: usize = 0;
    assert(s@.skip(0) == s@);
    loop
        invariant
            i <= cs@.len(),
            cs@ == s@,
            texts(out@) + words_of(s@.skip(i as int)) == words_of(s@),
        decreases cs@.len() - i,
    {
        let ghost rest = s@.skip(i as int);
        let ghost i0 = i;
        while i < cs.len() && space(cs[i])
            invariant
                i <= cs@.len(),
                i0 <= i,
                cs@ == s@,
                trim_start(rest) == trim_start(s@.skip(i as int)),
            decreases cs@.len() - i,
        {
            assert(s@.skip(i as int).skip(1) == s@.skip(i + 1));
            i = i + 1;
        }
        let ghost t = s@.skip(i as int);
        assert(trim_start(rest) == t);
        if i == cs.len() {
            assert(words_of(rest) == Seq::<Seq<char>>::empty());
            assert(texts(out@) + Seq::<Seq<char>>::empty() == texts(out@));
            return out;
        }
        let start = i;
        assert(t.skip(0) == t);
        while i < cs.len() && !space(cs[i])
            invariant
                start <= i <= cs@.len(),
                cs@ == s@,
                t == s@.skip(start as int),
                word_len(t) == (i - start) + word_len(t.skip(i - start)),
            decreases cs@.len() - i,
        {
            assert(t.skip(i - start)[0] == cs@[i as int]);
            assert(t.skip(i - start).skip(1) == t.skip(i - start + 1));
            i = i + 1;
        }
        assert(word_len(t) == i - start) by {
            if i < cs@.len() {
                assert(t.skip(i - start)[0] == cs@[i as int]);
            }
        }
        let ghost before = texts(out@);
        let piece = slice_string(&cs, start, i);
        assert(piece@ == t.take(i - start));
        out.push(piece);
        assert(texts(out@) == before.push(piece@));
        assert(t.skip(i - start) == s@.skip(i as int));
        assert(texts(out@) + words_of(s@.skip(i as int)) == before + (seq![t.take(i - start)]
            + words_of(t.skip(i - start))));
    }
}

fn digit_char(d: u64) -> (r: char)
    requires
        d < 16,
    ensures
        r == digit(d as nat),
{
    if d < 10 {
        (48 + d as u8) as char
    } else {
        (87 + d as u8) as char
    }
}

fn numeral_of(n: u64, base: u64) -> (r: String)
    requires
        2 <= base <= 16,
    ensures
        r@ == numeral(n as nat, base as nat),
    decreases n,
{
    if n < base {
        let mut s = String::new();
        s.push(digit_char(n));
        assert(s@ == seq![digit(n as nat)]);
        s
    } else {
        assert(n / base < n) by (nonlinear_arith)
            requires
                base >= 2,
                n >= base,
        ;
        assert(n % base < base) by (nonlinear_arith)
            requires
                base >= 2,
        ;
        let mut s = numeral_of(n / base, base);
        s.push(digit_char(n % base));
        s
    }
}

/// `n` in decimal.
pub fn number(n: usize) -> (r: String)
    ensures
        r@ == decimal(n as int),
{
    numeral_of(n as u64, 10)
}

/// `n` in decimal.
pub fn signed_number(n: i64) -> (r: String)
    ensures
        r@ == decimal(n as int),
{
    if n < 0 {
        let m: u64 = if n == i64::MIN {
            0x8000_0000_0000_0000
        } else {
            (-n) as u64
        };
        proof {
            reveal_strlit("-");
            assert("-"@ == seq!['-']);
        }
        "-".to_owned().concat(&numeral_of(m, 10))
    } else {
        numeral_of(n as u64, 10)
    }
}

/// `n` in lower-case hexadecimal, filled with zeros to sixteen digits.
pub fn hex16(n: u64) -> (r: String)
    ensures
        r@ == padded_left(numeral(n as nat, 16), '0', 16),
{
    pad_left(&numeral_of(n, 16), '0', 16)
}

/// `n` copies of `c`.
pub fn repeat(c: char, n: usize) -> (r: String)
    ensures
        r@ == repeated(c, n as int),
{
    let mut r = String::new();
    for i in 0..n
        invariant
            r@ == repeated(c, i as int),
    {
        r.push(c);
        assert(repeated(c, i + 1) == repeated(c, i as int).push(c));
    }
    r
}

/// The number of characters in `s`.
pub fn width(s: &str) -> (r: usize)
    ensures
        r == s@.len(),
{
    s.unicode_len()
}

/// `s` filled on the right with spaces up to `width` characters.
pub fn pad_right(s: &str, to: usize) -> (r: String)
    ensures
        r@ == padded_right(s@, to as int),
{
    let n = width(s);
    let fill: usize = if to > n {
        to - n
    } else {
        0
    };
    let pad = repeat(' ', fill);
    assert(pad@ == repeated(' ', to - s@.len()));
    s.to_owned().concat(&pad)
}

/// `s` filled on the left with `c` up to `width` characters.
pub fn pad_left(s: &str, c: char, to: usize) -> (r: String)
    ensures
        r@ == padded_left(s@, c, to as int),
{
    let n = width(s);
    let fill: usize = if to > n {
        to - n
    } else {
        0
    };
    let pad = repeat(c, fill);
    assert(pad@ == repeated(c, to - s@.len()));
    pad.concat(s)
}

/// `s` with every `from` replaced by `to`.
pub fn replace(s: &str, from: char, to: &str) -> (r: String)
    ensures
        r@ == replaced(s@, from, to@),
{
    let cs = chars_of(s);
    let mut r = String::new();
    for i in 0..cs.len()
        invariant
            cs@ == s@,
            r@ == replaced(s@.take(i as int), from, to@),
    {
        assert(s@.take(i + 1).drop_last() == s@.take(i as int));
        assert(s@.take(i + 1).last() == cs@[i as int]);
        if cs[i] == from {
            r.append(to);
        } else {
            r.push(cs[i]);
        }
    }
    assert(s@.take(s@.len() as int) == s@);
    r
}

/// Whether `a` comes no later than `b`.
pub fn le(a: &str, b: &str) -> (r: bool)
    ensures
        r == text_le(a@, b@),
{
    let x = chars_of(a);
    let y = chars_of(b);
    let mut i: usize = 0;
    assert(a@.skip(0) == a@ && b@.skip(0) == b@);
    while i < x.len() && i < y.len()
        invariant
            i <= x@.len(),
            i <= y@.len(),
            x@ == a@,
            y@ == b@,
            text_le(a@, b@) == text_le(a@.skip(i as int), b@.skip(i as int)),
        decreases x@.len() - i,
    {
        if x[i] != y[i] {
            return (x[i] as u32) < (y[i] as u32);
        }
        assert(a@.skip(i as int).skip(1) == a@.skip(i + 1));
        assert(b@.skip(i as int).skip(1) == b@.skip(i + 1));
        i = i + 1;
    }
    i == x.len()
}

/// The texts of `v` in order.
pub fn sort(v: Vec<String>) -> (r: Vec<String>)
    ensures
        texts(r@) == sorted_texts(texts(v@)),
{
    let mut r: Vec<String> = Vec::new();
    let n = v.len();
    assert(texts(v@).take(0) == texts(r@));
    for i in 0..n
        invariant
            n == v@.len(),
            in_text_order(texts(r@)),
            texts(r@).to_multiset() == texts(v@).take(i as int).to_multiset(),
    {
        let mut k: usize = r.len();
        let ghost x = v@[i as int]@;
        while k > 0 && !le(&r[k - 1], &v[i])
            invariant
                k <= r@.len(),
                i < v@.len(),
                x == v@[i as int]@,
                forall|j: int| k <= j < r@.len() ==> !text_le(#[trigger] r@[j]@, x),
            decreases k,
        {
            k = k - 1;
        }
        let ghost before = texts(r@);
        r.insert(k, v[i].clone());
        proof {
            let after = texts(r@);
            assert(after == before.insert(k as int, x));
            before.insert_ensures(k as int, x);
            vstd::seq_lib::to_multiset_insert(before, k as int, x);
            assert(texts(v@).take(i + 1) == texts(v@).take(i as int).push(x));
            broadcast use vstd::seq_lib::group_to_multiset_ensures;

            assert forall|a: int, b: int| 0 <= a <= b < after.len() implies text_le(
                #[trigger] after[a],
                #[trigger] after[b],
            ) by {
                if a == b {
                    lemma_text_le_reflexive(after[a]);
                } else if b < k {
                    assert(text_le(before[a], before[b]));
                } else if a > k {
                    assert(text_le(before[a - 1], before[b - 1]));
                } else if a == k {
                    assert(!text_le(r@[b]@, x));
                    lemma_text_le_total(before[b - 1], x);
                } else {
                    assert(text_le(before[k - 1], x));
                    assert(text_le(before[a], before[k - 1]));
                    lemma_text_le_transitive(before[a], before[k - 1], x);
                    if b > k {
                        lemma_text_le_total(before[b - 1], x);
                        lemma_text_le_transitive(before[a], x, before[b - 1]);
                    }
                }
            }
        }
    }
    assert(texts(v@).take(v@.len() as int) == texts(v@));
    proof {
        lemma_sorted_texts_unique(texts(r@), texts(v@));
    }
    r
}

/// The value of a digit of base 10 or 16, where `c` is one.
pub open spec fn digit_value(c: char, base: int) -> Option<int> {
    if '0' <= c <= '9' {
        Some((c as u32) - 48)
    } else if base == 16 && 'a' <= c <= 'f' {
        Some((c as u32) - 87)
    } else if base == 16 && 'A' <= c <= 'F' {
        Some((c as u32) - 55)
    } else {
        None
    }
}

/// The number that a row of digits writes, where all of them are digits.
pub open spec fn digits_value(s: Seq<char>, base: int) -> Option<int>
    decreases s.len(),
{
    if s.len() == 0 {
        Some(0)
    } else {
        match (digits_value(s.drop_last(), base), digit_value(s.last(), base)) {
            (Some(n), Some(d)) => Some(n * base + d),
            _ => None,
        }
    }
}

/// The unsigned number that `s` writes: a plus sign or none, then at least one
/// digit, and no more than `max`.
pub open spec fn parsed_number(s: Seq<char>, base: int, max: int) -> Option<int> {
    let t = if s.len() > 0 && s[0] == '+' {
        s.skip(1)
    } else {
        s
    };
    if t.len() == 0 {
        None
    } else {
        match digits_value(t, base) {
            Some(n) => if n <= max {
                Some(n)
            } else {
                None
            },
            None => None,
        }
    }
}

fn digit_of(c: char, base: u64) -> (r: Option<u64>)
    requires
        base == 10 || base == 16,
    ensures
        match r {
            Some(d) => digit_value(c, base as int) == Some(d as int) && d < base,
            None => digit_value(c, base as int) is None,
        },
{
    let u = c as u32;
    if 48 <= u && u <= 57 {
        Some((u - 48) as u64)
    } else if base == 16 && 97 <= u && u <= 102 {
        Some((u - 87) as u64)
    } else if base == 16 && 65 <= u && u <= 70 {
        Some((u - 55) as u64)
    } else {
        None
    }
}

proof fn lemma_digits_value(s: Seq<char>, base: int, k: int)
    requires
        0 <= k <= s.len(),
        base == 10 || base == 16,
    ensures
        digits_value(s.take(k), base) is None ==> digits_value(s, base) is None,
        digits_value(s, base) is Some ==> 0 <= digits_value(s.take(k), base)->0 <= digits_value(s, base)->0,
    decreases s.len() - k,
{
    if k < s.len() {
        lemma_digits_value(s, base, k + 1);
        assert(s.take(k + 1).drop_last() == s.take(k));
        lemma_digits_nonneg(s.take(k), base);
        if digits_value(s.take(k + 1), base) is Some {
            let n = digits_value(s.take(k), base)->0;
            assert(n <= n * base) by (nonlinear_arith)
                requires
                    n >= 0,
                    base >= 1,
            ;
        }
    } else {
        assert(s.take(k) == s);
        lemma_digits_nonneg(s, base);
    }
}

proof fn lemma_digits_nonneg(s: Seq<char>, base: int)
    requires
        base == 10 || base == 16,
    ensures
        digits_value(s, base) is Some ==> digits_value(s, base)->0 >= 0,
    decreases s.len(),
{
    if s.len() > 0 {
        lemma_digits_nonneg(s.drop_last(), base);
        if digits_value(s, base) is Some {
            let n = digits_value(s.drop_last(), base)->0;
            assert(n * base >= 0) by (nonlinear_arith)
                requires
                    n >= 0,
                    base >= 0,
            ;
        }
    }
}

/// The unsigned number that `s` writes in base 10 or 16, if it is no more than
/// `max`.
pub fn parse_number(s: &str, base: u64, max: u64) -> (r: Option<u64>)
    requires
        base == 10 || base == 16,
    ensures
        match r {
            Some(n) => parsed_number(s@, base as int, max as int) == Some(n as int),
            None => parsed_number(s@, base as int, max as int) is None,
        },
{
    let cs = chars_of(s);
    let from: usize = if cs.len() > 0 && cs[0] == '+' {
        1
    } else {
        0
    };
    let ghost t = if s@.len() > 0 && s@[0] == '+' {
        s@.skip(1)
    } else {
        s@
    };
    assert(t == s@.skip(from as int));
    if from == cs.len() {
        return None;
    }
    let mut n: u64 = 0;
    let mut i: usize = from;
    while i < cs.len()
        invariant
            base == 10 || base == 16,
            cs@ == s@,
            from <= i <= cs@.len(),
            t == s@.skip(from as int),
            t.len() > 0,
            parsed_number(s@, base as int, max as int) == (match digits_value(t, base as int) {
                Some(n) => if n <= max {
                    Some(n)
                } else {
                    None
                },
                None => None,
            }),
            digits_value(t.take(i - from), base as int) == Some(n as int),
            n <= max,
        decreases cs@.len() - i,
    {
        proof {
            lemma_digits_value(t, base as int, i - from + 1);
            assert(t.take(i - from + 1).drop_last() == t.take(i - from));
            assert(t.take(i - from + 1).last() == cs@[i as int]);
        }
        let d = match digit_of(cs[i], base) {
            Some(d) => d,
            None => {
                return None;
            },
        };
        let next: u128 = (n as u128) * (base as u128) + (d as u128);
        assert(digits_value(t.take(i - from + 1), base as int) == Some(next as int));
        if next > max as u128 {
            return None;
        }
        n = next as u64;
        i = i + 1;
    }
    assert(t.take(i - from) == t);
    Some(n)
}

proof fn lemma_digit_round_trip(d: nat)
    requires
        d < 10,
    ensures
        digit_value(digit(d), 10) == Some(d as int),
        !is_space(digit(d)),
        digit(d) != '+',
        digit(d) != '-',
{
}

proof fn lemma_numeral_round_trip(n: nat)
    ensures
        digits_value(numeral(n, 10), 10) == Some(n as int),
        numeral(n, 10).len() > 0,
        numeral(n, 10)[0] != '+',
        numeral(n, 10)[0] != '-',
        forall|i: int| 0 <= i < numeral(n, 10).len() ==> '0' <= #[trigger] numeral(n, 10)[i] <= '9',
    decreases n,
{
    if n < 10 {
        lemma_digit_round_trip(n);
        let s = numeral(n, 10);
        assert(s == seq![digit(n)]);
        assert(s.drop_last() == Seq::<char>::empty());
        assert(digits_value(s.drop_last(), 10) == Some(0int));
    } else {
        lemma_numeral_round_trip(n / 10);
        lemma_digit_round_trip(n % 10);
        let s = numeral(n, 10);
        assert(s.drop_last() == numeral(n / 10, 10));
        assert(s[0] == numeral(n / 10, 10)[0]);
        assert forall|i: int| 0 <= i < s.len() implies '0' <= #[trigger] s[i] <= '9' by {
            if i < s.len() - 1 {
                assert(s[i] == numeral(n / 10, 10)[i]);
            }
        }
    }
}

/// Reading a number's decimal text gives the number again.
pub proof fn lemma_decimal_round_trip(n: nat)
    ensures
        decimal(n as int).len() > 0,
        !is_space(decimal(n as int)[0]),
        !is_space(decimal(n as int).last()),
        forall|i: int| 0 <= i < decimal(n as int).len() ==> '0' <= #[trigger] decimal(n as int)[i] <= '9',
        forall|max: int| n <= max ==> #[trigger] parsed_number(decimal(n as int), 10, max) == Some(n as int),
{
    lemma_numeral_round_trip(n);
    assert(decimal(n as int) == numeral(n, 10));
}

/// Whether a text is one word: it is not empty, and nothing in it is white space.
pub open spec fn is_word(s: Seq<char>) -> bool {
    s.len() > 0 && forall|i: int| 0 <= i < s.len() ==> !is_space(#[trigger] s[i])
}

proof fn lemma_word_first(a: Seq<char>, rest: Seq<char>)
    requires
        forall|i: int| 0 <= i < a.len() ==> !is_space(#[trigger] a[i]),
        rest.len() == 0 || is_space(rest[0]),
    ensures
        word_len(a + rest) == a.len(),
    decreases a.len(),
{
    let s = a + rest;
    if a.len() > 0 {
        assert(s[0] == a[0]);
        assert(s.skip(1) =~= a.skip(1) + rest);
        lemma_word_first(a.skip(1), rest);
    } else {
        assert(s =~= rest);
    }
}

/// A word is read as itself.
pub proof fn lemma_one_word(a: Seq<char>)
    requires
        is_word(a),
    ensures
        words_of(a) == seq![a],
{
    lemma_word_first(a, Seq::empty());
    assert(a + Seq::<char>::empty() =~= a);
    assert(trim_start(a) == a);
    assert(a.take(a.len() as int) =~= a);
    assert(a.skip(a.len() as int) =~= Seq::<char>::empty());
    assert(trim_start(Seq::<char>::empty()) == Seq::<char>::empty());
    assert(words_of(Seq::<char>::empty()) == Seq::<Seq<char>>::empty());
    assert(words_of(a) =~= seq![a]);
}

/// Two words with a space between them are read as the two.
pub proof fn lemma_two_words(a: Seq<char>, b: Seq<char>)
    requires
        is_word(a),
        is_word(b),
    ensures
        words_of(a + " "@ + b) == seq![a, b],
{
    reveal_strlit(" ");
    let s = a + " "@ + b;
    let rest = " "@ + b;
    assert(s =~= a + rest);
    assert(rest[0] == ' ');
    lemma_word_first(a, rest);
    assert(s[0] == a[0]);
    assert(trim_start(s) == s);
    assert(s.take(a.len() as int) =~= a);
    assert(s.skip(a.len() as int) =~= rest);
    assert(rest.skip(1) =~= b);
    assert(trim_start(b) == b);
    assert(trim_start(rest) == b);
    lemma_one_word(b);
    assert(words_of(rest) == words_of(b)) by {
        assert(words_of(b) == seq![b.take(word_len(b))] + words_of(b.skip(word_len(b))));
        assert(words_of(rest) == seq![b.take(word_len(b))] + words_of(b.skip(word_len(b))));
    }
    assert(words_of(s) =~= seq![a, b]);
}

/// `n` in lower-case hexadecimal.
pub fn hex_number(n: u64) -> (r: String)
    ensures
        r@ == numeral(n as nat, 16),
{
    numeral_of(n, 16)
}

/// One character that is no digit spoils a row of digits.
pub proof fn lemma_digits_value_none(s: Seq<char>, i: int)
    requires
        0 <= i < s.len(),
        digit_value(s[i], 16) is None,
    ensures
        digits_value(s, 16) is None,
{
    lemma_digits_value(s, 16, i + 1);
    assert(s.take(i + 1).drop_last() == s.take(i));
    assert(s.take(i + 1).last() == s[i]);
}

/// Six hexadecimal digits write no more than `0xffffff`.
pub proof fn lemma_digits_value_bound(s: Seq<char>)
    requires
        s.len() == 6,
    ensures
        digits_value(s, 16) is Some ==> 0 <= digits_value(s, 16)->0 <= 0xffffff,
{
    lemma_digits_nonneg(s, 16);
    reveal_with_fuel(digits_value, 7);
    let a = s.drop_last();
    let b = a.drop_last();
    let c = b.drop_last();
    let d = c.drop_last();
    let e = d.drop_last();
    assert(e.drop_last().len() == 0);
    assert(digits_value(e, 16) is Some ==> digits_value(e, 16)->0 <= 0xf);
    assert(digits_value(d, 16) is Some ==> digits_value(d, 16)->0 <= 0xff);
    assert(digits_value(c, 16) is Some ==> digits_value(c, 16)->0 <= 0xfff);
    assert(digits_value(b, 16) is Some ==> digits_value(b, 16)->0 <= 0xffff);
    assert(digits_value(a, 16) is Some ==> digits_value(a, 16)->0 <= 0xfffff);
}

/// A text with every letter in lower case, as Unicode has it.
pub uninterp spec fn lowercase(s: Seq<char>) -> Seq<char>;

/// A text with the letters `A` to `Z` in lower case.
pub open spec fn ascii_lowercase(s: Seq<char>) -> Seq<char> {
    Seq::new(
        s.len(),
        |i: int|
            if 'A' <= s[i] <= 'Z' {
                ((s[i] as u32) + 32) as char
            } else {
                s[i]
            },
    )
}

/// `str::to_lowercase`. A text of ASCII characters changes in its capital
/// letters alone; of other texts nothing more is claimed than that the result
/// depends on the text alone.
#[verifier::external_body]
pub(crate) fn lower(s: &str) -> (r: String)
    ensures
        r@ == lowercase(s@),
        vstd::utf8::is_ascii_chars(s@) ==> r@ == ascii_lowercase(s@),
{
    s.to_lowercase()
}

} // verus!
