//! The files that keep the settings: a line is set in place, and everything else
//! stays.

use crate::config::{field_texts, ConfigField, FieldKind, FieldText, KindText};
use crate::config_ui::{
    catalog_flag, config_includes, config_rule_state, every_field, off_rules, rulesets_on, ConfigUi,
};
use crate::git::{cut_at, split_once};
use crate::rules::FileRead;
use crate::state::{prose_box, prose_popup, Popup};
use crate::text::{
    char_from, chars_of, ends_with, find_from, has_prefix, is_space, join, joined, lemma_find_from, lines_of, occurs_at,
    option_text, same, slice_string, split_lines, starts_with, strip_both, strip_prefix, strip_suffix, texts, trim,
    trim_char, trim_end, trim_start, trimmed,
};
use vstd::prelude::*;

verus! {

/// The name between the brackets of a heading.
pub open spec fn heading_in(t: Seq<char>) -> Option<Seq<char>> {
    if starts_with(t, "["@) && ends_with(t.skip(1), "]"@) {
        Some(t.skip(1).take(t.len() - 2))
    } else {
        None
    }
}

fn heading(t: &str) -> (r: Option<String>)
    ensures
        option_text(r) == heading_in(t@),
{
    proof {
        reveal_strlit("[");
        reveal_strlit("]");
    }
    match strip_prefix(t, "[") {
        Some(rest) => {
            let r = strip_suffix(&rest, "]");
            r
        },
        None => None,
    }
}

/// A text without the `#`s that it starts with.
pub open spec fn unhashed(s: Seq<char>) -> Seq<char>
    decreases s.len(),
{
    if s.len() > 0 && s[0] == '#' {
        unhashed(s.skip(1))
    } else {
        s
    }
}

pub fn unhash(s: &str) -> (r: String)
    ensures
        r@ == unhashed(s@),
{
    let cs = chars_of(s);
    let n: usize = cs.len();
    let mut i: usize = 0;
    assert(s@.skip(0) =~= s@);
    while i < n && cs[i] == '#'
        invariant
            n == cs@.len(),
            cs@ == s@,
            i <= n,
            unhashed(s@) == unhashed(s@.skip(i as int)),
        decreases n - i,
    {
        assert(s@.skip(i as int)[0] == s@[i as int]);
        assert(s@.skip(i as int).skip(1) =~= s@.skip(i + 1));
        i = i + 1;
    }
    let t = slice_string(&cs, i, n);
    assert(t@ =~= s@.skip(i as int));
    if i < n {
        assert(s@.skip(i as int)[0] == s@[i as int]);
    }
    t
}

/// Whether a line sets a key, be it commented out.
pub open spec fn sets_key(t: Seq<char>, key: Seq<char>) -> bool {
    match cut_at(trimmed(unhashed(t)), "="@) {
        Some(c) => trimmed(c.0) == key || strip_both(trimmed(c.0), '"') == key,
        None => false,
    }
}

fn is_key_line(t: &str, key: &str) -> (r: bool)
    ensures
        r == sets_key(t@, key@),
{
    match split_once(&trim(&unhash(t)), "=") {
        Some((k, _)) => {
            let name = trim(&k);
            same(&name, key) || same(&trim_char(&name, '"'), key)
        },
        None => false,
    }
}

/// What is known after some lines: what was written, whether the section is the
/// one meant, whether the key was set, and where the section ends so far.
pub ghost struct Upsert {
    pub out: Seq<Seq<char>>,
    pub here: bool,
    pub done: bool,
    pub last: Option<int>,
}

/// What one more line does.
pub open spec fn upsert_line(
    u: Upsert,
    line: Seq<char>,
    section: Option<Seq<char>>,
    key: Seq<char>,
    want: Seq<char>,
) -> Upsert {
    let t = trimmed(line);
    let here = match heading_in(t) {
        Some(name) => section == Some(trimmed(name)),
        None => u.here,
    };
    let is_key = !u.done && here && sets_key(t, key);
    let out = u.out.push(
        if is_key {
            want
        } else {
            line
        },
    );
    Upsert {
        out,
        here,
        done: u.done || is_key,
        last: if here {
            Some(out.len() as int)
        } else {
            u.last
        },
    }
}

/// What the first `n` lines do.
pub open spec fn upsert_lines(
    lines: Seq<Seq<char>>,
    section: Option<Seq<char>>,
    key: Seq<char>,
    want: Seq<char>,
    n: int,
) -> Upsert
    decreases n,
{
    if n <= 0 {
        Upsert { out: Seq::empty(), here: section is None, done: false, last: None }
    } else {
        upsert_line(upsert_lines(lines, section, key, want, n - 1), lines[n - 1], section, key, want)
    }
}

/// The line that sets a key.
pub open spec fn setting_line(key: Seq<char>, value: Seq<char>) -> Seq<char> {
    key + " = "@ + value
}

/// The lines with a key set: where it was, or at the end of its section, or in a
/// section of its own; a key without a section goes first.
pub open spec fn lines_upserted(
    lines: Seq<Seq<char>>,
    section: Option<Seq<char>>,
    key: Seq<char>,
    value: Seq<char>,
) -> Seq<Seq<char>> {
    let want = setting_line(key, value);
    let u = upsert_lines(lines, section, key, want, lines.len() as int);
    if u.done {
        u.out
    } else {
        match (section, u.last) {
            (Some(_), Some(at)) => u.out.insert(at, want),
            (None, _) => u.out.insert(0, want),
            (Some(s), None) => u.out + seq![""@, "["@ + s + "]"@, want],
        }
    }
}

/// A text with a key set.
pub open spec fn text_upserted(text: Seq<char>, section: Option<Seq<char>>, key: Seq<char>, value: Seq<char>) -> Seq<
    char,
> {
    joined(lines_upserted(lines_of(text), section, key, value), "\n"@) + "\n"@
}

pub open spec fn str_option(s: Option<&str>) -> Option<Seq<char>> {
    match s {
        Some(x) => Some(x@),
        None => None,
    }
}

/// Sets `key = value` under `[section]`, or before all sections, and keeps
/// everything else. A line that sets the key is replaced where it is, commented
/// out or not. Otherwise the line goes to the end of the section, which is made
/// where there is none, or to the start of the text.
pub fn upsert_toml(text: &str, section: Option<&str>, key: &str, value: &str) -> (r: String)
    ensures
        r@ == text_upserted(text@, str_option(section), key@, value@),
{
    let want = key.to_owned().concat(" = ").concat(value);
    let lines = split_lines(text);
    let ghost all = texts(lines@);
    let ghost sec = str_option(section);
    let mut out: Vec<String> = Vec::new();
    let mut here = section.is_none();
    let mut done = false;
    let mut last: Option<usize> = None;
    assert(texts(out@) =~= Seq::empty());
    for i in 0..lines.len()
        invariant
            all == texts(lines@),
            sec == str_option(section),
            want@ == setting_line(key@, value@),
            out@.len() == i,
            match last {
                Some(n) => n <= i,
                None => true,
            },
            upsert_lines(all, sec, key@, want@, i as int) == (Upsert {
                out: texts(out@),
                here,
                done,
                last: match last {
                    Some(n) => Some(n as int),
                    None => None,
                },
            }),
    {
        let ghost had = texts(out@);
        assert(all[i as int] == lines@[i as int]@);
        let t = trim(&lines[i]);
        if let Some(name) = heading(&t) {
            here = match section {
                Some(s) => same(s, &trim(&name)),
                None => false,
            };
        }
        let is_key = !done && here && is_key_line(&t, key);
        let line = if is_key {
            done = true;
            want.clone()
        } else {
            lines[i].clone()
        };
        out.push(line);
        assert(texts(out@) =~= had.push(line@));
        if here {
            last = Some(out.len());
        }
    }
    let ghost u = upsert_lines(all, sec, key@, want@, all.len() as int);
    assert(all.len() == lines@.len());
    assert(u.out == texts(out@));
    if !done {
        match section {
            None => {
                out.insert(0, want);
                assert(texts(out@) =~= u.out.insert(0, want@));
            },
            Some(s) => match last {
                Some(at) => {
                    out.insert(at, want);
                    assert(texts(out@) =~= u.out.insert(at as int, want@));
                },
                None => {
                    out.push("".to_owned());
                    out.push("[".to_owned().concat(s).concat("]"));
                    out.push(want);
                    assert(texts(out@) =~= u.out + seq![""@, "["@ + s@ + "]"@, want@]);
                },
            },
        }
    }
    join(&out, "\n").concat("\n")
}

proof fn lemma_upsert_lines(lines: Seq<Seq<char>>, section: Option<Seq<char>>, key: Seq<char>, want: Seq<char>, n: int)
    requires
        0 <= n <= lines.len(),
    ensures
        ({
            let u = upsert_lines(lines, section, key, want, n);
            &&& u.out.len() == n
            &&& !u.done ==> u.out == lines.take(n)
            &&& u.done ==> exists|k: int| 0 <= k < n && u.out == #[trigger] lines.take(n).update(k, want)
            &&& u.last matches Some(at) ==> 0 <= at <= n
        }),
    decreases n,
{
    if n > 0 {
        lemma_upsert_lines(lines, section, key, want, n - 1);
        let before = upsert_lines(lines, section, key, want, n - 1);
        let u = upsert_lines(lines, section, key, want, n);
        assert(lines.take(n) =~= lines.take(n - 1).push(lines[n - 1]));
        if before.done {
            let k = choose|k: int| 0 <= k < n - 1 && before.out == #[trigger] lines.take(n - 1).update(k, want);
            assert(u.out =~= lines.take(n).update(k, want));
        } else if u.done {
            assert(u.out =~= lines.take(n).update(n - 1, want));
        } else {
            assert(u.out =~= lines.take(n));
        }
    } else {
        assert(lines.take(0) =~= Seq::empty());
    }
}

/// Setting a key changes one line, or adds one (with a new section around it
/// where there is none); every other line stays as it is, in its order.
pub proof fn law_setting_a_key_keeps_every_other_line(
    lines: Seq<Seq<char>>,
    section: Option<Seq<char>>,
    key: Seq<char>,
    value: Seq<char>,
)
    ensures
        ({
            let r = lines_upserted(lines, section, key, value);
            let want = setting_line(key, value);
            ||| exists|k: int| 0 <= k < lines.len() && r == #[trigger] lines.update(k, want)
            ||| exists|k: int| 0 <= k <= lines.len() && r == #[trigger] lines.insert(k, want)
            ||| section is Some && r == lines + seq![""@, "["@ + section->0 + "]"@, want]
        }),
{
    let n = lines.len() as int;
    let want = setting_line(key, value);
    lemma_upsert_lines(lines, section, key, want, n);
    let u = upsert_lines(lines, section, key, want, n);
    assert(lines.take(n) =~= lines);
    let r = lines_upserted(lines, section, key, value);
    if u.done {
        let k = choose|k: int| 0 <= k < n && u.out == #[trigger] lines.take(n).update(k, want);
        assert(r == lines.update(k, want));
    } else {
        match (section, u.last) {
            (Some(_), Some(at)) => {
                assert(r == lines.insert(at, want));
            },
            (None, _) => {
                assert(r == lines.insert(0, want));
            },
            (Some(_), None) => {},
        }
    }
}

/// The line that sets the key is there afterwards.
pub proof fn law_a_key_that_was_set_is_there(
    lines: Seq<Seq<char>>,
    section: Option<Seq<char>>,
    key: Seq<char>,
    value: Seq<char>,
)
    ensures
        lines_upserted(lines, section, key, value).contains(setting_line(key, value)),
{
    let n = lines.len() as int;
    let want = setting_line(key, value);
    lemma_upsert_lines(lines, section, key, want, n);
    let u = upsert_lines(lines, section, key, want, n);
    let r = lines_upserted(lines, section, key, value);
    if u.done {
        let k = choose|k: int| 0 <= k < n && u.out == #[trigger] lines.take(n).update(k, want);
        assert(r[k] == want);
    } else {
        match (section, u.last) {
            (Some(_), Some(at)) => {
                assert(r[at] == want);
            },
            (None, _) => {
                assert(r[0] == want);
            },
            (Some(_), None) => {
                assert(r[n + 2] == want);
            },
        }
    }
}

/// Whether a line that a key is written on is one that sets the key: it has no
/// `=` of its own, and does not start as a comment or a heading does.
pub open spec fn plain_key(key: Seq<char>) -> bool {
    &&& key.len() > 0
    &&& !is_space(key[0])
    &&& !is_space(key.last())
    &&& key[0] != '#'
    &&& key[0] != '['
    &&& !key.contains('=')
}

/// Whether the heading of a section is read as its name: no white space stands at
/// its ends.
pub open spec fn plain_section(name: Seq<char>) -> bool {
    trimmed(name) == name
}

/// Trimming at the end stops at a character that is no white space.
proof fn lemma_trim_end(s: Seq<char>, i: int)
    requires
        0 <= i < s.len(),
        !is_space(s[i]),
    ensures
        i < trim_end(s).len() <= s.len(),
        trim_end(s) == s.take(trim_end(s).len() as int),
    decreases s.len(),
{
    if is_space(s.last()) {
        lemma_trim_end(s.drop_last(), i);
        let n = trim_end(s).len() as int;
        assert(s.drop_last().take(n) =~= s.take(n));
    } else {
        assert(s.take(s.len() as int) =~= s);
    }
}

/// The line that a key is written on sets the key, and is no heading.
proof fn lemma_setting_line_sets(key: Seq<char>, value: Seq<char>)
    requires
        plain_key(key),
    ensures
        heading_in(trimmed(setting_line(key, value))) is None,
        sets_key(trimmed(setting_line(key, value)), key),
{
    reveal_strlit(" = ");
    reveal_strlit("=");
    reveal_strlit("[");
    let want = setting_line(key, value);
    let n = key.len() as int;
    assert(want[0] == key[0]);
    assert(want[n + 1] == '=');
    lemma_trim_end(want, n + 1);
    let t = trimmed(want);
    assert(t == want.take(t.len() as int));
    assert(t[0] == key[0]);
    if starts_with(t, "["@) {
        assert(t.subrange(0, 1)[0] == t[0]);
        assert(false);
    }
    assert(unhashed(t) == t);
    assert(t[n + 1] == '=');
    lemma_trim_end(t, n + 1);
    let u = trimmed(t);
    assert(u == t.take(u.len() as int));
    lemma_find_from(u, "="@, 0);
    assert(find_from(u, "="@, 0) == n + 1) by {
        assert(u.subrange(n + 1, n + 2) =~= "="@);
        assert(occurs_at(u, "="@, n + 1));
        let f = find_from(u, "="@, 0);
        if f < n + 1 {
            assert(u.subrange(f, f + 1)[0] == u[f]);
            if f < n {
                assert(u[f] == key[f]);
                assert(key.contains('='));
            }
        }
    }
    let left = u.take(n + 1);
    assert(left =~= key.push(' '));
    assert(left.drop_last() =~= key);
    assert(trim_start(left) == left);
    assert(trim_end(key) == key);
    assert(is_space(left.last()));
    assert(trim_end(left) == key);
}

/// The heading of a section opens it, and sets no key.
proof fn lemma_heading_opens(name: Seq<char>, key: Seq<char>)
    requires
        plain_section(name),
        plain_key(key),
    ensures
        ({
            let t = trimmed("["@ + name + "]"@);
            &&& heading_in(t) is Some
            &&& trimmed(heading_in(t)->0) == name
            &&& !sets_key(t, key)
        }),
{
    reveal_strlit("[");
    reveal_strlit("]");
    let t = "["@ + name + "]"@;
    let n = name.len() as int;
    assert(t[0] == '[');
    assert(t.last() == ']');
    assert(trim_start(t) == t);
    assert(trim_end(t) == t);
    assert(t.subrange(0, 1) =~= "["@);
    let rest = t.skip(1);
    assert(rest.subrange(n, n + 1) =~= "]"@);
    assert(ends_with(rest, "]"@));
    assert(rest.take(t.len() - 2) =~= name);
    lemma_heading_sets_nothing(t, key);
}

/// Lines that start alike are dealt with alike.
proof fn lemma_upsert_in_common(
    a: Seq<Seq<char>>,
    b: Seq<Seq<char>>,
    section: Option<Seq<char>>,
    key: Seq<char>,
    want: Seq<char>,
    n: int,
)
    requires
        0 <= n <= a.len(),
        n <= b.len(),
        forall|i: int| 0 <= i < n ==> a[i] == b[i],
    ensures
        upsert_lines(a, section, key, want, n) == upsert_lines(b, section, key, want, n),
    decreases n,
{
    if n > 0 {
        lemma_upsert_in_common(a, b, section, key, want, n - 1);
    }
}

/// Lines whose key is set to what is written already stay as they are.
proof fn lemma_set_already(
    r: Seq<Seq<char>>,
    section: Option<Seq<char>>,
    key: Seq<char>,
    value: Seq<char>,
    k: int,
)
    requires
        plain_key(key),
        0 <= k < r.len(),
        r[k] == setting_line(key, value),
        upsert_lines(r, section, key, setting_line(key, value), k).here,
        !upsert_lines(r, section, key, setting_line(key, value), k).done,
    ensures
        lines_upserted(r, section, key, value) == r,
{
    let want = setting_line(key, value);
    lemma_setting_line_sets(key, value);
    lemma_upsert_lines(r, section, key, want, k);
    assert(upsert_lines(r, section, key, want, k + 1).out =~= r.take(k + 1));
    lemma_rest_stays(r, section, key, want, k + 1, r.len() as int);
    assert(r.take(r.len() as int) =~= r);
}

/// Once the key is set, the other lines are kept.
proof fn lemma_rest_stays(
    r: Seq<Seq<char>>,
    section: Option<Seq<char>>,
    key: Seq<char>,
    want: Seq<char>,
    from: int,
    n: int,
)
    requires
        0 <= from <= n <= r.len(),
        upsert_lines(r, section, key, want, from).done,
        upsert_lines(r, section, key, want, from).out == r.take(from),
    ensures
        upsert_lines(r, section, key, want, n).done,
        upsert_lines(r, section, key, want, n).out == r.take(n),
    decreases n - from,
{
    if from < n {
        assert(r.take(from).push(r[from]) =~= r.take(from + 1));
        assert(upsert_lines(r, section, key, want, from + 1).out == r.take(from + 1));
        lemma_rest_stays(r, section, key, want, from + 1, n);
    }
}

/// Where the key is set, and what holds there.
proof fn lemma_where_set(lines: Seq<Seq<char>>, section: Option<Seq<char>>, key: Seq<char>, want: Seq<char>, n: int)
    requires
        plain_key(key),
        0 <= n <= lines.len(),
    ensures
        ({
            let u = upsert_lines(lines, section, key, want, n);
            &&& u.done ==> exists|k: int|
                0 <= k < n && u.out == #[trigger] lines.take(n).update(k, want) && upsert_lines(
                    lines,
                    section,
                    key,
                    want,
                    k,
                ).here && !upsert_lines(lines, section, key, want, k).done
            &&& u.last matches Some(at) ==> 0 < at <= n && upsert_lines(lines, section, key, want, at).here
        }),
    decreases n,
{
    if n > 0 {
        lemma_where_set(lines, section, key, want, n - 1);
        lemma_upsert_lines(lines, section, key, want, n - 1);
        let before = upsert_lines(lines, section, key, want, n - 1);
        let u = upsert_lines(lines, section, key, want, n);
        assert(lines.take(n) =~= lines.take(n - 1).push(lines[n - 1]));
        if before.done {
            let k = choose|k: int|
                0 <= k < n - 1 && before.out == #[trigger] lines.take(n - 1).update(k, want) && upsert_lines(
                    lines,
                    section,
                    key,
                    want,
                    k,
                ).here && !upsert_lines(lines, section, key, want, k).done;
            assert(u.out =~= lines.take(n).update(k, want));
        } else if u.done {
            assert(u.out =~= lines.take(n).update(n - 1, want));
            if heading_in(trimmed(lines[n - 1])) is Some {
                lemma_heading_sets_nothing(trimmed(lines[n - 1]), key);
            }
            assert(before.here);
        }
    }
}

/// Stripping a character keeps a first character that is another.
proof fn lemma_strip_keeps_the_start(s: Seq<char>, c: char)
    requires
        s.len() > 0,
        s[0] != c,
    ensures
        strip_both(s, c).len() > 0,
        strip_both(s, c)[0] == s[0],
    decreases s.len(),
{
    if s.last() == c {
        lemma_strip_keeps_the_start(s.drop_last(), c);
    }
}

/// A heading sets no key.
proof fn lemma_heading_sets_nothing(t: Seq<char>, key: Seq<char>)
    requires
        plain_key(key),
        heading_in(t) is Some,
    ensures
        !sets_key(t, key),
{
    reveal_strlit("[");
    reveal_strlit("=");
    assert(t.subrange(0, 1)[0] == t[0]);
    assert(unhashed(t) == t);
    lemma_trim_end(t, 0);
    let u = trimmed(t);
    assert(u[0] == '[');
    lemma_find_from(u, "="@, 0);
    let f = find_from(u, "="@, 0);
    if f <= u.len() {
        assert(u.subrange(f, f + 1)[0] == u[f]);
        let left = u.take(f);
        lemma_trim_end(left, 0);
        assert(trimmed(left)[0] == '[');
        lemma_strip_keeps_the_start(trimmed(left), '"');
    }
}

/// Setting a key again to the same value changes nothing, for every key that is
/// found again on the line that it is written on.
pub proof fn law_setting_a_key_again_changes_nothing(
    lines: Seq<Seq<char>>,
    section: Option<Seq<char>>,
    key: Seq<char>,
    value: Seq<char>,
)
    requires
        plain_key(key),
        section matches Some(name) ==> plain_section(name),
    ensures
        lines_upserted(lines_upserted(lines, section, key, value), section, key, value) == lines_upserted(
            lines,
            section,
            key,
            value,
        ),
{
    let n = lines.len() as int;
    let want = setting_line(key, value);
    let u = upsert_lines(lines, section, key, want, n);
    let r = lines_upserted(lines, section, key, value);
    lemma_upsert_lines(lines, section, key, want, n);
    lemma_where_set(lines, section, key, want, n);
    assert(lines.take(n) =~= lines);
    if u.done {
        let k = choose|k: int|
            0 <= k < n && u.out == #[trigger] lines.take(n).update(k, want) && upsert_lines(
                lines,
                section,
                key,
                want,
                k,
            ).here && !upsert_lines(lines, section, key, want, k).done;
        lemma_upsert_in_common(lines, r, section, key, want, k);
        lemma_set_already(r, section, key, value, k);
    } else {
        match (section, u.last) {
            (Some(_), Some(at)) => {
                lemma_not_done_before(lines, section, key, want, at, n);
                lemma_upsert_in_common(lines, r, section, key, want, at);
                lemma_set_already(r, section, key, value, at);
            },
            (None, _) => {
                lemma_set_already(r, section, key, value, 0);
            },
            (Some(name), None) => {
                lemma_upsert_in_common(lines, r, section, key, want, n);
                lemma_never_here(lines, section, key, want, n);
                reveal_strlit("");
                reveal_strlit("=");
                assert(r[n] == ""@ && r[n + 1] == "["@ + name + "]"@ && r[n + 2] == want);
                assert(trimmed(""@) =~= ""@);
                reveal_strlit("[");
                assert(heading_in(""@) is None);
                lemma_heading_opens(name, key);
                assert(!upsert_lines(r, section, key, want, n + 1).done);
                assert(upsert_lines(r, section, key, want, n + 2).here);
                lemma_set_already(r, section, key, value, n + 2);
            },
        }
    }
}

/// Where the key was not set after some lines, it was not set before.
proof fn lemma_not_done_before(
    lines: Seq<Seq<char>>,
    section: Option<Seq<char>>,
    key: Seq<char>,
    want: Seq<char>,
    k: int,
    n: int,
)
    requires
        0 <= k <= n <= lines.len(),
        !upsert_lines(lines, section, key, want, n).done,
    ensures
        !upsert_lines(lines, section, key, want, k).done,
    decreases n - k,
{
    if k < n {
        lemma_not_done_before(lines, section, key, want, k + 1, n);
    }
}

/// Lines in which the section has no end do not open it.
proof fn lemma_never_here(lines: Seq<Seq<char>>, section: Option<Seq<char>>, key: Seq<char>, want: Seq<char>, n: int)
    requires
        0 <= n <= lines.len(),
        section is Some,
        upsert_lines(lines, section, key, want, n).last is None,
    ensures
        !upsert_lines(lines, section, key, want, n).here,
{
}

/// Whether a text is one line as it stands: it holds no line feed, and no
/// carriage return ends it.
pub open spec fn one_line(s: Seq<char>) -> bool {
    !s.contains('\n') && (s.len() == 0 || s.last() != '\r')
}

/// The first of joined texts comes first.
proof fn lemma_joined_front(v: Seq<Seq<char>>, sep: Seq<char>)
    requires
        v.len() > 1,
    ensures
        joined(v, sep) == v[0] + sep + joined(v.skip(1), sep),
    decreases v.len(),
{
    if v.len() == 2 {
        assert(v.drop_last() =~= seq![v[0]]);
        assert(v.skip(1) =~= seq![v[1]]);
        assert(joined(v.drop_last(), sep) == v[0]);
        assert(joined(v.skip(1), sep) == v[1]);
        assert(v.last() == v[1]);
    } else {
        let init = v.drop_last();
        lemma_joined_front(init, sep);
        assert(init.skip(1) =~= v.skip(1).drop_last());
        assert(joined(v, sep) =~= v[0] + sep + joined(v.skip(1), sep));
    }
}

/// Lines that are written one to a line are read as they are.
pub proof fn lemma_written_lines_read_back(v: Seq<Seq<char>>)
    requires
        v.len() > 0,
        forall|k: int| 0 <= k < v.len() ==> one_line(#[trigger] v[k]),
    ensures
        lines_of(joined(v, "\n"@) + "\n"@) == v,
    decreases v.len(),
{
    reveal_strlit("\n");
    let s = joined(v, "\n"@) + "\n"@;
    let first = v[0];
    let n = first.len() as int;
    let rest = if v.len() == 1 {
        Seq::empty()
    } else {
        joined(v.skip(1), "\n"@) + "\n"@
    };
    if v.len() > 1 {
        lemma_joined_front(v, "\n"@);
    }
    assert(s =~= first + "\n"@ + rest);
    assert(s[n] == '\n');
    crate::text::lemma_char_from(s, '\n', 0);
    let i = char_from(s, '\n', 0);
    if i < n {
        assert(first[i] == s[i]);
        assert(first.contains(first[i]));
    }
    assert(i == n);
    assert(s.take(n) =~= first);
    assert(s.skip(n + 1) =~= rest);
    assert(one_line(v[0]));
    if v.len() == 1 {
        assert(lines_of(rest) =~= Seq::empty());
        assert(lines_of(s) =~= v);
    } else {
        assert forall|k: int| 0 <= k < v.skip(1).len() implies one_line(#[trigger] v.skip(1)[k]) by {
            assert(one_line(v[k + 1]));
        }
        lemma_written_lines_read_back(v.skip(1));
        assert(lines_of(s) =~= v);
    }
}

/// What a text is once a key is set, read by lines: the lines with the key set.
/// So what holds of the lines holds of the text, and setting the key again to the
/// same value leaves the text as it is, unless a carriage return ends a line of
/// it.
pub proof fn law_setting_a_key_again_keeps_the_text(
    text: Seq<char>,
    section: Option<Seq<char>>,
    key: Seq<char>,
    value: Seq<char>,
)
    requires
        plain_key(key),
        section matches Some(name) ==> plain_section(name) && !name.contains('\n'),
        one_line(setting_line(key, value)),
        forall|k: int|
            0 <= k < lines_of(text).len() && (#[trigger] lines_of(text)[k]).len() > 0 ==> lines_of(text)[k].last()
                != '\r',
    ensures
        lines_of(text_upserted(text, section, key, value)) == lines_upserted(lines_of(text), section, key, value),
        text_upserted(text_upserted(text, section, key, value), section, key, value) == text_upserted(
            text,
            section,
            key,
            value,
        ),
{
    let lines = lines_of(text);
    let want = setting_line(key, value);
    let r = lines_upserted(lines, section, key, value);
    assert forall|k: int| 0 <= k < lines.len() implies one_line(#[trigger] lines[k]) by {
        crate::docs::lemma_line_is_inside(text, k, want);
    }
    law_setting_a_key_keeps_every_other_line(lines, section, key, value);
    law_a_key_that_was_set_is_there(lines, section, key, value);
    assert(r.len() > 0);
    reveal_strlit("");
    reveal_strlit("[");
    reveal_strlit("]");
    if exists|k: int| 0 <= k < lines.len() && r == #[trigger] lines.update(k, want) {
        let k = choose|k: int| 0 <= k < lines.len() && r == #[trigger] lines.update(k, want);
        assert forall|i: int| 0 <= i < r.len() implies one_line(#[trigger] r[i]) by {
            assert(i == k || r[i] == lines[i]);
        }
    } else if exists|k: int| 0 <= k <= lines.len() && r == #[trigger] lines.insert(k, want) {
        let k = choose|k: int| 0 <= k <= lines.len() && r == #[trigger] lines.insert(k, want);
        assert forall|i: int| 0 <= i < r.len() implies one_line(#[trigger] r[i]) by {
            assert(i == k || (i < k && r[i] == lines[i]) || r[i] == lines[i - 1]);
        }
    } else {
        let name = section->0;
        let head = "["@ + name + "]"@;
        let n = lines.len() as int;
        assert(head.last() == ']');
        assert forall|i: int| 0 <= i < head.len() implies head[i] != '\n' by {
            if 0 < i && i < head.len() - 1 {
                assert(head[i] == name[i - 1]);
                assert(name.contains(name[i - 1]));
            }
        }
        assert forall|i: int| 0 <= i < r.len() implies one_line(#[trigger] r[i]) by {
            assert((i < n && r[i] == lines[i]) || r[i] == ""@ || r[i] == head || r[i] == want);
        }
    }
    lemma_written_lines_read_back(r);
    law_setting_a_key_again_changes_nothing(lines, section, key, value);
}

/// Whether a setting is kept with the rules.
pub open spec fn kept_with_rules(key: Seq<char>) -> bool {
    key == "catalog"@ || starts_with(key, "disable:"@) || starts_with(key, "section:"@) || starts_with(
        key,
        "include:"@,
    )
}

pub fn touches_rules(key: &str) -> (r: bool)
    ensures
        r == kept_with_rules(key@),
{
    same(key, "catalog") || has_prefix(key, "disable:") || has_prefix(key, "section:") || has_prefix(
        key,
        "include:",
    )
}

/// A text between quotation marks.
pub open spec fn quoted(s: Seq<char>) -> Seq<char> {
    "\""@ + s + "\""@
}

fn quote(s: &str) -> (r: String)
    ensures
        r@ == quoted(s@),
{
    "\"".to_owned().concat(s).concat("\"")
}

/// How a truth value is written.
pub open spec fn truth_text(b: bool) -> Seq<char> {
    if b {
        "true"@
    } else {
        "false"@
    }
}

fn truth(b: bool) -> (r: &'static str)
    ensures
        r@ == truth_text(b),
{
    if b {
        "true"
    } else {
        "false"
    }
}

/// The section, key and value that a setting is written as.
pub open spec fn written_as(f: FieldText) -> (Option<Seq<char>>, Seq<char>, Seq<char>) {
    let place = match cut_at(f.key, "."@) {
        Some(c) => if c.0 == "theme"@ {
            (Some("theme"@), c.1)
        } else if c.0 == "binds"@ {
            (Some("binds"@), quoted(c.1))
        } else {
            (None, f.key)
        },
        None => (None, f.key),
    };
    let value = match f.kind {
        KindText::Flag(v) => truth_text(v),
        KindText::Choice(at, options) => quoted(
            if at < options.len() {
                options[at as int]
            } else {
                ""@
            },
        ),
        KindText::Text(t) => quoted(t),
    };
    (place.0, place.1, value)
}

/// The section, key and value that a setting is written as.
pub fn toml_setting(f: &ConfigField) -> (r: (Option<&'static str>, String, String))
    ensures
        (str_option(r.0), r.1@, r.2@) == written_as(f.text()),
{
    let (section, key): (Option<&'static str>, String) = match split_once(&f.key, ".") {
        Some((head, tail)) => if same(&head, "theme") {
            (Some("theme"), tail)
        } else if same(&head, "binds") {
            (Some("binds"), quote(&tail))
        } else {
            (None, f.key.clone())
        },
        None => (None, f.key.clone()),
    };
    let value = match &f.kind {
        FieldKind::Flag(v) => truth(*v).to_owned(),
        FieldKind::Choice(at, options) => {
            assert(texts(options@).len() == options@.len());
            if *at < options.len() {
                assert(texts(options@)[*at as int] == options@[*at as int]@);
                quote(&options[*at])
            } else {
                quote("")
            }
        },
        FieldKind::Text(t) => quote(t),
    };
    (section, key, value)
}

/// A file with the first `n` settings written.
pub open spec fn settings_written(text: Seq<char>, fields: Seq<FieldText>, n: int) -> Seq<char>
    decreases n,
{
    if n <= 0 {
        text
    } else {
        let (section, key, value) = written_as(fields[n - 1]);
        text_upserted(settings_written(text, fields, n - 1), section, key, value)
    }
}

/// The text of the settings file with some settings written.
pub fn write_settings_file(text: String, settings: &Vec<ConfigField>) -> (r: String)
    ensures
        r@ == settings_written(text@, field_texts(settings@), settings@.len() as int),
{
    let ghost start = text@;
    let mut text = text;
    for i in 0..settings.len()
        invariant
            text@ == settings_written(start, field_texts(settings@), i as int),
    {
        assert(field_texts(settings@)[i as int] == settings@[i as int].text());
        let (section, key, value) = toml_setting(&settings[i]);
        text = upsert_toml(&text, section, &key, &value);
    }
    text
}

/// A list of texts.
pub open spec fn list_text(items: Seq<Seq<char>>) -> Seq<char> {
    "["@ + joined(items.map_values(|s: Seq<char>| quoted(s)), ", "@) + "]"@
}

/// A list of texts, on one line.
pub fn toml_list(items: &[String]) -> (r: String)
    ensures
        r@ == list_text(texts(items@)),
{
    let mut v: Vec<String> = Vec::new();
    let ghost all = texts(items@).map_values(|s: Seq<char>| quoted(s));
    assert(texts(v@) =~= all.take(0));
    for i in 0..items.len()
        invariant
            all == texts(items@).map_values(|s: Seq<char>| quoted(s)),
            texts(v@) == all.take(i as int),
    {
        let ghost had = texts(v@);
        v.push(quote(&items[i]));
        assert(texts(v@) =~= had.push(all[i as int]));
        assert(all.take(i + 1) =~= all.take(i as int).push(all[i as int]));
    }
    assert(all.take(items@.len() as int) =~= all);
    "[".to_owned().concat(&join(&v, ", ")).concat("]")
}

/// Whether a setting with a prefix is among some.
pub open spec fn any_with_prefix(fields: Seq<FieldText>, pat: Seq<char>) -> bool {
    exists|k: int| 0 <= k < fields.len() && starts_with((#[trigger] fields[k]).key, pat)
}

/// Whether a setting of a key is among some.
pub open spec fn any_of_key(fields: Seq<FieldText>, key: Seq<char>) -> bool {
    exists|k: int| 0 <= k < fields.len() && (#[trigger] fields[k]).key == key
}

fn touched(fields: &Vec<ConfigField>, pat: &str) -> (r: bool)
    ensures
        r == any_with_prefix(field_texts(fields@), pat@),
{
    for k in 0..fields.len()
        invariant
            forall|j: int| 0 <= j < k ==> !starts_with((#[trigger] field_texts(fields@)[j]).key, pat@),
    {
        assert(field_texts(fields@)[k as int] == fields@[k as int].text());
        if has_prefix(&fields[k].key, pat) {
            return true;
        }
    }
    false
}

fn has_key(fields: &Vec<ConfigField>, key: &str) -> (r: bool)
    ensures
        r == any_of_key(field_texts(fields@), key@),
{
    for k in 0..fields.len()
        invariant
            forall|j: int| 0 <= j < k ==> (#[trigger] field_texts(fields@)[j]).key != key@,
    {
        assert(field_texts(fields@)[k as int] == fields@[k as int].text());
        if same(&fields[k].key, key) {
            return true;
        }
    }
    false
}

/// The rules file with what changed written: only the keys that something
/// changed of.
pub open spec fn rules_written(text: Seq<char>, all: Seq<FieldText>, changed: Seq<FieldText>) -> Seq<char> {
    let n = all.len() as int;
    let a = if any_of_key(changed, "catalog"@) {
        text_upserted(text, None, "catalog"@, truth_text(catalog_flag(all, n)))
    } else {
        text
    };
    let b = if any_with_prefix(changed, "disable:"@) || any_with_prefix(changed, "section:"@) {
        text_upserted(a, None, "disable"@, list_text(off_rules(all, n)))
    } else {
        a
    };
    if any_with_prefix(changed, "include:"@) {
        text_upserted(b, None, "include"@, list_text(rulesets_on(all, n)))
    } else {
        b
    }
}

/// The text of the rules file with what changed written.
pub fn write_rules_file(text: String, c: &ConfigUi, changed: &Vec<ConfigField>) -> (r: String)
    ensures
        r@ == rules_written(text@, every_field(c.text().sections), field_texts(changed@)),
{
    let mut text = text;
    let (catalog, off) = config_rule_state(c);
    if has_key(changed, "catalog") {
        text = upsert_toml(&text, None, "catalog", truth(catalog));
    }
    if touched(changed, "disable:") || touched(changed, "section:") {
        text = upsert_toml(&text, None, "disable", &toml_list(&off));
    }
    if touched(changed, "include:") {
        text = upsert_toml(&text, None, "include", &toml_list(&config_includes(c)));
    }
    text
}

/// Those of the first `n` settings that are kept with the rules, or not.
pub open spec fn kept_apart(fields: Seq<FieldText>, with_rules: bool, n: int) -> Seq<FieldText>
    decreases n,
{
    if n <= 0 {
        Seq::empty()
    } else if kept_with_rules(fields[n - 1].key) == with_rules {
        kept_apart(fields, with_rules, n - 1).push(fields[n - 1])
    } else {
        kept_apart(fields, with_rules, n - 1)
    }
}

/// The settings that changed: those of the program, and those of the rules.
pub fn partition(changed: &Vec<ConfigField>) -> (r: (Vec<ConfigField>, Vec<ConfigField>))
    ensures
        field_texts(r.0@) == kept_apart(field_texts(changed@), false, changed@.len() as int),
        field_texts(r.1@) == kept_apart(field_texts(changed@), true, changed@.len() as int),
{
    let mut settings: Vec<ConfigField> = Vec::new();
    let mut rules: Vec<ConfigField> = Vec::new();
    let ghost all = field_texts(changed@);
    assert(field_texts(settings@) =~= Seq::empty());
    assert(field_texts(rules@) =~= Seq::empty());
    for i in 0..changed.len()
        invariant
            all == field_texts(changed@),
            field_texts(settings@) == kept_apart(all, false, i as int),
            field_texts(rules@) == kept_apart(all, true, i as int),
    {
        let ghost a = field_texts(settings@);
        let ghost b = field_texts(rules@);
        assert(all[i as int] == changed@[i as int].text());
        let f = changed[i].copied();
        if touches_rules(&changed[i].key) {
            rules.push(f);
            assert(field_texts(rules@) =~= b.push(all[i as int]));
        } else {
            settings.push(f);
            assert(field_texts(settings@) =~= a.push(all[i as int]));
        }
    }
    (settings, rules)
}

/// The text of a file that may not be there yet; one that cannot be read is not
/// to be written anew.
pub fn existing_text(read: FileRead) -> (r: Result<String, String>)
    ensures
        match read {
            FileRead::Text(t) => r == Ok::<String, String>(t),
            FileRead::Missing(_) => r is Ok && r->Ok_0@ == ""@,
            FileRead::Failed(why) => r == Err::<String, String>(why),
        },
{
    match read {
        FileRead::Text(t) => Ok(t),
        FileRead::Missing(_) => Ok("".to_owned()),
        FileRead::Failed(why) => Err(why),
    }
}

/// What there is to write, by path and text, and what cannot be.
pub struct WritePlan {
    pub writes: Vec<(String, String)>,
    pub failed: Vec<String>,
}

/// The text that a file is read as.
pub open spec fn read_text(read: FileRead) -> Option<Seq<char>> {
    match read {
        FileRead::Text(t) => Some(t@),
        FileRead::Missing(_) => Some(""@),
        FileRead::Failed(_) => None,
    }
}

/// What a file adds to the plan, where some settings of it changed: what to
/// write, or what is wrong.
pub open spec fn file_planned(
    file: Option<(String, FileRead)>,
    touched: bool,
    written: spec_fn(Seq<char>) -> Seq<char>,
) -> (Seq<(Seq<char>, Seq<char>)>, Seq<Seq<char>>) {
    match file {
        Some((path, read)) if touched => match (read_text(read), read) {
            (Some(t), _) => (seq![(path@, written(t))], Seq::empty()),
            (None, FileRead::Failed(why)) => (Seq::empty(), seq![path@ + ": "@ + why@]),
            _ => (Seq::empty(), Seq::empty()),
        },
        _ => (Seq::empty(), Seq::empty()),
    }
}

pub open spec fn pair_texts(v: Seq<(String, String)>) -> Seq<(Seq<char>, Seq<char>)> {
    Seq::new(v.len(), |i: int| (v[i].0@, v[i].1@))
}

/// What writing the changed settings comes to, with both files and what they
/// hold: only what changed is written, each setting where it belongs.
pub fn config_write(
    c: &ConfigUi,
    tui: Option<(String, FileRead)>,
    rules: Option<(String, FileRead)>,
) -> (r: Option<WritePlan>)
    ensures
        ({
            let all = every_field(c.text().sections);
            let changed = crate::config_ui::changed_of(all, every_field(c.text().original), all.len() as int);
            let own = kept_apart(changed, false, changed.len() as int);
            let shared = kept_apart(changed, true, changed.len() as int);
            let a = file_planned(tui, own.len() > 0, |t: Seq<char>| settings_written(t, own, own.len() as int));
            let b = file_planned(rules, shared.len() > 0, |t: Seq<char>| rules_written(t, all, shared));
            match r {
                None => changed.len() == 0,
                Some(p) => changed.len() > 0 && pair_texts(p.writes@) == a.0 + b.0 && texts(p.failed@) == a.1 + b.1,
            }
        }),
{
    let ghost all = every_field(c.text().sections);
    let changed = c.changed();
    let ghost fields = field_texts(changed@);
    assert(fields.len() == changed@.len());
    if changed.len() == 0 {
        return None;
    }
    let (own, shared) = partition(&changed);
    let ghost of = field_texts(own@);
    let ghost sf = field_texts(shared@);
    assert(of.len() == own@.len() && sf.len() == shared@.len());
    let ghost fa = |t: Seq<char>| settings_written(t, of, of.len() as int);
    let ghost fb = |t: Seq<char>| rules_written(t, all, sf);
    let mut writes: Vec<(String, String)> = Vec::new();
    let mut failed: Vec<String> = Vec::new();
    if own.len() > 0 {
        if let Some((path, read)) = tui {
            match existing_text(read) {
                Ok(t) => {
                    let text = write_settings_file(t, &own);
                    writes.push((path, text));
                },
                Err(why) => {
                    failed.push(path.concat(": ").concat(&why));
                },
            }
        }
    }
    let ghost a = file_planned(tui, own@.len() > 0, fa);
    assert(pair_texts(writes@) =~= a.0);
    assert(texts(failed@) =~= a.1);
    let ghost w0 = pair_texts(writes@);
    let ghost f0 = texts(failed@);
    if shared.len() > 0 {
        if let Some((path, read)) = rules {
            match existing_text(read) {
                Ok(t) => {
                    let text = write_rules_file(t, c, &shared);
                    writes.push((path, text));
                },
                Err(why) => {
                    failed.push(path.concat(": ").concat(&why));
                },
            }
        }
    }
    let ghost b = file_planned(rules, shared@.len() > 0, fb);
    assert(pair_texts(writes@) =~= w0 + b.0);
    assert(texts(failed@) =~= f0 + b.1);
    Some(WritePlan { writes, failed })
}

/// Takes note of what was written: only where nothing failed are the settings as
/// they are on disk. Gives what to tell.
pub fn config_written(c: &mut ConfigUi, wrote: Vec<String>, failed: Vec<String>) -> (r: Popup)
    ensures
        if failed@.len() == 0 {
            &&& r.text() == prose_popup("config written"@, texts(wrote@))
            &&& final(c).text() == (crate::config_ui::UiText {
                original: old(c).text().sections,
                dirty: false,
                ..old(c).text()
            })
        } else {
            r.text() == prose_popup("config NOT written"@, texts(failed@)) && *final(c) == *old(c)
        },
{
    if failed.len() == 0 {
        c.original = crate::config_ui::copy_sections(&c.sections);
        c.dirty = false;
        prose_box("config written", wrote)
    } else {
        prose_box("config NOT written", failed)
    }
}

} // verus!
