//! The reader's configuration file: reading it, laying it over a preset, and
//! writing one that changes nothing.

use crate::keys::{
    action_by_name, action_help, action_name, action_text, bind_text, chord_read, chords_differ, help_of, is_mark,
    key_label, keymap, parse_bind_keys, same_key, same_prefix, vim_binds, vscode_binds, writable, Action, Bind, Key,
    Keymap,
};
use crate::paths::{join_path, joined_path};
use crate::text::{
    chars_of, char_from, decimal, find_char, join, joined, lines_of, number, option_text, same, slice_string,
    split_lines, starts_with, ends_with, strip_both, strip_prefix, strip_suffix, texts, trim, trim_char, trim_end,
    trim_start, trimmed,
};
use crate::theme::{
    hex_label, hex_read, hex_text, is_role, parse_hex, role_color, role_list, theme, theme_name_list, theme_named,
    theme_names, theme_role_color, theme_roles, truecolor, Color, Theme,
};
use vstd::prelude::*;

verus! {

/// Where the comment of a configuration line starts, looking from `i` on with
/// `quote` open: at the first `#` outside quotes, or at the end.
pub open spec fn comment_start(s: Seq<char>, i: int, quote: Option<char>) -> int
    decreases s.len() - i,
{
    if i >= s.len() {
        s.len() as int
    } else {
        match quote {
            Some(q) => comment_start(
                s,
                i + 1,
                if s[i] == q {
                    None
                } else {
                    quote
                },
            ),
            None => if s[i] == '#' {
                i
            } else if s[i] == '"' || s[i] == '\'' {
                comment_start(s, i + 1, Some(s[i]))
            } else {
                comment_start(s, i + 1, None)
            },
        }
    }
}

/// A line without its comment.
pub open spec fn uncommented(s: Seq<char>) -> Seq<char> {
    s.take(comment_start(s, 0, None))
}

pub fn strip_comment(line: &str) -> (r: String)
    ensures
        r@ == uncommented(line@),
{
    let cs = chars_of(line);
    let mut quote: Option<char> = None;
    let mut i: usize = 0;
    while i < cs.len()
        invariant
            i <= cs@.len(),
            cs@ == line@,
            comment_start(line@, 0, None) == comment_start(line@, i as int, quote),
        decreases cs@.len() - i,
    {
        let c = cs[i];
        match quote {
            Some(q) => {
                if c == q {
                    quote = None;
                }
            },
            None => {
                if c == '#' {
                    assert(line@.take(i as int) == cs@.subrange(0, i as int));
                    return slice_string(&cs, 0, i);
                }
                if c == '"' || c == '\'' {
                    quote = Some(c);
                }
            },
        }
        i = i + 1;
    }
    assert(line@.take(i as int) == line@);
    line.to_owned()
}

/// Which section of the file a line stands in.
#[derive(Clone, Copy, PartialEq, Eq, Debug, Structural)]
pub enum Section {
    Top,
    Binds,
    Theme,
}

/// One line of the bindings section: the chord and what it does, or that it
/// does nothing any more.
pub type Override = (Option<Key>, Key, Option<Action>);

/// What a configuration file says.
pub struct KeyConfig {
    pub preset: Option<String>,
    pub binds: Vec<Override>,
    pub theme: Option<String>,
    pub colors: Vec<(String, Color)>,
    pub problems: Vec<String>,
}

/// What a configuration file says, as text.
pub ghost struct ConfigText {
    pub preset: Option<Seq<char>>,
    pub binds: Seq<Override>,
    pub theme: Option<Seq<char>>,
    pub colors: Seq<(Seq<char>, Color)>,
    pub problems: Seq<Seq<char>>,
}

pub open spec fn color_texts(colors: Seq<(String, Color)>) -> Seq<(Seq<char>, Color)> {
    Seq::new(colors.len(), |i: int| (colors[i].0@, colors[i].1))
}

impl KeyConfig {
    pub open spec fn text(self) -> ConfigText {
        ConfigText {
            preset: option_text(self.preset),
            binds: self.binds@,
            theme: option_text(self.theme),
            colors: color_texts(self.colors@),
            problems: texts(self.problems@),
        }
    }
}

/// A value without the quotes around it.
pub open spec fn unquoted(s: Seq<char>) -> Seq<char> {
    strip_both(strip_both(trimmed(s), '"'), '\'')
}

fn unquote(s: &str) -> (r: String)
    ensures
        r@ == unquoted(s@),
{
    trim_char(&trim_char(&trim(s), '"'), '\'')
}

/// A complaint about line `n`, counted from 1.
pub open spec fn complaint(n: int, what: Seq<char>) -> Seq<char> {
    "line "@ + decimal(n) + ": "@ + what
}

fn complain(n: usize, what: &str) -> (r: String)
    ensures
        r@ == complaint(n as int, what@),
{
    "line ".to_owned().concat(&number(n)).concat(": ").concat(what)
}

pub open spec fn with_problem(c: ConfigText, n: int, what: Seq<char>) -> ConfigText {
    ConfigText { problems: c.problems.push(complaint(n, what)), ..c }
}

/// The file with one `key = value` line more, read in a section.
pub open spec fn setting_read(c: ConfigText, section: Section, n: int, k: Seq<char>, v: Seq<char>) -> ConfigText {
    match section {
        Section::Top => if k == "preset"@ {
            ConfigText { preset: Some(v), ..c }
        } else if k == "theme"@ {
            ConfigText { theme: Some(v), ..c }
        } else {
            with_problem(c, n, "unknown setting `"@ + k + "`"@)
        },
        Section::Theme => if k == "name"@ {
            ConfigText { theme: Some(v), ..c }
        } else if !role_list().contains(k) {
            with_problem(c, n, "unknown theme role `"@ + k + "`"@)
        } else {
            match hex_read(v) {
                Some(color) => ConfigText { colors: c.colors.push((k, color)), ..c },
                None => with_problem(c, n, "`"@ + v + "` is not a #rrggbb colour"@),
            }
        },
        Section::Binds => match chord_read(k) {
            None => with_problem(c, n, "`"@ + k + "` is not a key"@),
            Some((prefix, key)) => if v == "none"@ {
                ConfigText { binds: c.binds.push((prefix, key, None)), ..c }
            } else if exists|a: Action| #[trigger] action_text(a) == v {
                ConfigText {
                    binds: c.binds.push(
                        (prefix, key, Some(choose|a: Action| #[trigger] action_text(a) == v)),
                    ),
                    ..c
                }
            } else {
                with_problem(c, n, "unknown action `"@ + v + "`"@)
            },
        },
    }
}

/// The section that a heading opens, and whether it is one.
pub open spec fn heading_of(line: Seq<char>) -> Option<Seq<char>> {
    if starts_with(line, "["@) && ends_with(line.skip(1), "]"@) {
        Some(trimmed(line.skip(1).take(line.len() - 2)))
    } else {
        None
    }
}

/// The file with one line more.
pub open spec fn line_read(c: ConfigText, section: Section, n: int, raw: Seq<char>) -> (ConfigText, Section) {
    let line = trimmed(uncommented(raw));
    let eq = char_from(line, '=', 0);
    if line.len() == 0 {
        (c, section)
    } else {
        match heading_of(line) {
            Some(head) => if head == "binds"@ {
                (c, Section::Binds)
            } else if head == "theme"@ {
                (c, Section::Theme)
            } else {
                (with_problem(c, n, "unknown section `["@ + head + "]`"@), Section::Top)
            },
            None => if eq >= line.len() {
                (with_problem(c, n, "expected `key = value`"@), section)
            } else {
                (
                    setting_read(c, section, n, unquoted(line.take(eq)), unquoted(line.skip(eq + 1))),
                    section,
                )
            },
        }
    }
}

/// What the first `n` lines say, and the section that the next one stands in.
pub open spec fn lines_read(lines: Seq<Seq<char>>, n: int) -> (ConfigText, Section)
    decreases n,
{
    if n <= 0 {
        (
            ConfigText {
                preset: None,
                binds: Seq::empty(),
                theme: None,
                colors: Seq::empty(),
                problems: Seq::empty(),
            },
            Section::Top,
        )
    } else {
        let (c, section) = lines_read(lines, n - 1);
        line_read(c, section, n, lines[n - 1])
    }
}

/// What a configuration file says.
pub open spec fn config_read(text: Seq<char>) -> ConfigText {
    lines_read(lines_of(text), lines_of(text).len() as int).0
}

fn read_setting(cfg: &mut KeyConfig, section: Section, n: usize, k: String, v: String)
    ensures
        final(cfg).text() == setting_read(old(cfg).text(), section, n as int, k@, v@),
{
    let ghost before = cfg.text();
    match section {
        Section::Top => {
            if same(&k, "preset") {
                cfg.preset = Some(v);
            } else if same(&k, "theme") {
                cfg.theme = Some(v);
            } else {
                let what = "unknown setting `".to_owned().concat(&k).concat("`");
                cfg.problems.push(complain(n, &what));
                assert(texts(cfg.problems@) == before.problems.push(complaint(n as int, what@)));
            }
        },
        Section::Theme => {
            if same(&k, "name") {
                cfg.theme = Some(v);
            } else if !is_role(&k) {
                let what = "unknown theme role `".to_owned().concat(&k).concat("`");
                cfg.problems.push(complain(n, &what));
                assert(texts(cfg.problems@) == before.problems.push(complaint(n as int, what@)));
            } else {
                match parse_hex(&v) {
                    Some(c) => {
                        cfg.colors.push((k, c));
                        assert(color_texts(cfg.colors@) == before.colors.push((k@, c)));
                    },
                    None => {
                        let what = "`".to_owned().concat(&v).concat("` is not a #rrggbb colour");
                        cfg.problems.push(complain(n, &what));
                        assert(texts(cfg.problems@) == before.problems.push(
                            complaint(n as int, what@),
                        ));
                    },
                }
            }
        },
        Section::Binds => {
            match parse_bind_keys(&k) {
                None => {
                    let what = "`".to_owned().concat(&k).concat("` is not a key");
                    cfg.problems.push(complain(n, &what));
                    assert(texts(cfg.problems@) == before.problems.push(complaint(n as int, what@)));
                },
                Some((prefix, key)) => {
                    if same(&v, "none") {
                        cfg.binds.push((prefix, key, None));
                    } else {
                        match action_by_name(&v) {
                            Some(a) => {
                                assert(action_text(a) == v@);
                                cfg.binds.push((prefix, key, Some(a)));
                            },
                            None => {
                                let what = "unknown action `".to_owned().concat(&v).concat("`");
                                cfg.problems.push(complain(n, &what));
                                assert(texts(cfg.problems@) == before.problems.push(
                                    complaint(n as int, what@),
                                ));
                            },
                        }
                    }
                },
            }
        },
    }
}

fn heading(line: &str) -> (r: Option<String>)
    ensures
        option_text(r) == heading_of(line@),
{
    proof {
        reveal_strlit("[");
        reveal_strlit("]");
    }
    match strip_prefix(line, "[") {
        None => None,
        Some(tail) => match strip_suffix(&tail, "]") {
            None => None,
            Some(head) => Some(trim(&head)),
        },
    }
}

fn read_line(cfg: &mut KeyConfig, section: Section, n: usize, raw: &str) -> (r: Section)
    ensures
        (final(cfg).text(), r) == line_read(old(cfg).text(), section, n as int, raw@),
{
    let line = trim(&strip_comment(raw));
    let ghost before = cfg.text();
    if line.as_str().is_empty() {
        return section;
    }
    match heading(&line) {
        Some(head) => {
            if same(&head, "binds") {
                Section::Binds
            } else if same(&head, "theme") {
                Section::Theme
            } else {
                let what = "unknown section `[".to_owned().concat(&head).concat("]`");
                cfg.problems.push(complain(n, &what));
                assert(texts(cfg.problems@) == before.problems.push(complaint(n as int, what@)));
                Section::Top
            }
        },
        None => {
            let cs = chars_of(&line);
            let eq = find_char(&cs, '=', 0);
            if eq == cs.len() {
                cfg.problems.push(complain(n, "expected `key = value`"));
                assert(texts(cfg.problems@) == before.problems.push(
                    complaint(n as int, "expected `key = value`"@),
                ));
                section
            } else {
                let left = slice_string(&cs, 0, eq);
                let right = slice_string(&cs, eq + 1, cs.len());
                assert(left@ == line@.take(eq as int));
                assert(right@ == line@.skip(eq + 1));
                read_setting(cfg, section, n, unquote(&left), unquote(&right));
                section
            }
        },
    }
}

/// Reads a configuration file. What it cannot read is reported by line number
/// and skipped.
pub fn parse_key_config(text: &str) -> (r: KeyConfig)
    ensures
        r.text() == config_read(text@),
{
    let mut cfg = KeyConfig {
        preset: None,
        binds: Vec::new(),
        theme: None,
        colors: Vec::new(),
        problems: Vec::new(),
    };
    let mut section = Section::Top;
    let lines = split_lines(text);
    let ghost ts = lines_of(text@);
    assert(color_texts(cfg.colors@) == Seq::<(Seq<char>, Color)>::empty());
    assert(texts(cfg.problems@) == Seq::<Seq<char>>::empty());
    let count: usize = lines.len();
    for i in 0..count
        invariant
            count == lines@.len(),
            texts(lines@) == ts,
            (cfg.text(), section) == lines_read(ts, i as int),
    {
        assert(ts[i as int] == lines@[i as int]@);
        section = read_line(&mut cfg, section, i + 1, &lines[i]);
    }
    cfg
}

/// A complaint is about a line of the file, and each line gives one at most.
pub proof fn law_problems_come_one_per_line(text: Seq<char>)
    ensures
        config_read(text).problems.len() <= lines_of(text).len(),
{
    lemma_problem_count(lines_of(text), lines_of(text).len() as int);
}

proof fn lemma_problem_count(lines: Seq<Seq<char>>, n: int)
    requires
        0 <= n,
    ensures
        lines_read(lines, n).0.problems.len() <= n,
    decreases n,
{
    if n > 0 {
        lemma_problem_count(lines, n - 1);
    }
}

/// Tells the bindings of other chords.
pub open spec fn of_other_chord(prefix: Option<Key>, key: Key) -> spec_fn(Bind) -> bool {
    |b: Bind| !(b.0 == prefix && b.1 == key)
}

/// The bindings without those of a chord.
pub open spec fn without_chord(binds: Seq<Bind>, prefix: Option<Key>, key: Key) -> Seq<Bind> {
    binds.filter(of_other_chord(prefix, key))
}

/// The bindings after one line of the configuration.
pub open spec fn overridden(binds: Seq<Bind>, o: Override) -> Seq<Bind> {
    match o.2 {
        Some(a) => without_chord(binds, o.0, o.1).push((o.0, o.1, a)),
        None => without_chord(binds, o.0, o.1),
    }
}

/// The bindings after all lines of the configuration, in order.
pub open spec fn all_overridden(binds: Seq<Bind>, os: Seq<Override>) -> Seq<Bind>
    decreases os.len(),
{
    if os.len() == 0 {
        binds
    } else {
        overridden(all_overridden(binds, os.drop_last()), os.last())
    }
}

fn drop_chord(binds: &Vec<Bind>, prefix: Option<Key>, key: Key) -> (r: Vec<Bind>)
    ensures
        r@ == without_chord(binds@, prefix, key),
{
    let mut out: Vec<Bind> = Vec::new();
    let ghost keep = of_other_chord(prefix, key);
    assert(binds@.take(0).filter(keep) == Seq::<Bind>::empty()) by {
        reveal(Seq::filter);
    }
    for i in 0..binds.len()
        invariant
            keep == of_other_chord(prefix, key),
            out@ == binds@.take(i as int).filter(keep),
    {
        proof {
            assert(binds@.take(i + 1).drop_last() == binds@.take(i as int));
            assert(binds@.take(i + 1).last() == binds@[i as int]);
            reveal(Seq::filter);
        }
        let b = binds[i];
        if !(same_prefix(b.0, prefix) && same_key(b.1, key)) {
            out.push(b);
        }
    }
    assert(binds@.take(binds@.len() as int) == binds@);
    out
}

/// Lays a configuration over a preset: a bound chord replaces whatever held it,
/// and `none` removes it.
pub fn apply_key_config(km: Keymap, cfg: &KeyConfig) -> (r: Keymap)
    ensures
        r.name == km.name,
        r.hint == km.hint,
        r.binds@ == all_overridden(km.binds@, cfg.binds@),
{
    let ghost start = km.binds@;
    let mut binds = km.binds;
    for i in 0..cfg.binds.len()
        invariant
            binds@ == all_overridden(start, cfg.binds@.take(i as int)),
    {
        assert(cfg.binds@.take(i + 1).drop_last() == cfg.binds@.take(i as int));
        let (prefix, key, action) = cfg.binds[i];
        let mut next = drop_chord(&binds, prefix, key);
        if let Some(a) = action {
            next.push((prefix, key, a));
        }
        binds = next;
    }
    assert(cfg.binds@.take(cfg.binds@.len() as int) == cfg.binds@);
    Keymap { name: km.name, hint: km.hint, binds }
}

proof fn lemma_without_chord(binds: Seq<Bind>, prefix: Option<Key>, key: Key)
    ensures
        forall|b: Bind|
            #[trigger] without_chord(binds, prefix, key).contains(b) <==> binds.contains(b) && !(b.0 == prefix
                && b.1 == key),
        chords_differ(binds) ==> chords_differ(without_chord(binds, prefix, key)),
    decreases binds.len(),
{
    let keep = of_other_chord(prefix, key);
    reveal(Seq::filter);
    let out = without_chord(binds, prefix, key);
    if binds.len() > 0 {
        let rest = binds.drop_last();
        lemma_without_chord(rest, prefix, key);
        let before = without_chord(rest, prefix, key);
        let last = binds.last();
        assert(out == if keep(last) {
            before.push(last)
        } else {
            before
        });
        assert forall|b: Bind| #[trigger] out.contains(b) <==> binds.contains(b) && !(b.0 == prefix && b.1
            == key) by {
            if binds.contains(b) && keep(b) {
                let w = choose|w: int| 0 <= w < binds.len() && binds[w] == b;
                if w < rest.len() {
                    assert(rest[w] == b);
                    assert(before.contains(b));
                    let v = choose|v: int| 0 <= v < before.len() && before[v] == b;
                    assert(out[v] == b);
                } else {
                    assert(out[before.len() as int] == b);
                }
            }
            if out.contains(b) {
                let w = choose|w: int| 0 <= w < out.len() && out[w] == b;
                if w < before.len() {
                    assert(before[w] == b);
                    assert(before.contains(b));
                    assert(rest.contains(b));
                    let v = choose|v: int| 0 <= v < rest.len() && rest[v] == b;
                    assert(binds[v] == b);
                } else {
                    assert(binds[binds.len() - 1] == b);
                }
            }
        }
        if chords_differ(binds) {
            assert(chords_differ(rest)) by {
                assert forall|a: int, b: int| 0 <= a < b < rest.len() implies (#[trigger] rest[a]).0 != (
                #[trigger] rest[b]).0 || rest[a].1 != rest[b].1 by {
                    assert(binds[a] == rest[a] && binds[b] == rest[b]);
                }
            }
            assert(chords_differ(out)) by {
                assert forall|a: int, b: int| 0 <= a < b < out.len() implies (#[trigger] out[a]).0 != (
                #[trigger] out[b]).0 || out[a].1 != out[b].1 by {
                    if b < before.len() {
                        assert(before[a] == out[a] && before[b] == out[b]);
                    } else {
                        assert(out[b] == last);
                        assert(before[a] == out[a]);
                        assert(before.contains(out[a]));
                        assert(rest.contains(out[a]));
                        let v = choose|v: int| 0 <= v < rest.len() && rest[v] == out[a];
                        assert(binds[v] == out[a]);
                        assert(binds[binds.len() - 1] == last);
                    }
                }
            }
        }
    }
}

/// After a configuration line its chord means what the line says and nothing
/// else; every other binding stays; and no chord is bound twice if none was.
pub proof fn law_a_configuration_line_replaces_its_chord(binds: Seq<Bind>, o: Override)
    ensures
        forall|b: Bind|
            #[trigger] overridden(binds, o).contains(b) <==> (if b.0 == o.0 && b.1 == o.1 {
                o.2 == Some(b.2)
            } else {
                binds.contains(b)
            }),
        chords_differ(binds) ==> chords_differ(overridden(binds, o)),
{
    lemma_without_chord(binds, o.0, o.1);
    let rest = without_chord(binds, o.0, o.1);
    let out = overridden(binds, o);
    assert forall|b: Bind| #[trigger] out.contains(b) <==> (if b.0 == o.0 && b.1 == o.1 {
        o.2 == Some(b.2)
    } else {
        binds.contains(b)
    }) by {
        assert(rest.contains(b) <==> binds.contains(b) && !(b.0 == o.0 && b.1 == o.1));
        if let Some(a) = o.2 {
            if out.contains(b) {
                let w = choose|w: int| 0 <= w < out.len() && out[w] == b;
                if w < rest.len() {
                    assert(rest[w] == b);
                }
            }
            if rest.contains(b) {
                let v = choose|v: int| 0 <= v < rest.len() && rest[v] == b;
                assert(out[v] == b);
            }
            assert(out[rest.len() as int] == (o.0, o.1, a));
        }
    }
    if chords_differ(binds) && o.2 is Some {
        assert(chords_differ(out)) by {
            assert forall|a: int, b: int| 0 <= a < b < out.len() implies (#[trigger] out[a]).0 != (
            #[trigger] out[b]).0 || out[a].1 != out[b].1 by {
                assert(rest[a] == out[a]);
                if b < rest.len() {
                    assert(rest[b] == out[b]);
                } else {
                    assert(rest.contains(out[a]));
                }
            }
        }
    }
}

/// No configuration makes a preset bind a chord twice.
pub proof fn law_configured_chords_differ(binds: Seq<Bind>, os: Seq<Override>)
    requires
        chords_differ(binds),
    ensures
        chords_differ(all_overridden(binds, os)),
    decreases os.len(),
{
    if os.len() > 0 {
        law_configured_chords_differ(binds, os.drop_last());
        law_a_configuration_line_replaces_its_chord(
            all_overridden(binds, os.drop_last()),
            os.last(),
        );
    }
}

/// The lines that set every binding to what it is.
pub open spec fn as_they_are(binds: Seq<Bind>) -> Seq<Override> {
    Seq::new(binds.len(), |i: int| (binds[i].0, binds[i].1, Some(binds[i].2)))
}

/// Taking out a chord that is bound first, and nowhere else, takes out the first
/// binding.
proof fn lemma_first_chord_out(binds: Seq<Bind>, n: int)
    requires
        0 < n <= binds.len(),
        forall|i: int| 0 < i < n ==> !((#[trigger] binds[i]).0 == binds[0].0 && binds[i].1 == binds[0].1),
    ensures
        without_chord(binds.take(n), binds[0].0, binds[0].1) == binds.subrange(1, n),
    decreases n,
{
    reveal(Seq::filter);
    let keep = of_other_chord(binds[0].0, binds[0].1);
    let s = binds.take(n);
    assert(s.drop_last() =~= binds.take(n - 1));
    assert(s.last() == binds[n - 1]);
    if n == 1 {
        assert(s.drop_last().filter(keep) =~= Seq::<Bind>::empty());
        assert(!keep(s.last()));
        assert(without_chord(s, binds[0].0, binds[0].1) =~= binds.subrange(1, n));
    } else {
        lemma_first_chord_out(binds, n - 1);
        assert(keep(s.last()));
        assert(binds.subrange(1, n - 1).push(binds[n - 1]) =~= binds.subrange(1, n));
    }
}

proof fn lemma_bindings_rotate(binds: Seq<Bind>, k: int)
    requires
        chords_differ(binds),
        0 <= k <= binds.len(),
    ensures
        all_overridden(binds, as_they_are(binds).take(k)) == binds.skip(k) + binds.take(k),
    decreases k,
{
    let os = as_they_are(binds);
    if k == 0 {
        assert(os.take(0) =~= Seq::<Override>::empty());
        assert(binds.skip(0) + binds.take(0) =~= binds);
    } else {
        lemma_bindings_rotate(binds, k - 1);
        assert(os.take(k).drop_last() =~= os.take(k - 1));
        let now = binds.skip(k - 1) + binds.take(k - 1);
        let n = binds.len() as int;
        let b = binds[k - 1];
        assert(now[0] == b);
        assert forall|i: int| 0 < i < n implies !((#[trigger] now[i]).0 == b.0 && now[i].1 == b.1) by {
            if i < n - (k - 1) {
                assert(now[i] == binds[i + k - 1]);
            } else {
                assert(now[i] == binds[i - (n - (k - 1))]);
            }
        }
        lemma_first_chord_out(now, n);
        assert(now.take(n) =~= now);
        assert(now.subrange(1, n).push(b) =~= binds.skip(k) + binds.take(k));
    }
}

/// A configuration that sets every binding to what it is changes none of them.
pub proof fn law_writing_out_the_bindings_changes_nothing(binds: Seq<Bind>)
    requires
        chords_differ(binds),
    ensures
        all_overridden(binds, as_they_are(binds)) == binds,
{
    let n = binds.len() as int;
    lemma_bindings_rotate(binds, n);
    assert(as_they_are(binds).take(n) =~= as_they_are(binds));
    assert(binds.skip(n) + binds.take(n) =~= binds);
}

/// Where the configuration lives below the directories that the environment
/// names; nowhere where it names none.
pub open spec fn config_place(config_home: Option<Seq<char>>, home: Option<Seq<char>>) -> Option<Seq<char>> {
    match (config_home, home) {
        (Some(x), _) => Some(joined_path(joined_path(x, "ordo"@), "tui.toml"@)),
        (None, Some(h)) => Some(
            joined_path(joined_path(joined_path(h, ".config"@), "ordo"@), "tui.toml"@),
        ),
        (None, None) => None,
    }
}

/// `$XDG_CONFIG_HOME/ordo/tui.toml`, or the same below `$HOME/.config`.
pub fn config_path(config_home: Option<String>, home: Option<String>) -> (r: Option<String>)
    ensures
        option_text(r) == config_place(option_text(config_home), option_text(home)),
{
    match config_home {
        Some(x) => Some(join_path(&join_path(&x, "ordo"), "tui.toml")),
        None => match home {
            Some(h) => Some(join_path(&join_path(&join_path(&h, ".config"), "ordo"), "tui.toml")),
            None => None,
        },
    }
}

/// A line of a configuration that sets a binding, with what it does as a comment.
pub open spec fn bind_setting(b: Bind) -> Seq<char> {
    "\""@ + bind_text(b.0, b.1) + "\" = \""@ + action_text(b.2) + "\"  # "@ + help_of(b.2).1
}

/// The commented lines of the generated file for the bindings.
pub open spec fn bind_rows(binds: Seq<Bind>) -> Seq<Seq<char>> {
    Seq::new(binds.len(), |i: int| "# "@ + bind_setting(binds[i]))
}

/// The roles among `roles` that a theme leaves to the terminal.
pub open spec fn inherited_roles(t: Theme, roles: Seq<Seq<char>>) -> Seq<Seq<char>> {
    roles.filter(|r: Seq<char>| !truecolor(role_color(t, r)))
}

/// A line of a configuration that colours a role.
pub open spec fn role_setting(role: Seq<char>, r: u8, g: u8, b: u8) -> Seq<char> {
    role + " = \""@ + hex_text(r, g, b) + "\""@
}

/// The commented lines of the generated file for the roles that a theme colours.
pub open spec fn role_rows(t: Theme, roles: Seq<Seq<char>>) -> Seq<Seq<char>>
    decreases roles.len(),
{
    if roles.len() == 0 {
        Seq::empty()
    } else {
        let before = role_rows(t, roles.drop_last());
        match role_color(t, roles.last()) {
            Color::Rgb(r, g, b) => before.push("# "@ + role_setting(roles.last(), r, g, b)),
            _ => before,
        }
    }
}

/// The preset that the generated file shows: the one named, or `vim`.
pub open spec fn shown_preset(preset: Seq<char>) -> (Seq<char>, Seq<Bind>) {
    if preset == "vscode"@ {
        ("vscode"@, vscode_binds())
    } else {
        ("vim"@, vim_binds())
    }
}

/// The theme that the generated file shows: the one named, or `dark`.
pub open spec fn shown_theme(name: Seq<char>) -> Theme {
    match theme_named(name) {
        Some(t) => t,
        None => theme_named("dark"@)->0,
    }
}

/// The lines of the generated file before the bindings.
pub open spec fn opening_lines(
    preset: Seq<char>,
    theme_name: Seq<char>,
    name: Seq<char>,
    shown: Seq<char>,
) -> Seq<Seq<char>> {
    seq![
        "# ordo configuration — every line below is this build's own default,"@,
        "# commented out. Uncomment and edit what you want to change."@,
        "#"@,
        "# Written by `ordo --init-config`; the values are this build's, for"@,
        "# preset `"@ + preset + "` and theme `"@ + theme_name + "`."@,
        "preset = \""@ + name + "\""@,
        "theme = \""@ + shown + "\""@,
        ""@,
        ""@,
        "# ---------------------------------------------------------------- keys"@,
        "#"@,
        "# A line binds one key to one action; the action `none` removes a binding."@,
        "# A chord is two keys separated by a space: `\"g d\"`, `\"C-w l\"`."@,
        "# Modifiers are `C-`, `S-`, `A-`; named keys are Esc, Enter, Tab, Space,"@,
        "# Backspace, Up, Down, Left, Right, Home, End, PageUp, PageDown, F1..F12."@,
        "[binds]"@,
    ]
}

/// The lines of the generated file between the bindings and the colours.
pub open spec fn theme_lines(shown: Seq<char>) -> Seq<Seq<char>> {
    seq![
        ""@,
        "# --------------------------------------------------------------- theme"@,
        "#"@,
        "# `name` picks a built-in palette; the roles below override it, as #rrggbb."@,
        "# Built-in: "@ + joined(theme_name_list(), ", "@) + "."@,
        "[theme]"@,
        "# name = \""@ + shown + "\""@,
    ]
}

/// The lines of the generated file on the roles that a theme leaves to the
/// terminal.
pub open spec fn inherited_lines(inherited: Seq<Seq<char>>) -> Seq<Seq<char>> {
    if inherited.len() == 0 {
        Seq::empty()
    } else {
        seq![
            "# These follow the terminal's own palette on this theme, so they have no"@,
            "             # default to show — set any of them to a colour to take it over:"@,
            "             #   "@ + joined(inherited, ", "@),
        ]
    }
}

/// The lines of the generated file.
pub open spec fn generated_lines(preset: Seq<char>, theme_name: Seq<char>) -> Seq<Seq<char>> {
    let (name, binds) = shown_preset(preset);
    let t = shown_theme(theme_name);
    opening_lines(preset, theme_name, name, t.name@) + bind_rows(binds) + theme_lines(t.name@) + inherited_lines(
        inherited_roles(t, role_list()),
    ) + role_rows(t, role_list())
}

/// The generated file.
#[verifier::opaque]
pub open spec fn generated(preset: Seq<char>, theme_name: Seq<char>) -> Seq<char> {
    joined(generated_lines(preset, theme_name), "\n"@) + "\n"@
}

fn push_line(out: &mut Vec<String>, line: String)
    ensures
        texts(final(out)@) == texts(old(out)@).push(line@),
{
    let ghost had = texts(out@);
    out.push(line);
    assert(texts(out@) =~= had.push(line@));
}

fn write_binds(out: &mut Vec<String>, binds: &Vec<Bind>)
    ensures
        texts(final(out)@) == texts(old(out)@) + bind_rows(binds@),
{
    let ghost had = texts(out@);
    let ghost all = bind_rows(binds@);
    assert(had + all.take(0) =~= had);
    for i in 0..binds.len()
        invariant
            all == bind_rows(binds@),
            texts(out@) == had + all.take(i as int),
    {
        let (prefix, key, action) = binds[i];
        let keys = match prefix {
            Some(p) => key_label(p).concat(" ").concat(&key_label(key)),
            None => key_label(key),
        };
        let (_, help) = action_help(action);
        let setting = "\"".to_owned().concat(&keys).concat("\" = \"").concat(action_name(action)).concat(
            "\"  # ",
        ).concat(help);
        let line = "# ".to_owned().concat(&setting);
        assert(line@ == all[i as int]);
        push_line(out, line);
        assert(had + all.take(i + 1) =~= (had + all.take(i as int)).push(all[i as int]));
    }
    assert(all.take(all.len() as int) =~= all);
}

fn inherited(t: &Theme) -> (r: Vec<String>)
    ensures
        texts(r@) == inherited_roles(*t, role_list()),
{
    let roles = theme_roles();
    let mut out: Vec<String> = Vec::new();
    let ghost left = |r: Seq<char>| !truecolor(role_color(*t, r));
    assert(role_list().take(0).filter(left) == Seq::<Seq<char>>::empty()) by {
        reveal(Seq::filter);
    }
    for i in 0..roles.len()
        invariant
            roles@.len() == role_list().len(),
            forall|k: int| 0 <= k < roles@.len() ==> (#[trigger] roles@[k])@ == role_list()[k],
            left == (|r: Seq<char>| !truecolor(role_color(*t, r))),
            texts(out@) == role_list().take(i as int).filter(left),
    {
        proof {
            assert(role_list().take(i + 1).drop_last() == role_list().take(i as int));
            assert(role_list().take(i + 1).last() == roles@[i as int]@);
            reveal(Seq::filter);
        }
        let own = match theme_role_color(t, roles[i]) {
            Color::Rgb(_, _, _) => true,
            _ => false,
        };
        if !own {
            let ghost before = texts(out@);
            out.push(roles[i].to_owned());
            assert(texts(out@) == before.push(roles@[i as int]@));
        }
    }
    assert(role_list().take(role_list().len() as int) == role_list());
    out
}

fn write_roles(out: &mut Vec<String>, t: &Theme)
    ensures
        texts(final(out)@) == texts(old(out)@) + role_rows(*t, role_list()),
{
    let roles = theme_roles();
    let ghost had = texts(out@);
    assert(had + role_rows(*t, role_list().take(0)) =~= had);
    for i in 0..roles.len()
        invariant
            roles@.len() == role_list().len(),
            forall|k: int| 0 <= k < roles@.len() ==> (#[trigger] roles@[k])@ == role_list()[k],
            texts(out@) == had + role_rows(*t, role_list().take(i as int)),
    {
        assert(role_list().take(i + 1).drop_last() == role_list().take(i as int));
        assert(role_list().take(i + 1).last() == roles@[i as int]@);
        let ghost before = role_rows(*t, role_list().take(i as int));
        match theme_role_color(t, roles[i]) {
            Color::Rgb(r, g, b) => {
                let setting = roles[i].to_owned().concat(" = \"").concat(&hex_label(r, g, b)).concat("\"");
                let line = "# ".to_owned().concat(&setting);
                push_line(out, line);
                assert(had + before.push(line@) =~= (had + before).push(line@));
            },
            _ => {},
        }
    }
    assert(role_list().take(role_list().len() as int) == role_list());
}

fn write_opening(preset: &str, theme_name: &str, name: &str, shown: &str) -> (r: Vec<String>)
    ensures
        texts(r@) == opening_lines(preset@, theme_name@, name@, shown@),
{
    let mut out: Vec<String> = Vec::new();
    assert(texts(out@) =~= Seq::empty());
    push_line(&mut out, "# ordo configuration — every line below is this build's own default,".to_owned());
    push_line(&mut out, "# commented out. Uncomment and edit what you want to change.".to_owned());
    push_line(&mut out, "#".to_owned());
    push_line(&mut out, "# Written by `ordo --init-config`; the values are this build's, for".to_owned());
    push_line(&mut out, "# preset `".to_owned().concat(preset).concat("` and theme `").concat(theme_name).concat("`."));
    push_line(&mut out, "preset = \"".to_owned().concat(name).concat("\""));
    push_line(&mut out, "theme = \"".to_owned().concat(shown).concat("\""));
    push_line(&mut out, "".to_owned());
    push_line(&mut out, "".to_owned());
    push_line(&mut out, "# ---------------------------------------------------------------- keys".to_owned());
    push_line(&mut out, "#".to_owned());
    push_line(&mut out, "# A line binds one key to one action; the action `none` removes a binding.".to_owned());
    push_line(&mut out, "# A chord is two keys separated by a space: `\"g d\"`, `\"C-w l\"`.".to_owned());
    push_line(&mut out, "# Modifiers are `C-`, `S-`, `A-`; named keys are Esc, Enter, Tab, Space,".to_owned());
    push_line(&mut out, "# Backspace, Up, Down, Left, Right, Home, End, PageUp, PageDown, F1..F12.".to_owned());
    push_line(&mut out, "[binds]".to_owned());
    out
}

fn write_theme(out: &mut Vec<String>, shown: &str)
    ensures
        texts(final(out)@) == texts(old(out)@) + theme_lines(shown@),
{
    let ghost had = texts(out@);
    let built_in = "# Built-in: ".to_owned().concat(&join(&theme_names(), ", ")).concat(".");
    push_line(out, "".to_owned());
    push_line(out, "# --------------------------------------------------------------- theme".to_owned());
    push_line(out, "#".to_owned());
    push_line(out, "# `name` picks a built-in palette; the roles below override it, as #rrggbb.".to_owned());
    push_line(out, built_in);
    push_line(out, "[theme]".to_owned());
    push_line(out, "# name = \"".to_owned().concat(shown).concat("\""));
    assert(texts(out@) =~= had + theme_lines(shown@));
}

fn write_inherited(out: &mut Vec<String>, inherited: &Vec<String>)
    ensures
        texts(final(out)@) == texts(old(out)@) + inherited_lines(texts(inherited@)),
{
    let ghost had = texts(out@);
    assert(texts(inherited@).len() == inherited@.len());
    if inherited.len() > 0 {
        push_line(out, "# These follow the terminal's own palette on this theme, so they have no".to_owned());
        push_line(out, "             # default to show — set any of them to a colour to take it over:".to_owned());
        push_line(out, "             #   ".to_owned().concat(&join(inherited, ", ")));
    }
    assert(texts(out@) =~= had + inherited_lines(texts(inherited@)));
}

/// The configuration file with every binding and colour at its present value,
/// commented out.
pub fn init_config(preset: &str, theme_name: &str) -> (r: String)
    ensures
        r@ == generated(preset@, theme_name@),
{
    let km = match keymap(preset) {
        Some(km) => km,
        None => match keymap("vim") {
            Some(km) => km,
            None => {
                return String::new();
            },
        },
    };
    proof {
        reveal_strlit("vim");
        reveal_strlit("vscode");
        assert("vim"@.len() != "vscode"@.len());
        assert((km.name@, km.binds@) == shown_preset(preset@));
        reveal(generated);
    }
    let t = match theme(theme_name) {
        Some(t) => t,
        None => Theme::terminal("dark", false),
    };
    assert(t == shown_theme(theme_name@));
    let mut out = write_opening(preset, theme_name, km.name, t.name);
    write_binds(&mut out, &km.binds);
    write_theme(&mut out, t.name);
    write_inherited(&mut out, &inherited(&t));
    write_roles(&mut out, &t);
    join(&out, "\n").concat("\n")
}

/// What became of a request to write the configuration file.
pub enum InitOutcome {
    /// no directory to write it to
    NoPlace,
    /// a file is there and overwriting it was not asked for
    Exists(String),
    /// write this text to this path
    Write(String, String),
}

/// Decides on `--init-config`: where the file goes, whether it may, and what it
/// says.
pub fn plan_init_config(
    path: Option<String>,
    present: bool,
    force: bool,
    preset: &str,
    theme_name: &str,
) -> (r: InitOutcome)
    ensures
        match r {
            InitOutcome::NoPlace => path is None,
            InitOutcome::Exists(p) => path == Some(p) && present && !force,
            InitOutcome::Write(p, text) => path == Some(p) && (!present || force) && text@ == generated(
                preset@,
                theme_name@,
            ),
        },
{
    if let Some(p) = path {
        if present && !force {
            InitOutcome::Exists(p)
        } else {
            InitOutcome::Write(p, init_config(preset, theme_name))
        }
    } else {
        InitOutcome::NoPlace
    }
}

/// Looking for a comment passes over what neither opens nor closes anything.
pub proof fn lemma_no_comment(s: Seq<char>, i: int, j: int, quote: Option<char>)
    requires
        0 <= i <= j <= s.len(),
        forall|k: int|
            i <= k < j ==> match quote {
                Some(q) => #[trigger] s[k] != q,
                None => s[k] != '#' && s[k] != '"' && s[k] != '\'',
            },
    ensures
        comment_start(s, i, quote) == comment_start(s, j, quote),
    decreases j - i,
{
    if i < j {
        assert(match quote {
            Some(q) => s[i] != q,
            None => s[i] != '#' && s[i] != '"' && s[i] != '\'',
        });
        lemma_no_comment(s, i + 1, j, quote);
    }
}

/// Whether a text can stand between quotes: it is not empty and holds none.
pub open spec fn quotable(x: Seq<char>) -> bool {
    x.len() > 0 && forall|i: int| 0 <= i < x.len() ==> #[trigger] x[i] != '"' && x[i] != '\''
}

proof fn lemma_unquoted(x: Seq<char>)
    requires
        quotable(x),
    ensures
        strip_both(strip_both("\""@ + x + "\""@, '"'), '\'') == x,
{
    reveal_strlit("\"");
    let s = "\""@ + x + "\""@;
    assert(s[0] == '"');
    let t = s.skip(1);
    assert(t[0] == x[0] && t.last() == '"');
    assert(t.drop_last() =~= x);
    assert(x.last() != '"' && x[0] != '"');
    assert(strip_both(x, '"') == x);
    assert(strip_both(t, '"') == x);
    assert(strip_both(s, '"') == x);
    assert(x.last() != '\'' && x[0] != '\'');
    assert(strip_both(x, '\'') == x);
}

/// The value after the `=` of a line is read without its quotes.
proof fn lemma_value_read(v: Seq<char>)
    requires
        quotable(v),
    ensures
        unquoted(" \""@ + v + "\""@) == v,
{
    reveal_strlit(" \"");
    reveal_strlit("\"");
    let s = " \""@ + v + "\""@;
    let q = "\""@ + v + "\""@;
    assert(s.skip(1) =~= q);
    assert(trim_start(q) == q);
    assert(trim_start(s) == q);
    assert(q.last() == '"');
    assert(trimmed(s) == q);
    lemma_unquoted(v);
}

/// A key in quotes before the `=` of a line is read without them.
proof fn lemma_key_read(k: Seq<char>)
    requires
        quotable(k),
    ensures
        unquoted("\""@ + k + "\" "@) == k,
{
    reveal_strlit("\" ");
    reveal_strlit("\"");
    let s = "\""@ + k + "\" "@;
    let q = "\""@ + k + "\""@;
    assert(s.drop_last() =~= q);
    assert(trim_start(s) == s);
    assert(s.last() == ' ');
    assert(q.last() == '"');
    assert(trim_end(q) == q);
    assert(trim_end(s) == q);
    lemma_unquoted(k);
}

/// The first `=` of a text that holds none before it.
proof fn lemma_first_equals(s: Seq<char>, at: int)
    requires
        0 <= at < s.len(),
        s[at] == '=',
        forall|i: int| 0 <= i < at ==> #[trigger] s[i] != '=',
    ensures
        char_from(s, '=', 0) == at,
{
    crate::text::lemma_char_from(s, '=', 0);
}

/// A line with a key and a value in quotes, and a comment after them, is read as
/// that setting.
proof fn lemma_quoted_line(c: ConfigText, section: Section, n: int, k: Seq<char>, v: Seq<char>, told: Seq<char>)
    requires
        quotable(k),
        quotable(v),
        forall|i: int| 0 <= i < k.len() ==> #[trigger] k[i] != '=',
    ensures
        line_read(c, section, n, "\""@ + k + "\" = \""@ + v + "\"  # "@ + told) == (
            setting_read(c, section, n, k, v),
            section,
        ),
{
    reveal_strlit("\"");
    reveal_strlit("\" = \"");
    reveal_strlit("\"  # ");
    let raw = "\""@ + k + "\" = \""@ + v + "\"  # "@ + told;
    let p = k.len() as int;
    let q = v.len() as int;
    let end = p + q + 7;
    assert forall|i: int| 0 <= i < p implies raw[i + 1] == #[trigger] k[i] by {}
    assert forall|i: int| 0 <= i < q implies raw[i + p + 6] == #[trigger] v[i] by {}
    assert(raw[0] == '"' && raw[p + 1] == '"' && raw[p + 2] == ' ' && raw[p + 3] == '=' && raw[p + 4] == ' ');
    assert(raw[p + 5] == '"' && raw[p + q + 6] == '"' && raw[end] == ' ' && raw[end + 1] == ' ' && raw[end + 2] == '#');
    assert(comment_start(raw, 0, None) == end + 2) by {
        assert forall|i: int| 1 <= i < p + 1 implies #[trigger] raw[i] != '"' by {
            assert(raw[i] == k[i - 1]);
        }
        assert forall|i: int| p + 6 <= i < p + q + 6 implies #[trigger] raw[i] != '"' by {
            assert(raw[i] == v[i - p - 6]);
        }
        lemma_no_comment(raw, 1, p + 1, Some('"'));
        lemma_no_comment(raw, p + 2, p + 5, None);
        lemma_no_comment(raw, p + 6, p + q + 6, Some('"'));
        lemma_no_comment(raw, end, end + 2, None);
        assert(comment_start(raw, 0, None) == comment_start(raw, 1, Some('"')));
        assert(comment_start(raw, p + 1, Some('"')) == comment_start(raw, p + 2, None));
        assert(comment_start(raw, p + 5, None) == comment_start(raw, p + 6, Some('"')));
        assert(comment_start(raw, p + q + 6, Some('"')) == comment_start(raw, end, None));
        assert(comment_start(raw, end + 2, None) == end + 2);
    }
    let line = raw.take(end);
    assert(trimmed(uncommented(raw)) == line) by {
        let u = raw.take(end + 2);
        assert(trim_start(u) == u);
        assert(u.drop_last() =~= raw.take(end + 1));
        assert(raw.take(end + 1).drop_last() =~= line);
        assert(line.last() == raw[end - 1]);
        assert(trim_end(line) == line);
        assert(trim_end(raw.take(end + 1)) == line);
        assert(trim_end(u) == line);
    }
    assert(heading_of(line) is None) by {
        reveal_strlit("[");
        assert(line[0] == '"');
        if starts_with(line, "["@) {
            assert(line.subrange(0, 1)[0] == line[0]);
        }
    }
    assert forall|i: int| 0 <= i < p + 3 implies #[trigger] line[i] != '=' by {
        if 1 <= i <= p {
            assert(line[i] == k[i - 1]);
        }
    }
    lemma_first_equals(line, p + 3);
    lemma_key_read(k);
    lemma_value_read(v);
    reveal_strlit("\" ");
    reveal_strlit(" \"");
    assert(line.take(p + 3) =~= "\""@ + k + "\" "@);
    assert(line.skip(p + 4) =~= " \""@ + v + "\""@);
}

/// The line that the generated file writes for a binding, once it is taken out of
/// its comment, is read as that binding.
pub proof fn law_a_written_binding_reads_back(c: ConfigText, n: int, b: Bind)
    requires
        writable(b.1),
        b.0 matches Some(p) ==> writable(p),
    ensures
        line_read(c, Section::Binds, n, bind_setting(b)) == (
            ConfigText { binds: c.binds.push((b.0, b.1, Some(b.2))), ..c },
            Section::Binds,
        ),
{
    let k = bind_text(b.0, b.1);
    let v = action_text(b.2);
    crate::keys::lemma_bind_text_is_plain(b.0, b.1);
    crate::keys::lemma_action_text_is_plain(b.2);
    assert(quotable(k)) by {
        assert forall|i: int| 0 <= i < k.len() implies #[trigger] k[i] != '"' && k[i] != '\'' by {
            assert(!is_mark(k[i]));
        }
    }
    assert forall|i: int| 0 <= i < k.len() implies #[trigger] k[i] != '=' by {
        assert(!is_mark(k[i]));
    }
    lemma_quoted_line(c, Section::Binds, n, k, v, help_of(b.2).1);
    crate::keys::law_a_chord_reads_back(b.0, b.1);
    let a = choose|a: Action| #[trigger] action_text(a) == v;
    crate::keys::law_action_names_differ(a, b.2);
}

/// Whether a text is made of small letters and dashes.
pub open spec fn is_role_name(k: Seq<char>) -> bool {
    k.len() > 0 && forall|i: int| 0 <= i < k.len() ==> ('a' <= #[trigger] k[i] <= 'z' || k[i] == '-')
}

/// A line with a bare key and a value in quotes is read as that setting.
pub proof fn lemma_bare_line(c: ConfigText, section: Section, n: int, k: Seq<char>, v: Seq<char>)
    requires
        is_role_name(k),
        quotable(v),
    ensures
        line_read(c, section, n, k + " = \""@ + v + "\""@) == (setting_read(c, section, n, k, v), section),
{
    reveal_strlit("\"");
    reveal_strlit(" = \"");
    let raw = k + " = \""@ + v + "\""@;
    let p = k.len() as int;
    let q = v.len() as int;
    assert forall|i: int| 0 <= i < p implies raw[i] == #[trigger] k[i] by {}
    assert forall|i: int| 0 <= i < q implies raw[i + p + 4] == #[trigger] v[i] by {}
    assert(raw[p] == ' ' && raw[p + 1] == '=' && raw[p + 2] == ' ' && raw[p + 3] == '"');
    assert(raw.len() == p + q + 5 && raw[p + q + 4] == '"');
    assert(comment_start(raw, 0, None) == raw.len()) by {
        assert forall|i: int| 0 <= i < p + 3 implies #[trigger] raw[i] != '#' && raw[i] != '"' && raw[i] != '\'' by {
            if i < p {
                assert(raw[i] == k[i]);
            }
        }
        assert forall|i: int| p + 4 <= i < p + q + 4 implies #[trigger] raw[i] != '"' by {
            assert(raw[i] == v[i - p - 4]);
        }
        lemma_no_comment(raw, 0, p + 3, None);
        lemma_no_comment(raw, p + 4, p + q + 4, Some('"'));
        assert(comment_start(raw, p + 3, None) == comment_start(raw, p + 4, Some('"')));
        assert(comment_start(raw, p + q + 4, Some('"')) == comment_start(raw, p + q + 5, None));
    }
    assert(raw.take(raw.len() as int) =~= raw);
    assert(raw[0] == k[0]);
    assert(trimmed(raw) == raw);
    assert(heading_of(raw) is None) by {
        reveal_strlit("[");
        if starts_with(raw, "["@) {
            assert(raw.subrange(0, 1)[0] == raw[0]);
        }
    }
    assert forall|i: int| 0 <= i < p + 1 implies #[trigger] raw[i] != '=' by {
        if i < p {
            assert(raw[i] == k[i]);
        }
    }
    lemma_first_equals(raw, p + 1);
    lemma_value_read(v);
    reveal_strlit(" \"");
    assert(raw.skip(p + 2) =~= " \""@ + v + "\""@);
    let left = raw.take(p + 1);
    assert(unquoted(left) == k) by {
        assert(left[0] == k[0] && left.last() == ' ');
        assert(left.drop_last() =~= k);
        assert(k.last() == k[p - 1]);
        assert(trim_start(left) == left);
        assert(trim_end(k) == k);
        assert(trim_end(left) == k);
        assert(strip_both(k, '"') == k);
        assert(strip_both(k, '\'') == k);
    }
}

/// The line that the generated file writes for a role, once it is taken out of
/// its comment, is read as that colour.
pub proof fn law_a_written_colour_reads_back(c: ConfigText, n: int, role: Seq<char>, r: u8, g: u8, b: u8)
    requires
        role_list().contains(role),
    ensures
        line_read(c, Section::Theme, n, role_setting(role, r, g, b)) == (
            ConfigText { colors: c.colors.push((role, Color::Rgb(r, g, b))), ..c },
            Section::Theme,
        ),
{
    crate::theme::lemma_role_names(role);
    crate::theme::lemma_colour_is_plain(r, g, b);
    crate::theme::law_a_colour_reads_back(r, g, b);
    lemma_bare_line(c, Section::Theme, n, role, hex_text(r, g, b));
}

} // verus!
