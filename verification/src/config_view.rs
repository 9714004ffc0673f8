//! What the settings show, and what a change of them does to the session.

use crate::config::{field_texts, CatalogSection, ConfigField, FieldKind, FieldText, KindText, SectionText};
use crate::config_ui::{
    behind_prefix, catalog_flag, config_general, config_rule_state, every_field, field_at, flatten, off_rules,
    picked, toggled, ConfigUi, UiText,
};
use crate::draw::{bold_of, less};
use crate::keys::{is_preset, keymap, Keymap};
use crate::paint::{cells, lines_cells, text_cells, Cell, Line, Span, Style};
use crate::text::{has_prefix, repeat, repeated, same, starts_with, strip_prefix, texts, width};
use crate::theme::{
    apply_theme_colors, hex_read, parse_hex, role_color, role_list, theme, theme_named, theme_role_color,
    theme_roles, with_roles, Color, Theme,
};
use vstd::prelude::*;

verus! {

/// The first row that shows a setting; the first of all where none does.
pub open spec fn row_place(rows: Seq<(usize, usize)>, i: usize, j: usize, from: int) -> int
    decreases rows.len() - from,
{
    if from >= rows.len() {
        0
    } else if rows[from] == (i, j) {
        from
    } else {
        row_place(rows, i, j, from + 1)
    }
}

fn find_row(rows: &Vec<(usize, usize)>, i: usize, j: usize) -> (r: usize)
    ensures
        r == row_place(rows@, i, j, 0),
{
    let n: usize = rows.len();
    for k in 0..n
        invariant
            n == rows@.len(),
            row_place(rows@, i, j, 0) == row_place(rows@, i, j, k as int),
    {
        if rows[k].0 == i && rows[k].1 == j {
            return k;
        }
    }
    0
}

/// What a setting is shown as; the text being typed in its place.
pub open spec fn value_shown(f: FieldText, typed: Option<Seq<char>>) -> Seq<char> {
    match typed {
        Some(buf) => buf + "▏"@,
        None => match f.kind {
            KindText::Flag(v) => if v {
                "on"@
            } else {
                "off"@
            },
            KindText::Choice(at, options) => if at < options.len() {
                options[at as int]
            } else {
                ""@
            },
            KindText::Text(t) => if t.len() > 0 {
                t
            } else if starts_with(f.key, "theme."@) {
                "(terminal)"@
            } else {
                "(unset)"@
            },
        },
    }
}

fn show_value(f: &ConfigField, typed: &Option<String>, here: bool) -> (r: String)
    ensures
        r@ == value_shown(
            f.text(),
            if here {
                crate::text::option_text(*typed)
            } else {
                None
            },
        ),
{
    if here {
        if let Some(buf) = typed {
            return buf.clone().concat("▏");
        }
    }
    match &f.kind {
        FieldKind::Flag(v) => if *v {
            "on".to_owned()
        } else {
            "off".to_owned()
        },
        FieldKind::Choice(at, options) => {
            assert(texts(options@).len() == options@.len());
            if *at < options.len() {
                assert(texts(options@)[*at as int] == options@[*at as int]@);
                options[*at].clone()
            } else {
                "".to_owned()
            }
        },
        FieldKind::Text(t) => if !t.as_str().is_empty() {
            t.clone()
        } else if has_prefix(&f.key, "theme.") {
            "(terminal)".to_owned()
        } else {
            "(unset)".to_owned()
        },
    }
}

/// The line of a setting: its label, and its value to the right.
pub open spec fn field_line(f: FieldText, here: bool, typed: Option<Seq<char>>, t: Theme, wide: int) -> Seq<Cell> {
    let value = value_shown(
        f,
        if here {
            typed
        } else {
            None
        },
    );
    text_cells(
        (if here {
            "▸ "@
        } else {
            "  "@
        }) + f.label + " "@,
        Style::of(
            if here {
                t.border_focus
            } else {
                t.fg
            },
        ),
    ) + text_cells(repeated(' ', less(wide, (f.label.len() + value.len() + 3) as int)), Style::plain()) + text_cells(
        value,
        Style::of(
            if f.kind == KindText::Flag(false) {
                t.dim
            } else {
                t.accent
            },
        ),
    )
}

fn push_cells(spans: &mut Vec<Span>, text: String, style: Style)
    ensures
        cells(final(spans)@) == cells(old(spans)@) + text_cells(text@, style),
{
    let ghost had = spans@;
    spans.push(Span::new(text, style));
    assert(spans@.drop_last() =~= had);
}

fn draw_field(f: &ConfigField, here: bool, typed: &Option<String>, t: &Theme, wide: usize) -> (r: Line)
    ensures
        cells(r@) == field_line(f.text(), here, crate::text::option_text(*typed), *t, wide as int),
{
    let value = show_value(f, typed, here);
    let mut spans: Vec<Span> = Vec::new();
    assert(cells(spans@) =~= Seq::empty());
    let lead = if here {
        "▸ "
    } else {
        "  "
    };
    let fg = if here {
        t.border_focus
    } else {
        t.fg
    };
    push_cells(&mut spans, lead.to_owned().concat(&f.label).concat(" "), Style::of(fg));
    let a: usize = width(&f.label);
    let b: usize = width(&value);
    let room: usize = wide.saturating_sub(a).saturating_sub(b).saturating_sub(3);
    push_cells(&mut spans, repeat(' ', room), Style::plain());
    let off = match f.kind {
        FieldKind::Flag(v) => !v,
        _ => false,
    };
    let shade = if off {
        t.dim
    } else {
        t.accent
    };
    push_cells(&mut spans, value, Style::of(shade));
    assert(cells(spans@) =~= field_line(f.text(), here, crate::text::option_text(*typed), *t, wide as int));
    spans
}

/// The heading of a section, with the file that keeps it.
pub open spec fn header_line(s: SectionText, t: Theme) -> Seq<Cell> {
    text_cells(s.title + " "@, bold_of(t.fg)) + text_cells("→ "@ + s.file, Style::of(t.dim))
}

/// Whether the selection is on a setting.
pub open spec fn is_here(u: UiText, i: int, j: int) -> bool {
    row_place(u.rows, i as usize, j as usize, 0) == u.sel
}

/// The lines of a section: its heading, its settings, and a blank.
pub open spec fn section_shown(u: UiText, i: int, t: Theme, wide: int) -> Seq<Seq<Cell>> {
    let s = u.sections[i];
    seq![header_line(s, t)] + Seq::new(
        s.fields.len(),
        |j: int| field_line(s.fields[j], is_here(u, i, j), u.editing, t, wide),
    ) + seq![Seq::<Cell>::empty()]
}

/// The lines of the first `n` sections.
pub open spec fn sections_shown(u: UiText, t: Theme, wide: int, n: int) -> Seq<Seq<Cell>>
    decreases n,
{
    if n <= 0 {
        Seq::empty()
    } else {
        sections_shown(u, t, wide, n - 1) + section_shown(u, n - 1, t, wide)
    }
}

/// The last of the first `m` settings of a section that the selection is on.
pub open spec fn here_in(u: UiText, i: int, m: int) -> Option<int>
    decreases m,
{
    if m <= 0 {
        None
    } else if is_here(u, i, m - 1) {
        Some(m - 1)
    } else {
        here_in(u, i, m - 1)
    }
}

/// The line that the selection is on, among those of the first `n` sections.
pub open spec fn selected_line(u: UiText, t: Theme, wide: int, n: int) -> int
    decreases n,
{
    if n <= 0 {
        0
    } else {
        match here_in(u, n - 1, u.sections[n - 1].fields.len() as int) {
            Some(j) => sections_shown(u, t, wide, n - 1).len() + 1 + j,
            None => selected_line(u, t, wide, n - 1),
        }
    }
}

fn push_line(out: &mut Vec<Line>, line: Line)
    ensures
        lines_cells(final(out)@) == lines_cells(old(out)@).push(cells(line@)),
        final(out)@.len() == old(out)@.len() + 1,
{
    let ghost had = lines_cells(out@);
    out.push(line);
    assert(lines_cells(out@) =~= had.push(cells(line@)));
}

/// The lines of the settings, and the one that the selection is on.
pub fn config_lines(c: &ConfigUi, t: &Theme, wide: usize) -> (r: (Vec<Line>, usize))
    ensures
        ({
            let u = c.text();
            &&& lines_cells(r.0@) == sections_shown(u, *t, wide as int, u.sections.len() as int)
            &&& r.1 == selected_line(u, *t, wide as int, u.sections.len() as int)
        }),
{
    let ghost u = c.text();
    let mut out: Vec<Line> = Vec::new();
    let mut sel: usize = 0;
    assert(lines_cells(out@) =~= Seq::empty());
    let n: usize = c.sections.len();
    for i in 0..n
        invariant
            n == c.sections@.len(),
            u == c.text(),
            lines_cells(out@) == sections_shown(u, *t, wide as int, i as int),
            sel == selected_line(u, *t, wide as int, i as int),
    {
        let ghost base = lines_cells(out@);
        let s = &c.sections[i];
        let ghost st = u.sections[i as int];
        assert(st == s.text());
        let mut head: Vec<Span> = Vec::new();
        assert(cells(head@) =~= Seq::empty());
        push_cells(
            &mut head,
            s.title.clone().concat(" "),
            Style { fg: Some(t.fg), bg: None, bold: true, underlined: false, reversed: false },
        );
        push_cells(&mut head, "→ ".to_owned().concat(&s.file), Style::of(t.dim));
        assert(cells(head@) =~= header_line(st, *t));
        push_line(&mut out, head);
        let ghost rows = Seq::new(
            st.fields.len(),
            |j: int| field_line(st.fields[j], is_here(u, i as int, j), u.editing, *t, wide as int),
        );
        let ghost first = lines_cells(out@);
        let ghost was = sel;
        assert(first + rows.take(0) =~= first);
        assert(first.len() == out@.len());
        let m: usize = s.fields.len();
        for j in 0..m
            invariant
                m == s.fields@.len(),
                *s == c.sections@[i as int],
                st == s.text(),
                u == c.text(),
                first.len() == base.len() + 1,
                rows == Seq::new(
                    st.fields.len(),
                    |j: int| field_line(st.fields[j], is_here(u, i as int, j), u.editing, *t, wide as int),
                ),
                lines_cells(out@) == first + rows.take(j as int),
                sel == (match here_in(u, i as int, j as int) {
                    Some(k) => base.len() + 1 + k,
                    None => was as int,
                }),
        {
            let f = &s.fields[j];
            assert(st.fields[j as int] == f.text());
            let here = find_row(&c.rows, i, j) == c.sel;
            if here {
                assert(lines_cells(out@).len() == out@.len());
                sel = out.len();
            }
            let line = draw_field(f, here, &c.editing, t, wide);
            push_line(&mut out, line);
            assert(rows.take(j + 1) =~= rows.take(j as int).push(rows[j as int]));
            assert(lines_cells(out@) =~= first + rows.take(j + 1));
        }
        assert(rows.take(m as int) =~= rows);
        let blank: Vec<Span> = Vec::new();
        assert(cells(blank@) =~= Seq::empty());
        push_line(&mut out, blank);
        assert(lines_cells(out@) =~= base + section_shown(u, i as int, *t, wide as int));
    }
    (out, sel)
}

/// The first line shown, so that the selected one is in the middle where it can
/// be.
pub fn config_top(sel: usize, lines: usize, height: u16) -> (r: usize)
    ensures
        ({
            let h = if height == 0 {
                1
            } else {
                height as int
            };
            r == crate::draw::lower(less(sel as int, h / 2), less(lines as int, h))
        }),
{
    let h: usize = if height == 0 {
        1
    } else {
        height as usize
    };
    let a = sel.saturating_sub(h / 2);
    let b = lines.saturating_sub(h);
    if a < b {
        a
    } else {
        b
    }
}

/// The title over the settings.
pub fn config_title(c: &ConfigUi) -> (r: String)
    ensures
        r@ == " config"@ + (if c.dirty {
            " ·"@
        } else {
            ""@
        }) + " — "@ + (if c.editing is Some {
            "typing · Enter accept · Esc cancel"@
        } else {
            "Space change · w write · Esc close"@
        }) + " "@,
{
    let mark = if c.dirty {
        " ·"
    } else {
        ""
    };
    let keys = if c.editing.is_some() {
        "typing · Enter accept · Esc cancel"
    } else {
        "Space change · w write · Esc close"
    };
    " config".to_owned().concat(mark).concat(" — ").concat(keys).concat(" ")
}

/// What is told of the selected setting below them.
pub fn config_help(c: &ConfigUi) -> (r: String)
    ensures
        r@ == (match field_at(c.text(), c.sel as int) {
            Some(f) => if f.help.len() == 0 {
                ""@
            } else {
                " "@ + f.help + " "@
            },
            None => ""@,
        }),
{
    match c.field(c.sel) {
        Some(f) => if f.help.as_str().is_empty() {
            "".to_owned()
        } else {
            " ".to_owned().concat(&f.help).concat(" ")
        },
        None => "".to_owned(),
    }
}

/// The colours of the roles that are filled in, among the first `n` settings.
pub open spec fn roles_given(v: Seq<FieldText>, n: int) -> Seq<(Seq<char>, Color)>
    decreases n,
{
    if n <= 0 {
        Seq::empty()
    } else {
        let before = roles_given(v, n - 1);
        match (behind_prefix(v[n - 1].key, "theme."@), v[n - 1].kind) {
            (Some(role), KindText::Text(t)) => match hex_read(t) {
                Some(c) => before.push((role, c)),
                None => before,
            },
            _ => before,
        }
    }
}

pub open spec fn color_pairs(v: Seq<(String, Color)>) -> Seq<(Seq<char>, Color)> {
    Seq::new(v.len(), |i: int| (v[i].0@, v[i].1))
}

fn given_roles(all: &Vec<ConfigField>) -> (r: Vec<(String, Color)>)
    ensures
        color_pairs(r@) == roles_given(field_texts(all@), all@.len() as int),
{
    let mut out: Vec<(String, Color)> = Vec::new();
    let ghost fields = field_texts(all@);
    assert(color_pairs(out@) =~= Seq::empty());
    for i in 0..all.len()
        invariant
            fields == field_texts(all@),
            color_pairs(out@) == roles_given(fields, i as int),
    {
        let ghost had = color_pairs(out@);
        let f = &all[i];
        assert(fields[i as int] == f.text());
        if let Some(role) = strip_prefix(&f.key, "theme.") {
            if let FieldKind::Text(t) = &f.kind {
                if let Some(c) = parse_hex(t) {
                    let ghost pair = (role@, c);
                    out.push((role, c));
                    assert(color_pairs(out@) =~= had.push(pair));
                }
            }
        }
    }
    out
}

/// Whether two themes differ in their name or in a role.
pub open spec fn themes_differ(a: Theme, b: Theme) -> bool {
    a.name@ != b.name@ || exists|k: int|
        0 <= k < role_list().len() && role_color(a, #[trigger] role_list()[k]) != role_color(b, role_list()[k])
}

fn is_other_theme(a: &Theme, b: &Theme) -> (r: bool)
    ensures
        r == themes_differ(*a, *b),
{
    if !same(a.name, b.name) {
        return true;
    }
    let roles = theme_roles();
    for k in 0..roles.len()
        invariant
            roles@.len() == role_list().len(),
            forall|j: int| 0 <= j < roles@.len() ==> (#[trigger] roles@[j])@ == role_list()[j],
            forall|j: int|
                0 <= j < k ==> role_color(*a, #[trigger] role_list()[j]) == role_color(*b, role_list()[j]),
    {
        let role = roles[k];
        if theme_role_color(a, role) != theme_role_color(b, role) {
            assert(role_color(*a, role_list()[k as int]) != role_color(*b, role_list()[k as int]));
            return true;
        }
    }
    false
}

/// Whether a theme is the one that the settings describe: the chosen one, with
/// the roles that are filled in.
pub open spec fn theme_described(u: UiText, t: Theme) -> bool {
    let all = every_field(u.sections);
    exists|colors: Seq<(String, Color)>|
        color_pairs(colors) == roles_given(all, all.len() as int) && theme_named(picked(all, "theme"@, 0)) is Some && t
            == #[trigger] with_roles(theme_named(picked(all, "theme"@, 0))->0, colors)
}

/// The theme that the settings describe, where it is another than the present
/// one.
pub fn config_theme(c: &ConfigUi, now: &Theme) -> (r: Option<Theme>)
    ensures
        match r {
            Some(t) => theme_described(c.text(), t) && themes_differ(t, *now),
            None => theme_named(picked(every_field(c.text().sections), "theme"@, 0)) is None || exists|t: Theme|
                theme_described(c.text(), t) && !#[trigger] themes_differ(t, *now),
        },
{
    let (name, _) = config_general(c);
    let all = flatten(&c.sections);
    let colors = given_roles(&all);
    assert(field_texts(all@).len() == all@.len());
    let base = match theme(&name) {
        Some(t) => t,
        None => {
            return None;
        },
    };
    let next = apply_theme_colors(base, &colors);
    assert(theme_described(c.text(), next)) by {
        assert(color_pairs(colors@) == roles_given(field_texts(all@), all@.len() as int));
        assert(next == with_roles(base, colors@));
    }
    if is_other_theme(&next, now) {
        Some(next)
    } else {
        assert(!themes_differ(next, *now));
        None
    }
}

/// What a changed setting asks of the session.
pub struct ConfigEffect {
    /// whether the review has to be ordered anew
    pub reorder: bool,
    /// whether documentation is to be read last from now on
    pub docs_last: Option<bool>,
    pub catalog: bool,
    pub disables: Vec<String>,
    /// the keys of the chosen preset, where it is another
    pub keys: Option<Keymap>,
}

/// Whether a setting bears on the rules that are on.
pub open spec fn bears_on_rules(key: Seq<char>) -> bool {
    starts_with(key, "disable:"@) || starts_with(key, "section:"@) || key == "catalog"@
}

/// What the selected setting says of where documentation is read.
pub open spec fn docs_setting(u: UiText) -> Option<bool> {
    match field_at(u, u.sel as int) {
        Some(f) => match f.kind {
            KindText::Flag(v) => if f.key == "docs_last"@ {
                Some(v)
            } else {
                None
            },
            _ => None,
        },
        None => None,
    }
}

/// Whether an effect is what the settings ask for, `keys` being the present
/// preset.
pub open spec fn effect_of(u: UiText, keys: Seq<char>, e: ConfigEffect) -> bool {
    let all = every_field(u.sections);
    let n = all.len() as int;
    let preset = picked(all, "preset"@, 0);
    &&& e.docs_last == docs_setting(u)
    &&& e.reorder == (e.docs_last is Some || (field_at(u, u.sel as int) matches Some(f) && bears_on_rules(f.key)))
    &&& e.catalog == catalog_flag(all, n)
    &&& texts(e.disables@) == off_rules(all, n)
    &&& (e.keys is Some <==> (preset == "vim"@ || preset == "vscode"@) && preset != keys)
    &&& e.keys matches Some(k) ==> is_preset(k, preset)
}

/// Changes the selected setting, and gives what that asks of the session; `keys`
/// is the name of the present preset.
pub fn config_toggle(c: &mut ConfigUi, catalog: &Vec<CatalogSection>, keys: &str) -> (r: Option<ConfigEffect>)
    requires
        field_at(old(c).text(), old(c).sel as int) matches Some(f) ==> (f.kind matches KindText::Choice(at, _) ==> at
            < usize::MAX),
    ensures
        (final(c).text(), r is Some) == toggled(old(c).text(), catalog@),
        r matches Some(e) ==> effect_of(final(c).text(), keys@, e),
{
    if !c.toggle(catalog) {
        return None;
    }
    let (rules_changed, docs_last) = match c.field(c.sel) {
        Some(f) => {
            let rules = has_prefix(&f.key, "disable:") || has_prefix(&f.key, "section:") || same(&f.key, "catalog");
            let docs = match f.kind {
                FieldKind::Flag(v) => if same(&f.key, "docs_last") {
                    Some(v)
                } else {
                    None
                },
                _ => None,
            };
            (rules, docs)
        },
        None => (false, None),
    };
    let (on, off) = config_rule_state(c);
    let (_, preset) = config_general(c);
    let chosen = match keymap(&preset) {
        Some(k) => {
            if same(k.name, keys) {
                None
            } else {
                Some(k)
            }
        },
        None => None,
    };
    Some(
        ConfigEffect {
            reorder: rules_changed || docs_last.is_some(),
            docs_last,
            catalog: on,
            disables: off,
            keys: chosen,
        },
    )
}

} // verus!
