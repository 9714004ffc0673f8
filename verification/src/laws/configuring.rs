//! A line of the configuration sets what it names.

use crate::config::{FieldText, KindText};
use crate::config_ui::{field_at, picked, UiText};
use crate::config_view::{effect_of, field_line, roles_given, value_shown, ConfigEffect};
use crate::keyconfig::{overridden, setting_read, uncommented, ConfigText, Override, Section};
use crate::keys::{action_text, bound, chord_read, law_action_names_differ, Action, Bind, Key};
use crate::text::starts_with;
use crate::theme::{hex_read, role_list, Color, Theme};
use vstd::prelude::*;

verus! {

/// At the top of the file the preset and the theme are set, each by its name
/// and neither by the other's.
pub proof fn law_the_preset_and_the_theme_are_set(c: ConfigText, n: int, v: Seq<char>)
    ensures
        setting_read(c, Section::Top, n, "preset"@, v) == (ConfigText { preset: Some(v), ..c }),
        setting_read(c, Section::Top, n, "theme"@, v) == (ConfigText { theme: Some(v), ..c }),
        setting_read(c, Section::Theme, n, "name"@, v) == (ConfigText { theme: Some(v), ..c }),
{
    reveal_strlit("preset");
    reveal_strlit("theme");
    assert("preset"@.len() == 6 && "theme"@.len() == 5);
}

/// A role is given the colour that is written for it.
pub proof fn law_a_role_is_given_its_color(c: ConfigText, n: int, role: Seq<char>, v: Seq<char>, color: Color)
    requires
        role_list().contains(role),
        role != "name"@,
        hex_read(v) == Some(color),
    ensures
        setting_read(c, Section::Theme, n, role, v).colors == c.colors.push((role, color)),
        setting_read(c, Section::Theme, n, role, v).problems == c.problems,
{
}

/// What is no role, and what is no colour, is a problem and sets nothing.
pub proof fn law_what_is_no_color_is_a_problem(c: ConfigText, n: int, role: Seq<char>, v: Seq<char>)
    requires
        role != "name"@,
        !role_list().contains(role) || hex_read(v) is None,
    ensures
        ({
            let r = setting_read(c, Section::Theme, n, role, v);
            &&& r.colors == c.colors
            &&& r.theme == c.theme
            &&& r.problems.len() == c.problems.len() + 1
            &&& r.problems.drop_last() == c.problems
        }),
{
    let r = setting_read(c, Section::Theme, n, role, v);
    assert(r.problems.drop_last() == c.problems);
}

/// A chord is bound to the action whose name is written for it.
pub proof fn law_a_chord_is_bound_to_the_action_written(
    c: ConfigText,
    n: int,
    k: Seq<char>,
    prefix: Option<Key>,
    key: Key,
    a: Action,
)
    requires
        chord_read(k) == Some((prefix, key)),
        action_text(a) != "none"@,
    ensures
        setting_read(c, Section::Binds, n, k, action_text(a)).binds == c.binds.push((prefix, key, Some(a))),
        setting_read(c, Section::Binds, n, k, action_text(a)).problems == c.problems,
{
    let b = choose|b: Action| #[trigger] action_text(b) == action_text(a);
    law_action_names_differ(a, b);
}

/// A chord that is bound to `none` is freed.
pub proof fn law_a_chord_can_be_freed(c: ConfigText, n: int, k: Seq<char>, prefix: Option<Key>, key: Key)
    requires
        chord_read(k) == Some((prefix, key)),
    ensures
        setting_read(c, Section::Binds, n, k, "none"@).binds == c.binds.push((prefix, key, None)),
{
}

/// What is no chord is a problem and binds nothing.
pub proof fn law_what_is_no_key_is_a_problem(c: ConfigText, n: int, k: Seq<char>, v: Seq<char>)
    requires
        chord_read(k) is None,
    ensures
        setting_read(c, Section::Binds, n, k, v).binds == c.binds,
        setting_read(c, Section::Binds, n, k, v).problems.len() == c.problems.len() + 1,
{
}

proof fn lemma_bound_pushed(binds: Seq<Bind>, b: Bind, prefix: Option<Key>, key: Key)
    ensures
        bound(binds.push(b), prefix, key) == (match bound(binds, prefix, key) {
            Some(a) => Some(a),
            None => if b.0 == prefix && b.1 == key {
                Some(b.2)
            } else {
                None
            },
        }),
{
    assert(binds.push(b).drop_last() == binds);
}

proof fn lemma_bound_without(binds: Seq<Bind>, p: Option<Key>, k: Key, prefix: Option<Key>, key: Key)
    ensures
        (p == prefix && k == key) ==> bound(crate::keyconfig::without_chord(binds, p, k), prefix, key) is None,
        !(p == prefix && k == key) ==> bound(crate::keyconfig::without_chord(binds, p, k), prefix, key) == bound(
            binds,
            prefix,
            key,
        ),
    decreases binds.len(),
{
    let f = crate::keyconfig::of_other_chord(p, k);
    reveal(Seq::filter);
    if binds.len() > 0 {
        lemma_bound_without(binds.drop_last(), p, k, prefix, key);
        if f(binds.last()) {
            lemma_bound_pushed(binds.drop_last().filter(f), binds.last(), prefix, key);
        }
    }
}

/// A line that binds a chord decides what the chord does, and one that frees it
/// leaves it doing nothing; no other chord changes.
pub proof fn law_a_line_decides_what_its_chord_does(
    binds: Seq<Bind>,
    o: Override,
    prefix: Option<Key>,
    key: Key,
)
    ensures
        o.2 matches Some(a) ==> bound(overridden(binds, o), o.0, o.1) == Some(a),
        o.2 is None ==> bound(overridden(binds, o), o.0, o.1) is None,
        !(o.0 == prefix && o.1 == key) ==> bound(overridden(binds, o), prefix, key) == bound(binds, prefix, key),
{
    lemma_bound_without(binds, o.0, o.1, o.0, o.1);
    lemma_bound_without(binds, o.0, o.1, prefix, key);
    if o.2 is Some {
        let w = crate::keyconfig::without_chord(binds, o.0, o.1);
        lemma_bound_pushed(w, (o.0, o.1, o.2->0), o.0, o.1);
        lemma_bound_pushed(w, (o.0, o.1, o.2->0), prefix, key);
    }
}

proof fn lemma_no_comment(s: Seq<char>, i: int, n: int)
    requires
        0 <= i <= n <= s.len(),
        forall|k: int| i <= k < n ==> s[k] != '#' && s[k] != '"' && s[k] != '\'',
    ensures
        crate::keyconfig::comment_start(s, i, None) == crate::keyconfig::comment_start(s, n, None),
    decreases n - i,
{
    if i < n {
        assert(s[i] != '#' && s[i] != '"' && s[i] != '\'');
        lemma_no_comment(s, i + 1, n);
    }
}

/// What stands behind a hash is a comment and does not count.
pub proof fn law_a_comment_does_not_count(line: Seq<char>, comment: Seq<char>)
    requires
        forall|k: int| 0 <= k < line.len() ==> line[k] != '#' && line[k] != '"' && line[k] != '\'',
    ensures
        uncommented(line + seq!['#'] + comment) == line,
        uncommented(line) == line,
{
    let s = line + seq!['#'] + comment;
    let n = line.len() as int;
    assert forall|k: int| 0 <= k < n implies s[k] != '#' && s[k] != '"' && s[k] != '\'' by {
        assert(s[k] == line[k]);
    }
    lemma_no_comment(s, 0, n);
    assert(s[n] == '#');
    assert(s.take(n) == line);
    lemma_no_comment(line, 0, n);
    assert(line.take(n) == line);
}

proof fn lemma_in_quotes(s: Seq<char>, i: int, n: int, q: char)
    requires
        0 <= i <= n < s.len(),
        s[n] == q,
        forall|k: int| i <= k < n ==> s[k] != q,
    ensures
        crate::keyconfig::comment_start(s, i, Some(q)) == crate::keyconfig::comment_start(s, n + 1, None),
    decreases n - i,
{
    if i < n {
        assert(s[i] != q);
        lemma_in_quotes(s, i + 1, n, q);
    }
}

/// A hash in quotes is no comment: a colour can be written.
pub proof fn law_a_hash_in_quotes_is_no_comment(line: Seq<char>, quoted: Seq<char>)
    requires
        forall|k: int| 0 <= k < line.len() ==> line[k] != '#' && line[k] != '"' && line[k] != '\'',
        !quoted.contains('"'),
    ensures
        ({
            let s = line + seq!['"'] + quoted + seq!['"'];
            uncommented(s) == s
        }),
{
    let s = line + seq!['"'] + quoted + seq!['"'];
    let n = line.len() as int;
    let m = n + 1 + quoted.len();
    assert forall|k: int| 0 <= k < n implies s[k] != '#' && s[k] != '"' && s[k] != '\'' by {
        assert(s[k] == line[k]);
    }
    lemma_no_comment(s, 0, n);
    assert(s[n] == '"');
    assert(s[m] == '"');
    assert forall|k: int| n + 1 <= k < m implies s[k] != '"' by {
        assert(s[k] == quoted[k - n - 1]);
        assert(quoted.contains(quoted[k - n - 1]));
    }
    lemma_in_quotes(s, n + 1, m, '"');
    assert(s.len() == m + 1);
    assert(s.take(s.len() as int) == s);
}

/// A switch is shown as on or off, an option by its name, and a text as it is;
/// what is being typed is shown with a cursor behind it.
pub proof fn law_a_setting_is_shown_as_it_is(f: FieldText, typed: Seq<char>)
    ensures
        f.kind == KindText::Flag(true) ==> value_shown(f, None) == "on"@,
        f.kind == KindText::Flag(false) ==> value_shown(f, None) == "off"@,
        f.kind is Choice && f.kind->Choice_0 < f.kind->Choice_1.len() ==> value_shown(f, None)
            == f.kind->Choice_1[f.kind->Choice_0 as int],
        f.kind is Text && f.kind->Text_0.len() > 0 ==> value_shown(f, None) == f.kind->Text_0,
        f.kind == KindText::Text(Seq::empty()) && !starts_with(f.key, "theme."@) ==> value_shown(f, None) == "(unset)"@,
        value_shown(f, Some(typed)) == typed + "▏"@,
{
}

/// Only a setting that bears on the reading order has the review ordered anew,
/// and the keys change only where another preset was picked.
pub proof fn law_a_change_asks_for_what_it_bears_on(u: UiText, keys: Seq<char>, e: ConfigEffect, f: FieldText)
    requires
        effect_of(u, keys, e),
        field_at(u, u.sel as int) == Some(f),
    ensures
        f.key == "docs_last"@ && f.kind is Flag ==> e.docs_last == Some(f.kind->Flag_0) && e.reorder,
        f.key != "docs_last"@ ==> e.docs_last is None,
        starts_with(f.key, "disable:"@) || starts_with(f.key, "section:"@) || f.key == "catalog"@ ==> e.reorder,
        f.key == "preset"@ ==> !e.reorder,
        picked(crate::config_ui::every_field(u.sections), "preset"@, 0) == keys ==> e.keys is None,
        keys == "vim"@ && picked(crate::config_ui::every_field(u.sections), "preset"@, 0) == "vscode"@ ==> e.keys is Some,
        keys == "vscode"@ && picked(crate::config_ui::every_field(u.sections), "preset"@, 0) == "vim"@ ==> e.keys is Some,
{
    reveal_strlit("preset");
    reveal_strlit("docs_last");
    reveal_strlit("disable:");
    reveal_strlit("section:");
    reveal_strlit("catalog");
    reveal_strlit("vim");
    reveal_strlit("vscode");
    assert("vim"@.len() == 3 && "vscode"@.len() == 6);
    assert("preset"@.len() == 6 && "disable:"@.len() == 8 && "section:"@.len() == 8 && "catalog"@.len() == 7
        && "docs_last"@.len() == 9);
}

/// A setting is marked where the selection is on it, and shows its label and
/// its value.
pub proof fn law_the_selected_setting_is_marked(f: FieldText, t: Theme, wide: int)
    requires
        f.label.len() > 0,
    ensures
        field_line(f, true, None, t, wide)[0].0 == '▸',
        field_line(f, false, None, t, wide)[0].0 == ' ',
        field_line(f, true, None, t, wide)[2].0 == f.label[0],
        field_line(f, false, None, t, wide)[2].0 == f.label[0],
        field_line(f, true, None, t, wide)[0].1.fg == Some(t.border_focus),
        field_line(f, false, None, t, wide)[0].1.fg == Some(t.fg),
{
    reveal_strlit("▸ ");
    reveal_strlit("  ");
    assert("▸ "@.len() == 2 && "▸ "@[0] == '▸');
    assert("  "@.len() == 2 && "  "@[0] == ' ');
}

proof fn lemma_roles_given(v: Seq<FieldText>, n: int, k: int, role: Seq<char>, text: Seq<char>, color: Color)
    requires
        0 <= k < n <= v.len(),
        v[k].key == "theme."@ + role,
        v[k].kind == KindText::Text(text),
        hex_read(text) == Some(color),
    ensures
        roles_given(v, n).contains((role, color)),
    decreases n,
{
    let before = roles_given(v, n - 1);
    let now = roles_given(v, n);
    if k < n - 1 {
        lemma_roles_given(v, n - 1, k, role, text, color);
        let j = choose|j: int| 0 <= j < before.len() && before[j] == (role, color);
        assert(now[j] == (role, color));
    } else {
        let pat = "theme."@;
        assert((pat + role).subrange(0, pat.len() as int) == pat);
        assert((pat + role).skip(pat.len() as int) == role);
        assert(now[before.len() as int] == (role, color));
    }
}

/// A colour that is filled in for a role is given to that role.
pub proof fn law_a_color_filled_in_is_given(
    v: Seq<FieldText>,
    k: int,
    role: Seq<char>,
    text: Seq<char>,
    color: Color,
)
    requires
        0 <= k < v.len(),
        v[k].key == "theme."@ + role,
        v[k].kind == KindText::Text(text),
        hex_read(text) == Some(color),
    ensures
        roles_given(v, v.len() as int).contains((role, color)),
{
    lemma_roles_given(v, v.len() as int, k, role, text, color);
}

} // verus!
