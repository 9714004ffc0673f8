//! The settings screen shows what holds, changes what it is told to and
//! nothing else, and keeps what was changed.

use crate::config::{role_override, schema_of, CatalogSection, FieldText, KindText, Surface};
use crate::config_file::{
    any_of_key, any_with_prefix, file_planned, kept_apart, list_text, rules_written, text_upserted, written_as,
};
use crate::config_ui::{
    catalog_flag, changed_of, edit_taken, field_at, kind_of, off_rules, picked, rulesets_on, toggled, UiText,
};
use crate::git::cut_at;
use crate::keys::Keymap;
use crate::rules::FileRead;
use crate::text::{find_from, lemma_find_from, occurs_at, starts_with, texts};
use crate::theme::{role_color, theme_named, Color, Theme};
use vstd::prelude::*;

verus! {

proof fn lemma_pushed<A>(v: Seq<A>, x: A, y: A)
    ensures
        v.push(x).contains(y) <==> v.contains(y) || x == y,
{
    let w = v.push(x);
    if v.contains(y) {
        let k = choose|k: int| 0 <= k < v.len() && v[k] == y;
        assert(w[k] == y);
    }
    if x == y {
        assert(w[v.len() as int] == y);
    }
    if w.contains(y) {
        let k = choose|k: int| 0 <= k < w.len() && w[k] == y;
        assert(k == v.len() || v[k] == y);
    }
}

proof fn lemma_behind(s: Seq<char>, pat: Seq<char>, rest: Seq<char>)
    ensures
        s == pat + rest <==> starts_with(s, pat) && s.skip(pat.len() as int) == rest,
{
    if s == pat + rest {
        assert(s.take(pat.len() as int) == pat);
        assert(s.skip(pat.len() as int) == rest);
    } else if starts_with(s, pat) && s.skip(pat.len() as int) == rest {
        assert(s == s.take(pat.len() as int) + s.skip(pat.len() as int));
    }
}

/// A ruleset is shown by its name, and as on exactly if it is among those that
/// are on.
pub proof fn law_a_ruleset_is_shown_as_it_is(s: Surface, keys: Keymap, t: Theme, k: int)
    requires
        0 <= k < s.rulesets@.len(),
    ensures
        ({
            let shown = schema_of(s, keys, t)[2];
            &&& shown.title == "rulesets"@
            &&& shown.fields.len() == s.rulesets@.len()
            &&& shown.fields[k].label == s.rulesets@[k]@
            &&& shown.fields[k].kind == KindText::Flag(texts(s.includes@).contains(s.rulesets@[k]@))
        }),
{
    let shown = schema_of(s, keys, t)[2];
    assert(shown.fields[k].label == texts(s.rulesets@)[k]);
}

/// The general settings show whether documentation is read last, the keys and
/// the theme: the option that is chosen is the one in force.
pub proof fn law_the_general_settings_show_what_is_in_force(s: Surface, keys: Keymap, t: Theme)
    ensures
        ({
            let shown = schema_of(s, keys, t)[0].fields;
            &&& shown.len() == 3
            &&& shown[0].key == "preset"@
            &&& (keys.name@ == "vscode"@ ==> shown[0].kind == KindText::Choice(1, seq!["vim"@, "vscode"@]))
            &&& (keys.name@ == "vim"@ ==> shown[0].kind == KindText::Choice(0, seq!["vim"@, "vscode"@]))
            &&& shown[1].key == "docs_last"@
            &&& shown[1].kind == KindText::Flag(s.docs_last)
            &&& shown[2].key == "theme"@
        }),
{
    reveal_strlit("vim");
    reveal_strlit("vscode");
    assert("vim"@.len() != "vscode"@.len());
    let o = seq!["vim"@, "vscode"@];
    assert(o[0] == "vim"@ && o[1] == "vscode"@);
    reveal_with_fuel(crate::config::option_place, 3);
}

/// The settings of the program stand in its own file, and those of the rules in
/// the file of the rules.
pub proof fn law_each_section_names_its_file(s: Surface, keys: Keymap, t: Theme)
    requires
        s.tui is Some,
        s.rules_file is Some,
    ensures
        ({
            let shown = schema_of(s, keys, t);
            let own = s.tui->0@;
            let rules = s.rules_file->0@;
            &&& shown.len() == 5
            &&& shown[0].title == "general"@ && shown[0].file == own
            &&& shown[1].title == "catalog"@ && shown[1].file == rules
            &&& shown[2].title == "rulesets"@ && shown[2].file == rules
            &&& shown[3].title == "theme roles"@ && shown[3].file == own
            &&& shown[4].title == "keys"@ && shown[4].file == own
        }),
{
}

/// A role whose colour is the theme's own shows nothing to override.
pub proof fn law_a_role_of_the_theme_overrides_nothing(t: Theme, role: Seq<char>)
    requires
        theme_named(t.name@) is Some,
        role_color(theme_named(t.name@)->0, role) == role_color(t, role),
    ensures
        role_override(t, role) == ""@,
{
}

/// A role with a colour of its own shows that colour.
pub proof fn law_a_role_with_its_own_color_shows_it(t: Theme, role: Seq<char>, red: u8, green: u8, blue: u8)
    requires
        role_color(t, role) == Color::Rgb(red, green, blue),
        theme_named(t.name@) is Some ==> role_color(theme_named(t.name@)->0, role) != role_color(t, role),
    ensures
        role_override(t, role) == crate::theme::hex_text(red, green, blue),
{
}

/// A switch that stands for no section of rules is turned over, and no other
/// setting with it but the switches of the sections.
pub proof fn law_a_switch_is_turned_over(u: UiText, catalog: Seq<CatalogSection>, i: int, j: int, a: int, b: int)
    requires
        u.sel < u.rows.len(),
        u.rows[u.sel as int] == (i as usize, j as usize),
        0 <= i < u.sections.len() && i <= usize::MAX,
        0 <= j < u.sections[i].fields.len() && j <= usize::MAX,
        u.sections[i].fields[j].kind is Flag,
        !starts_with(u.sections[i].fields[j].key, "section:"@),
        0 <= a < u.sections.len(),
        0 <= b < u.sections[a].fields.len(),
        !starts_with(u.sections[a].fields[b].key, "section:"@),
    ensures
        ({
            let r = toggled(u, catalog);
            &&& r.1
            &&& r.0.dirty
            &&& r.0.sel == u.sel && r.0.rows == u.rows && r.0.original == u.original && r.0.editing == u.editing
            &&& r.0.sections[i].fields[j].kind == KindText::Flag(!(u.sections[i].fields[j].kind->Flag_0))
            &&& ((a, b) != (i, j) ==> r.0.sections[a].fields[b] == u.sections[a].fields[b])
        }),
{
    let r = toggled(u, catalog);
    assert(field_at(u, u.sel as int) == Some(u.sections[i].fields[j]));
}

/// Turning a switch over twice leaves it as it was.
pub proof fn law_a_switch_turned_over_twice_is_as_it_was(u: UiText, catalog: Seq<CatalogSection>, i: int, j: int)
    requires
        u.sel < u.rows.len(),
        u.rows[u.sel as int] == (i as usize, j as usize),
        0 <= i < u.sections.len() && i <= usize::MAX,
        0 <= j < u.sections[i].fields.len() && j <= usize::MAX,
        u.sections[i].fields[j].kind is Flag,
        !starts_with(u.sections[i].fields[j].key, "section:"@),
    ensures
        toggled(toggled(u, catalog).0, catalog).0.sections[i].fields[j] == u.sections[i].fields[j],
{
    let m = toggled(u, catalog).0;
    law_a_switch_is_turned_over(u, catalog, i, j, i, j);
    assert(m.sections[i].fields[j].key == u.sections[i].fields[j].key);
    law_a_switch_is_turned_over(m, catalog, i, j, i, j);
}

/// A choice goes on to the next option, and from the last to the first.
pub proof fn law_a_choice_goes_round(u: UiText, catalog: Seq<CatalogSection>, i: int, j: int)
    requires
        u.sel < u.rows.len(),
        u.rows[u.sel as int] == (i as usize, j as usize),
        0 <= i < u.sections.len() && i <= usize::MAX,
        0 <= j < u.sections[i].fields.len() && j <= usize::MAX,
        u.sections[i].fields[j].kind is Choice,
        !starts_with(u.sections[i].fields[j].key, "section:"@),
        u.sections[i].fields[j].kind->Choice_0 < u.sections[i].fields[j].kind->Choice_1.len() <= usize::MAX,
    ensures
        ({
            let r = toggled(u, catalog);
            let was = u.sections[i].fields[j].kind;
            let now = r.0.sections[i].fields[j].kind;
            &&& r.1 && r.0.dirty
            &&& now is Choice && now->Choice_1 == was->Choice_1
            &&& (was->Choice_0 + 1 < was->Choice_1.len() ==> now->Choice_0 == was->Choice_0 + 1)
            &&& (was->Choice_0 + 1 == was->Choice_1.len() ==> now->Choice_0 == 0)
        }),
{
    assert(field_at(u, u.sel as int) == Some(u.sections[i].fields[j]));
    let was = u.sections[i].fields[j].kind;
    let n = was->Choice_1.len() as int;
    assert((was->Choice_0 + 1) % n == if was->Choice_0 + 1 < n {
        was->Choice_0 + 1
    } else {
        0
    }) by (nonlinear_arith)
        requires
            n > 0,
            0 <= was->Choice_0 < n,
    ;
}

/// A setting that is a text is opened for typing with the text that it has, and
/// nothing is changed yet.
pub proof fn law_a_text_is_opened_for_typing(u: UiText, catalog: Seq<CatalogSection>, i: int, j: int)
    requires
        u.sel < u.rows.len(),
        u.rows[u.sel as int] == (i as usize, j as usize),
        0 <= i < u.sections.len() && i <= usize::MAX,
        0 <= j < u.sections[i].fields.len() && j <= usize::MAX,
        u.sections[i].fields[j].kind is Text,
    ensures
        toggled(u, catalog) == ((UiText { editing: Some(u.sections[i].fields[j].kind->Text_0), ..u }), false),
{
    assert(field_at(u, u.sel as int) == Some(u.sections[i].fields[j]));
}

/// What was typed becomes the text of the setting, and no other setting
/// changes; typing is over.
pub proof fn law_what_was_typed_is_taken(u: UiText, typed: Seq<char>, i: int, j: int, a: int, b: int)
    requires
        u.editing == Some(typed),
        u.sel < u.rows.len(),
        u.rows[u.sel as int] == (i as usize, j as usize),
        0 <= i < u.sections.len() && i <= usize::MAX,
        0 <= j < u.sections[i].fields.len() && j <= usize::MAX,
        u.sections[i].fields[j].kind is Text,
        0 <= a < u.sections.len(),
        0 <= b < u.sections[a].fields.len(),
    ensures
        ({
            let r = edit_taken(u);
            &&& r.editing is None
            &&& r.sections[i].fields[j].kind == KindText::Text(typed)
            &&& r.sections[i].fields[j].key == u.sections[i].fields[j].key
            &&& ((a, b) != (i, j) ==> r.sections[a].fields[b] == u.sections[a].fields[b])
            &&& r.dirty == (u.dirty || u.sections[i].fields[j].kind != KindText::Text(typed))
            &&& r.original == u.original && r.rows == u.rows && r.sel == u.sel
        }),
{
    assert(field_at(u, u.sel as int) == Some(u.sections[i].fields[j]));
}

/// The kind that is known of a key is that of a setting with that key.
pub proof fn lemma_kind_of(v: Seq<FieldText>, key: Seq<char>, n: int)
    requires
        0 <= n <= v.len(),
    ensures
        kind_of(v, key, n) is Some <==> exists|k: int| 0 <= k < n && (#[trigger] v[k]).key == key,
        kind_of(v, key, n) is Some ==> exists|k: int|
            0 <= k < n && (#[trigger] v[k]).key == key && v[k].kind == kind_of(v, key, n)->0,
    decreases n,
{
    if n > 0 {
        lemma_kind_of(v, key, n - 1);
    }
}

proof fn lemma_changed_of(v: Seq<FieldText>, was: Seq<FieldText>, n: int, f: FieldText)
    requires
        0 <= n <= v.len(),
    ensures
        changed_of(v, was, n).contains(f) <==> (v.take(n).contains(f) && kind_of(was, f.key, was.len() as int) is Some
            && kind_of(was, f.key, was.len() as int)->0 != f.kind),
    decreases n,
{
    if n > 0 {
        lemma_changed_of(v, was, n - 1, f);
        let before = changed_of(v, was, n - 1);
        let x = v[n - 1];
        assert(v.take(n) == v.take(n - 1).push(x));
        lemma_pushed(v.take(n - 1), x, f);
        lemma_pushed(before, x, f);
    } else {
        assert(v.take(0).len() == 0);
    }
}

/// A setting has changed exactly if the one of its key had another value.
pub proof fn law_a_setting_with_another_value_has_changed(
    v: Seq<FieldText>,
    was: Seq<FieldText>,
    i: int,
    k: int,
)
    requires
        0 <= i < v.len(),
        0 <= k < was.len(),
        v[i].key == was[k].key,
        forall|m: int| 0 <= m < was.len() && m != k ==> (#[trigger] was[m]).key != v[i].key,
    ensures
        changed_of(v, was, v.len() as int).contains(v[i]) <==> v[i].kind != was[k].kind,
{
    lemma_changed_of(v, was, v.len() as int, v[i]);
    assert(v.take(v.len() as int) == v);
    lemma_kind_of(was, v[i].key, was.len() as int);
    assert(v.contains(v[i]));
}

proof fn lemma_off(v: Seq<FieldText>, n: int, rule: Seq<char>)
    requires
        0 <= n <= v.len(),
    ensures
        off_rules(v, n).contains(rule) <==> exists|k: int|
            0 <= k < n && (#[trigger] v[k]).key == "disable:"@ + rule && v[k].kind == KindText::Flag(false),
    decreases n,
{
    let pat = "disable:"@;
    if n > 0 {
        lemma_off(v, n - 1, rule);
        let f = v[n - 1];
        lemma_behind(f.key, pat, rule);
        if starts_with(f.key, pat) {
            lemma_pushed(off_rules(v, n - 1), f.key.skip(pat.len() as int), rule);
        }
    }
}

/// The rules that are off are those whose switch is off.
pub proof fn law_a_rule_is_off_where_its_switch_is(v: Seq<FieldText>, rule: Seq<char>)
    ensures
        off_rules(v, v.len() as int).contains(rule) <==> exists|k: int|
            0 <= k < v.len() && (#[trigger] v[k]).key == "disable:"@ + rule && v[k].kind == KindText::Flag(false),
{
    lemma_off(v, v.len() as int, rule);
}

proof fn lemma_on(v: Seq<FieldText>, n: int, name: Seq<char>)
    requires
        0 <= n <= v.len(),
    ensures
        rulesets_on(v, n).contains(name) <==> exists|k: int|
            0 <= k < n && (#[trigger] v[k]).key == "include:"@ + name && v[k].kind == KindText::Flag(true),
    decreases n,
{
    let pat = "include:"@;
    if n > 0 {
        lemma_on(v, n - 1, name);
        let f = v[n - 1];
        lemma_behind(f.key, pat, name);
        if starts_with(f.key, pat) {
            lemma_pushed(rulesets_on(v, n - 1), f.key.skip(pat.len() as int), name);
        }
    }
}

/// The rulesets that are on are those whose switch is on.
pub proof fn law_a_ruleset_is_on_where_its_switch_is(v: Seq<FieldText>, name: Seq<char>)
    ensures
        rulesets_on(v, v.len() as int).contains(name) <==> exists|k: int|
            0 <= k < v.len() && (#[trigger] v[k]).key == "include:"@ + name && v[k].kind == KindText::Flag(true),
{
    lemma_on(v, v.len() as int, name);
}

/// The option that is picked for a key is the one its setting stands on.
pub proof fn law_the_option_that_is_picked_is_the_one_chosen(v: Seq<FieldText>, key: Seq<char>, k: int)
    requires
        0 <= k < v.len(),
        v[k].key == key,
        v[k].kind is Choice,
        v[k].kind->Choice_0 < v[k].kind->Choice_1.len(),
        forall|m: int| 0 <= m < k ==> (#[trigger] v[m]).key != key,
    ensures
        picked(v, key, 0) == v[k].kind->Choice_1[v[k].kind->Choice_0 as int],
{
    lemma_picked(v, key, 0, k);
}

proof fn lemma_picked(v: Seq<FieldText>, key: Seq<char>, from: int, k: int)
    requires
        0 <= from <= k < v.len(),
        v[k].key == key,
        forall|m: int| from <= m < k ==> (#[trigger] v[m]).key != key,
    ensures
        picked(v, key, from) == picked(v, key, k),
    decreases k - from,
{
    if from < k {
        assert(v[from].key != key);
        lemma_picked(v, key, from + 1, k);
    }
}

/// A change is kept with the rules or in the program's own file, and in one of
/// the two alone: what speaks of the catalog, of a rule, of a section or of a
/// ruleset is kept with the rules.
pub proof fn law_a_change_is_kept_in_one_file(v: Seq<FieldText>, f: FieldText)
    requires
        v.contains(f),
    ensures
        kept_apart(v, true, v.len() as int).contains(f) != kept_apart(v, false, v.len() as int).contains(f),
        (f.key == "catalog"@ || starts_with(f.key, "disable:"@) || starts_with(
            f.key,
            "section:"@,
        ) || starts_with(f.key, "include:"@)) <==> kept_apart(v, true, v.len() as int).contains(f),
{
    lemma_kept(v, true, v.len() as int, f);
    lemma_kept(v, false, v.len() as int, f);
    assert(v.take(v.len() as int) == v);
}

proof fn lemma_kept(v: Seq<FieldText>, with_rules: bool, n: int, f: FieldText)
    requires
        0 <= n <= v.len(),
    ensures
        kept_apart(v, with_rules, n).contains(f) <==> v.take(n).contains(f) && crate::config_file::kept_with_rules(f.key)
            == with_rules,
    decreases n,
{
    if n > 0 {
        lemma_kept(v, with_rules, n - 1, f);
        assert(v.take(n) == v.take(n - 1).push(v[n - 1]));
        lemma_pushed(v.take(n - 1), v[n - 1], f);
        lemma_pushed(kept_apart(v, with_rules, n - 1), v[n - 1], f);
    } else {
        assert(v.take(0).len() == 0);
    }
}

/// A switch is written as a truth value, an option by its name and a text as
/// it is, both in quotes; a setting with a plain key stands outside any section.
pub proof fn law_a_setting_is_written_as_what_it_is(f: FieldText)
    requires
        !f.key.contains('.'),
    ensures
        ({
            let w = written_as(f);
            &&& w.0 is None
            &&& w.1 == f.key
            &&& (f.kind == KindText::Flag(true) ==> w.2 == "true"@)
            &&& (f.kind == KindText::Flag(false) ==> w.2 == "false"@)
            &&& (f.kind is Text ==> w.2 == "\""@ + f.kind->Text_0 + "\""@)
            &&& (f.kind is Choice && f.kind->Choice_0 < f.kind->Choice_1.len() ==> w.2 == "\""@
                + f.kind->Choice_1[f.kind->Choice_0 as int] + "\""@)
        }),
{
    reveal_strlit(".");
    let i = find_from(f.key, "."@, 0);
    lemma_find_from(f.key, "."@, 0);
    if i <= f.key.len() {
        assert(occurs_at(f.key, "."@, i));
        assert(f.key.subrange(i, i + 1)[0] == '.');
        assert(f.key[i] == '.');
    }
}

/// The catalog is on or off as its switch says, and on where there is none.
pub proof fn law_the_catalog_is_as_its_switch_says(v: Seq<FieldText>, n: int, k: int)
    requires
        0 <= n <= v.len(),
    ensures
        0 <= k < n && v[k].key == "catalog"@ && v[k].kind is Flag && (forall|m: int|
            k < m < n ==> (#[trigger] v[m]).key != "catalog"@) ==> catalog_flag(v, n) == v[k].kind->Flag_0,
        (forall|m: int| 0 <= m < n ==> (#[trigger] v[m]).key != "catalog"@) ==> catalog_flag(v, n),
    decreases n,
{
    if n > 0 {
        law_the_catalog_is_as_its_switch_says(v, n - 1, k);
    }
}

/// What is written to the file of the rules is what was changed: the rules that
/// are off under `disable`, the rulesets that are on under `include`, and the
/// catalog under its own name.
pub proof fn law_the_file_of_the_rules_is_told_what_changed(
    text: Seq<char>,
    all: Seq<FieldText>,
    f: FieldText,
)
    ensures
        ({
            let n = all.len() as int;
            let w = rules_written(text, all, seq![f]);
            &&& (starts_with(f.key, "disable:"@) ==> w == text_upserted(
                text,
                None,
                "disable"@,
                list_text(off_rules(all, n)),
            ))
            &&& (starts_with(f.key, "include:"@) ==> w == text_upserted(
                text,
                None,
                "include"@,
                list_text(rulesets_on(all, n)),
            ))
            &&& (f.key == "catalog"@ ==> w == text_upserted(
                text,
                None,
                "catalog"@,
                if catalog_flag(all, n) {
                    "true"@
                } else {
                    "false"@
                },
            ))
        }),
{
    reveal_strlit("disable:");
    reveal_strlit("include:");
    reveal_strlit("section:");
    reveal_strlit("catalog");
    let c = seq![f];
    assert(c[0] == f);
    assert("disable:"@[0] == 'd' && "include:"@[0] == 'i' && "section:"@[0] == 's' && "catalog"@[0] == 'c');
    assert("disable:"@.len() == 8 && "include:"@.len() == 8 && "section:"@.len() == 8 && "catalog"@.len() == 7);
    assert(starts_with(f.key, "disable:"@) ==> f.key.subrange(0, 8)[0] == 'd' && f.key[0] == 'd');
    assert(starts_with(f.key, "include:"@) ==> f.key.subrange(0, 8)[0] == 'i' && f.key[0] == 'i');
    assert(starts_with(f.key, "section:"@) ==> f.key.subrange(0, 8)[0] == 's' && f.key[0] == 's');
    assert(any_with_prefix(c, "disable:"@) <==> starts_with(f.key, "disable:"@));
    assert(any_with_prefix(c, "include:"@) <==> starts_with(f.key, "include:"@));
    assert(any_with_prefix(c, "section:"@) <==> starts_with(f.key, "section:"@));
    assert(any_of_key(c, "catalog"@) <==> f.key == "catalog"@);
}

/// A colour is written in the section of the theme under the name of its role,
/// and a binding in that of the bindings under its chord in quotes.
pub proof fn law_colors_and_bindings_have_their_sections(f: FieldText, rest: Seq<char>)
    ensures
        cut_at(f.key, "."@) == Some(("theme"@, rest)) ==> written_as(f).0 == Some("theme"@) && written_as(f).1 == rest,
        cut_at(f.key, "."@) == Some(("binds"@, rest)) ==> written_as(f).0 == Some("binds"@) && written_as(f).1 == "\""@
            + rest + "\""@,
{
    reveal_strlit("theme");
    reveal_strlit("binds");
    assert("theme"@[0] == 't' && "binds"@[0] == 'b');
}

/// A file that nothing changed in is left alone, one that was read is written
/// with what was changed in it, and one that could not be read is told of.
pub proof fn law_a_file_is_written_where_it_could_be_read(
    path: String,
    read: FileRead,
    touched: bool,
    written: spec_fn(Seq<char>) -> Seq<char>,
)
    ensures
        ({
            let p = file_planned(Some((path, read)), touched, written);
            &&& (!touched ==> p.0.len() == 0 && p.1.len() == 0)
            &&& (touched ==> match read {
                FileRead::Text(t) => p.0 == seq![(path@, written(t@))] && p.1.len() == 0,
                FileRead::Missing(_) => p.0.len() == 1 && p.0[0].0 == path@ && p.1.len() == 0,
                FileRead::Failed(why) => p.0.len() == 0 && p.1 == seq![path@ + ": "@ + why@],
            })
        }),
{
}

} // verus!
