//! The settings: what there is to set, what it is set to, and the files that
//! keep it.

use crate::keys::{action_help, action_name, action_text, bind_text, help_of, key_label, Bind, Keymap};
use crate::text::{copy_strings, number, decimal, option_text, same, texts};
use crate::theme::{
    hex_label, hex_text, role_color, role_list, theme, theme_name_list, theme_named, theme_names, theme_role_color,
    theme_roles, Color, Theme,
};
use vstd::prelude::*;

verus! {

/// What a setting is.
pub enum FieldKind {
    /// on or off
    Flag(bool),
    /// one of some options, by its place
    Choice(usize, Vec<String>),
    /// any text
    Text(String),
}

/// The same, as text.
pub ghost enum KindText {
    Flag(bool),
    Choice(usize, Seq<Seq<char>>),
    Text(Seq<char>),
}

impl FieldKind {
    pub open spec fn text(self) -> KindText {
        match self {
            FieldKind::Flag(v) => KindText::Flag(v),
            FieldKind::Choice(at, options) => KindText::Choice(at, texts(options@)),
            FieldKind::Text(t) => KindText::Text(t@),
        }
    }

    pub fn copied(&self) -> (r: FieldKind)
        ensures
            r.text() == self.text(),
    {
        match self {
            FieldKind::Flag(v) => FieldKind::Flag(*v),
            FieldKind::Choice(at, options) => FieldKind::Choice(*at, copy_strings(options)),
            FieldKind::Text(t) => FieldKind::Text(t.clone()),
        }
    }

    pub fn is_same(&self, other: &FieldKind) -> (r: bool)
        ensures
            r == (self.text() == other.text()),
    {
        match (self, other) {
            (FieldKind::Flag(a), FieldKind::Flag(b)) => *a == *b,
            (FieldKind::Choice(a, x), FieldKind::Choice(b, y)) => *a == *b && same_texts(x, y),
            (FieldKind::Text(a), FieldKind::Text(b)) => same(a, b),
            _ => false,
        }
    }
}

fn same_texts(a: &Vec<String>, b: &Vec<String>) -> (r: bool)
    ensures
        r == (texts(a@) == texts(b@)),
{
    if a.len() != b.len() {
        assert(texts(a@).len() != texts(b@).len());
        return false;
    }
    for i in 0..a.len()
        invariant
            a@.len() == b@.len(),
            forall|j: int| 0 <= j < i ==> texts(a@)[j] == texts(b@)[j],
    {
        assert(texts(a@)[i as int] == a@[i as int]@);
        assert(texts(b@)[i as int] == b@[i as int]@);
        if !same(&a[i], &b[i]) {
            return false;
        }
    }
    assert(texts(a@) =~= texts(b@));
    true
}

/// One setting: where it is kept, what it is, and what it means.
pub struct ConfigField {
    pub key: String,
    pub label: String,
    pub help: String,
    pub kind: FieldKind,
}

/// The same, as text.
pub ghost struct FieldText {
    pub key: Seq<char>,
    pub label: Seq<char>,
    pub help: Seq<char>,
    pub kind: KindText,
}

impl ConfigField {
    pub open spec fn text(self) -> FieldText {
        FieldText { key: self.key@, label: self.label@, help: self.help@, kind: self.kind.text() }
    }

    pub fn copied(&self) -> (r: ConfigField)
        ensures
            r.text() == self.text(),
    {
        ConfigField {
            key: self.key.clone(),
            label: self.label.clone(),
            help: self.help.clone(),
            kind: self.kind.copied(),
        }
    }
}

pub open spec fn field_texts(v: Seq<ConfigField>) -> Seq<FieldText> {
    Seq::new(v.len(), |i: int| v[i].text())
}

/// Settings that belong together, and the file that keeps them.
pub struct ConfigSection {
    pub title: String,
    pub file: String,
    pub fields: Vec<ConfigField>,
}

/// The same, as text.
pub ghost struct SectionText {
    pub title: Seq<char>,
    pub file: Seq<char>,
    pub fields: Seq<FieldText>,
}

impl ConfigSection {
    pub open spec fn text(self) -> SectionText {
        SectionText { title: self.title@, file: self.file@, fields: field_texts(self.fields@) }
    }
}

pub open spec fn section_texts(v: Seq<ConfigSection>) -> Seq<SectionText> {
    Seq::new(v.len(), |i: int| v[i].text())
}

/// A section of the engine's catalog: its name, and the names of its rules.
pub struct CatalogSection {
    pub name: String,
    pub rules: Vec<String>,
}

/// What there is to set, besides the keys and the theme.
pub struct Surface {
    /// the file of the program's own settings
    pub tui: Option<String>,
    /// the file of the reader's rules
    pub rules_file: Option<String>,
    /// whether documentation is read last
    pub docs_last: bool,
    /// whether the engine's catalog is on
    pub catalog: bool,
    /// the rules that are off
    pub disables: Vec<String>,
    /// the bundled rulesets that are on
    pub includes: Vec<String>,
    pub sections: Vec<CatalogSection>,
    /// the names of the bundled rulesets
    pub rulesets: Vec<String>,
}

/// What is told of a file that has no place.
pub open spec fn file_told(path: Option<Seq<char>>) -> Seq<char> {
    match path {
        Some(p) => p,
        None => "(no config directory — $XDG_CONFIG_HOME or $HOME unset)"@,
    }
}

fn tell_file(path: &Option<String>) -> (r: String)
    ensures
        r@ == file_told(option_text(*path)),
{
    match path {
        Some(p) => p.clone(),
        None => "(no config directory — $XDG_CONFIG_HOME or $HOME unset)".to_owned(),
    }
}

/// The place of a text among others, from `from` on; the first where it is not
/// there.
pub open spec fn option_place(options: Seq<Seq<char>>, x: Seq<char>, from: int) -> usize
    decreases options.len() - from,
{
    if from >= options.len() {
        0
    } else if options[from] == x {
        from as usize
    } else {
        option_place(options, x, from + 1)
    }
}

pub open spec fn choice_of(current: Seq<char>, options: Seq<Seq<char>>) -> KindText {
    KindText::Choice(option_place(options, current, 0), options)
}

fn choice(current: &str, options: Vec<String>) -> (r: FieldKind)
    ensures
        r.text() == choice_of(current@, texts(options@)),
{
    let ghost all = texts(options@);
    let n: usize = options.len();
    let mut at: usize = 0;
    let mut i: usize = 0;
    while i < n && !same(&options[i], current)
        invariant
            n == options@.len(),
            all == texts(options@),
            i <= n,
            option_place(all, current@, 0) == option_place(all, current@, i as int),
        decreases n - i,
    {
        assert(all[i as int] == options@[i as int]@);
        i = i + 1;
    }
    if i < n {
        assert(all[i as int] == options@[i as int]@);
        at = i;
    }
    FieldKind::Choice(at, options)
}

fn field_of(key: String, label: String, help: &str, kind: FieldKind) -> (r: ConfigField)
    ensures
        r.text() == (FieldText { key: key@, label: label@, help: help@, kind: kind.text() }),
{
    ConfigField { key, label, help: help.to_owned(), kind }
}

/// The general settings.
pub open spec fn general_fields(keys: Seq<char>, theme: Seq<char>, docs_last: bool) -> Seq<FieldText> {
    seq![
        FieldText {
            key: "preset"@,
            label: "keymap preset"@,
            help: "which set of bindings the reader starts from"@,
            kind: choice_of(keys, seq!["vim"@, "vscode"@]),
        },
        FieldText {
            key: "docs_last"@,
            label: "docs read last"@,
            help: "a docs-only hunk sorts after the code it describes"@,
            kind: KindText::Flag(docs_last),
        },
        FieldText {
            key: "theme"@,
            label: "theme"@,
            help: "the palette; the roles below override it"@,
            kind: choice_of(theme, theme_name_list()),
        },
    ]
}

fn general_section(keys: &Keymap, theme: &Theme, docs_last: bool) -> (r: Vec<ConfigField>)
    ensures
        field_texts(r@) == general_fields(keys.name@, theme.name@, docs_last),
{
    let mut presets: Vec<String> = Vec::new();
    presets.push("vim".to_owned());
    presets.push("vscode".to_owned());
    assert(texts(presets@) =~= seq!["vim"@, "vscode"@]);
    let mut v: Vec<ConfigField> = Vec::new();
    v.push(
        field_of(
            "preset".to_owned(),
            "keymap preset".to_owned(),
            "which set of bindings the reader starts from",
            choice(keys.name, presets),
        ),
    );
    v.push(
        field_of(
            "docs_last".to_owned(),
            "docs read last".to_owned(),
            "a docs-only hunk sorts after the code it describes",
            FieldKind::Flag(docs_last),
        ),
    );
    v.push(
        field_of(
            "theme".to_owned(),
            "theme".to_owned(),
            "the palette; the roles below override it",
            choice(theme.name, theme_names()),
        ),
    );
    assert(field_texts(v@) =~= general_fields(keys.name@, theme.name@, docs_last));
    v
}

/// Whether all of some rules are off.
pub open spec fn all_off(rules: Seq<Seq<char>>, disables: Seq<Seq<char>>) -> bool {
    forall|k: int| 0 <= k < rules.len() ==> disables.contains(#[trigger] rules[k])
}

/// The switch of a section of the catalog.
pub open spec fn section_field(name: Seq<char>, rules: Seq<Seq<char>>, disables: Seq<Seq<char>>) -> FieldText {
    FieldText {
        key: "section:"@ + name,
        label: "  "@ + name + " ("@ + decimal(rules.len() as int) + " rules)"@,
        help: "every rule in this file"@,
        kind: KindText::Flag(!all_off(rules, disables)),
    }
}

/// The switch of a rule of the catalog.
pub open spec fn rule_field(rule: Seq<char>, disables: Seq<Seq<char>>) -> FieldText {
    FieldText {
        key: "disable:"@ + rule,
        label: "    "@ + rule,
        help: ""@,
        kind: KindText::Flag(!disables.contains(rule)),
    }
}

pub open spec fn rule_fields(rules: Seq<Seq<char>>, disables: Seq<Seq<char>>) -> Seq<FieldText> {
    Seq::new(rules.len(), |k: int| rule_field(rules[k], disables))
}

/// The settings of the catalog and its first `n` sections: one for all, one for
/// each section, and one for each rule.
pub open spec fn catalog_fields(catalog: bool, sections: Seq<CatalogSection>, disables: Seq<Seq<char>>, n: int) -> Seq<
    FieldText,
>
    decreases n,
{
    if n <= 0 {
        seq![
            FieldText {
                key: "catalog"@,
                label: "construct catalog"@,
                help: "the built-in advisories; off leaves only your own rules"@,
                kind: KindText::Flag(catalog),
            },
        ]
    } else {
        let s = sections[n - 1];
        catalog_fields(catalog, sections, disables, n - 1).push(
            section_field(s.name@, texts(s.rules@), disables),
        ) + rule_fields(texts(s.rules@), disables)
    }
}

fn push_field(v: &mut Vec<ConfigField>, f: ConfigField)
    ensures
        field_texts(final(v)@) == field_texts(old(v)@).push(f.text()),
{
    let ghost had = field_texts(v@);
    v.push(f);
    assert(field_texts(v@) =~= had.push(f.text()));
}

fn are_all_off(rules: &Vec<String>, disables: &Vec<String>) -> (r: bool)
    ensures
        r == all_off(texts(rules@), texts(disables@)),
{
    for k in 0..rules.len()
        invariant
            forall|j: int| 0 <= j < k ==> texts(disables@).contains(#[trigger] texts(rules@)[j]),
    {
        assert(texts(rules@)[k as int] == rules@[k as int]@);
        if !crate::editor::holds(disables, &rules[k]) {
            return false;
        }
    }
    true
}

fn catalog_section(catalog: bool, sections: &Vec<CatalogSection>, disables: &Vec<String>) -> (r: Vec<ConfigField>)
    ensures
        field_texts(r@) == catalog_fields(catalog, sections@, texts(disables@), sections@.len() as int),
{
    let ghost off = texts(disables@);
    let mut v: Vec<ConfigField> = Vec::new();
    v.push(
        field_of(
            "catalog".to_owned(),
            "construct catalog".to_owned(),
            "the built-in advisories; off leaves only your own rules",
            FieldKind::Flag(catalog),
        ),
    );
    assert(field_texts(v@) =~= catalog_fields(catalog, sections@, off, 0));
    for i in 0..sections.len()
        invariant
            off == texts(disables@),
            field_texts(v@) == catalog_fields(catalog, sections@, off, i as int),
    {
        let s = &sections[i];
        let ghost rules = texts(s.rules@);
        let label = "  ".to_owned().concat(&s.name).concat(" (").concat(&number(s.rules.len())).concat(
            " rules)",
        );
        push_field(
            &mut v,
            field_of(
                "section:".to_owned().concat(&s.name),
                label,
                "every rule in this file",
                FieldKind::Flag(!are_all_off(&s.rules, disables)),
            ),
        );
        let ghost base = field_texts(v@);
        assert(base + rule_fields(rules, off).take(0) =~= base);
        for k in 0..s.rules.len()
            invariant
                *s == sections@[i as int],
                rules == texts(s.rules@),
                off == texts(disables@),
                field_texts(v@) == base + rule_fields(rules, off).take(k as int),
        {
            let name = &s.rules[k];
            assert(rules[k as int] == name@);
            push_field(
                &mut v,
                field_of(
                    "disable:".to_owned().concat(name),
                    "    ".to_owned().concat(name),
                    "",
                    FieldKind::Flag(!crate::editor::holds(disables, name)),
                ),
            );
            assert(rule_fields(rules, off).take(k + 1) =~= rule_fields(rules, off).take(k as int).push(
                rule_fields(rules, off)[k as int],
            ));
            assert(field_texts(v@) =~= base + rule_fields(rules, off).take(k + 1));
        }
        assert(rules.len() == s.rules@.len());
        assert(rule_fields(rules, off).take(s.rules@.len() as int) =~= rule_fields(rules, off));
    }
    v
}

/// The switches of the bundled rulesets.
pub open spec fn ruleset_fields(names: Seq<Seq<char>>, includes: Seq<Seq<char>>) -> Seq<FieldText> {
    Seq::new(
        names.len(),
        |k: int|
            FieldText {
                key: "include:"@ + names[k],
                label: names[k],
                help: "a bundled convention set"@,
                kind: KindText::Flag(includes.contains(names[k])),
            },
    )
}

fn ruleset_section(names: &Vec<String>, includes: &Vec<String>) -> (r: Vec<ConfigField>)
    ensures
        field_texts(r@) == ruleset_fields(texts(names@), texts(includes@)),
{
    let mut v: Vec<ConfigField> = Vec::new();
    let ghost all = ruleset_fields(texts(names@), texts(includes@));
    assert(field_texts(v@) =~= all.take(0));
    for k in 0..names.len()
        invariant
            all == ruleset_fields(texts(names@), texts(includes@)),
            field_texts(v@) == all.take(k as int),
    {
        let name = &names[k];
        assert(texts(names@)[k as int] == name@);
        push_field(
            &mut v,
            field_of(
                "include:".to_owned().concat(name),
                name.clone(),
                "a bundled convention set",
                FieldKind::Flag(crate::editor::holds(includes, name)),
            ),
        );
        assert(all.take(k + 1) =~= all.take(k as int).push(all[k as int]));
    }
    assert(texts(names@).len() == names@.len());
    assert(all.take(names@.len() as int) =~= all);
    v
}

/// The colour of a role where it was changed from the theme's own.
pub open spec fn role_override(t: Theme, role: Seq<char>) -> Seq<char> {
    let cur = role_color(t, role);
    let own = theme_named(t.name@);
    match cur {
        Color::Rgb(r, g, b) => if own is None || role_color(own->0, role) != cur {
            hex_text(r, g, b)
        } else {
            ""@
        },
        _ => ""@,
    }
}

/// The settings of the theme's roles.
pub open spec fn role_fields(t: Theme) -> Seq<FieldText> {
    let roles = role_list();
    Seq::new(
        roles.len(),
        |k: int|
            FieldText {
                key: "theme."@ + roles[k],
                label: roles[k],
                help: "#rrggbb, or empty to follow the theme"@,
                kind: KindText::Text(role_override(t, roles[k])),
            },
    )
}

fn override_of(t: &Theme, role: &str) -> (r: String)
    ensures
        r@ == role_override(*t, role@),
{
    let cur = theme_role_color(t, role);
    let changed = match theme(t.name) {
        Some(own) => theme_role_color(&own, role) != cur,
        None => true,
    };
    match cur {
        Color::Rgb(r, g, b) => if changed {
            hex_label(r, g, b)
        } else {
            "".to_owned()
        },
        _ => "".to_owned(),
    }
}

fn role_section(t: &Theme) -> (r: Vec<ConfigField>)
    ensures
        field_texts(r@) == role_fields(*t),
{
    let roles = theme_roles();
    let mut v: Vec<ConfigField> = Vec::new();
    let ghost all = role_fields(*t);
    assert(field_texts(v@) =~= all.take(0));
    for k in 0..roles.len()
        invariant
            all == role_fields(*t),
            roles@.len() == role_list().len(),
            forall|j: int| 0 <= j < roles@.len() ==> (#[trigger] roles@[j])@ == role_list()[j],
            field_texts(v@) == all.take(k as int),
    {
        let role = roles[k];
        push_field(
            &mut v,
            field_of(
                "theme.".to_owned().concat(role),
                role.to_owned(),
                "#rrggbb, or empty to follow the theme",
                FieldKind::Text(override_of(t, role)),
            ),
        );
        assert(all.take(k + 1) =~= all.take(k as int).push(all[k as int]));
    }
    assert(all.take(roles@.len() as int) =~= all);
    v
}

/// The settings of the bindings.
pub open spec fn bind_fields(binds: Seq<Bind>) -> Seq<FieldText> {
    Seq::new(
        binds.len(),
        |k: int|
            FieldText {
                key: "binds."@ + bind_text(binds[k].0, binds[k].1),
                label: bind_text(binds[k].0, binds[k].1),
                help: help_of(binds[k].2).1,
                kind: KindText::Text(action_text(binds[k].2)),
            },
    )
}

fn bind_section(keys: &Keymap) -> (r: Vec<ConfigField>)
    ensures
        field_texts(r@) == bind_fields(keys.binds@),
{
    let mut v: Vec<ConfigField> = Vec::new();
    let ghost all = bind_fields(keys.binds@);
    assert(field_texts(v@) =~= all.take(0));
    for k in 0..keys.binds.len()
        invariant
            all == bind_fields(keys.binds@),
            field_texts(v@) == all.take(k as int),
    {
        let (prefix, key, action) = keys.binds[k];
        let chord = match prefix {
            Some(p) => key_label(p).concat(" ").concat(&key_label(key)),
            None => key_label(key),
        };
        push_field(
            &mut v,
            field_of(
                "binds.".to_owned().concat(&chord),
                chord,
                action_help(action).1,
                FieldKind::Text(action_name(action).to_owned()),
            ),
        );
        assert(all.take(k + 1) =~= all.take(k as int).push(all[k as int]));
    }
    assert(all.take(keys.binds@.len() as int) =~= all);
    v
}

/// All there is to set.
pub open spec fn schema_of(s: Surface, keys: Keymap, t: Theme) -> Seq<SectionText> {
    let tui = file_told(option_text(s.tui));
    let rules = file_told(option_text(s.rules_file));
    seq![
        SectionText { title: "general"@, file: tui, fields: general_fields(keys.name@, t.name@, s.docs_last) },
        SectionText {
            title: "catalog"@,
            file: rules,
            fields: catalog_fields(s.catalog, s.sections@, texts(s.disables@), s.sections@.len() as int),
        },
        SectionText {
            title: "rulesets"@,
            file: rules,
            fields: ruleset_fields(texts(s.rulesets@), texts(s.includes@)),
        },
        SectionText { title: "theme roles"@, file: tui, fields: role_fields(t) },
        SectionText { title: "keys"@, file: tui, fields: bind_fields(keys.binds@) },
    ]
}

fn section_of(title: &str, file: &Option<String>, fields: Vec<ConfigField>) -> (r: ConfigSection)
    ensures
        r.text() == (SectionText {
            title: title@,
            file: file_told(option_text(*file)),
            fields: field_texts(fields@),
        }),
{
    ConfigSection { title: title.to_owned(), file: tell_file(file), fields }
}

/// All there is to set: the general settings, the catalog, the bundled rulesets,
/// the roles of the theme, and the bindings.
pub fn config_schema(s: &Surface, keys: &Keymap, t: &Theme) -> (r: Vec<ConfigSection>)
    ensures
        section_texts(r@) == schema_of(*s, *keys, *t),
{
    let mut v: Vec<ConfigSection> = Vec::new();
    v.push(section_of("general", &s.tui, general_section(keys, t, s.docs_last)));
    v.push(section_of("catalog", &s.rules_file, catalog_section(s.catalog, &s.sections, &s.disables)));
    v.push(section_of("rulesets", &s.rules_file, ruleset_section(&s.rulesets, &s.includes)));
    v.push(section_of("theme roles", &s.tui, role_section(t)));
    v.push(section_of("keys", &s.tui, bind_section(keys)));
    assert(section_texts(v@) =~= schema_of(*s, *keys, *t));
    v
}

} // verus!
