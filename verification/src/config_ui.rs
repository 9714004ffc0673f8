//! The settings as they are being changed, and what the changes mean.

use crate::config::{
    config_schema, field_texts, schema_of, section_texts, CatalogSection, ConfigField, ConfigSection, FieldKind,
    FieldText, KindText, SectionText, Surface,
};
use crate::keys::Keymap;
use crate::text::{option_text, same, starts_with, strip_prefix, texts};
use crate::theme::{theme, Theme};
use vstd::prelude::*;

verus! {

/// The settings as they are being changed.
pub struct ConfigUi {
    pub sections: Vec<ConfigSection>,
    /// the settings as they were when the view was opened, or last written
    pub original: Vec<ConfigSection>,
    /// every setting in order, by section and place
    pub rows: Vec<(usize, usize)>,
    pub sel: usize,
    /// whether something was changed and not written
    pub dirty: bool,
    /// the text being typed into the selected setting
    pub editing: Option<String>,
}

/// The same, as text.
pub ghost struct UiText {
    pub sections: Seq<SectionText>,
    pub original: Seq<SectionText>,
    pub rows: Seq<(usize, usize)>,
    pub sel: usize,
    pub dirty: bool,
    pub editing: Option<Seq<char>>,
}

/// The rest of a text behind a prefix.
pub open spec fn behind_prefix(s: Seq<char>, pat: Seq<char>) -> Option<Seq<char>> {
    if starts_with(s, pat) {
        Some(s.skip(pat.len() as int))
    } else {
        None
    }
}

/// The rows of the first `n` sections.
pub open spec fn rows_of(sections: Seq<SectionText>, n: int) -> Seq<(usize, usize)>
    decreases n,
{
    if n <= 0 {
        Seq::empty()
    } else {
        rows_of(sections, n - 1) + Seq::new(
            sections[n - 1].fields.len(),
            |j: int| ((n - 1) as usize, j as usize),
        )
    }
}

/// The setting of a row.
pub open spec fn field_at(u: UiText, at: int) -> Option<FieldText> {
    if 0 <= at < u.rows.len() {
        let (i, j) = u.rows[at];
        if i < u.sections.len() && j < u.sections[i as int].fields.len() {
            Some(u.sections[i as int].fields[j as int])
        } else {
            None
        }
    } else {
        None
    }
}

/// The sections with one setting changed.
pub open spec fn with_kind(v: Seq<SectionText>, i: int, j: int, kind: KindText) -> Seq<SectionText> {
    let s = v[i];
    v.update(i, SectionText { fields: s.fields.update(j, FieldText { kind, ..s.fields[j] }), ..s })
}

/// A setting after the rules of a section were all set.
pub open spec fn rule_set(f: FieldText, rules: Seq<Seq<char>>, on: bool) -> FieldText {
    match behind_prefix(f.key, "disable:"@) {
        Some(rule) => if rules.contains(rule) {
            FieldText { kind: KindText::Flag(on), ..f }
        } else {
            f
        },
        None => f,
    }
}

pub open spec fn section_rules_set(s: SectionText, rules: Seq<Seq<char>>, on: bool) -> SectionText {
    SectionText { fields: Seq::new(s.fields.len(), |j: int| rule_set(s.fields[j], rules, on)), ..s }
}

pub open spec fn rules_set(v: Seq<SectionText>, rules: Seq<Seq<char>>, on: bool) -> Seq<SectionText> {
    Seq::new(v.len(), |i: int| section_rules_set(v[i], rules, on))
}

/// The first section of the catalog of a name.
pub open spec fn catalog_place(catalog: Seq<CatalogSection>, name: Seq<char>, from: int) -> Option<int>
    decreases catalog.len() - from,
{
    if from >= catalog.len() {
        None
    } else if catalog[from].name@ == name {
        Some(from)
    } else {
        catalog_place(catalog, name, from + 1)
    }
}

/// The rules of a section of the catalog.
pub open spec fn rules_under(catalog: Seq<CatalogSection>, name: Seq<char>) -> Seq<Seq<char>> {
    match catalog_place(catalog, name, 0) {
        Some(k) => texts(catalog[k].rules@),
        None => Seq::empty(),
    }
}

/// Whether a setting is the switch of a rule, and on.
pub open spec fn is_rule_on(f: FieldText, rule: Seq<char>) -> bool {
    behind_prefix(f.key, "disable:"@) == Some(rule) && f.kind == KindText::Flag(true)
}

/// Whether a rule is on in some section.
pub open spec fn rule_on(v: Seq<SectionText>, rule: Seq<char>) -> bool {
    exists|i: int, j: int| 0 <= i < v.len() && 0 <= j < v[i].fields.len() && is_rule_on(#[trigger] v[i].fields[j], rule)
}

/// Whether some rule is on.
pub open spec fn any_on(v: Seq<SectionText>, rules: Seq<Seq<char>>) -> bool {
    exists|k: int| 0 <= k < rules.len() && rule_on(v, #[trigger] rules[k])
}

/// A setting after the switches of the sections were brought in line: one is on
/// while any of its rules is.
pub open spec fn switch_synced(f: FieldText, v: Seq<SectionText>, catalog: Seq<CatalogSection>) -> FieldText {
    match behind_prefix(f.key, "section:"@) {
        Some(name) => match catalog_place(catalog, name, 0) {
            Some(k) => FieldText { kind: KindText::Flag(any_on(v, texts(catalog[k].rules@))), ..f },
            None => f,
        },
        None => f,
    }
}

pub open spec fn section_synced(s: SectionText, v: Seq<SectionText>, catalog: Seq<CatalogSection>) -> SectionText {
    SectionText { fields: Seq::new(s.fields.len(), |j: int| switch_synced(s.fields[j], v, catalog)), ..s }
}

pub open spec fn all_synced(v: Seq<SectionText>, catalog: Seq<CatalogSection>) -> Seq<SectionText> {
    Seq::new(v.len(), |i: int| section_synced(v[i], v, catalog))
}

/// What changing the selected setting does, and whether it changes anything: a
/// flag is turned over, a choice goes on to the next option, a text is opened
/// for editing. The switch of a section carries its rules.
pub open spec fn toggled(u: UiText, catalog: Seq<CatalogSection>) -> (UiText, bool) {
    match field_at(u, u.sel as int) {
        None => (u, false),
        Some(f) => {
            let (i, j) = u.rows[u.sel as int];
            match f.kind {
                KindText::Text(t) => (UiText { editing: Some(t), ..u }, false),
                KindText::Flag(v) => {
                    let flipped = with_kind(u.sections, i as int, j as int, KindText::Flag(!v));
                    let carried = match behind_prefix(f.key, "section:"@) {
                        Some(name) => rules_set(flipped, rules_under(catalog, name), !v),
                        None => flipped,
                    };
                    (UiText { sections: all_synced(carried, catalog), dirty: true, ..u }, true)
                },
                KindText::Choice(at, options) => {
                    let next = if options.len() == 0 {
                        at
                    } else {
                        ((at + 1) % (options.len() as int)) as usize
                    };
                    let moved = with_kind(u.sections, i as int, j as int, KindText::Choice(next, options));
                    (UiText { sections: all_synced(moved, catalog), dirty: true, ..u }, true)
                },
            }
        },
    }
}

/// What taking the typed text does.
pub open spec fn edit_taken(u: UiText) -> UiText {
    match u.editing {
        None => u,
        Some(text) => {
            let closed = UiText { editing: None, ..u };
            match field_at(u, u.sel as int) {
                Some(f) => match f.kind {
                    KindText::Text(t) => if t == text {
                        closed
                    } else {
                        let (i, j) = u.rows[u.sel as int];
                        UiText {
                            sections: with_kind(u.sections, i as int, j as int, KindText::Text(text)),
                            dirty: true,
                            ..closed
                        }
                    },
                    _ => closed,
                },
                None => closed,
            }
        },
    }
}

fn copy_section(s: &ConfigSection) -> (r: ConfigSection)
    ensures
        r.text() == s.text(),
{
    let mut fields: Vec<ConfigField> = Vec::new();
    let ghost all = field_texts(s.fields@);
    for i in 0..s.fields.len()
        invariant
            all == field_texts(s.fields@),
            field_texts(fields@) == all.take(i as int),
    {
        let ghost had = field_texts(fields@);
        fields.push(s.fields[i].copied());
        assert(field_texts(fields@) =~= had.push(all[i as int]));
        assert(all.take(i + 1) =~= all.take(i as int).push(all[i as int]));
    }
    assert(all.take(s.fields@.len() as int) =~= all);
    ConfigSection { title: s.title.clone(), file: s.file.clone(), fields }
}

pub fn copy_sections(v: &Vec<ConfigSection>) -> (r: Vec<ConfigSection>)
    ensures
        section_texts(r@) == section_texts(v@),
{
    let mut out: Vec<ConfigSection> = Vec::new();
    let ghost all = section_texts(v@);
    for i in 0..v.len()
        invariant
            all == section_texts(v@),
            section_texts(out@) == all.take(i as int),
    {
        let ghost had = section_texts(out@);
        out.push(copy_section(&v[i]));
        assert(section_texts(out@) =~= had.push(all[i as int]));
        assert(all.take(i + 1) =~= all.take(i as int).push(all[i as int]));
    }
    assert(all.take(v@.len() as int) =~= all);
    out
}

fn put_kind(v: &mut Vec<ConfigSection>, i: usize, j: usize, kind: FieldKind)
    requires
        i < old(v)@.len(),
        j < old(v)@[i as int].fields@.len(),
    ensures
        section_texts(final(v)@) == with_kind(section_texts(old(v)@), i as int, j as int, kind.text()),
        final(v)@.len() == old(v)@.len(),
        forall|k: int| 0 <= k < final(v)@.len() ==> (#[trigger] final(v)@[k]).fields@.len() == old(v)@[k].fields@.len(),
{
    let ghost before = v@;
    v[i].fields[j].kind = kind;
    proof {
        let a = section_texts(v@);
        let b = with_kind(section_texts(before), i as int, j as int, kind.text());
        assert forall|k: int| 0 <= k < a.len() implies a[k] == b[k] by {
            if k == i {
                assert(a[k].fields =~= b[k].fields);
            }
        }
        assert(a =~= b);
    }
}

impl ConfigUi {
    pub open spec fn text(self) -> UiText {
        UiText {
            sections: section_texts(self.sections@),
            original: section_texts(self.original@),
            rows: self.rows@,
            sel: self.sel,
            dirty: self.dirty,
            editing: option_text(self.editing),
        }
    }

    /// The settings, as they are opened.
    pub fn open(s: &Surface, keys: &Keymap, t: &Theme) -> (r: ConfigUi)
        ensures
            r.text() == (UiText {
                sections: schema_of(*s, *keys, *t),
                original: schema_of(*s, *keys, *t),
                rows: rows_of(schema_of(*s, *keys, *t), 5),
                sel: 0,
                dirty: false,
                editing: None,
            }),
    {
        let sections = config_schema(s, keys, t);
        let ghost all = schema_of(*s, *keys, *t);
        let mut rows: Vec<(usize, usize)> = Vec::new();
        for i in 0..sections.len()
            invariant
                section_texts(sections@) == all,
                rows@ == rows_of(all, i as int),
        {
            let ghost had = rows@;
            let ghost here = Seq::new(all[i as int].fields.len(), |j: int| (i, j as usize));
            assert(had + here.take(0) =~= had);
            let m: usize = sections[i].fields.len();
            for j in 0..m
                invariant
                    i < sections@.len(),
                    m == sections@[i as int].fields@.len(),
                    section_texts(sections@) == all,
                    here == Seq::new(all[i as int].fields.len(), |j: int| (i, j as usize)),
                    rows@ == had + here.take(j as int),
            {
                assert(all[i as int] == sections@[i as int].text());
                rows.push((i, j));
                assert(here.take(j + 1) =~= here.take(j as int).push((i, j)));
                assert(rows@ =~= had + here.take(j + 1));
            }
            assert(all[i as int] == sections@[i as int].text());
            assert(here.take(sections@[i as int].fields@.len() as int) =~= here);
            assert(rows@ =~= rows_of(all, i + 1));
        }
        assert(sections@.len() == all.len());
        let original = copy_sections(&sections);
        ConfigUi { sections, original, rows, sel: 0, dirty: false, editing: None }
    }

    /// The place of a row's setting, where it has one.
    fn place(&self, at: usize) -> (r: Option<(usize, usize)>)
        ensures
            match r {
                Some((i, j)) => at < self.rows@.len() && self.rows@[at as int] == (i, j) && i < self.sections@.len()
                    && j < self.sections@[i as int].fields@.len() && field_at(self.text(), at as int) == Some(
                    self.sections@[i as int].fields@[j as int].text(),
                ),
                None => field_at(self.text(), at as int) is None,
            },
    {
        if at >= self.rows.len() {
            return None;
        }
        let (i, j) = self.rows[at];
        if i >= self.sections.len() {
            return None;
        }
        assert(self.text().sections[i as int] == self.sections@[i as int].text());
        if j >= self.sections[i].fields.len() {
            return None;
        }
        Some((i, j))
    }

    /// The setting of a row.
    pub fn field(&self, at: usize) -> (r: Option<&ConfigField>)
        ensures
            match r {
                Some(f) => field_at(self.text(), at as int) == Some(f.text()),
                None => field_at(self.text(), at as int) is None,
            },
    {
        match self.place(at) {
            Some((i, j)) => Some(&self.sections[i].fields[j]),
            None => None,
        }
    }

    /// Sets every rule of a section of the catalog.
    pub fn set_section(&mut self, section: &str, on: bool, catalog: &Vec<CatalogSection>)
        ensures
            final(self).text() == (UiText {
                sections: rules_set(old(self).text().sections, rules_under(catalog@, section@), on),
                ..old(self).text()
            }),
            same_shape(final(self).sections@, old(self).sections@),
    {
        let ghost start = self.text();
        let ghost first = self.sections@;
        let found = find_section(catalog, section);
        let none: Vec<String> = Vec::new();
        assert(texts(none@) =~= Seq::empty());
        let rules = match found {
            Some(k) => &catalog[k].rules,
            None => &none,
        };
        let ghost names = texts(rules@);
        let n: usize = self.sections.len();
        for i in 0..n
            invariant
                n == self.sections@.len(),
                names == texts(rules@),
                start.sections == section_texts(first),
                same_shape(self.sections@, first),
                self.text() == (UiText { sections: self.text().sections, ..start }),
                forall|k: int|
                    0 <= k < i ==> (#[trigger] self.sections@[k]).text() == section_rules_set(start.sections[k], names, on),
                forall|k: int| i <= k < n ==> (#[trigger] self.sections@[k]).text() == start.sections[k],
        {
            let m: usize = self.sections[i].fields.len();
            for j in 0..m
                invariant
                    i < n,
                    n == self.sections@.len(),
                    m == first[i as int].fields@.len(),
                    names == texts(rules@),
                    start.sections == section_texts(first),
                    same_shape(self.sections@, first),
                    self.text() == (UiText { sections: self.text().sections, ..start }),
                    forall|k: int|
                        0 <= k < i ==> (#[trigger] self.sections@[k]).text() == section_rules_set(
                            start.sections[k],
                            names,
                            on,
                        ),
                    forall|k: int| i < k < n ==> (#[trigger] self.sections@[k]).text() == start.sections[k],
                    self.sections@[i as int].text() == (SectionText {
                        fields: self.sections@[i as int].text().fields,
                        ..start.sections[i as int]
                    }),
                    forall|k: int|
                        0 <= k < j ==> (#[trigger] self.sections@[i as int].text().fields[k]) == rule_set(
                            start.sections[i as int].fields[k],
                            names,
                            on,
                        ),
                    forall|k: int|
                        j <= k < m ==> (#[trigger] self.sections@[i as int].text().fields[k])
                            == start.sections[i as int].fields[k],
            {
                let ghost before = self.sections@;
                assert(self.sections@[i as int].text().fields[j as int] == self.sections@[i as int].fields@[j as int].text());
                if let Some(rule) = strip_prefix(&self.sections[i].fields[j].key, "disable:") {
                    if crate::editor::holds(rules, &rule) {
                        put_kind(&mut self.sections, i, j, FieldKind::Flag(on));
                        proof {
                            lemma_put(before, self.sections@, i as int, j as int, KindText::Flag(on));
                        }
                    }
                }
            }
            assert(self.sections@[i as int].text().fields =~= section_rules_set(start.sections[i as int], names, on).fields);
        }
        assert(self.text().sections =~= rules_set(start.sections, names, on));
    }
}

/// Whether two rows of sections have as many settings each.
pub open spec fn same_shape(a: Seq<ConfigSection>, b: Seq<ConfigSection>) -> bool {
    a.len() == b.len() && forall|k: int| 0 <= k < a.len() ==> (#[trigger] a[k]).fields@.len() == b[k].fields@.len()
}

proof fn lemma_put(a: Seq<ConfigSection>, b: Seq<ConfigSection>, i: int, j: int, kind: KindText)
    requires
        0 <= i < a.len(),
        0 <= j < a[i].fields@.len(),
        b.len() == a.len(),
        section_texts(b) == with_kind(section_texts(a), i, j, kind),
    ensures
        forall|k: int| 0 <= k < a.len() && k != i ==> (#[trigger] b[k]).text() == a[k].text(),
        b[i].text() == (SectionText {
            fields: a[i].text().fields.update(j, FieldText { kind, ..a[i].text().fields[j] }),
            ..a[i].text()
        }),
{
    let sa = section_texts(a);
    let sb = section_texts(b);
    assert forall|k: int| 0 <= k < a.len() && k != i implies (#[trigger] b[k]).text() == a[k].text() by {
        assert(sb[k] == b[k].text());
        assert(sa[k] == a[k].text());
        assert(with_kind(sa, i, j, kind)[k] == sa[k]);
    }
    assert(sb[i] == b[i].text());
    assert(sa[i] == a[i].text());
}

fn find_section(catalog: &Vec<CatalogSection>, name: &str) -> (r: Option<usize>)
    ensures
        match r {
            Some(k) => k < catalog@.len() && catalog_place(catalog@, name@, 0) == Some(k as int),
            None => catalog_place(catalog@, name@, 0) is None,
        },
{
    let n: usize = catalog.len();
    for k in 0..n
        invariant
            n == catalog@.len(),
            catalog_place(catalog@, name@, 0) == catalog_place(catalog@, name@, k as int),
    {
        if same(&catalog[k].name, name) {
            return Some(k);
        }
    }
    None
}

fn rule_is_on(v: &Vec<ConfigSection>, rule: &str) -> (r: bool)
    ensures
        r == rule_on(section_texts(v@), rule@),
{
    let ghost all = section_texts(v@);
    let n: usize = v.len();
    for i in 0..n
        invariant
            n == v@.len(),
            all == section_texts(v@),
            forall|a: int, b: int|
                0 <= a < i && 0 <= b < all[a].fields.len() ==> !is_rule_on(#[trigger] all[a].fields[b], rule@),
    {
        let m: usize = v[i].fields.len();
        assert(all[i as int] == v@[i as int].text());
        for j in 0..m
            invariant
                n == v@.len(),
                i < n,
                m == v@[i as int].fields@.len(),
                all == section_texts(v@),
                all[i as int] == v@[i as int].text(),
                forall|b: int| 0 <= b < j ==> !is_rule_on(#[trigger] all[i as int].fields[b], rule@),
        {
            assert(all[i as int].fields[j as int] == v@[i as int].fields@[j as int].text());
            let f = &v[i].fields[j];
            let on = match f.kind {
                FieldKind::Flag(b) => b,
                _ => false,
            };
            if on {
                if let Some(name) = strip_prefix(&f.key, "disable:") {
                    if same(&name, rule) {
                        assert(is_rule_on(all[i as int].fields[j as int], rule@));
                        return true;
                    }
                }
            }
        }
    }
    false
}

fn any_is_on(v: &Vec<ConfigSection>, rules: &Vec<String>) -> (r: bool)
    ensures
        r == any_on(section_texts(v@), texts(rules@)),
{
    for k in 0..rules.len()
        invariant
            forall|j: int| 0 <= j < k ==> !rule_on(section_texts(v@), #[trigger] texts(rules@)[j]),
    {
        assert(texts(rules@)[k as int] == rules@[k as int]@);
        if rule_is_on(v, &rules[k]) {
            return true;
        }
    }
    false
}

/// Which sections of the catalog have a rule that is on.
fn sections_on(v: &Vec<ConfigSection>, catalog: &Vec<CatalogSection>) -> (r: Vec<bool>)
    ensures
        r@.len() == catalog@.len(),
        forall|k: int| 0 <= k < r@.len() ==> #[trigger] r@[k] == any_on(section_texts(v@), texts(catalog@[k].rules@)),
{
    let mut out: Vec<bool> = Vec::new();
    for k in 0..catalog.len()
        invariant
            out@.len() == k,
            forall|j: int| 0 <= j < k ==> #[trigger] out@[j] == any_on(section_texts(v@), texts(catalog@[j].rules@)),
    {
        out.push(any_is_on(v, &catalog[k].rules));
    }
    out
}

/// The settings of the first `n` sections, in order.
pub open spec fn all_fields(v: Seq<SectionText>, n: int) -> Seq<FieldText>
    decreases n,
{
    if n <= 0 {
        Seq::empty()
    } else {
        all_fields(v, n - 1) + v[n - 1].fields
    }
}

/// All the settings, in order.
pub open spec fn every_field(v: Seq<SectionText>) -> Seq<FieldText> {
    all_fields(v, v.len() as int)
}

pub fn flatten(v: &Vec<ConfigSection>) -> (r: Vec<ConfigField>)
    ensures
        field_texts(r@) == every_field(section_texts(v@)),
{
    let mut out: Vec<ConfigField> = Vec::new();
    let ghost all = section_texts(v@);
    assert(field_texts(out@) =~= Seq::empty());
    for i in 0..v.len()
        invariant
            all == section_texts(v@),
            field_texts(out@) == all_fields(all, i as int),
    {
        let ghost had = field_texts(out@);
        let mut more = copy_section(&v[i]).fields;
        let ghost extra = field_texts(more@);
        out.append(&mut more);
        assert(field_texts(out@) =~= had + extra);
        assert(all[i as int] == v@[i as int].text());
    }
    out
}

/// What the last of the first `n` settings of a key is.
pub open spec fn kind_of(v: Seq<FieldText>, key: Seq<char>, n: int) -> Option<KindText>
    decreases n,
{
    if n <= 0 {
        None
    } else if v[n - 1].key == key {
        Some(v[n - 1].kind)
    } else {
        kind_of(v, key, n - 1)
    }
}

/// Those of the first `n` settings that are not what they were.
pub open spec fn changed_of(v: Seq<FieldText>, was: Seq<FieldText>, n: int) -> Seq<FieldText>
    decreases n,
{
    if n <= 0 {
        Seq::empty()
    } else {
        let before = changed_of(v, was, n - 1);
        match kind_of(was, v[n - 1].key, was.len() as int) {
            Some(k) => if k != v[n - 1].kind {
                before.push(v[n - 1])
            } else {
                before
            },
            None => before,
        }
    }
}

fn differs(f: &ConfigField, was: &Vec<ConfigField>) -> (r: bool)
    ensures
        r == (match kind_of(field_texts(was@), f.key@, was@.len() as int) {
            Some(k) => k != f.kind.text(),
            None => false,
        }),
{
    let ghost all = field_texts(was@);
    let total: usize = was.len();
    let mut n: usize = total;
    while n > 0
        invariant
            n <= total,
            total == was@.len(),
            all == field_texts(was@),
            kind_of(all, f.key@, total as int) == kind_of(all, f.key@, n as int),
        decreases n,
    {
        assert(all[n - 1] == was@[n - 1].text());
        if same(&was[n - 1].key, &f.key) {
            return !was[n - 1].kind.is_same(&f.kind);
        }
        n = n - 1;
    }
    false
}

impl ConfigUi {
    /// Brings the switches of the sections in line: one is on while any of its
    /// rules is.
    pub fn sync_sections(&mut self, catalog: &Vec<CatalogSection>)
        ensures
            final(self).text() == (UiText {
                sections: all_synced(old(self).text().sections, catalog@),
                ..old(self).text()
            }),
            same_shape(final(self).sections@, old(self).sections@),
    {
        let ghost start = self.text();
        let ghost first = self.sections@;
        let ghost v = start.sections;
        let on = sections_on(&self.sections, catalog);
        let n: usize = self.sections.len();
        for i in 0..n
            invariant
                n == self.sections@.len(),
                v == start.sections,
                v == section_texts(first),
                on@.len() == catalog@.len(),
                forall|k: int| 0 <= k < on@.len() ==> #[trigger] on@[k] == any_on(v, texts(catalog@[k].rules@)),
                same_shape(self.sections@, first),
                self.text() == (UiText { sections: self.text().sections, ..start }),
                forall|k: int|
                    0 <= k < i ==> (#[trigger] self.sections@[k]).text() == section_synced(v[k], v, catalog@),
                forall|k: int| i <= k < n ==> (#[trigger] self.sections@[k]).text() == v[k],
        {
            let m: usize = self.sections[i].fields.len();
            for j in 0..m
                invariant
                    i < n,
                    n == self.sections@.len(),
                    m == first[i as int].fields@.len(),
                    v == start.sections,
                    v == section_texts(first),
                    on@.len() == catalog@.len(),
                    forall|k: int| 0 <= k < on@.len() ==> #[trigger] on@[k] == any_on(v, texts(catalog@[k].rules@)),
                    same_shape(self.sections@, first),
                    self.text() == (UiText { sections: self.text().sections, ..start }),
                    forall|k: int|
                        0 <= k < i ==> (#[trigger] self.sections@[k]).text() == section_synced(v[k], v, catalog@),
                    forall|k: int| i < k < n ==> (#[trigger] self.sections@[k]).text() == v[k],
                    self.sections@[i as int].text() == (SectionText {
                        fields: self.sections@[i as int].text().fields,
                        ..v[i as int]
                    }),
                    forall|k: int|
                        0 <= k < j ==> (#[trigger] self.sections@[i as int].text().fields[k]) == switch_synced(
                            v[i as int].fields[k],
                            v,
                            catalog@,
                        ),
                    forall|k: int|
                        j <= k < m ==> (#[trigger] self.sections@[i as int].text().fields[k]) == v[i as int].fields[k],
            {
                let ghost before = self.sections@;
                assert(self.sections@[i as int].text().fields[j as int] == self.sections@[i as int].fields@[j as int].text());
                if let Some(name) = strip_prefix(&self.sections[i].fields[j].key, "section:") {
                    if let Some(k) = find_section(catalog, &name) {
                        let flag = on[k];
                        put_kind(&mut self.sections, i, j, FieldKind::Flag(flag));
                        proof {
                            lemma_put(before, self.sections@, i as int, j as int, KindText::Flag(flag));
                        }
                    }
                }
            }
            assert(self.sections@[i as int].text().fields =~= section_synced(v[i as int], v, catalog@).fields);
        }
        assert(self.text().sections =~= all_synced(v, catalog@));
    }

    /// Changes the selected setting, and says whether it did: a flag is turned
    /// over, a choice goes on to the next option, a text is opened for editing.
    pub fn toggle(&mut self, catalog: &Vec<CatalogSection>) -> (r: bool)
        requires
            field_at(old(self).text(), old(self).sel as int) matches Some(f) ==> (f.kind matches KindText::Choice(
                at,
                _,
            ) ==> at < usize::MAX),
        ensures
            (final(self).text(), r) == toggled(old(self).text(), catalog@),
    {
        let ghost start = self.text();
        let (i, j) = match self.place(self.sel) {
            Some(p) => p,
            None => {
                return false;
            },
        };
        let key = self.sections[i].fields[j].key.clone();
        match &self.sections[i].fields[j].kind {
            FieldKind::Text(t) => {
                self.editing = Some(t.clone());
                return false;
            },
            FieldKind::Flag(v) => {
                let on = !*v;
                put_kind(&mut self.sections, i, j, FieldKind::Flag(on));
                if let Some(name) = strip_prefix(&key, "section:") {
                    self.set_section(&name, on, catalog);
                }
            },
            FieldKind::Choice(at, options) => {
                let n: usize = options.len();
                assert(texts(options@).len() == options@.len());
                let next: usize = if n == 0 {
                    *at
                } else {
                    (*at + 1) % n
                };
                let kind = FieldKind::Choice(next, crate::text::copy_strings(options));
                put_kind(&mut self.sections, i, j, kind);
            },
        }
        self.sync_sections(catalog);
        self.dirty = true;
        true
    }

    /// Takes the typed text into the selected setting.
    pub fn commit_edit(&mut self)
        ensures
            final(self).text() == edit_taken(old(self).text()),
    {
        let text = match self.editing.take() {
            Some(t) => t,
            None => {
                return;
            },
        };
        let (i, j) = match self.place(self.sel) {
            Some(p) => p,
            None => {
                return;
            },
        };
        let differ = match &self.sections[i].fields[j].kind {
            FieldKind::Text(t) => !same(t, &text),
            _ => false,
        };
        if differ {
            put_kind(&mut self.sections, i, j, FieldKind::Text(text));
            self.dirty = true;
        }
    }

    /// The settings that are not what they were.
    pub fn changed(&self) -> (r: Vec<ConfigField>)
        ensures
            field_texts(r@) == changed_of(
                every_field(self.text().sections),
                every_field(self.text().original),
                every_field(self.text().sections).len() as int,
            ),
    {
        let was = flatten(&self.original);
        let now = flatten(&self.sections);
        let ghost before = every_field(self.text().original);
        let ghost all = every_field(self.text().sections);
        let mut out: Vec<ConfigField> = Vec::new();
        assert(field_texts(out@) =~= Seq::empty());
        assert(before.len() == was@.len());
        assert(all.len() == now@.len());
        for i in 0..now.len()
            invariant
                before == field_texts(was@),
                all == field_texts(now@),
                field_texts(out@) == changed_of(all, before, i as int),
        {
            let ghost had = field_texts(out@);
            assert(all[i as int] == now@[i as int].text());
            assert(before.len() == was@.len());
            if differs(&now[i], &was) {
                out.push(now[i].copied());
                assert(field_texts(out@) =~= had.push(all[i as int]));
            }
        }
        out
    }

    /// Moves the selection, within the settings.
    pub fn move_config(&mut self, by: isize)
        ensures
            *final(self) == (ConfigUi {
                sel: if old(self).rows@.len() == 0 {
                    old(self).sel
                } else {
                    crate::cursor::clamped(old(self).sel + by, 0, old(self).rows@.len() - 1) as usize
                },
                ..*old(self)
            }),
    {
        let n: usize = self.rows.len();
        if n == 0 {
            return;
        }
        let to: i128 = (self.sel as i128) + (by as i128);
        let last: usize = n - 1;
        self.sel = if to < 0 {
            0
        } else if to > (last as i128) {
            last
        } else {
            to as usize
        };
    }
}

/// Whether the catalog is on, by the first `n` settings.
pub open spec fn catalog_flag(v: Seq<FieldText>, n: int) -> bool
    decreases n,
{
    if n <= 0 {
        true
    } else if v[n - 1].key == "catalog"@ && v[n - 1].kind is Flag {
        v[n - 1].kind->Flag_0
    } else {
        catalog_flag(v, n - 1)
    }
}

/// The rules that are off, by the first `n` settings.
pub open spec fn off_rules(v: Seq<FieldText>, n: int) -> Seq<Seq<char>>
    decreases n,
{
    if n <= 0 {
        Seq::empty()
    } else {
        let before = off_rules(v, n - 1);
        match behind_prefix(v[n - 1].key, "disable:"@) {
            Some(rule) => if v[n - 1].kind == KindText::Flag(false) {
                before.push(rule)
            } else {
                before
            },
            None => before,
        }
    }
}

/// Whether the catalog is on, and the rules that are off.
pub fn config_rule_state(c: &ConfigUi) -> (r: (bool, Vec<String>))
    ensures
        ({
            let all = every_field(c.text().sections);
            r.0 == catalog_flag(all, all.len() as int) && texts(r.1@) == off_rules(all, all.len() as int)
        }),
{
    let all = flatten(&c.sections);
    let ghost fields = every_field(c.text().sections);
    let mut catalog = true;
    let mut off: Vec<String> = Vec::new();
    assert(texts(off@) =~= Seq::empty());
    proof {
        lemma_catalog_is_no_rule();
    }
    assert(fields.len() == all@.len());
    for i in 0..all.len()
        invariant
            fields == field_texts(all@),
            catalog == catalog_flag(fields, i as int),
            texts(off@) == off_rules(fields, i as int),
    {
        let ghost had = texts(off@);
        let f = &all[i];
        assert(fields[i as int] == f.text());
        if let FieldKind::Flag(v) = &f.kind {
            if same(&f.key, "catalog") {
                catalog = *v;
                proof {
                    lemma_catalog_is_no_rule();
                }
            } else if !*v {
                if let Some(rule) = strip_prefix(&f.key, "disable:") {
                    off.push(rule);
                    assert(texts(off@) =~= had.push(rule@));
                }
            }
        }
    }
    (catalog, off)
}

proof fn lemma_catalog_is_no_rule()
    ensures
        !starts_with("catalog"@, "disable:"@),
{
    reveal_strlit("catalog");
    reveal_strlit("disable:");
}

/// The bundled rulesets that are on, by the first `n` settings.
pub open spec fn rulesets_on(v: Seq<FieldText>, n: int) -> Seq<Seq<char>>
    decreases n,
{
    if n <= 0 {
        Seq::empty()
    } else {
        let before = rulesets_on(v, n - 1);
        match behind_prefix(v[n - 1].key, "include:"@) {
            Some(name) => if v[n - 1].kind == KindText::Flag(true) {
                before.push(name)
            } else {
                before
            },
            None => before,
        }
    }
}

/// The bundled rulesets that are on.
pub fn config_includes(c: &ConfigUi) -> (r: Vec<String>)
    ensures
        ({
            let all = every_field(c.text().sections);
            texts(r@) == rulesets_on(all, all.len() as int)
        }),
{
    let all = flatten(&c.sections);
    let ghost fields = every_field(c.text().sections);
    let mut out: Vec<String> = Vec::new();
    assert(texts(out@) =~= Seq::empty());
    assert(fields.len() == all@.len());
    for i in 0..all.len()
        invariant
            fields == field_texts(all@),
            texts(out@) == rulesets_on(fields, i as int),
    {
        let ghost had = texts(out@);
        let f = &all[i];
        assert(fields[i as int] == f.text());
        if let FieldKind::Flag(v) = &f.kind {
            if *v {
                if let Some(name) = strip_prefix(&f.key, "include:") {
                    out.push(name);
                    assert(texts(out@) =~= had.push(name@));
                }
            }
        }
    }
    out
}

/// The option that the first choice of a key, from `from` on, stands at.
pub open spec fn picked(v: Seq<FieldText>, key: Seq<char>, from: int) -> Seq<char>
    decreases v.len() - from,
{
    if from >= v.len() {
        ""@
    } else if v[from].key == key {
        match v[from].kind {
            KindText::Choice(at, options) => if at < options.len() {
                options[at as int]
            } else {
                ""@
            },
            _ => ""@,
        }
    } else {
        picked(v, key, from + 1)
    }
}

fn pick_option(all: &Vec<ConfigField>, key: &str) -> (r: String)
    ensures
        r@ == picked(field_texts(all@), key@, 0),
{
    let ghost fields = field_texts(all@);
    let n: usize = all.len();
    for i in 0..n
        invariant
            n == all@.len(),
            fields == field_texts(all@),
            picked(fields, key@, 0) == picked(fields, key@, i as int),
    {
        assert(fields[i as int] == all@[i as int].text());
        if same(&all[i].key, key) {
            match &all[i].kind {
                FieldKind::Choice(at, options) => {
                    assert(texts(options@).len() == options@.len());
                    if *at < options.len() {
                        assert(texts(options@)[*at as int] == options@[*at as int]@);
                        return options[*at].clone();
                    }
                    return "".to_owned();
                },
                _ => {
                    return "".to_owned();
                },
            }
        }
    }
    "".to_owned()
}

/// The theme and the preset that are chosen.
pub fn config_general(c: &ConfigUi) -> (r: (String, String))
    ensures
        r.0@ == picked(every_field(c.text().sections), "theme"@, 0),
        r.1@ == picked(every_field(c.text().sections), "preset"@, 0),
{
    let all = flatten(&c.sections);
    (pick_option(&all, "theme"), pick_option(&all, "preset"))
}

proof fn lemma_kind_of(v: Seq<FieldText>, k: int, n: int)
    requires
        0 <= k < n <= v.len(),
        forall|a: int, b: int| 0 <= a < b < v.len() ==> (#[trigger] v[a]).key != (#[trigger] v[b]).key,
    ensures
        kind_of(v, v[k].key, n) == Some(v[k].kind),
    decreases n,
{
    if k < n - 1 {
        assert(v[n - 1].key != v[k].key);
        lemma_kind_of(v, k, n - 1);
    }
}

/// Settings that are as they were have no changes to write.
pub proof fn law_untouched_settings_have_no_changes(v: Seq<FieldText>, n: int)
    requires
        0 <= n <= v.len(),
        forall|a: int, b: int| 0 <= a < b < v.len() ==> (#[trigger] v[a]).key != (#[trigger] v[b]).key,
    ensures
        changed_of(v, v, n).len() == 0,
    decreases n,
{
    if n > 0 {
        law_untouched_settings_have_no_changes(v, n - 1);
        lemma_kind_of(v, n - 1, v.len() as int);
    }
}

/// The switch of a section carries its rules: after it is changed, each of them
/// is as the switch was put.
pub proof fn law_a_section_switch_carries_its_rules(
    u: UiText,
    catalog: Seq<CatalogSection>,
    name: Seq<char>,
    on: bool,
    i: int,
    j: int,
    rule: Seq<char>,
)
    requires
        field_at(u, u.sel as int) is Some,
        behind_prefix(field_at(u, u.sel as int)->0.key, "section:"@) == Some(name),
        field_at(u, u.sel as int)->0.kind == KindText::Flag(!on),
        rules_under(catalog, name).contains(rule),
        0 <= i < u.sections.len(),
        0 <= j < u.sections[i].fields.len(),
        behind_prefix(u.sections[i].fields[j].key, "disable:"@) == Some(rule),
    ensures
        toggled(u, catalog).1,
        toggled(u, catalog).0.sections[i].fields[j].kind == KindText::Flag(on),
{
    reveal_strlit("section:");
    reveal_strlit("disable:");
    let (a, b) = u.rows[u.sel as int];
    let f = u.sections[i].fields[j];
    assert(f.key[0] == f.key.subrange(0, 8)[0]);
    assert(!starts_with(f.key, "section:"@)) by {
        if starts_with(f.key, "section:"@) {
            assert(f.key.subrange(0, 8)[0] == 's');
        }
    }
    let flipped = with_kind(u.sections, a as int, b as int, KindText::Flag(on));
    assert(flipped[i].fields[j].key == f.key);
    let carried = rules_set(flipped, rules_under(catalog, name), on);
    assert(carried[i].fields[j].kind == KindText::Flag(on));
    assert(carried[i].fields[j].key == f.key);
}

/// Whether the switch of every section is on exactly while some rule of the
/// section is.
pub open spec fn switches_tell(v: Seq<SectionText>, catalog: Seq<CatalogSection>) -> bool {
    forall|i: int, j: int|
        0 <= i < v.len() && 0 <= j < v[i].fields.len() ==> (behind_prefix(
            (#[trigger] v[i].fields[j]).key,
            "section:"@,
        ) matches Some(name) ==> (catalog_place(catalog, name, 0) is Some ==> v[i].fields[j].kind == KindText::Flag(
            any_on(v, rules_under(catalog, name)),
        )))
}

/// Bringing the switches of the sections in line leaves the rules alone.
proof fn lemma_syncing_keeps_rules(v: Seq<SectionText>, catalog: Seq<CatalogSection>, rule: Seq<char>)
    ensures
        rule_on(all_synced(v, catalog), rule) == rule_on(v, rule),
{
    reveal_strlit("section:");
    reveal_strlit("disable:");
    let w = all_synced(v, catalog);
    assert forall|i: int, j: int|
        0 <= i < v.len() && 0 <= j < v[i].fields.len() implies is_rule_on(#[trigger] w[i].fields[j], rule)
        == is_rule_on(v[i].fields[j], rule) by {
        let f = v[i].fields[j];
        assert(w[i].fields[j] == switch_synced(f, v, catalog));
        if starts_with(f.key, "disable:"@) && starts_with(f.key, "section:"@) {
            assert(f.key.subrange(0, 8)[0] == 'd');
            assert(f.key.subrange(0, 8)[0] == 's');
        }
    }
    if rule_on(v, rule) {
        let (i, j) = choose|i: int, j: int|
            0 <= i < v.len() && 0 <= j < v[i].fields.len() && is_rule_on(#[trigger] v[i].fields[j], rule);
        assert(is_rule_on(w[i].fields[j], rule));
    }
    if rule_on(w, rule) {
        let (i, j) = choose|i: int, j: int|
            0 <= i < w.len() && 0 <= j < w[i].fields.len() && is_rule_on(#[trigger] w[i].fields[j], rule);
        assert(is_rule_on(v[i].fields[j], rule));
    }
}

proof fn lemma_synced_switches_tell(v: Seq<SectionText>, catalog: Seq<CatalogSection>)
    ensures
        switches_tell(all_synced(v, catalog), catalog),
{
    let w = all_synced(v, catalog);
    assert forall|rules: Seq<Seq<char>>| #[trigger] any_on(w, rules) == any_on(v, rules) by {
        if any_on(v, rules) {
            let k = choose|k: int| 0 <= k < rules.len() && rule_on(v, #[trigger] rules[k]);
            lemma_syncing_keeps_rules(v, catalog, rules[k]);
            assert(rule_on(w, rules[k]));
        }
        if any_on(w, rules) {
            let k = choose|k: int| 0 <= k < rules.len() && rule_on(w, #[trigger] rules[k]);
            lemma_syncing_keeps_rules(v, catalog, rules[k]);
            assert(rule_on(v, rules[k]));
        }
    }
    assert forall|i: int, j: int| 0 <= i < w.len() && 0 <= j < w[i].fields.len() implies (behind_prefix(
        (#[trigger] w[i].fields[j]).key,
        "section:"@,
    ) matches Some(name) ==> (catalog_place(catalog, name, 0) is Some ==> w[i].fields[j].kind == KindText::Flag(
        any_on(w, rules_under(catalog, name)),
    ))) by {
        assert(w[i].fields[j] == switch_synced(v[i].fields[j], v, catalog));
    }
}

/// After every toggle the switch of a section is on exactly while some rule of it
/// is, the settings count as changed, and the screen stays where it was.
pub proof fn law_a_toggle_keeps_switches_true(u: UiText, catalog: Seq<CatalogSection>)
    requires
        field_at(u, u.sel as int) matches Some(f) && f.kind !is Text,
    ensures
        ({
            let (after, changed) = toggled(u, catalog);
            &&& changed
            &&& after.dirty
            &&& switches_tell(after.sections, catalog)
            &&& after == (UiText { sections: after.sections, dirty: true, ..u })
        }),
{
    let f = field_at(u, u.sel as int)->0;
    let (i, j) = u.rows[u.sel as int];
    match f.kind {
        KindText::Flag(v) => {
            let flipped = with_kind(u.sections, i as int, j as int, KindText::Flag(!v));
            let carried = match behind_prefix(f.key, "section:"@) {
                Some(name) => rules_set(flipped, rules_under(catalog, name), !v),
                None => flipped,
            };
            lemma_synced_switches_tell(carried, catalog);
        },
        KindText::Choice(at, options) => {
            let next = if options.len() == 0 {
                at
            } else {
                ((at + 1) % (options.len() as int)) as usize
            };
            let moved = with_kind(u.sections, i as int, j as int, KindText::Choice(next, options));
            lemma_synced_switches_tell(moved, catalog);
        },
        KindText::Text(_) => {},
    }
}

} // verus!
