//! What a file of rules may hold, and what is reported of the rules.

use crate::keyconfig::config_place;
use crate::paths::joined_path;
use crate::rules::{
    document_complaint, entries_complaint, parent_of, part, report_lines, rule_complaint, rule_places, rules_read,
    toml_document, value_complaint, value_of, FieldKind, ReportText, RuleWorld, TomlTree,
};
use crate::text::decimal;
use vstd::prelude::*;

verus! {

/// A value is taken where it is of the kind that its key asks for, and refused
/// where it is not.
pub proof fn law_a_value_has_to_be_of_its_kind(key: Seq<char>, t: TomlTree, categories: Seq<Seq<char>>)
    ensures
        value_complaint(key, FieldKind::Text, t, categories) is None <==> t is Text || t is Date,
        value_complaint(key, FieldKind::Flag, t, categories) is None <==> t is Flag,
        value_complaint(key, FieldKind::Whole, t, categories) is None <==> t is Whole,
        value_complaint(key, FieldKind::Count, t, categories) is None <==> t is Whole && 0 <= t->Whole_0 <= usize::MAX,
        t is Text ==> value_complaint(key, FieldKind::Texts, t, categories) is None,
        t is Flag || t is Whole ==> value_complaint(key, FieldKind::Texts, t, categories) is Some,
        t is Text ==> (value_complaint(key, FieldKind::Category, t, categories) is None <==> categories.contains(
            t->Text_0,
        )),
{
}

/// A list of texts is taken where every entry is a text.
pub proof fn law_a_list_of_texts_holds_texts(key: Seq<char>, v: Seq<TomlTree>, categories: Seq<Seq<char>>)
    ensures
        (forall|i: int| 0 <= i < v.len() ==> (#[trigger] v[i]) is Text || v[i] is Date) <==> value_complaint(
            key,
            FieldKind::Texts,
            TomlTree::List(v),
            categories,
        ) is None,
{
    assert(crate::rules::all_text(v) <==> forall|i: int| 0 <= i < v.len() ==> (#[trigger] v[i]) is Text || v[i]
        is Date) by {
        if crate::rules::all_text(v) {
            assert forall|i: int| 0 <= i < v.len() implies (#[trigger] v[i]) is Text || v[i] is Date by {
                assert(crate::rules::told_text(v[i]) is Some);
            }
        }
    }
}

proof fn lemma_entries(entries: Seq<(Seq<char>, TomlTree)>, categories: Seq<Seq<char>>, n: int, i: int)
    requires
        0 <= i < n <= entries.len(),
        crate::rules::entry_complaint(entries[i], categories) is Some,
    ensures
        entries_complaint(entries, categories, n) is Some,
    decreases n,
{
    if i < n - 1 {
        lemma_entries(entries, categories, n - 1, i);
    }
}

/// One entry that is wrong has its rule refused, and so has a missing name.
pub proof fn law_a_rule_with_a_wrong_entry_is_refused(
    entries: Seq<(Seq<char>, TomlTree)>,
    categories: Seq<Seq<char>>,
    i: int,
)
    requires
        0 <= i < entries.len(),
    ensures
        entries[i].0 == "note"@ && entries[i].1 is Flag ==> rule_complaint(entries, categories) is Some,
        entries[i].0 == "noise"@ && entries[i].1 is Text ==> rule_complaint(entries, categories) is Some,
        (forall|k: int| 0 <= k < entries.len() ==> (#[trigger] entries[k]).0 != "name"@) ==> rule_complaint(
            entries,
            categories,
        ) is Some,
{
    let n = entries.len() as int;
    reveal_strlit("note");
    reveal_strlit("noise");
    reveal_strlit("name");
    reveal_strlit("warn");
    reveal_strlit("path");
    reveal_strlit("path-not");
    reveal_strlit("lang");
    reveal_strlit("enclosing-kind");
    reveal_strlit("defines");
    reveal_strlit("uses");
    reveal_strlit("imports");
    reveal_strlit("query");
    reveal_strlit("query-file");
    reveal_strlit("text");
    reveal_strlit("text-not");
    reveal_strlit("container-with");
    reveal_strlit("container-without");
    assert("noise"@.len() == 5 && "noise"@[0] == 'n' && "query"@[0] == 'q');
    if entries[i].0 == "note"@ && entries[i].1 is Flag {
        lemma_entries(entries, categories, n, i);
    }
    if entries[i].0 == "noise"@ && entries[i].1 is Text {
        lemma_entries(entries, categories, n, i);
    }
    if forall|k: int| 0 <= k < entries.len() ==> (#[trigger] entries[k]).0 != "name"@ {
        lemma_not_there(entries, "name"@, n);
    }
}

proof fn lemma_not_there(entries: Seq<(Seq<char>, TomlTree)>, key: Seq<char>, n: int)
    requires
        0 <= n <= entries.len(),
        forall|k: int| 0 <= k < entries.len() ==> (#[trigger] entries[k]).0 != key,
    ensures
        crate::rules::lookup(entries, key, n) is None,
    decreases n,
{
    if n > 0 {
        lemma_not_there(entries, key, n - 1);
        assert(entries[n - 1].0 != key);
    }
}

/// What a file builds on and what it turns off are read from the keys of those
/// names, and not from each other's.
pub proof fn law_a_file_names_what_it_builds_on(
    text: Seq<char>,
    base: Seq<char>,
    world: RuleWorld,
    entries: Seq<(Seq<char>, TomlTree)>,
    v: Seq<TomlTree>,
    i: int,
)
    requires
        toml_document(text) == Ok::<TomlTree, Seq<char>>(TomlTree::Table(entries)),
        document_complaint(entries, entries.len() as int) is None,
        forall|k: int| 0 <= k < v.len() ==> (#[trigger] v[k]) is Text,
        0 <= i < v.len(),
    ensures
        value_of(entries, "include"@) == Some(TomlTree::List(v)) ==> rules_read(text, base, world).includes.len()
            == v.len() && rules_read(text, base, world).includes[i] == v[i]->Text_0,
        value_of(entries, "disable"@) == Some(TomlTree::List(v)) ==> rules_read(text, base, world).disable.len()
            == v.len() && rules_read(text, base, world).disable[i] == v[i]->Text_0,
        value_of(entries, "include"@) is None ==> rules_read(text, base, world).includes.len() == 0,
        value_of(entries, "disable"@) is None ==> rules_read(text, base, world).disable.len() == 0,
{
    assert(crate::rules::all_text(v)) by {
        assert forall|k: int| 0 <= k < v.len() implies crate::rules::told_text(#[trigger] v[k]) is Some by {
            assert(v[k] is Text);
        }
    }
    assert(v[i] is Text);
}

/// A file that cannot be read gives no rules and one problem.
pub proof fn law_a_file_that_cannot_be_read_gives_a_problem(
    text: Seq<char>,
    base: Seq<char>,
    world: RuleWorld,
    why: Seq<char>,
)
    requires
        toml_document(text) == Err::<TomlTree, Seq<char>>(why),
    ensures
        rules_read(text, base, world).doc.rules.len() == 0,
        rules_read(text, base, world).doc.problems == seq![why],
        rules_read(text, base, world).includes.len() == 0,
        rules_read(text, base, world).disable.len() == 0,
{
}

/// The rules of the reader come first and those of the repository after, so
/// that the repository has the last word.
pub proof fn law_the_repository_comes_last(
    config_home: Option<Seq<char>>,
    home: Option<Seq<char>>,
    root: Seq<char>,
)
    ensures
        rule_places(config_home, home, root).len() > 0,
        rule_places(config_home, home, root).last() == joined_path(joined_path(root, ".ordo"@), "rules.toml"@),
        config_place(config_home, home) is None <==> rule_places(config_home, home, root).len() == 1,
        config_place(config_home, home) matches Some(p) ==> rule_places(config_home, home, root)[0] == joined_path(
            parent_of(p),
            "rules.toml"@,
        ),
{
}

/// A part of the report is its title and its lines, indented; an empty part is
/// left out.
pub proof fn law_a_part_of_the_report_lists_its_lines(title: Seq<char>, lines: Seq<Seq<char>>, i: int)
    ensures
        lines.len() == 0 ==> part(title, lines).len() == 0,
        0 <= i < lines.len() ==> part(title, lines).len() == lines.len() + 2 && part(title, lines)[1] == title && part(
            title,
            lines,
        )[i + 2] == "  "@ + lines[i],
{
}

/// The report starts with how many rules are active, and lists what was
/// replaced, what is off and what is wrong, each under its own title.
pub proof fn law_a_report_lists_each_thing_under_its_title(t: ReportText)
    requires
        t.rules.len() > 0,
    ensures
        report_lines(t).len() > 0,
        t.rules.len() != 1 ==> report_lines(t)[0] == decimal(t.rules.len() as int) + " rule"@ + "s"@ + " active"@,
        report_lines(t).skip(1 + t.origins.len() as int) == part(
            "replaced (a later definition with the same name):"@,
            t.replaced,
        ) + part("disabled:"@, t.disabled) + part("problems:"@, t.problems),
{
    let r = report_lines(t);
    let rest = part("replaced (a later definition with the same name):"@, t.replaced) + part("disabled:"@, t.disabled)
        + part("problems:"@, t.problems);
    assert(r.skip(1 + t.origins.len() as int) =~= rest);
}

} // verus!
