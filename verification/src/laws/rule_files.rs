//! The rules of a repository: every key of a rules file reaches the condition of
//! its own name, and what comes last decides.

use crate::paths::joined_path;
use crate::rules::{
    active, document_complaint, entries_complaint, entry_complaint, field_kind, file_layered, inactive,
    includes_layered, layer_place, lookup, rule_layered, rule_of, rules_layered, rules_read, silenced, source_layered,
    sources_layered, text_field, toml_document, value_added, value_of, values_added, DocText, FieldKind, LayersText,
    ReadText, RuleText, RuleWorld, TomlTree,
};
use vstd::prelude::*;

verus! {

/// What a value is as a text: a text, or a date as it is written.
pub open spec fn as_text(t: TomlTree) -> Option<Seq<char>> {
    match t {
        TomlTree::Text(s) => Some(s),
        TomlTree::Date(s) => Some(s),
        _ => None,
    }
}

/// Whether a value gives some texts: itself where it is a text, or its elements
/// where it is a list of them.
pub open spec fn gives_texts(t: TomlTree, v: Seq<Seq<char>>) -> bool {
    match t {
        TomlTree::List(l) => l.len() == v.len() && forall|i: int|
            0 <= i < l.len() ==> as_text(#[trigger] l[i]) == Some(v[i]),
        _ => v.len() == 1 && as_text(t) == Some(v[0]),
    }
}

/// Whether no key comes twice.
pub open spec fn keys_differ(entries: Seq<(Seq<char>, TomlTree)>) -> bool {
    forall|i: int, j: int| 0 <= i < j < entries.len() ==> (#[trigger] entries[i]).0 != (#[trigger] entries[j]).0
}

/// Whether a key is written.
pub open spec fn writes(entries: Seq<(Seq<char>, TomlTree)>, key: Seq<char>) -> bool {
    exists|i: int| 0 <= i < entries.len() && (#[trigger] entries[i]).0 == key
}

proof fn lemma_lookup(entries: Seq<(Seq<char>, TomlTree)>, i: int, n: int)
    requires
        keys_differ(entries),
        0 <= i < n <= entries.len(),
    ensures
        lookup(entries, entries[i].0, n) == Some(entries[i].1),
    decreases n,
{
    if i < n - 1 {
        lemma_lookup(entries, i, n - 1);
    } else {
        lemma_not_found(entries, entries[i].0, n - 1);
    }
}

proof fn lemma_not_found(entries: Seq<(Seq<char>, TomlTree)>, key: Seq<char>, n: int)
    requires
        0 <= n <= entries.len(),
        forall|i: int| 0 <= i < n ==> (#[trigger] entries[i]).0 != key,
    ensures
        lookup(entries, key, n) is None,
    decreases n,
{
    if n > 0 {
        lemma_not_found(entries, key, n - 1);
    }
}

proof fn lemma_written(entries: Seq<(Seq<char>, TomlTree)>, key: Seq<char>) -> (i: int)
    requires
        keys_differ(entries),
        writes(entries, key),
    ensures
        0 <= i < entries.len(),
        entries[i].0 == key,
        value_of(entries, key) == Some(entries[i].1),
{
    let i = choose|i: int| 0 <= i < entries.len() && (#[trigger] entries[i]).0 == key;
    lemma_lookup(entries, i, entries.len() as int);
    i
}

/// Every key sets the condition of its own name to the value that is written
/// under it.
pub proof fn law_each_key_sets_the_condition_of_its_name(
    entries: Seq<(Seq<char>, TomlTree)>,
    query: Option<Seq<char>>,
    i: int,
    v: Seq<Seq<char>>,
)
    requires
        keys_differ(entries),
        0 <= i < entries.len(),
    ensures
        ({
            let r = rule_of(entries, query);
            let (key, t) = entries[i];
            &&& key == "path"@ ==> r.when.path == as_text(t)
            &&& key == "path-not"@ ==> r.when.path_not == as_text(t)
            &&& key == "lang"@ ==> r.when.lang == as_text(t)
            &&& key == "enclosing-kind"@ ==> r.when.enclosing_kind == as_text(t)
            &&& key == "defines"@ ==> r.when.defines == as_text(t)
            &&& key == "uses"@ ==> r.when.uses == as_text(t)
            &&& key == "imports"@ ==> r.when.imports == as_text(t)
            &&& key == "text"@ ==> r.when.text == as_text(t)
            &&& key == "text-not"@ ==> r.when.text_not == as_text(t)
            &&& key == "container-with"@ ==> r.when.container_with == as_text(t)
            &&& key == "container-without"@ ==> r.when.container_without == as_text(t)
            &&& key == "noise-when"@ && t is Flag ==> r.when.noise == Some(t->Flag_0)
            &&& key == "comment"@ && t is Flag ==> r.when.comment == Some(t->Flag_0)
            &&& key == "recursive"@ && t is Flag ==> r.when.recursive == Some(t->Flag_0)
            &&& key == "member-uninitialized"@ && t is Flag ==> r.when.member_uninitialized == Some(t->Flag_0)
            &&& key == "kind"@ && gives_texts(t, v) ==> r.when.kind == Some(v)
            &&& key == "with"@ && gives_texts(t, v) ==> r.when.with == Some(v)
            &&& key == "without"@ && gives_texts(t, v) ==> r.when.without == Some(v)
            &&& key == "max-params"@ && t is Whole && 0 <= t->Whole_0 <= usize::MAX ==> r.when.max_params == Some(t->Whole_0 as usize)
            &&& key == "max-lines"@ && t is Whole && 0 <= t->Whole_0 <= usize::MAX ==> r.when.max_lines == Some(t->Whole_0 as usize)
            &&& key == "max-nesting"@ && t is Whole && 0 <= t->Whole_0 <= usize::MAX ==> r.when.max_nesting == Some(t->Whole_0 as usize)
            &&& key == "max-file-lines"@ && t is Whole && 0 <= t->Whole_0 <= usize::MAX ==> r.when.max_file_lines == Some(t->Whole_0 as usize)
            &&& key == "category"@ && t is Text ==> r.when.category == Some(t->Text_0)
            &&& key == "category"@ && t is Table && t->Table_0.len() == 1 ==> r.when.category == Some(t->Table_0[0].0)
            &&& key == "name"@ && t is Text ==> r.name == t->Text_0
            &&& key == "note"@ ==> r.note == as_text(t)
            &&& key == "warn"@ ==> r.warn == as_text(t)
            &&& key == "noise"@ && t is Flag ==> r.noise == t->Flag_0
            &&& key == "priority"@ && t is Whole ==> r.priority == t->Whole_0
            &&& r.when.query == query
        }),
{
    lemma_lookup(entries, i, entries.len() as int);
    let t = entries[i].1;
    if gives_texts(t, v) {
        lemma_gives_texts(t, v);
    }
}

proof fn lemma_gives_texts(t: TomlTree, v: Seq<Seq<char>>)
    requires
        gives_texts(t, v),
    ensures
        crate::rules::texts_of(t) == Some(v),
{
    match t {
        TomlTree::List(l) => {
            assert forall|i: int| 0 <= i < l.len() implies crate::rules::told_text(#[trigger] l[i]) is Some by {
                assert(as_text(l[i]) == Some(v[i]));
            }
            let read = Seq::new(l.len(), |i: int| crate::rules::told_text(l[i])->0);
            assert(read =~= v) by {
                assert forall|i: int| 0 <= i < l.len() implies read[i] == v[i] by {
                    assert(as_text(l[i]) == Some(v[i]));
                }
            }
        },
        _ => {
            assert(v =~= seq![v[0]]);
        },
    }
}

/// A condition whose key is not written is not set; without them a rule is no
/// noise, of no weight, and says nothing.
pub proof fn law_a_condition_that_is_not_written_is_not_set(entries: Seq<(Seq<char>, TomlTree)>, query: Option<Seq<char>>)
    ensures
        ({
            let r = rule_of(entries, query);
            &&& !writes(entries, "path"@) ==> r.when.path is None
            &&& !writes(entries, "path-not"@) ==> r.when.path_not is None
            &&& !writes(entries, "lang"@) ==> r.when.lang is None
            &&& !writes(entries, "enclosing-kind"@) ==> r.when.enclosing_kind is None
            &&& !writes(entries, "defines"@) ==> r.when.defines is None
            &&& !writes(entries, "uses"@) ==> r.when.uses is None
            &&& !writes(entries, "imports"@) ==> r.when.imports is None
            &&& !writes(entries, "text"@) ==> r.when.text is None
            &&& !writes(entries, "text-not"@) ==> r.when.text_not is None
            &&& !writes(entries, "container-with"@) ==> r.when.container_with is None
            &&& !writes(entries, "container-without"@) ==> r.when.container_without is None
            &&& !writes(entries, "noise-when"@) ==> r.when.noise is None
            &&& !writes(entries, "comment"@) ==> r.when.comment is None
            &&& !writes(entries, "recursive"@) ==> r.when.recursive is None
            &&& !writes(entries, "member-uninitialized"@) ==> r.when.member_uninitialized is None
            &&& !writes(entries, "kind"@) ==> r.when.kind is None
            &&& !writes(entries, "with"@) ==> r.when.with is None
            &&& !writes(entries, "without"@) ==> r.when.without is None
            &&& !writes(entries, "max-params"@) ==> r.when.max_params is None
            &&& !writes(entries, "max-lines"@) ==> r.when.max_lines is None
            &&& !writes(entries, "max-nesting"@) ==> r.when.max_nesting is None
            &&& !writes(entries, "max-file-lines"@) ==> r.when.max_file_lines is None
            &&& !writes(entries, "category"@) ==> r.when.category is None
            &&& !writes(entries, "note"@) ==> r.note is None
            &&& !writes(entries, "warn"@) ==> r.warn is None
            &&& !writes(entries, "noise"@) ==> !r.noise
            &&& !writes(entries, "priority"@) ==> r.priority == 0
        }),
{
    let n = entries.len() as int;
    if !writes(entries, "path"@) {
        lemma_not_found(entries, "path"@, n);
    }
    if !writes(entries, "path-not"@) {
        lemma_not_found(entries, "path-not"@, n);
    }
    if !writes(entries, "lang"@) {
        lemma_not_found(entries, "lang"@, n);
    }
    if !writes(entries, "enclosing-kind"@) {
        lemma_not_found(entries, "enclosing-kind"@, n);
    }
    if !writes(entries, "defines"@) {
        lemma_not_found(entries, "defines"@, n);
    }
    if !writes(entries, "uses"@) {
        lemma_not_found(entries, "uses"@, n);
    }
    if !writes(entries, "imports"@) {
        lemma_not_found(entries, "imports"@, n);
    }
    if !writes(entries, "text"@) {
        lemma_not_found(entries, "text"@, n);
    }
    if !writes(entries, "text-not"@) {
        lemma_not_found(entries, "text-not"@, n);
    }
    if !writes(entries, "container-with"@) {
        lemma_not_found(entries, "container-with"@, n);
    }
    if !writes(entries, "container-without"@) {
        lemma_not_found(entries, "container-without"@, n);
    }
    if !writes(entries, "noise-when"@) {
        lemma_not_found(entries, "noise-when"@, n);
    }
    if !writes(entries, "comment"@) {
        lemma_not_found(entries, "comment"@, n);
    }
    if !writes(entries, "recursive"@) {
        lemma_not_found(entries, "recursive"@, n);
    }
    if !writes(entries, "member-uninitialized"@) {
        lemma_not_found(entries, "member-uninitialized"@, n);
    }
    if !writes(entries, "kind"@) {
        lemma_not_found(entries, "kind"@, n);
    }
    if !writes(entries, "with"@) {
        lemma_not_found(entries, "with"@, n);
    }
    if !writes(entries, "without"@) {
        lemma_not_found(entries, "without"@, n);
    }
    if !writes(entries, "max-params"@) {
        lemma_not_found(entries, "max-params"@, n);
    }
    if !writes(entries, "max-lines"@) {
        lemma_not_found(entries, "max-lines"@, n);
    }
    if !writes(entries, "max-nesting"@) {
        lemma_not_found(entries, "max-nesting"@, n);
    }
    if !writes(entries, "max-file-lines"@) {
        lemma_not_found(entries, "max-file-lines"@, n);
    }
    if !writes(entries, "category"@) {
        lemma_not_found(entries, "category"@, n);
    }
    if !writes(entries, "note"@) {
        lemma_not_found(entries, "note"@, n);
    }
    if !writes(entries, "warn"@) {
        lemma_not_found(entries, "warn"@, n);
    }
    if !writes(entries, "noise"@) {
        lemma_not_found(entries, "noise"@, n);
    }
    if !writes(entries, "priority"@) {
        lemma_not_found(entries, "priority"@, n);
    }
}

/// What each key of a rule is written with.
pub proof fn law_every_key_of_a_rule_is_known()
    ensures
        field_kind("name"@) == Some(FieldKind::Text),
        field_kind("note"@) == Some(FieldKind::Text),
        field_kind("warn"@) == Some(FieldKind::Text),
        field_kind("noise"@) == Some(FieldKind::Flag),
        field_kind("priority"@) == Some(FieldKind::Whole),
        field_kind("path"@) == Some(FieldKind::Text),
        field_kind("path-not"@) == Some(FieldKind::Text),
        field_kind("lang"@) == Some(FieldKind::Text),
        field_kind("category"@) == Some(FieldKind::Category),
        field_kind("enclosing-kind"@) == Some(FieldKind::Text),
        field_kind("defines"@) == Some(FieldKind::Text),
        field_kind("uses"@) == Some(FieldKind::Text),
        field_kind("imports"@) == Some(FieldKind::Text),
        field_kind("noise-when"@) == Some(FieldKind::Flag),
        field_kind("comment"@) == Some(FieldKind::Flag),
        field_kind("query"@) == Some(FieldKind::Text),
        field_kind("query-file"@) == Some(FieldKind::Text),
        field_kind("kind"@) == Some(FieldKind::Texts),
        field_kind("with"@) == Some(FieldKind::Texts),
        field_kind("without"@) == Some(FieldKind::Texts),
        field_kind("text"@) == Some(FieldKind::Text),
        field_kind("text-not"@) == Some(FieldKind::Text),
        field_kind("max-params"@) == Some(FieldKind::Count),
        field_kind("max-lines"@) == Some(FieldKind::Count),
        field_kind("max-nesting"@) == Some(FieldKind::Count),
        field_kind("max-file-lines"@) == Some(FieldKind::Count),
        field_kind("recursive"@) == Some(FieldKind::Flag),
        field_kind("container-with"@) == Some(FieldKind::Text),
        field_kind("container-without"@) == Some(FieldKind::Text),
        field_kind("member-uninitialized"@) == Some(FieldKind::Flag),
{
    reveal_strlit("name");
    reveal_strlit("note");
    reveal_strlit("warn");
    reveal_strlit("noise");
    reveal_strlit("priority");
    reveal_strlit("path");
    reveal_strlit("path-not");
    reveal_strlit("lang");
    reveal_strlit("category");
    reveal_strlit("enclosing-kind");
    reveal_strlit("defines");
    reveal_strlit("uses");
    reveal_strlit("imports");
    reveal_strlit("noise-when");
    reveal_strlit("comment");
    reveal_strlit("query");
    reveal_strlit("query-file");
    reveal_strlit("kind");
    reveal_strlit("with");
    reveal_strlit("without");
    reveal_strlit("text");
    reveal_strlit("text-not");
    reveal_strlit("max-params");
    reveal_strlit("max-lines");
    reveal_strlit("max-nesting");
    reveal_strlit("max-file-lines");
    reveal_strlit("recursive");
    reveal_strlit("container-with");
    reveal_strlit("container-without");
    reveal_strlit("member-uninitialized");
    assert(field_kind("name"@) == Some(FieldKind::Text)) by {
        assert("name"@.len() != "noise"@.len());
        assert("name"@.len() != "priority"@.len());
        assert("name"@.len() != "category"@.len());
        assert("name"@.len() != "noise-when"@.len());
        assert("name"@.len() != "comment"@.len());
        assert("name"@[0] != "kind"@[0]);
        assert("name"@[0] != "with"@[0]);
        assert("name"@.len() != "without"@.len());
        assert("name"@.len() != "max-params"@.len());
        assert("name"@.len() != "max-lines"@.len());
        assert("name"@.len() != "max-nesting"@.len());
        assert("name"@.len() != "max-file-lines"@.len());
        assert("name"@.len() != "recursive"@.len());
        assert("name"@.len() != "member-uninitialized"@.len());
    }
    assert(field_kind("note"@) == Some(FieldKind::Text)) by {
        assert("note"@.len() != "noise"@.len());
        assert("note"@.len() != "priority"@.len());
        assert("note"@.len() != "category"@.len());
        assert("note"@.len() != "noise-when"@.len());
        assert("note"@.len() != "comment"@.len());
        assert("note"@[0] != "kind"@[0]);
        assert("note"@[0] != "with"@[0]);
        assert("note"@.len() != "without"@.len());
        assert("note"@.len() != "max-params"@.len());
        assert("note"@.len() != "max-lines"@.len());
        assert("note"@.len() != "max-nesting"@.len());
        assert("note"@.len() != "max-file-lines"@.len());
        assert("note"@.len() != "recursive"@.len());
        assert("note"@.len() != "member-uninitialized"@.len());
    }
    assert(field_kind("warn"@) == Some(FieldKind::Text)) by {
        assert("warn"@.len() != "noise"@.len());
        assert("warn"@.len() != "priority"@.len());
        assert("warn"@.len() != "category"@.len());
        assert("warn"@.len() != "noise-when"@.len());
        assert("warn"@.len() != "comment"@.len());
        assert("warn"@[0] != "kind"@[0]);
        assert("warn"@[1] != "with"@[1]);
        assert("warn"@.len() != "without"@.len());
        assert("warn"@.len() != "max-params"@.len());
        assert("warn"@.len() != "max-lines"@.len());
        assert("warn"@.len() != "max-nesting"@.len());
        assert("warn"@.len() != "max-file-lines"@.len());
        assert("warn"@.len() != "recursive"@.len());
        assert("warn"@.len() != "member-uninitialized"@.len());
    }
    assert(field_kind("noise"@) == Some(FieldKind::Flag)) by {
        assert("noise"@.len() != "name"@.len());
        assert("noise"@.len() != "note"@.len());
        assert("noise"@.len() != "warn"@.len());
        assert("noise"@.len() != "priority"@.len());
        assert("noise"@.len() != "path"@.len());
        assert("noise"@.len() != "path-not"@.len());
        assert("noise"@.len() != "lang"@.len());
        assert("noise"@.len() != "category"@.len());
        assert("noise"@.len() != "enclosing-kind"@.len());
        assert("noise"@.len() != "defines"@.len());
        assert("noise"@.len() != "uses"@.len());
        assert("noise"@.len() != "imports"@.len());
        assert("noise"@[0] != "query"@[0]);
        assert("noise"@.len() != "query-file"@.len());
        assert("noise"@.len() != "kind"@.len());
        assert("noise"@.len() != "with"@.len());
        assert("noise"@.len() != "without"@.len());
        assert("noise"@.len() != "text"@.len());
        assert("noise"@.len() != "text-not"@.len());
        assert("noise"@.len() != "max-params"@.len());
        assert("noise"@.len() != "max-lines"@.len());
        assert("noise"@.len() != "max-nesting"@.len());
        assert("noise"@.len() != "max-file-lines"@.len());
        assert("noise"@.len() != "container-with"@.len());
        assert("noise"@.len() != "container-without"@.len());
    }
    assert(field_kind("priority"@) == Some(FieldKind::Whole)) by {
        assert("priority"@.len() != "name"@.len());
        assert("priority"@.len() != "note"@.len());
        assert("priority"@.len() != "warn"@.len());
        assert("priority"@.len() != "noise"@.len());
        assert("priority"@.len() != "path"@.len());
        assert("priority"@[1] != "path-not"@[1]);
        assert("priority"@.len() != "lang"@.len());
        assert("priority"@[0] != "category"@[0]);
        assert("priority"@.len() != "enclosing-kind"@.len());
        assert("priority"@.len() != "defines"@.len());
        assert("priority"@.len() != "uses"@.len());
        assert("priority"@.len() != "imports"@.len());
        assert("priority"@.len() != "noise-when"@.len());
        assert("priority"@.len() != "comment"@.len());
        assert("priority"@.len() != "query"@.len());
        assert("priority"@.len() != "query-file"@.len());
        assert("priority"@.len() != "kind"@.len());
        assert("priority"@.len() != "with"@.len());
        assert("priority"@.len() != "without"@.len());
        assert("priority"@.len() != "text"@.len());
        assert("priority"@[0] != "text-not"@[0]);
        assert("priority"@.len() != "max-params"@.len());
        assert("priority"@.len() != "max-lines"@.len());
        assert("priority"@.len() != "max-nesting"@.len());
        assert("priority"@.len() != "max-file-lines"@.len());
        assert("priority"@.len() != "recursive"@.len());
        assert("priority"@.len() != "container-with"@.len());
        assert("priority"@.len() != "container-without"@.len());
        assert("priority"@.len() != "member-uninitialized"@.len());
    }
    assert(field_kind("path"@) == Some(FieldKind::Text)) by {
        assert("path"@.len() != "noise"@.len());
        assert("path"@.len() != "priority"@.len());
        assert("path"@.len() != "category"@.len());
        assert("path"@.len() != "noise-when"@.len());
        assert("path"@.len() != "comment"@.len());
        assert("path"@[0] != "kind"@[0]);
        assert("path"@[0] != "with"@[0]);
        assert("path"@.len() != "without"@.len());
        assert("path"@.len() != "max-params"@.len());
        assert("path"@.len() != "max-lines"@.len());
        assert("path"@.len() != "max-nesting"@.len());
        assert("path"@.len() != "max-file-lines"@.len());
        assert("path"@.len() != "recursive"@.len());
        assert("path"@.len() != "member-uninitialized"@.len());
    }
    assert(field_kind("path-not"@) == Some(FieldKind::Text)) by {
        assert("path-not"@.len() != "noise"@.len());
        assert("path-not"@[1] != "priority"@[1]);
        assert("path-not"@[0] != "category"@[0]);
        assert("path-not"@.len() != "noise-when"@.len());
        assert("path-not"@.len() != "comment"@.len());
        assert("path-not"@.len() != "kind"@.len());
        assert("path-not"@.len() != "with"@.len());
        assert("path-not"@.len() != "without"@.len());
        assert("path-not"@.len() != "max-params"@.len());
        assert("path-not"@.len() != "max-lines"@.len());
        assert("path-not"@.len() != "max-nesting"@.len());
        assert("path-not"@.len() != "max-file-lines"@.len());
        assert("path-not"@.len() != "recursive"@.len());
        assert("path-not"@.len() != "member-uninitialized"@.len());
    }
    assert(field_kind("lang"@) == Some(FieldKind::Text)) by {
        assert("lang"@.len() != "noise"@.len());
        assert("lang"@.len() != "priority"@.len());
        assert("lang"@.len() != "category"@.len());
        assert("lang"@.len() != "noise-when"@.len());
        assert("lang"@.len() != "comment"@.len());
        assert("lang"@[0] != "kind"@[0]);
        assert("lang"@[0] != "with"@[0]);
        assert("lang"@.len() != "without"@.len());
        assert("lang"@.len() != "max-params"@.len());
        assert("lang"@.len() != "max-lines"@.len());
        assert("lang"@.len() != "max-nesting"@.len());
        assert("lang"@.len() != "max-file-lines"@.len());
        assert("lang"@.len() != "recursive"@.len());
        assert("lang"@.len() != "member-uninitialized"@.len());
    }
    assert(field_kind("category"@) == Some(FieldKind::Category)) by {
        assert("category"@.len() != "name"@.len());
        assert("category"@.len() != "note"@.len());
        assert("category"@.len() != "warn"@.len());
        assert("category"@.len() != "noise"@.len());
        assert("category"@[0] != "priority"@[0]);
        assert("category"@.len() != "path"@.len());
        assert("category"@[0] != "path-not"@[0]);
        assert("category"@.len() != "lang"@.len());
        assert("category"@.len() != "enclosing-kind"@.len());
        assert("category"@.len() != "defines"@.len());
        assert("category"@.len() != "uses"@.len());
        assert("category"@.len() != "imports"@.len());
        assert("category"@.len() != "noise-when"@.len());
        assert("category"@.len() != "comment"@.len());
        assert("category"@.len() != "query"@.len());
        assert("category"@.len() != "query-file"@.len());
        assert("category"@.len() != "kind"@.len());
        assert("category"@.len() != "with"@.len());
        assert("category"@.len() != "without"@.len());
        assert("category"@.len() != "text"@.len());
        assert("category"@[0] != "text-not"@[0]);
        assert("category"@.len() != "max-params"@.len());
        assert("category"@.len() != "max-lines"@.len());
        assert("category"@.len() != "max-nesting"@.len());
        assert("category"@.len() != "max-file-lines"@.len());
        assert("category"@.len() != "recursive"@.len());
        assert("category"@.len() != "container-with"@.len());
        assert("category"@.len() != "container-without"@.len());
        assert("category"@.len() != "member-uninitialized"@.len());
    }
    assert(field_kind("enclosing-kind"@) == Some(FieldKind::Text)) by {
        assert("enclosing-kind"@.len() != "noise"@.len());
        assert("enclosing-kind"@.len() != "priority"@.len());
        assert("enclosing-kind"@.len() != "category"@.len());
        assert("enclosing-kind"@.len() != "noise-when"@.len());
        assert("enclosing-kind"@.len() != "comment"@.len());
        assert("enclosing-kind"@.len() != "kind"@.len());
        assert("enclosing-kind"@.len() != "with"@.len());
        assert("enclosing-kind"@.len() != "without"@.len());
        assert("enclosing-kind"@.len() != "max-params"@.len());
        assert("enclosing-kind"@.len() != "max-lines"@.len());
        assert("enclosing-kind"@.len() != "max-nesting"@.len());
        assert("enclosing-kind"@[0] != "max-file-lines"@[0]);
        assert("enclosing-kind"@.len() != "recursive"@.len());
        assert("enclosing-kind"@.len() != "member-uninitialized"@.len());
    }
    assert(field_kind("defines"@) == Some(FieldKind::Text)) by {
        assert("defines"@.len() != "noise"@.len());
        assert("defines"@.len() != "priority"@.len());
        assert("defines"@.len() != "category"@.len());
        assert("defines"@.len() != "noise-when"@.len());
        assert("defines"@[0] != "comment"@[0]);
        assert("defines"@.len() != "kind"@.len());
        assert("defines"@.len() != "with"@.len());
        assert("defines"@[0] != "without"@[0]);
        assert("defines"@.len() != "max-params"@.len());
        assert("defines"@.len() != "max-lines"@.len());
        assert("defines"@.len() != "max-nesting"@.len());
        assert("defines"@.len() != "max-file-lines"@.len());
        assert("defines"@.len() != "recursive"@.len());
        assert("defines"@.len() != "member-uninitialized"@.len());
    }
    assert(field_kind("uses"@) == Some(FieldKind::Text)) by {
        assert("uses"@.len() != "noise"@.len());
        assert("uses"@.len() != "priority"@.len());
        assert("uses"@.len() != "category"@.len());
        assert("uses"@.len() != "noise-when"@.len());
        assert("uses"@.len() != "comment"@.len());
        assert("uses"@[0] != "kind"@[0]);
        assert("uses"@[0] != "with"@[0]);
        assert("uses"@.len() != "without"@.len());
        assert("uses"@.len() != "max-params"@.len());
        assert("uses"@.len() != "max-lines"@.len());
        assert("uses"@.len() != "max-nesting"@.len());
        assert("uses"@.len() != "max-file-lines"@.len());
        assert("uses"@.len() != "recursive"@.len());
        assert("uses"@.len() != "member-uninitialized"@.len());
    }
    assert(field_kind("imports"@) == Some(FieldKind::Text)) by {
        assert("imports"@.len() != "noise"@.len());
        assert("imports"@.len() != "priority"@.len());
        assert("imports"@.len() != "category"@.len());
        assert("imports"@.len() != "noise-when"@.len());
        assert("imports"@[0] != "comment"@[0]);
        assert("imports"@.len() != "kind"@.len());
        assert("imports"@.len() != "with"@.len());
        assert("imports"@[0] != "without"@[0]);
        assert("imports"@.len() != "max-params"@.len());
        assert("imports"@.len() != "max-lines"@.len());
        assert("imports"@.len() != "max-nesting"@.len());
        assert("imports"@.len() != "max-file-lines"@.len());
        assert("imports"@.len() != "recursive"@.len());
        assert("imports"@.len() != "member-uninitialized"@.len());
    }
    assert(field_kind("noise-when"@) == Some(FieldKind::Flag)) by {
        assert("noise-when"@.len() != "name"@.len());
        assert("noise-when"@.len() != "note"@.len());
        assert("noise-when"@.len() != "warn"@.len());
        assert("noise-when"@.len() != "priority"@.len());
        assert("noise-when"@.len() != "path"@.len());
        assert("noise-when"@.len() != "path-not"@.len());
        assert("noise-when"@.len() != "lang"@.len());
        assert("noise-when"@.len() != "category"@.len());
        assert("noise-when"@.len() != "enclosing-kind"@.len());
        assert("noise-when"@.len() != "defines"@.len());
        assert("noise-when"@.len() != "uses"@.len());
        assert("noise-when"@.len() != "imports"@.len());
        assert("noise-when"@.len() != "query"@.len());
        assert("noise-when"@[0] != "query-file"@[0]);
        assert("noise-when"@.len() != "kind"@.len());
        assert("noise-when"@.len() != "with"@.len());
        assert("noise-when"@.len() != "without"@.len());
        assert("noise-when"@.len() != "text"@.len());
        assert("noise-when"@.len() != "text-not"@.len());
        assert("noise-when"@[0] != "max-params"@[0]);
        assert("noise-when"@.len() != "max-lines"@.len());
        assert("noise-when"@.len() != "max-nesting"@.len());
        assert("noise-when"@.len() != "max-file-lines"@.len());
        assert("noise-when"@.len() != "container-with"@.len());
        assert("noise-when"@.len() != "container-without"@.len());
    }
    assert(field_kind("comment"@) == Some(FieldKind::Flag)) by {
        assert("comment"@.len() != "name"@.len());
        assert("comment"@.len() != "note"@.len());
        assert("comment"@.len() != "warn"@.len());
        assert("comment"@.len() != "priority"@.len());
        assert("comment"@.len() != "path"@.len());
        assert("comment"@.len() != "path-not"@.len());
        assert("comment"@.len() != "lang"@.len());
        assert("comment"@.len() != "category"@.len());
        assert("comment"@.len() != "enclosing-kind"@.len());
        assert("comment"@[0] != "defines"@[0]);
        assert("comment"@.len() != "uses"@.len());
        assert("comment"@[0] != "imports"@[0]);
        assert("comment"@.len() != "query"@.len());
        assert("comment"@.len() != "query-file"@.len());
        assert("comment"@.len() != "kind"@.len());
        assert("comment"@.len() != "with"@.len());
        assert("comment"@[0] != "without"@[0]);
        assert("comment"@.len() != "text"@.len());
        assert("comment"@.len() != "text-not"@.len());
        assert("comment"@.len() != "max-params"@.len());
        assert("comment"@.len() != "max-lines"@.len());
        assert("comment"@.len() != "max-nesting"@.len());
        assert("comment"@.len() != "max-file-lines"@.len());
        assert("comment"@.len() != "container-with"@.len());
        assert("comment"@.len() != "container-without"@.len());
    }
    assert(field_kind("query"@) == Some(FieldKind::Text)) by {
        assert("query"@[0] != "noise"@[0]);
        assert("query"@.len() != "priority"@.len());
        assert("query"@.len() != "category"@.len());
        assert("query"@.len() != "noise-when"@.len());
        assert("query"@.len() != "comment"@.len());
        assert("query"@.len() != "kind"@.len());
        assert("query"@.len() != "with"@.len());
        assert("query"@.len() != "without"@.len());
        assert("query"@.len() != "max-params"@.len());
        assert("query"@.len() != "max-lines"@.len());
        assert("query"@.len() != "max-nesting"@.len());
        assert("query"@.len() != "max-file-lines"@.len());
        assert("query"@.len() != "recursive"@.len());
        assert("query"@.len() != "member-uninitialized"@.len());
    }
    assert(field_kind("query-file"@) == Some(FieldKind::Text)) by {
        assert("query-file"@.len() != "noise"@.len());
        assert("query-file"@.len() != "priority"@.len());
        assert("query-file"@.len() != "category"@.len());
        assert("query-file"@[0] != "noise-when"@[0]);
        assert("query-file"@.len() != "comment"@.len());
        assert("query-file"@.len() != "kind"@.len());
        assert("query-file"@.len() != "with"@.len());
        assert("query-file"@.len() != "without"@.len());
        assert("query-file"@[0] != "max-params"@[0]);
        assert("query-file"@.len() != "max-lines"@.len());
        assert("query-file"@.len() != "max-nesting"@.len());
        assert("query-file"@.len() != "max-file-lines"@.len());
        assert("query-file"@.len() != "recursive"@.len());
        assert("query-file"@.len() != "member-uninitialized"@.len());
    }
    assert(field_kind("kind"@) == Some(FieldKind::Texts)) by {
        assert("kind"@[0] != "name"@[0]);
        assert("kind"@[0] != "note"@[0]);
        assert("kind"@[0] != "warn"@[0]);
        assert("kind"@.len() != "noise"@.len());
        assert("kind"@.len() != "priority"@.len());
        assert("kind"@[0] != "path"@[0]);
        assert("kind"@.len() != "path-not"@.len());
        assert("kind"@[0] != "lang"@[0]);
        assert("kind"@.len() != "category"@.len());
        assert("kind"@.len() != "enclosing-kind"@.len());
        assert("kind"@.len() != "defines"@.len());
        assert("kind"@[0] != "uses"@[0]);
        assert("kind"@.len() != "imports"@.len());
        assert("kind"@.len() != "noise-when"@.len());
        assert("kind"@.len() != "comment"@.len());
        assert("kind"@.len() != "query"@.len());
        assert("kind"@.len() != "query-file"@.len());
        assert("kind"@[0] != "text"@[0]);
        assert("kind"@.len() != "text-not"@.len());
        assert("kind"@.len() != "max-params"@.len());
        assert("kind"@.len() != "max-lines"@.len());
        assert("kind"@.len() != "max-nesting"@.len());
        assert("kind"@.len() != "max-file-lines"@.len());
        assert("kind"@.len() != "recursive"@.len());
        assert("kind"@.len() != "container-with"@.len());
        assert("kind"@.len() != "container-without"@.len());
        assert("kind"@.len() != "member-uninitialized"@.len());
    }
    assert(field_kind("with"@) == Some(FieldKind::Texts)) by {
        assert("with"@[0] != "name"@[0]);
        assert("with"@[0] != "note"@[0]);
        assert("with"@[1] != "warn"@[1]);
        assert("with"@.len() != "noise"@.len());
        assert("with"@.len() != "priority"@.len());
        assert("with"@[0] != "path"@[0]);
        assert("with"@.len() != "path-not"@.len());
        assert("with"@[0] != "lang"@[0]);
        assert("with"@.len() != "category"@.len());
        assert("with"@.len() != "enclosing-kind"@.len());
        assert("with"@.len() != "defines"@.len());
        assert("with"@[0] != "uses"@[0]);
        assert("with"@.len() != "imports"@.len());
        assert("with"@.len() != "noise-when"@.len());
        assert("with"@.len() != "comment"@.len());
        assert("with"@.len() != "query"@.len());
        assert("with"@.len() != "query-file"@.len());
        assert("with"@[0] != "text"@[0]);
        assert("with"@.len() != "text-not"@.len());
        assert("with"@.len() != "max-params"@.len());
        assert("with"@.len() != "max-lines"@.len());
        assert("with"@.len() != "max-nesting"@.len());
        assert("with"@.len() != "max-file-lines"@.len());
        assert("with"@.len() != "recursive"@.len());
        assert("with"@.len() != "container-with"@.len());
        assert("with"@.len() != "container-without"@.len());
        assert("with"@.len() != "member-uninitialized"@.len());
    }
    assert(field_kind("without"@) == Some(FieldKind::Texts)) by {
        assert("without"@.len() != "name"@.len());
        assert("without"@.len() != "note"@.len());
        assert("without"@.len() != "warn"@.len());
        assert("without"@.len() != "noise"@.len());
        assert("without"@.len() != "priority"@.len());
        assert("without"@.len() != "path"@.len());
        assert("without"@.len() != "path-not"@.len());
        assert("without"@.len() != "lang"@.len());
        assert("without"@.len() != "category"@.len());
        assert("without"@.len() != "enclosing-kind"@.len());
        assert("without"@[0] != "defines"@[0]);
        assert("without"@.len() != "uses"@.len());
        assert("without"@[0] != "imports"@[0]);
        assert("without"@.len() != "noise-when"@.len());
        assert("without"@[0] != "comment"@[0]);
        assert("without"@.len() != "query"@.len());
        assert("without"@.len() != "query-file"@.len());
        assert("without"@.len() != "text"@.len());
        assert("without"@.len() != "text-not"@.len());
        assert("without"@.len() != "max-params"@.len());
        assert("without"@.len() != "max-lines"@.len());
        assert("without"@.len() != "max-nesting"@.len());
        assert("without"@.len() != "max-file-lines"@.len());
        assert("without"@.len() != "recursive"@.len());
        assert("without"@.len() != "container-with"@.len());
        assert("without"@.len() != "container-without"@.len());
        assert("without"@.len() != "member-uninitialized"@.len());
    }
    assert(field_kind("text"@) == Some(FieldKind::Text)) by {
        assert("text"@.len() != "noise"@.len());
        assert("text"@.len() != "priority"@.len());
        assert("text"@.len() != "category"@.len());
        assert("text"@.len() != "noise-when"@.len());
        assert("text"@.len() != "comment"@.len());
        assert("text"@[0] != "kind"@[0]);
        assert("text"@[0] != "with"@[0]);
        assert("text"@.len() != "without"@.len());
        assert("text"@.len() != "max-params"@.len());
        assert("text"@.len() != "max-lines"@.len());
        assert("text"@.len() != "max-nesting"@.len());
        assert("text"@.len() != "max-file-lines"@.len());
        assert("text"@.len() != "recursive"@.len());
        assert("text"@.len() != "member-uninitialized"@.len());
    }
    assert(field_kind("text-not"@) == Some(FieldKind::Text)) by {
        assert("text-not"@.len() != "noise"@.len());
        assert("text-not"@[0] != "priority"@[0]);
        assert("text-not"@[0] != "category"@[0]);
        assert("text-not"@.len() != "noise-when"@.len());
        assert("text-not"@.len() != "comment"@.len());
        assert("text-not"@.len() != "kind"@.len());
        assert("text-not"@.len() != "with"@.len());
        assert("text-not"@.len() != "without"@.len());
        assert("text-not"@.len() != "max-params"@.len());
        assert("text-not"@.len() != "max-lines"@.len());
        assert("text-not"@.len() != "max-nesting"@.len());
        assert("text-not"@.len() != "max-file-lines"@.len());
        assert("text-not"@.len() != "recursive"@.len());
        assert("text-not"@.len() != "member-uninitialized"@.len());
    }
    assert(field_kind("max-params"@) == Some(FieldKind::Count)) by {
        assert("max-params"@.len() != "name"@.len());
        assert("max-params"@.len() != "note"@.len());
        assert("max-params"@.len() != "warn"@.len());
        assert("max-params"@.len() != "noise"@.len());
        assert("max-params"@.len() != "priority"@.len());
        assert("max-params"@.len() != "path"@.len());
        assert("max-params"@.len() != "path-not"@.len());
        assert("max-params"@.len() != "lang"@.len());
        assert("max-params"@.len() != "category"@.len());
        assert("max-params"@.len() != "enclosing-kind"@.len());
        assert("max-params"@.len() != "defines"@.len());
        assert("max-params"@.len() != "uses"@.len());
        assert("max-params"@.len() != "imports"@.len());
        assert("max-params"@[0] != "noise-when"@[0]);
        assert("max-params"@.len() != "comment"@.len());
        assert("max-params"@.len() != "query"@.len());
        assert("max-params"@[0] != "query-file"@[0]);
        assert("max-params"@.len() != "kind"@.len());
        assert("max-params"@.len() != "with"@.len());
        assert("max-params"@.len() != "without"@.len());
        assert("max-params"@.len() != "text"@.len());
        assert("max-params"@.len() != "text-not"@.len());
        assert("max-params"@.len() != "recursive"@.len());
        assert("max-params"@.len() != "container-with"@.len());
        assert("max-params"@.len() != "container-without"@.len());
        assert("max-params"@.len() != "member-uninitialized"@.len());
    }
    assert(field_kind("max-lines"@) == Some(FieldKind::Count)) by {
        assert("max-lines"@.len() != "name"@.len());
        assert("max-lines"@.len() != "note"@.len());
        assert("max-lines"@.len() != "warn"@.len());
        assert("max-lines"@.len() != "noise"@.len());
        assert("max-lines"@.len() != "priority"@.len());
        assert("max-lines"@.len() != "path"@.len());
        assert("max-lines"@.len() != "path-not"@.len());
        assert("max-lines"@.len() != "lang"@.len());
        assert("max-lines"@.len() != "category"@.len());
        assert("max-lines"@.len() != "enclosing-kind"@.len());
        assert("max-lines"@.len() != "defines"@.len());
        assert("max-lines"@.len() != "uses"@.len());
        assert("max-lines"@.len() != "imports"@.len());
        assert("max-lines"@.len() != "noise-when"@.len());
        assert("max-lines"@.len() != "comment"@.len());
        assert("max-lines"@.len() != "query"@.len());
        assert("max-lines"@.len() != "query-file"@.len());
        assert("max-lines"@.len() != "kind"@.len());
        assert("max-lines"@.len() != "with"@.len());
        assert("max-lines"@.len() != "without"@.len());
        assert("max-lines"@.len() != "text"@.len());
        assert("max-lines"@.len() != "text-not"@.len());
        assert("max-lines"@[0] != "recursive"@[0]);
        assert("max-lines"@.len() != "container-with"@.len());
        assert("max-lines"@.len() != "container-without"@.len());
        assert("max-lines"@.len() != "member-uninitialized"@.len());
    }
    assert(field_kind("max-nesting"@) == Some(FieldKind::Count)) by {
        assert("max-nesting"@.len() != "name"@.len());
        assert("max-nesting"@.len() != "note"@.len());
        assert("max-nesting"@.len() != "warn"@.len());
        assert("max-nesting"@.len() != "noise"@.len());
        assert("max-nesting"@.len() != "priority"@.len());
        assert("max-nesting"@.len() != "path"@.len());
        assert("max-nesting"@.len() != "path-not"@.len());
        assert("max-nesting"@.len() != "lang"@.len());
        assert("max-nesting"@.len() != "category"@.len());
        assert("max-nesting"@.len() != "enclosing-kind"@.len());
        assert("max-nesting"@.len() != "defines"@.len());
        assert("max-nesting"@.len() != "uses"@.len());
        assert("max-nesting"@.len() != "imports"@.len());
        assert("max-nesting"@.len() != "noise-when"@.len());
        assert("max-nesting"@.len() != "comment"@.len());
        assert("max-nesting"@.len() != "query"@.len());
        assert("max-nesting"@.len() != "query-file"@.len());
        assert("max-nesting"@.len() != "kind"@.len());
        assert("max-nesting"@.len() != "with"@.len());
        assert("max-nesting"@.len() != "without"@.len());
        assert("max-nesting"@.len() != "text"@.len());
        assert("max-nesting"@.len() != "text-not"@.len());
        assert("max-nesting"@.len() != "recursive"@.len());
        assert("max-nesting"@.len() != "container-with"@.len());
        assert("max-nesting"@.len() != "container-without"@.len());
        assert("max-nesting"@.len() != "member-uninitialized"@.len());
    }
    assert(field_kind("max-file-lines"@) == Some(FieldKind::Count)) by {
        assert("max-file-lines"@.len() != "name"@.len());
        assert("max-file-lines"@.len() != "note"@.len());
        assert("max-file-lines"@.len() != "warn"@.len());
        assert("max-file-lines"@.len() != "noise"@.len());
        assert("max-file-lines"@.len() != "priority"@.len());
        assert("max-file-lines"@.len() != "path"@.len());
        assert("max-file-lines"@.len() != "path-not"@.len());
        assert("max-file-lines"@.len() != "lang"@.len());
        assert("max-file-lines"@.len() != "category"@.len());
        assert("max-file-lines"@[0] != "enclosing-kind"@[0]);
        assert("max-file-lines"@.len() != "defines"@.len());
        assert("max-file-lines"@.len() != "uses"@.len());
        assert("max-file-lines"@.len() != "imports"@.len());
        assert("max-file-lines"@.len() != "noise-when"@.len());
        assert("max-file-lines"@.len() != "comment"@.len());
        assert("max-file-lines"@.len() != "query"@.len());
        assert("max-file-lines"@.len() != "query-file"@.len());
        assert("max-file-lines"@.len() != "kind"@.len());
        assert("max-file-lines"@.len() != "with"@.len());
        assert("max-file-lines"@.len() != "without"@.len());
        assert("max-file-lines"@.len() != "text"@.len());
        assert("max-file-lines"@.len() != "text-not"@.len());
        assert("max-file-lines"@.len() != "recursive"@.len());
        assert("max-file-lines"@[0] != "container-with"@[0]);
        assert("max-file-lines"@.len() != "container-without"@.len());
        assert("max-file-lines"@.len() != "member-uninitialized"@.len());
    }
    assert(field_kind("recursive"@) == Some(FieldKind::Flag)) by {
        assert("recursive"@.len() != "name"@.len());
        assert("recursive"@.len() != "note"@.len());
        assert("recursive"@.len() != "warn"@.len());
        assert("recursive"@.len() != "priority"@.len());
        assert("recursive"@.len() != "path"@.len());
        assert("recursive"@.len() != "path-not"@.len());
        assert("recursive"@.len() != "lang"@.len());
        assert("recursive"@.len() != "category"@.len());
        assert("recursive"@.len() != "enclosing-kind"@.len());
        assert("recursive"@.len() != "defines"@.len());
        assert("recursive"@.len() != "uses"@.len());
        assert("recursive"@.len() != "imports"@.len());
        assert("recursive"@.len() != "query"@.len());
        assert("recursive"@.len() != "query-file"@.len());
        assert("recursive"@.len() != "kind"@.len());
        assert("recursive"@.len() != "with"@.len());
        assert("recursive"@.len() != "without"@.len());
        assert("recursive"@.len() != "text"@.len());
        assert("recursive"@.len() != "text-not"@.len());
        assert("recursive"@.len() != "max-params"@.len());
        assert("recursive"@[0] != "max-lines"@[0]);
        assert("recursive"@.len() != "max-nesting"@.len());
        assert("recursive"@.len() != "max-file-lines"@.len());
        assert("recursive"@.len() != "container-with"@.len());
        assert("recursive"@.len() != "container-without"@.len());
    }
    assert(field_kind("container-with"@) == Some(FieldKind::Text)) by {
        assert("container-with"@.len() != "noise"@.len());
        assert("container-with"@.len() != "priority"@.len());
        assert("container-with"@.len() != "category"@.len());
        assert("container-with"@.len() != "noise-when"@.len());
        assert("container-with"@.len() != "comment"@.len());
        assert("container-with"@.len() != "kind"@.len());
        assert("container-with"@.len() != "with"@.len());
        assert("container-with"@.len() != "without"@.len());
        assert("container-with"@.len() != "max-params"@.len());
        assert("container-with"@.len() != "max-lines"@.len());
        assert("container-with"@.len() != "max-nesting"@.len());
        assert("container-with"@[0] != "max-file-lines"@[0]);
        assert("container-with"@.len() != "recursive"@.len());
        assert("container-with"@.len() != "member-uninitialized"@.len());
    }
    assert(field_kind("container-without"@) == Some(FieldKind::Text)) by {
        assert("container-without"@.len() != "noise"@.len());
        assert("container-without"@.len() != "priority"@.len());
        assert("container-without"@.len() != "category"@.len());
        assert("container-without"@.len() != "noise-when"@.len());
        assert("container-without"@.len() != "comment"@.len());
        assert("container-without"@.len() != "kind"@.len());
        assert("container-without"@.len() != "with"@.len());
        assert("container-without"@.len() != "without"@.len());
        assert("container-without"@.len() != "max-params"@.len());
        assert("container-without"@.len() != "max-lines"@.len());
        assert("container-without"@.len() != "max-nesting"@.len());
        assert("container-without"@.len() != "max-file-lines"@.len());
        assert("container-without"@.len() != "recursive"@.len());
        assert("container-without"@.len() != "member-uninitialized"@.len());
    }
    assert(field_kind("member-uninitialized"@) == Some(FieldKind::Flag)) by {
        assert("member-uninitialized"@.len() != "name"@.len());
        assert("member-uninitialized"@.len() != "note"@.len());
        assert("member-uninitialized"@.len() != "warn"@.len());
        assert("member-uninitialized"@.len() != "priority"@.len());
        assert("member-uninitialized"@.len() != "path"@.len());
        assert("member-uninitialized"@.len() != "path-not"@.len());
        assert("member-uninitialized"@.len() != "lang"@.len());
        assert("member-uninitialized"@.len() != "category"@.len());
        assert("member-uninitialized"@.len() != "enclosing-kind"@.len());
        assert("member-uninitialized"@.len() != "defines"@.len());
        assert("member-uninitialized"@.len() != "uses"@.len());
        assert("member-uninitialized"@.len() != "imports"@.len());
        assert("member-uninitialized"@.len() != "query"@.len());
        assert("member-uninitialized"@.len() != "query-file"@.len());
        assert("member-uninitialized"@.len() != "kind"@.len());
        assert("member-uninitialized"@.len() != "with"@.len());
        assert("member-uninitialized"@.len() != "without"@.len());
        assert("member-uninitialized"@.len() != "text"@.len());
        assert("member-uninitialized"@.len() != "text-not"@.len());
        assert("member-uninitialized"@.len() != "max-params"@.len());
        assert("member-uninitialized"@.len() != "max-lines"@.len());
        assert("member-uninitialized"@.len() != "max-nesting"@.len());
        assert("member-uninitialized"@.len() != "max-file-lines"@.len());
        assert("member-uninitialized"@.len() != "container-with"@.len());
        assert("member-uninitialized"@.len() != "container-without"@.len());
    }
}

/// A rule with a name, whose every other entry is of a key that there is and has
/// a value of its kind, is in order.
pub open spec fn plainly_in_order(entries: Seq<(Seq<char>, TomlTree)>) -> bool {
    &&& keys_differ(entries)
    &&& writes(entries, "name"@)
    &&& forall|i: int| 0 <= i < entries.len() ==> match field_kind((#[trigger] entries[i]).0) {
        Some(FieldKind::Text) => entries[i].1 is Text,
        Some(FieldKind::Flag) => entries[i].1 is Flag,
        Some(FieldKind::Texts) => entries[i].1 is Text,
        Some(FieldKind::Whole) => entries[i].1 is Whole,
        Some(FieldKind::Count) => entries[i].1 is Whole && 0 <= entries[i].1->Whole_0 <= usize::MAX,
        _ => false,
    }
}

proof fn lemma_in_order(entries: Seq<(Seq<char>, TomlTree)>, categories: Seq<Seq<char>>, n: int)
    requires
        plainly_in_order(entries),
        0 <= n <= entries.len(),
    ensures
        entries_complaint(entries, categories, n) is None,
    decreases n,
{
    if n > 0 {
        lemma_in_order(entries, categories, n - 1);
        assert(entry_complaint(entries[n - 1], categories) is None);
    }
}

/// A rules file with one rule that is in order gives that rule and no problem.
pub proof fn law_a_file_gives_the_rule_it_writes(
    text: Seq<char>,
    base: Seq<char>,
    world: RuleWorld,
    entries: Seq<(Seq<char>, TomlTree)>,
)
    requires
        toml_document(text) == Ok::<TomlTree, Seq<char>>(
            TomlTree::Table(seq![("rule"@, TomlTree::List(seq![TomlTree::Table(entries)]))]),
        ),
        plainly_in_order(entries),
        !writes(entries, "query-file"@),
    ensures
        ({
            let d = rules_read(text, base, world);
            &&& d.doc.rules.len() == 1
            &&& d.doc.problems.len() == 0
            &&& d.doc.missing.len() == 0
            &&& d.includes.len() == 0
            &&& d.disable.len() == 0
            &&& exists|query: Option<Seq<char>>| d.doc.rules[0] == rule_of(entries, query)
            &&& !writes(entries, "query"@) ==> d.doc.rules[0].when.query is None
            &&& forall|i: int| 0 <= i < entries.len() && (#[trigger] entries[i]).0 == "query"@
                ==> d.doc.rules[0].when.query == Some(entries[i].1->Text_0)
        }),
{
    let rule = TomlTree::Table(entries);
    let values = seq![rule];
    let top = seq![("rule"@, TomlTree::List(values))];
    let categories = crate::text::texts(world.categories@);
    law_every_key_of_a_rule_is_known();
    reveal_strlit("rule");
    reveal_strlit("include");
    reveal_strlit("disable");
    assert("rule"@.len() == 4 && "include"@.len() == 7 && "disable"@.len() == 7);
    reveal_with_fuel(document_complaint, 2);
    assert(document_complaint(top, 1) is None);
    lemma_lookup(top, 0, 1);
    lemma_not_found(top, "include"@, 1);
    lemma_not_found(top, "disable"@, 1);
    lemma_in_order(entries, categories, entries.len() as int);
    let at = lemma_written(entries, "name"@);
    lemma_not_found(entries, "query-file"@, entries.len() as int);
    reveal_with_fuel(values_added, 2);
    let empty = DocText { rules: Seq::empty(), problems: Seq::empty(), missing: Seq::empty() };
    assert(values_added(values, base, world, 1) == value_added(empty, rule, 0, base, world));
    let query = text_field(entries, "query"@);
    let d = rules_read(text, base, world);
    assert(d.doc.rules =~= seq![rule_of(entries, query)]);
    if !writes(entries, "query"@) {
        lemma_not_found(entries, "query"@, entries.len() as int);
    }
    assert forall|i: int| 0 <= i < entries.len() && (#[trigger] entries[i]).0 == "query"@ implies d.doc.rules[0].when.query
        == Some(entries[i].1->Text_0) by {
        lemma_lookup(entries, i, entries.len() as int);
    }
}

/// A query that is kept in a file of its own is that file's text, looked up beside
/// the rules file.
pub proof fn law_a_query_is_read_from_its_file(
    d: DocText,
    entries: Seq<(Seq<char>, TomlTree)>,
    idx: int,
    base: Seq<char>,
    world: RuleWorld,
    file: Seq<char>,
    query: Seq<char>,
)
    requires
        plainly_in_order(entries),
        entries.contains(("query-file"@, TomlTree::Text(file))),
        world.file(joined_path(base, file)) == Some(ReadText::Text(query)),
        forall|i: int| 0 <= i < d.rules.len() ==> Some((#[trigger] d.rules[i]).name) != text_field(entries, "name"@),
    ensures
        ({
            let after = value_added(d, TomlTree::Table(entries), idx, base, world);
            &&& after.rules.len() == d.rules.len() + 1
            &&& after.rules.last().when.query == Some(query)
            &&& after.problems == d.problems
            &&& after.missing == d.missing
        }),
{
    law_every_key_of_a_rule_is_known();
    lemma_in_order(entries, crate::text::texts(world.categories@), entries.len() as int);
    let k = choose|k: int| 0 <= k < entries.len() && entries[k] == ("query-file"@, TomlTree::Text(file));
    lemma_lookup(entries, k, entries.len() as int);
    let at = lemma_written(entries, "name"@);
}

/// A rule that only names a list of what a hunk must hold, or must not hold, sets
/// that condition and no other.
pub proof fn law_with_and_without_are_told_apart(name: Seq<char>, t: TomlTree, v: Seq<Seq<char>>, query: Option<Seq<char>>)
    requires
        gives_texts(t, v),
    ensures
        ({
            let r = rule_of(seq![("name"@, TomlTree::Text(name)), ("with"@, t)], query);
            r.when.with == Some(v) && r.when.without is None && r.when.kind is None
        }),
        ({
            let r = rule_of(seq![("name"@, TomlTree::Text(name)), ("without"@, t)], query);
            r.when.without == Some(v) && r.when.with is None && r.when.kind is None
        }),
        ({
            let r = rule_of(seq![("name"@, TomlTree::Text(name)), ("kind"@, t)], query);
            r.when.kind == Some(v) && r.when.with is None && r.when.without is None
        }),
{
    reveal_strlit("name");
    reveal_strlit("with");
    reveal_strlit("without");
    reveal_strlit("kind");
    assert("name"@[0] != "with"@[0] && "name"@[0] != "kind"@[0] && "with"@[0] != "kind"@[0]);
    assert("name"@ != "with"@ && "name"@ != "kind"@ && "with"@ != "kind"@);
    assert("without"@.len() == 7 && "with"@.len() == 4 && "name"@.len() == 4 && "kind"@.len() == 4);
    let a = seq![("name"@, TomlTree::Text(name)), ("with"@, t)];
    let b = seq![("name"@, TomlTree::Text(name)), ("without"@, t)];
    let c = seq![("name"@, TomlTree::Text(name)), ("kind"@, t)];
    law_each_key_sets_the_condition_of_its_name(a, query, 1, v);
    law_each_key_sets_the_condition_of_its_name(b, query, 1, v);
    law_each_key_sets_the_condition_of_its_name(c, query, 1, v);
    lemma_not_found(a, "without"@, 2);
    lemma_not_found(a, "kind"@, 2);
    lemma_not_found(b, "with"@, 2);
    lemma_not_found(b, "kind"@, 2);
    lemma_not_found(c, "with"@, 2);
    lemma_not_found(c, "without"@, 2);
}

proof fn lemma_place_of(layered: Seq<(RuleText, Seq<char>)>, name: Seq<char>, from: int)
    requires
        0 <= from <= layered.len(),
    ensures
        ({
            let at = layer_place(layered, name, from);
            &&& at == -1 || from <= at < layered.len()
            &&& at >= 0 ==> layered[at].0.name == name
            &&& at == -1 ==> forall|i: int| from <= i < layered.len() ==> (#[trigger] layered[i]).0.name != name
        }),
    decreases layered.len() - from,
{
    if from < layered.len() {
        lemma_place_of(layered, name, from + 1);
    }
}

/// Whether a rule stands among the layers, as it came from its origin.
pub open spec fn stands(l: LayersText, r: RuleText, origin: Seq<char>) -> bool {
    exists|i: int| 0 <= i < l.layered.len() && #[trigger] l.layered[i] == (r, origin)
}

proof fn lemma_stands_after(l: LayersText, r: RuleText, origin: Seq<char>, other: RuleText, from: Seq<char>)
    requires
        stands(l, r, origin),
        other.name != r.name,
    ensures
        stands(rule_layered(l, other, from), r, origin),
{
    let i = choose|i: int| 0 <= i < l.layered.len() && #[trigger] l.layered[i] == (r, origin);
    lemma_place_of(l.layered, other.name, 0);
    assert(rule_layered(l, other, from).layered[i] == (r, origin));
}

proof fn lemma_all_stand(l: LayersText, rules: Seq<RuleText>, origin: Seq<char>, n: int, k: int)
    requires
        0 <= k < n <= rules.len(),
        forall|i: int, j: int| 0 <= i < j < rules.len() ==> (#[trigger] rules[i]).name != (#[trigger] rules[j]).name,
    ensures
        stands(rules_layered(l, rules, origin, n), rules[k], origin),
    decreases n,
{
    let before = rules_layered(l, rules, origin, n - 1);
    if k < n - 1 {
        lemma_all_stand(l, rules, origin, n - 1, k);
        lemma_stands_after(before, rules[k], origin, rules[n - 1], origin);
    } else {
        lemma_place_of(before.layered, rules[k].name, 0);
        let at = layer_place(before.layered, rules[k].name, 0);
        let after = rule_layered(before, rules[k], origin).layered;
        if at >= 0 {
            assert(after[at] == (rules[k], origin));
        } else {
            assert(after[before.layered.len() as int] == (rules[k], origin));
        }
    }
}

/// A file has the last word on its own rules: whatever was layered before it, and
/// whatever it builds on, each rule that it writes stands as it writes it.
pub proof fn law_a_file_has_the_last_word_on_its_rules(
    l: LayersText,
    text: Seq<char>,
    origin: Seq<char>,
    base: Seq<char>,
    depth: nat,
    world: RuleWorld,
    k: int,
)
    requires
        depth <= 8,
        0 <= k < rules_read(text, base, world).doc.rules.len(),
    ensures
        stands(
            file_layered(l, text, origin, base, depth, world),
            rules_read(text, base, world).doc.rules[k],
            origin,
        ),
{
    let rules = rules_read(text, base, world).doc.rules;
    assert forall|i: int, j: int| 0 <= i < j < rules.len() implies (#[trigger] rules[i]).name != (
    #[trigger] rules[j]).name by {
        crate::rules::law_rule_names_differ_within_a_file(text, base, world, i, j);
    }
    let doc = rules_read(text, base, world);
    let start = LayersText {
        problems: l.problems + crate::rules::problems_from(origin, doc.doc.problems),
        missing: l.missing + doc.doc.missing,
        ..l
    };
    let below = includes_layered(start, doc.includes, origin, base, depth, world, doc.includes.len());
    let silenced = LayersText { disables: below.disables + doc.disable, ..below };
    lemma_all_stand(silenced, rules, origin, rules.len() as int, k);
}

/// Of several sources the last one has the last word on its rules: a file that
/// comes later decides over one that comes earlier.
pub proof fn law_a_later_source_has_the_last_word(
    l: LayersText,
    srcs: Seq<Seq<char>>,
    asked: bool,
    world: RuleWorld,
    text: Seq<char>,
    k: int,
)
    requires
        srcs.len() > 0,
        world.file(srcs.last()) == Some(ReadText::Text(text)),
        0 <= k < rules_read(text, crate::rules::parent_of(srcs.last()), world).doc.rules.len(),
    ensures
        stands(
            sources_layered(l, srcs, asked, world),
            rules_read(text, crate::rules::parent_of(srcs.last()), world).doc.rules[k],
            srcs.last(),
        ),
{
    law_a_file_has_the_last_word_on_its_rules(
        sources_layered(l, srcs.drop_last(), asked, world),
        text,
        srcs.last(),
        crate::rules::parent_of(srcs.last()),
        0,
        world,
        k,
    );
}

/// A source that was not asked for may be missing; one that was asked for may be
/// a preset, and is told of where it is neither.
pub proof fn law_only_what_was_asked_for_is_missed(l: LayersText, src: Seq<char>, why: Seq<char>, world: RuleWorld)
    requires
        world.file(src) == Some(ReadText::Missing(why)),
    ensures
        source_layered(l, src, false, world) == l,
        world.preset_text(src) is None ==> source_layered(l, src, true, world).problems == l.problems.push(
            src + ": "@ + why,
        ) && source_layered(l, src, true, world).layered == l.layered,
        world.preset_text(src) matches Some(t) ==> source_layered(l, src, true, world) == file_layered(
            l,
            t,
            src,
            "."@,
            0,
            world,
        ),
{
}

/// Files that build on each other too deep are told of, and add nothing.
pub proof fn law_building_on_each_other_ends(
    l: LayersText,
    text: Seq<char>,
    origin: Seq<char>,
    base: Seq<char>,
    world: RuleWorld,
)
    ensures
        file_layered(l, text, origin, base, 9, world).layered == l.layered,
        file_layered(l, text, origin, base, 9, world).problems.len() == l.problems.len() + 1,
        file_layered(l, text, origin, base, 9, world).disables == l.disables,
{
}

/// A rule is active exactly where no pattern disables its name, and the active
/// rules keep their order.
pub proof fn law_what_is_not_disabled_is_active(
    layered: Seq<(RuleText, Seq<char>)>,
    disables: Seq<Seq<char>>,
    i: int,
)
    requires
        0 <= i < layered.len(),
    ensures
        !silenced(disables, layered[i].0.name) ==> active(layered, disables).contains(layered[i]),
        silenced(disables, layered[i].0.name) ==> inactive(layered, disables).contains(
            layered[i].0.name + "  ("@ + layered[i].1 + ")"@,
        ),
        active(layered, disables).len() + inactive(layered, disables).len() == layered.len(),
        disables.len() == 0 ==> active(layered, disables) == layered,
    decreases layered.len(),
{
    let front = layered.drop_last();
    let last = layered.last();
    let kept = active(front, disables);
    let off = inactive(front, disables);
    if front.len() > 0 {
        let at = if i < front.len() {
            i
        } else {
            0
        };
        law_what_is_not_disabled_is_active(front, disables, at);
    }
    if i < front.len() {
        assert(front[i] == layered[i]);
        if silenced(disables, layered[i].0.name) {
            let name = layered[i].0.name + "  ("@ + layered[i].1 + ")"@;
            let w = choose|w: int| 0 <= w < off.len() && off[w] == name;
            assert(inactive(layered, disables)[w] == name);
        } else {
            let w = choose|w: int| 0 <= w < kept.len() && kept[w] == layered[i];
            assert(active(layered, disables)[w] == layered[i]);
        }
    } else if silenced(disables, last.0.name) {
        assert(inactive(layered, disables)[off.len() as int] == last.0.name + "  ("@ + last.1 + ")"@);
    } else {
        assert(active(layered, disables)[kept.len() as int] == last);
    }
    if disables.len() == 0 {
        lemma_nothing_silenced(disables, last.0.name);
        if front.len() > 0 {
            assert(active(layered, disables) =~= layered);
        } else {
            assert(kept =~= Seq::empty());
            assert(active(layered, disables) =~= layered);
        }
    }
}

proof fn lemma_nothing_silenced(disables: Seq<Seq<char>>, name: Seq<char>)
    requires
        disables.len() == 0,
    ensures
        !silenced(disables, name),
{
    assert(crate::rules::good_globs(disables).len() == 0);
}

} // verus!
