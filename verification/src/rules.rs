//! Reviewing rules: reading a rules file, layering files and presets over each
//! other, and the report of what is active and why.

use crate::filter::{
    any_matches, compile_glob, compile_set, glob_complaint, patterns_of, set_complaint, set_is_match, set_patterns,
};
use crate::docs::{all_ticked, tick_all};
use crate::editor::{holds, plural, plural_of};
use crate::keyconfig::{config_path, config_place};
use crate::paths::{join_path, joined_path};
use crate::text::{
    after_last, chars_of, copy_strings, decimal, join, joined, number, option_text, pad_left, padded_left, same,
    signed_number, slice_string, texts,
};
use crate::textmap::TextMap;
use vstd::prelude::*;

verus! {

#[verifier::external_type_specification]
#[verifier::external_body]
pub struct ExTomlValue(toml::Value);

/// A TOML value.
pub ghost enum TomlTree {
    Text(Seq<char>),
    /// a date or a time, as its text
    Date(Seq<char>),
    Whole(i64),
    /// a number with a fraction, as its text
    Fraction(Seq<char>),
    Flag(bool),
    List(Seq<TomlTree>),
    /// the entries of a table, by key
    Table(Seq<(Seq<char>, TomlTree)>),
}

/// What `toml` reads a text as: a value, or what is wrong with it.
pub uninterp spec fn toml_document(text: Seq<char>) -> Result<TomlTree, Seq<char>>;

/// What a value of `toml` holds.
pub uninterp spec fn toml_tree(v: toml::Value) -> TomlTree;

/// One level of a TOML value.
pub enum TomlNode {
    Text(String),
    Date(String),
    Whole(i64),
    Fraction(String),
    Flag(bool),
    List(Vec<toml::Value>),
    Table(Vec<(String, toml::Value)>),
}

pub open spec fn tree_list(v: Seq<toml::Value>) -> Seq<TomlTree> {
    Seq::new(v.len(), |i: int| toml_tree(v[i]))
}

pub open spec fn tree_entries(v: Seq<(String, toml::Value)>) -> Seq<(Seq<char>, TomlTree)> {
    Seq::new(v.len(), |i: int| (v[i].0@, toml_tree(v[i].1)))
}

impl TomlNode {
    pub open spec fn tree(self) -> TomlTree {
        match self {
            TomlNode::Text(s) => TomlTree::Text(s@),
            TomlNode::Date(s) => TomlTree::Date(s@),
            TomlNode::Whole(n) => TomlTree::Whole(n),
            TomlNode::Fraction(s) => TomlTree::Fraction(s@),
            TomlNode::Flag(b) => TomlTree::Flag(b),
            TomlNode::List(v) => TomlTree::List(tree_list(v@)),
            TomlNode::Table(v) => TomlTree::Table(tree_entries(v@)),
        }
    }
}

/// Reads a text as `toml::Table`: a document is a table; else the crate says
/// what is wrong. Which texts are TOML is left to the crate.
#[verifier::external_body]
fn parse_toml(text: &str) -> (r: Result<toml::Value, String>)
    ensures
        match r {
            Ok(v) => toml_document(text@) == Ok::<TomlTree, Seq<char>>(toml_tree(v)) && toml_tree(v) is Table,
            Err(why) => toml_document(text@) == Err::<TomlTree, Seq<char>>(why@),
        },
{
    text.parse::<toml::Table>().map(toml::Value::Table).map_err(|e| e.to_string())
}

/// Tells the variants of `toml::Value` apart; a date gives its text.
#[verifier::external_body]
fn peel(v: &toml::Value) -> (r: TomlNode)
    ensures
        r.tree() == toml_tree(*v),
{
    match v.clone() {
        toml::Value::String(s) => TomlNode::Text(s),
        toml::Value::Integer(n) => TomlNode::Whole(n),
        toml::Value::Float(f) => TomlNode::Fraction(f.to_string()),
        toml::Value::Boolean(b) => TomlNode::Flag(b),
        toml::Value::Datetime(d) => TomlNode::Date(d.to_string()),
        toml::Value::Array(a) => TomlNode::List(a),
        toml::Value::Table(t) => TomlNode::Table(t.into_iter().collect()),
    }
}

/// What a rule matches on.
pub struct When {
    pub path: Option<String>,
    pub path_not: Option<String>,
    pub lang: Option<String>,
    pub category: Option<String>,
    pub enclosing_kind: Option<String>,
    pub defines: Option<String>,
    pub uses: Option<String>,
    pub imports: Option<String>,
    pub noise: Option<bool>,
    pub comment: Option<bool>,
    pub query: Option<String>,
    pub kind: Option<Vec<String>>,
    pub with: Option<Vec<String>>,
    pub without: Option<Vec<String>>,
    pub text: Option<String>,
    pub text_not: Option<String>,
    pub max_params: Option<usize>,
    pub max_lines: Option<usize>,
    pub max_nesting: Option<usize>,
    pub max_file_lines: Option<usize>,
    pub recursive: Option<bool>,
    pub container_with: Option<String>,
    pub container_without: Option<String>,
    pub member_uninitialized: Option<bool>,
}

/// A reviewing rule.
pub struct Rule {
    pub name: String,
    pub when: When,
    pub note: Option<String>,
    pub warn: Option<String>,
    pub noise: bool,
    pub priority: i64,
}

/// What a rule matches on, as text.
pub ghost struct WhenText {
    pub path: Option<Seq<char>>,
    pub path_not: Option<Seq<char>>,
    pub lang: Option<Seq<char>>,
    pub category: Option<Seq<char>>,
    pub enclosing_kind: Option<Seq<char>>,
    pub defines: Option<Seq<char>>,
    pub uses: Option<Seq<char>>,
    pub imports: Option<Seq<char>>,
    pub noise: Option<bool>,
    pub comment: Option<bool>,
    pub query: Option<Seq<char>>,
    pub kind: Option<Seq<Seq<char>>>,
    pub with: Option<Seq<Seq<char>>>,
    pub without: Option<Seq<Seq<char>>>,
    pub text: Option<Seq<char>>,
    pub text_not: Option<Seq<char>>,
    pub max_params: Option<usize>,
    pub max_lines: Option<usize>,
    pub max_nesting: Option<usize>,
    pub max_file_lines: Option<usize>,
    pub recursive: Option<bool>,
    pub container_with: Option<Seq<char>>,
    pub container_without: Option<Seq<char>>,
    pub member_uninitialized: Option<bool>,
}

/// A reviewing rule, as text.
pub ghost struct RuleText {
    pub name: Seq<char>,
    pub when: WhenText,
    pub note: Option<Seq<char>>,
    pub warn: Option<Seq<char>>,
    pub noise: bool,
    pub priority: i64,
}

pub open spec fn option_texts(v: Option<Vec<String>>) -> Option<Seq<Seq<char>>> {
    match v {
        Some(s) => Some(texts(s@)),
        None => None,
    }
}

fn copy_option(v: &Option<Vec<String>>) -> (r: Option<Vec<String>>)
    ensures
        option_texts(r) == option_texts(*v),
{
    match v {
        Some(s) => Some(copy_strings(s)),
        None => None,
    }
}

impl When {
    pub open spec fn text(self) -> WhenText {
        WhenText {
            path: option_text(self.path),
            path_not: option_text(self.path_not),
            lang: option_text(self.lang),
            category: option_text(self.category),
            enclosing_kind: option_text(self.enclosing_kind),
            defines: option_text(self.defines),
            uses: option_text(self.uses),
            imports: option_text(self.imports),
            noise: self.noise,
            comment: self.comment,
            query: option_text(self.query),
            kind: option_texts(self.kind),
            with: option_texts(self.with),
            without: option_texts(self.without),
            text: option_text(self.text),
            text_not: option_text(self.text_not),
            max_params: self.max_params,
            max_lines: self.max_lines,
            max_nesting: self.max_nesting,
            max_file_lines: self.max_file_lines,
            recursive: self.recursive,
            container_with: option_text(self.container_with),
            container_without: option_text(self.container_without),
            member_uninitialized: self.member_uninitialized,
        }
    }

    pub fn copied(&self) -> (r: When)
        ensures
            r.text() == self.text(),
    {
        When {
            path: self.path.clone(),
            path_not: self.path_not.clone(),
            lang: self.lang.clone(),
            category: self.category.clone(),
            enclosing_kind: self.enclosing_kind.clone(),
            defines: self.defines.clone(),
            uses: self.uses.clone(),
            imports: self.imports.clone(),
            noise: self.noise,
            comment: self.comment,
            query: self.query.clone(),
            kind: copy_option(&self.kind),
            with: copy_option(&self.with),
            without: copy_option(&self.without),
            text: self.text.clone(),
            text_not: self.text_not.clone(),
            max_params: self.max_params,
            max_lines: self.max_lines,
            max_nesting: self.max_nesting,
            max_file_lines: self.max_file_lines,
            recursive: self.recursive,
            container_with: self.container_with.clone(),
            container_without: self.container_without.clone(),
            member_uninitialized: self.member_uninitialized,
        }
    }
}

impl Rule {
    pub open spec fn text(self) -> RuleText {
        RuleText {
            name: self.name@,
            when: self.when.text(),
            note: option_text(self.note),
            warn: option_text(self.warn),
            noise: self.noise,
            priority: self.priority,
        }
    }

    pub fn copied(&self) -> (r: Rule)
        ensures
            r.text() == self.text(),
    {
        Rule {
            name: self.name.clone(),
            when: self.when.copied(),
            note: self.note.clone(),
            warn: self.warn.clone(),
            noise: self.noise,
            priority: self.priority,
        }
    }
}

pub open spec fn rule_texts(v: Seq<Rule>) -> Seq<RuleText> {
    Seq::new(v.len(), |i: int| v[i].text())
}

/// What a field of a rule holds.
pub enum FieldKind {
    Text,
    Flag,
    Texts,
    Count,
    Whole,
    Category,
}

/// The fields that a rule can have.
pub open spec fn field_kind(key: Seq<char>) -> Option<FieldKind> {
    if key == "name"@ || key == "note"@ || key == "warn"@ || key == "path"@ || key == "path-not"@ || key == "lang"@ || key == "enclosing-kind"@ || key == "defines"@ || key == "uses"@ || key == "imports"@ || key == "query"@ || key == "query-file"@ || key == "text"@ || key == "text-not"@ || key == "container-with"@ || key == "container-without"@ {
        Some(FieldKind::Text)
    } else if key == "noise"@ || key == "noise-when"@ || key == "comment"@ || key == "recursive"@ || key == "member-uninitialized"@ {
        Some(FieldKind::Flag)
    } else if key == "kind"@ || key == "with"@ || key == "without"@ {
        Some(FieldKind::Texts)
    } else if key == "max-params"@ || key == "max-lines"@ || key == "max-nesting"@ || key == "max-file-lines"@ {
        Some(FieldKind::Count)
    } else if key == "priority"@ {
        Some(FieldKind::Whole)
    } else if key == "category"@ {
        Some(FieldKind::Category)
    } else {
        None
    }
}

fn kind_of(key: &str) -> (r: Option<FieldKind>)
    ensures
        r == field_kind(key@),
{
    if same(key, "name") || same(key, "note") || same(key, "warn") || same(key, "path") || same(key, "path-not") || same(key, "lang") || same(key, "enclosing-kind") || same(key, "defines") || same(key, "uses") || same(key, "imports") || same(key, "query") || same(key, "query-file") || same(key, "text") || same(key, "text-not") || same(key, "container-with") || same(key, "container-without") {
        Some(FieldKind::Text)
    } else if same(key, "noise") || same(key, "noise-when") || same(key, "comment") || same(key, "recursive") || same(key, "member-uninitialized") {
        Some(FieldKind::Flag)
    } else if same(key, "kind") || same(key, "with") || same(key, "without") {
        Some(FieldKind::Texts)
    } else if same(key, "max-params") || same(key, "max-lines") || same(key, "max-nesting") || same(key, "max-file-lines") {
        Some(FieldKind::Count)
    } else if same(key, "priority") {
        Some(FieldKind::Whole)
    } else if same(key, "category") {
        Some(FieldKind::Category)
    } else {
        None
    }
}

/// What is read where a text is wanted: a text, or the text of a date.
pub open spec fn told_text(t: TomlTree) -> Option<Seq<char>> {
    match t {
        TomlTree::Text(s) => Some(s),
        TomlTree::Date(s) => Some(s),
        _ => None,
    }
}

fn tell_text(n: TomlNode) -> (r: Option<String>)
    ensures
        option_text(r) == told_text(n.tree()),
{
    match n {
        TomlNode::Text(s) => Some(s),
        TomlNode::Date(s) => Some(s),
        _ => None,
    }
}

/// Whether all of a list can be read as texts.
pub open spec fn all_text(v: Seq<TomlTree>) -> bool {
    forall|i: int| 0 <= i < v.len() ==> told_text(#[trigger] v[i]) is Some
}

/// Whether a list holds texts alone.
pub open spec fn all_strings(v: Seq<TomlTree>) -> bool {
    forall|i: int| 0 <= i < v.len() ==> (#[trigger] v[i]) is Text
}

fn only_strings(v: &Vec<toml::Value>) -> (r: bool)
    ensures
        r == all_strings(tree_list(v@)),
{
    let ghost all = tree_list(v@);
    for i in 0..v.len()
        invariant
            all == tree_list(v@),
            forall|k: int| 0 <= k < i ==> (#[trigger] all[k]) is Text,
    {
        let node = peel(&v[i]);
        assert(all[i as int] == node.tree());
        match node {
            TomlNode::Text(_) => {},
            _ => {
                assert(!(all[i as int] is Text));
                return false;
            },
        }
    }
    true
}

/// A text as it is written in Rust source.
pub uninterp spec fn debug_text(s: Seq<char>) -> Seq<char>;

/// Whether a character stands for itself inside quotation marks.
pub open spec fn stands_for_itself(c: char) -> bool {
    ' ' <= c <= '~' && c != '"' && c != '\\'
}

/// Formats a text with `{:?}`: between quotation marks, printable ASCII but for
/// the quotation mark and the backslash as it is. How other characters are
/// escaped is left to the standard library.
#[verifier::external_body]
fn debug_quote(s: &str) -> (r: String)
    ensures
        r@ == debug_text(s@),
        (forall|i: int| 0 <= i < s@.len() ==> stands_for_itself(#[trigger] s@[i])) ==> r@ == "\""@ + s@ + "\""@,
{
    format!("{:?}", s)
}

/// A number that is not whole, with a decimal point; what is no finite number has
/// none.
pub open spec fn with_point(s: Seq<char>) -> Seq<char> {
    if s.len() > 0 && '0' <= s.last() <= '9' && !s.contains('.') {
        s + ".0"@
    } else {
        s
    }
}

fn put_point(s: &str) -> (r: String)
    ensures
        r@ == with_point(s@),
{
    let cs = chars_of(s);
    let n: usize = cs.len();
    if n == 0 || cs[n - 1] < '0' || cs[n - 1] > '9' {
        return s.to_owned();
    }
    for i in 0..n
        invariant
            n == cs@.len(),
            cs@ == s@,
            forall|k: int| 0 <= k < i ==> s@[k] != '.',
    {
        if cs[i] == '.' {
            assert(s@[i as int] == '.');
            return s.to_owned();
        }
    }
    s.to_owned().concat(".0")
}

/// The names that were expected, in words.
pub open spec fn expected_words(names: Seq<Seq<char>>) -> Seq<char> {
    let t = all_ticked(names);
    if t.len() == 0 {
        ", there are no variants"@
    } else if t.len() == 1 {
        ", expected "@ + t[0]
    } else if t.len() == 2 {
        ", expected "@ + t[0] + " or "@ + t[1]
    } else {
        ", expected one of "@ + joined(t, ", "@)
    }
}

fn say_expected(names: &[String]) -> (r: String)
    ensures
        r@ == expected_words(texts(names@)),
{
    let t = tick_all(names);
    assert(all_ticked(texts(names@)).len() == t@.len());
    if t.len() == 0 {
        ", there are no variants".to_owned()
    } else if t.len() == 1 {
        assert(texts(t@)[0] == t@[0]@);
        ", expected ".to_owned().concat(&t[0])
    } else if t.len() == 2 {
        assert(texts(t@)[0] == t@[0]@ && texts(t@)[1] == t@[1]@);
        ", expected ".to_owned().concat(&t[0]).concat(" or ").concat(&t[1])
    } else {
        ", expected one of ".to_owned().concat(&join(&t, ", "))
    }
}

/// A value in words, for a complaint about it.
pub open spec fn value_words(t: TomlTree) -> Seq<char> {
    match t {
        TomlTree::Text(s) => "string "@ + debug_text(s),
        TomlTree::Date(s) => "string "@ + debug_text(s),
        TomlTree::Whole(n) => "integer `"@ + decimal(n as int) + "`"@,
        TomlTree::Fraction(s) => "floating point `"@ + with_point(s) + "`"@,
        TomlTree::Flag(b) => if b {
            "boolean `true`"@
        } else {
            "boolean `false`"@
        },
        TomlTree::List(_) => "sequence"@,
        TomlTree::Table(_) => "map"@,
    }
}

fn words_of_value(n: &TomlNode) -> (r: String)
    ensures
        r@ == value_words(n.tree()),
{
    match n {
        TomlNode::Text(s) => "string ".to_owned().concat(&debug_quote(s)),
        TomlNode::Date(s) => "string ".to_owned().concat(&debug_quote(s)),
        TomlNode::Whole(n) => "integer `".to_owned().concat(&signed_number(*n)).concat("`"),
        TomlNode::Fraction(s) => "floating point `".to_owned().concat(&put_point(s)).concat("`"),
        TomlNode::Flag(b) => {
            if *b {
                "boolean `true`".to_owned()
            } else {
                "boolean `false`".to_owned()
            }
        },
        TomlNode::List(_) => "sequence".to_owned(),
        TomlNode::Table(_) => "map".to_owned(),
    }
}

/// What kind of value a value is.
pub open spec fn kind_word(t: TomlTree) -> Seq<char> {
    match t {
        TomlTree::Text(_) => "string"@,
        TomlTree::Date(_) => "datetime"@,
        TomlTree::Whole(_) => "integer"@,
        TomlTree::Fraction(_) => "float"@,
        TomlTree::Flag(_) => "boolean"@,
        TomlTree::List(_) => "array"@,
        TomlTree::Table(_) => "table"@,
    }
}

fn say_kind(n: &TomlNode) -> (r: &'static str)
    ensures
        r@ == kind_word(n.tree()),
{
    match n {
        TomlNode::Text(_) => "string",
        TomlNode::Date(_) => "datetime",
        TomlNode::Whole(_) => "integer",
        TomlNode::Fraction(_) => "float",
        TomlNode::Flag(_) => "boolean",
        TomlNode::List(_) => "array",
        TomlNode::Table(_) => "table",
    }
}

/// That a category is not one of those that the engine knows, if it is not.
pub open spec fn unknown_category(name: Seq<char>, categories: Seq<Seq<char>>) -> Option<Seq<char>> {
    if categories.contains(name) {
        None
    } else {
        Some("unknown variant `"@ + name + "`"@ + expected_words(categories))
    }
}

fn complain_of_name(name: &str, categories: &[String]) -> (r: Option<String>)
    ensures
        option_text(r) == unknown_category(name@, texts(categories@)),
{
    if holds(categories, name) {
        None
    } else {
        Some("unknown variant `".to_owned().concat(name).concat("`").concat(&say_expected(categories)))
    }
}

/// What is wrong with a value as a category, if anything: a category is a text, or
/// a table with the category as its only key and nothing under it.
pub open spec fn category_complaint(t: TomlTree, categories: Seq<Seq<char>>) -> Option<Seq<char>> {
    match t {
        TomlTree::Text(s) => unknown_category(s, categories),
        TomlTree::Table(e) => if e.len() == 0 {
            Some("wanted exactly 1 element, found 0 elements"@)
        } else if e.len() != 1 {
            Some("wanted exactly 1 element, more than 1 element"@)
        } else if !categories.contains(e[0].0) {
            unknown_category(e[0].0, categories)
        } else {
            match e[0].1 {
                TomlTree::List(v) => if v.len() == 0 {
                    None
                } else {
                    Some("expected empty array"@)
                },
                TomlTree::Table(v) => if v.len() == 0 {
                    None
                } else {
                    Some("expected empty table"@)
                },
                other => Some("expected table, found "@ + kind_word(other)),
            }
        },
        _ => Some("invalid type: unit variant, expected string only"@),
    }
}

fn complain_of_category(n: &TomlNode, categories: &[String]) -> (r: Option<String>)
    ensures
        option_text(r) == category_complaint(n.tree(), texts(categories@)),
{
    match n {
        TomlNode::Text(s) => complain_of_name(s, categories),
        TomlNode::Table(t) => {
            assert(n.tree()->Table_0 == tree_entries(t@));
            assert(tree_entries(t@).len() == t@.len());
            if t.len() == 0 {
                return Some("wanted exactly 1 element, found 0 elements".to_owned());
            }
            if t.len() != 1 {
                return Some("wanted exactly 1 element, more than 1 element".to_owned());
            }
            assert(tree_entries(t@)[0] == (t@[0].0@, toml_tree(t@[0].1)));
            if let Some(why) = complain_of_name(&t[0].0, categories) {
                return Some(why);
            }
            let inside = peel(&t[0].1);
            match &inside {
                TomlNode::List(v) => {
                    assert(tree_list(v@).len() == v@.len());
                    if v.len() == 0 {
                        None
                    } else {
                        Some("expected empty array".to_owned())
                    }
                },
                TomlNode::Table(v) => {
                    assert(tree_entries(v@).len() == v@.len());
                    if v.len() == 0 {
                        None
                    } else {
                        Some("expected empty table".to_owned())
                    }
                },
                other => Some("expected table, found ".to_owned().concat(say_kind(other))),
            }
        },
        _ => Some("invalid type: unit variant, expected string only".to_owned()),
    }
}

/// What is wrong with a value in a field, if anything; `categories` are the
/// categories that the engine knows.
pub open spec fn value_complaint(
    key: Seq<char>,
    kind: FieldKind,
    t: TomlTree,
    categories: Seq<Seq<char>>,
) -> Option<Seq<char>> {
    let place = "\nin `"@ + key + "`\n"@;
    match kind {
        FieldKind::Text => if told_text(t) is Some {
            None
        } else {
            Some("invalid type: "@ + value_words(t) + ", expected a string"@ + place)
        },
        FieldKind::Flag => if t is Flag {
            None
        } else {
            Some("invalid type: "@ + value_words(t) + ", expected a boolean"@ + place)
        },
        FieldKind::Texts => if told_text(t) is Some || (t is List && all_text(t->List_0)) {
            None
        } else {
            Some("data did not match any variant of untagged enum V"@ + place)
        },
        FieldKind::Count => match t {
            TomlTree::Whole(n) => if 0 <= n <= usize::MAX {
                None
            } else {
                Some("invalid value: "@ + value_words(t) + ", expected usize"@ + place)
            },
            _ => Some("invalid type: "@ + value_words(t) + ", expected usize"@ + place),
        },
        FieldKind::Whole => if t is Whole {
            None
        } else {
            Some("invalid type: "@ + value_words(t) + ", expected i64"@ + place)
        },
        FieldKind::Category => match category_complaint(t, categories) {
            Some(why) => Some(why + place),
            None => None,
        },
    }
}

/// What is wrong with an entry of a rule, if anything.
pub open spec fn entry_complaint(e: (Seq<char>, TomlTree), categories: Seq<Seq<char>>) -> Option<Seq<char>> {
    match field_kind(e.0) {
        None => Some("unknown field `"@ + e.0 + "`, expected one of `name`, `note`, `warn`, `noise`, `priority`, `path`, `path-not`, `lang`, `category`, `enclosing-kind`, `defines`, `uses`, `imports`, `noise-when`, `comment`, `query`, `query-file`, `kind`, `with`, `without`, `text`, `text-not`, `max-params`, `max-lines`, `max-nesting`, `max-file-lines`, `recursive`, `container-with`, `container-without`, `member-uninitialized`\n"@),
        Some(kind) => value_complaint(e.0, kind, e.1, categories),
    }
}

/// What is wrong with the first `n` entries of a rule: the first bad one.
pub open spec fn entries_complaint(
    entries: Seq<(Seq<char>, TomlTree)>,
    categories: Seq<Seq<char>>,
    n: int,
) -> Option<Seq<char>>
    decreases n,
{
    if n <= 0 {
        None
    } else {
        match entries_complaint(entries, categories, n - 1) {
            Some(why) => Some(why),
            None => entry_complaint(entries[n - 1], categories),
        }
    }
}

/// The value of a key.
pub open spec fn lookup(entries: Seq<(Seq<char>, TomlTree)>, key: Seq<char>, n: int) -> Option<TomlTree>
    decreases n,
{
    if n <= 0 {
        None
    } else {
        match lookup(entries, key, n - 1) {
            Some(v) => Some(v),
            None => if entries[n - 1].0 == key {
                Some(entries[n - 1].1)
            } else {
                None
            },
        }
    }
}

pub open spec fn value_of(entries: Seq<(Seq<char>, TomlTree)>, key: Seq<char>) -> Option<TomlTree> {
    lookup(entries, key, entries.len() as int)
}

/// What is wrong with a rule: its first bad entry, else that it has no name.
pub open spec fn rule_complaint(entries: Seq<(Seq<char>, TomlTree)>, categories: Seq<Seq<char>>) -> Option<Seq<char>> {
    match entries_complaint(entries, categories, entries.len() as int) {
        Some(why) => Some(why),
        None => if value_of(entries, "name"@) is None {
            Some("missing field `name`\n"@)
        } else {
            None
        },
    }
}

pub open spec fn text_field(entries: Seq<(Seq<char>, TomlTree)>, key: Seq<char>) -> Option<Seq<char>> {
    match value_of(entries, key) {
        Some(t) => told_text(t),
        None => None,
    }
}

/// The category that an entry names: its text, or the only key of its table.
pub open spec fn category_field(entries: Seq<(Seq<char>, TomlTree)>) -> Option<Seq<char>> {
    match value_of(entries, "category"@) {
        Some(TomlTree::Text(s)) => Some(s),
        Some(TomlTree::Table(e)) => if e.len() == 1 {
            Some(e[0].0)
        } else {
            None
        },
        _ => None,
    }
}

pub open spec fn flag_field(entries: Seq<(Seq<char>, TomlTree)>, key: Seq<char>) -> Option<bool> {
    match value_of(entries, key) {
        Some(TomlTree::Flag(b)) => Some(b),
        _ => None,
    }
}

pub open spec fn whole_field(entries: Seq<(Seq<char>, TomlTree)>, key: Seq<char>) -> Option<i64> {
    match value_of(entries, key) {
        Some(TomlTree::Whole(n)) => Some(n),
        _ => None,
    }
}

pub open spec fn count_field(entries: Seq<(Seq<char>, TomlTree)>, key: Seq<char>) -> Option<usize> {
    match value_of(entries, key) {
        Some(TomlTree::Whole(n)) => if 0 <= n <= usize::MAX {
            Some(n as usize)
        } else {
            None
        },
        _ => None,
    }
}

/// One text, or a list of them.
pub open spec fn texts_of(t: TomlTree) -> Option<Seq<Seq<char>>> {
    match t {
        TomlTree::Text(s) => Some(seq![s]),
        TomlTree::Date(s) => Some(seq![s]),
        TomlTree::List(v) => if all_text(v) {
            Some(Seq::new(v.len(), |i: int| told_text(v[i])->0))
        } else {
            None
        },
        _ => None,
    }
}

pub open spec fn texts_field(entries: Seq<(Seq<char>, TomlTree)>, key: Seq<char>) -> Option<Seq<Seq<char>>> {
    match value_of(entries, key) {
        Some(t) => texts_of(t),
        None => None,
    }
}

/// A rule's entries, one level each.
pub struct Entry {
    pub key: String,
    pub node: TomlNode,
}

pub open spec fn entry_trees(v: Seq<Entry>) -> Seq<(Seq<char>, TomlTree)> {
    Seq::new(v.len(), |i: int| (v[i].key@, v[i].node.tree()))
}

fn peel_entries(v: &Vec<(String, toml::Value)>) -> (r: Vec<Entry>)
    ensures
        entry_trees(r@) == tree_entries(v@),
{
    let mut out: Vec<Entry> = Vec::new();
    for i in 0..v.len()
        invariant
            entry_trees(out@) == tree_entries(v@).take(i as int),
    {
        let ghost before = entry_trees(out@);
        out.push(Entry { key: v[i].0.clone(), node: peel(&v[i].1) });
        assert(entry_trees(out@) == before.push(tree_entries(v@)[i as int]));
        assert(tree_entries(v@).take(i + 1) == tree_entries(v@).take(i as int).push(
            tree_entries(v@)[i as int],
        ));
    }
    assert(tree_entries(v@).take(v@.len() as int) == tree_entries(v@));
    out
}

fn find_entry(entries: &Vec<Entry>, key: &str) -> (r: Option<usize>)
    ensures
        match r {
            Some(i) => i < entries@.len() && value_of(entry_trees(entries@), key@) == Some(
                entries@[i as int].node.tree(),
            ),
            None => value_of(entry_trees(entries@), key@) is None,
        },
{
    let mut found: Option<usize> = None;
    let ghost all = entry_trees(entries@);
    for i in 0..entries.len()
        invariant
            all == entry_trees(entries@),
            match found {
                Some(k) => k < i && lookup(all, key@, i as int) == Some(entries@[k as int].node.tree()),
                None => lookup(all, key@, i as int) is None,
            },
    {
        assert(all[i as int] == (entries@[i as int].key@, entries@[i as int].node.tree()));
        if found.is_none() && same(&entries[i].key, key) {
            found = Some(i);
        }
    }
    found
}

fn get_text(entries: &Vec<Entry>, key: &str) -> (r: Option<String>)
    ensures
        option_text(r) == text_field(entry_trees(entries@), key@),
{
    match find_entry(entries, key) {
        Some(i) => match &entries[i].node {
            TomlNode::Text(s) => Some(s.clone()),
            TomlNode::Date(s) => Some(s.clone()),
            _ => None,
        },
        None => None,
    }
}

fn get_category(entries: &Vec<Entry>) -> (r: Option<String>)
    ensures
        option_text(r) == category_field(entry_trees(entries@)),
{
    match find_entry(entries, "category") {
        Some(i) => match &entries[i].node {
            TomlNode::Text(s) => Some(s.clone()),
            TomlNode::Table(t) => {
                assert(tree_entries(t@).len() == t@.len());
                if t.len() == 1 {
                    assert(tree_entries(t@)[0].0 == t@[0].0@);
                    Some(t[0].0.clone())
                } else {
                    None
                }
            },
            _ => None,
        },
        None => None,
    }
}

fn get_flag(entries: &Vec<Entry>, key: &str) -> (r: Option<bool>)
    ensures
        r == flag_field(entry_trees(entries@), key@),
{
    match find_entry(entries, key) {
        Some(i) => match &entries[i].node {
            TomlNode::Flag(b) => Some(*b),
            _ => None,
        },
        None => None,
    }
}

fn get_whole(entries: &Vec<Entry>, key: &str) -> (r: Option<i64>)
    ensures
        r == whole_field(entry_trees(entries@), key@),
{
    match find_entry(entries, key) {
        Some(i) => match &entries[i].node {
            TomlNode::Whole(n) => Some(*n),
            _ => None,
        },
        None => None,
    }
}

fn as_count(n: i64) -> (r: Option<usize>)
    ensures
        r == (if 0 <= n <= usize::MAX {
            Some(n as usize)
        } else {
            None
        }),
{
    if n < 0 || (n as u64) > (usize::MAX as u64) {
        None
    } else {
        Some(n as usize)
    }
}

fn get_count(entries: &Vec<Entry>, key: &str) -> (r: Option<usize>)
    ensures
        r == count_field(entry_trees(entries@), key@),
{
    match get_whole(entries, key) {
        Some(n) => as_count(n),
        None => None,
    }
}

fn list_texts(v: &Vec<toml::Value>) -> (r: Option<Vec<String>>)
    ensures
        match r {
            Some(s) => all_text(tree_list(v@)) && texts(s@) == Seq::new(
                v@.len(),
                |i: int| told_text(tree_list(v@)[i])->0,
            ),
            None => !all_text(tree_list(v@)),
        },
{
    let mut out: Vec<String> = Vec::new();
    let ghost all = tree_list(v@);
    for i in 0..v.len()
        invariant
            all == tree_list(v@),
            forall|k: int| 0 <= k < i ==> told_text(#[trigger] all[k]) is Some,
            texts(out@) == Seq::new(i as nat, |k: int| told_text(all[k])->0),
    {
        let node = peel(&v[i]);
        assert(all[i as int] == node.tree());
        match tell_text(node) {
            Some(s) => {
                let ghost before = texts(out@);
                out.push(s);
                assert(texts(out@) == before.push(s@));
                assert(texts(out@) == Seq::new((i + 1) as nat, |k: int| told_text(all[k])->0));
            },
            None => {
                assert(told_text(all[i as int]) is None);
                return None;
            },
        }
    }
    Some(out)
}

fn node_texts(n: &TomlNode) -> (r: Option<Vec<String>>)
    ensures
        option_texts(r) == texts_of(n.tree()),
{
    match n {
        TomlNode::Text(s) => {
            let mut one: Vec<String> = Vec::new();
            one.push(s.clone());
            assert(texts(one@) == seq![s@]);
            Some(one)
        },
        TomlNode::Date(s) => {
            let mut one: Vec<String> = Vec::new();
            one.push(s.clone());
            assert(texts(one@) == seq![s@]);
            Some(one)
        },
        TomlNode::List(v) => list_texts(v),
        _ => None,
    }
}

fn get_texts(entries: &Vec<Entry>, key: &str) -> (r: Option<Vec<String>>)
    ensures
        option_texts(r) == texts_field(entry_trees(entries@), key@),
{
    match find_entry(entries, key) {
        Some(i) => node_texts(&entries[i].node),
        None => None,
    }
}

fn complain_of_value(key: &str, kind: FieldKind, n: &TomlNode, categories: &[String]) -> (r: Option<String>)
    ensures
        option_text(r) == value_complaint(key@, kind, n.tree(), texts(categories@)),
{
    let place = "\nin `".to_owned().concat(key).concat("`\n");
    match kind {
        FieldKind::Text => match n {
            TomlNode::Text(_) => None,
            TomlNode::Date(_) => None,
            _ => Some(
                "invalid type: ".to_owned().concat(&words_of_value(n)).concat(
                    ", expected a string",
                ).concat(&place),
            ),
        },
        FieldKind::Flag => match n {
            TomlNode::Flag(_) => None,
            _ => Some(
                "invalid type: ".to_owned().concat(&words_of_value(n)).concat(
                    ", expected a boolean",
                ).concat(&place),
            ),
        },
        FieldKind::Texts => match node_texts(n) {
            Some(_) => None,
            None => Some(
                "data did not match any variant of untagged enum V".to_owned().concat(&place),
            ),
        },
        FieldKind::Count => match n {
            TomlNode::Whole(k) => match as_count(*k) {
                Some(_) => None,
                None => Some(
                    "invalid value: ".to_owned().concat(&words_of_value(n)).concat(
                        ", expected usize",
                    ).concat(&place),
                ),
            },
            _ => Some(
                "invalid type: ".to_owned().concat(&words_of_value(n)).concat(
                    ", expected usize",
                ).concat(&place),
            ),
        },
        FieldKind::Whole => match n {
            TomlNode::Whole(_) => None,
            _ => Some(
                "invalid type: ".to_owned().concat(&words_of_value(n)).concat(
                    ", expected i64",
                ).concat(&place),
            ),
        },
        FieldKind::Category => match complain_of_category(n, categories) {
            Some(why) => Some(why.concat(&place)),
            None => None,
        },
    }
}

fn complain_of_rule(entries: &Vec<Entry>, categories: &[String]) -> (r: Option<String>)
    ensures
        option_text(r) == rule_complaint(entry_trees(entries@), texts(categories@)),
{
    let ghost all = entry_trees(entries@);
    for i in 0..entries.len()
        invariant
            all == entry_trees(entries@),
            entries_complaint(all, texts(categories@), i as int) is None,
    {
        let e = &entries[i];
        assert(all[i as int] == (e.key@, e.node.tree()));
        let why = match kind_of(&e.key) {
            None => Some(
                "unknown field `".to_owned().concat(&e.key).concat(
                    "`, expected one of `name`, `note`, `warn`, `noise`, `priority`, `path`, `path-not`, `lang`, `category`, `enclosing-kind`, `defines`, `uses`, `imports`, `noise-when`, `comment`, `query`, `query-file`, `kind`, `with`, `without`, `text`, `text-not`, `max-params`, `max-lines`, `max-nesting`, `max-file-lines`, `recursive`, `container-with`, `container-without`, `member-uninitialized`\n",
                ),
            ),
            Some(kind) => complain_of_value(&e.key, kind, &e.node, categories),
        };
        if let Some(text) = why {
            proof {
                lemma_first_bad_entry(all, texts(categories@), i + 1, all.len() as int);
            }
            return Some(text);
        }
    }
    match find_entry(entries, "name") {
        Some(_) => None,
        None => Some("missing field `name`\n".to_owned()),
    }
}

proof fn lemma_first_bad_entry(
    entries: Seq<(Seq<char>, TomlTree)>,
    categories: Seq<Seq<char>>,
    a: int,
    b: int,
)
    requires
        0 <= a <= b,
        entries_complaint(entries, categories, a) is Some,
    ensures
        entries_complaint(entries, categories, b) == entries_complaint(entries, categories, a),
    decreases b,
{
    if a < b {
        lemma_first_bad_entry(entries, categories, a, b - 1);
    }
}

/// What reading a file gave.
pub enum FileRead {
    Text(String),
    /// there is no such file: the system's words for it
    Missing(String),
    /// it could not be read: the system's words for it
    Failed(String),
}

/// What reading a file gave, as text.
pub ghost enum ReadText {
    Text(Seq<char>),
    Missing(Seq<char>),
    Failed(Seq<char>),
}

impl FileRead {
    pub open spec fn text(self) -> ReadText {
        match self {
            FileRead::Text(s) => ReadText::Text(s@),
            FileRead::Missing(s) => ReadText::Missing(s@),
            FileRead::Failed(s) => ReadText::Failed(s@),
        }
    }
}

/// What the library is given to read rules with: the bundled presets, the files
/// that were read so far, the engine's categories, and what the program's reader
/// of TOML says against a text as a rules file, by the text.
pub struct RuleWorld {
    pub presets: TextMap<String>,
    pub files: TextMap<FileRead>,
    pub categories: Vec<String>,
    pub told: TextMap<String>,
}

impl RuleWorld {
    /// What is said against a rules file: the words of the program's reader, which
    /// tell the place, or `why` where it was not asked.
    pub open spec fn complaint(self, text: Seq<char>, why: Seq<char>) -> Seq<char> {
        if self.told@.dom().contains(text) {
            self.told@[text]@
        } else {
            why
        }
    }

    /// What is known of a file: nothing where it was not read yet.
    pub open spec fn file(self, path: Seq<char>) -> Option<ReadText> {
        if self.files@.dom().contains(path) {
            Some(self.files@[path].text())
        } else {
            None
        }
    }

    pub open spec fn preset_text(self, name: Seq<char>) -> Option<Seq<char>> {
        if self.presets@.dom().contains(name) {
            Some(self.presets@[name]@)
        } else {
            None
        }
    }
}

/// The text of a bundled preset.
pub fn preset(presets: &TextMap<String>, name: &str) -> (r: Option<String>)
    ensures
        option_text(r) == (if presets@.dom().contains(name@) {
            Some(presets@[name@]@)
        } else {
            None
        }),
{
    match presets.get(name) {
        Some(t) => Some(t.clone()),
        None => None,
    }
}

/// What a rule is called in a complaint: its name, or its number in the file.
pub open spec fn rule_label(t: TomlTree, idx: int) -> Seq<char> {
    match t {
        TomlTree::Table(entries) => match value_of(entries, "name"@) {
            Some(TomlTree::Text(s)) => s,
            _ => "rule "@ + decimal(idx + 1),
        },
        _ => "rule "@ + decimal(idx + 1),
    }
}

/// What reading the rules of one file has come to.
pub ghost struct DocText {
    pub rules: Seq<RuleText>,
    pub problems: Seq<Seq<char>>,
    /// files that have to be read first
    pub missing: Seq<Seq<char>>,
}

/// The rule that a value writes, given the query that it names; `query` is the
/// text of the query file where one is named and was read.
pub open spec fn rule_of(entries: Seq<(Seq<char>, TomlTree)>, query: Option<Seq<char>>) -> RuleText {
    RuleText {
        name: match text_field(entries, "name"@) {
            Some(n) => n,
            None => ""@,
        },
        when: WhenText {
            path: text_field(entries, "path"@),
            path_not: text_field(entries, "path-not"@),
            lang: text_field(entries, "lang"@),
            category: category_field(entries),
            enclosing_kind: text_field(entries, "enclosing-kind"@),
            defines: text_field(entries, "defines"@),
            uses: text_field(entries, "uses"@),
            imports: text_field(entries, "imports"@),
            noise: flag_field(entries, "noise-when"@),
            comment: flag_field(entries, "comment"@),
            query,
            kind: texts_field(entries, "kind"@),
            with: texts_field(entries, "with"@),
            without: texts_field(entries, "without"@),
            text: text_field(entries, "text"@),
            text_not: text_field(entries, "text-not"@),
            max_params: count_field(entries, "max-params"@),
            max_lines: count_field(entries, "max-lines"@),
            max_nesting: count_field(entries, "max-nesting"@),
            max_file_lines: count_field(entries, "max-file-lines"@),
            recursive: flag_field(entries, "recursive"@),
            container_with: text_field(entries, "container-with"@),
            container_without: text_field(entries, "container-without"@),
            member_uninitialized: flag_field(entries, "member-uninitialized"@),
        },
        note: text_field(entries, "note"@),
        warn: text_field(entries, "warn"@),
        noise: match flag_field(entries, "noise"@) {
            Some(b) => b,
            None => false,
        },
        priority: match whole_field(entries, "priority"@) {
            Some(n) => n,
            None => 0,
        },
    }
}

fn make_rule(entries: &Vec<Entry>, query: Option<String>) -> (r: Rule)
    ensures
        r.text() == rule_of(entry_trees(entries@), option_text(query)),
{
    Rule {
        name: match get_text(entries, "name") {
            Some(n) => n,
            None => "".to_owned(),
        },
        when: When {
            path: get_text(entries, "path"),
            path_not: get_text(entries, "path-not"),
            lang: get_text(entries, "lang"),
            category: get_category(entries),
            enclosing_kind: get_text(entries, "enclosing-kind"),
            defines: get_text(entries, "defines"),
            uses: get_text(entries, "uses"),
            imports: get_text(entries, "imports"),
            noise: get_flag(entries, "noise-when"),
            comment: get_flag(entries, "comment"),
            query,
            kind: get_texts(entries, "kind"),
            with: get_texts(entries, "with"),
            without: get_texts(entries, "without"),
            text: get_text(entries, "text"),
            text_not: get_text(entries, "text-not"),
            max_params: get_count(entries, "max-params"),
            max_lines: get_count(entries, "max-lines"),
            max_nesting: get_count(entries, "max-nesting"),
            max_file_lines: get_count(entries, "max-file-lines"),
            recursive: get_flag(entries, "recursive"),
            container_with: get_text(entries, "container-with"),
            container_without: get_text(entries, "container-without"),
            member_uninitialized: get_flag(entries, "member-uninitialized"),
        },
        note: get_text(entries, "note"),
        warn: get_text(entries, "warn"),
        noise: match get_flag(entries, "noise") {
            Some(b) => b,
            None => false,
        },
        priority: match get_whole(entries, "priority") {
            Some(n) => n,
            None => 0,
        },
    }
}

/// The document with a rule's value more: a rule that is in order joins the
/// others unless its name is taken; anything else is a problem.
pub open spec fn value_added(d: DocText, t: TomlTree, idx: int, base: Seq<char>, world: RuleWorld) -> DocText {
    let label = rule_label(t, idx);
    match t {
        TomlTree::Table(entries) => match rule_complaint(entries, texts(world.categories@)) {
            Some(why) => DocText { problems: d.problems.push(label + ": "@ + why), ..d },
            None => {
                let named = text_field(entries, "query-file"@);
                let read = match named {
                    Some(qf) => world.file(joined_path(base, qf)),
                    None => None,
                };
                let after = match (named, read) {
                    (Some(qf), None) => DocText {
                        missing: d.missing.push(joined_path(base, qf)),
                        ..d
                    },
                    (Some(qf), Some(ReadText::Missing(why))) => DocText {
                        problems: d.problems.push(label + ": "@ + qf + ": "@ + why),
                        ..d
                    },
                    (Some(qf), Some(ReadText::Failed(why))) => DocText {
                        problems: d.problems.push(label + ": "@ + qf + ": "@ + why),
                        ..d
                    },
                    _ => d,
                };
                let query = match read {
                    Some(ReadText::Text(q)) => Some(q),
                    _ => text_field(entries, "query"@),
                };
                rule_added(after, rule_of(entries, query))
            },
        },
        _ => DocText {
            problems: d.problems.push(
                label + ": "@ + "invalid type: "@ + value_words(t) + ", expected struct RuleToml\n"@,
            ),
            ..d
        },
    }
}

/// The document with a rule more; a name that is taken is a problem.
pub open spec fn rule_added(d: DocText, r: RuleText) -> DocText {
    if exists|i: int| 0 <= i < d.rules.len() && (#[trigger] d.rules[i]).name == r.name {
        DocText {
            problems: d.problems.push("rule `"@ + r.name + "` is defined twice in this file"@),
            ..d
        }
    } else {
        DocText { rules: d.rules.push(r), ..d }
    }
}

pub open spec fn values_added(values: Seq<TomlTree>, base: Seq<char>, world: RuleWorld, n: int) -> DocText
    decreases n,
{
    if n <= 0 {
        DocText { rules: Seq::empty(), problems: Seq::empty(), missing: Seq::empty() }
    } else {
        value_added(values_added(values, base, world, n - 1), values[n - 1], n - 1, base, world)
    }
}

/// The keys that a rules file can have.
pub open spec fn document_key(key: Seq<char>) -> bool {
    key == "include"@ || key == "disable"@ || key == "rule"@
}

/// What is wrong with an entry of a rules file, if anything.
pub open spec fn document_entry_complaint(e: (Seq<char>, TomlTree)) -> Option<Seq<char>> {
    if !document_key(e.0) {
        Some("unknown field `"@ + e.0 + "`, expected one of `include`, `disable`, `rule`\n"@)
    } else if e.1 !is List {
        Some("invalid type: "@ + value_words(e.1) + ", expected a sequence\nin `"@ + e.0 + "`\n"@)
    } else if e.0 != "rule"@ && !all_strings(e.1->List_0) {
        Some("invalid type: expected a string\nin `"@ + e.0 + "`\n"@)
    } else {
        None
    }
}

pub open spec fn document_complaint(entries: Seq<(Seq<char>, TomlTree)>, n: int) -> Option<Seq<char>>
    decreases n,
{
    if n <= 0 {
        None
    } else {
        match document_complaint(entries, n - 1) {
            Some(why) => Some(why),
            None => document_entry_complaint(entries[n - 1]),
        }
    }
}

/// One rules file, read: its rules, what it builds on, what it disables.
pub struct RulesDoc {
    pub rules: Vec<Rule>,
    /// presets and files that come before it
    pub includes: Vec<String>,
    pub disable: Vec<String>,
    pub problems: Vec<String>,
    /// files that have to be read first
    pub missing: Vec<String>,
}

/// One rules file, as text.
pub ghost struct RulesText {
    pub doc: DocText,
    pub includes: Seq<Seq<char>>,
    pub disable: Seq<Seq<char>>,
}

impl RulesDoc {
    pub open spec fn text(self) -> RulesText {
        RulesText {
            doc: DocText {
                rules: rule_texts(self.rules@),
                problems: texts(self.problems@),
                missing: texts(self.missing@),
            },
            includes: texts(self.includes@),
            disable: texts(self.disable@),
        }
    }
}

pub open spec fn list_or_empty(o: Option<Seq<Seq<char>>>) -> Seq<Seq<char>> {
    match o {
        Some(s) => s,
        None => Seq::empty(),
    }
}

/// What a rules file says. A file that cannot be read at all has that as its
/// only problem.
pub open spec fn rules_read(text: Seq<char>, base: Seq<char>, world: RuleWorld) -> RulesText {
    let empty = |problem: Seq<char>|
        RulesText {
            doc: DocText { rules: Seq::empty(), problems: seq![problem], missing: Seq::empty() },
            includes: Seq::empty(),
            disable: Seq::empty(),
        };
    match toml_document(text) {
        Err(why) => empty(why),
        Ok(tree) => {
            let entries = tree->Table_0;
            match document_complaint(entries, entries.len() as int) {
                Some(why) => empty(world.complaint(text, why)),
                None => RulesText {
                    doc: match value_of(entries, "rule"@) {
                        Some(TomlTree::List(v)) => values_added(v, base, world, v.len() as int),
                        _ => values_added(Seq::empty(), base, world, 0),
                    },
                    includes: list_or_empty(texts_field(entries, "include"@)),
                    disable: list_or_empty(texts_field(entries, "disable"@)),
                },
            }
        },
    }
}

fn name_taken(rules: &Vec<Rule>, name: &str) -> (r: bool)
    ensures
        r == exists|i: int| 0 <= i < rules@.len() && (#[trigger] rule_texts(rules@)[i]).name == name@,
{
    for i in 0..rules.len()
        invariant
            forall|k: int| 0 <= k < i ==> (#[trigger] rule_texts(rules@)[k]).name != name@,
    {
        if same(&rules[i].name, name) {
            assert(rule_texts(rules@)[i as int].name == name@);
            return true;
        }
    }
    false
}

fn rule_from_toml(d: &mut RulesDoc, v: &toml::Value, idx: usize, base: &str, world: &RuleWorld)
    requires
        idx < usize::MAX,
    ensures
        final(d).text() == (RulesText {
            doc: value_added(old(d).text().doc, toml_tree(*v), idx as int, base@, *world),
            ..old(d).text()
        }),
{
    let ghost before = d.text();
    let node = peel(v);
    let entries = match &node {
        TomlNode::Table(t) => peel_entries(t),
        _ => {
            let label = "rule ".to_owned().concat(&number(idx + 1));
            let line = label.concat(": ").concat("invalid type: ").concat(
                &words_of_value(&node),
            ).concat(", expected struct RuleToml\n");
            d.problems.push(line);
            assert(texts(d.problems@) == before.doc.problems.push(line@));
            assert(rule_texts(d.rules@) == before.doc.rules);
            return;
        },
    };
    let label = match find_entry(&entries, "name") {
        Some(i) => match &entries[i].node {
            TomlNode::Text(n) => n.clone(),
            _ => "rule ".to_owned().concat(&number(idx + 1)),
        },
        None => "rule ".to_owned().concat(&number(idx + 1)),
    };
    assert(label@ == rule_label(toml_tree(*v), idx as int));
    if let Some(why) = complain_of_rule(&entries, &world.categories) {
        let line = label.concat(": ").concat(&why);
        d.problems.push(line);
        assert(texts(d.problems@) == before.doc.problems.push(line@));
        return;
    }
    let mut query = get_text(&entries, "query");
    if let Some(qf) = get_text(&entries, "query-file") {
        let path = join_path(base, &qf);
        match world.files.get(&path) {
            None => {
                d.missing.push(path);
                assert(texts(d.missing@) == before.doc.missing.push(path@));
            },
            Some(FileRead::Text(q)) => {
                query = Some(q.clone());
            },
            Some(FileRead::Missing(why)) => {
                let line = label.concat(": ").concat(&qf).concat(": ").concat(why);
                d.problems.push(line);
                assert(texts(d.problems@) == before.doc.problems.push(line@));
            },
            Some(FileRead::Failed(why)) => {
                let line = label.concat(": ").concat(&qf).concat(": ").concat(why);
                d.problems.push(line);
                assert(texts(d.problems@) == before.doc.problems.push(line@));
            },
        }
    }
    let ghost after = d.text();
    let rule = make_rule(&entries, query);
    assert(rule_texts(d.rules@) == after.doc.rules);
    if name_taken(&d.rules, &rule.name) {
        let line = "rule `".to_owned().concat(&rule.name).concat("` is defined twice in this file");
        d.problems.push(line);
        assert(texts(d.problems@) == after.doc.problems.push(line@));
    } else {
        d.rules.push(rule);
        assert(rule_texts(d.rules@) == after.doc.rules.push(rule.text()));
    }
}

fn complain_of_document(entries: &Vec<Entry>) -> (r: Option<String>)
    ensures
        option_text(r) == document_complaint(entry_trees(entries@), entries@.len() as int),
{
    let ghost all = entry_trees(entries@);
    let mut found: Option<String> = None;
    for i in 0..entries.len()
        invariant
            all == entry_trees(entries@),
            option_text(found) == document_complaint(all, i as int),
    {
        let e = &entries[i];
        assert(all[i as int] == (e.key@, e.node.tree()));
        if found.is_none() {
            if !(same(&e.key, "include") || same(&e.key, "disable") || same(&e.key, "rule")) {
                found = Some(
                    "unknown field `".to_owned().concat(&e.key).concat(
                        "`, expected one of `include`, `disable`, `rule`\n",
                    ),
                );
            } else {
                match &e.node {
                    TomlNode::List(v) => {
                        if !same(&e.key, "rule") && !only_strings(v) {
                            found = Some(
                                "invalid type: expected a string\nin `".to_owned().concat(
                                    &e.key,
                                ).concat("`\n"),
                            );
                        }
                    },
                    _ => {
                        found = Some(
                            "invalid type: ".to_owned().concat(&words_of_value(&e.node)).concat(
                                ", expected a sequence\nin `",
                            ).concat(&e.key).concat("`\n"),
                        );
                    },
                }
            }
        }
    }
    found
}

fn only_problem(why: String) -> (r: RulesDoc)
    ensures
        r.text() == (RulesText {
            doc: DocText { rules: Seq::empty(), problems: seq![why@], missing: Seq::empty() },
            includes: Seq::empty(),
            disable: Seq::empty(),
        }),
{
    let mut problems: Vec<String> = Vec::new();
    problems.push(why);
    let d = RulesDoc {
        rules: Vec::new(),
        includes: Vec::new(),
        disable: Vec::new(),
        problems,
        missing: Vec::new(),
    };
    assert(rule_texts(d.rules@) == Seq::<RuleText>::empty());
    assert(texts(d.problems@) == seq![why@]);
    assert(texts(d.missing@) == Seq::<Seq<char>>::empty());
    d
}

/// Reads one rules file. A query that a rule names by file is looked up below
/// `base`.
pub fn parse_rules_doc(text: &str, base: &str, world: &RuleWorld) -> (r: RulesDoc)
    ensures
        r.text() == rules_read(text@, base@, *world),
{
    let value = match parse_toml(text) {
        Ok(v) => v,
        Err(why) => {
            return only_problem(why);
        },
    };
    let entries = match peel(&value) {
        TomlNode::Table(t) => peel_entries(&t),
        _ => Vec::new(),
    };
    assert(entry_trees(entries@) == toml_tree(value)->Table_0);
    if let Some(why) = complain_of_document(&entries) {
        let words = match world.told.get(text) {
            Some(told) => told.clone(),
            None => why,
        };
        return only_problem(words);
    }
    let includes = match get_texts(&entries, "include") {
        Some(v) => v,
        None => Vec::new(),
    };
    let disable = match get_texts(&entries, "disable") {
        Some(v) => v,
        None => Vec::new(),
    };
    assert(texts(includes@) == list_or_empty(texts_field(entry_trees(entries@), "include"@)));
    assert(texts(disable@) == list_or_empty(texts_field(entry_trees(entries@), "disable"@)));
    let mut d = RulesDoc { rules: Vec::new(), includes, disable, problems: Vec::new(), missing: Vec::new() };
    let ghost start = d.text();
    assert(start.doc == values_added(Seq::empty(), base@, *world, 0)) by {
        assert(rule_texts(d.rules@) == Seq::<RuleText>::empty());
        assert(texts(d.problems@) == Seq::<Seq<char>>::empty());
        assert(texts(d.missing@) == Seq::<Seq<char>>::empty());
    }
    if let Some(i) = find_entry(&entries, "rule") {
        if let TomlNode::List(v) = &entries[i].node {
            let ghost trees = tree_list(v@);
            let n: usize = v.len();
            assert(values_added(trees, base@, *world, 0) == values_added(Seq::empty(), base@, *world, 0));
            for k in 0..n
                invariant
                    n == v@.len(),
                    trees == tree_list(v@),
                    d.text() == (RulesText {
                        doc: values_added(trees, base@, *world, k as int),
                        ..start
                    }),
            {
                rule_from_toml(&mut d, &v[k], k, base, world);
            }
        }
    }
    d
}

/// The rules and problems of one rules file.
pub fn parse_rules(text: &str, base: &str, world: &RuleWorld) -> (r: (Vec<Rule>, Vec<String>))
    ensures
        rule_texts(r.0@) == rules_read(text@, base@, *world).doc.rules,
        texts(r.1@) == rules_read(text@, base@, *world).doc.problems,
{
    let d = parse_rules_doc(text, base, world);
    (d.rules, d.problems)
}

proof fn lemma_names_differ(values: Seq<TomlTree>, base: Seq<char>, world: RuleWorld, n: int)
    requires
        0 <= n,
    ensures
        forall|i: int, j: int|
            0 <= i < j < values_added(values, base, world, n).rules.len() ==> (
            #[trigger] values_added(values, base, world, n).rules[i]).name != (
            #[trigger] values_added(values, base, world, n).rules[j]).name,
    decreases n,
{
    if n > 0 {
        lemma_names_differ(values, base, world, n - 1);
    }
}

/// No two rules of a file share a name.
pub proof fn law_rule_names_differ_within_a_file(text: Seq<char>, base: Seq<char>, world: RuleWorld, i: int, j: int)
    requires
        0 <= i < j < rules_read(text, base, world).doc.rules.len(),
    ensures
        rules_read(text, base, world).doc.rules[i].name != rules_read(text, base, world).doc.rules[j].name,
{
    let d = rules_read(text, base, world);
    if let Ok(tree) = toml_document(text) {
        match value_of(tree->Table_0, "rule"@) {
            Some(TomlTree::List(v)) => {
                lemma_names_differ(v, base, world, v.len() as int);
            },
            _ => {},
        }
    }
}

/// A rule that is in order is read whatever the other rules of its file are,
/// unless one before it took its name.
pub proof fn law_one_broken_rule_does_not_sink_the_others(
    d: DocText,
    t: TomlTree,
    idx: int,
    base: Seq<char>,
    world: RuleWorld,
)
    ensures
        d.rules.len() <= value_added(d, t, idx, base, world).rules.len(),
        forall|i: int|
            0 <= i < d.rules.len() ==> #[trigger] value_added(d, t, idx, base, world).rules[i] == d.rules[i],
        t is Table && rule_complaint(t->Table_0, texts(world.categories@)) is None && (forall|i: int|
            0 <= i < d.rules.len() ==> Some((#[trigger] d.rules[i]).name) != text_field(t->Table_0, "name"@))
            ==> value_added(d, t, idx, base, world).rules.len() == d.rules.len() + 1,
{
    if t is Table && rule_complaint(t->Table_0, texts(world.categories@)) is None {
        let entries = t->Table_0;
        lemma_name_is_text(entries, texts(world.categories@));
        assert(text_field(entries, "name"@) is Some);
    }
}

proof fn lemma_name_is_text(entries: Seq<(Seq<char>, TomlTree)>, categories: Seq<Seq<char>>)
    requires
        rule_complaint(entries, categories) is None,
    ensures
        text_field(entries, "name"@) is Some,
{
    let n = entries.len() as int;
    lemma_entry_in_order(entries, categories, "name"@, n);
}

proof fn lemma_entry_in_order(
    entries: Seq<(Seq<char>, TomlTree)>,
    categories: Seq<Seq<char>>,
    key: Seq<char>,
    n: int,
)
    requires
        0 <= n <= entries.len(),
        entries_complaint(entries, categories, n) is None,
    ensures
        lookup(entries, key, n) matches Some(t) ==> entry_complaint((key, t), categories) is None,
    decreases n,
{
    if n > 0 {
        lemma_entry_in_order(entries, categories, key, n - 1);
    }
}

/// The rules that are layered so far, and what was noticed on the way.
pub struct Layers {
    pub layered: Vec<(Rule, String)>,
    pub disables: Vec<String>,
    pub replaced: Vec<String>,
    pub problems: Vec<String>,
    /// files that have to be read first
    pub missing: Vec<String>,
}

/// The same, as text.
pub ghost struct LayersText {
    pub layered: Seq<(RuleText, Seq<char>)>,
    pub disables: Seq<Seq<char>>,
    pub replaced: Seq<Seq<char>>,
    pub problems: Seq<Seq<char>>,
    pub missing: Seq<Seq<char>>,
}

pub open spec fn layer_texts(v: Seq<(Rule, String)>) -> Seq<(RuleText, Seq<char>)> {
    Seq::new(v.len(), |i: int| (v[i].0.text(), v[i].1@))
}

impl Layers {
    pub open spec fn text(self) -> LayersText {
        LayersText {
            layered: layer_texts(self.layered@),
            disables: texts(self.disables@),
            replaced: texts(self.replaced@),
            problems: texts(self.problems@),
            missing: texts(self.missing@),
        }
    }
}

/// The place of a rule name among the first `n` layered rules, or -1.
pub open spec fn layer_place(layered: Seq<(RuleText, Seq<char>)>, name: Seq<char>, from: int) -> int
    decreases layered.len() - from,
{
    if from >= layered.len() {
        -1
    } else if layered[from].0.name == name {
        from
    } else {
        layer_place(layered, name, from + 1)
    }
}

/// The layers with a rule more: it replaces the rule of its name, in place.
pub open spec fn rule_layered(l: LayersText, r: RuleText, origin: Seq<char>) -> LayersText {
    let at = layer_place(l.layered, r.name, 0);
    if at >= 0 {
        LayersText {
            layered: l.layered.update(at, (r, origin)),
            replaced: l.replaced.push(
                r.name + "  ("@ + l.layered[at].1 + " → "@ + origin + ")"@,
            ),
            ..l
        }
    } else {
        LayersText { layered: l.layered.push((r, origin)), ..l }
    }
}

pub open spec fn rules_layered(l: LayersText, rules: Seq<RuleText>, origin: Seq<char>, n: int) -> LayersText
    decreases n,
{
    if n <= 0 {
        l
    } else {
        rule_layered(rules_layered(l, rules, origin, n - 1), rules[n - 1], origin)
    }
}

/// The problems of a file, told apart by where they come from.
pub open spec fn problems_from(origin: Seq<char>, problems: Seq<Seq<char>>) -> Seq<Seq<char>> {
    Seq::new(problems.len(), |i: int| origin + ": "@ + problems[i])
}

/// The directory of a file.
pub open spec fn parent_of(path: Seq<char>) -> Seq<char> {
    let at = after_last(path, '/', path.len() as int);
    if at <= 0 {
        ""@
    } else if at == 1 {
        "/"@
    } else {
        path.take(at - 1)
    }
}

fn parent(path: &str) -> (r: String)
    ensures
        r@ == parent_of(path@),
{
    let cs = chars_of(path);
    let mut n: usize = cs.len();
    while n > 0
        invariant
            n <= cs@.len(),
            cs@ == path@,
            after_last(path@, '/', path@.len() as int) == after_last(path@, '/', n as int),
        decreases n,
    {
        if cs[n - 1] == '/' {
            if n == 1 {
                return "/".to_owned();
            }
            let dir = slice_string(&cs, 0, n - 1);
            assert(dir@ == path@.take(n - 1));
            return dir;
        }
        n = n - 1;
    }
    "".to_owned()
}

/// How deep files may build on each other.
pub const MAX_DEPTH: usize = 8;

/// The layers after a file: what it builds on first, then its own rules.
pub open spec fn file_layered(
    l: LayersText,
    text: Seq<char>,
    origin: Seq<char>,
    base: Seq<char>,
    depth: nat,
    world: RuleWorld,
) -> LayersText
    decreases MAX_DEPTH + 1 - depth, 0int,
{
    if depth > MAX_DEPTH {
        LayersText {
            problems: l.problems.push(origin + ": include nesting deeper than 8 — a cycle?"@),
            ..l
        }
    } else {
        let doc = rules_read(text, base, world);
        let start = LayersText {
            problems: l.problems + problems_from(origin, doc.doc.problems),
            missing: l.missing + doc.doc.missing,
            ..l
        };
        let below = includes_layered(start, doc.includes, origin, base, depth, world, doc.includes.len());
        let silenced = LayersText { disables: below.disables + doc.disable, ..below };
        rules_layered(silenced, doc.doc.rules, origin, doc.doc.rules.len() as int)
    }
}

/// The layers after the first `n` presets and files that a file builds on.
pub open spec fn includes_layered(
    l: LayersText,
    incs: Seq<Seq<char>>,
    origin: Seq<char>,
    base: Seq<char>,
    depth: nat,
    world: RuleWorld,
    n: nat,
) -> LayersText
    decreases MAX_DEPTH - depth, n + 1,
    when depth <= MAX_DEPTH
{
    if n == 0 {
        l
    } else {
        let before = includes_layered(l, incs, origin, base, depth, world, (n - 1) as nat);
        let inc = incs[n - 1];
        let path = joined_path(base, inc);
        match world.preset_text(inc) {
            Some(t) => file_layered(before, t, inc, "."@, depth + 1, world),
            None => match world.file(path) {
                None => LayersText { missing: before.missing.push(path), ..before },
                Some(ReadText::Text(t)) => file_layered(before, t, path, parent_of(path), depth + 1, world),
                Some(ReadText::Missing(why)) => LayersText {
                    problems: before.problems.push(origin + ": include `"@ + inc + "`: "@ + why),
                    ..before
                },
                Some(ReadText::Failed(why)) => LayersText {
                    problems: before.problems.push(origin + ": include `"@ + inc + "`: "@ + why),
                    ..before
                },
            },
        }
    }
}

fn layer_rule(l: &mut Layers, rule: Rule, origin: &str)
    ensures
        final(l).text() == rule_layered(old(l).text(), rule.text(), origin@),
{
    let ghost before = l.text();
    let mut i: usize = 0;
    while i < l.layered.len() && !same(&l.layered[i].0.name, &rule.name)
        invariant
            i <= l.layered@.len(),
            before == l.text(),
            layer_place(before.layered, rule.name@, 0) == layer_place(before.layered, rule.name@, i as int),
        decreases l.layered@.len() - i,
    {
        assert(before.layered[i as int] == (l.layered@[i as int].0.text(), l.layered@[i as int].1@));
        i = i + 1;
    }
    if i < l.layered.len() {
        assert(before.layered[i as int] == (l.layered@[i as int].0.text(), l.layered@[i as int].1@));
        let note = rule.name.clone().concat("  (").concat(&l.layered[i].1).concat(" → ").concat(
            origin,
        ).concat(")");
        l.replaced.push(note);
        assert(texts(l.replaced@) == before.replaced.push(note@));
        let ghost entry = (rule.text(), origin@);
        l.layered.set(i, (rule, origin.to_owned()));
        assert(layer_texts(l.layered@) == before.layered.update(i as int, entry));
    } else {
        let ghost entry = (rule.text(), origin@);
        l.layered.push((rule, origin.to_owned()));
        assert(layer_texts(l.layered@) == before.layered.push(entry));
    }
}

/// Layers one rules file over what is there: the presets and files that it
/// builds on come first; a rule replaces the one of its name.
pub fn layer_rules(l: &mut Layers, text: &str, origin: &str, base: &str, depth: usize, world: &RuleWorld)
    requires
        depth <= MAX_DEPTH + 1,
    ensures
        final(l).text() == file_layered(old(l).text(), text@, origin@, base@, depth as nat, *world),
    decreases MAX_DEPTH + 1 - depth,
{
    let ghost before = l.text();
    if depth > MAX_DEPTH {
        let line = origin.to_owned().concat(": include nesting deeper than 8 — a cycle?");
        l.problems.push(line);
        assert(texts(l.problems@) == before.problems.push(line@));
        return;
    }
    let doc = parse_rules_doc(text, base, world);
    let ghost dt = doc.text();
    for i in 0..doc.problems.len()
        invariant
            dt == doc.text(),
            texts(l.problems@) == before.problems + problems_from(origin@, dt.doc.problems.take(i as int)),
            l.text() == (LayersText { problems: texts(l.problems@), ..before }),
    {
        let ghost had = l.text();
        let line = origin.to_owned().concat(": ").concat(&doc.problems[i]);
        l.problems.push(line);
        assert(texts(l.problems@) == had.problems.push(line@));
        assert(dt.doc.problems[i as int] == doc.problems@[i as int]@);
        assert(problems_from(origin@, dt.doc.problems.take(i + 1)) == problems_from(
            origin@,
            dt.doc.problems.take(i as int),
        ).push(line@));
        assert(before.problems + problems_from(origin@, dt.doc.problems.take(i + 1)) == had.problems.push(line@));
    }
    assert(dt.doc.problems.take(doc.problems@.len() as int) == dt.doc.problems);
    let mut missing = copy_strings(&doc.missing);
    let ghost had = l.text();
    let ghost want = texts(missing@);
    l.missing.append(&mut missing);
    assert(texts(l.missing@) == had.missing + want);
    let ghost start = l.text();
    assert(start == (LayersText {
        problems: before.problems + problems_from(origin@, dt.doc.problems),
        missing: before.missing + dt.doc.missing,
        ..before
    }));
    for i in 0..doc.includes.len()
        invariant
            dt == doc.text(),
            depth <= MAX_DEPTH,
            l.text() == includes_layered(start, dt.includes, origin@, base@, depth as nat, *world, i as nat),
    {
        let inc = &doc.includes[i];
        let ghost so_far = l.text();
        assert(dt.includes[i as int] == inc@);
        match world.presets.get(inc) {
            Some(t) => {
                layer_rules(l, t, inc, ".", depth + 1, world);
            },
            None => {
                let path = join_path(base, inc);
                match world.files.get(&path) {
                    None => {
                        l.missing.push(path);
                        assert(texts(l.missing@) == so_far.missing.push(path@));
                    },
                    Some(FileRead::Text(t)) => {
                        layer_rules(l, t, &path, &parent(&path), depth + 1, world);
                    },
                    Some(FileRead::Missing(why)) => {
                        let line = origin.to_owned().concat(": include `").concat(inc).concat(
                            "`: ",
                        ).concat(why);
                        l.problems.push(line);
                        assert(texts(l.problems@) == so_far.problems.push(line@));
                    },
                    Some(FileRead::Failed(why)) => {
                        let line = origin.to_owned().concat(": include `").concat(inc).concat(
                            "`: ",
                        ).concat(why);
                        l.problems.push(line);
                        assert(texts(l.problems@) == so_far.problems.push(line@));
                    },
                }
            },
        }
    }
    let ghost below = l.text();
    let mut silenced = copy_strings(&doc.disable);
    let ghost off = texts(silenced@);
    l.disables.append(&mut silenced);
    assert(texts(l.disables@) == below.disables + off);
    let ghost ready = l.text();
    assert(ready == (LayersText { disables: below.disables + dt.disable, ..below }));
    for i in 0..doc.rules.len()
        invariant
            dt == doc.text(),
            l.text() == rules_layered(ready, dt.doc.rules, origin@, i as int),
    {
        assert(dt.doc.rules[i as int] == doc.rules@[i as int].text());
        layer_rule(l, doc.rules[i].copied(), origin);
    }
}

/// Where the rules that need no asking for stand: the user's, then the
/// repository's.
pub open spec fn rule_places(config_home: Option<Seq<char>>, home: Option<Seq<char>>, repo_root: Seq<char>) -> Seq<
    Seq<char>,
> {
    let own = joined_path(joined_path(repo_root, ".ordo"@), "rules.toml"@);
    match config_place(config_home, home) {
        Some(p) => seq![joined_path(parent_of(p), "rules.toml"@), own],
        None => seq![own],
    }
}

pub fn rule_sources(config_home: Option<String>, home: Option<String>, repo_root: &str) -> (r: Vec<String>)
    ensures
        texts(r@) == rule_places(option_text(config_home), option_text(home), repo_root@),
{
    let mut out: Vec<String> = Vec::new();
    let ghost place = config_place(option_text(config_home), option_text(home));
    if let Some(p) = config_path(config_home, home) {
        out.push(join_path(&parent(&p), "rules.toml"));
    }
    out.push(join_path(&join_path(repo_root, ".ordo"), "rules.toml"));
    assert(texts(out@) == (match place {
        Some(p) => seq![
            joined_path(parent_of(p), "rules.toml"@),
            joined_path(joined_path(repo_root@, ".ordo"@), "rules.toml"@),
        ],
        None => seq![joined_path(joined_path(repo_root@, ".ordo"@), "rules.toml"@)],
    }));
    out
}

/// The layers after a source. One that was not asked for may be absent; one
/// that was may name a preset, and its absence is a problem.
pub open spec fn source_layered(l: LayersText, src: Seq<char>, asked: bool, world: RuleWorld) -> LayersText {
    match world.file(src) {
        None => LayersText { missing: l.missing.push(src), ..l },
        Some(ReadText::Text(t)) => file_layered(l, t, src, parent_of(src), 0, world),
        Some(ReadText::Missing(why)) => if !asked {
            l
        } else {
            match world.preset_text(src) {
                Some(t) => file_layered(l, t, src, "."@, 0, world),
                None => LayersText { problems: l.problems.push(src + ": "@ + why), ..l },
            }
        },
        Some(ReadText::Failed(why)) => if !asked {
            l
        } else {
            LayersText { problems: l.problems.push(src + ": "@ + why), ..l }
        },
    }
}

pub open spec fn sources_layered(l: LayersText, srcs: Seq<Seq<char>>, asked: bool, world: RuleWorld) -> LayersText
    decreases srcs.len(),
{
    if srcs.len() == 0 {
        l
    } else {
        source_layered(sources_layered(l, srcs.drop_last(), asked, world), srcs.last(), asked, world)
    }
}

/// The disabling patterns that are globs, in order.
pub open spec fn good_globs(disables: Seq<Seq<char>>) -> Seq<Seq<char>>
    decreases disables.len(),
{
    if disables.len() == 0 {
        Seq::empty()
    } else if glob_complaint(disables.last()) is None {
        good_globs(disables.drop_last()).push(disables.last())
    } else {
        good_globs(disables.drop_last())
    }
}

/// What is wrong with the disabling patterns that are not globs, in order.
pub open spec fn bad_globs(disables: Seq<Seq<char>>) -> Seq<Seq<char>>
    decreases disables.len(),
{
    if disables.len() == 0 {
        Seq::empty()
    } else {
        match glob_complaint(disables.last()) {
            Some(why) => bad_globs(disables.drop_last()).push(
                "disable `"@ + disables.last() + "` is not a glob: "@ + why,
            ),
            None => bad_globs(disables.drop_last()),
        }
    }
}

/// Whether a rule name is disabled.
pub open spec fn silenced(disables: Seq<Seq<char>>, name: Seq<char>) -> bool {
    set_complaint(good_globs(disables)) is None && any_matches(good_globs(disables), name)
}

/// The rules that no pattern disables, with where they come from, in order.
pub open spec fn active(layered: Seq<(RuleText, Seq<char>)>, disables: Seq<Seq<char>>) -> Seq<(RuleText, Seq<char>)>
    decreases layered.len(),
{
    if layered.len() == 0 {
        Seq::empty()
    } else if silenced(disables, layered.last().0.name) {
        active(layered.drop_last(), disables)
    } else {
        active(layered.drop_last(), disables).push(layered.last())
    }
}

/// The disabled rules, as the report names them, in order.
pub open spec fn inactive(layered: Seq<(RuleText, Seq<char>)>, disables: Seq<Seq<char>>) -> Seq<Seq<char>>
    decreases layered.len(),
{
    if layered.len() == 0 {
        Seq::empty()
    } else if silenced(disables, layered.last().0.name) {
        inactive(layered.drop_last(), disables).push(
            layered.last().0.name + "  ("@ + layered.last().1 + ")"@,
        )
    } else {
        inactive(layered.drop_last(), disables)
    }
}

/// The place of an origin in a tally, or -1.
pub open spec fn tally_place(t: Seq<(Seq<char>, int)>, origin: Seq<char>, from: int) -> int
    decreases t.len() - from,
{
    if from >= t.len() {
        -1
    } else if t[from].0 == origin {
        from
    } else {
        tally_place(t, origin, from + 1)
    }
}

/// How many of the rules come from each origin, in order of first mention.
pub open spec fn tally(layered: Seq<(RuleText, Seq<char>)>) -> Seq<(Seq<char>, int)>
    decreases layered.len(),
{
    if layered.len() == 0 {
        Seq::empty()
    } else {
        let t = tally(layered.drop_last());
        let origin = layered.last().1;
        let at = tally_place(t, origin, 0);
        if at >= 0 {
            t.update(at, (origin, t[at].1 + 1))
        } else {
            t.push((origin, 1))
        }
    }
}

/// The rules that are active, and why.
pub struct RulesReport {
    pub rules: Vec<Rule>,
    pub problems: Vec<String>,
    /// (origin, active rules from it), in load order
    pub origins: Vec<(String, usize)>,
    pub replaced: Vec<String>,
    pub disabled: Vec<String>,
    /// files that have to be read first
    pub missing: Vec<String>,
}

/// The same, as text.
pub ghost struct ReportText {
    pub rules: Seq<RuleText>,
    pub problems: Seq<Seq<char>>,
    pub origins: Seq<(Seq<char>, int)>,
    pub replaced: Seq<Seq<char>>,
    pub disabled: Seq<Seq<char>>,
    pub missing: Seq<Seq<char>>,
}

pub open spec fn origin_texts(v: Seq<(String, usize)>) -> Seq<(Seq<char>, int)> {
    Seq::new(v.len(), |i: int| (v[i].0@, v[i].1 as int))
}

impl RulesReport {
    pub open spec fn text(self) -> ReportText {
        ReportText {
            rules: rule_texts(self.rules@),
            problems: texts(self.problems@),
            origins: origin_texts(self.origins@),
            replaced: texts(self.replaced@),
            disabled: texts(self.disabled@),
            missing: texts(self.missing@),
        }
    }
}

pub open spec fn no_layers() -> LayersText {
    LayersText {
        layered: Seq::empty(),
        disables: Seq::empty(),
        replaced: Seq::empty(),
        problems: Seq::empty(),
        missing: Seq::empty(),
    }
}

/// The layers of all the sources.
pub open spec fn all_layered(implicit: Seq<Seq<char>>, extra: Seq<Seq<char>>, world: RuleWorld) -> LayersText {
    sources_layered(sources_layered(no_layers(), implicit, false, world), extra, true, world)
}

pub open spec fn rules_only(layered: Seq<(RuleText, Seq<char>)>) -> Seq<RuleText> {
    Seq::new(layered.len(), |i: int| layered[i].0)
}

/// The report over all the sources: disabling patterns apply once everything is
/// layered, whoever wrote them.
pub open spec fn report_of(implicit: Seq<Seq<char>>, extra: Seq<Seq<char>>, world: RuleWorld) -> ReportText {
    let l = all_layered(implicit, extra, world);
    let kept = active(l.layered, l.disables);
    ReportText {
        rules: rules_only(kept),
        problems: l.problems + bad_globs(l.disables),
        origins: tally(kept),
        replaced: l.replaced,
        disabled: inactive(l.layered, l.disables),
        missing: l.missing,
    }
}

fn layer_source(l: &mut Layers, src: &str, asked: bool, world: &RuleWorld)
    ensures
        final(l).text() == source_layered(old(l).text(), src@, asked, *world),
{
    let ghost before = l.text();
    match world.files.get(src) {
        None => {
            l.missing.push(src.to_owned());
            assert(texts(l.missing@) == before.missing.push(src@));
        },
        Some(FileRead::Text(t)) => {
            layer_rules(l, t, src, &parent(src), 0, world);
        },
        Some(FileRead::Missing(why)) => {
            if asked {
                match world.presets.get(src) {
                    Some(t) => {
                        layer_rules(l, t, src, ".", 0, world);
                    },
                    None => {
                        let line = src.to_owned().concat(": ").concat(why);
                        l.problems.push(line);
                        assert(texts(l.problems@) == before.problems.push(line@));
                    },
                }
            }
        },
        Some(FileRead::Failed(why)) => {
            if asked {
                let line = src.to_owned().concat(": ").concat(why);
                l.problems.push(line);
                assert(texts(l.problems@) == before.problems.push(line@));
            }
        },
    }
}

fn layer_sources(l: &mut Layers, srcs: &[String], asked: bool, world: &RuleWorld)
    ensures
        final(l).text() == sources_layered(old(l).text(), texts(srcs@), asked, *world),
{
    let ghost before = l.text();
    let ghost all = texts(srcs@);
    for i in 0..srcs.len()
        invariant
            all == texts(srcs@),
            l.text() == sources_layered(before, all.take(i as int), asked, *world),
    {
        assert(all.take(i + 1).drop_last() == all.take(i as int));
        assert(all.take(i + 1).last() == srcs@[i as int]@);
        layer_source(l, &srcs[i], asked, world);
    }
    assert(all.take(srcs@.len() as int) == all);
}

fn bump(t: &mut Vec<(String, usize)>, origin: &str, Ghost(layered): Ghost<Seq<(RuleText, Seq<char>)>>, seen: usize)
    requires
        layered.len() > 0,
        layered.last().1 == origin@,
        origin_texts(old(t)@) == tally(layered.drop_last()),
        seen == layered.drop_last().len(),
        seen < usize::MAX,
        forall|k: int| 0 <= k < old(t)@.len() ==> (#[trigger] old(t)@[k]).1 <= seen,
    ensures
        origin_texts(final(t)@) == tally(layered),
        forall|k: int| 0 <= k < final(t)@.len() ==> (#[trigger] final(t)@[k]).1 <= seen + 1,
{
    let ghost before = origin_texts(t@);
    let mut i: usize = 0;
    while i < t.len() && !same(&t[i].0, origin)
        invariant
            i <= t@.len(),
            before == origin_texts(t@),
            tally_place(before, origin@, 0) == tally_place(before, origin@, i as int),
        decreases t@.len() - i,
    {
        assert(before[i as int] == (t@[i as int].0@, t@[i as int].1 as int));
        i = i + 1;
    }
    if i < t.len() {
        assert(before[i as int] == (t@[i as int].0@, t@[i as int].1 as int));
        let n: usize = t[i].1 + 1;
        t.set(i, (origin.to_owned(), n));
        assert(origin_texts(t@) == before.update(i as int, (origin@, n as int)));
    } else {
        t.push((origin.to_owned(), 1));
        assert(origin_texts(t@) == before.push((origin@, 1int)));
    }
}

/// Layers the sources, the user's and the repository's first, those that were
/// asked for after them, and applies every disabling pattern.
#[verifier::rlimit(40)]
pub fn report_from(implicit: &[String], extra: &[String], world: &RuleWorld) -> (r: RulesReport)
    ensures
        r.text() == report_of(texts(implicit@), texts(extra@), *world),
{
    let mut l = Layers {
        layered: Vec::new(),
        disables: Vec::new(),
        replaced: Vec::new(),
        problems: Vec::new(),
        missing: Vec::new(),
    };
    assert(l.text() == no_layers()) by {
        assert(layer_texts(l.layered@) == Seq::<(RuleText, Seq<char>)>::empty());
        assert(texts(l.disables@) == Seq::<Seq<char>>::empty());
        assert(texts(l.replaced@) == Seq::<Seq<char>>::empty());
        assert(texts(l.problems@) == Seq::<Seq<char>>::empty());
        assert(texts(l.missing@) == Seq::<Seq<char>>::empty());
    }
    layer_sources(&mut l, implicit, false, world);
    layer_sources(&mut l, extra, true, world);
    let ghost lt = l.text();
    let ghost off = lt.disables;
    let Layers { layered, disables, replaced, mut problems, missing } = l;
    let mut globs: Vec<globset::Glob> = Vec::new();
    for i in 0..disables.len()
        invariant
            off == texts(disables@),
            patterns_of(globs@) == good_globs(off.take(i as int)),
            texts(problems@) == lt.problems + bad_globs(off.take(i as int)),
    {
        let ghost had = texts(problems@);
        let ghost globs_had = patterns_of(globs@);
        assert(off.take(i + 1).drop_last() == off.take(i as int));
        assert(off.take(i + 1).last() == disables@[i as int]@);
        match compile_glob(&disables[i]) {
            Ok(g) => {
                globs.push(g);
                assert(patterns_of(globs@) == globs_had.push(disables@[i as int]@));
            },
            Err(why) => {
                let line = "disable `".to_owned().concat(&disables[i]).concat(
                    "` is not a glob: ",
                ).concat(&why);
                problems.push(line);
                assert(texts(problems@) == had.push(line@));
                assert(bad_globs(off.take(i + 1)) == bad_globs(off.take(i as int)).push(line@));
                assert(lt.problems + bad_globs(off.take(i + 1)) == had.push(line@));
            },
        }
    }
    assert(off.take(disables@.len() as int) == off);
    let set = match compile_set(globs) {
        Ok(s) => Some(s),
        Err(_) => None,
    };
    let mut rules: Vec<Rule> = Vec::new();
    let mut origins: Vec<(String, usize)> = Vec::new();
    let mut disabled: Vec<String> = Vec::new();
    let n: usize = layered.len();
    let ghost all = lt.layered;
    assert(rule_texts(rules@) == rules_only(active(all.take(0), off)));
    assert(texts(disabled@) == inactive(all.take(0), off));
    assert(origin_texts(origins@) == tally(active(all.take(0), off)));
    for i in 0..n
        invariant
            n == layered@.len(),
            all == layer_texts(layered@),
            match set {
                Some(s) => set_complaint(good_globs(off)) is None && set_patterns(s) == good_globs(off),
                None => set_complaint(good_globs(off)) is Some,
            },
            rule_texts(rules@) == rules_only(active(all.take(i as int), off)),
            texts(disabled@) == inactive(all.take(i as int), off),
            origin_texts(origins@) == tally(active(all.take(i as int), off)),
            rules@.len() <= i,
            rules@.len() == active(all.take(i as int), off).len(),
            forall|k: int| 0 <= k < origins@.len() ==> (#[trigger] origins@[k]).1 <= rules@.len(),
    {
        let entry = &layered[i];
        let ghost t = all.take(i + 1);
        assert(t.drop_last() == all.take(i as int));
        assert(t.last() == (entry.0.text(), entry.1@));
        let quiet = match &set {
            Some(s) => set_is_match(s, &entry.0.name),
            None => false,
        };
        assert(quiet == silenced(off, entry.0.name@));
        if quiet {
            let ghost had = texts(disabled@);
            let line = entry.0.name.clone().concat("  (").concat(&entry.1).concat(")");
            disabled.push(line);
            assert(texts(disabled@) == had.push(line@));
        } else {
            let ghost kept = active(t, off);
            assert(kept == active(all.take(i as int), off).push(t.last()));
            assert(kept.drop_last() == active(all.take(i as int), off));
            bump(&mut origins, &entry.1, Ghost(kept), rules.len());
            let ghost had = rule_texts(rules@);
            rules.push(entry.0.copied());
            assert(rule_texts(rules@) == had.push(entry.0.text()));
            assert(rules_only(kept) == had.push(entry.0.text()));
        }
    }
    assert(all.take(n as int) == all);
    RulesReport { rules, problems, origins, replaced, disabled, missing }
}

/// Reads the rules of a repository: the user's file, the repository's, and those
/// that were asked for.
pub fn load_rules_report(
    config_home: Option<String>,
    home: Option<String>,
    repo_root: &str,
    extra: &[String],
    world: &RuleWorld,
) -> (r: RulesReport)
    ensures
        r.text() == report_of(
            rule_places(option_text(config_home), option_text(home), repo_root@),
            texts(extra@),
            *world,
        ),
{
    report_from(&rule_sources(config_home, home, repo_root), extra, world)
}

pub fn load_rules(
    config_home: Option<String>,
    home: Option<String>,
    repo_root: &str,
    extra: &[String],
    world: &RuleWorld,
) -> (r: (Vec<Rule>, Vec<String>))
    ensures
        ({
            let t = report_of(
                rule_places(option_text(config_home), option_text(home), repo_root@),
                texts(extra@),
                *world,
            );
            rule_texts(r.0@) == t.rules && texts(r.1@) == t.problems
        }),
{
    let t = load_rules_report(config_home, home, repo_root, extra, world);
    (t.rules, t.problems)
}

/// Lines with two spaces before them.
pub open spec fn indented(lines: Seq<Seq<char>>) -> Seq<Seq<char>> {
    Seq::new(lines.len(), |i: int| "  "@ + lines[i])
}

/// A titled part of the report; nothing where it would be empty.
pub open spec fn part(title: Seq<char>, lines: Seq<Seq<char>>) -> Seq<Seq<char>> {
    if lines.len() == 0 {
        Seq::empty()
    } else {
        seq![""@, title] + indented(lines)
    }
}

pub open spec fn origin_lines(origins: Seq<(Seq<char>, int)>) -> Seq<Seq<char>> {
    Seq::new(
        origins.len(),
        |i: int| "  "@ + padded_left(decimal(origins[i].1), ' ', 3) + "  "@ + origins[i].0,
    )
}

pub open spec fn no_rules_hint() -> Seq<char> {
    "no rules loaded — `include = [\"go-uber-guide\"]` in .ordo/rules.toml, or --rules <preset|file>"@
}

/// The report, one line per fact.
pub open spec fn report_lines(t: ReportText) -> Seq<Seq<char>> {
    seq![decimal(t.rules.len() as int) + " rule"@ + plural_of(t.rules.len() as int) + " active"@] + origin_lines(
        t.origins,
    ) + part("replaced (a later definition with the same name):"@, t.replaced) + part(
        "disabled:"@,
        t.disabled,
    ) + part("problems:"@, t.problems) + (if t.rules.len() == 0 && t.origins.len() == 0 {
        seq![""@, no_rules_hint()]
    } else {
        Seq::empty()
    })
}

fn push_part(out: &mut Vec<String>, title: &str, lines: &[String])
    ensures
        texts(final(out)@) == texts(old(out)@) + part(title@, texts(lines@)),
{
    let ghost before = texts(out@);
    if lines.len() > 0 {
        out.push("".to_owned());
        assert(texts(out@) == before.push(""@));
        out.push(title.to_owned());
        assert(texts(out@) == before.push(""@).push(title@));
        let ghost all = texts(lines@);
        assert(texts(out@) == before + (seq![""@, title@] + indented(all.take(0))));
        for i in 0..lines.len()
            invariant
                all == texts(lines@),
                texts(out@) == before + (seq![""@, title@] + indented(all.take(i as int))),
        {
            let ghost had = texts(out@);
            let line = "  ".to_owned().concat(&lines[i]);
            out.push(line);
            assert(texts(out@) == had.push(line@));
            assert(indented(all.take(i + 1)) == indented(all.take(i as int)).push(line@));
            assert(before + (seq![""@, title@] + indented(all.take(i + 1))) == had.push(line@));
        }
        assert(all.take(lines@.len() as int) == all);
    }
    assert(texts(out@) == before + part(title@, texts(lines@)));
}

impl RulesReport {
    /// The report, one line per fact.
    pub fn lines(&self) -> (r: Vec<String>)
        ensures
            texts(r@) == report_lines(self.text()),
    {
        let ghost t = self.text();
        let mut out: Vec<String> = Vec::new();
        let head = number(self.rules.len()).concat(" rule").concat(plural(self.rules.len())).concat(" active");
        out.push(head);
        let ghost first = seq![head@];
        assert(texts(out@) == first + origin_lines(t.origins.take(0)));
        for i in 0..self.origins.len()
            invariant
                t == self.text(),
                texts(out@) == first + origin_lines(t.origins.take(i as int)),
        {
            let ghost had = texts(out@);
            let line = "  ".to_owned().concat(&pad_left(&number(self.origins[i].1), ' ', 3)).concat("  ").concat(
                &self.origins[i].0,
            );
            out.push(line);
            assert(texts(out@) == had.push(line@));
            assert(t.origins[i as int] == (self.origins@[i as int].0@, self.origins@[i as int].1 as int));
            assert(origin_lines(t.origins.take(i + 1)) == origin_lines(t.origins.take(i as int)).push(line@));
            assert(first + origin_lines(t.origins.take(i + 1)) == had.push(line@));
        }
        assert(t.origins.take(self.origins@.len() as int) == t.origins);
        push_part(&mut out, "replaced (a later definition with the same name):", &self.replaced);
        push_part(&mut out, "disabled:", &self.disabled);
        push_part(&mut out, "problems:", &self.problems);
        let ghost had = texts(out@);
        if self.rules.len() == 0 && self.origins.len() == 0 {
            out.push("".to_owned());
            assert(texts(out@) == had.push(""@));
            out.push(
                "no rules loaded — `include = [\"go-uber-guide\"]` in .ordo/rules.toml, or --rules <preset|file>".to_owned(),
            );
            assert(texts(out@) == had + seq![""@, no_rules_hint()]);
        } else {
            assert(texts(out@) == had + Seq::<Seq<char>>::empty());
        }
        out
    }
}

/// A rule that a pattern disables is never active, whichever source wrote the
/// pattern and whichever the rule.
pub proof fn law_a_disabled_rule_is_never_active(
    implicit: Seq<Seq<char>>,
    extra: Seq<Seq<char>>,
    world: RuleWorld,
    i: int,
)
    requires
        0 <= i < report_of(implicit, extra, world).rules.len(),
    ensures
        !silenced(
            all_layered(implicit, extra, world).disables,
            report_of(implicit, extra, world).rules[i].name,
        ),
{
    let l = all_layered(implicit, extra, world);
    lemma_active(l.layered, l.disables);
}

proof fn lemma_active(layered: Seq<(RuleText, Seq<char>)>, disables: Seq<Seq<char>>)
    ensures
        forall|i: int|
            0 <= i < active(layered, disables).len() ==> !silenced(
                disables,
                (#[trigger] active(layered, disables)[i]).0.name,
            ) && layered.contains(active(layered, disables)[i]),
        active(layered, disables).len() + inactive(layered, disables).len() == layered.len(),
    decreases layered.len(),
{
    if layered.len() > 0 {
        let t = layered.drop_last();
        lemma_active(t, disables);
        assert forall|i: int| 0 <= i < active(layered, disables).len() implies !silenced(
            disables,
            (#[trigger] active(layered, disables)[i]).0.name,
        ) && layered.contains(active(layered, disables)[i]) by {
            if i < active(t, disables).len() {
                let e = active(t, disables)[i];
                assert(active(layered, disables)[i] == e);
                let w = choose|w: int| 0 <= w < t.len() && t[w] == e;
                assert(layered[w] == e);
            } else {
                assert(layered[layered.len() - 1] == active(layered, disables)[i]);
            }
        }
    }
}

/// Every layered rule is active or listed as disabled.
pub proof fn law_every_rule_is_active_or_listed(implicit: Seq<Seq<char>>, extra: Seq<Seq<char>>, world: RuleWorld)
    ensures
        ({
            let t = report_of(implicit, extra, world);
            t.rules.len() + t.disabled.len() == all_layered(implicit, extra, world).layered.len()
        }),
{
    let l = all_layered(implicit, extra, world);
    lemma_active(l.layered, l.disables);
}

/// The sum of the counts of a tally.
pub open spec fn tally_sum(t: Seq<(Seq<char>, int)>) -> int
    decreases t.len(),
{
    if t.len() == 0 {
        0
    } else {
        tally_sum(t.drop_last()) + t.last().1
    }
}

proof fn lemma_tally_update(t: Seq<(Seq<char>, int)>, at: int, e: (Seq<char>, int))
    requires
        0 <= at < t.len(),
    ensures
        tally_sum(t.update(at, e)) == tally_sum(t) - t[at].1 + e.1,
    decreases t.len(),
{
    if at < t.len() - 1 {
        lemma_tally_update(t.drop_last(), at, e);
        assert(t.update(at, e).drop_last() == t.drop_last().update(at, e));
    } else {
        assert(t.update(at, e).drop_last() == t.drop_last());
    }
}

proof fn lemma_tally_place(t: Seq<(Seq<char>, int)>, origin: Seq<char>, from: int)
    requires
        0 <= from,
    ensures
        tally_place(t, origin, from) < t.len(),
    decreases t.len() - from,
{
    if from < t.len() && t[from].0 != origin {
        lemma_tally_place(t, origin, from + 1);
    }
}

proof fn lemma_tally_sum(layered: Seq<(RuleText, Seq<char>)>)
    ensures
        tally_sum(tally(layered)) == layered.len(),
    decreases layered.len(),
{
    if layered.len() > 0 {
        lemma_tally_sum(layered.drop_last());
        let t = tally(layered.drop_last());
        let origin = layered.last().1;
        let at = tally_place(t, origin, 0);
        lemma_tally_place(t, origin, 0);
        if at >= 0 {
            lemma_tally_update(t, at, (origin, t[at].1 + 1));
        } else {
            assert(t.push((origin, 1int)).drop_last() == t);
        }
    }
}

/// The counts per origin add up to the number of active rules.
pub proof fn law_the_origins_account_for_every_rule(
    implicit: Seq<Seq<char>>,
    extra: Seq<Seq<char>>,
    world: RuleWorld,
)
    ensures
        tally_sum(report_of(implicit, extra, world).origins) == report_of(implicit, extra, world).rules.len(),
{
    let l = all_layered(implicit, extra, world);
    lemma_tally_sum(active(l.layered, l.disables));
}

/// No two layered rules share a name.
pub open spec fn names_differ(layered: Seq<(RuleText, Seq<char>)>) -> bool {
    forall|i: int, j: int| 0 <= i < j < layered.len() ==> #[trigger] layered[i].0.name != #[trigger] layered[j].0.name
}

proof fn lemma_layer_place(layered: Seq<(RuleText, Seq<char>)>, name: Seq<char>, from: int)
    requires
        0 <= from,
    ensures
        ({
            let at = layer_place(layered, name, from);
            if at >= 0 {
                from <= at < layered.len() && layered[at].0.name == name
            } else {
                forall|k: int| from <= k < layered.len() ==> (#[trigger] layered[k]).0.name != name
            }
        }),
    decreases layered.len() - from,
{
    if from < layered.len() && layered[from].0.name != name {
        lemma_layer_place(layered, name, from + 1);
    }
}

/// A later definition replaces the earlier one of its name where that stands,
/// and leaves every other rule alone.
pub proof fn law_a_later_definition_replaces_its_namesake(l: LayersText, r: RuleText, origin: Seq<char>)
    requires
        names_differ(l.layered),
    ensures
        names_differ(rule_layered(l, r, origin).layered),
        rule_layered(l, r, origin).layered.contains((r, origin)),
        forall|i: int|
            0 <= i < l.layered.len() && l.layered[i].0.name != r.name ==> #[trigger] rule_layered(
                l,
                r,
                origin,
            ).layered[i] == l.layered[i],
{
    let at = layer_place(l.layered, r.name, 0);
    lemma_layer_place(l.layered, r.name, 0);
    let after = rule_layered(l, r, origin).layered;
    if at >= 0 {
        assert(after[at] == (r, origin));
    } else {
        assert(after[l.layered.len() as int] == (r, origin));
    }
}

proof fn lemma_rules_keep_names(l: LayersText, rules: Seq<RuleText>, origin: Seq<char>, n: int)
    requires
        names_differ(l.layered),
    ensures
        names_differ(rules_layered(l, rules, origin, n).layered),
    decreases n,
{
    if n > 0 {
        lemma_rules_keep_names(l, rules, origin, n - 1);
        law_a_later_definition_replaces_its_namesake(
            rules_layered(l, rules, origin, n - 1),
            rules[n - 1],
            origin,
        );
    }
}

proof fn lemma_file_keeps_names(
    l: LayersText,
    text: Seq<char>,
    origin: Seq<char>,
    base: Seq<char>,
    depth: nat,
    world: RuleWorld,
)
    requires
        names_differ(l.layered),
    ensures
        names_differ(file_layered(l, text, origin, base, depth, world).layered),
    decreases MAX_DEPTH + 1 - depth, 0int,
{
    if depth <= MAX_DEPTH {
        let doc = rules_read(text, base, world);
        let start = LayersText {
            problems: l.problems + problems_from(origin, doc.doc.problems),
            missing: l.missing + doc.doc.missing,
            ..l
        };
        lemma_includes_keep_names(start, doc.includes, origin, base, depth, world, doc.includes.len());
        let below = includes_layered(start, doc.includes, origin, base, depth, world, doc.includes.len());
        let quiet = LayersText { disables: below.disables + doc.disable, ..below };
        lemma_rules_keep_names(quiet, doc.doc.rules, origin, doc.doc.rules.len() as int);
    }
}

proof fn lemma_includes_keep_names(
    l: LayersText,
    incs: Seq<Seq<char>>,
    origin: Seq<char>,
    base: Seq<char>,
    depth: nat,
    world: RuleWorld,
    n: nat,
)
    requires
        names_differ(l.layered),
        depth <= MAX_DEPTH,
    ensures
        names_differ(includes_layered(l, incs, origin, base, depth, world, n).layered),
    decreases MAX_DEPTH - depth, n + 1,
{
    if n > 0 {
        lemma_includes_keep_names(l, incs, origin, base, depth, world, (n - 1) as nat);
        let before = includes_layered(l, incs, origin, base, depth, world, (n - 1) as nat);
        let inc = incs[n - 1];
        let path = joined_path(base, inc);
        match world.preset_text(inc) {
            Some(t) => {
                lemma_file_keeps_names(before, t, inc, "."@, depth + 1, world);
            },
            None => match world.file(path) {
                Some(ReadText::Text(t)) => {
                    lemma_file_keeps_names(before, t, path, parent_of(path), depth + 1, world);
                },
                _ => {},
            },
        }
    }
}

proof fn lemma_sources_keep_names(l: LayersText, srcs: Seq<Seq<char>>, asked: bool, world: RuleWorld)
    requires
        names_differ(l.layered),
    ensures
        names_differ(sources_layered(l, srcs, asked, world).layered),
    decreases srcs.len(),
{
    if srcs.len() > 0 {
        lemma_sources_keep_names(l, srcs.drop_last(), asked, world);
        let before = sources_layered(l, srcs.drop_last(), asked, world);
        let src = srcs.last();
        match world.file(src) {
            Some(ReadText::Text(t)) => {
                lemma_file_keeps_names(before, t, src, parent_of(src), 0, world);
            },
            Some(ReadText::Missing(_)) => {
                if let Some(t) = world.preset_text(src) {
                    lemma_file_keeps_names(before, t, src, "."@, 0, world);
                }
            },
            _ => {},
        }
    }
}

/// However the sources build on each other, one rule of each name is left.
pub proof fn law_layered_rules_have_distinct_names(
    implicit: Seq<Seq<char>>,
    extra: Seq<Seq<char>>,
    world: RuleWorld,
)
    ensures
        names_differ(all_layered(implicit, extra, world).layered),
{
    lemma_sources_keep_names(no_layers(), implicit, false, world);
    lemma_sources_keep_names(sources_layered(no_layers(), implicit, false, world), extra, true, world);
}

} // verus!
