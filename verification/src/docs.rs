//! The parts of the documentation that are made from what the program knows.

use crate::commands::{command_label, command_list, commands, Cmd};
use crate::editor::holds;
use crate::keys::{
    action_help, category_label, category_text, chord_label, chord_text, help_of, keymap, sections, Bind, Category,
    Keymap,
};
use crate::text::{
    after_last, char_from, chars_of, contains_text, decimal, find, find_char, find_from, join, joined, lemma_find_from,
    lines_of, number, occurs_at, option_text, replace, replaced, same, slice_string, split_lines, string_of, texts,
    trim, trimmed,
};
use crate::config_file::{unhash, unhashed};
use crate::theme::{role_list, theme_name_list, theme_names, theme_roles};
use vstd::prelude::*;

verus! {

/// A list being wrapped: the lines so far.
pub open spec fn wrap_step(lines: Seq<Seq<char>>, item: Seq<char>, comma: bool, width: int) -> Seq<Seq<char>> {
    let sep = if comma {
        ","@
    } else {
        ""@
    };
    let last = lines.last();
    if last.len() == 0 {
        lines.update(lines.len() - 1, item + sep)
    } else if last.len() + 1 + vstd::utf8::encode_utf8(item).len() + sep.len() > width {
        lines.push(item + sep)
    } else {
        lines.update(lines.len() - 1, last + (" "@ + item + sep))
    }
}

/// The lines that the first `n` items of a list make.
pub open spec fn wrapped(items: Seq<Seq<char>>, width: int, n: int) -> Seq<Seq<char>>
    decreases n,
{
    if n <= 0 {
        seq![""@]
    } else {
        wrap_step(wrapped(items, width, n - 1), items[n - 1], n < items.len(), width)
    }
}

fn bytes_of(s: &str) -> (r: usize)
    ensures
        r == vstd::utf8::encode_utf8(s@).len(),
{
    s.as_bytes().len()
}

/// Wraps a list, with commas between its items, at `width` columns.
pub fn wrap(items: &[String], width: usize) -> (r: String)
    ensures
        r@ == joined(wrapped(texts(items@), width as int, items@.len() as int), "\n"@),
{
    let ghost all = texts(items@);
    let mut lines: Vec<String> = Vec::new();
    lines.push("".to_owned());
    assert(texts(lines@) =~= seq![""@]);
    let n: usize = items.len();
    proof {
        reveal_strlit("");
        reveal_strlit(",");
    }
    for i in 0..n
        invariant
            n == items@.len(),
            all == texts(items@),
            ","@.len() == 1,
            ""@.len() == 0,
            lines@.len() > 0,
            texts(lines@) == wrapped(all, width as int, i as int),
    {
        let ghost had = texts(lines@);
        let item = &items[i];
        assert(all[i as int] == item@);
        let comma = i + 1 < n;
        let sep = if comma {
            ","
        } else {
            ""
        };
        let m: usize = lines.len();
        let last = lines[m - 1].clone();
        assert(had.last() == last@);
        if last.as_str().is_empty() {
            let line = item.clone().concat(sep);
            lines.set(m - 1, line);
            assert(texts(lines@) =~= had.update(m - 1, line@));
        } else {
            let used: usize = crate::text::width(&last);
            let more: usize = bytes_of(item);
            let tail: usize = if comma {
                1
            } else {
                0
            };
            let too_long = used >= width || width - used - 1 < more || width - used - 1 - more < tail;
            if too_long {
                let line = item.clone().concat(sep);
                lines.push(line);
                assert(texts(lines@) =~= had.push(line@));
            } else {
                let line = last.concat(&" ".to_owned().concat(item).concat(sep));
                lines.set(m - 1, line);
                assert(texts(lines@) =~= had.update(m - 1, line@));
            }
        }
    }
    join(&lines, "\n")
}

/// A text as a cell of a table holds it.
pub open spec fn celled(s: Seq<char>) -> Seq<char> {
    replaced(
        replaced(replaced(replaced(s, '&', "&amp;"@), '<', "&lt;"@), '>', "&gt;"@),
        '|',
        "\\|"@,
    )
}

pub fn cell(s: &str) -> (r: String)
    ensures
        r@ == celled(s@),
{
    replace(&replace(&replace(&replace(s, '&', "&amp;"), '<', "&lt;"), '>', "&gt;"), '|', "\\|")
}

/// A language of the engine: its name, and the kinds of its members.
pub struct LanguageDoc {
    pub name: String,
    pub members: Vec<String>,
}

/// The names of the languages.
pub open spec fn language_names(v: Seq<LanguageDoc>) -> Seq<Seq<char>> {
    Seq::new(v.len(), |i: int| v[i].name@)
}

pub fn langs(v: &Vec<LanguageDoc>) -> (r: Vec<String>)
    ensures
        texts(r@) == language_names(v@),
{
    let mut out: Vec<String> = Vec::new();
    let ghost all = language_names(v@);
    assert(texts(out@) =~= all.take(0));
    for i in 0..v.len()
        invariant
            all == language_names(v@),
            texts(out@) == all.take(i as int),
    {
        push_text(&mut out, v[i].name.clone());
        assert(all.take(i + 1) =~= all.take(i as int).push(all[i as int]));
    }
    assert(all.take(v@.len() as int) =~= all);
    out
}

fn push_text(v: &mut Vec<String>, s: String)
    ensures
        texts(final(v)@) == texts(old(v)@).push(s@),
{
    let ghost had = texts(v@);
    v.push(s);
    assert(texts(v@) =~= had.push(s@));
}

/// What the actions of bindings are told to do, each once, in order.
pub open spec fn help_pairs(binds: Seq<Bind>) -> Seq<(Category, Seq<char>)>
    decreases binds.len(),
{
    if binds.len() == 0 {
        Seq::empty()
    } else {
        let before = help_pairs(binds.drop_last());
        let pair = help_of(binds.last().2);
        if before.contains(pair) {
            before
        } else {
            before.push(pair)
        }
    }
}

/// The chords of some bindings that do what `desc` tells, each once.
pub open spec fn chords_for(binds: Seq<Bind>, desc: Seq<char>) -> Seq<Seq<char>>
    decreases binds.len(),
{
    if binds.len() == 0 {
        Seq::empty()
    } else {
        let before = chords_for(binds.drop_last(), desc);
        let b = binds.last();
        let label = "`"@ + chord_text(b.0, b.1) + "`"@;
        if help_of(b.2).1 != desc || before.contains(label) {
            before
        } else {
            before.push(label)
        }
    }
}

fn chord_cell(m: &Keymap, desc: &str) -> (r: String)
    ensures
        r@ == joined(chords_for(m.binds@, desc@), ", "@),
{
    let mut out: Vec<String> = Vec::new();
    let ghost all = m.binds@;
    assert(all.take(0) =~= Seq::empty());
    assert(texts(out@) =~= Seq::empty());
    for i in 0..m.binds.len()
        invariant
            all == m.binds@,
            texts(out@) == chords_for(all.take(i as int), desc@),
    {
        assert(all.take(i + 1).drop_last() =~= all.take(i as int));
        assert(all.take(i + 1).last() == all[i as int]);
        let (prefix, key, action) = m.binds[i];
        if same(action_help(action).1, desc) {
            let label = "`".to_owned().concat(&chord_label(prefix, key)).concat("`");
            if !holds(&out, &label) {
                push_text(&mut out, label);
            }
        }
    }
    assert(all.take(m.binds@.len() as int) =~= all);
    join(&out, ", ")
}

/// The rows of a section of the table of keys, of the first `n` things to do.
pub open spec fn key_rows(
    pairs: Seq<(Category, Seq<char>)>,
    c: Category,
    vim: Seq<Bind>,
    vscode: Seq<Bind>,
    n: int,
) -> Seq<Seq<char>>
    decreases n,
{
    if n <= 0 {
        Seq::empty()
    } else {
        let before = key_rows(pairs, c, vim, vscode, n - 1);
        let (cat, desc) = pairs[n - 1];
        if cat == c {
            before.push(
                "| "@ + celled(desc) + " | "@ + joined(chords_for(vim, desc), ", "@) + " | "@ + joined(
                    chords_for(vscode, desc),
                    ", "@,
                ) + " |"@,
            )
        } else {
            before
        }
    }
}

/// The lines of the first `n` sections of the table of keys.
pub open spec fn key_sections(
    pairs: Seq<(Category, Seq<char>)>,
    cats: Seq<Category>,
    vim: Seq<Bind>,
    vscode: Seq<Bind>,
    n: int,
) -> Seq<Seq<char>>
    decreases n,
{
    if n <= 0 {
        seq!["| | `vim` (default) | `vscode` |"@, "| --- | --- | --- |"@]
    } else {
        let before = key_sections(pairs, cats, vim, vscode, n - 1);
        let rows = key_rows(pairs, cats[n - 1], vim, vscode, pairs.len() as int);
        if rows.len() == 0 {
            before
        } else {
            before.push("| **"@ + category_text(cats[n - 1]) + "** | | |"@) + rows
        }
    }
}

/// The pairs of a thing to do, as they are held.
pub open spec fn pair_texts(v: Seq<(Category, &'static str)>) -> Seq<(Category, Seq<char>)> {
    Seq::new(v.len(), |i: int| (v[i].0, v[i].1@))
}

fn has_pair(v: &Vec<(Category, &'static str)>, c: Category, desc: &str) -> (r: bool)
    ensures
        r == pair_texts(v@).contains((c, desc@)),
{
    for i in 0..v.len()
        invariant
            forall|j: int| 0 <= j < i ==> #[trigger] pair_texts(v@)[j] != (c, desc@),
    {
        assert(pair_texts(v@)[i as int] == (v@[i as int].0, v@[i as int].1@));
        if v[i].0 == c && same(v[i].1, desc) {
            return true;
        }
    }
    false
}

fn add_pairs(pairs: &mut Vec<(Category, &'static str)>, m: &Keymap, Ghost(before): Ghost<Seq<Bind>>)
    requires
        pair_texts(old(pairs)@) == help_pairs(before),
    ensures
        pair_texts(final(pairs)@) == help_pairs(before + m.binds@),
{
    let ghost all = m.binds@;
    assert(before + all.take(0) =~= before);
    for i in 0..m.binds.len()
        invariant
            all == m.binds@,
            pair_texts(pairs@) == help_pairs(before + all.take(i as int)),
    {
        let ghost had = pair_texts(pairs@);
        let ghost now = before + all.take(i + 1);
        assert(now.drop_last() =~= before + all.take(i as int));
        assert(now.last() == all[i as int]);
        let (c, desc) = action_help(m.binds[i].2);
        if !has_pair(pairs, c, desc) {
            pairs.push((c, desc));
            assert(pair_texts(pairs@) =~= had.push((c, desc@)));
        }
    }
    assert(all.take(m.binds@.len() as int) =~= all);
}

fn key_section_rows(pairs: &Vec<(Category, &'static str)>, c: Category, vim: &Keymap, vscode: &Keymap) -> (r: Vec<String>)
    ensures
        texts(r@) == key_rows(pair_texts(pairs@), c, vim.binds@, vscode.binds@, pairs@.len() as int),
{
    let mut out: Vec<String> = Vec::new();
    assert(texts(out@) =~= Seq::empty());
    for i in 0..pairs.len()
        invariant
            texts(out@) == key_rows(pair_texts(pairs@), c, vim.binds@, vscode.binds@, i as int),
    {
        let (cat, desc) = pairs[i];
        assert(pair_texts(pairs@)[i as int] == (cat, desc@));
        if cat == c {
            let row = "| ".to_owned().concat(&cell(desc)).concat(" | ").concat(&chord_cell(vim, desc)).concat(
                " | ",
            ).concat(&chord_cell(vscode, desc)).concat(" |");
            push_text(&mut out, row);
        }
    }
    out
}

/// The table of keys.
pub open spec fn keys_text(vim: Seq<Bind>, vscode: Seq<Bind>) -> Seq<char> {
    joined(key_sections(help_pairs(vim + vscode), sections(), vim, vscode, 7), "\n"@)
}

fn keys_table_of(vim: &Keymap, vscode: &Keymap) -> (r: String)
    ensures
        r@ == keys_text(vim.binds@, vscode.binds@),
{
    let mut pairs: Vec<(Category, &'static str)> = Vec::new();
    assert(pair_texts(pairs@) =~= Seq::empty());
    add_pairs(&mut pairs, vim, Ghost(Seq::empty()));
    assert(Seq::<Bind>::empty() + vim.binds@ =~= vim.binds@);
    add_pairs(&mut pairs, vscode, Ghost(vim.binds@));
    let ghost all = help_pairs(vim.binds@ + vscode.binds@);
    assert(all.len() == pairs@.len());
    let cats: Vec<Category> = vec![
        Category::General,
        Category::Navigation,
        Category::Panes,
        Category::Search,
        Category::Review,
        Category::Editor,
        Category::Help,
    ];
    assert(cats@ =~= sections());
    let mut out: Vec<String> = Vec::new();
    out.push("| | `vim` (default) | `vscode` |".to_owned());
    out.push("| --- | --- | --- |".to_owned());
    assert(texts(out@) =~= key_sections(all, sections(), vim.binds@, vscode.binds@, 0));
    for i in 0..cats.len()
        invariant
            cats@ == sections(),
            all == pair_texts(pairs@),
            texts(out@) == key_sections(all, sections(), vim.binds@, vscode.binds@, i as int),
    {
        let mut rows = key_section_rows(&pairs, cats[i], vim, vscode);
        let ghost lines = texts(rows@);
        assert(lines.len() == rows@.len());
        assert(all.len() == pairs@.len());
        if rows.len() > 0 {
            push_text(&mut out, "| **".to_owned().concat(category_label(cats[i])).concat("** | | |"));
            let ghost had = texts(out@);
            out.append(&mut rows);
            assert(texts(out@) =~= had + lines);
        }
    }
    join(&out, "\n")
}

/// The table of the keys of both presets: one row for each thing to do.
pub fn keys_table() -> (r: String)
    ensures
        r@ == keys_text(crate::keys::vim_binds(), crate::keys::vscode_binds()),
{
    let vim = keymap("vim");
    let vscode = keymap("vscode");
    match (vim, vscode) {
        (Some(a), Some(b)) => {
            proof {
                reveal_strlit("vim");
                reveal_strlit("vscode");
                assert("vim"@.len() != "vscode"@.len());
            }
            keys_table_of(&a, &b)
        },
        _ => "".to_owned(),
    }
}

/// Languages that have the same members, and those.
pub ghost struct MemberGroup {
    pub names: Seq<Seq<char>>,
    pub members: Seq<Seq<char>>,
}

/// The first group with some members.
pub open spec fn group_place(groups: Seq<MemberGroup>, members: Seq<Seq<char>>, from: int) -> Option<int>
    decreases groups.len() - from,
{
    if from >= groups.len() {
        None
    } else if groups[from].members == members {
        Some(from)
    } else {
        group_place(groups, members, from + 1)
    }
}

/// The groups of the first `n` languages that have members.
pub open spec fn member_groups(v: Seq<LanguageDoc>, n: int) -> Seq<MemberGroup>
    decreases n,
{
    if n <= 0 {
        Seq::empty()
    } else {
        let before = member_groups(v, n - 1);
        let members = texts(v[n - 1].members@);
        let name = v[n - 1].name@;
        if members.len() == 0 {
            before
        } else {
            match group_place(before, members, 0) {
                Some(k) => before.update(
                    k,
                    MemberGroup { names: before[k].names.push(name), members: before[k].members },
                ),
                None => before.push(MemberGroup { names: seq![name], members }),
            }
        }
    }
}

/// A text between backticks.
pub open spec fn ticked(s: Seq<char>) -> Seq<char> {
    "`"@ + s + "`"@
}

pub open spec fn all_ticked(v: Seq<Seq<char>>) -> Seq<Seq<char>> {
    Seq::new(v.len(), |i: int| ticked(v[i]))
}

/// Each text between backticks.
pub fn tick_all(v: &[String]) -> (r: Vec<String>)
    ensures
        texts(r@) == all_ticked(texts(v@)),
{
    let mut out: Vec<String> = Vec::new();
    let ghost all = all_ticked(texts(v@));
    assert(texts(out@) =~= all.take(0));
    for i in 0..v.len()
        invariant
            all == all_ticked(texts(v@)),
            texts(out@) == all.take(i as int),
    {
        push_text(&mut out, "`".to_owned().concat(&v[i]).concat("`"));
        assert(all.take(i + 1) =~= all.take(i as int).push(all[i as int]));
    }
    assert(texts(v@).len() == v@.len());
    assert(all.take(v@.len() as int) =~= all);
    out
}

/// The rows of groups of languages.
pub open spec fn member_rows(groups: Seq<MemberGroup>) -> Seq<Seq<char>> {
    Seq::new(
        groups.len(),
        |i: int|
            "| "@ + joined(groups[i].names, " / "@) + " | "@ + joined(all_ticked(groups[i].members), ", "@) + " |"@,
    )
}

/// The table of the members of languages.
pub open spec fn members_text(v: Seq<LanguageDoc>) -> Seq<char> {
    joined(
        seq!["| language | member node kinds |"@, "| --- | --- |"@] + member_rows(
            member_groups(v, v.len() as int),
        ),
        "\n"@,
    )
}

pub open spec fn groups_held(v: Seq<(Vec<String>, Vec<String>)>) -> Seq<MemberGroup> {
    Seq::new(v.len(), |i: int| MemberGroup { names: texts(v[i].0@), members: texts(v[i].1@) })
}

fn same_lists(a: &Vec<String>, b: &Vec<String>) -> (r: bool)
    ensures
        r == (texts(a@) == texts(b@)),
{
    if a.len() != b.len() {
        assert(texts(a@).len() != texts(b@).len());
        return false;
    }
    for i in 0..a.len()
        invariant
            a@.len() == b@.len(),
            forall|j: int| 0 <= j < i ==> texts(a@)[j] == texts(b@)[j],
    {
        assert(texts(a@)[i as int] == a@[i as int]@);
        assert(texts(b@)[i as int] == b@[i as int]@);
        if !same(&a[i], &b[i]) {
            return false;
        }
    }
    assert(texts(a@) =~= texts(b@));
    true
}

fn find_group(groups: &Vec<(Vec<String>, Vec<String>)>, members: &Vec<String>) -> (r: Option<usize>)
    ensures
        match r {
            Some(k) => k < groups@.len() && group_place(groups_held(groups@), texts(members@), 0) == Some(k as int),
            None => group_place(groups_held(groups@), texts(members@), 0) is None,
        },
{
    let n: usize = groups.len();
    for k in 0..n
        invariant
            n == groups@.len(),
            group_place(groups_held(groups@), texts(members@), 0) == group_place(
                groups_held(groups@),
                texts(members@),
                k as int,
            ),
    {
        if same_lists(&groups[k].1, members) {
            return Some(k);
        }
    }
    None
}

/// The table of the members of languages: those that have the same share a row.
pub fn members_table(v: &Vec<LanguageDoc>) -> (r: String)
    ensures
        r@ == members_text(v@),
{
    let mut groups: Vec<(Vec<String>, Vec<String>)> = Vec::new();
    assert(groups_held(groups@) =~= Seq::empty());
    for i in 0..v.len()
        invariant
            groups_held(groups@) == member_groups(v@, i as int),
    {
        let ghost had = groups_held(groups@);
        let l = &v[i];
        assert(texts(l.members@).len() == l.members@.len());
        if l.members.len() > 0 {
            match find_group(&groups, &l.members) {
                Some(k) => {
                    let ghost names = texts(groups@[k as int].0@);
                    groups[k].0.push(l.name.clone());
                    assert(texts(groups@[k as int].0@) =~= names.push(l.name@));
                    assert(groups_held(groups@) =~= had.update(
                        k as int,
                        MemberGroup { names: had[k as int].names.push(l.name@), members: had[k as int].members },
                    ));
                },
                None => {
                    let mut names: Vec<String> = Vec::new();
                    names.push(l.name.clone());
                    assert(texts(names@) =~= seq![l.name@]);
                    let members = crate::text::copy_strings(&l.members);
                    let ghost g = MemberGroup { names: texts(names@), members: texts(members@) };
                    groups.push((names, members));
                    assert(groups_held(groups@) =~= had.push(g));
                },
            }
        }
    }
    let ghost gs = groups_held(groups@);
    let ghost rows = member_rows(gs);
    let mut out: Vec<String> = Vec::new();
    out.push("| language | member node kinds |".to_owned());
    out.push("| --- | --- |".to_owned());
    let ghost head = texts(out@);
    assert(head =~= seq!["| language | member node kinds |"@, "| --- | --- |"@]);
    assert(head + rows.take(0) =~= head);
    for i in 0..groups.len()
        invariant
            gs == groups_held(groups@),
            rows == member_rows(gs),
            texts(out@) == head + rows.take(i as int),
    {
        let row = "| ".to_owned().concat(&join(&groups[i].0, " / ")).concat(" | ").concat(
            &join(&tick_all(&groups[i].1), ", "),
        ).concat(" |");
        assert(gs[i as int].names == texts(groups@[i as int].0@));
        push_text(&mut out, row);
        assert(rows.take(i + 1) =~= rows.take(i as int).push(rows[i as int]));
        assert(texts(out@) =~= head + rows.take(i + 1));
    }
    assert(rows.take(groups@.len() as int) =~= rows);
    join(&out, "\n")
}

/// What a ruleset says of itself: its first line, without the marks of a
/// comment.
pub open spec fn ruleset_source(text: Seq<char>) -> Seq<char> {
    let lines = lines_of(text);
    trimmed(
        unhashed(
            if lines.len() > 0 {
                lines[0]
            } else {
                ""@
            },
        ),
    )
}

pub open spec fn ruleset_rows(v: Seq<(String, String)>) -> Seq<Seq<char>> {
    Seq::new(v.len(), |i: int| "| `"@ + v[i].0@ + "` | "@ + celled(ruleset_source(v[i].1@)) + " |"@)
}

/// The table of the bundled rulesets, by name and text.
pub fn rulesets_table(v: &Vec<(String, String)>) -> (r: String)
    ensures
        r@ == joined(seq!["| preset | source |"@, "| --- | --- |"@] + ruleset_rows(v@), "\n"@),
{
    let mut out: Vec<String> = Vec::new();
    out.push("| preset | source |".to_owned());
    out.push("| --- | --- |".to_owned());
    let ghost head = texts(out@);
    let ghost rows = ruleset_rows(v@);
    assert(head =~= seq!["| preset | source |"@, "| --- | --- |"@]);
    assert(head + rows.take(0) =~= head);
    for i in 0..v.len()
        invariant
            rows == ruleset_rows(v@),
            texts(out@) == head + rows.take(i as int),
    {
        let lines = split_lines(&v[i].1);
        assert(texts(lines@).len() == lines@.len());
        let first = if lines.len() > 0 {
            assert(texts(lines@)[0] == lines@[0]@);
            lines[0].clone()
        } else {
            "".to_owned()
        };
        let source = trim(&unhash(&first));
        let row = "| `".to_owned().concat(&v[i].0).concat("` | ").concat(&cell(&source)).concat(" |");
        push_text(&mut out, row);
        assert(rows.take(i + 1) =~= rows.take(i as int).push(rows[i as int]));
        assert(texts(out@) =~= head + rows.take(i + 1));
    }
    assert(rows.take(v@.len() as int) =~= rows);
    join(&out, "\n")
}

pub open spec fn command_rows(v: Seq<Cmd>) -> Seq<Seq<char>> {
    Seq::new(v.len(), |i: int| "| `:"@ + command_label(v[i]) + "` | "@ + celled(v[i].help@) + " |"@)
}

/// The table of the commands.
pub fn commands_table() -> (r: String)
    ensures
        r@ == joined(seq!["| command | does |"@, "| --- | --- |"@] + command_rows(command_list()), "\n"@),
{
    let v = commands();
    let mut out: Vec<String> = Vec::new();
    out.push("| command | does |".to_owned());
    out.push("| --- | --- |".to_owned());
    let ghost head = texts(out@);
    let ghost rows = command_rows(v@);
    assert(head =~= seq!["| command | does |"@, "| --- | --- |"@]);
    assert(head + rows.take(0) =~= head);
    for i in 0..v.len()
        invariant
            rows == command_rows(v@),
            texts(out@) == head + rows.take(i as int),
    {
        let row = "| `:".to_owned().concat(&crate::commands::label(&v[i])).concat("` | ").concat(
            &cell(v[i].help),
        ).concat(" |");
        push_text(&mut out, row);
        assert(rows.take(i + 1) =~= rows.take(i as int).push(rows[i as int]));
        assert(texts(out@) =~= head + rows.take(i + 1));
    }
    assert(rows.take(v@.len() as int) =~= rows);
    join(&out, "\n")
}

/// What the keys of a rule mean: the key, whether it is a condition, and what it
/// matches or does.
pub open spec fn rule_docs() -> Seq<(&'static str, bool, &'static str)> {
    seq![
        ("path", true, "glob against the file path"),
        ("path-not", true, "glob the file path must *not* match — third-party code, a framework carve-out"),
        ("test", true, "whether the file is a test (`tests/`, `test_*`, `*_spec.*`, …) — `test = false` is how a rule says production code only"),
        ("lang", true, "`python`, `cpp`, `markdown`, … as `src/lang.rs` names them"),
        ("category", true, "`import` · `definition` · `other`"),
        ("enclosing-kind", true, "what holds the hunk — `none` (nothing does) · `definition` · the region kinds in [cli.md](cli.md)"),
        ("defines", true, "glob against any name the hunk defines"),
        ("uses", true, "glob against any name the hunk uses"),
        ("imports", true, "glob against any name the hunk imports"),
        ("noise-when", true, "the engine's own noise classification (`true` / `false`)"),
        ("comment", true, "the hunk is comment/docstring-only"),
        ("query", true, "a tree-sitter query, inline (below)"),
        ("query-file", true, "a tree-sitter query, read from a file relative to the rules file"),
        ("kind", true, "a node kind the hunk introduces (below)"),
        ("with", true, "…whose direct children include each of these"),
        ("without", true, "…and none of these — absence, as a table entry"),
        ("text", true, "…and whose text matches this regex"),
        ("text-not", true, "…and whose text does not match this regex"),
        ("max-params", true, "a definition the hunk introduces takes more parameters (below)"),
        ("max-lines", true, "…is longer than this"),
        ("max-nesting", true, "…sits deeper in control flow than this"),
        ("max-file-lines", true, "this change pushed the file past this many lines"),
        ("recursive", true, "a definition starting in the hunk calls itself"),
        ("container-with", true, "glob against the members of the container the hunk defines into (below)"),
        ("container-without", true, "…the same, negated"),
        ("member-uninitialized", true, "the hunk adds a data member nothing in this change initializes"),
        ("name", false, "how the rule identifies itself in the review — required"),
        ("note", false, "says something on the hunk"),
        ("warn", false, "says it at warning level — `⚠` in the reading order"),
        ("verdict", false, "asserts a concrete downgrade rather than an FYI — the level the construct catalog uses when a signal backs the call"),
        ("noise", false, "marks the hunk skippable, like generated code"),
        ("priority", false, "sorts it earlier (see the guarantee below)"),
    ]
}

/// What the keys of a rule mean.
pub fn rule_doc() -> (r: Vec<(&'static str, bool, &'static str)>)
    ensures
        r@ == rule_docs(),
{
    let all: Vec<(&'static str, bool, &'static str)> = vec![
        ("path", true, "glob against the file path"),
        ("path-not", true, "glob the file path must *not* match — third-party code, a framework carve-out"),
        ("test", true, "whether the file is a test (`tests/`, `test_*`, `*_spec.*`, …) — `test = false` is how a rule says production code only"),
        ("lang", true, "`python`, `cpp`, `markdown`, … as `src/lang.rs` names them"),
        ("category", true, "`import` · `definition` · `other`"),
        ("enclosing-kind", true, "what holds the hunk — `none` (nothing does) · `definition` · the region kinds in [cli.md](cli.md)"),
        ("defines", true, "glob against any name the hunk defines"),
        ("uses", true, "glob against any name the hunk uses"),
        ("imports", true, "glob against any name the hunk imports"),
        ("noise-when", true, "the engine's own noise classification (`true` / `false`)"),
        ("comment", true, "the hunk is comment/docstring-only"),
        ("query", true, "a tree-sitter query, inline (below)"),
        ("query-file", true, "a tree-sitter query, read from a file relative to the rules file"),
        ("kind", true, "a node kind the hunk introduces (below)"),
        ("with", true, "…whose direct children include each of these"),
        ("without", true, "…and none of these — absence, as a table entry"),
        ("text", true, "…and whose text matches this regex"),
        ("text-not", true, "…and whose text does not match this regex"),
        ("max-params", true, "a definition the hunk introduces takes more parameters (below)"),
        ("max-lines", true, "…is longer than this"),
        ("max-nesting", true, "…sits deeper in control flow than this"),
        ("max-file-lines", true, "this change pushed the file past this many lines"),
        ("recursive", true, "a definition starting in the hunk calls itself"),
        ("container-with", true, "glob against the members of the container the hunk defines into (below)"),
        ("container-without", true, "…the same, negated"),
        ("member-uninitialized", true, "the hunk adds a data member nothing in this change initializes"),
        ("name", false, "how the rule identifies itself in the review — required"),
        ("note", false, "says something on the hunk"),
        ("warn", false, "says it at warning level — `⚠` in the reading order"),
        ("verdict", false, "asserts a concrete downgrade rather than an FYI — the level the construct catalog uses when a signal backs the call"),
        ("noise", false, "marks the hunk skippable, like generated code"),
        ("priority", false, "sorts it earlier (see the guarantee below)"),
    ];
    assert(all@ =~= rule_docs());
    all
}

/// The rows of the conditions or the actions among the first `n` keys of a rule.
pub open spec fn rule_rows(v: Seq<(&'static str, bool, &'static str)>, conditions: bool, n: int) -> Seq<Seq<char>>
    decreases n,
{
    if n <= 0 {
        Seq::empty()
    } else if v[n - 1].1 == conditions {
        rule_rows(v, conditions, n - 1).push("| `"@ + v[n - 1].0@ + "` | "@ + v[n - 1].2@ + " |"@)
    } else {
        rule_rows(v, conditions, n - 1)
    }
}

/// The table of the conditions or the actions of a rule.
pub open spec fn rule_text(conditions: bool) -> Seq<char> {
    joined(
        seq![
            "| key | "@ + (if conditions {
                "matches"@
            } else {
                "does"@
            }) + " |"@,
            "| --- | --- |"@,
        ] + rule_rows(rule_docs(), conditions, rule_docs().len() as int),
        "\n"@,
    )
}

pub fn rule_table(conditions: bool) -> (r: String)
    ensures
        r@ == rule_text(conditions),
{
    let v = rule_doc();
    let what = if conditions {
        "matches"
    } else {
        "does"
    };
    let mut out: Vec<String> = Vec::new();
    out.push("| key | ".to_owned().concat(what).concat(" |"));
    out.push("| --- | --- |".to_owned());
    let ghost head = texts(out@);
    assert(head =~= seq!["| key | "@ + what@ + " |"@, "| --- | --- |"@]);
    assert(head + rule_rows(v@, conditions, 0) =~= head);
    for i in 0..v.len()
        invariant
            texts(out@) == head + rule_rows(v@, conditions, i as int),
    {
        let (key, condition, meaning) = v[i];
        if condition == conditions {
            let row = "| `".to_owned().concat(key).concat("` | ").concat(meaning).concat(" |");
            let ghost had = rule_rows(v@, conditions, i as int);
            push_text(&mut out, row);
            assert(texts(out@) =~= head + had.push(row@));
        }
    }
    join(&out, "\n")
}

/// The field of the engine that a condition of a rule fills; none for one that
/// is read before the engine is asked.
pub open spec fn engine_field(key: Seq<char>) -> Option<Seq<char>> {
    if key == "query-file"@ {
        None
    } else if key == "noise-when"@ {
        Some("noise"@)
    } else {
        Some(replaced(key, '-', "_"@))
    }
}

pub fn when_field_of(key: &str) -> (r: Option<String>)
    ensures
        option_text(r) == engine_field(key@),
{
    if same(key, "query-file") {
        None
    } else if same(key, "noise-when") {
        Some("noise".to_owned())
    } else {
        Some(replace(key, '-', "_"))
    }
}

/// What holds a hunk.
#[derive(Clone, Copy, PartialEq, Eq, Debug, Structural)]
pub enum ContainerKind {
    Definition,
    Test,
    Region,
    Namespace,
    Preamble,
    FrontMatter,
    Document,
    Binding,
    Call,
}

/// What a kind of container is, and an example of one.
pub open spec fn container_doc(k: ContainerKind) -> (Seq<char>, Seq<char>) {
    match k {
        ContainerKind::Definition => ("a definition — a function, class, macro, …"@, "`parse_cfg`"@),
        ContainerKind::Test => (
            "a named block: `describe`/`it`/`test`, or a rust test macro"@,
            "`describe \"cli\" > it \"parses flags\"`"@,
        ),
        ContainerKind::Region => ("conditional compilation"@, "`#ifdef CURL_DISABLE_HTTP`"@),
        ContainerKind::Namespace => ("a namespace: it qualifies what it holds"@, "`particode`"@),
        ContainerKind::Preamble => ("prose before a document's first heading"@, "`preamble`"@),
        ContainerKind::FrontMatter => ("a document's `---` metadata block"@, "`front matter`"@),
        ContainerKind::Document => ("one `---` document of a multi-document yaml file"@, "`document 2`"@),
        ContainerKind::Binding => (
            "a file-scope binding whose multi-line value holds the hunk"@,
            "`ALLOWED_IMPORTS`"@,
        ),
        ContainerKind::Call => (
            "a file-scope call whose multi-line arguments hold it"@,
            "`execa('unicorns')`"@,
        ),
    }
}

fn describe(k: ContainerKind) -> (r: (&'static str, &'static str))
    ensures
        (r.0@, r.1@) == container_doc(k),
{
    match k {
        ContainerKind::Definition => ("a definition — a function, class, macro, …", "`parse_cfg`"),
        ContainerKind::Test => (
            "a named block: `describe`/`it`/`test`, or a rust test macro",
            "`describe \"cli\" > it \"parses flags\"`",
        ),
        ContainerKind::Region => ("conditional compilation", "`#ifdef CURL_DISABLE_HTTP`"),
        ContainerKind::Namespace => ("a namespace: it qualifies what it holds", "`particode`"),
        ContainerKind::Preamble => ("prose before a document's first heading", "`preamble`"),
        ContainerKind::FrontMatter => ("a document's `---` metadata block", "`front matter`"),
        ContainerKind::Document => ("one `---` document of a multi-document yaml file", "`document 2`"),
        ContainerKind::Binding => (
            "a file-scope binding whose multi-line value holds the hunk",
            "`ALLOWED_IMPORTS`",
        ),
        ContainerKind::Call => (
            "a file-scope call whose multi-line arguments hold it",
            "`execa('unicorns')`",
        ),
    }
}

pub open spec fn container_rows(v: Seq<(ContainerKind, String)>) -> Seq<Seq<char>> {
    Seq::new(
        v.len(),
        |i: int|
            "| "@ + (if v[i].0 == ContainerKind::Definition {
                "*(omitted)*"@
            } else {
                ticked(v[i].1@)
            }) + " | "@ + container_doc(v[i].0).0 + " | "@ + container_doc(v[i].0).1 + " |"@,
    )
}

/// The table of what holds a hunk, by the engine's name of each kind.
pub fn container_kinds_table(v: &Vec<(ContainerKind, String)>) -> (r: String)
    ensures
        r@ == joined(
            seq!["| `enclosing_kind` | what holds the hunk | example `enclosing` |"@, "| --- | --- | --- |"@]
                + container_rows(v@),
            "\n"@,
        ),
{
    let mut out: Vec<String> = Vec::new();
    out.push("| `enclosing_kind` | what holds the hunk | example `enclosing` |".to_owned());
    out.push("| --- | --- | --- |".to_owned());
    let ghost head = texts(out@);
    let ghost rows = container_rows(v@);
    assert(head =~= seq![
        "| `enclosing_kind` | what holds the hunk | example `enclosing` |"@,
        "| --- | --- | --- |"@,
    ]);
    assert(head + rows.take(0) =~= head);
    for i in 0..v.len()
        invariant
            rows == container_rows(v@),
            texts(out@) == head + rows.take(i as int),
    {
        let shown = if v[i].0 == ContainerKind::Definition {
            "*(omitted)*".to_owned()
        } else {
            "`".to_owned().concat(&v[i].1).concat("`")
        };
        let (what, example) = describe(v[i].0);
        let row = "| ".to_owned().concat(&shown).concat(" | ").concat(what).concat(" | ").concat(example).concat(
            " |",
        );
        push_text(&mut out, row);
        assert(rows.take(i + 1) =~= rows.take(i as int).push(rows[i as int]));
        assert(texts(out@) =~= head + rows.take(i + 1));
    }
    assert(rows.take(v@.len() as int) =~= rows);
    join(&out, "\n")
}

/// What the documentation is made from, besides what the program itself knows.
pub struct DocWorld {
    pub languages: Vec<LanguageDoc>,
    /// the bundled rulesets, by name and text
    pub rulesets: Vec<(String, String)>,
    /// the engine's names of what holds a hunk
    pub containers: Vec<(ContainerKind, String)>,
}

/// A badge that counts the languages.
pub open spec fn badge_text(n: int) -> Seq<char> {
    "<img src=\"https://img.shields.io/badge/languages-"@ + decimal(n) + "-5fd4c0\" alt=\""@ + decimal(n)
        + " supported languages\">"@
}

/// A list, wrapped as the documentation does it.
pub open spec fn listed(items: Seq<Seq<char>>) -> Seq<char> {
    joined(wrapped(items, 76, items.len() as int), "\n"@)
}

/// The block that a key names.
pub open spec fn block_of(key: Seq<char>, w: DocWorld) -> Option<Seq<char>> {
    if key == "langs"@ {
        Some(listed(language_names(w.languages@)))
    } else if key == "langs-badge"@ {
        Some(badge_text(w.languages@.len() as int))
    } else if key == "members"@ {
        Some(members_text(w.languages@))
    } else if key == "keys"@ {
        Some(keys_text(crate::keys::vim_binds(), crate::keys::vscode_binds()))
    } else if key == "commands"@ {
        Some(joined(seq!["| command | does |"@, "| --- | --- |"@] + command_rows(command_list()), "\n"@))
    } else if key == "themes"@ {
        Some(listed(all_ticked(theme_name_list())))
    } else if key == "theme-roles"@ {
        Some(listed(all_ticked(role_list())))
    } else if key == "rulesets"@ {
        Some(joined(seq!["| preset | source |"@, "| --- | --- |"@] + ruleset_rows(w.rulesets@), "\n"@))
    } else if key == "rule-conditions"@ {
        Some(rule_text(true))
    } else if key == "rule-actions"@ {
        Some(rule_text(false))
    } else if key == "container-kinds"@ {
        Some(
            joined(
                seq!["| `enclosing_kind` | what holds the hunk | example `enclosing` |"@, "| --- | --- | --- |"@]
                    + container_rows(w.containers@),
                "\n"@,
            ),
        )
    } else {
        None
    }
}

fn list_names(v: &Vec<String>) -> (r: String)
    ensures
        r@ == listed(texts(v@)),
{
    assert(texts(v@).len() == v@.len());
    wrap(v, 76)
}

fn role_names() -> (r: Vec<String>)
    ensures
        texts(r@) == role_list(),
{
    let roles = theme_roles();
    let mut out: Vec<String> = Vec::new();
    assert(texts(out@) =~= role_list().take(0));
    for i in 0..roles.len()
        invariant
            roles@.len() == role_list().len(),
            forall|j: int| 0 <= j < roles@.len() ==> (#[trigger] roles@[j])@ == role_list()[j],
            texts(out@) == role_list().take(i as int),
    {
        push_text(&mut out, roles[i].to_owned());
        assert(role_list().take(i + 1) =~= role_list().take(i as int).push(role_list()[i as int]));
    }
    assert(role_list().take(roles@.len() as int) =~= role_list());
    out
}

/// The block that a key names; none for a key that names none.
pub fn render(key: &str, w: &DocWorld) -> (r: Option<String>)
    ensures
        option_text(r) == block_of(key@, *w),
{
    if same(key, "langs") {
        Some(list_names(&langs(&w.languages)))
    } else if same(key, "langs-badge") {
        let n = number(w.languages.len());
        Some(
            "<img src=\"https://img.shields.io/badge/languages-".to_owned().concat(&n).concat(
                "-5fd4c0\" alt=\"",
            ).concat(&n).concat(" supported languages\">"),
        )
    } else if same(key, "members") {
        Some(members_table(&w.languages))
    } else if same(key, "keys") {
        Some(keys_table())
    } else if same(key, "commands") {
        Some(commands_table())
    } else if same(key, "themes") {
        Some(list_names(&tick_all(&theme_names())))
    } else if same(key, "theme-roles") {
        Some(list_names(&tick_all(&role_names())))
    } else if same(key, "rulesets") {
        Some(rulesets_table(&w.rulesets))
    } else if same(key, "rule-conditions") {
        Some(rule_table(true))
    } else if same(key, "rule-actions") {
        Some(rule_table(false))
    } else if same(key, "container-kinds") {
        Some(container_kinds_table(&w.containers))
    } else {
        None
    }
}

/// The lines of a block, each indented but for those that are empty.
pub open spec fn indented(lines: Seq<Seq<char>>, indent: Seq<char>, n: int) -> Seq<char>
    decreases n,
{
    if n <= 0 {
        Seq::empty()
    } else if lines[n - 1].len() == 0 {
        indented(lines, indent, n - 1) + "\n"@
    } else {
        indented(lines, indent, n - 1) + (indent + lines[n - 1] + "\n"@)
    }
}

/// What opens a block.
pub open spec fn opening() -> Seq<char> {
    "<!-- ordo:begin "@
}

/// What closes the block of a key.
pub open spec fn closing(indent: Seq<char>, key: Seq<char>) -> Seq<char> {
    indent + "<!-- ordo:end "@ + key + " -->"@
}

/// Why a text cannot be filled in.
pub open spec fn no_end(path: Seq<char>, key: Seq<char>) -> Seq<char> {
    path + ": no matching end marker for '"@ + key + "'"@
}

pub open spec fn no_block(path: Seq<char>, key: Seq<char>) -> Seq<char> {
    path + ": unknown block '"@ + key + "'"@
}

/// The first block of a text: where its opening ends and where its closing
/// starts, its indent, and its key.
pub open spec fn first_block(rest: Seq<char>, path: Seq<char>) -> Option<Result<(int, int, Seq<char>, Seq<char>), Seq<char>>> {
    let i = find_from(rest, opening(), 0);
    if i > rest.len() {
        None
    } else {
        let indent = rest.subrange(after_last(rest, '\n', i), i);
        let tail = rest.skip(i + opening().len());
        let key = tail.take(char_from(tail, ' ', 0));
        let dash = find_from(rest, "-->"@, i);
        if dash > rest.len() {
            Some(Err("unterminated begin marker"@))
        } else {
            let at = find_from(rest, closing(indent, key), dash + 3);
            if at > rest.len() {
                Some(Err(no_end(path, key)))
            } else {
                Some(Ok((dash + 3, at, indent, key)))
            }
        }
    }
}

/// A text with every block filled in, and the keys of the blocks; or why it
/// cannot be.
pub open spec fn spliced(rest: Seq<char>, path: Seq<char>, w: DocWorld) -> Result<
    (Seq<char>, Seq<Seq<char>>),
    Seq<char>,
>
    decreases rest.len(),
{
    match first_block(rest, path) {
        None => Ok((rest, Seq::empty())),
        Some(Err(why)) => Err(why),
        Some(Ok((open_end, at, indent, key))) => match block_of(key, w) {
            None => Err(no_block(path, key)),
            Some(body) => {
                let lines = lines_of(body);
                let head = rest.take(open_end) + "\n"@ + indented(lines, indent, lines.len() as int) + indent;
                proof {
                    lemma_first_block(rest, path);
                }
                match spliced(rest.skip(at + indent.len()), path, w) {
                    Ok((tail, keys)) => Ok((head + tail, seq![key] + keys)),
                    Err(why) => Err(why),
                }
            },
        },
    }
}

pub proof fn lemma_first_block(rest: Seq<char>, path: Seq<char>)
    ensures
        first_block(rest, path) matches Some(Ok(b)) ==> 3 <= b.0 <= b.1 && b.1 + b.2.len() <= rest.len(),
{
    lemma_find_from(rest, opening(), 0);
    let i = find_from(rest, opening(), 0);
    if i <= rest.len() {
        lemma_find_from(rest, "-->"@, i);
        let dash = find_from(rest, "-->"@, i);
        if dash <= rest.len() {
            reveal_strlit("-->");
            let indent = rest.subrange(after_last(rest, '\n', i), i);
            let tail = rest.skip(i + opening().len());
            let key = tail.take(char_from(tail, ' ', 0));
            lemma_find_from(rest, closing(indent, key), dash + 3);
        }
    }
}

fn last_line_start(cs: &Vec<char>, upto: usize) -> (r: usize)
    requires
        upto <= cs@.len(),
    ensures
        r == after_last(cs@, '\n', upto as int),
        r <= upto,
{
    let mut n: usize = upto;
    while n > 0 && cs[n - 1] != '\n'
        invariant
            n <= upto <= cs@.len(),
            after_last(cs@, '\n', upto as int) == after_last(cs@, '\n', n as int),
        decreases n,
    {
        n = n - 1;
    }
    n
}

fn find_block(cs: &Vec<char>, path: &str) -> (r: Option<Result<(usize, usize, String, String), String>>)
    ensures
        match r {
            None => first_block(cs@, path@) is None,
            Some(Err(why)) => first_block(cs@, path@) == Some(Err::<(int, int, Seq<char>, Seq<char>), Seq<char>>(why@)),
            Some(Ok((a, b, indent, key))) => first_block(cs@, path@) == Some(
                Ok::<(int, int, Seq<char>, Seq<char>), Seq<char>>((a as int, b as int, indent@, key@)),
            ) && a <= b && b + indent@.len() <= cs@.len(),
        },
{
    let n: usize = cs.len();
    let mark = chars_of("<!-- ordo:begin ");
    let i: usize = match find(cs, &mark, 0) {
        Some(i) => i,
        None => {
            return None;
        },
    };
    proof {
        lemma_find_from(cs@, opening(), 0);
        lemma_first_block(cs@, path@);
    }
    assert(i + mark@.len() <= n) by {
        assert(occurs_at(cs@, mark@, i as int));
    }
    let start: usize = last_line_start(cs, i);
    let indent = slice_string(cs, start, i);
    assert(indent@ =~= cs@.subrange(after_last(cs@, '\n', i as int), i as int));
    let tail_at: usize = i + mark.len();
    let key_end: usize = find_char(cs, ' ', tail_at);
    let key = slice_string(cs, tail_at, key_end);
    proof {
        let tail = cs@.skip(tail_at as int);
        crate::text::lemma_char_from_skip(cs@, ' ', tail_at as int);
        assert(key@ =~= tail.take(char_from(tail, ' ', 0)));
    }
    let dashes = chars_of("-->");
    let dash: usize = match find(cs, &dashes, i) {
        Some(d) => d,
        None => {
            return Some(Err("unterminated begin marker".to_owned()));
        },
    };
    proof {
        reveal_strlit("-->");
        assert(occurs_at(cs@, dashes@, dash as int));
    }
    let close = indent.clone().concat("<!-- ordo:end ").concat(&key).concat(" -->");
    let at: usize = match find(cs, &chars_of(&close), dash + 3) {
        Some(a) => a,
        None => {
            return Some(
                Err(path.to_owned().concat(": no matching end marker for '").concat(&key).concat("'")),
            );
        },
    };
    Some(Ok((dash + 3, at, indent, key)))
}

fn indent_lines(body: &str, indent: &str) -> (r: String)
    ensures
        r@ == indented(lines_of(body@), indent@, lines_of(body@).len() as int),
{
    let lines = split_lines(body);
    let ghost all = lines_of(body@);
    let mut out = "".to_owned();
    proof {
        reveal_strlit("");
        assert(out@ =~= Seq::empty());
    }
    for i in 0..lines.len()
        invariant
            all == texts(lines@),
            out@ == indented(all, indent@, i as int),
    {
        assert(all[i as int] == lines@[i as int]@);
        if lines[i].as_str().is_empty() {
            out = out.concat("\n");
        } else {
            out = out.concat(&indent.to_owned().concat(&lines[i]).concat("\n"));
        }
    }
    assert(all.len() == lines@.len());
    out
}

/// What comes of filling in the rest of a text.
pub open spec fn with_head(
    head: Seq<char>,
    keys: Seq<Seq<char>>,
    r: Result<(Seq<char>, Seq<Seq<char>>), Seq<char>>,
) -> Result<(Seq<char>, Seq<Seq<char>>), Seq<char>> {
    match r {
        Ok((tail, more)) => Ok((head + tail, keys + more)),
        Err(why) => Err(why),
    }
}

/// Fills in every block of a text, and gives the keys of the blocks. Each line of
/// a block is indented as its opening is. A marker that is not closed, or names
/// no block, is an error.
pub fn splice(text: &str, path: &str, w: &DocWorld) -> (r: Result<(String, Vec<String>), String>)
    ensures
        match r {
            Ok((t, keys)) => spliced(text@, path@, *w) == Ok::<(Seq<char>, Seq<Seq<char>>), Seq<char>>(
                (t@, texts(keys@)),
            ),
            Err(why) => spliced(text@, path@, *w) == Err::<(Seq<char>, Seq<Seq<char>>), Seq<char>>(why@),
        },
{
    let ghost all = spliced(text@, path@, *w);
    let mut cs = chars_of(text);
    let mut out = "".to_owned();
    let mut keys: Vec<String> = Vec::new();
    proof {
        reveal_strlit("");
        assert(texts(keys@) =~= Seq::empty());
        if let Ok((t, k)) = all {
            assert(out@ + t =~= t);
            assert(texts(keys@) + k =~= k);
        }
    }
    loop
        invariant
            all == spliced(text@, path@, *w),
            all == with_head(out@, texts(keys@), spliced(cs@, path@, *w)),
        decreases cs@.len(),
    {
        proof {
            lemma_first_block(cs@, path@);
        }
        match find_block(&cs, path) {
            None => {
                proof {
                    assert(texts(keys@) + Seq::<Seq<char>>::empty() =~= texts(keys@));
                }
                let t = out.concat(&string_of(&cs));
                return Ok((t, keys));
            },
            Some(Err(why)) => {
                return Err(why);
            },
            Some(Ok((open_end, at, indent, key))) => {
                let body = match render(&key, w) {
                    Some(b) => b,
                    None => {
                        return Err(path.to_owned().concat(": unknown block '").concat(&key).concat("'"));
                    },
                };
                let n: usize = cs.len();
                let opened = slice_string(&cs, 0, open_end);
                assert(opened@ =~= cs@.take(open_end as int));
                let head = opened.concat("\n").concat(&indent_lines(&body, &indent)).concat(&indent);
                let wide: usize = crate::text::width(&indent);
                let rest = chars_of(&slice_string(&cs, at + wide, n));
                assert(rest@ =~= cs@.skip(at + indent@.len()));
                proof {
                    let lines = lines_of(body@);
                    assert(head@ == cs@.take(open_end as int) + "\n"@ + indented(
                        lines,
                        indent@,
                        lines.len() as int,
                    ) + indent@);
                    if let Ok((tail, more)) = spliced(rest@, path@, *w) {
                        assert(out@ + (head@ + tail) =~= (out@ + head@) + tail);
                        assert(texts(keys@) + (seq![key@] + more) =~= texts(keys@).push(key@) + more);
                    }
                }
                out = out.concat(&head);
                push_text(&mut keys, key);
                cs = rest;
            },
        }
    }
}

/// A text without blocks is left as it is.
pub proof fn law_a_text_without_blocks_stays(text: Seq<char>, path: Seq<char>, w: DocWorld)
    requires
        !contains_text(text, opening()),
    ensures
        spliced(text, path, w) == Ok::<(Seq<char>, Seq<Seq<char>>), Seq<char>>((text, Seq::empty())),
{
    lemma_find_from(text, opening(), 0);
    if find_from(text, opening(), 0) <= text.len() {
        assert(occurs_at(text, opening(), find_from(text, opening(), 0)));
        assert(contains_text(text, opening()));
    }
}

/// What closes the block of a key, without its indent.
pub open spec fn end_mark(key: Seq<char>) -> Seq<char> {
    "<!-- ordo:end "@ + key + " -->"@
}

/// The keys of the blocks hold nothing that could be taken for a marker.
proof fn lemma_known_key(key: Seq<char>, w: DocWorld)
    requires
        block_of(key, w) is Some,
    ensures
        forall|i: int| 0 <= i < key.len() ==> #[trigger] key[i] != '<' && key[i] != '>' && key[i] != '\n',
{
    reveal_strlit("langs");
    reveal_strlit("langs-badge");
    reveal_strlit("members");
    reveal_strlit("keys");
    reveal_strlit("commands");
    reveal_strlit("themes");
    reveal_strlit("theme-roles");
    reveal_strlit("rulesets");
    reveal_strlit("rule-conditions");
    reveal_strlit("rule-actions");
    reveal_strlit("container-kinds");
}

/// The place of a pattern that occurs there and nowhere before.
proof fn lemma_find_at(s: Seq<char>, pat: Seq<char>, from: int, at: int)
    requires
        0 <= from <= at,
        occurs_at(s, pat, at),
        forall|i: int| from <= i < at ==> !occurs_at(s, pat, i),
    ensures
        find_from(s, pat, from) == at,
{
    lemma_find_from(s, pat, from);
}

/// Texts that start alike hold a pattern at the same first place, if it lies in
/// what they share.
proof fn lemma_find_in_common(s: Seq<char>, t: Seq<char>, n: int, pat: Seq<char>, from: int)
    requires
        0 <= from,
        0 <= n <= s.len(),
        n <= t.len(),
        s.take(n) == t.take(n),
        find_from(s, pat, from) + pat.len() <= n,
    ensures
        find_from(t, pat, from) == find_from(s, pat, from),
{
    lemma_find_from(s, pat, from);
    let at = find_from(s, pat, from);
    assert forall|i: int| 0 <= i && i + pat.len() <= n implies #[trigger] occurs_at(t, pat, i) == occurs_at(s, pat, i) by {
        assert(t.subrange(i, i + pat.len()) =~= t.take(n).subrange(i, i + pat.len()));
        assert(s.subrange(i, i + pat.len()) =~= s.take(n).subrange(i, i + pat.len()));
    }
    lemma_find_at(t, pat, from, at);
}

proof fn lemma_after_last(s: Seq<char>, c: char, upto: int)
    requires
        0 <= upto <= s.len(),
    ensures
        0 <= after_last(s, c, upto) <= upto,
        forall|i: int| after_last(s, c, upto) <= i < upto ==> s[i] != c,
    decreases upto,
{
    if upto > 0 && s[upto - 1] != c {
        lemma_after_last(s, c, upto - 1);
    }
}

proof fn lemma_after_last_in_common(s: Seq<char>, t: Seq<char>, c: char, upto: int)
    requires
        0 <= upto <= s.len(),
        upto <= t.len(),
        forall|i: int| 0 <= i < upto ==> s[i] == t[i],
    ensures
        after_last(s, c, upto) == after_last(t, c, upto),
    decreases upto,
{
    if upto > 0 && s[upto - 1] != c {
        lemma_after_last_in_common(s, t, c, upto - 1);
    }
}

/// What a line of a text holds, the text holds; and no line holds a line feed.
pub proof fn lemma_line_is_inside(s: Seq<char>, k: int, pat: Seq<char>)
    requires
        0 <= k < lines_of(s).len(),
    ensures
        !lines_of(s)[k].contains('\n'),
        contains_text(lines_of(s)[k], pat) ==> contains_text(s, pat),
    decreases s.len(),
{
    let i = char_from(s, '\n', 0);
    crate::text::lemma_char_from(s, '\n', 0);
    let line = lines_of(s)[k];
    if i < s.len() {
        let rest = s.skip(i + 1);
        if k == 0 {
            if contains_text(line, pat) {
                let at = choose|at: int| occurs_at(line, pat, at);
                assert(s.subrange(at, at + pat.len()) =~= line.subrange(at, at + pat.len()));
                assert(occurs_at(s, pat, at));
            }
        } else {
            assert(line == lines_of(rest)[k - 1]);
            lemma_line_is_inside(rest, k - 1, pat);
            if contains_text(rest, pat) {
                let at = choose|at: int| occurs_at(rest, pat, at);
                assert(s.subrange(at + i + 1, at + i + 1 + pat.len()) =~= rest.subrange(at, at + pat.len()));
                assert(occurs_at(s, pat, at + i + 1));
            }
        }
    }
}

/// The lines of a block do not hold what closes it, if none of them holds its
/// end marker.
proof fn lemma_block_holds_no_end(
    lines: Seq<Seq<char>>,
    indent: Seq<char>,
    mark: Seq<char>,
    n: int,
)
    requires
        0 <= n <= lines.len(),
        mark.len() > 0,
        !mark.contains('\n'),
        !indent.contains('\n'),
        forall|k: int| 0 <= k < n ==> !(#[trigger] lines[k]).contains('\n') && !contains_text(lines[k], mark),
    ensures
        ("\n"@ + indented(lines, indent, n)).last() == '\n',
        !contains_text("\n"@ + indented(lines, indent, n), indent + mark),
    decreases n,
{
    reveal_strlit("\n");
    let close = indent + mark;
    let all = "\n"@ + indented(lines, indent, n);
    assert forall|i: int| 0 <= i < close.len() implies #[trigger] close[i] != '\n' by {
        if i < indent.len() {
            assert(indent.contains(indent[i]));
        } else {
            assert(mark.contains(mark[i - indent.len()]));
        }
    }
    if n == 0 {
        assert(all =~= "\n"@);
        assert forall|p: int| !occurs_at(all, close, p) by {
            if occurs_at(all, close, p) {
                assert(all.subrange(p, p + close.len())[0] == all[p]);
            }
        }
    } else {
        lemma_block_holds_no_end(lines, indent, mark, n - 1);
        let had = "\n"@ + indented(lines, indent, n - 1);
        let line = lines[n - 1];
        let added = if line.len() == 0 {
            "\n"@
        } else {
            indent + line + "\n"@
        };
        assert(all =~= had + added);
        let h = had.len() as int;
        assert(added.last() == '\n');
        assert(all.last() == added.last());
        assert forall|p: int| !occurs_at(all, close, p) by {
            if occurs_at(all, close, p) {
                let found = all.subrange(p, p + close.len());
                if p + close.len() <= h {
                    assert(had.subrange(p, p + close.len()) =~= found);
                    assert(occurs_at(had, close, p));
                } else if p < h {
                    assert(found[h - 1 - p] == all[h - 1]);
                    assert(all[h - 1] == had.last());
                } else if p + close.len() == all.len() {
                    assert(found[close.len() - 1] == all.last());
                } else {
                    let q = p - h;
                    assert(line.subrange(q, q + mark.len()) =~= mark) by {
                        assert forall|j: int| 0 <= j < mark.len() implies line[q + j] == #[trigger] mark[j] by {
                            assert(found[indent.len() + j] == all[p + indent.len() + j]);
                            assert(close[indent.len() + j] == mark[j]);
                            assert(all[p + indent.len() + j] == added[q + indent.len() + j]);
                        }
                    }
                    assert(occurs_at(line, mark, q));
                }
            }
        }
    }
}

/// A text that starts with an end marker still does once its blocks are filled
/// in.
proof fn lemma_an_end_marker_stays(rest: Seq<char>, path: Seq<char>, w: DocWorld, key: Seq<char>)
    requires
        block_of(key, w) is Some,
        occurs_at(rest, end_mark(key), 0),
        spliced(rest, path, w) is Ok,
    ensures
        occurs_at(spliced(rest, path, w)->Ok_0.0, end_mark(key), 0),
{
    let mark = end_mark(key);
    let m = mark.len() as int;
    let t = spliced(rest, path, w)->Ok_0.0;
    if let Some(Ok((open_end, at, indent, k))) = first_block(rest, path) {
        lemma_first_block(rest, path);
        lemma_known_key(key, w);
        lemma_find_from(rest, opening(), 0);
        let i = find_from(rest, opening(), 0);
        reveal_strlit("<!-- ordo:begin ");
        reveal_strlit("<!-- ordo:end ");
        reveal_strlit(" -->");
        let found = rest.subrange(i, i + opening().len());
        let start = rest.subrange(0, m);
        assert(found == opening());
        assert(start == mark);
        if i < m {
            assert(found[0] == rest[i]);
            assert(start[i] == rest[i]);
            if i >= 14 && i < 14 + key.len() {
                assert(mark[i] == key[i - 14]);
            }
            assert(mark[i] == '<');
            assert(i == 0);
            assert(found[10] == rest[10] && start[10] == rest[10]);
            assert(false);
        }
        lemma_find_from(rest, "-->"@, i);
        assert(m <= open_end);
        assert(t.subrange(0, m) =~= start);
    } else {
        assert(t == rest);
    }
}

/// A text that starts as another does, up to the end of the first opening, has
/// the same opening.
proof fn lemma_opening_stays(text: Seq<char>, t: Seq<char>, path: Seq<char>)
    requires
        first_block(text, path) is Some,
        first_block(text, path)->0 is Ok,
        ({
            let (open_end, at, indent, key) = first_block(text, path)->0->Ok_0;
            &&& !key.contains('>')
            &&& open_end <= t.len()
            &&& text.take(open_end) == t.take(open_end)
        }),
    ensures
        ({
            let (open_end, at, indent, key) = first_block(text, path)->0->Ok_0;
            let i = find_from(t, opening(), 0);
            let tail = t.skip(i + opening().len());
            &&& i <= t.len()
            &&& find_from(t, "-->"@, i) + 3 == open_end
            &&& t.subrange(after_last(t, '\n', i), i) == indent
            &&& tail.take(char_from(tail, ' ', 0)) == key
            &&& !indent.contains('\n')
        }),
{
    let (open_end, at, indent, key) = first_block(text, path)->0->Ok_0;
    reveal_strlit("<!-- ordo:begin ");
    reveal_strlit("-->");
    lemma_first_block(text, path);
    lemma_find_from(text, opening(), 0);
    let i = find_from(text, opening(), 0);
    lemma_find_from(text, "-->"@, i);
    let dash = find_from(text, "-->"@, i);
    let after = i + opening().len();
    let tail = text.skip(after);
    crate::text::lemma_char_from(tail, ' ', 0);
    let stop = char_from(tail, ' ', 0);
    assert forall|j: int| 0 <= j < open_end implies text[j] == t[j] by {
        assert(text.take(open_end)[j] == text[j]);
        assert(t.take(open_end)[j] == t[j]);
    }
    let dashes = text.subrange(dash, dash + 3);
    assert(dashes == "-->"@);
    assert(dashes[2] == text[dash + 2]);
    let opened = text.subrange(i, after);
    assert(opened == opening());
    assert(after <= dash + 2) by {
        if dash + 2 < after {
            assert(opened[dash + 2 - i] == text[dash + 2]);
        }
    }
    assert(after + stop <= dash + 2) by {
        if dash + 2 < after + stop {
            assert(key[dash + 2 - after] == text[dash + 2]);
            assert(key.contains('>'));
        }
    }
    lemma_find_in_common(text, t, open_end, opening(), 0);
    lemma_find_in_common(text, t, open_end, "-->"@, i);
    lemma_after_last_in_common(text, t, '\n', i);
    lemma_after_last(text, '\n', i);
    let line_start = after_last(text, '\n', i);
    assert(t.subrange(line_start, i) =~= indent);
    assert(!indent.contains('\n')) by {
        assert forall|j: int| 0 <= j < indent.len() implies #[trigger] indent[j] != '\n' by {
            assert(indent[j] == text[line_start + j]);
        }
    }
    let again = t.skip(after);
    crate::text::lemma_char_from(again, ' ', 0);
    assert forall|j: int| 0 <= j <= stop implies #[trigger] again[j] == tail[j] by {
        assert(text[after + j] == t[after + j]);
    }
    assert(again[stop] == tail[stop]);
    assert(char_from(again, ' ', 0) == stop) by {
        let other = char_from(again, ' ', 0);
        if other < stop {
            assert(again[other] == tail[other]);
        }
    }
    assert(again.take(stop) =~= tail.take(stop));
}

/// What closes a block is found right behind its lines.
proof fn lemma_end_is_found(pre: Seq<char>, block: Seq<char>, indent: Seq<char>, mark: Seq<char>, tail: Seq<char>)
    requires
        block.len() > 0,
        block.last() == '\n',
        !contains_text(block, indent + mark),
        !mark.contains('\n'),
        !indent.contains('\n'),
        occurs_at(tail, mark, 0),
    ensures
        find_from(pre + block + indent + tail, indent + mark, pre.len() as int) == pre.len() + block.len(),
{
    let t = pre + block + indent + tail;
    let close = indent + mark;
    let start = pre.len() as int;
    let end = start + block.len();
    assert(tail.subrange(0, mark.len() as int) == mark);
    assert(occurs_at(t, close, end)) by {
        assert(t.subrange(end, end + close.len()) =~= indent + tail.subrange(0, mark.len() as int));
    }
    assert forall|p: int| start <= p < end implies !occurs_at(t, close, p) by {
        if occurs_at(t, close, p) {
            let found = t.subrange(p, p + close.len());
            if p + close.len() <= end {
                assert(block.subrange(p - start, p - start + close.len()) =~= found);
                assert(occurs_at(block, close, p - start));
            } else {
                let j = end - 1 - p;
                assert(found[j] == t[end - 1]);
                assert(t[end - 1] == block.last());
                if j < indent.len() {
                    assert(close[j] == indent[j]);
                    assert(indent.contains(indent[j]));
                } else {
                    assert(close[j] == mark[j - indent.len()]);
                    assert(mark.contains(mark[j - indent.len()]));
                }
            }
        }
    }
    lemma_find_at(t, close, start, end);
}

/// The end marker of a block stands on one line.
proof fn lemma_end_mark_is_on_a_line(key: Seq<char>, w: DocWorld)
    requires
        block_of(key, w) is Some,
    ensures
        end_mark(key).len() > 0,
        !end_mark(key).contains('\n'),
{
    reveal_strlit("<!-- ordo:end ");
    reveal_strlit(" -->");
    lemma_known_key(key, w);
    let mark = end_mark(key);
    assert forall|j: int| 0 <= j < mark.len() implies #[trigger] mark[j] != '\n' by {
        if 14 <= j && j < 14 + key.len() {
            assert(mark[j] == key[j - 14]);
        }
    }
}

/// A filled block is found again where it was put.
proof fn lemma_block_is_found_again(text: Seq<char>, path: Seq<char>, w: DocWorld, tail: Seq<char>)
    requires
        first_block(text, path) is Some,
        first_block(text, path)->0 is Ok,
        ({
            let (open_end, at, indent, key) = first_block(text, path)->0->Ok_0;
            &&& block_of(key, w) is Some
            &&& !contains_text(block_of(key, w)->0, end_mark(key))
            &&& occurs_at(tail, end_mark(key), 0)
        }),
    ensures
        ({
            let (open_end, at, indent, key) = first_block(text, path)->0->Ok_0;
            let lines = lines_of(block_of(key, w)->0);
            let filled = indented(lines, indent, lines.len() as int);
            first_block(text.take(open_end) + "\n"@ + filled + indent + tail, path) == Some(
                Ok::<(int, int, Seq<char>, Seq<char>), Seq<char>>((open_end, open_end + 1 + filled.len(), indent, key)),
            )
        }),
{
    let (open_end, at, indent, key) = first_block(text, path)->0->Ok_0;
    let body = block_of(key, w)->0;
    let lines = lines_of(body);
    let filled = indented(lines, indent, lines.len() as int);
    let pre = text.take(open_end);
    let block = "\n"@ + filled;
    let t = pre + "\n"@ + filled + indent + tail;
    let mark = end_mark(key);
    reveal_strlit("\n");
    lemma_first_block(text, path);
    lemma_known_key(key, w);
    assert(t =~= pre + block + indent + tail);
    assert(pre =~= t.take(open_end));
    lemma_opening_stays(text, t, path);
    lemma_end_mark_is_on_a_line(key, w);
    assert forall|k: int| 0 <= k < lines.len() implies !(#[trigger] lines[k]).contains('\n') && !contains_text(
        lines[k],
        mark,
    ) by {
        lemma_line_is_inside(body, k, mark);
    }
    lemma_block_holds_no_end(lines, indent, mark, lines.len() as int);
    assert(closing(indent, key) =~= indent + mark);
    lemma_end_is_found(pre, block, indent, mark, tail);
}

/// What follows a block, but for the indent, starts with its end marker.
proof fn lemma_rest_starts_with_the_end(text: Seq<char>, path: Seq<char>)
    requires
        first_block(text, path) is Some,
        first_block(text, path)->0 is Ok,
    ensures
        ({
            let (open_end, at, indent, key) = first_block(text, path)->0->Ok_0;
            occurs_at(text.skip(at + indent.len()), end_mark(key), 0)
        }),
{
    let (open_end, at, indent, key) = first_block(text, path)->0->Ok_0;
    let rest = text.skip(at + indent.len());
    lemma_first_block(text, path);
    lemma_find_from(text, opening(), 0);
    let i = find_from(text, opening(), 0);
    lemma_find_from(text, "-->"@, i);
    reveal_strlit("-->");
    let close = closing(indent, key);
    lemma_find_from(text, close, open_end);
    assert(close =~= indent + end_mark(key));
    let found = text.subrange(at, at + close.len());
    assert(found == close);
    assert(rest.subrange(0, end_mark(key).len() as int) =~= found.skip(indent.len() as int));
    assert(close.skip(indent.len() as int) =~= end_mark(key));
}

/// A text that was filled in stays as it is when it is filled in again, unless a
/// block holds its own end marker.
pub proof fn law_filling_in_again_changes_nothing(text: Seq<char>, path: Seq<char>, w: DocWorld)
    requires
        spliced(text, path, w) is Ok,
        ({
            let keys = spliced(text, path, w)->Ok_0.1;
            forall|k: int|
                0 <= k < keys.len() ==> !contains_text(block_of(#[trigger] keys[k], w)->0, end_mark(keys[k]))
        }),
    ensures
        spliced(spliced(text, path, w)->Ok_0.0, path, w) == spliced(text, path, w),
    decreases text.len(),
{
    if let Some(Ok((open_end, at, indent, key))) = first_block(text, path) {
        lemma_first_block(text, path);
        let rest = text.skip(at + indent.len());
        let (t, keys) = spliced(text, path, w)->Ok_0;
        let (tail, more) = spliced(rest, path, w)->Ok_0;
        assert(keys =~= seq![key] + more);
        assert(keys[0] == key);
        assert forall|k: int| 0 <= k < more.len() implies !contains_text(
            block_of(#[trigger] more[k], w)->0,
            end_mark(more[k]),
        ) by {
            assert(keys[k + 1] == more[k]);
        }
        law_filling_in_again_changes_nothing(rest, path, w);
        lemma_rest_starts_with_the_end(text, path);
        lemma_an_end_marker_stays(rest, path, w, key);
        lemma_block_is_found_again(text, path, w, tail);
        let lines = lines_of(block_of(key, w)->0);
        let filled = indented(lines, indent, lines.len() as int);
        let head = text.take(open_end) + "\n"@ + filled + indent;
        reveal_strlit("\n");
        assert(t == head + tail);
        assert(t.take(open_end) =~= text.take(open_end));
        assert(t.skip(open_end + 1 + filled.len() + indent.len()) =~= tail);
    }
}

/// What stands outside the blocks of a text, in order: up to the end of each
/// opening, and from each end marker on.
pub open spec fn outside(rest: Seq<char>, path: Seq<char>) -> Seq<Seq<char>>
    decreases rest.len(),
{
    match first_block(rest, path) {
        Some(Ok((open_end, at, indent, _))) => {
            proof {
                lemma_first_block(rest, path);
            }
            seq![rest.take(open_end)] + outside(rest.skip(at + indent.len()), path)
        },
        _ => seq![rest],
    }
}

/// The keys of the blocks of a text, in order.
pub open spec fn block_keys(rest: Seq<char>, path: Seq<char>) -> Seq<Seq<char>>
    decreases rest.len(),
{
    match first_block(rest, path) {
        Some(Ok((_, at, indent, key))) => {
            proof {
                lemma_first_block(rest, path);
            }
            seq![key] + block_keys(rest.skip(at + indent.len()), path)
        },
        _ => Seq::empty(),
    }
}

/// Filling in the blocks of a text tells their keys in order.
pub proof fn law_the_keys_are_those_of_the_blocks(text: Seq<char>, path: Seq<char>, w: DocWorld)
    requires
        spliced(text, path, w) is Ok,
    ensures
        spliced(text, path, w)->Ok_0.1 == block_keys(text, path),
    decreases text.len(),
{
    if let Some(Ok((_, at, indent, _))) = first_block(text, path) {
        lemma_first_block(text, path);
        law_the_keys_are_those_of_the_blocks(text.skip(at + indent.len()), path, w);
    }
}

/// Filling in the blocks of a text leaves all that stands outside of them, the
/// markers too, and the blocks in their order, unless a block holds its own end
/// marker.
pub proof fn law_filling_in_keeps_what_is_outside(text: Seq<char>, path: Seq<char>, w: DocWorld)
    requires
        spliced(text, path, w) is Ok,
        ({
            let keys = spliced(text, path, w)->Ok_0.1;
            forall|k: int|
                0 <= k < keys.len() ==> !contains_text(block_of(#[trigger] keys[k], w)->0, end_mark(keys[k]))
        }),
    ensures
        outside(spliced(text, path, w)->Ok_0.0, path) == outside(text, path),
        block_keys(spliced(text, path, w)->Ok_0.0, path) == block_keys(text, path),
    decreases text.len(),
{
    if let Some(Ok((open_end, at, indent, key))) = first_block(text, path) {
        lemma_first_block(text, path);
        let rest = text.skip(at + indent.len());
        let (t, keys) = spliced(text, path, w)->Ok_0;
        let (tail, more) = spliced(rest, path, w)->Ok_0;
        assert(keys =~= seq![key] + more);
        assert(keys[0] == key);
        assert forall|k: int| 0 <= k < more.len() implies !contains_text(
            block_of(#[trigger] more[k], w)->0,
            end_mark(more[k]),
        ) by {
            assert(keys[k + 1] == more[k]);
        }
        law_filling_in_keeps_what_is_outside(rest, path, w);
        lemma_rest_starts_with_the_end(text, path);
        lemma_an_end_marker_stays(rest, path, w, key);
        lemma_block_is_found_again(text, path, w, tail);
        let lines = lines_of(block_of(key, w)->0);
        let filled = indented(lines, indent, lines.len() as int);
        let head = text.take(open_end) + "\n"@ + filled + indent;
        reveal_strlit("\n");
        assert(t == head + tail);
        assert(t.take(open_end) =~= text.take(open_end));
        assert(t.skip(open_end + 1 + filled.len() + indent.len()) =~= tail);
    }
}

} // verus!
