//! The tables of the documentation hold what they are tables of.

use crate::docs::{chords_for, engine_field, help_pairs, member_groups, rule_rows, wrapped, LanguageDoc};
use crate::keys::{chord_text, help_of, Bind};
use crate::text::{joined, replaced, texts};
use vstd::prelude::*;

verus! {

proof fn lemma_joined_pushed(v: Seq<Seq<char>>, x: Seq<char>, sep: Seq<char>)
    requires
        v.len() > 0,
    ensures
        joined(v.push(x), sep) == joined(v, sep) + sep + x,
{
    assert(v.push(x).drop_last() == v);
}

proof fn lemma_joined_updated(v: Seq<Seq<char>>, x: Seq<char>, sep: Seq<char>)
    requires
        v.len() > 0,
    ensures
        joined(v.update(v.len() - 1, v.last() + x), sep) == joined(v, sep) + x,
{
    let w = v.update(v.len() - 1, v.last() + x);
    if v.len() > 1 {
        assert(w.drop_last() == v.drop_last());
        assert(joined(v.drop_last(), sep) + sep + (v.last() + x) == joined(v.drop_last(), sep) + sep + v.last() + x);
    }
}

proof fn lemma_wrapped(items: Seq<Seq<char>>, width: int, n: int)
    requires
        1 <= n <= items.len(),
        forall|k: int| 0 <= k < items.len() ==> (#[trigger] items[k]).len() > 0,
    ensures
        ({
            let v = wrapped(items, width, n);
            let end = if n < items.len() {
                ","@
            } else {
                ""@
            };
            &&& v.len() > 0
            &&& v.last().len() > 0
            &&& joined(v, " "@) == joined(items.take(n), ", "@) + end
        }),
    decreases n,
{
    reveal_strlit("");
    reveal_strlit(",");
    reveal_strlit(" ");
    reveal_strlit(", ");
    assert(", "@ == ","@ + " "@);
    let end = if n < items.len() {
        ","@
    } else {
        ""@
    };
    let item = items[n - 1];
    assert(item.len() > 0);
    if n == 1 {
        assert(wrapped(items, width, 0) == seq![""@]);
        assert(wrapped(items, width, 1) == seq![""@].update(0, item + end));
        assert(items.take(1)[0] == item);
    } else {
        lemma_wrapped(items, width, n - 1);
        let before = wrapped(items, width, n - 1);
        let v = wrapped(items, width, n);
        assert(items.take(n) == items.take(n - 1).push(item));
        lemma_joined_pushed(items.take(n - 1), item, ", "@);
        let j = joined(items.take(n - 1), ", "@);
        assert(j + ","@ + " "@ + (item + end) == j + ", "@ + item + end);
        if before.last().len() + 1 + vstd::utf8::encode_utf8(item).len() + end.len() > width {
            assert(v == before.push(item + end));
            lemma_joined_pushed(before, item + end, " "@);
        } else {
            assert(v == before.update(before.len() - 1, before.last() + (" "@ + item + end)));
            lemma_joined_updated(before, " "@ + item + end, " "@);
            assert(j + ","@ + (" "@ + item + end) == j + ","@ + " "@ + (item + end));
        }
    }
}

/// Wrapping a list changes where its lines end and nothing else: read on one
/// line, it is the items with commas between them.
pub proof fn law_wrapping_changes_only_the_line_ends(items: Seq<Seq<char>>, width: int)
    requires
        items.len() > 0,
        forall|k: int| 0 <= k < items.len() ==> (#[trigger] items[k]).len() > 0,
    ensures
        joined(wrapped(items, width, items.len() as int), " "@) == joined(items, ", "@),
{
    lemma_wrapped(items, width, items.len() as int);
    assert(items.take(items.len() as int) == items);
    reveal_strlit("");
    let j = joined(items, ", "@);
    assert(j + ""@ == j);
}

proof fn lemma_pushed(v: Seq<Seq<char>>, x: Seq<char>, y: Seq<char>)
    ensures
        v.push(x).contains(y) <==> v.contains(y) || x == y,
{
    let w = v.push(x);
    assert(w[v.len() as int] == x);
    if v.contains(y) {
        let k = choose|k: int| 0 <= k < v.len() && v[k] == y;
        assert(w[k] == y);
    }
    if w.contains(y) {
        let k = choose|k: int| 0 <= k < w.len() && w[k] == y;
        assert(k == v.len() || v[k] == y);
    }
}

/// Every chord is told of what it does.
pub proof fn law_a_chord_is_told_of_what_it_does(binds: Seq<Bind>, k: int)
    requires
        0 <= k < binds.len(),
    ensures
        chords_for(binds, help_of(binds[k].2).1).contains("`"@ + chord_text(binds[k].0, binds[k].1) + "`"@),
    decreases binds.len(),
{
    let desc = help_of(binds[k].2).1;
    let label = "`"@ + chord_text(binds[k].0, binds[k].1) + "`"@;
    let before = chords_for(binds.drop_last(), desc);
    let last = "`"@ + chord_text(binds.last().0, binds.last().1) + "`"@;
    lemma_pushed(before, last, label);
    if k < binds.len() - 1 {
        assert(binds.drop_last()[k] == binds[k]);
        law_a_chord_is_told_of_what_it_does(binds.drop_last(), k);
    }
}

/// A chord is told of nothing that it does not do.
pub proof fn law_a_chord_is_told_of_nothing_else(binds: Seq<Bind>, desc: Seq<char>, label: Seq<char>)
    requires
        chords_for(binds, desc).contains(label),
    ensures
        exists|k: int|
            0 <= k < binds.len() && help_of((#[trigger] binds[k]).2).1 == desc && label == "`"@ + chord_text(
                binds[k].0,
                binds[k].1,
            ) + "`"@,
    decreases binds.len(),
{
    if binds.len() > 0 {
        let before = chords_for(binds.drop_last(), desc);
        let last = "`"@ + chord_text(binds.last().0, binds.last().1) + "`"@;
        lemma_pushed(before, last, label);
        if before.contains(label) {
            law_a_chord_is_told_of_nothing_else(binds.drop_last(), desc, label);
            let k = choose|k: int|
                0 <= k < binds.drop_last().len() && help_of((#[trigger] binds.drop_last()[k]).2).1 == desc && label
                    == "`"@ + chord_text(binds.drop_last()[k].0, binds.drop_last()[k].1) + "`"@;
            assert(binds.drop_last()[k] == binds[k]);
        } else {
            assert(binds.last() == binds[binds.len() - 1]);
        }
    }
}

/// Everything that a key does has its place in the table, once.
pub proof fn law_everything_a_key_does_is_told_once(binds: Seq<Bind>, k: int)
    requires
        0 <= k < binds.len(),
    ensures
        help_pairs(binds).contains(help_of(binds[k].2)),
        help_pairs(binds).no_duplicates(),
    decreases binds.len(),
{
    let before = help_pairs(binds.drop_last());
    let pair = help_of(binds.last().2);
    if binds.drop_last().len() > 0 {
        law_everything_a_key_does_is_told_once(binds.drop_last(), 0);
    }
    if !before.contains(pair) {
        assert(before.push(pair)[before.len() as int] == pair);
    }
    if k < binds.len() - 1 {
        assert(binds.drop_last()[k] == binds[k]);
        law_everything_a_key_does_is_told_once(binds.drop_last(), k);
        let w = help_of(binds[k].2);
        let i = choose|i: int| 0 <= i < before.len() && before[i] == w;
        assert(before.push(pair)[i] == w);
    }
}

/// The keys of a rule that are conditions stand in one table and those that are
/// not in the other.
pub proof fn law_a_rule_key_stands_in_its_table(
    v: Seq<(&'static str, bool, &'static str)>,
    n: int,
    k: int,
)
    requires
        0 <= k < n <= v.len(),
    ensures
        rule_rows(v, v[k].1, n).contains("| `"@ + v[k].0@ + "` | "@ + v[k].2@ + " |"@),
    decreases n,
{
    let row = "| `"@ + v[k].0@ + "` | "@ + v[k].2@ + " |"@;
    let last = "| `"@ + v[n - 1].0@ + "` | "@ + v[n - 1].2@ + " |"@;
    lemma_pushed(rule_rows(v, v[k].1, n - 1), last, row);
    if k < n - 1 {
        law_a_rule_key_stands_in_its_table(v, n - 1, k);
    }
}

/// Every key of a rule names a field of the engine but the one that names a
/// file.
pub proof fn law_a_rule_key_names_a_field(key: Seq<char>)
    ensures
        engine_field("query-file"@) is None,
        key != "query-file"@ && key != "noise-when"@ ==> engine_field(key) == Some(replaced(key, '-', "_"@)),
        engine_field("noise-when"@) == Some("noise"@),
{
    reveal_strlit("query-file");
    reveal_strlit("noise-when");
    assert("query-file"@[0] == 'q' && "noise-when"@[0] == 'n');
}

proof fn lemma_group_place(
    groups: Seq<crate::docs::MemberGroup>,
    members: Seq<Seq<char>>,
    from: int,
)
    requires
        0 <= from,
    ensures
        match crate::docs::group_place(groups, members, from) {
            Some(k) => from <= k < groups.len() && groups[k].members == members,
            None => forall|k: int| from <= k < groups.len() ==> (#[trigger] groups[k]).members != members,
        },
    decreases groups.len() - from,
{
    if from < groups.len() && groups[from].members != members {
        lemma_group_place(groups, members, from + 1);
    }
}

/// Every language that has members stands in the row of those members.
pub proof fn law_a_language_stands_with_its_members(v: Seq<LanguageDoc>, n: int, i: int)
    requires
        0 <= i < n <= v.len(),
        v[i].members@.len() > 0,
    ensures
        exists|g: int|
            0 <= g < member_groups(v, n).len() && (#[trigger] member_groups(v, n)[g]).members == texts(v[i].members@)
                && member_groups(v, n)[g].names.contains(v[i].name@),
    decreases n,
{
    let before = member_groups(v, n - 1);
    let members = texts(v[n - 1].members@);
    let name = v[n - 1].name@;
    let now = member_groups(v, n);
    lemma_group_place(before, members, 0);
    if i < n - 1 {
        law_a_language_stands_with_its_members(v, n - 1, i);
        let g = choose|g: int|
            0 <= g < before.len() && (#[trigger] before[g]).members == texts(v[i].members@) && before[g].names.contains(
                v[i].name@,
            );
        if members.len() > 0 {
            match crate::docs::group_place(before, members, 0) {
                Some(k) => {
                    lemma_pushed(before[k].names, name, v[i].name@);
                    assert(now[g].members == before[g].members);
                },
                None => {
                    assert(now[g] == before[g]);
                },
            }
        } else {
            assert(now[g] == before[g]);
        }
    } else {
        match crate::docs::group_place(before, members, 0) {
            Some(k) => {
                lemma_pushed(before[k].names, name, name);
                assert(now[k].members == members);
            },
            None => {
                assert(now[before.len() as int].names == seq![name]);
                assert(seq![name][0] == name);
            },
        }
    }
}

} // verus!
