//! A key does what it is bound to.

use crate::keys::{
    bound, chord_text, help_of, help_rows, norm, resolved, row_line, row_place, Bind, Category, HelpRowText, Key,
    KeyCode, KeyModifiers, Resolve,
};
use crate::text::{joined, padded_right};
use vstd::prelude::*;

verus! {

proof fn lemma_bound(binds: Seq<Bind>, prefix: Option<Key>, key: Key, k: int)
    requires
        0 <= k < binds.len(),
        binds[k].0 == prefix,
        binds[k].1 == key,
        forall|m: int| 0 <= m < k ==> !((#[trigger] binds[m]).0 == prefix && binds[m].1 == key),
    ensures
        bound(binds, prefix, key) == Some(binds[k].2),
    decreases binds.len(),
{
    if k < binds.len() - 1 {
        assert(binds.drop_last()[k] == binds[k]);
        assert forall|m: int| 0 <= m < k implies !((#[trigger] binds.drop_last()[m]).0 == prefix
            && binds.drop_last()[m].1 == key) by {
            assert(binds.drop_last()[m] == binds[m]);
        }
        lemma_bound(binds.drop_last(), prefix, key, k);
    } else {
        assert forall|m: int| 0 <= m < binds.drop_last().len() implies !((#[trigger] binds.drop_last()[m]).0 == prefix
            && binds.drop_last()[m].1 == key) by {
            assert(binds.drop_last()[m] == binds[m]);
        }
        lemma_unbound(binds.drop_last(), prefix, key);
    }
}

proof fn lemma_unbound(binds: Seq<Bind>, prefix: Option<Key>, key: Key)
    requires
        forall|m: int| 0 <= m < binds.len() ==> !((#[trigger] binds[m]).0 == prefix && binds[m].1 == key),
    ensures
        bound(binds, prefix, key) is None,
    decreases binds.len(),
{
    if binds.len() > 0 {
        assert(binds.last() == binds[binds.len() - 1]);
        assert forall|m: int| 0 <= m < binds.drop_last().len() implies !((#[trigger] binds.drop_last()[m]).0 == prefix
            && binds.drop_last()[m].1 == key) by {
            assert(binds.drop_last()[m] == binds[m]);
        }
        lemma_unbound(binds.drop_last(), prefix, key);
    }
}

/// A key that is bound alone, and starts no chord, does what it is bound to; of
/// two bindings of one key the first counts.
pub proof fn law_a_key_does_what_it_is_bound_to(binds: Seq<Bind>, key: Key, k: int)
    requires
        0 <= k < binds.len(),
        binds[k].0 is None,
        binds[k].1 == key,
        forall|m: int| 0 <= m < k ==> !((#[trigger] binds[m]).0 is None && binds[m].1 == key),
        forall|m: int| 0 <= m < binds.len() ==> (#[trigger] binds[m]).0 != Some(key),
    ensures
        resolved(binds, None, key) == Resolve::Act(binds[k].2),
{
    lemma_bound(binds, None, key, k);
}

/// A key that starts a chord waits for the key that ends it.
pub proof fn law_a_key_that_starts_a_chord_waits(binds: Seq<Bind>, key: Key, k: int)
    requires
        0 <= k < binds.len(),
        binds[k].0 == Some(key),
    ensures
        resolved(binds, None, key) == Resolve::Pending,
{
}

/// The key that ends a chord does what the chord is bound to.
pub proof fn law_a_chord_does_what_it_is_bound_to(binds: Seq<Bind>, first: Key, second: Key, k: int)
    requires
        0 <= k < binds.len(),
        binds[k].0 == Some(first),
        binds[k].1 == second,
        forall|m: int| 0 <= m < k ==> !((#[trigger] binds[m]).0 == Some(first) && binds[m].1 == second),
    ensures
        resolved(binds, Some(first), second) == Resolve::Act(binds[k].2),
{
    lemma_bound(binds, Some(first), second, k);
}

/// A key that nothing is bound to, alone or behind the key before it, does
/// nothing: behind the start of a chord a key does not count for itself.
pub proof fn law_a_key_that_is_not_bound_does_nothing(binds: Seq<Bind>, pending: Option<Key>, key: Key)
    requires
        forall|m: int| 0 <= m < binds.len() ==> !((#[trigger] binds[m]).0 == pending && binds[m].1 == key),
        pending is None ==> forall|m: int| 0 <= m < binds.len() ==> (#[trigger] binds[m]).0 != Some(key),
    ensures
        resolved(binds, pending, key) == Resolve::Miss,
{
    lemma_unbound(binds, pending, key);
}

/// A row of the help shows the chords and, behind them, what they do.
pub proof fn law_a_row_of_the_help_tells_what_its_keys_do(r: HelpRowText)
    ensures
        row_line(r).len() >= r.desc.len(),
        row_line(r).skip(row_line(r).len() - r.desc.len()) == r.desc,
        row_line(r).take(row_line(r).len() - r.desc.len()) == "  "@ + padded_right(joined(r.keys, ", "@), 16) + " "@,
{
    let l = row_line(r);
    assert(l.skip(l.len() - r.desc.len()) == r.desc);
    assert(l.take(l.len() - r.desc.len()) == "  "@ + padded_right(joined(r.keys, ", "@), 16) + " "@);
}

proof fn lemma_row_place(rows: Seq<HelpRowText>, category: Category, desc: Seq<char>, from: int)
    requires
        0 <= from <= rows.len(),
    ensures
        from <= row_place(rows, category, desc, from) <= rows.len(),
        row_place(rows, category, desc, from) < rows.len() ==> ({
            let at = row_place(rows, category, desc, from);
            rows[at].category == category && rows[at].desc == desc
        }),
    decreases rows.len() - from,
{
    if from < rows.len() && !(rows[from].category == category && rows[from].desc == desc) {
        lemma_row_place(rows, category, desc, from + 1);
    }
}

/// Every chord stands in the help, in the row of what it does.
pub proof fn law_every_chord_stands_in_the_help(binds: Seq<Bind>, k: int)
    requires
        0 <= k < binds.len(),
    ensures
        exists|i: int|
            0 <= i < help_rows(binds).len() && (#[trigger] help_rows(binds)[i]).category == help_of(binds[k].2).0
                && help_rows(binds)[i].desc == help_of(binds[k].2).1 && help_rows(binds)[i].keys.contains(
                chord_text(binds[k].0, binds[k].1),
            ),
    decreases binds.len(),
{
    let before = help_rows(binds.drop_last());
    let now = help_rows(binds);
    let b = binds.last();
    let (category, desc) = help_of(b.2);
    let label = chord_text(b.0, b.1);
    lemma_row_place(before, category, desc, 0);
    let at = row_place(before, category, desc, 0);
    if k < binds.len() - 1 {
        assert(binds.drop_last()[k] == binds[k]);
        law_every_chord_stands_in_the_help(binds.drop_last(), k);
        let own = chord_text(binds[k].0, binds[k].1);
        let i = choose|i: int|
            0 <= i < before.len() && (#[trigger] before[i]).category == help_of(binds[k].2).0 && before[i].desc
                == help_of(binds[k].2).1 && before[i].keys.contains(own);
        assert(0 <= i < now.len());
        assert(now[i].category == before[i].category && now[i].desc == before[i].desc);
        let x = choose|x: int| 0 <= x < before[i].keys.len() && before[i].keys[x] == own;
        assert(now[i].keys[x] == own);
    } else if at >= before.len() {
        assert(now[before.len() as int].keys == seq![label]);
        assert(seq![label][0] == label);
    } else if before[at].keys.contains(label) {
        assert(now[at] == before[at]);
    } else {
        assert(now[at].keys == before[at].keys.push(label));
        assert(before[at].keys.push(label)[before[at].keys.len() as int] == label);
    }
}

/// A character carries its own case, so that shift makes no difference to it; on
/// any other key every modifier counts.
pub proof fn law_shift_counts_on_keys_without_a_case(c: char, code: KeyCode, held: KeyModifiers, other: KeyModifiers)
    ensures
        norm(KeyCode::Char(c), held) == norm(KeyCode::Char(c), KeyModifiers { shift: !held.shift, ..held }),
        norm(KeyCode::Char(c), held).1.control == held.control,
        norm(KeyCode::Char(c), held).1.alt == held.alt,
        norm(KeyCode::Char(c), held).0 == KeyCode::Char(c),
        code !is Char && held != other ==> norm(code, held) != norm(code, other),
        code !is Char ==> norm(code, held) == (code, held),
{
}

} // verus!
