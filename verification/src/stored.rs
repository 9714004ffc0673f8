//! What is kept between sessions: the reviewed marks and the notes, as JSON
//! objects keyed by sixteen hexadecimal digits.

use crate::json::{
    json_document, json_table, json_tree, parse_json, peel_json, write_numbers, write_texts, JsonNode, JsonTree,
};
use crate::text::{
    digit, digit_value, digits_value, hex16, numeral, padded_left, parse_number, parsed_number, repeated,
};
use crate::textmap::{entries_map, lemma_entries_has, lemma_entries_key, TextMap};
use std::collections::HashMap;
use vstd::prelude::*;

verus! {

broadcast use vstd::std_specs::hash::group_hash_axioms;

/// The name that a key is kept under.
pub open spec fn hex_name(k: u64) -> Seq<char> {
    padded_left(numeral(k as nat, 16), '0', 16)
}

/// The key that a name stands for.
pub open spec fn hex_key(s: Seq<char>) -> Option<int> {
    parsed_number(s, 16, u64::MAX as int)
}

pub proof fn lemma_hex_digits(n: nat)
    ensures
        digits_value(numeral(n, 16), 16) == Some(n as int),
        numeral(n, 16).len() > 0,
        numeral(n, 16)[0] != '+',
    decreases n,
{
    let s = numeral(n, 16);
    if n < 16 {
        assert(s == seq![digit(n)]);
        assert(s.drop_last() =~= Seq::<char>::empty());
        assert(digits_value(s.drop_last(), 16) == Some(0int));
        assert(digit_value(digit(n), 16) == Some(n as int));
    } else {
        lemma_hex_digits(n / 16);
        assert(s.drop_last() =~= numeral(n / 16, 16));
        assert(s[0] == numeral(n / 16, 16)[0]);
        assert(digit_value(digit(n % 16), 16) == Some((n % 16) as int));
    }
}

proof fn lemma_leading_zeros(k: nat, s: Seq<char>)
    ensures
        digits_value(repeated('0', k as int) + s, 16) == digits_value(s, 16),
    decreases s.len(), k,
{
    let t = repeated('0', k as int) + s;
    if s.len() > 0 {
        assert(t.drop_last() =~= repeated('0', k as int) + s.drop_last());
        assert(t.last() == s.last());
        lemma_leading_zeros(k, s.drop_last());
    } else if k > 0 {
        assert(t.drop_last() =~= repeated('0', k - 1) + s);
        assert(t.last() == '0');
        lemma_leading_zeros((k - 1) as nat, s);
    } else {
        assert(t =~= s);
    }
}

/// The name of a key stands for the key.
pub proof fn lemma_hex_round_trip(k: u64)
    ensures
        hex_key(hex_name(k)) == Some(k as int),
{
    lemma_hex_digits(k as nat);
    let n = numeral(k as nat, 16);
    let pad = if n.len() < 16 {
        (16 - n.len()) as nat
    } else {
        0
    };
    lemma_leading_zeros(pad, n);
    let s = hex_name(k);
    assert(s =~= repeated('0', pad as int) + n);
    if pad > 0 {
        assert(s[0] == '0');
    } else {
        assert(s[0] == n[0]);
    }
}

/// An object with the values of a map, each under the name of its key.
pub open spec fn hex_table(m: Map<u64, JsonTree>) -> Map<Seq<char>, JsonTree> {
    Map::new(
        |s: Seq<char>| hex_key(s) is Some && s == hex_name(hex_key(s)->0 as u64) && m.dom().contains(
            hex_key(s)->0 as u64,
        ),
        |s: Seq<char>| m[hex_key(s)->0 as u64],
    )
}

pub open spec fn mark_trees(m: Map<u64, u64>) -> Map<u64, JsonTree> {
    m.map_values(|n: u64| JsonTree::Whole(n))
}

pub open spec fn note_trees(m: Map<u64, String>) -> Map<u64, JsonTree> {
    m.map_values(|s: String| JsonTree::Text(s@))
}

/// Whether a map is what an object holds under names that stand for keys; of
/// names that stand for one key, any counts.
pub open spec fn keyed_by(t: Map<Seq<char>, JsonTree>, m: Map<u64, JsonTree>) -> bool {
    &&& forall|s: Seq<char>| #[trigger]
        t.dom().contains(s) && hex_key(s) is Some ==> m.dom().contains(hex_key(s)->0 as u64)
    &&& forall|k: u64| #[trigger]
        m.dom().contains(k) ==> exists|s: Seq<char>| #[trigger]
            t.dom().contains(s) && hex_key(s) == Some(k as int) && t[s] == m[k]
}

/// Whether every value of an object is a whole number.
pub open spec fn all_whole(t: Map<Seq<char>, JsonTree>) -> bool {
    forall|s: Seq<char>| #[trigger] t.dom().contains(s) ==> t[s] is Whole
}

/// Whether every value of an object is a text.
pub open spec fn all_text(t: Map<Seq<char>, JsonTree>) -> bool {
    forall|s: Seq<char>| #[trigger] t.dom().contains(s) ==> t[s] is Text
}

/// Whether marks are what a text keeps; a text that keeps none reads as none.
pub open spec fn marks_kept_in(text: Seq<char>, m: Map<u64, u64>) -> bool {
    match json_document(text) {
        Some(JsonTree::Table(t)) => if all_whole(t) {
            keyed_by(t, mark_trees(m))
        } else {
            m == Map::<u64, u64>::empty()
        },
        _ => m == Map::<u64, u64>::empty(),
    }
}

/// Whether notes are what a text keeps; a text that keeps none reads as none.
pub open spec fn notes_kept_in(text: Seq<char>, m: Map<u64, String>) -> bool {
    match json_document(text) {
        Some(JsonTree::Table(t)) => if all_text(t) {
            keyed_by(t, note_trees(m))
        } else {
            m == Map::<u64, String>::empty()
        },
        _ => m == Map::<u64, String>::empty(),
    }
}

/// What the first `i` entries of an object add to a map.
pub open spec fn entries_keyed(
    e: Seq<(String, serde_json::Value)>,
    t: Map<Seq<char>, JsonTree>,
    m: Map<u64, JsonTree>,
    i: int,
) -> bool {
    &&& forall|j: int|
        0 <= j < i && hex_key((#[trigger] e[j]).0@) is Some ==> m.dom().contains(hex_key(e[j].0@)->0 as u64)
    &&& forall|k: u64| #[trigger]
        m.dom().contains(k) ==> exists|j: int|
            0 <= j < i && hex_key((#[trigger] e[j]).0@) == Some(k as int) && t[e[j].0@] == m[k]
}

proof fn lemma_entries_keyed(
    e: Seq<(String, serde_json::Value)>,
    t: Map<Seq<char>, JsonTree>,
    m: Map<u64, JsonTree>,
    i: int,
    v: Option<(u64, JsonTree)>,
)
    requires
        0 <= i < e.len(),
        entries_keyed(e, t, m, i),
        match v {
            Some((k, x)) => hex_key(e[i].0@) == Some(k as int) && t[e[i].0@] == x,
            None => hex_key(e[i].0@) is None,
        },
    ensures
        entries_keyed(
            e,
            t,
            match v {
                Some((k, x)) => m.insert(k, x),
                None => m,
            },
            i + 1,
        ),
{
    let after = match v {
        Some((k, x)) => m.insert(k, x),
        None => m,
    };
    assert forall|k: u64| #[trigger] after.dom().contains(k) implies exists|j: int|
        0 <= j < i + 1 && hex_key((#[trigger] e[j]).0@) == Some(k as int) && t[e[j].0@] == after[k] by {
        if v is Some && (v->0).0 == k {
            assert(hex_key(e[i].0@) == Some(k as int));
        } else {
            assert(m.dom().contains(k));
            let j = choose|j: int| 0 <= j < i && hex_key((#[trigger] e[j]).0@) == Some(k as int) && t[e[j].0@] == m[k];
            assert(hex_key(e[j].0@) == Some(k as int));
        }
    }
}

proof fn lemma_all_entries(
    e: Seq<(String, serde_json::Value)>,
    t: Map<Seq<char>, JsonTree>,
    m: Map<u64, JsonTree>,
)
    requires
        t == json_table(entries_map(e)),
        entries_keyed(e, t, m, e.len() as int),
    ensures
        keyed_by(t, m),
{
    assert forall|s: Seq<char>| #[trigger] t.dom().contains(s) && hex_key(s) is Some implies m.dom().contains(
        hex_key(s)->0 as u64,
    ) by {
        lemma_entries_key(e, s);
        let j = choose|j: int| 0 <= j < e.len() && (#[trigger] e[j]).0@ == s;
        assert(hex_key(e[j].0@) is Some);
    }
    assert forall|k: u64| #[trigger] m.dom().contains(k) implies exists|s: Seq<char>| #[trigger]
        t.dom().contains(s) && hex_key(s) == Some(k as int) && t[s] == m[k] by {
        let j = choose|j: int|
            0 <= j < e.len() && hex_key((#[trigger] e[j]).0@) == Some(k as int) && t[e[j].0@] == m[k];
        lemma_entries_has(e, j);
        assert(t.dom().contains(e[j].0@));
    }
}

/// The marks that a text keeps.
pub fn load_marks(text: &str) -> (r: HashMap<u64, u64>)
    ensures
        marks_kept_in(text@, r@),
{
    let none: HashMap<u64, u64> = HashMap::new();
    let doc = match parse_json(text) {
        Some(v) => v,
        None => {
            return none;
        },
    };
    let table = match peel_json(&doc) {
        JsonNode::Table(m) => m,
        _ => {
            return none;
        },
    };
    let ghost t = json_table(table@);
    let mut out: HashMap<u64, u64> = HashMap::new();
    assert(mark_trees(out@) =~= Map::empty());
    for i in 0..table.entries.len()
        invariant
            t == json_table(table@),
            json_document(text@) == Some(JsonTree::Table(t)),
            none@ == Map::<u64, u64>::empty(),
            forall|j: int| 0 <= j < i ==> t[(#[trigger] table.entries@[j]).0@] is Whole,
            entries_keyed(table.entries@, t, mark_trees(out@), i as int),
    {
        let key = &table.entries[i].0;
        proof {
            lemma_entries_has(table.entries@, i as int);
        }
        if let Some(v) = table.get(key) {
            assert(t[key@] == json_tree(*v));
            match peel_json(v) {
                JsonNode::Whole(n) => {
                    let ghost had = mark_trees(out@);
                    match parse_number(key, 16, u64::MAX) {
                        Some(k) => {
                            proof {
                                lemma_entries_keyed(
                                    table.entries@,
                                    t,
                                    had,
                                    i as int,
                                    Some((k, JsonTree::Whole(n))),
                                );
                            }
                            out.insert(k, n);
                            assert(mark_trees(out@) =~= had.insert(k, JsonTree::Whole(n)));
                        },
                        None => {
                            proof {
                                lemma_entries_keyed(table.entries@, t, had, i as int, None);
                            }
                        },
                    }
                },
                _ => {
                    assert(t.dom().contains(key@));
                    return none;
                },
            }
        }
    }
    proof {
        assert forall|s: Seq<char>| #[trigger] t.dom().contains(s) implies t[s] is Whole by {
            lemma_entries_key(table.entries@, s);
            let j = choose|j: int| 0 <= j < table.entries@.len() && (#[trigger] table.entries@[j]).0@ == s;
            assert(t[table.entries@[j].0@] is Whole);
        }
        lemma_all_entries(table.entries@, t, mark_trees(out@));
    }
    out
}

/// The notes that a text keeps.
pub fn load_notes(text: &str) -> (r: HashMap<u64, String>)
    ensures
        notes_kept_in(text@, r@),
{
    let none: HashMap<u64, String> = HashMap::new();
    let doc = match parse_json(text) {
        Some(v) => v,
        None => {
            return none;
        },
    };
    let table = match peel_json(&doc) {
        JsonNode::Table(m) => m,
        _ => {
            return none;
        },
    };
    let ghost t = json_table(table@);
    let mut out: HashMap<u64, String> = HashMap::new();
    assert(note_trees(out@) =~= Map::empty());
    for i in 0..table.entries.len()
        invariant
            t == json_table(table@),
            json_document(text@) == Some(JsonTree::Table(t)),
            none@ == Map::<u64, String>::empty(),
            forall|j: int| 0 <= j < i ==> t[(#[trigger] table.entries@[j]).0@] is Text,
            entries_keyed(table.entries@, t, note_trees(out@), i as int),
    {
        let key = &table.entries[i].0;
        proof {
            lemma_entries_has(table.entries@, i as int);
        }
        if let Some(v) = table.get(key) {
            assert(t[key@] == json_tree(*v));
            match peel_json(v) {
                JsonNode::Text(s) => {
                    let ghost had = note_trees(out@);
                    match parse_number(key, 16, u64::MAX) {
                        Some(k) => {
                            let ghost x = JsonTree::Text(s@);
                            proof {
                                lemma_entries_keyed(table.entries@, t, had, i as int, Some((k, x)));
                            }
                            out.insert(k, s);
                            assert(note_trees(out@) =~= had.insert(k, x));
                        },
                        None => {
                            proof {
                                lemma_entries_keyed(table.entries@, t, had, i as int, None);
                            }
                        },
                    }
                },
                _ => {
                    assert(t.dom().contains(key@));
                    return none;
                },
            }
        }
    }
    proof {
        assert forall|s: Seq<char>| #[trigger] t.dom().contains(s) implies t[s] is Text by {
            lemma_entries_key(table.entries@, s);
            let j = choose|j: int| 0 <= j < table.entries@.len() && (#[trigger] table.entries@[j]).0@ == s;
            assert(t[table.entries@[j].0@] is Text);
        }
        lemma_all_entries(table.entries@, t, note_trees(out@));
    }
    out
}

/// Whether a named map holds the first `n` keys of a sequence, each under its
/// name.
pub open spec fn named_keys<V>(out: Map<Seq<char>, V>, m: Map<u64, V>, keys: Seq<u64>, n: int) -> bool {
    &&& forall|j: int|
        0 <= j < n ==> out.dom().contains(hex_name(#[trigger] keys[j])) && out[hex_name(keys[j])] == m[keys[j]]
    &&& forall|s: Seq<char>| #[trigger]
        out.dom().contains(s) ==> exists|j: int| 0 <= j < n && s == hex_name(#[trigger] keys[j])
}

proof fn lemma_named_keys<V>(out: Map<Seq<char>, V>, m: Map<u64, V>, keys: Seq<u64>, n: int)
    requires
        0 <= n < keys.len(),
        named_keys(out, m, keys, n),
    ensures
        named_keys(out.insert(hex_name(keys[n]), m[keys[n]]), m, keys, n + 1),
{
    let after = out.insert(hex_name(keys[n]), m[keys[n]]);
    assert forall|j: int| 0 <= j < n + 1 implies after.dom().contains(hex_name(#[trigger] keys[j])) && after[hex_name(
        keys[j],
    )] == m[keys[j]] by {
        lemma_hex_round_trip(keys[j]);
        lemma_hex_round_trip(keys[n]);
    }
    assert forall|s: Seq<char>| #[trigger] after.dom().contains(s) implies exists|j: int|
        0 <= j < n + 1 && s == hex_name(#[trigger] keys[j]) by {
        if s == hex_name(keys[n]) {
        } else {
            assert(out.dom().contains(s));
            let j = choose|j: int| 0 <= j < n && s == hex_name(#[trigger] keys[j]);
            assert(s == hex_name(keys[j]));
        }
    }
}

/// A map with every key under its name is the table of the map.
proof fn lemma_hex_table<V>(
    out: Map<Seq<char>, V>,
    m: Map<u64, V>,
    keys: Seq<u64>,
    tree: spec_fn(V) -> JsonTree,
)
    requires
        named_keys(out, m, keys, keys.len() as int),
        forall|k: u64| keys.contains(k) <==> m.dom().contains(k),
    ensures
        out.map_values(tree) == hex_table(m.map_values(tree)),
{
    let a = out.map_values(tree);
    let b = hex_table(m.map_values(tree));
    assert forall|s: Seq<char>| a.dom().contains(s) <==> b.dom().contains(s) by {
        if out.dom().contains(s) {
            let j = choose|j: int| 0 <= j < keys.len() && s == hex_name(#[trigger] keys[j]);
            lemma_hex_round_trip(keys[j]);
            assert(keys.contains(keys[j]));
        }
        if b.dom().contains(s) {
            let k = hex_key(s)->0 as u64;
            assert(keys.contains(k));
            let j = choose|j: int| 0 <= j < keys.len() && keys[j] == k;
            assert(out.dom().contains(hex_name(keys[j])));
        }
    }
    assert forall|s: Seq<char>| a.dom().contains(s) implies a[s] == b[s] by {
        let j = choose|j: int| 0 <= j < keys.len() && s == hex_name(#[trigger] keys[j]);
        lemma_hex_round_trip(keys[j]);
    }
    assert(a =~= b);
}

fn keys_of<V>(m: &HashMap<u64, V>) -> (r: Vec<u64>)
    ensures
        forall|k: u64| r@.contains(k) <==> m@.dom().contains(k),
{
    let mut out: Vec<u64> = Vec::new();
    for k in it: m.keys()
        invariant
            it.seq().unref().to_set() == m@.dom(),
            forall|j: int| 0 <= j < out@.len() ==> m@.contains_key(#[trigger] out@[j]),
            forall|i: int| 0 <= i < it.index() ==> out@.contains(*(#[trigger] it.seq()[i])),
    {
        let ghost had = out@;
        proof {
            assert(it.seq().unref()[it.index() as int] == *k);
            assert(it.seq().unref().contains(*k));
            assert(m@.contains_key(*k));
        }
        out.push(*k);
        assert(out@[had.len() as int] == *k);
        assert forall|x: u64| had.contains(x) implies out@.contains(x) by {
            let w = choose|w: int| 0 <= w < had.len() && had[w] == x;
            assert(out@[w] == x);
        }
    }
    assert forall|k: u64| out@.contains(k) <==> m@.dom().contains(k) by {
        if out@.contains(k) {
            let w = choose|w: int| 0 <= w < out@.len() && out@[w] == k;
            assert(m@.contains_key(out@[w]));
        }
    }
    out
}

/// The text that marks are kept as.
pub fn save_marks(marks: &HashMap<u64, u64>) -> (r: Option<String>)
    ensures
        r is Some && json_document(r->0@) == Some(JsonTree::Table(hex_table(mark_trees(marks@)))),
{
    let mut out: TextMap<u64> = TextMap::new();
    let keys = keys_of(marks);
    for i in 0..keys.len()
        invariant
            forall|k: u64| keys@.contains(k) <==> marks@.dom().contains(k),
            named_keys(out@, marks@, keys@, i as int),
    {
        let k: u64 = keys[i];
        proof {
            assert(keys@.contains(k));
            lemma_named_keys(out@, marks@, keys@, i as int);
        }
        if let Some(n) = marks.get(&k) {
            out.insert(hex16(k), *n);
        }
    }
    proof {
        let tree = |n: u64| JsonTree::Whole(n);
        lemma_hex_table(out@, marks@, keys@, tree);
        assert(out@.map_values(tree) =~= out@.map_values(|n: u64| JsonTree::Whole(n)));
        assert(marks@.map_values(tree) =~= mark_trees(marks@));
    }
    write_numbers(out)
}

/// The text that notes are kept as.
pub fn save_notes(notes: &HashMap<u64, String>) -> (r: Option<String>)
    ensures
        r is Some && json_document(r->0@) == Some(JsonTree::Table(hex_table(note_trees(notes@)))),
{
    let mut out: TextMap<String> = TextMap::new();
    let keys = keys_of(notes);
    for i in 0..keys.len()
        invariant
            forall|k: u64| keys@.contains(k) <==> notes@.dom().contains(k),
            named_keys(out@, notes@, keys@, i as int),
    {
        let k: u64 = keys[i];
        proof {
            assert(keys@.contains(k));
            lemma_named_keys(out@, notes@, keys@, i as int);
        }
        if let Some(s) = notes.get(&k) {
            out.insert(hex16(k), s.clone());
        }
    }
    proof {
        let tree = |s: String| JsonTree::Text(s@);
        lemma_hex_table(out@, notes@, keys@, tree);
        assert(out@.map_values(tree) =~= out@.map_values(|s: String| JsonTree::Text(s@)));
        assert(notes@.map_values(tree) =~= note_trees(notes@));
    }
    write_texts(out)
}

proof fn lemma_reads_back(m: Map<u64, JsonTree>, r: Map<u64, JsonTree>)
    requires
        keyed_by(hex_table(m), r),
    ensures
        r == m,
{
    let t = hex_table(m);
    assert forall|k: u64| r.dom().contains(k) <==> m.dom().contains(k) by {
        lemma_hex_round_trip(k);
        if m.dom().contains(k) {
            assert(t.dom().contains(hex_name(k)));
        }
        if r.dom().contains(k) {
            let s = choose|s: Seq<char>| #[trigger]
                t.dom().contains(s) && hex_key(s) == Some(k as int) && t[s] == r[k];
            assert(m.dom().contains(k));
        }
    }
    assert forall|k: u64| r.dom().contains(k) implies r[k] == m[k] by {
        let s = choose|s: Seq<char>| #[trigger]
            t.dom().contains(s) && hex_key(s) == Some(k as int) && t[s] == r[k];
        assert(t[s] == m[k]);
    }
    assert(r =~= m);
}

/// What is kept reads back: the marks that a text was made of are the marks that
/// it keeps.
pub proof fn law_marks_read_back(text: Seq<char>, m: Map<u64, u64>, r: Map<u64, u64>)
    requires
        json_document(text) == Some(JsonTree::Table(hex_table(mark_trees(m)))),
        marks_kept_in(text, r),
    ensures
        r == m,
{
    assert(all_whole(hex_table(mark_trees(m))));
    lemma_reads_back(mark_trees(m), mark_trees(r));
    assert forall|k: u64| r.dom().contains(k) <==> m.dom().contains(k) by {
        assert(mark_trees(r).dom().contains(k) <==> r.dom().contains(k));
        assert(mark_trees(m).dom().contains(k) <==> m.dom().contains(k));
    }
    assert forall|k: u64| r.dom().contains(k) implies r[k] == m[k] by {
        assert(mark_trees(r)[k] == JsonTree::Whole(r[k]));
        assert(mark_trees(m)[k] == JsonTree::Whole(m[k]));
    }
    assert(r =~= m);
}

/// What is kept reads back: the notes that a text was made of are the notes that
/// it keeps.
pub proof fn law_notes_read_back(text: Seq<char>, m: Map<u64, String>, r: Map<u64, String>)
    requires
        json_document(text) == Some(JsonTree::Table(hex_table(note_trees(m)))),
        notes_kept_in(text, r),
    ensures
        r.dom() == m.dom(),
        forall|k: u64| #[trigger] r.dom().contains(k) ==> r[k]@ == m[k]@,
{
    assert(all_text(hex_table(note_trees(m))));
    lemma_reads_back(note_trees(m), note_trees(r));
    assert forall|k: u64| #[trigger] r.dom().contains(k) <==> m.dom().contains(k) by {
        assert(note_trees(r).dom().contains(k) <==> r.dom().contains(k));
        assert(note_trees(m).dom().contains(k) <==> m.dom().contains(k));
    }
    assert(r.dom() =~= m.dom());
    assert forall|k: u64| #[trigger] r.dom().contains(k) implies r[k]@ == m[k]@ by {
        assert(note_trees(r)[k] == JsonTree::Text(r[k]@));
        assert(note_trees(m)[k] == JsonTree::Text(m[k]@));
    }
}

} // verus!
