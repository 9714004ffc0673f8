//! What a hunk is known by across runs: the keys of its reviewed mark, of the
//! note on its symbol, and of its snapshot.

use crate::model::{symbol_texts, EdgeRef, FileLines, Item, Sources, Symbol, SymbolText};
use crate::paths::{join_path, joined_path};
use crate::text::{
    hex16, hex_number, join, joined, le, lemma_text_le_antisymmetric, lemma_text_le_reflexive, lemma_text_le_total,
    lemma_text_le_transitive, numeral, option_text, padded_left, same, text_le, texts, trim, trimmed,
};
use crate::textmap::TextMap;
use std::collections::HashMap;
use vstd::prelude::*;
use vstd::relations::{antisymmetric, reflexive, strongly_connected, total_ordering, transitive};

verus! {

broadcast use vstd::std_specs::hash::group_hash_axioms;

pub const FNV_OFFSET: u64 = 0xcbf29ce484222325;

pub const FNV_PRIME: u64 = 0x0000_0100_0000_01b3;

/// The 64-bit FNV-1a hash of some bytes.
pub open spec fn fnv(bytes: Seq<u8>) -> u64
    decreases bytes.len(),
{
    if bytes.len() == 0 {
        FNV_OFFSET
    } else {
        (fnv(bytes.drop_last()) ^ (bytes.last() as u64)).wrapping_mul(FNV_PRIME)
    }
}

pub fn fnv1a(bytes: &[u8]) -> (r: u64)
    ensures
        r == fnv(bytes@),
{
    let mut h: u64 = FNV_OFFSET;
    for i in 0..bytes.len()
        invariant
            h == fnv(bytes@.take(i as int)),
    {
        assert(bytes@.take(i + 1).drop_last() == bytes@.take(i as int));
        let b: u8 = bytes[i];
        h = (h ^ (b as u64)).wrapping_mul(FNV_PRIME);
    }
    assert(bytes@.take(bytes@.len() as int) == bytes@);
    h
}

/// The hash of a text's UTF-8 bytes.
pub open spec fn text_hash(s: Seq<char>) -> u64 {
    fnv(vstd::utf8::encode_utf8(s))
}

pub fn hash_text(s: &str) -> (r: u64)
    ensures
        r == text_hash(s@),
{
    fnv1a(s.as_bytes())
}

/// The order of symbols: by name, then kind, then scope; no scope comes first.
pub open spec fn symbol_le(a: SymbolText, b: SymbolText) -> bool {
    if a.name != b.name {
        text_le(a.name, b.name)
    } else if a.kind != b.kind {
        text_le(a.kind, b.kind)
    } else {
        match (a.scope, b.scope) {
            (None, _) => true,
            (Some(_), None) => false,
            (Some(x), Some(y)) => text_le(x, y),
        }
    }
}

pub open spec fn symbol_order() -> spec_fn(SymbolText, SymbolText) -> bool {
    |a: SymbolText, b: SymbolText| symbol_le(a, b)
}

proof fn lemma_symbol_le_transitive(a: SymbolText, b: SymbolText, c: SymbolText)
    requires
        symbol_le(a, b),
        symbol_le(b, c),
    ensures
        symbol_le(a, c),
{
    if a.name != b.name || b.name != c.name {
        if a.name == c.name {
            lemma_text_le_antisymmetric(a.name, b.name);
        }
        lemma_text_le_reflexive(a.name);
        lemma_text_le_reflexive(c.name);
        lemma_text_le_transitive(a.name, b.name, c.name);
    } else if a.kind != b.kind || b.kind != c.kind {
        if a.kind == c.kind {
            lemma_text_le_antisymmetric(a.kind, b.kind);
        }
        lemma_text_le_reflexive(a.kind);
        lemma_text_le_reflexive(c.kind);
        lemma_text_le_transitive(a.kind, b.kind, c.kind);
    } else if a.scope is Some && b.scope is Some && c.scope is Some {
        lemma_text_le_transitive(a.scope->0, b.scope->0, c.scope->0);
    }
}

proof fn lemma_symbol_le_total(a: SymbolText, b: SymbolText)
    ensures
        symbol_le(a, b) || symbol_le(b, a),
        symbol_le(a, b) && symbol_le(b, a) ==> a == b,
        symbol_le(a, a),
{
    lemma_text_le_total(a.name, b.name);
    lemma_text_le_total(a.kind, b.kind);
    if a.scope is Some && b.scope is Some {
        lemma_text_le_total(a.scope->0, b.scope->0);
    }
    if a.scope is Some {
        lemma_text_le_reflexive(a.scope->0);
    }
    if symbol_le(a, b) && symbol_le(b, a) {
        if a.name != b.name {
            lemma_text_le_antisymmetric(a.name, b.name);
        }
        if a.kind != b.kind {
            lemma_text_le_antisymmetric(a.kind, b.kind);
        }
        if a.scope is Some && b.scope is Some {
            lemma_text_le_antisymmetric(a.scope->0, b.scope->0);
        }
    }
}

proof fn lemma_symbol_order_total()
    ensures
        total_ordering(symbol_order()),
{
    let r = symbol_order();
    assert forall|a: SymbolText| #[trigger] r(a, a) by {
        lemma_symbol_le_total(a, a);
    }
    assert forall|a: SymbolText, b: SymbolText| #[trigger] r(a, b) && #[trigger] r(b, a) implies a == b by {
        lemma_symbol_le_total(a, b);
    }
    assert forall|a: SymbolText, b: SymbolText, c: SymbolText| #[trigger]
        r(a, b) && #[trigger] r(b, c) implies r(a, c) by {
        lemma_symbol_le_transitive(a, b, c);
    }
    assert forall|a: SymbolText, b: SymbolText| #[trigger] r(a, b) || #[trigger] r(b, a) by {
        lemma_symbol_le_total(a, b);
    }
    assert(reflexive(r));
    assert(antisymmetric(r));
    assert(transitive(r));
    assert(strongly_connected(r));
}

fn symbol_before(a: &Symbol, b: &Symbol) -> (r: bool)
    ensures
        r == symbol_le(a.text(), b.text()),
{
    if !same(&a.name, &b.name) {
        le(&a.name, &b.name)
    } else if !same(&a.kind, &b.kind) {
        le(&a.kind, &b.kind)
    } else {
        match (&a.scope, &b.scope) {
            (None, _) => true,
            (Some(_), None) => false,
            (Some(x), Some(y)) => le(x, y),
        }
    }
}

fn sort_symbols(v: &[Symbol]) -> (r: Vec<Symbol>)
    ensures
        symbol_texts(r@) == symbol_texts(v@).sort_by(symbol_order()),
{
    let mut r: Vec<Symbol> = Vec::new();
    let ghost vs = symbol_texts(v@);
    let n = v.len();
    assert(vs.take(0) == symbol_texts(r@));
    for i in 0..n
        invariant
            n == v@.len(),
            vs == symbol_texts(v@),
            forall|a: int, b: int|
                0 <= a <= b < r@.len() ==> symbol_le(
                    (#[trigger] symbol_texts(r@)[a]),
                    (#[trigger] symbol_texts(r@)[b]),
                ),
            symbol_texts(r@).to_multiset() == vs.take(i as int).to_multiset(),
    {
        let mut k: usize = r.len();
        let ghost x = v@[i as int].text();
        while k > 0 && !symbol_before(&r[k - 1], &v[i])
            invariant
                k <= r@.len(),
                i < v@.len(),
                x == v@[i as int].text(),
                forall|j: int| k <= j < r@.len() ==> !symbol_le(#[trigger] symbol_texts(r@)[j], x),
            decreases k,
        {
            assert(symbol_texts(r@)[k - 1] == r@[k - 1].text());
            k = k - 1;
        }
        let ghost before = symbol_texts(r@);
        assert(k > 0 ==> before[k - 1] == r@[k - 1].text());
        assert(k > 0 ==> symbol_le(before[k - 1], x));
        r.insert(k, v[i].copied());
        proof {
            let after = symbol_texts(r@);
            assert(after == before.insert(k as int, x));
            vstd::seq_lib::to_multiset_insert(before, k as int, x);
            assert(vs.take(i + 1) == vs.take(i as int).push(x));
            broadcast use vstd::seq_lib::group_to_multiset_ensures;

            assert forall|a: int, b: int| 0 <= a <= b < after.len() implies symbol_le(
                #[trigger] after[a],
                #[trigger] after[b],
            ) by {
                lemma_symbol_le_total(after[a], after[b]);
                if a == b {
                } else if b < k {
                    assert(symbol_le(before[a], before[b]));
                } else if a > k {
                    assert(symbol_le(before[a - 1], before[b - 1]));
                } else if a == k {
                    assert(!symbol_le(before[b - 1], x));
                    lemma_symbol_le_total(before[b - 1], x);
                } else {
                    assert(symbol_le(before[k - 1], x));
                    assert(symbol_le(before[a], before[k - 1]));
                    lemma_symbol_le_transitive(before[a], before[k - 1], x);
                    if b > k {
                        assert(!symbol_le(before[b - 1], x));
                        lemma_symbol_le_total(before[b - 1], x);
                        lemma_symbol_le_transitive(before[a], x, before[b - 1]);
                    }
                }
            }
        }
    }
    proof {
        assert(vs.take(vs.len() as int) == vs);
        lemma_symbol_order_total();
        vs.lemma_sort_by_ensures(symbol_order());
        let s = symbol_texts(r@);
        assert(vstd::relations::sorted_by(s, symbol_order())) by {
            assert forall|a: int, b: int| 0 <= a < b < s.len() implies (symbol_order())(s[a], s[b]) by {
                assert(symbol_le(s[a], s[b]));
            }
        }
        vstd::seq_lib::lemma_sorted_unique(s, vs.sort_by(symbol_order()), symbol_order());
    }
    r
}

/// One symbol in an identity.
pub open spec fn symbol_field(s: SymbolText) -> Seq<char> {
    s.name + "\u{1f}"@ + s.kind + "\u{1f}"@ + match s.scope {
        Some(x) => x,
        None => ""@,
    }
}

/// Name, kind and scope of each symbol, in an order of their own.
pub open spec fn identity_of(symbols: Seq<SymbolText>) -> Seq<char> {
    let sorted = symbols.sort_by(symbol_order());
    joined(Seq::new(sorted.len(), |i: int| symbol_field(sorted[i])), "\u{1e}"@)
}

pub fn symbols_identity(symbols: &[Symbol]) -> (r: String)
    ensures
        r@ == identity_of(symbol_texts(symbols@)),
{
    let sorted = sort_symbols(symbols);
    let ghost st = symbol_texts(sorted@);
    let ghost want = Seq::new(st.len(), |i: int| symbol_field(st[i]));
    let mut fields: Vec<String> = Vec::new();
    for i in 0..sorted.len()
        invariant
            st == symbol_texts(sorted@),
            want == Seq::new(st.len(), |i: int| symbol_field(st[i])),
            texts(fields@) == want.take(i as int),
    {
        let s = &sorted[i];
        let scope = match &s.scope {
            Some(x) => x.clone(),
            None => "".to_owned(),
        };
        let field = s.name.clone().concat("\u{1f}").concat(&s.kind).concat("\u{1f}").concat(&scope);
        let ghost before = texts(fields@);
        fields.push(field);
        assert(texts(fields@) == before.push(field@));
        assert(want.take(i + 1) == want.take(i as int).push(want[i as int]));
    }
    assert(want.take(want.len() as int) == want);
    join(&fields, "\u{1e}")
}

/// The order in which symbols are listed does not change what they identify.
pub proof fn law_identity_is_free_of_order(a: Seq<SymbolText>, b: Seq<SymbolText>)
    requires
        a.to_multiset() == b.to_multiset(),
    ensures
        identity_of(a) == identity_of(b),
{
    lemma_symbol_order_total();
    a.lemma_sort_by_ensures(symbol_order());
    b.lemma_sort_by_ensures(symbol_order());
    vstd::seq_lib::lemma_sorted_unique(
        a.sort_by(symbol_order()),
        b.sort_by(symbol_order()),
        symbol_order(),
    );
}

/// Joined texts that do not hold what joins them are told apart.
proof fn lemma_joined_tells_apart(a: Seq<Seq<char>>, b: Seq<Seq<char>>, c: char)
    requires
        a.len() > 0,
        b.len() > 0,
        forall|i: int| 0 <= i < a.len() ==> !(#[trigger] a[i]).contains(c),
        forall|i: int| 0 <= i < b.len() ==> !(#[trigger] b[i]).contains(c),
        joined(a, seq![c]) == joined(b, seq![c]),
    ensures
        a == b,
    decreases a.len(),
{
    let x = joined(a, seq![c]);
    let sep = seq![c];
    if a.len() == 1 && b.len() == 1 {
        assert(a =~= b);
    } else if a.len() == 1 {
        let before = joined(b.drop_last(), sep);
        assert(x == before + sep + b.last());
        assert(x[before.len() as int] == c);
        assert(a[0].contains(c));
    } else if b.len() == 1 {
        let before = joined(a.drop_last(), sep);
        assert(x == before + sep + a.last());
        assert(x[before.len() as int] == c);
        assert(b[0].contains(c));
    } else {
        let ja = joined(a.drop_last(), sep);
        let jb = joined(b.drop_last(), sep);
        let la = a.last();
        let lb = b.last();
        assert(x == ja + sep + la);
        assert(x == jb + sep + lb);
        assert(ja.len() == jb.len()) by {
            if ja.len() < jb.len() {
                let k = jb.len() - ja.len() - 1;
                assert((ja + sep + la)[jb.len() as int] == la[k]);
                assert((jb + sep + lb)[jb.len() as int] == c);
                assert(a[a.len() - 1].contains(c));
            } else if jb.len() < ja.len() {
                let k = ja.len() - jb.len() - 1;
                assert((jb + sep + lb)[ja.len() as int] == lb[k]);
                assert((ja + sep + la)[ja.len() as int] == c);
                assert(b[b.len() - 1].contains(c));
            }
        }
        assert(ja =~= x.take(ja.len() as int));
        assert(jb =~= x.take(jb.len() as int));
        assert(la =~= x.skip(ja.len() as int + 1));
        assert(lb =~= x.skip(jb.len() as int + 1));
        assert forall|i: int| 0 <= i < a.drop_last().len() implies !(#[trigger] a.drop_last()[i]).contains(c) by {
            assert(!a[i].contains(c));
        }
        assert forall|i: int| 0 <= i < b.drop_last().len() implies !(#[trigger] b.drop_last()[i]).contains(c) by {
            assert(!b[i].contains(c));
        }
        lemma_joined_tells_apart(a.drop_last(), b.drop_last(), c);
        assert(a =~= a.drop_last().push(la));
        assert(b =~= b.drop_last().push(lb));
    }
}

/// Whether a text holds neither of the characters that part an identity.
pub open spec fn undivided(s: Seq<char>) -> bool {
    !s.contains('\u{1e}') && !s.contains('\u{1f}')
}

/// Whether a symbol can be told from every other by its part of an identity: a
/// scope without a name reads as none.
pub open spec fn plain_symbol(s: SymbolText) -> bool {
    &&& undivided(s.name)
    &&& undivided(s.kind)
    &&& s.scope matches Some(x) ==> undivided(x) && x.len() > 0
}

/// The parts of a symbol's field.
pub open spec fn field_parts(s: SymbolText) -> Seq<Seq<char>> {
    seq![
        s.name,
        s.kind,
        match s.scope {
            Some(x) => x,
            None => Seq::empty(),
        },
    ]
}

proof fn lemma_field_parts(s: SymbolText)
    requires
        plain_symbol(s),
    ensures
        symbol_field(s) == joined(field_parts(s), seq!['\u{1f}']),
        symbol_field(s).len() > 0,
        !symbol_field(s).contains('\u{1e}'),
        forall|i: int| 0 <= i < 3 ==> !(#[trigger] field_parts(s)[i]).contains('\u{1f}'),
{
    reveal_strlit("\u{1f}");
    reveal_strlit("");
    reveal_with_fuel(joined, 4);
    let p = field_parts(s);
    let sep = seq!['\u{1f}'];
    assert(""@ =~= Seq::<char>::empty());
    assert("\u{1f}"@ =~= sep);
    assert(p.drop_last() =~= seq![p[0], p[1]]);
    assert(p.drop_last().drop_last() =~= seq![p[0]]);
    let f = symbol_field(s);
    assert(f =~= p[0] + sep + p[1] + sep + p[2]);
    assert forall|k: int| 0 <= k < f.len() implies f[k] != '\u{1e}' by {
        let n = p[0].len() as int;
        let m = p[1].len() as int;
        if k < n {
            assert(p[0].contains(p[0][k]));
        } else if n < k && k < n + 1 + m {
            assert(f[k] == p[1][k - n - 1]);
            assert(p[1].contains(p[1][k - n - 1]));
        } else if k > n + 1 + m {
            assert(f[k] == p[2][k - n - m - 2]);
            assert(p[2].contains(p[2][k - n - m - 2]));
        }
    }
}

proof fn lemma_field_tells_apart(a: SymbolText, b: SymbolText)
    requires
        plain_symbol(a),
        plain_symbol(b),
        symbol_field(a) == symbol_field(b),
    ensures
        a == b,
{
    lemma_field_parts(a);
    lemma_field_parts(b);
    lemma_joined_tells_apart(field_parts(a), field_parts(b), '\u{1f}');
    assert(field_parts(a)[0] == field_parts(b)[0]);
    assert(field_parts(a)[1] == field_parts(b)[1]);
    assert(field_parts(a)[2] == field_parts(b)[2]);
}

/// Name, kind and scope together identify symbols: two lists have one identity
/// exactly if they hold the same symbols, each as often, in whatever order.
pub proof fn law_identity_tells_symbols_apart(a: Seq<SymbolText>, b: Seq<SymbolText>)
    requires
        forall|i: int| 0 <= i < a.len() ==> plain_symbol(#[trigger] a[i]),
        forall|i: int| 0 <= i < b.len() ==> plain_symbol(#[trigger] b[i]),
    ensures
        identity_of(a) == identity_of(b) <==> a.to_multiset() == b.to_multiset(),
{
    if a.to_multiset() == b.to_multiset() {
        law_identity_is_free_of_order(a, b);
    }
    if identity_of(a) == identity_of(b) {
        lemma_symbol_order_total();
        a.lemma_sort_by_ensures(symbol_order());
        b.lemma_sort_by_ensures(symbol_order());
        let sa = a.sort_by(symbol_order());
        let sb = b.sort_by(symbol_order());
        lemma_sorted_plain(a, sa);
        lemma_sorted_plain(b, sb);
        let fa = Seq::new(sa.len(), |i: int| symbol_field(sa[i]));
        let fb = Seq::new(sb.len(), |i: int| symbol_field(sb[i]));
        reveal_strlit("\u{1e}");
        assert("\u{1e}"@ =~= seq!['\u{1e}']);
        assert forall|i: int| 0 <= i < fa.len() implies !(#[trigger] fa[i]).contains('\u{1e}') && fa[i].len() > 0 by {
            lemma_field_parts(sa[i]);
        }
        assert forall|i: int| 0 <= i < fb.len() implies !(#[trigger] fb[i]).contains('\u{1e}') && fb[i].len() > 0 by {
            lemma_field_parts(sb[i]);
        }
        if fa.len() > 0 && fb.len() > 0 {
            lemma_joined_tells_apart(fa, fb, '\u{1e}');
            assert forall|i: int| 0 <= i < sa.len() implies sa[i] == sb[i] by {
                assert(fa[i] == fb[i]);
                lemma_field_tells_apart(sa[i], sb[i]);
            }
        } else {
            lemma_joined_is_filled(fa, '\u{1e}');
            lemma_joined_is_filled(fb, '\u{1e}');
        }
        assert(sa =~= sb);
    }
}

/// Texts that are not empty are not empty when they are joined.
proof fn lemma_joined_is_filled(parts: Seq<Seq<char>>, c: char)
    requires
        forall|i: int| 0 <= i < parts.len() ==> (#[trigger] parts[i]).len() > 0,
    ensures
        joined(parts, seq![c]).len() > 0 <==> parts.len() > 0,
{
}

proof fn lemma_sorted_plain(a: Seq<SymbolText>, sorted: Seq<SymbolText>)
    requires
        a.to_multiset() == sorted.to_multiset(),
        forall|i: int| 0 <= i < a.len() ==> plain_symbol(#[trigger] a[i]),
    ensures
        forall|i: int| 0 <= i < sorted.len() ==> plain_symbol(#[trigger] sorted[i]),
{
    broadcast use vstd::seq_lib::group_to_multiset_ensures;

    assert forall|i: int| 0 <= i < sorted.len() implies plain_symbol(#[trigger] sorted[i]) by {
        assert(sorted.contains(sorted[i]));
        assert(sorted.to_multiset().count(sorted[i]) > 0);
        assert(a.to_multiset().count(sorted[i]) > 0);
        assert(a.contains(sorted[i]));
    }
}

/// What a hunk is known by: its symbols, or else what encloses it.
pub open spec fn identity_key(item: Item) -> Seq<char> {
    if item.symbols@.len() > 0 {
        identity_of(symbol_texts(item.symbols@))
    } else {
        match item.enclosing {
            Some(e) => e@,
            None => ""@,
        }
    }
}

pub fn symbol_identity_key(item: &Item) -> (r: String)
    ensures
        r@ == identity_key(*item),
{
    if item.symbols.len() > 0 {
        symbols_identity(&item.symbols)
    } else {
        match &item.enclosing {
            Some(e) => e.clone(),
            None => "".to_owned(),
        }
    }
}

/// Each line with its line end.
pub open spec fn lines_text(lines: Seq<Seq<char>>) -> Seq<char>
    decreases lines.len(),
{
    if lines.len() == 0 {
        Seq::empty()
    } else {
        lines_text(lines.drop_last()) + lines.last() + seq!['\n']
    }
}

/// The lines of a range, counted from 1 and both ends included; none where the
/// range is empty or not in the file.
pub open spec fn range_lines(lines: Seq<Seq<char>>, first: int, last: int) -> Seq<Seq<char>> {
    if 1 <= first <= last <= lines.len() {
        lines.subrange(first - 1, last)
    } else {
        Seq::empty()
    }
}

/// What a hunk says on both sides.
pub open spec fn content_text(item: Item, file: FileLines) -> Seq<char> {
    lines_text(range_lines(texts(file.0@), item.old_range[0] as int, item.old_range[1] as int)) + seq!['\0']
        + lines_text(range_lines(texts(file.1@), item.new_range[0] as int, item.new_range[1] as int))
}

/// The hash of what a hunk says on both sides, where its file is at hand.
pub open spec fn content_hash(item: Item, sources: Map<Seq<char>, FileLines>) -> Option<u64> {
    if sources.dom().contains(item.path@) {
        Some(text_hash(content_text(item, sources[item.path@])))
    } else {
        None
    }
}

fn push_range(buf: &mut String, lines: &Vec<String>, first: usize, last: usize)
    ensures
        final(buf)@ == old(buf)@ + lines_text(
            range_lines(texts(lines@), first as int, last as int),
        ),
{
    let ghost before = buf@;
    let ghost all = range_lines(texts(lines@), first as int, last as int);
    if first >= 1 && first <= last && last <= lines.len() {
        assert(all.take(0) == Seq::<Seq<char>>::empty());
        assert(before + lines_text(all.take(0)) == before);
        for i in 0..(last - first + 1)
            invariant
                1 <= first <= last <= lines@.len(),
                all == texts(lines@).subrange(first - 1, last as int),
                buf@ == before + lines_text(all.take(i as int)),
        {
            assert(all.take(i + 1).drop_last() == all.take(i as int));
            assert(all.take(i + 1).last() == lines@[first - 1 + i]@);
            let ghost so_far = buf@;
            buf.append(&lines[first - 1 + i]);
            buf.push('\n');
            assert(buf@ == so_far + lines@[first - 1 + i]@ + seq!['\n']);
            assert(buf@ == before + lines_text(all.take(i + 1)));
        }
        assert(all.take(last - first + 1) == all);
    } else {
        assert(before + lines_text(all) == before);
    }
}

pub fn hunk_content_hash(item: &Item, sources: &Sources) -> (r: Option<u64>)
    ensures
        r == content_hash(*item, sources@),
{
    match sources.get(&item.path) {
        None => None,
        Some(file) => {
            let mut buf = String::new();
            push_range(&mut buf, &file.0, item.old_range[0], item.old_range[1]);
            let ghost old_side = buf@;
            buf.push('\0');
            push_range(&mut buf, &file.1, item.new_range[0], item.new_range[1]);
            assert(old_side.push('\0') == old_side + seq!['\0']);
            assert(buf@ == content_text(*item, *file));
            Some(hash_text(&buf))
        },
    }
}

/// What a reviewed mark is keyed by: revision, path, identity and content.
pub open spec fn mark_text(rev: Seq<char>, path: Seq<char>, identity: Seq<char>, content: u64) -> Seq<char> {
    rev + "\0"@ + path + "\0"@ + identity + "\0"@ + numeral(content as nat, 16)
}

/// The key of a reviewed mark, where the hunk's file is at hand.
pub open spec fn mark_of(rev: Seq<char>, item: Item, sources: Map<Seq<char>, FileLines>) -> Option<u64> {
    match content_hash(item, sources) {
        Some(h) => Some(text_hash(mark_text(rev, item.path@, identity_key(item), h))),
        None => None,
    }
}

pub fn mark_key(rev: &str, item: &Item, sources: &Sources) -> (r: Option<u64>)
    ensures
        r == mark_of(rev@, *item, sources@),
{
    match hunk_content_hash(item, sources) {
        None => None,
        Some(h) => {
            let combined = rev.to_owned().concat("\0").concat(&item.path).concat("\0").concat(
                &symbol_identity_key(item),
            ).concat("\0").concat(&hex_number(h));
            Some(hash_text(&combined))
        },
    }
}

/// Whether two hunks say the same: their files hold the same lines in their
/// ranges, wherever those are.
pub open spec fn same_content(a: Item, file_a: FileLines, b: Item, file_b: FileLines) -> bool {
    &&& range_lines(texts(file_a.0@), a.old_range[0] as int, a.old_range[1] as int) == range_lines(
        texts(file_b.0@),
        b.old_range[0] as int,
        b.old_range[1] as int,
    )
    &&& range_lines(texts(file_a.1@), a.new_range[0] as int, a.new_range[1] as int) == range_lines(
        texts(file_b.1@),
        b.new_range[0] as int,
        b.new_range[1] as int,
    )
}

/// A hunk that only moved keeps its mark: neither where its lines are nor the
/// order of its symbols matters.
pub proof fn law_a_hunk_that_only_moved_keeps_its_mark(
    rev: Seq<char>,
    a: Item,
    b: Item,
    sources_a: Map<Seq<char>, FileLines>,
    sources_b: Map<Seq<char>, FileLines>,
)
    requires
        a.path@ == b.path@,
        sources_a.dom().contains(a.path@) == sources_b.dom().contains(b.path@),
        sources_a.dom().contains(a.path@) ==> same_content(a, sources_a[a.path@], b, sources_b[b.path@]),
        symbol_texts(a.symbols@).to_multiset() == symbol_texts(b.symbols@).to_multiset(),
        a.symbols@.len() == 0 ==> option_text(a.enclosing) == option_text(b.enclosing),
    ensures
        mark_of(rev, a, sources_a) == mark_of(rev, b, sources_b),
{
    broadcast use vstd::seq_lib::group_to_multiset_ensures;

    law_identity_is_free_of_order(symbol_texts(a.symbols@), symbol_texts(b.symbols@));
    assert(symbol_texts(a.symbols@).len() == symbol_texts(a.symbols@).to_multiset().len());
    assert(symbol_texts(b.symbols@).len() == symbol_texts(b.symbols@).to_multiset().len());
    assert(a.symbols@.len() == b.symbols@.len());
    assert(identity_key(a) == identity_key(b));
}

/// The key of the note on a hunk's symbols; none for a hunk without any.
pub open spec fn note_of(symbols: Seq<SymbolText>) -> Option<u64> {
    if symbols.len() == 0 {
        None
    } else {
        Some(text_hash(identity_of(symbols)))
    }
}

pub fn note_key(item: &Item) -> (r: Option<u64>)
    ensures
        r == note_of(symbol_texts(item.symbols@)),
{
    if item.symbols.len() == 0 {
        None
    } else {
        Some(hash_text(&symbols_identity(&item.symbols)))
    }
}

/// The symbols under another name.
pub open spec fn renamed(symbols: Seq<SymbolText>, name: Seq<char>) -> Seq<SymbolText> {
    Seq::new(symbols.len(), |i: int| SymbolText { name, ..symbols[i] })
}

/// The key that the note on a hunk's symbols would have under another name.
pub fn note_key_named(item: &Item, old_name: &str) -> (r: Option<u64>)
    ensures
        r == note_of(renamed(symbol_texts(item.symbols@), old_name@)),
{
    if item.symbols.len() == 0 {
        return None;
    }
    let mut under: Vec<Symbol> = Vec::new();
    let ghost want = renamed(symbol_texts(item.symbols@), old_name@);
    for i in 0..item.symbols.len()
        invariant
            want == renamed(symbol_texts(item.symbols@), old_name@),
            symbol_texts(under@) == want.take(i as int),
    {
        let s = &item.symbols[i];
        let ghost before = symbol_texts(under@);
        under.push(
            Symbol { name: old_name.to_owned(), kind: s.kind.clone(), scope: s.scope.clone() },
        );
        assert(symbol_texts(under@) == before.push(want[i as int]));
        assert(want.take(i + 1) == want.take(i as int).push(want[i as int]));
    }
    assert(want.take(want.len() as int) == want);
    Some(hash_text(&symbols_identity(&under)))
}

/// A note stays where its symbol is: two hunks with the same symbols share it,
/// whatever else differs, and a symbol found under its former name has the key
/// it had then.
pub proof fn law_a_note_follows_its_symbol(a: Seq<SymbolText>, b: Seq<SymbolText>, old_name: Seq<char>)
    ensures
        a.to_multiset() == b.to_multiset() ==> note_of(a) == note_of(b),
        renamed(a, old_name) == b ==> note_of(renamed(a, old_name)) == note_of(b),
        note_of(a) is None <==> a.len() == 0,
{
    broadcast use vstd::seq_lib::group_to_multiset_ensures;

    if a.to_multiset() == b.to_multiset() {
        law_identity_is_free_of_order(a, b);
        assert(a.len() == a.to_multiset().len());
        assert(b.len() == b.to_multiset().len());
    }
}

/// Whether two texts differ and have the same hash.
pub open spec fn collide(a: Seq<char>, b: Seq<char>) -> bool {
    a != b && text_hash(a) == text_hash(b)
}

/// Up to a collision of hashes, symbols that differ have notes of their own.
pub proof fn law_notes_tell_symbols_apart(a: Seq<SymbolText>, b: Seq<SymbolText>)
    requires
        forall|i: int| 0 <= i < a.len() ==> plain_symbol(#[trigger] a[i]),
        forall|i: int| 0 <= i < b.len() ==> plain_symbol(#[trigger] b[i]),
        a.len() > 0,
        b.len() > 0,
        note_of(a) == note_of(b),
    ensures
        a.to_multiset() == b.to_multiset() || collide(identity_of(a), identity_of(b)),
{
    law_identity_tells_symbols_apart(a, b);
}

/// No digit of a numeral is the character that parts a mark's text.
proof fn lemma_numeral_is_undivided(n: nat)
    ensures
        !numeral(n, 16).contains('\0'),
    decreases n,
{
    if n >= 16 {
        lemma_numeral_is_undivided(n / 16);
        let before = numeral(n / 16, 16);
        let all = numeral(n, 16);
        assert forall|i: int| 0 <= i < all.len() implies all[i] != '\0' by {
            if i < before.len() {
                assert(all[i] == before[i]);
                assert(before.contains(before[i]));
            }
        }
    }
}

proof fn lemma_mark_parts(rev: Seq<char>, path: Seq<char>, identity: Seq<char>, h: u64)
    ensures
        mark_text(rev, path, identity, h) == joined(seq![rev, path, identity, numeral(h as nat, 16)], seq!['\0']),
{
    reveal_strlit("\0");
    reveal_with_fuel(joined, 5);
    let p = seq![rev, path, identity, numeral(h as nat, 16)];
    assert("\0"@ =~= seq!['\0']);
    assert(p.drop_last() =~= seq![p[0], p[1], p[2]]);
    assert(p.drop_last().drop_last() =~= seq![p[0], p[1]]);
    assert(p.drop_last().drop_last().drop_last() =~= seq![p[0]]);
}

/// Up to a collision of hashes, a mark holds of one revision, path, identity and
/// content alone: any change of what a hunk says drops its mark.
pub proof fn law_a_mark_holds_of_one_content(
    rev_a: Seq<char>,
    rev_b: Seq<char>,
    a: Item,
    b: Item,
    sources_a: Map<Seq<char>, FileLines>,
    sources_b: Map<Seq<char>, FileLines>,
)
    requires
        sources_a.dom().contains(a.path@),
        sources_b.dom().contains(b.path@),
        !rev_a.contains('\0') && !rev_b.contains('\0'),
        !a.path@.contains('\0') && !b.path@.contains('\0'),
        !identity_key(a).contains('\0') && !identity_key(b).contains('\0'),
        mark_of(rev_a, a, sources_a) == mark_of(rev_b, b, sources_b),
    ensures
        ({
            let content_a = content_text(a, sources_a[a.path@]);
            let content_b = content_text(b, sources_b[b.path@]);
            let text_a = mark_text(rev_a, a.path@, identity_key(a), text_hash(content_a));
            let text_b = mark_text(rev_b, b.path@, identity_key(b), text_hash(content_b));
            ||| collide(text_a, text_b)
            ||| collide(content_a, content_b)
            ||| rev_a == rev_b && a.path@ == b.path@ && identity_key(a) == identity_key(b) && content_a == content_b
        }),
{
    let ha = text_hash(content_text(a, sources_a[a.path@]));
    let hb = text_hash(content_text(b, sources_b[b.path@]));
    let text_a = mark_text(rev_a, a.path@, identity_key(a), ha);
    let text_b = mark_text(rev_b, b.path@, identity_key(b), hb);
    if text_a == text_b {
        lemma_mark_parts(rev_a, a.path@, identity_key(a), ha);
        lemma_mark_parts(rev_b, b.path@, identity_key(b), hb);
        lemma_numeral_is_undivided(ha as nat);
        lemma_numeral_is_undivided(hb as nat);
        let pa = seq![rev_a, a.path@, identity_key(a), numeral(ha as nat, 16)];
        let pb = seq![rev_b, b.path@, identity_key(b), numeral(hb as nat, 16)];
        lemma_joined_tells_apart(pa, pb, '\0');
        assert(pa[0] == pb[0] && pa[1] == pb[1] && pa[2] == pb[2] && pa[3] == pb[3]);
        crate::stored::lemma_hex_digits(ha as nat);
        crate::stored::lemma_hex_digits(hb as nat);
    }
}

/// How long a reviewed mark is kept: ninety days.
pub const MARK_TTL_SECS: u64 = 7776000;

/// Whether a mark written at `ts` is still kept at `now`.
pub open spec fn mark_kept(now: u64, ts: u64) -> bool {
    now - ts <= MARK_TTL_SECS
}

/// Drops the marks that are too old.
pub fn prune_marks(marks: &mut HashMap<u64, u64>, now: u64)
    ensures
        final(marks)@ == old(marks)@.restrict(
            Set::new(|k: u64| mark_kept(now, old(marks)@[k])),
        ),
{
    let mut stale: Vec<u64> = Vec::new();
    let ghost before = marks@;
    for k in it: marks.keys()
        invariant
            marks@ == before,
            it.seq().unref().to_set() == before.dom(),
            forall|j: int| 0 <= j < stale@.len() ==> before.contains_key(#[trigger] stale@[j]) && !mark_kept(now, before[stale@[j]]),
            forall|i: int|
                0 <= i < it.index() && !mark_kept(now, before[*(#[trigger] it.seq()[i])]) ==> stale@.contains(
                    *it.seq()[i],
                ),
    {
        let ghost had = stale@;
        proof {
            assert(it.seq().unref()[it.index() as int] == *k);
            assert(it.seq().unref().contains(*k));
            assert(before.contains_key(*k));
        }
        if let Some(ts) = marks.get(k) {
            let age: u64 = if now > *ts {
                now - *ts
            } else {
                0
            };
            if age > MARK_TTL_SECS {
                stale.push(*k);
                assert(stale@[had.len() as int] == *k);
                assert forall|x: u64| had.contains(x) implies stale@.contains(x) by {
                    let w = choose|w: int| 0 <= w < had.len() && had[w] == x;
                    assert(stale@[w] == x);
                }
            }
        }
    }
    let ghost stale_seq = stale@;
    assert forall|k: u64| before.contains_key(k) && !mark_kept(now, before[k]) implies stale_seq.contains(k) by {
        assert(before.dom().contains(k));
    }
    let mut i: usize = 0;
    while i < stale.len()
        invariant
            i <= stale@.len(),
            stale@ == stale_seq,
            forall|k: u64|
                #[trigger] marks@.contains_key(k) <==> before.contains_key(k) && !stale_seq.take(i as int).contains(k),
            forall|k: u64| #[trigger] marks@.contains_key(k) ==> marks@[k] == before[k],
        decreases stale@.len() - i,
    {
        let k: u64 = stale[i];
        marks.remove(&k);
        proof {
            assert(stale_seq.take(i + 1) == stale_seq.take(i as int).push(k));
            assert forall|x: u64| stale_seq.take(i + 1).contains(x) <==> stale_seq.take(i as int).contains(x) || x == k by {
                if stale_seq.take(i as int).contains(x) {
                    let w = choose|w: int| 0 <= w < i && stale_seq.take(i as int)[w] == x;
                    assert(stale_seq.take(i + 1)[w] == x);
                }
                if x == k {
                    assert(stale_seq.take(i + 1)[i as int] == x);
                }
            }
        }
        i = i + 1;
    }
    proof {
        assert(stale_seq.take(stale_seq.len() as int) == stale_seq);
        let want = before.restrict(Set::new(|k: u64| mark_kept(now, before[k])));
        assert(marks@ =~= want) by {
            assert forall|k: u64| marks@.contains_key(k) <==> want.contains_key(k) by {
                if before.contains_key(k) {
                    if stale_seq.contains(k) {
                        let w = choose|w: int| 0 <= w < stale_seq.len() && stale_seq[w] == k;
                        assert(!mark_kept(now, before[stale_seq[w]]));
                    }
                }
            }
        }
    }
}

/// The directory that caches go to: `$XDG_CACHE_HOME`, else `$HOME/.cache`; a
/// blank variable counts as unset.
pub open spec fn cache_dir(cache_home: Option<Seq<char>>, home: Option<Seq<char>>) -> Option<Seq<char>> {
    if cache_home is Some && trimmed(cache_home->0).len() > 0 {
        cache_home
    } else if home is Some && trimmed(home->0).len() > 0 {
        Some(joined_path(home->0, ".cache"@))
    } else {
        None
    }
}

pub fn cache_home(xdg: Option<String>, home: Option<String>) -> (r: Option<String>)
    ensures
        option_text(r) == cache_dir(option_text(xdg), option_text(home)),
{
    if let Some(x) = &xdg {
        if !trim(x).as_str().is_empty() {
            return Some(x.clone());
        }
    }
    if let Some(h) = &home {
        if !trim(h).as_str().is_empty() {
            return Some(join_path(h, ".cache"));
        }
    }
    None
}

/// The file that keeps one kind of a repository's state below a cache
/// directory: named by the hash of the repository's path.
pub open spec fn state_file(cache: Seq<char>, what: Seq<char>, repo_root: Seq<char>) -> Seq<char> {
    joined_path(
        joined_path(joined_path(cache, "ordo"@), what),
        padded_left(numeral(text_hash(repo_root) as nat, 16), '0', 16) + ".json"@,
    )
}

fn state_path(cache: &Option<String>, what: &str, repo_root: &str) -> (r: Option<String>)
    ensures
        match cache {
            Some(c) => r is Some && r->0@ == state_file(c@, what@, repo_root@),
            None => r is None,
        },
{
    match cache {
        None => None,
        Some(c) => {
            let name = hex16(hash_text(repo_root)).concat(".json");
            Some(join_path(&join_path(&join_path(c, "ordo"), what), &name))
        },
    }
}

/// Where the reviewed marks of a repository are kept.
pub fn marks_file_path(cache: &Option<String>, repo_root: &str) -> (r: Option<String>)
    ensures
        match cache {
            Some(c) => r is Some && r->0@ == state_file(c@, "reviewed"@, repo_root@),
            None => r is None,
        },
{
    state_path(cache, "reviewed", repo_root)
}

/// Where the last run's snapshots of a repository are kept.
pub fn runs_file_path(cache: &Option<String>, repo_root: &str) -> (r: Option<String>)
    ensures
        match cache {
            Some(c) => r is Some && r->0@ == state_file(c@, "runs"@, repo_root@),
            None => r is None,
        },
{
    state_path(cache, "runs", repo_root)
}

/// Where the notes of a repository are kept.
pub fn notes_file_path(cache: &Option<String>, repo_root: &str) -> (r: Option<String>)
    ensures
        match cache {
            Some(c) => r is Some && r->0@ == state_file(c@, "notes"@, repo_root@),
            None => r is None,
        },
{
    state_path(cache, "notes", repo_root)
}

/// Where the line comments of a repository are kept.
pub fn comments_file_path(cache: &Option<String>, repo_root: &str) -> (r: Option<String>)
    ensures
        match cache {
            Some(c) => r is Some && r->0@ == state_file(c@, "comments"@, repo_root@),
            None => r is None,
        },
{
    state_path(cache, "comments", repo_root)
}

/// What one hunk looked like when the review was last opened.
pub struct Snap {
    /// the hash of both sides, in hexadecimal
    pub c: String,
    /// its place in the reading order
    pub p: usize,
    /// the keys of the hunks that define what it uses
    pub d: Vec<String>,
}

/// How a hunk differs from the last time the review was opened.
#[derive(Clone, Copy, PartialEq, Eq, Debug, Structural)]
pub enum Delta {
    /// not there then
    New,
    /// the same symbol with other content
    Changed,
    /// the same content, read elsewhere or for other reasons
    Moved,
    Same,
}

/// What a hunk is known by across runs.
pub open spec fn snap_text(item: Item) -> Seq<char> {
    padded_left(numeral(text_hash(item.path@ + "\0"@ + identity_key(item)) as nat, 16), '0', 16)
}

pub fn snap_key(item: &Item) -> (r: String)
    ensures
        r@ == snap_text(*item),
{
    let text = item.path.clone().concat("\0").concat(&symbol_identity_key(item));
    hex16(hash_text(&text))
}

/// The keys of the items that define what an item's edges use.
pub open spec fn dependency_keys(items: Seq<Item>, edges: Seq<EdgeRef>) -> Seq<Seq<char>>
    decreases edges.len(),
{
    if edges.len() == 0 {
        Seq::empty()
    } else {
        let before = dependency_keys(items, edges.drop_last());
        let e = edges.last();
        if e.dependency && e.target is Some {
            before.push(snap_text(items[e.target->0 as int]))
        } else {
            before
        }
    }
}

/// The last place of an item in the reading order, or the largest number.
pub open spec fn order_place(order: Seq<usize>, i: usize) -> usize
    decreases order.len(),
{
    if order.len() == 0 {
        usize::MAX
    } else if order.last() == i {
        (order.len() - 1) as usize
    } else {
        order_place(order.drop_last(), i)
    }
}

/// What a snapshot records.
pub ghost struct SnapText {
    pub c: Seq<char>,
    pub p: usize,
    pub d: Seq<Seq<char>>,
}

impl Snap {
    pub open spec fn text(self) -> SnapText {
        SnapText { c: self.c@, p: self.p, d: texts(self.d@) }
    }
}

/// The snapshot of item `i`.
pub open spec fn snapshot(items: Seq<Item>, order: Seq<usize>, sources: Map<Seq<char>, FileLines>, i: int) -> SnapText {
    SnapText {
        c: padded_left(
            numeral(
                (match content_hash(items[i], sources) {
                    Some(h) => h,
                    None => 0u64,
                }) as nat,
                16,
            ),
            '0',
            16,
        ),
        p: order_place(order, i as usize),
        d: dependency_keys(items, items[i].edges@),
    }
}

/// The last item among the first `n` that a key stands for.
pub open spec fn keyed_item(items: Seq<Item>, key: Seq<char>, n: int) -> Option<int>
    decreases n,
{
    if n <= 0 {
        None
    } else if snap_text(items[n - 1]) == key {
        Some(n - 1)
    } else {
        keyed_item(items, key, n - 1)
    }
}

/// How a snapshot differs from the one before.
pub open spec fn delta_of(was: Option<SnapText>, is: SnapText) -> Delta {
    match was {
        None => Delta::New,
        Some(w) => if w.c != is.c {
            Delta::Changed
        } else if w.p != is.p || w.d != is.d {
            Delta::Moved
        } else {
            Delta::Same
        },
    }
}

pub open spec fn snap_in(m: Map<Seq<char>, Snap>, key: Seq<char>) -> Option<SnapText> {
    if m.dom().contains(key) {
        Some(m[key].text())
    } else {
        None
    }
}

/// Whether every dependency leads to an item.
pub open spec fn targets_in(items: Seq<Item>) -> bool {
    forall|i: int, j: int|
        0 <= i < items.len() && 0 <= j < items[i].edges@.len() && (#[trigger] items[i].edges@[j]).target is Some
            ==> items[i].edges@[j].target->0 < items.len()
}

/// Whether every dependency that leads somewhere leads to an item.
pub open spec fn dependencies_in(items: Seq<Item>) -> bool {
    forall|i: int, j: int|
        0 <= i < items.len() && 0 <= j < items[i].edges@.len() && (#[trigger] items[i].edges@[j]).dependency
            && items[i].edges@[j].target is Some ==> items[i].edges@[j].target->0 < items.len()
}

fn dependencies(items: &[Item], i: usize) -> (r: Vec<String>)
    requires
        dependencies_in(items@),
        i < items@.len(),
    ensures
        texts(r@) == dependency_keys(items@, items@[i as int].edges@),
{
    let mut out: Vec<String> = Vec::new();
    let ghost edges = items@[i as int].edges@;
    let n = items[i].edges.len();
    for j in 0..n
        invariant
            dependencies_in(items@),
            i < items@.len(),
            edges == items@[i as int].edges@,
            n == edges.len(),
            texts(out@) == dependency_keys(items@, edges.take(j as int)),
    {
        assert(edges.take(j + 1).drop_last() == edges.take(j as int));
        assert(edges.take(j + 1).last() == items@[i as int].edges@[j as int]);
        let e = &items[i].edges[j];
        if e.dependency {
            if let Some(t) = e.target {
                let ghost before = texts(out@);
                let key = snap_key(&items[t]);
                out.push(key);
                assert(texts(out@) == before.push(key@));
            }
        }
    }
    assert(edges.take(edges.len() as int) == edges);
    out
}

fn place_in(order: &[usize], i: usize) -> (r: usize)
    ensures
        r == order_place(order@, i),
{
    let mut n: usize = order.len();
    assert(order@.take(n as int) == order@);
    while n > 0
        invariant
            n <= order@.len(),
            order_place(order@, i) == order_place(order@.take(n as int), i),
        decreases n,
    {
        assert(order@.take(n as int).last() == order@[n - 1]);
        if order[n - 1] == i {
            return n - 1;
        }
        assert(order@.take(n as int).drop_last() == order@.take(n - 1));
        n = n - 1;
    }
    usize::MAX
}

fn same_texts(a: &[String], b: &[String]) -> (r: bool)
    ensures
        r == (texts(a@) == texts(b@)),
{
    if a.len() != b.len() {
        assert(texts(a@).len() != texts(b@).len());
        return false;
    }
    for i in 0..a.len()
        invariant
            a@.len() == b@.len(),
            forall|k: int| 0 <= k < i ==> #[trigger] texts(a@)[k] == texts(b@)[k],
    {
        if !same(&a[i], &b[i]) {
            assert(texts(a@)[i as int] != texts(b@)[i as int]);
            return false;
        }
    }
    assert(texts(a@) =~= texts(b@));
    true
}

fn compare(was: Option<&Snap>, is: &Snap) -> (r: Delta)
    ensures
        r == delta_of(
            match was {
                Some(w) => Some(w.text()),
                None => None,
            },
            is.text(),
        ),
{
    match was {
        None => Delta::New,
        Some(w) => {
            if !same(&w.c, &is.c) {
                Delta::Changed
            } else if w.p != is.p || !same_texts(&w.d, &is.d) {
                Delta::Moved
            } else {
                Delta::Same
            }
        },
    }
}

/// Whether two runs were compared: `now` holds this run's snapshots by key, and
/// `deltas` how each item differs from `prev`.
pub open spec fn runs_compared(
    items: Seq<Item>,
    order: Seq<usize>,
    sources: Map<Seq<char>, FileLines>,
    prev: Map<Seq<char>, Snap>,
    now: Map<Seq<char>, Snap>,
    deltas: Seq<Delta>,
) -> bool {
    &&& forall|key: Seq<char>|
        #[trigger] snap_in(now, key) == (match keyed_item(items, key, items.len() as int) {
            Some(i) => Some(snapshot(items, order, sources, i)),
            None => None,
        })
    &&& deltas.len() == items.len()
    &&& forall|i: int|
        0 <= i < items.len() ==> #[trigger] deltas[i] == delta_of(
            snap_in(prev, snap_text(items[i])),
            snap_in(now, snap_text(items[i]))->0,
        )
}

/// This run's snapshots by key, and how each item differs from the last run's.
/// Of items that share a key the last one's snapshot counts.
pub fn compare_runs(items: &[Item], order: &[usize], sources: &Sources, prev: &TextMap<Snap>) -> (r: (
    TextMap<Snap>,
    Vec<Delta>,
))
    requires
        dependencies_in(items@),
    ensures
        runs_compared(items@, order@, sources@, prev@, r.0@, r.1@),
{
    let mut now: TextMap<Snap> = TextMap::new();
    for i in 0..items.len()
        invariant
            dependencies_in(items@),
            forall|key: Seq<char>|
                #[trigger] snap_in(now@, key) == (match keyed_item(items@, key, i as int) {
                    Some(i) => Some(snapshot(items@, order@, sources@, i)),
                    None => None,
                }),
    {
        let h: u64 = match hunk_content_hash(&items[i], sources) {
            Some(h) => h,
            None => 0,
        };
        let snap = Snap { c: hex16(h), p: place_in(order, i), d: dependencies(items, i) };
        assert(snap.text() == snapshot(items@, order@, sources@, i as int));
        let key = snap_key(&items[i]);
        let ghost before = now@;
        now.insert(key, snap);
        assert forall|k: Seq<char>| #[trigger] snap_in(now@, k) == (match keyed_item(items@, k, i + 1) {
            Some(i) => Some(snapshot(items@, order@, sources@, i)),
            None => None,
        }) by {
            assert(snap_in(before, k) == (match keyed_item(items@, k, i as int) {
                Some(i) => Some(snapshot(items@, order@, sources@, i)),
                None => None,
            }));
        }
    }
    let mut deltas: Vec<Delta> = Vec::new();
    for i in 0..items.len()
        invariant
            forall|key: Seq<char>|
                #[trigger] snap_in(now@, key) == (match keyed_item(items@, key, items@.len() as int) {
                    Some(i) => Some(snapshot(items@, order@, sources@, i)),
                    None => None,
                }),
            deltas@.len() == i,
            forall|k: int|
                0 <= k < i ==> #[trigger] deltas@[k] == delta_of(
                    snap_in(prev@, snap_text(items@[k])),
                    snap_in(now@, snap_text(items@[k]))->0,
                ),
    {
        let key = snap_key(&items[i]);
        proof {
            lemma_keyed_item(items@, i as int, items@.len() as int);
            assert(snap_in(now@, key@) is Some);
        }
        let was = prev.get(&key);
        match now.get(&key) {
            Some(is) => {
                deltas.push(compare(was, is));
            },
            None => {
                deltas.push(Delta::New);
            },
        }
    }
    (now, deltas)
}

proof fn lemma_keyed_item(items: Seq<Item>, i: int, n: int)
    requires
        0 <= i < n <= items.len(),
    ensures
        keyed_item(items, snap_text(items[i]), n) is Some,
    decreases n,
{
    if i < n - 1 {
        lemma_keyed_item(items, i, n - 1);
    }
}

/// A run that is compared with one over the same hunks, in the same order and
/// with the same contents, finds every hunk the same.
pub proof fn law_an_identical_run_reports_nothing(
    items: Seq<Item>,
    order: Seq<usize>,
    sources: Map<Seq<char>, FileLines>,
    before: Map<Seq<char>, Snap>,
    first: Map<Seq<char>, Snap>,
    told: Seq<Delta>,
    second: Map<Seq<char>, Snap>,
    deltas: Seq<Delta>,
)
    requires
        runs_compared(items, order, sources, before, first, told),
        runs_compared(items, order, sources, first, second, deltas),
    ensures
        deltas.len() == items.len(),
        forall|i: int| 0 <= i < items.len() ==> #[trigger] deltas[i] == Delta::Same,
{
    assert forall|i: int| 0 <= i < items.len() implies #[trigger] deltas[i] == Delta::Same by {
        let key = snap_text(items[i]);
        lemma_keyed_item(items, i, items.len() as int);
        assert(snap_in(first, key) == snap_in(second, key));
    }
}

/// A hunk counts as moved exactly if its content stayed and its place or its
/// dependencies did not.
pub proof fn law_moved_means_same_content_read_elsewhere(was: SnapText, is: SnapText)
    ensures
        delta_of(Some(was), is) == Delta::Moved <==> was.c == is.c && (was.p != is.p || was.d != is.d),
        delta_of(None, is) == Delta::New,
{
}

} // verus!
