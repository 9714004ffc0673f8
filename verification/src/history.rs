//! The history of a symbol: what the commits around the reviewed one did to it.

use crate::cursor::{class_of, word_class};
use crate::git::{filled, split_once};
use crate::model::{qualified, qualified_name, symbol_eq, FileOut, HunkOut, Output, Symbol, SymbolText};
use crate::text::{
    chars_of, find, find_from, lemma_find_from, lines_of, occurs_at, option_text, pad_right, padded_right, same,
    slice_string, split_lines, texts, trim,
};
use vstd::prelude::*;

verus! {

/// How many commits are looked at in each direction.
pub const HISTORY_WINDOW: usize = 10;

/// The commits that git lists, one to a line.
pub fn commit_list(text: &str) -> (r: Vec<String>)
    ensures
        texts(r@) == filled(lines_of(text@)),
{
    let parts = split_lines(text);
    let ghost all = texts(parts@);
    let mut out: Vec<String> = Vec::new();
    assert(texts(out@) =~= filled(all.take(0)));
    for i in 0..parts.len()
        invariant
            all == texts(parts@),
            texts(out@) == filled(all.take(i as int)),
    {
        let ghost had = texts(out@);
        assert(all.take(i + 1).drop_last() =~= all.take(i as int));
        assert(all.take(i + 1).last() == parts@[i as int]@);
        let t = trim(&parts[i]);
        if !t.as_str().is_empty() {
            out.push(t);
            assert(texts(out@) =~= had.push(t@));
        }
    }
    assert(all.take(parts@.len() as int) =~= all);
    out
}

/// The first `n` of a sequence, or all of it.
pub open spec fn first_of<A>(s: Seq<A>, n: int) -> Seq<A> {
    if n < s.len() {
        s.take(n)
    } else {
        s
    }
}

/// The first seven characters of a commit's name.
pub fn short_sha(sha: &str) -> (r: String)
    ensures
        r@ == first_of(sha@, 7),
{
    let cs = chars_of(sha);
    let n: usize = if cs.len() > 7 {
        7
    } else {
        cs.len()
    };
    let t = slice_string(&cs, 0, n);
    assert(t@ =~= first_of(sha@, 7));
    t
}

fn reversed(v: &[String], from: usize, to: usize) -> (r: Vec<String>)
    requires
        from <= to <= v@.len(),
    ensures
        texts(r@) == texts(v@).subrange(from as int, to as int).reverse(),
{
    let mut out: Vec<String> = Vec::new();
    let ghost all = texts(v@).subrange(from as int, to as int).reverse();
    let n: usize = to - from;
    for i in 0..n
        invariant
            n == to - from,
            from <= to <= v@.len(),
            all == texts(v@).subrange(from as int, to as int).reverse(),
            texts(out@) == all.take(i as int),
    {
        let ghost had = texts(out@);
        out.push(v[to - 1 - i].clone());
        assert(all[i as int] == v@[to - 1 - i]@);
        assert(texts(out@) =~= had.push(all[i as int]));
        assert(all.take(i + 1) =~= all.take(i as int).push(all[i as int]));
    }
    assert(all.take(n as int) =~= all);
    out
}

/// The commits before the reviewed one: `shas` runs from the nearest to the
/// farthest, and may start with the reviewed one itself.
pub open spec fn nearest_earlier(shas: Seq<Seq<char>>, current: Seq<char>, window: int) -> Seq<Seq<char>> {
    let before = if shas.len() > 0 && shas[0] == current {
        shas.skip(1)
    } else {
        shas
    };
    first_of(before, window).reverse()
}

/// The `window` nearest commits before the reviewed one, the nearest last.
pub fn bound_earlier(shas: &[String], current: &str, window: usize) -> (r: Vec<String>)
    ensures
        texts(r@) == nearest_earlier(texts(shas@), current@, window as int),
{
    let n: usize = shas.len();
    if n > 0 {
        assert(texts(shas@)[0] == shas@[0]@);
    }
    let from: usize = if n > 0 && same(&shas[0], current) {
        1
    } else {
        0
    };
    let to: usize = if window < n - from {
        from + window
    } else {
        n
    };
    let r = reversed(shas, from, to);
    proof {
        let all = texts(shas@);
        let before = if from == 1 {
            all.skip(1)
        } else {
            all
        };
        assert(all.subrange(from as int, to as int) =~= first_of(before, window as int));
    }
    r
}

/// The commits after the reviewed one: `shas` runs from the farthest to the
/// nearest.
pub open spec fn nearest_later(shas: Seq<Seq<char>>, window: int) -> Seq<Seq<char>> {
    first_of(shas.reverse(), window)
}

/// The `window` nearest commits after the reviewed one, the nearest first.
pub fn bound_later(shas: &[String], window: usize) -> (r: Vec<String>)
    ensures
        texts(r@) == nearest_later(texts(shas@), window as int),
{
    let n: usize = shas.len();
    let from: usize = if window < n {
        n - window
    } else {
        0
    };
    let r = reversed(shas, from, n);
    assert(texts(shas@).subrange(from as int, n as int).reverse() =~= nearest_later(texts(shas@), window as int));
    r
}

/// The first file of a path.
pub open spec fn file_place(files: Seq<FileOut>, path: Seq<char>, from: int) -> Option<int>
    decreases files.len() - from,
{
    if from >= files.len() {
        None
    } else if files[from].path@ == path {
        Some(from)
    } else {
        file_place(files, path, from + 1)
    }
}

fn find_file(files: &[FileOut], path: &str) -> (r: Option<usize>)
    ensures
        match r {
            Some(i) => i < files@.len() && file_place(files@, path@, 0) == Some(i as int),
            None => file_place(files@, path@, 0) is None,
        },
{
    let n: usize = files.len();
    for i in 0..n
        invariant
            n == files@.len(),
            file_place(files@, path@, 0) == file_place(files@, path@, i as int),
    {
        if same(&files[i].path, path) {
            return Some(i);
        }
    }
    None
}

/// The first of some symbols that has a name and a kind.
pub open spec fn symbol_named(s: Seq<Symbol>, name: Seq<char>, kind: Seq<char>, from: int) -> Option<SymbolText>
    decreases s.len() - from,
{
    if from >= s.len() {
        None
    } else if s[from].name@ == name && s[from].kind@ == kind {
        Some(s[from].text())
    } else {
        symbol_named(s, name, kind, from + 1)
    }
}

fn find_symbol(s: &Vec<Symbol>, name: &str, kind: &str) -> (r: Option<Symbol>)
    ensures
        match r {
            Some(x) => symbol_named(s@, name@, kind@, 0) == Some(x.text()),
            None => symbol_named(s@, name@, kind@, 0) is None,
        },
{
    let n: usize = s.len();
    for i in 0..n
        invariant
            n == s@.len(),
            symbol_named(s@, name@, kind@, 0) == symbol_named(s@, name@, kind@, i as int),
    {
        if same(&s[i].name, name) && same(&s[i].kind, kind) {
            return Some(s[i].copied());
        }
    }
    None
}

/// The first hunk whose new side holds a line.
pub open spec fn hunk_over(hunks: Seq<HunkOut>, line: int, from: int) -> Option<int>
    decreases hunks.len() - from,
{
    if from >= hunks.len() {
        None
    } else if hunks[from].new_range[0] <= line <= hunks[from].new_range[1] {
        Some(from)
    } else {
        hunk_over(hunks, line, from + 1)
    }
}

/// The first symbol of a name and a kind in any hunk.
pub open spec fn symbol_anywhere(hunks: Seq<HunkOut>, name: Seq<char>, kind: Seq<char>, from: int) -> Option<SymbolText>
    decreases hunks.len() - from,
{
    if from >= hunks.len() {
        None
    } else {
        match symbol_named(hunks[from].symbols@, name, kind, 0) {
            Some(s) => Some(s),
            None => symbol_anywhere(hunks, name, kind, from + 1),
        }
    }
}

/// What identifies the definition at row `row`: among the symbols of the hunk
/// that holds it, or else of any hunk.
pub open spec fn identity_at(out: Output, path: Seq<char>, name: Seq<char>, kind: Seq<char>, row: int) -> Option<
    SymbolText,
> {
    match file_place(out.files@, path, 0) {
        None => None,
        Some(f) => {
            let hunks = out.files@[f].hunks@;
            let here = match hunk_over(hunks, row + 1, 0) {
                Some(h) => symbol_named(hunks[h].symbols@, name, kind, 0),
                None => None,
            };
            match here {
                Some(s) => Some(s),
                None => symbol_anywhere(hunks, name, kind, 0),
            }
        },
    }
}

pub open spec fn symbol_option(s: Option<Symbol>) -> Option<SymbolText> {
    match s {
        Some(x) => Some(x.text()),
        None => None,
    }
}

/// What identifies a definition: its name, kind and scope, by the engine's
/// account of the whole file as if it were new.
pub fn symbol_identity(out: &Output, path: &str, name: &str, kind: &str, row: usize) -> (r: Option<Symbol>)
    requires
        row < usize::MAX,
    ensures
        symbol_option(r) == identity_at(*out, path@, name@, kind@, row as int),
{
    let f = match find_file(&out.files, path) {
        Some(f) => f,
        None => {
            return None;
        },
    };
    let hunks = &out.files[f].hunks;
    let n: usize = hunks.len();
    let line: usize = row + 1;
    let mut found: Option<Symbol> = None;
    let mut i: usize = 0;
    while i < n && !(hunks[i].new_range[0] <= line && line <= hunks[i].new_range[1])
        invariant
            n == hunks@.len(),
            i <= n,
            line == row + 1,
            hunk_over(hunks@, line as int, 0) == hunk_over(hunks@, line as int, i as int),
        decreases n - i,
    {
        i = i + 1;
    }
    if i < n {
        found = find_symbol(&hunks[i].symbols, name, kind);
    }
    if found.is_some() {
        return found;
    }
    let ghost whole = identity_at(*out, path@, name@, kind@, row as int);
    assert(whole == symbol_anywhere(hunks@, name@, kind@, 0));
    for j in 0..n
        invariant
            n == hunks@.len(),
            whole == identity_at(*out, path@, name@, kind@, row as int),
            whole == symbol_anywhere(hunks@, name@, kind@, 0),
            symbol_anywhere(hunks@, name@, kind@, 0) == symbol_anywhere(hunks@, name@, kind@, j as int),
    {
        if let Some(s) = find_symbol(&hunks[j].symbols, name, kind) {
            return Some(s);
        }
    }
    None
}

/// A text cut at every occurrence of another.
pub open spec fn pieces(s: Seq<char>, pat: Seq<char>) -> Seq<Seq<char>>
    decreases s.len(),
{
    if pat.len() == 0 || find_from(s, pat, 0) > s.len() {
        seq![s]
    } else {
        proof {
            lemma_find_from(s, pat, 0);
        }
        seq![s.take(find_from(s, pat, 0))] + pieces(s.skip(find_from(s, pat, 0) + pat.len()), pat)
    }
}

/// Whether `word` stands at a place of a text as a whole word: no letter, digit
/// or underscore stands right before or right after it.
pub open spec fn word_at(s: Seq<char>, word: Seq<char>, i: int) -> bool {
    &&& occurs_at(s, word, i)
    &&& i == 0 || class_of(s[i - 1]) != 1
    &&& i + word.len() == s.len() || class_of(s[(i + word.len()) as int]) != 1
}

/// Whether a text holds a whole word.
pub open spec fn holds_word(s: Seq<char>, word: Seq<char>) -> bool {
    exists|i: int| word_at(s, word, i)
}

/// Whether a text holds a whole word.
pub fn has_word(s: &str, word: &str) -> (r: bool)
    ensures
        r == holds_word(s@, word@),
{
    let cs = chars_of(s);
    let pat = chars_of(word);
    let n: usize = cs.len();
    let m: usize = pat.len();
    let mut from: usize = 0;
    loop
        invariant
            cs@ == s@,
            pat@ == word@,
            n == cs@.len(),
            m == pat@.len(),
            from <= n,
            forall|i: int| 0 <= i < from ==> !#[trigger] word_at(s@, word@, i),
        decreases n + 1 - from,
    {
        proof {
            lemma_find_from(s@, word@, from as int);
        }
        match find(&cs, &pat, from) {
            None => {
                assert forall|i: int| !#[trigger] word_at(s@, word@, i) by {
                    if i >= from && word_at(s@, word@, i) {
                        assert(occurs_at(s@, word@, i));
                    }
                }
                return false;
            },
            Some(i) => {
                assert(occurs_at(s@, word@, i as int));
                if (i == 0 || word_class(cs[i - 1]) != 1) && (m == n - i || word_class(cs[i + m]) != 1) {
                    assert(word_at(s@, word@, i as int));
                    return true;
                }
                assert forall|k: int| 0 <= k <= i implies !#[trigger] word_at(s@, word@, k) by {
                    if from <= k < i && word_at(s@, word@, k) {
                        assert(occurs_at(s@, word@, k));
                    }
                }
                if i == n {
                    assert forall|k: int| !#[trigger] word_at(s@, word@, k) by {}
                    return false;
                }
                from = i + 1;
            },
        }
    }
}

/// Whether a part of a rationale names a symbol.
pub open spec fn names_symbol(part: Seq<char>, target: SymbolText) -> bool {
    holds_word(part, target.name) || holds_word(part, qualified(target))
}

/// The first part, from `from` on, that names a symbol.
pub open spec fn naming_part(parts: Seq<Seq<char>>, target: SymbolText, from: int) -> Option<Seq<char>>
    decreases parts.len() - from,
{
    if from >= parts.len() {
        None
    } else if names_symbol(parts[from], target) {
        Some(parts[from])
    } else {
        naming_part(parts, target, from + 1)
    }
}

/// What a rationale says of a symbol: the part that names it, or all of it.
pub open spec fn label_of(rationale: Seq<char>, target: SymbolText) -> Seq<char> {
    match naming_part(pieces(rationale, "; "@), target, 0) {
        Some(p) => p,
        None => rationale,
    }
}

proof fn lemma_naming_part_shift(head: Seq<char>, rest: Seq<Seq<char>>, target: SymbolText, from: int)
    requires
        0 <= from,
    ensures
        naming_part(seq![head] + rest, target, from + 1) == naming_part(rest, target, from),
    decreases rest.len() - from,
{
    let all = seq![head] + rest;
    if from < rest.len() {
        assert(all[from + 1] == rest[from]);
        lemma_naming_part_shift(head, rest, target, from + 1);
    }
}

/// What a hunk's rationale says of a symbol.
pub fn label_for(h: &HunkOut, target: &Symbol) -> (r: String)
    ensures
        r@ == label_of(h.rationale@, target.text()),
{
    let full = qualified_name(target);
    let ghost t = target.text();
    let ghost all = naming_part(pieces(h.rationale@, "; "@), t, 0);
    let mut rest = h.rationale.clone();
    proof {
        reveal_strlit("; ");
    }
    loop
        invariant
            t == target.text(),
            full@ == qualified(t),
            "; "@.len() == 2,
            all == naming_part(pieces(h.rationale@, "; "@), t, 0),
            naming_part(pieces(rest@, "; "@), t, 0) == all,
        decreases rest@.len(),
    {
        match split_once(&rest, "; ") {
            Some((head, tail)) => {
                proof {
                    lemma_find_from(rest@, "; "@, 0);
                    lemma_naming_part_shift(head@, pieces(tail@, "; "@), t, 0);
                    assert((seq![head@] + pieces(tail@, "; "@))[0] == head@);
                }
                if has_word(&head, &target.name) || has_word(&head, &full) {
                    return head;
                }
                rest = tail;
            },
            None => {
                proof {
                    assert(pieces(rest@, "; "@) == seq![rest@]);
                    assert(naming_part(seq![rest@], t, 1) is None);
                    assert(seq![rest@][0] == rest@);
                }
                if has_word(&rest, &target.name) || has_word(&rest, &full) {
                    return rest;
                }
                return h.rationale.clone();
            },
        }
    }
}

/// Whether a hunk defines a symbol, or edits its body.
pub open spec fn touches_symbol(h: HunkOut, target: SymbolText) -> bool {
    (exists|k: int| 0 <= k < h.symbols@.len() && (#[trigger] h.symbols@[k]).text() == target) || option_text(
        h.enclosing,
    ) == Some(qualified(target))
}

/// What the first hunk that touches a symbol, from `from` on, says of it.
pub open spec fn first_label(hunks: Seq<HunkOut>, target: SymbolText, from: int) -> Option<Seq<char>>
    decreases hunks.len() - from,
{
    if from >= hunks.len() {
        None
    } else if touches_symbol(hunks[from], target) {
        Some(label_of(hunks[from].rationale@, target))
    } else {
        first_label(hunks, target, from + 1)
    }
}

fn touches(h: &HunkOut, target: &Symbol, full: &str) -> (r: bool)
    requires
        full@ == qualified(target.text()),
    ensures
        r == touches_symbol(*h, target.text()),
{
    for k in 0..h.symbols.len()
        invariant
            forall|j: int| 0 <= j < k ==> (#[trigger] h.symbols@[j]).text() != target.text(),
    {
        if symbol_eq(&h.symbols[k], target) {
            assert(h.symbols@[k as int].text() == target.text());
            return true;
        }
    }
    match &h.enclosing {
        Some(e) => same(e, full),
        None => false,
    }
}

/// What a commit did to a symbol, by the engine's account of the file.
pub open spec fn classified(out: Output, path: Seq<char>, target: SymbolText) -> Option<Seq<char>> {
    match file_place(out.files@, path, 0) {
        None => None,
        Some(f) => first_label(out.files@[f].hunks@, target, 0),
    }
}

/// What a commit did to a symbol, by the engine's account of the file; nothing
/// where it did not touch it.
pub fn classify_commit(out: &Output, path: &str, target: &Symbol) -> (r: Option<String>)
    ensures
        option_text(r) == classified(*out, path@, target.text()),
{
    let f = match find_file(&out.files, path) {
        Some(f) => f,
        None => {
            return None;
        },
    };
    let full = qualified_name(target);
    let hunks = &out.files[f].hunks;
    let n: usize = hunks.len();
    for i in 0..n
        invariant
            n == hunks@.len(),
            full@ == qualified(target.text()),
            *hunks == out.files@[f as int].hunks,
            file_place(out.files@, path@, 0) == Some(f as int),
            first_label(hunks@, target.text(), 0) == first_label(hunks@, target.text(), i as int),
    {
        if touches(&hunks[i], target, &full) {
            return Some(label_for(&hunks[i], target));
        }
    }
    None
}

/// A line of the history.
pub open spec fn history_line(tag: Seq<char>, sha: Seq<char>, label: Seq<char>) -> Seq<char> {
    padded_right(tag, 7) + "  "@ + first_of(sha, 7) + "  "@ + label
}

/// Whether any of the first `n` labels is there.
pub open spec fn any_label(labels: Seq<Option<String>>, n: int) -> bool {
    exists|k: int| 0 <= k < n && (#[trigger] labels[k]) is Some
}

/// The lines of the first `n` commits of one direction: those that touched the
/// symbol, the first of them tagged.
pub open spec fn direction_lines(shas: Seq<Seq<char>>, labels: Seq<Option<String>>, tag: Seq<char>, n: int) -> Seq<
    Seq<char>,
>
    decreases n,
{
    if n <= 0 {
        Seq::empty()
    } else {
        let before = direction_lines(shas, labels, tag, n - 1);
        match labels[n - 1] {
            Some(l) => before.push(
                history_line(
                    if any_label(labels, n - 1) {
                        ""@
                    } else {
                        tag
                    },
                    shas[n - 1],
                    l@,
                ),
            ),
            None => before,
        }
    }
}

/// Adds the lines of one direction: those commits that touched the symbol, with
/// what each did; the first one is tagged.
pub fn history_lines_for(shas: &[String], labels: &[Option<String>], tag: &str, out: &mut Vec<String>)
    requires
        shas@.len() == labels@.len(),
    ensures
        texts(final(out)@) == texts(old(out)@) + direction_lines(
            texts(shas@),
            labels@,
            tag@,
            shas@.len() as int,
        ),
{
    let ghost start = texts(out@);
    let mut first = true;
    let n: usize = shas.len();
    assert(start + Seq::<Seq<char>>::empty() =~= start);
    for i in 0..n
        invariant
            n == shas@.len(),
            n == labels@.len(),
            first == !any_label(labels@, i as int),
            texts(out@) == start + direction_lines(texts(shas@), labels@, tag@, i as int),
    {
        let ghost had = texts(out@);
        assert(texts(shas@)[i as int] == shas@[i as int]@);
        if let Some(label) = &labels[i] {
            let t = if first {
                tag
            } else {
                ""
            };
            let line = pad_right(t, 7).concat("  ").concat(&short_sha(&shas[i])).concat("  ").concat(label);
            assert(line@ == history_line(t@, shas@[i as int]@, label@));
            out.push(line);
            first = false;
            assert(labels@[i as int] is Some);
            assert(any_label(labels@, i + 1));
            assert(texts(out@) =~= had.push(line@));
            assert(texts(out@) =~= start + direction_lines(texts(shas@), labels@, tag@, i + 1));
        } else {
            assert(any_label(labels@, i + 1) == any_label(labels@, i as int)) by {
                if any_label(labels@, i + 1) {
                    let k = choose|k: int| 0 <= k < i + 1 && (#[trigger] labels@[k]) is Some;
                    assert(k < i);
                }
                if any_label(labels@, i as int) {
                    let k = choose|k: int| 0 <= k < i && (#[trigger] labels@[k]) is Some;
                    assert(labels@[k] is Some);
                }
            }
        }
    }
}

/// The history of a symbol: what came before the reviewed commit, the commit
/// itself, and what came after.
pub open spec fn history_of(
    sha: Seq<char>,
    earlier: Seq<Seq<char>>,
    before: Seq<Option<String>>,
    later: Seq<Seq<char>>,
    after: Seq<Option<String>>,
) -> Seq<Seq<char>> {
    direction_lines(earlier, before, "earlier"@, earlier.len() as int) + seq![
        padded_right("CURRENT"@, 7) + "  "@ + first_of(sha, 7),
    ] + direction_lines(later, after, "later"@, later.len() as int)
}

/// The history of a symbol. `before` and `after` tell what each commit of the
/// two directions did to it.
pub fn compute_history(
    review_sha: &str,
    earlier: &[String],
    before: &[Option<String>],
    later: &[String],
    after: &[Option<String>],
) -> (r: Vec<String>)
    requires
        earlier@.len() == before@.len(),
        later@.len() == after@.len(),
    ensures
        texts(r@) == history_of(review_sha@, texts(earlier@), before@, texts(later@), after@),
{
    let mut out: Vec<String> = Vec::new();
    assert(texts(out@) =~= Seq::empty());
    history_lines_for(earlier, before, "earlier", &mut out);
    let ghost had = texts(out@);
    let line = pad_right("CURRENT", 7).concat("  ").concat(&short_sha(review_sha));
    out.push(line);
    assert(texts(out@) =~= had + seq![line@]);
    history_lines_for(later, after, "later", &mut out);
    assert(texts(out@) =~= history_of(review_sha@, texts(earlier@), before@, texts(later@), after@));
    out
}

/// What is told of the history where the engine does not know the symbol.
pub fn unresolved_history() -> (r: Vec<String>)
    ensures
        texts(r@) == seq!["history: could not resolve this symbol's identity"@],
{
    let mut v: Vec<String> = Vec::new();
    v.push("history: could not resolve this symbol's identity".to_owned());
    assert(texts(v@) =~= seq!["history: could not resolve this symbol's identity"@]);
    v
}

/// No direction shows more commits than the window, and the reviewed commit is
/// not among the earlier ones where git lists it first and once.
pub proof fn law_the_window_bounds_history(shas: Seq<Seq<char>>, current: Seq<char>, window: int)
    requires
        0 <= window,
    ensures
        nearest_earlier(shas, current, window).len() <= window,
        nearest_later(shas, window).len() <= window,
        (forall|i: int| 0 < i < shas.len() ==> shas[i] != current)
            ==> !nearest_earlier(shas, current, window).contains(current),
{
    let r = nearest_earlier(shas, current, window);
    if (forall|i: int| 0 < i < shas.len() ==> shas[i] != current) && r.contains(current) {
        let before = if shas.len() > 0 && shas[0] == current {
            shas.skip(1)
        } else {
            shas
        };
        let near = first_of(before, window);
        let k = choose|k: int| 0 <= k < r.len() && r[k] == current;
        assert(r[k] == near[near.len() - 1 - k]);
        let j = near.len() - 1 - k;
        assert(near[j] == before[j]);
        if shas.len() > 0 && shas[0] == current {
            assert(before[j] == shas[j + 1]);
        } else {
            assert(before[j] == shas[j]);
        }
    }
}

} // verus!
