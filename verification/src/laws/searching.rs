//! A search finds what is there.

use crate::cursor::class_of;
use crate::events::symbol_searched;
use crate::finder::{match_sought, symbol_at_cursor};
use crate::history::{holds_word, word_at};
use crate::search::{is_match, text_occurrences, Match};
use crate::state::{App, SearchKind};
use crate::text::occurs_at;
use vstd::prelude::*;

verus! {

/// A match is a part of a line that is the text searched for, and every such
/// part is a match.
pub proof fn law_a_match_is_the_text_searched_for(lines: Seq<Seq<char>>, pat: Seq<char>, ms: Seq<Match>, m: Match)
    requires
        text_occurrences(lines, pat, ms),
        pat.len() > 0,
    ensures
        ms.contains(m) <==> m.0 < lines.len() && m.1 <= m.2 <= lines[m.0 as int].len() && lines[m.0 as int].subrange(
            m.1 as int,
            m.2 as int,
        ) == pat,
{
    if ms.contains(m) {
        assert(is_match(lines, pat, m));
    }
    if m.0 < lines.len() && m.1 <= m.2 <= lines[m.0 as int].len() && lines[m.0 as int].subrange(
        m.1 as int,
        m.2 as int,
    ) == pat {
        assert(pat.len() == m.2 - m.1);
        assert(is_match(lines, pat, m));
    }
}

/// The matches come in the order of the text: line by line, and from left to
/// right in a line.
pub proof fn law_matches_come_in_order(lines: Seq<Seq<char>>, pat: Seq<char>, ms: Seq<Match>, i: int, j: int)
    requires
        text_occurrences(lines, pat, ms),
        0 <= i < j < ms.len(),
    ensures
        ms[i].0 < ms[j].0 || (ms[i].0 == ms[j].0 && ms[i].1 < ms[j].1),
{
}

/// Nothing is found where nothing is searched for.
pub proof fn law_nothing_is_found_for_an_empty_text(lines: Seq<Seq<char>>, ms: Seq<Match>)
    requires
        text_occurrences(lines, Seq::empty(), ms),
    ensures
        ms.len() == 0,
{
    if ms.len() > 0 {
        assert(ms.contains(ms[0]));
    }
}

/// A search for the name under the cursor goes on to the next place of it, or
/// back to the one before, and never stays on the one under the cursor.
pub proof fn law_a_symbol_search_goes_the_way_it_is_told(a: App, b: App, forward: bool)
    requires
        symbol_searched(a, b, forward),
        symbol_at_cursor(a) is Some,
    ensures
        b.search is Some,
        b.search->0.pattern@ == symbol_at_cursor(a)->0,
        b.search->0.kind == SearchKind::Symbol,
        b.search->0.matches@.len() > 0 ==> ({
            let m = b.search->0.matches@[match_sought(b.search->0.matches@, a.cursor, forward, false)];
            b.cursor.line == m.0 && b.cursor.col == m.1
        }),
        b.sel == a.sel,
{
}

/// Without a name under the cursor nothing happens.
pub proof fn law_without_a_name_nothing_is_searched(a: App, b: App, forward: bool)
    requires
        symbol_searched(a, b, forward),
        symbol_at_cursor(a) is None,
    ensures
        b == a,
{
}

/// A text of word characters alone holds a word only where it is that word: a
/// part of a longer word does not count.
pub proof fn law_a_part_of_a_word_is_no_word(s: Seq<char>, word: Seq<char>)
    requires
        word.len() > 0,
        forall|k: int| 0 <= k < s.len() ==> class_of(#[trigger] s[k]) == 1,
    ensures
        holds_word(s, word) <==> s == word,
{
    if holds_word(s, word) {
        let i = choose|i: int| word_at(s, word, i);
        if i > 0 {
            assert(class_of(s[i - 1]) == 1);
        }
        if i + word.len() < s.len() {
            assert(class_of(s[(i + word.len()) as int]) == 1);
        }
        assert(s.subrange(0, s.len() as int) == s);
    }
    if s == word {
        assert(s.subrange(0, word.len() as int) == word);
        assert(word_at(s, word, 0));
    }
}

/// A word between two characters that belong to no word is held.
pub proof fn law_a_word_stands_between_what_is_no_word(a: Seq<char>, x: char, word: Seq<char>, y: char, b: Seq<char>)
    requires
        class_of(x) != 1,
        class_of(y) != 1,
    ensures
        holds_word(a.push(x) + word + seq![y] + b, word),
{
    let s = a.push(x) + word + seq![y] + b;
    let i = a.len() as int + 1;
    assert(s.subrange(i, i + word.len()) == word);
    assert(s[i - 1] == x);
    assert(s[(i + word.len()) as int] == y);
    assert(occurs_at(s, word, i));
    assert(word_at(s, word, i));
}

} // verus!
