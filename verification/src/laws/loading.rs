//! What is made of a change before it is read: its lines, its counts, its marks
//! and its notes.

use crate::filter::Ledger;
use crate::identity::{mark_of, note_of, renamed};
use crate::load::{definer, dropped_total, import_total, imports_in, notes_carried, sides_by_path, tallied};
use crate::model::{symbol_texts, FileLines, FileOut, HunkOut, Item, LedgerEntry};
use crate::reorder::{all_marked, change_of, ChangeText};
use crate::text::{joined, lines_of, texts};
use vstd::prelude::*;

verus! {

/// The lines of a file that is reviewed are those of its own change: the old side
/// before, the new side after, and none of a side that there is not.
pub proof fn law_a_file_has_the_lines_of_its_change(changes: Seq<ChangeText>, i: int, n: int)
    requires
        0 <= i < n <= changes.len(),
        forall|j: int| i < j < n ==> (#[trigger] changes[j]).path != changes[i].path,
    ensures
        ({
            let m = sides_by_path(changes, n);
            &&& m.dom().contains(changes[i].path)
            &&& changes[i].old matches Some(t) ==> m[changes[i].path].old == lines_of(t)
            &&& changes[i].old is None ==> m[changes[i].path].old.len() == 0
            &&& changes[i].new matches Some(t) ==> m[changes[i].path].new == lines_of(t)
            &&& changes[i].new is None ==> m[changes[i].path].new.len() == 0
        }),
    decreases n,
{
    if i < n - 1 {
        law_a_file_has_the_lines_of_its_change(changes, i, n - 1);
    }
}

/// A file is there for each change, and for nothing else.
pub proof fn law_the_files_are_those_that_changed(changes: Seq<ChangeText>, n: int, path: Seq<char>)
    requires
        0 <= n <= changes.len(),
    ensures
        sides_by_path(changes, n).dom().contains(path) <==> exists|i: int|
            0 <= i < n && (#[trigger] changes[i]).path == path,
    decreases n,
{
    if n > 0 {
        law_the_files_are_those_that_changed(changes, n - 1, path);
        if exists|i: int| 0 <= i < n - 1 && (#[trigger] changes[i]).path == path {
            let i = choose|i: int| 0 <= i < n - 1 && (#[trigger] changes[i]).path == path;
            assert(changes[i].path == path);
        }
        if changes[n - 1].path == path {
            assert(changes[n - 1].path == path);
        }
        if exists|i: int| 0 <= i < n && (#[trigger] changes[i]).path == path {
            let i = choose|i: int| 0 <= i < n && (#[trigger] changes[i]).path == path;
            if i < n - 1 {
                assert(changes[i].path == path);
            }
        }
    }
}

/// Lines that were read are put together again as they were, but for the last
/// line end: a text of lines without a carriage return reads back.
pub proof fn law_lines_read_back(lines: Seq<Seq<char>>)
    requires
        lines.len() > 0,
        forall|i: int| 0 <= i < lines.len() ==> !(#[trigger] lines[i]).contains('\n') && !lines[i].contains('\r'),
    ensures
        lines_of(joined(lines, "\n"@) + "\n"@) == lines,
    decreases lines.len(),
{
    reveal_strlit("\n");
    assert("\n"@ =~= seq!['\n']);
    let first = lines[0];
    let rest = lines.skip(1);
    let text = joined(lines, "\n"@) + "\n"@;
    if lines.len() == 1 {
        assert(text =~= first + seq!['\n']);
        lemma_first_line(first, Seq::empty());
        assert(text =~= first + seq!['\n'] + Seq::<char>::empty());
        assert(lines_of(Seq::<char>::empty()) =~= Seq::<Seq<char>>::empty());
        assert(lines_of(text) =~= lines);
    } else {
        assert forall|i: int| 0 <= i < rest.len() implies !(#[trigger] rest[i]).contains('\n') && !rest[i].contains(
            '\r',
        ) by {
            assert(rest[i] == lines[i + 1]);
        }
        law_lines_read_back(rest);
        lemma_joined_front(lines);
        let tail = joined(rest, "\n"@) + "\n"@;
        assert(text =~= first + seq!['\n'] + tail);
        lemma_first_line(first, tail);
        assert(lines_of(text) =~= lines);
    }
}

proof fn lemma_joined_front(lines: Seq<Seq<char>>)
    requires
        lines.len() > 1,
    ensures
        joined(lines, "\n"@) == lines[0] + "\n"@ + joined(lines.skip(1), "\n"@),
    decreases lines.len(),
{
    let rest = lines.skip(1);
    if lines.len() == 2 {
        assert(lines.drop_last() =~= seq![lines[0]]);
        assert(rest =~= seq![lines[1]]);
        assert(joined(lines.drop_last(), "\n"@) == lines[0]);
        assert(joined(rest, "\n"@) == lines[1]);
    } else {
        lemma_joined_front(lines.drop_last());
        assert(lines.drop_last().skip(1) =~= rest.drop_last());
        assert(rest.last() == lines.last());
        assert(joined(lines, "\n"@) =~= lines[0] + "\n"@ + joined(rest, "\n"@));
    }
}

proof fn lemma_first_line(first: Seq<char>, tail: Seq<char>)
    requires
        !first.contains('\n'),
        !first.contains('\r'),
    ensures
        lines_of(first + seq!['\n'] + tail) == seq![first] + lines_of(tail),
{
    let s = first + seq!['\n'] + tail;
    crate::text::lemma_char_from(s, '\n', 0);
    let i = crate::text::char_from(s, '\n', 0);
    assert(s[first.len() as int] == '\n');
    assert(i == first.len()) by {
        if i < first.len() {
            assert(first[i] == s[i]);
        }
    }
    assert(s.take(i) =~= first);
    assert(s.skip(i + 1) =~= tail);
    if first.len() > 0 {
        assert(first.contains(first.last()));
    }
}

proof fn lemma_imports(hunks: Seq<HunkOut>, n: int)
    requires
        0 <= n <= hunks.len(),
    ensures
        imports_in(hunks, n) == hunks.take(n).filter(|h: HunkOut| h.category@ == "import"@).len(),
    decreases n,
{
    reveal(Seq::filter);
    if n > 0 {
        lemma_imports(hunks, n - 1);
        assert(hunks.take(n).drop_last() =~= hunks.take(n - 1));
    }
}

/// The account counts the import hunks and the dropped ones of every file: a file
/// more adds its own.
pub proof fn law_every_file_adds_to_the_account(files: Seq<FileOut>, n: int)
    requires
        0 < n <= files.len(),
    ensures
        import_total(files, n) - import_total(files, n - 1) == files[n - 1].hunks@.filter(
            |h: HunkOut| h.category@ == "import"@,
        ).len(),
        dropped_total(files, n) - dropped_total(files, n - 1) == files[n - 1].dropped@.len(),
        import_total(files, 0) == 0,
        dropped_total(files, 0) == 0,
{
    let hunks = files[n - 1].hunks@;
    lemma_imports(hunks, hunks.len() as int);
    assert(hunks.take(hunks.len() as int) =~= hunks);
}

/// Counting hunks leaves the counts of files as they are.
pub proof fn law_counting_hunks_keeps_the_counts_of_files(l: Ledger, files: Seq<FileOut>)
    requires
        crate::load::counts_fit(l, files),
    ensures
        ({
            let t = tallied(l, files);
            &&& t.files_seen == l.files_seen
            &&& t.files_generated == l.files_generated
            &&& t.files_declared == l.files_declared
            &&& t.files_globbed == l.files_globbed
            &&& t.files_unreadable == l.files_unreadable
            &&& 0 <= dropped_total(files, files.len() as int) ==> t.hunks_non_comment == l.hunks_non_comment
                + dropped_total(files, files.len() as int)
            &&& 0 <= import_total(files, files.len() as int) ==> t.hunks_import == import_total(
                files,
                files.len() as int,
            )
        }),
{
}

proof fn lemma_definer(items: Seq<Item>, name: Seq<char>, from: int, i: int)
    requires
        0 <= from <= i < items.len(),
        crate::load::defines(items[i], name),
        forall|j: int| from <= j < i ==> !crate::load::defines(#[trigger] items[j], name),
    ensures
        definer(items, name, from) == Some(i),
    decreases i - from,
{
    if from < i {
        assert(!crate::load::defines(items[from], name));
        lemma_definer(items, name, from + 1, i);
    }
}

/// A note on a symbol that was renamed is found under the new name: it moves from
/// the key that the hunk would have under the old name to the one that it has.
pub proof fn law_a_note_moves_with_a_rename(
    notes: Map<u64, String>,
    ledger: Seq<LedgerEntry>,
    items: Seq<Item>,
    i: int,
    k: int,
    was: u64,
    is: u64,
)
    requires
        ledger.len() == 1,
        ledger[0].from is Some,
        0 <= i < items.len(),
        items[i].new_range[0] > 0,
        0 <= k < items[i].symbols@.len(),
        items[i].symbols@[k].name@ == ledger[0].name@,
        forall|j: int| 0 <= j < i ==> !crate::load::defines(#[trigger] items[j], ledger[0].name@),
        note_of(renamed(symbol_texts(items[i].symbols@), ledger[0].from->0@)) == Some(was),
        note_of(symbol_texts(items[i].symbols@)) == Some(is),
        was != is,
        notes.dom().contains(was),
    ensures
        notes_carried(notes, ledger, items, 1).1,
        notes_carried(notes, ledger, items, 1).0.dom().contains(is),
        notes_carried(notes, ledger, items, 1).0[is] == notes[was],
        !notes_carried(notes, ledger, items, 1).0.dom().contains(was),
        forall|other: u64|
            other != was && other != is && notes.dom().contains(other) ==> #[trigger] notes_carried(
                notes,
                ledger,
                items,
                1,
            ).0[other] == notes[other],
{
    assert(crate::load::defines(items[i], ledger[0].name@)) by {
        assert(items[i].symbols@[k].name@ == ledger[0].name@);
    }
    lemma_definer(items, ledger[0].name@, 0, i);
    reveal_with_fuel(notes_carried, 2);
}

/// Without a rename every note stays where it is.
pub proof fn law_without_a_rename_notes_stay(
    notes: Map<u64, String>,
    ledger: Seq<LedgerEntry>,
    items: Seq<Item>,
    n: int,
)
    requires
        0 <= n <= ledger.len(),
        forall|e: int| 0 <= e < ledger.len() ==> (#[trigger] ledger[e]).from is None,
    ensures
        notes_carried(notes, ledger, items, n) == (notes, false),
    decreases n,
{
    if n > 0 {
        law_without_a_rename_notes_stay(notes, ledger, items, n - 1);
    }
}

/// A hunk counts as reviewed exactly where its mark is kept.
pub proof fn law_a_hunk_is_reviewed_where_its_mark_is_kept(
    rev: Seq<char>,
    items: Seq<Item>,
    sources: Map<Seq<char>, FileLines>,
    marks: Map<u64, u64>,
    i: int,
)
    requires
        0 <= i < items.len(),
    ensures
        all_marked(rev, items, sources, marks).len() == items.len(),
        all_marked(rev, items, sources, marks)[i] <==> mark_of(rev, items[i], sources) is Some && marks.dom().contains(
            mark_of(rev, items[i], sources)->0,
        ),
{
}

/// To order a review anew both sides of a file are handed on, each as its own.
pub proof fn law_both_sides_are_handed_on(path: Seq<char>, f: FileLines)
    ensures
        change_of(path, f).path == path,
        change_of(path, f).old == Some(joined(texts(f.0@), "\n"@)),
        change_of(path, f).new == Some(joined(texts(f.1@), "\n"@)),
{
}

} // verus!
