//! Making a review out of the files of a change and the engine's account of it.

use crate::code_view::Highlights;
use crate::cursor::line_offset;
use crate::editor::{plural, plural_of};
use crate::filter::{Filter, Ledger};
use crate::highlight::{file_painted, highlight_file, line_runs};
use crate::identity::{
    compare_runs, delta_of, keyed_item, mark_kept, note_key, note_key_named, note_of, prune_marks, renamed, snap_in,
    snap_text, snapshot, targets_in, Delta, Snap,
};
use crate::items::{group_reasons, map_texts, reasons_of};
use crate::model::{symbol_texts, FileLines, FileOut, HunkOut, Item, LedgerEntry, Output, Sources};
use crate::reorder::{all_marked, change_texts, reviewed_by_marks, Change, ChangeText};
use crate::state::{file_fits, items_fit, sources_fit};
use crate::text::{decimal, lines_of, number, same, split_lines, texts};
use crate::textmap::TextMap;
use crate::theme::{Color, Syntax};
use crate::view::{compute_view, view_of};
use std::collections::HashMap;
use vstd::prelude::*;

verus! {

broadcast use vstd::std_specs::hash::group_hash_axioms;

/// What is told while the `i`-th of `total` files is read.
pub open spec fn reading(path: Seq<char>, i: int, total: int) -> Seq<char> {
    "reading "@ + path + " ("@ + decimal(i + 1) + "/"@ + decimal(total) + ")"@
}

pub fn read_progress(path: &str, i: usize, total: usize) -> (r: String)
    requires
        i < usize::MAX,
    ensures
        r@ == reading(path@, i as int, total as int),
{
    "reading ".to_owned().concat(path).concat(" (").concat(&number(i + 1)).concat("/").concat(
        &number(total),
    ).concat(")")
}

/// What is told while the `i`-th of `total` files is highlighted.
pub open spec fn highlighting(i: int, total: int) -> Seq<char> {
    "highlighting ("@ + decimal(i + 1) + "/"@ + decimal(total) + ")"@
}

pub fn highlight_progress(i: usize, total: usize) -> (r: String)
    requires
        i < usize::MAX,
    ensures
        r@ == highlighting(i as int, total as int),
{
    "highlighting (".to_owned().concat(&number(i + 1)).concat("/").concat(&number(total)).concat(")")
}

/// The two sides of a file, line by line.
pub ghost struct SideLines {
    pub old: Seq<Seq<char>>,
    pub new: Seq<Seq<char>>,
}

/// The lines of a side; a side that is not there has none.
pub open spec fn side_lines(s: Option<Seq<char>>) -> Seq<Seq<char>> {
    match s {
        Some(t) => lines_of(t),
        None => Seq::empty(),
    }
}

pub open spec fn change_lines(c: ChangeText) -> SideLines {
    SideLines { old: side_lines(c.old), new: side_lines(c.new) }
}

pub open spec fn file_sides(f: FileLines) -> SideLines {
    SideLines { old: texts(f.0@), new: texts(f.1@) }
}

pub open spec fn source_sides(m: Map<Seq<char>, FileLines>) -> Map<Seq<char>, SideLines> {
    m.map_values(|f: FileLines| file_sides(f))
}

/// The lines of the first `n` files, by path; of two with one path the later
/// one counts.
pub open spec fn sides_by_path(changes: Seq<ChangeText>, n: int) -> Map<Seq<char>, SideLines>
    decreases n,
{
    if n <= 0 {
        Map::empty()
    } else {
        sides_by_path(changes, n - 1).insert(changes[n - 1].path, change_lines(changes[n - 1]))
    }
}

/// What machine numbers ask of a change.
pub open spec fn change_fits(c: ChangeText) -> bool {
    let s = change_lines(c);
    &&& line_offset(s.new, s.new.len() as int) <= usize::MAX
    &&& s.old.len() + s.new.len() <= usize::MAX
}

fn lines_of_side(s: &Option<String>) -> (r: Vec<String>)
    ensures
        texts(r@) == side_lines(crate::text::option_text(*s)),
{
    match s {
        Some(t) => split_lines(t),
        None => {
            let v: Vec<String> = Vec::new();
            assert(texts(v@) =~= Seq::empty());
            v
        },
    }
}

/// The lines of the files of a change, by path.
pub fn sources_of(changes: &[Change]) -> (r: Sources)
    requires
        forall|i: int| 0 <= i < changes@.len() ==> change_fits(#[trigger] changes@[i].text()),
    ensures
        source_sides(r@) == sides_by_path(change_texts(changes@), changes@.len() as int),
        sources_fit(r@),
{
    let mut m: Sources = TextMap::new();
    let ghost cs = change_texts(changes@);
    assert(source_sides(m@) =~= sides_by_path(cs, 0));
    for i in 0..changes.len()
        invariant
            cs == change_texts(changes@),
            forall|i: int| 0 <= i < changes@.len() ==> change_fits(#[trigger] changes@[i].text()),
            source_sides(m@) == sides_by_path(cs, i as int),
            sources_fit(m@),
    {
        let ghost before = m@;
        let c = &changes[i];
        let f: FileLines = (lines_of_side(&c.old), lines_of_side(&c.new));
        assert(change_fits(changes@[i as int].text()));
        assert(file_sides(f) == change_lines(cs[i as int]));
        assert(texts(f.1@).len() == f.1@.len() && texts(f.0@).len() == f.0@.len());
        assert(file_fits(f));
        m.insert(c.path.clone(), f);
        assert(source_sides(m@) =~= source_sides(before).insert(cs[i as int].path, file_sides(f)));
    }
    m
}

/// The painted lines of files, by path.
pub open spec fn painted_files(m: Map<Seq<char>, Vec<crate::code_view::LineSpans>>) -> Map<
    Seq<char>,
    Seq<Seq<(Seq<char>, Color)>>,
> {
    m.map_values(|v: Vec<crate::code_view::LineSpans>| line_runs(v@))
}

/// The files with one more painted, where it has a new side and a grammar.
pub open spec fn also_painted(
    m: Map<Seq<char>, Seq<Seq<(Seq<char>, Color)>>>,
    c: ChangeText,
    syn: Syntax,
) -> Map<Seq<char>, Seq<Seq<(Seq<char>, Color)>>> {
    match c.new {
        None => m,
        Some(src) => match file_painted(c.path, src, syn) {
            None => m,
            Some(lines) => m.insert(c.path, lines),
        },
    }
}

/// Highlights the new side of one file.
pub fn highlight_change(highlights: &mut Highlights, c: &Change, syn: &Syntax)
    ensures
        painted_files(final(highlights)@) == also_painted(painted_files(old(highlights)@), c.text(), *syn),
{
    let ghost before = highlights@;
    if let Some(src) = &c.new {
        if let Some(v) = highlight_file(&c.path, src, syn) {
            highlights.insert(c.path.clone(), v);
            assert(painted_files(highlights@) =~= painted_files(before).insert(c.path@, line_runs(v@)));
        }
    }
}

/// The files of a change that have a new side.
pub open spec fn with_new_side(changes: Seq<ChangeText>, n: int) -> Seq<usize>
    decreases n,
{
    if n <= 0 {
        Seq::empty()
    } else if changes[n - 1].new is Some {
        with_new_side(changes, n - 1).push((n - 1) as usize)
    } else {
        with_new_side(changes, n - 1)
    }
}

/// The files that are worth highlighting.
pub fn highlight_candidates(changes: &[Change]) -> (r: Vec<usize>)
    ensures
        r@ == with_new_side(change_texts(changes@), changes@.len() as int),
{
    let mut out: Vec<usize> = Vec::new();
    for i in 0..changes.len()
        invariant
            out@ == with_new_side(change_texts(changes@), i as int),
    {
        if changes[i].new.is_some() {
            out.push(i);
        }
    }
    out
}

/// The hunks that the first `n` files lost.
pub open spec fn dropped_total(files: Seq<FileOut>, n: int) -> int
    decreases n,
{
    if n <= 0 {
        0
    } else {
        dropped_total(files, n - 1) + files[n - 1].dropped@.len()
    }
}

/// The import hunks among the first `n`.
pub open spec fn imports_in(hunks: Seq<HunkOut>, n: int) -> int
    decreases n,
{
    if n <= 0 {
        0
    } else {
        imports_in(hunks, n - 1) + (if hunks[n - 1].category@ == "import"@ {
            1int
        } else {
            0int
        })
    }
}

/// The import hunks of the first `n` files.
pub open spec fn import_total(files: Seq<FileOut>, n: int) -> int
    decreases n,
{
    if n <= 0 {
        0
    } else {
        import_total(files, n - 1) + imports_in(files[n - 1].hunks@, files[n - 1].hunks@.len() as int)
    }
}

/// The account of what was left out, with what the engine left out added.
pub open spec fn tallied(l: Ledger, files: Seq<FileOut>) -> Ledger {
    Ledger {
        hunks_non_comment: (l.hunks_non_comment + dropped_total(files, files.len() as int)) as usize,
        hunks_import: import_total(files, files.len() as int) as usize,
        ..l
    }
}

/// What machine numbers ask of the counts.
pub open spec fn counts_fit(l: Ledger, files: Seq<FileOut>) -> bool {
    &&& l.hunks_non_comment + dropped_total(files, files.len() as int) <= usize::MAX
    &&& import_total(files, files.len() as int) <= usize::MAX
}

proof fn lemma_totals_grow(files: Seq<FileOut>, a: int, b: int)
    requires
        0 <= a <= b,
    ensures
        0 <= dropped_total(files, a) <= dropped_total(files, b),
        0 <= import_total(files, a) <= import_total(files, b),
    decreases b,
{
    if b > 0 {
        lemma_imports_grow(files[b - 1].hunks@, 0, files[b - 1].hunks@.len() as int);
        if a < b {
            lemma_totals_grow(files, a, b - 1);
        } else {
            lemma_totals_grow(files, b - 1, b - 1);
        }
    }
}

proof fn lemma_imports_grow(hunks: Seq<HunkOut>, a: int, b: int)
    requires
        0 <= a <= b,
    ensures
        0 <= imports_in(hunks, a) <= imports_in(hunks, b),
    decreases b,
{
    if b > 0 {
        if a < b {
            lemma_imports_grow(hunks, a, b - 1);
        } else {
            lemma_imports_grow(hunks, b - 1, b - 1);
        }
    }
}

/// Adds what the engine left out, and the imports, to the account.
pub fn tally(l: Ledger, files: &[FileOut]) -> (r: Ledger)
    requires
        counts_fit(l, files@),
    ensures
        r == tallied(l, files@),
{
    let mut dropped: usize = 0;
    let mut imports: usize = 0;
    let n: usize = files.len();
    for i in 0..n
        invariant
            n == files@.len(),
            counts_fit(l, files@),
            dropped == dropped_total(files@, i as int),
            imports == import_total(files@, i as int),
    {
        proof {
            lemma_totals_grow(files@, i + 1, n as int);
        }
        dropped = dropped + files[i].dropped.len();
        let m: usize = files[i].hunks.len();
        for j in 0..m
            invariant
                n == files@.len(),
                i < n,
                m == files@[i as int].hunks@.len(),
                import_total(files@, i as int) + imports_in(files@[i as int].hunks@, m as int) <= usize::MAX,
                imports == import_total(files@, i as int) + imports_in(files@[i as int].hunks@, j as int),
        {
            proof {
                lemma_imports_grow(files@[i as int].hunks@, j + 1, m as int);
            }
            if same(&files[i].hunks[j].category, "import") {
                imports = imports + 1;
            }
        }
    }
    proof {
        lemma_totals_grow(files@, 0, n as int);
    }
    let mut l = l;
    l.hunks_non_comment = l.hunks_non_comment + dropped;
    l.hunks_import = imports;
    l
}

/// Whether an item has a new side that defines `name`.
pub open spec fn defines(it: Item, name: Seq<char>) -> bool {
    it.new_range[0] > 0 && exists|k: int| 0 <= k < it.symbols@.len() && (#[trigger] it.symbols@[k]).name@ == name
}

/// The first item that defines `name`.
pub open spec fn definer(items: Seq<Item>, name: Seq<char>, from: int) -> Option<int>
    decreases items.len() - from,
{
    if from >= items.len() {
        None
    } else if defines(items[from], name) {
        Some(from)
    } else {
        definer(items, name, from + 1)
    }
}

fn defines_name(it: &Item, name: &str) -> (r: bool)
    ensures
        r == defines(*it, name@),
{
    if it.new_range[0] == 0 {
        return false;
    }
    for k in 0..it.symbols.len()
        invariant
            forall|j: int| 0 <= j < k ==> (#[trigger] it.symbols@[j]).name@ != name@,
            it.new_range[0] != 0,
    {
        if same(&it.symbols[k].name, name) {
            assert(it.symbols@[k as int].name@ == name@);
            return true;
        }
    }
    false
}

fn find_definer(items: &[Item], name: &str) -> (r: Option<usize>)
    ensures
        match r {
            Some(i) => i < items@.len() && definer(items@, name@, 0) == Some(i as int),
            None => definer(items@, name@, 0) is None,
        },
{
    let n: usize = items.len();
    for i in 0..n
        invariant
            n == items@.len(),
            definer(items@, name@, 0) == definer(items@, name@, i as int),
    {
        if defines_name(&items[i], name) {
            return Some(i);
        }
    }
    None
}

/// The keys that a note leaves and goes to when its symbol was renamed.
pub open spec fn note_move(e: LedgerEntry, items: Seq<Item>) -> Option<(u64, u64)> {
    match (e.from, definer(items, e.name@, 0)) {
        (Some(old), Some(i)) => match (
            note_of(renamed(symbol_texts(items[i].symbols@), old@)),
            note_of(symbol_texts(items[i].symbols@)),
        ) {
            (Some(was), Some(is)) => if was == is {
                None
            } else {
                Some((was, is))
            },
            _ => None,
        },
        _ => None,
    }
}

/// The notes after the first `n` entries of the ledger were followed, and
/// whether any moved.
pub open spec fn notes_carried(
    notes: Map<u64, String>,
    ledger: Seq<LedgerEntry>,
    items: Seq<Item>,
    n: int,
) -> (Map<u64, String>, bool)
    decreases n,
{
    if n <= 0 {
        (notes, false)
    } else {
        let (m, moved) = notes_carried(notes, ledger, items, n - 1);
        match note_move(ledger[n - 1], items) {
            Some(k) => if m.dom().contains(k.0) {
                (m.remove(k.0).insert(k.1, m[k.0]), true)
            } else {
                (m, moved)
            },
            None => (m, moved),
        }
    }
}

/// Carries notes across renames: the ledger knows the name that a symbol had,
/// so a note on the former symbol finds its way to the present one. Says whether
/// any note moved.
pub fn carry_notes(notes: &mut HashMap<u64, String>, ledger: &[LedgerEntry], items: &[Item]) -> (r: bool)
    ensures
        (final(notes)@, r) == notes_carried(old(notes)@, ledger@, items@, ledger@.len() as int),
{
    let ghost start = notes@;
    let mut moved = false;
    let n: usize = ledger.len();
    for i in 0..n
        invariant
            n == ledger@.len(),
            (notes@, moved) == notes_carried(start, ledger@, items@, i as int),
    {
        let e = &ledger[i];
        if let Some(old_name) = &e.from {
            if let Some(at) = find_definer(items, &e.name) {
                if let (Some(was), Some(is)) = (note_key_named(&items[at], old_name), note_key(&items[at])) {
                    if was != is {
                        if let Some(text) = notes.remove(&was) {
                            notes.insert(is, text);
                            moved = true;
                        }
                    }
                }
            }
        }
    }
    moved
}

/// What the last session left behind.
pub struct Kept {
    pub marks_path: Option<String>,
    pub marks: HashMap<u64, u64>,
    pub notes_path: Option<String>,
    pub notes: HashMap<u64, String>,
    /// what the hunks looked like when the review was last opened
    pub snaps: TextMap<Snap>,
}

/// How long the steps of loading took, in milliseconds.
pub struct Times {
    pub read: usize,
    pub highlight: usize,
    pub order: usize,
}

/// A review that is ready to be read.
pub struct LoadResult {
    pub items: Vec<Item>,
    pub view: Vec<usize>,
    pub comments_only: bool,
    pub sources: Sources,
    pub highlights: Highlights,
    /// what is told of the loading
    pub timing: String,
    pub reviewed: Vec<bool>,
    pub marks_path: Option<String>,
    pub marks: HashMap<u64, u64>,
    pub groups: TextMap<String>,
    pub ledger: Ledger,
    pub symbol_ledger: Vec<LedgerEntry>,
    pub notes: HashMap<u64, String>,
    pub notes_path: Option<String>,
    pub deltas: Vec<Delta>,
    pub delta_gone: usize,
}

impl LoadResult {
    /// Whether the parts of a review go together.
    pub open spec fn wf(self) -> bool {
        &&& self.view@ == view_of(self.items@, self.comments_only, true, None)
        &&& self.view@.len() > 0
        &&& self.reviewed@.len() == self.items@.len()
        &&& targets_in(self.items@)
        &&& items_fit(self.items@)
        &&& sources_fit(self.sources@)
    }
}

/// What comes of loading.
pub enum Loaded {
    /// there is nothing to review, and why
    Nothing(String),
    /// a review, whether notes moved, and what the hunks look like now
    Review(LoadResult, bool, TextMap<Snap>),
}

/// What is told of a review without anything to read.
pub open spec fn nothing_to_review(rev: Seq<char>, only_comments: bool, note: Seq<char>) -> Seq<char> {
    if only_comments {
        "ordo: nothing to review in "@ + rev + " — no comment changes"@ + note
    } else {
        "ordo: nothing to review in "@ + rev + note
    }
}

pub fn empty_message(rev: &str, only_comments: bool, note: &str) -> (r: String)
    ensures
        r@ == nothing_to_review(rev@, only_comments, note@),
{
    if only_comments {
        "ordo: nothing to review in ".to_owned().concat(rev).concat(" — no comment changes").concat(note)
    } else {
        "ordo: nothing to review in ".to_owned().concat(rev).concat(note)
    }
}

/// What is told of the loading: files, highlighted files, hunks, groups and
/// clusters, with the time that each step took.
#[verifier::opaque]
pub open spec fn timing_text(files: int, painted: int, hunks: int, groups: int, clusters: int, t: Times) -> Seq<char> {
    "ordo: read "@ + decimal(files) + " file"@ + plural_of(files) + " in "@ + decimal(t.read as int)
        + "ms · highlighted "@ + decimal(painted) + " in "@ + decimal(t.highlight as int) + "ms · ordered "@
        + decimal(hunks) + " hunks into "@ + decimal(groups) + " groups, "@ + decimal(clusters) + " cluster"@
        + plural_of(clusters) + " in "@ + decimal(t.order as int) + "ms"@
}

pub fn timing_line(files: usize, painted: usize, hunks: usize, groups: usize, clusters: usize, t: &Times) -> (r: String)
    ensures
        r@ == timing_text(
            files as int,
            painted as int,
            hunks as int,
            groups as int,
            clusters as int,
            *t,
        ),
{
    reveal(timing_text);
    let a = "ordo: read ".to_owned().concat(&number(files)).concat(" file").concat(plural(files)).concat(
        " in ",
    ).concat(&number(t.read)).concat("ms · highlighted ").concat(&number(painted)).concat(" in ").concat(
        &number(t.highlight),
    );
    let b = a.concat("ms · ordered ").concat(&number(hunks)).concat(" hunks into ").concat(
        &number(groups),
    ).concat(" groups, ").concat(&number(clusters)).concat(" cluster").concat(plural(clusters)).concat(
        " in ",
    );
    b.concat(&number(t.order)).concat("ms")
}

/// The places of `n` things.
pub open spec fn in_turn(n: nat) -> Seq<usize> {
    Seq::new(n, |i: int| i as usize)
}

fn places(n: usize) -> (r: Vec<usize>)
    ensures
        r@ == in_turn(n as nat),
{
    let mut v: Vec<usize> = Vec::new();
    for i in 0..n
        invariant
            v@ == in_turn(i as nat),
    {
        v.push(i);
        assert(v@ =~= in_turn((i + 1) as nat));
    }
    v
}

/// The marks that are not too old.
pub open spec fn fresh_marks(marks: Map<u64, u64>, now: u64) -> Map<u64, u64> {
    marks.restrict(Set::new(|k: u64| mark_kept(now, marks[k])))
}

/// Whether a review was made of the parts that it should be made of.
pub open spec fn review_made(
    r: LoadResult,
    moved: bool,
    snaps: Map<Seq<char>, Snap>,
    rev: Seq<char>,
    sources: Sources,
    highlights: Highlights,
    ledger: Ledger,
    files: int,
    out: Output,
    items: Seq<Item>,
    kept: Kept,
    now: u64,
    t: Times,
) -> bool {
    let carried = notes_carried(kept.notes@, out.ledger@, items, out.ledger@.len() as int);
    &&& r.items@ == items
    &&& r.sources == sources
    &&& r.highlights == highlights
    &&& r.timing@ == timing_text(
        files,
        highlights@.dom().len() as int,
        items.len() as int,
        out.groups@.len() as int,
        out.clusters@.len() as int,
        t,
    )
    &&& r.marks@ == fresh_marks(kept.marks@, now)
    &&& r.marks_path == kept.marks_path
    &&& r.reviewed@ == all_marked(rev, items, sources@, r.marks@)
    &&& map_texts(r.groups@) == reasons_of(out, out.groups@.len() as int)
    &&& r.ledger == tallied(ledger, out.files@)
    &&& r.symbol_ledger == out.ledger
    &&& (r.notes@, moved) == carried
    &&& r.notes_path == kept.notes_path
    &&& forall|key: Seq<char>| #[trigger]
        snap_in(snaps, key) == (match keyed_item(items, key, items.len() as int) {
            Some(i) => Some(snapshot(items, in_turn(items.len()), sources@, i)),
            None => None,
        })
    &&& r.deltas@.len() == items.len()
    &&& forall|i: int|
        0 <= i < items.len() ==> #[trigger] r.deltas@[i] == delta_of(
            snap_in(kept.snaps@, snap_text(items[i])),
            snap_in(snaps, snap_text(items[i]))->0,
        )
    &&& r.delta_gone == kept.snaps@.dom().difference(snaps.dom()).len()
}

/// Makes a review of the files of a change, the engine's account of it, the
/// items in reading order, and what the last session left behind.
pub fn load(
    rev: &str,
    only_comments: bool,
    sources: Sources,
    highlights: Highlights,
    filter: &Filter,
    files: usize,
    out: Output,
    items: Vec<Item>,
    kept: Kept,
    now: u64,
    times: Times,
) -> (r: Loaded)
    requires
        targets_in(items@),
        items_fit(items@),
        sources_fit(sources@),
        counts_fit(filter.tally, out.files@),
    ensures
        match r {
            Loaded::Nothing(why) => view_of(items@, only_comments, true, None).len() == 0 && why@
                == nothing_to_review(rev@, only_comments, filter.told()),
            Loaded::Review(l, moved, snaps) => {
                &&& l.wf()
                &&& l.comments_only == only_comments
                &&& review_made(
                    l,
                    moved,
                    snaps@,
                    rev@,
                    sources,
                    highlights,
                    filter.tally,
                    files as int,
                    out,
                    items@,
                    kept,
                    now,
                    times,
                )
            },
        },
{
    let ghost was = kept;
    let view = compute_view(&items, only_comments, true, None);
    if view.len() == 0 {
        return Loaded::Nothing(empty_message(rev, only_comments, filter.note()));
    }
    let ledger = tally(filter.tally, &out.files);
    let groups = group_reasons(&out);
    let timing = timing_line(
        files,
        highlights.count(),
        items.len(),
        out.groups.len(),
        out.clusters.len(),
        &times,
    );
    let mut kept = kept;
    prune_marks(&mut kept.marks, now);
    assert(kept.marks@ =~= fresh_marks(was.marks@, now));
    let moved = carry_notes(&mut kept.notes, &out.ledger, &items);
    let reviewed = reviewed_by_marks(rev, &items, &sources, &kept.marks);
    let order = places(items.len());
    let (snaps, deltas) = compare_runs(&items, &order, &sources, &kept.snaps);
    let gone: usize = kept.snaps.missing_from(&snaps);
    Loaded::Review(
        LoadResult {
            items,
            view,
            comments_only: only_comments,
            sources,
            highlights,
            timing,
            reviewed,
            marks_path: kept.marks_path,
            marks: kept.marks,
            groups,
            ledger,
            symbol_ledger: out.ledger,
            notes: kept.notes,
            notes_path: kept.notes_path,
            deltas,
            delta_gone: gone,
        },
        moved,
        snaps,
    )
}

/// Following a rename loses no note: each stays where it is or moves with its
/// symbol, unless another one moves onto its key.
pub proof fn law_a_rename_keeps_every_note(notes: Map<u64, String>, e: LedgerEntry, items: Seq<Item>, key: u64)
    requires
        notes.dom().contains(key),
        note_move(e, items) matches Some(k) ==> k.1 != key,
    ensures
        ({
            let m = notes_carried(notes, seq![e], items, 1).0;
            let to = match note_move(e, items) {
                Some(k) => if k.0 == key {
                    k.1
                } else {
                    key
                },
                None => key,
            };
            m.dom().contains(to) && m[to] == notes[key]
        }),
{
    reveal_with_fuel(notes_carried, 2);
}

} // verus!
