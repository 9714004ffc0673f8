//! The state of a review session.

use crate::code_view::{last_line, last_offset, Highlights};
use crate::cursor::{line_offset, Cursor};
use crate::filter::{Ledger, PathGlobs};
use crate::identity::{targets_in, Delta};
use crate::keys::{Key, Keymap, Pane};
use crate::model::{FileLines, Item, LedgerEntry, Sources};
use crate::paint::{cells, lines_cells, text_cells, Cell, Line, Span, Style};
use crate::rules::Rule;
use crate::search::Match;
use crate::text::{texts, width};
use crate::textmap::{TextMap, TextSet};
use crate::theme::Theme;
use crate::view::{view_in, view_of, ViewMode};
use std::collections::HashMap;
use vstd::prelude::*;

verus! {

/// A box over the panes.
pub struct Popup {
    pub title: String,
    pub lines: Vec<Line>,
    pub scroll: u16,
    pub hscroll: u16,
}

/// A box over the panes, as text.
pub ghost struct PopupText {
    pub title: Seq<char>,
    pub lines: Seq<Seq<Cell>>,
    pub scroll: u16,
    pub hscroll: u16,
}

impl Popup {
    pub open spec fn text(self) -> PopupText {
        PopupText {
            title: self.title@,
            lines: lines_cells(self.lines@),
            scroll: self.scroll,
            hscroll: self.hscroll,
        }
    }

    /// A popup at its top.
    pub fn new(title: String, lines: Vec<Line>) -> (r: Popup)
        ensures
            r.text() == fresh_popup(title@, lines_cells(lines@)),
    {
        Popup { title, lines, scroll: 0, hscroll: 0 }
    }
}

pub open spec fn fresh_popup(title: Seq<char>, lines: Seq<Seq<Cell>>) -> PopupText {
    PopupText { title, lines, scroll: 0, hscroll: 0 }
}

/// The cells of lines of prose.
pub open spec fn prose_cells(lines: Seq<Seq<char>>) -> Seq<Seq<Cell>> {
    Seq::new(lines.len(), |i: int| text_cells(lines[i], Style::plain()))
}

/// A popup of prose.
pub open spec fn prose_popup(title: Seq<char>, lines: Seq<Seq<char>>) -> PopupText {
    fresh_popup(title, prose_cells(lines))
}

pub open spec fn popup_text(p: Option<Popup>) -> Option<PopupText> {
    match p {
        Some(q) => Some(q.text()),
        None => None,
    }
}

/// A line of prose.
pub fn prose(s: String) -> (r: Line)
    ensures
        cells(r@) == text_cells(s@, Style::plain()),
{
    let mut out: Vec<Span> = Vec::new();
    let sp = Span { content: s, style: Style::plain() };
    proof {
        crate::paint::lemma_cells_push(out@, sp);
    }
    out.push(sp);
    assert(cells(out@) == text_cells(s@, Style::plain()));
    out
}

/// A popup of prose.
pub fn prose_box(title: &str, lines: Vec<String>) -> (r: Popup)
    ensures
        r.text() == prose_popup(title@, texts(lines@)),
{
    let mut out: Vec<Line> = Vec::new();
    let ghost all = texts(lines@);
    for i in 0..lines.len()
        invariant
            all == texts(lines@),
            lines_cells(out@) == prose_cells(all).take(i as int),
    {
        let ghost had = lines_cells(out@);
        let line = prose(lines[i].clone());
        out.push(line);
        assert(lines_cells(out@) == had.push(prose_cells(all)[i as int]));
        assert(prose_cells(all).take(i + 1) == prose_cells(all).take(i as int).push(
            prose_cells(all)[i as int],
        ));
    }
    assert(prose_cells(all).take(lines@.len() as int) == prose_cells(all));
    Popup::new(title.to_owned(), out)
}

/// A popup of one line of prose.
pub fn prose_line(title: &str, line: String) -> (r: Popup)
    ensures
        r.text() == prose_popup(title@, seq![line@]),
{
    let mut lines: Vec<String> = Vec::new();
    lines.push(line);
    assert(texts(lines@) == seq![line@]);
    prose_box(title, lines)
}

/// What a search looks for.
#[derive(Clone, Copy, PartialEq, Eq, Debug, Structural)]
pub enum SearchKind {
    Text,
    Symbol,
}

/// A search of the code pane's file: its matches in document order, and the one
/// that the cursor was put on.
pub struct Search {
    pub kind: SearchKind,
    pub pattern: String,
    pub matches: Vec<Match>,
    pub index: usize,
}

/// The prompt that a search is typed into, and where the cursor was.
pub struct Prompt {
    pub text: String,
    pub anchor: Cursor,
}

/// The bar that a command is typed into.
pub struct CommandBar {
    pub text: String,
    /// the completion menu
    pub candidates: Vec<String>,
    /// the candidate that is highlighted
    pub selected: Option<usize>,
    /// the revisions on offer, once they were fetched
    pub rev_cache: Option<Vec<String>>,
}

/// The state of a review session.
pub struct App {
    pub items: Vec<Item>,
    pub reviewed: Vec<bool>,
    /// the items that the filters leave, in order
    pub view: Vec<usize>,
    pub comments_only: bool,
    pub show_all: bool,
    /// the path filter, as it was typed and as it is applied
    pub path_filter: Option<(String, PathGlobs)>,
    pub command: Option<CommandBar>,
    /// the selected item
    pub sel: usize,
    pub scroll: u16,
    pub hscroll: u16,
    pub why_scroll: u16,
    /// the line of the why pane that the cursor is on
    pub why_sel: usize,
    /// the lines of the code and why panes when they were last drawn
    pub code_len: usize,
    pub why_len: usize,
    /// the rows and columns that the panes had then
    pub code_height: u16,
    pub why_height: u16,
    pub code_width: u16,
    pub focus: Pane,
    pub keys: Keymap,
    /// the key that opened a chord
    pub pending: Option<Key>,
    pub sources: Sources,
    pub highlights: Highlights,
    pub cursor: Cursor,
    pub popup: Option<Popup>,
    pub prompt: Option<Prompt>,
    pub search: Option<Search>,
    /// the commit that history is told from
    pub review_sha: Option<String>,
    /// whether the working tree is what is reviewed
    pub uncommitted: bool,
    /// where jumps were made from, the latest last
    pub jumps: Vec<(usize, Cursor)>,
    /// the revision, as it was typed
    pub rev: String,
    pub marks_path: Option<String>,
    /// the reviewed marks, by key, with the time each was set
    pub marks: HashMap<u64, u64>,
    pub theme: Theme,
    pub show_groups: bool,
    /// what the header of each bucket says
    pub groups: TextMap<String>,
    /// why the hunks of each group belong together
    pub group_reasons: TextMap<String>,
    pub mode: ViewMode,
    /// how each item differs from the last run
    pub deltas: Vec<Delta>,
    /// how many hunks of the last run are gone
    pub delta_gone: usize,
    /// the notes, by the key of the symbol that each is about
    pub notes: HashMap<u64, String>,
    pub notes_path: Option<String>,
    pub symbol_ledger: Vec<LedgerEntry>,
    /// the buckets that are folded
    pub collapsed: TextSet,
    pub ledger: Ledger,
    /// what is told of the rules
    pub rules_report: Vec<String>,
    pub rules: Vec<Rule>,
    pub strategy: String,
}

/// What machine numbers ask of an item.
pub open spec fn item_fits(it: Item) -> bool {
    it.new_range[0] + it.old_range[1] <= usize::MAX
}

/// What machine numbers ask of a file.
pub open spec fn file_fits(f: FileLines) -> bool {
    &&& line_offset(texts(f.1@), f.1@.len() as int) <= usize::MAX
    &&& f.0@.len() + f.1@.len() <= usize::MAX
}

pub open spec fn items_fit(items: Seq<Item>) -> bool {
    forall|i: int| 0 <= i < items.len() ==> item_fits(#[trigger] items[i])
}

pub open spec fn sources_fit(sources: Map<Seq<char>, FileLines>) -> bool {
    forall|p: Seq<char>| #[trigger] sources.dom().contains(p) ==> file_fits(sources[p])
}

/// The path filter as it is applied.
pub open spec fn filter_globs(f: Option<(String, PathGlobs)>) -> Option<PathGlobs> {
    match f {
        Some(p) => Some(p.1),
        None => None,
    }
}

impl App {
    /// The path of the selected item.
    pub open spec fn path(self) -> Seq<char> {
        self.items@[self.sel as int].path@
    }

    /// The new side of the selected item's file, where it is known.
    pub open spec fn lines(self) -> Seq<Seq<char>> {
        if self.sources@.dom().contains(self.path()) {
            texts(self.sources@[self.path()].1@)
        } else {
            Seq::empty()
        }
    }

    /// Whether a place is in the selected item's file.
    pub open spec fn placed(self, c: Cursor) -> bool {
        &&& c.line < usize::MAX
        &&& c.col < usize::MAX
        &&& self.lines().len() > 0 ==> c.line < self.lines().len() && c.col
            <= self.lines()[c.line as int].len()
    }

    /// Whether a match is in the selected item's file.
    pub open spec fn found(self, m: Match) -> bool {
        m.0 < self.lines().len() && m.1 <= self.lines()[m.0 as int].len()
    }

    /// Whether the items, and what is kept for each, go together.
    pub open spec fn items_wf(self) -> bool {
        &&& self.reviewed@.len() == self.items@.len()
        &&& targets_in(self.items@)
        &&& items_fit(self.items@)
        &&& sources_fit(self.sources@)
    }

    /// Whether the view is what the filters leave, and the selection is in it.
    pub open spec fn view_wf(self) -> bool {
        &&& self.view@ == view_of(
            self.items@,
            self.comments_only,
            self.show_all,
            filter_globs(self.path_filter),
        )
        &&& self.view@.len() > 0
        &&& self.view@.contains(self.sel)
        &&& view_in(self.view@, self.items@)
    }

    /// Whether the cursor and the search are in the selected item's file.
    pub open spec fn code_wf(self) -> bool {
        &&& self.placed(self.cursor)
        &&& self.prompt matches Some(p) ==> self.placed(p.anchor)
        &&& self.search matches Some(s) ==> (s.matches@.len() > 0 ==> s.index < s.matches@.len()) && forall|
            k: int,
        |
            0 <= k < s.matches@.len() ==> self.found(#[trigger] s.matches@[k])
    }

    /// Whether the highlighted candidate of the command bar is in its menu.
    pub open spec fn command_wf(self) -> bool {
        self.command matches Some(b) ==> (b.selected matches Some(i) ==> i < b.candidates@.len())
    }

    /// What holds of a session between any two events.
    pub open spec fn wf(self) -> bool {
        &&& self.items_wf()
        &&& self.view_wf()
        &&& self.code_wf()
        &&& self.command_wf()
    }
}

pub proof fn lemma_view_in(items: Seq<Item>, comments_only: bool, show_all: bool, glob: Option<PathGlobs>)
    requires
        items.len() <= usize::MAX,
    ensures
        view_in(view_of(items, comments_only, show_all, glob), items),
{
    crate::view::law_a_view_is_the_visible_items_in_order(items, comments_only, show_all, glob);
}

/// The cells of a line, as far as they can be counted.
pub open spec fn counted(n: int) -> int {
    if n <= usize::MAX {
        n
    } else {
        usize::MAX as int
    }
}

fn line_width(line: &Line) -> (r: usize)
    ensures
        r == counted(cells(line@).len() as int),
{
    let mut n: usize = 0;
    let ghost all = line@;
    assert(all.take(0) == Seq::<Span>::empty());
    for i in 0..line.len()
        invariant
            all == line@,
            n == counted(cells(all.take(i as int)).len() as int),
    {
        assert(all.take(i + 1).drop_last() == all.take(i as int));
        let w: usize = width(&line[i].content);
        n = n.saturating_add(w);
    }
    assert(all.take(line@.len() as int) == all);
    n
}

/// The longest of the first `n` lines.
pub open spec fn widest(lines: Seq<Seq<Cell>>, n: int) -> int
    decreases n,
{
    if n <= 0 {
        0
    } else {
        let before = widest(lines, n - 1);
        if lines[n - 1].len() > before {
            lines[n - 1].len() as int
        } else {
            before
        }
    }
}

/// The longest line of a popup.
pub fn popup_width(lines: &[Line]) -> (r: usize)
    ensures
        r == counted(widest(lines_cells(lines@), lines@.len() as int)),
{
    let mut most: usize = 0;
    let ghost all = lines_cells(lines@);
    for i in 0..lines.len()
        invariant
            all == lines_cells(lines@),
            most == counted(widest(all, i as int)),
    {
        assert(all[i as int] == cells(lines@[i as int]@));
        let w: usize = line_width(&lines[i]);
        if w > most {
            most = w;
        }
    }
    most
}

/// An offset moved by `by`, kept among `len` lines.
pub open spec fn scroll_by(cur: int, by: int, len: int) -> int {
    crate::cursor::clamped(cur + by, 0, last_offset(len))
}

/// An offset moved by `by`, kept among `len` lines.
pub fn scrolled(cur: u16, by: isize, len: usize) -> (r: u16)
    ensures
        r == scroll_by(cur as int, by as int, len as int),
{
    let to: i128 = (cur as i128) + (by as i128);
    let last = last_line(len);
    if to < 0 {
        0
    } else if to > (last as i128) {
        last
    } else {
        to as u16
    }
}

} // verus!
