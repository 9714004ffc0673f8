//! What a review is made of: the engine's account of a change, and the items
//! that the reader reads.

use crate::text::{option_text, same, same_option};
use crate::textmap::TextMap;
use vstd::prelude::*;

verus! {

/// A definition: its name, its syntactic kind, and the scope it stands in.
pub struct Symbol {
    pub name: String,
    pub kind: String,
    pub scope: Option<String>,
}

/// What identifies a symbol.
pub ghost struct SymbolText {
    pub name: Seq<char>,
    pub kind: Seq<char>,
    pub scope: Option<Seq<char>>,
}

impl Symbol {
    pub open spec fn text(self) -> SymbolText {
        SymbolText { name: self.name@, kind: self.kind@, scope: option_text(self.scope) }
    }

    pub fn copied(&self) -> (r: Symbol)
        ensures
            r == *self,
    {
        Symbol { name: self.name.clone(), kind: self.kind.clone(), scope: self.scope.clone() }
    }
}

pub open spec fn symbol_texts(s: Seq<Symbol>) -> Seq<SymbolText> {
    Seq::new(s.len(), |i: int| s[i].text())
}

/// Two symbols are the same if name, kind and scope all are.
pub fn symbol_eq(a: &Symbol, b: &Symbol) -> (r: bool)
    ensures
        r == (a.text() == b.text()),
{
    same(&a.name, &b.name) && same(&a.kind, &b.kind) && same_option(&a.scope, &b.scope)
}

/// `scope.name`, or the bare name at top level.
pub open spec fn qualified(s: SymbolText) -> Seq<char> {
    match s.scope {
        Some(scope) => scope + "."@ + s.name,
        None => s.name,
    }
}

pub fn qualified_name(sym: &Symbol) -> (r: String)
    ensures
        r@ == qualified(sym.text()),
{
    match &sym.scope {
        Some(s) => s.clone().concat(".").concat(&sym.name),
        None => sym.name.clone(),
    }
}

pub fn copy_symbols(v: &[Symbol]) -> (r: Vec<Symbol>)
    ensures
        r@ == v@,
{
    let mut r: Vec<Symbol> = Vec::new();
    for i in 0..v.len()
        invariant
            r@ == v@.take(i as int),
    {
        r.push(v[i].copied());
        assert(v@.take(i + 1) == v@.take(i as int).push(v@[i as int]));
    }
    assert(v@.take(v@.len() as int) == v@);
    r
}

/// A reviewing rule that matched a hunk.
pub struct RuleHit {
    pub rule: String,
    pub level: String,
    pub message: String,
}

/// Something worth knowing about a construct that a hunk uses.
pub struct Advisory {
    pub construct: String,
    pub message: String,
    pub verdict: bool,
}

/// One hunk as the engine accounts for it. Ranges are line numbers from 1, both
/// ends included.
pub struct HunkOut {
    pub id: String,
    pub old_range: [usize; 2],
    pub new_range: [usize; 2],
    pub category: String,
    pub enclosing: Option<String>,
    pub rules: Vec<RuleHit>,
    pub group: String,
    pub rationale: String,
    pub noise: bool,
    pub comment: bool,
    pub details: Vec<String>,
    pub notes: Vec<String>,
    pub advisories: Vec<Advisory>,
    pub symbols: Vec<Symbol>,
    /// the rows of the new side that use what the hunk defines
    pub uses_at: Vec<usize>,
}

/// One file as the engine accounts for it.
pub struct FileOut {
    pub path: String,
    pub hunks: Vec<HunkOut>,
    /// whether the file was read without a grammar
    pub degraded: bool,
    pub unsupported: bool,
    /// why each hunk that is missing was dropped
    pub dropped: Vec<String>,
}

/// One entry of the reading order.
pub struct OrderItem {
    pub path: String,
    pub hunk: String,
}

/// A definition and a use of it, by hunk.
pub struct Edge {
    pub from: String,
    pub to: String,
    pub why: String,
}

/// A group of hunks that belong together, and why.
pub struct Group {
    pub id: String,
    pub reason: String,
}

/// One symbol's change.
pub struct LedgerEntry {
    pub name: String,
    pub kind: Option<String>,
    pub scope: Option<String>,
    pub path: String,
    /// the hunk that the change is anchored to
    pub at: String,
    pub change: String,
    /// the symbol's former name
    pub from: Option<String>,
    /// the hunks that use it
    pub used_by: Vec<String>,
}

/// The engine's account of a change.
pub struct Output {
    pub order: Vec<OrderItem>,
    pub files: Vec<FileOut>,
    pub groups: Vec<Group>,
    pub edges: Vec<Edge>,
    /// hunk ids by independent part of the change
    pub clusters: Vec<Vec<String>>,
    pub problems: Vec<String>,
    pub notes: Vec<String>,
    pub ledger: Vec<LedgerEntry>,
}

/// Which characters of each line of a hunk changed, by side; none for a line
/// that is shown as changed whole.
pub struct Refined {
    pub added: Vec<Option<Vec<(usize, usize)>>>,
    pub removed: Vec<Option<Vec<(usize, usize)>>>,
}

impl Refined {
    pub fn none() -> (r: Refined)
        ensures
            r.added@.len() == 0,
            r.removed@.len() == 0,
    {
        Refined { added: Vec::new(), removed: Vec::new() }
    }
}

/// A line of the why pane that leads to another hunk.
pub struct EdgeRef {
    pub label: String,
    /// the other hunk's place among the items, if it is part of the review
    pub target: Option<usize>,
    /// whether this hunk uses what the other one defines
    pub dependency: bool,
}

/// One hunk as the reader reads it.
pub struct Item {
    pub path: String,
    pub old_range: [usize; 2],
    pub new_range: [usize; 2],
    /// the sign before the row
    pub mark: String,
    pub cat: String,
    pub rationale: String,
    pub details: Vec<String>,
    pub notes: Vec<String>,
    pub edges: Vec<EdgeRef>,
    /// the key that the list groups and folds by
    pub bucket: String,
    /// the entry of the symbol ledger that is anchored here
    pub ledger: Option<usize>,
    pub advisories: Vec<Advisory>,
    pub noise: bool,
    /// whether only comments changed
    pub comment: bool,
    /// the symbols that the hunk defines
    pub symbols: Vec<Symbol>,
    pub enclosing: Option<String>,
    pub group: String,
    pub rules: Vec<RuleHit>,
    pub refined: Refined,
    /// the part of the change that the hunk belongs to, from 1; none where
    /// there is only one
    pub cluster: Option<usize>,
    /// the rows of the new side that use what the hunk defines
    pub uses_at: Vec<usize>,
}

/// A file's lines before and after the change.
pub type FileLines = (Vec<String>, Vec<String>);

/// The lines of the files under review, by path.
pub type Sources = TextMap<FileLines>;

} // verus!
