//! Which changed files reach the review: path globs, generated files, and the
//! count of what was left out and why.

use crate::editor::holds;
use crate::text::{starts_with, strip_prefix, texts};
use vstd::prelude::*;

verus! {

#[verifier::external_type_specification]
#[verifier::external_body]
pub struct ExGlob(globset::Glob);

#[verifier::external_type_specification]
#[verifier::external_body]
pub struct ExGlobSet(globset::GlobSet);

/// What `globset` says against a pattern; nothing where the pattern is a glob.
pub uninterp spec fn glob_complaint(pattern: Seq<char>) -> Option<Seq<char>>;

/// What `globset` says against a set of patterns; nothing where it takes them.
pub uninterp spec fn set_complaint(patterns: Seq<Seq<char>>) -> Option<Seq<char>>;

/// Whether a glob in which `*` crosses `/` matches a path.
pub uninterp spec fn glob_matches(pattern: Seq<char>, path: Seq<char>) -> bool;

/// The pattern that a compiled glob was made from.
pub uninterp spec fn glob_pattern(g: globset::Glob) -> Seq<char>;

/// The patterns that a compiled set was made from, in order.
pub uninterp spec fn set_patterns(s: globset::GlobSet) -> Seq<Seq<char>>;

/// `globset::GlobBuilder` with `literal_separator(false)`: compiles a pattern,
/// or says what is wrong with it. Which patterns are globs is left to the crate.
#[verifier::external_body]
pub(crate) fn compile_glob(pattern: &str) -> (r: Result<globset::Glob, String>)
    ensures
        match r {
            Ok(g) => glob_complaint(pattern@) is None && glob_pattern(g) == pattern@,
            Err(why) => glob_complaint(pattern@) == Some(why@),
        },
{
    globset::GlobBuilder::new(pattern).literal_separator(false).build().map_err(|e| e.to_string())
}

/// `globset::GlobSet::new`: compiles the globs into one set, or says why it
/// cannot.
#[verifier::external_body]
pub(crate) fn compile_set(globs: Vec<globset::Glob>) -> (r: Result<globset::GlobSet, String>)
    ensures
        match r {
            Ok(s) => set_complaint(patterns_of(globs@)) is None && set_patterns(s) == patterns_of(globs@),
            Err(why) => set_complaint(patterns_of(globs@)) == Some(why@),
        },
{
    globset::GlobSet::new(globs).map_err(|e| e.to_string())
}

/// `globset::GlobSet::is_match`: whether any glob of the set matches the path.
#[verifier::external_body]
pub(crate) fn set_is_match(set: &globset::GlobSet, path: &str) -> (r: bool)
    ensures
        r == (exists|i: int|
            0 <= i < set_patterns(*set).len() && glob_matches(#[trigger] set_patterns(*set)[i], path@)),
{
    set.is_match(path)
}

pub open spec fn patterns_of(globs: Seq<globset::Glob>) -> Seq<Seq<char>> {
    Seq::new(globs.len(), |i: int| glob_pattern(globs[i]))
}

/// Whether some pattern matches a path.
pub open spec fn any_matches(patterns: Seq<Seq<char>>, path: Seq<char>) -> bool {
    exists|i: int| 0 <= i < patterns.len() && glob_matches(#[trigger] patterns[i], path)
}

/// A path filter: the globs of which one must match, if there are any, and the
/// globs of which none may.
pub struct PathGlobs {
    pub wanted: Option<globset::GlobSet>,
    pub unwanted: Option<globset::GlobSet>,
}

impl PathGlobs {
    /// Whether a path passes the globs that want it.
    pub open spec fn wants(self, path: Seq<char>) -> bool {
        match self.wanted {
            Some(g) => any_matches(set_patterns(g), path),
            None => true,
        }
    }

    /// Whether a path passes the filter.
    pub open spec fn keeps(self, path: Seq<char>) -> bool {
        self.wants(path) && match self.unwanted {
            Some(g) => !any_matches(set_patterns(g), path),
            None => true,
        }
    }

    pub fn is_wanted(&self, path: &str) -> (r: bool)
        ensures
            r == self.wants(path@),
    {
        match &self.wanted {
            Some(g) => set_is_match(g, path),
            None => true,
        }
    }

    pub fn is_match(&self, path: &str) -> (r: bool)
        ensures
            r == self.keeps(path@),
    {
        let banned = match &self.unwanted {
            Some(g) => set_is_match(g, path),
            None => false,
        };
        self.is_wanted(path) && !banned
    }

    pub fn is_empty(&self) -> (r: bool)
        ensures
            r == (self.wanted is None && self.unwanted is None),
    {
        self.wanted.is_none() && self.unwanted.is_none()
    }
}

/// Whether a pattern excludes, and the glob that it holds: a leading `!` makes
/// it exclude, a leading backslash is dropped.
pub open spec fn pattern_parts(p: Seq<char>) -> (bool, Seq<char>) {
    if starts_with(p, "!"@) {
        (true, p.skip(1))
    } else if starts_with(p, "\\"@) {
        (false, p.skip(1))
    } else {
        (false, p)
    }
}

fn split_pattern(p: &str) -> (r: (bool, String))
    ensures
        (r.0, r.1@) == pattern_parts(p@),
{
    proof {
        reveal_strlit("!");
        reveal_strlit("\\");
    }
    if let Some(rest) = strip_prefix(p, "!") {
        (true, rest)
    } else if let Some(rest) = strip_prefix(p, "\\") {
        (false, rest)
    } else {
        (false, p.to_owned())
    }
}

/// What is wrong with a pattern, if anything.
pub open spec fn pattern_complaint(p: Seq<char>) -> Option<Seq<char>> {
    let glob = pattern_parts(p).1;
    if glob.len() == 0 {
        Some("bad glob '"@ + p + "': empty pattern"@)
    } else {
        match glob_complaint(glob) {
            Some(why) => Some("bad glob '"@ + p + "': "@ + why),
            None => None,
        }
    }
}

/// The globs of the patterns that exclude, or of those that do not, in order.
pub open spec fn globs_of(pats: Seq<Seq<char>>, negative: bool) -> Seq<Seq<char>>
    decreases pats.len(),
{
    if pats.len() == 0 {
        Seq::empty()
    } else {
        let before = globs_of(pats.drop_last(), negative);
        if pattern_parts(pats.last()).0 == negative {
            before.push(pattern_parts(pats.last()).1)
        } else {
            before
        }
    }
}

/// What is said against a row of patterns: the first bad one, else what the
/// sets made of them run into.
pub open spec fn patterns_complaint(pats: Seq<Seq<char>>) -> Option<Seq<char>> {
    match first_complaint(pats) {
        Some(why) => Some(why),
        None => if globs_of(pats, false).len() > 0 && set_complaint(globs_of(pats, false)) is Some {
            set_complaint(globs_of(pats, false))
        } else if globs_of(pats, true).len() > 0 {
            set_complaint(globs_of(pats, true))
        } else {
            None
        },
    }
}

pub open spec fn first_complaint(pats: Seq<Seq<char>>) -> Option<Seq<char>>
    decreases pats.len(),
{
    if pats.len() == 0 {
        None
    } else {
        match first_complaint(pats.drop_last()) {
            Some(why) => Some(why),
            None => pattern_complaint(pats.last()),
        }
    }
}

proof fn lemma_first_complaint(pats: Seq<Seq<char>>, n: int)
    requires
        0 <= n <= pats.len(),
        first_complaint(pats.take(n)) is Some,
    ensures
        first_complaint(pats) == first_complaint(pats.take(n)),
    decreases pats.len() - n,
{
    if n < pats.len() {
        assert(pats.take(n + 1).drop_last() == pats.take(n));
        lemma_first_complaint(pats, n + 1);
    } else {
        assert(pats.take(n) == pats);
    }
}

/// Whether path globs were made of patterns.
pub open spec fn globs_made(g: PathGlobs, pats: Seq<Seq<char>>) -> bool {
    &&& (g.wanted is Some <==> globs_of(pats, false).len() > 0)
    &&& (g.unwanted is Some <==> globs_of(pats, true).len() > 0)
    &&& g.wanted matches Some(s) ==> set_patterns(s) == globs_of(pats, false)
    &&& g.unwanted matches Some(s) ==> set_patterns(s) == globs_of(pats, true)
}

/// Compiles a filter from its patterns.
pub fn build_globs(pats: &[String]) -> (r: Result<PathGlobs, String>)
    ensures
        match r {
            Ok(g) => patterns_complaint(texts(pats@)) is None && globs_made(g, texts(pats@)),
            Err(why) => patterns_complaint(texts(pats@)) == Some(why@),
        },
{
    let mut positive: Vec<globset::Glob> = Vec::new();
    let mut negative: Vec<globset::Glob> = Vec::new();
    let ghost all = texts(pats@);
    assert(patterns_of(positive@) == globs_of(all.take(0), false));
    assert(patterns_of(negative@) == globs_of(all.take(0), true));
    for i in 0..pats.len()
        invariant
            all == texts(pats@),
            first_complaint(all.take(i as int)) is None,
            patterns_of(positive@) == globs_of(all.take(i as int), false),
            patterns_of(negative@) == globs_of(all.take(i as int), true),
    {
        let p = &pats[i];
        proof {
            assert(all.take(i + 1).drop_last() == all.take(i as int));
            assert(all.take(i + 1).last() == p@);
        }
        let (excludes, glob) = split_pattern(p);
        if glob.as_str().is_empty() {
            proof {
                lemma_first_complaint(all, i + 1);
            }
            return Err("bad glob '".to_owned().concat(p).concat("': empty pattern"));
        }
        match compile_glob(&glob) {
            Err(why) => {
                proof {
                    lemma_first_complaint(all, i + 1);
                }
                return Err("bad glob '".to_owned().concat(p).concat("': ").concat(&why));
            },
            Ok(g) => {
                let ghost pos = patterns_of(positive@);
                let ghost neg = patterns_of(negative@);
                if excludes {
                    negative.push(g);
                    assert(patterns_of(negative@) == neg.push(glob@));
                } else {
                    positive.push(g);
                    assert(patterns_of(positive@) == pos.push(glob@));
                }
            },
        }
    }
    assert(all.take(all.len() as int) == all);
    let wanted = if positive.len() > 0 {
        match compile_set(positive) {
            Ok(s) => Some(s),
            Err(why) => {
                return Err(why);
            },
        }
    } else {
        None
    };
    let unwanted = if negative.len() > 0 {
        match compile_set(negative) {
            Ok(s) => Some(s),
            Err(why) => {
                return Err(why);
            },
        }
    } else {
        None
    };
    Ok(PathGlobs { wanted, unwanted })
}

/// Whether a row of patterns keeps a path: one that wants it, if any does any
/// wanting, and none that excludes it.
pub open spec fn patterns_keep(pats: Seq<Seq<char>>, path: Seq<char>) -> bool {
    (globs_of(pats, false).len() == 0 || any_matches(globs_of(pats, false), path)) && !any_matches(
        globs_of(pats, true),
        path,
    )
}

proof fn lemma_globs_of(pats: Seq<Seq<char>>, negative: bool)
    ensures
        forall|g: Seq<char>|
            #[trigger] globs_of(pats, negative).contains(g) <==> exists|k: int|
                0 <= k < pats.len() && #[trigger] pattern_parts(pats[k]) == (negative, g),
    decreases pats.len(),
{
    if pats.len() > 0 {
        let rest = pats.drop_last();
        lemma_globs_of(rest, negative);
        let before = globs_of(rest, negative);
        let all = globs_of(pats, negative);
        assert forall|g: Seq<char>| #[trigger] all.contains(g) <==> exists|k: int|
            0 <= k < pats.len() && #[trigger] pattern_parts(pats[k]) == (negative, g) by {
            if all.contains(g) {
                let w = choose|w: int| 0 <= w < all.len() && all[w] == g;
                if w < before.len() {
                    assert(before[w] == g);
                    assert(before.contains(g));
                    let k = choose|k: int|
                        0 <= k < rest.len() && #[trigger] pattern_parts(rest[k]) == (negative, g);
                    assert(pattern_parts(pats[k]) == (negative, g));
                } else {
                    assert(pattern_parts(pats[pats.len() - 1]) == (negative, g));
                }
            }
            if exists|k: int| 0 <= k < pats.len() && #[trigger] pattern_parts(pats[k]) == (negative, g) {
                let k = choose|k: int|
                    0 <= k < pats.len() && #[trigger] pattern_parts(pats[k]) == (negative, g);
                if k < rest.len() {
                    assert(pattern_parts(rest[k]) == (negative, g));
                    assert(before.contains(g));
                    let w = choose|w: int| 0 <= w < before.len() && before[w] == g;
                    assert(all[w] == g);
                } else {
                    assert(all[before.len() as int] == g);
                }
            }
        }
    }
}

proof fn lemma_any_matches(a: Seq<Seq<char>>, b: Seq<Seq<char>>, path: Seq<char>)
    requires
        forall|g: Seq<char>| a.contains(g) ==> b.contains(g),
        any_matches(a, path),
    ensures
        any_matches(b, path),
{
    let i = choose|i: int| 0 <= i < a.len() && glob_matches(#[trigger] a[i], path);
    assert(a.contains(a[i]));
    assert(b.contains(a[i]));
    let j = choose|j: int| 0 <= j < b.len() && b[j] == a[i];
    assert(glob_matches(b[j], path));
}

/// The order of patterns does not matter: what counts is which there are.
pub proof fn law_pattern_order_does_not_matter(a: Seq<Seq<char>>, b: Seq<Seq<char>>, path: Seq<char>)
    requires
        forall|p: Seq<char>| a.contains(p) <==> b.contains(p),
    ensures
        patterns_keep(a, path) == patterns_keep(b, path),
{
    lemma_same_globs(a, b, false);
    lemma_same_globs(a, b, true);
    lemma_same_globs(b, a, false);
    lemma_same_globs(b, a, true);
    if any_matches(globs_of(a, false), path) {
        lemma_any_matches(globs_of(a, false), globs_of(b, false), path);
    }
    if any_matches(globs_of(b, false), path) {
        lemma_any_matches(globs_of(b, false), globs_of(a, false), path);
    }
    if any_matches(globs_of(a, true), path) {
        lemma_any_matches(globs_of(a, true), globs_of(b, true), path);
    }
    if any_matches(globs_of(b, true), path) {
        lemma_any_matches(globs_of(b, true), globs_of(a, true), path);
    }
    if globs_of(a, false).len() > 0 {
        assert(globs_of(a, false).contains(globs_of(a, false)[0]));
        assert(globs_of(b, false).contains(globs_of(a, false)[0]));
    }
    if globs_of(b, false).len() > 0 {
        assert(globs_of(b, false).contains(globs_of(b, false)[0]));
        assert(globs_of(a, false).contains(globs_of(b, false)[0]));
    }
}

proof fn lemma_same_globs(a: Seq<Seq<char>>, b: Seq<Seq<char>>, negative: bool)
    requires
        forall|p: Seq<char>| a.contains(p) <==> b.contains(p),
    ensures
        forall|g: Seq<char>| globs_of(a, negative).contains(g) ==> globs_of(b, negative).contains(g),
{
    lemma_globs_of(a, negative);
    lemma_globs_of(b, negative);
    assert forall|g: Seq<char>| globs_of(a, negative).contains(g) implies globs_of(b, negative).contains(
        g,
    ) by {
        let k = choose|k: int| 0 <= k < a.len() && #[trigger] pattern_parts(a[k]) == (negative, g);
        assert(a.contains(a[k]));
        assert(b.contains(a[k]));
        let j = choose|j: int| 0 <= j < b.len() && b[j] == a[k];
        assert(pattern_parts(b[j]) == (negative, g));
    }
}

/// A path that an excluding pattern matches is out, whatever else wants it.
pub proof fn law_an_excluding_pattern_always_wins(pats: Seq<Seq<char>>, k: int, path: Seq<char>)
    requires
        0 <= k < pats.len(),
        pattern_parts(pats[k]).0,
        glob_matches(pattern_parts(pats[k]).1, path),
    ensures
        !patterns_keep(pats, path),
{
    lemma_globs_of(pats, true);
    let g = pattern_parts(pats[k]).1;
    assert(pattern_parts(pats[k]) == (true, g));
    assert(globs_of(pats, true).contains(g));
    let j = choose|j: int| 0 <= j < globs_of(pats, true).len() && globs_of(pats, true)[j] == g;
    assert(glob_matches(globs_of(pats, true)[j], path));
}

/// What never reached the screen, and why.
#[derive(Clone, Copy, PartialEq, Eq, Debug, Structural)]
pub struct Ledger {
    /// paths that changed, before any filtering
    pub files_seen: usize,
    /// dropped as generated or lock files
    pub files_generated: usize,
    /// dropped because the repository declares them generated
    pub files_declared: usize,
    /// dropped by a path glob
    pub files_globbed: usize,
    /// changed but unreadable
    pub files_unreadable: usize,
    /// import hunks
    pub hunks_import: usize,
    /// hunks dropped because only comments were asked for
    pub hunks_non_comment: usize,
}

impl Ledger {
    pub open spec fn zero() -> Ledger {
        Ledger {
            files_seen: 0,
            files_generated: 0,
            files_declared: 0,
            files_globbed: 0,
            files_unreadable: 0,
            hunks_import: 0,
            hunks_non_comment: 0,
        }
    }

    pub fn new() -> (r: Ledger)
        ensures
            r == Ledger::zero(),
    {
        Ledger {
            files_seen: 0,
            files_generated: 0,
            files_declared: 0,
            files_globbed: 0,
            files_unreadable: 0,
            hunks_import: 0,
            hunks_non_comment: 0,
        }
    }
}

/// Why a path never reached the engine.
#[derive(Clone, Copy, PartialEq, Eq, Debug, Structural)]
pub enum FileDrop {
    Generated,
    Globbed,
}

/// Which changed files reach the engine, and the account of those that do not.
pub struct Filter {
    pub globs: PathGlobs,
    pub skip_generated: bool,
    /// whether every path that was wanted was then excluded
    pub negatives_emptied: bool,
    pub tally: Ledger,
}

impl Filter {
    /// Why a path is dropped, `generated` telling whether it is a generated or
    /// lock file; none where it is kept.
    pub open spec fn rejection(self, path: Seq<char>, generated: bool) -> Option<FileDrop> {
        if self.skip_generated && generated {
            Some(FileDrop::Generated)
        } else if !self.globs.keeps(path) {
            Some(FileDrop::Globbed)
        } else {
            None
        }
    }

    pub fn new(globs: PathGlobs, skip_generated: bool) -> (r: Filter)
        ensures
            r.globs == globs,
            r.skip_generated == skip_generated,
            !r.negatives_emptied,
            r.tally == Ledger::zero(),
    {
        Filter { globs, skip_generated, negatives_emptied: false, tally: Ledger::new() }
    }

    pub fn reject(&self, path: &str, generated: bool) -> (r: Option<FileDrop>)
        ensures
            r == self.rejection(path@, generated),
    {
        if self.skip_generated && generated {
            Some(FileDrop::Generated)
        } else if !self.globs.is_match(path) {
            Some(FileDrop::Globbed)
        } else {
            None
        }
    }

    pub fn keep(&self, path: &str, generated: bool) -> (r: bool)
        ensures
            r == (self.rejection(path@, generated) is None),
    {
        self.reject(path, generated).is_none()
    }

    /// The paths of `paths` that are not rejected.
    pub open spec fn kept_paths(self, paths: Seq<Seq<char>>, generated: Seq<bool>) -> Seq<Seq<char>>
        decreases paths.len(),
    {
        if paths.len() == 0 {
            Seq::empty()
        } else {
            let before = self.kept_paths(paths.drop_last(), generated);
            if self.rejection(paths.last(), generated[paths.len() - 1]) is None {
                before.push(paths.last())
            } else {
                before
            }
        }
    }

    /// How many of `paths` are rejected for a reason.
    pub open spec fn dropped_for(self, paths: Seq<Seq<char>>, generated: Seq<bool>, why: FileDrop) -> int
        decreases paths.len(),
    {
        if paths.len() == 0 {
            0
        } else {
            self.dropped_for(paths.drop_last(), generated, why) + if self.rejection(
                paths.last(),
                generated[paths.len() - 1],
            ) == Some(why) {
                1int
            } else {
                0
            }
        }
    }

    /// Whether some path is wanted and every wanted path is excluded.
    pub open spec fn all_excluded(self, paths: Seq<Seq<char>>) -> bool {
        (exists|i: int| 0 <= i < paths.len() && self.globs.wants(#[trigger] paths[i])) && forall|i: int|
            0 <= i < paths.len() ==> !self.globs.keeps(#[trigger] paths[i])
    }

    /// Whether the account still has room for `n` paths more.
    pub open spec fn room_for(self, n: int) -> bool {
        self.tally.files_seen + n <= usize::MAX && self.tally.files_generated + n <= usize::MAX
            && self.tally.files_declared + n <= usize::MAX && self.tally.files_globbed + n <= usize::MAX
    }

    /// Winnows a change list by globs and by what is generated, and keeps the
    /// account. `generated[i]` tells whether `paths[i]` is a generated or lock
    /// file.
    pub fn winnow(&mut self, paths: Vec<String>, generated: &[bool]) -> (r: Vec<String>)
        requires
            paths@.len() == generated@.len(),
            old(self).room_for(paths@.len() as int),
        ensures
            texts(r@) == old(self).kept_paths(texts(paths@), generated@),
            final(self).globs == old(self).globs,
            final(self).skip_generated == old(self).skip_generated,
            final(self).negatives_emptied == old(self).all_excluded(texts(paths@)),
            final(self).tally == (Ledger {
                files_seen: (old(self).tally.files_seen + paths@.len()) as usize,
                files_generated: (old(self).tally.files_generated + old(self).dropped_for(
                    texts(paths@),
                    generated@,
                    FileDrop::Generated,
                )) as usize,
                files_globbed: (old(self).tally.files_globbed + old(self).dropped_for(
                    texts(paths@),
                    generated@,
                    FileDrop::Globbed,
                )) as usize,
                ..old(self).tally
            }),
    {
        let ghost all = texts(paths@);
        let ghost this = *self;
        let mut any_wanted = false;
        let mut any_kept = false;
        let mut kept: Vec<String> = Vec::new();
        let mut n_generated: usize = 0;
        let mut n_globbed: usize = 0;
        let n: usize = paths.len();
        for i in 0..n
            invariant
                n == paths@.len(),
                n == generated@.len(),
                *self == this,
                this.room_for(n as int),
                all == texts(paths@),
                any_wanted == exists|k: int| 0 <= k < i && this.globs.wants(#[trigger] all[k]),
                any_kept == exists|k: int| 0 <= k < i && this.globs.keeps(#[trigger] all[k]),
                texts(kept@) == this.kept_paths(all.take(i as int), generated@),
                n_generated == this.dropped_for(all.take(i as int), generated@, FileDrop::Generated),
                n_globbed == this.dropped_for(all.take(i as int), generated@, FileDrop::Globbed),
                n_generated <= i,
                n_globbed <= i,
        {
            let p = &paths[i];
            proof {
                assert(all.take(i + 1).drop_last() == all.take(i as int));
                assert(all.take(i + 1).last() == p@);
                assert(all[i as int] == p@);
            }
            if self.globs.is_wanted(p) {
                any_wanted = true;
                assert(this.globs.wants(all[i as int]));
            }
            if self.globs.is_match(p) {
                any_kept = true;
                assert(this.globs.keeps(all[i as int]));
            }
            match self.reject(p, generated[i]) {
                Some(FileDrop::Generated) => {
                    n_generated = n_generated + 1;
                },
                Some(FileDrop::Globbed) => {
                    n_globbed = n_globbed + 1;
                },
                None => {
                    let ghost before = texts(kept@);
                    kept.push(p.clone());
                    assert(texts(kept@) == before.push(p@));
                },
            }
        }
        assert(all.take(all.len() as int) == all);
        self.negatives_emptied = any_wanted && !any_kept;
        self.tally.files_seen = self.tally.files_seen + n;
        self.tally.files_generated = self.tally.files_generated + n_generated;
        self.tally.files_globbed = self.tally.files_globbed + n_globbed;
        kept
    }

    /// Drops what the repository itself declares generated, and keeps the
    /// account. Nothing is dropped where generated files were asked for.
    pub fn drop_declared(&mut self, kept: Vec<String>, declared: &[String]) -> (r: Vec<String>)
        requires
            old(self).tally.files_declared + kept@.len() <= usize::MAX,
        ensures
            texts(r@) == (if old(self).skip_generated {
                undeclared(texts(kept@), texts(declared@))
            } else {
                texts(kept@)
            }),
            *final(self) == (Filter {
                tally: Ledger {
                    files_declared: (old(self).tally.files_declared + kept@.len() - r@.len()) as usize,
                    ..old(self).tally
                },
                ..*old(self)
            }),
    {
        if !self.skip_generated {
            return kept;
        }
        let ghost all = texts(kept@);
        let mut out: Vec<String> = Vec::new();
        let n: usize = kept.len();
        for i in 0..n
            invariant
                n == kept@.len(),
                all == texts(kept@),
                texts(out@) == undeclared(all.take(i as int), texts(declared@)),
                out@.len() <= i,
        {
            assert(all.take(i + 1).drop_last() == all.take(i as int));
            assert(all.take(i + 1).last() == kept@[i as int]@);
            if !holds(declared, &kept[i]) {
                let ghost before = texts(out@);
                out.push(kept[i].clone());
                assert(texts(out@) == before.push(kept@[i as int]@));
                assert(texts(out@).len() == out@.len());
            }
        }
        assert(all.take(all.len() as int) == all);
        self.tally.files_declared = self.tally.files_declared + (n - out.len());
        out
    }

    /// Winnows a change list: globs and generated files first, then what the
    /// repository declares generated.
    pub fn apply(&mut self, paths: Vec<String>, generated: &[bool], declared: &[String]) -> (r: Vec<
        String,
    >)
        requires
            paths@.len() == generated@.len(),
            old(self).room_for(paths@.len() as int),
        ensures
            texts(r@) == winnowed(*old(self), texts(paths@), generated@, texts(declared@)),
            final(self).globs == old(self).globs,
            final(self).skip_generated == old(self).skip_generated,
            final(self).negatives_emptied == old(self).all_excluded(texts(paths@)),
            final(self).tally == (Ledger {
                files_seen: (old(self).tally.files_seen + paths@.len()) as usize,
                files_generated: (old(self).tally.files_generated + old(self).dropped_for(
                    texts(paths@),
                    generated@,
                    FileDrop::Generated,
                )) as usize,
                files_globbed: (old(self).tally.files_globbed + old(self).dropped_for(
                    texts(paths@),
                    generated@,
                    FileDrop::Globbed,
                )) as usize,
                files_declared: (old(self).tally.files_declared + old(self).kept_paths(
                    texts(paths@),
                    generated@,
                ).len() - r@.len()) as usize,
                ..old(self).tally
            }),
            final(self).accounts(*old(self), paths@.len() as int, r@.len() as int),
    {
        proof {
            self.lemma_account(texts(paths@), generated@);
        }
        let kept = self.winnow(paths, generated);
        assert(texts(kept@).len() == kept@.len());
        let r = self.drop_declared(kept, declared);
        proof {
            assert(texts(r@).len() == r@.len());
            lemma_undeclared_len(texts(kept@), texts(declared@));
        }
        r
    }

    /// Whether, of `seen` paths that came in since `before`, every one that is
    /// not among the `kept` is charged to exactly one reason.
    pub open spec fn accounts(self, before: Filter, seen: int, kept: int) -> bool {
        &&& self.tally.files_seen == before.tally.files_seen + seen
        &&& seen == kept + (self.tally.files_generated - before.tally.files_generated) + (
        self.tally.files_globbed - before.tally.files_globbed) + (self.tally.files_declared
            - before.tally.files_declared)
    }

    proof fn lemma_account(self, paths: Seq<Seq<char>>, generated: Seq<bool>)
        ensures
            self.kept_paths(paths, generated).len() + self.dropped_for(
                paths,
                generated,
                FileDrop::Generated,
            ) + self.dropped_for(paths, generated, FileDrop::Globbed) == paths.len(),
            0 <= self.dropped_for(paths, generated, FileDrop::Generated),
            0 <= self.dropped_for(paths, generated, FileDrop::Globbed),
        decreases paths.len(),
    {
        if paths.len() > 0 {
            self.lemma_account(paths.drop_last(), generated);
        }
    }

    /// Records a path that changed but could not be read.
    pub fn note_unreadable(&mut self)
        requires
            old(self).tally.files_unreadable < usize::MAX,
        ensures
            *final(self) == (Filter {
                tally: Ledger {
                    files_unreadable: (old(self).tally.files_unreadable + 1) as usize,
                    ..old(self).tally
                },
                ..*old(self)
            }),
    {
        self.tally.files_unreadable = self.tally.files_unreadable + 1;
    }

    /// What is told of the filter where it leaves nothing.
    pub open spec fn told(self) -> Seq<char> {
        if !(self.globs.wanted is None && self.globs.unwanted is None) {
            if self.negatives_emptied {
                " (every matching path was excluded by a negative glob)"@
            } else {
                " matching the given globs"@
            }
        } else if self.skip_generated {
            " (generated and lock files are skipped; --all keeps them)"@
        } else {
            ""@
        }
    }

    /// Why an empty review may be empty.
    pub fn note(&self) -> (r: &'static str)
        ensures
            r@ == self.told(),
    {
        if !self.globs.is_empty() {
            if self.negatives_emptied {
                " (every matching path was excluded by a negative glob)"
            } else {
                " matching the given globs"
            }
        } else if self.skip_generated {
            " (generated and lock files are skipped; --all keeps them)"
        } else {
            ""
        }
    }
}

proof fn lemma_undeclared_len(kept: Seq<Seq<char>>, declared: Seq<Seq<char>>)
    ensures
        undeclared(kept, declared).len() <= kept.len(),
    decreases kept.len(),
{
    if kept.len() > 0 {
        lemma_undeclared_len(kept.drop_last(), declared);
    }
}

/// The paths that are not declared generated.
pub open spec fn undeclared(kept: Seq<Seq<char>>, declared: Seq<Seq<char>>) -> Seq<Seq<char>>
    decreases kept.len(),
{
    if kept.len() == 0 {
        Seq::empty()
    } else {
        let before = undeclared(kept.drop_last(), declared);
        if declared.contains(kept.last()) {
            before
        } else {
            before.push(kept.last())
        }
    }
}

/// Whether `a` is what is left of `b` when some of it is taken away.
pub open spec fn some_of(a: Seq<Seq<char>>, b: Seq<Seq<char>>) -> bool
    decreases b.len(),
{
    a.len() == 0 || (b.len() > 0 && ((a.last() == b.last() && some_of(a.drop_last(), b.drop_last())) || some_of(
        a,
        b.drop_last(),
    )))
}

/// What winnowing leaves of a change list.
pub open spec fn winnowed(
    f: Filter,
    paths: Seq<Seq<char>>,
    generated: Seq<bool>,
    declared: Seq<Seq<char>>,
) -> Seq<Seq<char>> {
    if f.skip_generated {
        undeclared(f.kept_paths(paths, generated), declared)
    } else {
        f.kept_paths(paths, generated)
    }
}

/// What winnowing leaves is some of what changed, in order: each path of it passes
/// the globs, and is not declared generated where generated files are skipped.
/// With the paths that were dropped for a reason it makes up all of them.
pub proof fn law_winnowing_leaves_some_of_the_paths(
    f: Filter,
    paths: Seq<Seq<char>>,
    generated: Seq<bool>,
    declared: Seq<Seq<char>>,
)
    ensures
        ({
            let r = winnowed(f, paths, generated, declared);
            &&& some_of(r, paths)
            &&& forall|i: int| 0 <= i < r.len() ==> f.globs.keeps(#[trigger] r[i])
            &&& f.skip_generated ==> forall|i: int| 0 <= i < r.len() ==> !declared.contains(#[trigger] r[i])
            &&& r.len() <= f.kept_paths(paths, generated).len()
            &&& f.kept_paths(paths, generated).len() + f.dropped_for(paths, generated, FileDrop::Generated)
                + f.dropped_for(paths, generated, FileDrop::Globbed) == paths.len()
        }),
    decreases paths.len(),
{
    f.lemma_account(paths, generated);
    if paths.len() > 0 {
        let init = paths.drop_last();
        law_winnowing_leaves_some_of_the_paths(f, init, generated, declared);
        let before = f.kept_paths(init, generated);
        let had = winnowed(f, init, generated, declared);
        let p = paths.last();
        let r = winnowed(f, paths, generated, declared);
        assert(before.push(p).drop_last() =~= before);
        assert(had.push(p).drop_last() =~= had);
        assert(r == had || r == had.push(p));
        if r == had.push(p) {
            assert(f.globs.keeps(p));
            assert forall|i: int| 0 <= i < r.len() implies f.globs.keeps(#[trigger] r[i]) by {
                if i < had.len() {
                    assert(r[i] == had[i]);
                }
            }
            if f.skip_generated {
                assert forall|i: int| 0 <= i < r.len() implies !declared.contains(#[trigger] r[i]) by {
                    if i < had.len() {
                        assert(r[i] == had[i]);
                    }
                }
            }
        }
    }
}

} // verus!
