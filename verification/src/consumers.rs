//! Files of other repositories that use what a change touches.

use crate::editor::{distinct, distinct_of};
use crate::paths::{components, cut_at_last, cut_last, file_name, name_of};
use crate::reorder::{change_texts, Change, ChangeText};
use crate::text::{
    has_text, contains_text, join, joined, option_text, same, split_on, split_text, starts_with, has_prefix, texts,
};
use vstd::prelude::*;

verus! {

/// How many files of other repositories are read at most.
pub const MAX_FILES: usize = 200;

/// How large each of them is at most, in bytes.
pub const MAX_BYTES: u64 = 524288;

/// How large all of them are at most, in bytes.
pub const MAX_TOTAL_BYTES: usize = 8388608;

/// Whether an extension is that of a JavaScript or TypeScript module.
pub open spec fn is_script(ext: Seq<char>) -> bool {
    ext == "js"@ || ext == "mjs"@ || ext == "ts"@ || ext == "tsx"@
}

/// The last two parts of a module's path; a package is named by its directory.
pub open spec fn module_tail(stem: Seq<char>) -> Seq<Seq<char>> {
    let all = split_on(stem, '/');
    let parts = if all.len() > 0 && all.last() == "__init__"@ {
        all.drop_last()
    } else {
        all
    };
    if parts.len() > 2 {
        parts.skip(parts.len() - 2)
    } else {
        parts
    }
}

/// What an importer of a file has to write.
pub open spec fn needle_of(path: Seq<char>) -> Option<Seq<char>> {
    match cut_at_last(path, '.') {
        None => None,
        Some((stem, ext)) => {
            let tail = module_tail(stem);
            if tail.len() == 0 {
                None
            } else if ext == "py"@ {
                if tail.len() == 1 {
                    Some("import "@ + tail[0])
                } else {
                    Some(joined(tail, "."@))
                }
            } else if is_script(ext) {
                if tail.len() == 1 {
                    Some("/"@ + tail[0])
                } else {
                    Some(joined(tail, "/"@))
                }
            } else {
                None
            }
        },
    }
}

fn tail_of(stem: &str) -> (r: Vec<String>)
    ensures
        texts(r@) == module_tail(stem@),
{
    let mut parts = split_text(stem, '/');
    let ghost all = texts(parts@);
    let n: usize = parts.len();
    if n > 0 {
        assert(all.last() == parts@.last()@);
        if same(&parts[n - 1], "__init__") {
            let _ = parts.pop();
            assert(texts(parts@) =~= all.drop_last());
        }
    }
    let ghost kept = texts(parts@);
    assert(kept.len() == parts@.len());
    let m: usize = parts.len();
    if m <= 2 {
        return parts;
    }
    let mut out: Vec<String> = Vec::new();
    out.push(parts[m - 2].clone());
    out.push(parts[m - 1].clone());
    assert(texts(out@) =~= kept.skip(m - 2));
    out
}

fn needle_for(path: &str) -> (r: Option<String>)
    ensures
        option_text(r) == needle_of(path@),
{
    let (stem, ext) = match cut_last(path, '.') {
        Some(p) => p,
        None => {
            return None;
        },
    };
    let tail = tail_of(&stem);
    assert(texts(tail@).len() == tail@.len());
    if tail.len() == 0 {
        return None;
    }
    assert(texts(tail@)[0] == tail@[0]@);
    if same(&ext, "py") {
        if tail.len() == 1 {
            Some("import ".to_owned().concat(&tail[0]))
        } else {
            Some(join(&tail, "."))
        }
    } else if same(&ext, "js") || same(&ext, "mjs") || same(&ext, "ts") || same(&ext, "tsx") {
        if tail.len() == 1 {
            Some("/".to_owned().concat(&tail[0]))
        } else {
            Some(join(&tail, "/"))
        }
    } else {
        None
    }
}

/// What importers of the first `n` files have to write.
pub open spec fn needles_of(changes: Seq<ChangeText>, n: int) -> Seq<Seq<char>>
    decreases n,
{
    if n <= 0 {
        Seq::empty()
    } else {
        match needle_of(changes[n - 1].path) {
            Some(s) => needles_of(changes, n - 1).push(s),
            None => needles_of(changes, n - 1),
        }
    }
}

/// What an importer of a changed file has to write, each once: `script.run` for
/// `script/run.py`, `script/run` for a script's module.
pub fn needles(changes: &[Change]) -> (r: Vec<String>)
    ensures
        texts(r@) == distinct(needles_of(change_texts(changes@), changes@.len() as int)),
{
    let mut all: Vec<String> = Vec::new();
    assert(texts(all@) =~= Seq::empty());
    for i in 0..changes.len()
        invariant
            texts(all@) == needles_of(change_texts(changes@), i as int),
    {
        let ghost had = texts(all@);
        if let Some(s) = needle_for(&changes[i].path) {
            all.push(s);
            assert(texts(all@) =~= had.push(s@));
        }
    }
    distinct_of(&all)
}

/// Whether two paths start alike: at the root, at `.`, or with a name.
pub open spec fn start_alike(a: Seq<char>, b: Seq<char>) -> bool {
    starts_with(a, "/"@) == starts_with(b, "/"@) && starts_with(a, "./"@) == starts_with(b, "./"@)
}

/// Whether two paths that name something lie in one directory.
pub open spec fn are_siblings(a: Seq<char>, b: Seq<char>) -> bool {
    let x = components(a);
    let y = components(b);
    start_alike(a, b) && x.len() > 0 && y.len() > 0 && x.drop_last() == y.drop_last()
}

fn named_parts(path: &str) -> (r: Vec<String>)
    ensures
        texts(r@) == components(path@),
{
    let parts = split_text(path, '/');
    let ghost keep = |c: Seq<char>| c.len() > 0 && c != "."@;
    let mut out: Vec<String> = Vec::new();
    proof {
        reveal(Seq::filter);
        assert(texts(out@) =~= texts(parts@).take(0).filter(keep));
    }
    for i in 0..parts.len()
        invariant
            keep == (|c: Seq<char>| c.len() > 0 && c != "."@),
            texts(out@) == texts(parts@).take(i as int).filter(keep),
    {
        let ghost had = texts(out@);
        proof {
            let t = texts(parts@).take(i + 1);
            assert(t.drop_last() =~= texts(parts@).take(i as int));
            reveal(Seq::filter);
        }
        if !parts[i].as_str().is_empty() && !same(&parts[i], ".") {
            out.push(parts[i].clone());
            assert(texts(out@) =~= had.push(parts@[i as int]@));
        }
    }
    assert(texts(parts@).take(parts@.len() as int) =~= texts(parts@));
    out
}

fn siblings(a: &str, b: &str) -> (r: bool)
    ensures
        r == are_siblings(a@, b@),
{
    let x = named_parts(a);
    let y = named_parts(b);
    let ghost p = texts(x@);
    let ghost q = texts(y@);
    assert(p.len() == x@.len() && q.len() == y@.len());
    if has_prefix(a, "/") != has_prefix(b, "/") || has_prefix(a, "./") != has_prefix(b, "./") || x.len() == 0
        || y.len() == 0 {
        return false;
    }
    if x.len() != y.len() {
        assert(p.drop_last().len() != q.drop_last().len());
        return false;
    }
    let n: usize = x.len() - 1;
    for i in 0..n
        invariant
            n == x@.len() - 1,
            n == y@.len() - 1,
            p == texts(x@),
            q == texts(y@),
            p == components(a@),
            q == components(b@),
            forall|j: int| 0 <= j < i ==> p[j] == q[j],
    {
        assert(p[i as int] == x@[i as int]@);
        assert(q[i as int] == y@[i as int]@);
        if !same(&x[i], &y[i]) {
            assert(p.drop_last()[i as int] != q.drop_last()[i as int]);
            return false;
        }
    }
    assert(p.drop_last() =~= q.drop_last());
    true
}

/// What a repository is shown as: `../name` beside the reviewed one, and its
/// path elsewhere.
pub open spec fn repo_label(root: Seq<char>, repo: Seq<char>) -> Seq<char> {
    match name_of(repo) {
        Some(name) if are_siblings(repo, root) => "../"@ + name,
        _ => repo,
    }
}

/// What a repository is shown as.
pub fn shown_as(root: &str, repo: &str) -> (r: String)
    ensures
        r@ == repo_label(root@, repo@),
{
    match file_name(repo) {
        Some(name) => if siblings(repo, root) {
            "../".to_owned().concat(&name)
        } else {
            repo.to_owned()
        },
        None => repo.to_owned(),
    }
}

/// A file that uses what a change touches.
pub struct Consumer {
    pub path: String,
    pub content: String,
}

/// The files that were found so far.
pub struct Scan {
    pub found: Vec<Consumer>,
    /// how large they are together, in bytes
    pub total: usize,
}

/// Whether a text mentions one of some others.
pub open spec fn mentions(content: Seq<char>, needles: Seq<Seq<char>>) -> bool {
    exists|k: int| 0 <= k < needles.len() && contains_text(content, #[trigger] needles[k])
}

fn mentions_any(content: &str, needles: &[String]) -> (r: bool)
    ensures
        r == mentions(content@, texts(needles@)),
{
    for k in 0..needles.len()
        invariant
            forall|j: int| 0 <= j < k ==> !contains_text(content@, #[trigger] texts(needles@)[j]),
    {
        assert(texts(needles@)[k as int] == needles@[k as int]@);
        if has_text(content, &needles[k]) {
            return true;
        }
    }
    false
}

impl Scan {
    /// Whether more files may be read.
    pub fn has_room(&self) -> (r: bool)
        ensures
            r == (self.found@.len() < MAX_FILES && self.total < MAX_TOTAL_BYTES),
    {
        self.found.len() < MAX_FILES && self.total < MAX_TOTAL_BYTES
    }

    /// Takes a file of a repository, where it mentions what the change touches;
    /// `size` is how large it is in bytes.
    pub fn offer(&mut self, shown: &str, file: &str, content: String, size: usize, needles: &[String])
        requires
            old(self).total + size <= usize::MAX,
        ensures
            if mentions(content@, texts(needles@)) {
                &&& final(self).total == old(self).total + size
                &&& final(self).found@.len() == old(self).found@.len() + 1
                &&& final(self).found@.drop_last() == old(self).found@
                &&& final(self).found@.last().path@ == shown@ + "/"@ + file@
                &&& final(self).found@.last().content == content
            } else {
                *final(self) == *old(self)
            },
    {
        if mentions_any(&content, needles) {
            let ghost had = self.found@;
            self.total = self.total + size;
            self.found.push(Consumer { path: shown.to_owned().concat("/").concat(file), content });
            assert(self.found@.drop_last() =~= had);
        }
    }
}

/// Whether a file is small enough to be read.
pub fn is_readable(size: u64) -> (r: bool)
    ensures
        r == (size <= MAX_BYTES),
{
    size <= MAX_BYTES
}

/// What a manifest that depends on a repository beside it holds.
pub open spec fn manifest_text(name: Seq<char>) -> Seq<char> {
    "../"@ + name
}

pub fn manifest_needle(name: &str) -> (r: String)
    ensures
        r@ == manifest_text(name@),
{
    "../".to_owned().concat(name)
}

/// Whether a manifest depends on the repository `name` beside it.
pub fn points_at(manifest: &str, name: &str) -> (r: bool)
    ensures
        r == contains_text(manifest@, manifest_text(name@)),
{
    has_text(manifest, &manifest_needle(name))
}

/// The first `n` repositories, without the reviewed one.
pub open spec fn others(root: Seq<char>, repos: Seq<Seq<char>>, n: int) -> Seq<Seq<char>>
    decreases n,
{
    if n <= 0 {
        Seq::empty()
    } else if repos[n - 1] == root {
        others(root, repos, n - 1)
    } else {
        others(root, repos, n - 1).push(repos[n - 1])
    }
}

/// The repositories to look into: each once, and not the reviewed one.
pub fn other_repos(root: &str, repos: &[String]) -> (r: Vec<String>)
    ensures
        texts(r@) == distinct(others(root@, texts(repos@), repos@.len() as int)),
{
    let mut left: Vec<String> = Vec::new();
    assert(texts(left@) =~= Seq::empty());
    for i in 0..repos.len()
        invariant
            texts(left@) == others(root@, texts(repos@), i as int),
    {
        assert(texts(repos@)[i as int] == repos@[i as int]@);
        let ghost had = texts(left@);
        if !same(&repos[i], root) {
            left.push(repos[i].clone());
            assert(texts(left@) =~= had.push(repos@[i as int]@));
        }
    }
    distinct_of(&left)
}

/// The repositories that are looked into differ, and none is the reviewed one.
pub proof fn law_no_repository_is_looked_into_twice(root: Seq<char>, repos: Seq<Seq<char>>)
    ensures
        ({
            let looked = distinct(others(root, repos, repos.len() as int));
            looked.no_duplicates() && !looked.contains(root)
        }),
{
    let all = others(root, repos, repos.len() as int);
    lemma_without_root(root, repos, repos.len() as int);
    crate::editor::lemma_distinct_contains(all);
    lemma_each_once(all);
}

proof fn lemma_without_root(root: Seq<char>, repos: Seq<Seq<char>>, n: int)
    ensures
        !others(root, repos, n).contains(root),
    decreases n,
{
    if n > 0 {
        lemma_without_root(root, repos, n - 1);
        let had = others(root, repos, n - 1);
        if repos[n - 1] != root {
            let all = had.push(repos[n - 1]);
            assert forall|w: int| 0 <= w < all.len() implies #[trigger] all[w] != root by {
                if w < had.len() {
                    assert(had.contains(had[w]));
                }
            }
        }
    }
}

proof fn lemma_each_once(s: Seq<Seq<char>>)
    ensures
        distinct(s).no_duplicates(),
    decreases s.len(),
{
    if s.len() > 0 {
        lemma_each_once(s.drop_last());
        crate::editor::lemma_distinct_contains(s.drop_last());
        let d = distinct(s.drop_last());
        if !s.drop_last().contains(s.last()) {
            assert(forall|i: int| 0 <= i < d.len() ==> d.contains(#[trigger] d[i]));
        }
    }
}

} // verus!
