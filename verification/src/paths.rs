//! Paths as text, with `/` between their components.

use crate::text::{
    after_last, chars_of, ends_with, has_prefix, has_suffix, same, slice_string, split_on, split_text, starts_with,
    texts,
};
use vstd::prelude::*;

verus! {

/// The components of a path that name something: neither empty nor `.`.
pub open spec fn components(path: Seq<char>) -> Seq<Seq<char>> {
    split_on(path, '/').filter(|c: Seq<char>| c.len() > 0 && c != "."@)
}

/// The last component of a path; none where the path is empty, the root, or
/// ends in `..`.
pub open spec fn name_of(path: Seq<char>) -> Option<Seq<char>> {
    let parts = components(path);
    if parts.len() == 0 || parts.last() == ".."@ {
        None
    } else {
        Some(parts.last())
    }
}

/// The last component of a path.
pub fn file_name(path: &str) -> (r: Option<String>)
    ensures
        crate::text::option_text(r) == name_of(path@),
{
    let parts = split_text(path, '/');
    let ghost keep = |c: Seq<char>| c.len() > 0 && c != "."@;
    let mut last: Option<String> = None;
    for i in 0..parts.len()
        invariant
            keep == (|c: Seq<char>| c.len() > 0 && c != "."@),
            ({
                let seen = texts(parts@).take(i as int).filter(keep);
                match last {
                    None => seen.len() == 0,
                    Some(s) => seen.len() > 0 && seen.last() == s@,
                }
            }),
    {
        proof {
            let t = texts(parts@).take(i + 1);
            assert(t.drop_last() == texts(parts@).take(i as int));
            reveal(Seq::filter);
        }
        if !parts[i].as_str().is_empty() && !same(&parts[i], ".") {
            last = Some(parts[i].clone());
        }
    }
    assert(texts(parts@).take(parts@.len() as int) == texts(parts@));
    match last {
        Some(s) => {
            if same(&s, "..") {
                None
            } else {
                Some(s)
            }
        },
        None => None,
    }
}

/// `dir` with `name` below it; an absolute `name` stands alone.
pub open spec fn joined_path(dir: Seq<char>, name: Seq<char>) -> Seq<char> {
    if starts_with(name, "/"@) || dir.len() == 0 {
        name
    } else if ends_with(dir, "/"@) {
        dir + name
    } else {
        dir + "/"@ + name
    }
}

pub fn join_path(dir: &str, name: &str) -> (r: String)
    ensures
        r@ == joined_path(dir@, name@),
{
    if has_prefix(name, "/") || dir.is_empty() {
        name.to_owned()
    } else if has_suffix(dir, "/") {
        dir.to_owned().concat(name)
    } else {
        dir.to_owned().concat("/").concat(name)
    }
}

/// A text cut at the last `c`, which neither part holds.
pub open spec fn cut_at_last(s: Seq<char>, c: char) -> Option<(Seq<char>, Seq<char>)> {
    let at = after_last(s, c, s.len() as int);
    if at <= 0 {
        None
    } else {
        Some((s.take(at - 1), s.skip(at)))
    }
}

pub fn cut_last(s: &str, c: char) -> (r: Option<(String, String)>)
    ensures
        match r {
            Some((head, tail)) => cut_at_last(s@, c) == Some((head@, tail@)),
            None => cut_at_last(s@, c) is None,
        },
{
    let cs = chars_of(s);
    let len: usize = cs.len();
    let mut n: usize = len;
    while n > 0
        invariant
            n <= len,
            len == cs@.len(),
            cs@ == s@,
            after_last(s@, c, s@.len() as int) == after_last(s@, c, n as int),
        decreases n,
    {
        if cs[n - 1] == c {
            let head = slice_string(&cs, 0, n - 1);
            let tail = slice_string(&cs, n, len);
            assert(head@ == s@.take(n - 1));
            assert(tail@ == s@.skip(n as int));
            return Some((head, tail));
        }
        n = n - 1;
    }
    None
}

/// The text after the last `.` of a path, or the whole path.
pub open spec fn suffix_of(path: Seq<char>) -> Seq<char> {
    split_on(path, '.').last()
}

pub proof fn lemma_split_on_nonempty(s: Seq<char>, sep: char)
    ensures
        split_on(s, sep).len() > 0,
    decreases s.len(),
{
}

/// The text after the last `.` of a path, or the whole path.
pub fn suffix(path: &str) -> (r: String)
    ensures
        r@ == suffix_of(path@),
{
    let parts = split_text(path, '.');
    proof {
        lemma_split_on_nonempty(path@, '.');
        assert(texts(parts@).len() == parts@.len());
    }
    assert(texts(parts@).last() == parts@[parts@.len() - 1]@);
    parts[parts.len() - 1].clone()
}

} // verus!
