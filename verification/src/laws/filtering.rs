//! Which files are reviewed.

use crate::filter::{
    glob_matches, globs_made, globs_of, pattern_parts, undeclared, winnowed, FileDrop, Filter, PathGlobs,
};
use crate::laws::listing::lets_through;
use vstd::prelude::*;

verus! {

/// Whether a pattern excludes: it starts with an exclamation mark.
pub open spec fn excludes(p: Seq<char>) -> bool {
    p.len() > 0 && p[0] == '!'
}

/// The glob of a pattern: what follows the exclamation mark, or a backslash that
/// takes its meaning.
pub open spec fn glob_in(p: Seq<char>) -> Seq<char> {
    if p.len() > 0 && (p[0] == '!' || p[0] == '\\') {
        p.skip(1)
    } else {
        p
    }
}

proof fn lemma_parts(p: Seq<char>)
    ensures
        pattern_parts(p) == (excludes(p), glob_in(p)),
{
    reveal_strlit("!");
    reveal_strlit("\\");
    assert("!"@ =~= seq!['!']);
    assert("\\"@ =~= seq!['\\']);
    assert(crate::text::starts_with(p, "!"@) <==> p.len() > 0 && p[0] == '!') by {
        if p.len() > 0 && p[0] == '!' {
            assert(p.subrange(0, 1) =~= "!"@);
        }
        if crate::text::starts_with(p, "!"@) {
            assert(p.subrange(0, 1)[0] == '!');
        }
    }
    assert(crate::text::starts_with(p, "\\"@) <==> p.len() > 0 && p[0] == '\\') by {
        if p.len() > 0 && p[0] == '\\' {
            assert(p.subrange(0, 1) =~= "\\"@);
        }
        if crate::text::starts_with(p, "\\"@) {
            assert(p.subrange(0, 1)[0] == '\\');
        }
    }
}

proof fn lemma_globs_of(pats: Seq<Seq<char>>, negative: bool)
    ensures
        forall|g: Seq<char>|
            globs_of(pats, negative).contains(g) <==> exists|i: int|
                0 <= i < pats.len() && excludes(#[trigger] pats[i]) == negative && glob_in(pats[i]) == g,
    decreases pats.len(),
{
    if pats.len() > 0 {
        let front = pats.drop_last();
        lemma_globs_of(front, negative);
        lemma_parts(pats.last());
        let before = globs_of(front, negative);
        let all = globs_of(pats, negative);
        assert forall|g: Seq<char>| all.contains(g) <==> exists|i: int|
            0 <= i < pats.len() && excludes(#[trigger] pats[i]) == negative && glob_in(pats[i]) == g by {
            if all.contains(g) {
                let w = choose|w: int| 0 <= w < all.len() && all[w] == g;
                if w < before.len() {
                    assert(before[w] == g);
                    assert(before.contains(g));
                    let i = choose|i: int|
                        0 <= i < front.len() && excludes(#[trigger] front[i]) == negative && glob_in(front[i]) == g;
                    assert(pats[i] == front[i]);
                } else {
                    assert(excludes(pats[pats.len() - 1]) == negative);
                }
            }
            if exists|i: int|
                0 <= i < pats.len() && excludes(#[trigger] pats[i]) == negative && glob_in(pats[i]) == g {
                let i = choose|i: int|
                    0 <= i < pats.len() && excludes(#[trigger] pats[i]) == negative && glob_in(pats[i]) == g;
                if i < front.len() {
                    assert(front[i] == pats[i]);
                    assert(before.contains(g));
                    let w = choose|w: int| 0 <= w < before.len() && before[w] == g;
                    assert(all[w] == g);
                } else {
                    assert(all[before.len() as int] == g);
                }
            }
        }
    }
}

/// A path is kept exactly where some including pattern matches it, or there is
/// none, and no excluding pattern does.
pub proof fn law_a_path_is_kept_by_its_patterns(g: PathGlobs, pats: Seq<Seq<char>>, path: Seq<char>)
    requires
        globs_made(g, pats),
    ensures
        g.keeps(path) <==> lets_through(g, path),
        g.keeps(path) <==> ((forall|i: int| 0 <= i < pats.len() ==> excludes(#[trigger] pats[i])) || exists|i: int|
            0 <= i < pats.len() && !excludes(#[trigger] pats[i]) && glob_matches(glob_in(pats[i]), path)) && forall|
            i: int,
        |
            0 <= i < pats.len() && excludes(#[trigger] pats[i]) ==> !glob_matches(glob_in(pats[i]), path),
{
    lemma_globs_of(pats, false);
    lemma_globs_of(pats, true);
    let yes = globs_of(pats, false);
    let no = globs_of(pats, true);
    if forall|i: int| 0 <= i < pats.len() ==> excludes(#[trigger] pats[i]) {
        if yes.len() > 0 {
            assert(yes.contains(yes[0]));
        }
    } else {
        let i = choose|i: int| 0 <= i < pats.len() && !excludes(#[trigger] pats[i]);
        assert(excludes(pats[i]) == false);
        assert(yes.contains(glob_in(pats[i])));
    }
    if exists|i: int| 0 <= i < pats.len() && !excludes(#[trigger] pats[i]) && glob_matches(glob_in(pats[i]), path) {
        let i = choose|i: int|
            0 <= i < pats.len() && !excludes(#[trigger] pats[i]) && glob_matches(glob_in(pats[i]), path);
        assert(excludes(pats[i]) == false);
        assert(yes.contains(glob_in(pats[i])));
        let w = choose|w: int| 0 <= w < yes.len() && yes[w] == glob_in(pats[i]);
        assert(glob_matches(yes[w], path));
    }
    if crate::filter::any_matches(yes, path) {
        let w = choose|w: int| 0 <= w < yes.len() && glob_matches(#[trigger] yes[w], path);
        assert(yes.contains(yes[w]));
        let i = choose|i: int|
            0 <= i < pats.len() && excludes(#[trigger] pats[i]) == false && glob_in(pats[i]) == yes[w];
        assert(!excludes(pats[i]));
    }
    if crate::filter::any_matches(no, path) {
        let w = choose|w: int| 0 <= w < no.len() && glob_matches(#[trigger] no[w], path);
        assert(no.contains(no[w]));
        let i = choose|i: int|
            0 <= i < pats.len() && excludes(#[trigger] pats[i]) == true && glob_in(pats[i]) == no[w];
        assert(excludes(pats[i]));
    } else {
        assert forall|i: int| 0 <= i < pats.len() && excludes(#[trigger] pats[i]) implies !glob_matches(
            glob_in(pats[i]),
            path,
        ) by {
            assert(excludes(pats[i]) == true);
            assert(no.contains(glob_in(pats[i])));
            let w = choose|w: int| 0 <= w < no.len() && no[w] == glob_in(pats[i]);
            assert(!glob_matches(no[w], path));
        }
    }
}

/// One pattern decides alone: an including one keeps what it matches, an excluding
/// one keeps what it does not match.
pub proof fn law_one_pattern_decides_alone(p: Seq<char>, path: Seq<char>)
    ensures
        !excludes(p) ==> (crate::filter::patterns_keep(seq![p], path) <==> glob_matches(glob_in(p), path)),
        excludes(p) ==> (crate::filter::patterns_keep(seq![p], path) <==> !glob_matches(glob_in(p), path)),
{
    lemma_parts(p);
    let one = seq![p];
    let none = one.drop_last();
    assert(none =~= Seq::<Seq<char>>::empty());
    assert(globs_of(none, false) =~= Seq::<Seq<char>>::empty());
    assert(globs_of(none, true) =~= Seq::<Seq<char>>::empty());
    if excludes(p) {
        assert(globs_of(one, true) =~= seq![glob_in(p)]);
        assert(globs_of(one, false) =~= Seq::<Seq<char>>::empty());
        assert(globs_of(one, true)[0] == glob_in(p));
    } else {
        assert(globs_of(one, false) =~= seq![glob_in(p)]);
        assert(globs_of(one, true) =~= Seq::<Seq<char>>::empty());
        assert(globs_of(one, false)[0] == glob_in(p));
    }
}

proof fn lemma_kept(f: Filter, paths: Seq<Seq<char>>, generated: Seq<bool>, p: Seq<char>)
    requires
        generated.len() >= paths.len(),
    ensures
        f.kept_paths(paths, generated).contains(p) <==> exists|i: int|
            0 <= i < paths.len() && #[trigger] paths[i] == p && !(f.skip_generated && generated[i]) && lets_through(
                f.globs,
                p,
            ),
    decreases paths.len(),
{
    if paths.len() > 0 {
        let front = paths.drop_last();
        lemma_kept(f, front, generated, p);
        let before = f.kept_paths(front, generated);
        let all = f.kept_paths(paths, generated);
        let last = paths.len() - 1;
        assert(f.globs.keeps(p) <==> lets_through(f.globs, p));
        assert(f.globs.keeps(paths[last]) <==> lets_through(f.globs, paths[last]));
        if all.contains(p) {
            let w = choose|w: int| 0 <= w < all.len() && all[w] == p;
            if w < before.len() {
                assert(before[w] == p);
                let i = choose|i: int|
                    0 <= i < front.len() && #[trigger] front[i] == p && !(f.skip_generated && generated[i])
                        && lets_through(f.globs, p);
                assert(paths[i] == p);
            } else {
                assert(paths[last] == p);
            }
        }
        if exists|i: int|
            0 <= i < paths.len() && #[trigger] paths[i] == p && !(f.skip_generated && generated[i]) && lets_through(
                f.globs,
                p,
            ) {
            let i = choose|i: int|
                0 <= i < paths.len() && #[trigger] paths[i] == p && !(f.skip_generated && generated[i])
                    && lets_through(f.globs, p);
            if i < last {
                assert(front[i] == p);
                let w = choose|w: int| 0 <= w < before.len() && before[w] == p;
                assert(all[w] == p);
            } else {
                assert(all[before.len() as int] == p);
            }
        }
    }
}

proof fn lemma_undeclared(kept: Seq<Seq<char>>, declared: Seq<Seq<char>>, p: Seq<char>)
    ensures
        undeclared(kept, declared).contains(p) <==> kept.contains(p) && !declared.contains(p),
    decreases kept.len(),
{
    if kept.len() > 0 {
        let front = kept.drop_last();
        lemma_undeclared(front, declared, p);
        let before = undeclared(front, declared);
        let all = undeclared(kept, declared);
        if all.contains(p) {
            let w = choose|w: int| 0 <= w < all.len() && all[w] == p;
            if w < before.len() {
                assert(before[w] == p);
                let i = choose|i: int| 0 <= i < front.len() && front[i] == p;
                assert(kept[i] == p);
            } else {
                assert(kept[kept.len() - 1] == p);
            }
        }
        if kept.contains(p) && !declared.contains(p) {
            let i = choose|i: int| 0 <= i < kept.len() && kept[i] == p;
            if i < front.len() {
                assert(front[i] == p);
                let w = choose|w: int| 0 <= w < before.len() && before[w] == p;
                assert(all[w] == p);
            } else {
                assert(all[before.len() as int] == p);
            }
        }
    }
}

/// A path is reviewed exactly where the path filter lets it through and, where
/// generated files are skipped, it neither looks generated nor is declared so.
/// Nothing is reviewed that did not change.
pub proof fn law_the_filter_decides_which_files_are_reviewed(
    f: Filter,
    paths: Seq<Seq<char>>,
    generated: Seq<bool>,
    declared: Seq<Seq<char>>,
    p: Seq<char>,
)
    requires
        generated.len() == paths.len(),
    ensures
        winnowed(f, paths, generated, declared).contains(p) <==> (exists|i: int|
            0 <= i < paths.len() && #[trigger] paths[i] == p && !(f.skip_generated && generated[i])) && lets_through(
            f.globs,
            p,
        ) && !(f.skip_generated && declared.contains(p)),
{
    lemma_kept(f, paths, generated, p);
    lemma_undeclared(f.kept_paths(paths, generated), declared, p);
    if f.kept_paths(paths, generated).contains(p) {
        let i = choose|i: int|
            0 <= i < paths.len() && #[trigger] paths[i] == p && !(f.skip_generated && generated[i]) && lets_through(
                f.globs,
                p,
            );
        assert(paths[i] == p);
    }
    if (exists|i: int| 0 <= i < paths.len() && #[trigger] paths[i] == p && !(f.skip_generated && generated[i]))
        && lets_through(f.globs, p) {
        let i = choose|i: int|
            0 <= i < paths.len() && #[trigger] paths[i] == p && !(f.skip_generated && generated[i]);
        assert(paths[i] == p && !(f.skip_generated && generated[i]) && lets_through(f.globs, p));
    }
}

/// A file that is left out is charged to what left it out: to being generated
/// where such files are skipped, and else to the globs.
pub proof fn law_a_file_left_out_has_one_reason(f: Filter, path: Seq<char>, generated: bool)
    ensures
        f.skip_generated && generated ==> f.rejection(path, generated) == Some(FileDrop::Generated),
        !(f.skip_generated && generated) && !lets_through(f.globs, path) ==> f.rejection(path, generated) == Some(
            FileDrop::Globbed,
        ),
        !(f.skip_generated && generated) && lets_through(f.globs, path) ==> f.rejection(path, generated) is None,
{
}

/// The globs that exclude are told to have emptied a review exactly if some file
/// was wanted and none got through.
pub proof fn law_an_emptied_review_is_told(f: Filter, paths: Seq<Seq<char>>, i: int)
    requires
        0 <= i < paths.len(),
    ensures
        lets_through(f.globs, paths[i]) ==> !f.all_excluded(paths),
        f.globs.wanted is None && (forall|k: int| 0 <= k < paths.len() ==> !lets_through(f.globs, #[trigger] paths[k]))
            ==> f.all_excluded(paths),
{
    if lets_through(f.globs, paths[i]) {
        assert(f.globs.keeps(paths[i]));
    }
    if f.globs.wanted is None && (forall|k: int| 0 <= k < paths.len() ==> !lets_through(f.globs, #[trigger] paths[k])) {
        assert(f.globs.wants(paths[i]));
        assert forall|k: int| 0 <= k < paths.len() implies !f.globs.keeps(#[trigger] paths[k]) by {
            assert(!lets_through(f.globs, paths[k]));
        }
    }
}

} // verus!
