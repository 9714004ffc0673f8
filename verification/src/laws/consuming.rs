//! The files of other repositories that use what changed are found by what
//! they import.

use crate::consumers::{are_siblings, manifest_text, mentions, needle_of, needles_of, others, repo_label};
use crate::paths::{components, cut_at_last, name_of};
use crate::reorder::ChangeText;
use crate::text::{contains_text, joined, split_on};
use vstd::prelude::*;

verus! {

/// A text mentions a module exactly if what imports it stands in the text.
pub proof fn law_a_text_mentions_what_stands_in_it(content: Seq<char>, needle: Seq<char>)
    ensures
        mentions(content, seq![needle]) <==> contains_text(content, needle),
        !mentions(content, Seq::empty()),
{
    assert(seq![needle][0] == needle);
    if mentions(content, seq![needle]) {
        let k = choose|k: int| 0 <= k < 1 && contains_text(content, #[trigger] seq![needle][k]);
        assert(k == 0);
    }
}

/// The more is looked for, the more is found.
pub proof fn law_looking_for_more_finds_more(content: Seq<char>, a: Seq<Seq<char>>, b: Seq<Seq<char>>)
    ensures
        mentions(content, a + b) <==> mentions(content, a) || mentions(content, b),
{
    if mentions(content, a) {
        let k = choose|k: int| 0 <= k < a.len() && contains_text(content, #[trigger] a[k]);
        assert((a + b)[k] == a[k]);
    }
    if mentions(content, b) {
        let k = choose|k: int| 0 <= k < b.len() && contains_text(content, #[trigger] b[k]);
        assert((a + b)[a.len() + k] == b[k]);
    }
    if mentions(content, a + b) {
        let k = choose|k: int| 0 <= k < (a + b).len() && contains_text(content, #[trigger] (a + b)[k]);
        if k < a.len() {
            assert((a + b)[k] == a[k]);
        } else {
            assert((a + b)[k] == b[k - a.len()]);
        }
    }
}

/// A repository beside this one is named from here; any other by its path.
pub proof fn law_a_repository_beside_this_one_is_named_from_here(root: Seq<char>, repo: Seq<char>)
    ensures
        are_siblings(repo, root) && name_of(repo) is Some ==> repo_label(root, repo) == "../"@ + name_of(repo)->0,
        !are_siblings(repo, root) ==> repo_label(root, repo) == repo,
{
}

/// Two repositories that stand beside each other differ in the last part of
/// their paths at most.
pub proof fn law_what_stands_side_by_side_has_one_parent(a: Seq<char>, b: Seq<char>)
    requires
        are_siblings(a, b),
    ensures
        components(a).len() == components(b).len(),
        forall|k: int| 0 <= k < components(a).len() - 1 ==> #[trigger] components(a)[k] == components(b)[k],
{
    let x = components(a);
    let y = components(b);
    assert(x.drop_last().len() == y.drop_last().len());
    assert forall|k: int| 0 <= k < x.len() - 1 implies #[trigger] x[k] == y[k] by {
        assert(x.drop_last()[k] == x[k]);
        assert(y.drop_last()[k] == y[k]);
    }
}

proof fn lemma_others(root: Seq<char>, repos: Seq<Seq<char>>, n: int, x: Seq<char>)
    requires
        0 <= n <= repos.len(),
    ensures
        others(root, repos, n).contains(x) <==> x != root && exists|k: int| 0 <= k < n && #[trigger] repos[k] == x,
    decreases n,
{
    if n > 0 {
        lemma_others(root, repos, n - 1, x);
        let before = others(root, repos, n - 1);
        let y = repos[n - 1];
        let w = before.push(y);
        if before.contains(x) {
            let k = choose|k: int| 0 <= k < before.len() && before[k] == x;
            assert(w[k] == x);
        }
        assert(w[before.len() as int] == y);
        if w.contains(x) {
            let k = choose|k: int| 0 <= k < w.len() && w[k] == x;
            assert(k == before.len() || before[k] == x);
        }
    }
}

/// Every repository is looked into but the one under review.
pub proof fn law_every_other_repository_is_looked_into(root: Seq<char>, repos: Seq<Seq<char>>, k: int)
    requires
        0 <= k < repos.len(),
    ensures
        others(root, repos, repos.len() as int).contains(repos[k]) <==> repos[k] != root,
{
    lemma_others(root, repos, repos.len() as int, repos[k]);
    assert(repos[k] == repos[k]);
}

/// A manifest points at a repository beside its own by the name of it.
pub proof fn law_a_manifest_points_at_a_neighbour(name: Seq<char>)
    ensures
        manifest_text(name) == seq!['.', '.', '/'] + name,
{
    reveal_strlit("../");
    assert("../"@ == seq!['.', '.', '/']);
}

/// A file without an extension is imported by nothing that can be looked for.
pub proof fn law_a_file_without_an_extension_is_not_looked_for(path: Seq<char>)
    requires
        cut_at_last(path, '.') is None,
    ensures
        needle_of(path) is None,
{
}

proof fn lemma_two_joined(parts: Seq<Seq<char>>, sep: Seq<char>)
    requires
        parts.len() == 2,
    ensures
        joined(parts, sep) == parts[0] + sep + parts[1],
{
    reveal_with_fuel(joined, 3);
    assert(parts.drop_last().len() == 1);
    assert(parts.drop_last()[0] == parts[0]);
    assert(parts.drop_last().last() == parts[0]);
}

/// A module is looked for by the last two names of its path: with a point
/// between them where Python imports it, with a stroke where a script does.
pub proof fn law_a_module_is_looked_for_by_its_last_two_names(path: Seq<char>, stem: Seq<char>, ext: Seq<char>)
    requires
        cut_at_last(path, '.') == Some((stem, ext)),
        split_on(stem, '/').len() >= 2,
        split_on(stem, '/').last() != "__init__"@,
    ensures
        ({
            let parts = split_on(stem, '/');
            let a = parts[parts.len() - 2];
            let b = parts[parts.len() - 1];
            &&& (ext == "py"@ ==> needle_of(path) == Some(a + "."@ + b))
            &&& (ext == "js"@ || ext == "mjs"@ || ext == "ts"@ || ext == "tsx"@ ==> needle_of(path) == Some(
                a + "/"@ + b,
            ))
            &&& (ext != "py"@ && ext != "js"@ && ext != "mjs"@ && ext != "ts"@ && ext != "tsx"@ ==> needle_of(path)
                is None)
        }),
{
    let parts = split_on(stem, '/');
    let tail = crate::consumers::module_tail(stem);
    assert(tail.len() == 2);
    assert(tail[0] == parts[parts.len() - 2] && tail[1] == parts[parts.len() - 1]);
    lemma_two_joined(tail, "."@);
    lemma_two_joined(tail, "/"@);
    reveal_strlit("py");
    reveal_strlit("js");
    reveal_strlit("mjs");
    reveal_strlit("ts");
    reveal_strlit("tsx");
    assert("py"@[0] == 'p' && "js"@[0] == 'j' && "ts"@[0] == 't' && "mjs"@.len() == 3 && "tsx"@.len() == 3);
}

/// A package is looked for by the names of its directory, not by the file that
/// makes it one.
pub proof fn law_a_package_is_looked_for_by_its_directory(path: Seq<char>, stem: Seq<char>)
    requires
        cut_at_last(path, '.') == Some((stem, "py"@)),
        split_on(stem, '/').len() >= 3,
        split_on(stem, '/').last() == "__init__"@,
    ensures
        ({
            let parts = split_on(stem, '/');
            needle_of(path) == Some(parts[parts.len() - 3] + "."@ + parts[parts.len() - 2])
        }),
{
    let parts = split_on(stem, '/');
    let tail = crate::consumers::module_tail(stem);
    assert(tail.len() == 2);
    assert(tail[0] == parts[parts.len() - 3] && tail[1] == parts[parts.len() - 2]);
    lemma_two_joined(tail, "."@);
}

/// A module with one name alone is looked for by the statement that imports it.
pub proof fn law_a_module_at_the_top_is_looked_for_by_its_import(path: Seq<char>, stem: Seq<char>, ext: Seq<char>)
    requires
        cut_at_last(path, '.') == Some((stem, ext)),
        split_on(stem, '/').len() == 1,
        split_on(stem, '/').last() != "__init__"@,
    ensures
        ext == "py"@ ==> needle_of(path) == Some("import "@ + split_on(stem, '/')[0]),
        ext == "ts"@ ==> needle_of(path) == Some("/"@ + split_on(stem, '/')[0]),
{
    reveal_strlit("py");
    reveal_strlit("ts");
    assert("py"@[0] == 'p' && "ts"@[0] == 't');
}

/// Every changed module is looked for.
pub proof fn law_every_changed_module_is_looked_for(changes: Seq<ChangeText>, n: int, k: int)
    requires
        0 <= k < n <= changes.len(),
        needle_of(changes[k].path) is Some,
    ensures
        needles_of(changes, n).contains(needle_of(changes[k].path)->0),
    decreases n,
{
    let before = needles_of(changes, n - 1);
    let now = needles_of(changes, n);
    let x = needle_of(changes[k].path)->0;
    if k < n - 1 {
        law_every_changed_module_is_looked_for(changes, n - 1, k);
        let j = choose|j: int| 0 <= j < before.len() && before[j] == x;
        assert(now[j] == x);
    } else {
        assert(now[before.len() as int] == x);
    }
}

} // verus!
