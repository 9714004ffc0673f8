//! A place is handed to the reader's editor in the way that editor takes it, and
//! a list of places in a script that the editor reads.

use crate::editor::{
    cluster_count, edit_report, editor_words, location_args, plural_of, quickfix_args, quickfix_report, quoted,
    script_item, script_items, script_of, script_title, vim_kin, Launch, QfHunk,
};
use crate::text::{decimal, trimmed, words_of};
use vstd::prelude::*;

verus! {

/// The visual editor comes before the plain one, and a blank setting counts as
/// none.
pub proof fn law_the_visual_editor_comes_first(visual: Option<Seq<char>>, editor: Option<Seq<char>>)
    ensures
        visual is Some && trimmed(visual->0).len() > 0 ==> editor_words(visual, editor) == words_of(visual->0),
        (visual is None || trimmed(visual->0).len() == 0) && editor is Some && trimmed(editor->0).len() > 0
            ==> editor_words(visual, editor) == words_of(editor->0),
        (visual is None || trimmed(visual->0).len() == 0) && (editor is None || trimmed(editor->0).len() == 0)
            ==> editor_words(visual, editor) == words_of("vi"@),
{
}

/// Every editor is told the file, and those that can be told a line are told it:
/// in front of the file, or behind it after a colon.
pub proof fn law_an_editor_is_told_the_place_in_its_own_way(path: Seq<char>, line: int)
    ensures
        location_args("vim"@, path, line) == seq!["+"@ + decimal(line), path],
        location_args("nvim"@, path, line) == seq!["+"@ + decimal(line), path],
        location_args("vi"@, path, line) == seq!["+"@ + decimal(line), path],
        location_args("nano"@, path, line) == seq!["+"@ + decimal(line), path],
        location_args("emacs"@, path, line) == seq!["+"@ + decimal(line), path],
        location_args("kak"@, path, line) == seq!["+"@ + decimal(line), path],
        location_args("hx"@, path, line) == seq![path + ":"@ + decimal(line)],
        location_args("code"@, path, line) == seq!["-g"@, path + ":"@ + decimal(line)],
        location_args("codium"@, path, line) == seq!["-g"@, path + ":"@ + decimal(line)],
{
    reveal_strlit("vim");
    reveal_strlit("nvim");
    reveal_strlit("vi");
    reveal_strlit("nano");
    reveal_strlit("emacs");
    reveal_strlit("kak");
    reveal_strlit("hx");
    reveal_strlit("code");
    reveal_strlit("codium");
    assert("hx"@[0] == 'h' && "vi"@[0] == 'v');
    assert("code"@[0] == 'c' && "nvim"@[0] == 'n' && "nano"@[0] == 'n');
    assert("codium"@.len() == 6 && "code"@.len() == 4);
}

/// An editor that is not known is told the file alone.
pub proof fn law_another_editor_is_told_the_file(name: Seq<char>, path: Seq<char>, line: int)
    requires
        name != "vim"@ && name != "nvim"@ && name != "vi"@ && name != "nano"@ && name != "emacs"@ && name != "kak"@,
        name != "hx"@ && name != "code"@ && name != "codium"@,
    ensures
        location_args(name, path, line) == seq![path],
{
}

/// What is said after an edit: the place where it was opened, the status that
/// the editor ended with, or why it could not be started.
pub proof fn law_an_edit_is_reported_as_it_went(
    program: Seq<char>,
    path: Seq<char>,
    line: int,
    approximate: bool,
    words: String,
)
    ensures
        edit_report(Launch::Done, program, path, line, false) == "opened "@ + path + ":"@ + decimal(line),
        edit_report(Launch::Done, program, path, line, true) == "opened "@ + path + ":"@ + decimal(line)
            + " (approximate — this file has changed since the reviewed revision)"@,
        edit_report(Launch::Exited(words), program, path, line, false) == program + " exited with "@ + words@,
        edit_report(Launch::Failed(words), program, path, line, approximate) == "failed to launch '"@ + program
            + "': "@ + words@,
{
    assert("opened "@ + path + ":"@ + decimal(line) + Seq::<char>::empty() == "opened "@ + path + ":"@ + decimal(line));
    assert(program + " exited with "@ + words@ + Seq::<char>::empty() == program + " exited with "@ + words@);
}

/// The editors that read such a script are those of one family.
pub proof fn law_the_family_that_reads_scripts(name: Seq<char>)
    ensures
        vim_kin(name) <==> (name == "vim"@ || name == "nvim"@ || name == "vi"@ || name == "gvim"@ || name == "mvim"@),
{
}

/// A script is run first, and the list is opened and its first entry shown
/// after.
pub proof fn law_a_script_is_read_before_its_list_is_opened(path: Seq<char>)
    ensures
        quickfix_args(path).len() == 6,
        quickfix_args(path)[0] == "-S"@,
        quickfix_args(path)[1] == path,
        quickfix_args(path)[2] == "-c"@,
        quickfix_args(path)[3] == "copen"@,
        quickfix_args(path)[4] == "-c"@,
        quickfix_args(path)[5] == "silent! cfirst"@,
{
}

/// The items of a script are those of the hunks, one behind the other and in
/// the same order.
pub proof fn law_a_script_lists_the_hunks_in_order(a: Seq<QfHunk>, b: Seq<QfHunk>)
    ensures
        script_items(a + b) == script_items(a) + script_items(b),
        a.len() == 1 ==> script_items(a) == script_item(a[0]),
        a.len() == 0 ==> script_items(a).len() == 0,
    decreases b.len(),
{
    if b.len() == 0 {
        assert(a + b == a);
        assert(script_items(a) + Seq::<char>::empty() == script_items(a));
    } else {
        law_a_script_lists_the_hunks_in_order(a, b.drop_last());
        assert((a + b).drop_last() == a + b.drop_last());
        assert((a + b).last() == b.last());
        assert(script_items(a) + (script_items(b.drop_last()) + script_item(b.last())) == (script_items(a)
            + script_items(b.drop_last())) + script_item(b.last()));
    }
    if a.len() == 1 {
        assert(a.drop_last().len() == 0);
        assert(script_items(a.drop_last()) == Seq::<char>::empty());
        assert(Seq::<char>::empty() + script_item(a[0]) == script_item(a[0]));
    }
}

/// A hunk that belongs to no part is listed with its file, its line and its
/// text.
pub proof fn law_a_hunk_is_listed_at_its_place(h: QfHunk)
    requires
        h.cluster is None,
        h.kind is None,
    ensures
        script_item(h) == "  \\   {'filename': '"@ + quoted(h.filename@) + "', 'lnum': "@ + decimal(h.lnum as int)
            + ", 'col': 1, 'type': '"@ + Seq::<char>::empty() + "', 'text': '"@ + quoted(h.text@) + "'},\n"@,
{
}

/// One of a thing is told without an s, and any other number with one.
pub proof fn law_one_is_told_without_an_s(n: int)
    ensures
        plural_of(1).len() == 0,
        n != 1 ==> plural_of(n) == seq!['s'],
{
    reveal_strlit("");
    reveal_strlit("s");
    assert("s"@ == seq!['s']);
}

proof fn lemma_no_labels(hunks: Seq<QfHunk>)
    requires
        forall|k: int| 0 <= k < hunks.len() ==> (#[trigger] hunks[k]).cluster is None,
    ensures
        crate::editor::clusters_of(hunks).len() == 0,
    decreases hunks.len(),
{
    if hunks.len() > 0 {
        assert(hunks.last() == hunks[hunks.len() - 1]);
        assert forall|k: int| 0 <= k < hunks.drop_last().len() implies (#[trigger] hunks.drop_last()[k]).cluster
            is None by {
            assert(hunks.drop_last()[k] == hunks[k]);
        }
        lemma_no_labels(hunks.drop_last());
    }
}

/// A review that is not divided counts as one part.
pub proof fn law_an_undivided_review_is_one_part(hunks: Seq<QfHunk>)
    requires
        forall|k: int| 0 <= k < hunks.len() ==> (#[trigger] hunks[k]).cluster is None,
    ensures
        cluster_count(hunks) == 1,
{
    lemma_no_labels(hunks);
}

/// What is said after a list was opened: where, the status that the editor ended
/// with, or why it could not be started.
pub proof fn law_a_list_is_reported_as_it_went(program: Seq<char>, script: Seq<char>, words: String)
    ensures
        quickfix_report(Launch::Done, program, script) == "opened "@ + script + " in "@ + program,
        quickfix_report(Launch::Exited(words), program, script) == program + " exited with "@ + words@,
        quickfix_report(Launch::Failed(words), program, script) == "failed to launch '"@ + program + "': "@ + words@,
{
}

/// The title of a list counts its hunks and their parts.
pub proof fn law_the_title_of_a_list_counts_its_hunks(rev: Seq<char>, hunks: Seq<QfHunk>)
    requires
        hunks.len() != 1,
        forall|k: int| 0 <= k < hunks.len() ==> (#[trigger] hunks[k]).cluster is None,
    ensures
        script_title(rev, hunks) == "ordo: "@ + rev + " — "@ + decimal(hunks.len() as int) + " hunk"@ + "s"@ + ", "@
            + decimal(1) + " cluster"@ + ""@,
{
    law_an_undivided_review_is_one_part(hunks);
}

/// A script names the revision and the strategy that it was made for, and holds
/// the items between what opens and what closes the list.
pub proof fn law_a_script_names_what_it_was_made_for(rev: Seq<char>, strategy: Seq<char>, hunks: Seq<QfHunk>)
    ensures
        script_of(rev, strategy, hunks) == script_of(rev, strategy, hunks).take(
            script_of(rev, strategy, hunks).len() - script_items(hunks).len() - "  \\ ]})\n"@.len(),
        ) + script_items(hunks) + "  \\ ]})\n"@,
{
    let s = script_of(rev, strategy, hunks);
    let tail = "  \\ ]})\n"@;
    let n = s.len() - script_items(hunks).len() - tail.len();
    assert(s =~= s.take(n) + script_items(hunks) + tail);
}

} // verus!
