//! What the commands do to a review.

use crate::commands::{line_parts, Strategy};
use crate::editor::QfHunk;
use crate::execute::{
    delta_count, delta_report, executed, first_of_path, is_qf_of, next_candidate, note_texts, notes_after, qf_of_view,
    theme_list_lines, OutcomeText,
};
use crate::filter::glob_matches;
use crate::identity::{note_of, Delta};
use crate::keys::Pane;
use crate::laws::filtering::{excludes, glob_in};
use crate::model::{symbol_texts, Item};
use crate::state::App;
use crate::text::{decimal, trimmed};
use crate::theme::{theme_name_list, theme_named};
use crate::view::ViewMode;
use vstd::prelude::*;

verus! {

/// Whether a name is that of a command.
pub open spec fn is_command(name: Seq<char>) -> bool {
    name == "q"@ || name == "help"@ || name == "rules"@ || name == "audit"@ || name == "only-comments"@ || name == "all"@ || name == "filter"@ || name == "theme"@ || name == "keys"@ || name == "strategy"@ || name == "group"@ || name == "rule"@ || name == "delta"@ || name == "note"@ || name == "mode"@ || name == "goto"@ || name == "quickfix"@ || name == "qf"@ || name == "vim-qfl"@ || name == "e"@
}

/// The commands go by different names.
proof fn lemma_names()
    ensures
        ""@ != "q"@,
        ""@ != "help"@,
        ""@ != "rules"@,
        ""@ != "audit"@,
        ""@ != "only-comments"@,
        ""@ != "all"@,
        ""@ != "filter"@,
        ""@ != "theme"@,
        ""@ != "keys"@,
        ""@ != "strategy"@,
        ""@ != "group"@,
        ""@ != "rule"@,
        ""@ != "delta"@,
        ""@ != "note"@,
        ""@ != "mode"@,
        ""@ != "goto"@,
        ""@ != "quickfix"@,
        ""@ != "qf"@,
        ""@ != "vim-qfl"@,
        ""@ != "e"@,
        "q"@ != "help"@,
        "q"@ != "rules"@,
        "q"@ != "audit"@,
        "q"@ != "only-comments"@,
        "q"@ != "all"@,
        "q"@ != "filter"@,
        "q"@ != "theme"@,
        "q"@ != "keys"@,
        "q"@ != "strategy"@,
        "q"@ != "group"@,
        "q"@ != "rule"@,
        "q"@ != "delta"@,
        "q"@ != "note"@,
        "q"@ != "mode"@,
        "q"@ != "goto"@,
        "q"@ != "quickfix"@,
        "q"@ != "qf"@,
        "q"@ != "vim-qfl"@,
        "q"@ != "e"@,
        "help"@ != "rules"@,
        "help"@ != "audit"@,
        "help"@ != "only-comments"@,
        "help"@ != "all"@,
        "help"@ != "filter"@,
        "help"@ != "theme"@,
        "help"@ != "keys"@,
        "help"@ != "strategy"@,
        "help"@ != "group"@,
        "help"@ != "rule"@,
        "help"@ != "delta"@,
        "help"@ != "note"@,
        "help"@ != "mode"@,
        "help"@ != "goto"@,
        "help"@ != "quickfix"@,
        "help"@ != "qf"@,
        "help"@ != "vim-qfl"@,
        "help"@ != "e"@,
        "rules"@ != "audit"@,
        "rules"@ != "only-comments"@,
        "rules"@ != "all"@,
        "rules"@ != "filter"@,
        "rules"@ != "theme"@,
        "rules"@ != "keys"@,
        "rules"@ != "strategy"@,
        "rules"@ != "group"@,
        "rules"@ != "rule"@,
        "rules"@ != "delta"@,
        "rules"@ != "note"@,
        "rules"@ != "mode"@,
        "rules"@ != "goto"@,
        "rules"@ != "quickfix"@,
        "rules"@ != "qf"@,
        "rules"@ != "vim-qfl"@,
        "rules"@ != "e"@,
        "audit"@ != "only-comments"@,
        "audit"@ != "all"@,
        "audit"@ != "filter"@,
        "audit"@ != "theme"@,
        "audit"@ != "keys"@,
        "audit"@ != "strategy"@,
        "audit"@ != "group"@,
        "audit"@ != "rule"@,
        "audit"@ != "delta"@,
        "audit"@ != "note"@,
        "audit"@ != "mode"@,
        "audit"@ != "goto"@,
        "audit"@ != "quickfix"@,
        "audit"@ != "qf"@,
        "audit"@ != "vim-qfl"@,
        "audit"@ != "e"@,
        "only-comments"@ != "all"@,
        "only-comments"@ != "filter"@,
        "only-comments"@ != "theme"@,
        "only-comments"@ != "keys"@,
        "only-comments"@ != "strategy"@,
        "only-comments"@ != "group"@,
        "only-comments"@ != "rule"@,
        "only-comments"@ != "delta"@,
        "only-comments"@ != "note"@,
        "only-comments"@ != "mode"@,
        "only-comments"@ != "goto"@,
        "only-comments"@ != "quickfix"@,
        "only-comments"@ != "qf"@,
        "only-comments"@ != "vim-qfl"@,
        "only-comments"@ != "e"@,
        "all"@ != "filter"@,
        "all"@ != "theme"@,
        "all"@ != "keys"@,
        "all"@ != "strategy"@,
        "all"@ != "group"@,
        "all"@ != "rule"@,
        "all"@ != "delta"@,
        "all"@ != "note"@,
        "all"@ != "mode"@,
        "all"@ != "goto"@,
        "all"@ != "quickfix"@,
        "all"@ != "qf"@,
        "all"@ != "vim-qfl"@,
        "all"@ != "e"@,
        "filter"@ != "theme"@,
        "filter"@ != "keys"@,
        "filter"@ != "strategy"@,
        "filter"@ != "group"@,
        "filter"@ != "rule"@,
        "filter"@ != "delta"@,
        "filter"@ != "note"@,
        "filter"@ != "mode"@,
        "filter"@ != "goto"@,
        "filter"@ != "quickfix"@,
        "filter"@ != "qf"@,
        "filter"@ != "vim-qfl"@,
        "filter"@ != "e"@,
        "theme"@ != "keys"@,
        "theme"@ != "strategy"@,
        "theme"@ != "group"@,
        "theme"@ != "rule"@,
        "theme"@ != "delta"@,
        "theme"@ != "note"@,
        "theme"@ != "mode"@,
        "theme"@ != "goto"@,
        "theme"@ != "quickfix"@,
        "theme"@ != "qf"@,
        "theme"@ != "vim-qfl"@,
        "theme"@ != "e"@,
        "keys"@ != "strategy"@,
        "keys"@ != "group"@,
        "keys"@ != "rule"@,
        "keys"@ != "delta"@,
        "keys"@ != "note"@,
        "keys"@ != "mode"@,
        "keys"@ != "goto"@,
        "keys"@ != "quickfix"@,
        "keys"@ != "qf"@,
        "keys"@ != "vim-qfl"@,
        "keys"@ != "e"@,
        "strategy"@ != "group"@,
        "strategy"@ != "rule"@,
        "strategy"@ != "delta"@,
        "strategy"@ != "note"@,
        "strategy"@ != "mode"@,
        "strategy"@ != "goto"@,
        "strategy"@ != "quickfix"@,
        "strategy"@ != "qf"@,
        "strategy"@ != "vim-qfl"@,
        "strategy"@ != "e"@,
        "group"@ != "rule"@,
        "group"@ != "delta"@,
        "group"@ != "note"@,
        "group"@ != "mode"@,
        "group"@ != "goto"@,
        "group"@ != "quickfix"@,
        "group"@ != "qf"@,
        "group"@ != "vim-qfl"@,
        "group"@ != "e"@,
        "rule"@ != "delta"@,
        "rule"@ != "note"@,
        "rule"@ != "mode"@,
        "rule"@ != "goto"@,
        "rule"@ != "quickfix"@,
        "rule"@ != "qf"@,
        "rule"@ != "vim-qfl"@,
        "rule"@ != "e"@,
        "delta"@ != "note"@,
        "delta"@ != "mode"@,
        "delta"@ != "goto"@,
        "delta"@ != "quickfix"@,
        "delta"@ != "qf"@,
        "delta"@ != "vim-qfl"@,
        "delta"@ != "e"@,
        "note"@ != "mode"@,
        "note"@ != "goto"@,
        "note"@ != "quickfix"@,
        "note"@ != "qf"@,
        "note"@ != "vim-qfl"@,
        "note"@ != "e"@,
        "mode"@ != "goto"@,
        "mode"@ != "quickfix"@,
        "mode"@ != "qf"@,
        "mode"@ != "vim-qfl"@,
        "mode"@ != "e"@,
        "goto"@ != "quickfix"@,
        "goto"@ != "qf"@,
        "goto"@ != "vim-qfl"@,
        "goto"@ != "e"@,
        "quickfix"@ != "qf"@,
        "quickfix"@ != "vim-qfl"@,
        "quickfix"@ != "e"@,
        "qf"@ != "vim-qfl"@,
        "qf"@ != "e"@,
        "vim-qfl"@ != "e"@,
{
    reveal_strlit("");
    reveal_strlit("q");
    reveal_strlit("help");
    reveal_strlit("rules");
    reveal_strlit("audit");
    reveal_strlit("only-comments");
    reveal_strlit("all");
    reveal_strlit("filter");
    reveal_strlit("theme");
    reveal_strlit("keys");
    reveal_strlit("strategy");
    reveal_strlit("group");
    reveal_strlit("rule");
    reveal_strlit("delta");
    reveal_strlit("note");
    reveal_strlit("mode");
    reveal_strlit("goto");
    reveal_strlit("quickfix");
    reveal_strlit("qf");
    reveal_strlit("vim-qfl");
    reveal_strlit("e");
    assert(""@.len() != "q"@.len());
    assert(""@.len() != "help"@.len());
    assert(""@.len() != "rules"@.len());
    assert(""@.len() != "audit"@.len());
    assert(""@.len() != "only-comments"@.len());
    assert(""@.len() != "all"@.len());
    assert(""@.len() != "filter"@.len());
    assert(""@.len() != "theme"@.len());
    assert(""@.len() != "keys"@.len());
    assert(""@.len() != "strategy"@.len());
    assert(""@.len() != "group"@.len());
    assert(""@.len() != "rule"@.len());
    assert(""@.len() != "delta"@.len());
    assert(""@.len() != "note"@.len());
    assert(""@.len() != "mode"@.len());
    assert(""@.len() != "goto"@.len());
    assert(""@.len() != "quickfix"@.len());
    assert(""@.len() != "qf"@.len());
    assert(""@.len() != "vim-qfl"@.len());
    assert(""@.len() != "e"@.len());
    assert("q"@.len() != "help"@.len());
    assert("q"@.len() != "rules"@.len());
    assert("q"@.len() != "audit"@.len());
    assert("q"@.len() != "only-comments"@.len());
    assert("q"@.len() != "all"@.len());
    assert("q"@.len() != "filter"@.len());
    assert("q"@.len() != "theme"@.len());
    assert("q"@.len() != "keys"@.len());
    assert("q"@.len() != "strategy"@.len());
    assert("q"@.len() != "group"@.len());
    assert("q"@.len() != "rule"@.len());
    assert("q"@.len() != "delta"@.len());
    assert("q"@.len() != "note"@.len());
    assert("q"@.len() != "mode"@.len());
    assert("q"@.len() != "goto"@.len());
    assert("q"@.len() != "quickfix"@.len());
    assert("q"@.len() != "qf"@.len());
    assert("q"@.len() != "vim-qfl"@.len());
    assert("q"@[0] != "e"@[0]);
    assert("help"@.len() != "rules"@.len());
    assert("help"@.len() != "audit"@.len());
    assert("help"@.len() != "only-comments"@.len());
    assert("help"@.len() != "all"@.len());
    assert("help"@.len() != "filter"@.len());
    assert("help"@.len() != "theme"@.len());
    assert("help"@[0] != "keys"@[0]);
    assert("help"@.len() != "strategy"@.len());
    assert("help"@.len() != "group"@.len());
    assert("help"@[0] != "rule"@[0]);
    assert("help"@.len() != "delta"@.len());
    assert("help"@[0] != "note"@[0]);
    assert("help"@[0] != "mode"@[0]);
    assert("help"@[0] != "goto"@[0]);
    assert("help"@.len() != "quickfix"@.len());
    assert("help"@.len() != "qf"@.len());
    assert("help"@.len() != "vim-qfl"@.len());
    assert("help"@.len() != "e"@.len());
    assert("rules"@[0] != "audit"@[0]);
    assert("rules"@.len() != "only-comments"@.len());
    assert("rules"@.len() != "all"@.len());
    assert("rules"@.len() != "filter"@.len());
    assert("rules"@[0] != "theme"@[0]);
    assert("rules"@.len() != "keys"@.len());
    assert("rules"@.len() != "strategy"@.len());
    assert("rules"@[0] != "group"@[0]);
    assert("rules"@.len() != "rule"@.len());
    assert("rules"@[0] != "delta"@[0]);
    assert("rules"@.len() != "note"@.len());
    assert("rules"@.len() != "mode"@.len());
    assert("rules"@.len() != "goto"@.len());
    assert("rules"@.len() != "quickfix"@.len());
    assert("rules"@.len() != "qf"@.len());
    assert("rules"@.len() != "vim-qfl"@.len());
    assert("rules"@.len() != "e"@.len());
    assert("audit"@.len() != "only-comments"@.len());
    assert("audit"@.len() != "all"@.len());
    assert("audit"@.len() != "filter"@.len());
    assert("audit"@[0] != "theme"@[0]);
    assert("audit"@.len() != "keys"@.len());
    assert("audit"@.len() != "strategy"@.len());
    assert("audit"@[0] != "group"@[0]);
    assert("audit"@.len() != "rule"@.len());
    assert("audit"@[0] != "delta"@[0]);
    assert("audit"@.len() != "note"@.len());
    assert("audit"@.len() != "mode"@.len());
    assert("audit"@.len() != "goto"@.len());
    assert("audit"@.len() != "quickfix"@.len());
    assert("audit"@.len() != "qf"@.len());
    assert("audit"@.len() != "vim-qfl"@.len());
    assert("audit"@.len() != "e"@.len());
    assert("only-comments"@.len() != "all"@.len());
    assert("only-comments"@.len() != "filter"@.len());
    assert("only-comments"@.len() != "theme"@.len());
    assert("only-comments"@.len() != "keys"@.len());
    assert("only-comments"@.len() != "strategy"@.len());
    assert("only-comments"@.len() != "group"@.len());
    assert("only-comments"@.len() != "rule"@.len());
    assert("only-comments"@.len() != "delta"@.len());
    assert("only-comments"@.len() != "note"@.len());
    assert("only-comments"@.len() != "mode"@.len());
    assert("only-comments"@.len() != "goto"@.len());
    assert("only-comments"@.len() != "quickfix"@.len());
    assert("only-comments"@.len() != "qf"@.len());
    assert("only-comments"@.len() != "vim-qfl"@.len());
    assert("only-comments"@.len() != "e"@.len());
    assert("all"@.len() != "filter"@.len());
    assert("all"@.len() != "theme"@.len());
    assert("all"@.len() != "keys"@.len());
    assert("all"@.len() != "strategy"@.len());
    assert("all"@.len() != "group"@.len());
    assert("all"@.len() != "rule"@.len());
    assert("all"@.len() != "delta"@.len());
    assert("all"@.len() != "note"@.len());
    assert("all"@.len() != "mode"@.len());
    assert("all"@.len() != "goto"@.len());
    assert("all"@.len() != "quickfix"@.len());
    assert("all"@.len() != "qf"@.len());
    assert("all"@.len() != "vim-qfl"@.len());
    assert("all"@.len() != "e"@.len());
    assert("filter"@.len() != "theme"@.len());
    assert("filter"@.len() != "keys"@.len());
    assert("filter"@.len() != "strategy"@.len());
    assert("filter"@.len() != "group"@.len());
    assert("filter"@.len() != "rule"@.len());
    assert("filter"@.len() != "delta"@.len());
    assert("filter"@.len() != "note"@.len());
    assert("filter"@.len() != "mode"@.len());
    assert("filter"@.len() != "goto"@.len());
    assert("filter"@.len() != "quickfix"@.len());
    assert("filter"@.len() != "qf"@.len());
    assert("filter"@.len() != "vim-qfl"@.len());
    assert("filter"@.len() != "e"@.len());
    assert("theme"@.len() != "keys"@.len());
    assert("theme"@.len() != "strategy"@.len());
    assert("theme"@[0] != "group"@[0]);
    assert("theme"@.len() != "rule"@.len());
    assert("theme"@[0] != "delta"@[0]);
    assert("theme"@.len() != "note"@.len());
    assert("theme"@.len() != "mode"@.len());
    assert("theme"@.len() != "goto"@.len());
    assert("theme"@.len() != "quickfix"@.len());
    assert("theme"@.len() != "qf"@.len());
    assert("theme"@.len() != "vim-qfl"@.len());
    assert("theme"@.len() != "e"@.len());
    assert("keys"@.len() != "strategy"@.len());
    assert("keys"@.len() != "group"@.len());
    assert("keys"@[0] != "rule"@[0]);
    assert("keys"@.len() != "delta"@.len());
    assert("keys"@[0] != "note"@[0]);
    assert("keys"@[0] != "mode"@[0]);
    assert("keys"@[0] != "goto"@[0]);
    assert("keys"@.len() != "quickfix"@.len());
    assert("keys"@.len() != "qf"@.len());
    assert("keys"@.len() != "vim-qfl"@.len());
    assert("keys"@.len() != "e"@.len());
    assert("strategy"@.len() != "group"@.len());
    assert("strategy"@.len() != "rule"@.len());
    assert("strategy"@.len() != "delta"@.len());
    assert("strategy"@.len() != "note"@.len());
    assert("strategy"@.len() != "mode"@.len());
    assert("strategy"@.len() != "goto"@.len());
    assert("strategy"@[0] != "quickfix"@[0]);
    assert("strategy"@.len() != "qf"@.len());
    assert("strategy"@.len() != "vim-qfl"@.len());
    assert("strategy"@.len() != "e"@.len());
    assert("group"@.len() != "rule"@.len());
    assert("group"@[0] != "delta"@[0]);
    assert("group"@.len() != "note"@.len());
    assert("group"@.len() != "mode"@.len());
    assert("group"@.len() != "goto"@.len());
    assert("group"@.len() != "quickfix"@.len());
    assert("group"@.len() != "qf"@.len());
    assert("group"@.len() != "vim-qfl"@.len());
    assert("group"@.len() != "e"@.len());
    assert("rule"@.len() != "delta"@.len());
    assert("rule"@[0] != "note"@[0]);
    assert("rule"@[0] != "mode"@[0]);
    assert("rule"@[0] != "goto"@[0]);
    assert("rule"@.len() != "quickfix"@.len());
    assert("rule"@.len() != "qf"@.len());
    assert("rule"@.len() != "vim-qfl"@.len());
    assert("rule"@.len() != "e"@.len());
    assert("delta"@.len() != "note"@.len());
    assert("delta"@.len() != "mode"@.len());
    assert("delta"@.len() != "goto"@.len());
    assert("delta"@.len() != "quickfix"@.len());
    assert("delta"@.len() != "qf"@.len());
    assert("delta"@.len() != "vim-qfl"@.len());
    assert("delta"@.len() != "e"@.len());
    assert("note"@[0] != "mode"@[0]);
    assert("note"@[0] != "goto"@[0]);
    assert("note"@.len() != "quickfix"@.len());
    assert("note"@.len() != "qf"@.len());
    assert("note"@.len() != "vim-qfl"@.len());
    assert("note"@.len() != "e"@.len());
    assert("mode"@[0] != "goto"@[0]);
    assert("mode"@.len() != "quickfix"@.len());
    assert("mode"@.len() != "qf"@.len());
    assert("mode"@.len() != "vim-qfl"@.len());
    assert("mode"@.len() != "e"@.len());
    assert("goto"@.len() != "quickfix"@.len());
    assert("goto"@.len() != "qf"@.len());
    assert("goto"@.len() != "vim-qfl"@.len());
    assert("goto"@.len() != "e"@.len());
    assert("quickfix"@.len() != "qf"@.len());
    assert("quickfix"@.len() != "vim-qfl"@.len());
    assert("quickfix"@.len() != "e"@.len());
    assert("qf"@.len() != "vim-qfl"@.len());
    assert("qf"@.len() != "e"@.len());
    assert("vim-qfl"@.len() != "e"@.len());
}

/// `only-comments` and `all` each turn their own filter over and leave the others
/// alone; what would leave nothing to read is refused and changes nothing.
pub proof fn law_a_filter_command_turns_its_own_filter_over(
    a: App,
    b: App,
    line: Seq<char>,
    r: Result<OutcomeText, Seq<char>>,
)
    requires
        executed(a, b, line, r),
    ensures
        line_parts(line).0 == "only-comments"@ && r is Ok ==> b.comments_only == !a.comments_only && b.show_all
            == a.show_all && b.path_filter == a.path_filter,
        line_parts(line).0 == "all"@ && r is Ok ==> b.show_all == !a.show_all && b.comments_only == a.comments_only
            && b.path_filter == a.path_filter,
        line_parts(line).0 == "filter"@ && r is Ok ==> b.comments_only == a.comments_only && b.show_all == a.show_all,
        r is Err ==> b == a,
        line_parts(line).0 == "only-comments"@ || line_parts(line).0 == "all"@ || line_parts(line).0 == "filter"@
            ==> b.items == a.items && b.reviewed == a.reviewed && b.notes == a.notes && b.theme == a.theme,
{
    lemma_names();
    if r is Err {
        crate::execute::lemma_errors_change_nothing(a, b, line, r->Err_0);
    }
}

/// The path filter is taken off by `filter` alone, and put on by `filter` with a
/// pattern, which then decides as it would on its own.
pub proof fn law_a_path_filter_is_put_on_and_taken_off(
    a: App,
    b: App,
    line: Seq<char>,
    r: Result<OutcomeText, Seq<char>>,
    path: Seq<char>,
)
    requires
        executed(a, b, line, r),
        line_parts(line).0 == "filter"@,
        r is Ok,
    ensures
        ({
            let arg = trimmed(line_parts(line).1);
            &&& arg.len() == 0 ==> b.path_filter is None
            &&& arg.len() > 0 ==> match b.path_filter {
                Some((text, globs)) => text@ == arg && (globs.keeps(path) <==> if excludes(arg) {
                    !glob_matches(glob_in(arg), path)
                } else {
                    glob_matches(glob_in(arg), path)
                }),
                None => false,
            }
        }),
{
    lemma_names();
    let arg = trimmed(line_parts(line).1);
    if arg.len() > 0 {
        crate::laws::filtering::law_one_pattern_decides_alone(arg, path);
    }
}

/// `group` turns the headers over; `q` quits; `e` asks for the revision that it
/// names; `rule` drafts from the file of the selected hunk; `strategy` orders anew
/// by the strategy that it names. None of them changes anything else.
pub proof fn law_a_plain_command_does_its_one_thing(a: App, b: App, line: Seq<char>, r: Result<OutcomeText, Seq<char>>)
    requires
        executed(a, b, line, r),
    ensures
        ({
            let name = line_parts(line).0;
            let arg = trimmed(line_parts(line).1);
            &&& name == "group"@ ==> r is Ok && b == (App { show_groups: !a.show_groups, ..a })
            &&& name == "q"@ ==> r == Ok::<OutcomeText, Seq<char>>(OutcomeText::Quit) && b == a
            &&& name == ""@ ==> r == Ok::<OutcomeText, Seq<char>>(OutcomeText::Done) && b == a
            &&& name == "e"@ && arg.len() > 0 ==> r == Ok::<OutcomeText, Seq<char>>(OutcomeText::Edit(arg)) && b == a
            &&& name == "e"@ && arg.len() == 0 ==> r is Err && b == a
            &&& name == "rule"@ ==> b == a && r == Ok::<OutcomeText, Seq<char>>(
                OutcomeText::DraftRule(a.items@[a.sel as int].path@),
            )
            &&& name == "strategy"@ && arg == "comprehension"@ ==> r == Ok::<OutcomeText, Seq<char>>(
                OutcomeText::Reorder(Strategy::Comprehension),
            )
            &&& name == "strategy"@ && arg == "defs-first"@ ==> r == Ok::<OutcomeText, Seq<char>>(
                OutcomeText::Reorder(Strategy::DefsFirst),
            )
            &&& name == "strategy"@ && arg == "file"@ ==> r == Ok::<OutcomeText, Seq<char>>(
                OutcomeText::Reorder(Strategy::File),
            )
            &&& !is_command(name) && name.len() > 0 ==> r is Err && b == a
        }),
{
    lemma_names();
    reveal_strlit("");
    reveal_strlit("comprehension");
    reveal_strlit("defs-first");
    reveal_strlit("file");
    assert("comprehension"@.len() == 13 && "defs-first"@.len() == 10 && "file"@.len() == 4);
}

/// `theme` shows the review in the theme that it names, and refuses a name that
/// there is not; `mode` shows symbols or hunks, the other one where none is named.
pub proof fn law_the_look_is_what_was_asked_for(a: App, b: App, line: Seq<char>, r: Result<OutcomeText, Seq<char>>)
    requires
        executed(a, b, line, r),
    ensures
        ({
            let name = line_parts(line).0;
            let arg = trimmed(line_parts(line).1);
            &&& name == "theme"@ && arg.len() > 0 && r is Ok ==> theme_named(arg) == Some(b.theme) && b.items == a.items
                && b.sel == a.sel
            &&& name == "theme"@ && arg.len() > 0 ==> (r is Ok <==> theme_named(arg) is Some)
            &&& name == "mode"@ && arg.len() == 0 ==> r is Ok && b.mode != a.mode
            &&& name == "mode"@ && arg == "ledger"@ ==> r is Ok && b.mode == ViewMode::Ledger
            &&& name == "mode"@ && arg == "symbols"@ ==> r is Ok && b.mode == ViewMode::Ledger
            &&& name == "mode"@ && arg == "hunks"@ ==> r is Ok && b.mode == ViewMode::Hunks
            &&& name == "keys"@ && arg == "vim"@ ==> r is Ok && crate::keys::is_preset(b.keys, "vim"@)
            &&& name == "keys"@ && arg == "vscode"@ ==> r is Ok && crate::keys::is_preset(b.keys, "vscode"@)
            &&& name == "keys"@ && r is Ok ==> b.items == a.items && b.theme == a.theme
        }),
{
    lemma_names();
    reveal_strlit("ledger");
    reveal_strlit("symbols");
    reveal_strlit("symbol");
    reveal_strlit("hunks");
    reveal_strlit("hunk");
    assert("hunks"@.len() == 5 && "ledger"@.len() == 6 && "symbols"@.len() == 7 && "symbol"@.len() == 6);
    assert("hunk"@.len() == 4);
}

/// `goto` selects the first hunk in view of the file that it names and moves to the
/// code; where there is none it says so.
pub proof fn law_goto_leads_to_the_first_hunk_of_a_file(
    a: App,
    b: App,
    line: Seq<char>,
    r: Result<OutcomeText, Seq<char>>,
    k: int,
)
    requires
        executed(a, b, line, r),
        line_parts(line).0 == "goto"@,
        trimmed(line_parts(line).1).len() > 0,
    ensures
        ({
            let path = trimmed(line_parts(line).1);
            &&& 0 <= k < a.view@.len() && a.items@[a.view@[k] as int].path@ == path && (forall|j: int|
                0 <= j < k ==> a.items@[#[trigger] a.view@[j] as int].path@ != path) ==> r is Ok && b.sel == a.view@[k]
                && b.focus == Pane::Code
            &&& (forall|j: int| 0 <= j < a.view@.len() ==> a.items@[#[trigger] a.view@[j] as int].path@ != path)
                ==> r is Err && b == a
        }),
{
    lemma_names();
    let path = trimmed(line_parts(line).1);
    if 0 <= k < a.view@.len() && a.items@[a.view@[k] as int].path@ == path && (forall|j: int|
        0 <= j < k ==> a.items@[#[trigger] a.view@[j] as int].path@ != path) {
        lemma_first_of_path(a.items@, a.view@, path, 0, k);
    }
    if forall|j: int| 0 <= j < a.view@.len() ==> a.items@[#[trigger] a.view@[j] as int].path@ != path {
        lemma_none_of_path(a.items@, a.view@, path, 0);
    }
}

proof fn lemma_first_of_path(items: Seq<Item>, view: Seq<usize>, path: Seq<char>, from: int, k: int)
    requires
        0 <= from <= k < view.len(),
        items[view[k] as int].path@ == path,
        forall|j: int| from <= j < k ==> items[#[trigger] view[j] as int].path@ != path,
    ensures
        first_of_path(items, view, path, from) == Some(view[k]),
    decreases k - from,
{
    if from < k {
        lemma_first_of_path(items, view, path, from + 1, k);
    }
}

proof fn lemma_none_of_path(items: Seq<Item>, view: Seq<usize>, path: Seq<char>, from: int)
    requires
        0 <= from <= view.len(),
        forall|j: int| from <= j < view.len() ==> items[#[trigger] view[j] as int].path@ != path,
    ensures
        first_of_path(items, view, path, from) is None,
    decreases view.len() - from,
{
    if from < view.len() {
        lemma_none_of_path(items, view, path, from + 1);
    }
}

/// `note` sets the note on the symbols of the selected hunk, or takes it away where
/// nothing is said; no other note changes.
pub proof fn law_a_note_command_touches_one_note(
    a: App,
    b: App,
    line: Seq<char>,
    r: Result<OutcomeText, Seq<char>>,
    other: u64,
)
    requires
        executed(a, b, line, r),
        line_parts(line).0 == "note"@,
    ensures
        ({
            let text = trimmed(line_parts(line).1);
            let key = note_of(symbol_texts(a.items@[a.sel as int].symbols@));
            &&& key is None ==> r is Err && b == a
            &&& key is Some ==> r is Ok && b == (App { notes: b.notes, ..a })
            &&& key is Some && text.len() > 0 ==> b.notes@.dom().contains(key->0) && b.notes@[key->0]@ == text
            &&& key is Some && text.len() == 0 ==> !b.notes@.dom().contains(key->0)
            &&& key is Some && other != key->0 ==> b.notes@.dom().contains(other) == a.notes@.dom().contains(other)
            &&& key is Some && other != key->0 && a.notes@.dom().contains(other) ==> b.notes@[other]@
                == a.notes@[other]@
        }),
{
    lemma_names();
    let text = trimmed(line_parts(line).1);
    if let Some(key) = note_of(symbol_texts(a.items@[a.sel as int].symbols@)) {
        let before = note_texts(a.notes@);
        let after = note_texts(b.notes@);
        assert(after == notes_after(before, key, text));
        assert(after.dom().contains(key) == b.notes@.dom().contains(key));
        assert(after.dom().contains(other) == b.notes@.dom().contains(other));
        assert(before.dom().contains(other) == a.notes@.dom().contains(other));
        if b.notes@.dom().contains(key) {
            assert(after[key] == b.notes@[key]@);
        }
        if a.notes@.dom().contains(other) && other != key {
            assert(before[other] == a.notes@[other]@);
            assert(after[other] == b.notes@[other]@);
        }
    }
}

/// The quickfix list names the hunks in view, in order: file, first line, reason,
/// and whether something warns of it or it was reviewed.
pub proof fn law_the_quickfix_list_names_the_hunks_in_view(hunks: Seq<QfHunk>, a: App, k: int)
    requires
        qf_of_view(hunks, a),
        0 <= k < a.view@.len(),
    ensures
        hunks.len() == a.view@.len(),
        ({
            let it = a.items@[a.view@[k] as int];
            let warns = it.advisories@.len() > 0 || exists|i: int|
                0 <= i < it.rules@.len() && (#[trigger] it.rules@[i]).level@ == "warn"@;
            &&& hunks[k].filename@ == it.path@
            &&& hunks[k].lnum == it.new_range[0]
            &&& hunks[k].text@ == it.rationale@
            &&& hunks[k].kind == Some('W') <==> warns
            &&& hunks[k].kind == Some('I') <==> !warns && a.reviewed@[a.view@[k] as int]
            &&& hunks[k].cluster is Some <==> it.cluster is Some
            &&& it.cluster is Some ==> hunks[k].cluster->0@ == "c"@ + decimal(it.cluster->0 as int)
        }),
{
    assert(is_qf_of(hunks[k], a.items@[a.view@[k] as int], a.reviewed@[a.view@[k] as int]));
}

proof fn lemma_delta_count(deltas: Seq<Delta>, d: Delta, n: int)
    requires
        0 <= n <= deltas.len(),
    ensures
        delta_count(deltas, d, n) == deltas.take(n).filter(|x: Delta| x == d).len(),
    decreases n,
{
    reveal(Seq::filter);
    if n > 0 {
        lemma_delta_count(deltas, d, n - 1);
        assert(deltas.take(n).drop_last() =~= deltas.take(n - 1));
    }
}

/// What is told since the last look counts the hunks that are new, changed and
/// moved, each under its own line, and those that are gone.
pub proof fn law_the_report_counts_each_change(a: App)
    ensures
        delta_report(a).len() >= 5,
        delta_report(a)[0] == decimal(a.deltas@.filter(|x: Delta| x == Delta::New).len() as int) + " new"@,
        delta_report(a)[1] == decimal(a.deltas@.filter(|x: Delta| x == Delta::Changed).len() as int) + " changed"@,
        delta_report(a)[2] == decimal(a.deltas@.filter(|x: Delta| x == Delta::Moved).len() as int)
            + " unchanged but reordered"@,
        delta_report(a)[3] == decimal(a.delta_gone as int) + " gone"@,
{
    let n = a.deltas@.len() as int;
    lemma_delta_count(a.deltas@, Delta::New, n);
    lemma_delta_count(a.deltas@, Delta::Changed, n);
    lemma_delta_count(a.deltas@, Delta::Moved, n);
    assert(a.deltas@.take(n) =~= a.deltas@);
}

/// The first candidate is highlighted first, the last one going back; then they
/// follow each other round.
pub proof fn law_candidates_follow_each_other(len: int, i: usize)
    requires
        0 < len <= usize::MAX,
        i < len,
    ensures
        next_candidate(None, len, 1) == Some(0usize),
        next_candidate(None, len, -1) == Some((len - 1) as usize),
        i + 1 < len ==> next_candidate(Some(i), len, 1) == Some((i + 1) as usize),
        i + 1 == len ==> next_candidate(Some(i), len, 1) == Some(0usize),
        i > 0 ==> next_candidate(Some(i), len, -1) == Some((i - 1) as usize),
        i == 0 ==> next_candidate(Some(i), len, -1) == Some((len - 1) as usize),
{
    let k = i as int;
    if k + 1 < len {
        assert((k + 1) % len == k + 1) by (nonlinear_arith)
            requires
                0 <= k + 1 < len,
        ;
    } else {
        assert((k + 1) % len == 0) by (nonlinear_arith)
            requires
                k + 1 == len,
                len > 0,
        ;
    }
    if k > 0 {
        assert((k - 1) % len == k - 1) by (nonlinear_arith)
            requires
                0 <= k - 1 < len,
        ;
    } else {
        assert((k - 1) % len == len - 1) by (nonlinear_arith)
            requires
                k == 0,
                len > 0,
        ;
    }
}

/// The themes are listed by their names, and the one in use is marked.
pub proof fn law_the_theme_in_use_is_marked(current: Seq<char>, i: int)
    requires
        0 <= i < theme_name_list().len(),
    ensures
        theme_list_lines(current).len() == theme_name_list().len(),
        theme_name_list()[i] == current ==> theme_list_lines(current)[i] == "▸ "@ + current,
        theme_name_list()[i] != current ==> theme_list_lines(current)[i] == "  "@ + theme_name_list()[i],
{
}

} // verus!
