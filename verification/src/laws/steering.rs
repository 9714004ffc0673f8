//! What the command bar offers, and what a change of the filters or of the
//! strategy leaves as it was.

use crate::commands::{command_label, command_of, help_cut, menu_for, menu_row, Strategy};
use crate::editor::distinct;
use crate::events::menu_stepped;
use crate::execute::{filtered, item_dirs, menu_of, strategy_asked, typed_command, view_paths, OutcomeText};
use crate::filter::PathGlobs;
use crate::reorder::strategy_name;
use crate::state::App;
use crate::text::{padded_right, sorted_texts};
use vstd::prelude::*;

verus! {

/// A strategy goes by its name: asking for the name gives the strategy.
pub proof fn law_a_strategy_goes_by_its_name(s: Strategy)
    ensures
        strategy_asked(strategy_name(s)) == Ok::<OutcomeText, Seq<char>>(OutcomeText::Reorder(s)),
        strategy_name(Strategy::Comprehension) == "comprehension"@,
        strategy_name(Strategy::DefsFirst) == "defs-first"@,
        strategy_name(Strategy::File) == "file"@,
{
    reveal_strlit("comprehension");
    reveal_strlit("defs-first");
    reveal_strlit("file");
    assert("comprehension"@.len() == 13 && "defs-first"@.len() == 10 && "file"@.len() == 4);
}

/// Any other strategy is refused.
pub proof fn law_another_strategy_is_refused(arg: Seq<char>)
    requires
        arg != "comprehension"@ && arg != "defs-first"@ && arg != "file"@,
    ensures
        strategy_asked(arg) is Err,
{
}

/// A step through the menu goes to the candidate that follows, or to the one
/// before, and changes nothing else.
pub proof fn law_a_step_goes_through_the_menu(a: App, i: usize)
    requires
        a.command is Some,
        a.command->0.selected == Some(i),
        0 < i,
        i + 1 < a.command->0.candidates@.len() <= usize::MAX,
    ensures
        menu_stepped(a, 1).command is Some,
        menu_stepped(a, 1).command->0.selected == Some((i + 1) as usize),
        menu_stepped(a, -1).command is Some,
        menu_stepped(a, -1).command->0.selected == Some((i - 1) as usize),
        menu_stepped(a, 1).command->0.text == a.command->0.text,
        menu_stepped(a, 1).command->0.candidates == a.command->0.candidates,
        menu_stepped(a, 1).sel == a.sel,
{
    crate::laws::commanding::law_candidates_follow_each_other(a.command->0.candidates@.len() as int, i);
}

/// The filters set are those that were asked for, and the selection stays where
/// it is still in view; else it goes to the first hunk.
pub proof fn law_a_filter_keeps_the_selection_in_view(
    a: App,
    b: App,
    comments_only: bool,
    show_all: bool,
    filter: Option<(String, PathGlobs)>,
)
    requires
        filtered(a, b, comments_only, show_all, filter),
    ensures
        b.comments_only == comments_only,
        b.show_all == show_all,
        b.path_filter == filter,
        b.view@.contains(a.sel) ==> b.sel == a.sel && b.cursor == a.cursor && b.scroll == a.scroll && b.popup
            == a.popup,
        !b.view@.contains(a.sel) ==> b.sel == b.view@[0],
        b.reviewed == a.reviewed && b.items == a.items && b.notes == a.notes,
{
}

/// The menu offers the files in view behind `goto`, the directories behind
/// `filter` and the revisions behind `e`, and each to that command alone.
pub proof fn law_a_command_is_offered_what_it_takes(a: App, text: Seq<char>, revs: Seq<Seq<char>>)
    ensures
        typed_command(text) == Some("goto"@) ==> menu_of(a, text, Some(revs)) == menu_for(
            text,
            sorted_texts(distinct(view_paths(a.items@, a.view@))),
            Seq::empty(),
            Seq::empty(),
        ),
        typed_command(text) == Some("filter"@) ==> menu_of(a, text, Some(revs)) == menu_for(
            text,
            Seq::empty(),
            sorted_texts(distinct(item_dirs(a.items@, a.items@.len() as int))),
            Seq::empty(),
        ),
        typed_command(text) == Some("e"@) ==> menu_of(a, text, Some(revs)) == menu_for(
            text,
            Seq::empty(),
            Seq::empty(),
            revs,
        ),
{
    reveal_strlit("goto");
    reveal_strlit("filter");
    reveal_strlit("e");
    assert("goto"@.len() == 4 && "filter"@.len() == 6 && "e"@.len() == 1);
}

/// The files offered are those of the hunks in view, in their order.
pub proof fn law_the_files_offered_are_those_in_view(a: App, k: int)
    requires
        0 <= k < a.view@.len(),
    ensures
        view_paths(a.items@, a.view@).len() == a.view@.len(),
        view_paths(a.items@, a.view@)[k] == a.items@[a.view@[k] as int].path@,
{
}

/// While a command is named, it is offered with its help where there is room;
/// what is no command is offered as it is.
pub proof fn law_a_command_is_offered_with_its_help(candidate: Seq<char>, all: Seq<Seq<char>>, wide: int)
    ensures
        command_of(candidate) is None ==> menu_row(candidate, true, all, wide) == (candidate, None::<Seq<char>>),
        menu_row(candidate, false, all, wide) == (candidate, None::<Seq<char>>),
        command_of(candidate) matches Some(c) ==> (candidate != "qf"@ && candidate != "vim-qfl"@ ==> ({
            let (head, help) = menu_row(candidate, true, all, wide);
            &&& head == padded_right(command_label(c), crate::commands::menu_column(all))
            &&& (wide - head.len() >= 12 ==> help == Some("  — "@ + help_cut(c.help@, wide - head.len() - 4)))
            &&& (wide - head.len() < 12 ==> help is None)
        })),
{
}

/// A help text that fits is shown whole, and one that does not is cut to the
/// room with a mark at its end.
pub proof fn law_a_help_text_is_cut_to_the_room(help: Seq<char>, room: int)
    requires
        room >= 1,
    ensures
        help.len() <= room ==> help_cut(help, room) == help,
        help.len() > room ==> help_cut(help, room).len() == room && help_cut(help, room).last() == '…' && help_cut(
            help,
            room,
        ).drop_last() == help.take(room - 1),
{
    if help.len() > room {
        assert(help_cut(help, room).drop_last() == help.take(room - 1));
    }
}

} // verus!
