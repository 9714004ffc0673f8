//! What lies beside a review: the settings screen and the comments on lines,
//! with the commands that reach them.

use crate::commands::{line_parts, parse_command_line};
use crate::comments::{
    comment_line, comment_lines, comment_list, comment_place, comment_set, comments_in_order, is_fresh,
    law_a_set_comment_reads_back, law_comments_are_listed_in_order, lemma_comment_place, set_comment, LineComment,
};
use crate::config::{schema_of, Surface};
use crate::config_ui::{rows_of, ConfigUi, UiText};
use crate::execute::{
    execute_command, executed, lemma_errors_change_nothing, popped, CommandOutcome, OutcomeText,
};
use crate::model::Item;
use crate::session::{lemma_same_code, lemma_sel};
use crate::state::{prose_box, prose_popup, App};
use crate::text::{same, texts, trim, trimmed};
use vstd::prelude::*;

verus! {

pub struct Desk {
    /// the settings screen, while it is open
    pub config: Option<ConfigUi>,
    pub comments: Vec<LineComment>,
    /// the line where a selection in the code began, counted from 0
    pub selection: Option<usize>,
    /// whether the comments are kept in a file
    pub kept: bool,
}

/// What is left to do outside once a line has run.
pub enum DeskOutcome {
    Review(CommandOutcome),
    /// write the comments
    SaveComments,
}

pub ghost enum DeskOutcomeText {
    Review(OutcomeText),
    SaveComments,
}

pub open spec fn desk_outcome(r: Result<DeskOutcome, String>) -> Result<DeskOutcomeText, Seq<char>> {
    match r {
        Ok(DeskOutcome::Review(o)) => Ok(DeskOutcomeText::Review(o.text())),
        Ok(DeskOutcome::SaveComments) => Ok(DeskOutcomeText::SaveComments),
        Err(e) => Err(e@),
    }
}

/// The settings screen as it opens.
pub open spec fn opened(s: Surface, a: App) -> UiText {
    UiText {
        sections: schema_of(s, a.keys, a.theme),
        original: schema_of(s, a.keys, a.theme),
        rows: rows_of(schema_of(s, a.keys, a.theme), 5),
        sel: 0,
        dirty: false,
        editing: None,
    }
}

/// The new side of the selected item's file.
pub open spec fn new_side(a: App) -> Option<Seq<Seq<char>>> {
    if a.sources@.dom().contains(a.path()) {
        Some(texts(a.sources@[a.path()].1@))
    } else {
        None
    }
}

/// The lines that a comment goes on, counted from 1: those from where the
/// selection began to the cursor, or the cursor's own.
pub open spec fn lines_chosen(line: usize, selection: Option<usize>) -> (usize, usize) {
    match selection {
        Some(from) => if from < line {
            ((from + 1) as usize, (line + 1) as usize)
        } else {
            ((line + 1) as usize, (from + 1) as usize)
        },
        None => ((line + 1) as usize, (line + 1) as usize),
    }
}

pub open spec fn item_paths(items: Seq<Item>) -> Seq<Seq<char>> {
    Seq::new(items.len(), |i: int| items[i].path@)
}

/// The list of the comments on the files of a review.
pub open spec fn comments_shown(comments: Seq<LineComment>, items: Seq<Item>) -> Seq<Seq<char>> {
    let order = comments_in_order(comments, item_paths(items), comments.len() as int);
    Seq::new(order.len(), |k: int| comment_line(comments[order[k] as int]))
}

/// What commenting does to the desk.
pub open spec fn commented(d: Desk, e: Desk, app: App, text: Seq<char>, r: Result<DeskOutcomeText, Seq<char>>) -> bool {
    let (start, end) = lines_chosen(app.cursor.line, d.selection);
    let did = match r {
        Ok(_) => Ok(()),
        Err(why) => Err(why),
    };
    &&& comment_set(d.comments@, e.comments@, app.path(), new_side(app), start, end, text, did)
    &&& match r {
        Ok(o) => {
            &&& e == (Desk { comments: e.comments, selection: None, ..d })
            &&& o == (if d.kept {
                DeskOutcomeText::SaveComments
            } else {
                DeskOutcomeText::Review(OutcomeText::Done)
            })
        },
        Err(_) => e == (Desk { comments: e.comments, ..d }),
    }
}

/// What a line does to a review, from `a` to `b`, and to the desk beside it, from
/// `d` to `e`.
pub open spec fn ran(
    a: App,
    b: App,
    d: Desk,
    e: Desk,
    s: Surface,
    line: Seq<char>,
    r: Result<DeskOutcomeText, Seq<char>>,
) -> bool {
    let done = Ok::<DeskOutcomeText, Seq<char>>(DeskOutcomeText::Review(OutcomeText::Done));
    let (name, arg) = line_parts(line);
    if name == "config"@ {
        &&& b == a
        &&& e.config matches Some(c) && c.text() == opened(s, a)
        &&& e == (Desk { config: e.config, ..d })
        &&& r == done
    } else if name == "comment"@ {
        b == a && commented(d, e, a, trimmed(arg), r)
    } else if name == "comments"@ {
        let shown = comments_shown(d.comments@, a.items@);
        &&& e == d
        &&& if shown.len() == 0 {
            b == a && r == Err::<DeskOutcomeText, Seq<char>>(
                "no line comments in this review — `v` to select, `c` to comment"@,
            )
        } else {
            popped(a, b, prose_popup("comments"@, shown)) && r == done
        }
    } else {
        &&& e == d
        &&& match r {
            Ok(DeskOutcomeText::Review(o)) => executed(a, b, line, Ok(o)),
            Ok(DeskOutcomeText::SaveComments) => false,
            Err(why) => executed(a, b, line, Err(why)),
        }
    }
}

fn paths_of(items: &Vec<Item>) -> (r: Vec<String>)
    ensures
        texts(r@) == item_paths(items@),
{
    let mut out: Vec<String> = Vec::new();
    for i in 0..items.len()
        invariant
            texts(out@) == item_paths(items@).take(i as int),
    {
        let ghost had = texts(out@);
        out.push(items[i].path.clone());
        assert(texts(out@) =~= had.push(items@[i as int].path@));
        assert(item_paths(items@).take(i + 1) =~= item_paths(items@).take(i as int).push(items@[i as int].path@));
    }
    assert(item_paths(items@).take(items@.len() as int) =~= item_paths(items@));
    out
}

fn comment(app: &App, desk: &mut Desk, text: &str) -> (r: Result<DeskOutcome, String>)
    requires
        app.wf(),
        old(desk).selection matches Some(from) ==> from < usize::MAX,
    ensures
        commented(*old(desk), *final(desk), *app, text@, desk_outcome(r)),
{
    proof {
        lemma_sel(*app);
    }
    let path: &str = &app.items[app.sel].path;
    let (start, end) = comment_lines(app.cursor.line, desk.selection);
    let side = match app.sources.get(path) {
        Some(file) => Some(&file.1),
        None => None,
    };
    match set_comment(&mut desk.comments, path, side, start, end, text) {
        Ok(_) => {
            desk.selection = None;
            if desk.kept {
                Ok(DeskOutcome::SaveComments)
            } else {
                Ok(DeskOutcome::Review(CommandOutcome::Done))
            }
        },
        Err(why) => Err(why),
    }
}

/// Runs a line of the command bar: the commands of the desk, and those of the
/// review.
pub fn run_line(app: &mut App, desk: &mut Desk, s: &Surface, line: &str) -> (r: Result<DeskOutcome, String>)
    requires
        old(app).wf(),
        old(app).prompt is None,
        old(desk).selection matches Some(from) ==> from < usize::MAX,
    ensures
        ran(*old(app), *final(app), *old(desk), *final(desk), *s, line@, desk_outcome(r)),
        final(app).wf(),
{
    let ghost start = *app;
    let parts = parse_command_line(line);
    let name: &str = &parts.0;
    proof {
        reveal_strlit("config");
        reveal_strlit("comment");
        reveal_strlit("comments");
    }
    if same(name, "config") {
        desk.config = Some(ConfigUi::open(s, &app.keys, &app.theme));
        Ok(DeskOutcome::Review(CommandOutcome::Done))
    } else if same(name, "comment") {
        let text = trim(&parts.1);
        comment(app, desk, &text)
    } else if same(name, "comments") {
        let lines = comment_list(&desk.comments, &paths_of(&app.items));
        assert(texts(lines@) =~= comments_shown(desk.comments@, app.items@));
        if lines.len() == 0 {
            Err("no line comments in this review — `v` to select, `c` to comment".to_owned())
        } else {
            app.popup = Some(prose_box("comments", lines));
            proof {
                lemma_same_code(start, *app);
            }
            Ok(DeskOutcome::Review(CommandOutcome::Done))
        }
    } else {
        match execute_command(app, line) {
            Ok(o) => Ok(DeskOutcome::Review(o)),
            Err(why) => Err(why),
        }
    }
}

/// A line that is refused leaves the review and the desk as they were.
pub proof fn law_a_refused_line_changes_nothing(
    a: App,
    b: App,
    d: Desk,
    e: Desk,
    s: Surface,
    line: Seq<char>,
    why: Seq<char>,
)
    requires
        ran(a, b, d, e, s, line, Err(why)),
    ensures
        b == a,
        e == (Desk { comments: e.comments, ..d }),
        e.comments@ == d.comments@,
{
    let (name, arg) = line_parts(line);
    if name != "config"@ && name != "comment"@ && name != "comments"@ {
        lemma_errors_change_nothing(a, b, line, why);
    }
}

/// A comment that was made is in the list of the comments of the review: as it
/// reads, on the lines that were chosen.
pub proof fn law_a_comment_that_was_made_is_listed(
    a: App,
    d: Desk,
    e: Desk,
    text: Seq<char>,
    o: DeskOutcomeText,
)
    requires
        a.wf(),
        text.len() > 0,
        commented(d, e, a, text, Ok(o)),
    ensures
        new_side(a) is Some,
        ({
            let (start, end) = lines_chosen(a.cursor.line, d.selection);
            exists|k: int|
                0 <= k < e.comments@.len() && is_fresh(
                    #[trigger] e.comments@[k],
                    a.path(),
                    start,
                    end,
                    text,
                    new_side(a)->0,
                ) && comments_shown(e.comments@, a.items@).contains(comment_line(e.comments@[k]))
        }),
{
    let (start, end) = lines_chosen(a.cursor.line, d.selection);
    let v = e.comments@;
    let paths = item_paths(a.items@);
    law_a_set_comment_reads_back(d.comments@, v, a.path(), new_side(a)->0, start, end, text, Ok(()));
    let k = comment_place(v, a.path(), start, end, 0)->0;
    lemma_comment_place(v, a.path(), start, end, 0);
    assert(v.len() == e.comments.len());
    law_comments_are_listed_in_order(v, paths, v.len() as int);
    lemma_sel(a);
    assert(paths[a.sel as int] == v[k].path@);
    let order = comments_in_order(v, paths, v.len() as int);
    let j = choose|j: int| 0 <= j < order.len() && order[j] == k as usize;
    assert(comments_shown(v, a.items@)[j] == comment_line(v[k]));
}

} // verus!
