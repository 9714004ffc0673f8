//! A run begins by loading, goes on with what was loaded and ends when it is
//! told to.

use crate::execute::mode_switched;
use crate::keys::{norm, resolved, Action, KeyCode, KeyModifiers, Keymap, Pane, Resolve};
use crate::load::LoadResult;
use crate::rules::{rule_texts, Rule};
use crate::run::{opened, pressed, reported, LoadMsg, Phase, Session, StepText};
use crate::state::App;
use crate::text::{option_text, texts};
use crate::theme::Theme;
use crate::view::ViewMode;
use vstd::prelude::*;

verus! {

/// A review opens on the first hunk in view, with the list in focus, and shows
/// every hunk of what was loaded.
pub proof fn law_a_review_opens_on_what_was_loaded(
    a: App,
    r: App,
    l: LoadResult,
    keys: Keymap,
    rev: Seq<char>,
    review_sha: Option<Seq<char>>,
    uncommitted: bool,
    theme: Theme,
    rules: Seq<Rule>,
    report: Seq<String>,
)
    requires
        opened(a, l, keys, rev, review_sha, uncommitted, theme, rules, report),
        mode_switched(a, r, ViewMode::Ledger),
    ensures
        r.view == l.view,
        r.sel == l.view@[0],
        r.focus == Pane::List,
        r.reviewed == l.reviewed,
        r.sources == l.sources,
        r.marks == l.marks,
        r.marks_path == l.marks_path,
        r.notes == l.notes,
        r.notes_path == l.notes_path,
        r.deltas == l.deltas,
        r.delta_gone == l.delta_gone,
        r.comments_only == l.comments_only,
        r.highlights == l.highlights,
        r.symbol_ledger == l.symbol_ledger,
        r.ledger == l.ledger,
        r.group_reasons == l.groups,
        r.items@.len() == l.items@.len(),
{
}

/// A review opens with what it was started with: the revision, the commit, the
/// keys, the theme and the rules.
pub proof fn law_a_review_opens_with_what_it_was_given(
    a: App,
    r: App,
    l: LoadResult,
    keys: Keymap,
    rev: Seq<char>,
    review_sha: Option<Seq<char>>,
    uncommitted: bool,
    theme: Theme,
    rules: Seq<Rule>,
    report: Seq<String>,
)
    requires
        opened(a, l, keys, rev, review_sha, uncommitted, theme, rules, report),
        mode_switched(a, r, ViewMode::Ledger),
    ensures
        r.rev@ == rev,
        option_text(r.review_sha) == review_sha,
        r.uncommitted == uncommitted,
        r.keys == keys,
        r.theme == theme,
        rule_texts(r.rules@) == rule_texts(rules),
        texts(r.rules_report@) == texts(report),
{
}

/// A review opens as the ledger, with nothing folded, filtered, searched,
/// popped up or typed.
pub proof fn law_a_review_opens_with_nothing_in_the_way(
    a: App,
    r: App,
    l: LoadResult,
    keys: Keymap,
    rev: Seq<char>,
    review_sha: Option<Seq<char>>,
    uncommitted: bool,
    theme: Theme,
    rules: Seq<Rule>,
    report: Seq<String>,
)
    requires
        opened(a, l, keys, rev, review_sha, uncommitted, theme, rules, report),
        mode_switched(a, r, ViewMode::Ledger),
    ensures
        r.mode == ViewMode::Ledger,
        r.show_groups,
        r.show_all,
        r.collapsed@ == Set::<Seq<char>>::empty(),
        r.path_filter is None,
        r.command is None,
        r.popup is None,
        r.prompt is None,
        r.search is None,
        r.pending is None,
        r.jumps@.len() == 0,
        r.hscroll == 0 && r.why_scroll == 0 && r.why_sel == 0,
        r.strategy@ == "comprehension"@,
{
}

/// What is told while loading is shown and ends nothing; once the review stands
/// it changes nothing of it.
pub proof fn law_progress_is_shown_while_loading(a: Session, b: Session, told: String, leave: bool)
    requires
        reported(a, b, LoadMsg::Progress(told), leave),
    ensures
        !leave,
        b.dirty,
        a.phase matches Phase::Loading(_, keys) ==> b.phase == Phase::Loading(told, keys),
        a.phase is Ready ==> b.phase == a.phase,
        b.rev == a.rev && b.theme == a.theme && b.closing == a.closing,
{
}

/// Where there is nothing to review the run ends and says why.
pub proof fn law_a_run_with_nothing_to_review_ends(a: Session, b: Session, why: String, leave: bool)
    requires
        reported(a, b, LoadMsg::Empty(why), leave),
    ensures
        leave,
        b.closing == Some(why),
{
}

/// What was loaded is shown, and the run goes on.
pub proof fn law_what_was_loaded_is_shown(a: Session, b: Session, l: Box<LoadResult>, leave: bool)
    requires
        reported(a, b, LoadMsg::Done(l), leave),
    ensures
        !leave,
        b.dirty,
        b.phase is Ready,
        (*b.phase->Ready_0).view == l.view,
        (*b.phase->Ready_0).reviewed == l.reviewed,
        (*b.phase->Ready_0).rev@ == a.rev@,
        (*b.phase->Ready_0).theme == a.theme,
        (*b.phase->Ready_0).uncommitted == a.uncommitted,
        b.closing == a.closing,
{
}

/// While a review loads, the key that quits ends the run and no other key does
/// anything.
pub proof fn law_only_quitting_counts_while_loading(
    a: Session,
    b: Session,
    code: KeyCode,
    held: KeyModifiers,
    now: u64,
    r: StepText,
)
    requires
        pressed(a, b, code, held, now, r),
        a.phase is Loading,
    ensures
        r == StepText::Leave <==> resolved(a.phase->Loading_1.binds@, None, norm(code, held)) == Resolve::Act(
            Action::Quit,
        ),
        r == StepText::Leave || r == StepText::Stay,
        b.phase == a.phase,
        b.closing == a.closing,
{
}

} // verus!
