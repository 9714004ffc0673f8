//! The life of a program run: loading a review, reading it, switching to
//! another, and what is said at the end.

use crate::events::{keyed, on_key, quits_loading, Effect, EffectText};
use crate::execute::{carry_across_reload, mode_switched, switch_mode, CommandOutcome, OutcomeText};
use crate::keys::{norm, resolved, Action, KeyCode, KeyModifiers, Keymap, Pane, Resolve};
use crate::load::LoadResult;
use crate::rules::{rule_texts, Rule};
use crate::session::{copy_map, lemma_sel, lemma_selected};
use crate::state::{lemma_view_in, App};
use crate::text::{copy_strings, option_text, same, texts};
use crate::textmap::TextSet;
use crate::theme::Theme;
use crate::view::{auto_scroll, cursor_at, cursor_for, scroll_for, ViewMode};
use vstd::prelude::*;

verus! {

broadcast use vstd::std_specs::hash::group_hash_axioms;

/// Where a run is.
pub enum Phase {
    /// a review is being loaded: what is told meanwhile, and the keys
    Loading(String, Keymap),
    Ready(Box<App>),
}

/// A run of the program.
pub struct Session {
    /// the revision, as it was typed
    pub rev: String,
    /// the commit that history is told from
    pub review_sha: Option<String>,
    /// whether the working tree is what is reviewed
    pub uncommitted: bool,
    pub theme: Theme,
    pub rules: Vec<Rule>,
    pub rules_report: Vec<String>,
    pub phase: Phase,
    /// what is told of the loading
    pub timing: Option<String>,
    /// why the run ended by itself
    pub closing: Option<String>,
    /// whether the screen is stale
    pub dirty: bool,
}

/// What the loading reports.
pub enum LoadMsg {
    Progress(String),
    /// there is nothing to review, and why
    Empty(String),
    Done(Box<LoadResult>),
}

/// What is left to do after an event.
pub enum Step {
    Stay,
    Leave,
    Do(Effect),
}

/// The same, as text.
pub ghost enum StepText {
    Stay,
    Leave,
    Do(EffectText),
}

impl Step {
    pub open spec fn text(self) -> StepText {
        match self {
            Step::Stay => StepText::Stay,
            Step::Leave => StepText::Leave,
            Step::Do(e) => StepText::Do(e.text()),
        }
    }
}

impl Session {
    /// A review that is read is in order.
    pub open spec fn wf(self) -> bool {
        self.phase matches Phase::Ready(app) ==> app.wf()
    }
}

/// The session that a loaded review is read in, before the list is put in the
/// order of its symbols.
pub open spec fn opened(
    a: App,
    l: LoadResult,
    keys: Keymap,
    rev: Seq<char>,
    review_sha: Option<Seq<char>>,
    uncommitted: bool,
    theme: Theme,
    rules: Seq<Rule>,
    report: Seq<String>,
) -> bool {
    &&& a.rev@ == rev
    &&& option_text(a.review_sha) == review_sha
    &&& a.groups@ == l.groups@
    &&& a.jumps@.len() == 0
    &&& a.collapsed@ == Set::<Seq<char>>::empty()
    &&& rule_texts(a.rules@) == rule_texts(rules)
    &&& texts(a.rules_report@) == texts(report)
    &&& a.strategy@ == "comprehension"@
    &&& a == (App {
        items: l.items,
        reviewed: l.reviewed,
        view: l.view,
        comments_only: l.comments_only,
        show_all: true,
        path_filter: None,
        command: None,
        sel: l.view@[0],
        scroll: scroll_for(l.items@[l.view@[0] as int]) as u16,
        hscroll: 0,
        why_scroll: 0,
        why_sel: 0,
        code_len: 0,
        why_len: 0,
        code_height: 10,
        why_height: 10,
        code_width: 10,
        focus: Pane::List,
        keys,
        pending: None,
        sources: l.sources,
        highlights: l.highlights,
        cursor: cursor_at(l.items@[l.view@[0] as int], l.sources@),
        popup: None,
        prompt: None,
        search: None,
        review_sha: a.review_sha,
        uncommitted,
        jumps: a.jumps,
        rev: a.rev,
        marks_path: l.marks_path,
        marks: l.marks,
        theme,
        show_groups: false,
        groups: a.groups,
        group_reasons: l.groups,
        mode: ViewMode::Ledger,
        deltas: l.deltas,
        delta_gone: l.delta_gone,
        notes: l.notes,
        notes_path: l.notes_path,
        symbol_ledger: l.symbol_ledger,
        collapsed: a.collapsed,
        ledger: l.ledger,
        rules_report: a.rules_report,
        rules: a.rules,
        strategy: a.strategy,
    })
}

fn copy_all_rules(v: &[Rule]) -> (r: Vec<Rule>)
    ensures
        rule_texts(r@) == rule_texts(v@),
{
    let mut out: Vec<Rule> = Vec::new();
    let ghost all = rule_texts(v@);
    for i in 0..v.len()
        invariant
            all == rule_texts(v@),
            rule_texts(out@) == all.take(i as int),
    {
        let ghost had = rule_texts(out@);
        out.push(v[i].copied());
        assert(rule_texts(out@) =~= had.push(all[i as int]));
        assert(all.take(i + 1) =~= all.take(i as int).push(all[i as int]));
    }
    assert(all.take(v@.len() as int) =~= all);
    out
}

/// The session that a loaded review is read in: the first item in view is
/// selected, and the list is a list of symbols.
pub fn start_app(
    l: LoadResult,
    keys: Keymap,
    rev: &str,
    review_sha: &Option<String>,
    uncommitted: bool,
    theme: Theme,
    rules: &[Rule],
    report: &[String],
) -> (r: App)
    requires
        l.wf(),
    ensures
        exists|a: App| #[trigger]
            opened(a, l, keys, rev@, option_text(*review_sha), uncommitted, theme, rules@, report@) && mode_switched(
                a,
                r,
                ViewMode::Ledger,
            ),
        r.wf(),
{
    let ghost all = l;
    let n: usize = l.items.len();
    proof {
        lemma_view_in(l.items@, l.comments_only, true, None);
        assert(l.view@[0] < l.items@.len());
        assert(crate::state::item_fits(l.items@[l.view@[0] as int]));
    }
    let sel: usize = l.view[0];
    let scroll = auto_scroll(&l.items[sel]);
    let cursor = cursor_for(&l.items[sel], &l.sources);
    let mut app = App {
        items: l.items,
        reviewed: l.reviewed,
        view: l.view,
        comments_only: l.comments_only,
        show_all: true,
        path_filter: None,
        command: None,
        sel,
        scroll,
        hscroll: 0,
        why_scroll: 0,
        why_sel: 0,
        code_len: 0,
        why_len: 0,
        code_height: 10,
        why_height: 10,
        code_width: 10,
        focus: Pane::List,
        keys,
        pending: None,
        sources: l.sources,
        highlights: l.highlights,
        cursor,
        popup: None,
        prompt: None,
        search: None,
        review_sha: review_sha.clone(),
        uncommitted,
        jumps: Vec::new(),
        rev: rev.to_owned(),
        marks_path: l.marks_path,
        marks: l.marks,
        theme,
        show_groups: false,
        groups: copy_map(&l.groups),
        group_reasons: l.groups,
        mode: ViewMode::Ledger,
        deltas: l.deltas,
        delta_gone: l.delta_gone,
        notes: l.notes,
        notes_path: l.notes_path,
        symbol_ledger: l.symbol_ledger,
        collapsed: TextSet::new(),
        ledger: l.ledger,
        rules_report: copy_strings(report),
        rules: copy_all_rules(rules),
        strategy: "comprehension".to_owned(),
    };
    let ghost a = app;
    proof {
        assert(a.view@.contains(a.view@[0]));
        assert(a.view_wf());
        assert(crate::session::selected(a, sel) == a);
        lemma_selected(a, sel);
    }
    switch_mode(&mut app, ViewMode::Ledger);
    assert(opened(a, all, keys, rev@, option_text(*review_sha), uncommitted, theme, rules@, report@));
    app
}

/// A run that has just begun to load.
pub fn begin(
    rev: String,
    keys: Keymap,
    review_sha: Option<String>,
    uncommitted: bool,
    theme: Theme,
    rules: Vec<Rule>,
    rules_report: Vec<String>,
) -> (r: Session)
    ensures
        (r.phase matches Phase::Loading(s, k) && s@ == "starting…"@ && k == keys),
        r == (Session {
            rev,
            review_sha,
            uncommitted,
            theme,
            rules,
            rules_report,
            phase: r.phase,
            timing: None,
            closing: None,
            dirty: true,
        }),
        r.wf(),
{
    Session {
        rev,
        review_sha,
        uncommitted,
        theme,
        rules,
        rules_report,
        phase: Phase::Loading("starting…".to_owned(), keys),
        timing: None,
        closing: None,
        dirty: true,
    }
}

/// What a report of the loading does to a run.
pub open spec fn reported(a: Session, b: Session, m: LoadMsg, leave: bool) -> bool {
    match m {
        LoadMsg::Progress(s) => {
            &&& !leave
            &&& match a.phase {
                Phase::Loading(_, k) => b.phase == Phase::Loading(s, k),
                Phase::Ready(_) => b.phase == a.phase,
            }
            &&& b == (Session { phase: b.phase, dirty: true, ..a })
        },
        LoadMsg::Empty(s) => leave && b == (Session { closing: Some(s), ..a }),
        LoadMsg::Done(l) => {
            &&& !leave
            &&& b.timing matches Some(t) && t@ == l.timing@
            &&& b.phase is Ready
            &&& exists|o: App| #[trigger]
                opened(
                    o,
                    *l,
                    a.phase->Loading_1,
                    a.rev@,
                    option_text(a.review_sha),
                    a.uncommitted,
                    a.theme,
                    a.rules@,
                    a.rules_report@,
                ) && mode_switched(o, *b.phase->Ready_0, ViewMode::Ledger)
            &&& b == (Session { phase: b.phase, timing: b.timing, dirty: true, ..a })
        },
    }
}

/// Takes a report of the loading, and says whether the run ends. A review comes
/// only while one is being loaded.
pub fn on_message(s: Session, m: LoadMsg) -> (r: (Session, bool))
    requires
        s.wf(),
        m matches LoadMsg::Done(l) ==> l.wf() && s.phase is Loading,
    ensures
        reported(s, r.0, m, r.1),
        r.0.wf(),
{
    let mut s = s;
    match m {
        LoadMsg::Progress(text) => {
            s.dirty = true;
            s.phase = match s.phase {
                Phase::Loading(_, keys) => Phase::Loading(text, keys),
                Phase::Ready(app) => Phase::Ready(app),
            };
            (s, false)
        },
        LoadMsg::Empty(why) => {
            s.closing = Some(why);
            (s, true)
        },
        LoadMsg::Done(l) => {
            s.dirty = true;
            s.timing = Some(l.timing.clone());
            s.phase = match s.phase {
                Phase::Loading(_, keys) => Phase::Ready(
                    Box::new(
                        start_app(
                            *l,
                            keys,
                            &s.rev,
                            &s.review_sha,
                            s.uncommitted,
                            s.theme,
                            &s.rules,
                            &s.rules_report,
                        ),
                    ),
                ),
                Phase::Ready(app) => Phase::Ready(app),
            };
            (s, false)
        },
    }
}

/// Takes notice that the loading is gone without a result, and says whether the
/// run ends.
pub fn on_lost(s: Session) -> (r: (Session, bool))
    ensures
        r.1 == (s.phase is Loading),
        r.1 ==> (r.0.closing matches Some(why) && why@ == "ordo: loading failed unexpectedly"@ && r.0 == (Session {
            closing: r.0.closing,
            ..s
        })),
        !r.1 ==> r.0 == s,
{
    let mut s = s;
    let lost = match &s.phase {
        Phase::Loading(_, _) => true,
        Phase::Ready(_) => false,
    };
    if lost {
        s.closing = Some("ordo: loading failed unexpectedly".to_owned());
    }
    (s, lost)
}

/// Whether an effect ends the run.
pub open spec fn ends_run(e: EffectText) -> bool {
    e == EffectText::Quit || e == EffectText::Command(OutcomeText::Quit)
}

/// What a key does to a run.
pub open spec fn pressed(a: Session, b: Session, code: KeyCode, held: KeyModifiers, now: u64, r: StepText) -> bool {
    match a.phase {
        Phase::Loading(_, keys) => {
            &&& b == (Session { dirty: true, ..a })
            &&& r == (if resolved(keys.binds@, None, norm(code, held)) == Resolve::Act(Action::Quit) {
                StepText::Leave
            } else {
                StepText::Stay
            })
        },
        Phase::Ready(app) => {
            &&& b.phase is Ready
            &&& b == (Session { phase: b.phase, dirty: true, ..a })
            &&& exists|e: EffectText| #[trigger]
                keyed(*app, *b.phase->Ready_0, code, held, now, e) && r == (if ends_run(e) {
                    StepText::Leave
                } else {
                    StepText::Do(e)
                })
        },
    }
}

/// Takes a key. While a review is loading only the keys that quit do anything.
pub fn on_press(s: Session, code: KeyCode, held: KeyModifiers, now: u64) -> (r: (Session, Step))
    requires
        s.wf(),
    ensures
        pressed(s, r.0, code, held, now, r.1.text()),
        r.0.wf(),
{
    let mut s = s;
    s.dirty = true;
    match s.phase {
        Phase::Loading(status, keys) => {
            let quits = quits_loading(&keys, code, held);
            s.phase = Phase::Loading(status, keys);
            if quits {
                (s, Step::Leave)
            } else {
                (s, Step::Stay)
            }
        },
        Phase::Ready(app) => {
            let mut app = *app;
            let ghost was = app;
            let e = on_key(&mut app, code, held, now);
            assert(keyed(was, app, code, held, now, e.text()));
            s.phase = Phase::Ready(Box::new(app));
            match e {
                Effect::Quit => (s, Step::Leave),
                Effect::Command(CommandOutcome::Quit) => (s, Step::Leave),
                e => (s, Step::Do(e)),
            }
        },
    }
}

/// What is told while another revision is loaded.
pub open spec fn switching(rev: Seq<char>) -> Seq<char> {
    "switching to "@ + rev + "…"@
}

/// Starts over with another revision: nothing of the review is kept but the keys
/// and the theme.
pub fn switch_to(s: Session, rev: String, review_sha: Option<String>, uncommitted: bool) -> (r: Session)
    ensures
        match s.phase {
            Phase::Loading(_, _) => r == s,
            Phase::Ready(app) => {
                &&& (r.phase matches Phase::Loading(t, k) && t@ == switching(rev@) && k.name == app.keys.name && k.hint
                    == app.keys.hint && k.binds@ == app.keys.binds@)
                &&& r == (Session {
                    rev,
                    review_sha,
                    uncommitted,
                    theme: app.theme,
                    phase: r.phase,
                    ..s
                })
            },
        },
        s.wf() ==> r.wf(),
{
    let mut s = s;
    match s.phase {
        Phase::Loading(status, keys) => {
            s.phase = Phase::Loading(status, keys);
            s
        },
        Phase::Ready(app) => {
            let (keys, theme) = carry_across_reload(&app);
            let told = "switching to ".to_owned().concat(&rev).concat("…");
            s.rev = rev;
            s.review_sha = review_sha;
            s.uncommitted = uncommitted;
            s.theme = theme;
            s.phase = Phase::Loading(told, keys);
            s
        },
    }
}

/// What is said at the end: why the run ended by itself, or else what was told
/// of the loading.
pub fn closing_line(s: Session) -> (r: Option<String>)
    ensures
        r == (match s.closing {
            Some(m) => Some(m),
            None => s.timing,
        }),
{
    match s.closing {
        Some(m) => Some(m),
        None => s.timing,
    }
}

/// The title of the screen while a review is loading.
pub fn loading_title(rev: &str) -> (r: String)
    ensures
        r@ == " "@ + rev@ + " — loading… "@,
{
    " ".to_owned().concat(rev).concat(" — loading… ")
}

/// The path and line of the selected hunk to edit, and whether the line is only
/// approximate: it is unless the file is what is reviewed, or still reads as it
/// did in the reviewed revision.
pub fn edit_target(app: &App, blob: &str, disk: &str) -> (r: (String, usize, bool))
    requires
        app.wf(),
    ensures
        r.0@ == app.path(),
        r.1 == (if app.items@[app.sel as int].new_range[0] == 0 {
            1usize
        } else {
            app.items@[app.sel as int].new_range[0]
        }),
        r.2 == (!app.uncommitted && (app.review_sha is None || blob@ != disk@)),
{
    proof {
        lemma_sel(*app);
    }
    let it = &app.items[app.sel];
    let line: usize = if it.new_range[0] == 0 {
        1
    } else {
        it.new_range[0]
    };
    let approximate = !app.uncommitted && (app.review_sha.is_none() || !same(blob, disk));
    (it.path.clone(), line, approximate)
}

} // verus!
