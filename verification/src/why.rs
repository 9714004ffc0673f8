//! The why pane: what is told of the selected hunk, line by line.

use crate::links::str_text;
use crate::model::{Advisory, EdgeRef, Item, RuleHit};
use crate::paint::Style;
use crate::text::{join, joined, lines_of, same, split_lines, texts};
use crate::theme::{Color, Theme};
use crate::view::in_view;
use vstd::prelude::*;

verus! {

/// What a line of the why pane is.
#[derive(Clone, Copy, PartialEq, Eq, Debug, Structural)]
pub enum WhyKind {
    Text,
    /// a dependency, with the item that it leads to where that is in view
    Edge(Option<usize>),
}

/// One line of the why pane.
pub struct WhyRow {
    pub text: String,
    pub style: Style,
    pub kind: WhyKind,
}

/// One line of the why pane, as text.
pub ghost struct WhyText {
    pub text: Seq<char>,
    pub style: Style,
    pub kind: WhyKind,
}

impl WhyRow {
    pub open spec fn text(self) -> WhyText {
        WhyText { text: self.text@, style: self.style, kind: self.kind }
    }
}

pub open spec fn why_texts(rows: Seq<WhyRow>) -> Seq<WhyText> {
    Seq::new(rows.len(), |i: int| rows[i].text())
}

/// A line that leads nowhere.
pub open spec fn plain_row(text: Seq<char>, fg: Color) -> WhyText {
    WhyText { text, style: Style::of(fg), kind: WhyKind::Text }
}

/// How a dependency is shown: in bold and underlined where it leads somewhere,
/// dimmed where it does not.
#[verifier::allow_in_spec]
pub fn edge_style(target: Option<usize>, theme: &Theme) -> Style
    returns
        (match target {
            Some(_) => Style {
                fg: Some(theme.category),
                bg: None,
                bold: true,
                underlined: true,
                reversed: false,
            },
            None => Style {
                fg: Some(theme.dim),
                bg: None,
                bold: false,
                underlined: false,
                reversed: false,
            },
        }),
{
    match target {
        Some(_) => Style { fg: Some(theme.category), bg: None, bold: true, underlined: true, reversed: false },
        None => Style { fg: Some(theme.dim), bg: None, bold: false, underlined: false, reversed: false },
    }
}

/// One line, where there is something to tell.
pub open spec fn optional_row(prefix: Seq<char>, text: Option<Seq<char>>, fg: Color) -> Seq<WhyText> {
    match text {
        Some(t) => seq![plain_row(prefix + t, fg)],
        None => Seq::empty(),
    }
}

/// One line for several texts, where there are any.
pub open spec fn joined_row(prefix: Seq<char>, parts: Seq<Seq<char>>, sep: Seq<char>, fg: Color) -> Seq<WhyText> {
    if parts.len() == 0 {
        Seq::empty()
    } else {
        seq![plain_row(prefix + joined(parts, sep), fg)]
    }
}

/// A line for each text.
pub open spec fn each_row(prefix: Seq<char>, parts: Seq<Seq<char>>, fg: Color) -> Seq<WhyText> {
    Seq::new(parts.len(), |i: int| plain_row(prefix + parts[i], fg))
}

pub open spec fn rule_row(r: RuleHit, theme: Theme) -> WhyText {
    if r.level@ == "warn"@ {
        plain_row("⚠"@ + " "@ + r.rule@ + " — "@ + r.message@, theme.warn)
    } else {
        plain_row("·"@ + " "@ + r.rule@ + " — "@ + r.message@, theme.reviewed)
    }
}

pub open spec fn rule_rows(rules: Seq<RuleHit>, theme: Theme) -> Seq<WhyText> {
    Seq::new(rules.len(), |i: int| rule_row(rules[i], theme))
}

/// The item that a dependency leads to, where it is in view.
pub open spec fn shown_target(e: EdgeRef, view: Seq<usize>) -> Option<usize> {
    match e.target {
        Some(t) => if view.contains(t) {
            Some(t)
        } else {
            None
        },
        None => None,
    }
}

pub open spec fn edge_row(e: EdgeRef, view: Seq<usize>, theme: Theme) -> WhyText {
    let target = shown_target(e, view);
    WhyText { text: "dep "@ + e.label@, style: edge_style(target, &theme), kind: WhyKind::Edge(target) }
}

pub open spec fn edge_rows(edges: Seq<EdgeRef>, view: Seq<usize>, theme: Theme) -> Seq<WhyText> {
    Seq::new(edges.len(), |i: int| edge_row(edges[i], view, theme))
}

/// An advisory: what it is about, then what it says.
pub open spec fn advisory_rows(a: Advisory, theme: Theme) -> Seq<WhyText> {
    seq![
        WhyText {
            text: if a.verdict {
                "⚠ "@ + a.construct@
            } else {
                a.construct@
            },
            style: Style {
                fg: Some(
                    if a.verdict {
                        theme.warn
                    } else {
                        theme.category
                    },
                ),
                bg: None,
                bold: true,
                underlined: false,
                reversed: false,
            },
            kind: WhyKind::Text,
        },
    ] + each_row("  "@, lines_of(a.message@), theme.fg)
}

/// The first `n` advisories.
pub open spec fn all_advisory_rows(advisories: Seq<Advisory>, theme: Theme, n: int) -> Seq<WhyText>
    decreases n,
{
    if n <= 0 {
        Seq::empty()
    } else {
        all_advisory_rows(advisories, theme, n - 1) + advisory_rows(advisories[n - 1], theme)
    }
}

/// What is told of an item besides what the engine says of it.
pub ghost struct Told {
    pub note: Option<Seq<char>>,
    pub out_of_order: Seq<Seq<char>>,
    pub delta: Option<Seq<char>>,
    pub cascade: Option<Seq<char>>,
}

/// The lines of the why pane: what the reader should know first, the engine's
/// reason, what it noticed, the dependencies, and the advisories.
pub open spec fn why_of(it: Item, view: Seq<usize>, theme: Theme, told: Told) -> Seq<WhyText> {
    optional_row("· "@, told.cascade, theme.accent) + optional_row("· "@, told.delta, theme.accent) + joined_row(
        "⚠ marked reviewed, but depends on unreviewed "@,
        told.out_of_order,
        ", "@,
        theme.warn,
    ) + optional_row("note: "@, told.note, theme.warn) + optional_row(
        "reason: "@,
        if it.rationale@ != "change"@ {
            Some(it.rationale@)
        } else {
            None
        },
        theme.border_focus,
    ) + each_row("- "@, texts(it.details@), theme.accent) + rule_rows(it.rules@, theme) + joined_row(
        "notes: "@,
        texts(it.notes@),
        "; "@,
        theme.mark,
    ) + edge_rows(it.edges@, view, theme) + all_advisory_rows(it.advisories@, theme, it.advisories@.len() as int)
}

fn push_row(rows: &mut Vec<WhyRow>, text: String, fg: Color)
    ensures
        why_texts(final(rows)@) == why_texts(old(rows)@).push(plain_row(text@, fg)),
{
    let ghost had = why_texts(rows@);
    rows.push(WhyRow { text, style: Style::of(fg), kind: WhyKind::Text });
    assert(why_texts(rows@) == had.push(plain_row(text@, fg)));
}

fn push_optional(rows: &mut Vec<WhyRow>, prefix: &str, text: Option<&str>, fg: Color)
    ensures
        why_texts(final(rows)@) == why_texts(old(rows)@) + optional_row(prefix@, str_text(text), fg),
{
    let ghost had = why_texts(rows@);
    if let Some(t) = text {
        push_row(rows, prefix.to_owned().concat(t), fg);
    }
    assert(why_texts(rows@) =~= had + optional_row(prefix@, str_text(text), fg));
}

fn push_joined(rows: &mut Vec<WhyRow>, prefix: &str, parts: &[String], sep: &str, fg: Color)
    ensures
        why_texts(final(rows)@) == why_texts(old(rows)@) + joined_row(prefix@, texts(parts@), sep@, fg),
{
    let ghost had = why_texts(rows@);
    if parts.len() > 0 {
        push_row(rows, prefix.to_owned().concat(&join(parts, sep)), fg);
    }
    assert(texts(parts@).len() == parts@.len());
    assert(why_texts(rows@) =~= had + joined_row(prefix@, texts(parts@), sep@, fg));
}

fn push_each(rows: &mut Vec<WhyRow>, prefix: &str, parts: &[String], fg: Color)
    ensures
        why_texts(final(rows)@) == why_texts(old(rows)@) + each_row(prefix@, texts(parts@), fg),
{
    let ghost had = why_texts(rows@);
    let ghost all = each_row(prefix@, texts(parts@), fg);
    assert(had + all.take(0) =~= had);
    for i in 0..parts.len()
        invariant
            all == each_row(prefix@, texts(parts@), fg),
            why_texts(rows@) == had + all.take(i as int),
    {
        push_row(rows, prefix.to_owned().concat(&parts[i]), fg);
        assert(all.take(i + 1) == all.take(i as int).push(all[i as int]));
        assert(why_texts(rows@) =~= had + all.take(i + 1));
    }
    assert(all.take(parts@.len() as int) == all);
}

fn push_rules(rows: &mut Vec<WhyRow>, rules: &[RuleHit], theme: &Theme)
    ensures
        why_texts(final(rows)@) == why_texts(old(rows)@) + rule_rows(rules@, *theme),
{
    let ghost had = why_texts(rows@);
    let ghost all = rule_rows(rules@, *theme);
    assert(had + all.take(0) =~= had);
    for i in 0..rules.len()
        invariant
            all == rule_rows(rules@, *theme),
            why_texts(rows@) == had + all.take(i as int),
    {
        let r = &rules[i];
        let warns = same(&r.level, "warn");
        let tag = if warns {
            "⚠"
        } else {
            "·"
        };
        push_row(
            rows,
            tag.to_owned().concat(" ").concat(&r.rule).concat(" — ").concat(&r.message),
            if warns {
                theme.warn
            } else {
                theme.reviewed
            },
        );
        assert(all.take(i + 1) == all.take(i as int).push(all[i as int]));
        assert(why_texts(rows@) =~= had + all.take(i + 1));
    }
    assert(all.take(rules@.len() as int) == all);
}

fn push_edges(rows: &mut Vec<WhyRow>, edges: &[EdgeRef], view: &[usize], theme: &Theme)
    ensures
        why_texts(final(rows)@) == why_texts(old(rows)@) + edge_rows(edges@, view@, *theme),
{
    let ghost had = why_texts(rows@);
    let ghost all = edge_rows(edges@, view@, *theme);
    assert(had + all.take(0) =~= had);
    for i in 0..edges.len()
        invariant
            all == edge_rows(edges@, view@, *theme),
            why_texts(rows@) == had + all.take(i as int),
    {
        let e = &edges[i];
        let target = match e.target {
            Some(t) => {
                if in_view(view, t) {
                    Some(t)
                } else {
                    None
                }
            },
            None => None,
        };
        let ghost so_far = why_texts(rows@);
        let row = WhyRow {
            text: "dep ".to_owned().concat(&e.label),
            style: edge_style(target, theme),
            kind: WhyKind::Edge(target),
        };
        assert(row.text() == all[i as int]);
        rows.push(row);
        assert(why_texts(rows@) =~= so_far.push(all[i as int]));
        assert(all.take(i + 1) == all.take(i as int).push(all[i as int]));
        assert(why_texts(rows@) =~= had + all.take(i + 1));
    }
    assert(all.take(edges@.len() as int) == all);
}

fn push_advisories(rows: &mut Vec<WhyRow>, advisories: &[Advisory], theme: &Theme)
    ensures
        why_texts(final(rows)@) == why_texts(old(rows)@) + all_advisory_rows(
            advisories@,
            *theme,
            advisories@.len() as int,
        ),
{
    let ghost had = why_texts(rows@);
    assert(had + all_advisory_rows(advisories@, *theme, 0) =~= had);
    for i in 0..advisories.len()
        invariant
            why_texts(rows@) == had + all_advisory_rows(advisories@, *theme, i as int),
    {
        let a = &advisories[i];
        let ghost so_far = why_texts(rows@);
        let head = if a.verdict {
            "⚠ ".to_owned().concat(&a.construct)
        } else {
            a.construct.clone()
        };
        let color = if a.verdict {
            theme.warn
        } else {
            theme.category
        };
        let row = WhyRow {
            text: head,
            style: Style { fg: Some(color), bg: None, bold: true, underlined: false, reversed: false },
            kind: WhyKind::Text,
        };
        let ghost first = row.text();
        rows.push(row);
        assert(why_texts(rows@) =~= so_far.push(first));
        push_each(rows, "  ", &split_lines(&a.message), theme.fg);
        assert(why_texts(rows@) =~= so_far + advisory_rows(*a, *theme));
        assert(why_texts(rows@) =~= had + all_advisory_rows(advisories@, *theme, i + 1));
    }
}

/// The lines of the why pane.
pub fn why_rows(
    it: &Item,
    view: &[usize],
    theme: &Theme,
    note: Option<&str>,
    out_of_order: &[String],
    delta: Option<&str>,
    cascade: Option<&str>,
) -> (r: Vec<WhyRow>)
    ensures
        why_texts(r@) == why_of(
            *it,
            view@,
            *theme,
            (Told {
                note: str_text(note),
                out_of_order: texts(out_of_order@),
                delta: str_text(delta),
                cascade: str_text(cascade),
            }),
        ),
{
    let mut rows: Vec<WhyRow> = Vec::new();
    assert(why_texts(rows@) =~= Seq::<WhyText>::empty());
    push_optional(&mut rows, "· ", cascade, theme.accent);
    assert(why_texts(rows@) =~= optional_row("· "@, str_text(cascade), theme.accent));
    push_optional(&mut rows, "· ", delta, theme.accent);
    push_joined(
        &mut rows,
        "⚠ marked reviewed, but depends on unreviewed ",
        out_of_order,
        ", ",
        theme.warn,
    );
    push_optional(&mut rows, "note: ", note, theme.warn);
    let reason = if same(&it.rationale, "change") {
        None
    } else {
        Some(it.rationale.as_str())
    };
    push_optional(&mut rows, "reason: ", reason, theme.border_focus);
    push_each(&mut rows, "- ", &it.details, theme.accent);
    push_rules(&mut rows, &it.rules, theme);
    push_joined(&mut rows, "notes: ", &it.notes, "; ", theme.mark);
    push_edges(&mut rows, &it.edges, view, theme);
    push_advisories(&mut rows, &it.advisories, theme);
    rows
}

/// A line of the why pane leads to an item only if that item is in view.
pub proof fn law_edges_lead_into_view(e: EdgeRef, view: Seq<usize>)
    ensures
        match shown_target(e, view) {
            Some(t) => view.contains(t) && e.target == Some(t),
            None => e.target is None || !view.contains(e.target->0),
        },
{
}

} // verus!
