//! Why a hunk is where it is: what the why pane tells.

use crate::model::{Advisory, Item};
use crate::paint::Style;
use crate::text::{joined, texts};
use crate::theme::Theme;
use crate::why::{all_advisory_rows, why_of, Told, WhyKind, WhyText};
use vstd::prelude::*;

verus! {

/// A line of text in one colour.
pub open spec fn text_line(text: Seq<char>, fg: crate::theme::Color) -> WhyText {
    WhyText { text, style: Style::of(fg), kind: WhyKind::Text }
}

proof fn lemma_in_first(a: Seq<WhyText>, b: Seq<WhyText>, x: WhyText)
    requires
        a.contains(x),
    ensures
        (a + b).contains(x),
{
    let i = choose|i: int| 0 <= i < a.len() && a[i] == x;
    assert((a + b)[i] == x);
}

proof fn lemma_in_second(a: Seq<WhyText>, b: Seq<WhyText>, x: WhyText)
    requires
        b.contains(x),
    ensures
        (a + b).contains(x),
{
    let i = choose|i: int| 0 <= i < b.len() && b[i] == x;
    assert((a + b)[a.len() + i] == x);
}

/// The parts of the why pane, from the top.
spec fn parts(it: Item, view: Seq<usize>, theme: Theme, told: Told) -> Seq<Seq<WhyText>> {
    seq![
        crate::why::optional_row("· "@, told.cascade, theme.accent),
        crate::why::optional_row("· "@, told.delta, theme.accent),
        crate::why::joined_row(
            "⚠ marked reviewed, but depends on unreviewed "@,
            told.out_of_order,
            ", "@,
            theme.warn,
        ),
        crate::why::optional_row("note: "@, told.note, theme.warn),
        crate::why::optional_row(
            "reason: "@,
            if it.rationale@ != "change"@ {
                Some(it.rationale@)
            } else {
                None
            },
            theme.border_focus,
        ),
        crate::why::each_row("- "@, texts(it.details@), theme.accent),
        crate::why::rule_rows(it.rules@, theme),
        crate::why::joined_row("notes: "@, texts(it.notes@), "; "@, theme.mark),
        crate::why::edge_rows(it.edges@, view, theme),
        all_advisory_rows(it.advisories@, theme, it.advisories@.len() as int),
    ]
}

proof fn lemma_part(it: Item, view: Seq<usize>, theme: Theme, told: Told, k: int, x: WhyText)
    requires
        0 <= k < 10,
        parts(it, view, theme, told)[k].contains(x),
    ensures
        why_of(it, view, theme, told).contains(x),
{
    let p = parts(it, view, theme, told);
    let s0 = p[0] + p[1];
    let s1 = s0 + p[2];
    let s2 = s1 + p[3];
    let s3 = s2 + p[4];
    let s4 = s3 + p[5];
    let s5 = s4 + p[6];
    let s6 = s5 + p[7];
    let s7 = s6 + p[8];
    let s8 = s7 + p[9];
    assert(s8 == why_of(it, view, theme, told));
    if k == 0 {
        lemma_in_first(p[0], p[1], x);
    }
    if k == 1 {
        lemma_in_second(p[0], p[1], x);
    }
    if k <= 1 {
        lemma_in_first(s0, p[2], x);
    } else if k == 2 {
        lemma_in_second(s0, p[2], x);
    }
    if k <= 2 {
        lemma_in_first(s1, p[3], x);
    } else if k == 3 {
        lemma_in_second(s1, p[3], x);
    }
    if k <= 3 {
        lemma_in_first(s2, p[4], x);
    } else if k == 4 {
        lemma_in_second(s2, p[4], x);
    }
    if k <= 4 {
        lemma_in_first(s3, p[5], x);
    } else if k == 5 {
        lemma_in_second(s3, p[5], x);
    }
    if k <= 5 {
        lemma_in_first(s4, p[6], x);
    } else if k == 6 {
        lemma_in_second(s4, p[6], x);
    }
    if k <= 6 {
        lemma_in_first(s5, p[7], x);
    } else if k == 7 {
        lemma_in_second(s5, p[7], x);
    }
    if k <= 7 {
        lemma_in_first(s6, p[8], x);
    } else if k == 8 {
        lemma_in_second(s6, p[8], x);
    }
    if k <= 8 {
        lemma_in_first(s7, p[9], x);
    } else if k == 9 {
        lemma_in_second(s7, p[9], x);
    }
}

/// What is known of a hunk is told: what rejecting it strands, how it differs from
/// the last look, what it was reviewed before, the note on it, and the reason for
/// its place.
pub proof fn law_what_is_known_of_a_hunk_is_told(it: Item, view: Seq<usize>, theme: Theme, told: Told)
    ensures
        told.cascade matches Some(t) ==> why_of(it, view, theme, told).contains(text_line("· "@ + t, theme.accent)),
        told.delta matches Some(t) ==> why_of(it, view, theme, told).contains(text_line("· "@ + t, theme.accent)),
        told.note matches Some(t) ==> why_of(it, view, theme, told).contains(text_line("note: "@ + t, theme.warn)),
        told.out_of_order.len() > 0 ==> why_of(it, view, theme, told).contains(
            text_line(
                "⚠ marked reviewed, but depends on unreviewed "@ + joined(told.out_of_order, ", "@),
                theme.warn,
            ),
        ),
        it.rationale@ != "change"@ ==> why_of(it, view, theme, told).contains(
            text_line("reason: "@ + it.rationale@, theme.border_focus),
        ),
        it.notes@.len() > 0 ==> why_of(it, view, theme, told).contains(
            text_line("notes: "@ + joined(texts(it.notes@), "; "@), theme.mark),
        ),
{
    let p = parts(it, view, theme, told);
    if let Some(t) = told.cascade {
        assert(p[0][0] == text_line("· "@ + t, theme.accent));
        lemma_part(it, view, theme, told, 0, p[0][0]);
    }
    if let Some(t) = told.delta {
        assert(p[1][0] == text_line("· "@ + t, theme.accent));
        lemma_part(it, view, theme, told, 1, p[1][0]);
    }
    if told.out_of_order.len() > 0 {
        assert(p[2][0] == text_line(
            "⚠ marked reviewed, but depends on unreviewed "@ + joined(told.out_of_order, ", "@),
            theme.warn,
        ));
        lemma_part(it, view, theme, told, 2, p[2][0]);
    }
    if let Some(t) = told.note {
        assert(p[3][0] == text_line("note: "@ + t, theme.warn));
        lemma_part(it, view, theme, told, 3, p[3][0]);
    }
    if it.rationale@ != "change"@ {
        assert(p[4][0] == text_line("reason: "@ + it.rationale@, theme.border_focus));
        lemma_part(it, view, theme, told, 4, p[4][0]);
    }
    if it.notes@.len() > 0 {
        assert(texts(it.notes@).len() > 0);
        assert(p[7][0] == text_line("notes: "@ + joined(texts(it.notes@), "; "@), theme.mark));
        lemma_part(it, view, theme, told, 7, p[7][0]);
    }
}

/// Each detail, each rule that matched and each edge of a hunk has its line: a rule
/// that warns is told with a warning, and an edge leads to its item where that is
/// in view, and nowhere else.
pub proof fn law_each_detail_rule_and_edge_is_told(it: Item, view: Seq<usize>, theme: Theme, told: Told, i: int)
    ensures
        0 <= i < it.details@.len() ==> why_of(it, view, theme, told).contains(
            text_line("- "@ + it.details@[i]@, theme.accent),
        ),
        0 <= i < it.rules@.len() && it.rules@[i].level@ == "warn"@ ==> why_of(it, view, theme, told).contains(
            text_line("⚠ "@ + it.rules@[i].rule@ + " — "@ + it.rules@[i].message@, theme.warn),
        ),
        0 <= i < it.rules@.len() && it.rules@[i].level@ != "warn"@ ==> why_of(it, view, theme, told).contains(
            text_line("· "@ + it.rules@[i].rule@ + " — "@ + it.rules@[i].message@, theme.reviewed),
        ),
        0 <= i < it.edges@.len() ==> exists|x: WhyText| #[trigger]
            why_of(it, view, theme, told).contains(x) && x.text == "dep "@ + it.edges@[i].label@ && x.kind
                == WhyKind::Edge(
                if it.edges@[i].target is Some && view.contains(it.edges@[i].target->0) {
                    it.edges@[i].target
                } else {
                    None
                },
            ),
{
    let p = parts(it, view, theme, told);
    if 0 <= i < it.details@.len() {
        assert(texts(it.details@)[i] == it.details@[i]@);
        assert(p[5][i] == text_line("- "@ + it.details@[i]@, theme.accent));
        lemma_part(it, view, theme, told, 5, p[5][i]);
    }
    if 0 <= i < it.rules@.len() {
        reveal_strlit("⚠ ");
        reveal_strlit("⚠");
        reveal_strlit("· ");
        reveal_strlit("·");
        reveal_strlit(" ");
        assert("⚠"@ + " "@ =~= "⚠ "@);
        assert("·"@ + " "@ =~= "· "@);
        assert(p[6][i] == crate::why::rule_row(it.rules@[i], theme));
        lemma_part(it, view, theme, told, 6, p[6][i]);
    }
    if 0 <= i < it.edges@.len() {
        let x = p[8][i];
        assert(p[8].contains(x));
        lemma_part(it, view, theme, told, 8, x);
        assert(why_of(it, view, theme, told).contains(x));
    }
}

/// What a construct calls for is told under its own name, with a warning where
/// that is the verdict.
pub proof fn law_each_advisory_is_told(advisories: Seq<Advisory>, theme: Theme, n: int, k: int)
    requires
        0 <= k < n <= advisories.len(),
    ensures
        exists|i: int|
            0 <= i < all_advisory_rows(advisories, theme, n).len() && (#[trigger] all_advisory_rows(
                advisories,
                theme,
                n,
            )[i]).text == (if advisories[k].verdict {
                "⚠ "@ + advisories[k].construct@
            } else {
                advisories[k].construct@
            }) && all_advisory_rows(advisories, theme, n)[i].style.fg == Some(
                if advisories[k].verdict {
                    theme.warn
                } else {
                    theme.category
                },
            ),
    decreases n,
{
    let before = all_advisory_rows(advisories, theme, n - 1);
    let all = all_advisory_rows(advisories, theme, n);
    if k < n - 1 {
        law_each_advisory_is_told(advisories, theme, n - 1, k);
        let i = choose|i: int|
            0 <= i < before.len() && (#[trigger] before[i]).text == (if advisories[k].verdict {
                "⚠ "@ + advisories[k].construct@
            } else {
                advisories[k].construct@
            }) && before[i].style.fg == Some(
                if advisories[k].verdict {
                    theme.warn
                } else {
                    theme.category
                },
            );
        assert(all[i] == before[i]);
    } else {
        assert(all[before.len() as int] == crate::why::advisory_rows(advisories[k], theme)[0]);
    }
}

} // verus!
