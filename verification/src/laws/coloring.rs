//! Code has the colours of its captures, and a theme the colours of its
//! palette.

use crate::highlight::{capture_color, capture_names, painted, HlEvent};
use crate::syntax::byte_slice;
use crate::text::split_on;
use crate::theme::{mixed_channel, Color, Palette, Syntax};
use vstd::prelude::*;

verus! {

/// A capture has the colour of its name: what is a kind of another thing has
/// the colour of that thing, and literals that are no text that of numbers.
pub proof fn law_a_capture_has_the_color_of_its_name(syn: Syntax)
    ensures
        capture_names().len() == 34,
        capture_names()[0] == "attribute"@ && capture_color(0, syn) == syn.attribute,
        capture_names()[1] == "boolean"@ && capture_color(1, syn) == syn.number,
        capture_names()[2] == "comment"@ && capture_color(2, syn) == syn.comment,
        capture_names()[3] == "constant"@ && capture_color(3, syn) == syn.number,
        capture_names()[4] == "constant.builtin"@ && capture_color(4, syn) == syn.number,
        capture_names()[5] == "constructor"@ && capture_color(5, syn) == syn.type_,
        capture_names()[6] == "escape"@ && capture_color(6, syn) == syn.number,
        capture_names()[7] == "function"@ && capture_color(7, syn) == syn.function,
        capture_names()[8] == "function.builtin"@ && capture_color(8, syn) == syn.function,
        capture_names()[9] == "function.method"@ && capture_color(9, syn) == syn.function,
        capture_names()[10] == "keyword"@ && capture_color(10, syn) == syn.keyword,
        capture_names()[11] == "label"@ && capture_color(11, syn) == syn.attribute,
        capture_names()[12] == "number"@ && capture_color(12, syn) == syn.number,
        capture_names()[13] == "operator"@ && capture_color(13, syn) == syn.operator,
        capture_names()[14] == "property"@ && capture_color(14, syn) == syn.property,
        capture_names()[15] == "punctuation"@ && capture_color(15, syn) == syn.operator,
        capture_names()[16] == "punctuation.bracket"@ && capture_color(16, syn) == syn.operator,
        capture_names()[17] == "punctuation.delimiter"@ && capture_color(17, syn) == syn.operator,
        capture_names()[18] == "punctuation.special"@ && capture_color(18, syn) == syn.operator,
        capture_names()[19] == "string"@ && capture_color(19, syn) == syn.string,
        capture_names()[20] == "string.escape"@ && capture_color(20, syn) == syn.number,
        capture_names()[21] == "string.special"@ && capture_color(21, syn) == syn.string,
        capture_names()[22] == "tag"@ && capture_color(22, syn) == syn.attribute,
        capture_names()[23] == "text.emphasis"@ && capture_color(23, syn) == syn.keyword,
        capture_names()[24] == "text.literal"@ && capture_color(24, syn) == syn.string,
        capture_names()[25] == "text.reference"@ && capture_color(25, syn) == syn.property,
        capture_names()[26] == "text.strong"@ && capture_color(26, syn) == syn.keyword,
        capture_names()[27] == "text.title"@ && capture_color(27, syn) == syn.function,
        capture_names()[28] == "text.uri"@ && capture_color(28, syn) == syn.property,
        capture_names()[29] == "type"@ && capture_color(29, syn) == syn.type_,
        capture_names()[30] == "type.builtin"@ && capture_color(30, syn) == syn.type_,
        capture_names()[31] == "variable"@ && capture_color(31, syn) == syn.variable,
        capture_names()[32] == "variable.builtin"@ && capture_color(32, syn) == syn.builtin,
        capture_names()[33] == "variable.parameter"@ && capture_color(33, syn) == syn.param,
        forall|h: int| h < 0 || h >= 34 ==> #[trigger] capture_color(h, syn) == syn.variable,
{
}

proof fn lemma_painted_lines(events: Seq<HlEvent>, src: Seq<char>, syn: Syntax)
    ensures
        painted(events, src, syn).lines.len() > 0,
    decreases events.len(),
{
    if events.len() > 0 {
        lemma_painted_lines(events.drop_last(), src, syn);
        let before = painted(events.drop_last(), src, syn);
        match events.last() {
            HlEvent::Source(start, end) => {
                let pieces = split_on(byte_slice(src, start as int, end as int), '\n');
                lemma_pieces_kept(
                    before.lines,
                    pieces,
                    crate::highlight::open_color(before, syn),
                    pieces.len() as int,
                );
            },
            _ => {},
        }
    }
}

proof fn lemma_pieces_kept(lines: Seq<Seq<(Seq<char>, Color)>>, pieces: Seq<Seq<char>>, color: Color, n: int)
    requires
        lines.len() > 0,
    ensures
        crate::highlight::with_pieces(lines, pieces, color, n).len() > 0,
    decreases n,
{
    if n > 1 {
        lemma_pieces_kept(lines, pieces, color, n - 1);
    }
}

/// Text in a capture is painted in the colour of that capture, at the end of
/// the line that is being painted.
pub proof fn law_text_has_the_color_of_its_capture(
    events: Seq<HlEvent>,
    h: usize,
    start: usize,
    end: usize,
    src: Seq<char>,
    syn: Syntax,
)
    requires
        split_on(byte_slice(src, start as int, end as int), '\n') == seq![byte_slice(src, start as int, end as int)],
        byte_slice(src, start as int, end as int).len() > 0,
    ensures
        ({
            let r = painted(events.push(HlEvent::Start(h)).push(HlEvent::Source(start, end)), src, syn);
            let before = painted(events, src, syn);
            &&& r.lines.len() == before.lines.len()
            &&& r.lines.drop_last() == before.lines.drop_last()
            &&& r.lines.last() == before.lines.last().push(
                (byte_slice(src, start as int, end as int), capture_color(h as int, syn)),
            )
        }),
{
    let a = events.push(HlEvent::Start(h));
    let b = a.push(HlEvent::Source(start, end));
    assert(a.drop_last() == events);
    assert(b.drop_last() == a);
    lemma_painted_lines(events, src, syn);
    let before = painted(events, src, syn);
    assert(painted(a, src, syn).lines == before.lines);
}

/// Text outside every capture has the plain colour.
pub proof fn law_text_outside_captures_is_plain(start: usize, end: usize, src: Seq<char>, syn: Syntax)
    requires
        split_on(byte_slice(src, start as int, end as int), '\n') == seq![byte_slice(src, start as int, end as int)],
        byte_slice(src, start as int, end as int).len() > 0,
    ensures
        painted(seq![HlEvent::Source(start, end)], src, syn).lines == seq![
            seq![(byte_slice(src, start as int, end as int), syn.variable)],
        ],
{
    let a = seq![HlEvent::Source(start, end)];
    assert(a.drop_last() == Seq::<HlEvent>::empty());
    assert(painted(a.drop_last(), src, syn).lines == seq![Seq::<(Seq<char>, Color)>::empty()]);
}

/// When a capture ends, what held before it began holds again.
pub proof fn law_a_capture_that_ends_leaves_what_was_before(
    events: Seq<HlEvent>,
    h: usize,
    src: Seq<char>,
    syn: Syntax,
)
    ensures
        painted(events.push(HlEvent::Start(h)).push(HlEvent::End), src, syn) == painted(events, src, syn),
{
    let a = events.push(HlEvent::Start(h));
    let b = a.push(HlEvent::End);
    assert(a.drop_last() == events);
    assert(b.drop_last() == a);
    let before = painted(events, src, syn);
    let c = capture_color(h as int, syn);
    assert(before.open.push(c).drop_last() == before.open);
    assert(a.last() == HlEvent::Start(h));
    assert(b.last() == HlEvent::End);
    let m = painted(a, src, syn);
    assert(m.open == before.open.push(c) && m.lines == before.lines);
    let r = painted(b, src, syn);
    assert(r.open == before.open);
    assert(r.lines == before.lines);
}

/// A line end in the text begins a new line, in the same colour.
pub proof fn law_a_line_end_begins_a_line(
    start: usize,
    end: usize,
    src: Seq<char>,
    syn: Syntax,
    first: Seq<char>,
    second: Seq<char>,
)
    requires
        split_on(byte_slice(src, start as int, end as int), '\n') == seq![first, second],
        first.len() > 0,
        second.len() > 0,
    ensures
        painted(seq![HlEvent::Source(start, end)], src, syn).lines == seq![
            seq![(first, syn.variable)],
            seq![(second, syn.variable)],
        ],
{
    let a = seq![HlEvent::Source(start, end)];
    assert(a.drop_last() == Seq::<HlEvent>::empty());
    reveal_with_fuel(crate::highlight::with_pieces, 3);
    let none = seq![Seq::<(Seq<char>, Color)>::empty()];
    assert(painted(a.drop_last(), src, syn).lines == none);
    let one = crate::highlight::with_piece(none, first, syn.variable);
    assert(one == seq![seq![(first, syn.variable)]]);
    let two = one.push(Seq::empty());
    assert(crate::highlight::with_piece(two, second, syn.variable) == seq![
        seq![(first, syn.variable)],
        seq![(second, syn.variable)],
    ]);
}

/// Mixing by nothing keeps a channel, by everything gives the other, and
/// anything between gives what lies between the two.
pub proof fn law_a_mix_lies_between(a: int, b: int, w: int)
    requires
        0 <= a < 256,
        0 <= b < 256,
        0 <= w <= 256,
    ensures
        mixed_channel(a, b, 0) == a,
        mixed_channel(a, b, 256) == b,
        a <= b ==> a <= mixed_channel(a, b, w) <= b,
        b <= a ==> b <= mixed_channel(a, b, w) <= a,
{
    assert((a * (256 - 0) + b * 0) / 256 == a) by (nonlinear_arith);
    assert((a * (256 - 256) + b * 256) / 256 == b) by (nonlinear_arith);
    let s = a * (256 - w) + b * w;
    if a <= b {
        assert(256 * a <= s <= 256 * b) by (nonlinear_arith)
            requires
                a <= b,
                0 <= w <= 256,
                s == a * (256 - w) + b * w,
        ;
    } else {
        assert(256 * b <= s <= 256 * a) by (nonlinear_arith)
            requires
                b <= a,
                0 <= w <= 256,
                s == a * (256 - w) + b * w,
        ;
    }
}

/// What is added is green and what is removed is red, in the shades of the
/// palette; what was reviewed is green and what warns is red.
pub proof fn law_added_is_green_and_removed_is_red(p: Palette)
    ensures
        p.as_theme().add_fg == crate::theme::hex(p.green),
        p.as_theme().del_fg == crate::theme::hex(p.red),
        p.as_theme().reviewed == crate::theme::hex(p.green),
        p.as_theme().warn == crate::theme::hex(p.red),
        p.as_theme().fg == crate::theme::hex(p.fg),
        p.as_theme().dim == crate::theme::hex(p.dim),
        p.as_theme().name == p.name,
        p.as_theme().syn.comment == crate::theme::hex(p.dim),
        p.as_theme().syn.keyword == crate::theme::hex(p.magenta),
        p.as_theme().syn.string == crate::theme::hex(p.green),
{
}

} // verus!
