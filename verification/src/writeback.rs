//! The generated configuration file, taken out of its comments and read back.

use crate::config_file::{lemma_written_lines_read_back, one_line};
use crate::keyconfig::{
    all_overridden, as_they_are, bind_rows, bind_setting, config_read, generated, heading_of,
    inherited_lines, inherited_roles, is_role_name, law_a_written_binding_reads_back, law_a_written_colour_reads_back,
    law_writing_out_the_bindings_changes_nothing, lemma_bare_line, lemma_no_comment, line_read, lines_read,
    opening_lines, quotable, role_rows, role_setting, shown_preset, shown_theme, theme_lines, uncommented, ConfigText,
    Section,
};
use crate::keys::{
    action_text, bind_text, help_of, is_preset, writable, Action, Bind, Category, Fold, Keymap, Pane,
};
use crate::text::{
    contains_text, is_space, joined, lemma_trim_start_len, lines_of, occurs_at, starts_with, trim_start,
    trimmed,
};
use crate::theme::{hex_text, palette_list, role_color, role_list, theme_name_list, theme_named, Color, Theme};
use vstd::prelude::*;

verus! {

/// Whether a character can stand in a comment: it ends no line, and sets nothing.
pub open spec fn quiet_char(c: char) -> bool {
    c != '\n' && c != '\r' && c != '='
}

/// Whether the first `n` characters of a text can stand in a comment.
pub open spec fn quiet_upto(s: Seq<char>, n: int) -> bool
    decreases n,
{
    n <= 0 || (quiet_char(s[n - 1]) && quiet_upto(s, n - 1))
}

/// Whether a text can stand in a comment.
pub open spec fn quiet(s: Seq<char>) -> bool {
    forall|i: int| 0 <= i < s.len() ==> quiet_char(#[trigger] s[i])
}

proof fn lemma_quiet(s: Seq<char>, n: int)
    requires
        quiet_upto(s, n),
        n == s.len(),
    ensures
        quiet(s),
{
    lemma_quiet_upto(s, n);
}

proof fn lemma_quiet_upto(s: Seq<char>, n: int)
    requires
        quiet_upto(s, n),
        0 <= n <= s.len(),
    ensures
        forall|i: int| 0 <= i < n ==> quiet_char(#[trigger] s[i]),
    decreases n,
{
    if n > 0 {
        lemma_quiet_upto(s, n - 1);
    }
}

proof fn lemma_general_help_is_quiet(a: Action)
    requires
        help_of(a).0 == Category::General,
    ensures
        quiet(help_of(a).1),
{
    reveal_with_fuel(quiet_upto, 41);
    match a {
        Action::Quit => {
            reveal_strlit("quit (or dismiss an open popup or search)");
            assert(quiet_upto("quit (or dismiss an open popup or search)"@, 40));
            lemma_quiet("quit (or dismiss an open popup or search)"@, 41);
        },
        Action::CommandOpen => {
            reveal_strlit("open the command bar (:only-comments, :all, :filter, :keys, :strategy, :goto, :quickfix, :help, :q)");
            assert(quiet_upto("open the command bar (:only-comments, :all, :filter, :keys, :strategy, :goto, :quickfix, :help, :q)"@, 40));
            assert(quiet_upto("open the command bar (:only-comments, :all, :filter, :keys, :strategy, :goto, :quickfix, :help, :q)"@, 80));
            lemma_quiet("open the command bar (:only-comments, :all, :filter, :keys, :strategy, :goto, :quickfix, :help, :q)"@, 99);
        },
        Action::CommandGoto => {
            reveal_strlit("open the command bar pre-filled with `goto `");
            assert(quiet_upto("open the command bar pre-filled with `goto `"@, 40));
            lemma_quiet("open the command bar pre-filled with `goto `"@, 44);
        },
        _ => {},
    }
}

proof fn lemma_navigation_help_is_quiet(a: Action)
    requires
        help_of(a).0 == Category::Navigation,
    ensures
        quiet(help_of(a).1),
{
    reveal_with_fuel(quiet_upto, 41);
    match a {
        Action::Next => {
            reveal_strlit("next item / move cursor down");
            lemma_quiet("next item / move cursor down"@, 28);
        },
        Action::Prev => {
            reveal_strlit("previous item / move cursor up");
            lemma_quiet("previous item / move cursor up"@, 30);
        },
        Action::First => {
            reveal_strlit("jump to the first item / top");
            lemma_quiet("jump to the first item / top"@, 28);
        },
        Action::Last => {
            reveal_strlit("jump to the last item / bottom");
            lemma_quiet("jump to the last item / bottom"@, 30);
        },
        Action::PageDown => {
            reveal_strlit("page down");
            lemma_quiet("page down"@, 9);
        },
        Action::PageUp => {
            reveal_strlit("page up");
            lemma_quiet("page up"@, 7);
        },
        Action::HalfDown => {
            reveal_strlit("half-page down");
            lemma_quiet("half-page down"@, 14);
        },
        Action::HalfUp => {
            reveal_strlit("half-page up");
            lemma_quiet("half-page up"@, 12);
        },
        Action::CursorLeft => {
            reveal_strlit("move the code cursor left");
            lemma_quiet("move the code cursor left"@, 25);
        },
        Action::CursorRight => {
            reveal_strlit("move the code cursor right");
            lemma_quiet("move the code cursor right"@, 26);
        },
        Action::WordNext => {
            reveal_strlit("move the code cursor to the next word");
            lemma_quiet("move the code cursor to the next word"@, 37);
        },
        Action::WordPrev => {
            reveal_strlit("move the code cursor to the previous word");
            assert(quiet_upto("move the code cursor to the previous word"@, 40));
            lemma_quiet("move the code cursor to the previous word"@, 41);
        },
        Action::WordEnd => {
            reveal_strlit("move the code cursor to the end of the word");
            assert(quiet_upto("move the code cursor to the end of the word"@, 40));
            lemma_quiet("move the code cursor to the end of the word"@, 43);
        },
        Action::LineStart => {
            reveal_strlit("move to line start / pane top");
            lemma_quiet("move to line start / pane top"@, 29);
        },
        Action::LineEnd => {
            reveal_strlit("move to line end / pane bottom");
            lemma_quiet("move to line end / pane bottom"@, 30);
        },
        Action::ParaPrev => {
            reveal_strlit("jump to the previous blank line");
            lemma_quiet("jump to the previous blank line"@, 31);
        },
        Action::ParaNext => {
            reveal_strlit("jump to the next blank line");
            lemma_quiet("jump to the next blank line"@, 27);
        },
        Action::ScrollLeft => {
            reveal_strlit("scroll the code pane (or an open popup) left");
            assert(quiet_upto("scroll the code pane (or an open popup) left"@, 40));
            lemma_quiet("scroll the code pane (or an open popup) left"@, 44);
        },
        Action::ScrollRight => {
            reveal_strlit("scroll the code pane (or an open popup) right");
            assert(quiet_upto("scroll the code pane (or an open popup) right"@, 40));
            lemma_quiet("scroll the code pane (or an open popup) right"@, 45);
        },
        Action::JumpToEdge => {
            reveal_strlit("why pane: jump to the current dep line's target hunk");
            assert(quiet_upto("why pane: jump to the current dep line's target hunk"@, 40));
            lemma_quiet("why pane: jump to the current dep line's target hunk"@, 52);
        },
        Action::JumpBack => {
            reveal_strlit("jump back to the position before the last dep jump");
            assert(quiet_upto("jump back to the position before the last dep jump"@, 40));
            lemma_quiet("jump back to the position before the last dep jump"@, 50);
        },
        _ => {},
    }
}

proof fn lemma_review_help_is_quiet(a: Action)
    requires
        help_of(a).0 == Category::Review,
    ensures
        quiet(help_of(a).1),
{
    reveal_with_fuel(quiet_upto, 41);
    match a {
        Action::ToggleReviewed => {
            reveal_strlit("toggle reviewed on the selected hunk");
            lemma_quiet("toggle reviewed on the selected hunk"@, 36);
        },
        Action::Fold(Fold::Toggle) => {
            reveal_strlit("fold/unfold the selected hunk's group");
            lemma_quiet("fold/unfold the selected hunk's group"@, 37);
        },
        Action::Fold(Fold::Open) => {
            reveal_strlit("unfold the selected hunk's group");
            lemma_quiet("unfold the selected hunk's group"@, 32);
        },
        Action::Fold(Fold::Close) => {
            reveal_strlit("fold the selected hunk's group");
            lemma_quiet("fold the selected hunk's group"@, 30);
        },
        Action::Fold(Fold::OpenAll) => {
            reveal_strlit("unfold every group");
            lemma_quiet("unfold every group"@, 18);
        },
        Action::Fold(Fold::CloseAll) => {
            reveal_strlit("fold every group");
            lemma_quiet("fold every group"@, 16);
        },
        _ => {},
    }
}

proof fn lemma_panes_help_is_quiet(a: Action)
    requires
        help_of(a).0 == Category::Panes,
    ensures
        quiet(help_of(a).1),
{
    reveal_with_fuel(quiet_upto, 41);
    match a {
        Action::FocusNext => {
            reveal_strlit("focus the next pane");
            lemma_quiet("focus the next pane"@, 19);
        },
        Action::FocusPrev => {
            reveal_strlit("focus the previous pane");
            lemma_quiet("focus the previous pane"@, 23);
        },
        Action::Focus(Pane::List) => {
            reveal_strlit("focus the reading-order pane");
            lemma_quiet("focus the reading-order pane"@, 28);
        },
        Action::Focus(Pane::Code) => {
            reveal_strlit("focus the code pane");
            lemma_quiet("focus the code pane"@, 19);
        },
        Action::Focus(Pane::Why) => {
            reveal_strlit("focus the why pane");
            lemma_quiet("focus the why pane"@, 18);
        },
        _ => {},
    }
}

proof fn lemma_editor_help_is_quiet(a: Action)
    requires
        help_of(a).0 == Category::Editor,
    ensures
        quiet(help_of(a).1),
{
    reveal_with_fuel(quiet_upto, 41);
    match a {
        Action::Hover => {
            reveal_strlit("code pane: show the symbol under the cursor and its history · why pane: preview the current dep line's target");
            assert(quiet_upto("code pane: show the symbol under the cursor and its history · why pane: preview the current dep line's target"@, 40));
            assert(quiet_upto("code pane: show the symbol under the cursor and its history · why pane: preview the current dep line's target"@, 80));
            lemma_quiet("code pane: show the symbol under the cursor and its history · why pane: preview the current dep line's target"@, 109);
        },
        Action::OpenEditor => {
            reveal_strlit("open the selected hunk's file in $VISUAL/$EDITOR");
            assert(quiet_upto("open the selected hunk's file in $VISUAL/$EDITOR"@, 40));
            lemma_quiet("open the selected hunk's file in $VISUAL/$EDITOR"@, 48);
        },
        _ => {},
    }
}

proof fn lemma_search_help_is_quiet(a: Action)
    requires
        help_of(a).0 == Category::Search,
    ensures
        quiet(help_of(a).1),
{
    reveal_with_fuel(quiet_upto, 41);
    match a {
        Action::SearchOpen => {
            reveal_strlit("open the text-search prompt");
            lemma_quiet("open the text-search prompt"@, 27);
        },
        Action::SymbolNext => {
            reveal_strlit("next occurrence of the symbol under the cursor");
            assert(quiet_upto("next occurrence of the symbol under the cursor"@, 40));
            lemma_quiet("next occurrence of the symbol under the cursor"@, 46);
        },
        Action::SymbolPrev => {
            reveal_strlit("previous occurrence of the symbol under the cursor");
            assert(quiet_upto("previous occurrence of the symbol under the cursor"@, 40));
            lemma_quiet("previous occurrence of the symbol under the cursor"@, 50);
        },
        Action::SearchNext => {
            reveal_strlit("cycle to the next match");
            lemma_quiet("cycle to the next match"@, 23);
        },
        Action::SearchPrev => {
            reveal_strlit("cycle to the previous match");
            lemma_quiet("cycle to the previous match"@, 27);
        },
        _ => {},
    }
}

proof fn lemma_help_help_is_quiet(a: Action)
    requires
        help_of(a).0 == Category::Help,
    ensures
        quiet(help_of(a).1),
{
    reveal_with_fuel(quiet_upto, 41);
    match a {
        Action::Help => {
            reveal_strlit("show this keybinding help");
            lemma_quiet("show this keybinding help"@, 25);
        },
        _ => {},
    }
}

/// What an action is told to do stands in a comment.
proof fn lemma_help_is_quiet(a: Action)
    ensures
        quiet(help_of(a).1),
{
    match help_of(a).0 {
        Category::General => lemma_general_help_is_quiet(a),
        Category::Navigation => lemma_navigation_help_is_quiet(a),
        Category::Review => lemma_review_help_is_quiet(a),
        Category::Panes => lemma_panes_help_is_quiet(a),
        Category::Editor => lemma_editor_help_is_quiet(a),
        Category::Search => lemma_search_help_is_quiet(a),
        Category::Help => lemma_help_help_is_quiet(a),
    }
}

/// Whether a text has no line end in it.
pub open spec fn on_a_line(s: Seq<char>) -> bool {
    forall|i: int| 0 <= i < s.len() ==> #[trigger] s[i] != '\n' && s[i] != '\r'
}

proof fn lemma_on_a_line(s: Seq<char>)
    requires
        on_a_line(s),
    ensures
        one_line(s),
{
    if s.len() > 0 {
        assert(s[s.len() - 1] != '\r');
    }
}

proof fn lemma_quiet_is_on_a_line(s: Seq<char>)
    requires
        quiet(s),
    ensures
        on_a_line(s),
{
    assert forall|i: int| 0 <= i < s.len() implies #[trigger] s[i] != '\n' && s[i] != '\r' by {
        assert(quiet_char(s[i]));
    }
}

proof fn lemma_on_a_line_together(a: Seq<char>, b: Seq<char>)
    requires
        on_a_line(a),
        on_a_line(b),
    ensures
        on_a_line(a + b),
{
    let s = a + b;
    assert forall|i: int| 0 <= i < s.len() implies #[trigger] s[i] != '\n' && s[i] != '\r' by {
        if i < a.len() {
            assert(s[i] == a[i]);
        } else {
            assert(s[i] == b[i - a.len()]);
        }
    }
}

proof fn lemma_quiet_together(a: Seq<char>, b: Seq<char>)
    requires
        quiet(a),
        quiet(b),
    ensures
        quiet(a + b),
{
    let s = a + b;
    assert forall|i: int| 0 <= i < s.len() implies quiet_char(#[trigger] s[i]) by {
        if i < a.len() {
            assert(quiet_char(a[i]));
        } else {
            assert(quiet_char(b[i - a.len()]));
        }
    }
}

proof fn lemma_quiet_joined(v: Seq<Seq<char>>, sep: Seq<char>)
    requires
        quiet(sep),
        forall|k: int| 0 <= k < v.len() ==> quiet(#[trigger] v[k]),
    ensures
        quiet(joined(v, sep)),
    decreases v.len(),
{
    if v.len() > 1 {
        let init = v.drop_last();
        assert forall|k: int| 0 <= k < init.len() implies quiet(#[trigger] init[k]) by {
            assert(quiet(v[k]));
        }
        lemma_quiet_joined(init, sep);
        assert(quiet(v[v.len() - 1]));
        lemma_quiet_together(joined(init, sep), sep);
        lemma_quiet_together(joined(init, sep) + sep, v.last());
    } else if v.len() == 1 {
        assert(quiet(v[0]));
    }
}

/// A line of the generated file, taken out of its comment if it is a setting.
pub open spec fn live_line(line: Seq<char>) -> Seq<char> {
    let t = trim_start(line);
    if starts_with(t, "# "@) && contains_text(t.skip(2), " = "@) {
        t.skip(2)
    } else {
        line
    }
}

/// The lines of a text, each taken out of its comment if it is a setting.
pub open spec fn live_lines(lines: Seq<Seq<char>>) -> Seq<Seq<char>> {
    Seq::new(lines.len(), |i: int| live_line(lines[i]))
}

/// A text with every setting taken out of its comment.
pub open spec fn live(text: Seq<char>) -> Seq<char> {
    joined(live_lines(lines_of(text)), "\n"@) + "\n"@
}

/// What sets nothing stays as it is.
proof fn lemma_quiet_line_stays(line: Seq<char>)
    requires
        quiet(line),
    ensures
        live_line(line) == line,
        one_line(line),
{
    lemma_quiet_is_on_a_line(line);
    lemma_on_a_line(line);
    lemma_trim_start_len(line);
    let t = trim_start(line);
    let k = choose|k: int| 0 <= k <= line.len() && trim_start(line) == line.skip(k);
    reveal_strlit("# ");
    reveal_strlit(" = ");
    if starts_with(t, "# "@) && contains_text(t.skip(2), " = "@) {
        let at = choose|at: int| occurs_at(t.skip(2), " = "@, at);
        assert(t.skip(2).subrange(at, at + 3)[1] == '=');
        assert(line[k + 2 + at + 1] == '=');
        assert(quiet_char(line[k + 2 + at + 1]));
    }
}

/// A line that does not start with a blank or a sign of comment stays as it is.
proof fn lemma_other_line_stays(line: Seq<char>)
    requires
        line.len() > 0,
        !is_space(line[0]),
        line[0] != '#',
    ensures
        live_line(line) == line,
{
    reveal_strlit("# ");
    if starts_with(line, "# "@) {
        assert(line.subrange(0, 2)[0] == line[0]);
    }
}

/// A setting is taken out of its comment.
proof fn lemma_setting_comes_out(setting: Seq<char>, at: int)
    requires
        occurs_at(setting, " = "@, at),
    ensures
        live_line("# "@ + setting) == setting,
{
    reveal_strlit("# ");
    let line = "# "@ + setting;
    assert(trim_start(line) == line);
    assert(line.subrange(0, 2) =~= "# "@);
    assert(line.skip(2) =~= setting);
}

/// Whether a line is passed over when it is read.
pub open spec fn passed_over(line: Seq<char>) -> bool {
    forall|c: ConfigText, section: Section, n: int| #[trigger] line_read(c, section, n, line) == (c, section)
}

/// A comment is passed over.
proof fn lemma_comment_is_passed_over(line: Seq<char>, k: int)
    requires
        0 <= k < line.len(),
        line[k] == '#',
        forall|i: int| 0 <= i < k ==> #[trigger] line[i] == ' ',
    ensures
        passed_over(line),
{
    lemma_no_comment(line, 0, k, None);
    let u = line.take(k);
    lemma_blanks_are_trimmed(u);
    assert(uncommented(line) == u);
}

proof fn lemma_blanks_are_trimmed(s: Seq<char>)
    requires
        forall|i: int| 0 <= i < s.len() ==> #[trigger] s[i] == ' ',
    ensures
        trimmed(s).len() == 0,
    decreases s.len(),
{
    if s.len() > 0 {
        assert(s[0] == ' ');
        assert forall|i: int| 0 <= i < s.skip(1).len() implies #[trigger] s.skip(1)[i] == ' ' by {
            assert(s[i + 1] == ' ');
        }
        lemma_blanks_are_trimmed(s.skip(1));
    }
}

/// What lines say after others were read.
pub open spec fn reads_on(c: ConfigText, section: Section, base: int, lines: Seq<Seq<char>>, n: int) -> (
    ConfigText,
    Section,
)
    decreases n,
{
    if n <= 0 {
        (c, section)
    } else {
        let (before, s) = reads_on(c, section, base, lines, n - 1);
        line_read(before, s, base + n, lines[n - 1])
    }
}

/// Lines are read one part after the other.
proof fn lemma_reads_on(a: Seq<Seq<char>>, b: Seq<Seq<char>>, n: int)
    requires
        0 <= n <= b.len(),
    ensures
        ({
            let (c, section) = lines_read(a, a.len() as int);
            lines_read(a + b, a.len() + n) == reads_on(c, section, a.len() as int, b, n)
        }),
    decreases n,
{
    if n == 0 {
        lemma_reads_alike(a + b, a, a.len() as int);
    } else {
        lemma_reads_on(a, b, n - 1);
        assert((a + b)[a.len() + n - 1] == b[n - 1]);
    }
}

proof fn lemma_reads_alike(a: Seq<Seq<char>>, b: Seq<Seq<char>>, n: int)
    requires
        0 <= n <= a.len(),
        n <= b.len(),
        forall|i: int| 0 <= i < n ==> a[i] == b[i],
    ensures
        lines_read(a, n) == lines_read(b, n),
    decreases n,
{
    if n > 0 {
        lemma_reads_alike(a, b, n - 1);
    }
}

/// Lines that are passed over change nothing.
proof fn lemma_passing_over(c: ConfigText, section: Section, base: int, lines: Seq<Seq<char>>, n: int)
    requires
        0 <= n <= lines.len(),
        forall|k: int| 0 <= k < n ==> passed_over(#[trigger] lines[k]),
    ensures
        reads_on(c, section, base, lines, n) == (c, section),
    decreases n,
{
    if n > 0 {
        lemma_passing_over(c, section, base, lines, n - 1);
        assert(passed_over(lines[n - 1]));
    }
}

/// Whether a text is a name: small letters, digits and dashes.
pub open spec fn is_name(s: Seq<char>) -> bool {
    s.len() > 0 && forall|i: int|
        0 <= i < s.len() ==> ('a' <= #[trigger] s[i] <= 'z' || '0' <= s[i] <= '9' || s[i] == '-')
}

proof fn lemma_name(s: Seq<char>)
    requires
        is_name(s),
    ensures
        quiet(s),
        quotable(s),
{
    assert forall|i: int| 0 <= i < s.len() implies quiet_char(#[trigger] s[i]) by {}
}

/// The names of the themes are names.
proof fn lemma_theme_names()
    ensures
        forall|k: int| 0 <= k < theme_name_list().len() ==> is_name(#[trigger] theme_name_list()[k]),
{
    reveal_strlit("dark");
    reveal_strlit("light");
    reveal_strlit("catppuccin-mocha");
    reveal_strlit("catppuccin-macchiato");
    reveal_strlit("catppuccin-frappe");
    reveal_strlit("catppuccin-latte");
    reveal_strlit("tokyonight-night");
    reveal_strlit("tokyonight-storm");
    reveal_strlit("tokyonight-moon");
    reveal_strlit("tokyonight-day");
    reveal_strlit("gruvbox-dark");
    reveal_strlit("gruvbox-light");
    reveal_strlit("nord");
    reveal_strlit("dracula");
    reveal_strlit("solarized-dark");
    reveal_strlit("solarized-light");
    let p = palette_list();
    assert(is_name("dark"@));
    assert(is_name("light"@));
    assert(is_name(p[0].name@));
    assert(is_name(p[1].name@));
    assert(is_name(p[2].name@));
    assert(is_name(p[3].name@));
    assert(is_name(p[4].name@));
    assert(is_name(p[5].name@));
    assert(is_name(p[6].name@));
    assert(is_name(p[7].name@));
    assert(is_name(p[8].name@));
    assert(is_name(p[9].name@));
    assert(is_name(p[10].name@));
    assert(is_name(p[11].name@));
    assert(is_name(p[12].name@));
    assert(is_name(p[13].name@));
    let l = theme_name_list();
    assert forall|k: int| 0 <= k < l.len() implies is_name(#[trigger] l[k]) by {
        if k >= 2 {
            assert(l[k] == p[k - 2].name@);
        }
    }
}

/// A line of prose: a comment, which stays one and is passed over.
pub open spec fn is_prose(line: Seq<char>) -> bool {
    one_line(line) && live_line(line) == line && passed_over(line)
}

proof fn lemma_prose(line: Seq<char>)
    requires
        quiet(line),
        line.len() > 0,
        line[0] == '#',
    ensures
        is_prose(line),
{
    lemma_quiet_line_stays(line);
    lemma_comment_is_passed_over(line, 0);
}

proof fn lemma_blank_is_prose()
    ensures
        is_prose(""@),
{
    reveal_strlit("");
    lemma_quiet_line_stays(""@);
    let u = uncommented(""@);
    assert(u.len() == 0);
    lemma_blanks_are_trimmed(u);
}

proof fn lemma_opening_prose()
    ensures
        is_prose("# ordo configuration — every line below is this build's own default,"@),
        is_prose("# commented out. Uncomment and edit what you want to change."@),
        is_prose("#"@),
        is_prose("# Written by `ordo --init-config`; the values are this build's, for"@),
{
    reveal_with_fuel(quiet_upto, 41);
    reveal_strlit("# ordo configuration — every line below is this build's own default,");
    assert(quiet_upto("# ordo configuration — every line below is this build's own default,"@, 40));
    lemma_quiet("# ordo configuration — every line below is this build's own default,"@, 68);
    lemma_prose("# ordo configuration — every line below is this build's own default,"@);
    reveal_strlit("# commented out. Uncomment and edit what you want to change.");
    assert(quiet_upto("# commented out. Uncomment and edit what you want to change."@, 40));
    lemma_quiet("# commented out. Uncomment and edit what you want to change."@, 60);
    lemma_prose("# commented out. Uncomment and edit what you want to change."@);
    reveal_strlit("#");
    lemma_quiet("#"@, 1);
    lemma_prose("#"@);
    reveal_strlit("# Written by `ordo --init-config`; the values are this build's, for");
    assert(quiet_upto("# Written by `ordo --init-config`; the values are this build's, for"@, 40));
    lemma_quiet("# Written by `ordo --init-config`; the values are this build's, for"@, 67);
    lemma_prose("# Written by `ordo --init-config`; the values are this build's, for"@);
}

proof fn lemma_keys_prose()
    ensures
        is_prose("# ---------------------------------------------------------------- keys"@),
        is_prose("# A line binds one key to one action; the action `none` removes a binding."@),
        is_prose("# A chord is two keys separated by a space: `\"g d\"`, `\"C-w l\"`."@),
        is_prose("# Modifiers are `C-`, `S-`, `A-`; named keys are Esc, Enter, Tab, Space,"@),
        is_prose("# Backspace, Up, Down, Left, Right, Home, End, PageUp, PageDown, F1..F12."@),
{
    reveal_with_fuel(quiet_upto, 41);
    reveal_strlit("# ---------------------------------------------------------------- keys");
    assert(quiet_upto("# ---------------------------------------------------------------- keys"@, 40));
    lemma_quiet("# ---------------------------------------------------------------- keys"@, 71);
    lemma_prose("# ---------------------------------------------------------------- keys"@);
    reveal_strlit("# A line binds one key to one action; the action `none` removes a binding.");
    assert(quiet_upto("# A line binds one key to one action; the action `none` removes a binding."@, 40));
    lemma_quiet("# A line binds one key to one action; the action `none` removes a binding."@, 74);
    lemma_prose("# A line binds one key to one action; the action `none` removes a binding."@);
    reveal_strlit("# A chord is two keys separated by a space: `\"g d\"`, `\"C-w l\"`.");
    assert(quiet_upto("# A chord is two keys separated by a space: `\"g d\"`, `\"C-w l\"`."@, 40));
    lemma_quiet("# A chord is two keys separated by a space: `\"g d\"`, `\"C-w l\"`."@, 63);
    lemma_prose("# A chord is two keys separated by a space: `\"g d\"`, `\"C-w l\"`."@);
    reveal_strlit("# Modifiers are `C-`, `S-`, `A-`; named keys are Esc, Enter, Tab, Space,");
    assert(quiet_upto("# Modifiers are `C-`, `S-`, `A-`; named keys are Esc, Enter, Tab, Space,"@, 40));
    lemma_quiet("# Modifiers are `C-`, `S-`, `A-`; named keys are Esc, Enter, Tab, Space,"@, 72);
    lemma_prose("# Modifiers are `C-`, `S-`, `A-`; named keys are Esc, Enter, Tab, Space,"@);
    reveal_strlit("# Backspace, Up, Down, Left, Right, Home, End, PageUp, PageDown, F1..F12.");
    assert(quiet_upto("# Backspace, Up, Down, Left, Right, Home, End, PageUp, PageDown, F1..F12."@, 40));
    lemma_quiet("# Backspace, Up, Down, Left, Right, Home, End, PageUp, PageDown, F1..F12."@, 73);
    lemma_prose("# Backspace, Up, Down, Left, Right, Home, End, PageUp, PageDown, F1..F12."@);
}

proof fn lemma_theme_prose()
    ensures
        is_prose("# --------------------------------------------------------------- theme"@),
        is_prose("# `name` picks a built-in palette; the roles below override it, as #rrggbb."@),
        is_prose("# These follow the terminal's own palette on this theme, so they have no"@),
{
    reveal_with_fuel(quiet_upto, 41);
    reveal_strlit("# --------------------------------------------------------------- theme");
    assert(quiet_upto("# --------------------------------------------------------------- theme"@, 40));
    lemma_quiet("# --------------------------------------------------------------- theme"@, 71);
    lemma_prose("# --------------------------------------------------------------- theme"@);
    reveal_strlit("# `name` picks a built-in palette; the roles below override it, as #rrggbb.");
    assert(quiet_upto("# `name` picks a built-in palette; the roles below override it, as #rrggbb."@, 40));
    lemma_quiet("# `name` picks a built-in palette; the roles below override it, as #rrggbb."@, 75);
    lemma_prose("# `name` picks a built-in palette; the roles below override it, as #rrggbb."@);
    reveal_strlit("# These follow the terminal's own palette on this theme, so they have no");
    assert(quiet_upto("# These follow the terminal's own palette on this theme, so they have no"@, 40));
    lemma_quiet("# These follow the terminal's own palette on this theme, so they have no"@, 72);
    lemma_prose("# These follow the terminal's own palette on this theme, so they have no"@);
}

/// A setting of a bare key to a name, as a line of the generated file.
proof fn lemma_name_setting(k: Seq<char>, v: Seq<char>)
    requires
        is_role_name(k),
        is_name(v),
    ensures
        one_line(k + " = \""@ + v + "\""@),
        live_line(k + " = \""@ + v + "\""@) == k + " = \""@ + v + "\""@,
        live_line("# "@ + (k + " = \""@ + v + "\""@)) == k + " = \""@ + v + "\""@,
        one_line("# "@ + (k + " = \""@ + v + "\""@)),
{
    reveal_strlit(" = \"");
    reveal_strlit("\"");
    reveal_strlit(" = ");
    reveal_strlit("# ");
    let line = k + " = \""@ + v + "\""@;
    lemma_name(v);
    lemma_quiet_is_on_a_line(v);
    assert(on_a_line(k));
    assert(on_a_line(" = \""@));
    assert(on_a_line("\""@));
    assert(on_a_line("# "@));
    lemma_on_a_line_together(k, " = \""@);
    lemma_on_a_line_together(k + " = \""@, v);
    lemma_on_a_line_together(k + " = \""@ + v, "\""@);
    lemma_on_a_line_together("# "@, line);
    lemma_on_a_line(line);
    lemma_on_a_line("# "@ + line);
    assert(line[0] == k[0]);
    lemma_other_line_stays(line);
    assert(line.subrange(k.len() as int, k.len() as int + 3) =~= " = "@);
    lemma_setting_comes_out(line, k.len() as int);
}

/// The headings of the generated file open their sections.
proof fn lemma_headings()
    ensures
        one_line("[binds]"@),
        live_line("[binds]"@) == "[binds]"@,
        forall|c: ConfigText, section: Section, n: int| #[trigger]
            line_read(c, section, n, "[binds]"@) == (c, Section::Binds),
        one_line("[theme]"@),
        live_line("[theme]"@) == "[theme]"@,
        forall|c: ConfigText, section: Section, n: int| #[trigger]
            line_read(c, section, n, "[theme]"@) == (c, Section::Theme),
{
    reveal_strlit("[binds]");
    reveal_strlit("[theme]");
    reveal_strlit("binds");
    reveal_strlit("theme");
    reveal_strlit("[");
    reveal_strlit("]");
    let b = "[binds]"@;
    let t = "[theme]"@;
    lemma_other_line_stays(b);
    lemma_other_line_stays(t);
    lemma_no_comment(b, 0, 7, None);
    lemma_no_comment(t, 0, 7, None);
    assert(b.take(7) =~= b);
    assert(t.take(7) =~= t);
    assert(trimmed(b) == b);
    assert(trimmed(t) == t);
    assert(b.subrange(0, 1) =~= "["@);
    assert(t.subrange(0, 1) =~= "["@);
    assert(b.skip(1).subrange(5, 6) =~= "]"@);
    assert(t.skip(1).subrange(5, 6) =~= "]"@);
    assert(b.skip(1).take(5) =~= "binds"@);
    assert(t.skip(1).take(5) =~= "theme"@);
    assert(trimmed("binds"@) == "binds"@);
    assert(trimmed("theme"@) == "theme"@);
    assert(heading_of(b) == Some("binds"@));
    assert(heading_of(t) == Some("theme"@));
    assert("binds"@[0] != "theme"@[0]);
}

/// What a file that says nothing says.
pub open spec fn nothing_said() -> ConfigText {
    ConfigText { preset: None, binds: Seq::empty(), theme: None, colors: Seq::empty(), problems: Seq::empty() }
}

/// The line that says what the generated file was made for.
proof fn lemma_made_for(preset: Seq<char>, theme_name: Seq<char>)
    requires
        is_name(preset),
        is_name(theme_name),
    ensures
        is_prose("# preset `"@ + preset + "` and theme `"@ + theme_name + "`."@),
{
    reveal_strlit("# preset `");
    reveal_strlit("` and theme `");
    reveal_strlit("`.");
    reveal_with_fuel(quiet_upto, 20);
    lemma_quiet("# preset `"@, 10);
    lemma_quiet("` and theme `"@, 13);
    lemma_quiet("`."@, 2);
    lemma_name(preset);
    lemma_name(theme_name);
    let a = "# preset `"@ + preset;
    lemma_quiet_together("# preset `"@, preset);
    lemma_quiet_together(a, "` and theme `"@);
    lemma_quiet_together(a + "` and theme `"@, theme_name);
    lemma_quiet_together(a + "` and theme `"@ + theme_name, "`."@);
    let line = a + "` and theme `"@ + theme_name + "`."@;
    assert(line[0] == '#');
    lemma_prose(line);
}

/// The lines before the bindings name the preset and the theme, and open the
/// section of the bindings.
proof fn lemma_opening_reads_back(preset: Seq<char>, theme_name: Seq<char>, name: Seq<char>, shown: Seq<char>)
    requires
        is_name(preset),
        is_name(theme_name),
        is_name(name),
        is_name(shown),
    ensures
        ({
            let lines = opening_lines(preset, theme_name, name, shown);
            &&& live_lines(lines) == lines
            &&& forall|k: int| 0 <= k < lines.len() ==> one_line(#[trigger] lines[k])
            &&& lines_read(lines, lines.len() as int) == (
                ConfigText { preset: Some(name), theme: Some(shown), ..nothing_said() },
                Section::Binds,
            )
        }),
{
    let l = opening_lines(preset, theme_name, name, shown);
    lemma_opening_prose();
    lemma_keys_prose();
    lemma_blank_is_prose();
    lemma_headings();
    lemma_made_for(preset, theme_name);
    reveal_strlit("preset");
    reveal_strlit("theme");
    reveal_strlit(" = \"");
    reveal_strlit("preset = \"");
    reveal_strlit("theme = \"");
    assert("preset = \""@ =~= "preset"@ + " = \""@);
    assert("theme = \""@ =~= "theme"@ + " = \""@);
    assert("preset"@.len() != "theme"@.len());
    lemma_name_setting("preset"@, name);
    lemma_name_setting("theme"@, shown);
    lemma_name(name);
    lemma_name(shown);
    let c0 = nothing_said();
    let c1 = ConfigText { preset: Some(name), ..c0 };
    let c2 = ConfigText { theme: Some(shown), ..c1 };
    lemma_bare_line(c0, Section::Top, 6, "preset"@, name);
    lemma_bare_line(c1, Section::Top, 7, "theme"@, shown);
    assert(l.len() == 16);
    assert(lines_read(l, 0) == (c0, Section::Top));
    assert(lines_read(l, 1) == (c0, Section::Top));
    assert(lines_read(l, 2) == (c0, Section::Top));
    assert(lines_read(l, 3) == (c0, Section::Top));
    assert(lines_read(l, 4) == (c0, Section::Top));
    assert(lines_read(l, 5) == (c0, Section::Top));
    assert(l[5] == "preset"@ + " = \""@ + name + "\""@);
    assert(lines_read(l, 6) == (c1, Section::Top));
    assert(l[6] == "theme"@ + " = \""@ + shown + "\""@);
    assert(lines_read(l, 7) == (c2, Section::Top));
    assert(lines_read(l, 8) == (c2, Section::Top));
    assert(lines_read(l, 9) == (c2, Section::Top));
    assert(lines_read(l, 10) == (c2, Section::Top));
    assert(lines_read(l, 11) == (c2, Section::Top));
    assert(lines_read(l, 12) == (c2, Section::Top));
    assert(lines_read(l, 13) == (c2, Section::Top));
    assert(lines_read(l, 14) == (c2, Section::Top));
    assert(lines_read(l, 15) == (c2, Section::Top));
    assert(lines_read(l, 16) == (c2, Section::Binds));
    assert(live_lines(l) =~= l);
}

/// The settings of bindings.
pub open spec fn bind_settings(binds: Seq<Bind>) -> Seq<Seq<char>> {
    Seq::new(binds.len(), |i: int| bind_setting(binds[i]))
}

/// Whether the keys of bindings can be written.
pub open spec fn all_writable(binds: Seq<Bind>) -> bool {
    forall|i: int| 0 <= i < binds.len() ==> writable((#[trigger] binds[i]).1) && (binds[i].0 matches Some(p) ==> writable(p))
}

proof fn lemma_bind_row(b: Bind)
    requires
        writable(b.1),
        b.0 matches Some(p) ==> writable(p),
    ensures
        one_line("# "@ + bind_setting(b)),
        one_line(bind_setting(b)),
        live_line("# "@ + bind_setting(b)) == bind_setting(b),
{
    let k = bind_text(b.0, b.1);
    let v = action_text(b.2);
    let h = help_of(b.2).1;
    crate::keys::lemma_bind_text_is_on_a_line(b.0, b.1);
    crate::keys::lemma_action_text_is_plain(b.2);
    lemma_help_is_quiet(b.2);
    lemma_quiet_is_on_a_line(h);
    reveal_strlit("\"");
    reveal_strlit("\" = \"");
    reveal_strlit("\"  # ");
    reveal_strlit(" = ");
    reveal_strlit("# ");
    assert(on_a_line("\""@));
    assert(on_a_line("\" = \""@));
    assert(on_a_line("\"  # "@));
    assert(on_a_line("# "@));
    assert(on_a_line(v));
    let s = bind_setting(b);
    let s1 = "\""@ + k;
    let s2 = s1 + "\" = \""@;
    let s3 = s2 + v;
    let s4 = s3 + "\"  # "@;
    lemma_on_a_line_together("\""@, k);
    lemma_on_a_line_together(s1, "\" = \""@);
    lemma_on_a_line_together(s2, v);
    lemma_on_a_line_together(s3, "\"  # "@);
    lemma_on_a_line_together(s4, h);
    assert(s == s4 + h);
    lemma_on_a_line_together("# "@, s);
    lemma_on_a_line(s);
    lemma_on_a_line("# "@ + s);
    let at = k.len() as int + 2;
    assert(s.subrange(at, at + 3) =~= " = "@);
    lemma_setting_comes_out(s, at);
}

/// The settings of bindings are read as the bindings.
proof fn lemma_binds_read_back(c: ConfigText, base: int, binds: Seq<Bind>, n: int)
    requires
        all_writable(binds),
        0 <= n <= binds.len(),
    ensures
        reads_on(c, Section::Binds, base, bind_settings(binds), n) == (
            ConfigText { binds: c.binds + as_they_are(binds).take(n), ..c },
            Section::Binds,
        ),
    decreases n,
{
    let os = as_they_are(binds);
    if n == 0 {
        assert(c.binds + os.take(0) =~= c.binds);
    } else {
        lemma_binds_read_back(c, base, binds, n - 1);
        let before = ConfigText { binds: c.binds + os.take(n - 1), ..c };
        let b = binds[n - 1];
        law_a_written_binding_reads_back(before, base + n, b);
        assert((c.binds + os.take(n - 1)).push((b.0, b.1, Some(b.2))) =~= c.binds + os.take(n));
    }
}

/// The lines between the bindings and the colours, taken out of their comments.
pub open spec fn theme_lines_live(shown: Seq<char>) -> Seq<Seq<char>> {
    theme_lines(shown).update(6, "name = \""@ + shown + "\""@)
}

proof fn lemma_built_in()
    ensures
        is_prose("# Built-in: "@ + joined(theme_name_list(), ", "@) + "."@),
{
    reveal_strlit("# Built-in: ");
    reveal_strlit(", ");
    reveal_strlit(".");
    reveal_with_fuel(quiet_upto, 20);
    lemma_quiet("# Built-in: "@, 12);
    lemma_quiet(", "@, 2);
    lemma_quiet("."@, 1);
    lemma_theme_names();
    let names = theme_name_list();
    assert forall|k: int| 0 <= k < names.len() implies quiet(#[trigger] names[k]) by {
        lemma_name(names[k]);
    }
    lemma_quiet_joined(names, ", "@);
    let all = joined(names, ", "@);
    lemma_quiet_together("# Built-in: "@, all);
    lemma_quiet_together("# Built-in: "@ + all, "."@);
    let line = "# Built-in: "@ + all + "."@;
    assert(line[0] == '#');
    lemma_prose(line);
}

/// The lines between the bindings and the colours name the theme, and open the
/// section of the colours.
proof fn lemma_theme_reads_back(c: ConfigText, base: int, shown: Seq<char>)
    requires
        is_name(shown),
    ensures
        live_lines(theme_lines(shown)) == theme_lines_live(shown),
        forall|k: int| 0 <= k < 7 ==> one_line(#[trigger] theme_lines(shown)[k]),
        forall|k: int| 0 <= k < 7 ==> one_line(#[trigger] theme_lines_live(shown)[k]),
        reads_on(c, Section::Binds, base, theme_lines_live(shown), 7) == (
            ConfigText { theme: Some(shown), ..c },
            Section::Theme,
        ),
{
    let l = theme_lines_live(shown);
    lemma_opening_prose();
    lemma_theme_prose();
    lemma_blank_is_prose();
    lemma_built_in();
    lemma_headings();
    reveal_strlit("name");
    reveal_strlit("# ");
    reveal_strlit(" = \"");
    reveal_strlit("# name = \"");
    reveal_strlit("name = \"");
    reveal_strlit("\"");
    assert("name = \""@ =~= "name"@ + " = \""@);
    let setting = "name"@ + " = \""@ + shown + "\""@;
    assert("# name = \""@ + shown + "\""@ =~= "# "@ + setting);
    lemma_name_setting("name"@, shown);
    lemma_name(shown);
    let sec = Section::Binds;
    assert(reads_on(c, sec, base, l, 0) == (c, sec));
    assert(reads_on(c, sec, base, l, 1) == (c, sec));
    assert(reads_on(c, sec, base, l, 2) == (c, sec));
    assert(reads_on(c, sec, base, l, 3) == (c, sec));
    assert(reads_on(c, sec, base, l, 4) == (c, sec));
    assert(reads_on(c, sec, base, l, 5) == (c, sec));
    assert(reads_on(c, sec, base, l, 6) == (c, Section::Theme));
    assert(l[6] == setting);
    lemma_bare_line(c, Section::Theme, base + 7, "name"@, shown);
    assert(live_lines(theme_lines(shown)) =~= l);
}

/// The lines on the roles that a theme leaves to the terminal are prose.
proof fn lemma_inherited_is_prose(inherited: Seq<Seq<char>>)
    requires
        all_roles(inherited),
    ensures
        forall|k: int| 0 <= k < inherited_lines(inherited).len() ==> is_prose(#[trigger] inherited_lines(inherited)[k]),
{
    if inherited.len() > 0 {
        lemma_theme_prose();
        reveal_strlit("             # default to show — set any of them to a colour to take it over:");
        reveal_strlit("             #   ");
        reveal_strlit(", ");
        reveal_with_fuel(quiet_upto, 41);
        let second = "             # default to show — set any of them to a colour to take it over:"@;
        assert(quiet_upto(second, 40));
        lemma_quiet(second, 77);
        lemma_quiet_line_stays(second);
        lemma_comment_is_passed_over(second, 13);
        lemma_quiet("             #   "@, 17);
        lemma_quiet(", "@, 2);
        assert forall|k: int| 0 <= k < inherited.len() implies quiet(#[trigger] inherited[k]) by {
            reveal(all_roles);
            crate::theme::lemma_role_names(inherited[k]);
        }
        lemma_quiet_joined(inherited, ", "@);
        let all = joined(inherited, ", "@);
        let third = "             #   "@ + all;
        lemma_quiet_together("             #   "@, all);
        lemma_quiet_line_stays(third);
        assert forall|i: int| 0 <= i < 13 implies #[trigger] third[i] == ' ' by {
            assert(third[i] == "             #   "@[i]);
        }
        assert(third[13] == '#');
        lemma_comment_is_passed_over(third, 13);
    }
}

/// The roles that a theme colours, with their colours.
pub open spec fn own_colors(t: Theme, roles: Seq<Seq<char>>) -> Seq<(Seq<char>, Color)>
    decreases roles.len(),
{
    if roles.len() == 0 {
        Seq::empty()
    } else {
        let before = own_colors(t, roles.drop_last());
        match role_color(t, roles.last()) {
            Color::Rgb(_, _, _) => before.push((roles.last(), role_color(t, roles.last()))),
            _ => before,
        }
    }
}

/// The settings of the roles that a theme colours.
pub open spec fn role_settings(t: Theme, roles: Seq<Seq<char>>) -> Seq<Seq<char>>
    decreases roles.len(),
{
    if roles.len() == 0 {
        Seq::empty()
    } else {
        let before = role_settings(t, roles.drop_last());
        match role_color(t, roles.last()) {
            Color::Rgb(r, g, b) => before.push(role_setting(roles.last(), r, g, b)),
            _ => before,
        }
    }
}

proof fn lemma_role_row(role: Seq<char>, r: u8, g: u8, b: u8)
    requires
        role_list().contains(role),
    ensures
        one_line(role_setting(role, r, g, b)),
        one_line("# "@ + role_setting(role, r, g, b)),
        live_line("# "@ + role_setting(role, r, g, b)) == role_setting(role, r, g, b),
{
    crate::theme::lemma_role_names(role);
    crate::theme::lemma_colour_is_plain(r, g, b);
    reveal_strlit(" = \"");
    reveal_strlit("\"");
    reveal_strlit(" = ");
    reveal_strlit("# ");
    let h = hex_text(r, g, b);
    let line = role_setting(role, r, g, b);
    assert(on_a_line(role));
    assert(on_a_line(h));
    assert(on_a_line(" = \""@));
    assert(on_a_line("\""@));
    assert(on_a_line("# "@));
    lemma_on_a_line_together(role, " = \""@);
    lemma_on_a_line_together(role + " = \""@, h);
    lemma_on_a_line_together(role + " = \""@ + h, "\""@);
    lemma_on_a_line_together("# "@, line);
    lemma_on_a_line(line);
    lemma_on_a_line("# "@ + line);
    let at = role.len() as int;
    assert(line.subrange(at, at + 3) =~= " = "@);
    lemma_setting_comes_out(line, at);
}

proof fn lemma_fewer_roles(roles: Seq<Seq<char>>)
    requires
        all_roles(roles),
        roles.len() > 0,
    ensures
        all_roles(roles.drop_last()),
        role_list().contains(roles.last()),
{
    reveal(all_roles);
    let init = roles.drop_last();
    assert forall|k: int| 0 <= k < init.len() implies role_list().contains(#[trigger] init[k]) by {
        assert(role_list().contains(roles[k]));
    }
    assert(role_list().contains(roles[roles.len() - 1]));
}

/// The settings of the roles are read as the colours.
proof fn lemma_roles_read_back(c: ConfigText, base: int, t: Theme, roles: Seq<Seq<char>>)
    requires
        all_roles(roles),
    ensures
        live_lines(role_rows(t, roles)) == role_settings(t, roles),
        forall|k: int| 0 <= k < role_rows(t, roles).len() ==> one_line(#[trigger] role_rows(t, roles)[k]),
        forall|k: int| 0 <= k < role_settings(t, roles).len() ==> one_line(#[trigger] role_settings(t, roles)[k]),
        reads_on(c, Section::Theme, base, role_settings(t, roles), role_settings(t, roles).len() as int) == (
            ConfigText { colors: c.colors + own_colors(t, roles), ..c },
            Section::Theme,
        ),
    decreases roles.len(),
{
    if roles.len() == 0 {
        assert(c.colors + own_colors(t, roles) =~= c.colors);
        assert(live_lines(role_rows(t, roles)) =~= role_settings(t, roles));
    } else {
        let init = roles.drop_last();
        let role = roles.last();
        lemma_fewer_roles(roles);
        lemma_roles_read_back(c, base, t, init);
        let had = role_settings(t, init);
        let rows = role_rows(t, init);
        match role_color(t, role) {
            Color::Rgb(r, g, b) => {
                lemma_role_row(role, r, g, b);
                let n = had.len() as int;
                let all = role_settings(t, roles);
                let all_rows = role_rows(t, roles);
                assert(all == had.push(role_setting(role, r, g, b)));
                assert(all_rows == rows.push("# "@ + role_setting(role, r, g, b)));
                assert(live_lines(rows).len() == rows.len());
                assert(live_lines(all_rows) =~= all) by {
                    assert forall|k: int| 0 <= k < all.len() implies live_lines(all_rows)[k] == all[k] by {
                        if k < n {
                            assert(live_lines(rows)[k] == had[k]);
                            assert(all_rows[k] == rows[k]);
                        }
                    }
                }
                assert forall|k: int| 0 <= k < all_rows.len() implies one_line(#[trigger] all_rows[k]) by {
                    if k < n {
                        assert(one_line(rows[k]));
                    }
                }
                assert forall|k: int| 0 <= k < all.len() implies one_line(#[trigger] all[k]) by {
                    if k < n {
                        assert(one_line(had[k]));
                    }
                }
                lemma_reads_on_alike(c, Section::Theme, base, all, had, n);
                let before = ConfigText { colors: c.colors + own_colors(t, init), ..c };
                law_a_written_colour_reads_back(before, base + n + 1, role, r, g, b);
                assert((c.colors + own_colors(t, init)).push((role, Color::Rgb(r, g, b))) =~= c.colors + own_colors(
                    t,
                    roles,
                ));
            },
            _ => {},
        }
    }
}

proof fn lemma_reads_on_alike(
    c: ConfigText,
    section: Section,
    base: int,
    a: Seq<Seq<char>>,
    b: Seq<Seq<char>>,
    n: int,
)
    requires
        0 <= n <= a.len(),
        n <= b.len(),
        forall|i: int| 0 <= i < n ==> a[i] == b[i],
    ensures
        reads_on(c, section, base, a, n) == reads_on(c, section, base, b, n),
    decreases n,
{
    if n > 0 {
        lemma_reads_on_alike(c, section, base, a, b, n - 1);
    }
}

/// The lines of a file like the generated one, for given bindings, roles and
/// theme.
pub open spec fn lines_for(
    preset: Seq<char>,
    theme_name: Seq<char>,
    binds: Seq<Bind>,
    t: Theme,
    roles: Seq<Seq<char>>,
) -> Seq<Seq<char>> {
    opening_lines(preset, theme_name, preset, theme_name) + bind_rows(binds) + theme_lines(theme_name)
        + inherited_lines(inherited_roles(t, roles)) + role_rows(t, roles)
}

/// The same lines with every setting taken out of its comment.
pub open spec fn settings_for(
    preset: Seq<char>,
    theme_name: Seq<char>,
    binds: Seq<Bind>,
    t: Theme,
    roles: Seq<Seq<char>>,
) -> Seq<Seq<char>> {
    opening_lines(preset, theme_name, preset, theme_name) + bind_settings(binds) + theme_lines_live(theme_name)
        + inherited_lines(inherited_roles(t, roles)) + role_settings(t, roles)
}

/// Whether all texts are roles.
#[verifier::opaque]
pub open spec fn all_roles(roles: Seq<Seq<char>>) -> bool {
    forall|k: int| 0 <= k < roles.len() ==> role_list().contains(#[trigger] roles[k])
}

/// Whether every text is one line.
pub open spec fn all_lines(v: Seq<Seq<char>>) -> bool {
    forall|k: int| 0 <= k < v.len() ==> one_line(#[trigger] v[k])
}

proof fn lemma_all_lines_together(a: Seq<Seq<char>>, b: Seq<Seq<char>>)
    requires
        all_lines(a),
        all_lines(b),
    ensures
        all_lines(a + b),
        live_lines(a + b) == live_lines(a) + live_lines(b),
{
    let v = a + b;
    assert forall|k: int| 0 <= k < v.len() implies one_line(#[trigger] v[k]) by {
        if k < a.len() {
            assert(one_line(a[k]));
        } else {
            assert(one_line(b[k - a.len()]));
        }
    }
    assert(live_lines(a + b) =~= live_lines(a) + live_lines(b));
}

/// The roles that are left to the terminal are roles.
proof fn lemma_inherited_are_roles(t: Theme, roles: Seq<Seq<char>>)
    requires
        all_roles(roles),
    ensures
        all_roles(inherited_roles(t, roles)),
{
    reveal(all_roles);
    let keep = |r: Seq<char>| !crate::theme::truecolor(role_color(t, r));
    let v = inherited_roles(t, roles);
    assert(v == roles.filter(keep));
    assert forall|k: int| 0 <= k < v.len() implies role_list().contains(#[trigger] v[k]) by {
        roles.lemma_filter_contains_rev(keep, v[k]);
        let w = choose|w: int| 0 <= w < roles.len() && roles[w] == v[k];
        assert(role_list().contains(roles[w]));
    }
}

/// Every part of the file is made of lines, and what becomes of them when the
/// settings are taken out of their comments.
proof fn lemma_parts(preset: Seq<char>, theme_name: Seq<char>, binds: Seq<Bind>, t: Theme, roles: Seq<Seq<char>>)
    requires
        is_name(preset),
        is_name(theme_name),
        all_writable(binds),
        all_roles(roles),
    ensures
        all_lines(lines_for(preset, theme_name, binds, t, roles)),
        all_lines(settings_for(preset, theme_name, binds, t, roles)),
        live_lines(lines_for(preset, theme_name, binds, t, roles)) == settings_for(preset, theme_name, binds, t, roles),
{
    let c = nothing_said();
    let e = inherited_lines(inherited_roles(t, roles));
    lemma_opening_reads_back(preset, theme_name, preset, theme_name);
    lemma_theme_reads_back(c, 0, theme_name);
    lemma_inherited_are_roles(t, roles);
    lemma_inherited_is_prose(inherited_roles(t, roles));
    lemma_roles_read_back(c, 0, t, roles);
    lemma_bind_rows(binds);
    lemma_prose_lines(e);
    lemma_five_parts(
        opening_lines(preset, theme_name, preset, theme_name),
        bind_rows(binds),
        theme_lines(theme_name),
        e,
        role_rows(t, roles),
    );
    lemma_five_parts(
        opening_lines(preset, theme_name, preset, theme_name),
        bind_settings(binds),
        theme_lines_live(theme_name),
        e,
        role_settings(t, roles),
    );
}

proof fn lemma_bind_rows(binds: Seq<Bind>)
    requires
        all_writable(binds),
    ensures
        all_lines(bind_rows(binds)),
        all_lines(bind_settings(binds)),
        live_lines(bind_rows(binds)) == bind_settings(binds),
{
    let b = bind_rows(binds);
    let bs = bind_settings(binds);
    assert forall|k: int| 0 <= k < b.len() implies one_line(#[trigger] b[k]) && one_line(bs[k]) && live_line(b[k])
        == bs[k] by {
        lemma_bind_row(binds[k]);
    }
    assert(live_lines(b) =~= bs);
    assert forall|k: int| 0 <= k < bs.len() implies one_line(#[trigger] bs[k]) by {
        assert(one_line(b[k]));
    }
}

proof fn lemma_prose_lines(v: Seq<Seq<char>>)
    requires
        forall|k: int| 0 <= k < v.len() ==> is_prose(#[trigger] v[k]),
    ensures
        all_lines(v),
        live_lines(v) == v,
{
    assert forall|k: int| 0 <= k < v.len() implies one_line(#[trigger] v[k]) && live_line(v[k]) == v[k] by {
        assert(is_prose(v[k]));
    }
    assert(live_lines(v) =~= v);
}

proof fn lemma_five_parts(
    a: Seq<Seq<char>>,
    b: Seq<Seq<char>>,
    c: Seq<Seq<char>>,
    d: Seq<Seq<char>>,
    e: Seq<Seq<char>>,
)
    requires
        all_lines(a),
        all_lines(b),
        all_lines(c),
        all_lines(d),
        all_lines(e),
    ensures
        all_lines(a + b + c + d + e),
        live_lines(a + b + c + d + e) == live_lines(a) + live_lines(b) + live_lines(c) + live_lines(d) + live_lines(e),
{
    lemma_all_lines_together(a, b);
    lemma_all_lines_together(a + b, c);
    lemma_all_lines_together(a + b + c, d);
    lemma_all_lines_together(a + b + c + d, e);
}

/// Reading one part more.
proof fn lemma_part_read(
    before: Seq<Seq<char>>,
    part: Seq<Seq<char>>,
    c: ConfigText,
    section: Section,
    after: (ConfigText, Section),
)
    requires
        lines_read(before, before.len() as int) == (c, section),
        reads_on(c, section, before.len() as int, part, part.len() as int) == after,
    ensures
        lines_read(before + part, (before + part).len() as int) == after,
{
    lemma_reads_on(before, part, part.len() as int);
}

/// What the lines say, one part after the other.
proof fn lemma_parts_read_back(
    preset: Seq<char>,
    theme_name: Seq<char>,
    binds: Seq<Bind>,
    t: Theme,
    roles: Seq<Seq<char>>,
)
    requires
        is_name(preset),
        is_name(theme_name),
        all_writable(binds),
        all_roles(roles),
    ensures
        ({
            let v = settings_for(preset, theme_name, binds, t, roles);
            lines_read(v, v.len() as int).0 == (ConfigText {
                preset: Some(preset),
                binds: as_they_are(binds),
                theme: Some(theme_name),
                colors: own_colors(t, roles),
                problems: Seq::empty(),
            })
        }),
{
    let a = opening_lines(preset, theme_name, preset, theme_name);
    let b = bind_settings(binds);
    let d = theme_lines_live(theme_name);
    let e = inherited_lines(inherited_roles(t, roles));
    let f = role_settings(t, roles);
    let c1 = ConfigText { preset: Some(preset), theme: Some(theme_name), ..nothing_said() };
    let os = as_they_are(binds);
    let c2 = ConfigText { binds: os, ..c1 };
    let c3 = ConfigText { colors: own_colors(t, roles), ..c2 };
    lemma_opening_reads_back(preset, theme_name, preset, theme_name);
    assert(reads_on(c1, Section::Binds, a.len() as int, b, b.len() as int) == (c2, Section::Binds)) by {
        lemma_binds_read_back(c1, a.len() as int, binds, binds.len() as int);
        assert(os.take(binds.len() as int) =~= os);
        assert(c1.binds + os =~= os);
    }
    lemma_part_read(a, b, c1, Section::Binds, (c2, Section::Binds));
    assert(reads_on(c2, Section::Binds, (a + b).len() as int, d, d.len() as int) == (c2, Section::Theme)) by {
        lemma_theme_reads_back(c2, (a + b).len() as int, theme_name);
    }
    lemma_part_read(a + b, d, c2, Section::Binds, (c2, Section::Theme));
    assert(reads_on(c2, Section::Theme, (a + b + d).len() as int, e, e.len() as int) == (c2, Section::Theme)) by {
        lemma_inherited_are_roles(t, roles);
        lemma_inherited_is_prose(inherited_roles(t, roles));
        assert forall|k: int| 0 <= k < e.len() implies passed_over(#[trigger] e[k]) by {
            assert(is_prose(e[k]));
        }
        lemma_passing_over(c2, Section::Theme, (a + b + d).len() as int, e, e.len() as int);
    }
    lemma_part_read(a + b + d, e, c2, Section::Theme, (c2, Section::Theme));
    assert(reads_on(c2, Section::Theme, (a + b + d + e).len() as int, f, f.len() as int) == (c3, Section::Theme)) by {
        lemma_roles_read_back(c2, (a + b + d + e).len() as int, t, roles);
        assert(c2.colors + own_colors(t, roles) =~= own_colors(t, roles));
    }
    lemma_part_read(a + b + d + e, f, c2, Section::Theme, (c3, Section::Theme));
}

/// The bindings of the presets can be written, and no chord of them is bound
/// twice.
proof fn lemma_presets(preset: Seq<char>)
    ensures
        all_writable(shown_preset(preset).1),
        crate::keys::chords_differ(shown_preset(preset).1),
{
    let binds = shown_preset(preset).1;
    crate::keys::law_no_preset_binds_a_chord_twice();
    assert forall|i: int| 0 <= i < binds.len() implies writable((#[trigger] binds[i]).1) && (binds[i].0 matches Some(p)
        ==> writable(p)) by {
        crate::keys::law_presets_bind_writable_keys(i);
    }
}

proof fn lemma_role_list_is_of_roles()
    ensures
        all_roles(role_list()),
{
    reveal(all_roles);
    let l = role_list();
    assert forall|k: int| 0 <= k < l.len() implies l.contains(#[trigger] l[k]) by {}
}

/// The lines read back as a text.
proof fn lemma_text_reads_back(
    preset: Seq<char>,
    theme_name: Seq<char>,
    binds: Seq<Bind>,
    t: Theme,
    roles: Seq<Seq<char>>,
)
    requires
        is_name(preset),
        is_name(theme_name),
        all_writable(binds),
        all_roles(roles),
    ensures
        config_read(live(joined(lines_for(preset, theme_name, binds, t, roles), "\n"@) + "\n"@)) == (ConfigText {
            preset: Some(preset),
            binds: as_they_are(binds),
            theme: Some(theme_name),
            colors: own_colors(t, roles),
            problems: Seq::empty(),
        }),
{
    lemma_parts(preset, theme_name, binds, t, roles);
    lemma_parts_read_back(preset, theme_name, binds, t, roles);
    let g = lines_for(preset, theme_name, binds, t, roles);
    let v = settings_for(preset, theme_name, binds, t, roles);
    assert(opening_lines(preset, theme_name, preset, theme_name).len() == 16);
    assert(v.len() == live_lines(g).len());
    lemma_written_lines_read_back(g);
    lemma_written_lines_read_back(v);
}

/// The colours that a theme writes out are its own.
proof fn lemma_own_colors(t: Theme, roles: Seq<Seq<char>>)
    requires
        all_roles(roles),
    ensures
        forall|k: int|
            0 <= k < own_colors(t, roles).len() ==> role_list().contains((#[trigger] own_colors(t, roles)[k]).0)
                && own_colors(t, roles)[k].1 == role_color(t, own_colors(t, roles)[k].0),
    decreases roles.len(),
{
    if roles.len() > 0 {
        let init = roles.drop_last();
        lemma_fewer_roles(roles);
        lemma_own_colors(t, init);
        let before = own_colors(t, init);
        let all = own_colors(t, roles);
        assert forall|k: int| 0 <= k < all.len() implies role_list().contains((#[trigger] all[k]).0) && all[k].1
            == role_color(t, all[k].0) by {
            if k < before.len() {
                assert(all[k] == before[k]);
            }
        }
    }
}

/// A theme knows its name, which is one.
proof fn lemma_theme_name(theme_name: Seq<char>)
    requires
        theme_named(theme_name) is Some,
    ensures
        is_name(theme_name),
        shown_theme(theme_name) == theme_named(theme_name)->0,
        shown_theme(theme_name).name@ == theme_name,
{
    crate::theme::law_theme_names_are_the_themes(theme_name);
    lemma_theme_names();
    let w = choose|w: int| 0 <= w < theme_name_list().len() && theme_name_list()[w] == theme_name;
    assert(is_name(theme_name_list()[w]));
}

/// A preset knows its name, which is one.
proof fn lemma_preset_names(preset: Seq<char>)
    requires
        preset == "vim"@ || preset == "vscode"@,
    ensures
        is_name(preset),
        shown_preset(preset).0 == preset,
{
    reveal_strlit("vim");
    reveal_strlit("vscode");
    assert("vim"@.len() != "vscode"@.len());
    assert(is_name("vim"@));
    assert(is_name("vscode"@));
}

/// The preset that is shown is the one of the name.
proof fn lemma_shown_is_the_preset(preset: Seq<char>)
    ensures
        forall|km: Keymap| #[trigger] is_preset(km, preset) ==> km.binds@ == shown_preset(preset).1,
{
    reveal_strlit("vim");
    reveal_strlit("vscode");
    assert("vim"@.len() != "vscode"@.len());
}

/// What the generated file is made of.
proof fn lemma_generated_is(preset: Seq<char>, theme_name: Seq<char>)
    requires
        shown_preset(preset).0 == preset,
        shown_theme(theme_name).name@ == theme_name,
    ensures
        generated(preset, theme_name) == joined(
            lines_for(preset, theme_name, shown_preset(preset).1, shown_theme(theme_name), role_list()),
            "\n"@,
        ) + "\n"@,
{
    reveal(generated);
}

/// The colours that a theme writes out change nothing in it.
proof fn lemma_own_colors_change_nothing(t: Theme)
    ensures
        forall|colors: Seq<(String, Color)>| #[trigger]
            crate::keyconfig::color_texts(colors) == own_colors(t, role_list()) ==> crate::theme::with_roles(t, colors)
                == t,
{
    lemma_role_list_is_of_roles();
    lemma_own_colors(t, role_list());
    let own = own_colors(t, role_list());
    assert forall|colors: Seq<(String, Color)>| #[trigger]
        crate::keyconfig::color_texts(colors) == own implies crate::theme::with_roles(t, colors) == t by {
        assert forall|i: int| 0 <= i < colors.len() implies (#[trigger] colors[i]).1 == role_color(t, colors[i].0@)
            && role_list().contains(colors[i].0@) by {
            assert(crate::keyconfig::color_texts(colors)[i] == (colors[i].0@, colors[i].1));
            assert(own[i] == (colors[i].0@, colors[i].1));
        }
        crate::theme::law_writing_out_the_colours_changes_nothing(t, colors);
    }
}

/// The generated file, with every setting taken out of its comment, is one that
/// the program accepts: it is read without a complaint, as the preset and the
/// theme it was made for. And it changes nothing: laid over the preset it leaves
/// every binding, and laid over the theme every colour, as it is.
pub proof fn law_the_generated_file_changes_nothing(preset: Seq<char>, theme_name: Seq<char>)
    requires
        preset == "vim"@ || preset == "vscode"@,
        theme_named(theme_name) is Some,
    ensures
        ({
            let cfg = config_read(live(generated(preset, theme_name)));
            let binds = shown_preset(preset).1;
            let t = shown_theme(theme_name);
            &&& cfg.problems.len() == 0
            &&& cfg.preset == Some(preset)
            &&& cfg.theme == Some(theme_name)
            &&& cfg.binds == as_they_are(binds)
            &&& cfg.colors == own_colors(t, role_list())
            &&& all_overridden(binds, cfg.binds) == binds
            &&& forall|km: Keymap| #[trigger]
                is_preset(km, preset) ==> all_overridden(km.binds@, cfg.binds) == km.binds@
            &&& forall|colors: Seq<(String, Color)>| #[trigger]
                crate::keyconfig::color_texts(colors) == cfg.colors ==> crate::theme::with_roles(t, colors) == t
        }),
        shown_preset(preset).0 == preset,
        theme_named(theme_name) == Some(shown_theme(theme_name)),
{
    lemma_presets(preset);
    lemma_role_list_is_of_roles();
    lemma_theme_name(theme_name);
    lemma_preset_names(preset);
    lemma_generated_is(preset, theme_name);
    lemma_text_reads_back(
        preset,
        theme_name,
        shown_preset(preset).1,
        shown_theme(theme_name),
        role_list(),
    );
    law_writing_out_the_bindings_changes_nothing(shown_preset(preset).1);
    lemma_shown_is_the_preset(preset);
    lemma_own_colors_change_nothing(shown_theme(theme_name));
}

} // verus!
