//! The command bar: the commands there are, how a line is read, and what can
//! complete it.

use crate::editor::{distinct, distinct_of, plural, plural_of};
use crate::filter::Ledger;
use crate::model::Item;
use crate::text::{
    chars_of, contains_text, copy_strings, decimal, has_prefix, has_text, is_space, lines_of, lower, lowercase,
    number, option_text, pad_left, pad_right, padded_left, padded_right, same, slice_string, sort, sorted_texts,
    space, split_lines, starts_with, texts, trim, trim_left, trim_start, trimmed, width,
};
use crate::theme::{theme_name_list, theme_names};
use crate::view::{Hidden, ViewMode};
use vstd::prelude::*;

verus! {

/// One command: its name, a hint at its argument, and what it does.
#[derive(Clone, Copy)]
pub struct Cmd {
    pub name: &'static str,
    pub args: &'static str,
    pub help: &'static str,
}

/// The commands there are.
pub open spec fn command_list() -> Seq<Cmd> {
    seq![
        Cmd { name: "only-comments", args: "", help: "toggle showing only comment/docstring hunks" },
        Cmd { name: "all", args: "", help: "toggle showing generated/formatting-noise hunks" },
        Cmd { name: "rules", args: "", help: "where the active rules came from, and what was replaced or disabled" },
        Cmd { name: "filter", args: "<glob>", help: "narrow the review to paths matching <glob>; no argument clears it" },
        Cmd { name: "keys", args: "<preset>", help: "swap the keymap live (vim, vscode)" },
        Cmd { name: "theme", args: "<name>", help: "swap the palette live (:theme with no name lists them)" },
        Cmd { name: "strategy", args: "<name>", help: "re-order the review (comprehension, defs-first, file)" },
        Cmd { name: "group", args: "", help: "toggle group-reason headers in the reading-order list" },
        Cmd { name: "rule", args: "", help: "draft a rule matching the selected hunk's shape" },
        Cmd { name: "delta", args: "", help: "what changed since this review was last opened" },
        Cmd { name: "note", args: "[text]", help: "anchor a note to the selected hunk's symbol; no text clears it" },
        Cmd { name: "mode", args: "[ledger|hunks]", help: "list by symbol (default) or by hunk; no argument toggles" },
        Cmd { name: "goto", args: "<path>", help: "select the first hunk of <path>, focus the code pane" },
        Cmd { name: "e", args: "<rev>", help: "review a different revision, without restarting" },
        Cmd { name: "audit", args: "", help: "account for every hunk and file not on screen, and why" },
        Cmd { name: "quickfix", args: "", help: "export the reading order to a vim quickfix list and open it (aliases: :qf, :vim-qfl)" },
        Cmd { name: "qf", args: "", help: "alias for :quickfix" },
        Cmd { name: "vim-qfl", args: "", help: "alias for :quickfix" },
        Cmd { name: "q", args: "", help: "quit" },
        Cmd { name: "help", args: "", help: "list these commands" },
    ]
}

/// The commands there are.
pub fn commands() -> (r: Vec<Cmd>)
    ensures
        r@ == command_list(),
{
    let all: Vec<Cmd> = vec![
        Cmd { name: "only-comments", args: "", help: "toggle showing only comment/docstring hunks" },
        Cmd { name: "all", args: "", help: "toggle showing generated/formatting-noise hunks" },
        Cmd { name: "rules", args: "", help: "where the active rules came from, and what was replaced or disabled" },
        Cmd { name: "filter", args: "<glob>", help: "narrow the review to paths matching <glob>; no argument clears it" },
        Cmd { name: "keys", args: "<preset>", help: "swap the keymap live (vim, vscode)" },
        Cmd { name: "theme", args: "<name>", help: "swap the palette live (:theme with no name lists them)" },
        Cmd { name: "strategy", args: "<name>", help: "re-order the review (comprehension, defs-first, file)" },
        Cmd { name: "group", args: "", help: "toggle group-reason headers in the reading-order list" },
        Cmd { name: "rule", args: "", help: "draft a rule matching the selected hunk's shape" },
        Cmd { name: "delta", args: "", help: "what changed since this review was last opened" },
        Cmd { name: "note", args: "[text]", help: "anchor a note to the selected hunk's symbol; no text clears it" },
        Cmd { name: "mode", args: "[ledger|hunks]", help: "list by symbol (default) or by hunk; no argument toggles" },
        Cmd { name: "goto", args: "<path>", help: "select the first hunk of <path>, focus the code pane" },
        Cmd { name: "e", args: "<rev>", help: "review a different revision, without restarting" },
        Cmd { name: "audit", args: "", help: "account for every hunk and file not on screen, and why" },
        Cmd { name: "quickfix", args: "", help: "export the reading order to a vim quickfix list and open it (aliases: :qf, :vim-qfl)" },
        Cmd { name: "qf", args: "", help: "alias for :quickfix" },
        Cmd { name: "vim-qfl", args: "", help: "alias for :quickfix" },
        Cmd { name: "q", args: "", help: "quit" },
        Cmd { name: "help", args: "", help: "list these commands" },
    ];
    assert(all@ =~= command_list());
    all
}

/// The first command of that name among the first `n`.
pub open spec fn command_named(name: Seq<char>, n: int) -> Option<Cmd>
    decreases n,
{
    if n <= 0 {
        None
    } else {
        match command_named(name, n - 1) {
            Some(c) => Some(c),
            None => if command_list()[n - 1].name@ == name {
                Some(command_list()[n - 1])
            } else {
                None
            },
        }
    }
}

pub open spec fn command_of(name: Seq<char>) -> Option<Cmd> {
    command_named(name, command_list().len() as int)
}

fn find_command(name: &str) -> (r: Option<Cmd>)
    ensures
        r == command_of(name@),
{
    let all = commands();
    let mut found: Option<Cmd> = None;
    for i in 0..all.len()
        invariant
            all@ == command_list(),
            found == command_named(name@, i as int),
    {
        if found.is_none() && same(all[i].name, name) {
            found = Some(all[i]);
        }
    }
    found
}

pub open spec fn command_name_list() -> Seq<Seq<char>> {
    Seq::new(command_list().len(), |i: int| command_list()[i].name@)
}

pub fn command_names() -> (r: Vec<String>)
    ensures
        texts(r@) == command_name_list(),
{
    let all = commands();
    let mut out: Vec<String> = Vec::new();
    for i in 0..all.len()
        invariant
            all@ == command_list(),
            texts(out@) == command_name_list().take(i as int),
    {
        let ghost before = texts(out@);
        out.push(all[i].name.to_owned());
        assert(texts(out@) == before.push(all@[i as int].name@));
        assert(command_name_list().take(i + 1) == command_name_list().take(i as int).push(
            command_name_list()[i as int],
        ));
    }
    assert(command_name_list().take(command_name_list().len() as int) == command_name_list());
    out
}

/// A command with its argument hint.
pub open spec fn command_label(c: Cmd) -> Seq<char> {
    if c.args@.len() == 0 {
        c.name@
    } else {
        c.name@ + " "@ + c.args@
    }
}

pub fn label(c: &Cmd) -> (r: String)
    ensures
        r@ == command_label(*c),
{
    if c.args.is_empty() {
        c.name.to_owned()
    } else {
        c.name.to_owned().concat(" ").concat(c.args)
    }
}

/// A command's line in the listing.
pub open spec fn command_line(c: Cmd) -> Seq<char> {
    "  "@ + padded_right(":"@ + command_label(c), 20) + " "@ + c.help@
}

pub open spec fn command_lines() -> Seq<Seq<char>> {
    Seq::new(command_list().len(), |i: int| command_line(command_list()[i]))
}

/// The listing of the commands, made from their table.
pub fn build_command_help() -> (r: Vec<String>)
    ensures
        texts(r@) == command_lines(),
{
    let all = commands();
    let mut out: Vec<String> = Vec::new();
    for i in 0..all.len()
        invariant
            all@ == command_list(),
            texts(out@) == command_lines().take(i as int),
    {
        let head = ":".to_owned().concat(&label(&all[i]));
        let line = "  ".to_owned().concat(&pad_right(&head, 20)).concat(" ").concat(all[i].help);
        let ghost before = texts(out@);
        out.push(line);
        assert(texts(out@) == before.push(line@));
        assert(command_lines().take(i + 1) == command_lines().take(i as int).push(
            command_lines()[i as int],
        ));
    }
    assert(command_lines().take(command_lines().len() as int) == command_lines());
    out
}

/// The place of the first white space at or after `from`, or the length.
pub open spec fn space_from(s: Seq<char>, from: int) -> int
    decreases s.len() - from,
{
    if from >= s.len() {
        s.len() as int
    } else if is_space(s[from]) {
        from
    } else {
        space_from(s, from + 1)
    }
}

pub fn find_space(s: &[char]) -> (r: usize)
    ensures
        r == space_from(s@, 0),
        r <= s@.len(),
        r < s@.len() ==> is_space(s@[r as int]),
{
    let mut i: usize = 0;
    while i < s.len()
        invariant
            i <= s@.len(),
            space_from(s@, 0) == space_from(s@, i as int),
        decreases s@.len() - i,
    {
        if space(s[i]) {
            return i;
        }
        i = i + 1;
    }
    i
}

/// A command line's name and argument.
pub open spec fn line_parts(line: Seq<char>) -> (Seq<char>, Seq<char>) {
    let t = trimmed(line);
    let at = space_from(t, 0);
    if at >= t.len() {
        (t, ""@)
    } else {
        (t.take(at), trimmed(t.skip(at + 1)))
    }
}

pub fn parse_command_line(line: &str) -> (r: (String, String))
    ensures
        (r.0@, r.1@) == line_parts(line@),
{
    let t = trim(line);
    let cs = chars_of(&t);
    let at = find_space(&cs);
    if at == cs.len() {
        (t, "".to_owned())
    } else {
        let name = slice_string(&cs, 0, at);
        let rest = slice_string(&cs, at + 1, cs.len());
        assert(name@ == t@.take(at as int));
        assert(rest@ == t@.skip(at + 1));
        (name, trim(&rest))
    }
}

/// The candidates that pass a test, in order.
pub open spec fn passing(candidates: Seq<Seq<char>>, needle: Seq<char>, prefix: bool) -> Seq<Seq<char>>
    decreases candidates.len(),
{
    if candidates.len() == 0 {
        Seq::empty()
    } else {
        let before = passing(candidates.drop_last(), needle, prefix);
        let c = lowercase(candidates.last());
        if if prefix {
            starts_with(c, needle)
        } else {
            contains_text(c, needle)
        } {
            before.push(candidates.last())
        } else {
            before
        }
    }
}

/// The candidates that complete an input, in any case: those that it is a prefix
/// of, else those that hold it; all of them for an empty input.
pub open spec fn completions(input: Seq<char>, candidates: Seq<Seq<char>>) -> Seq<Seq<char>> {
    if input.len() == 0 {
        candidates
    } else {
        let first = passing(candidates, lowercase(input), true);
        if first.len() > 0 {
            first
        } else {
            passing(candidates, lowercase(input), false)
        }
    }
}

fn pass(candidates: &[String], needle: &str, prefix: bool) -> (r: Vec<String>)
    ensures
        texts(r@) == passing(texts(candidates@), needle@, prefix),
{
    let mut out: Vec<String> = Vec::new();
    let ghost all = texts(candidates@);
    for i in 0..candidates.len()
        invariant
            all == texts(candidates@),
            texts(out@) == passing(all.take(i as int), needle@, prefix),
    {
        assert(all.take(i + 1).drop_last() == all.take(i as int));
        assert(all.take(i + 1).last() == candidates@[i as int]@);
        let c = lower(&candidates[i]);
        let ok = if prefix {
            has_prefix(&c, needle)
        } else {
            has_text(&c, needle)
        };
        if ok {
            let ghost before = texts(out@);
            out.push(candidates[i].clone());
            assert(texts(out@) == before.push(candidates@[i as int]@));
        }
    }
    assert(all.take(all.len() as int) == all);
    out
}

pub fn complete(input: &str, candidates: &[String]) -> (r: Vec<String>)
    ensures
        texts(r@) == completions(input@, texts(candidates@)),
{
    if input.is_empty() {
        return copy_strings(candidates);
    }
    let needle = lower(input);
    let first = pass(candidates, &needle, true);
    assert(texts(first@).len() == first@.len());
    if first.len() > 0 {
        first
    } else {
        pass(candidates, &needle, false)
    }
}

proof fn lemma_passing(candidates: Seq<Seq<char>>, needle: Seq<char>, prefix: bool)
    ensures
        forall|c: Seq<char>|
            #[trigger] passing(candidates, needle, prefix).contains(c) <==> candidates.contains(c) && if prefix {
                starts_with(lowercase(c), needle)
            } else {
                contains_text(lowercase(c), needle)
            },
    decreases candidates.len(),
{
    if candidates.len() > 0 {
        let rest = candidates.drop_last();
        lemma_passing(rest, needle, prefix);
        let last = candidates.last();
        assert(candidates == rest.push(last));
        assert forall|c: Seq<char>|
            #[trigger] passing(candidates, needle, prefix).contains(c) <==> candidates.contains(c) && if prefix {
                starts_with(lowercase(c), needle)
            } else {
                contains_text(lowercase(c), needle)
            } by {
            crate::textmap::lemma_push_contains(rest, last, c);
            crate::textmap::lemma_push_contains(passing(rest, needle, prefix), last, c);
            assert(passing(rest, needle, prefix).contains(c) <==> rest.contains(c) && if prefix {
                starts_with(lowercase(c), needle)
            } else {
                contains_text(lowercase(c), needle)
            });
        }
    }
}

/// A completion is one of the candidates and holds the input; where a candidate
/// starts with the input, every completion does.
pub proof fn law_completions_hold_the_input(input: Seq<char>, candidates: Seq<Seq<char>>, c: Seq<char>)
    requires
        input.len() > 0,
        completions(input, candidates).contains(c),
    ensures
        candidates.contains(c),
        contains_text(lowercase(c), lowercase(input)),
        (exists|d: Seq<char>| candidates.contains(d) && #[trigger] starts_with(lowercase(d), lowercase(input)))
            ==> starts_with(lowercase(c), lowercase(input)),
{
    let needle = lowercase(input);
    lemma_passing(candidates, needle, true);
    lemma_passing(candidates, needle, false);
    if passing(candidates, needle, true).len() > 0 {
        assert(crate::text::occurs_at(lowercase(c), needle, 0));
    } else {
        if exists|d: Seq<char>| candidates.contains(d) && #[trigger] starts_with(lowercase(d), needle) {
            let d = choose|d: Seq<char>| candidates.contains(d) && #[trigger] starts_with(lowercase(d), needle);
            assert(passing(candidates, needle, true).contains(d));
        }
    }
}

/// What can follow a command, given the pools that depend on the session.
pub open spec fn candidates_for(
    cmd: Seq<char>,
    goto_paths: Seq<Seq<char>>,
    filter_dirs: Seq<Seq<char>>,
    revs: Seq<Seq<char>>,
) -> Seq<Seq<char>> {
    if cmd == "keys"@ {
        seq!["vim"@, "vscode"@]
    } else if cmd == "theme"@ {
        theme_name_list()
    } else if cmd == "strategy"@ {
        seq!["comprehension"@, "defs-first"@, "file"@]
    } else if cmd == "goto"@ {
        goto_paths
    } else if cmd == "filter"@ {
        filter_dirs
    } else if cmd == "e"@ {
        revs
    } else {
        Seq::empty()
    }
}

pub fn arg_candidates(
    cmd: &str,
    goto_paths: &[String],
    filter_dirs: &[String],
    rev_candidates: &[String],
) -> (r: Vec<String>)
    ensures
        texts(r@) == candidates_for(
            cmd@,
            texts(goto_paths@),
            texts(filter_dirs@),
            texts(rev_candidates@),
        ),
{
    let mut out: Vec<String> = Vec::new();
    if same(cmd, "keys") {
        out.push("vim".to_owned());
        out.push("vscode".to_owned());
        assert(texts(out@) == seq!["vim"@, "vscode"@]);
        out
    } else if same(cmd, "theme") {
        theme_names()
    } else if same(cmd, "strategy") {
        out.push("comprehension".to_owned());
        out.push("defs-first".to_owned());
        out.push("file".to_owned());
        assert(texts(out@) == seq!["comprehension"@, "defs-first"@, "file"@]);
        out
    } else if same(cmd, "goto") {
        copy_strings(goto_paths)
    } else if same(cmd, "filter") {
        copy_strings(filter_dirs)
    } else if same(cmd, "e") {
        copy_strings(rev_candidates)
    } else {
        assert(texts(out@) == Seq::<Seq<char>>::empty());
        out
    }
}

/// The completion menu for the text of the bar: command names for its first
/// word, then what can follow the command.
pub open spec fn menu_for(
    text: Seq<char>,
    goto_paths: Seq<Seq<char>>,
    filter_dirs: Seq<Seq<char>>,
    revs: Seq<Seq<char>>,
) -> Seq<Seq<char>> {
    let at = space_from(text, 0);
    if at >= text.len() {
        completions(text, command_name_list())
    } else {
        let pool = candidates_for(text.take(at), goto_paths, filter_dirs, revs);
        if pool.len() == 0 {
            Seq::empty()
        } else {
            completions(trim_start(text.skip(at)), pool)
        }
    }
}

pub fn command_completions(
    text: &str,
    goto_paths: &[String],
    filter_dirs: &[String],
    rev_candidates: &[String],
) -> (r: Vec<String>)
    ensures
        texts(r@) == menu_for(
            text@,
            texts(goto_paths@),
            texts(filter_dirs@),
            texts(rev_candidates@),
        ),
{
    let cs = chars_of(text);
    let at = find_space(&cs);
    if at == cs.len() {
        return complete(text, &command_names());
    }
    let name = slice_string(&cs, 0, at);
    let rest = slice_string(&cs, at, cs.len());
    assert(name@ == text@.take(at as int));
    assert(rest@ == text@.skip(at as int));
    let pool = arg_candidates(&name, goto_paths, filter_dirs, rev_candidates);
    assert(texts(pool@).len() == pool@.len());
    if pool.len() == 0 {
        let none: Vec<String> = Vec::new();
        assert(texts(none@) == Seq::<Seq<char>>::empty());
        none
    } else {
        complete(&trim_left(&rest), &pool)
    }
}

/// The text with an accepted completion in place of the word that was being
/// completed, and a space behind it.
pub open spec fn completed(text: Seq<char>, candidate: Seq<char>) -> Seq<char> {
    let at = space_from(text, 0);
    if at >= text.len() {
        candidate + " "@
    } else {
        text.take(at + 1) + candidate + " "@
    }
}

pub fn apply_completion(text: &str, candidate: &str) -> (r: String)
    ensures
        r@ == completed(text@, candidate@),
{
    let cs = chars_of(text);
    let at = find_space(&cs);
    if at == cs.len() {
        candidate.to_owned().concat(" ")
    } else {
        let head = slice_string(&cs, 0, at + 1);
        assert(head@ == text@.take(at + 1));
        head.concat(candidate).concat(" ")
    }
}

/// The texts, each once, in order.
pub fn distinct_sorted(vals: &[String]) -> (r: Vec<String>)
    ensures
        texts(r@) == sorted_texts(distinct(texts(vals@))),
{
    sort(distinct_of(vals))
}

/// The directory of a path: what stands before its last `/`.
pub open spec fn directory_of(path: Seq<char>) -> Option<Seq<char>> {
    let at = crate::text::after_last(path, '/', path.len() as int);
    if at <= 0 {
        None
    } else {
        Some(path.take(at - 1))
    }
}

pub fn dir_prefix(path: &str) -> (r: Option<String>)
    ensures
        option_text(r) == directory_of(path@),
{
    let cs = chars_of(path);
    let mut n: usize = cs.len();
    while n > 0
        invariant
            n <= cs@.len(),
            cs@ == path@,
            crate::text::after_last(path@, '/', path@.len() as int) == crate::text::after_last(
                path@,
                '/',
                n as int,
            ),
        decreases n,
    {
        if cs[n - 1] == '/' {
            let dir = slice_string(&cs, 0, n - 1);
            assert(dir@ == path@.take(n - 1));
            return Some(dir);
        }
        n = n - 1;
    }
    None
}

/// The revisions that `:e` offers: `zz`, `HEAD`, and every ref that the list
/// names.
pub open spec fn rev_pool(refs: Seq<char>) -> Seq<Seq<char>> {
    seq!["zz"@, "HEAD"@] + filled_lines(lines_of(refs))
}

/// The lines, trimmed, without those that are blank.
pub open spec fn filled_lines(lines: Seq<Seq<char>>) -> Seq<Seq<char>>
    decreases lines.len(),
{
    if lines.len() == 0 {
        Seq::empty()
    } else {
        let before = filled_lines(lines.drop_last());
        if trimmed(lines.last()).len() == 0 {
            before
        } else {
            before.push(trimmed(lines.last()))
        }
    }
}

/// The lines of a program's output, trimmed, without those that are blank.
pub fn output_lines(text: &str) -> (r: Vec<String>)
    ensures
        texts(r@) == filled_lines(lines_of(text@)),
{
    let lines = split_lines(text);
    let ghost all = texts(lines@);
    let mut out: Vec<String> = Vec::new();
    assert(texts(out@) == filled_lines(all.take(0)));
    for i in 0..lines.len()
        invariant
            all == texts(lines@),
            texts(out@) == filled_lines(all.take(i as int)),
    {
        assert(all.take(i + 1).drop_last() == all.take(i as int));
        assert(all.take(i + 1).last() == lines@[i as int]@);
        let t = trim(&lines[i]);
        if !t.as_str().is_empty() {
            let ghost before = texts(out@);
            out.push(t);
            assert(texts(out@) == before.push(t@));
        }
    }
    assert(all.take(all.len() as int) == all);
    out
}

pub fn rev_completions(refs: &str) -> (r: Vec<String>)
    ensures
        texts(r@) == rev_pool(refs@),
{
    let mut out: Vec<String> = Vec::new();
    out.push("zz".to_owned());
    out.push("HEAD".to_owned());
    assert(texts(out@) == seq!["zz"@, "HEAD"@]);
    let mut more = output_lines(refs);
    let ghost a = texts(out@);
    let ghost b = texts(more@);
    out.append(&mut more);
    assert(texts(out@) == a + b);
    out
}

/// How a review is ordered.
#[derive(Clone, Copy, PartialEq, Eq, Debug, Structural)]
pub enum Strategy {
    Comprehension,
    DefsFirst,
    File,
}

pub fn parse_strategy(s: &str) -> (r: Option<Strategy>)
    ensures
        r == (if s@ == "comprehension"@ {
            Some(Strategy::Comprehension)
        } else if s@ == "defs-first"@ {
            Some(Strategy::DefsFirst)
        } else if s@ == "file"@ {
            Some(Strategy::File)
        } else {
            None
        }),
{
    if same(s, "comprehension") {
        Some(Strategy::Comprehension)
    } else if same(s, "defs-first") {
        Some(Strategy::DefsFirst)
    } else if same(s, "file") {
        Some(Strategy::File)
    } else {
        None
    }
}

/// The mode that a word asks for; no word asks for the other one.
pub open spec fn mode_asked(arg: Seq<char>, now: ViewMode) -> Option<ViewMode> {
    if arg.len() == 0 {
        Some(
            match now {
                ViewMode::Ledger => ViewMode::Hunks,
                ViewMode::Hunks => ViewMode::Ledger,
            },
        )
    } else if arg == "ledger"@ || arg == "symbols"@ || arg == "symbol"@ {
        Some(ViewMode::Ledger)
    } else if arg == "hunks"@ || arg == "hunk"@ {
        Some(ViewMode::Hunks)
    } else {
        None
    }
}

pub fn parse_mode(arg: &str, now: ViewMode) -> (r: Result<ViewMode, String>)
    ensures
        match r {
            Ok(m) => mode_asked(arg@, now) == Some(m),
            Err(why) => mode_asked(arg@, now) is None && why@ == "unknown mode: "@ + arg@
                + " (ledger, hunks)"@,
        },
{
    if arg.is_empty() {
        Ok(
            match now {
                ViewMode::Ledger => ViewMode::Hunks,
                ViewMode::Hunks => ViewMode::Ledger,
            },
        )
    } else if same(arg, "ledger") || same(arg, "symbols") || same(arg, "symbol") {
        Ok(ViewMode::Ledger)
    } else if same(arg, "hunks") || same(arg, "hunk") {
        Ok(ViewMode::Hunks)
    } else {
        Err("unknown mode: ".to_owned().concat(arg).concat(" (ledger, hunks)"))
    }
}

/// The widest label among the commands that the candidates name.
pub open spec fn menu_column(all: Seq<Seq<char>>) -> int
    decreases all.len(),
{
    if all.len() == 0 {
        0
    } else {
        let before = menu_column(all.drop_last());
        match command_of(all.last()) {
            Some(c) => if command_label(c).len() > before {
                command_label(c).len() as int
            } else {
                before
            },
            None => before,
        }
    }
}

/// A command's help, cut to the room that it has.
pub open spec fn help_cut(help: Seq<char>, room: int) -> Seq<char> {
    if room < help.len() {
        help.take(room - 1).push('…')
    } else {
        help
    }
}

/// The names that are short for another command.
pub open spec fn is_alias(name: Seq<char>) -> bool {
    name == "qf"@ || name == "vim-qfl"@
}

/// A row of the completion menu: while a command's name is completed, the command
/// and its help as far as there is room. An alias, and what is no command, is
/// shown as it is.
pub open spec fn menu_row(candidate: Seq<char>, naming: bool, all: Seq<Seq<char>>, wide: int) -> (
    Seq<char>,
    Option<Seq<char>>,
) {
    match command_of(candidate) {
        Some(c) if naming && !is_alias(candidate) => {
            let head = padded_right(command_label(c), menu_column(all));
            let room = wide - (head.len() + 4);
            if room < 8 {
                (head, None)
            } else {
                (head, Some("  — "@ + help_cut(c.help@, room)))
            }
        },
        _ => (candidate, None),
    }
}

fn column_of(all: &[String]) -> (r: usize)
    ensures
        r == menu_column(texts(all@)),
{
    let mut col: usize = 0;
    let ghost ts = texts(all@);
    for i in 0..all.len()
        invariant
            ts == texts(all@),
            col == menu_column(ts.take(i as int)),
    {
        assert(ts.take(i + 1).drop_last() == ts.take(i as int));
        assert(ts.take(i + 1).last() == all@[i as int]@);
        if let Some(c) = find_command(&all[i]) {
            let n = width(&label(&c));
            if n > col {
                col = n;
            }
        }
    }
    assert(ts.take(ts.len() as int) == ts);
    col
}

pub fn command_menu_row(candidate: &str, naming: bool, all: &[String], room: usize) -> (r: (
    String,
    Option<String>,
))
    ensures
        (r.0@, option_text(r.1)) == menu_row(candidate@, naming, texts(all@), room as int),
{
    if !naming || same(candidate, "qf") || same(candidate, "vim-qfl") {
        return (candidate.to_owned(), None);
    }
    let c = match find_command(candidate) {
        Some(c) => c,
        None => {
            return (candidate.to_owned(), None);
        },
    };
    let head = pad_right(&label(&c), column_of(all));
    let used = width(&head);
    if room < used || room - used < 12 {
        return (head, None);
    }
    let left: usize = room - used - 4;
    let cs = chars_of(c.help);
    let help = if left < cs.len() {
        let mut cut = slice_string(&cs, 0, left - 1);
        assert(cut@ == c.help@.take(left - 1));
        cut.push('…');
        cut
    } else {
        c.help.to_owned()
    };
    (head, Some("  — ".to_owned().concat(&help)))
}

/// A count and what it counts.
pub open spec fn audit_row(n: int, what: Seq<char>) -> Seq<char> {
    "  "@ + padded_left(decimal(n), ' ', 4) + "  "@ + what
}

fn count_row(n: usize, what: &str) -> (r: String)
    ensures
        r@ == audit_row(n as int, what@),
{
    "  ".to_owned().concat(&pad_left(&number(n), ' ', 4)).concat("  ").concat(what)
}

/// The audit: every hunk and file that is not on screen, charged to what
/// removed it.
pub open spec fn audit_lines(
    total: int,
    shown: int,
    hidden: Hidden,
    ledger: Ledger,
    path_filter: Option<Seq<char>>,
) -> Seq<Seq<char>> {
    seq![
        decimal(shown) + " of "@ + decimal(total) + " hunks shown"@,
        ""@,
        "hidden in the view"@,
        audit_row(hidden.noise as int, "generated/formatting noise (:all shows them)"@),
        audit_row(
            ledger.hunks_import as int,
            "of which import hunks — noise, but shown by default where the diff put them"@,
        ),
        audit_row(hidden.comment as int, "not a comment change (:only-comments)"@),
        audit_row(
            hidden.glob as int,
            match path_filter {
                Some(g) => "outside the path filter '"@ + g + "'"@,
                None => "outside the path filter"@,
            },
        ),
        ""@,
        "dropped by the engine before ordering"@,
        audit_row(ledger.hunks_non_comment as int, "not a comment change (--only-comments)"@),
        ""@,
        "files: "@ + decimal(ledger.files_seen as int) + " changed, of which"@,
        audit_row(ledger.files_generated as int, "generated or lock file (--all keeps them)"@),
        audit_row(ledger.files_declared as int, "declared generated by .gitattributes"@),
        audit_row(
            ledger.files_globbed as int,
            "never fetched: excluded by a launch-time glob"@,
        ),
        audit_row(ledger.files_unreadable as int, "listed as changed but unreadable"@),
        ""@,
        if hidden.unaccounted == 0 {
            "every hidden hunk is accounted for"@
        } else {
            decimal(hidden.unaccounted as int) + " hidden hunk"@ + plural_of(
                hidden.unaccounted as int,
            ) + " unaccounted for — this is a bug, please report it"@
        },
    ]
}

pub fn build_audit(
    items: &[Item],
    view_len: usize,
    hidden: &Hidden,
    ledger: &Ledger,
    path_filter: Option<&str>,
) -> (r: Vec<String>)
    ensures
        texts(r@) == audit_lines(
            items@.len() as int,
            view_len as int,
            *hidden,
            *ledger,
            match path_filter {
                Some(g) => Some(g@),
                None => None,
            },
        ),
{
    let outside = match path_filter {
        Some(g) => "outside the path filter '".to_owned().concat(g).concat("'"),
        None => "outside the path filter".to_owned(),
    };
    let verdict = if hidden.unaccounted == 0 {
        "every hidden hunk is accounted for".to_owned()
    } else {
        number(hidden.unaccounted).concat(" hidden hunk").concat(plural(hidden.unaccounted)).concat(
            " unaccounted for — this is a bug, please report it",
        )
    };
    let out: Vec<String> = vec![
        number(view_len).concat(" of ").concat(&number(items.len())).concat(" hunks shown"),
        "".to_owned(),
        "hidden in the view".to_owned(),
        count_row(hidden.noise, "generated/formatting noise (:all shows them)"),
        count_row(
            ledger.hunks_import,
            "of which import hunks — noise, but shown by default where the diff put them",
        ),
        count_row(hidden.comment, "not a comment change (:only-comments)"),
        count_row(hidden.glob, &outside),
        "".to_owned(),
        "dropped by the engine before ordering".to_owned(),
        count_row(ledger.hunks_non_comment, "not a comment change (--only-comments)"),
        "".to_owned(),
        "files: ".to_owned().concat(&number(ledger.files_seen)).concat(" changed, of which"),
        count_row(ledger.files_generated, "generated or lock file (--all keeps them)"),
        count_row(ledger.files_declared, "declared generated by .gitattributes"),
        count_row(ledger.files_globbed, "never fetched: excluded by a launch-time glob"),
        count_row(ledger.files_unreadable, "listed as changed but unreadable"),
        "".to_owned(),
        verdict,
    ];
    assert(texts(out@) =~= audit_lines(
        items@.len() as int,
        view_len as int,
        *hidden,
        *ledger,
        match path_filter {
            Some(g) => Some(g@),
            None => None,
        },
    ));
    out
}

} // verus!
