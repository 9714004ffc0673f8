//! The command line: what is reviewed, and how.

use crate::filter::{build_globs, globs_made, patterns_complaint, Filter, Ledger};
use crate::keyconfig::{all_overridden, apply_key_config, config_read, parse_key_config, KeyConfig};
use crate::keys::{is_preset, keymap, Keymap};
use crate::text::{has_prefix, join, joined, option_text, same, starts_with, strip_prefix, texts};
use crate::theme::{apply_theme_colors, theme, theme_name_list, theme_named, theme_names, with_roles, Theme};
use vstd::prelude::*;

verus! {

/// What the program tells of itself.
pub const USAGE: &'static str = "\
ordo — interactive review of a commit, ordered for comprehension.

usage:
  ordo [<rev>] [<glob>...] [--keys <preset>] [--theme <name>] [--rules <file>]... [--all] [--only-comments]
  ordo --init-config [--force]
  ordo --help
  ordo --version

<rev> is any git commit-ish (a sha, HEAD~2, a tag), a commit range (main..branch,
or main...branch to diff from the merge base), or `zz` for the uncommitted area.
base..zz (or base...zz for the merge base of base and HEAD) reviews everything
done since base including uncommitted work — base's tree versus the worktree.
Default: HEAD. Its diff is ordered by def→use with rationale, structural notes,
advisories and PR-split clusters.

On a GitButler-managed repo <rev> also takes the CLI IDs `but status` prints: a
branch (by ID or name) reviews that branch's own commits, a commit ID (or a
change-ID prefix) reviews that commit.

Generated and lock files (Cargo.lock, package-lock.json, vendor/, node_modules/,
.min.js, …) are skipped, as is anything .gitattributes marks `linguist-generated`
or `-diff`; --all keeps them all. Any <glob> after <rev> confines the
review to paths matching at least one of them — `*` crosses `/`, so `src/*` is
everything under src/ and `*.rs` matches at any depth. A glob prefixed `!` is
negative and excludes a path that matches it, e.g. `'src/*' '!tests/*'`; with
only negative globs given, everything except those is kept. `\\!literal` escapes
a leading bang for a path genuinely named that way. Matching is order-independent
and deliberately unlike .gitignore: any negative match excludes a path no matter
where it appears relative to the positives, and a later positive never
re-includes something a negative excluded. Quote them so the shell doesn't
expand them first.

--theme selects the palette (also read from $ORDO_TUI_THEME, default dark).
`dark` and `light` keep the terminal's own foreground colours and only tint the
diff backgrounds; the truecolor themes — catppuccin (mocha, macchiato, frappe,
latte), tokyonight (night, storm, moon, day), gruvbox (dark, light), nord,
dracula, solarized (dark, light) — name every colour themselves. `:theme` lists
them and swaps live. No theme paints a window background, so terminal
transparency survives; what a theme does assume is a background of matching
lightness. Roles are overridable in tui.toml's [theme] section.

--only-comments limits the review to comment/docstring-only hunks (ordered
among themselves, as the engine's --only-comments does) — a starting point
only; `:only-comments` in command mode toggles it live, same as `--all`
and a path filter (see below).

--keys selects a keystroke preset (also read from $ORDO_TUI_KEYS, default vim).
The three panes — reading order, code, why — take focus one at a time; motion
keys act on the focused pane, paging always drives the code pane.

Command mode (`:` in vim, Ctrl+Shift+P in vscode) turns launch-time choices
into live controls: `:only-comments`, `:all`, `:filter <glob>` (empty clears,
same negative-glob syntax as the CLI), `:keys <preset>`, `:strategy
<comprehension|defs-first|file>` (re-orders in place), `:group` (toggle group
headers in the reading-order list), `:goto <path>`, `:e <rev>` (review a
different revision without restarting), `:q`, `:help` (lists these, generated
from the same table `:help`'s popup shows). Typing completes command names,
then — after a space — each command's own arguments (paths, presets, strategy
names, revisions); Tab/C-n/Down cycle the menu forward, C-p/Up back, Enter
accepts the highlighted entry or runs the line when nothing is highlighted,
Esc cancels.

  vim      j/k move · C-w C-w (or C-w h/j/k/l) pane · gg/G ends · C-d/C-u half
           space/f/C-f, C-b page · x toggle reviewed · q / Esc quit · ?
           opens a keybinding help popup (Esc/q close it without quitting)
           : opens the command bar (see above)
           in the code pane: h/l/w/b/e/0/$/{/} move the cursor, zh/zl scroll
           the pane horizontally without moving it, K shows the symbol under
           it (Esc/q close that popup without quitting)
           / opens a text-search prompt (Enter jumps to the first match at or
           after the cursor, Esc cancels, Backspace edits); * and # jump to
           the next/previous occurrence of the symbol under the cursor,
           resolved via tree-sitter identifiers rather than text; n/N cycle
           whichever search — text or symbol — is currently active, wrapping
           ge opens the selected hunk's file in $VISUAL/$EDITOR at its line
           (a chord, not bare `e`, which is already word-end in the code pane)
           in the why pane: j/k move a line cursor over reason/details/dep
           lines; on a `dep` (def→use edge) line, K previews the referenced
           hunk and gd (or Enter) jumps to it and focuses the code pane; C-o
           jumps back. A dep line whose hunk isn't part of this review (a
           glob filter, --only-comments, or an unreviewed file) previews as
           such and gd/Enter does nothing rather than guessing where to go
  vscode   up/down move · F6 / shift-F6 pane · C-1/C-2/C-3 pane · PageUp/PageDown
           page · space / enter toggle reviewed · C-q / Esc quit · F1 opens a
           keybinding help popup (Esc closes it without quitting)
           C-Shift-P opens the command bar (vscode's own command-palette key;
           C-P, its \"Go to File\", opens the bar pre-filled with `goto `)
           in the code pane: left/right/C-left/C-right/Home/End move the
           cursor, shift-left/shift-right scroll the pane horizontally
           without moving it, F12 shows the symbol under it (Esc closes that
           popup)
           C-f opens the text-search prompt, F3/shift-F3 cycle its matches;
           C-F12/shift-C-F12 jump to the next/previous occurrence of the
           symbol under the cursor (same tree-sitter search as vim's */#)
           C-o opens the selected hunk's file in $VISUAL/$EDITOR at its line
           in the why pane: up/down move a line cursor over reason/details/dep
           lines; on a `dep` (def→use edge) line, F12 previews the referenced
           hunk and C-Enter jumps to it and focuses the code pane; Alt-Left
           (vscode's own \"Go Back\") jumps back. A dep line whose hunk isn't
           part of this review previews as such and C-Enter does nothing
           rather than guessing where to go

Long lines are clipped, not wrapped, so the line-number gutter stays put; a
‹/› marker appears in the code pane's title whenever the current file has
content scrolled past the left/right edge.
";

/// What the next argument is for.
#[derive(Clone, Copy, PartialEq, Eq, Debug, Structural)]
pub enum Want {
    Nothing,
    Preset,
    Theme,
    Rules,
}

/// What the arguments say.
pub struct Flags {
    pub rev: Option<String>,
    pub globs: Vec<String>,
    pub skip_generated: bool,
    pub only_comments: bool,
    /// whether the preset was chosen, not just fallen back on
    pub preset_given: bool,
    pub preset: String,
    pub theme_given: bool,
    pub theme: String,
    pub rules: Vec<String>,
    pub want: Want,
    pub init: bool,
    pub force: bool,
}

/// The same, as text.
pub ghost struct FlagsText {
    pub rev: Option<Seq<char>>,
    pub globs: Seq<Seq<char>>,
    pub skip_generated: bool,
    pub only_comments: bool,
    pub preset_given: bool,
    pub preset: Seq<char>,
    pub theme_given: bool,
    pub theme: Seq<char>,
    pub rules: Seq<Seq<char>>,
    pub want: Want,
    pub init: bool,
    pub force: bool,
}

impl Flags {
    pub open spec fn text(self) -> FlagsText {
        FlagsText {
            rev: option_text(self.rev),
            globs: texts(self.globs@),
            skip_generated: self.skip_generated,
            only_comments: self.only_comments,
            preset_given: self.preset_given,
            preset: self.preset@,
            theme_given: self.theme_given,
            theme: self.theme@,
            rules: texts(self.rules@),
            want: self.want,
            init: self.init,
            force: self.force,
        }
    }
}

/// Why the arguments are not read on.
#[derive(Clone, Copy, PartialEq, Eq, Debug, Structural)]
pub enum Halt {
    Help,
    Version,
    /// a flag that is not known
    Unknown,
}

/// What holds before any argument was read.
pub open spec fn no_flags(keys_env: Option<Seq<char>>, theme_env: Option<Seq<char>>) -> FlagsText {
    FlagsText {
        rev: None,
        globs: Seq::empty(),
        skip_generated: true,
        only_comments: false,
        preset_given: keys_env is Some,
        preset: match keys_env {
            Some(k) => k,
            None => "vim"@,
        },
        theme_given: theme_env is Some,
        theme: match theme_env {
            Some(t) => t,
            None => "dark"@,
        },
        rules: Seq::empty(),
        want: Want::Nothing,
        init: false,
        force: false,
    }
}

/// The rest of an argument behind a flag.
pub open spec fn behind(a: Seq<char>, flag: Seq<char>) -> Seq<char> {
    a.skip(flag.len() as int)
}

/// What one more argument says.
pub open spec fn flag_read(f: FlagsText, a: Seq<char>) -> Result<FlagsText, Halt> {
    if f.want == Want::Preset {
        Ok(FlagsText { preset: a, preset_given: true, want: Want::Nothing, ..f })
    } else if f.want == Want::Theme {
        Ok(FlagsText { theme: a, theme_given: true, want: Want::Nothing, ..f })
    } else if f.want == Want::Rules {
        Ok(FlagsText { rules: f.rules.push(a), want: Want::Nothing, ..f })
    } else if a == "--keys"@ {
        Ok(FlagsText { want: Want::Preset, ..f })
    } else if starts_with(a, "--keys="@) {
        Ok(FlagsText { preset: behind(a, "--keys="@), preset_given: true, ..f })
    } else if a == "--theme"@ {
        Ok(FlagsText { want: Want::Theme, ..f })
    } else if starts_with(a, "--theme="@) {
        Ok(FlagsText { theme: behind(a, "--theme="@), theme_given: true, ..f })
    } else if a == "--rules"@ {
        Ok(FlagsText { want: Want::Rules, ..f })
    } else if starts_with(a, "--rules="@) {
        Ok(FlagsText { rules: f.rules.push(behind(a, "--rules="@)), ..f })
    } else if a == "--all"@ {
        Ok(FlagsText { skip_generated: false, ..f })
    } else if a == "--only-comments"@ {
        Ok(FlagsText { only_comments: true, ..f })
    } else if a == "--init-config"@ {
        Ok(FlagsText { init: true, ..f })
    } else if a == "--force"@ {
        Ok(FlagsText { force: true, ..f })
    } else if a == "-h"@ || a == "--help"@ || a == "help"@ {
        Err(Halt::Help)
    } else if a == "-V"@ || a == "--version"@ || a == "version"@ {
        Err(Halt::Version)
    } else if starts_with(a, "-"@) {
        Err(Halt::Unknown)
    } else if f.rev is Some {
        Ok(FlagsText { globs: f.globs.push(a), ..f })
    } else {
        Ok(FlagsText { rev: Some(a), ..f })
    }
}

/// What the first `n` arguments say, or where and why they are not read on.
pub open spec fn flags_read(f: FlagsText, args: Seq<Seq<char>>, n: int) -> Result<FlagsText, (int, Halt)>
    decreases n,
{
    if n <= 0 {
        Ok(f)
    } else {
        match flags_read(f, args, n - 1) {
            Err(e) => Err(e),
            Ok(g) => match flag_read(g, args[n - 1]) {
                Ok(h) => Ok(h),
                Err(why) => Err((n - 1, why)),
            },
        }
    }
}

fn push_text(v: &mut Vec<String>, s: String)
    ensures
        texts(final(v)@) == texts(old(v)@).push(s@),
{
    let ghost had = texts(v@);
    v.push(s);
    assert(texts(v@) =~= had.push(s@));
}

fn read_flag(f: Flags, a: &str) -> (r: Result<Flags, Halt>)
    ensures
        match r {
            Ok(g) => flag_read(f.text(), a@) == Ok::<FlagsText, Halt>(g.text()),
            Err(why) => flag_read(f.text(), a@) == Err::<FlagsText, Halt>(why),
        },
{
    let mut f = f;
    match f.want {
        Want::Preset => {
            f.preset = a.to_owned();
            f.preset_given = true;
            f.want = Want::Nothing;
            return Ok(f);
        },
        Want::Theme => {
            f.theme = a.to_owned();
            f.theme_given = true;
            f.want = Want::Nothing;
            return Ok(f);
        },
        Want::Rules => {
            push_text(&mut f.rules, a.to_owned());
            f.want = Want::Nothing;
            return Ok(f);
        },
        Want::Nothing => {},
    }
    if same(a, "--keys") {
        f.want = Want::Preset;
    } else if let Some(v) = strip_prefix(a, "--keys=") {
        f.preset = v;
        f.preset_given = true;
    } else if same(a, "--theme") {
        f.want = Want::Theme;
    } else if let Some(v) = strip_prefix(a, "--theme=") {
        f.theme = v;
        f.theme_given = true;
    } else if same(a, "--rules") {
        f.want = Want::Rules;
    } else if let Some(v) = strip_prefix(a, "--rules=") {
        push_text(&mut f.rules, v);
    } else if same(a, "--all") {
        f.skip_generated = false;
    } else if same(a, "--only-comments") {
        f.only_comments = true;
    } else if same(a, "--init-config") {
        f.init = true;
    } else if same(a, "--force") {
        f.force = true;
    } else if same(a, "-h") || same(a, "--help") || same(a, "help") {
        return Err(Halt::Help);
    } else if same(a, "-V") || same(a, "--version") || same(a, "version") {
        return Err(Halt::Version);
    } else if has_prefix(a, "-") {
        return Err(Halt::Unknown);
    } else if f.rev.is_some() {
        push_text(&mut f.globs, a.to_owned());
    } else {
        f.rev = Some(a.to_owned());
    }
    Ok(f)
}

/// Reads the arguments one by one; stops where one asks for help or the version,
/// or is a flag that is not known.
pub fn read_flags(args: &[String], keys_env: Option<String>, theme_env: Option<String>) -> (r: Result<
    Flags,
    (usize, Halt),
>)
    ensures
        match r {
            Ok(f) => flags_read(
                no_flags(option_text(keys_env), option_text(theme_env)),
                texts(args@),
                args@.len() as int,
            ) == Ok::<FlagsText, (int, Halt)>(f.text()),
            Err((i, why)) => i < args@.len() && flags_read(
                no_flags(option_text(keys_env), option_text(theme_env)),
                texts(args@),
                args@.len() as int,
            ) == Err::<FlagsText, (int, Halt)>((i as int, why)),
        },
{
    let ghost start = no_flags(option_text(keys_env), option_text(theme_env));
    let mut f = Flags {
        rev: None,
        globs: Vec::new(),
        skip_generated: true,
        only_comments: false,
        preset_given: keys_env.is_some(),
        preset: match keys_env {
            Some(k) => k,
            None => "vim".to_owned(),
        },
        theme_given: theme_env.is_some(),
        theme: match theme_env {
            Some(t) => t,
            None => "dark".to_owned(),
        },
        rules: Vec::new(),
        want: Want::Nothing,
        init: false,
        force: false,
    };
    proof {
        assert(texts(f.globs@) =~= Seq::empty());
        assert(texts(f.rules@) =~= Seq::empty());
    }
    let n: usize = args.len();
    for i in 0..n
        invariant
            n == args@.len(),
            start == no_flags(option_text(keys_env), option_text(theme_env)),
            flags_read(start, texts(args@), i as int) == Ok::<FlagsText, (int, Halt)>(f.text()),
    {
        assert(texts(args@)[i as int] == args@[i as int]@);
        match read_flag(f, &args[i]) {
            Ok(g) => {
                f = g;
            },
            Err(why) => {
                proof {
                    lemma_halted(start, texts(args@), i + 1, n as int);
                }
                return Err((i, why));
            },
        }
    }
    Ok(f)
}

proof fn lemma_halted(f: FlagsText, args: Seq<Seq<char>>, a: int, b: int)
    requires
        0 <= a <= b,
        flags_read(f, args, a) is Err,
    ensures
        flags_read(f, args, b) == flags_read(f, args, a),
    decreases b - a,
{
    if a < b {
        lemma_halted(f, args, a, b - 1);
    }
}

/// What a review is started with.
pub struct Settings {
    pub rev: String,
    pub keys: Keymap,
    pub filter: Filter,
    pub only_comments: bool,
    pub theme: Theme,
    /// further rule files
    pub rules: Vec<String>,
}

/// What the program is asked to do.
pub enum Start {
    /// tell how it is used
    Help,
    /// tell its version
    Version,
    /// nothing: the arguments are wrong
    Refused,
    /// write a configuration file of a preset and a theme, over one that is
    /// there if forced to
    Init(String, String, bool),
    Review(Settings),
}

/// What is told of an argument that is wrong.
pub open spec fn usage_told(why: Seq<char>) -> Seq<char> {
    why + "\n\n"@ + USAGE@
}

fn tell_usage(why: String) -> (r: String)
    ensures
        r@ == usage_told(why@),
{
    why.concat("\n\n").concat(USAGE)
}

/// The preset or theme that counts: what was chosen, else what the configuration
/// says, else the fallback.
pub open spec fn chosen(given: bool, value: Seq<char>, configured: Option<Seq<char>>) -> Seq<char> {
    match configured {
        Some(c) if !given => c,
        _ => value,
    }
}

pub open spec fn configured_preset(cfg: Option<KeyConfig>) -> Option<Seq<char>> {
    match cfg {
        Some(c) => option_text(c.preset),
        None => None,
    }
}

pub open spec fn configured_theme(cfg: Option<KeyConfig>) -> Option<Seq<char>> {
    match cfg {
        Some(c) => option_text(c.theme),
        None => None,
    }
}

/// What is told of a configuration file.
pub open spec fn config_told(cfg: Option<KeyConfig>) -> Seq<Seq<char>> {
    match cfg {
        Some(c) => texts(c.problems@).map_values(|p: Seq<char>| "ordo: tui.toml: "@ + p),
        None => Seq::empty(),
    }
}

/// Whether keys are a preset, as the configuration changes it.
pub open spec fn keys_chosen(k: Keymap, preset: Seq<char>, cfg: Option<KeyConfig>) -> bool {
    exists|base: Keymap| #[trigger]
        is_preset(base, preset) && k.name == base.name && k.hint == base.hint && k.binds@ == (match cfg {
            Some(c) => all_overridden(base.binds@, c.binds@),
            None => base.binds@,
        })
}

/// A theme, as the configuration changes it.
pub open spec fn theme_chosen(t: Theme, cfg: Option<KeyConfig>) -> Theme {
    match cfg {
        Some(c) => with_roles(t, c.colors@),
        None => t,
    }
}

/// Whether the program does what the arguments say, and tells what it should.
pub open spec fn decided(f: FlagsText, cfg: Option<KeyConfig>, start: Start, told: Seq<Seq<char>>) -> bool {
    let preset = chosen(f.preset_given, f.preset, configured_preset(cfg));
    let name = chosen(f.theme_given, f.theme, configured_theme(cfg));
    if f.want == Want::Preset {
        start is Refused && told == seq![usage_told("ordo: --keys needs a preset name"@)]
    } else if f.want == Want::Theme {
        start is Refused && told == seq![usage_told("ordo: --theme needs a value"@)]
    } else if preset != "vim"@ && preset != "vscode"@ {
        start is Refused && told == seq!["ordo: unknown key preset '"@ + preset + "' (want: vim, vscode)"@]
    } else if theme_named(name) is None {
        start is Refused && told == config_told(cfg).push(
            "ordo: unknown theme '"@ + name + "' (want: "@ + joined(theme_name_list(), ", "@) + ")"@,
        )
    } else if f.init {
        (start matches Start::Init(p, t, force) && p@ == preset && t@ == name && force == f.force) && told
            == config_told(cfg)
    } else if let Some(why) = patterns_complaint(f.globs) {
        start is Refused && told == config_told(cfg).push("ordo: "@ + why)
    } else {
        &&& told == config_told(cfg)
        &&& start matches Start::Review(s)
        &&& s.rev@ == (match f.rev {
            Some(r) => r,
            None => "HEAD"@,
        })
        &&& keys_chosen(s.keys, preset, cfg)
        &&& globs_made(s.filter.globs, f.globs)
        &&& s.filter.skip_generated == f.skip_generated
        &&& !s.filter.negatives_emptied
        &&& s.filter.tally == Ledger::zero()
        &&& s.only_comments == f.only_comments
        &&& s.theme == theme_chosen(theme_named(name)->0, cfg)
        &&& texts(s.rules@) == f.rules
    }
}

fn refuse(told: Vec<String>, why: String) -> (r: (Start, Vec<String>))
    ensures
        r.0 is Refused,
        texts(r.1@) == texts(told@).push(why@),
{
    let mut told = told;
    push_text(&mut told, why);
    (Start::Refused, told)
}

fn tell_config(cfg: &Option<KeyConfig>) -> (r: Vec<String>)
    ensures
        texts(r@) == config_told(*cfg),
{
    let mut told: Vec<String> = Vec::new();
    let ghost all = config_told(*cfg);
    if let Some(c) = cfg {
        for i in 0..c.problems.len()
            invariant
                all == texts(c.problems@).map_values(|p: Seq<char>| "ordo: tui.toml: "@ + p),
                texts(told@) == all.take(i as int),
        {
            push_text(&mut told, "ordo: tui.toml: ".to_owned().concat(&c.problems[i]));
            assert(all.take(i + 1) =~= all.take(i as int).push(all[i as int]));
        }
        assert(texts(c.problems@).len() == c.problems@.len());
        assert(all.take(c.problems@.len() as int) =~= all);
    } else {
        assert(texts(told@) =~= all);
    }
    told
}

/// Decides what the program does by what the arguments and the configuration
/// say, and what it tells before.
pub fn decide(f: Flags, cfg: &Option<KeyConfig>) -> (r: (Start, Vec<String>))
    ensures
        decided(f.text(), *cfg, r.0, texts(r.1@)),
{
    let none: Vec<String> = Vec::new();
    assert(texts(none@) =~= Seq::empty());
    if f.want == Want::Preset {
        let r = refuse(none, tell_usage("ordo: --keys needs a preset name".to_owned()));
        assert(texts(r.1@) =~= seq![usage_told("ordo: --keys needs a preset name"@)]);
        return r;
    }
    if f.want == Want::Theme {
        let r = refuse(none, tell_usage("ordo: --theme needs a value".to_owned()));
        assert(texts(r.1@) =~= seq![usage_told("ordo: --theme needs a value"@)]);
        return r;
    }
    let ghost flags = f.text();
    let preset = match cfg {
        Some(c) => match &c.preset {
            Some(p) => if f.preset_given {
                f.preset.clone()
            } else {
                p.clone()
            },
            None => f.preset.clone(),
        },
        None => f.preset.clone(),
    };
    assert(preset@ == chosen(flags.preset_given, flags.preset, configured_preset(*cfg)));
    let base = match keymap(&preset) {
        Some(k) => k,
        None => {
            let why = "ordo: unknown key preset '".to_owned().concat(&preset).concat(
                "' (want: vim, vscode)",
            );
            let r = refuse(none, why);
            assert(texts(r.1@) =~= seq![why@]);
            return r;
        },
    };
    assert(preset@ == "vim"@ || preset@ == "vscode"@);
    let told = tell_config(cfg);
    let ghost was = base;
    let keys = match cfg {
        Some(c) => apply_key_config(base, c),
        None => base,
    };
    assert(is_preset(was, preset@));
    assert(keys_chosen(keys, preset@, *cfg));
    let name = match cfg {
        Some(c) => match &c.theme {
            Some(t) => if f.theme_given {
                f.theme.clone()
            } else {
                t.clone()
            },
            None => f.theme.clone(),
        },
        None => f.theme.clone(),
    };
    assert(name@ == chosen(flags.theme_given, flags.theme, configured_theme(*cfg)));
    let chosen_theme = match theme(&name) {
        Some(t) => t,
        None => {
            let why = "ordo: unknown theme '".to_owned().concat(&name).concat("' (want: ").concat(
                &join(&theme_names(), ", "),
            ).concat(")");
            return refuse(told, why);
        },
    };
    let chosen_theme = match cfg {
        Some(c) => apply_theme_colors(chosen_theme, &c.colors),
        None => chosen_theme,
    };
    if f.init {
        return (Start::Init(preset, name, f.force), told);
    }
    let globs = match build_globs(&f.globs) {
        Ok(g) => g,
        Err(why) => {
            return refuse(told, "ordo: ".to_owned().concat(&why));
        },
    };
    let filter = Filter {
        globs,
        skip_generated: f.skip_generated,
        negatives_emptied: false,
        tally: Ledger {
            files_seen: 0,
            files_generated: 0,
            files_declared: 0,
            files_globbed: 0,
            files_unreadable: 0,
            hunks_import: 0,
            hunks_non_comment: 0,
        },
    };
    let rev = match f.rev {
        Some(r) => r,
        None => "HEAD".to_owned(),
    };
    (
        Start::Review(
            Settings { rev, keys, filter, only_comments: f.only_comments, theme: chosen_theme, rules: f.rules },
        ),
        told,
    )
}

/// Whether a configuration is what a file says, where there is one.
pub open spec fn config_of(text: Option<Seq<char>>, cfg: Option<KeyConfig>) -> bool {
    match text {
        Some(t) => cfg is Some && cfg->0.text() == config_read(t),
        None => cfg is None,
    }
}

/// Whether the program does what the arguments, the environment and the
/// configuration file say, and tells what it should.
pub open spec fn args_parsed(
    args: Seq<Seq<char>>,
    keys_env: Option<Seq<char>>,
    theme_env: Option<Seq<char>>,
    config: Option<Seq<char>>,
    start: Start,
    told: Seq<Seq<char>>,
) -> bool {
    match flags_read(no_flags(keys_env, theme_env), args, args.len() as int) {
        Err((i, why)) => match why {
            Halt::Help => start is Help && told.len() == 0,
            Halt::Version => start is Version && told.len() == 0,
            Halt::Unknown => start is Refused && told == seq![
                usage_told("ordo: unknown flag '"@ + args[i] + "'"@),
            ],
        },
        Ok(f) => exists|cfg: Option<KeyConfig>| #[trigger] config_of(config, cfg) && decided(f, cfg, start, told),
    }
}

/// Decides what the program does: `args` without the program's name, the
/// environment's preset and theme, and the text of the configuration file where
/// there is one. Gives what it tells before, too.
pub fn parse_args(
    args: &[String],
    keys_env: Option<String>,
    theme_env: Option<String>,
    config: Option<String>,
) -> (r: (Start, Vec<String>))
    ensures
        args_parsed(
            texts(args@),
            option_text(keys_env),
            option_text(theme_env),
            option_text(config),
            r.0,
            texts(r.1@),
        ),
{
    match read_flags(args, keys_env, theme_env) {
        Err((i, why)) => match why {
            Halt::Help => {
                let none: Vec<String> = Vec::new();
                (Start::Help, none)
            },
            Halt::Version => {
                let none: Vec<String> = Vec::new();
                (Start::Version, none)
            },
            Halt::Unknown => {
                let none: Vec<String> = Vec::new();
                assert(texts(none@) =~= Seq::empty());
                assert(texts(args@)[i as int] == args@[i as int]@);
                let why = tell_usage("ordo: unknown flag '".to_owned().concat(&args[i]).concat("'"));
                let r = refuse(none, why);
                assert(texts(r.1@) =~= seq![why@]);
                r
            },
        },
        Ok(f) => {
            let cfg = match &config {
                Some(t) => Some(parse_key_config(t)),
                None => None,
            };
            assert(config_of(option_text(config), cfg));
            decide(f, &cfg)
        },
    }
}

/// What is told of the version.
pub fn version_line(version: &str, schema: usize) -> (r: String)
    ensures
        r@ == "ordo "@ + version@ + " (ordo schema "@ + crate::text::decimal(schema as int) + ")"@,
{
    "ordo ".to_owned().concat(version).concat(" (ordo schema ").concat(&crate::text::number(schema)).concat(")")
}

/// What is told of a revision that means nothing.
pub open spec fn unknown_text(rev: Seq<char>) -> Seq<char> {
    "'"@ + rev + "' is not a git revision, a commit range or a GitButler CLI ID (see `but status`)"@
}

pub fn unknown_revision(rev: &str) -> (r: String)
    ensures
        r@ == unknown_text(rev@),
{
    "'".to_owned().concat(rev).concat(
        "' is not a git revision, a commit range or a GitButler CLI ID (see `but status`)",
    )
}

/// What the program says where the revision to review means nothing.
pub fn unresolved(rev: &str) -> (r: String)
    ensures
        r@ == "ordo: "@ + unknown_text(rev@),
{
    "ordo: ".to_owned().concat(&unknown_revision(rev))
}

/// What is chosen on the command line or in the environment counts before what
/// the configuration file says.
pub proof fn law_a_choice_beats_the_configuration(f: FlagsText, cfg: Option<KeyConfig>, start: Start, told: Seq<Seq<char>>)
    requires
        f.preset_given,
        f.theme_given,
        decided(f, cfg, start, told),
        start is Review,
    ensures
        keys_chosen(start->Review_0.keys, f.preset, cfg),
        start->Review_0.theme == theme_chosen(theme_named(f.theme)->0, cfg),
{
}

} // verus!
