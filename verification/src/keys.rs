//! Keys, the actions they stand for, the two presets that bind them, and the
//! help text that is made from a preset.

use crate::text::{
    chars_of, decimal, has_prefix, join, joined, number, pad_right, padded_right, parse_number, parsed_number, same,
    slice_string, split_words, starts_with, texts, trim, trimmed, words_of, is_space,
};
use vstd::prelude::*;

verus! {

/// The three panes, in focus-cycle order.
#[derive(Clone, Copy, PartialEq, Eq, Debug, Structural)]
pub enum Pane {
    List,
    Code,
    Why,
}

impl Pane {
    pub open spec fn after(self) -> Pane {
        match self {
            Pane::List => Pane::Code,
            Pane::Code => Pane::Why,
            Pane::Why => Pane::List,
        }
    }

    pub open spec fn before(self) -> Pane {
        match self {
            Pane::List => Pane::Why,
            Pane::Code => Pane::List,
            Pane::Why => Pane::Code,
        }
    }

    pub fn next(self) -> (r: Pane)
        ensures
            r == self.after(),
    {
        match self {
            Pane::List => Pane::Code,
            Pane::Code => Pane::Why,
            Pane::Why => Pane::List,
        }
    }

    pub fn prev(self) -> (r: Pane)
        ensures
            r == self.before(),
    {
        match self {
            Pane::List => Pane::Why,
            Pane::Code => Pane::List,
            Pane::Why => Pane::Code,
        }
    }
}

/// Focusing the next pane and the previous one undo each other, and three steps
/// lead around.
pub proof fn law_pane_cycle(p: Pane)
    ensures
        p.after().before() == p,
        p.before().after() == p,
        p.after().after().after() == p,
{
}

/// Which way a fold key moves the group under the selection.
#[derive(Clone, Copy, PartialEq, Eq, Debug, Structural)]
pub enum Fold {
    Toggle,
    Open,
    Close,
    OpenAll,
    CloseAll,
}

/// What a key can do.
#[derive(Clone, Copy, PartialEq, Eq, Debug, Structural)]
pub enum Action {
    Quit,
    Next,
    Prev,
    First,
    Last,
    ToggleReviewed,
    PageDown,
    PageUp,
    HalfDown,
    HalfUp,
    FocusNext,
    FocusPrev,
    Focus(Pane),
    CursorLeft,
    CursorRight,
    WordNext,
    WordPrev,
    WordEnd,
    /// the line's start in the code pane, the top elsewhere
    LineStart,
    /// the line's end in the code pane, the bottom elsewhere
    LineEnd,
    ParaPrev,
    ParaNext,
    /// the symbol under the cursor, in a popup
    Hover,
    /// open the text-search prompt
    SearchOpen,
    SymbolNext,
    SymbolPrev,
    SearchNext,
    SearchPrev,
    /// open the selected hunk's file in the editor
    OpenEditor,
    Help,
    /// open the command bar empty
    CommandOpen,
    /// open the command bar with `goto ` in it
    CommandGoto,
    /// jump to the target of the why pane's current dependency line
    JumpToEdge,
    /// return to where the last such jump was made from
    JumpBack,
    Fold(Fold),
    ScrollLeft,
    ScrollRight,
}

/// A key on the keyboard.
#[derive(Clone, Copy, PartialEq, Eq, Debug, Structural)]
pub enum KeyCode {
    Char(char),
    F(u8),
    Esc,
    Enter,
    Backspace,
    Tab,
    Up,
    Down,
    Left,
    Right,
    Home,
    End,
    PageUp,
    PageDown,
    /// a key that nothing can be bound to
    Other,
}

/// The modifiers held with a key; `other` stands for those that no binding
/// names.
#[derive(Clone, Copy, PartialEq, Eq, Debug, Structural)]
pub struct KeyModifiers {
    pub control: bool,
    pub shift: bool,
    pub alt: bool,
    pub other: bool,
}

pub type Key = (KeyCode, KeyModifiers);

/// The key that opens the chord, if it is one; the key; and its action.
pub type Bind = (Option<Key>, Key, Action);

#[verifier::allow_in_spec]
pub fn mods(control: bool, shift: bool, alt: bool) -> KeyModifiers
    returns
        (KeyModifiers { control, shift, alt, other: false }),
{
    KeyModifiers { control, shift, alt, other: false }
}

#[verifier::allow_in_spec]
pub fn ch(c: char) -> Key
    returns
        (KeyCode::Char(c), mods(false, false, false)),
{
    (KeyCode::Char(c), mods(false, false, false))
}

#[verifier::allow_in_spec]
pub fn ctrl(c: char) -> Key
    returns
        (KeyCode::Char(c), mods(true, false, false)),
{
    (KeyCode::Char(c), mods(true, false, false))
}

#[verifier::allow_in_spec]
pub fn plain(c: KeyCode) -> Key
    returns
        (c, mods(false, false, false)),
{
    (c, mods(false, false, false))
}

#[verifier::allow_in_spec]
pub fn ctrlk(c: KeyCode) -> Key
    returns
        (c, mods(true, false, false)),
{
    (c, mods(true, false, false))
}

/// A key as the tables name it: a character carries its own case, so shift is
/// dropped there.
#[verifier::allow_in_spec]
pub fn norm(code: KeyCode, held: KeyModifiers) -> Key
    returns
        (match code {
            KeyCode::Char(_) => (code, KeyModifiers { shift: false, ..held }),
            _ => (code, held),
        }),
{
    match code {
        KeyCode::Char(_) => (
            code,
            KeyModifiers {
                control: held.control,
                shift: false,
                alt: held.alt,
                other: held.other,
            },
        ),
        _ => (code, held),
    }
}

pub fn same_key(a: Key, b: Key) -> (r: bool)
    ensures
        r == (a == b),
{
    a.0 == b.0 && a.1 == b.1
}

pub fn same_prefix(a: Option<Key>, b: Option<Key>) -> (r: bool)
    ensures
        r == (a == b),
{
    match (a, b) {
        (Some(x), Some(y)) => same_key(x, y),
        (None, None) => true,
        _ => false,
    }
}

/// A named set of bindings, with the hint line that goes with it.
pub struct Keymap {
    pub name: &'static str,
    pub hint: &'static str,
    pub binds: Vec<Bind>,
}

/// What a key means at this point.
pub enum Resolve {
    Act(Action),
    /// the key opens a chord: hold it and wait for the next one
    Pending,
    Miss,
}

/// The first binding of `key` under `prefix`.
pub open spec fn bound(binds: Seq<Bind>, prefix: Option<Key>, key: Key) -> Option<Action>
    decreases binds.len(),
{
    if binds.len() == 0 {
        None
    } else {
        match bound(binds.drop_last(), prefix, key) {
            Some(a) => Some(a),
            None => if binds.last().0 == prefix && binds.last().1 == key {
                Some(binds.last().2)
            } else {
                None
            },
        }
    }
}

/// Whether some chord starts with `key`.
pub open spec fn opens_chord(binds: Seq<Bind>, key: Key) -> bool {
    exists|i: int| 0 <= i < binds.len() && (#[trigger] binds[i]).0 == Some(key)
}

/// What a key means: the second key of a chord is looked up as such and
/// nowhere else; a key that starts a chord waits; any other is looked up alone.
pub open spec fn resolved(binds: Seq<Bind>, pending: Option<Key>, key: Key) -> Resolve {
    if pending is None && opens_chord(binds, key) {
        Resolve::Pending
    } else {
        match bound(binds, pending, key) {
            Some(a) => Resolve::Act(a),
            None => Resolve::Miss,
        }
    }
}

impl Keymap {
    fn find(&self, prefix: Option<Key>, key: Key) -> (r: Option<Action>)
        ensures
            r == bound(self.binds@, prefix, key),
    {
        let mut found: Option<Action> = None;
        for i in 0..self.binds.len()
            invariant
                found == bound(self.binds@.take(i as int), prefix, key),
        {
            assert(self.binds@.take(i + 1).drop_last() == self.binds@.take(i as int));
            let (p, k, a) = self.binds[i];
            if found.is_none() && same_prefix(p, prefix) && same_key(k, key) {
                found = Some(a);
            }
        }
        assert(self.binds@.take(self.binds@.len() as int) == self.binds@);
        found
    }

    pub fn resolve(&self, pending: Option<Key>, key: Key) -> (r: Resolve)
        ensures
            r == resolved(self.binds@, pending, key),
    {
        if pending.is_none() {
            for i in 0..self.binds.len()
                invariant
                    pending is None,
                    forall|k: int| 0 <= k < i ==> (#[trigger] self.binds@[k]).0 != Some(key),
            {
                if same_prefix(self.binds[i].0, Some(key)) {
                    assert(self.binds@[i as int].0 == Some(key));
                    return Resolve::Pending;
                }
            }
        }
        match self.find(pending, key) {
            Some(a) => Resolve::Act(a),
            None => Resolve::Miss,
        }
    }
}


/// The `vim` preset.
pub open spec fn vim_binds() -> Seq<Bind> {
    seq![
        (None, ch('q'), Action::Quit),
        (None, plain(KeyCode::Esc), Action::Quit),
        (None, ch('?'), Action::Help),
        (None, ch(':'), Action::CommandOpen),
        (None, ch('j'), Action::Next),
        (None, plain(KeyCode::Down), Action::Next),
        (None, ch('k'), Action::Prev),
        (None, plain(KeyCode::Up), Action::Prev),
        (Some(ch('g')), ch('g'), Action::First),
        (None, ch('G'), Action::Last),
        (None, ch('x'), Action::ToggleReviewed),
        (None, ch(' '), Action::PageDown),
        (None, ch('f'), Action::PageDown),
        (None, ctrl('f'), Action::PageDown),
        (None, plain(KeyCode::PageDown), Action::PageDown),
        (None, ctrl('b'), Action::PageUp),
        (None, plain(KeyCode::PageUp), Action::PageUp),
        (None, ctrl('d'), Action::HalfDown),
        (None, ctrl('u'), Action::HalfUp),
        (Some(ctrl('w')), ctrl('w'), Action::FocusNext),
        (Some(ctrl('w')), ch('w'), Action::FocusNext),
        (Some(ctrl('w')), ch('W'), Action::FocusPrev),
        (Some(ctrl('w')), ch('p'), Action::FocusPrev),
        (Some(ctrl('w')), ch('h'), Action::Focus(Pane::List)),
        (Some(ctrl('w')), ch('l'), Action::Focus(Pane::Code)),
        (Some(ctrl('w')), ch('k'), Action::Focus(Pane::Code)),
        (Some(ctrl('w')), ch('j'), Action::Focus(Pane::Why)),
        (Some(ctrl('w')), plain(KeyCode::Left), Action::Focus(Pane::List)),
        (Some(ctrl('w')), plain(KeyCode::Right), Action::Focus(Pane::Code)),
        (Some(ctrl('w')), plain(KeyCode::Up), Action::Focus(Pane::Code)),
        (Some(ctrl('w')), plain(KeyCode::Down), Action::Focus(Pane::Why)),
        (None, ch('h'), Action::CursorLeft),
        (None, ch('l'), Action::CursorRight),
        (None, ch('w'), Action::WordNext),
        (None, ch('b'), Action::WordPrev),
        (None, ch('e'), Action::WordEnd),
        (None, ch('0'), Action::LineStart),
        (None, ch('$'), Action::LineEnd),
        (None, ch('{'), Action::ParaPrev),
        (None, ch('}'), Action::ParaNext),
        (Some(ch('z')), ch('h'), Action::ScrollLeft),
        (Some(ch('z')), ch('l'), Action::ScrollRight),
        (Some(ch('z')), ch('a'), Action::Fold(Fold::Toggle)),
        (Some(ch('z')), ch('o'), Action::Fold(Fold::Open)),
        (Some(ch('z')), ch('c'), Action::Fold(Fold::Close)),
        (Some(ch('z')), ch('R'), Action::Fold(Fold::OpenAll)),
        (Some(ch('z')), ch('M'), Action::Fold(Fold::CloseAll)),
        (None, ch('K'), Action::Hover),
        (None, ch('/'), Action::SearchOpen),
        (None, ch('*'), Action::SymbolNext),
        (None, ch('#'), Action::SymbolPrev),
        (None, ch('n'), Action::SearchNext),
        (None, ch('N'), Action::SearchPrev),
        (Some(ch('g')), ch('e'), Action::OpenEditor),
        (Some(ch('g')), ch('d'), Action::JumpToEdge),
        (None, plain(KeyCode::Enter), Action::JumpToEdge),
        (None, ctrl('o'), Action::JumpBack),
    ]
}

/// The hint line of the `vim` preset.
pub open spec fn vim_hint() -> Seq<char> {
    "j/k move · h/l/w/b/e/0/$ cursor · zh/zl hscroll · K symbol/dep · / search · */# sym-occ · n/N cycle · gd/Enter jump-dep · C-o back · ge edit · : cmd · ? help · q quit"@
}

fn vim_table() -> (r: Vec<Bind>)
    ensures
        r@ == vim_binds(),
{
    let table: Vec<Bind> = vec![
        (None, ch('q'), Action::Quit),
        (None, plain(KeyCode::Esc), Action::Quit),
        (None, ch('?'), Action::Help),
        (None, ch(':'), Action::CommandOpen),
        (None, ch('j'), Action::Next),
        (None, plain(KeyCode::Down), Action::Next),
        (None, ch('k'), Action::Prev),
        (None, plain(KeyCode::Up), Action::Prev),
        (Some(ch('g')), ch('g'), Action::First),
        (None, ch('G'), Action::Last),
        (None, ch('x'), Action::ToggleReviewed),
        (None, ch(' '), Action::PageDown),
        (None, ch('f'), Action::PageDown),
        (None, ctrl('f'), Action::PageDown),
        (None, plain(KeyCode::PageDown), Action::PageDown),
        (None, ctrl('b'), Action::PageUp),
        (None, plain(KeyCode::PageUp), Action::PageUp),
        (None, ctrl('d'), Action::HalfDown),
        (None, ctrl('u'), Action::HalfUp),
        (Some(ctrl('w')), ctrl('w'), Action::FocusNext),
        (Some(ctrl('w')), ch('w'), Action::FocusNext),
        (Some(ctrl('w')), ch('W'), Action::FocusPrev),
        (Some(ctrl('w')), ch('p'), Action::FocusPrev),
        (Some(ctrl('w')), ch('h'), Action::Focus(Pane::List)),
        (Some(ctrl('w')), ch('l'), Action::Focus(Pane::Code)),
        (Some(ctrl('w')), ch('k'), Action::Focus(Pane::Code)),
        (Some(ctrl('w')), ch('j'), Action::Focus(Pane::Why)),
        (Some(ctrl('w')), plain(KeyCode::Left), Action::Focus(Pane::List)),
        (Some(ctrl('w')), plain(KeyCode::Right), Action::Focus(Pane::Code)),
        (Some(ctrl('w')), plain(KeyCode::Up), Action::Focus(Pane::Code)),
        (Some(ctrl('w')), plain(KeyCode::Down), Action::Focus(Pane::Why)),
        (None, ch('h'), Action::CursorLeft),
        (None, ch('l'), Action::CursorRight),
        (None, ch('w'), Action::WordNext),
        (None, ch('b'), Action::WordPrev),
        (None, ch('e'), Action::WordEnd),
        (None, ch('0'), Action::LineStart),
        (None, ch('$'), Action::LineEnd),
        (None, ch('{'), Action::ParaPrev),
        (None, ch('}'), Action::ParaNext),
        (Some(ch('z')), ch('h'), Action::ScrollLeft),
        (Some(ch('z')), ch('l'), Action::ScrollRight),
        (Some(ch('z')), ch('a'), Action::Fold(Fold::Toggle)),
        (Some(ch('z')), ch('o'), Action::Fold(Fold::Open)),
        (Some(ch('z')), ch('c'), Action::Fold(Fold::Close)),
        (Some(ch('z')), ch('R'), Action::Fold(Fold::OpenAll)),
        (Some(ch('z')), ch('M'), Action::Fold(Fold::CloseAll)),
        (None, ch('K'), Action::Hover),
        (None, ch('/'), Action::SearchOpen),
        (None, ch('*'), Action::SymbolNext),
        (None, ch('#'), Action::SymbolPrev),
        (None, ch('n'), Action::SearchNext),
        (None, ch('N'), Action::SearchPrev),
        (Some(ch('g')), ch('e'), Action::OpenEditor),
        (Some(ch('g')), ch('d'), Action::JumpToEdge),
        (None, plain(KeyCode::Enter), Action::JumpToEdge),
        (None, ctrl('o'), Action::JumpBack),
    ];
    assert(table@ =~= vim_binds());
    table
}


/// The `vscode` preset.
pub open spec fn vscode_binds() -> Seq<Bind> {
    seq![
        (None, ctrl('q'), Action::Quit),
        (None, plain(KeyCode::Esc), Action::Quit),
        (None, plain(KeyCode::F(1)), Action::Help),
        (None, ctrl('P'), Action::CommandOpen),
        (None, ctrl('p'), Action::CommandGoto),
        (None, plain(KeyCode::Down), Action::Next),
        (None, plain(KeyCode::Up), Action::Prev),
        (None, ch(' '), Action::ToggleReviewed),
        (None, plain(KeyCode::Enter), Action::ToggleReviewed),
        (None, plain(KeyCode::PageDown), Action::PageDown),
        (None, plain(KeyCode::PageUp), Action::PageUp),
        (None, plain(KeyCode::F(6)), Action::FocusNext),
        (None, (KeyCode::F(6), mods(false, true, false)), Action::FocusPrev),
        (None, ctrl('1'), Action::Focus(Pane::List)),
        (None, ctrl('2'), Action::Focus(Pane::Code)),
        (None, ctrl('3'), Action::Focus(Pane::Why)),
        (None, plain(KeyCode::Left), Action::CursorLeft),
        (None, plain(KeyCode::Right), Action::CursorRight),
        (None, ctrlk(KeyCode::Right), Action::WordNext),
        (None, ctrlk(KeyCode::Left), Action::WordPrev),
        (None, plain(KeyCode::Home), Action::LineStart),
        (None, plain(KeyCode::End), Action::LineEnd),
        (None, (KeyCode::Left, mods(false, true, false)), Action::ScrollLeft),
        (None, (KeyCode::Right, mods(false, true, false)), Action::ScrollRight),
        (Some(ctrl('k')), ctrl('l'), Action::Fold(Fold::Toggle)),
        (Some(ctrl('k')), ctrl('0'), Action::Fold(Fold::CloseAll)),
        (Some(ctrl('k')), ctrl('j'), Action::Fold(Fold::OpenAll)),
        (None, plain(KeyCode::F(12)), Action::Hover),
        (None, ctrl('f'), Action::SearchOpen),
        (None, plain(KeyCode::F(3)), Action::SearchNext),
        (None, (KeyCode::F(3), mods(false, true, false)), Action::SearchPrev),
        (None, ctrlk(KeyCode::F(12)), Action::SymbolNext),
        (None, (KeyCode::F(12), mods(true, true, false)), Action::SymbolPrev),
        (None, ctrl('o'), Action::OpenEditor),
        (None, (KeyCode::Enter, mods(true, false, false)), Action::JumpToEdge),
        (None, (KeyCode::Left, mods(false, false, true)), Action::JumpBack),
    ]
}

/// The hint line of the `vscode` preset.
pub open spec fn vscode_hint() -> Seq<char> {
    "↑/↓ move · ←/→/C-←/C-→ cursor · S-←/S-→ hscroll · F12 symbol/dep · C-f search · F3 next · C-Enter jump-dep · A-← back · C-o edit · C-Shift-P cmd · F1 help · C-q quit"@
}

fn vscode_table() -> (r: Vec<Bind>)
    ensures
        r@ == vscode_binds(),
{
    let table: Vec<Bind> = vec![
        (None, ctrl('q'), Action::Quit),
        (None, plain(KeyCode::Esc), Action::Quit),
        (None, plain(KeyCode::F(1)), Action::Help),
        (None, ctrl('P'), Action::CommandOpen),
        (None, ctrl('p'), Action::CommandGoto),
        (None, plain(KeyCode::Down), Action::Next),
        (None, plain(KeyCode::Up), Action::Prev),
        (None, ch(' '), Action::ToggleReviewed),
        (None, plain(KeyCode::Enter), Action::ToggleReviewed),
        (None, plain(KeyCode::PageDown), Action::PageDown),
        (None, plain(KeyCode::PageUp), Action::PageUp),
        (None, plain(KeyCode::F(6)), Action::FocusNext),
        (None, (KeyCode::F(6), mods(false, true, false)), Action::FocusPrev),
        (None, ctrl('1'), Action::Focus(Pane::List)),
        (None, ctrl('2'), Action::Focus(Pane::Code)),
        (None, ctrl('3'), Action::Focus(Pane::Why)),
        (None, plain(KeyCode::Left), Action::CursorLeft),
        (None, plain(KeyCode::Right), Action::CursorRight),
        (None, ctrlk(KeyCode::Right), Action::WordNext),
        (None, ctrlk(KeyCode::Left), Action::WordPrev),
        (None, plain(KeyCode::Home), Action::LineStart),
        (None, plain(KeyCode::End), Action::LineEnd),
        (None, (KeyCode::Left, mods(false, true, false)), Action::ScrollLeft),
        (None, (KeyCode::Right, mods(false, true, false)), Action::ScrollRight),
        (Some(ctrl('k')), ctrl('l'), Action::Fold(Fold::Toggle)),
        (Some(ctrl('k')), ctrl('0'), Action::Fold(Fold::CloseAll)),
        (Some(ctrl('k')), ctrl('j'), Action::Fold(Fold::OpenAll)),
        (None, plain(KeyCode::F(12)), Action::Hover),
        (None, ctrl('f'), Action::SearchOpen),
        (None, plain(KeyCode::F(3)), Action::SearchNext),
        (None, (KeyCode::F(3), mods(false, true, false)), Action::SearchPrev),
        (None, ctrlk(KeyCode::F(12)), Action::SymbolNext),
        (None, (KeyCode::F(12), mods(true, true, false)), Action::SymbolPrev),
        (None, ctrl('o'), Action::OpenEditor),
        (None, (KeyCode::Enter, mods(true, false, false)), Action::JumpToEdge),
        (None, (KeyCode::Left, mods(false, false, true)), Action::JumpBack),
    ];
    assert(table@ =~= vscode_binds());
    table
}


/// Whether a set of bindings is the preset of a name.
pub open spec fn is_preset(km: Keymap, name: Seq<char>) -> bool {
    km.name@ == name && ((name == "vim"@ && km.binds@ == vim_binds() && km.hint@ == vim_hint()) || (name == "vscode"@
        && km.binds@ == vscode_binds() && km.hint@ == vscode_hint()))
}

/// The preset of that name.
pub fn keymap(name: &str) -> (r: Option<Keymap>)
    ensures
        match r {
            Some(km) => is_preset(km, name@),
            None => name@ != "vim"@ && name@ != "vscode"@,
        },
{
    if same(name, "vim") {
        Some(
            Keymap {
                name: "vim",
                hint: "j/k move · h/l/w/b/e/0/$ cursor · zh/zl hscroll · K symbol/dep · / search · */# sym-occ · n/N cycle · gd/Enter jump-dep · C-o back · ge edit · : cmd · ? help · q quit",
                binds: vim_table(),
            },
        )
    } else if same(name, "vscode") {
        Some(
            Keymap {
                name: "vscode",
                hint: "↑/↓ move · ←/→/C-←/C-→ cursor · S-←/S-→ hscroll · F12 symbol/dep · C-f search · F3 next · C-Enter jump-dep · A-← back · C-o edit · C-Shift-P cmd · F1 help · C-q quit",
                binds: vscode_table(),
            },
        )
    } else {
        None
    }
}


/// Where the `vim` preset binds a chord.
spec fn vim_place(prefix: Option<Key>, key: Key) -> int {
    if prefix == Option::<Key>::None && key == ch('q') {
        0
    } else if prefix == Option::<Key>::None && key == plain(KeyCode::Esc) {
        1
    } else if prefix == Option::<Key>::None && key == ch('?') {
        2
    } else if prefix == Option::<Key>::None && key == ch(':') {
        3
    } else if prefix == Option::<Key>::None && key == ch('j') {
        4
    } else if prefix == Option::<Key>::None && key == plain(KeyCode::Down) {
        5
    } else if prefix == Option::<Key>::None && key == ch('k') {
        6
    } else if prefix == Option::<Key>::None && key == plain(KeyCode::Up) {
        7
    } else if prefix == Some(ch('g')) && key == ch('g') {
        8
    } else if prefix == Option::<Key>::None && key == ch('G') {
        9
    } else if prefix == Option::<Key>::None && key == ch('x') {
        10
    } else if prefix == Option::<Key>::None && key == ch(' ') {
        11
    } else if prefix == Option::<Key>::None && key == ch('f') {
        12
    } else if prefix == Option::<Key>::None && key == ctrl('f') {
        13
    } else if prefix == Option::<Key>::None && key == plain(KeyCode::PageDown) {
        14
    } else if prefix == Option::<Key>::None && key == ctrl('b') {
        15
    } else if prefix == Option::<Key>::None && key == plain(KeyCode::PageUp) {
        16
    } else if prefix == Option::<Key>::None && key == ctrl('d') {
        17
    } else if prefix == Option::<Key>::None && key == ctrl('u') {
        18
    } else if prefix == Some(ctrl('w')) && key == ctrl('w') {
        19
    } else if prefix == Some(ctrl('w')) && key == ch('w') {
        20
    } else if prefix == Some(ctrl('w')) && key == ch('W') {
        21
    } else if prefix == Some(ctrl('w')) && key == ch('p') {
        22
    } else if prefix == Some(ctrl('w')) && key == ch('h') {
        23
    } else if prefix == Some(ctrl('w')) && key == ch('l') {
        24
    } else if prefix == Some(ctrl('w')) && key == ch('k') {
        25
    } else if prefix == Some(ctrl('w')) && key == ch('j') {
        26
    } else if prefix == Some(ctrl('w')) && key == plain(KeyCode::Left) {
        27
    } else if prefix == Some(ctrl('w')) && key == plain(KeyCode::Right) {
        28
    } else if prefix == Some(ctrl('w')) && key == plain(KeyCode::Up) {
        29
    } else if prefix == Some(ctrl('w')) && key == plain(KeyCode::Down) {
        30
    } else if prefix == Option::<Key>::None && key == ch('h') {
        31
    } else if prefix == Option::<Key>::None && key == ch('l') {
        32
    } else if prefix == Option::<Key>::None && key == ch('w') {
        33
    } else if prefix == Option::<Key>::None && key == ch('b') {
        34
    } else if prefix == Option::<Key>::None && key == ch('e') {
        35
    } else if prefix == Option::<Key>::None && key == ch('0') {
        36
    } else if prefix == Option::<Key>::None && key == ch('$') {
        37
    } else if prefix == Option::<Key>::None && key == ch('{') {
        38
    } else if prefix == Option::<Key>::None && key == ch('}') {
        39
    } else if prefix == Some(ch('z')) && key == ch('h') {
        40
    } else if prefix == Some(ch('z')) && key == ch('l') {
        41
    } else if prefix == Some(ch('z')) && key == ch('a') {
        42
    } else if prefix == Some(ch('z')) && key == ch('o') {
        43
    } else if prefix == Some(ch('z')) && key == ch('c') {
        44
    } else if prefix == Some(ch('z')) && key == ch('R') {
        45
    } else if prefix == Some(ch('z')) && key == ch('M') {
        46
    } else if prefix == Option::<Key>::None && key == ch('K') {
        47
    } else if prefix == Option::<Key>::None && key == ch('/') {
        48
    } else if prefix == Option::<Key>::None && key == ch('*') {
        49
    } else if prefix == Option::<Key>::None && key == ch('#') {
        50
    } else if prefix == Option::<Key>::None && key == ch('n') {
        51
    } else if prefix == Option::<Key>::None && key == ch('N') {
        52
    } else if prefix == Some(ch('g')) && key == ch('e') {
        53
    } else if prefix == Some(ch('g')) && key == ch('d') {
        54
    } else if prefix == Option::<Key>::None && key == plain(KeyCode::Enter) {
        55
    } else if prefix == Option::<Key>::None && key == ctrl('o') {
        56
    } else {
        -1
    }
}

proof fn lemma_vim_places()
    ensures
        forall|i: int|
            0 <= i < vim_binds().len() ==> vim_place((#[trigger] vim_binds()[i]).0, vim_binds()[i].1) == i,
{
    let b = vim_binds();
    assert(vim_place(b[0].0, b[0].1) == 0);
    assert(vim_place(b[1].0, b[1].1) == 1);
    assert(vim_place(b[2].0, b[2].1) == 2);
    assert(vim_place(b[3].0, b[3].1) == 3);
    assert(vim_place(b[4].0, b[4].1) == 4);
    assert(vim_place(b[5].0, b[5].1) == 5);
    assert(vim_place(b[6].0, b[6].1) == 6);
    assert(vim_place(b[7].0, b[7].1) == 7);
    assert(vim_place(b[8].0, b[8].1) == 8);
    assert(vim_place(b[9].0, b[9].1) == 9);
    assert(vim_place(b[10].0, b[10].1) == 10);
    assert(vim_place(b[11].0, b[11].1) == 11);
    assert(vim_place(b[12].0, b[12].1) == 12);
    assert(vim_place(b[13].0, b[13].1) == 13);
    assert(vim_place(b[14].0, b[14].1) == 14);
    assert(vim_place(b[15].0, b[15].1) == 15);
    assert(vim_place(b[16].0, b[16].1) == 16);
    assert(vim_place(b[17].0, b[17].1) == 17);
    assert(vim_place(b[18].0, b[18].1) == 18);
    assert(vim_place(b[19].0, b[19].1) == 19);
    assert(vim_place(b[20].0, b[20].1) == 20);
    assert(vim_place(b[21].0, b[21].1) == 21);
    assert(vim_place(b[22].0, b[22].1) == 22);
    assert(vim_place(b[23].0, b[23].1) == 23);
    assert(vim_place(b[24].0, b[24].1) == 24);
    assert(vim_place(b[25].0, b[25].1) == 25);
    assert(vim_place(b[26].0, b[26].1) == 26);
    assert(vim_place(b[27].0, b[27].1) == 27);
    assert(vim_place(b[28].0, b[28].1) == 28);
    assert(vim_place(b[29].0, b[29].1) == 29);
    assert(vim_place(b[30].0, b[30].1) == 30);
    assert(vim_place(b[31].0, b[31].1) == 31);
    assert(vim_place(b[32].0, b[32].1) == 32);
    assert(vim_place(b[33].0, b[33].1) == 33);
    assert(vim_place(b[34].0, b[34].1) == 34);
    assert(vim_place(b[35].0, b[35].1) == 35);
    assert(vim_place(b[36].0, b[36].1) == 36);
    assert(vim_place(b[37].0, b[37].1) == 37);
    assert(vim_place(b[38].0, b[38].1) == 38);
    assert(vim_place(b[39].0, b[39].1) == 39);
    assert(vim_place(b[40].0, b[40].1) == 40);
    assert(vim_place(b[41].0, b[41].1) == 41);
    assert(vim_place(b[42].0, b[42].1) == 42);
    assert(vim_place(b[43].0, b[43].1) == 43);
    assert(vim_place(b[44].0, b[44].1) == 44);
    assert(vim_place(b[45].0, b[45].1) == 45);
    assert(vim_place(b[46].0, b[46].1) == 46);
    assert(vim_place(b[47].0, b[47].1) == 47);
    assert(vim_place(b[48].0, b[48].1) == 48);
    assert(vim_place(b[49].0, b[49].1) == 49);
    assert(vim_place(b[50].0, b[50].1) == 50);
    assert(vim_place(b[51].0, b[51].1) == 51);
    assert(vim_place(b[52].0, b[52].1) == 52);
    assert(vim_place(b[53].0, b[53].1) == 53);
    assert(vim_place(b[54].0, b[54].1) == 54);
    assert(vim_place(b[55].0, b[55].1) == 55);
    assert(vim_place(b[56].0, b[56].1) == 56);
}


/// Where the `vscode` preset binds a chord.
spec fn vscode_place(prefix: Option<Key>, key: Key) -> int {
    if prefix == Option::<Key>::None && key == ctrl('q') {
        0
    } else if prefix == Option::<Key>::None && key == plain(KeyCode::Esc) {
        1
    } else if prefix == Option::<Key>::None && key == plain(KeyCode::F(1)) {
        2
    } else if prefix == Option::<Key>::None && key == ctrl('P') {
        3
    } else if prefix == Option::<Key>::None && key == ctrl('p') {
        4
    } else if prefix == Option::<Key>::None && key == plain(KeyCode::Down) {
        5
    } else if prefix == Option::<Key>::None && key == plain(KeyCode::Up) {
        6
    } else if prefix == Option::<Key>::None && key == ch(' ') {
        7
    } else if prefix == Option::<Key>::None && key == plain(KeyCode::Enter) {
        8
    } else if prefix == Option::<Key>::None && key == plain(KeyCode::PageDown) {
        9
    } else if prefix == Option::<Key>::None && key == plain(KeyCode::PageUp) {
        10
    } else if prefix == Option::<Key>::None && key == plain(KeyCode::F(6)) {
        11
    } else if prefix == Option::<Key>::None && key == (KeyCode::F(6), mods(false, true, false)) {
        12
    } else if prefix == Option::<Key>::None && key == ctrl('1') {
        13
    } else if prefix == Option::<Key>::None && key == ctrl('2') {
        14
    } else if prefix == Option::<Key>::None && key == ctrl('3') {
        15
    } else if prefix == Option::<Key>::None && key == plain(KeyCode::Left) {
        16
    } else if prefix == Option::<Key>::None && key == plain(KeyCode::Right) {
        17
    } else if prefix == Option::<Key>::None && key == ctrlk(KeyCode::Right) {
        18
    } else if prefix == Option::<Key>::None && key == ctrlk(KeyCode::Left) {
        19
    } else if prefix == Option::<Key>::None && key == plain(KeyCode::Home) {
        20
    } else if prefix == Option::<Key>::None && key == plain(KeyCode::End) {
        21
    } else if prefix == Option::<Key>::None && key == (KeyCode::Left, mods(false, true, false)) {
        22
    } else if prefix == Option::<Key>::None && key == (KeyCode::Right, mods(false, true, false)) {
        23
    } else if prefix == Some(ctrl('k')) && key == ctrl('l') {
        24
    } else if prefix == Some(ctrl('k')) && key == ctrl('0') {
        25
    } else if prefix == Some(ctrl('k')) && key == ctrl('j') {
        26
    } else if prefix == Option::<Key>::None && key == plain(KeyCode::F(12)) {
        27
    } else if prefix == Option::<Key>::None && key == ctrl('f') {
        28
    } else if prefix == Option::<Key>::None && key == plain(KeyCode::F(3)) {
        29
    } else if prefix == Option::<Key>::None && key == (KeyCode::F(3), mods(false, true, false)) {
        30
    } else if prefix == Option::<Key>::None && key == ctrlk(KeyCode::F(12)) {
        31
    } else if prefix == Option::<Key>::None && key == (KeyCode::F(12), mods(true, true, false)) {
        32
    } else if prefix == Option::<Key>::None && key == ctrl('o') {
        33
    } else if prefix == Option::<Key>::None && key == (KeyCode::Enter, mods(true, false, false)) {
        34
    } else if prefix == Option::<Key>::None && key == (KeyCode::Left, mods(false, false, true)) {
        35
    } else {
        -1
    }
}

proof fn lemma_vscode_places()
    ensures
        forall|i: int|
            0 <= i < vscode_binds().len() ==> vscode_place((#[trigger] vscode_binds()[i]).0, vscode_binds()[i].1) == i,
{
    let b = vscode_binds();
    assert(vscode_place(b[0].0, b[0].1) == 0);
    assert(vscode_place(b[1].0, b[1].1) == 1);
    assert(vscode_place(b[2].0, b[2].1) == 2);
    assert(vscode_place(b[3].0, b[3].1) == 3);
    assert(vscode_place(b[4].0, b[4].1) == 4);
    assert(vscode_place(b[5].0, b[5].1) == 5);
    assert(vscode_place(b[6].0, b[6].1) == 6);
    assert(vscode_place(b[7].0, b[7].1) == 7);
    assert(vscode_place(b[8].0, b[8].1) == 8);
    assert(vscode_place(b[9].0, b[9].1) == 9);
    assert(vscode_place(b[10].0, b[10].1) == 10);
    assert(vscode_place(b[11].0, b[11].1) == 11);
    assert(vscode_place(b[12].0, b[12].1) == 12);
    assert(vscode_place(b[13].0, b[13].1) == 13);
    assert(vscode_place(b[14].0, b[14].1) == 14);
    assert(vscode_place(b[15].0, b[15].1) == 15);
    assert(vscode_place(b[16].0, b[16].1) == 16);
    assert(vscode_place(b[17].0, b[17].1) == 17);
    assert(vscode_place(b[18].0, b[18].1) == 18);
    assert(vscode_place(b[19].0, b[19].1) == 19);
    assert(vscode_place(b[20].0, b[20].1) == 20);
    assert(vscode_place(b[21].0, b[21].1) == 21);
    assert(vscode_place(b[22].0, b[22].1) == 22);
    assert(vscode_place(b[23].0, b[23].1) == 23);
    assert(vscode_place(b[24].0, b[24].1) == 24);
    assert(vscode_place(b[25].0, b[25].1) == 25);
    assert(vscode_place(b[26].0, b[26].1) == 26);
    assert(vscode_place(b[27].0, b[27].1) == 27);
    assert(vscode_place(b[28].0, b[28].1) == 28);
    assert(vscode_place(b[29].0, b[29].1) == 29);
    assert(vscode_place(b[30].0, b[30].1) == 30);
    assert(vscode_place(b[31].0, b[31].1) == 31);
    assert(vscode_place(b[32].0, b[32].1) == 32);
    assert(vscode_place(b[33].0, b[33].1) == 33);
    assert(vscode_place(b[34].0, b[34].1) == 34);
    assert(vscode_place(b[35].0, b[35].1) == 35);
}


/// Whether no two bindings answer to the same chord.
pub open spec fn chords_differ(binds: Seq<Bind>) -> bool {
    forall|i: int, j: int|
        0 <= i < j < binds.len() ==> (#[trigger] binds[i]).0 != (#[trigger] binds[j]).0 || binds[i].1
            != binds[j].1
}

/// No preset binds a chord twice, so no binding is shadowed.
pub proof fn law_no_preset_binds_a_chord_twice()
    ensures
        chords_differ(vim_binds()),
        chords_differ(vscode_binds()),
{
    lemma_vim_places();
    lemma_vscode_places();
}

proof fn lemma_bound_unique(binds: Seq<Bind>, i: int)
    requires
        chords_differ(binds),
        0 <= i < binds.len(),
    ensures
        bound(binds, binds[i].0, binds[i].1) == Some(binds[i].2),
    decreases binds.len(),
{
    let rest = binds.drop_last();
    if i < rest.len() {
        assert(chords_differ(rest)) by {
            assert forall|a: int, b: int| 0 <= a < b < rest.len() implies (#[trigger] rest[a]).0 != (
            #[trigger] rest[b]).0 || rest[a].1 != rest[b].1 by {
                assert(binds[a] == rest[a] && binds[b] == rest[b]);
            }
        }
        assert(rest[i] == binds[i]);
        lemma_bound_unique(rest, i);
    } else {
        lemma_bound_none(binds, rest.len() as int);
        assert(binds.take(rest.len() as int) == rest);
    }
}

proof fn lemma_bound_none(binds: Seq<Bind>, n: int)
    requires
        chords_differ(binds),
        0 <= n < binds.len(),
    ensures
        bound(binds.take(n), binds.last().0, binds.last().1) is None,
    decreases n,
{
    if n > 0 {
        lemma_bound_none(binds, n - 1);
        assert(binds.take(n).drop_last() == binds.take(n - 1));
        assert(binds[n - 1] == binds.take(n).last());
        assert(binds[binds.len() - 1] == binds.last());
    }
}

/// Where chords differ, every binding can be reached: its chord means its own
/// action.
pub proof fn law_every_binding_can_be_reached(binds: Seq<Bind>, i: int)
    requires
        chords_differ(binds),
        0 <= i < binds.len(),
    ensures
        bound(binds, binds[i].0, binds[i].1) == Some(binds[i].2),
{
    lemma_bound_unique(binds, i);
}

/// The sections of the key help.
#[derive(Clone, Copy, PartialEq, Eq, Debug, Structural)]
pub enum Category {
    General,
    Navigation,
    Panes,
    Search,
    Review,
    Editor,
    Help,
}

pub open spec fn category_text(c: Category) -> Seq<char> {
    match c {
        Category::General => "general"@,
        Category::Navigation => "navigation"@,
        Category::Panes => "panes"@,
        Category::Search => "search"@,
        Category::Review => "review"@,
        Category::Editor => "editor"@,
        Category::Help => "help"@,
    }
}

pub fn category_label(c: Category) -> (r: &'static str)
    ensures
        r@ == category_text(c),
{
    match c {
        Category::General => "general",
        Category::Navigation => "navigation",
        Category::Panes => "panes",
        Category::Search => "search",
        Category::Review => "review",
        Category::Editor => "editor",
        Category::Help => "help",
    }
}


/// The section and the sentence of the key help for an action.
pub open spec fn help_of(a: Action) -> (Category, Seq<char>) {
    match a {
        Action::Quit => (Category::General, "quit (or dismiss an open popup or search)"@),
        Action::Next => (Category::Navigation, "next item / move cursor down"@),
        Action::Prev => (Category::Navigation, "previous item / move cursor up"@),
        Action::First => (Category::Navigation, "jump to the first item / top"@),
        Action::Last => (Category::Navigation, "jump to the last item / bottom"@),
        Action::ToggleReviewed => (Category::Review, "toggle reviewed on the selected hunk"@),
        Action::PageDown => (Category::Navigation, "page down"@),
        Action::PageUp => (Category::Navigation, "page up"@),
        Action::HalfDown => (Category::Navigation, "half-page down"@),
        Action::HalfUp => (Category::Navigation, "half-page up"@),
        Action::FocusNext => (Category::Panes, "focus the next pane"@),
        Action::FocusPrev => (Category::Panes, "focus the previous pane"@),
        Action::Focus(Pane::List) => (Category::Panes, "focus the reading-order pane"@),
        Action::Focus(Pane::Code) => (Category::Panes, "focus the code pane"@),
        Action::Focus(Pane::Why) => (Category::Panes, "focus the why pane"@),
        Action::CursorLeft => (Category::Navigation, "move the code cursor left"@),
        Action::CursorRight => (Category::Navigation, "move the code cursor right"@),
        Action::WordNext => (Category::Navigation, "move the code cursor to the next word"@),
        Action::WordPrev => (Category::Navigation, "move the code cursor to the previous word"@),
        Action::WordEnd => (Category::Navigation, "move the code cursor to the end of the word"@),
        Action::LineStart => (Category::Navigation, "move to line start / pane top"@),
        Action::LineEnd => (Category::Navigation, "move to line end / pane bottom"@),
        Action::ParaPrev => (Category::Navigation, "jump to the previous blank line"@),
        Action::ParaNext => (Category::Navigation, "jump to the next blank line"@),
        Action::Fold(Fold::Toggle) => (Category::Review, "fold/unfold the selected hunk's group"@),
        Action::Fold(Fold::Open) => (Category::Review, "unfold the selected hunk's group"@),
        Action::Fold(Fold::Close) => (Category::Review, "fold the selected hunk's group"@),
        Action::Fold(Fold::OpenAll) => (Category::Review, "unfold every group"@),
        Action::Fold(Fold::CloseAll) => (Category::Review, "fold every group"@),
        Action::ScrollLeft => (Category::Navigation, "scroll the code pane (or an open popup) left"@),
        Action::ScrollRight => (Category::Navigation, "scroll the code pane (or an open popup) right"@),
        Action::Hover => (Category::Editor, "code pane: show the symbol under the cursor and its history · why pane: preview the current dep line's target"@),
        Action::SearchOpen => (Category::Search, "open the text-search prompt"@),
        Action::SymbolNext => (Category::Search, "next occurrence of the symbol under the cursor"@),
        Action::SymbolPrev => (Category::Search, "previous occurrence of the symbol under the cursor"@),
        Action::SearchNext => (Category::Search, "cycle to the next match"@),
        Action::SearchPrev => (Category::Search, "cycle to the previous match"@),
        Action::OpenEditor => (Category::Editor, "open the selected hunk's file in $VISUAL/$EDITOR"@),
        Action::JumpToEdge => (Category::Navigation, "why pane: jump to the current dep line's target hunk"@),
        Action::JumpBack => (Category::Navigation, "jump back to the position before the last dep jump"@),
        Action::Help => (Category::Help, "show this keybinding help"@),
        Action::CommandOpen => (Category::General, "open the command bar (:only-comments, :all, :filter, :keys, :strategy, :goto, :quickfix, :help, :q)"@),
        Action::CommandGoto => (Category::General, "open the command bar pre-filled with `goto `"@),
    }
}

pub fn action_help(a: Action) -> (r: (Category, &'static str))
    ensures
        r.0 == help_of(a).0,
        r.1@ == help_of(a).1,
{
    match a {
        Action::Quit => (Category::General, "quit (or dismiss an open popup or search)"),
        Action::Next => (Category::Navigation, "next item / move cursor down"),
        Action::Prev => (Category::Navigation, "previous item / move cursor up"),
        Action::First => (Category::Navigation, "jump to the first item / top"),
        Action::Last => (Category::Navigation, "jump to the last item / bottom"),
        Action::ToggleReviewed => (Category::Review, "toggle reviewed on the selected hunk"),
        Action::PageDown => (Category::Navigation, "page down"),
        Action::PageUp => (Category::Navigation, "page up"),
        Action::HalfDown => (Category::Navigation, "half-page down"),
        Action::HalfUp => (Category::Navigation, "half-page up"),
        Action::FocusNext => (Category::Panes, "focus the next pane"),
        Action::FocusPrev => (Category::Panes, "focus the previous pane"),
        Action::Focus(Pane::List) => (Category::Panes, "focus the reading-order pane"),
        Action::Focus(Pane::Code) => (Category::Panes, "focus the code pane"),
        Action::Focus(Pane::Why) => (Category::Panes, "focus the why pane"),
        Action::CursorLeft => (Category::Navigation, "move the code cursor left"),
        Action::CursorRight => (Category::Navigation, "move the code cursor right"),
        Action::WordNext => (Category::Navigation, "move the code cursor to the next word"),
        Action::WordPrev => (Category::Navigation, "move the code cursor to the previous word"),
        Action::WordEnd => (Category::Navigation, "move the code cursor to the end of the word"),
        Action::LineStart => (Category::Navigation, "move to line start / pane top"),
        Action::LineEnd => (Category::Navigation, "move to line end / pane bottom"),
        Action::ParaPrev => (Category::Navigation, "jump to the previous blank line"),
        Action::ParaNext => (Category::Navigation, "jump to the next blank line"),
        Action::Fold(Fold::Toggle) => (Category::Review, "fold/unfold the selected hunk's group"),
        Action::Fold(Fold::Open) => (Category::Review, "unfold the selected hunk's group"),
        Action::Fold(Fold::Close) => (Category::Review, "fold the selected hunk's group"),
        Action::Fold(Fold::OpenAll) => (Category::Review, "unfold every group"),
        Action::Fold(Fold::CloseAll) => (Category::Review, "fold every group"),
        Action::ScrollLeft => (Category::Navigation, "scroll the code pane (or an open popup) left"),
        Action::ScrollRight => (Category::Navigation, "scroll the code pane (or an open popup) right"),
        Action::Hover => (Category::Editor, "code pane: show the symbol under the cursor and its history · why pane: preview the current dep line's target"),
        Action::SearchOpen => (Category::Search, "open the text-search prompt"),
        Action::SymbolNext => (Category::Search, "next occurrence of the symbol under the cursor"),
        Action::SymbolPrev => (Category::Search, "previous occurrence of the symbol under the cursor"),
        Action::SearchNext => (Category::Search, "cycle to the next match"),
        Action::SearchPrev => (Category::Search, "cycle to the previous match"),
        Action::OpenEditor => (Category::Editor, "open the selected hunk's file in $VISUAL/$EDITOR"),
        Action::JumpToEdge => (Category::Navigation, "why pane: jump to the current dep line's target hunk"),
        Action::JumpBack => (Category::Navigation, "jump back to the position before the last dep jump"),
        Action::Help => (Category::Help, "show this keybinding help"),
        Action::CommandOpen => (Category::General, "open the command bar (:only-comments, :all, :filter, :keys, :strategy, :goto, :quickfix, :help, :q)"),
        Action::CommandGoto => (Category::General, "open the command bar pre-filled with `goto `"),
    }
}

/// The name by which a configuration calls an action.
pub open spec fn action_text(a: Action) -> Seq<char> {
    match a {
        Action::Quit => "quit"@,
        Action::Next => "next"@,
        Action::Prev => "prev"@,
        Action::First => "first"@,
        Action::Last => "last"@,
        Action::ToggleReviewed => "toggle-reviewed"@,
        Action::PageDown => "page-down"@,
        Action::PageUp => "page-up"@,
        Action::HalfDown => "half-down"@,
        Action::HalfUp => "half-up"@,
        Action::FocusNext => "focus-next"@,
        Action::FocusPrev => "focus-prev"@,
        Action::Focus(Pane::List) => "focus-list"@,
        Action::Focus(Pane::Code) => "focus-code"@,
        Action::Focus(Pane::Why) => "focus-why"@,
        Action::CursorLeft => "cursor-left"@,
        Action::CursorRight => "cursor-right"@,
        Action::WordNext => "word-next"@,
        Action::WordPrev => "word-prev"@,
        Action::WordEnd => "word-end"@,
        Action::LineStart => "line-start"@,
        Action::LineEnd => "line-end"@,
        Action::ParaPrev => "para-prev"@,
        Action::ParaNext => "para-next"@,
        Action::Hover => "hover"@,
        Action::SearchOpen => "search"@,
        Action::SymbolNext => "symbol-next"@,
        Action::SymbolPrev => "symbol-prev"@,
        Action::SearchNext => "search-next"@,
        Action::SearchPrev => "search-prev"@,
        Action::OpenEditor => "open-editor"@,
        Action::Help => "help"@,
        Action::CommandOpen => "command"@,
        Action::CommandGoto => "command-goto"@,
        Action::JumpToEdge => "jump-to-edge"@,
        Action::JumpBack => "jump-back"@,
        Action::Fold(Fold::Toggle) => "fold-toggle"@,
        Action::Fold(Fold::Open) => "fold-open"@,
        Action::Fold(Fold::Close) => "fold-close"@,
        Action::Fold(Fold::OpenAll) => "fold-open-all"@,
        Action::Fold(Fold::CloseAll) => "fold-close-all"@,
        Action::ScrollLeft => "scroll-left"@,
        Action::ScrollRight => "scroll-right"@,
    }
}

pub fn action_name(a: Action) -> (r: &'static str)
    ensures
        r@ == action_text(a),
{
    match a {
        Action::Quit => "quit",
        Action::Next => "next",
        Action::Prev => "prev",
        Action::First => "first",
        Action::Last => "last",
        Action::ToggleReviewed => "toggle-reviewed",
        Action::PageDown => "page-down",
        Action::PageUp => "page-up",
        Action::HalfDown => "half-down",
        Action::HalfUp => "half-up",
        Action::FocusNext => "focus-next",
        Action::FocusPrev => "focus-prev",
        Action::Focus(Pane::List) => "focus-list",
        Action::Focus(Pane::Code) => "focus-code",
        Action::Focus(Pane::Why) => "focus-why",
        Action::CursorLeft => "cursor-left",
        Action::CursorRight => "cursor-right",
        Action::WordNext => "word-next",
        Action::WordPrev => "word-prev",
        Action::WordEnd => "word-end",
        Action::LineStart => "line-start",
        Action::LineEnd => "line-end",
        Action::ParaPrev => "para-prev",
        Action::ParaNext => "para-next",
        Action::Hover => "hover",
        Action::SearchOpen => "search",
        Action::SymbolNext => "symbol-next",
        Action::SymbolPrev => "symbol-prev",
        Action::SearchNext => "search-next",
        Action::SearchPrev => "search-prev",
        Action::OpenEditor => "open-editor",
        Action::Help => "help",
        Action::CommandOpen => "command",
        Action::CommandGoto => "command-goto",
        Action::JumpToEdge => "jump-to-edge",
        Action::JumpBack => "jump-back",
        Action::Fold(Fold::Toggle) => "fold-toggle",
        Action::Fold(Fold::Open) => "fold-open",
        Action::Fold(Fold::Close) => "fold-close",
        Action::Fold(Fold::OpenAll) => "fold-open-all",
        Action::Fold(Fold::CloseAll) => "fold-close-all",
        Action::ScrollLeft => "scroll-left",
        Action::ScrollRight => "scroll-right",
    }
}

/// Every action, in the order in which their names are listed.
pub open spec fn every_action() -> Seq<Action> {
    seq![
        Action::Quit,
        Action::Next,
        Action::Prev,
        Action::First,
        Action::Last,
        Action::ToggleReviewed,
        Action::PageDown,
        Action::PageUp,
        Action::HalfDown,
        Action::HalfUp,
        Action::FocusNext,
        Action::FocusPrev,
        Action::Focus(Pane::List),
        Action::Focus(Pane::Code),
        Action::Focus(Pane::Why),
        Action::CursorLeft,
        Action::CursorRight,
        Action::WordNext,
        Action::WordPrev,
        Action::WordEnd,
        Action::LineStart,
        Action::LineEnd,
        Action::ParaPrev,
        Action::ParaNext,
        Action::Hover,
        Action::SearchOpen,
        Action::SymbolNext,
        Action::SymbolPrev,
        Action::SearchNext,
        Action::SearchPrev,
        Action::OpenEditor,
        Action::Help,
        Action::CommandOpen,
        Action::CommandGoto,
        Action::JumpToEdge,
        Action::JumpBack,
        Action::Fold(Fold::Toggle),
        Action::Fold(Fold::Open),
        Action::Fold(Fold::Close),
        Action::Fold(Fold::OpenAll),
        Action::Fold(Fold::CloseAll),
        Action::ScrollLeft,
        Action::ScrollRight,
    ]
}

pub fn all_actions() -> (r: Vec<Action>)
    ensures
        r@ == every_action(),
{
    let all: Vec<Action> = vec![
        Action::Quit,
        Action::Next,
        Action::Prev,
        Action::First,
        Action::Last,
        Action::ToggleReviewed,
        Action::PageDown,
        Action::PageUp,
        Action::HalfDown,
        Action::HalfUp,
        Action::FocusNext,
        Action::FocusPrev,
        Action::Focus(Pane::List),
        Action::Focus(Pane::Code),
        Action::Focus(Pane::Why),
        Action::CursorLeft,
        Action::CursorRight,
        Action::WordNext,
        Action::WordPrev,
        Action::WordEnd,
        Action::LineStart,
        Action::LineEnd,
        Action::ParaPrev,
        Action::ParaNext,
        Action::Hover,
        Action::SearchOpen,
        Action::SymbolNext,
        Action::SymbolPrev,
        Action::SearchNext,
        Action::SearchPrev,
        Action::OpenEditor,
        Action::Help,
        Action::CommandOpen,
        Action::CommandGoto,
        Action::JumpToEdge,
        Action::JumpBack,
        Action::Fold(Fold::Toggle),
        Action::Fold(Fold::Open),
        Action::Fold(Fold::Close),
        Action::Fold(Fold::OpenAll),
        Action::Fold(Fold::CloseAll),
        Action::ScrollLeft,
        Action::ScrollRight,
    ];
    assert(all@ =~= every_action());
    all
}


/// A number that tells the action names apart.
spec fn name_code(s: Seq<char>) -> int {
    s.len() + 100 * (s[0] as u32) + 100000 * (s[s.len() - 2] as u32) + 100000000 * (s[2] as u32)
}

spec fn action_code(a: Action) -> int {
    match a {
        Action::Quit => 10510511304,
        Action::Next => 12012011004,
        Action::Prev => 10110111204,
        Action::First => 11411510205,
        Action::Last => 11511510804,
        Action::ToggleReviewed => 10310111615,
        Action::PageDown => 10311911209,
        Action::PageUp => 10311711207,
        Action::HalfDown => 10811910409,
        Action::HalfUp => 10811710407,
        Action::FocusNext => 9912010210,
        Action::FocusPrev => 9910110210,
        Action::Focus(Pane::List) => 9911510210,
        Action::Focus(Pane::Code) => 9910010210,
        Action::Focus(Pane::Why) => 9910410209,
        Action::CursorLeft => 11410209911,
        Action::CursorRight => 11410409912,
        Action::WordNext => 11412011909,
        Action::WordPrev => 11410111909,
        Action::WordEnd => 11411011908,
        Action::LineStart => 11011410810,
        Action::LineEnd => 11011010808,
        Action::ParaPrev => 11410111209,
        Action::ParaNext => 11412011209,
        Action::Hover => 11810110405,
        Action::SearchOpen => 9709911506,
        Action::SymbolNext => 10912011511,
        Action::SymbolPrev => 10910111511,
        Action::SearchNext => 9712011511,
        Action::SearchPrev => 9710111511,
        Action::OpenEditor => 10111111111,
        Action::Help => 10810810404,
        Action::CommandOpen => 10911009907,
        Action::CommandGoto => 10911609912,
        Action::JumpToEdge => 10910310612,
        Action::JumpBack => 10909910609,
        Action::Fold(Fold::Toggle) => 10810810211,
        Action::Fold(Fold::Open) => 10810110209,
        Action::Fold(Fold::Close) => 10811510210,
        Action::Fold(Fold::OpenAll) => 10810810213,
        Action::Fold(Fold::CloseAll) => 10810810214,
        Action::ScrollLeft => 11410211511,
        Action::ScrollRight => 11410411512,
    }
}

proof fn lemma_name_codes(a: Action)
    ensures
        name_code(action_text(a)) == action_code(a),
{
    reveal_strlit("quit");
    reveal_strlit("next");
    reveal_strlit("prev");
    reveal_strlit("first");
    reveal_strlit("last");
    reveal_strlit("toggle-reviewed");
    reveal_strlit("page-down");
    reveal_strlit("page-up");
    reveal_strlit("half-down");
    reveal_strlit("half-up");
    reveal_strlit("focus-next");
    reveal_strlit("focus-prev");
    reveal_strlit("focus-list");
    reveal_strlit("focus-code");
    reveal_strlit("focus-why");
    reveal_strlit("cursor-left");
    reveal_strlit("cursor-right");
    reveal_strlit("word-next");
    reveal_strlit("word-prev");
    reveal_strlit("word-end");
    reveal_strlit("line-start");
    reveal_strlit("line-end");
    reveal_strlit("para-prev");
    reveal_strlit("para-next");
    reveal_strlit("hover");
    reveal_strlit("search");
    reveal_strlit("symbol-next");
    reveal_strlit("symbol-prev");
    reveal_strlit("search-next");
    reveal_strlit("search-prev");
    reveal_strlit("open-editor");
    reveal_strlit("help");
    reveal_strlit("command");
    reveal_strlit("command-goto");
    reveal_strlit("jump-to-edge");
    reveal_strlit("jump-back");
    reveal_strlit("fold-toggle");
    reveal_strlit("fold-open");
    reveal_strlit("fold-close");
    reveal_strlit("fold-open-all");
    reveal_strlit("fold-close-all");
    reveal_strlit("scroll-left");
    reveal_strlit("scroll-right");
}

spec fn action_place(a: Action) -> int {
    match a {
        Action::Quit => 0,
        Action::Next => 1,
        Action::Prev => 2,
        Action::First => 3,
        Action::Last => 4,
        Action::ToggleReviewed => 5,
        Action::PageDown => 6,
        Action::PageUp => 7,
        Action::HalfDown => 8,
        Action::HalfUp => 9,
        Action::FocusNext => 10,
        Action::FocusPrev => 11,
        Action::Focus(Pane::List) => 12,
        Action::Focus(Pane::Code) => 13,
        Action::Focus(Pane::Why) => 14,
        Action::CursorLeft => 15,
        Action::CursorRight => 16,
        Action::WordNext => 17,
        Action::WordPrev => 18,
        Action::WordEnd => 19,
        Action::LineStart => 20,
        Action::LineEnd => 21,
        Action::ParaPrev => 22,
        Action::ParaNext => 23,
        Action::Hover => 24,
        Action::SearchOpen => 25,
        Action::SymbolNext => 26,
        Action::SymbolPrev => 27,
        Action::SearchNext => 28,
        Action::SearchPrev => 29,
        Action::OpenEditor => 30,
        Action::Help => 31,
        Action::CommandOpen => 32,
        Action::CommandGoto => 33,
        Action::JumpToEdge => 34,
        Action::JumpBack => 35,
        Action::Fold(Fold::Toggle) => 36,
        Action::Fold(Fold::Open) => 37,
        Action::Fold(Fold::Close) => 38,
        Action::Fold(Fold::OpenAll) => 39,
        Action::Fold(Fold::CloseAll) => 40,
        Action::ScrollLeft => 41,
        Action::ScrollRight => 42,
    }
}

proof fn lemma_action_places(a: Action)
    ensures
        0 <= action_place(a) < every_action().len(),
        every_action()[action_place(a)] == a,
{
    let all = every_action();
    assert(all[0] == Action::Quit);
    assert(all[1] == Action::Next);
    assert(all[2] == Action::Prev);
    assert(all[3] == Action::First);
    assert(all[4] == Action::Last);
    assert(all[5] == Action::ToggleReviewed);
    assert(all[6] == Action::PageDown);
    assert(all[7] == Action::PageUp);
    assert(all[8] == Action::HalfDown);
    assert(all[9] == Action::HalfUp);
    assert(all[10] == Action::FocusNext);
    assert(all[11] == Action::FocusPrev);
    assert(all[12] == Action::Focus(Pane::List));
    assert(all[13] == Action::Focus(Pane::Code));
    assert(all[14] == Action::Focus(Pane::Why));
    assert(all[15] == Action::CursorLeft);
    assert(all[16] == Action::CursorRight);
    assert(all[17] == Action::WordNext);
    assert(all[18] == Action::WordPrev);
    assert(all[19] == Action::WordEnd);
    assert(all[20] == Action::LineStart);
    assert(all[21] == Action::LineEnd);
    assert(all[22] == Action::ParaPrev);
    assert(all[23] == Action::ParaNext);
    assert(all[24] == Action::Hover);
    assert(all[25] == Action::SearchOpen);
    assert(all[26] == Action::SymbolNext);
    assert(all[27] == Action::SymbolPrev);
    assert(all[28] == Action::SearchNext);
    assert(all[29] == Action::SearchPrev);
    assert(all[30] == Action::OpenEditor);
    assert(all[31] == Action::Help);
    assert(all[32] == Action::CommandOpen);
    assert(all[33] == Action::CommandGoto);
    assert(all[34] == Action::JumpToEdge);
    assert(all[35] == Action::JumpBack);
    assert(all[36] == Action::Fold(Fold::Toggle));
    assert(all[37] == Action::Fold(Fold::Open));
    assert(all[38] == Action::Fold(Fold::Close));
    assert(all[39] == Action::Fold(Fold::OpenAll));
    assert(all[40] == Action::Fold(Fold::CloseAll));
    assert(all[41] == Action::ScrollLeft);
    assert(all[42] == Action::ScrollRight);
}

/// No two actions share a name.
pub proof fn law_action_names_differ(a: Action, b: Action)
    requires
        action_text(a) == action_text(b),
    ensures
        a == b,
{
    lemma_name_codes(a);
    lemma_name_codes(b);
}

/// The name of an action is made of small letters and dashes, and is not `none`.
pub proof fn lemma_action_text_is_plain(a: Action)
    ensures
        action_text(a).len() > 0,
        forall|i: int| 0 <= i < action_text(a).len() ==> 'a' <= #[trigger] action_text(a)[i] <= 'z' || action_text(a)[i] == '-',
        action_text(a) != "none"@,
{
    reveal_strlit("none");
    match a {
        Action::Quit => {
            reveal_strlit("quit");
            assert("quit"@[1] != 'o' || "quit"@.len() != 4);
        },
        Action::Next => {
            reveal_strlit("next");
            assert("next"@[1] != 'o' || "next"@.len() != 4);
        },
        Action::Prev => {
            reveal_strlit("prev");
            assert("prev"@[1] != 'o' || "prev"@.len() != 4);
        },
        Action::First => {
            reveal_strlit("first");
            assert("first"@[1] != 'o' || "first"@.len() != 4);
        },
        Action::Last => {
            reveal_strlit("last");
            assert("last"@[1] != 'o' || "last"@.len() != 4);
        },
        Action::ToggleReviewed => {
            reveal_strlit("toggle-reviewed");
            assert("toggle-reviewed"@[1] != 'o' || "toggle-reviewed"@.len() != 4);
        },
        Action::PageDown => {
            reveal_strlit("page-down");
            assert("page-down"@[1] != 'o' || "page-down"@.len() != 4);
        },
        Action::PageUp => {
            reveal_strlit("page-up");
            assert("page-up"@[1] != 'o' || "page-up"@.len() != 4);
        },
        Action::HalfDown => {
            reveal_strlit("half-down");
            assert("half-down"@[1] != 'o' || "half-down"@.len() != 4);
        },
        Action::HalfUp => {
            reveal_strlit("half-up");
            assert("half-up"@[1] != 'o' || "half-up"@.len() != 4);
        },
        Action::FocusNext => {
            reveal_strlit("focus-next");
            assert("focus-next"@[1] != 'o' || "focus-next"@.len() != 4);
        },
        Action::FocusPrev => {
            reveal_strlit("focus-prev");
            assert("focus-prev"@[1] != 'o' || "focus-prev"@.len() != 4);
        },
        Action::Focus(Pane::List) => {
            reveal_strlit("focus-list");
            assert("focus-list"@[1] != 'o' || "focus-list"@.len() != 4);
        },
        Action::Focus(Pane::Code) => {
            reveal_strlit("focus-code");
            assert("focus-code"@[1] != 'o' || "focus-code"@.len() != 4);
        },
        Action::Focus(Pane::Why) => {
            reveal_strlit("focus-why");
            assert("focus-why"@[1] != 'o' || "focus-why"@.len() != 4);
        },
        Action::CursorLeft => {
            reveal_strlit("cursor-left");
            assert("cursor-left"@[1] != 'o' || "cursor-left"@.len() != 4);
        },
        Action::CursorRight => {
            reveal_strlit("cursor-right");
            assert("cursor-right"@[1] != 'o' || "cursor-right"@.len() != 4);
        },
        Action::WordNext => {
            reveal_strlit("word-next");
            assert("word-next"@[1] != 'o' || "word-next"@.len() != 4);
        },
        Action::WordPrev => {
            reveal_strlit("word-prev");
            assert("word-prev"@[1] != 'o' || "word-prev"@.len() != 4);
        },
        Action::WordEnd => {
            reveal_strlit("word-end");
            assert("word-end"@[1] != 'o' || "word-end"@.len() != 4);
        },
        Action::LineStart => {
            reveal_strlit("line-start");
            assert("line-start"@[1] != 'o' || "line-start"@.len() != 4);
        },
        Action::LineEnd => {
            reveal_strlit("line-end");
            assert("line-end"@[1] != 'o' || "line-end"@.len() != 4);
        },
        Action::ParaPrev => {
            reveal_strlit("para-prev");
            assert("para-prev"@[1] != 'o' || "para-prev"@.len() != 4);
        },
        Action::ParaNext => {
            reveal_strlit("para-next");
            assert("para-next"@[1] != 'o' || "para-next"@.len() != 4);
        },
        Action::Hover => {
            reveal_strlit("hover");
            assert("hover"@[1] != 'o' || "hover"@.len() != 4);
        },
        Action::SearchOpen => {
            reveal_strlit("search");
            assert("search"@[1] != 'o' || "search"@.len() != 4);
        },
        Action::SymbolNext => {
            reveal_strlit("symbol-next");
            assert("symbol-next"@[1] != 'o' || "symbol-next"@.len() != 4);
        },
        Action::SymbolPrev => {
            reveal_strlit("symbol-prev");
            assert("symbol-prev"@[1] != 'o' || "symbol-prev"@.len() != 4);
        },
        Action::SearchNext => {
            reveal_strlit("search-next");
            assert("search-next"@[1] != 'o' || "search-next"@.len() != 4);
        },
        Action::SearchPrev => {
            reveal_strlit("search-prev");
            assert("search-prev"@[1] != 'o' || "search-prev"@.len() != 4);
        },
        Action::OpenEditor => {
            reveal_strlit("open-editor");
            assert("open-editor"@[1] != 'o' || "open-editor"@.len() != 4);
        },
        Action::Help => {
            reveal_strlit("help");
            assert("help"@[1] != 'o' || "help"@.len() != 4);
        },
        Action::CommandOpen => {
            reveal_strlit("command");
            assert("command"@[1] != 'o' || "command"@.len() != 4);
        },
        Action::CommandGoto => {
            reveal_strlit("command-goto");
            assert("command-goto"@[1] != 'o' || "command-goto"@.len() != 4);
        },
        Action::JumpToEdge => {
            reveal_strlit("jump-to-edge");
            assert("jump-to-edge"@[1] != 'o' || "jump-to-edge"@.len() != 4);
        },
        Action::JumpBack => {
            reveal_strlit("jump-back");
            assert("jump-back"@[1] != 'o' || "jump-back"@.len() != 4);
        },
        Action::Fold(Fold::Toggle) => {
            reveal_strlit("fold-toggle");
            assert("fold-toggle"@[1] != 'o' || "fold-toggle"@.len() != 4);
        },
        Action::Fold(Fold::Open) => {
            reveal_strlit("fold-open");
            assert("fold-open"@[1] != 'o' || "fold-open"@.len() != 4);
        },
        Action::Fold(Fold::Close) => {
            reveal_strlit("fold-close");
            assert("fold-close"@[1] != 'o' || "fold-close"@.len() != 4);
        },
        Action::Fold(Fold::OpenAll) => {
            reveal_strlit("fold-open-all");
            assert("fold-open-all"@[1] != 'o' || "fold-open-all"@.len() != 4);
        },
        Action::Fold(Fold::CloseAll) => {
            reveal_strlit("fold-close-all");
            assert("fold-close-all"@[1] != 'o' || "fold-close-all"@.len() != 4);
        },
        Action::ScrollLeft => {
            reveal_strlit("scroll-left");
            assert("scroll-left"@[1] != 'o' || "scroll-left"@.len() != 4);
        },
        Action::ScrollRight => {
            reveal_strlit("scroll-right");
            assert("scroll-right"@[1] != 'o' || "scroll-right"@.len() != 4);
        },
    }
}

/// The action of that name.
pub fn action_by_name(name: &str) -> (r: Option<Action>)
    ensures
        match r {
            Some(a) => action_text(a) == name@ && forall|b: Action|
                #[trigger] action_text(b) == name@ ==> b == a,
            None => forall|b: Action| #[trigger] action_text(b) != name@,
        },
{
    let all = all_actions();
    for i in 0..all.len()
        invariant
            all@ == every_action(),
            forall|k: int| 0 <= k < i ==> action_text(#[trigger] all@[k]) != name@,
    {
        if same(action_name(all[i]), name) {
            let a = all[i];
            assert forall|b: Action| #[trigger] action_text(b) == name@ implies b == a by {
                law_action_names_differ(a, b);
            }
            return Some(a);
        }
    }
    assert forall|b: Action| #[trigger] action_text(b) != name@ by {
        lemma_action_places(b);
        assert(all@[action_place(b)] == b);
    }
    None
}

/// The prefixes of the modifiers that a configuration can name.
pub open spec fn modifier_text(m: KeyModifiers) -> Seq<char> {
    (if m.control {
        "C-"@
    } else {
        ""@
    }) + (if m.shift {
        "S-"@
    } else {
        ""@
    }) + (if m.alt {
        "A-"@
    } else {
        ""@
    })
}

/// The keys that go by a name, with it.
pub open spec fn code_name(code: KeyCode) -> Option<Seq<char>> {
    match code {
        KeyCode::Char(c) => if c == ' ' {
            Some("Space"@)
        } else {
            None
        },
        KeyCode::F(_) => None,
        KeyCode::Esc => Some("Esc"@),
        KeyCode::Enter => Some("Enter"@),
        KeyCode::Backspace => Some("Backspace"@),
        KeyCode::Tab => Some("Tab"@),
        KeyCode::Up => Some("Up"@),
        KeyCode::Down => Some("Down"@),
        KeyCode::Left => Some("Left"@),
        KeyCode::Right => Some("Right"@),
        KeyCode::Home => Some("Home"@),
        KeyCode::End => Some("End"@),
        KeyCode::PageUp => Some("PageUp"@),
        KeyCode::PageDown => Some("PageDown"@),
        KeyCode::Other => Some("Other"@),
    }
}

pub open spec fn code_text(code: KeyCode) -> Seq<char> {
    match (code, code_name(code)) {
        (_, Some(n)) => n,
        (KeyCode::Char(c), None) => seq![c],
        (KeyCode::F(n), None) => "F"@ + decimal(n as int),
        _ => ""@,
    }
}

/// A key as it is shown: `j`, `C-w`, `S-F3`, `Esc`.
pub open spec fn key_text(key: Key) -> Seq<char> {
    modifier_text(key.1) + code_text(key.0)
}

pub fn key_label(key: Key) -> (r: String)
    ensures
        r@ == key_text(key),
{
    let (code, held) = key;
    let control = if held.control {
        "C-"
    } else {
        ""
    };
    let shift = if held.shift {
        "S-"
    } else {
        ""
    };
    let alt = if held.alt {
        "A-"
    } else {
        ""
    };
    let body = match code {
        KeyCode::Char(c) => {
            if c == ' ' {
                "Space".to_owned()
            } else {
                let mut s = String::new();
                s.push(c);
                assert(s@ == seq![c]);
                s
            }
        },
        KeyCode::F(n) => "F".to_owned().concat(&number(n as usize)),
        KeyCode::Esc => "Esc".to_owned(),
        KeyCode::Enter => "Enter".to_owned(),
        KeyCode::Backspace => "Backspace".to_owned(),
        KeyCode::Tab => "Tab".to_owned(),
        KeyCode::Up => "Up".to_owned(),
        KeyCode::Down => "Down".to_owned(),
        KeyCode::Left => "Left".to_owned(),
        KeyCode::Right => "Right".to_owned(),
        KeyCode::Home => "Home".to_owned(),
        KeyCode::End => "End".to_owned(),
        KeyCode::PageUp => "PageUp".to_owned(),
        KeyCode::PageDown => "PageDown".to_owned(),
        KeyCode::Other => "Other".to_owned(),
    };
    control.to_owned().concat(shift).concat(alt).concat(&body)
}

/// Whether a key is a character with no modifier.
pub open spec fn simple_key(k: Key) -> bool {
    k.0 is Char && k.1 == mods(false, false, false)
}

/// A chord as it is shown: two plain characters close up, anything else apart.
pub open spec fn chord_text(prefix: Option<Key>, key: Key) -> Seq<char> {
    match prefix {
        None => key_text(key),
        Some(p) => if simple_key(p) && simple_key(key) {
            key_text(p) + key_text(key)
        } else {
            key_text(p) + " "@ + key_text(key)
        },
    }
}

fn is_simple(k: Key) -> (r: bool)
    ensures
        r == simple_key(k),
{
    let character = match k.0 {
        KeyCode::Char(_) => true,
        _ => false,
    };
    character && k.1 == mods(false, false, false)
}

pub fn chord_label(prefix: Option<Key>, key: Key) -> (r: String)
    ensures
        r@ == chord_text(prefix, key),
{
    match prefix {
        None => key_label(key),
        Some(p) => {
            if is_simple(p) && is_simple(key) {
                key_label(p).concat(&key_label(key))
            } else {
                key_label(p).concat(" ").concat(&key_label(key))
            }
        },
    }
}

/// The modifiers that a key's text starts with, and what is left behind them;
/// none where a modifier has no key behind it.
pub open spec fn modifiers_read(s: Seq<char>, m: KeyModifiers) -> Option<(KeyModifiers, Seq<char>)>
    decreases s.len(),
{
    let next = if starts_with(s, "C-"@) {
        Some(KeyModifiers { control: true, ..m })
    } else if starts_with(s, "S-"@) {
        Some(KeyModifiers { shift: true, ..m })
    } else if starts_with(s, "A-"@) {
        Some(KeyModifiers { alt: true, ..m })
    } else {
        None
    };
    match next {
        None => Some((m, s)),
        Some(n) => if s.len() <= 2 {
            None
        } else {
            modifiers_read(s.skip(2), n)
        },
    }
}

/// The key that a text without modifiers names.
pub open spec fn code_read(s: Seq<char>) -> Option<KeyCode> {
    if s == "Space"@ {
        Some(KeyCode::Char(' '))
    } else if s == "Esc"@ {
        Some(KeyCode::Esc)
    } else if s == "Enter"@ {
        Some(KeyCode::Enter)
    } else if s == "Backspace"@ {
        Some(KeyCode::Backspace)
    } else if s == "Tab"@ {
        Some(KeyCode::Tab)
    } else if s == "Up"@ {
        Some(KeyCode::Up)
    } else if s == "Down"@ {
        Some(KeyCode::Down)
    } else if s == "Left"@ {
        Some(KeyCode::Left)
    } else if s == "Right"@ {
        Some(KeyCode::Right)
    } else if s == "Home"@ {
        Some(KeyCode::Home)
    } else if s == "End"@ {
        Some(KeyCode::End)
    } else if s == "PageUp"@ {
        Some(KeyCode::PageUp)
    } else if s == "PageDown"@ {
        Some(KeyCode::PageDown)
    } else if s.len() > 1 && s[0] == 'F' {
        match parsed_number(s.skip(1), 10, 255) {
            Some(n) => Some(KeyCode::F(n as u8)),
            None => None,
        }
    } else if s.len() == 1 {
        Some(KeyCode::Char(s[0]))
    } else {
        None
    }
}

/// The key that a configuration's text names.
pub open spec fn key_read(text: Seq<char>) -> Option<Key> {
    match modifiers_read(trimmed(text), mods(false, false, false)) {
        None => None,
        Some((m, rest)) => match code_read(rest) {
            Some(code) => Some((code, m)),
            None => None,
        },
    }
}

fn parse_code(rest: &str) -> (r: Option<KeyCode>)
    ensures
        r == code_read(rest@),
{
    if same(rest, "Space") {
        return Some(KeyCode::Char(' '));
    }
    if same(rest, "Esc") {
        return Some(KeyCode::Esc);
    }
    if same(rest, "Enter") {
        return Some(KeyCode::Enter);
    }
    if same(rest, "Backspace") {
        return Some(KeyCode::Backspace);
    }
    if same(rest, "Tab") {
        return Some(KeyCode::Tab);
    }
    if same(rest, "Up") {
        return Some(KeyCode::Up);
    }
    if same(rest, "Down") {
        return Some(KeyCode::Down);
    }
    if same(rest, "Left") {
        return Some(KeyCode::Left);
    }
    if same(rest, "Right") {
        return Some(KeyCode::Right);
    }
    if same(rest, "Home") {
        return Some(KeyCode::Home);
    }
    if same(rest, "End") {
        return Some(KeyCode::End);
    }
    if same(rest, "PageUp") {
        return Some(KeyCode::PageUp);
    }
    if same(rest, "PageDown") {
        return Some(KeyCode::PageDown);
    }
    let cs = chars_of(rest);
    if cs.len() > 1 && cs[0] == 'F' {
        let digits = slice_string(&cs, 1, cs.len());
        assert(digits@ == rest@.skip(1));
        return match parse_number(&digits, 10, 255) {
            Some(n) => Some(KeyCode::F(n as u8)),
            None => None,
        };
    }
    if cs.len() == 1 {
        Some(KeyCode::Char(cs[0]))
    } else {
        None
    }
}

/// One key as a configuration writes it.
pub fn parse_key(text: &str) -> (r: Option<Key>)
    ensures
        r == key_read(text@),
{
    let mut held = mods(false, false, false);
    let mut rest = trim(text);
    loop
        invariant
            modifiers_read(trimmed(text@), mods(false, false, false)) == modifiers_read(rest@, held),
        decreases rest@.len(),
    {
        proof {
            reveal_strlit("C-");
            reveal_strlit("S-");
            reveal_strlit("A-");
        }
        let next = if has_prefix(&rest, "C-") {
            KeyModifiers { control: true, shift: held.shift, alt: held.alt, other: held.other }
        } else if has_prefix(&rest, "S-") {
            KeyModifiers { control: held.control, shift: true, alt: held.alt, other: held.other }
        } else if has_prefix(&rest, "A-") {
            KeyModifiers { control: held.control, shift: held.shift, alt: true, other: held.other }
        } else {
            return match parse_code(&rest) {
                Some(code) => Some((code, held)),
                None => None,
            };
        };
        let cs = chars_of(&rest);
        if cs.len() <= 2 {
            return None;
        }
        let tail = slice_string(&cs, 2, cs.len());
        assert(tail@ == rest@.skip(2));
        held = next;
        rest = tail;
    }
}

/// The binding that a configuration's text names: one key, or two for a chord.
pub open spec fn chord_read(text: Seq<char>) -> Option<(Option<Key>, Key)> {
    let w = words_of(text);
    if w.len() == 1 {
        match key_read(w[0]) {
            Some(k) => Some((None, k)),
            None => None,
        }
    } else if w.len() == 2 {
        match (key_read(w[0]), key_read(w[1])) {
            (Some(p), Some(k)) => Some((Some(p), k)),
            _ => None,
        }
    } else {
        None
    }
}

pub fn parse_bind_keys(text: &str) -> (r: Option<(Option<Key>, Key)>)
    ensures
        r == chord_read(text@),
{
    let parts = split_words(text);
    assert(parts@.len() == words_of(text@).len());
    if parts.len() == 1 {
        assert(words_of(text@)[0] == parts@[0]@);
        match parse_key(&parts[0]) {
            Some(k) => Some((None, k)),
            None => None,
        }
    } else if parts.len() == 2 {
        assert(words_of(text@)[0] == parts@[0]@);
        assert(words_of(text@)[1] == parts@[1]@);
        match (parse_key(&parts[0]), parse_key(&parts[1])) {
            (Some(p), Some(k)) => Some((Some(p), k)),
            _ => None,
        }
    } else {
        None
    }
}

/// Whether a key can be written in a configuration: it has a name of its own,
/// and a character other than the space bar's is no white space.
pub open spec fn nameable(key: Key) -> bool {
    &&& !key.1.other
    &&& key.0 !is Other
    &&& key.0 matches KeyCode::Char(c) ==> c == ' ' || !is_space(c)
}

proof fn lemma_code_round_trip(code: KeyCode)
    requires
        code !is Other,
        code matches KeyCode::Char(c) ==> c == ' ' || !is_space(c),
    ensures
        code_read(code_text(code)) == Some(code),
        code_text(code).len() >= 1,
        !is_space(code_text(code)[0]),
        !is_space(code_text(code).last()),
        !starts_with(code_text(code), "C-"@),
        !starts_with(code_text(code), "S-"@),
        !starts_with(code_text(code), "A-"@),
{
    reveal_strlit("C-");
    reveal_strlit("S-");
    reveal_strlit("A-");
    reveal_strlit("Space");
    reveal_strlit("Esc");
    reveal_strlit("Enter");
    reveal_strlit("Backspace");
    reveal_strlit("Tab");
    reveal_strlit("Up");
    reveal_strlit("Down");
    reveal_strlit("Left");
    reveal_strlit("Right");
    reveal_strlit("Home");
    reveal_strlit("End");
    reveal_strlit("PageUp");
    reveal_strlit("PageDown");
    reveal_strlit("F");
    let t = code_text(code);
    match code {
        KeyCode::F(n) => {
            let d = decimal(n as int);
            crate::text::lemma_decimal_round_trip(n as nat);
            assert(t == "F"@ + d);
            assert(t.skip(1) == d);
            assert(t[0] == 'F');
            assert(t.last() == d.last());
            assert("C-"@[0] == 'C' && "S-"@[0] == 'S' && "A-"@[0] == 'A');
            assert(t.subrange(0, 2)[0] == 'F');
            assert("Space"@[0] == 'S');
            assert("Esc"@[0] == 'E');
            assert("Enter"@[0] == 'E');
            assert("Backspace"@[0] == 'B');
            assert("Tab"@[0] == 'T');
            assert("Up"@[0] == 'U');
            assert("Down"@[0] == 'D');
            assert("Left"@[0] == 'L');
            assert("Right"@[0] == 'R');
            assert("Home"@[0] == 'H');
            assert("End"@[0] == 'E');
            assert("PageUp"@[0] == 'P');
            assert("PageDown"@[0] == 'P');
        },
        KeyCode::Char(c) => {
            if c != ' ' {
                assert(t.len() == 1 && t[0] == c);
            } else {
                assert(t.subrange(0, 2)[1] == 'p');
            }
        },
        _ => {
            assert(t.len() >= 2);
            assert(t.subrange(0, 2)[1] == t[1]);
            assert("C-"@[1] == '-' && "S-"@[1] == '-' && "A-"@[1] == '-');
            lemma_code_names_differ(code);
        },
    }
}

proof fn lemma_code_names_differ(code: KeyCode)
    requires
        code !is Other,
        code !is Char,
        code !is F,
    ensures
        code_read(code_text(code)) == Some(code),
{
    reveal_strlit("Space");
    reveal_strlit("Esc");
    reveal_strlit("Enter");
    reveal_strlit("Backspace");
    reveal_strlit("Tab");
    reveal_strlit("Up");
    reveal_strlit("Down");
    reveal_strlit("Left");
    reveal_strlit("Right");
    reveal_strlit("Home");
    reveal_strlit("End");
    reveal_strlit("PageUp");
    reveal_strlit("PageDown");
    assert("Space"@[0] == 'S');
    assert("Esc"@.len() == 3 && "Esc"@[1] == 's');
    assert("Enter"@.len() == 5 && "Enter"@[0] == 'E');
    assert("Backspace"@.len() == 9);
    assert("Tab"@[0] == 'T');
    assert("Up"@[0] == 'U');
    assert("Down"@[0] == 'D');
    assert("Left"@[0] == 'L');
    assert("Right"@[0] == 'R');
    assert("Home"@[0] == 'H');
    assert("End"@[1] == 'n' && "End"@.len() == 3);
    assert("PageUp"@.len() == 6);
    assert("PageDown"@.len() == 8);
}

proof fn lemma_modifiers_round_trip(m: KeyModifiers, body: Seq<char>)
    requires
        !m.other,
        body.len() >= 1,
        !starts_with(body, "C-"@),
        !starts_with(body, "S-"@),
        !starts_with(body, "A-"@),
    ensures
        modifiers_read(modifier_text(m) + body, mods(false, false, false)) == Some((m, body)),
{
    reveal_strlit("C-");
    reveal_strlit("S-");
    reveal_strlit("A-");
    reveal_strlit("");
    let none = mods(false, false, false);
    let c = KeyModifiers { control: m.control, ..none };
    let cs = KeyModifiers { shift: m.shift, ..c };
    let alt_body = (if m.alt {
        "A-"@
    } else {
        ""@
    }) + body;
    let shift_body = (if m.shift {
        "S-"@
    } else {
        ""@
    }) + alt_body;
    let all = modifier_text(m) + body;
    assert(all == (if m.control {
        "C-"@
    } else {
        ""@
    }) + shift_body);
    assert(KeyModifiers { alt: m.alt, ..cs } == m);
    assert(modifiers_read(alt_body, cs) == Some((m, body))) by {
        if m.alt {
            assert(alt_body.subrange(0, 2) == "A-"@);
            assert(alt_body.skip(2) == body);
            assert(alt_body[0] == 'A');
            assert(!starts_with(alt_body, "C-"@)) by {
                assert("C-"@[0] == 'C');
                assert(alt_body.subrange(0, 2)[0] == 'A');
            }
            assert(!starts_with(alt_body, "S-"@)) by {
                assert("S-"@[0] == 'S');
                assert(alt_body.subrange(0, 2)[0] == 'A');
            }
            assert(modifiers_read(body, m) == Some((m, body)));
        } else {
            assert(alt_body == body);
        }
    }
    assert(modifiers_read(shift_body, c) == Some((m, body))) by {
        if m.shift {
            assert(shift_body.subrange(0, 2) == "S-"@);
            assert(shift_body.skip(2) == alt_body);
            assert(!starts_with(shift_body, "C-"@)) by {
                assert("C-"@[0] == 'C');
                assert(shift_body.subrange(0, 2)[0] == 'S');
            }
        } else {
            assert(shift_body == alt_body);
        }
    }
    if m.control {
        assert(all.subrange(0, 2) == "C-"@);
        assert(all.skip(2) == shift_body);
    } else {
        assert(all == shift_body);
    }
}

/// Reading a key's label gives the key again.
pub proof fn law_parse_key_undoes_key_label(key: Key)
    requires
        nameable(key),
    ensures
        key_read(key_text(key)) == Some(key),
{
    lemma_code_round_trip(key.0);
    let body = code_text(key.0);
    let all = key_text(key);
    lemma_modifiers_round_trip(key.1, body);
    reveal_strlit("C-");
    reveal_strlit("S-");
    reveal_strlit("A-");
    reveal_strlit("");
    assert(all.len() > 0);
    assert(all.last() == body.last());
    assert(!is_space(all[0])) by {
        let m = key.1;
        if m.control {
            assert(all[0] == 'C');
        } else if m.shift {
            assert(all[0] == 'S');
        } else if m.alt {
            assert(all[0] == 'A');
        } else {
            assert(modifier_text(m) == Seq::<char>::empty());
            assert(all[0] == body[0]);
        }
    }
    assert(trimmed(all) == all);
}

/// Whether a key can stand between quotes in a line of a configuration.
pub open spec fn writable(key: Key) -> bool {
    nameable(key) && (key.0 matches KeyCode::Char(c) ==> !is_mark(c))
}

/// The characters that a line of a configuration is taken apart by.
pub open spec fn is_mark(c: char) -> bool {
    c == '"' || c == '\'' || c == '='
}

proof fn lemma_label_is_a_word(key: Key)
    requires
        nameable(key),
    ensures
        crate::text::is_word(key_text(key)),
        writable(key) ==> forall|i: int| 0 <= i < key_text(key).len() ==> !is_mark(#[trigger] key_text(key)[i]),
{
    lemma_code_round_trip(key.0);
    reveal_strlit("C-");
    reveal_strlit("S-");
    reveal_strlit("A-");
    reveal_strlit("");
    let m = modifier_text(key.1);
    let c = code_text(key.0);
    let all = key_text(key);
    assert forall|i: int| 0 <= i < m.len() implies !is_space(#[trigger] m[i]) && !is_mark(m[i]) by {}
    assert forall|i: int| 0 <= i < c.len() implies !is_space(#[trigger] c[i]) && (writable(key) ==> !is_mark(c[i])) by {
        reveal_strlit("F");
        reveal_strlit("Space");
        reveal_strlit("Esc");
        reveal_strlit("Enter");
        reveal_strlit("Backspace");
        reveal_strlit("Tab");
        reveal_strlit("Up");
        reveal_strlit("Down");
        reveal_strlit("Left");
        reveal_strlit("Right");
        reveal_strlit("Home");
        reveal_strlit("End");
        reveal_strlit("PageUp");
        reveal_strlit("PageDown");
        if let KeyCode::F(n) = key.0 {
            crate::text::lemma_decimal_round_trip(n as nat);
            if i > 0 {
                assert(c[i] == decimal(n as int)[i - 1]);
            }
        }
    }
    assert forall|i: int| 0 <= i < all.len() implies !is_space(#[trigger] all[i]) && (writable(key) ==> !is_mark(
        all[i],
    )) by {
        if i < m.len() {
            assert(all[i] == m[i]);
        } else {
            assert(all[i] == c[i - m.len()]);
        }
    }
}

/// The keys of a binding as a configuration writes them.
pub open spec fn bind_text(prefix: Option<Key>, key: Key) -> Seq<char> {
    match prefix {
        Some(p) => key_text(p) + " "@ + key_text(key),
        None => key_text(key),
    }
}

/// Nothing in the keys of a binding takes a line of a configuration apart.
pub proof fn lemma_bind_text_is_plain(prefix: Option<Key>, key: Key)
    requires
        writable(key),
        prefix matches Some(p) ==> writable(p),
    ensures
        bind_text(prefix, key).len() > 0,
        forall|i: int| 0 <= i < bind_text(prefix, key).len() ==> !is_mark(#[trigger] bind_text(prefix, key)[i]),
{
    lemma_label_is_a_word(key);
    if let Some(p) = prefix {
        lemma_label_is_a_word(p);
        reveal_strlit(" ");
        let t = bind_text(prefix, key);
        let a = key_text(p);
        assert forall|i: int| 0 <= i < t.len() implies !is_mark(#[trigger] t[i]) by {
            if i < a.len() {
                assert(t[i] == a[i]);
            } else if i > a.len() {
                assert(t[i] == key_text(key)[i - a.len() - 1]);
            }
        }
    }
}

/// The keys of a binding are written on one line.
pub proof fn lemma_bind_text_is_on_a_line(prefix: Option<Key>, key: Key)
    requires
        nameable(key),
        prefix matches Some(p) ==> nameable(p),
    ensures
        forall|i: int|
            0 <= i < bind_text(prefix, key).len() ==> #[trigger] bind_text(prefix, key)[i] != '\n' && bind_text(
                prefix,
                key,
            )[i] != '\r',
{
    lemma_label_is_a_word(key);
    let t = bind_text(prefix, key);
    let k = key_text(key);
    match prefix {
        Some(p) => {
            lemma_label_is_a_word(p);
            reveal_strlit(" ");
            let a = key_text(p);
            assert forall|i: int| 0 <= i < t.len() implies #[trigger] t[i] != '\n' && t[i] != '\r' by {
                if i < a.len() {
                    assert(t[i] == a[i]);
                    assert(!crate::text::is_space(a[i]));
                } else if i > a.len() {
                    assert(t[i] == k[i - a.len() - 1]);
                    assert(!crate::text::is_space(k[i - a.len() - 1]));
                }
            }
        },
        None => {
            assert forall|i: int| 0 <= i < t.len() implies #[trigger] t[i] != '\n' && t[i] != '\r' by {
                assert(!crate::text::is_space(k[i]));
            }
        },
    }
}

/// A binding reads back from the keys that a configuration writes for it.
pub proof fn law_a_chord_reads_back(prefix: Option<Key>, key: Key)
    requires
        nameable(key),
        prefix matches Some(p) ==> nameable(p),
    ensures
        chord_read(bind_text(prefix, key)) == Some((prefix, key)),
{
    lemma_label_is_a_word(key);
    law_parse_key_undoes_key_label(key);
    match prefix {
        Some(p) => {
            lemma_label_is_a_word(p);
            law_parse_key_undoes_key_label(p);
            crate::text::lemma_two_words(key_text(p), key_text(key));
        },
        None => {
            crate::text::lemma_one_word(key_text(key));
        },
    }
}

/// Every key that a preset binds can be written in a configuration.
pub proof fn law_presets_bind_writable_keys(i: int)
    ensures
        0 <= i < vim_binds().len() ==> writable(vim_binds()[i].1) && (vim_binds()[i].0 matches Some(p)
            ==> writable(p)),
        0 <= i < vscode_binds().len() ==> writable(vscode_binds()[i].1) && (
        vscode_binds()[i].0 matches Some(p) ==> writable(p)),
{
    let v = vim_binds();
    let c = vscode_binds();
    assert(i == 0 ==> writable(v[0].1) && (v[0].0 matches Some(p) ==> writable(p)));
    assert(i == 1 ==> writable(v[1].1) && (v[1].0 matches Some(p) ==> writable(p)));
    assert(i == 2 ==> writable(v[2].1) && (v[2].0 matches Some(p) ==> writable(p)));
    assert(i == 3 ==> writable(v[3].1) && (v[3].0 matches Some(p) ==> writable(p)));
    assert(i == 4 ==> writable(v[4].1) && (v[4].0 matches Some(p) ==> writable(p)));
    assert(i == 5 ==> writable(v[5].1) && (v[5].0 matches Some(p) ==> writable(p)));
    assert(i == 6 ==> writable(v[6].1) && (v[6].0 matches Some(p) ==> writable(p)));
    assert(i == 7 ==> writable(v[7].1) && (v[7].0 matches Some(p) ==> writable(p)));
    assert(i == 8 ==> writable(v[8].1) && (v[8].0 matches Some(p) ==> writable(p)));
    assert(i == 9 ==> writable(v[9].1) && (v[9].0 matches Some(p) ==> writable(p)));
    assert(i == 10 ==> writable(v[10].1) && (v[10].0 matches Some(p) ==> writable(p)));
    assert(i == 11 ==> writable(v[11].1) && (v[11].0 matches Some(p) ==> writable(p)));
    assert(i == 12 ==> writable(v[12].1) && (v[12].0 matches Some(p) ==> writable(p)));
    assert(i == 13 ==> writable(v[13].1) && (v[13].0 matches Some(p) ==> writable(p)));
    assert(i == 14 ==> writable(v[14].1) && (v[14].0 matches Some(p) ==> writable(p)));
    assert(i == 15 ==> writable(v[15].1) && (v[15].0 matches Some(p) ==> writable(p)));
    assert(i == 16 ==> writable(v[16].1) && (v[16].0 matches Some(p) ==> writable(p)));
    assert(i == 17 ==> writable(v[17].1) && (v[17].0 matches Some(p) ==> writable(p)));
    assert(i == 18 ==> writable(v[18].1) && (v[18].0 matches Some(p) ==> writable(p)));
    assert(i == 19 ==> writable(v[19].1) && (v[19].0 matches Some(p) ==> writable(p)));
    assert(i == 20 ==> writable(v[20].1) && (v[20].0 matches Some(p) ==> writable(p)));
    assert(i == 21 ==> writable(v[21].1) && (v[21].0 matches Some(p) ==> writable(p)));
    assert(i == 22 ==> writable(v[22].1) && (v[22].0 matches Some(p) ==> writable(p)));
    assert(i == 23 ==> writable(v[23].1) && (v[23].0 matches Some(p) ==> writable(p)));
    assert(i == 24 ==> writable(v[24].1) && (v[24].0 matches Some(p) ==> writable(p)));
    assert(i == 25 ==> writable(v[25].1) && (v[25].0 matches Some(p) ==> writable(p)));
    assert(i == 26 ==> writable(v[26].1) && (v[26].0 matches Some(p) ==> writable(p)));
    assert(i == 27 ==> writable(v[27].1) && (v[27].0 matches Some(p) ==> writable(p)));
    assert(i == 28 ==> writable(v[28].1) && (v[28].0 matches Some(p) ==> writable(p)));
    assert(i == 29 ==> writable(v[29].1) && (v[29].0 matches Some(p) ==> writable(p)));
    assert(i == 30 ==> writable(v[30].1) && (v[30].0 matches Some(p) ==> writable(p)));
    assert(i == 31 ==> writable(v[31].1) && (v[31].0 matches Some(p) ==> writable(p)));
    assert(i == 32 ==> writable(v[32].1) && (v[32].0 matches Some(p) ==> writable(p)));
    assert(i == 33 ==> writable(v[33].1) && (v[33].0 matches Some(p) ==> writable(p)));
    assert(i == 34 ==> writable(v[34].1) && (v[34].0 matches Some(p) ==> writable(p)));
    assert(i == 35 ==> writable(v[35].1) && (v[35].0 matches Some(p) ==> writable(p)));
    assert(i == 36 ==> writable(v[36].1) && (v[36].0 matches Some(p) ==> writable(p)));
    assert(i == 37 ==> writable(v[37].1) && (v[37].0 matches Some(p) ==> writable(p)));
    assert(i == 38 ==> writable(v[38].1) && (v[38].0 matches Some(p) ==> writable(p)));
    assert(i == 39 ==> writable(v[39].1) && (v[39].0 matches Some(p) ==> writable(p)));
    assert(i == 40 ==> writable(v[40].1) && (v[40].0 matches Some(p) ==> writable(p)));
    assert(i == 41 ==> writable(v[41].1) && (v[41].0 matches Some(p) ==> writable(p)));
    assert(i == 42 ==> writable(v[42].1) && (v[42].0 matches Some(p) ==> writable(p)));
    assert(i == 43 ==> writable(v[43].1) && (v[43].0 matches Some(p) ==> writable(p)));
    assert(i == 44 ==> writable(v[44].1) && (v[44].0 matches Some(p) ==> writable(p)));
    assert(i == 45 ==> writable(v[45].1) && (v[45].0 matches Some(p) ==> writable(p)));
    assert(i == 46 ==> writable(v[46].1) && (v[46].0 matches Some(p) ==> writable(p)));
    assert(i == 47 ==> writable(v[47].1) && (v[47].0 matches Some(p) ==> writable(p)));
    assert(i == 48 ==> writable(v[48].1) && (v[48].0 matches Some(p) ==> writable(p)));
    assert(i == 49 ==> writable(v[49].1) && (v[49].0 matches Some(p) ==> writable(p)));
    assert(i == 50 ==> writable(v[50].1) && (v[50].0 matches Some(p) ==> writable(p)));
    assert(i == 51 ==> writable(v[51].1) && (v[51].0 matches Some(p) ==> writable(p)));
    assert(i == 52 ==> writable(v[52].1) && (v[52].0 matches Some(p) ==> writable(p)));
    assert(i == 53 ==> writable(v[53].1) && (v[53].0 matches Some(p) ==> writable(p)));
    assert(i == 54 ==> writable(v[54].1) && (v[54].0 matches Some(p) ==> writable(p)));
    assert(i == 55 ==> writable(v[55].1) && (v[55].0 matches Some(p) ==> writable(p)));
    assert(i == 56 ==> writable(v[56].1) && (v[56].0 matches Some(p) ==> writable(p)));
    assert(i == 0 ==> writable(c[0].1) && (c[0].0 matches Some(p) ==> writable(p)));
    assert(i == 1 ==> writable(c[1].1) && (c[1].0 matches Some(p) ==> writable(p)));
    assert(i == 2 ==> writable(c[2].1) && (c[2].0 matches Some(p) ==> writable(p)));
    assert(i == 3 ==> writable(c[3].1) && (c[3].0 matches Some(p) ==> writable(p)));
    assert(i == 4 ==> writable(c[4].1) && (c[4].0 matches Some(p) ==> writable(p)));
    assert(i == 5 ==> writable(c[5].1) && (c[5].0 matches Some(p) ==> writable(p)));
    assert(i == 6 ==> writable(c[6].1) && (c[6].0 matches Some(p) ==> writable(p)));
    assert(i == 7 ==> writable(c[7].1) && (c[7].0 matches Some(p) ==> writable(p)));
    assert(i == 8 ==> writable(c[8].1) && (c[8].0 matches Some(p) ==> writable(p)));
    assert(i == 9 ==> writable(c[9].1) && (c[9].0 matches Some(p) ==> writable(p)));
    assert(i == 10 ==> writable(c[10].1) && (c[10].0 matches Some(p) ==> writable(p)));
    assert(i == 11 ==> writable(c[11].1) && (c[11].0 matches Some(p) ==> writable(p)));
    assert(i == 12 ==> writable(c[12].1) && (c[12].0 matches Some(p) ==> writable(p)));
    assert(i == 13 ==> writable(c[13].1) && (c[13].0 matches Some(p) ==> writable(p)));
    assert(i == 14 ==> writable(c[14].1) && (c[14].0 matches Some(p) ==> writable(p)));
    assert(i == 15 ==> writable(c[15].1) && (c[15].0 matches Some(p) ==> writable(p)));
    assert(i == 16 ==> writable(c[16].1) && (c[16].0 matches Some(p) ==> writable(p)));
    assert(i == 17 ==> writable(c[17].1) && (c[17].0 matches Some(p) ==> writable(p)));
    assert(i == 18 ==> writable(c[18].1) && (c[18].0 matches Some(p) ==> writable(p)));
    assert(i == 19 ==> writable(c[19].1) && (c[19].0 matches Some(p) ==> writable(p)));
    assert(i == 20 ==> writable(c[20].1) && (c[20].0 matches Some(p) ==> writable(p)));
    assert(i == 21 ==> writable(c[21].1) && (c[21].0 matches Some(p) ==> writable(p)));
    assert(i == 22 ==> writable(c[22].1) && (c[22].0 matches Some(p) ==> writable(p)));
    assert(i == 23 ==> writable(c[23].1) && (c[23].0 matches Some(p) ==> writable(p)));
    assert(i == 24 ==> writable(c[24].1) && (c[24].0 matches Some(p) ==> writable(p)));
    assert(i == 25 ==> writable(c[25].1) && (c[25].0 matches Some(p) ==> writable(p)));
    assert(i == 26 ==> writable(c[26].1) && (c[26].0 matches Some(p) ==> writable(p)));
    assert(i == 27 ==> writable(c[27].1) && (c[27].0 matches Some(p) ==> writable(p)));
    assert(i == 28 ==> writable(c[28].1) && (c[28].0 matches Some(p) ==> writable(p)));
    assert(i == 29 ==> writable(c[29].1) && (c[29].0 matches Some(p) ==> writable(p)));
    assert(i == 30 ==> writable(c[30].1) && (c[30].0 matches Some(p) ==> writable(p)));
    assert(i == 31 ==> writable(c[31].1) && (c[31].0 matches Some(p) ==> writable(p)));
    assert(i == 32 ==> writable(c[32].1) && (c[32].0 matches Some(p) ==> writable(p)));
    assert(i == 33 ==> writable(c[33].1) && (c[33].0 matches Some(p) ==> writable(p)));
    assert(i == 34 ==> writable(c[34].1) && (c[34].0 matches Some(p) ==> writable(p)));
    assert(i == 35 ==> writable(c[35].1) && (c[35].0 matches Some(p) ==> writable(p)));
}

/// One row of the key help: an action's sentence and the chords that mean it.
pub struct HelpRow {
    pub category: Category,
    pub desc: &'static str,
    pub keys: Vec<String>,
}

/// What a row of the key help shows.
pub ghost struct HelpRowText {
    pub category: Category,
    pub desc: Seq<char>,
    pub keys: Seq<Seq<char>>,
}

impl HelpRow {
    pub open spec fn text(self) -> HelpRowText {
        HelpRowText { category: self.category, desc: self.desc@, keys: texts(self.keys@) }
    }
}

pub open spec fn row_texts(rows: Seq<HelpRow>) -> Seq<HelpRowText> {
    Seq::new(rows.len(), |i: int| rows[i].text())
}

/// The place of the row for a sentence, or the number of rows.
pub open spec fn row_place(rows: Seq<HelpRowText>, category: Category, desc: Seq<char>, from: int) -> int
    decreases rows.len() - from,
{
    if from >= rows.len() || (rows[from].category == category && rows[from].desc == desc) {
        from
    } else {
        row_place(rows, category, desc, from + 1)
    }
}

/// The rows with one binding more: a chord joins the row of its action, once.
pub open spec fn row_added(rows: Seq<HelpRowText>, b: Bind) -> Seq<HelpRowText> {
    let (category, desc) = help_of(b.2);
    let label = chord_text(b.0, b.1);
    let at = row_place(rows, category, desc, 0);
    if at >= rows.len() {
        rows.push(HelpRowText { category, desc, keys: seq![label] })
    } else if rows[at].keys.contains(label) {
        rows
    } else {
        rows.update(at, HelpRowText { keys: rows[at].keys.push(label), ..rows[at] })
    }
}

/// The rows of a preset, in the order in which their actions are first bound.
pub open spec fn help_rows(binds: Seq<Bind>) -> Seq<HelpRowText>
    decreases binds.len(),
{
    if binds.len() == 0 {
        Seq::empty()
    } else {
        row_added(help_rows(binds.drop_last()), binds.last())
    }
}

/// A row as the help shows it.
pub open spec fn row_line(r: HelpRowText) -> Seq<char> {
    "  "@ + padded_right(joined(r.keys, ", "@), 16) + " "@ + r.desc
}

/// The lines of one section's rows.
pub open spec fn section_lines(rows: Seq<HelpRowText>, category: Category) -> Seq<Seq<char>>
    decreases rows.len(),
{
    if rows.len() == 0 {
        Seq::empty()
    } else {
        let before = section_lines(rows.drop_last(), category);
        if rows.last().category == category {
            before.push(row_line(rows.last()))
        } else {
            before
        }
    }
}

/// The sections, in the order in which the help shows them.
pub open spec fn sections() -> Seq<Category> {
    seq![
        Category::General,
        Category::Navigation,
        Category::Panes,
        Category::Search,
        Category::Review,
        Category::Editor,
        Category::Help,
    ]
}

/// A section's heading.
pub open spec fn heading(c: Category) -> Seq<char> {
    match c {
        Category::General => "GENERAL"@,
        Category::Navigation => "NAVIGATION"@,
        Category::Panes => "PANES"@,
        Category::Search => "SEARCH"@,
        Category::Review => "REVIEW"@,
        Category::Editor => "EDITOR"@,
        Category::Help => "HELP"@,
    }
}

/// The help's lines for the sections `cats`: an empty line between two, and
/// none for a section without rows.
pub open spec fn help_lines(rows: Seq<HelpRowText>, cats: Seq<Category>) -> Seq<Seq<char>>
    decreases cats.len(),
{
    if cats.len() == 0 {
        Seq::empty()
    } else {
        let before = help_lines(rows, cats.drop_last());
        let lines = section_lines(rows, cats.last());
        if lines.len() == 0 {
            before
        } else if before.len() == 0 {
            seq![heading(cats.last())] + lines
        } else {
            before + seq![""@, heading(cats.last())] + lines
        }
    }
}

fn category_heading(c: Category) -> (r: &'static str)
    ensures
        r@ == heading(c),
{
    match c {
        Category::General => "GENERAL",
        Category::Navigation => "NAVIGATION",
        Category::Panes => "PANES",
        Category::Search => "SEARCH",
        Category::Review => "REVIEW",
        Category::Editor => "EDITOR",
        Category::Help => "HELP",
    }
}

fn add_row(rows: &mut Vec<HelpRow>, b: Bind)
    ensures
        row_texts(final(rows)@) == row_added(row_texts(old(rows)@), b),
{
    let (category, desc) = action_help(b.2);
    let label = chord_label(b.0, b.1);
    let ghost before = row_texts(rows@);
    let mut at: usize = 0;
    while at < rows.len() && !(rows[at].category == category && same(rows[at].desc, desc))
        invariant
            at <= rows@.len(),
            before == row_texts(rows@),
            row_place(before, category, desc@, 0) == row_place(before, category, desc@, at as int),
        decreases rows@.len() - at,
    {
        assert(before[at as int] == rows@[at as int].text());
        at = at + 1;
    }
    if at == rows.len() {
        let mut keys: Vec<String> = Vec::new();
        keys.push(label);
        assert(texts(keys@) == seq![label@]);
        rows.push(HelpRow { category, desc, keys });
        assert(row_texts(rows@) == row_added(before, b));
    } else {
        assert(before[at as int] == rows@[at as int].text());
        if !crate::editor::holds(&rows[at].keys, &label) {
            let mut keys = crate::text::copy_strings(&rows[at].keys);
            let ghost had = texts(keys@);
            keys.push(label);
            assert(texts(keys@) == had.push(label@));
            rows.set(at, HelpRow { category, desc, keys });
            assert(row_texts(rows@) == row_added(before, b));
        }
    }
}

fn section_rows(rows: &Vec<HelpRow>, category: Category) -> (r: Vec<String>)
    ensures
        texts(r@) == section_lines(row_texts(rows@), category),
{
    let mut out: Vec<String> = Vec::new();
    let ghost all = row_texts(rows@);
    for i in 0..rows.len()
        invariant
            all == row_texts(rows@),
            texts(out@) == section_lines(all.take(i as int), category),
    {
        assert(all.take(i + 1).drop_last() == all.take(i as int));
        assert(all.take(i + 1).last() == rows@[i as int].text());
        if rows[i].category == category {
            let keys = join(&rows[i].keys, ", ");
            let line = "  ".to_owned().concat(&pad_right(&keys, 16)).concat(" ").concat(
                rows[i].desc,
            );
            let ghost before = texts(out@);
            out.push(line);
            assert(texts(out@) == before.push(line@));
        }
    }
    assert(all.take(all.len() as int) == all);
    out
}

/// The key help: one row per action, by section, made from the bindings.
pub fn build_help(keys: &Keymap) -> (r: Vec<String>)
    ensures
        texts(r@) == help_lines(help_rows(keys.binds@), sections()),
{
    let mut rows: Vec<HelpRow> = Vec::new();
    assert(row_texts(rows@) == help_rows(keys.binds@.take(0)));
    for i in 0..keys.binds.len()
        invariant
            row_texts(rows@) == help_rows(keys.binds@.take(i as int)),
    {
        assert(keys.binds@.take(i + 1).drop_last() == keys.binds@.take(i as int));
        add_row(&mut rows, keys.binds[i]);
    }
    assert(keys.binds@.take(keys.binds@.len() as int) == keys.binds@);
    let order: Vec<Category> = vec![
        Category::General,
        Category::Navigation,
        Category::Panes,
        Category::Search,
        Category::Review,
        Category::Editor,
        Category::Help,
    ];
    assert(order@ =~= sections());
    let mut out: Vec<String> = Vec::new();
    let ghost all = row_texts(rows@);
    for i in 0..order.len()
        invariant
            order@ == sections(),
            all == row_texts(rows@),
            texts(out@) == help_lines(all, sections().take(i as int)),
    {
        let ghost before = texts(out@);
        let ghost cats = sections().take(i + 1);
        assert(cats.drop_last() == sections().take(i as int));
        assert(cats.last() == order@[i as int]);
        let mut lines = section_rows(&rows, order[i]);
        let ghost shown = texts(lines@);
        if lines.len() > 0 {
            if out.len() > 0 {
                out.push("".to_owned());
            }
            out.push(category_heading(order[i]).to_owned());
            let ghost head = texts(out@);
            assert(before.len() == 0 ==> head == seq![heading(order@[i as int])]);
            assert(before.len() > 0 ==> head == before + seq![""@, heading(order@[i as int])]);
            out.append(&mut lines);
            assert(texts(out@) == head + shown);
        } else {
            assert(shown.len() == 0);
        }
    }
    assert(sections().take(sections().len() as int) == sections());
    out
}

} // verus!
