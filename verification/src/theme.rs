//! Colours: the themes, the roles that a configuration can colour, and how a
//! colour is written.

use crate::text::{
    chars_of, digit, digit_value, digits_value, numeral, pad_left, padded_left, parse_number, same, slice_string,
    texts, trim, trimmed,
};
use vstd::prelude::*;

verus! {

/// A colour: one of the terminal's own, or red, green and blue.
#[derive(Clone, Copy, PartialEq, Eq, Debug, Structural)]
pub enum Color {
    Reset,
    DarkGray,
    Gray,
    Red,
    LightRed,
    Green,
    Yellow,
    Blue,
    LightBlue,
    Magenta,
    Cyan,
    Rgb(u8, u8, u8),
}

/// `0x89b4fa` as red, green and blue.
#[verifier::allow_in_spec]
pub fn hex(v: u32) -> Color
    returns
        Color::Rgb(((v / 65536) % 256) as u8, ((v / 256) % 256) as u8, (v % 256) as u8),
{
    Color::Rgb(((v / 65536) % 256) as u8, ((v / 256) % 256) as u8, (v % 256) as u8)
}

/// What a piece of code is, as far as its colour goes.
#[derive(Clone, Copy, PartialEq, Eq, Debug, Structural)]
pub enum Role {
    Comment,
    Keyword,
    Str,
    Number,
    Function,
    Type,
    Property,
    Operator,
    Variable,
    Builtin,
    Param,
    Attribute,
}

/// The colours of code.
#[derive(Clone, Copy, PartialEq, Eq, Debug, Structural)]
pub struct Syntax {
    pub comment: Color,
    pub keyword: Color,
    pub string: Color,
    pub number: Color,
    pub function: Color,
    pub type_: Color,
    pub property: Color,
    pub operator: Color,
    pub variable: Color,
    pub builtin: Color,
    pub param: Color,
    pub attribute: Color,
}

impl Syntax {
    #[verifier::allow_in_spec]
    pub fn of(&self, role: Role) -> Color
        returns
            (match role {
                Role::Comment => self.comment,
                Role::Keyword => self.keyword,
                Role::Str => self.string,
                Role::Number => self.number,
                Role::Function => self.function,
                Role::Type => self.type_,
                Role::Property => self.property,
                Role::Operator => self.operator,
                Role::Variable => self.variable,
                Role::Builtin => self.builtin,
                Role::Param => self.param,
                Role::Attribute => self.attribute,
            }),
    {
        match role {
            Role::Comment => self.comment,
            Role::Keyword => self.keyword,
            Role::Str => self.string,
            Role::Number => self.number,
            Role::Function => self.function,
            Role::Type => self.type_,
            Role::Property => self.property,
            Role::Operator => self.operator,
            Role::Variable => self.variable,
            Role::Builtin => self.builtin,
            Role::Param => self.param,
            Role::Attribute => self.attribute,
        }
    }
}

/// The reader's palette.
#[derive(Clone, Copy)]
pub struct Theme {
    pub name: &'static str,
    /// default text
    pub fg: Color,
    /// gutters, context line numbers, noise rows
    pub dim: Color,
    pub border: Color,
    /// the focused pane's border
    pub border_focus: Color,
    /// line numbers in the reading order
    pub accent: Color,
    /// a hunk's category
    pub category: Color,
    /// the advisory mark
    pub mark: Color,
    /// a reviewed row's tick
    pub reviewed: Color,
    pub warn: Color,
    pub add_fg: Color,
    pub del_fg: Color,
    pub add_bg: Color,
    pub del_bg: Color,
    /// the part of a line that changed
    pub add_strong_bg: Color,
    pub del_strong_bg: Color,
    pub select_bg: Color,
    pub match_bg: Color,
    pub match_cur_bg: Color,
    pub syn: Syntax,
}

/// The terminal's own colours for code.
pub open spec fn terminal_syntax() -> Syntax {
    Syntax {
        comment: Color::DarkGray,
        keyword: Color::Magenta,
        string: Color::Green,
        number: Color::Cyan,
        function: Color::Blue,
        type_: Color::Yellow,
        property: Color::LightBlue,
        operator: Color::Gray,
        variable: Color::Reset,
        builtin: Color::Red,
        param: Color::LightRed,
        attribute: Color::Cyan,
    }
}

/// A theme that keeps the terminal's own palette for text and tints changes for
/// a dark or a light page.
pub open spec fn terminal_theme(name: &'static str, light: bool) -> Theme {
    let tint = |pale: u32, deep: u32| if light { hex(pale) } else { hex(deep) };
    Theme {
        name,
        fg: Color::Reset,
        dim: Color::DarkGray,
        border: Color::Reset,
        border_focus: Color::Cyan,
        accent: Color::Blue,
        category: Color::Magenta,
        mark: Color::Yellow,
        reviewed: Color::Green,
        warn: Color::Red,
        add_fg: Color::Green,
        del_fg: Color::Red,
        add_bg: tint(0xd6f0da, 0x142819),
        del_bg: tint(0xf8d6d6, 0x32181c),
        add_strong_bg: tint(0xa0dcaf, 0x22542e),
        del_strong_bg: tint(0xf5aeae, 0x68282e),
        select_bg: tint(0xdee2ec, 0x2d323e),
        match_bg: tint(0xffecaa, 0x463c0a),
        match_cur_bg: tint(0xffca44, 0x8c6e0f),
        syn: terminal_syntax(),
    }
}

impl Theme {
    pub fn terminal(name: &'static str, light: bool) -> (r: Theme)
        ensures
            r == terminal_theme(name, light),
    {
        let syn = Syntax {
        comment: Color::DarkGray,
        keyword: Color::Magenta,
        string: Color::Green,
        number: Color::Cyan,
        function: Color::Blue,
        type_: Color::Yellow,
        property: Color::LightBlue,
        operator: Color::Gray,
        variable: Color::Reset,
        builtin: Color::Red,
        param: Color::LightRed,
        attribute: Color::Cyan,
    };
        Theme {
        name,
        fg: Color::Reset,
        dim: Color::DarkGray,
        border: Color::Reset,
        border_focus: Color::Cyan,
        accent: Color::Blue,
        category: Color::Magenta,
        mark: Color::Yellow,
        reviewed: Color::Green,
        warn: Color::Red,
        add_fg: Color::Green,
        del_fg: Color::Red,
        add_bg: hex(if light { 0xd6f0da } else { 0x142819 }),
        del_bg: hex(if light { 0xf8d6d6 } else { 0x32181c }),
        add_strong_bg: hex(if light { 0xa0dcaf } else { 0x22542e }),
        del_strong_bg: hex(if light { 0xf5aeae } else { 0x68282e }),
        select_bg: hex(if light { 0xdee2ec } else { 0x2d323e }),
        match_bg: hex(if light { 0xffecaa } else { 0x463c0a }),
        match_cur_bg: hex(if light { 0xffca44 } else { 0x8c6e0f }),
        syn,
    }
    }
}

/// The eleven colours that a published palette names.
#[derive(Clone, Copy)]
pub struct Palette {
    pub name: &'static str,
    pub fg: u32,
    pub dim: u32,
    /// the selection tint
    pub surface: u32,
    pub red: u32,
    pub green: u32,
    pub yellow: u32,
    pub blue: u32,
    pub magenta: u32,
    pub cyan: u32,
    pub orange: u32,
    /// whether the page is light
    pub light: bool,
}

/// One channel of `a` moved toward that of `b` by `w` parts of 256.
pub open spec fn mixed_channel(a: int, b: int, w: int) -> int {
    (a * (256 - w) + b * w) / 256
}

/// `a` moved toward `b` by `w` parts of 256.
pub open spec fn mixed(a: u32, b: u32, w: int) -> Color {
    Color::Rgb(
        mixed_channel(((a / 65536) % 256) as int, ((b / 65536) % 256) as int, w) as u8,
        mixed_channel(((a / 256) % 256) as int, ((b / 256) % 256) as int, w) as u8,
        mixed_channel((a % 256) as int, (b % 256) as int, w) as u8,
    )
}

fn mix_channel(x: u32, y: u32, w: u32) -> (r: u8)
    requires
        x < 256,
        y < 256,
        w <= 256,
    ensures
        r == mixed_channel(x as int, y as int, w as int),
        r == mixed_channel(x as int, y as int, w as int) as u8,
{
    assert(0 <= x * (256 - w) <= 255 * 256 && 0 <= y * w <= 255 * 256 && x * (256 - w) + y * w
        <= 255 * 256) by (nonlinear_arith)
        requires
            x < 256,
            y < 256,
            w <= 256,
    ;
    ((x * (256 - w) + y * w) / 256) as u8
}

impl Palette {
    pub fn mix(a: u32, b: u32, w: u32) -> (r: Color)
        requires
            w <= 256,
        ensures
            r == mixed(a, b, w as int),
    {
        Color::Rgb(
            mix_channel((a / 65536) % 256, (b / 65536) % 256, w),
            mix_channel((a / 256) % 256, (b / 256) % 256, w),
            mix_channel(a % 256, b % 256, w),
        )
    }

    /// The theme of a palette: every role from the eleven colours, tints toward
    /// the page.
    pub open spec fn as_theme(self) -> Theme {
        let ground: u32 = if self.light { 0xffffff } else { 0x000000 };
        let quiet: int = if self.light { 200 } else { 210 };
        Theme {
            name: self.name,
            fg: hex(self.fg),
            dim: hex(self.dim),
            border: hex(self.surface),
            border_focus: hex(self.blue),
            accent: hex(self.blue),
            category: hex(self.magenta),
            mark: hex(self.yellow),
            reviewed: hex(self.green),
            warn: hex(self.red),
            add_fg: hex(self.green),
            del_fg: hex(self.red),
            add_bg: mixed(self.green, ground, quiet),
            del_bg: mixed(self.red, ground, quiet),
            add_strong_bg: mixed(self.green, ground, 130),
            del_strong_bg: mixed(self.red, ground, 130),
            select_bg: hex(self.surface),
            match_bg: mixed(self.yellow, ground, quiet),
            match_cur_bg: mixed(self.yellow, ground, 130),
            syn: Syntax {
                comment: hex(self.dim),
                keyword: hex(self.magenta),
                string: hex(self.green),
                number: hex(self.orange),
                function: hex(self.blue),
                type_: hex(self.yellow),
                property: hex(self.cyan),
                operator: hex(self.dim),
                variable: hex(self.fg),
                builtin: hex(self.red),
                param: hex(self.orange),
                attribute: hex(self.cyan),
            },
        }
    }

    pub fn theme(&self) -> (r: Theme)
        ensures
            r == self.as_theme(),
    {
        let ground: u32 = if self.light { 0xffffff } else { 0x000000 };
        let quiet: u32 = if self.light { 200 } else { 210 };
        Theme {
            name: self.name,
            fg: hex(self.fg),
            dim: hex(self.dim),
            border: hex(self.surface),
            border_focus: hex(self.blue),
            accent: hex(self.blue),
            category: hex(self.magenta),
            mark: hex(self.yellow),
            reviewed: hex(self.green),
            warn: hex(self.red),
            add_fg: hex(self.green),
            del_fg: hex(self.red),
            add_bg: Palette::mix(self.green, ground, quiet),
            del_bg: Palette::mix(self.red, ground, quiet),
            add_strong_bg: Palette::mix(self.green, ground, 130),
            del_strong_bg: Palette::mix(self.red, ground, 130),
            select_bg: hex(self.surface),
            match_bg: Palette::mix(self.yellow, ground, quiet),
            match_cur_bg: Palette::mix(self.yellow, ground, 130),
            syn: Syntax {
                comment: hex(self.dim),
                keyword: hex(self.magenta),
                string: hex(self.green),
                number: hex(self.orange),
                function: hex(self.blue),
                type_: hex(self.yellow),
                property: hex(self.cyan),
                operator: hex(self.dim),
                variable: hex(self.fg),
                builtin: hex(self.red),
                param: hex(self.orange),
                attribute: hex(self.cyan),
            },
        }
    }
}

/// The built-in palettes, as their projects publish them.
pub open spec fn palette_list() -> Seq<Palette> {
    seq![
        Palette { name: "catppuccin-mocha", fg: 0xcdd6f4, dim: 0x6c7086, surface: 0x313244, red: 0xf38ba8, green: 0xa6e3a1, yellow: 0xf9e2af, blue: 0x89b4fa, magenta: 0xcba6f7, cyan: 0x94e2d5, orange: 0xfab387, light: false },
        Palette { name: "catppuccin-macchiato", fg: 0xcad3f5, dim: 0x6e738d, surface: 0x363a4f, red: 0xed8796, green: 0xa6da95, yellow: 0xeed49f, blue: 0x8aadf4, magenta: 0xc6a0f6, cyan: 0x8bd5ca, orange: 0xf5a97f, light: false },
        Palette { name: "catppuccin-frappe", fg: 0xc6d0f5, dim: 0x737994, surface: 0x414559, red: 0xe78284, green: 0xa6d189, yellow: 0xe5c890, blue: 0x8caaee, magenta: 0xca9ee6, cyan: 0x81c8be, orange: 0xef9f76, light: false },
        Palette { name: "catppuccin-latte", fg: 0x4c4f69, dim: 0x8c8fa1, surface: 0xccd0da, red: 0xd20f39, green: 0x40a02b, yellow: 0xdf8e1d, blue: 0x1e66f5, magenta: 0x8839ef, cyan: 0x179299, orange: 0xfe640b, light: true },
        Palette { name: "tokyonight-night", fg: 0xc0caf5, dim: 0x565f89, surface: 0x292e42, red: 0xf7768e, green: 0x9ece6a, yellow: 0xe0af68, blue: 0x7aa2f7, magenta: 0xbb9af7, cyan: 0x7dcfff, orange: 0xff9e64, light: false },
        Palette { name: "tokyonight-storm", fg: 0xc0caf5, dim: 0x565f89, surface: 0x2f334d, red: 0xf7768e, green: 0x9ece6a, yellow: 0xe0af68, blue: 0x7aa2f7, magenta: 0xbb9af7, cyan: 0x7dcfff, orange: 0xff9e64, light: false },
        Palette { name: "tokyonight-moon", fg: 0xc8d3f5, dim: 0x636da6, surface: 0x2f334d, red: 0xff757f, green: 0xc3e88d, yellow: 0xffc777, blue: 0x82aaff, magenta: 0xc099ff, cyan: 0x86e1fc, orange: 0xff966c, light: false },
        Palette { name: "tokyonight-day", fg: 0x3760bf, dim: 0x848cb5, surface: 0xc4c8da, red: 0xf52a65, green: 0x587539, yellow: 0x8c6c3e, blue: 0x2e7de9, magenta: 0x9854f1, cyan: 0x007197, orange: 0xb15c00, light: true },
        Palette { name: "gruvbox-dark", fg: 0xebdbb2, dim: 0x928374, surface: 0x3c3836, red: 0xfb4934, green: 0xb8bb26, yellow: 0xfabd2f, blue: 0x83a598, magenta: 0xd3869b, cyan: 0x8ec07c, orange: 0xfe8019, light: false },
        Palette { name: "gruvbox-light", fg: 0x3c3836, dim: 0x7c6f64, surface: 0xebdbb2, red: 0x9d0006, green: 0x79740e, yellow: 0xb57614, blue: 0x076678, magenta: 0x8f3f71, cyan: 0x427b58, orange: 0xaf3a03, light: true },
        Palette { name: "nord", fg: 0xd8dee9, dim: 0x4c566a, surface: 0x3b4252, red: 0xbf616a, green: 0xa3be8c, yellow: 0xebcb8b, blue: 0x81a1c1, magenta: 0xb48ead, cyan: 0x88c0d0, orange: 0xd08770, light: false },
        Palette { name: "dracula", fg: 0xf8f8f2, dim: 0x6272a4, surface: 0x44475a, red: 0xff5555, green: 0x50fa7b, yellow: 0xf1fa8c, blue: 0xbd93f9, magenta: 0xff79c6, cyan: 0x8be9fd, orange: 0xffb86c, light: false },
        Palette { name: "solarized-dark", fg: 0x93a1a1, dim: 0x586e75, surface: 0x073642, red: 0xdc322f, green: 0x859900, yellow: 0xb58900, blue: 0x268bd2, magenta: 0xd33682, cyan: 0x2aa198, orange: 0xcb4b16, light: false },
        Palette { name: "solarized-light", fg: 0x586e75, dim: 0x93a1a1, surface: 0xeee8d5, red: 0xdc322f, green: 0x859900, yellow: 0xb58900, blue: 0x268bd2, magenta: 0xd33682, cyan: 0x2aa198, orange: 0xcb4b16, light: true },
    ]
}

/// The built-in palettes.
pub fn palettes() -> (r: Vec<Palette>)
    ensures
        r@ == palette_list(),
{
    let all: Vec<Palette> = vec![
        Palette { name: "catppuccin-mocha", fg: 0xcdd6f4, dim: 0x6c7086, surface: 0x313244, red: 0xf38ba8, green: 0xa6e3a1, yellow: 0xf9e2af, blue: 0x89b4fa, magenta: 0xcba6f7, cyan: 0x94e2d5, orange: 0xfab387, light: false },
        Palette { name: "catppuccin-macchiato", fg: 0xcad3f5, dim: 0x6e738d, surface: 0x363a4f, red: 0xed8796, green: 0xa6da95, yellow: 0xeed49f, blue: 0x8aadf4, magenta: 0xc6a0f6, cyan: 0x8bd5ca, orange: 0xf5a97f, light: false },
        Palette { name: "catppuccin-frappe", fg: 0xc6d0f5, dim: 0x737994, surface: 0x414559, red: 0xe78284, green: 0xa6d189, yellow: 0xe5c890, blue: 0x8caaee, magenta: 0xca9ee6, cyan: 0x81c8be, orange: 0xef9f76, light: false },
        Palette { name: "catppuccin-latte", fg: 0x4c4f69, dim: 0x8c8fa1, surface: 0xccd0da, red: 0xd20f39, green: 0x40a02b, yellow: 0xdf8e1d, blue: 0x1e66f5, magenta: 0x8839ef, cyan: 0x179299, orange: 0xfe640b, light: true },
        Palette { name: "tokyonight-night", fg: 0xc0caf5, dim: 0x565f89, surface: 0x292e42, red: 0xf7768e, green: 0x9ece6a, yellow: 0xe0af68, blue: 0x7aa2f7, magenta: 0xbb9af7, cyan: 0x7dcfff, orange: 0xff9e64, light: false },
        Palette { name: "tokyonight-storm", fg: 0xc0caf5, dim: 0x565f89, surface: 0x2f334d, red: 0xf7768e, green: 0x9ece6a, yellow: 0xe0af68, blue: 0x7aa2f7, magenta: 0xbb9af7, cyan: 0x7dcfff, orange: 0xff9e64, light: false },
        Palette { name: "tokyonight-moon", fg: 0xc8d3f5, dim: 0x636da6, surface: 0x2f334d, red: 0xff757f, green: 0xc3e88d, yellow: 0xffc777, blue: 0x82aaff, magenta: 0xc099ff, cyan: 0x86e1fc, orange: 0xff966c, light: false },
        Palette { name: "tokyonight-day", fg: 0x3760bf, dim: 0x848cb5, surface: 0xc4c8da, red: 0xf52a65, green: 0x587539, yellow: 0x8c6c3e, blue: 0x2e7de9, magenta: 0x9854f1, cyan: 0x007197, orange: 0xb15c00, light: true },
        Palette { name: "gruvbox-dark", fg: 0xebdbb2, dim: 0x928374, surface: 0x3c3836, red: 0xfb4934, green: 0xb8bb26, yellow: 0xfabd2f, blue: 0x83a598, magenta: 0xd3869b, cyan: 0x8ec07c, orange: 0xfe8019, light: false },
        Palette { name: "gruvbox-light", fg: 0x3c3836, dim: 0x7c6f64, surface: 0xebdbb2, red: 0x9d0006, green: 0x79740e, yellow: 0xb57614, blue: 0x076678, magenta: 0x8f3f71, cyan: 0x427b58, orange: 0xaf3a03, light: true },
        Palette { name: "nord", fg: 0xd8dee9, dim: 0x4c566a, surface: 0x3b4252, red: 0xbf616a, green: 0xa3be8c, yellow: 0xebcb8b, blue: 0x81a1c1, magenta: 0xb48ead, cyan: 0x88c0d0, orange: 0xd08770, light: false },
        Palette { name: "dracula", fg: 0xf8f8f2, dim: 0x6272a4, surface: 0x44475a, red: 0xff5555, green: 0x50fa7b, yellow: 0xf1fa8c, blue: 0xbd93f9, magenta: 0xff79c6, cyan: 0x8be9fd, orange: 0xffb86c, light: false },
        Palette { name: "solarized-dark", fg: 0x93a1a1, dim: 0x586e75, surface: 0x073642, red: 0xdc322f, green: 0x859900, yellow: 0xb58900, blue: 0x268bd2, magenta: 0xd33682, cyan: 0x2aa198, orange: 0xcb4b16, light: false },
        Palette { name: "solarized-light", fg: 0x586e75, dim: 0x93a1a1, surface: 0xeee8d5, red: 0xdc322f, green: 0x859900, yellow: 0xb58900, blue: 0x268bd2, magenta: 0xd33682, cyan: 0x2aa198, orange: 0xcb4b16, light: true },
    ];
    assert(all@ =~= palette_list());
    all
}

/// Every theme's name: the terminal's two, then the palettes'.
pub open spec fn theme_name_list() -> Seq<Seq<char>> {
    seq!["dark"@, "light"@] + Seq::new(palette_list().len(), |i: int| palette_list()[i].name@)
}

pub fn theme_names() -> (r: Vec<String>)
    ensures
        texts(r@) == theme_name_list(),
{
    let mut out: Vec<String> = Vec::new();
    out.push("dark".to_owned());
    out.push("light".to_owned());
    let all = palettes();
    for i in 0..all.len()
        invariant
            all@ == palette_list(),
            texts(out@) == theme_name_list().take(i + 2),
    {
        let ghost before = texts(out@);
        out.push(all[i].name.to_owned());
        assert(texts(out@) == before.push(all@[i as int].name@));
        assert(theme_name_list().take(i + 3) == theme_name_list().take(i + 2).push(theme_name_list()[i + 2]));
    }
    assert(theme_name_list().take(theme_name_list().len() as int) == theme_name_list());
    out
}

/// The palette of that name among the first `n`.
pub open spec fn palette_named(name: Seq<char>, n: int) -> Option<Palette>
    decreases n,
{
    if n <= 0 {
        None
    } else {
        match palette_named(name, n - 1) {
            Some(p) => Some(p),
            None => if palette_list()[n - 1].name@ == name {
                Some(palette_list()[n - 1])
            } else {
                None
            },
        }
    }
}

/// The theme of that name.
pub open spec fn theme_named(name: Seq<char>) -> Option<Theme> {
    if name == "dark"@ {
        Some(terminal_theme("dark", false))
    } else if name == "light"@ {
        Some(terminal_theme("light", true))
    } else {
        match palette_named(name, palette_list().len() as int) {
            Some(p) => Some(p.as_theme()),
            None => None,
        }
    }
}

pub fn theme(name: &str) -> (r: Option<Theme>)
    ensures
        r == theme_named(name@),
{
    if same(name, "dark") {
        return Some(Theme::terminal("dark", false));
    }
    if same(name, "light") {
        return Some(Theme::terminal("light", true));
    }
    let all = palettes();
    for i in 0..all.len()
        invariant
            all@ == palette_list(),
            palette_named(name@, i as int) is None,
            name@ != "dark"@,
            name@ != "light"@,
    {
        if same(all[i].name, name) {
            proof {
                lemma_palette_named_stays(name@, i + 1, palette_list().len() as int);
            }
            return Some(all[i].theme());
        }
    }
    None
}

proof fn lemma_palette_named_stays(name: Seq<char>, a: int, b: int)
    requires
        0 <= a <= b,
        palette_named(name, a) is Some,
    ensures
        palette_named(name, b) == palette_named(name, a),
    decreases b,
{
    if a < b {
        lemma_palette_named_stays(name, a, b - 1);
    }
}

proof fn lemma_palette_named(name: Seq<char>, n: int)
    requires
        n <= palette_list().len(),
    ensures
        palette_named(name, n) matches Some(p) ==> p.name@ == name,
        (exists|i: int| 0 <= i < n && (#[trigger] palette_list()[i]).name@ == name) ==> palette_named(name, n) is Some,
    decreases n,
{
    if n > 0 {
        lemma_palette_named(name, n - 1);
    }
}

/// Every listed name names a theme, no other text does, and a theme knows its
/// own name.
pub proof fn law_theme_names_are_the_themes(name: Seq<char>)
    ensures
        theme_name_list().contains(name) <==> theme_named(name) is Some,
        theme_named(name) matches Some(t) ==> t.name@ == name,
{
    let n = palette_list().len() as int;
    lemma_palette_named(name, n);
    let list = theme_name_list();
    assert(list[0] == "dark"@ && list[1] == "light"@);
    if list.contains(name) {
        let w = choose|w: int| 0 <= w < list.len() && list[w] == name;
        if w >= 2 {
            assert(palette_list()[w - 2].name@ == name);
        }
    }
    if palette_named(name, n) is Some {
        lemma_palette_named_witness(name, n);
        let i = choose|i: int| 0 <= i < n && (#[trigger] palette_list()[i]).name@ == name;
        assert(list[i + 2] == name);
    }
}

proof fn lemma_palette_named_witness(name: Seq<char>, n: int)
    requires
        n <= palette_list().len(),
        palette_named(name, n) is Some,
    ensures
        exists|i: int| 0 <= i < n && (#[trigger] palette_list()[i]).name@ == name,
    decreases n,
{
    if n > 0 && palette_named(name, n - 1) is Some {
        lemma_palette_named_witness(name, n - 1);
    } else if n > 0 {
        assert(palette_list()[n - 1].name@ == name);
    }
}

/// Whether a colour names red, green and blue itself.
pub open spec fn truecolor(c: Color) -> bool {
    c is Rgb
}

/// A palette leaves nothing to the terminal: each of its roles is a colour of
/// its own.
pub proof fn law_palettes_leave_nothing_to_the_terminal(p: Palette, role: Seq<char>)
    requires
        role_list().contains(role),
    ensures
        truecolor(role_color(p.as_theme(), role)),
{
    let k = choose|k: int| 0 <= k < role_list().len() && role_list()[k] == role;
    let l = role_list();
    assert(l[0] == "fg"@);
    assert(l[1] == "dim"@);
    assert(l[2] == "border"@);
    assert(l[3] == "border-focus"@);
    assert(l[4] == "accent"@);
    assert(l[5] == "category"@);
    assert(l[6] == "mark"@);
    assert(l[7] == "reviewed"@);
    assert(l[8] == "warn"@);
    assert(l[9] == "add-fg"@);
    assert(l[10] == "del-fg"@);
    assert(l[11] == "add-bg"@);
    assert(l[12] == "del-bg"@);
    assert(l[13] == "add-strong-bg"@);
    assert(l[14] == "del-strong-bg"@);
    assert(l[15] == "select-bg"@);
    assert(l[16] == "match-bg"@);
    assert(l[17] == "match-current-bg"@);
    assert(l[18] == "syntax-comment"@);
    assert(l[19] == "syntax-keyword"@);
    assert(l[20] == "syntax-string"@);
    assert(l[21] == "syntax-number"@);
    assert(l[22] == "syntax-function"@);
    assert(l[23] == "syntax-type"@);
    assert(l[24] == "syntax-property"@);
    assert(l[25] == "syntax-operator"@);
    assert(l[26] == "syntax-variable"@);
    assert(l[27] == "syntax-builtin"@);
    assert(l[28] == "syntax-parameter"@);
    assert(l[29] == "syntax-attribute"@);
}

/// The roles that a configuration can colour.
pub open spec fn role_list() -> Seq<Seq<char>> {
    seq![
        "fg"@,
        "dim"@,
        "border"@,
        "border-focus"@,
        "accent"@,
        "category"@,
        "mark"@,
        "reviewed"@,
        "warn"@,
        "add-fg"@,
        "del-fg"@,
        "add-bg"@,
        "del-bg"@,
        "add-strong-bg"@,
        "del-strong-bg"@,
        "select-bg"@,
        "match-bg"@,
        "match-current-bg"@,
        "syntax-comment"@,
        "syntax-keyword"@,
        "syntax-string"@,
        "syntax-number"@,
        "syntax-function"@,
        "syntax-type"@,
        "syntax-property"@,
        "syntax-operator"@,
        "syntax-variable"@,
        "syntax-builtin"@,
        "syntax-parameter"@,
        "syntax-attribute"@,
    ]
}

/// The roles that a configuration can colour.
pub fn theme_roles() -> (r: Vec<&'static str>)
    ensures
        r@.len() == role_list().len(),
        forall|i: int| 0 <= i < r@.len() ==> (#[trigger] r@[i])@ == role_list()[i],
{
    let all: Vec<&'static str> = vec![
        "fg",
        "dim",
        "border",
        "border-focus",
        "accent",
        "category",
        "mark",
        "reviewed",
        "warn",
        "add-fg",
        "del-fg",
        "add-bg",
        "del-bg",
        "add-strong-bg",
        "del-strong-bg",
        "select-bg",
        "match-bg",
        "match-current-bg",
        "syntax-comment",
        "syntax-keyword",
        "syntax-string",
        "syntax-number",
        "syntax-function",
        "syntax-type",
        "syntax-property",
        "syntax-operator",
        "syntax-variable",
        "syntax-builtin",
        "syntax-parameter",
        "syntax-attribute",
    ];
    assert(all@[0]@ == role_list()[0]);
    assert(all@[1]@ == role_list()[1]);
    assert(all@[2]@ == role_list()[2]);
    assert(all@[3]@ == role_list()[3]);
    assert(all@[4]@ == role_list()[4]);
    assert(all@[5]@ == role_list()[5]);
    assert(all@[6]@ == role_list()[6]);
    assert(all@[7]@ == role_list()[7]);
    assert(all@[8]@ == role_list()[8]);
    assert(all@[9]@ == role_list()[9]);
    assert(all@[10]@ == role_list()[10]);
    assert(all@[11]@ == role_list()[11]);
    assert(all@[12]@ == role_list()[12]);
    assert(all@[13]@ == role_list()[13]);
    assert(all@[14]@ == role_list()[14]);
    assert(all@[15]@ == role_list()[15]);
    assert(all@[16]@ == role_list()[16]);
    assert(all@[17]@ == role_list()[17]);
    assert(all@[18]@ == role_list()[18]);
    assert(all@[19]@ == role_list()[19]);
    assert(all@[20]@ == role_list()[20]);
    assert(all@[21]@ == role_list()[21]);
    assert(all@[22]@ == role_list()[22]);
    assert(all@[23]@ == role_list()[23]);
    assert(all@[24]@ == role_list()[24]);
    assert(all@[25]@ == role_list()[25]);
    assert(all@[26]@ == role_list()[26]);
    assert(all@[27]@ == role_list()[27]);
    assert(all@[28]@ == role_list()[28]);
    assert(all@[29]@ == role_list()[29]);
    all
}

/// A theme's colour for a role; no colour of its own for an unknown role.
pub open spec fn role_color(t: Theme, role: Seq<char>) -> Color {
    if role == "fg"@ {
        t.fg
    } else if role == "dim"@ {
        t.dim
    } else if role == "border"@ {
        t.border
    } else if role == "border-focus"@ {
        t.border_focus
    } else if role == "accent"@ {
        t.accent
    } else if role == "category"@ {
        t.category
    } else if role == "mark"@ {
        t.mark
    } else if role == "reviewed"@ {
        t.reviewed
    } else if role == "warn"@ {
        t.warn
    } else if role == "add-fg"@ {
        t.add_fg
    } else if role == "del-fg"@ {
        t.del_fg
    } else if role == "add-bg"@ {
        t.add_bg
    } else if role == "del-bg"@ {
        t.del_bg
    } else if role == "add-strong-bg"@ {
        t.add_strong_bg
    } else if role == "del-strong-bg"@ {
        t.del_strong_bg
    } else if role == "select-bg"@ {
        t.select_bg
    } else if role == "match-bg"@ {
        t.match_bg
    } else if role == "match-current-bg"@ {
        t.match_cur_bg
    } else if role == "syntax-comment"@ {
        t.syn.comment
    } else if role == "syntax-keyword"@ {
        t.syn.keyword
    } else if role == "syntax-string"@ {
        t.syn.string
    } else if role == "syntax-number"@ {
        t.syn.number
    } else if role == "syntax-function"@ {
        t.syn.function
    } else if role == "syntax-type"@ {
        t.syn.type_
    } else if role == "syntax-property"@ {
        t.syn.property
    } else if role == "syntax-operator"@ {
        t.syn.operator
    } else if role == "syntax-variable"@ {
        t.syn.variable
    } else if role == "syntax-builtin"@ {
        t.syn.builtin
    } else if role == "syntax-parameter"@ {
        t.syn.param
    } else if role == "syntax-attribute"@ {
        t.syn.attribute
    } else {
        Color::Reset
    }
}

/// The theme with one role coloured `c`; unchanged for an unknown role.
pub open spec fn with_role(t: Theme, role: Seq<char>, c: Color) -> Theme {
    if role == "fg"@ {
        Theme { fg: c, ..t }
    } else if role == "dim"@ {
        Theme { dim: c, ..t }
    } else if role == "border"@ {
        Theme { border: c, ..t }
    } else if role == "border-focus"@ {
        Theme { border_focus: c, ..t }
    } else if role == "accent"@ {
        Theme { accent: c, ..t }
    } else if role == "category"@ {
        Theme { category: c, ..t }
    } else if role == "mark"@ {
        Theme { mark: c, ..t }
    } else if role == "reviewed"@ {
        Theme { reviewed: c, ..t }
    } else if role == "warn"@ {
        Theme { warn: c, ..t }
    } else if role == "add-fg"@ {
        Theme { add_fg: c, ..t }
    } else if role == "del-fg"@ {
        Theme { del_fg: c, ..t }
    } else if role == "add-bg"@ {
        Theme { add_bg: c, ..t }
    } else if role == "del-bg"@ {
        Theme { del_bg: c, ..t }
    } else if role == "add-strong-bg"@ {
        Theme { add_strong_bg: c, ..t }
    } else if role == "del-strong-bg"@ {
        Theme { del_strong_bg: c, ..t }
    } else if role == "select-bg"@ {
        Theme { select_bg: c, ..t }
    } else if role == "match-bg"@ {
        Theme { match_bg: c, ..t }
    } else if role == "match-current-bg"@ {
        Theme { match_cur_bg: c, ..t }
    } else if role == "syntax-comment"@ {
        Theme { syn: Syntax { comment: c, ..t.syn }, ..t }
    } else if role == "syntax-keyword"@ {
        Theme { syn: Syntax { keyword: c, ..t.syn }, ..t }
    } else if role == "syntax-string"@ {
        Theme { syn: Syntax { string: c, ..t.syn }, ..t }
    } else if role == "syntax-number"@ {
        Theme { syn: Syntax { number: c, ..t.syn }, ..t }
    } else if role == "syntax-function"@ {
        Theme { syn: Syntax { function: c, ..t.syn }, ..t }
    } else if role == "syntax-type"@ {
        Theme { syn: Syntax { type_: c, ..t.syn }, ..t }
    } else if role == "syntax-property"@ {
        Theme { syn: Syntax { property: c, ..t.syn }, ..t }
    } else if role == "syntax-operator"@ {
        Theme { syn: Syntax { operator: c, ..t.syn }, ..t }
    } else if role == "syntax-variable"@ {
        Theme { syn: Syntax { variable: c, ..t.syn }, ..t }
    } else if role == "syntax-builtin"@ {
        Theme { syn: Syntax { builtin: c, ..t.syn }, ..t }
    } else if role == "syntax-parameter"@ {
        Theme { syn: Syntax { param: c, ..t.syn }, ..t }
    } else if role == "syntax-attribute"@ {
        Theme { syn: Syntax { attribute: c, ..t.syn }, ..t }
    } else {
        t
    }
}

pub fn theme_role_color(t: &Theme, role: &str) -> (r: Color)
    ensures
        r == role_color(*t, role@),
{
    if same(role, "fg") {
        return t.fg;
    }
    if same(role, "dim") {
        return t.dim;
    }
    if same(role, "border") {
        return t.border;
    }
    if same(role, "border-focus") {
        return t.border_focus;
    }
    if same(role, "accent") {
        return t.accent;
    }
    if same(role, "category") {
        return t.category;
    }
    if same(role, "mark") {
        return t.mark;
    }
    if same(role, "reviewed") {
        return t.reviewed;
    }
    if same(role, "warn") {
        return t.warn;
    }
    if same(role, "add-fg") {
        return t.add_fg;
    }
    if same(role, "del-fg") {
        return t.del_fg;
    }
    if same(role, "add-bg") {
        return t.add_bg;
    }
    if same(role, "del-bg") {
        return t.del_bg;
    }
    if same(role, "add-strong-bg") {
        return t.add_strong_bg;
    }
    if same(role, "del-strong-bg") {
        return t.del_strong_bg;
    }
    if same(role, "select-bg") {
        return t.select_bg;
    }
    if same(role, "match-bg") {
        return t.match_bg;
    }
    if same(role, "match-current-bg") {
        return t.match_cur_bg;
    }
    if same(role, "syntax-comment") {
        return t.syn.comment;
    }
    if same(role, "syntax-keyword") {
        return t.syn.keyword;
    }
    if same(role, "syntax-string") {
        return t.syn.string;
    }
    if same(role, "syntax-number") {
        return t.syn.number;
    }
    if same(role, "syntax-function") {
        return t.syn.function;
    }
    if same(role, "syntax-type") {
        return t.syn.type_;
    }
    if same(role, "syntax-property") {
        return t.syn.property;
    }
    if same(role, "syntax-operator") {
        return t.syn.operator;
    }
    if same(role, "syntax-variable") {
        return t.syn.variable;
    }
    if same(role, "syntax-builtin") {
        return t.syn.builtin;
    }
    if same(role, "syntax-parameter") {
        return t.syn.param;
    }
    if same(role, "syntax-attribute") {
        return t.syn.attribute;
    }
    Color::Reset
}

fn set_role(t: &mut Theme, role: &str, c: Color)
    ensures
        *final(t) == with_role(*old(t), role@, c),
{
    if same(role, "fg") {
        t.fg = c;
        return;
    }
    if same(role, "dim") {
        t.dim = c;
        return;
    }
    if same(role, "border") {
        t.border = c;
        return;
    }
    if same(role, "border-focus") {
        t.border_focus = c;
        return;
    }
    if same(role, "accent") {
        t.accent = c;
        return;
    }
    if same(role, "category") {
        t.category = c;
        return;
    }
    if same(role, "mark") {
        t.mark = c;
        return;
    }
    if same(role, "reviewed") {
        t.reviewed = c;
        return;
    }
    if same(role, "warn") {
        t.warn = c;
        return;
    }
    if same(role, "add-fg") {
        t.add_fg = c;
        return;
    }
    if same(role, "del-fg") {
        t.del_fg = c;
        return;
    }
    if same(role, "add-bg") {
        t.add_bg = c;
        return;
    }
    if same(role, "del-bg") {
        t.del_bg = c;
        return;
    }
    if same(role, "add-strong-bg") {
        t.add_strong_bg = c;
        return;
    }
    if same(role, "del-strong-bg") {
        t.del_strong_bg = c;
        return;
    }
    if same(role, "select-bg") {
        t.select_bg = c;
        return;
    }
    if same(role, "match-bg") {
        t.match_bg = c;
        return;
    }
    if same(role, "match-current-bg") {
        t.match_cur_bg = c;
        return;
    }
    if same(role, "syntax-comment") {
        t.syn.comment = c;
        return;
    }
    if same(role, "syntax-keyword") {
        t.syn.keyword = c;
        return;
    }
    if same(role, "syntax-string") {
        t.syn.string = c;
        return;
    }
    if same(role, "syntax-number") {
        t.syn.number = c;
        return;
    }
    if same(role, "syntax-function") {
        t.syn.function = c;
        return;
    }
    if same(role, "syntax-type") {
        t.syn.type_ = c;
        return;
    }
    if same(role, "syntax-property") {
        t.syn.property = c;
        return;
    }
    if same(role, "syntax-operator") {
        t.syn.operator = c;
        return;
    }
    if same(role, "syntax-variable") {
        t.syn.variable = c;
        return;
    }
    if same(role, "syntax-builtin") {
        t.syn.builtin = c;
        return;
    }
    if same(role, "syntax-parameter") {
        t.syn.param = c;
        return;
    }
    if same(role, "syntax-attribute") {
        t.syn.attribute = c;
        return;
    }
}

/// The theme with each of the colours laid over it, in order.
pub open spec fn with_roles(t: Theme, colors: Seq<(String, Color)>) -> Theme
    decreases colors.len(),
{
    if colors.len() == 0 {
        t
    } else {
        with_role(with_roles(t, colors.drop_last()), colors.last().0@, colors.last().1)
    }
}

pub fn apply_theme_colors(t: Theme, colors: &[(String, Color)]) -> (r: Theme)
    ensures
        r == with_roles(t, colors@),
{
    let mut out = t;
    for i in 0..colors.len()
        invariant
            out == with_roles(t, colors@.take(i as int)),
    {
        assert(colors@.take(i + 1).drop_last() == colors@.take(i as int));
        set_role(&mut out, &colors[i].0, colors[i].1);
    }
    assert(colors@.take(colors@.len() as int) == colors@);
    out
}

/// Whether a text names a role.
pub fn is_role(role: &str) -> (r: bool)
    ensures
        r == role_list().contains(role@),
{
    let all = theme_roles();
    for i in 0..all.len()
        invariant
            all@.len() == role_list().len(),
            forall|k: int| 0 <= k < all@.len() ==> (#[trigger] all@[k])@ == role_list()[k],
            forall|k: int| 0 <= k < i ==> role_list()[k] != role@,
    {
        if same(all[i], role) {
            assert(all@[i as int]@ == role_list()[i as int]);
            return true;
        }
    }
    false
}

/// What is written to a role is read back from it, and every other role keeps
/// its colour.
pub proof fn law_a_role_reads_back_what_was_written(t: Theme, role: Seq<char>, other: Seq<char>, c: Color)
    requires
        role_list().contains(role),
    ensures
        role_color(with_role(t, role, c), role) == c,
        other != role ==> role_color(with_role(t, role, c), other) == role_color(t, other),
        with_role(t, role, c).name == t.name,
{
    let k = choose|k: int| 0 <= k < role_list().len() && role_list()[k] == role;
    let l = role_list();
    assert(l[0] == "fg"@);
    assert(l[1] == "dim"@);
    assert(l[2] == "border"@);
    assert(l[3] == "border-focus"@);
    assert(l[4] == "accent"@);
    assert(l[5] == "category"@);
    assert(l[6] == "mark"@);
    assert(l[7] == "reviewed"@);
    assert(l[8] == "warn"@);
    assert(l[9] == "add-fg"@);
    assert(l[10] == "del-fg"@);
    assert(l[11] == "add-bg"@);
    assert(l[12] == "del-bg"@);
    assert(l[13] == "add-strong-bg"@);
    assert(l[14] == "del-strong-bg"@);
    assert(l[15] == "select-bg"@);
    assert(l[16] == "match-bg"@);
    assert(l[17] == "match-current-bg"@);
    assert(l[18] == "syntax-comment"@);
    assert(l[19] == "syntax-keyword"@);
    assert(l[20] == "syntax-string"@);
    assert(l[21] == "syntax-number"@);
    assert(l[22] == "syntax-function"@);
    assert(l[23] == "syntax-type"@);
    assert(l[24] == "syntax-property"@);
    assert(l[25] == "syntax-operator"@);
    assert(l[26] == "syntax-variable"@);
    assert(l[27] == "syntax-builtin"@);
    assert(l[28] == "syntax-parameter"@);
    assert(l[29] == "syntax-attribute"@);
}

/// The colour that `#rrggbb` or `rrggbb` writes; no other form is one.
pub open spec fn hex_read(text: Seq<char>) -> Option<Color> {
    let t = without_hash(trimmed(text));
    if t.len() == 6 && digits_value(t, 16) is Some {
        Some(hex(digits_value(t, 16)->0 as u32))
    } else {
        None
    }
}

/// `s` without the `#` that it may start with.
pub open spec fn without_hash(s: Seq<char>) -> Seq<char> {
    if s.len() > 0 && s[0] == '#' {
        s.skip(1)
    } else {
        s
    }
}

pub fn parse_hex(text: &str) -> (r: Option<Color>)
    ensures
        r == hex_read(text@),
{
    let cs = chars_of(&trim(text));
    let ghost s = trimmed(text@);
    let from: usize = if cs.len() > 0 && cs[0] == '#' {
        1
    } else {
        0
    };
    let ghost t = s.skip(from as int);
    assert(s.skip(0) =~= s);
    assert(without_hash(s) == t);
    if cs.len() - from != 6 {
        return None;
    }
    if cs[from] == '+' {
        proof {
            assert(t[0] == '+');
            crate::text::lemma_digits_value_none(t, 0);
        }
        return None;
    }
    let digits = slice_string(&cs, from, cs.len());
    assert(digits@ == t);
    proof {
        crate::text::lemma_digits_value_bound(t);
    }
    match parse_number(&digits, 16, 0xffffff) {
        Some(n) => Some(hex(n as u32)),
        None => None,
    }
}

/// Two hexadecimal digits for one channel.
pub open spec fn channel_text(v: u8) -> Seq<char> {
    padded_left(numeral(v as nat, 16), '0', 2)
}

/// A colour as a configuration writes it.
pub open spec fn hex_text(r: u8, g: u8, b: u8) -> Seq<char> {
    "#"@ + channel_text(r) + channel_text(g) + channel_text(b)
}

fn channel(v: u8) -> (r: String)
    ensures
        r@ == channel_text(v),
{
    pad_left(&crate::text::hex_number(v as u64), '0', 2)
}

pub fn hex_label(r: u8, g: u8, b: u8) -> (s: String)
    ensures
        s@ == hex_text(r, g, b),
{
    "#".to_owned().concat(&channel(r)).concat(&channel(g)).concat(&channel(b))
}

proof fn lemma_channel(v: u8)
    ensures
        channel_text(v) == seq![digit(v as nat / 16), digit(v as nat % 16)],
{
    let n = v as nat;
    if n < 16 {
        assert(numeral(n, 16) == seq![digit(n)]);
        assert(n / 16 == 0 && n % 16 == n);
        assert(channel_text(v) =~= seq!['0', digit(n)]);
        assert(digit(0) == '0');
    } else {
        assert(numeral(n / 16, 16) == seq![digit(n / 16)]);
        assert(numeral(n, 16) == numeral(n / 16, 16).push(digit(n % 16)));
        assert(channel_text(v) =~= seq![digit(n / 16), digit(n % 16)]);
    }
}

proof fn lemma_one_digit_more(t: Seq<char>, k: int)
    requires
        0 < k <= t.len(),
    ensures
        digits_value(t.take(k), 16) == (match (digits_value(t.take(k - 1), 16), digit_value(t[k - 1], 16)) {
            (Some(n), Some(d)) => Some(n * 16 + d),
            _ => None,
        }),
{
    assert(t.take(k).drop_last() =~= t.take(k - 1));
}

/// Six digits, by their values.
pub open spec fn six_digits(d: Seq<nat>) -> Seq<char> {
    Seq::new(6, |i: int| digit(d[i]))
}

proof fn lemma_six_digits(d: Seq<nat>)
    requires
        d.len() == 6,
        forall|i: int| 0 <= i < 6 ==> #[trigger] d[i] < 16,
    ensures
        digits_value(six_digits(d), 16) == Some(
            (((((d[0] * 16 + d[1]) * 16 + d[2]) * 16 + d[3]) * 16 + d[4]) * 16 + d[5]) as int,
        ),
{
    let t = six_digits(d);
    assert forall|i: int| 0 <= i < 6 implies digit_value(#[trigger] t[i], 16) == Some(d[i] as int) by {
        assert(t[i] == digit(d[i]));
    }
    assert(t.take(0) =~= Seq::<char>::empty());
    assert(digits_value(t.take(0), 16) == Some(0int));
    lemma_one_digit_more(t, 1);
    lemma_one_digit_more(t, 2);
    lemma_one_digit_more(t, 3);
    lemma_one_digit_more(t, 4);
    lemma_one_digit_more(t, 5);
    lemma_one_digit_more(t, 6);
    assert(t.take(6) =~= t);
}

proof fn lemma_hex_digit(d: nat)
    requires
        d < 16,
    ensures
        !crate::text::is_space(digit(d)),
        digit(d) != '#',
{
}

/// The values of the six digits of a colour.
pub open spec fn color_digits(r: u8, g: u8, b: u8) -> Seq<nat> {
    seq![r as nat / 16, r as nat % 16, g as nat / 16, g as nat % 16, b as nat / 16, b as nat % 16]
}

proof fn lemma_hex_text(r: u8, g: u8, b: u8)
    ensures
        hex_text(r, g, b) == seq!['#'] + six_digits(color_digits(r, g, b)),
{
    lemma_channel(r);
    lemma_channel(g);
    lemma_channel(b);
    reveal_strlit("#");
    let s = hex_text(r, g, b);
    let t = seq!['#'] + six_digits(color_digits(r, g, b));
    assert(s.len() == 7);
    assert forall|i: int| 0 <= i < 7 implies s[i] == t[i] by {}
    assert(s =~= t);
}

proof fn lemma_hashes_off(t: Seq<char>)
    requires
        t.len() > 0,
        t[0] != '#',
        !crate::text::is_space(t.last()),
    ensures
        without_hash(trimmed(seq!['#'] + t)) == t,
{
    let s = seq!['#'] + t;
    assert(s.last() == t.last());
    assert(trimmed(s) == s);
    assert(s.skip(1) =~= t);
    assert(without_hash(t) == t);
}

/// The name of a role is made of small letters and dashes, and is not `name`.
pub proof fn lemma_role_names(role: Seq<char>)
    requires
        role_list().contains(role),
    ensures
        role.len() > 0,
        forall|i: int| 0 <= i < role.len() ==> ('a' <= #[trigger] role[i] <= 'z' || role[i] == '-'),
        role != "name"@,
{
    let k = choose|k: int| 0 <= k < role_list().len() && role_list()[k] == role;
    let l = role_list();
    reveal_strlit("name");
    if k == 0 {
        assert(l[0] == "fg"@);
        reveal_strlit("fg");
        assert(role[0] != 'n');
    } else if k == 1 {
        assert(l[1] == "dim"@);
        reveal_strlit("dim");
        assert(role[0] != 'n');
    } else if k == 2 {
        assert(l[2] == "border"@);
        reveal_strlit("border");
        assert(role[0] != 'n');
    } else if k == 3 {
        assert(l[3] == "border-focus"@);
        reveal_strlit("border-focus");
        assert(role[0] != 'n');
    } else if k == 4 {
        assert(l[4] == "accent"@);
        reveal_strlit("accent");
        assert(role[0] != 'n');
    } else if k == 5 {
        assert(l[5] == "category"@);
        reveal_strlit("category");
        assert(role[0] != 'n');
    } else if k == 6 {
        assert(l[6] == "mark"@);
        reveal_strlit("mark");
        assert(role[0] != 'n');
    } else if k == 7 {
        assert(l[7] == "reviewed"@);
        reveal_strlit("reviewed");
        assert(role[0] != 'n');
    } else if k == 8 {
        assert(l[8] == "warn"@);
        reveal_strlit("warn");
        assert(role[0] != 'n');
    } else if k == 9 {
        assert(l[9] == "add-fg"@);
        reveal_strlit("add-fg");
        assert(role[0] != 'n');
    } else if k == 10 {
        assert(l[10] == "del-fg"@);
        reveal_strlit("del-fg");
        assert(role[0] != 'n');
    } else if k == 11 {
        assert(l[11] == "add-bg"@);
        reveal_strlit("add-bg");
        assert(role[0] != 'n');
    } else if k == 12 {
        assert(l[12] == "del-bg"@);
        reveal_strlit("del-bg");
        assert(role[0] != 'n');
    } else if k == 13 {
        assert(l[13] == "add-strong-bg"@);
        reveal_strlit("add-strong-bg");
        assert(role[0] != 'n');
    } else if k == 14 {
        assert(l[14] == "del-strong-bg"@);
        reveal_strlit("del-strong-bg");
        assert(role[0] != 'n');
    } else if k == 15 {
        assert(l[15] == "select-bg"@);
        reveal_strlit("select-bg");
        assert(role[0] != 'n');
    } else if k == 16 {
        assert(l[16] == "match-bg"@);
        reveal_strlit("match-bg");
        assert(role[0] != 'n');
    } else if k == 17 {
        assert(l[17] == "match-current-bg"@);
        reveal_strlit("match-current-bg");
        assert(role[0] != 'n');
    } else if k == 18 {
        assert(l[18] == "syntax-comment"@);
        reveal_strlit("syntax-comment");
        assert(role[0] != 'n');
    } else if k == 19 {
        assert(l[19] == "syntax-keyword"@);
        reveal_strlit("syntax-keyword");
        assert(role[0] != 'n');
    } else if k == 20 {
        assert(l[20] == "syntax-string"@);
        reveal_strlit("syntax-string");
        assert(role[0] != 'n');
    } else if k == 21 {
        assert(l[21] == "syntax-number"@);
        reveal_strlit("syntax-number");
        assert(role[0] != 'n');
    } else if k == 22 {
        assert(l[22] == "syntax-function"@);
        reveal_strlit("syntax-function");
        assert(role[0] != 'n');
    } else if k == 23 {
        assert(l[23] == "syntax-type"@);
        reveal_strlit("syntax-type");
        assert(role[0] != 'n');
    } else if k == 24 {
        assert(l[24] == "syntax-property"@);
        reveal_strlit("syntax-property");
        assert(role[0] != 'n');
    } else if k == 25 {
        assert(l[25] == "syntax-operator"@);
        reveal_strlit("syntax-operator");
        assert(role[0] != 'n');
    } else if k == 26 {
        assert(l[26] == "syntax-variable"@);
        reveal_strlit("syntax-variable");
        assert(role[0] != 'n');
    } else if k == 27 {
        assert(l[27] == "syntax-builtin"@);
        reveal_strlit("syntax-builtin");
        assert(role[0] != 'n');
    } else if k == 28 {
        assert(l[28] == "syntax-parameter"@);
        reveal_strlit("syntax-parameter");
        assert(role[0] != 'n');
    } else if k == 29 {
        assert(l[29] == "syntax-attribute"@);
        reveal_strlit("syntax-attribute");
        assert(role[0] != 'n');
    }
}

/// Nothing in the text of a colour takes a line of a configuration apart.
pub proof fn lemma_colour_is_plain(r: u8, g: u8, b: u8)
    ensures
        hex_text(r, g, b).len() == 7,
        forall|i: int|
            0 <= i < 7 ==> #[trigger] hex_text(r, g, b)[i] != '"' && hex_text(r, g, b)[i] != '\'' && hex_text(r, g, b)[i]
                != '\n' && hex_text(r, g, b)[i] != '\r',
{
    lemma_hex_text(r, g, b);
    let d = color_digits(r, g, b);
    let s = hex_text(r, g, b);
    assert forall|i: int| 0 <= i < 7 implies #[trigger] s[i] != '"' && s[i] != '\'' && s[i] != '\n' && s[i] != '\r' by {
        if i > 0 {
            assert(s[i] == digit(d[i - 1]));
            assert(d[i - 1] < 16);
        }
    }
}

proof fn lemma_digits_make_the_number(r: nat, g: nat, b: nat)
    ensures
        (((((r / 16 * 16 + r % 16) * 16 + g / 16) * 16 + g % 16) * 16 + b / 16) * 16 + b % 16) == r * 65536 + g * 256
            + b,
{
}

proof fn lemma_number_is_the_color(r: u8, g: u8, b: u8)
    ensures
        hex((r * 65536 + g * 256 + b) as u32) == Color::Rgb(r, g, b),
{
    let n = (r * 65536 + g * 256 + b) as u32;
    assert(n / 65536 == r);
    assert(n / 256 == r * 256 + g);
    assert(n % 256 == b);
}

/// A colour reads back from the text that a configuration writes it as.
pub proof fn law_a_colour_reads_back(r: u8, g: u8, b: u8)
    ensures
        hex_read(hex_text(r, g, b)) == Some(Color::Rgb(r, g, b)),
{
    let d = color_digits(r, g, b);
    let t = six_digits(d);
    lemma_hex_text(r, g, b);
    lemma_hex_digit(d[0]);
    lemma_hex_digit(d[5]);
    lemma_hashes_off(t);
    assert(digits_value(t, 16) == Some(r * 65536 + g * 256 + b)) by {
        lemma_six_digits(d);
        lemma_digits_make_the_number(r as nat, g as nat, b as nat);
    }
    lemma_number_is_the_color(r, g, b);
}

/// Colours that are those of a theme change nothing in it.
pub proof fn law_writing_out_the_colours_changes_nothing(t: Theme, colors: Seq<(String, Color)>)
    requires
        forall|i: int|
            0 <= i < colors.len() ==> (#[trigger] colors[i]).1 == role_color(t, colors[i].0@) && role_list().contains(
                colors[i].0@,
            ),
    ensures
        with_roles(t, colors) == t,
    decreases colors.len(),
{
    if colors.len() > 0 {
        let rest = colors.drop_last();
        assert forall|i: int| 0 <= i < rest.len() implies (#[trigger] rest[i]).1 == role_color(t, rest[i].0@)
            && role_list().contains(rest[i].0@) by {
            assert(rest[i] == colors[i]);
        }
        law_writing_out_the_colours_changes_nothing(t, rest);
        assert(colors.last() == colors[colors.len() - 1]);
        lemma_own_color(t, colors.last().0@);
    }
}

proof fn lemma_own_color(t: Theme, role: Seq<char>)
    requires
        role_list().contains(role),
    ensures
        with_role(t, role, role_color(t, role)) == t,
{
}

} // verus!
