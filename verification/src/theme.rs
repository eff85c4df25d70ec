//! Color themes: every color a `0xRRGGBB` word, the derived shades of the
//! built-in palettes, and the theme file (one hex color per line).

use vstd::prelude::*;
use crate::text::{chars_of, string_of, trim, trim_chars, is_space};

verus! {

/// A complete color theme; every field is a `0xRRGGBB` color.
#[derive(Clone, Copy, PartialEq, Eq, Structural)]
pub struct Theme {
    /// App background.
    pub bg: u32,
    /// Sidebar background.
    pub sidebar: u32,
    /// Elevated surfaces (menus, panels, the active item).
    pub surface: u32,
    /// Hover background.
    pub hover: u32,
    /// Selected background.
    pub selected: u32,
    /// Hairline borders.
    pub border: u32,
    /// Stronger dividers.
    pub border_strong: u32,
    /// Primary text.
    pub text: u32,
    /// Secondary text.
    pub text_muted: u32,
    /// Section headers and placeholders.
    pub text_dim: u32,
    /// Folders, carets, highlights.
    pub accent: u32,
}

/// A channel value limited to 255.
pub open spec fn clamp8_spec(x: int) -> int {
    if x > 0xff {
        0xff
    } else {
        x
    }
}

pub fn clamp8(x: u32) -> (r: u32)
    ensures
        r == clamp8_spec(x as int),
{
    if x > 0xff {
        0xff
    } else {
        x
    }
}

/// Red, green and blue of a `0xRRGGBB` word.
pub open spec fn red(c: u32) -> int {
    (c as int / 0x10000) % 0x100
}

pub open spec fn green(c: u32) -> int {
    (c as int / 0x100) % 0x100
}

pub open spec fn blue(c: u32) -> int {
    c as int % 0x100
}

/// The color with red, green and blue `r`, `g`, `b`.
pub open spec fn rgb_word(r: int, g: int, b: int) -> int {
    r * 0x10000 + g * 0x100 + b
}

/// Every channel of `c` times `num / den`, rounded down and limited to 255.
pub open spec fn scale_spec(c: u32, num: u32, den: u32) -> u32 {
    rgb_word(
        clamp8_spec(red(c) * num / den as int),
        clamp8_spec(green(c) * num / den as int),
        clamp8_spec(blue(c) * num / den as int),
    ) as u32
}

/// The largest factor numerator a channel can be multiplied by in `u32`.
pub const MAX_NUM: u32 = 16843009;

fn scale_channel(x: u32, num: u32, den: u32) -> (r: u32)
    requires
        x <= 0xff,
        num <= MAX_NUM,
        den > 0,
    ensures
        r == clamp8_spec(x * num / den as int),
        r <= 0xff,
{
    assert(x * num <= 0xff * MAX_NUM) by (nonlinear_arith)
        requires
            x <= 0xff,
            num <= MAX_NUM,
    ;
    clamp8(x * num / den)
}

/// Scales every channel of a color by `num / den` (lighter above one, darker
/// below), limiting each channel to 255.
pub fn scale(c: u32, num: u32, den: u32) -> (r: u32)
    requires
        num <= MAX_NUM,
        den > 0,
    ensures
        r == scale_spec(c, num, den),
{
    let r0 = (c >> 16) & 0xff;
    let g0 = (c >> 8) & 0xff;
    let b0 = c & 0xff;
    assert(r0 == red(c) && g0 == green(c) && b0 == blue(c)) by (bit_vector)
        requires
            r0 == (c >> 16) & 0xff,
            g0 == (c >> 8) & 0xff,
            b0 == c & 0xff,
    ;
    let r = scale_channel(r0, num, den);
    let g = scale_channel(g0, num, den);
    let b = scale_channel(b0, num, den);
    let out = (r << 16) | (g << 8) | b;
    assert(out == r * 0x10000 + g * 0x100 + b) by (bit_vector)
        requires
            r <= 0xff,
            g <= 0xff,
            b <= 0xff,
            out == (r << 16) | (g << 8) | b,
    ;
    out
}

/// A dark theme from a background, a text and an accent color: surfaces
/// lighter than the background, muted text darker.
pub open spec fn dark_spec(bg: u32, text: u32, accent: u32) -> Theme {
    Theme {
        bg,
        sidebar: scale_spec(bg, 8, 10),
        surface: scale_spec(bg, 15, 10),
        hover: scale_spec(bg, 13, 10),
        selected: scale_spec(bg, 19, 10),
        border: scale_spec(bg, 14, 10),
        border_strong: scale_spec(bg, 20, 10),
        text,
        text_muted: scale_spec(text, 7, 10),
        text_dim: scale_spec(text, 5, 10),
        accent,
    }
}

/// A light theme: surfaces darker than the background, muted text lighter.
pub open spec fn light_spec(bg: u32, text: u32, accent: u32) -> Theme {
    Theme {
        bg,
        sidebar: scale_spec(bg, 95, 100),
        surface: scale_spec(bg, 90, 100),
        hover: scale_spec(bg, 93, 100),
        selected: scale_spec(bg, 84, 100),
        border: scale_spec(bg, 88, 100),
        border_strong: scale_spec(bg, 80, 100),
        text,
        text_muted: scale_spec(text, 13, 10),
        text_dim: scale_spec(text, 16, 10),
        accent,
    }
}

pub fn dark_theme(bg: u32, text: u32, accent: u32) -> (r: Theme)
    ensures
        r == dark_spec(bg, text, accent),
{
    Theme {
        bg,
        sidebar: scale(bg, 8, 10),
        surface: scale(bg, 15, 10),
        hover: scale(bg, 13, 10),
        selected: scale(bg, 19, 10),
        border: scale(bg, 14, 10),
        border_strong: scale(bg, 20, 10),
        text,
        text_muted: scale(text, 7, 10),
        text_dim: scale(text, 5, 10),
        accent,
    }
}

pub fn light_theme(bg: u32, text: u32, accent: u32) -> (r: Theme)
    ensures
        r == light_spec(bg, text, accent),
{
    Theme {
        bg,
        sidebar: scale(bg, 95, 100),
        surface: scale(bg, 90, 100),
        hover: scale(bg, 93, 100),
        selected: scale(bg, 84, 100),
        border: scale(bg, 88, 100),
        border_strong: scale(bg, 80, 100),
        text,
        text_muted: scale(text, 13, 10),
        text_dim: scale(text, 16, 10),
        accent,
    }
}

/// A translucent variant of a color for floating panels: the `0xRRGGBBAA`
/// word of `color` with alpha `a` (its low byte).
pub open spec fn alpha_spec(color: u32, a: u32) -> u32 {
    ((color as int % 0x1000000) * 0x100 + a as int % 0x100) as u32
}

pub fn alpha(color: u32, a: u32) -> (r: u32)
    ensures
        r == alpha_spec(color, a),
{
    let r = (color << 8) | (a & 0xff);
    assert(r == ((color as int % 0x1000000) * 0x100 + a as int % 0x100) as u32) by (bit_vector)
        requires
            r == (color << 8) | (a & 0xff),
    ;
    r
}

fn text(s: &str) -> (r: String)
    ensures
        r@ == s@,
{
    s.to_owned()
}

/// The signature dark theme.
pub open spec fn shuffle_dark() -> Theme {
    Theme { bg: 0x1e1e22, sidebar: 0x17171a, surface: 0x2f2f3a, hover: 0x2a2a30, selected: 0x33334a, border: 0x303036, border_strong: 0x3a3a44, text: 0xf0f0f4, text_muted: 0x8a8a92, text_dim: 0x6b6b73, accent: 0x7aa2f7 }
}

/// The built-in palettes offered in Settings, by name.
pub open spec fn preset_list() -> Seq<(Seq<char>, Theme)> {
    seq![
        ("Shuffle Dark"@, shuffle_dark()),
        ("Catppuccin Mocha"@, Theme { bg: 0x1e1e2e, sidebar: 0x181825, surface: 0x313244, hover: 0x2a2b3c, selected: 0x45475a, border: 0x313244, border_strong: 0x45475a, text: 0xcdd6f4, text_muted: 0xa6adc8, text_dim: 0x6c7086, accent: 0x89b4fa }),
        ("Catppuccin Macchiato"@, Theme { bg: 0x24273a, sidebar: 0x1e2030, surface: 0x363a4f, hover: 0x2e3148, selected: 0x494d64, border: 0x363a4f, border_strong: 0x494d64, text: 0xcad3f5, text_muted: 0xa5adcb, text_dim: 0x6e738d, accent: 0x8aadf4 }),
        ("Catppuccin Frappé"@, Theme { bg: 0x303446, sidebar: 0x292c3c, surface: 0x414559, hover: 0x3a3e52, selected: 0x51576d, border: 0x414559, border_strong: 0x51576d, text: 0xc6d0f5, text_muted: 0xa5adce, text_dim: 0x737994, accent: 0x8caaee }),
        ("Catppuccin Latte"@, Theme { bg: 0xeff1f5, sidebar: 0xe6e9ef, surface: 0xccd0da, hover: 0xdce0e8, selected: 0xbcc0cc, border: 0xccd0da, border_strong: 0xbcc0cc, text: 0x4c4f69, text_muted: 0x6c6f85, text_dim: 0x9ca0b0, accent: 0x1e66f5 }),
        ("Dracula"@, dark_spec(0x282a36, 0xf8f8f2, 0xbd93f9)),
        ("Nord"@, dark_spec(0x2e3440, 0xe5e9f0, 0x88c0d0)),
        ("Tokyo Night"@, dark_spec(0x1a1b26, 0xc0caf5, 0x7aa2f7)),
        ("Gruvbox Dark"@, dark_spec(0x282828, 0xebdbb2, 0xfe8019)),
        ("One Dark"@, dark_spec(0x282c34, 0xabb2bf, 0x61afef)),
        ("Solarized Dark"@, dark_spec(0x002b36, 0x93a1a1, 0x268bd2)),
        ("Monokai"@, dark_spec(0x272822, 0xf8f8f2, 0xa6e22e)),
        ("Everforest"@, dark_spec(0x2d353b, 0xd3c6aa, 0xa7c080)),
        ("Rosé Pine"@, dark_spec(0x191724, 0xe0def4, 0xeb6f92)),
        ("Forest"@, dark_spec(0x10211a, 0xd6f5e3, 0x4ade80)),
        ("Crimson"@, dark_spec(0x211315, 0xf8dcdc, 0xf87171)),
        ("Ocean"@, dark_spec(0x0e1a26, 0xd6ecff, 0x38bdf8)),
        ("Grape"@, dark_spec(0x1a1326, 0xece0f8, 0xc084fc)),
        ("Amber"@, dark_spec(0x221a10, 0xf8ecd6, 0xfbbf24)),
        ("Rose"@, dark_spec(0x241620, 0xf8dcee, 0xf472b6)),
        ("Teal"@, dark_spec(0x0e201e, 0xd6f5f0, 0x2dd4bf)),
        ("Sunset"@, dark_spec(0x241712, 0xfae5d8, 0xfb7185)),
        ("Solarized Light"@, light_spec(0xfdf6e3, 0x586e75, 0x268bd2)),
        ("GitHub Light"@, light_spec(0xffffff, 0x24292f, 0x0969da)),
        ("Rosé Pine Dawn"@, light_spec(0xfaf4ed, 0x575279, 0xd7827e)),
        ("Mint"@, light_spec(0xf0faf4, 0x14532d, 0x16a34a)),
        ("Sky"@, light_spec(0xeff6ff, 0x1e3a5f, 0x2563eb)),
        ("Lavender"@, light_spec(0xf6f2fe, 0x4c3a66, 0x8b5cf6)),
    ]
}

#[verifier::spinoff_prover]
#[verifier::rlimit(100)]
pub fn presets() -> (r: Vec<(String, Theme)>)
    ensures
        r@.map_values(|p: (String, Theme)| (p.0@, p.1)) == preset_list(),
{
    let mut r: Vec<(String, Theme)> = Vec::new();
    r.push((text("Shuffle Dark"), Theme { bg: 0x1e1e22, sidebar: 0x17171a, surface: 0x2f2f3a, hover: 0x2a2a30, selected: 0x33334a, border: 0x303036, border_strong: 0x3a3a44, text: 0xf0f0f4, text_muted: 0x8a8a92, text_dim: 0x6b6b73, accent: 0x7aa2f7 }));
    r.push((text("Catppuccin Mocha"), Theme { bg: 0x1e1e2e, sidebar: 0x181825, surface: 0x313244, hover: 0x2a2b3c, selected: 0x45475a, border: 0x313244, border_strong: 0x45475a, text: 0xcdd6f4, text_muted: 0xa6adc8, text_dim: 0x6c7086, accent: 0x89b4fa }));
    r.push((text("Catppuccin Macchiato"), Theme { bg: 0x24273a, sidebar: 0x1e2030, surface: 0x363a4f, hover: 0x2e3148, selected: 0x494d64, border: 0x363a4f, border_strong: 0x494d64, text: 0xcad3f5, text_muted: 0xa5adcb, text_dim: 0x6e738d, accent: 0x8aadf4 }));
    r.push((text("Catppuccin Frappé"), Theme { bg: 0x303446, sidebar: 0x292c3c, surface: 0x414559, hover: 0x3a3e52, selected: 0x51576d, border: 0x414559, border_strong: 0x51576d, text: 0xc6d0f5, text_muted: 0xa5adce, text_dim: 0x737994, accent: 0x8caaee }));
    r.push((text("Catppuccin Latte"), Theme { bg: 0xeff1f5, sidebar: 0xe6e9ef, surface: 0xccd0da, hover: 0xdce0e8, selected: 0xbcc0cc, border: 0xccd0da, border_strong: 0xbcc0cc, text: 0x4c4f69, text_muted: 0x6c6f85, text_dim: 0x9ca0b0, accent: 0x1e66f5 }));
    r.push((text("Dracula"), dark_theme(0x282a36, 0xf8f8f2, 0xbd93f9)));
    r.push((text("Nord"), dark_theme(0x2e3440, 0xe5e9f0, 0x88c0d0)));
    r.push((text("Tokyo Night"), dark_theme(0x1a1b26, 0xc0caf5, 0x7aa2f7)));
    r.push((text("Gruvbox Dark"), dark_theme(0x282828, 0xebdbb2, 0xfe8019)));
    r.push((text("One Dark"), dark_theme(0x282c34, 0xabb2bf, 0x61afef)));
    r.push((text("Solarized Dark"), dark_theme(0x002b36, 0x93a1a1, 0x268bd2)));
    r.push((text("Monokai"), dark_theme(0x272822, 0xf8f8f2, 0xa6e22e)));
    r.push((text("Everforest"), dark_theme(0x2d353b, 0xd3c6aa, 0xa7c080)));
    r.push((text("Rosé Pine"), dark_theme(0x191724, 0xe0def4, 0xeb6f92)));
    r.push((text("Forest"), dark_theme(0x10211a, 0xd6f5e3, 0x4ade80)));
    r.push((text("Crimson"), dark_theme(0x211315, 0xf8dcdc, 0xf87171)));
    r.push((text("Ocean"), dark_theme(0x0e1a26, 0xd6ecff, 0x38bdf8)));
    r.push((text("Grape"), dark_theme(0x1a1326, 0xece0f8, 0xc084fc)));
    r.push((text("Amber"), dark_theme(0x221a10, 0xf8ecd6, 0xfbbf24)));
    r.push((text("Rose"), dark_theme(0x241620, 0xf8dcee, 0xf472b6)));
    r.push((text("Teal"), dark_theme(0x0e201e, 0xd6f5f0, 0x2dd4bf)));
    r.push((text("Sunset"), dark_theme(0x241712, 0xfae5d8, 0xfb7185)));
    r.push((text("Solarized Light"), light_theme(0xfdf6e3, 0x586e75, 0x268bd2)));
    r.push((text("GitHub Light"), light_theme(0xffffff, 0x24292f, 0x0969da)));
    r.push((text("Rosé Pine Dawn"), light_theme(0xfaf4ed, 0x575279, 0xd7827e)));
    r.push((text("Mint"), light_theme(0xf0faf4, 0x14532d, 0x16a34a)));
    r.push((text("Sky"), light_theme(0xeff6ff, 0x1e3a5f, 0x2563eb)));
    r.push((text("Lavender"), light_theme(0xf6f2fe, 0x4c3a66, 0x8b5cf6)));
    proof {
        assert(r@.map_values(|p: (String, Theme)| (p.0@, p.1)) =~= preset_list());
    }
    r
}

/// The theme every fresh start uses: the first preset.
pub open spec fn default_spec() -> Theme {
    shuffle_dark()
}

impl Default for Theme {
    fn default() -> (r: Theme)
        ensures
            r == default_spec(),
    {
        Theme {
            bg: 0x1e1e22,
            sidebar: 0x17171a,
            surface: 0x2f2f3a,
            hover: 0x2a2a30,
            selected: 0x33334a,
            border: 0x303036,
            border_strong: 0x3a3a44,
            text: 0xf0f0f4,
            text_muted: 0x8a8a92,
            text_dim: 0x6b6b73,
            accent: 0x7aa2f7,
        }
    }
}

/// Background colors offered one by one in Settings.
pub fn bg_options() -> (r: Vec<u32>)
    ensures
        r@ == seq![0x1e1e22u32, 0x101014, 0x1e1e2e, 0x24273a, 0x303446, 0x232334, 0xeff1f5],
{
    let mut r: Vec<u32> = Vec::new();
    r.push(0x1e1e22);
    r.push(0x101014);
    r.push(0x1e1e2e);
    r.push(0x24273a);
    r.push(0x303446);
    r.push(0x232334);
    r.push(0xeff1f5);
    proof {
        assert(r@ =~= seq![0x1e1e22u32, 0x101014, 0x1e1e2e, 0x24273a, 0x303446, 0x232334, 0xeff1f5]);
    }
    r
}

/// Text colors offered one by one in Settings.
pub fn text_options() -> (r: Vec<u32>)
    ensures
        r@ == seq![0xf0f0f4u32, 0xcdd6f4, 0xcad3f5, 0xc6d0f5, 0xb0b0b8, 0x4c4f69],
{
    let mut r: Vec<u32> = Vec::new();
    r.push(0xf0f0f4);
    r.push(0xcdd6f4);
    r.push(0xcad3f5);
    r.push(0xc6d0f5);
    r.push(0xb0b0b8);
    r.push(0x4c4f69);
    proof {
        assert(r@ =~= seq![0xf0f0f4u32, 0xcdd6f4, 0xcad3f5, 0xc6d0f5, 0xb0b0b8, 0x4c4f69]);
    }
    r
}

/// Hover colors offered one by one in Settings.
pub fn hover_options() -> (r: Vec<u32>)
    ensures
        r@ == seq![0x2a2a30u32, 0x313244, 0x363a4f, 0x414559, 0x3a3a44, 0xdce0e8],
{
    let mut r: Vec<u32> = Vec::new();
    r.push(0x2a2a30);
    r.push(0x313244);
    r.push(0x363a4f);
    r.push(0x414559);
    r.push(0x3a3a44);
    r.push(0xdce0e8);
    proof {
        assert(r@ =~= seq![0x2a2a30u32, 0x313244, 0x363a4f, 0x414559, 0x3a3a44, 0xdce0e8]);
    }
    r
}

// ----- the theme file ------------------------------------------------------

/// The eleven colors of a theme, in file order.
pub open spec fn theme_words(t: Theme) -> Seq<u32> {
    seq![
        t.bg,
        t.sidebar,
        t.surface,
        t.hover,
        t.selected,
        t.border,
        t.border_strong,
        t.text,
        t.text_muted,
        t.text_dim,
        t.accent,
    ]
}

/// The theme with these eleven colors, in file order.
pub open spec fn theme_of_words(v: Seq<u32>) -> Theme {
    Theme {
        bg: v[0],
        sidebar: v[1],
        surface: v[2],
        hover: v[3],
        selected: v[4],
        border: v[5],
        border_strong: v[6],
        text: v[7],
        text_muted: v[8],
        text_dim: v[9],
        accent: v[10],
    }
}

/// The lowercase hex digit of `d` (0..16).
pub open spec fn hex_digit(d: int) -> char {
    if d < 10 {
        (('0' as int) + d) as char
    } else {
        (('a' as int) + d - 10) as char
    }
}

/// The lowercase hex digits of `n`, without leading zeros.
pub open spec fn hex_digits(n: nat) -> Seq<char>
    decreases n,
{
    if n < 16 {
        seq![hex_digit(n as int)]
    } else {
        hex_digits(n / 16).push(hex_digit((n % 16) as int))
    }
}

/// `n` in lowercase hex, zero-padded to at least six digits (`{:06x}`).
pub open spec fn hex6(n: nat) -> Seq<char> {
    let d = hex_digits(n);
    if d.len() < 6 {
        Seq::new((6 - d.len()) as nat, |i: int| '0') + d
    } else {
        d
    }
}

/// The theme file's text for these colors: each in hex on a line of its own.
pub open spec fn words_text(v: Seq<u32>) -> Seq<char>
    decreases v.len(),
{
    if v.len() == 0 {
        Seq::empty()
    } else {
        words_text(v.drop_last()) + hex6(v.last() as nat) + seq!['\n']
    }
}

fn digit_char(d: u32) -> (r: char)
    requires
        d < 16,
    ensures
        r == hex_digit(d as int),
{
    if d < 10 {
        ((d as u8) + 48) as char
    } else {
        ((d as u8) + 87) as char
    }
}

fn hex_of(n: u32) -> (r: Vec<char>)
    ensures
        r@ == hex_digits(n as nat),
    decreases n,
{
    if n < 16 {
        let mut v: Vec<char> = Vec::new();
        v.push(digit_char(n));
        proof {
            assert(v@ =~= seq![hex_digit(n as int)]);
        }
        v
    } else {
        let mut v = hex_of(n / 16);
        v.push(digit_char(n % 16));
        v
    }
}

fn push_hex6(out: &mut Vec<char>, n: u32)
    ensures
        final(out)@ == old(out)@ + hex6(n as nat),
{
    let d = hex_of(n);
    let ghost start = out@;
    let mut pad: usize = 0;
    let zeros = if d.len() < 6 {
        6 - d.len()
    } else {
        0
    };
    while pad < zeros
        invariant
            pad <= zeros,
            out@ == start + Seq::new(pad as nat, |i: int| '0'),
        decreases zeros - pad,
    {
        out.push('0');
        proof {
            assert(Seq::new(pad as nat + 1, |i: int| '0') =~= Seq::new(pad as nat, |i: int| '0').push('0'));
        }
        pad = pad + 1;
    }
    let ghost mid = out@;
    let mut i: usize = 0;
    while i < d.len()
        invariant
            i <= d@.len(),
            out@ == mid + d@.take(i as int),
        decreases d.len() - i,
    {
        out.push(d[i]);
        proof {
            assert(d@.take(i as int + 1) =~= d@.take(i as int).push(d@[i as int]));
        }
        i = i + 1;
    }
    proof {
        assert(d@.take(d@.len() as int) =~= d@);
        if d@.len() >= 6 {
            assert(Seq::new(0, |i: int| '0') =~= Seq::<char>::empty());
        }
        assert(out@ =~= start + hex6(n as nat));
    }
}

/// The theme file for `t`: its eleven colors in hex, one per line.
pub fn theme_file_text(t: &Theme) -> (r: String)
    ensures
        r@ == words_text(theme_words(*t)),
{
    let mut v: Vec<u32> = Vec::new();
    v.push(t.bg);
    v.push(t.sidebar);
    v.push(t.surface);
    v.push(t.hover);
    v.push(t.selected);
    v.push(t.border);
    v.push(t.border_strong);
    v.push(t.text);
    v.push(t.text_muted);
    v.push(t.text_dim);
    v.push(t.accent);
    proof {
        assert(v@ =~= theme_words(*t));
    }
    let mut out: Vec<char> = Vec::new();
    let mut i: usize = 0;
    while i < v.len()
        invariant
            i <= v@.len(),
            out@ == words_text(v@.take(i as int)),
        decreases v.len() - i,
    {
        push_hex6(&mut out, v[i]);
        out.push('\n');
        proof {
            assert(v@.take(i as int + 1).drop_last() =~= v@.take(i as int));
        }
        i = i + 1;
    }
    proof {
        assert(v@.take(v@.len() as int) =~= v@);
    }
    string_of(out.as_slice())
}

/// The value of a hex digit (either case), if `c` is one.
pub open spec fn hex_value(c: char) -> Option<int> {
    if '0' <= c && c <= '9' {
        Some(c as int - '0' as int)
    } else if 'a' <= c && c <= 'f' {
        Some(c as int - 'a' as int + 10)
    } else if 'A' <= c && c <= 'F' {
        Some(c as int - 'A' as int + 10)
    } else {
        None
    }
}

/// The number written by hex digits `s` (`None` if one is not a digit).
pub open spec fn digits_value(s: Seq<char>) -> Option<int>
    decreases s.len(),
{
    if s.len() == 0 {
        Some(0)
    } else {
        match (digits_value(s.drop_last()), hex_value(s.last())) {
            (Some(v), Some(d)) => Some(v * 16 + d),
            _ => None,
        }
    }
}

/// `u32::from_str_radix(s, 16)`: an optional `+`, then at least one hex
/// digit, with a value that fits.
pub open spec fn parse_hex(s: Seq<char>) -> Option<u32> {
    let body = if s.len() > 0 && s[0] == '+' {
        s.drop_first()
    } else {
        s
    };
    if body.len() == 0 {
        None
    } else {
        match digits_value(body) {
            Some(v) if v <= u32::MAX => Some(v as u32),
            _ => None,
        }
    }
}

proof fn lemma_digits_grow(s: Seq<char>, i: int)
    requires
        0 <= i <= s.len(),
        digits_value(s) is Some,
    ensures
        digits_value(s.take(i)) is Some,
        digits_value(s.take(i))->Some_0 <= digits_value(s)->Some_0,
        digits_value(s.take(i))->Some_0 >= 0,
    decreases s.len(),
{
    if i == s.len() {
        assert(s.take(i) =~= s);
        lemma_digits_nonneg(s);
    } else {
        assert(s.drop_last().take(i) =~= s.take(i));
        lemma_digits_grow(s.drop_last(), i);
        lemma_digits_nonneg(s.drop_last());
    }
}

proof fn lemma_digits_nonneg(s: Seq<char>)
    requires
        digits_value(s) is Some,
    ensures
        digits_value(s)->Some_0 >= 0,
    decreases s.len(),
{
    if s.len() > 0 {
        lemma_digits_nonneg(s.drop_last());
    }
}

proof fn lemma_digits_bad(s: Seq<char>, i: int)
    requires
        0 <= i < s.len(),
        hex_value(s[i]) is None,
    ensures
        digits_value(s) is None,
    decreases s.len(),
{
    if i < s.len() - 1 {
        lemma_digits_bad(s.drop_last(), i);
    }
}

fn hex_value_of(c: char) -> (r: Option<u32>)
    ensures
        match hex_value(c) {
            Some(v) => r == Some(v as u32),
            None => r is None,
        },
        r matches Some(v) ==> v < 16,
{
    if '0' <= c && c <= '9' {
        Some((c as u32) - 48)
    } else if 'a' <= c && c <= 'f' {
        Some((c as u32) - 87)
    } else if 'A' <= c && c <= 'F' {
        Some((c as u32) - 55)
    } else {
        None
    }
}

/// Parses one trimmed line of the theme file as a hex color.
pub fn parse_hex_line(s: &Vec<char>) -> (r: Option<u32>)
    ensures
        r == parse_hex(s@),
{
    let start: usize = if s.len() > 0 && s[0] == '+' {
        1
    } else {
        0
    };
    let ghost body = if s@.len() > 0 && s@[0] == '+' {
        s@.drop_first()
    } else {
        s@
    };
    proof {
        assert(body =~= s@.skip(start as int));
    }
    if start == s.len() {
        return None;
    }
    let mut v: u64 = 0;
    let mut i: usize = start;
    while i < s.len()
        invariant
            start <= i <= s@.len(),
            start < s@.len(),
            body == s@.skip(start as int),
            body == (if s@.len() > 0 && s@[0] == '+' {
                s@.drop_first()
            } else {
                s@
            }),
            digits_value(body.take(i - start)) == Some(v as int),
            v <= u32::MAX,
        decreases s.len() - i,
    {
        proof {
            assert(body.take(i - start + 1).drop_last() =~= body.take(i - start));
            assert(body.take(i - start + 1).last() == s@[i as int]);
        }
        match hex_value_of(s[i]) {
            None => {
                proof {
                    lemma_digits_bad(body, i - start);
                }
                return None;
            },
            Some(d) => {
                let next = v * 16 + d as u64;
                if next > 0xffff_ffff {
                    proof {
                        if digits_value(body) is Some {
                            lemma_digits_grow(body, i - start + 1);
                        }
                    }
                    return None;
                }
                v = next;
            },
        }
        i = i + 1;
    }
    proof {
        assert(body.take(body.len() as int) =~= body);
    }
    Some(v as u32)
}

/// The pieces of `s` between newlines (`str::split('\n')`).
pub open spec fn split_lines(s: Seq<char>) -> Seq<Seq<char>>
    decreases s.len(),
{
    if s.len() == 0 {
        seq![Seq::<char>::empty()]
    } else {
        let p = split_lines(s.drop_last());
        if s.last() == '\n' {
            p.push(Seq::<char>::empty())
        } else {
            p.update(p.len() - 1, p.last().push(s.last()))
        }
    }
}

pub proof fn lemma_split_lines_nonempty(s: Seq<char>)
    ensures
        split_lines(s).len() >= 1,
    decreases s.len(),
{
    if s.len() > 0 {
        lemma_split_lines_nonempty(s.drop_last());
    }
}

/// The colors of the lines that parse, each trimmed, in order.
pub open spec fn parsed_words(lines: Seq<Seq<char>>) -> Seq<u32>
    decreases lines.len(),
{
    if lines.len() == 0 {
        Seq::empty()
    } else {
        match parse_hex(trim(lines.last())) {
            Some(v) => parsed_words(lines.drop_last()).push(v),
            None => parsed_words(lines.drop_last()),
        }
    }
}

/// The theme a theme file describes: its eleven colors when exactly eleven
/// lines parse as hex colors, else the default theme. (Blank lines parse as
/// nothing, so splitting at every newline reads the file as `str::lines`
/// does.)
pub open spec fn theme_of_text(s: Seq<char>) -> Theme {
    let v = parsed_words(split_lines(s));
    if v.len() == 11 {
        theme_of_words(v)
    } else {
        default_spec()
    }
}

fn line_words(lines: &Vec<Vec<char>>) -> (r: Vec<u32>)
    ensures
        r@ == parsed_words(lines@.map_values(|l: Vec<char>| l@)),
{
    let ghost lv = lines@.map_values(|l: Vec<char>| l@);
    let mut r: Vec<u32> = Vec::new();
    let mut i: usize = 0;
    while i < lines.len()
        invariant
            i <= lines@.len(),
            lv == lines@.map_values(|l: Vec<char>| l@),
            r@ == parsed_words(lv.take(i as int)),
        decreases lines.len() - i,
    {
        proof {
            assert(lv.take(i as int + 1).drop_last() =~= lv.take(i as int));
            assert(lv.take(i as int + 1).last() == lines@[i as int]@);
        }
        let t = trim_chars(&lines[i]);
        match parse_hex_line(&t) {
            Some(w) => {
                r.push(w);
            },
            None => {},
        }
        i = i + 1;
    }
    proof {
        assert(lv.take(lines@.len() as int) =~= lv);
    }
    r
}

fn split_at_newlines(s: &str) -> (r: Vec<Vec<char>>)
    ensures
        r@.map_values(|l: Vec<char>| l@) == split_lines(s@),
{
    let cs = chars_of(s);
    let mut done: Vec<Vec<char>> = Vec::new();
    let mut cur: Vec<char> = Vec::new();
    let mut i: usize = 0;
    while i < cs.len()
        invariant
            i <= cs@.len(),
            cs@ == s@,
            done@.map_values(|l: Vec<char>| l@).push(cur@) == split_lines(cs@.take(i as int)),
        decreases cs.len() - i,
    {
        let ghost p = split_lines(cs@.take(i as int));
        proof {
            assert(cs@.take(i as int + 1).drop_last() =~= cs@.take(i as int));
            lemma_split_lines_nonempty(cs@.take(i as int));
        }
        if cs[i] == '\n' {
            let ghost dv = done@;
            let finished = cur;
            done.push(finished);
            cur = Vec::new();
            proof {
                assert(done@.map_values(|l: Vec<char>| l@) =~= dv.map_values(|l: Vec<char>| l@).push(
                    finished@,
                ));
                assert(done@.map_values(|l: Vec<char>| l@).push(cur@) =~= p.push(Seq::<char>::empty()));
            }
        } else {
            let ghost before = cur@;
            cur.push(cs[i]);
            proof {
                assert(done@.map_values(|l: Vec<char>| l@).push(cur@) =~= p.update(
                    p.len() - 1,
                    p.last().push(cs@[i as int]),
                ));
            }
        }
        i = i + 1;
    }
    proof {
        assert(cs@.take(cs@.len() as int) =~= cs@);
    }
    let ghost dv = done@;
    let last = cur;
    done.push(last);
    proof {
        assert(done@.map_values(|l: Vec<char>| l@) =~= dv.map_values(|l: Vec<char>| l@).push(last@));
    }
    done
}

/// Reads a theme file: its eleven colors when exactly eleven lines parse as
/// hex colors, else the default theme.
pub fn theme_from_text(s: &str) -> (r: Theme)
    ensures
        r == theme_of_text(s@),
{
    let lines = split_at_newlines(s);
    let v = line_words(&lines);
    if v.len() == 11 {
        Theme {
            bg: v[0],
            sidebar: v[1],
            surface: v[2],
            hover: v[3],
            selected: v[4],
            border: v[5],
            border_strong: v[6],
            text: v[7],
            text_muted: v[8],
            text_dim: v[9],
            accent: v[10],
        }
    } else {
        Theme::default()
    }
}

proof fn lemma_hex_digit(d: int)
    requires
        0 <= d < 16,
    ensures
        hex_value(hex_digit(d)) == Some(d),
{
}

proof fn lemma_hex_digits(n: nat)
    ensures
        hex_digits(n).len() >= 1,
        digits_value(hex_digits(n)) == Some(n as int),
        forall|i: int| 0 <= i < hex_digits(n).len() ==> hex_value(#[trigger] hex_digits(n)[i]) is Some,
    decreases n,
{
    if n < 16 {
        lemma_hex_digit(n as int);
        assert(seq![hex_digit(n as int)].drop_last() =~= Seq::<char>::empty());
        assert(hex_digits(n).last() == hex_digit(n as int));
        assert(digits_value(Seq::<char>::empty()) == Some(0int));
        assert(digits_value(hex_digits(n).drop_last()) == Some(0int));
    } else {
        lemma_hex_digits(n / 16);
        lemma_hex_digit((n % 16) as int);
        assert(hex_digits(n).drop_last() =~= hex_digits(n / 16));
        assert(hex_digits(n).last() == hex_digit((n % 16) as int));
        assert((n / 16) * 16 + n % 16 == n) by (nonlinear_arith);
        assert(digits_value(hex_digits(n).drop_last()) == Some((n / 16) as int));
    }
}

proof fn lemma_zeros_value(k: nat)
    ensures
        digits_value(Seq::new(k, |i: int| '0')) == Some(0int),
    decreases k,
{
    if k > 0 {
        assert(Seq::new(k, |i: int| '0').drop_last() =~= Seq::new((k - 1) as nat, |i: int| '0'));
        lemma_zeros_value((k - 1) as nat);
    }
}

proof fn lemma_zero_prefix(k: nat, d: Seq<char>)
    ensures
        digits_value(Seq::new(k, |i: int| '0') + d) == digits_value(d),
    decreases d.len(),
{
    let z = Seq::new(k, |i: int| '0');
    if d.len() == 0 {
        assert(z + d =~= z);
        lemma_zeros_value(k);
    } else {
        assert((z + d).drop_last() =~= z + d.drop_last());
        lemma_zero_prefix(k, d.drop_last());
    }
}

/// A color written with `{:06x}` parses back to itself, and its text has no
/// surrounding whitespace.
proof fn lemma_hex6_parses(n: u32)
    ensures
        parse_hex(trim(hex6(n as nat))) == Some(n),
        forall|i: int| 0 <= i < hex6(n as nat).len() ==> #[trigger] hex6(n as nat)[i] != '\n',
{
    let d = hex_digits(n as nat);
    lemma_hex_digits(n as nat);
    let h = hex6(n as nat);
    if d.len() < 6 {
        lemma_zero_prefix((6 - d.len()) as nat, d);
    }
    assert forall|i: int| 0 <= i < h.len() implies hex_value(#[trigger] h[i]) is Some by {
        if d.len() < 6 {
            let k = 6 - d.len();
            if i >= k {
                assert(h[i] == d[i - k]);
            }
        }
    }
    assert(h.len() >= 1);
    assert(!crate::text::is_space(h[0]));
    assert(!crate::text::is_space(h.last()));
    assert(crate::text::trim_start(h) == h);
    assert(trim(h) == h);
    assert(h[0] != '+');
}

pub proof fn lemma_split_plain(s: Seq<char>, t: Seq<char>)
    requires
        forall|i: int| 0 <= i < t.len() ==> #[trigger] t[i] != '\n',
    ensures
        split_lines(s + t) == split_lines(s).update(
            split_lines(s).len() - 1,
            split_lines(s).last() + t,
        ),
    decreases t.len(),
{
    lemma_split_lines_nonempty(s);
    let l = split_lines(s);
    if t.len() == 0 {
        assert(s + t =~= s);
        assert(l.last() + t =~= l.last());
        assert(l.update(l.len() - 1, l.last()) =~= l);
    } else {
        lemma_split_plain(s, t.drop_last());
        assert((s + t).drop_last() =~= s + t.drop_last());
        assert((s + t).last() == t.last());
        assert((l.last() + t.drop_last()).push(t.last()) =~= l.last() + t);
        let p = l.update(l.len() - 1, l.last() + t.drop_last());
        assert(p.update(p.len() - 1, p.last().push(t.last())) =~= l.update(l.len() - 1, l.last() + t));
    }
}

proof fn lemma_split_words(v: Seq<u32>)
    ensures
        split_lines(words_text(v)) == v.map_values(|w: u32| hex6(w as nat)).push(Seq::<char>::empty()),
    decreases v.len(),
{
    let f = |w: u32| hex6(w as nat);
    if v.len() == 0 {
        assert(v.map_values(f).push(Seq::<char>::empty()) =~= seq![Seq::<char>::empty()]);
    } else {
        lemma_split_words(v.drop_last());
        let s = words_text(v.drop_last());
        let h = hex6(v.last() as nat);
        lemma_hex6_parses(v.last());
        lemma_split_plain(s, h);
        assert(words_text(v) =~= (s + h).push('\n'));
        assert((s + h).push('\n').drop_last() =~= s + h);
        let prev = v.drop_last().map_values(f).push(Seq::<char>::empty());
        assert(Seq::<char>::empty() + h =~= h);
        assert(prev.update(prev.len() - 1, prev.last() + h) =~= v.map_values(f));
    }
}

proof fn lemma_parse_hexes(v: Seq<u32>)
    ensures
        parsed_words(v.map_values(|w: u32| hex6(w as nat))) == v,
    decreases v.len(),
{
    let f = |w: u32| hex6(w as nat);
    if v.len() > 0 {
        lemma_parse_hexes(v.drop_last());
        assert(v.map_values(f).drop_last() =~= v.drop_last().map_values(f));
        lemma_hex6_parses(v.last());
        assert(v.drop_last().push(v.last()) =~= v);
    }
}

/// Writing a theme file and reading it back gives the same theme.
pub proof fn law_theme_file_round_trip(t: Theme)
    ensures
        theme_of_text(words_text(theme_words(t))) == t,
{
    let v = theme_words(t);
    let f = |w: u32| hex6(w as nat);
    lemma_split_words(v);
    let lines = v.map_values(f).push(Seq::<char>::empty());
    assert(lines.drop_last() =~= v.map_values(f));
    assert(trim(Seq::<char>::empty()) =~= Seq::<char>::empty());
    lemma_parse_hexes(v);
    assert(parsed_words(lines) == v);
}

} // verus!
