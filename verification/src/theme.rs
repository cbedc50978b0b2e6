//! Color themes of the browser.
use vstd::prelude::*;

use crate::text::{append_str, str_eq, to_lowercase};

verus! {

/// Available theme options.
#[derive(Debug, Clone, Copy, PartialEq, Eq)]
pub enum Theme {
    Dracula,
    Solarized,
    Gruvbox,
    EverforestLight,
}

/// A 24-bit color.
#[derive(Debug, Clone, Copy, PartialEq, Eq)]
pub struct Rgb {
    pub r: u8,
    pub g: u8,
    pub b: u8,
}

/// Foreground, background and boldness of a piece of text.
#[derive(Debug, Clone, Copy, PartialEq, Eq)]
pub struct TextStyle {
    pub fg: Option<Rgb>,
    pub bg: Option<Rgb>,
    pub bold: bool,
}

/// Colors of the JSON syntax highlighting.
#[derive(Debug, Clone, Copy, PartialEq, Eq)]
pub struct JsonStyle {
    pub key: Rgb,
    pub string: Rgb,
    pub number: Rgb,
    pub boolean: Rgb,
}

/// Complete theme configuration.
///
/// Widgets use `text` for the style of their block (so the content area has
/// the theme's background), `border`/`border_selected` for borders, `title`
/// for titles, and `list_normal`/`list_selected` for lists.
#[derive(Debug, Clone, Copy, PartialEq, Eq)]
pub struct ThemeConfig {
    pub background: Rgb,
    pub list_normal: TextStyle,
    pub list_selected: TextStyle,
    pub border: TextStyle,
    pub border_selected: TextStyle,
    pub title: TextStyle,
    pub text: TextStyle,
    pub json_style: JsonStyle,
}

/// A color.
pub open spec fn spec_rgb(r: u8, g: u8, b: u8) -> Rgb {
    Rgb { r, g, b }
}

fn rgb(r: u8, g: u8, b: u8) -> (c: Rgb)
    ensures
        c == spec_rgb(r, g, b),
{
    Rgb { r, g, b }
}

/// A style with the given colors and boldness.
pub open spec fn spec_style(fg: Option<Rgb>, bg: Option<Rgb>, bold: bool) -> TextStyle {
    TextStyle { fg, bg, bold }
}

fn style(fg: Option<Rgb>, bg: Option<Rgb>, bold: bool) -> (s: TextStyle)
    ensures
        s == spec_style(fg, bg, bold),
{
    TextStyle { fg, bg, bold }
}

/// The plain style: no colors, not bold.
pub open spec fn plain_style() -> TextStyle {
    TextStyle { fg: None, bg: None, bold: false }
}

/// A theme whose list and text are `fg` on `bg_view`, selected list items
/// `sel_fg` on `sel_bg` in bold, borders `border`, and focused borders and
/// titles `accent` (titles in bold).
pub open spec fn spec_theme(
    background: Rgb,
    fg: Rgb,
    bg_view: Rgb,
    sel_fg: Rgb,
    sel_bg: Rgb,
    border: Rgb,
    accent: Rgb,
    json_style: JsonStyle,
) -> ThemeConfig {
    ThemeConfig {
        background,
        list_normal: spec_style(Some(fg), Some(bg_view), false),
        list_selected: spec_style(Some(sel_fg), Some(sel_bg), true),
        border: spec_style(Some(border), None, false),
        border_selected: spec_style(Some(accent), None, false),
        title: spec_style(Some(accent), None, true),
        text: spec_style(Some(fg), Some(bg_view), false),
        json_style,
    }
}

fn make_theme(
    background: Rgb,
    fg: Rgb,
    bg_view: Rgb,
    sel_fg: Rgb,
    sel_bg: Rgb,
    border: Rgb,
    accent: Rgb,
    json_style: JsonStyle,
) -> (t: ThemeConfig)
    ensures
        t == spec_theme(background, fg, bg_view, sel_fg, sel_bg, border, accent, json_style),
{
    ThemeConfig {
        background,
        list_normal: style(Some(fg), Some(bg_view), false),
        list_selected: style(Some(sel_fg), Some(sel_bg), true),
        border: style(Some(border), None, false),
        border_selected: style(Some(accent), None, false),
        title: style(Some(accent), None, true),
        text: style(Some(fg), Some(bg_view), false),
        json_style,
    }
}

/// The Solarized Dark palette.
pub open spec fn spec_solarized_dark() -> ThemeConfig {
    spec_theme(
        spec_rgb(0, 43, 54),
        spec_rgb(131, 148, 150),
        spec_rgb(7, 54, 66),
        spec_rgb(253, 246, 227),
        spec_rgb(38, 139, 210),
        spec_rgb(88, 110, 117),
        spec_rgb(38, 139, 210),
        JsonStyle {
            key: spec_rgb(42, 161, 152),
            string: spec_rgb(133, 153, 0),
            number: spec_rgb(211, 54, 130),
            boolean: spec_rgb(220, 50, 47),
        },
    )
}

/// Returns a ThemeConfig based on the Solarized Dark color palette.
pub fn solarized_dark() -> (t: ThemeConfig)
    ensures
        t == spec_solarized_dark(),
{
    let base03 = rgb(0, 43, 54);
    let base02 = rgb(7, 54, 66);
    let base01 = rgb(88, 110, 117);
    let base0 = rgb(131, 148, 150);
    let base3 = rgb(253, 246, 227);
    let red = rgb(220, 50, 47);
    let magenta = rgb(211, 54, 130);
    let blue = rgb(38, 139, 210);
    let cyan = rgb(42, 161, 152);
    let green = rgb(133, 153, 0);
    let json_style = JsonStyle { key: cyan, string: green, number: magenta, boolean: red };
    make_theme(base03, base0, base02, base3, blue, base01, blue, json_style)
}

/// The Dracula palette.
pub open spec fn spec_dracula_theme() -> ThemeConfig {
    spec_theme(
        spec_rgb(40, 42, 54),
        spec_rgb(248, 248, 242),
        spec_rgb(40, 42, 54),
        spec_rgb(248, 248, 242),
        spec_rgb(68, 71, 90),
        spec_rgb(98, 114, 164),
        spec_rgb(189, 147, 249),
        JsonStyle {
            key: spec_rgb(139, 233, 253),
            string: spec_rgb(241, 250, 140),
            number: spec_rgb(255, 184, 108),
            boolean: spec_rgb(255, 121, 198),
        },
    )
}

/// Returns a ThemeConfig based on the Dracula color palette.
pub fn dracula_theme() -> (t: ThemeConfig)
    ensures
        t == spec_dracula_theme(),
{
    let bg = rgb(40, 42, 54);
    let selection = rgb(68, 71, 90);
    let fg = rgb(248, 248, 242);
    let comment = rgb(98, 114, 164);
    let purple = rgb(189, 147, 249);
    let yellow = rgb(241, 250, 140);
    let orange = rgb(255, 184, 108);
    let pink = rgb(255, 121, 198);
    let cyan = rgb(139, 233, 253);
    let json_style = JsonStyle { key: cyan, string: yellow, number: orange, boolean: pink };
    make_theme(bg, fg, bg, fg, selection, comment, purple, json_style)
}

/// The Gruvbox Dark palette.
pub open spec fn spec_gruvbox_theme() -> ThemeConfig {
    spec_theme(
        spec_rgb(40, 40, 40),
        spec_rgb(235, 219, 178),
        spec_rgb(40, 40, 40),
        spec_rgb(40, 40, 40),
        spec_rgb(235, 219, 178),
        spec_rgb(146, 131, 116),
        spec_rgb(214, 93, 14),
        JsonStyle {
            key: spec_rgb(69, 133, 136),
            string: spec_rgb(152, 151, 26),
            number: spec_rgb(177, 98, 134),
            boolean: spec_rgb(214, 93, 14),
        },
    )
}

/// Returns a ThemeConfig based on the Gruvbox Dark color palette.
pub fn gruvbox_theme() -> (t: ThemeConfig)
    ensures
        t == spec_gruvbox_theme(),
{
    let bg0 = rgb(40, 40, 40);
    let fg1 = rgb(235, 219, 178);
    let gray = rgb(146, 131, 116);
    let blue = rgb(69, 133, 136);
    let green = rgb(152, 151, 26);
    let orange = rgb(214, 93, 14);
    let purple = rgb(177, 98, 134);
    let json_style = JsonStyle { key: blue, string: green, number: purple, boolean: orange };
    make_theme(bg0, fg1, bg0, bg0, fg1, gray, orange, json_style)
}

/// The Everforest Light palette.
pub open spec fn spec_everforest_light_theme() -> ThemeConfig {
    spec_theme(
        spec_rgb(253, 246, 227),
        spec_rgb(92, 106, 114),
        spec_rgb(243, 234, 211),
        spec_rgb(253, 246, 227),
        spec_rgb(147, 159, 149),
        spec_rgb(147, 159, 149),
        spec_rgb(223, 160, 0),
        JsonStyle {
            key: spec_rgb(58, 148, 197),
            string: spec_rgb(141, 161, 1),
            number: spec_rgb(248, 85, 82),
            boolean: spec_rgb(223, 105, 186),
        },
    )
}

/// Returns a ThemeConfig based on the Everforest Light color palette.
pub fn everforest_light_theme() -> (t: ThemeConfig)
    ensures
        t == spec_everforest_light_theme(),
{
    let bg = rgb(253, 246, 227);
    let bg_view = rgb(243, 234, 211);
    let fg = rgb(92, 106, 114);
    let gray = rgb(147, 159, 149);
    let yellow = rgb(223, 160, 0);
    let green = rgb(141, 161, 1);
    let red = rgb(248, 85, 82);
    let blue = rgb(58, 148, 197);
    let magenta = rgb(223, 105, 186);
    let json_style = JsonStyle { key: blue, string: green, number: red, boolean: magenta };
    make_theme(bg, fg, bg_view, bg, gray, gray, yellow, json_style)
}

/// The configuration of a theme.
pub open spec fn spec_config(t: Theme) -> ThemeConfig {
    match t {
        Theme::Dracula => spec_dracula_theme(),
        Theme::Solarized => spec_solarized_dark(),
        Theme::Gruvbox => spec_gruvbox_theme(),
        Theme::EverforestLight => spec_everforest_light_theme(),
    }
}

/// The theme names accepted on the command line, in order.
pub open spec fn theme_names() -> Seq<Seq<char>> {
    seq!["dracula"@, "solarized"@, "gruvbox"@, "everforest_light"@]
}

impl Theme {
    /// Returns the complete theme configuration for this theme.
    pub fn config(&self) -> (c: ThemeConfig)
        ensures
            c == spec_config(*self),
    {
        match self {
            Theme::Dracula => dracula_theme(),
            Theme::Solarized => solarized_dark(),
            Theme::Gruvbox => gruvbox_theme(),
            Theme::EverforestLight => everforest_light_theme(),
        }
    }

    /// Returns the names of all available themes.
    pub fn variants() -> (names: Vec<&'static str>)
        ensures
            names@.len() == 4,
            forall|i: int| 0 <= i < 4 ==> #[trigger] names@[i]@ == theme_names()[i],
    {
        let mut names: Vec<&'static str> = Vec::new();
        names.push("dracula");
        names.push("solarized");
        names.push("gruvbox");
        names.push("everforest_light");
        names
    }
}

/// The theme a name (compared in lowercase) stands for.
pub open spec fn theme_for_name(lower: Seq<char>) -> Option<Theme> {
    if lower == "dracula"@ {
        Some(Theme::Dracula)
    } else if lower == "solarized"@ {
        Some(Theme::Solarized)
    } else if lower == "gruvbox"@ {
        Some(Theme::Gruvbox)
    } else if lower == "everforest_light"@ {
        Some(Theme::EverforestLight)
    } else {
        None
    }
}

/// Parses a theme name, ignoring case. An unknown name yields `None`.
pub fn theme_from_name(s: &str) -> (t: Option<Theme>)
    ensures
        t == theme_for_name(crate::text::lowercase(s@)),
{
    let lower = to_lowercase(s);
    let l = lower.as_str();
    if str_eq(l, "dracula") {
        Some(Theme::Dracula)
    } else if str_eq(l, "solarized") {
        Some(Theme::Solarized)
    } else if str_eq(l, "gruvbox") {
        Some(Theme::Gruvbox)
    } else if str_eq(l, "everforest_light") {
        Some(Theme::EverforestLight)
    } else {
        None
    }
}

/// The message for an unknown theme name.
pub open spec fn unknown_theme_message(s: Seq<char>) -> Seq<char> {
    "Unknown theme: "@ + s + ". Available: "@ + "dracula, solarized, gruvbox, everforest_light"@
}

/// Parses a theme name, ignoring case; an unknown name yields a message that
/// lists the available themes.
pub fn parse_theme(s: &str) -> (r: Result<Theme, String>)
    ensures
        r matches Ok(t) ==> theme_for_name(crate::text::lowercase(s@)) == Some(t),
        r matches Err(m) ==> theme_for_name(crate::text::lowercase(s@)) is None
            && m@ == unknown_theme_message(s@),
{
    match theme_from_name(s) {
        Some(t) => Ok(t),
        None => {
            let mut m = String::new();
            append_str(&mut m, "Unknown theme: ");
            append_str(&mut m, s);
            append_str(&mut m, ". Available: ");
            append_str(&mut m, "dracula, solarized, gruvbox, everforest_light");
            Err(m)
        },
    }
}

impl std::str::FromStr for Theme {
    type Err = String;

    fn from_str(s: &str) -> (r: Result<Self, Self::Err>)
        ensures
            r matches Ok(t) ==> theme_for_name(crate::text::lowercase(s@)) == Some(t),
            r matches Err(m) ==> theme_for_name(crate::text::lowercase(s@)) is None
                && m@ == unknown_theme_message(s@),
    {
        parse_theme(s)
    }
}

/// The plain style: no colors, not bold.
pub fn plain() -> (s: TextStyle)
    ensures
        s == plain_style(),
{
    TextStyle { fg: None, bg: None, bold: false }
}

/// A style with only a foreground color.
pub fn fg(c: Rgb) -> (s: TextStyle)
    ensures
        s == (TextStyle { fg: Some(c), bg: None, bold: false }),
{
    TextStyle { fg: Some(c), bg: None, bold: false }
}

} // verus!
