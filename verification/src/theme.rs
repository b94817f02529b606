//! Themes: which style each kind of Markdown element is drawn with.

use vstd::prelude::*;
use crate::style::{Color, Style, from_hex_of, from_hex_requires, plain_style, style_is_empty};
use crate::text::{chars_of, eq_str, lowercase, parse_u8, parse_u8_of, to_lowercase};

verus! {

/// Semantic style intents — what we want to style, not how.
/// The theme maps these intents to concrete ANSI styles.
#[derive(Debug, Clone, Copy, PartialEq, Eq, Structural)]
pub struct Theme {
    pub heading1: Style,
    pub heading2: Style,
    pub heading3: Style,
    pub heading4: Style,
    pub heading5: Style,
    pub heading6: Style,
    pub paragraph: Style,
    pub emphasis: Style,
    pub strong: Style,
    pub strikethrough: Style,
    pub inline_code: Style,
    pub code_block: Style,
    pub code_border: Style,
    pub code_lang_label: Style,
    pub code_line_number: Style,
    pub blockquote: Style,
    pub blockquote_bar: Style,
    pub link_text: Style,
    pub link_url: Style,
    pub list_bullet: Style,
    pub list_number: Style,
    pub task_done: Style,
    pub task_pending: Style,
    pub table_border: Style,
    pub table_header: Style,
    pub table_cell: Style,
    pub thematic_break: Style,
    pub image_alt: Style,
    pub footnote_ref: Style,
    pub footnote_def: Style,
}

/// A style with no background, from its foreground and flags.
pub open spec fn style_of(
    fg: Option<Color>,
    bold: bool,
    italic: bool,
    underline: bool,
    dim: bool,
    strikethrough: bool,
) -> Style {
    Style { fg, bg: None, bold, italic, underline, dim, strikethrough }
}

fn mk(
    fg: Option<Color>,
    bold: bool,
    italic: bool,
    underline: bool,
    dim: bool,
    strikethrough: bool,
) -> (s: Style)
    ensures
        s == style_of(fg, bold, italic, underline, dim, strikethrough),
{
    Style { fg, bg: None, bold, italic, underline, dim, strikethrough }
}

/// Balanced colors for dark terminals.
pub open spec fn default_theme_spec() -> Theme {
    Theme {
        heading1: style_of(Some(Color::Ansi(3)), true, false, false, false, false),
        heading2: style_of(Some(Color::Ansi(2)), true, false, false, false, false),
        heading3: style_of(Some(Color::Ansi(6)), true, false, false, false, false),
        heading4: style_of(Some(Color::Ansi(4)), true, false, false, false, false),
        heading5: style_of(Some(Color::Ansi(5)), true, false, false, false, false),
        heading6: style_of(Some(Color::Ansi(5)), true, false, false, true, false),
        paragraph: style_of(None, false, false, false, false, false),
        emphasis: style_of(None, false, true, false, false, false),
        strong: style_of(None, true, false, false, false, false),
        strikethrough: style_of(None, false, false, false, true, true),
        inline_code: style_of(Some(Color::Ansi(6)), false, false, false, false, false),
        code_block: style_of(Some(Color::Ansi(2)), false, false, false, false, false),
        code_border: style_of(None, false, false, false, true, false),
        code_lang_label: style_of(None, false, true, false, true, false),
        code_line_number: style_of(None, false, false, false, true, false),
        blockquote: style_of(None, false, true, false, true, false),
        blockquote_bar: style_of(Some(Color::Ansi(8)), false, false, false, false, false),
        link_text: style_of(Some(Color::Ansi(4)), false, false, true, false, false),
        link_url: style_of(Some(Color::Ansi(8)), false, false, false, false, false),
        list_bullet: style_of(Some(Color::Ansi(6)), false, false, false, false, false),
        list_number: style_of(Some(Color::Ansi(6)), false, false, false, false, false),
        task_done: style_of(Some(Color::Ansi(2)), false, false, false, false, false),
        task_pending: style_of(Some(Color::Ansi(8)), false, false, false, false, false),
        table_border: style_of(None, false, false, false, true, false),
        table_header: style_of(None, true, false, false, false, false),
        table_cell: style_of(None, false, false, false, false, false),
        thematic_break: style_of(None, false, false, false, true, false),
        image_alt: style_of(Some(Color::Ansi(5)), false, true, false, false, false),
        footnote_ref: style_of(Some(Color::Ansi(6)), false, false, false, true, false),
        footnote_def: style_of(None, false, false, false, true, false),
    }
}

/// Balanced colors for dark terminals.
pub fn default_theme() -> (t: Theme)
    ensures
        t == default_theme_spec(),
{
    Theme {
        heading1: mk(Some(Color::Ansi(3)), true, false, false, false, false),
        heading2: mk(Some(Color::Ansi(2)), true, false, false, false, false),
        heading3: mk(Some(Color::Ansi(6)), true, false, false, false, false),
        heading4: mk(Some(Color::Ansi(4)), true, false, false, false, false),
        heading5: mk(Some(Color::Ansi(5)), true, false, false, false, false),
        heading6: mk(Some(Color::Ansi(5)), true, false, false, true, false),
        paragraph: mk(None, false, false, false, false, false),
        emphasis: mk(None, false, true, false, false, false),
        strong: mk(None, true, false, false, false, false),
        strikethrough: mk(None, false, false, false, true, true),
        inline_code: mk(Some(Color::Ansi(6)), false, false, false, false, false),
        code_block: mk(Some(Color::Ansi(2)), false, false, false, false, false),
        code_border: mk(None, false, false, false, true, false),
        code_lang_label: mk(None, false, true, false, true, false),
        code_line_number: mk(None, false, false, false, true, false),
        blockquote: mk(None, false, true, false, true, false),
        blockquote_bar: mk(Some(Color::Ansi(8)), false, false, false, false, false),
        link_text: mk(Some(Color::Ansi(4)), false, false, true, false, false),
        link_url: mk(Some(Color::Ansi(8)), false, false, false, false, false),
        list_bullet: mk(Some(Color::Ansi(6)), false, false, false, false, false),
        list_number: mk(Some(Color::Ansi(6)), false, false, false, false, false),
        task_done: mk(Some(Color::Ansi(2)), false, false, false, false, false),
        task_pending: mk(Some(Color::Ansi(8)), false, false, false, false, false),
        table_border: mk(None, false, false, false, true, false),
        table_header: mk(None, true, false, false, false, false),
        table_cell: mk(None, false, false, false, false, false),
        thematic_break: mk(None, false, false, false, true, false),
        image_alt: mk(Some(Color::Ansi(5)), false, true, false, false, false),
        footnote_ref: mk(Some(Color::Ansi(6)), false, false, false, true, false),
        footnote_def: mk(None, false, false, false, true, false),
    }
}

/// The Solarized Dark palette.
pub open spec fn solarized_theme_spec() -> Theme {
    Theme {
        heading1: style_of(Some(Color::Rgb(181, 137, 0)), true, false, false, false, false),
        heading2: style_of(Some(Color::Rgb(133, 153, 0)), true, false, false, false, false),
        heading3: style_of(Some(Color::Rgb(42, 161, 152)), true, false, false, false, false),
        heading4: style_of(Some(Color::Rgb(38, 139, 210)), true, false, false, false, false),
        heading5: style_of(Some(Color::Rgb(108, 113, 196)), true, false, false, false, false),
        heading6: style_of(Some(Color::Rgb(211, 54, 130)), true, false, false, false, false),
        paragraph: style_of(Some(Color::Rgb(131, 148, 150)), false, false, false, false, false),
        emphasis: style_of(Some(Color::Rgb(131, 148, 150)), false, true, false, false, false),
        strong: style_of(Some(Color::Rgb(147, 161, 161)), true, false, false, false, false),
        strikethrough: style_of(Some(Color::Rgb(88, 110, 117)), false, false, false, false, true),
        inline_code: style_of(Some(Color::Rgb(42, 161, 152)), false, false, false, false, false),
        code_block: style_of(Some(Color::Rgb(131, 148, 150)), false, false, false, false, false),
        code_border: style_of(Some(Color::Rgb(88, 110, 117)), false, false, false, false, false),
        code_lang_label: style_of(Some(Color::Rgb(88, 110, 117)), false, true, false, false, false),
        code_line_number: style_of(Some(Color::Rgb(88, 110, 117)), false, false, false, false, false),
        blockquote: style_of(Some(Color::Rgb(88, 110, 117)), false, true, false, false, false),
        blockquote_bar: style_of(Some(Color::Rgb(88, 110, 117)), false, false, false, false, false),
        link_text: style_of(Some(Color::Rgb(38, 139, 210)), false, false, true, false, false),
        link_url: style_of(Some(Color::Rgb(88, 110, 117)), false, false, false, false, false),
        list_bullet: style_of(Some(Color::Rgb(42, 161, 152)), false, false, false, false, false),
        list_number: style_of(Some(Color::Rgb(42, 161, 152)), false, false, false, false, false),
        task_done: style_of(Some(Color::Rgb(133, 153, 0)), false, false, false, false, false),
        task_pending: style_of(Some(Color::Rgb(88, 110, 117)), false, false, false, false, false),
        table_border: style_of(Some(Color::Rgb(88, 110, 117)), false, false, false, false, false),
        table_header: style_of(Some(Color::Rgb(147, 161, 161)), true, false, false, false, false),
        table_cell: style_of(Some(Color::Rgb(131, 148, 150)), false, false, false, false, false),
        thematic_break: style_of(Some(Color::Rgb(88, 110, 117)), false, false, false, false, false),
        image_alt: style_of(Some(Color::Rgb(108, 113, 196)), false, true, false, false, false),
        footnote_ref: style_of(Some(Color::Rgb(42, 161, 152)), false, false, false, false, false),
        footnote_def: style_of(Some(Color::Rgb(88, 110, 117)), false, false, false, false, false),
    }
}

/// The Solarized Dark palette.
pub fn solarized_theme() -> (t: Theme)
    ensures
        t == solarized_theme_spec(),
{
    Theme {
        heading1: mk(Some(Color::Rgb(181, 137, 0)), true, false, false, false, false),
        heading2: mk(Some(Color::Rgb(133, 153, 0)), true, false, false, false, false),
        heading3: mk(Some(Color::Rgb(42, 161, 152)), true, false, false, false, false),
        heading4: mk(Some(Color::Rgb(38, 139, 210)), true, false, false, false, false),
        heading5: mk(Some(Color::Rgb(108, 113, 196)), true, false, false, false, false),
        heading6: mk(Some(Color::Rgb(211, 54, 130)), true, false, false, false, false),
        paragraph: mk(Some(Color::Rgb(131, 148, 150)), false, false, false, false, false),
        emphasis: mk(Some(Color::Rgb(131, 148, 150)), false, true, false, false, false),
        strong: mk(Some(Color::Rgb(147, 161, 161)), true, false, false, false, false),
        strikethrough: mk(Some(Color::Rgb(88, 110, 117)), false, false, false, false, true),
        inline_code: mk(Some(Color::Rgb(42, 161, 152)), false, false, false, false, false),
        code_block: mk(Some(Color::Rgb(131, 148, 150)), false, false, false, false, false),
        code_border: mk(Some(Color::Rgb(88, 110, 117)), false, false, false, false, false),
        code_lang_label: mk(Some(Color::Rgb(88, 110, 117)), false, true, false, false, false),
        code_line_number: mk(Some(Color::Rgb(88, 110, 117)), false, false, false, false, false),
        blockquote: mk(Some(Color::Rgb(88, 110, 117)), false, true, false, false, false),
        blockquote_bar: mk(Some(Color::Rgb(88, 110, 117)), false, false, false, false, false),
        link_text: mk(Some(Color::Rgb(38, 139, 210)), false, false, true, false, false),
        link_url: mk(Some(Color::Rgb(88, 110, 117)), false, false, false, false, false),
        list_bullet: mk(Some(Color::Rgb(42, 161, 152)), false, false, false, false, false),
        list_number: mk(Some(Color::Rgb(42, 161, 152)), false, false, false, false, false),
        task_done: mk(Some(Color::Rgb(133, 153, 0)), false, false, false, false, false),
        task_pending: mk(Some(Color::Rgb(88, 110, 117)), false, false, false, false, false),
        table_border: mk(Some(Color::Rgb(88, 110, 117)), false, false, false, false, false),
        table_header: mk(Some(Color::Rgb(147, 161, 161)), true, false, false, false, false),
        table_cell: mk(Some(Color::Rgb(131, 148, 150)), false, false, false, false, false),
        thematic_break: mk(Some(Color::Rgb(88, 110, 117)), false, false, false, false, false),
        image_alt: mk(Some(Color::Rgb(108, 113, 196)), false, true, false, false, false),
        footnote_ref: mk(Some(Color::Rgb(42, 161, 152)), false, false, false, false, false),
        footnote_def: mk(Some(Color::Rgb(88, 110, 117)), false, false, false, false, false),
    }
}

/// The Dracula color scheme.
pub open spec fn dracula_theme_spec() -> Theme {
    Theme {
        heading1: style_of(Some(Color::Rgb(189, 147, 249)), true, false, false, false, false),
        heading2: style_of(Some(Color::Rgb(80, 250, 123)), true, false, false, false, false),
        heading3: style_of(Some(Color::Rgb(139, 233, 253)), true, false, false, false, false),
        heading4: style_of(Some(Color::Rgb(255, 121, 198)), true, false, false, false, false),
        heading5: style_of(Some(Color::Rgb(255, 184, 108)), true, false, false, false, false),
        heading6: style_of(Some(Color::Rgb(241, 250, 140)), true, false, false, false, false),
        paragraph: style_of(Some(Color::Rgb(248, 248, 242)), false, false, false, false, false),
        emphasis: style_of(Some(Color::Rgb(248, 248, 242)), false, true, false, false, false),
        strong: style_of(Some(Color::Rgb(255, 184, 108)), true, false, false, false, false),
        strikethrough: style_of(Some(Color::Rgb(98, 114, 164)), false, false, false, false, true),
        inline_code: style_of(Some(Color::Rgb(139, 233, 253)), false, false, false, false, false),
        code_block: style_of(Some(Color::Rgb(248, 248, 242)), false, false, false, false, false),
        code_border: style_of(Some(Color::Rgb(98, 114, 164)), false, false, false, false, false),
        code_lang_label: style_of(Some(Color::Rgb(98, 114, 164)), false, true, false, false, false),
        code_line_number: style_of(Some(Color::Rgb(98, 114, 164)), false, false, false, false, false),
        blockquote: style_of(Some(Color::Rgb(98, 114, 164)), false, true, false, false, false),
        blockquote_bar: style_of(Some(Color::Rgb(189, 147, 249)), false, false, false, false, false),
        link_text: style_of(Some(Color::Rgb(139, 233, 253)), false, false, true, false, false),
        link_url: style_of(Some(Color::Rgb(98, 114, 164)), false, false, false, false, false),
        list_bullet: style_of(Some(Color::Rgb(80, 250, 123)), false, false, false, false, false),
        list_number: style_of(Some(Color::Rgb(80, 250, 123)), false, false, false, false, false),
        task_done: style_of(Some(Color::Rgb(80, 250, 123)), false, false, false, false, false),
        task_pending: style_of(Some(Color::Rgb(98, 114, 164)), false, false, false, false, false),
        table_border: style_of(Some(Color::Rgb(98, 114, 164)), false, false, false, false, false),
        table_header: style_of(Some(Color::Rgb(189, 147, 249)), true, false, false, false, false),
        table_cell: style_of(Some(Color::Rgb(248, 248, 242)), false, false, false, false, false),
        thematic_break: style_of(Some(Color::Rgb(98, 114, 164)), false, false, false, false, false),
        image_alt: style_of(Some(Color::Rgb(255, 121, 198)), false, true, false, false, false),
        footnote_ref: style_of(Some(Color::Rgb(139, 233, 253)), false, false, false, false, false),
        footnote_def: style_of(Some(Color::Rgb(98, 114, 164)), false, false, false, false, false),
    }
}

/// The Dracula color scheme.
pub fn dracula_theme() -> (t: Theme)
    ensures
        t == dracula_theme_spec(),
{
    Theme {
        heading1: mk(Some(Color::Rgb(189, 147, 249)), true, false, false, false, false),
        heading2: mk(Some(Color::Rgb(80, 250, 123)), true, false, false, false, false),
        heading3: mk(Some(Color::Rgb(139, 233, 253)), true, false, false, false, false),
        heading4: mk(Some(Color::Rgb(255, 121, 198)), true, false, false, false, false),
        heading5: mk(Some(Color::Rgb(255, 184, 108)), true, false, false, false, false),
        heading6: mk(Some(Color::Rgb(241, 250, 140)), true, false, false, false, false),
        paragraph: mk(Some(Color::Rgb(248, 248, 242)), false, false, false, false, false),
        emphasis: mk(Some(Color::Rgb(248, 248, 242)), false, true, false, false, false),
        strong: mk(Some(Color::Rgb(255, 184, 108)), true, false, false, false, false),
        strikethrough: mk(Some(Color::Rgb(98, 114, 164)), false, false, false, false, true),
        inline_code: mk(Some(Color::Rgb(139, 233, 253)), false, false, false, false, false),
        code_block: mk(Some(Color::Rgb(248, 248, 242)), false, false, false, false, false),
        code_border: mk(Some(Color::Rgb(98, 114, 164)), false, false, false, false, false),
        code_lang_label: mk(Some(Color::Rgb(98, 114, 164)), false, true, false, false, false),
        code_line_number: mk(Some(Color::Rgb(98, 114, 164)), false, false, false, false, false),
        blockquote: mk(Some(Color::Rgb(98, 114, 164)), false, true, false, false, false),
        blockquote_bar: mk(Some(Color::Rgb(189, 147, 249)), false, false, false, false, false),
        link_text: mk(Some(Color::Rgb(139, 233, 253)), false, false, true, false, false),
        link_url: mk(Some(Color::Rgb(98, 114, 164)), false, false, false, false, false),
        list_bullet: mk(Some(Color::Rgb(80, 250, 123)), false, false, false, false, false),
        list_number: mk(Some(Color::Rgb(80, 250, 123)), false, false, false, false, false),
        task_done: mk(Some(Color::Rgb(80, 250, 123)), false, false, false, false, false),
        task_pending: mk(Some(Color::Rgb(98, 114, 164)), false, false, false, false, false),
        table_border: mk(Some(Color::Rgb(98, 114, 164)), false, false, false, false, false),
        table_header: mk(Some(Color::Rgb(189, 147, 249)), true, false, false, false, false),
        table_cell: mk(Some(Color::Rgb(248, 248, 242)), false, false, false, false, false),
        thematic_break: mk(Some(Color::Rgb(98, 114, 164)), false, false, false, false, false),
        image_alt: mk(Some(Color::Rgb(255, 121, 198)), false, true, false, false, false),
        footnote_ref: mk(Some(Color::Rgb(139, 233, 253)), false, false, false, false, false),
        footnote_def: mk(Some(Color::Rgb(98, 114, 164)), false, false, false, false, false),
    }
}

/// Bold, italic and dim only, no colors.
pub open spec fn monochrome_theme_spec() -> Theme {
    Theme {
        heading1: style_of(None, true, false, false, false, false),
        heading2: style_of(None, true, false, false, false, false),
        heading3: style_of(None, true, false, false, false, false),
        heading4: style_of(None, true, false, false, true, false),
        heading5: style_of(None, true, false, false, true, false),
        heading6: style_of(None, true, false, false, true, false),
        paragraph: style_of(None, false, false, false, false, false),
        emphasis: style_of(None, false, true, false, false, false),
        strong: style_of(None, true, false, false, false, false),
        strikethrough: style_of(None, false, false, false, false, true),
        inline_code: style_of(None, false, false, false, true, false),
        code_block: style_of(None, false, false, false, false, false),
        code_border: style_of(None, false, false, false, true, false),
        code_lang_label: style_of(None, false, true, false, true, false),
        code_line_number: style_of(None, false, false, false, true, false),
        blockquote: style_of(None, false, true, false, true, false),
        blockquote_bar: style_of(None, false, false, false, true, false),
        link_text: style_of(None, false, false, true, false, false),
        link_url: style_of(None, false, false, false, true, false),
        list_bullet: style_of(None, false, false, false, false, false),
        list_number: style_of(None, false, false, false, false, false),
        task_done: style_of(None, true, false, false, false, false),
        task_pending: style_of(None, false, false, false, true, false),
        table_border: style_of(None, false, false, false, true, false),
        table_header: style_of(None, true, false, false, false, false),
        table_cell: style_of(None, false, false, false, false, false),
        thematic_break: style_of(None, false, false, false, true, false),
        image_alt: style_of(None, false, true, false, false, false),
        footnote_ref: style_of(None, false, false, false, true, false),
        footnote_def: style_of(None, false, false, false, true, false),
    }
}

/// Bold, italic and dim only, no colors.
pub fn monochrome_theme() -> (t: Theme)
    ensures
        t == monochrome_theme_spec(),
{
    Theme {
        heading1: mk(None, true, false, false, false, false),
        heading2: mk(None, true, false, false, false, false),
        heading3: mk(None, true, false, false, false, false),
        heading4: mk(None, true, false, false, true, false),
        heading5: mk(None, true, false, false, true, false),
        heading6: mk(None, true, false, false, true, false),
        paragraph: mk(None, false, false, false, false, false),
        emphasis: mk(None, false, true, false, false, false),
        strong: mk(None, true, false, false, false, false),
        strikethrough: mk(None, false, false, false, false, true),
        inline_code: mk(None, false, false, false, true, false),
        code_block: mk(None, false, false, false, false, false),
        code_border: mk(None, false, false, false, true, false),
        code_lang_label: mk(None, false, true, false, true, false),
        code_line_number: mk(None, false, false, false, true, false),
        blockquote: mk(None, false, true, false, true, false),
        blockquote_bar: mk(None, false, false, false, true, false),
        link_text: mk(None, false, false, true, false, false),
        link_url: mk(None, false, false, false, true, false),
        list_bullet: mk(None, false, false, false, false, false),
        list_number: mk(None, false, false, false, false, false),
        task_done: mk(None, true, false, false, false, false),
        task_pending: mk(None, false, false, false, true, false),
        table_border: mk(None, false, false, false, true, false),
        table_header: mk(None, true, false, false, false, false),
        table_cell: mk(None, false, false, false, false, false),
        thematic_break: mk(None, false, false, false, true, false),
        image_alt: mk(None, false, true, false, false, false),
        footnote_ref: mk(None, false, false, false, true, false),
        footnote_def: mk(None, false, false, false, true, false),
    }
}

impl Default for Theme {
    fn default() -> (t: Theme)
        ensures
            t == default_theme_spec(),
    {
        default_theme()
    }
}

/// The built-in theme of a name.
pub open spec fn builtin_theme_of(name: Seq<char>) -> Option<Theme> {
    if name == "default"@ {
        Some(default_theme_spec())
    } else if name == "solarized"@ {
        Some(solarized_theme_spec())
    } else if name == "dracula"@ {
        Some(dracula_theme_spec())
    } else if name == "monochrome"@ {
        Some(monochrome_theme_spec())
    } else {
        None
    }
}

/// The names of the built-in themes, in order.
pub open spec fn builtin_names() -> Seq<Seq<char>> {
    seq!["default"@, "solarized"@, "dracula"@, "monochrome"@]
}

/// Get a built-in theme by name.
pub fn builtin_theme(name: &str) -> (t: Option<Theme>)
    ensures
        t == builtin_theme_of(name@),
{
    if eq_str(name, "default") {
        Some(default_theme())
    } else if eq_str(name, "solarized") {
        Some(solarized_theme())
    } else if eq_str(name, "dracula") {
        Some(dracula_theme())
    } else if eq_str(name, "monochrome") {
        Some(monochrome_theme())
    } else {
        None
    }
}

/// List all built-in theme names.
pub fn builtin_theme_names() -> (names: &'static [&'static str])
    ensures
        names@.len() == 4,
        forall|i: int| 0 <= i < 4 ==> (#[trigger] names@[i])@ == builtin_names()[i],
{
    let names: &'static [&'static str] = &["default", "solarized", "dracula", "monochrome"];
    assert(names@.len() == 4);
    names
}

/// A name resolves to a built-in theme exactly when it is one of the listed names.
pub proof fn lemma_builtin_names_resolve(name: Seq<char>)
    ensures
        builtin_theme_of(name) is Some <==> builtin_names().contains(name),
{
    if builtin_names().contains(name) {
        let i = choose|i: int| 0 <= i < builtin_names().len() && builtin_names()[i] == name;
        assert(0 <= i < 4);
    }
    if builtin_theme_of(name) is Some {
        if name == "default"@ {
            assert(builtin_names()[0] == name);
        } else if name == "solarized"@ {
            assert(builtin_names()[1] == name);
        } else if name == "dracula"@ {
            assert(builtin_names()[2] == name);
        } else {
            assert(builtin_names()[3] == name);
        }
    }
}

/// TOML definition for a single style slot.
#[derive(Debug)]
pub struct ThemeStyleDef {
    pub fg: Option<String>,
    pub bg: Option<String>,
    pub bold: bool,
    pub italic: bool,
    pub underline: bool,
    pub dim: bool,
    pub strikethrough: bool,
}

/// A style slot with nothing set.
pub open spec fn empty_def(d: ThemeStyleDef) -> bool {
    d.fg is None && d.bg is None && !d.bold && !d.italic && !d.underline && !d.dim
        && !d.strikethrough
}

impl Default for ThemeStyleDef {
    fn default() -> (d: ThemeStyleDef)
        ensures
            empty_def(d),
    {
        ThemeStyleDef {
            fg: None,
            bg: None,
            bold: false,
            italic: false,
            underline: false,
            dim: false,
            strikethrough: false,
        }
    }
}

/// Whether a color name is one of the named colors.
pub open spec fn named_color(l: Seq<char>) -> Option<Color> {
    if l == "black"@ {
        Some(Color::Ansi(0))
    } else if l == "red"@ {
        Some(Color::Ansi(1))
    } else if l == "green"@ {
        Some(Color::Ansi(2))
    } else if l == "yellow"@ {
        Some(Color::Ansi(3))
    } else if l == "blue"@ {
        Some(Color::Ansi(4))
    } else if l == "magenta"@ {
        Some(Color::Ansi(5))
    } else if l == "cyan"@ {
        Some(Color::Ansi(6))
    } else if l == "white"@ {
        Some(Color::Ansi(7))
    } else if l == "bright_black"@ || l == "gray"@ || l == "grey"@ {
        Some(Color::Ansi(8))
    } else if l == "bright_red"@ {
        Some(Color::Ansi(9))
    } else if l == "bright_green"@ {
        Some(Color::Ansi(10))
    } else if l == "bright_yellow"@ {
        Some(Color::Ansi(11))
    } else if l == "bright_blue"@ {
        Some(Color::Ansi(12))
    } else if l == "bright_magenta"@ {
        Some(Color::Ansi(13))
    } else if l == "bright_cyan"@ {
        Some(Color::Ansi(14))
    } else if l == "bright_white"@ {
        Some(Color::Ansi(15))
    } else {
        None
    }
}

/// The color a theme file writes as `s`, given `lower`, the text in lower case: a color name,
/// `#rrggbb`, or a palette index.
pub open spec fn color_of_parts(s: Seq<char>, lower: Seq<char>) -> Option<Color> {
    if named_color(lower) is Some {
        named_color(lower)
    } else if s.len() > 0 && s[0] == '#' {
        from_hex_of(s)
    } else {
        match parse_u8_of(s) {
            Some(n) => Some(Color::Palette(n)),
            None => None,
        }
    }
}

/// The color a theme file writes as `s`: a color name in any case, `#rrggbb`, or a palette index.
pub open spec fn parse_color_of(s: Seq<char>) -> Option<Color> {
    color_of_parts(s, lowercase(s))
}

/// The inputs on which the color parse is defined, given the text in lower case.
pub open spec fn color_parts_requires(s: Seq<char>, lower: Seq<char>) -> bool {
    named_color(lower) is None && s.len() > 0 && s[0] == '#' ==> from_hex_requires(s)
}

/// The inputs on which the color parse is defined (see `from_hex_requires`).
pub open spec fn parse_color_requires(s: Seq<char>) -> bool {
    color_parts_requires(s, lowercase(s))
}

/// The color a theme file writes as `s`, where `lower` is `s` in lower case.
pub fn color_from_parts(s: &str, lower: &str) -> (c: Option<Color>)
    requires
        color_parts_requires(s@, lower@),
    ensures
        c == color_of_parts(s@, lower@),
{
    let named = named_color_exec(lower);
    if named.is_some() {
        return named;
    }
    let v = chars_of(s);
    if v.len() > 0 && v[0] == '#' {
        return Color::from_hex(s);
    }
    match parse_u8(v.as_slice()) {
        Some(n) => Some(Color::Palette(n)),
        None => None,
    }
}

/// The color a lower-case color name stands for, if it is one.
pub fn named_color_exec(l: &str) -> (c: Option<Color>)
    ensures
        c == named_color(l@),
{
    if eq_str(l, "black") {
        Some(Color::Ansi(0))
    } else if eq_str(l, "red") {
        Some(Color::Ansi(1))
    } else if eq_str(l, "green") {
        Some(Color::Ansi(2))
    } else if eq_str(l, "yellow") {
        Some(Color::Ansi(3))
    } else if eq_str(l, "blue") {
        Some(Color::Ansi(4))
    } else if eq_str(l, "magenta") {
        Some(Color::Ansi(5))
    } else if eq_str(l, "cyan") {
        Some(Color::Ansi(6))
    } else if eq_str(l, "white") {
        Some(Color::Ansi(7))
    } else if eq_str(l, "bright_black") || eq_str(l, "gray") || eq_str(l, "grey") {
        Some(Color::Ansi(8))
    } else if eq_str(l, "bright_red") {
        Some(Color::Ansi(9))
    } else if eq_str(l, "bright_green") {
        Some(Color::Ansi(10))
    } else if eq_str(l, "bright_yellow") {
        Some(Color::Ansi(11))
    } else if eq_str(l, "bright_blue") {
        Some(Color::Ansi(12))
    } else if eq_str(l, "bright_magenta") {
        Some(Color::Ansi(13))
    } else if eq_str(l, "bright_cyan") {
        Some(Color::Ansi(14))
    } else if eq_str(l, "bright_white") {
        Some(Color::Ansi(15))
    } else {
        None
    }
}

/// Parse a color written in a theme file.
pub fn parse_color(s: &str) -> (c: Option<Color>)
    requires
        parse_color_requires(s@),
    ensures
        c == parse_color_of(s@),
{
    let lower = to_lowercase(s);
    color_from_parts(s, lower.as_str())
}

/// The color of an optional color field.
pub open spec fn parse_field_of(c: Option<String>) -> Option<Color> {
    match c {
        Some(s) => parse_color_of(s@),
        None => None,
    }
}

/// Whether an optional color field can be parsed.
pub open spec fn field_ok(c: Option<String>) -> bool {
    match c {
        Some(s) => parse_color_requires(s@),
        None => true,
    }
}

/// Whether both color fields of a style slot can be parsed.
pub open spec fn def_ok(d: ThemeStyleDef) -> bool {
    field_ok(d.fg) && field_ok(d.bg)
}

/// The style a slot describes.
pub open spec fn def_style_of(d: ThemeStyleDef) -> Style {
    Style {
        fg: parse_field_of(d.fg),
        bg: parse_field_of(d.bg),
        bold: d.bold,
        italic: d.italic,
        underline: d.underline,
        dim: d.dim,
        strikethrough: d.strikethrough,
    }
}

/// A slot that sets anything replaces the base style; an empty one keeps it.
pub open spec fn overlay_of(base: Style, d: ThemeStyleDef) -> Style {
    if style_is_empty(def_style_of(d)) {
        base
    } else {
        def_style_of(d)
    }
}

fn parse_field(c: &Option<String>) -> (r: Option<Color>)
    requires
        field_ok(*c),
    ensures
        r == parse_field_of(*c),
{
    match c {
        Some(s) => parse_color(s.as_str()),
        None => None,
    }
}

impl ThemeStyleDef {
    /// The style this slot describes.
    pub fn to_style(&self) -> (s: Style)
        requires
            def_ok(*self),
        ensures
            s == def_style_of(*self),
    {
        Style {
            fg: parse_field(&self.fg),
            bg: parse_field(&self.bg),
            bold: self.bold,
            italic: self.italic,
            underline: self.underline,
            dim: self.dim,
            strikethrough: self.strikethrough,
        }
    }
}

/// If the TOML def has any field set, use it; otherwise keep the base style.
pub fn overlay(base: &Style, def: &ThemeStyleDef) -> (s: Style)
    requires
        def_ok(*def),
    ensures
        s == overlay_of(*base, *def),
{
    let over = def.to_style();
    if over.is_empty() {
        *base
    } else {
        over
    }
}

/// TOML-serializable theme definition.
#[derive(Debug)]
pub struct ThemeFile {
    pub heading1: ThemeStyleDef,
    pub heading2: ThemeStyleDef,
    pub heading3: ThemeStyleDef,
    pub heading4: ThemeStyleDef,
    pub heading5: ThemeStyleDef,
    pub heading6: ThemeStyleDef,
    pub paragraph: ThemeStyleDef,
    pub emphasis: ThemeStyleDef,
    pub strong: ThemeStyleDef,
    pub strikethrough: ThemeStyleDef,
    pub inline_code: ThemeStyleDef,
    pub code_block: ThemeStyleDef,
    pub code_border: ThemeStyleDef,
    pub code_lang_label: ThemeStyleDef,
    pub code_line_number: ThemeStyleDef,
    pub blockquote: ThemeStyleDef,
    pub blockquote_bar: ThemeStyleDef,
    pub link_text: ThemeStyleDef,
    pub link_url: ThemeStyleDef,
    pub list_bullet: ThemeStyleDef,
    pub list_number: ThemeStyleDef,
    pub task_done: ThemeStyleDef,
    pub task_pending: ThemeStyleDef,
    pub table_border: ThemeStyleDef,
    pub table_header: ThemeStyleDef,
    pub table_cell: ThemeStyleDef,
    pub thematic_break: ThemeStyleDef,
    pub image_alt: ThemeStyleDef,
    pub footnote_ref: ThemeStyleDef,
    pub footnote_def: ThemeStyleDef,
}

impl Default for ThemeFile {
    fn default() -> (f: ThemeFile)
        ensures
            file_is_empty(f),
    {
        ThemeFile {
            heading1: ThemeStyleDef::default(),
            heading2: ThemeStyleDef::default(),
            heading3: ThemeStyleDef::default(),
            heading4: ThemeStyleDef::default(),
            heading5: ThemeStyleDef::default(),
            heading6: ThemeStyleDef::default(),
            paragraph: ThemeStyleDef::default(),
            emphasis: ThemeStyleDef::default(),
            strong: ThemeStyleDef::default(),
            strikethrough: ThemeStyleDef::default(),
            inline_code: ThemeStyleDef::default(),
            code_block: ThemeStyleDef::default(),
            code_border: ThemeStyleDef::default(),
            code_lang_label: ThemeStyleDef::default(),
            code_line_number: ThemeStyleDef::default(),
            blockquote: ThemeStyleDef::default(),
            blockquote_bar: ThemeStyleDef::default(),
            link_text: ThemeStyleDef::default(),
            link_url: ThemeStyleDef::default(),
            list_bullet: ThemeStyleDef::default(),
            list_number: ThemeStyleDef::default(),
            task_done: ThemeStyleDef::default(),
            task_pending: ThemeStyleDef::default(),
            table_border: ThemeStyleDef::default(),
            table_header: ThemeStyleDef::default(),
            table_cell: ThemeStyleDef::default(),
            thematic_break: ThemeStyleDef::default(),
            image_alt: ThemeStyleDef::default(),
            footnote_ref: ThemeStyleDef::default(),
            footnote_def: ThemeStyleDef::default(),
        }
    }
}

/// Whether no slot of a theme file sets anything.
pub open spec fn file_is_empty(f: ThemeFile) -> bool {
    empty_def(f.heading1)
        && empty_def(f.heading2)
        && empty_def(f.heading3)
        && empty_def(f.heading4)
        && empty_def(f.heading5)
        && empty_def(f.heading6)
        && empty_def(f.paragraph)
        && empty_def(f.emphasis)
        && empty_def(f.strong)
        && empty_def(f.strikethrough)
        && empty_def(f.inline_code)
        && empty_def(f.code_block)
        && empty_def(f.code_border)
        && empty_def(f.code_lang_label)
        && empty_def(f.code_line_number)
        && empty_def(f.blockquote)
        && empty_def(f.blockquote_bar)
        && empty_def(f.link_text)
        && empty_def(f.link_url)
        && empty_def(f.list_bullet)
        && empty_def(f.list_number)
        && empty_def(f.task_done)
        && empty_def(f.task_pending)
        && empty_def(f.table_border)
        && empty_def(f.table_header)
        && empty_def(f.table_cell)
        && empty_def(f.thematic_break)
        && empty_def(f.image_alt)
        && empty_def(f.footnote_ref)
        && empty_def(f.footnote_def)
}

/// Whether every color in a theme file can be parsed.
pub open spec fn file_ok(f: ThemeFile) -> bool {
    def_ok(f.heading1)
        && def_ok(f.heading2)
        && def_ok(f.heading3)
        && def_ok(f.heading4)
        && def_ok(f.heading5)
        && def_ok(f.heading6)
        && def_ok(f.paragraph)
        && def_ok(f.emphasis)
        && def_ok(f.strong)
        && def_ok(f.strikethrough)
        && def_ok(f.inline_code)
        && def_ok(f.code_block)
        && def_ok(f.code_border)
        && def_ok(f.code_lang_label)
        && def_ok(f.code_line_number)
        && def_ok(f.blockquote)
        && def_ok(f.blockquote_bar)
        && def_ok(f.link_text)
        && def_ok(f.link_url)
        && def_ok(f.list_bullet)
        && def_ok(f.list_number)
        && def_ok(f.task_done)
        && def_ok(f.task_pending)
        && def_ok(f.table_border)
        && def_ok(f.table_header)
        && def_ok(f.table_cell)
        && def_ok(f.thematic_break)
        && def_ok(f.image_alt)
        && def_ok(f.footnote_ref)
        && def_ok(f.footnote_def)
}

/// Whether a color text can be parsed without failing, as `parse_color_requires` says.
pub fn color_parses(s: &str) -> (b: bool)
    ensures
        b == parse_color_requires(s@),
{
    let lower = to_lowercase(s);
    if named_color_exec(lower.as_str()).is_some() {
        return true;
    }
    let v = chars_of(s);
    if v.len() > 0 && v[0] == '#' {
        crate::style::hex_slices_ok(s)
    } else {
        true
    }
}

/// Whether an optional color field can be parsed without failing.
fn field_loadable(c: &Option<String>) -> (b: bool)
    ensures
        b == field_ok(*c),
{
    match c {
        Some(s) => color_parses(s.as_str()),
        None => true,
    }
}

/// Whether both color fields of a style slot can be parsed without failing.
pub fn def_loadable(d: &ThemeStyleDef) -> (b: bool)
    ensures
        b == def_ok(*d),
{
    field_loadable(&d.fg) && field_loadable(&d.bg)
}

impl ThemeFile {
    /// Whether every color in the file can be parsed without failing, as `file_ok` says.
    pub fn loadable(&self) -> (b: bool)
        ensures
            b == file_ok(*self),
    {
        def_loadable(&self.heading1)
            && def_loadable(&self.heading2)
            && def_loadable(&self.heading3)
            && def_loadable(&self.heading4)
            && def_loadable(&self.heading5)
            && def_loadable(&self.heading6)
            && def_loadable(&self.paragraph)
            && def_loadable(&self.emphasis)
            && def_loadable(&self.strong)
            && def_loadable(&self.strikethrough)
            && def_loadable(&self.inline_code)
            && def_loadable(&self.code_block)
            && def_loadable(&self.code_border)
            && def_loadable(&self.code_lang_label)
            && def_loadable(&self.code_line_number)
            && def_loadable(&self.blockquote)
            && def_loadable(&self.blockquote_bar)
            && def_loadable(&self.link_text)
            && def_loadable(&self.link_url)
            && def_loadable(&self.list_bullet)
            && def_loadable(&self.list_number)
            && def_loadable(&self.task_done)
            && def_loadable(&self.task_pending)
            && def_loadable(&self.table_border)
            && def_loadable(&self.table_header)
            && def_loadable(&self.table_cell)
            && def_loadable(&self.thematic_break)
            && def_loadable(&self.image_alt)
            && def_loadable(&self.footnote_ref)
            && def_loadable(&self.footnote_def)
    }
}

/// The theme a file describes, laid over the default theme slot by slot.
pub open spec fn into_theme_of(f: ThemeFile) -> Theme {
    let base = default_theme_spec();
    Theme {
        heading1: overlay_of(base.heading1, f.heading1),
        heading2: overlay_of(base.heading2, f.heading2),
        heading3: overlay_of(base.heading3, f.heading3),
        heading4: overlay_of(base.heading4, f.heading4),
        heading5: overlay_of(base.heading5, f.heading5),
        heading6: overlay_of(base.heading6, f.heading6),
        paragraph: overlay_of(base.paragraph, f.paragraph),
        emphasis: overlay_of(base.emphasis, f.emphasis),
        strong: overlay_of(base.strong, f.strong),
        strikethrough: overlay_of(base.strikethrough, f.strikethrough),
        inline_code: overlay_of(base.inline_code, f.inline_code),
        code_block: overlay_of(base.code_block, f.code_block),
        code_border: overlay_of(base.code_border, f.code_border),
        code_lang_label: overlay_of(base.code_lang_label, f.code_lang_label),
        code_line_number: overlay_of(base.code_line_number, f.code_line_number),
        blockquote: overlay_of(base.blockquote, f.blockquote),
        blockquote_bar: overlay_of(base.blockquote_bar, f.blockquote_bar),
        link_text: overlay_of(base.link_text, f.link_text),
        link_url: overlay_of(base.link_url, f.link_url),
        list_bullet: overlay_of(base.list_bullet, f.list_bullet),
        list_number: overlay_of(base.list_number, f.list_number),
        task_done: overlay_of(base.task_done, f.task_done),
        task_pending: overlay_of(base.task_pending, f.task_pending),
        table_border: overlay_of(base.table_border, f.table_border),
        table_header: overlay_of(base.table_header, f.table_header),
        table_cell: overlay_of(base.table_cell, f.table_cell),
        thematic_break: overlay_of(base.thematic_break, f.thematic_break),
        image_alt: overlay_of(base.image_alt, f.image_alt),
        footnote_ref: overlay_of(base.footnote_ref, f.footnote_ref),
        footnote_def: overlay_of(base.footnote_def, f.footnote_def),
    }
}

impl ThemeFile {
    /// Convert the file definition into a full Theme, using defaults for unspecified fields.
    pub fn into_theme(self) -> (t: Theme)
        requires
            file_ok(self),
        ensures
            t == into_theme_of(self),
    {
        let base = default_theme();
        Theme {
            heading1: overlay(&base.heading1, &self.heading1),
            heading2: overlay(&base.heading2, &self.heading2),
            heading3: overlay(&base.heading3, &self.heading3),
            heading4: overlay(&base.heading4, &self.heading4),
            heading5: overlay(&base.heading5, &self.heading5),
            heading6: overlay(&base.heading6, &self.heading6),
            paragraph: overlay(&base.paragraph, &self.paragraph),
            emphasis: overlay(&base.emphasis, &self.emphasis),
            strong: overlay(&base.strong, &self.strong),
            strikethrough: overlay(&base.strikethrough, &self.strikethrough),
            inline_code: overlay(&base.inline_code, &self.inline_code),
            code_block: overlay(&base.code_block, &self.code_block),
            code_border: overlay(&base.code_border, &self.code_border),
            code_lang_label: overlay(&base.code_lang_label, &self.code_lang_label),
            code_line_number: overlay(&base.code_line_number, &self.code_line_number),
            blockquote: overlay(&base.blockquote, &self.blockquote),
            blockquote_bar: overlay(&base.blockquote_bar, &self.blockquote_bar),
            link_text: overlay(&base.link_text, &self.link_text),
            link_url: overlay(&base.link_url, &self.link_url),
            list_bullet: overlay(&base.list_bullet, &self.list_bullet),
            list_number: overlay(&base.list_number, &self.list_number),
            task_done: overlay(&base.task_done, &self.task_done),
            task_pending: overlay(&base.task_pending, &self.task_pending),
            table_border: overlay(&base.table_border, &self.table_border),
            table_header: overlay(&base.table_header, &self.table_header),
            table_cell: overlay(&base.table_cell, &self.table_cell),
            thematic_break: overlay(&base.thematic_break, &self.thematic_break),
            image_alt: overlay(&base.image_alt, &self.image_alt),
            footnote_ref: overlay(&base.footnote_ref, &self.footnote_ref),
            footnote_def: overlay(&base.footnote_def, &self.footnote_def),
        }
    }
}

/// A theme file that sets nothing gives the default theme.
pub proof fn lemma_empty_file_is_default(f: ThemeFile)
    requires
        file_is_empty(f),
    ensures
        into_theme_of(f) == default_theme_spec(),
{
    assert(def_style_of(f.heading1) == plain_style());
}

/// The eight standard ANSI color names, in the order of their color numbers.
pub open spec fn ansi_color_names() -> Seq<Seq<char>> {
    seq!["black"@, "red"@, "green"@, "yellow"@, "blue"@, "magenta"@, "cyan"@, "white"@]
}

/// The `bright_` form of a color name.
pub open spec fn bright_name(n: Seq<char>) -> Seq<char> {
    "bright_"@ + n
}

/// Color names follow the standard ANSI numbering: the `k`-th of black, red, green, yellow,
/// blue, magenta, cyan and white is color `k`, and its `bright_` form is color `8 + k`; a theme
/// color written so, in any case (its lower case given as `lower`), is that color.
pub proof fn lemma_color_names_follow_ansi(s: Seq<char>, lower: Seq<char>, k: int)
    requires
        0 <= k < 8,
    ensures
        named_color(ansi_color_names()[k]) == Some(Color::Ansi(k as u8)),
        named_color(bright_name(ansi_color_names()[k])) == Some(Color::Ansi((k + 8) as u8)),
        lower == ansi_color_names()[k] ==> color_of_parts(s, lower) == Some(Color::Ansi(k as u8)),
        lower == bright_name(ansi_color_names()[k]) ==> color_of_parts(s, lower) == Some(
            Color::Ansi((k + 8) as u8),
        ),
{
    reveal_strlit("black");
    reveal_strlit("red");
    reveal_strlit("green");
    reveal_strlit("yellow");
    reveal_strlit("blue");
    reveal_strlit("magenta");
    reveal_strlit("cyan");
    reveal_strlit("white");
    reveal_strlit("bright_");
    reveal_strlit("bright_black");
    reveal_strlit("bright_red");
    reveal_strlit("bright_green");
    reveal_strlit("bright_yellow");
    reveal_strlit("bright_blue");
    reveal_strlit("bright_magenta");
    reveal_strlit("bright_cyan");
    reveal_strlit("bright_white");
    reveal_strlit("gray");
    reveal_strlit("grey");
    let names = ansi_color_names();
    if k == 0 {
        assert(names[0] == "black"@);
        assert(bright_name(names[0]) =~= "bright_black"@);
        assert(named_color("black"@) == Some(Color::Ansi(0u8)));
        assert("bright_black"@[1] != "black"@[1]);
        assert("bright_black"@[0] != "red"@[0]);
        assert("bright_black"@[0] != "green"@[0]);
        assert("bright_black"@[0] != "yellow"@[0]);
        assert("bright_black"@[1] != "blue"@[1]);
        assert("bright_black"@[0] != "magenta"@[0]);
        assert("bright_black"@[0] != "cyan"@[0]);
        assert("bright_black"@[0] != "white"@[0]);
        assert(named_color("bright_black"@) == Some(Color::Ansi(8u8)));
    } else if k == 1 {
        assert(names[1] == "red"@);
        assert(bright_name(names[1]) =~= "bright_red"@);
        assert("red"@[0] != "black"@[0]);
        assert(named_color("red"@) == Some(Color::Ansi(1u8)));
        assert("bright_red"@[1] != "black"@[1]);
        assert("bright_red"@[0] != "red"@[0]);
        assert("bright_red"@[0] != "green"@[0]);
        assert("bright_red"@[0] != "yellow"@[0]);
        assert("bright_red"@[1] != "blue"@[1]);
        assert("bright_red"@[0] != "magenta"@[0]);
        assert("bright_red"@[0] != "cyan"@[0]);
        assert("bright_red"@[0] != "white"@[0]);
        assert("bright_red"@[7] != "bright_black"@[7]);
        assert("bright_red"@[0] != "gray"@[0]);
        assert("bright_red"@[0] != "grey"@[0]);
        assert(named_color("bright_red"@) == Some(Color::Ansi(9u8)));
    } else if k == 2 {
        assert(names[2] == "green"@);
        assert(bright_name(names[2]) =~= "bright_green"@);
        assert("green"@[0] != "black"@[0]);
        assert("green"@[0] != "red"@[0]);
        assert(named_color("green"@) == Some(Color::Ansi(2u8)));
        assert("bright_green"@[1] != "black"@[1]);
        assert("bright_green"@[0] != "red"@[0]);
        assert("bright_green"@[0] != "green"@[0]);
        assert("bright_green"@[0] != "yellow"@[0]);
        assert("bright_green"@[1] != "blue"@[1]);
        assert("bright_green"@[0] != "magenta"@[0]);
        assert("bright_green"@[0] != "cyan"@[0]);
        assert("bright_green"@[0] != "white"@[0]);
        assert("bright_green"@[7] != "bright_black"@[7]);
        assert("bright_green"@[0] != "gray"@[0]);
        assert("bright_green"@[0] != "grey"@[0]);
        assert("bright_green"@[7] != "bright_red"@[7]);
        assert(named_color("bright_green"@) == Some(Color::Ansi(10u8)));
    } else if k == 3 {
        assert(names[3] == "yellow"@);
        assert(bright_name(names[3]) =~= "bright_yellow"@);
        assert("yellow"@[0] != "black"@[0]);
        assert("yellow"@[0] != "red"@[0]);
        assert("yellow"@[0] != "green"@[0]);
        assert(named_color("yellow"@) == Some(Color::Ansi(3u8)));
        assert("bright_yellow"@[1] != "black"@[1]);
        assert("bright_yellow"@[0] != "red"@[0]);
        assert("bright_yellow"@[0] != "green"@[0]);
        assert("bright_yellow"@[0] != "yellow"@[0]);
        assert("bright_yellow"@[1] != "blue"@[1]);
        assert("bright_yellow"@[0] != "magenta"@[0]);
        assert("bright_yellow"@[0] != "cyan"@[0]);
        assert("bright_yellow"@[0] != "white"@[0]);
        assert("bright_yellow"@[7] != "bright_black"@[7]);
        assert("bright_yellow"@[0] != "gray"@[0]);
        assert("bright_yellow"@[0] != "grey"@[0]);
        assert("bright_yellow"@[7] != "bright_red"@[7]);
        assert("bright_yellow"@[7] != "bright_green"@[7]);
        assert(named_color("bright_yellow"@) == Some(Color::Ansi(11u8)));
    } else if k == 4 {
        assert(names[4] == "blue"@);
        assert(bright_name(names[4]) =~= "bright_blue"@);
        assert("blue"@[2] != "black"@[2]);
        assert("blue"@[0] != "red"@[0]);
        assert("blue"@[0] != "green"@[0]);
        assert("blue"@[0] != "yellow"@[0]);
        assert(named_color("blue"@) == Some(Color::Ansi(4u8)));
        assert("bright_blue"@[1] != "black"@[1]);
        assert("bright_blue"@[0] != "red"@[0]);
        assert("bright_blue"@[0] != "green"@[0]);
        assert("bright_blue"@[0] != "yellow"@[0]);
        assert("bright_blue"@[1] != "blue"@[1]);
        assert("bright_blue"@[0] != "magenta"@[0]);
        assert("bright_blue"@[0] != "cyan"@[0]);
        assert("bright_blue"@[0] != "white"@[0]);
        assert("bright_blue"@[9] != "bright_black"@[9]);
        assert("bright_blue"@[0] != "gray"@[0]);
        assert("bright_blue"@[0] != "grey"@[0]);
        assert("bright_blue"@[7] != "bright_red"@[7]);
        assert("bright_blue"@[7] != "bright_green"@[7]);
        assert("bright_blue"@[7] != "bright_yellow"@[7]);
        assert(named_color("bright_blue"@) == Some(Color::Ansi(12u8)));
    } else if k == 5 {
        assert(names[5] == "magenta"@);
        assert(bright_name(names[5]) =~= "bright_magenta"@);
        assert("magenta"@[0] != "black"@[0]);
        assert("magenta"@[0] != "red"@[0]);
        assert("magenta"@[0] != "green"@[0]);
        assert("magenta"@[0] != "yellow"@[0]);
        assert("magenta"@[0] != "blue"@[0]);
        assert(named_color("magenta"@) == Some(Color::Ansi(5u8)));
        assert("bright_magenta"@[1] != "black"@[1]);
        assert("bright_magenta"@[0] != "red"@[0]);
        assert("bright_magenta"@[0] != "green"@[0]);
        assert("bright_magenta"@[0] != "yellow"@[0]);
        assert("bright_magenta"@[1] != "blue"@[1]);
        assert("bright_magenta"@[0] != "magenta"@[0]);
        assert("bright_magenta"@[0] != "cyan"@[0]);
        assert("bright_magenta"@[0] != "white"@[0]);
        assert("bright_magenta"@[7] != "bright_black"@[7]);
        assert("bright_magenta"@[0] != "gray"@[0]);
        assert("bright_magenta"@[0] != "grey"@[0]);
        assert("bright_magenta"@[7] != "bright_red"@[7]);
        assert("bright_magenta"@[7] != "bright_green"@[7]);
        assert("bright_magenta"@[7] != "bright_yellow"@[7]);
        assert("bright_magenta"@[7] != "bright_blue"@[7]);
        assert(named_color("bright_magenta"@) == Some(Color::Ansi(13u8)));
    } else if k == 6 {
        assert(names[6] == "cyan"@);
        assert(bright_name(names[6]) =~= "bright_cyan"@);
        assert("cyan"@[0] != "black"@[0]);
        assert("cyan"@[0] != "red"@[0]);
        assert("cyan"@[0] != "green"@[0]);
        assert("cyan"@[0] != "yellow"@[0]);
        assert("cyan"@[0] != "blue"@[0]);
        assert("cyan"@[0] != "magenta"@[0]);
        assert(named_color("cyan"@) == Some(Color::Ansi(6u8)));
        assert("bright_cyan"@[1] != "black"@[1]);
        assert("bright_cyan"@[0] != "red"@[0]);
        assert("bright_cyan"@[0] != "green"@[0]);
        assert("bright_cyan"@[0] != "yellow"@[0]);
        assert("bright_cyan"@[1] != "blue"@[1]);
        assert("bright_cyan"@[0] != "magenta"@[0]);
        assert("bright_cyan"@[0] != "cyan"@[0]);
        assert("bright_cyan"@[0] != "white"@[0]);
        assert("bright_cyan"@[7] != "bright_black"@[7]);
        assert("bright_cyan"@[0] != "gray"@[0]);
        assert("bright_cyan"@[0] != "grey"@[0]);
        assert("bright_cyan"@[7] != "bright_red"@[7]);
        assert("bright_cyan"@[7] != "bright_green"@[7]);
        assert("bright_cyan"@[7] != "bright_yellow"@[7]);
        assert("bright_cyan"@[7] != "bright_blue"@[7]);
        assert("bright_cyan"@[7] != "bright_magenta"@[7]);
        assert(named_color("bright_cyan"@) == Some(Color::Ansi(14u8)));
    } else {
        assert(names[7] == "white"@);
        assert(bright_name(names[7]) =~= "bright_white"@);
        assert("white"@[0] != "black"@[0]);
        assert("white"@[0] != "red"@[0]);
        assert("white"@[0] != "green"@[0]);
        assert("white"@[0] != "yellow"@[0]);
        assert("white"@[0] != "blue"@[0]);
        assert("white"@[0] != "magenta"@[0]);
        assert("white"@[0] != "cyan"@[0]);
        assert(named_color("white"@) == Some(Color::Ansi(7u8)));
        assert("bright_white"@[1] != "black"@[1]);
        assert("bright_white"@[0] != "red"@[0]);
        assert("bright_white"@[0] != "green"@[0]);
        assert("bright_white"@[0] != "yellow"@[0]);
        assert("bright_white"@[1] != "blue"@[1]);
        assert("bright_white"@[0] != "magenta"@[0]);
        assert("bright_white"@[0] != "cyan"@[0]);
        assert("bright_white"@[0] != "white"@[0]);
        assert("bright_white"@[7] != "bright_black"@[7]);
        assert("bright_white"@[0] != "gray"@[0]);
        assert("bright_white"@[0] != "grey"@[0]);
        assert("bright_white"@[7] != "bright_red"@[7]);
        assert("bright_white"@[7] != "bright_green"@[7]);
        assert("bright_white"@[7] != "bright_yellow"@[7]);
        assert("bright_white"@[7] != "bright_blue"@[7]);
        assert("bright_white"@[7] != "bright_magenta"@[7]);
        assert("bright_white"@[7] != "bright_cyan"@[7]);
        assert(named_color("bright_white"@) == Some(Color::Ansi(15u8)));
    }
}

/// `gray` and `grey` both name bright black.
pub proof fn lemma_gray_is_bright_black()
    ensures
        named_color("gray"@) == named_color(bright_name("black"@)),
        named_color("grey"@) == named_color(bright_name("black"@)),
        named_color("gray"@) == Some(Color::Ansi(8)),
{
    reveal_strlit("black");
    reveal_strlit("red");
    reveal_strlit("green");
    reveal_strlit("yellow");
    reveal_strlit("blue");
    reveal_strlit("magenta");
    reveal_strlit("cyan");
    reveal_strlit("white");
    reveal_strlit("bright_");
    reveal_strlit("bright_black");
    reveal_strlit("gray");
    reveal_strlit("grey");
    reveal_strlit("bright_red");
    reveal_strlit("bright_green");
    reveal_strlit("bright_yellow");
    reveal_strlit("bright_blue");
    reveal_strlit("bright_magenta");
    reveal_strlit("bright_cyan");
    reveal_strlit("bright_white");
    assert(bright_name("black"@) =~= "bright_black"@);
    assert("bright_black"@[1] != "black"@[1]);
    assert("bright_black"@[0] != "red"@[0]);
    assert("bright_black"@[0] != "green"@[0]);
    assert("bright_black"@[0] != "yellow"@[0]);
    assert("bright_black"@[1] != "blue"@[1]);
    assert("bright_black"@[0] != "magenta"@[0]);
    assert("bright_black"@[0] != "cyan"@[0]);
    assert("bright_black"@[0] != "white"@[0]);
    assert(named_color("bright_black"@) == Some(Color::Ansi(8u8)));
    assert("gray"@[0] != "black"@[0]);
    assert("gray"@[0] != "red"@[0]);
    assert("gray"@[2] != "green"@[2]);
    assert("gray"@[0] != "yellow"@[0]);
    assert("gray"@[0] != "blue"@[0]);
    assert("gray"@[0] != "magenta"@[0]);
    assert("gray"@[0] != "cyan"@[0]);
    assert("gray"@[0] != "white"@[0]);
    assert("gray"@[0] != "bright_black"@[0]);
    assert(named_color("gray"@) == Some(Color::Ansi(8u8)));
    assert("grey"@[0] != "black"@[0]);
    assert("grey"@[0] != "red"@[0]);
    assert("grey"@[3] != "green"@[3]);
    assert("grey"@[0] != "yellow"@[0]);
    assert("grey"@[0] != "blue"@[0]);
    assert("grey"@[0] != "magenta"@[0]);
    assert("grey"@[0] != "cyan"@[0]);
    assert("grey"@[0] != "white"@[0]);
    assert("grey"@[0] != "bright_black"@[0]);
    assert("grey"@[2] != "gray"@[2]);
    assert(named_color("grey"@) == Some(Color::Ansi(8u8)));
}

/// A theme file slot describes a style field by field: its colors parsed, each flag as written.
pub proof fn lemma_slot_style(d: ThemeStyleDef)
    ensures
        def_style_of(d).fg == (match d.fg { Some(s) => parse_color_of(s@), None => None }),
        def_style_of(d).bg == (match d.bg { Some(s) => parse_color_of(s@), None => None }),
        def_style_of(d).bold == d.bold,
        def_style_of(d).italic == d.italic,
        def_style_of(d).underline == d.underline,
        def_style_of(d).dim == d.dim,
        def_style_of(d).strikethrough == d.strikethrough,
{
}

/// A theme file overlays the default theme slot by slot: each slot that the file sets anything
/// in takes the file's style for that same slot, and each slot it leaves empty keeps the default.
pub proof fn lemma_theme_file_slots(f: ThemeFile)
    ensures
        style_is_empty(def_style_of(f.heading1)) ==> into_theme_of(f).heading1 == default_theme_spec().heading1,
        !style_is_empty(def_style_of(f.heading1)) ==> into_theme_of(f).heading1 == def_style_of(f.heading1),
        style_is_empty(def_style_of(f.heading2)) ==> into_theme_of(f).heading2 == default_theme_spec().heading2,
        !style_is_empty(def_style_of(f.heading2)) ==> into_theme_of(f).heading2 == def_style_of(f.heading2),
        style_is_empty(def_style_of(f.heading3)) ==> into_theme_of(f).heading3 == default_theme_spec().heading3,
        !style_is_empty(def_style_of(f.heading3)) ==> into_theme_of(f).heading3 == def_style_of(f.heading3),
        style_is_empty(def_style_of(f.heading4)) ==> into_theme_of(f).heading4 == default_theme_spec().heading4,
        !style_is_empty(def_style_of(f.heading4)) ==> into_theme_of(f).heading4 == def_style_of(f.heading4),
        style_is_empty(def_style_of(f.heading5)) ==> into_theme_of(f).heading5 == default_theme_spec().heading5,
        !style_is_empty(def_style_of(f.heading5)) ==> into_theme_of(f).heading5 == def_style_of(f.heading5),
        style_is_empty(def_style_of(f.heading6)) ==> into_theme_of(f).heading6 == default_theme_spec().heading6,
        !style_is_empty(def_style_of(f.heading6)) ==> into_theme_of(f).heading6 == def_style_of(f.heading6),
        style_is_empty(def_style_of(f.paragraph)) ==> into_theme_of(f).paragraph == default_theme_spec().paragraph,
        !style_is_empty(def_style_of(f.paragraph)) ==> into_theme_of(f).paragraph == def_style_of(f.paragraph),
        style_is_empty(def_style_of(f.emphasis)) ==> into_theme_of(f).emphasis == default_theme_spec().emphasis,
        !style_is_empty(def_style_of(f.emphasis)) ==> into_theme_of(f).emphasis == def_style_of(f.emphasis),
        style_is_empty(def_style_of(f.strong)) ==> into_theme_of(f).strong == default_theme_spec().strong,
        !style_is_empty(def_style_of(f.strong)) ==> into_theme_of(f).strong == def_style_of(f.strong),
        style_is_empty(def_style_of(f.strikethrough)) ==> into_theme_of(f).strikethrough == default_theme_spec().strikethrough,
        !style_is_empty(def_style_of(f.strikethrough)) ==> into_theme_of(f).strikethrough == def_style_of(f.strikethrough),
        style_is_empty(def_style_of(f.inline_code)) ==> into_theme_of(f).inline_code == default_theme_spec().inline_code,
        !style_is_empty(def_style_of(f.inline_code)) ==> into_theme_of(f).inline_code == def_style_of(f.inline_code),
        style_is_empty(def_style_of(f.code_block)) ==> into_theme_of(f).code_block == default_theme_spec().code_block,
        !style_is_empty(def_style_of(f.code_block)) ==> into_theme_of(f).code_block == def_style_of(f.code_block),
        style_is_empty(def_style_of(f.code_border)) ==> into_theme_of(f).code_border == default_theme_spec().code_border,
        !style_is_empty(def_style_of(f.code_border)) ==> into_theme_of(f).code_border == def_style_of(f.code_border),
        style_is_empty(def_style_of(f.code_lang_label)) ==> into_theme_of(f).code_lang_label == default_theme_spec().code_lang_label,
        !style_is_empty(def_style_of(f.code_lang_label)) ==> into_theme_of(f).code_lang_label == def_style_of(f.code_lang_label),
        style_is_empty(def_style_of(f.code_line_number)) ==> into_theme_of(f).code_line_number == default_theme_spec().code_line_number,
        !style_is_empty(def_style_of(f.code_line_number)) ==> into_theme_of(f).code_line_number == def_style_of(f.code_line_number),
        style_is_empty(def_style_of(f.blockquote)) ==> into_theme_of(f).blockquote == default_theme_spec().blockquote,
        !style_is_empty(def_style_of(f.blockquote)) ==> into_theme_of(f).blockquote == def_style_of(f.blockquote),
        style_is_empty(def_style_of(f.blockquote_bar)) ==> into_theme_of(f).blockquote_bar == default_theme_spec().blockquote_bar,
        !style_is_empty(def_style_of(f.blockquote_bar)) ==> into_theme_of(f).blockquote_bar == def_style_of(f.blockquote_bar),
        style_is_empty(def_style_of(f.link_text)) ==> into_theme_of(f).link_text == default_theme_spec().link_text,
        !style_is_empty(def_style_of(f.link_text)) ==> into_theme_of(f).link_text == def_style_of(f.link_text),
        style_is_empty(def_style_of(f.link_url)) ==> into_theme_of(f).link_url == default_theme_spec().link_url,
        !style_is_empty(def_style_of(f.link_url)) ==> into_theme_of(f).link_url == def_style_of(f.link_url),
        style_is_empty(def_style_of(f.list_bullet)) ==> into_theme_of(f).list_bullet == default_theme_spec().list_bullet,
        !style_is_empty(def_style_of(f.list_bullet)) ==> into_theme_of(f).list_bullet == def_style_of(f.list_bullet),
        style_is_empty(def_style_of(f.list_number)) ==> into_theme_of(f).list_number == default_theme_spec().list_number,
        !style_is_empty(def_style_of(f.list_number)) ==> into_theme_of(f).list_number == def_style_of(f.list_number),
        style_is_empty(def_style_of(f.task_done)) ==> into_theme_of(f).task_done == default_theme_spec().task_done,
        !style_is_empty(def_style_of(f.task_done)) ==> into_theme_of(f).task_done == def_style_of(f.task_done),
        style_is_empty(def_style_of(f.task_pending)) ==> into_theme_of(f).task_pending == default_theme_spec().task_pending,
        !style_is_empty(def_style_of(f.task_pending)) ==> into_theme_of(f).task_pending == def_style_of(f.task_pending),
        style_is_empty(def_style_of(f.table_border)) ==> into_theme_of(f).table_border == default_theme_spec().table_border,
        !style_is_empty(def_style_of(f.table_border)) ==> into_theme_of(f).table_border == def_style_of(f.table_border),
        style_is_empty(def_style_of(f.table_header)) ==> into_theme_of(f).table_header == default_theme_spec().table_header,
        !style_is_empty(def_style_of(f.table_header)) ==> into_theme_of(f).table_header == def_style_of(f.table_header),
        style_is_empty(def_style_of(f.table_cell)) ==> into_theme_of(f).table_cell == default_theme_spec().table_cell,
        !style_is_empty(def_style_of(f.table_cell)) ==> into_theme_of(f).table_cell == def_style_of(f.table_cell),
        style_is_empty(def_style_of(f.thematic_break)) ==> into_theme_of(f).thematic_break == default_theme_spec().thematic_break,
        !style_is_empty(def_style_of(f.thematic_break)) ==> into_theme_of(f).thematic_break == def_style_of(f.thematic_break),
        style_is_empty(def_style_of(f.image_alt)) ==> into_theme_of(f).image_alt == default_theme_spec().image_alt,
        !style_is_empty(def_style_of(f.image_alt)) ==> into_theme_of(f).image_alt == def_style_of(f.image_alt),
        style_is_empty(def_style_of(f.footnote_ref)) ==> into_theme_of(f).footnote_ref == default_theme_spec().footnote_ref,
        !style_is_empty(def_style_of(f.footnote_ref)) ==> into_theme_of(f).footnote_ref == def_style_of(f.footnote_ref),
        style_is_empty(def_style_of(f.footnote_def)) ==> into_theme_of(f).footnote_def == default_theme_spec().footnote_def,
        !style_is_empty(def_style_of(f.footnote_def)) ==> into_theme_of(f).footnote_def == def_style_of(f.footnote_def),
{
}

/// Each built-in name gives the theme of that name: `default`, `solarized`, `dracula` and
/// `monochrome`, in the order the names are listed; a name the list lacks gives none.
pub proof fn lemma_builtin_names_give_their_themes(name: Seq<char>)
    ensures
        builtin_theme_of(builtin_names()[0]) == Some(default_theme_spec()),
        builtin_theme_of(builtin_names()[1]) == Some(solarized_theme_spec()),
        builtin_theme_of(builtin_names()[2]) == Some(dracula_theme_spec()),
        builtin_theme_of(builtin_names()[3]) == Some(monochrome_theme_spec()),
        !builtin_names().contains(name) ==> builtin_theme_of(name) is None,
{
    reveal_strlit("default");
    reveal_strlit("solarized");
    reveal_strlit("dracula");
    reveal_strlit("monochrome");
    let n = builtin_names();
    assert(n[0] == "default"@);
    assert(n[1] == "solarized"@);
    assert(n[2] == "dracula"@);
    assert(n[3] == "monochrome"@);
    assert("solarized"@.len() != "default"@.len());
    assert("dracula"@[1] != "default"@[1]);
    assert("dracula"@.len() != "solarized"@.len());
    assert("monochrome"@.len() != "default"@.len());
    assert("monochrome"@.len() != "solarized"@.len());
    assert("monochrome"@.len() != "dracula"@.len());
    lemma_builtin_names_resolve(name);
}

} // verus!
