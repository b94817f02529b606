//! The command line's settings and how they decide the terminal capabilities and the
//! rendering options.

use vstd::prelude::*;
use crate::render::{RenderOptions, options_for};
use crate::style::ColorLevel;
use crate::table::BorderStyle;
use crate::terminal::TerminalCaps;
use crate::theme::{Theme, builtin_theme, builtin_theme_of};

verus! {

/// Table border style, as the command line names it.
#[derive(Debug, Clone, Copy, PartialEq, Eq, Structural)]
pub enum TableBorderArg {
    Unicode,
    Ascii,
    NoBorder,
}

/// Whether to color the output, as the command line asks.
#[derive(Debug, Clone, Copy, PartialEq, Eq, Structural)]
pub enum ColorArg {
    Always,
    Never,
    Auto,
}

/// The command-line settings.
#[derive(Debug, Clone)]
pub struct Cli {
    /// Markdown file to render. Reads from stdin if omitted.
    pub file: Option<String>,
    /// Terminal width (columns). Auto-detected if not specified.
    pub width: Option<usize>,
    /// Color theme.
    pub theme: String,
    /// Path to a custom .toml theme file.
    pub theme_file: Option<String>,
    /// Disable text wrapping.
    pub no_wrap: bool,
    /// Disable syntax highlighting.
    pub no_highlight: bool,
    /// Show line numbers in code blocks.
    pub line_numbers: bool,
    /// Disable code wrapping inside code blocks.
    pub no_code_wrap: bool,
    /// Table border style.
    pub table_border: TableBorderArg,
    /// Disable table cell truncation.
    pub no_truncate: bool,
    /// Force enable/disable colors.
    pub color: Option<ColorArg>,
    /// Streaming mode: render input incrementally (for piped LLM output).
    pub stream: bool,
    /// Output plain text (strip all ANSI codes).
    pub plain: bool,
    /// List available built-in themes and exit.
    pub list_themes: bool,
}

/// The terminal as the command line overrides it: its width where one is given; true color
/// for `always`, none for `never`, the detected level otherwise.
pub open spec fn caps_of(detected: TerminalCaps, width: Option<usize>, color: Option<ColorArg>) -> TerminalCaps {
    let c1 = match width {
        Some(w) => TerminalCaps { width: w, ..detected },
        None => detected,
    };
    match color {
        Some(ColorArg::Always) => TerminalCaps { color_level: ColorLevel::TrueColor, ..c1 },
        Some(ColorArg::Never) => TerminalCaps { color_level: ColorLevel::NoColor, ..c1 },
        _ => c1,
    }
}

/// Applies the command line's width and color overrides to the detected terminal.
pub fn resolve_caps(detected: TerminalCaps, width: Option<usize>, color: Option<ColorArg>) -> (c: TerminalCaps)
    ensures
        c == caps_of(detected, width, color),
{
    let mut caps = detected;
    if let Some(w) = width {
        caps = caps.with_width(w);
    }
    match color {
        Some(ColorArg::Always) => {
            caps = caps.with_color_level(ColorLevel::TrueColor);
        },
        Some(ColorArg::Never) => {
            caps = caps.with_color_level(ColorLevel::NoColor);
        },
        _ => {},
    }
    caps
}

/// The border style that a border argument names.
pub open spec fn border_of(arg: TableBorderArg) -> BorderStyle {
    match arg {
        TableBorderArg::Unicode => BorderStyle::Unicode,
        TableBorderArg::Ascii => BorderStyle::Ascii,
        TableBorderArg::NoBorder => BorderStyle::NoBorder,
    }
}

/// The rendering options for a terminal under the command line's switches: each switch turns
/// its feature off (or line numbers on); plain output also turns highlighting off.
pub open spec fn options_of(caps: TerminalCaps, args: Cli) -> RenderOptions {
    let o = options_for(caps);
    RenderOptions {
        wrap: o.wrap && !args.no_wrap,
        highlight: o.highlight && !args.no_highlight && !args.plain,
        line_numbers: o.line_numbers || args.line_numbers,
        code_wrap: o.code_wrap && !args.no_code_wrap,
        table_truncate: o.table_truncate && !args.no_truncate,
        plain: o.plain || args.plain,
        table_border: border_of(args.table_border),
        ..o
    }
}

/// Build render options from the terminal and the command line.
pub fn resolve_options(caps: &TerminalCaps, args: &Cli) -> (o: RenderOptions)
    ensures
        o == options_of(*caps, *args),
{
    let mut options = RenderOptions::from_terminal(caps);
    if args.no_wrap {
        options.wrap = false;
    }
    if args.no_highlight {
        options.highlight = false;
    }
    if args.line_numbers {
        options.line_numbers = true;
    }
    if args.no_code_wrap {
        options.code_wrap = false;
    }
    if args.no_truncate {
        options.table_truncate = false;
    }
    if args.plain {
        options.plain = true;
        options.highlight = false;
    }
    options.table_border = match args.table_border {
        TableBorderArg::Unicode => BorderStyle::Unicode,
        TableBorderArg::Ascii => BorderStyle::Ascii,
        TableBorderArg::NoBorder => BorderStyle::NoBorder,
    };
    options
}

/// `--color never` gives plain, unhighlighted output; `--plain` does too, whatever the
/// terminal.
pub proof fn lemma_no_color_means_plain(detected: TerminalCaps, width: Option<usize>, args: Cli)
    ensures
        options_of(caps_of(detected, width, Some(ColorArg::Never)), args).plain,
        !options_of(caps_of(detected, width, Some(ColorArg::Never)), args).highlight,
        args.plain ==> options_of(detected, args).plain && !options_of(detected, args).highlight,
{
}

/// A width given on the command line is the width rendered to.
pub proof fn lemma_width_override(detected: TerminalCaps, w: usize, color: Option<ColorArg>, args: Cli)
    ensures
        options_of(caps_of(detected, Some(w), color), args).width == w,
{
}

/// The built-in theme that `--theme` names, or, for a name that none has, that name back as
/// the error.
pub fn select_theme(name: &str) -> (r: Result<Theme, String>)
    ensures
        match builtin_theme_of(name@) {
            Some(t) => r == Ok::<Theme, String>(t),
            None => r matches Err(n) && n@ == name@,
        },
{
    match builtin_theme(name) {
        Some(t) => Ok(t),
        None => Err(name.to_owned()),
    }
}

/// `--color always` gives true color and `--color never` none, whatever was detected; without
/// `--color` the detected level stays. Each `--no-…` switch turns its feature off, whatever the
/// terminal, and `--line-numbers` turns line numbers on.
pub proof fn lemma_switches(detected: TerminalCaps, width: Option<usize>, args: Cli)
    ensures
        caps_of(detected, width, Some(ColorArg::Always)).color_level == ColorLevel::TrueColor,
        caps_of(detected, width, Some(ColorArg::Never)).color_level == ColorLevel::NoColor,
        caps_of(detected, width, None).color_level == detected.color_level,
        caps_of(detected, width, Some(ColorArg::Auto)).color_level == detected.color_level,
        args.no_wrap ==> !options_of(detected, args).wrap,
        args.no_highlight ==> !options_of(detected, args).highlight,
        args.no_code_wrap ==> !options_of(detected, args).code_wrap,
        args.no_truncate ==> !options_of(detected, args).table_truncate,
        args.line_numbers ==> options_of(detected, args).line_numbers,
        args.table_border == TableBorderArg::Ascii ==> options_of(detected, args).table_border == BorderStyle::Ascii,
        args.table_border == TableBorderArg::Unicode ==> options_of(detected, args).table_border
            == BorderStyle::Unicode,
        args.table_border == TableBorderArg::NoBorder ==> options_of(detected, args).table_border
            == BorderStyle::NoBorder,
{
}

} // verus!
