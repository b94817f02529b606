use mdansi::style::{Color, Style};
use mdansi::theme::{
    builtin_theme, builtin_theme_names, color_from_parts, default_theme, dracula_theme, monochrome_theme, overlay,
    parse_color, solarized_theme, Theme, ThemeFile, ThemeStyleDef,
};

#[test]
fn test_default_theme_has_styled_headings() {
    let t = default_theme();
    assert!(t.heading1.bold);
    assert!(t.heading1.fg.is_some());
    assert!(t.heading2.bold);
    assert!(t.heading3.bold);
}

#[test]
fn test_all_builtin_themes_constructable() {
    for name in builtin_theme_names() {
        let theme = builtin_theme(name);
        assert!(theme.is_some(), "builtin_theme({}) returned None", name);
    }
}

#[test]
fn test_builtin_theme_unknown_returns_none() {
    assert!(builtin_theme("nonexistent").is_none());
}

#[test]
fn test_solarized_uses_rgb_colors() {
    let t = solarized_theme();
    assert!(matches!(t.heading1.fg, Some(Color::Rgb(_, _, _))));
}

#[test]
fn test_dracula_uses_rgb_colors() {
    let t = dracula_theme();
    assert!(matches!(t.heading1.fg, Some(Color::Rgb(_, _, _))));
}

#[test]
fn test_monochrome_no_colors() {
    let t = monochrome_theme();
    assert!(t.heading1.fg.is_none());
    assert!(t.heading1.bold);
    assert!(t.paragraph.fg.is_none());
}

#[test]
fn test_parse_named_colors() {
    assert_eq!(parse_color("red"), Some(Color::Ansi(1)));
    assert_eq!(parse_color("green"), Some(Color::Ansi(2)));
    assert_eq!(parse_color("blue"), Some(Color::Ansi(4)));
    assert_eq!(parse_color("cyan"), Some(Color::Ansi(6)));
    assert_eq!(parse_color("bright_red"), Some(Color::Ansi(9)));
    assert_eq!(parse_color("gray"), Some(Color::Ansi(8)));
    assert_eq!(parse_color("grey"), Some(Color::Ansi(8)));
}

#[test]
fn test_parse_hex_color() {
    assert_eq!(parse_color("#ff0000"), Some(Color::Rgb(255, 0, 0)));
    assert_eq!(parse_color("#00ff00"), Some(Color::Rgb(0, 255, 0)));
    assert_eq!(parse_color("#0000ff"), Some(Color::Rgb(0, 0, 255)));
}

#[test]
fn test_parse_palette_index() {
    assert_eq!(parse_color("42"), Some(Color::Palette(42)));
    assert_eq!(parse_color("0"), Some(Color::Palette(0)));
    assert_eq!(parse_color("255"), Some(Color::Palette(255)));
}

#[test]
fn test_parse_invalid_color() {
    assert!(parse_color("notacolor").is_none());
    assert!(parse_color("#gg0000").is_none());
    assert!(parse_color("#fff").is_none());
}

#[test]
fn test_theme_style_def_to_style() {
    let def = ThemeStyleDef {
        fg: Some("red".to_string()),
        bg: Some("#00ff00".to_string()),
        bold: true,
        italic: false,
        underline: true,
        dim: false,
        strikethrough: false,
    };
    let style = def.to_style();
    assert_eq!(style.fg, Some(Color::Ansi(1)));
    assert_eq!(style.bg, Some(Color::Rgb(0, 255, 0)));
    assert!(style.bold);
    assert!(style.underline);
    assert!(!style.italic);
}

#[test]
fn test_overlay_uses_base_when_def_empty() {
    let base = Style::new().bold().fg(Color::Ansi(1));
    let empty_def = ThemeStyleDef::default();
    let result = overlay(&base, &empty_def);
    assert!(result.bold);
    assert_eq!(result.fg, Some(Color::Ansi(1)));
}

#[test]
fn test_overlay_replaces_with_def_when_set() {
    let base = Style::new().bold().fg(Color::Ansi(1));
    let def = ThemeStyleDef {
        fg: Some("blue".to_string()),
        bold: false,
        italic: true,
        ..Default::default()
    };
    let result = overlay(&base, &def);
    assert_eq!(result.fg, Some(Color::Ansi(4)));
    assert!(result.italic);
    assert!(!result.bold);
}

/// The theme file that the TOML text `[heading1] fg = "#e06c75" bold = true
/// [heading2] fg = "green"` describes, built field by field.
#[test]
fn test_theme_file_toml_round_trip() {
    let file = ThemeFile {
        heading1: ThemeStyleDef { fg: Some("#e06c75".to_string()), bold: true, ..Default::default() },
        heading2: ThemeStyleDef { fg: Some("green".to_string()), ..Default::default() },
        ..Default::default()
    };
    let theme = file.into_theme();
    assert!(theme.heading1.bold);
    assert_eq!(theme.heading1.fg, Some(Color::Rgb(224, 108, 117)));
    assert_eq!(theme.heading2.fg, Some(Color::Ansi(2)));
    // Unspecified fields use defaults
    assert!(theme.heading3.bold);
}

#[test]
fn test_theme_default_trait() {
    let t1 = Theme::default();
    let t2 = default_theme();
    assert_eq!(t1.heading1.fg, t2.heading1.fg);
    assert_eq!(t1.heading1.bold, t2.heading1.bold);
}

#[test]
fn test_builtin_theme_names_count() {
    let names = builtin_theme_names();
    assert_eq!(names.len(), 4);
    assert!(names.contains(&"default"));
    assert!(names.contains(&"dracula"));
    assert!(names.contains(&"solarized"));
    assert!(names.contains(&"monochrome"));
}

#[test]
fn test_empty_theme_file_gives_default_theme() {
    let theme = ThemeFile::default().into_theme();
    let d = default_theme();
    assert_eq!(theme.heading1, d.heading1);
    assert_eq!(theme.footnote_def, d.footnote_def);
    assert_eq!(theme.link_text, d.link_text);
}

#[test]
fn test_parse_color_case_and_plus() {
    assert_eq!(parse_color("RED"), Some(Color::Ansi(1)));
    assert_eq!(parse_color("Bright_White"), Some(Color::Ansi(15)));
    assert_eq!(parse_color("+7"), Some(Color::Palette(7)));
    assert_eq!(parse_color("256"), None);
    assert_eq!(parse_color("#FfA500"), Some(Color::Rgb(255, 165, 0)));
}

#[test]
fn test_color_from_lowered_text() {
    assert_eq!(color_from_parts("RED", "red"), Some(Color::Ansi(1)));
    assert_eq!(color_from_parts("#FF0000", "#ff0000"), Some(Color::Rgb(255, 0, 0)));
    assert_eq!(color_from_parts("42", "42"), Some(Color::Palette(42)));
    assert_eq!(color_from_parts("nope", "nope"), None);
}
