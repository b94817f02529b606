use mdansi::cli::{resolve_caps, resolve_options, Cli, ColorArg, TableBorderArg};
use mdansi::style::ColorLevel;
use mdansi::table::BorderStyle;
use mdansi::terminal::TerminalCaps;

fn args() -> Cli {
    Cli {
        file: None,
        width: None,
        theme: "default".to_string(),
        theme_file: None,
        no_wrap: false,
        no_highlight: false,
        line_numbers: false,
        no_code_wrap: false,
        table_border: TableBorderArg::Unicode,
        no_truncate: false,
        color: None,
        stream: false,
        plain: false,
        list_themes: false,
    }
}

#[test]
fn test_resolve_caps_overrides() {
    let detected = TerminalCaps::default();
    let c = resolve_caps(detected, Some(100), Some(ColorArg::Always));
    assert_eq!(c.width, 100);
    assert_eq!(c.color_level, ColorLevel::TrueColor);
    let n = resolve_caps(c, None, Some(ColorArg::Never));
    assert_eq!(n.width, 100);
    assert_eq!(n.color_level, ColorLevel::NoColor);
    let a = resolve_caps(c, None, Some(ColorArg::Auto));
    assert_eq!(a.color_level, ColorLevel::TrueColor);
}

#[test]
fn test_resolve_options_switches() {
    let caps = TerminalCaps::default().with_color_level(ColorLevel::TrueColor);
    let mut a = args();
    a.no_wrap = true;
    a.line_numbers = true;
    a.table_border = TableBorderArg::Ascii;
    let o = resolve_options(&caps, &a);
    assert!(!o.wrap);
    assert!(o.line_numbers);
    assert!(o.highlight);
    assert!(!o.plain);
    assert_eq!(o.table_border, BorderStyle::Ascii);
    a.plain = true;
    let p = resolve_options(&caps, &a);
    assert!(p.plain);
    assert!(!p.highlight);
}

#[test]
fn test_select_theme() {
    assert!(mdansi::cli::select_theme("dracula").is_ok());
    assert_eq!(mdansi::cli::select_theme("nope").err(), Some("nope".to_string()));
}
