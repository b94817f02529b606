use mdansi::style::ColorLevel;
use mdansi::terminal::{detect_color_level, detect_hyperlinks, detect_sixel, TerminalCaps};

fn s(v: &str) -> Option<String> {
    Some(v.to_string())
}

#[test]
fn test_caps_defaults_and_overrides() {
    let c = TerminalCaps::default();
    assert_eq!(c.width, 80);
    assert_eq!(c.color_level, ColorLevel::NoColor);
    assert!(!c.has_color());
    let p = TerminalCaps::pipe(33);
    assert_eq!(p.width, 33);
    assert!(!p.is_tty);
    let w = p.with_width(120).with_color_level(ColorLevel::Palette);
    assert_eq!(w.width, 120);
    assert!(w.has_color());
}

#[test]
fn test_no_color_wins_over_force_color() {
    assert_eq!(detect_color_level(true, true, &s("3"), &s("truecolor"), &None, &None), ColorLevel::NoColor);
}

#[test]
fn test_force_color_levels() {
    assert_eq!(detect_color_level(false, false, &s("0"), &None, &None, &None), ColorLevel::NoColor);
    assert_eq!(detect_color_level(false, false, &s("1"), &None, &None, &None), ColorLevel::Basic);
    assert_eq!(detect_color_level(false, false, &s("2"), &None, &None, &None), ColorLevel::Palette);
    assert_eq!(detect_color_level(false, false, &s("yes"), &None, &None, &None), ColorLevel::TrueColor);
}

#[test]
fn test_tty_color_detection() {
    assert_eq!(detect_color_level(false, false, &None, &s("truecolor"), &None, &None), ColorLevel::NoColor);
    assert_eq!(detect_color_level(true, false, &None, &s("24bit"), &None, &None), ColorLevel::TrueColor);
    assert_eq!(detect_color_level(true, false, &None, &None, &s("WezTerm"), &None), ColorLevel::TrueColor);
    assert_eq!(detect_color_level(true, false, &None, &None, &None, &s("xterm-256color")), ColorLevel::Palette);
    assert_eq!(detect_color_level(true, false, &None, &None, &None, &s("dumb")), ColorLevel::NoColor);
    assert_eq!(detect_color_level(true, false, &None, &None, &None, &s("xterm")), ColorLevel::Basic);
}

#[test]
fn test_hyperlink_and_sixel_detection() {
    assert!(detect_hyperlinks(&s("iTerm.app"), false));
    assert!(detect_hyperlinks(&None, true));
    assert!(!detect_hyperlinks(&s("Apple_Terminal"), false));
    assert!(detect_sixel(&s("mlterm")));
    assert!(!detect_sixel(&s("WezTerm")));
}
