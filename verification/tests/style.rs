use mdansi::style::{Color, Style, StyledSpan};

#[test]
fn test_style_codes_and_paint() {
    let s = Style::new().fg(Color::Ansi(1)).bold();
    assert_eq!(s.open(), "\x1b[31m\x1b[1m");
    assert_eq!(s.close(), "\x1b[0m");
    assert_eq!(s.paint("hi"), "\x1b[31m\x1b[1mhi\x1b[0m");
    assert_eq!(Style::new().paint("hi"), "hi");
    assert_eq!(s.paint(""), "");
}

#[test]
fn test_color_codes() {
    assert_eq!(Color::Ansi(9).fg_code(), "\x1b[91m");
    assert_eq!(Color::Ansi(2).bg_code(), "\x1b[42m");
    assert_eq!(Color::Palette(200).fg_code(), "\x1b[38;5;200m");
    assert_eq!(Color::Rgb(1, 2, 3).bg_code(), "\x1b[48;2;1;2;3m");
}

#[test]
fn test_from_hex() {
    assert_eq!(Color::from_hex("#ff5733"), Some(Color::Rgb(255, 87, 51)));
    assert_eq!(Color::from_hex("ff5733"), Some(Color::Rgb(255, 87, 51)));
    assert_eq!(Color::from_hex("#ff573"), None);
    assert_eq!(Color::from_hex("#zz5733"), None);
}

#[test]
fn test_merge_overlay_wins() {
    let base = Style::new().fg(Color::Ansi(1)).bold();
    let over = Style::new().fg(Color::Ansi(2)).italic();
    let m = base.merge(&over);
    assert_eq!(m.fg, Some(Color::Ansi(2)));
    assert!(m.bold && m.italic);
    assert_eq!(base.merge(&Style::new()), base);
}

#[test]
fn test_styled_span() {
    assert_eq!(StyledSpan::plain("x").render(), "x");
    assert_eq!(StyledSpan::new("x", Style::new().dim()).render(), "\x1b[2mx\x1b[0m");
}

#[test]
fn test_merge_is_associative() {
    let a = Style::new().fg(Color::Ansi(1)).bold();
    let b = Style::new().bg(Color::Palette(3)).italic();
    let c = Style::new().fg(Color::Rgb(1, 2, 3)).dim();
    assert_eq!(a.merge(&b).merge(&c), a.merge(&b.merge(&c)));
}
