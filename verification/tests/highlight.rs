use mdansi::highlight::Highlighter;

#[test]
fn test_highlighter_knows_rust() {
    let h = Highlighter::new();
    assert!(h.supports_language("rust"));
    assert!(h.supports_language("rs"));
    assert!(!h.supports_language("no-such-language"));
}

#[test]
fn test_highlight_spans_cover_the_code() {
    let h = Highlighter::new();
    let lines = h.highlight("fn main() {}\nlet x = 1;\n", "rust").unwrap();
    assert_eq!(lines.len(), 2);
    let first: String = lines[0].iter().map(|(_, t)| t.as_str()).collect();
    assert_eq!(first, "fn main() {}");
    let second: String = lines[1].iter().map(|(_, t)| t.as_str()).collect();
    assert_eq!(second, "let x = 1;");
    assert!(lines[0].iter().all(|(s, _)| s.fg.is_some()));
}

#[test]
fn test_highlight_unknown_language_is_none() {
    let h = Highlighter::new();
    assert!(h.highlight("x", "no-such-language").is_none());
    assert!(h.highlight_to_ansi("x", "no-such-language").is_none());
}

#[test]
fn test_highlight_to_ansi_colors_code() {
    let h = Highlighter::new();
    let lines = h.highlight_to_ansi("fn main() {}", "rust").unwrap();
    assert_eq!(lines.len(), 1);
    assert!(lines[0].contains("\x1b[38;2;"));
    assert!(lines[0].contains("main"));
}

#[test]
fn test_highlighter_themes() {
    assert!(Highlighter::with_theme("Solarized (dark)").is_some());
    assert!(Highlighter::with_theme("no such theme").is_none());
}
