use mdansi::hyperlink::{is_autolink, render_hyperlink};

#[test]
fn test_hyperlink_with_support() {
    let result = render_hyperlink("click here", "https://example.com", true);
    assert!(result.contains("https://example.com"));
    assert!(result.contains("click here"));
    assert!(result.starts_with("\x1b]8;;"));
}

#[test]
fn test_hyperlink_fallback() {
    let result = render_hyperlink("click here", "https://example.com", false);
    assert_eq!(result, "click here (https://example.com)");
}

#[test]
fn test_hyperlink_same_text_url() {
    let result = render_hyperlink("https://example.com", "https://example.com", false);
    assert_eq!(result, "https://example.com");
}

#[test]
fn test_hyperlink_exact_osc8() {
    let result = render_hyperlink("x", "u", true);
    assert_eq!(result, "\x1b]8;;u\x1b\\x\x1b]8;;\x1b\\");
}

#[test]
fn test_is_autolink_mailto() {
    assert!(is_autolink("a@b.c", "mailto:a@b.c"));
    assert!(is_autolink("https://x.y", "https://x.y"));
    assert!(!is_autolink("site", "https://x.y"));
}
