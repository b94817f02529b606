use mdansi::render::RenderOptions;
use mdansi::stream::{detect_fence_open, is_closing_fence, is_table_line, is_table_separator, StreamCore};
use mdansi::theme::Theme;

fn stream_to_string(chunks: &[&str]) -> String {
    let mut sr = StreamCore::new(
        Theme::default(),
        RenderOptions {
            width: 80,
            ..Default::default()
        },
    );
    let mut out = String::new();
    for chunk in chunks {
        out.push_str(&sr.push(chunk));
    }
    out.push_str(&sr.flush_remaining());
    out
}

#[test]
fn test_stream_plain_text() {
    let output = stream_to_string(&["Hello world\n"]);
    assert!(output.contains("Hello world"));
}

#[test]
fn test_stream_heading() {
    let output = stream_to_string(&["# Title\n"]);
    assert!(output.contains("Title"));
}

#[test]
fn test_stream_incremental_chunks() {
    let output = stream_to_string(&["# He", "llo\n", "World\n"]);
    assert!(output.contains("Hello"));
    assert!(output.contains("World"));
}

#[test]
fn test_stream_code_block() {
    let output = stream_to_string(&["```rust\n", "fn main() {}\n", "```\n"]);
    // Syntax highlighting splits tokens, so check individually
    assert!(output.contains("fn") && output.contains("main"));
}

#[test]
fn test_stream_code_block_incremental() {
    // Code block split across multiple pushes
    let output = stream_to_string(&["```\n", "line 1\n", "line 2\n", "```\n"]);
    assert!(output.contains("line 1"));
    assert!(output.contains("line 2"));
}

#[test]
fn test_stream_table() {
    let output = stream_to_string(&["| A | B |\n", "|---|---|\n", "| 1 | 2 |\n", "\n"]);
    assert!(output.contains("A"));
    assert!(output.contains("1"));
}

#[test]
fn test_stream_mixed_content() {
    let output = stream_to_string(&[
        "# Title\n",
        "\n",
        "Paragraph text.\n",
        "\n",
        "```\n",
        "code\n",
        "```\n",
    ]);
    assert!(output.contains("Title"));
    assert!(output.contains("Paragraph"));
    assert!(output.contains("code"));
}

#[test]
fn test_stream_empty_flush() {
    // Flush with nothing buffered should succeed without error
    let mut sr = StreamCore::new(Theme::default(), RenderOptions::default());
    let out = sr.flush_remaining();
    assert!(out.is_empty());
}

#[test]
fn test_stream_incomplete_flush() {
    // Content without trailing newline should be flushed
    let output = stream_to_string(&["Hello without newline"]);
    assert!(output.contains("Hello without newline"));
}

#[test]
fn test_stream_tilde_fence() {
    let output = stream_to_string(&["~~~\n", "tilde block\n", "~~~\n"]);
    assert!(output.contains("tilde block"));
}

// Helper function tests
#[test]
fn test_detect_fence_open_backtick() {
    let result = detect_fence_open("```rust");
    assert!(result.is_some());
    let (ch, count, info) = result.unwrap();
    assert_eq!(ch, '`');
    assert_eq!(count, 3);
    assert_eq!(info, "rust");
}

#[test]
fn test_detect_fence_open_tilde() {
    let result = detect_fence_open("~~~python");
    assert!(result.is_some());
    let (ch, count, info) = result.unwrap();
    assert_eq!(ch, '~');
    assert_eq!(count, 3);
    assert_eq!(info, "python");
}

#[test]
fn test_detect_fence_open_too_short() {
    assert!(detect_fence_open("``not a fence").is_none());
    assert!(detect_fence_open("~~not a fence").is_none());
}

#[test]
fn test_detect_fence_open_plain() {
    assert!(detect_fence_open("just text").is_none());
}

#[test]
fn test_is_closing_fence() {
    assert!(is_closing_fence("```", '`', 3));
    assert!(is_closing_fence("````", '`', 3));
    assert!(!is_closing_fence("``", '`', 3));
    assert!(!is_closing_fence("~~~", '`', 3));
    assert!(is_closing_fence("~~~", '~', 3));
}

#[test]
fn test_is_table_line() {
    assert!(is_table_line("| A | B |"));
    assert!(!is_table_line("not a table"));
    assert!(is_table_line("| |")); // len 3 which is > 2, starts/ends with |
    assert!(!is_table_line("| start but no end"));
    assert!(!is_table_line("||")); // len 2, not > 2
}

#[test]
fn test_is_table_separator() {
    assert!(is_table_separator("|---|---|"));
    assert!(is_table_separator("| --- | :---: |"));
    assert!(!is_table_separator("not a separator"));
    assert!(!is_table_separator("| text | here |"));
}

#[test]
fn test_detect_fence_open_long_fence_and_indent() {
    let (ch, count, info) = detect_fence_open("  ````  js extra ").unwrap();
    assert_eq!(ch, '`');
    assert_eq!(count, 4);
    assert_eq!(info, "js extra");
}

#[test]
fn test_is_closing_fence_trailing_text() {
    assert!(!is_closing_fence("``` x", '`', 3));
    assert!(is_closing_fence("  ```  ", '`', 3));
}

#[test]
fn test_stream_table_held_until_end() {
    let mut sr = StreamCore::new(Theme::default(), RenderOptions { width: 80, plain: true, ..Default::default() });
    assert_eq!(sr.push("| A | B |\n"), "");
    assert_eq!(sr.push("|---|---|\n"), "");
    let out = sr.push("after\n");
    assert!(out.contains("A"));
    assert!(out.ends_with("after\n"));
}

#[test]
fn test_stream_blank_line_emits_newline() {
    let mut sr = StreamCore::new(Theme::default(), RenderOptions { width: 80, plain: true, ..Default::default() });
    assert_eq!(sr.push("\n"), "\n");
    assert_eq!(sr.push("partial"), "");
    assert_eq!(sr.flush_remaining(), "partial\n");
}

#[test]
fn test_stream_line_emitted_at_once() {
    let mut sr = StreamCore::new(Theme::default(), RenderOptions { width: 80, plain: true, ..Default::default() });
    assert_eq!(sr.push("Hello\n"), "Hello\n");
    assert_eq!(sr.push("```\n"), "");
    assert_eq!(sr.push("code\n"), "");
    let out = sr.push("```\n");
    assert!(out.contains("code"));
}

#[test]
fn test_stream_output_ignores_chunking() {
    let md = "# Title\n\nSome **bold** text.\n\n```rust\nfn main() {}\n```\n\n| a | b |\n|---|---|\n| 1 | 2 |\n\nend";
    let whole = stream_to_string(&[md]);
    let chars: Vec<String> = md.chars().map(|c| c.to_string()).collect();
    let pieces: Vec<&str> = chars.iter().map(|s| s.as_str()).collect();
    assert_eq!(stream_to_string(&pieces), whole);
    let (a, b) = md.split_at(17);
    assert_eq!(stream_to_string(&[a, b]), whole);
}
