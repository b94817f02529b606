use mdansi::wrap::visible_width_of;
use mdansi::{render_markdown_with_width, RenderOptions, Renderer, TerminalCaps, Theme};

fn render(md: &str, width: usize) -> String {
    render_markdown_with_width(md, width, &TerminalCaps::default())
}

#[test]
fn test_basic_heading() {
    let output = render("# Hello", 80);
    assert!(output.contains("Hello"));
}

#[test]
fn test_bold_and_italic() {
    let output = render("**bold** and *italic*", 80);
    assert!(output.contains("bold"));
    assert!(output.contains("italic"));
}

#[test]
fn test_inline_code() {
    let output = render("Use `println!` to print.", 80);
    assert!(output.contains("println!"));
}

#[test]
fn test_code_block() {
    let md = "```rust\nfn main() {}\n```";
    let output = render(md, 80);
    assert!(output.contains("fn main()"));
}

#[test]
fn test_blockquote() {
    let output = render("> quoted text", 80);
    assert!(output.contains("quoted text"));
}

#[test]
fn test_unordered_list() {
    let md = "- one\n- two\n- three";
    let output = render(md, 80);
    assert!(output.contains("one"));
    assert!(output.contains("two"));
    assert!(output.contains("three"));
}

#[test]
fn test_ordered_list() {
    let md = "1. first\n2. second";
    let output = render(md, 80);
    assert!(output.contains("first"));
    assert!(output.contains("second"));
}

#[test]
fn test_link() {
    let md = "[example](https://example.com)";
    let output = render(md, 80);
    assert!(output.contains("example"));
}

#[test]
fn test_table() {
    let md = "| Name | Age |\n|------|-----|\n| Alice | 30 |";
    let output = render(md, 80);
    assert!(output.contains("Name"));
    assert!(output.contains("Alice"));
    assert!(output.contains("30"));
}

#[test]
fn test_thematic_break() {
    let md = "above\n\n---\n\nbelow";
    let output = render(md, 80);
    assert!(output.contains("above"));
    assert!(output.contains("below"));
}

#[test]
fn test_empty_input() {
    let output = render("", 80);
    assert!(output.is_empty());
}

#[test]
fn test_plain_text_no_ansi() {
    let options = RenderOptions {
        width: 80,
        plain: true,
        highlight: false,
        ..Default::default()
    };
    let renderer = Renderer::new(Theme::default(), options);
    let output = renderer.render("# Hello **world**");
    // Should not contain ANSI escape sequences
    assert!(!output.contains("\x1b["));
}

#[test]
fn test_custom_width() {
    let output = render(
        "This is a somewhat long line that should wrap when the terminal width is narrow enough.",
        40,
    );
    // All lines should be within 40 chars (visible width)
    for line in output.lines() {
        let vis = mdansi::wrap::visible_width_of(line);
        assert!(vis <= 40, "Line too wide ({}): {:?}", vis, line);
    }
}

#[test]
fn test_fixture_basic() {
    let md = "# Heading 1\n\nHello, world!\n\n## Heading 2\n\n- item\n\n```rust\nfn main() {}\n```\n";
    let output = render(md, 80);
    // Smoke test: should produce output without panicking
    assert!(!output.is_empty());
    assert!(output.contains("Heading 1"));
    assert!(output.contains("Hello, world!"));
}

// ── Table edge cases ────────────────────────────────────────────────

#[test]
fn test_table_single_column() {
    let md = "| Header |\n|--------|\n| Cell |";
    let output = render(md, 80);
    assert!(output.contains("Header"));
    assert!(output.contains("Cell"));
}

#[test]
fn test_table_many_columns() {
    let md = "| A | B | C | D | E | F |\n|---|---|---|---|---|---|\n| 1 | 2 | 3 | 4 | 5 | 6 |";
    let output = render(md, 80);
    assert!(output.contains("A"));
    assert!(output.contains("F"));
    assert!(output.contains("6"));
}

#[test]
fn test_table_narrow_terminal() {
    let md = "| Name | Description | Status |\n|------|-------------|--------|\n| alpha | A long description here | Active |";
    let output = render(md, 40);
    // Should produce output without panicking
    assert!(output.contains("Name"));
}

#[test]
fn test_table_empty_cells() {
    let md = "| A | B |\n|---|---|\n|  |  |";
    let output = render(md, 80);
    assert!(output.contains("A"));
    assert!(output.contains("B"));
}

// ── Nested and complex structures ───────────────────────────────────

#[test]
fn test_nested_blockquote() {
    let md = "> outer\n>> inner";
    let output = render(md, 80);
    assert!(output.contains("outer"));
    assert!(output.contains("inner"));
}

#[test]
fn test_task_list() {
    let md = "- [x] Done\n- [ ] Not done";
    let output = render(md, 80);
    assert!(output.contains("Done"));
    assert!(output.contains("Not done"));
}

#[test]
fn test_strikethrough() {
    let md = "~~deleted~~";
    let output = render(md, 80);
    assert!(output.contains("deleted"));
}

#[test]
fn test_heading_levels() {
    for level in 1..=6 {
        let md = format!("{} Heading {}", "#".repeat(level), level);
        let output = render(&md, 80);
        assert!(output.contains(&format!("Heading {}", level)));
    }
}

#[test]
fn test_multiple_code_blocks() {
    let md = "```rust\nfn a() {}\n```\n\nText between.\n\n```python\ndef b(): pass\n```";
    let output = render(md, 80);
    assert!(output.contains("fn a()"));
    assert!(output.contains("Text between"));
    assert!(output.contains("def b()"));
}

#[test]
fn test_render_exact_paragraph_and_heading() {
    let output = render("# Title\n\nSome *text* here.", 80);
    assert_eq!(output, "\n# Title\n\nSome text here.\n");
}

#[test]
fn test_render_exact_list_and_quote() {
    let output = render("- one\n- two\n\n> quoted", 80);
    assert_eq!(output, "\u{2022} one\n\u{2022} two\n\n\u{2502} quoted\n\u{2502}\n");
}

#[test]
fn test_render_exact_single_line_code() {
    let output = render("```\nlet x = 1;\n```", 80);
    assert_eq!(output, "\u{2502} let x = 1;\n");
}

#[test]
fn test_render_exact_code_box() {
    let output = render("```rust\na\nb\n```", 20);
    let top = format!("\u{256d} rust {}\u{256e}", "\u{2500}".repeat(12));
    let bottom = format!("\u{2570}{}\u{256f}", "\u{2500}".repeat(18));
    let line = |c: &str| format!("\u{2502} {}{} \u{2502}", c, " ".repeat(15));
    assert_eq!(output, format!("{}\n{}\n{}\n{}\n", top, line("a"), line("b"), bottom));
}

#[test]
fn test_render_exact_ordered_list_start() {
    let output = render("3. a\n4. b", 80);
    assert_eq!(output, "3. a\n4. b\n");
}

#[test]
fn test_render_exact_links() {
    assert_eq!(render("[t](http://u)", 80), "t (http://u)\n");
    assert_eq!(render("<http://u>", 80), "http://u\n");
}

#[test]
fn test_render_exact_table() {
    let output = render("| a | b |\n|---|--:|\n| 1 | 2 |", 80);
    let h = "\u{2500}".repeat(5);
    let expected = format!(
        "\u{250c}{h}\u{252c}{h}\u{2510}\n\u{2502} a   \u{2502}   b \u{2502}\n\u{251c}{h}\u{253c}{h}\u{2524}\n\u{2502} 1   \u{2502}   2 \u{2502}\n\u{2514}{h}\u{2534}{h}\u{2518}\n"
    );
    assert_eq!(output, expected);
}

#[test]
fn test_render_exact_thematic_break() {
    let output = render("a\n\n---\n\nb", 80);
    assert_eq!(output, format!("a\n\n{}\n\nb\n", "\u{2500}".repeat(40)));
}

#[test]
fn test_render_exact_footnote() {
    let output = render("x[^1]\n\n[^1]: note", 80);
    assert_eq!(output, "x[^1]\n\n[^1]: note\n");
}

#[test]
fn test_render_exact_heading_two() {
    assert_eq!(render("## T", 80), "\n## T\n");
}

#[test]
fn test_render_paragraph_wraps_with_indent_in_list() {
    let output = render("- aaa bbb ccc ddd", 10);
    assert_eq!(output, "\u{2022} aaa bbb\n  ccc ddd\n");
}

#[test]
fn test_plain_output_without_escapes() {
    let options = RenderOptions {
        width: 40,
        plain: true,
        highlight: false,
        table_truncate: false,
        ..Default::default()
    };
    let renderer = Renderer::new(Theme::default(), options);
    let md = "# T\n\n> q *e*\n\n1. a\n2. b [l](http://u)\n\n| h | i |\n|---|---|\n| 1 | 2 |\n\n```rust\nfn x() {}\nlet y = 2;\n```\n";
    let output = renderer.render(md);
    assert!(!output.contains('\x1b'));
    assert!(output.contains("fn x() {}"));
}

#[test]
fn test_plain_output_leaves_raw_html_unstyled() {
    let options = RenderOptions { plain: true, highlight: false, ..Default::default() };
    let renderer = Renderer::new(Theme::default(), options);
    let output = renderer.render("a <b>x</b>\n\n<div>\nhi\n</div>\n");
    assert!(!output.contains('\x1b'));
    assert!(output.contains("a <b>x</b>"));
    assert!(output.contains("<div>"));
}

#[test]
fn test_raw_html_is_dim_in_styled_output() {
    let renderer = Renderer::new(Theme::default(), RenderOptions::default());
    assert!(renderer.render("a <b>x</b>").contains("\x1b[2m<b>\x1b[0m"));
}

#[test]
fn test_user_escapes_are_removed() {
    let renderer = Renderer::new(Theme::default(), RenderOptions::default());
    let output = renderer.render("a\x1b[31mb");
    assert!(!output.contains("\x1b[31m"));
    assert!(output.contains("a[31mb"));
    let plain = Renderer::new(Theme::default(), RenderOptions { plain: true, highlight: false, ..Default::default() });
    assert_eq!(plain.render("a\x1b[31mb \u{9b}2J`c\x07`"), "a[31mb 2J`c`\n");
}

#[test]
fn test_code_box_is_rectangular() {
    let options = RenderOptions { width: 20, plain: true, highlight: false, ..Default::default() };
    let renderer = Renderer::new(Theme::default(), options);
    let output = renderer.render("```\na\nb\n```");
    let lines: Vec<&str> = output.lines().filter(|l| !l.is_empty()).collect();
    assert_eq!(lines.len(), 4);
    for l in lines {
        assert_eq!(visible_width_of(l), 20);
    }
}

#[test]
fn test_plain_output_with_cut_cells_has_no_escape() {
    let options = RenderOptions { width: 20, plain: true, highlight: false, ..Default::default() };
    assert!(options.table_truncate);
    let renderer = Renderer::new(Theme::default(), options);
    let md = "| head \x1b[31mer | b |\n|---|---|\n| a very long cell \x1b[1mthat is cut | x |\n";
    let output = renderer.render(md);
    assert!(!output.contains('\x1b'));
    assert!(output.contains('\u{2026}'));
}
