use mdansi::style::Style;
use mdansi::table::{BorderStyle, Table, TableAlignment, TableConfig};

fn plain_config(border: BorderStyle, max_width: usize) -> TableConfig {
    TableConfig {
        max_width,
        border_style: border,
        border_style_ansi: Style::new(),
        header_style: Style::new(),
        cell_style: Style::new(),
        ..TableConfig::default()
    }
}

fn sample() -> Table {
    Table::new(
        vec!["Name".to_string(), "Age".to_string()],
        vec![vec!["Alice".to_string(), "30".to_string()]],
        vec![TableAlignment::Unaligned, TableAlignment::Right],
    )
}

#[test]
fn test_table_unicode_layout() {
    let lines = sample().render(&plain_config(BorderStyle::Unicode, 80));
    assert_eq!(
        lines,
        vec![
            "\u{250c}\u{2500}\u{2500}\u{2500}\u{2500}\u{2500}\u{2500}\u{2500}\u{252c}\u{2500}\u{2500}\u{2500}\u{2500}\u{2500}\u{2510}",
            "\u{2502} Name  \u{2502} Age \u{2502}",
            "\u{251c}\u{2500}\u{2500}\u{2500}\u{2500}\u{2500}\u{2500}\u{2500}\u{253c}\u{2500}\u{2500}\u{2500}\u{2500}\u{2500}\u{2524}",
            "\u{2502} Alice \u{2502}  30 \u{2502}",
            "\u{2514}\u{2500}\u{2500}\u{2500}\u{2500}\u{2500}\u{2500}\u{2500}\u{2534}\u{2500}\u{2500}\u{2500}\u{2500}\u{2500}\u{2518}",
        ]
    );
}

#[test]
fn test_table_ascii_layout() {
    let lines = sample().render(&plain_config(BorderStyle::Ascii, 80));
    assert_eq!(
        lines,
        vec!["+-------+-----+", "| Name  | Age |", "+-------+-----+", "| Alice |  30 |", "+-------+-----+"]
    );
}

#[test]
fn test_table_borderless_layout() {
    let lines = sample().render(&plain_config(BorderStyle::NoBorder, 80));
    assert_eq!(
        lines,
        vec!["Name   Age", "\u{2500}\u{2500}\u{2500}\u{2500}\u{2500}  \u{2500}\u{2500}\u{2500}", "Alice   30"]
    );
}

#[test]
fn test_table_shrinks_to_minimum_and_truncates() {
    let lines = sample().render(&plain_config(BorderStyle::Ascii, 10));
    assert_eq!(
        lines,
        vec!["+-----+-----+", "| Na\u{2026} | Age |", "+-----+-----+", "| Al\u{2026} |  30 |", "+-----+-----+"]
    );
}

#[test]
fn test_table_without_headers_renders_nothing() {
    let t = Table::new(Vec::new(), vec![vec!["x".to_string()]], Vec::new());
    assert!(t.render(&TableConfig::default()).is_empty());
}
