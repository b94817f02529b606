use mdansi::doc::NodeKind;
use mdansi::parser::{clean_doc, clean_text, collect_text, doc_from_xml, markdown_options, parse_markdown, table_row_is_header};

#[test]
fn test_parse_markdown_tree_shape() {
    let doc = parse_markdown("# Title\n\nSome *text*.\n");
    let root = doc.nodes.len() - 1;
    assert!(matches!(doc.nodes[root].kind, NodeKind::Document));
    for (i, n) in doc.nodes.iter().enumerate() {
        for &c in &n.children {
            assert!(c < i);
        }
    }
    assert_eq!(doc.nodes[root].children.len(), 2);
    let heading = doc.nodes[root].children[0];
    assert!(matches!(doc.nodes[heading].kind, NodeKind::Heading(1)));
    assert_eq!(collect_text(&doc, heading), "Title");
    let para = doc.nodes[root].children[1];
    assert_eq!(collect_text(&doc, para), "Some text.");
}

#[test]
fn test_parse_markdown_unescapes_text_and_reads_attributes() {
    let doc = parse_markdown("[a & b](http://x.y/?q=\"1\"&r=2)\n\n```rust info\n<tag>\n```\n");
    let mut saw_link = false;
    let mut saw_code = false;
    for n in &doc.nodes {
        match &n.kind {
            NodeKind::Link(url) => {
                assert_eq!(url, "http://x.y/?q=\"1\"&r=2");
                saw_link = true;
            }
            NodeKind::CodeBlock { info, literal } => {
                assert_eq!(info, "rust info");
                assert_eq!(literal, "<tag>\n");
                saw_code = true;
            }
            NodeKind::Text(t) => assert!(t == "a & b" || t.is_empty() || !t.contains("&amp;")),
            _ => {}
        }
    }
    assert!(saw_link && saw_code);
}

#[test]
fn test_table_header_row_first() {
    let doc = parse_markdown("| A | B |\n|:--|--:|\n| 1 | 2 |\n");
    let table = doc
        .nodes
        .iter()
        .position(|n| matches!(n.kind, NodeKind::Table))
        .unwrap();
    assert!(table_row_is_header(&doc, table, 0));
    assert!(!table_row_is_header(&doc, table, 1));
    let header = doc.nodes[table].children[0];
    let first_cell = doc.nodes[header].children[0];
    assert!(matches!(doc.nodes[first_cell].kind, NodeKind::TableCell(mdansi::table::TableAlignment::Left)));
}

#[test]
fn test_unreadable_xml_falls_back_to_one_paragraph() {
    let doc = doc_from_xml("hello", "not xml");
    assert_eq!(doc.nodes.len(), 3);
    assert_eq!(collect_text(&doc, 2), "hello");
}

#[test]
fn test_markdown_options_enable_gfm() {
    let f = markdown_options();
    assert!(f.table && f.strikethrough && f.tasklist && f.autolink && f.footnotes);
}

#[test]
fn test_parse_markdown_reads_info_with_quotes() {
    let doc = parse_markdown("```python title=\"x.py\"\nprint(1)\n```\n\nafter\n");
    let mut saw_code = false;
    for n in &doc.nodes {
        if let NodeKind::CodeBlock { info, literal } = &n.kind {
            assert_eq!(info, "python title=\"x.py\"");
            assert_eq!(literal, "print(1)\n");
            saw_code = true;
        }
    }
    assert!(saw_code);
    let root = doc.nodes.len() - 1;
    assert_eq!(doc.nodes[root].children.len(), 2);
}

#[test]
fn test_parse_markdown_removes_control_characters() {
    let doc = parse_markdown("a\x1b[31mb `c\x07d`\n");
    for n in &doc.nodes {
        match &n.kind {
            NodeKind::Text(t) | NodeKind::Code(t) => assert!(!t.chars().any(|c| c == '\x1b' || c == '\x07')),
            _ => {}
        }
    }
    assert_eq!(collect_text(&doc, doc.nodes.len() - 1), "a[31mb cd");
}

#[test]
fn test_clean_text_removes_controls() {
    assert_eq!(clean_text("a\x1b[1m\tb\u{9b}\r\x7f\nc\u{e9}"), "a[1m\tb\nc\u{e9}");
    assert_eq!(clean_text("plain"), "plain");
}

#[test]
fn test_clean_doc_keeps_tree() {
    let raw = doc_from_xml("a\x1bb", "");
    let doc = clean_doc(&raw);
    assert_eq!(doc.nodes.len(), 3);
    assert!(matches!(&doc.nodes[0].kind, NodeKind::Text(t) if t == "ab"));
    assert_eq!(doc.nodes[2].children, vec![1]);
}

#[test]
fn test_parse_markdown_reads_info_with_tag_characters() {
    let doc = parse_markdown("```a\">b c=\"d\"\nx\n```\n\n```math\ny\n```\n");
    let infos: Vec<String> = doc
        .nodes
        .iter()
        .filter_map(|n| match &n.kind {
            NodeKind::CodeBlock { info, .. } => Some(info.clone()),
            _ => None,
        })
        .collect();
    assert_eq!(infos, vec!["a\">b c=\"d\"".to_string(), "math".to_string()]);
}
