//! Markdown parsing: comrak parses with GFM and a few extensions, and its CommonMark XML is
//! read into the document arena of `doc`.

use vstd::prelude::*;
use crate::doc::{KindView, MdDoc, MdNode, NodeKind, NodeView, parse_xml, parse_xml_of};
use crate::text::{chars_of, push_char};

verus! {

/// The comrak options that this renderer turns on; all others keep comrak's defaults.
#[derive(Debug, Clone, Copy, PartialEq, Eq, Structural)]
pub struct ParseFlags {
    pub strikethrough: bool,
    pub table: bool,
    pub autolink: bool,
    pub tasklist: bool,
    pub footnotes: bool,
    pub description_lists: bool,
    pub math_dollars: bool,
    pub shortcodes: bool,
    pub underline: bool,
    pub smart: bool,
    pub relaxed_tasklist_matching: bool,
    pub relaxed_autolinks: bool,
}

/// Full GFM support plus footnotes, description lists, `$` math, emoji shortcodes,
/// underline, smart punctuation and relaxed task lists and autolinks.
pub open spec fn markdown_flags() -> ParseFlags {
    ParseFlags {
        strikethrough: true,
        table: true,
        autolink: true,
        tasklist: true,
        footnotes: true,
        description_lists: true,
        math_dollars: true,
        shortcodes: true,
        underline: true,
        smart: true,
        relaxed_tasklist_matching: true,
        relaxed_autolinks: true,
    }
}

/// Configure comrak with full GFM support + useful extensions.
pub fn markdown_options() -> (f: ParseFlags)
    ensures
        f == markdown_flags(),
{
    ParseFlags {
        strikethrough: true,
        table: true,
        autolink: true,
        tasklist: true,
        footnotes: true,
        description_lists: true,
        math_dollars: true,
        shortcodes: true,
        underline: true,
        smart: true,
        relaxed_tasklist_matching: true,
        relaxed_autolinks: true,
    }
}

/// What `comrak::markdown_to_commonmark_xml` writes for a Markdown text under the given flags.
pub uninterp spec fn commonmark_xml(md: Seq<char>, flags: ParseFlags) -> Seq<char>;

/// `comrak::markdown_to_commonmark_xml` with comrak's default options but for `flags`; its
/// result is named by `commonmark_xml`.
#[verifier::external_body]
fn markdown_xml(md: &str, f: ParseFlags) -> (xml: String)
    ensures
        xml@ == commonmark_xml(md@, f),
{
    let o = comrak::Options {
        extension: comrak::options::Extension {
            strikethrough: f.strikethrough, table: f.table, autolink: f.autolink,
            tasklist: f.tasklist, footnotes: f.footnotes, description_lists: f.description_lists,
            math_dollars: f.math_dollars, shortcodes: f.shortcodes, underline: f.underline,
            ..Default::default()
        },
        parse: comrak::options::Parse {
            smart: f.smart, relaxed_tasklist_matching: f.relaxed_tasklist_matching,
            relaxed_autolinks: f.relaxed_autolinks, ..Default::default()
        },
        ..Default::default()
    };
    comrak::markdown_to_commonmark_xml(md, &o)
}

/// The document that stands for a text whose XML could not be read: one paragraph holding
/// the text as it is, the root last.
pub open spec fn fallback_doc(md: Seq<char>) -> Seq<NodeView> {
    seq![
        NodeView { kind: KindView::Text(md), children: Seq::empty() },
        NodeView { kind: KindView::Paragraph, children: seq![0usize] },
        NodeView { kind: KindView::Document, children: seq![1usize] },
    ]
}

/// The document read from comrak's XML `xml` for the Markdown text `md`.
pub open spec fn doc_of_xml(md: Seq<char>, xml: Seq<char>) -> Seq<NodeView> {
    match parse_xml_of(xml) {
        Some(a) => a,
        None => fallback_doc(md),
    }
}

/// Whether a character would act on a terminal rather than show: a C0 control other than tab
/// and line feed (the escape character among them), delete, or a C1 control.
pub open spec fn is_control(c: char) -> bool {
    let u = c as u32;
    (u < 32 && c != '\t' && c != '\n') || (127 <= u && u <= 159)
}

/// A text with its control characters removed.
pub open spec fn clean_of(s: Seq<char>) -> Seq<char>
    decreases s.len(),
{
    if s.len() == 0 {
        Seq::empty()
    } else if is_control(s.last()) {
        clean_of(s.drop_last())
    } else {
        clean_of(s.drop_last()).push(s.last())
    }
}

/// A node kind with every text of the user's removed of control characters.
pub open spec fn clean_kind(k: KindView) -> KindView {
    match k {
        KindView::CodeBlock { info, literal } => KindView::CodeBlock { info: clean_of(info), literal: clean_of(literal) },
        KindView::FootnoteDefinition(n) => KindView::FootnoteDefinition(clean_of(n)),
        KindView::HtmlBlock(l) => KindView::HtmlBlock(clean_of(l)),
        KindView::Text(t) => KindView::Text(clean_of(t)),
        KindView::Code(c) => KindView::Code(clean_of(c)),
        KindView::Link(u) => KindView::Link(clean_of(u)),
        KindView::Image(u) => KindView::Image(clean_of(u)),
        KindView::FootnoteReference(n) => KindView::FootnoteReference(clean_of(n)),
        KindView::Math { display, literal } => KindView::Math { display, literal: clean_of(literal) },
        KindView::HtmlInline(h) => KindView::HtmlInline(clean_of(h)),
        KindView::ShortCode(c) => KindView::ShortCode(clean_of(c)),
        _ => k,
    }
}

/// A document with the control characters of all its texts removed, its shape kept.
pub open spec fn clean_doc_of(d: Seq<NodeView>) -> Seq<NodeView> {
    d.map_values(|n: NodeView| NodeView { kind: clean_kind(n.kind), children: n.children })
}

/// The document of a Markdown text, as this renderer parses it: user text can carry no control
/// character through to the terminal.
pub open spec fn markdown_doc(md: Seq<char>) -> Seq<NodeView> {
    clean_doc_of(doc_of_xml(md, commonmark_xml(md, markdown_flags())))
}

/// Whether a text holds no control character.
pub open spec fn control_free(s: Seq<char>) -> bool {
    forall|k: int| 0 <= k < s.len() ==> !is_control(#[trigger] s[k])
}

/// Whether every text of a node kind is free of control characters.
pub open spec fn kind_control_free(k: KindView) -> bool {
    match k {
        KindView::CodeBlock { info, literal } => control_free(info) && control_free(literal),
        KindView::FootnoteDefinition(n) => control_free(n),
        KindView::HtmlBlock(l) => control_free(l),
        KindView::Text(t) => control_free(t),
        KindView::Code(c) => control_free(c),
        KindView::Link(u) => control_free(u),
        KindView::Image(u) => control_free(u),
        KindView::FootnoteReference(n) => control_free(n),
        KindView::Math { literal, .. } => control_free(literal),
        KindView::HtmlInline(h) => control_free(h),
        KindView::ShortCode(c) => control_free(c),
        _ => true,
    }
}

/// A text with its control characters removed holds none.
pub proof fn lemma_clean_is_control_free(s: Seq<char>)
    ensures
        control_free(clean_of(s)),
    decreases s.len(),
{
    if s.len() > 0 {
        lemma_clean_is_control_free(s.drop_last());
        let c = clean_of(s.drop_last());
        if !is_control(s.last()) {
            assert forall|k: int| 0 <= k < c.push(s.last()).len() implies !is_control(#[trigger] c.push(s.last())[k]) by {
                if k < c.len() {
                    assert(c.push(s.last())[k] == c[k]);
                }
            }
        }
    }
}

/// User text cannot drive the terminal: no text of the document that a Markdown text parses
/// into holds a control character, whatever the Markdown text holds.
pub proof fn lemma_parsed_texts_control_free(md: Seq<char>)
    ensures
        forall|i: int| 0 <= i < markdown_doc(md).len() ==> kind_control_free(#[trigger] markdown_doc(md)[i].kind),
{
    let x = doc_of_xml(md, commonmark_xml(md, markdown_flags()));
    assert forall|i: int| 0 <= i < markdown_doc(md).len() implies kind_control_free(#[trigger] markdown_doc(md)[i].kind) by {
        assert(markdown_doc(md)[i].kind == clean_kind(x[i].kind));
        match x[i].kind {
            KindView::CodeBlock { info, literal } => {
                lemma_clean_is_control_free(info);
                lemma_clean_is_control_free(literal);
            },
            KindView::FootnoteDefinition(n) => lemma_clean_is_control_free(n),
            KindView::HtmlBlock(l) => lemma_clean_is_control_free(l),
            KindView::Text(t) => lemma_clean_is_control_free(t),
            KindView::Code(c) => lemma_clean_is_control_free(c),
            KindView::Link(u) => lemma_clean_is_control_free(u),
            KindView::Image(u) => lemma_clean_is_control_free(u),
            KindView::FootnoteReference(n) => lemma_clean_is_control_free(n),
            KindView::Math { literal, .. } => lemma_clean_is_control_free(literal),
            KindView::HtmlInline(h) => lemma_clean_is_control_free(h),
            KindView::ShortCode(c) => lemma_clean_is_control_free(c),
            _ => {},
        }
    }
}

/// Removes the control characters of a text, so that it cannot drive the terminal.
pub fn clean_text(s: &str) -> (t: String)
    ensures
        t@ == clean_of(s@),
{
    let v = chars_of(s);
    let mut t = String::new();
    let mut i: usize = 0;
    while i < v.len()
        invariant
            i <= v@.len(),
            v@ == s@,
            t@ == clean_of(v@.subrange(0, i as int)),
        decreases v.len() - i,
    {
        let c = v[i];
        let u = c as u32;
        if !((u < 32 && c != '\t' && c != '\n') || (127 <= u && u <= 159)) {
            push_char(&mut t, c);
        }
        assert(v@.subrange(0, i + 1).drop_last() =~= v@.subrange(0, i as int));
        i = i + 1;
    }
    assert(v@.subrange(0, v@.len() as int) =~= v@);
    t
}

/// A node kind with the control characters of its texts removed.
fn clean_kind_exec(k: &NodeKind) -> (r: NodeKind)
    ensures
        r@ == clean_kind(k@),
{
    match k {
        NodeKind::CodeBlock { info, literal } => NodeKind::CodeBlock {
            info: clean_text(info.as_str()),
            literal: clean_text(literal.as_str()),
        },
        NodeKind::FootnoteDefinition(n) => NodeKind::FootnoteDefinition(clean_text(n.as_str())),
        NodeKind::HtmlBlock(l) => NodeKind::HtmlBlock(clean_text(l.as_str())),
        NodeKind::Text(t) => NodeKind::Text(clean_text(t.as_str())),
        NodeKind::Code(c) => NodeKind::Code(clean_text(c.as_str())),
        NodeKind::Link(u) => NodeKind::Link(clean_text(u.as_str())),
        NodeKind::Image(u) => NodeKind::Image(clean_text(u.as_str())),
        NodeKind::FootnoteReference(n) => NodeKind::FootnoteReference(clean_text(n.as_str())),
        NodeKind::Math { display, literal } => NodeKind::Math { display: *display, literal: clean_text(literal.as_str()) },
        NodeKind::HtmlInline(h) => NodeKind::HtmlInline(clean_text(h.as_str())),
        NodeKind::ShortCode(c) => NodeKind::ShortCode(clean_text(c.as_str())),
        NodeKind::Document => NodeKind::Document,
        NodeKind::Paragraph => NodeKind::Paragraph,
        NodeKind::Heading(l) => NodeKind::Heading(*l),
        NodeKind::BlockQuote => NodeKind::BlockQuote,
        NodeKind::List { ordered, start } => NodeKind::List { ordered: *ordered, start: *start },
        NodeKind::Item => NodeKind::Item,
        NodeKind::TaskItem(c) => NodeKind::TaskItem(*c),
        NodeKind::ThematicBreak => NodeKind::ThematicBreak,
        NodeKind::Table => NodeKind::Table,
        NodeKind::TableRow => NodeKind::TableRow,
        NodeKind::TableCell(a) => NodeKind::TableCell(*a),
        NodeKind::Emph => NodeKind::Emph,
        NodeKind::Strong => NodeKind::Strong,
        NodeKind::Strikethrough => NodeKind::Strikethrough,
        NodeKind::SoftBreak => NodeKind::SoftBreak,
        NodeKind::LineBreak => NodeKind::LineBreak,
        NodeKind::Other => NodeKind::Other,
    }
}

/// A document with the control characters of all its texts removed, its tree kept.
pub fn clean_doc(d: &MdDoc) -> (c: MdDoc)
    ensures
        c@ == clean_doc_of(d@),
{
    let mut nodes: Vec<MdNode> = Vec::new();
    let mut i: usize = 0;
    while i < d.nodes.len()
        invariant
            i <= d@.len(),
            d@.len() == d.nodes@.len(),
            nodes@.map_values(|n: MdNode| n@) =~= clean_doc_of(d@).subrange(0, i as int),
        decreases d.nodes.len() - i,
    {
        let n = &d.nodes[i];
        let mut children: Vec<usize> = Vec::new();
        let mut k: usize = 0;
        while k < n.children.len()
            invariant
                k <= n.children@.len(),
                children@ == n.children@.subrange(0, k as int),
            decreases n.children.len() - k,
        {
            children.push(n.children[k]);
            k = k + 1;
        }
        assert(children@ =~= n.children@);
        assert(d@[i as int] == n@);
        let ghost before = nodes@;
        let m = MdNode { kind: clean_kind_exec(&n.kind), children };
        assert(m@ == clean_doc_of(d@)[i as int]);
        nodes.push(m);
        assert(nodes@ =~= before.push(m));
        assert(nodes@.map_values(|n: MdNode| n@) =~= before.map_values(|n: MdNode| n@).push(m@));
        assert(clean_doc_of(d@).subrange(0, i + 1) =~= clean_doc_of(d@).subrange(0, i as int).push(m@));
        i = i + 1;
    }
    assert(clean_doc_of(d@).subrange(0, i as int) =~= clean_doc_of(d@));
    MdDoc { nodes }
}

/// Reads the CommonMark XML that comrak wrote for `md` into a document; where it cannot be
/// read, the document is `md` as one paragraph.
pub fn doc_from_xml(md: &str, xml: &str) -> (d: MdDoc)
    ensures
        d@ == doc_of_xml(md@, xml@),
{
    match parse_xml(xml) {
        Some(d) => d,
        None => {
            let mut nodes: Vec<MdNode> = Vec::new();
            nodes.push(MdNode { kind: NodeKind::Text(md.to_string()), children: Vec::new() });
            let mut c1: Vec<usize> = Vec::new();
            c1.push(0);
            nodes.push(MdNode { kind: NodeKind::Paragraph, children: c1 });
            let mut c2: Vec<usize> = Vec::new();
            c2.push(1);
            nodes.push(MdNode { kind: NodeKind::Document, children: c2 });
            let d = MdDoc { nodes };
            assert(d@ =~= fallback_doc(md@));
            d
        },
    }
}

/// Parse a Markdown string into its document tree, the root last.
pub fn parse_markdown(input: &str) -> (d: MdDoc)
    ensures
        d@ == markdown_doc(input@),
{
    let flags = markdown_options();
    let xml = markdown_xml(input, flags);
    let d = doc_from_xml(input, xml.as_str());
    clean_doc(&d)
}

/// The text a child contributes to its parent's text: only children that come before the
/// parent in the arena count.
pub open spec fn child_text(d: Seq<NodeView>, i: int, k: int) -> Seq<char>
    decreases i, 0int, 0int,
{
    if 0 <= i < d.len() && 0 <= k < d[i].children.len() && d[i].children[k] < i {
        collect_text_of(d, d[i].children[k] as int)
    } else {
        Seq::empty()
    }
}

/// The texts of the first `n` children of node `i`, one after the other.
pub open spec fn children_text(d: Seq<NodeView>, i: int, n: int) -> Seq<char>
    decreases i, 1int, n,
{
    if n <= 0 {
        Seq::empty()
    } else {
        children_text(d, i, n - 1) + child_text(d, i, n - 1)
    }
}

/// All text of node `i` and its descendants, without styling: text and code as they are, a soft
/// break as a space, a hard break as a line feed.
pub open spec fn collect_text_of(d: Seq<NodeView>, i: int) -> Seq<char>
    decreases i, 2int, 0int,
{
    if 0 <= i < d.len() {
        match d[i].kind {
            KindView::Text(t) => t,
            KindView::Code(c) => c,
            KindView::SoftBreak => seq![' '],
            KindView::LineBreak => seq!['\n'],
            _ => children_text(d, i, d[i].children.len() as int),
        }
    } else {
        Seq::empty()
    }
}

/// Collect all text content from a node and its descendants (no styling).
pub fn collect_text(doc: &MdDoc, i: usize) -> (text: String)
    requires
        i < doc@.len(),
    ensures
        text@ == collect_text_of(doc@, i as int),
    decreases i,
{
    let node = &doc.nodes[i];
    match &node.kind {
        NodeKind::Text(t) => t.clone(),
        NodeKind::Code(c) => c.clone(),
        NodeKind::SoftBreak => {
            let mut s = String::new();
            push_char(&mut s, ' ');
            s
        },
        NodeKind::LineBreak => {
            let mut s = String::new();
            push_char(&mut s, '\n');
            s
        },
        _ => {
            let mut out = String::new();
            let mut k: usize = 0;
            while k < node.children.len()
                invariant
                    i < doc@.len(),
                    doc@[i as int] == node@,
                    k <= node.children@.len(),
                    out@ == children_text(doc@, i as int, k as int),
                decreases node.children.len() - k,
            {
                let c = node.children[k];
                assert(doc@[i as int].children[k as int] == c);
                if c < i {
                    let t = collect_text(doc, c);
                    out.append(t.as_str());
                    assert(child_text(doc@, i as int, k as int) == t@);
                } else {
                    assert(child_text(doc@, i as int, k as int) == Seq::<char>::empty());
                }
                assert(out@ =~= children_text(doc@, i as int, k + 1));
                k = k + 1;
            }
            out
        },
    }
}

/// Whether the `k`-th child of table node `table` is its header row: comrak puts the header
/// row first.
pub open spec fn row_is_header(d: Seq<NodeView>, table: int, k: int) -> bool {
    &&& 0 <= table < d.len()
    &&& k == 0
    &&& 0 < d[table].children.len()
    &&& d[table].children[0] < d.len()
    &&& d[table].children[0] < table
    &&& d[d[table].children[0] as int].kind is TableRow
}

/// Check if a table row is the header row.
pub fn table_row_is_header(doc: &MdDoc, table: usize, k: usize) -> (b: bool)
    ensures
        b == row_is_header(doc@, table as int, k as int),
{
    if table >= doc.nodes.len() || k != 0 || doc.nodes[table].children.len() == 0 {
        return false;
    }
    let c = doc.nodes[table].children[0];
    if c >= doc.nodes.len() || c >= table {
        return false;
    }
    match doc.nodes[c].kind {
        NodeKind::TableRow => true,
        _ => false,
    }
}

/// Every document the parser gives has its root last and each child before its parent.
pub proof fn lemma_markdown_doc_wf(md: Seq<char>)
    ensures
        crate::doc::doc_wf(markdown_doc(md)),
        markdown_doc(md).len() > 0,
{
    crate::doc::lemma_parsed_doc_wf(commonmark_xml(md, markdown_flags()));
    let x = doc_of_xml(md, commonmark_xml(md, markdown_flags()));
    let c = clean_doc_of(x);
    assert forall|i: int, k: int| 0 <= i < c.len() && 0 <= k < c[i].children.len() implies 0 <= #[trigger] c[i].children[k] < i by {
        assert(c[i].children == x[i].children);
    }
    let f = fallback_doc(md);
    assert forall|i: int, k: int| 0 <= i < f.len() && 0 <= k < f[i].children.len() implies 0 <= #[trigger] f[i].children[k] < i by {
        if i == 1 {
            assert(f[1].children =~= seq![0usize]);
        } else if i == 2 {
            assert(f[2].children =~= seq![1usize]);
        } else {
            assert(f[0].children.len() == 0);
        }
    }
}

/// The plain text of a node: text and code as they are, a soft break as a space, a hard break
/// as a line feed; any other node gives the texts of its children one after the other, those
/// that come before it in the arena.
pub proof fn lemma_collect_text_forms(d: Seq<NodeView>, i: int)
    requires
        0 <= i < d.len(),
    ensures
        d[i].kind matches KindView::Text(t) ==> collect_text_of(d, i) == t,
        d[i].kind matches KindView::Code(c) ==> collect_text_of(d, i) == c,
        d[i].kind is SoftBreak ==> collect_text_of(d, i) == seq![' '],
        d[i].kind is LineBreak ==> collect_text_of(d, i) == seq!['\n'],
        !(d[i].kind is Text || d[i].kind is Code || d[i].kind is SoftBreak || d[i].kind is LineBreak) ==> collect_text_of(
            d,
            i,
        ) == children_text(d, i, d[i].children.len() as int),
        forall|n: int|
            #![trigger children_text(d, i, n)]
            0 < n <= d[i].children.len() ==> children_text(d, i, n) == children_text(d, i, n - 1) + (if d[i].children[n
                - 1] < i {
                collect_text_of(d, d[i].children[n - 1] as int)
            } else {
                Seq::empty()
            }),
{
    assert forall|n: int|
        #![trigger children_text(d, i, n)]
        0 < n <= d[i].children.len() implies children_text(d, i, n) == children_text(d, i, n - 1) + (if d[i].children[n
            - 1] < i {
            collect_text_of(d, d[i].children[n - 1] as int)
        } else {
            Seq::empty()
        }) by {
        assert(children_text(d, i, n) == children_text(d, i, n - 1) + child_text(d, i, n - 1));
    }
}

/// A Markdown text is parsed with every extension this renderer knows turned on: strikethrough,
/// tables, autolinks, task lists, footnotes, description lists, `$` math, emoji shortcodes,
/// underline, smart punctuation, and relaxed task lists and autolinks.
pub proof fn lemma_all_extensions_on(md: Seq<char>)
    ensures
        markdown_doc(md) == clean_doc_of(doc_of_xml(md, commonmark_xml(md, markdown_flags()))),
        ({
            let f = markdown_flags();
            f.strikethrough && f.table && f.autolink && f.tasklist && f.footnotes && f.description_lists
                && f.math_dollars && f.shortcodes && f.underline && f.smart && f.relaxed_tasklist_matching
                && f.relaxed_autolinks
        }),
{
}

} // verus!
