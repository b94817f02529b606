//! The Markdown document tree: comrak parses, its CommonMark XML is read into a node arena.

use vstd::prelude::*;
use crate::table::TableAlignment;
use crate::text::{push_char, string_of_range};

verus! {

/// What a node of the document is, with the data the renderer reads.
#[derive(Debug)]
pub enum NodeKind {
    Document,
    Paragraph,
    Heading(usize),
    CodeBlock { info: String, literal: String },
    BlockQuote,
    List { ordered: bool, start: usize },
    Item,
    TaskItem(bool),
    ThematicBreak,
    Table,
    TableRow,
    TableCell(TableAlignment),
    FootnoteDefinition(String),
    HtmlBlock(String),
    Text(String),
    Code(String),
    Emph,
    Strong,
    Strikethrough,
    Link(String),
    Image(String),
    SoftBreak,
    LineBreak,
    FootnoteReference(String),
    Math { display: bool, literal: String },
    HtmlInline(String),
    ShortCode(String),
    Other,
}

/// A node kind with its texts as character sequences.
pub enum KindView {
    Document,
    Paragraph,
    Heading(usize),
    CodeBlock { info: Seq<char>, literal: Seq<char> },
    BlockQuote,
    List { ordered: bool, start: usize },
    Item,
    TaskItem(bool),
    ThematicBreak,
    Table,
    TableRow,
    TableCell(TableAlignment),
    FootnoteDefinition(Seq<char>),
    HtmlBlock(Seq<char>),
    Text(Seq<char>),
    Code(Seq<char>),
    Emph,
    Strong,
    Strikethrough,
    Link(Seq<char>),
    Image(Seq<char>),
    SoftBreak,
    LineBreak,
    FootnoteReference(Seq<char>),
    Math { display: bool, literal: Seq<char> },
    HtmlInline(Seq<char>),
    ShortCode(Seq<char>),
    Other,
}

impl View for NodeKind {
    type V = KindView;

    open spec fn view(&self) -> KindView {
        match self {
            NodeKind::Document => KindView::Document,
            NodeKind::Paragraph => KindView::Paragraph,
            NodeKind::Heading(l) => KindView::Heading(*l),
            NodeKind::CodeBlock { info, literal } => KindView::CodeBlock { info: info@, literal: literal@ },
            NodeKind::BlockQuote => KindView::BlockQuote,
            NodeKind::List { ordered, start } => KindView::List { ordered: *ordered, start: *start },
            NodeKind::Item => KindView::Item,
            NodeKind::TaskItem(c) => KindView::TaskItem(*c),
            NodeKind::ThematicBreak => KindView::ThematicBreak,
            NodeKind::Table => KindView::Table,
            NodeKind::TableRow => KindView::TableRow,
            NodeKind::TableCell(a) => KindView::TableCell(*a),
            NodeKind::FootnoteDefinition(n) => KindView::FootnoteDefinition(n@),
            NodeKind::HtmlBlock(l) => KindView::HtmlBlock(l@),
            NodeKind::Text(t) => KindView::Text(t@),
            NodeKind::Code(l) => KindView::Code(l@),
            NodeKind::Emph => KindView::Emph,
            NodeKind::Strong => KindView::Strong,
            NodeKind::Strikethrough => KindView::Strikethrough,
            NodeKind::Link(u) => KindView::Link(u@),
            NodeKind::Image(u) => KindView::Image(u@),
            NodeKind::SoftBreak => KindView::SoftBreak,
            NodeKind::LineBreak => KindView::LineBreak,
            NodeKind::FootnoteReference(n) => KindView::FootnoteReference(n@),
            NodeKind::Math { display, literal } => KindView::Math { display: *display, literal: literal@ },
            NodeKind::HtmlInline(h) => KindView::HtmlInline(h@),
            NodeKind::ShortCode(c) => KindView::ShortCode(c@),
            NodeKind::Other => KindView::Other,
        }
    }
}

/// A node of the document: what it is, and the indices of its children in the arena.
#[derive(Debug)]
pub struct MdNode {
    pub kind: NodeKind,
    pub children: Vec<usize>,
}

/// A node with its kind and children as plain values.
pub struct NodeView {
    pub kind: KindView,
    pub children: Seq<usize>,
}

impl View for MdNode {
    type V = NodeView;

    open spec fn view(&self) -> NodeView {
        NodeView { kind: self.kind@, children: self.children@ }
    }
}

/// A parsed document: its nodes in an arena, each child before its parent and the root last.
#[derive(Debug)]
pub struct MdDoc {
    pub nodes: Vec<MdNode>,
}

impl View for MdDoc {
    type V = Seq<NodeView>;

    open spec fn view(&self) -> Seq<NodeView> {
        self.nodes@.map_values(|n: MdNode| n@)
    }
}

/// Every child comes before its parent in the arena; the root is the last node.
pub open spec fn doc_wf(d: Seq<NodeView>) -> bool {
    forall|i: int, k: int|
        0 <= i < d.len() && 0 <= k < d[i].children.len() ==> 0 <= #[trigger] d[i].children[k] < i
}

/// XML text with the escapes comrak writes (`&quot;`, `&amp;`, `&lt;`, `&gt;`) decoded, from
/// index `i` on.
pub open spec fn unescape_from(s: Seq<char>, i: int) -> Seq<char>
    decreases s.len() - i,
{
    if i >= s.len() || i < 0 {
        Seq::empty()
    } else if s[i] == '&' && i + 6 <= s.len() && s.subrange(i, i + 6) == "&quot;"@ {
        seq!['"'] + unescape_from(s, i + 6)
    } else if s[i] == '&' && i + 5 <= s.len() && s.subrange(i, i + 5) == "&amp;"@ {
        seq!['&'] + unescape_from(s, i + 5)
    } else if s[i] == '&' && i + 4 <= s.len() && s.subrange(i, i + 4) == "&lt;"@ {
        seq!['<'] + unescape_from(s, i + 4)
    } else if s[i] == '&' && i + 4 <= s.len() && s.subrange(i, i + 4) == "&gt;"@ {
        seq!['>'] + unescape_from(s, i + 4)
    } else {
        seq![s[i]] + unescape_from(s, i + 1)
    }
}

/// XML text with comrak's escapes decoded.
pub open spec fn unescape(s: Seq<char>) -> Seq<char> {
    unescape_from(s, 0)
}

/// Whether `lit` occurs in `s` at index `i`.
pub open spec fn at(s: Seq<char>, i: int, lit: Seq<char>) -> bool {
    0 <= i && i + lit.len() <= s.len() && s.subrange(i, i + lit.len()) == lit
}

/// Whether the literal `lit` occurs in `v` at index `i`.
pub fn starts_at(v: &Vec<char>, i: usize, lit: &str) -> (b: bool)
    ensures
        b == at(v@, i as int, lit@),
{
    let l = crate::text::chars_of(lit);
    if i > v.len() || l.len() > v.len() - i {
        return false;
    }
    let mut k: usize = 0;
    while k < l.len()
        invariant
            k <= l@.len(),
            i + l@.len() <= v@.len(),
            i + l.len() <= v.len(),
            l@ == lit@,
            forall|j: int| 0 <= j < k ==> v@[i + j] == l@[j],
        decreases l.len() - k,
    {
        if v[i + k] != l[k] {
            assert(v@.subrange(i as int, i + l@.len())[k as int] != lit@[k as int]);
            return false;
        }
        k = k + 1;
    }
    assert(v@.subrange(i as int, i + l@.len()) =~= lit@);
    true
}

/// Decodes comrak's XML escapes in `t`.
pub fn unescape_chars(t: &Vec<char>) -> (s: String)
    ensures
        s@ == unescape(t@),
{
    let mut s = String::new();
    let mut i: usize = 0;
    proof {
        reveal_strlit("&quot;");
        reveal_strlit("&amp;");
        reveal_strlit("&lt;");
        reveal_strlit("&gt;");
    }
    assert(s@ + unescape_from(t@, 0) =~= unescape(t@));
    while i < t.len()
        invariant
            i <= t@.len(),
            s@ + unescape_from(t@, i as int) == unescape(t@),
            "&quot;"@.len() == 6,
            "&amp;"@.len() == 5,
            "&lt;"@.len() == 4,
            "&gt;"@.len() == 4,
        decreases t.len() - i,
    {
        let ghost s0 = s@;
        if t[i] == '&' && starts_at(t, i, "&quot;") {
            push_char(&mut s, '"');
            i = i + 6;
        } else if t[i] == '&' && starts_at(t, i, "&amp;") {
            push_char(&mut s, '&');
            i = i + 5;
        } else if t[i] == '&' && starts_at(t, i, "&lt;") {
            push_char(&mut s, '<');
            i = i + 4;
        } else if t[i] == '&' && starts_at(t, i, "&gt;") {
            push_char(&mut s, '>');
            i = i + 4;
        } else {
            push_char(&mut s, t[i]);
            i = i + 1;
        }
    }
    s
}

/// Decodes comrak's XML escapes in `v[from..to]`.
pub fn unescape_range(v: &Vec<char>, from: usize, to: usize) -> (s: String)
    requires
        from <= to <= v@.len(),
    ensures
        s@ == unescape(v@.subrange(from as int, to as int)),
{
    let mut t: Vec<char> = Vec::new();
    let mut i = from;
    while i < to
        invariant
            from <= i <= to <= v@.len(),
            t@ == v@.subrange(from as int, i as int),
        decreases to - i,
    {
        t.push(v[i]);
        i = i + 1;
        assert(t@ =~= v@.subrange(from as int, i as int));
    }
    unescape_chars(&t)
}

/// The first index from `i` on whose character is not a space or line feed.
pub open spec fn skip_ws(s: Seq<char>, i: int) -> int
    decreases s.len() - i,
{
    if 0 <= i < s.len() && (s[i] == ' ' || s[i] == '\n') {
        skip_ws(s, i + 1)
    } else {
        i
    }
}

/// The end of an element name starting at `i`.
pub open spec fn name_end(s: Seq<char>, i: int) -> int
    decreases s.len() - i,
{
    if 0 <= i < s.len() && s[i] != ' ' && s[i] != '>' && s[i] != '/' {
        name_end(s, i + 1)
    } else {
        i
    }
}

/// The first index from `i` on holding `stop`, or the end.
pub open spec fn find_from(s: Seq<char>, i: int, stop: char) -> int
    decreases s.len() - i,
{
    if 0 <= i < s.len() && s[i] != stop {
        find_from(s, i + 1, stop)
    } else {
        i
    }
}

/// Whether what comrak writes after a code block's info string follows index `k`: the
/// `xml:space` attribute, after the `math_style` one for a math block, and the end of the tag.
pub open spec fn info_tail_at(s: Seq<char>, k: int) -> bool {
    at(s, k, " xml:space=\"preserve\">"@) || at(s, k, " math_style=\"display\" xml:space=\"preserve\">"@)
}

/// The first quote from `i` on that closes a code block's info string, or the end.
pub open spec fn info_end(s: Seq<char>, i: int) -> int
    decreases s.len() - i,
{
    if 0 <= i < s.len() && !(s[i] == '"' && info_tail_at(s, i + 1)) {
        info_end(s, i + 1)
    } else {
        i
    }
}

/// Where the value of an attribute that starts at `i` ends. comrak escapes every attribute value
/// but a code block's info string, which it writes as it is; so an `info` value ends at the
/// first quote that what comrak writes after it follows, any other at its first quote.
pub open spec fn value_end(s: Seq<char>, key: Seq<char>, i: int) -> int {
    if key == "info"@ {
        info_end(s, i)
    } else {
        find_from(s, i, '"')
    }
}

/// An attribute of a tag, as positions in the text: key start, key end, value start, value end.
pub type AttrRange = (usize, usize, usize, usize);

/// The attributes of a tag from `i` on (each ` key="value"`), and where they end.
pub open spec fn parse_attrs(s: Seq<char>, i: int, acc: Seq<AttrRange>) -> Option<(Seq<AttrRange>, int)>
    decreases s.len() - i,
{
    if 0 <= i && i + 1 < s.len() && s[i] == ' ' && s[i + 1] != '/' {
        let ke = find_from(s, i + 1, '=');
        let ve = value_end(s, s.subrange(i + 1, ke), ke + 2);
        if i < ke && ke + 2 <= ve < s.len() && s[ke + 1] == '"' {
            parse_attrs(
                s,
                ve + 1,
                acc.push(((i + 1) as usize, ke as usize, (ke + 2) as usize, ve as usize)),
            )
        } else {
            None
        }
    } else {
        Some((acc, i))
    }
}

/// The value range of the first attribute from the `k`-th on whose key is `key`.
pub open spec fn attr_from(s: Seq<char>, attrs: Seq<AttrRange>, key: Seq<char>, k: int) -> Option<(usize, usize)>
    decreases attrs.len() - k,
{
    if k < 0 || k >= attrs.len() {
        None
    } else if s.subrange(attrs[k].0 as int, attrs[k].1 as int) == key {
        Some((attrs[k].2, attrs[k].3))
    } else {
        attr_from(s, attrs, key, k + 1)
    }
}

/// The value of the attribute `key`, or nothing.
pub open spec fn attr_text(s: Seq<char>, attrs: Seq<AttrRange>, key: Seq<char>) -> Seq<char> {
    match attr_from(s, attrs, key, 0) {
        Some((a, b)) => s.subrange(a as int, b as int),
        None => Seq::empty(),
    }
}

/// Whether the attribute `key` is there with the value `v`.
pub open spec fn attr_is(s: Seq<char>, attrs: Seq<AttrRange>, key: Seq<char>, v: Seq<char>) -> bool {
    attr_from(s, attrs, key, 0) matches Some((a, b)) && s.subrange(a as int, b as int) == v
}

/// A number written in decimal, or 0 when it is not one that fits in `usize`.
pub open spec fn number_of(v: Seq<char>) -> usize {
    if v.len() > 0 && crate::text::all_digits(v) && crate::text::digits_value(v) <= usize::MAX {
        crate::text::digits_value(v) as usize
    } else {
        0
    }
}

/// The alignment that a table cell's `align` attribute names.
pub open spec fn alignment_of(s: Seq<char>, attrs: Seq<AttrRange>) -> TableAlignment {
    if attr_is(s, attrs, "align"@, "left"@) {
        TableAlignment::Left
    } else if attr_is(s, attrs, "align"@, "center"@) {
        TableAlignment::Center
    } else if attr_is(s, attrs, "align"@, "right"@) {
        TableAlignment::Right
    } else {
        TableAlignment::Unaligned
    }
}

/// The node kind that an XML element stands for, from its name `s[ns..ne]`, its attributes
/// and its text `s[ts..te]`.
pub open spec fn kind_of(s: Seq<char>, ns: int, ne: int, attrs: Seq<AttrRange>, ts: int, te: int) -> KindView {
    let name = s.subrange(ns, ne);
    let text = unescape(s.subrange(ts, te));
    if name == "document"@ {
        KindView::Document
    } else if name == "paragraph"@ {
        KindView::Paragraph
    } else if name == "heading"@ {
        KindView::Heading(number_of(attr_text(s, attrs, "level"@)))
    } else if name == "code_block"@ {
        KindView::CodeBlock { info: attr_text(s, attrs, "info"@), literal: text }
    } else if name == "block_quote"@ {
        KindView::BlockQuote
    } else if name == "list"@ {
        KindView::List {
            ordered: attr_is(s, attrs, "type"@, "ordered"@),
            start: number_of(attr_text(s, attrs, "start"@)),
        }
    } else if name == "item"@ {
        KindView::Item
    } else if name == "taskitem"@ {
        KindView::TaskItem(attr_is(s, attrs, "completed"@, "true"@))
    } else if name == "thematic_break"@ {
        KindView::ThematicBreak
    } else if name == "table"@ {
        KindView::Table
    } else if name == "table_row"@ {
        KindView::TableRow
    } else if name == "table_cell"@ {
        KindView::TableCell(alignment_of(s, attrs))
    } else if name == "footnote_definition"@ {
        KindView::FootnoteDefinition(unescape(attr_text(s, attrs, "label"@)))
    } else if name == "html_block"@ {
        KindView::HtmlBlock(text)
    } else if name == "text"@ {
        KindView::Text(text)
    } else if name == "code"@ {
        KindView::Code(text)
    } else if name == "emph"@ {
        KindView::Emph
    } else if name == "strong"@ {
        KindView::Strong
    } else if name == "strikethrough"@ {
        KindView::Strikethrough
    } else if name == "link"@ {
        KindView::Link(unescape(attr_text(s, attrs, "destination"@)))
    } else if name == "image"@ {
        KindView::Image(unescape(attr_text(s, attrs, "destination"@)))
    } else if name == "softbreak"@ {
        KindView::SoftBreak
    } else if name == "linebreak"@ {
        KindView::LineBreak
    } else if name == "footnote_reference"@ {
        KindView::FootnoteReference(unescape(attr_text(s, attrs, "label"@)))
    } else if name == "math"@ {
        KindView::Math { display: attr_is(s, attrs, "math_style"@, "display"@), literal: text }
    } else if name == "html_inline"@ {
        KindView::HtmlInline(text)
    } else if name == "shortcode"@ {
        KindView::ShortCode(unescape(attr_text(s, attrs, "id"@)))
    } else {
        KindView::Other
    }
}

/// Whether the closing tag of the element named `s[ns..ne]` stands at `e`.
pub open spec fn close_at(s: Seq<char>, e: int, ns: int, ne: int) -> bool {
    &&& 0 <= ns <= ne
    &&& 0 <= e
    &&& e + (ne - ns) + 3 <= s.len()
    &&& s[e] == '<'
    &&& s[e + 1] == '/'
    &&& s.subrange(e + 2, e + 2 + (ne - ns)) == s.subrange(ns, ne)
    &&& s[e + 2 + (ne - ns)] == '>'
}

/// A node without children.
pub open spec fn leaf(kind: KindView) -> NodeView {
    NodeView { kind, children: Seq::empty() }
}

/// Reads the element at or after `i` (after blank space), appending its subtree to `arena`
/// children first; gives the arena, whose last node is the element, and where it ends.
pub open spec fn parse_element(s: Seq<char>, i: int, arena: Seq<NodeView>) -> Option<(Seq<NodeView>, int)>
    decreases s.len() - i, 1int,
{
    let j = skip_ws(s, i);
    if !(0 <= i <= j && j + 1 < s.len() && s[j] == '<') {
        None
    } else {
        let ne = name_end(s, j + 1);
        match parse_attrs(s, ne, Seq::empty()) {
            None => None,
            Some((attrs, k)) => {
                if 0 <= k && k + 2 < s.len() && s[k] == ' ' && s[k + 1] == '/' && s[k + 2] == '>' {
                    Some((arena.push(leaf(kind_of(s, j + 1, ne, attrs, k, k))), k + 3))
                } else if i <= k < s.len() && s[k] == '>' {
                    if attr_from(s, attrs, "xml:space"@, 0) is Some {
                        let te = find_from(s, k + 1, '<');
                        if close_at(s, te, j + 1, ne) {
                            Some((arena.push(leaf(kind_of(s, j + 1, ne, attrs, k + 1, te))), te + (ne - j - 1) + 3))
                        } else {
                            None
                        }
                    } else {
                        match parse_children(s, k + 1, arena, Seq::empty()) {
                            None => None,
                            Some((a2, kids, e)) => {
                                if close_at(s, e, j + 1, ne) {
                                    Some((
                                        a2.push(NodeView { kind: kind_of(s, j + 1, ne, attrs, k, k), children: kids }),
                                        e + (ne - j - 1) + 3,
                                    ))
                                } else {
                                    None
                                }
                            },
                        }
                    }
                } else {
                    None
                }
            },
        }
    }
}

/// Reads elements from `i` on up to a closing tag, appending them to `arena` and their indices
/// to `kids`; gives where the closing tag starts.
pub open spec fn parse_children(s: Seq<char>, i: int, arena: Seq<NodeView>, kids: Seq<usize>) -> Option<(Seq<NodeView>, Seq<usize>, int)>
    decreases s.len() - i, 2int,
{
    let j = skip_ws(s, i);
    if !(0 <= i <= j && j + 1 < s.len()) {
        None
    } else if s[j] == '<' && s[j + 1] == '/' {
        Some((arena, kids, j))
    } else {
        match parse_element(s, j, arena) {
            None => None,
            Some((a2, e)) => {
                if j < e <= s.len() && 0 < a2.len() <= usize::MAX + 1 {
                    parse_children(s, e, a2, kids.push((a2.len() - 1) as usize))
                } else {
                    None
                }
            },
        }
    }
}

/// Where the two header lines of comrak's XML (declaration and doctype) end.
pub open spec fn header_end(s: Seq<char>) -> int {
    find_from(s, find_from(s, 0, '\n') + 1, '\n') + 1
}

/// The document tree written as comrak's CommonMark XML, its root last.
pub open spec fn parse_xml_of(s: Seq<char>) -> Option<Seq<NodeView>> {
    match parse_element(s, header_end(s), Seq::empty()) {
        Some((arena, e)) => Some(arena),
        None => None,
    }
}

/// The views of a sequence of nodes.
pub open spec fn nodes_view(v: Seq<MdNode>) -> Seq<NodeView> {
    v.map_values(|n: MdNode| n@)
}

/// Appends a node to the arena.
fn push_node(arena: &mut Vec<MdNode>, n: MdNode)
    ensures
        nodes_view(final(arena)@) == nodes_view(old(arena)@).push(n@),
{
    let ghost n_view = n@;
    arena.push(n);
    assert(nodes_view(arena@) =~= nodes_view(old(arena)@).push(n_view));
}

/// `skip_ws` over a character vector.
fn skip_ws_at(s: &Vec<char>, i: usize) -> (r: usize)
    requires
        i <= s@.len(),
    ensures
        r == skip_ws(s@, i as int),
        i <= r <= s@.len(),
{
    let mut j = i;
    while j < s.len() && (s[j] == ' ' || s[j] == '\n')
        invariant
            i <= j <= s@.len(),
            skip_ws(s@, i as int) == skip_ws(s@, j as int),
        decreases s.len() - j,
    {
        j = j + 1;
    }
    j
}

/// `name_end` over a character vector.
fn name_end_at(s: &Vec<char>, i: usize) -> (r: usize)
    requires
        i <= s@.len(),
    ensures
        r == name_end(s@, i as int),
        i <= r <= s@.len(),
{
    let mut j = i;
    while j < s.len() && s[j] != ' ' && s[j] != '>' && s[j] != '/'
        invariant
            i <= j <= s@.len(),
            name_end(s@, i as int) == name_end(s@, j as int),
        decreases s.len() - j,
    {
        j = j + 1;
    }
    j
}

/// `find_from` over a character vector.
pub fn find_at(s: &Vec<char>, i: usize, stop: char) -> (r: usize)
    requires
        i <= s@.len(),
    ensures
        r == find_from(s@, i as int, stop),
        i <= r <= s@.len(),
{
    let mut j = i;
    while j < s.len() && s[j] != stop
        invariant
            i <= j <= s@.len(),
            find_from(s@, i as int, stop) == find_from(s@, j as int, stop),
        decreases s.len() - j,
    {
        j = j + 1;
    }
    j
}

/// `info_tail_at` over a character vector.
fn info_tail_at_exec(s: &Vec<char>, k: usize) -> (b: bool)
    requires
        k <= s@.len(),
    ensures
        b == info_tail_at(s@, k as int),
{
    starts_at(s, k, " xml:space=\"preserve\">") || starts_at(s, k, " math_style=\"display\" xml:space=\"preserve\">")
}

/// `info_end` over a character vector.
fn info_end_at(s: &Vec<char>, i: usize) -> (r: usize)
    requires
        i <= s@.len(),
    ensures
        r == info_end(s@, i as int),
        i <= r <= s@.len(),
{
    let mut j = i;
    while j < s.len() && !(s[j] == '"' && info_tail_at_exec(s, j + 1))
        invariant
            i <= j <= s@.len(),
            info_end(s@, i as int) == info_end(s@, j as int),
        decreases s.len() - j,
    {
        j = j + 1;
    }
    j
}

/// `value_end` over a character vector.
fn value_end_at(s: &Vec<char>, key_start: usize, key_stop: usize, i: usize) -> (r: usize)
    requires
        key_start <= key_stop <= s@.len(),
        i <= s@.len(),
    ensures
        r == value_end(s@, s@.subrange(key_start as int, key_stop as int), i as int),
        i <= r <= s@.len(),
{
    proof {
        reveal_strlit("info");
    }
    if range_is(s, key_start, key_stop, "info") {
        info_end_at(s, i)
    } else {
        find_at(s, i, '"')
    }
}

/// Every attribute's key and value lie within `s`.
pub open spec fn attrs_in(s: Seq<char>, attrs: Seq<AttrRange>) -> bool {
    forall|k: int| 0 <= k < attrs.len() ==> {
        let a = #[trigger] attrs[k];
        a.0 <= a.1 <= s.len() && a.2 <= a.3 <= s.len()
    }
}

/// Reads the attributes of a tag from `i` on.
fn parse_attrs_at(s: &Vec<char>, i: usize) -> (r: Option<(Vec<AttrRange>, usize)>)
    requires
        i <= s@.len(),
    ensures
        match parse_attrs(s@, i as int, Seq::empty()) {
            None => r is None,
            Some((attrs, k)) => r matches Some((a, kk)) && a@ == attrs && kk == k && kk <= s@.len()
                && attrs_in(s@, attrs),
        },
{
    let mut acc: Vec<AttrRange> = Vec::new();
    let mut p = i;
    while s.len() > 0 && p < s.len() - 1 && s[p] == ' ' && s[p + 1] != '/'
        invariant
            p <= s@.len(),
            parse_attrs(s@, i as int, Seq::empty()) == parse_attrs(s@, p as int, acc@),
            attrs_in(s@, acc@),
        decreases s.len() - p,
    {
        let ke = find_at(s, p + 1, '=');
        if ke >= s.len() || s.len() - ke < 2 {
            return None;
        }
        if p >= ke {
            return None;
        }
        let ve = value_end_at(s, p + 1, ke, ke + 2);
        if !(ve < s.len() && s[ke + 1] == '"') {
            return None;
        }
        acc.push((p + 1, ke, ke + 2, ve));
        p = ve + 1;
    }
    Some((acc, p))
}

/// Whether `s[a..b]` holds exactly the characters of `lit`.
fn range_is(s: &Vec<char>, a: usize, b: usize, lit: &str) -> (r: bool)
    requires
        a <= b <= s@.len(),
    ensures
        r == (s@.subrange(a as int, b as int) == lit@),
{
    let l = crate::text::chars_of(lit);
    if b - a != l.len() {
        return false;
    }
    let mut k: usize = 0;
    while k < l.len()
        invariant
            k <= l@.len(),
            b - a == l@.len(),
            l@ == lit@,
            a <= b <= s@.len(),
            forall|j: int| 0 <= j < k ==> #[trigger] s@[a + j] == l@[j],
        decreases l.len() - k,
    {
        if s[a + k] != l[k] {
            assert(s@.subrange(a as int, b as int)[k as int] != lit@[k as int]);
            return false;
        }
        k = k + 1;
    }
    assert forall|j: int| 0 <= j < lit@.len() implies s@.subrange(a as int, b as int)[j] == lit@[j] by {
        assert(s@[a + j] == l@[j]);
    }
    assert(s@.subrange(a as int, b as int) =~= lit@);
    true
}

/// The value range of the first attribute named `key`.
fn find_attr(s: &Vec<char>, attrs: &Vec<AttrRange>, key: &str) -> (r: Option<(usize, usize)>)
    requires
        attrs_in(s@, attrs@),
    ensures
        r == attr_from(s@, attrs@, key@, 0),
{
    let mut k: usize = 0;
    while k < attrs.len()
        invariant
            k <= attrs@.len(),
            attrs_in(s@, attrs@),
            attr_from(s@, attrs@, key@, 0) == attr_from(s@, attrs@, key@, k as int),
        decreases attrs.len() - k,
    {
        let a = attrs[k];
        if range_is(s, a.0, a.1, key) {
            return Some((a.2, a.3));
        }
        k = k + 1;
    }
    None
}

/// The range of the value of attribute `key`, or an empty range.
fn attr_range(s: &Vec<char>, attrs: &Vec<AttrRange>, key: &str) -> (r: (usize, usize))
    requires
        attrs_in(s@, attrs@),
    ensures
        r.0 <= r.1 <= s@.len(),
        s@.subrange(r.0 as int, r.1 as int) == attr_text(s@, attrs@, key@),
{
    match find_attr(s, attrs, key) {
        Some((a, b)) => {
            proof {
                lemma_attr_from_in(s@, attrs@, key@, 0);
            }
            (a, b)
        },
        None => {
            assert(s@.subrange(0, 0) =~= Seq::<char>::empty());
            (0, 0)
        },
    }
}

/// What `attr_from` finds lies within `s`.
proof fn lemma_attr_from_in(s: Seq<char>, attrs: Seq<AttrRange>, key: Seq<char>, k: int)
    requires
        attrs_in(s, attrs),
    ensures
        attr_from(s, attrs, key, k) matches Some((a, b)) ==> a <= b <= s.len(),
    decreases attrs.len() - k,
{
    if 0 <= k < attrs.len() {
        let a = attrs[k];
        lemma_attr_from_in(s, attrs, key, k + 1);
    }
}

/// Whether attribute `key` is there with value `v`.
fn attr_is_at(s: &Vec<char>, attrs: &Vec<AttrRange>, key: &str, v: &str) -> (r: bool)
    requires
        attrs_in(s@, attrs@),
    ensures
        r == attr_is(s@, attrs@, key@, v@),
{
    match find_attr(s, attrs, key) {
        Some((a, b)) => {
            proof {
                lemma_attr_from_in(s@, attrs@, key@, 0);
            }
            range_is(s, a, b, v)
        },
        None => false,
    }
}

/// Reads a decimal number in `s[a..b]`, as `number_of` says.
fn parse_number(s: &Vec<char>, a: usize, b: usize) -> (r: usize)
    requires
        a <= b <= s@.len(),
    ensures
        r == number_of(s@.subrange(a as int, b as int)),
{
    let ghost d = s@.subrange(a as int, b as int);
    if a == b {
        return 0;
    }
    let mut value: u128 = 0;
    let mut i = a;
    while i < b
        invariant
            a <= i <= b <= s@.len(),
            d == s@.subrange(a as int, b as int),
            forall|j: int| a <= j < i ==> crate::text::is_digit(#[trigger] s@[j]),
            value == crate::text::digits_value(d.take(i - a)),
            value <= usize::MAX,
        decreases b - i,
    {
        let c = s[i];
        if !('0' <= c && c <= '9') {
            assert(d[i - a] == c);
            assert(!crate::text::all_digits(d));
            return 0;
        }
        assert(d.take(i + 1 - a).drop_last() =~= d.take(i - a));
        value = value * 10 + ((c as u32) - ('0' as u32)) as u128;
        if value > usize::MAX as u128 {
            proof {
                if crate::text::all_digits(d) {
                    crate::text::lemma_digits_value_grows(d, i + 1 - a);
                }
            }
            return 0;
        }
        i = i + 1;
    }
    assert(d.take(i - a) =~= d);
    assert forall|j: int| 0 <= j < d.len() implies crate::text::is_digit(#[trigger] d[j]) by {
        assert(d[j] == s@[a + j]);
    }
    value as usize
}

/// Builds the node kind of an element, as `kind_of` says.
fn kind_at(s: &Vec<char>, ns: usize, ne: usize, attrs: &Vec<AttrRange>, ts: usize, te: usize) -> (k: NodeKind)
    requires
        ns <= ne <= s@.len(),
        ts <= te <= s@.len(),
        attrs_in(s@, attrs@),
    ensures
        k@ == kind_of(s@, ns as int, ne as int, attrs@, ts as int, te as int),
{
    if range_is(s, ns, ne, "document") {
        NodeKind::Document
    } else if range_is(s, ns, ne, "paragraph") {
        NodeKind::Paragraph
    } else if range_is(s, ns, ne, "heading") {
        let (a, b) = attr_range(s, attrs, "level");
        NodeKind::Heading(parse_number(s, a, b))
    } else if range_is(s, ns, ne, "code_block") {
        let (a, b) = attr_range(s, attrs, "info");
        NodeKind::CodeBlock {
            info: crate::text::string_of_range(s.as_slice(), a, b),
            literal: unescape_range(s, ts, te),
        }
    } else if range_is(s, ns, ne, "block_quote") {
        NodeKind::BlockQuote
    } else if range_is(s, ns, ne, "list") {
        let ordered = attr_is_at(s, attrs, "type", "ordered");
        let (a, b) = attr_range(s, attrs, "start");
        NodeKind::List { ordered, start: parse_number(s, a, b) }
    } else if range_is(s, ns, ne, "item") {
        NodeKind::Item
    } else if range_is(s, ns, ne, "taskitem") {
        NodeKind::TaskItem(attr_is_at(s, attrs, "completed", "true"))
    } else if range_is(s, ns, ne, "thematic_break") {
        NodeKind::ThematicBreak
    } else if range_is(s, ns, ne, "table") {
        NodeKind::Table
    } else if range_is(s, ns, ne, "table_row") {
        NodeKind::TableRow
    } else if range_is(s, ns, ne, "table_cell") {
        let align = if attr_is_at(s, attrs, "align", "left") {
            TableAlignment::Left
        } else if attr_is_at(s, attrs, "align", "center") {
            TableAlignment::Center
        } else if attr_is_at(s, attrs, "align", "right") {
            TableAlignment::Right
        } else {
            TableAlignment::Unaligned
        };
        NodeKind::TableCell(align)
    } else if range_is(s, ns, ne, "footnote_definition") {
        let (a, b) = attr_range(s, attrs, "label");
        NodeKind::FootnoteDefinition(unescape_range(s, a, b))
    } else if range_is(s, ns, ne, "html_block") {
        NodeKind::HtmlBlock(unescape_range(s, ts, te))
    } else if range_is(s, ns, ne, "text") {
        NodeKind::Text(unescape_range(s, ts, te))
    } else if range_is(s, ns, ne, "code") {
        NodeKind::Code(unescape_range(s, ts, te))
    } else if range_is(s, ns, ne, "emph") {
        NodeKind::Emph
    } else if range_is(s, ns, ne, "strong") {
        NodeKind::Strong
    } else if range_is(s, ns, ne, "strikethrough") {
        NodeKind::Strikethrough
    } else if range_is(s, ns, ne, "link") {
        let (a, b) = attr_range(s, attrs, "destination");
        NodeKind::Link(unescape_range(s, a, b))
    } else if range_is(s, ns, ne, "image") {
        let (a, b) = attr_range(s, attrs, "destination");
        NodeKind::Image(unescape_range(s, a, b))
    } else if range_is(s, ns, ne, "softbreak") {
        NodeKind::SoftBreak
    } else if range_is(s, ns, ne, "linebreak") {
        NodeKind::LineBreak
    } else if range_is(s, ns, ne, "footnote_reference") {
        let (a, b) = attr_range(s, attrs, "label");
        NodeKind::FootnoteReference(unescape_range(s, a, b))
    } else if range_is(s, ns, ne, "math") {
        let display = attr_is_at(s, attrs, "math_style", "display");
        NodeKind::Math { display, literal: unescape_range(s, ts, te) }
    } else if range_is(s, ns, ne, "html_inline") {
        NodeKind::HtmlInline(unescape_range(s, ts, te))
    } else if range_is(s, ns, ne, "shortcode") {
        let (a, b) = attr_range(s, attrs, "id");
        NodeKind::ShortCode(unescape_range(s, a, b))
    } else {
        NodeKind::Other
    }
}

/// Whether the closing tag of the element named `s[ns..ne]` stands at `e`.
fn close_at_exec(s: &Vec<char>, e: usize, ns: usize, ne: usize) -> (r: bool)
    requires
        ns <= ne <= s@.len(),
        e <= s@.len(),
    ensures
        r == close_at(s@, e as int, ns as int, ne as int),
{
    let n = ne - ns;
    if s.len() - e < 3 || s.len() - e - 3 < n {
        return false;
    }
    if s[e] != '<' || s[e + 1] != '/' || s[e + 2 + n] != '>' {
        return false;
    }
    let len = s.len();
    let mut k: usize = 0;
    while k < n
        invariant
            k <= n,
            n == ne - ns,
            len == s@.len(),
            ns <= ne <= len,
            e + n + 3 <= len,
            forall|j: int| 0 <= j < k ==> #[trigger] s@[e + 2 + j] == s@[ns + j],
        decreases n - k,
    {
        if s[e + 2 + k] != s[ns + k] {
            assert(s@.subrange(e + 2, e + 2 + n)[k as int] != s@.subrange(ns as int, ne as int)[k as int]);
            return false;
        }
        k = k + 1;
    }
    assert forall|j: int| 0 <= j < n implies s@.subrange(e + 2, e + 2 + n)[j] == s@.subrange(ns as int, ne as int)[j] by {
        assert(s@[e + 2 + j] == s@[ns + j]);
    }
    assert(s@.subrange(e + 2, e + 2 + n) =~= s@.subrange(ns as int, ne as int));
    true
}

/// Reads one element and its subtree into `arena`, as `parse_element` says; gives where it ends.
fn parse_element_at(s: &Vec<char>, i: usize, arena: &mut Vec<MdNode>) -> (r: Option<usize>)
    requires
        i <= s@.len(),
    ensures
        match parse_element(s@, i as int, nodes_view(old(arena)@)) {
            None => r is None,
            Some((a, e)) => r == Some(e as usize) && nodes_view(final(arena)@) == a && 0 <= e <= s@.len(),
        },
    decreases s@.len() - i, 1int,
{
    let j = skip_ws_at(s, i);
    if !(s.len() > 0 && j < s.len() - 1 && s[j] == '<') {
        return None;
    }
    let ne = name_end_at(s, j + 1);
    let (attrs, k) = match parse_attrs_at(s, ne) {
        None => {
            return None;
        },
        Some(p) => p,
    };
    if k < s.len() && s.len() - k > 2 && s[k] == ' ' && s[k + 1] == '/' && s[k + 2] == '>' {
        let kind = kind_at(s, j + 1, ne, &attrs, k, k);
        push_node(arena, MdNode { kind, children: Vec::new() });
        return Some(k + 3);
    }
    if !(i <= k && k < s.len() && s[k] == '>') {
        return None;
    }
    if find_attr(s, &attrs, "xml:space").is_some() {
        let te = find_at(s, k + 1, '<');
        if close_at_exec(s, te, j + 1, ne) {
            let kind = kind_at(s, j + 1, ne, &attrs, k + 1, te);
            push_node(arena, MdNode { kind, children: Vec::new() });
            Some(te + (ne - j - 1) + 3)
        } else {
            None
        }
    } else {
        let mut kids: Vec<usize> = Vec::new();
        match parse_children_at(s, k + 1, arena, &mut kids) {
            None => None,
            Some(e) => {
                if close_at_exec(s, e, j + 1, ne) {
                    let kind = kind_at(s, j + 1, ne, &attrs, k, k);
                    push_node(arena, MdNode { kind, children: kids });
                    Some(e + (ne - j - 1) + 3)
                } else {
                    None
                }
            },
        }
    }
}

/// Reads sibling elements up to a closing tag, as `parse_children` says; gives where the
/// closing tag starts.
fn parse_children_at(s: &Vec<char>, i: usize, arena: &mut Vec<MdNode>, kids: &mut Vec<usize>) -> (r: Option<usize>)
    requires
        i <= s@.len(),
    ensures
        match parse_children(s@, i as int, nodes_view(old(arena)@), old(kids)@) {
            None => r is None,
            Some((a, ks, e)) => r == Some(e as usize) && nodes_view(final(arena)@) == a
                && final(kids)@ == ks && 0 <= e <= s@.len(),
        },
    decreases s@.len() - i, 2int,
{
    let ghost a0 = nodes_view(arena@);
    let ghost k0 = kids@;
    let mut p = i;
    loop
        invariant
            i <= p <= s@.len(),
            a0 == nodes_view(old(arena)@),
            k0 == old(kids)@,
            parse_children(s@, i as int, a0, k0) == parse_children(s@, p as int, nodes_view(arena@), kids@),
        decreases s@.len() - p,
    {
        let j = skip_ws_at(s, p);
        if !(s.len() > 0 && j < s.len() - 1) {
            return None;
        }
        if s[j] == '<' && s[j + 1] == '/' {
            return Some(j);
        }
        match parse_element_at(s, j, arena) {
            None => {
                return None;
            },
            Some(e) => {
                if !(j < e && e <= s.len() && arena.len() > 0) {
                    return None;
                }
                kids.push(arena.len() - 1);
                p = e;
            },
        }
    }
}

/// Reads comrak's CommonMark XML into a document, as `parse_xml_of` says.
pub fn parse_xml(xml: &str) -> (r: Option<MdDoc>)
    ensures
        match parse_xml_of(xml@) {
            None => r is None,
            Some(a) => r matches Some(d) && d@ == a,
        },
{
    let s = crate::text::chars_of(xml);
    let h1 = find_at(&s, 0, '\n');
    if h1 >= s.len() {
        return None;
    }
    let h2 = find_at(&s, h1 + 1, '\n');
    if h2 >= s.len() {
        return None;
    }
    let mut arena: Vec<MdNode> = Vec::new();
    assert(nodes_view(arena@) =~= Seq::<NodeView>::empty());
    match parse_element_at(&s, h2 + 1, &mut arena) {
        None => None,
        Some(_) => Some(MdDoc { nodes: arena }),
    }
}

proof fn lemma_push_wf(a: Seq<NodeView>, n: NodeView)
    requires
        doc_wf(a),
        forall|k: int| 0 <= k < n.children.len() ==> #[trigger] n.children[k] < a.len(),
    ensures
        doc_wf(a.push(n)),
        a.push(n).subrange(0, a.len() as int) == a,
{
    let b = a.push(n);
    assert forall|i: int, k: int| 0 <= i < b.len() && 0 <= k < b[i].children.len() implies 0 <= #[trigger] b[i].children[k] < i by {
        if i < a.len() {
            assert(b[i] == a[i]);
        }
    }
    assert(b.subrange(0, a.len() as int) =~= a);
}

proof fn lemma_parse_element_wf(s: Seq<char>, i: int, arena: Seq<NodeView>)
    requires
        doc_wf(arena),
    ensures
        parse_element(s, i, arena) matches Some((a, e)) ==> doc_wf(a) && a.len() > arena.len()
            && a.subrange(0, arena.len() as int) == arena,
    decreases s.len() - i, 1int,
{
    let j = skip_ws(s, i);
    if 0 <= i <= j && j + 1 < s.len() && s[j] == '<' {
        let ne = name_end(s, j + 1);
        match parse_attrs(s, ne, Seq::empty()) {
            None => {},
            Some((attrs, k)) => {
                if 0 <= k && k + 2 < s.len() && s[k] == ' ' && s[k + 1] == '/' && s[k + 2] == '>' {
                    lemma_push_wf(arena, leaf(kind_of(s, j + 1, ne, attrs, k, k)));
                } else if i <= k < s.len() && s[k] == '>' {
                    if attr_from(s, attrs, "xml:space"@, 0) is Some {
                        let te = find_from(s, k + 1, '<');
                        lemma_push_wf(arena, leaf(kind_of(s, j + 1, ne, attrs, k + 1, te)));
                    } else {
                        lemma_parse_children_wf(s, k + 1, arena, Seq::empty());
                        match parse_children(s, k + 1, arena, Seq::empty()) {
                            None => {},
                            Some((a2, kids, e)) => {
                                let n = NodeView { kind: kind_of(s, j + 1, ne, attrs, k, k), children: kids };
                                lemma_push_wf(a2, n);
                                assert(a2.push(n).subrange(0, arena.len() as int) =~= a2.subrange(0, arena.len() as int));
                            },
                        }
                    }
                }
            },
        }
    }
}

proof fn lemma_parse_children_wf(s: Seq<char>, i: int, arena: Seq<NodeView>, kids: Seq<usize>)
    requires
        doc_wf(arena),
        forall|k: int| 0 <= k < kids.len() ==> #[trigger] kids[k] < arena.len(),
    ensures
        parse_children(s, i, arena, kids) matches Some((a, ks, e)) ==> doc_wf(a) && a.len() >= arena.len()
            && a.subrange(0, arena.len() as int) == arena
            && forall|k: int| 0 <= k < ks.len() ==> #[trigger] ks[k] < a.len(),
    decreases s.len() - i, 2int,
{
    let j = skip_ws(s, i);
    if 0 <= i <= j && j + 1 < s.len() {
        if s[j] == '<' && s[j + 1] == '/' {
            assert(arena.subrange(0, arena.len() as int) =~= arena);
        } else {
            lemma_parse_element_wf(s, j, arena);
            match parse_element(s, j, arena) {
                None => {},
                Some((a2, e)) => {
                    if j < e <= s.len() && 0 < a2.len() <= usize::MAX + 1 {
                        let kids2 = kids.push((a2.len() - 1) as usize);
                        assert forall|k: int| 0 <= k < kids2.len() implies #[trigger] kids2[k] < a2.len() by {
                            if k < kids.len() {
                                assert(kids2[k] == kids[k]);
                            }
                        }
                        lemma_parse_children_wf(s, e, a2, kids2);
                        match parse_children(s, e, a2, kids2) {
                            None => {},
                            Some((a3, ks, e3)) => {
                                assert(a3.subrange(0, arena.len() as int) =~= a3.subrange(0, a2.len() as int).subrange(
                                    0,
                                    arena.len() as int,
                                ));
                            },
                        }
                    }
                },
            }
        }
    }
}

/// The document read from XML has its root last and every child before its parent, so a
/// walk down from the root reaches every child.
pub proof fn lemma_parsed_doc_wf(s: Seq<char>)
    ensures
        parse_xml_of(s) matches Some(a) ==> doc_wf(a) && a.len() > 0,
{
    lemma_parse_element_wf(s, header_end(s), Seq::empty());
}

/// How comrak writes one character into XML text: `"`, `&`, `<` and `>` as their entities,
/// any other as it is.
pub open spec fn xml_escape_char(c: char) -> Seq<char> {
    if c == '"' {
        seq!['&', 'q', 'u', 'o', 't', ';']
    } else if c == '&' {
        seq!['&', 'a', 'm', 'p', ';']
    } else if c == '<' {
        seq!['&', 'l', 't', ';']
    } else if c == '>' {
        seq!['&', 'g', 't', ';']
    } else {
        seq![c]
    }
}

/// A text as comrak writes it into XML.
pub open spec fn xml_escaped(s: Seq<char>) -> Seq<char>
    decreases s.len(),
{
    if s.len() == 0 {
        Seq::empty()
    } else {
        xml_escape_char(s[0]) + xml_escaped(s.drop_first())
    }
}

proof fn lemma_unescape_shift(a: Seq<char>, b: Seq<char>, j: int)
    requires
        0 <= j <= b.len(),
    ensures
        unescape_from(a + b, a.len() + j) == unescape_from(b, j),
    decreases b.len() - j,
{
    let s = a + b;
    let i = a.len() + j;
    if j < b.len() {
        assert(s[i] == b[j]);
        if i + 6 <= s.len() {
            assert(s.subrange(i, i + 6) =~= b.subrange(j, j + 6));
        }
        if i + 5 <= s.len() {
            assert(s.subrange(i, i + 5) =~= b.subrange(j, j + 5));
        }
        if i + 4 <= s.len() {
            assert(s.subrange(i, i + 4) =~= b.subrange(j, j + 4));
        }
        if j + 6 <= b.len() {
            lemma_unescape_shift(a, b, j + 6);
        }
        if j + 5 <= b.len() {
            lemma_unescape_shift(a, b, j + 5);
        }
        if j + 4 <= b.len() {
            lemma_unescape_shift(a, b, j + 4);
        }
        lemma_unescape_shift(a, b, j + 1);
    }
}

/// Reading XML text back undoes comrak's escaping: every text comes back as it was written.
pub proof fn lemma_unescape_reverses_escape(s: Seq<char>)
    ensures
        unescape(xml_escaped(s)) == s,
    decreases s.len(),
{
    reveal_strlit("&quot;");
    reveal_strlit("&amp;");
    reveal_strlit("&lt;");
    reveal_strlit("&gt;");
    if s.len() > 0 {
        let c = s[0];
        let e = xml_escape_char(c);
        let rest = xml_escaped(s.drop_first());
        let t = e + rest;
        lemma_unescape_reverses_escape(s.drop_first());
        lemma_unescape_shift(e, rest, 0);
        assert(t.subrange(0, e.len() as int) =~= e);
        assert(t[0] == e[0]);
        if e.len() >= 2 {
            assert(t[1] == e[1]);
        }
        if c == '"' {
            assert(t.subrange(0, 6) =~= "&quot;"@);
        } else if c == '&' {
            assert(t.subrange(0, 5) =~= "&amp;"@);
            if 6 <= t.len() {
                assert(t.subrange(0, 6)[1] != "&quot;"@[1]);
            }
        } else if c == '<' {
            assert(t.subrange(0, 4) =~= "&lt;"@);
            if 6 <= t.len() {
                assert(t.subrange(0, 6)[1] != "&quot;"@[1]);
            }
            if 5 <= t.len() {
                assert(t.subrange(0, 5)[1] != "&amp;"@[1]);
            }
        } else if c == '>' {
            assert(t.subrange(0, 4) =~= "&gt;"@);
            if 6 <= t.len() {
                assert(t.subrange(0, 6)[1] != "&quot;"@[1]);
            }
            if 5 <= t.len() {
                assert(t.subrange(0, 5)[1] != "&amp;"@[1]);
            }
            assert(t.subrange(0, 4)[1] != "&lt;"@[1]);
        }
        assert(e + rest == t);
        assert(seq![c] + s.drop_first() =~= s);
    }
}

} // verus!
