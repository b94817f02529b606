//! The rendering engine: a document tree to ANSI-styled terminal text.

use vstd::prelude::*;
use crate::doc::{KindView, MdDoc, NodeKind, NodeView};
use crate::highlight::{Highlighter, ansi_lines_of, syntect_lines, default_theme_name};
use crate::hyperlink::{is_autolink, is_autolink_of, render_hyperlink, render_hyperlink_of};
use crate::parser::{collect_text, collect_text_of, markdown_doc, parse_markdown, row_is_header, table_row_is_header};
use crate::style::{Style, paint_of, plain_style};
use crate::table::{BorderStyle, Table, TableAlignment, TableConfig, TableView, render_table_of};
use crate::terminal::TerminalCaps;
use crate::text::{
    append_decimal, decimal, first_word, first_word_str, lines_of, push_char, repeat_seq, repeat_str,
    split_lines, string_views, trim_end_str, trim_end_ws, trim_start_str, trim_start_ws, trim_str,
    trim_ws,
};
use crate::theme::{Theme, default_theme, default_theme_spec};
use crate::wrap::{push_spaces, spaces, visible_width, visible_width_of, wrap_text, wrap_text_of};

verus! {

/// Rendering options.
#[derive(Debug, Clone, Copy, PartialEq, Eq, Structural)]
pub struct RenderOptions {
    /// Maximum line width. 0 = no wrapping.
    pub width: usize,
    /// Enable text wrapping.
    pub wrap: bool,
    /// Enable syntax highlighting for code blocks.
    pub highlight: bool,
    /// Show line numbers in code blocks.
    pub line_numbers: bool,
    /// Wrap code inside code blocks.
    pub code_wrap: bool,
    /// Table border style.
    pub table_border: BorderStyle,
    /// Truncate table cells that exceed column width.
    pub table_truncate: bool,
    /// Enable OSC-8 hyperlinks.
    pub hyperlinks: bool,
    /// Strip all ANSI styling (plain text output).
    pub plain: bool,
}

/// 80 columns, wrapped, highlighted, Unicode table borders, truncated cells, no hyperlinks.
pub open spec fn default_options() -> RenderOptions {
    RenderOptions {
        width: 80,
        wrap: true,
        highlight: true,
        line_numbers: false,
        code_wrap: true,
        table_border: BorderStyle::Unicode,
        table_truncate: true,
        hyperlinks: false,
        plain: false,
    }
}

impl Default for RenderOptions {
    fn default() -> (o: RenderOptions)
        ensures
            o == default_options(),
    {
        RenderOptions {
            width: 80,
            wrap: true,
            highlight: true,
            line_numbers: false,
            code_wrap: true,
            table_border: BorderStyle::Unicode,
            table_truncate: true,
            hyperlinks: false,
            plain: false,
        }
    }
}

/// The options for a terminal: its width, highlighting and styling when it has color (plain
/// text otherwise), and hyperlinks when it takes them.
pub open spec fn options_for(caps: TerminalCaps) -> RenderOptions {
    let color = caps.color_level != crate::style::ColorLevel::NoColor;
    RenderOptions {
        width: caps.width,
        highlight: color,
        hyperlinks: caps.hyperlinks,
        plain: !color,
        ..default_options()
    }
}

impl RenderOptions {
    /// Create options from detected terminal capabilities.
    pub fn from_terminal(caps: &TerminalCaps) -> (o: RenderOptions)
        ensures
            o == options_for(*caps),
    {
        let color = caps.has_color();
        RenderOptions {
            width: caps.width,
            wrap: true,
            highlight: color,
            line_numbers: false,
            code_wrap: true,
            table_border: BorderStyle::Unicode,
            table_truncate: true,
            hyperlinks: caps.hyperlinks,
            plain: !color,
        }
    }
}

/// Context passed down the rendering tree.
#[derive(Debug, Clone, Copy, PartialEq, Eq, Structural)]
pub struct Context {
    pub indent: usize,
    pub in_blockquote: bool,
    pub list_depth: usize,
}

/// The context of the root: no indent, outside quotes and lists.
pub open spec fn root_context() -> Context {
    Context { indent: 0, in_blockquote: false, list_depth: 0 }
}

/// What rendering depends on: the theme, the options, and the bundled syntect theme that code
/// blocks are highlighted with, if any.
pub struct RendererView {
    pub theme: Theme,
    pub options: RenderOptions,
    pub highlighter: Option<Seq<char>>,
}

/// `a - b`, or 0 below 0.
pub open spec fn sat_sub(a: usize, b: usize) -> usize {
    if a >= b { (a - b) as usize } else { 0 }
}

/// `a + b`, or `usize::MAX` above it.
pub open spec fn sat_add(a: usize, b: usize) -> usize {
    if a + b <= usize::MAX { (a + b) as usize } else { usize::MAX }
}

/// A line feed.
pub open spec fn nl() -> Seq<char> {
    seq!['\n']
}

/// The lines, each after `pre` and followed by a line feed.
pub open spec fn joined_lines(lines: Seq<Seq<char>>, pre: Seq<char>) -> Seq<char>
    decreases lines.len(),
{
    if lines.len() == 0 {
        Seq::empty()
    } else {
        joined_lines(lines.drop_last(), pre) + pre + lines.last() + nl()
    }
}

/// The lines, each painted with `style` and followed by a line feed.
pub open spec fn painted_lines(lines: Seq<Seq<char>>, style: Style) -> Seq<char>
    decreases lines.len(),
{
    if lines.len() == 0 {
        Seq::empty()
    } else {
        painted_lines(lines.drop_last(), style) + paint_of(style, lines.last()) + nl()
    }
}

/// The first `n` lines, the first after `first_pre` and the others after `rest_pre`, each
/// followed by a line feed.
pub open spec fn item_lines(lines: Seq<Seq<char>>, first_pre: Seq<char>, rest_pre: Seq<char>, n: int) -> Seq<char>
    decreases n,
{
    if n <= 0 || n > lines.len() {
        Seq::empty()
    } else {
        item_lines(lines, first_pre, rest_pre, n - 1) + (if n == 1 { first_pre } else { rest_pre })
            + lines[n - 1] + nl()
    }
}

/// The dim style of raw HTML.
pub open spec fn dim_style() -> Style {
    Style { dim: true, ..plain_style() }
}

/// The style of raw HTML: dim, and no style at all in plain output.
pub open spec fn html_style(r: RendererView) -> Style {
    if r.options.plain { plain_style() } else { dim_style() }
}

/// The style of a heading of the given level; levels past 5 share the sixth style.
pub open spec fn heading_style(t: Theme, level: usize) -> Style {
    if level == 1 {
        t.heading1
    } else if level == 2 {
        t.heading2
    } else if level == 3 {
        t.heading3
    } else if level == 4 {
        t.heading4
    } else if level == 5 {
        t.heading5
    } else {
        t.heading6
    }
}

/// A paragraph's styled text wrapped to the width left after the indent, each line indented,
/// then a blank line.
pub open spec fn paragraph_out(r: RendererView, ctx: Context, styled: Seq<char>) -> Seq<char> {
    let pre = spaces(ctx.indent as nat);
    (if r.options.wrap && r.options.width > 0 {
        joined_lines(wrap_text_of(styled, sat_sub(r.options.width, ctx.indent) as nat), pre)
    } else {
        pre + styled + nl()
    }) + nl()
}

/// A link: an OSC-8 hyperlink where the terminal takes them; otherwise its text, followed by
/// its URL in parentheses unless the text is the URL.
pub open spec fn link_out(r: RendererView, text: Seq<char>, url: Seq<char>) -> Seq<char> {
    if r.options.hyperlinks {
        render_hyperlink_of(paint_of(r.theme.link_text, text), url, true)
    } else if is_autolink_of(text, url) {
        paint_of(r.theme.link_text, text)
    } else {
        paint_of(r.theme.link_text, text) + seq![' '] + paint_of(r.theme.link_url, seq!['('] + url + seq![')'])
    }
}

/// The inline rendering of node `i`.
pub open spec fn inline_out(r: RendererView, d: Seq<NodeView>, i: int, ctx: Context) -> Seq<char>
    decreases i, 3int, 0int,
{
    if !(0 <= i < d.len()) {
        Seq::empty()
    } else {
        let n = d[i].children.len() as int;
        match d[i].kind {
            KindView::Text(t) => t,
            KindView::Code(c) => paint_of(r.theme.inline_code, seq!['`'] + c + seq!['`']),
            KindView::Emph => paint_of(r.theme.emphasis, inline_children_out(r, d, i, ctx, n)),
            KindView::Strong => paint_of(r.theme.strong, inline_children_out(r, d, i, ctx, n)),
            KindView::Strikethrough => paint_of(r.theme.strikethrough, inline_children_out(r, d, i, ctx, n)),
            KindView::Link(url) => link_out(r, inline_children_out(r, d, i, ctx, n), url),
            KindView::Image(url) => {
                let alt = collect_text_of(d, i);
                paint_of(r.theme.image_alt, "[image: "@ + (if alt.len() == 0 { url } else { alt }) + seq![']'])
            },
            KindView::SoftBreak => seq![' '],
            KindView::LineBreak => nl(),
            KindView::FootnoteReference(name) => paint_of(r.theme.footnote_ref, "[^"@ + name + seq![']']),
            KindView::Math { display, literal } => {
                let delim = if display { "$$"@ } else { "$"@ };
                paint_of(r.theme.inline_code, delim + literal + delim)
            },
            KindView::HtmlInline(h) => paint_of(html_style(r), h),
            KindView::ShortCode(code) => seq![':'] + code + seq![':'],
            _ => inline_children_out(r, d, i, ctx, n),
        }
    }
}

/// The inline renderings of the first `n` children of node `i`, one after the other.
pub open spec fn inline_children_out(r: RendererView, d: Seq<NodeView>, i: int, ctx: Context, n: int) -> Seq<char>
    decreases i, 2int, n,
{
    if n <= 0 || !(0 <= i < d.len()) || n > d[i].children.len() {
        Seq::empty()
    } else {
        let c = d[i].children[n - 1] as int;
        inline_children_out(r, d, i, ctx, n - 1) + (if c < i { inline_out(r, d, c, ctx) } else { Seq::empty() })
    }
}

/// The renderings of the first `n` children of node `i`, one after the other.
pub open spec fn children_out(r: RendererView, d: Seq<NodeView>, i: int, ctx: Context, n: int) -> Seq<char>
    decreases i, 4int, n,
{
    if n <= 0 || !(0 <= i < d.len()) || n > d[i].children.len() {
        Seq::empty()
    } else {
        let c = d[i].children[n - 1] as int;
        children_out(r, d, i, ctx, n - 1) + (if c < i { node_out(r, d, c, ctx) } else { Seq::empty() })
    }
}

/// The number of the `k`-th item of a list that starts at `start`; bullets keep `start`.
pub open spec fn item_number(ordered: bool, start: usize, k: nat) -> usize {
    if !ordered {
        start
    } else if start + k <= usize::MAX {
        (start + k) as usize
    } else {
        usize::MAX
    }
}

/// The first `n` items of list node `i`.
pub open spec fn list_out(r: RendererView, d: Seq<NodeView>, i: int, ctx: Context, ordered: bool, start: usize, n: int) -> Seq<char>
    decreases i, 4int, n,
{
    if n <= 0 || !(0 <= i < d.len()) || n > d[i].children.len() {
        Seq::empty()
    } else {
        let c = d[i].children[n - 1] as int;
        list_out(r, d, i, ctx, ordered, start, n - 1) + (if c < i {
            item_out(r, d, c, ordered, item_number(ordered, start, (n - 1) as nat), ctx)
        } else {
            Seq::empty()
        })
    }
}

/// Whether the first task-item child of node `c` from the `k`-th child on is checked, if
/// there is one.
pub open spec fn task_from(d: Seq<NodeView>, c: int, k: int) -> Option<bool>
    decreases d[c].children.len() - k,
{
    if !(0 <= c < d.len()) || k < 0 || k >= d[c].children.len() {
        None
    } else {
        let ch = d[c].children[k] as int;
        if ch < d.len() && d[ch].kind is TaskItem {
            Some(d[ch].kind->TaskItem_0)
        } else {
            task_from(d, c, k + 1)
        }
    }
}

/// The bullet or number of a list item, with its checkbox when it has a task-item child.
pub open spec fn item_prefix(r: RendererView, d: Seq<NodeView>, c: int, ordered: bool, index: usize) -> Seq<char> {
    let prefix = if ordered {
        paint_of(r.theme.list_number, decimal(index as nat) + seq!['.'])
    } else {
        paint_of(r.theme.list_bullet, "\u{2022}"@)
    };
    match task_from(d, c, 0) {
        Some(true) => prefix + seq![' '] + paint_of(r.theme.task_done, "[x]"@),
        Some(false) => prefix + seq![' '] + paint_of(r.theme.task_pending, "[ ]"@),
        None => prefix,
    }
}

/// The context of an item's content: indented past the prefix and one list deeper.
pub open spec fn item_context(ctx: Context, prefix_width: usize) -> Context {
    Context {
        indent: sat_add(ctx.indent, prefix_width),
        list_depth: sat_add(ctx.list_depth, 1),
        in_blockquote: ctx.in_blockquote,
    }
}

/// The first paragraph of an item: wrapped to the width left after the prefix, the first line
/// after the prefix and the others indented under it.
pub open spec fn first_para_out(r: RendererView, ctx: Context, prefix: Seq<char>, pw: usize, para: Seq<char>) -> Seq<char> {
    let head = spaces(ctx.indent as nat) + prefix + seq![' '];
    if r.options.wrap && r.options.width > 0 {
        let ci = sat_add(ctx.indent, pw);
        let lines = wrap_text_of(para, sat_sub(r.options.width, ci) as nat);
        item_lines(lines, head, spaces(ci as nat), lines.len() as int)
    } else {
        head + para + nl()
    }
}

/// The first `n` children of item `c`, and whether none of them has been rendered as the
/// item's first block yet.
pub open spec fn item_fold(
    r: RendererView,
    d: Seq<NodeView>,
    c: int,
    ctx: Context,
    prefix: Seq<char>,
    pw: usize,
    n: int,
) -> (Seq<char>, bool)
    decreases c, 4int, n,
{
    if n <= 0 || !(0 <= c < d.len()) || n > d[c].children.len() {
        (Seq::empty(), true)
    } else {
        let (prev, first) = item_fold(r, d, c, ctx, prefix, pw, n - 1);
        let ch = d[c].children[n - 1] as int;
        let cctx = item_context(ctx, pw);
        if !(ch < c) || d[ch].kind is TaskItem {
            (prev, first)
        } else if !first {
            (prev + node_out(r, d, ch, cctx), false)
        } else if d[ch].kind is Paragraph {
            let para = inline_children_out(r, d, ch, cctx, d[ch].children.len() as int);
            (prev + first_para_out(r, ctx, prefix, pw, para), false)
        } else {
            (
                prev + spaces(ctx.indent as nat) + prefix + seq![' '] + trim_start_ws(node_out(r, d, ch, cctx)),
                false,
            )
        }
    }
}

/// A list item: its bullet or number, its first paragraph beside it and its other blocks
/// below, indented past the prefix.
pub open spec fn item_out(r: RendererView, d: Seq<NodeView>, c: int, ordered: bool, index: usize, ctx: Context) -> Seq<char>
    decreases c, 5int, 0int,
{
    if !(0 <= c < d.len()) {
        Seq::empty()
    } else {
        let prefix = item_prefix(r, d, c, ordered, index);
        let pw = sat_add(visible_width(prefix), 1);
        item_fold(r, d, c, ctx, prefix, pw, d[c].children.len() as int).0
    }
}

/// The rendering of node `i` and its subtree.
pub open spec fn node_out(r: RendererView, d: Seq<NodeView>, i: int, ctx: Context) -> Seq<char>
    decreases i, 5int, 0int,
{
    if !(0 <= i < d.len()) {
        Seq::empty()
    } else {
        let n = d[i].children.len() as int;
        match d[i].kind {
            KindView::Paragraph => {
                let inl = inline_children_out(r, d, i, ctx, n);
                let styled = if ctx.in_blockquote { paint_of(r.theme.blockquote, inl) } else { inl };
                paragraph_out(r, ctx, styled)
            },
            KindView::Heading(level) => {
                let text = collect_text_of(d, i);
                nl() + paint_of(heading_style(r.theme, level), repeat_seq("#"@, level as nat) + seq![' '] + text)
                    + nl() + nl()
            },
            KindView::CodeBlock { info, literal } => code_block_out(r, literal, info, ctx),
            KindView::BlockQuote => {
                let bar = paint_of(r.theme.blockquote_bar, "\u{2502}"@);
                let inner = children_out(r, d, i, Context { in_blockquote: true, ..ctx }, n);
                joined_lines(lines_of(inner), spaces(ctx.indent as nat) + bar + seq![' ']) + nl()
            },
            KindView::List { ordered, start } => list_out(r, d, i, ctx, ordered, start, n) + (if ctx.list_depth
                == 0 {
                nl()
            } else {
                Seq::empty()
            }),
            KindView::ThematicBreak => {
                let w = sat_sub(r.options.width, ctx.indent);
                let rule = repeat_seq("\u{2500}"@, if w < 40 { w as nat } else { 40 });
                spaces(ctx.indent as nat) + paint_of(r.theme.thematic_break, rule) + nl() + nl()
            },
            KindView::Table => table_out(r, d, i, ctx),
            KindView::TableRow => Seq::empty(),
            KindView::TableCell(_) => Seq::empty(),
            KindView::TaskItem(_) => Seq::empty(),
            KindView::FootnoteDefinition(name) => paint_of(r.theme.footnote_def, "[^"@ + name + "]: "@) + trim_ws(
                children_out(r, d, i, ctx, n),
            ) + nl(),
            KindView::HtmlBlock(literal) => painted_lines(lines_of(literal), html_style(r)),
            KindView::Text(_) => inline_out(r, d, i, ctx),
            KindView::Code(_) => inline_out(r, d, i, ctx),
            KindView::Emph => inline_out(r, d, i, ctx),
            KindView::Strong => inline_out(r, d, i, ctx),
            KindView::Strikethrough => inline_out(r, d, i, ctx),
            KindView::Link(_) => inline_out(r, d, i, ctx),
            KindView::Image(_) => inline_out(r, d, i, ctx),
            KindView::SoftBreak => inline_out(r, d, i, ctx),
            KindView::LineBreak => inline_out(r, d, i, ctx),
            KindView::FootnoteReference(_) => inline_out(r, d, i, ctx),
            KindView::Math { .. } => inline_out(r, d, i, ctx),
            KindView::HtmlInline(_) => inline_out(r, d, i, ctx),
            KindView::ShortCode(_) => inline_out(r, d, i, ctx),
            _ => children_out(r, d, i, ctx, n),
        }
    }
}

/// The texts of the first `m` cells of row node `row`.
pub open spec fn row_cells(d: Seq<NodeView>, row: int, m: int) -> Seq<Seq<char>>
    decreases m,
{
    if m <= 0 || !(0 <= row < d.len()) || m > d[row].children.len() {
        Seq::empty()
    } else {
        let cell = d[row].children[m - 1] as int;
        if cell < row {
            row_cells(d, row, m - 1).push(collect_text_of(d, cell))
        } else {
            row_cells(d, row, m - 1)
        }
    }
}

/// The alignments of the first `m` cells of row node `row`.
pub open spec fn row_alignments(d: Seq<NodeView>, row: int, m: int) -> Seq<TableAlignment>
    decreases m,
{
    if m <= 0 || !(0 <= row < d.len()) || m > d[row].children.len() {
        Seq::empty()
    } else {
        let cell = d[row].children[m - 1] as int;
        if cell < row {
            row_alignments(d, row, m - 1).push(
                match d[cell].kind {
                    KindView::TableCell(a) => a,
                    _ => TableAlignment::Unaligned,
                },
            )
        } else {
            row_alignments(d, row, m - 1)
        }
    }
}

/// The header cells and body rows among the first `n` rows of table node `i`.
pub open spec fn table_rows(d: Seq<NodeView>, i: int, n: int) -> (Seq<Seq<char>>, Seq<Seq<Seq<char>>>)
    decreases n,
{
    if n <= 0 || !(0 <= i < d.len()) || n > d[i].children.len() {
        (Seq::empty(), Seq::empty())
    } else {
        let (h, rows) = table_rows(d, i, n - 1);
        let row = d[i].children[n - 1] as int;
        if !(row < i) {
            (h, rows)
        } else {
            let cells = row_cells(d, row, d[row].children.len() as int);
            if row_is_header(d, i, n - 1) {
                (cells, rows)
            } else {
                (h, rows.push(cells))
            }
        }
    }
}

/// The column alignments of table node `i`, from its header row.
pub open spec fn table_alignments(d: Seq<NodeView>, i: int) -> Seq<TableAlignment> {
    if row_is_header(d, i, 0) {
        let row = d[i].children[0] as int;
        row_alignments(d, row, d[row].children.len() as int)
    } else {
        Seq::empty()
    }
}

/// The table layout for the width left after the indent, in the theme's table styles.
pub open spec fn table_config(r: RendererView, ctx: Context) -> TableConfig {
    TableConfig {
        max_width: sat_sub(r.options.width, ctx.indent),
        border_style: r.options.table_border,
        border_style_ansi: r.theme.table_border,
        header_style: r.theme.table_header,
        cell_style: r.theme.table_cell,
        padding: 1,
        truncate: r.options.table_truncate,
        max_col_width: 40,
    }
}

/// A table node laid out, each line indented, then a blank line.
pub open spec fn table_out(r: RendererView, d: Seq<NodeView>, i: int, ctx: Context) -> Seq<char> {
    let rows = table_rows(d, i, d[i].children.len() as int);
    let t = TableView { headers: rows.0, rows: rows.1, alignments: table_alignments(d, i) };
    joined_lines(render_table_of(t, table_config(r, ctx)), spaces(ctx.indent as nat)) + nl()
}

/// `n` in decimal, right-aligned in `w` columns.
pub open spec fn number_right(n: nat, w: nat) -> Seq<char> {
    let s = decimal(n);
    if s.len() < w { spaces((w - s.len()) as nat) + s } else { s }
}

/// The highlighted lines of a code block, where highlighting is on, the block names a language
/// and syntect highlights it.
pub open spec fn highlighted_code(r: RendererView, code: Seq<char>, lang: Seq<char>) -> Option<Seq<Seq<char>>> {
    if lang.len() > 0 && r.highlighter is Some {
        match syntect_lines(r.highlighter->0, code, lang) {
            Some(ls) => Some(ansi_lines_of(ls)),
            None => None,
        }
    } else {
        None
    }
}

/// The first `n` lines painted in the code block style.
pub open spec fn plain_code_lines(r: RendererView, lines: Seq<Seq<char>>) -> Seq<Seq<char>> {
    lines.map_values(|l: Seq<char>| paint_of(r.theme.code_block, l))
}

/// The lines a code block shows.
pub open spec fn display_lines(r: RendererView, code: Seq<char>, lang: Seq<char>) -> Seq<Seq<char>> {
    match highlighted_code(r, code, lang) {
        Some(v) => v,
        None => plain_code_lines(r, lines_of(code)),
    }
}

/// The box sides around one piece of a code line, padded to the content width.
pub open spec fn boxed_code_piece(
    r: RendererView,
    indent: Seq<char>,
    gutter: Seq<char>,
    piece: Seq<char>,
    gw: usize,
    cw: usize,
) -> Seq<char> {
    let used = sat_add(gw, visible_width(piece));
    paint_of(r.theme.code_border, indent + "\u{2502} "@) + gutter + piece + (if used < cw + gw {
        spaces((cw + gw - used) as nat)
    } else {
        Seq::empty()
    }) + paint_of(r.theme.code_border, " \u{2502}"@) + nl()
}

/// The first `n` pieces of a wrapped code line, the gutter beside the first and blank
/// beside the others.
pub open spec fn wrapped_code_out(
    r: RendererView,
    pieces: Seq<Seq<char>>,
    indent: Seq<char>,
    gutter: Seq<char>,
    gw: usize,
    cw: usize,
    n: int,
) -> Seq<char>
    decreases n,
{
    if n <= 0 || n > pieces.len() {
        Seq::empty()
    } else {
        wrapped_code_out(r, pieces, indent, gutter, gw, cw, n - 1) + boxed_code_piece(
            r,
            indent,
            if n == 1 { gutter } else { spaces(gw as nat) },
            pieces[n - 1],
            gw,
            cw,
        )
    }
}

/// The `k`-th line of a code block inside its box, with its number in the gutter when line
/// numbers are on, wrapped to the content width when code wrapping is on.
pub open spec fn code_line_out(
    r: RendererView,
    line: Seq<char>,
    k: nat,
    indent: Seq<char>,
    gw: usize,
    cw: usize,
) -> Seq<char> {
    let gutter = if r.options.line_numbers {
        paint_of(r.theme.code_line_number, number_right((k + 1) as nat, (gw - 1) as nat) + seq![' '])
    } else {
        Seq::empty()
    };
    if r.options.code_wrap && cw > 0 {
        let pieces = wrap_text_of(line, cw as nat);
        wrapped_code_out(r, pieces, indent, gutter, gw, cw, pieces.len() as int)
    } else {
        paint_of(r.theme.code_border, indent + "\u{2502} "@) + gutter + line + paint_of(
            r.theme.code_border,
            " \u{2502}"@,
        ) + nl()
    }
}

/// The first `n` lines of a code block inside its box.
pub open spec fn code_lines_out(r: RendererView, lines: Seq<Seq<char>>, indent: Seq<char>, gw: usize, cw: usize, n: int) -> Seq<char>
    decreases n,
{
    if n <= 0 || n > lines.len() {
        Seq::empty()
    } else {
        code_lines_out(r, lines, indent, gw, cw, n - 1) + code_line_out(r, lines[n - 1], (n - 1) as nat, indent, gw, cw)
    }
}

/// The width of the line-number gutter.
pub open spec fn gutter_width(r: RendererView, lines: nat) -> usize {
    if r.options.line_numbers { (decimal(lines).len() + 1) as usize } else { 0 }
}

/// The language label on the top of a code box.
pub open spec fn code_label(r: RendererView, lang: Seq<char>) -> Seq<char> {
    if lang.len() > 0 {
        paint_of(r.theme.code_lang_label, seq![' '] + lang + seq![' '])
    } else {
        Seq::empty()
    }
}

/// The width of a code box's content.
pub open spec fn content_width(r: RendererView, ctx: Context, gw: usize) -> usize {
    sat_sub(sat_sub(r.options.width, ctx.indent), (4 + gw) as usize)
}

/// The top of a code box: the label, then a rule as wide as the rows between the corners.
pub open spec fn code_top_out(r: RendererView, indent: Seq<char>, label: Seq<char>, top: usize) -> Seq<char> {
    paint_of(r.theme.code_border, indent + "\u{256d}"@ + label + repeat_seq("\u{2500}"@, top as nat) + "\u{256e}"@)
        + nl()
}

/// The bottom of a code box.
pub open spec fn code_bottom_out(r: RendererView, indent: Seq<char>, w: nat) -> Seq<char> {
    paint_of(r.theme.code_border, indent + "\u{2570}"@ + repeat_seq("\u{2500}"@, w) + "\u{256f}"@) + nl() + nl()
}

/// A one-line code block: a bar, then its line.
pub open spec fn code_single_out(r: RendererView, indent: Seq<char>, shown: Seq<Seq<char>>) -> Seq<char> {
    indent + paint_of(r.theme.code_border, "\u{2502} "@) + (if shown.len() > 0 {
        shown[0]
    } else {
        Seq::empty()
    }) + nl() + nl()
}

/// A code block: a one-line block after a bar; a longer one in a box whose top names the
/// language, its lines highlighted where syntect knows the language.
pub open spec fn code_block_out(r: RendererView, literal: Seq<char>, info: Seq<char>, ctx: Context) -> Seq<char> {
    let lang = first_word(info);
    let code = crate::highlight::trim_newlines(literal);
    let shown = display_lines(r, code, lang);
    let indent = spaces(ctx.indent as nat);
    if lines_of(code).len() == 1 {
        code_single_out(r, indent, shown)
    } else {
        let gw = gutter_width(r, shown.len());
        let cw = content_width(r, ctx, gw);
        let label = code_label(r, lang);
        let top = sat_sub((cw + gw + 2) as usize, visible_width(label));
        code_top_out(r, indent, label, top) + code_lines_out(r, shown, indent, gw, cw, shown.len() as int)
            + code_bottom_out(r, indent, (cw + gw + 2) as nat)
    }
}

/// A whole document rendered from its root (its last node), trailing white space trimmed and
/// one line feed kept; nothing for a document that renders to white space only.
pub open spec fn render_doc_of(r: RendererView, d: Seq<NodeView>) -> Seq<char> {
    let out = if d.len() > 0 { node_out(r, d, d.len() - 1, root_context()) } else { Seq::empty() };
    let t = trim_end_ws(out);
    if t.len() == 0 { Seq::empty() } else { t + nl() }
}

/// A Markdown text rendered.
pub open spec fn render_of(r: RendererView, md: Seq<char>) -> Seq<char> {
    render_doc_of(r, markdown_doc(md))
}

/// A theme with no ANSI styling at all.
pub open spec fn plain_theme_spec() -> Theme {
    let p = plain_style();
    Theme {
        heading1: p,
        heading2: p,
        heading3: p,
        heading4: p,
        heading5: p,
        heading6: p,
        paragraph: p,
        emphasis: p,
        strong: p,
        strikethrough: p,
        inline_code: p,
        code_block: p,
        code_border: p,
        code_lang_label: p,
        code_line_number: p,
        blockquote: p,
        blockquote_bar: p,
        link_text: p,
        link_url: p,
        list_bullet: p,
        list_number: p,
        task_done: p,
        task_pending: p,
        table_border: p,
        table_header: p,
        table_cell: p,
        thematic_break: p,
        image_alt: p,
        footnote_ref: p,
        footnote_def: p,
    }
}

/// A theme with no ANSI styling at all (for plain text output).
pub fn plain_theme() -> (t: Theme)
    ensures
        t == plain_theme_spec(),
{
    Theme {
        heading1: Style::new(),
        heading2: Style::new(),
        heading3: Style::new(),
        heading4: Style::new(),
        heading5: Style::new(),
        heading6: Style::new(),
        paragraph: Style::new(),
        emphasis: Style::new(),
        strong: Style::new(),
        strikethrough: Style::new(),
        inline_code: Style::new(),
        code_block: Style::new(),
        code_border: Style::new(),
        code_lang_label: Style::new(),
        code_line_number: Style::new(),
        blockquote: Style::new(),
        blockquote_bar: Style::new(),
        link_text: Style::new(),
        link_url: Style::new(),
        list_bullet: Style::new(),
        list_number: Style::new(),
        task_done: Style::new(),
        task_pending: Style::new(),
        table_border: Style::new(),
        table_header: Style::new(),
        table_cell: Style::new(),
        thematic_break: Style::new(),
        image_alt: Style::new(),
        footnote_ref: Style::new(),
        footnote_def: Style::new(),
    }
}

/// The main rendering engine.
pub struct Renderer {
    theme: Theme,
    options: RenderOptions,
    highlighter: Option<Highlighter>,
}

impl View for Renderer {
    type V = RendererView;

    closed spec fn view(&self) -> RendererView {
        RendererView {
            theme: self.theme,
            options: self.options,
            highlighter: match self.highlighter {
                Some(h) => Some(h@),
                None => None,
            },
        }
    }
}

/// The renderer that `Renderer::new` builds: the given options; the plain theme when they ask
/// for plain text, the given theme otherwise; the default syntect theme when they ask for
/// highlighting.
pub open spec fn renderer_of(theme: Theme, options: RenderOptions) -> RendererView {
    RendererView {
        theme: if options.plain { plain_theme_spec() } else { theme },
        options,
        highlighter: if options.highlight { Some(default_theme_name()) } else { None },
    }
}

/// Appends each line after `pre`, each followed by a line feed.
fn append_lines(out: &mut String, lines: &Vec<String>, pre: &str)
    ensures
        final(out)@ == old(out)@ + joined_lines(string_views(lines@), pre@),
{
    let ghost ls = string_views(lines@);
    let mut k: usize = 0;
    while k < lines.len()
        invariant
            k <= lines@.len(),
            ls == string_views(lines@),
            out@ == old(out)@ + joined_lines(ls.take(k as int), pre@),
        decreases lines.len() - k,
    {
        out.append(pre);
        out.append(lines[k].as_str());
        push_char(out, '\n');
        k = k + 1;
        assert(ls.take(k as int).drop_last() =~= ls.take(k - 1));
    }
    assert(ls.take(k as int) =~= ls);
}

/// Appends each line painted with `style`, each followed by a line feed.
fn append_painted_lines(out: &mut String, lines: &Vec<String>, style: &Style)
    ensures
        final(out)@ == old(out)@ + painted_lines(string_views(lines@), *style),
{
    let ghost ls = string_views(lines@);
    let mut k: usize = 0;
    while k < lines.len()
        invariant
            k <= lines@.len(),
            ls == string_views(lines@),
            out@ == old(out)@ + painted_lines(ls.take(k as int), *style),
        decreases lines.len() - k,
    {
        let p = style.paint(lines[k].as_str());
        out.append(p.as_str());
        push_char(out, '\n');
        k = k + 1;
        assert(ls.take(k as int).drop_last() =~= ls.take(k - 1));
    }
    assert(ls.take(k as int) =~= ls);
}

/// Appends `n` in decimal, right-aligned in `w` columns.
fn append_number_right(out: &mut String, n: usize, w: usize)
    ensures
        final(out)@ == old(out)@ + number_right(n as nat, w as nat),
{
    let mut s = String::new();
    append_decimal(&mut s, n);
    assert(s@ =~= decimal(n as nat));
    let len = s.unicode_len();
    if len < w {
        push_spaces(out, w - len);
    }
    out.append(s.as_str());
}

/// The style of a heading of the given level.
fn heading_style_exec(t: &Theme, level: usize) -> (s: Style)
    ensures
        s == heading_style(*t, level),
{
    if level == 1 {
        t.heading1
    } else if level == 2 {
        t.heading2
    } else if level == 3 {
        t.heading3
    } else if level == 4 {
        t.heading4
    } else if level == 5 {
        t.heading5
    } else {
        t.heading6
    }
}

/// A number has at most half as many decimal digits as its value, plus one.
proof fn lemma_decimal_len(n: nat)
    ensures
        decimal(n).len() <= n / 2 + 1,
    decreases n,
{
    if n >= 10 {
        lemma_decimal_len(n / 10);
        assert(n / 10 / 2 + 2 <= n / 2 + 1);
    }
}

/// Appends one piece of a code line inside the box sides, padded to the content width.
fn append_code_piece(
    out: &mut String,
    border: &Style,
    indent: &str,
    gutter: &str,
    piece: &str,
    gw: usize,
    cw: usize,
)
    requires
        cw + gw <= usize::MAX,
    ensures
        final(out)@ == old(out)@ + paint_of(*border, indent@ + "\u{2502} "@) + gutter@ + piece@ + (if sat_add(
            gw,
            visible_width(piece@),
        ) < cw + gw {
            spaces((cw + gw - sat_add(gw, visible_width(piece@))) as nat)
        } else {
            Seq::empty()
        }) + paint_of(*border, " \u{2502}"@) + nl(),
{
    let mut left = indent.to_string();
    left.append("\u{2502} ");
    let l = border.paint(left.as_str());
    out.append(l.as_str());
    out.append(gutter);
    out.append(piece);
    let used = gw.saturating_add(visible_width_of(piece));
    if used < cw + gw {
        push_spaces(out, cw + gw - used);
    }
    let r = border.paint(" \u{2502}");
    out.append(r.as_str());
    push_char(out, '\n');
}

/// The texts of the cells of row node `row`.
fn row_cells_exec(doc: &MdDoc, row: usize) -> (cells: Vec<String>)
    requires
        row < doc@.len(),
    ensures
        string_views(cells@) == row_cells(doc@, row as int, doc@[row as int].children.len() as int),
{
    let node = &doc.nodes[row];
    let mut cells: Vec<String> = Vec::new();
    let mut m: usize = 0;
    assert(string_views(cells@) =~= Seq::<Seq<char>>::empty());
    while m < node.children.len()
        invariant
            row < doc@.len(),
            doc@[row as int] == node@,
            m <= node.children@.len(),
            string_views(cells@) == row_cells(doc@, row as int, m as int),
        decreases node.children.len() - m,
    {
        let cell = node.children[m];
        if cell < row {
            let t = collect_text(doc, cell);
            let ghost before = string_views(cells@);
            cells.push(t);
            assert(string_views(cells@) =~= before.push(t@));
        }
        m = m + 1;
    }
    cells
}

/// The alignments of the cells of row node `row`.
fn row_alignments_exec(doc: &MdDoc, row: usize) -> (aligns: Vec<TableAlignment>)
    requires
        row < doc@.len(),
    ensures
        aligns@ == row_alignments(doc@, row as int, doc@[row as int].children.len() as int),
{
    let node = &doc.nodes[row];
    let mut aligns: Vec<TableAlignment> = Vec::new();
    let mut m: usize = 0;
    while m < node.children.len()
        invariant
            row < doc@.len(),
            doc@[row as int] == node@,
            m <= node.children@.len(),
            aligns@ == row_alignments(doc@, row as int, m as int),
        decreases node.children.len() - m,
    {
        let cell = node.children[m];
        if cell < row {
            let a = match doc.nodes[cell].kind {
                NodeKind::TableCell(a) => a,
                _ => TableAlignment::Unaligned,
            };
            aligns.push(a);
        }
        m = m + 1;
    }
    aligns
}

/// Whether the first task-item child of node `c` is checked, if there is one.
fn find_task(doc: &MdDoc, c: usize) -> (t: Option<bool>)
    requires
        c < doc@.len(),
    ensures
        t == task_from(doc@, c as int, 0),
{
    let node = &doc.nodes[c];
    let mut k: usize = 0;
    while k < node.children.len()
        invariant
            c < doc@.len(),
            doc@[c as int] == node@,
            k <= node.children@.len(),
            task_from(doc@, c as int, 0) == task_from(doc@, c as int, k as int),
        decreases node.children.len() - k,
    {
        let ch = node.children[k];
        if ch < doc.nodes.len() {
            match doc.nodes[ch].kind {
                NodeKind::TaskItem(checked) => {
                    return Some(checked);
                },
                _ => {},
            }
        }
        k = k + 1;
    }
    None
}

impl Renderer {
    pub fn new(theme: Theme, options: RenderOptions) -> (r: Renderer)
        ensures
            r@ == renderer_of(theme, options),
    {
        let highlighter = if options.highlight {
            Some(Highlighter::new())
        } else {
            None
        };
        // When plain mode is enabled, use an empty theme (no ANSI codes)
        let theme = if options.plain {
            plain_theme()
        } else {
            theme
        };
        Renderer { theme, options, highlighter }
    }

    /// Appends a paragraph's styled text, wrapped and indented.
    fn paragraph(&self, out: &mut String, ctx: Context, styled: &str)
        ensures
            final(out)@ == old(out)@ + paragraph_out(self@, ctx, styled@),
    {
        if self.options.wrap && self.options.width > 0 {
            let lines = wrap_text(styled, self.options.width.saturating_sub(ctx.indent));
            let pre = crate::wrap::spaces_string(ctx.indent);
            append_lines(out, &lines, pre.as_str());
        } else {
            push_spaces(out, ctx.indent);
            out.append(styled);
            push_char(out, '\n');
        }
        push_char(out, '\n');
    }

    /// Appends a heading of the given level with the text of node `i`.
    fn heading(&self, doc: &MdDoc, i: usize, level: usize, out: &mut String)
        requires
            i < doc@.len(),
        ensures
            final(out)@ == old(out)@ + nl() + paint_of(
                heading_style(self@.theme, level),
                repeat_seq("#"@, level as nat) + seq![' '] + collect_text_of(doc@, i as int),
            ) + nl() + nl(),
    {
        let text = collect_text(doc, i);
        let style = heading_style_exec(&self.theme, level);
        let mut h = repeat_str("#", level);
        push_char(&mut h, ' ');
        h.append(text.as_str());
        let rendered = style.paint(h.as_str());
        push_char(out, '\n');
        out.append(rendered.as_str());
        push_char(out, '\n');
        push_char(out, '\n');
    }

    /// Appends a thematic break.
    fn thematic_break(&self, out: &mut String, ctx: Context)
        ensures
            final(out)@ == old(out)@ + spaces(ctx.indent as nat) + paint_of(
                self@.theme.thematic_break,
                repeat_seq(
                    "\u{2500}"@,
                    if sat_sub(self@.options.width, ctx.indent) < 40 {
                        sat_sub(self@.options.width, ctx.indent) as nat
                    } else {
                        40
                    },
                ),
            ) + nl() + nl(),
    {
        let width = self.options.width.saturating_sub(ctx.indent);
        let rule = repeat_str("\u{2500}", if width < 40 { width } else { 40 });
        push_spaces(out, ctx.indent);
        let p = self.theme.thematic_break.paint(rule.as_str());
        out.append(p.as_str());
        push_char(out, '\n');
        push_char(out, '\n');
    }

    /// The lines a code block shows: highlighted where highlighting is on and syntect knows
    /// the language, painted in the code block style otherwise.
    fn display(&self, code: &str, lang: &str, lines: &Vec<String>) -> (shown: Vec<String>)
        requires
            string_views(lines@) == lines_of(code@),
        ensures
            string_views(shown@) == display_lines(self@, code@, lang@),
    {
        if !lang.is_empty() {
            match &self.highlighter {
                Some(h) => {
                    match h.highlight_to_ansi(code, lang) {
                        Some(v) => {
                            return v;
                        },
                        None => {},
                    }
                },
                None => {},
            }
        }
        let mut shown: Vec<String> = Vec::new();
        let mut k: usize = 0;
        while k < lines.len()
            invariant
                k <= lines@.len(),
                string_views(lines@) == lines_of(code@),
                shown@.len() == k,
                forall|q: int| 0 <= q < k ==> (#[trigger] shown@[q])@ == paint_of(self@.theme.code_block, lines@[q]@),
            decreases lines.len() - k,
        {
            let p = self.theme.code_block.paint(lines[k].as_str());
            shown.push(p);
            k = k + 1;
        }
        assert(string_views(shown@) =~= plain_code_lines(self@, lines_of(code@)));
        shown
    }

    /// Appends the `k`-th line of a code block inside its box.
    #[verifier::rlimit(40)]
    #[verifier::spinoff_prover]
    fn code_line(&self, out: &mut String, line: &str, k: usize, indent: &str, gw: usize, cw: usize)
        requires
            cw + gw <= usize::MAX,
            k < usize::MAX,
            self@.options.line_numbers ==> gw >= 1,
        ensures
            final(out)@ == old(out)@ + code_line_out(self@, line@, k as nat, indent@, gw, cw),
    {
        let gutter = if self.options.line_numbers {
            let mut g = String::new();
            append_number_right(&mut g, k + 1, gw - 1);
            push_char(&mut g, ' ');
            self.theme.code_line_number.paint(g.as_str())
        } else {
            String::new()
        };
        assert(gutter@ == (if self@.options.line_numbers {
            paint_of(self@.theme.code_line_number, number_right((k + 1) as nat, (gw - 1) as nat) + seq![' '])
        } else {
            Seq::<char>::empty()
        }));
        if self.options.code_wrap && cw > 0 {
            let pieces = wrap_text(line, cw);
            let ghost ps = string_views(pieces@);
            let blank = crate::wrap::spaces_string(gw);
            let mut j: usize = 0;
            while j < pieces.len()
                invariant
                    j <= pieces@.len(),
                    ps == string_views(pieces@),
                    ps == wrap_text_of(line@, cw as nat),
                    cw + gw <= usize::MAX,
                    blank@ == spaces(gw as nat),
                    out@ == old(out)@ + wrapped_code_out(self@, ps, indent@, gutter@, gw, cw, j as int),
                decreases pieces.len() - j,
            {
                let g = if j == 0 { gutter.as_str() } else { blank.as_str() };
                let ghost before = out@;
                append_code_piece(out, &self.theme.code_border, indent, g, pieces[j].as_str(), gw, cw);
                assert(out@ == before + boxed_code_piece(self@, indent@, g@, ps[j as int], gw, cw));
                assert(out@ =~= old(out)@ + wrapped_code_out(self@, ps, indent@, gutter@, gw, cw, j + 1));
                j = j + 1;
            }
        } else {
            let mut left = indent.to_string();
            left.append("\u{2502} ");
            let l = self.theme.code_border.paint(left.as_str());
            out.append(l.as_str());
            out.append(gutter.as_str());
            out.append(line);
            let r = self.theme.code_border.paint(" \u{2502}");
            out.append(r.as_str());
            push_char(out, '\n');
            assert(out@ =~= old(out)@ + code_line_out(self@, line@, k as nat, indent@, gw, cw));
        }
    }

    /// The style of raw HTML: dim, or none in plain output.
    fn raw_html_style(&self) -> (s: Style)
        ensures
            s == html_style(self@),
    {
        if self.options.plain {
            Style::new()
        } else {
            Style::new().dim()
        }
    }

    /// Render a code block with optional syntax highlighting and box drawing.
    #[verifier::rlimit(40)]
    fn code_block(&self, literal: &str, info: &str, out: &mut String, ctx: Context)
        ensures
            final(out)@ == old(out)@ + code_block_out(self@, literal@, info@, ctx),
    {
        let lang = first_word_str(info);
        let code = crate::highlight::trim_newlines_exec(literal);
        let lines = split_lines(code.as_str());
        let shown = self.display(code.as_str(), lang.as_str(), &lines);
        let indent = crate::wrap::spaces_string(ctx.indent);
        let ghost sv = string_views(shown@);
        assert(sv == display_lines(self@, code@, lang@));
        assert(string_views(lines@).len() == lines@.len());
        if lines.len() == 1 {
            out.append(indent.as_str());
            let bar = self.theme.code_border.paint("\u{2502} ");
            out.append(bar.as_str());
            if shown.len() > 0 {
                out.append(shown[0].as_str());
            }
            push_char(out, '\n');
            push_char(out, '\n');
            assert(out@ =~= old(out)@ + code_single_out(self@, indent@, sv));
            return;
        }
        let gw: usize = if self.options.line_numbers {
            let mut digits = String::new();
            append_decimal(&mut digits, shown.len());
            proof {
                lemma_decimal_len(shown@.len() as nat);
            }
            assert(digits@ =~= decimal(shown@.len() as nat));
            digits.unicode_len() + 1
        } else {
            0
        };
        assert(gw == gutter_width(self@, sv.len()));
        let cw = self.options.width.saturating_sub(ctx.indent).saturating_sub(4 + gw);
        assert(cw == content_width(self@, ctx, gw));
        let label = self.label(lang.as_str());
        assert(cw + gw + 2 <= usize::MAX);
        let top = (cw + gw + 2).saturating_sub(visible_width_of(label.as_str()));
        self.code_top(out, indent.as_str(), label.as_str(), top);
        let ghost pre = out@;
        let mut k: usize = 0;
        while k < shown.len()
            invariant
                k <= shown@.len(),
                sv == string_views(shown@),
                cw + gw + 2 <= usize::MAX,
                self@.options.line_numbers ==> gw >= 1,
                out@ == pre + code_lines_out(self@, sv, indent@, gw, cw, k as int),
            decreases shown.len() - k,
        {
            self.code_line(out, shown[k].as_str(), k, indent.as_str(), gw, cw);
            k = k + 1;
        }
        assert(string_views(shown@).len() == shown@.len());
        self.code_bottom(out, indent.as_str(), cw + gw + 2);
    }

    /// The language label of a code box.
    fn label(&self, lang: &str) -> (l: String)
        ensures
            l@ == code_label(self@, lang@),
    {
        if lang.unicode_len() > 0 {
            let mut l = String::new();
            push_char(&mut l, ' ');
            l.append(lang);
            push_char(&mut l, ' ');
            self.theme.code_lang_label.paint(l.as_str())
        } else {
            String::new()
        }
    }

    /// Appends the top of a code box.
    fn code_top(&self, out: &mut String, indent: &str, label: &str, top: usize)
        ensures
            final(out)@ == old(out)@ + code_top_out(self@, indent@, label@, top),
    {
        let mut head = indent.to_string();
        head.append("\u{256d}");
        head.append(label);
        let bar = repeat_str("\u{2500}", top);
        head.append(bar.as_str());
        head.append("\u{256e}");
        let h = self.theme.code_border.paint(head.as_str());
        out.append(h.as_str());
        push_char(out, '\n');
    }

    /// Appends the bottom of a code box.
    fn code_bottom(&self, out: &mut String, indent: &str, w: usize)
        ensures
            final(out)@ == old(out)@ + code_bottom_out(self@, indent@, w as nat),
    {
        let mut foot = indent.to_string();
        foot.append("\u{2570}");
        let fbar = repeat_str("\u{2500}", w);
        foot.append(fbar.as_str());
        foot.append("\u{256f}");
        let f = self.theme.code_border.paint(foot.as_str());
        out.append(f.as_str());
        push_char(out, '\n');
        push_char(out, '\n');
    }

    /// Render a GFM table.
    fn table(&self, doc: &MdDoc, i: usize, out: &mut String, ctx: Context)
        requires
            i < doc@.len(),
        ensures
            final(out)@ == old(out)@ + table_out(self@, doc@, i as int, ctx),
    {
        let node = &doc.nodes[i];
        let mut headers: Vec<String> = Vec::new();
        let mut rows: Vec<Vec<String>> = Vec::new();
        let mut k: usize = 0;
        assert(string_views(headers@) =~= Seq::<Seq<char>>::empty());
        while k < node.children.len()
            invariant
                i < doc@.len(),
                doc@[i as int] == node@,
                k <= node.children@.len(),
                string_views(headers@) == table_rows(doc@, i as int, k as int).0,
                rows@.len() == table_rows(doc@, i as int, k as int).1.len(),
                forall|q: int| 0 <= q < rows@.len() ==> string_views(#[trigger] rows@[q]@) == table_rows(doc@, i as int, k as int).1[q],
            decreases node.children.len() - k,
        {
            let row = node.children[k];
            if row < i {
                let cells = row_cells_exec(doc, row);
                if table_row_is_header(doc, i, k) {
                    headers = cells;
                } else {
                    rows.push(cells);
                }
            }
            k = k + 1;
        }
        let aligns = if table_row_is_header(doc, i, 0) {
            row_alignments_exec(doc, node.children[0])
        } else {
            Vec::new()
        };
        assert(aligns@ =~= table_alignments(doc@, i as int));
        let table = Table::new(headers, rows, aligns);
        assert(table@.rows =~= table_rows(doc@, i as int, k as int).1);
        let config = TableConfig {
            max_width: self.options.width.saturating_sub(ctx.indent),
            border_style: self.options.table_border,
            border_style_ansi: self.theme.table_border,
            header_style: self.theme.table_header,
            cell_style: self.theme.table_cell,
            padding: 1,
            truncate: self.options.table_truncate,
            max_col_width: 40,
        };
        assert(config == table_config(self@, ctx));
        let lines = table.render(&config);
        let pre = crate::wrap::spaces_string(ctx.indent);
        append_lines(out, &lines, pre.as_str());
        push_char(out, '\n');
    }

    /// The bullet or number of a list item, with its checkbox.
    fn item_prefix(&self, doc: &MdDoc, c: usize, ordered: bool, index: usize) -> (p: String)
        requires
            c < doc@.len(),
        ensures
            p@ == item_prefix(self@, doc@, c as int, ordered, index),
    {
        let prefix = if ordered {
            let mut n = String::new();
            append_decimal(&mut n, index);
            push_char(&mut n, '.');
            self.theme.list_number.paint(n.as_str())
        } else {
            self.theme.list_bullet.paint("\u{2022}")
        };
        match find_task(doc, c) {
            Some(true) => {
                let mut p = prefix;
                push_char(&mut p, ' ');
                let b = self.theme.task_done.paint("[x]");
                p.append(b.as_str());
                p
            },
            Some(false) => {
                let mut p = prefix;
                push_char(&mut p, ' ');
                let b = self.theme.task_pending.paint("[ ]");
                p.append(b.as_str());
                p
            },
            None => prefix,
        }
    }

    /// Appends the first paragraph of a list item beside its prefix.
    fn first_para(&self, out: &mut String, ctx: Context, prefix: &str, pw: usize, para: &str)
        ensures
            final(out)@ == old(out)@ + first_para_out(self@, ctx, prefix@, pw, para@),
    {
        let mut head = crate::wrap::spaces_string(ctx.indent);
        head.append(prefix);
        push_char(&mut head, ' ');
        if self.options.wrap && self.options.width > 0 {
            let ci = ctx.indent.saturating_add(pw);
            assert(ci == sat_add(ctx.indent, pw));
            let w = self.options.width.saturating_sub(ci);
            assert(w == sat_sub(self@.options.width, ci));
            let lines = wrap_text(para, w);
            let rest = crate::wrap::spaces_string(ci);
            let ghost ls = string_views(lines@);
            let mut j: usize = 0;
            while j < lines.len()
                invariant
                    j <= lines@.len(),
                    ls == string_views(lines@),
                    out@ == old(out)@ + item_lines(ls, head@, rest@, j as int),
                decreases lines.len() - j,
            {
                if j == 0 {
                    out.append(head.as_str());
                } else {
                    out.append(rest.as_str());
                }
                out.append(lines[j].as_str());
                push_char(out, '\n');
                j = j + 1;
            }
            assert(ls.len() == lines@.len());
            assert(out@ =~= old(out)@ + item_lines(ls, head@, rest@, ls.len() as int));
            assert(head@ == spaces(ctx.indent as nat) + prefix@ + seq![' ']);
            assert(rest@ == spaces(ci as nat));
            assert(ls == wrap_text_of(para@, sat_sub(self@.options.width, ci) as nat));
            assert(self@.options.wrap && self@.options.width > 0);
            assert(first_para_out(self@, ctx, prefix@, pw, para@) == item_lines(ls, head@, rest@, ls.len() as int));
        } else {
            out.append(head.as_str());
            out.append(para);
            push_char(out, '\n');
            assert(out@ =~= old(out)@ + first_para_out(self@, ctx, prefix@, pw, para@));
        }
    }

    /// Render inline content (text, emphasis, code, links, etc.)
    #[verifier::rlimit(60)]
    #[verifier::spinoff_prover]
    fn render_inline(&self, doc: &MdDoc, i: usize, out: &mut String, ctx: Context)
        requires
            i < doc@.len(),
        ensures
            final(out)@ == old(out)@ + inline_out(self@, doc@, i as int, ctx),
        decreases i, 1int,
    {
        let node = &doc.nodes[i];
        assert(doc@[i as int] == node@);
        match &node.kind {
            NodeKind::Text(t) => {
                out.append(t.as_str());
            },
            NodeKind::Code(c) => {
                let mut s = String::new();
                push_char(&mut s, '`');
                s.append(c.as_str());
                push_char(&mut s, '`');
                let p = self.theme.inline_code.paint(s.as_str());
                out.append(p.as_str());
            },
            NodeKind::Emph => {
                let mut inner = String::new();
                self.render_inline_children(doc, i, &mut inner, ctx);
                let p = self.theme.emphasis.paint(inner.as_str());
                out.append(p.as_str());
            },
            NodeKind::Strong => {
                let mut inner = String::new();
                self.render_inline_children(doc, i, &mut inner, ctx);
                let p = self.theme.strong.paint(inner.as_str());
                out.append(p.as_str());
            },
            NodeKind::Strikethrough => {
                let mut inner = String::new();
                self.render_inline_children(doc, i, &mut inner, ctx);
                let p = self.theme.strikethrough.paint(inner.as_str());
                out.append(p.as_str());
            },
            NodeKind::Link(url) => {
                let mut inner = String::new();
                self.render_inline_children(doc, i, &mut inner, ctx);
                let l = self.link(inner.as_str(), url.as_str());
                out.append(l.as_str());
            },
            NodeKind::Image(url) => {
                let alt = collect_text(doc, i);
                let mut s = "[image: ".to_string();
                if alt.unicode_len() == 0 {
                    s.append(url.as_str());
                } else {
                    s.append(alt.as_str());
                }
                push_char(&mut s, ']');
                let p = self.theme.image_alt.paint(s.as_str());
                out.append(p.as_str());
            },
            NodeKind::SoftBreak => {
                push_char(out, ' ');
            },
            NodeKind::LineBreak => {
                push_char(out, '\n');
            },
            NodeKind::FootnoteReference(name) => {
                let mut s = "[^".to_string();
                s.append(name.as_str());
                push_char(&mut s, ']');
                let p = self.theme.footnote_ref.paint(s.as_str());
                out.append(p.as_str());
            },
            NodeKind::Math { display, literal } => {
                let delim = if *display { "$$" } else { "$" };
                let mut s = delim.to_string();
                s.append(literal.as_str());
                s.append(delim);
                let p = self.theme.inline_code.paint(s.as_str());
                out.append(p.as_str());
            },
            NodeKind::HtmlInline(h) => {
                let p = self.raw_html_style().paint(h.as_str());
                out.append(p.as_str());
            },
            NodeKind::ShortCode(code) => {
                push_char(out, ':');
                out.append(code.as_str());
                push_char(out, ':');
            },
            _ => {
                self.render_inline_children(doc, i, out, ctx);
            },
        }
    }

    /// Renders the children of node `i` inline, one after the other.
    fn render_inline_children(&self, doc: &MdDoc, i: usize, out: &mut String, ctx: Context)
        requires
            i < doc@.len(),
        ensures
            final(out)@ == old(out)@ + inline_children_out(self@, doc@, i as int, ctx, doc@[i as int].children.len() as int),
        decreases i, 0int,
    {
        let node = &doc.nodes[i];
        let mut k: usize = 0;
        while k < node.children.len()
            invariant
                i < doc@.len(),
                doc@[i as int] == node@,
                k <= node.children@.len(),
                out@ == old(out)@ + inline_children_out(self@, doc@, i as int, ctx, k as int),
            decreases node.children.len() - k,
        {
            let c = node.children[k];
            if c < i {
                self.render_inline(doc, c, out, ctx);
            }
            k = k + 1;
        }
    }

    /// Renders the children of node `i`, one after the other.
    fn render_children(&self, doc: &MdDoc, i: usize, out: &mut String, ctx: Context)
        requires
            i < doc@.len(),
        ensures
            final(out)@ == old(out)@ + children_out(self@, doc@, i as int, ctx, doc@[i as int].children.len() as int),
        decreases i, 2int,
    {
        let node = &doc.nodes[i];
        let mut k: usize = 0;
        while k < node.children.len()
            invariant
                i < doc@.len(),
                doc@[i as int] == node@,
                k <= node.children@.len(),
                out@ == old(out)@ + children_out(self@, doc@, i as int, ctx, k as int),
            decreases node.children.len() - k,
        {
            let c = node.children[k];
            if c < i {
                self.render_node(doc, c, out, ctx);
            }
            k = k + 1;
        }
    }

    /// Render a list item with bullet/number and optional task checkbox.
    fn render_list_item(&self, doc: &MdDoc, c: usize, ordered: bool, index: usize, out: &mut String, ctx: Context)
        requires
            c < doc@.len(),
        ensures
            final(out)@ == old(out)@ + item_out(self@, doc@, c as int, ordered, index, ctx),
        decreases c, 4int,
    {
        let prefix = self.item_prefix(doc, c, ordered, index);
        let pw = visible_width_of(prefix.as_str()).saturating_add(1);
        let cctx = Context {
            indent: ctx.indent.saturating_add(pw),
            list_depth: ctx.list_depth.saturating_add(1),
            in_blockquote: ctx.in_blockquote,
        };
        assert(cctx == item_context(ctx, pw));
        let node = &doc.nodes[c];
        let mut first = true;
        let mut k: usize = 0;
        while k < node.children.len()
            invariant
                c < doc@.len(),
                doc@[c as int] == node@,
                k <= node.children@.len(),
                cctx == item_context(ctx, pw),
                out@ == old(out)@ + item_fold(self@, doc@, c as int, ctx, prefix@, pw, k as int).0,
                first == item_fold(self@, doc@, c as int, ctx, prefix@, pw, k as int).1,
            decreases node.children.len() - k,
        {
            let ch = node.children[k];
            if ch < c {
                let is_task = match doc.nodes[ch].kind {
                    NodeKind::TaskItem(_) => true,
                    _ => false,
                };
                let is_para = match doc.nodes[ch].kind {
                    NodeKind::Paragraph => true,
                    _ => false,
                };
                if is_task {
                } else if !first {
                    self.render_node(doc, ch, out, cctx);
                } else if is_para {
                    let mut para = String::new();
                    self.render_inline_children(doc, ch, &mut para, cctx);
                    self.first_para(out, ctx, prefix.as_str(), pw, para.as_str());
                    first = false;
                } else {
                    push_spaces(out, ctx.indent);
                    out.append(prefix.as_str());
                    push_char(out, ' ');
                    let mut inner = String::new();
                    self.render_node(doc, ch, &mut inner, cctx);
                    let t = trim_start_str(inner.as_str());
                    out.append(t.as_str());
                    first = false;
                }
            }
            k = k + 1;
        }
    }

    /// Render a single node and its subtree, dispatching by type.
    #[verifier::rlimit(60)]
    #[verifier::spinoff_prover]
    fn render_node(&self, doc: &MdDoc, i: usize, out: &mut String, ctx: Context)
        requires
            i < doc@.len(),
        ensures
            final(out)@ == old(out)@ + node_out(self@, doc@, i as int, ctx),
        decreases i, 3int,
    {
        let node = &doc.nodes[i];
        assert(doc@[i as int] == node@);
        match &node.kind {
            NodeKind::Paragraph => {
                let mut inl = String::new();
                self.render_inline_children(doc, i, &mut inl, ctx);
                let styled = if ctx.in_blockquote {
                    self.theme.blockquote.paint(inl.as_str())
                } else {
                    inl
                };
                self.paragraph(out, ctx, styled.as_str());
                assert(out@ =~= old(out)@ + node_out(self@, doc@, i as int, ctx));
            },
            NodeKind::Heading(level) => {
                self.heading(doc, i, *level, out);
                assert(out@ =~= old(out)@ + node_out(self@, doc@, i as int, ctx));
            },
            NodeKind::CodeBlock { info, literal } => {
                self.code_block(literal.as_str(), info.as_str(), out, ctx);
                assert(out@ =~= old(out)@ + node_out(self@, doc@, i as int, ctx));
            },
            NodeKind::BlockQuote => {
                let bar = self.theme.blockquote_bar.paint("\u{2502}");
                let child_ctx = Context { in_blockquote: true, ..ctx };
                let mut inner = String::new();
                self.render_children(doc, i, &mut inner, child_ctx);
                assert(inner@ =~= children_out(self@, doc@, i as int, child_ctx, node.children@.len() as int));
                let lines = split_lines(inner.as_str());
                let mut pre = crate::wrap::spaces_string(ctx.indent);
                pre.append(bar.as_str());
                push_char(&mut pre, ' ');
                append_lines(out, &lines, pre.as_str());
                push_char(out, '\n');
                assert(pre@ == spaces(ctx.indent as nat) + paint_of(self@.theme.blockquote_bar, "\u{2502}"@) + seq![' ']);
                assert(node_out(self@, doc@, i as int, ctx) == joined_lines(lines_of(inner@), pre@) + nl());
                assert(out@ =~= old(out)@ + node_out(self@, doc@, i as int, ctx));
            },
            NodeKind::List { ordered, start } => {
                let mut index = *start;
                let mut k: usize = 0;
                while k < node.children.len()
                    invariant
                        i < doc@.len(),
                        doc@[i as int] == node@,
                        k <= node.children@.len(),
                        index == item_number(*ordered, *start, k as nat),
                        out@ == old(out)@ + list_out(self@, doc@, i as int, ctx, *ordered, *start, k as int),
                    decreases node.children.len() - k,
                {
                    let c = node.children[k];
                    if c < i {
                        self.render_list_item(doc, c, *ordered, index, out, ctx);
                    }
                    if *ordered {
                        index = index.saturating_add(1);
                    }
                    k = k + 1;
                }
                if ctx.list_depth == 0 {
                    push_char(out, '\n');
                }
                assert(out@ =~= old(out)@ + node_out(self@, doc@, i as int, ctx));
            },
            NodeKind::ThematicBreak => {
                self.thematic_break(out, ctx);
                assert(out@ =~= old(out)@ + node_out(self@, doc@, i as int, ctx));
            },
            NodeKind::Table => {
                self.table(doc, i, out, ctx);
                assert(out@ =~= old(out)@ + node_out(self@, doc@, i as int, ctx));
            },
            NodeKind::TableRow => {},
            NodeKind::TableCell(_) => {},
            NodeKind::TaskItem(_) => {},
            NodeKind::FootnoteDefinition(name) => {
                let mut s = "[^".to_string();
                s.append(name.as_str());
                s.append("]: ");
                let p = self.theme.footnote_def.paint(s.as_str());
                out.append(p.as_str());
                let mut inner = String::new();
                self.render_children(doc, i, &mut inner, ctx);
                let t = trim_str(inner.as_str());
                out.append(t.as_str());
                push_char(out, '\n');
                assert(out@ =~= old(out)@ + node_out(self@, doc@, i as int, ctx));
            },
            NodeKind::HtmlBlock(literal) => {
                let lines = split_lines(literal.as_str());
                let hs = self.raw_html_style();
                append_painted_lines(out, &lines, &hs);
                assert(out@ =~= old(out)@ + node_out(self@, doc@, i as int, ctx));
            },
            NodeKind::Text(_) | NodeKind::Code(_) | NodeKind::Emph | NodeKind::Strong
            | NodeKind::Strikethrough | NodeKind::Link(_) | NodeKind::Image(_) | NodeKind::SoftBreak
            | NodeKind::LineBreak | NodeKind::FootnoteReference(_) | NodeKind::Math { .. }
            | NodeKind::HtmlInline(_) | NodeKind::ShortCode(_) => {
                self.render_inline(doc, i, out, ctx);
                assert(out@ =~= old(out)@ + node_out(self@, doc@, i as int, ctx));
            },
            _ => {
                self.render_children(doc, i, out, ctx);
            },
        }
    }

    /// Render a Markdown string to ANSI-styled text.
    pub fn render(&self, markdown: &str) -> (s: String)
        ensures
            s@ == render_of(self@, markdown@),
    {
        let doc = parse_markdown(markdown);
        let mut out = String::new();
        if doc.nodes.len() > 0 {
            self.render_node(&doc, doc.nodes.len() - 1, &mut out, Context { indent: 0, in_blockquote: false, list_depth: 0 });
        }
        let mut t = trim_end_str(out.as_str());
        if t.unicode_len() == 0 {
            String::new()
        } else {
            push_char(&mut t, '\n');
            t
        }
    }

    /// A link's rendering.
    fn link(&self, text: &str, url: &str) -> (s: String)
        ensures
            s@ == link_out(self@, text@, url@),
    {
        if self.options.hyperlinks {
            let styled = self.theme.link_text.paint(text);
            render_hyperlink(styled.as_str(), url, true)
        } else if is_autolink(text, url) {
            self.theme.link_text.paint(text)
        } else {
            let mut s = self.theme.link_text.paint(text);
            push_char(&mut s, ' ');
            let mut u = String::new();
            push_char(&mut u, '(');
            u.append(url);
            push_char(&mut u, ')');
            let us = self.theme.link_url.paint(u.as_str());
            s.append(us.as_str());
            s
        }
    }
}

/// What the convenience functions render with: the default theme under the options for the
/// given terminal.
pub open spec fn terminal_render_of(caps: TerminalCaps, md: Seq<char>) -> Seq<char> {
    render_of(renderer_of(default_theme_spec(), options_for(caps)), md)
}

/// Render Markdown to ANSI with default settings, for a terminal with the given
/// capabilities (those that `TerminalCaps::detect` finds).
pub fn render_markdown(markdown: &str, caps: &TerminalCaps) -> (s: String)
    ensures
        s@ == terminal_render_of(*caps, markdown@),
{
    let options = RenderOptions::from_terminal(caps);
    let renderer = Renderer::new(default_theme(), options);
    renderer.render(markdown)
}

/// Render Markdown to ANSI with a specific width, for a terminal with the given capabilities
/// (those that `TerminalCaps::detect` finds).
pub fn render_markdown_with_width(markdown: &str, width: usize, caps: &TerminalCaps) -> (s: String)
    ensures
        s@ == terminal_render_of(TerminalCaps { width, ..*caps }, markdown@),
{
    let caps = caps.with_width(width);
    let options = RenderOptions::from_terminal(&caps);
    let renderer = Renderer::new(default_theme(), options);
    renderer.render(markdown)
}

/// A rendering is empty or ends in exactly one line feed: the character before it is not
/// white space.
pub proof fn lemma_render_ends_with_one_newline(r: RendererView, md: Seq<char>)
    ensures
        render_of(r, md).len() == 0 || (render_of(r, md).len() >= 2 && render_of(r, md).last() == '\n'
            && !crate::text::is_ws(render_of(r, md)[render_of(r, md).len() - 2])),
{
    let d = markdown_doc(md);
    let out = if d.len() > 0 { node_out(r, d, d.len() - 1, root_context()) } else { Seq::empty() };
    crate::text::lemma_trim_end_ws_last(out);
}

/// With plain output on, the renderer's theme is the plain one: no style of it sets anything,
/// so painting with any of them leaves text as it is.
pub proof fn lemma_plain_output_uses_plain_theme(theme: Theme, options: RenderOptions, text: Seq<char>)
    requires
        options.plain,
    ensures
        renderer_of(theme, options).theme == plain_theme_spec(),
        paint_of(plain_style(), text) == text,
{
}

/// An image shows its alt text, the text of its children, as `[image: alt]` in the image style;
/// only an image whose alt text is empty shows its address in its place.
pub proof fn lemma_image_shows_alt_text(r: RendererView, d: Seq<NodeView>, i: int, ctx: Context, url: Seq<char>)
    requires
        0 <= i < d.len(),
        d[i].kind == KindView::Image(url),
    ensures
        collect_text_of(d, i).len() > 0 ==> inline_out(r, d, i, ctx) == paint_of(
            r.theme.image_alt,
            "[image: "@ + collect_text_of(d, i) + seq![']'],
        ),
        collect_text_of(d, i).len() == 0 ==> inline_out(r, d, i, ctx) == paint_of(
            r.theme.image_alt,
            "[image: "@ + url + seq![']'],
        ),
{
}

/// How each inline node shows: text as it is; code between backticks in the inline-code style;
/// emphasis, strong and struck-through text in their theme styles; a soft break as a space and
/// a hard break as a line feed; a footnote reference as `[^name]` in its style; math between
/// `$` signs, doubled for display math, in the inline-code style; an emoji shortcode as
/// `:code:`.
pub proof fn lemma_inline_forms(r: RendererView, d: Seq<NodeView>, i: int, ctx: Context)
    requires
        0 <= i < d.len(),
    ensures
        d[i].kind matches KindView::Text(t) ==> inline_out(r, d, i, ctx) == t,
        d[i].kind matches KindView::Code(c) ==> inline_out(r, d, i, ctx) == paint_of(
            r.theme.inline_code,
            seq!['`'] + c + seq!['`'],
        ),
        d[i].kind is Emph ==> inline_out(r, d, i, ctx) == paint_of(
            r.theme.emphasis,
            inline_children_out(r, d, i, ctx, d[i].children.len() as int),
        ),
        d[i].kind is Strong ==> inline_out(r, d, i, ctx) == paint_of(
            r.theme.strong,
            inline_children_out(r, d, i, ctx, d[i].children.len() as int),
        ),
        d[i].kind is Strikethrough ==> inline_out(r, d, i, ctx) == paint_of(
            r.theme.strikethrough,
            inline_children_out(r, d, i, ctx, d[i].children.len() as int),
        ),
        d[i].kind is SoftBreak ==> inline_out(r, d, i, ctx) == seq![' '],
        d[i].kind is LineBreak ==> inline_out(r, d, i, ctx) == seq!['\n'],
        d[i].kind matches KindView::FootnoteReference(name) ==> inline_out(r, d, i, ctx) == paint_of(
            r.theme.footnote_ref,
            seq!['[', '^'] + name + seq![']'],
        ),
        d[i].kind matches KindView::Math { display, literal } ==> inline_out(r, d, i, ctx) == paint_of(
            r.theme.inline_code,
            if display { seq!['$', '$'] + literal + seq!['$', '$'] } else { seq!['$'] + literal + seq!['$'] },
        ),
        d[i].kind matches KindView::ShortCode(code) ==> inline_out(r, d, i, ctx) == seq![':'] + code + seq![':'],
{
    reveal_strlit("[^");
    reveal_strlit("$$");
    reveal_strlit("$");
    match d[i].kind {
        KindView::FootnoteReference(name) => {
            assert("[^"@ =~= seq!['[', '^']);
        },
        KindView::Math { display, literal } => {
            assert("$$"@ =~= seq!['$', '$']);
            assert("$"@ =~= seq!['$']);
        },
        _ => {},
    }
}

/// A link without OSC-8 support shows its text in the link style, followed by a space and its
/// address in parentheses in the URL style, unless the text is the address itself; with OSC-8
/// support the styled text is wrapped in a hyperlink to the address.
pub proof fn lemma_link_forms(r: RendererView, text: Seq<char>, url: Seq<char>)
    ensures
        r.options.hyperlinks ==> link_out(r, text, url) == crate::hyperlink::osc8_open(url) + paint_of(
            r.theme.link_text,
            text,
        ) + crate::hyperlink::osc8_close(),
        !r.options.hyperlinks && !is_autolink_of(text, url) ==> link_out(r, text, url) == paint_of(
            r.theme.link_text,
            text,
        ) + seq![' '] + paint_of(r.theme.link_url, seq!['('] + url + seq![')']),
        !r.options.hyperlinks && is_autolink_of(text, url) ==> link_out(r, text, url) == paint_of(
            r.theme.link_text,
            text,
        ),
{
}

/// Heading levels 1 to 6 take the theme's heading styles of the same number; deeper levels
/// take the sixth.
pub proof fn lemma_heading_styles(t: Theme, level: usize)
    ensures
        level == 1 ==> heading_style(t, level) == t.heading1,
        level == 2 ==> heading_style(t, level) == t.heading2,
        level == 3 ==> heading_style(t, level) == t.heading3,
        level == 4 ==> heading_style(t, level) == t.heading4,
        level == 5 ==> heading_style(t, level) == t.heading5,
        level >= 6 ==> heading_style(t, level) == t.heading6,
{
}

/// How block nodes show: a heading after a blank line as `level` hashes, a space and its text
/// in its level's style, then a blank line; a thematic break as a rule of `─` as wide as the room
/// left after the indent, at most 40, then a blank line; each line of a block quote after the
/// indent and the quote bar `│` and a space; a footnote definition as `[^name]: ` in its style
/// followed by its content.
pub proof fn lemma_block_forms(r: RendererView, d: Seq<NodeView>, i: int, ctx: Context)
    requires
        0 <= i < d.len(),
    ensures
        d[i].kind matches KindView::Heading(level) ==> node_out(r, d, i, ctx) == seq!['\n'] + paint_of(
            heading_style(r.theme, level),
            repeat_seq(seq!['#'], level as nat) + seq![' '] + collect_text_of(d, i),
        ) + seq!['\n', '\n'],
        d[i].kind is ThematicBreak ==> node_out(r, d, i, ctx) == spaces(ctx.indent as nat) + paint_of(
            r.theme.thematic_break,
            repeat_seq(
                seq!['\u{2500}'],
                if sat_sub(r.options.width, ctx.indent) < 40 { sat_sub(r.options.width, ctx.indent) as nat } else { 40 },
            ),
        ) + seq!['\n', '\n'],
        d[i].kind is BlockQuote ==> node_out(r, d, i, ctx) == joined_lines(
            lines_of(children_out(r, d, i, Context { in_blockquote: true, ..ctx }, d[i].children.len() as int)),
            spaces(ctx.indent as nat) + paint_of(r.theme.blockquote_bar, seq!['\u{2502}']) + seq![' '],
        ) + seq!['\n'],
        d[i].kind matches KindView::FootnoteDefinition(name) ==> node_out(r, d, i, ctx) == paint_of(
            r.theme.footnote_def,
            seq!['[', '^'] + name + seq![']', ':', ' '],
        ) + trim_ws(children_out(r, d, i, ctx, d[i].children.len() as int)) + seq!['\n'],
{
    reveal_strlit("#");
    reveal_strlit("\u{2500}");
    reveal_strlit("\u{2502}");
    reveal_strlit("[^");
    reveal_strlit("]: ");
    assert("#"@ =~= seq!['#']);
    assert("\u{2500}"@ =~= seq!['\u{2500}']);
    assert("\u{2502}"@ =~= seq!['\u{2502}']);
    assert("[^"@ =~= seq!['[', '^']);
    assert("]: "@ =~= seq![']', ':', ' ']);
    match d[i].kind {
        KindView::Heading(level) => {
            assert(nl() + nl() =~= seq!['\n', '\n']);
            let p = paint_of(heading_style(r.theme, level), repeat_seq("#"@, level as nat) + seq![' '] + collect_text_of(d, i));
            assert(nl() + p + nl() + nl() =~= seq!['\n'] + p + seq!['\n', '\n']);
        },
        KindView::ThematicBreak => {
            let w = sat_sub(r.options.width, ctx.indent);
            let p = paint_of(r.theme.thematic_break, repeat_seq("\u{2500}"@, if w < 40 { w as nat } else { 40 }));
            assert(spaces(ctx.indent as nat) + p + nl() + nl() =~= spaces(ctx.indent as nat) + p + seq!['\n', '\n']);
        },
        KindView::FootnoteDefinition(name) => {
            assert("[^"@ + name + "]: "@ =~= seq!['[', '^'] + name + seq![']', ':', ' ']);
        },
        _ => {},
    }
}

/// A list item shows a bullet `•` in the bullet style, or, in an ordered list, its number and a
/// period in the number style; a task item adds a space and `[x]` when done, `[ ]` when not, in
/// the task styles. Ordered items are numbered on from the list's start.
pub proof fn lemma_item_prefix_forms(r: RendererView, d: Seq<NodeView>, c: int, ordered: bool, index: usize, start: usize, k: nat)
    ensures
        ({
            let mark = if ordered {
                paint_of(r.theme.list_number, decimal(index as nat) + seq!['.'])
            } else {
                paint_of(r.theme.list_bullet, seq!['\u{2022}'])
            };
            &&& task_from(d, c, 0) is None ==> item_prefix(r, d, c, ordered, index) == mark
            &&& task_from(d, c, 0) == Some(true) ==> item_prefix(r, d, c, ordered, index) == mark + seq![' ']
                + paint_of(r.theme.task_done, seq!['[', 'x', ']'])
            &&& task_from(d, c, 0) == Some(false) ==> item_prefix(r, d, c, ordered, index) == mark + seq![' ']
                + paint_of(r.theme.task_pending, seq!['[', ' ', ']'])
        }),
        ordered && start + k <= usize::MAX ==> item_number(ordered, start, k) == start + k,
{
    reveal_strlit("\u{2022}");
    reveal_strlit("[x]");
    reveal_strlit("[ ]");
    assert("\u{2022}"@ =~= seq!['\u{2022}']);
    assert("[x]"@ =~= seq!['[', 'x', ']']);
    assert("[ ]"@ =~= seq!['[', ' ', ']']);
}

/// A code block of one line shows after a bar `│ `; a longer one is boxed: a top border `╭`,
/// the language label ` lang ` in its style when the block names one, a rule `─` and `╮`; then
/// its lines; then a bottom border `╰`, a rule two columns wider than the content and gutter,
/// and `╯`, followed by a blank line. The top rule and label together are as wide as the bottom
/// rule, unless the label is wider. The content is the room left by the indent, the four
/// columns of the sides and the line-number gutter, which holds the widest line number and a
/// space. Lines that are not highlighted are painted in the code-block style.
pub proof fn lemma_code_block_forms(r: RendererView, literal: Seq<char>, info: Seq<char>, ctx: Context)
    ensures
        ({
            let lang = first_word(info);
            let code = crate::highlight::trim_newlines(literal);
            let shown = display_lines(r, code, lang);
            let indent = spaces(ctx.indent as nat);
            let gw = gutter_width(r, shown.len());
            let cw = content_width(r, ctx, gw);
            let label = if lang.len() > 0 {
                paint_of(r.theme.code_lang_label, seq![' '] + lang + seq![' '])
            } else {
                Seq::<char>::empty()
            };
            let top = sat_sub((cw + gw + 2) as usize, visible_width(label));
            &&& lines_of(code).len() == 1 ==> code_block_out(r, literal, info, ctx) == indent + paint_of(
                r.theme.code_border,
                seq!['\u{2502}', ' '],
            ) + (if shown.len() > 0 { shown[0] } else { Seq::empty() }) + seq!['\n', '\n']
            &&& lines_of(code).len() != 1 ==> code_block_out(r, literal, info, ctx) == paint_of(
                r.theme.code_border,
                indent + seq!['\u{256d}'] + label + repeat_seq(seq!['\u{2500}'], top as nat) + seq!['\u{256e}'],
            ) + seq!['\n'] + code_lines_out(r, shown, indent, gw, cw, shown.len() as int) + paint_of(
                r.theme.code_border,
                indent + seq!['\u{2570}'] + repeat_seq(seq!['\u{2500}'], (cw + gw + 2) as nat) + seq!['\u{256f}'],
            ) + seq!['\n', '\n']
            &&& cw + gw + 2 <= usize::MAX && visible_width(label) <= cw + gw + 2 ==> top + visible_width(label)
                == cw + gw + 2
            &&& decimal(shown.len()).len() < usize::MAX ==> gw == (if r.options.line_numbers {
                decimal(shown.len()).len() + 1
            } else {
                0
            })
            &&& cw == sat_sub(sat_sub(r.options.width, ctx.indent), (4 + gw) as usize)
            &&& highlighted_code(r, code, lang) is None ==> shown == lines_of(code).map_values(
                |l: Seq<char>| paint_of(r.theme.code_block, l),
            )
        }),
{
    reveal_strlit("\u{2502} ");
    reveal_strlit("\u{256d}");
    reveal_strlit("\u{256e}");
    reveal_strlit("\u{2570}");
    reveal_strlit("\u{256f}");
    reveal_strlit("\u{2500}");
    assert("\u{2502} "@ =~= seq!['\u{2502}', ' ']);
    assert("\u{256d}"@ =~= seq!['\u{256d}']);
    assert("\u{256e}"@ =~= seq!['\u{256e}']);
    assert("\u{2570}"@ =~= seq!['\u{2570}']);
    assert("\u{256f}"@ =~= seq!['\u{256f}']);
    assert("\u{2500}"@ =~= seq!['\u{2500}']);
    let lang = first_word(info);
    let code = crate::highlight::trim_newlines(literal);
    let shown = display_lines(r, code, lang);
    let indent = spaces(ctx.indent as nat);
    let gw = gutter_width(r, shown.len());
    let cw = content_width(r, ctx, gw);
    let label = code_label(r, lang);
    let top = sat_sub((cw + gw + 2) as usize, visible_width(label));
    if lines_of(code).len() == 1 {
        let p = paint_of(r.theme.code_border, "\u{2502} "@);
        let first = if shown.len() > 0 { shown[0] } else { Seq::<char>::empty() };
        assert(indent + p + first + nl() + nl() =~= indent + p + first + seq!['\n', '\n']);
    } else {
        let t = paint_of(r.theme.code_border, indent + "\u{256d}"@ + label + repeat_seq("\u{2500}"@, top as nat) + "\u{256e}"@);
        let m = code_lines_out(r, shown, indent, gw, cw, shown.len() as int);
        let b = paint_of(r.theme.code_border, indent + "\u{2570}"@ + repeat_seq("\u{2500}"@, (cw + gw + 2) as nat) + "\u{256f}"@);
        assert(t + nl() + m + (b + nl() + nl()) =~= t + seq!['\n'] + m + b + seq!['\n', '\n']);
    }
    if highlighted_code(r, code, lang) is None {
        assert(shown =~= lines_of(code).map_values(|l: Seq<char>| paint_of(r.theme.code_block, l)));
    }
}

/// A line number is right-aligned in its column: the number in decimal, after as many spaces
/// as it is narrower than the column.
pub proof fn lemma_number_right(n: nat, w: nat)
    ensures
        decimal(n).len() < w ==> number_right(n, w) == spaces((w - decimal(n).len()) as nat) + decimal(n),
        decimal(n).len() >= w ==> number_right(n, w) == decimal(n),
        number_right(n, w).len() == if decimal(n).len() < w { w } else { decimal(n).len() },
{
}

/// A paragraph is wrapped to the width left after its indent, each line indented and ended,
/// then a blank line; with wrapping off it is one indented line, then a blank line.
pub proof fn lemma_paragraph_layout(r: RendererView, ctx: Context, styled: Seq<char>)
    ensures
        r.options.wrap && r.options.width > 0 ==> paragraph_out(r, ctx, styled) == joined_lines(
            wrap_text_of(styled, sat_sub(r.options.width, ctx.indent) as nat),
            spaces(ctx.indent as nat),
        ) + seq!['\n'],
        !(r.options.wrap && r.options.width > 0) ==> paragraph_out(r, ctx, styled) == spaces(ctx.indent as nat)
            + styled + seq!['\n', '\n'],
        forall|lines: Seq<Seq<char>>, pre: Seq<char>|
            #![trigger joined_lines(lines, pre)]
            lines.len() > 0 ==> joined_lines(lines, pre) == joined_lines(lines.drop_last(), pre) + pre + lines.last()
                + seq!['\n'],
{
    assert(spaces(ctx.indent as nat) + styled + nl() + nl() =~= spaces(ctx.indent as nat) + styled + seq!['\n', '\n']);
}

/// A renderer for plain output uses the plain theme, whatever theme it is given; it highlights
/// code exactly when highlighting is on, with syntect's default theme.
pub proof fn lemma_renderer_setup(theme: Theme, options: RenderOptions)
    ensures
        options.plain ==> renderer_of(theme, options).theme == plain_theme_spec(),
        !options.plain ==> renderer_of(theme, options).theme == theme,
        renderer_of(theme, options).options == options,
        options.highlight ==> renderer_of(theme, options).highlighter == Some(default_theme_name()),
        !options.highlight ==> renderer_of(theme, options).highlighter is None,
        html_style(renderer_of(theme, options)) == (if options.plain {
            plain_style()
        } else {
            Style { dim: true, ..plain_style() }
        }),
{
}

/// The default options: 80 columns, wrapping, highlighting, code wrapping, Unicode table
/// borders and cell truncation on; line numbers, hyperlinks and plain output off.
pub proof fn lemma_default_options()
    ensures
        default_options().width == 80,
        default_options().wrap && default_options().highlight && default_options().code_wrap,
        default_options().table_border == BorderStyle::Unicode && default_options().table_truncate,
        !default_options().line_numbers && !default_options().hyperlinks && !default_options().plain,
{
}

/// A table is drawn in the width left after its indent, with the border style and cell
/// truncation of the options and the table styles of the theme, one space of padding and
/// columns of at most 40; each of its lines is indented, then comes a blank line.
pub proof fn lemma_table_layout(r: RendererView, d: Seq<NodeView>, i: int, ctx: Context)
    ensures
        table_config(r, ctx).max_width == sat_sub(r.options.width, ctx.indent),
        table_config(r, ctx).border_style == r.options.table_border,
        table_config(r, ctx).border_style_ansi == r.theme.table_border,
        table_config(r, ctx).header_style == r.theme.table_header,
        table_config(r, ctx).cell_style == r.theme.table_cell,
        table_config(r, ctx).truncate == r.options.table_truncate,
        table_config(r, ctx).padding == 1,
        table_config(r, ctx).max_col_width == 40,
        table_out(r, d, i, ctx) == joined_lines(
            render_table_of(
                TableView {
                    headers: table_rows(d, i, d[i].children.len() as int).0,
                    rows: table_rows(d, i, d[i].children.len() as int).1,
                    alignments: table_alignments(d, i),
                },
                table_config(r, ctx),
            ),
            spaces(ctx.indent as nat),
        ) + seq!['\n'],
{
}

/// A list item starts on a line of its own after the indent, its prefix and a space: its first
/// paragraph is wrapped to the width left after the prefix, later lines indented to line up
/// after it; its other blocks are indented past the prefix and one list deeper.
pub proof fn lemma_item_layout(r: RendererView, ctx: Context, prefix: Seq<char>, pw: usize, para: Seq<char>)
    ensures
        r.options.wrap && r.options.width > 0 ==> first_para_out(r, ctx, prefix, pw, para) == item_lines(
            wrap_text_of(para, sat_sub(r.options.width, sat_add(ctx.indent, pw)) as nat),
            spaces(ctx.indent as nat) + prefix + seq![' '],
            spaces(sat_add(ctx.indent, pw) as nat),
            wrap_text_of(para, sat_sub(r.options.width, sat_add(ctx.indent, pw)) as nat).len() as int,
        ),
        !(r.options.wrap && r.options.width > 0) ==> first_para_out(r, ctx, prefix, pw, para) == spaces(
            ctx.indent as nat,
        ) + prefix + seq![' '] + para + seq!['\n'],
        item_context(ctx, pw).indent == sat_add(ctx.indent, pw),
        item_context(ctx, pw).list_depth == sat_add(ctx.list_depth, 1),
        item_context(ctx, pw).in_blockquote == ctx.in_blockquote,
{
}

/// Raw HTML shows as written, in the raw-HTML style: inline HTML as one run, an HTML block line
/// by line, each line ended. A list shows its items in order, numbered on from its start when
/// ordered, followed by a blank line at the top level only.
pub proof fn lemma_html_and_list_forms(r: RendererView, d: Seq<NodeView>, i: int, ctx: Context)
    requires
        0 <= i < d.len(),
    ensures
        d[i].kind matches KindView::HtmlInline(h) ==> inline_out(r, d, i, ctx) == paint_of(html_style(r), h),
        d[i].kind matches KindView::HtmlBlock(l) ==> node_out(r, d, i, ctx) == painted_lines(lines_of(l), html_style(r)),
        forall|lines: Seq<Seq<char>>, st: Style|
            #![trigger painted_lines(lines, st)]
            lines.len() > 0 ==> painted_lines(lines, st) == painted_lines(lines.drop_last(), st) + paint_of(
                st,
                lines.last(),
            ) + seq!['\n'],
        d[i].kind matches KindView::List { ordered, start } ==> node_out(r, d, i, ctx) == list_out(
            r,
            d,
            i,
            ctx,
            ordered,
            start,
            d[i].children.len() as int,
        ) + (if ctx.list_depth == 0 { seq!['\n'] } else { Seq::empty() }),
        forall|ordered: bool, start: usize, n: int|
            #![trigger list_out(r, d, i, ctx, ordered, start, n)]
            0 < n <= d[i].children.len() ==> list_out(r, d, i, ctx, ordered, start, n) == list_out(
                r,
                d,
                i,
                ctx,
                ordered,
                start,
                n - 1,
            ) + (if d[i].children[n - 1] < i {
                item_out(r, d, d[i].children[n - 1] as int, ordered, item_number(ordered, start, (n - 1) as nat), ctx)
            } else {
                Seq::empty()
            }),
{
}

} // verus!
