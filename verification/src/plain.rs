//! Plain output: with the plain theme, no hyperlinks and no highlighting, rendering adds no
//! escape character to a document that holds none.

use vstd::prelude::*;
use crate::doc::{KindView, NodeView};
use crate::parser::{
    child_text, children_text, clean_doc_of, clean_kind, clean_of, collect_text_of, is_control,
    markdown_doc, row_is_header,
};
use crate::render::{
    Context, RenderOptions, RendererView, children_out, inline_children_out, inline_out,
    item_context, item_fold, item_number, item_out, list_out, node_out, render_doc_of,
    renderer_of, root_context, code_block_out, code_label, code_lines_out, content_width, display_lines,
    first_para_out, gutter_width, item_lines, item_prefix, joined_lines, link_out, number_right,
    paragraph_out, painted_lines, plain_theme_spec, render_of, row_cells, sat_add, sat_sub, table_config, table_out,
    table_rows, table_alignments, wrapped_code_out,
};
use crate::style::{Style, paint_of, plain_style};
use crate::theme::Theme;
use crate::table::{
    TableConfig, TableView, align_cell_of, boxed_cell_of, boxed_cells_of, boxed_row_of,
    boxed_rows_of, cell_at, col_widths_of, fit_cell, plain_header_cells, plain_row_cells,
    render_table_of, rule_of, rule_segments, underline_parts,
};
use crate::text::{
    decimal, digit_char, first_word, first_word_from, join_with, lines_from, lines_of, repeat_seq,
    strip_cr, trim_end_ws, trim_start_ws, trim_ws,
};
use crate::wrap::{lemma_wrap_adds_only_spaces, spaces, wrap_text_of};

verus! {

/// Whether a text holds no escape character.
pub open spec fn esc_free(s: Seq<char>) -> bool {
    forall|j: int| 0 <= j < s.len() ==> #[trigger] s[j] != '\x1b'
}

/// Whether every text of a list holds no escape character.
pub open spec fn all_esc_free(ls: Seq<Seq<char>>) -> bool {
    forall|k: int| 0 <= k < ls.len() ==> esc_free(#[trigger] ls[k])
}

/// Joining two texts without escape characters gives one without them.
pub broadcast proof fn lemma_esc_free_add(a: Seq<char>, b: Seq<char>)
    requires
        esc_free(a),
        esc_free(b),
    ensures
        #[trigger] esc_free(a + b),
{
    assert forall|j: int| 0 <= j < (a + b).len() implies #[trigger] (a + b)[j] != '\x1b' by {
        if j < a.len() {
            assert((a + b)[j] == a[j]);
        } else {
            assert((a + b)[j] == b[j - a.len()]);
        }
    }
}

proof fn lemma_esc_free_subrange(s: Seq<char>, a: int, b: int)
    requires
        esc_free(s),
        0 <= a <= b <= s.len(),
    ensures
        esc_free(s.subrange(a, b)),
{
    assert forall|j: int| 0 <= j < s.subrange(a, b).len() implies #[trigger] s.subrange(a, b)[j] != '\x1b' by {
        assert(s.subrange(a, b)[j] == s[a + j]);
    }
}

proof fn lemma_spaces_esc_free(n: nat)
    ensures
        esc_free(spaces(n)),
{
}

proof fn lemma_repeat_esc_free(s: Seq<char>, n: nat)
    requires
        esc_free(s),
    ensures
        esc_free(repeat_seq(s, n)),
    decreases n,
{
    broadcast use lemma_esc_free_add;

    if n > 0 {
        lemma_repeat_esc_free(s, (n - 1) as nat);
    }
}

proof fn lemma_decimal_esc_free(n: nat)
    ensures
        esc_free(decimal(n)),
    decreases n,
{
    broadcast use lemma_esc_free_add;

    if n >= 10 {
        lemma_decimal_esc_free(n / 10);
        assert(decimal(n / 10).push(digit_char(n % 10)) =~= decimal(n / 10) + seq![digit_char(n % 10)]);
    }
}

proof fn lemma_join_esc_free(parts: Seq<Seq<char>>, sep: Seq<char>)
    requires
        all_esc_free(parts),
        esc_free(sep),
    ensures
        esc_free(join_with(parts, sep)),
    decreases parts.len(),
{
    broadcast use lemma_esc_free_add;

    if parts.len() == 1 {
        assert(esc_free(parts[0]));
    } else if parts.len() > 1 {
        assert forall|k: int| 0 <= k < parts.drop_last().len() implies esc_free(#[trigger] parts.drop_last()[k]) by {
            assert(parts.drop_last()[k] == parts[k]);
        }
        lemma_join_esc_free(parts.drop_last(), sep);
        assert(esc_free(parts[parts.len() - 1]));
    }
}

proof fn lemma_trim_end_esc_free(s: Seq<char>)
    requires
        esc_free(s),
    ensures
        esc_free(trim_end_ws(s)),
    decreases s.len(),
{
    if s.len() > 0 && crate::text::is_ws(s.last()) {
        lemma_esc_free_subrange(s, 0, s.len() - 1);
        assert(s.drop_last() =~= s.subrange(0, s.len() - 1));
        lemma_trim_end_esc_free(s.drop_last());
    }
}

proof fn lemma_trim_start_esc_free(s: Seq<char>)
    requires
        esc_free(s),
    ensures
        esc_free(trim_start_ws(s)),
    decreases s.len(),
{
    if s.len() > 0 && crate::text::is_ws(s[0]) {
        lemma_esc_free_subrange(s, 1, s.len() as int);
        assert(s.drop_first() =~= s.subrange(1, s.len() as int));
        lemma_trim_start_esc_free(s.drop_first());
    }
}

proof fn lemma_trim_esc_free(s: Seq<char>)
    requires
        esc_free(s),
    ensures
        esc_free(trim_ws(s)),
{
    lemma_trim_end_esc_free(s);
    lemma_trim_start_esc_free(trim_end_ws(s));
}

proof fn lemma_push_esc_free(s: Seq<char>, c: char)
    requires
        esc_free(s),
        c != '\x1b',
    ensures
        esc_free(s.push(c)),
{
}

proof fn lemma_push_all_esc_free(ls: Seq<Seq<char>>, l: Seq<char>)
    requires
        all_esc_free(ls),
        esc_free(l),
    ensures
        all_esc_free(ls.push(l)),
{
    assert forall|k: int| 0 <= k < ls.push(l).len() implies esc_free(#[trigger] ls.push(l)[k]) by {
        if k < ls.len() {
            assert(ls.push(l)[k] == ls[k]);
        }
    }
}

proof fn lemma_lines_from_esc_free(s: Seq<char>, i: int, cur: Seq<char>, acc: Seq<Seq<char>>)
    requires
        esc_free(s),
        esc_free(cur),
        all_esc_free(acc),
    ensures
        all_esc_free(lines_from(s, i, cur, acc)),
    decreases s.len() - i,
{
    if i < 0 || i >= s.len() {
        if cur.len() > 0 {
            lemma_push_all_esc_free(acc, cur);
        }
    } else if s[i] == '\n' {
        assert(esc_free(strip_cr(cur))) by {
            if cur.len() > 0 && cur.last() == '\r' {
                lemma_esc_free_subrange(cur, 0, cur.len() - 1);
                assert(cur.drop_last() =~= cur.subrange(0, cur.len() - 1));
            }
        }
        lemma_push_all_esc_free(acc, strip_cr(cur));
        lemma_lines_from_esc_free(s, i + 1, Seq::empty(), acc.push(strip_cr(cur)));
    } else {
        lemma_lines_from_esc_free(s, i + 1, cur.push(s[i]), acc);
    }
}

proof fn lemma_lines_esc_free(s: Seq<char>)
    requires
        esc_free(s),
    ensures
        all_esc_free(lines_of(s)),
{
    lemma_lines_from_esc_free(s, 0, Seq::empty(), Seq::empty());
}

proof fn lemma_first_word_from_esc_free(s: Seq<char>, i: int, started: bool, acc: Seq<char>)
    requires
        esc_free(s),
        esc_free(acc),
    ensures
        esc_free(first_word_from(s, i, started, acc)),
    decreases s.len() - i,
{
    if 0 <= i < s.len() {
        if crate::text::is_ws(s[i]) {
            if !started {
                lemma_first_word_from_esc_free(s, i + 1, false, acc);
            }
        } else {
            lemma_first_word_from_esc_free(s, i + 1, true, acc.push(s[i]));
        }
    }
}

proof fn lemma_trim_newlines_esc_free(t: Seq<char>)
    requires
        esc_free(t),
    ensures
        esc_free(crate::highlight::trim_newlines(t)),
    decreases t.len(),
{
    if t.len() > 0 && t.last() == '\n' {
        lemma_esc_free_subrange(t, 0, t.len() - 1);
        assert(t.drop_last() =~= t.subrange(0, t.len() - 1));
        lemma_trim_newlines_esc_free(t.drop_last());
    }
}

proof fn lemma_wrap_esc_free(text: Seq<char>, max: nat)
    requires
        esc_free(text),
    ensures
        all_esc_free(wrap_text_of(text, max)),
{
    lemma_wrap_adds_only_spaces(text, max);
    let ls = wrap_text_of(text, max);
    assert forall|k: int| 0 <= k < ls.len() implies esc_free(#[trigger] ls[k]) by {
        assert(crate::wrap::drawn_from(ls[k], text));
        assert forall|j: int| 0 <= j < ls[k].len() implies #[trigger] ls[k][j] != '\x1b' by {
            if ls[k][j] != ' ' {
                assert(text.contains(ls[k][j]));
                let q = choose|q: int| 0 <= q < text.len() && text[q] == ls[k][j];
                assert(text[q] != '\x1b');
            }
        }
    }
}

proof fn lemma_align_esc_free(al: Seq<crate::table::TableAlignment>, content: Seq<char>, w: nat, col: int)
    requires
        esc_free(content),
    ensures
        esc_free(align_cell_of(al, content, w, col)),
{
    broadcast use lemma_esc_free_add;

    let v = crate::wrap::visible_width(content);
    if v < w {
        lemma_spaces_esc_free((w - v) as nat);
        let total = (w - v) as nat;
        lemma_spaces_esc_free(total / 2);
        lemma_spaces_esc_free((total - total / 2) as nat);
    }
}

/// The table styles of a configuration are all empty.
pub open spec fn plain_config(c: TableConfig) -> bool {
    c.border_style_ansi == plain_style() && c.header_style == plain_style() && c.cell_style == plain_style()
}

proof fn lemma_without_esc_free(s: Seq<char>)
    ensures
        esc_free(crate::wrap::without_esc(s)),
    decreases s.len(),
{
    if s.len() > 0 {
        lemma_without_esc_free(s.drop_last());
        let c = crate::wrap::without_esc(s.drop_last());
        if s.last() != '\x1b' {
            assert forall|j: int| 0 <= j < c.push(s.last()).len() implies #[trigger] c.push(s.last())[j] != '\x1b' by {
                if j < c.len() {
                    assert(c.push(s.last())[j] == c[j]);
                }
            }
        }
    }
}

/// A cell without escape characters keeps none when it is cut to its column.
proof fn lemma_fit_cell_esc_free(content: Seq<char>, w: nat, truncate: bool)
    requires
        esc_free(content),
    ensures
        esc_free(fit_cell(content, w, truncate)),
{
    if truncate && w > 0 && crate::wrap::visible_width(content) > w {
        let t = crate::wrap::without_esc(crate::wrap::ansi_stripped(content));
        lemma_without_esc_free(crate::wrap::ansi_stripped(content));
        let n = crate::wrap::trunc_count(t, 0, 0, w);
        crate::wrap::lemma_trunc_count_bounds(t, 0, 0, w);
        let cut = t.take(n);
        assert forall|j: int| 0 <= j < cut.push('\u{2026}').len() implies #[trigger] cut.push('\u{2026}')[j] != '\x1b' by {
            if j < cut.len() {
                assert(cut.push('\u{2026}')[j] == t[j]);
            }
        }
    }
}

/// Every header and cell of a table holds no escape character.
pub open spec fn table_esc_free(t: TableView) -> bool {
    all_esc_free(t.headers) && forall|r: int| 0 <= r < t.rows.len() ==> all_esc_free(#[trigger] t.rows[r])
}

proof fn lemma_boxed_row_esc_free(t: TableView, c: TableConfig, ws: Seq<nat>, cells: Seq<Seq<char>>, style: Style, bar: Seq<char>)
    requires
        plain_config(c),
        style == plain_style(),
        all_esc_free(cells),
        esc_free(bar),
    ensures
        esc_free(boxed_row_of(t, c, ws, cells, style, bar)),
{
    broadcast use lemma_esc_free_add;

    let parts = boxed_cells_of(t, c, ws, cells, style);
    assert forall|i: int| 0 <= i < parts.len() implies esc_free(#[trigger] parts[i]) by {
        let content = cell_at(cells, i);
        assert(esc_free(content));
        lemma_fit_cell_esc_free(content, ws[i], c.truncate);
        lemma_align_esc_free(t.alignments, fit_cell(content, ws[i], c.truncate), ws[i], i);
        lemma_spaces_esc_free(c.padding as nat);
        assert(parts[i] == boxed_cell_of(t, c, ws, cells, style, i));
    }
    lemma_join_esc_free(parts, paint_of(c.border_style_ansi, bar));
}

proof fn lemma_rule_esc_free(c: TableConfig, ws: Seq<nat>, left: Seq<char>, mid: Seq<char>, right: Seq<char>, unit: Seq<char>)
    requires
        plain_config(c),
        esc_free(left),
        esc_free(mid),
        esc_free(right),
        esc_free(unit),
    ensures
        esc_free(rule_of(c, ws, left, mid, right, unit)),
{
    broadcast use lemma_esc_free_add;

    let segs = rule_segments(ws, unit, c.padding as nat);
    assert forall|i: int| 0 <= i < segs.len() implies esc_free(#[trigger] segs[i]) by {
        lemma_repeat_esc_free(unit, ws[i] + c.padding as nat * 2);
    }
    lemma_join_esc_free(segs, mid);
}

/// A table whose cells hold no escape character is drawn without one, under a plain
/// configuration.
proof fn lemma_table_esc_free(t: TableView, c: TableConfig)
    requires
        plain_config(c),
        table_esc_free(t),
    ensures
        all_esc_free(render_table_of(t, c)),
{
    broadcast use lemma_esc_free_add;

    reveal_strlit("\u{2500}");
    reveal_strlit("\u{250c}");
    reveal_strlit("\u{252c}");
    reveal_strlit("\u{2510}");
    reveal_strlit("\u{2502}");
    reveal_strlit("\u{251c}");
    reveal_strlit("\u{253c}");
    reveal_strlit("\u{2524}");
    reveal_strlit("\u{2514}");
    reveal_strlit("\u{2534}");
    reveal_strlit("\u{2518}");
    reveal_strlit("+");
    reveal_strlit("-");
    reveal_strlit("|");
    reveal_strlit("  ");
    if t.headers.len() > 0 {
        let ws = col_widths_of(t, c);
        let out = render_table_of(t, c);
        match c.border_style {
            crate::table::BorderStyle::NoBorder => {
                let hc = plain_header_cells(t, c, ws);
                assert forall|i: int| 0 <= i < hc.len() implies esc_free(#[trigger] hc[i]) by {
                    assert(esc_free(t.headers[i]));
                    let wi = crate::table::width_at(ws, i);
                    lemma_fit_cell_esc_free(t.headers[i], wi, c.truncate);
                    lemma_align_esc_free(t.alignments, fit_cell(t.headers[i], wi, c.truncate), wi, i);
                }
                lemma_join_esc_free(hc, "  "@);
                let ul = underline_parts(c, ws);
                assert forall|i: int| 0 <= i < ul.len() implies esc_free(#[trigger] ul[i]) by {
                    lemma_repeat_esc_free("\u{2500}"@, ws[i]);
                }
                lemma_join_esc_free(ul, "  "@);
                assert forall|k: int| 0 <= k < out.len() implies esc_free(#[trigger] out[k]) by {
                    if k >= 2 {
                        let r = k - 2;
                        let rc = plain_row_cells(t, c, ws, t.rows[r]);
                        assert(all_esc_free(t.rows[r]));
                        assert forall|i: int| 0 <= i < rc.len() implies esc_free(#[trigger] rc[i]) by {
                            assert(esc_free(t.rows[r][i]));
                            let wi = crate::table::width_at(ws, i);
                            lemma_fit_cell_esc_free(t.rows[r][i], wi, c.truncate);
                            lemma_align_esc_free(t.alignments, fit_cell(t.rows[r][i], wi, c.truncate), wi, i);
                        }
                        lemma_join_esc_free(rc, "  "@);
                    }
                }
            },
            crate::table::BorderStyle::Unicode => {
                let h = "\u{2500}"@;
                lemma_rule_esc_free(c, ws, "\u{250c}"@, "\u{252c}"@, "\u{2510}"@, h);
                lemma_rule_esc_free(c, ws, "\u{251c}"@, "\u{253c}"@, "\u{2524}"@, h);
                lemma_rule_esc_free(c, ws, "\u{2514}"@, "\u{2534}"@, "\u{2518}"@, h);
                lemma_boxed_row_esc_free(t, c, ws, t.headers, c.header_style, "\u{2502}"@);
                let rows = boxed_rows_of(t, c, ws, "\u{2502}"@);
                assert forall|r: int| 0 <= r < rows.len() implies esc_free(#[trigger] rows[r]) by {
                    lemma_boxed_row_esc_free(t, c, ws, t.rows[r], c.cell_style, "\u{2502}"@);
                }
                assert forall|k: int| 0 <= k < out.len() implies esc_free(#[trigger] out[k]) by {
                    if 3 <= k < 3 + rows.len() {
                        assert(out[k] == rows[k - 3]);
                    }
                }
            },
            crate::table::BorderStyle::Ascii => {
                lemma_rule_esc_free(c, ws, "+"@, "+"@, "+"@, "-"@);
                lemma_boxed_row_esc_free(t, c, ws, t.headers, c.header_style, "|"@);
                let rows = boxed_rows_of(t, c, ws, "|"@);
                assert forall|r: int| 0 <= r < rows.len() implies esc_free(#[trigger] rows[r]) by {
                    lemma_boxed_row_esc_free(t, c, ws, t.rows[r], c.cell_style, "|"@);
                }
                assert forall|k: int| 0 <= k < out.len() implies esc_free(#[trigger] out[k]) by {
                    if 3 <= k < 3 + rows.len() {
                        assert(out[k] == rows[k - 3]);
                    }
                }
            },
        }
    }
}

/// The rendering set-up of plain output: the plain theme, no hyperlinks, no highlighter and
/// table cells kept whole.
pub open spec fn plain_setup(r: RendererView) -> bool {
    r.theme == plain_theme_spec() && r.options.plain && !r.options.hyperlinks && r.highlighter is None
}

/// A node that holds no escape character in its texts.
pub open spec fn kind_plain(k: KindView) -> bool {
    match k {
        KindView::Text(t) => esc_free(t),
        KindView::Code(c) => esc_free(c),
        KindView::CodeBlock { info, literal } => esc_free(info) && esc_free(literal),
        KindView::FootnoteDefinition(n) => esc_free(n),
        KindView::HtmlBlock(l) => esc_free(l),
        KindView::Link(u) => esc_free(u),
        KindView::Image(u) => esc_free(u),
        KindView::FootnoteReference(n) => esc_free(n),
        KindView::Math { literal, .. } => esc_free(literal),
        KindView::HtmlInline(h) => esc_free(h),
        KindView::ShortCode(c) => esc_free(c),
        _ => true,
    }
}

/// Every node of a document is plain.
pub open spec fn doc_plain(d: Seq<NodeView>) -> bool {
    forall|i: int| 0 <= i < d.len() ==> kind_plain(#[trigger] d[i].kind)
}

proof fn lemma_child_text_esc_free(d: Seq<NodeView>, i: int, k: int)
    requires
        doc_plain(d),
    ensures
        esc_free(child_text(d, i, k)),
    decreases i, 0int, 0int,
{
    if 0 <= i < d.len() && 0 <= k < d[i].children.len() && d[i].children[k] < i {
        lemma_collect_text_esc_free(d, d[i].children[k] as int);
    }
}

proof fn lemma_children_text_esc_free(d: Seq<NodeView>, i: int, n: int)
    requires
        doc_plain(d),
    ensures
        esc_free(children_text(d, i, n)),
    decreases i, 1int, n,
{
    broadcast use lemma_esc_free_add;

    if n > 0 {
        lemma_children_text_esc_free(d, i, n - 1);
        lemma_child_text_esc_free(d, i, n - 1);
    }
}

proof fn lemma_collect_text_esc_free(d: Seq<NodeView>, i: int)
    requires
        doc_plain(d),
    ensures
        esc_free(collect_text_of(d, i)),
    decreases i, 2int, 0int,
{
    if 0 <= i < d.len() {
        assert(kind_plain(d[i].kind));
        lemma_children_text_esc_free(d, i, d[i].children.len() as int);
    }
}

proof fn lemma_joined_lines_esc_free(lines: Seq<Seq<char>>, pre: Seq<char>)
    requires
        all_esc_free(lines),
        esc_free(pre),
    ensures
        esc_free(joined_lines(lines, pre)),
    decreases lines.len(),
{
    broadcast use lemma_esc_free_add;

    if lines.len() > 0 {
        assert forall|k: int| 0 <= k < lines.drop_last().len() implies esc_free(#[trigger] lines.drop_last()[k]) by {
            assert(lines.drop_last()[k] == lines[k]);
        }
        lemma_joined_lines_esc_free(lines.drop_last(), pre);
        assert(esc_free(lines[lines.len() - 1]));
    }
}

proof fn lemma_plain_lines_esc_free(lines: Seq<Seq<char>>)
    requires
        all_esc_free(lines),
    ensures
        esc_free(painted_lines(lines, plain_style())),
    decreases lines.len(),
{
    broadcast use lemma_esc_free_add;

    if lines.len() > 0 {
        assert forall|k: int| 0 <= k < lines.drop_last().len() implies esc_free(#[trigger] lines.drop_last()[k]) by {
            assert(lines.drop_last()[k] == lines[k]);
        }
        lemma_plain_lines_esc_free(lines.drop_last());
        assert(esc_free(lines[lines.len() - 1]));
    }
}

proof fn lemma_item_lines_esc_free(lines: Seq<Seq<char>>, first_pre: Seq<char>, rest_pre: Seq<char>, n: int)
    requires
        all_esc_free(lines),
        esc_free(first_pre),
        esc_free(rest_pre),
    ensures
        esc_free(item_lines(lines, first_pre, rest_pre, n)),
    decreases n,
{
    broadcast use lemma_esc_free_add;

    if 0 < n <= lines.len() {
        lemma_item_lines_esc_free(lines, first_pre, rest_pre, n - 1);
        assert(esc_free(lines[n - 1]));
    }
}

proof fn lemma_paragraph_esc_free(r: RendererView, ctx: Context, styled: Seq<char>)
    requires
        esc_free(styled),
    ensures
        esc_free(paragraph_out(r, ctx, styled)),
{
    broadcast use lemma_esc_free_add;

    lemma_spaces_esc_free(ctx.indent as nat);
    lemma_wrap_esc_free(styled, sat_sub(r.options.width, ctx.indent) as nat);
    lemma_joined_lines_esc_free(
        wrap_text_of(styled, sat_sub(r.options.width, ctx.indent) as nat),
        spaces(ctx.indent as nat),
    );
}

proof fn lemma_code_block_esc_free(r: RendererView, literal: Seq<char>, info: Seq<char>, ctx: Context)
    requires
        plain_setup(r),
        esc_free(literal),
        esc_free(info),
    ensures
        esc_free(code_block_out(r, literal, info, ctx)),
{
    broadcast use lemma_esc_free_add;

    reveal_strlit("\u{2502} ");
    reveal_strlit(" \u{2502}");
    reveal_strlit("\u{256d}");
    reveal_strlit("\u{256e}");
    reveal_strlit("\u{2570}");
    reveal_strlit("\u{256f}");
    reveal_strlit("\u{2500}");
    let lang = first_word(info);
    lemma_first_word_from_esc_free(info, 0, false, Seq::empty());
    let code = crate::highlight::trim_newlines(literal);
    lemma_trim_newlines_esc_free(literal);
    lemma_lines_esc_free(code);
    let shown = display_lines(r, code, lang);
    assert(all_esc_free(shown)) by {
        assert forall|k: int| 0 <= k < shown.len() implies esc_free(#[trigger] shown[k]) by {
            assert(shown[k] == paint_of(r.theme.code_block, lines_of(code)[k]));
            assert(esc_free(lines_of(code)[k]));
        }
    }
    let indent = spaces(ctx.indent as nat);
    lemma_spaces_esc_free(ctx.indent as nat);
    if lines_of(code).len() != 1 {
        let gw = gutter_width(r, shown.len());
        let cw = content_width(r, ctx, gw);
        let label = code_label(r, lang);
        let top = sat_sub((cw + gw + 2) as usize, crate::wrap::visible_width(label));
        lemma_repeat_esc_free("\u{2500}"@, top as nat);
        lemma_repeat_esc_free("\u{2500}"@, (cw + gw + 2) as nat);
        lemma_code_lines_esc_free(r, shown, indent, gw, cw, shown.len() as int);
    }
}

proof fn lemma_code_lines_esc_free(r: RendererView, lines: Seq<Seq<char>>, indent: Seq<char>, gw: usize, cw: usize, n: int)
    requires
        plain_setup(r),
        all_esc_free(lines),
        esc_free(indent),
    ensures
        esc_free(code_lines_out(r, lines, indent, gw, cw, n)),
    decreases n,
{
    broadcast use lemma_esc_free_add;

    reveal_strlit("\u{2502} ");
    reveal_strlit(" \u{2502}");
    if 0 < n <= lines.len() {
        lemma_code_lines_esc_free(r, lines, indent, gw, cw, n - 1);
        let line = lines[n - 1];
        assert(esc_free(line));
        let k = (n - 1) as nat;
        crate::plain::lemma_decimal_esc_free(k + 1);
        lemma_spaces_esc_free(((gw - 1) as nat - decimal(k + 1).len()) as nat);
        let gutter = if r.options.line_numbers {
            paint_of(r.theme.code_line_number, number_right(k + 1, (gw - 1) as nat) + seq![' '])
        } else {
            Seq::empty()
        };
        assert(esc_free(gutter));
        if r.options.code_wrap && cw > 0 {
            let pieces = wrap_text_of(line, cw as nat);
            lemma_wrap_esc_free(line, cw as nat);
            lemma_wrapped_code_esc_free(r, pieces, indent, gutter, gw, cw, pieces.len() as int);
        }
    }
}

proof fn lemma_wrapped_code_esc_free(
    r: RendererView,
    pieces: Seq<Seq<char>>,
    indent: Seq<char>,
    gutter: Seq<char>,
    gw: usize,
    cw: usize,
    n: int,
)
    requires
        plain_setup(r),
        all_esc_free(pieces),
        esc_free(indent),
        esc_free(gutter),
    ensures
        esc_free(wrapped_code_out(r, pieces, indent, gutter, gw, cw, n)),
    decreases n,
{
    broadcast use lemma_esc_free_add;

    reveal_strlit("\u{2502} ");
    reveal_strlit(" \u{2502}");
    if 0 < n <= pieces.len() {
        lemma_wrapped_code_esc_free(r, pieces, indent, gutter, gw, cw, n - 1);
        assert(esc_free(pieces[n - 1]));
        lemma_spaces_esc_free(gw as nat);
        let used = sat_add(gw, crate::wrap::visible_width(pieces[n - 1]));
        lemma_spaces_esc_free((cw + gw - used) as nat);
    }
}

proof fn lemma_table_out_esc_free(r: RendererView, d: Seq<NodeView>, i: int, ctx: Context)
    requires
        plain_setup(r),
        doc_plain(d),
        0 <= i < d.len(),
    ensures
        esc_free(table_out(r, d, i, ctx)),
{
    broadcast use lemma_esc_free_add;

    let rows = table_rows(d, i, d[i].children.len() as int);
    lemma_table_rows_esc_free(d, i, d[i].children.len() as int);
    let t = TableView { headers: rows.0, rows: rows.1, alignments: table_alignments(d, i) };
    lemma_table_esc_free(t, table_config(r, ctx));
    lemma_spaces_esc_free(ctx.indent as nat);
    lemma_joined_lines_esc_free(render_table_of(t, table_config(r, ctx)), spaces(ctx.indent as nat));
}

proof fn lemma_row_cells_esc_free(d: Seq<NodeView>, row: int, m: int)
    requires
        doc_plain(d),
    ensures
        all_esc_free(row_cells(d, row, m)),
    decreases m,
{
    if 0 < m && 0 <= row < d.len() && m <= d[row].children.len() {
        lemma_row_cells_esc_free(d, row, m - 1);
        let cell = d[row].children[m - 1] as int;
        if cell < row {
            lemma_collect_text_esc_free(d, cell);
            lemma_push_all_esc_free(row_cells(d, row, m - 1), collect_text_of(d, cell));
        }
    }
}

proof fn lemma_table_rows_esc_free(d: Seq<NodeView>, i: int, n: int)
    requires
        doc_plain(d),
    ensures
        all_esc_free(table_rows(d, i, n).0),
        forall|q: int| 0 <= q < table_rows(d, i, n).1.len() ==> all_esc_free(#[trigger] table_rows(d, i, n).1[q]),
    decreases n,
{
    if 0 < n && 0 <= i < d.len() && n <= d[i].children.len() {
        lemma_table_rows_esc_free(d, i, n - 1);
        let (h, rows) = table_rows(d, i, n - 1);
        let row = d[i].children[n - 1] as int;
        if row < i {
            let cells = row_cells(d, row, d[row].children.len() as int);
            lemma_row_cells_esc_free(d, row, d[row].children.len() as int);
            if !row_is_header(d, i, n - 1) {
                let rs = rows.push(cells);
                assert forall|q: int| 0 <= q < rs.len() implies all_esc_free(#[trigger] rs[q]) by {
                    if q < rows.len() {
                        assert(rs[q] == rows[q]);
                    } else {
                        assert(rs[q] == cells);
                    }
                }
            }
        }
    }
}

proof fn lemma_link_esc_free(r: RendererView, text: Seq<char>, url: Seq<char>)
    requires
        plain_setup(r),
        esc_free(text),
        esc_free(url),
    ensures
        esc_free(link_out(r, text, url)),
{
    broadcast use lemma_esc_free_add;

}

proof fn lemma_item_prefix_esc_free(r: RendererView, d: Seq<NodeView>, c: int, ordered: bool, index: usize)
    requires
        plain_setup(r),
    ensures
        esc_free(item_prefix(r, d, c, ordered, index)),
{
    broadcast use lemma_esc_free_add;

    reveal_strlit("\u{2022}");
    reveal_strlit("[x]");
    reveal_strlit("[ ]");
    lemma_decimal_esc_free(index as nat);
}

proof fn lemma_first_para_esc_free(r: RendererView, ctx: Context, prefix: Seq<char>, pw: usize, para: Seq<char>)
    requires
        esc_free(prefix),
        esc_free(para),
    ensures
        esc_free(first_para_out(r, ctx, prefix, pw, para)),
{
    broadcast use lemma_esc_free_add;

    lemma_spaces_esc_free(ctx.indent as nat);
    let ci = sat_add(ctx.indent, pw);
    lemma_spaces_esc_free(ci as nat);
    lemma_wrap_esc_free(para, sat_sub(r.options.width, ci) as nat);
    let lines = wrap_text_of(para, sat_sub(r.options.width, ci) as nat);
    lemma_item_lines_esc_free(lines, spaces(ctx.indent as nat) + prefix + seq![' '], spaces(ci as nat), lines.len() as int);
}

proof fn lemma_inline_esc_free(r: RendererView, d: Seq<NodeView>, i: int, ctx: Context)
    requires
        plain_setup(r),
        doc_plain(d),
    ensures
        esc_free(inline_out(r, d, i, ctx)),
    decreases i, 3int, 0int,
{
    broadcast use lemma_esc_free_add;

    reveal_strlit("[image: ");
    reveal_strlit("[^");
    reveal_strlit("$$");
    reveal_strlit("$");
    if 0 <= i < d.len() {
        let n = d[i].children.len() as int;
        assert(kind_plain(d[i].kind));
        lemma_inline_children_esc_free(r, d, i, ctx, n);
        match d[i].kind {
            KindView::Link(url) => {
                lemma_link_esc_free(r, inline_children_out(r, d, i, ctx, n), url);
            },
            KindView::Image(url) => {
                lemma_collect_text_esc_free(d, i);
            },
            _ => {},
        }
    }
}

proof fn lemma_inline_children_esc_free(r: RendererView, d: Seq<NodeView>, i: int, ctx: Context, n: int)
    requires
        plain_setup(r),
        doc_plain(d),
    ensures
        esc_free(inline_children_out(r, d, i, ctx, n)),
    decreases i, 2int, n,
{
    broadcast use lemma_esc_free_add;

    if n > 0 && 0 <= i < d.len() && n <= d[i].children.len() {
        lemma_inline_children_esc_free(r, d, i, ctx, n - 1);
        let c = d[i].children[n - 1] as int;
        if c < i {
            lemma_inline_esc_free(r, d, c, ctx);
        }
    }
}

proof fn lemma_children_esc_free(r: RendererView, d: Seq<NodeView>, i: int, ctx: Context, n: int)
    requires
        plain_setup(r),
        doc_plain(d),
    ensures
        esc_free(children_out(r, d, i, ctx, n)),
    decreases i, 4int, n,
{
    broadcast use lemma_esc_free_add;

    if n > 0 && 0 <= i < d.len() && n <= d[i].children.len() {
        lemma_children_esc_free(r, d, i, ctx, n - 1);
        let c = d[i].children[n - 1] as int;
        if c < i {
            lemma_node_esc_free(r, d, c, ctx);
        }
    }
}

proof fn lemma_list_esc_free(r: RendererView, d: Seq<NodeView>, i: int, ctx: Context, ordered: bool, start: usize, n: int)
    requires
        plain_setup(r),
        doc_plain(d),
    ensures
        esc_free(list_out(r, d, i, ctx, ordered, start, n)),
    decreases i, 4int, n,
{
    broadcast use lemma_esc_free_add;

    if n > 0 && 0 <= i < d.len() && n <= d[i].children.len() {
        lemma_list_esc_free(r, d, i, ctx, ordered, start, n - 1);
        let c = d[i].children[n - 1] as int;
        if c < i {
            lemma_item_esc_free(r, d, c, ordered, item_number(ordered, start, (n - 1) as nat), ctx);
        }
    }
}

proof fn lemma_item_fold_esc_free(
    r: RendererView,
    d: Seq<NodeView>,
    c: int,
    ctx: Context,
    prefix: Seq<char>,
    pw: usize,
    n: int,
)
    requires
        plain_setup(r),
        doc_plain(d),
        esc_free(prefix),
    ensures
        esc_free(item_fold(r, d, c, ctx, prefix, pw, n).0),
    decreases c, 4int, n,
{
    broadcast use lemma_esc_free_add;

    if n > 0 && 0 <= c < d.len() && n <= d[c].children.len() {
        lemma_item_fold_esc_free(r, d, c, ctx, prefix, pw, n - 1);
        let ch = d[c].children[n - 1] as int;
        let cctx = item_context(ctx, pw);
        if ch < c {
            lemma_node_esc_free(r, d, ch, cctx);
            lemma_inline_children_esc_free(r, d, ch, cctx, d[ch].children.len() as int);
            lemma_first_para_esc_free(
                r,
                ctx,
                prefix,
                pw,
                inline_children_out(r, d, ch, cctx, d[ch].children.len() as int),
            );
            lemma_spaces_esc_free(ctx.indent as nat);
            lemma_trim_start_esc_free(node_out(r, d, ch, cctx));
        }
    }
}

proof fn lemma_item_esc_free(r: RendererView, d: Seq<NodeView>, c: int, ordered: bool, index: usize, ctx: Context)
    requires
        plain_setup(r),
        doc_plain(d),
    ensures
        esc_free(item_out(r, d, c, ordered, index, ctx)),
    decreases c, 5int, 0int,
{
    if 0 <= c < d.len() {
        let prefix = item_prefix(r, d, c, ordered, index);
        lemma_item_prefix_esc_free(r, d, c, ordered, index);
        let pw = sat_add(crate::wrap::visible_width(prefix), 1);
        lemma_item_fold_esc_free(r, d, c, ctx, prefix, pw, d[c].children.len() as int);
    }
}

proof fn lemma_node_esc_free(r: RendererView, d: Seq<NodeView>, i: int, ctx: Context)
    requires
        plain_setup(r),
        doc_plain(d),
    ensures
        esc_free(node_out(r, d, i, ctx)),
    decreases i, 5int, 0int,
{
    broadcast use lemma_esc_free_add;

    reveal_strlit("#");
    reveal_strlit("\u{2502}");
    reveal_strlit("\u{2500}");
    reveal_strlit("[^");
    reveal_strlit("]: ");
    if 0 <= i < d.len() {
        let n = d[i].children.len() as int;
        assert(kind_plain(d[i].kind));
        lemma_spaces_esc_free(ctx.indent as nat);
        match d[i].kind {
            KindView::Paragraph => {
                lemma_inline_children_esc_free(r, d, i, ctx, n);
                lemma_paragraph_esc_free(r, ctx, inline_children_out(r, d, i, ctx, n));
            },
            KindView::Heading(level) => {
                lemma_collect_text_esc_free(d, i);
                lemma_repeat_esc_free("#"@, level as nat);
            },
            KindView::CodeBlock { info, literal } => {
                lemma_code_block_esc_free(r, literal, info, ctx);
            },
            KindView::BlockQuote => {
                let qctx = Context { in_blockquote: true, ..ctx };
                lemma_children_esc_free(r, d, i, qctx, n);
                lemma_lines_esc_free(children_out(r, d, i, qctx, n));
                lemma_joined_lines_esc_free(
                    lines_of(children_out(r, d, i, qctx, n)),
                    spaces(ctx.indent as nat) + paint_of(r.theme.blockquote_bar, "\u{2502}"@) + seq![' '],
                );
            },
            KindView::List { ordered, start } => {
                lemma_list_esc_free(r, d, i, ctx, ordered, start, n);
            },
            KindView::ThematicBreak => {
                let w = sat_sub(r.options.width, ctx.indent);
                lemma_repeat_esc_free("\u{2500}"@, if w < 40 { w as nat } else { 40 });
            },
            KindView::Table => {
                lemma_table_out_esc_free(r, d, i, ctx);
            },
            KindView::FootnoteDefinition(name) => {
                lemma_children_esc_free(r, d, i, ctx, n);
                lemma_trim_esc_free(children_out(r, d, i, ctx, n));
            },
            KindView::HtmlBlock(literal) => {
                lemma_lines_esc_free(literal);
                lemma_plain_lines_esc_free(lines_of(literal));
            },
            KindView::Text(_) | KindView::Code(_) | KindView::Emph | KindView::Strong
            | KindView::Strikethrough | KindView::Link(_) | KindView::Image(_) | KindView::SoftBreak
            | KindView::LineBreak | KindView::FootnoteReference(_) | KindView::Math { .. }
            | KindView::ShortCode(_) => {
                lemma_inline_esc_free(r, d, i, ctx);
            },
            _ => {
                lemma_children_esc_free(r, d, i, ctx, n);
            },
        }
    }
}

/// Plain output holds no escape character: with plain output on and hyperlinks and
/// highlighting off, a document whose texts hold none renders without one.
pub proof fn lemma_plain_output_has_no_escapes(theme: Theme, options: RenderOptions, d: Seq<NodeView>)
    requires
        options.plain,
        !options.highlight,
        !options.hyperlinks,
        doc_plain(d),
    ensures
        esc_free(render_doc_of(renderer_of(theme, options), d)),
{
    broadcast use lemma_esc_free_add;

    let r = renderer_of(theme, options);
    if d.len() > 0 {
        lemma_node_esc_free(r, d, d.len() - 1, root_context());
        lemma_trim_end_esc_free(node_out(r, d, d.len() - 1, root_context()));
    } else {
        lemma_trim_end_esc_free(Seq::empty());
    }
}

proof fn lemma_clean_esc_free(s: Seq<char>)
    ensures
        esc_free(clean_of(s)),
{
    crate::parser::lemma_clean_is_control_free(s);
    assert(is_control('\x1b')) by {
        assert(('\x1b' as u32) == 27);
    }
}

proof fn lemma_clean_doc_plain(d: Seq<NodeView>)
    ensures
        doc_plain(clean_doc_of(d)),
{
    assert forall|i: int| 0 <= i < clean_doc_of(d).len() implies kind_plain(#[trigger] clean_doc_of(d)[i].kind) by {
        let k = d[i].kind;
        assert(clean_doc_of(d)[i].kind == clean_kind(k));
        match k {
            KindView::CodeBlock { info, literal } => {
                lemma_clean_esc_free(info);
                lemma_clean_esc_free(literal);
            },
            KindView::FootnoteDefinition(n) => lemma_clean_esc_free(n),
            KindView::HtmlBlock(l) => lemma_clean_esc_free(l),
            KindView::Text(t) => lemma_clean_esc_free(t),
            KindView::Code(c) => lemma_clean_esc_free(c),
            KindView::Link(u) => lemma_clean_esc_free(u),
            KindView::Image(u) => lemma_clean_esc_free(u),
            KindView::FootnoteReference(n) => lemma_clean_esc_free(n),
            KindView::Math { literal, .. } => lemma_clean_esc_free(literal),
            KindView::HtmlInline(h) => lemma_clean_esc_free(h),
            KindView::ShortCode(c) => lemma_clean_esc_free(c),
            _ => {},
        }
    }
}

/// Plain output holds no ANSI escape: with plain output on and hyperlinks and highlighting off,
/// any Markdown text renders without an escape character, whatever escapes the text itself
/// holds.
pub proof fn lemma_plain_render_has_no_escapes(theme: Theme, options: RenderOptions, md: Seq<char>)
    requires
        options.plain,
        !options.highlight,
        !options.hyperlinks,
    ensures
        esc_free(render_of(renderer_of(theme, options), md)),
{
    let x = crate::parser::doc_of_xml(md, crate::parser::commonmark_xml(md, crate::parser::markdown_flags()));
    lemma_clean_doc_plain(x);
    lemma_plain_output_has_no_escapes(theme, options, markdown_doc(md));
}

} // verus!
