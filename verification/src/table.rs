//! GFM table layout: column widths and box-drawn rows.

use vstd::prelude::*;
use crate::style::{Style, paint_of, plain_style};
use crate::text::{join_strings, join_with, repeat_seq, repeat_str, string_views};
use crate::wrap::{
    center_in_width, center_in_width_of, pad_to_width, pad_to_width_of, right_align_in_width,
    right_align_in_width_of, spaces, spaces_string, truncate_to_width, truncate_to_width_of,
    visible_width, visible_width_of,
};

verus! {

/// Table border style.
#[derive(Debug, Clone, Copy, PartialEq, Eq, Structural)]
pub enum BorderStyle {
    Unicode,
    Ascii,
    NoBorder,
}

/// How the cells of a column are aligned.
#[derive(Debug, Clone, Copy, PartialEq, Eq, Structural)]
pub enum TableAlignment {
    Unaligned,
    Left,
    Center,
    Right,
}

/// Configuration for table rendering.
#[derive(Debug, Clone, Copy)]
pub struct TableConfig {
    pub max_width: usize,
    pub border_style: BorderStyle,
    pub border_style_ansi: Style,
    pub header_style: Style,
    pub cell_style: Style,
    pub padding: usize,
    pub truncate: bool,
    pub max_col_width: usize,
}

impl Default for TableConfig {
    fn default() -> (c: TableConfig)
        ensures
            c == (TableConfig {
                max_width: 80,
                border_style: BorderStyle::Unicode,
                border_style_ansi: Style { dim: true, ..plain_style() },
                header_style: Style { bold: true, ..plain_style() },
                cell_style: plain_style(),
                padding: 1,
                truncate: true,
                max_col_width: 40,
            }),
    {
        TableConfig {
            max_width: 80,
            border_style: BorderStyle::Unicode,
            border_style_ansi: Style::new().dim(),
            header_style: Style::new().bold(),
            cell_style: Style::new(),
            padding: 1,
            truncate: true,
            max_col_width: 40,
        }
    }
}

/// A parsed table ready for rendering.
#[derive(Debug)]
pub struct Table {
    pub headers: Vec<String>,
    pub rows: Vec<Vec<String>>,
    pub alignments: Vec<TableAlignment>,
}

/// The narrowest a column gets.
pub open spec fn min_col() -> nat {
    3
}

/// The width a cell asks for: its visible width, capped at `max_col`, at least the minimum.
pub open spec fn natural_width(cell: Seq<char>, max_col: nat) -> nat {
    let capped = if visible_width(cell) <= max_col { visible_width(cell) as nat } else { max_col };
    if capped >= min_col() { capped } else { min_col() }
}

/// The larger of two numbers.
pub open spec fn max_nat(a: nat, b: nat) -> nat {
    if a >= b { a } else { b }
}

/// The widths the header cells ask for.
pub open spec fn header_widths(headers: Seq<Seq<char>>, max_col: nat) -> Seq<nat> {
    Seq::new(headers.len(), |i: int| natural_width(headers[i], max_col))
}

/// Widths widened to fit a row; cells beyond the header's columns are ignored.
pub open spec fn widen_row(widths: Seq<nat>, row: Seq<Seq<char>>, max_col: nat) -> Seq<nat> {
    Seq::new(
        widths.len(),
        |i: int|
            if i < row.len() {
                max_nat(widths[i], natural_width(row[i], max_col))
            } else {
                widths[i]
            },
    )
}

/// Widths widened to fit every row, in order.
pub open spec fn widen_rows(widths: Seq<nat>, rows: Seq<Seq<Seq<char>>>, max_col: nat) -> Seq<nat>
    decreases rows.len(),
{
    if rows.len() == 0 {
        widths
    } else {
        widen_row(widen_rows(widths, rows.drop_last(), max_col), rows.last(), max_col)
    }
}

/// The sum of a list of widths.
pub open spec fn sum(ws: Seq<nat>) -> nat
    decreases ws.len(),
{
    if ws.len() == 0 {
        0
    } else {
        sum(ws.drop_last()) + ws.last()
    }
}

/// The largest of a list of widths, or 0.
pub open spec fn max_of(ws: Seq<nat>) -> nat
    decreases ws.len(),
{
    if ws.len() == 0 {
        0
    } else {
        max_nat(max_of(ws.drop_last()), ws.last())
    }
}

/// One shrinking round: every column at the current maximum loses a column, down to the
/// minimum.
pub open spec fn shrink_once(ws: Seq<nat>) -> Seq<nat> {
    Seq::new(
        ws.len(),
        |i: int|
            if ws[i] == max_of(ws) {
                max_nat((ws[i] - 1) as nat, min_col())
            } else {
                ws[i]
            },
    )
}

/// Up to `rounds` shrinking rounds, stopping once the widths fit `budget` or nothing can shrink.
pub open spec fn shrink(ws: Seq<nat>, budget: nat, rounds: nat) -> Seq<nat>
    decreases rounds,
{
    if rounds == 0 || sum(ws) <= budget || max_of(ws) <= min_col() {
        ws
    } else {
        shrink(shrink_once(ws), budget, (rounds - 1) as nat)
    }
}

/// The room left for cell content once borders and padding are taken off.
pub open spec fn content_budget(max_width: nat, cols: nat, padding: nat) -> nat {
    let overhead = cols + 1 + cols * padding * 2;
    if max_width >= overhead { (max_width - overhead) as nat } else { 0 }
}

/// The widths cells ask for, over the header and every row.
pub open spec fn natural_widths(t: TableView, max_col: nat) -> Seq<nat> {
    widen_rows(header_widths(t.headers, max_col), t.rows, max_col)
}

/// The column widths of a table: the widths its cells ask for, shrunk widest-first (at most
/// one hundred rounds) until they fit the room the terminal leaves.
pub open spec fn col_widths_of(t: TableView, c: TableConfig) -> Seq<nat> {
    shrink(
        natural_widths(t, c.max_col_width as nat),
        content_budget(c.max_width as nat, t.headers.len(), c.padding as nat),
        100,
    )
}

/// A table as plain character sequences.
pub struct TableView {
    pub headers: Seq<Seq<char>>,
    pub rows: Seq<Seq<Seq<char>>>,
    pub alignments: Seq<TableAlignment>,
}

impl View for Table {
    type V = TableView;

    open spec fn view(&self) -> TableView {
        TableView {
            headers: string_views(self.headers@),
            rows: self.rows@.map_values(|r: Vec<String>| string_views(r@)),
            alignments: self.alignments@,
        }
    }
}

/// The widths of an executable width list.
pub open spec fn nats(v: Seq<usize>) -> Seq<nat> {
    v.map_values(|x: usize| x as nat)
}

proof fn lemma_max_of_bounds(ws: Seq<nat>)
    ensures
        forall|i: int| 0 <= i < ws.len() ==> #[trigger] ws[i] <= max_of(ws),
    decreases ws.len(),
{
    if ws.len() > 0 {
        lemma_max_of_bounds(ws.drop_last());
        assert forall|i: int| 0 <= i < ws.len() implies #[trigger] ws[i] <= max_of(ws) by {
            if i < ws.len() - 1 {
                assert(ws[i] == ws.drop_last()[i]);
            }
        }
    }
}

proof fn lemma_max_of_le(ws: Seq<nat>, b: nat)
    requires
        forall|i: int| 0 <= i < ws.len() ==> #[trigger] ws[i] <= b,
    ensures
        max_of(ws) <= b,
    decreases ws.len(),
{
    if ws.len() > 0 {
        assert forall|i: int| 0 <= i < ws.drop_last().len() implies #[trigger] ws.drop_last()[i]
            <= b by {
            assert(ws.drop_last()[i] == ws[i]);
        }
        lemma_max_of_le(ws.drop_last(), b);
    }
}

proof fn lemma_shrink_once(ws: Seq<nat>)
    requires
        forall|i: int| 0 <= i < ws.len() ==> #[trigger] ws[i] >= min_col(),
        max_of(ws) > min_col(),
    ensures
        shrink_once(ws).len() == ws.len(),
        forall|i: int|
            0 <= i < ws.len() ==> min_col() <= #[trigger] shrink_once(ws)[i] <= ws[i],
        max_of(shrink_once(ws)) + 1 <= max_of(ws),
{
    lemma_max_of_bounds(ws);
    let m = max_of(ws);
    assert forall|i: int| 0 <= i < ws.len() implies #[trigger] shrink_once(ws)[i] <= (m - 1) as nat by {
        assert(ws[i] <= m);
    }
    lemma_max_of_le(shrink_once(ws), (m - 1) as nat);
}

proof fn lemma_shrink(ws: Seq<nat>, b: nat, k: nat)
    requires
        forall|i: int| 0 <= i < ws.len() ==> #[trigger] ws[i] >= min_col(),
    ensures
        shrink(ws, b, k).len() == ws.len(),
        forall|i: int| 0 <= i < ws.len() ==> min_col() <= #[trigger] shrink(ws, b, k)[i] <= ws[i],
        sum(shrink(ws, b, k)) <= b || max_of(shrink(ws, b, k)) <= min_col() || max_of(
            shrink(ws, b, k),
        ) + k <= max_of(ws),
    decreases k,
{
    if k == 0 || sum(ws) <= b || max_of(ws) <= min_col() {
    } else {
        lemma_shrink_once(ws);
        let next = shrink_once(ws);
        lemma_shrink(next, b, (k - 1) as nat);
        assert forall|i: int| 0 <= i < ws.len() implies min_col() <= #[trigger] shrink(ws, b, k)[i]
            <= ws[i] by {
            assert(shrink(next, b, (k - 1) as nat)[i] <= next[i]);
        }
    }
}

proof fn lemma_natural_widths_min(t: TableView, max_col: nat)
    ensures
        natural_widths(t, max_col).len() == t.headers.len(),
        forall|i: int|
            0 <= i < t.headers.len() ==> #[trigger] natural_widths(t, max_col)[i] >= min_col(),
{
    lemma_widen_rows_min(header_widths(t.headers, max_col), t.rows, max_col);
}

proof fn lemma_widen_rows_min(ws: Seq<nat>, rows: Seq<Seq<Seq<char>>>, max_col: nat)
    requires
        forall|i: int| 0 <= i < ws.len() ==> #[trigger] ws[i] >= min_col(),
    ensures
        widen_rows(ws, rows, max_col).len() == ws.len(),
        forall|i: int| 0 <= i < ws.len() ==> #[trigger] widen_rows(ws, rows, max_col)[i] >= min_col(),
    decreases rows.len(),
{
    if rows.len() > 0 {
        lemma_widen_rows_min(ws, rows.drop_last(), max_col);
    }
}

/// Column widths stay between the minimum of three columns and what the column's cells ask
/// for, and they shrink until the table fits the terminal or every column is at the minimum
/// (where no column asks for more than 103 columns, which the hundred shrinking rounds can
/// bring down to the minimum).
pub proof fn lemma_col_widths(t: TableView, c: TableConfig)
    ensures
        col_widths_of(t, c).len() == t.headers.len(),
        forall|i: int|
            0 <= i < t.headers.len() ==> min_col() <= #[trigger] col_widths_of(t, c)[i]
                <= natural_widths(t, c.max_col_width as nat)[i],
        max_of(natural_widths(t, c.max_col_width as nat)) <= 103 ==> sum(col_widths_of(t, c))
            <= content_budget(c.max_width as nat, t.headers.len(), c.padding as nat) || forall|
            i: int,
        |
            0 <= i < t.headers.len() ==> #[trigger] col_widths_of(t, c)[i] == min_col(),
{
    let nat_w = natural_widths(t, c.max_col_width as nat);
    let b = content_budget(c.max_width as nat, t.headers.len(), c.padding as nat);
    lemma_natural_widths_min(t, c.max_col_width as nat);
    lemma_shrink(nat_w, b, 100);
    let res = shrink(nat_w, b, 100);
    lemma_max_of_bounds(res);
    if max_of(nat_w) <= 103 && sum(res) > b {
        assert forall|i: int| 0 <= i < t.headers.len() implies #[trigger] res[i] == min_col() by {
            assert(res[i] <= max_of(res));
        }
    }
}

fn natural_width_exec(cell: &str, max_col: usize) -> (w: usize)
    ensures
        w == natural_width(cell@, max_col as nat),
{
    let v = visible_width_of(cell);
    let capped = if v <= max_col { v } else { max_col };
    if capped >= 3 { capped } else { 3 }
}

fn sum_widths(ws: &Vec<usize>) -> (total: u128)
    ensures
        total == sum(nats(ws@)),
{
    let mut total: u128 = 0;
    let mut i: usize = 0;
    while i < ws.len()
        invariant
            i <= ws@.len(),
            total == sum(nats(ws@).take(i as int)),
            total <= (i as u128) * 0xFFFF_FFFF_FFFF_FFFFu128,
        decreases ws.len() - i,
    {
        proof {
            assert(nats(ws@).take(i + 1).drop_last() =~= nats(ws@).take(i as int));
            assert((i as u128) * 0xFFFF_FFFF_FFFF_FFFFu128 + 0xFFFF_FFFF_FFFF_FFFFu128 == ((i + 1)
                as u128) * 0xFFFF_FFFF_FFFF_FFFFu128) by (nonlinear_arith);
            assert(((i + 1) as u128) * 0xFFFF_FFFF_FFFF_FFFFu128 <= 0xFFFF_FFFF_FFFF_FFFFu128
                * 0xFFFF_FFFF_FFFF_FFFFu128) by (nonlinear_arith)
                requires
                    i + 1 <= 0xFFFF_FFFF_FFFF_FFFFu128,
            ;
        }
        total = total + ws[i] as u128;
        i = i + 1;
    }
    assert(nats(ws@).take(i as int) =~= nats(ws@));
    total
}

fn max_width_of(ws: &Vec<usize>) -> (m: usize)
    ensures
        m == max_of(nats(ws@)),
{
    let mut m: usize = 0;
    let mut i: usize = 0;
    while i < ws.len()
        invariant
            i <= ws@.len(),
            m == max_of(nats(ws@).take(i as int)),
        decreases ws.len() - i,
    {
        assert(nats(ws@).take(i + 1).drop_last() =~= nats(ws@).take(i as int));
        if ws[i] > m {
            m = ws[i];
        }
        i = i + 1;
    }
    assert(nats(ws@).take(i as int) =~= nats(ws@));
    m
}

fn shrink_once_exec(ws: &mut Vec<usize>)
    requires
        max_of(nats(old(ws)@)) > 3,
    ensures
        nats(final(ws)@) == shrink_once(nats(old(ws)@)),
        final(ws)@.len() == old(ws)@.len(),
{
    let m = max_width_of(ws);
    let ghost start = nats(ws@);
    let mut i: usize = 0;
    while i < ws.len()
        invariant
            i <= ws@.len(),
            ws@.len() == start.len(),
            m == max_of(start),
            m > 3,
            forall|k: int| 0 <= k < start.len() ==> #[trigger] start[k] == old(ws)@[k] as nat,
            forall|k: int|
                0 <= k < ws@.len() ==> (#[trigger] ws@[k]) as nat == if k < i {
                    shrink_once(start)[k]
                } else {
                    start[k]
                },
        decreases ws.len() - i,
    {
        if ws[i] == m {
            let nw = if ws[i] - 1 >= 3 { ws[i] - 1 } else { 3 };
            ws.set(i, nw);
        }
        i = i + 1;
    }
    assert(nats(ws@) =~= shrink_once(start));
}

/// The width of column `i`, or ten past the known columns.
pub open spec fn width_at(ws: Seq<nat>, i: int) -> nat {
    if 0 <= i < ws.len() { ws[i] } else { 10 }
}

/// The alignment of column `i`; columns without one are unaligned.
pub open spec fn alignment_at(al: Seq<TableAlignment>, i: int) -> TableAlignment {
    if 0 <= i < al.len() { al[i] } else { TableAlignment::Unaligned }
}

/// A cell's content padded to its column width as its column is aligned.
pub open spec fn align_cell_of(al: Seq<TableAlignment>, content: Seq<char>, w: nat, col: int) -> Seq<char> {
    match alignment_at(al, col) {
        TableAlignment::Center => center_in_width_of(content, w),
        TableAlignment::Right => right_align_in_width_of(content, w),
        _ => pad_to_width_of(content, w),
    }
}

/// A cell's content, truncated to its column width when truncation is on.
pub open spec fn fit_cell(content: Seq<char>, w: nat, truncate: bool) -> Seq<char> {
    if truncate { truncate_to_width_of(content, w) } else { content }
}

/// Cell `i` of a row, or nothing past its end.
pub open spec fn cell_at(cells: Seq<Seq<char>>, i: int) -> Seq<char> {
    if 0 <= i < cells.len() { cells[i] } else { Seq::empty() }
}

/// A boxed cell: padding, the styled aligned content, padding.
pub open spec fn boxed_cell_of(
    t: TableView,
    c: TableConfig,
    ws: Seq<nat>,
    cells: Seq<Seq<char>>,
    style: Style,
    i: int,
) -> Seq<char> {
    spaces(c.padding as nat) + paint_of(
        style,
        align_cell_of(t.alignments, fit_cell(cell_at(cells, i), ws[i], c.truncate), ws[i], i),
    ) + spaces(c.padding as nat)
}

/// The boxed cells of a row, one per column.
pub open spec fn boxed_cells_of(
    t: TableView,
    c: TableConfig,
    ws: Seq<nat>,
    cells: Seq<Seq<char>>,
    style: Style,
) -> Seq<Seq<char>> {
    Seq::new(ws.len(), |i: int| boxed_cell_of(t, c, ws, cells, style, i))
}

/// A boxed row: its cells between vertical bars.
pub open spec fn boxed_row_of(
    t: TableView,
    c: TableConfig,
    ws: Seq<nat>,
    cells: Seq<Seq<char>>,
    style: Style,
    bar: Seq<char>,
) -> Seq<char> {
    let v = paint_of(c.border_style_ansi, bar);
    v + join_with(boxed_cells_of(t, c, ws, cells, style), v) + v
}

/// The horizontal segments of a rule, one per column.
pub open spec fn rule_segments(ws: Seq<nat>, unit: Seq<char>, pad: nat) -> Seq<Seq<char>> {
    Seq::new(ws.len(), |i: int| repeat_seq(unit, ws[i] + pad * 2))
}

/// A horizontal rule between `left` and `right`, with `mid` where columns meet.
pub open spec fn rule_of(
    c: TableConfig,
    ws: Seq<nat>,
    left: Seq<char>,
    mid: Seq<char>,
    right: Seq<char>,
    unit: Seq<char>,
) -> Seq<char> {
    paint_of(
        c.border_style_ansi,
        left + join_with(rule_segments(ws, unit, c.padding as nat), mid) + right,
    )
}

/// The data rows of a boxed table.
pub open spec fn boxed_rows_of(t: TableView, c: TableConfig, ws: Seq<nat>, bar: Seq<char>) -> Seq<Seq<char>> {
    Seq::new(t.rows.len(), |r: int| boxed_row_of(t, c, ws, t.rows[r], c.cell_style, bar))
}

/// A table drawn with Unicode box-drawing characters.
pub open spec fn unicode_lines_of(t: TableView, c: TableConfig, ws: Seq<nat>) -> Seq<Seq<char>> {
    let h = "\u{2500}"@;
    seq![rule_of(c, ws, "\u{250c}"@, "\u{252c}"@, "\u{2510}"@, h)]
        + seq![boxed_row_of(t, c, ws, t.headers, c.header_style, "\u{2502}"@)]
        + seq![rule_of(c, ws, "\u{251c}"@, "\u{253c}"@, "\u{2524}"@, h)]
        + boxed_rows_of(t, c, ws, "\u{2502}"@)
        + seq![rule_of(c, ws, "\u{2514}"@, "\u{2534}"@, "\u{2518}"@, h)]
}

/// A table drawn with ASCII `+`, `-` and `|`.
pub open spec fn ascii_lines_of(t: TableView, c: TableConfig, ws: Seq<nat>) -> Seq<Seq<char>> {
    let rule = rule_of(c, ws, "+"@, "+"@, "+"@, "-"@);
    seq![rule] + seq![boxed_row_of(t, c, ws, t.headers, c.header_style, "|"@)] + seq![rule]
        + boxed_rows_of(t, c, ws, "|"@) + seq![rule]
}

/// A borderless cell: the aligned content of column `i`.
pub open spec fn plain_cell_of(t: TableView, c: TableConfig, ws: Seq<nat>, cells: Seq<Seq<char>>, i: int) -> Seq<char> {
    align_cell_of(t.alignments, fit_cell(cells[i], width_at(ws, i), c.truncate), width_at(ws, i), i)
}

/// The header cells of a borderless table, styled.
pub open spec fn plain_header_cells(t: TableView, c: TableConfig, ws: Seq<nat>) -> Seq<Seq<char>> {
    Seq::new(t.headers.len(), |i: int| paint_of(c.header_style, plain_cell_of(t, c, ws, t.headers, i)))
}

/// The cells of a borderless data row.
pub open spec fn plain_row_cells(t: TableView, c: TableConfig, ws: Seq<nat>, cells: Seq<Seq<char>>) -> Seq<Seq<char>> {
    Seq::new(cells.len(), |i: int| plain_cell_of(t, c, ws, cells, i))
}

/// The underline below a borderless header.
pub open spec fn underline_parts(c: TableConfig, ws: Seq<nat>) -> Seq<Seq<char>> {
    Seq::new(ws.len(), |i: int| paint_of(c.border_style_ansi, repeat_seq("\u{2500}"@, ws[i])))
}

/// A table drawn without borders, its columns two spaces apart.
pub open spec fn borderless_lines_of(t: TableView, c: TableConfig, ws: Seq<nat>) -> Seq<Seq<char>> {
    let sep = "  "@;
    seq![join_with(plain_header_cells(t, c, ws), sep)] + seq![join_with(underline_parts(c, ws), sep)]
        + Seq::new(t.rows.len(), |r: int| join_with(plain_row_cells(t, c, ws, t.rows[r]), sep))
}

/// The lines a table is drawn as; a table without header cells draws nothing.
pub open spec fn render_table_of(t: TableView, c: TableConfig) -> Seq<Seq<char>> {
    if t.headers.len() == 0 {
        Seq::empty()
    } else {
        let ws = col_widths_of(t, c);
        match c.border_style {
            BorderStyle::Unicode => unicode_lines_of(t, c, ws),
            BorderStyle::Ascii => ascii_lines_of(t, c, ws),
            BorderStyle::NoBorder => borderless_lines_of(t, c, ws),
        }
    }
}

/// The configurations the drawing is defined on: a column plus its padding fits in `usize`.
pub open spec fn config_ok(c: TableConfig) -> bool {
    c.padding * 2 + c.max_col_width + 3 <= usize::MAX
}

proof fn lemma_widths_bounded(t: TableView, c: TableConfig)
    ensures
        forall|i: int|
            0 <= i < col_widths_of(t, c).len() ==> #[trigger] col_widths_of(t, c)[i] <= c.max_col_width + 3,
{
    lemma_col_widths(t, c);
    lemma_natural_bounded(header_widths(t.headers, c.max_col_width as nat), t.rows, c.max_col_width as nat);
    assert forall|i: int| 0 <= i < col_widths_of(t, c).len() implies #[trigger] col_widths_of(t, c)[i]
        <= c.max_col_width + 3 by {
        assert(col_widths_of(t, c)[i] <= natural_widths(t, c.max_col_width as nat)[i]);
    }
}

proof fn lemma_natural_bounded(ws: Seq<nat>, rows: Seq<Seq<Seq<char>>>, max_col: nat)
    requires
        forall|i: int| 0 <= i < ws.len() ==> #[trigger] ws[i] <= max_col + 3,
    ensures
        widen_rows(ws, rows, max_col).len() == ws.len(),
        forall|i: int| 0 <= i < ws.len() ==> #[trigger] widen_rows(ws, rows, max_col)[i] <= max_col + 3,
    decreases rows.len(),
{
    if rows.len() > 0 {
        lemma_natural_bounded(ws, rows.drop_last(), max_col);
    }
}

impl Table {
    pub fn new(
        headers: Vec<String>,
        rows: Vec<Vec<String>>,
        alignments: Vec<TableAlignment>,
    ) -> (t: Table)
        ensures
            t.headers == headers,
            t.rows == rows,
            t.alignments == alignments,
    {
        Table { headers, rows, alignments }
    }

    /// Compute optimal column widths that fit within max_width.
    fn compute_col_widths(&self, config: &TableConfig) -> (widths: Vec<usize>)
        ensures
            nats(widths@) == col_widths_of(self@, *config),
    {
        let n = self.headers.len();
        let max_col = config.max_col_width;
        let mut widths: Vec<usize> = Vec::new();
        let ghost hs = string_views(self.headers@);
        let mut i: usize = 0;
        while i < n
            invariant
                i <= n == self.headers@.len(),
                hs == string_views(self.headers@),
                nats(widths@) == header_widths(hs, max_col as nat).take(i as int),
            decreases n - i,
        {
            assert(self.headers@[i as int]@ == hs[i as int]);
            let w = natural_width_exec(self.headers[i].as_str(), max_col);
            let ghost prev = widths@;
            assert(nats(prev).len() == prev.len());
            assert(header_widths(hs, max_col as nat).len() == n);
            assert(prev.len() == i);
            widths.push(w);
            proof {
                assert forall|k: int| 0 <= k < i + 1 implies #[trigger] nats(widths@)[k]
                    == header_widths(hs, max_col as nat).take(i + 1)[k] by {
                    if k < i {
                        assert(nats(prev)[k] == header_widths(hs, max_col as nat).take(i as int)[k]);
                        assert(widths@[k] == prev[k]);
                    } else {
                        assert(widths@[k] == w);
                    }
                }
            }
            i = i + 1;
            assert(nats(widths@) =~= header_widths(hs, max_col as nat).take(i as int));
        }
        assert(header_widths(hs, max_col as nat).take(i as int) =~= header_widths(hs, max_col as nat));
        let ghost rows = self@.rows;
        let mut r: usize = 0;
        while r < self.rows.len()
            invariant
                r <= self.rows@.len(),
                rows == self@.rows,
                rows.len() == self.rows@.len(),
                widths@.len() == n,
                nats(widths@) == widen_rows(header_widths(hs, max_col as nat), rows.take(r as int), max_col as nat),
            decreases self.rows.len() - r,
        {
            let row = &self.rows[r];
            assert(string_views(row@) == rows[r as int]);
            let ghost before = nats(widths@);
            let mut j: usize = 0;
            while j < row.len()
                invariant
                    j <= row@.len(),
                    r < rows.len(),
                    row@.len() == rows[r as int].len(),
                    widths@.len() == n == before.len(),
                    string_views(row@) == rows[r as int],
                    forall|k: int|
                        0 <= k < n ==> (#[trigger] widths@[k]) as nat == if k < j {
                            widen_row(before, rows[r as int], max_col as nat)[k]
                        } else {
                            before[k]
                        },
                decreases row.len() - j,
            {
                if j < widths.len() {
                    assert(row@[j as int]@ == rows[r as int][j as int]);
                    let cw = natural_width_exec(row[j].as_str(), max_col);
                    let cur = widths[j];
                    if cw > cur {
                        widths.set(j, cw);
                    }
                }
                j = j + 1;
            }
            proof {
                assert forall|k: int| 0 <= k < n implies (#[trigger] widths@[k]) as nat == widen_row(
                    before,
                    rows[r as int],
                    max_col as nat,
                )[k] by {
                    if k >= j {
                        assert(k >= rows[r as int].len());
                    }
                }
                assert(nats(widths@) =~= widen_row(before, rows[r as int], max_col as nat));
                assert(rows.take(r + 1).drop_last() =~= rows.take(r as int));
            }
            r = r + 1;
        }
        assert(rows.take(r as int) =~= rows);
        proof {
            assert((n as u128) * (config.padding as u128) <= 0xFFFF_FFFF_FFFF_FFFFu128
                * 0xFFFF_FFFF_FFFF_FFFFu128) by (nonlinear_arith)
                requires
                    n <= 0xFFFF_FFFF_FFFF_FFFFu128,
                    config.padding <= 0xFFFF_FFFF_FFFF_FFFFu128,
            ;
        }
        let np: u128 = (n as u128) * (config.padding as u128);
        let budget: u128 = if np >= 0x1_0000_0000_0000_0000u128 {
            0
        } else {
            let overhead = np * 2 + n as u128 + 1;
            if (config.max_width as u128) >= overhead {
                config.max_width as u128 - overhead
            } else {
                0
            }
        };
        assert(budget == content_budget(config.max_width as nat, n as nat, config.padding as nat));
        let ghost natural = nats(widths@);
        let mut rounds: usize = 0;
        let mut done = false;
        while rounds < 100 && !done
            invariant
                rounds <= 100,
                widths@.len() == n,
                shrink(nats(widths@), budget as nat, (100 - rounds) as nat) == shrink(
                    natural,
                    budget as nat,
                    100,
                ),
                done ==> shrink(nats(widths@), budget as nat, (100 - rounds) as nat) == nats(
                    widths@,
                ),
            decreases 100 - rounds, (if done { 0int } else { 1int }),
        {
            let total = sum_widths(&widths);
            if total <= budget {
                done = true;
            } else {
                let m = max_width_of(&widths);
                if m <= 3 {
                    done = true;
                } else {
                    shrink_once_exec(&mut widths);
                    rounds = rounds + 1;
                }
            }
        }
        widths
    }

    fn align_cell(&self, content: &str, width: usize, col_index: usize) -> (r: String)
        ensures
            r@ == align_cell_of(self.alignments@, content@, width as nat, col_index as int),
    {
        let alignment = if col_index < self.alignments.len() {
            self.alignments[col_index]
        } else {
            TableAlignment::Unaligned
        };
        match alignment {
            TableAlignment::Center => center_in_width(content, width),
            TableAlignment::Right => right_align_in_width(content, width),
            _ => pad_to_width(content, width),
        }
    }

    fn fit(content: &str, width: usize, truncate: bool) -> (r: String)
        ensures
            r@ == fit_cell(content@, width as nat, truncate),
    {
        if truncate {
            truncate_to_width(content, width)
        } else {
            content.to_owned()
        }
    }

    /// A boxed row: each column's cell padded, styled and aligned, between vertical bars.
    fn render_row(
        &self,
        cells: &Vec<String>,
        col_widths: &Vec<usize>,
        config: &TableConfig,
        cell_style: &Style,
        bar: &str,
    ) -> (line: String)
        ensures
            line@ == boxed_row_of(self@, *config, nats(col_widths@), string_views(cells@), *cell_style, bar@),
    {
        let ghost ws = nats(col_widths@);
        let ghost cs = string_views(cells@);
        let pad = spaces_string(config.padding);
        let mut parts: Vec<String> = Vec::new();
        let mut i: usize = 0;
        while i < col_widths.len()
            invariant
                i <= col_widths@.len(),
                ws == nats(col_widths@),
                cs == string_views(cells@),
                pad@ == spaces(config.padding as nat),
                string_views(parts@) == boxed_cells_of(self@, *config, ws, cs, *cell_style).take(i as int),
            decreases col_widths.len() - i,
        {
            let w = col_widths[i];
            let content = if i < cells.len() { cells[i].as_str() } else { "" };
            proof {
                reveal_strlit("");
                if i < cells.len() {
                    assert(cells@[i as int]@ == cs[i as int]);
                }
            }
            assert(ws[i as int] == w as nat);
            assert(content@ == cell_at(cs, i as int));
            let fitted = Table::fit(content, w, config.truncate);
            let aligned = self.align_cell(fitted.as_str(), w, i);
            let mut cell = pad.clone();
            cell.append(cell_style.paint(aligned.as_str()).as_str());
            cell.append(pad.as_str());
            let ghost prev = string_views(parts@);
            parts.push(cell);
            proof {
                assert(string_views(parts@) =~= prev.push(cell@));
                assert(cell@ =~= boxed_cell_of(self@, *config, ws, cs, *cell_style, i as int));
                assert(boxed_cells_of(self@, *config, ws, cs, *cell_style).take(i + 1) =~= boxed_cells_of(
                    self@,
                    *config,
                    ws,
                    cs,
                    *cell_style,
                ).take(i as int).push(cell@));
            }
            i = i + 1;
        }
        assert(boxed_cells_of(self@, *config, ws, cs, *cell_style).take(i as int) =~= boxed_cells_of(
            self@,
            *config,
            ws,
            cs,
            *cell_style,
        ));
        let v = config.border_style_ansi.paint(bar);
        let mut line = v.clone();
        line.append(join_strings(&parts, v.as_str()).as_str());
        line.append(v.as_str());
        line
    }

    /// A horizontal rule: one run of `unit` per column, `mid` where columns meet.
    fn horizontal_line(
        &self,
        left: &str,
        mid: &str,
        right: &str,
        unit: &str,
        col_widths: &Vec<usize>,
        config: &TableConfig,
    ) -> (line: String)
        requires
            forall|i: int| 0 <= i < col_widths@.len() ==> #[trigger] col_widths@[i] + config.padding * 2 <= usize::MAX,
        ensures
            line@ == rule_of(*config, nats(col_widths@), left@, mid@, right@, unit@),
    {
        let ghost ws = nats(col_widths@);
        let mut segments: Vec<String> = Vec::new();
        let mut i: usize = 0;
        while i < col_widths.len()
            invariant
                i <= col_widths@.len(),
                ws == nats(col_widths@),
                forall|k: int| 0 <= k < col_widths@.len() ==> #[trigger] col_widths@[k] + config.padding * 2 <= usize::MAX,
                string_views(segments@) == rule_segments(ws, unit@, config.padding as nat).take(i as int),
            decreases col_widths.len() - i,
        {
            let seg = repeat_str(unit, col_widths[i] + config.padding * 2);
            let ghost prev = string_views(segments@);
            segments.push(seg);
            proof {
                assert(string_views(segments@) =~= prev.push(seg@));
                assert(rule_segments(ws, unit@, config.padding as nat).take(i + 1) =~= rule_segments(
                    ws,
                    unit@,
                    config.padding as nat,
                ).take(i as int).push(seg@));
            }
            i = i + 1;
        }
        assert(rule_segments(ws, unit@, config.padding as nat).take(i as int) =~= rule_segments(
            ws,
            unit@,
            config.padding as nat,
        ));
        let mut body = left.to_owned();
        body.append(join_strings(&segments, mid).as_str());
        body.append(right);
        config.border_style_ansi.paint(body.as_str())
    }

    fn render_boxed(
        &self,
        col_widths: &Vec<usize>,
        config: &TableConfig,
        corners: [&str; 9],
        unit: &str,
        bar: &str,
    ) -> (lines: Vec<String>)
        requires
            forall|i: int| 0 <= i < col_widths@.len() ==> #[trigger] col_widths@[i] + config.padding * 2 <= usize::MAX,
        ensures
            string_views(lines@) == seq![
                rule_of(*config, nats(col_widths@), corners@[0]@, corners@[1]@, corners@[2]@, unit@),
            ] + seq![boxed_row_of(self@, *config, nats(col_widths@), self@.headers, config.header_style, bar@)]
                + seq![rule_of(*config, nats(col_widths@), corners@[3]@, corners@[4]@, corners@[5]@, unit@)]
                + boxed_rows_of(self@, *config, nats(col_widths@), bar@) + seq![
                rule_of(*config, nats(col_widths@), corners@[6]@, corners@[7]@, corners@[8]@, unit@),
            ],
    {
        let ghost ws = nats(col_widths@);
        let mut lines: Vec<String> = Vec::new();
        let top = self.horizontal_line(corners[0], corners[1], corners[2], unit, col_widths, config);
        let header = self.render_row(&self.headers, col_widths, config, &config.header_style, bar);
        let sep = self.horizontal_line(corners[3], corners[4], corners[5], unit, col_widths, config);
        let ghost (t0, h0, s0) = (top@, header@, sep@);
        lines.push(top);
        lines.push(header);
        lines.push(sep);
        let ghost head = string_views(lines@);
        assert(head =~= seq![t0] + seq![h0] + seq![s0]);
        let mut r: usize = 0;
        while r < self.rows.len()
            invariant
                r <= self.rows@.len(),
                ws == nats(col_widths@),
                string_views(lines@) == head + boxed_rows_of(self@, *config, ws, bar@).take(r as int),
            decreases self.rows.len() - r,
        {
            let line = self.render_row(&self.rows[r], col_widths, config, &config.cell_style, bar);
            let ghost prev = string_views(lines@);
            lines.push(line);
            proof {
                assert(string_views(self.rows@[r as int]@) == self@.rows[r as int]);
                assert(string_views(lines@) =~= prev.push(line@));
                assert(boxed_rows_of(self@, *config, ws, bar@).take(r + 1) =~= boxed_rows_of(
                    self@,
                    *config,
                    ws,
                    bar@,
                ).take(r as int).push(line@));
            }
            r = r + 1;
        }
        assert(boxed_rows_of(self@, *config, ws, bar@).take(r as int) =~= boxed_rows_of(self@, *config, ws, bar@));
        let bottom = self.horizontal_line(corners[6], corners[7], corners[8], unit, col_widths, config);
        let ghost before_bottom = string_views(lines@);
        let ghost b0 = bottom@;
        lines.push(bottom);
        assert(string_views(lines@) =~= before_bottom.push(b0));
        assert(string_views(lines@) =~= seq![
                rule_of(*config, nats(col_widths@), corners@[0]@, corners@[1]@, corners@[2]@, unit@),
            ] + seq![boxed_row_of(self@, *config, nats(col_widths@), self@.headers, config.header_style, bar@)]
                + seq![rule_of(*config, nats(col_widths@), corners@[3]@, corners@[4]@, corners@[5]@, unit@)]
                + boxed_rows_of(self@, *config, nats(col_widths@), bar@) + seq![
                rule_of(*config, nats(col_widths@), corners@[6]@, corners@[7]@, corners@[8]@, unit@),
            ]);
        lines
    }

    fn plain_cell(&self, content: &str, col_widths: &Vec<usize>, config: &TableConfig, i: usize) -> (r: String)
        ensures
            r@ == align_cell_of(
                self.alignments@,
                fit_cell(content@, width_at(nats(col_widths@), i as int), config.truncate),
                width_at(nats(col_widths@), i as int),
                i as int,
            ),
    {
        let w = if i < col_widths.len() { col_widths[i] } else { 10 };
        assert(w as nat == width_at(nats(col_widths@), i as int));
        let content = Table::fit(content, w, config.truncate);
        self.align_cell(content.as_str(), w, i)
    }

    fn render_borderless(&self, col_widths: &Vec<usize>, config: &TableConfig) -> (lines: Vec<String>)
        ensures
            string_views(lines@) == borderless_lines_of(self@, *config, nats(col_widths@)),
    {
        let ghost ws = nats(col_widths@);
        let ghost t = self@;
        let mut header_cells: Vec<String> = Vec::new();
        let mut i: usize = 0;
        while i < self.headers.len()
            invariant
                i <= self.headers@.len(),
                ws == nats(col_widths@),
                t == self@,
                string_views(header_cells@) == plain_header_cells(t, *config, ws).take(i as int),
            decreases self.headers.len() - i,
        {
            let aligned = self.plain_cell(self.headers[i].as_str(), col_widths, config, i);
            let cell = config.header_style.paint(aligned.as_str());
            let ghost prev = string_views(header_cells@);
            header_cells.push(cell);
            proof {
                assert(self.headers@[i as int]@ == t.headers[i as int]);
                assert(string_views(header_cells@) =~= prev.push(cell@));
                assert(plain_header_cells(t, *config, ws).take(i + 1) =~= plain_header_cells(
                    t,
                    *config,
                    ws,
                ).take(i as int).push(cell@));
            }
            i = i + 1;
        }
        assert(plain_header_cells(t, *config, ws).take(i as int) =~= plain_header_cells(t, *config, ws));
        let mut underline: Vec<String> = Vec::new();
        let mut k: usize = 0;
        while k < col_widths.len()
            invariant
                k <= col_widths@.len(),
                ws == nats(col_widths@),
                string_views(underline@) == underline_parts(*config, ws).take(k as int),
            decreases col_widths.len() - k,
        {
            let part = config.border_style_ansi.paint(repeat_str("\u{2500}", col_widths[k]).as_str());
            let ghost prev = string_views(underline@);
            underline.push(part);
            proof {
                assert(string_views(underline@) =~= prev.push(part@));
                assert(underline_parts(*config, ws).take(k + 1) =~= underline_parts(*config, ws).take(
                    k as int,
                ).push(part@));
            }
            k = k + 1;
        }
        assert(underline_parts(*config, ws).take(k as int) =~= underline_parts(*config, ws));
        let mut lines: Vec<String> = Vec::new();
        let h = join_strings(&header_cells, "  ");
        let u = join_strings(&underline, "  ");
        let ghost (h0, u0) = (h@, u@);
        lines.push(h);
        lines.push(u);
        let ghost rows_of = Seq::new(t.rows.len(), |r: int| join_with(plain_row_cells(t, *config, ws, t.rows[r]), "  "@));
        assert(string_views(lines@) =~= seq![h0] + seq![u0] + rows_of.take(0));
        let mut r: usize = 0;
        while r < self.rows.len()
            invariant
                r <= self.rows@.len(),
                ws == nats(col_widths@),
                t == self@,
                rows_of == Seq::new(t.rows.len(), |r: int| join_with(plain_row_cells(t, *config, ws, t.rows[r]), "  "@)),
                string_views(lines@) == seq![h0] + seq![u0] + rows_of.take(r as int),
            decreases self.rows.len() - r,
        {
            let row = &self.rows[r];
            let ghost cs = t.rows[r as int];
            assert(string_views(row@) == cs);
            let mut cells: Vec<String> = Vec::new();
            let mut j: usize = 0;
            while j < row.len()
                invariant
                    j <= row@.len(),
                    ws == nats(col_widths@),
                    t == self@,
                    string_views(row@) == cs,
                    string_views(cells@) == plain_row_cells(t, *config, ws, cs).take(j as int),
                decreases row.len() - j,
            {
                let cell = self.plain_cell(row[j].as_str(), col_widths, config, j);
                let ghost prev = string_views(cells@);
                cells.push(cell);
                proof {
                    assert(row@[j as int]@ == cs[j as int]);
                    assert(string_views(cells@) =~= prev.push(cell@));
                    assert(plain_row_cells(t, *config, ws, cs).take(j + 1) =~= plain_row_cells(
                        t,
                        *config,
                        ws,
                        cs,
                    ).take(j as int).push(cell@));
                }
                j = j + 1;
            }
            assert(plain_row_cells(t, *config, ws, cs).take(j as int) =~= plain_row_cells(t, *config, ws, cs));
            let line = join_strings(&cells, "  ");
            let ghost prev = string_views(lines@);
            lines.push(line);
            proof {
                assert(string_views(lines@) =~= prev.push(line@));
                assert(rows_of.take(r + 1) =~= rows_of.take(r as int).push(line@));
            }
            r = r + 1;
        }
        assert(rows_of.take(r as int) =~= rows_of);
        assert(string_views(lines@) =~= borderless_lines_of(self@, *config, ws));
        lines
    }

    /// Render the table to ANSI-styled lines.
    pub fn render(&self, config: &TableConfig) -> (lines: Vec<String>)
        requires
            config_ok(*config),
        ensures
            string_views(lines@) == render_table_of(self@, *config),
    {
        if self.headers.len() == 0 {
            let v: Vec<String> = Vec::new();
            assert(string_views(v@) =~= Seq::<Seq<char>>::empty());
            return v;
        }
        let col_widths = self.compute_col_widths(config);
        proof {
            lemma_widths_bounded(self@, *config);
            assert forall|i: int| 0 <= i < col_widths@.len() implies #[trigger] col_widths@[i]
                + config.padding * 2 <= usize::MAX by {
                assert(nats(col_widths@)[i] == col_widths@[i] as nat);
            }
        }
        match config.border_style {
            BorderStyle::Unicode => self.render_boxed(
                &col_widths,
                config,
                [
                    "\u{250c}", "\u{252c}", "\u{2510}", "\u{251c}", "\u{253c}", "\u{2524}", "\u{2514}",
                    "\u{2534}", "\u{2518}",
                ],
                "\u{2500}",
                "\u{2502}",
            ),
            BorderStyle::Ascii => self.render_boxed(
                &col_widths,
                config,
                ["+", "+", "+", "+", "+", "+", "+", "+", "+"],
                "-",
                "|",
            ),
            BorderStyle::NoBorder => self.render_borderless(&col_widths, config),
        }
    }
}

/// A drawn table has one line per data row besides its header: boxed tables add the header
/// and three rules, borderless ones the header and its underline; a table without header
/// cells draws nothing.
pub proof fn lemma_table_line_count(t: TableView, c: TableConfig)
    ensures
        render_table_of(t, c).len() == if t.headers.len() == 0 {
            0
        } else {
            match c.border_style {
                BorderStyle::NoBorder => t.rows.len() + 2,
                _ => t.rows.len() + 4,
            }
        },
{
}

/// How a cell narrower than its column of width `w` is padded: a centered column puts half
/// the free columns, rounded down, before the content and the rest after it; a right-aligned
/// one puts them all before it; any other puts them all after it. A cell as wide as its column
/// or wider stays as it is.
pub proof fn lemma_cell_alignment(al: Seq<TableAlignment>, content: Seq<char>, w: nat, col: int)
    ensures
        visible_width(content) >= w ==> align_cell_of(al, content, w, col) == content,
        visible_width(content) < w && alignment_at(al, col) == TableAlignment::Center ==> align_cell_of(
            al,
            content,
            w,
            col,
        ) == spaces(((w - visible_width(content)) / 2) as nat) + content + spaces(
            ((w - visible_width(content)) - (w - visible_width(content)) / 2) as nat,
        ),
        visible_width(content) < w && alignment_at(al, col) == TableAlignment::Right ==> align_cell_of(
            al,
            content,
            w,
            col,
        ) == spaces((w - visible_width(content)) as nat) + content,
        visible_width(content) < w && (alignment_at(al, col) == TableAlignment::Left || alignment_at(al, col)
            == TableAlignment::Unaligned) ==> align_cell_of(al, content, w, col) == content + spaces(
            (w - visible_width(content)) as nat,
        ),
{
}

/// A cell asks for its visible width, cut down to the column cap, and never less than three
/// columns.
pub proof fn lemma_natural_width(cell: Seq<char>, max_col: nat)
    ensures
        natural_width(cell, max_col) >= 3,
        3 <= visible_width(cell) <= max_col ==> natural_width(cell, max_col) == visible_width(cell),
        3 <= max_col < visible_width(cell) ==> natural_width(cell, max_col) == max_col,
        visible_width(cell) < 3 || max_col < 3 ==> natural_width(cell, max_col) == 3,
{
}

/// Widening by rows keeps a width per column, never narrows one, covers every row's cell in
/// that column, and is the width of some cell of the column or the width it started from.
proof fn lemma_widen_rows(widths: Seq<nat>, rows: Seq<Seq<Seq<char>>>, m: nat)
    ensures
        widen_rows(widths, rows, m).len() == widths.len(),
        forall|i: int| 0 <= i < widths.len() ==> #[trigger] widen_rows(widths, rows, m)[i] >= widths[i],
        forall|r: int, i: int|
            0 <= r < rows.len() && 0 <= i < widths.len() && i < rows[r].len() ==> widen_rows(widths, rows, m)[i]
                >= natural_width(#[trigger] rows[r][i], m),
        forall|i: int|
            0 <= i < widths.len() ==> #[trigger] widen_rows(widths, rows, m)[i] == widths[i] || exists|r: int|
                0 <= r < rows.len() && i < rows[r].len() && widen_rows(widths, rows, m)[i] == natural_width(
                    #[trigger] rows[r][i],
                    m,
                ),
    decreases rows.len(),
{
    if rows.len() > 0 {
        let init = rows.drop_last();
        lemma_widen_rows(widths, init, m);
        let prev = widen_rows(widths, init, m);
        let cur = widen_rows(widths, rows, m);
        let last = rows.last();
        assert(cur == widen_row(prev, last, m));
        assert forall|r: int, i: int|
            0 <= r < rows.len() && 0 <= i < widths.len() && i < rows[r].len() implies cur[i] >= natural_width(
                #[trigger] rows[r][i],
                m,
            ) by {
            if r < rows.len() - 1 {
                assert(rows[r] == init[r]);
                assert(prev[i] >= natural_width(init[r][i], m));
            }
        }
        assert forall|i: int| 0 <= i < widths.len() implies #[trigger] cur[i] == widths[i] || exists|r: int|
            0 <= r < rows.len() && i < rows[r].len() && cur[i] == natural_width(#[trigger] rows[r][i], m) by {
            if i < last.len() && cur[i] == natural_width(last[i], m) {
                assert(rows[rows.len() - 1] == last);
            } else {
                assert(cur[i] == prev[i]);
                if prev[i] != widths[i] {
                    let r = choose|r: int| 0 <= r < init.len() && i < init[r].len() && prev[i] == natural_width(
                        #[trigger] init[r][i],
                        m,
                    );
                    assert(rows[r] == init[r]);
                }
            }
        }
    }
}

/// A column is as wide as its widest cell asks for, over the header and every row: no cell of
/// the column asks for more, and one of them asks for exactly that.
pub proof fn lemma_natural_widths_widest_cell(t: TableView, max_col: nat)
    ensures
        natural_widths(t, max_col).len() == t.headers.len(),
        forall|i: int|
            0 <= i < t.headers.len() ==> #[trigger] natural_widths(t, max_col)[i] >= natural_width(
                t.headers[i],
                max_col,
            ),
        forall|r: int, i: int|
            0 <= r < t.rows.len() && 0 <= i < t.headers.len() && i < t.rows[r].len() ==> natural_widths(t, max_col)[i]
                >= natural_width(#[trigger] t.rows[r][i], max_col),
        forall|i: int|
            0 <= i < t.headers.len() ==> #[trigger] natural_widths(t, max_col)[i] == natural_width(
                t.headers[i],
                max_col,
            ) || exists|r: int|
                0 <= r < t.rows.len() && i < t.rows[r].len() && natural_widths(t, max_col)[i] == natural_width(
                    #[trigger] t.rows[r][i],
                    max_col,
                ),
{
    lemma_widen_rows(header_widths(t.headers, max_col), t.rows, max_col);
}

/// Columns keep the widths their cells ask for when those fit in the room the terminal leaves;
/// that room is the maximum width less one border per column plus one, and the padding on both
/// sides of every column.
pub proof fn lemma_fitting_columns_keep_widths(t: TableView, c: TableConfig)
    ensures
        sum(natural_widths(t, c.max_col_width as nat)) <= content_budget(c.max_width as nat, t.headers.len(), c.padding as nat)
            ==> col_widths_of(t, c) == natural_widths(t, c.max_col_width as nat),
        c.max_width >= t.headers.len() + 1 + 2 * t.headers.len() * c.padding ==> content_budget(
            c.max_width as nat,
            t.headers.len(),
            c.padding as nat,
        ) + t.headers.len() + 1 + 2 * t.headers.len() * c.padding == c.max_width,
{
    assert(t.headers.len() * c.padding * 2 == 2 * t.headers.len() * c.padding) by (nonlinear_arith);
}

/// A boxed table is drawn with box-drawing characters: a top rule `┌─┬─┐`, the header row
/// between `│` bars, a rule `├─┼─┤`, the data rows, and a bottom rule `└─┴─┘`; an ASCII table
/// uses `+`, `-` and `|`; a borderless table puts two spaces between columns and underlines
/// the header with `─`.
pub proof fn lemma_table_borders(t: TableView, c: TableConfig)
    requires
        t.headers.len() > 0,
    ensures
        ({
            let ws = col_widths_of(t, c);
            let h = seq!['\u{2500}'];
            let bar = seq!['\u{2502}'];
            &&& c.border_style == BorderStyle::Unicode ==> render_table_of(t, c) == seq![
                rule_of(c, ws, seq!['\u{250c}'], seq!['\u{252c}'], seq!['\u{2510}'], h),
                boxed_row_of(t, c, ws, t.headers, c.header_style, bar),
                rule_of(c, ws, seq!['\u{251c}'], seq!['\u{253c}'], seq!['\u{2524}'], h),
            ] + boxed_rows_of(t, c, ws, bar) + seq![rule_of(c, ws, seq!['\u{2514}'], seq!['\u{2534}'], seq!['\u{2518}'], h)]
            &&& c.border_style == BorderStyle::Ascii ==> render_table_of(t, c) == seq![
                rule_of(c, ws, seq!['+'], seq!['+'], seq!['+'], seq!['-']),
                boxed_row_of(t, c, ws, t.headers, c.header_style, seq!['|']),
                rule_of(c, ws, seq!['+'], seq!['+'], seq!['+'], seq!['-']),
            ] + boxed_rows_of(t, c, ws, seq!['|']) + seq![rule_of(c, ws, seq!['+'], seq!['+'], seq!['+'], seq!['-'])]
            &&& c.border_style == BorderStyle::NoBorder ==> render_table_of(t, c)[0] == join_with(
                plain_header_cells(t, c, ws),
                seq![' ', ' '],
            ) && render_table_of(t, c)[1] == join_with(
                Seq::new(ws.len(), |i: int| paint_of(c.border_style_ansi, repeat_seq(h, ws[i]))),
                seq![' ', ' '],
            )
        }),
{
    reveal_strlit("\u{2500}");
    reveal_strlit("\u{2502}");
    reveal_strlit("\u{250c}");
    reveal_strlit("\u{252c}");
    reveal_strlit("\u{2510}");
    reveal_strlit("\u{251c}");
    reveal_strlit("\u{253c}");
    reveal_strlit("\u{2524}");
    reveal_strlit("\u{2514}");
    reveal_strlit("\u{2534}");
    reveal_strlit("\u{2518}");
    reveal_strlit("+");
    reveal_strlit("-");
    reveal_strlit("|");
    reveal_strlit("  ");
    assert("\u{2500}"@ =~= seq!['\u{2500}']);
    assert("\u{2502}"@ =~= seq!['\u{2502}']);
    assert("\u{250c}"@ =~= seq!['\u{250c}']);
    assert("\u{252c}"@ =~= seq!['\u{252c}']);
    assert("\u{2510}"@ =~= seq!['\u{2510}']);
    assert("\u{251c}"@ =~= seq!['\u{251c}']);
    assert("\u{253c}"@ =~= seq!['\u{253c}']);
    assert("\u{2524}"@ =~= seq!['\u{2524}']);
    assert("\u{2514}"@ =~= seq!['\u{2514}']);
    assert("\u{2534}"@ =~= seq!['\u{2534}']);
    assert("\u{2518}"@ =~= seq!['\u{2518}']);
    assert("+"@ =~= seq!['+']);
    assert("-"@ =~= seq!['-']);
    assert("|"@ =~= seq!['|']);
    assert("  "@ =~= seq![' ', ' ']);
    let ws = col_widths_of(t, c);
    match c.border_style {
        BorderStyle::Unicode => {
            assert(render_table_of(t, c) =~= seq![
                rule_of(c, ws, seq!['\u{250c}'], seq!['\u{252c}'], seq!['\u{2510}'], seq!['\u{2500}']),
                boxed_row_of(t, c, ws, t.headers, c.header_style, seq!['\u{2502}']),
                rule_of(c, ws, seq!['\u{251c}'], seq!['\u{253c}'], seq!['\u{2524}'], seq!['\u{2500}']),
            ] + boxed_rows_of(t, c, ws, seq!['\u{2502}']) + seq![rule_of(c, ws, seq!['\u{2514}'], seq!['\u{2534}'], seq!['\u{2518}'], seq!['\u{2500}'])]);
        },
        BorderStyle::Ascii => {
            assert(render_table_of(t, c) =~= seq![
                rule_of(c, ws, seq!['+'], seq!['+'], seq!['+'], seq!['-']),
                boxed_row_of(t, c, ws, t.headers, c.header_style, seq!['|']),
                rule_of(c, ws, seq!['+'], seq!['+'], seq!['+'], seq!['-']),
            ] + boxed_rows_of(t, c, ws, seq!['|']) + seq![rule_of(c, ws, seq!['+'], seq!['+'], seq!['+'], seq!['-'])]);
        },
        BorderStyle::NoBorder => {
            assert(underline_parts(c, ws) =~= Seq::new(ws.len(), |i: int| paint_of(c.border_style_ansi, repeat_seq(seq!['\u{2500}'], ws[i]))));
        },
    }
}

} // verus!
