//! Streaming rendering for incremental input (e.g., LLM output): the decisions of the
//! stream, from the text pushed so far to the text to emit.
//!
//! Single-line content is emitted as soon as its line is complete; fenced code blocks and
//! tables are held back until they end. The output is append-only.

use vstd::prelude::*;
use crate::doc::find_from;
use crate::render::{RenderOptions, Renderer, RendererView, render_of};
use crate::text::{
    chars_of, is_ws, is_ws_char, push_char, repeat_seq, string_of_range, trim_end_ws, trim_start_ws, trim_str,
    trim_ws, utf8_len,
};
use crate::theme::Theme;

verus! {

/// Maximum buffer size (10 MB) to prevent unbounded memory growth.
pub const MAX_BUFFER_SIZE: usize = 10485760;

/// What the stream is in the middle of.
#[derive(Debug, Clone, Copy, PartialEq, Eq, Structural)]
pub enum StreamState {
    /// Normal text mode: emit lines as they come.
    Normal,
    /// Inside a fenced code block: buffer until closing fence.
    FencedCode,
    /// Inside a table: buffer until non-table line.
    Table,
}

/// The length in bytes of a text's UTF-8 encoding (std's `str::len`).
#[verifier::external_body]
fn byte_len(s: &str) -> (n: usize)
    ensures
        n == utf8_len(s@),
{
    s.len()
}

/// The run of `c` at the start of `s` from index `i` on: its end.
pub open spec fn run_end(s: Seq<char>, i: int, c: char) -> int
    decreases s.len() - i,
{
    if 0 <= i < s.len() && s[i] == c {
        run_end(s, i + 1, c)
    } else {
        i
    }
}

/// A fence opening: a line (leading white space aside) that starts with three or more
/// backticks or tildes; gives the fence character, its count and the trimmed info string.
pub open spec fn fence_open_of(line: Seq<char>) -> Option<(char, usize, Seq<char>)> {
    let t = trim_start_ws(line);
    if t.len() == 0 || (t[0] != '`' && t[0] != '~') {
        None
    } else {
        let count = run_end(t, 0, t[0]);
        if count < 3 {
            None
        } else {
            Some((t[0], count as usize, trim_ws(t.subrange(count, t.len() as int))))
        }
    }
}

/// The end of the run of `c` from index `i` on.
fn run_end_exec(s: &Vec<char>, i: usize, c: char) -> (r: usize)
    requires
        i <= s@.len(),
    ensures
        r == run_end(s@, i as int, c),
        i <= r <= s@.len(),
{
    let mut j = i;
    while j < s.len() && s[j] == c
        invariant
            i <= j <= s@.len(),
            run_end(s@, i as int, c) == run_end(s@, j as int, c),
        decreases s.len() - j,
    {
        j = j + 1;
    }
    j
}

/// Detect a fence opening: returns (fence_char, count, info_string).
pub fn detect_fence_open(line: &str) -> (r: Option<(char, usize, String)>)
    ensures
        match fence_open_of(line@) {
            None => r is None,
            Some((c, n, info)) => r matches Some((c2, n2, i2)) && c2 == c && n2 == n && i2@ == info,
        },
{
    let t_str = crate::text::trim_start_str(line);
    let t = chars_of(t_str.as_str());
    if t.len() == 0 || (t[0] != '`' && t[0] != '~') {
        return None;
    }
    let first = t[0];
    let count = run_end_exec(&t, 0, first);
    if count < 3 {
        return None;
    }
    let rest = string_of_range(t.as_slice(), count, t.len());
    let info = trim_str(rest.as_str());
    Some((first, count, info))
}

/// Whether the characters of `s` from index `i` on are all white space.
pub open spec fn all_ws_from(s: Seq<char>, i: int) -> bool {
    forall|k: int| i <= k < s.len() ==> is_ws(#[trigger] s[k])
}

/// A closing fence: the trimmed line is a run of at least `min_count` fence characters,
/// with only white space after it.
pub open spec fn closing_fence_of(line: Seq<char>, fence_char: char, min_count: usize) -> bool {
    let t = trim_ws(line);
    t.len() > 0 && t[0] == fence_char && run_end(t, 0, fence_char) >= min_count && all_ws_from(
        t,
        run_end(t, 0, fence_char),
    )
}

/// Check if a line is a closing fence.
pub fn is_closing_fence(line: &str, fence_char: char, min_count: usize) -> (b: bool)
    ensures
        b == closing_fence_of(line@, fence_char, min_count),
{
    let t_str = trim_str(line);
    let t = chars_of(t_str.as_str());
    if t.len() == 0 || t[0] != fence_char {
        return false;
    }
    let count = run_end_exec(&t, 0, fence_char);
    if count < min_count {
        return false;
    }
    let mut k = count;
    while k < t.len()
        invariant
            count <= k <= t@.len(),
            t@ == trim_ws(line@),
            count == run_end(t@, 0, fence_char),
            t@.len() > 0 && t@[0] == fence_char,
            count >= min_count,
            forall|q: int| count <= q < k ==> is_ws(#[trigger] t@[q]),
        decreases t.len() - k,
    {
        if !is_ws_char(t[k]) {
            assert(!is_ws(t@[k as int]));
            return false;
        }
        k = k + 1;
    }
    assert(all_ws_from(t@, count as int));
    true
}

/// A table row: the trimmed line starts and ends with a pipe and is longer than two bytes.
pub open spec fn table_line_of(line: Seq<char>) -> bool {
    let t = trim_ws(line);
    t.len() > 0 && t[0] == '|' && t.last() == '|' && utf8_len(t) > 2
}

/// Check if a line looks like a table row (contains pipes).
pub fn is_table_line(line: &str) -> (b: bool)
    ensures
        b == table_line_of(line@),
{
    let t_str = trim_str(line);
    let t = chars_of(t_str.as_str());
    t.len() > 0 && t[0] == '|' && t[t.len() - 1] == '|' && byte_len(t_str.as_str()) > 2
}

/// Whether a character may stand in a table separator row.
pub open spec fn separator_char(c: char) -> bool {
    c == '|' || c == '-' || c == ':' || c == ' '
}

/// A table separator: the trimmed line starts with a pipe and holds only pipes, dashes,
/// colons and spaces.
pub open spec fn table_separator_of(line: Seq<char>) -> bool {
    let t = trim_ws(line);
    t.len() > 0 && t[0] == '|' && forall|k: int| 0 <= k < t.len() ==> separator_char(#[trigger] t[k])
}

/// Check if a line is a table separator (e.g., |---|---|).
pub fn is_table_separator(line: &str) -> (b: bool)
    ensures
        b == table_separator_of(line@),
{
    let t_str = trim_str(line);
    let t = chars_of(t_str.as_str());
    if t.len() == 0 || t[0] != '|' {
        return false;
    }
    let mut k: usize = 0;
    while k < t.len()
        invariant
            k <= t@.len(),
            t@ == trim_ws(line@),
            forall|q: int| 0 <= q < k ==> separator_char(#[trigger] t@[q]),
        decreases t.len() - k,
    {
        let c = t[k];
        if !(c == '|' || c == '-' || c == ':' || c == ' ') {
            return false;
        }
        k = k + 1;
    }
    true
}

/// The stream's state between lines: the held-back text, the mode, and the open fence.
pub struct LineState {
    pub accum: Seq<char>,
    pub state: StreamState,
    pub fence_char: char,
    pub fence_count: usize,
}

/// A line with its line feed.
pub open spec fn with_nl(line: Seq<char>) -> Seq<char> {
    line.push('\n')
}

/// A line in normal mode: a fence opening or a table row starts holding text back; any
/// other line is rendered on its own and emitted at once, without its trailing line feeds
/// but with one; a blank line is emitted as a line feed.
pub open spec fn normal_line(r: RendererView, ls: LineState, line: Seq<char>) -> (LineState, Seq<char>) {
    let trimmed = trim_ws(line);
    match fence_open_of(trimmed) {
        Some((c, n, _)) => (
            LineState { accum: with_nl(line), state: StreamState::FencedCode, fence_char: c, fence_count: n },
            Seq::empty(),
        ),
        None => {
            if table_line_of(trimmed) {
                (LineState { accum: with_nl(line), state: StreamState::Table, ..ls }, Seq::empty())
            } else {
                let output = crate::highlight::trim_newlines(render_of(r, with_nl(line)));
                if output.len() > 0 {
                    (ls, with_nl(output))
                } else if line.len() == 0 {
                    (ls, seq!['\n'])
                } else {
                    (ls, Seq::empty())
                }
            }
        },
    }
}

/// A line inside a fenced code block: it is held back; a closing fence renders the block.
pub open spec fn fenced_line(r: RendererView, ls: LineState, line: Seq<char>) -> (LineState, Seq<char>) {
    let acc = ls.accum + with_nl(line);
    if closing_fence_of(trim_ws(line), ls.fence_char, ls.fence_count) {
        (LineState { accum: Seq::empty(), state: StreamState::Normal, ..ls }, render_of(r, acc))
    } else {
        (LineState { accum: acc, ..ls }, Seq::empty())
    }
}

/// A line inside a table: table rows and separators are held back; any other line renders
/// the table, then goes as a normal line.
pub open spec fn table_line(r: RendererView, ls: LineState, line: Seq<char>) -> (LineState, Seq<char>) {
    let trimmed = trim_ws(line);
    if table_line_of(trimmed) || table_separator_of(trimmed) {
        (LineState { accum: ls.accum + with_nl(line), ..ls }, Seq::empty())
    } else {
        let table = render_of(r, ls.accum);
        let (ls2, o) = normal_line(r, LineState { accum: Seq::empty(), state: StreamState::Normal, ..ls }, line);
        (ls2, table + o)
    }
}

/// A complete line, handled by the mode the stream is in.
pub open spec fn dispatch_line(r: RendererView, ls: LineState, line: Seq<char>) -> (LineState, Seq<char>) {
    match ls.state {
        StreamState::Normal => normal_line(r, ls, line),
        StreamState::FencedCode => fenced_line(r, ls, line),
        StreamState::Table => table_line(r, ls, line),
    }
}

/// The complete lines of `s` from index `i` on handled one by one, `out` being what was
/// emitted before; gives the state, the incomplete last line and all that was emitted.
pub open spec fn process_from(r: RendererView, ls: LineState, s: Seq<char>, i: int, out: Seq<char>) -> (LineState, Seq<char>, Seq<char>)
    decreases s.len() - i,
{
    let pos = find_from(s, i, '\n');
    if i < 0 || i > s.len() || pos >= s.len() || pos < i {
        (ls, s.subrange(i, s.len() as int), out)
    } else {
        let (ls2, o) = dispatch_line(r, ls, s.subrange(i, pos));
        process_from(r, ls2, s, pos + 1, out + o)
    }
}

/// What the stream holds: the incomplete input line and the line state.
pub struct StreamView {
    pub input: Seq<char>,
    pub lines: LineState,
}

/// What flushing emits and leaves: the held-back text rendered, then the incomplete line
/// rendered; both buffers empty and the mode normal.
pub open spec fn flush_of(r: RendererView, st: StreamView) -> (StreamView, Seq<char>) {
    let o1 = if st.lines.accum.len() > 0 { render_of(r, st.lines.accum) } else { Seq::empty() };
    let o2 = if st.input.len() > 0 { render_of(r, st.input) } else { Seq::empty() };
    (
        StreamView {
            input: Seq::empty(),
            lines: LineState { accum: Seq::empty(), state: StreamState::Normal, ..st.lines },
        },
        o1 + o2,
    )
}

/// What pushing a chunk emits and leaves: the chunk joins the incomplete line; past the
/// buffer limit everything held is flushed first; then each complete line is handled.
pub open spec fn push_of(r: RendererView, st: StreamView, chunk: Seq<char>) -> (StreamView, Seq<char>) {
    let st1 = StreamView { input: st.input + chunk, ..st };
    let (st2, o1) = if utf8_len(st1.input) + utf8_len(st1.lines.accum) > MAX_BUFFER_SIZE {
        flush_of(r, st1)
    } else {
        (st1, Seq::empty())
    };
    let (ls, rest, o2) = process_from(r, st2.lines, st2.input, 0, Seq::empty());
    (StreamView { input: rest, lines: ls }, o1 + o2)
}

/// The decisions of a streaming renderer: which text to hold back and which to render and
/// emit, as the input arrives in chunks.
pub struct StreamCore {
    renderer: Renderer,
    input_buf: String,
    accum: String,
    state: StreamState,
    fence_char: char,
    fence_count: usize,
}

impl StreamCore {
    /// The renderer that the stream renders with.
    pub closed spec fn renderer_view(&self) -> RendererView {
        self.renderer@
    }

    /// What the stream holds.
    pub closed spec fn stream_view(&self) -> StreamView {
        StreamView {
            input: self.input_buf@,
            lines: LineState {
                accum: self.accum@,
                state: self.state,
                fence_char: self.fence_char,
                fence_count: self.fence_count,
            },
        }
    }

    /// A stream that holds nothing, in normal mode.
    pub fn new(theme: Theme, options: RenderOptions) -> (s: StreamCore)
        ensures
            s.renderer_view() == crate::render::renderer_of(theme, options),
            s.stream_view().input.len() == 0,
            s.stream_view().lines.accum.len() == 0,
            s.stream_view().lines.state == StreamState::Normal,
            s.stream_view().lines.fence_char == '`',
            s.stream_view().lines.fence_count == 0,
    {
        StreamCore {
            renderer: Renderer::new(theme, options),
            input_buf: String::new(),
            accum: String::new(),
            state: StreamState::Normal,
            fence_char: '`',
            fence_count: 0,
        }
    }

    /// Feed a chunk of text into the stream; gives the text to emit now.
    pub fn push(&mut self, chunk: &str) -> (out: String)
        ensures
            final(self).renderer_view() == old(self).renderer_view(),
            (final(self).stream_view(), out@) == push_of(old(self).renderer_view(), old(self).stream_view(), chunk@),
    {
        self.input_buf.append(chunk);
        let in_len = byte_len(self.input_buf.as_str());
        let acc_len = byte_len(self.accum.as_str());
        let mut out = if in_len > MAX_BUFFER_SIZE || acc_len > MAX_BUFFER_SIZE - in_len {
            self.flush_remaining()
        } else {
            String::new()
        };
        self.process_lines(&mut out);
        out
    }

    /// Flush any remaining buffered content; gives the text to emit.
    pub fn flush_remaining(&mut self) -> (out: String)
        ensures
            final(self).renderer_view() == old(self).renderer_view(),
            (final(self).stream_view(), out@) == flush_of(old(self).renderer_view(), old(self).stream_view()),
    {
        let mut out = String::new();
        if self.accum.unicode_len() > 0 {
            let r = self.renderer.render(self.accum.as_str());
            out.append(r.as_str());
        }
        if self.input_buf.unicode_len() > 0 {
            let r = self.renderer.render(self.input_buf.as_str());
            out.append(r.as_str());
        }
        self.accum = String::new();
        self.input_buf = String::new();
        self.state = StreamState::Normal;
        assert(out@ =~= flush_of(old(self).renderer_view(), old(self).stream_view()).1);
        out
    }

    /// Handles the complete lines of the input, appending what they emit to `out`.
    fn process_lines(&mut self, out: &mut String) -> (u: ())
        ensures
            final(self).renderer_view() == old(self).renderer_view(),
            ({
                let (ls, rest, o) = process_from(
                    old(self).renderer_view(),
                    old(self).stream_view().lines,
                    old(self).stream_view().input,
                    0,
                    Seq::empty(),
                );
                final(self).stream_view() == (StreamView { input: rest, lines: ls }) && final(out)@ == old(out)@ + o
            }),
    {
        let s = chars_of(self.input_buf.as_str());
        let ghost r = self.renderer_view();
        let ghost target = process_from(r, self.stream_view().lines, s@, 0, Seq::empty());
        let ghost out0 = out@;
        let ghost emitted: Seq<char> = Seq::empty();
        let mut i: usize = 0;
        loop
            invariant
                i <= s@.len(),
                r == self.renderer_view(),
                r == old(self).renderer_view(),
                s@ == old(self).stream_view().input,
                out0 == old(out)@,
                target == process_from(r, old(self).stream_view().lines, s@, 0, Seq::empty()),
                out@ == out0 + emitted,
                target == process_from(r, self.stream_view().lines, s@, i as int, emitted),
            decreases s@.len() - i,
        {
            let pos = crate::doc::find_at(&s, i, '\n');
            if pos >= s.len() {
                self.input_buf = string_of_range(s.as_slice(), i, s.len());
                return ();
            }
            let line = string_of_range(s.as_slice(), i, pos);
            let ghost before = out@;
            let ghost ls0 = self.stream_view().lines;
            self.dispatch(line.as_str(), out);
            proof {
                let d = dispatch_line(r, ls0, s@.subrange(i as int, pos as int));
                assert(out@.subrange(before.len() as int, out@.len() as int) =~= d.1);
                assert(process_from(r, ls0, s@, i as int, emitted) == process_from(r, d.0, s@, pos + 1, emitted + d.1));
                emitted = emitted + d.1;
                assert(out@ =~= out0 + emitted);
            }
            i = pos + 1;
        }
    }

    /// Handles one complete line, appending what it emits to `out`.
    fn dispatch(&mut self, line: &str, out: &mut String)
        ensures
            final(self).renderer_view() == old(self).renderer_view(),
            final(self).stream_view().input == old(self).stream_view().input,
            ({
                let (ls, o) = dispatch_line(old(self).renderer_view(), old(self).stream_view().lines, line@);
                final(self).stream_view().lines == ls && final(out)@ == old(out)@ + o
            }),
    {
        match self.state {
            StreamState::Normal => self.normal(line, out),
            StreamState::FencedCode => {
                self.accum.append(line);
                push_char(&mut self.accum, '\n');
                let trimmed = trim_str(line);
                if is_closing_fence(trimmed.as_str(), self.fence_char, self.fence_count) {
                    let r = self.renderer.render(self.accum.as_str());
                    out.append(r.as_str());
                    self.accum = String::new();
                    self.state = StreamState::Normal;
                }
            },
            StreamState::Table => {
                let trimmed = trim_str(line);
                if is_table_line(trimmed.as_str()) || is_table_separator(trimmed.as_str()) {
                    self.accum.append(line);
                    push_char(&mut self.accum, '\n');
                } else {
                    let r = self.renderer.render(self.accum.as_str());
                    out.append(r.as_str());
                    self.accum = String::new();
                    self.state = StreamState::Normal;
                    self.normal(line, out);
                }
            },
        }
    }

    /// Handles one complete line in normal mode.
    fn normal(&mut self, line: &str, out: &mut String)
        ensures
            final(self).renderer_view() == old(self).renderer_view(),
            final(self).stream_view().input == old(self).stream_view().input,
            ({
                let (ls, o) = normal_line(old(self).renderer_view(), old(self).stream_view().lines, line@);
                final(self).stream_view().lines == ls && final(out)@ == old(out)@ + o
            }),
    {
        let trimmed = trim_str(line);
        match detect_fence_open(trimmed.as_str()) {
            Some((ch, count, _info)) => {
                self.state = StreamState::FencedCode;
                self.fence_char = ch;
                self.fence_count = count;
                let mut acc = line.to_string();
                push_char(&mut acc, '\n');
                self.accum = acc;
                return;
            },
            None => {},
        }
        if is_table_line(trimmed.as_str()) {
            self.state = StreamState::Table;
            let mut acc = line.to_string();
            push_char(&mut acc, '\n');
            self.accum = acc;
            return;
        }
        let mut md = line.to_string();
        push_char(&mut md, '\n');
        let rendered = self.renderer.render(md.as_str());
        let output = crate::highlight::trim_newlines_exec(rendered.as_str());
        if output.unicode_len() > 0 {
            out.append(output.as_str());
            push_char(out, '\n');
        } else if line.unicode_len() == 0 {
            push_char(out, '\n');
        }
    }
}

proof fn lemma_utf8_len_with_nl(line: Seq<char>)
    ensures
        utf8_len(with_nl(line)) == utf8_len(line) + 1,
{
    assert(with_nl(line).drop_last() =~= line);
}

proof fn lemma_find_from_stops(s: Seq<char>, i: int, c: char)
    requires
        0 <= i <= s.len(),
    ensures
        i <= find_from(s, i, c) <= s.len(),
        find_from(s, i, c) < s.len() ==> s[find_from(s, i, c)] == c,
    decreases s.len() - i,
{
    if i < s.len() && s[i] != c {
        lemma_find_from_stops(s, i + 1, c);
    }
}

proof fn lemma_line_bound(r: RendererView, ls: LineState, line: Seq<char>)
    ensures
        utf8_len(normal_line(r, ls, line).0.accum) <= utf8_len(ls.accum) + utf8_len(line) + 1,
        utf8_len(dispatch_line(r, ls, line).0.accum) <= utf8_len(ls.accum) + utf8_len(line) + 1,
{
    lemma_utf8_len_with_nl(line);
    crate::text::lemma_utf8_len_concat(ls.accum, with_nl(line));
    let cleared = LineState { accum: Seq::empty(), state: StreamState::Normal, ..ls };
    assert(utf8_len(cleared.accum) == 0);
}

proof fn lemma_process_bound(r: RendererView, ls: LineState, s: Seq<char>, i: int, out: Seq<char>)
    requires
        0 <= i <= s.len(),
    ensures
        ({
            let (ls2, rest, o) = process_from(r, ls, s, i, out);
            utf8_len(rest) + utf8_len(ls2.accum) <= utf8_len(s.subrange(i, s.len() as int)) + utf8_len(ls.accum)
        }),
    decreases s.len() - i,
{
    let pos = find_from(s, i, '\n');
    lemma_find_from_stops(s, i, '\n');
    if pos < s.len() {
        let line = s.subrange(i, pos);
        let (ls2, o) = dispatch_line(r, ls, line);
        lemma_line_bound(r, ls, line);
        lemma_process_bound(r, ls2, s, pos + 1, out + o);
        assert(s.subrange(i, s.len() as int) =~= with_nl(line) + s.subrange(pos + 1, s.len() as int));
        crate::text::lemma_utf8_len_concat(with_nl(line), s.subrange(pos + 1, s.len() as int));
        lemma_utf8_len_with_nl(line);
    } else {
        assert(s.subrange(i, s.len() as int) =~= s.subrange(i, s.len() as int));
    }
}

/// Whatever is pushed, the stream holds at most `MAX_BUFFER_SIZE` bytes afterwards: past the
/// limit it flushes, and handling lines never makes what it holds grow.
pub proof fn lemma_push_respects_buffer_limit(r: RendererView, st: StreamView, chunk: Seq<char>)
    ensures
        utf8_len(push_of(r, st, chunk).0.input) + utf8_len(push_of(r, st, chunk).0.lines.accum) <= MAX_BUFFER_SIZE,
{
    let st1 = StreamView { input: st.input + chunk, ..st };
    let (st2, o1) = if utf8_len(st1.input) + utf8_len(st1.lines.accum) > MAX_BUFFER_SIZE {
        flush_of(r, st1)
    } else {
        (st1, Seq::empty())
    };
    lemma_process_bound(r, st2.lines, st2.input, 0, Seq::empty());
    assert(st2.input.subrange(0, st2.input.len() as int) =~= st2.input);
}

/// Flushing leaves nothing held and the stream in normal mode; a stream that holds nothing
/// emits nothing.
pub proof fn lemma_flush_empties(r: RendererView, st: StreamView)
    ensures
        flush_of(r, st).0.input.len() == 0,
        flush_of(r, st).0.lines.accum.len() == 0,
        flush_of(r, st).0.lines.state == StreamState::Normal,
        st.input.len() == 0 && st.lines.accum.len() == 0 ==> flush_of(r, st).1.len() == 0,
{
}

proof fn lemma_find_from_at(s: Seq<char>, i: int, j: int, c: char)
    requires
        0 <= i <= j < s.len(),
        s[j] == c,
        forall|k: int| i <= k < j ==> s[k] != c,
    ensures
        find_from(s, i, c) == j,
    decreases j - i,
{
    if i < j {
        lemma_find_from_at(s, i + 1, j, c);
    }
}

/// Pushes `line` and its line feed onto a stream that holds no partial line and is in normal
/// mode, and checks the buffer limit is not reached; gives what the push leaves and emits.
proof fn lemma_push_one_line(r: RendererView, st: StreamView, line: Seq<char>)
    requires
        st.input.len() == 0,
        st.lines.state == StreamState::Normal,
        forall|k: int| 0 <= k < line.len() ==> line[k] != '\n',
        utf8_len(line) + 1 + utf8_len(st.lines.accum) <= MAX_BUFFER_SIZE,
    ensures
        push_of(r, st, with_nl(line)).0 == (StreamView { input: Seq::empty(), lines: normal_line(r, st.lines, line).0 }),
        push_of(r, st, with_nl(line)).1 == normal_line(r, st.lines, line).1,
{
    let s = with_nl(line);
    assert(st.input + s =~= s);
    lemma_utf8_len_with_nl(line);
    lemma_find_from_at(s, 0, line.len() as int, '\n');
    assert(s.subrange(0, line.len() as int) =~= line);
    let (ls2, o) = dispatch_line(r, st.lines, line);
    assert(process_from(r, st.lines, s, 0, Seq::empty()) == process_from(r, ls2, s, s.len() as int, Seq::empty() + o));
    assert(s.subrange(s.len() as int, s.len() as int) =~= Seq::<char>::empty());
    assert(Seq::<char>::empty() + o =~= o);
    assert(Seq::<char>::empty() + o =~= o);
}

/// In normal mode, a complete line that opens neither a fence nor a table is rendered and
/// emitted at once, and the stream holds nothing more than before.
pub proof fn lemma_line_emitted_at_once(r: RendererView, st: StreamView, line: Seq<char>)
    requires
        st.input.len() == 0,
        st.lines.state == StreamState::Normal,
        forall|k: int| 0 <= k < line.len() ==> line[k] != '\n',
        fence_open_of(trim_ws(line)) is None,
        !table_line_of(trim_ws(line)),
        utf8_len(line) + 1 + utf8_len(st.lines.accum) <= MAX_BUFFER_SIZE,
    ensures
        push_of(r, st, with_nl(line)).0 == st,
        push_of(r, st, with_nl(line)).1 == ({
            let output = crate::highlight::trim_newlines(render_of(r, with_nl(line)));
            if output.len() > 0 {
                with_nl(output)
            } else if line.len() == 0 {
                seq!['\n']
            } else {
                Seq::empty()
            }
        }),
{
    lemma_push_one_line(r, st, line);
    assert(st.input =~= Seq::<char>::empty());
}

/// In normal mode, a line that opens a fence emits nothing: the block is held back, in
/// fenced-code mode, until its closing fence.
pub proof fn lemma_fence_opening_held(r: RendererView, st: StreamView, line: Seq<char>)
    requires
        st.input.len() == 0,
        st.lines.state == StreamState::Normal,
        forall|k: int| 0 <= k < line.len() ==> line[k] != '\n',
        fence_open_of(trim_ws(line)) is Some,
        utf8_len(line) + 1 + utf8_len(st.lines.accum) <= MAX_BUFFER_SIZE,
    ensures
        push_of(r, st, with_nl(line)).1.len() == 0,
        push_of(r, st, with_nl(line)).0.lines.state == StreamState::FencedCode,
        push_of(r, st, with_nl(line)).0.lines.accum == with_nl(line),
        push_of(r, st, with_nl(line)).0.input.len() == 0,
{
    lemma_push_one_line(r, st, line);
}

proof fn lemma_find_from_shift(s: Seq<char>, i: int, j: int, c: char)
    requires
        0 <= i,
        0 <= j,
        i + j <= s.len(),
    ensures
        find_from(s, i + j, c) == i + find_from(s.subrange(i, s.len() as int), j, c),
    decreases s.len() - i - j,
{
    let t = s.subrange(i, s.len() as int);
    if i + j < s.len() {
        assert(t[j] == s[i + j]);
        if s[i + j] != c {
            lemma_find_from_shift(s, i, j + 1, c);
        }
    }
}

proof fn lemma_find_from_prefix(x: Seq<char>, y: Seq<char>, i: int, c: char)
    requires
        0 <= i <= x.len(),
        find_from(x, i, c) < x.len(),
    ensures
        find_from(x + y, i, c) == find_from(x, i, c),
    decreases x.len() - i,
{
    assert((x + y)[i] == x[i]);
    if x[i] != c {
        lemma_find_from_prefix(x, y, i + 1, c);
    }
}

/// Handling lines from index `i` of `s` is handling them from the start of what follows `i`.
proof fn lemma_process_shift(r: RendererView, ls: LineState, s: Seq<char>, i: int, j: int, out: Seq<char>)
    requires
        0 <= i,
        0 <= j,
        i + j <= s.len(),
    ensures
        process_from(r, ls, s, i + j, out) == process_from(r, ls, s.subrange(i, s.len() as int), j, out),
    decreases s.len() - i - j,
{
    let t = s.subrange(i, s.len() as int);
    lemma_find_from_shift(s, i, j, '\n');
    lemma_find_from_stops(t, j, '\n');
    let pos = find_from(t, j, '\n');
    if pos < t.len() {
        assert(s.subrange(i + j, i + pos) =~= t.subrange(j, pos));
        let (ls2, o) = dispatch_line(r, ls, t.subrange(j, pos));
        lemma_process_shift(r, ls2, s, i, pos + 1, out + o);
        assert(i + j + (pos + 1 - j) == i + pos + 1);
    } else {
        assert(s.subrange(i + j, s.len() as int) =~= t.subrange(j, t.len() as int));
    }
}

/// What is emitted before only stands in front of what handling the lines emits.
proof fn lemma_process_out(r: RendererView, ls: LineState, s: Seq<char>, i: int, out: Seq<char>)
    requires
        0 <= i <= s.len(),
    ensures
        ({
            let p = process_from(r, ls, s, i, Seq::empty());
            process_from(r, ls, s, i, out) == (p.0, p.1, out + p.2)
        }),
    decreases s.len() - i,
{
    let pos = find_from(s, i, '\n');
    lemma_find_from_stops(s, i, '\n');
    if pos < s.len() {
        let (ls2, o) = dispatch_line(r, ls, s.subrange(i, pos));
        lemma_process_out(r, ls2, s, pos + 1, out + o);
        lemma_process_out(r, ls2, s, pos + 1, Seq::empty() + o);
        lemma_process_out(r, ls2, s, pos + 1, Seq::empty());
        let p = process_from(r, ls2, s, pos + 1, Seq::empty());
        assert(Seq::<char>::empty() + o + p.2 =~= o + p.2);
        assert(out + o + p.2 =~= out + (o + p.2));
    } else {
        assert(out =~= out + Seq::<char>::empty());
    }
}

/// Handling the lines of `x + y` is handling those of `x`, then those of the incomplete line
/// that `x` leaves followed by `y`.
proof fn lemma_process_concat(r: RendererView, ls: LineState, x: Seq<char>, y: Seq<char>, i: int, out: Seq<char>)
    requires
        0 <= i <= x.len(),
    ensures
        ({
            let (ls1, rest, o1) = process_from(r, ls, x, i, out);
            process_from(r, ls, x + y, i, out) == process_from(r, ls1, rest + y, 0, o1)
        }),
    decreases x.len() - i,
{
    let pos = find_from(x, i, '\n');
    lemma_find_from_stops(x, i, '\n');
    if pos < x.len() {
        lemma_find_from_prefix(x, y, i, '\n');
        assert((x + y).subrange(i, pos) =~= x.subrange(i, pos));
        let (ls2, o) = dispatch_line(r, ls, x.subrange(i, pos));
        lemma_process_concat(r, ls2, x, y, pos + 1, out + o);
    } else {
        lemma_process_shift(r, ls, x + y, i, 0, out);
        assert((x + y).subrange(i, (x + y).len() as int) =~= x.subrange(i, x.len() as int) + y);
    }
}

/// Pushing two chunks one after the other leaves and emits what pushing them as one does,
/// where together they stay within the buffer limit.
pub proof fn lemma_push_two_chunks(r: RendererView, st: StreamView, a: Seq<char>, b: Seq<char>)
    requires
        utf8_len(st.input) + utf8_len(st.lines.accum) + utf8_len(a) + utf8_len(b) <= MAX_BUFFER_SIZE,
    ensures
        push_of(r, push_of(r, st, a).0, b).0 == push_of(r, st, a + b).0,
        push_of(r, st, a).1 + push_of(r, push_of(r, st, a).0, b).1 == push_of(r, st, a + b).1,
{
    let x = st.input + a;
    crate::text::lemma_utf8_len_concat(st.input, a);
    crate::text::lemma_utf8_len_concat(x, b);
    assert(st.input + (a + b) =~= x + b);
    let (ls1, rest1, o1) = process_from(r, st.lines, x, 0, Seq::empty());
    lemma_process_bound(r, st.lines, x, 0, Seq::empty());
    assert(x.subrange(0, x.len() as int) =~= x);
    crate::text::lemma_utf8_len_concat(rest1, b);
    lemma_process_concat(r, st.lines, x, b, 0, Seq::empty());
    lemma_process_out(r, ls1, rest1 + b, 0, o1);
    let p1 = push_of(r, st, a);
    assert(p1.0 == StreamView { input: rest1, lines: ls1 });
    assert(Seq::<char>::empty() + o1 =~= o1);
    let p2 = push_of(r, p1.0, b);
    assert(Seq::<char>::empty() + process_from(r, ls1, rest1 + b, 0, Seq::empty()).2 =~= process_from(r, ls1, rest1 + b, 0, Seq::empty()).2);
    let p3 = push_of(r, st, a + b);
    assert(Seq::<char>::empty() + process_from(r, st.lines, x + b, 0, Seq::empty()).2 =~= process_from(r, st.lines, x + b, 0, Seq::empty()).2);
}

/// The chunks one after the other, as one text.
pub open spec fn joined_chunks(cs: Seq<Seq<char>>) -> Seq<char>
    decreases cs.len(),
{
    if cs.len() == 0 {
        Seq::empty()
    } else {
        joined_chunks(cs.drop_last()) + cs.last()
    }
}

/// Pushing the chunks one by one: what the stream is left with and all it emitted.
pub open spec fn push_all_of(r: RendererView, st: StreamView, cs: Seq<Seq<char>>) -> (StreamView, Seq<char>)
    decreases cs.len(),
{
    if cs.len() == 0 {
        (st, Seq::empty())
    } else {
        let (st1, o1) = push_all_of(r, st, cs.drop_last());
        let (st2, o2) = push_of(r, st1, cs.last());
        (st2, o1 + o2)
    }
}

/// The output does not depend on how the input is split into chunks: pushing one or more chunks
/// one by one leaves the stream as pushing them all at once does, having emitted the same text,
/// where together they stay within the buffer limit.
pub proof fn lemma_chunking_irrelevant(r: RendererView, st: StreamView, cs: Seq<Seq<char>>)
    requires
        cs.len() > 0,
        utf8_len(st.input) + utf8_len(st.lines.accum) + utf8_len(joined_chunks(cs)) <= MAX_BUFFER_SIZE,
    ensures
        push_all_of(r, st, cs) == push_of(r, st, joined_chunks(cs)),
    decreases cs.len(),
{
    let init = cs.drop_last();
    crate::text::lemma_utf8_len_concat(joined_chunks(init), cs.last());
    if cs.len() == 1 {
        assert(joined_chunks(cs) =~= cs.last());
        assert(push_all_of(r, st, init) == (st, Seq::<char>::empty()));
        assert(Seq::<char>::empty() + push_of(r, st, cs.last()).1 =~= push_of(r, st, cs.last()).1);
    } else {
        lemma_chunking_irrelevant(r, st, init);
        lemma_push_two_chunks(r, st, joined_chunks(init), cs.last());
    }
}

proof fn lemma_repeat_char(c: char, n: nat)
    ensures
        repeat_seq(seq![c], n).len() == n,
        forall|k: int| 0 <= k < n ==> #[trigger] repeat_seq(seq![c], n)[k] == c,
    decreases n,
{
    if n > 0 {
        lemma_repeat_char(c, (n - 1) as nat);
        let p = repeat_seq(seq![c], (n - 1) as nat);
        assert forall|k: int| 0 <= k < n implies #[trigger] repeat_seq(seq![c], n)[k] == c by {
            if k < n - 1 {
                assert((p + seq![c])[k] == p[k]);
            }
        }
    }
}

proof fn lemma_run_end_of_run(t: Seq<char>, c: char, n: nat, i: int)
    requires
        0 <= i <= n <= t.len(),
        forall|k: int| 0 <= k < n ==> #[trigger] t[k] == c,
        n == t.len() || t[n as int] != c,
    ensures
        run_end(t, i, c) == n,
    decreases n - i,
{
    if i < n {
        lemma_run_end_of_run(t, c, n, i + 1);
    }
}

proof fn lemma_trim_start_spaces(k: nat, t: Seq<char>)
    requires
        t.len() == 0 || !is_ws(t[0]),
    ensures
        trim_start_ws(crate::wrap::spaces(k) + t) == t,
    decreases k,
{
    if k == 0 {
        assert(crate::wrap::spaces(0) + t =~= t);
    } else {
        let s = crate::wrap::spaces(k) + t;
        assert(s[0] == ' ');
        assert(s.drop_first() =~= crate::wrap::spaces((k - 1) as nat) + t);
        lemma_trim_start_spaces((k - 1) as nat, t);
    }
}

/// A fence opens with three or more backticks or tildes, after any indent of spaces: the
/// fence character, how many there are and the trimmed rest of the line (the info string) are
/// read off; one or two do not open a fence. A line of fence characters alone closes a fence
/// exactly when there are at least as many as opened it.
pub proof fn lemma_fence_rules(c: char, n: nat, indent: nat, rest: Seq<char>, min_count: usize)
    requires
        c == '`' || c == '~',
        n >= 1,
        n <= usize::MAX,
        rest.len() == 0 || rest[0] != c,
    ensures
        n >= 3 ==> fence_open_of(crate::wrap::spaces(indent) + repeat_seq(seq![c], n) + rest) == Some(
            (c, n as usize, trim_ws(rest)),
        ),
        n < 3 ==> fence_open_of(crate::wrap::spaces(indent) + repeat_seq(seq![c], n) + rest) is None,
        closing_fence_of(repeat_seq(seq![c], n), c, min_count) == (n >= min_count),
{
    lemma_repeat_char(c, n);
    let f = repeat_seq(seq![c], n);
    let t = f + rest;
    assert(t[0] == c);
    assert(crate::wrap::spaces(indent) + f + rest =~= crate::wrap::spaces(indent) + t);
    lemma_trim_start_spaces(indent, t);
    assert forall|k: int| 0 <= k < n implies #[trigger] t[k] == c by {
        assert(t[k] == f[k]);
    }
    if rest.len() > 0 {
        assert(t[n as int] == rest[0]);
    }
    lemma_run_end_of_run(t, c, n, 0);
    assert(t.subrange(n as int, t.len() as int) =~= rest);
    assert(trim_end_ws(f) == f);
    assert(trim_start_ws(f) == f);
    lemma_run_end_of_run(f, c, n, 0);
}

/// A line that starts and ends with a pipe around some text is a table row; it is a separator
/// row exactly when that text holds only pipes, dashes, colons and spaces.
pub proof fn lemma_table_line_rules(x: Seq<char>)
    requires
        x.len() > 0,
    ensures
        table_line_of(seq!['|'] + x + seq!['|']),
        table_separator_of(seq!['|'] + x + seq!['|']) == (forall|k: int| 0 <= k < x.len() ==> separator_char(#[trigger] x[k])),
{
    let l = seq!['|'] + x + seq!['|'];
    assert(l.last() == '|');
    assert(trim_end_ws(l) == l);
    assert(l[0] == '|');
    assert(trim_start_ws(l) == l);
    crate::text::lemma_utf8_len_concat(seq!['|'] + x, seq!['|']);
    crate::text::lemma_utf8_len_concat(seq!['|'], x);
    assert(utf8_len(seq!['|']) == 1) by {
        assert(seq!['|'].drop_last() =~= Seq::<char>::empty());
        assert(('|' as u32) == 124);
        assert(seq!['|'].last() == '|');
        assert(crate::text::utf8_char_len('|') == 1);
        assert(utf8_len(Seq::<char>::empty()) == 0);
        assert(utf8_len(seq!['|']) == utf8_len(seq!['|'].drop_last()) + crate::text::utf8_char_len(seq!['|'].last()));
    }
    assert(utf8_len(x) >= 1) by {
        crate::text::lemma_utf8_len_concat(x.drop_last(), seq![x.last()]);
        assert(x.drop_last() + seq![x.last()] =~= x);
        assert(seq![x.last()].drop_last() =~= Seq::<char>::empty());
    }
    if forall|k: int| 0 <= k < x.len() ==> separator_char(#[trigger] x[k]) {
        assert forall|k: int| 0 <= k < l.len() implies separator_char(#[trigger] l[k]) by {
            if 1 <= k <= x.len() {
                assert(l[k] == x[k - 1]);
            }
        }
    } else {
        let k = choose|k: int| 0 <= k < x.len() && !separator_char(#[trigger] x[k]);
        assert(l[k + 1] == x[k]);
    }
}

/// How a complete line is handled in each mode. Inside a fenced block a line is held back,
/// until a closing fence of the same character, at least as long as the opening, renders the
/// whole block and returns to normal mode. Inside a table, rows and separator rows are held
/// back; any other line renders the table and is then handled as a normal line. In normal mode
/// a fence opening or a table row starts holding text back, a blank line is emitted as a line
/// feed, and any other line is rendered on its own and emitted with one line feed.
pub proof fn lemma_stream_modes(r: RendererView, ls: LineState, line: Seq<char>)
    ensures
        ls.state == StreamState::FencedCode && closing_fence_of(trim_ws(line), ls.fence_char, ls.fence_count)
            ==> dispatch_line(r, ls, line) == (
            LineState { accum: Seq::empty(), state: StreamState::Normal, ..ls },
            render_of(r, ls.accum + line.push('\n')),
        ),
        ls.state == StreamState::FencedCode && !closing_fence_of(trim_ws(line), ls.fence_char, ls.fence_count)
            ==> dispatch_line(r, ls, line) == (LineState { accum: ls.accum + line.push('\n'), ..ls }, Seq::<char>::empty()),
        ls.state == StreamState::Table && (table_line_of(trim_ws(line)) || table_separator_of(trim_ws(line)))
            ==> dispatch_line(r, ls, line) == (LineState { accum: ls.accum + line.push('\n'), ..ls }, Seq::<char>::empty()),
        ls.state == StreamState::Table && !(table_line_of(trim_ws(line)) || table_separator_of(trim_ws(line)))
            ==> dispatch_line(r, ls, line).1 == render_of(r, ls.accum) + normal_line(
            r,
            LineState { accum: Seq::empty(), state: StreamState::Normal, ..ls },
            line,
        ).1,
        ls.state == StreamState::Normal && fence_open_of(trim_ws(line)) is Some ==> dispatch_line(r, ls, line) == (
            LineState {
                accum: line.push('\n'),
                state: StreamState::FencedCode,
                fence_char: (fence_open_of(trim_ws(line))->0).0,
                fence_count: (fence_open_of(trim_ws(line))->0).1,
            },
            Seq::<char>::empty(),
        ),
        ls.state == StreamState::Normal && fence_open_of(trim_ws(line)) is None && table_line_of(trim_ws(line))
            ==> dispatch_line(r, ls, line) == (
            LineState { accum: line.push('\n'), state: StreamState::Table, ..ls },
            Seq::<char>::empty(),
        ),
        ls.state == StreamState::Normal && line.len() == 0 ==> dispatch_line(r, ls, line).1 == seq!['\n'] || dispatch_line(
            r,
            ls,
            line,
        ).1 == crate::highlight::trim_newlines(render_of(r, seq!['\n'])).push('\n'),
        ls.state == StreamState::Normal && fence_open_of(trim_ws(line)) is None && !table_line_of(trim_ws(line))
            && crate::highlight::trim_newlines(render_of(r, line.push('\n'))).len() > 0 ==> dispatch_line(r, ls, line)
            == (ls, crate::highlight::trim_newlines(render_of(r, line.push('\n'))).push('\n')),
{
    if line.len() == 0 {
        assert(trim_ws(line) =~= Seq::<char>::empty());
        assert(line.push('\n') =~= seq!['\n']);
    }
}

/// The buffer limit is ten megabytes: a push that would leave more than that held flushes
/// everything held first, and one that stays within it flushes nothing.
pub proof fn lemma_buffer_limit_is_ten_megabytes(r: RendererView, st: StreamView, chunk: Seq<char>)
    ensures
        MAX_BUFFER_SIZE == 10 * 1024 * 1024,
        utf8_len(st.input + chunk) + utf8_len(st.lines.accum) <= 10 * 1024 * 1024 ==> push_of(r, st, chunk) == ({
            let (ls, rest, o) = process_from(r, st.lines, st.input + chunk, 0, Seq::empty());
            (StreamView { input: rest, lines: ls }, Seq::<char>::empty() + o)
        }),
        utf8_len(st.input + chunk) + utf8_len(st.lines.accum) > 10 * 1024 * 1024 ==> push_of(r, st, chunk).1.take(
            flush_of(r, StreamView { input: st.input + chunk, ..st }).1.len() as int,
        ) == flush_of(r, StreamView { input: st.input + chunk, ..st }).1,
{
    if utf8_len(st.input + chunk) + utf8_len(st.lines.accum) > 10 * 1024 * 1024 {
        let st1 = StreamView { input: st.input + chunk, ..st };
        let (st2, o1) = flush_of(r, st1);
        let (ls, rest, o2) = process_from(r, st2.lines, st2.input, 0, Seq::empty());
        assert((o1 + o2).take(o1.len() as int) =~= o1);
    }
}

} // verus!
