//! ANSI colors and text styles.

use vstd::prelude::*;
use crate::text::{append_decimal, chars_of, decimal, hex_digit, hex_value, is_boundary, utf8_len};

verus! {

/// ANSI color representation.
#[derive(Debug, Clone, Copy, PartialEq, Eq, Structural)]
pub enum Color {
    /// Standard 4-bit colors (0-15).
    Ansi(u8),
    /// 256-color palette index.
    Palette(u8),
    /// 24-bit true color.
    Rgb(u8, u8, u8),
}

/// A control sequence introducer around `body`: `ESC [ body m`.
pub open spec fn sgr(body: Seq<char>) -> Seq<char> {
    "\x1b["@ + body + "m"@
}

/// The foreground escape sequence of a color.
pub open spec fn fg_code_of(c: Color) -> Seq<char> {
    match c {
        Color::Ansi(n) => if n < 8 { sgr(decimal(30 + n as nat)) } else { sgr(decimal(82 + n as nat)) },
        Color::Palette(n) => sgr("38;5;"@ + decimal(n as nat)),
        Color::Rgb(r, g, b) => sgr(
            "38;2;"@ + decimal(r as nat) + ";"@ + decimal(g as nat) + ";"@ + decimal(b as nat),
        ),
    }
}

/// The background escape sequence of a color.
pub open spec fn bg_code_of(c: Color) -> Seq<char> {
    match c {
        Color::Ansi(n) => if n < 8 { sgr(decimal(40 + n as nat)) } else { sgr(decimal(92 + n as nat)) },
        Color::Palette(n) => sgr("48;5;"@ + decimal(n as nat)),
        Color::Rgb(r, g, b) => sgr(
            "48;2;"@ + decimal(r as nat) + ";"@ + decimal(g as nat) + ";"@ + decimal(b as nat),
        ),
    }
}

fn append_sgr_rgb(s: &mut String, kind: &str, r: u8, g: u8, b: u8)
    ensures
        final(s)@ == old(s)@ + sgr(kind@ + decimal(r as nat) + ";"@ + decimal(g as nat) + ";"@
            + decimal(b as nat)),
{
    s.append("\x1b[");
    s.append(kind);
    append_decimal(s, r as usize);
    s.append(";");
    append_decimal(s, g as usize);
    s.append(";");
    append_decimal(s, b as usize);
    s.append("m");
}

fn append_sgr_number(s: &mut String, prefix: &str, n: usize)
    ensures
        final(s)@ == old(s)@ + sgr(prefix@ + decimal(n as nat)),
{
    s.append("\x1b[");
    s.append(prefix);
    append_decimal(s, n);
    s.append("m");
}

/// `s` without one leading `#`.
pub open spec fn strip_hash(s: Seq<char>) -> Seq<char> {
    if s.len() > 0 && s[0] == '#' { s.drop_first() } else { s }
}

/// What std's `u8::from_str_radix(_, 16)` gives on a two-character string.
pub open spec fn hex_pair_of(a: char, b: char) -> Option<u8> {
    if a == '+' {
        match hex_value(b) {
            Some(v) => Some(v as u8),
            None => None,
        }
    } else {
        match (hex_value(a), hex_value(b)) {
            (Some(x), Some(y)) => Some((16 * x + y) as u8),
            _ => None,
        }
    }
}

/// The color written as `#rrggbb` or `rrggbb`.
pub open spec fn from_hex_of(s: Seq<char>) -> Option<Color> {
    let b = strip_hash(s);
    if b.len() == 6 {
        match (hex_pair_of(b[0], b[1]), hex_pair_of(b[2], b[3]), hex_pair_of(b[4], b[5])) {
            (Some(r), Some(g), Some(bl)) => Some(Color::Rgb(r, g, bl)),
            _ => None,
        }
    } else {
        None
    }
}

/// The inputs on which the hex parse is defined: when the text after `#` is six bytes long,
/// the two-byte slices it takes must fall on character boundaries.
pub open spec fn from_hex_requires(s: Seq<char>) -> bool {
    let b = strip_hash(s);
    utf8_len(b) == 6 ==> is_boundary(b, 2) && is_boundary(b, 4)
}

fn hex_pair(a: char, b: char) -> (r: Option<u8>)
    ensures
        r == hex_pair_of(a, b),
{
    if a == '+' {
        hex_digit(b)
    } else {
        match (hex_digit(a), hex_digit(b)) {
            (Some(x), Some(y)) => Some(16 * x + y),
            _ => None,
        }
    }
}

/// The number of bytes of a character in UTF-8.
fn char_bytes(c: char) -> (n: usize)
    ensures
        n == crate::text::utf8_char_len(c),
{
    if (c as u32) < 0x80 {
        1
    } else if (c as u32) < 0x800 {
        2
    } else if (c as u32) < 0x10000 {
        3
    } else {
        4
    }
}

/// Whether the hex parse is defined on `s`, as `from_hex_requires` says.
pub fn hex_slices_ok(s: &str) -> (ok: bool)
    ensures
        ok == from_hex_requires(s@),
{
    let v = chars_of(s);
    let start: usize = if v.len() > 0 && v[0] == '#' { 1 } else { 0 };
    let ghost b = strip_hash(s@);
    assert(b =~= v@.subrange(start as int, v@.len() as int));
    let mut bytes: usize = 0;
    let mut at2 = false;
    let mut at4 = false;
    let mut i = start;
    assert(b.take(0) =~= Seq::<char>::empty());
    while i < v.len()
        invariant
            start <= i <= v@.len(),
            b == strip_hash(s@),
            b =~= v@.subrange(start as int, v@.len() as int),
            bytes == utf8_len(b.take(i - start)),
            bytes <= 6,
            at2 == (exists|j: int| 0 <= j <= i - start && #[trigger] utf8_len(b.take(j)) == 2),
            at4 == (exists|j: int| 0 <= j <= i - start && #[trigger] utf8_len(b.take(j)) == 4),
        decreases v.len() - i,
    {
        assert(b.take(i + 1 - start).drop_last() =~= b.take(i - start));
        assert(b.take(i + 1 - start).last() == v@[i as int]);
        let nb = bytes + char_bytes(v[i]);
        assert(nb == utf8_len(b.take(i + 1 - start)));
        if nb > 6 {
            proof {
                crate::text::lemma_utf8_len_concat(b.take(i + 1 - start), b.skip(i + 1 - start));
                assert(b.take(i + 1 - start) + b.skip(i + 1 - start) =~= b);
            }
            return true;
        }
        bytes = nb;
        i = i + 1;
        if bytes == 2 {
            at2 = true;
        }
        if bytes == 4 {
            at4 = true;
        }
    }
    proof {
        assert(b.take(i - start) =~= b);
    }
    !(bytes == 6) || (at2 && at4)
}

impl Color {
    /// Parse a hex color string like "#ff5733" or "ff5733".
    pub fn from_hex(s: &str) -> (c: Option<Color>)
        requires
            from_hex_requires(s@),
        ensures
            c == from_hex_of(s@),
    {
        let v = chars_of(s);
        let start: usize = if v.len() > 0 && v[0] == '#' { 1 } else { 0 };
        let ghost b = strip_hash(s@);
        assert(b =~= v@.subrange(start as int, v@.len() as int));
        if v.len() - start != 6 {
            return None;
        }
        let r = hex_pair(v[start], v[start + 1]);
        let g = hex_pair(v[start + 2], v[start + 3]);
        let bl = hex_pair(v[start + 4], v[start + 5]);
        match (r, g, bl) {
            (Some(r), Some(g), Some(bl)) => Some(Color::Rgb(r, g, bl)),
            _ => None,
        }
    }

    /// The escape sequence that selects this color as foreground.
    pub fn fg_code(&self) -> (code: String)
        ensures
            code@ == fg_code_of(*self),
    {
        let mut s = String::new();
        match *self {
            Color::Ansi(n) => {
                if n < 8 {
                    append_sgr_number(&mut s, "", 30 + n as usize);
                } else {
                    append_sgr_number(&mut s, "", 82 + n as usize);
                }
            },
            Color::Palette(n) => append_sgr_number(&mut s, "38;5;", n as usize),
            Color::Rgb(r, g, b) => append_sgr_rgb(&mut s, "38;2;", r, g, b),
        }
        proof { reveal_strlit(""); }
        assert(s@ =~= fg_code_of(*self));
        s
    }

    /// The escape sequence that selects this color as background.
    pub fn bg_code(&self) -> (code: String)
        ensures
            code@ == bg_code_of(*self),
    {
        let mut s = String::new();
        match *self {
            Color::Ansi(n) => {
                if n < 8 {
                    append_sgr_number(&mut s, "", 40 + n as usize);
                } else {
                    append_sgr_number(&mut s, "", 92 + n as usize);
                }
            },
            Color::Palette(n) => append_sgr_number(&mut s, "48;5;", n as usize),
            Color::Rgb(r, g, b) => append_sgr_rgb(&mut s, "48;2;", r, g, b),
        }
        proof { reveal_strlit(""); }
        assert(s@ =~= bg_code_of(*self));
        s
    }
}

/// Text style attributes that can be combined.
#[derive(Debug, Clone, Copy, PartialEq, Eq, Structural)]
pub struct Style {
    pub fg: Option<Color>,
    pub bg: Option<Color>,
    pub bold: bool,
    pub italic: bool,
    pub underline: bool,
    pub dim: bool,
    pub strikethrough: bool,
}

/// The style with no attribute set.
pub open spec fn plain_style() -> Style {
    Style {
        fg: None,
        bg: None,
        bold: false,
        italic: false,
        underline: false,
        dim: false,
        strikethrough: false,
    }
}

/// Whether no attribute of the style is set.
pub open spec fn style_is_empty(s: Style) -> bool {
    s.fg is None && s.bg is None && !s.bold && !s.italic && !s.underline && !s.dim
        && !s.strikethrough
}

/// `code` when `on` holds, nothing otherwise.
pub open spec fn when(on: bool, code: Seq<char>) -> Seq<char> {
    if on { code } else { Seq::empty() }
}

/// The escape sequence that activates a style.
pub open spec fn open_of(s: Style) -> Seq<char> {
    if style_is_empty(s) {
        Seq::empty()
    } else {
        (match s.fg { Some(c) => fg_code_of(c), None => Seq::empty() })
            + (match s.bg { Some(c) => bg_code_of(c), None => Seq::empty() })
            + when(s.bold, "\x1b[1m"@) + when(s.dim, "\x1b[2m"@) + when(s.italic, "\x1b[3m"@)
            + when(s.underline, "\x1b[4m"@) + when(s.strikethrough, "\x1b[9m"@)
    }
}

/// The escape sequence that resets a style.
pub open spec fn close_of(s: Style) -> Seq<char> {
    if style_is_empty(s) { Seq::empty() } else { "\x1b[0m"@ }
}

/// Text wrapped in a style's escape sequences; empty styles and empty text stay as they are.
pub open spec fn paint_of(s: Style, text: Seq<char>) -> Seq<char> {
    if style_is_empty(s) || text.len() == 0 {
        text
    } else {
        open_of(s) + text + close_of(s)
    }
}

/// `overlay` laid over `base`: its colors win where set, flags combine.
pub open spec fn merge_of(base: Style, overlay: Style) -> Style {
    Style {
        fg: if overlay.fg is Some { overlay.fg } else { base.fg },
        bg: if overlay.bg is Some { overlay.bg } else { base.bg },
        bold: overlay.bold || base.bold,
        italic: overlay.italic || base.italic,
        underline: overlay.underline || base.underline,
        dim: overlay.dim || base.dim,
        strikethrough: overlay.strikethrough || base.strikethrough,
    }
}

impl Default for Style {
    fn default() -> (s: Style)
        ensures
            s == plain_style(),
    {
        Style {
            fg: None,
            bg: None,
            bold: false,
            italic: false,
            underline: false,
            dim: false,
            strikethrough: false,
        }
    }
}

fn append_when(s: &mut String, on: bool, code: &str)
    ensures
        final(s)@ == old(s)@ + when(on, code@),
{
    if on {
        s.append(code);
    } else {
        assert(old(s)@ + when(on, code@) =~= old(s)@);
    }
}

impl Style {
    pub fn new() -> (s: Style)
        ensures
            s == plain_style(),
    {
        Style::default()
    }

    pub fn fg(self, color: Color) -> (s: Style)
        ensures
            s == (Style { fg: Some(color), ..self }),
    {
        let mut s = self;
        s.fg = Some(color);
        s
    }

    pub fn bg(self, color: Color) -> (s: Style)
        ensures
            s == (Style { bg: Some(color), ..self }),
    {
        let mut s = self;
        s.bg = Some(color);
        s
    }

    pub fn bold(self) -> (s: Style)
        ensures
            s == (Style { bold: true, ..self }),
    {
        let mut s = self;
        s.bold = true;
        s
    }

    pub fn italic(self) -> (s: Style)
        ensures
            s == (Style { italic: true, ..self }),
    {
        let mut s = self;
        s.italic = true;
        s
    }

    pub fn underline(self) -> (s: Style)
        ensures
            s == (Style { underline: true, ..self }),
    {
        let mut s = self;
        s.underline = true;
        s
    }

    pub fn dim(self) -> (s: Style)
        ensures
            s == (Style { dim: true, ..self }),
    {
        let mut s = self;
        s.dim = true;
        s
    }

    pub fn strikethrough(self) -> (s: Style)
        ensures
            s == (Style { strikethrough: true, ..self }),
    {
        let mut s = self;
        s.strikethrough = true;
        s
    }

    /// Returns true if this style has no attributes set.
    pub fn is_empty(&self) -> (b: bool)
        ensures
            b == style_is_empty(*self),
    {
        self.fg.is_none() && self.bg.is_none() && !self.bold && !self.italic && !self.underline
            && !self.dim && !self.strikethrough
    }

    /// Generate the ANSI escape sequence to activate this style.
    pub fn open(&self) -> (codes: String)
        ensures
            codes@ == open_of(*self),
    {
        if self.is_empty() {
            return String::new();
        }
        let mut codes = String::new();
        match self.fg {
            Some(c) => {
                let f = c.fg_code();
                codes.append(f.as_str());
            },
            None => {},
        }
        match self.bg {
            Some(c) => {
                let b = c.bg_code();
                codes.append(b.as_str());
            },
            None => {},
        }
        append_when(&mut codes, self.bold, "\x1b[1m");
        append_when(&mut codes, self.dim, "\x1b[2m");
        append_when(&mut codes, self.italic, "\x1b[3m");
        append_when(&mut codes, self.underline, "\x1b[4m");
        append_when(&mut codes, self.strikethrough, "\x1b[9m");
        assert(codes@ =~= open_of(*self));
        codes
    }

    /// Generate the ANSI escape sequence to reset this style.
    pub fn close(&self) -> (code: &'static str)
        ensures
            code@ == close_of(*self),
    {
        if self.is_empty() {
            proof { reveal_strlit(""); }
            ""
        } else {
            "\x1b[0m"
        }
    }

    /// Wrap text with this style's ANSI codes.
    pub fn paint(&self, text: &str) -> (painted: String)
        ensures
            painted@ == paint_of(*self, text@),
    {
        if self.is_empty() || text.is_empty() {
            return text.to_owned();
        }
        let mut out = self.open();
        out.append(text);
        out.append(self.close());
        out
    }

    /// Merge another style on top of this one (overlay takes precedence).
    pub fn merge(&self, overlay: &Style) -> (merged: Style)
        ensures
            merged == merge_of(*self, *overlay),
    {
        Style {
            fg: if overlay.fg.is_some() { overlay.fg } else { self.fg },
            bg: if overlay.bg.is_some() { overlay.bg } else { self.bg },
            bold: overlay.bold || self.bold,
            italic: overlay.italic || self.italic,
            underline: overlay.underline || self.underline,
            dim: overlay.dim || self.dim,
            strikethrough: overlay.strikethrough || self.strikethrough,
        }
    }
}

/// A styled span of text. The fundamental unit of rendered output.
#[derive(Debug, Clone)]
pub struct StyledSpan {
    pub text: String,
    pub style: Style,
}

impl StyledSpan {
    pub fn new(text: &str, style: Style) -> (span: StyledSpan)
        ensures
            span.text@ == text@,
            span.style == style,
    {
        StyledSpan { text: text.to_owned(), style }
    }

    pub fn plain(text: &str) -> (span: StyledSpan)
        ensures
            span.text@ == text@,
            span.style == plain_style(),
    {
        StyledSpan { text: text.to_owned(), style: Style::default() }
    }

    pub fn render(&self) -> (out: String)
        ensures
            out@ == paint_of(self.style, self.text@),
    {
        self.style.paint(self.text.as_str())
    }
}

/// Color support level detected for the terminal.
#[derive(Debug, Clone, Copy, PartialEq, Eq, PartialOrd, Ord, Structural)]
pub enum ColorLevel {
    /// No color support.
    NoColor,
    /// Basic 16 colors.
    Basic,
    /// 256-color palette.
    Palette,
    /// 24-bit true color.
    TrueColor,
}

/// The escape sequence that resets all attributes.
pub const RESET: &'static str = "\x1b[0m";

/// Painting with a style leaves text unchanged exactly when the style is empty or the text is.
pub proof fn lemma_paint_identity(s: Style, text: Seq<char>)
    ensures
        (style_is_empty(s) || text.len() == 0) ==> paint_of(s, text) == text,
        style_is_empty(s) <==> open_of(s).len() == 0,
        style_is_empty(s) <==> close_of(s).len() == 0,
{
    reveal_strlit("\x1b[0m");
    if !style_is_empty(s) {
        reveal_strlit("\x1b[1m");
        reveal_strlit("\x1b[2m");
        reveal_strlit("\x1b[3m");
        reveal_strlit("\x1b[4m");
        reveal_strlit("\x1b[9m");
        reveal_strlit("\x1b[");
        reveal_strlit("m");
        match s.fg {
            Some(c) => lemma_code_nonempty(c),
            None => {},
        }
        match s.bg {
            Some(c) => lemma_code_nonempty(c),
            None => {},
        }
    }
}

proof fn lemma_code_nonempty(c: Color)
    ensures
        fg_code_of(c).len() > 0,
        bg_code_of(c).len() > 0,
{
    reveal_strlit("\x1b[");
}

/// Merging with the empty style, on either side, changes nothing.
pub proof fn lemma_merge_identity(s: Style)
    ensures
        merge_of(s, plain_style()) == s,
        merge_of(plain_style(), s) == s,
{
}

/// Merging is associative.
pub proof fn lemma_merge_assoc(a: Style, b: Style, c: Style)
    ensures
        merge_of(merge_of(a, b), c) == merge_of(a, merge_of(b, c)),
{
}

/// The SGR sequence whose parameter is the two digits `a` then `b`.
pub open spec fn sgr2(a: char, b: char) -> Seq<char> {
    seq!['\x1b', '[', a, b, 'm']
}

proof fn lemma_decimal_two_digits(tens: nat, n: nat)
    requires
        1 <= tens <= 9,
        n < 10,
    ensures
        decimal(10 * tens + n) == seq![crate::text::digit_char(tens), crate::text::digit_char(n)],
{
    let v = 10 * tens + n;
    assert(v / 10 == tens);
    assert(v % 10 == n);
    assert(decimal(tens) == seq![crate::text::digit_char(tens)]);
    assert(decimal(v) == decimal(v / 10).push(crate::text::digit_char(v % 10)));
    assert(decimal(v) =~= seq![crate::text::digit_char(tens), crate::text::digit_char(n)]);
}

/// The sixteen standard colors use the standard SGR codes: color `n` below 8 is foreground
/// `3n` and background `4n`; bright color `8 + n` is foreground `9n` and background `10n`.
pub proof fn lemma_ansi_color_codes(n: u8)
    requires
        n < 16,
    ensures
        n < 8 ==> fg_code_of(Color::Ansi(n)) == sgr2('3', crate::text::digit_char(n as nat)),
        n < 8 ==> bg_code_of(Color::Ansi(n)) == sgr2('4', crate::text::digit_char(n as nat)),
        n >= 8 ==> fg_code_of(Color::Ansi(n)) == sgr2('9', crate::text::digit_char((n - 8) as nat)),
        n >= 8 ==> bg_code_of(Color::Ansi(n)) == seq!['\x1b', '[', '1', '0', crate::text::digit_char((n - 8) as nat), 'm'],
{
    reveal_strlit("\x1b[");
    reveal_strlit("m");
    assert(crate::text::digit_char(3) == '3');
    assert(crate::text::digit_char(4) == '4');
    assert(crate::text::digit_char(9) == '9');
    assert(crate::text::digit_char(1) == '1');
    assert(crate::text::digit_char(0) == '0');
    if n < 8 {
        lemma_decimal_two_digits(3, n as nat);
        lemma_decimal_two_digits(4, n as nat);
        assert(fg_code_of(Color::Ansi(n)) =~= sgr2('3', crate::text::digit_char(n as nat)));
        assert(bg_code_of(Color::Ansi(n)) =~= sgr2('4', crate::text::digit_char(n as nat)));
    } else {
        let m = (n - 8) as nat;
        lemma_decimal_two_digits(9, m);
        assert(82 + n as nat == 10 * 9 + m);
        assert(fg_code_of(Color::Ansi(n)) =~= sgr2('9', crate::text::digit_char(m)));
        let v = 92 + n as nat;
        assert(v == 100 + m);
        assert(v / 10 == 10 && v % 10 == m);
        lemma_decimal_two_digits(1, 0);
        assert(decimal(10nat) == decimal(1nat).push(crate::text::digit_char(0nat)));
        assert(decimal(v) == decimal(v / 10).push(crate::text::digit_char(v % 10)));
        assert(bg_code_of(Color::Ansi(n)) =~= seq!['\x1b', '[', '1', '0', crate::text::digit_char(m), 'm']);
    }
}

/// Palette and true colors use the extended SGR forms, their numbers in decimal in order:
/// `38;5;n` and `48;5;n`, `38;2;r;g;b` and `48;2;r;g;b`.
pub proof fn lemma_extended_color_codes(n: u8, r: u8, g: u8, b: u8)
    ensures
        fg_code_of(Color::Palette(n)) == "\x1b[38;5;"@ + decimal(n as nat) + seq!['m'],
        bg_code_of(Color::Palette(n)) == "\x1b[48;5;"@ + decimal(n as nat) + seq!['m'],
        fg_code_of(Color::Rgb(r, g, b)) == "\x1b[38;2;"@ + decimal(r as nat) + seq![';'] + decimal(g as nat)
            + seq![';'] + decimal(b as nat) + seq!['m'],
        bg_code_of(Color::Rgb(r, g, b)) == "\x1b[48;2;"@ + decimal(r as nat) + seq![';'] + decimal(g as nat)
            + seq![';'] + decimal(b as nat) + seq!['m'],
{
    reveal_strlit("\x1b[");
    reveal_strlit("m");
    reveal_strlit(";");
    reveal_strlit("38;5;");
    reveal_strlit("48;5;");
    reveal_strlit("38;2;");
    reveal_strlit("48;2;");
    reveal_strlit("\x1b[38;5;");
    reveal_strlit("\x1b[48;5;");
    reveal_strlit("\x1b[38;2;");
    reveal_strlit("\x1b[48;2;");
    assert(fg_code_of(Color::Palette(n)) =~= "\x1b[38;5;"@ + decimal(n as nat) + seq!['m']);
    assert(bg_code_of(Color::Palette(n)) =~= "\x1b[48;5;"@ + decimal(n as nat) + seq!['m']);
    assert(fg_code_of(Color::Rgb(r, g, b)) =~= "\x1b[38;2;"@ + decimal(r as nat) + seq![';'] + decimal(g as nat)
        + seq![';'] + decimal(b as nat) + seq!['m']);
    assert(bg_code_of(Color::Rgb(r, g, b)) =~= "\x1b[48;2;"@ + decimal(r as nat) + seq![';'] + decimal(g as nat)
        + seq![';'] + decimal(b as nat) + seq!['m']);
}

/// Text painted with a single attribute is wrapped in that attribute's SGR code and the reset:
/// bold 1, dim 2, italic 3, underline 4, strikethrough 9.
pub proof fn lemma_attribute_codes(t: Seq<char>)
    requires
        t.len() > 0,
    ensures
        paint_of(Style { bold: true, ..plain_style() }, t) == "\x1b[1m"@ + t + "\x1b[0m"@,
        paint_of(Style { dim: true, ..plain_style() }, t) == "\x1b[2m"@ + t + "\x1b[0m"@,
        paint_of(Style { italic: true, ..plain_style() }, t) == "\x1b[3m"@ + t + "\x1b[0m"@,
        paint_of(Style { underline: true, ..plain_style() }, t) == "\x1b[4m"@ + t + "\x1b[0m"@,
        paint_of(Style { strikethrough: true, ..plain_style() }, t) == "\x1b[9m"@ + t + "\x1b[0m"@,
{
    let p = plain_style();
    assert(open_of(Style { bold: true, ..p }) =~= "\x1b[1m"@);
    assert(open_of(Style { dim: true, ..p }) =~= "\x1b[2m"@);
    assert(open_of(Style { italic: true, ..p }) =~= "\x1b[3m"@);
    assert(open_of(Style { underline: true, ..p }) =~= "\x1b[4m"@);
    assert(open_of(Style { strikethrough: true, ..p }) =~= "\x1b[9m"@);
}

/// A foreground color is written before the text and reset after it.
pub proof fn lemma_fg_paint(c: Color, t: Seq<char>)
    requires
        t.len() > 0,
    ensures
        paint_of(Style { fg: Some(c), ..plain_style() }, t) == fg_code_of(c) + t + "\x1b[0m"@,
{
    let st = Style { fg: Some(c), ..plain_style() };
    assert(open_of(st) =~= fg_code_of(c));
}

/// The digit character of a hexadecimal digit value, lower case.
pub open spec fn hex_char(v: nat) -> char {
    if v < 10 { (('0' as u32) + v) as char } else { (('a' as u32) + v - 10) as char }
}

/// The two hexadecimal digits of a byte, high digit first.
pub open spec fn hex_byte(v: u8) -> Seq<char> {
    seq![hex_char((v / 16) as nat), hex_char((v % 16) as nat)]
}

proof fn lemma_hex_char_value(v: nat)
    requires
        v < 16,
    ensures
        hex_value(hex_char(v)) == Some(v),
{
}

/// A color written `#rrggbb`, each channel as two hexadecimal digits, reads back as that color.
pub proof fn lemma_hex_round_trip(r: u8, g: u8, b: u8)
    ensures
        from_hex_of(seq!['#'] + hex_byte(r) + hex_byte(g) + hex_byte(b)) == Some(Color::Rgb(r, g, b)),
        from_hex_of(hex_byte(r) + hex_byte(g) + hex_byte(b)) == Some(Color::Rgb(r, g, b)),
{
    lemma_hex_char_value((r / 16) as nat);
    lemma_hex_char_value((r % 16) as nat);
    lemma_hex_char_value((g / 16) as nat);
    lemma_hex_char_value((g % 16) as nat);
    lemma_hex_char_value((b / 16) as nat);
    lemma_hex_char_value((b % 16) as nat);
    let body = hex_byte(r) + hex_byte(g) + hex_byte(b);
    let s = seq!['#'] + body;
    assert(strip_hash(s) =~= body);
    assert(hex_char((r / 16) as nat) != '+');
    assert(hex_char((g / 16) as nat) != '+');
    assert(hex_char((b / 16) as nat) != '+');
    assert(body.len() > 0 ==> body[0] != '#');
    assert(strip_hash(body) =~= body);
    assert(body[0] == hex_char((r / 16) as nat) && body[1] == hex_char((r % 16) as nat));
    assert(body[2] == hex_char((g / 16) as nat) && body[3] == hex_char((g % 16) as nat));
    assert(body[4] == hex_char((b / 16) as nat) && body[5] == hex_char((b % 16) as nat));
    assert((16 * (r / 16) as nat + (r % 16) as nat) as u8 == r);
    assert((16 * (g / 16) as nat + (g % 16) as nat) as u8 == g);
    assert((16 * (b / 16) as nat + (b % 16) as nat) as u8 == b);
}

} // verus!
