//! Syntax highlighting of code blocks with syntect's bundled syntaxes and themes.

use vstd::prelude::*;
use crate::style::{Color, Style, paint_of, plain_style};
use crate::text::string_views;
use syntect::highlighting::Theme as SyntectTheme;

verus! {

#[verifier::external_type_specification]
#[verifier::external_body]
pub struct ExSyntaxSet(syntect::parsing::SyntaxSet);

#[verifier::external_type_specification]
#[verifier::external_body]
pub struct ExSyntectTheme(SyntectTheme);

/// A highlighted run of code as syntect gives it: the foreground color, the font style bits
/// (bold 1, underline 2, italic 4) and the text, line feed included.
pub struct RawSpan {
    pub r: u8,
    pub g: u8,
    pub b: u8,
    pub font: u8,
    pub text: String,
}

/// A highlighted run with its text as a character sequence.
pub struct RawSpanView {
    pub r: u8,
    pub g: u8,
    pub b: u8,
    pub font: u8,
    pub text: Seq<char>,
}

impl View for RawSpan {
    type V = RawSpanView;

    open spec fn view(&self) -> RawSpanView {
        RawSpanView { r: self.r, g: self.g, b: self.b, font: self.font, text: self.text@ }
    }
}

/// The view of a highlighted line.
pub open spec fn raw_line_view(l: Vec<RawSpan>) -> Seq<RawSpanView> {
    l@.map_values(|s: RawSpan| s@)
}

/// The views of highlighted lines.
pub open spec fn raw_lines_view(v: Seq<Vec<RawSpan>>) -> Seq<Seq<RawSpanView>> {
    v.map_values(|l: Vec<RawSpan>| raw_line_view(l))
}

/// Whether syntect's bundled syntax set finds a syntax for `lang` by
/// `SyntaxSet::find_syntax_by_token`.
pub uninterp spec fn syntax_for_token(lang: Seq<char>) -> bool;

/// Whether syntect's bundled syntax set finds a syntax for `lang` by
/// `SyntaxSet::find_syntax_by_extension`.
pub uninterp spec fn syntax_for_extension(lang: Seq<char>) -> bool;

/// What syntect's `HighlightLines` gives for `code`, split by `LinesWithEndings`, with the
/// syntax that `find_syntax_by_token` finds for `lang` and the bundled theme named `theme`: the
/// runs of each line up to the first line that cannot be highlighted, and whether every line
/// could be.
pub uninterp spec fn syntect_token_lines(theme: Seq<char>, code: Seq<char>, lang: Seq<char>) -> (Seq<Seq<RawSpanView>>, bool);

/// The same as `syntect_token_lines`, with the syntax that `find_syntax_by_extension` finds.
pub uninterp spec fn syntect_extension_lines(theme: Seq<char>, code: Seq<char>, lang: Seq<char>) -> (Seq<Seq<RawSpanView>>, bool);

/// Highlighted lines, where each could be highlighted.
pub open spec fn complete_lines(r: (Seq<Seq<RawSpanView>>, bool)) -> Option<Seq<Seq<RawSpanView>>> {
    if r.1 {
        Some(r.0)
    } else {
        None
    }
}

/// The highlighted lines of `code` in language `lang` under the bundled theme named `theme`: the
/// language is looked up as a token first, then as a file extension; nothing where neither finds
/// a syntax or a line cannot be highlighted.
pub open spec fn syntect_lines(theme: Seq<char>, code: Seq<char>, lang: Seq<char>) -> Option<Seq<Seq<RawSpanView>>> {
    if syntax_for_token(lang) {
        complete_lines(syntect_token_lines(theme, code, lang))
    } else if syntax_for_extension(lang) {
        complete_lines(syntect_extension_lines(theme, code, lang))
    } else {
        None
    }
}

/// syntect's `SyntaxSet::load_defaults_newlines`: the bundled syntaxes, for lines that keep
/// their line feeds.
#[verifier::external_body]
fn load_syntaxes() -> (s: syntect::parsing::SyntaxSet) {
    syntect::parsing::SyntaxSet::load_defaults_newlines()
}

/// The themes that syntect's documentation of `ThemeSet::load_defaults` lists.
pub open spec fn bundled_theme_name(n: Seq<char>) -> bool {
    n == "base16-ocean.dark"@ || n == "base16-eighties.dark"@ || n == "base16-mocha.dark"@
        || n == "base16-ocean.light"@ || n == "InspiredGitHub"@ || n == "Solarized (dark)"@
        || n == "Solarized (light)"@
}

/// The theme named `name` among syntect's bundled themes (`ThemeSet::load_defaults`, looked
/// up with `get`), if there is one; there is one for each name that its documentation lists.
#[verifier::external_body]
fn load_theme(name: &str) -> (t: Option<SyntectTheme>)
    ensures
        bundled_theme_name(name@) ==> t is Some,
{
    syntect::highlighting::ThemeSet::load_defaults().themes.get(name).cloned()
}

/// The bundled theme named `name` (`ThemeSet::load_defaults` indexed by `name`), for a name
/// that syntect's documentation lists.
#[verifier::external_body]
fn bundled_theme(name: &str) -> (t: SyntectTheme)
    requires
        bundled_theme_name(name@),
{
    syntect::highlighting::ThemeSet::load_defaults().themes[name].clone()
}

/// The default theme of the highlighter.
pub open spec fn default_theme_name() -> Seq<char> {
    "base16-ocean.dark"@
}

/// Built-in syntax highlighter powered by syntect.
///
/// Uses the same highlighting engine as Sublime Text and VS Code,
/// supporting 200+ languages out of the box with zero configuration.
///
/// Every highlighter holds syntect's bundled syntax set and the bundled theme that `theme_name`
/// names: `new` and `with_theme`, which build them from `load_syntaxes` and the theme looked up
/// by that name, are the only ways to make one, and no method changes a field.
pub struct Highlighter {
    syntax_set: syntect::parsing::SyntaxSet,
    theme: SyntectTheme,
    theme_name: String,
}

impl View for Highlighter {
    type V = Seq<char>;

    /// The name of the bundled theme that the highlighter uses.
    closed spec fn view(&self) -> Seq<char> {
        self.theme_name@
    }
}

impl Highlighter {
    /// syntect's `SyntaxSet::find_syntax_by_token` on the bundled syntax set, whether it finds a
    /// syntax; named by `syntax_for_token`.
    #[verifier::external_body]
    fn has_token_syntax(&self, lang: &str) -> (b: bool)
        ensures
            b == syntax_for_token(lang@),
    {
        self.syntax_set.find_syntax_by_token(lang).is_some()
    }

    /// syntect's `SyntaxSet::find_syntax_by_extension` on the bundled syntax set, whether it
    /// finds a syntax; named by `syntax_for_extension`.
    #[verifier::external_body]
    fn has_extension_syntax(&self, lang: &str) -> (b: bool)
        ensures
            b == syntax_for_extension(lang@),
    {
        self.syntax_set.find_syntax_by_extension(lang).is_some()
    }

    /// syntect's `HighlightLines::highlight_line` over the lines of `code`
    /// (`LinesWithEndings`), with the syntax that `find_syntax_by_token` finds for `lang`,
    /// stopping at the first line that syntect cannot highlight; each run is taken as its
    /// foreground color, font bits and text. Its result is named by `syntect_token_lines`.
    #[verifier::external_body]
    fn highlight_by_token(&self, code: &str, lang: &str) -> (r: (Vec<Vec<RawSpan>>, bool))
        requires
            syntax_for_token(lang@),
        ensures
            (raw_lines_view(r.0@), r.1) == syntect_token_lines(self@, code@, lang@),
    {
        let syntax = self.syntax_set.find_syntax_by_token(lang).unwrap();
        let mut h = syntect::easy::HighlightLines::new(syntax, &self.theme);
        let mut out = Vec::new();
        for line in syntect::util::LinesWithEndings::from(code) {
            match h.highlight_line(line, &self.syntax_set) {
                Ok(runs) => out.push(runs.into_iter().map(|(s, t)| RawSpan { r: s.foreground.r,
                    g: s.foreground.g, b: s.foreground.b, font: s.font_style.bits(),
                    text: t.to_string() }).collect()),
                Err(_) => return (out, false),
            }
        }
        (out, true)
    }

    /// The same as `highlight_by_token`, with the syntax that `find_syntax_by_extension` finds
    /// for `lang`. Its result is named by `syntect_extension_lines`.
    #[verifier::external_body]
    fn highlight_by_extension(&self, code: &str, lang: &str) -> (r: (Vec<Vec<RawSpan>>, bool))
        requires
            syntax_for_extension(lang@),
        ensures
            (raw_lines_view(r.0@), r.1) == syntect_extension_lines(self@, code@, lang@),
    {
        let syntax = self.syntax_set.find_syntax_by_extension(lang).unwrap();
        let mut h = syntect::easy::HighlightLines::new(syntax, &self.theme);
        let mut out = Vec::new();
        for line in syntect::util::LinesWithEndings::from(code) {
            match h.highlight_line(line, &self.syntax_set) {
                Ok(runs) => out.push(runs.into_iter().map(|(s, t)| RawSpan { r: s.foreground.r,
                    g: s.foreground.g, b: s.foreground.b, font: s.font_style.bits(),
                    text: t.to_string() }).collect()),
                Err(_) => return (out, false),
            }
        }
        (out, true)
    }

    /// The highlighted lines of `code` in language `lang`: the syntax is looked up as a token
    /// first, then as a file extension; nothing where neither finds one or a line cannot be
    /// highlighted.
    fn highlight_raw(&self, code: &str, lang: &str) -> (r: Option<Vec<Vec<RawSpan>>>)
        ensures
            match syntect_lines(self@, code@, lang@) {
                None => r is None,
                Some(ls) => r matches Some(v) && raw_lines_view(v@) == ls,
            },
    {
        if self.has_token_syntax(lang) {
            let (v, ok) = self.highlight_by_token(code, lang);
            if ok {
                Some(v)
            } else {
                None
            }
        } else if self.has_extension_syntax(lang) {
            let (v, ok) = self.highlight_by_extension(code, lang);
            if ok {
                Some(v)
            } else {
                None
            }
        } else {
            None
        }
    }

    /// Create a highlighter with the default theme (base16-ocean.dark).
    pub fn new() -> (h: Highlighter)
        ensures
            h@ == default_theme_name(),
    {
        proof {
            reveal_strlit("base16-ocean.dark");
        }
        let name = "base16-ocean.dark";
        Highlighter { syntax_set: load_syntaxes(), theme: bundled_theme(name), theme_name: name.to_string() }
    }

    /// Create a highlighter with a named syntect theme.
    pub fn with_theme(theme_name: &str) -> (h: Option<Highlighter>)
        ensures
            h matches Some(x) ==> x@ == theme_name@,
            bundled_theme_name(theme_name@) ==> h is Some,
    {
        match load_theme(theme_name) {
            Some(theme) => Some(
                Highlighter { syntax_set: load_syntaxes(), theme, theme_name: theme_name.to_string() },
            ),
            None => None,
        }
    }

    /// Check if a language identifier is recognized.
    pub fn supports_language(&self, language: &str) -> (b: bool)
        ensures
            b == (syntax_for_token(language@) || syntax_for_extension(language@)),
    {
        self.has_token_syntax(language) || self.has_extension_syntax(language)
    }

    /// Highlight a block of code, returning lines of styled spans.
    ///
    /// Each line is a `Vec<(Style, String)>` where Style is our ANSI style.
    /// If the language is unknown, returns `None` (caller can fall back to plain).
    pub fn highlight(&self, code: &str, language: &str) -> (r: Option<Vec<Vec<(Style, String)>>>)
        ensures
            match syntect_lines(self@, code@, language@) {
                None => r is None,
                Some(lines) => r matches Some(v) && styled_lines_view(v@) == styled_lines_of(lines),
            },
            !syntax_for_token(language@) && !syntax_for_extension(language@) ==> r is None,
    {
        match self.highlight_raw(code, language) {
            None => None,
            Some(raw) => {
                let mut out: Vec<Vec<(Style, String)>> = Vec::new();
                let ghost rv = raw_lines_view(raw@);
                let mut i: usize = 0;
                while i < raw.len()
                    invariant
                        i <= raw@.len(),
                        rv == raw_lines_view(raw@),
                        out@.len() == i,
                        forall|k: int| 0 <= k < i ==> styled_line_view(#[trigger] out@[k]) == styled_line_of(rv[k]),
                    decreases raw.len() - i,
                {
                    let line = styled_line(&raw[i]);
                    out.push(line);
                    i = i + 1;
                }
                assert(styled_lines_view(out@) =~= styled_lines_of(rv));
                Some(out)
            },
        }
    }

    /// Highlight code and render directly to ANSI-escaped string lines.
    pub fn highlight_to_ansi(&self, code: &str, language: &str) -> (r: Option<Vec<String>>)
        ensures
            match syntect_lines(self@, code@, language@) {
                None => r is None,
                Some(lines) => r matches Some(v) && string_views(v@) == ansi_lines_of(lines),
            },
            !syntax_for_token(language@) && !syntax_for_extension(language@) ==> r is None,
    {
        match self.highlight(code, language) {
            None => None,
            Some(lines) => {
                let ghost src = syntect_lines(self@, code@, language@)->0;
                let mut out: Vec<String> = Vec::new();
                let mut i: usize = 0;
                while i < lines.len()
                    invariant
                        i <= lines@.len(),
                        styled_lines_view(lines@) == styled_lines_of(src),
                        out@.len() == i,
                        forall|k: int| 0 <= k < i ==> (#[trigger] out@[k])@ == painted_line(styled_line_of(src[k])),
                    decreases lines.len() - i,
                {
                    let l = paint_spans(&lines[i]);
                    assert(styled_lines_view(lines@)[i as int] == styled_line_view(lines@[i as int]));
                    assert(styled_lines_view(lines@).len() == lines@.len());
                    assert(styled_lines_of(src).len() == src.len());
                    assert(styled_lines_of(src)[i as int] == styled_line_of(src[i as int]));
                    out.push(l);
                    i = i + 1;
                }
                assert(styled_lines_of(src).len() == src.len());
                assert(string_views(out@) =~= ansi_lines_of(src));
                Some(out)
            },
        }
    }
}

impl Default for Highlighter {
    fn default() -> (h: Highlighter)
        ensures
            h@ == default_theme_name(),
    {
        Highlighter::new()
    }
}

/// The terminal style of a syntect run: its foreground as true color, and bold, italic and
/// underline from its font bits.
pub open spec fn span_style(r: u8, g: u8, b: u8, font: u8) -> Style {
    Style {
        fg: Some(Color::Rgb(r, g, b)),
        bold: font & 1u8 != 0,
        italic: font & 4u8 != 0,
        underline: font & 2u8 != 0,
        ..plain_style()
    }
}

/// Convert a syntect style to our ANSI Style.
fn syntect_to_mdansi_style(r: u8, g: u8, b: u8, font: u8) -> (s: Style)
    ensures
        s == span_style(r, g, b, font),
{
    let mut style = Style::new().fg(Color::Rgb(r, g, b));
    if font & 1u8 != 0 {
        style.bold = true;
    }
    if font & 4u8 != 0 {
        style.italic = true;
    }
    if font & 2u8 != 0 {
        style.underline = true;
    }
    style
}

/// A text without its trailing line feeds.
pub open spec fn trim_newlines(t: Seq<char>) -> Seq<char>
    decreases t.len(),
{
    if t.len() > 0 && t.last() == '\n' {
        trim_newlines(t.drop_last())
    } else {
        t
    }
}

/// The styled runs of a highlighted line.
pub open spec fn styled_line_of(l: Seq<RawSpanView>) -> Seq<(Style, Seq<char>)> {
    l.map_values(|s: RawSpanView| (span_style(s.r, s.g, s.b, s.font), trim_newlines(s.text)))
}

/// The styled runs of highlighted lines.
pub open spec fn styled_lines_of(ls: Seq<Seq<RawSpanView>>) -> Seq<Seq<(Style, Seq<char>)>> {
    ls.map_values(|l: Seq<RawSpanView>| styled_line_of(l))
}

/// The view of a styled line.
pub open spec fn styled_line_view(l: Vec<(Style, String)>) -> Seq<(Style, Seq<char>)> {
    l@.map_values(|p: (Style, String)| (p.0, p.1@))
}

/// The view of styled lines.
pub open spec fn styled_lines_view(v: Seq<Vec<(Style, String)>>) -> Seq<Seq<(Style, Seq<char>)>> {
    v.map_values(|l: Vec<(Style, String)>| styled_line_view(l))
}

/// A line of styled runs painted one after the other.
pub open spec fn painted_line(l: Seq<(Style, Seq<char>)>) -> Seq<char>
    decreases l.len(),
{
    if l.len() == 0 {
        Seq::empty()
    } else {
        painted_line(l.drop_last()) + paint_of(l.last().0, l.last().1)
    }
}

/// Highlighted lines as ANSI text, one string per line.
pub open spec fn ansi_lines_of(ls: Seq<Seq<RawSpanView>>) -> Seq<Seq<char>> {
    ls.map_values(|l: Seq<RawSpanView>| painted_line(styled_line_of(l)))
}

/// Removes the trailing line feeds of a text.
pub fn trim_newlines_exec(t: &str) -> (r: String)
    ensures
        r@ == trim_newlines(t@),
{
    let v = crate::text::chars_of(t);
    let mut n = v.len();
    assert(v@.take(n as int) =~= v@);
    while n > 0 && v[n - 1] == '\n'
        invariant
            n <= v@.len(),
            v@ == t@,
            trim_newlines(t@) == trim_newlines(v@.take(n as int)),
        decreases n,
    {
        assert(v@.take(n as int).drop_last() =~= v@.take(n - 1));
        n = n - 1;
    }
    assert(trim_newlines(v@.take(n as int)) == v@.take(n as int));
    crate::text::string_of_range(v.as_slice(), 0, n)
}

/// The styled runs of one highlighted line.
fn styled_line(raw: &Vec<RawSpan>) -> (l: Vec<(Style, String)>)
    ensures
        styled_line_view(l) == styled_line_of(raw_line_view(*raw)),
{
    let mut out: Vec<(Style, String)> = Vec::new();
    let mut j: usize = 0;
    while j < raw.len()
        invariant
            j <= raw@.len(),
            out@.len() == j,
            forall|k: int| 0 <= k < j ==> {
                let p = #[trigger] out@[k];
                let sp = raw@[k];
                p.0 == span_style(sp.r, sp.g, sp.b, sp.font) && p.1@ == trim_newlines(sp.text@)
            },
        decreases raw.len() - j,
    {
        let sp = &raw[j];
        let style = syntect_to_mdansi_style(sp.r, sp.g, sp.b, sp.font);
        let text = trim_newlines_exec(sp.text.as_str());
        out.push((style, text));
        j = j + 1;
    }
    assert(styled_line_view(out) =~= styled_line_of(raw_line_view(*raw)));
    out
}

/// Paints the runs of a line one after the other.
fn paint_spans(l: &Vec<(Style, String)>) -> (s: String)
    ensures
        s@ == painted_line(styled_line_view(*l)),
{
    let ghost lv = styled_line_view(*l);
    let mut out = String::new();
    let mut j: usize = 0;
    while j < l.len()
        invariant
            j <= l@.len(),
            lv == styled_line_view(*l),
            out@ == painted_line(lv.take(j as int)),
        decreases l.len() - j,
    {
        let p = l[j].0.paint(l[j].1.as_str());
        out.append(p.as_str());
        j = j + 1;
        assert(lv.take(j as int).drop_last() =~= lv.take(j - 1));
    }
    assert(lv.take(j as int) =~= lv);
    out
}

/// A highlighted run keeps syntect's foreground channel for channel, as a true color, and its
/// font bits (1 bold, 2 underline, 4 italic); it sets nothing else, and its text loses only its
/// trailing line feeds.
pub proof fn lemma_run_keeps_syntect_style(l: Seq<RawSpanView>, k: int)
    requires
        0 <= k < l.len(),
    ensures
        styled_line_of(l)[k].0.fg == Some(Color::Rgb(l[k].r, l[k].g, l[k].b)),
        styled_line_of(l)[k].0.bold == (l[k].font & 1u8 != 0),
        styled_line_of(l)[k].0.underline == (l[k].font & 2u8 != 0),
        styled_line_of(l)[k].0.italic == (l[k].font & 4u8 != 0),
        styled_line_of(l)[k].0.bg is None,
        !styled_line_of(l)[k].0.dim,
        !styled_line_of(l)[k].0.strikethrough,
        styled_line_of(l)[k].1 == trim_newlines(l[k].text),
{
}

/// Trimming line feeds drops exactly the trailing line feeds of a text.
pub proof fn lemma_trim_newlines(t: Seq<char>)
    ensures
        exists|k: int|
            #![trigger t.take(k)]
            0 <= k <= t.len() && trim_newlines(t) == t.take(k) && (forall|j: int| k <= j < t.len() ==> #[trigger] t[j]
                == '\n') && (k > 0 ==> t[k - 1] != '\n'),
    decreases t.len(),
{
    if t.len() > 0 && t.last() == '\n' {
        lemma_trim_newlines(t.drop_last());
        let u = t.drop_last();
        let k = choose|k: int|
            #![trigger u.take(k)]
            0 <= k <= u.len() && trim_newlines(u) == u.take(k) && (forall|j: int| k <= j < u.len() ==> #[trigger] u[j]
                == '\n') && (k > 0 ==> u[k - 1] != '\n');
        assert(u.take(k) =~= t.take(k));
        assert forall|j: int| k <= j < t.len() implies #[trigger] t[j] == '\n' by {
            if j < t.len() - 1 {
                assert(t[j] == u[j]);
            }
        }
        if k > 0 {
            assert(t[k - 1] == u[k - 1]);
        }
    } else {
        assert(t.take(t.len() as int) =~= t);
    }
}

/// A highlighted line is its runs, each painted in its style, one after the other: painting a
/// line split in two gives the two painted parts in order.
pub proof fn lemma_painted_line_concat(a: Seq<(Style, Seq<char>)>, b: Seq<(Style, Seq<char>)>)
    ensures
        painted_line(a + b) == painted_line(a) + painted_line(b),
    decreases b.len(),
{
    if b.len() == 0 {
        assert(a + b =~= a);
        assert(painted_line(a) + Seq::<char>::empty() =~= painted_line(a));
    } else {
        assert((a + b).drop_last() =~= a + b.drop_last());
        lemma_painted_line_concat(a, b.drop_last());
        assert(painted_line(a) + painted_line(b.drop_last()) + paint_of(b.last().0, b.last().1) =~= painted_line(a)
            + (painted_line(b.drop_last()) + paint_of(b.last().0, b.last().1)));
    }
}

/// One run painted alone is the run's text in its style.
pub proof fn lemma_painted_single_run(st: Style, t: Seq<char>)
    ensures
        painted_line(seq![(st, t)]) == paint_of(st, t),
{
    let l = seq![(st, t)];
    assert(l.drop_last() =~= Seq::<(Style, Seq<char>)>::empty());
    assert(painted_line(l.drop_last()) == Seq::<char>::empty());
    assert(l.last() == (st, t));
    assert(painted_line(l) == painted_line(l.drop_last()) + paint_of(l.last().0, l.last().1));
    assert(Seq::<char>::empty() + paint_of(st, t) =~= paint_of(st, t));
}

/// The ANSI lines of highlighted code: one per line, each its runs painted in their styles.
pub proof fn lemma_ansi_lines(ls: Seq<Seq<RawSpanView>>, k: int)
    requires
        0 <= k < ls.len(),
    ensures
        ansi_lines_of(ls).len() == ls.len(),
        ansi_lines_of(ls)[k] == painted_line(styled_line_of(ls[k])),
        styled_line_of(ls[k]).len() == ls[k].len(),
{
}

} // verus!
