//! Terminal capabilities and the rules that derive them from the environment.

use vstd::prelude::*;
use crate::style::ColorLevel;
use crate::text::{chars_of, eq_str};

verus! {

/// Detected terminal capabilities.
#[derive(Debug, Clone, Copy, PartialEq, Eq, Structural)]
pub struct TerminalCaps {
    pub width: usize,
    pub color_level: ColorLevel,
    pub hyperlinks: bool,
    pub is_tty: bool,
    pub sixel: bool,
    pub kitty_graphics: bool,
}

/// An 80-column pipe with no color and no terminal features.
pub open spec fn default_caps() -> TerminalCaps {
    TerminalCaps {
        width: 80,
        color_level: ColorLevel::NoColor,
        hyperlinks: false,
        is_tty: false,
        sixel: false,
        kitty_graphics: false,
    }
}

impl Default for TerminalCaps {
    fn default() -> (c: TerminalCaps)
        ensures
            c == default_caps(),
    {
        TerminalCaps {
            width: 80,
            color_level: ColorLevel::NoColor,
            hyperlinks: false,
            is_tty: false,
            sixel: false,
            kitty_graphics: false,
        }
    }
}

impl TerminalCaps {
    /// Create capabilities for a non-interactive pipe (no colors, no TTY).
    pub fn pipe(width: usize) -> (c: TerminalCaps)
        ensures
            c == (TerminalCaps { width, ..default_caps() }),
    {
        TerminalCaps { width, ..TerminalCaps::default() }
    }

    /// Override width.
    pub fn with_width(self, width: usize) -> (c: TerminalCaps)
        ensures
            c == (TerminalCaps { width, ..self }),
    {
        TerminalCaps { width, ..self }
    }

    /// Override color level.
    pub fn with_color_level(self, level: ColorLevel) -> (c: TerminalCaps)
        ensures
            c == (TerminalCaps { color_level: level, ..self }),
    {
        TerminalCaps { color_level: level, ..self }
    }

    /// Check if any color output is supported.
    pub fn has_color(&self) -> (b: bool)
        ensures
            b == (self.color_level != ColorLevel::NoColor),
    {
        match self.color_level {
            ColorLevel::NoColor => false,
            _ => true,
        }
    }
}

/// Whether an optional environment value is present and equal to `lit`.
pub open spec fn env_is(v: Option<Seq<char>>, lit: Seq<char>) -> bool {
    v == Some(lit)
}

/// The view of an optional environment value.
pub open spec fn env_view(v: Option<String>) -> Option<Seq<char>> {
    match v {
        Some(s) => Some(s@),
        None => None,
    }
}

/// Whether `pat` occurs somewhere in `s`.
pub open spec fn contains_seq(s: Seq<char>, pat: Seq<char>) -> bool {
    exists|i: int| 0 <= i <= s.len() - pat.len() && #[trigger] s.subrange(i, i + pat.len()) == pat
}

/// Whether `pat` occurs in `s` (std's `str::contains` with a string pattern).
pub fn contains_str(s: &str, pat: &str) -> (b: bool)
    ensures
        b == contains_seq(s@, pat@),
{
    let v = chars_of(s);
    let p = chars_of(pat);
    if p.len() > v.len() {
        return false;
    }
    let n = v.len();
    let mut i: usize = 0;
    while i <= n - p.len()
        invariant
            n == v@.len(),
            v@ == s@,
            p@ == pat@,
            p@.len() <= v@.len(),
            i <= v@.len() - p@.len() + 1,
            forall|j: int| 0 <= j < i ==> #[trigger] v@.subrange(j, j + p@.len()) != p@,
        decreases v.len() - p.len() + 1 - i,
    {
        let mut k: usize = 0;
        let mut same = true;
        while k < p.len()
            invariant
                n == v@.len(),
                v@ == s@,
                p@ == pat@,
                i + p@.len() <= n,
                k <= p@.len(),
                same == (forall|q: int| 0 <= q < k ==> #[trigger] v@[i + q] == p@[q]),
            decreases p.len() - k,
        {
            if v[i + k] != p[k] {
                same = false;
            }
            k = k + 1;
        }
        if same {
            assert forall|q: int| 0 <= q < p@.len() implies v@.subrange(i as int, i + p@.len())[q] == p@[q] by {
                assert(v@[i + q] == p@[q]);
            }
            assert(v@.subrange(i as int, i + p@.len()) =~= p@);
            return true;
        } else {
            let ghost q = choose|q: int| 0 <= q < p@.len() && v@[i + q] != p@[q];
            assert(v@.subrange(i as int, i + p@.len())[q] != p@[q]);
        }
        i = i + 1;
    }
    assert forall|j: int| 0 <= j <= s@.len() - pat@.len() implies #[trigger] s@.subrange(j, j + pat@.len()) != pat@ by {
        assert(v@.subrange(j, j + p@.len()) != p@);
    }
    false
}

/// The color level that the environment asks for: `NO_COLOR` turns color off; `FORCE_COLOR`
/// picks a level whatever the output is; otherwise a pipe gets none, and a terminal gets true
/// color when `COLORTERM` or `TERM_PROGRAM` says so, 256 colors for a `TERM` with `256color`,
/// none for a dumb terminal and basic colors otherwise.
pub open spec fn color_level_of(
    is_tty: bool,
    no_color: bool,
    force_color: Option<Seq<char>>,
    colorterm: Option<Seq<char>>,
    term_program: Option<Seq<char>>,
    term: Option<Seq<char>>,
) -> ColorLevel {
    if no_color {
        ColorLevel::NoColor
    } else if force_color is Some {
        let v = force_color->0;
        if v == "0"@ {
            ColorLevel::NoColor
        } else if v == "1"@ {
            ColorLevel::Basic
        } else if v == "2"@ {
            ColorLevel::Palette
        } else {
            ColorLevel::TrueColor
        }
    } else if !is_tty {
        ColorLevel::NoColor
    } else if env_is(colorterm, "truecolor"@) || env_is(colorterm, "24bit"@) {
        ColorLevel::TrueColor
    } else if env_is(term_program, "iTerm.app"@) || env_is(term_program, "WezTerm"@)
        || env_is(term_program, "Hyper"@) || env_is(term_program, "vscode"@) {
        ColorLevel::TrueColor
    } else if term is Some && contains_seq(term->0, "256color"@) {
        ColorLevel::Palette
    } else if env_is(term, "dumb"@) {
        ColorLevel::NoColor
    } else {
        ColorLevel::Basic
    }
}

/// Whether an optional value is present and equal to `lit`.
fn opt_is(v: &Option<String>, lit: &str) -> (b: bool)
    ensures
        b == env_is(env_view(*v), lit@),
{
    match v {
        Some(s) => eq_str(s.as_str(), lit),
        None => false,
    }
}

/// Decides the color level from the terminal and the values of `NO_COLOR` (whether it is
/// set), `FORCE_COLOR`, `COLORTERM`, `TERM_PROGRAM` and `TERM` (each where it is set to text).
pub fn detect_color_level(
    is_tty: bool,
    no_color: bool,
    force_color: &Option<String>,
    colorterm: &Option<String>,
    term_program: &Option<String>,
    term: &Option<String>,
) -> (l: ColorLevel)
    ensures
        l == color_level_of(
            is_tty,
            no_color,
            env_view(*force_color),
            env_view(*colorterm),
            env_view(*term_program),
            env_view(*term),
        ),
{
    if no_color {
        return ColorLevel::NoColor;
    }
    if let Some(v) = force_color {
        return if eq_str(v.as_str(), "0") {
            ColorLevel::NoColor
        } else if eq_str(v.as_str(), "1") {
            ColorLevel::Basic
        } else if eq_str(v.as_str(), "2") {
            ColorLevel::Palette
        } else {
            ColorLevel::TrueColor
        };
    }
    if !is_tty {
        return ColorLevel::NoColor;
    }
    if opt_is(colorterm, "truecolor") || opt_is(colorterm, "24bit") {
        return ColorLevel::TrueColor;
    }
    if opt_is(term_program, "iTerm.app") || opt_is(term_program, "WezTerm") || opt_is(
        term_program,
        "Hyper",
    ) || opt_is(term_program, "vscode") {
        return ColorLevel::TrueColor;
    }
    if let Some(t) = term {
        if contains_str(t.as_str(), "256color") {
            return ColorLevel::Palette;
        }
    }
    if opt_is(term, "dumb") {
        return ColorLevel::NoColor;
    }
    ColorLevel::Basic
}

/// Whether the terminal takes OSC-8 hyperlinks: iTerm2, WezTerm, VS Code, and VTE-based
/// terminals (those that set `VTE_VERSION`).
pub open spec fn hyperlinks_of(term_program: Option<Seq<char>>, vte_version: bool) -> bool {
    env_is(term_program, "iTerm.app"@) || env_is(term_program, "WezTerm"@) || env_is(
        term_program,
        "vscode"@,
    ) || vte_version
}

/// Decides hyperlink support from `TERM_PROGRAM` and whether `VTE_VERSION` is set.
pub fn detect_hyperlinks(term_program: &Option<String>, vte_version: bool) -> (b: bool)
    ensures
        b == hyperlinks_of(env_view(*term_program), vte_version),
{
    if opt_is(term_program, "iTerm.app") || opt_is(term_program, "WezTerm") || opt_is(
        term_program,
        "vscode",
    ) {
        return true;
    }
    vte_version
}

/// Whether the terminal shows sixel graphics: mlterm and XTerm, by `TERM_PROGRAM`.
pub open spec fn sixel_of(term_program: Option<Seq<char>>) -> bool {
    env_is(term_program, "mlterm"@) || env_is(term_program, "XTerm"@)
}

/// Decides sixel support from `TERM_PROGRAM`.
pub fn detect_sixel(term_program: &Option<String>) -> (b: bool)
    ensures
        b == sixel_of(env_view(*term_program)),
{
    opt_is(term_program, "mlterm") || opt_is(term_program, "XTerm")
}

/// `NO_COLOR` turns color off whatever else the environment says.
pub proof fn lemma_no_color_wins(
    is_tty: bool,
    force_color: Option<Seq<char>>,
    colorterm: Option<Seq<char>>,
    term_program: Option<Seq<char>>,
    term: Option<Seq<char>>,
)
    ensures
        color_level_of(is_tty, true, force_color, colorterm, term_program, term) == ColorLevel::NoColor,
{
}

/// Without `FORCE_COLOR` (and whatever `NO_COLOR` says), output that is not a terminal gets no
/// color.
pub proof fn lemma_pipe_is_colorless(
    no_color: bool,
    colorterm: Option<Seq<char>>,
    term_program: Option<Seq<char>>,
    term: Option<Seq<char>>,
)
    ensures
        color_level_of(false, no_color, None, colorterm, term_program, term) == ColorLevel::NoColor,
{
}

/// `FORCE_COLOR` decides the level whether or not the output is a terminal, and whatever the
/// terminal variables say.
pub proof fn lemma_force_color_ignores_terminal(
    tty1: bool,
    tty2: bool,
    v: Seq<char>,
    ct1: Option<Seq<char>>,
    ct2: Option<Seq<char>>,
    tp1: Option<Seq<char>>,
    tp2: Option<Seq<char>>,
    t1: Option<Seq<char>>,
    t2: Option<Seq<char>>,
)
    ensures
        color_level_of(tty1, false, Some(v), ct1, tp1, t1) == color_level_of(tty2, false, Some(v), ct2, tp2, t2),
{
}

/// How the color level is chosen where `NO_COLOR` is not set. `FORCE_COLOR` of `0`, `1` or `2`
/// gives none, basic or 256 colors, any other value true color. Without it, a terminal whose
/// `COLORTERM` is `truecolor` or `24bit`, or whose `TERM_PROGRAM` is iTerm2, WezTerm, Hyper or
/// VS Code, gets true color; then a `TERM` naming `256color` gets 256 colors, a dumb terminal
/// none, and any other terminal basic colors.
pub proof fn lemma_color_level_rules(
    is_tty: bool,
    force_color: Option<Seq<char>>,
    colorterm: Option<Seq<char>>,
    term_program: Option<Seq<char>>,
    term: Option<Seq<char>>,
)
    ensures
        force_color == Some("0"@) ==> color_level_of(is_tty, false, force_color, colorterm, term_program, term)
            == ColorLevel::NoColor,
        force_color == Some("1"@) ==> color_level_of(is_tty, false, force_color, colorterm, term_program, term)
            == ColorLevel::Basic,
        force_color == Some("2"@) ==> color_level_of(is_tty, false, force_color, colorterm, term_program, term)
            == ColorLevel::Palette,
        force_color matches Some(v) && v != "0"@ && v != "1"@ && v != "2"@ ==> color_level_of(
            is_tty,
            false,
            force_color,
            colorterm,
            term_program,
            term,
        ) == ColorLevel::TrueColor,
        ({
            let level = color_level_of(true, false, None, colorterm, term_program, term);
            let true_color_term = colorterm == Some("truecolor"@) || colorterm == Some("24bit"@) || term_program
                == Some("iTerm.app"@) || term_program == Some("WezTerm"@) || term_program == Some("Hyper"@)
                || term_program == Some("vscode"@);
            &&& true_color_term ==> level == ColorLevel::TrueColor
            &&& !true_color_term && term is Some && contains_seq(term->0, "256color"@) ==> level
                == ColorLevel::Palette
            &&& !true_color_term && term == Some("dumb"@) ==> level == ColorLevel::NoColor
            &&& !true_color_term && !(term is Some && contains_seq(term->0, "256color"@)) && term != Some(
                "dumb"@,
            ) ==> level == ColorLevel::Basic
        }),
{
    reveal_strlit("dumb");
    reveal_strlit("256color");
    reveal_strlit("0");
    reveal_strlit("1");
    reveal_strlit("2");
    assert("1"@[0] != "0"@[0]);
    assert("2"@[0] != "0"@[0]);
    assert("2"@[0] != "1"@[0]);
    assert(!contains_seq("dumb"@, "256color"@));
}

/// OSC-8 hyperlinks are on exactly for iTerm2, WezTerm and VS Code (by `TERM_PROGRAM`) and for
/// terminals that set `VTE_VERSION`; sixel graphics exactly for mlterm and XTerm.
pub proof fn lemma_terminal_features(term_program: Option<Seq<char>>, vte_version: bool)
    ensures
        hyperlinks_of(term_program, vte_version) == (term_program == Some("iTerm.app"@) || term_program == Some(
            "WezTerm"@,
        ) || term_program == Some("vscode"@) || vte_version),
        sixel_of(term_program) == (term_program == Some("mlterm"@) || term_program == Some("XTerm"@)),
{
}

} // verus!
