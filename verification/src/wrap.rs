//! Unicode- and ANSI-aware measuring, padding, truncating and wrapping of text.

use vstd::prelude::*;
use crate::words::{
    all_fit_or_single, all_plain_words, fits_or_single, lemma_join_plain, lemma_plain_words_plain,
    lemma_words_of_join, lemma_words_of_lines_concat, lemma_words_of_lines_push,
    plain_word, plain_words, plain_words_from, printable, printable_text, push_word, words_of_lines,
    safe, safe_char, line_text, safe_text, all_printable, lemma_printable_is_line,
};
use crate::text::{views, string_views, strings_of, copy_chars, extend_chars, eq_str, chars_of, lowercase, push_char, string_of, string_of_range, to_lowercase};

verus! {

/// What `strip_ansi_escapes::strip` leaves of a text, read back as text: the text without its
/// escape sequences and control characters other than line feeds.
pub uninterp spec fn ansi_stripped(s: Seq<char>) -> Seq<char>;

/// What `unicode_width::UnicodeWidthStr::width` gives: the columns a text takes on a terminal.
pub uninterp spec fn display_width(s: Seq<char>) -> usize;

/// What `unicode_width::UnicodeWidthChar::width` gives: the columns a character takes, or
/// `None` for a control character.
pub uninterp spec fn char_display_width(c: char) -> Option<usize>;

/// Whether a text holds no escape character and no control character other than line feeds:
/// no C0 control but the line feed, and no C1 control.
pub open spec fn shows_as_is(s: Seq<char>) -> bool {
    forall|k: int| 0 <= k < s.len() ==> #[trigger] s[k] == '\n' || (' ' <= s[k] && !('\u{80}' <= s[k] && s[k] <= '\u{9f}'))
}

/// A text whose characters all show on a terminal shows as it is.
pub proof fn lemma_safe_shows_as_is(s: Seq<char>)
    requires
        safe(s),
    ensures
        shows_as_is(s),
{
    assert forall|k: int| 0 <= k < s.len() implies #[trigger] s[k] == '\n' || (' ' <= s[k] && !('\u{80}' <= s[k] && s[k] <= '\u{9f}')) by {
        assert(safe_char(s[k]));
    }
}

/// A printable ASCII text shows as it is.
pub proof fn lemma_printable_shows_as_is(s: Seq<char>)
    requires
        printable(s),
    ensures
        shows_as_is(s),
{
    assert forall|k: int| 0 <= k < s.len() implies #[trigger] s[k] == '\n' || (' ' <= s[k] && !('\u{80}' <= s[k] && s[k] <= '\u{9f}')) by {
        assert(' ' <= s[k] && s[k] <= '~');
    }
}

/// Strip ANSI escape sequences from a string (`strip_ansi_escapes::strip` on its bytes, the
/// result read back with `String::from_utf8_lossy`); its result is named by `ansi_stripped`.
/// The parser (vte) prints every character that is neither an escape nor a control character
/// and writes back only line feeds of the controls it executes, so the result holds no escape
/// character, and a text that shows as it is comes back unchanged.
#[verifier::external_body]
pub fn strip_ansi(s: &str) -> (r: String)
    ensures
        r@ == ansi_stripped(s@),
        forall|k: int| 0 <= k < r@.len() ==> r@[k] != '\x1b',
        shows_as_is(s@) ==> r@ == s@,
{
    String::from_utf8_lossy(&strip_ansi_escapes::strip(s.as_bytes())).into_owned()
}

/// The display width of a text (`unicode_width::UnicodeWidthStr::width`): printable ASCII
/// text takes one column a character.
#[verifier::external_body]
fn str_width(s: &str) -> (w: usize)
    ensures
        w == display_width(s@),
        printable(s@) ==> w == s@.len(),
{
    unicode_width::UnicodeWidthStr::width(s)
}

/// The display width of a character (`unicode_width::UnicodeWidthChar::width`): printable
/// ASCII characters take one column.
#[verifier::external_body]
fn char_width(c: char) -> (w: Option<usize>)
    ensures
        w == char_display_width(c),
        ' ' <= c < '\x7f' ==> w == Some(1usize),
{
    unicode_width::UnicodeWidthChar::width(c)
}

/// The columns a text takes once its escape sequences are removed.
pub open spec fn visible_width(s: Seq<char>) -> usize {
    display_width(ansi_stripped(s))
}

/// Calculate the visible width of a string, ignoring ANSI escape sequences.
pub fn visible_width_of(s: &str) -> (w: usize)
    ensures
        w == visible_width(s@),
        printable(s@) ==> w == s@.len(),
{
    proof {
        if printable(s@) {
            lemma_printable_shows_as_is(s@);
        }
    }
    let stripped = strip_ansi(s);
    str_width(stripped.as_str())
}

fn visible_width_chars(v: &[char]) -> (w: usize)
    ensures
        w == visible_width(v@),
        printable(v@) ==> w == v@.len(),
{
    let s = string_of(v);
    visible_width_of(s.as_str())
}

/// `n` spaces.
pub open spec fn spaces(n: nat) -> Seq<char> {
    Seq::new(n, |i: int| ' ')
}

pub fn push_spaces(s: &mut String, n: usize)
    ensures
        final(s)@ == old(s)@ + spaces(n as nat),
{
    let mut i: usize = 0;
    while i < n
        invariant
            i <= n,
            s@ == old(s)@ + spaces(i as nat),
        decreases n - i,
    {
        push_char(s, ' ');
        i = i + 1;
        assert(s@ =~= old(s)@ + spaces(i as nat));
    }
}

/// A string of `n` spaces.
pub fn spaces_string(n: usize) -> (s: String)
    ensures
        s@ == spaces(n as nat),
{
    let mut s = String::new();
    push_spaces(&mut s, n);
    assert(s@ =~= spaces(n as nat));
    s
}

/// A text of `current` visible columns padded with spaces on the right up to `target`.
pub open spec fn pad_measured_of(s: Seq<char>, current: nat, target: nat) -> Seq<char> {
    if current >= target {
        s
    } else {
        s + spaces((target - current) as nat)
    }
}

/// A text of `current` visible columns centered in `target` columns, the odd space going to
/// the right.
pub open spec fn center_measured_of(s: Seq<char>, current: nat, target: nat) -> Seq<char> {
    if current >= target {
        s
    } else {
        let total = (target - current) as nat;
        let left = total / 2;
        spaces(left) + s + spaces((total - left) as nat)
    }
}

/// A text of `current` visible columns padded with spaces on the left up to `target`.
pub open spec fn right_align_measured_of(s: Seq<char>, current: nat, target: nat) -> Seq<char> {
    if current >= target {
        s
    } else {
        spaces((target - current) as nat) + s
    }
}

/// A text padded with spaces on the right up to `target` visible columns.
pub open spec fn pad_to_width_of(s: Seq<char>, target: nat) -> Seq<char> {
    pad_measured_of(s, visible_width(s) as nat, target)
}

/// A text centered in `target` visible columns, the odd space going to the right.
pub open spec fn center_in_width_of(s: Seq<char>, target: nat) -> Seq<char> {
    center_measured_of(s, visible_width(s) as nat, target)
}

/// A text padded with spaces on the left up to `target` visible columns.
pub open spec fn right_align_in_width_of(s: Seq<char>, target: nat) -> Seq<char> {
    right_align_measured_of(s, visible_width(s) as nat, target)
}

/// Pads a text whose visible width is `current` with spaces on the right up to `target_width`.
pub fn pad_to_measured(s: &str, current: usize, target_width: usize) -> (r: String)
    ensures
        r@ == pad_measured_of(s@, current as nat, target_width as nat),
{
    if current >= target_width {
        s.to_owned()
    } else {
        let mut r = s.to_owned();
        push_spaces(&mut r, target_width - current);
        r
    }
}

/// Centers a text whose visible width is `current` in `target_width` columns.
pub fn center_in_measured(s: &str, current: usize, target_width: usize) -> (r: String)
    ensures
        r@ == center_measured_of(s@, current as nat, target_width as nat),
{
    if current >= target_width {
        return s.to_owned();
    }
    let total_padding = target_width - current;
    let left = total_padding / 2;
    let right = total_padding - left;
    let mut r = spaces_string(left);
    r.append(s);
    push_spaces(&mut r, right);
    r
}

/// Right-aligns a text whose visible width is `current` in `target_width` columns.
pub fn right_align_in_measured(s: &str, current: usize, target_width: usize) -> (r: String)
    ensures
        r@ == right_align_measured_of(s@, current as nat, target_width as nat),
{
    if current >= target_width {
        return s.to_owned();
    }
    let mut r = spaces_string(target_width - current);
    r.append(s);
    r
}

/// Pad a string to a given visible width with spaces.
pub fn pad_to_width(s: &str, target_width: usize) -> (r: String)
    ensures
        r@ == pad_to_width_of(s@, target_width as nat),
{
    let current = visible_width_of(s);
    pad_to_measured(s, current, target_width)
}

/// Center a string within a given visible width.
pub fn center_in_width(s: &str, target_width: usize) -> (r: String)
    ensures
        r@ == center_in_width_of(s@, target_width as nat),
{
    let current = visible_width_of(s);
    center_in_measured(s, current, target_width)
}

/// Right-align a string within a given visible width.
pub fn right_align_in_width(s: &str, target_width: usize) -> (r: String)
    ensures
        r@ == right_align_in_width_of(s@, target_width as nat),
{
    let current = visible_width_of(s);
    right_align_in_measured(s, current, target_width)
}

/// The width a character adds when truncating: control characters add nothing.
pub open spec fn trunc_char_width(c: char) -> nat {
    match char_display_width(c) {
        Some(w) => w as nat,
        None => 0,
    }
}

/// How many leading characters of `s`, starting at `i` with `width` columns used, fit in
/// `max` columns with one column kept for the ellipsis.
pub open spec fn trunc_count(s: Seq<char>, i: int, width: nat, max: nat) -> int
    decreases s.len() - i,
{
    if i >= s.len() || i < 0 {
        i
    } else if width + trunc_char_width(s[i]) + 1 > max {
        i
    } else {
        trunc_count(s, i + 1, width + trunc_char_width(s[i]), max)
    }
}

/// A text cut to `max` visible columns, given `stripped`, the text without its escape
/// sequences, and `width`, the columns that takes: texts that fit stay as they are; longer ones
/// lose their escape sequences and end in an ellipsis.
pub open spec fn truncate_measured_of(s: Seq<char>, stripped: Seq<char>, width: nat, max: nat) -> Seq<char> {
    if max == 0 {
        Seq::empty()
    } else if width <= max {
        s
    } else {
        stripped.take(trunc_count(stripped, 0, 0, max)).push('\u{2026}')
    }
}

/// A text cut to `max` visible columns: texts that fit stay as they are; longer ones lose
/// their escape sequences and end in an ellipsis.
pub open spec fn truncate_to_width_of(s: Seq<char>, max: nat) -> Seq<char> {
    truncate_measured_of(s, without_esc(ansi_stripped(s)), display_width(ansi_stripped(s)) as nat, max)
}

/// A text with its escape characters removed.
pub open spec fn without_esc(s: Seq<char>) -> Seq<char>
    decreases s.len(),
{
    if s.len() == 0 {
        Seq::empty()
    } else if s.last() == '\x1b' {
        without_esc(s.drop_last())
    } else {
        without_esc(s.drop_last()).push(s.last())
    }
}

/// Removes the escape characters of a text. Text that `strip_ansi` gives holds none; removing
/// them here makes a cut cell free of them by this code alone.
pub fn remove_escapes(s: &str) -> (r: String)
    ensures
        r@ == without_esc(s@),
{
    let v = chars_of(s);
    let mut r = String::new();
    let mut i: usize = 0;
    while i < v.len()
        invariant
            i <= v@.len(),
            v@ == s@,
            r@ == without_esc(v@.subrange(0, i as int)),
        decreases v.len() - i,
    {
        if v[i] != '\x1b' {
            push_char(&mut r, v[i]);
        }
        assert(v@.subrange(0, i + 1).drop_last() =~= v@.subrange(0, i as int));
        i = i + 1;
    }
    assert(v@.subrange(0, v@.len() as int) =~= v@);
    r
}

/// How many characters fit is between the start index and the length.
pub proof fn lemma_trunc_count_bounds(s: Seq<char>, i: int, width: nat, max: nat)
    requires
        0 <= i <= s.len(),
    ensures
        i <= trunc_count(s, i, width, max) <= s.len(),
    decreases s.len() - i,
{
    if i < s.len() && width + trunc_char_width(s[i]) + 1 <= max {
        lemma_trunc_count_bounds(s, i + 1, width + trunc_char_width(s[i]), max);
    }
}

/// Cuts a text to `max_width` visible columns, given `stripped`, the text without its escape
/// sequences, and `vis_width`, the columns that takes.
pub fn truncate_measured(s: &str, stripped: &str, vis_width: usize, max_width: usize) -> (r: String)
    ensures
        r@ == truncate_measured_of(s@, stripped@, vis_width as nat, max_width as nat),
{
    if max_width == 0 {
        return String::new();
    }
    if vis_width <= max_width {
        return s.to_owned();
    }
    let chars = chars_of(stripped);
    let mut width: u128 = 0;
    let mut cut: usize = 0;
    while cut < chars.len()
        invariant
            cut <= chars.len(),
            width <= max_width,
            chars@ == stripped@,
            trunc_count(chars@, cut as int, width as nat, max_width as nat) == trunc_count(
                chars@,
                0,
                0,
                max_width as nat,
            ),
        ensures
            cut <= chars.len(),
            trunc_count(chars@, cut as int, width as nat, max_width as nat) == cut,
            trunc_count(chars@, cut as int, width as nat, max_width as nat) == trunc_count(
                chars@,
                0,
                0,
                max_width as nat,
            ),
        decreases chars.len() - cut,
    {
        let cw: u128 = match char_width(chars[cut]) {
            Some(w) => w as u128,
            None => 0,
        };
        assert(cw == trunc_char_width(chars@[cut as int]));
        if width + cw + 1 > max_width as u128 {
            break;
        }
        width = width + cw;
        cut = cut + 1;
    }
    proof {
        lemma_trunc_count_bounds(chars@, 0, 0, max_width as nat);
    }
    let mut r = string_of_range(chars.as_slice(), 0, cut);
    push_char(&mut r, '\u{2026}');
    assert(chars@.subrange(0, cut as int) =~= chars@.take(cut as int));
    r
}

/// Truncate a string to fit within max visible width, adding ellipsis if needed.
pub fn truncate_to_width(s: &str, max_width: usize) -> (r: String)
    ensures
        r@ == truncate_to_width_of(s@, max_width as nat),
{
    let stripped = strip_ansi(s);
    let vis_width = str_width(stripped.as_str());
    let shown = remove_escapes(stripped.as_str());
    truncate_measured(s, shown.as_str(), vis_width, max_width)
}

/// `cur` appended to the last word, if there is one.
pub open spec fn attach_last(words: Seq<Seq<char>>, cur: Seq<char>) -> Seq<Seq<char>> {
    if words.len() > 0 {
        words.update(words.len() - 1, words.last() + cur)
    } else {
        words
    }
}

/// The words once the text is read: a pending word that shows something is kept, a pending
/// run of escape sequences joins the previous word.
pub open spec fn finish_words(words: Seq<Seq<char>>, cur: Seq<char>) -> Seq<Seq<char>> {
    if cur.len() == 0 {
        words
    } else if ansi_stripped(cur).len() > 0 {
        words.push(cur)
    } else {
        attach_last(words, cur)
    }
}

/// Whether a character ends an escape sequence: a letter ends a CSI sequence, BEL an OSC one.
pub open spec fn ends_escape(c: char) -> bool {
    ('a' <= c <= 'z') || ('A' <= c <= 'Z') || c == '\x07'
}

/// Splitting `c` into words from index `i`, with `words` found so far, `cur` the word being
/// read and `esc` whether an escape sequence is open.
pub open spec fn split_words_from(
    c: Seq<char>,
    i: int,
    words: Seq<Seq<char>>,
    cur: Seq<char>,
    esc: bool,
) -> Seq<Seq<char>>
    decreases c.len() - i,
{
    if i >= c.len() || i < 0 {
        finish_words(words, cur)
    } else {
        let ch = c[i];
        if ch == '\x1b' {
            split_words_from(c, i + 1, words, cur.push(ch), true)
        } else if esc {
            split_words_from(c, i + 1, words, cur.push(ch), !ends_escape(ch))
        } else if ch == ' ' || ch == '\t' {
            if cur.len() == 0 {
                split_words_from(c, i + 1, words, cur, false)
            } else if ansi_stripped(cur).len() > 0 {
                split_words_from(c, i + 1, words.push(cur), Seq::empty(), false)
            } else if i + 1 < c.len() && c[i + 1] != ' ' && c[i + 1] != '\t' {
                split_words_from(c, i + 1, words, cur, false)
            } else {
                split_words_from(c, i + 1, attach_last(words, cur), Seq::empty(), false)
            }
        } else {
            split_words_from(c, i + 1, words, cur.push(ch), false)
        }
    }
}

/// The words of a text: runs separated by spaces and tabs, with escape sequences kept inside
/// the words they touch.
pub open spec fn split_words_of(c: Seq<char>) -> Seq<Seq<char>> {
    split_words_from(c, 0, Seq::empty(), Seq::empty(), false)
}

fn ansi_only(cur: &Vec<char>) -> (b: bool)
    ensures
        b == (ansi_stripped(cur@).len() == 0),
        safe(cur@) ==> b == (cur@.len() == 0),
{
    proof {
        if safe(cur@) {
            lemma_safe_shows_as_is(cur@);
        }
    }
    let s = string_of(cur.as_slice());
    let stripped = strip_ansi(s.as_str());
    stripped.as_str().is_empty()
}

fn attach_to_last(words: &mut Vec<Vec<char>>, cur: Vec<char>)
    ensures
        views(final(words)@) == attach_last(views(old(words)@), cur@),
{
    let mut cur = cur;
    let ghost c = cur@;
    if words.len() > 0 {
        let mut last = words.pop().unwrap();
        last.append(&mut cur);
        words.push(last);
        assert(views(words@) =~= attach_last(views(old(words)@), c));
    } else {
        assert(views(words@) =~= attach_last(views(old(words)@), c));
    }
}

/// Split text into words, preserving ANSI sequences attached to words.
pub fn split_words(text: &Vec<char>) -> (words: Vec<Vec<char>>)
    ensures
        views(words@) == split_words_of(text@),
        line_text(text@) ==> views(words@) == plain_words(text@),
{
    let mut words: Vec<Vec<char>> = Vec::new();
    let mut cur: Vec<char> = Vec::new();
    let mut esc = false;
    let mut i: usize = 0;
    assert(views(words@) =~= Seq::<Seq<char>>::empty());
    while i < text.len()
        invariant
            i <= text.len(),
            split_words_from(text@, i as int, views(words@), cur@, esc) == split_words_of(text@),
            line_text(text@) ==> !esc && safe(cur@) && plain_words_from(text@, i as int, views(words@), cur@)
                == plain_words(text@),
        decreases text.len() - i,
    {
        let ch = text[i];
        let ghost w0 = views(words@);
        let ghost c0 = cur@;
        if ch == '\x1b' {
            esc = true;
            cur.push(ch);
        } else if esc {
            cur.push(ch);
            if ('a' <= ch && ch <= 'z') || ('A' <= ch && ch <= 'Z') || ch == '\x07' {
                esc = false;
            }
        } else if ch == ' ' || ch == '\t' {
            if cur.len() > 0 {
                if !ansi_only(&cur) {
                    let ghost old_words = views(words@);
                    let w = cur;
                    cur = Vec::new();
                    words.push(w);
                    assert(views(words@) =~= old_words.push(w@));
                } else if i + 1 < text.len() && text[i + 1] != ' ' && text[i + 1] != '\t' {
                } else {
                    let w = cur;
                    cur = Vec::new();
                    attach_to_last(&mut words, w);
                }
            }
        } else {
            cur.push(ch);
        }
        proof {
            if line_text(text@) {
                assert(safe_char(text@[i as int]) || text@[i as int] == '\t');
                if ch == ' ' || ch == '\t' {
                    assert(push_word(w0, c0) == views(words@));
                    assert(cur@ =~= Seq::<char>::empty());
                } else {
                    assert(cur@ == c0.push(ch));
                    assert forall|k: int| 0 <= k < cur@.len() implies safe_char(#[trigger] cur@[k]) by {
                        if k < c0.len() {
                            assert(cur@[k] == c0[k]);
                        }
                    }
                }
                assert(plain_words_from(text@, i as int, w0, c0) == plain_words_from(text@, i + 1, views(words@), cur@));
            }
        }
        i = i + 1;
    }
    if cur.len() > 0 {
        if !ansi_only(&cur) {
            let ghost old_words = views(words@);
            let ghost c = cur@;
            words.push(cur);
            assert(views(words@) =~= old_words.push(c));
        } else {
            attach_to_last(&mut words, cur);
        }
    }
    words
}

/// Words joined by single spaces.
pub open spec fn join_words(ws: Seq<Seq<char>>) -> Seq<char>
    decreases ws.len(),
{
    if ws.len() == 0 {
        Seq::empty()
    } else if ws.len() == 1 {
        ws[0]
    } else {
        join_words(ws.drop_last()) + seq![' '] + ws.last()
    }
}

/// Short articles and prepositions that should not end a wrapped line.
pub open spec fn is_orphan_word(l: Seq<char>) -> bool {
    l == "a"@ || l == "an"@ || l == "the"@ || l == "of"@ || l == "to"@ || l == "in"@ || l
        == "on"@ || l == "at"@ || l == "by"@ || l == "or"@ || l == "is"@ || l == "it"@ || l
        == "if"@ || l == "as"@ || l == "no"@ || l == "so"@
}

fn orphan_word(l: &str) -> (b: bool)
    ensures
        b == is_orphan_word(l@),
{
    eq_str(l, "a") || eq_str(l, "an") || eq_str(l, "the") || eq_str(l, "of") || eq_str(l, "to")
        || eq_str(l, "in") || eq_str(l, "on") || eq_str(l, "at") || eq_str(l, "by") || eq_str(
        l,
        "or",
    ) || eq_str(l, "is") || eq_str(l, "it") || eq_str(l, "if") || eq_str(l, "as") || eq_str(
        l,
        "no",
    ) || eq_str(l, "so")
}

/// A line with a trailing short article or preposition taken off, when it holds three or more
/// words: the shortened line and the word taken off.
pub open spec fn orphan_split(line: Seq<char>) -> (Seq<char>, Option<Seq<char>>) {
    let words = split_words_of(line);
    if words.len() < 3 {
        (line, None)
    } else if is_orphan_word(lowercase(ansi_stripped(words.last()))) {
        (join_words(words.drop_last()), Some(words.last()))
    } else {
        (line, None)
    }
}

fn join_with_spaces(words: &Vec<Vec<char>>, n: usize) -> (line: Vec<char>)
    requires
        n <= words@.len(),
    ensures
        line@ == join_words(views(words@).take(n as int)),
{
    let mut line: Vec<char> = Vec::new();
    let mut i: usize = 0;
    while i < n
        invariant
            i <= n <= words@.len(),
            line@ == join_words(views(words@).take(i as int)),
        decreases n - i,
    {
        if i > 0 {
            line.push(' ');
        }
        extend_chars(&mut line, words[i].as_slice());
        i = i + 1;
        assert(views(words@).take(i as int).drop_last() =~= views(words@).take(i - 1));
        assert(line@ =~= join_words(views(words@).take(i as int)));
    }
    line
}

/// Orphan prevention: if the last word is a short article/preposition,
/// move it to the next line with the previous word.
fn apply_orphan_prevention(line: Vec<char>) -> (r: (Vec<char>, Option<Vec<char>>))
    ensures
        (r.0@, match r.1 { Some(w) => Some(w@), None => None }) == orphan_split(line@),
        line_text(line@) ==> split_words_of(line@) == plain_words(line@),
{
    let words = split_words(&line);
    if words.len() < 3 {
        return (line, None);
    }
    let n = words.len();
    let last_str = string_of(words[n - 1].as_slice());
    let stripped = strip_ansi(last_str.as_str());
    let lower = to_lowercase(stripped.as_str());
    if orphan_word(lower.as_str()) {
        let shortened = join_with_spaces(&words, n - 1);
        let orphan = copy_chars(words[n - 1].as_slice());
        assert(views(words@).take(n - 1) =~= views(words@).drop_last());
        (shortened, Some(orphan))
    } else {
        (line, None)
    }
}

/// The progress of wrapping a line: lines done, the line being filled and its measured width.
pub type WrapState = (Seq<Seq<char>>, Seq<char>, int);

/// One word taken into the line being filled, or starting a new line when it does not fit. A
/// full line that ends in a short article or preposition gives that word to the new line, in
/// front of the word that did not fit, where the two fit together; elsewhere the line stays
/// whole.
pub open spec fn wrap_step(max: int, st: WrapState, word: Seq<char>) -> WrapState {
    let (out, line, width) = st;
    let w = visible_width(word) as int;
    if width == 0 {
        (out, line + word, w)
    } else if width + 1 + w <= max {
        (out, line + seq![' '] + word, width + 1 + w)
    } else {
        match orphan_split(line) {
            (flushed, Some(o)) => if visible_width(o) + 1 + w <= max {
                (out.push(flushed), o + seq![' '] + word, visible_width(o) + 1 + w)
            } else {
                (out.push(line), word, w)
            },
            (_, None) => (out.push(line), word, w),
        }
    }
}

/// The state after taking words `i..` in order.
pub open spec fn wrap_words(max: int, st: WrapState, words: Seq<Seq<char>>, i: int) -> WrapState
    decreases words.len() - i,
{
    if i >= words.len() || i < 0 {
        st
    } else {
        wrap_words(max, wrap_step(max, st, words[i]), words, i + 1)
    }
}

/// The lines once all words are taken: the line being filled is the last, unless empty.
pub open spec fn wrap_finish(st: WrapState) -> Seq<Seq<char>> {
    let (out, line, width) = st;
    if line.len() > 0 {
        out.push(line)
    } else {
        out
    }
}

/// The lines one source line wraps into at `max` columns: a line that fits stays whole;
/// a wider one is filled greedily word by word.
pub open spec fn wrap_line_of(line: Seq<char>, max: nat) -> Seq<Seq<char>> {
    if visible_width(line) <= max {
        seq![line]
    } else {
        wrap_finish(
            wrap_words(max as int, (Seq::empty(), Seq::empty(), 0), split_words_of(line), 0),
        )
    }
}

/// What the wrapping of a line keeps of its words while it takes them: the words of the lines
/// done and of the line being filled are the words taken so far, in order.
pub open spec fn words_progress(
    ws: Seq<Seq<char>>,
    i: int,
    done: Seq<Seq<char>>,
    g: Seq<Seq<char>>,
    current: Seq<char>,
) -> bool {
    &&& all_plain_words(ws)
    &&& all_plain_words(g)
    &&& current == join_words(g)
    &&& words_of_lines(done) + g == ws.take(i)
}

/// What the wrapping of a printable line keeps of its widths: the measured width is the length
/// of the line being filled, and each line fits or is one word.
pub open spec fn fit_progress(
    ws: Seq<Seq<char>>,
    g: Seq<Seq<char>>,
    done: Seq<Seq<char>>,
    current: Seq<char>,
    width: int,
    max: nat,
) -> bool {
    &&& all_printable(ws)
    &&& all_printable(g)
    &&& width == current.len()
    &&& all_fit_or_single(done, max)
    &&& fits_or_single(current, max)
}

/// Every word takes at least one column.
pub open spec fn words_take_columns(ws: Seq<Seq<char>>) -> bool {
    forall|k: int| 0 <= k < ws.len() ==> visible_width(#[trigger] ws[k]) > 0
}

proof fn lemma_fit_push(ls: Seq<Seq<char>>, l: Seq<char>, max: nat)
    requires
        all_fit_or_single(ls, max),
        fits_or_single(l, max),
    ensures
        all_fit_or_single(ls.push(l), max),
{
    assert forall|k: int| 0 <= k < ls.push(l).len() implies fits_or_single(#[trigger] ls.push(l)[k], max) by {
        if k < ls.len() {
            assert(ls.push(l)[k] == ls[k]);
        }
    }
}

proof fn lemma_join_len(g: Seq<Seq<char>>)
    requires
        all_plain_words(g),
    ensures
        (join_words(g).len() == 0) == (g.len() == 0),
{
    lemma_join_plain(g);
    if g.len() == 1 {
        assert(plain_word(g[0]));
    }
}

proof fn lemma_join_pair(o: Seq<char>, w: Seq<char>)
    ensures
        join_words(seq![o, w]) == o + seq![' '] + w,
{
    let p = seq![o, w];
    assert(p.drop_last() =~= seq![o]);
    assert(seq![o].len() == 1 && seq![o][0] == o);
    assert(join_words(seq![o]) == o);
    assert(p.last() == w);
    assert(join_words(p) == join_words(p.drop_last()) + seq![' '] + p.last());
}

proof fn lemma_all_printable_push(ls: Seq<Seq<char>>, l: Seq<char>)
    requires
        all_printable(ls),
        printable(l),
    ensures
        all_printable(ls.push(l)),
{
    assert forall|k: int| 0 <= k < ls.push(l).len() implies printable(#[trigger] ls.push(l)[k]) by {
        if k < ls.len() {
            assert(ls.push(l)[k] == ls[k]);
        }
    }
}

fn wrap_line(line: Vec<char>, max_width: usize, out: &mut Vec<Vec<char>>)
    ensures
        views(final(out)@) == views(old(out)@) + wrap_line_of(line@, max_width as nat),
        line_text(line@) && (printable(line@) || words_take_columns(plain_words(line@))) ==> words_of_lines(
            wrap_line_of(line@, max_width as nat),
        ) == plain_words(line@),
        printable(line@) ==> all_fit_or_single(wrap_line_of(line@, max_width as nat), max_width as nat),
{
    let ghost before = views(out@);
    let ghost hyp = line_text(line@) && (printable(line@) || words_take_columns(plain_words(line@)));
    let visible = visible_width_chars(line.as_slice());
    if visible <= max_width {
        let ghost l = line@;
        out.push(line);
        assert(views(out@) =~= before + seq![l]);
        proof {
            assert(wrap_line_of(l, max_width as nat) == seq![l]);
            assert(seq![l].drop_last() =~= Seq::<Seq<char>>::empty());
            assert(words_of_lines(Seq::<Seq<char>>::empty()) == Seq::<Seq<char>>::empty());
            assert(words_of_lines(seq![l]) == words_of_lines(seq![l].drop_last()) + plain_words(seq![l].last()));
            assert(Seq::<Seq<char>>::empty() + plain_words(l) =~= plain_words(l));
        }
        return;
    }
    let words = split_words(&line);
    let ghost ws = views(words@);
    let mut done: Vec<Vec<char>> = Vec::new();
    let mut current: Vec<char> = Vec::new();
    let mut width: u128 = 0;
    let mut i: usize = 0;
    let ghost mut g: Seq<Seq<char>> = Seq::empty();
    assert(views(done@) =~= Seq::<Seq<char>>::empty());
    proof {
        if printable(line@) {
            lemma_printable_is_line(line@);
        }
        if line_text(line@) {
            lemma_plain_words_plain(line@);
            assert(ws.take(0) =~= Seq::<Seq<char>>::empty());
            assert(current@ =~= join_words(g));
        }
    }
    while i < words.len()
        invariant
            i <= words@.len(),
            ws == views(words@),
            width <= 2 * (usize::MAX as u128) + 1,
            wrap_words(max_width as int, (views(done@), current@, width as int), ws, i as int)
                == wrap_words(max_width as int, (Seq::empty(), Seq::empty(), 0), ws, 0),
            hyp == (line_text(line@) && (printable(line@) || words_take_columns(plain_words(line@)))),
            printable(line@) ==> line_text(line@),
            line_text(line@) ==> ws == plain_words(line@) && all_plain_words(ws),
            printable(line@) ==> all_printable(ws),
            hyp ==> words_progress(ws, i as int, views(done@), g, current@) && ((width == 0) == (current@.len() == 0)),
            printable(line@) ==> fit_progress(ws, g, views(done@), current@, width as int, max_width as nat),
        decreases words.len() - i,
    {
        let word = &words[i];
        assert(word@ == ws[i as int]);
        let ghost st0: WrapState = (views(done@), current@, width as int);
        let ghost cur0 = current@;
        let ghost g0 = g;
        let ghost done0 = views(done@);
        proof {
            if hyp {
                assert(plain_word(ws[i as int]));
                lemma_join_len(g0);
                lemma_join_plain(g0);
                assert(ws.take(i + 1) =~= ws.take(i as int).push(word@));
            }
            if printable(line@) {
                assert(printable(ws[i as int]));
            }
        }
        let w = visible_width_chars(word.as_slice());
        proof {
            if hyp {
                if !printable(line@) {
                    assert(visible_width(ws[i as int]) > 0);
                }
                assert(w > 0);
            }
        }
        if width == 0 {
            extend_chars(&mut current, word.as_slice());
            width = w as u128;
            proof {
                if hyp {
                    assert(cur0.len() == 0);
                    assert(current@ =~= word@);
                    g = seq![word@];
                    assert(g0 =~= Seq::<Seq<char>>::empty());
                    assert(words_of_lines(done0) + g =~= (words_of_lines(done0) + g0).push(word@));
                }
                if printable(line@) {
                    lemma_all_printable_push(Seq::empty(), word@);
                    assert(Seq::<Seq<char>>::empty().push(word@) =~= g);
                }
            }
        } else if width + 1 + w as u128 <= max_width as u128 {
            current.push(' ');
            extend_chars(&mut current, word.as_slice());
            width = width + 1 + w as u128;
            assert(current@ =~= cur0 + seq![' '] + word@);
            proof {
                if hyp {
                    g = g0.push(word@);
                    assert(g.drop_last() =~= g0);
                    assert(words_of_lines(done0) + g =~= (words_of_lines(done0) + g0).push(word@));
                }
                if printable(line@) {
                    lemma_all_printable_push(g0, word@);
                }
            }
        } else {
            let ghost prev_done = views(done@);
            let line_copy = copy_chars(current.as_slice());
            let (flushed, orphan) = apply_orphan_prevention(current);
            proof {
                if hyp {
                    lemma_words_of_join(g0);
                    lemma_plain_words_plain(cur0);
                }
            }
            match orphan {
                Some(o) => {
                    let ow = visible_width_chars(o.as_slice());
                    if ow as u128 + 1 + w as u128 <= max_width as u128 {
                        let ghost f = flushed@;
                        done.push(flushed);
                        assert(views(done@) =~= prev_done.push(f));
                        let mut next = o;
                        let ghost o0 = next@;
                        next.push(' ');
                        extend_chars(&mut next, word.as_slice());
                        assert(next@ =~= o0 + seq![' '] + word@);
                        current = next;
                        width = ow as u128 + 1 + w as u128;
                        proof {
                            if hyp {
                                let d = g0.drop_last();
                                assert(g0.len() >= 3);
                                assert forall|k: int| 0 <= k < d.len() implies plain_word(#[trigger] d[k]) by {
                                    assert(d[k] == g0[k]);
                                }
                                lemma_words_of_join(d);
                                lemma_words_of_lines_push(done0, f);
                                assert(plain_word(g0[g0.len() - 1]));
                                lemma_join_pair(o0, word@);
                                g = seq![o0, word@];
                                assert(words_of_lines(done0.push(f)) + g =~= (words_of_lines(done0) + g0).push(word@));
                            }
                            if printable(line@) {
                                lemma_fit_push(done0, f, max_width as nat);
                                assert(printable(g0[g0.len() - 1]));
                                assert forall|k: int| 0 <= k < g.len() implies printable(#[trigger] g[k]) by {
                                    if k == 0 {
                                        assert(g[0] == g0[g0.len() - 1]);
                                    }
                                }
                            }
                        }
                    } else {
                        done.push(line_copy);
                        assert(views(done@) =~= prev_done.push(cur0));
                        current = copy_chars(word.as_slice());
                        width = w as u128;
                        proof {
                            if hyp {
                                lemma_words_of_lines_push(done0, cur0);
                                g = seq![word@];
                                assert(words_of_lines(done0.push(cur0)) + g =~= (words_of_lines(done0) + g0).push(word@));
                            }
                            if printable(line@) {
                                lemma_fit_push(done0, cur0, max_width as nat);
                                lemma_all_printable_push(Seq::empty(), word@);
                                assert(Seq::<Seq<char>>::empty().push(word@) =~= g);
                            }
                        }
                    }
                },
                None => {
                    done.push(line_copy);
                    assert(views(done@) =~= prev_done.push(cur0));
                    current = copy_chars(word.as_slice());
                    width = w as u128;
                    proof {
                        if hyp {
                            lemma_words_of_lines_push(done0, cur0);
                            g = seq![word@];
                            assert(words_of_lines(done0.push(cur0)) + g =~= (words_of_lines(done0) + g0).push(word@));
                        }
                        if printable(line@) {
                            lemma_fit_push(done0, cur0, max_width as nat);
                            lemma_all_printable_push(Seq::empty(), word@);
                            assert(Seq::<Seq<char>>::empty().push(word@) =~= g);
                        }
                    }
                },
            }
        }
        assert((views(done@), current@, width as int) == wrap_step(max_width as int, st0, ws[i as int]));
        i = i + 1;
    }
    let ghost stf: WrapState = (views(done@), current@, width as int);
    assert(wrap_words(max_width as int, stf, ws, i as int) == stf);
    let ghost gf = g;
    let ghost donef = views(done@);
    if current.len() > 0 {
        let ghost prev_done = views(done@);
        let ghost l = current@;
        done.push(current);
        assert(views(done@) =~= prev_done.push(l));
        proof {
            if hyp {
                lemma_join_len(gf);
                lemma_words_of_join(gf);
                lemma_words_of_lines_push(donef, l);
            }
            if printable(line@) {
                lemma_fit_push(donef, l, max_width as nat);
            }
        }
    } else {
        proof {
            if hyp {
                lemma_join_len(gf);
                assert(words_of_lines(donef) + gf =~= words_of_lines(donef));
            }
        }
    }
    proof {
        if hyp {
            assert(ws.take(i as int) =~= ws);
        }
    }
    let ghost d = views(done@);
    let mut d_vec = done;
    out.append(&mut d_vec);
    assert(views(out@) =~= before + d);
}

/// Splitting `s` at every `sep` from index `i`, with `done` pieces found and `cur` the piece
/// being read.
pub open spec fn split_from(s: Seq<char>, sep: char, i: int, done: Seq<Seq<char>>, cur: Seq<char>) -> Seq<Seq<char>>
    decreases s.len() - i,
{
    if i >= s.len() || i < 0 {
        done.push(cur)
    } else if s[i] == sep {
        split_from(s, sep, i + 1, done.push(cur), Seq::empty())
    } else {
        split_from(s, sep, i + 1, done, cur.push(s[i]))
    }
}

/// The pieces of `s` between occurrences of `sep` (std's `str::split`).
pub open spec fn split_on(s: Seq<char>, sep: char) -> Seq<Seq<char>> {
    split_from(s, sep, 0, Seq::empty(), Seq::empty())
}

/// Splits a character vector at every `sep`.
pub fn split_chars(s: &Vec<char>, sep: char) -> (pieces: Vec<Vec<char>>)
    ensures
        views(pieces@) == split_on(s@, sep),
{
    let mut done: Vec<Vec<char>> = Vec::new();
    let mut cur: Vec<char> = Vec::new();
    let mut i: usize = 0;
    assert(views(done@) =~= Seq::<Seq<char>>::empty());
    while i < s.len()
        invariant
            i <= s@.len(),
            split_from(s@, sep, i as int, views(done@), cur@) == split_on(s@, sep),
        decreases s.len() - i,
    {
        if s[i] == sep {
            let ghost prev = views(done@);
            let ghost c = cur@;
            done.push(cur);
            cur = Vec::new();
            assert(views(done@) =~= prev.push(c));
        } else {
            cur.push(s[i]);
        }
        i = i + 1;
    }
    let ghost prev = views(done@);
    let ghost c = cur@;
    done.push(cur);
    assert(views(done@) =~= prev.push(c));
    done
}

/// The wrapped lines of a list of source lines, in order.
pub open spec fn wrap_all(lines: Seq<Seq<char>>, max: nat) -> Seq<Seq<char>>
    decreases lines.len(),
{
    if lines.len() == 0 {
        Seq::empty()
    } else {
        wrap_all(lines.drop_last(), max) + wrap_line_of(lines.last(), max)
    }
}

/// A text wrapped to `max` visible columns: with no limit it stays whole; otherwise each of its
/// lines is wrapped on its own.
pub open spec fn wrap_text_of(text: Seq<char>, max: nat) -> Seq<Seq<char>> {
    if max == 0 {
        seq![text]
    } else {
        wrap_all(split_on(text, '\n'), max)
    }
}

/// Wrap text to fit within `max_width` visible columns.
///
/// Features:
/// - ANSI-escape aware (escape sequences don't count toward width)
/// - Unicode-width aware (CJK, emoji handled correctly)
/// - Word-boundary breaking (no mid-word breaks except overflow)
/// - Orphan prevention (avoids trailing short articles)
pub fn wrap_text(text: &str, max_width: usize) -> (lines: Vec<String>)
    ensures
        string_views(lines@) == wrap_text_of(text@, max_width as nat),
        max_width > 0 && safe_text(text@) && (printable_text(text@) || words_take_columns(
            words_of_lines(split_on(text@, '\n')),
        )) ==> words_of_lines(string_views(lines@)) == words_of_lines(split_on(text@, '\n')),
        max_width > 0 && printable_text(text@) ==> all_fit_or_single(string_views(lines@), max_width as nat),
{
    if max_width == 0 {
        let mut v = Vec::new();
        v.push(text.to_owned());
        assert(string_views(v@) =~= seq![text@]);
        return v;
    }
    let chars = chars_of(text);
    let pieces = split_chars(&chars, '\n');
    let ghost hyp = safe_text(text@) && (printable_text(text@) || words_take_columns(
        words_of_lines(split_on(text@, '\n')),
    ));
    proof {
        if printable_text(text@) {
            lemma_printable_text_safe(text@);
        }
        if safe_text(text@) {
            lemma_split_pieces(text@, 0, Seq::empty(), Seq::empty());
        }
    }
    let mut out: Vec<Vec<char>> = Vec::new();
    let mut i: usize = 0;
    assert(views(out@) =~= Seq::<Seq<char>>::empty());
    while i < pieces.len()
        invariant
            i <= pieces@.len(),
            views(pieces@) == split_on(text@, '\n'),
            views(out@) == wrap_all(views(pieces@).take(i as int), max_width as nat),
            hyp == (safe_text(text@) && (printable_text(text@) || words_take_columns(
                words_of_lines(split_on(text@, '\n')),
            ))),
            printable_text(text@) ==> safe_text(text@) && all_printable(views(pieces@)),
            safe_text(text@) ==> all_lines(views(pieces@)),
            hyp ==> words_of_lines(views(out@)) == words_of_lines(views(pieces@).take(i as int)),
            printable_text(text@) ==> all_fit_or_single(views(out@), max_width as nat),
        decreases pieces.len() - i,
    {
        let piece = copy_chars(pieces[i].as_slice());
        let ghost out0 = views(out@);
        let ghost p = piece@;
        assert(p == views(pieces@)[i as int]);
        proof {
            if hyp {
                assert(line_text(p));
                if !printable_text(text@) {
                    lemma_columns_of_lines(views(pieces@), i as int);
                } else {
                    assert(printable(p));
                }
            }
        }
        wrap_line(piece, max_width, &mut out);
        proof {
            let wl = wrap_line_of(p, max_width as nat);
            if hyp {
                lemma_words_of_lines_concat(out0, wl);
                assert(views(pieces@).take(i + 1) =~= views(pieces@).take(i as int).push(p));
                lemma_words_of_lines_push(views(pieces@).take(i as int), p);
            }
            if printable_text(text@) {
                assert(printable(p));
                assert forall|k: int| 0 <= k < (out0 + wl).len() implies fits_or_single(#[trigger] (out0 + wl)[k], max_width as nat) by {
                    if k < out0.len() {
                        assert((out0 + wl)[k] == out0[k]);
                    } else {
                        assert((out0 + wl)[k] == wl[k - out0.len()]);
                    }
                }
            }
        }
        i = i + 1;
        assert(views(pieces@).take(i as int).drop_last() =~= views(pieces@).take(i - 1));
    }
    assert(views(pieces@).take(i as int) =~= views(pieces@));
    strings_of(&out)
}

/// Whether every text of a list is a line of text.
pub open spec fn all_lines(ls: Seq<Seq<char>>) -> bool {
    forall|k: int| 0 <= k < ls.len() ==> line_text(#[trigger] ls[k])
}

proof fn lemma_split_pieces(s: Seq<char>, i: int, done: Seq<Seq<char>>, cur: Seq<char>)
    requires
        safe_text(s),
        all_lines(done),
        line_text(cur),
    ensures
        all_lines(split_from(s, '\n', i, done, cur)),
        printable_text(s) && all_printable(done) && printable(cur) ==> all_printable(split_from(s, '\n', i, done, cur)),
    decreases s.len() - i,
{
    assert forall|k: int| 0 <= k < done.push(cur).len() implies line_text(#[trigger] done.push(cur)[k]) by {
        if k < done.len() {
            assert(done.push(cur)[k] == done[k]);
        }
    }
    if printable_text(s) && all_printable(done) && printable(cur) {
        assert forall|k: int| 0 <= k < done.push(cur).len() implies printable(#[trigger] done.push(cur)[k]) by {
            if k < done.len() {
                assert(done.push(cur)[k] == done[k]);
            }
        }
    }
    if 0 <= i < s.len() {
        if s[i] == '\n' {
            lemma_split_pieces(s, i + 1, done.push(cur), Seq::empty());
        } else {
            let c2 = cur.push(s[i]);
            assert(safe_char(s[i]) || s[i] == '\t');
            assert forall|k: int| 0 <= k < c2.len() implies safe_char(#[trigger] c2[k]) || c2[k] == '\t' by {
                if k < cur.len() {
                    assert(c2[k] == cur[k]);
                }
            }
            if printable_text(s) && printable(cur) {
                assert(' ' <= s[i] && s[i] <= '~');
                assert forall|k: int| 0 <= k < c2.len() implies ' ' <= #[trigger] c2[k] && c2[k] <= '~' by {
                    if k < cur.len() {
                        assert(c2[k] == cur[k]);
                    }
                }
            }
            lemma_split_pieces(s, i + 1, done, c2);
        }
    }
}

proof fn lemma_printable_text_safe(s: Seq<char>)
    requires
        printable_text(s),
    ensures
        safe_text(s),
{
    assert forall|k: int| 0 <= k < s.len() implies safe_char(#[trigger] s[k]) || s[k] == '\t' || s[k] == '\n' by {
        assert(s[k] == '\n' || (' ' <= s[k] && s[k] <= '~'));
    }
}

proof fn lemma_columns_of_lines(ls: Seq<Seq<char>>, k: int)
    requires
        words_take_columns(words_of_lines(ls)),
        0 <= k < ls.len(),
    ensures
        words_take_columns(plain_words(ls[k])),
    decreases ls.len(),
{
    let a = words_of_lines(ls.drop_last());
    let b = plain_words(ls.last());
    assert(words_of_lines(ls) == a + b);
    if k == ls.len() - 1 {
        assert forall|j: int| 0 <= j < b.len() implies visible_width(#[trigger] b[j]) > 0 by {
            assert((a + b)[a.len() + j] == b[j]);
        }
    } else {
        assert forall|j: int| 0 <= j < a.len() implies visible_width(#[trigger] a[j]) > 0 by {
            assert((a + b)[j] == a[j]);
        }
        lemma_columns_of_lines(ls.drop_last(), k);
        assert(ls.drop_last()[k] == ls[k]);
    }
}

proof fn lemma_split_without_sep(s: Seq<char>, sep: char, i: int, done: Seq<Seq<char>>, cur: Seq<char>)
    requires
        0 <= i <= s.len(),
        forall|k: int| i <= k < s.len() ==> s[k] != sep,
    ensures
        split_from(s, sep, i, done, cur) == done.push(cur + s.subrange(i, s.len() as int)),
    decreases s.len() - i,
{
    if i < s.len() {
        lemma_split_without_sep(s, sep, i + 1, done, cur.push(s[i]));
        assert(cur.push(s[i]) + s.subrange(i + 1, s.len() as int) =~= cur + s.subrange(i, s.len() as int));
    } else {
        assert(cur + s.subrange(i, s.len() as int) =~= cur);
    }
}

/// Wrapping with no limit leaves the text whole; a single line that fits in the limit comes
/// back as it is.
pub proof fn lemma_wrap_fitting_text_unchanged(text: Seq<char>, max: nat)
    requires
        max == 0 || (visible_width(text) <= max && forall|k: int| 0 <= k < text.len() ==> text[k] != '\n'),
    ensures
        wrap_text_of(text, max) == seq![text],
{
    if max > 0 {
        lemma_split_without_sep(text, '\n', 0, Seq::empty(), Seq::empty());
        assert(Seq::<char>::empty() + text.subrange(0, text.len() as int) =~= text);
        let pieces = split_on(text, '\n');
        assert(pieces =~= seq![text]);
        assert(pieces.drop_last() =~= Seq::<Seq<char>>::empty());
        assert(wrap_all(pieces, max) == wrap_all(pieces.drop_last(), max) + wrap_line_of(text, max));
        assert(wrap_all(pieces, max) =~= seq![text]);
    }
}

/// Every character of `s` is a space or occurs in `pool`.
pub open spec fn drawn_from(s: Seq<char>, pool: Seq<char>) -> bool {
    forall|j: int| 0 <= j < s.len() ==> #[trigger] s[j] == ' ' || pool.contains(s[j])
}

/// Every text in `ws` is drawn from `pool`.
pub open spec fn all_drawn(ws: Seq<Seq<char>>, pool: Seq<char>) -> bool {
    forall|k: int| 0 <= k < ws.len() ==> drawn_from(#[trigger] ws[k], pool)
}

proof fn lemma_concat_drawn(a: Seq<char>, b: Seq<char>, pool: Seq<char>)
    requires
        drawn_from(a, pool),
        drawn_from(b, pool),
    ensures
        drawn_from(a + b, pool),
{
    assert forall|j: int| 0 <= j < (a + b).len() implies #[trigger] (a + b)[j] == ' ' || pool.contains((a + b)[j]) by {
        if j < a.len() {
            assert((a + b)[j] == a[j]);
        } else {
            assert((a + b)[j] == b[j - a.len()]);
        }
    }
}

proof fn lemma_space_drawn(pool: Seq<char>)
    ensures
        drawn_from(seq![' '], pool),
        drawn_from(Seq::<char>::empty(), pool),
{
}

proof fn lemma_push_drawn(ws: Seq<Seq<char>>, w: Seq<char>, pool: Seq<char>)
    requires
        all_drawn(ws, pool),
        drawn_from(w, pool),
    ensures
        all_drawn(ws.push(w), pool),
{
    assert forall|k: int| 0 <= k < ws.push(w).len() implies drawn_from(#[trigger] ws.push(w)[k], pool) by {
        if k < ws.len() {
            assert(ws.push(w)[k] == ws[k]);
        }
    }
}

proof fn lemma_attach_last_drawn(ws: Seq<Seq<char>>, cur: Seq<char>, pool: Seq<char>)
    requires
        all_drawn(ws, pool),
        drawn_from(cur, pool),
    ensures
        all_drawn(attach_last(ws, cur), pool),
{
    if ws.len() > 0 {
        assert(drawn_from(ws[ws.len() - 1], pool));
        lemma_concat_drawn(ws.last(), cur, pool);
        let r = attach_last(ws, cur);
        assert forall|k: int| 0 <= k < r.len() implies drawn_from(#[trigger] r[k], pool) by {
            if k < ws.len() - 1 {
                assert(r[k] == ws[k]);
            }
        }
    }
}

proof fn lemma_split_words_drawn(c: Seq<char>, i: int, words: Seq<Seq<char>>, cur: Seq<char>, esc: bool, pool: Seq<char>)
    requires
        drawn_from(c, pool),
        all_drawn(words, pool),
        drawn_from(cur, pool),
    ensures
        all_drawn(split_words_from(c, i, words, cur, esc), pool),
    decreases c.len() - i,
{
    if i >= c.len() || i < 0 {
        if cur.len() > 0 {
            lemma_push_drawn(words, cur, pool);
            lemma_attach_last_drawn(words, cur, pool);
        }
    } else {
        let ch = c[i];
        assert(drawn_from(seq![ch], pool)) by {
            assert(seq![ch][0] == c[i]);
        }
        lemma_concat_drawn(cur, seq![ch], pool);
        assert(cur.push(ch) =~= cur + seq![ch]);
        lemma_space_drawn(pool);
        if ch == '\x1b' {
            lemma_split_words_drawn(c, i + 1, words, cur.push(ch), true, pool);
        } else if esc {
            lemma_split_words_drawn(c, i + 1, words, cur.push(ch), !ends_escape(ch), pool);
        } else if ch == ' ' || ch == '\t' {
            if cur.len() == 0 {
                lemma_split_words_drawn(c, i + 1, words, cur, false, pool);
            } else if ansi_stripped(cur).len() > 0 {
                lemma_push_drawn(words, cur, pool);
                lemma_split_words_drawn(c, i + 1, words.push(cur), Seq::empty(), false, pool);
            } else if i + 1 < c.len() && c[i + 1] != ' ' && c[i + 1] != '\t' {
                lemma_split_words_drawn(c, i + 1, words, cur, false, pool);
            } else {
                lemma_attach_last_drawn(words, cur, pool);
                lemma_split_words_drawn(c, i + 1, attach_last(words, cur), Seq::empty(), false, pool);
            }
        } else {
            lemma_split_words_drawn(c, i + 1, words, cur.push(ch), false, pool);
        }
    }
}

proof fn lemma_join_drawn(ws: Seq<Seq<char>>, pool: Seq<char>)
    requires
        all_drawn(ws, pool),
    ensures
        drawn_from(join_words(ws), pool),
    decreases ws.len(),
{
    if ws.len() == 1 {
        assert(drawn_from(ws[0], pool));
    } else if ws.len() > 1 {
        assert forall|k: int| 0 <= k < ws.drop_last().len() implies drawn_from(#[trigger] ws.drop_last()[k], pool) by {
            assert(ws.drop_last()[k] == ws[k]);
        }
        lemma_join_drawn(ws.drop_last(), pool);
        lemma_space_drawn(pool);
        lemma_concat_drawn(join_words(ws.drop_last()), seq![' '], pool);
        assert(drawn_from(ws[ws.len() - 1], pool));
        lemma_concat_drawn(join_words(ws.drop_last()) + seq![' '], ws.last(), pool);
    }
}

proof fn lemma_orphan_drawn(line: Seq<char>, pool: Seq<char>)
    requires
        drawn_from(line, pool),
    ensures
        drawn_from(orphan_split(line).0, pool),
        orphan_split(line).1 matches Some(w) ==> drawn_from(w, pool),
{
    lemma_split_words_drawn(line, 0, Seq::empty(), Seq::empty(), false, pool);
    let words = split_words_of(line);
    if words.len() >= 3 {
        assert forall|k: int| 0 <= k < words.drop_last().len() implies drawn_from(#[trigger] words.drop_last()[k], pool) by {
            assert(words.drop_last()[k] == words[k]);
        }
        lemma_join_drawn(words.drop_last(), pool);
        assert(drawn_from(words[words.len() - 1], pool));
    }
}

/// What every wrapping state keeps: its lines and the line being filled are drawn from `pool`.
pub open spec fn state_drawn(st: WrapState, pool: Seq<char>) -> bool {
    all_drawn(st.0, pool) && drawn_from(st.1, pool)
}

proof fn lemma_wrap_words_drawn(max: int, st: WrapState, words: Seq<Seq<char>>, i: int, pool: Seq<char>)
    requires
        state_drawn(st, pool),
        all_drawn(words, pool),
    ensures
        state_drawn(wrap_words(max, st, words, i), pool),
    decreases words.len() - i,
{
    if 0 <= i < words.len() {
        let (out, line, width) = st;
        let word = words[i];
        assert(drawn_from(word, pool));
        lemma_space_drawn(pool);
        if width == 0 {
            lemma_concat_drawn(line, word, pool);
        } else if width + 1 + visible_width(word) as int <= max {
            lemma_concat_drawn(line, seq![' '], pool);
            lemma_concat_drawn(line + seq![' '], word, pool);
        } else {
            lemma_orphan_drawn(line, pool);
            lemma_push_drawn(out, orphan_split(line).0, pool);
            lemma_push_drawn(out, line, pool);
            match orphan_split(line).1 {
                Some(o) => {
                    lemma_concat_drawn(o, seq![' '], pool);
                    lemma_concat_drawn(o + seq![' '], word, pool);
                },
                None => {},
            }
        }
        lemma_wrap_words_drawn(max, wrap_step(max, st, word), words, i + 1, pool);
    }
}

proof fn lemma_wrap_line_drawn(line: Seq<char>, max: nat, pool: Seq<char>)
    requires
        drawn_from(line, pool),
    ensures
        all_drawn(wrap_line_of(line, max), pool),
{
    if visible_width(line) <= max {
        lemma_push_drawn(Seq::empty(), line, pool);
        assert(Seq::<Seq<char>>::empty().push(line) =~= seq![line]);
    } else {
        lemma_split_words_drawn(line, 0, Seq::empty(), Seq::empty(), false, pool);
        let st0: WrapState = (Seq::empty(), Seq::empty(), 0);
        lemma_space_drawn(pool);
        lemma_wrap_words_drawn(max as int, st0, split_words_of(line), 0, pool);
        let (out, cur, width) = wrap_words(max as int, st0, split_words_of(line), 0);
        lemma_push_drawn(out, cur, pool);
    }
}

proof fn lemma_split_from_drawn(s: Seq<char>, i: int, done: Seq<Seq<char>>, cur: Seq<char>, pool: Seq<char>)
    requires
        drawn_from(s, pool),
        all_drawn(done, pool),
        drawn_from(cur, pool),
    ensures
        all_drawn(split_from(s, '\n', i, done, cur), pool),
    decreases s.len() - i,
{
    if i >= s.len() || i < 0 {
        lemma_push_drawn(done, cur, pool);
    } else if s[i] == '\n' {
        lemma_push_drawn(done, cur, pool);
        lemma_split_from_drawn(s, i + 1, done.push(cur), Seq::empty(), pool);
    } else {
        assert(drawn_from(seq![s[i]], pool)) by {
            assert(seq![s[i]][0] == s[i]);
        }
        lemma_concat_drawn(cur, seq![s[i]], pool);
        assert(cur.push(s[i]) =~= cur + seq![s[i]]);
        lemma_split_from_drawn(s, i + 1, done, cur.push(s[i]), pool);
    }
}

proof fn lemma_wrap_all_drawn(lines: Seq<Seq<char>>, max: nat, pool: Seq<char>)
    requires
        all_drawn(lines, pool),
    ensures
        all_drawn(wrap_all(lines, max), pool),
    decreases lines.len(),
{
    if lines.len() > 0 {
        assert forall|k: int| 0 <= k < lines.drop_last().len() implies drawn_from(#[trigger] lines.drop_last()[k], pool) by {
            assert(lines.drop_last()[k] == lines[k]);
        }
        lemma_wrap_all_drawn(lines.drop_last(), max, pool);
        assert(drawn_from(lines[lines.len() - 1], pool));
        lemma_wrap_line_drawn(lines.last(), max, pool);
        let a = wrap_all(lines.drop_last(), max);
        let b = wrap_line_of(lines.last(), max);
        assert forall|k: int| 0 <= k < (a + b).len() implies drawn_from(#[trigger] (a + b)[k], pool) by {
            if k < a.len() {
                assert((a + b)[k] == a[k]);
            } else {
                assert((a + b)[k] == b[k - a.len()]);
            }
        }
    }
}

/// Wrapping adds nothing but line breaks and spaces: every character of every wrapped line is
/// a space or a character of the text.
pub proof fn lemma_wrap_adds_only_spaces(text: Seq<char>, max: nat)
    ensures
        all_drawn(wrap_text_of(text, max), text),
{
    assert forall|j: int| 0 <= j < text.len() implies #[trigger] text[j] == ' ' || text.contains(text[j]) by {
        assert(text[j] == text[j]);
    }
    if max == 0 {
        lemma_push_drawn(Seq::empty(), text, text);
        assert(Seq::<Seq<char>>::empty().push(text) =~= seq![text]);
    } else {
        lemma_split_from_drawn(text, 0, Seq::empty(), Seq::empty(), text);
        lemma_wrap_all_drawn(split_on(text, '\n'), max, text);
    }
}

/// The short articles and prepositions that should not end a wrapped line.
pub open spec fn orphan_words() -> Seq<Seq<char>> {
    seq!["a"@, "an"@, "the"@, "of"@, "to"@, "in"@, "on"@, "at"@, "by"@, "or"@, "is"@, "it"@, "if"@, "as"@, "no"@, "so"@]
}

proof fn lemma_orphan_word_listed(k: int)
    requires
        0 <= k < orphan_words().len(),
    ensures
        is_orphan_word(orphan_words()[k]),
{
    if k == 0 {
        assert(orphan_words()[0] == "a"@);
    } else if k == 1 {
        assert(orphan_words()[1] == "an"@);
    } else if k == 2 {
        assert(orphan_words()[2] == "the"@);
    } else if k == 3 {
        assert(orphan_words()[3] == "of"@);
    } else if k == 4 {
        assert(orphan_words()[4] == "to"@);
    } else if k == 5 {
        assert(orphan_words()[5] == "in"@);
    } else if k == 6 {
        assert(orphan_words()[6] == "on"@);
    } else if k == 7 {
        assert(orphan_words()[7] == "at"@);
    } else if k == 8 {
        assert(orphan_words()[8] == "by"@);
    } else if k == 9 {
        assert(orphan_words()[9] == "or"@);
    } else if k == 10 {
        assert(orphan_words()[10] == "is"@);
    } else if k == 11 {
        assert(orphan_words()[11] == "it"@);
    } else if k == 12 {
        assert(orphan_words()[12] == "if"@);
    } else if k == 13 {
        assert(orphan_words()[13] == "as"@);
    } else if k == 14 {
        assert(orphan_words()[14] == "no"@);
    } else {
        assert(orphan_words()[15] == "so"@);
    }
}

/// Orphan prevention: when the next word does not fit on a line of three or more words that
/// ends in one of the short words `a`, `an`, `the`, `of`, `to`, `in`, `on`, `at`, `by`, `or`,
/// `is`, `it`, `if`, `as`, `no`, `so` (in any case, escape sequences aside), and that short
/// word fits together with the next one, the line is emitted without it and the new line starts
/// with the short word, a space and the next word.
pub proof fn lemma_orphan_moves_to_next_line(max: int, out: Seq<Seq<char>>, line: Seq<char>, width: int, word: Seq<char>)
    requires
        split_words_of(line).len() >= 3,
        orphan_words().contains(lowercase(ansi_stripped(split_words_of(line).last()))),
        width > 0,
        width + 1 + visible_width(word) > max,
        visible_width(split_words_of(line).last()) + 1 + visible_width(word) <= max,
    ensures
        wrap_step(max, (out, line, width), word) == (
            out.push(join_words(split_words_of(line).drop_last())),
            split_words_of(line).last() + seq![' '] + word,
            visible_width(split_words_of(line).last()) + 1 + visible_width(word),
        ),
{
    let ws = split_words_of(line);
    let k = choose|k: int| 0 <= k < orphan_words().len() && orphan_words()[k] == lowercase(ansi_stripped(ws.last()));
    lemma_orphan_word_listed(k);
}

/// The columns the characters of `s` take when cutting: control characters take none.
pub open spec fn cut_width(s: Seq<char>) -> nat
    decreases s.len(),
{
    if s.len() == 0 {
        0
    } else {
        cut_width(s.drop_last()) + trunc_char_width(s.last())
    }
}

proof fn lemma_trunc_count_fits(s: Seq<char>, i: int, width: nat, max: nat)
    requires
        0 <= i <= s.len(),
        width == cut_width(s.take(i)),
        width + 1 <= max,
    ensures
        ({
            let n = trunc_count(s, i, width, max);
            &&& i <= n <= s.len()
            &&& cut_width(s.take(n)) + 1 <= max
            &&& n < s.len() ==> cut_width(s.take(n)) + trunc_char_width(s[n]) + 1 > max
        }),
    decreases s.len() - i,
{
    if i < s.len() && width + trunc_char_width(s[i]) + 1 <= max {
        assert(s.take(i + 1).drop_last() =~= s.take(i));
        lemma_trunc_count_fits(s, i + 1, width + trunc_char_width(s[i]), max);
    }
}

/// Cutting a text to `max` columns: with no room it is empty; a text that fits stays as it is;
/// a wider one becomes the longest start of its escape-free text that leaves a column free,
/// followed by an ellipsis, so the cut text fits.
pub proof fn lemma_cut_rules(s: Seq<char>, stripped: Seq<char>, width: nat, max: nat)
    ensures
        max == 0 ==> truncate_measured_of(s, stripped, width, max) == Seq::<char>::empty(),
        max > 0 && width <= max ==> truncate_measured_of(s, stripped, width, max) == s,
        max > 0 && width > max ==> exists|n: int|
            #![trigger stripped.take(n)]
            0 <= n <= stripped.len() && truncate_measured_of(s, stripped, width, max) == stripped.take(n).push(
                '\u{2026}',
            ) && cut_width(stripped.take(n)) + 1 <= max && (n < stripped.len() ==> cut_width(stripped.take(n))
                + trunc_char_width(stripped[n]) + 1 > max),
{
    if max > 0 && width > max {
        assert(stripped.take(0) =~= Seq::<char>::empty());
        lemma_trunc_count_fits(stripped, 0, 0, max);
        let n = trunc_count(stripped, 0, 0, max);
        assert(truncate_measured_of(s, stripped, width, max) == stripped.take(n).push('\u{2026}'));
    }
}

/// A full line keeps its last word when it holds fewer than three words, or when that word is not
/// one of the short words, or when the short word and the next word do not fit together: the
/// line is emitted whole and the next word starts the new line. A word that fits goes on the
/// line after a space; the first word of a line goes on it as it is.
pub proof fn lemma_line_kept_whole(max: int, out: Seq<Seq<char>>, line: Seq<char>, width: int, word: Seq<char>)
    ensures
        width > 0 && width + 1 + visible_width(word) > max && (split_words_of(line).len() < 3
            || !orphan_words().contains(lowercase(ansi_stripped(split_words_of(line).last())))
            || visible_width(split_words_of(line).last()) + 1 + visible_width(word) > max) ==> wrap_step(
            max,
            (out, line, width),
            word,
        ) == (out.push(line), word, visible_width(word) as int),
        width > 0 && width + 1 + visible_width(word) <= max ==> wrap_step(max, (out, line, width), word) == (
            out,
            line + seq![' '] + word,
            width + 1 + visible_width(word),
        ),
        width == 0 ==> wrap_step(max, (out, line, width), word) == (out, line + word, visible_width(word) as int),
{
    let ws = split_words_of(line);
    if ws.len() >= 3 && is_orphan_word(lowercase(ansi_stripped(ws.last()))) {
        let l = lowercase(ansi_stripped(ws.last()));
        let words = seq!["a"@, "an"@, "the"@, "of"@, "to"@, "in"@, "on"@, "at"@, "by"@, "or"@, "is"@, "it"@, "if"@, "as"@, "no"@, "so"@];
        assert(orphan_words() == words);
        if l == "a"@ {
            assert(words[0] == l);
        } else if l == "an"@ {
            assert(words[1] == l);
        } else if l == "the"@ {
            assert(words[2] == l);
        } else if l == "of"@ {
            assert(words[3] == l);
        } else if l == "to"@ {
            assert(words[4] == l);
        } else if l == "in"@ {
            assert(words[5] == l);
        } else if l == "on"@ {
            assert(words[6] == l);
        } else if l == "at"@ {
            assert(words[7] == l);
        } else if l == "by"@ {
            assert(words[8] == l);
        } else if l == "or"@ {
            assert(words[9] == l);
        } else if l == "is"@ {
            assert(words[10] == l);
        } else if l == "it"@ {
            assert(words[11] == l);
        } else if l == "if"@ {
            assert(words[12] == l);
        } else if l == "as"@ {
            assert(words[13] == l);
        } else if l == "no"@ {
            assert(words[14] == l);
        } else {
            assert(words[15] == l);
        }
    }
}

} // verus!
