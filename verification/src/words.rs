//! Words of text without control characters: runs of characters between spaces and tabs.
//! Wrapping such text keeps its words in order; where the text is printable ASCII, each line
//! also fits in the width, or is a single word.

use vstd::prelude::*;
use crate::wrap::join_words;

verus! {

/// Whether every character is printable ASCII, from space to tilde.
pub open spec fn printable(s: Seq<char>) -> bool {
    forall|k: int| 0 <= k < s.len() ==> ' ' <= #[trigger] s[k] && s[k] <= '~'
}

/// Whether a character shows on a terminal: it is no control character (C0, C1).
pub open spec fn safe_char(c: char) -> bool {
    ' ' <= c && !('\u{80}' <= c && c <= '\u{9f}')
}

/// Whether every character of a text shows on a terminal.
pub open spec fn safe(s: Seq<char>) -> bool {
    forall|k: int| 0 <= k < s.len() ==> safe_char(#[trigger] s[k])
}

/// A line of text: characters that show, and tabs.
pub open spec fn line_text(s: Seq<char>) -> bool {
    forall|k: int| 0 <= k < s.len() ==> safe_char(#[trigger] s[k]) || s[k] == '\t'
}

/// A text of lines: characters that show, tabs and line feeds.
pub open spec fn safe_text(s: Seq<char>) -> bool {
    forall|k: int| 0 <= k < s.len() ==> safe_char(#[trigger] s[k]) || s[k] == '\t' || s[k] == '\n'
}

/// Whether every text of a list is printable.
pub open spec fn all_printable(ls: Seq<Seq<char>>) -> bool {
    forall|k: int| 0 <= k < ls.len() ==> printable(#[trigger] ls[k])
}

/// Printable ASCII shows on a terminal, and is a line of text.
pub proof fn lemma_printable_is_line(s: Seq<char>)
    requires
        printable(s),
    ensures
        safe(s),
        line_text(s),
{
    assert forall|k: int| 0 <= k < s.len() implies safe_char(#[trigger] s[k]) by {
        assert(' ' <= s[k] && s[k] <= '~');
    }
}

/// Whether every character is printable ASCII or a line feed.
pub open spec fn printable_text(s: Seq<char>) -> bool {
    forall|k: int| 0 <= k < s.len() ==> #[trigger] s[k] == '\n' || (' ' <= s[k] && s[k] <= '~')
}

/// Whether a text holds no space.
pub open spec fn no_space(s: Seq<char>) -> bool {
    forall|k: int| 0 <= k < s.len() ==> #[trigger] s[k] != ' '
}

/// A word: not empty, without a space, every character showing.
pub open spec fn plain_word(w: Seq<char>) -> bool {
    w.len() > 0 && safe(w) && no_space(w)
}

/// Whether every text of a list is a word.
pub open spec fn all_plain_words(ws: Seq<Seq<char>>) -> bool {
    forall|k: int| 0 <= k < ws.len() ==> plain_word(#[trigger] ws[k])
}

/// `words` with `cur` added when it is not empty.
pub open spec fn push_word(words: Seq<Seq<char>>, cur: Seq<char>) -> Seq<Seq<char>> {
    if cur.len() > 0 {
        words.push(cur)
    } else {
        words
    }
}

/// Splitting `s` at spaces and tabs from index `i`, with `words` found so far and `cur` the
/// word being read.
pub open spec fn plain_words_from(s: Seq<char>, i: int, words: Seq<Seq<char>>, cur: Seq<char>) -> Seq<Seq<char>>
    decreases s.len() - i,
{
    if i >= s.len() || i < 0 {
        push_word(words, cur)
    } else if s[i] == ' ' || s[i] == '\t' {
        plain_words_from(s, i + 1, push_word(words, cur), Seq::empty())
    } else {
        plain_words_from(s, i + 1, words, cur.push(s[i]))
    }
}

/// The words of a text: the runs of characters between spaces and tabs.
pub open spec fn plain_words(s: Seq<char>) -> Seq<Seq<char>> {
    plain_words_from(s, 0, Seq::empty(), Seq::empty())
}

/// The words of each line, one line after the other.
pub open spec fn words_of_lines(ls: Seq<Seq<char>>) -> Seq<Seq<char>>
    decreases ls.len(),
{
    if ls.len() == 0 {
        Seq::empty()
    } else {
        words_of_lines(ls.drop_last()) + plain_words(ls.last())
    }
}

/// A line that fits in `max` columns (a printable character takes one), or a single word.
pub open spec fn fits_or_single(l: Seq<char>, max: nat) -> bool {
    l.len() <= max || no_space(l)
}

/// Whether every line fits in `max` columns or is a single word.
pub open spec fn all_fit_or_single(ls: Seq<Seq<char>>, max: nat) -> bool {
    forall|k: int| 0 <= k < ls.len() ==> fits_or_single(#[trigger] ls[k], max)
}

proof fn lemma_plain_words_shift(p: Seq<char>, b: Seq<char>, j: int, words: Seq<Seq<char>>, cur: Seq<char>)
    requires
        0 <= j <= b.len(),
    ensures
        plain_words_from(p + b, p.len() + j, words, cur) == plain_words_from(b, j, words, cur),
    decreases b.len() - j,
{
    if j < b.len() {
        assert((p + b)[p.len() + j] == b[j]);
        if b[j] == ' ' || b[j] == '\t' {
            lemma_plain_words_shift(p, b, j + 1, push_word(words, cur), Seq::empty());
        } else {
            lemma_plain_words_shift(p, b, j + 1, words, cur.push(b[j]));
        }
    }
}

proof fn lemma_plain_words_split(a: Seq<char>, b: Seq<char>, i: int, words: Seq<Seq<char>>, cur: Seq<char>)
    requires
        0 <= i <= a.len(),
    ensures
        plain_words_from(a + seq![' '] + b, i, words, cur) == plain_words_from(
            b,
            0,
            plain_words_from(a, i, words, cur),
            Seq::empty(),
        ),
    decreases a.len() - i,
{
    let s = a + seq![' '] + b;
    if i < a.len() {
        assert(s[i] == a[i]);
        if a[i] == ' ' || a[i] == '\t' {
            lemma_plain_words_split(a, b, i + 1, push_word(words, cur), Seq::empty());
        } else {
            lemma_plain_words_split(a, b, i + 1, words, cur.push(a[i]));
        }
    } else {
        assert(s[i] == ' ');
        assert(s == (a + seq![' ']) + b);
        lemma_plain_words_shift(a + seq![' '], b, 0, push_word(words, cur), Seq::empty());
    }
}

proof fn lemma_plain_word_alone(w: Seq<char>, i: int, words: Seq<Seq<char>>)
    requires
        plain_word(w),
        0 <= i <= w.len(),
    ensures
        plain_words_from(w, i, words, w.take(i)) == words.push(w),
    decreases w.len() - i,
{
    if i < w.len() {
        assert(safe_char(w[i]));
        assert(w[i] != ' ' && w[i] != '\t');
        assert(w.take(i).push(w[i]) =~= w.take(i + 1));
        lemma_plain_word_alone(w, i + 1, words);
    } else {
        assert(w.take(i) =~= w);
    }
}

/// Words joined by spaces split back into the same words.
pub proof fn lemma_plain_words_join(g: Seq<Seq<char>>, words: Seq<Seq<char>>)
    requires
        all_plain_words(g),
        g.len() > 0,
    ensures
        plain_words_from(join_words(g), 0, words, Seq::empty()) == words + g,
    decreases g.len(),
{
    if g.len() == 1 {
        assert(plain_word(g[0]));
        assert(g[0].take(0) =~= Seq::<char>::empty());
        lemma_plain_word_alone(g[0], 0, words);
        assert(words.push(g[0]) =~= words + g);
    } else {
        let d = g.drop_last();
        assert forall|k: int| 0 <= k < d.len() implies plain_word(#[trigger] d[k]) by {
            assert(d[k] == g[k]);
        }
        lemma_plain_words_join(d, words);
        lemma_plain_words_split(join_words(d), g.last(), 0, words, Seq::empty());
        assert(plain_word(g[g.len() - 1]));
        assert(g.last().take(0) =~= Seq::<char>::empty());
        lemma_plain_word_alone(g.last(), 0, words + d);
        assert((words + d).push(g.last()) =~= words + g);
    }
}

/// The words of a text joined from words are those words.
pub proof fn lemma_words_of_join(g: Seq<Seq<char>>)
    requires
        all_plain_words(g),
        g.len() > 0,
    ensures
        plain_words(join_words(g)) == g,
{
    lemma_plain_words_join(g, Seq::empty());
    assert(Seq::<Seq<char>>::empty() + g =~= g);
}

proof fn lemma_push_word_plain(words: Seq<Seq<char>>, cur: Seq<char>)
    requires
        all_plain_words(words),
        safe(cur),
        no_space(cur),
    ensures
        all_plain_words(push_word(words, cur)),
        all_printable(words) && printable(cur) ==> all_printable(push_word(words, cur)),
{
    if cur.len() > 0 {
        assert forall|k: int| 0 <= k < words.push(cur).len() implies plain_word(#[trigger] words.push(cur)[k]) by {
            if k < words.len() {
                assert(words.push(cur)[k] == words[k]);
            }
        }
        if all_printable(words) && printable(cur) {
            assert forall|k: int| 0 <= k < words.push(cur).len() implies printable(#[trigger] words.push(cur)[k]) by {
                if k < words.len() {
                    assert(words.push(cur)[k] == words[k]);
                }
            }
        }
    }
}

proof fn lemma_plain_words_from_plain(s: Seq<char>, i: int, words: Seq<Seq<char>>, cur: Seq<char>)
    requires
        line_text(s),
        all_plain_words(words),
        safe(cur),
        no_space(cur),
    ensures
        all_plain_words(plain_words_from(s, i, words, cur)),
        printable(s) && all_printable(words) && printable(cur) ==> all_printable(plain_words_from(s, i, words, cur)),
    decreases s.len() - i,
{
    lemma_push_word_plain(words, cur);
    if 0 <= i < s.len() {
        if s[i] == ' ' || s[i] == '\t' {
            lemma_plain_words_from_plain(s, i + 1, push_word(words, cur), Seq::empty());
        } else {
            let c2 = cur.push(s[i]);
            assert(safe_char(s[i]));
            assert forall|k: int| 0 <= k < c2.len() implies safe_char(#[trigger] c2[k]) && c2[k] != ' ' by {
                if k < cur.len() {
                    assert(c2[k] == cur[k]);
                }
            }
            if printable(s) && printable(cur) {
                assert forall|k: int| 0 <= k < c2.len() implies ' ' <= #[trigger] c2[k] && c2[k] <= '~' by {
                    if k < cur.len() {
                        assert(c2[k] == cur[k]);
                    }
                }
            }
            lemma_plain_words_from_plain(s, i + 1, words, c2);
        }
    }
}

/// The words of a line of text are words; those of a printable line are printable.
pub proof fn lemma_plain_words_plain(s: Seq<char>)
    requires
        line_text(s),
    ensures
        all_plain_words(plain_words(s)),
        printable(s) ==> all_printable(plain_words(s)),
{
    lemma_plain_words_from_plain(s, 0, Seq::empty(), Seq::empty());
}

/// Words joined by spaces show on a terminal, and more than one hold a space.
pub proof fn lemma_join_plain(g: Seq<Seq<char>>)
    requires
        all_plain_words(g),
    ensures
        safe(join_words(g)),
        g.len() >= 2 ==> !no_space(join_words(g)),
        g.len() >= 2 ==> join_words(g.drop_last()).len() < join_words(g).len(),
        g.len() == 1 ==> join_words(g) == g[0],
    decreases g.len(),
{
    if g.len() == 1 {
        assert(plain_word(g[0]));
    } else if g.len() >= 2 {
        let d = g.drop_last();
        assert forall|k: int| 0 <= k < d.len() implies plain_word(#[trigger] d[k]) by {
            assert(d[k] == g[k]);
        }
        lemma_join_plain(d);
        assert(plain_word(g[g.len() - 1]));
        let j = join_words(d) + seq![' '] + g.last();
        assert(j[join_words(d).len() as int] == ' ');
        assert forall|k: int| 0 <= k < j.len() implies safe_char(#[trigger] j[k]) by {
            if k < join_words(d).len() {
                assert(j[k] == join_words(d)[k]);
            } else if k > join_words(d).len() {
                assert(j[k] == g.last()[k - join_words(d).len() - 1]);
            }
        }
    }
}

/// The words of lines one after another are the words of each part, in order.
pub proof fn lemma_words_of_lines_concat(a: Seq<Seq<char>>, b: Seq<Seq<char>>)
    ensures
        words_of_lines(a + b) == words_of_lines(a) + words_of_lines(b),
    decreases b.len(),
{
    if b.len() == 0 {
        assert(a + b =~= a);
        assert(words_of_lines(a) + Seq::<Seq<char>>::empty() =~= words_of_lines(a));
    } else {
        assert((a + b).drop_last() =~= a + b.drop_last());
        lemma_words_of_lines_concat(a, b.drop_last());
        assert(words_of_lines(a) + words_of_lines(b.drop_last()) + plain_words(b.last()) =~= words_of_lines(a)
            + (words_of_lines(b.drop_last()) + plain_words(b.last())));
    }
}

/// The words of one more line follow those of the lines before.
pub proof fn lemma_words_of_lines_push(a: Seq<Seq<char>>, l: Seq<char>)
    ensures
        words_of_lines(a.push(l)) == words_of_lines(a) + plain_words(l),
{
    assert(a.push(l).drop_last() =~= a);
}

} // verus!
