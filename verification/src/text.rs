//! Character-sequence helpers shared by the rendering modules.

use vstd::prelude::*;

verus! {

/// The characters of a string slice, in order.
#[verifier::external_body]
pub(crate) fn chars_of(s: &str) -> (v: Vec<char>)
    ensures
        v@ == s@,
{
    s.chars().collect()
}

/// A string holding exactly the given characters.
#[verifier::external_body]
pub(crate) fn string_of(v: &[char]) -> (s: String)
    ensures
        s@ == v@,
{
    v.iter().collect()
}

/// A string holding the characters of `v` from `from` up to `to`.
pub fn string_of_range(v: &[char], from: usize, to: usize) -> (s: String)
    requires
        from <= to <= v@.len(),
    ensures
        s@ == v@.subrange(from as int, to as int),
{
    let mut s = String::new();
    let mut i = from;
    while i < to
        invariant
            from <= i <= to <= v@.len(),
            s@ == v@.subrange(from as int, i as int),
        decreases to - i,
    {
        push_char(&mut s, v[i]);
        i = i + 1;
        assert(s@ =~= v@.subrange(from as int, i as int));
    }
    s
}

/// Appends the characters of `src` to `dst`.
pub fn extend_chars(dst: &mut Vec<char>, src: &[char])
    ensures
        final(dst)@ == old(dst)@ + src@,
{
    let mut j: usize = 0;
    while j < src.len()
        invariant
            j <= src@.len(),
            dst@ == old(dst)@ + src@.take(j as int),
        decreases src.len() - j,
    {
        dst.push(src[j]);
        j = j + 1;
        assert(dst@ =~= old(dst)@ + src@.take(j as int));
    }
    assert(src@.take(j as int) =~= src@);
}

/// The characters of `src` in a new vector.
pub fn copy_chars(src: &[char]) -> (v: Vec<char>)
    ensures
        v@ == src@,
{
    let mut v = Vec::new();
    extend_chars(&mut v, src);
    assert(v@ =~= src@);
    v
}

/// The character sequences of a list of character vectors.
pub open spec fn views(ws: Seq<Vec<char>>) -> Seq<Seq<char>> {
    ws.map_values(|w: Vec<char>| w@)
}

/// The character sequences of a list of strings.
pub open spec fn string_views(v: Seq<String>) -> Seq<Seq<char>> {
    v.map_values(|s: String| s@)
}

/// Strings holding the given character vectors.
pub fn strings_of(v: &Vec<Vec<char>>) -> (r: Vec<String>)
    ensures
        string_views(r@) == views(v@),
{
    let mut r: Vec<String> = Vec::new();
    let mut i: usize = 0;
    while i < v.len()
        invariant
            i <= v@.len(),
            string_views(r@) == views(v@).take(i as int),
        decreases v.len() - i,
    {
        let s = string_of(v[i].as_slice());
        let ghost prev = r@;
        assert(string_views(prev).len() == prev.len());
        assert(views(v@).take(i as int).len() == i);
        r.push(s);
        proof {
            assert forall|k: int| 0 <= k < i + 1 implies #[trigger] string_views(r@)[k] == views(
                v@,
            ).take(i + 1)[k] by {
                if k < i {
                    assert(r@[k] == prev[k]);
                    assert(string_views(prev)[k] == views(v@).take(i as int)[k]);
                }
            }
        }
        i = i + 1;
        assert(string_views(r@) =~= views(v@).take(i as int));
    }
    assert(views(v@).take(i as int) =~= views(v@));
    r
}

/// `s` repeated `n` times.
pub open spec fn repeat_seq(s: Seq<char>, n: nat) -> Seq<char>
    decreases n,
{
    if n == 0 {
        Seq::empty()
    } else {
        repeat_seq(s, (n - 1) as nat) + s
    }
}

/// Parts joined with `sep` between consecutive ones.
pub open spec fn join_with(parts: Seq<Seq<char>>, sep: Seq<char>) -> Seq<char>
    decreases parts.len(),
{
    if parts.len() == 0 {
        Seq::empty()
    } else if parts.len() == 1 {
        parts[0]
    } else {
        join_with(parts.drop_last(), sep) + sep + parts.last()
    }
}

/// `s` repeated `n` times (std's `str::repeat`).
pub fn repeat_str(s: &str, n: usize) -> (r: String)
    ensures
        r@ == repeat_seq(s@, n as nat),
{
    let mut r = String::new();
    let mut i: usize = 0;
    proof { reveal_with_fuel(repeat_seq, 1); }
    assert(r@ =~= repeat_seq(s@, 0));
    while i < n
        invariant
            i <= n,
            r@ == repeat_seq(s@, i as nat),
        decreases n - i,
    {
        r.append(s);
        i = i + 1;
    }
    r
}

/// Strings joined with `sep` (std's `join` on a slice of strings).
pub fn join_strings(parts: &Vec<String>, sep: &str) -> (r: String)
    ensures
        r@ == join_with(string_views(parts@), sep@),
{
    let mut r = String::new();
    let mut i: usize = 0;
    assert(string_views(parts@).take(0) =~= Seq::<Seq<char>>::empty());
    while i < parts.len()
        invariant
            i <= parts@.len(),
            r@ == join_with(string_views(parts@).take(i as int), sep@),
        decreases parts.len() - i,
    {
        if i > 0 {
            r.append(sep);
        }
        r.append(parts[i].as_str());
        i = i + 1;
        assert(string_views(parts@).take(i as int).drop_last() =~= string_views(parts@).take(i - 1));
        assert(r@ =~= join_with(string_views(parts@).take(i as int), sep@));
    }
    assert(string_views(parts@).take(i as int) =~= string_views(parts@));
    r
}

/// Appends one character to a string.
#[verifier::external_body]
pub(crate) fn push_char(s: &mut String, c: char)
    ensures
        final(s)@ == old(s)@.push(c),
{
    s.push(c)
}

/// Decimal digits of a natural number, most significant first.
pub open spec fn decimal(n: nat) -> Seq<char>
    decreases n,
{
    if n < 10 {
        seq![digit_char(n)]
    } else {
        decimal(n / 10).push(digit_char(n % 10))
    }
}

/// The decimal digit character of `d`.
pub open spec fn digit_char(d: nat) -> char {
    (('0' as u32) + d) as char
}

/// Writes the decimal representation of `n`.
pub fn decimal_string(n: usize) -> (s: Vec<char>)
    ensures
        s@ == decimal(n as nat),
    decreases n,
{
    if n < 10 {
        let c = digit(n);
        let mut v = Vec::new();
        v.push(c);
        v
    } else {
        let mut v = decimal_string(n / 10);
        v.push(digit(n % 10));
        v
    }
}

fn digit(d: usize) -> (c: char)
    requires
        d < 10,
    ensures
        c == digit_char(d as nat),
{
    if d == 0 { '0' } else if d == 1 { '1' } else if d == 2 { '2' } else if d == 3 { '3' }
    else if d == 4 { '4' } else if d == 5 { '5' } else if d == 6 { '6' } else if d == 7 { '7' }
    else if d == 8 { '8' } else { '9' }
}

/// Whether two string slices hold the same characters.
pub(crate) fn eq_str(a: &str, b: &str) -> (r: bool)
    ensures
        r == (a@ == b@),
{
    let x = chars_of(a);
    let y = chars_of(b);
    if x.len() != y.len() {
        return false;
    }
    let mut i: usize = 0;
    while i < x.len()
        invariant
            i <= x@.len(),
            x@ == a@,
            y@ == b@,
            x@.len() == y@.len(),
            forall|k: int| 0 <= k < i ==> x@[k] == y@[k],
        decreases x.len() - i,
    {
        if x[i] != y[i] {
            return false;
        }
        i = i + 1;
    }
    assert(x@ =~= y@);
    true
}

/// What std's `str::to_lowercase` gives: the lowercase mapping of Unicode.
pub uninterp spec fn lowercase(s: Seq<char>) -> Seq<char>;

/// std's `str::to_lowercase`; its result is named by `lowercase`.
#[verifier::external_body]
pub(crate) fn to_lowercase(s: &str) -> (r: String)
    ensures
        r@ == lowercase(s@),
{
    s.to_lowercase()
}

/// The number of bytes of a character in UTF-8.
pub open spec fn utf8_char_len(c: char) -> nat {
    if (c as u32) < 0x80 {
        1
    } else if (c as u32) < 0x800 {
        2
    } else if (c as u32) < 0x10000 {
        3
    } else {
        4
    }
}

/// The number of bytes of a character sequence in UTF-8.
pub open spec fn utf8_len(s: Seq<char>) -> nat
    decreases s.len(),
{
    if s.len() == 0 {
        0
    } else {
        utf8_len(s.drop_last()) + utf8_char_len(s.last())
    }
}

/// Whether byte offset `k` of the UTF-8 encoding of `s` falls between two characters.
pub open spec fn is_boundary(s: Seq<char>, k: int) -> bool {
    exists|i: int| 0 <= i <= s.len() && utf8_len(#[trigger] s.take(i)) == k
}

/// Whether a character is an ASCII decimal digit.
pub open spec fn is_digit(c: char) -> bool {
    '0' <= c <= '9'
}

/// The value of an ASCII hexadecimal digit of either case.
pub open spec fn hex_value(c: char) -> Option<nat> {
    if '0' <= c <= '9' {
        Some(((c as nat) - ('0' as nat)) as nat)
    } else if 'a' <= c <= 'f' {
        Some(((c as nat) - ('a' as nat) + 10) as nat)
    } else if 'A' <= c <= 'F' {
        Some(((c as nat) - ('A' as nat) + 10) as nat)
    } else {
        None
    }
}

/// The value of a hexadecimal digit, if `c` is one.
pub fn hex_digit(c: char) -> (d: Option<u8>)
    ensures
        d matches Some(v) ==> hex_value(c) == Some(v as nat),
        d is None ==> hex_value(c) is None,
{
    if '0' <= c && c <= '9' {
        Some(((c as u32) - ('0' as u32)) as u8)
    } else if 'a' <= c && c <= 'f' {
        Some(((c as u32) - ('a' as u32) + 10) as u8)
    } else if 'A' <= c && c <= 'F' {
        Some(((c as u32) - ('A' as u32) + 10) as u8)
    } else {
        None
    }
}

/// The value of a run of decimal digits.
pub open spec fn digits_value(s: Seq<char>) -> nat
    decreases s.len(),
{
    if s.len() == 0 {
        0
    } else {
        (digits_value(s.drop_last()) * 10 + ((s.last() as nat) - ('0' as nat))) as nat
    }
}

/// `s` without one leading `+`.
pub open spec fn strip_plus(s: Seq<char>) -> Seq<char> {
    if s.len() > 0 && s[0] == '+' { s.drop_first() } else { s }
}

/// Whether every character is a decimal digit.
pub open spec fn all_digits(d: Seq<char>) -> bool {
    forall|i: int| 0 <= i < d.len() ==> is_digit(#[trigger] d[i])
}

/// What std's `str::parse::<u8>` gives: an optional `+`, then one or more decimal digits
/// whose value fits in a byte.
pub open spec fn parse_u8_of(s: Seq<char>) -> Option<u8> {
    let d = strip_plus(s);
    if d.len() == 0 || !all_digits(d) || digits_value(d) > 255 {
        None
    } else {
        Some(digits_value(d) as u8)
    }
}

/// A run of digits is worth at least any of its prefixes.
pub proof fn lemma_digits_value_grows(s: Seq<char>, i: int)
    requires
        0 <= i <= s.len(),
        forall|j: int| 0 <= j < s.len() ==> is_digit(#[trigger] s[j]),
    ensures
        digits_value(s.take(i)) <= digits_value(s),
    decreases s.len() - i,
{
    if i < s.len() {
        lemma_digits_value_grows(s, i + 1);
        assert(s.take(i + 1).drop_last() =~= s.take(i));
    } else {
        assert(s.take(i) =~= s);
    }
}

/// Parses a byte written in decimal, as std's `str::parse::<u8>` does.
pub fn parse_u8(v: &[char]) -> (r: Option<u8>)
    ensures
        r == parse_u8_of(v@),
{
    let start: usize = if v.len() > 0 && v[0] == '+' { 1 } else { 0 };
    let ghost d = strip_plus(v@);
    assert(d =~= v@.subrange(start as int, v@.len() as int));
    if start >= v.len() {
        return None;
    }
    let mut value: u32 = 0;
    let mut i = start;
    while i < v.len()
        invariant
            start <= i <= v.len(),
            d =~= v@.subrange(start as int, v@.len() as int),
            d == strip_plus(v@),
            forall|j: int| start <= j < i ==> is_digit(#[trigger] v@[j]),
            value == digits_value(d.take(i - start)),
            value <= 255,
        decreases v.len() - i,
    {
        let c = v[i];
        if !('0' <= c && c <= '9') {
            assert(d[i - start] == c);
            assert(!all_digits(d));
            return None;
        }
        assert(d.take(i + 1 - start).drop_last() =~= d.take(i - start));
        value = value * 10 + ((c as u32) - ('0' as u32));
        if value > 255 {
            proof {
                if all_digits(d) {
                    lemma_digits_value_grows(d, i + 1 - start);
                }
            }
            return None;
        }
        i = i + 1;
    }
    assert(d.take(i - start) =~= d);
    Some(value as u8)
}

/// Appends the decimal representation of `n` to `s`.
pub fn append_decimal(s: &mut String, n: usize)
    ensures
        final(s)@ == old(s)@ + decimal(n as nat),
{
    let digits = decimal_string(n);
    let d = string_of(digits.as_slice());
    s.append(d.as_str());
}

/// Whether a character has Unicode's White_Space property (std's `char::is_whitespace`).
pub open spec fn is_ws(c: char) -> bool {
    ('\t' <= c <= '\r') || c == ' ' || c == '\u{85}' || c == '\u{a0}' || c == '\u{1680}'
        || ('\u{2000}' <= c <= '\u{200a}') || c == '\u{2028}' || c == '\u{2029}' || c == '\u{202f}'
        || c == '\u{205f}' || c == '\u{3000}'
}

/// Whether a character is white space, as `is_ws` says.
pub fn is_ws_char(c: char) -> (b: bool)
    ensures
        b == is_ws(c),
{
    ('\t' <= c && c <= '\r') || c == ' ' || c == '\u{85}' || c == '\u{a0}' || c == '\u{1680}' || (
    '\u{2000}' <= c && c <= '\u{200a}') || c == '\u{2028}' || c == '\u{2029}' || c == '\u{202f}'
        || c == '\u{205f}' || c == '\u{3000}'
}

/// A text without its trailing white space (std's `str::trim_end`).
pub open spec fn trim_end_ws(s: Seq<char>) -> Seq<char>
    decreases s.len(),
{
    if s.len() > 0 && is_ws(s.last()) {
        trim_end_ws(s.drop_last())
    } else {
        s
    }
}

/// A text without its leading white space (std's `str::trim_start`).
pub open spec fn trim_start_ws(s: Seq<char>) -> Seq<char>
    decreases s.len(),
{
    if s.len() > 0 && is_ws(s[0]) {
        trim_start_ws(s.drop_first())
    } else {
        s
    }
}

/// A text without white space at either end (std's `str::trim`).
pub open spec fn trim_ws(s: Seq<char>) -> Seq<char> {
    trim_start_ws(trim_end_ws(s))
}

/// Removes trailing white space.
pub fn trim_end_str(s: &str) -> (r: String)
    ensures
        r@ == trim_end_ws(s@),
{
    let v = chars_of(s);
    let mut n = v.len();
    assert(v@.take(n as int) =~= v@);
    while n > 0 && is_ws_char(v[n - 1])
        invariant
            n <= v@.len(),
            v@ == s@,
            trim_end_ws(s@) == trim_end_ws(v@.take(n as int)),
        decreases n,
    {
        assert(v@.take(n as int).drop_last() =~= v@.take(n - 1));
        n = n - 1;
    }
    string_of_range(v.as_slice(), 0, n)
}

/// Removes leading white space.
pub fn trim_start_str(s: &str) -> (r: String)
    ensures
        r@ == trim_start_ws(s@),
{
    let v = chars_of(s);
    let mut n: usize = 0;
    assert(v@.subrange(0, v@.len() as int) =~= v@);
    while n < v.len() && is_ws_char(v[n])
        invariant
            n <= v@.len(),
            v@ == s@,
            trim_start_ws(s@) == trim_start_ws(v@.subrange(n as int, v@.len() as int)),
        decreases v.len() - n,
    {
        assert(v@.subrange(n as int, v@.len() as int).drop_first() =~= v@.subrange(n + 1, v@.len() as int));
        n = n + 1;
    }
    string_of_range(v.as_slice(), n, v.len())
}

/// Removes white space at both ends.
pub fn trim_str(s: &str) -> (r: String)
    ensures
        r@ == trim_ws(s@),
{
    let t = trim_end_str(s);
    trim_start_str(t.as_str())
}

/// A line without one trailing carriage return.
pub open spec fn strip_cr(l: Seq<char>) -> Seq<char> {
    if l.len() > 0 && l.last() == '\r' { l.drop_last() } else { l }
}

/// The lines of `s` from index `i` on, `cur` being the line read so far and `acc` the lines
/// before it: a line feed, or a carriage return and line feed, ends a line; a final line feed
/// starts no new line.
pub open spec fn lines_from(s: Seq<char>, i: int, cur: Seq<char>, acc: Seq<Seq<char>>) -> Seq<Seq<char>>
    decreases s.len() - i,
{
    if i < 0 || i >= s.len() {
        if cur.len() > 0 { acc.push(cur) } else { acc }
    } else if s[i] == '\n' {
        lines_from(s, i + 1, Seq::empty(), acc.push(strip_cr(cur)))
    } else {
        lines_from(s, i + 1, cur.push(s[i]), acc)
    }
}

/// The lines of a text (std's `str::lines`).
pub open spec fn lines_of(s: Seq<char>) -> Seq<Seq<char>> {
    lines_from(s, 0, Seq::empty(), Seq::empty())
}

/// Splits a text into its lines, as std's `str::lines` does.
pub fn split_lines(s: &str) -> (r: Vec<String>)
    ensures
        string_views(r@) == lines_of(s@),
{
    let v = chars_of(s);
    let mut acc: Vec<String> = Vec::new();
    let mut cur: Vec<char> = Vec::new();
    let mut i: usize = 0;
    assert(string_views(acc@) =~= Seq::<Seq<char>>::empty());
    while i < v.len()
        invariant
            i <= v@.len(),
            v@ == s@,
            lines_of(s@) == lines_from(s@, i as int, cur@, string_views(acc@)),
        decreases v.len() - i,
    {
        if v[i] == '\n' {
            let n = cur.len();
            let line = if n > 0 && cur[n - 1] == '\r' {
                string_of_range(cur.as_slice(), 0, n - 1)
            } else {
                string_of(cur.as_slice())
            };
            proof {
                if n > 0 && cur@[n - 1] == '\r' {
                    assert(cur@.subrange(0, n - 1) =~= cur@.drop_last());
                }
            }
            let ghost old_acc = string_views(acc@);
            acc.push(line);
            assert(string_views(acc@) =~= old_acc.push(strip_cr(cur@)));
            cur = Vec::new();
        } else {
            cur.push(v[i]);
        }
        i = i + 1;
    }
    if cur.len() > 0 {
        let ghost old_acc = string_views(acc@);
        acc.push(string_of(cur.as_slice()));
        assert(string_views(acc@) =~= old_acc.push(cur@));
    }
    acc
}

/// The first run of non-white-space characters from index `i` on, `i` being inside it
/// once `started`.
pub open spec fn first_word_from(s: Seq<char>, i: int, started: bool, acc: Seq<char>) -> Seq<char>
    decreases s.len() - i,
{
    if i < 0 || i >= s.len() {
        acc
    } else if is_ws(s[i]) {
        if started { acc } else { first_word_from(s, i + 1, false, acc) }
    } else {
        first_word_from(s, i + 1, true, acc.push(s[i]))
    }
}

/// The first white-space-separated word of a text, or nothing
/// (`split_whitespace().next().unwrap_or("")`).
pub open spec fn first_word(s: Seq<char>) -> Seq<char> {
    first_word_from(s, 0, false, Seq::empty())
}

/// The first white-space-separated word of a text, as `first_word` says.
pub fn first_word_str(s: &str) -> (r: String)
    ensures
        r@ == first_word(s@),
{
    let v = chars_of(s);
    let mut acc = String::new();
    let mut started = false;
    let mut i: usize = 0;
    while i < v.len()
        invariant
            i <= v@.len(),
            v@ == s@,
            first_word(s@) == first_word_from(s@, i as int, started, acc@),
        decreases v.len() - i,
    {
        let c = v[i];
        if is_ws_char(c) {
            if started {
                return acc;
            }
        } else {
            push_char(&mut acc, c);
            started = true;
        }
        i = i + 1;
    }
    acc
}

/// The UTF-8 length of a concatenation is the sum of the lengths.
pub proof fn lemma_utf8_len_concat(a: Seq<char>, b: Seq<char>)
    ensures
        utf8_len(a + b) == utf8_len(a) + utf8_len(b),
    decreases b.len(),
{
    if b.len() > 0 {
        lemma_utf8_len_concat(a, b.drop_last());
        assert((a + b).drop_last() =~= a + b.drop_last());
    } else {
        assert(a + b =~= a);
    }
}

/// Trimming trailing white space leaves nothing, or a text that ends in other than white space.
pub proof fn lemma_trim_end_ws_last(s: Seq<char>)
    ensures
        trim_end_ws(s).len() == 0 || !is_ws(trim_end_ws(s).last()),
        trim_end_ws(s).len() <= s.len(),
    decreases s.len(),
{
    if s.len() > 0 && is_ws(s.last()) {
        lemma_trim_end_ws_last(s.drop_last());
    }
}

/// A number written in decimal reads back as that number, in digits only.
pub proof fn lemma_decimal_reads_back(n: nat)
    ensures
        all_digits(decimal(n)),
        digits_value(decimal(n)) == n,
        decimal(n).len() > 0,
    decreases n,
{
    if n < 10 {
        assert(digits_value(decimal(n).drop_last()) == 0) by {
            assert(decimal(n).drop_last() =~= Seq::<char>::empty());
        }
    } else {
        lemma_decimal_reads_back(n / 10);
        let d = decimal(n / 10);
        assert(decimal(n).drop_last() =~= d);
        assert forall|i: int| 0 <= i < decimal(n).len() implies is_digit(#[trigger] decimal(n)[i]) by {
            if i < d.len() {
                assert(decimal(n)[i] == d[i]);
            }
        }
        assert(n == (n / 10) * 10 + n % 10);
    }
}

/// Lines written one after the other, each followed by a line feed.
pub open spec fn text_of_lines(ls: Seq<Seq<char>>) -> Seq<char>
    decreases ls.len(),
{
    if ls.len() == 0 {
        Seq::empty()
    } else {
        text_of_lines(ls.drop_last()) + ls.last() + seq!['\n']
    }
}

/// Whether a text can be a line: it holds no line feed and does not end in a carriage return.
pub open spec fn is_line(l: Seq<char>) -> bool {
    (forall|k: int| 0 <= k < l.len() ==> #[trigger] l[k] != '\n') && !(l.len() > 0 && l.last() == '\r')
}

proof fn lemma_lines_from_shift(a: Seq<char>, b: Seq<char>, k: int, cur: Seq<char>, acc: Seq<Seq<char>>)
    requires
        0 <= k <= b.len(),
    ensures
        lines_from(a + b, a.len() + k, cur, acc) == lines_from(b, k, cur, acc),
    decreases b.len() - k,
{
    if k < b.len() {
        assert((a + b)[a.len() + k] == b[k]);
        if b[k] == '\n' {
            lemma_lines_from_shift(a, b, k + 1, Seq::empty(), acc.push(strip_cr(cur)));
        } else {
            lemma_lines_from_shift(a, b, k + 1, cur.push(b[k]), acc);
        }
    }
}

proof fn lemma_lines_from_split(a: Seq<char>, b: Seq<char>, i: int, cur: Seq<char>, acc: Seq<Seq<char>>)
    requires
        a.len() > 0,
        a.last() == '\n',
        0 <= i <= a.len(),
        i == a.len() ==> cur.len() == 0,
    ensures
        lines_from(a + b, i, cur, acc) == lines_from(b, 0, Seq::empty(), lines_from(a, i, cur, acc)),
    decreases a.len() - i,
{
    if i < a.len() {
        assert((a + b)[i] == a[i]);
        if a[i] == '\n' {
            lemma_lines_from_split(a, b, i + 1, Seq::empty(), acc.push(strip_cr(cur)));
        } else {
            lemma_lines_from_split(a, b, i + 1, cur.push(a[i]), acc);
        }
    } else {
        lemma_lines_from_shift(a, b, 0, cur, acc);
        assert(cur =~= Seq::<char>::empty());
    }
}

proof fn lemma_lines_from_one(l: Seq<char>, i: int, acc: Seq<Seq<char>>)
    requires
        is_line(l),
        0 <= i <= l.len(),
    ensures
        lines_from(l + seq!['\n'], i, l.take(i), acc) == acc.push(l),
    decreases l.len() - i,
{
    let s = l + seq!['\n'];
    if i < l.len() {
        assert(s[i] == l[i]);
        assert(l.take(i).push(l[i]) =~= l.take(i + 1));
        lemma_lines_from_one(l, i + 1, acc);
    } else {
        assert(s[i] == '\n');
        assert(l.take(i) =~= l);
        assert(strip_cr(l) == l);
        assert(lines_from(s, i + 1, Seq::empty(), acc.push(l)) == acc.push(l));
    }
}

/// Reading lines back: text made of lines, each followed by a line feed, splits into exactly
/// those lines, where none holds a line feed or ends in a carriage return.
pub proof fn lemma_lines_round_trip(ls: Seq<Seq<char>>)
    requires
        forall|k: int| 0 <= k < ls.len() ==> is_line(#[trigger] ls[k]),
    ensures
        lines_of(text_of_lines(ls)) == ls,
    decreases ls.len(),
{
    if ls.len() > 0 {
        let init = ls.drop_last();
        let l = ls.last();
        assert(is_line(ls[ls.len() - 1]));
        assert(forall|k: int| 0 <= k < init.len() ==> is_line(#[trigger] init[k])) by {
            assert forall|k: int| 0 <= k < init.len() implies is_line(#[trigger] init[k]) by {
                assert(init[k] == ls[k]);
            }
        }
        lemma_lines_round_trip(init);
        let a = text_of_lines(init);
        let b = l + seq!['\n'];
        assert(text_of_lines(ls) =~= a + b);
        assert(l.take(0) =~= Seq::<char>::empty());
        if init.len() == 0 {
            assert(a =~= Seq::<char>::empty());
            assert(a + b =~= b);
            lemma_lines_from_one(l, 0, Seq::empty());
            assert(Seq::<Seq<char>>::empty().push(l) =~= ls);
        } else {
            assert(a == text_of_lines(init.drop_last()) + init.last() + seq!['\n']);
            assert(a.last() == '\n');
            lemma_lines_from_split(a, b, 0, Seq::empty(), Seq::empty());
            lemma_lines_from_one(l, 0, init);
            assert(init.push(l) =~= ls);
        }
    }
}

/// Trimming the start drops exactly the leading white space: what is left is the text from the
/// first character that is not white space.
pub proof fn lemma_trim_start_drops_leading_ws(s: Seq<char>)
    ensures
        exists|k: int|
            #![trigger s.skip(k)]
            0 <= k <= s.len() && trim_start_ws(s) == s.skip(k) && (forall|j: int| 0 <= j < k ==> is_ws(#[trigger] s[j]))
                && (k < s.len() ==> !is_ws(s[k])),
    decreases s.len(),
{
    if s.len() > 0 && is_ws(s[0]) {
        lemma_trim_start_drops_leading_ws(s.drop_first());
        let t = s.drop_first();
        let k = choose|k: int|
            #![trigger t.skip(k)]
            0 <= k <= t.len() && trim_start_ws(t) == t.skip(k) && (forall|j: int| 0 <= j < k ==> is_ws(#[trigger] t[j]))
                && (k < t.len() ==> !is_ws(t[k]));
        assert(t.skip(k) =~= s.skip(k + 1));
        assert forall|j: int| 0 <= j < k + 1 implies is_ws(#[trigger] s[j]) by {
            if j > 0 {
                assert(s[j] == t[j - 1]);
            }
        }
        if k < t.len() {
            assert(s[k + 1] == t[k]);
        }
    } else {
        assert(s.skip(0) =~= s);
    }
}

/// Trimming the end drops exactly the trailing white space: what is left is the text up to the
/// last character that is not white space.
pub proof fn lemma_trim_end_drops_trailing_ws(s: Seq<char>)
    ensures
        exists|k: int|
            #![trigger s.take(k)]
            0 <= k <= s.len() && trim_end_ws(s) == s.take(k) && (forall|j: int| k <= j < s.len() ==> is_ws(
                #[trigger] s[j],
            )) && (k > 0 ==> !is_ws(s[k - 1])),
    decreases s.len(),
{
    if s.len() > 0 && is_ws(s.last()) {
        lemma_trim_end_drops_trailing_ws(s.drop_last());
        let t = s.drop_last();
        let k = choose|k: int|
            #![trigger t.take(k)]
            0 <= k <= t.len() && trim_end_ws(t) == t.take(k) && (forall|j: int| k <= j < t.len() ==> is_ws(
                #[trigger] t[j],
            )) && (k > 0 ==> !is_ws(t[k - 1]));
        assert(t.take(k) =~= s.take(k));
        assert forall|j: int| k <= j < s.len() implies is_ws(#[trigger] s[j]) by {
            if j < s.len() - 1 {
                assert(s[j] == t[j]);
            }
        }
        if k > 0 {
            assert(s[k - 1] == t[k - 1]);
        }
    } else {
        assert(s.take(s.len() as int) =~= s);
    }
}

proof fn lemma_first_word_run(s: Seq<char>, w: Seq<char>, i: int, j: int)
    requires
        0 <= i <= j <= i + w.len() <= s.len(),
        forall|k: int| 0 <= k < w.len() ==> s[i + k] == w[k] && !is_ws(#[trigger] w[k]),
        i + w.len() == s.len() || is_ws(s[i + w.len()]),
        w.len() > 0,
        j > i,
    ensures
        first_word_from(s, j, true, w.take(j - i)) == w,
    decreases i + w.len() - j,
{
    if j < i + w.len() {
        assert(s[j] == w[j - i]);
        assert(w.take(j - i).push(s[j]) =~= w.take(j - i + 1));
        lemma_first_word_run(s, w, i, j + 1);
    } else {
        assert(w.take(j - i) =~= w);
    }
}

proof fn lemma_first_word_skip(s: Seq<char>, w: Seq<char>, i: int, j: int)
    requires
        0 <= j <= i,
        i + w.len() <= s.len(),
        forall|k: int| j <= k < i ==> is_ws(#[trigger] s[k]),
        forall|k: int| 0 <= k < w.len() ==> s[i + k] == w[k] && !is_ws(#[trigger] w[k]),
        i + w.len() == s.len() || is_ws(s[i + w.len()]),
        w.len() > 0,
    ensures
        first_word_from(s, j, false, Seq::empty()) == w,
    decreases i - j,
{
    if j < i {
        lemma_first_word_skip(s, w, i, j + 1);
    } else {
        assert(s[i] == w[0]);
        assert(Seq::<char>::empty().push(s[i]) =~= w.take(1));
        lemma_first_word_run(s, w, i, i + 1);
    }
}

/// The first word of a text is the first run of characters that are not white space.
pub proof fn lemma_first_word(lead: Seq<char>, w: Seq<char>, rest: Seq<char>)
    requires
        forall|k: int| 0 <= k < lead.len() ==> is_ws(#[trigger] lead[k]),
        w.len() > 0,
        forall|k: int| 0 <= k < w.len() ==> !is_ws(#[trigger] w[k]),
        rest.len() == 0 || is_ws(rest[0]),
    ensures
        first_word(lead + w + rest) == w,
{
    let s = lead + w + rest;
    assert forall|k: int| 0 <= k < lead.len() implies is_ws(#[trigger] s[k]) by {
        assert(s[k] == lead[k]);
    }
    assert forall|k: int| 0 <= k < w.len() implies s[lead.len() + k] == w[k] && !is_ws(#[trigger] w[k]) by {
        assert(s[lead.len() + k] == w[k]);
    }
    if rest.len() > 0 {
        assert(s[(lead.len() + w.len()) as int] == rest[0]);
    }
    lemma_first_word_skip(s, w, lead.len() as int, 0);
}

} // verus!
