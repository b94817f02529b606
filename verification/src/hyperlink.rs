//! OSC-8 terminal hyperlinks.

use vstd::prelude::*;
use crate::text::{chars_of, eq_str};

verus! {

/// The escape sequence that opens an OSC-8 hyperlink to `url`.
pub open spec fn osc8_open(url: Seq<char>) -> Seq<char> {
    "\x1b]8;;"@ + url + "\x1b\\"@
}

/// The escape sequence that closes an OSC-8 hyperlink.
pub open spec fn osc8_close() -> Seq<char> {
    "\x1b]8;;\x1b\\"@
}

/// A hyperlink as the terminal is sent it: an OSC-8 link where supported, otherwise the text
/// followed by the URL in parentheses unless the two are the same.
pub open spec fn render_hyperlink_of(text: Seq<char>, url: Seq<char>, supported: bool) -> Seq<char> {
    if supported {
        osc8_open(url) + text + osc8_close()
    } else if text == url {
        text
    } else {
        text + " ("@ + url + ")"@
    }
}

/// `url` without a leading `mailto:`.
pub open spec fn strip_mailto(url: Seq<char>) -> Seq<char> {
    if url.len() >= 7 && url.take(7) == "mailto:"@ { url.skip(7) } else { url }
}

/// Whether a link shows its own address as its text.
pub open spec fn is_autolink_of(text: Seq<char>, url: Seq<char>) -> bool {
    text == url || text == strip_mailto(url)
}

/// Render an OSC-8 terminal hyperlink.
///
/// Format: `ESC ] 8 ; params ; uri ST text ESC ] 8 ; ; ST`
/// Where ST (String Terminator) can be `ESC \` or `BEL (\x07)`.
///
/// Falls back to `text (url)` if the terminal doesn't support hyperlinks.
pub fn render_hyperlink(text: &str, url: &str, supports_hyperlinks: bool) -> (r: String)
    ensures
        r@ == render_hyperlink_of(text@, url@, supports_hyperlinks),
{
    if supports_hyperlinks {
        let mut r = String::new();
        r.append("\x1b]8;;");
        r.append(url);
        r.append("\x1b\\");
        r.append(text);
        r.append("\x1b]8;;\x1b\\");
        assert(r@ =~= render_hyperlink_of(text@, url@, supports_hyperlinks));
        r
    } else if eq_str(text, url) {
        text.to_owned()
    } else {
        let mut r = text.to_owned();
        r.append(" (");
        r.append(url);
        r.append(")");
        assert(r@ =~= render_hyperlink_of(text@, url@, supports_hyperlinks));
        r
    }
}

/// Detect if a URL is an autolink (standalone URL with no custom text).
pub fn is_autolink(text: &str, url: &str) -> (b: bool)
    ensures
        b == is_autolink_of(text@, url@),
{
    if eq_str(text, url) {
        return true;
    }
    let t = chars_of(text);
    let u = chars_of(url);
    let prefix = chars_of("mailto:");
    proof {
        reveal_strlit("mailto:");
    }
    assert(prefix@.len() == 7);
    if u.len() < 7 {
        assert(strip_mailto(url@) == url@);
        return false;
    }
    let mut i: usize = 0;
    while i < 7
        invariant
            i <= 7 <= u@.len(),
            prefix@ == "mailto:"@,
            prefix@.len() == 7,
            text@ != url@,
            u@ == url@,
            forall|j: int| 0 <= j < i ==> u@[j] == prefix@[j],
        decreases 7 - i,
    {
        if u[i] != prefix[i] {
            assert(u@.take(7)[i as int] != "mailto:"@[i as int]);
            assert(strip_mailto(url@) == url@);
            return false;
        }
        i = i + 1;
    }
    assert(u@.take(7) =~= "mailto:"@);
    if t.len() != u.len() - 7 {
        assert(text@ != url@);
        assert(t@.len() != url@.skip(7).len());
        return false;
    }
    let mut k: usize = 0;
    while k < t.len()
        invariant
            k <= t@.len(),
            t@.len() + 7 == u@.len(),
            u@.len() == u.len(),
            t@ == text@,
            u@ == url@,
            forall|j: int| 0 <= j < k ==> t@[j] == u@[j + 7],
        decreases t.len() - k,
    {
        if t[k] != u[k + 7] {
            assert(t@[k as int] != url@.skip(7)[k as int]);
            return false;
        }
        k = k + 1;
    }
    assert(t@ =~= url@.skip(7));
    true
}

/// An OSC-8 hyperlink is `ESC ] 8 ; ; url ESC \`, the text, then `ESC ] 8 ; ; ESC \`; where the
/// terminal takes none, the text is followed by a space and the address in parentheses, unless
/// the two are the same.
pub proof fn lemma_hyperlink_forms(text: Seq<char>, url: Seq<char>)
    ensures
        render_hyperlink_of(text, url, true) == seq!['\x1b', ']', '8', ';', ';'] + url + seq!['\x1b', '\\'] + text
            + seq!['\x1b', ']', '8', ';', ';', '\x1b', '\\'],
        text != url ==> render_hyperlink_of(text, url, false) == text + seq![' ', '('] + url + seq![')'],
        render_hyperlink_of(url, url, false) == url,
{
    reveal_strlit("\x1b]8;;");
    reveal_strlit("\x1b\\");
    reveal_strlit("\x1b]8;;\x1b\\");
    reveal_strlit(" (");
    reveal_strlit(")");
    assert("\x1b]8;;"@ =~= seq!['\x1b', ']', '8', ';', ';']);
    assert("\x1b\\"@ =~= seq!['\x1b', '\\']);
    assert("\x1b]8;;\x1b\\"@ =~= seq!['\x1b', ']', '8', ';', ';', '\x1b', '\\']);
    assert(" ("@ =~= seq![' ', '(']);
    assert(")"@ =~= seq![')']);
}

/// A link's text is its own address when it equals the address, or the address without a
/// leading `mailto:`.
pub proof fn lemma_autolink_rule(text: Seq<char>, addr: Seq<char>)
    ensures
        is_autolink_of(addr, addr),
        is_autolink_of(addr, seq!['m', 'a', 'i', 'l', 't', 'o', ':'] + addr),
        text != addr && !(addr.len() >= 7 && addr.take(7) == seq!['m', 'a', 'i', 'l', 't', 'o', ':'] && text
            == addr.skip(7)) ==> !is_autolink_of(text, addr),
{
    reveal_strlit("mailto:");
    assert("mailto:"@ =~= seq!['m', 'a', 'i', 'l', 't', 'o', ':']);
    let m = seq!['m', 'a', 'i', 'l', 't', 'o', ':'] + addr;
    assert(m.take(7) =~= "mailto:"@);
    assert(m.skip(7) =~= addr);
}

} // verus!
