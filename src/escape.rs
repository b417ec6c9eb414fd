//! Escaping for HTML text and attribute values, and percent-encoding for URLs
//! placed in `href` and `src` attributes.
use vstd::prelude::*;
use vstd::utf8::encode_utf8;

use crate::text::{hex_char, hex_digit, is_upper_hex_digit};

verus! {

// ---------------------------------------------------------------------------
// HTML text
// ---------------------------------------------------------------------------

/// The five characters that HTML escaping replaces.
pub open spec fn is_html_special(c: char) -> bool {
    c == '&' || c == '<' || c == '>' || c == '"' || c == '\''
}

/// What stands for `c` in element content or in a double-quoted attribute value.
pub open spec fn html_escape_char(c: char) -> Seq<char> {
    if c == '&' {
        seq!['&', 'a', 'm', 'p', ';']
    } else if c == '<' {
        seq!['&', 'l', 't', ';']
    } else if c == '>' {
        seq!['&', 'g', 't', ';']
    } else if c == '"' {
        seq!['&', 'q', 'u', 'o', 't', ';']
    } else if c == '\'' {
        seq!['&', '#', 'x', '2', '7', ';']
    } else {
        seq![c]
    }
}

/// `s` with each character replaced by its HTML escape.
pub open spec fn html_escaped(s: Seq<char>) -> Seq<char>
    decreases s.len(),
{
    if s.len() == 0 {
        seq![]
    } else {
        html_escaped(s.drop_last()) + html_escape_char(s.last())
    }
}

/// Appends `text`, HTML-escaped, to `w`.
pub fn push_html_escaped(w: &mut String, text: &str)
    ensures
        final(w)@ == old(w)@ + html_escaped(text@),
{
    let ghost w0 = w@;
    for c in it: text.chars()
        invariant
            it.seq() == text@,
            w@ == w0 + html_escaped(text@.take(it.index() as int)),
    {
        let ghost i = it.index() as int;
        assert(text@.take(i + 1).drop_last() =~= text@.take(i));
        assert(text@.take(i + 1).last() == c);
        proof {
            reveal_strlit("&amp;");
            reveal_strlit("&lt;");
            reveal_strlit("&gt;");
            reveal_strlit("&quot;");
            reveal_strlit("&#x27;");
        }
        if c == '&' {
            w.append("&amp;");
        } else if c == '<' {
            w.append("&lt;");
        } else if c == '>' {
            w.append("&gt;");
        } else if c == '"' {
            w.append("&quot;");
        } else if c == '\'' {
            w.append("&#x27;");
        } else {
            w.push(c);
        }
        assert(w@ =~= w0 + html_escaped(text@.take(i + 1)));
    }
    assert(text@.take(text@.len() as int) =~= text@);
}

// ---------------------------------------------------------------------------
// URLs
// ---------------------------------------------------------------------------

/// The non-ASCII characters that a URL fragment may hold literally.
pub open spec fn is_allowed_unicode(c: char) -> bool {
    let v = c as u32;
    ||| 0xA0 <= v <= 0xD7FF
    ||| 0xE000 <= v <= 0xFDCF
    ||| 0xFDF0 <= v <= 0xFFFD
    ||| 0x10000 <= v <= 0x10FFFF && v % 0x10000 <= 0xFFFD
}

/// The printable ASCII characters, and DEL, that are percent-encoded.
pub open spec fn is_disallowed_ascii(c: char) -> bool {
    ||| c == '"'
    ||| c == '%'
    ||| c == '<'
    ||| c == '>'
    ||| c == '['
    ||| c == '\\'
    ||| c == ']'
    ||| c == '^'
    ||| c == '`'
    ||| c == '{'
    ||| c == '|'
    ||| c == '}'
    ||| c == '\x7F'
}

/// Whether `c` is written percent-encoded rather than literally.
pub open spec fn needs_percent_encoding(c: char) -> bool {
    if (c as u32) < 0x21 {
        true
    } else if (c as u32) <= 0x7F {
        is_disallowed_ascii(c)
    } else {
        !is_allowed_unicode(c)
    }
}

/// Each byte as `%` followed by two uppercase hexadecimal digits.
pub open spec fn percent_encoded_bytes(bytes: Seq<u8>) -> Seq<char>
    decreases bytes.len(),
{
    if bytes.len() == 0 {
        seq![]
    } else {
        let b = bytes.last();
        percent_encoded_bytes(bytes.drop_last()) + seq!['%', hex_digit(b / 16), hex_digit(b % 16)]
    }
}

/// The percent-encoding of the UTF-8 bytes of `c`.
pub open spec fn percent_encoded(c: char) -> Seq<char> {
    percent_encoded_bytes(encode_utf8(seq![c]))
}

/// What stands for `c` in an `href` or `src` attribute value.
pub open spec fn href_escape_char(c: char) -> Seq<char> {
    if needs_percent_encoding(c) {
        percent_encoded(c)
    } else {
        seq![c]
    }
}

/// `s` with each character replaced by its URL escape.
pub open spec fn href_escaped(s: Seq<char>) -> Seq<char>
    decreases s.len(),
{
    if s.len() == 0 {
        seq![]
    } else {
        href_escaped(s.drop_last()) + href_escape_char(s.last())
    }
}

fn char_to_string(c: char) -> (s: String)
    ensures
        s@ == seq![c],
{
    let mut s = String::new();
    s.push(c);
    assert(s@ =~= seq![c]);
    s
}

fn percent_encode(c: char) -> (s: String)
    ensures
        s@ == percent_encoded(c),
{
    let mut s = String::new();
    let single = char_to_string(c);
    let bytes = single.as_str().as_bytes();
    let ghost all = encode_utf8(seq![c]);
    for i in 0..bytes.len()
        invariant
            bytes@ == all,
            s@ == percent_encoded_bytes(all.take(i as int)),
    {
        let b = bytes[i];
        s.push('%');
        s.push(hex_char(b / 16));
        s.push(hex_char(b % 16));
        assert(all.take(i + 1).drop_last() =~= all.take(i as int));
        assert(s@ =~= percent_encoded_bytes(all.take(i + 1)));
    }
    assert(all.take(bytes@.len() as int) =~= all);
    s
}

fn needs_escape(c: char) -> (r: bool)
    ensures
        r == needs_percent_encoding(c),
{
    let v = c as u32;
    if v < 0x21 {
        // Control characters and space
        true
    } else if v <= 0x7F {
        match c {
            '"' | '%' | '<' | '>' | '[' | '\\' => true,
            ']' | '^' | '`' | '{' | '|' | '}' | '\x7F' => true,
            _ => false,
        }
    } else {
        let allowed = (0xA0 <= v && v <= 0xD7FF) || (0xE000 <= v && v <= 0xFDCF) || (0xFDF0 <= v
            && v <= 0xFFFD) || (0x10000 <= v && v <= 0x10FFFF && v % 0x10000 <= 0xFFFD);
        !allowed
    }
}

/// The text that stands for `c` in a URL fragment (WHATWG fragment percent-encode set).
pub fn escape_char(c: char) -> (s: String)
    ensures
        s@ == href_escape_char(c),
{
    if needs_escape(c) {
        percent_encode(c)
    } else {
        char_to_string(c)
    }
}

/// A string that URL text is written to, percent-encoded for an `href` or
/// `src` attribute value.
pub struct HrefEscaper {
    inner: String,
}

impl View for HrefEscaper {
    type V = Seq<char>;

    closed spec fn view(&self) -> Seq<char> {
        self.inner@
    }
}

impl HrefEscaper {
    /// Writes on after the text that `inner` already holds.
    pub fn new(inner: String) -> (e: HrefEscaper)
        ensures
            e@ == inner@,
    {
        HrefEscaper { inner: inner }
    }

    pub fn write_char(&mut self, c: char)
        ensures
            final(self)@ == old(self)@ + href_escape_char(c),
    {
        let s = escape_char(c);
        self.inner.append(s.as_str());
    }

    pub fn write_str(&mut self, s: &str)
        ensures
            final(self)@ == old(self)@ + href_escaped(s@),
    {
        let ghost w0 = self@;
        for c in it: s.chars()
            invariant
                it.seq() == s@,
                self@ == w0 + href_escaped(s@.take(it.index() as int)),
        {
            let ghost i = it.index() as int;
            assert(s@.take(i + 1).drop_last() =~= s@.take(i));
            self.write_char(c);
            assert(self@ =~= w0 + href_escaped(s@.take(i + 1)));
        }
        assert(s@.take(s@.len() as int) =~= s@);
    }

    /// The text written so far.
    pub fn into_inner(self) -> (s: String)
        ensures
            s@ == self@,
    {
        self.inner
    }
}

/// Appends `url`, percent-encoded, to `w`.
pub fn push_href_escaped(w: &mut String, url: &str)
    ensures
        final(w)@ == old(w)@ + href_escaped(url@),
{
    let mut e = HrefEscaper::new(String::new());
    e.write_str(url);
    let s = e.into_inner();
    assert(s@ =~= seq![] + href_escaped(url@));
    w.append(s.as_str());
}


// ---------------------------------------------------------------------------
// What the escapers guarantee
// ---------------------------------------------------------------------------

/// `w` occurs in `s` starting at index `i`.
pub open spec fn occurs_at(s: Seq<char>, i: int, w: Seq<char>) -> bool {
    0 <= i && i + w.len() <= s.len() && s.subrange(i, i + w.len()) == w
}

/// One of the five entities that HTML escaping writes starts at index `i`.
pub open spec fn opens_entity_at(s: Seq<char>, i: int) -> bool {
    ||| occurs_at(s, i, html_escape_char('&'))
    ||| occurs_at(s, i, html_escape_char('<'))
    ||| occurs_at(s, i, html_escape_char('>'))
    ||| occurs_at(s, i, html_escape_char('"'))
    ||| occurs_at(s, i, html_escape_char('\''))
}

/// Text that is safe in element content and in a double-quoted attribute value:
/// no `<`, `>`, `"` or `'`, and each `&` opens an entity.
pub open spec fn html_safe(s: Seq<char>) -> bool {
    forall|i: int|
        0 <= i < s.len() ==> {
            &&& #[trigger] s[i] != '<'
            &&& s[i] != '>'
            &&& s[i] != '"'
            &&& s[i] != '\''
            &&& s[i] == '&' ==> opens_entity_at(s, i)
        }
}

pub open spec fn has_html_special(s: Seq<char>) -> bool {
    exists|i: int| 0 <= i < s.len() && is_html_special(#[trigger] s[i])
}

proof fn lemma_occurs_in_concat(a: Seq<char>, b: Seq<char>, i: int, w: Seq<char>)
    ensures
        occurs_at(a, i, w) ==> occurs_at(a + b, i, w),
        occurs_at(b, i, w) ==> occurs_at(a + b, a.len() + i, w),
{
    if occurs_at(a, i, w) {
        assert((a + b).subrange(i, i + w.len()) =~= a.subrange(i, i + w.len()));
    }
    if occurs_at(b, i, w) {
        assert((a + b).subrange(a.len() + i, a.len() + i + w.len()) =~= b.subrange(i, i + w.len()));
    }
}

proof fn lemma_html_safe_concat(a: Seq<char>, b: Seq<char>)
    requires
        html_safe(a),
        html_safe(b),
    ensures
        html_safe(a + b),
{
    let s = a + b;
    assert forall|i: int| 0 <= i < s.len() && #[trigger] s[i] == '&' implies opens_entity_at(s, i) by {
        if i < a.len() {
            assert(a[i] == '&');
            lemma_occurs_in_concat(a, b, i, html_escape_char('&'));
            lemma_occurs_in_concat(a, b, i, html_escape_char('<'));
            lemma_occurs_in_concat(a, b, i, html_escape_char('>'));
            lemma_occurs_in_concat(a, b, i, html_escape_char('"'));
            lemma_occurs_in_concat(a, b, i, html_escape_char('\''));
        } else {
            let j = i - a.len();
            assert(b[j] == '&');
            lemma_occurs_in_concat(a, b, j, html_escape_char('&'));
            lemma_occurs_in_concat(a, b, j, html_escape_char('<'));
            lemma_occurs_in_concat(a, b, j, html_escape_char('>'));
            lemma_occurs_in_concat(a, b, j, html_escape_char('"'));
            lemma_occurs_in_concat(a, b, j, html_escape_char('\''));
        }
    }
    assert forall|i: int| 0 <= i < s.len() implies #[trigger] s[i] != '<' && s[i] != '>' && s[i]
        != '"' && s[i] != '\'' by {
        if i < a.len() {
            assert(s[i] == a[i]);
        } else {
            assert(s[i] == b[i - a.len()]);
        }
    }
}

proof fn lemma_html_escape_char_safe(c: char)
    ensures
        html_safe(html_escape_char(c)),
{
    let e = html_escape_char(c);
    assert(e.subrange(0, e.len() as int) =~= e);
}

/// HTML-escaped text is safe in element content and in a double-quoted attribute
/// value: it holds no `<`, `>`, `"` or `'`, and each `&` in it opens one of the
/// entities `&amp;`, `&lt;`, `&gt;`, `&quot;`, `&#x27;`.
pub proof fn lemma_html_escaped_safe(t: Seq<char>)
    ensures
        html_safe(html_escaped(t)),
    decreases t.len(),
{
    if t.len() > 0 {
        lemma_html_escaped_safe(t.drop_last());
        lemma_html_escape_char_safe(t.last());
        lemma_html_safe_concat(html_escaped(t.drop_last()), html_escape_char(t.last()));
    }
}

proof fn lemma_html_escaped_plain(t: Seq<char>)
    requires
        !has_html_special(t),
    ensures
        html_escaped(t) == t,
    decreases t.len(),
{
    if t.len() > 0 {
        let p = t.drop_last();
        assert(!has_html_special(p)) by {
            if has_html_special(p) {
                let i = choose|i: int| 0 <= i < p.len() && is_html_special(#[trigger] p[i]);
                assert(t[i] == p[i]);
            }
        }
        lemma_html_escaped_plain(p);
        assert(!is_html_special(t[t.len() - 1]));
        assert(html_escaped(t) =~= t);
    }
}

proof fn lemma_html_escaped_grows(t: Seq<char>)
    ensures
        html_escaped(t).len() >= t.len(),
        has_html_special(t) ==> html_escaped(t).len() > t.len() && has_html_special(
            html_escaped(t),
        ),
    decreases t.len(),
{
    if t.len() > 0 {
        let p = t.drop_last();
        let ep = html_escaped(p);
        let e = html_escaped(t);
        lemma_html_escaped_grows(p);
        if has_html_special(t) {
            if is_html_special(t.last()) {
                assert(e[ep.len() as int] == '&');
            } else {
                let i = choose|i: int| 0 <= i < t.len() && is_html_special(#[trigger] t[i]);
                assert(i < p.len());
                assert(p[i] == t[i]);
                assert(has_html_special(p));
                let j = choose|j: int| 0 <= j < ep.len() && is_html_special(#[trigger] ep[j]);
                assert(e[j] == ep[j]);
            }
        }
    }
}

/// HTML escaping is not idempotent: escaping escaped text again gives it back
/// unchanged exactly when the original held none of `&`, `<`, `>`, `"`, `'`
/// (otherwise each `&` it wrote is escaped once more), and the twice-escaped
/// text is still safe.
pub proof fn lemma_html_escape_twice(t: Seq<char>)
    ensures
        html_escaped(html_escaped(t)) == html_escaped(t) <==> !has_html_special(t),
        html_safe(html_escaped(html_escaped(t))),
{
    lemma_html_escaped_safe(html_escaped(t));
    if has_html_special(t) {
        lemma_html_escaped_grows(t);
        lemma_html_escaped_grows(html_escaped(t));
    } else {
        lemma_html_escaped_plain(t);
    }
}

/// Text that is safe in an `href` or `src` attribute value: each `%` is followed
/// by two uppercase hexadecimal digits, and every other character is one that a
/// URL fragment may hold literally (so no space, control character, `"`, `<`,
/// `>`, `[`, `\`, `]`, `^`, `` ` ``, `{`, `|`, `}` or DEL, and nothing beyond
/// ASCII outside the allowed Unicode ranges).
pub open spec fn href_safe(s: Seq<char>) -> bool {
    forall|i: int|
        0 <= i < s.len() ==> if #[trigger] s[i] == '%' {
            &&& i + 2 < s.len()
            &&& is_upper_hex_digit(s[i + 1])
            &&& is_upper_hex_digit(s[i + 2])
        } else {
            !needs_percent_encoding(s[i])
        }
}

proof fn lemma_href_safe_concat(a: Seq<char>, b: Seq<char>)
    requires
        href_safe(a),
        href_safe(b),
    ensures
        href_safe(a + b),
{
    let s = a + b;
    assert forall|i: int| 0 <= i < s.len() implies if #[trigger] s[i] == '%' {
        &&& i + 2 < s.len()
        &&& is_upper_hex_digit(s[i + 1])
        &&& is_upper_hex_digit(s[i + 2])
    } else {
        !needs_percent_encoding(s[i])
    } by {
        if i < a.len() {
            assert(s[i] == a[i]);
            if a[i] == '%' {
                assert(s[i + 1] == a[i + 1]);
                assert(s[i + 2] == a[i + 2]);
            }
        } else {
            let j = i - a.len();
            assert(s[i] == b[j]);
            if b[j] == '%' {
                assert(s[i + 1] == b[j + 1]);
                assert(s[i + 2] == b[j + 2]);
            }
        }
    }
}

proof fn lemma_percent_encoded_bytes_safe(bytes: Seq<u8>)
    ensures
        href_safe(percent_encoded_bytes(bytes)),
    decreases bytes.len(),
{
    if bytes.len() > 0 {
        let b = bytes.last();
        let tail = seq!['%', hex_digit(b / 16), hex_digit(b % 16)];
        lemma_percent_encoded_bytes_safe(bytes.drop_last());
        assert(href_safe(tail));
        lemma_href_safe_concat(percent_encoded_bytes(bytes.drop_last()), tail);
    }
}

/// Percent-encoded text is safe in an `href` or `src` attribute value: no
/// character that must be encoded stands in it literally, each `%` opens a
/// two-digit uppercase escape, and its only non-ASCII characters are ones from
/// the allowed Unicode ranges.
pub proof fn lemma_href_escaped_safe(t: Seq<char>)
    ensures
        href_safe(href_escaped(t)),
    decreases t.len(),
{
    if t.len() > 0 {
        let c = t.last();
        lemma_href_escaped_safe(t.drop_last());
        if needs_percent_encoding(c) {
            lemma_percent_encoded_bytes_safe(encode_utf8(seq![c]));
        }
        lemma_href_safe_concat(href_escaped(t.drop_last()), href_escape_char(c));
    }
}

} // verus!
