//! Character-level helpers shared by the escapers and the renderer: appending
//! to a `String`, hexadecimal and decimal digits.
use vstd::prelude::*;

verus! {

/// Relies on `String::push`: the character is appended at the end of the string.
pub assume_specification[ String::push ](s: &mut String, ch: char)
    ensures
        final(s)@ == old(s)@.push(ch),
;

/// The uppercase hexadecimal digit for a value below sixteen.
pub open spec fn hex_digit(n: u8) -> char {
    if n < 10 {
        (48 + n) as char
    } else {
        (55 + n) as char
    }
}

/// `0`-`9` and `A`-`F`.
pub open spec fn is_upper_hex_digit(c: char) -> bool {
    ('0' <= c && c <= '9') || ('A' <= c && c <= 'F')
}

pub fn hex_char(n: u8) -> (c: char)
    requires
        n < 16,
    ensures
        c == hex_digit(n),
{
    if n < 10 {
        (48u8 + n) as char
    } else {
        (55u8 + n) as char
    }
}

/// The decimal digit for a value below ten.
pub open spec fn decimal_digit(d: nat) -> char {
    (48 + d) as char
}

/// The decimal notation of `n`, without leading zeros.
pub open spec fn decimal(n: nat) -> Seq<char>
    decreases n,
{
    if n < 10 {
        seq![decimal_digit(n)]
    } else {
        decimal(n / 10).push(decimal_digit(n % 10))
    }
}

/// Appends the decimal notation of `n` to `w`.
pub fn push_decimal(w: &mut String, n: u64)
    ensures
        final(w)@ == old(w)@ + decimal(n as nat),
    decreases n,
{
    if n >= 10 {
        push_decimal(w, n / 10);
    }
    let d = (n % 10) as u8;
    w.push((48u8 + d) as char);
    assert(w@ =~= old(w)@ + decimal(n as nat));
}


/// The characters with Unicode's `White_Space` property.
pub open spec fn is_unicode_whitespace(c: char) -> bool {
    let v = c as u32;
    ||| 0x09 <= v <= 0x0D
    ||| v == 0x20
    ||| v == 0x85
    ||| v == 0xA0
    ||| v == 0x1680
    ||| 0x2000 <= v <= 0x200A
    ||| v == 0x2028
    ||| v == 0x2029
    ||| v == 0x202F
    ||| v == 0x205F
    ||| v == 0x3000
}

pub fn is_whitespace(c: char) -> (r: bool)
    ensures
        r == is_unicode_whitespace(c),
{
    let v = c as u32;
    (0x09 <= v && v <= 0x0D) || v == 0x20 || v == 0x85 || v == 0xA0 || v == 0x1680 || (0x2000 <= v
        && v <= 0x200A) || v == 0x2028 || v == 0x2029 || v == 0x202F || v == 0x205F || v == 0x3000
}

/// The characters of `s` before its first whitespace character.
pub open spec fn first_token(s: Seq<char>) -> Seq<char>
    decreases s.len(),
{
    if s.len() == 0 || is_unicode_whitespace(s[0]) {
        seq![]
    } else {
        seq![s[0]] + first_token(s.drop_first())
    }
}

/// The first whitespace-delimited token of `s` (empty where `s` starts with whitespace).
pub fn first_token_of(s: &str) -> (t: String)
    ensures
        t@ == first_token(s@),
{
    let mut t = String::new();
    let mut done = false;
    assert(s@.skip(0) =~= s@);
    assert(t@ + first_token(s@) =~= first_token(s@));
    for c in it: s.chars()
        invariant
            it.seq() == s@,
            !done ==> t@ + first_token(s@.skip(it.index() as int)) == first_token(s@),
            done ==> t@ == first_token(s@),
    {
        let ghost i = it.index() as int;
        let ghost rest = s@.skip(i);
        assert(rest[0] == c);
        assert(rest.drop_first() =~= s@.skip(i + 1));
        if !done {
            if is_whitespace(c) {
                done = true;
            } else {
                t.push(c);
                assert(t@ + first_token(s@.skip(i + 1)) =~= first_token(s@));
            }
        }
    }
    if !done {
        assert(s@.skip(s@.len() as int) =~= Seq::<char>::empty());
        assert(t@ + Seq::<char>::empty() =~= t@);
    }
    t
}

/// What a character of a header's text becomes in its id: whitespace and
/// non-ASCII characters become `-`, ASCII letters are lower-cased, and other
/// ASCII characters stay.
pub open spec fn slug_char(c: char) -> char {
    if is_unicode_whitespace(c) || (c as u32) >= 0x80 {
        '-'
    } else if 'A' <= c && c <= 'Z' {
        ((c as u32) + 32) as char
    } else {
        c
    }
}

/// `s` with each character replaced by its slug character.
pub open spec fn slugged(s: Seq<char>) -> Seq<char>
    decreases s.len(),
{
    if s.len() == 0 {
        seq![]
    } else {
        slugged(s.drop_last()).push(slug_char(s.last()))
    }
}

/// Appends the slug of `text` to `slug`.
pub fn push_slug(slug: &mut String, text: &str)
    ensures
        final(slug)@ == old(slug)@ + slugged(text@),
{
    let ghost s0 = slug@;
    for c in it: text.chars()
        invariant
            it.seq() == text@,
            slug@ == s0 + slugged(text@.take(it.index() as int)),
    {
        let ghost i = it.index() as int;
        assert(text@.take(i + 1).drop_last() =~= text@.take(i));
        let v = c as u32;
        let d = if is_whitespace(c) || v >= 0x80 {
            '-'
        } else if 'A' <= c && c <= 'Z' {
            ((v + 32) as u8) as char
        } else {
            c
        };
        slug.push(d);
        assert(slug@ =~= s0 + slugged(text@.take(i + 1)));
    }
    assert(text@.take(text@.len() as int) =~= text@);
}

} // verus!
