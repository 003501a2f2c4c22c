//! Character and string primitives of the standard library that the crate
//! relies on, with what it assumes of them, and a few helpers on text.
use vstd::prelude::*;
use vstd::utf8::{decode_utf8, is_ascii_chars, valid_utf8};

verus! {

/// The Unicode `White_Space` property of a character that is not ASCII,
/// as `char::is_whitespace` decides it.
pub uninterp spec fn unicode_whitespace(c: char) -> bool;

/// The Unicode `Alphabetic` property of a character that is not ASCII, as
/// `char::is_alphabetic` decides it.
pub uninterp spec fn unicode_alphabetic(c: char) -> bool;

/// Membership in the Unicode numeric categories of a character that is not
/// ASCII, as `char::is_numeric` decides it.
pub uninterp spec fn unicode_numeric(c: char) -> bool;

/// The upper-case form of a string that is not all ASCII, as
/// `str::to_uppercase` computes it.
pub uninterp spec fn unicode_uppercase(s: Seq<char>) -> Seq<char>;

/// A character of the ASCII range.
pub open spec fn is_ascii_char(c: char) -> bool {
    c <= '\u{7f}'
}

/// White space: among ASCII characters the space and the five controls
/// from tab to carriage return; beyond ASCII, what Unicode says.
pub open spec fn is_space(c: char) -> bool {
    if is_ascii_char(c) {
        c == ' ' || ('\t' <= c <= '\r')
    } else {
        unicode_whitespace(c)
    }
}

/// A letter: among ASCII characters `a` to `z` and `A` to `Z`; beyond
/// ASCII, what Unicode says.
pub open spec fn is_letter(c: char) -> bool {
    if is_ascii_char(c) {
        ('a' <= c <= 'z') || ('A' <= c <= 'Z')
    } else {
        unicode_alphabetic(c)
    }
}

/// A digit: among ASCII characters `0` to `9`; beyond ASCII, what Unicode
/// says.
pub open spec fn is_digit(c: char) -> bool {
    if is_ascii_char(c) {
        '0' <= c <= '9'
    } else {
        unicode_numeric(c)
    }
}

/// The upper-case form of an ASCII character.
pub open spec fn ascii_upper(c: char) -> char {
    if 'a' <= c <= 'z' {
        ((c as int) - 32) as char
    } else {
        c
    }
}

/// The upper-case form of a text: character by character where all are
/// ASCII; else what Unicode says.
pub open spec fn upper_text(s: Seq<char>) -> Seq<char> {
    if is_ascii_chars(s) {
        s.map_values(|c: char| ascii_upper(c))
    } else {
        unicode_uppercase(s)
    }
}

/// The text that `String::from_utf8_lossy` makes of a run of bytes that is
/// not valid UTF-8.
pub uninterp spec fn utf8_lossy(bytes: Seq<u8>) -> Seq<char>;

/// The text read from a run of bytes, lossily: the text they encode where
/// they are valid UTF-8, else what `String::from_utf8_lossy` makes of them.
pub open spec fn lossy_text(bytes: Seq<u8>) -> Seq<char> {
    if valid_utf8(bytes) {
        decode_utf8(bytes)
    } else {
        utf8_lossy(bytes)
    }
}

/// `char::is_whitespace` decides the Unicode `White_Space` property. Of
/// the ASCII characters it holds the space and the controls from tab to
/// carriage return; beyond ASCII nothing is assumed of it but that it is a
/// fixed predicate.
pub assume_specification[ char::is_whitespace ](c: char) -> (b: bool)
    ensures
        b == is_space(c),
        !is_ascii_char(c) ==> b == unicode_whitespace(c),
;

/// `char::is_alphabetic` decides the Unicode `Alphabetic` property. Of the
/// ASCII characters it holds the letters `a` to `z` and `A` to `Z`; beyond
/// ASCII nothing is assumed of it but that it is a fixed predicate.
pub assume_specification[ char::is_alphabetic ](c: char) -> (b: bool)
    ensures
        b == is_letter(c),
        !is_ascii_char(c) ==> b == unicode_alphabetic(c),
;

/// `char::is_numeric` decides membership in the Unicode categories for
/// numbers. Of the ASCII characters they hold the digits `0` to `9`; beyond
/// ASCII nothing is assumed of it but that it is a fixed predicate.
pub assume_specification[ char::is_numeric ](c: char) -> (b: bool)
    ensures
        b == is_digit(c),
        !is_ascii_char(c) ==> b == unicode_numeric(c),
;

/// `str::to_uppercase` gives the Unicode upper-case form. Of a string of
/// ASCII characters it turns `a` to `z` into `A` to `Z` and keeps the
/// rest; of any other string nothing is assumed but that the result is a
/// fixed function of the characters.
pub assume_specification[ str::to_uppercase ](s: &str) -> (r: String)
    ensures
        r@ == upper_text(s@),
        !is_ascii_chars(s@) ==> r@ == unicode_uppercase(s@),
;

/// `String::push` appends the given character to the end of the string.
pub assume_specification[ String::push ](s: &mut String, c: char)
    ensures
        final(s)@ == old(s)@.push(c),
;

/// `str == str` compares the two strings character by character.
pub assume_specification[ <str as PartialEq>::eq ](a: &str, b: &str) -> (r: bool)
    ensures
        r == (a@ == b@),
;

/// The characters of `s`, in order.
pub fn chars_of(s: &str) -> (v: Vec<char>)
    ensures
        v@ == s@,
{
    let mut v: Vec<char> = Vec::new();
    for c in it: s.chars()
        invariant
            it.seq() == s@,
            v@ == it.seq().take(it.index() as int),
    {
        v.push(c);
    }
    v
}

/// The string made of `chars[from..to]`.
pub fn string_of(chars: &Vec<char>, from: usize, to: usize) -> (s: String)
    requires
        from <= to <= chars.len(),
    ensures
        s@ == chars@.subrange(from as int, to as int),
{
    let mut s = String::new();
    let mut i: usize = from;
    while i < to
        invariant
            from <= i <= to <= chars.len(),
            s@ == chars@.subrange(from as int, i as int),
        decreases to - i,
    {
        s.push(chars[i]);
        i = i + 1;
        assert(chars@.subrange(from as int, i as int) == chars@.subrange(
            from as int,
            i - 1,
        ).push(chars@[i - 1]));
    }
    s
}

/// Calls `String::from_utf8_lossy`. Where the bytes are valid UTF-8 the
/// result is the text they encode; else it is a fixed function of the
/// bytes, of which nothing more is assumed.
#[verifier::external_body]
pub(crate) fn decode_lossy(bytes: &[u8]) -> (text: String)
    ensures
        text@ == lossy_text(bytes@),
        !valid_utf8(bytes@) ==> text@ == utf8_lossy(bytes@),
{
    String::from_utf8_lossy(bytes).into_owned()
}

/// The views of a run of strings.
pub open spec fn text_views(texts: Seq<String>) -> Seq<Seq<char>> {
    texts.map_values(|s: String| s@)
}

/// Whether `texts` holds `wanted`.
pub fn contains_text(texts: &Vec<String>, wanted: &str) -> (found: bool)
    ensures
        found == text_views(texts@).contains(wanted@),
{
    let mut i: usize = 0;
    while i < texts.len()
        invariant
            i <= texts@.len(),
            forall|k: int| 0 <= k < i ==> text_views(texts@)[k] != wanted@,
        decreases texts@.len() - i,
    {
        if texts[i].as_str().eq(wanted) {
            assert(text_views(texts@)[i as int] == wanted@);
            return true;
        }
        i = i + 1;
    }
    false
}

/// The decimal digit for `d` in 0..10.
pub open spec fn digit_char(d: int) -> char {
    (48 + d) as char
}

/// `n` in decimal, without leading zeros.
pub open spec fn decimal_text(n: int) -> Seq<char>
    decreases n,
{
    if n < 10 {
        seq![digit_char(n)]
    } else {
        decimal_text(n / 10).push(digit_char(n % 10))
    }
}

/// Appends `n` in decimal to `out`.
pub fn push_decimal(out: &mut String, n: usize)
    ensures
        final(out)@ == old(out)@ + decimal_text(n as int),
    decreases n,
{
    if n >= 10 {
        push_decimal(out, n / 10);
    }
    let digit: u8 = (n % 10) as u8;
    let c: char = (48u8 + digit) as char;
    out.push(c);
    assert(out@ =~= old(out)@ + decimal_text(n as int));
}

} // verus!
