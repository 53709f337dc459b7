//! Text helpers: whitespace, trimming, upper-casing, a leading byte-order
//! mark, and decimal digits.

use vstd::prelude::*;

verus! {

/// Whether a non-ASCII character carries the Unicode `White_Space` property,
/// as `char::is_whitespace` reports it.
pub uninterp spec fn non_ascii_white_space(c: char) -> bool;

/// The characters that `char::to_uppercase` yields for a non-ASCII character.
pub uninterp spec fn non_ascii_uppercase(c: char) -> Seq<char>;

/// A character of the ASCII range.
pub open spec fn is_ascii_char(c: char) -> bool {
    (c as u32) < 128
}

/// An ASCII lower-case letter.
pub open spec fn is_ascii_lower(c: char) -> bool {
    'a' <= c && c <= 'z'
}

/// An ASCII letter of either case.
pub open spec fn is_ascii_letter(c: char) -> bool {
    is_ascii_lower(c) || ('A' <= c && c <= 'Z')
}

/// The upper-case form of an ASCII character: `a`..`z` become `A`..`Z`,
/// every other character stays.
pub open spec fn ascii_upper(c: char) -> char {
    if is_ascii_lower(c) {
        ((c as u32) - 32) as char
    } else {
        c
    }
}

/// Whether a character carries the Unicode `White_Space` property. In the
/// ASCII range that property holds of the space and of U+0009 to U+000D
/// (tab, line feed, vertical tab, form feed, carriage return) only.
pub open spec fn is_white_space(c: char) -> bool {
    if is_ascii_char(c) {
        c == ' ' || ('\t' <= c && c <= '\r')
    } else {
        non_ascii_white_space(c)
    }
}

/// The characters that `char::to_uppercase` yields for `c`: for an ASCII
/// character, its upper-case form alone.
pub open spec fn uppercase_of(c: char) -> Seq<char> {
    if is_ascii_char(c) {
        seq![ascii_upper(c)]
    } else {
        non_ascii_uppercase(c)
    }
}

/// Wraps `char::is_whitespace`, which reports the Unicode `White_Space`
/// property. The contract states that property in the ASCII range (the
/// space and U+0009 to U+000D, as the Unicode property list gives it) and
/// only names it elsewhere.
#[verifier::external_body]
pub(crate) fn char_is_whitespace(c: char) -> (b: bool)
    ensures
        b == is_white_space(c),
        !is_ascii_char(c) ==> b == non_ascii_white_space(c),
{
    c.is_whitespace()
}

/// Wraps `char::to_uppercase`, collecting the characters it yields. For an
/// ASCII character the contract states the mapping (a letter `a`..`z` to its
/// capital, any other character to itself, as the Unicode case mapping that
/// the documentation refers to gives it); elsewhere it names the result.
#[verifier::external_body]
pub(crate) fn char_to_uppercase(c: char) -> (u: Vec<char>)
    ensures
        u@ == uppercase_of(c),
        !is_ascii_char(c) ==> u@ == non_ascii_uppercase(c),
{
    c.to_uppercase().collect()
}

/// Wraps `String::push`: appends one character at the end.
#[verifier::external_body]
pub(crate) fn string_push(s: &mut String, c: char)
    ensures
        final(s)@ == old(s)@.push(c),
{
    s.push(c)
}

/// `s` without its leading whitespace.
pub open spec fn trim_start(s: Seq<char>) -> Seq<char>
    decreases s.len(),
{
    if s.len() > 0 && is_white_space(s[0]) {
        trim_start(s.drop_first())
    } else {
        s
    }
}

/// `s` without its trailing whitespace.
pub open spec fn trim_end(s: Seq<char>) -> Seq<char>
    decreases s.len(),
{
    if s.len() > 0 && is_white_space(s.last()) {
        trim_end(s.drop_last())
    } else {
        s
    }
}

/// `s` without leading and trailing whitespace.
pub open spec fn trimmed(s: Seq<char>) -> Seq<char> {
    trim_end(trim_start(s))
}

/// A text is blank when nothing is left of it once trimmed.
pub open spec fn is_blank(s: Seq<char>) -> bool {
    trimmed(s).len() == 0
}

/// Wraps `str::trim`: the slice of `s` without leading and trailing
/// characters that have the `White_Space` property (as its documentation says).
#[verifier::external_body]
pub(crate) fn str_trim(s: &str) -> (r: &str)
    ensures
        r@ == trimmed(s@),
{
    s.trim()
}

/// The character of a decimal digit.
pub open spec fn digit(d: nat) -> char {
    if d == 0 {
        '0'
    } else if d == 1 {
        '1'
    } else if d == 2 {
        '2'
    } else if d == 3 {
        '3'
    } else if d == 4 {
        '4'
    } else if d == 5 {
        '5'
    } else if d == 6 {
        '6'
    } else if d == 7 {
        '7'
    } else if d == 8 {
        '8'
    } else {
        '9'
    }
}

/// The decimal numeral of `n`, without leading zeros.
pub open spec fn decimal(n: nat) -> Seq<char>
    decreases n,
{
    if n < 10 {
        seq![digit(n)]
    } else {
        decimal(n / 10).push(digit(n % 10))
    }
}

/// The character of the decimal digit `d`.
pub fn digit_char(d: u64) -> (c: char)
    requires
        d < 10,
    ensures
        c == digit(d as nat),
{
    if d == 0 {
        '0'
    } else if d == 1 {
        '1'
    } else if d == 2 {
        '2'
    } else if d == 3 {
        '3'
    } else if d == 4 {
        '4'
    } else if d == 5 {
        '5'
    } else if d == 6 {
        '6'
    } else if d == 7 {
        '7'
    } else if d == 8 {
        '8'
    } else {
        '9'
    }
}

/// Appends the decimal numeral of `n` to `s`.
pub fn push_decimal(s: &mut String, n: u64)
    ensures
        final(s)@ == old(s)@ + decimal(n as nat),
    decreases n,
{
    if n >= 10 {
        push_decimal(s, n / 10);
    }
    string_push(s, digit_char(n % 10));
    assert(final(s)@ =~= old(s)@ + decimal(n as nat)) by {
        if n >= 10 {
            assert(decimal(n as nat) == decimal((n / 10) as nat).push(digit((n % 10) as nat)));
        }
    }
}

/// Whether `s` holds nothing but whitespace.
pub fn is_blank_text(s: &str) -> (b: bool)
    ensures
        b == is_blank(s@),
{
    str_trim(s).is_empty()
}

/// An owned copy of `s` without leading and trailing whitespace.
pub fn trimmed_string(s: &str) -> (r: String)
    ensures
        r@ == trimmed(s@),
{
    str_trim(s).to_owned()
}

/// `s` without a leading byte-order mark (U+FEFF), if it starts with one.
pub open spec fn without_bom(s: Seq<char>) -> Seq<char> {
    if s.len() > 0 && s[0] == '\u{feff}' {
        s.drop_first()
    } else {
        s
    }
}

/// The text after a leading byte-order mark, which some editors put at the
/// start of a UTF-8 file; a text without one is returned as it is.
pub fn strip_bom(s: &str) -> (r: &str)
    ensures
        r@ == without_bom(s@),
{
    let n = s.unicode_len();
    if n > 0 && s.get_char(0) == '\u{feff}' {
        let r = s.substring_char(1, n);
        assert(r@ =~= s@.drop_first());
        r
    } else {
        s
    }
}

/// Trimming leaves a text that starts with no whitespace.
pub proof fn lemma_trim_start_shape(s: Seq<char>)
    ensures
        trim_start(s).len() == 0 || !is_white_space(trim_start(s)[0]),
        trim_start(s).len() <= s.len(),
        trim_start(s) =~= s.skip(s.len() - trim_start(s).len()),
    decreases s.len(),
{
    if s.len() > 0 && is_white_space(s[0]) {
        lemma_trim_start_shape(s.drop_first());
    }
}

/// Trimming the end leaves a prefix that ends in no whitespace.
pub proof fn lemma_trim_end_shape(s: Seq<char>)
    ensures
        trim_end(s).len() == 0 || !is_white_space(trim_end(s).last()),
        trim_end(s).len() <= s.len(),
        trim_end(s) =~= s.take(trim_end(s).len() as int),
    decreases s.len(),
{
    if s.len() > 0 && is_white_space(s.last()) {
        lemma_trim_end_shape(s.drop_last());
    }
}

/// A trimmed text neither starts nor ends with whitespace.
pub proof fn lemma_trimmed_shape(s: Seq<char>)
    ensures
        trimmed(s).len() == 0 || (!is_white_space(trimmed(s)[0]) && !is_white_space(
            trimmed(s).last(),
        )),
{
    let a = trim_start(s);
    lemma_trim_start_shape(s);
    lemma_trim_end_shape(a);
    let b = trim_end(a);
    if b.len() > 0 {
        assert(b[0] == a[0]);
    }
}

/// Trimming twice is trimming once.
pub proof fn lemma_trimmed_idempotent(s: Seq<char>)
    ensures
        trimmed(trimmed(s)) == trimmed(s),
{
    let t = trimmed(s);
    lemma_trimmed_shape(s);
    assert(trim_start(t) == t);
    assert(trim_end(t) == t);
}

} // verus!
