//! Time-based one-time codes (RFC 6238 over RFC 4226): a Base32 secret and
//! a Unix time become a six-digit code that changes every 30 seconds.

use crate::text::{
    ascii_upper, char_is_whitespace, char_to_uppercase, decimal, digit, digit_char, is_ascii_letter,
    is_white_space, push_decimal, string_push, uppercase_of,
};
use hmac::{Hmac, KeyInit, Mac};
use sha1::Sha1;
use vstd::prelude::*;
use vstd::utf8::encode_utf8;

verus! {

/// Length of one time step, in seconds.
pub const PERIOD: u64 = 30;

/// Codes are taken modulo this number (six decimal digits).
pub const MODULUS: u32 = 1000000;

/// Kinds of Base32 decoding failure.
#[derive(Clone, Copy, Debug, PartialEq, Eq)]
pub enum DecodeProblem {
    /// The input length is not one that Base32 without padding can have.
    Length,
    /// The input holds a character outside the Base32 alphabet.
    Symbol,
    /// The last character carries non-zero bits beyond the data.
    Trailing,
    /// The padding is malformed.
    Padding,
}

/// Why a Base32 text could not be decoded, and where.
#[derive(Clone, Copy, Debug, PartialEq, Eq)]
pub struct Base32Error {
    pub position: usize,
    pub kind: DecodeProblem,
}

/// What `data_encoding::BASE32_NOPAD.decode` returns for `input`.
pub uninterp spec fn base32_nopad_decoded(input: Seq<u8>) -> Result<Seq<u8>, Base32Error>;

/// The tag that HMAC-SHA1 computes for `message` under `key`.
pub uninterp spec fn hmac_sha1_tag(key: Seq<u8>, message: Seq<u8>) -> Seq<u8>;

/// A decoding outcome with the bytes taken by their view.
pub open spec fn bytes_result(r: Result<Vec<u8>, Base32Error>) -> Result<Seq<u8>, Base32Error> {
    match r {
        Ok(v) => Ok(v@),
        Err(e) => Err(e),
    }
}

/// Calls `data_encoding::BASE32_NOPAD.decode` and copies its `DecodeError`
/// field by field into a `Base32Error`. The contract names the outcome and
/// says nothing more of it. `decode_len` asserts that the input is at most
/// `usize::MAX / 8` bytes long, hence the `requires`.
#[verifier::external_body]
fn base32_decode(input: &[u8]) -> (r: Result<Vec<u8>, Base32Error>)
    requires
        input@.len() <= usize::MAX / 8,
    ensures
        bytes_result(r) == base32_nopad_decoded(input@),
{
    match data_encoding::BASE32_NOPAD.decode(input) {
        Ok(v) => Ok(v),
        Err(e) => Err(Base32Error {
            position: e.position,
            kind: match e.kind {
                data_encoding::DecodeKind::Length => DecodeProblem::Length,
                data_encoding::DecodeKind::Symbol => DecodeProblem::Symbol,
                data_encoding::DecodeKind::Trailing => DecodeProblem::Trailing,
                data_encoding::DecodeKind::Padding => DecodeProblem::Padding,
            },
        }),
    }
}

/// HMAC-SHA1 through `hmac::Hmac<sha1::Sha1>`: `new_from_slice` (which
/// accepts keys of every length, so the `expect` never fires), `update` and
/// `finalize`. The contract names the tag and states its length, the
/// 20-byte output size of SHA-1.
#[verifier::external_body]
fn hmac_sha1(key: &[u8], message: &[u8]) -> (tag: Vec<u8>)
    ensures
        tag@ == hmac_sha1_tag(key@, message@),
        tag@.len() == 20,
{
    let mut mac = <Hmac<Sha1> as KeyInit>::new_from_slice(key).expect("HMAC accepts keys of any length");
    mac.update(message);
    mac.finalize().into_bytes().to_vec()
}

/// The characters of a secret once whitespace, `-` and `=` are dropped and
/// every other character is upper-cased.
pub open spec fn cleaned_secret(s: Seq<char>) -> Seq<char>
    decreases s.len(),
{
    if s.len() == 0 {
        seq![]
    } else {
        let c = s.last();
        if is_white_space(c) || c == '-' || c == '=' {
            cleaned_secret(s.drop_last())
        } else {
            cleaned_secret(s.drop_last()) + uppercase_of(c)
        }
    }
}

/// Message for a secret with nothing left once cleaned.
pub open spec fn empty_secret_message() -> Seq<char> {
    "密钥为空"@
}

/// Message for a secret too long to be decoded at all.
pub open spec fn oversized_secret_message() -> Seq<char> {
    "密钥过长"@
}

/// Start of the message for a secret that is not valid Base32.
pub open spec fn invalid_secret_prefix() -> Seq<char> {
    "密钥不是合法的 Base32: "@
}

/// How `data_encoding` describes a kind of decoding failure.
pub open spec fn problem_text(k: DecodeProblem) -> Seq<char> {
    match k {
        DecodeProblem::Length => "invalid length"@,
        DecodeProblem::Symbol => "invalid symbol"@,
        DecodeProblem::Trailing => "non-zero trailing bits"@,
        DecodeProblem::Padding => "invalid padding length"@,
    }
}

/// How `data_encoding` displays a decoding error: the kind, " at ", the position.
pub open spec fn decode_error_text(e: Base32Error) -> Seq<char> {
    problem_text(e.kind) + " at "@ + decimal(e.position as nat)
}

/// The key bytes, or the error message, that a decoding outcome gives.
pub open spec fn key_from_decoded(r: Result<Seq<u8>, Base32Error>) -> Result<Seq<u8>, Seq<char>> {
    match r {
        Ok(k) => Ok(k),
        Err(e) => Err(invalid_secret_prefix() + decode_error_text(e)),
    }
}

/// The key that a Base32 secret (as typed by a user) stands for, or why it has none.
pub open spec fn key_from_secret(s: Seq<char>) -> Result<Seq<u8>, Seq<char>> {
    let c = cleaned_secret(s);
    let bytes = encode_utf8(c);
    if c.len() == 0 {
        Err(empty_secret_message())
    } else if bytes.len() > usize::MAX / 8 {
        Err(oversized_secret_message())
    } else {
        key_from_decoded(base32_nopad_decoded(bytes))
    }
}

/// The eight big-endian bytes of `x`.
pub open spec fn be_bytes(x: u64) -> Seq<u8> {
    seq![
        (x >> 56u64) as u8,
        (x >> 48u64) as u8,
        (x >> 40u64) as u8,
        (x >> 32u64) as u8,
        (x >> 24u64) as u8,
        (x >> 16u64) as u8,
        (x >> 8u64) as u8,
        x as u8,
    ]
}

/// RFC 4226 dynamic truncation: the low four bits of the last byte of a
/// 20-byte digest pick an offset; the four bytes there, read big-endian with
/// the top bit cleared, give a 31-bit number.
pub open spec fn truncated(d: Seq<u8>) -> nat {
    let o = (d[19] % 16) as int;
    ((d[o] % 128) * 0x1000000 + d[o + 1] * 0x10000 + d[o + 2] * 0x100 + d[o + 3]) as nat
}

/// Six decimal digits of `n`, with leading zeros.
pub open spec fn six_digits(n: nat) -> Seq<char> {
    seq![
        digit(n / 100000 % 10),
        digit(n / 10000 % 10),
        digit(n / 1000 % 10),
        digit(n / 100 % 10),
        digit(n / 10 % 10),
        digit(n % 10),
    ]
}

/// The code that a 20-byte HMAC digest gives.
pub open spec fn code_of_digest(d: Seq<u8>) -> Seq<char> {
    six_digits(truncated(d) % (MODULUS as nat))
}

/// The time step that a Unix time falls in.
pub open spec fn time_step(t: u64) -> u64 {
    t / PERIOD
}

/// The TOTP code of `key` at Unix time `t`.
pub open spec fn totp_code(key: Seq<u8>, t: u64) -> Seq<char> {
    code_of_digest(hmac_sha1_tag(key, be_bytes(time_step(t))))
}

/// The code (or the error message) for a Base32 secret at time `t`.
pub open spec fn code_for_secret(s: Seq<char>, t: u64) -> Result<Seq<char>, Seq<char>> {
    match key_from_secret(s) {
        Ok(k) => Ok(totp_code(k, t)),
        Err(m) => Err(m),
    }
}

/// A text made of exactly six ASCII digits.
pub open spec fn is_six_digit_code(s: Seq<char>) -> bool {
    &&& s.len() == 6
    &&& forall|i: int| 0 <= i < 6 ==> '0' <= #[trigger] s[i] && s[i] <= '9'
}

/// Seconds left in the time step of `t`.
pub open spec fn seconds_left(t: u64) -> u64 {
    (PERIOD - t % PERIOD) as u64
}

/// The code for `secret` at Unix time `unix_time`: six digits with leading
/// zeros, or an error message when the secret is empty or not Base32.
pub fn code(secret: &str, unix_time: u64) -> (r: Result<String, String>)
    ensures
        r matches Ok(c) ==> code_for_secret(secret@, unix_time) == Ok::<Seq<char>, Seq<char>>(c@),
        r matches Err(m) ==> code_for_secret(secret@, unix_time) == Err::<Seq<char>, Seq<char>>(m@),
        r matches Ok(c) ==> is_six_digit_code(c@),
        key_from_secret(secret@) matches Ok(k) ==> r matches Ok(c) && c@ == totp_code(k, unix_time),
{
    let key = decode_secret(secret)?;
    Ok(code_from_key(key.as_slice(), unix_time))
}

/// How many seconds the current code stays valid: from 30 at the start of
/// a time step down to 1 at its end.
pub fn remaining_seconds(unix_time: u64) -> (r: u64)
    ensures
        r == seconds_left(unix_time),
        1 <= r <= PERIOD,
{
    PERIOD - (unix_time % PERIOD)
}

/// The secret with whitespace, `-` and `=` removed and the rest upper-cased.
pub fn clean_secret(secret: &str) -> (r: String)
    ensures
        r@ == cleaned_secret(secret@),
{
    let mut r = String::new();
    for c in it: secret.chars()
        invariant
            it.seq() == secret@,
            r@ == cleaned_secret(it.seq().take(it.index())),
    {
        assert(it.seq().take(it.index() + 1).drop_last() =~= it.seq().take(it.index()));
        if !(char_is_whitespace(c) || c == '-' || c == '=') {
            let up = char_to_uppercase(c);
            let ghost before = r@;
            let mut j: usize = 0;
            while j < up.len()
                invariant
                    0 <= j <= up@.len(),
                    r@ == before + up@.take(j as int),
                decreases up@.len() - j,
            {
                string_push(&mut r, up[j]);
                assert(up@.take(j + 1) =~= up@.take(j as int).push(up@[j as int]));
                j += 1;
            }
            assert(up@.take(up@.len() as int) =~= up@);
        }
    }
    assert(secret@.take(secret@.len() as int) =~= secret@);
    r
}

/// Writes how `data_encoding` displays a decoding error.
pub fn describe_decode_error(e: &Base32Error) -> (r: String)
    ensures
        r@ == decode_error_text(*e),
{
    let mut r = match e.kind {
        DecodeProblem::Length => "invalid length".to_owned(),
        DecodeProblem::Symbol => "invalid symbol".to_owned(),
        DecodeProblem::Trailing => "non-zero trailing bits".to_owned(),
        DecodeProblem::Padding => "invalid padding length".to_owned(),
    };
    r.append(" at ");
    push_decimal(&mut r, e.position as u64);
    r
}

/// Turns the outcome of Base32 decoding into the key, or into the message
/// shown for a secret that is not valid Base32.
pub fn key_from_decode_result(r: Result<Vec<u8>, Base32Error>) -> (k: Result<Vec<u8>, String>)
    ensures
        k matches Ok(v) ==> r matches Ok(w) && v@ == w@,
        k matches Err(m) ==> r matches Err(e) && m@ == invalid_secret_prefix() + decode_error_text(e),
        r is Ok ==> k is Ok,
{
    match r {
        Ok(v) => Ok(v),
        Err(e) => {
            let mut m = "密钥不是合法的 Base32: ".to_owned();
            let d = describe_decode_error(&e);
            m.append(d.as_str());
            Err(m)
        },
    }
}

/// Decodes a Base32 secret as typed by a user: whitespace, `-` and `=` are
/// ignored and lower case is accepted.
pub fn decode_secret(secret: &str) -> (r: Result<Vec<u8>, String>)
    ensures
        r matches Ok(k) ==> key_from_secret(secret@) == Ok::<Seq<u8>, Seq<char>>(k@),
        r matches Err(m) ==> key_from_secret(secret@) == Err::<Seq<u8>, Seq<char>>(m@),
{
    let cleaned = clean_secret(secret);
    if cleaned.as_str().is_empty() {
        return Err("密钥为空".to_owned());
    }
    let bytes = cleaned.as_str().as_bytes();
    if bytes.len() > usize::MAX / 8 {
        return Err("密钥过长".to_owned());
    }
    key_from_decode_result(base32_decode(bytes))
}

/// Six digits of `v`, with leading zeros.
pub fn six_digit_string(v: u32) -> (r: String)
    requires
        v < MODULUS,
    ensures
        r@ == six_digits(v as nat),
        is_six_digit_code(r@),
{
    let mut r = String::new();
    string_push(&mut r, digit_char((v / 100000 % 10) as u64));
    string_push(&mut r, digit_char((v / 10000 % 10) as u64));
    string_push(&mut r, digit_char((v / 1000 % 10) as u64));
    string_push(&mut r, digit_char((v / 100 % 10) as u64));
    string_push(&mut r, digit_char((v / 10 % 10) as u64));
    string_push(&mut r, digit_char((v % 10) as u64));
    assert(r@ =~= six_digits(v as nat));
    r
}

/// The code that a 20-byte HMAC-SHA1 digest gives (dynamic truncation,
/// then the last six decimal digits).
pub fn code_from_digest(digest: &[u8]) -> (r: String)
    requires
        digest@.len() == 20,
    ensures
        r@ == code_of_digest(digest@),
        is_six_digit_code(r@),
{
    let last = digest[19];
    let offset = (last & 0x0f) as usize;
    assert(last & 0x0f == last % 16) by (bit_vector);
    let first = digest[offset];
    let b0 = (first & 0x7f) as u32;
    assert(first & 0x7f == first % 128) by (bit_vector);
    let bin: u32 = b0 * 0x1000000 + (digest[offset + 1] as u32) * 0x10000 + (digest[offset
        + 2] as u32) * 0x100 + digest[offset + 3] as u32;
    six_digit_string(bin % MODULUS)
}

/// The code of raw key bytes at a Unix time.
pub fn code_from_key(key: &[u8], unix_time: u64) -> (r: String)
    ensures
        r@ == totp_code(key@, unix_time),
        is_six_digit_code(r@),
{
    let counter = unix_time / PERIOD;
    let message: Vec<u8> = vec![
        (counter >> 56u64) as u8,
        (counter >> 48u64) as u8,
        (counter >> 40u64) as u8,
        (counter >> 32u64) as u8,
        (counter >> 24u64) as u8,
        (counter >> 16u64) as u8,
        (counter >> 8u64) as u8,
        counter as u8,
    ];
    assert(message@ =~= be_bytes(counter));
    let digest = hmac_sha1(key, message.as_slice());
    code_from_digest(digest.as_slice())
}

/// Cleaning a secret works character by character: cleaning a
/// concatenation concatenates the cleaned parts.
pub proof fn lemma_cleaned_secret_concat(a: Seq<char>, b: Seq<char>)
    ensures
        cleaned_secret(a + b) == cleaned_secret(a) + cleaned_secret(b),
    decreases b.len(),
{
    if b.len() == 0 {
        assert(a + b =~= a);
        assert(cleaned_secret(a) + cleaned_secret(b) =~= cleaned_secret(a));
    } else {
        lemma_cleaned_secret_concat(a, b.drop_last());
        assert((a + b).drop_last() =~= a + b.drop_last());
        assert((a + b).last() == b.last());
        let c = b.last();
        if !(is_white_space(c) || c == '-' || c == '=') {
            assert(cleaned_secret(a) + cleaned_secret(b.drop_last()) + uppercase_of(c)
                =~= cleaned_secret(a) + (cleaned_secret(b.drop_last()) + uppercase_of(c)));
        }
    }
}

/// Whitespace, `-` and `=` anywhere in a secret change neither its key nor
/// its codes: `gezd gnbv-...====` and `GEZDGNBV...` stand for the same key.
pub proof fn lemma_separators_ignored(a: Seq<char>, b: Seq<char>, c: char, t: u64)
    requires
        is_white_space(c) || c == '-' || c == '=',
    ensures
        key_from_secret(a + seq![c] + b) == key_from_secret(a + b),
        code_for_secret(a + seq![c] + b, t) == code_for_secret(a + b, t),
{
    lemma_cleaned_secret_concat(a + seq![c], b);
    lemma_cleaned_secret_concat(a, seq![c]);
    lemma_cleaned_secret_concat(a, b);
    assert(seq![c].drop_last() =~= Seq::<char>::empty());
    assert(cleaned_secret(Seq::<char>::empty()) =~= Seq::<char>::empty());
    assert(cleaned_secret(seq![c]) =~= Seq::<char>::empty());
    assert(cleaned_secret(a) + cleaned_secret(seq![c]) =~= cleaned_secret(a));
}

/// Two texts that differ at most in the case of ASCII letters.
pub open spec fn same_but_ascii_case(s1: Seq<char>, s2: Seq<char>) -> bool {
    &&& s1.len() == s2.len()
    &&& forall|i: int|
        0 <= i < s1.len() ==> #[trigger] s1[i] == #[trigger] s2[i] || (is_ascii_letter(s1[i])
            && is_ascii_letter(s2[i]) && ascii_upper(s1[i]) == ascii_upper(s2[i]))
}

/// Switching ASCII letters between lower and upper case changes neither the
/// key nor the codes of a secret: `gezdgnbv...` and `GEZDGNBV...` stand for
/// the same key.
pub proof fn lemma_ascii_case_ignored(s1: Seq<char>, s2: Seq<char>, t: u64)
    requires
        same_but_ascii_case(s1, s2),
    ensures
        cleaned_secret(s1) == cleaned_secret(s2),
        key_from_secret(s1) == key_from_secret(s2),
        code_for_secret(s1, t) == code_for_secret(s2, t),
    decreases s1.len(),
{
    if s1.len() > 0 {
        let d1 = s1.drop_last();
        let d2 = s2.drop_last();
        assert(same_but_ascii_case(d1, d2)) by {
            assert forall|i: int| 0 <= i < d1.len() implies #[trigger] d1[i] == #[trigger] d2[i] || (
            is_ascii_letter(d1[i]) && is_ascii_letter(d2[i]) && ascii_upper(d1[i]) == ascii_upper(
                d2[i],
            )) by {
                assert(d1[i] == s1[i] && d2[i] == s2[i]);
            }
        }
        lemma_ascii_case_ignored(d1, d2, t);
        let c1 = s1.last();
        let c2 = s2.last();
        assert(c1 == s1[s1.len() - 1] && c2 == s2[s2.len() - 1]);
    }
}

/// The key of a secret is everything that Base32 decoding of the cleaned
/// secret gives: every decoded byte, nothing cut or added.
pub proof fn lemma_key_is_whole_decoding(s: Seq<char>)
    ensures
        key_from_secret(s) matches Ok(k) ==> base32_nopad_decoded(encode_utf8(cleaned_secret(s)))
            == Ok::<Seq<u8>, Base32Error>(k),
{
}

/// The code of a secret is computed from its whole key, of whatever length:
/// HMAC-SHA1 under all key bytes of the eight big-endian bytes of the
/// 30-second step count, dynamic truncation, then the last six decimal
/// digits. A secret without a key gives its error instead.
pub proof fn lemma_code_uses_whole_key(s: Seq<char>, t: u64)
    ensures
        key_from_secret(s) matches Ok(k) ==> code_for_secret(s, t) == Ok::<Seq<char>, Seq<char>>(
            six_digits(truncated(hmac_sha1_tag(k, be_bytes(t / 30))) % 1000000),
        ),
        key_from_secret(s) matches Err(m) ==> code_for_secret(s, t) == Err::<Seq<char>, Seq<char>>(
            m,
        ),
{
}

/// A code stays the same for every time inside one 30-second step.
pub proof fn lemma_code_steady_within_step(key: Seq<u8>, t1: u64, t2: u64)
    requires
        time_step(t1) == time_step(t2),
    ensures
        totp_code(key, t1) == totp_code(key, t2),
{
}

/// The countdown is exact: for `seconds_left(t)` seconds from `t` the time
/// step (and so the code) stays the same, and right after them the next
/// step begins.
pub proof fn lemma_countdown_reaches_next_step(t: u64)
    requires
        t + seconds_left(t) <= u64::MAX,
    ensures
        time_step((t + seconds_left(t)) as u64) == time_step(t) + 1,
        forall|d: u64|
            d < seconds_left(t) ==> #[trigger] time_step((t + d) as u64) == time_step(t),
{
    assert forall|d: u64| d < seconds_left(t) implies #[trigger] time_step((t + d) as u64)
        == time_step(t) by {
        assert((t + d) / 30 == t / 30) by (nonlinear_arith)
            requires
                d < 30 - t % 30,
        ;
    }
    assert((t + (30 - t % 30)) / 30 == t / 30 + 1) by (nonlinear_arith);
}

} // verus!
