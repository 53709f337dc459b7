//! What the user interface is shown for each entry: the stored fields plus
//! the current code, the seconds it stays valid, and any problem with the secret.

use crate::text::{is_blank, is_blank_text};
use crate::totp::{code, code_for_secret, remaining_seconds, seconds_left, PERIOD};
use crate::vault::{text_of, Entry};
use std::time::{Duration, SystemTime, SystemTimeError, UNIX_EPOCH};
use vstd::prelude::*;

verus! {

#[verifier::external_type_specification]
#[verifier::external_body]
pub struct ExSystemTime(std::time::SystemTime);

#[verifier::external_type_specification]
#[verifier::external_body]
pub struct ExSystemTimeError(std::time::SystemTimeError);

/// Wraps `SystemTime::now`: a reading of the system clock. Nothing is
/// promised of it.
#[verifier::external_body]
fn system_time_now() -> SystemTime {
    SystemTime::now()
}

/// Wraps `SystemTime::duration_since` against `UNIX_EPOCH`: an error when
/// the clock reads earlier than 1970. Nothing more is promised of it.
#[verifier::external_body]
fn since_unix_epoch(t: &SystemTime) -> Result<Duration, SystemTimeError> {
    t.duration_since(UNIX_EPOCH)
}

/// Wraps `Duration::as_secs`: the whole seconds of `d`. `Duration` is opaque
/// here, so nothing is stated of the number.
#[verifier::external_body]
fn duration_secs(d: &Duration) -> u64 {
    d.as_secs()
}

/// The current Unix time in seconds; 0 when the clock reads earlier than 1970.
/// Any value may come back: it is the clock's.
pub fn now() -> u64 {
    match since_unix_epoch(&system_time_now()) {
        Ok(d) => duration_secs(&d),
        Err(_) => 0,
    }
}

/// An entry as shown to the user.
pub struct EntryView {
    pub label: String,
    pub account: String,
    pub secret: Option<String>,
    pub codes: Option<Vec<String>>,
    pub note: Option<String>,
    /// The current six-digit code; `None` without a usable secret.
    pub code: Option<String>,
    /// Seconds the current code stays valid (1 to 30).
    pub remaining: u64,
    /// Why the secret gives no code; `None` when it does, or when there is none.
    pub error: Option<String>,
}

/// The code and the error shown for a secret at time `t`: a code when the
/// secret gives one, an error message when it does not, and neither when
/// there is no secret or it is blank.
pub open spec fn code_and_error(secret: Option<Seq<char>>, t: u64) -> (
    Option<Seq<char>>,
    Option<Seq<char>>,
) {
    match secret {
        Some(s) => if is_blank(s) {
            (None, None)
        } else {
            match code_for_secret(s, t) {
                Ok(c) => (Some(c), None),
                Err(m) => (None, Some(m)),
            }
        },
        None => (None, None),
    }
}

/// `v` shows entry `e` at Unix time `t`.
pub open spec fn shows(v: EntryView, e: Entry, t: u64) -> bool {
    &&& v.label == e.label
    &&& v.account == e.account
    &&& v.secret == e.secret
    &&& v.codes == e.codes
    &&& v.note == e.note
    &&& (text_of(v.code), text_of(v.error)) == code_and_error(text_of(e.secret), t)
    &&& v.remaining == seconds_left(t)
}

/// `v` shows entry `e` at some Unix time.
pub open spec fn shows_at_some_time(v: EntryView, e: Entry) -> bool {
    exists|t: u64| shows(v, e, t)
}

/// The view of an entry at a given Unix time.
pub fn to_view_at(e: Entry, t: u64) -> (v: EntryView)
    ensures
        shows(v, e, t),
        1 <= v.remaining <= PERIOD,
        !(v.code is Some && v.error is Some),
{
    let (code, error) = match &e.secret {
        Some(s) => if is_blank_text(s.as_str()) {
            (None, None)
        } else {
            match code(s.as_str(), t) {
                Ok(c) => (Some(c), None),
                Err(m) => (None, Some(m)),
            }
        },
        None => (None, None),
    };
    EntryView {
        label: e.label,
        account: e.account,
        secret: e.secret,
        codes: e.codes,
        note: e.note,
        code,
        remaining: remaining_seconds(t),
        error,
    }
}

/// The view of an entry now (at the time the clock reads).
pub fn to_view(e: Entry) -> (v: EntryView)
    ensures
        shows_at_some_time(v, e),
{
    let t = now();
    let v = to_view_at(e, t);
    assert(shows(v, e, t));
    v
}

/// The views of all entries, in order, each at the time the clock read
/// when it was made.
pub fn to_views(entries: Vec<Entry>) -> (vs: Vec<EntryView>)
    ensures
        vs@.len() == entries@.len(),
        forall|i: int| 0 <= i < vs@.len() ==> shows_at_some_time(#[trigger] vs@[i], entries@[i]),
{
    let ghost orig = entries@;
    let mut vs: Vec<EntryView> = Vec::new();
    for e in it: entries.into_iter()
        invariant
            it.seq() == orig,
            vs@.len() == it.index(),
            forall|i: int| 0 <= i < vs@.len() ==> shows_at_some_time(#[trigger] vs@[i], orig[i]),
    {
        let v = to_view(e);
        let ghost before = vs@;
        vs.push(v);
        assert forall|i: int| 0 <= i < vs@.len() implies shows_at_some_time(#[trigger] vs@[i], orig[i]) by {
            if i < before.len() {
                assert(vs@[i] == before[i]);
            }
        }
    }
    vs
}

} // verus!
