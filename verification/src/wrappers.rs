//! The library's trusted boundary: the few outside calls the verified
//! code relies on, each behind one wrapper whose contract Verus
//! believes.

use vstd::prelude::*;

verus! {

/// Turn text into its character sequence.
///
/// Relies on str::chars (std): the iterator yields exactly the
/// characters of the text, in order; each is a Unicode scalar value,
/// as Rust guarantees of every char.
#[verifier::external_body]
pub fn text_to_chars(s: &str) -> (r: Vec<char>)
    ensures
        r@ == s@,
        crate::models::text_ok(r@),
{
    s.chars().collect()
}

/// Turn a character sequence back into text.
///
/// Relies on String::from_iter (std): collecting characters builds
/// the text holding exactly those characters, in order.
#[verifier::external_body]
pub fn chars_to_text(v: &Vec<char>) -> (r: String)
    ensures
        r@ == v@,
{
    v.iter().collect()
}

/// What humantime's duration grammar makes of a string: seconds and
/// subsecond nanoseconds, or nothing when the string does not parse.
/// The result depends on the characters alone.
pub uninterp spec fn parsed_duration(s: Seq<char>) -> Option<(u64, u32)>;

/// Parse a human-readable duration ("1s", "500ms", "2h 37min").
///
/// Relies on humantime::parse_duration: a pure function of the input
/// text, returning the spanned seconds and nanoseconds on success.
/// The parser's arithmetic is checked except for one normalization:
/// when its running nanoseconds reach exactly one billion while its
/// seconds counter sits at the machine word's maximum, building the
/// std duration aborts.  The bound required here keeps the seconds
/// counter below the maximum at every step.  A number in the grammar
/// is digits joined across whitespace; the bound joins across every
/// character that is neither a unit letter nor a dot — on whitespace
/// that is the grammar's own reading, and on anything else the
/// grammar stops with an error before the span could count — and
/// charges each span its capped joined value under its unit's
/// multiplier, plus a fraction, a floor division and a carry, so the
/// aborting state is unreachable.
#[verifier::external_body]
pub fn parse_duration_text(s: &str) -> (r: Option<(u64, u32)>)
    requires
        crate::durations::spec_secs_bound(s@, 0) < u64::MAX,
    ensures
        r == parsed_duration(s@),
        r matches Some(p) ==> p.1 < 1_000_000_000,
{
    match humantime::parse_duration(s) {
        Ok(d) => Some((d.as_secs(), d.subsec_nanos())),
        Err(_) => None,
    }
}

/// What the URL grammar makes of a string: the parsed URL in its
/// serialized (normalized) form, or nothing when the string is no
/// absolute URL.  The result depends on the characters alone.
pub uninterp spec fn parsed_url(s: Seq<char>) -> Option<Seq<char>>;

/// Parse and normalize an absolute URL.
///
/// Relies on url::Url::parse and its Display serialization: a pure
/// function of the input text, returning the serialized URL on
/// success.
#[verifier::external_body]
pub fn parse_url_text(s: &str) -> (r: Option<String>)
    ensures
        match r {
            Some(u) => parsed_url(s@) == Some(u@),
            None => parsed_url(s@) is None,
        },
{
    match url::Url::parse(s) {
        Ok(u) => Some(u.to_string()),
        Err(_) => None,
    }
}

} // verus!
