//! Human-readable rendering of durations and byte sizes for the
//! run summary and the reports.
//!
//! Fractions are carried to two decimal places, rounded to the
//! nearest (ties away from zero); the unit changes at the same
//! thresholds a reader expects (µs, ms, s, minutes; B, KB, MB, GB
//! with 1024-byte steps).

use vstd::prelude::*;
use crate::numbers::{push_u64_digits, digit_char, spec_digits};
use crate::wrappers::chars_to_text;

verus! {

/// Two zero-padded decimal places of a fraction below one hundred.
pub open spec fn spec_2digits(f: int) -> Seq<char>
    recommends
        0 <= f < 100,
{
    seq![digit_char(f / 10), digit_char(f % 10)]
}

/// The rendering of a duration of `nanos` nanoseconds: whole
/// microseconds under a millisecond; fractional milliseconds under a
/// second; fractional seconds under a minute; else minutes and
/// fractional seconds.
pub open spec fn spec_format_duration(nanos: int) -> Seq<char>
    recommends
        nanos >= 0,
{
    let micros = nanos / 1000;
    if micros < 1000 {
        spec_digits(micros) + "µs"@
    } else if micros < 1_000_000 {
        let h = (micros + 5) / 10;
        spec_digits(h / 100) + "."@ + spec_2digits(h % 100) + "ms"@
    } else if micros < 60_000_000 {
        let h = (micros + 5000) / 10_000;
        spec_digits(h / 100) + "."@ + spec_2digits(h % 100) + "s"@
    } else {
        let h = (micros % 60_000_000 + 5000) / 10_000;
        spec_digits(micros / 60_000_000) + "m"@ + spec_digits(h / 100) + "."@ + spec_2digits(
            h % 100,
        ) + "s"@
    }
}

/// Append two zero-padded decimal places.
fn push_2digits(f: u64, out: &mut Vec<char>)
    requires
        f < 100,
    ensures
        final(out)@ == old(out)@ + spec_2digits(f as int),
{
    out.push((48 + (f / 10) as u8) as char);
    out.push((48 + (f % 10) as u8) as char);
    proof {
        assert(final(out)@ =~= old(out)@ + spec_2digits(f as int));
    }
}

/// Append the characters of a string literal.
fn push_str_chars(s: &str, out: &mut Vec<char>)
    ensures
        final(out)@ == old(out)@ + s@,
{
    let chars = crate::wrappers::text_to_chars(s);
    let mut i: usize = 0;
    while i < chars.len()
        invariant
            i <= chars@.len(),
            chars@ == s@,
            out@ == old(out)@ + s@.take(i as int),
        decreases chars@.len() - i,
    {
        out.push(chars[i]);
        proof {
            assert(old(out)@ + s@.take(i as int) + seq![s@[i as int]] =~= old(out)@
                + s@.take(i + 1));
        }
        i = i + 1;
    }
    proof {
        assert(old(out)@ + s@.take(s@.len() as int) =~= old(out)@ + s@);
    }
}

/// Render a duration of `nanos` nanoseconds in a human-readable form.
pub fn format_duration(nanos: u64) -> (r: String)
    ensures
        r@ == spec_format_duration(nanos as int),
{
    let micros = nanos / 1000;
    let mut out: Vec<char> = Vec::new();
    if micros < 1000 {
        push_u64_digits(micros, &mut out);
        push_str_chars("µs", &mut out);
    } else if micros < 1_000_000 {
        let h = (micros + 5) / 10;
        push_u64_digits(h / 100, &mut out);
        push_str_chars(".", &mut out);
        push_2digits(h % 100, &mut out);
        push_str_chars("ms", &mut out);
    } else if micros < 60_000_000 {
        let h = (micros + 5000) / 10_000;
        push_u64_digits(h / 100, &mut out);
        push_str_chars(".", &mut out);
        push_2digits(h % 100, &mut out);
        push_str_chars("s", &mut out);
    } else {
        let h = (micros % 60_000_000 + 5000) / 10_000;
        push_u64_digits(micros / 60_000_000, &mut out);
        push_str_chars("m", &mut out);
        push_u64_digits(h / 100, &mut out);
        push_str_chars(".", &mut out);
        push_2digits(h % 100, &mut out);
        push_str_chars("s", &mut out);
    }
    chars_to_text(&out)
}

/// The rendering of a byte count: whole bytes under a kilobyte, else
/// two rounded-down decimal places of the next unit, in 1024-byte
/// steps up to gigabytes.
pub open spec fn spec_format_size(size: int) -> Seq<char>
    recommends
        size >= 0,
{
    if size < 1024 {
        spec_digits(size) + "B"@
    } else if size < 1024int * 1024 {
        let h = (size * 100 + 512) / 1024;
        spec_digits(h / 100) + "."@ + spec_2digits(h % 100) + "KB"@
    } else if size < 1024int * 1024 * 1024 {
        let h = (size * 100 + 524_288) / (1024int * 1024);
        spec_digits(h / 100) + "."@ + spec_2digits(h % 100) + "MB"@
    } else {
        let h = (size * 100 + 536_870_912) / (1024int * 1024 * 1024);
        spec_digits(h / 100) + "."@ + spec_2digits(h % 100) + "GB"@
    }
}

/// Render a byte count in a human-readable form.
pub fn format_size(size: usize) -> (r: String)
    ensures
        r@ == spec_format_size(size as int),
{
    let s = size as u64;
    let mut out: Vec<char> = Vec::new();
    proof {
        lemma_size_hundredths(s as int);
    }
    if s < 1024 {
        push_u64_digits(s, &mut out);
        push_str_chars("B", &mut out);
    } else if s < 1024 * 1024 {
        let h = ((s as u128 * 100 + 512) / 1024) as u64;
        push_u64_digits(h / 100, &mut out);
        push_str_chars(".", &mut out);
        push_2digits(h % 100, &mut out);
        push_str_chars("KB", &mut out);
    } else if s < 1024 * 1024 * 1024 {
        let h = ((s as u128 * 100 + 524_288) / (1024 * 1024)) as u64;
        push_u64_digits(h / 100, &mut out);
        push_str_chars(".", &mut out);
        push_2digits(h % 100, &mut out);
        push_str_chars("MB", &mut out);
    } else {
        let h = ((s as u128 * 100 + 536_870_912) / (1024 * 1024 * 1024)) as u64;
        push_u64_digits(h / 100, &mut out);
        push_str_chars(".", &mut out);
        push_2digits(h % 100, &mut out);
        push_str_chars("GB", &mut out);
    }
    chars_to_text(&out)
}

/// The rounded hundredths of a size under each unit stay within the
/// machine word: a size never exceeds its own hundredths under a
/// kilobyte-or-larger divisor by much.
proof fn lemma_size_hundredths(s: int)
    requires
        0 <= s <= u64::MAX,
    ensures
        0 <= (s * 100 + 512) / 1024 <= u64::MAX,
        0 <= (s * 100 + 524_288) / (1024int * 1024) <= u64::MAX,
        0 <= (s * 100 + 536_870_912) / (1024int * 1024 * 1024) <= u64::MAX,
        s * 100 + 512 <= 0xFFFF_FFFF_FFFF_FFFF_FFFF_FFFF_FFFF_FFFF,
        s * 100 + 524_288 <= 0xFFFF_FFFF_FFFF_FFFF_FFFF_FFFF_FFFF_FFFF,
        s * 100 + 536_870_912 <= 0xFFFF_FFFF_FFFF_FFFF_FFFF_FFFF_FFFF_FFFF,
        s * 100 >= 0,
{
    vstd::arithmetic::mul::lemma_mul_upper_bound(s, u64::MAX as int, 100, 100);
    vstd::arithmetic::mul::lemma_mul_basics_4(s * 100);
    assert(s * 100 >= 0) by (nonlinear_arith)
        requires
            s >= 0,
    ;
    assert(18_446_744_073_709_551_615int * 100 + 536_870_912
        <= 0xFFFF_FFFF_FFFF_FFFF_FFFF_FFFF_FFFF_FFFF) by (nonlinear_arith);
    assert(u64::MAX as int == 18_446_744_073_709_551_615int);
    vstd::arithmetic::div_mod::lemma_div_is_ordered(
        s * 100 + 512,
        s * 100 + 536_870_912,
        1024,
    );
    vstd::arithmetic::div_mod::lemma_div_is_ordered_by_denominator(
        s * 100 + 536_870_912,
        1024,
        1024int * 1024,
    );
    vstd::arithmetic::div_mod::lemma_div_is_ordered_by_denominator(
        s * 100 + 536_870_912,
        1024,
        1024int * 1024 * 1024,
    );
    vstd::arithmetic::div_mod::lemma_div_is_ordered(
        s * 100 + 524_288,
        s * 100 + 536_870_912,
        1024int * 1024,
    );
    assert((s * 100 + 536_870_912) / 1024 <= u64::MAX) by {
        vstd::arithmetic::div_mod::lemma_div_is_ordered(
            s * 100 + 536_870_912,
            18_446_744_073_709_551_615int * 100 + 536_870_912,
            1024,
        );
        assert((18_446_744_073_709_551_615int * 100 + 536_870_912) / 1024
            <= 18_446_744_073_709_551_615int) by (nonlinear_arith);
    }
    vstd::arithmetic::div_mod::lemma_div_basics_4(s * 100 + 512, 1024);
    vstd::arithmetic::div_mod::lemma_div_basics_4(s * 100 + 524_288, 1024int * 1024);
    vstd::arithmetic::div_mod::lemma_div_basics_4(
        s * 100 + 536_870_912,
        1024int * 1024 * 1024,
    );
}

} // verus!
