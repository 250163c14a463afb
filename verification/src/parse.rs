//! Parsing of the engine's textual inputs: the rate string, header
//! lines, and the line-oriented target list.
//!
//! Each parser's contract says exactly on which inputs it succeeds
//! and what it returns; reading the files themselves happens outside
//! the library, which receives the text as plain values.

use vstd::prelude::*;
use crate::models::{Header, Target};
use crate::numbers::{digit_run_end, seq_val};
use crate::wrappers::{chars_to_text, parse_duration_text, parse_url_text, parsed_duration,
    parsed_url, text_to_chars};

verus! {

/// The ASCII whitespace the parsers strip.
pub open spec fn is_space(c: char) -> bool {
    c == ' ' || c == '\t' || c == '\r' || c == '\n'
}

/// The first index at or after `i` holding no whitespace.
pub open spec fn skip_ws_front(s: Seq<char>, i: int) -> int
    recommends
        0 <= i <= s.len(),
    decreases s.len() - i,
{
    if i < s.len() && is_space(s[i]) {
        skip_ws_front(s, i + 1)
    } else {
        i
    }
}

/// The first index at or before `j` with no whitespace right before it.
pub open spec fn skip_ws_back(s: Seq<char>, j: int) -> int
    recommends
        0 <= j <= s.len(),
    decreases j,
{
    if j > 0 && is_space(s[j - 1]) {
        skip_ws_back(s, j - 1)
    } else {
        j
    }
}

/// The text with leading and trailing whitespace removed.
pub open spec fn spec_trim(s: Seq<char>) -> Seq<char> {
    let f = skip_ws_front(s, 0);
    let b = skip_ws_back(s, s.len() as int);
    if f >= b {
        Seq::empty()
    } else {
        s.subrange(f, b)
    }
}

proof fn lemma_skip_ws_front_facts(s: Seq<char>, i: int)
    requires
        0 <= i <= s.len(),
    ensures
        i <= skip_ws_front(s, i) <= s.len(),
        forall|k: int| i <= k < skip_ws_front(s, i) ==> is_space(#[trigger] s[k]),
        skip_ws_front(s, i) == s.len() || !is_space(s[skip_ws_front(s, i)]),
    decreases s.len() - i,
{
    if i < s.len() && is_space(s[i]) {
        lemma_skip_ws_front_facts(s, i + 1);
    }
}

proof fn lemma_skip_ws_front_step(s: Seq<char>, i: int, j: int)
    requires
        0 <= i <= j <= s.len(),
        forall|k: int| i <= k < j ==> is_space(#[trigger] s[k]),
    ensures
        skip_ws_front(s, i) == skip_ws_front(s, j),
    decreases j - i,
{
    if i < j {
        lemma_skip_ws_front_step(s, i + 1, j);
    }
}

proof fn lemma_skip_ws_back_facts(s: Seq<char>, j: int)
    requires
        0 <= j <= s.len(),
    ensures
        0 <= skip_ws_back(s, j) <= j,
        forall|k: int| skip_ws_back(s, j) <= k < j ==> is_space(#[trigger] s[k]),
        skip_ws_back(s, j) == 0 || !is_space(s[skip_ws_back(s, j) - 1]),
    decreases j,
{
    if j > 0 && is_space(s[j - 1]) {
        lemma_skip_ws_back_facts(s, j - 1);
    }
}

proof fn lemma_skip_ws_back_step(s: Seq<char>, i: int, j: int)
    requires
        0 <= i <= j <= s.len(),
        forall|k: int| i <= k < j ==> is_space(#[trigger] s[k]),
    ensures
        skip_ws_back(s, j) == skip_ws_back(s, i),
    decreases j - i,
{
    if i < j {
        lemma_skip_ws_back_step(s, i, j - 1);
    }
}

/// Strip leading and trailing ASCII whitespace.
pub fn trim_chars(v: &Vec<char>) -> (r: Vec<char>)
    ensures
        r@ == spec_trim(v@),
{
    proof {
        lemma_skip_ws_front_facts(v@, 0);
        lemma_skip_ws_back_facts(v@, v@.len() as int);
    }
    let mut f: usize = 0;
    while f < v.len() && (v[f] == ' ' || v[f] == '\t' || v[f] == '\r' || v[f] == '\n')
        invariant
            0 <= f <= v@.len(),
            forall|k: int| 0 <= k < f ==> is_space(#[trigger] v@[k]),
        decreases v@.len() - f,
    {
        f = f + 1;
    }
    proof {
        lemma_skip_ws_front_step(v@, 0, f as int);
        assert(skip_ws_front(v@, 0) == f);
    }
    let mut b: usize = v.len();
    while b > f && (v[b - 1] == ' ' || v[b - 1] == '\t' || v[b - 1] == '\r' || v[b - 1]
        == '\n')
        invariant
            f <= b <= v@.len(),
            forall|k: int| b <= k < v@.len() ==> is_space(#[trigger] v@[k]),
        decreases b,
    {
        b = b - 1;
    }
    proof {
        lemma_skip_ws_back_step(v@, b as int, v@.len() as int);
        if b > f {
            assert(skip_ws_back(v@, v@.len() as int) == b);
        } else {
            assert(b == f);
            lemma_skip_ws_back_facts(v@, b as int);
            assert(skip_ws_back(v@, v@.len() as int) <= b);
        }
    }
    let mut r: Vec<char> = Vec::new();
    let mut i: usize = f;
    while i < b
        invariant
            f <= i <= b <= v@.len(),
            r@ == v@.subrange(f as int, i as int),
        decreases b - i,
    {
        r.push(v[i]);
        proof {
            assert(r@ =~= v@.subrange(f as int, i + 1));
        }
        i = i + 1;
    }
    proof {
        if f < b {
            assert(skip_ws_back(v@, v@.len() as int) == b);
            assert(r@ =~= spec_trim(v@));
        } else {
            assert(r@ =~= Seq::<char>::empty());
            let sf = skip_ws_front(v@, 0);
            let sb = skip_ws_back(v@, v@.len() as int);
            assert(sf >= sb || v@.subrange(sf, sb) =~= Seq::<char>::empty());
        }
    }
    r
}

/// The first index at or after `i` holding `c`, or the end.
pub open spec fn find_char(s: Seq<char>, c: char, i: int) -> int
    recommends
        0 <= i <= s.len(),
    decreases s.len() - i,
{
    if i >= s.len() {
        s.len() as int
    } else if s[i] == c {
        i
    } else {
        find_char(s, c, i + 1)
    }
}

proof fn lemma_find_char_facts(s: Seq<char>, c: char, i: int)
    requires
        0 <= i <= s.len(),
    ensures
        i <= find_char(s, c, i) <= s.len(),
        forall|k: int| i <= k < find_char(s, c, i) ==> s[k] != c,
        find_char(s, c, i) < s.len() ==> s[find_char(s, c, i)] == c,
    decreases s.len() - i,
{
    if i < s.len() && s[i] != c {
        lemma_find_char_facts(s, c, i + 1);
    }
}

proof fn lemma_find_char_step(s: Seq<char>, c: char, i: int, j: int)
    requires
        0 <= i <= j <= s.len(),
        forall|k: int| i <= k < j ==> s[k] != c,
    ensures
        find_char(s, c, i) == find_char(s, c, j),
    decreases j - i,
{
    if i < j {
        lemma_find_char_step(s, c, i + 1, j);
    }
}

/// Find the first occurrence of a character, starting at `from`.
pub fn find_char_at(v: &Vec<char>, c: char, from: usize) -> (r: usize)
    requires
        from <= v@.len(),
    ensures
        r == find_char(v@, c, from as int),
        from <= r <= v@.len(),
{
    proof {
        lemma_find_char_facts(v@, c, from as int);
    }
    let mut i: usize = from;
    while i < v.len() && v[i] != c
        invariant
            from <= i <= v@.len(),
            forall|k: int| from <= k < i ==> v@[k] != c,
        decreases v@.len() - i,
    {
        i = i + 1;
    }
    proof {
        lemma_find_char_step(v@, c, from as int, i as int);
    }
    i
}

/// Copy the characters in `[from, to)`.
pub fn subrange_chars(v: &Vec<char>, from: usize, to: usize) -> (r: Vec<char>)
    requires
        from <= to <= v@.len(),
    ensures
        r@ == v@.subrange(from as int, to as int),
{
    let mut r: Vec<char> = Vec::new();
    let mut i: usize = from;
    while i < to
        invariant
            from <= i <= to <= v@.len(),
            r@ == v@.subrange(from as int, i as int),
        decreases to - i,
    {
        r.push(v[i]);
        proof {
            assert(r@ =~= v@.subrange(from as int, i + 1));
        }
        i = i + 1;
    }
    r
}

/// A request rate as the engine schedules it: `requests` per
/// `window` nanoseconds.
#[derive(PartialEq, Eq, Structural, Clone, Copy, Debug)]
pub struct Rate {
    /// Requests per window
    pub requests: u64,
    /// Window in nanoseconds, positive
    pub window: u64,
}

/// Why a rate string was rejected.
#[derive(PartialEq, Eq, Structural, Clone, Copy, Debug)]
pub enum RateError {
    /// Not exactly one `/` between a count and a duration
    BadShape,
    /// The part before the `/` is no canonical machine-word number
    BadCount,
    /// The part after the `/` is no duration
    BadDuration,
    /// The duration is zero
    ZeroDuration,
    /// The duration exceeds what the engine's clock can hold
    DurationTooLarge,
    /// The count, or the window scaled to make it whole, exceeds the
    /// machine word
    OutOfRange,
}

/// Ten to the `k`.
pub open spec fn pow10(k: nat) -> int
    decreases k,
{
    if k == 0 {
        1
    } else {
        10 * pow10((k - 1) as nat)
    }
}

/// Powers of ten are positive and grow with the exponent.
pub proof fn lemma_pow10_facts(a: nat, b: nat)
    requires
        a <= b,
    ensures
        1 <= pow10(a) <= pow10(b),
    decreases b,
{
    if b > 0 {
        if a == b {
            lemma_pow10_facts(0, (b - 1) as nat);
            assert(pow10(b) == 10 * pow10((b - 1) as nat));
            vstd::arithmetic::mul::lemma_mul_inequality(1, pow10((b - 1) as nat), 10);
            vstd::arithmetic::mul::lemma_mul_is_commutative(pow10((b - 1) as nat), 10);
            vstd::arithmetic::mul::lemma_mul_basics(10);
        } else {
            lemma_pow10_facts(a, (b - 1) as nat);
            vstd::arithmetic::mul::lemma_mul_inequality(1, pow10((b - 1) as nat), 10);
            vstd::arithmetic::mul::lemma_mul_is_commutative(pow10((b - 1) as nat), 10);
            vstd::arithmetic::mul::lemma_mul_basics(10);
        }
    }
}

/// Ten to the `k` for exponents within the machine word.
pub fn pow10_u64(k: usize) -> (r: u64)
    requires
        k <= 19,
    ensures
        r == pow10(k as nat),
{
    proof {
        reveal_with_fuel(pow10, 21);
    }
    if k == 0 {
        1
    } else if k == 1 {
        10
    } else if k == 2 {
        100
    } else if k == 3 {
        1_000
    } else if k == 4 {
        10_000
    } else if k == 5 {
        100_000
    } else if k == 6 {
        1_000_000
    } else if k == 7 {
        10_000_000
    } else if k == 8 {
        100_000_000
    } else if k == 9 {
        1_000_000_000
    } else if k == 10 {
        10_000_000_000
    } else if k == 11 {
        100_000_000_000
    } else if k == 12 {
        1_000_000_000_000
    } else if k == 13 {
        10_000_000_000_000
    } else if k == 14 {
        100_000_000_000_000
    } else if k == 15 {
        1_000_000_000_000_000
    } else if k == 16 {
        10_000_000_000_000_000
    } else if k == 17 {
        100_000_000_000_000_000
    } else if k == 18 {
        1_000_000_000_000_000_000
    } else {
        10_000_000_000_000_000_000
    }
}

/// Whether the count before the slash is a plain decimal: a digit
/// run, optionally a dot and a further digit run, nothing else, and
/// at least one digit.
pub open spec fn spec_count_shape_ok(left: Seq<char>) -> bool {
    let e1 = digit_run_end(left, 0);
    if e1 < left.len() && left[e1] == '.' {
        let e2 = digit_run_end(left, e1 + 1);
        e2 == left.len() && (e1 > 0 || e2 > e1 + 1)
    } else {
        e1 == left.len() && left.len() > 0
    }
}

/// The count's scale: how many fractional digits it carries.
pub open spec fn spec_count_scale(left: Seq<char>) -> nat {
    let e1 = digit_run_end(left, 0);
    if e1 < left.len() && left[e1] == '.' {
        (digit_run_end(left, e1 + 1) - e1 - 1) as nat
    } else {
        0
    }
}

/// The count as a whole number of requests per scaled window: the
/// decimal with its dot removed.
pub open spec fn spec_count_value(left: Seq<char>) -> int {
    let e1 = digit_run_end(left, 0);
    if e1 < left.len() && left[e1] == '.' {
        let e2 = digit_run_end(left, e1 + 1);
        seq_val(left.subrange(0, e1)) * pow10(spec_count_scale(left)) + seq_val(
            left.subrange(e1 + 1, e2),
        )
    } else {
        seq_val(left.subrange(0, e1))
    }
}

/// The nanosecond window a parsed duration denotes, when it fits the
/// engine's clock.
pub open spec fn spec_window_nanos(p: (u64, u32)) -> Option<u64> {
    if p.0 * 1_000_000_000 + p.1 <= u64::MAX {
        Some((p.0 * 1_000_000_000 + p.1) as u64)
    } else {
        None
    }
}

/// What `parse_rate` makes of its input: the text split at its first
/// `/`, the left side read as a canonical number, the right side as a
/// duration.
pub open spec fn spec_rate_of(s: Seq<char>) -> Result<Rate, RateError> {
    let cut = find_char(s, '/', 0);
    if cut >= s.len() || find_char(s, '/', cut + 1) < s.len() {
        Err(RateError::BadShape)
    } else {
        let left = s.subrange(0, cut);
        let right = s.subrange(cut + 1, s.len() as int);
        if !spec_count_shape_ok(left) {
            Err(RateError::BadCount)
        } else if spec_count_value(left) > u64::MAX {
            Err(RateError::OutOfRange)
        } else if crate::durations::spec_secs_bound(right, 0) >= u64::MAX {
            Err(RateError::DurationTooLarge)
        } else {
            match parsed_duration(right) {
                None => Err(RateError::BadDuration),
                Some(p) => if p.0 == 0 && p.1 == 0 {
                    Err(RateError::ZeroDuration)
                } else {
                    match spec_window_nanos(p) {
                        None => Err(RateError::DurationTooLarge),
                        Some(w) => if w * pow10(spec_count_scale(left)) > u64::MAX {
                            Err(RateError::OutOfRange)
                        } else {
                            Ok(
                                Rate {
                                    requests: spec_count_value(left) as u64,
                                    window: (w * pow10(spec_count_scale(left))) as u64,
                                },
                            )
                        },
                    }
                },
            }
        }
    }
}

/// Parse a rate string such as `50/1s` or `0.5/1s`: a plain decimal
/// request count, one slash, and a human-readable duration.  A
/// fractional count is made whole by scaling the window (`0.5/1s`
/// becomes 5 requests per 10 seconds).  Succeeds exactly when the
/// text has that shape, the count and the scaled window fit the
/// machine word, and the duration is positive and fits the engine's
/// nanosecond clock.
pub fn parse_rate(rate_str: &str) -> (r: Result<Rate, RateError>)
    ensures
        r == spec_rate_of(rate_str@),
        r matches Ok(rate) ==> rate.window > 0,
{
    let v = text_to_chars(rate_str);
    let cut = find_char_at(&v, '/', 0);
    if cut >= v.len() {
        return Err(RateError::BadShape);
    }
    let second = find_char_at(&v, '/', cut + 1);
    if second < v.len() {
        return Err(RateError::BadShape);
    }
    let left = subrange_chars(&v, 0, cut);
    let right = subrange_chars(&v, cut + 1, v.len());
    let e1 = crate::numbers::digit_run_end_at(&left, 0);
    let has_dot = e1 < left.len() && left[e1] == '.';
    let e2: usize = if has_dot {
        crate::numbers::digit_run_end_at(&left, e1 + 1)
    } else {
        e1
    };
    let shape_ok: bool = if has_dot {
        e2 == left.len() && (e1 > 0 || e2 > e1 + 1)
    } else {
        e1 == left.len() && left.len() > 0
    };
    if !shape_ok {
        return Err(RateError::BadCount);
    }
    let k: usize = if has_dot {
        e2 - e1 - 1
    } else {
        0
    };
    proof {
        assert(k == spec_count_scale(left@));
        crate::numbers::lemma_digit_run_end_facts(left@, 0);
        if has_dot {
            crate::numbers::lemma_digit_run_end_facts(left@, e1 + 1);
            crate::numbers::lemma_seq_val_nonneg(left@.subrange(e1 + 1, e2 as int));
        }
        crate::numbers::lemma_seq_val_nonneg(left@.subrange(0, e1 as int));
        lemma_pow10_facts(0, k as nat);
    }
    let int_val: u64 = if e1 == 0 {
        proof {
            assert(left@.subrange(0, 0) =~= Seq::<char>::empty());
        }
        0
    } else {
        match crate::numbers::parse_u64_lenient(&left, 0) {
            None => {
                proof {
                    lemma_count_int_overflow(left@, e1 as int, k as nat);
                }
                return Err(RateError::OutOfRange);
            },
            Some((val, _)) => val,
        }
    };
    let frac_val: u64 = if has_dot && e2 > e1 + 1 {
        match crate::numbers::parse_u64_lenient(&left, e1 + 1) {
            None => {
                proof {
                    lemma_count_frac_overflow(left@, e1 as int, e2 as int, k as nat);
                }
                return Err(RateError::OutOfRange);
            },
            Some((val, _)) => val,
        }
    } else {
        proof {
            if has_dot {
                assert(left@.subrange(e1 + 1, e2 as int) =~= Seq::<char>::empty());
            }
        }
        0
    };
    if k > 19 {
        if int_val > 0 {
            proof {
                lemma_count_scale_overflow(int_val as int, frac_val as int, k as nat);
                assert(spec_count_value(left@) > u64::MAX);
            }
            return Err(RateError::OutOfRange);
        }
    }
    let n_big: u128 = if k <= 19 {
        proof {
            lemma_pow10_fits(k as nat);
            vstd::arithmetic::mul::lemma_mul_upper_bound(
                int_val as int,
                u64::MAX as int,
                pow10(k as nat),
                10_000_000_000_000_000_000,
            );
            assert(u64::MAX as int == 18_446_744_073_709_551_615int);
            assert(18_446_744_073_709_551_615int * 10_000_000_000_000_000_000
                + 18_446_744_073_709_551_615int
                <= 0xFFFF_FFFF_FFFF_FFFF_FFFF_FFFF_FFFF_FFFFint) by (nonlinear_arith);
        }
        int_val as u128 * pow10_u64(k) as u128 + frac_val as u128
    } else {
        proof {
            vstd::arithmetic::mul::lemma_mul_basics(pow10(k as nat));
        }
        frac_val as u128
    };
    if n_big > u64::MAX as u128 {
        return Err(RateError::OutOfRange);
    }
    let requests = n_big as u64;
    if !crate::durations::duration_within_screen(&right) {
        return Err(RateError::DurationTooLarge);
    }
    let right_text = chars_to_text(&right);
    match parse_duration_text(right_text.as_str()) {
        None => Err(RateError::BadDuration),
        Some((secs, nanos)) => {
            if secs == 0 && nanos == 0 {
                return Err(RateError::ZeroDuration);
            }
            if secs > (u64::MAX - nanos as u64) / 1_000_000_000 {
                proof {
                    vstd::arithmetic::div_mod::lemma_fundamental_div_mod(
                        u64::MAX - nanos as int,
                        1_000_000_000,
                    );
                    assert(secs * 1_000_000_000 + nanos > u64::MAX) by (nonlinear_arith)
                        requires
                            secs > (u64::MAX - nanos as u64) / 1_000_000_000,
                            (u64::MAX - nanos as int) == ((u64::MAX - nanos as int)
                                / 1_000_000_000) * 1_000_000_000 + (u64::MAX - nanos as int)
                                % 1_000_000_000,
                            0 <= (u64::MAX - nanos as int) % 1_000_000_000 < 1_000_000_000,
                            nanos < 1_000_000_000,
                    ;
                }
                return Err(RateError::DurationTooLarge);
            }
            proof {
                vstd::arithmetic::div_mod::lemma_fundamental_div_mod(
                    u64::MAX - nanos as int,
                    1_000_000_000,
                );
                assert(secs * 1_000_000_000 + nanos <= u64::MAX) by (nonlinear_arith)
                    requires
                        secs <= (u64::MAX - nanos as u64) / 1_000_000_000,
                        (u64::MAX - nanos as int) == ((u64::MAX - nanos as int)
                            / 1_000_000_000) * 1_000_000_000 + (u64::MAX - nanos as int)
                            % 1_000_000_000,
                        0 <= (u64::MAX - nanos as int) % 1_000_000_000 < 1_000_000_000,
                        nanos >= 0,
                ;
                assert(secs * 1_000_000_000 + nanos > 0) by (nonlinear_arith)
                    requires
                        secs > 0 || nanos > 0,
                        secs >= 0,
                        nanos >= 0,
                ;
            }
            let window = secs * 1_000_000_000 + nanos as u64;
            if k > 19 {
                proof {
                    lemma_window_scale_overflow(window as int, k as nat);
                }
                return Err(RateError::OutOfRange);
            }
            proof {
                lemma_pow10_fits(k as nat);
                vstd::arithmetic::mul::lemma_mul_upper_bound(
                    window as int,
                    u64::MAX as int,
                    pow10(k as nat),
                    10_000_000_000_000_000_000,
                );
                assert(u64::MAX as int == 18_446_744_073_709_551_615int);
                assert(18_446_744_073_709_551_615int * 10_000_000_000_000_000_000
                    <= 0xFFFF_FFFF_FFFF_FFFF_FFFF_FFFF_FFFF_FFFFint) by (nonlinear_arith);
            }
            let scaled_big: u128 = window as u128 * pow10_u64(k) as u128;
            if scaled_big > u64::MAX as u128 {
                return Err(RateError::OutOfRange);
            }
            proof {
                vstd::arithmetic::mul::lemma_mul_inequality(1, window as int, pow10(k as nat));
                vstd::arithmetic::mul::lemma_mul_is_commutative(window as int, pow10(k as nat));
                vstd::arithmetic::mul::lemma_mul_basics(pow10(k as nat));
            }
            Ok(Rate { requests, window: scaled_big as u64 })
        },
    }
}

/// A power of ten with an exponent up to nineteen fits the machine
/// word.
proof fn lemma_pow10_fits(k: nat)
    requires
        k <= 19,
    ensures
        1 <= pow10(k) <= 10_000_000_000_000_000_000,
{
    reveal_with_fuel(pow10, 21);
    lemma_pow10_facts(k, 19);
}

/// A count whose integer part overflows the machine word is itself
/// over the machine word, whatever the scale.
proof fn lemma_count_int_overflow(left: Seq<char>, e1: int, k: nat)
    requires
        spec_count_shape_ok(left),
        e1 == digit_run_end(left, 0),
        k == spec_count_scale(left),
        seq_val(left.subrange(0, e1)) > u64::MAX,
    ensures
        spec_count_value(left) > u64::MAX,
{
    crate::numbers::lemma_digit_run_end_facts(left, 0);
    lemma_pow10_facts(0, k);
    let iv = seq_val(left.subrange(0, e1));
    vstd::arithmetic::mul::lemma_mul_inequality(1, pow10(k), iv);
    vstd::arithmetic::mul::lemma_mul_basics(iv);
    if e1 < left.len() && left[e1] == '.' {
        let e2 = digit_run_end(left, e1 + 1);
        crate::numbers::lemma_digit_run_end_facts(left, e1 + 1);
        crate::numbers::lemma_seq_val_nonneg(left.subrange(e1 + 1, e2));
    }
}

/// A count whose fractional part overflows the machine word is itself
/// over the machine word.
proof fn lemma_count_frac_overflow(left: Seq<char>, e1: int, e2: int, k: nat)
    requires
        spec_count_shape_ok(left),
        e1 == digit_run_end(left, 0),
        e1 < left.len() && left[e1] == '.',
        e2 == digit_run_end(left, e1 + 1),
        k == spec_count_scale(left),
        seq_val(left.subrange(e1 + 1, e2)) > u64::MAX,
    ensures
        spec_count_value(left) > u64::MAX,
{
    crate::numbers::lemma_digit_run_end_facts(left, 0);
    crate::numbers::lemma_seq_val_nonneg(left.subrange(0, e1));
    lemma_pow10_facts(0, k);
    let iv = seq_val(left.subrange(0, e1));
    assert(iv * pow10(k) >= 0) by (nonlinear_arith)
        requires
            iv >= 0,
            pow10(k) >= 1,
    ;
}

/// With twenty or more fractional digits, a nonzero integer part
/// pushes the count over the machine word.
proof fn lemma_count_scale_overflow(iv: int, fv: int, k: nat)
    requires
        iv >= 1,
        fv >= 0,
        k >= 20,
    ensures
        iv * pow10(k) + fv > u64::MAX,
{
    reveal_with_fuel(pow10, 21);
    lemma_pow10_facts(20, k);
    assert(pow10(20) == 10 * pow10(19));
    lemma_pow10_fits(19);
    assert(pow10(20) > u64::MAX) by (nonlinear_arith)
        requires
            pow10(20) == 10 * pow10(19),
            pow10(19) == 10_000_000_000_000_000_000,
    ;
    vstd::arithmetic::mul::lemma_mul_inequality(1, iv, pow10(k));
    vstd::arithmetic::mul::lemma_mul_is_commutative(iv, pow10(k));
    vstd::arithmetic::mul::lemma_mul_basics(pow10(k));
}

/// With twenty or more fractional digits, any positive window scaled
/// whole exceeds the machine word.
proof fn lemma_window_scale_overflow(w: int, k: nat)
    requires
        w >= 1,
        k >= 20,
    ensures
        w * pow10(k) > u64::MAX,
{
    reveal_with_fuel(pow10, 21);
    lemma_pow10_facts(20, k);
    assert(pow10(20) == 10 * pow10(19));
    lemma_pow10_fits(19);
    assert(pow10(20) > u64::MAX) by (nonlinear_arith)
        requires
            pow10(20) == 10 * pow10(19),
            pow10(19) == 10_000_000_000_000_000_000,
    ;
    vstd::arithmetic::mul::lemma_mul_inequality(1, w, pow10(k));
    vstd::arithmetic::mul::lemma_mul_is_commutative(w, pow10(k));
}

/// Why a header line was rejected.
#[derive(PartialEq, Eq, Structural, Clone, Copy, Debug)]
pub enum HeaderError {
    /// A line holds no `:`
    MissingColon { index: usize },
}

/// What one `Name: Value` line denotes: the trimmed text on either
/// side of the first colon, or nothing when there is no colon.
pub open spec fn spec_header_of(s: Seq<char>) -> Option<(Seq<char>, Seq<char>)> {
    let cut = find_char(s, ':', 0);
    if cut >= s.len() {
        None
    } else {
        Some((spec_trim(s.subrange(0, cut)), spec_trim(s.subrange(cut + 1, s.len() as int))))
    }
}

/// Parse `Name: Value` header lines.  Succeeds exactly when every
/// line holds a colon; the first line without one is named in the
/// error.  Each header is the trimmed text on either side of the
/// line's first colon.
pub fn parse_headers(headers: &Vec<String>) -> (r: Result<Vec<Header>, HeaderError>)
    ensures
        match r {
            Ok(hs) => {
                &&& hs@.len() == headers@.len()
                &&& forall|i: int|
                    0 <= i < headers@.len() ==> spec_header_of(#[trigger] headers@[i]@)
                        == Some(hs@[i]@)
            },
            Err(HeaderError::MissingColon { index }) => {
                &&& index < headers@.len()
                &&& spec_header_of(headers@[index as int]@) is None
            },
        },
{
    let mut out: Vec<Header> = Vec::new();
    let mut i: usize = 0;
    while i < headers.len()
        invariant
            i <= headers@.len(),
            out@.len() == i,
            forall|k: int|
                0 <= k < i ==> spec_header_of(#[trigger] headers@[k]@) == Some(out@[k]@),
        decreases headers@.len() - i,
    {
        let line = text_to_chars(&headers[i]);
        let cut = find_char_at(&line, ':', 0);
        if cut >= line.len() {
            return Err(HeaderError::MissingColon { index: i });
        }
        let name = trim_chars(&subrange_chars(&line, 0, cut));
        let value = trim_chars(&subrange_chars(&line, cut + 1, line.len()));
        out.push(Header::new(chars_to_text(&name), chars_to_text(&value)));
        i = i + 1;
    }
    Ok(out)
}

/// Why a target list was rejected.
#[derive(PartialEq, Eq, Structural, Clone, Copy, Debug)]
pub enum TargetError {
    /// A nonempty line holds no space between method and URL
    BadShape { line: usize },
    /// The text after the method is no absolute URL
    BadUrl { line: usize },
}

/// Whether a trimmed line is skipped: blank, or a comment.
pub open spec fn line_skipped(t: Seq<char>) -> bool {
    t.len() == 0 || t[0] == '#'
}

/// What one kept line of the plain target format denotes: the method
/// token before the first space, and the normalized URL parsed from
/// everything after it.
pub open spec fn spec_http_line(t: Seq<char>) -> Option<(Seq<char>, Seq<char>)> {
    let cut = find_char(t, ' ', 0);
    if cut >= t.len() {
        None
    } else {
        match parsed_url(t.subrange(cut + 1, t.len() as int)) {
            None => None,
            Some(u) => Some((t.subrange(0, cut), u)),
        }
    }
}

/// Parse the plain target format: one `METHOD URL` per line, blank
/// lines and `#` comments skipped.  Succeeds exactly when every kept
/// line, after trimming, holds a space and a parsable absolute URL;
/// the targets keep the kept lines' order, with the line's method
/// token and the normalized URL, no headers and no body.
pub fn parse_http_targets(lines: &Vec<String>) -> (r: Result<Vec<Target>, TargetError>)
    ensures
        match r {
            Ok(ts) => {
                &&& ts@.len() == kept_lines(lines@.map_values(|l: String| l@)).len()
                &&& forall|k: int|
                    0 <= k < ts@.len() ==> ({
                        let t = kept_lines(lines@.map_values(|l: String| l@))[k];
                        &&& spec_http_line(spec_trim(t)) matches Some(mu)
                        &&& (#[trigger] ts@[k])@.method == mu.0
                        &&& ts@[k]@.url == mu.1
                        &&& ts@[k]@.headers.len() == 0
                        &&& ts@[k]@.body is None
                    })
            },
            Err(e) => {
                let idx = match e {
                    TargetError::BadShape { line } => line,
                    TargetError::BadUrl { line } => line,
                };
                &&& idx < lines@.len()
                &&& !line_skipped(spec_trim(lines@[idx as int]@))
                &&& spec_http_line(spec_trim(lines@[idx as int]@)) is None
            },
        },
{
    let ghost all = lines@.map_values(|l: String| l@);
    let mut out: Vec<Target> = Vec::new();
    let mut i: usize = 0;
    while i < lines.len()
        invariant
            i <= lines@.len(),
            all == lines@.map_values(|l: String| l@),
            out@.len() == kept_lines(all.take(i as int)).len(),
            forall|k: int|
                0 <= k < out@.len() ==> ({
                    let t = kept_lines(all.take(i as int))[k];
                    &&& spec_http_line(spec_trim(t)) matches Some(mu)
                    &&& (#[trigger] out@[k])@.method == mu.0
                    &&& out@[k]@.url == mu.1
                    &&& out@[k]@.headers.len() == 0
                    &&& out@[k]@.body is None
                }),
        decreases lines@.len() - i,
    {
        proof {
            assert(all.take(i + 1).drop_last() =~= all.take(i as int));
            assert(all.take(i + 1).last() == lines@[i as int]@);
        }
        let line = text_to_chars(&lines[i]);
        let t = trim_chars(&line);
        if t.len() == 0 || t[0] == '#' {
            i = i + 1;
            continue;
        }
        let cut = find_char_at(&t, ' ', 0);
        if cut >= t.len() {
            return Err(TargetError::BadShape { line: i });
        }
        let method = subrange_chars(&t, 0, cut);
        let rest = subrange_chars(&t, cut + 1, t.len());
        let rest_text = chars_to_text(&rest);
        match parse_url_text(rest_text.as_str()) {
            None => {
                return Err(TargetError::BadUrl { line: i });
            },
            Some(u) => {
                let tgt = Target {
                    method: chars_to_text(&method),
                    url: u,
                    headers: Vec::new(),
                    body: None,
                };
                proof {
                    assert(tgt@.headers =~= Seq::<(Seq<char>, Seq<char>)>::empty());
                }
                out.push(tgt);
            },
        }
        i = i + 1;
    }
    proof {
        assert(all.take(lines@.len() as int) =~= all);
    }
    Ok(out)
}

/// The trimmed lines that are neither blank nor comments.
pub open spec fn kept_lines(lines: Seq<Seq<char>>) -> Seq<Seq<char>>
    decreases lines.len(),
{
    if lines.len() == 0 {
        Seq::empty()
    } else if line_skipped(spec_trim(lines.last())) {
        kept_lines(lines.drop_last())
    } else {
        kept_lines(lines.drop_last()).push(lines.last())
    }
}

/// The first index at or after `i` holding no leading bracket.
pub open spec fn skip_front_bracket(s: Seq<char>, i: int) -> int
    recommends
        0 <= i <= s.len(),
    decreases s.len() - i,
{
    if i < s.len() && s[i] == '[' {
        skip_front_bracket(s, i + 1)
    } else {
        i
    }
}

/// The first index at or before `j`, not below `f`, with no closing
/// bracket right before it.
pub open spec fn skip_back_bracket(s: Seq<char>, j: int, f: int) -> int
    recommends
        0 <= f <= j <= s.len(),
    decreases j - f,
{
    if j > f && s[j - 1] == ']' {
        skip_back_bracket(s, j - 1, f)
    } else {
        j
    }
}

/// The text with its leading `[` run and trailing `]` run removed.
pub open spec fn spec_strip_brackets(s: Seq<char>) -> Seq<char> {
    let f = skip_front_bracket(s, 0);
    let b = skip_back_bracket(s, s.len() as int, f);
    s.subrange(f, b)
}

/// What one comma-separated bucket part denotes: zero for a literal
/// `0`, else the part as a duration in nanoseconds, when the duration
/// grammar accepts it and the span fits the engine's clock.
pub open spec fn spec_bucket_of(t: Seq<char>) -> Option<u64> {
    if t == "0"@ {
        Some(0u64)
    } else if crate::durations::spec_secs_bound(t, 0) >= u64::MAX {
        None
    } else {
        match parsed_duration(t) {
            None => None,
            Some(p) => spec_window_nanos(p),
        }
    }
}

/// What a comma-separated bucket list denotes: every part's bucket in
/// order, or the index of the first part that is none.
pub open spec fn spec_bucket_list(s: Seq<char>) -> Result<Seq<u64>, int>
    decreases s.len() via bucket_list_decreases
{
    let c = find_char(s, ',', 0);
    let part = if c >= s.len() {
        s
    } else {
        s.subrange(0, c)
    };
    match spec_bucket_of(spec_trim(part)) {
        None => Err(0),
        Some(x) => if c >= s.len() {
            Ok(seq![x])
        } else {
            match spec_bucket_list(s.subrange(c + 1, s.len() as int)) {
                Ok(xs) => Ok(seq![x] + xs),
                Err(i) => Err(i + 1),
            }
        },
    }
}

#[via_fn]
proof fn bucket_list_decreases(s: Seq<char>) {
    lemma_find_char_facts(s, ',', 0);
}

/// Read one bucket part.
fn bucket_of(part: &Vec<char>) -> (r: Option<u64>)
    ensures
        r == spec_bucket_of(spec_trim(part@)),
{
    let t = trim_chars(part);
    let is_zero = t.len() == 1 && t[0] == '0';
    proof {
        reveal_strlit("0");
        if is_zero {
            assert(t@ =~= "0"@);
        } else if t@.len() == 1 {
            assert(t@[0] != '0' ==> t@ != "0"@) by {
                if t@ == "0"@ {
                    assert(t@[0] == '0');
                }
            }
        }
    }
    if is_zero {
        return Some(0);
    }
    if !crate::durations::duration_within_screen(&t) {
        return None;
    }
    let text = chars_to_text(&t);
    match parse_duration_text(text.as_str()) {
        None => None,
        Some((secs, nanos)) => {
            if secs > (u64::MAX - nanos as u64) / 1_000_000_000 {
                proof {
                    vstd::arithmetic::div_mod::lemma_fundamental_div_mod(
                        u64::MAX - nanos as int,
                        1_000_000_000,
                    );
                    assert(secs * 1_000_000_000 + nanos > u64::MAX) by (nonlinear_arith)
                        requires
                            secs > (u64::MAX - nanos as u64) / 1_000_000_000,
                            (u64::MAX - nanos as int) == ((u64::MAX - nanos as int)
                                / 1_000_000_000) * 1_000_000_000 + (u64::MAX - nanos as int)
                                % 1_000_000_000,
                            0 <= (u64::MAX - nanos as int) % 1_000_000_000 < 1_000_000_000,
                            nanos < 1_000_000_000,
                    ;
                }
                return None;
            }
            proof {
                vstd::arithmetic::div_mod::lemma_fundamental_div_mod(
                    u64::MAX - nanos as int,
                    1_000_000_000,
                );
                assert(secs * 1_000_000_000 + nanos <= u64::MAX) by (nonlinear_arith)
                    requires
                        secs <= (u64::MAX - nanos as u64) / 1_000_000_000,
                        (u64::MAX - nanos as int) == ((u64::MAX - nanos as int)
                            / 1_000_000_000) * 1_000_000_000 + (u64::MAX - nanos as int)
                            % 1_000_000_000,
                        0 <= (u64::MAX - nanos as int) % 1_000_000_000 < 1_000_000_000,
                        nanos >= 0,
                ;
            }
            Some(secs * 1_000_000_000 + nanos as u64)
        },
    }
}

/// Read a comma-separated bucket list.
fn bucket_list(s: &Vec<char>) -> (r: Result<Vec<u64>, usize>)
    ensures
        match r {
            Ok(xs) => spec_bucket_list(s@) == Ok::<Seq<u64>, int>(xs@),
            Err(i) => spec_bucket_list(s@) == Err::<Seq<u64>, int>(i as int),
        },
    decreases s@.len(),
{
    let c = find_char_at(s, ',', 0);
    let part = if c >= s.len() {
        subrange_chars(s, 0, s.len())
    } else {
        subrange_chars(s, 0, c)
    };
    proof {
        if c >= s@.len() {
            assert(part@ =~= s@);
        }
    }
    match bucket_of(&part) {
        None => Err(0),
        Some(x) => {
            if c >= s.len() {
                let mut xs: Vec<u64> = Vec::new();
                xs.push(x);
                proof {
                    assert(xs@ =~= seq![x]);
                }
                Ok(xs)
            } else {
                let rest = subrange_chars(s, c + 1, s.len());
                match bucket_list(&rest) {
                    Ok(tail) => {
                        let mut xs: Vec<u64> = Vec::new();
                        xs.push(x);
                        let mut k: usize = 0;
                        while k < tail.len()
                            invariant
                                k <= tail@.len(),
                                xs@ == seq![x] + tail@.take(k as int),
                            decreases tail@.len() - k,
                        {
                            xs.push(tail[k]);
                            proof {
                                assert(xs@ =~= seq![x] + tail@.take(k + 1));
                            }
                            k = k + 1;
                        }
                        proof {
                            assert(seq![x] + tail@.take(tail@.len() as int) =~= seq![x]
                                + tail@);
                        }
                        Ok(xs)
                    },
                    Err(i) => {
                        if i == usize::MAX {
                            proof {
                                lemma_bucket_list_error_bound(rest@);
                            }
                            Err(usize::MAX)
                        } else {
                            Err(i + 1)
                        }
                    },
                }
            }
        },
    }
}

/// A bucket list's error index never exceeds the part count, which
/// the text's length bounds.
proof fn lemma_bucket_list_error_bound(s: Seq<char>)
    ensures
        spec_bucket_list(s) matches Err(i) ==> 0 <= i <= s.len(),
    decreases s.len(),
{
    let c = find_char(s, ',', 0);
    lemma_find_char_facts(s, ',', 0);
    if c < s.len() {
        lemma_bucket_list_error_bound(s.subrange(c + 1, s.len() as int));
    }
}

/// Parse histogram buckets from a string such as `[0,1ms,10ms]`: the
/// bracket runs stripped, one bucket per comma-separated part, `0`
/// literal or a duration.  Succeeds exactly when every part does; the
/// error names the first part that is no bucket.
pub fn parse_buckets(text: &str) -> (r: Result<Vec<u64>, usize>)
    ensures
        match r {
            Ok(xs) => spec_bucket_list(spec_strip_brackets(text@)) == Ok::<Seq<u64>, int>(xs@),
            Err(i) => spec_bucket_list(spec_strip_brackets(text@)) == Err::<Seq<u64>, int>(
                i as int,
            ),
        },
{
    let v = text_to_chars(text);
    proof {
        lemma_skip_front_bracket_facts(v@, 0);
    }
    let mut f: usize = 0;
    while f < v.len() && v[f] == '['
        invariant
            0 <= f <= v@.len(),
            forall|k: int| 0 <= k < f ==> v@[k] == '[',
        decreases v@.len() - f,
    {
        f = f + 1;
    }
    proof {
        lemma_skip_front_bracket_step(v@, 0, f as int);
    }
    let mut b: usize = v.len();
    while b > f && v[b - 1] == ']'
        invariant
            f <= b <= v@.len(),
            forall|k: int| b <= k < v@.len() ==> v@[k] == ']',
        decreases b,
    {
        b = b - 1;
    }
    proof {
        lemma_skip_back_bracket_step(v@, b as int, v@.len() as int, f as int);
        assert(skip_back_bracket(v@, v@.len() as int, f as int) == b);
    }
    let stripped = subrange_chars(&v, f, b);
    let r = bucket_list(&stripped);
    proof {
        if let Err(i) = spec_bucket_list(stripped@) {
            lemma_bucket_list_error_bound(stripped@);
        }
    }
    r
}

proof fn lemma_skip_front_bracket_facts(s: Seq<char>, i: int)
    requires
        0 <= i <= s.len(),
    ensures
        i <= skip_front_bracket(s, i) <= s.len(),
    decreases s.len() - i,
{
    if i < s.len() && s[i] == '[' {
        lemma_skip_front_bracket_facts(s, i + 1);
    }
}

proof fn lemma_skip_front_bracket_step(s: Seq<char>, i: int, j: int)
    requires
        0 <= i <= j <= s.len(),
        forall|k: int| i <= k < j ==> s[k] == '[',
        j == s.len() || s[j] != '[',
    ensures
        skip_front_bracket(s, i) == j,
    decreases j - i,
{
    if i < j {
        lemma_skip_front_bracket_step(s, i + 1, j);
    }
}

proof fn lemma_skip_back_bracket_step(s: Seq<char>, b: int, j: int, f: int)
    requires
        0 <= f <= b <= j <= s.len(),
        forall|k: int| b <= k < j ==> s[k] == ']',
        b == f || s[b - 1] != ']',
    ensures
        skip_back_bracket(s, j, f) == b,
    decreases j - b,
{
    if b < j {
        lemma_skip_back_bracket_step(s, b, j - 1, f);
    }
}

} // verus!
