//! A safety bound on duration strings: an over-approximation,
//! computed from the text alone, of the seconds the duration grammar
//! can accumulate while reading the string.  A number in that grammar
//! is a span of digits and whitespace — whitespace inside a number is
//! a separator, so `1 234` reads as 1234 — and the bound values each
//! span by its joined digits.  The bound joins across every character
//! that is neither a unit letter nor a dot: on whitespace that is the
//! grammar's own joining, and on anything else the grammar stops with
//! an error before the span could count, so the join only overstates.
//!
//! The duration wrapper requires this bound to stay below the largest
//! machine word.  Every useful span (the engine's clock caps windows
//! near 584 years, nine orders of magnitude below the bound) passes;
//! only strings denoting astronomically long spans are turned away,
//! which the rate and bucket parsers report as too large.

use vstd::prelude::*;
use crate::numbers::{is_digit, seq_val};
use crate::wrappers::text_to_chars;

verus! {

/// Whether the character can belong to a unit token.
pub open spec fn is_unit_letter(c: char) -> bool {
    ('a' <= c && c <= 'z') || ('A' <= c && c <= 'Z') || c == 'µ'
}

/// The first index at or after `i` holding no unit letter.
pub open spec fn letter_run_end(s: Seq<char>, i: int) -> int
    recommends
        0 <= i <= s.len(),
    decreases s.len() - i,
{
    if i < s.len() && is_unit_letter(s[i]) {
        letter_run_end(s, i + 1)
    } else {
        i
    }
}

/// The first index at or after `i` holding a unit letter or a dot:
/// where a joined number span ends.
pub open spec fn num_end(s: Seq<char>, i: int) -> int
    recommends
        0 <= i <= s.len(),
    decreases s.len() - i,
{
    if i < s.len() && !(is_unit_letter(s[i]) || s[i] == '.') {
        num_end(s, i + 1)
    } else {
        i
    }
}

/// The digit characters within `[i, e)`, in order, whitespace and all
/// else dropped: the number the grammar joins from the span.
pub open spec fn digits_between(s: Seq<char>, i: int, e: int) -> Seq<char>
    recommends
        0 <= i <= e <= s.len(),
    decreases e - i,
{
    if e <= i {
        Seq::empty()
    } else if is_digit(s[e - 1]) {
        digits_between(s, i, e - 1).push(s[e - 1])
    } else {
        digits_between(s, i, e - 1)
    }
}

/// The joined digits are digits, and the joined value never shrinks
/// as the span grows.
pub proof fn lemma_digits_between_facts(s: Seq<char>, i: int, e: int)
    requires
        0 <= i <= e <= s.len(),
    ensures
        forall|k: int|
            0 <= k < digits_between(s, i, e).len() ==> is_digit(
                #[trigger] digits_between(s, i, e)[k],
            ),
        0 <= seq_val(digits_between(s, i, e)),
        e > i ==> seq_val(digits_between(s, i, e - 1)) <= seq_val(digits_between(s, i, e)),
    decreases e - i,
{
    if e > i {
        lemma_digits_between_facts(s, i, e - 1);
        let prev = digits_between(s, i, e - 1);
        crate::numbers::lemma_seq_val_nonneg(prev);
        if is_digit(s[e - 1]) {
            let cur = digits_between(s, i, e);
            assert(cur == prev.push(s[e - 1]));
            assert(cur.drop_last() =~= prev);
            assert(crate::numbers::digit_val(s[e - 1]) >= 0);
            assert(seq_val(cur) == seq_val(prev) * 10 + crate::numbers::digit_val(s[e - 1]));
            assert(seq_val(prev) * 10 >= seq_val(prev)) by (nonlinear_arith)
                requires
                    seq_val(prev) >= 0,
            ;
        }
    } else {
        assert(digits_between(s, i, e) =~= Seq::<char>::empty());
    }
}

proof fn lemma_num_end_facts(s: Seq<char>, i: int)
    requires
        0 <= i <= s.len(),
    ensures
        i <= num_end(s, i) <= s.len(),
        forall|k: int|
            i <= k < num_end(s, i) ==> !(is_unit_letter(#[trigger] s[k]) || s[k] == '.'),
        num_end(s, i) == s.len() || is_unit_letter(s[num_end(s, i)]) || s[num_end(s, i)]
            == '.',
    decreases s.len() - i,
{
    if i < s.len() && !(is_unit_letter(s[i]) || s[i] == '.') {
        lemma_num_end_facts(s, i + 1);
    }
}

proof fn lemma_num_end_step(s: Seq<char>, i: int, j: int)
    requires
        0 <= i <= j <= s.len(),
        forall|k: int| i <= k < j ==> !(is_unit_letter(#[trigger] s[k]) || s[k] == '.'),
        j == s.len() || is_unit_letter(s[j]) || s[j] == '.',
    ensures
        num_end(s, i) == j,
    decreases j - i,
{
    if i < j {
        lemma_num_end_step(s, i + 1, j);
    }
}

/// The first index at or after `i` holding a unit letter: where a
/// fractional part can end.
pub open spec fn frac_end(s: Seq<char>, i: int) -> int
    recommends
        0 <= i <= s.len(),
    decreases s.len() - i,
{
    if i < s.len() && !is_unit_letter(s[i]) {
        frac_end(s, i + 1)
    } else {
        i
    }
}

/// An upper bound, in whole seconds, on what one number-and-unit span
/// can contribute: the value under the unit's multiplier, plus slack
/// for a fractional part, floor division and the nanosecond carry.
/// An unrecognized token contributes nothing, since the grammar stops
/// there.
pub open spec fn span_bound(tok: Seq<char>, n: int) -> int {
    if tok == "nanos"@ || tok == "nsec"@ || tok == "ns"@ {
        n / 1_000_000_000 + 3
    } else if tok == "usec"@ || tok == "us"@ || tok == "µs"@ {
        n / 1_000_000 + 3
    } else if tok == "millis"@ || tok == "msec"@ || tok == "ms"@ {
        n / 1_000 + 3
    } else if tok == "seconds"@ || tok == "second"@ || tok == "secs"@ || tok == "sec"@ || tok
        == "s"@ {
        n + 3
    } else if tok == "minutes"@ || tok == "minute"@ || tok == "min"@ || tok == "mins"@ || tok
        == "m"@ {
        n * 60 + 63
    } else if tok == "hours"@ || tok == "hour"@ || tok == "hr"@ || tok == "hrs"@ || tok
        == "h"@ {
        n * 3600 + 3603
    } else if tok == "days"@ || tok == "day"@ || tok == "d"@ {
        n * 86400 + 86403
    } else if tok == "weeks"@ || tok == "week"@ || tok == "wk"@ || tok == "wks"@ || tok
        == "w"@ {
        n * 604800 + 604803
    } else if tok == "months"@ || tok == "month"@ || tok == "M"@ {
        n * 2_630_016 + 2_630_019
    } else if tok == "years"@ || tok == "year"@ || tok == "yr"@ || tok == "yrs"@ || tok
        == "y"@ {
        n * 31_557_600 + 31_557_603
    } else {
        0
    }
}

/// The bound over the whole text from position `i`: every number span
/// (digits joined across whitespace), with the unit token that follows
/// it (past a fractional part), contributes its span bound.  Joined
/// values are capped at the machine word, as the grammar turns larger
/// numbers away.
pub open spec fn spec_secs_bound(s: Seq<char>, i: int) -> int
    decreases s.len() - i when 0 <= i <= s.len() via secs_bound_decreases
{
    if i >= s.len() {
        0
    } else if !is_digit(s[i]) {
        spec_secs_bound(s, i + 1)
    } else {
        let e = num_end(s, i);
        let j = if e < s.len() && s[e] == '.' {
            frac_end(s, e + 1)
        } else {
            e
        };
        let k = letter_run_end(s, j);
        let n = if seq_val(digits_between(s, i, e)) > u64::MAX {
            u64::MAX as int
        } else {
            seq_val(digits_between(s, i, e))
        };
        span_bound(s.subrange(j, k), n) + spec_secs_bound(
            s,
            if k > e {
                k
            } else {
                e
            },
        )
    }
}

#[via_fn]
proof fn secs_bound_decreases(s: Seq<char>, i: int) {
    if 0 <= i <= s.len() && i < s.len() && is_digit(s[i]) {
        lemma_num_end_facts(s, i);
        let e = num_end(s, i);
        lemma_frac_end_facts(s, e + 1);
        if e < s.len() && s[e] == '.' {
            lemma_letter_run_end_facts(s, frac_end(s, e + 1));
        } else {
            lemma_letter_run_end_facts(s, e);
        }
    }
}

proof fn lemma_letter_run_end_facts(s: Seq<char>, i: int)
    requires
        0 <= i <= s.len(),
    ensures
        i <= letter_run_end(s, i) <= s.len(),
        forall|k: int| i <= k < letter_run_end(s, i) ==> is_unit_letter(#[trigger] s[k]),
        letter_run_end(s, i) == s.len() || !is_unit_letter(s[letter_run_end(s, i)]),
    decreases s.len() - i,
{
    if i < s.len() && is_unit_letter(s[i]) {
        lemma_letter_run_end_facts(s, i + 1);
    }
}

proof fn lemma_letter_run_end_step(s: Seq<char>, i: int, j: int)
    requires
        0 <= i <= j <= s.len(),
        forall|k: int| i <= k < j ==> is_unit_letter(#[trigger] s[k]),
        j == s.len() || !is_unit_letter(s[j]),
    ensures
        letter_run_end(s, i) == j,
    decreases j - i,
{
    if i < j {
        lemma_letter_run_end_step(s, i + 1, j);
    }
}

proof fn lemma_frac_end_facts(s: Seq<char>, i: int)
    requires
        0 <= i,
    ensures
        i <= s.len() ==> i <= frac_end(s, i) <= s.len(),
    decreases s.len() - i,
{
    if i < s.len() && !is_unit_letter(s[i]) {
        lemma_frac_end_facts(s, i + 1);
    }
}

proof fn lemma_frac_end_step(s: Seq<char>, i: int, j: int)
    requires
        0 <= i <= j <= s.len(),
        forall|k: int| i <= k < j ==> !is_unit_letter(#[trigger] s[k]),
        j == s.len() || is_unit_letter(s[j]),
    ensures
        frac_end(s, i) == j,
    decreases j - i,
{
    if i < j {
        lemma_frac_end_step(s, i + 1, j);
    }
}

/// Exact equality of a character buffer's range and a literal.
fn range_eq_lit(v: &Vec<char>, from: usize, to: usize, lit: &str) -> (r: bool)
    requires
        from <= to <= v@.len(),
    ensures
        r == (v@.subrange(from as int, to as int) == lit@),
{
    let lc = text_to_chars(lit);
    if to - from != lc.len() {
        proof {
            assert(v@.subrange(from as int, to as int).len() == to - from);
        }
        return false;
    }
    let mut k: usize = 0;
    while k < lc.len()
        invariant
            k <= lc@.len(),
            lc@ == lit@,
            from + lc@.len() <= to <= v@.len(),
            to - from == lc@.len(),
            forall|m: int| 0 <= m < k ==> v@[from + m] == lit@[m],
        decreases lc@.len() - k,
    {
        if v[from + k] != lc[k] {
            proof {
                assert(v@.subrange(from as int, to as int)[k as int] != lit@[k as int]);
            }
            return false;
        }
        k = k + 1;
    }
    proof {
        assert(v@.subrange(from as int, to as int) =~= lit@);
    }
    true
}

/// Compute one span's bound.
fn span_bound_at(v: &Vec<char>, j: usize, k: usize, n: u64) -> (r: u128)
    requires
        j <= k <= v@.len(),
    ensures
        r == span_bound(v@.subrange(j as int, k as int), n as int),
        r < 0x8000_0000_0000_0000_0000_0000,
{
    proof {
        vstd::arithmetic::mul::lemma_mul_upper_bound(
            n as int,
            u64::MAX as int,
            31_557_600,
            31_557_600,
        );
        assert((u64::MAX as int) * 31_557_600 + 31_557_603 < 0x8000_0000_0000_0000_0000_0000)
            by (nonlinear_arith);
        vstd::arithmetic::div_mod::lemma_div_basics_4(n as int, 1_000_000_000);
        vstd::arithmetic::div_mod::lemma_div_basics_4(n as int, 1_000_000);
        vstd::arithmetic::div_mod::lemma_div_basics_4(n as int, 1_000);
        vstd::arithmetic::mul::lemma_mul_is_commutative(n as int, 60);
        vstd::arithmetic::mul::lemma_mul_is_commutative(n as int, 3600);
        vstd::arithmetic::mul::lemma_mul_is_commutative(n as int, 86400);
        vstd::arithmetic::mul::lemma_mul_is_commutative(n as int, 604800);
        vstd::arithmetic::mul::lemma_mul_is_commutative(n as int, 2_630_016);
        vstd::arithmetic::mul::lemma_mul_is_commutative(n as int, 31_557_600);
        vstd::arithmetic::mul::lemma_mul_upper_bound(n as int, u64::MAX as int, 60, 60);
        vstd::arithmetic::mul::lemma_mul_upper_bound(n as int, u64::MAX as int, 3600, 3600);
        vstd::arithmetic::mul::lemma_mul_upper_bound(n as int, u64::MAX as int, 86400, 86400);
        vstd::arithmetic::mul::lemma_mul_upper_bound(
            n as int,
            u64::MAX as int,
            604800,
            604800,
        );
        vstd::arithmetic::mul::lemma_mul_upper_bound(
            n as int,
            u64::MAX as int,
            2_630_016,
            2_630_016,
        );
    }
    let m = n as u128;
    if range_eq_lit(v, j, k, "nanos") || range_eq_lit(v, j, k, "nsec") || range_eq_lit(
        v,
        j,
        k,
        "ns",
    ) {
        m / 1_000_000_000 + 3
    } else if range_eq_lit(v, j, k, "usec") || range_eq_lit(v, j, k, "us") || range_eq_lit(
        v,
        j,
        k,
        "µs",
    ) {
        m / 1_000_000 + 3
    } else if range_eq_lit(v, j, k, "millis") || range_eq_lit(v, j, k, "msec")
        || range_eq_lit(v, j, k, "ms") {
        m / 1_000 + 3
    } else if range_eq_lit(v, j, k, "seconds") || range_eq_lit(v, j, k, "second")
        || range_eq_lit(v, j, k, "secs") || range_eq_lit(v, j, k, "sec") || range_eq_lit(
        v,
        j,
        k,
        "s",
    ) {
        m + 3
    } else if range_eq_lit(v, j, k, "minutes") || range_eq_lit(v, j, k, "minute")
        || range_eq_lit(v, j, k, "min") || range_eq_lit(v, j, k, "mins") || range_eq_lit(
        v,
        j,
        k,
        "m",
    ) {
        m * 60 + 63
    } else if range_eq_lit(v, j, k, "hours") || range_eq_lit(v, j, k, "hour") || range_eq_lit(
        v,
        j,
        k,
        "hr",
    ) || range_eq_lit(v, j, k, "hrs") || range_eq_lit(v, j, k, "h") {
        m * 3600 + 3603
    } else if range_eq_lit(v, j, k, "days") || range_eq_lit(v, j, k, "day") || range_eq_lit(
        v,
        j,
        k,
        "d",
    ) {
        m * 86400 + 86403
    } else if range_eq_lit(v, j, k, "weeks") || range_eq_lit(v, j, k, "week") || range_eq_lit(
        v,
        j,
        k,
        "wk",
    ) || range_eq_lit(v, j, k, "wks") || range_eq_lit(v, j, k, "w") {
        m * 604800 + 604803
    } else if range_eq_lit(v, j, k, "months") || range_eq_lit(v, j, k, "month")
        || range_eq_lit(v, j, k, "M") {
        m * 2_630_016 + 2_630_019
    } else if range_eq_lit(v, j, k, "years") || range_eq_lit(v, j, k, "year") || range_eq_lit(
        v,
        j,
        k,
        "yr",
    ) || range_eq_lit(v, j, k, "yrs") || range_eq_lit(v, j, k, "y") {
        m * 31_557_600 + 31_557_603
    } else {
        0
    }
}

/// Read a number span's joined value, capped at the machine word.
fn joined_value_capped(v: &Vec<char>, i: usize) -> (r: (u64, usize))
    requires
        i <= v@.len(),
    ensures
        r.1 == num_end(v@, i as int),
        i <= r.1 <= v@.len(),
        r.0 == if seq_val(digits_between(v@, i as int, r.1 as int)) > u64::MAX {
            u64::MAX as int
        } else {
            seq_val(digits_between(v@, i as int, r.1 as int))
        },
{
    proof {
        assert(digits_between(v@, i as int, i as int) =~= Seq::<char>::empty());
    }
    let mut p: usize = i;
    let mut acc: u64 = 0;
    let mut capped = false;
    while p < v.len() && !((v[p] >= 'a' && v[p] <= 'z') || (v[p] >= 'A' && v[p] <= 'Z')
        || v[p] == 'µ' || v[p] == '.')
        invariant
            i <= p <= v@.len(),
            forall|k: int|
                i <= k < p ==> !(is_unit_letter(#[trigger] v@[k]) || v@[k] == '.'),
            !capped ==> acc == seq_val(digits_between(v@, i as int, p as int)),
            capped ==> acc == u64::MAX && seq_val(digits_between(v@, i as int, p as int))
                > u64::MAX,
        decreases v@.len() - p,
    {
        let c = v[p];
        proof {
            lemma_digits_between_facts(v@, i as int, p + 1);
        }
        if c >= '0' && c <= '9' {
            proof {
                assert(is_digit(v@[p as int]));
                assert(digits_between(v@, i as int, p + 1) == digits_between(
                    v@,
                    i as int,
                    p as int,
                ).push(v@[p as int]));
                assert(digits_between(v@, i as int, p + 1).drop_last() =~= digits_between(
                    v@,
                    i as int,
                    p as int,
                ));
            }
            let d: u8 = (c as u32 - 48) as u8;
            if !capped {
                if acc > (u64::MAX - d as u64) / 10 {
                    proof {
                        assert(crate::numbers::digit_val(v@[p as int]) == d);
                        assert(seq_val(digits_between(v@, i as int, p + 1)) == acc * 10 + d);
                        vstd::arithmetic::div_mod::lemma_fundamental_div_mod(
                            u64::MAX - d,
                            10,
                        );
                        assert(acc * 10 + d > u64::MAX) by (nonlinear_arith)
                            requires
                                acc > (u64::MAX - d as u64) / 10,
                                (u64::MAX - d as int) == ((u64::MAX - d as int) / 10) * 10
                                    + (u64::MAX - d as int) % 10,
                                0 <= (u64::MAX - d as int) % 10 < 10,
                                d < 10,
                        ;
                    }
                    capped = true;
                    acc = u64::MAX;
                } else {
                    proof {
                        assert(crate::numbers::digit_val(v@[p as int]) == d);
                        vstd::arithmetic::div_mod::lemma_fundamental_div_mod(
                            u64::MAX - d,
                            10,
                        );
                        assert(acc * 10 + d <= u64::MAX) by (nonlinear_arith)
                            requires
                                acc <= (u64::MAX - d as u64) / 10,
                                (u64::MAX - d as int) == ((u64::MAX - d as int) / 10) * 10
                                    + (u64::MAX - d as int) % 10,
                                0 <= (u64::MAX - d as int) % 10 < 10,
                                d >= 0,
                        ;
                    }
                    acc = acc * 10 + d as u64;
                }
            }
        } else {
            proof {
                assert(!is_digit(v@[p as int]));
                assert(digits_between(v@, i as int, p + 1) == digits_between(
                    v@,
                    i as int,
                    p as int,
                ));
            }
        }
        p = p + 1;
    }
    proof {
        lemma_num_end_step(v@, i as int, p as int);
    }
    (acc, p)
}

/// Compute the bound over the whole text, capped at the machine word.
fn secs_bound_from(v: &Vec<char>, i: usize) -> (r: u128)
    requires
        i <= v@.len(),
    ensures
        r == if spec_secs_bound(v@, i as int) > u64::MAX {
            u64::MAX as int
        } else {
            spec_secs_bound(v@, i as int)
        },
    decreases v@.len() - i,
{
    if i >= v.len() {
        return 0;
    }
    let c = v[i];
    if !(c >= '0' && c <= '9') {
        return secs_bound_from(v, i + 1);
    }
    let (n, e) = joined_value_capped(v, i);
    let j: usize = if e < v.len() && v[e] == '.' {
        let mut p: usize = e + 1;
        while p < v.len() && !((v[p] >= 'a' && v[p] <= 'z') || (v[p] >= 'A' && v[p] <= 'Z')
            || v[p] == 'µ')
            invariant
                e + 1 <= p <= v@.len(),
                forall|k: int| e + 1 <= k < p ==> !is_unit_letter(#[trigger] v@[k]),
            decreases v@.len() - p,
        {
            p = p + 1;
        }
        proof {
            lemma_frac_end_step(v@, e + 1, p as int);
        }
        p
    } else {
        e
    };
    let mut k: usize = j;
    while k < v.len() && ((v[k] >= 'a' && v[k] <= 'z') || (v[k] >= 'A' && v[k] <= 'Z')
        || v[k] == 'µ')
        invariant
            j <= k <= v@.len(),
            forall|m: int| j <= m < k ==> is_unit_letter(#[trigger] v@[m]),
        decreases v@.len() - k,
    {
        k = k + 1;
    }
    proof {
        lemma_letter_run_end_step(v@, j as int, k as int);
    }
    let span = span_bound_at(v, j, k, n);
    let next: usize = if k > e {
        k
    } else {
        e
    };
    proof {
        assert(num_end(v@, i as int) >= i + 1) by {
            lemma_num_end_facts(v@, i + 1);
        }
    }
    let rest = secs_bound_from(v, next);
    let total = span + rest;
    if total > u64::MAX as u128 {
        u64::MAX as u128
    } else {
        total
    }
}

/// Whether a duration string stays within the screen: its seconds
/// bound is below the largest machine word.
pub fn duration_within_screen(v: &Vec<char>) -> (r: bool)
    ensures
        r == (spec_secs_bound(v@, 0) < u64::MAX as int),
{
    let b = secs_bound_from(v, 0);
    b < u64::MAX as u128
}

} // verus!
