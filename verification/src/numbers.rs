//! Decimal rendering and reading of machine integers, the ground the
//! human-readable formatting and the result codec stand on.
//!
//! `spec_digits` is the canonical decimal form of a number: no sign,
//! no leading zero (a lone `0` for zero).  The writer emits exactly
//! that form; the reader accepts exactly that form and is proved to
//! undo the writer.

use vstd::prelude::*;

verus! {

/// Whether the character is a decimal digit.
pub open spec fn is_digit(c: char) -> bool {
    '0' <= c && c <= '9'
}

/// The numeric value of a digit character.
pub open spec fn digit_val(c: char) -> int {
    c as int - 48
}

/// The digit character of a value below ten.
pub open spec fn digit_char(d: int) -> char {
    (d + 48) as char
}

/// The canonical decimal form of a number.
pub open spec fn spec_digits(n: int) -> Seq<char>
    recommends
        n >= 0,
    decreases n,
{
    if n <= 9 {
        seq![digit_char(n)]
    } else {
        spec_digits(n / 10).push(digit_char(n % 10))
    }
}

/// The numeric value of a digit string.
pub open spec fn seq_val(s: Seq<char>) -> int
    decreases s.len(),
{
    if s.len() == 0 {
        0
    } else {
        seq_val(s.drop_last()) * 10 + digit_val(s.last())
    }
}

/// The canonical form consists of digits, starts with no superfluous
/// zero, and reads back as the number it renders.
pub proof fn lemma_digits_facts(n: int)
    requires
        n >= 0,
    ensures
        spec_digits(n).len() >= 1,
        forall|i: int| 0 <= i < spec_digits(n).len() ==> is_digit(#[trigger] spec_digits(n)[i]),
        seq_val(spec_digits(n)) == n,
        n > 0 ==> spec_digits(n)[0] != '0',
        n == 0 ==> spec_digits(n) == seq!['0'],
    decreases n,
{
    if n <= 9 {
        assert(spec_digits(n) =~= seq![digit_char(n)]);
        assert(spec_digits(n).drop_last() =~= Seq::<char>::empty());
        assert(spec_digits(n).last() == digit_char(n));
        assert(seq_val(spec_digits(n).drop_last()) == 0);
        assert(digit_val(digit_char(n)) == n);
        assert(seq_val(spec_digits(n)) == 0 * 10 + digit_val(digit_char(n)));
        assert(digit_char(n) as int == n + 48);
        assert('0' as int == 48);
        if n == 0 {
            assert(spec_digits(n) =~= seq!['0']);
        }
    } else {
        lemma_digits_facts(n / 10);
        let prefix = spec_digits(n / 10);
        let whole = spec_digits(n);
        assert(whole == prefix.push(digit_char(n % 10)));
        assert(whole.drop_last() =~= prefix);
        assert(whole.last() == digit_char(n % 10));
        assert(seq_val(whole) == seq_val(prefix) * 10 + digit_val(digit_char(n % 10)));
        assert(digit_val(digit_char(n % 10)) == n % 10);
        assert((n / 10) * 10 + n % 10 == n) by {
            vstd::arithmetic::div_mod::lemma_fundamental_div_mod(n, 10);
        }
        assert(n / 10 >= 1) by {
            vstd::arithmetic::div_mod::lemma_div_is_ordered(10, n, 10);
            vstd::arithmetic::div_mod::lemma_div_basics(10);
        }
        assert(whole[0] == prefix[0]);
        assert(whole[0] != '0');
        assert(forall|i: int|
            0 <= i < whole.len() ==> is_digit(#[trigger] whole[i]));
    }
}

/// Append the canonical decimal form of a number.
pub fn push_u64_digits(n: u64, out: &mut Vec<char>)
    ensures
        final(out)@ == old(out)@ + spec_digits(n as int),
    decreases n,
{
    if n <= 9 {
        out.push((48 + n as u8) as char);
        proof {
            assert(final(out)@ =~= old(out)@ + spec_digits(n as int));
        }
    } else {
        push_u64_digits(n / 10, out);
        out.push((48 + (n % 10) as u8) as char);
        proof {
            assert(final(out)@ =~= old(out)@ + spec_digits(n as int));
        }
    }
}

/// Render a number in canonical decimal form.
pub fn u64_digits(n: u64) -> (r: Vec<char>)
    ensures
        r@ == spec_digits(n as int),
{
    let mut out: Vec<char> = Vec::new();
    push_u64_digits(n, &mut out);
    proof {
        assert(out@ =~= spec_digits(n as int));
    }
    out
}

/// Where the run of digits beginning at `i` ends: the first index at
/// or after `i` holding no digit.
pub open spec fn digit_run_end(s: Seq<char>, i: int) -> int
    recommends
        0 <= i <= s.len(),
    decreases s.len() - i,
{
    if i < s.len() && is_digit(s[i]) {
        digit_run_end(s, i + 1)
    } else {
        i
    }
}

/// The run end lies between `i` and the end of the text, every
/// character of the run is a digit, and the run stops only at the end
/// of the text or before a non-digit.
pub proof fn lemma_digit_run_end_facts(s: Seq<char>, i: int)
    requires
        0 <= i <= s.len(),
    ensures
        i <= digit_run_end(s, i) <= s.len(),
        forall|k: int| i <= k < digit_run_end(s, i) ==> is_digit(#[trigger] s[k]),
        digit_run_end(s, i) == s.len() || !is_digit(s[digit_run_end(s, i)]),
    decreases s.len() - i,
{
    if i < s.len() && is_digit(s[i]) {
        lemma_digit_run_end_facts(s, i + 1);
    }
}

/// A run of digits that continues keeps its value growing: the value
/// of a prefix of the run never exceeds the value of the whole run.
pub proof fn lemma_seq_val_prefix_le(s: Seq<char>, i: int, j: int, e: int)
    requires
        0 <= i <= j <= e <= s.len(),
        forall|k: int| i <= k < e ==> is_digit(#[trigger] s[k]),
    ensures
        0 <= seq_val(s.subrange(i, j)) <= seq_val(s.subrange(i, e)),
    decreases e - j,
{
    lemma_seq_val_nonneg(s.subrange(i, j));
    if j < e {
        assert(s.subrange(i, j + 1).drop_last() =~= s.subrange(i, j));
        assert(digit_val(s.subrange(i, j + 1).last()) >= 0);
        assert(seq_val(s.subrange(i, j + 1)) >= seq_val(s.subrange(i, j))) by {
            vstd::arithmetic::mul::lemma_mul_inequality(
                1,
                10,
                seq_val(s.subrange(i, j)),
            );
            vstd::arithmetic::mul::lemma_mul_is_commutative(seq_val(s.subrange(i, j)), 10);
            vstd::arithmetic::mul::lemma_mul_basics(seq_val(s.subrange(i, j)));
        }
        lemma_seq_val_prefix_le(s, i, j + 1, e);
    }
}

/// The value of a digit string is never negative.
pub proof fn lemma_seq_val_nonneg(s: Seq<char>)
    requires
        forall|k: int| 0 <= k < s.len() ==> is_digit(#[trigger] s[k]),
    ensures
        seq_val(s) >= 0,
    decreases s.len(),
{
    if s.len() > 0 {
        assert(forall|k: int|
            0 <= k < s.drop_last().len() ==> is_digit(#[trigger] s.drop_last()[k]));
        lemma_seq_val_nonneg(s.drop_last());
        assert(digit_val(s.last()) >= 0);
        vstd::arithmetic::mul::lemma_mul_basics_4(seq_val(s.drop_last()) * 10);
        assert(seq_val(s.drop_last()) * 10 >= 0) by (nonlinear_arith)
            requires
                seq_val(s.drop_last()) >= 0,
        ;
    }
}

/// Read a number in canonical decimal form at position `i`.
///
/// Succeeds exactly on a nonempty digit run whose first digit is no
/// superfluous zero and whose value fits the machine word; the result
/// is that value and the position after the run.
pub fn parse_u64(v: &Vec<char>, i: usize) -> (r: Option<(u64, usize)>)
    requires
        i <= v@.len(),
    ensures
        ({
            let e = digit_run_end(v@, i as int);
            match r {
                Some((val, j)) => {
                    &&& j == e
                    &&& i < e <= v@.len()
                    &&& val == seq_val(v@.subrange(i as int, e))
                    &&& v@.subrange(i as int, e) == spec_digits(val as int)
                },
                None => i as int == e || (v@[i as int] == '0' && e > i + 1) || seq_val(
                    v@.subrange(i as int, e),
                ) > u64::MAX,
            }
        }),
{
    proof {
        lemma_digit_run_end_facts(v@, i as int);
    }
    let ghost e = digit_run_end(v@, i as int);
    if i >= v.len() {
        return None;
    }
    let c0 = v[i];
    if !(c0 >= '0' && c0 <= '9') {
        return None;
    }
    let mut j: usize = i;
    let mut acc: u64 = 0;
    let mut overflowed = false;
    while j < v.len() && v[j] >= '0' && v[j] <= '9'
        invariant
            i <= j <= v@.len(),
            e == digit_run_end(v@, i as int),
            i <= e <= v@.len(),
            forall|k: int| i <= k < e ==> is_digit(#[trigger] v@[k]),
            e == v@.len() || !is_digit(v@[e]),
            j <= e,
            forall|k: int| i <= k < j ==> is_digit(#[trigger] v@[k]),
            !overflowed ==> acc == seq_val(v@.subrange(i as int, j as int)),
            overflowed ==> seq_val(v@.subrange(i as int, e)) > u64::MAX,
        decreases v@.len() - j,
    {
        proof {
            assert(is_digit(v@[j as int]));
            assert(digit_run_end(v@, j as int) == e) by {
                lemma_digit_run_end_step(v@, i as int, j as int);
            }
            assert(v@.subrange(i as int, j + 1).drop_last() =~= v@.subrange(
                i as int,
                j as int,
            ));
        }
        let d: u8 = (v[j] as u32 - 48) as u8;
        if !overflowed {
            if acc > (u64::MAX - d as u64) / 10 {
                proof {
                    assert(digit_val(v@[j as int]) == d);
                    assert(seq_val(v@.subrange(i as int, j + 1)) == acc * 10 + d);
                    vstd::arithmetic::div_mod::lemma_fundamental_div_mod(
                        u64::MAX - d,
                        10,
                    );
                    assert(acc * 10 + d > u64::MAX) by (nonlinear_arith)
                        requires
                            acc > (u64::MAX - d as u64) / 10,
                            (u64::MAX - d as int) == ((u64::MAX - d as int) / 10) * 10 + (
                            u64::MAX - d as int) % 10,
                            0 <= (u64::MAX - d as int) % 10 < 10,
                            d < 10,
                    ;
                    lemma_seq_val_prefix_le(v@, i as int, j + 1, e);
                }
                overflowed = true;
            } else {
                proof {
                    assert(digit_val(v@[j as int]) == d);
                    vstd::arithmetic::div_mod::lemma_fundamental_div_mod(
                        u64::MAX - d,
                        10,
                    );
                    assert(acc * 10 + d <= u64::MAX) by (nonlinear_arith)
                        requires
                            acc <= (u64::MAX - d as u64) / 10,
                            (u64::MAX - d as int) == ((u64::MAX - d as int) / 10) * 10 + (
                            u64::MAX - d as int) % 10,
                            0 <= (u64::MAX - d as int) % 10 < 10,
                            d >= 0,
                    ;
                }
                acc = acc * 10 + d as u64;
            }
        }
        j = j + 1;
    }
    proof {
        assert(j == e) by {
            assert(j == v@.len() || !is_digit(v@[j as int]));
            lemma_digit_run_end_step(v@, i as int, j as int);
        }
    }
    if overflowed {
        return None;
    }
    let c_first = v[i];
    if c_first == '0' && j > i + 1 {
        return None;
    }
    proof {
        lemma_canonical_digits(v@, i as int, e);
    }
    Some((acc, j))
}

/// A run of digits ending at the text's end or before a non-digit is
/// the whole digit run from its start.
pub proof fn lemma_digit_run_end_step_pub(s: Seq<char>, i: int, e: int)
    requires
        0 <= i <= e <= s.len(),
        forall|k: int| i <= k < e ==> is_digit(#[trigger] s[k]),
        e == s.len() || !is_digit(s[e]),
    ensures
        digit_run_end(s, i) == e,
{
    lemma_digit_run_end_step(s, i, e);
}

/// A run of digits ends where the run from any position inside it
/// ends.
proof fn lemma_digit_run_end_step(s: Seq<char>, i: int, j: int)
    requires
        0 <= i <= j <= s.len(),
        forall|k: int| i <= k < j ==> is_digit(#[trigger] s[k]),
    ensures
        digit_run_end(s, i) == digit_run_end(s, j),
    decreases j - i,
{
    if i < j {
        lemma_digit_run_end_step(s, i + 1, j);
    }
}

/// A digit string without a superfluous leading zero is the canonical
/// form of its value.
proof fn lemma_canonical_digits(s: Seq<char>, i: int, e: int)
    requires
        0 <= i < e <= s.len(),
        forall|k: int| i <= k < e ==> is_digit(#[trigger] s[k]),
        s[i] != '0' || e == i + 1,
    ensures
        s.subrange(i, e) == spec_digits(seq_val(s.subrange(i, e))),
    decreases e - i,
{
    let sub = s.subrange(i, e);
    let n = seq_val(sub);
    lemma_seq_val_prefix_le(s, i, e, e);
    if e == i + 1 {
        assert(sub =~= seq![s[i]]);
        assert(sub.drop_last() =~= Seq::<char>::empty());
        assert(sub.last() == s[i]);
        assert(seq_val(sub.drop_last()) == 0);
        assert(n == 0 * 10 + digit_val(s[i]));
        assert(n == digit_val(s[i]));
        assert(0 <= n <= 9);
        assert(spec_digits(n) =~= seq![digit_char(n)]);
        assert(digit_char(n) == s[i]);
    } else {
        lemma_canonical_digits(s, i, e - 1);
        let prefix = s.subrange(i, e - 1);
        assert(sub.drop_last() =~= prefix);
        assert(n == seq_val(prefix) * 10 + digit_val(s[e - 1]));
        lemma_seq_val_prefix_le(s, i, e - 1, e);
        let p = seq_val(prefix);
        assert(p >= 1) by {
            if p == 0 {
                assert(prefix == spec_digits(0));
                lemma_digits_facts(0);
                assert(prefix =~= seq!['0']);
                assert(s[i] == '0');
            }
        }
        assert(n >= 10) by {
            vstd::arithmetic::mul::lemma_mul_inequality(1, p, 10);
            vstd::arithmetic::mul::lemma_mul_is_commutative(p, 10);
            vstd::arithmetic::mul::lemma_mul_basics(10);
            assert(digit_val(s[e - 1]) >= 0);
        }
        assert(n / 10 == p && n % 10 == digit_val(s[e - 1])) by {
            vstd::arithmetic::div_mod::lemma_fundamental_div_mod_converse(
                n,
                10,
                p,
                digit_val(s[e - 1]),
            );
        }
        assert(spec_digits(n) == spec_digits(p).push(digit_char(digit_val(s[e - 1]))));
        assert(digit_char(digit_val(s[e - 1])) == s[e - 1]);
        assert(sub =~= prefix.push(s[e - 1]));
    }
}

/// Find where the digit run starting at `i` ends.
pub fn digit_run_end_at(v: &Vec<char>, i: usize) -> (r: usize)
    requires
        i <= v@.len(),
    ensures
        r == digit_run_end(v@, i as int),
        i <= r <= v@.len(),
{
    proof {
        lemma_digit_run_end_facts(v@, i as int);
    }
    let mut j: usize = i;
    while j < v.len() && v[j] >= '0' && v[j] <= '9'
        invariant
            i <= j <= v@.len(),
            forall|k: int| i <= k < j ==> is_digit(#[trigger] v@[k]),
        decreases v@.len() - j,
    {
        j = j + 1;
    }
    proof {
        lemma_digit_run_end_step_pub(v@, j as int, digit_run_end(v@, j as int));
        lemma_digit_run_end_facts(v@, j as int);
        lemma_digit_run_end_step(v@, i as int, j as int);
    }
    j
}

/// Read the value of the digit run at `i`, leading zeros allowed.
///
/// Succeeds exactly on a nonempty run whose value fits the machine
/// word; the result is that value and the position after the run.
pub fn parse_u64_lenient(v: &Vec<char>, i: usize) -> (r: Option<(u64, usize)>)
    requires
        i <= v@.len(),
    ensures
        ({
            let e = digit_run_end(v@, i as int);
            match r {
                Some((val, j)) => {
                    &&& j == e
                    &&& i < e <= v@.len()
                    &&& val == seq_val(v@.subrange(i as int, e))
                },
                None => i as int == e || seq_val(v@.subrange(i as int, e)) > u64::MAX,
            }
        }),
{
    proof {
        lemma_digit_run_end_facts(v@, i as int);
    }
    let ghost e = digit_run_end(v@, i as int);
    if i >= v.len() {
        return None;
    }
    let c0 = v[i];
    if !(c0 >= '0' && c0 <= '9') {
        return None;
    }
    let mut j: usize = i;
    let mut acc: u64 = 0;
    let mut overflowed = false;
    while j < v.len() && v[j] >= '0' && v[j] <= '9'
        invariant
            i <= j <= v@.len(),
            e == digit_run_end(v@, i as int),
            i <= e <= v@.len(),
            forall|k: int| i <= k < e ==> is_digit(#[trigger] v@[k]),
            e == v@.len() || !is_digit(v@[e]),
            j <= e,
            forall|k: int| i <= k < j ==> is_digit(#[trigger] v@[k]),
            !overflowed ==> acc == seq_val(v@.subrange(i as int, j as int)),
            overflowed ==> seq_val(v@.subrange(i as int, e)) > u64::MAX,
        decreases v@.len() - j,
    {
        proof {
            assert(is_digit(v@[j as int]));
            lemma_digit_run_end_step_pub(v@, i as int, e);
            assert(v@.subrange(i as int, j + 1).drop_last() =~= v@.subrange(
                i as int,
                j as int,
            ));
        }
        let d: u8 = (v[j] as u32 - 48) as u8;
        if !overflowed {
            if acc > (u64::MAX - d as u64) / 10 {
                proof {
                    assert(digit_val(v@[j as int]) == d);
                    assert(seq_val(v@.subrange(i as int, j + 1)) == acc * 10 + d);
                    vstd::arithmetic::div_mod::lemma_fundamental_div_mod(u64::MAX - d, 10);
                    assert(acc * 10 + d > u64::MAX) by (nonlinear_arith)
                        requires
                            acc > (u64::MAX - d as u64) / 10,
                            (u64::MAX - d as int) == ((u64::MAX - d as int) / 10) * 10 + (
                            u64::MAX - d as int) % 10,
                            0 <= (u64::MAX - d as int) % 10 < 10,
                            d < 10,
                    ;
                    lemma_seq_val_prefix_le(v@, i as int, j + 1, e);
                }
                overflowed = true;
            } else {
                proof {
                    assert(digit_val(v@[j as int]) == d);
                    vstd::arithmetic::div_mod::lemma_fundamental_div_mod(u64::MAX - d, 10);
                    assert(acc * 10 + d <= u64::MAX) by (nonlinear_arith)
                        requires
                            acc <= (u64::MAX - d as u64) / 10,
                            (u64::MAX - d as int) == ((u64::MAX - d as int) / 10) * 10 + (
                            u64::MAX - d as int) % 10,
                            0 <= (u64::MAX - d as int) % 10 < 10,
                            d >= 0,
                    ;
                }
                acc = acc * 10 + d as u64;
            }
        }
        j = j + 1;
    }
    proof {
        assert(j == e) by {
            assert(j == v@.len() || !is_digit(v@[j as int]));
            lemma_digit_run_end_step_pub(v@, i as int, j as int);
        }
    }
    if overflowed {
        return None;
    }
    Some((acc, j))
}

} // verus!