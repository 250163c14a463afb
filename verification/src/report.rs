//! Post-hoc report helpers over a recorded outcome stream: histogram
//! bucket counts, the report percentile rule, series downsampling,
//! and the CSV rendering of one record.

use vstd::prelude::*;
use crate::models::AttackResult;
use crate::numbers::spec_digits;
use crate::display::spec_format_duration;
use crate::wrappers::{chars_to_text, text_to_chars};

verus! {

/// How many samples fall in `[lo, hi)`; an absent bound is infinite.
pub open spec fn spec_range_count(s: Seq<u64>, lo: u64, hi: Option<u64>) -> int
    decreases s.len(),
{
    if s.len() == 0 {
        0
    } else {
        spec_range_count(s.drop_last(), lo, hi) + if s.last() >= lo && (match hi {
            Some(h) => s.last() < h,
            None => true,
        }) {
            1int
        } else {
            0int
        }
    }
}

/// Count the samples in `[lo, hi)`.
pub fn range_count(samples: &Vec<u64>, lo: u64, hi: Option<u64>) -> (r: usize)
    ensures
        r == spec_range_count(samples@, lo, hi),
{
    let mut n: usize = 0;
    let mut i: usize = 0;
    while i < samples.len()
        invariant
            i <= samples@.len(),
            n == spec_range_count(samples@.take(i as int), lo, hi),
            n <= i,
        decreases samples@.len() - i,
    {
        proof {
            assert(samples@.take(i + 1).drop_last() =~= samples@.take(i as int));
        }
        let x = samples[i];
        let inside = x >= lo && (match hi {
            Some(h) => x < h,
            None => true,
        });
        if inside {
            n = n + 1;
        }
        i = i + 1;
    }
    proof {
        assert(samples@.take(samples@.len() as int) =~= samples@);
    }
    n
}

/// The histogram of the samples over the buckets: one count per
/// interval between consecutive bucket bounds (the first from zero),
/// and a final count of everything at or above the last bound.
pub fn histogram_counts(samples: &Vec<u64>, buckets: &Vec<u64>) -> (r: Vec<usize>)
    ensures
        r@.len() == buckets@.len() + 1,
        forall|k: int|
            0 <= k < buckets@.len() ==> #[trigger] r@[k] == spec_range_count(
                samples@,
                if k == 0 {
                    0u64
                } else {
                    buckets@[k - 1]
                },
                Some(buckets@[k]),
            ),
        r@.last() == spec_range_count(
            samples@,
            if buckets@.len() == 0 {
                0u64
            } else {
                buckets@.last()
            },
            None,
        ),
{
    let mut out: Vec<usize> = Vec::new();
    let mut prev: u64 = 0;
    let mut k: usize = 0;
    while k < buckets.len()
        invariant
            k <= buckets@.len(),
            out@.len() == k,
            prev == if k == 0 {
                0u64
            } else {
                buckets@[k - 1]
            },
            forall|m: int|
                0 <= m < k ==> #[trigger] out@[m] == spec_range_count(
                    samples@,
                    if m == 0 {
                        0u64
                    } else {
                        buckets@[m - 1]
                    },
                    Some(buckets@[m]),
                ),
        decreases buckets@.len() - k,
    {
        let b = buckets[k];
        out.push(range_count(samples, prev, Some(b)));
        prev = b;
        k = k + 1;
    }
    out.push(range_count(samples, prev, None));
    out
}

/// The report percentile rule: the element at `ceil(len * num / den)
/// - 1`, clamped to the ends of a sorted sample sequence.
pub open spec fn spec_percentile_ceil(sorted: Seq<u64>, num: int, den: int) -> u64
    recommends
        sorted.len() > 0,
        den > 0,
{
    let scaled = (sorted.len() * num + den - 1) / den;
    if scaled <= 0 {
        sorted[0]
    } else if scaled - 1 < sorted.len() {
        sorted[scaled - 1]
    } else {
        sorted.last()
    }
}

/// Read the latency at percentile `num / den` of a sorted sample
/// sequence, by the report rule.
pub fn percentile_ceil(sorted: &Vec<u64>, num: u64, den: u64) -> (r: u64)
    requires
        sorted@.len() > 0,
        den > 0,
        num <= 10_000,
        den <= 10_000,
    ensures
        r == spec_percentile_ceil(sorted@, num as int, den as int),
{
    let n = sorted.len();
    proof {
        vstd::arithmetic::mul::lemma_mul_upper_bound(
            n as int,
            usize::MAX as int,
            num as int,
            10_000,
        );
        vstd::arithmetic::div_mod::lemma_div_basics_4(
            n as int * num as int + den - 1,
            den as int,
        );
    }
    let scaled = (n as u128 * num as u128 + den as u128 - 1) / (den as u128);
    if scaled == 0 {
        sorted[0]
    } else if scaled - 1 < n as u128 {
        sorted[(scaled - 1) as usize]
    } else {
        sorted[n - 1]
    }
}

/// Downsampling keeps every `factor`-th record, `factor` being the
/// sample count over the threshold: the result at `k` is the input at
/// `k * factor`, and the kept records cover the whole series.
pub fn downsample(results: &Vec<AttackResult>, threshold: usize) -> (r: Vec<AttackResult>)
    requires
        threshold > 0,
    ensures
        results@.len() <= threshold ==> ({
            &&& r@.len() == results@.len()
            &&& forall|k: int| 0 <= k < r@.len() ==> (#[trigger] r@[k])@ == results@[k]@
        }),
        results@.len() > threshold ==> ({
            let factor = results@.len() as int / threshold as int;
            &&& factor >= 1
            &&& r@.len() >= 1
            &&& forall|k: int|
                0 <= k < r@.len() ==> (#[trigger] r@[k])@ == results@[k * factor]@
            &&& (r@.len() - 1) * factor < results@.len() <= r@.len() * factor
        }),
{
    if results.len() <= threshold {
        let mut out: Vec<AttackResult> = Vec::new();
        let mut i: usize = 0;
        while i < results.len()
            invariant
                i <= results@.len(),
                out@.len() == i,
                forall|k: int| 0 <= k < i ==> (#[trigger] out@[k])@ == results@[k]@,
            decreases results@.len() - i,
        {
            out.push(results[i].clone_record());
            i = i + 1;
        }
        return out;
    }
    let factor = results.len() / threshold;
    proof {
        vstd::arithmetic::div_mod::lemma_div_is_ordered(
            threshold as int,
            results@.len() as int,
            threshold as int,
        );
        vstd::arithmetic::div_mod::lemma_div_basics(threshold as int);
    }
    let mut out: Vec<AttackResult> = Vec::new();
    let mut idx: usize = 0;
    let mut done = false;
    proof {
        vstd::arithmetic::mul::lemma_mul_basics(factor as int);
    }
    while !done
        invariant
            factor >= 1,
            threshold < results@.len(),
            factor == results@.len() as int / threshold as int,
            !done ==> idx == out@.len() * factor,
            !done ==> idx < results@.len(),
            forall|m: int|
                0 <= m < out@.len() ==> (#[trigger] out@[m])@ == results@[m * factor]@,
            done ==> out@.len() >= 1,
            done ==> (out@.len() - 1) * factor < results@.len() <= out@.len() * factor,
        decreases results@.len() - idx + (if done {
            0int
        } else {
            1int
        }),
    {
        let ghost before = out@.len() as int;
        out.push(results[idx].clone_record());
        proof {
            vstd::arithmetic::mul::lemma_mul_is_distributive_add_other_way(
                factor as int,
                before,
                1,
            );
            vstd::arithmetic::mul::lemma_mul_basics(factor as int);
            assert((before + 1) * factor == before * factor + factor);
        }
        if results.len() - idx <= factor {
            done = true;
        } else {
            idx = idx + factor;
        }
    }
    out
}

/// One CSV field: quoted, with every quote doubled, when it holds a
/// comma, a quote or a line break; itself otherwise.
pub open spec fn spec_csv_field(s: Seq<char>) -> Seq<char> {
    if spec_needs_quoting(s) {
        seq!['"'] + spec_double_quotes(s) + seq!['"']
    } else {
        s
    }
}

/// Whether a CSV field needs quoting.
pub open spec fn spec_needs_quoting(s: Seq<char>) -> bool {
    exists|k: int|
        0 <= k < s.len() && ((#[trigger] s[k]) == ',' || s[k] == '"' || s[k] == '\n' || s[k]
            == '\r')
}

/// The field with every quote doubled.
pub open spec fn spec_double_quotes(s: Seq<char>) -> Seq<char>
    decreases s.len(),
{
    if s.len() == 0 {
        Seq::empty()
    } else if s.first() == '"' {
        seq!['"', '"'] + spec_double_quotes(s.drop_first())
    } else {
        seq![s.first()] + spec_double_quotes(s.drop_first())
    }
}

/// Doubling quotes distributes over appending one character.
proof fn lemma_double_quotes_snoc(s: Seq<char>, c: char)
    ensures
        spec_double_quotes(s.push(c)) == spec_double_quotes(s) + (if c == '"' {
            seq!['"', '"']
        } else {
            seq![c]
        }),
    decreases s.len(),
{
    let p = s.push(c);
    let unit: Seq<char> = if c == '"' {
        seq!['"', '"']
    } else {
        seq![c]
    };
    if s.len() == 0 {
        assert(p.drop_first() =~= Seq::<char>::empty());
        assert(p.first() == c);
        assert(spec_double_quotes(Seq::<char>::empty()) =~= Seq::<char>::empty());
        assert(spec_double_quotes(p) =~= spec_double_quotes(s) + unit);
    } else {
        assert(p.first() == s.first());
        assert(p.drop_first() =~= s.drop_first().push(c));
        lemma_double_quotes_snoc(s.drop_first(), c);
        let head: Seq<char> = if s.first() == '"' {
            seq!['"', '"']
        } else {
            seq![s.first()]
        };
        assert(spec_double_quotes(p) == head + (spec_double_quotes(s.drop_first()) + unit));
        assert(head + (spec_double_quotes(s.drop_first()) + unit) =~= (head
            + spec_double_quotes(s.drop_first())) + unit);
    }
}

/// Render one CSV field from its text.
pub fn csv_field(s: &str) -> (r: String)
    ensures
        r@ == spec_csv_field(s@),
{
    let chars = text_to_chars(s);
    let mut needs = false;
    let mut i: usize = 0;
    while i < chars.len()
        invariant
            i <= chars@.len(),
            chars@ == s@,
            needs == exists|k: int|
                0 <= k < i && ((#[trigger] s@[k]) == ',' || s@[k] == '"' || s@[k] == '\n'
                    || s@[k] == '\r'),
        decreases chars@.len() - i,
    {
        let c = chars[i];
        if c == ',' || c == '"' || c == '\n' || c == '\r' {
            needs = true;
        }
        i = i + 1;
    }
    if !needs {
        let r = chars_to_text(&chars);
        return r;
    }
    let mut out: Vec<char> = Vec::new();
    out.push('"');
    let ghost start = out@;
    let mut j: usize = 0;
    while j < chars.len()
        invariant
            j <= chars@.len(),
            chars@ == s@,
            out@ == start + spec_double_quotes(s@.take(j as int)),
        decreases chars@.len() - j,
    {
        let c = chars[j];
        if c == '"' {
            out.push('"');
            out.push('"');
        } else {
            out.push(c);
        }
        proof {
            assert(s@.take(j + 1) =~= s@.take(j as int).push(s@[j as int]));
            lemma_double_quotes_snoc(s@.take(j as int), s@[j as int]);
            assert(out@ =~= start + spec_double_quotes(s@.take(j + 1)));
        }
        j = j + 1;
    }
    out.push('"');
    proof {
        assert(s@.take(s@.len() as int) =~= s@);
        assert(out@ =~= spec_csv_field(s@));
    }
    chars_to_text(&out)
}

/// The CSV record of one outcome: timestamp, human-readable latency,
/// status, error text, method, URL, and the byte counters, in that
/// order, fields not yet quoted.  The timestamp is rendered as the
/// record carries it, decimal milliseconds since the epoch: the
/// record holds no calendar date, and inventing one here would add a
/// conversion the log itself never stores.
pub fn csv_record(r: &AttackResult) -> (fields: Vec<String>)
    ensures
        fields@.len() == 8,
        fields@[0]@ == spec_digits(r@.timestamp as int),
        fields@[1]@ == spec_format_duration(r@.latency as int),
        fields@[2]@ == spec_digits(r@.status_code as int),
        fields@[3]@ == match r@.error {
            Some(e) => e,
            None => Seq::<char>::empty(),
        },
        fields@[4]@ == r@.target.method,
        fields@[5]@ == r@.target.url,
        fields@[6]@ == spec_digits(r@.bytes_in as int),
        fields@[7]@ == spec_digits(r@.bytes_out as int),
{
    let mut fields: Vec<String> = Vec::new();
    fields.push(chars_to_text(&crate::numbers::u64_digits(r.timestamp)));
    fields.push(crate::display::format_duration(r.latency));
    fields.push(chars_to_text(&crate::numbers::u64_digits(r.status_code as u64)));
    match &r.error {
        Some(e) => {
            let c = e.clone();
            proof {
                assert(c@ =~= e@);
            }
            fields.push(c);
        },
        None => {
            let empty = String::new();
            fields.push(empty);
        },
    }
    let m = r.target.method.clone();
    let u = r.target.url.clone();
    proof {
        assert(m@ =~= r.target.method@);
        assert(u@ =~= r.target.url@);
    }
    fields.push(m);
    fields.push(u);
    fields.push(chars_to_text(&crate::numbers::u64_digits(r.bytes_in as u64)));
    fields.push(chars_to_text(&crate::numbers::u64_digits(r.bytes_out as u64)));
    fields
}

} // verus!
