//! The durable result log's line format: one JSON object per outcome,
//! scalars first, strings escaped.
//!
//! `spec_encode_outcome` is the canonical line for a record;
//! `spec_parse_outcome` is the exact reader, and parsing an encoded
//! line is proved to give the record back.  Re-deriving the aggregate
//! metrics from a written log therefore yields what the live run
//! counted.

use vstd::prelude::*;
use crate::models::{AttackResult, AttackResultView, Header, Target, TargetView, headers_view};
use crate::numbers::{digit_char, digit_run_end, is_digit, parse_u64, push_u64_digits, seq_val,
    spec_digits};
use crate::wrappers::{chars_to_text, text_to_chars};

verus! {

/// The escaped form of one character: quote and backslash get a
/// backslash; control characters become `\u00xx` with lowercase hex;
/// everything else stands for itself.
pub open spec fn esc_char(c: char) -> Seq<char> {
    if c == '"' {
        seq!['\\', '"']
    } else if c == '\\' {
        seq!['\\', '\\']
    } else if (c as int) < 32 {
        seq!['\\', 'u', '0', '0', hex_char(c as int / 16), hex_char(c as int % 16)]
    } else {
        seq![c]
    }
}

/// The lowercase hex digit of a value below sixteen.
pub open spec fn hex_char(d: int) -> char {
    if d < 10 {
        digit_char(d)
    } else {
        (d + 87) as char
    }
}

/// The numeric value of a lowercase hex digit.
pub open spec fn hex_val(c: char) -> int {
    if is_digit(c) {
        c as int - 48
    } else {
        c as int - 87
    }
}

/// The escaped form of a string.
pub open spec fn spec_escape(s: Seq<char>) -> Seq<char>
    decreases s.len(),
{
    if s.len() == 0 {
        Seq::empty()
    } else {
        esc_char(s.first()) + spec_escape(s.drop_first())
    }
}

/// A quoted, escaped string.
pub open spec fn spec_encode_string(s: Seq<char>) -> Seq<char> {
    seq!['"'] + spec_escape(s) + seq!['"']
}

/// A `null` or a quoted string.
pub open spec fn spec_encode_opt_string(s: Option<Seq<char>>) -> Seq<char> {
    match s {
        None => "null"@,
        Some(x) => spec_encode_string(x),
    }
}

/// `true` or `false`.
pub open spec fn spec_encode_bool(b: bool) -> Seq<char> {
    if b {
        "true"@
    } else {
        "false"@
    }
}

/// The items of a byte list after the first: `,n` for each byte.
pub open spec fn spec_encode_bytes_tail(b: Seq<u8>) -> Seq<char>
    decreases b.len(),
{
    if b.len() == 0 {
        Seq::empty()
    } else {
        seq![','] + spec_digits(b.first() as int) + spec_encode_bytes_tail(b.drop_first())
    }
}

/// A byte list: `[]`, or `[n0,n1,...]`.
pub open spec fn spec_encode_bytes(b: Seq<u8>) -> Seq<char> {
    if b.len() == 0 {
        "[]"@
    } else {
        seq!['['] + spec_digits(b.first() as int) + spec_encode_bytes_tail(b.drop_first())
            + seq![']']
    }
}

/// A `null` or a byte list.
pub open spec fn spec_encode_body(b: Option<Seq<u8>>) -> Seq<char> {
    match b {
        None => "null"@,
        Some(x) => spec_encode_bytes(x),
    }
}

/// One header pair: `["name","value"]`.
pub open spec fn spec_encode_header(h: (Seq<char>, Seq<char>)) -> Seq<char> {
    seq!['['] + spec_encode_string(h.0) + seq![','] + spec_encode_string(h.1) + seq![']']
}

/// The pairs of a header list after the first: `,pair` for each.
pub open spec fn spec_encode_headers_tail(hs: Seq<(Seq<char>, Seq<char>)>) -> Seq<char>
    decreases hs.len(),
{
    if hs.len() == 0 {
        Seq::empty()
    } else {
        seq![','] + spec_encode_header(hs.first()) + spec_encode_headers_tail(hs.drop_first())
    }
}

/// A header list: `[]`, or `[pair,pair,...]`.
pub open spec fn spec_encode_headers(hs: Seq<(Seq<char>, Seq<char>)>) -> Seq<char> {
    if hs.len() == 0 {
        "[]"@
    } else {
        seq!['['] + spec_encode_header(hs.first()) + spec_encode_headers_tail(hs.drop_first())
            + seq![']']
    }
}

/// The string, header and body fields of a log line.
pub open spec fn spec_encode_tail(r: AttackResultView) -> Seq<char> {
    ",\"error\":"@ + spec_encode_opt_string(r.error) + ",\"target\":{\"method\":"@
        + spec_encode_string(r.target.method) + ",\"url\":"@ + spec_encode_string(
        r.target.url,
    ) + ",\"headers\":"@ + spec_encode_headers(r.target.headers) + ",\"body\":"@
        + spec_encode_body(r.target.body) + "}}"@
}

/// The byte counters and timeout flag of a log line, followed by its
/// tail.
pub open spec fn spec_encode_rest(r: AttackResultView) -> Seq<char> {
    ",\"bytes_in\":"@ + spec_digits(r.bytes_in as int) + ",\"bytes_out\":"@ + spec_digits(
        r.bytes_out as int,
    ) + ",\"timed_out\":"@ + spec_encode_bool(r.timed_out) + spec_encode_tail(r)
}

/// The canonical log line of one outcome record (without the
/// terminating newline).
pub open spec fn spec_encode_outcome(r: AttackResultView) -> Seq<char> {
    "{\"timestamp\":"@ + spec_digits(r.timestamp as int) + ",\"latency\":"@ + spec_digits(
        r.latency as int,
    ) + ",\"status_code\":"@ + spec_digits(r.status_code as int) + spec_encode_rest(r)
}

/// Peeling the last character off a string peels the last escape unit
/// off its escaped form.
proof fn lemma_escape_snoc(s: Seq<char>, c: char)
    ensures
        spec_escape(s.push(c)) == spec_escape(s) + esc_char(c),
    decreases s.len(),
{
    let p = s.push(c);
    if s.len() == 0 {
        assert(p.drop_first() =~= Seq::<char>::empty());
        assert(p.first() == c);
        assert(spec_escape(Seq::<char>::empty()) =~= Seq::<char>::empty());
        assert(spec_escape(p) =~= esc_char(c));
        assert(spec_escape(s) + esc_char(c) =~= esc_char(c));
    } else {
        assert(p.first() == s.first());
        assert(p.drop_first() =~= s.drop_first().push(c));
        lemma_escape_snoc(s.drop_first(), c);
        assert(spec_escape(p) == esc_char(s.first()) + (spec_escape(s.drop_first())
            + esc_char(c)));
        assert(esc_char(s.first()) + (spec_escape(s.drop_first()) + esc_char(c)) =~= (esc_char(
            s.first(),
        ) + spec_escape(s.drop_first())) + esc_char(c));
    }
}

/// Append the escaped form of one character.
fn push_esc_char(c: char, out: &mut Vec<char>)
    ensures
        final(out)@ == old(out)@ + esc_char(c),
{
    if c == '"' {
        out.push('\\');
        out.push('"');
    } else if c == '\\' {
        out.push('\\');
        out.push('\\');
    } else if (c as u32) < 32 {
        out.push('\\');
        out.push('u');
        out.push('0');
        out.push('0');
        let hi = (c as u32) / 16;
        let lo = (c as u32) % 16;
        out.push(if hi < 10 {
            (48 + hi as u8) as char
        } else {
            (87 + hi as u8) as char
        });
        out.push(if lo < 10 {
            (48 + lo as u8) as char
        } else {
            (87 + lo as u8) as char
        });
    } else {
        out.push(c);
    }
    proof {
        assert(final(out)@ =~= old(out)@ + esc_char(c));
    }
}

/// Append a quoted, escaped string.
fn push_string(s: &str, out: &mut Vec<char>)
    ensures
        final(out)@ == old(out)@ + spec_encode_string(s@),
{
    let chars = text_to_chars(s);
    out.push('"');
    let ghost start = out@;
    let mut i: usize = 0;
    while i < chars.len()
        invariant
            i <= chars@.len(),
            chars@ == s@,
            out@ == start + spec_escape(s@.take(i as int)),
        decreases chars@.len() - i,
    {
        push_esc_char(chars[i], out);
        proof {
            assert(s@.take(i + 1) =~= s@.take(i as int).push(s@[i as int]));
            lemma_escape_snoc(s@.take(i as int), s@[i as int]);
            assert(start + spec_escape(s@.take(i as int)) + esc_char(s@[i as int]) =~= start
                + spec_escape(s@.take(i + 1)));
        }
        i = i + 1;
    }
    out.push('"');
    proof {
        assert(s@.take(s@.len() as int) =~= s@);
        assert(final(out)@ =~= old(out)@ + spec_encode_string(s@));
    }
}

/// Append the characters of a literal.
fn push_lit(s: &str, out: &mut Vec<char>)
    ensures
        final(out)@ == old(out)@ + s@,
{
    let chars = text_to_chars(s);
    let mut i: usize = 0;
    while i < chars.len()
        invariant
            i <= chars@.len(),
            chars@ == s@,
            out@ == old(out)@ + s@.take(i as int),
        decreases chars@.len() - i,
    {
        out.push(chars[i]);
        proof {
            assert(old(out)@ + s@.take(i as int) + seq![s@[i as int]] =~= old(out)@ + s@.take(
                i + 1,
            ));
        }
        i = i + 1;
    }
    proof {
        assert(old(out)@ + s@.take(s@.len() as int) =~= old(out)@ + s@);
    }
}

/// Append a byte list.
fn push_body(b: &Option<Vec<u8>>, out: &mut Vec<char>)
    ensures
        final(out)@ == old(out)@ + spec_encode_body(match b {
            Some(v) => Some(v@),
            None => None,
        }),
{
    match b {
        None => {
            push_lit("null", out);
        },
        Some(v) => {
            if v.len() == 0 {
                push_lit("[]", out);
                proof {
                    assert(final(out)@ =~= old(out)@ + spec_encode_body(Some(v@)));
                }
            } else {
                out.push('[');
                push_u64_digits(v[0] as u64, out);
                let ghost start = out@;
                let mut i: usize = 1;
                while i < v.len()
                    invariant
                        1 <= i <= v@.len(),
                        out@ == start + spec_encode_bytes_tail(v@.subrange(1, i as int)),
                    decreases v@.len() - i,
                {
                    out.push(',');
                    push_u64_digits(v[i] as u64, out);
                    proof {
                        lemma_bytes_tail_snoc(v@.subrange(1, i as int), v@[i as int]);
                        assert(v@.subrange(1, i + 1) =~= v@.subrange(1, i as int).push(
                            v@[i as int],
                        ));
                        assert(start + spec_encode_bytes_tail(v@.subrange(1, i as int)) + (seq![
                            ',',
                        ] + spec_digits(v@[i as int] as int)) =~= start
                            + spec_encode_bytes_tail(v@.subrange(1, i + 1)));
                    }
                    i = i + 1;
                }
                out.push(']');
                proof {
                    assert(v@.subrange(1, v@.len() as int) =~= v@.drop_first());
                    assert(final(out)@ =~= old(out)@ + spec_encode_body(Some(v@)));
                }
            }
        },
    }
}

/// Peeling the last byte off a list peels the last item off its
/// rendered tail.
proof fn lemma_bytes_tail_snoc(b: Seq<u8>, x: u8)
    ensures
        spec_encode_bytes_tail(b.push(x)) == spec_encode_bytes_tail(b) + (seq![','] + spec_digits(
            x as int,
        )),
    decreases b.len(),
{
    let p = b.push(x);
    if b.len() == 0 {
        assert(p.drop_first() =~= Seq::<u8>::empty());
        assert(p.first() == x);
        assert(spec_encode_bytes_tail(Seq::<u8>::empty()) =~= Seq::<char>::empty());
        assert(spec_encode_bytes_tail(p) =~= spec_encode_bytes_tail(b) + (seq![','] + spec_digits(
            x as int,
        )));
    } else {
        assert(p.first() == b.first());
        assert(p.drop_first() =~= b.drop_first().push(x));
        lemma_bytes_tail_snoc(b.drop_first(), x);
        assert(spec_encode_bytes_tail(p) == seq![','] + spec_digits(p.first() as int)
            + spec_encode_bytes_tail(b.drop_first().push(x)));
        assert(seq![','] + spec_digits(b.first() as int) + (spec_encode_bytes_tail(
            b.drop_first(),
        ) + (seq![','] + spec_digits(x as int))) =~= spec_encode_bytes_tail(b) + (seq![',']
            + spec_digits(x as int)));
    }
}

/// Peeling the last pair off a header list peels the last item off
/// its rendered tail.
proof fn lemma_headers_tail_snoc(hs: Seq<(Seq<char>, Seq<char>)>, x: (Seq<char>, Seq<char>))
    ensures
        spec_encode_headers_tail(hs.push(x)) == spec_encode_headers_tail(hs) + (seq![',']
            + spec_encode_header(x)),
    decreases hs.len(),
{
    let p = hs.push(x);
    if hs.len() == 0 {
        assert(p.drop_first() =~= Seq::<(Seq<char>, Seq<char>)>::empty());
        assert(p.first() == x);
        assert(spec_encode_headers_tail(Seq::<(Seq<char>, Seq<char>)>::empty())
            =~= Seq::<char>::empty());
        assert(spec_encode_headers_tail(p) =~= spec_encode_headers_tail(hs) + (seq![',']
            + spec_encode_header(x)));
    } else {
        assert(p.first() == hs.first());
        assert(p.drop_first() =~= hs.drop_first().push(x));
        lemma_headers_tail_snoc(hs.drop_first(), x);
        assert(spec_encode_headers_tail(p) == seq![','] + spec_encode_header(p.first())
            + spec_encode_headers_tail(hs.drop_first().push(x)));
        assert(seq![','] + spec_encode_header(hs.first()) + (spec_encode_headers_tail(
            hs.drop_first(),
        ) + (seq![','] + spec_encode_header(x))) =~= spec_encode_headers_tail(hs) + (seq![',']
            + spec_encode_header(x)));
    }
}

/// Append one header pair.
fn push_header(h: &Header, out: &mut Vec<char>)
    ensures
        final(out)@ == old(out)@ + spec_encode_header(h@),
{
    out.push('[');
    push_string(h.name.as_str(), out);
    out.push(',');
    push_string(h.value.as_str(), out);
    out.push(']');
    proof {
        assert(final(out)@ =~= old(out)@ + spec_encode_header(h@));
    }
}

/// Append a header list.
fn push_headers(hs: &Vec<Header>, out: &mut Vec<char>)
    ensures
        final(out)@ == old(out)@ + spec_encode_headers(headers_view(hs@)),
{
    let ghost views = headers_view(hs@);
    if hs.len() == 0 {
        push_lit("[]", out);
        proof {
            assert(views.len() == 0);
            assert(final(out)@ =~= old(out)@ + spec_encode_headers(views));
        }
    } else {
        out.push('[');
        push_header(&hs[0], out);
        let ghost start = out@;
        proof {
            assert(views.first() == hs@[0]@);
        }
        let mut i: usize = 1;
        while i < hs.len()
            invariant
                1 <= i <= hs@.len(),
                views == headers_view(hs@),
                views.len() == hs@.len(),
                out@ == start + spec_encode_headers_tail(views.subrange(1, i as int)),
            decreases hs@.len() - i,
        {
            out.push(',');
            push_header(&hs[i], out);
            proof {
                lemma_headers_tail_snoc(views.subrange(1, i as int), views[i as int]);
                assert(views.subrange(1, i + 1) =~= views.subrange(1, i as int).push(
                    views[i as int],
                ));
                assert(views[i as int] == hs@[i as int]@);
                assert(start + spec_encode_headers_tail(views.subrange(1, i as int)) + (seq![
                    ',',
                ] + spec_encode_header(views[i as int])) =~= start + spec_encode_headers_tail(
                    views.subrange(1, i + 1),
                ));
            }
            i = i + 1;
        }
        out.push(']');
        proof {
            assert(views.subrange(1, views.len() as int) =~= views.drop_first());
            assert(final(out)@ =~= old(out)@ + spec_encode_headers(views));
        }
    }
}

/// Append the characters of another buffer.
fn append_chars(dst: &mut Vec<char>, src: &Vec<char>)
    ensures
        final(dst)@ == old(dst)@ + src@,
{
    let mut i: usize = 0;
    while i < src.len()
        invariant
            i <= src@.len(),
            dst@ == old(dst)@ + src@.take(i as int),
        decreases src@.len() - i,
    {
        dst.push(src[i]);
        proof {
            assert(dst@ =~= old(dst)@ + src@.take(i + 1));
        }
        i = i + 1;
    }
    proof {
        assert(old(dst)@ + src@.take(src@.len() as int) =~= old(dst)@ + src@);
    }
}

/// Render one outcome record as its canonical log line.
pub fn encode_outcome(r: &AttackResult) -> (line: String)
    ensures
        line@ == spec_encode_outcome(r@),
{
    let mut tail: Vec<char> = Vec::new();
    push_lit(",\"error\":", &mut tail);
    match &r.error {
        None => push_lit("null", &mut tail),
        Some(e) => push_string(e.as_str(), &mut tail),
    }
    push_lit(",\"target\":{\"method\":", &mut tail);
    push_string(r.target.method.as_str(), &mut tail);
    push_lit(",\"url\":", &mut tail);
    push_string(r.target.url.as_str(), &mut tail);
    push_lit(",\"headers\":", &mut tail);
    push_headers(&r.target.headers, &mut tail);
    push_lit(",\"body\":", &mut tail);
    push_body(&r.target.body, &mut tail);
    push_lit("}}", &mut tail);
    proof {
        assert(tail@ == spec_encode_tail(r@));
    }
    let mut rest: Vec<char> = Vec::new();
    push_lit(",\"bytes_in\":", &mut rest);
    push_u64_digits(r.bytes_in as u64, &mut rest);
    push_lit(",\"bytes_out\":", &mut rest);
    push_u64_digits(r.bytes_out as u64, &mut rest);
    push_lit(",\"timed_out\":", &mut rest);
    if r.timed_out {
        push_lit("true", &mut rest);
    } else {
        push_lit("false", &mut rest);
    }
    append_chars(&mut rest, &tail);
    proof {
        assert(rest@ == spec_encode_rest(r@));
    }
    let mut out: Vec<char> = Vec::new();
    push_lit("{\"timestamp\":", &mut out);
    push_u64_digits(r.timestamp, &mut out);
    push_lit(",\"latency\":", &mut out);
    push_u64_digits(r.latency, &mut out);
    push_lit(",\"status_code\":", &mut out);
    push_u64_digits(r.status_code as u64, &mut out);
    append_chars(&mut out, &rest);
    proof {
        assert(out@ == spec_encode_outcome(r@));
    }
    chars_to_text(&out)
}

/// Whether the text at `i` is exactly the literal; the position after
/// it on success.
pub open spec fn spec_parse_lit(s: Seq<char>, i: int, lit: Seq<char>) -> Option<int> {
    if 0 <= i && i + lit.len() <= s.len() && s.subrange(i, i + lit.len()) == lit {
        Some(i + lit.len())
    } else {
        None
    }
}

/// The reader of a canonical number: succeeds exactly on a nonempty
/// digit run with no superfluous leading zero whose value fits the
/// machine word.
pub open spec fn spec_parse_number(s: Seq<char>, i: int) -> Option<(u64, int)> {
    let e = digit_run_end(s, i);
    if i < e && !(s[i] == '0' && e > i + 1) && seq_val(s.subrange(i, e)) <= u64::MAX {
        Some((seq_val(s.subrange(i, e)) as u64, e))
    } else {
        None
    }
}

/// The reader of a string body: characters and escape units up to the
/// closing quote.
pub open spec fn spec_parse_inner(s: Seq<char>, i: int) -> Option<(Seq<char>, int)>
    decreases s.len() - i when 0 <= i <= s.len()
{
    if i >= s.len() {
        None
    } else if s[i] == '"' {
        Some((Seq::empty(), i + 1))
    } else if s[i] == '\\' {
        if i + 2 <= s.len() && (s[i + 1] == '"' || s[i + 1] == '\\') {
            match spec_parse_inner(s, i + 2) {
                Some((x, j)) => Some((seq![s[i + 1]] + x, j)),
                None => None,
            }
        } else if i + 6 <= s.len() && s[i + 1] == 'u' && s[i + 2] == '0' && s[i + 3] == '0'
            && is_hex_lower(s[i + 4]) && is_hex_lower(s[i + 5]) && 16 * hex_val(s[i + 4])
            + hex_val(s[i + 5]) < 32 {
            match spec_parse_inner(s, i + 6) {
                Some((x, j)) => Some(
                    (seq![(16 * hex_val(s[i + 4]) + hex_val(s[i + 5])) as char] + x, j),
                ),
                None => None,
            }
        } else {
            None
        }
    } else if (s[i] as int) < 32 {
        None
    } else {
        match spec_parse_inner(s, i + 1) {
            Some((x, j)) => Some((seq![s[i]] + x, j)),
            None => None,
        }
    }
}

/// Whether the character is a lowercase hex digit.
pub open spec fn is_hex_lower(c: char) -> bool {
    is_digit(c) || ('a' <= c && c <= 'f')
}

/// The reader of a quoted string.
pub open spec fn spec_parse_string(s: Seq<char>, i: int) -> Option<(Seq<char>, int)> {
    if 0 <= i < s.len() && s[i] == '"' {
        spec_parse_inner(s, i + 1)
    } else {
        None
    }
}

/// The reader of `null` or a quoted string.
pub open spec fn spec_parse_opt_string(s: Seq<char>, i: int) -> Option<
    (Option<Seq<char>>, int),
> {
    match spec_parse_lit(s, i, "null"@) {
        Some(j) => Some((None, j)),
        None => match spec_parse_string(s, i) {
            Some((x, j)) => Some((Some(x), j)),
            None => None,
        },
    }
}

/// The reader of `true` or `false`.
pub open spec fn spec_parse_bool(s: Seq<char>, i: int) -> Option<(bool, int)> {
    match spec_parse_lit(s, i, "true"@) {
        Some(j) => Some((true, j)),
        None => match spec_parse_lit(s, i, "false"@) {
            Some(j) => Some((false, j)),
            None => None,
        },
    }
}

/// The reader of a byte list's tail: `,n` items up to the closing
/// bracket.
pub open spec fn spec_parse_bytes_tail(s: Seq<char>, i: int) -> Option<(Seq<u8>, int)>
    decreases s.len() - i when 0 <= i <= s.len() via bytes_tail_decreases
{
    if i < s.len() && s[i] == ']' {
        Some((Seq::empty(), i + 1))
    } else if i < s.len() && s[i] == ',' {
        match spec_parse_number(s, i + 1) {
            Some((v, j)) => if v <= 255 {
                match spec_parse_bytes_tail(s, j) {
                    Some((xs, k)) => Some((seq![v as u8] + xs, k)),
                    None => None,
                }
            } else {
                None
            },
            None => None,
        }
    } else {
        None
    }
}

#[via_fn]
proof fn bytes_tail_decreases(s: Seq<char>, i: int) {
    if 0 <= i <= s.len() && i < s.len() && s[i] == ',' {
        crate::numbers::lemma_digit_run_end_facts(s, i + 1);
    }
}

/// The reader of a byte list.
pub open spec fn spec_parse_bytes(s: Seq<char>, i: int) -> Option<(Seq<u8>, int)> {
    if !(0 <= i < s.len() && s[i] == '[') {
        None
    } else if i + 2 <= s.len() && s[i + 1] == ']' {
        Some((Seq::empty(), i + 2))
    } else {
        match spec_parse_number(s, i + 1) {
            Some((v, j)) => if v <= 255 {
                match spec_parse_bytes_tail(s, j) {
                    Some((xs, k)) => Some((seq![v as u8] + xs, k)),
                    None => None,
                }
            } else {
                None
            },
            None => None,
        }
    }
}

/// The reader of `null` or a byte list.
pub open spec fn spec_parse_body(s: Seq<char>, i: int) -> Option<(Option<Seq<u8>>, int)> {
    match spec_parse_lit(s, i, "null"@) {
        Some(j) => Some((None, j)),
        None => match spec_parse_bytes(s, i) {
            Some((x, j)) => Some((Some(x), j)),
            None => None,
        },
    }
}

/// The reader of one `["name","value"]` pair.
pub open spec fn spec_parse_header(s: Seq<char>, i: int) -> Option<
    ((Seq<char>, Seq<char>), int),
> {
    if !(0 <= i < s.len() && s[i] == '[') {
        None
    } else {
        match spec_parse_string(s, i + 1) {
            Some((n, j)) => if j < s.len() && s[j] == ',' {
                match spec_parse_string(s, j + 1) {
                    Some((v, k)) => if k < s.len() && s[k] == ']' {
                        Some(((n, v), k + 1))
                    } else {
                        None
                    },
                    None => None,
                }
            } else {
                None
            },
            None => None,
        }
    }
}

/// A canonical number embedded in text, followed by a non-digit, is
/// read back as itself.
pub proof fn lemma_parse_number_at(s: Seq<char>, i: int, n: int)
    requires
        0 <= n <= u64::MAX,
        0 <= i,
        i + spec_digits(n).len() <= s.len(),
        s.subrange(i, i + spec_digits(n).len()) == spec_digits(n),
        i + spec_digits(n).len() == s.len() || !is_digit(s[i + spec_digits(n).len()]),
    ensures
        spec_parse_number(s, i) == Some((n as u64, i + spec_digits(n).len())),
{
    let d = spec_digits(n);
    let e = i + d.len();
    crate::numbers::lemma_digits_facts(n);
    assert forall|k: int| i <= k < e implies is_digit(#[trigger] s[k]) by {
        assert(s[k] == d[k - i]);
    }
    crate::numbers::lemma_digit_run_end_step_pub(s, i, e);
    assert(digit_run_end(s, i) == e);
    assert(seq_val(s.subrange(i, e)) == n);
    assert(s[i] == d[0]);
    if s[i] == '0' {
        assert(n == 0 || d[0] != '0');
        assert(n == 0 ==> d =~= seq!['0']);
        assert(e == i + 1);
    }
}

/// An embedded literal is read back as itself.
pub proof fn lemma_parse_lit_at(s: Seq<char>, i: int, lit: Seq<char>)
    requires
        0 <= i,
        i + lit.len() <= s.len(),
        s.subrange(i, i + lit.len()) == lit,
    ensures
        spec_parse_lit(s, i, lit) == Some(i + lit.len()),
{
}

/// An embedded escaped string, up to its closing quote, is read back
/// as the string it escapes.
pub proof fn lemma_parse_inner_at(s: Seq<char>, i: int, x: Seq<char>)
    requires
        crate::models::text_ok(x),
        0 <= i,
        i + spec_escape(x).len() + 1 <= s.len(),
        s.subrange(i, i + spec_escape(x).len()) == spec_escape(x),
        s[i + spec_escape(x).len()] == '"',
    ensures
        spec_parse_inner(s, i) == Some((x, i + spec_escape(x).len() + 1)),
    decreases x.len(),
{
    let esc = spec_escape(x);
    if x.len() == 0 {
        assert(esc =~= Seq::<char>::empty());
        assert(s[i] == '"');
    } else {
        let c = x.first();
        assert(crate::models::char_ok(c));
        let u = esc_char(c);
        let rest = x.drop_first();
        assert(crate::models::text_ok(rest)) by {
            assert forall|k: int| 0 <= k < rest.len() implies crate::models::char_ok(
                #[trigger] rest[k],
            ) by {
                assert(rest[k] == x[k + 1]);
                assert(crate::models::char_ok(x[k + 1]));
            }
        }
        assert(esc == u + spec_escape(rest));
        let ri = i + u.len();
        assert forall|k: int| 0 <= k < u.len() implies s[i + k] == u[k] by {
            assert(s.subrange(i, i + esc.len())[k] == esc[k]);
            assert(esc[k] == u[k]);
        }
        assert forall|k: int| 0 <= k < spec_escape(rest).len() implies s.subrange(
            ri,
            ri + spec_escape(rest).len(),
        )[k] == spec_escape(rest)[k] by {
            assert(s.subrange(i, i + esc.len())[u.len() + k] == esc[u.len() + k]);
            assert(esc[u.len() + k] == spec_escape(rest)[k]);
        }
        assert(s.subrange(ri, ri + spec_escape(rest).len()) =~= spec_escape(rest));
        assert(s[ri + spec_escape(rest).len()] == '"');
        lemma_parse_inner_at(s, ri, rest);
        assert('"' as int == 34 && '\\' as int == 92);
        if c == '"' {
            assert(s[i] == '\\' && s[i + 1] == '"');
            assert(seq![s[i + 1]] + rest =~= x);
        } else if c == '\\' {
            assert(s[i] == '\\' && s[i + 1] == '\\');
            assert(seq![s[i + 1]] + rest =~= x);
        } else if (c as int) < 32 {
            let hi = c as int / 16;
            let lo = c as int % 16;
            vstd::arithmetic::div_mod::lemma_fundamental_div_mod(c as int, 16);
            assert((c as int) >= 0) by {
                assert(crate::models::char_ok(c));
            }
            vstd::arithmetic::div_mod::lemma_div_pos_is_pos(c as int, 16);
            vstd::arithmetic::div_mod::lemma_div_is_ordered(c as int, 31, 16);
            assert(31int / 16 == 1);
            assert(0 <= lo < 16);
            assert(0 <= hi < 2);
            assert(s[i] == '\\' && s[i + 1] == 'u' && s[i + 2] == '0' && s[i + 3] == '0');
            assert(s[i + 4] == hex_char(hi) && s[i + 5] == hex_char(lo));
            lemma_hex_char_val(hi);
            lemma_hex_char_val(lo);
            assert(16 * hex_val(s[i + 4]) + hex_val(s[i + 5]) == c as int);
            assert(((c as int) as char) == c);
            assert(seq![(16 * hex_val(s[i + 4]) + hex_val(s[i + 5])) as char] + rest =~= x);
            assert(s[i + 1] != '"' && s[i + 1] != '\\');
        } else {
            assert(u == seq![c]);
            assert(u[0] == c);
            assert(s[i + 0] == u[0]);
            assert(s[i] == c);
            assert(seq![s[i]] + rest =~= x);
        }
    }
}

/// A hex digit renders and reads back as itself.
proof fn lemma_hex_char_val(d: int)
    requires
        0 <= d < 16,
    ensures
        is_hex_lower(hex_char(d)),
        hex_val(hex_char(d)) == d,
        hex_char(d) != '"',
        hex_char(d) != '\\',
{
    if d < 10 {
        assert(hex_char(d) as int == d + 48);
    } else {
        assert(hex_char(d) as int == d + 87);
        assert('a' as int == 97 && 'f' as int == 102 && '9' as int == 57 && '0' as int == 48);
    }
    assert('"' as int == 34 && '\\' as int == 92);
}

/// Whether every header pair's name and value hold Unicode scalars.
pub open spec fn headers_ok(hs: Seq<(Seq<char>, Seq<char>)>) -> bool {
    forall|k: int|
        0 <= k < hs.len() ==> crate::models::text_ok((#[trigger] hs[k]).0)
            && crate::models::text_ok(hs[k].1)
}

/// Whether a record's text fields hold Unicode scalars, as the views
/// of real strings always do.
pub open spec fn view_ok(v: AttackResultView) -> bool {
    &&& match v.error {
        Some(e) => crate::models::text_ok(e),
        None => true,
    }
    &&& crate::models::text_ok(v.target.method)
    &&& crate::models::text_ok(v.target.url)
    &&& headers_ok(v.target.headers)
}

/// An embedded quoted string is read back as the string it encodes.
pub proof fn lemma_parse_string_at(s: Seq<char>, i: int, x: Seq<char>)
    requires
        crate::models::text_ok(x),
        0 <= i,
        i + spec_encode_string(x).len() <= s.len(),
        s.subrange(i, i + spec_encode_string(x).len()) == spec_encode_string(x),
    ensures
        spec_parse_string(s, i) == Some((x, i + spec_encode_string(x).len())),
{
    let enc = spec_encode_string(x);
    let esc = spec_escape(x);
    assert(enc == seq!['"'] + esc + seq!['"']);
    assert forall|k: int| 0 <= k < enc.len() implies s[i + k] == enc[k] by {
        assert(s.subrange(i, i + enc.len())[k] == enc[k]);
    }
    assert(s[i] == enc[0]);
    assert(enc[0] == '"');
    assert forall|k: int| 0 <= k < esc.len() implies s.subrange(i + 1, i + 1 + esc.len())[k]
        == esc[k] by {
        assert(s[i + 1 + k] == enc[1 + k]);
        assert(enc[1 + k] == esc[k]);
    }
    assert(s.subrange(i + 1, i + 1 + esc.len()) =~= esc);
    assert(s[i + 1 + esc.len()] == enc[enc.len() - 1]);
    assert(enc[enc.len() - 1] == '"');
    lemma_parse_inner_at(s, i + 1, x);
}

/// An embedded `null` or quoted string is read back as itself.
pub proof fn lemma_parse_opt_string_at(s: Seq<char>, i: int, e: Option<Seq<char>>)
    requires
        (e matches Some(x) ==> crate::models::text_ok(x)),
        0 <= i,
        i + spec_encode_opt_string(e).len() <= s.len(),
        s.subrange(i, i + spec_encode_opt_string(e).len()) == spec_encode_opt_string(e),
    ensures
        spec_parse_opt_string(s, i) == Some((e, i + spec_encode_opt_string(e).len())),
{
    reveal_strlit("null");
    let enc = spec_encode_opt_string(e);
    match e {
        None => {
            assert(enc == "null"@);
            lemma_parse_lit_at(s, i, "null"@);
        },
        Some(x) => {
            assert(enc == spec_encode_string(x));
            assert(s.subrange(i, i + enc.len())[0] == enc[0]);
            assert(s[i] == '"');
            assert('"' as int == 34 && 'n' as int == 110);
            assert(spec_parse_lit(s, i, "null"@) is None) by {
                if i + 4 <= s.len() && s.subrange(i, i + 4) == "null"@ {
                    assert(s.subrange(i, i + 4)[0] == 'n');
                    assert(s[i] == 'n');
                }
            }
            lemma_parse_string_at(s, i, x);
        },
    }
}

/// An embedded `true` or `false` is read back as itself.
pub proof fn lemma_parse_bool_at(s: Seq<char>, i: int, b: bool)
    requires
        0 <= i,
        i + spec_encode_bool(b).len() <= s.len(),
        s.subrange(i, i + spec_encode_bool(b).len()) == spec_encode_bool(b),
    ensures
        spec_parse_bool(s, i) == Some((b, i + spec_encode_bool(b).len())),
{
    reveal_strlit("true");
    reveal_strlit("false");
    if b {
        lemma_parse_lit_at(s, i, "true"@);
    } else {
        lemma_parse_lit_at(s, i, "false"@);
        assert(s.subrange(i, i + 5)[0] == 'f');
        assert(s[i] == 'f');
        assert('f' as int == 102 && 't' as int == 116);
        assert(spec_parse_lit(s, i, "true"@) is None) by {
            if i + 4 <= s.len() && s.subrange(i, i + 4) == "true"@ {
                assert(s.subrange(i, i + 4)[0] == 't');
                assert(s[i] == 't');
            }
        }
    }
}

/// An embedded byte-list tail followed by its closing bracket is read
/// back as the bytes it encodes.
pub proof fn lemma_parse_bytes_tail_at(s: Seq<char>, i: int, b: Seq<u8>)
    requires
        0 <= i,
        i + spec_encode_bytes_tail(b).len() + 1 <= s.len(),
        s.subrange(i, i + spec_encode_bytes_tail(b).len()) == spec_encode_bytes_tail(b),
        s[i + spec_encode_bytes_tail(b).len()] == ']',
    ensures
        spec_parse_bytes_tail(s, i) == Some((b, i + spec_encode_bytes_tail(b).len() + 1)),
    decreases b.len(),
{
    let tail = spec_encode_bytes_tail(b);
    assert(',' as int == 44 && ']' as int == 93);
    if b.len() == 0 {
        assert(tail =~= Seq::<char>::empty());
        assert(s[i] == ']');
    } else {
        let v = b.first();
        let rest = b.drop_first();
        let d = spec_digits(v as int);
        let rt = spec_encode_bytes_tail(rest);
        assert(tail == seq![','] + d + rt);
        assert forall|k: int| 0 <= k < tail.len() implies s[i + k] == tail[k] by {
            assert(s.subrange(i, i + tail.len())[k] == tail[k]);
        }
        assert(s[i] == tail[0]);
        assert(tail[0] == ',');
        crate::numbers::lemma_digits_facts(v as int);
        assert forall|k: int| 0 <= k < d.len() implies s.subrange(i + 1, i + 1 + d.len())[k]
            == d[k] by {
            assert(s[i + 1 + k] == tail[1 + k]);
            assert(tail[1 + k] == d[k]);
        }
        assert(s.subrange(i + 1, i + 1 + d.len()) =~= d);
        let j = i + 1 + d.len();
        assert(s[j] == if rt.len() == 0 {
            ']'
        } else {
            rt[0]
        }) by {
            if rt.len() == 0 {
                assert(j == i + tail.len());
            } else {
                assert(s[i + (1 + d.len())] == tail[1 + d.len() as int]);
                assert(tail[1 + d.len() as int] == rt[0]);
            }
        }
        assert(rt.len() > 0 ==> rt[0] == ',') by {
            if rest.len() > 0 {
                assert(rt == seq![','] + spec_digits(rest.first() as int)
                    + spec_encode_bytes_tail(rest.drop_first()));
            }
        }
        assert(!is_digit(s[j]));
        lemma_parse_number_at(s, i + 1, v as int);
        assert forall|k: int| 0 <= k < rt.len() implies s.subrange(j, j + rt.len())[k]
            == rt[k] by {
            assert(s[i + (1 + d.len() + k)] == tail[1 + d.len() as int + k]);
            assert(tail[1 + d.len() as int + k] == rt[k]);
        }
        assert(s.subrange(j, j + rt.len()) =~= rt);
        assert(s[j + rt.len()] == ']') by {
            assert(j + rt.len() == i + tail.len());
        }
        lemma_parse_bytes_tail_at(s, j, rest);
        assert(seq![v] + rest =~= b);
    }
}

/// An embedded byte list is read back as the bytes it encodes.
pub proof fn lemma_parse_bytes_at(s: Seq<char>, i: int, b: Seq<u8>)
    requires
        0 <= i,
        i + spec_encode_bytes(b).len() <= s.len(),
        s.subrange(i, i + spec_encode_bytes(b).len()) == spec_encode_bytes(b),
    ensures
        spec_parse_bytes(s, i) == Some((b, i + spec_encode_bytes(b).len())),
{
    reveal_strlit("[]");
    let enc = spec_encode_bytes(b);
    assert forall|k: int| 0 <= k < enc.len() implies s[i + k] == enc[k] by {
        assert(s.subrange(i, i + enc.len())[k] == enc[k]);
    }
    assert('[' as int == 91 && ']' as int == 93);
    if b.len() == 0 {
        assert(enc == "[]"@);
        assert(s[i] == enc[0] && s[i + 1] == enc[1]);
        assert(enc[0] == '[' && enc[1] == ']');
    } else {
        let v = b.first();
        let rest = b.drop_first();
        let d = spec_digits(v as int);
        let rt = spec_encode_bytes_tail(rest);
        assert(enc == seq!['['] + d + rt + seq![']']);
        assert(s[i] == enc[0]);
        assert(enc[0] == '[');
        crate::numbers::lemma_digits_facts(v as int);
        assert(s[i + 1] == enc[1]);
        assert(enc[1] == d[0]);
        assert(is_digit(d[0]));
        assert(s[i + 1] != ']');
        assert forall|k: int| 0 <= k < d.len() implies s.subrange(i + 1, i + 1 + d.len())[k]
            == d[k] by {
            assert(s[i + 1 + k] == enc[1 + k]);
            assert(enc[1 + k] == d[k]);
        }
        assert(s.subrange(i + 1, i + 1 + d.len()) =~= d);
        let j = i + 1 + d.len();
        assert(s[j] == if rt.len() == 0 {
            ']'
        } else {
            rt[0]
        }) by {
            assert(s[i + (1 + d.len())] == enc[1 + d.len() as int]);
            if rt.len() == 0 {
                assert(enc[1 + d.len() as int] == ']');
            } else {
                assert(enc[1 + d.len() as int] == rt[0]);
            }
        }
        assert(rt.len() > 0 ==> rt[0] == ',') by {
            if rest.len() > 0 {
                assert(rt == seq![','] + spec_digits(rest.first() as int)
                    + spec_encode_bytes_tail(rest.drop_first()));
            }
        }
        assert(!is_digit(s[j]));
        lemma_parse_number_at(s, i + 1, v as int);
        assert forall|k: int| 0 <= k < rt.len() implies s.subrange(j, j + rt.len())[k]
            == rt[k] by {
            assert(s[i + (1 + d.len() + k)] == enc[1 + d.len() as int + k]);
            assert(enc[1 + d.len() as int + k] == rt[k]);
        }
        assert(s.subrange(j, j + rt.len()) =~= rt);
        assert(s[j + rt.len()] == ']') by {
            assert(s[i + (1 + d.len() + rt.len())] == enc[1 + d.len() as int + rt.len() as int]);
            assert(enc[1 + d.len() as int + rt.len() as int] == ']');
        }
        lemma_parse_bytes_tail_at(s, j, rest);
        assert(seq![v] + rest =~= b);
    }
}

/// An embedded `null` or byte list is read back as itself.
pub proof fn lemma_parse_body_at(s: Seq<char>, i: int, b: Option<Seq<u8>>)
    requires
        0 <= i,
        i + spec_encode_body(b).len() <= s.len(),
        s.subrange(i, i + spec_encode_body(b).len()) == spec_encode_body(b),
    ensures
        spec_parse_body(s, i) == Some((b, i + spec_encode_body(b).len())),
{
    reveal_strlit("null");
    reveal_strlit("[]");
    let enc = spec_encode_body(b);
    match b {
        None => {
            assert(enc == "null"@);
            lemma_parse_lit_at(s, i, "null"@);
        },
        Some(x) => {
            assert(enc == spec_encode_bytes(x));
            assert(s.subrange(i, i + enc.len())[0] == enc[0]);
            if x.len() == 0 {
                assert(enc[0] == "[]"@[0]);
            }
            assert(s[i] == '[');
            assert('[' as int == 91 && 'n' as int == 110);
            assert(spec_parse_lit(s, i, "null"@) is None) by {
                if i + 4 <= s.len() && s.subrange(i, i + 4) == "null"@ {
                    assert(s.subrange(i, i + 4)[0] == 'n');
                    assert(s[i] == 'n');
                }
            }
            lemma_parse_bytes_at(s, i, x);
        },
    }
}

/// An embedded header pair is read back as itself.
pub proof fn lemma_parse_header_at(s: Seq<char>, i: int, h: (Seq<char>, Seq<char>))
    requires
        crate::models::text_ok(h.0),
        crate::models::text_ok(h.1),
        0 <= i,
        i + spec_encode_header(h).len() <= s.len(),
        s.subrange(i, i + spec_encode_header(h).len()) == spec_encode_header(h),
    ensures
        spec_parse_header(s, i) == Some((h, i + spec_encode_header(h).len())),
{
    let enc = spec_encode_header(h);
    let n = spec_encode_string(h.0);
    let v = spec_encode_string(h.1);
    assert(enc == seq!['['] + n + seq![','] + v + seq![']']);
    assert forall|k: int| 0 <= k < enc.len() implies s[i + k] == enc[k] by {
        assert(s.subrange(i, i + enc.len())[k] == enc[k]);
    }
    assert(s[i] == enc[0]);
    assert(enc[0] == '[');
    assert forall|k: int| 0 <= k < n.len() implies s.subrange(i + 1, i + 1 + n.len())[k]
        == n[k] by {
        assert(s[i + 1 + k] == enc[1 + k]);
        assert(enc[1 + k] == n[k]);
    }
    assert(s.subrange(i + 1, i + 1 + n.len()) =~= n);
    lemma_parse_string_at(s, i + 1, h.0);
    let j = i + 1 + n.len();
    assert(s[j] == enc[1 + n.len() as int]);
    assert(enc[1 + n.len() as int] == ',');
    assert forall|k: int| 0 <= k < v.len() implies s.subrange(j + 1, j + 1 + v.len())[k]
        == v[k] by {
        assert(s[i + (2 + n.len() + k)] == enc[2 + n.len() as int + k]);
        assert(enc[2 + n.len() as int + k] == v[k]);
    }
    assert(s.subrange(j + 1, j + 1 + v.len()) =~= v);
    lemma_parse_string_at(s, j + 1, h.1);
    let k2 = j + 1 + v.len();
    assert(s[k2] == enc[2 + n.len() as int + v.len() as int]);
    assert(enc[2 + n.len() as int + v.len() as int] == ']');
}

/// An embedded header-list tail followed by its closing bracket is
/// read back as the pairs it encodes.
pub proof fn lemma_parse_headers_tail_at(s: Seq<char>, i: int, hs: Seq<(Seq<char>, Seq<char>)>)
    requires
        headers_ok(hs),
        0 <= i,
        i + spec_encode_headers_tail(hs).len() + 1 <= s.len(),
        s.subrange(i, i + spec_encode_headers_tail(hs).len()) == spec_encode_headers_tail(hs),
        s[i + spec_encode_headers_tail(hs).len()] == ']',
    ensures
        spec_parse_headers_tail(s, i) == Some(
            (hs, i + spec_encode_headers_tail(hs).len() + 1),
        ),
    decreases hs.len(),
{
    let tail = spec_encode_headers_tail(hs);
    assert(',' as int == 44 && ']' as int == 93 && '[' as int == 91);
    if hs.len() == 0 {
        assert(tail =~= Seq::<char>::empty());
        assert(s[i] == ']');
    } else {
        let h = hs.first();
        let rest = hs.drop_first();
        assert(headers_ok(rest)) by {
            assert forall|k: int|
                0 <= k < rest.len() implies crate::models::text_ok((#[trigger] rest[k]).0)
                && crate::models::text_ok(rest[k].1) by {
                assert(rest[k] == hs[k + 1]);
                assert(crate::models::text_ok(hs[k + 1].0) && crate::models::text_ok(
                    hs[k + 1].1,
                ));
            }
        }
        assert(crate::models::text_ok(hs[0].0) && crate::models::text_ok(hs[0].1));
        let he = spec_encode_header(h);
        let rt = spec_encode_headers_tail(rest);
        assert(tail == seq![','] + he + rt);
        assert forall|k: int| 0 <= k < tail.len() implies s[i + k] == tail[k] by {
            assert(s.subrange(i, i + tail.len())[k] == tail[k]);
        }
        assert(s[i] == tail[0]);
        assert(tail[0] == ',');
        assert forall|k: int| 0 <= k < he.len() implies s.subrange(i + 1, i + 1 + he.len())[k]
            == he[k] by {
            assert(s[i + 1 + k] == tail[1 + k]);
            assert(tail[1 + k] == he[k]);
        }
        assert(s.subrange(i + 1, i + 1 + he.len()) =~= he);
        lemma_parse_header_at(s, i + 1, h);
        let j = i + 1 + he.len();
        assert forall|k: int| 0 <= k < rt.len() implies s.subrange(j, j + rt.len())[k]
            == rt[k] by {
            assert(s[i + (1 + he.len() + k)] == tail[1 + he.len() as int + k]);
            assert(tail[1 + he.len() as int + k] == rt[k]);
        }
        assert(s.subrange(j, j + rt.len()) =~= rt);
        assert(s[j + rt.len()] == ']') by {
            assert(j + rt.len() == i + tail.len());
        }
        lemma_parse_headers_tail_at(s, j, rest);
        assert(seq![h] + rest =~= hs);
    }
}

/// An embedded header list is read back as the pairs it encodes.
pub proof fn lemma_parse_headers_at(s: Seq<char>, i: int, hs: Seq<(Seq<char>, Seq<char>)>)
    requires
        headers_ok(hs),
        0 <= i,
        i + spec_encode_headers(hs).len() <= s.len(),
        s.subrange(i, i + spec_encode_headers(hs).len()) == spec_encode_headers(hs),
    ensures
        spec_parse_headers(s, i) == Some((hs, i + spec_encode_headers(hs).len())),
{
    reveal_strlit("[]");
    let enc = spec_encode_headers(hs);
    assert forall|k: int| 0 <= k < enc.len() implies s[i + k] == enc[k] by {
        assert(s.subrange(i, i + enc.len())[k] == enc[k]);
    }
    assert('[' as int == 91 && ']' as int == 93);
    if hs.len() == 0 {
        assert(enc == "[]"@);
        assert(s[i] == enc[0] && s[i + 1] == enc[1]);
        assert(enc[0] == '[' && enc[1] == ']');
    } else {
        let h = hs.first();
        let rest = hs.drop_first();
        assert(headers_ok(rest)) by {
            assert forall|k: int|
                0 <= k < rest.len() implies crate::models::text_ok((#[trigger] rest[k]).0)
                && crate::models::text_ok(rest[k].1) by {
                assert(rest[k] == hs[k + 1]);
                assert(crate::models::text_ok(hs[k + 1].0) && crate::models::text_ok(
                    hs[k + 1].1,
                ));
            }
        }
        assert(crate::models::text_ok(hs[0].0) && crate::models::text_ok(hs[0].1));
        let he = spec_encode_header(h);
        let rt = spec_encode_headers_tail(rest);
        assert(enc == seq!['['] + he + rt + seq![']']);
        assert(s[i] == enc[0]);
        assert(enc[0] == '[');
        assert(s[i + 1] == enc[1]);
        assert(enc[1] == he[0]);
        assert(he[0] == '[');
        assert(s[i + 1] != ']');
        assert forall|k: int| 0 <= k < he.len() implies s.subrange(i + 1, i + 1 + he.len())[k]
            == he[k] by {
            assert(s[i + 1 + k] == enc[1 + k]);
            assert(enc[1 + k] == he[k]);
        }
        assert(s.subrange(i + 1, i + 1 + he.len()) =~= he);
        lemma_parse_header_at(s, i + 1, h);
        let j = i + 1 + he.len();
        assert forall|k: int| 0 <= k < rt.len() implies s.subrange(j, j + rt.len())[k]
            == rt[k] by {
            assert(s[i + (1 + he.len() + k)] == enc[1 + he.len() as int + k]);
            assert(enc[1 + he.len() as int + k] == rt[k]);
        }
        assert(s.subrange(j, j + rt.len()) =~= rt);
        assert(s[j + rt.len()] == ']') by {
            assert(s[i + (1 + he.len() + rt.len())] == enc[1 + he.len() as int + rt.len() as int]);
            assert(enc[1 + he.len() as int + rt.len() as int] == ']');
        }
        lemma_parse_headers_tail_at(s, j, rest);
        assert(seq![h] + rest =~= hs);
    }
}

/// Walking a suffix: when the text from `i` on is `part + rest`, the
/// subrange at `i` is `part` and the text from `i + part.len()` on is
/// `rest`.
proof fn lemma_chain_step(s: Seq<char>, i: int, part: Seq<char>, rest: Seq<char>)
    requires
        0 <= i <= s.len(),
        s.subrange(i, s.len() as int) == part + rest,
    ensures
        i + part.len() + rest.len() == s.len(),
        s.subrange(i, i + part.len() as int) == part,
        s.subrange(i + part.len() as int, s.len() as int) == rest,
        part.len() > 0 ==> s[i] == part[0],
        rest.len() > 0 ==> s[i + part.len() as int] == rest[0],
{
    let whole = s.subrange(i, s.len() as int);
    assert(whole.len() == part.len() + rest.len());
    assert forall|k: int| 0 <= k < part.len() implies s.subrange(i, i + part.len() as int)[k]
        == part[k] by {
        assert(whole[k] == (part + rest)[k]);
    }
    assert(s.subrange(i, i + part.len() as int) =~= part);
    assert forall|k: int| 0 <= k < rest.len() implies s.subrange(
        i + part.len() as int,
        s.len() as int,
    )[k] == rest[k] by {
        assert(whole[part.len() + k] == (part + rest)[part.len() + k]);
    }
    assert(s.subrange(i + part.len() as int, s.len() as int) =~= rest);
    if part.len() > 0 {
        assert(whole[0] == (part + rest)[0]);
    }
    if rest.len() > 0 {
        assert(whole[part.len() as int] == (part + rest)[part.len() as int]);
    }
}

/// Reading back the tail of a canonical log line gives the record's
/// string, header and body fields.
#[verifier::rlimit(100)]
proof fn lemma_rt_tail(s: Seq<char>, i: int, v: AttackResultView)
    requires
        view_ok(v),
        0 <= i <= s.len(),
        s.subrange(i, s.len() as int) == spec_encode_tail(v),
    ensures
        spec_parse_outcome_tail(
            s,
            i,
            v.timestamp,
            v.latency,
            v.status_code,
            v.bytes_in,
            v.bytes_out,
            v.timed_out,
        ) == Some(v),
{
    reveal_strlit(",\"error\":");
    reveal_strlit(",\"target\":{\"method\":");
    reveal_strlit(",\"url\":");
    reveal_strlit(",\"headers\":");
    reveal_strlit(",\"body\":");
    reveal_strlit("}}");
    let b1 = ",\"error\":"@;
    let b2 = spec_encode_opt_string(v.error);
    let b3 = ",\"target\":{\"method\":"@;
    let b4 = spec_encode_string(v.target.method);
    let b5 = ",\"url\":"@;
    let b6 = spec_encode_string(v.target.url);
    let b7 = ",\"headers\":"@;
    let b8 = spec_encode_headers(v.target.headers);
    let b9 = ",\"body\":"@;
    let b10 = spec_encode_body(v.target.body);
    let b11 = "}}"@;
    let r11 = b11 + Seq::<char>::empty();
    let r10 = b10 + r11;
    let r9 = b9 + r10;
    let r8 = b8 + r9;
    let r7 = b7 + r8;
    let r6 = b6 + r7;
    let r5 = b5 + r6;
    let r4 = b4 + r5;
    let r3 = b3 + r4;
    let r2 = b2 + r3;
    assert(s.subrange(i, s.len() as int) =~= b1 + r2);
    lemma_chain_step(s, i, b1, r2);
    let q1 = i + b1.len() as int;
    assert(spec_parse_lit(s, i, b1) == Some(q1));
    lemma_chain_step(s, q1, b2, r3);
    let q2 = q1 + b2.len() as int;
    lemma_parse_opt_string_at(s, q1, v.error);
    lemma_chain_step(s, q2, b3, r4);
    let q3 = q2 + b3.len() as int;
    assert(spec_parse_lit(s, q2, b3) == Some(q3));
    lemma_chain_step(s, q3, b4, r5);
    let q4 = q3 + b4.len() as int;
    lemma_parse_string_at(s, q3, v.target.method);
    lemma_chain_step(s, q4, b5, r6);
    let q5 = q4 + b5.len() as int;
    assert(spec_parse_lit(s, q4, b5) == Some(q5));
    lemma_chain_step(s, q5, b6, r7);
    let q6 = q5 + b6.len() as int;
    lemma_parse_string_at(s, q5, v.target.url);
    lemma_chain_step(s, q6, b7, r8);
    let q7 = q6 + b7.len() as int;
    assert(spec_parse_lit(s, q6, b7) == Some(q7));
    lemma_chain_step(s, q7, b8, r9);
    let q8 = q7 + b8.len() as int;
    lemma_parse_headers_at(s, q7, v.target.headers);
    lemma_chain_step(s, q8, b9, r10);
    let q9 = q8 + b9.len() as int;
    assert(spec_parse_lit(s, q8, b9) == Some(q9));
    lemma_chain_step(s, q9, b10, r11);
    let q10 = q9 + b10.len() as int;
    lemma_parse_body_at(s, q9, v.target.body);
    lemma_chain_step(s, q10, b11, Seq::<char>::empty());
    let q11 = q10 + b11.len() as int;
    assert(spec_parse_lit(s, q10, b11) == Some(q11));
    assert(q11 == s.len());
}

/// Reading back the byte counters and the timeout flag, and then the
/// tail, gives the record.
#[verifier::rlimit(100)]
proof fn lemma_rt_rest(s: Seq<char>, i: int, v: AttackResultView)
    requires
        view_ok(v),
        0 <= i <= s.len(),
        s.subrange(i, s.len() as int) == spec_encode_rest(v),
    ensures
        spec_parse_outcome_rest(s, i, v.timestamp, v.latency, v.status_code) == Some(v),
{
    reveal_strlit(",\"bytes_in\":");
    reveal_strlit(",\"bytes_out\":");
    reveal_strlit(",\"timed_out\":");
    reveal_strlit(",\"error\":");
    let c1 = ",\"bytes_in\":"@;
    let c2 = spec_digits(v.bytes_in as int);
    let c3 = ",\"bytes_out\":"@;
    let c4 = spec_digits(v.bytes_out as int);
    let c5 = ",\"timed_out\":"@;
    let c6 = spec_encode_bool(v.timed_out);
    let tail = spec_encode_tail(v);
    let r6 = c6 + tail;
    let r5 = c5 + r6;
    let r4 = c4 + r5;
    let r3 = c3 + r4;
    let r2 = c2 + r3;
    assert(',' as int == 44 && !is_digit(','));
    assert(s.subrange(i, s.len() as int) =~= c1 + r2);
    lemma_chain_step(s, i, c1, r2);
    let q1 = i + c1.len() as int;
    assert(spec_parse_lit(s, i, c1) == Some(q1));
    lemma_chain_step(s, q1, c2, r3);
    let q2 = q1 + c2.len() as int;
    assert(s[q2] == r3[0]);
    assert(r3[0] == c3[0]);
    lemma_parse_number_at(s, q1, v.bytes_in as int);
    assert(spec_parse_number(s, q1) == Some((v.bytes_in as u64, q2)));
    lemma_chain_step(s, q2, c3, r4);
    let q3 = q2 + c3.len() as int;
    assert(spec_parse_lit(s, q2, c3) == Some(q3));
    lemma_chain_step(s, q3, c4, r5);
    let q4 = q3 + c4.len() as int;
    assert(s[q4] == r5[0]);
    assert(r5[0] == c5[0]);
    lemma_parse_number_at(s, q3, v.bytes_out as int);
    assert(spec_parse_number(s, q3) == Some((v.bytes_out as u64, q4)));
    lemma_chain_step(s, q4, c5, r6);
    let q5 = q4 + c5.len() as int;
    assert(spec_parse_lit(s, q4, c5) == Some(q5));
    lemma_chain_step(s, q5, c6, tail);
    let q6 = q5 + c6.len() as int;
    lemma_parse_bool_at(s, q5, v.timed_out);
    lemma_rt_tail(s, q6, v);
}

/// Reading back the canonical log line of a record gives the record:
/// the durable log loses nothing the aggregate metrics are derived
/// from.  The record's text fields hold Unicode scalar values, as the
/// view of every real string does.
#[verifier::rlimit(100)]
pub proof fn lemma_round_trip(v: AttackResultView)
    requires
        view_ok(v),
    ensures
        spec_parse_outcome(spec_encode_outcome(v)) == Some(v),
{
    reveal_strlit("{\"timestamp\":");
    reveal_strlit(",\"latency\":");
    reveal_strlit(",\"status_code\":");
    reveal_strlit(",\"bytes_in\":");
    let a1 = "{\"timestamp\":"@;
    let a2 = spec_digits(v.timestamp as int);
    let a3 = ",\"latency\":"@;
    let a4 = spec_digits(v.latency as int);
    let a5 = ",\"status_code\":"@;
    let a6 = spec_digits(v.status_code as int);
    let rest = spec_encode_rest(v);
    let s = spec_encode_outcome(v);
    let r6 = a6 + rest;
    let r5 = a5 + r6;
    let r4 = a4 + r5;
    let r3 = a3 + r4;
    let r2 = a2 + r3;
    assert(',' as int == 44 && !is_digit(','));
    assert(s.subrange(0, s.len() as int) =~= a1 + r2);
    lemma_chain_step(s, 0, a1, r2);
    let p1 = 0 + a1.len() as int;
    assert(spec_parse_lit(s, 0, a1) == Some(p1));
    lemma_chain_step(s, p1, a2, r3);
    let p2 = p1 + a2.len() as int;
    assert(s[p2] == r3[0]);
    assert(r3[0] == a3[0]);
    lemma_parse_number_at(s, p1, v.timestamp as int);
    assert(spec_parse_number(s, p1) == Some((v.timestamp, p2)));
    lemma_chain_step(s, p2, a3, r4);
    let p3 = p2 + a3.len() as int;
    assert(spec_parse_lit(s, p2, a3) == Some(p3));
    lemma_chain_step(s, p3, a4, r5);
    let p4 = p3 + a4.len() as int;
    assert(s[p4] == r5[0]);
    assert(r5[0] == a5[0]);
    lemma_parse_number_at(s, p3, v.latency as int);
    assert(spec_parse_number(s, p3) == Some((v.latency, p4)));
    lemma_chain_step(s, p4, a5, r6);
    let p5 = p4 + a5.len() as int;
    assert(spec_parse_lit(s, p4, a5) == Some(p5));
    lemma_chain_step(s, p5, a6, rest);
    let p6 = p5 + a6.len() as int;
    assert(s[p6] == rest[0]);
    assert(rest[0] == ",\"bytes_in\":"@[0]) by {
        assert(rest == ",\"bytes_in\":"@ + spec_digits(v.bytes_in as int) + ",\"bytes_out\":"@
            + spec_digits(v.bytes_out as int) + ",\"timed_out\":"@ + spec_encode_bool(
            v.timed_out,
        ) + spec_encode_tail(v));
    }
    lemma_parse_number_at(s, p5, v.status_code as int);
    assert(spec_parse_number(s, p5) == Some((v.status_code as u64, p6)));
    lemma_rt_rest(s, p6, v);
}

/// The reader of a header list's tail.
pub open spec fn spec_parse_headers_tail(s: Seq<char>, i: int) -> Option<
    (Seq<(Seq<char>, Seq<char>)>, int),
>
    decreases s.len() - i when 0 <= i <= s.len() via headers_tail_decreases
{
    if i < s.len() && s[i] == ']' {
        Some((Seq::empty(), i + 1))
    } else if i < s.len() && s[i] == ',' {
        match spec_parse_header(s, i + 1) {
            Some((h, j)) => if i < j <= s.len() {
                match spec_parse_headers_tail(s, j) {
                    Some((hs, k)) => Some((seq![h] + hs, k)),
                    None => None,
                }
            } else {
                None
            },
            None => None,
        }
    } else {
        None
    }
}

#[via_fn]
proof fn headers_tail_decreases(s: Seq<char>, i: int) {
}

/// The reader of a header list.
pub open spec fn spec_parse_headers(s: Seq<char>, i: int) -> Option<
    (Seq<(Seq<char>, Seq<char>)>, int),
> {
    if !(0 <= i < s.len() && s[i] == '[') {
        None
    } else if i + 2 <= s.len() && s[i + 1] == ']' {
        Some((Seq::empty(), i + 2))
    } else {
        match spec_parse_header(s, i + 1) {
            Some((h, j)) => if i < j <= s.len() {
                match spec_parse_headers_tail(s, j) {
                    Some((hs, k)) => Some((seq![h] + hs, k)),
                    None => None,
                }
            } else {
                None
            },
            None => None,
        }
    }
}

/// The exact reader of one log line: every field in order, the whole
/// text consumed.
pub open spec fn spec_parse_outcome(s: Seq<char>) -> Option<AttackResultView> {
    match spec_parse_lit(s, 0, "{\"timestamp\":"@) {
        None => None,
        Some(i1) => match spec_parse_number(s, i1) {
            None => None,
            Some((timestamp, i2)) => match spec_parse_lit(s, i2, ",\"latency\":"@) {
                None => None,
                Some(i3) => match spec_parse_number(s, i3) {
                    None => None,
                    Some((latency, i4)) => match spec_parse_lit(s, i4, ",\"status_code\":"@) {
                        None => None,
                        Some(i5) => match spec_parse_number(s, i5) {
                            None => None,
                            Some((status, i6)) => if status > u16::MAX {
                                None
                            } else {
                                spec_parse_outcome_rest(s, i6, timestamp, latency,
                                    status as u16)
                            },
                        },
                    },
                },
            },
        },
    }
}

/// The reader of a log line past the status field.
pub open spec fn spec_parse_outcome_rest(
    s: Seq<char>,
    i: int,
    timestamp: u64,
    latency: u64,
    status: u16,
) -> Option<AttackResultView> {
    match spec_parse_lit(s, i, ",\"bytes_in\":"@) {
        None => None,
        Some(i7) => match spec_parse_number(s, i7) {
            None => None,
            Some((bytes_in, i8)) => if bytes_in > usize::MAX {
                None
            } else {
                match spec_parse_lit(s, i8, ",\"bytes_out\":"@) {
                    None => None,
                    Some(i9) => match spec_parse_number(s, i9) {
                        None => None,
                        Some((bytes_out, i10)) => if bytes_out > usize::MAX {
                            None
                        } else {
                            match spec_parse_lit(s, i10, ",\"timed_out\":"@) {
                                None => None,
                                Some(i11) => match spec_parse_bool(s, i11) {
                                    None => None,
                                    Some((timed_out, i12)) => spec_parse_outcome_tail(
                                        s,
                                        i12,
                                        timestamp,
                                        latency,
                                        status,
                                        bytes_in as usize,
                                        bytes_out as usize,
                                        timed_out,
                                    ),
                                },
                            }
                        },
                    },
                }
            },
        },
    }
}

/// The reader of a log line's string, header and body fields.
pub open spec fn spec_parse_outcome_tail(
    s: Seq<char>,
    i: int,
    timestamp: u64,
    latency: u64,
    status: u16,
    bytes_in: usize,
    bytes_out: usize,
    timed_out: bool,
) -> Option<AttackResultView> {
    match spec_parse_lit(s, i, ",\"error\":"@) {
        None => None,
        Some(i13) => match spec_parse_opt_string(s, i13) {
            None => None,
            Some((error, i14)) => match spec_parse_lit(s, i14, ",\"target\":{\"method\":"@) {
                None => None,
                Some(i15) => match spec_parse_string(s, i15) {
                    None => None,
                    Some((method, i16)) => match spec_parse_lit(s, i16, ",\"url\":"@) {
                        None => None,
                        Some(i17) => match spec_parse_string(s, i17) {
                            None => None,
                            Some((url, i18)) => match spec_parse_lit(s, i18, ",\"headers\":"@) {
                                None => None,
                                Some(i19) => match spec_parse_headers(s, i19) {
                                    None => None,
                                    Some((headers, i20)) => match spec_parse_lit(
                                        s,
                                        i20,
                                        ",\"body\":"@,
                                    ) {
                                        None => None,
                                        Some(i21) => match spec_parse_body(s, i21) {
                                            None => None,
                                            Some((body, i22)) => if spec_parse_lit(
                                                s,
                                                i22,
                                                "}}"@,
                                            ) == Some(s.len() as int) {
                                                Some(
                                                    AttackResultView {
                                                        timestamp,
                                                        latency,
                                                        status_code: status,
                                                        error,
                                                        target: TargetView {
                                                            method,
                                                            url,
                                                            headers,
                                                            body,
                                                        },
                                                        bytes_in,
                                                        bytes_out,
                                                        timed_out,
                                                    },
                                                )
                                            } else {
                                                None
                                            },
                                        },
                                    },
                                },
                            },
                        },
                    },
                },
            },
        },
    }
}

/// Read a literal at `i`.
fn parse_lit_chars(v: &Vec<char>, i: usize, lit: &str) -> (r: Option<usize>)
    requires
        i <= v@.len(),
    ensures
        match r {
            Some(j) => spec_parse_lit(v@, i as int, lit@) == Some(j as int) && i <= j
                <= v@.len(),
            None => spec_parse_lit(v@, i as int, lit@) is None,
        },
{
    let lc = text_to_chars(lit);
    if v.len() - i < lc.len() {
        return None;
    }
    let mut k: usize = 0;
    while k < lc.len()
        invariant
            k <= lc@.len(),
            lc@ == lit@,
            i + lc@.len() <= v@.len(),
            v@.len() <= usize::MAX,
            forall|m: int| 0 <= m < k ==> v@[i + m] == lit@[m],
        decreases lc@.len() - k,
    {
        if v[i + k] != lc[k] {
            proof {
                assert(v@.subrange(i as int, i + lit@.len() as int)[k as int]
                    != lit@[k as int]);
            }
            return None;
        }
        k = k + 1;
    }
    proof {
        assert(v@.subrange(i as int, i + lit@.len() as int) =~= lit@);
    }
    Some(i + lc.len())
}

/// Read a canonical number at `i`.
fn parse_number_chars(v: &Vec<char>, i: usize) -> (r: Option<(u64, usize)>)
    requires
        i <= v@.len(),
    ensures
        match r {
            Some((val, j)) => spec_parse_number(v@, i as int) == Some((val, j as int)) && i < j
                <= v@.len(),
            None => spec_parse_number(v@, i as int) is None,
        },
{
    proof {
        crate::numbers::lemma_digit_run_end_facts(v@, i as int);
    }
    match parse_u64(v, i) {
        Some((val, j)) => {
            proof {
                let e = crate::numbers::digit_run_end(v@, i as int);
                let sub = v@.subrange(i as int, e);
                crate::numbers::lemma_digits_facts(val as int);
                if v@[i as int] == '0' && e > i + 1 {
                    assert(sub[0] == v@[i as int]);
                    assert(spec_digits(val as int)[0] == '0');
                    assert(val == 0);
                    assert(spec_digits(0)[0] == '0');
                    assert(sub.len() == 1);
                    assert(false);
                }
            }
            Some((val, j))
        },
        None => None,
    }
}

/// Whether the character is a lowercase hex digit.
fn is_hex_lower_char(c: char) -> (r: bool)
    ensures
        r == is_hex_lower(c),
{
    (c >= '0' && c <= '9') || (c >= 'a' && c <= 'f')
}

/// Read a string body up to its closing quote at `i`.
fn parse_inner_chars(v: &Vec<char>, i: usize) -> (r: Option<(Vec<char>, usize)>)
    requires
        i <= v@.len(),
    ensures
        match r {
            Some((x, j)) => spec_parse_inner(v@, i as int) == Some((x@, j as int)) && i < j
                <= v@.len(),
            None => spec_parse_inner(v@, i as int) is None,
        },
    decreases v@.len() - i,
{
    if i >= v.len() {
        return None;
    }
    let c = v[i];
    if c == '"' {
        let x: Vec<char> = Vec::new();
        proof {
            assert(x@ =~= Seq::<char>::empty());
        }
        return Some((x, i + 1));
    }
    if c == '\\' {
        if v.len() - i >= 2 && (v[i + 1] == '"' || v[i + 1] == '\\') {
            let e = v[i + 1];
            match parse_inner_chars(v, i + 2) {
                None => None,
                Some((mut x, j)) => {
                    let ghost inner = x@;
                    x.insert(0, e);
                    proof {
                        assert(x@ =~= seq![v@[i + 1]] + inner);
                    }
                    Some((x, j))
                },
            }
        } else if v.len() - i >= 6 && v[i + 1] == 'u' && v[i + 2] == '0' && v[i + 3] == '0'
            && is_hex_lower_char(v[i + 4]) && is_hex_lower_char(v[i + 5]) {
            let h1 = v[i + 4];
            let h2 = v[i + 5];
            let d1: u32 = if h1 >= '0' && h1 <= '9' {
                h1 as u32 - 48
            } else {
                h1 as u32 - 87
            };
            let d2: u32 = if h2 >= '0' && h2 <= '9' {
                h2 as u32 - 48
            } else {
                h2 as u32 - 87
            };
            proof {
                assert(d1 == hex_val(v@[i + 4]) && d2 == hex_val(v@[i + 5]));
            }
            let code = 16 * d1 + d2;
            if code < 32 {
                match parse_inner_chars(v, i + 6) {
                    None => None,
                    Some((mut x, j)) => {
                        let ghost inner = x@;
                        let ec = (code as u8) as char;
                        proof {
                            assert(ec == ((16 * hex_val(v@[i + 4]) + hex_val(v@[i + 5]))
                                as char));
                        }
                        x.insert(0, ec);
                        proof {
                            assert(x@ =~= seq![(16 * hex_val(v@[i + 4]) + hex_val(
                                v@[i + 5],
                            )) as char] + inner);
                        }
                        Some((x, j))
                    },
                }
            } else {
                None
            }
        } else {
            None
        }
    } else if ' ' > c {
        proof {
            assert(' ' as int == 32);
        }
        None
    } else {
        proof {
            assert(' ' as int == 32);
        }
        match parse_inner_chars(v, i + 1) {
            None => None,
            Some((mut x, j)) => {
                let ghost inner = x@;
                x.insert(0, c);
                proof {
                    assert(x@ =~= seq![v@[i as int]] + inner);
                }
                Some((x, j))
            },
        }
    }
}

/// Read a quoted string at `i`.
fn parse_string_chars(v: &Vec<char>, i: usize) -> (r: Option<(Vec<char>, usize)>)
    requires
        i <= v@.len(),
    ensures
        match r {
            Some((x, j)) => spec_parse_string(v@, i as int) == Some((x@, j as int)) && i < j
                <= v@.len(),
            None => spec_parse_string(v@, i as int) is None,
        },
{
    if i < v.len() && v[i] == '"' {
        parse_inner_chars(v, i + 1)
    } else {
        None
    }
}

/// Read `null` or a quoted string at `i`.
fn parse_opt_string_chars(v: &Vec<char>, i: usize) -> (r: Option<(Option<Vec<char>>, usize)>)
    requires
        i <= v@.len(),
    ensures
        match r {
            Some((x, j)) => spec_parse_opt_string(v@, i as int) == Some(
                (
                    match x {
                        Some(y) => Some(y@),
                        None => None,
                    },
                    j as int,
                ),
            ) && j <= v@.len(),
            None => spec_parse_opt_string(v@, i as int) is None,
        },
{
    match parse_lit_chars(v, i, "null") {
        Some(j) => Some((None, j)),
        None => match parse_string_chars(v, i) {
            Some((x, j)) => Some((Some(x), j)),
            None => None,
        },
    }
}

/// Read `true` or `false` at `i`.
fn parse_bool_chars(v: &Vec<char>, i: usize) -> (r: Option<(bool, usize)>)
    requires
        i <= v@.len(),
    ensures
        match r {
            Some((b, j)) => spec_parse_bool(v@, i as int) == Some((b, j as int)) && j
                <= v@.len(),
            None => spec_parse_bool(v@, i as int) is None,
        },
{
    match parse_lit_chars(v, i, "true") {
        Some(j) => Some((true, j)),
        None => match parse_lit_chars(v, i, "false") {
            Some(j) => Some((false, j)),
            None => None,
        },
    }
}

/// Read a byte-list tail at `i`.
fn parse_bytes_tail_chars(v: &Vec<char>, i: usize) -> (r: Option<(Vec<u8>, usize)>)
    requires
        i <= v@.len(),
    ensures
        match r {
            Some((x, j)) => spec_parse_bytes_tail(v@, i as int) == Some((x@, j as int)) && i
                < j <= v@.len(),
            None => spec_parse_bytes_tail(v@, i as int) is None,
        },
    decreases v@.len() - i,
{
    if i < v.len() && v[i] == ']' {
        let x: Vec<u8> = Vec::new();
        proof {
            assert(x@ =~= Seq::<u8>::empty());
        }
        return Some((x, i + 1));
    }
    if i < v.len() && v[i] == ',' {
        match parse_number_chars(v, i + 1) {
            None => None,
            Some((val, j)) => {
                if val > 255 {
                    return None;
                }
                match parse_bytes_tail_chars(v, j) {
                    None => None,
                    Some((mut x, k)) => {
                        let ghost inner = x@;
                        x.insert(0, val as u8);
                        proof {
                            assert(x@ =~= seq![val as u8] + inner);
                        }
                        Some((x, k))
                    },
                }
            },
        }
    } else {
        None
    }
}

/// Read a byte list at `i`.
fn parse_bytes_chars(v: &Vec<char>, i: usize) -> (r: Option<(Vec<u8>, usize)>)
    requires
        i <= v@.len(),
    ensures
        match r {
            Some((x, j)) => spec_parse_bytes(v@, i as int) == Some((x@, j as int)) && i < j
                <= v@.len(),
            None => spec_parse_bytes(v@, i as int) is None,
        },
{
    if !(i < v.len() && v[i] == '[') {
        return None;
    }
    if v.len() - i >= 2 && v[i + 1] == ']' {
        let x: Vec<u8> = Vec::new();
        proof {
            assert(x@ =~= Seq::<u8>::empty());
        }
        return Some((x, i + 2));
    }
    match parse_number_chars(v, i + 1) {
        None => None,
        Some((val, j)) => {
            if val > 255 {
                return None;
            }
            match parse_bytes_tail_chars(v, j) {
                None => None,
                Some((mut x, k)) => {
                    let ghost inner = x@;
                    x.insert(0, val as u8);
                    proof {
                        assert(x@ =~= seq![val as u8] + inner);
                    }
                    Some((x, k))
                },
            }
        },
    }
}

/// Read `null` or a byte list at `i`.
fn parse_body_chars(v: &Vec<char>, i: usize) -> (r: Option<(Option<Vec<u8>>, usize)>)
    requires
        i <= v@.len(),
    ensures
        match r {
            Some((x, j)) => spec_parse_body(v@, i as int) == Some(
                (
                    match x {
                        Some(y) => Some(y@),
                        None => None,
                    },
                    j as int,
                ),
            ) && j <= v@.len(),
            None => spec_parse_body(v@, i as int) is None,
        },
{
    match parse_lit_chars(v, i, "null") {
        Some(j) => Some((None, j)),
        None => match parse_bytes_chars(v, i) {
            Some((x, j)) => Some((Some(x), j)),
            None => None,
        },
    }
}

/// Read one header pair at `i`.
fn parse_header_chars(v: &Vec<char>, i: usize) -> (r: Option<(Header, usize)>)
    requires
        i <= v@.len(),
    ensures
        match r {
            Some((h, j)) => spec_parse_header(v@, i as int) == Some((h@, j as int)) && i < j
                <= v@.len(),
            None => spec_parse_header(v@, i as int) is None,
        },
{
    if !(i < v.len() && v[i] == '[') {
        return None;
    }
    match parse_string_chars(v, i + 1) {
        None => None,
        Some((n, j)) => {
            if !(j < v.len() && v[j] == ',') {
                return None;
            }
            match parse_string_chars(v, j + 1) {
                None => None,
                Some((val, k)) => {
                    if !(k < v.len() && v[k] == ']') {
                        return None;
                    }
                    let h = Header::new(chars_to_text(&n), chars_to_text(&val));
                    Some((h, k + 1))
                },
            }
        },
    }
}

/// Read a header-list tail at `i`.
fn parse_headers_tail_chars(v: &Vec<char>, i: usize) -> (r: Option<(Vec<Header>, usize)>)
    requires
        i <= v@.len(),
    ensures
        match r {
            Some((x, j)) => spec_parse_headers_tail(v@, i as int) == Some(
                (headers_view(x@), j as int),
            ) && i < j <= v@.len(),
            None => spec_parse_headers_tail(v@, i as int) is None,
        },
    decreases v@.len() - i,
{
    if i < v.len() && v[i] == ']' {
        let x: Vec<Header> = Vec::new();
        proof {
            assert(headers_view(x@) =~= Seq::<(Seq<char>, Seq<char>)>::empty());
        }
        return Some((x, i + 1));
    }
    if i < v.len() && v[i] == ',' {
        match parse_header_chars(v, i + 1) {
            None => None,
            Some((h, j)) => {
                match parse_headers_tail_chars(v, j) {
                    None => None,
                    Some((mut x, k)) => {
                        let ghost hv = h@;
                        let ghost inner = x@;
                        x.insert(0, h);
                        proof {
                            assert(headers_view(x@) =~= seq![hv] + headers_view(inner));
                        }
                        Some((x, k))
                    },
                }
            },
        }
    } else {
        None
    }
}

/// Read a header list at `i`.
fn parse_headers_chars(v: &Vec<char>, i: usize) -> (r: Option<(Vec<Header>, usize)>)
    requires
        i <= v@.len(),
    ensures
        match r {
            Some((x, j)) => spec_parse_headers(v@, i as int) == Some(
                (headers_view(x@), j as int),
            ) && i < j <= v@.len(),
            None => spec_parse_headers(v@, i as int) is None,
        },
{
    if !(i < v.len() && v[i] == '[') {
        return None;
    }
    if v.len() - i >= 2 && v[i + 1] == ']' {
        let x: Vec<Header> = Vec::new();
        proof {
            assert(headers_view(x@) =~= Seq::<(Seq<char>, Seq<char>)>::empty());
        }
        return Some((x, i + 2));
    }
    match parse_header_chars(v, i + 1) {
        None => None,
        Some((h, j)) => {
            match parse_headers_tail_chars(v, j) {
                None => None,
                Some((mut x, k)) => {
                    let ghost hv = h@;
                    let ghost inner = x@;
                    x.insert(0, h);
                    proof {
                        assert(headers_view(x@) =~= seq![hv] + headers_view(inner));
                    }
                    Some((x, k))
                },
            }
        },
    }
}

/// Read one log line back into an outcome record.
///
/// Succeeds exactly when the exact reader does: on the canonical
/// encoding of a record, and the record returned is the one encoded.
pub fn parse_outcome(line: &str) -> (r: Option<AttackResult>)
    ensures
        match r {
            Some(o) => spec_parse_outcome(line@) == Some(o@),
            None => spec_parse_outcome(line@) is None,
        },
{
    let v = text_to_chars(line);
    let i1 = match parse_lit_chars(&v, 0, "{\"timestamp\":") {
        None => {
            return None;
        },
        Some(j) => j,
    };
    let (timestamp, i2) = match parse_number_chars(&v, i1) {
        None => {
            return None;
        },
        Some(p) => p,
    };
    let i3 = match parse_lit_chars(&v, i2, ",\"latency\":") {
        None => {
            return None;
        },
        Some(j) => j,
    };
    let (latency, i4) = match parse_number_chars(&v, i3) {
        None => {
            return None;
        },
        Some(p) => p,
    };
    let i5 = match parse_lit_chars(&v, i4, ",\"status_code\":") {
        None => {
            return None;
        },
        Some(j) => j,
    };
    let (status, i6) = match parse_number_chars(&v, i5) {
        None => {
            return None;
        },
        Some(p) => p,
    };
    if status > u16::MAX as u64 {
        return None;
    }
    let i7 = match parse_lit_chars(&v, i6, ",\"bytes_in\":") {
        None => {
            return None;
        },
        Some(j) => j,
    };
    let (bytes_in, i8) = match parse_number_chars(&v, i7) {
        None => {
            return None;
        },
        Some(p) => p,
    };
    if bytes_in > usize::MAX as u64 {
        return None;
    }
    let i9 = match parse_lit_chars(&v, i8, ",\"bytes_out\":") {
        None => {
            return None;
        },
        Some(j) => j,
    };
    let (bytes_out, i10) = match parse_number_chars(&v, i9) {
        None => {
            return None;
        },
        Some(p) => p,
    };
    if bytes_out > usize::MAX as u64 {
        return None;
    }
    let i11 = match parse_lit_chars(&v, i10, ",\"timed_out\":") {
        None => {
            return None;
        },
        Some(j) => j,
    };
    let (timed_out, i12) = match parse_bool_chars(&v, i11) {
        None => {
            return None;
        },
        Some(p) => p,
    };
    let i13 = match parse_lit_chars(&v, i12, ",\"error\":") {
        None => {
            return None;
        },
        Some(j) => j,
    };
    let (error_chars, i14) = match parse_opt_string_chars(&v, i13) {
        None => {
            return None;
        },
        Some(p) => p,
    };
    let i15 = match parse_lit_chars(&v, i14, ",\"target\":{\"method\":") {
        None => {
            return None;
        },
        Some(j) => j,
    };
    let (method_chars, i16) = match parse_string_chars(&v, i15) {
        None => {
            return None;
        },
        Some(p) => p,
    };
    let i17 = match parse_lit_chars(&v, i16, ",\"url\":") {
        None => {
            return None;
        },
        Some(j) => j,
    };
    let (url_chars, i18) = match parse_string_chars(&v, i17) {
        None => {
            return None;
        },
        Some(p) => p,
    };
    let i19 = match parse_lit_chars(&v, i18, ",\"headers\":") {
        None => {
            return None;
        },
        Some(j) => j,
    };
    let (headers, i20) = match parse_headers_chars(&v, i19) {
        None => {
            return None;
        },
        Some(p) => p,
    };
    let i21 = match parse_lit_chars(&v, i20, ",\"body\":") {
        None => {
            return None;
        },
        Some(j) => j,
    };
    let (body, i22) = match parse_body_chars(&v, i21) {
        None => {
            return None;
        },
        Some(p) => p,
    };
    match parse_lit_chars(&v, i22, "}}") {
        None => {
            return None;
        },
        Some(j) => {
            if j < v.len() {
                return None;
            }
        },
    };
    let error = match error_chars {
        Some(e) => Some(chars_to_text(&e)),
        None => None,
    };
    let o = AttackResult {
        timestamp,
        latency,
        status_code: status as u16,
        error,
        target: Target {
            method: chars_to_text(&method_chars),
            url: chars_to_text(&url_chars),
            headers,
            body,
        },
        bytes_in: bytes_in as usize,
        bytes_out: bytes_out as usize,
        timed_out,
    };
    proof {
        assert(o@.target.body == match body {
            Some(b) => Some(b@),
            None => None::<Seq<u8>>,
        });
    }
    Some(o)
}

} // verus!