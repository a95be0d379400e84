//! The wire form of the telemetry payload.
//!
//! One cycle's payload is a JSON array of decimal numbers, one per vector
//! entry, each printed from its value in hundredths with exactly two digits
//! after the point. The encoder below produces those bytes; the parser
//! accepts them back, and parsing what was encoded returns the original
//! values exactly.
//!
//! The payload carries no length prefix and no delimiter: one write is
//! assumed to arrive as one read, an accepted limitation of this best-effort
//! testbed feed.

use vstd::prelude::*;

verus! {

/// `[`
pub const OPEN: u8 = 91;

/// `]`
pub const CLOSE: u8 = 93;

/// `,`
pub const COMMA: u8 = 44;

/// `.`
pub const POINT: u8 = 46;

/// The ASCII byte of a decimal digit.
pub open spec fn digit_byte(d: int) -> u8 {
    (48 + d) as u8
}

/// Decimal digits of an integer part up to three digits, without leading
/// zeros.
pub open spec fn int_digits(n: int) -> Seq<u8> {
    if n >= 100 {
        seq![digit_byte(n / 100), digit_byte((n / 10) % 10), digit_byte(n % 10)]
    } else if n >= 10 {
        seq![digit_byte(n / 10), digit_byte(n % 10)]
    } else {
        seq![digit_byte(n)]
    }
}

/// The decimal text of one value in hundredths: integer part, point, and
/// exactly two fraction digits.
pub open spec fn enc_value(q: int) -> Seq<u8> {
    int_digits(q / 100) + seq![POINT, digit_byte((q % 100) / 10), digit_byte(q % 10)]
}

/// The comma-separated values of the array body.
pub open spec fn enc_body(vs: Seq<u32>) -> Seq<u8>
    decreases vs.len(),
{
    if vs.len() == 0 {
        Seq::empty()
    } else if vs.len() == 1 {
        enc_value(vs[0] as int)
    } else {
        enc_value(vs[0] as int) + seq![COMMA] + enc_body(vs.drop_first())
    }
}

/// The whole payload: the body between brackets.
pub open spec fn enc_payload(vs: Seq<u32>) -> Seq<u8> {
    seq![OPEN] + enc_body(vs) + seq![CLOSE]
}

proof fn lemma_enc_body_push(vs: Seq<u32>, x: u32)
    ensures
        enc_body(vs.push(x)) == if vs.len() == 0 {
            enc_value(x as int)
        } else {
            enc_body(vs) + seq![COMMA] + enc_value(x as int)
        },
    decreases vs.len(),
{
    let p = vs.push(x);
    if vs.len() == 0 {
        assert(p.len() == 1);
        assert(p[0] == x);
    } else {
        assert(p.len() >= 2);
        assert(p.drop_first() =~= vs.drop_first().push(x));
        lemma_enc_body_push(vs.drop_first(), x);
        assert(enc_body(p) =~= enc_body(vs) + seq![COMMA] + enc_value(x as int));
    }
}

/// Appends the decimal text of one value in hundredths.
fn push_value(out: &mut Vec<u8>, q: u32)
    requires
        q <= 99999,
    ensures
        final(out)@ == old(out)@ + enc_value(q as int),
{
    let d = q / 100;
    if d >= 100 {
        out.push(48 + (d / 100) as u8);
        out.push(48 + ((d / 10) % 10) as u8);
        out.push(48 + (d % 10) as u8);
    } else if d >= 10 {
        out.push(48 + (d / 10) as u8);
        out.push(48 + (d % 10) as u8);
    } else {
        out.push(48 + d as u8);
    }
    out.push(POINT);
    out.push(48 + ((q % 100) / 10) as u8);
    out.push(48 + (q % 10) as u8);
    proof {
        assert(out@ =~= old(out)@ + enc_value(q as int));
    }
}

/// Encodes a vector of values in hundredths as the JSON array of their
/// decimal numbers, in order.
pub fn encode_values(vs: &Vec<u32>) -> (out: Vec<u8>)
    requires
        forall|i: int| 0 <= i < vs@.len() ==> vs@[i] <= 10000,
    ensures
        out@ == enc_payload(vs@),
{
    let mut out: Vec<u8> = Vec::new();
    out.push(OPEN);
    let mut i: usize = 0;
    while i < vs.len()
        invariant
            0 <= i <= vs@.len(),
            forall|k: int| 0 <= k < vs@.len() ==> vs@[k] <= 10000,
            out@ == seq![OPEN] + enc_body(vs@.take(i as int)),
        decreases vs@.len() - i,
    {
        if i > 0 {
            out.push(COMMA);
        }
        push_value(&mut out, vs[i]);
        proof {
            lemma_enc_body_push(vs@.take(i as int), vs@[i as int]);
            assert(vs@.take(i + 1) =~= vs@.take(i as int).push(vs@[i as int]));
            assert(out@ =~= seq![OPEN] + enc_body(vs@.take(i + 1)));
        }
        i = i + 1;
    }
    out.push(CLOSE);
    proof {
        assert(vs@.take(vs@.len() as int) =~= vs@);
        assert(out@ =~= enc_payload(vs@));
    }
    out
}

pub open spec fn is_digit(b: u8) -> bool {
    48 <= b && b <= 57
}

pub open spec fn digit_val(b: u8) -> int {
    b - 48
}

/// Length of the run of decimal digits starting at `i`.
pub open spec fn digit_run(b: Seq<u8>, i: int) -> int
    decreases b.len() - i when 0 <= i <= b.len()
{
    if i < b.len() && is_digit(b[i]) {
        1 + digit_run(b, i + 1)
    } else {
        0
    }
}

/// Value of the `k` digits starting at `i`, most significant first.
pub open spec fn digits_val(b: Seq<u8>, i: int, k: int) -> int
    decreases k,
{
    if k <= 0 {
        0
    } else {
        digits_val(b, i, k - 1) * 10 + digit_val(b[i + k - 1])
    }
}

/// Parses one decimal number at `i`: up to three integer digits, a point,
/// and exactly two fraction digits. Returns its value in hundredths and the
/// position just past it.
pub open spec fn parse_value(b: Seq<u8>, i: int) -> Option<(int, int)> {
    let k = digit_run(b, i);
    if 1 <= k <= 3 && i + k + 3 <= b.len() && b[i + k] == POINT && is_digit(b[i + k + 1])
        && is_digit(b[i + k + 2]) {
        Some(
            (
                digits_val(b, i, k) * 100 + digit_val(b[i + k + 1]) * 10 + digit_val(b[i + k + 2]),
                i + k + 3,
            ),
        )
    } else {
        None
    }
}

/// Parses the comma-separated numbers from `i` up to the closing bracket at
/// the very end.
pub open spec fn parse_body(b: Seq<u8>, i: int) -> Option<Seq<u32>>
    decreases b.len() - i when 0 <= i <= b.len()
{
    match parse_value(b, i) {
        None => None,
        Some((q, j)) => {
            if !(i < j && j < b.len()) {
                None
            } else if b[j] == CLOSE && j + 1 == b.len() {
                Some(seq![q as u32])
            } else if b[j] == COMMA {
                match parse_body(b, j + 1) {
                    None => None,
                    Some(t) => Some(seq![q as u32] + t),
                }
            } else {
                None
            }
        },
    }
}

/// Parses a whole payload: a bracketed, comma-separated array of decimal
/// numbers, nothing before or after.
pub open spec fn parse_payload_spec(b: Seq<u8>) -> Option<Seq<u32>> {
    if b.len() >= 2 && b[0] == OPEN {
        if b.len() == 2 && b[1] == CLOSE {
            Some(Seq::empty())
        } else {
            parse_body(b, 1)
        }
    } else {
        None
    }
}

proof fn lemma_bytes_at(b: Seq<u8>, i: int, s: Seq<u8>)
    requires
        0 <= i,
        i + s.len() <= b.len(),
        b.subrange(i, i + s.len() as int) == s,
    ensures
        forall|k: int| 0 <= k < s.len() ==> b[i + k] == #[trigger] s[k],
{
    assert forall|k: int| 0 <= k < s.len() implies b[i + k] == #[trigger] s[k] by {
        assert(s[k] == b.subrange(i, i + s.len() as int)[k]);
    }
}

proof fn lemma_parse_value_enc(b: Seq<u8>, i: int, q: int)
    requires
        0 <= q <= 99999,
        0 <= i,
        i + enc_value(q).len() < b.len(),
        b.subrange(i, i + enc_value(q).len() as int) == enc_value(q),
        !is_digit(b[i + enc_value(q).len()]),
    ensures
        parse_value(b, i) == Some((q, i + enc_value(q).len() as int)),
{
    let n = q / 100;
    let e = enc_value(q);
    let l = e.len() as int;
    lemma_bytes_at(b, i, e);
    assert(0 <= n <= 999) by (nonlinear_arith)
        requires 0 <= q <= 99999, n == q / 100;
    assert(q == n * 100 + q % 100) by (nonlinear_arith)
        requires 0 <= q, n == q / 100;
    assert(q % 100 == ((q % 100) / 10) * 10 + (q % 100) % 10) by (nonlinear_arith)
        requires 0 <= q;
    assert((q % 100) % 10 == q % 10) by (nonlinear_arith)
        requires 0 <= q;
    if n >= 100 {
        assert(l == 6);
        assert(b[i + 0] == e[0] && e[0] == digit_byte(n / 100));
        assert(b[i + 1] == e[1] && e[1] == digit_byte((n / 10) % 10));
        assert(b[i + 2] == e[2] && e[2] == digit_byte(n % 10));
        assert(b[i + 3] == e[3] && e[3] == POINT);
        assert(b[i + 4] == e[4] && e[4] == digit_byte((q % 100) / 10));
        assert(b[i + 5] == e[5] && e[5] == digit_byte(q % 10));
        assert(1 <= n / 100 <= 9) by (nonlinear_arith)
            requires 100 <= n <= 999;
        assert(is_digit(b[i]) && is_digit(b[i + 1]) && is_digit(b[i + 2]));
        assert(!is_digit(b[i + 3]));
        assert(digit_run(b, i + 3) == 0);
        assert(digit_run(b, i + 2) == 1);
        assert(digit_run(b, i + 1) == 2);
        assert(digit_run(b, i) == 3);
        assert(digits_val(b, i, 0) == 0);
        assert(digits_val(b, i, 1) == digits_val(b, i, 0) * 10 + digit_val(b[i + 0]));
        assert(digits_val(b, i, 1) == n / 100);
        assert(digits_val(b, i, 2) == (n / 100) * 10 + (n / 10) % 10);
        assert(digits_val(b, i, 3) == ((n / 100) * 10 + (n / 10) % 10) * 10 + n % 10);
        assert(n == (n / 100) * 100 + ((n / 10) % 10) * 10 + n % 10) by (nonlinear_arith)
            requires 0 <= n <= 999;
        assert(digits_val(b, i, 3) == n);
        assert(parse_value(b, i) == Some((n * 100 + ((q % 100) / 10) * 10 + q % 10, i + 6)));
        assert(n * 100 + ((q % 100) / 10) * 10 + q % 10 == q);
    } else if n >= 10 {
        assert(l == 5);
        assert(b[i + 0] == e[0] && e[0] == digit_byte(n / 10));
        assert(b[i + 1] == e[1] && e[1] == digit_byte(n % 10));
        assert(b[i + 2] == e[2] && e[2] == POINT);
        assert(b[i + 3] == e[3] && e[3] == digit_byte((q % 100) / 10));
        assert(b[i + 4] == e[4] && e[4] == digit_byte(q % 10));
        assert(1 <= n / 10 <= 9) by (nonlinear_arith)
            requires 10 <= n <= 99;
        assert(is_digit(b[i]) && is_digit(b[i + 1]));
        assert(!is_digit(b[i + 2]));
        assert(digit_run(b, i + 2) == 0);
        assert(digit_run(b, i + 1) == 1);
        assert(digit_run(b, i) == 2);
        assert(digits_val(b, i, 0) == 0);
        assert(digits_val(b, i, 1) == digits_val(b, i, 0) * 10 + digit_val(b[i + 0]));
        assert(digits_val(b, i, 2) == (n / 10) * 10 + n % 10);
        assert((n / 10) * 10 + n % 10 == n);
        assert(parse_value(b, i) == Some((n * 100 + ((q % 100) / 10) * 10 + q % 10, i + 5)));
        assert(n * 100 + ((q % 100) / 10) * 10 + q % 10 == q);
    } else {
        assert(l == 4);
        assert(b[i + 0] == e[0] && e[0] == digit_byte(n));
        assert(b[i + 1] == e[1] && e[1] == POINT);
        assert(b[i + 2] == e[2] && e[2] == digit_byte((q % 100) / 10));
        assert(b[i + 3] == e[3] && e[3] == digit_byte(q % 10));
        assert(is_digit(b[i]));
        assert(!is_digit(b[i + 1]));
        assert(digit_run(b, i + 1) == 0);
        assert(digit_run(b, i) == 1);
        assert(digits_val(b, i, 0) == 0);
        assert(digits_val(b, i, 1) == digits_val(b, i, 0) * 10 + digit_val(b[i + 0]));
        assert(digits_val(b, i, 1) == n);
        assert(parse_value(b, i) == Some((n * 100 + ((q % 100) / 10) * 10 + q % 10, i + 4)));
        assert(n * 100 + ((q % 100) / 10) * 10 + q % 10 == q);
    }
}

#[verifier::rlimit(60)]
proof fn lemma_parse_body_enc(b: Seq<u8>, i: int, vs: Seq<u32>)
    requires
        vs.len() >= 1,
        forall|t: int| 0 <= t < vs.len() ==> vs[t] <= 10000,
        0 <= i <= b.len(),
        b.subrange(i, b.len() as int) == enc_body(vs) + seq![CLOSE],
    ensures
        parse_body(b, i) == Some(vs),
    decreases vs.len(),
{
    let e = enc_value(vs[0] as int);
    let l = e.len() as int;
    let s = b.subrange(i, b.len() as int);
    assert(b.len() - i == s.len());
    lemma_bytes_at(b, i, s);
    if vs.len() == 1 {
        assert(s == e + seq![CLOSE]);
        assert(s.len() == l + 1);
        assert forall|k: int| 0 <= k < l implies b.subrange(i, i + l)[k] == e[k] by {
            assert(b.subrange(i, i + l)[k] == b[i + k]);
            assert(s[k] == e[k]);
        }
        assert(b.subrange(i, i + l) =~= e);
        assert(s[l] == CLOSE);
        assert(b[i + l] == CLOSE);
        assert(!is_digit(CLOSE));
        lemma_parse_value_enc(b, i, vs[0] as int);
        assert(parse_value(b, i) == Some((vs[0] as int, i + l)));
        assert(parse_body(b, i) == Some(seq![vs[0]]));
        assert(seq![vs[0]] =~= vs);
    } else {
        let rest = vs.drop_first();
        assert(enc_body(vs) == e + seq![COMMA] + enc_body(rest));
        assert(s.len() == enc_body(vs).len() + 1);
        assert forall|k: int| 0 <= k < l implies b.subrange(i, i + l)[k] == e[k] by {
            assert(b.subrange(i, i + l)[k] == b[i + k]);
            assert(s[k] == e[k]);
        }
        assert(b.subrange(i, i + l) =~= e);
        assert(s[l] == COMMA);
        assert(b[i + l] == COMMA);
        assert(!is_digit(COMMA));
        lemma_parse_value_enc(b, i, vs[0] as int);
        assert(parse_value(b, i) == Some((vs[0] as int, i + l)));
        assert(enc_body(rest).len() >= 4);
        let tail = enc_body(rest) + seq![CLOSE];
        assert forall|k: int| 0 <= k < tail.len() implies b.subrange(i + l + 1, b.len() as int)[k]
            == tail[k] by {
            assert(b.subrange(i + l + 1, b.len() as int)[k] == b[i + l + 1 + k]);
            assert(s[l + 1 + k] == tail[k]);
            assert(b[i + (l + 1 + k)] == s[l + 1 + k]);
        }
        assert(b.subrange(i + l + 1, b.len() as int) =~= tail);
        lemma_parse_body_enc(b, i + l + 1, rest);
        assert(parse_body(b, i + l + 1) == Some(rest));
        assert(b[i + l] != CLOSE);
        assert(parse_body(b, i) == Some(seq![vs[0]] + rest));
        assert(seq![vs[0]] + rest =~= vs);
    }
}

proof fn lemma_enc_body_len(vs: Seq<u32>)
    requires
        vs.len() >= 1,
    ensures
        enc_body(vs).len() >= 4,
    decreases vs.len(),
{
    if vs.len() > 1 {
        lemma_enc_body_len(vs.drop_first());
    }
}

proof fn lemma_digit_run_exact(b: Seq<u8>, i: int, k: int)
    requires
        0 <= i,
        0 <= k,
        i + k <= b.len(),
        forall|m: int| 0 <= m < k ==> #[trigger] is_digit(b[i + m]),
        i + k == b.len() || !is_digit(b[i + k]),
    ensures
        digit_run(b, i) == k,
    decreases k,
{
    if k > 0 {
        assert(is_digit(b[i + 0]));
        assert forall|m: int| 0 <= m < k - 1 implies #[trigger] is_digit(b[i + 1 + m]) by {
            assert(is_digit(b[i + (m + 1)]));
        }
        lemma_digit_run_exact(b, i + 1, k - 1);
    }
}

proof fn lemma_digit_run_nonneg(b: Seq<u8>, i: int)
    requires
        0 <= i <= b.len(),
    ensures
        digit_run(b, i) >= 0,
    decreases b.len() - i,
{
    if i < b.len() && is_digit(b[i]) {
        lemma_digit_run_nonneg(b, i + 1);
    }
}

proof fn lemma_digit_run_lb(b: Seq<u8>, i: int, k: int)
    requires
        0 <= i,
        0 <= k,
        i + k <= b.len(),
        forall|m: int| 0 <= m < k ==> #[trigger] is_digit(b[i + m]),
    ensures
        digit_run(b, i) >= k,
    decreases k,
{
    if k > 0 {
        assert(is_digit(b[i + 0]));
        assert forall|m: int| 0 <= m < k - 1 implies #[trigger] is_digit(b[i + 1 + m]) by {
            assert(is_digit(b[i + (m + 1)]));
        }
        lemma_digit_run_lb(b, i + 1, k - 1);
        assert(is_digit(b[i]));
        assert(digit_run(b, i) == 1 + digit_run(b, i + 1));
    } else {
        lemma_digit_run_nonneg(b, i);
    }
}

/// Parses one decimal number at position `i`, returning its value in
/// hundredths and the position just past it.
fn parse_value_at(bytes: &Vec<u8>, i: usize) -> (r: Option<(u32, usize)>)
    requires
        i <= bytes@.len(),
    ensures
        r matches Some(p) ==> parse_value(bytes@, i as int) == Some((p.0 as int, p.1 as int))
            && i < p.1 <= bytes@.len(),
        r is None ==> parse_value(bytes@, i as int) is None,
{
    let len = bytes.len();
    let mut k: usize = 0;
    while k < 4 && i + k < len && 48 <= bytes[i + k] && bytes[i + k] <= 57
        invariant
            0 <= k <= 4,
            i + k <= len,
            len == bytes@.len(),
            forall|m: int| 0 <= m < k ==> #[trigger] is_digit(bytes@[i + m]),
        decreases 4 - k,
    {
        k = k + 1;
    }
    if k == 0 {
        proof {
            lemma_digit_run_exact(bytes@, i as int, 0);
        }
        return None;
    }
    if k == 4 {
        proof {
            lemma_digit_run_lb(bytes@, i as int, 4);
        }
        return None;
    }
    proof {
        lemma_digit_run_exact(bytes@, i as int, k as int);
    }
    if len - (i + k) < 3 {
        return None;
    }
    if bytes[i + k] != POINT {
        return None;
    }
    let d1 = bytes[i + k + 1];
    if d1 < 48 || d1 > 57 {
        return None;
    }
    let d2 = bytes[i + k + 2];
    if d2 < 48 || d2 > 57 {
        return None;
    }
    let mut v: u32 = 0;
    let mut m: usize = 0;
    while m < k
        invariant
            0 <= m <= k <= 3,
            i + k <= len,
            len == bytes@.len(),
            forall|t: int| 0 <= t < k ==> #[trigger] is_digit(bytes@[i + t]),
            v == digits_val(bytes@, i as int, m as int),
            m < 1 ==> v == 0,
            m < 2 ==> v <= 9,
            m < 3 ==> v <= 99,
            v <= 999,
        decreases k - m,
    {
        let d = bytes[i + m];
        proof {
            assert(is_digit(bytes@[i + m as int]));
            assert(digits_val(bytes@, i as int, m + 1) == digits_val(bytes@, i as int, m as int)
                * 10 + digit_val(bytes@[i + m as int]));
        }
        v = v * 10 + (d - 48) as u32;
        m = m + 1;
    }
    let q = v * 100 + ((d1 - 48) as u32) * 10 + (d2 - 48) as u32;
    Some((q, i + k + 3))
}

/// Parses a payload back into its values in hundredths: succeeds exactly on
/// the bracketed, comma-separated decimal arrays that the parser's
/// specification accepts.
pub fn parse_payload(bytes: &Vec<u8>) -> (r: Option<Vec<u32>>)
    ensures
        r matches Some(v) ==> parse_payload_spec(bytes@) == Some(v@),
        r is None ==> parse_payload_spec(bytes@) is None,
{
    let len = bytes.len();
    if len < 2 || bytes[0] != OPEN {
        return None;
    }
    if len == 2 {
        if bytes[1] == CLOSE {
            let v: Vec<u32> = Vec::new();
            proof {
                assert(v@ =~= Seq::<u32>::empty());
            }
            return Some(v);
        } else {
            return None;
        }
    }
    let mut acc: Vec<u32> = Vec::new();
    let mut i: usize = 1;
    loop
        invariant
            1 <= i <= len,
            len == bytes@.len(),
            len > 2,
            bytes@[0] == OPEN,
            parse_body(bytes@, i as int) is None ==> parse_payload_spec(bytes@) is None,
            forall|t: Seq<u32>| parse_body(bytes@, i as int) == Some(t) ==> parse_payload_spec(
                bytes@,
            ) == Some(acc@ + t),
        decreases len - i,
    {
        let step = parse_value_at(bytes, i);
        match step {
            None => {
                return None;
            },
            Some((q, j)) => {
                if j < len && bytes[j] == CLOSE && j + 1 == len {
                    let ghost prev = acc@;
                    acc.push(q);
                    proof {
                        assert(parse_body(bytes@, i as int) == Some(seq![q]));
                        assert(prev + seq![q] =~= acc@);
                    }
                    return Some(acc);
                } else if j < len && bytes[j] == COMMA {
                    let ghost prev = acc@;
                    let ghost i0 = i as int;
                    acc.push(q);
                    i = j + 1;
                    proof {
                        assert forall|t: Seq<u32>| parse_body(bytes@, i as int) == Some(t)
                            implies parse_payload_spec(bytes@) == Some(acc@ + t) by {
                            assert(parse_body(bytes@, i0) == Some(seq![q] + t));
                            assert(prev + (seq![q] + t) =~= acc@ + t);
                        }
                        assert(parse_body(bytes@, i as int) is None ==> parse_body(bytes@, i0)
                            is None);
                    }
                } else {
                    proof {
                        assert(parse_body(bytes@, i as int) is None);
                    }
                    return None;
                }
            },
        }
    }
}

/// Round trip of the wire form: parsing an encoded payload returns exactly
/// the values that were encoded.
pub proof fn lemma_round_trip(vs: Seq<u32>)
    requires
        forall|i: int| 0 <= i < vs.len() ==> vs[i] <= 10000,
    ensures
        parse_payload_spec(enc_payload(vs)) == Some(vs),
{
    let b = enc_payload(vs);
    assert(b[0] == OPEN);
    if vs.len() == 0 {
        assert(b.len() == 2);
        assert(b[1] == CLOSE);
        assert(parse_payload_spec(b) == Some(Seq::<u32>::empty()));
        assert(Seq::<u32>::empty() =~= vs);
    } else {
        lemma_enc_body_len(vs);
        assert(b.len() >= 6);
        assert(b.subrange(1, b.len() as int) =~= enc_body(vs) + seq![CLOSE]);
        lemma_parse_body_enc(b, 1, vs);
    }
}

} // verus!
