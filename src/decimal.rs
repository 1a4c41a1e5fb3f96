//! Exact decimal numbers and their text form.

use vstd::prelude::*;
use crate::text::{
    all_digits, digits_value, is_digit, is_space, lemma_digits_value_grows, lemma_digits_value_push,
    lemma_leading_zero, lemma_nat_digits, nat_digits, no_space, push_digits, digit_run,
};

verus! {

/// A decimal number: `(-1)^negative * magnitude / 10^scale`.
///
/// The scale is the number of digits written after the point, so the text
/// form of a number is kept exactly, trailing zeros included.
#[derive(Clone, Copy, Debug, PartialEq, Eq, Structural)]
pub struct Decimal {
    pub negative: bool,
    pub magnitude: u64,
    pub scale: u32,
}

impl Decimal {
    /// The non-negative integer `n`.
    pub fn from_u64(n: u64) -> (r: Decimal)
        ensures
            r == (Decimal { negative: false, magnitude: n, scale: 0 }),
    {
        Decimal { negative: false, magnitude: n, scale: 0 }
    }

    /// The number `magnitude / 10^scale`, negated when `negative` holds.
    pub fn new(negative: bool, magnitude: u64, scale: u32) -> (r: Decimal)
        ensures
            r == (Decimal { negative, magnitude, scale }),
    {
        Decimal { negative, magnitude, scale }
    }
}

pub open spec fn zero_pad(s: Seq<char>, w: nat) -> Seq<char> {
    if s.len() >= w {
        s
    } else {
        Seq::new((w - s.len()) as nat, |i: int| '0') + s
    }
}

/// All digits of the magnitude, padded so that at least one stands before the point.
pub open spec fn body_of(d: Decimal) -> Seq<char> {
    zero_pad(nat_digits(d.magnitude as nat), d.scale as nat + 1)
}

pub open spec fn sign_text(negative: bool) -> Seq<char> {
    if negative { seq!['-'] } else { seq![] }
}

/// The canonical text of `d`: an optional `-`, the integer digits, and, when
/// the scale is positive, a point followed by exactly `scale` digits.
pub open spec fn decimal_text(d: Decimal) -> Seq<char> {
    let b = body_of(d);
    let k = b.len() - d.scale;
    sign_text(d.negative) + b.take(k) + (if d.scale > 0 {
        seq!['.'] + b.skip(k)
    } else {
        seq![]
    })
}

/// `rest` is `k` digits, optionally followed by a point and more digits,
/// with at least one digit in all.
pub open spec fn point_split(rest: Seq<char>, k: int) -> bool {
    &&& 0 <= k <= rest.len()
    &&& all_digits(rest.take(k))
    &&& ((k == rest.len() && k >= 1) || (k < rest.len() && rest[k] == '.' && all_digits(rest.skip(k + 1)) && (k >= 1
        || k + 1 < rest.len())))
}

/// The text starts with a minus sign.
pub open spec fn has_sign(s: Seq<char>) -> bool {
    s.len() > 0 && s[0] == '-'
}

pub open spec fn has_any_sign(s: Seq<char>) -> bool {
    s.len() > 0 && (s[0] == '-' || s[0] == '+')
}

pub open spec fn unsigned_part(s: Seq<char>) -> Seq<char> {
    if has_any_sign(s) { s.drop_first() } else { s }
}

pub open spec fn split_point(rest: Seq<char>) -> int {
    choose|k: int| point_split(rest, k)
}

pub open spec fn fraction_of(rest: Seq<char>, k: int) -> Seq<char> {
    if k < rest.len() { rest.skip(k + 1) } else { seq![] }
}

/// The number that the text `s` denotes, if it is a decimal number (an
/// optional sign, digits, and an optional point with more digits) whose
/// digits fit the magnitude and whose fraction length fits the scale.
pub open spec fn parse_decimal(s: Seq<char>) -> Option<Decimal> {
    let rest = unsigned_part(s);
    if exists|k: int| point_split(rest, k) {
        let k = split_point(rest);
        let frac = fraction_of(rest, k);
        let v = digits_value(rest.take(k) + frac);
        if v <= u64::MAX && frac.len() <= u32::MAX {
            Some(Decimal { negative: has_sign(s), magnitude: v as u64, scale: frac.len() as u32 })
        } else {
            None
        }
    } else {
        None
    }
}

pub proof fn lemma_point_split_unique(rest: Seq<char>, k1: int, k2: int)
    requires
        point_split(rest, k1),
        point_split(rest, k2),
    ensures
        k1 == k2,
{
    if k1 < k2 {
        assert(rest.take(k2)[k1] == rest[k1]);
    }
    if k2 < k1 {
        assert(rest.take(k1)[k2] == rest[k2]);
    }
}

proof fn lemma_zero_pad(s: Seq<char>, w: nat)
    requires
        all_digits(s),
    ensures
        all_digits(zero_pad(s, w)),
        digits_value(zero_pad(s, w)) == digits_value(s),
        zero_pad(s, w).len() == if s.len() >= w { s.len() } else { w },
    decreases w,
{
    if s.len() < w {
        lemma_zero_pad(s, (w - 1) as nat);
        assert(zero_pad(s, w) =~= seq!['0'] + zero_pad(s, (w - 1) as nat));
        lemma_leading_zero(zero_pad(s, (w - 1) as nat));
    }
}

/// The canonical text of every decimal reads back as that decimal.
#[verifier::rlimit(40)]
pub proof fn lemma_decimal_round_trip(d: Decimal)
    ensures
        parse_decimal(decimal_text(d)) == Some(d),
        decimal_text(d).len() > 0,
        no_space(decimal_text(d)),
        no_exp_mark(decimal_text(d)),
        parse_number(decimal_text(d)) == Some(d),
{
    let b = body_of(d);
    lemma_nat_digits(d.magnitude as nat);
    lemma_zero_pad(nat_digits(d.magnitude as nat), d.scale as nat + 1);
    let k = b.len() - d.scale;
    let tail = if d.scale > 0 { seq!['.'] + b.skip(k) } else { seq![] };
    let rest = b.take(k) + tail;
    let t = decimal_text(d);
    assert(t =~= sign_text(d.negative) + rest);
    assert(is_digit(b[0]));
    if d.negative {
        assert(has_sign(t));
        assert(has_any_sign(t));
        assert(unsigned_part(t) =~= rest);
    } else {
        assert(t =~= rest);
        assert(rest[0] == b[0]);
        assert(!has_sign(t));
        assert(!has_any_sign(t));
    }
    assert(unsigned_part(t) =~= rest);
    assert(rest.take(k) =~= b.take(k));
    assert(point_split(rest, k)) by {
        if d.scale > 0 {
            assert(rest.skip(k + 1) =~= b.skip(k));
        } else {
            assert(rest =~= b.take(k));
        }
    }
    lemma_point_split_unique(rest, k, split_point(rest));
    let frac = fraction_of(rest, k);
    if d.scale > 0 {
        assert(frac =~= b.skip(k));
    } else {
        assert(frac =~= seq![]);
    }
    assert(rest.take(k) + frac =~= b);
    assert forall|i: int| 0 <= i < t.len() implies !is_space(#[trigger] t[i]) && !is_exp_mark(t[i]) by {
        if d.negative && i == 0 {
        } else {
            let j = if d.negative { i - 1 } else { i };
            assert(t[i] == rest[j]);
            if j < k {
                assert(rest[j] == b[j]);
            } else if j > k {
                assert(rest[j] == b[j - 1]);
            }
        }
    }
}

/// The value of the digits of `s` from `from` to `to`, appended to `pre`,
/// or `None` when that value does not fit.
fn accumulate(s: &Vec<char>, from: usize, to: usize, acc: u64, Ghost(pre): Ghost<Seq<char>>) -> (r:
    Option<u64>)
    requires
        from <= to <= s@.len(),
        all_digits(s@.subrange(from as int, to as int)),
        acc == digits_value(pre),
    ensures
        match r {
            Some(v) => v == digits_value(pre + s@.subrange(from as int, to as int)),
            None => digits_value(pre + s@.subrange(from as int, to as int)) > u64::MAX,
        },
{
    let mut acc = acc;
    let mut i = from;
    while i < to
        invariant
            from <= i <= to <= s@.len(),
            all_digits(s@.subrange(from as int, to as int)),
            acc == digits_value(pre + s@.subrange(from as int, i as int)),
        decreases to - i,
    {
        let c = s[i];
        assert(s@.subrange(from as int, to as int)[i - from] == c);
        let d = (c as u32 - '0' as u32) as u64;
        let ghost cur = pre + s@.subrange(from as int, i as int);
        assert(pre + s@.subrange(from as int, i + 1) =~= cur.push(c));
        proof {
            lemma_digits_value_push(cur, c);
        }
        if acc > (u64::MAX - d) / 10 {
            proof {
                let whole = pre + s@.subrange(from as int, to as int);
                lemma_digits_value_grows(cur.push(c), s@.subrange(i + 1, to as int));
                assert(cur.push(c) + s@.subrange(i + 1, to as int) =~= whole);
            }
            return None;
        }
        acc = acc * 10 + d;
        i += 1;
    }
    Some(acc)
}

/// Reads a decimal number.
pub fn decode_decimal(s: &Vec<char>) -> (r: Option<Decimal>)
    ensures
        r == parse_decimal(s@),
{
    let neg = s.len() > 0 && s[0] == '-';
    let start: usize = if s.len() > 0 && (s[0] == '-' || s[0] == '+') { 1 } else { 0 };
    let ghost rest = unsigned_part(s@);
    assert(rest =~= s@.skip(start as int));
    let k = digit_run(s, start);
    let ghost kk = k - start;
    assert(rest.take(kk) =~= s@.subrange(start as int, k as int));
    let frac_start: usize;
    if k == s.len() && k > start {
        frac_start = k;
    } else if k < s.len() && s[k] == '.' && (k > start || k + 1 < s.len()) {
        frac_start = k + 1;
    } else {
        proof {
            assert forall|j: int| !point_split(rest, j) by {
                if point_split(rest, j) {
                    if j > kk {
                        assert(rest.take(j)[kk] == rest[kk]);
                    } else if j < kk {
                        assert(rest.take(kk)[j] == rest[j]);
                    }
                    assert(j == kk);
                }
            }
        }
        return None;
    }
    let m = digit_run(s, frac_start);
    if m < s.len() {
        proof {
            assert forall|j: int| !point_split(rest, j) by {
                if point_split(rest, j) {
                    if j > kk {
                        assert(rest.take(j)[kk] == rest[kk]);
                    } else if j < kk {
                        assert(rest.take(kk)[j] == rest[j]);
                    } else {
                        assert(rest.skip(j + 1)[m - frac_start] == s@[m as int]);
                    }
                }
            }
        }
        return None;
    }
    assert(point_split(rest, kk as int)) by {
        if k < s.len() {
            assert(rest.skip(kk + 1) =~= s@.subrange(frac_start as int, m as int));
        }
    }
    proof {
        lemma_point_split_unique(rest, kk as int, split_point(rest));
    }
    let ghost frac = fraction_of(rest, kk as int);
    assert(frac =~= s@.subrange(frac_start as int, s@.len() as int));
    let first = accumulate(s, start, k, 0, Ghost(Seq::<char>::empty()));
    assert(Seq::<char>::empty() + s@.subrange(start as int, k as int) =~= rest.take(kk));
    match first {
        None => {
            proof {
                lemma_digits_value_grows(rest.take(kk), frac);
            }
            None
        },
        Some(a) => {
            let whole = accumulate(s, frac_start, s.len(), a, Ghost(rest.take(kk)));
            match whole {
                None => None,
                Some(v) => {
                    let flen = s.len() - frac_start;
                    if flen as u64 > u32::MAX as u64 {
                        None
                    } else {
                        Some(Decimal { negative: neg, magnitude: v, scale: flen as u32 })
                    }
                },
            }
        },
    }
}

/// Writes the canonical text of `d`.
pub fn encode_decimal(d: &Decimal) -> (r: Vec<char>)
    ensures
        r@ == decimal_text(*d),
{
    let mut digits: Vec<char> = Vec::new();
    push_digits(d.magnitude, &mut digits);
    assert(digits@ =~= nat_digits(d.magnitude as nat));
    let need: u64 = d.scale as u64 + 1;
    let pad: u64 = if (digits.len() as u64) < need { need - digits.len() as u64 } else { 0 };
    let mut body: Vec<char> = Vec::new();
    let mut i: u64 = 0;
    while i < pad
        invariant
            i <= pad,
            body@ =~= Seq::new(i as nat, |j: int| '0'),
        decreases pad - i,
    {
        body.push('0');
        i += 1;
    }
    let mut j: usize = 0;
    while j < digits.len()
        invariant
            j <= digits@.len(),
            body@ =~= Seq::new(pad as nat, |x: int| '0') + digits@.take(j as int),
        decreases digits.len() - j,
    {
        body.push(digits[j]);
        assert(digits@.take(j + 1) =~= digits@.take(j as int).push(digits@[j as int]));
        j += 1;
    }
    assert(digits@.take(digits@.len() as int) =~= digits@);
    assert(body@ =~= body_of(*d));
    let k: usize = body.len() - d.scale as usize;
    let mut out: Vec<char> = Vec::new();
    if d.negative {
        out.push('-');
    }
    let mut p: usize = 0;
    while p < body.len()
        invariant
            k <= body@.len(),
            body@ == body_of(*d),
            k == body@.len() - d.scale,
            p <= body@.len(),
            out@ =~= sign_text(d.negative) + (if p <= k {
                body@.take(p as int)
            } else {
                body@.take(k as int) + seq!['.'] + body@.subrange(k as int, p as int)
            }),
        decreases body.len() - p,
    {
        if p == k {
            out.push('.');
        }
        out.push(body[p]);
        p += 1;
    }
    assert(body@.subrange(k as int, body@.len() as int) =~= body@.skip(k as int));
    assert(out@ =~= decimal_text(*d));
    out
}

pub open spec fn pow10(n: nat) -> nat
    decreases n,
{
    if n == 0 { 1 } else { 10 * pow10((n - 1) as nat) }
}

pub proof fn lemma_pow10_positive(n: nat)
    ensures
        pow10(n) >= 1,
    decreases n,
{
    if n > 0 {
        lemma_pow10_positive((n - 1) as nat);
    }
}

pub proof fn lemma_pow10_grows(a: nat, b: nat)
    requires
        a <= b,
    ensures
        pow10(a) <= pow10(b),
    decreases b - a,
{
    if a < b {
        lemma_pow10_grows(a, (b - 1) as nat);
    }
}

pub open spec fn is_exp_mark(c: char) -> bool {
    c == 'e' || c == 'E'
}

pub open spec fn no_exp_mark(s: Seq<char>) -> bool {
    forall|i: int| 0 <= i < s.len() ==> !is_exp_mark(#[trigger] s[i])
}

/// The position of the first exponent mark of `s`.
pub open spec fn exp_pos(s: Seq<char>) -> int {
    choose|i: int| 0 <= i < s.len() && is_exp_mark(s[i]) && no_exp_mark(s.take(i))
}

/// `m * 10^e`, kept exact, if it fits.
pub open spec fn scale_by_exponent(m: Decimal, e: int) -> Option<Decimal> {
    let sc = m.scale as int - e;
    if 0 <= sc <= u32::MAX {
        Some(Decimal { negative: m.negative, magnitude: m.magnitude, scale: sc as u32 })
    } else if sc < 0 && m.magnitude * pow10((-sc) as nat) <= u64::MAX {
        Some(Decimal { negative: m.negative, magnitude: (m.magnitude * pow10((-sc) as nat)) as u64, scale: 0 })
    } else {
        None
    }
}

/// The number that `s` denotes: a decimal number, optionally followed by
/// `e` or `E` and an integer exponent.
pub open spec fn parse_number(s: Seq<char>) -> Option<Decimal> {
    if no_exp_mark(s) {
        parse_decimal(s)
    } else {
        let i = exp_pos(s);
        match (parse_decimal(s.take(i)), parse_decimal(s.skip(i + 1))) {
            (Some(m), Some(e)) => if e.scale == 0 {
                scale_by_exponent(m, if e.negative { -(e.magnitude as int) } else { e.magnitude as int })
            } else {
                None
            },
            _ => None,
        }
    }
}

fn copy_range(s: &Vec<char>, from: usize, to: usize) -> (r: Vec<char>)
    requires
        from <= to <= s@.len(),
    ensures
        r@ == s@.subrange(from as int, to as int),
{
    let mut r: Vec<char> = Vec::new();
    let mut i = from;
    while i < to
        invariant
            from <= i <= to <= s@.len(),
            r@ == s@.subrange(from as int, i as int),
        decreases to - i,
    {
        r.push(s[i]);
        assert(s@.subrange(from as int, i + 1) =~= s@.subrange(from as int, i as int).push(s@[i as int]));
        i += 1;
    }
    r
}

/// `m * 10^e` for an exponent of sign `e_negative` and size `e`.
fn apply_exponent(m: Decimal, e_negative: bool, e: u64) -> (r: Option<Decimal>)
    ensures
        r == scale_by_exponent(m, if e_negative { -(e as int) } else { e as int }),
{
    let ghost ei: int = if e_negative { -(e as int) } else { e as int };
    let sc: i128 = if e_negative { m.scale as i128 + e as i128 } else { m.scale as i128 - e as i128 };
    assert(sc == m.scale as int - ei);
    if 0 <= sc && sc <= u32::MAX as i128 {
        return Some(Decimal { negative: m.negative, magnitude: m.magnitude, scale: sc as u32 });
    }
    if sc > 0 {
        return None;
    }
    let k: u128 = (-sc) as u128;
    if m.magnitude == 0 {
        assert(0 * pow10(k as nat) == 0);
        return Some(Decimal { negative: m.negative, magnitude: 0, scale: 0 });
    }
    let mut acc: u64 = m.magnitude;
    let mut i: u128 = 0;
    assert(pow10(0) == 1);
    while i < k
        invariant
            i <= k,
            m.magnitude >= 1,
            acc == m.magnitude * pow10(i as nat),
            sc < 0,
            k as int == -(sc as int),
            sc as int == m.scale as int - ei,
            ei == if e_negative { -(e as int) } else { e as int },
        decreases k - i,
    {
        if acc > u64::MAX / 10 {
            proof {
                lemma_pow10_grows(i as nat + 1, k as nat);
                assert(pow10(i as nat + 1) == 10 * pow10(i as nat));
                assert(m.magnitude * pow10(i as nat + 1) == 10 * acc) by (nonlinear_arith)
                    requires acc == m.magnitude * pow10(i as nat), pow10(i as nat + 1) == 10 * pow10(i as nat);
                assert(m.magnitude * pow10(i as nat + 1) <= m.magnitude * pow10(k as nat)) by (nonlinear_arith)
                    requires pow10(i as nat + 1) <= pow10(k as nat), m.magnitude >= 1;
                assert(10 * acc > u64::MAX);
                assert((-sc) as nat == k as nat);
                assert(m.scale as int - ei < 0);
                assert((-(m.scale as int - ei)) as nat == k as nat);
                assert(m.magnitude * pow10((-(m.scale as int - ei)) as nat) > u64::MAX);
            }
            return None;
        }
        proof {
            assert(pow10(i as nat + 1) == 10 * pow10(i as nat));
            assert(m.magnitude * pow10(i as nat + 1) == 10 * acc) by (nonlinear_arith)
                requires acc == m.magnitude * pow10(i as nat), pow10(i as nat + 1) == 10 * pow10(i as nat);
        }
        acc = acc * 10;
        i += 1;
    }
    Some(Decimal { negative: m.negative, magnitude: acc, scale: 0 })
}

/// Reads a number that may carry an exponent.
pub fn decode_number(s: &Vec<char>) -> (r: Option<Decimal>)
    ensures
        r == parse_number(s@),
{
    let mut i: usize = 0;
    while i < s.len() && s[i] != 'e' && s[i] != 'E'
        invariant
            i <= s@.len(),
            no_exp_mark(s@.take(i as int)),
        decreases s.len() - i,
    {
        assert(s@.take(i + 1) =~= s@.take(i as int).push(s@[i as int]));
        i += 1;
    }
    if i == s.len() {
        assert(s@.take(i as int) =~= s@);
        return decode_decimal(s);
    }
    proof {
        let j = exp_pos(s@);
        assert(0 <= i < s@.len() && is_exp_mark(s@[i as int]) && no_exp_mark(s@.take(i as int)));
        if j < i {
            assert(s@.take(i as int)[j] == s@[j]);
        } else if j > i {
            assert(s@.take(j)[i as int] == s@[i as int]);
        }
        assert(exp_pos(s@) == i);
    }
    let head = copy_range(s, 0, i);
    let tail = copy_range(s, i + 1, s.len());
    assert(head@ =~= s@.take(i as int));
    assert(tail@ =~= s@.skip(i + 1));
    match (decode_decimal(&head), decode_decimal(&tail)) {
        (Some(m), Some(e)) => if e.scale == 0 {
            apply_exponent(m, e.negative, e.magnitude)
        } else {
            None
        },
        _ => None,
    }
}

} // verus!
