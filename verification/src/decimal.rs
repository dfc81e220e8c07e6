//! Fixed-point decimal numbers: a mantissa and a power-of-ten scale.
//! All arithmetic is exact; results that do not fit the representation
//! are rejected rather than rounded.

use vstd::prelude::*;

use crate::digits::{all_dec_digits, dec_digits, digits_val, int_digits, parse_u128_range};

verus! {

/// Largest admissible scale (digits after the decimal point).
pub const MAX_SCALE: u32 = 28;

/// A decimal number `m / 10^s`.
#[derive(Clone, Copy, PartialEq, Eq, Structural, Debug)]
pub struct Dec {
    pub m: i128,
    pub s: u32,
}

/// Well-formed decimals keep the scale bounded and leave the extreme
/// mantissa out so that magnitudes always fit the mantissa type.
pub open spec fn dec_wf(d: Dec) -> bool {
    d.s <= MAX_SCALE && d.m != i128::MIN
}

pub open spec fn pow10(e: nat) -> nat
    decreases e,
{
    if e == 0 {
        1
    } else {
        10 * pow10((e - 1) as nat)
    }
}

/// Magnitude of an integer.
pub open spec fn iabs(m: int) -> nat {
    if m < 0 {
        (-m) as nat
    } else {
        m as nat
    }
}

pub proof fn lemma_pow10_pos(e: nat)
    ensures
        pow10(e) >= 1,
    decreases e,
{
    if e > 0 {
        lemma_pow10_pos((e - 1) as nat);
    }
}

pub proof fn lemma_pow10_mono(a: nat, b: nat)
    requires
        a <= b,
    ensures
        pow10(a) <= pow10(b),
    decreases b,
{
    if a < b {
        lemma_pow10_mono(a, (b - 1) as nat);
        lemma_pow10_pos((b - 1) as nat);
    }
}

pub proof fn lemma_pow10_adds(a: nat, b: nat)
    ensures
        pow10(a + b) == pow10(a) * pow10(b),
    decreases a,
{
    if a == 0 {
        assert(pow10(0 + b) == 1 * pow10(b));
    } else {
        lemma_pow10_adds((a - 1) as nat, b);
        assert(pow10(a + b) == 10 * pow10((a + b - 1) as nat));
        assert(pow10(a) * pow10(b) == 10 * (pow10((a - 1) as nat) * pow10(b))) by (nonlinear_arith)
            requires
                pow10(a) == 10 * pow10((a - 1) as nat),
        ;
    }
}

/// The largest power of ten a `u128` can hold.
#[verifier::rlimit(60)]
pub proof fn lemma_pow10_38_fits()
    ensures
        pow10(38) <= u128::MAX,
{
    reveal_with_fuel(pow10, 40);
}

/// Ten to the `e`, as a machine integer.
pub fn pow10_u128(e: u32) -> (r: u128)
    requires
        e <= 38,
    ensures
        r == pow10(e as nat),
{
    let mut p: u128 = 1;
    let mut i: u32 = 0;
    while i < e
        invariant
            i <= e <= 38,
            p == pow10(i as nat),
        decreases e - i,
    {
        proof {
            lemma_pow10_38_fits();
            lemma_pow10_mono((i + 1) as nat, 38);
            assert(pow10((i + 1) as nat) == 10 * pow10(i as nat));
        }
        p = p * 10;
        i = i + 1;
    }
    p
}

/// The largest power of ten an `i128` mantissa can hold at full scale.
#[verifier::rlimit(60)]
pub proof fn lemma_pow10_28_fits()
    ensures
        pow10(28) <= i128::MAX,
{
    reveal_with_fuel(pow10, 30);
}

pub fn pow10_i128(e: u32) -> (r: i128)
    requires
        e <= MAX_SCALE,
    ensures
        r == pow10(e as nat),
        r >= 1,
{
    proof {
        lemma_pow10_28_fits();
        lemma_pow10_mono(e as nat, 28);
        lemma_pow10_pos(e as nat);
    }
    pow10_u128(e) as i128
}

/// The larger of the two scales: the scale operands are aligned to.
pub open spec fn max_scale(a: Dec, b: Dec) -> u32 {
    if a.s >= b.s {
        a.s
    } else {
        b.s
    }
}

/// Mantissa of `d` rescaled to scale `t` (meaningful for `d.s <= t`).
pub open spec fn aligned_m(d: Dec, t: u32) -> int {
    d.m * pow10((t - d.s) as nat)
}

/// Whether an integer fits the mantissa range of a well-formed decimal.
pub open spec fn in_mrange(x: int) -> bool {
    i128::MIN < x <= i128::MAX
}

/// Exact sum: operands aligned to the larger scale; `None` when the
/// aligned mantissas or their sum leave the mantissa range.
pub open spec fn spec_dec_add(a: Dec, b: Dec) -> Option<Dec> {
    let t = max_scale(a, b);
    let ma = aligned_m(a, t);
    let mb = aligned_m(b, t);
    if in_mrange(ma) && in_mrange(mb) && in_mrange(ma + mb) {
        Some(Dec { m: (ma + mb) as i128, s: t })
    } else {
        None
    }
}

/// Rescales the mantissa of `d` to scale `t`; `None` on mantissa overflow.
fn rescale(d: Dec, t: u32) -> (r: Option<i128>)
    requires
        dec_wf(d),
        d.s <= t <= MAX_SCALE,
    ensures
        match r {
            Some(m) => in_mrange(aligned_m(d, t)) && m == aligned_m(d, t),
            None => !in_mrange(aligned_m(d, t)),
        },
{
    let p = pow10_i128(t - d.s);
    match d.m.checked_mul(p) {
        Some(m) => {
            if m == i128::MIN {
                None
            } else {
                Some(m)
            }
        },
        None => None,
    }
}

/// Adds two decimals exactly.
pub fn dec_add(a: Dec, b: Dec) -> (r: Option<Dec>)
    requires
        dec_wf(a),
        dec_wf(b),
    ensures
        r == spec_dec_add(a, b),
        r is Some ==> dec_wf(r->0),
{
    let t = if a.s >= b.s {
        a.s
    } else {
        b.s
    };
    let ma = match rescale(a, t) {
        Some(m) => m,
        None => {
            return None;
        },
    };
    let mb = match rescale(b, t) {
        Some(m) => m,
        None => {
            return None;
        },
    };
    match ma.checked_add(mb) {
        Some(m) => {
            if m == i128::MIN {
                None
            } else {
                Some(Dec { m, s: t })
            }
        },
        None => None,
    }
}

/// Addition of decimals is commutative.
pub proof fn lemma_dec_add_comm(a: Dec, b: Dec)
    ensures
        spec_dec_add(a, b) == spec_dec_add(b, a),
{
}

/// Exact negation; total on well-formed decimals.
pub fn dec_neg(d: Dec) -> (r: Dec)
    requires
        dec_wf(d),
    ensures
        r.m == -d.m,
        r.s == d.s,
        dec_wf(r),
{
    Dec { m: -d.m, s: d.s }
}

/// Subtracts `b` from `a` exactly: the sum of `a` and the negation of `b`.
pub fn dec_sub(a: Dec, b: Dec) -> (r: Option<Dec>)
    requires
        dec_wf(a),
        dec_wf(b),
    ensures
        r == spec_dec_add(a, Dec { m: (-b.m) as i128, s: b.s }),
        r is Some ==> dec_wf(r->0),
{
    dec_add(a, dec_neg(b))
}

/// Exact product: scales add; `None` when the product mantissa or the
/// combined scale leaves the representation.
pub open spec fn spec_dec_mul(a: Dec, b: Dec) -> Option<Dec> {
    if a.s + b.s <= MAX_SCALE && in_mrange(a.m * b.m) {
        Some(Dec { m: (a.m * b.m) as i128, s: (a.s + b.s) as u32 })
    } else {
        None
    }
}

pub fn dec_mul(a: Dec, b: Dec) -> (r: Option<Dec>)
    requires
        dec_wf(a),
        dec_wf(b),
    ensures
        r == spec_dec_mul(a, b),
        r is Some ==> dec_wf(r->0),
{
    if a.s > MAX_SCALE - b.s {
        return None;
    }
    match a.m.checked_mul(b.m) {
        Some(m) => {
            if m == i128::MIN {
                None
            } else {
                Some(Dec { m, s: a.s + b.s })
            }
        },
        None => None,
    }
}

/// Multiplication of decimals is commutative.
pub proof fn lemma_dec_mul_comm(a: Dec, b: Dec)
    ensures
        spec_dec_mul(a, b) == spec_dec_mul(b, a),
{
    assert(a.m * b.m == b.m * a.m);
}

/// Outcome of a comparison.
#[derive(Clone, Copy, PartialEq, Eq, Structural, Debug)]
pub enum Cmp {
    Lt,
    Eq,
    Gt,
}

pub open spec fn cmp_flip(c: Cmp) -> Cmp {
    match c {
        Cmp::Lt => Cmp::Gt,
        Cmp::Eq => Cmp::Eq,
        Cmp::Gt => Cmp::Lt,
    }
}

/// The exact order of two decimals: the order of `a.m * 10^b.s` and
/// `b.m * 10^a.s`.
pub open spec fn spec_dec_cmp(a: Dec, b: Dec) -> Cmp {
    let x = a.m * pow10(b.s as nat);
    let y = b.m * pow10(a.s as nat);
    if x < y {
        Cmp::Lt
    } else if x == y {
        Cmp::Eq
    } else {
        Cmp::Gt
    }
}

proof fn lemma_dec_cmp_flip(a: Dec, b: Dec)
    ensures
        spec_dec_cmp(a, b) == cmp_flip(spec_dec_cmp(b, a)),
{
}

/// Mantissa comparison decides the order once scales are equal.
proof fn lemma_cmp_cancel(x: int, y: int, p: int)
    requires
        p >= 1,
    ensures
        x < y <==> x * p < y * p,
        x == y <==> x * p == y * p,
{
    assert(x < y ==> x * p < y * p) by (nonlinear_arith)
        requires
            p >= 1,
    ;
    assert(x > y ==> x * p > y * p) by (nonlinear_arith)
        requires
            p >= 1,
    ;
}

/// Compares decimals whose scales satisfy `a.s <= b.s`.
fn dec_cmp_le_scale(a: Dec, b: Dec) -> (r: Cmp)
    requires
        dec_wf(a),
        dec_wf(b),
        a.s <= b.s,
    ensures
        r == spec_dec_cmp(a, b),
{
    let ghost q = pow10(a.s as nat) as int;
    proof {
        lemma_pow10_pos(a.s as nat);
        lemma_pow10_adds((b.s - a.s) as nat, a.s as nat);
    }
    let p = pow10_i128(b.s - a.s);
    let ghost x = a.m * pow10(b.s as nat);
    let ghost y = b.m * pow10(a.s as nat);
    proof {
        assert(a.m * (p * q) == (a.m * p) * q) by (nonlinear_arith);
        assert(x == (a.m * p) * q);
    }
    match a.m.checked_mul(p) {
        Some(ma) => {
            proof {
                lemma_cmp_cancel(ma as int, b.m as int, q);
            }
            if ma < b.m {
                Cmp::Lt
            } else if ma == b.m {
                Cmp::Eq
            } else {
                Cmp::Gt
            }
        },
        None => {
            if a.m > 0 {
                proof {
                    assert(a.m * p > 0) by (nonlinear_arith)
                        requires
                            a.m > 0 && p >= 1,
                    ;
                    assert((a.m * p) * q > b.m * q) by (nonlinear_arith)
                        requires
                            a.m * p > i128::MAX && b.m <= i128::MAX && q >= 1,
                    ;
                }
                Cmp::Gt
            } else {
                proof {
                    if a.m == 0 {
                        assert(a.m * p == 0) by (nonlinear_arith)
                            requires
                                a.m == 0,
                        ;
                    }
                    assert(a.m != 0);
                    assert(a.m * p < 0) by (nonlinear_arith)
                        requires
                            a.m < 0 && p >= 1,
                    ;
                    assert((a.m * p) * q < b.m * q) by (nonlinear_arith)
                        requires
                            a.m * p < i128::MIN && b.m >= i128::MIN && q >= 1,
                    ;
                }
                Cmp::Lt
            }
        },
    }
}

/// Compares two decimals exactly.
pub fn dec_cmp(a: Dec, b: Dec) -> (r: Cmp)
    requires
        dec_wf(a),
        dec_wf(b),
    ensures
        r == spec_dec_cmp(a, b),
{
    if a.s <= b.s {
        dec_cmp_le_scale(a, b)
    } else {
        proof {
            lemma_dec_cmp_flip(a, b);
        }
        match dec_cmp_le_scale(b, a) {
            Cmp::Lt => Cmp::Gt,
            Cmp::Eq => Cmp::Eq,
            Cmp::Gt => Cmp::Lt,
        }
    }
}

/// Magnitude of a mantissa, as a machine integer.
fn iabs_u128(m: i128) -> (r: u128)
    requires
        m != i128::MIN,
    ensures
        r == iabs(m as int),
{
    if m < 0 {
        (-m) as u128
    } else {
        m as u128
    }
}

/// Exact truncating quotient at the larger operand scale: the result
/// mantissa is `|a.m| * 10^(t - a.s + b.s) / |b.m|` with the operands'
/// combined sign, where `t` is the larger scale; `None` when the scaled
/// dividend or the quotient leaves the working range.
pub open spec fn spec_dec_div(a: Dec, b: Dec) -> Option<Dec> {
    let t = max_scale(a, b);
    let num = iabs(a.m as int) * pow10(((t - a.s) + b.s) as nat);
    if num <= u128::MAX {
        let q = num / iabs(b.m as int);
        if q <= i128::MAX {
            let neg = (a.m < 0) != (b.m < 0);
            Some(
                Dec {
                    m: if neg {
                        (-q) as i128
                    } else {
                        q as i128
                    },
                    s: t,
                },
            )
        } else {
            None
        }
    } else {
        None
    }
}

pub fn dec_div(a: Dec, b: Dec) -> (r: Option<Dec>)
    requires
        dec_wf(a),
        dec_wf(b),
        b.m != 0,
    ensures
        r == spec_dec_div(a, b),
        r is Some ==> dec_wf(r->0),
{
    let t = if a.s >= b.s {
        a.s
    } else {
        b.s
    };
    let ghost e = (((t - a.s) + b.s) as nat);
    proof {
        lemma_pow10_adds((t - a.s) as nat, b.s as nat);
        lemma_pow10_pos((t - a.s) as nat);
        lemma_pow10_pos(b.s as nat);
    }
    let mag_a = iabs_u128(a.m);
    let mag_b = iabs_u128(b.m);
    let p1 = pow10_u128(t - a.s);
    let p2 = pow10_u128(b.s);
    let m1 = match mag_a.checked_mul(p1) {
        Some(m) => m,
        None => {
            proof {
                assert((mag_a * p1) * p2 >= mag_a * p1) by (nonlinear_arith)
                    requires
                        p2 >= 1 && mag_a >= 0 && p1 >= 0,
                ;
                assert(mag_a * pow10(e) == (mag_a * p1) * p2) by (nonlinear_arith)
                    requires
                        pow10(e) == p1 * p2,
                ;
            }
            return None;
        },
    };
    let num = match m1.checked_mul(p2) {
        Some(m) => m,
        None => {
            proof {
                assert(mag_a * pow10(e) == m1 * p2) by (nonlinear_arith)
                    requires
                        pow10(e) == p1 * p2 && m1 == mag_a * p1,
                ;
            }
            return None;
        },
    };
    proof {
        assert(mag_a * pow10(e) == num) by (nonlinear_arith)
            requires
                pow10(e) == p1 * p2 && num == (mag_a * p1) * p2,
        ;
    }
    let q = num / mag_b;
    if q > i128::MAX as u128 {
        return None;
    }
    let neg = (a.m < 0) != (b.m < 0);
    if neg {
        Some(Dec { m: -(q as i128), s: t })
    } else {
        Some(Dec { m: q as i128, s: t })
    }
}

/// Exact remainder at the larger operand scale: operands are aligned,
/// the remainder magnitude is `|ma| % |mb|`, and the result takes the
/// dividend's sign; `None` when alignment overflows.
pub open spec fn spec_dec_rem(a: Dec, b: Dec) -> Option<Dec> {
    let t = max_scale(a, b);
    let ma = aligned_m(a, t);
    let mb = aligned_m(b, t);
    if in_mrange(ma) && in_mrange(mb) {
        let rm = iabs(ma) % iabs(mb);
        Some(
            Dec {
                m: if ma < 0 {
                    (-rm) as i128
                } else {
                    rm as i128
                },
                s: t,
            },
        )
    } else {
        None
    }
}

pub fn dec_rem(a: Dec, b: Dec) -> (r: Option<Dec>)
    requires
        dec_wf(a),
        dec_wf(b),
        b.m != 0,
    ensures
        r == spec_dec_rem(a, b),
        r is Some ==> dec_wf(r->0),
{
    let t = if a.s >= b.s {
        a.s
    } else {
        b.s
    };
    let ma = match rescale(a, t) {
        Some(m) => m,
        None => {
            return None;
        },
    };
    let mb = match rescale(b, t) {
        Some(m) => m,
        None => {
            return None;
        },
    };
    proof {
        lemma_pow10_pos((t - b.s) as nat);
        assert(mb != 0) by (nonlinear_arith)
            requires
                mb == b.m * pow10((t - b.s) as nat) && b.m != 0 && pow10((t - b.s) as nat) >= 1,
        ;
    }
    let mag_ma = iabs_u128(ma);
    let mag_mb = iabs_u128(mb);
    let rm = mag_ma % mag_mb;
    if ma < 0 {
        Some(Dec { m: -(rm as i128), s: t })
    } else {
        Some(Dec { m: rm as i128, s: t })
    }
}

/// A digit string left-padded with zeros to width `w`.
pub open spec fn zero_pad(s: Seq<char>, w: nat) -> Seq<char> {
    if s.len() >= w {
        s
    } else {
        Seq::new((w - s.len()) as nat, |i: int| '0') + s
    }
}

/// Canonical text of a decimal: the mantissa's digits with a point placed
/// `s` digits from the right, fraction zero-padded, no trailing-zero
/// trimming, minus sign for negatives.
pub open spec fn dec_str(d: Dec) -> Seq<char> {
    if d.s == 0 {
        int_digits(d.m as int)
    } else {
        let mag = iabs(d.m as int);
        let p = pow10(d.s as nat);
        let sign: Seq<char> = if d.m < 0 {
            seq!['-']
        } else {
            Seq::<char>::empty()
        };
        sign + dec_digits((mag / p) as nat) + seq!['.'] + zero_pad(
            dec_digits((mag % p) as nat),
            d.s as nat,
        )
    }
}

/// A number below `10^w` has at most `w` digits.
proof fn lemma_dec_digits_len(n: nat, w: nat)
    requires
        n < pow10(w),
        w >= 1,
    ensures
        dec_digits(n).len() <= w,
    decreases w,
{
    if n < 10 {
    } else {
        assert(pow10(w) == 10 * pow10((w - 1) as nat));
        assert(n / 10 < pow10((w - 1) as nat));
        lemma_pow10_pos((w - 1) as nat);
        if w == 1 {
            assert(false);
        } else {
            lemma_dec_digits_len(n / 10, (w - 1) as nat);
        }
    }
}

/// Formats a decimal as its canonical text.
pub fn dec_to_string(d: Dec) -> (r: String)
    requires
        dec_wf(d),
    ensures
        r@ == dec_str(d),
{
    if d.s == 0 {
        return crate::digits::i128_to_string(d.m);
    }
    proof {
        reveal_strlit("-");
        reveal_strlit(".");
        reveal_strlit("0");
    }
    let mag = iabs_u128(d.m);
    let p = pow10_u128(d.s);
    proof {
        lemma_pow10_pos(d.s as nat);
    }
    let ip = mag / p;
    let fp = mag % p;
    let fs = crate::digits::u128_to_string(fp);
    let k = fs.unicode_len();
    let mut out = String::new();
    if d.m < 0 {
        out.append("-");
    }
    out.append(crate::digits::u128_to_string(ip).as_str());
    out.append(".");
    let mut i: usize = 0;
    let padn: usize = if k >= d.s as usize {
        0
    } else {
        d.s as usize - k
    };
    let ghost before = out@;
    while i < padn
        invariant
            i <= padn,
            out@ == before + Seq::new(i as nat, |j: int| '0'),
        decreases padn - i,
    {
        out.append("0");
        proof {
            reveal_strlit("0");
            assert("0"@ =~= seq!['0']);
            assert(before + Seq::new((i + 1) as nat, |j: int| '0') =~= (before + Seq::new(
                i as nat,
                |j: int| '0',
            )) + seq!['0']);
        }
        i = i + 1;
    }
    out.append(fs.as_str());
    proof {
        lemma_dec_digits_len(fp as nat, d.s as nat);
        assert(out@ =~= dec_str(d));
    }
    out
}

/// Position of the first `.` in a character sequence, or its length.
pub open spec fn first_dot(s: Seq<char>) -> int
    decreases s.len(),
{
    if s.len() == 0 {
        0
    } else if s[0] == '.' {
        0
    } else {
        1 + first_dot(s.skip(1))
    }
}

proof fn lemma_first_dot(s: Seq<char>)
    ensures
        0 <= first_dot(s) <= s.len(),
        first_dot(s) < s.len() ==> s[first_dot(s)] == '.',
        forall|j: int| 0 <= j < first_dot(s) ==> s[j] != '.',
    decreases s.len(),
{
    if s.len() > 0 && s[0] != '.' {
        lemma_first_dot(s.skip(1));
        assert(forall|j: int| 0 <= j < first_dot(s) ==> s[j] != '.') by {
            assert(forall|j: int|
                1 <= j < first_dot(s) ==> #[trigger] s[j] == s.skip(1)[j - 1] && s.skip(1)[j - 1]
                    != '.');
        }
    }
}

/// The parse of a decimal literal: an optional minus sign, a nonempty
/// integer digit string, and optionally a point followed by a nonempty
/// fraction of at most `MAX_SCALE` digits; the magnitude must fit the
/// mantissa.
pub open spec fn spec_parse_dec(s: Seq<char>) -> Option<Dec> {
    let neg = s.len() > 0 && s[0] == '-';
    let b = if neg {
        s.skip(1)
    } else {
        s
    };
    let dot = first_dot(b);
    if dot == b.len() {
        if b.len() > 0 && all_dec_digits(b) && digits_val(b) <= i128::MAX {
            Some(
                Dec {
                    m: if neg {
                        (-digits_val(b)) as i128
                    } else {
                        digits_val(b) as i128
                    },
                    s: 0,
                },
            )
        } else {
            None
        }
    } else {
        let ip = b.take(dot);
        let fp = b.skip(dot + 1);
        let mag = digits_val(ip) * pow10(fp.len()) + digits_val(fp);
        if ip.len() > 0 && fp.len() > 0 && all_dec_digits(ip) && all_dec_digits(fp) && fp.len()
            <= MAX_SCALE && mag <= i128::MAX {
            Some(
                Dec {
                    m: if neg {
                        (-mag) as i128
                    } else {
                        mag as i128
                    },
                    s: fp.len() as u32,
                },
            )
        } else {
            None
        }
    }
}

/// Finds the first `.` at or after `from`; returns the string length when
/// there is none.
fn find_dot(s: &str, from: usize) -> (r: usize)
    requires
        from <= s@.len(),
    ensures
        from <= r <= s@.len(),
        r < s@.len() ==> s@[r as int] == '.',
        forall|j: int| from <= j < r ==> s@[j] != '.',
{
    let n = s.unicode_len();
    let mut i = from;
    while i < n
        invariant
            from <= i <= n == s@.len(),
            forall|j: int| from <= j < i ==> s@[j] != '.',
        decreases n - i,
    {
        if s.get_char(i) == '.' {
            return i;
        }
        i = i + 1;
    }
    n
}

/// Finds the first `.` at or after `from`, as the position that
/// `first_dot` gives for the remaining characters.
pub fn find_first_dot(s: &str, from: usize) -> (r: usize)
    requires
        from <= s@.len(),
    ensures
        r == from + first_dot(s@.skip(from as int)),
        from <= r <= s@.len(),
{
    let d = find_dot(s, from);
    proof {
        let b = s@.skip(from as int);
        lemma_first_dot(b);
        let fd = first_dot(b);
        if fd < d - from {
            assert(b[fd] == s@[fd + from]);
            assert(false);
        } else if d - from < fd {
            assert(b[d - from] == s@[d as int]);
            assert(false);
        }
    }
    d
}

/// Parses a decimal literal.  Succeeds exactly when `spec_parse_dec` does.
pub fn parse_dec(s: &str) -> (r: Option<Dec>)
    ensures
        r == spec_parse_dec(s@),
        r is Some ==> dec_wf(r->0),
{
    let n = s.unicode_len();
    let neg = n > 0 && s.get_char(0) == '-';
    let start: usize = if neg {
        1
    } else {
        0
    };
    let ghost b = if neg {
        s@.skip(1)
    } else {
        s@
    };
    let dot = find_dot(s, start);
    proof {
        lemma_first_dot(b);
        // the found position and the specified position coincide
        let fd = first_dot(b);
        if fd < dot - start {
            assert(b[fd] == '.');
            assert(b[fd] == s@[fd + start]);
            assert(s@[fd + start] != '.');
            assert(false);
        } else if dot - start < fd {
            assert(dot < n);
            assert(b[dot - start] == s@[dot as int]);
            assert(b[dot - start] != '.');
            assert(false);
        }
        assert(first_dot(b) == dot - start);
    }
    if dot == n {
        // integer form
        proof {
            assert(s@.subrange(start as int, n as int) =~= b);
        }
        match crate::digits::parse_u128_range(s, start, n) {
            Some(mag) => {
                if mag > i128::MAX as u128 {
                    None
                } else if neg {
                    Some(Dec { m: -(mag as i128), s: 0 })
                } else {
                    Some(Dec { m: mag as i128, s: 0 })
                }
            },
            None => None,
        }
    } else {
        let ghost ip = b.take(dot - start);
        let ghost fp = b.skip(dot - start + 1);
        proof {
            assert(s@.subrange(start as int, dot as int) =~= ip);
            assert(s@.subrange(dot + 1, n as int) =~= fp);
        }
        let iv = match crate::digits::parse_u128_range(s, start, dot) {
            Some(v) => v,
            None => {
                proof {
                    if digits_val(ip) > u128::MAX {
                        crate::decimal::lemma_mag_dominates(digits_val(ip), digits_val(fp), fp.len());
                    }
                }
                return None;
            },
        };
        let flen = n - dot - 1;
        if flen > MAX_SCALE as usize {
            return None;
        }
        let fv = match crate::digits::parse_u128_range(s, dot + 1, n) {
            Some(v) => v,
            None => {
                proof {
                    if digits_val(fp) > u128::MAX {
                        lemma_pow10_pos(fp.len());
                        assert(digits_val(ip) * pow10(fp.len()) >= 0) by (nonlinear_arith)
                            requires
                                digits_val(ip) >= 0 && pow10(fp.len()) >= 0,
                        ;
                    }
                }
                return None;
            },
        };
        let p = pow10_u128(flen as u32);
        let hi = match iv.checked_mul(p) {
            Some(v) => v,
            None => {
                proof {
                    assert(digits_val(ip) * pow10(fp.len()) + digits_val(fp) > i128::MAX);
                }
                return None;
            },
        };
        let mag = match hi.checked_add(fv) {
            Some(v) => v,
            None => {
                return None;
            },
        };
        if mag > i128::MAX as u128 {
            return None;
        }
        if neg {
            Some(Dec { m: -(mag as i128), s: flen as u32 })
        } else {
            Some(Dec { m: mag as i128, s: flen as u32 })
        }
    }
}

/// If the integer part alone already exceeds the range, so does the whole
/// magnitude.
proof fn lemma_mag_dominates(iv: nat, fv: nat, e: nat)
    requires
        iv > u128::MAX,
    ensures
        iv * pow10(e) + fv > i128::MAX,
{
    lemma_pow10_pos(e);
    assert(iv * pow10(e) >= iv) by (nonlinear_arith)
        requires
            pow10(e) >= 1 && iv >= 0,
    ;
}

} // verus!
