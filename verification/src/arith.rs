//! Arithmetic over values: exact, with explicit promotion, null
//! propagation and typed failures.

use vstd::prelude::*;

use crate::decimal::{dec_wf, iabs, spec_dec_add, spec_dec_div, spec_dec_mul, spec_dec_rem, Dec};
use crate::error::{Error, ValueError};
use crate::value::{value_wf, Value, ValueV};

verus! {

/// The arithmetic operators.
#[derive(Clone, Copy, PartialEq, Eq, Structural, Debug)]
pub enum ArithOp {
    Add,
    Sub,
    Mul,
    Div,
    Rem,
}

/// What an arithmetic step owes: a value, or one of the named failures.
pub enum ArithOutcome {
    Val(ValueV),
    TypeMismatch,
    Overflow,
    DivByZero,
}

/// The integer kind of a value: signedness, width index and content.
pub open spec fn int_kind(v: ValueV) -> Option<(bool, int, int)> {
    match v {
        ValueV::I8(x) => Some((true, 0int, x as int)),
        ValueV::I16(x) => Some((true, 1int, x as int)),
        ValueV::I32(x) => Some((true, 2int, x as int)),
        ValueV::I64(x) => Some((true, 3int, x as int)),
        ValueV::I128(x) => Some((true, 4int, x as int)),
        ValueV::U8(x) => Some((false, 0int, x as int)),
        ValueV::U16(x) => Some((false, 1int, x as int)),
        ValueV::U32(x) => Some((false, 2int, x as int)),
        ValueV::U64(x) => Some((false, 3int, x as int)),
        ValueV::U128(x) => Some((false, 4int, x as int)),
        _ => None,
    }
}

/// The bounds of an integer kind.
pub open spec fn kind_lo(signed: bool, rank: int) -> int {
    if !signed {
        0
    } else if rank == 0 {
        i8::MIN as int
    } else if rank == 1 {
        i16::MIN as int
    } else if rank == 2 {
        i32::MIN as int
    } else if rank == 3 {
        i64::MIN as int
    } else {
        i128::MIN as int
    }
}

pub open spec fn kind_hi(signed: bool, rank: int) -> int {
    if signed {
        if rank == 0 {
            i8::MAX as int
        } else if rank == 1 {
            i16::MAX as int
        } else if rank == 2 {
            i32::MAX as int
        } else if rank == 3 {
            i64::MAX as int
        } else {
            i128::MAX as int
        }
    } else {
        if rank == 0 {
            u8::MAX as int
        } else if rank == 1 {
            u16::MAX as int
        } else if rank == 2 {
            u32::MAX as int
        } else if rank == 3 {
            u64::MAX as int
        } else {
            u128::MAX as int
        }
    }
}

/// The integer value of the given kind, where it fits.
pub open spec fn make_int(signed: bool, rank: int, x: int) -> Option<ValueV> {
    if kind_lo(signed, rank) <= x <= kind_hi(signed, rank) {
        Some(
            if signed {
                if rank == 0 {
                    ValueV::I8(x as i8)
                } else if rank == 1 {
                    ValueV::I16(x as i16)
                } else if rank == 2 {
                    ValueV::I32(x as i32)
                } else if rank == 3 {
                    ValueV::I64(x as i64)
                } else {
                    ValueV::I128(x as i128)
                }
            } else {
                if rank == 0 {
                    ValueV::U8(x as u8)
                } else if rank == 1 {
                    ValueV::U16(x as u16)
                } else if rank == 2 {
                    ValueV::U32(x as u32)
                } else if rank == 3 {
                    ValueV::U64(x as u64)
                } else {
                    ValueV::U128(x as u128)
                }
            },
        )
    } else {
        None
    }
}

/// The promotion rule: same signedness takes the wider width; mixed
/// signedness takes the signed operand's kind.
pub open spec fn promote(sa: bool, ra: int, sb: bool, rb: int) -> (bool, int) {
    if sa == sb {
        (sa, if ra >= rb {
            ra
        } else {
            rb
        })
    } else if sa {
        (true, ra)
    } else {
        (true, rb)
    }
}

/// Truncating integer quotient: the quotient of the magnitudes, with the
/// operands' combined sign.
pub open spec fn tdiv(x: int, y: int) -> int {
    if (x < 0) != (y < 0) {
        -((iabs(x) / iabs(y)) as int)
    } else {
        (iabs(x) / iabs(y)) as int
    }
}

/// Truncating remainder: the remainder of the magnitudes, with the
/// dividend's sign.
pub open spec fn trem(x: int, y: int) -> int {
    if x < 0 {
        -((iabs(x) % iabs(y)) as int)
    } else {
        (iabs(x) % iabs(y)) as int
    }
}

/// The decimal content of a numeric value, where the mantissa holds it.
pub open spec fn dec_of(v: ValueV) -> Option<Dec> {
    match v {
        ValueV::Decimal(d) => Some(d),
        _ => match int_kind(v) {
            Some((s, r, x)) => if i128::MIN < x <= i128::MAX {
                Some(Dec { m: x as i128, s: 0 })
            } else {
                None
            },
            None => None,
        },
    }
}

/// Exact arithmetic with explicit promotion: `Null` propagates; two
/// integers compute exactly in the promoted kind, out-of-kind results
/// overflow; decimals (alone or mixed with an integer) compute exactly as
/// decimals; everything else is a type mismatch.  Division and remainder
/// by zero fail on their own account.
pub open spec fn spec_arith(op: ArithOp, a: ValueV, b: ValueV) -> ArithOutcome {
    if a is Null || b is Null {
        ArithOutcome::Val(ValueV::Null)
    } else if int_kind(a) is Some && int_kind(b) is Some {
        let (sa, ra, xa) = int_kind(a)->0;
        let (sb, rb, xb) = int_kind(b)->0;
        let (st, rt) = promote(sa, ra, sb, rb);
        if (op == ArithOp::Div || op == ArithOp::Rem) && xb == 0 {
            ArithOutcome::DivByZero
        } else {
            let val = match op {
                ArithOp::Add => xa + xb,
                ArithOp::Sub => xa - xb,
                ArithOp::Mul => xa * xb,
                ArithOp::Div => tdiv(xa, xb),
                ArithOp::Rem => trem(xa, xb),
            };
            match make_int(st, rt, val) {
                Some(v) => ArithOutcome::Val(v),
                None => ArithOutcome::Overflow,
            }
        }
    } else if (a is Decimal || b is Decimal) && dec_of(a) is Some && dec_of(b) is Some {
        let da = dec_of(a)->0;
        let db = dec_of(b)->0;
        if (op == ArithOp::Div || op == ArithOp::Rem) && db.m == 0 {
            ArithOutcome::DivByZero
        } else {
            let res = match op {
                ArithOp::Add => spec_dec_add(da, db),
                ArithOp::Sub => spec_dec_add(da, Dec { m: (-db.m) as i128, s: db.s }),
                ArithOp::Mul => spec_dec_mul(da, db),
                ArithOp::Div => spec_dec_div(da, db),
                ArithOp::Rem => spec_dec_rem(da, db),
            };
            match res {
                Some(d) => ArithOutcome::Val(ValueV::Decimal(d)),
                None => ArithOutcome::Overflow,
            }
        }
    } else if (a is Decimal && int_kind(b) is Some) || (b is Decimal && int_kind(a) is Some) {
        // a decimal mixed with an integer beyond the mantissa
        ArithOutcome::Overflow
    } else {
        ArithOutcome::TypeMismatch
    }
}

/// Whether an outcome and a result agree.
pub open spec fn arith_matches(c: ArithOutcome, r: Result<Value, Error>) -> bool {
    match c {
        ArithOutcome::Val(v) => r is Ok && r->Ok_0@ == v && value_wf(v),
        ArithOutcome::TypeMismatch => r matches Err(Error::Value(ValueError::TypeMismatch(m)))
            && m@ == Seq::<char>::empty(),
        ArithOutcome::Overflow => r matches Err(Error::Value(ValueError::Overflow(m))) && m@
            == Seq::<char>::empty(),
        ArithOutcome::DivByZero => r matches Err(Error::Value(ValueError::DivisorShouldNotBeZero)),
    }
}

/// An integer value as signedness, width index, sign and magnitude.
pub(crate) struct IntSm {
    pub signed: bool,
    pub rank: u8,
    pub neg: bool,
    pub mag: u128,
}

pub(crate) open spec fn sm_val(s: IntSm) -> int {
    if s.neg {
        -(s.mag as int)
    } else {
        s.mag as int
    }
}

pub(crate) fn int_sm(v: &Value) -> (r: Option<IntSm>)
    ensures
        match r {
            Some(s) => {
                &&& int_kind(v@) == Some((s.signed, s.rank as int, sm_val(s)))
                &&& s.rank <= 4
                &&& (s.neg ==> s.mag > 0)
            },
            None => int_kind(v@) is None,
        },
{
    match v {
        Value::I8(x) => Some(sm_of_i128(*x as i128, true, 0)),
        Value::I16(x) => Some(sm_of_i128(*x as i128, true, 1)),
        Value::I32(x) => Some(sm_of_i128(*x as i128, true, 2)),
        Value::I64(x) => Some(sm_of_i128(*x as i128, true, 3)),
        Value::I128(x) => Some(sm_of_i128(*x, true, 4)),
        Value::U8(x) => Some(IntSm { signed: false, rank: 0, neg: false, mag: *x as u128 }),
        Value::U16(x) => Some(IntSm { signed: false, rank: 1, neg: false, mag: *x as u128 }),
        Value::U32(x) => Some(IntSm { signed: false, rank: 2, neg: false, mag: *x as u128 }),
        Value::U64(x) => Some(IntSm { signed: false, rank: 3, neg: false, mag: *x as u128 }),
        Value::U128(x) => Some(IntSm { signed: false, rank: 4, neg: false, mag: *x }),
        _ => None,
    }
}

fn sm_of_i128(x: i128, signed: bool, rank: u8) -> (r: IntSm)
    ensures
        r.signed == signed,
        r.rank == rank,
        sm_val(r) == x as int,
        r.neg ==> r.mag > 0,
{
    if x < 0 {
        if x == i128::MIN {
            IntSm { signed, rank, neg: true, mag: 0x80000000000000000000000000000000u128 }
        } else {
            IntSm { signed, rank, neg: true, mag: (-x) as u128 }
        }
    } else {
        IntSm { signed, rank, neg: false, mag: x as u128 }
    }
}

/// Builds the integer value of the promoted kind, or reports the exact
/// value out of range.
pub(crate) fn make_int_exec(signed: bool, rank: u8, neg: bool, mag: u128) -> (r: Result<Value, Error>)
    requires
        rank <= 4,
    ensures
        match make_int(signed, rank as int, if neg { -(mag as int) } else { mag as int }) {
            Some(v) => r is Ok && r->Ok_0@ == v && value_wf(v),
            None => r matches Err(Error::Value(ValueError::Overflow(m))) && m@ == Seq::<
                char,
            >::empty(),
        },
{
    let overflow: Result<Value, Error> = Err(
        Error::Value(ValueError::Overflow(String::new())),
    );
    if signed {
        let lo_mag: u128 = match rank {
            0 => 128,
            1 => 32768,
            2 => 2147483648,
            3 => 9223372036854775808,
            _ => 0x80000000000000000000000000000000u128,
        };
        if neg {
            if mag > lo_mag {
                return overflow;
            }
        } else {
            if mag > lo_mag - 1 {
                return overflow;
            }
        }
        if neg && mag == 0x80000000000000000000000000000000u128 {
            // only reachable at the widest width
            return Ok(Value::I128(i128::MIN));
        }
        let x: i128 = if neg {
            -(mag as i128)
        } else {
            mag as i128
        };
        Ok(
            match rank {
                0 => Value::I8(x as i8),
                1 => Value::I16(x as i16),
                2 => Value::I32(x as i32),
                3 => Value::I64(x as i64),
                _ => Value::I128(x),
            },
        )
    } else {
        if neg && mag > 0 {
            return overflow;
        }
        let hi: u128 = match rank {
            0 => 255,
            1 => 65535,
            2 => 4294967295,
            3 => 18446744073709551615,
            _ => u128::MAX,
        };
        if mag > hi {
            return overflow;
        }
        Ok(
            match rank {
                0 => Value::U8(mag as u8),
                1 => Value::U16(mag as u16),
                2 => Value::U32(mag as u32),
                3 => Value::U64(mag as u64),
                _ => Value::U128(mag),
            },
        )
    }
}

/// Computes one arithmetic operator on two values.
#[verifier::rlimit(100)]
pub fn value_arith(op: ArithOp, a: &Value, b: &Value) -> (r: Result<Value, Error>)
    requires
        value_wf(a@),
        value_wf(b@),
    ensures
        arith_matches(spec_arith(op, a@, b@), r),
{
    match (a, b) {
        (Value::Null, _) => {
            return Ok(Value::Null);
        },
        (_, Value::Null) => {
            return Ok(Value::Null);
        },
        _ => {},
    }
    let sa = int_sm(a);
    let sb = int_sm(b);
    match (sa, sb) {
        (Some(x), Some(y)) => {
            let signed = if x.signed == y.signed {
                x.signed
            } else {
                true
            };
            let rank = if x.signed == y.signed {
                if x.rank >= y.rank {
                    x.rank
                } else {
                    y.rank
                }
            } else if x.signed {
                x.rank
            } else {
                y.rank
            };
            if (matches!(op, ArithOp::Div) || matches!(op, ArithOp::Rem)) && y.mag == 0 {
                return Err(Error::Value(ValueError::DivisorShouldNotBeZero));
            }
            match op {
                ArithOp::Add => sm_add(signed, rank, x.neg, x.mag, y.neg, y.mag),
                ArithOp::Sub => sm_add(signed, rank, x.neg, x.mag, !y.neg && y.mag > 0, y.mag),
                ArithOp::Mul => match x.mag.checked_mul(y.mag) {
                    Some(m) => {
                        proof {
                            lemma_sm_mul(sm_val(x), sm_val(y), x.neg, x.mag as int, y.neg, y.mag as int);
                        }
                        make_int_exec(signed, rank, x.neg != y.neg && m > 0, m)
                    },
                    None => {
                        proof {
                            lemma_sm_mul_big(sm_val(x), sm_val(y), x.neg, x.mag as int, y.neg, y.mag as int);
                        }
                        Err(Error::Value(ValueError::Overflow(String::new())))
                    },
                },
                ArithOp::Div => {
                    let q = x.mag / y.mag;
                    make_int_exec(signed, rank, (x.neg != y.neg) && q > 0, q)
                },
                ArithOp::Rem => {
                    let m = x.mag % y.mag;
                    make_int_exec(signed, rank, x.neg && m > 0, m)
                },
            }
        },
        _ => {
            let da = match to_dec(a) {
                DecOf::D(d) => d,
                DecOf::NotNum => {
                    return Err(Error::Value(ValueError::TypeMismatch(String::new())));
                },
                DecOf::TooBig => {
                    if matches!(b, Value::Decimal(_)) {
                        return Err(Error::Value(ValueError::Overflow(String::new())));
                    }
                    return Err(Error::Value(ValueError::TypeMismatch(String::new())));
                },
            };
            let db = match to_dec(b) {
                DecOf::D(d) => d,
                DecOf::NotNum => {
                    return Err(Error::Value(ValueError::TypeMismatch(String::new())));
                },
                DecOf::TooBig => {
                    if matches!(a, Value::Decimal(_)) {
                        return Err(Error::Value(ValueError::Overflow(String::new())));
                    }
                    return Err(Error::Value(ValueError::TypeMismatch(String::new())));
                },
            };
            if (matches!(op, ArithOp::Div) || matches!(op, ArithOp::Rem)) && db.m == 0 {
                return Err(Error::Value(ValueError::DivisorShouldNotBeZero));
            }
            let res = match op {
                ArithOp::Add => crate::decimal::dec_add(da, db),
                ArithOp::Sub => crate::decimal::dec_sub(da, db),
                ArithOp::Mul => crate::decimal::dec_mul(da, db),
                ArithOp::Div => crate::decimal::dec_div(da, db),
                ArithOp::Rem => crate::decimal::dec_rem(da, db),
            };
            match res {
                Some(d) => Ok(Value::Decimal(d)),
                None => Err(Error::Value(ValueError::Overflow(String::new()))),
            }
        },
    }
}

/// The decimal reading of one value, for the mixed path.
enum DecOf {
    D(Dec),
    TooBig,
    NotNum,
}

fn to_dec(v: &Value) -> (r: DecOf)
    requires
        value_wf(v@),
    ensures
        match r {
            DecOf::D(d) => dec_of(v@) == Some(d) && dec_wf(d),
            DecOf::TooBig => dec_of(v@) is None && (int_kind(v@) is Some || v@ is Decimal),
            DecOf::NotNum => int_kind(v@) is None && !(v@ is Decimal),
        },
{
    match v {
        Value::Decimal(d) => DecOf::D(*d),
        _ => {
            match int_sm(v) {
                Some(s) => {
                    if s.neg {
                        if s.mag >= 0x80000000000000000000000000000000u128 {
                            DecOf::TooBig
                        } else {
                            DecOf::D(Dec { m: -(s.mag as i128), s: 0 })
                        }
                    } else {
                        if s.mag > i128::MAX as u128 {
                            DecOf::TooBig
                        } else {
                            DecOf::D(Dec { m: s.mag as i128, s: 0 })
                        }
                    }
                },
                None => DecOf::NotNum,
            }
        },
    }
}

/// Adds two sign-magnitude integers and lands the sum in the promoted
/// kind.
fn sm_add(signed: bool, rank: u8, na: bool, ma: u128, nb: bool, mb: u128) -> (r: Result<
    Value,
    Error,
>)
    requires
        rank <= 4,
    ensures
        match make_int(
            signed,
            rank as int,
            (if na { -(ma as int) } else { ma as int }) + (if nb { -(mb as int) } else { mb as int }),
        ) {
            Some(v) => r is Ok && r->Ok_0@ == v && value_wf(v),
            None => r matches Err(Error::Value(ValueError::Overflow(m))) && m@ == Seq::<
                char,
            >::empty(),
        },
{
    if na == nb {
        match ma.checked_add(mb) {
            Some(m) => make_int_exec(signed, rank, na && m > 0, m),
            None => {
                proof {
                    lemma_kind_range(signed, rank as int);
                }
                Err(Error::Value(ValueError::Overflow(String::new())))
            },
        }
    } else {
        if ma >= mb {
            make_int_exec(signed, rank, na && ma - mb > 0, ma - mb)
        } else {
            make_int_exec(signed, rank, nb && mb - ma > 0, mb - ma)
        }
    }
}

/// Every integer kind lies within the 128-bit two's-complement span.
pub proof fn lemma_kind_range(signed: bool, rank: int)
    ensures
        kind_hi(signed, rank) <= u128::MAX,
        kind_lo(signed, rank) >= i128::MIN,
{
}

/// The product of sign-magnitude integers, within range.
proof fn lemma_sm_mul(x: int, y: int, nx: bool, mx: int, ny: bool, my: int)
    requires
        x == if nx { -mx } else { mx },
        y == if ny { -my } else { my },
        mx >= 0,
        my >= 0,
    ensures
        x * y == if (nx != ny) { -(mx * my) } else { mx * my },
        mx * my >= 0,
        (nx != ny) && mx * my > 0 ==> x * y < 0,
{
    assert(x * y == if (nx != ny) { -(mx * my) } else { mx * my }) by (nonlinear_arith)
        requires
            x == if nx { -mx } else { mx } && y == if ny { -my } else { my },
    ;
    assert(mx * my >= 0) by (nonlinear_arith)
        requires
            mx >= 0 && my >= 0,
    ;
}

/// An overflowing magnitude product leaves every integer kind's range.
proof fn lemma_sm_mul_big(x: int, y: int, nx: bool, mx: int, ny: bool, my: int)
    requires
        x == if nx { -mx } else { mx },
        y == if ny { -my } else { my },
        mx >= 0,
        my >= 0,
        mx * my > u128::MAX,
    ensures
        x * y > u128::MAX || x * y < i128::MIN,
{
    lemma_sm_mul(x, y, nx, mx, ny, my);
}

/// Addition of values is commutative: the promotion rule, the exact sum
/// and every failure case are symmetric in the operands.
pub proof fn lemma_arith_add_commutative(a: ValueV, b: ValueV)
    ensures
        spec_arith(ArithOp::Add, a, b) == spec_arith(ArithOp::Add, b, a),
{
    if !(a is Null) && !(b is Null) && int_kind(a) is None && int_kind(b) is None && (a is Decimal
        || b is Decimal) && dec_of(a) is Some && dec_of(b) is Some {
        crate::decimal::lemma_dec_add_comm(dec_of(a)->0, dec_of(b)->0);
    }
}

/// Multiplication of values is commutative in the same way.
pub proof fn lemma_arith_mul_commutative(a: ValueV, b: ValueV)
    ensures
        spec_arith(ArithOp::Mul, a, b) == spec_arith(ArithOp::Mul, b, a),
{
    if int_kind(a) is Some && int_kind(b) is Some {
        let (sa, ra, xa) = int_kind(a)->0;
        let (sb, rb, xb) = int_kind(b)->0;
        assert(xa * xb == xb * xa);
    } else if !(a is Null) && !(b is Null) && (a is Decimal || b is Decimal) && dec_of(a) is Some
        && dec_of(b) is Some {
        crate::decimal::lemma_dec_mul_comm(dec_of(a)->0, dec_of(b)->0);
    }
}

} // verus!