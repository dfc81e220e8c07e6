//! The scalar value model: one typed cell.

use vstd::prelude::*;

use crate::calendar::{Date, Inet, Interval, Time, Timestamp};
use crate::decimal::{pow10, spec_dec_cmp, Cmp, Dec};

verus! {

/// One scalar cell's typed content.  `Null` is a value of its own, not
/// absence: every operation defines its behaviour on `Null` explicitly.
#[derive(Debug)]
pub enum Value {
    Bool(bool),
    I8(i8),
    I16(i16),
    I32(i32),
    I64(i64),
    I128(i128),
    U8(u8),
    U16(u16),
    U32(u32),
    U64(u64),
    U128(u128),
    Decimal(Dec),
    Str(String),
    Bytea(Vec<u8>),
    Inet(Inet),
    Date(Date),
    Timestamp(Timestamp),
    Time(Time),
    Interval(Interval),
    Uuid(u128),
    Dict(Vec<(String, Value)>),
    List(Vec<Value>),
    Null,
}

/// The mathematical shape of a `Value`: text as character sequences,
/// vectors as sequences.
pub enum ValueV {
    Bool(bool),
    I8(i8),
    I16(i16),
    I32(i32),
    I64(i64),
    I128(i128),
    U8(u8),
    U16(u16),
    U32(u32),
    U64(u64),
    U128(u128),
    Decimal(Dec),
    Str(Seq<char>),
    Bytea(Seq<u8>),
    Inet(Inet),
    Date(Date),
    Timestamp(Timestamp),
    Time(Time),
    Interval(Interval),
    Uuid(u128),
    Dict(Seq<(Seq<char>, ValueV)>),
    List(Seq<ValueV>),
    Null,
}

pub open spec fn vview(v: Value) -> ValueV
    decreases v,
{
    match v {
        Value::Bool(b) => ValueV::Bool(b),
        Value::I8(x) => ValueV::I8(x),
        Value::I16(x) => ValueV::I16(x),
        Value::I32(x) => ValueV::I32(x),
        Value::I64(x) => ValueV::I64(x),
        Value::I128(x) => ValueV::I128(x),
        Value::U8(x) => ValueV::U8(x),
        Value::U16(x) => ValueV::U16(x),
        Value::U32(x) => ValueV::U32(x),
        Value::U64(x) => ValueV::U64(x),
        Value::U128(x) => ValueV::U128(x),
        Value::Decimal(d) => ValueV::Decimal(d),
        Value::Str(s) => ValueV::Str(s@),
        Value::Bytea(b) => ValueV::Bytea(b@),
        Value::Inet(a) => ValueV::Inet(a),
        Value::Date(d) => ValueV::Date(d),
        Value::Timestamp(t) => ValueV::Timestamp(t),
        Value::Time(t) => ValueV::Time(t),
        Value::Interval(iv) => ValueV::Interval(iv),
        Value::Uuid(u) => ValueV::Uuid(u),
        Value::Dict(m) => ValueV::Dict(
            Seq::new(
                m@.len(),
                |i: int|
                    if 0 <= i < v->Dict_0@.len() {
                        (v->Dict_0@[i].0@, vview(v->Dict_0@[i].1))
                    } else {
                        (Seq::<char>::empty(), ValueV::Null)
                    },
            ),
        ),
        Value::List(l) => ValueV::List(
            Seq::new(
                l@.len(),
                |i: int|
                    if 0 <= i < v->List_0@.len() {
                        vview(v->List_0@[i])
                    } else {
                        ValueV::Null
                    },
            ),
        ),
        Value::Null => ValueV::Null,
    }
}

impl View for Value {
    type V = ValueV;

    open spec fn view(&self) -> ValueV {
        vview(*self)
    }
}

/// Copies a value; the copy has the same mathematical shape.
pub fn value_clone(v: &Value) -> (r: Value)
    ensures
        r@ == v@,
    decreases *v,
{
    match v {
        Value::Bool(b) => Value::Bool(*b),
        Value::I8(x) => Value::I8(*x),
        Value::I16(x) => Value::I16(*x),
        Value::I32(x) => Value::I32(*x),
        Value::I64(x) => Value::I64(*x),
        Value::I128(x) => Value::I128(*x),
        Value::U8(x) => Value::U8(*x),
        Value::U16(x) => Value::U16(*x),
        Value::U32(x) => Value::U32(*x),
        Value::U64(x) => Value::U64(*x),
        Value::U128(x) => Value::U128(*x),
        Value::Decimal(d) => Value::Decimal(*d),
        Value::Inet(a) => Value::Inet(*a),
        Value::Date(d) => Value::Date(*d),
        Value::Timestamp(t) => Value::Timestamp(*t),
        Value::Time(t) => Value::Time(*t),
        Value::Interval(iv) => Value::Interval(*iv),
        Value::Uuid(u) => Value::Uuid(*u),
        Value::Str(s) => Value::Str(s.clone()),
        Value::Bytea(b) => {
            let mut c: Vec<u8> = Vec::new();
            let mut i: usize = 0;
            while i < b.len()
                invariant
                    i <= b@.len(),
                    c@ == b@.take(i as int),
                decreases b@.len() - i,
            {
                c.push(b[i]);
                proof {
                    assert(c@ =~= b@.take(i + 1));
                }
                i = i + 1;
            }
            proof {
                assert(b@.take(b@.len() as int) =~= b@);
            }
            Value::Bytea(c)
        },
        Value::Dict(m) => {
            let mut c: Vec<(String, Value)> = Vec::new();
            let mut i: usize = 0;
            while i < m.len()
                invariant
                    i <= m@.len(),
                    c@.len() == i,
                    forall|j: int|
                        0 <= j < i ==> #[trigger] c@[j].0@ == m@[j].0@ && c@[j].1@ == m@[j].1@,
                    *v == Value::Dict(*m),
                decreases m@.len() - i,
            {
                proof {
                    assert(decreases_to!(*v => (*v)->Dict_0@[i as int].1));
                }
                let key = m[i].0.clone();
                let val = value_clone(&m[i].1);
                c.push((key, val));
                i = i + 1;
            }
            let r = Value::Dict(c);
            proof {
                assert(vview(r)->Dict_0 =~= vview(*v)->Dict_0);
            }
            r
        },
        Value::List(l) => {
            let mut c: Vec<Value> = Vec::new();
            let mut i: usize = 0;
            while i < l.len()
                invariant
                    i <= l@.len(),
                    c@.len() == i,
                    forall|j: int| 0 <= j < i ==> #[trigger] c@[j]@ == l@[j]@,
                    *v == Value::List(*l),
                decreases l@.len() - i,
            {
                proof {
                    assert(decreases_to!(*v => (*v)->List_0@[i as int]));
                }
                let val = value_clone(&l[i]);
                c.push(val);
                i = i + 1;
            }
            let r = Value::List(c);
            proof {
                assert forall|j: int|
                    0 <= j < c@.len() implies vview(r)->List_0[j] == vview(*v)->List_0[j] by {
                    assert(c@[j]@ == l@[j]@);
                }
                assert(vview(r)->List_0 =~= vview(*v)->List_0);
            }
            r
        },
        Value::Null => Value::Null,
    }
}

/// Well-formed values: decimals, dates and times satisfy their own
/// invariants, recursively through containers.
pub open spec fn value_wf(v: ValueV) -> bool
    decreases v,
{
    match v {
        ValueV::Decimal(d) => crate::decimal::dec_wf(d),
        ValueV::Date(d) => crate::calendar::date_wf(d),
        ValueV::Timestamp(t) => crate::calendar::timestamp_wf(t),
        ValueV::Time(t) => crate::calendar::time_wf(t),
        ValueV::Dict(m) => forall|i: int|
            0 <= i < m.len() ==> value_wf(#[trigger] v->Dict_0[i].1),
        ValueV::List(l) => forall|i: int| 0 <= i < l.len() ==> value_wf(#[trigger] v->List_0[i]),
        _ => true,
    }
}

/// Lexicographic order of character sequences, by code point.
pub open spec fn str_cmp(a: Seq<char>, b: Seq<char>) -> Cmp
    decreases a.len(),
{
    if a.len() == 0 && b.len() == 0 {
        Cmp::Eq
    } else if a.len() == 0 {
        Cmp::Lt
    } else if b.len() == 0 {
        Cmp::Gt
    } else if (a[0] as u32) < (b[0] as u32) {
        Cmp::Lt
    } else if (a[0] as u32) > (b[0] as u32) {
        Cmp::Gt
    } else {
        str_cmp(a.skip(1), b.skip(1))
    }
}

/// Lexicographic order of byte sequences.
pub open spec fn bytes_cmp(a: Seq<u8>, b: Seq<u8>) -> Cmp
    decreases a.len(),
{
    if a.len() == 0 && b.len() == 0 {
        Cmp::Eq
    } else if a.len() == 0 {
        Cmp::Lt
    } else if b.len() == 0 {
        Cmp::Gt
    } else if a[0] < b[0] {
        Cmp::Lt
    } else if a[0] > b[0] {
        Cmp::Gt
    } else {
        bytes_cmp(a.skip(1), b.skip(1))
    }
}

/// Compares two strings lexicographically by code point.
pub fn str_compare(a: &str, b: &str) -> (r: Cmp)
    ensures
        r == str_cmp(a@, b@),
{
    let an = a.unicode_len();
    let bn = b.unicode_len();
    proof {
        assert(a@.skip(0) =~= a@);
        assert(b@.skip(0) =~= b@);
    }
    let mut i: usize = 0;
    while i < an && i < bn
        invariant
            i <= an == a@.len(),
            i <= bn == b@.len(),
            str_cmp(a@, b@) == str_cmp(a@.skip(i as int), b@.skip(i as int)),
        decreases an - i,
    {
        let ca = a.get_char(i) as u32;
        let cb = b.get_char(i) as u32;
        if ca < cb {
            return Cmp::Lt;
        }
        if ca > cb {
            return Cmp::Gt;
        }
        proof {
            assert(a@.skip(i as int).skip(1) =~= a@.skip(i + 1));
            assert(b@.skip(i as int).skip(1) =~= b@.skip(i + 1));
        }
        i = i + 1;
    }
    if i < bn {
        Cmp::Lt
    } else if i < an {
        Cmp::Gt
    } else {
        Cmp::Eq
    }
}

/// Compares two byte vectors lexicographically.
pub fn bytes_compare(a: &Vec<u8>, b: &Vec<u8>) -> (r: Cmp)
    ensures
        r == bytes_cmp(a@, b@),
{
    let an = a.len();
    let bn = b.len();
    proof {
        assert(a@.skip(0) =~= a@);
        assert(b@.skip(0) =~= b@);
    }
    let mut i: usize = 0;
    while i < an && i < bn
        invariant
            i <= an == a@.len(),
            i <= bn == b@.len(),
            bytes_cmp(a@, b@) == bytes_cmp(a@.skip(i as int), b@.skip(i as int)),
        decreases an - i,
    {
        if a[i] < b[i] {
            return Cmp::Lt;
        }
        if a[i] > b[i] {
            return Cmp::Gt;
        }
        proof {
            assert(a@.skip(i as int).skip(1) =~= a@.skip(i + 1));
            assert(b@.skip(i as int).skip(1) =~= b@.skip(i + 1));
        }
        i = i + 1;
    }
    if i < bn {
        Cmp::Lt
    } else if i < an {
        Cmp::Gt
    } else {
        Cmp::Eq
    }
}

/// The numeric content of a value, as an integer scaled by a power of
/// ten: `x / 10^s`.
pub open spec fn num_of(v: ValueV) -> Option<(int, nat)> {
    match v {
        ValueV::I8(x) => Some((x as int, 0nat)),
        ValueV::I16(x) => Some((x as int, 0nat)),
        ValueV::I32(x) => Some((x as int, 0nat)),
        ValueV::I64(x) => Some((x as int, 0nat)),
        ValueV::I128(x) => Some((x as int, 0nat)),
        ValueV::U8(x) => Some((x as int, 0nat)),
        ValueV::U16(x) => Some((x as int, 0nat)),
        ValueV::U32(x) => Some((x as int, 0nat)),
        ValueV::U64(x) => Some((x as int, 0nat)),
        ValueV::U128(x) => Some((x as int, 0nat)),
        ValueV::Decimal(d) => Some((d.m as int, d.s as nat)),
        _ => None,
    }
}

/// The order of two scaled numbers: the order of the cross-scaled
/// integers.
pub open spec fn num_cmp(x: (int, nat), y: (int, nat)) -> Cmp {
    let l = x.0 * pow10(y.1);
    let r = y.0 * pow10(x.1);
    if l < r {
        Cmp::Lt
    } else if l == r {
        Cmp::Eq
    } else {
        Cmp::Gt
    }
}

/// The total order of the value model, where one exists: numerics compare
/// exactly across widths and scales; strings, bytes, dates, times,
/// timestamps, addresses and identifiers compare within their own kind;
/// `Null`, containers, mixed interval units and unrelated kinds do not
/// compare.
pub open spec fn spec_value_cmp(a: ValueV, b: ValueV) -> Option<Cmp> {
    if num_of(a) is Some && num_of(b) is Some {
        Some(num_cmp(num_of(a)->0, num_of(b)->0))
    } else {
        match (a, b) {
            (ValueV::Bool(x), ValueV::Bool(y)) => Some(
                if x == y {
                    Cmp::Eq
                } else if !x {
                    Cmp::Lt
                } else {
                    Cmp::Gt
                },
            ),
            (ValueV::Str(x), ValueV::Str(y)) => Some(str_cmp(x, y)),
            (ValueV::Bytea(x), ValueV::Bytea(y)) => Some(bytes_cmp(x, y)),
            (ValueV::Date(x), ValueV::Date(y)) => Some(
                num_cmp(
                    ((x.year as int) * 10000 + (x.month as int) * 100 + x.day as int, 0nat),
                    ((y.year as int) * 10000 + (y.month as int) * 100 + y.day as int, 0nat),
                ),
            ),
            (ValueV::Time(x), ValueV::Time(y)) => Some(
                num_cmp(
                    ((x.hour as int) * 10000 + (x.minute as int) * 100 + x.second as int, 0nat),
                    ((y.hour as int) * 10000 + (y.minute as int) * 100 + y.second as int, 0nat),
                ),
            ),
            (ValueV::Timestamp(x), ValueV::Timestamp(y)) => Some(
                num_cmp((timestamp_key(x), 0nat), (timestamp_key(y), 0nat)),
            ),
            (ValueV::Uuid(x), ValueV::Uuid(y)) => Some(
                num_cmp((x as int, 0nat), (y as int, 0nat)),
            ),
            (ValueV::Inet(x), ValueV::Inet(y)) => Some(num_cmp((inet_key(x), 0nat), (inet_key(y), 0nat))),
            (ValueV::Interval(Interval::Month(x)), ValueV::Interval(Interval::Month(y))) => Some(
                num_cmp((x as int, 0nat), (y as int, 0nat)),
            ),
            (
                ValueV::Interval(Interval::Microsecond(x)),
                ValueV::Interval(Interval::Microsecond(y)),
            ) => Some(num_cmp((x as int, 0nat), (y as int, 0nat))),
            _ => None,
        }
    }
}

/// A timestamp as one integer, later timestamps larger.
pub open spec fn timestamp_key(t: Timestamp) -> int {
    ((((t.date.year as int) * 10000 + (t.date.month as int) * 100 + t.date.day as int) * 1000000)
        + (t.time.hour as int) * 10000 + (t.time.minute as int) * 100 + t.time.second as int)
}

/// An address as one integer: every old-form address below every
/// new-form one.
pub open spec fn inet_key(a: Inet) -> int {
    match a {
        Inet::V4(v) => v as int,
        Inet::V6(v) => v as int + 0x100000000,
    }
}

/// Number representation for executable comparison: a decimal, an
/// unsigned integer too large for a mantissa, or the one signed value a
/// mantissa cannot carry.
pub(crate) enum NumRepr {
    D(Dec),
    Big(u128),
    Low,
}

/// The scaled pair a representation stands for.
pub(crate) open spec fn repr_pair(r: NumRepr) -> (int, nat) {
    match r {
        NumRepr::D(d) => (d.m as int, d.s as nat),
        NumRepr::Big(u) => (u as int, 0nat),
        NumRepr::Low => (i128::MIN as int, 0nat),
    }
}

pub(crate) open spec fn repr_wf(r: NumRepr) -> bool {
    match r {
        NumRepr::D(d) => crate::decimal::dec_wf(d),
        NumRepr::Big(u) => u > i128::MAX,
        NumRepr::Low => true,
    }
}

pub(crate) fn num_repr(v: &Value) -> (r: Option<NumRepr>)
    requires
        value_wf(v@),
    ensures
        match r {
            Some(nr) => repr_wf(nr) && num_of(v@) == Some(repr_pair(nr)),
            None => num_of(v@) is None,
        },
{
    match v {
        Value::I8(x) => Some(NumRepr::D(Dec { m: *x as i128, s: 0 })),
        Value::I16(x) => Some(NumRepr::D(Dec { m: *x as i128, s: 0 })),
        Value::I32(x) => Some(NumRepr::D(Dec { m: *x as i128, s: 0 })),
        Value::I64(x) => Some(NumRepr::D(Dec { m: *x as i128, s: 0 })),
        Value::I128(x) => {
            if *x == i128::MIN {
                Some(NumRepr::Low)
            } else {
                Some(NumRepr::D(Dec { m: *x, s: 0 }))
            }
        },
        Value::U8(x) => Some(NumRepr::D(Dec { m: *x as i128, s: 0 })),
        Value::U16(x) => Some(NumRepr::D(Dec { m: *x as i128, s: 0 })),
        Value::U32(x) => Some(NumRepr::D(Dec { m: *x as i128, s: 0 })),
        Value::U64(x) => Some(NumRepr::D(Dec { m: *x as i128, s: 0 })),
        Value::U128(x) => {
            if *x > i128::MAX as u128 {
                Some(NumRepr::Big(*x))
            } else {
                Some(NumRepr::D(Dec { m: *x as i128, s: 0 }))
            }
        },
        Value::Decimal(d) => Some(NumRepr::D(*d)),
        _ => None,
    }
}

/// Compares two represented numbers exactly.
pub(crate) fn num_compare(a: NumRepr, b: NumRepr) -> (r: Cmp)
    requires
        repr_wf(a),
        repr_wf(b),
    ensures
        r == num_cmp(repr_pair(a), repr_pair(b)),
{
    proof {
        crate::decimal::lemma_pow10_pos(0);
    }
    match (a, b) {
        (NumRepr::D(x), NumRepr::D(y)) => {
            let r = crate::decimal::dec_cmp(x, y);
            proof {
                assert(spec_dec_cmp(x, y) == num_cmp(repr_pair(a), repr_pair(b)));
            }
            r
        },
        (NumRepr::D(x), NumRepr::Big(u)) => {
            proof {
                lemma_small_below_big(x.m as int, x.s as nat, u as int);
            }
            Cmp::Lt
        },
        (NumRepr::Big(u), NumRepr::D(y)) => {
            proof {
                lemma_small_below_big(y.m as int, y.s as nat, u as int);
            }
            Cmp::Gt
        },
        (NumRepr::Big(x), NumRepr::Big(y)) => {
            proof {
                assert(pow10(0) == 1);
                assert((x as int) * pow10(0) == x as int);
                assert((y as int) * pow10(0) == y as int);
            }
            if x < y {
                Cmp::Lt
            } else if x == y {
                Cmp::Eq
            } else {
                Cmp::Gt
            }
        },
        (NumRepr::Low, NumRepr::Low) => {
            proof {
                assert(pow10(0) == 1);
                assert((i128::MIN as int) * pow10(0) == i128::MIN as int);
            }
            Cmp::Eq
        },
        (NumRepr::Low, NumRepr::D(y)) => {
            proof {
                lemma_low_below_small(y.m as int, y.s as nat);
            }
            Cmp::Lt
        },
        (NumRepr::D(x), NumRepr::Low) => {
            proof {
                lemma_low_below_small(x.m as int, x.s as nat);
            }
            Cmp::Gt
        },
        (NumRepr::Low, NumRepr::Big(u)) => {
            proof {
                lemma_low_below_big(u as int);
            }
            Cmp::Lt
        },
        (NumRepr::Big(u), NumRepr::Low) => {
            proof {
                lemma_low_below_big(u as int);
            }
            Cmp::Gt
        },
    }
}

/// A mantissa-ranged scaled number is below any integer above the
/// mantissa range.
proof fn lemma_small_below_big(m: int, s: nat, u: int)
    requires
        m <= i128::MAX,
        u > i128::MAX,
    ensures
        m * pow10(0) < u * pow10(s),
{
    crate::decimal::lemma_pow10_pos(s);
    assert(pow10(0) == 1);
    assert(m * pow10(0) == m);
    assert(u * pow10(s) >= u) by (nonlinear_arith)
        requires
            u >= 0 && pow10(s) >= 1,
    ;
}

/// The lowest mantissa value is below any well-formed scaled number.
proof fn lemma_low_below_small(m: int, s: nat)
    requires
        m > i128::MIN,
    ensures
        i128::MIN * pow10(s) < m * pow10(0),
{
    crate::decimal::lemma_pow10_pos(s);
    assert(pow10(0) == 1);
    assert(m * pow10(0) == m);
    assert(i128::MIN * pow10(s) <= i128::MIN) by (nonlinear_arith)
        requires
            pow10(s) >= 1,
    ;
}

proof fn lemma_low_below_big(u: int)
    requires
        u > i128::MAX,
    ensures
        i128::MIN * pow10(0) < u * pow10(0),
{
    assert(pow10(0) == 1);
    assert(i128::MIN * pow10(0) == i128::MIN);
    assert(u * pow10(0) == u);
}

/// Order of two integers under the scaled comparison at scale zero.
proof fn lemma_int_order(x: int, y: int)
    ensures
        num_cmp((x, 0nat), (y, 0nat)) == (if x < y {
            Cmp::Lt
        } else if x == y {
            Cmp::Eq
        } else {
            Cmp::Gt
        }),
{
    assert(pow10(0) == 1);
    assert(x * pow10(0) == x);
    assert(y * pow10(0) == y);
}

/// Compares two values under the value model's order; `None` where the
/// model defines none.
pub fn value_cmp(a: &Value, b: &Value) -> (r: Option<Cmp>)
    requires
        value_wf(a@),
        value_wf(b@),
    ensures
        r == spec_value_cmp(a@, b@),
{
    proof {
        assert(pow10(0) == 1);
    }
    let ra = num_repr(a);
    let rb = num_repr(b);
    match (ra, rb) {
        (Some(x), Some(y)) => {
            return Some(num_compare(x, y));
        },
        _ => {},
    }
    match (a, b) {
        (Value::Bool(x), Value::Bool(y)) => Some(
            if x == y {
                Cmp::Eq
            } else if !*x {
                Cmp::Lt
            } else {
                Cmp::Gt
            },
        ),
        (Value::Str(x), Value::Str(y)) => Some(str_compare(x.as_str(), y.as_str())),
        (Value::Bytea(x), Value::Bytea(y)) => Some(bytes_compare(x, y)),
        (Value::Date(x), Value::Date(y)) => {
            let kx: i64 = (x.year as i64) * 10000 + (x.month as i64) * 100 + x.day as i64;
            let ky: i64 = (y.year as i64) * 10000 + (y.month as i64) * 100 + y.day as i64;
            Some(int_order(kx, ky))
        },
        (Value::Time(x), Value::Time(y)) => {
            let kx: i64 = (x.hour as i64) * 10000 + (x.minute as i64) * 100 + x.second as i64;
            let ky: i64 = (y.hour as i64) * 10000 + (y.minute as i64) * 100 + y.second as i64;
            Some(int_order(kx, ky))
        },
        (Value::Timestamp(x), Value::Timestamp(y)) => {
            let kx: i64 = ((x.date.year as i64) * 10000 + (x.date.month as i64) * 100
                + x.date.day as i64) * 1000000 + (x.time.hour as i64) * 10000 + (x.time.minute
                as i64) * 100 + x.time.second as i64;
            let ky: i64 = ((y.date.year as i64) * 10000 + (y.date.month as i64) * 100
                + y.date.day as i64) * 1000000 + (y.time.hour as i64) * 10000 + (y.time.minute
                as i64) * 100 + y.time.second as i64;
            Some(int_order(kx, ky))
        },
        (Value::Uuid(x), Value::Uuid(y)) => Some(
            {
                proof {
                    lemma_int_order(*x as int, *y as int);
                }
                if *x < *y {
                Cmp::Lt
            } else if x == y {
                Cmp::Eq
            } else {
                Cmp::Gt
            }
            },
        ),
        (Value::Inet(Inet::V4(x)), Value::Inet(Inet::V4(y))) => Some(
            {
                proof {
                    lemma_int_order(inet_key(Inet::V4(*x)), inet_key(Inet::V4(*y)));
                }
                if *x < *y {
                Cmp::Lt
            } else if x == y {
                Cmp::Eq
            } else {
                Cmp::Gt
            }
            },
        ),
        (Value::Inet(Inet::V4(x)), Value::Inet(Inet::V6(y))) => {
            proof {
                lemma_int_order(inet_key(Inet::V4(*x)), inet_key(Inet::V6(*y)));
            }
            Some(Cmp::Lt)
        },
        (Value::Inet(Inet::V6(x)), Value::Inet(Inet::V4(y))) => {
            proof {
                lemma_int_order(inet_key(Inet::V6(*x)), inet_key(Inet::V4(*y)));
            }
            Some(Cmp::Gt)
        },
        (Value::Inet(Inet::V6(x)), Value::Inet(Inet::V6(y))) => Some(
            {
                proof {
                    lemma_int_order(inet_key(Inet::V6(*x)), inet_key(Inet::V6(*y)));
                }
                if *x < *y {
                Cmp::Lt
            } else if x == y {
                Cmp::Eq
            } else {
                Cmp::Gt
            }
            },
        ),
        (Value::Interval(Interval::Month(x)), Value::Interval(Interval::Month(y))) => Some(
            {
                proof {
                    lemma_int_order(*x as int, *y as int);
                }
                if *x < *y {
                Cmp::Lt
            } else if x == y {
                Cmp::Eq
            } else {
                Cmp::Gt
            }
            },
        ),
        (
            Value::Interval(Interval::Microsecond(x)),
            Value::Interval(Interval::Microsecond(y)),
        ) => Some(
            {
                proof {
                    lemma_int_order(*x as int, *y as int);
                }
                if *x < *y {
                Cmp::Lt
            } else if x == y {
                Cmp::Eq
            } else {
                Cmp::Gt
            }
            },
        ),
        _ => None,
    }
}

/// Order of two machine integers as a comparison outcome.
fn int_order(x: i64, y: i64) -> (r: Cmp)
    ensures
        r == num_cmp((x as int, 0nat), (y as int, 0nat)),
{
    proof {
        assert(pow10(0) == 1);
        assert((x as int) * pow10(0) == x as int);
        assert((y as int) * pow10(0) == y as int);
    }
    if x < y {
        Cmp::Lt
    } else if x == y {
        Cmp::Eq
    } else {
        Cmp::Gt
    }
}

/// Equality under the value model: numbers equal across widths and
/// scales, `Null` equal to `Null` alone, containers never equal.
pub open spec fn spec_value_eq(a: ValueV, b: ValueV) -> bool {
    if a is Null && b is Null {
        true
    } else {
        spec_value_cmp(a, b) == Some(Cmp::Eq)
    }
}

pub fn value_eq(a: &Value, b: &Value) -> (r: bool)
    requires
        value_wf(a@),
        value_wf(b@),
    ensures
        r == spec_value_eq(a@, b@),
{
    match (a, b) {
        (Value::Null, Value::Null) => true,
        _ => {
            match value_cmp(a, b) {
                Some(Cmp::Eq) => true,
                _ => false,
            }
        },
    }
}

/// Copies the contents of a key-value container.
pub fn dict_content_clone(m: &Vec<(String, Value)>) -> (c: Vec<(String, Value)>)
    ensures
        c@.len() == m@.len(),
        forall|j: int| 0 <= j < m@.len() ==> (#[trigger] c@[j]).0@ == m@[j].0@ && c@[j].1@ == m@[j].1@,
{
    let mut c: Vec<(String, Value)> = Vec::new();
    let mut i: usize = 0;
    while i < m.len()
        invariant
            i <= m@.len(),
            c@.len() == i,
            forall|j: int| 0 <= j < i ==> (#[trigger] c@[j]).0@ == m@[j].0@ && c@[j].1@ == m@[j].1@,
        decreases m@.len() - i,
    {
        let key = m[i].0.clone();
        let val = value_clone(&m[i].1);
        c.push((key, val));
        i = i + 1;
    }
    c
}

/// Copies the contents of a positional container.
pub fn list_content_clone(l: &Vec<Value>) -> (c: Vec<Value>)
    ensures
        c@.len() == l@.len(),
        forall|j: int| 0 <= j < l@.len() ==> (#[trigger] c@[j])@ == l@[j]@,
{
    let mut c: Vec<Value> = Vec::new();
    let mut i: usize = 0;
    while i < l.len()
        invariant
            i <= l@.len(),
            c@.len() == i,
            forall|j: int| 0 <= j < i ==> (#[trigger] c@[j])@ == l@[j]@,
        decreases l@.len() - i,
    {
        c.push(value_clone(&l[i]));
        i = i + 1;
    }
    c
}

} // verus!