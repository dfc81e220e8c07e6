//! Literals as the parser hands them over, and their coercion into typed
//! values.

use vstd::prelude::*;

use crate::calendar::{spec_parse_date, spec_parse_inet4, spec_parse_time, spec_parse_timestamp};
use crate::decimal::spec_parse_dec;
use crate::digits::{all_hex_digits, hexs_val, parse_hex_range};
use crate::error::{Error, ValueError};
use crate::value::{value_wf, Value, ValueV};

verus! {

/// The logical column types.  A nested array reports no element type:
/// the element type of self-nested arrays is deliberately erased.
#[derive(Clone, Copy, PartialEq, Eq, Structural, Debug)]
pub enum DataType {
    Boolean,
    Int8,
    Int16,
    Int32,
    Int,
    Int128,
    Uint8,
    Uint16,
    Uint32,
    Uint64,
    Uint128,
    Decimal,
    Float32,
    Float,
    Text,
    Bytea,
    Inet,
    Date,
    Timestamp,
    Time,
    Interval,
    Uuid,
    Dict,
    List,
    Array,
    Point,
}

/// A literal token from the statement text.
#[derive(Debug, PartialEq)]
pub enum AstLiteral {
    Boolean(bool),
    Number(String),
    QuotedString(String),
    HexString(String),
    Null,
}

/// A literal in the evaluator's own shape.
#[derive(Debug)]
pub enum Literal {
    Boolean(bool),
    Number(String),
    Text(String),
    Bytea(Vec<u8>),
    Null,
}

/// The mathematical shape of a literal.
pub enum LiteralV {
    Boolean(bool),
    Number(Seq<char>),
    Text(Seq<char>),
    Bytea(Seq<u8>),
    Null,
}

impl View for Literal {
    type V = LiteralV;

    open spec fn view(&self) -> LiteralV {
        match *self {
            Literal::Boolean(b) => LiteralV::Boolean(b),
            Literal::Number(ref s) => LiteralV::Number(s@),
            Literal::Text(ref s) => LiteralV::Text(s@),
            Literal::Bytea(ref b) => LiteralV::Bytea(b@),
            Literal::Null => LiteralV::Null,
        }
    }
}

/// Copies a literal; the copy has the same mathematical shape.
pub fn literal_clone(l: &Literal) -> (r: Literal)
    ensures
        r@ == l@,
{
    match l {
        Literal::Boolean(b) => Literal::Boolean(*b),
        Literal::Number(s) => Literal::Number(s.clone()),
        Literal::Text(s) => Literal::Text(s.clone()),
        Literal::Bytea(b) => {
            let mut c: Vec<u8> = Vec::new();
            let mut i: usize = 0;
            while i < b.len()
                invariant
                    i <= b@.len(),
                    c@ == b@.take(i as int),
                decreases b@.len() - i,
            {
                c.push(b[i]);
                proof {
                    assert(c@ =~= b@.take(i + 1));
                }
                i = i + 1;
            }
            proof {
                assert(b@.take(b@.len() as int) =~= b@);
            }
            Literal::Bytea(c)
        },
        Literal::Null => Literal::Null,
    }
}

/// The bytes a hexadecimal string stands for, two digits a byte.
pub open spec fn hex_bytes(s: Seq<char>) -> Seq<u8>
    decreases s.len(),
{
    if s.len() < 2 {
        Seq::<u8>::empty()
    } else {
        hex_bytes(s.take(s.len() - 2)).push(
            hexs_val(s.subrange(s.len() - 2, s.len() as int)) as u8,
        )
    }
}

/// Decodes a hexadecimal string: an even number of hexadecimal digits.
pub fn decode_hex(s: &str) -> (r: Option<Vec<u8>>)
    ensures
        match r {
            Some(b) => s@.len() % 2 == 0 && all_hex_digits(s@) && b@ == hex_bytes(s@),
            None => s@.len() % 2 != 0 || !all_hex_digits(s@),
        },
{
    let n = s.unicode_len();
    if n % 2 != 0 {
        return None;
    }
    let mut out: Vec<u8> = Vec::new();
    let mut i: usize = 0;
    while i < n
        invariant
            i <= n == s@.len(),
            i % 2 == 0,
            n % 2 == 0,
            all_hex_digits(s@.take(i as int)),
            out@ == hex_bytes(s@.take(i as int)),
        decreases n - i,
    {
        let b = match parse_hex_range(s, i, i + 2) {
            Some(v) => v,
            None => {
                proof {
                    let bad = s@.subrange(i as int, i + 2);
                    assert(!all_hex_digits(bad));
                    let k = choose|k: int|
                        0 <= k < bad.len() && !crate::digits::is_hex_digit(bad[k]);
                    assert(s@[i + k] == bad[k]);
                }
                return None;
            },
        };
        out.push(b as u8);
        proof {
            let pre = s@.take(i as int);
            let cur = s@.take(i + 2);
            let pair = s@.subrange(i as int, i + 2);
            crate::digits::lemma_hexs_val_bound(pair, 2);
            assert(crate::digits::pow16(2) == 256) by {
                reveal_with_fuel(crate::digits::pow16, 4);
            }
            assert(cur.take(cur.len() - 2) =~= pre);
            assert(cur.subrange(cur.len() - 2, cur.len() as int) =~= pair);
            assert(hex_bytes(cur) == hex_bytes(pre).push(hexs_val(pair) as u8));
            assert forall|j: int|
                0 <= j < cur.len() implies crate::digits::is_hex_digit(#[trigger] cur[j]) by {
                if j < i {
                    assert(cur[j] == pre[j]);
                    assert(crate::digits::is_hex_digit(pre[j]));
                } else {
                    assert(cur[j] == pair[j - i]);
                    assert(crate::digits::is_hex_digit(pair[j - i]));
                }
            }
        }
        i = i + 2;
    }
    proof {
        assert(s@.take(n as int) =~= s@);
    }
    Some(out)
}

/// The literal an AST literal token turns into: hexadecimal strings are
/// decoded; the rest carry over.
pub open spec fn spec_literal_of_ast(l: AstLiteral) -> Option<LiteralV> {
    match l {
        AstLiteral::Boolean(b) => Some(LiteralV::Boolean(b)),
        AstLiteral::Number(s) => Some(LiteralV::Number(s@)),
        AstLiteral::QuotedString(s) => Some(LiteralV::Text(s@)),
        AstLiteral::HexString(s) => if s@.len() % 2 == 0 && all_hex_digits(s@) {
            Some(LiteralV::Bytea(hex_bytes(s@)))
        } else {
            None
        },
        AstLiteral::Null => Some(LiteralV::Null),
    }
}

/// Turns an AST literal token into the evaluator's literal; a malformed
/// hexadecimal string is the one way this fails.
pub fn literal_of_ast(l: &AstLiteral) -> (r: Result<Literal, Error>)
    ensures
        match spec_literal_of_ast(*l) {
            Some(lv) => r is Ok && r->Ok_0@ == lv,
            None => r matches Err(Error::Value(ValueError::FailedToParseLiteral(_))),
        },
{
    match l {
        AstLiteral::Boolean(b) => Ok(Literal::Boolean(*b)),
        AstLiteral::Number(s) => Ok(Literal::Number(s.clone())),
        AstLiteral::QuotedString(s) => Ok(Literal::Text(s.clone())),
        AstLiteral::HexString(s) => match decode_hex(s.as_str()) {
            Some(b) => Ok(Literal::Bytea(b)),
            None => Err(Error::Value(ValueError::FailedToParseLiteral(s.clone()))),
        },
        AstLiteral::Null => Ok(Literal::Null),
    }
}


/// Value of the concatenation of two hexadecimal strings.
proof fn lemma_hexs_val_append(a: Seq<char>, b: Seq<char>)
    ensures
        hexs_val(a + b) == hexs_val(a) * crate::digits::pow16(b.len()) + hexs_val(b),
    decreases b.len(),
{
    if b.len() == 0 {
        assert(a + b =~= a);
        assert(crate::digits::pow16(0) == 1);
        assert(hexs_val(a) * 1 == hexs_val(a));
    } else {
        let ab = a + b;
        assert(ab.drop_last() =~= a + b.drop_last());
        lemma_hexs_val_append(a, b.drop_last());
        assert(hexs_val(ab) == hexs_val(a + b.drop_last()) * 16 + crate::digits::hex_val(b.last()));
        assert(crate::digits::pow16(b.len()) == 16 * crate::digits::pow16((b.len() - 1) as nat));
        assert((hexs_val(a) * crate::digits::pow16((b.len() - 1) as nat) + hexs_val(b.drop_last()))
            * 16 == hexs_val(a) * (16 * crate::digits::pow16((b.len() - 1) as nat)) + hexs_val(
            b.drop_last(),
        ) * 16) by (nonlinear_arith);
        assert(hexs_val(b) == hexs_val(b.drop_last()) * 16 + crate::digits::hex_val(b.last()));
    }
}

/// The 32 hexadecimal digits of a hyphenated identifier text, the four
/// hyphens removed.
pub open spec fn uuid_digits(s: Seq<char>) -> Seq<char> {
    s.take(8) + s.subrange(9, 13) + s.subrange(14, 18) + s.subrange(19, 23) + s.skip(24)
}

/// The parse of a hyphenated unique identifier: 36 characters, hyphens at
/// the four canonical places, hexadecimal digits elsewhere.
pub open spec fn spec_parse_uuid(s: Seq<char>) -> Option<u128> {
    if s.len() == 36 && s[8] == '-' && s[13] == '-' && s[18] == '-' && s[23] == '-'
        && all_hex_digits(uuid_digits(s)) {
        Some(hexs_val(uuid_digits(s)) as u128)
    } else {
        None
    }
}

/// Parses a hyphenated unique identifier.
pub fn parse_uuid(s: &str) -> (r: Option<u128>)
    ensures
        r == spec_parse_uuid(s@),
{
    let n = s.unicode_len();
    if n != 36 {
        return None;
    }
    if s.get_char(8) != '-' || s.get_char(13) != '-' || s.get_char(18) != '-' || s.get_char(23)
        != '-' {
        return None;
    }
    let ghost g1 = s@.take(8);
    let ghost g2 = s@.subrange(9, 13);
    let ghost g3 = s@.subrange(14, 18);
    let ghost g4 = s@.subrange(19, 23);
    let ghost g5 = s@.skip(24);
    proof {
        assert(s@.subrange(0, 8) =~= g1);
        assert(s@.subrange(24, 36) =~= g5);
    }
    let v1 = match crate::digits::parse_hex_range(s, 0, 8) {
        Some(v) => v,
        None => {
            proof {
                lemma_uuid_group_bad(s@, 0);
            }
            return None;
        },
    };
    let v2 = match crate::digits::parse_hex_range(s, 9, 13) {
        Some(v) => v,
        None => {
            proof {
                lemma_uuid_group_bad(s@, 1);
            }
            return None;
        },
    };
    let v3 = match crate::digits::parse_hex_range(s, 14, 18) {
        Some(v) => v,
        None => {
            proof {
                lemma_uuid_group_bad(s@, 2);
            }
            return None;
        },
    };
    let v4 = match crate::digits::parse_hex_range(s, 19, 23) {
        Some(v) => v,
        None => {
            proof {
                lemma_uuid_group_bad(s@, 3);
            }
            return None;
        },
    };
    let v5 = match crate::digits::parse_hex_range(s, 24, 36) {
        Some(v) => v,
        None => {
            proof {
                lemma_uuid_group_bad(s@, 4);
            }
            return None;
        },
    };
    proof {
        crate::digits::lemma_hexs_val_bound(g1, 8);
        crate::digits::lemma_hexs_val_bound(g2, 4);
        crate::digits::lemma_hexs_val_bound(g3, 4);
        crate::digits::lemma_hexs_val_bound(g4, 4);
        crate::digits::lemma_hexs_val_bound(g5, 12);
        lemma_pow16_small();
        lemma_hexs_val_append(g1, g2);
        lemma_hexs_val_append(g1 + g2, g3);
        lemma_hexs_val_append(g1 + g2 + g3, g4);
        lemma_hexs_val_append(g1 + g2 + g3 + g4, g5);
        assert forall|j: int|
            0 <= j < uuid_digits(s@).len() implies crate::digits::is_hex_digit(
            #[trigger] uuid_digits(s@)[j],
        ) by {
            let u = uuid_digits(s@);
            if j < 8 {
                assert(u[j] == g1[j]);
            } else if j < 12 {
                assert(u[j] == g2[j - 8]);
            } else if j < 16 {
                assert(u[j] == g3[j - 12]);
            } else if j < 20 {
                assert(u[j] == g4[j - 16]);
            } else {
                assert(u[j] == g5[j - 20]);
            }
        }
    }
    let a2 = v1 * 65536 + v2;
    let a3 = a2 * 65536 + v3;
    let a4 = a3 * 65536 + v4;
    let u = a4 * 281474976710656 + v5;
    proof {
        assert(hexs_val(uuid_digits(s@)) == u) by {
            assert(uuid_digits(s@) == g1 + g2 + g3 + g4 + g5);
            assert(crate::digits::pow16(4) == 65536 && crate::digits::pow16(12)
                == 281474976710656);
        }
    }
    Some(u)
}

/// The small powers of sixteen the identifier parse needs.
proof fn lemma_pow16_small()
    ensures
        crate::digits::pow16(4) == 65536,
        crate::digits::pow16(8) == 4294967296,
        crate::digits::pow16(12) == 281474976710656,
{
    reveal_with_fuel(crate::digits::pow16, 14);
}

/// A failed hexadecimal group leaves a non-digit among the identifier
/// digits.
proof fn lemma_uuid_group_bad(s: Seq<char>, which: int)
    requires
        s.len() == 36,
        which == 0 ==> !all_hex_digits(s.subrange(0, 8)),
        which == 1 ==> !all_hex_digits(s.subrange(9, 13)),
        which == 2 ==> !all_hex_digits(s.subrange(14, 18)),
        which == 3 ==> !all_hex_digits(s.subrange(19, 23)),
        which == 4 ==> !all_hex_digits(s.subrange(24, 36)),
        0 <= which <= 4,
    ensures
        !all_hex_digits(uuid_digits(s)),
{
    let u = uuid_digits(s);
    if which == 0 {
        let g = s.subrange(0, 8);
        let k = choose|k: int| 0 <= k < g.len() && !crate::digits::is_hex_digit(g[k]);
        assert(u[k] == g[k]);
    } else if which == 1 {
        let g = s.subrange(9, 13);
        let k = choose|k: int| 0 <= k < g.len() && !crate::digits::is_hex_digit(g[k]);
        assert(u[k + 8] == g[k]);
    } else if which == 2 {
        let g = s.subrange(14, 18);
        let k = choose|k: int| 0 <= k < g.len() && !crate::digits::is_hex_digit(g[k]);
        assert(u[k + 12] == g[k]);
    } else if which == 3 {
        let g = s.subrange(19, 23);
        let k = choose|k: int| 0 <= k < g.len() && !crate::digits::is_hex_digit(g[k]);
        assert(u[k + 16] == g[k]);
    } else {
        let g = s.subrange(24, 36);
        let k = choose|k: int| 0 <= k < g.len() && !crate::digits::is_hex_digit(g[k]);
        assert(u[k + 20] == g[k]);
    }
}

/// The outcome coercion owes: a value, a parse failure, a value out of
/// the target type's range, or a combination the model does not support.
pub enum Coerced {
    Val(ValueV),
    ParseFail(Seq<char>),
    OutOfRange(Seq<char>),
    Unsupported,
}

/// The text of a literal, where it has one.
pub open spec fn literal_text(l: LiteralV) -> Option<Seq<char>> {
    match l {
        LiteralV::Number(s) => Some(s),
        LiteralV::Text(s) => Some(s),
        _ => None,
    }
}

/// What `try_from_literal` returns: the typed value a literal coerces to
/// under the target type, or the exact failure.  A `Null` literal gives
/// `Null` for every target type.
pub open spec fn spec_try_from_literal(dt: DataType, l: LiteralV) -> Coerced {
    if l is Null {
        Coerced::Val(ValueV::Null)
    } else {
        match dt {
            DataType::Boolean => match l {
                LiteralV::Boolean(b) => Coerced::Val(ValueV::Bool(b)),
                LiteralV::Text(t) => if t == seq!['t', 'r', 'u', 'e'] {
                    Coerced::Val(ValueV::Bool(true))
                } else if t == seq!['f', 'a', 'l', 's', 'e'] {
                    Coerced::Val(ValueV::Bool(false))
                } else {
                    Coerced::ParseFail(t)
                },
                _ => Coerced::Unsupported,
            },
            DataType::Int8 => int_coerce(l, true, 0),
            DataType::Int16 => int_coerce(l, true, 1),
            DataType::Int32 => int_coerce(l, true, 2),
            DataType::Int => int_coerce(l, true, 3),
            DataType::Int128 => int_coerce(l, true, 4),
            DataType::Uint8 => int_coerce(l, false, 0),
            DataType::Uint16 => int_coerce(l, false, 1),
            DataType::Uint32 => int_coerce(l, false, 2),
            DataType::Uint64 => int_coerce(l, false, 3),
            DataType::Uint128 => int_coerce(l, false, 4),
            DataType::Decimal => match literal_text(l) {
                Some(t) => match spec_parse_dec(t) {
                    Some(d) => Coerced::Val(ValueV::Decimal(d)),
                    None => Coerced::ParseFail(t),
                },
                None => Coerced::Unsupported,
            },
            DataType::Text => match l {
                LiteralV::Text(t) => Coerced::Val(ValueV::Str(t)),
                LiteralV::Number(t) => Coerced::Val(ValueV::Str(t)),
                _ => Coerced::Unsupported,
            },
            DataType::Bytea => match l {
                LiteralV::Bytea(b) => Coerced::Val(ValueV::Bytea(b)),
                LiteralV::Text(t) => if t.len() % 2 == 0 && all_hex_digits(t) {
                    Coerced::Val(ValueV::Bytea(hex_bytes(t)))
                } else {
                    Coerced::ParseFail(t)
                },
                _ => Coerced::Unsupported,
            },
            DataType::Inet => match l {
                LiteralV::Text(t) => match spec_parse_inet4(t) {
                    Some(a) => Coerced::Val(ValueV::Inet(a)),
                    None => match crate::calendar::spec_parse_inet6(t) {
                        Some(a) => Coerced::Val(ValueV::Inet(a)),
                        None => Coerced::ParseFail(t),
                    },
                },
                _ => Coerced::Unsupported,
            },
            DataType::Date => match l {
                LiteralV::Text(t) => match spec_parse_date(t) {
                    Some(d) => Coerced::Val(ValueV::Date(d)),
                    None => Coerced::ParseFail(t),
                },
                _ => Coerced::Unsupported,
            },
            DataType::Timestamp => match l {
                LiteralV::Text(t) => match spec_parse_timestamp(t) {
                    Some(ts) => Coerced::Val(ValueV::Timestamp(ts)),
                    None => Coerced::ParseFail(t),
                },
                _ => Coerced::Unsupported,
            },
            DataType::Time => match l {
                LiteralV::Text(t) => match spec_parse_time(t) {
                    Some(tm) => Coerced::Val(ValueV::Time(tm)),
                    None => Coerced::ParseFail(t),
                },
                _ => Coerced::Unsupported,
            },
            DataType::Uuid => match l {
                LiteralV::Text(t) => match spec_parse_uuid(t) {
                    Some(u) => Coerced::Val(ValueV::Uuid(u)),
                    None => Coerced::ParseFail(t),
                },
                _ => Coerced::Unsupported,
            },
            _ => Coerced::Unsupported,
        }
    }
}

/// An integer literal in the given kind (signedness and width index):
/// optionally minus-signed digits, landed in the kind's range.
pub open spec fn int_coerce(l: LiteralV, signed: bool, rank: int) -> Coerced {
    match literal_text(l) {
        Some(t) => int_coerce_text(t, signed, rank),
        None => Coerced::Unsupported,
    }
}

/// An integer digit string in the given kind: the whole range is
/// admitted, the lowest signed value included.
pub open spec fn int_coerce_text(t: Seq<char>, signed: bool, rank: int) -> Coerced {
    let neg = t.len() > 0 && t[0] == '-';
    let b = if neg {
        t.skip(1)
    } else {
        t
    };
    if b.len() > 0 && crate::digits::all_dec_digits(b) {
        let val = if neg {
            -(crate::digits::digits_val(b) as int)
        } else {
            crate::digits::digits_val(b) as int
        };
        match crate::arith::make_int(signed, rank, val) {
            Some(v) => Coerced::Val(v),
            None => Coerced::OutOfRange(t),
        }
    } else {
        Coerced::ParseFail(t)
    }
}

/// Whether two strings hold the same characters.
pub fn str_eq(a: &str, b: &str) -> (r: bool)
    ensures
        r == (a@ == b@),
{
    let sa = a.to_owned();
    let sb = b.to_owned();
    sa == sb
}

/// Parses an integer digit string into the integer kind given by
/// signedness and width index.
fn coerce_int_text(t: &str, signed: bool, rank: u8) -> (r: Result<Value, Error>)
    requires
        rank <= 4,
    ensures
        coerced_matches(int_coerce_text(t@, signed, rank as int), r),
{
    let n = t.unicode_len();
    let neg = n > 0 && t.get_char(0) == '-';
    let from: usize = if neg {
        1
    } else {
        0
    };
    let ghost b = if neg {
        t@.skip(1)
    } else {
        t@
    };
    proof {
        assert(t@.subrange(from as int, n as int) =~= b);
    }
    if n == from {
        return Err(Error::Value(ValueError::FailedToParseLiteral(t.to_owned())));
    }
    if !crate::digits::check_all_digits(t, from, n) {
        return Err(Error::Value(ValueError::FailedToParseLiteral(t.to_owned())));
    }
    let mag = match crate::digits::parse_u128_range(t, from, n) {
        Some(v) => v,
        None => {
            proof {
                // a magnitude beyond the widest kind is out of every range
                crate::arith::lemma_kind_range(signed, rank as int);
            }
            return Err(Error::Value(ValueError::ValueOutOfRange(t.to_owned())));
        },
    };
    match crate::arith::make_int_exec(signed, rank, neg && mag > 0, mag) {
        Ok(v) => Ok(v),
        Err(_) => Err(Error::Value(ValueError::ValueOutOfRange(t.to_owned()))),
    }
}

/// Whether an outcome and a result agree: a value arrives as `Ok` with
/// that very shape, each failure as its own error kind.
pub open spec fn coerced_matches(c: Coerced, r: Result<Value, Error>) -> bool {
    match c {
        Coerced::Val(v) => r is Ok && r->Ok_0@ == v && value_wf(v),
        Coerced::ParseFail(t) => r matches Err(
            Error::Value(ValueError::FailedToParseLiteral(m)),
        ) && m@ == t,
        Coerced::OutOfRange(t) => r matches Err(
            Error::Value(ValueError::ValueOutOfRange(m)),
        ) && m@ == t,
        Coerced::Unsupported => r matches Err(Error::Value(ValueError::UnsupportedLiteral(_))),
    }
}

impl Value {
    /// Coerces a literal into a value of the requested type; fails with a
    /// parse, range or unsupported-literal error exactly as
    /// `spec_try_from_literal` says.
    pub fn try_from_literal(data_type: &DataType, literal: &Literal) -> (r: Result<Value, Error>)
        ensures
            coerced_matches(spec_try_from_literal(*data_type, literal@), r),
    {
        if let Literal::Null = literal {
            return Ok(Value::Null);
        }
        match data_type {
            DataType::Boolean => match literal {
                Literal::Boolean(b) => Ok(Value::Bool(*b)),
                Literal::Text(t) => {
                    proof {
                        reveal_strlit("true");
                        reveal_strlit("false");
                        assert("true"@ =~= seq!['t', 'r', 'u', 'e']);
                        assert("false"@ =~= seq!['f', 'a', 'l', 's', 'e']);
                    }
                    if str_eq(t.as_str(), "true") {
                        Ok(Value::Bool(true))
                    } else if str_eq(t.as_str(), "false") {
                        Ok(Value::Bool(false))
                    } else {
                        Err(Error::Value(ValueError::FailedToParseLiteral(t.clone())))
                    }
                },
                _ => Err(Error::Value(ValueError::UnsupportedLiteral(String::new()))),
            },
            DataType::Int8 => coerce_int_target(literal, true, 0),
            DataType::Int16 => coerce_int_target(literal, true, 1),
            DataType::Int32 => coerce_int_target(literal, true, 2),
            DataType::Int => coerce_int_target(literal, true, 3),
            DataType::Int128 => coerce_int_target(literal, true, 4),
            DataType::Uint8 => coerce_int_target(literal, false, 0),
            DataType::Uint16 => coerce_int_target(literal, false, 1),
            DataType::Uint32 => coerce_int_target(literal, false, 2),
            DataType::Uint64 => coerce_int_target(literal, false, 3),
            DataType::Uint128 => coerce_int_target(literal, false, 4),
            DataType::Decimal => match literal {
                Literal::Number(t) | Literal::Text(t) => match crate::decimal::parse_dec(
                    t.as_str(),
                ) {
                    Some(d) => Ok(Value::Decimal(d)),
                    None => Err(Error::Value(ValueError::FailedToParseLiteral(t.clone()))),
                },
                _ => Err(Error::Value(ValueError::UnsupportedLiteral(String::new()))),
            },
            DataType::Text => match literal {
                Literal::Text(t) => Ok(Value::Str(t.clone())),
                Literal::Number(t) => Ok(Value::Str(t.clone())),
                _ => Err(Error::Value(ValueError::UnsupportedLiteral(String::new()))),
            },
            DataType::Bytea => match literal {
                Literal::Bytea(b) => {
                    match literal_clone(literal) {
                        Literal::Bytea(c) => Ok(Value::Bytea(c)),
                        _ => Err(Error::Value(ValueError::UnsupportedLiteral(String::new()))),
                    }
                },
                Literal::Text(t) => match decode_hex(t.as_str()) {
                    Some(b) => Ok(Value::Bytea(b)),
                    None => Err(Error::Value(ValueError::FailedToParseLiteral(t.clone()))),
                },
                _ => Err(Error::Value(ValueError::UnsupportedLiteral(String::new()))),
            },
            DataType::Inet => match literal {
                Literal::Text(t) => match crate::calendar::parse_inet4(t.as_str()) {
                    Some(a) => Ok(Value::Inet(a)),
                    None => match crate::calendar::parse_inet6(t.as_str()) {
                        Some(a) => Ok(Value::Inet(a)),
                        None => Err(Error::Value(ValueError::FailedToParseLiteral(t.clone()))),
                    },
                },
                _ => Err(Error::Value(ValueError::UnsupportedLiteral(String::new()))),
            },
            DataType::Date => match literal {
                Literal::Text(t) => match crate::calendar::parse_date(t.as_str()) {
                    Some(d) => Ok(Value::Date(d)),
                    None => Err(Error::Value(ValueError::FailedToParseLiteral(t.clone()))),
                },
                _ => Err(Error::Value(ValueError::UnsupportedLiteral(String::new()))),
            },
            DataType::Timestamp => match literal {
                Literal::Text(t) => match crate::calendar::parse_timestamp(t.as_str()) {
                    Some(ts) => Ok(Value::Timestamp(ts)),
                    None => Err(Error::Value(ValueError::FailedToParseLiteral(t.clone()))),
                },
                _ => Err(Error::Value(ValueError::UnsupportedLiteral(String::new()))),
            },
            DataType::Time => match literal {
                Literal::Text(t) => match crate::calendar::parse_time(t.as_str()) {
                    Some(tm) => Ok(Value::Time(tm)),
                    None => Err(Error::Value(ValueError::FailedToParseLiteral(t.clone()))),
                },
                _ => Err(Error::Value(ValueError::UnsupportedLiteral(String::new()))),
            },
            DataType::Uuid => match literal {
                Literal::Text(t) => match parse_uuid(t.as_str()) {
                    Some(u) => Ok(Value::Uuid(u)),
                    None => Err(Error::Value(ValueError::FailedToParseLiteral(t.clone()))),
                },
                _ => Err(Error::Value(ValueError::UnsupportedLiteral(String::new()))),
            },
            _ => Err(Error::Value(ValueError::UnsupportedLiteral(String::new()))),
        }
    }
}

/// Routes an integer target through its literal's text.
fn coerce_int_target(literal: &Literal, signed: bool, rank: u8) -> (r: Result<Value, Error>)
    requires
        rank <= 4,
    ensures
        coerced_matches(int_coerce(literal@, signed, rank as int), r),
{
    match literal {
        Literal::Number(t) | Literal::Text(t) => coerce_int_text(t.as_str(), signed, rank),
        _ => Err(Error::Value(ValueError::UnsupportedLiteral(String::new()))),
    }
}

} // verus!
