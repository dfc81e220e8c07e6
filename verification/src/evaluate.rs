//! The expression evaluator: pure reducers from operator tokens and
//! already-evaluated operands to one evaluated result.

use vstd::prelude::*;

use crate::arith::{make_int, spec_arith, ArithOp, ArithOutcome};
use crate::decimal::{spec_parse_dec, Cmp, Dec};
use crate::error::{Error, EvaluateError, ValueError};
use crate::literal::{spec_try_from_literal, AstLiteral, DataType, Literal,
    LiteralV};
use crate::value::{spec_value_cmp, spec_value_eq, value_clone, value_cmp, value_eq, value_wf,
    Value, ValueV};

verus! {

/// The closed binary operator set.
#[derive(Clone, Copy, PartialEq, Eq, Structural, Debug)]
pub enum BinaryOperator {
    Plus,
    Minus,
    Multiply,
    Divide,
    Modulo,
    StringConcat,
    Eq,
    NotEq,
    Lt,
    LtEq,
    Gt,
    GtEq,
    And,
    Or,
    Like,
    NotLike,
}

/// The unary operators.
#[derive(Clone, Copy, PartialEq, Eq, Structural, Debug)]
pub enum UnaryOperator {
    Plus,
    Minus,
    Not,
}

/// A transient evaluation result: a literal carried through, or an owned
/// value.
#[derive(Debug)]
pub enum Evaluated {
    Literal(Literal),
    Value(Value),
}

/// The mathematical shape of an evaluation result.
pub enum EvaluatedV {
    Literal(LiteralV),
    Value(ValueV),
}

impl View for Evaluated {
    type V = EvaluatedV;

    open spec fn view(&self) -> EvaluatedV {
        match *self {
            Evaluated::Literal(ref l) => EvaluatedV::Literal(l@),
            Evaluated::Value(ref v) => EvaluatedV::Value(v@),
        }
    }
}

/// Well-formed evaluation results hold well-formed values.
pub open spec fn evaluated_wf(e: EvaluatedV) -> bool {
    match e {
        EvaluatedV::Literal(_) => true,
        EvaluatedV::Value(v) => value_wf(v),
    }
}

/// Copies an evaluation result; the copy has the same shape.
pub fn evaluated_clone(e: &Evaluated) -> (r: Evaluated)
    ensures
        r@ == e@,
{
    match e {
        Evaluated::Literal(l) => Evaluated::Literal(crate::literal::literal_clone(l)),
        Evaluated::Value(v) => Evaluated::Value(value_clone(v)),
    }
}

/// The value an evaluation result coerces to: literal booleans, texts and
/// bytes carry over; a number literal is read as an exact decimal; `None`
/// for an unreadable number.
pub open spec fn spec_evaluated_to_value(e: EvaluatedV) -> Option<ValueV> {
    match e {
        EvaluatedV::Value(v) => Some(v),
        EvaluatedV::Literal(l) => match l {
            LiteralV::Boolean(b) => Some(ValueV::Bool(b)),
            LiteralV::Number(s) => match spec_parse_dec(s) {
                Some(d) => Some(ValueV::Decimal(d)),
                None => None,
            },
            LiteralV::Text(t) => Some(ValueV::Str(t)),
            LiteralV::Bytea(b) => Some(ValueV::Bytea(b)),
            LiteralV::Null => Some(ValueV::Null),
        },
    }
}

/// Coerces an evaluation result into an owned value.
pub fn evaluated_to_value(e: &Evaluated) -> (r: Result<Value, Error>)
    requires
        evaluated_wf(e@),
    ensures
        match spec_evaluated_to_value(e@) {
            Some(v) => r is Ok && r->Ok_0@ == v && value_wf(v),
            None => r matches Err(Error::Value(ValueError::FailedToParseLiteral(_))),
        },
{
    match e {
        Evaluated::Value(v) => Ok(value_clone(v)),
        Evaluated::Literal(l) => match l {
            Literal::Boolean(b) => Ok(Value::Bool(*b)),
            Literal::Number(s) => match crate::decimal::parse_dec(s.as_str()) {
                Some(d) => Ok(Value::Decimal(d)),
                None => Err(Error::Value(ValueError::FailedToParseLiteral(s.clone()))),
            },
            Literal::Text(t) => Ok(Value::Str(t.clone())),
            Literal::Bytea(b) => {
                match crate::literal::literal_clone(l) {
                    Literal::Bytea(c) => Ok(Value::Bytea(c)),
                    _ => Err(Error::Value(ValueError::FailedToParseLiteral(String::new()))),
                }
            },
            Literal::Null => Ok(Value::Null),
        },
    }
}

/// What an evaluator step owes.
pub enum EvalOutcome {
    Val(ValueV),
    ParseFail,
    TypeMismatch,
    Overflow,
    DivByZero,
    BoolRequired,
}

/// Whether an outcome and a reducer result agree.
pub open spec fn eval_matches(c: EvalOutcome, r: Result<Evaluated, Error>) -> bool {
    match c {
        EvalOutcome::Val(v) => r is Ok && r->Ok_0@ == EvaluatedV::Value(v) && value_wf(v),
        EvalOutcome::ParseFail => r matches Err(
            Error::Value(ValueError::FailedToParseLiteral(_)),
        ),
        EvalOutcome::TypeMismatch => r matches Err(Error::Value(ValueError::TypeMismatch(m)))
            && m@ == Seq::<char>::empty(),
        EvalOutcome::Overflow => r matches Err(Error::Value(ValueError::Overflow(m))) && m@
            == Seq::<char>::empty(),
        EvalOutcome::DivByZero => r matches Err(
            Error::Value(ValueError::DivisorShouldNotBeZero),
        ),
        EvalOutcome::BoolRequired => r matches Err(
            Error::Evaluate(EvaluateError::BooleanTypeRequired(m)),
        ) && m@ == Seq::<char>::empty(),
    }
}

/// Lifts an arithmetic outcome.
pub open spec fn lift_arith(c: ArithOutcome) -> EvalOutcome {
    match c {
        ArithOutcome::Val(v) => EvalOutcome::Val(v),
        ArithOutcome::TypeMismatch => EvalOutcome::TypeMismatch,
        ArithOutcome::Overflow => EvalOutcome::Overflow,
        ArithOutcome::DivByZero => EvalOutcome::DivByZero,
    }
}

/// Concatenation: two texts joined, `Null` propagated, anything else a
/// type mismatch.
pub open spec fn spec_concat(a: ValueV, b: ValueV) -> EvalOutcome {
    if a is Null || b is Null {
        EvalOutcome::Val(ValueV::Null)
    } else {
        match (a, b) {
            (ValueV::Str(x), ValueV::Str(y)) => EvalOutcome::Val(ValueV::Str(x + y)),
            _ => EvalOutcome::TypeMismatch,
        }
    }
}

/// The `LIKE` pattern language: `%` matches any run, `_` any one
/// character, anything else itself.
pub open spec fn like_match(p: Seq<char>, t: Seq<char>) -> bool
    decreases p.len(), t.len(),
{
    if p.len() == 0 {
        t.len() == 0
    } else if p[0] == '%' {
        like_match(p.skip(1), t) || (t.len() > 0 && like_match(p, t.skip(1)))
    } else if t.len() == 0 {
        false
    } else {
        (p[0] == '_' || p[0] == t[0]) && like_match(p.skip(1), t.skip(1))
    }
}

/// Pattern match under `LIKE`: text against pattern, `Null` propagated.
pub open spec fn spec_like(a: ValueV, b: ValueV) -> EvalOutcome {
    if a is Null || b is Null {
        EvalOutcome::Val(ValueV::Null)
    } else {
        match (a, b) {
            (ValueV::Str(t), ValueV::Str(p)) => EvalOutcome::Val(ValueV::Bool(like_match(p, t))),
            _ => EvalOutcome::TypeMismatch,
        }
    }
}

/// Decides a `LIKE` pattern recursively.
fn like_rec(p: &str, t: &str, pi: usize, ti: usize) -> (r: bool)
    requires
        pi <= p@.len(),
        ti <= t@.len(),
    ensures
        r == like_match(p@.skip(pi as int), t@.skip(ti as int)),
    decreases p@.len() - pi, t@.len() - ti,
{
    let pn = p.unicode_len();
    let tn = t.unicode_len();
    if pi == pn {
        return ti == tn;
    }
    let pc = p.get_char(pi);
    proof {
        assert(p@.skip(pi as int)[0] == p@[pi as int]);
        assert(p@.skip(pi as int).skip(1) =~= p@.skip(pi + 1));
        if ti < tn {
            assert(t@.skip(ti as int)[0] == t@[ti as int]);
            assert(t@.skip(ti as int).skip(1) =~= t@.skip(ti + 1));
        }
    }
    if pc == '%' {
        if like_rec(p, t, pi + 1, ti) {
            return true;
        }
        if ti < tn {
            return like_rec(p, t, pi, ti + 1);
        }
        return false;
    }
    if ti == tn {
        return false;
    }
    let tc = t.get_char(ti);
    if pc == '_' || pc == tc {
        like_rec(p, t, pi + 1, ti + 1)
    } else {
        false
    }
}

/// Evaluates a literal token: the token is carried through unreduced.
pub fn literal(ast_literal: &AstLiteral) -> (r: Result<Evaluated, Error>)
    ensures
        match crate::literal::spec_literal_of_ast(*ast_literal) {
            Some(lv) => r is Ok && r->Ok_0@ == EvaluatedV::Literal(lv),
            None => r matches Err(Error::Value(ValueError::FailedToParseLiteral(_))),
        },
{
    match crate::literal::literal_of_ast(ast_literal) {
        Ok(l) => Ok(Evaluated::Literal(l)),
        Err(e) => Err(e),
    }
}

/// Coerces a string under an explicit type annotation, producing an owned
/// value.
pub fn typed_string(data_type: &DataType, value: String) -> (r: Result<Evaluated, Error>)
    ensures
        match spec_try_from_literal(*data_type, LiteralV::Text(value@)) {
            crate::literal::Coerced::Val(v) => r is Ok && r->Ok_0@ == EvaluatedV::Value(v)
                && value_wf(v),
            crate::literal::Coerced::ParseFail(t) => r matches Err(
                Error::Value(ValueError::FailedToParseLiteral(m)),
            ) && m@ == t,
            crate::literal::Coerced::OutOfRange(t) => r matches Err(
                Error::Value(ValueError::ValueOutOfRange(m)),
            ) && m@ == t,
            crate::literal::Coerced::Unsupported => r matches Err(
                Error::Value(ValueError::UnsupportedLiteral(_)),
            ),
        },
{
    let lit = Literal::Text(value);
    match Value::try_from_literal(data_type, &lit) {
        Ok(v) => Ok(Evaluated::Value(v)),
        Err(e) => Err(e),
    }
}

/// The boolean a value must be for the logical operators.
pub open spec fn as_bool(v: ValueV) -> Option<bool> {
    match v {
        ValueV::Bool(b) => Some(b),
        _ => None,
    }
}

/// What a binary operator owes on two evaluated operands.
pub open spec fn spec_binary_op(op: BinaryOperator, l: EvaluatedV, r: EvaluatedV) -> EvalOutcome {
    match (spec_evaluated_to_value(l), spec_evaluated_to_value(r)) {
        (Some(a), Some(b)) => match op {
            BinaryOperator::Plus => lift_arith(spec_arith(ArithOp::Add, a, b)),
            BinaryOperator::Minus => lift_arith(spec_arith(ArithOp::Sub, a, b)),
            BinaryOperator::Multiply => lift_arith(spec_arith(ArithOp::Mul, a, b)),
            BinaryOperator::Divide => lift_arith(spec_arith(ArithOp::Div, a, b)),
            BinaryOperator::Modulo => lift_arith(spec_arith(ArithOp::Rem, a, b)),
            BinaryOperator::StringConcat => spec_concat(a, b),
            BinaryOperator::Eq => EvalOutcome::Val(ValueV::Bool(spec_value_eq(a, b))),
            BinaryOperator::NotEq => EvalOutcome::Val(ValueV::Bool(!spec_value_eq(a, b))),
            BinaryOperator::Lt => EvalOutcome::Val(
                ValueV::Bool(spec_value_cmp(a, b) == Some(Cmp::Lt)),
            ),
            BinaryOperator::LtEq => EvalOutcome::Val(
                ValueV::Bool(
                    spec_value_cmp(a, b) == Some(Cmp::Lt) || spec_value_cmp(a, b) == Some(Cmp::Eq),
                ),
            ),
            BinaryOperator::Gt => EvalOutcome::Val(
                ValueV::Bool(spec_value_cmp(a, b) == Some(Cmp::Gt)),
            ),
            BinaryOperator::GtEq => EvalOutcome::Val(
                ValueV::Bool(
                    spec_value_cmp(a, b) == Some(Cmp::Gt) || spec_value_cmp(a, b) == Some(Cmp::Eq),
                ),
            ),
            BinaryOperator::And => match (as_bool(a), as_bool(b)) {
                (Some(x), Some(y)) => EvalOutcome::Val(ValueV::Bool(x && y)),
                _ => EvalOutcome::BoolRequired,
            },
            BinaryOperator::Or => match (as_bool(a), as_bool(b)) {
                (Some(x), Some(y)) => EvalOutcome::Val(ValueV::Bool(x || y)),
                _ => EvalOutcome::BoolRequired,
            },
            BinaryOperator::Like => spec_like(a, b),
            BinaryOperator::NotLike => match spec_like(a, b) {
                EvalOutcome::Val(ValueV::Bool(x)) => EvalOutcome::Val(ValueV::Bool(!x)),
                other => other,
            },
        },
        _ => EvalOutcome::ParseFail,
    }
}

/// Reduces one binary operator over two evaluated operands.
pub fn binary_op(op: &BinaryOperator, l: Evaluated, r: Evaluated) -> (res: Result<
    Evaluated,
    Error,
>)
    requires
        evaluated_wf(l@),
        evaluated_wf(r@),
    ensures
        eval_matches(spec_binary_op(*op, l@, r@), res),
{
    let a = match evaluated_to_value(&l) {
        Ok(v) => v,
        Err(e) => {
            return Err(e);
        },
    };
    let b = match evaluated_to_value(&r) {
        Ok(v) => v,
        Err(e) => {
            return Err(e);
        },
    };
    match op {
        BinaryOperator::Plus => match crate::arith::value_arith(ArithOp::Add, &a, &b) {
            Ok(v) => Ok(Evaluated::Value(v)),
            Err(e) => Err(e),
        },
        BinaryOperator::Minus => match crate::arith::value_arith(ArithOp::Sub, &a, &b) {
            Ok(v) => Ok(Evaluated::Value(v)),
            Err(e) => Err(e),
        },
        BinaryOperator::Multiply => match crate::arith::value_arith(ArithOp::Mul, &a, &b) {
            Ok(v) => Ok(Evaluated::Value(v)),
            Err(e) => Err(e),
        },
        BinaryOperator::Divide => match crate::arith::value_arith(ArithOp::Div, &a, &b) {
            Ok(v) => Ok(Evaluated::Value(v)),
            Err(e) => Err(e),
        },
        BinaryOperator::Modulo => match crate::arith::value_arith(ArithOp::Rem, &a, &b) {
            Ok(v) => Ok(Evaluated::Value(v)),
            Err(e) => Err(e),
        },
        BinaryOperator::StringConcat => value_concat(&a, &b),
        BinaryOperator::Eq => Ok(Evaluated::Value(Value::Bool(value_eq(&a, &b)))),
        BinaryOperator::NotEq => Ok(Evaluated::Value(Value::Bool(!value_eq(&a, &b)))),
        BinaryOperator::Lt => Ok(
            Evaluated::Value(Value::Bool(matches!(value_cmp(&a, &b), Some(Cmp::Lt)))),
        ),
        BinaryOperator::LtEq => Ok(
            Evaluated::Value(
                Value::Bool(matches!(value_cmp(&a, &b), Some(Cmp::Lt) | Some(Cmp::Eq))),
            ),
        ),
        BinaryOperator::Gt => Ok(
            Evaluated::Value(Value::Bool(matches!(value_cmp(&a, &b), Some(Cmp::Gt)))),
        ),
        BinaryOperator::GtEq => Ok(
            Evaluated::Value(
                Value::Bool(matches!(value_cmp(&a, &b), Some(Cmp::Gt) | Some(Cmp::Eq))),
            ),
        ),
        BinaryOperator::And => {
            let x = match value_as_bool(&a) {
                Some(x) => x,
                None => {
                    return Err(bool_required());
                },
            };
            let y = match value_as_bool(&b) {
                Some(y) => y,
                None => {
                    return Err(bool_required());
                },
            };
            Ok(Evaluated::Value(Value::Bool(x && y)))
        },
        BinaryOperator::Or => {
            let x = match value_as_bool(&a) {
                Some(x) => x,
                None => {
                    return Err(bool_required());
                },
            };
            let y = match value_as_bool(&b) {
                Some(y) => y,
                None => {
                    return Err(bool_required());
                },
            };
            Ok(Evaluated::Value(Value::Bool(x || y)))
        },
        BinaryOperator::Like => value_like(&a, &b),
        BinaryOperator::NotLike => match value_like(&a, &b) {
            Ok(Evaluated::Value(Value::Bool(x))) => Ok(Evaluated::Value(Value::Bool(!x))),
            other => other,
        },
    }
}

fn bool_required() -> (r: Error)
    ensures
        r matches Error::Evaluate(EvaluateError::BooleanTypeRequired(m)) && m@ == Seq::<
            char,
        >::empty(),
{
    Error::Evaluate(EvaluateError::BooleanTypeRequired(String::new()))
}

fn value_as_bool(v: &Value) -> (r: Option<bool>)
    ensures
        r == as_bool(v@),
{
    match v {
        Value::Bool(b) => Some(*b),
        _ => None,
    }
}

/// Joins two text values.
fn value_concat(a: &Value, b: &Value) -> (r: Result<Evaluated, Error>)
    ensures
        eval_matches(spec_concat(a@, b@), r),
{
    match (a, b) {
        (Value::Null, _) => Ok(Evaluated::Value(Value::Null)),
        (_, Value::Null) => Ok(Evaluated::Value(Value::Null)),
        (Value::Str(x), Value::Str(y)) => {
            let mut s = x.clone();
            s.append(y.as_str());
            Ok(Evaluated::Value(Value::Str(s)))
        },
        _ => Err(Error::Value(ValueError::TypeMismatch(String::new()))),
    }
}

/// Decides a `LIKE` pattern on two values.
fn value_like(a: &Value, b: &Value) -> (r: Result<Evaluated, Error>)
    ensures
        eval_matches(spec_like(a@, b@), r),
{
    match (a, b) {
        (Value::Null, _) => Ok(Evaluated::Value(Value::Null)),
        (_, Value::Null) => Ok(Evaluated::Value(Value::Null)),
        (Value::Str(t), Value::Str(p)) => {
            proof {
                assert(p@.skip(0) =~= p@);
                assert(t@.skip(0) =~= t@);
            }
            Ok(Evaluated::Value(Value::Bool(like_rec(p.as_str(), t.as_str(), 0, 0))))
        },
        _ => Err(Error::Value(ValueError::TypeMismatch(String::new()))),
    }
}

/// What a unary operator owes: plus is the identity on numbers, minus the
/// exact negation in the operand's own kind, and `NOT` demands a boolean.
/// `Null` propagates through plus and minus.
pub open spec fn spec_unary_op(op: UnaryOperator, e: EvaluatedV) -> EvalOutcome {
    match spec_evaluated_to_value(e) {
        Some(v) => match op {
            UnaryOperator::Plus => if v is Null {
                EvalOutcome::Val(ValueV::Null)
            } else if crate::arith::int_kind(v) is Some || v is Decimal {
                EvalOutcome::Val(v)
            } else {
                EvalOutcome::TypeMismatch
            },
            UnaryOperator::Minus => if v is Null {
                EvalOutcome::Val(ValueV::Null)
            } else if crate::arith::int_kind(v) is Some {
                let (s, rk, x) = crate::arith::int_kind(v)->0;
                match make_int(s, rk, -x) {
                    Some(w) => EvalOutcome::Val(w),
                    None => EvalOutcome::Overflow,
                }
            } else if v is Decimal {
                EvalOutcome::Val(ValueV::Decimal(Dec { m: (-(v->Decimal_0.m)) as i128, s: v->Decimal_0.s }))
            } else {
                EvalOutcome::TypeMismatch
            },
            UnaryOperator::Not => match as_bool(v) {
                Some(b) => EvalOutcome::Val(ValueV::Bool(!b)),
                None => EvalOutcome::BoolRequired,
            },
        },
        None => EvalOutcome::ParseFail,
    }
}

/// Reduces one unary operator over an evaluated operand.
pub fn unary_op(op: &UnaryOperator, v: Evaluated) -> (r: Result<Evaluated, Error>)
    requires
        evaluated_wf(v@),
    ensures
        eval_matches(spec_unary_op(*op, v@), r),
{
    let a = match evaluated_to_value(&v) {
        Ok(a) => a,
        Err(e) => {
            return Err(e);
        },
    };
    match op {
        UnaryOperator::Plus => {
            match &a {
                Value::Null => Ok(Evaluated::Value(Value::Null)),
                Value::Decimal(_) => Ok(Evaluated::Value(a)),
                _ => {
                    if crate::arith::int_sm(&a).is_some() {
                        Ok(Evaluated::Value(a))
                    } else {
                        Err(Error::Value(ValueError::TypeMismatch(String::new())))
                    }
                },
            }
        },
        UnaryOperator::Minus => {
            match &a {
                Value::Null => Ok(Evaluated::Value(Value::Null)),
                Value::Decimal(d) => Ok(
                    Evaluated::Value(Value::Decimal(crate::decimal::dec_neg(*d))),
                ),
                _ => {
                    match crate::arith::int_sm(&a) {
                        Some(s) => match crate::arith::make_int_exec(
                            s.signed,
                            s.rank,
                            !s.neg && s.mag > 0,
                            s.mag,
                        ) {
                            Ok(w) => Ok(Evaluated::Value(w)),
                            Err(e) => Err(e),
                        },
                        None => Err(Error::Value(ValueError::TypeMismatch(String::new()))),
                    }
                },
            }
        },
        UnaryOperator::Not => {
            match value_as_bool(&a) {
                Some(b) => Ok(Evaluated::Value(Value::Bool(!b))),
                None => Err(bool_required()),
            }
        },
    }
}

/// What `BETWEEN` owes: the value model's order decides, negation is the
/// exact complement, and operands the order does not cover fail.
pub open spec fn spec_between(
    target: EvaluatedV,
    negated: bool,
    low: EvaluatedV,
    high: EvaluatedV,
) -> EvalOutcome {
    match (
        spec_evaluated_to_value(target),
        spec_evaluated_to_value(low),
        spec_evaluated_to_value(high),
    ) {
        (Some(t), Some(lo), Some(hi)) => {
            if spec_value_cmp(lo, t) is None || spec_value_cmp(t, hi) is None {
                EvalOutcome::TypeMismatch
            } else {
                let in_range = (spec_value_cmp(lo, t) != Some(Cmp::Gt)) && (spec_value_cmp(t, hi)
                    != Some(Cmp::Gt));
                EvalOutcome::Val(ValueV::Bool(negated != in_range))
            }
        },
        _ => EvalOutcome::ParseFail,
    }
}

/// Decides `target BETWEEN low AND high`, negated when asked.
pub fn between(target: Evaluated, negated: bool, low: Evaluated, high: Evaluated) -> (r: Result<
    Evaluated,
    Error,
>)
    requires
        evaluated_wf(target@),
        evaluated_wf(low@),
        evaluated_wf(high@),
    ensures
        eval_matches(spec_between(target@, negated, low@, high@), r),
{
    let t = match evaluated_to_value(&target) {
        Ok(v) => v,
        Err(e) => {
            return Err(e);
        },
    };
    let lo = match evaluated_to_value(&low) {
        Ok(v) => v,
        Err(e) => {
            return Err(e);
        },
    };
    let hi = match evaluated_to_value(&high) {
        Ok(v) => v,
        Err(e) => {
            return Err(e);
        },
    };
    let c1 = value_cmp(&lo, &t);
    let c2 = value_cmp(&t, &hi);
    match (c1, c2) {
        (Some(x), Some(y)) => {
            let in_range = !matches!(x, Cmp::Gt) && !matches!(y, Cmp::Gt);
            Ok(Evaluated::Value(Value::Bool(negated != in_range)))
        },
        _ => Err(Error::Value(ValueError::TypeMismatch(String::new()))),
    }
}

/// What a case expression owes: an evaluation result carried out, or a
/// named failure.
pub enum CaseOutcome {
    Ev(EvaluatedV),
    ParseFail,
    BoolRequired,
}

pub open spec fn case_matches(c: CaseOutcome, r: Result<Evaluated, Error>) -> bool {
    match c {
        CaseOutcome::Ev(e) => r is Ok && r->Ok_0@ == e,
        CaseOutcome::ParseFail => r matches Err(
            Error::Value(ValueError::FailedToParseLiteral(_)),
        ),
        CaseOutcome::BoolRequired => r matches Err(
            Error::Evaluate(EvaluateError::BooleanTypeRequired(m)),
        ) && m@ == seq!['C', 'A', 'S', 'E'],
    }
}

/// Whether a branch's `when` matches the operand: both must read as
/// values and compare equal under the value model.  An operand or a
/// branch that does not read as a value (a number literal with an
/// unreadable text) matches nothing; it is never an error here.
pub open spec fn branch_matches(operand: EvaluatedV, w: EvaluatedV) -> bool {
    match (spec_evaluated_to_value(operand), spec_evaluated_to_value(w)) {
        (Some(a), Some(wv)) => spec_value_eq(wv, a),
        _ => false,
    }
}

/// The first branch whose `when` matches the operand wins; with none,
/// the `else` result, else `Null`.  Total: there is no error case.
pub open spec fn spec_simple_case(
    operand: EvaluatedV,
    pairs: Seq<(EvaluatedV, EvaluatedV)>,
    els: Option<EvaluatedV>,
) -> EvaluatedV
    decreases pairs.len(),
{
    if pairs.len() == 0 {
        match els {
            Some(e) => e,
            None => EvaluatedV::Value(ValueV::Null),
        }
    } else if branch_matches(operand, pairs[0].0) {
        pairs[0].1
    } else {
        spec_simple_case(operand, pairs.skip(1), els)
    }
}

/// The first matching branch decides: where branch `i` matches and no
/// earlier branch does, the case returns exactly branch `i`'s result,
/// whatever stands after it.
pub proof fn lemma_simple_case_first_match(
    operand: EvaluatedV,
    pairs: Seq<(EvaluatedV, EvaluatedV)>,
    els: Option<EvaluatedV>,
    i: int,
)
    requires
        0 <= i < pairs.len(),
        branch_matches(operand, pairs[i].0),
        forall|j: int| 0 <= j < i ==> !branch_matches(operand, (#[trigger] pairs[j]).0),
    ensures
        spec_simple_case(operand, pairs, els) == pairs[i].1,
    decreases i,
{
    if i == 0 {
    } else {
        assert(!branch_matches(operand, pairs[0].0));
        assert(forall|j: int|
            0 <= j < i - 1 ==> #[trigger] pairs.skip(1)[j] == pairs[j + 1] && !branch_matches(
                operand,
                pairs[j + 1].0,
            ));
        assert(pairs.skip(1)[i - 1] == pairs[i]);
        lemma_simple_case_first_match(operand, pairs.skip(1), els, i - 1);
    }
}

/// The shapes of a branch list.
pub open spec fn pairs_view(wt: Seq<(Evaluated, Evaluated)>) -> Seq<(EvaluatedV, EvaluatedV)> {
    Seq::new(wt.len(), |i: int| if 0 <= i < wt.len() { (wt[i].0@, wt[i].1@) } else { (EvaluatedV::Value(ValueV::Null), EvaluatedV::Value(ValueV::Null)) })
}

pub open spec fn pairs_wf(ps: Seq<(EvaluatedV, EvaluatedV)>) -> bool {
    forall|i: int|
        0 <= i < ps.len() ==> evaluated_wf(#[trigger] ps[i].0) && evaluated_wf(ps[i].1)
}

pub open spec fn opt_view(e: Option<Evaluated>) -> Option<EvaluatedV> {
    match e {
        Some(ev) => Some(ev@),
        None => None,
    }
}

/// Scans `(when, then)` branches and returns the first whose `when`
/// equals the operand; equality, not pattern match, the first match
/// wins, and no input is an error: an unreadable literal is a non-match.
pub fn simple_case(
    operand: Evaluated,
    when_then: Vec<(Evaluated, Evaluated)>,
    else_result: Option<Evaluated>,
) -> (r: Result<Evaluated, Error>)
    requires
        evaluated_wf(operand@),
        pairs_wf(pairs_view(when_then@)),
    ensures
        r is Ok,
        r->Ok_0@ == spec_simple_case(operand@, pairs_view(when_then@), opt_view(else_result)),
{
    let ghost pv = pairs_view(when_then@);
    let a_opt: Option<Value> = match evaluated_to_value(&operand) {
        Ok(v) => Some(v),
        Err(_) => None,
    };
    let mut i: usize = 0;
    proof {
        assert(pv.skip(0) =~= pv);
    }
    while i < when_then.len()
        invariant
            i <= when_then@.len(),
            pv == pairs_view(when_then@),
            pairs_wf(pv),
            match a_opt {
                Some(a) => spec_evaluated_to_value(operand@) == Some(a@) && value_wf(a@),
                None => spec_evaluated_to_value(operand@) is None,
            },
            spec_simple_case(operand@, pv.skip(i as int), opt_view(else_result))
                == spec_simple_case(operand@, pv, opt_view(else_result)),
        decreases when_then@.len() - i,
    {
        proof {
            assert(pv.skip(i as int)[0] == pv[i as int]);
            assert(pv.skip(i as int).skip(1) =~= pv.skip(i + 1));
        }
        match evaluated_to_value(&when_then[i].0) {
            Ok(w) => {
                match &a_opt {
                    Some(a) => {
                        if value_eq(&w, a) {
                            proof {
                                assert(branch_matches(operand@, pv[i as int].0));
                            }
                            return Ok(evaluated_clone(&when_then[i].1));
                        }
                    },
                    None => {},
                }
            },
            Err(_) => {},
        }
        proof {
            assert(!branch_matches(operand@, pv[i as int].0));
        }
        i = i + 1;
    }
    proof {
        assert(pv.skip(when_then@.len() as int) =~= Seq::<(EvaluatedV, EvaluatedV)>::empty());
    }
    match else_result {
        Some(result) => Ok(result),
        None => Ok(Evaluated::Value(Value::Null)),
    }
}

/// The first branch whose condition is true wins; a non-boolean condition
/// is a fatal error, not falsehood.
pub open spec fn spec_searched_case_rec(
    pairs: Seq<(EvaluatedV, EvaluatedV)>,
    els: Option<EvaluatedV>,
) -> CaseOutcome
    decreases pairs.len(),
{
    if pairs.len() == 0 {
        match els {
            Some(e) => CaseOutcome::Ev(e),
            None => CaseOutcome::Ev(EvaluatedV::Value(ValueV::Null)),
        }
    } else {
        match spec_evaluated_to_value(pairs[0].0) {
            Some(ValueV::Bool(true)) => CaseOutcome::Ev(pairs[0].1),
            Some(ValueV::Bool(false)) => spec_searched_case_rec(pairs.skip(1), els),
            Some(_) => CaseOutcome::BoolRequired,
            None => CaseOutcome::ParseFail,
        }
    }
}

/// Scans `(condition, result)` branches; each condition must evaluate to
/// a boolean, and the first true one wins.
pub fn searched_case(
    when_then: Vec<(Evaluated, Evaluated)>,
    else_result: Option<Evaluated>,
) -> (r: Result<Evaluated, Error>)
    requires
        pairs_wf(pairs_view(when_then@)),
    ensures
        case_matches(spec_searched_case_rec(pairs_view(when_then@), opt_view(else_result)), r),
{
    let ghost pv = pairs_view(when_then@);
    let mut i: usize = 0;
    proof {
        assert(pv.skip(0) =~= pv);
    }
    while i < when_then.len()
        invariant
            i <= when_then@.len(),
            pv == pairs_view(when_then@),
            pairs_wf(pv),
            spec_searched_case_rec(pv.skip(i as int), opt_view(else_result))
                == spec_searched_case_rec(pv, opt_view(else_result)),
        decreases when_then@.len() - i,
    {
        proof {
            assert(pv.skip(i as int)[0] == pv[i as int]);
            assert(pv.skip(i as int).skip(1) =~= pv.skip(i + 1));
        }
        let w = match evaluated_to_value(&when_then[i].0) {
            Ok(v) => v,
            Err(e) => {
                return Err(e);
            },
        };
        match w {
            Value::Bool(v) => {
                if v {
                    return Ok(evaluated_clone(&when_then[i].1));
                }
            },
            _ => {
                return Err(
                    Error::Evaluate(
                        EvaluateError::BooleanTypeRequired(
                            {
                                proof {
                                    reveal_strlit("CASE");
                                    assert("CASE"@ =~= seq!['C', 'A', 'S', 'E']);
                                }
                                "CASE".to_owned()
                            },
                        ),
                    ),
                );
            },
        }
        i = i + 1;
    }
    proof {
        assert(pv.skip(when_then@.len() as int) =~= Seq::<(EvaluatedV, EvaluatedV)>::empty());
    }
    match else_result {
        Some(result) => Ok(result),
        None => Ok(Evaluated::Value(Value::Null)),
    }
}

/// Negated `BETWEEN` is the exact logical complement of the plain form,
/// operand for operand, wherever the plain form yields a boolean.
pub proof fn lemma_between_complement(
    target: EvaluatedV,
    low: EvaluatedV,
    high: EvaluatedV,
)
    ensures
        match spec_between(target, false, low, high) {
            EvalOutcome::Val(ValueV::Bool(b)) => spec_between(target, true, low, high)
                == EvalOutcome::Val(ValueV::Bool(!b)),
            _ => spec_between(target, true, low, high) == spec_between(
                target,
                false,
                low,
                high,
            ),
        },
{
}

} // verus!