use gluesql::error::{Error, EvaluateError, ValueError};
use gluesql::evaluate::{
    between, binary_op, literal, searched_case, simple_case, typed_string, unary_op,
    BinaryOperator, Evaluated, UnaryOperator,
};
use gluesql::literal::{AstLiteral, DataType, Literal};
use gluesql::value::Value;

fn num(s: &str) -> Evaluated {
    Evaluated::Literal(Literal::Number(s.to_owned()))
}

fn val(v: Value) -> Evaluated {
    Evaluated::Value(v)
}

fn as_bool(e: Result<Evaluated, Error>) -> bool {
    match e.expect("evaluation should succeed") {
        Evaluated::Value(Value::Bool(b)) => b,
        other => panic!("expected a boolean, got {:?}", other),
    }
}

#[test]
fn literal_carries_the_token_through() {
    let e = literal(&AstLiteral::Number("42".to_owned())).unwrap();
    assert!(matches!(e, Evaluated::Literal(Literal::Number(_))));
    let e = literal(&AstLiteral::HexString("0z".to_owned()));
    assert!(matches!(
        e,
        Err(Error::Value(ValueError::FailedToParseLiteral(_)))
    ));
}

#[test]
fn typed_string_coerces() {
    let e = typed_string(&DataType::Int, "42".to_owned()).unwrap();
    match e {
        Evaluated::Value(Value::I64(n)) => assert_eq!(n, 42),
        other => panic!("expected an integer, got {:?}", other),
    }
}

#[test]
fn binary_comparisons() {
    assert!(as_bool(binary_op(&BinaryOperator::Lt, num("1"), num("2"))));
    assert!(as_bool(binary_op(&BinaryOperator::GtEq, num("2"), num("2"))));
    assert!(as_bool(binary_op(&BinaryOperator::Eq, num("2"), val(Value::I64(2)))));
    assert!(as_bool(binary_op(&BinaryOperator::NotEq, num("2"), num("3"))));
    // incomparable kinds are unequal, not an error, for the comparisons
    assert!(!as_bool(binary_op(
        &BinaryOperator::Lt,
        val(Value::Bool(true)),
        num("3"),
    )));
}

#[test]
fn logical_operators_demand_booleans() {
    assert!(as_bool(binary_op(
        &BinaryOperator::And,
        val(Value::Bool(true)),
        val(Value::Bool(true)),
    )));
    assert!(as_bool(binary_op(
        &BinaryOperator::Or,
        val(Value::Bool(false)),
        val(Value::Bool(true)),
    )));
    let r = binary_op(&BinaryOperator::And, num("1"), val(Value::Bool(true)));
    assert!(matches!(
        r,
        Err(Error::Evaluate(EvaluateError::BooleanTypeRequired(_)))
    ));
}

#[test]
fn like_and_not_like() {
    let t = || val(Value::Str("hello".to_owned()));
    let p = || val(Value::Str("h%o".to_owned()));
    assert!(as_bool(binary_op(&BinaryOperator::Like, t(), p())));
    assert!(!as_bool(binary_op(&BinaryOperator::NotLike, t(), p())));
    let q = || val(Value::Str("h_llo".to_owned()));
    assert!(as_bool(binary_op(&BinaryOperator::Like, t(), q())));
    let r = || val(Value::Str("z%".to_owned()));
    assert!(!as_bool(binary_op(&BinaryOperator::Like, t(), r())));
}

#[test]
fn unary_operators() {
    let r = unary_op(&UnaryOperator::Minus, val(Value::I64(5))).unwrap();
    assert!(matches!(r, Evaluated::Value(Value::I64(-5))));
    let r = unary_op(&UnaryOperator::Plus, val(Value::I64(5))).unwrap();
    assert!(matches!(r, Evaluated::Value(Value::I64(5))));
    let r = unary_op(&UnaryOperator::Plus, val(Value::Str("x".to_owned())));
    assert!(matches!(r, Err(Error::Value(ValueError::TypeMismatch(_)))));
    assert!(!as_bool(unary_op(&UnaryOperator::Not, val(Value::Bool(true)))));
    let r = unary_op(&UnaryOperator::Not, val(Value::Null));
    assert!(matches!(
        r,
        Err(Error::Evaluate(EvaluateError::BooleanTypeRequired(_)))
    ));
}

#[test]
fn between_follows_the_order_and_negation_is_the_complement() {
    // low <= target <= high
    assert!(as_bool(between(num("2"), false, num("1"), num("3"))));
    assert!(as_bool(between(num("1"), false, num("1"), num("3"))));
    assert!(as_bool(between(num("3"), false, num("1"), num("3"))));
    assert!(!as_bool(between(num("0"), false, num("1"), num("3"))));
    assert!(!as_bool(between(num("4"), false, num("1"), num("3"))));
    // negated: the exact complement, case by case
    assert!(!as_bool(between(num("2"), true, num("1"), num("3"))));
    assert!(as_bool(between(num("0"), true, num("1"), num("3"))));
    // operands outside the order fail as a whole
    let r = between(val(Value::Bool(true)), false, num("1"), num("3"));
    assert!(matches!(r, Err(Error::Value(ValueError::TypeMismatch(_)))));
}

#[test]
fn simple_case_returns_the_first_match() {
    let operand = val(Value::I64(2));
    let when_then = vec![
        (num("1"), val(Value::Str("one".to_owned()))),
        (num("2"), val(Value::Str("two".to_owned()))),
        (num("2"), val(Value::Str("second two".to_owned()))),
    ];
    let r = simple_case(operand, when_then, None).unwrap();
    match r {
        Evaluated::Value(Value::Str(s)) => assert_eq!(s, "two"),
        other => panic!("expected the first match, got {:?}", other),
    }
    // no match falls back to the else branch, then to null
    let r = simple_case(val(Value::I64(9)), vec![], Some(val(Value::I64(7)))).unwrap();
    assert!(matches!(r, Evaluated::Value(Value::I64(7))));
    let r = simple_case(val(Value::I64(9)), vec![], None).unwrap();
    assert!(matches!(r, Evaluated::Value(Value::Null)));
}

#[test]
fn simple_case_never_fails_on_unreadable_literals() {
    // an operand whose number text is unreadable matches nothing: the
    // scan falls through to the else branch without an error
    let operand = num("not a number");
    let when_then = vec![(num("1"), val(Value::Str("one".to_owned())))];
    let r = simple_case(operand, when_then, Some(val(Value::I64(9)))).unwrap();
    assert!(matches!(r, Evaluated::Value(Value::I64(9))));
    // and without an else branch, the result is null
    let r = simple_case(num("not a number"), vec![], None).unwrap();
    assert!(matches!(r, Evaluated::Value(Value::Null)));
    // an unreadable earlier branch is a non-match, not an abort: the
    // scan continues to the later matching branch
    let operand = val(Value::I64(2));
    let when_then = vec![
        (num("broken"), val(Value::Str("never".to_owned()))),
        (num("2"), val(Value::Str("two".to_owned()))),
    ];
    let r = simple_case(operand, when_then, None).unwrap();
    match r {
        Evaluated::Value(Value::Str(s)) => assert_eq!(s, "two"),
        other => panic!("expected the later match, got {:?}", other),
    }
}

#[test]
fn searched_case_demands_boolean_conditions() {
    let when_then = vec![
        (val(Value::Bool(false)), num("1")),
        (val(Value::Str("not a boolean".to_owned())), num("2")),
        (val(Value::Bool(true)), num("3")),
    ];
    let r = searched_case(when_then, None);
    assert!(matches!(
        r,
        Err(Error::Evaluate(EvaluateError::BooleanTypeRequired(_)))
    ));

    let when_then = vec![
        (val(Value::Bool(false)), num("1")),
        (val(Value::Bool(true)), num("2")),
        (val(Value::Bool(true)), num("3")),
    ];
    let r = searched_case(when_then, None).unwrap();
    match r {
        Evaluated::Literal(Literal::Number(s)) => assert_eq!(s, "2"),
        other => panic!("expected the first true branch, got {:?}", other),
    }
}
