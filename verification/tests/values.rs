use gluesql::array_value::ArrayValue;
use gluesql::decimal::Dec;
use gluesql::error::{Error, ValueError};
use gluesql::json::Json;
use gluesql::literal::{DataType, Literal};
use gluesql::value::Value;

fn render_json(j: &Json) -> String {
    gluesql::json::json_to_string(j)
}

fn coerce(dt: DataType, lit: Literal) -> Value {
    Value::try_from_literal(&dt, &lit).expect("coercion should succeed")
}

fn json_of(dt: DataType, text: &str) -> String {
    let v = coerce(dt, Literal::Text(text.to_owned()));
    let j = gluesql::json::value_to_json(&v).expect("export should succeed");
    render_json(&j)
}

#[test]
fn literal_to_json_is_stable_and_deterministic() {
    let cases: Vec<(DataType, &str, &str)> = vec![
        (DataType::Boolean, "true", "true"),
        (DataType::Int8, "-12", "-12"),
        (DataType::Int16, "300", "300"),
        (DataType::Int32, "70000", "70000"),
        (DataType::Int, "9007199254740993", "9007199254740993"),
        (
            DataType::Int128,
            "170141183460469231731687303715884105727",
            "170141183460469231731687303715884105727",
        ),
        (DataType::Uint8, "255", "255"),
        (DataType::Uint16, "65535", "65535"),
        (DataType::Uint32, "4294967295", "4294967295"),
        (DataType::Uint64, "18446744073709551615", "18446744073709551615"),
        (
            DataType::Uint128,
            "340282366920938463463374607431768211455",
            "340282366920938463463374607431768211455",
        ),
        (DataType::Decimal, "0.300", "0.300"),
        (DataType::Text, "hello", "\"hello\""),
        (DataType::Bytea, "0a1f", "[10,31]"),
        (DataType::Inet, "192.168.0.1", "\"192.168.0.1\""),
        (DataType::Date, "2024-02-29", "\"2024-02-29\""),
        (
            DataType::Timestamp,
            "2024-02-29 23:59:58",
            "\"2024-02-29 23:59:58 UTC\"",
        ),
        (DataType::Time, "23:59:58", "\"23:59:58\""),
        (
            DataType::Uuid,
            "936da01f-9abd-4d9d-80c7-02af85c822a8",
            "\"936da01f-9abd-4d9d-80c7-02af85c822a8\"",
        ),
    ];
    for (dt, input, expected) in cases {
        let first = json_of(dt, input);
        let second = json_of(dt, input);
        assert_eq!(first, expected);
        assert_eq!(first, second);
        // the emitted text is well-formed JSON
        assert!(serde_json::from_str::<serde_json::Value>(&first).is_ok());
    }
}

#[test]
fn decimal_addition_is_exact() {
    let a = coerce(DataType::Decimal, Literal::Text("0.1".to_owned()));
    let b = coerce(DataType::Decimal, Literal::Text("0.2".to_owned()));
    let sum = gluesql::arith::value_arith(gluesql::arith::ArithOp::Add, &a, &b)
        .expect("exact addition");
    match sum {
        Value::Decimal(d) => assert_eq!(d, Dec { m: 3, s: 1 }),
        other => panic!("expected a decimal, got {:?}", other),
    }
    // and it is exactly three tenths under the value model's equality
    let c = coerce(DataType::Decimal, Literal::Text("0.3".to_owned()));
    let sum = gluesql::arith::value_arith(gluesql::arith::ArithOp::Add, &a, &b).unwrap();
    assert!(gluesql::value::value_eq(&sum, &c));
}

#[test]
fn addition_is_commutative_on_integers() {
    let cases = vec![
        (Value::I8(7), Value::I64(100)),
        (Value::U8(200), Value::I32(-100)),
        (Value::U128(5), Value::U64(6)),
    ];
    for (a, b) in cases {
        let x = gluesql::arith::value_arith(gluesql::arith::ArithOp::Add, &a, &b).unwrap();
        let y = gluesql::arith::value_arith(gluesql::arith::ArithOp::Add, &b, &a).unwrap();
        assert!(gluesql::value::value_eq(&x, &y));
    }
}

#[test]
fn coercion_failures_are_typed() {
    let r = Value::try_from_literal(&DataType::Int8, &Literal::Text("300".to_owned()));
    assert!(matches!(r, Err(Error::Value(ValueError::ValueOutOfRange(_)))));
    let r = Value::try_from_literal(&DataType::Int, &Literal::Text("twelve".to_owned()));
    assert!(matches!(
        r,
        Err(Error::Value(ValueError::FailedToParseLiteral(_)))
    ));
    let r = Value::try_from_literal(&DataType::Interval, &Literal::Text("1".to_owned()));
    assert!(matches!(
        r,
        Err(Error::Value(ValueError::UnsupportedLiteral(_)))
    ));
    let r = Value::try_from_literal(&DataType::Date, &Literal::Text("2023-02-29".to_owned()));
    assert!(matches!(
        r,
        Err(Error::Value(ValueError::FailedToParseLiteral(_)))
    ));
}

#[test]
fn extreme_width_literals_coerce() {
    // the lowest 128-bit value is admitted, not reported out of range
    let v = coerce(
        DataType::Int128,
        Literal::Text("-170141183460469231731687303715884105728".to_owned()),
    );
    assert!(matches!(v, Value::I128(i128::MIN)));
    let r = Value::try_from_literal(
        &DataType::Int128,
        &Literal::Text("-170141183460469231731687303715884105729".to_owned()),
    );
    assert!(matches!(r, Err(Error::Value(ValueError::ValueOutOfRange(_)))));
}

#[test]
fn canonical_v6_addresses_coerce_and_round_trip() {
    let text = "2001:0db8:0000:0000:0000:0000:0000:0001";
    let v = coerce(DataType::Inet, Literal::Text(text.to_owned()));
    assert!(matches!(v, Value::Inet(_)));
    let j = gluesql::json::value_to_json(&v).unwrap();
    assert_eq!(render_json(&j), format!("\"{}\"", text));
}

#[test]
fn division_by_zero_is_its_own_error() {
    let r = gluesql::arith::value_arith(
        gluesql::arith::ArithOp::Div,
        &Value::I64(1),
        &Value::I64(0),
    );
    assert!(matches!(
        r,
        Err(Error::Value(ValueError::DivisorShouldNotBeZero))
    ));
    let r = gluesql::arith::value_arith(
        gluesql::arith::ArithOp::Rem,
        &Value::Decimal(Dec { m: 1, s: 0 }),
        &Value::Decimal(Dec { m: 0, s: 0 }),
    );
    assert!(matches!(
        r,
        Err(Error::Value(ValueError::DivisorShouldNotBeZero))
    ));
}

#[test]
fn arithmetic_overflow_is_reported() {
    let r = gluesql::arith::value_arith(
        gluesql::arith::ArithOp::Add,
        &Value::I8(127),
        &Value::I8(1),
    );
    assert!(matches!(r, Err(Error::Value(ValueError::Overflow(_)))));
}

#[test]
fn type_mismatch_is_reported() {
    let r = gluesql::arith::value_arith(
        gluesql::arith::ArithOp::Add,
        &Value::Bool(true),
        &Value::I8(1),
    );
    assert!(matches!(r, Err(Error::Value(ValueError::TypeMismatch(_)))));
}

#[test]
fn null_propagates_through_arithmetic() {
    let r = gluesql::arith::value_arith(
        gluesql::arith::ArithOp::Mul,
        &Value::Null,
        &Value::I8(1),
    )
    .unwrap();
    assert!(matches!(r, Value::Null));
}

#[test]
fn array_json_export() {
    let a = ArrayValue::I32(vec![1, 2, 3]);
    assert_eq!(a.get_type(), DataType::Int32);
    let j = gluesql::array_value::array_to_json(&a).unwrap();
    assert_eq!(render_json(&j), "[1,2,3]");

    let big = ArrayValue::I128(vec![170141183460469231731687303715884105727]);
    let j = gluesql::array_value::array_to_json(&big).unwrap();
    assert_eq!(render_json(&j), "[170141183460469231731687303715884105727]");

    let nested = ArrayValue::Array(vec![ArrayValue::U8(vec![7]), ArrayValue::Str(vec![
        "x".to_owned(),
    ])]);
    assert_eq!(nested.get_type(), DataType::Array);
    let j = gluesql::array_value::array_to_json(&nested).unwrap();
    assert_eq!(render_json(&j), "[[7],[\"x\"]]");

    let dicts = ArrayValue::Dict(vec![vec![("k".to_owned(), Value::I8(1))]]);
    assert_eq!(dicts.get_type(), DataType::Dict);
    let j = gluesql::array_value::array_to_json(&dicts).unwrap();
    assert_eq!(render_json(&j), "[{\"k\":1}]");
}

#[test]
fn uuid_text_round_trip() {
    let v = coerce(
        DataType::Uuid,
        Literal::Text("936da01f-9abd-4d9d-80c7-02af85c822a8".to_owned()),
    );
    match v {
        Value::Uuid(u) => {
            let j = gluesql::json::value_to_json(&Value::Uuid(u)).unwrap();
            assert_eq!(
                render_json(&j),
                "\"936da01f-9abd-4d9d-80c7-02af85c822a8\""
            );
        }
        other => panic!("expected an identifier, got {:?}", other),
    }
}
