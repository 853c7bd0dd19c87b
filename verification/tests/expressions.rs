//! Tests of the expression parser and the value model.
use design_tokens::parser::parse_expression;
use design_tokens::{ColorValue, Decimal, Expression, NumberType, Value};

fn num(neg: bool, mantissa: u128, scale: u32) -> Expression {
    Expression::Value(Value::Number(Decimal { neg, mantissa, scale }, NumberType::Bare))
}

fn num_t(neg: bool, mantissa: u128, scale: u32, t: NumberType) -> Expression {
    Expression::Value(Value::Number(Decimal { neg, mantissa, scale }, t))
}

#[test]
fn expression_test() {
    assert_eq!(
        parse_expression("{hello.world}").unwrap(),
        Expression::Ref(vec!["hello".to_string(), "world".to_string()])
    );
    let expected = csscolorparser::parse("#ff00ff").unwrap().to_rgba8();
    assert_eq!(
        parse_expression("#ff00ff").unwrap(),
        Expression::Value(Value::Color(ColorValue {
            r: expected[0],
            g: expected[1],
            b: expected[2],
            a: expected[3],
        }))
    );
    assert_eq!(
        parse_expression("90%").unwrap(),
        num_t(false, 90, 0, NumberType::Percentage)
    );
    assert_eq!(
        parse_expression("-90%").unwrap(),
        num_t(true, 90, 0, NumberType::Percentage)
    );
    assert_eq!(
        parse_expression("ABC Diatype Variable").unwrap(),
        Expression::Value(Value::Any("ABC Diatype Variable".to_string()))
    );
    assert_eq!(
        parse_expression("232.8300018310547").unwrap(),
        num(false, 2328300018310547, 13)
    );
    assert_eq!(
        parse_expression("2px").unwrap(),
        num_t(false, 2, 0, NumberType::Pixels)
    );
    assert_eq!(
        parse_expression("{x} * {y}").unwrap(),
        Expression::Mul(
            Box::new(Expression::Ref(vec!["x".to_string()])),
            Box::new(Expression::Ref(vec!["y".to_string()])),
        )
    );
    assert_eq!(
        parse_expression("{x}/5").unwrap(),
        Expression::Div(
            Box::new(Expression::Ref(vec!["x".to_string()])),
            Box::new(num(false, 5, 0)),
        )
    );
}

#[test]
fn parse_separator_styles_agree() {
    let dotted = parse_expression("{a.b}").unwrap();
    let slashed = parse_expression("{a/b}").unwrap();
    let expected = Expression::Ref(vec!["a".to_string(), "b".to_string()]);
    assert_eq!(dotted, expected);
    assert_eq!(slashed, expected);
    assert_eq!(
        parse_expression("{a.b/c}").unwrap(),
        Expression::Ref(vec!["a".to_string(), "b".to_string(), "c".to_string()])
    );
}

#[test]
fn parse_number_roundtrip_display() {
    let e = parse_expression("90%").unwrap();
    match &e {
        Expression::Value(v) => {
            assert_eq!(v.to_css(), "90%");
            assert_eq!(parse_expression(&v.to_css()).unwrap(), e);
        }
        _ => panic!("expected a literal"),
    }
    let e = parse_expression("-12.5px").unwrap();
    match &e {
        Expression::Value(v) => {
            assert_eq!(v.to_css(), "-12.5px");
            assert_eq!(parse_expression(&v.to_css()).unwrap(), e);
        }
        _ => panic!("expected a literal"),
    }
}

#[test]
fn parse_color_roundtrip_display() {
    let e = parse_expression("#ff00ff").unwrap();
    match &e {
        Expression::Value(v) => {
            assert_eq!(v.to_css(), "#ff00ff");
            assert_eq!(parse_expression(&v.to_css()).unwrap(), e);
        }
        _ => panic!("expected a literal"),
    }
    let e = parse_expression("#11223344").unwrap();
    match &e {
        Expression::Value(v) => {
            assert_eq!(v.to_css(), "#11223344");
            assert_eq!(parse_expression(&v.to_css()).unwrap(), e);
        }
        _ => panic!("expected a literal"),
    }
}

#[test]
fn parse_short_hex_forms() {
    assert_eq!(
        parse_expression("#f0f").unwrap(),
        Expression::Value(Value::Color(ColorValue { r: 255, g: 0, b: 255, a: 255 }))
    );
    assert_eq!(
        parse_expression("#f0f8").unwrap(),
        Expression::Value(Value::Color(ColorValue { r: 255, g: 0, b: 255, a: 136 }))
    );
}

#[test]
fn parse_fallback_and_faults() {
    assert_eq!(
        parse_expression("90% extra").unwrap(),
        Expression::Value(Value::Any("90% extra".to_string()))
    );
    assert_eq!(
        parse_expression("#zz").unwrap(),
        Expression::Value(Value::Any("#zz".to_string()))
    );
    assert_eq!(
        parse_expression("").unwrap(),
        Expression::Value(Value::Any("".to_string()))
    );
    match parse_expression("{unclosed") {
        Err(design_tokens::Error::Parse(t)) => assert_eq!(t, "{unclosed"),
        other => panic!("expected a parse fault, got {:?}", other),
    }
    assert!(parse_expression("a_b").is_err());
}

#[test]
fn number_display_rules() {
    let d = Decimal { neg: false, mantissa: 90, scale: 0 };
    assert_eq!(NumberType::Percentage.to_css(&d), "90%");
    assert_eq!(NumberType::Percentage.to_rust(&d), "0.9");
    let whole = Decimal { neg: false, mantissa: 100, scale: 0 };
    assert_eq!(NumberType::Percentage.to_rust(&whole), "1.");
    assert_eq!(NumberType::Bare.to_rust(&whole), "100.");
    assert_eq!(NumberType::Pixels.to_css(&whole), "100px");
    let frac = Decimal { neg: true, mantissa: 5, scale: 3 };
    assert_eq!(NumberType::Bare.to_css(&frac), "-0.005");
}

#[test]
fn value_texts() {
    let c = Value::Color(ColorValue { r: 255, g: 0, b: 255, a: 255 });
    assert_eq!(c.to_css(), "#ff00ff");
    assert_eq!(c.to_rust(), "\"#ff00ff\"");
    assert_eq!(c.to_rust_type(), "&'static str");
    assert_eq!(c.to_rust_string(), "\"#ff00ff\"");
    let n = Value::Number(Decimal { neg: false, mantissa: 25, scale: 1 }, NumberType::Bare);
    assert_eq!(n.to_css(), "2.5");
    assert_eq!(n.to_rust(), "2.5");
    assert_eq!(n.to_rust_type(), "f32");
    assert_eq!(n.to_rust_string(), "\"2.5\"");
    let a = Value::Any("keep me".to_string());
    assert_eq!(a.to_css(), "keep me");
    assert_eq!(a.to_rust(), "\"keep me\"");
}

#[test]
fn value_arithmetic_policy() {
    let two_px = Value::Number(Decimal { neg: false, mantissa: 2, scale: 0 }, NumberType::Pixels);
    let three = Value::Number(Decimal { neg: false, mantissa: 3, scale: 0 }, NumberType::Bare);
    let r = two_px.mul(&three).unwrap();
    assert_eq!(
        r,
        Value::Number(Decimal { neg: false, mantissa: 6, scale: 0 }, NumberType::Pixels)
    );
    let gray = Value::Color(ColorValue { r: 128, g: 128, b: 128, a: 255 });
    let prod = gray.mul(&gray).unwrap();
    assert_eq!(prod, Value::Color(ColorValue { r: 64, g: 64, b: 64, a: 255 }));
    match two_px.mul(&gray) {
        Err(design_tokens::Error::TypeMismatch) => {}
        other => panic!("expected a type mismatch, got {:?}", other),
    }
    let zero = Value::Number(Decimal { neg: false, mantissa: 0, scale: 0 }, NumberType::Bare);
    match three.div(&zero) {
        Err(design_tokens::Error::DivideByZero) => {}
        other => panic!("expected a division fault, got {:?}", other),
    }
    let ten = Value::Number(Decimal { neg: false, mantissa: 10, scale: 0 }, NumberType::Bare);
    let five = Value::Number(Decimal { neg: false, mantissa: 5, scale: 0 }, NumberType::Bare);
    assert_eq!(
        ten.div(&five).unwrap(),
        Value::Number(Decimal { neg: false, mantissa: 2, scale: 0 }, NumberType::Bare)
    );
    let one = Value::Number(Decimal { neg: false, mantissa: 1, scale: 0 }, NumberType::Bare);
    assert_eq!(
        one.div(&three).unwrap(),
        Value::Number(
            Decimal { neg: false, mantissa: 333333333333, scale: 12 },
            NumberType::Bare
        )
    );
    let huge = Value::Number(
        Decimal { neg: false, mantissa: u128::MAX / 2, scale: 0 },
        NumberType::Bare,
    );
    match huge.mul(&huge) {
        Err(design_tokens::Error::Overflow) => {}
        other => panic!("expected an overflow fault, got {:?}", other),
    }
}

#[test]
fn parse_normalizes_decimals() {
    assert_eq!(parse_expression("2.50").unwrap(), num(false, 25, 1));
    assert_eq!(parse_expression("5.").unwrap(), num(false, 5, 0));
    assert_eq!(parse_expression("-0").unwrap(), num(false, 0, 0));
    assert_eq!(parse_expression("007").unwrap(), num(false, 7, 0));
}
