use rlox::lox_object::{ClockFunc, LoxCallable, PrintFunc, RuntimeError, Values};
use rlox::number::SCALE;

fn num(x: i64) -> Values {
    Values::Number(x * SCALE)
}

fn text(s: &str) -> Values {
    Values::Str(s.as_bytes().to_vec())
}

fn rendered(v: &Values) -> String {
    String::from_utf8(v.render()).unwrap()
}

#[test]
fn addition_table() {
    assert_eq!(rendered(&num(2).add(num(3)).unwrap()), "5");
    assert_eq!(rendered(&text("a").add(text("b")).unwrap()), "ab");
    assert_eq!(rendered(&text("n=").add(num(2)).unwrap()), "n=2");
    assert_eq!(rendered(&num(1).add(text("x")).unwrap()), "1x");
    assert_eq!(rendered(&Values::Boolean(SCALE).add(num(2)).unwrap()), "3");
    assert_eq!(num(1).add(Values::Null).unwrap_err(), RuntimeError::TypeMismatch);
    assert_eq!(text("a").add(Values::Null).unwrap_err(), RuntimeError::TypeMismatch);
}

#[test]
fn subtraction_and_multiplication_are_numeric_only() {
    assert_eq!(rendered(&num(5).sub(num(3)).unwrap()), "2");
    assert_eq!(rendered(&num(5).mul(num(3)).unwrap()), "15");
    assert_eq!(rendered(&Values::Boolean(SCALE).mul(num(3)).unwrap()), "3");
    assert_eq!(text("a").sub(text("b")).unwrap_err(), RuntimeError::TypeMismatch);
    assert_eq!(text("a").mul(num(1)).unwrap_err(), RuntimeError::TypeMismatch);
}

#[test]
fn division_rejects_zero_divisor_first() {
    assert_eq!(num(1).div(num(0)).unwrap_err(), RuntimeError::DivisionByZero);
    assert_eq!(text("a").div(num(0)).unwrap_err(), RuntimeError::DivisionByZero);
    assert_eq!(rendered(&num(7).div(num(2)).unwrap()), "3.5");
    // A boolean divisor is not a `Number`, so the division itself is
    // refused, even for a truthy one.
    assert_eq!(num(1).div(Values::Boolean(SCALE)).unwrap_err(), RuntimeError::TypeMismatch);
}

#[test]
fn equality_is_same_variant_structural() {
    assert_eq!(rendered(&num(1).eq(&num(1))), "true");
    assert_eq!(rendered(&num(1).eq(&num(2))), "false");
    assert_eq!(rendered(&num(1).eq(&Values::Boolean(SCALE))), "false");
    assert_eq!(rendered(&Values::Null.eq(&Values::Null)), "true");
    assert_eq!(rendered(&text("a").neq(&text("b"))), "true");
}

#[test]
fn comparisons_order_numbers_booleans_and_text() {
    assert_eq!(rendered(&num(1).less(&num(2)).unwrap()), "true");
    assert_eq!(rendered(&num(2).greater_equal(&num(2)).unwrap()), "true");
    assert_eq!(rendered(&text("abc").less(&text("abd")).unwrap()), "true");
    assert_eq!(rendered(&text("ab").less_equal(&text("ab")).unwrap()), "true");
    assert_eq!(rendered(&text("b").greater(&text("ab")).unwrap()), "true");
    assert_eq!(num(1).less(&text("a")).unwrap_err(), RuntimeError::TypeMismatch);
}

#[test]
fn truthiness_rules() {
    assert!(num(1).is_truthy());
    assert!(!num(0).is_truthy());
    assert!(Values::Boolean(SCALE).is_truthy());
    assert!(!Values::Boolean(0).is_truthy());
    assert!(text("x").is_truthy());
    assert!(!text("").is_truthy());
    assert!(!Values::Null.is_truthy());
    assert!(Values::Fn(LoxCallable::Print(PrintFunc)).is_truthy());
}

#[test]
fn negation_and_complement() {
    assert_eq!(rendered(&num(3).negative().unwrap()), "-3");
    assert_eq!(text("a").negative().unwrap_err(), RuntimeError::TypeMismatch);
    assert_eq!(rendered(&Values::Boolean(0).not().unwrap()), "true");
    assert_eq!(rendered(&Values::Boolean(SCALE).not().unwrap()), "false");
    assert_eq!(num(1).not().unwrap_err(), RuntimeError::TypeMismatch);
    assert_eq!(rendered(&num(0).cast_to_boolean()), "false");
    assert_eq!(rendered(&Values::to_boolean(7)), "true");
}

#[test]
fn rendering_of_every_variant() {
    assert_eq!(rendered(&num(14)), "14");
    assert_eq!(rendered(&Values::Number(SCALE / 2)), "0.5");
    assert_eq!(rendered(&Values::Boolean(0)), "false");
    assert_eq!(rendered(&Values::Boolean(SCALE)), "true");
    assert_eq!(rendered(&Values::Null), "Null");
    assert_eq!(rendered(&text("hi")), "hi");
    assert_eq!(rendered(&Values::Fn(LoxCallable::Clock(ClockFunc::new()))), "A function");
}

#[test]
fn dup_preserves_the_value() {
    let v = text("shared");
    let w = v.dup();
    assert_eq!(rendered(&v), rendered(&w));
}
