use scheme_eval::environment::Environment;
use scheme_eval::error::{Context, EvalError};
use scheme_eval::eval::eval;
use scheme_eval::number::Number;
use scheme_eval::types::Expression;
use std::rc::Rc;

fn integer(i: i32) -> Rc<Expression> {
    Rc::new(Expression::Numeric(Number::Integer(i)))
}

fn float(x: f32) -> Rc<Expression> {
    Rc::new(Expression::Numeric(Number::Float(x.to_bits())))
}

fn boolean(b: bool) -> Rc<Expression> {
    Rc::new(Expression::Boolean(b))
}

fn id(name: &str) -> Rc<Expression> {
    Rc::new(Expression::Identifier(String::from(name)))
}

fn form(items: Vec<Rc<Expression>>) -> Rc<Expression> {
    Rc::new(Expression::SExpr(items))
}

fn run(expr: Rc<Expression>) -> Result<Rc<Expression>, EvalError> {
    let mut env = Environment::new(64);
    eval(expr, &mut env)
}

#[test]
fn integer_division_truncates() {
    assert_eq!(run(form(vec![id("/"), integer(7), integer(2)])), Ok(integer(3)));
    assert_eq!(run(form(vec![id("/"), integer(-7), integer(2)])), Ok(integer(-3)));
    assert_eq!(run(form(vec![id("/"), integer(7), integer(-2)])), Ok(integer(-3)));
    assert_eq!(run(form(vec![id("/"), integer(-7), integer(-2)])), Ok(integer(3)));
}

#[test]
fn float_division_is_exact_where_representable() {
    assert_eq!(run(form(vec![id("/"), float(7.0), integer(2)])), Ok(float(3.5)));
    assert_eq!(run(form(vec![id("/"), integer(7), float(2.0)])), Ok(float(3.5)));
}

#[test]
fn division_by_integer_zero_fails() {
    assert_eq!(run(form(vec![id("/"), integer(1), integer(0)])), Err(EvalError::DivisionByZero));
}

#[test]
fn division_by_float_zero_fails() {
    assert_eq!(run(form(vec![id("/"), float(1.0), float(0.0)])), Err(EvalError::DivisionByZero));
    assert_eq!(run(form(vec![id("/"), float(1.0), float(-0.0)])), Err(EvalError::DivisionByZero));
    assert_eq!(run(form(vec![id("/"), float(1.0), integer(0)])), Err(EvalError::DivisionByZero));
    assert_eq!(run(form(vec![id("/"), integer(1), float(0.0)])), Err(EvalError::DivisionByZero));
}

#[test]
fn quotient_that_does_not_fit_is_a_fault() {
    assert_eq!(
        run(form(vec![id("/"), integer(i32::MIN), integer(-1)])),
        Err(EvalError::DivisionByZero)
    );
    assert_eq!(
        run(form(vec![id("remainder"), integer(i32::MIN), integer(-1)])),
        Err(EvalError::DivisionByZero)
    );
}

#[test]
fn division_folds_from_the_left() {
    assert_eq!(run(form(vec![id("/"), integer(100), integer(5), integer(2)])), Ok(integer(10)));
    assert_eq!(
        run(form(vec![id("/"), integer(100), integer(0), integer(2)])),
        Err(EvalError::DivisionByZero)
    );
}

#[test]
fn subtraction_folds_from_the_left() {
    assert_eq!(run(form(vec![id("-"), integer(10), integer(3), integer(2)])), Ok(integer(5)));
}

#[test]
fn subtraction_of_one_operand_is_an_arity_error() {
    assert_eq!(
        run(form(vec![id("-"), integer(10)])),
        Err(EvalError::ArityMismatch { expected: 2, actual: 1 })
    );
}

#[test]
fn operators_need_two_operands() {
    for name in ["+", "-", "*", "/"] {
        assert_eq!(
            run(form(vec![id(name)])),
            Err(EvalError::ArityMismatch { expected: 2, actual: 0 })
        );
        assert_eq!(
            run(form(vec![id(name), integer(1)])),
            Err(EvalError::ArityMismatch { expected: 2, actual: 1 })
        );
    }
}

#[test]
fn sums_and_products_take_many_operands() {
    assert_eq!(
        run(form(vec![id("+"), integer(1), integer(2), integer(3), integer(4)])),
        Ok(integer(10))
    );
    assert_eq!(
        run(form(vec![id("*"), integer(1), integer(2), integer(3), integer(4)])),
        Ok(integer(24))
    );
}

#[test]
fn integer_arithmetic_wraps() {
    assert_eq!(run(form(vec![id("+"), integer(i32::MAX), integer(1)])), Ok(integer(i32::MIN)));
    assert_eq!(run(form(vec![id("-"), integer(i32::MIN), integer(1)])), Ok(integer(i32::MAX)));
    assert_eq!(
        run(form(vec![id("*"), integer(65536), integer(65537)])),
        Ok(integer(65536i32.wrapping_mul(65537)))
    );
}

#[test]
fn a_float_operand_makes_the_result_a_float() {
    assert_eq!(run(form(vec![id("+"), integer(1), float(2.5)])), Ok(float(3.5)));
    assert_eq!(run(form(vec![id("+"), float(1.5), integer(2)])), Ok(float(3.5)));
    assert_eq!(run(form(vec![id("-"), integer(1), float(2.5)])), Ok(float(-1.5)));
    assert_eq!(run(form(vec![id("*"), float(1.5), integer(2)])), Ok(float(3.0)));
    assert_eq!(run(form(vec![id("*"), float(1.5), float(2.0)])), Ok(float(3.0)));
    assert_eq!(run(form(vec![id("+"), integer(1), integer(2)])), Ok(integer(3)));
    assert_eq!(run(form(vec![id("+"), integer(1), integer(2), float(0.5)])), Ok(float(3.5)));
}

#[test]
fn float_arithmetic_rounds_as_the_hardware_does() {
    let samples: [f32; 10] =
        [0.1, 0.3, 1.0e-3, 3.0, 7.5, 1.0e10, 16777216.0, 1.0e-40, 123456.79, 2.0];
    for a in samples {
        for b in samples {
            assert_eq!(run(form(vec![id("+"), float(a), float(b)])), Ok(float(a + b)));
            assert_eq!(run(form(vec![id("-"), float(a), float(b)])), Ok(float(a - b)));
            assert_eq!(run(form(vec![id("*"), float(a), float(b)])), Ok(float(a * b)));
            assert_eq!(run(form(vec![id("/"), float(a), float(b)])), Ok(float(a / b)));
            assert_eq!(run(form(vec![id("remainder"), float(a), float(b)])), Ok(float(a % b)));
            assert_eq!(run(form(vec![id("-"), float(-a), float(b)])), Ok(float(-a - b)));
            assert_eq!(run(form(vec![id("remainder"), float(-a), float(b)])), Ok(float(-a % b)));
        }
    }
}

#[test]
fn integers_are_promoted_to_the_nearest_float() {
    for i in [0, 1, -1, 7, 16777217, -16777217, 33554434, 33554435, i32::MAX, i32::MIN, 123456789] {
        assert_eq!(run(form(vec![id("+"), integer(i), float(0.0)])), Ok(float(i as f32 + 0.0)));
        assert_eq!(run(form(vec![id("*"), float(1.0), integer(i)])), Ok(float(i as f32)));
    }
}

#[test]
fn non_numeric_operand_is_a_type_mismatch() {
    assert_eq!(
        run(form(vec![id("+"), integer(1), boolean(true)])),
        Err(EvalError::TypeMismatch(Context::AddOperand, boolean(true)))
    );
    assert_eq!(
        run(form(vec![id("-"), boolean(false), integer(1)])),
        Err(EvalError::TypeMismatch(Context::SubOperand, boolean(false)))
    );
    assert_eq!(
        run(form(vec![id("*"), integer(1), boolean(true), boolean(false)])),
        Err(EvalError::TypeMismatch(Context::MulOperand, boolean(true)))
    );
    assert_eq!(
        run(form(vec![id("/"), integer(1), integer(0), boolean(true)])),
        Err(EvalError::TypeMismatch(Context::DivOperand, boolean(true)))
    );
}

#[test]
fn a_failing_operand_comes_before_a_type_mismatch() {
    assert_eq!(
        run(form(vec![id("+"), boolean(true), id("nowhere")])),
        Err(EvalError::UnboundVariable(String::from("nowhere")))
    );
}

#[test]
fn less_than_compares_numbers() {
    assert_eq!(run(form(vec![id("<"), integer(1), integer(2)])), Ok(boolean(true)));
    assert_eq!(run(form(vec![id("<"), integer(2), integer(1)])), Ok(boolean(false)));
    assert_eq!(run(form(vec![id("<"), integer(2), integer(2)])), Ok(boolean(false)));
    assert_eq!(run(form(vec![id("<"), integer(-5), integer(2)])), Ok(boolean(true)));
    assert_eq!(run(form(vec![id("<"), float(1.5), integer(2)])), Ok(boolean(true)));
    assert_eq!(run(form(vec![id("<"), integer(2), float(1.5)])), Ok(boolean(false)));
}

#[test]
fn equal_compares_numbers() {
    assert_eq!(run(form(vec![id("="), integer(1), integer(1)])), Ok(boolean(true)));
    assert_eq!(run(form(vec![id("="), integer(1), integer(2)])), Ok(boolean(false)));
    assert_eq!(run(form(vec![id("="), float(2.0), integer(2)])), Ok(boolean(true)));
    assert_eq!(run(form(vec![id("="), float(0.0), float(-0.0)])), Ok(boolean(true)));
    assert_eq!(run(form(vec![id("="), float(f32::NAN), float(f32::NAN)])), Ok(boolean(false)));
}

#[test]
fn float_comparisons_agree_with_the_hardware() {
    let samples: [f32; 14] = [
        0.0,
        -0.0,
        1.0,
        -1.0,
        1.0e-45,
        -1.0e-45,
        3.5,
        -3.5,
        f32::MAX,
        f32::MIN,
        f32::INFINITY,
        f32::NEG_INFINITY,
        f32::NAN,
        -f32::NAN,
    ];
    for a in samples {
        for b in samples {
            assert_eq!(
                Number::Float(a.to_bits()).less_than(&Number::Float(b.to_bits())),
                a < b,
                "{} < {}",
                a,
                b
            );
            assert_eq!(
                Number::Float(a.to_bits()).equal_to(&Number::Float(b.to_bits())),
                a == b,
                "{} = {}",
                a,
                b
            );
        }
    }
}

#[test]
fn comparisons_take_two_operands() {
    assert_eq!(
        run(form(vec![id("<"), integer(1)])),
        Err(EvalError::ArityMismatch { expected: 2, actual: 1 })
    );
    assert_eq!(
        run(form(vec![id("="), integer(1), integer(2), integer(3)])),
        Err(EvalError::ArityMismatch { expected: 2, actual: 3 })
    );
    assert_eq!(
        run(form(vec![id("remainder"), integer(1)])),
        Err(EvalError::ArityMismatch { expected: 2, actual: 1 })
    );
}

#[test]
fn comparisons_name_the_side_that_is_no_number() {
    assert_eq!(
        run(form(vec![id("<"), boolean(true), integer(1)])),
        Err(EvalError::TypeMismatch(Context::LessThanLeft, boolean(true)))
    );
    assert_eq!(
        run(form(vec![id("<"), integer(1), boolean(false)])),
        Err(EvalError::TypeMismatch(Context::LessThanRight, boolean(false)))
    );
    assert_eq!(
        run(form(vec![id("<"), boolean(true), boolean(false)])),
        Err(EvalError::TypeMismatch(Context::LessThanLeft, boolean(true)))
    );
    assert_eq!(
        run(form(vec![id("="), boolean(true), integer(1)])),
        Err(EvalError::TypeMismatch(Context::EqualLeft, boolean(true)))
    );
    assert_eq!(
        run(form(vec![id("="), integer(1), boolean(false)])),
        Err(EvalError::TypeMismatch(Context::EqualRight, boolean(false)))
    );
    assert_eq!(
        run(form(vec![id("remainder"), boolean(true), integer(1)])),
        Err(EvalError::TypeMismatch(Context::RemainderLeft, boolean(true)))
    );
    assert_eq!(
        run(form(vec![id("remainder"), integer(1), boolean(false)])),
        Err(EvalError::TypeMismatch(Context::RemainderRight, boolean(false)))
    );
}

#[test]
fn remainder_has_the_sign_of_the_dividend() {
    assert_eq!(run(form(vec![id("remainder"), integer(7), integer(2)])), Ok(integer(1)));
    assert_eq!(run(form(vec![id("remainder"), integer(-7), integer(2)])), Ok(integer(-1)));
    assert_eq!(run(form(vec![id("remainder"), integer(7), integer(-2)])), Ok(integer(1)));
    assert_eq!(run(form(vec![id("remainder"), integer(-7), integer(-2)])), Ok(integer(-1)));
    assert_eq!(run(form(vec![id("remainder"), float(7.5), integer(2)])), Ok(float(1.5)));
    assert_eq!(run(form(vec![id("remainder"), integer(7), float(2.5)])), Ok(float(2.0)));
}

#[test]
fn remainder_by_zero_fails() {
    assert_eq!(
        run(form(vec![id("remainder"), integer(7), integer(0)])),
        Err(EvalError::DivisionByZero)
    );
    assert_eq!(
        run(form(vec![id("remainder"), float(7.0), float(0.0)])),
        Err(EvalError::DivisionByZero)
    );
}

#[test]
fn number_operations_follow_the_tower() {
    let i = Number::Integer(6);
    let j = Number::Integer(4);
    let x = Number::Float(2.5f32.to_bits());
    assert_eq!(i.add(j), Number::Integer(10));
    assert_eq!(i.sub(j), Number::Integer(2));
    assert_eq!(i.mul(j), Number::Integer(24));
    assert_eq!(i.div(j), Some(Number::Integer(1)));
    assert_eq!(i.rem(j), Some(Number::Integer(2)));
    assert_eq!(i.add(x), Number::Float(8.5f32.to_bits()));
    assert_eq!(x.sub(i), Number::Float((-3.5f32).to_bits()));
    assert_eq!(x.mul(j), Number::Float(10.0f32.to_bits()));
    assert_eq!(i.div(x), Some(Number::Float(2.4f32.to_bits())));
    assert_eq!(x.rem(j), Some(Number::Float(2.5f32.to_bits())));
    assert_eq!(i.div(Number::Integer(0)), None);
    assert_eq!(i.rem(Number::Integer(0)), None);
    assert_eq!(i.to_float_bits(), 6.0f32.to_bits());
    assert_eq!(x.to_float_bits(), 2.5f32.to_bits());
    assert!(Number::Integer(0).is_zero_value());
    assert!(Number::Float((-0.0f32).to_bits()).is_zero_value());
    assert!(!x.is_zero_value());
}
