use scheme_eval::environment::Environment;
use scheme_eval::error::{Context, EvalError};
use scheme_eval::eval::eval;
use scheme_eval::number::Number;
use scheme_eval::parse::parse_repl_line;
use scheme_eval::types::{Expression, Procedure};
use std::rc::Rc;

fn integer(i: i32) -> Rc<Expression> {
    Rc::new(Expression::Numeric(Number::Integer(i)))
}

fn boolean(b: bool) -> Rc<Expression> {
    Rc::new(Expression::Boolean(b))
}

fn read(text: &str) -> Rc<Expression> {
    let forms = parse_repl_line(text).unwrap();
    assert_eq!(forms.len(), 1);
    Rc::clone(&forms[0])
}

fn run_in(env: &mut Environment, text: &str) -> Result<Rc<Expression>, EvalError> {
    eval(read(text), env)
}

fn run(text: &str) -> Result<Rc<Expression>, EvalError> {
    let mut env = Environment::new(64);
    run_in(&mut env, text)
}

fn unbound(name: &str) -> Result<Rc<Expression>, EvalError> {
    Err(EvalError::UnboundVariable(String::from(name)))
}

#[test]
fn literals_evaluate_to_themselves() {
    assert_eq!(run("42"), Ok(integer(42)));
    assert_eq!(run("#t"), Ok(boolean(true)));
    assert_eq!(run("#f"), Ok(boolean(false)));
    assert_eq!(
        run("2.5"),
        Ok(Rc::new(Expression::Numeric(Number::Float(2.5f32.to_bits()))))
    );
}

#[test]
fn unbound_identifier_fails() {
    assert_eq!(run("x"), unbound("x"));
}

#[test]
fn empty_application_fails() {
    let mut env = Environment::new(64);
    assert_eq!(
        eval(Rc::new(Expression::SExpr(vec![])), &mut env),
        Err(EvalError::EmptyApplication)
    );
}

#[test]
fn define_binds_and_returns_the_value() {
    let mut env = Environment::new(64);
    assert_eq!(run_in(&mut env, "(define x 5)"), Ok(integer(5)));
    assert_eq!(run_in(&mut env, "x"), Ok(integer(5)));
    assert_eq!(run_in(&mut env, "(define y (+ x 1))"), Ok(integer(6)));
    assert_eq!(run_in(&mut env, "y"), Ok(integer(6)));
}

#[test]
fn redefinition_shadows_the_old_value() {
    let mut env = Environment::new(64);
    assert_eq!(run_in(&mut env, "(define x 5)"), Ok(integer(5)));
    assert_eq!(run_in(&mut env, "(define x 7)"), Ok(integer(7)));
    assert_eq!(run_in(&mut env, "x"), Ok(integer(7)));
    assert_eq!(run_in(&mut env, "(define (get) x)").is_ok(), true);
    assert_eq!(run_in(&mut env, "(get)"), Ok(integer(7)));
    assert_eq!(run_in(&mut env, "(define x 9)"), Ok(integer(9)));
    assert_eq!(run_in(&mut env, "(get)"), Ok(integer(9)));
}

#[test]
fn define_of_a_procedure_returns_the_procedure() {
    let mut env = Environment::new(64);
    let expected = Rc::new(Expression::Procedure(Procedure::new(
        vec![String::from("n")],
        read("(* n n)"),
    )));
    assert_eq!(run_in(&mut env, "(define (sq n) (* n n))"), Ok(Rc::clone(&expected)));
    assert_eq!(run_in(&mut env, "sq"), Ok(expected));
}

#[test]
fn procedure_call_binds_arguments() {
    let mut env = Environment::new(64);
    run_in(&mut env, "(define (sq n) (* n n))").unwrap();
    assert_eq!(run_in(&mut env, "(sq 4)"), Ok(integer(16)));
    assert_eq!(run_in(&mut env, "(sq (+ 1 2))"), Ok(integer(9)));
}

#[test]
fn procedure_call_checks_arity() {
    let mut env = Environment::new(64);
    run_in(&mut env, "(define (sq n) (* n n))").unwrap();
    assert_eq!(
        run_in(&mut env, "(sq 4 5)"),
        Err(EvalError::ArityMismatch { expected: 1, actual: 2 })
    );
    assert_eq!(
        run_in(&mut env, "(sq)"),
        Err(EvalError::ArityMismatch { expected: 1, actual: 0 })
    );
}

#[test]
fn arity_is_checked_before_arguments_are_evaluated() {
    let mut env = Environment::new(64);
    run_in(&mut env, "(define (sq n) (* n n))").unwrap();
    assert_eq!(
        run_in(&mut env, "(sq (define leaked 1) 2)"),
        Err(EvalError::ArityMismatch { expected: 1, actual: 2 })
    );
    assert_eq!(run_in(&mut env, "leaked"), unbound("leaked"));
}

#[test]
fn parameters_are_invisible_after_the_call() {
    let mut env = Environment::new(64);
    run_in(&mut env, "(define (sq n) (* n n))").unwrap();
    assert_eq!(run_in(&mut env, "(sq 4)"), Ok(integer(16)));
    assert_eq!(run_in(&mut env, "n"), unbound("n"));
    assert_eq!(env.depth(), 1);
}

#[test]
fn definitions_inside_a_body_do_not_escape() {
    let mut env = Environment::new(64);
    run_in(&mut env, "(define (f) (define inner 3))").unwrap();
    assert_eq!(run_in(&mut env, "(f)"), Ok(integer(3)));
    assert_eq!(run_in(&mut env, "inner"), unbound("inner"));
}

#[test]
fn the_frame_is_popped_when_the_body_fails() {
    let mut env = Environment::new(64);
    run_in(&mut env, "(define (bad n) (+ n nowhere))").unwrap();
    assert_eq!(run_in(&mut env, "(bad 1)"), unbound("nowhere"));
    assert_eq!(env.depth(), 1);
    assert_eq!(run_in(&mut env, "n"), unbound("n"));
}

#[test]
fn a_failing_argument_aborts_the_call() {
    let mut env = Environment::new(64);
    run_in(&mut env, "(define (two a b) (define reached 1))").unwrap();
    assert_eq!(run_in(&mut env, "(two 1 nowhere)"), unbound("nowhere"));
    assert_eq!(env.depth(), 1);
}

#[test]
fn arguments_are_evaluated_left_to_right_in_the_caller() {
    let mut env = Environment::new(64);
    run_in(&mut env, "(define (second a b) b)").unwrap();
    assert_eq!(run_in(&mut env, "(second (define t 1) (+ t 1))"), Ok(integer(2)));
    assert_eq!(run_in(&mut env, "t"), Ok(integer(1)));
}

#[test]
fn bodies_see_the_frames_of_their_callers() {
    let mut env = Environment::new(64);
    run_in(&mut env, "(define (inner) (+ hidden 1))").unwrap();
    run_in(&mut env, "(define (outer hidden) (inner))").unwrap();
    assert_eq!(run_in(&mut env, "(outer 41)"), Ok(integer(42)));
    assert_eq!(run_in(&mut env, "(inner)"), unbound("hidden"));
}

#[test]
fn later_parameter_of_the_same_name_wins() {
    let mut env = Environment::new(64);
    run_in(&mut env, "(define (pick a a) a)").unwrap();
    assert_eq!(run_in(&mut env, "(pick 1 2)"), Ok(integer(2)));
}

#[test]
fn recursion_works_within_the_depth() {
    let mut env = Environment::new(64);
    run_in(&mut env, "(define (fact n) (if (< n 2) 1 (* n (fact (- n 1)))))").unwrap();
    assert_eq!(run_in(&mut env, "(fact 10)"), Ok(integer(3628800)));
}

#[test]
fn calls_nest_no_deeper_than_the_capacity() {
    let mut env = Environment::new(3);
    run_in(&mut env, "(define (down n) (if (< n 1) 0 (down (- n 1))))").unwrap();
    assert_eq!(run_in(&mut env, "(down 2)"), Ok(integer(0)));
    assert_eq!(run_in(&mut env, "(down 3)"), Err(EvalError::DepthExceeded));
    assert_eq!(env.depth(), 1);
    run_in(&mut env, "(define (forever) (forever))").unwrap();
    assert_eq!(run_in(&mut env, "(forever)"), Err(EvalError::DepthExceeded));
    assert_eq!(env.depth(), 1);
    let mut none = Environment::new(0);
    run_in(&mut none, "(define (one) 1)").unwrap();
    assert_eq!(run_in(&mut none, "(one)"), Err(EvalError::DepthExceeded));
}

#[test]
fn applying_a_value_that_is_no_procedure_fails() {
    let mut env = Environment::new(64);
    run_in(&mut env, "(define x 5)").unwrap();
    assert_eq!(run_in(&mut env, "(x 1)"), Err(EvalError::NotAProcedure(integer(5))));
    assert_eq!(run_in(&mut env, "(1 2)"), Err(EvalError::NotAProcedure(integer(1))));
    assert_eq!(run_in(&mut env, "(#t)"), Err(EvalError::NotAProcedure(boolean(true))));
    assert_eq!(run_in(&mut env, "((+ 1 2) 3)"), Err(EvalError::NotAProcedure(integer(3))));
}

#[test]
fn unbound_operator_that_is_no_keyword_fails() {
    assert_eq!(run("(nothing 1 2)"), unbound("nothing"));
}

#[test]
fn a_failing_operator_that_is_no_identifier_passes_its_error_on() {
    assert_eq!(run("((nothing) 1)"), unbound("nothing"));
    assert_eq!(run("((/ 1 0) 1)"), Err(EvalError::DivisionByZero));
}

#[test]
fn an_application_in_operator_position_may_yield_the_procedure() {
    assert_eq!(run("((define (id x) x) 5)"), Ok(integer(5)));
}

#[test]
fn if_takes_the_branch_of_its_predicate() {
    assert_eq!(run("(if (< 1 2) 10 20)"), Ok(integer(10)));
    assert_eq!(run("(if (< 2 1) 10 20)"), Ok(integer(20)));
}

#[test]
fn if_never_touches_the_other_branch() {
    assert_eq!(run("(if (< 1 2) 10 (nowhere))"), Ok(integer(10)));
    assert_eq!(run("(if (< 2 1) (/ 1 0) 20)"), Ok(integer(20)));
    let mut env = Environment::new(64);
    assert_eq!(run_in(&mut env, "(if #t 1 (define touched 2))"), Ok(integer(1)));
    assert_eq!(run_in(&mut env, "touched"), unbound("touched"));
}

#[test]
fn if_needs_a_boolean_and_three_operands() {
    assert_eq!(
        run("(if 1 10 20)"),
        Err(EvalError::TypeMismatch(Context::IfPredicate, integer(1)))
    );
    assert_eq!(run("(if #t 10)"), Err(EvalError::ArityMismatch { expected: 3, actual: 2 }));
    assert_eq!(
        run("(if #t 10 20 30)"),
        Err(EvalError::ArityMismatch { expected: 3, actual: 4 })
    );
    assert_eq!(run("(if nowhere 10 20)"), unbound("nowhere"));
}

#[test]
fn and_stops_at_the_first_false() {
    assert_eq!(run("(and (< 1 2) (= 1 1) (< 5 2))"), Ok(boolean(false)));
    assert_eq!(run("(and (< 1 2) (= 1 1))"), Ok(boolean(true)));
    assert_eq!(run("(and #f (nowhere))"), Ok(boolean(false)));
    assert_eq!(run("(and #t #f (/ 1 0))"), Ok(boolean(false)));
    assert_eq!(run("(and #t (nowhere))"), unbound("nowhere"));
    let mut env = Environment::new(64);
    assert_eq!(run_in(&mut env, "(and #f (define touched 2))"), Ok(boolean(false)));
    assert_eq!(run_in(&mut env, "touched"), unbound("touched"));
}

#[test]
fn or_stops_at_the_first_true() {
    assert_eq!(run("(or (< 2 1) (= 1 1) (nowhere))"), Ok(boolean(true)));
    assert_eq!(run("(or (< 2 1) (= 1 2))"), Ok(boolean(false)));
    assert_eq!(run("(or #f (nowhere))"), unbound("nowhere"));
}

#[test]
fn and_and_or_need_booleans() {
    assert_eq!(
        run("(and #t 1)"),
        Err(EvalError::TypeMismatch(Context::AndOperand, integer(1)))
    );
    assert_eq!(run("(or 1 #t)"), Err(EvalError::TypeMismatch(Context::OrOperand, integer(1))));
}

#[test]
fn and_and_or_need_an_operand() {
    assert_eq!(run("(and)"), Err(EvalError::ArityMismatch { expected: 1, actual: 0 }));
    assert_eq!(run("(or)"), Err(EvalError::ArityMismatch { expected: 1, actual: 0 }));
}

#[test]
fn cond_takes_the_first_true_clause() {
    assert_eq!(
        run("(cond ((= 1 2) 10) ((= 1 1) 20) (else-branch-unused 30))"),
        Ok(integer(20))
    );
    assert_eq!(run("(cond (#t 1) ((nowhere) 2))"), Ok(integer(1)));
    assert_eq!(run("(cond (#f (nowhere)) (#t 2))"), Ok(integer(2)));
}

#[test]
fn cond_without_a_true_predicate_fails() {
    assert_eq!(run("(cond ((= 1 2) 10) (#f 20))"), Err(EvalError::NoMatchingClause));
}

#[test]
fn cond_rejects_what_is_no_pair() {
    assert_eq!(run("(cond)"), Err(EvalError::MalformedCond));
    assert_eq!(run("(cond 1)"), Err(EvalError::MalformedCond));
    assert_eq!(run("(cond (#t))"), Err(EvalError::MalformedCond));
    assert_eq!(run("(cond (#t 1 2))"), Err(EvalError::MalformedCond));
    assert_eq!(run("(cond (#f 1) x)"), Err(EvalError::MalformedCond));
}

#[test]
fn cond_needs_boolean_predicates() {
    assert_eq!(
        run("(cond (1 2))"),
        Err(EvalError::TypeMismatch(Context::CondPredicate, integer(1)))
    );
    assert_eq!(run("(cond (nowhere 2))"), unbound("nowhere"));
}

#[test]
fn define_rejects_wrong_shapes() {
    assert_eq!(run("(define)"), Err(EvalError::MalformedDefine));
    assert_eq!(run("(define x)"), Err(EvalError::MalformedDefine));
    assert_eq!(run("(define x 1 2)"), Err(EvalError::MalformedDefine));
    assert_eq!(run("(define 1 2)"), Err(EvalError::MalformedDefine));
    assert_eq!(run("(define #t 2)"), Err(EvalError::MalformedDefine));
    assert_eq!(run("(define (f 1) 2)"), Err(EvalError::MalformedDefine));
    assert_eq!(run("(define (1 x) 2)"), Err(EvalError::MalformedDefine));
    assert_eq!(run("(define (f (g)) 2)"), Err(EvalError::MalformedDefine));
    let mut env = Environment::new(64);
    let empty_signature = Rc::new(Expression::SExpr(vec![
        Rc::new(Expression::Identifier(String::from("define"))),
        Rc::new(Expression::SExpr(vec![])),
        integer(1),
    ]));
    assert_eq!(eval(empty_signature, &mut env), Err(EvalError::MalformedDefine));
}

#[test]
fn define_passes_on_the_failure_of_its_expression() {
    let mut env = Environment::new(64);
    assert_eq!(run_in(&mut env, "(define x nowhere)"), unbound("nowhere"));
    assert_eq!(run_in(&mut env, "x"), unbound("x"));
}

#[test]
fn a_bound_name_shadows_the_keyword() {
    let mut env = Environment::new(64);
    assert_eq!(run_in(&mut env, "(+ 1 2)"), Ok(integer(3)));
    run_in(&mut env, "(define (+ a b) (* a b))").unwrap();
    assert_eq!(run_in(&mut env, "(+ 3 4)"), Ok(integer(12)));
    assert_eq!(
        run_in(&mut env, "(+ 3 4 5)"),
        Err(EvalError::ArityMismatch { expected: 2, actual: 3 })
    );
    run_in(&mut env, "(define if 5)").unwrap();
    assert_eq!(run_in(&mut env, "(if #t 1 2)"), Err(EvalError::NotAProcedure(integer(5))));
    assert_eq!(run_in(&mut env, "(- 3 4)"), Ok(integer(-1)));
}

#[test]
fn a_keyword_bound_as_parameter_is_shadowed_only_during_the_call() {
    let mut env = Environment::new(64);
    run_in(&mut env, "(define (twice x) (* x 2))").unwrap();
    run_in(&mut env, "(define (use and) (and 4))").unwrap();
    assert_eq!(run_in(&mut env, "(use twice)"), Ok(integer(8)));
    assert_eq!(run_in(&mut env, "(and #t #t)"), Ok(boolean(true)));
}

#[test]
fn a_keyword_alone_is_unbound() {
    assert_eq!(run("+"), unbound("+"));
    assert_eq!(run("define"), unbound("define"));
}

#[test]
fn every_keyword_is_recognised() {
    let env = Environment::new(1);
    for name in ["+", "-", "*", "/", "define", "cond", "if", "<", "=", "and", "or", "remainder"] {
        assert!(env.special_form(name).is_some(), "{}", name);
    }
    for name in ["", "plus", "Define", "else", "remainder ", "if "] {
        assert!(env.special_form(name).is_none(), "{}", name);
    }
}

#[test]
fn results_are_values() {
    let mut env = Environment::new(64);
    for text in ["1", "#t", "(define (f) 1)", "(f)", "(+ 1 2)", "(< 1 2)", "(define v 3)", "v"] {
        let value = run_in(&mut env, text).unwrap();
        assert!(matches!(
            &*value,
            Expression::Numeric(_) | Expression::Boolean(_) | Expression::Procedure(_)
        ));
    }
}

#[test]
fn source_holds_no_procedure() {
    assert!(read("(define (f x) (+ x 1))").is_source());
    let procedure =
        Rc::new(Expression::Procedure(Procedure::new(vec![String::from("x")], integer(1))));
    assert!(!procedure.is_source());
    assert!(!Expression::SExpr(vec![integer(1), Rc::clone(&procedure)]).is_source());
    assert!(!Expression::SExpr(vec![Rc::new(Expression::SExpr(vec![procedure]))]).is_source());
}

#[test]
fn expression_kinds_are_told_apart() {
    assert!(integer(1).is_number());
    assert!(!boolean(true).is_number());
    assert!(read("x").is_identifier());
    assert!(!read("(x)").is_identifier());
    assert!(!integer(1).is_identifier());
}

#[test]
fn procedure_accessors() {
    let body = read("(+ a b)");
    let procedure =
        Procedure::new(vec![String::from("a"), String::from("b")], Rc::clone(&body));
    assert_eq!(procedure.arity(), 2);
    assert_eq!(procedure.get_arg_ids(), &vec![String::from("a"), String::from("b")]);
    assert_eq!(procedure.get_body(), body);
}
