//! The arithmetic and comparison forms.
use crate::discipline::{
    all_source, all_values, lemma_eval_operands_settles, lemma_two_operand_forms_settle,
};
use crate::environment::Environment;
use crate::error::{Context, EvalError};
use crate::eval::{agrees, eval};
use crate::number::Number;
use crate::semantics::{
    arithmetic_form, combine, comparison_form, eval_operands, first_non_number, fold_numbers,
    operand_context, operate, remainder_form, Comparison, Operator,
};
use crate::types::{terms_of, Expression, Term};
use std::rc::Rc;
use vstd::prelude::*;

verus! {

/// `+`: the sum of at least two operands.
pub fn add(args: &[Rc<Expression>], env: &mut Environment) -> (r: Result<Rc<Expression>, EvalError>)
    requires
        old(env).wf(),
        all_source(terms_of(args@)),
    ensures
        agrees(
            r,
            final(env)@,
            arithmetic_form(Operator::Add, terms_of(args@), old(env)@, old(env).remaining()),
        ),
        final(env).wf(),
        final(env).capacity() == old(env).capacity(),
    decreases old(env).remaining(), args@, args@.len() + 1,
{
    arithmetic_op(args, env, Operator::Add)
}

/// `-`: the first operand less each of the others, left to right.
pub fn sub(args: &[Rc<Expression>], env: &mut Environment) -> (r: Result<Rc<Expression>, EvalError>)
    requires
        old(env).wf(),
        all_source(terms_of(args@)),
    ensures
        agrees(
            r,
            final(env)@,
            arithmetic_form(Operator::Sub, terms_of(args@), old(env)@, old(env).remaining()),
        ),
        final(env).wf(),
        final(env).capacity() == old(env).capacity(),
    decreases old(env).remaining(), args@, args@.len() + 1,
{
    arithmetic_op(args, env, Operator::Sub)
}

/// `*`: the product of at least two operands.
pub fn mul(args: &[Rc<Expression>], env: &mut Environment) -> (r: Result<Rc<Expression>, EvalError>)
    requires
        old(env).wf(),
        all_source(terms_of(args@)),
    ensures
        agrees(
            r,
            final(env)@,
            arithmetic_form(Operator::Mul, terms_of(args@), old(env)@, old(env).remaining()),
        ),
        final(env).wf(),
        final(env).capacity() == old(env).capacity(),
    decreases old(env).remaining(), args@, args@.len() + 1,
{
    arithmetic_op(args, env, Operator::Mul)
}

/// `/`: the first operand divided by each of the others, left to right.
pub fn div(args: &[Rc<Expression>], env: &mut Environment) -> (r: Result<Rc<Expression>, EvalError>)
    requires
        old(env).wf(),
        all_source(terms_of(args@)),
    ensures
        agrees(
            r,
            final(env)@,
            arithmetic_form(Operator::Div, terms_of(args@), old(env)@, old(env).remaining()),
        ),
        final(env).wf(),
        final(env).capacity() == old(env).capacity(),
    decreases old(env).remaining(), args@, args@.len() + 1,
{
    arithmetic_op(args, env, Operator::Div)
}

/// `<`: whether the first of two numbers is below the second.
pub fn less_than(args: &[Rc<Expression>], env: &mut Environment) -> (r: Result<
    Rc<Expression>,
    EvalError,
>)
    requires
        old(env).wf(),
        all_source(terms_of(args@)),
    ensures
        agrees(
            r,
            final(env)@,
            comparison_form(Comparison::LessThan, terms_of(args@), old(env)@, old(env).remaining()),
        ),
        final(env).wf(),
        final(env).capacity() == old(env).capacity(),
    decreases old(env).remaining(), args@, args@.len() + 1,
{
    proof {
        lemma_two_operand_forms_settle(terms_of(args@), env@, env.remaining());
    }
    if args.len() != 2 {
        return Err(EvalError::ArityMismatch { expected: 2, actual: args.len() });
    }
    let arg1 = match eval(Rc::clone(&args[0]), env) {
        Ok(value) => value,
        Err(error) => {
            return Err(error);
        },
    };
    let arg2 = match eval(Rc::clone(&args[1]), env) {
        Ok(value) => value,
        Err(error) => {
            return Err(error);
        },
    };
    match &*arg1 {
        Expression::Numeric(n1) => match &*arg2 {
            Expression::Numeric(n2) => Ok(Rc::new(Expression::Boolean(n1.less_than(n2)))),
            _ => Err(EvalError::TypeMismatch(Context::LessThanRight, Rc::clone(&arg2))),
        },
        _ => Err(EvalError::TypeMismatch(Context::LessThanLeft, Rc::clone(&arg1))),
    }
}

/// `=`: whether two numbers are equal.
pub fn equal_to(args: &[Rc<Expression>], env: &mut Environment) -> (r: Result<
    Rc<Expression>,
    EvalError,
>)
    requires
        old(env).wf(),
        all_source(terms_of(args@)),
    ensures
        agrees(
            r,
            final(env)@,
            comparison_form(Comparison::Equal, terms_of(args@), old(env)@, old(env).remaining()),
        ),
        final(env).wf(),
        final(env).capacity() == old(env).capacity(),
    decreases old(env).remaining(), args@, args@.len() + 1,
{
    proof {
        lemma_two_operand_forms_settle(terms_of(args@), env@, env.remaining());
    }
    if args.len() != 2 {
        return Err(EvalError::ArityMismatch { expected: 2, actual: args.len() });
    }
    let arg1 = match eval(Rc::clone(&args[0]), env) {
        Ok(value) => value,
        Err(error) => {
            return Err(error);
        },
    };
    let arg2 = match eval(Rc::clone(&args[1]), env) {
        Ok(value) => value,
        Err(error) => {
            return Err(error);
        },
    };
    match &*arg1 {
        Expression::Numeric(n1) => match &*arg2 {
            Expression::Numeric(n2) => Ok(Rc::new(Expression::Boolean(n1.equal_to(n2)))),
            _ => Err(EvalError::TypeMismatch(Context::EqualRight, Rc::clone(&arg2))),
        },
        _ => Err(EvalError::TypeMismatch(Context::EqualLeft, Rc::clone(&arg1))),
    }
}

/// The place that a non-numeric operand of `op` is reported at.
fn context_of(op: Operator) -> (context: Context)
    ensures
        context == operand_context(op),
{
    match op {
        Operator::Add => Context::AddOperand,
        Operator::Sub => Context::SubOperand,
        Operator::Mul => Context::MulOperand,
        Operator::Div => Context::DivOperand,
    }
}

/// One step of a fold.
fn apply_operator(op: Operator, acc: Number, next: Number) -> (r: Option<Number>)
    ensures
        r == combine(op, acc, next),
{
    match op {
        Operator::Add => Some(acc.add(next)),
        Operator::Sub => Some(acc.sub(next)),
        Operator::Mul => Some(acc.mul(next)),
        Operator::Div => acc.div(next),
    }
}

/// Folds evaluated operands with an operator, from the first operand on.
#[verifier::loop_isolation(false)]
pub fn fold_values(op: Operator, values: &Vec<Rc<Expression>>) -> (r: Result<
    Rc<Expression>,
    EvalError,
>)
    requires
        values@.len() >= 1,
    ensures
        crate::error::result_view(r) == operate(op, terms_of(values@)),
{
    let ghost terms = terms_of(values@);
    let mut i: usize = 0;
    while i < values.len()
        invariant
            i <= values.len(),
            terms == terms_of(values@),
            first_non_number(terms, 0) == first_non_number(terms, i as int),
        decreases values.len() - i,
    {
        if !values[i].is_number() {
            return Err(EvalError::TypeMismatch(context_of(op), Rc::clone(&values[i])));
        }
        i += 1;
    }
    let mut acc = match &*values[0] {
        Expression::Numeric(first) => *first,
        _ => {
            return Err(EvalError::TypeMismatch(context_of(op), Rc::clone(&values[0])));
        },
    };
    let mut k: usize = 1;
    while k < values.len()
        invariant
            1 <= k <= values.len(),
            terms == terms_of(values@),
            first_non_number(terms, 0) is None,
            operate(op, terms) == fold_numbers(op, acc, terms, k as int),
        decreases values.len() - k,
    {
        let next = match &*values[k] {
            Expression::Numeric(n) => *n,
            _ => Number::Integer(0),
        };
        proof {
            lemma_numbers_everywhere(terms, 0, k as int);
        }
        match apply_operator(op, acc, next) {
            Some(result) => {
                acc = result;
            },
            None => {
                return Err(EvalError::DivisionByZero);
            },
        }
        k += 1;
    }
    Ok(Rc::new(Expression::Numeric(acc)))
}

/// Where no value from `from` on is a non-number, each is a number.
proof fn lemma_numbers_everywhere(values: Seq<Term>, from: int, at: int)
    requires
        0 <= from <= at < values.len(),
        first_non_number(values, from) is None,
    ensures
        values[at] is Num,
    decreases at - from,
{
    if from < at {
        lemma_numbers_everywhere(values, from + 1, at);
    }
}

/// Evaluates at least two operands, left to right, then folds them.
#[verifier::loop_isolation(false)]
fn arithmetic_op(args: &[Rc<Expression>], env: &mut Environment, op: Operator) -> (r: Result<
    Rc<Expression>,
    EvalError,
>)
    requires
        old(env).wf(),
        all_source(terms_of(args@)),
    ensures
        agrees(r, final(env)@, arithmetic_form(op, terms_of(args@), old(env)@, old(env).remaining())),
        final(env).wf(),
        final(env).capacity() == old(env).capacity(),
    decreases old(env).remaining(), args@, args@.len(),
{
    let ghost operands = terms_of(args@);
    let ghost start = env@;
    let ghost fuel = env.remaining();
    if args.len() < 2 {
        return Err(EvalError::ArityMismatch { expected: 2, actual: args.len() });
    }
    let mut args_eval: Vec<Rc<Expression>> = Vec::with_capacity(args.len());
    let mut i: usize = 0;
    assert(terms_of(args_eval@) =~= Seq::empty());
    while i < args.len()
        invariant
            i <= args.len(),
            operands == terms_of(args@),
            all_source(operands),
            env.wf(),
            env.capacity() == old(env).capacity(),
            env.remaining() == fuel,
            fuel == old(env).remaining(),
            args_eval@.len() == i,
            all_values(terms_of(args_eval@)),
            eval_operands(operands, 0, Seq::empty(), start, fuel) == eval_operands(
                operands,
                i as int,
                terms_of(args_eval@),
                env@,
                fuel,
            ),
        decreases args.len() - i,
    {
        proof {
            lemma_eval_operands_settles(operands, i as int, terms_of(args_eval@), env@, fuel);
        }
        let ghost done = terms_of(args_eval@);
        match eval(Rc::clone(&args[i]), env) {
            Ok(value) => {
                args_eval.push(value);
                assert(terms_of(args_eval@) =~= done.push(value@));
            },
            Err(error) => {
                return Err(error);
            },
        }
        i += 1;
    }
    fold_values(op, &args_eval)
}

/// `remainder`: the remainder of the first of two numbers by the second.
pub fn remainder(args: &[Rc<Expression>], env: &mut Environment) -> (r: Result<
    Rc<Expression>,
    EvalError,
>)
    requires
        old(env).wf(),
        all_source(terms_of(args@)),
    ensures
        agrees(r, final(env)@, remainder_form(terms_of(args@), old(env)@, old(env).remaining())),
        final(env).wf(),
        final(env).capacity() == old(env).capacity(),
    decreases old(env).remaining(), args@, args@.len() + 1,
{
    proof {
        lemma_two_operand_forms_settle(terms_of(args@), env@, env.remaining());
    }
    if args.len() != 2 {
        return Err(EvalError::ArityMismatch { expected: 2, actual: args.len() });
    }
    let arg1 = match eval(Rc::clone(&args[0]), env) {
        Ok(value) => value,
        Err(error) => {
            return Err(error);
        },
    };
    let arg2 = match eval(Rc::clone(&args[1]), env) {
        Ok(value) => value,
        Err(error) => {
            return Err(error);
        },
    };
    match &*arg1 {
        Expression::Numeric(a) => match &*arg2 {
            Expression::Numeric(b) => match a.rem(*b) {
                Some(result) => Ok(Rc::new(Expression::Numeric(result))),
                None => Err(EvalError::DivisionByZero),
            },
            _ => Err(EvalError::TypeMismatch(Context::RemainderRight, Rc::clone(&arg2))),
        },
        _ => Err(EvalError::TypeMismatch(Context::RemainderLeft, Rc::clone(&arg1))),
    }
}

} // verus!
