//! The evaluator: a recursive walk over the expression, one function for
//! each kind of expression and one for each special form.
pub mod arithmetic;

use crate::discipline::{
    all_source, all_values, lemma_application_source, lemma_apply_items_settles,
    lemma_call_procedure_settles, lemma_cond_from_settles, lemma_and_from_settles,
    lemma_define_form_settles, lemma_eval_operands_settles, lemma_eval_term_settles,
    lemma_if_form_settles, lemma_operands_source, lemma_or_from_settles,
    lemma_run_special_form_settles,
};
use crate::environment::{Environment, Frame};
use crate::error::{result_view, Context, EvalError};
use crate::semantics::{
    all_identifiers, and_from, apply_items, call_frame, call_procedure, cond_from, define_form,
    eval_operands, eval_term, if_form, operands_of, or_from, parameter_names, run_special_form,
    special_form_of, Outcome, SpecialForm,
};
use crate::types::{lemma_view_of_application, names_of, terms_of, Expression, Procedure, Term};
use std::rc::Rc;
use vstd::prelude::*;
use vstd::slice::slice_subrange;

verus! {

/// Whether a result and the stack left behind are what `outcome` says.
pub open spec fn agrees(
    result: Result<Rc<Expression>, EvalError>,
    stack: crate::environment::Stack,
    outcome: Outcome,
) -> bool {
    &&& result_view(result) == outcome.result
    &&& stack == outcome.stack
}

/// The terms of the operands of a list are the operands of its terms.
pub proof fn lemma_operand_terms(list: Seq<Rc<Expression>>)
    requires
        list.len() >= 1,
    ensures
        terms_of(list.subrange(1, list.len() as int)) == operands_of(terms_of(list)),
{
}

/// Evaluates `expr` in `env`.
///
/// The result and the stack that `env` is left with are those of
/// `eval_term`, with as much fuel as `env` has room for call frames. The
/// stack comes back as deep as it was and differing at most in its
/// innermost frame, and a result is always a value: a number, a boolean or
/// a procedure.
pub fn eval(expr: Rc<Expression>, env: &mut Environment) -> (r: Result<Rc<Expression>, EvalError>)
    requires
        old(env).wf(),
        expr@.is_source(),
    ensures
        result_view(r) == eval_term(expr@, old(env)@, old(env).remaining()).result,
        final(env)@ == eval_term(expr@, old(env)@, old(env).remaining()).stack,
        final(env).wf(),
        final(env).capacity() == old(env).capacity(),
        final(env)@.len() == old(env)@.len(),
        final(env)@.drop_last() == old(env)@.drop_last(),
        r matches Ok(value) ==> value@.is_value(),
    decreases old(env).remaining(), expr, 0nat,
{
    proof {
        lemma_eval_term_settles(expr@, env@, env.remaining());
    }
    match &*expr {
        Expression::Identifier(id) => match env.lookup(id.as_str()) {
            Some(value) => Ok(value),
            None => Err(EvalError::UnboundVariable(id.clone())),
        },
        Expression::SExpr(list) => {
            proof {
                lemma_view_of_application(*list);
                lemma_application_source(terms_of(list@));
            }
            apply(list, env)
        },
        _ => Ok(Rc::clone(&expr)),
    }
}

/// Evaluates an application: the operator position first, then a
/// procedure call, or a special form where the operator is an unbound
/// keyword.
fn apply(list: &Vec<Rc<Expression>>, env: &mut Environment) -> (r: Result<Rc<Expression>, EvalError>)
    requires
        old(env).wf(),
        all_source(terms_of(list@)),
    ensures
        agrees(r, final(env)@, apply_items(terms_of(list@), old(env)@, old(env).remaining())),
        final(env).wf(),
        final(env).capacity() == old(env).capacity(),
    decreases old(env).remaining(), list@, list@.len() + 2,
{
    proof {
        lemma_apply_items_settles(terms_of(list@), env@, env.remaining());
    }
    if list.len() == 0 {
        return Err(EvalError::EmptyApplication);
    }
    let head = eval(Rc::clone(&list[0]), env);
    let args = slice_subrange(list.as_slice(), 1, list.len());
    proof {
        lemma_operand_terms(list@);
        lemma_operands_source(terms_of(list@));
    }
    match head {
        Ok(value) => match &*value {
            Expression::Procedure(procedure) => call(procedure, args, env),
            _ => Err(EvalError::NotAProcedure(Rc::clone(&value))),
        },
        Err(error) => match &*list[0] {
            Expression::Identifier(id) => match special_form(id, args, env) {
                Some(result) => result,
                None => Err(error),
            },
            _ => Err(error),
        },
    }
}

/// Calls a procedure on argument expressions: arity check, arguments
/// evaluated left to right in the caller's stack, then the body in a new
/// frame that is popped whatever the body did.
#[verifier::loop_isolation(false)]
fn call(procedure: &Procedure, args: &[Rc<Expression>], env: &mut Environment) -> (r: Result<
    Rc<Expression>,
    EvalError,
>)
    requires
        old(env).wf(),
        procedure.body_term().is_source(),
        all_source(terms_of(args@)),
    ensures
        agrees(
            r,
            final(env)@,
            call_procedure(
                procedure.params(),
                procedure.body_term(),
                terms_of(args@),
                old(env)@,
                old(env).remaining(),
            ),
        ),
        final(env).wf(),
        final(env).capacity() == old(env).capacity(),
    decreases old(env).remaining(), args@, args@.len() + 2,
{
    let ghost params = procedure.params();
    let ghost operands = terms_of(args@);
    let ghost start = env@;
    let ghost fuel = env.remaining();
    proof {
        lemma_call_procedure_settles(params, procedure.body_term(), operands, start, fuel);
    }
    if procedure.arity() != args.len() {
        return Err(
            EvalError::ArityMismatch { expected: procedure.arity(), actual: args.len() },
        );
    }
    let names = procedure.get_arg_ids();
    let mut frame = Frame::new();
    let ghost mut done: Seq<Term> = Seq::empty();
    let mut i: usize = 0;
    while i < args.len()
        invariant
            i <= args.len(),
            args@.len() == names@.len(),
            params == names_of(names@),
            operands == terms_of(args@),
            all_source(operands),
            env.wf(),
            env.capacity() == old(env).capacity(),
            env.remaining() == fuel,
            fuel == old(env).remaining(),
            frame.wf(),
            done.len() == i,
            all_values(done),
            frame@ == call_frame(params.take(i as int), done),
            eval_operands(operands, 0, Seq::empty(), start, fuel) == eval_operands(
                operands,
                i as int,
                done,
                env@,
                fuel,
            ),
        decreases args.len() - i,
    {
        proof {
            lemma_eval_operands_settles(operands, i as int, done, env@, fuel);
        }
        match eval(Rc::clone(&args[i]), env) {
            Ok(value) => {
                proof {
                    let more = done.push(value@);
                    assert(params.take(i + 1).drop_last() =~= params.take(i as int));
                    assert(more.drop_last() =~= done);
                    done = more;
                }
                frame.insert(names[i].clone(), value);
            },
            Err(error) => {
                return Err(error);
            },
        }
        i += 1;
    }
    assert(params.take(i as int) =~= params);
    if env.depth() > env.max_depth() {
        return Err(EvalError::DepthExceeded);
    }
    env.push_frame(frame);
    let result = eval(procedure.get_body(), env);
    env.pop_frame();
    result
}

/// Runs the special form that `name` stands for on its operands; `None`
/// where `name` is no keyword.
fn special_form(name: &String, args: &[Rc<Expression>], env: &mut Environment) -> (r: Option<
    Result<Rc<Expression>, EvalError>,
>)
    requires
        old(env).wf(),
        all_source(terms_of(args@)),
    ensures
        match r {
            Some(result) => special_form_of(name@) matches Some(form) && agrees(
                result,
                final(env)@,
                run_special_form(form, terms_of(args@), old(env)@, old(env).remaining()),
            ),
            None => special_form_of(name@) is None && final(env)@ == old(env)@,
        },
        final(env).wf(),
        final(env).capacity() == old(env).capacity(),
    decreases old(env).remaining(), args@, args@.len() + 2,
{
    let form = match env.special_form(name.as_str()) {
        Some(form) => form,
        None => {
            return None;
        },
    };
    proof {
        lemma_run_special_form_settles(form, terms_of(args@), env@, env.remaining());
    }
    match form {
        SpecialForm::Add => Some(crate::eval::arithmetic::add(args, env)),
        SpecialForm::Sub => Some(crate::eval::arithmetic::sub(args, env)),
        SpecialForm::Mul => Some(crate::eval::arithmetic::mul(args, env)),
        SpecialForm::Div => Some(crate::eval::arithmetic::div(args, env)),
        SpecialForm::Define => Some(define(args, env)),
        SpecialForm::Cond => Some(cond(args, env)),
        SpecialForm::If => Some(s_if(args, env)),
        SpecialForm::LessThan => Some(crate::eval::arithmetic::less_than(args, env)),
        SpecialForm::Equal => Some(crate::eval::arithmetic::equal_to(args, env)),
        SpecialForm::And => Some(and(args, env)),
        SpecialForm::Or => Some(or(args, env)),
        SpecialForm::Remainder => Some(crate::eval::arithmetic::remainder(args, env)),
    }
}

/// `define`: binds a name in the innermost frame, to the value of an
/// expression or to a new procedure, and returns what it bound.
#[verifier::loop_isolation(false)]
fn define(args: &[Rc<Expression>], env: &mut Environment) -> (r: Result<Rc<Expression>, EvalError>)
    requires
        old(env).wf(),
        all_source(terms_of(args@)),
    ensures
        agrees(r, final(env)@, define_form(terms_of(args@), old(env)@, old(env).remaining())),
        final(env).wf(),
        final(env).capacity() == old(env).capacity(),
    decreases old(env).remaining(), args@, args@.len() + 1,
{
    proof {
        lemma_define_form_settles(terms_of(args@), env@, env.remaining());
    }
    if args.len() != 2 {
        return Err(EvalError::MalformedDefine);
    }
    match &*args[0] {
        Expression::Identifier(id) => {
            match eval(Rc::clone(&args[1]), env) {
                Ok(value) => {
                    env.define(id.clone(), Rc::clone(&value));
                    Ok(value)
                },
                Err(error) => Err(error),
            }
        },
        Expression::SExpr(signature) => {
            proof {
                lemma_view_of_application(*signature);
            }
            let ghost items = terms_of(signature@);
            if signature.len() == 0 {
                return Err(EvalError::MalformedDefine);
            }
            let mut names: Vec<String> = Vec::new();
            let mut i: usize = 0;
            while i < signature.len()
                invariant
                    i <= signature.len(),
                    items == terms_of(signature@),
                    forall|j: int| 0 <= j < i ==> (#[trigger] items[j]) is Ident,
                    names@.len() == (if i == 0 {
                        0
                    } else {
                        i - 1
                    }),
                    forall|j: int|
                        0 <= j < names@.len() ==> (#[trigger] names@[j])@ == items[j + 1]->Ident_0,
                decreases signature.len() - i,
            {
                match &*signature[i] {
                    Expression::Identifier(id) => {
                        if i > 0 {
                            names.push(id.clone());
                        }
                    },
                    _ => {
                        assert(!(items[i as int] is Ident));
                        return Err(EvalError::MalformedDefine);
                    },
                }
                i += 1;
            }
            assert(names_of(names@) =~= parameter_names(items));
            let name = match &*signature[0] {
                Expression::Identifier(id) => id.clone(),
                _ => {
                    return Err(EvalError::MalformedDefine);
                },
            };
            let procedure = Rc::new(
                Expression::Procedure(Procedure::new(names, Rc::clone(&args[1]))),
            );
            env.define(name, Rc::clone(&procedure));
            Ok(procedure)
        },
        _ => Err(EvalError::MalformedDefine),
    }
}

/// `cond`: the value of the first clause whose predicate is true.
#[verifier::loop_isolation(false)]
fn cond(args: &[Rc<Expression>], env: &mut Environment) -> (r: Result<Rc<Expression>, EvalError>)
    requires
        old(env).wf(),
        all_source(terms_of(args@)),
    ensures
        agrees(
            r,
            final(env)@,
            run_special_form(SpecialForm::Cond, terms_of(args@), old(env)@, old(env).remaining()),
        ),
        final(env).wf(),
        final(env).capacity() == old(env).capacity(),
    decreases old(env).remaining(), args@, args@.len() + 1,
{
    let ghost clauses = terms_of(args@);
    let ghost start = env@;
    let ghost fuel = env.remaining();
    if args.len() == 0 {
        return Err(EvalError::MalformedCond);
    }
    let mut i: usize = 0;
    while i < args.len()
        invariant
            i <= args.len(),
            clauses == terms_of(args@),
            all_source(clauses),
            env.wf(),
            env.capacity() == old(env).capacity(),
            env.remaining() == fuel,
            fuel == old(env).remaining(),
            cond_from(clauses, 0, start, fuel) == cond_from(clauses, i as int, env@, fuel),
        decreases args.len() - i,
    {
        proof {
            lemma_cond_from_settles(clauses, i as int, env@, fuel);
        }
        match &*args[i] {
            Expression::SExpr(pair) => {
                proof {
                    lemma_view_of_application(*pair);
                    lemma_application_source(terms_of(pair@));
                }
                if pair.len() != 2 {
                    return Err(EvalError::MalformedCond);
                }
                match eval(Rc::clone(&pair[0]), env) {
                    Ok(value) => match &*value {
                        Expression::Boolean(b) => {
                            if *b {
                                return eval(Rc::clone(&pair[1]), env);
                            }
                        },
                        _ => {
                            return Err(
                                EvalError::TypeMismatch(Context::CondPredicate, Rc::clone(&value)),
                            );
                        },
                    },
                    Err(error) => {
                        return Err(error);
                    },
                }
            },
            _ => {
                return Err(EvalError::MalformedCond);
            },
        }
        i += 1;
    }
    Err(EvalError::NoMatchingClause)
}

/// `if`: evaluates the predicate, then the one branch it selects.
fn s_if(args: &[Rc<Expression>], env: &mut Environment) -> (r: Result<Rc<Expression>, EvalError>)
    requires
        old(env).wf(),
        all_source(terms_of(args@)),
    ensures
        agrees(r, final(env)@, if_form(terms_of(args@), old(env)@, old(env).remaining())),
        final(env).wf(),
        final(env).capacity() == old(env).capacity(),
    decreases old(env).remaining(), args@, args@.len() + 1,
{
    proof {
        lemma_if_form_settles(terms_of(args@), env@, env.remaining());
    }
    if args.len() != 3 {
        return Err(EvalError::ArityMismatch { expected: 3, actual: args.len() });
    }
    let predicate = match eval(Rc::clone(&args[0]), env) {
        Ok(value) => value,
        Err(error) => {
            return Err(error);
        },
    };
    match &*predicate {
        Expression::Boolean(b) => {
            if *b {
                eval(Rc::clone(&args[1]), env)
            } else {
                eval(Rc::clone(&args[2]), env)
            }
        },
        _ => Err(EvalError::TypeMismatch(Context::IfPredicate, Rc::clone(&predicate))),
    }
}

/// `and`: false at the first operand that is false, true if none is.
#[verifier::loop_isolation(false)]
fn and(args: &[Rc<Expression>], env: &mut Environment) -> (r: Result<Rc<Expression>, EvalError>)
    requires
        old(env).wf(),
        all_source(terms_of(args@)),
    ensures
        agrees(
            r,
            final(env)@,
            run_special_form(SpecialForm::And, terms_of(args@), old(env)@, old(env).remaining()),
        ),
        final(env).wf(),
        final(env).capacity() == old(env).capacity(),
    decreases old(env).remaining(), args@, args@.len() + 1,
{
    let ghost operands = terms_of(args@);
    let ghost start = env@;
    let ghost fuel = env.remaining();
    if args.len() == 0 {
        return Err(EvalError::ArityMismatch { expected: 1, actual: 0 });
    }
    let mut i: usize = 0;
    while i < args.len()
        invariant
            i <= args.len(),
            operands == terms_of(args@),
            all_source(operands),
            env.wf(),
            env.capacity() == old(env).capacity(),
            env.remaining() == fuel,
            fuel == old(env).remaining(),
            and_from(operands, 0, start, fuel) == and_from(operands, i as int, env@, fuel),
        decreases args.len() - i,
    {
        proof {
            lemma_and_from_settles(operands, i as int, env@, fuel);
        }
        match eval(Rc::clone(&args[i]), env) {
            Ok(value) => match &*value {
                Expression::Boolean(b) => {
                    if !*b {
                        return Ok(Rc::new(Expression::Boolean(false)));
                    }
                },
                _ => {
                    return Err(EvalError::TypeMismatch(Context::AndOperand, Rc::clone(&value)));
                },
            },
            Err(error) => {
                return Err(error);
            },
        }
        i += 1;
    }
    Ok(Rc::new(Expression::Boolean(true)))
}

/// `or`: true at the first operand that is true, false if none is.
#[verifier::loop_isolation(false)]
fn or(args: &[Rc<Expression>], env: &mut Environment) -> (r: Result<Rc<Expression>, EvalError>)
    requires
        old(env).wf(),
        all_source(terms_of(args@)),
    ensures
        agrees(
            r,
            final(env)@,
            run_special_form(SpecialForm::Or, terms_of(args@), old(env)@, old(env).remaining()),
        ),
        final(env).wf(),
        final(env).capacity() == old(env).capacity(),
    decreases old(env).remaining(), args@, args@.len() + 1,
{
    let ghost operands = terms_of(args@);
    let ghost start = env@;
    let ghost fuel = env.remaining();
    if args.len() == 0 {
        return Err(EvalError::ArityMismatch { expected: 1, actual: 0 });
    }
    let mut i: usize = 0;
    while i < args.len()
        invariant
            i <= args.len(),
            operands == terms_of(args@),
            all_source(operands),
            env.wf(),
            env.capacity() == old(env).capacity(),
            env.remaining() == fuel,
            fuel == old(env).remaining(),
            or_from(operands, 0, start, fuel) == or_from(operands, i as int, env@, fuel),
        decreases args.len() - i,
    {
        proof {
            lemma_or_from_settles(operands, i as int, env@, fuel);
        }
        match eval(Rc::clone(&args[i]), env) {
            Ok(value) => match &*value {
                Expression::Boolean(b) => {
                    if *b {
                        return Ok(Rc::new(Expression::Boolean(true)));
                    }
                },
                _ => {
                    return Err(EvalError::TypeMismatch(Context::OrOperand, Rc::clone(&value)));
                },
            },
            Err(error) => {
                return Err(error);
            },
        }
        i += 1;
    }
    Ok(Rc::new(Expression::Boolean(false)))
}

} // verus!
