//! What every evaluation keeps: the stack stays valid and as deep as it
//! was, only its innermost frame may change, and what comes out is a value.
use crate::environment::{bind, lemma_bind_valid, lemma_lookup_is_value, scope_holds_values, stack_is_valid, Scope, Stack};
use crate::number::Number;
use crate::semantics::{
    all_identifiers, and_from, apply_items, arithmetic_form, call_frame, call_procedure, combine,
    comparison_form, cond_from, define_form, eval_operands, eval_term, first_non_number,
    fold_numbers, if_form, operands_of, operate, or_from, parameter_names, remainder_form,
    run_special_form, special_form_of, Comparison, Operator, Outcome, SpecialForm,
};
use crate::types::Term;
use vstd::prelude::*;

verus! {

/// Whether every item is source text.
pub open spec fn all_source(items: Seq<Term>) -> bool {
    forall|i: int| 0 <= i < items.len() ==> (#[trigger] items[i]).is_source()
}

/// Whether every item is a value.
pub open spec fn all_values(items: Seq<Term>) -> bool {
    forall|i: int| 0 <= i < items.len() ==> (#[trigger] items[i]).is_value()
}

/// Whether two stacks are equally deep and differ at most in their
/// innermost frame.
pub open spec fn same_but_innermost(before: Stack, after: Stack) -> bool {
    &&& after.len() == before.len()
    &&& after.drop_last() =~= before.drop_last()
}

/// Whether an outcome respects the stack it started from.
pub open spec fn settled(before: Stack, outcome: Outcome) -> bool {
    &&& stack_is_valid(outcome.stack)
    &&& same_but_innermost(before, outcome.stack)
    &&& outcome.result matches Ok(value) ==> value.is_value()
}

/// An application is source text exactly when its items are.
pub proof fn lemma_application_source(items: Seq<Term>)
    ensures
        Term::App(items).is_source() == all_source(items),
{
    let t = Term::App(items);
    assert(t->App_0 == items);
    if all_source(items) {
        assert forall|i: int| 0 <= i < t->App_0.len() implies (#[trigger] t->App_0[i]).is_source() by {
            assert(items[i].is_source());
        }
    }
    if t.is_source() {
        assert forall|i: int| 0 <= i < items.len() implies (#[trigger] items[i]).is_source() by {
            assert(t->App_0[i] == items[i]);
        }
    }
}

/// The operands of a source application are source text.
pub proof fn lemma_operands_source(items: Seq<Term>)
    requires
        all_source(items),
        items.len() >= 1,
    ensures
        all_source(operands_of(items)),
{
    let args = operands_of(items);
    assert forall|i: int| 0 <= i < args.len() implies (#[trigger] args[i]).is_source() by {
        assert(args[i] == items[i + 1]);
    }
}

/// A call frame built from values holds values.
pub proof fn lemma_call_frame_holds_values(params: Seq<Seq<char>>, values: Seq<Term>)
    requires
        params.len() == values.len(),
        all_values(values),
    ensures
        scope_holds_values(call_frame(params, values)),
    decreases params.len(),
{
    if params.len() > 0 {
        let shorter = values.drop_last();
        lemma_call_frame_holds_values(params.drop_last(), shorter);
    }
}

/// Pushing a frame of values keeps a stack valid.
pub proof fn lemma_push_valid(stack: Stack, frame: Scope)
    requires
        stack_is_valid(stack),
        scope_holds_values(frame),
    ensures
        stack_is_valid(stack.push(frame)),
{
    let pushed = stack.push(frame);
    assert forall|i: int| 0 <= i < pushed.len() implies scope_holds_values(#[trigger] pushed[i]) by {
        if i < stack.len() {
            assert(pushed[i] == stack[i]);
        }
    }
}

/// What an operator yields is a number.
pub proof fn lemma_operate_is_value(op: Operator, values: Seq<Term>)
    ensures
        operate(op, values) matches Ok(value) ==> value is Num,
{
    if first_non_number(values, 0) is None {
        lemma_fold_is_number(op, values[0]->Num_0, values, 1);
    }
}

/// A fold yields a number.
pub proof fn lemma_fold_is_number(op: Operator, acc: Number, values: Seq<Term>, from: int)
    ensures
        fold_numbers(op, acc, values, from) matches Ok(value) ==> value is Num,
    decreases values.len() - from,
{
    if 0 <= from < values.len() {
        match combine(op, acc, values[from]->Num_0) {
            Some(next) => lemma_fold_is_number(op, next, values, from + 1),
            None => {},
        }
    }
}

/// Evaluating a source term in a valid stack settles.
pub proof fn lemma_eval_term_settles(t: Term, stack: Stack, fuel: nat)
    requires
        stack_is_valid(stack),
        t.is_source(),
    ensures
        settled(stack, eval_term(t, stack, fuel)),
    decreases fuel, t, 0nat,
{
    match t {
        Term::Ident(name) => {
            lemma_lookup_is_value(stack, name);
        },
        Term::App(items) => {
            lemma_application_source(items);
            lemma_apply_items_settles(items, stack, fuel);
        },
        _ => {},
    }
}

/// Evaluating a source application in a valid stack settles.
pub proof fn lemma_apply_items_settles(items: Seq<Term>, stack: Stack, fuel: nat)
    requires
        stack_is_valid(stack),
        all_source(items),
    ensures
        settled(stack, apply_items(items, stack, fuel)),
    decreases fuel, items, items.len() + 2,
{
    if items.len() > 0 {
        lemma_eval_term_settles(items[0], stack, fuel);
        lemma_operands_source(items);
        let head = eval_term(items[0], stack, fuel);
        match head.result {
            Ok(Term::Proc(params, body)) => {
                lemma_call_procedure_settles(params, *body, operands_of(items), head.stack, fuel);
            },
            Ok(_) => {},
            Err(_) => match items[0] {
                Term::Ident(name) => match special_form_of(name) {
                    Some(form) => {
                        lemma_run_special_form_settles(form, operands_of(items), head.stack, fuel);
                    },
                    None => {},
                },
                _ => {},
            },
        }
    }
}

/// A procedure call settles, and leaves the stack as its arguments left it.
pub proof fn lemma_call_procedure_settles(
    params: Seq<Seq<char>>,
    body: Term,
    args: Seq<Term>,
    stack: Stack,
    fuel: nat,
)
    requires
        stack_is_valid(stack),
        body.is_source(),
        all_source(args),
    ensures
        settled(stack, call_procedure(params, body, args, stack, fuel)),
        call_procedure(params, body, args, stack, fuel).stack == if args.len() == params.len() {
            eval_operands(args, 0, Seq::empty(), stack, fuel).stack
        } else {
            stack
        },
    decreases fuel, args, args.len() + 2,
{
    if args.len() == params.len() {
        lemma_eval_operands_settles(args, 0, Seq::empty(), stack, fuel);
        let evaluated = eval_operands(args, 0, Seq::empty(), stack, fuel);
        match evaluated.result {
            Err(_) => {},
            Ok(values) => {
                if fuel > 0 {
                    let frame = call_frame(params, values);
                    lemma_call_frame_holds_values(params, values);
                    lemma_push_valid(evaluated.stack, frame);
                    let pushed = evaluated.stack.push(frame);
                    lemma_eval_term_settles(body, pushed, (fuel - 1) as nat);
                    assert(pushed.drop_last() =~= evaluated.stack);
                }
            },
        }
    }
}

/// Evaluating source operands settles, and yields as many values as there
/// were operands left, after those already done.
pub proof fn lemma_eval_operands_settles(
    args: Seq<Term>,
    from: int,
    done: Seq<Term>,
    stack: Stack,
    fuel: nat,
)
    requires
        stack_is_valid(stack),
        all_source(args),
        all_values(done),
        0 <= from <= args.len(),
    ensures
        stack_is_valid(eval_operands(args, from, done, stack, fuel).stack),
        same_but_innermost(stack, eval_operands(args, from, done, stack, fuel).stack),
        eval_operands(args, from, done, stack, fuel).result matches Ok(values) ==> all_values(values)
            && values.len() == done.len() + args.len() - from,
    decreases fuel, args, args.len() - from,
{
    if from < args.len() {
        lemma_eval_term_settles(args[from], stack, fuel);
        let first = eval_term(args[from], stack, fuel);
        match first.result {
            Err(_) => {},
            Ok(value) => {
                let more = done.push(value);
                lemma_eval_operands_settles(args, from + 1, more, first.stack, fuel);
            },
        }
    }
}

/// Running a special form on source operands settles.
pub proof fn lemma_run_special_form_settles(form: SpecialForm, args: Seq<Term>, stack: Stack, fuel: nat)
    requires
        stack_is_valid(stack),
        all_source(args),
    ensures
        settled(stack, run_special_form(form, args, stack, fuel)),
    decreases fuel, args, args.len() + 2,
{
    match form {
        SpecialForm::Add => lemma_arithmetic_form_settles(Operator::Add, args, stack, fuel),
        SpecialForm::Sub => lemma_arithmetic_form_settles(Operator::Sub, args, stack, fuel),
        SpecialForm::Mul => lemma_arithmetic_form_settles(Operator::Mul, args, stack, fuel),
        SpecialForm::Div => lemma_arithmetic_form_settles(Operator::Div, args, stack, fuel),
        SpecialForm::Define => lemma_define_form_settles(args, stack, fuel),
        SpecialForm::Cond => {
            if args.len() > 0 {
                lemma_cond_from_settles(args, 0, stack, fuel);
            }
        },
        SpecialForm::If => lemma_if_form_settles(args, stack, fuel),
        SpecialForm::LessThan => lemma_two_operand_forms_settle(args, stack, fuel),
        SpecialForm::Equal => lemma_two_operand_forms_settle(args, stack, fuel),
        SpecialForm::And => {
            if args.len() > 0 {
                lemma_and_from_settles(args, 0, stack, fuel);
            }
        },
        SpecialForm::Or => {
            if args.len() > 0 {
                lemma_or_from_settles(args, 0, stack, fuel);
            }
        },
        SpecialForm::Remainder => lemma_two_operand_forms_settle(args, stack, fuel),
    }
}

/// An arithmetic form on source operands settles.
pub proof fn lemma_arithmetic_form_settles(op: Operator, args: Seq<Term>, stack: Stack, fuel: nat)
    requires
        stack_is_valid(stack),
        all_source(args),
    ensures
        settled(stack, arithmetic_form(op, args, stack, fuel)),
    decreases fuel, args, args.len() + 1,
{
    if args.len() >= 2 {
        lemma_eval_operands_settles(args, 0, Seq::empty(), stack, fuel);
        let evaluated = eval_operands(args, 0, Seq::empty(), stack, fuel);
        if let Ok(values) = evaluated.result {
            lemma_operate_is_value(op, values);
        }
    }
}

/// The comparisons and `remainder` on source operands settle.
pub proof fn lemma_two_operand_forms_settle(args: Seq<Term>, stack: Stack, fuel: nat)
    requires
        stack_is_valid(stack),
        all_source(args),
    ensures
        settled(stack, comparison_form(Comparison::LessThan, args, stack, fuel)),
        settled(stack, comparison_form(Comparison::Equal, args, stack, fuel)),
        settled(stack, remainder_form(args, stack, fuel)),
    decreases fuel, args, args.len() + 1,
{
    if args.len() == 2 {
        lemma_eval_term_settles(args[0], stack, fuel);
        let left = eval_term(args[0], stack, fuel);
        if left.result is Ok {
            lemma_eval_term_settles(args[1], left.stack, fuel);
        }
    }
}

/// `define` on source operands settles.
pub proof fn lemma_define_form_settles(args: Seq<Term>, stack: Stack, fuel: nat)
    requires
        stack_is_valid(stack),
        all_source(args),
    ensures
        settled(stack, define_form(args, stack, fuel)),
    decreases fuel, args, args.len() + 1,
{
    if args.len() == 2 {
        match args[0] {
            Term::Ident(name) => {
                lemma_eval_term_settles(args[1], stack, fuel);
                let value = eval_term(args[1], stack, fuel);
                if let Ok(v) = value.result {
                    lemma_bind_valid(value.stack, name, v);
                }
            },
            Term::App(signature) => {
                if signature.len() >= 1 && all_identifiers(signature) {
                    let procedure = Term::Proc(parameter_names(signature), Box::new(args[1]));
                    let name = signature[0]->Ident_0;
                    lemma_bind_valid(stack, name, procedure);
                }
            },
            _ => {},
        }
    }
}

/// `if` on source operands settles.
pub proof fn lemma_if_form_settles(args: Seq<Term>, stack: Stack, fuel: nat)
    requires
        stack_is_valid(stack),
        all_source(args),
    ensures
        settled(stack, if_form(args, stack, fuel)),
    decreases fuel, args, args.len() + 1,
{
    if args.len() == 3 {
        lemma_eval_term_settles(args[0], stack, fuel);
        let predicate = eval_term(args[0], stack, fuel);
        match predicate.result {
            Ok(Term::Bool(true)) => lemma_eval_term_settles(args[1], predicate.stack, fuel),
            Ok(Term::Bool(false)) => lemma_eval_term_settles(args[2], predicate.stack, fuel),
            _ => {},
        }
    }
}

/// The clauses of a `cond` on source operands settle.
pub proof fn lemma_cond_from_settles(args: Seq<Term>, from: int, stack: Stack, fuel: nat)
    requires
        stack_is_valid(stack),
        all_source(args),
        0 <= from <= args.len(),
    ensures
        settled(stack, cond_from(args, from, stack, fuel)),
    decreases fuel, args, args.len() - from,
{
    if from < args.len() {
        match args[from] {
            Term::App(pair) => {
                if pair.len() == 2 {
                    lemma_application_source(pair);
                    lemma_eval_term_settles(pair[0], stack, fuel);
                    let predicate = eval_term(pair[0], stack, fuel);
                    match predicate.result {
                        Ok(Term::Bool(true)) => lemma_eval_term_settles(pair[1], predicate.stack, fuel),
                        Ok(Term::Bool(false)) => lemma_cond_from_settles(
                            args,
                            from + 1,
                            predicate.stack,
                            fuel,
                        ),
                        _ => {},
                    }
                }
            },
            _ => {},
        }
    }
}

/// The operands of an `and` settle.
pub proof fn lemma_and_from_settles(args: Seq<Term>, from: int, stack: Stack, fuel: nat)
    requires
        stack_is_valid(stack),
        all_source(args),
        0 <= from <= args.len(),
    ensures
        settled(stack, and_from(args, from, stack, fuel)),
    decreases fuel, args, args.len() - from,
{
    if from < args.len() {
        lemma_eval_term_settles(args[from], stack, fuel);
        let operand = eval_term(args[from], stack, fuel);
        match operand.result {
            Ok(Term::Bool(true)) => lemma_and_from_settles(args, from + 1, operand.stack, fuel),
            _ => {},
        }
    }
}

/// The operands of an `or` settle.
pub proof fn lemma_or_from_settles(args: Seq<Term>, from: int, stack: Stack, fuel: nat)
    requires
        stack_is_valid(stack),
        all_source(args),
        0 <= from <= args.len(),
    ensures
        settled(stack, or_from(args, from, stack, fuel)),
    decreases fuel, args, args.len() - from,
{
    if from < args.len() {
        lemma_eval_term_settles(args[from], stack, fuel);
        let operand = eval_term(args[from], stack, fuel);
        match operand.result {
            Ok(Term::Bool(false)) => lemma_or_from_settles(args, from + 1, operand.stack, fuel),
            _ => {},
        }
    }
}

} // verus!
