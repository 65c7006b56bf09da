//! Laws of the evaluator, stated over the semantics and proved from it.
use crate::discipline::{
    all_source, lemma_call_procedure_settles, lemma_eval_term_settles, same_but_innermost,
};
use crate::environment::{bind, lookup, stack_is_valid, Stack};
use crate::error::Failure;
use crate::number::Number;
use crate::semantics::{
    and_from, apply_items, arithmetic_form, call_procedure, combine, cond_from, define_form,
    eval_operands, eval_term, first_non_number, fold_numbers, if_form, keyword_table,
    operands_of, operate, or_from, run_special_form, special_form_of, Operator, Outcome,
    SpecialForm,
};
use crate::types::Term;
use vstd::prelude::*;

verus! {

/// The twelve keywords, and the form each stands for.
pub proof fn law_keywords()
    ensures
        special_form_of("+"@) == Some(SpecialForm::Add),
        special_form_of("-"@) == Some(SpecialForm::Sub),
        special_form_of("*"@) == Some(SpecialForm::Mul),
        special_form_of("/"@) == Some(SpecialForm::Div),
        special_form_of("define"@) == Some(SpecialForm::Define),
        special_form_of("cond"@) == Some(SpecialForm::Cond),
        special_form_of("if"@) == Some(SpecialForm::If),
        special_form_of("<"@) == Some(SpecialForm::LessThan),
        special_form_of("="@) == Some(SpecialForm::Equal),
        special_form_of("and"@) == Some(SpecialForm::And),
        special_form_of("or"@) == Some(SpecialForm::Or),
        special_form_of("remainder"@) == Some(SpecialForm::Remainder),
        forall|name: Seq<char>|
            special_form_of(name) is Some <==> (name == "+"@ || name == "-"@ || name == "*"@
                || name == "/"@ || name == "define"@ || name == "cond"@ || name == "if"@ || name
                == "<"@ || name == "="@ || name == "and"@ || name == "or"@ || name
                == "remainder"@),
{
    reveal_strlit("+");
    reveal_strlit("-");
    reveal_strlit("*");
    reveal_strlit("/");
    reveal_strlit("define");
    reveal_strlit("cond");
    reveal_strlit("if");
    reveal_strlit("<");
    reveal_strlit("=");
    reveal_strlit("and");
    reveal_strlit("or");
    reveal_strlit("remainder");
    assert("-"@[0] == '-');
    assert("*"@[0] == '*');
    assert("/"@[0] == '/');
    assert("<"@[0] == '<');
    assert("="@[0] == '=');
    assert("define"@[0] == 'd');
    assert("cond"@[0] == 'c');
    assert("if"@[0] == 'i');
    assert("and"@[0] == 'a');
    assert("or"@[0] == 'o');
    assert("remainder"@[0] == 'r');
}

/// An operator on fewer than two operands is an arity error, and nothing
/// is evaluated.
pub proof fn law_operator_needs_two_operands(op: Operator, args: Seq<Term>, stack: Stack, fuel: nat)
    requires
        args.len() < 2,
    ensures
        arithmetic_form(op, args, stack, fuel) == (Outcome {
            result: Err(Failure::ArityMismatch { expected: 2, actual: args.len() }),
            stack,
        }),
{
}

/// An unbound `-` applied to one operand is an arity error.
pub proof fn law_subtraction_of_one_operand(operand: Term, stack: Stack, fuel: nat)
    requires
        lookup(stack, "-"@) is None,
    ensures
        eval_term(Term::App(seq![Term::Ident("-"@), operand]), stack, fuel) == (Outcome {
            result: Err(Failure::ArityMismatch { expected: 2, actual: 1 }),
            stack,
        }),
{
    law_keywords();
    let items = seq![Term::Ident("-"@), operand];
    assert(apply_items(items, stack, fuel) == run_special_form(
        SpecialForm::Sub,
        operands_of(items),
        stack,
        fuel,
    ));
}

/// Three numbers fold from the left: `(op a b c)` is `((a op b) op c)`,
/// and fails where one of the two steps is a division that faults.
pub proof fn law_fold_associates_to_the_left(op: Operator, a: Number, b: Number, c: Number)
    ensures
        operate(op, seq![Term::Num(a), Term::Num(b), Term::Num(c)]) == match combine(op, a, b) {
            Some(ab) => match combine(op, ab, c) {
                Some(abc) => Ok(Term::Num(abc)),
                None => Err(Failure::DivisionByZero),
            },
            None => Err(Failure::DivisionByZero),
        },
        operate(Operator::Sub, seq![Term::Num(a), Term::Num(b), Term::Num(c)]) == Ok::<
            Term,
            Failure,
        >(Term::Num(a.minus(b).minus(c))),
{
    let values = seq![Term::Num(a), Term::Num(b), Term::Num(c)];
    reveal_with_fuel(first_non_number, 4);
    reveal_with_fuel(fold_numbers, 3);
    assert(first_non_number(values, 0) is None);
}

/// What a name is bound to in the innermost frame is what it resolves to,
/// whatever it was bound to before, in that stack and under any frames
/// pushed later that do not bind the name themselves.
pub proof fn law_lookup_after_bind(stack: Stack, name: Seq<char>, value: Term, above: Stack)
    requires
        stack.len() >= 1,
        forall|i: int| 0 <= i < above.len() ==> !(#[trigger] above[i]).contains_key(name),
    ensures
        lookup(bind(stack, name, value), name) == Some(value),
        lookup(bind(stack, name, value) + above, name) == Some(value),
    decreases above.len(),
{
    let bound = bind(stack, name, value);
    assert(bound.last().contains_key(name));
    if above.len() > 0 {
        let whole = bound + above;
        assert(whole.last() == above[above.len() - 1]);
        assert(whole.drop_last() =~= bound + above.drop_last());
        assert forall|i: int| 0 <= i < above.drop_last().len() implies !(
        #[trigger] above.drop_last()[i]).contains_key(name) by {
            assert(above.drop_last()[i] == above[i]);
        }
        law_lookup_after_bind(stack, name, value, above.drop_last());
    } else {
        assert(bound + above =~= bound);
    }
}

/// `(define name expr)`, where it succeeds, returns the value of `expr`
/// and leaves a stack in which `name` evaluates to that value.
pub proof fn law_define_then_lookup(name: Seq<char>, expr: Term, stack: Stack, fuel: nat, later: nat)
    requires
        stack_is_valid(stack),
        expr.is_source(),
    ensures
        ({
            let defined = define_form(seq![Term::Ident(name), expr], stack, fuel);
            defined.result matches Ok(value) ==> {
                &&& eval_term(expr, stack, fuel).result == Ok::<Term, Failure>(value)
                &&& defined.stack == bind(eval_term(expr, stack, fuel).stack, name, value)
                &&& eval_term(Term::Ident(name), defined.stack, later).result == Ok::<
                    Term,
                    Failure,
                >(value)
            }
        }),
{
    lemma_eval_term_settles(expr, stack, fuel);
    let value = eval_term(expr, stack, fuel);
    if let Ok(v) = value.result {
        law_lookup_after_bind(value.stack, name, v, Seq::empty());
    }
}

/// `if` evaluates its predicate and then exactly one branch: the outcome is
/// that of the branch the predicate selects, evaluated in the stack the
/// predicate left. The branch not taken has no part in it.
pub proof fn law_if_takes_one_branch(
    predicate: Term,
    consequent: Term,
    alternative: Term,
    stack: Stack,
    fuel: nat,
)
    ensures
        ({
            let tested = eval_term(predicate, stack, fuel);
            let outcome = if_form(seq![predicate, consequent, alternative], stack, fuel);
            &&& tested.result == Ok::<Term, Failure>(Term::Bool(true)) ==> outcome == eval_term(
                consequent,
                tested.stack,
                fuel,
            )
            &&& tested.result == Ok::<Term, Failure>(Term::Bool(false)) ==> outcome == eval_term(
                alternative,
                tested.stack,
                fuel,
            )
        }),
{
}

/// Where the predicate of an `if` is true, any other alternative gives the
/// same outcome; where it is false, any other consequent does.
pub proof fn law_if_ignores_the_other_branch(
    predicate: Term,
    consequent: Term,
    alternative: Term,
    other: Term,
    stack: Stack,
    fuel: nat,
)
    ensures
        eval_term(predicate, stack, fuel).result == Ok::<Term, Failure>(Term::Bool(true))
            ==> if_form(seq![predicate, consequent, alternative], stack, fuel) == if_form(
            seq![predicate, consequent, other],
            stack,
            fuel,
        ),
        eval_term(predicate, stack, fuel).result == Ok::<Term, Failure>(Term::Bool(false))
            ==> if_form(seq![predicate, consequent, alternative], stack, fuel) == if_form(
            seq![predicate, other, alternative],
            stack,
            fuel,
        ),
{
    law_if_takes_one_branch(predicate, consequent, alternative, stack, fuel);
    law_if_takes_one_branch(predicate, consequent, other, stack, fuel);
    law_if_takes_one_branch(predicate, other, alternative, stack, fuel);
}

/// An `and` whose first `n` operands do not all come out true is decided
/// by them: operands after them are never evaluated, so the outcome is the
/// same whatever follows.
pub proof fn law_and_stops_early(args: Seq<Term>, n: int, from: int, stack: Stack, fuel: nat)
    requires
        0 <= from <= n <= args.len(),
        and_from(args.take(n), from, stack, fuel).result != Ok::<Term, Failure>(Term::Bool(true)),
    ensures
        and_from(args, from, stack, fuel) == and_from(args.take(n), from, stack, fuel),
    decreases n - from,
{
    let prefix = args.take(n);
    if from < n {
        assert(prefix[from] == args[from]);
        let operand = eval_term(args[from], stack, fuel);
        if operand.result == Ok::<Term, Failure>(Term::Bool(true)) {
            law_and_stops_early(args, n, from + 1, operand.stack, fuel);
        }
    }
}

/// An `or` whose first `n` operands do not all come out false is decided
/// by them: operands after them are never evaluated.
pub proof fn law_or_stops_early(args: Seq<Term>, n: int, from: int, stack: Stack, fuel: nat)
    requires
        0 <= from <= n <= args.len(),
        or_from(args.take(n), from, stack, fuel).result != Ok::<Term, Failure>(Term::Bool(false)),
    ensures
        or_from(args, from, stack, fuel) == or_from(args.take(n), from, stack, fuel),
    decreases n - from,
{
    let prefix = args.take(n);
    if from < n {
        assert(prefix[from] == args[from]);
        let operand = eval_term(args[from], stack, fuel);
        if operand.result == Ok::<Term, Failure>(Term::Bool(false)) {
            law_or_stops_early(args, n, from + 1, operand.stack, fuel);
        }
    }
}

/// A `cond` whose first `n` clauses do not all fall through is decided by
/// them: clauses after them are never evaluated.
pub proof fn law_cond_stops_at_first_match(args: Seq<Term>, n: int, from: int, stack: Stack, fuel: nat)
    requires
        0 <= from <= n <= args.len(),
        cond_from(args.take(n), from, stack, fuel).result != Err::<Term, Failure>(
            Failure::NoMatchingClause,
        ),
    ensures
        cond_from(args, from, stack, fuel) == cond_from(args.take(n), from, stack, fuel),
    decreases n - from,
{
    let prefix = args.take(n);
    if from < n {
        assert(prefix[from] == args[from]);
        if let Term::App(pair) = args[from] {
            if pair.len() == 2 {
                let predicate = eval_term(pair[0], stack, fuel);
                if predicate.result == Ok::<Term, Failure>(Term::Bool(false)) {
                    law_cond_stops_at_first_match(args, n, from + 1, predicate.stack, fuel);
                }
            }
        }
    }
}

/// Whether every clause from index `from` on is a pair whose predicate
/// evaluates to false, each in the stack that the one before left.
pub open spec fn every_predicate_is_false(args: Seq<Term>, from: int, stack: Stack, fuel: nat) -> bool
    decreases args.len() - from,
{
    if from < 0 || from >= args.len() {
        true
    } else {
        &&& args[from] matches Term::App(pair)
        &&& pair.len() == 2
        &&& eval_term(pair[0], stack, fuel).result == Ok::<Term, Failure>(Term::Bool(false))
        &&& every_predicate_is_false(args, from + 1, eval_term(pair[0], stack, fuel).stack, fuel)
    }
}

/// A `cond` in which no predicate is satisfied fails with
/// `NoMatchingClause`.
pub proof fn law_cond_without_match(args: Seq<Term>, from: int, stack: Stack, fuel: nat)
    requires
        0 <= from <= args.len(),
        every_predicate_is_false(args, from, stack, fuel),
    ensures
        cond_from(args, from, stack, fuel).result == Err::<Term, Failure>(
            Failure::NoMatchingClause,
        ),
    decreases args.len() - from,
{
    if from < args.len() {
        let pair = args[from]->App_0;
        law_cond_without_match(args, from + 1, eval_term(pair[0], stack, fuel).stack, fuel);
    }
}

/// A name that is bound takes precedence over the special form of the
/// same name: applying it calls the procedure it is bound to, or fails
/// because it is bound to something else. Only an unbound keyword runs its
/// special form.
pub proof fn law_binding_shadows_keyword(name: Seq<char>, operands: Seq<Term>, stack: Stack, fuel: nat)
    ensures
        ({
            let outcome = eval_term(Term::App(seq![Term::Ident(name)] + operands), stack, fuel);
            match lookup(stack, name) {
                Some(Term::Proc(params, body)) => outcome == call_procedure(
                    params,
                    *body,
                    operands,
                    stack,
                    fuel,
                ),
                Some(value) => outcome == (Outcome {
                    result: Err(Failure::NotAProcedure(value)),
                    stack,
                }),
                None => match special_form_of(name) {
                    Some(form) => outcome == run_special_form(form, operands, stack, fuel),
                    None => outcome == (Outcome {
                        result: Err(Failure::UnboundVariable(name)),
                        stack,
                    }),
                },
            }
        }),
{
    let items = seq![Term::Ident(name)] + operands;
    assert(operands_of(items) =~= operands);
    assert(items[0] == Term::Ident(name));
    let head = eval_term(items[0], stack, fuel);
    assert(head.stack == stack);
    assert(eval_term(Term::App(items), stack, fuel) == apply_items(items, stack, fuel));
}

/// A call leaves nothing behind: the stack after a procedure call is the
/// stack that evaluating its arguments left. Where they left the stack as
/// it was, every name resolves after the call as it did before, so a
/// parameter that was unbound before the call is unbound after it.
pub proof fn law_call_leaves_no_frame(
    params: Seq<Seq<char>>,
    body: Term,
    args: Seq<Term>,
    stack: Stack,
    fuel: nat,
)
    requires
        stack_is_valid(stack),
        body.is_source(),
        all_source(args),
    ensures
        ({
            let called = call_procedure(params, body, args, stack, fuel);
            let evaluated = eval_operands(args, 0, Seq::empty(), stack, fuel);
            &&& called.stack.len() == stack.len()
            &&& args.len() == params.len() ==> called.stack == evaluated.stack
            &&& args.len() != params.len() ==> called.stack == stack
            &&& evaluated.stack == stack ==> forall|name: Seq<char>|
                lookup(called.stack, name) == lookup(stack, name)
        }),
{
    lemma_call_procedure_settles(params, body, args, stack, fuel);
}

/// Evaluation keeps the frame discipline: the stack comes back valid and
/// as deep as it was, no frame but the innermost has changed, and a result
/// is a value, never an identifier or an application.
pub proof fn law_evaluation_settles(t: Term, stack: Stack, fuel: nat)
    requires
        stack_is_valid(stack),
        t.is_source(),
    ensures
        stack_is_valid(eval_term(t, stack, fuel).stack),
        same_but_innermost(stack, eval_term(t, stack, fuel).stack),
        eval_term(t, stack, fuel).result matches Ok(value) ==> value is Num || value is Bool
            || value is Proc,
{
    lemma_eval_term_settles(t, stack, fuel);
}

/// The keyword table is finite and holds twelve names.
pub proof fn law_keyword_table_is_fixed()
    ensures
        keyword_table().dom().finite(),
        keyword_table().dom().len() == 12,
{
    law_keywords();
    let names = set![
        "+"@,
        "-"@,
        "*"@,
        "/"@,
        "define"@,
        "cond"@,
        "if"@,
        "<"@,
        "="@,
        "and"@,
        "or"@,
        "remainder"@,
    ];
    assert(keyword_table().dom() =~= names);
    reveal_strlit("+");
    reveal_strlit("-");
    reveal_strlit("*");
    reveal_strlit("/");
    reveal_strlit("define");
    reveal_strlit("cond");
    reveal_strlit("if");
    reveal_strlit("<");
    reveal_strlit("=");
    reveal_strlit("and");
    reveal_strlit("or");
    reveal_strlit("remainder");
}

} // verus!
