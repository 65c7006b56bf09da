//! What evaluation means: the value and the stack that an expression
//! yields, as functions on terms and stacks.
//!
//! `fuel` is the number of call frames that may still be pushed. A
//! procedure body is evaluated with one unit less; with none left the call
//! fails.
use crate::environment::{bind, lookup, Scope, Stack};
use crate::error::{Context, Failure};
use crate::number::Number;
use crate::types::Term;
use vstd::prelude::*;

verus! {

/// The special forms.
#[derive(Debug, Clone, Copy, PartialEq, Eq)]
pub enum SpecialForm {
    Add,
    Sub,
    Mul,
    Div,
    Define,
    Cond,
    If,
    LessThan,
    Equal,
    And,
    Or,
    Remainder,
}

/// The four operators that fold their operands.
#[derive(Debug, Clone, Copy, PartialEq, Eq)]
pub enum Operator {
    Add,
    Sub,
    Mul,
    Div,
}

/// The two comparisons.
#[derive(Debug, Clone, Copy, PartialEq, Eq)]
pub enum Comparison {
    LessThan,
    Equal,
}

/// What evaluating one expression yields: its value or the failure, and
/// the stack it leaves.
pub struct Outcome {
    pub result: Result<Term, Failure>,
    pub stack: Stack,
}

/// What evaluating a list of operands yields.
pub struct Operands {
    pub result: Result<Seq<Term>, Failure>,
    pub stack: Stack,
}

/// The keyword table: the names that are special forms.
pub open spec fn keyword_table() -> Map<Seq<char>, SpecialForm> {
    Map::<Seq<char>, SpecialForm>::empty().insert("+"@, SpecialForm::Add).insert(
        "-"@,
        SpecialForm::Sub,
    ).insert("*"@, SpecialForm::Mul).insert("/"@, SpecialForm::Div).insert(
        "define"@,
        SpecialForm::Define,
    ).insert("cond"@, SpecialForm::Cond).insert("if"@, SpecialForm::If).insert(
        "<"@,
        SpecialForm::LessThan,
    ).insert("="@, SpecialForm::Equal).insert("and"@, SpecialForm::And).insert(
        "or"@,
        SpecialForm::Or,
    ).insert("remainder"@, SpecialForm::Remainder)
}

/// The special form that a name stands for, if it is a keyword.
pub open spec fn special_form_of(name: Seq<char>) -> Option<SpecialForm> {
    if keyword_table().contains_key(name) {
        Some(keyword_table()[name])
    } else {
        None
    }
}

/// The operands of an application: its items but the first.
pub open spec fn operands_of(items: Seq<Term>) -> Seq<Term>
    recommends
        items.len() >= 1,
{
    items.subrange(1, items.len() as int)
}

/// The frame of a call: each parameter bound to its argument, a later
/// parameter of the same name replacing an earlier one.
pub open spec fn call_frame(params: Seq<Seq<char>>, values: Seq<Term>) -> Scope
    recommends
        params.len() == values.len(),
    decreases params.len(),
{
    if params.len() == 0 {
        Scope::empty()
    } else {
        call_frame(params.drop_last(), values.drop_last()).insert(params.last(), values.last())
    }
}

/// The place that a non-numeric operand of an operator is reported at.
pub open spec fn operand_context(op: Operator) -> Context {
    match op {
        Operator::Add => Context::AddOperand,
        Operator::Sub => Context::SubOperand,
        Operator::Mul => Context::MulOperand,
        Operator::Div => Context::DivOperand,
    }
}

/// One step of a fold: `None` where a division faults.
pub open spec fn combine(op: Operator, acc: Number, next: Number) -> Option<Number> {
    match op {
        Operator::Add => Some(acc.plus(next)),
        Operator::Sub => Some(acc.minus(next)),
        Operator::Mul => Some(acc.times(next)),
        Operator::Div => acc.quotient(next),
    }
}

/// The first value from index `from` on that is no number.
pub open spec fn first_non_number(values: Seq<Term>, from: int) -> Option<Term>
    decreases values.len() - from,
{
    if from < 0 || from >= values.len() {
        None
    } else if values[from] is Num {
        first_non_number(values, from + 1)
    } else {
        Some(values[from])
    }
}

/// Folds the numbers from index `from` on into `acc`, left to right.
pub open spec fn fold_numbers(op: Operator, acc: Number, values: Seq<Term>, from: int) -> Result<
    Term,
    Failure,
>
    decreases values.len() - from,
{
    if from < 0 || from >= values.len() {
        Ok(Term::Num(acc))
    } else {
        match combine(op, acc, values[from]->Num_0) {
            Some(next) => fold_numbers(op, next, values, from + 1),
            None => Err(Failure::DivisionByZero),
        }
    }
}

/// The result of an operator on its evaluated operands: a type mismatch at
/// the first operand that is no number; otherwise the fold that starts from
/// the first operand.
pub open spec fn operate(op: Operator, values: Seq<Term>) -> Result<Term, Failure>
    recommends
        values.len() >= 1,
{
    match first_non_number(values, 0) {
        Some(value) => Err(Failure::TypeMismatch(operand_context(op), value)),
        None => fold_numbers(op, values[0]->Num_0, values, 1),
    }
}

/// The result of a comparison on its two evaluated operands.
pub open spec fn compare(which: Comparison, left: Term, right: Term) -> Result<Term, Failure> {
    match (left, right) {
        (Term::Num(a), Term::Num(b)) => Ok(
            Term::Bool(
                match which {
                    Comparison::LessThan => a.below(b),
                    Comparison::Equal => a.same(b),
                },
            ),
        ),
        (Term::Num(_), _) => Err(
            Failure::TypeMismatch(
                match which {
                    Comparison::LessThan => Context::LessThanRight,
                    Comparison::Equal => Context::EqualRight,
                },
                right,
            ),
        ),
        _ => Err(
            Failure::TypeMismatch(
                match which {
                    Comparison::LessThan => Context::LessThanLeft,
                    Comparison::Equal => Context::EqualLeft,
                },
                left,
            ),
        ),
    }
}

/// The result of `remainder` on its two evaluated operands.
pub open spec fn remainder_of(left: Term, right: Term) -> Result<Term, Failure> {
    match (left, right) {
        (Term::Num(a), Term::Num(b)) => match a.modulo(b) {
            Some(r) => Ok(Term::Num(r)),
            None => Err(Failure::DivisionByZero),
        },
        (Term::Num(_), _) => Err(Failure::TypeMismatch(Context::RemainderRight, right)),
        _ => Err(Failure::TypeMismatch(Context::RemainderLeft, left)),
    }
}

/// Whether every item is an identifier.
pub open spec fn all_identifiers(items: Seq<Term>) -> bool {
    forall|i: int| 0 <= i < items.len() ==> (#[trigger] items[i]) is Ident
}

/// The names of the items from the second on.
pub open spec fn parameter_names(signature: Seq<Term>) -> Seq<Seq<char>> {
    Seq::new((signature.len() - 1) as nat, |i: int| signature[i + 1]->Ident_0)
}

/// Evaluates a term.
///
/// A number, a boolean and a procedure value evaluate to themselves, an
/// identifier to what it resolves to, an application as `apply_items` says.
pub open spec fn eval_term(t: Term, stack: Stack, fuel: nat) -> Outcome
    decreases fuel, t, 0nat,
{
    match t {
        Term::Ident(name) => Outcome {
            result: match lookup(stack, name) {
                Some(value) => Ok(value),
                None => Err(Failure::UnboundVariable(name)),
            },
            stack,
        },
        Term::App(items) => apply_items(items, stack, fuel),
        _ => Outcome { result: Ok(t), stack },
    }
}

/// Evaluates an application.
///
/// The operator position is evaluated first. If that yields a procedure,
/// it is called. If it yields another value, the application fails. If it
/// fails and the operator position is an identifier that names a special
/// form, the form is run on the operands and the failure is forgotten;
/// otherwise the failure stands.
pub open spec fn apply_items(items: Seq<Term>, stack: Stack, fuel: nat) -> Outcome
    decreases fuel, items, items.len() + 2,
{
    if items.len() == 0 {
        Outcome { result: Err(Failure::EmptyApplication), stack }
    } else {
        let head = eval_term(items[0], stack, fuel);
        match head.result {
            Ok(Term::Proc(params, body)) => call_procedure(
                params,
                *body,
                operands_of(items),
                head.stack,
                fuel,
            ),
            Ok(value) => Outcome { result: Err(Failure::NotAProcedure(value)), stack: head.stack },
            Err(failure) => match items[0] {
                Term::Ident(name) => match special_form_of(name) {
                    Some(form) => run_special_form(form, operands_of(items), head.stack, fuel),
                    None => head,
                },
                _ => head,
            },
        }
    }
}

/// Calls a procedure: checks the arity, evaluates the arguments left to
/// right in the caller's stack, pushes the call frame, evaluates the body
/// and pops the frame, whether the body failed or not.
pub open spec fn call_procedure(
    params: Seq<Seq<char>>,
    body: Term,
    args: Seq<Term>,
    stack: Stack,
    fuel: nat,
) -> Outcome
    decreases fuel, args, args.len() + 2,
{
    if args.len() != params.len() {
        Outcome {
            result: Err(Failure::ArityMismatch { expected: params.len(), actual: args.len() }),
            stack,
        }
    } else {
        let evaluated = eval_operands(args, 0, Seq::empty(), stack, fuel);
        match evaluated.result {
            Err(failure) => Outcome { result: Err(failure), stack: evaluated.stack },
            Ok(values) => if fuel == 0 {
                Outcome { result: Err(Failure::DepthExceeded), stack: evaluated.stack }
            } else {
                let inner = eval_term(
                    body,
                    evaluated.stack.push(call_frame(params, values)),
                    (fuel - 1) as nat,
                );
                Outcome { result: inner.result, stack: inner.stack.drop_last() }
            },
        }
    }
}

/// Evaluates the operands from index `from` on, left to right, after the
/// values in `done`; stops at the first failure.
pub open spec fn eval_operands(
    args: Seq<Term>,
    from: int,
    done: Seq<Term>,
    stack: Stack,
    fuel: nat,
) -> Operands
    decreases fuel, args, args.len() - from,
{
    if from < 0 || from >= args.len() {
        Operands { result: Ok(done), stack }
    } else {
        let first = eval_term(args[from], stack, fuel);
        match first.result {
            Err(failure) => Operands { result: Err(failure), stack: first.stack },
            Ok(value) => eval_operands(args, from + 1, done.push(value), first.stack, fuel),
        }
    }
}

/// Runs a special form on its operands.
pub open spec fn run_special_form(form: SpecialForm, args: Seq<Term>, stack: Stack, fuel: nat) -> Outcome
    decreases fuel, args, args.len() + 2,
{
    match form {
        SpecialForm::Add => arithmetic_form(Operator::Add, args, stack, fuel),
        SpecialForm::Sub => arithmetic_form(Operator::Sub, args, stack, fuel),
        SpecialForm::Mul => arithmetic_form(Operator::Mul, args, stack, fuel),
        SpecialForm::Div => arithmetic_form(Operator::Div, args, stack, fuel),
        SpecialForm::Define => define_form(args, stack, fuel),
        SpecialForm::Cond => if args.len() == 0 {
            Outcome { result: Err(Failure::MalformedCond), stack }
        } else {
            cond_from(args, 0, stack, fuel)
        },
        SpecialForm::If => if_form(args, stack, fuel),
        SpecialForm::LessThan => comparison_form(Comparison::LessThan, args, stack, fuel),
        SpecialForm::Equal => comparison_form(Comparison::Equal, args, stack, fuel),
        SpecialForm::And => if args.len() == 0 {
            Outcome { result: Err(Failure::ArityMismatch { expected: 1, actual: 0 }), stack }
        } else {
            and_from(args, 0, stack, fuel)
        },
        SpecialForm::Or => if args.len() == 0 {
            Outcome { result: Err(Failure::ArityMismatch { expected: 1, actual: 0 }), stack }
        } else {
            or_from(args, 0, stack, fuel)
        },
        SpecialForm::Remainder => remainder_form(args, stack, fuel),
    }
}

/// `+`, `-`, `*` and `/`: at least two operands, all evaluated left to
/// right, then folded from the first.
pub open spec fn arithmetic_form(op: Operator, args: Seq<Term>, stack: Stack, fuel: nat) -> Outcome
    decreases fuel, args, args.len() + 1,
{
    if args.len() < 2 {
        Outcome { result: Err(Failure::ArityMismatch { expected: 2, actual: args.len() }), stack }
    } else {
        let evaluated = eval_operands(args, 0, Seq::empty(), stack, fuel);
        match evaluated.result {
            Err(failure) => Outcome { result: Err(failure), stack: evaluated.stack },
            Ok(values) => Outcome { result: operate(op, values), stack: evaluated.stack },
        }
    }
}

/// `<` and `=`: exactly two operands, both evaluated.
pub open spec fn comparison_form(which: Comparison, args: Seq<Term>, stack: Stack, fuel: nat) -> Outcome
    decreases fuel, args, args.len() + 1,
{
    if args.len() != 2 {
        Outcome { result: Err(Failure::ArityMismatch { expected: 2, actual: args.len() }), stack }
    } else {
        let left = eval_term(args[0], stack, fuel);
        match left.result {
            Err(_) => left,
            Ok(a) => {
                let right = eval_term(args[1], left.stack, fuel);
                match right.result {
                    Err(_) => right,
                    Ok(b) => Outcome { result: compare(which, a, b), stack: right.stack },
                }
            },
        }
    }
}

/// `remainder`: exactly two operands, both evaluated.
pub open spec fn remainder_form(args: Seq<Term>, stack: Stack, fuel: nat) -> Outcome
    decreases fuel, args, args.len() + 1,
{
    if args.len() != 2 {
        Outcome { result: Err(Failure::ArityMismatch { expected: 2, actual: args.len() }), stack }
    } else {
        let left = eval_term(args[0], stack, fuel);
        match left.result {
            Err(_) => left,
            Ok(a) => {
                let right = eval_term(args[1], left.stack, fuel);
                match right.result {
                    Err(_) => right,
                    Ok(b) => Outcome { result: remainder_of(a, b), stack: right.stack },
                }
            },
        }
    }
}

/// `define`: binds, in the innermost frame, a name to the value of an
/// expression, or the first name of a list to the procedure whose
/// parameters are the other names and whose body is the second operand,
/// which is not evaluated.
pub open spec fn define_form(args: Seq<Term>, stack: Stack, fuel: nat) -> Outcome
    decreases fuel, args, args.len() + 1,
{
    if args.len() != 2 {
        Outcome { result: Err(Failure::MalformedDefine), stack }
    } else {
        match args[0] {
            Term::Ident(name) => {
                let value = eval_term(args[1], stack, fuel);
                match value.result {
                    Err(_) => value,
                    Ok(v) => Outcome { result: Ok(v), stack: bind(value.stack, name, v) },
                }
            },
            Term::App(signature) => if signature.len() >= 1 && all_identifiers(signature) {
                let procedure = Term::Proc(parameter_names(signature), Box::new(args[1]));
                Outcome {
                    result: Ok(procedure),
                    stack: bind(stack, signature[0]->Ident_0, procedure),
                }
            } else {
                Outcome { result: Err(Failure::MalformedDefine), stack }
            },
            _ => Outcome { result: Err(Failure::MalformedDefine), stack },
        }
    }
}

/// `if`: the predicate is evaluated, then the one branch it selects.
pub open spec fn if_form(args: Seq<Term>, stack: Stack, fuel: nat) -> Outcome
    decreases fuel, args, args.len() + 1,
{
    if args.len() != 3 {
        Outcome { result: Err(Failure::ArityMismatch { expected: 3, actual: args.len() }), stack }
    } else {
        let predicate = eval_term(args[0], stack, fuel);
        match predicate.result {
            Err(_) => predicate,
            Ok(Term::Bool(true)) => eval_term(args[1], predicate.stack, fuel),
            Ok(Term::Bool(false)) => eval_term(args[2], predicate.stack, fuel),
            Ok(value) => Outcome {
                result: Err(Failure::TypeMismatch(Context::IfPredicate, value)),
                stack: predicate.stack,
            },
        }
    }
}

/// The clauses of a `cond` from index `from` on: the value of the first
/// clause whose predicate is true; the clauses after it are not touched.
pub open spec fn cond_from(args: Seq<Term>, from: int, stack: Stack, fuel: nat) -> Outcome
    decreases fuel, args, args.len() - from,
{
    if from < 0 || from >= args.len() {
        Outcome { result: Err(Failure::NoMatchingClause), stack }
    } else {
        match args[from] {
            Term::App(pair) => if pair.len() != 2 {
                Outcome { result: Err(Failure::MalformedCond), stack }
            } else {
                let predicate = eval_term(pair[0], stack, fuel);
                match predicate.result {
                    Err(_) => predicate,
                    Ok(Term::Bool(true)) => eval_term(pair[1], predicate.stack, fuel),
                    Ok(Term::Bool(false)) => cond_from(args, from + 1, predicate.stack, fuel),
                    Ok(value) => Outcome {
                        result: Err(Failure::TypeMismatch(Context::CondPredicate, value)),
                        stack: predicate.stack,
                    },
                }
            },
            _ => Outcome { result: Err(Failure::MalformedCond), stack },
        }
    }
}

/// The operands of an `and` from index `from` on: false at the first
/// operand that is false, and the operands after it are not touched; true
/// when none is left.
pub open spec fn and_from(args: Seq<Term>, from: int, stack: Stack, fuel: nat) -> Outcome
    decreases fuel, args, args.len() - from,
{
    if from < 0 || from >= args.len() {
        Outcome { result: Ok(Term::Bool(true)), stack }
    } else {
        let operand = eval_term(args[from], stack, fuel);
        match operand.result {
            Err(_) => operand,
            Ok(Term::Bool(true)) => and_from(args, from + 1, operand.stack, fuel),
            Ok(Term::Bool(false)) => Outcome { result: Ok(Term::Bool(false)), stack: operand.stack },
            Ok(value) => Outcome {
                result: Err(Failure::TypeMismatch(Context::AndOperand, value)),
                stack: operand.stack,
            },
        }
    }
}

/// The operands of an `or` from index `from` on: true at the first operand
/// that is true, and the operands after it are not touched; false when
/// none is left.
pub open spec fn or_from(args: Seq<Term>, from: int, stack: Stack, fuel: nat) -> Outcome
    decreases fuel, args, args.len() - from,
{
    if from < 0 || from >= args.len() {
        Outcome { result: Ok(Term::Bool(false)), stack }
    } else {
        let operand = eval_term(args[from], stack, fuel);
        match operand.result {
            Err(_) => operand,
            Ok(Term::Bool(false)) => or_from(args, from + 1, operand.stack, fuel),
            Ok(Term::Bool(true)) => Outcome { result: Ok(Term::Bool(true)), stack: operand.stack },
            Ok(value) => Outcome {
                result: Err(Failure::TypeMismatch(Context::OrOperand, value)),
                stack: operand.stack,
            },
        }
    }
}

/// The stack after evaluating the forms from index `from` on, one after
/// the other, whether they fail or not.
pub open spec fn preload(forms: Seq<Term>, from: int, stack: Stack, fuel: nat) -> Stack
    decreases forms.len() - from,
{
    if from < 0 || from >= forms.len() {
        stack
    } else {
        preload(forms, from + 1, eval_term(forms[from], stack, fuel).stack, fuel)
    }
}

} // verus!
