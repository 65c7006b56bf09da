//! Expressions and procedure values, and the terms that model them.
use crate::number::Number;
use std::rc::Rc;
use vstd::prelude::*;

verus! {

/// The mathematical model of an expression: what contracts speak of.
pub enum Term {
    /// A number.
    Num(Number),
    /// A boolean literal.
    Bool(bool),
    /// A name to be resolved against the environment, or a keyword.
    Ident(Seq<char>),
    /// A parenthesized form: the operator position and its operands.
    App(Seq<Term>),
    /// A procedure value: parameter names and body.
    Proc(Seq<Seq<char>>, Box<Term>),
}

/// An expression of the language, or a value that evaluation produced.
#[derive(Debug, Clone, PartialEq)]
pub enum Expression {
    /// A number.
    Numeric(Number),
    /// A name to be resolved against the environment, or a keyword.
    Identifier(String),
    /// A parenthesized form: the operator position and its operands.
    SExpr(Vec<Rc<Expression>>),
    /// A procedure value; only evaluation makes one.
    Procedure(Procedure),
    /// A boolean literal.
    Boolean(bool),
}

/// A user-defined procedure: its parameter names, in order, and the body
/// that every call shares. It captures no environment.
#[derive(Debug, Clone, PartialEq)]
pub struct Procedure {
    arg_ids: Vec<String>,
    body: Rc<Expression>,
}

/// The names of a list of strings.
pub open spec fn names_of(ids: Seq<String>) -> Seq<Seq<char>> {
    Seq::new(ids.len(), |i: int| ids[i]@)
}

/// The terms of a list of expressions.
pub open spec fn terms_of(items: Seq<Rc<Expression>>) -> Seq<Term> {
    Seq::new(items.len(), |i: int| items[i]@)
}

/// The term that models an expression.
pub open spec fn term_of(e: Expression) -> Term
    decreases e,
{
    match e {
        Expression::Numeric(n) => Term::Num(n),
        Expression::Identifier(name) => Term::Ident(name@),
        Expression::SExpr(items) => Term::App(
            Seq::new(
                items@.len(),
                |i: int|
                    if 0 <= i < items@.len() {
                        term_of(*items@[i])
                    } else {
                        Term::Bool(false)
                    },
            ),
        ),
        Expression::Procedure(p) => Term::Proc(p.params(), Box::new(p.body_term())),
        Expression::Boolean(b) => Term::Bool(b),
    }
}

impl View for Expression {
    type V = Term;

    open spec fn view(&self) -> Term {
        term_of(*self)
    }
}

impl Term {
    /// Whether the term is source text: it holds no procedure value
    /// anywhere. Only evaluation produces procedure values.
    pub open spec fn is_source(self) -> bool
        decreases self,
    {
        match self {
            Term::App(items) => forall|i: int| 0 <= i < items.len() ==> (#[trigger] items[i]).is_source(),
            Term::Proc(_, _) => false,
            _ => true,
        }
    }

    /// Whether the term is a value: a number, a boolean, or a procedure
    /// whose body is source text.
    pub open spec fn is_value(self) -> bool {
        match self {
            Term::Num(_) => true,
            Term::Bool(_) => true,
            Term::Proc(_, body) => body.is_source(),
            _ => false,
        }
    }
}

/// Every item of a source application is source.
pub proof fn lemma_source_item(items: Seq<Term>, i: int)
    requires
        Term::App(items).is_source(),
        0 <= i < items.len(),
    ensures
        items[i].is_source(),
{
    let t = Term::App(items);
    assert(t->App_0[i] == items[i]);
}

/// The term of an application is the application of its items' terms.
pub proof fn lemma_view_of_application(items: Vec<Rc<Expression>>)
    ensures
        Expression::SExpr(items)@ == Term::App(terms_of(items@)),
{
    assert(Expression::SExpr(items)@->App_0 =~= terms_of(items@));
}

impl Expression {
    /// Tests whether the expression is a number.
    pub fn is_number(&self) -> (r: bool)
        ensures
            r == (self@ is Num),
    {
        match self {
            Expression::Numeric(_) => true,
            _ => false,
        }
    }

    /// Tests whether the expression is an identifier.
    pub fn is_identifier(&self) -> (r: bool)
        ensures
            r == (self@ is Ident),
    {
        match self {
            Expression::Identifier(_) => true,
            _ => false,
        }
    }

    /// Tests whether the expression holds no procedure value anywhere.
    pub fn is_source(&self) -> (r: bool)
        ensures
            r == self@.is_source(),
        decreases self,
    {
        match self {
            Expression::SExpr(items) => {
                proof {
                    lemma_view_of_application(*items);
                }
                let mut i: usize = 0;
                while i < items.len()
                    invariant
                        i <= items.len(),
                        *self == Expression::SExpr(*items),
                        self@ == Term::App(terms_of(items@)),
                        forall|j: int| 0 <= j < i ==> (#[trigger] items@[j])@.is_source(),
                    decreases items.len() - i,
                {
                    if !items[i].is_source() {
                        proof {
                            if self@.is_source() {
                                lemma_source_item(terms_of(items@), i as int);
                            }
                        }
                        return false;
                    }
                    i += 1;
                }
                true
            },
            Expression::Procedure(_) => false,
            _ => true,
        }
    }

    /// Tests whether the expression is a value: a number, a boolean, or a
    /// procedure whose body holds no procedure value.
    pub fn is_value(&self) -> (r: bool)
        ensures
            r == self@.is_value(),
    {
        match self {
            Expression::Numeric(_) => true,
            Expression::Boolean(_) => true,
            Expression::Procedure(p) => {
                assert(p.body_term() == p.body@);
                p.body.is_source()
            },
            _ => false,
        }
    }
}

impl From<i32> for Expression {
    fn from(x: i32) -> (e: Expression) {
        Expression::Numeric(Number::Integer(x))
    }
}

impl vstd::std_specs::convert::FromSpecImpl<i32> for Expression {
    open spec fn obeys_from_spec() -> bool {
        true
    }

    open spec fn from_spec(x: i32) -> Expression {
        Expression::Numeric(Number::Integer(x))
    }
}

impl Procedure {
    /// The parameter names, in order.
    pub closed spec fn params(&self) -> Seq<Seq<char>> {
        names_of(self.arg_ids@)
    }

    /// The term of the body.
    pub closed spec fn body_term(&self) -> Term
        decreases self,
    {
        term_of(*self.body)
    }

    /// The procedure with these parameters and this body.
    pub fn new(arg_ids: Vec<String>, body: Rc<Expression>) -> (p: Procedure)
        ensures
            p.params() == names_of(arg_ids@),
            p.body_term() == body@,
    {
        Procedure { arg_ids, body }
    }

    /// The number of parameters.
    pub fn arity(&self) -> (n: usize)
        ensures
            n == self.params().len(),
    {
        self.arg_ids.len()
    }

    /// The parameter names, in order.
    pub fn get_arg_ids(&self) -> (ids: &Vec<String>)
        ensures
            names_of(ids@) == self.params(),
    {
        &self.arg_ids
    }

    /// A new handle on the shared body.
    pub fn get_body(&self) -> (body: Rc<Expression>)
        ensures
            body@ == self.body_term(),
    {
        Rc::clone(&self.body)
    }
}

} // verus!
