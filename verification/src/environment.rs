//! The environment: a stack of frames, innermost last, each a mapping from
//! names to values. The first frame is the global one and is never popped.
use crate::semantics::{keyword_table, special_form_of, SpecialForm};
use crate::types::{Expression, Term};
use std::rc::Rc;
use vstd::hash_map::StringHashMap;
use vstd::prelude::*;

verus! {

/// The model of a frame.
pub type Scope = Map<Seq<char>, Term>;

/// The model of an environment: its frames, innermost last.
pub type Stack = Seq<Scope>;

/// The binding that a name resolves to: that of the innermost frame that
/// holds the name.
pub open spec fn lookup(stack: Stack, name: Seq<char>) -> Option<Term>
    decreases stack.len(),
{
    if stack.len() == 0 {
        None
    } else if stack.last().contains_key(name) {
        Some(stack.last()[name])
    } else {
        lookup(stack.drop_last(), name)
    }
}

/// The stack after binding a name in its innermost frame.
pub open spec fn bind(stack: Stack, name: Seq<char>, value: Term) -> Stack
    recommends
        stack.len() > 0,
{
    stack.update(stack.len() - 1, stack.last().insert(name, value))
}

/// Whether every binding of the frame is a value.
pub open spec fn scope_holds_values(scope: Scope) -> bool {
    forall|name: Seq<char>| scope.contains_key(name) ==> (#[trigger] scope[name]).is_value()
}

/// Whether the stack has its global frame and binds nothing but values.
pub open spec fn stack_is_valid(stack: Stack) -> bool {
    &&& stack.len() >= 1
    &&& forall|i: int| 0 <= i < stack.len() ==> scope_holds_values(#[trigger] stack[i])
}

/// The model of the bindings of a hash map of expressions.
pub open spec fn scope_of(bindings: Map<Seq<char>, Rc<Expression>>) -> Scope {
    Map::new(|name: Seq<char>| bindings.contains_key(name), |name: Seq<char>| bindings[name]@)
}

/// A name that no frame above `from` holds resolves as in the frames up to
/// `from`.
pub proof fn lemma_lookup_skips(stack: Stack, name: Seq<char>, from: int)
    requires
        0 <= from <= stack.len(),
        forall|j: int| from <= j < stack.len() ==> !(#[trigger] stack[j]).contains_key(name),
    ensures
        lookup(stack, name) == lookup(stack.take(from), name),
    decreases stack.len() - from,
{
    if from == stack.len() {
        assert(stack.take(from) =~= stack);
    } else {
        let shorter = stack.drop_last();
        lemma_lookup_skips(shorter, name, from);
        assert(shorter.take(from) =~= stack.take(from));
    }
}

/// What a name resolves to in a valid stack is a value.
pub proof fn lemma_lookup_is_value(stack: Stack, name: Seq<char>)
    requires
        stack_is_valid(stack),
    ensures
        lookup(stack, name) matches Some(value) ==> value.is_value(),
    decreases stack.len(),
{
    if stack.last().contains_key(name) {
        let top = stack[stack.len() - 1];
        assert(scope_holds_values(top));
        assert(top[name].is_value());
    } else if stack.len() > 1 {
        let shorter = stack.drop_last();
        assert forall|i: int| 0 <= i < shorter.len() implies scope_holds_values(
            #[trigger] shorter[i],
        ) by {
            assert(shorter[i] == stack[i]);
        }
        lemma_lookup_is_value(shorter, name);
    } else {
        assert(lookup(stack.drop_last(), name) is None);
    }
}

/// Binding a value in the innermost frame keeps a stack valid.
pub proof fn lemma_bind_valid(stack: Stack, name: Seq<char>, value: Term)
    requires
        stack_is_valid(stack),
        value.is_value(),
    ensures
        stack_is_valid(bind(stack, name, value)),
{
    let bound = bind(stack, name, value);
    assert forall|i: int| 0 <= i < bound.len() implies scope_holds_values(#[trigger] bound[i]) by {
        assert(scope_holds_values(stack[i]));
    }
}

/// One frame: a mapping from names to values.
pub(crate) struct Frame {
    bindings: StringHashMap<Rc<Expression>>,
}

impl View for Frame {
    type V = Scope;

    closed spec fn view(&self) -> Scope {
        scope_of(self.bindings@)
    }
}

impl Frame {
    /// Whether every binding of the frame is a value.
    pub(crate) open spec fn wf(&self) -> bool {
        scope_holds_values(self@)
    }

    /// A frame without bindings.
    pub(crate) fn new() -> (frame: Frame)
        ensures
            frame@ == Scope::empty(),
            frame.wf(),
    {
        Frame { bindings: StringHashMap::new() }
    }

    /// Binds `name` to `value`, replacing what the name was bound to.
    pub(crate) fn insert(&mut self, name: String, value: Rc<Expression>)
        requires
            old(self).wf(),
            value@.is_value(),
        ensures
            final(self)@ == old(self)@.insert(name@, value@),
            final(self).wf(),
    {
        self.bindings.insert(name, value);
        assert(self@ =~= old(self)@.insert(name@, value@));
    }

    /// The value that `name` is bound to in this frame, if any.
    pub(crate) fn get(&self, name: &str) -> (found: Option<Rc<Expression>>)
        ensures
            match found {
                Some(value) => self@.contains_key(name@) && value@ == self@[name@],
                None => !self@.contains_key(name@),
            },
    {
        match self.bindings.get(name) {
            Some(value) => Some(Rc::clone(value)),
            None => None,
        }
    }
}

/// The model of a list of frames.
pub(crate) open spec fn stack_of(frames: Seq<Frame>) -> Stack {
    Seq::new(frames.len(), |i: int| frames[i]@)
}

/// The stack of frames against which expressions are evaluated, with a
/// bound on how deep procedure calls may nest.
pub struct Environment {
    frames: Vec<Frame>,
    capacity: usize,
    keywords: StringHashMap<SpecialForm>,
}

impl View for Environment {
    type V = Stack;

    closed spec fn view(&self) -> Stack {
        stack_of(self.frames@)
    }
}

impl Environment {
    /// How many call frames may stand above the global frame.
    pub closed spec fn capacity(&self) -> nat {
        self.capacity as nat
    }

    /// How many more call frames the environment has room for.
    pub open spec fn remaining(&self) -> nat {
        (self.capacity() + 1 - self@.len()) as nat
    }

    /// The invariant of an environment: the global frame is there, calls
    /// nest no deeper than the capacity, and every binding is a value.
    pub open spec fn wf(&self) -> bool {
        &&& stack_is_valid(self@)
        &&& self@.len() <= self.capacity() + 1
        &&& self.knows_keywords()
    }

    /// Whether the environment's keyword table is the language's.
    pub closed spec fn knows_keywords(&self) -> bool {
        self.keywords@ == keyword_table()
    }

    /// An environment that holds the empty global frame and lets procedure
    /// calls nest `capacity` deep.
    pub fn new(capacity: usize) -> (env: Environment)
        ensures
            env@ == seq![Scope::empty()],
            env.capacity() == capacity,
            env.wf(),
    {
        let mut frames: Vec<Frame> = Vec::new();
        frames.push(Frame::new());
        let mut keywords: StringHashMap<SpecialForm> = StringHashMap::new();
        keywords.insert(String::from_str("+"), SpecialForm::Add);
        keywords.insert(String::from_str("-"), SpecialForm::Sub);
        keywords.insert(String::from_str("*"), SpecialForm::Mul);
        keywords.insert(String::from_str("/"), SpecialForm::Div);
        keywords.insert(String::from_str("define"), SpecialForm::Define);
        keywords.insert(String::from_str("cond"), SpecialForm::Cond);
        keywords.insert(String::from_str("if"), SpecialForm::If);
        keywords.insert(String::from_str("<"), SpecialForm::LessThan);
        keywords.insert(String::from_str("="), SpecialForm::Equal);
        keywords.insert(String::from_str("and"), SpecialForm::And);
        keywords.insert(String::from_str("or"), SpecialForm::Or);
        keywords.insert(String::from_str("remainder"), SpecialForm::Remainder);
        Environment { frames, capacity, keywords }
    }

    /// The special form that `name` stands for, if it is a keyword. The
    /// table is a hash map filled once, when the environment is made.
    pub fn special_form(&self, name: &str) -> (form: Option<SpecialForm>)
        requires
            self.knows_keywords(),
        ensures
            form == special_form_of(name@),
    {
        match self.keywords.get(name) {
            Some(form) => Some(*form),
            None => None,
        }
    }

    /// The number of frames, the global one included.
    pub fn depth(&self) -> (n: usize)
        ensures
            n == self@.len(),
    {
        self.frames.len()
    }

    /// The bound on the nesting of procedure calls.
    pub fn max_depth(&self) -> (n: usize)
        ensures
            n == self.capacity(),
    {
        self.capacity
    }

    /// The value that `name` resolves to: frames are searched from the
    /// innermost to the global one.
    pub fn lookup(&self, name: &str) -> (found: Option<Rc<Expression>>)
        ensures
            match found {
                Some(value) => lookup(self@, name@) == Some(value@),
                None => lookup(self@, name@) is None,
            },
    {
        let mut i: usize = self.frames.len();
        proof {
            lemma_lookup_skips(self@, name@, i as int);
        }
        while i > 0
            invariant
                i <= self.frames.len(),
                self@ == stack_of(self.frames@),
                lookup(self@, name@) == lookup(self@.take(i as int), name@),
            decreases i,
        {
            i -= 1;
            let ghost upper = self@.take(i + 1);
            assert(upper.drop_last() =~= self@.take(i as int));
            match self.frames[i].get(name) {
                Some(value) => {
                    return Some(value);
                },
                None => {},
            }
        }
        None
    }

    /// Binds `name` to `value` in the innermost frame.
    pub fn define(&mut self, name: String, value: Rc<Expression>)
        requires
            old(self).wf(),
            value@.is_value(),
        ensures
            final(self)@ == bind(old(self)@, name@, value@),
            final(self).capacity() == old(self).capacity(),
            final(self).wf(),
    {
        let last = self.frames.len() - 1;
        assert(old(self)@[last as int] == self.frames@[last as int]@);
        let frame = &mut self.frames[last];
        frame.insert(name, value);
        proof {
            lemma_bind_valid(old(self)@, name@, value@);
        }
    }

    /// Pushes a frame for a procedure call.
    pub(crate) fn push_frame(&mut self, frame: Frame)
        requires
            old(self).wf(),
            old(self).remaining() > 0,
            frame.wf(),
        ensures
            final(self)@ == old(self)@.push(frame@),
            final(self).capacity() == old(self).capacity(),
            final(self).wf(),
    {
        self.frames.push(frame);
        assert(self@ =~= old(self)@.push(frame@));
    }

    /// Pops the innermost frame, which must not be the global one.
    pub(crate) fn pop_frame(&mut self)
        requires
            old(self).wf(),
            old(self)@.len() >= 2,
        ensures
            final(self)@ == old(self)@.drop_last(),
            final(self).capacity() == old(self).capacity(),
            final(self).wf(),
    {
        self.frames.pop();
        assert(self@ =~= old(self)@.drop_last());
    }
}

} // verus!
