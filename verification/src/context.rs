//! The variable environment and the expression evaluator behind it.
//!
//! A [`Context`] holds the variables of a play session: strings, booleans
//! and numbers by name. It keeps them in an `evalexpr::HashMapContext`, and
//! guards and assigned expressions are evaluated by `evalexpr`.
//!
//! A context is made empty and filled through [`Context::set`] alone. So it
//! never holds a function, its values are never tuples, and the functions
//! that `evalexpr` has built in are switched off in it. An expression is
//! made of literals, variables and operators, without the power operator
//! `^`, and has at most [`MAX_EXPRESSION`] characters. With that an
//! evaluation returns, and what it returns depends on the expression and on
//! the variables alone: integer arithmetic is checked, and what is left of
//! the arithmetic on decimal numbers is exact or correctly rounded.

use vstd::prelude::*;
use vstd::string::StrSliceExecFns;
use crate::line::characters;
use crate::machine::ServerError;

verus! {

/// The most characters that an expression may have. Evaluation goes as deep
/// as an expression is nested, and an expression is nested at most as deep
/// as it is long.
pub const MAX_EXPRESSION: usize = 1024;

/// `evalexpr::HashMapContext`: variables and functions by name.
#[verifier::external_type_specification]
#[verifier::external_body]
pub struct ExHashMapContext(evalexpr::HashMapContext);

/// `evalexpr::Value`: what an expression evaluates to.
#[verifier::external_type_specification]
#[verifier::external_body]
pub struct ExValue(evalexpr::Value);

/// `evalexpr::EvalexprError`: why an expression could not be evaluated.
#[verifier::external_type_specification]
#[verifier::external_body]
pub struct ExEvalexprError(evalexpr::EvalexprError);

/// What kind of value a value is.
#[derive(Debug, Clone, Copy, PartialEq, Eq, Structural)]
pub enum ValueKind {
    Text,
    Integer,
    Decimal,
    Boolean,
    Tuple,
    Empty,
}

/// Why a variable was not set.
#[derive(Debug, Clone, Copy, PartialEq, Eq, Structural)]
pub enum ContextError {
    /// The value is a tuple or the empty value: a variable holds a string,
    /// a boolean or a number.
    Unsupported,
    /// The variable holds a value of another kind: a variable keeps the
    /// kind of its first value.
    Mismatch,
}

/// The variables that a context holds, each name with its value.
pub uninterp spec fn bound_values(context: evalexpr::HashMapContext) -> Map<
    Seq<char>,
    evalexpr::Value,
>;

/// The variant of a value.
pub uninterp spec fn kind_named(value: evalexpr::Value) -> ValueKind;

/// Whether an error says that an identifier is bound to no variable.
pub uninterp spec fn names_unbound(error: evalexpr::EvalexprError) -> bool;

/// What `evalexpr::eval_boolean_with_context` makes of an expression, in a
/// context that holds the given variables, no function, and has the
/// built-in functions switched off.
pub uninterp spec fn guard_evaluated(
    expression: Seq<char>,
    variables: Map<Seq<char>, evalexpr::Value>,
) -> Result<bool, evalexpr::EvalexprError>;

/// What `evalexpr::eval_with_context` makes of an expression, in a context
/// that holds the given variables, no function, and has the built-in
/// functions switched off.
pub uninterp spec fn value_evaluated(
    expression: Seq<char>,
    variables: Map<Seq<char>, evalexpr::Value>,
) -> Result<evalexpr::Value, evalexpr::EvalexprError>;

/// The variables that guards and assigned expressions are evaluated with.
pub struct Context {
    inner: evalexpr::HashMapContext,
}

/// An expression that is handed to the evaluator: it is not longer than
/// [`MAX_EXPRESSION`], and the character `^` does not occur in it. That
/// leaves out the power operator, whose result the platform decides; it
/// leaves out a `^` in a string literal as well.
pub open spec fn admitted(expression: Seq<char>) -> bool {
    expression.len() <= MAX_EXPRESSION && !expression.contains('^')
}

/// A variable can hold a value of this kind: a string, a boolean or a
/// number.
pub open spec fn is_scalar_kind(kind: ValueKind) -> bool {
    kind is Text || kind is Integer || kind is Decimal || kind is Boolean
}

/// The kind of failure that an evaluation error is reported as, given
/// whether the error says that an identifier is bound to no variable.
pub open spec fn failure_kind(unbound: bool) -> ServerError {
    if unbound {
        ServerError::UnknownVariable
    } else {
        ServerError::InvalidExpression
    }
}

/// Calls `HashMapContext::new`, which makes a context without variables and
/// without functions.
#[verifier::external_body]
fn empty_context() -> (r: Context)
    ensures
        bound_values(r.inner) == no_values(),
{
    Context { inner: evalexpr::HashMapContext::new() }
}

/// Calls `set_builtin_functions_disabled` with `true`, which sets the flag
/// of the context that keeps evaluation from calling the functions that
/// `evalexpr` has built in. For a `HashMapContext` the call always succeeds,
/// and it leaves the variables as they are.
#[verifier::external_body]
fn switch_builtins_off(context: &mut Context)
    ensures
        bound_values(final(context).inner) == bound_values(old(context).inner),
{
    let _ = evalexpr::Context::set_builtin_functions_disabled(&mut context.inner, true);
}

/// Calls `HashMapContext::clone`, which copies the variables.
#[verifier::external_body]
fn copy_context(context: &Context) -> (r: Context)
    ensures
        bound_values(r.inner) == bound_values(context.inner),
{
    Context { inner: context.inner.clone() }
}

/// Calls `HashMapContext::set_value`. If the context holds no variable
/// under `name`, the call puts the value there and succeeds. If it holds
/// one, the call succeeds exactly if the old and the new value are of one
/// kind, and then replaces the value. A call that fails changes nothing.
#[verifier::external_body]
fn put(context: &mut Context, name: String, value: evalexpr::Value) -> (r: Result<
    (),
    evalexpr::EvalexprError,
>)
    ensures
        r is Ok <==> fits(bound_values(old(context).inner), name@, value),
        r is Ok ==> bound_values(final(context).inner) == bound_values(
            old(context).inner,
        ).insert(name@, value),
        r is Err ==> bound_values(final(context).inner) == bound_values(old(context).inner),
{
    evalexpr::ContextWithMutableVariables::set_value(&mut context.inner, name, value)
}

/// Calls `HashMapContext::get_value`, which looks `name` up among the
/// variables, and copies what it finds.
#[verifier::external_body]
fn look_up(context: &Context, name: &str) -> (r: Option<evalexpr::Value>)
    ensures
        r == found(bound_values(context.inner), name@),
{
    evalexpr::Context::get_value(&context.inner, name).cloned()
}

/// Tells the variants of `evalexpr::Value` apart.
#[verifier::external_body]
fn kind_of(value: &evalexpr::Value) -> (r: ValueKind)
    ensures
        r == kind_named(*value),
{
    match value {
        evalexpr::Value::String(_) => ValueKind::Text,
        evalexpr::Value::Float(_) => ValueKind::Decimal,
        evalexpr::Value::Int(_) => ValueKind::Integer,
        evalexpr::Value::Boolean(_) => ValueKind::Boolean,
        evalexpr::Value::Tuple(_) => ValueKind::Tuple,
        evalexpr::Value::Empty => ValueKind::Empty,
    }
}

/// Calls `evalexpr::eval_boolean_with_context`, which evaluates `expression`
/// with the variables of `context` and fails unless the result is a
/// boolean. That the call returns, and that its result depends on the
/// expression and the variables alone, rests on what a `Context` is and on
/// what is admitted: the context holds no function, the built-in functions
/// are switched off in it and its values are no tuples, so evaluation reads
/// the variables and applies operators alone, which check their arguments;
/// without `^` none of them leaves its result to the platform; and
/// evaluation goes no deeper than the expression is long.
#[verifier::external_body]
fn evaluate_guard(expression: &str, context: &Context) -> (r: Result<
    bool,
    evalexpr::EvalexprError,
>)
    requires
        admitted(expression@),
    ensures
        r == guard_evaluated(expression@, bound_values(context.inner)),
{
    evalexpr::eval_boolean_with_context(expression, &context.inner)
}

/// Calls `evalexpr::eval_with_context`, which evaluates `expression` with
/// the variables of `context`. That the call returns, and that its result
/// depends on the expression and the variables alone, rests on what a
/// `Context` is and on what is admitted, as for a guard.
#[verifier::external_body]
fn evaluate_value(expression: &str, context: &Context) -> (r: Result<
    evalexpr::Value,
    evalexpr::EvalexprError,
>)
    requires
        admitted(expression@),
    ensures
        r == value_evaluated(expression@, bound_values(context.inner)),
{
    evalexpr::eval_with_context(expression, &context.inner)
}

/// Tells whether an evaluation failed because an identifier was not bound to
/// a variable (`EvalexprError::VariableIdentifierNotFound`).
#[verifier::external_body]
fn is_unbound_variable(error: &evalexpr::EvalexprError) -> (r: bool)
    ensures
        r == names_unbound(*error),
{
    matches!(error, evalexpr::EvalexprError::VariableIdentifierNotFound(_))
}

/// No variables.
pub open spec fn no_values() -> Map<Seq<char>, evalexpr::Value> {
    Map::empty()
}

/// A value can go under a name: no variable is held under the name, or the
/// one that is held is of the kind of the value.
pub open spec fn fits(
    held: Map<Seq<char>, evalexpr::Value>,
    name: Seq<char>,
    value: evalexpr::Value,
) -> bool {
    !held.contains_key(name) || kind_named(held[name]) == kind_named(value)
}

/// The value held under a name, if one is.
pub open spec fn found(held: Map<Seq<char>, evalexpr::Value>, name: Seq<char>) -> Option<
    evalexpr::Value,
> {
    if held.contains_key(name) {
        Some(held[name])
    } else {
        None
    }
}

/// The kind of failure that an evaluation error is reported as, given
/// whether the error says that an identifier is bound to no variable: if it
/// does the kind is `UnknownVariable`, and `InvalidExpression` if it does not.
fn classify(unbound: bool) -> (r: ServerError)
    ensures
        r == failure_kind(unbound),
{
    match unbound {
        true => ServerError::UnknownVariable,
        false => ServerError::InvalidExpression,
    }
}

/// Whether a variable can hold a value of this kind: a string, a boolean or
/// a number.
pub fn is_scalar(kind: ValueKind) -> (r: bool)
    ensures
        r == is_scalar_kind(kind),
{
    match kind {
        ValueKind::Text | ValueKind::Integer | ValueKind::Decimal | ValueKind::Boolean => true,
        ValueKind::Tuple | ValueKind::Empty => false,
    }
}

/// Whether an expression is handed to the evaluator.
pub fn is_admitted(expression: &str) -> (r: bool)
    ensures
        r == admitted(expression@),
{
    if expression.unicode_len() > MAX_EXPRESSION {
        return false;
    }
    let chars: Vec<char> = characters(expression);
    let n: usize = chars.len();
    let mut i: usize = 0;
    while i < n
        invariant
            n == chars.len(),
            i <= n,
            chars@ == expression@,
            expression@.len() <= MAX_EXPRESSION,
            forall|k: int| 0 <= k < i ==> chars[k] != '^',
        decreases n - i,
    {
        if chars[i] == '^' {
            assert(chars@[i as int] == '^');
            return false;
        }
        i = i + 1;
    }
    assert(!chars@.contains('^'));
    true
}

impl Context {
    /// The variables that the context holds, each name with its value.
    pub closed spec fn variables(self) -> Map<Seq<char>, evalexpr::Value> {
        bound_values(self.inner)
    }

    /// What a guard comes to: `InvalidExpression` if it is not admitted;
    /// else its truth, or the kind of failure that the evaluator's error is
    /// reported as.
    pub open spec fn guard(self, expression: Seq<char>) -> Result<bool, ServerError> {
        if admitted(expression) {
            match guard_evaluated(expression, self.variables()) {
                Ok(holds) => Ok(holds),
                Err(error) => Err(failure_kind(names_unbound(error))),
            }
        } else {
            Err(ServerError::InvalidExpression)
        }
    }

    /// What an assignment comes to: `UnknownVariable` if the variable is
    /// not declared; else `InvalidExpression` if the expression is not
    /// admitted; else the value of the expression, or the kind of failure
    /// that the evaluator's error is reported as.
    pub open spec fn assigned(self, variable: Seq<char>, expression: Seq<char>) -> Result<
        evalexpr::Value,
        ServerError,
    > {
        if !self.variables().contains_key(variable) {
            Err(ServerError::UnknownVariable)
        } else if admitted(expression) {
            match value_evaluated(expression, self.variables()) {
                Ok(value) => Ok(value),
                Err(error) => Err(failure_kind(names_unbound(error))),
            }
        } else {
            Err(ServerError::InvalidExpression)
        }
    }

    /// A context without variables.
    pub fn new() -> (r: Context)
        ensures
            r.variables() == no_values(),
    {
        let mut context = empty_context();
        switch_builtins_off(&mut context);
        context
    }

    /// Gives the variable called `name` a value, and declares it if the
    /// context does not hold it yet. A tuple or the empty value is refused
    /// as `Unsupported`; else a value whose kind is not that of the value
    /// that the variable holds is refused as `Mismatch`. A refused call
    /// changes nothing.
    pub fn set(&mut self, name: String, value: evalexpr::Value) -> (r: Result<(), ContextError>)
        ensures
            !is_scalar_kind(kind_named(value)) ==> r == Err::<(), ContextError>(
                ContextError::Unsupported,
            ),
            is_scalar_kind(kind_named(value)) && !fits(old(self).variables(), name@, value) ==> r
                == Err::<(), ContextError>(ContextError::Mismatch),
            is_scalar_kind(kind_named(value)) && fits(old(self).variables(), name@, value) ==> r
                is Ok,
            r is Ok ==> final(self).variables() == old(self).variables().insert(name@, value),
            r is Err ==> final(self).variables() == old(self).variables(),
    {
        if !is_scalar(kind_of(&value)) {
            return Err(ContextError::Unsupported);
        }
        match put(self, name, value) {
            Ok(_) => Ok(()),
            Err(_) => Err(ContextError::Mismatch),
        }
    }

    /// The value of the variable called `name`, if the context holds one.
    pub fn get(&self, name: &str) -> (r: Option<evalexpr::Value>)
        ensures
            r == found(self.variables(), name@),
    {
        look_up(self, name)
    }
}

impl Clone for Context {
    fn clone(&self) -> (r: Self)
        ensures
            r.variables() == self.variables(),
    {
        copy_context(self)
    }
}

/// Whether the context holds a variable called `name`.
pub fn is_declared(context: &Context, name: &str) -> (r: bool)
    ensures
        r == context.variables().contains_key(name@),
{
    look_up(context, name).is_some()
}

/// Evaluates a guard. A guard that is not admitted, because it has more
/// than [`MAX_EXPRESSION`] characters or holds a `^`, is refused as
/// `InvalidExpression` without being evaluated. A guard that reads a
/// variable which the context does not hold is refused as `UnknownVariable`;
/// one that cannot be evaluated, or is no boolean, as `InvalidExpression`.
pub fn guard_holds(context: &Context, expression: &str) -> (r: Result<bool, ServerError>)
    ensures
        r == context.guard(expression@),
{
    if !is_admitted(expression) {
        return Err(ServerError::InvalidExpression);
    }
    match evaluate_guard(expression, context) {
        Ok(holds) => Ok(holds),
        Err(error) => Err(classify(is_unbound_variable(&error))),
    }
}

/// Evaluates the expression of an assignment to `variable`. The variable
/// has to be declared: if the context does not hold it, the assignment is
/// refused as `UnknownVariable` and nothing is evaluated. Else an
/// expression that is not admitted is refused as `InvalidExpression`
/// without being evaluated. An expression that reads a variable which the
/// context does not hold is refused as `UnknownVariable` too; one that
/// cannot be evaluated as `InvalidExpression`.
pub fn assigned_value(context: &Context, variable: &str, expression: &str) -> (r: Result<
    evalexpr::Value,
    ServerError,
>)
    ensures
        r == context.assigned(variable@, expression@),
{
    if !is_declared(context, variable) {
        return Err(ServerError::UnknownVariable);
    }
    if !is_admitted(expression) {
        return Err(ServerError::InvalidExpression);
    }
    match evaluate_value(expression, context) {
        Ok(value) => Ok(value),
        Err(error) => Err(classify(is_unbound_variable(&error))),
    }
}

} // verus!
