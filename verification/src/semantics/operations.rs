//! What the interpreter asks of the values of a program.

use crate::ast::{
    optional_text, stmts_node_view, BinaryOp, Expr, ExprView, ParForReduction, ReductionView, Span,
    Stmt, StmtNode, TypeName, TypeView,
};
use crate::diagnostic::{Diagnostic, DiagnosticView};
use crate::ir::{stmts_view, LoweredStmt, StmtView};
use crate::semantics::environment::{scope_view, BindingView, Bound, Env};
use crate::semantics::expressions::{CallResult, CallResultView};
use crate::semantics::flow::optional_value;
use crate::semantics::outputs::{Printed, PrintedView};
use crate::semantics::state::{Failure, FailureView, Scopes, State, StateView};
use crate::semantics::values::{values_view, Value, ValueView};
use vstd::prelude::*;

verus! {

/// Arithmetic, conversion and borrowing of values, the calls of functions, and
/// the threads. Nothing is assumed of what they give.
pub trait ValueOperations: Sized {
    /// The value as one of the type.
    fn coerce(&self, value: Value, ty: &TypeName, span: Span) -> Result<Value, Diagnostic>;

    /// The type of a value.
    fn type_of(&self, value: &Value) -> TypeName;

    /// The value of a number as it is written.
    fn number(&self, literal: &String, span: Span) -> Result<Value, Diagnostic>;

    /// The negative of a value.
    fn negate(&self, value: Value, span: Span) -> Result<Value, Diagnostic>;

    /// The opposite of a value.
    fn invert(&self, value: Value, span: Span) -> Result<Value, Diagnostic>;

    /// What an operator makes of two values, other than a logical one.
    fn binary(
        &self,
        op: BinaryOp,
        left: Value,
        right: Value,
        span: Span,
    ) -> Result<Value, Diagnostic>;

    /// A reference to what an expression names, and the names once it is lent.
    fn borrow(
        &self,
        expr: &Expr,
        env: Env,
        mutable: bool,
        span: Span,
    ) -> (Result<Value, Diagnostic>, Env);

    /// The names once what a closed scope has borrowed is given back.
    fn release(&self, popped: Vec<Bound>, env: Env) -> (Result<(), Diagnostic>, Env);

    /// What a receiver refers to, or the receiver itself.
    fn resolve(&self, value: Value, env: &Env, span: Span) -> Result<Value, Diagnostic>;

    /// What a method that every value of the kind has comes to.
    fn call_method(
        &self,
        receiver: Value,
        name: &String,
        args: &Vec<Value>,
        env: Env,
        span: Span,
    ) -> (Result<Value, Diagnostic>, Env);

    /// The text of a key of the type.
    fn key_text(&self, value: Value, ty: &TypeName, span: Span) -> Result<String, Diagnostic>;

    /// The text of a key that has its type.
    fn plain_key_text(&self, value: &Value, span: Span) -> Result<String, Diagnostic>;

    /// The text of a value in a message.
    fn message_text(&self, value: Value, span: Span) -> Result<String, Diagnostic>;

    /// Whether a value stands for a capacity that there can be.
    fn capacity(&self, value: Value, span: Span) -> Result<bool, Diagnostic>;

    /// The text of a character or a number that is printed.
    fn shown(&self, printed: Printed) -> String;

    /// Values in order, by a function of two of them where one is named.
    fn sort(
        &self,
        values: Vec<Value>,
        radix: bool,
        stable: bool,
        comparator: Option<String>,
        env: &Env,
        span: Span,
    ) -> Result<Vec<Value>, Failure>;

    /// What a function of the program comes to in an expression, on names of its
    /// own.
    fn call(&self, at: usize, args: Vec<Value>, env: Env) -> Result<CallResult, Failure>;

    /// What the rounds of a loop lower to that are handed out to threads, inside of
    /// some calls.
    fn parallel(
        &self,
        calls: usize,
        name: &String,
        body: &Vec<Stmt>,
        rounds: &Vec<Value>,
        state: &State,
        span: Span,
    ) -> Result<Vec<LoweredStmt>, Failure>;

    /// What the rounds of a reduction come to that are handed out to threads.
    fn reduce(
        &self,
        name: &String,
        reduction: &ParForReduction,
        ty: &TypeName,
        rounds: &Vec<Value>,
        env: &Env,
        span: Span,
    ) -> Result<Option<Value>, Failure>;
}

/// A value or an error as a mathematical value.
pub open spec fn value_view(
    outcome: Result<Value, Diagnostic>,
) -> Result<ValueView, DiagnosticView> {
    match outcome {
        Ok(found) => Ok(found@),
        Err(error) => Err(error@),
    }
}

/// A text or an error as a mathematical value.
pub open spec fn text_view(
    outcome: Result<String, Diagnostic>,
) -> Result<Seq<char>, DiagnosticView> {
    match outcome {
        Ok(found) => Ok(found@),
        Err(error) => Err(error@),
    }
}

/// A flag or an error as a mathematical value.
pub open spec fn flag_view(outcome: Result<bool, Diagnostic>) -> Result<bool, DiagnosticView> {
    match outcome {
        Ok(found) => Ok(found),
        Err(error) => Err(error@),
    }
}

/// Values or a failure as a mathematical value.
pub open spec fn values_or_failure(
    outcome: Result<Vec<Value>, Failure>,
) -> Result<Seq<ValueView>, FailureView> {
    match outcome {
        Ok(found) => Ok(values_view(found@)),
        Err(failure) => Err(failure@),
    }
}

/// What may be a value, or a failure, as a mathematical value.
pub open spec fn optional_or_failure(
    outcome: Result<Option<Value>, Failure>,
) -> Result<Option<ValueView>, FailureView> {
    match outcome {
        Ok(found) => Ok(optional_value(found)),
        Err(failure) => Err(failure@),
    }
}

/// Lowered statements or a failure as a mathematical value.
pub open spec fn lowered_or_failure(
    outcome: Result<Vec<LoweredStmt>, Failure>,
) -> Result<Seq<StmtView>, FailureView> {
    match outcome {
        Ok(found) => Ok(stmts_view(found@)),
        Err(failure) => Err(failure@),
    }
}

/// What a call came to or a failure as a mathematical value.
pub open spec fn call_or_failure(
    outcome: Result<CallResult, Failure>,
) -> Result<CallResultView, FailureView> {
    match outcome {
        Ok(found) => Ok(found@),
        Err(failure) => Err(failure@),
    }
}

/// What is wrong, if anything is, as a mathematical value.
pub open spec fn problem_view(outcome: Result<(), Diagnostic>) -> Option<DiagnosticView> {
    match outcome {
        Ok(()) => None,
        Err(error) => Some(error@),
    }
}

/// A value or an error, and the names, as a mathematical value.
pub open spec fn value_and_names(outcome: (Result<Value, Diagnostic>, Env)) -> (
    Result<ValueView, DiagnosticView>,
    Scopes,
) {
    (value_view(outcome.0), outcome.1@)
}

/// What is wrong, if anything is, and the names, as a mathematical value.
pub open spec fn problem_and_names(outcome: (Result<(), Diagnostic>, Env)) -> (
    Option<DiagnosticView>,
    Scopes,
) {
    (problem_view(outcome.0), outcome.1@)
}

/// What a call came to or a failure, and the state, as a mathematical value.
pub open spec fn call_and_state(outcome: (Result<CallResult, Failure>, State)) -> (
    Result<CallResultView, FailureView>,
    StateView,
) {
    (call_or_failure(outcome.0), outcome.1@)
}

/// The operation `coerce` may give this.
pub open spec fn may_be_coerced<O: ValueOperations>(
    ops: O,
    value: ValueView,
    ty: TypeView,
    span: Span,
    given: Result<ValueView, DiagnosticView>,
) -> bool {
    exists|in_value: Value, in_ty: TypeName, out: Result<Value, Diagnostic>|
        #[trigger] call_ensures(O::coerce, (&ops, in_value, &in_ty, span), out)
            && in_value@ == value
            && in_ty@ == ty
            && value_view(out) == given
}

/// The value as one of the type.
pub open spec fn coerced<O: ValueOperations>(
    ops: O,
    value: ValueView,
    ty: TypeView,
    span: Span,
) -> Result<ValueView, DiagnosticView> {
    choose|given: Result<ValueView, DiagnosticView>|
        may_be_coerced(ops, value, ty, span, given)
}

/// The operation `coerce` gives the same on the same values.
pub open spec fn settles_coerce<O: ValueOperations>(ops: O) -> bool {
    forall|
        value: ValueView,
        ty: TypeView,
        span: Span,
        first: Result<ValueView, DiagnosticView>,
        second: Result<ValueView, DiagnosticView>,
    |
        #[trigger] may_be_coerced(ops, value, ty, span, first)
            && #[trigger] may_be_coerced(ops, value, ty, span, second)
            ==> first == second
}

/// The operation `type_of` may give this.
pub open spec fn may_be_typed<O: ValueOperations>(
    ops: O,
    value: ValueView,
    given: TypeView,
) -> bool {
    exists|in_value: Value, out: TypeName|
        #[trigger] call_ensures(O::type_of, (&ops, &in_value), out)
            && in_value@ == value
            && out@ == given
}

/// The type of a value.
pub open spec fn typed<O: ValueOperations>(ops: O, value: ValueView) -> TypeView {
    choose|given: TypeView|
        may_be_typed(ops, value, given)
}

/// The operation `type_of` gives the same on the same values.
pub open spec fn settles_type_of<O: ValueOperations>(ops: O) -> bool {
    forall|
        value: ValueView,
        first: TypeView,
        second: TypeView,
    |
        #[trigger] may_be_typed(ops, value, first)
            && #[trigger] may_be_typed(ops, value, second)
            ==> first == second
}

/// The operation `number` may give this.
pub open spec fn may_be_numbered<O: ValueOperations>(
    ops: O,
    literal: Seq<char>,
    span: Span,
    given: Result<ValueView, DiagnosticView>,
) -> bool {
    exists|in_literal: String, out: Result<Value, Diagnostic>|
        #[trigger] call_ensures(O::number, (&ops, &in_literal, span), out)
            && in_literal@ == literal
            && value_view(out) == given
}

/// The value of a number as it is written.
pub open spec fn numbered<O: ValueOperations>(
    ops: O,
    literal: Seq<char>,
    span: Span,
) -> Result<ValueView, DiagnosticView> {
    choose|given: Result<ValueView, DiagnosticView>|
        may_be_numbered(ops, literal, span, given)
}

/// The operation `number` gives the same on the same values.
pub open spec fn settles_number<O: ValueOperations>(ops: O) -> bool {
    forall|
        literal: Seq<char>,
        span: Span,
        first: Result<ValueView, DiagnosticView>,
        second: Result<ValueView, DiagnosticView>,
    |
        #[trigger] may_be_numbered(ops, literal, span, first)
            && #[trigger] may_be_numbered(ops, literal, span, second)
            ==> first == second
}

/// The operation `negate` may give this.
pub open spec fn may_be_negated<O: ValueOperations>(
    ops: O,
    value: ValueView,
    span: Span,
    given: Result<ValueView, DiagnosticView>,
) -> bool {
    exists|in_value: Value, out: Result<Value, Diagnostic>|
        #[trigger] call_ensures(O::negate, (&ops, in_value, span), out)
            && in_value@ == value
            && value_view(out) == given
}

/// The negative of a value.
pub open spec fn negated<O: ValueOperations>(
    ops: O,
    value: ValueView,
    span: Span,
) -> Result<ValueView, DiagnosticView> {
    choose|given: Result<ValueView, DiagnosticView>|
        may_be_negated(ops, value, span, given)
}

/// The operation `negate` gives the same on the same values.
pub open spec fn settles_negate<O: ValueOperations>(ops: O) -> bool {
    forall|
        value: ValueView,
        span: Span,
        first: Result<ValueView, DiagnosticView>,
        second: Result<ValueView, DiagnosticView>,
    |
        #[trigger] may_be_negated(ops, value, span, first)
            && #[trigger] may_be_negated(ops, value, span, second)
            ==> first == second
}

/// The operation `invert` may give this.
pub open spec fn may_be_inverted<O: ValueOperations>(
    ops: O,
    value: ValueView,
    span: Span,
    given: Result<ValueView, DiagnosticView>,
) -> bool {
    exists|in_value: Value, out: Result<Value, Diagnostic>|
        #[trigger] call_ensures(O::invert, (&ops, in_value, span), out)
            && in_value@ == value
            && value_view(out) == given
}

/// The opposite of a value.
pub open spec fn inverted<O: ValueOperations>(
    ops: O,
    value: ValueView,
    span: Span,
) -> Result<ValueView, DiagnosticView> {
    choose|given: Result<ValueView, DiagnosticView>|
        may_be_inverted(ops, value, span, given)
}

/// The operation `invert` gives the same on the same values.
pub open spec fn settles_invert<O: ValueOperations>(ops: O) -> bool {
    forall|
        value: ValueView,
        span: Span,
        first: Result<ValueView, DiagnosticView>,
        second: Result<ValueView, DiagnosticView>,
    |
        #[trigger] may_be_inverted(ops, value, span, first)
            && #[trigger] may_be_inverted(ops, value, span, second)
            ==> first == second
}

/// The operation `binary` may give this.
pub open spec fn may_be_combined<O: ValueOperations>(
    ops: O,
    op: BinaryOp,
    left: ValueView,
    right: ValueView,
    span: Span,
    given: Result<ValueView, DiagnosticView>,
) -> bool {
    exists|in_left: Value, in_right: Value, out: Result<Value, Diagnostic>|
        #[trigger] call_ensures(O::binary, (&ops, op, in_left, in_right, span), out)
            && in_left@ == left
            && in_right@ == right
            && value_view(out) == given
}

/// What an operator makes of two values, other than a logical one.
pub open spec fn combined<O: ValueOperations>(
    ops: O,
    op: BinaryOp,
    left: ValueView,
    right: ValueView,
    span: Span,
) -> Result<ValueView, DiagnosticView> {
    choose|given: Result<ValueView, DiagnosticView>|
        may_be_combined(ops, op, left, right, span, given)
}

/// The operation `binary` gives the same on the same values.
pub open spec fn settles_binary<O: ValueOperations>(ops: O) -> bool {
    forall|
        op: BinaryOp,
        left: ValueView,
        right: ValueView,
        span: Span,
        first: Result<ValueView, DiagnosticView>,
        second: Result<ValueView, DiagnosticView>,
    |
        #[trigger] may_be_combined(ops, op, left, right, span, first)
            && #[trigger] may_be_combined(ops, op, left, right, span, second)
            ==> first == second
}

/// The operation `borrow` may give this.
pub open spec fn may_be_borrowed<O: ValueOperations>(
    ops: O,
    expr: ExprView,
    env: Scopes,
    mutable: bool,
    span: Span,
    given: (Result<ValueView, DiagnosticView>, Scopes),
) -> bool {
    exists|in_expr: Expr, in_env: Env, out: (Result<Value, Diagnostic>, Env)|
        #[trigger] call_ensures(O::borrow, (&ops, &in_expr, in_env, mutable, span), out)
            && in_expr@ == expr
            && in_env@ == env
            && value_and_names(out) == given
}

/// A reference to what an expression names, and the names once it is lent.
pub open spec fn borrowed<O: ValueOperations>(
    ops: O,
    expr: ExprView,
    env: Scopes,
    mutable: bool,
    span: Span,
) -> (Result<ValueView, DiagnosticView>, Scopes) {
    choose|given: (Result<ValueView, DiagnosticView>, Scopes)|
        may_be_borrowed(ops, expr, env, mutable, span, given)
}

/// The operation `borrow` gives the same on the same values.
pub open spec fn settles_borrow<O: ValueOperations>(ops: O) -> bool {
    forall|
        expr: ExprView,
        env: Scopes,
        mutable: bool,
        span: Span,
        first: (Result<ValueView, DiagnosticView>, Scopes),
        second: (Result<ValueView, DiagnosticView>, Scopes),
    |
        #[trigger] may_be_borrowed(ops, expr, env, mutable, span, first)
            && #[trigger] may_be_borrowed(ops, expr, env, mutable, span, second)
            ==> first == second
}

/// The operation `release` may give this.
pub open spec fn may_be_released<O: ValueOperations>(
    ops: O,
    popped: Map<Seq<char>, BindingView>,
    env: Scopes,
    given: (Option<DiagnosticView>, Scopes),
) -> bool {
    exists|in_popped: Vec<Bound>, in_env: Env, out: (Result<(), Diagnostic>, Env)|
        #[trigger] call_ensures(O::release, (&ops, in_popped, in_env), out)
            && scope_view(in_popped@) == popped
            && in_env@ == env
            && problem_and_names(out) == given
}

/// The names once what a closed scope has borrowed is given back.
pub open spec fn released<O: ValueOperations>(
    ops: O,
    popped: Map<Seq<char>, BindingView>,
    env: Scopes,
) -> (Option<DiagnosticView>, Scopes) {
    choose|given: (Option<DiagnosticView>, Scopes)|
        may_be_released(ops, popped, env, given)
}

/// The operation `release` gives the same on the same values.
pub open spec fn settles_release<O: ValueOperations>(ops: O) -> bool {
    forall|
        popped: Map<Seq<char>, BindingView>,
        env: Scopes,
        first: (Option<DiagnosticView>, Scopes),
        second: (Option<DiagnosticView>, Scopes),
    |
        #[trigger] may_be_released(ops, popped, env, first)
            && #[trigger] may_be_released(ops, popped, env, second)
            ==> first == second
}

/// The operation `resolve` may give this.
pub open spec fn may_be_resolved<O: ValueOperations>(
    ops: O,
    value: ValueView,
    env: Scopes,
    span: Span,
    given: Result<ValueView, DiagnosticView>,
) -> bool {
    exists|in_value: Value, in_env: Env, out: Result<Value, Diagnostic>|
        #[trigger] call_ensures(O::resolve, (&ops, in_value, &in_env, span), out)
            && in_value@ == value
            && in_env@ == env
            && value_view(out) == given
}

/// What a receiver refers to, or the receiver itself.
pub open spec fn resolved<O: ValueOperations>(
    ops: O,
    value: ValueView,
    env: Scopes,
    span: Span,
) -> Result<ValueView, DiagnosticView> {
    choose|given: Result<ValueView, DiagnosticView>|
        may_be_resolved(ops, value, env, span, given)
}

/// The operation `resolve` gives the same on the same values.
pub open spec fn settles_resolve<O: ValueOperations>(ops: O) -> bool {
    forall|
        value: ValueView,
        env: Scopes,
        span: Span,
        first: Result<ValueView, DiagnosticView>,
        second: Result<ValueView, DiagnosticView>,
    |
        #[trigger] may_be_resolved(ops, value, env, span, first)
            && #[trigger] may_be_resolved(ops, value, env, span, second)
            ==> first == second
}

/// The operation `call_method` may give this.
pub open spec fn may_be_method_value<O: ValueOperations>(
    ops: O,
    receiver: ValueView,
    name: Seq<char>,
    args: Seq<ValueView>,
    env: Scopes,
    span: Span,
    given: (Result<ValueView, DiagnosticView>, Scopes),
) -> bool {
    exists|
        in_receiver: Value,
        in_name: String,
        in_args: Vec<Value>,
        in_env: Env,
        out: (Result<Value, Diagnostic>, Env),
    |
        #[trigger] call_ensures(O::call_method, (&ops, in_receiver, &in_name, &in_args, in_env, span), out)
            && in_receiver@ == receiver
            && in_name@ == name
            && values_view(in_args@) == args
            && in_env@ == env
            && value_and_names(out) == given
}

/// What a method that every value of the kind has comes to.
pub open spec fn method_value<O: ValueOperations>(
    ops: O,
    receiver: ValueView,
    name: Seq<char>,
    args: Seq<ValueView>,
    env: Scopes,
    span: Span,
) -> (Result<ValueView, DiagnosticView>, Scopes) {
    choose|given: (Result<ValueView, DiagnosticView>, Scopes)|
        may_be_method_value(ops, receiver, name, args, env, span, given)
}

/// The operation `call_method` gives the same on the same values.
pub open spec fn settles_call_method<O: ValueOperations>(ops: O) -> bool {
    forall|
        receiver: ValueView,
        name: Seq<char>,
        args: Seq<ValueView>,
        env: Scopes,
        span: Span,
        first: (Result<ValueView, DiagnosticView>, Scopes),
        second: (Result<ValueView, DiagnosticView>, Scopes),
    |
        #[trigger] may_be_method_value(ops, receiver, name, args, env, span, first)
            && #[trigger] may_be_method_value(ops, receiver, name, args, env, span, second)
            ==> first == second
}

/// The operation `key_text` may give this.
pub open spec fn may_be_key_of_type<O: ValueOperations>(
    ops: O,
    value: ValueView,
    ty: TypeView,
    span: Span,
    given: Result<Seq<char>, DiagnosticView>,
) -> bool {
    exists|in_value: Value, in_ty: TypeName, out: Result<String, Diagnostic>|
        #[trigger] call_ensures(O::key_text, (&ops, in_value, &in_ty, span), out)
            && in_value@ == value
            && in_ty@ == ty
            && text_view(out) == given
}

/// The text of a key of the type.
pub open spec fn key_of_type<O: ValueOperations>(
    ops: O,
    value: ValueView,
    ty: TypeView,
    span: Span,
) -> Result<Seq<char>, DiagnosticView> {
    choose|given: Result<Seq<char>, DiagnosticView>|
        may_be_key_of_type(ops, value, ty, span, given)
}

/// The operation `key_text` gives the same on the same values.
pub open spec fn settles_key_text<O: ValueOperations>(ops: O) -> bool {
    forall|
        value: ValueView,
        ty: TypeView,
        span: Span,
        first: Result<Seq<char>, DiagnosticView>,
        second: Result<Seq<char>, DiagnosticView>,
    |
        #[trigger] may_be_key_of_type(ops, value, ty, span, first)
            && #[trigger] may_be_key_of_type(ops, value, ty, span, second)
            ==> first == second
}

/// The operation `plain_key_text` may give this.
pub open spec fn may_be_key_of<O: ValueOperations>(
    ops: O,
    value: ValueView,
    span: Span,
    given: Result<Seq<char>, DiagnosticView>,
) -> bool {
    exists|in_value: Value, out: Result<String, Diagnostic>|
        #[trigger] call_ensures(O::plain_key_text, (&ops, &in_value, span), out)
            && in_value@ == value
            && text_view(out) == given
}

/// The text of a key that has its type.
pub open spec fn key_of<O: ValueOperations>(
    ops: O,
    value: ValueView,
    span: Span,
) -> Result<Seq<char>, DiagnosticView> {
    choose|given: Result<Seq<char>, DiagnosticView>|
        may_be_key_of(ops, value, span, given)
}

/// The operation `plain_key_text` gives the same on the same values.
pub open spec fn settles_plain_key_text<O: ValueOperations>(ops: O) -> bool {
    forall|
        value: ValueView,
        span: Span,
        first: Result<Seq<char>, DiagnosticView>,
        second: Result<Seq<char>, DiagnosticView>,
    |
        #[trigger] may_be_key_of(ops, value, span, first)
            && #[trigger] may_be_key_of(ops, value, span, second)
            ==> first == second
}

/// The operation `message_text` may give this.
pub open spec fn may_be_told<O: ValueOperations>(
    ops: O,
    value: ValueView,
    span: Span,
    given: Result<Seq<char>, DiagnosticView>,
) -> bool {
    exists|in_value: Value, out: Result<String, Diagnostic>|
        #[trigger] call_ensures(O::message_text, (&ops, in_value, span), out)
            && in_value@ == value
            && text_view(out) == given
}

/// The text of a value in a message.
pub open spec fn told<O: ValueOperations>(
    ops: O,
    value: ValueView,
    span: Span,
) -> Result<Seq<char>, DiagnosticView> {
    choose|given: Result<Seq<char>, DiagnosticView>|
        may_be_told(ops, value, span, given)
}

/// The operation `message_text` gives the same on the same values.
pub open spec fn settles_message_text<O: ValueOperations>(ops: O) -> bool {
    forall|
        value: ValueView,
        span: Span,
        first: Result<Seq<char>, DiagnosticView>,
        second: Result<Seq<char>, DiagnosticView>,
    |
        #[trigger] may_be_told(ops, value, span, first)
            && #[trigger] may_be_told(ops, value, span, second)
            ==> first == second
}

/// The operation `capacity` may give this.
pub open spec fn may_be_capacity_fits<O: ValueOperations>(
    ops: O,
    value: ValueView,
    span: Span,
    given: Result<bool, DiagnosticView>,
) -> bool {
    exists|in_value: Value, out: Result<bool, Diagnostic>|
        #[trigger] call_ensures(O::capacity, (&ops, in_value, span), out)
            && in_value@ == value
            && flag_view(out) == given
}

/// Whether a value stands for a capacity that there can be.
pub open spec fn capacity_fits<O: ValueOperations>(
    ops: O,
    value: ValueView,
    span: Span,
) -> Result<bool, DiagnosticView> {
    choose|given: Result<bool, DiagnosticView>|
        may_be_capacity_fits(ops, value, span, given)
}

/// The operation `capacity` gives the same on the same values.
pub open spec fn settles_capacity<O: ValueOperations>(ops: O) -> bool {
    forall|
        value: ValueView,
        span: Span,
        first: Result<bool, DiagnosticView>,
        second: Result<bool, DiagnosticView>,
    |
        #[trigger] may_be_capacity_fits(ops, value, span, first)
            && #[trigger] may_be_capacity_fits(ops, value, span, second)
            ==> first == second
}

/// The operation `shown` may give this.
pub open spec fn may_be_shown_as<O: ValueOperations>(
    ops: O,
    printed: PrintedView,
    given: Seq<char>,
) -> bool {
    exists|in_printed: Printed, out: String|
        #[trigger] call_ensures(O::shown, (&ops, in_printed), out)
            && in_printed@ == printed
            && out@ == given
}

/// The text of a character or a number that is printed.
pub open spec fn shown_as<O: ValueOperations>(ops: O, printed: PrintedView) -> Seq<char> {
    choose|given: Seq<char>|
        may_be_shown_as(ops, printed, given)
}

/// The operation `shown` gives the same on the same values.
pub open spec fn settles_shown<O: ValueOperations>(ops: O) -> bool {
    forall|
        printed: PrintedView,
        first: Seq<char>,
        second: Seq<char>,
    |
        #[trigger] may_be_shown_as(ops, printed, first)
            && #[trigger] may_be_shown_as(ops, printed, second)
            ==> first == second
}

/// The operation `sort` may give this.
pub open spec fn may_be_sorted_values<O: ValueOperations>(
    ops: O,
    values: Seq<ValueView>,
    radix: bool,
    stable: bool,
    comparator: Option<Seq<char>>,
    env: Scopes,
    span: Span,
    given: Result<Seq<ValueView>, FailureView>,
) -> bool {
    exists|
        in_values: Vec<Value>,
        in_comparator: Option<String>,
        in_env: Env,
        out: Result<Vec<Value>, Failure>,
    |
        #[trigger] call_ensures(O::sort, (&ops, in_values, radix, stable, in_comparator, &in_env, span), out)
            && values_view(in_values@) == values
            && optional_text(in_comparator) == comparator
            && in_env@ == env
            && values_or_failure(out) == given
}

/// Values in order, by a function of two of them where one is named.
pub open spec fn sorted_values<O: ValueOperations>(
    ops: O,
    values: Seq<ValueView>,
    radix: bool,
    stable: bool,
    comparator: Option<Seq<char>>,
    env: Scopes,
    span: Span,
) -> Result<Seq<ValueView>, FailureView> {
    choose|given: Result<Seq<ValueView>, FailureView>|
        may_be_sorted_values(ops, values, radix, stable, comparator, env, span, given)
}

/// The operation `sort` gives the same on the same values.
pub open spec fn settles_sort<O: ValueOperations>(ops: O) -> bool {
    forall|
        values: Seq<ValueView>,
        radix: bool,
        stable: bool,
        comparator: Option<Seq<char>>,
        env: Scopes,
        span: Span,
        first: Result<Seq<ValueView>, FailureView>,
        second: Result<Seq<ValueView>, FailureView>,
    |
        #[trigger] may_be_sorted_values(ops, values, radix, stable, comparator, env, span, first)
            && #[trigger] may_be_sorted_values(
                ops,
                values,
                radix,
                stable,
                comparator,
                env,
                span,
                second,
            )
            ==> first == second
}

/// The operation `call` may give this.
pub open spec fn may_be_called<O: ValueOperations>(
    ops: O,
    at: usize,
    args: Seq<ValueView>,
    env: Scopes,
    given: Result<CallResultView, FailureView>,
) -> bool {
    exists|in_args: Vec<Value>, in_env: Env, out: Result<CallResult, Failure>|
        #[trigger] call_ensures(O::call, (&ops, at, in_args, in_env), out)
            && values_view(in_args@) == args
            && in_env@ == env
            && call_or_failure(out) == given
}

/// What a function of the program comes to in an expression.
pub open spec fn called<O: ValueOperations>(
    ops: O,
    at: usize,
    args: Seq<ValueView>,
    env: Scopes,
) -> Result<CallResultView, FailureView> {
    choose|given: Result<CallResultView, FailureView>|
        may_be_called(ops, at, args, env, given)
}

/// The operation `call` gives the same on the same values.
pub open spec fn settles_call<O: ValueOperations>(ops: O) -> bool {
    forall|
        at: usize,
        args: Seq<ValueView>,
        env: Scopes,
        first: Result<CallResultView, FailureView>,
        second: Result<CallResultView, FailureView>,
    |
        #[trigger] may_be_called(ops, at, args, env, first)
            && #[trigger] may_be_called(ops, at, args, env, second)
            ==> first == second
}

/// The operation `parallel` may give this.
pub open spec fn may_be_handed_out<O: ValueOperations>(
    ops: O,
    calls: usize,
    name: Seq<char>,
    body: Seq<StmtNode>,
    rounds: Seq<ValueView>,
    state: StateView,
    span: Span,
    given: Result<Seq<StmtView>, FailureView>,
) -> bool {
    exists|
        in_name: String,
        in_body: Vec<Stmt>,
        in_rounds: Vec<Value>,
        in_state: State,
        out: Result<Vec<LoweredStmt>, Failure>,
    |
        #[trigger] call_ensures(O::parallel, (&ops, calls, &in_name, &in_body, &in_rounds, &in_state, span), out)
            && in_name@ == name
            && stmts_node_view(in_body@) == body
            && values_view(in_rounds@) == rounds
            && in_state@ == state
            && lowered_or_failure(out) == given
}

/// What the rounds of a loop lower to that are handed out to threads.
pub open spec fn handed_out<O: ValueOperations>(
    ops: O,
    calls: usize,
    name: Seq<char>,
    body: Seq<StmtNode>,
    rounds: Seq<ValueView>,
    state: StateView,
    span: Span,
) -> Result<Seq<StmtView>, FailureView> {
    choose|given: Result<Seq<StmtView>, FailureView>|
        may_be_handed_out(ops, calls, name, body, rounds, state, span, given)
}

/// The operation `parallel` gives the same on the same values.
pub open spec fn settles_parallel<O: ValueOperations>(ops: O) -> bool {
    forall|
        calls: usize,
        name: Seq<char>,
        body: Seq<StmtNode>,
        rounds: Seq<ValueView>,
        state: StateView,
        span: Span,
        first: Result<Seq<StmtView>, FailureView>,
        second: Result<Seq<StmtView>, FailureView>,
    |
        #[trigger] may_be_handed_out(ops, calls, name, body, rounds, state, span, first)
            && #[trigger] may_be_handed_out(ops, calls, name, body, rounds, state, span, second)
            ==> first == second
}

/// The operation `reduce` may give this.
pub open spec fn may_be_reduced<O: ValueOperations>(
    ops: O,
    name: Seq<char>,
    reduction: ReductionView,
    ty: TypeView,
    rounds: Seq<ValueView>,
    env: Scopes,
    span: Span,
    given: Result<Option<ValueView>, FailureView>,
) -> bool {
    exists|
        in_name: String,
        in_reduction: ParForReduction,
        in_ty: TypeName,
        in_rounds: Vec<Value>,
        in_env: Env,
        out: Result<Option<Value>, Failure>,
    |
        #[trigger] call_ensures(O::reduce, (&ops, &in_name, &in_reduction, &in_ty, &in_rounds, &in_env, span), out)
            && in_name@ == name
            && in_reduction@ == reduction
            && in_ty@ == ty
            && values_view(in_rounds@) == rounds
            && in_env@ == env
            && optional_or_failure(out) == given
}

/// What the rounds of a reduction come to that are handed out to threads.
pub open spec fn reduced<O: ValueOperations>(
    ops: O,
    name: Seq<char>,
    reduction: ReductionView,
    ty: TypeView,
    rounds: Seq<ValueView>,
    env: Scopes,
    span: Span,
) -> Result<Option<ValueView>, FailureView> {
    choose|given: Result<Option<ValueView>, FailureView>|
        may_be_reduced(ops, name, reduction, ty, rounds, env, span, given)
}

/// The operation `reduce` gives the same on the same values.
pub open spec fn settles_reduce<O: ValueOperations>(ops: O) -> bool {
    forall|
        name: Seq<char>,
        reduction: ReductionView,
        ty: TypeView,
        rounds: Seq<ValueView>,
        env: Scopes,
        span: Span,
        first: Result<Option<ValueView>, FailureView>,
        second: Result<Option<ValueView>, FailureView>,
    |
        #[trigger] may_be_reduced(ops, name, reduction, ty, rounds, env, span, first)
            && #[trigger] may_be_reduced(ops, name, reduction, ty, rounds, env, span, second)
            ==> first == second
}

/// What the operations give depends on nothing but the values that they are
/// given.
#[verifier::opaque]
pub open spec fn are_operations<O: ValueOperations>(ops: O) -> bool {
    &&& settles_coerce(ops)
    &&& settles_type_of(ops)
    &&& settles_number(ops)
    &&& settles_negate(ops)
    &&& settles_invert(ops)
    &&& settles_binary(ops)
    &&& settles_borrow(ops)
    &&& settles_release(ops)
    &&& settles_resolve(ops)
    &&& settles_call_method(ops)
    &&& settles_key_text(ops)
    &&& settles_plain_key_text(ops)
    &&& settles_message_text(ops)
    &&& settles_capacity(ops)
    &&& settles_shown(ops)
    &&& settles_sort(ops)
    &&& settles_call(ops)
    &&& settles_parallel(ops)
    &&& settles_reduce(ops)
}

/// The value as one of the type.
pub fn coerce<O: ValueOperations>(
    ops: &O,
    value: Value,
    ty: &TypeName,
    span: Span,
) -> (outcome: Result<Value, Diagnostic>)
    requires
        are_operations(*ops),
    ensures
        value_view(outcome) == coerced(*ops, value@, ty@, span),
{
    let outcome = ops.coerce(value, ty, span);
    proof {
        reveal(are_operations);
        assert(call_ensures(O::coerce, (ops, value, ty, span), outcome));
        assert(may_be_coerced(*ops, value@, ty@, span, value_view(outcome)));
    }
    outcome
}

/// The type of a value.
pub fn type_of<O: ValueOperations>(ops: &O, value: &Value) -> (outcome: TypeName)
    requires
        are_operations(*ops),
    ensures
        outcome@ == typed(*ops, value@),
{
    let outcome = ops.type_of(value);
    proof {
        reveal(are_operations);
        assert(call_ensures(O::type_of, (ops, value), outcome));
        assert(may_be_typed(*ops, value@, outcome@));
    }
    outcome
}

/// The value of a number as it is written.
pub fn number<O: ValueOperations>(
    ops: &O,
    literal: &String,
    span: Span,
) -> (outcome: Result<Value, Diagnostic>)
    requires
        are_operations(*ops),
    ensures
        value_view(outcome) == numbered(*ops, literal@, span),
{
    let outcome = ops.number(literal, span);
    proof {
        reveal(are_operations);
        assert(call_ensures(O::number, (ops, literal, span), outcome));
        assert(may_be_numbered(*ops, literal@, span, value_view(outcome)));
    }
    outcome
}

/// The negative of a value.
pub fn negate<O: ValueOperations>(
    ops: &O,
    value: Value,
    span: Span,
) -> (outcome: Result<Value, Diagnostic>)
    requires
        are_operations(*ops),
    ensures
        value_view(outcome) == negated(*ops, value@, span),
{
    let outcome = ops.negate(value, span);
    proof {
        reveal(are_operations);
        assert(call_ensures(O::negate, (ops, value, span), outcome));
        assert(may_be_negated(*ops, value@, span, value_view(outcome)));
    }
    outcome
}

/// The opposite of a value.
pub fn invert<O: ValueOperations>(
    ops: &O,
    value: Value,
    span: Span,
) -> (outcome: Result<Value, Diagnostic>)
    requires
        are_operations(*ops),
    ensures
        value_view(outcome) == inverted(*ops, value@, span),
{
    let outcome = ops.invert(value, span);
    proof {
        reveal(are_operations);
        assert(call_ensures(O::invert, (ops, value, span), outcome));
        assert(may_be_inverted(*ops, value@, span, value_view(outcome)));
    }
    outcome
}

/// What an operator makes of two values, other than a logical one.
pub fn binary<O: ValueOperations>(
    ops: &O,
    op: BinaryOp,
    left: Value,
    right: Value,
    span: Span,
) -> (outcome: Result<Value, Diagnostic>)
    requires
        are_operations(*ops),
    ensures
        value_view(outcome) == combined(*ops, op, left@, right@, span),
{
    let outcome = ops.binary(op, left, right, span);
    proof {
        reveal(are_operations);
        assert(call_ensures(O::binary, (ops, op, left, right, span), outcome));
        assert(may_be_combined(*ops, op, left@, right@, span, value_view(outcome)));
    }
    outcome
}

/// A reference to what an expression names, and the names once it is lent.
pub fn borrow<O: ValueOperations>(
    ops: &O,
    expr: &Expr,
    env: Env,
    mutable: bool,
    span: Span,
) -> (outcome: (Result<Value, Diagnostic>, Env))
    requires
        are_operations(*ops),
    ensures
        value_and_names(outcome) == borrowed(*ops, expr@, env@, mutable, span),
{
    let outcome = ops.borrow(expr, env, mutable, span);
    proof {
        reveal(are_operations);
        assert(call_ensures(O::borrow, (ops, expr, env, mutable, span), outcome));
        assert(may_be_borrowed(*ops, expr@, env@, mutable, span, value_and_names(outcome)));
    }
    outcome
}

/// The names once what a closed scope has borrowed is given back.
pub fn release<O: ValueOperations>(
    ops: &O,
    popped: Vec<Bound>,
    env: Env,
) -> (outcome: (Result<(), Diagnostic>, Env))
    requires
        are_operations(*ops),
    ensures
        problem_and_names(outcome) == released(*ops, scope_view(popped@), env@),
{
    let outcome = ops.release(popped, env);
    proof {
        reveal(are_operations);
        assert(call_ensures(O::release, (ops, popped, env), outcome));
        assert(may_be_released(*ops, scope_view(popped@), env@, problem_and_names(outcome)));
    }
    outcome
}

/// What a receiver refers to, or the receiver itself.
pub fn resolve<O: ValueOperations>(
    ops: &O,
    value: Value,
    env: &Env,
    span: Span,
) -> (outcome: Result<Value, Diagnostic>)
    requires
        are_operations(*ops),
    ensures
        value_view(outcome) == resolved(*ops, value@, env@, span),
{
    let outcome = ops.resolve(value, env, span);
    proof {
        reveal(are_operations);
        assert(call_ensures(O::resolve, (ops, value, env, span), outcome));
        assert(may_be_resolved(*ops, value@, env@, span, value_view(outcome)));
    }
    outcome
}

/// What a method that every value of the kind has comes to.
pub fn call_method<O: ValueOperations>(
    ops: &O,
    receiver: Value,
    name: &String,
    args: &Vec<Value>,
    env: Env,
    span: Span,
) -> (outcome: (Result<Value, Diagnostic>, Env))
    requires
        are_operations(*ops),
    ensures
        value_and_names(outcome) == method_value(
            *ops,
            receiver@,
            name@,
            values_view(args@),
            env@,
            span,
        ),
{
    let outcome = ops.call_method(receiver, name, args, env, span);
    proof {
        reveal(are_operations);
        assert(call_ensures(O::call_method, (ops, receiver, name, args, env, span), outcome));
        assert(may_be_method_value(
            *ops,
            receiver@,
            name@,
            values_view(args@),
            env@,
            span,
            value_and_names(outcome),
        ));
    }
    outcome
}

/// The text of a key of the type.
pub fn key_text<O: ValueOperations>(
    ops: &O,
    value: Value,
    ty: &TypeName,
    span: Span,
) -> (outcome: Result<String, Diagnostic>)
    requires
        are_operations(*ops),
    ensures
        text_view(outcome) == key_of_type(*ops, value@, ty@, span),
{
    let outcome = ops.key_text(value, ty, span);
    proof {
        reveal(are_operations);
        assert(call_ensures(O::key_text, (ops, value, ty, span), outcome));
        assert(may_be_key_of_type(*ops, value@, ty@, span, text_view(outcome)));
    }
    outcome
}

/// The text of a key that has its type.
pub fn plain_key_text<O: ValueOperations>(
    ops: &O,
    value: &Value,
    span: Span,
) -> (outcome: Result<String, Diagnostic>)
    requires
        are_operations(*ops),
    ensures
        text_view(outcome) == key_of(*ops, value@, span),
{
    let outcome = ops.plain_key_text(value, span);
    proof {
        reveal(are_operations);
        assert(call_ensures(O::plain_key_text, (ops, value, span), outcome));
        assert(may_be_key_of(*ops, value@, span, text_view(outcome)));
    }
    outcome
}

/// The text of a value in a message.
pub fn message_text<O: ValueOperations>(
    ops: &O,
    value: Value,
    span: Span,
) -> (outcome: Result<String, Diagnostic>)
    requires
        are_operations(*ops),
    ensures
        text_view(outcome) == told(*ops, value@, span),
{
    let outcome = ops.message_text(value, span);
    proof {
        reveal(are_operations);
        assert(call_ensures(O::message_text, (ops, value, span), outcome));
        assert(may_be_told(*ops, value@, span, text_view(outcome)));
    }
    outcome
}

/// Whether a value stands for a capacity that there can be.
pub fn capacity<O: ValueOperations>(
    ops: &O,
    value: Value,
    span: Span,
) -> (outcome: Result<bool, Diagnostic>)
    requires
        are_operations(*ops),
    ensures
        flag_view(outcome) == capacity_fits(*ops, value@, span),
{
    let outcome = ops.capacity(value, span);
    proof {
        reveal(are_operations);
        assert(call_ensures(O::capacity, (ops, value, span), outcome));
        assert(may_be_capacity_fits(*ops, value@, span, flag_view(outcome)));
    }
    outcome
}

/// The text of a character or a number that is printed.
pub fn shown<O: ValueOperations>(ops: &O, printed: Printed) -> (outcome: String)
    requires
        are_operations(*ops),
    ensures
        outcome@ == shown_as(*ops, printed@),
{
    let outcome = ops.shown(printed);
    proof {
        reveal(are_operations);
        assert(call_ensures(O::shown, (ops, printed), outcome));
        assert(may_be_shown_as(*ops, printed@, outcome@));
    }
    outcome
}

/// Values in order, by a function of two of them where one is named.
pub fn sort<O: ValueOperations>(
    ops: &O,
    values: Vec<Value>,
    radix: bool,
    stable: bool,
    comparator: Option<String>,
    env: &Env,
    span: Span,
) -> (outcome: Result<Vec<Value>, Failure>)
    requires
        are_operations(*ops),
    ensures
        values_or_failure(outcome) == sorted_values(
            *ops,
            values_view(values@),
            radix,
            stable,
            optional_text(comparator),
            env@,
            span,
        ),
{
    let outcome = ops.sort(values, radix, stable, comparator, env, span);
    proof {
        reveal(are_operations);
        assert(call_ensures(O::sort, (ops, values, radix, stable, comparator, env, span), outcome));
        assert(may_be_sorted_values(
            *ops,
            values_view(values@),
            radix,
            stable,
            optional_text(comparator),
            env@,
            span,
            values_or_failure(outcome),
        ));
    }
    outcome
}

/// What a function of the program comes to in an expression.
pub fn call<O: ValueOperations>(ops: &O, at: usize, args: Vec<Value>, env: Env) -> (outcome: Result<
    CallResult,
    Failure,
>)
    requires
        are_operations(*ops),
    ensures
        call_or_failure(outcome) == called(*ops, at, values_view(args@), env@),
{
    let outcome = ops.call(at, args, env);
    proof {
        reveal(are_operations);
        assert(call_ensures(O::call, (ops, at, args, env), outcome));
        assert(may_be_called(*ops, at, values_view(args@), env@, call_or_failure(outcome)));
    }
    outcome
}

/// What the rounds of a loop lower to that are handed out to threads.
pub fn parallel<O: ValueOperations>(
    ops: &O,
    calls: usize,
    name: &String,
    body: &Vec<Stmt>,
    rounds: &Vec<Value>,
    state: &State,
    span: Span,
) -> (outcome: Result<Vec<LoweredStmt>, Failure>)
    requires
        are_operations(*ops),
    ensures
        lowered_or_failure(outcome) == handed_out(
            *ops,
            calls,
            name@,
            stmts_node_view(body@),
            values_view(rounds@),
            state@,
            span,
        ),
{
    let outcome = ops.parallel(calls, name, body, rounds, state, span);
    proof {
        reveal(are_operations);
        assert(call_ensures(O::parallel, (ops, calls, name, body, rounds, state, span), outcome));
        assert(may_be_handed_out(
            *ops,
            calls,
            name@,
            stmts_node_view(body@),
            values_view(rounds@),
            state@,
            span,
            lowered_or_failure(outcome),
        ));
    }
    outcome
}

/// What the rounds of a reduction come to that are handed out to threads.
pub fn reduce<O: ValueOperations>(
    ops: &O,
    name: &String,
    reduction: &ParForReduction,
    ty: &TypeName,
    rounds: &Vec<Value>,
    env: &Env,
    span: Span,
) -> (outcome: Result<Option<Value>, Failure>)
    requires
        are_operations(*ops),
    ensures
        optional_or_failure(outcome) == reduced(
            *ops,
            name@,
            reduction@,
            ty@,
            values_view(rounds@),
            env@,
            span,
        ),
{
    let outcome = ops.reduce(name, reduction, ty, rounds, env, span);
    proof {
        reveal(are_operations);
        assert(call_ensures(O::reduce, (ops, name, reduction, ty, rounds, env, span), outcome));
        assert(may_be_reduced(
            *ops,
            name@,
            reduction@,
            ty@,
            values_view(rounds@),
            env@,
            span,
            optional_or_failure(outcome),
        ));
    }
    outcome
}

} // verus!
