//! What a parallel loop reduces to.

use crate::ast::{Expr, ExprView, ParForReduction, ReductionOp, Span, TypeName, TypeView};
use crate::copy::copy_type;
use crate::diagnostic::{message_at_span, type_message, Diagnostic, DiagnosticView};
use crate::semantics::environment::{meaning, BindingView, Env};
use crate::semantics::expressions::value_is;
use crate::semantics::known::outcome_is;
use crate::semantics::statements::{say_unknown, unknown_identifier};
use crate::semantics::values::{Value, ValueView};
use vstd::prelude::*;

verus! {

/// What is said of a type that a parallel loop does not reduce to.
pub open spec fn reduction_type_problem(ty: TypeView, span: Span) -> Option<DiagnosticView> {
    match ty {
        TypeView::Int { .. } | TypeView::Byte => None,
        _ => Some(
            type_message(
                "parfor reductions require integer targets for deterministic associativity"@,
                span,
            ),
        ),
    }
}

/// Checks that a parallel loop can reduce to a type.
pub fn ensure_reduction_type(ty: &TypeName, span: Span) -> (outcome: Result<(), Diagnostic>)
    ensures
        outcome_is(outcome, reduction_type_problem(ty@, span)),
{
    match ty {
        TypeName::Int { .. } => Ok(()),
        TypeName::Byte => Ok(()),
        _ => Err(
            Diagnostic::about_types(
                "parfor reductions require integer targets for deterministic associativity",
                span,
            ),
        ),
    }
}

/// What is said of a target that must not be changed.
pub open spec fn fixed_target(name: Seq<char>) -> Seq<char> {
    "reduction target '"@ + name + "' must be mutable"@
}

/// The type that the target of a reduction has.
pub open spec fn target_type(
    scopes: Seq<Map<Seq<char>, BindingView>>,
    target: Seq<char>,
    span: Span,
) -> Result<TypeView, DiagnosticView> {
    match meaning(scopes, target) {
        None => Err(message_at_span(unknown_identifier(target), span)),
        Some(binding) => if !binding.mutable {
            Err(type_message(fixed_target(target), span))
        } else {
            match reduction_type_problem(binding.ty, span) {
                Some(problem) => Err(problem),
                None => Ok(binding.ty),
            }
        },
    }
}

/// The type that the target of a reduction has.
pub fn reduction_target(env: &Env, reduction: &ParForReduction) -> (outcome: Result<
    TypeName,
    Diagnostic,
>)
    ensures
        match target_type(env@, reduction@.target, reduction@.span) {
            Ok(ty) => outcome matches Ok(found) && found@ == ty,
            Err(error) => outcome matches Err(found) && found@ == error,
        },
{
    match env.get(&reduction.target) {
        None => Err(say_unknown(&reduction.target, reduction.span)),
        Some(binding) => {
            if !binding.mutable {
                let mut message = String::from_str("reduction target '");
                message.append(reduction.target.as_str());
                message.append("' must be mutable");
                return Err(Diagnostic::type_error(message, reduction.span));
            }
            ensure_reduction_type(&binding.ty, reduction.span)?;
            Ok(copy_type(&binding.ty))
        },
    }
}

/// Whether a reduction takes the variable of the loop as it is.
pub fn takes_variable(reduction: &ParForReduction, name: &String) -> (found: bool)
    ensures
        found == (reduction@.expr matches ExprView::Ident { name: used, .. } && used == name@),
{
    match &reduction.expr {
        Expr::Ident { name: used, .. } => *used == *name,
        _ => false,
    }
}

/// Which of two values a reduction to the smallest or largest keeps, by the
/// comparison of the first with the second.
pub open spec fn kept(
    op: ReductionOp,
    left: ValueView,
    right: ValueView,
    compared: ValueView,
    span: Span,
) -> Result<ValueView, DiagnosticView> {
    match compared {
        ValueView::Bool(true) => Ok(left),
        ValueView::Bool(false) => Ok(right),
        _ => Err(
            type_message(
                if op == ReductionOp::Max {
                    "invalid max reduction comparison"@
                } else {
                    "invalid min reduction comparison"@
                },
                span,
            ),
        ),
    }
}

/// Which of two values a reduction to the smallest or largest keeps.
pub fn combine_reduction(
    op: ReductionOp,
    left: Value,
    right: Value,
    compared: &Value,
    span: Span,
) -> (
    outcome: Result<Value, Diagnostic>)
    requires
        op == ReductionOp::Min || op == ReductionOp::Max,
    ensures
        value_is(outcome, kept(op, left@, right@, compared@, span)),
{
    match compared {
        Value::Bool(true) => Ok(left),
        Value::Bool(false) => Ok(right),
        _ => {
            if op == ReductionOp::Max {
                Err(Diagnostic::about_types("invalid max reduction comparison", span))
            } else {
                Err(Diagnostic::about_types("invalid min reduction comparison", span))
            }
        },
    }
}

/// The result of a reduction, which takes at least one round.
pub fn finish_reduction(result: Option<Value>, span: Span) -> (outcome: Result<Value, Diagnostic>)
    ensures
        value_is(
            outcome,
            match result {
                Some(value) => Ok(value@),
                None => Err(type_message("reduction requires at least one iteration"@, span)),
            },
        ),
{
    match result {
        Some(value) => Ok(value),
        None => Err(Diagnostic::about_types("reduction requires at least one iteration", span)),
    }
}

} // verus!
