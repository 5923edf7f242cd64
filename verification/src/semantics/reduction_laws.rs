//! What reductions of parallel loops come to: the largest, the smallest or the sum of
//! what the rounds give.

use crate::ast::{BinaryOp, ReductionOp, ReductionView, Span, TypeView};
use crate::diagnostic::DiagnosticView;
use crate::semantics::environment::{lemma_scope_of, meaning, scope_of, with_meaning, BindingView};
use crate::semantics::execute::{
    parts_together, put_together, reduction_done, round_reduced, rounds_reduced,
};
use crate::semantics::flow::PARFOR_MIN_ITERATIONS;
use crate::semantics::index::IndexView;
use crate::semantics::operations::{combined, ValueOperations};
use crate::semantics::state::{FailureView, Scopes};
use crate::semantics::values::ValueView;
use vstd::prelude::*;

verus! {

/// The whole number that a value is.
pub open spec fn number(value: ValueView) -> int {
    match value {
        ValueView::Int { value, .. } => value as int,
        ValueView::UInt { value, .. } => value as int,
        _ => 0,
    }
}

/// Two values are whole numbers of one type.
pub open spec fn are_alike(a: ValueView, b: ValueView) -> bool {
    match (a, b) {
        (ValueView::Int { bits: one, .. }, ValueView::Int { bits: other, .. }) => one == other,
        (ValueView::UInt { bits: one, .. }, ValueView::UInt { bits: other, .. }) => one == other,
        _ => false,
    }
}

/// All values are whole numbers of one type.
pub open spec fn all_alike(values: Seq<ValueView>) -> bool {
    forall|i: int, j: int|
        0 <= i < values.len() && 0 <= j < values.len() ==> are_alike(
            #[trigger] values[i],
            #[trigger] values[j],
        )
}

/// The comparisons of the operations agree with the order of whole numbers.
pub open spec fn compares_numbers<O: ValueOperations>(ops: O, span: Span) -> bool {
    &&& forall|a: ValueView, b: ValueView|
        are_alike(a, b) ==> #[trigger] combined(ops, BinaryOp::Le, a, b, span) == Ok::<
            ValueView,
            DiagnosticView,
        >(ValueView::Bool(number(a) <= number(b)))
    &&& forall|a: ValueView, b: ValueView|
        are_alike(a, b) ==> #[trigger] combined(ops, BinaryOp::Ge, a, b, span) == Ok::<
            ValueView,
            DiagnosticView,
        >(ValueView::Bool(number(a) >= number(b)))
}

/// The addition of the operations is that of whole numbers, where it succeeds.
pub open spec fn adds_numbers<O: ValueOperations>(ops: O, span: Span) -> bool {
    forall|a: ValueView, b: ValueView|
        are_alike(a, b) ==> ((#[trigger] combined(ops, BinaryOp::Add, a, b, span)) matches Ok(sum)
            ==> are_alike(sum, a) && number(sum) == number(a) + number(b))
}

/// The addition of the operations always succeeds.
pub open spec fn always_adds<O: ValueOperations>(ops: O, span: Span) -> bool {
    forall|a: ValueView, b: ValueView|
        are_alike(a, b) ==> (#[trigger] combined(ops, BinaryOp::Add, a, b, span)) is Ok
}

/// A value is one of some and none of them is larger.
pub open spec fn is_largest(values: Seq<ValueView>, value: ValueView) -> bool {
    &&& values.contains(value)
    &&& forall|i: int| 0 <= i < values.len() ==> number(#[trigger] values[i]) <= number(value)
}

/// A value is one of some and none of them is smaller.
pub open spec fn is_smallest(values: Seq<ValueView>, value: ValueView) -> bool {
    &&& values.contains(value)
    &&& forall|i: int| 0 <= i < values.len() ==> number(#[trigger] values[i]) >= number(value)
}

/// The sum of some values.
pub open spec fn sum_of(values: Seq<ValueView>) -> int
    decreases values.len(),
{
    if values.len() == 0 {
        0
    } else {
        sum_of(values.drop_last()) + number(values.last())
    }
}

/// What a reduction comes to that has values: the largest, the smallest or the sum.
pub open spec fn is_outcome(
    op: ReductionOp,
    values: Seq<ValueView>,
    value: ValueView,
) -> bool {
    match op {
        ReductionOp::Max => is_largest(values, value),
        ReductionOp::Min => is_smallest(values, value),
        ReductionOp::Sum => number(value) == sum_of(values),
    }
}

/// Two results put together are a result of both.
proof fn lemma_put_together<O: ValueOperations>(
    ops: O,
    op: ReductionOp,
    values: Seq<ValueView>,
    left: ValueView,
    right: ValueView,
    span: Span,
)
    requires
        compares_numbers(ops, span),
        adds_numbers(ops, span),
        is_outcome(op, values, left),
        are_alike(left, right),
    ensures
        op != ReductionOp::Sum || always_adds(
            ops,
            span,
        ) ==> put_together(ops, op, left, right, span) is Ok,
        put_together(ops, op, left, right, span) matches Ok(value) ==> is_outcome(
            op,
            values.push(right),
                value,
        ),
{
    let all = values.push(right);
    assert(all.drop_last() =~= values);
    assert(all[values.len() as int] == right);
    assert(combined(ops, BinaryOp::Le, left, right, span) == Ok::<ValueView, DiagnosticView>(
        ValueView::Bool(number(left) <= number(right)),
    ));
    assert(combined(ops, BinaryOp::Ge, left, right, span) == Ok::<ValueView, DiagnosticView>(
        ValueView::Bool(number(left) >= number(right)),
    ));
    if let Ok(value) = put_together(ops, op, left, right, span) {
        if op != ReductionOp::Sum {
            let at = choose|at: int| 0 <= at < values.len() && values[at] == left;
            assert(all[at] == left);
            assert forall|i: int| 0 <= i < all.len() implies (op == ReductionOp::Max ==> number(
                #[trigger] all[i],
            ) <= number(value)) && (op == ReductionOp::Min ==> number(all[i]) >= number(value)) by {
                if i < values.len() {
                    assert(all[i] == values[i]);
                }
            }
        }
    }
}

/// A value alone is what a reduction of it comes to.
proof fn lemma_one_value(op: ReductionOp, value: ValueView)
    ensures
        is_outcome(op, seq![value], value),
{
    let one = seq![value];
    assert(one[0] == value);
    assert(one.drop_last() =~= Seq::empty());
    assert(sum_of(one.drop_last()) == 0);
}

/// What the rounds from one on come to, put together with what came before.
proof fn lemma_rounds<O: ValueOperations>(
    ops: O,
    index: IndexView,
    name: Seq<char>,
    reduction: ReductionView,
    ty: TypeView,
    rounds: Seq<ValueView>,
    env: Scopes,
    span: Span,
    values: Seq<ValueView>,
    from: int,
    before: ValueView,
)
    requires
        compares_numbers(ops, span),
        adds_numbers(ops, span),
        values.len() == rounds.len(),
        0 < from <= rounds.len(),
        forall|i: int|
            0 <= i < rounds.len() ==> round_reduced(
                ops,
                index,
                name,
                reduction,
                ty,
                #[trigger] rounds[i],
                env,
                span,
            ) == Ok::<ValueView, FailureView>(values[i]),
        all_alike(values),
        is_outcome(reduction.op, values.take(from), before),
        are_alike(before, values[0]),
    ensures
        ({
            let outcome = rounds_reduced(
                ops,
                index,
                name,
                reduction,
                ty,
                rounds,
                from,
                Some(before),
                env,
                span,
            );
            &&& reduction.op != ReductionOp::Sum || always_adds(ops, span) ==> outcome is Ok
            &&& outcome matches Ok(found) ==> (found matches Some(value) && is_outcome(
                reduction.op,
                values,
                        value,
            ))
        }),
    decreases rounds.len() - from,
{
    if from == rounds.len() {
        assert(values.take(from) =~= values);
    } else {
        let part = values.take(from);
        assert(part.push(values[from]) =~= values.take(from + 1));
        assert(are_alike(values[0], values[from]));
        lemma_put_together(ops, reduction.op, part, before, values[from], span);
        if let Ok(value) = put_together(ops, reduction.op, before, values[from], span) {
            lemma_rounds(
                ops,
                index,
                name,
                reduction,
                ty,
                rounds,
                env,
                span,
                        values,
                from + 1,
                value,
            );
        }
    }
}

/// On operations that compare and add whole numbers, rounds one after another come to
/// the largest of what they give for a max reduction, to the smallest for a min
/// reduction, and to the sum for a sum, if there is a round. Where there is none, they
/// come to nothing.
pub proof fn law_reduction_comes_to_its_extreme_or_sum<O: ValueOperations>(
    ops: O,
    index: IndexView,
    name: Seq<char>,
    reduction: ReductionView,
    ty: TypeView,
    rounds: Seq<ValueView>,
    env: Scopes,
    span: Span,
    values: Seq<ValueView>,
)
    requires
        compares_numbers(ops, span),
        adds_numbers(ops, span),
        values.len() == rounds.len(),
        all_alike(values),
        forall|i: int|
            0 <= i < rounds.len() ==> round_reduced(
                ops,
                index,
                name,
                reduction,
                ty,
                #[trigger] rounds[i],
                env,
                span,
            ) == Ok::<ValueView, FailureView>(values[i]),
    ensures
        ({
            let outcome = rounds_reduced(
                ops,
                index,
                name,
                reduction,
                ty,
                rounds,
                0,
                None,
                env,
                span,
            );
            &&& rounds.len() == 0 ==> outcome == Ok::<Option<ValueView>, FailureView>(None)
            &&& rounds.len() > 0 && reduction.op == ReductionOp::Max ==> (outcome matches Ok(Some(
                value,
            )) && is_largest(values, value))
            &&& rounds.len() > 0 && reduction.op == ReductionOp::Min ==> (outcome matches Ok(Some(
                value,
            )) && is_smallest(values, value))
            &&& always_adds(ops, span) ==> outcome is Ok
            &&& rounds.len() > 0 && reduction.op == ReductionOp::Sum ==> (outcome matches Ok(found)
                ==> (found matches Some(value) && number(value) == sum_of(values)))
        }),
{
    if rounds.len() > 0 {
        assert(round_reduced(ops, index, name, reduction, ty, rounds[0], env, span) == Ok::<
            ValueView,
            FailureView,
        >(values[0]));
        lemma_one_value(reduction.op, values[0]);
        assert(are_alike(values[0], values[0]));
        assert(values.take(1) =~= seq![values[0]]);
        lemma_rounds(
            ops,
            index,
            name,
            reduction,
            ty,
            rounds,
            env,
            span,
                values,
            1,
            values[0],
        );
    }
}

/// The values that parts have.
pub open spec fn values_of(parts: Seq<Option<ValueView>>) -> Seq<ValueView>
    decreases parts.len(),
{
    if parts.len() == 0 {
        Seq::empty()
    } else {
        match parts.last() {
            Some(value) => values_of(parts.drop_last()).push(value),
            None => values_of(parts.drop_last()),
        }
    }
}

/// All results of parts are whole numbers of one type.
pub open spec fn parts_alike(parts: Seq<Option<ValueView>>) -> bool {
    forall|i: int, j: int|
        0 <= i < parts.len() && 0 <= j < parts.len() && (#[trigger] parts[i]) is Some
            && (#[trigger] parts[j]) is Some ==> are_alike(parts[i]->0, parts[j]->0)
}

/// What parts from one on come to, put together with what came before.
proof fn lemma_parts<O: ValueOperations>(
    ops: O,
    op: ReductionOp,
    parts: Seq<Option<ValueView>>,
    span: Span,
    from: int,
    before: Option<ValueView>,
)
    requires
        compares_numbers(ops, span),
        adds_numbers(ops, span),
        parts_alike(parts),
        0 <= from <= parts.len(),
        match before {
            Some(value) => is_outcome(op, values_of(parts.take(from)), value) && forall|i: int|
                0 <= i < parts.len() ==> ((#[trigger] parts[i]) matches Some(part) ==> are_alike(
                    value,
                    part,
                )),
            None => values_of(parts.take(from)).len() == 0,
        },
    ensures
        ({
            let outcome = parts_together(ops, op, parts, from, before, span);
            &&& op != ReductionOp::Sum || always_adds(ops, span) ==> outcome is Ok
            &&& outcome matches Ok(found) ==> match found {
                Some(value) => is_outcome(op, values_of(parts), value),
                None => values_of(parts).len() == 0,
            }
        }),
    decreases parts.len() - from,
{
    if from == parts.len() {
        assert(parts.take(from) =~= parts);
    } else {
        let longer = parts.take(from + 1);
        assert(longer.drop_last() =~= parts.take(from));
        assert(longer.last() == parts[from]);
        let values = values_of(parts.take(from));
        match (before, parts[from]) {
            (Some(left), Some(right)) => {
                lemma_put_together(ops, op, values, left, right, span);
                if let Ok(value) = put_together(ops, op, left, right, span) {
                    lemma_parts(ops, op, parts, span, from + 1, Some(value));
                }
            },
            (None, part) => {
                if let Some(value) = part {
                    lemma_one_value(op, value);
                    assert(values.push(value) =~= seq![value]);
                }
                lemma_parts(ops, op, parts, span, from + 1, part);
            },
            (Some(left), None) => {
                lemma_parts(ops, op, parts, span, from + 1, Some(left));
            },
        }
    }
}

/// The results of parts put together are the largest of them for a max reduction, the
/// smallest for a min reduction, and their sum for a sum; there is none where no part
/// has one.
pub proof fn law_parts_come_to_their_extreme_or_sum<O: ValueOperations>(
    ops: O,
    op: ReductionOp,
    parts: Seq<Option<ValueView>>,
    span: Span,
)
    requires
        compares_numbers(ops, span),
        adds_numbers(ops, span),
        parts_alike(parts),
    ensures
        ({
            let outcome = parts_together(ops, op, parts, 0, None, span);
            let values = values_of(parts);
            &&& values.len() == 0 ==> (outcome matches Ok(None))
            &&& values.len() > 0 && op == ReductionOp::Max ==> (outcome matches Ok(Some(value))
                && is_largest(values, value))
            &&& values.len() > 0 && op == ReductionOp::Min ==> (outcome matches Ok(Some(value))
                && is_smallest(values, value))
            &&& always_adds(ops, span) ==> outcome is Ok
            &&& values.len() > 0 && op == ReductionOp::Sum ==> (outcome matches Ok(found) ==> (
            found matches Some(value) && number(value) == sum_of(values)))
        }),
{
    assert(parts.take(0) =~= Seq::empty());
    lemma_parts(ops, op, parts, span, 0, None);
    if values_of(parts).len() == 0 {
        lemma_no_parts(ops, op, parts, span, 0);
    }
}

/// Parts without results come to nothing.
proof fn lemma_no_parts<O: ValueOperations>(
    ops: O,
    op: ReductionOp,
    parts: Seq<Option<ValueView>>,
    span: Span,
    from: int,
)
    requires
        0 <= from <= parts.len(),
        values_of(parts).len() == 0,
    ensures
        parts_together(ops, op, parts, from, None, span) == Ok::<Option<ValueView>, FailureView>(
            None,
        ),
    decreases parts.len() - from,
{
    if from < parts.len() {
        lemma_part_is_counted(parts, from);
        lemma_no_parts(ops, op, parts, span, from + 1);
    }
}

/// A part that has a value is among those that have.
proof fn lemma_part_is_counted(parts: Seq<Option<ValueView>>, at: int)
    requires
        0 <= at < parts.len(),
    ensures
        parts[at] is Some ==> values_of(parts).len() > 0,
    decreases parts.len(),
{
    if at < parts.len() - 1 {
        lemma_part_is_counted(parts.drop_last(), at);
        assert(parts.drop_last()[at] == parts[at]);
    }
}

/// Once a reduction is done one round after another, its target stands for the largest,
/// the smallest or the sum of what the rounds give, with the type and the rest that it
/// had, and no other name stands for anything else.
pub proof fn law_reduction_sets_its_target<O: ValueOperations>(
    ops: O,
    index: IndexView,
    threads: usize,
    name: Seq<char>,
    reduction: ReductionView,
    ty: TypeView,
    rounds: Seq<ValueView>,
    span: Span,
    env: Scopes,
    values: Seq<ValueView>,
)
    requires
        compares_numbers(ops, span),
        adds_numbers(ops, span),
        values.len() == rounds.len(),
        all_alike(values),
        threads <= 1 || rounds.len() < PARFOR_MIN_ITERATIONS,
        meaning(env, reduction.target) matches Some(binding) && binding.ty == ty,
        forall|i: int|
            0 <= i < rounds.len() ==> round_reduced(
                ops,
                index,
                name,
                reduction,
                ty,
                #[trigger] rounds[i],
                env,
                span,
            ) == Ok::<ValueView, FailureView>(values[i]),
    ensures
        ({
            let (outcome, after) = reduction_done(
                ops,
                index,
                threads,
                name,
                reduction,
                rounds,
                span,
                env,
            );
            &&& outcome is Ok ==> (meaning(after, reduction.target) matches Some(binding)
                && is_outcome(reduction.op, values, binding.value) && binding
                == BindingView { value: binding.value, ..meaning(env, reduction.target)->0 })
            &&& outcome is Err ==> after == env
            &&& forall|other: Seq<char>|
                other != reduction.target ==> #[trigger] meaning(after, other) == meaning(
                    env,
                    other,
                )
        }),
{
    law_reduction_comes_to_its_extreme_or_sum(
        ops,
        index,
        name,
        reduction,
        ty,
        rounds,
        env,
        span,
        values,
    );
    let (outcome, after) = reduction_done(
        ops,
        index,
        threads,
        name,
        reduction,
        rounds,
        span,
        env,
    );
    if outcome is Ok {
        let at = scope_of(env, reduction.target, env.len() as int)->0;
        lemma_scope_of(env, reduction.target, env.len() as int);
        let binding = after[at][reduction.target];
        assert(after == with_meaning(env, reduction.target, binding));
        lemma_changed_scope(env, reduction.target, binding, reduction.target, env.len() as int);
        assert forall|other: Seq<char>| other != reduction.target implies #[trigger] meaning(
            after,
            other,
        ) == meaning(env, other) by {
            lemma_changed_scope(env, reduction.target, binding, other, env.len() as int);
            lemma_scope_of(env, other, env.len() as int);
        }
    }
}

/// A name that stands for something else is known where it was, and so are others.
proof fn lemma_changed_scope(
    env: Scopes,
    name: Seq<char>,
    binding: BindingView,
    other: Seq<char>,
    count: int,
)
    requires
        scope_of(env, name, env.len() as int) is Some,
        count <= env.len(),
    ensures
        scope_of(with_meaning(env, name, binding), other, count) == scope_of(env, other, count),
    decreases count,
{
    if count > 0 {
        lemma_scope_of(env, name, env.len() as int);
        lemma_changed_scope(env, name, binding, other, count - 1);
    }
}

} // verus!
