//! How a program goes on: loops, ranges and calls.

use crate::ast::{optional_text, Function, FunctionView, Span, TypeName, TypeView};
use crate::copy::copy_type;
use crate::diagnostic::{message_at_span, type_message, Diagnostic, DiagnosticView};
use crate::semantics::environment::{fresh_binding, with_name, Binding, Env};
use crate::semantics::known::outcome_is;
use crate::semantics::names::{argument_noun, noun_for, source_callable_name, source_name};
use crate::semantics::values::{values_view, Value, ValueView};
use crate::text::{decimal, decimal_text};
use vstd::arithmetic::div_mod::{lemma_fundamental_div_mod, lemma_fundamental_div_mod_converse};
use vstd::prelude::*;

verus! {

/// How often a loop may go round.
pub const LOOP_LIMIT: usize = 1_000_000;

/// From how many rounds on a parallel loop is handed out to threads.
pub const PARFOR_MIN_ITERATIONS: usize = 64;

/// How deep calls may nest.
pub const MAX_CALL_DEPTH: usize = 256;

/// How a program goes on behind a statement.
#[derive(Debug, PartialEq, Eq)]
pub enum Flow {
    Next,
    BreakLoop,
    ContinueLoop,
    Exit,
    Return(Option<Value>),
}

/// How a program goes on as a mathematical value.
#[verifier::ext_equal]
pub enum FlowView {
    Next,
    BreakLoop,
    ContinueLoop,
    Exit,
    Return(Option<ValueView>),
}

/// An optional value as a mathematical value.
pub open spec fn optional_value(value: Option<Value>) -> Option<ValueView> {
    match value {
        Some(value) => Some(value@),
        None => None,
    }
}

impl View for Flow {
    type V = FlowView;

    open spec fn view(&self) -> FlowView {
        match *self {
            Flow::Next => FlowView::Next,
            Flow::BreakLoop => FlowView::BreakLoop,
            Flow::ContinueLoop => FlowView::ContinueLoop,
            Flow::Exit => FlowView::Exit,
            Flow::Return(value) => FlowView::Return(optional_value(value)),
        }
    }
}

/// What a loop does behind its body.
#[derive(Debug, PartialEq, Eq)]
pub enum LoopStep {
    Again,
    Done,
    Leave(Flow),
}

/// What a loop does behind its body: it goes on, ends, or hands on what leaves
/// it.
pub open spec fn is_loop_step(step: LoopStep, flow: FlowView) -> bool {
    match flow {
        FlowView::Next | FlowView::ContinueLoop => step is Again,
        FlowView::BreakLoop => step is Done,
        FlowView::Exit | FlowView::Return(_) => step matches LoopStep::Leave(left) && left@ == flow,
    }
}

/// What a loop does behind its body.
pub fn after_body(flow: Flow) -> (step: LoopStep)
    ensures
        is_loop_step(step, flow@),
{
    match flow {
        Flow::Next => LoopStep::Again,
        Flow::ContinueLoop => LoopStep::Again,
        Flow::BreakLoop => LoopStep::Done,
        Flow::Exit => LoopStep::Leave(Flow::Exit),
        Flow::Return(value) => LoopStep::Leave(Flow::Return(value)),
    }
}

/// The number of rounds with one more, unless the limit is reached.
pub open spec fn next_round(rounds: usize, span: Span) -> Result<usize, DiagnosticView> {
    if rounds >= LOOP_LIMIT {
        Err(type_message("loop limit exceeded"@, span))
    } else {
        Ok((rounds + 1) as usize)
    }
}

/// Counts a round of a loop.
pub fn count_round(rounds: usize, span: Span) -> (outcome: Result<usize, Diagnostic>)
    ensures
        match next_round(rounds, span) {
            Ok(expected) => outcome matches Ok(found) && found == expected,
            Err(error) => outcome matches Err(found) && found@ == error,
        },
{
    if rounds >= LOOP_LIMIT {
        return Err(Diagnostic::about_types("loop limit exceeded", span));
    }
    Ok(rounds + 1)
}

/// What a condition decides.
pub open spec fn decided(value: ValueView, refusal: Seq<char>, span: Span) -> Result<
    bool,
    DiagnosticView,
> {
    match value {
        ValueView::Bool(value) => Ok(value),
        _ => Err(type_message(refusal, span)),
    }
}

/// What a condition decides. The refusal is what is said of any other value.
fn decide(value: &Value, refusal: &str, span: Span) -> (outcome: Result<bool, Diagnostic>)
    ensures
        match decided(value@, refusal@, span) {
            Ok(expected) => outcome matches Ok(found) && found == expected,
            Err(error) => outcome matches Err(found) && found@ == error,
        },
{
    match value {
        Value::Bool(value) => Ok(*value),
        _ => Err(Diagnostic::about_types(refusal, span)),
    }
}

/// Whether the first branch of an `if` is taken.
pub fn if_condition(value: &Value, span: Span) -> (outcome: Result<bool, Diagnostic>)
    ensures
        match decided(value@, "if condition must be bool"@, span) {
            Ok(expected) => outcome matches Ok(found) && found == expected,
            Err(error) => outcome matches Err(found) && found@ == error,
        },
{
    decide(value, "if condition must be bool", span)
}

/// Whether a `while` loop goes on.
pub fn while_condition(value: &Value, span: Span) -> (outcome: Result<bool, Diagnostic>)
    ensures
        match decided(value@, "while condition must be bool"@, span) {
            Ok(expected) => outcome matches Ok(found) && found == expected,
            Err(error) => outcome matches Err(found) && found@ == error,
        },
{
    decide(value, "while condition must be bool", span)
}

/// Whether an assertion holds.
pub fn assert_condition(value: &Value, span: Span) -> (outcome: Result<bool, Diagnostic>)
    ensures
        match decided(value@, "assert condition must be bool"@, span) {
            Ok(expected) => outcome matches Ok(found) && found == expected,
            Err(error) => outcome matches Err(found) && found@ == error,
        },
{
    decide(value, "assert condition must be bool", span)
}

/// What is said of an assertion that does not hold.
pub open spec fn failed_assertion(message: Option<Seq<char>>) -> Seq<char> {
    match message {
        Some(message) => "assertion failed: "@ + message,
        None => "assertion failed"@,
    }
}

/// What is said of an assertion that does not hold.
pub fn assertion_failure(message: Option<String>, span: Span) -> (diagnostic: Diagnostic)
    ensures
        diagnostic@ == message_at_span(
            failed_assertion(optional_text(message)),
            span,
        ),
{
    match message {
        Some(message) => {
            let mut text = String::from_str("assertion failed: ");
            text.append(message.as_str());
            Diagnostic::at_span(text, span)
        },
        None => Diagnostic::at_span(String::from_str("assertion failed"), span),
    }
}

/// What is said where a program gives up.
pub fn panic_failure(message: &String, span: Span) -> (diagnostic: Diagnostic)
    ensures
        diagnostic@ == message_at_span("panic: "@ + message@, span),
{
    let mut text = String::from_str("panic: ");
    text.append(message.as_str());
    Diagnostic::at_span(text, span)
}

/// The end of a loop from inside, where there is one.
pub fn break_flow(loop_depth: usize, span: Span) -> (outcome: Result<Flow, Diagnostic>)
    ensures
        loop_depth == 0 ==> (outcome matches Err(found) && found@ == type_message(
            "break used outside loop"@,
            span,
        )),
        loop_depth > 0 ==> (outcome matches Ok(flow) && flow@ == FlowView::BreakLoop),
{
    if loop_depth == 0 {
        return Err(Diagnostic::about_types("break used outside loop", span));
    }
    Ok(Flow::BreakLoop)
}

/// The next round of a loop from inside, where there is one.
pub fn continue_flow(loop_depth: usize, span: Span) -> (outcome: Result<Flow, Diagnostic>)
    ensures
        loop_depth == 0 ==> (outcome matches Err(found) && found@ == type_message(
            "continue used outside loop"@,
            span,
        )),
        loop_depth > 0 ==> (outcome matches Ok(flow) && flow@ == FlowView::ContinueLoop),
{
    if loop_depth == 0 {
        return Err(Diagnostic::about_types("continue used outside loop", span));
    }
    Ok(Flow::ContinueLoop)
}

/// The numbers that a loop goes through: from the start up to before the end.
#[derive(Debug, Clone, Copy, PartialEq, Eq, Structural)]
#[allow(inconsistent_fields)]
pub enum ForRange {
    Signed { bits: u16, start: i128, end: i128 },
    Unsigned { bits: u16, start: u128, end: u128 },
}

/// The type that the end of a range has to have, by its start.
pub open spec fn range_type(start: ValueView, span: Span) -> Result<TypeView, DiagnosticView> {
    match start {
        ValueView::Int { bits, .. } => Ok(TypeView::Int { signed: true, bits }),
        ValueView::UInt { bits, .. } => Ok(TypeView::Int { signed: false, bits }),
        _ => Err(type_message("for range start must be integer"@, span)),
    }
}

/// The type that the end of a range has to have, by its start.
pub fn range_end_type(start: &Value, span: Span) -> (outcome: Result<TypeName, Diagnostic>)
    ensures
        match range_type(start@, span) {
            Ok(expected) => outcome matches Ok(found) && found@ == expected,
            Err(error) => outcome matches Err(found) && found@ == error,
        },
{
    match start {
        Value::Int { bits, .. } => Ok(TypeName::Int { signed: true, bits: *bits }),
        Value::UInt { bits, .. } => Ok(TypeName::Int { signed: false, bits: *bits }),
        _ => Err(Diagnostic::about_types("for range start must be integer", span)),
    }
}

/// The range between two values, the second of which has been made to have the
/// type of the first.
pub open spec fn range_between(start: ValueView, end: ValueView, span: Span) -> Result<
    ForRange,
    DiagnosticView,
> {
    match (start, end) {
        (ValueView::Int { bits, value: start }, ValueView::Int { value: end, .. }) => Ok(
            ForRange::Signed { bits, start, end },
        ),
        (ValueView::UInt { bits, value: start }, ValueView::UInt { value: end, .. }) => Ok(
            ForRange::Unsigned { bits, start, end },
        ),
        (ValueView::Int { .. }, _) | (ValueView::UInt { .. }, _) => Err(
            type_message("for range end must be integer"@, span),
        ),
        _ => Err(type_message("for range start must be integer"@, span)),
    }
}

/// The range between two values, the second of which has been made to have the
/// type of the first.
pub fn coerce_for_range(start: &Value, end: &Value, span: Span) -> (outcome: Result<
    ForRange,
    Diagnostic,
>)
    ensures
        match range_between(start@, end@, span) {
            Ok(expected) => outcome matches Ok(found) && found == expected,
            Err(error) => outcome matches Err(found) && found@ == error,
        },
{
    match start {
        Value::Int { bits, value } => match end {
            Value::Int { value: end, .. } => Ok(
                ForRange::Signed { bits: *bits, start: *value, end: *end },
            ),
            _ => Err(Diagnostic::about_types("for range end must be integer", span)),
        },
        Value::UInt { bits, value } => match end {
            Value::UInt { value: end, .. } => Ok(
                ForRange::Unsigned { bits: *bits, start: *value, end: *end },
            ),
            _ => Err(Diagnostic::about_types("for range end must be integer", span)),
        },
        _ => Err(Diagnostic::about_types("for range start must be integer", span)),
    }
}

/// The first number of a range.
pub open spec fn range_start(range: ForRange) -> int {
    match range {
        ForRange::Signed { start, .. } => start as int,
        ForRange::Unsigned { start, .. } => start as int,
    }
}

/// The number behind the last of a range.
pub open spec fn range_end(range: ForRange) -> int {
    match range {
        ForRange::Signed { end, .. } => end as int,
        ForRange::Unsigned { end, .. } => end as int,
    }
}

/// How many numbers a range has.
pub open spec fn range_len(range: ForRange) -> nat {
    if range_end(range) <= range_start(range) {
        0
    } else {
        (range_end(range) - range_start(range)) as nat
    }
}

/// A number as a value of the range.
pub open spec fn range_value(range: ForRange, number: int) -> ValueView {
    match range {
        ForRange::Signed { bits, .. } => ValueView::Int { bits, value: number as i128 },
        ForRange::Unsigned { bits, .. } => ValueView::UInt { bits, value: number as u128 },
    }
}

/// The values of a range in order. Of a range that no loop may go through, the
/// first that are one more than the limit.
pub open spec fn range_values(range: ForRange) -> Seq<ValueView> {
    let count = if range_len(range) <= LOOP_LIMIT {
        range_len(range)
    } else {
        (LOOP_LIMIT + 1) as nat
    };
    Seq::new(count, |i: int| range_value(range, range_start(range) + i))
}

/// The values of a range in order.
pub fn for_range_values(range: ForRange) -> (values: Vec<Value>)
    ensures
        values_view(values@) == range_values(range),
{
    let mut values: Vec<Value> = Vec::new();
    match range {
        ForRange::Signed { bits, start, end } => {
            let mut cursor: i128 = start;
            while cursor < end && values.len() <= LOOP_LIMIT
                invariant
                    range == (ForRange::Signed { bits, start, end }),
                    start < end ==> start <= cursor <= end,
                    end <= start ==> cursor == start,
                    values@.len() == cursor - start,
                    values@.len() <= LOOP_LIMIT + 1,
                    forall|j: int|
                        0 <= j < values@.len() ==> (#[trigger] values@[j])@ == range_value(
                            range,
                            start + j,
                        ),
                decreases end - cursor,
            {
                values.push(Value::Int { bits, value: cursor });
                cursor = cursor + 1;
            }
        },
        ForRange::Unsigned { bits, start, end } => {
            let mut cursor: u128 = start;
            while cursor < end && values.len() <= LOOP_LIMIT
                invariant
                    range == (ForRange::Unsigned { bits, start, end }),
                    start < end ==> start <= cursor <= end,
                    end <= start ==> cursor == start,
                    values@.len() == cursor - start,
                    values@.len() <= LOOP_LIMIT + 1,
                    forall|j: int|
                        0 <= j < values@.len() ==> (#[trigger] values@[j])@ == range_value(
                            range,
                            start + j,
                        ),
                decreases end - cursor,
            {
                values.push(Value::UInt { bits, value: cursor });
                cursor = cursor + 1;
            }
        },
    }
    assert(values_view(values@) =~= range_values(range));
    values
}

/// A range without its first number.
pub open spec fn range_rest(range: ForRange) -> ForRange {
    match range {
        ForRange::Signed { bits, start, end } => ForRange::Signed {
            bits,
            start: (start + 1) as i128,
            end,
        },
        ForRange::Unsigned { bits, start, end } => ForRange::Unsigned {
            bits,
            start: (start + 1) as u128,
            end,
        },
    }
}

/// The next value of a range, and the range without it.
pub fn next_in_range(range: ForRange) -> (next: Option<(Value, ForRange)>)
    ensures
        match next {
            Some((value, rest)) => range_len(range) > 0 && value@ == range_value(
                range,
                range_start(range),
            ) && rest == range_rest(range),
            None => range_len(range) == 0,
        },
{
    match range {
        ForRange::Signed { bits, start, end } => {
            if start < end {
                Some(
                    (
                        Value::Int { bits, value: start },
                        ForRange::Signed { bits, start: start + 1, end },
                    ),
                )
            } else {
                None
            }
        },
        ForRange::Unsigned { bits, start, end } => {
            if start < end {
                Some(
                    (
                        Value::UInt { bits, value: start },
                        ForRange::Unsigned { bits, start: start + 1, end },
                    ),
                )
            } else {
                None
            }
        },
    }
}

/// A loop that takes one value of a range after the other goes through the
/// values of the range in order.
pub proof fn law_range_by_steps(range: ForRange)
    requires
        0 < range_len(range) <= LOOP_LIMIT,
    ensures
        range_values(range) == seq![range_value(range, range_start(range))] + range_values(
            range_rest(range),
        ),
        range_len(range_rest(range)) == range_len(range) - 1,
{
    assert(range_start(range_rest(range)) == range_start(range) + 1);
    assert(range_values(range) =~= seq![range_value(range, range_start(range))] + range_values(
        range_rest(range),
    ));
}

/// Opens the scope of a round of a loop, with its variable.
pub fn enter_round(env: &mut Env, name: &String, value: Value, ty: TypeName)
    ensures
        final(env)@ == with_name(
            old(env)@.push(Map::empty()),
            name@,
            fresh_binding(value@, ty@, false),
        ),
{
    env.push();
    env.insert(name.clone(), Binding::fresh(value, ty, false));
}

/// What is wrong with how the body of a parallel loop went on.
pub open spec fn parallel_problem(flow: FlowView, span: Span) -> Option<DiagnosticView> {
    match flow {
        FlowView::Next | FlowView::ContinueLoop => None,
        FlowView::BreakLoop => Some(
            type_message("break is not allowed inside parfor body"@, span),
        ),
        FlowView::Exit => Some(type_message("exit is not allowed inside parfor body"@, span)),
        FlowView::Return(_) => Some(
            type_message("return is not allowed inside parfor body"@, span),
        ),
    }
}

/// Checks how the body of a parallel loop went on.
pub fn check_parallel_flow(flow: &Flow, span: Span) -> (outcome: Result<(), Diagnostic>)
    ensures
        outcome_is(outcome, parallel_problem(flow@, span)),
{
    match flow {
        Flow::Next => Ok(()),
        Flow::ContinueLoop => Ok(()),
        Flow::BreakLoop => Err(
            Diagnostic::about_types("break is not allowed inside parfor body", span),
        ),
        Flow::Exit => Err(Diagnostic::about_types("exit is not allowed inside parfor body", span)),
        Flow::Return(_) => Err(
            Diagnostic::about_types("return is not allowed inside parfor body", span),
        ),
    }
}

/// Whether a parallel loop is handed out to threads.
pub fn is_handed_out(threads: usize, rounds: usize) -> (handed: bool)
    ensures
        handed == (threads > 1 && rounds >= PARFOR_MIN_ITERATIONS),
{
    threads > 1 && rounds >= PARFOR_MIN_ITERATIONS
}

/// The rounds that each thread gets: one after the other, as many as fit so that
/// there are no more parts than threads.
pub open spec fn parts_of(total: nat, size: nat, from: nat) -> Seq<(usize, usize)>
    decreases total - from,
{
    if size == 0 || from >= total {
        Seq::empty()
    } else {
        let end = if from + size < total {
            from + size
        } else {
            total
        };
        seq![(from as usize, end as usize)] + parts_of(total, size, end)
    }
}

/// How many rounds a thread gets: the total over the threads, rounded up.
pub open spec fn part_size(total: nat, threads: nat) -> nat {
    let workers = if threads < total {
        threads
    } else {
        total
    };
    if workers == 0 {
        0
    } else {
        (total + workers - 1) as nat / workers
    }
}

/// The rounds that each thread gets.
pub fn split_rounds(total: usize, threads: usize) -> (parts: Vec<(usize, usize)>)
    requires
        threads >= 1,
    ensures
        parts@ == parts_of(total as nat, part_size(total as nat, threads as nat), 0),
{
    let mut parts: Vec<(usize, usize)> = Vec::new();
    if total == 0 {
        assert(parts@ =~= Seq::empty());
        return parts;
    }
    let workers: usize = if threads < total {
        threads
    } else {
        total
    };
    let whole: usize = total / workers;
    assert(whole * workers <= total && total < (whole + 1) * workers) by (nonlinear_arith)
        requires
            whole == total / workers,
            workers > 0,
    ;
    let size: usize = if whole * workers < total {
        assert(whole < total) by (nonlinear_arith)
            requires
                whole * workers < total,
                workers >= 1,
        ;
        whole + 1
    } else {
        whole
    };
    proof {
        lemma_rounded_up(total as nat, workers as nat, whole as nat);
    }
    let ghost all = parts_of(total as nat, size as nat, 0);
    let mut from: usize = 0;
    while from < total
        invariant
            from <= total,
            size > 0,
            all == parts@ + parts_of(total as nat, size as nat, from as nat),
        decreases total - from,
    {
        let end: usize = if size < total - from {
            from + size
        } else {
            total
        };
        let ghost before = parts@;
        parts.push((from, end));
        assert(before + (seq![(from, end)] + parts_of(total as nat, size as nat, end as nat))
            =~= parts@ + parts_of(total as nat, size as nat, end as nat));
        from = end;
    }
    assert(parts@ =~= all);
    parts
}

/// The quotient rounded up.
proof fn lemma_rounded_up(total: nat, workers: nat, whole: nat)
    requires
        workers > 0,
        total > 0,
        whole == total / workers,
    ensures
        (total + workers - 1) as nat / workers == if whole * workers < total {
            whole + 1
        } else {
            whole
        },
        (total + workers - 1) as nat / workers > 0,
{
    let rest = total % workers;
    lemma_fundamental_div_mod(total as int, workers as int);
    assert(whole * workers == workers * whole) by (nonlinear_arith);
    if rest == 0 {
        assert((total + workers - 1) == whole * workers + (workers - 1));
        lemma_fundamental_div_mod_converse(
            total + workers - 1,
            workers as int,
            whole as int,
            workers - 1,
        );
        assert(whole > 0) by (nonlinear_arith)
            requires
                whole * workers == total,
                total > 0,
        ;
    } else {
        assert((total + workers - 1) == (whole + 1) * workers + (rest - 1)) by (nonlinear_arith)
            requires
                total == workers * whole + rest,
        ;
        lemma_fundamental_div_mod_converse(
            total + workers - 1,
            workers as int,
            whole as int + 1,
            rest - 1,
        );
    }
}

/// The parts of a parallel loop are its rounds in order: the first starts at the
/// start, each starts where the one before it ends, and the last ends at the
/// end.
pub proof fn law_parts_cover_rounds(total: nat, size: nat, from: nat)
    requires
        size > 0,
        from < total <= usize::MAX,
    ensures
        parts_of(total, size, from).len() > 0,
        parts_of(total, size, from)[0].0 == from,
        parts_of(total, size, from).last().1 == total,
        forall|i: int|
            0 <= i < parts_of(total, size, from).len() ==> (#[trigger] parts_of(
                total,
                size,
                from,
            )[i]).0 < parts_of(total, size, from)[i].1,
        forall|i: int|
            0 < i < parts_of(total, size, from).len() ==> (#[trigger] parts_of(
                total,
                size,
                from,
            )[i]).0 == parts_of(total, size, from)[i - 1].1,
    decreases total - from,
{
    let end = if from + size < total {
        from + size
    } else {
        total
    };
    let rest = parts_of(total, size, end);
    let all = parts_of(total, size, from);
    assert(all == seq![(from as usize, end as usize)] + rest);
    if end < total {
        law_parts_cover_rounds(total, size, end);
        assert forall|i: int| 0 < i < all.len() implies (#[trigger] all[i]).0 == all[i - 1].1 by {
            assert(all[i] == rest[i - 1]);
            if i > 1 {
                assert(all[i - 1] == rest[i - 2]);
            }
        }
        assert forall|i: int| 0 <= i < all.len() implies (#[trigger] all[i]).0 < all[i].1 by {
            if i > 0 {
                assert(all[i] == rest[i - 1]);
            }
        }
        assert(all.last() == rest.last());
    }
}

/// What is said of calls that nest too deep.
pub open spec fn too_deep() -> Seq<char> {
    "call depth exceeded maximum of "@ + decimal(MAX_CALL_DEPTH as nat)
        + " (possible recursion cycle)"@
}

/// What is said of a call with the wrong number of arguments.
pub open spec fn wrong_arguments(name: Seq<char>, expected: nat, got: nat) -> Seq<char> {
    "function '"@ + source_name(name) + "' expects "@ + decimal(expected) + " "@ + noun_for(
        expected,
    ) + ", got "@ + decimal(got)
}

/// Checks that a call does not nest too deep.
pub fn check_call_depth(depth: usize, span: Span) -> (outcome: Result<(), Diagnostic>)
    ensures
        outcome_is(
            outcome,
            if depth >= MAX_CALL_DEPTH {
                Some(type_message(too_deep(), span))
            } else {
                None
            },
        ),
{
    if depth >= MAX_CALL_DEPTH {
        let mut message = String::from_str("call depth exceeded maximum of ");
        message.append(decimal_text(MAX_CALL_DEPTH as u64).as_str());
        message.append(" (possible recursion cycle)");
        return Err(Diagnostic::type_error(message, span));
    }
    Ok(())
}

/// Checks the number of arguments of a call.
pub fn check_argument_count(function: &Function, count: usize) -> (outcome: Result<(), Diagnostic>)
    ensures
        outcome_is(
            outcome,
            if count != function@.params.len() {
                Some(
                    type_message(
                        wrong_arguments(function@.name, function@.params.len(), count as nat),
                        function@.span,
                    ),
                )
            } else {
                None
            },
        ),
{
    assert(function@.params.len() == function.params@.len());
    let expected: usize = function.params.len();
    if count != expected {
        let mut message = String::from_str("function '");
        message.append(source_callable_name(&function.name).as_str());
        message.append("' expects ");
        message.append(decimal_text(expected as u64).as_str());
        message.append(" ");
        message.append(argument_noun(expected));
        message.append(", got ");
        message.append(decimal_text(count as u64).as_str());
        return Err(Diagnostic::type_error(message, function.span));
    }
    Ok(())
}

/// What a call comes to: nothing, a value that is still to be made to have the
/// type that the function gives back, or the end of the program.
#[derive(Debug, PartialEq, Eq)]
pub enum CallStep {
    Nothing,
    Give { value: Value, ty: TypeName },
    Exit,
}

/// What a call comes to as a mathematical value.
#[verifier::ext_equal]
pub enum CallStepView {
    Nothing,
    Give { value: ValueView, ty: TypeView },
    Exit,
}

impl View for CallStep {
    type V = CallStepView;

    open spec fn view(&self) -> CallStepView {
        match *self {
            CallStep::Nothing => CallStepView::Nothing,
            CallStep::Give { value, ty } => CallStepView::Give { value: value@, ty: ty@ },
            CallStep::Exit => CallStepView::Exit,
        }
    }
}

/// What is said of a function, by its name.
pub open spec fn of_function(name: Seq<char>, rest: Seq<char>) -> Seq<char> {
    "function '"@ + source_name(name) + rest
}

/// What a call comes to, by how the body of the function went on.
pub open spec fn call_step(function: FunctionView, flow: FlowView) -> Result<
    CallStepView,
    DiagnosticView,
> {
    match flow {
        FlowView::Next => if function.return_type is Some {
            Err(
                type_message(
                    of_function(function.name, "' is missing return value"@),
                    function.span,
                ),
            )
        } else {
            Ok(CallStepView::Nothing)
        },
        FlowView::Return(value) => match (function.return_type, value) {
            (Some(ty), Some(value)) => Ok(CallStepView::Give { value, ty }),
            (Some(_), None) => Err(
                type_message(
                    of_function(function.name, "' must return a value"@),
                    function.span,
                ),
            ),
            (None, Some(_)) => Err(
                type_message(
                    of_function(function.name, "' cannot return a value"@),
                    function.span,
                ),
            ),
            (None, None) => Ok(CallStepView::Nothing),
        },
        FlowView::Exit => Ok(CallStepView::Exit),
        FlowView::BreakLoop | FlowView::ContinueLoop => Err(
            message_at_span(
                "internal error: illegal loop flow escaped function"@,
                function.span,
            ),
        ),
    }
}

/// What is said of a function, by its name.
fn say_of_function(function: &Function, rest: &str) -> (diagnostic: Diagnostic)
    ensures
        diagnostic@ == type_message(of_function(function@.name, rest@), function@.span),
{
    let mut message = String::from_str("function '");
    message.append(source_callable_name(&function.name).as_str());
    message.append(rest);
    Diagnostic::type_error(message, function.span)
}

/// What a call comes to, by how the body of the function went on.
pub fn finish_call(function: &Function, flow: Flow) -> (outcome: Result<CallStep, Diagnostic>)
    ensures
        match call_step(function@, flow@) {
            Ok(expected) => outcome matches Ok(found) && found@ == expected,
            Err(error) => outcome matches Err(found) && found@ == error,
        },
{
    match flow {
        Flow::Next => {
            if function.return_type.is_some() {
                Err(say_of_function(function, "' is missing return value"))
            } else {
                Ok(CallStep::Nothing)
            }
        },
        Flow::Return(value) => match (&function.return_type, value) {
            (Some(ty), Some(value)) => Ok(CallStep::Give { value, ty: copy_type(ty) }),
            (Some(_), None) => Err(say_of_function(function, "' must return a value")),
            (None, Some(_)) => Err(say_of_function(function, "' cannot return a value")),
            (None, None) => Ok(CallStep::Nothing),
        },
        Flow::Exit => Ok(CallStep::Exit),
        Flow::BreakLoop => Err(
            Diagnostic::at_span(
                String::from_str("internal error: illegal loop flow escaped function"),
                function.span,
            ),
        ),
        Flow::ContinueLoop => Err(
            Diagnostic::at_span(
                String::from_str("internal error: illegal loop flow escaped function"),
                function.span,
            ),
        ),
    }
}

/// The note that an error gets on its way out of a function.
pub fn function_note(function: &Function) -> (note: String)
    ensures
        note@ == "in function '"@ + source_name(function@.name) + "'"@,
{
    let mut note = String::from_str("in function '");
    note.append(source_callable_name(&function.name).as_str());
    note.append("'");
    note
}

} // verus!
