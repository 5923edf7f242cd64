//! From a program to what runs: the shapes of loops that have a routine of their
//! own, the general way, and the interpreter, in this order.

use crate::ast::{Function, FunctionView, Program};
use crate::diagnostic::{message_at, Diagnostic};
use crate::ir::LoweredStmt;
use crate::semantics::execute::{main_lowered, run_main};
use crate::semantics::index::{IndexView, ProgramIndex};
use crate::semantics::names::{find_function, function_names, position_of};
use crate::semantics::operations::{are_operations, lowered_or_failure, ValueOperations};
use crate::semantics::program::{index_program, indexed};
use crate::semantics::state::{plain, Failure};
use vstd::prelude::*;

verus! {

/// A shape of a main function that has a routine of its own.
#[derive(Debug, Clone, Copy, PartialEq, Eq, Structural)]
pub enum Kernel {
    SeededFor,
    SeededAllocWhile,
    RingWriteWhile,
    PrefixScanWhile,
    BloomFilter,
    SortWindowWhile,
    SeededBranchWhile,
    BranchWhile,
    SeededDualStateBranchWhile,
    SeededAffineIndexWhile,
    AffineIndexWhile,
    SeededStructLatencyWhile,
    SeededWhile,
    For,
    While,
}

/// What the general way comes to.
#[derive(Debug, PartialEq, Eq)]
pub enum RuntimeGenericAttempt {
    Lowered(Vec<LoweredStmt>),
    Fallback { reason: String },
}

/// The shapes in the order in which they are tried.
pub open spec fn kernel_order() -> Seq<Kernel> {
    seq![
        Kernel::SeededFor,
        Kernel::SeededAllocWhile,
        Kernel::RingWriteWhile,
        Kernel::PrefixScanWhile,
        Kernel::BloomFilter,
        Kernel::SortWindowWhile,
        Kernel::SeededBranchWhile,
        Kernel::BranchWhile,
        Kernel::SeededDualStateBranchWhile,
        Kernel::SeededAffineIndexWhile,
        Kernel::AffineIndexWhile,
        Kernel::SeededStructLatencyWhile,
        Kernel::SeededWhile,
        Kernel::For,
        Kernel::While,
    ]
}

/// The shapes in the order in which they are tried.
fn kernels_in_order() -> (kernels: Vec<Kernel>)
    ensures
        kernels@ == kernel_order(),
{
    let mut kernels: Vec<Kernel> = Vec::new();
    kernels.push(Kernel::SeededFor);
    kernels.push(Kernel::SeededAllocWhile);
    kernels.push(Kernel::RingWriteWhile);
    kernels.push(Kernel::PrefixScanWhile);
    kernels.push(Kernel::BloomFilter);
    kernels.push(Kernel::SortWindowWhile);
    kernels.push(Kernel::SeededBranchWhile);
    kernels.push(Kernel::BranchWhile);
    kernels.push(Kernel::SeededDualStateBranchWhile);
    kernels.push(Kernel::SeededAffineIndexWhile);
    kernels.push(Kernel::AffineIndexWhile);
    kernels.push(Kernel::SeededStructLatencyWhile);
    kernels.push(Kernel::SeededWhile);
    kernels.push(Kernel::For);
    kernels.push(Kernel::While);
    assert(kernels@ =~= kernel_order());
    kernels
}

/// The outcome is a failure with an error, of which nothing more is said.
pub open spec fn fails_with(
    outcome: Result<Vec<LoweredStmt>, Failure>,
    error: Diagnostic,
) -> bool {
    outcome matches Err(found) && found@ == plain(error@)
}

/// The outcome is what the first shape from a position on that fits or fails
/// comes to, or, where none does, what the general way comes to, or, where that
/// falls back, what the interpreter comes to.
pub open spec fn lowered_from<K, G, I>(
    kernels: K,
    generic: G,
    interpret: I,
    main: Function,
    index: ProgramIndex,
    from: int,
    outcome: Result<Vec<LoweredStmt>, Failure>,
) -> bool where
    K: Fn(Kernel, &Function) -> Result<Option<Vec<LoweredStmt>>, Diagnostic>,
    G: Fn(&Function, &ProgramIndex) -> Result<RuntimeGenericAttempt, Diagnostic>,
    I: Fn(&Function, &ProgramIndex) -> Result<Vec<LoweredStmt>, Failure>,

    decreases kernel_order().len() - from,
{
    if 0 <= from < kernel_order().len() {
        exists|attempt: Result<Option<Vec<LoweredStmt>>, Diagnostic>| #[trigger]
            call_ensures(kernels, (kernel_order()[from], &main), attempt) && (match attempt {
                Err(error) => fails_with(outcome, error),
                Ok(Some(lowered)) => outcome == Ok::<Vec<LoweredStmt>, Failure>(lowered),
                Ok(None) => lowered_from(
                    kernels,
                    generic,
                    interpret,
                    main,
                    index,
                    from + 1,
                    outcome,
                ),
            })
    } else {
        exists|attempt: Result<RuntimeGenericAttempt, Diagnostic>| #[trigger]
            call_ensures(generic, (&main, &index), attempt) && (match attempt {
                Err(error) => fails_with(outcome, error),
                Ok(RuntimeGenericAttempt::Lowered(lowered)) => outcome == Ok::<
                    Vec<LoweredStmt>,
                    Failure,
                >(lowered),
                Ok(RuntimeGenericAttempt::Fallback { .. }) => call_ensures(
                    interpret,
                    (&main, &index),
                    outcome,
                ),
            })
    }
}

/// The outcome is that of trying all ways in order on the main function and the
/// index of the program.
pub open spec fn is_lowered<K, G, I>(
    kernels: K,
    generic: G,
    interpret: I,
    main: FunctionView,
    index: IndexView,
    outcome: Result<Vec<LoweredStmt>, Failure>,
) -> bool where
    K: Fn(Kernel, &Function) -> Result<Option<Vec<LoweredStmt>>, Diagnostic>,
    G: Fn(&Function, &ProgramIndex) -> Result<RuntimeGenericAttempt, Diagnostic>,
    I: Fn(&Function, &ProgramIndex) -> Result<Vec<LoweredStmt>, Failure>,
 {
    exists|given: Function, all: ProgramIndex|
        given@ == main && all@ == index && #[trigger] lowered_from(
            kernels,
            generic,
            interpret,
            given,
            all,
            0,
            outcome,
        )
}

/// Tries all ways in order on the main function.
fn lower_main<K, G, I>(
    main: &Function,
    index: &ProgramIndex,
    kernels: &K,
    generic: &G,
    interpret: &I,
) -> (outcome: Result<Vec<LoweredStmt>, Failure>) where
    K: Fn(Kernel, &Function) -> Result<Option<Vec<LoweredStmt>>, Diagnostic>,
    G: Fn(&Function, &ProgramIndex) -> Result<RuntimeGenericAttempt, Diagnostic>,
    I: Fn(&Function, &ProgramIndex) -> Result<Vec<LoweredStmt>, Failure>,

    requires
        forall|kernel: Kernel| call_requires(*kernels, (kernel, main)),
        call_requires(*generic, (main, index)),
        call_requires(*interpret, (main, index)),
    ensures
        lowered_from(*kernels, *generic, *interpret, *main, *index, 0, outcome),
{
    let order = kernels_in_order();
    lower_main_from(main, index, kernels, generic, interpret, &order, 0)
}

/// Tries the ways from a position on.
fn lower_main_from<K, G, I>(
    main: &Function,
    index: &ProgramIndex,
    kernels: &K,
    generic: &G,
    interpret: &I,
    order: &Vec<Kernel>,
    from: usize,
) -> (outcome: Result<Vec<LoweredStmt>, Failure>) where
    K: Fn(Kernel, &Function) -> Result<Option<Vec<LoweredStmt>>, Diagnostic>,
    G: Fn(&Function, &ProgramIndex) -> Result<RuntimeGenericAttempt, Diagnostic>,
    I: Fn(&Function, &ProgramIndex) -> Result<Vec<LoweredStmt>, Failure>,

    requires
        order@ == kernel_order(),
        from <= order@.len(),
        forall|kernel: Kernel| call_requires(*kernels, (kernel, main)),
        call_requires(*generic, (main, index)),
        call_requires(*interpret, (main, index)),
    ensures
        lowered_from(*kernels, *generic, *interpret, *main, *index, from as int, outcome),
    decreases order@.len() - from,
{
    if from < order.len() {
        let attempt = kernels(order[from], main);
        match attempt {
            Err(error) => Err(Failure::of(error)),
            Ok(Some(lowered)) => Ok(lowered),
            Ok(None) => lower_main_from(
                main,
                index,
                kernels,
                generic,
                interpret,
                order,
                from + 1,
            ),
        }
    } else {
        let attempt = generic(main, index);
        match attempt {
            Err(error) => Err(Failure::of(error)),
            Ok(RuntimeGenericAttempt::Lowered(lowered)) => Ok(lowered),
            Ok(RuntimeGenericAttempt::Fallback { reason: _ }) => interpret(main, index),
        }
    }
}

/// Lowers a program: checks and indexes it, and hands its main function to the
/// routines for the shapes of loops, to the general way and to the interpreter,
/// until one of them lowers it or fails.
pub fn lower_program<K, G, I>(
    program: &Program,
    kernels: &K,
    generic: &G,
    interpret: &I,
) -> (outcome: Result<Vec<LoweredStmt>, Failure>) where
    K: Fn(Kernel, &Function) -> Result<Option<Vec<LoweredStmt>>, Diagnostic>,
    G: Fn(&Function, &ProgramIndex) -> Result<RuntimeGenericAttempt, Diagnostic>,
    I: Fn(&Function, &ProgramIndex) -> Result<Vec<LoweredStmt>, Failure>,

    requires
        forall|kernel: Kernel, main: &Function| call_requires(*kernels, (kernel, main)),
        forall|main: &Function, index: &ProgramIndex| call_requires(*generic, (main, index)),
        forall|main: &Function, index: &ProgramIndex| call_requires(*interpret, (main, index)),
    ensures
        match indexed(program@) {
            Err(error) => outcome matches Err(found) && found@ == plain(error),
            Ok(index) => match position_of(function_names(index.functions), "main"@) {
                None => outcome matches Err(found) && found@ == plain(
                    message_at("missing fn main()"@, 0, 0),
                ),
                Some(at) => is_lowered(
                    *kernels,
                    *generic,
                    *interpret,
                    index.functions[at],
                    index,
                    outcome,
                ),
            },
        },
{
    let index = match index_program(program) {
        Ok(index) => index,
        Err(error) => {
            return Err(Failure::of(error));
        },
    };
    let name = String::from_str("main");
    let at: usize = match find_function(&index.functions, &name) {
        Some(at) => at,
        None => {
            return Err(Failure::of(Diagnostic::new("missing fn main()", 0, 0)));
        },
    };
    assert(index@.functions[at as int] == index.functions@[at as int]@);
    lower_main(&index.functions[at], &index, kernels, generic, interpret)
}

/// The outcome is what the first shape from a position on that fits or fails
/// comes to, or, where none does, what the general way comes to, or, where that
/// falls back, what the main function does when it runs.
pub open spec fn lowered_or_run_from<K, G, O>(
    kernels: K,
    generic: G,
    ops: O,
    threads: usize,
    main: Function,
    index: ProgramIndex,
    from: int,
    outcome: Result<Vec<LoweredStmt>, Failure>,
) -> bool where
    K: Fn(Kernel, &Function) -> Result<Option<Vec<LoweredStmt>>, Diagnostic>,
    G: Fn(&Function, &ProgramIndex) -> Result<RuntimeGenericAttempt, Diagnostic>,
    O: ValueOperations,

    decreases kernel_order().len() - from,
{
    if 0 <= from < kernel_order().len() {
        exists|attempt: Result<Option<Vec<LoweredStmt>>, Diagnostic>| #[trigger]
            call_ensures(kernels, (kernel_order()[from], &main), attempt) && (match attempt {
                Err(error) => fails_with(outcome, error),
                Ok(Some(lowered)) => outcome == Ok::<Vec<LoweredStmt>, Failure>(lowered),
                Ok(None) => lowered_or_run_from(
                    kernels,
                    generic,
                    ops,
                    threads,
                    main,
                    index,
                    from + 1,
                    outcome,
                ),
            })
    } else {
        exists|attempt: Result<RuntimeGenericAttempt, Diagnostic>| #[trigger]
            call_ensures(generic, (&main, &index), attempt) && (match attempt {
                Err(error) => fails_with(outcome, error),
                Ok(RuntimeGenericAttempt::Lowered(lowered)) => outcome == Ok::<
                    Vec<LoweredStmt>,
                    Failure,
                >(lowered),
                Ok(RuntimeGenericAttempt::Fallback { .. }) => lowered_or_failure(outcome)
                    == main_lowered(ops, index@, threads, main@),
            })
    }
}

/// Tries the ways from a position on, and runs the main function where none
/// lowers it.
fn lower_or_run_from<K, G, O>(
    main: &Function,
    index: &ProgramIndex,
    kernels: &K,
    generic: &G,
    ops: &O,
    threads: usize,
    order: &Vec<Kernel>,
    from: usize,
) -> (outcome: Result<Vec<LoweredStmt>, Failure>) where
    K: Fn(Kernel, &Function) -> Result<Option<Vec<LoweredStmt>>, Diagnostic>,
    G: Fn(&Function, &ProgramIndex) -> Result<RuntimeGenericAttempt, Diagnostic>,
    O: ValueOperations,

    requires
        order@ == kernel_order(),
        from <= order@.len(),
        forall|kernel: Kernel| call_requires(*kernels, (kernel, main)),
        call_requires(*generic, (main, index)),
        are_operations(*ops),
    ensures
        lowered_or_run_from(
            *kernels,
            *generic,
            *ops,
            threads,
            *main,
            *index,
            from as int,
            outcome,
        ),
    decreases order@.len() - from,
{
    if from < order.len() {
        let attempt = kernels(order[from], main);
        match attempt {
            Err(error) => Err(Failure::of(error)),
            Ok(Some(lowered)) => Ok(lowered),
            Ok(None) => lower_or_run_from(
                main,
                index,
                kernels,
                generic,
                ops,
                threads,
                order,
                from + 1,
            ),
        }
    } else {
        let attempt = generic(main, index);
        match attempt {
            Err(error) => Err(Failure::of(error)),
            Ok(RuntimeGenericAttempt::Lowered(lowered)) => Ok(lowered),
            Ok(RuntimeGenericAttempt::Fallback { reason: _ }) => run_main(
                ops,
                index,
                threads,
                main,
            ),
        }
    }
}

/// Lowers a program of which the index is there: hands its main function to the
/// routines for the shapes of loops and to the general way, until one of them
/// lowers it or fails, and runs it on a machine where none does.
pub fn lower_indexed<K, G, O>(
    index: &ProgramIndex,
    kernels: &K,
    generic: &G,
    ops: &O,
    threads: usize,
) -> (outcome: Result<Vec<LoweredStmt>, Failure>) where
    K: Fn(Kernel, &Function) -> Result<Option<Vec<LoweredStmt>>, Diagnostic>,
    G: Fn(&Function, &ProgramIndex) -> Result<RuntimeGenericAttempt, Diagnostic>,
    O: ValueOperations,

    requires
        forall|kernel: Kernel, main: &Function| call_requires(*kernels, (kernel, main)),
        forall|main: &Function, index: &ProgramIndex| call_requires(*generic, (main, index)),
        are_operations(*ops),
    ensures
        match position_of(function_names(index@.functions), "main"@) {
            None => outcome matches Err(found) && found@ == plain(
                message_at("missing fn main()"@, 0, 0),
            ),
            Some(at) => at < index.functions@.len() && lowered_or_run_from(
                *kernels,
                *generic,
                *ops,
                threads,
                index.functions@[at],
                *index,
                0,
                outcome,
            ),
        },
{
    let name = String::from_str("main");
    let at: usize = match find_function(&index.functions, &name) {
        Some(at) => at,
        None => {
            return Err(Failure::of(Diagnostic::new("missing fn main()", 0, 0)));
        },
    };
    let order = kernels_in_order();
    lower_or_run_from(&index.functions[at], index, kernels, generic, ops, threads, &order, 0)
}

} // verus!
