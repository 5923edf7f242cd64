//! Where a run of a program stands, and how it fails.

use crate::diagnostic::{Diagnostic, DiagnosticView};
use crate::ir::{stmts_view, LoweredStmt, StmtView};
use crate::semantics::environment::{BindingView, Env};
use vstd::prelude::*;

verus! {

/// What the names of each scope stand for.
pub type Scopes = Seq<Map<Seq<char>, BindingView>>;

/// An error, and where it came up.
#[derive(Debug, PartialEq, Eq)]
pub struct Failure {
    pub error: Diagnostic,
    pub notes: Vec<String>,
}

/// An error, and where it came up, as a mathematical value.
#[verifier::ext_equal]
pub struct FailureView {
    pub error: DiagnosticView,
    pub notes: Seq<Seq<char>>,
}

/// Notes as mathematical values.
pub open spec fn notes_view(notes: Seq<String>) -> Seq<Seq<char>> {
    Seq::new(notes.len(), |i: int| notes[i]@)
}

impl View for Failure {
    type V = FailureView;

    open spec fn view(&self) -> FailureView {
        FailureView { error: self.error@, notes: notes_view(self.notes@) }
    }
}

/// An error of which nothing is said yet.
pub open spec fn plain(error: DiagnosticView) -> FailureView {
    FailureView { error, notes: Seq::empty() }
}

/// A failure with one note more.
pub open spec fn noted(failure: FailureView, note: Seq<char>) -> FailureView {
    FailureView { error: failure.error, notes: failure.notes.push(note) }
}

impl Failure {
    /// An error of which nothing is said yet.
    pub fn of(error: Diagnostic) -> (failure: Self)
        ensures
            failure@ == plain(error@),
    {
        let failure = Failure { error, notes: Vec::new() };
        assert(failure@.notes =~= Seq::empty());
        failure
    }

    /// The failure with one note more.
    pub fn noted(self, note: String) -> (failure: Self)
        ensures
            failure@ == noted(self@, note@),
    {
        let ghost before = self@.notes;
        let mut notes = self.notes;
        notes.push(note);
        assert(notes_view(notes@) =~= before.push(note@));
        Failure { error: self.error, notes }
    }
}

/// Where a run stands: the names that it knows, how deep it is, and what the
/// program lowers to so far.
#[derive(Debug, PartialEq, Eq)]
pub struct State {
    pub env: Env,
    pub loop_depth: usize,
    pub lowered: Vec<LoweredStmt>,
}

/// Where a run stands as a mathematical value.
#[verifier::ext_equal]
pub struct StateView {
    pub env: Scopes,
    pub loop_depth: usize,
    pub lowered: Seq<StmtView>,
}

impl View for State {
    type V = StateView;

    open spec fn view(&self) -> StateView {
        StateView {
            env: self.env@,
            loop_depth: self.loop_depth,
            lowered: stmts_view(self.lowered@),
        }
    }
}

/// The start of a run with names.
pub open spec fn start_with(env: Scopes) -> StateView {
    StateView { env, loop_depth: 0, lowered: Seq::empty() }
}

impl State {
    /// The start of a run with names.
    pub fn start(env: Env) -> (state: Self)
        ensures
            state@ == start_with(env@),
    {
        let state = State { env, loop_depth: 0, lowered: Vec::new() };
        assert(state@.lowered =~= Seq::empty());
        state
    }
}

} // verus!
