//! What is said about a program that is refused.

use crate::ast::Span;
use vstd::prelude::*;

verus! {

/// A message, whether it is about types, and the place it is about.
#[derive(Debug, PartialEq, Eq)]
pub struct Diagnostic {
    pub types: bool,
    pub message: String,
    pub line: usize,
    pub column: usize,
    pub source_id: usize,
}

/// A diagnostic as a mathematical value.
#[verifier::ext_equal]
pub struct DiagnosticView {
    pub types: bool,
    pub message: Seq<char>,
    pub line: usize,
    pub column: usize,
    pub source_id: usize,
}

impl View for Diagnostic {
    type V = DiagnosticView;

    open spec fn view(&self) -> DiagnosticView {
        DiagnosticView {
            types: self.types,
            message: self.message@,
            line: self.line,
            column: self.column,
            source_id: self.source_id,
        }
    }
}

/// A message about a place of the first source.
pub open spec fn message_at(message: Seq<char>, line: usize, column: usize) -> DiagnosticView {
    DiagnosticView {
        types: false,
        message,
        line,
        column,
        source_id: 0,
    }
}

/// A message about a span.
pub open spec fn message_at_span(message: Seq<char>, span: Span) -> DiagnosticView {
    DiagnosticView {
        types: false,
        message,
        line: span.line,
        column: span.column,
        source_id: span.source_id,
    }
}

/// A message about the types at a span.
pub open spec fn type_message(message: Seq<char>, span: Span) -> DiagnosticView {
    DiagnosticView { types: true, ..message_at_span(message, span) }
}

impl Diagnostic {
    /// A message about a place of the first source.
    pub fn new(message: &str, line: usize, column: usize) -> (diagnostic: Self)
        ensures
            diagnostic@ == message_at(message@, line, column),
    {
        Diagnostic {
            types: false,
            message: message.to_string(),
            line,
            column,
            source_id: 0,
        }
    }

    /// A message about a span.
    pub fn at_span(message: String, span: Span) -> (diagnostic: Self)
        ensures
            diagnostic@ == message_at_span(message@, span),
    {
        Diagnostic {
            types: false,
            message,
            line: span.line,
            column: span.column,
            source_id: span.source_id,
        }
    }

    /// A message about the types at a span.
    pub fn type_error(message: String, span: Span) -> (diagnostic: Self)
        ensures
            diagnostic@ == type_message(message@, span),
    {
        Diagnostic {
            types: true,
            message,
            line: span.line,
            column: span.column,
            source_id: span.source_id,
        }
    }

    /// A message about the types at a span, from a fixed text.
    pub fn about_types(message: &str, span: Span) -> (diagnostic: Self)
        ensures
            diagnostic@ == type_message(message@, span),
    {
        Diagnostic::type_error(message.to_string(), span)
    }

    /// The message about the same place of another source.
    pub fn with_source(self, source_id: usize) -> (diagnostic: Self)
        ensures
            diagnostic@ == (DiagnosticView { source_id, ..self@ }),
    {
        Diagnostic {
            types: self.types,
            message: self.message,
            line: self.line,
            column: self.column,
            source_id,
        }
    }
}

} // verus!
