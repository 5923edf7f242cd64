//! The parser's place among its tokens, and the steps that look at one token.

use crate::ast::Span;
use crate::diagnostic::{message_at, Diagnostic, DiagnosticView};
use crate::token::{is_plain, same_kind, tokens_view, KindView, Token, TokenKind, TokenView};
use vstd::prelude::*;

verus! {

/// What parsing from a position gives: a node and the position behind it, or
/// the reason why there is none.
pub type Parse<T> = Result<(T, int), DiagnosticView>;

/// The token at a position; behind the end, the last token.
pub open spec fn token_at(toks: Seq<TokenView>, pos: int) -> TokenView {
    if 0 <= pos < toks.len() {
        toks[pos]
    } else {
        toks.last()
    }
}

/// The kind of token at a position.
pub open spec fn kind_at(toks: Seq<TokenView>, pos: int) -> KindView {
    token_at(toks, pos).kind
}

/// The place of the token at a position.
pub open spec fn span_at(toks: Seq<TokenView>, pos: int) -> Span {
    let token = token_at(toks, pos);
    Span { line: token.line, column: token.column, source_id: token.source_id }
}

/// A message about the token at a position.
pub open spec fn error_at(toks: Seq<TokenView>, pos: int, message: Seq<char>) -> DiagnosticView {
    message_at(message, token_at(toks, pos).line, token_at(toks, pos).column)
}

/// The position behind a token.
pub open spec fn past(toks: Seq<TokenView>, pos: int) -> int {
    if pos < toks.len() {
        pos + 1
    } else {
        pos
    }
}

/// The second position is behind the first and not behind the end.
pub open spec fn is_ahead(toks: Seq<TokenView>, from: int, pos: int) -> bool {
    from < pos <= toks.len()
}

/// What a definition says where a step does not move on. No step does that.
pub open spec fn stuck<T>(toks: Seq<TokenView>, pos: int) -> Parse<T> {
    Err(error_at(toks, pos, Seq::empty()))
}

/// A token that must be there.
pub open spec fn expect_at(
    toks: Seq<TokenView>,
    pos: int,
    kind: KindView,
    message: Seq<char>,
) -> Parse<()> {
    if kind_at(toks, pos) == kind {
        Ok(((), pos + 1))
    } else {
        Err(error_at(toks, pos, message))
    }
}

/// An identifier that must be there.
pub open spec fn ident_at(toks: Seq<TokenView>, pos: int, message: Seq<char>) -> Parse<Seq<char>> {
    match kind_at(toks, pos) {
        KindView::Ident(name) => Ok((name, pos + 1)),
        _ => Err(error_at(toks, pos, message)),
    }
}

/// A number that must be there.
pub open spec fn number_at(toks: Seq<TokenView>, pos: int, message: Seq<char>) -> Parse<Seq<char>> {
    match kind_at(toks, pos) {
        KindView::Number(literal) => Ok((literal, pos + 1)),
        _ => Err(error_at(toks, pos, message)),
    }
}

/// A certain identifier that must be there.
pub open spec fn ident_text_at(
    toks: Seq<TokenView>,
    pos: int,
    text: Seq<char>,
    message: Seq<char>,
) -> Parse<()> {
    if kind_at(toks, pos) == KindView::Ident(text) {
        Ok(((), pos + 1))
    } else {
        Err(error_at(toks, pos, message))
    }
}

/// A semicolon or comma that must be there.
pub open spec fn separator_at(toks: Seq<TokenView>, pos: int, message: Seq<char>) -> Parse<()> {
    if kind_at(toks, pos) == KindView::Semicolon || kind_at(toks, pos) == KindView::Comma {
        Ok(((), pos + 1))
    } else {
        Err(error_at(toks, pos, message))
    }
}

/// A struct literal seems to follow: braces that are empty or start with a
/// field.
pub open spec fn starts_struct_init(toks: Seq<TokenView>, pos: int) -> bool {
    &&& kind_at(toks, pos) == KindView::LBrace
    &&& match kind_at(toks, pos + 1) {
        KindView::RBrace => true,
        KindView::Ident(_) => kind_at(toks, pos + 2) == KindView::Colon,
        _ => false,
    }
}

/// Whether a text is a certain one.
pub fn is_text(text: &String, expected: &str) -> (same: bool)
    ensures
        same == (text@ == expected@),
{
    *text == expected.to_string()
}

/// A parser: the tokens, and how far they are read.
pub struct Parser<'a> {
    pub tokens: &'a [Token],
    pub pos: usize,
}

impl<'a> Parser<'a> {
    /// The tokens as mathematical values.
    pub open spec fn toks(&self) -> Seq<TokenView> {
        tokens_view(self.tokens@)
    }

    /// There are tokens, the last one marks the end, and the position is among
    /// them or behind them.
    pub open spec fn well_formed(&self) -> bool {
        &&& self.tokens@.len() > 0
        &&& self.toks().last().kind == KindView::Eof
        &&& self.pos <= self.tokens@.len()
    }

    /// The parser has read on in the same tokens.
    pub open spec fn follows(&self, before: &Self) -> bool {
        &&& self.well_formed()
        &&& self.tokens == before.tokens
        &&& self.pos > before.pos
    }

    /// A parser at the first token.
    pub fn new(tokens: &'a [Token]) -> (parser: Self)
        ensures
            parser.tokens == tokens,
            parser.pos == 0,
    {
        Parser { tokens, pos: 0 }
    }

    /// The token at the position.
    pub fn peek(&self) -> (token: &Token)
        requires
            self.well_formed(),
        ensures
            token@ == token_at(self.toks(), self.pos as int),
    {
        if self.pos < self.tokens.len() {
            &self.tokens[self.pos]
        } else {
            &self.tokens[self.tokens.len() - 1]
        }
    }

    /// The token n behind the position.
    pub fn peek_n(&self, n: usize) -> (token: &Token)
        requires
            self.well_formed(),
        ensures
            token@ == token_at(self.toks(), self.pos + n),
    {
        if n < self.tokens.len() - self.pos {
            &self.tokens[self.pos + n]
        } else {
            &self.tokens[self.tokens.len() - 1]
        }
    }

    /// Whether the token at the position is of a kind.
    pub fn matches(&self, kind: TokenKind) -> (found: bool)
        requires
            self.well_formed(),
            is_plain(kind@),
        ensures
            found == (kind_at(self.toks(), self.pos as int) == kind@),
            found && kind@ != KindView::Eof ==> self.pos < self.tokens@.len(),
    {
        same_kind(&self.peek().kind, &kind)
    }

    /// Whether the token at the position is an identifier.
    pub fn matches_ident(&self) -> (found: bool)
        requires
            self.well_formed(),
        ensures
            found == (kind_at(self.toks(), self.pos as int) is Ident),
    {
        match &self.peek().kind {
            TokenKind::Ident(_) => true,
            _ => false,
        }
    }

    /// Whether the token at the position is a certain identifier.
    pub fn matches_ident_text(&self, expected: &str) -> (found: bool)
        requires
            self.well_formed(),
        ensures
            found == (kind_at(self.toks(), self.pos as int) == KindView::Ident(expected@)),
    {
        match &self.peek().kind {
            TokenKind::Ident(value) => is_text(value, expected),
            _ => false,
        }
    }

    /// The place of the token at the position.
    pub fn peek_span(&self) -> (span: Span)
        requires
            self.well_formed(),
        ensures
            span == span_at(self.toks(), self.pos as int),
    {
        let token = self.peek();
        Span::in_source(token.line, token.column, token.source_id)
    }

    /// Moves behind the token at the position.
    pub fn advance(&mut self)
        requires
            old(self).well_formed(),
        ensures
            final(self).well_formed(),
            final(self).tokens == old(self).tokens,
            final(self).pos == past(old(self).toks(), old(self).pos as int),
    {
        if self.pos < self.tokens.len() {
            self.pos = self.pos + 1;
        }
    }

    /// Moves behind the token at the position and gives its place.
    pub fn advance_with_span(&mut self) -> (span: Span)
        requires
            old(self).well_formed(),
        ensures
            span == span_at(old(self).toks(), old(self).pos as int),
            final(self).well_formed(),
            final(self).tokens == old(self).tokens,
            final(self).pos == past(old(self).toks(), old(self).pos as int),
    {
        let span = self.peek_span();
        self.advance();
        span
    }

    /// A message about the token at the position.
    pub fn error_here(&self, message: &str) -> (diagnostic: Diagnostic)
        requires
            self.well_formed(),
        ensures
            diagnostic@ == error_at(self.toks(), self.pos as int, message@),
    {
        let token = self.peek();
        Diagnostic::new(message, token.line, token.column)
    }

    /// Moves behind a token that must be there.
    pub fn expect(&mut self, kind: TokenKind, message: &str) -> (result: Result<(), Diagnostic>)
        requires
            old(self).well_formed(),
            is_plain(kind@),
            kind@ != KindView::Eof,
        ensures
            match result {
                Ok(()) => final(self).follows(old(self)) && expect_at(
                    old(self).toks(),
                    old(self).pos as int,
                    kind@,
                    message@,
                ) == Ok::<((), int), DiagnosticView>(((), final(self).pos as int)),
                Err(error) => expect_at(
                    old(self).toks(),
                    old(self).pos as int,
                    kind@,
                    message@,
                ) == Err::<((), int), DiagnosticView>(error@),
            },
    {
        if self.matches(kind) {
            self.advance();
            Ok(())
        } else {
            Err(self.error_here(message))
        }
    }

    /// Moves behind an identifier that must be there.
    pub fn expect_ident(&mut self, message: &str) -> (result: Result<String, Diagnostic>)
        requires
            old(self).well_formed(),
        ensures
            match result {
                Ok(name) => final(self).follows(old(self)) && ident_at(
                    old(self).toks(),
                    old(self).pos as int,
                    message@,
                ) == Ok::<(Seq<char>, int), DiagnosticView>((name@, final(self).pos as int)),
                Err(error) => ident_at(old(self).toks(), old(self).pos as int, message@)
                    == Err::<(Seq<char>, int), DiagnosticView>(error@),
            },
    {
        let name = match &self.peek().kind {
            TokenKind::Ident(name) => Some(name.clone()),
            _ => None,
        };
        match name {
            Some(name) => {
                self.advance();
                Ok(name)
            },
            None => Err(self.error_here(message)),
        }
    }

    /// Moves behind a number that must be there.
    pub fn expect_number(&mut self, message: &str) -> (result: Result<String, Diagnostic>)
        requires
            old(self).well_formed(),
        ensures
            match result {
                Ok(literal) => final(self).follows(old(self)) && number_at(
                    old(self).toks(),
                    old(self).pos as int,
                    message@,
                ) == Ok::<(Seq<char>, int), DiagnosticView>((literal@, final(self).pos as int)),
                Err(error) => number_at(old(self).toks(), old(self).pos as int, message@)
                    == Err::<(Seq<char>, int), DiagnosticView>(error@),
            },
    {
        let literal = match &self.peek().kind {
            TokenKind::Number(literal) => Some(literal.clone()),
            _ => None,
        };
        match literal {
            Some(literal) => {
                self.advance();
                Ok(literal)
            },
            None => Err(self.error_here(message)),
        }
    }

    /// Moves behind a certain identifier that must be there.
    pub fn expect_ident_text(
        &mut self,
        expected: &str,
        message: &str,
    ) -> (result: Result<(), Diagnostic>)
        requires
            old(self).well_formed(),
        ensures
            match result {
                Ok(()) => final(self).follows(old(self)) && ident_text_at(
                    old(self).toks(),
                    old(self).pos as int,
                    expected@,
                    message@,
                ) == Ok::<((), int), DiagnosticView>(((), final(self).pos as int)),
                Err(error) => ident_text_at(
                    old(self).toks(),
                    old(self).pos as int,
                    expected@,
                    message@,
                ) == Err::<((), int), DiagnosticView>(error@),
            },
    {
        if self.matches_ident_text(expected) {
            self.advance();
            Ok(())
        } else {
            Err(self.error_here(message))
        }
    }

    /// Moves behind a semicolon or comma that must be there.
    pub fn expect_struct_member_sep(&mut self, message: &str) -> (result: Result<(), Diagnostic>)
        requires
            old(self).well_formed(),
        ensures
            match result {
                Ok(()) => final(self).follows(old(self)) && separator_at(
                    old(self).toks(),
                    old(self).pos as int,
                    message@,
                ) == Ok::<((), int), DiagnosticView>(((), final(self).pos as int)),
                Err(error) => separator_at(old(self).toks(), old(self).pos as int, message@)
                    == Err::<((), int), DiagnosticView>(error@),
            },
    {
        if self.matches(TokenKind::Semicolon) || self.matches(TokenKind::Comma) {
            self.advance();
            Ok(())
        } else {
            Err(self.error_here(message))
        }
    }

    /// Whether a struct literal seems to follow.
    pub fn looks_like_struct_init(&self) -> (found: bool)
        requires
            self.well_formed(),
        ensures
            found == starts_struct_init(self.toks(), self.pos as int),
    {
        if !self.matches(TokenKind::LBrace) {
            return false;
        }
        match &self.peek_n(1).kind {
            TokenKind::RBrace => true,
            TokenKind::Ident(_) => same_kind(&self.peek_n(2).kind, &TokenKind::Colon),
            _ => false,
        }
    }
}

} // verus!
