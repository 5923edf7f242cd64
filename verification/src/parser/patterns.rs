//! Patterns of match arms.

use crate::ast::{
    named_patterns_view, optional_text, optional_texts, MatchNamedFieldPattern, MatchPattern,
    NamedPatternView, PatternView,
};
use crate::diagnostic::{Diagnostic, DiagnosticView};
use crate::parser::cursor::{
    expect_at, ident_at, is_ahead, is_text, kind_at, span_at, stuck, Parse, Parser,
};
use crate::token::{KindView, TokenKind, TokenView};
use vstd::prelude::*;

verus! {

/// What a name in a pattern binds: nothing if it is a lone underscore.
pub open spec fn binding_of(name: Seq<char>) -> Option<Seq<char>> {
    if name == "_"@ {
        None
    } else {
        Some(name)
    }
}

/// What a name in a pattern binds.
fn bind_name(name: String) -> (binding: Option<String>)
    ensures
        optional_text(binding) == binding_of(name@),
{
    if is_text(&name, "_") {
        None
    } else {
        Some(name)
    }
}

/// The bindings of a tuple pattern from a position on, added to those before
/// them.
pub open spec fn binding_list(
    toks: Seq<TokenView>,
    pos: int,
    before: Seq<Option<Seq<char>>>,
) -> Parse<Seq<Option<Seq<char>>>>
    decreases toks.len() - pos,
{
    match ident_at(toks, pos, "expected binding or '_' in tuple pattern"@) {
        Ok((name, end)) => {
            let bindings = before.push(binding_of(name));
            if kind_at(toks, end) != KindView::Comma {
                Ok((bindings, end))
            } else if kind_at(toks, end + 1) == KindView::RParen {
                Ok((bindings, end + 1))
            } else if is_ahead(toks, pos, end + 1) {
                binding_list(toks, end + 1, bindings)
            } else {
                stuck(toks, pos)
            }
        },
        Err(error) => Err(error),
    }
}

/// The bindings of a tuple pattern behind its parenthesis.
pub open spec fn bindings_at(toks: Seq<TokenView>, pos: int) -> Parse<Seq<Option<Seq<char>>>> {
    if kind_at(toks, pos) == KindView::RParen {
        Ok((Seq::empty(), pos))
    } else {
        binding_list(toks, pos, Seq::empty())
    }
}

/// One field of a named pattern: with a name to bind, or bound to its own name.
pub open spec fn named_pattern_at(toks: Seq<TokenView>, pos: int) -> Parse<NamedPatternView> {
    match ident_at(toks, pos, "expected field name in named pattern"@) {
        Ok((name, after)) => if kind_at(toks, after) == KindView::Colon {
            match ident_at(toks, after + 1, "expected binding or '_' after pattern field"@) {
                Ok((binding, end)) => Ok(
                    (
                        NamedPatternView {
                            name,
                            binding: binding_of(binding),
                            span: span_at(toks, pos),
                        },
                        end,
                    ),
                ),
                Err(error) => Err(error),
            }
        } else {
            Ok(
                (
                    NamedPatternView { name, binding: Some(name), span: span_at(toks, pos) },
                    after,
                ),
            )
        },
        Err(error) => Err(error),
    }
}

/// The fields of a named pattern from a position on, added to those before
/// them.
pub open spec fn named_pattern_list(
    toks: Seq<TokenView>,
    pos: int,
    before: Seq<NamedPatternView>,
) -> Parse<Seq<NamedPatternView>>
    decreases toks.len() - pos,
{
    match named_pattern_at(toks, pos) {
        Ok((field, end)) => if kind_at(toks, end) != KindView::Comma {
            Ok((before.push(field), end))
        } else if kind_at(toks, end + 1) == KindView::RBrace {
            Ok((before.push(field), end + 1))
        } else if is_ahead(toks, pos, end + 1) {
            named_pattern_list(toks, end + 1, before.push(field))
        } else {
            stuck(toks, pos)
        },
        Err(error) => Err(error),
    }
}

/// The fields of a named pattern behind its brace.
pub open spec fn named_patterns_at(toks: Seq<TokenView>, pos: int) -> Parse<Seq<NamedPatternView>> {
    if kind_at(toks, pos) == KindView::RBrace {
        Ok((Seq::empty(), pos))
    } else {
        named_pattern_list(toks, pos, Seq::empty())
    }
}

/// A pattern from a position on.
pub open spec fn pattern_at(toks: Seq<TokenView>, pos: int) -> Parse<PatternView> {
    let span = span_at(toks, pos);
    match ident_at(toks, pos, "expected enum pattern or '_'"@) {
        Ok((enum_name, p1)) => if enum_name == "_"@ {
            Ok((PatternView::Wildcard { span }, p1))
        } else {
            match expect_at(toks, p1, KindView::ColonColon, "expected '::' in enum pattern"@) {
                Ok((_, p2)) => match ident_at(
                    toks,
                    p2,
                    "expected variant name in enum pattern"@,
                ) {
                    Ok((variant, p3)) => if kind_at(toks, p3) == KindView::LParen {
                        match bindings_at(toks, p3 + 1) {
                            Ok((bindings, p4)) => match expect_at(
                                toks,
                                p4,
                                KindView::RParen,
                                "expected ')' after tuple pattern"@,
                            ) {
                                Ok((_, p5)) => Ok(
                                    (
                                        PatternView::EnumTuple {
                                            enum_name,
                                            variant,
                                            bindings,
                                            span,
                                        },
                                        p5,
                                    ),
                                ),
                                Err(error) => Err(error),
                            },
                            Err(error) => Err(error),
                        }
                    } else if kind_at(toks, p3) == KindView::LBrace {
                        match named_patterns_at(toks, p3 + 1) {
                            Ok((fields, p4)) => match expect_at(
                                toks,
                                p4,
                                KindView::RBrace,
                                "expected '}' after named pattern"@,
                            ) {
                                Ok((_, p5)) => Ok(
                                    (
                                        PatternView::EnumNamed {
                                            enum_name,
                                            variant,
                                            fields,
                                            span,
                                        },
                                        p5,
                                    ),
                                ),
                                Err(error) => Err(error),
                            },
                            Err(error) => Err(error),
                        }
                    } else {
                        Ok((PatternView::EnumUnit { enum_name, variant, span }, p3))
                    },
                    Err(error) => Err(error),
                },
                Err(error) => Err(error),
            }
        },
        Err(error) => Err(error),
    }
}

impl<'a> Parser<'a> {
    /// Parses the bindings of a tuple pattern.
    fn parse_bindings(&mut self) -> (result: Result<Vec<Option<String>>, Diagnostic>)
        requires
            old(self).well_formed(),
        ensures
            match result {
                Ok(bindings) => final(self).well_formed() && final(self).tokens == old(self).tokens
                    && final(self).pos >= old(self).pos
                    && bindings_at(old(self).toks(), old(self).pos as int) == Ok::<
                    (Seq<Option<Seq<char>>>, int),
                    DiagnosticView,
                >((optional_texts(bindings@), final(self).pos as int)),
                Err(error) => bindings_at(old(self).toks(), old(self).pos as int) == Err::<
                    (Seq<Option<Seq<char>>>, int),
                    DiagnosticView,
                >(error@),
            },
    {
        let ghost toks = self.toks();
        let ghost goal = bindings_at(toks, self.pos as int);
        let mut bindings: Vec<Option<String>> = Vec::new();
        let mut more = !self.matches(TokenKind::RParen);
        assert(optional_texts(bindings@) =~= Seq::empty());
        while more
            invariant
                self.well_formed(),
                self.tokens == old(self).tokens,
                toks == self.toks(),
                self.pos >= old(self).pos,
                goal == bindings_at(toks, old(self).pos as int),
                more ==> binding_list(toks, self.pos as int, optional_texts(bindings@)) == goal,
                !more ==> goal == Ok::<(Seq<Option<Seq<char>>>, int), DiagnosticView>(
                    (optional_texts(bindings@), self.pos as int),
                ),
            decreases self.tokens@.len() - self.pos + (if more { 1int } else { 0int }),
        {
            let ghost before = optional_texts(bindings@);
            let name = self.expect_ident("expected binding or '_' in tuple pattern")?;
            let ghost added = binding_of(name@);
            bindings.push(bind_name(name));
            assert(optional_texts(bindings@) =~= before.push(added));
            more = self.matches(TokenKind::Comma);
            if more {
                self.advance();
                more = !self.matches(TokenKind::RParen);
            }
        }
        Ok(bindings)
    }

    /// Parses one field of a named pattern.
    fn parse_named_pattern(&mut self) -> (result: Result<MatchNamedFieldPattern, Diagnostic>)
        requires
            old(self).well_formed(),
        ensures
            match result {
                Ok(field) => final(self).follows(old(self))
                    && named_pattern_at(old(self).toks(), old(self).pos as int) == Ok::<
                    (NamedPatternView, int),
                    DiagnosticView,
                >((field@, final(self).pos as int)),
                Err(error) => named_pattern_at(
                    old(self).toks(),
                    old(self).pos as int,
                ) == Err::<(NamedPatternView, int), DiagnosticView>(error@),
            },
    {
        let span = self.peek_span();
        let name = self.expect_ident("expected field name in named pattern")?;
        let binding = if self.matches(TokenKind::Colon) {
            self.advance();
            let binding = self.expect_ident("expected binding or '_' after pattern field")?;
            bind_name(binding)
        } else {
            Some(name.clone())
        };
        Ok(MatchNamedFieldPattern { name, binding, span })
    }

    /// Parses the fields of a named pattern.
    fn parse_named_patterns(&mut self) -> (result: Result<Vec<MatchNamedFieldPattern>, Diagnostic>)
        requires
            old(self).well_formed(),
        ensures
            match result {
                Ok(fields) => final(self).well_formed() && final(self).tokens == old(self).tokens
                    && final(self).pos >= old(self).pos
                    && named_patterns_at(old(self).toks(), old(self).pos as int) == Ok::<
                    (Seq<NamedPatternView>, int),
                    DiagnosticView,
                >((named_patterns_view(fields@), final(self).pos as int)),
                Err(error) => named_patterns_at(old(self).toks(), old(self).pos as int) == Err::<
                    (Seq<NamedPatternView>, int),
                    DiagnosticView,
                >(error@),
            },
    {
        let ghost toks = self.toks();
        let ghost goal = named_patterns_at(toks, self.pos as int);
        let mut fields: Vec<MatchNamedFieldPattern> = Vec::new();
        let mut more = !self.matches(TokenKind::RBrace);
        assert(named_patterns_view(fields@) =~= Seq::empty());
        while more
            invariant
                self.well_formed(),
                self.tokens == old(self).tokens,
                toks == self.toks(),
                self.pos >= old(self).pos,
                goal == named_patterns_at(toks, old(self).pos as int),
                more ==> named_pattern_list(toks, self.pos as int, named_patterns_view(fields@))
                    == goal,
                !more ==> goal == Ok::<(Seq<NamedPatternView>, int), DiagnosticView>(
                    (named_patterns_view(fields@), self.pos as int),
                ),
            decreases self.tokens@.len() - self.pos + (if more { 1int } else { 0int }),
        {
            let ghost before = named_patterns_view(fields@);
            let field = self.parse_named_pattern()?;
            let ghost added = field@;
            fields.push(field);
            assert(named_patterns_view(fields@) =~= before.push(added));
            more = self.matches(TokenKind::Comma);
            if more {
                self.advance();
                more = !self.matches(TokenKind::RBrace);
            }
        }
        Ok(fields)
    }

    /// Parses a pattern.
    pub fn parse_match_pattern(&mut self) -> (result: Result<MatchPattern, Diagnostic>)
        requires
            old(self).well_formed(),
        ensures
            match result {
                Ok(pattern) => final(self).follows(old(self))
                    && pattern_at(old(self).toks(), old(self).pos as int) == Ok::<
                    (PatternView, int),
                    DiagnosticView,
                >((pattern@, final(self).pos as int)),
                Err(error) => pattern_at(
                    old(self).toks(),
                    old(self).pos as int,
                ) == Err::<(PatternView, int), DiagnosticView>(error@),
            },
    {
        let span = self.peek_span();
        let enum_name = self.expect_ident("expected enum pattern or '_'")?;
        if is_text(&enum_name, "_") {
            return Ok(MatchPattern::Wildcard { span });
        }
        self.expect(TokenKind::ColonColon, "expected '::' in enum pattern")?;
        let variant = self.expect_ident("expected variant name in enum pattern")?;
        if self.matches(TokenKind::LParen) {
            self.advance();
            let bindings = self.parse_bindings()?;
            self.expect(TokenKind::RParen, "expected ')' after tuple pattern")?;
            return Ok(MatchPattern::EnumTuple { enum_name, variant, bindings, span });
        }
        if self.matches(TokenKind::LBrace) {
            self.advance();
            let fields = self.parse_named_patterns()?;
            self.expect(TokenKind::RBrace, "expected '}' after named pattern")?;
            return Ok(MatchPattern::EnumNamed { enum_name, variant, fields, span });
        }
        Ok(MatchPattern::EnumUnit { enum_name, variant, span })
    }
}

} // verus!
