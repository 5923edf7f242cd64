//! Types.

use crate::ast::{types_view, TypeName, TypeView};
use crate::diagnostic::{message_at, Diagnostic, DiagnosticView};
use crate::parser::cursor::{
    error_at, expect_at, ident_at, is_ahead, is_text, kind_at, number_at, stuck, Parse, Parser,
};
use crate::token::{KindView, TokenKind, TokenView};
use vstd::prelude::*;

verus! {

/// A decimal digit.
pub open spec fn is_digit(ch: char) -> bool {
    '0' <= ch <= '9'
}

/// How many digits a text starts with.
pub open spec fn digit_count(text: Seq<char>) -> nat
    decreases text.len(),
{
    if text.len() > 0 && is_digit(text[0]) {
        1 + digit_count(text.skip(1))
    } else {
        0
    }
}

/// The number that the first n characters, digits all, stand for.
pub open spec fn digits_value(text: Seq<char>, n: nat) -> nat
    decreases n,
{
    if n == 0 {
        0
    } else {
        digits_value(text, (n - 1) as nat) * 10 + (text[n - 1] as nat - '0' as nat) as nat
    }
}

/// The array length that a literal starts with.
pub open spec fn array_len(literal: Seq<char>) -> Result<u64, DiagnosticView> {
    let digits = digit_count(literal);
    if digits == 0 {
        Err(message_at("array length must be integer"@, 0, 0))
    } else if digits_value(literal, digits) > u64::MAX {
        Err(message_at("array length out of range"@, 0, 0))
    } else {
        Ok(digits_value(literal, digits) as u64)
    }
}

/// Where the digits at the start of a text end.
pub proof fn lemma_digit_count(text: Seq<char>, n: nat)
    requires
        n <= text.len(),
        forall|i: int| 0 <= i < n ==> is_digit(#[trigger] text[i]),
        n < text.len() ==> !is_digit(text[n as int]),
    ensures
        digit_count(text) == n,
    decreases n,
{
    if n > 0 {
        assert(is_digit(text[0]));
        let rest = text.skip(1);
        assert forall|i: int| 0 <= i < n - 1 implies is_digit(#[trigger] rest[i]) by {
            assert(rest[i] == text[i + 1]);
        }
        lemma_digit_count(rest, (n - 1) as nat);
    }
}

/// The array length that a literal starts with.
pub fn parse_array_len(literal: &str) -> (result: Result<u64, Diagnostic>)
    ensures
        match result {
            Ok(len) => array_len(literal@) == Ok::<u64, DiagnosticView>(len),
            Err(error) => array_len(literal@) == Err::<u64, DiagnosticView>(error@),
        },
{
    let count: usize = literal.unicode_len();
    let mut n: usize = 0;
    let mut value: Option<u64> = Some(0);
    let mut more = true;
    while more && n < count
        invariant
            n <= count,
            count == literal@.len(),
            forall|i: int| 0 <= i < n ==> is_digit(#[trigger] literal@[i]),
            match value {
                Some(value) => value == digits_value(literal@, n as nat),
                None => digits_value(literal@, n as nat) > u64::MAX,
            },
            !more ==> n < count && !is_digit(literal@[n as int]),
        decreases count - n + (if more { 1int } else { 0int }),
    {
        let ch: char = literal.get_char(n);
        if ch >= '0' && ch <= '9' {
            let digit: u64 = (ch as u32 - '0' as u32) as u64;
            value = match value {
                Some(value) => match value.checked_mul(10) {
                    Some(tens) => tens.checked_add(digit),
                    None => None,
                },
                None => None,
            };
            n = n + 1;
        } else {
            more = false;
        }
    }
    proof {
        lemma_digit_count(literal@, n as nat);
    }
    if n == 0 {
        return Err(Diagnostic::new("array length must be integer", 0, 0));
    }
    match value {
        Some(value) => Ok(value),
        None => Err(Diagnostic::new("array length out of range", 0, 0)),
    }
}

/// The type that a plain name stands for: a built-in one, or else a nominal
/// one.
#[verifier::opaque]
pub open spec fn named_type(name: Seq<char>) -> TypeView {
    if name == "string"@ {
        TypeView::String
    } else if name == "Path"@ {
        TypeView::Path
    } else if name == "File"@ {
        TypeView::File
    } else if name == "Thread"@ {
        TypeView::Thread
    } else if name == "byte"@ {
        TypeView::Byte
    } else if name == "char"@ {
        TypeView::Char
    } else if name == "bool"@ {
        TypeView::Bool
    } else if name == "u8"@ {
        TypeView::Int { signed: false, bits: 8 }
    } else if name == "u16"@ {
        TypeView::Int { signed: false, bits: 16 }
    } else if name == "u32"@ {
        TypeView::Int { signed: false, bits: 32 }
    } else if name == "u64"@ {
        TypeView::Int { signed: false, bits: 64 }
    } else if name == "u128"@ {
        TypeView::Int { signed: false, bits: 128 }
    } else if name == "i8"@ {
        TypeView::Int { signed: true, bits: 8 }
    } else if name == "i16"@ {
        TypeView::Int { signed: true, bits: 16 }
    } else if name == "i32"@ {
        TypeView::Int { signed: true, bits: 32 }
    } else if name == "i64"@ {
        TypeView::Int { signed: true, bits: 64 }
    } else if name == "i128"@ {
        TypeView::Int { signed: true, bits: 128 }
    } else if name == "usize"@ {
        TypeView::Int { signed: false, bits: 64 }
    } else if name == "isize"@ {
        TypeView::Int { signed: true, bits: 64 }
    } else if name == "f32"@ {
        TypeView::Float { bits: 32 }
    } else if name == "f64"@ {
        TypeView::Float { bits: 64 }
    } else {
        TypeView::Struct(name)
    }
}

/// A type from a position on: a reference, an array, a container, a named type
/// or a named type with arguments.
pub open spec fn type_at(toks: Seq<TokenView>, pos: int) -> Parse<TypeView>
    decreases toks.len() - pos, 2nat,
{
    if kind_at(toks, pos) == KindView::Ampersand {
        let mutable = kind_at(toks, pos + 1) == KindView::Mut;
        let start = if mutable {
            pos + 2
        } else {
            pos + 1
        };
        match type_after(toks, pos, start) {
            Ok((inner, p1)) => Ok((TypeView::Ref { mutable, inner: Box::new(inner) }, p1)),
            Err(error) => Err(error),
        }
    } else if kind_at(toks, pos) == KindView::LBracket {
        match type_after(toks, pos, pos + 1) {
            Ok(
                (elem, p1),
            ) => match expect_at(toks, p1, KindView::Semicolon, "expected ';' in array type"@) {
                Ok((_, p2)) => match number_at(toks, p2, "expected array length"@) {
                    Ok((literal, p3)) => match expect_at(
                        toks,
                        p3,
                        KindView::RBracket,
                        "expected ']' after array type"@,
                    ) {
                        Ok((_, p4)) => match array_len(literal) {
                            Ok(len) => Ok((TypeView::Array { elem: Box::new(elem), len }, p4)),
                            Err(error) => Err(error),
                        },
                        Err(error) => Err(error),
                    },
                    Err(error) => Err(error),
                },
                Err(error) => Err(error),
            },
            Err(error) => Err(error),
        }
    } else {
        match ident_at(toks, pos, "expected type name"@) {
            Ok((name, after)) => if name == "dict"@ {
                match type_pair_after(
                    toks,
                    pos,
                    after,
                    "expected '<' in dict type"@,
                    "expected ',' in dict type"@,
                    "expected '>' in dict type"@,
                ) {
                    Ok(((key, value), p1)) => Ok(
                        (TypeView::Dict { key: Box::new(key), value: Box::new(value) }, p1),
                    ),
                    Err(error) => Err(error),
                }
            } else if name == "list"@ {
                match expect_at(toks, after, KindView::Less, "expected '<' in list type"@) {
                    Ok((_, p1)) => match type_after(toks, pos, p1) {
                        Ok((elem, p2)) => match expect_at(
                            toks,
                            p2,
                            KindView::Greater,
                            "expected '>' in list type"@,
                        ) {
                            Ok((_, p3)) => Ok((TypeView::List { elem: Box::new(elem) }, p3)),
                            Err(error) => Err(error),
                        },
                        Err(error) => Err(error),
                    },
                    Err(error) => Err(error),
                }
            } else if name == "map"@ {
                match type_pair_after(
                    toks,
                    pos,
                    after,
                    "expected '<' in map type"@,
                    "expected ',' in map type"@,
                    "expected '>' in map type"@,
                ) {
                    Ok(((key, value), p1)) => Ok(
                        (TypeView::Mapping { key: Box::new(key), value: Box::new(value) }, p1),
                    ),
                    Err(error) => Err(error),
                }
            } else if kind_at(toks, after) == KindView::Less {
                if !(named_type(name) is Struct) {
                    Err(error_at(toks, after, "only nominal types accept generic arguments"@))
                } else if kind_at(toks, after + 1) == KindView::Greater {
                    Err(error_at(toks, after + 1, "generic type requires at least one argument"@))
                } else {
                    match type_list_after(toks, pos, after + 1) {
                        Ok((args, p1)) => match expect_at(
                            toks,
                            p1,
                            KindView::Greater,
                            "expected '>' after generic type arguments"@,
                        ) {
                            Ok((_, p2)) => Ok((TypeView::Applied { name, args }, p2)),
                            Err(error) => Err(error),
                        },
                        Err(error) => Err(error),
                    }
                }
            } else {
                Ok((named_type(name), after))
            },
            Err(error) => Err(error),
        }
    }
}

/// Two types between angle brackets, from a position on, with what is said where
/// a bracket or the comma is not there.
pub open spec fn type_pair_after(
    toks: Seq<TokenView>,
    from: int,
    pos: int,
    open: Seq<char>,
    comma: Seq<char>,
    close: Seq<char>,
) -> Parse<(TypeView, TypeView)>
    decreases toks.len() - from, 1nat,
{
    match expect_at(toks, pos, KindView::Less, open) {
        Ok((_, p1)) => match type_after(toks, from, p1) {
            Ok((key, p2)) => match expect_at(toks, p2, KindView::Comma, comma) {
                Ok((_, p3)) => match type_after(toks, from, p3) {
                    Ok((value, p4)) => match expect_at(toks, p4, KindView::Greater, close) {
                        Ok((_, p5)) => Ok(((key, value), p5)),
                        Err(error) => Err(error),
                    },
                    Err(error) => Err(error),
                },
                Err(error) => Err(error),
            },
            Err(error) => Err(error),
        },
        Err(error) => Err(error),
    }
}

/// A type from a position behind another on.
pub open spec fn type_after(toks: Seq<TokenView>, from: int, pos: int) -> Parse<TypeView>
    decreases toks.len() - from, 0nat,
{
    if is_ahead(toks, from, pos) {
        type_at(toks, pos)
    } else {
        stuck(toks, from)
    }
}

/// Types separated by commas, from a position behind another on.
pub open spec fn type_list_after(
    toks: Seq<TokenView>,
    from: int,
    pos: int,
) -> Parse<Seq<TypeView>>
    decreases toks.len() - from, 0nat,
{
    if is_ahead(toks, from, pos) {
        type_list(toks, pos, Seq::empty())
    } else {
        stuck(toks, from)
    }
}

/// Types separated by commas, added to those before them.
pub open spec fn type_list(
    toks: Seq<TokenView>,
    pos: int,
    before: Seq<TypeView>,
) -> Parse<Seq<TypeView>>
    decreases toks.len() - pos, 3nat,
{
    match type_at(toks, pos) {
        Ok((ty, end)) => if kind_at(toks, end) == KindView::Comma {
            if is_ahead(toks, pos, end + 1) {
                type_list(toks, end + 1, before.push(ty))
            } else {
                stuck(toks, pos)
            }
        } else {
            Ok((before.push(ty), end))
        },
        Err(error) => Err(error),
    }
}

/// The type that a plain name stands for.
fn type_of_name(name: String) -> (ty: TypeName)
    ensures
        ty@ == named_type(name@),
{
    reveal(named_type);
    if is_text(&name, "string") {
        TypeName::String
    } else if is_text(&name, "Path") {
        TypeName::Path
    } else if is_text(&name, "File") {
        TypeName::File
    } else if is_text(&name, "Thread") {
        TypeName::Thread
    } else if is_text(&name, "byte") {
        TypeName::Byte
    } else if is_text(&name, "char") {
        TypeName::Char
    } else if is_text(&name, "bool") {
        TypeName::Bool
    } else if is_text(&name, "u8") {
        TypeName::Int { signed: false, bits: 8 }
    } else if is_text(&name, "u16") {
        TypeName::Int { signed: false, bits: 16 }
    } else if is_text(&name, "u32") {
        TypeName::Int { signed: false, bits: 32 }
    } else if is_text(&name, "u64") {
        TypeName::Int { signed: false, bits: 64 }
    } else if is_text(&name, "u128") {
        TypeName::Int { signed: false, bits: 128 }
    } else if is_text(&name, "i8") {
        TypeName::Int { signed: true, bits: 8 }
    } else if is_text(&name, "i16") {
        TypeName::Int { signed: true, bits: 16 }
    } else if is_text(&name, "i32") {
        TypeName::Int { signed: true, bits: 32 }
    } else if is_text(&name, "i64") {
        TypeName::Int { signed: true, bits: 64 }
    } else if is_text(&name, "i128") {
        TypeName::Int { signed: true, bits: 128 }
    } else if is_text(&name, "usize") {
        TypeName::Int { signed: false, bits: 64 }
    } else if is_text(&name, "isize") {
        TypeName::Int { signed: true, bits: 64 }
    } else if is_text(&name, "f32") {
        TypeName::Float { bits: 32 }
    } else if is_text(&name, "f64") {
        TypeName::Float { bits: 64 }
    } else {
        TypeName::Struct(name)
    }
}

impl<'a> Parser<'a> {
    /// Parses a type.
    #[verifier::rlimit(60)]
    pub fn parse_type(&mut self) -> (result: Result<TypeName, Diagnostic>)
        requires
            old(self).well_formed(),
        ensures
            match result {
                Ok(ty) => final(self).follows(old(self)) && type_at(
                    old(self).toks(),
                    old(self).pos as int,
                ) == Ok::<(TypeView, int), DiagnosticView>((ty@, final(self).pos as int)),
                Err(error) => type_at(old(self).toks(), old(self).pos as int) == Err::<
                    (TypeView, int),
                    DiagnosticView,
                >(error@),
            },
        decreases old(self).tokens@.len() - old(self).pos, 1nat,
    {
        let ghost toks = self.toks();
        let ghost start = self.pos as int;
        if self.matches(TokenKind::Ampersand) {
            self.advance();
            let mutable = self.matches(TokenKind::Mut);
            if mutable {
                self.advance();
            }
            assert(type_after(toks, start, self.pos as int) == type_at(toks, self.pos as int));
            let inner = self.parse_type()?;
            return Ok(TypeName::Ref { mutable, inner: Box::new(inner) });
        }
        if self.matches(TokenKind::LBracket) {
            self.advance();
            assert(type_after(toks, start, self.pos as int) == type_at(toks, self.pos as int));
            let elem = self.parse_type()?;
            self.expect(TokenKind::Semicolon, "expected ';' in array type")?;
            let literal = self.expect_number("expected array length")?;
            self.expect(TokenKind::RBracket, "expected ']' after array type")?;
            let len: u64 = parse_array_len(literal.as_str())?;
            return Ok(TypeName::Array { elem: Box::new(elem), len });
        }
        let name = self.expect_ident("expected type name")?;
        if is_text(&name, "dict") {
            let (key, value) = self.parse_type_pair(
                "expected '<' in dict type",
                "expected ',' in dict type",
                "expected '>' in dict type",
                Ghost(start),
            )?;
            return Ok(TypeName::Dict { key: Box::new(key), value: Box::new(value) });
        }
        if is_text(&name, "list") {
            self.expect(TokenKind::Less, "expected '<' in list type")?;
            assert(type_after(toks, start, self.pos as int) == type_at(toks, self.pos as int));
            let elem = self.parse_type()?;
            self.expect(TokenKind::Greater, "expected '>' in list type")?;
            return Ok(TypeName::List { elem: Box::new(elem) });
        }
        if is_text(&name, "map") {
            let (key, value) = self.parse_type_pair(
                "expected '<' in map type",
                "expected ',' in map type",
                "expected '>' in map type",
                Ghost(start),
            )?;
            return Ok(TypeName::Mapping { key: Box::new(key), value: Box::new(value) });
        }
        let ty = type_of_name(name.clone());
        if self.matches(TokenKind::Less) {
            let nominal = match &ty {
                TypeName::Struct(_) => true,
                _ => false,
            };
            if !nominal {
                return Err(self.error_here("only nominal types accept generic arguments"));
            }
            self.advance();
            if self.matches(TokenKind::Greater) {
                return Err(self.error_here("generic type requires at least one argument"));
            }
            assert(type_list_after(toks, start, self.pos as int) == type_list(
                toks,
                self.pos as int,
                Seq::empty(),
            ));
            let args = self.parse_type_list()?;
            self.expect(TokenKind::Greater, "expected '>' after generic type arguments")?;
            return Ok(TypeName::Applied { name, args });
        }
        Ok(ty)
    }

    /// Parses two types between angle brackets, behind an earlier position.
    fn parse_type_pair(
        &mut self,
        open: &str,
        comma: &str,
        close: &str,
        Ghost(from): Ghost<int>,
    ) -> (
        result: Result<(TypeName, TypeName), Diagnostic>)
        requires
            old(self).well_formed(),
            0 <= from < old(self).pos,
        ensures
            match result {
                Ok((key, value)) => final(self).follows(old(self)) && type_pair_after(
                    old(self).toks(),
                    from,
                    old(self).pos as int,
                    open@,
                    comma@,
                    close@,
                ) == Ok::<((TypeView, TypeView), int), DiagnosticView>(
                    ((key@, value@), final(self).pos as int),
                ),
                Err(error) => type_pair_after(
                    old(self).toks(),
                    from,
                    old(self).pos as int,
                    open@,
                    comma@,
                    close@,
                ) == Err::<((TypeView, TypeView), int), DiagnosticView>(error@),
            },
        decreases old(self).tokens@.len() - old(self).pos, 3nat,
    {
        let ghost toks = self.toks();
        self.expect(TokenKind::Less, open)?;
        assert(type_after(toks, from, self.pos as int) == type_at(toks, self.pos as int));
        let key = self.parse_type()?;
        self.expect(TokenKind::Comma, comma)?;
        assert(type_after(toks, from, self.pos as int) == type_at(toks, self.pos as int));
        let value = self.parse_type()?;
        self.expect(TokenKind::Greater, close)?;
        Ok((key, value))
    }

    /// Parses types separated by commas.
    fn parse_type_list(&mut self) -> (result: Result<Vec<TypeName>, Diagnostic>)
        requires
            old(self).well_formed(),
        ensures
            match result {
                Ok(types) => final(self).follows(old(self)) && type_list(
                    old(self).toks(),
                    old(self).pos as int,
                    Seq::empty(),
                ) == Ok::<(Seq<TypeView>, int), DiagnosticView>(
                    (types_view(types@), final(self).pos as int),
                ),
                Err(error) => type_list(old(self).toks(), old(self).pos as int, Seq::empty())
                    == Err::<(Seq<TypeView>, int), DiagnosticView>(error@),
            },
        decreases old(self).tokens@.len() - old(self).pos, 2nat,
    {
        let ghost toks = self.toks();
        let ghost goal = type_list(toks, self.pos as int, Seq::empty());
        let mut types: Vec<TypeName> = Vec::new();
        let mut more = true;
        assert(types_view(types@) =~= Seq::empty());
        while more
            invariant
                self.well_formed(),
                self.tokens == old(self).tokens,
                toks == old(self).toks(),
                self.pos >= old(self).pos,
                !more ==> self.pos > old(self).pos,
                more ==> type_list(toks, self.pos as int, types_view(types@)) == goal,
                !more ==> goal == Ok::<(Seq<TypeView>, int), DiagnosticView>(
                    (types_view(types@), self.pos as int),
                ),
                goal == type_list(old(self).toks(), old(self).pos as int, Seq::empty()),
            decreases self.tokens@.len() - self.pos + (if more { 1int } else { 0int }),
        {
            let ghost before = types_view(types@);
            let ty = self.parse_type()?;
            let ghost added = ty@;
            types.push(ty);
            assert(types_view(types@) =~= before.push(added));
            more = self.matches(TokenKind::Comma);
            if more {
                self.advance();
            }
        }
        Ok(types)
    }
}

} // verus!
