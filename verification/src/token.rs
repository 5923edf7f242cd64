//! Tokens: what the parser reads.

use vstd::prelude::*;

verus! {

/// What a token is: a word, a literal, a keyword or a sign.
#[derive(Debug, Clone, PartialEq, Eq)]
pub enum TokenKind {
    Ident(String),
    Number(String),
    String(String),
    Char(char),
    Eof,
    Pub,
    Struct,
    Enum,
    Trait,
    Impl,
    Fn,
    Mod,
    Use,
    As,
    Embed,
    Let,
    Mut,
    If,
    Else,
    While,
    Loop,
    For,
    In,
    ParFor,
    Foreach,
    Break,
    Continue,
    Return,
    Print,
    Exit,
    BenchLoop,
    Assert,
    Panic,
    Match,
    True,
    False,
    LBrace,
    RBrace,
    LParen,
    RParen,
    LBracket,
    RBracket,
    Semicolon,
    Comma,
    Colon,
    ColonColon,
    Dot,
    DotDot,
    FatArrow,
    Equal,
    EqualEqual,
    Bang,
    BangEqual,
    Less,
    LessEqual,
    Greater,
    GreaterEqual,
    Plus,
    Minus,
    Star,
    Slash,
    Percent,
    Ampersand,
    AmpAmp,
    Pipe,
    PipePipe,
    Caret,
    ShiftLeft,
    ShiftRight,
}

/// A kind of token as a mathematical value.
#[verifier::ext_equal]
pub enum KindView {
    Ident(Seq<char>),
    Number(Seq<char>),
    String(Seq<char>),
    Char(char),
    Eof,
    Pub,
    Struct,
    Enum,
    Trait,
    Impl,
    Fn,
    Mod,
    Use,
    As,
    Embed,
    Let,
    Mut,
    If,
    Else,
    While,
    Loop,
    For,
    In,
    ParFor,
    Foreach,
    Break,
    Continue,
    Return,
    Print,
    Exit,
    BenchLoop,
    Assert,
    Panic,
    Match,
    True,
    False,
    LBrace,
    RBrace,
    LParen,
    RParen,
    LBracket,
    RBracket,
    Semicolon,
    Comma,
    Colon,
    ColonColon,
    Dot,
    DotDot,
    FatArrow,
    Equal,
    EqualEqual,
    Bang,
    BangEqual,
    Less,
    LessEqual,
    Greater,
    GreaterEqual,
    Plus,
    Minus,
    Star,
    Slash,
    Percent,
    Ampersand,
    AmpAmp,
    Pipe,
    PipePipe,
    Caret,
    ShiftLeft,
    ShiftRight,
}

impl View for TokenKind {
    type V = KindView;

    open spec fn view(&self) -> KindView {
        match *self {
            TokenKind::Ident(value) => KindView::Ident(value@),
            TokenKind::Number(value) => KindView::Number(value@),
            TokenKind::String(value) => KindView::String(value@),
            TokenKind::Char(value) => KindView::Char(value),
            TokenKind::Eof => KindView::Eof,
            TokenKind::Pub => KindView::Pub,
            TokenKind::Struct => KindView::Struct,
            TokenKind::Enum => KindView::Enum,
            TokenKind::Trait => KindView::Trait,
            TokenKind::Impl => KindView::Impl,
            TokenKind::Fn => KindView::Fn,
            TokenKind::Mod => KindView::Mod,
            TokenKind::Use => KindView::Use,
            TokenKind::As => KindView::As,
            TokenKind::Embed => KindView::Embed,
            TokenKind::Let => KindView::Let,
            TokenKind::Mut => KindView::Mut,
            TokenKind::If => KindView::If,
            TokenKind::Else => KindView::Else,
            TokenKind::While => KindView::While,
            TokenKind::Loop => KindView::Loop,
            TokenKind::For => KindView::For,
            TokenKind::In => KindView::In,
            TokenKind::ParFor => KindView::ParFor,
            TokenKind::Foreach => KindView::Foreach,
            TokenKind::Break => KindView::Break,
            TokenKind::Continue => KindView::Continue,
            TokenKind::Return => KindView::Return,
            TokenKind::Print => KindView::Print,
            TokenKind::Exit => KindView::Exit,
            TokenKind::BenchLoop => KindView::BenchLoop,
            TokenKind::Assert => KindView::Assert,
            TokenKind::Panic => KindView::Panic,
            TokenKind::Match => KindView::Match,
            TokenKind::True => KindView::True,
            TokenKind::False => KindView::False,
            TokenKind::LBrace => KindView::LBrace,
            TokenKind::RBrace => KindView::RBrace,
            TokenKind::LParen => KindView::LParen,
            TokenKind::RParen => KindView::RParen,
            TokenKind::LBracket => KindView::LBracket,
            TokenKind::RBracket => KindView::RBracket,
            TokenKind::Semicolon => KindView::Semicolon,
            TokenKind::Comma => KindView::Comma,
            TokenKind::Colon => KindView::Colon,
            TokenKind::ColonColon => KindView::ColonColon,
            TokenKind::Dot => KindView::Dot,
            TokenKind::DotDot => KindView::DotDot,
            TokenKind::FatArrow => KindView::FatArrow,
            TokenKind::Equal => KindView::Equal,
            TokenKind::EqualEqual => KindView::EqualEqual,
            TokenKind::Bang => KindView::Bang,
            TokenKind::BangEqual => KindView::BangEqual,
            TokenKind::Less => KindView::Less,
            TokenKind::LessEqual => KindView::LessEqual,
            TokenKind::Greater => KindView::Greater,
            TokenKind::GreaterEqual => KindView::GreaterEqual,
            TokenKind::Plus => KindView::Plus,
            TokenKind::Minus => KindView::Minus,
            TokenKind::Star => KindView::Star,
            TokenKind::Slash => KindView::Slash,
            TokenKind::Percent => KindView::Percent,
            TokenKind::Ampersand => KindView::Ampersand,
            TokenKind::AmpAmp => KindView::AmpAmp,
            TokenKind::Pipe => KindView::Pipe,
            TokenKind::PipePipe => KindView::PipePipe,
            TokenKind::Caret => KindView::Caret,
            TokenKind::ShiftLeft => KindView::ShiftLeft,
            TokenKind::ShiftRight => KindView::ShiftRight,
        }
    }
}

/// A keyword, a sign or the end: a kind that carries no text.
pub open spec fn is_plain(kind: KindView) -> bool {
    match kind {
        KindView::Ident(_) | KindView::Number(_) | KindView::String(_) | KindView::Char(_) => false,
        _ => true,
    }
}

/// Whether two kinds without text are the same.
pub fn same_kind(a: &TokenKind, b: &TokenKind) -> (same: bool)
    ensures
        is_plain(b@) ==> same == (a@ == b@),
{
    match (a, b) {
        (TokenKind::Eof, TokenKind::Eof) => true,
        (TokenKind::Pub, TokenKind::Pub) => true,
        (TokenKind::Struct, TokenKind::Struct) => true,
        (TokenKind::Enum, TokenKind::Enum) => true,
        (TokenKind::Trait, TokenKind::Trait) => true,
        (TokenKind::Impl, TokenKind::Impl) => true,
        (TokenKind::Fn, TokenKind::Fn) => true,
        (TokenKind::Mod, TokenKind::Mod) => true,
        (TokenKind::Use, TokenKind::Use) => true,
        (TokenKind::As, TokenKind::As) => true,
        (TokenKind::Embed, TokenKind::Embed) => true,
        (TokenKind::Let, TokenKind::Let) => true,
        (TokenKind::Mut, TokenKind::Mut) => true,
        (TokenKind::If, TokenKind::If) => true,
        (TokenKind::Else, TokenKind::Else) => true,
        (TokenKind::While, TokenKind::While) => true,
        (TokenKind::Loop, TokenKind::Loop) => true,
        (TokenKind::For, TokenKind::For) => true,
        (TokenKind::In, TokenKind::In) => true,
        (TokenKind::ParFor, TokenKind::ParFor) => true,
        (TokenKind::Foreach, TokenKind::Foreach) => true,
        (TokenKind::Break, TokenKind::Break) => true,
        (TokenKind::Continue, TokenKind::Continue) => true,
        (TokenKind::Return, TokenKind::Return) => true,
        (TokenKind::Print, TokenKind::Print) => true,
        (TokenKind::Exit, TokenKind::Exit) => true,
        (TokenKind::BenchLoop, TokenKind::BenchLoop) => true,
        (TokenKind::Assert, TokenKind::Assert) => true,
        (TokenKind::Panic, TokenKind::Panic) => true,
        (TokenKind::Match, TokenKind::Match) => true,
        (TokenKind::True, TokenKind::True) => true,
        (TokenKind::False, TokenKind::False) => true,
        (TokenKind::LBrace, TokenKind::LBrace) => true,
        (TokenKind::RBrace, TokenKind::RBrace) => true,
        (TokenKind::LParen, TokenKind::LParen) => true,
        (TokenKind::RParen, TokenKind::RParen) => true,
        (TokenKind::LBracket, TokenKind::LBracket) => true,
        (TokenKind::RBracket, TokenKind::RBracket) => true,
        (TokenKind::Semicolon, TokenKind::Semicolon) => true,
        (TokenKind::Comma, TokenKind::Comma) => true,
        (TokenKind::Colon, TokenKind::Colon) => true,
        (TokenKind::ColonColon, TokenKind::ColonColon) => true,
        (TokenKind::Dot, TokenKind::Dot) => true,
        (TokenKind::DotDot, TokenKind::DotDot) => true,
        (TokenKind::FatArrow, TokenKind::FatArrow) => true,
        (TokenKind::Equal, TokenKind::Equal) => true,
        (TokenKind::EqualEqual, TokenKind::EqualEqual) => true,
        (TokenKind::Bang, TokenKind::Bang) => true,
        (TokenKind::BangEqual, TokenKind::BangEqual) => true,
        (TokenKind::Less, TokenKind::Less) => true,
        (TokenKind::LessEqual, TokenKind::LessEqual) => true,
        (TokenKind::Greater, TokenKind::Greater) => true,
        (TokenKind::GreaterEqual, TokenKind::GreaterEqual) => true,
        (TokenKind::Plus, TokenKind::Plus) => true,
        (TokenKind::Minus, TokenKind::Minus) => true,
        (TokenKind::Star, TokenKind::Star) => true,
        (TokenKind::Slash, TokenKind::Slash) => true,
        (TokenKind::Percent, TokenKind::Percent) => true,
        (TokenKind::Ampersand, TokenKind::Ampersand) => true,
        (TokenKind::AmpAmp, TokenKind::AmpAmp) => true,
        (TokenKind::Pipe, TokenKind::Pipe) => true,
        (TokenKind::PipePipe, TokenKind::PipePipe) => true,
        (TokenKind::Caret, TokenKind::Caret) => true,
        (TokenKind::ShiftLeft, TokenKind::ShiftLeft) => true,
        (TokenKind::ShiftRight, TokenKind::ShiftRight) => true,
        _ => false,
    }
}

/// A token with its place in its source.
#[derive(Debug, Clone, PartialEq, Eq)]
pub struct Token {
    pub kind: TokenKind,
    pub line: usize,
    pub column: usize,
    pub source_id: usize,
}

/// A token as a mathematical value.
#[verifier::ext_equal]
pub struct TokenView {
    pub kind: KindView,
    pub line: usize,
    pub column: usize,
    pub source_id: usize,
}

impl View for Token {
    type V = TokenView;

    open spec fn view(&self) -> TokenView {
        TokenView {
            kind: self.kind@,
            line: self.line,
            column: self.column,
            source_id: self.source_id,
        }
    }
}

/// Tokens as mathematical values.
pub open spec fn tokens_view(tokens: Seq<Token>) -> Seq<TokenView> {
    Seq::new(tokens.len(), |i: int| tokens[i]@)
}

} // verus!
