//! The checks and the index of programs, and their lowering.

use aziky::ast::{Expr, Program, Stmt, TypeName};
use aziky::diagnostic::Diagnostic;
use aziky::ir::LoweredStmt;
use aziky::parser::items::parse;
use aziky::semantics::index::ProgramIndex;
use aziky::semantics::lower::{lower_program, Kernel, RuntimeGenericAttempt};
use aziky::semantics::names::{
    argument_noun, find_enum, find_function, find_struct, is_file_runtime_intrinsic,
    source_callable_name,
};
use aziky::semantics::order::{is_before, sort_names};
use aziky::semantics::program::index_program;
use aziky::token::{Token, TokenKind};
use std::cell::RefCell;

/// The keyword that a word is, if it is one.
fn keyword(word: &str) -> Option<TokenKind> {
    let kind = match word {
        "pub" => TokenKind::Pub,
        "struct" => TokenKind::Struct,
        "enum" => TokenKind::Enum,
        "trait" => TokenKind::Trait,
        "impl" => TokenKind::Impl,
        "fn" => TokenKind::Fn,
        "mod" => TokenKind::Mod,
        "use" => TokenKind::Use,
        "as" => TokenKind::As,
        "embed" => TokenKind::Embed,
        "let" => TokenKind::Let,
        "mut" => TokenKind::Mut,
        "if" => TokenKind::If,
        "else" => TokenKind::Else,
        "while" => TokenKind::While,
        "loop" => TokenKind::Loop,
        "for" => TokenKind::For,
        "in" => TokenKind::In,
        "parfor" => TokenKind::ParFor,
        "foreach" => TokenKind::Foreach,
        "break" => TokenKind::Break,
        "continue" => TokenKind::Continue,
        "return" => TokenKind::Return,
        "print" => TokenKind::Print,
        "exit" => TokenKind::Exit,
        "benchloop" => TokenKind::BenchLoop,
        "assert" => TokenKind::Assert,
        "panic" => TokenKind::Panic,
        "match" => TokenKind::Match,
        "true" => TokenKind::True,
        "false" => TokenKind::False,
        _ => return None,
    };
    Some(kind)
}

/// The signs, longer ones first.
fn signs() -> Vec<(&'static str, TokenKind)> {
    vec![
        ("::", TokenKind::ColonColon),
        ("..", TokenKind::DotDot),
        ("=>", TokenKind::FatArrow),
        ("==", TokenKind::EqualEqual),
        ("!=", TokenKind::BangEqual),
        ("<=", TokenKind::LessEqual),
        (">=", TokenKind::GreaterEqual),
        ("<<", TokenKind::ShiftLeft),
        (">>", TokenKind::ShiftRight),
        ("&&", TokenKind::AmpAmp),
        ("||", TokenKind::PipePipe),
        ("{", TokenKind::LBrace),
        ("}", TokenKind::RBrace),
        ("(", TokenKind::LParen),
        (")", TokenKind::RParen),
        ("[", TokenKind::LBracket),
        ("]", TokenKind::RBracket),
        (";", TokenKind::Semicolon),
        (",", TokenKind::Comma),
        (":", TokenKind::Colon),
        (".", TokenKind::Dot),
        ("=", TokenKind::Equal),
        ("!", TokenKind::Bang),
        ("<", TokenKind::Less),
        (">", TokenKind::Greater),
        ("+", TokenKind::Plus),
        ("-", TokenKind::Minus),
        ("*", TokenKind::Star),
        ("/", TokenKind::Slash),
        ("%", TokenKind::Percent),
        ("&", TokenKind::Ampersand),
        ("|", TokenKind::Pipe),
        ("^", TokenKind::Caret),
    ]
}

/// Splits a source of one line into tokens.
fn lex(source: &str) -> Result<Vec<Token>, String> {
    let chars: Vec<char> = source.chars().collect();
    let mut tokens = Vec::new();
    let mut i = 0;
    while i < chars.len() {
        let ch = chars[i];
        let start = i;
        if ch.is_whitespace() {
            i += 1;
            continue;
        }
        let kind = if ch.is_ascii_alphabetic() || ch == '_' {
            while i < chars.len() && (chars[i].is_ascii_alphanumeric() || chars[i] == '_') {
                i += 1;
            }
            let word: String = chars[start..i].iter().collect();
            keyword(&word).unwrap_or(TokenKind::Ident(word))
        } else if ch.is_ascii_digit() {
            while i < chars.len() && chars[i].is_ascii_alphanumeric() {
                i += 1;
            }
            TokenKind::Number(chars[start..i].iter().collect())
        } else if ch == '"' {
            i += 1;
            while i < chars.len() && chars[i] != '"' {
                i += 1;
            }
            i += 1;
            TokenKind::String(chars[start + 1..i - 1].iter().collect())
        } else {
            let rest: String = chars[start..].iter().collect();
            let found = signs().into_iter().find(|(sign, _)| rest.starts_with(sign));
            let Some((sign, kind)) = found else {
                return Err(format!("unexpected character {ch:?}"));
            };
            i += sign.len();
            kind
        };
        tokens.push(Token { kind, line: 1, column: start + 1, source_id: 0 });
    }
    let column = chars.len() + 1;
    tokens.push(Token { kind: TokenKind::Eof, line: 1, column, source_id: 0 });
    Ok(tokens)
}

fn program(source: &str) -> Program {
    parse(&lex(source).expect("lex failed")).expect("parse failed")
}

fn index(source: &str) -> Result<ProgramIndex, Diagnostic> {
    index_program(&program(source))
}

/// What is said of a program that is refused.
fn refusal(source: &str) -> String {
    index(source).expect_err("the program is refused").message
}

fn purity_of(index: &ProgramIndex, name: &str) -> bool {
    let at = find_function(&index.functions, &name.to_string()).expect("the function is there");
    index.pure_functions[at]
}

fn layout_of(index: &ProgramIndex, name: &str) -> Vec<String> {
    let layout = index
        .struct_layouts
        .iter()
        .find(|layout| layout.name == name)
        .expect("the struct has a layout");
    layout.fields.iter().map(|field| field.name.clone()).collect()
}

#[test]
fn names_are_shown_as_they_were_written() {
    assert_eq!(source_callable_name(&"Bag__add".to_string()), "Bag::add");
    assert_eq!(source_callable_name(&"a__b__c".to_string()), "a::b__c");
    assert_eq!(source_callable_name(&"plain".to_string()), "plain");
    assert_eq!(source_callable_name(&"_".to_string()), "_");
    assert_eq!(source_callable_name(&"___x".to_string()), "::_x");
}

#[test]
fn arguments_are_counted_in_words() {
    assert_eq!(argument_noun(1), "argument");
    assert_eq!(argument_noun(0), "arguments");
    assert_eq!(argument_noun(2), "arguments");
}

#[test]
fn runtime_routines_are_known_by_name() {
    assert!(is_file_runtime_intrinsic(&"file_read".to_string()));
    assert!(is_file_runtime_intrinsic(&"Thread::spawn".to_string()));
    assert!(!is_file_runtime_intrinsic(&"runtime_seed".to_string()));
}

#[test]
fn names_are_sorted_as_in_a_dictionary() {
    let given: Vec<String> = ["b", "ab", "a", "", "B"].iter().map(|s| s.to_string()).collect();
    assert_eq!(sort_names(&given), ["", "B", "a", "ab", "b"]);
    assert!(is_before(&"a".to_string(), &"ab".to_string()));
    assert!(!is_before(&"a".to_string(), &"a".to_string()));
    assert!(is_before(&"z".to_string(), &"\u{e9}".to_string()));
}

#[test]
fn every_program_has_option_and_result() {
    let index = index("fn main() { exit(0); }").expect("the program is accepted");
    let names: Vec<&str> = index.enums.iter().map(|def| def.name.as_str()).collect();
    assert_eq!(names, ["Option", "Result"]);
    assert_eq!(index.enums[1].type_params, ["T", "E"]);
    assert_eq!(index.enums[0].variants.len(), 2);
}

#[test]
fn nothing_is_declared_twice() {
    assert_eq!(refusal("fn f() { } fn f() { }"), "redefinition of function 'f'");
    assert_eq!(
        refusal("struct S { a: u8; } struct S { b: u8; }"),
        "redefinition of struct 'S'"
    );
    assert_eq!(refusal("enum Option { A }"), "redefinition of enum 'Option'");
    assert_eq!(
        refusal("trait T { fn f(); } trait T { fn g(); }"),
        "redefinition of trait 'T'"
    );
}

#[test]
fn enums_are_checked_when_they_are_declared() {
    assert_eq!(refusal("enum E { }"), "enum 'E' must have at least one variant");
    assert_eq!(
        refusal("enum E<T, T> { A(T) }"),
        "duplicate generic parameter 'T' in enum 'E'"
    );
    assert_eq!(
        refusal("enum E<_> { A }"),
        "'_' cannot be used as a generic type parameter"
    );
    assert_eq!(refusal("enum E { A, B, A }"), "duplicate variant 'A' in enum 'E'");
    assert_eq!(
        refusal("enum E { A { x: u8; x: u16; } }"),
        "duplicate payload field 'x' in variant 'E::A'"
    );
}

#[test]
fn trait_methods_have_distinct_names() {
    assert_eq!(
        refusal("trait T { fn f(); fn f(); }"),
        "duplicate trait method 'f' in trait 'T'"
    );
}

#[test]
fn payload_types_are_known() {
    assert_eq!(refusal("enum E { A(Missing) }"), "unknown nominal type 'Missing'");
    assert_eq!(refusal("enum E { A(Gone<u8>) }"), "unknown generic enum 'Gone'");
    assert_eq!(
        refusal("enum E { A(Result<u8>) }"),
        "generic enum 'Result' expects 2 type arguments, got 1"
    );
    assert_eq!(
        refusal("enum E { A(Option) }"),
        "generic enum 'Option' requires 1 type argument"
    );
    assert!(index("enum E<T> { A(list<T>), B { x: Option<T>; } }").is_ok());
}

#[test]
fn signature_types_are_known() {
    assert_eq!(refusal("fn f(a: Missing) { }"), "unknown nominal type 'Missing'");
    assert_eq!(refusal("fn f() -> map<u8, Gone> { }"), "unknown nominal type 'Gone'");
    assert_eq!(
        refusal("fn f(a: Channel<u8>) { }"),
        "Channel currently requires the u64 element type"
    );
    assert!(index("fn f(a: Channel<u64>, b: &Option<u8>) { }").is_ok());
}

#[test]
fn field_types_are_known() {
    assert_eq!(refusal("struct S { a: [Missing; 2]; }"), "unknown nominal type 'Missing'");
}

#[test]
fn embedded_structs_are_laid_out_in_their_place() {
    let index = index(
        "struct Z { z: u8; } struct Y { a: u8; embed Z; b: u8; } struct X { embed Y; c: u8; }",
    )
    .expect("the program is accepted");
    assert_eq!(layout_of(&index, "Z"), ["z"]);
    assert_eq!(layout_of(&index, "Y"), ["a", "z", "b"]);
    assert_eq!(layout_of(&index, "X"), ["a", "z", "b", "c"]);
    assert_eq!(index.struct_layouts.len(), 3);
}

#[test]
fn a_struct_that_holds_itself_is_refused() {
    assert_eq!(
        refusal("struct B { a: A; } struct A { b: B; }"),
        "recursive resource layout is not allowed: A -> B -> A"
    );
    assert_eq!(
        refusal("struct C { c: C; }"),
        "recursive resource layout is not allowed: C -> C"
    );
    assert_eq!(
        refusal("struct A { d: D; } struct D { e: E; } struct E { d: D; }"),
        "recursive resource layout is not allowed: D -> E -> D"
    );
    assert!(index("struct A { next: &A; } struct B { all: list<B>; }").is_ok());
}

#[test]
fn layouts_that_do_not_fit_are_refused() {
    assert_eq!(
        refusal("struct A { x: u8; } struct B { x: u8; embed A; }"),
        "embedded field 'x' collides in struct 'B'"
    );
    assert_eq!(
        refusal("struct A { x: u8; x: u16; }"),
        "duplicate field 'x' in struct 'A'"
    );
    assert_eq!(
        refusal("struct A { embed Missing; }"),
        "unknown struct 'Missing' in embedded layout"
    );
}

#[test]
fn methods_of_a_type_become_functions() {
    let index = index(
        "struct Bag { n: u64; } impl Bag { fn make() -> Self { return Self { n: 1u64 }; } \
         fn again(self: &Self) -> Self { return Self::make(); } }",
    )
    .expect("the program is accepted");
    let at = find_function(&index.functions, &"Bag__again".to_string()).expect("the method");
    let method = &index.functions[at];
    assert_eq!(method.return_type, Some(TypeName::Struct("Bag".to_string())));
    let inner = TypeName::Struct("Bag".to_string());
    assert_eq!(method.params[0].ty, TypeName::Ref { mutable: false, inner: Box::new(inner) });
    match &method.body[0] {
        Stmt::Return { expr: Some(Expr::Call { name, .. }), .. } => assert_eq!(name, "Bag__make"),
        other => panic!("unexpected statement {other:?}"),
    }
}

#[test]
fn methods_of_a_type_are_checked() {
    assert_eq!(
        refusal("impl Gone { fn f() { } }"),
        "inherent impl target 'Gone' must be a known struct"
    );
    assert_eq!(
        refusal("struct S { a: u8; } impl S { fn f() { } fn f() { } }"),
        "method 'f' is already defined for 'S'"
    );
}

#[test]
fn methods_of_a_trait_are_checked() {
    let start = "struct S { a: u8; } trait T { fn f(self: &Self, n: u8) -> u8; } ";
    let with = |rest: &str| format!("{start}{rest}");
    assert_eq!(
        refusal("struct S { a: u8; } impl T for S { fn f() { } }"),
        "unknown trait 'T'"
    );
    assert_eq!(
        refusal(&with("impl T for Gone { fn f() { } }")),
        "trait impl target 'Gone' must be a known struct"
    );
    assert_eq!(
        refusal(&with("impl T for S { fn g() { } }")),
        "method 'g' is not declared in trait 'T'"
    );
    assert_eq!(
        refusal(&with("impl T for S { fn f(self: &S) -> u8 { return 1u8; } }")),
        "trait method 'f' parameter count mismatch: expected 2, got 1"
    );
    assert_eq!(
        refusal(&with("impl T for S { fn f(self: &S, n: u16) -> u8 { return 1u8; } }")),
        "trait method 'f' parameter 'n' type mismatch: expected u8, got u16"
    );
    assert_eq!(
        refusal(&with("impl T for S { fn f(self: &S, n: u8) { } }")),
        "trait method 'f' return type mismatch: expected u8, got void"
    );
    assert_eq!(
        refusal(&with("fn S__f() { } impl T for S { fn f(self: &S, n: u8) -> u8 { return n; } }")),
        "monomorphized function 'S__f' already exists"
    );
    assert!(index(&with("impl T for S { fn f(self: &S, n: u8) -> u8 { return n; } }")).is_ok());
}

#[test]
fn calls_with_an_owner_are_resolved() {
    let index = index(
        "enum E { A, B(u8) } struct S { a: u8; } impl S { fn f() -> u8 { return 1u8; } } \
         fn main() { let a = E::A(); let b = E::B(2u8); let c = S::f(); }",
    )
    .expect("the program is accepted");
    let at = find_function(&index.functions, &"main".to_string()).expect("main");
    let body = &index.functions[at].body;
    let exprs: Vec<&Expr> = body
        .iter()
        .map(|stmt| match stmt {
            Stmt::Let { expr, .. } => expr,
            other => panic!("unexpected statement {other:?}"),
        })
        .collect();
    assert!(matches!(exprs[0], Expr::EnumVariant { .. }));
    assert!(matches!(exprs[1], Expr::EnumTupleVariant { .. }));
    match exprs[2] {
        Expr::Call { name, .. } => assert_eq!(name, "S__f"),
        other => panic!("unexpected expression {other:?}"),
    }
}

#[test]
fn calls_with_an_owner_are_checked() {
    let start = "enum E { A, C { x: u8; } } fn main() ";
    assert_eq!(
        refusal(&format!("{start}{{ let a = E::Z(1u8); }}")),
        "unknown variant 'Z' for enum 'E'"
    );
    let unit = index(&format!("{start}{{ let a = E::A(1u8); }}")).expect_err("refused");
    assert_eq!(unit.message, "unit variant 'E::A' expects no payload, got 1 arguments");
    assert!(unit.types);
    assert_eq!(
        refusal(&format!("{start}{{ let a = E::C(1u8); }}")),
        "named variant 'E::C' must be constructed with '{ ... }'"
    );
}

#[test]
fn functions_without_effects_are_pure() {
    let index = index(
        "fn add(a: u8, b: u8) -> u8 { return a + b; } \
         fn twice(a: u8) -> u8 { return add(a, a); } \
         fn shout() { print(\"x\"); } \
         fn both(a: u8) -> u8 { shout(); return a; } \
         fn even(n: u8) -> u8 { return odd(n); } \
         fn odd(n: u8) -> u8 { return even(n); } \
         fn user(n: u8) -> u8 { return even(n); } \
         fn seeded() -> u64 { return runtime_seed(); } \
         fn lost() -> u8 { return gone(); }",
    )
    .expect("the program is accepted");
    assert!(purity_of(&index, "add"));
    assert!(purity_of(&index, "twice"));
    for name in ["shout", "both", "even", "odd", "user", "seeded", "lost"] {
        assert!(!purity_of(&index, name), "{name} has an effect");
    }
    assert_eq!(index.pure_functions.len(), index.functions.len());
}

#[test]
fn items_are_found_by_name() {
    let index = index("struct S { a: u8; } enum E { A } fn f() { }").expect("accepted");
    assert_eq!(find_struct(&index.structs, &"S".to_string()), Some(0));
    assert_eq!(find_enum(&index.enums, &"E".to_string()), Some(2));
    assert_eq!(find_function(&index.functions, &"S".to_string()), None);
}

/// Lowers a program with routines that fit the given shape, or none, and notes
/// what was tried.
fn lower_with(
    source: &str,
    fits: Option<Kernel>,
    generic: bool,
) -> (Result<Vec<LoweredStmt>, Diagnostic>, Vec<String>) {
    let tried = RefCell::new(Vec::new());
    let result = lower_program(
        &program(source),
        &|kernel: Kernel, main: &aziky::ast::Function| {
            assert_eq!(main.name, "main");
            tried.borrow_mut().push(format!("{kernel:?}"));
            Ok(if Some(kernel) == fits {
                Some(vec![LoweredStmt::Exit(1)])
            } else {
                None
            })
        },
        &|_: &aziky::ast::Function, _: &ProgramIndex| {
            tried.borrow_mut().push("generic".to_string());
            Ok(if generic {
                RuntimeGenericAttempt::Lowered(vec![LoweredStmt::Exit(2)])
            } else {
                RuntimeGenericAttempt::Fallback { reason: "shape".to_string() }
            })
        },
        &|_: &aziky::ast::Function, index: &ProgramIndex| {
            tried.borrow_mut().push("interpret".to_string());
            assert_eq!(index.functions.len(), 1);
            Ok(vec![LoweredStmt::Exit(3)])
        },
    );
    (result.map_err(|failure| failure.error), tried.into_inner())
}

#[test]
fn a_shape_that_fits_is_taken_first() {
    let (result, tried) = lower_with("fn main() { exit(0); }", Some(Kernel::RingWriteWhile), true);
    assert!(matches!(result.as_deref(), Ok([LoweredStmt::Exit(1)])));
    assert_eq!(tried, ["SeededFor", "SeededAllocWhile", "RingWriteWhile"]);
}

#[test]
fn the_general_way_comes_behind_the_shapes() {
    let (result, tried) = lower_with("fn main() { exit(0); }", None, true);
    assert!(matches!(result.as_deref(), Ok([LoweredStmt::Exit(2)])));
    assert_eq!(tried.len(), 16);
    assert_eq!(tried[14], "While");
    assert_eq!(tried[15], "generic");
}

#[test]
fn the_interpreter_comes_last() {
    let (result, tried) = lower_with("fn main() { exit(0); }", None, false);
    assert!(matches!(result.as_deref(), Ok([LoweredStmt::Exit(3)])));
    assert_eq!(tried.len(), 17);
    assert_eq!(tried[16], "interpret");
}

#[test]
fn a_program_without_main_is_refused() {
    let (result, tried) = lower_with("fn f() { }", None, false);
    let error = result.expect_err("refused");
    assert_eq!(error.message, "missing fn main()");
    assert_eq!((error.line, error.column), (0, 0));
    assert!(tried.is_empty());
}

#[test]
fn a_program_that_is_refused_is_not_lowered() {
    let (result, tried) = lower_with("fn main() { } fn main() { }", None, false);
    assert_eq!(result.expect_err("refused").message, "redefinition of function 'main'");
    assert!(tried.is_empty());
}
