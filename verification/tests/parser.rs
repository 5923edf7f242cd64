//! The parser on small sources.

use aziky::ast::{
    EnumVariantPayloadDef, Expr, Item, MatchPattern, ModuleDecl, Stmt, TypeName, UseDecl,
};
use aziky::parser::items::parse;
use aziky::token::{Token, TokenKind};

/// The keyword that a word is, if it is one.
fn keyword(word: &str) -> Option<TokenKind> {
    let kind = match word {
        "pub" => TokenKind::Pub,
        "struct" => TokenKind::Struct,
        "enum" => TokenKind::Enum,
        "trait" => TokenKind::Trait,
        "impl" => TokenKind::Impl,
        "fn" => TokenKind::Fn,
        "mod" => TokenKind::Mod,
        "use" => TokenKind::Use,
        "as" => TokenKind::As,
        "embed" => TokenKind::Embed,
        "let" => TokenKind::Let,
        "mut" => TokenKind::Mut,
        "if" => TokenKind::If,
        "else" => TokenKind::Else,
        "while" => TokenKind::While,
        "loop" => TokenKind::Loop,
        "for" => TokenKind::For,
        "in" => TokenKind::In,
        "parfor" => TokenKind::ParFor,
        "foreach" => TokenKind::Foreach,
        "break" => TokenKind::Break,
        "continue" => TokenKind::Continue,
        "return" => TokenKind::Return,
        "print" => TokenKind::Print,
        "exit" => TokenKind::Exit,
        "benchloop" => TokenKind::BenchLoop,
        "assert" => TokenKind::Assert,
        "panic" => TokenKind::Panic,
        "match" => TokenKind::Match,
        "true" => TokenKind::True,
        "false" => TokenKind::False,
        _ => return None,
    };
    Some(kind)
}

/// The signs, longer ones first.
fn signs() -> Vec<(&'static str, TokenKind)> {
    vec![
        ("::", TokenKind::ColonColon),
        ("..", TokenKind::DotDot),
        ("=>", TokenKind::FatArrow),
        ("==", TokenKind::EqualEqual),
        ("!=", TokenKind::BangEqual),
        ("<=", TokenKind::LessEqual),
        (">=", TokenKind::GreaterEqual),
        ("<<", TokenKind::ShiftLeft),
        (">>", TokenKind::ShiftRight),
        ("&&", TokenKind::AmpAmp),
        ("||", TokenKind::PipePipe),
        ("{", TokenKind::LBrace),
        ("}", TokenKind::RBrace),
        ("(", TokenKind::LParen),
        (")", TokenKind::RParen),
        ("[", TokenKind::LBracket),
        ("]", TokenKind::RBracket),
        (";", TokenKind::Semicolon),
        (",", TokenKind::Comma),
        (":", TokenKind::Colon),
        (".", TokenKind::Dot),
        ("=", TokenKind::Equal),
        ("!", TokenKind::Bang),
        ("<", TokenKind::Less),
        (">", TokenKind::Greater),
        ("+", TokenKind::Plus),
        ("-", TokenKind::Minus),
        ("*", TokenKind::Star),
        ("/", TokenKind::Slash),
        ("%", TokenKind::Percent),
        ("&", TokenKind::Ampersand),
        ("|", TokenKind::Pipe),
        ("^", TokenKind::Caret),
    ]
}

/// Splits a source of one line into tokens.
fn lex(source: &str) -> Result<Vec<Token>, String> {
    let chars: Vec<char> = source.chars().collect();
    let mut tokens = Vec::new();
    let mut i = 0;
    while i < chars.len() {
        let ch = chars[i];
        let start = i;
        if ch.is_whitespace() {
            i += 1;
            continue;
        }
        let kind = if ch.is_ascii_alphabetic() || ch == '_' {
            while i < chars.len() && (chars[i].is_ascii_alphanumeric() || chars[i] == '_') {
                i += 1;
            }
            let word: String = chars[start..i].iter().collect();
            keyword(&word).unwrap_or(TokenKind::Ident(word))
        } else if ch.is_ascii_digit() {
            while i < chars.len() && chars[i].is_ascii_alphanumeric() {
                i += 1;
            }
            TokenKind::Number(chars[start..i].iter().collect())
        } else if ch == '"' {
            i += 1;
            while i < chars.len() && chars[i] != '"' {
                i += 1;
            }
            i += 1;
            TokenKind::String(chars[start + 1..i - 1].iter().collect())
        } else {
            let rest: String = chars[start..].iter().collect();
            let found = signs().into_iter().find(|(sign, _)| rest.starts_with(sign));
            let Some((sign, kind)) = found else {
                return Err(format!("unexpected character {ch:?}"));
            };
            i += sign.len();
            kind
        };
        tokens.push(Token { kind, line: 1, column: start + 1, source_id: 0 });
    }
    let column = chars.len() + 1;
    tokens.push(Token { kind: TokenKind::Eof, line: 1, column, source_id: 0 });
    Ok(tokens)
}

#[test]
fn parse_program_with_struct_and_main() {
    let src = "struct Foo { x: u8; } fn main() { exit(0); }";
    let tokens = lex(src).expect("lex failed");
    let program = parse(&tokens).expect("parse failed");
    assert_eq!(program.items.len(), 2);
}

#[test]
fn parse_array_literal_and_index() {
    let src = "fn main() { let arr: [u8; 2] = [1u8, 2u8]; let x = arr[1u8]; exit(0); }";
    let tokens = lex(src).expect("lex failed");
    let program = parse(&tokens).expect("parse failed");
    assert_eq!(program.items.len(), 1);
}

#[test]
fn parse_struct_literal_and_field() {
    let src = "struct P { x: i32; } fn main() { let p = P { x: 1i32 }; let y = p.x; exit(0); }";
    let tokens = lex(src).expect("lex failed");
    let program = parse(&tokens).expect("parse failed");
    assert_eq!(program.items.len(), 2);
}

#[test]
fn parse_method_calls() {
    let src = "fn main() { let s = \"42\"; let n = s.to_i32(); let t = n.to_str(); exit(0); }";
    let tokens = lex(src).expect("lex failed");
    let program = parse(&tokens).expect("parse failed");
    assert_eq!(program.items.len(), 1);
}

#[test]
fn parse_expression_method_call_with_args() {
    let src = "struct P { x: i32; } fn shift(self_ref: &P, d: i32) -> i32 { return self_ref.x + d; } fn main() { let p: P = P { x: 1i32 }; let y: i32 = p.shift(2i32); exit(y); }";
    let tokens = lex(src).expect("lex failed");
    let program = parse(&tokens).expect("parse failed");
    assert_eq!(program.items.len(), 3);
}

#[test]
fn parse_expression_call() {
    let src = "fn main() { let seed: u64 = runtime_seed(); exit(seed); }";
    let tokens = lex(src).expect("lex failed");
    let program = parse(&tokens).expect("parse failed");
    assert_eq!(program.items.len(), 1);
}

#[test]
fn parse_extended_loops() {
    let src = "fn main() { parfor p in 0u8..2u8 { print(p.to_str()); } for i in 0u8..4u8 { if i == 2u8 { continue; } } loop { break; } exit(0); }";
    let tokens = lex(src).expect("lex failed");
    let program = parse(&tokens).expect("parse failed");
    assert_eq!(program.items.len(), 1);
}

#[test]
fn parse_parfor_reduction() {
    let src = "fn main() { let mut total: i64 = 0i64; parfor i in 1i64..10i64 reduce sum into total { i }; exit(0); }";
    let tokens = lex(src).expect("lex failed");
    let program = parse(&tokens).expect("parse failed");
    assert_eq!(program.items.len(), 1);
}

#[test]
fn parse_benchloop_stmt() {
    let src = "fn main() { benchloop(1000000u64); }";
    let tokens = lex(src).expect("lex failed");
    let program = parse(&tokens).expect("parse failed");
    assert_eq!(program.items.len(), 1);
}

#[test]
fn parse_enum_foreach_dict_and_errors() {
    let src = "enum State { Ready, Done } fn main() { let m: dict<string, i32> = {\"x\": 1i32, \"y\": 2i32}; foreach k in m { print(k); } let s = State::Ready; if true { assert(true, \"ok\"); } else if false { panic(\"bad\"); } exit(0); }";
    let tokens = lex(src).expect("lex failed");
    let program = parse(&tokens).expect("parse failed");
    assert_eq!(program.items.len(), 2);
}

#[test]
fn parse_enum_unit_tuple_and_named_payloads() {
    let src = "enum Message { Quit, Move(i32, i32), Write { text: string; code: u32; }, } fn main() { let quit: Message = Message::Quit; let moved: Message = Message::Move(3i32, 4i32); let written: Message = Message::Write { text: \"ready\", code: 7u32 }; exit(0u64); }";
    let tokens = lex(src).expect("lex failed");
    let program = parse(&tokens).expect("parse failed");
    let Item::Enum(def) = &program.items[0] else {
        panic!("expected enum item");
    };
    assert!(matches!(
        def.variants[0].payload,
        EnumVariantPayloadDef::Unit
    ));
    let EnumVariantPayloadDef::Tuple(fields) = &def.variants[1].payload else {
        panic!("expected tuple payload");
    };
    assert_eq!(fields.len(), 2);
    let EnumVariantPayloadDef::Named(fields) = &def.variants[2].payload else {
        panic!("expected named payload");
    };
    assert_eq!(fields.len(), 2);
}

#[test]
fn parse_exhaustive_enum_match_expression() {
    let src = "enum Message { Quit, Move(i32, i32), Write { text: string; code: u32; }, } fn describe(message: Message) -> string { return match message { Message::Quit => \"quit\", Message::Move(x, _) => x.to_str(), Message::Write { text, code: _ } => text, }; } fn main() { exit(0u64); }";
    let tokens = lex(src).expect("lex failed");
    let program = parse(&tokens).expect("parse failed");
    let Item::Function(function) = &program.items[1] else {
        panic!("expected function item");
    };
    let Stmt::Return {
        expr: Some(Expr::Match { arms, .. }),
        ..
    } = &function.body[0]
    else {
        panic!("expected match return expression");
    };
    assert_eq!(arms.len(), 3);
    assert!(matches!(arms[0].pattern, MatchPattern::EnumUnit { .. }));
    assert!(matches!(arms[1].pattern, MatchPattern::EnumTuple { .. }));
    assert!(matches!(arms[2].pattern, MatchPattern::EnumNamed { .. }));
}

#[test]
fn parse_generic_enum_and_applied_types() {
    let src = "enum Outcome<T, E> { Ok(T), Err(E), } fn pass(value: Outcome<i32, string>) -> Option<i32> { return Option::Some(1i32); } fn main() { exit(0u64); }";
    let tokens = lex(src).expect("lex failed");
    let program = parse(&tokens).expect("parse failed");
    let Item::Enum(def) = &program.items[0] else {
        panic!("expected generic enum");
    };
    assert_eq!(def.type_params, vec!["T", "E"]);
    let Item::Function(function) = &program.items[1] else {
        panic!("expected function");
    };
    assert_eq!(function.params[0].ty.display(), "Outcome<i32, string>");
    assert_eq!(
        function
            .return_type
            .as_ref()
            .expect("return type")
            .display(),
        "Option<i32>"
    );
}

#[test]
fn parse_module_and_selective_use_declarations() {
    let tokens =
        lex("mod math; pub use math::add as sum; pub fn helper() { } fn main() { exit(0u64); }")
            .expect("lex failed");
    let program = parse(&tokens).expect("parse failed");
    assert!(matches!(
        &program.items[0],
        Item::Module(ModuleDecl { name, .. }) if name == "math"
    ));
    assert!(matches!(
        &program.items[1],
        Item::Use(UseDecl { module, name, alias: Some(alias), public: true, .. })
            if module == "math" && name == "add" && alias == "sum"
    ));
    assert!(matches!(&program.items[2], Item::Function(function) if function.public));
}

#[test]
fn parse_public_top_level_declarations() {
    let tokens = lex("pub struct Item { id: u64; } pub enum State { Ready, } pub trait Named { fn name(self: &Self) -> string; } pub fn helper() { } fn main() { exit(0u64); }")
        .expect("lex failed");
    let program = parse(&tokens).expect("parse failed");
    assert!(matches!(&program.items[0], Item::Struct(def) if def.public));
    assert!(matches!(&program.items[1], Item::Enum(def) if def.public));
    assert!(matches!(&program.items[2], Item::Trait(def) if def.public));
    assert!(matches!(&program.items[3], Item::Function(def) if def.public));
}

#[test]
fn reject_public_impl_block() {
    let tokens = lex("struct Item { id: u64; } pub impl Item { fn id(self: &Self) -> u64 { return self.id; } } fn main() { exit(0u64); }")
        .expect("lex failed");
    let error = parse(&tokens).expect_err("public impl must be rejected");
    assert!(
        error
            .message
            .contains("'pub' is not allowed on impl blocks")
    );
}

#[test]
fn parse_owned_list_and_map_types() {
    let tokens =
        lex("fn consume(values: list<i32>, names: map<string, u64>) { } fn main() { exit(0u64); }")
            .expect("lex failed");
    let program = parse(&tokens).expect("parse failed");
    let Item::Function(function) = &program.items[0] else {
        panic!("expected function");
    };
    assert_eq!(function.params[0].ty.display(), "list<i32>");
    assert_eq!(function.params[1].ty.display(), "map<string, u64>");
}

#[test]
fn parse_if_with_ident_condition_and_block() {
    let src = "fn main() { let mut a: u64 = 1u64; let b: u64 = 2u64; if a < b { a = a + 1u64; } exit(a); }";
    let tokens = lex(src).expect("lex failed");
    let program = parse(&tokens).expect("parse failed");
    assert_eq!(program.items.len(), 1);
}

#[test]
fn parse_index_assignment_stmt() {
    let src = "fn main() { let mut arr: [u64; 2] = [1u64, 2u64]; arr[1u64] = 5u64; exit(0u64); }";
    let tokens = lex(src).expect("lex failed");
    let program = parse(&tokens).expect("parse failed");
    assert_eq!(program.items.len(), 1);
}

#[test]
fn parse_field_assignment_stmt() {
    let src =
        "struct P { x: u64; } fn main() { let mut p: P = P { x: 1u64 }; p.x = 7u64; exit(0u64); }";
    let tokens = lex(src).expect("lex failed");
    let program = parse(&tokens).expect("parse failed");
    assert_eq!(program.items.len(), 2);
}

#[test]
fn parse_method_call_stmt_with_args() {
    let src = "fn main() { let mut arr: [u64; 4] = [1u64, 2u64, 3u64, 4u64]; arr.push(5u64); arr.pop(); exit(0u64); }";
    let tokens = lex(src).expect("lex failed");
    let program = parse(&tokens).expect("parse failed");
    assert_eq!(program.items.len(), 1);
}

#[test]
fn parse_trait_impl_and_embed_struct() {
    let src = "trait Calib { fn calibrate(self_ref: &Module) -> u64; } struct Sensor { id: u64; value: u64; } struct Module { embed Sensor; unit: u64; } impl Calib for Module { fn calibrate(self_ref: &Module) -> u64 { return self_ref.value + self_ref.unit; } } fn main() { let m: Module = Module { id: 1u64, value: 2u64, unit: 3u64 }; exit(m.calibrate()); }";
    let tokens = lex(src).expect("lex failed");
    let program = parse(&tokens).expect("parse failed");
    assert_eq!(program.items.len(), 5);
}

#[test]
fn parse_inherent_impl_and_associated_call() {
    let src = "struct Point { x: i32; } impl Point { fn new(x: i32) -> Self { return Self { x: x }; } fn get(self: &Self) -> i32 { return self.x; } } fn main() { let point: Point = Point::new(7i32); exit(point.get()); }";
    let tokens = lex(src).expect("lex failed");
    let program = parse(&tokens).expect("parse failed");
    assert_eq!(program.items.len(), 3);
    let Item::InherentImpl(impl_def) = &program.items[1] else {
        panic!("expected inherent impl item");
    };
    assert_eq!(impl_def.for_type, "Point");
    assert_eq!(impl_def.methods.len(), 2);
}

#[test]
fn parse_bitwise_logical_shift_and_mod_ops() {
    let src = "fn main() { let a: u64 = (9u64 % 4u64) | (8u64 >> 1u64); let b: u64 = (a << 2u64) ^ 3u64; let c: bool = !false && true || false; let d: usize = 12usize; let e: isize = -3isize; exit(0u64); }";
    let tokens = lex(src).expect("lex failed");
    let program = parse(&tokens).expect("parse failed");
    assert_eq!(program.items.len(), 1);
}

/// An expression with every operator in brackets.
fn shape(expr: &Expr) -> String {
    match expr {
        Expr::Ident { name, .. } => name.to_string(),
        Expr::Number { literal, .. } => literal.to_string(),
        Expr::Unary { op, expr, .. } => format!("({op:?} {})", shape(expr)),
        Expr::Binary { op, left, right, .. } => {
            format!("({} {op:?} {})", shape(left), shape(right))
        }
        Expr::Index { base, index, .. } => format!("{}[{}]", shape(base), shape(index)),
        Expr::FieldAccess { base, field, .. } => format!("{}.{field}", shape(base)),
        other => panic!("unexpected expression {other:?}"),
    }
}

/// The shape of an expression that is written down.
fn shape_of(source: &str) -> String {
    let tokens = lex(&format!("fn f() {{ return {source}; }}")).expect("lex failed");
    let program = parse(&tokens).expect("parse failed");
    let Item::Function(function) = &program.items[0] else {
        panic!("expected function item");
    };
    let Stmt::Return { expr: Some(expr), .. } = &function.body[0] else {
        panic!("expected return");
    };
    shape(expr)
}

/// The message about a source that is no program.
fn refusal(source: &str) -> String {
    let tokens = lex(source).expect("lex failed");
    parse(&tokens).expect_err("refused").message
}

/// The message about a statement that is none.
fn statement_refusal(source: &str) -> String {
    refusal(&format!("fn f() {{ {source} }}"))
}

#[test]
fn tighter_operators_bind_first() {
    let levels: [&[(&str, &str)]; 9] = [
        &[("||", "Or")],
        &[("&&", "And")],
        &[("==", "Eq"), ("!=", "Ne"), ("<", "Lt"), ("<=", "Le"), (">", "Gt"), (">=", "Ge")],
        &[("|", "BitOr")],
        &[("^", "BitXor")],
        &[("&", "BitAnd")],
        &[("<<", "Shl"), (">>", "Shr")],
        &[("+", "Add"), ("-", "Sub")],
        &[("*", "Mul"), ("/", "Div"), ("%", "Mod")],
    ];
    for (outer, firsts) in levels.iter().enumerate() {
        for (inner, seconds) in levels.iter().enumerate() {
            for (first, first_name) in firsts.iter() {
                for (second, second_name) in seconds.iter() {
                    let expected = if outer < inner {
                        format!("(a {first_name} (b {second_name} c))")
                    } else {
                        format!("((a {first_name} b) {second_name} c)")
                    };
                    assert_eq!(shape_of(&format!("a {first} b {second} c")), expected);
                }
            }
        }
    }
}

#[test]
fn brackets_group() {
    assert_eq!(shape_of("a * (b + c)"), "(a Mul (b Add c))");
    assert_eq!(shape_of("(a || b) && c"), "((a Or b) And c)");
    assert_eq!(shape_of("a - (b - c)"), "(a Sub (b Sub c))");
    assert_eq!(shape_of("(a + b)[c].d"), "(a Add b)[c].d");
}

#[test]
fn unary_operators_bind_before_binary_ones() {
    assert_eq!(shape_of("-a * !b"), "((Neg a) Mul (Not b))");
    assert_eq!(shape_of("- -a.b"), "(Neg (Neg a.b))");
    assert_eq!(shape_of("&mut a"), "(RefMut a)");
    assert_eq!(shape_of("&a & &b"), "((Ref a) BitAnd (Ref b))");
    assert_eq!(shape_of("+a[1]"), "(Plus a[1])");
}

#[test]
fn a_program_is_its_items() {
    let sources = ["mod m;", "struct S { x: u8; }", "enum E { A }", "fn f() { }", "trait T { }"];
    let mut joined = String::new();
    for (count, source) in sources.iter().enumerate() {
        joined.push_str(source);
        let tokens = lex(&joined).expect("lex failed");
        let program = parse(&tokens).expect("parse failed");
        assert_eq!(program.items.len(), count + 1);
    }
    let program = parse(&lex("").expect("lex failed")).expect("parse failed");
    assert!(program.items.is_empty());
}

#[test]
fn a_message_has_a_place_and_a_source() {
    let mut tokens = lex("fn f() { let 1; }").expect("lex failed");
    tokens[0].source_id = 4;
    let error = parse(&tokens).expect_err("refused");
    assert_eq!(error.message, "expected identifier after let");
    assert_eq!((error.line, error.column, error.source_id), (1, 14, 4));
}

#[test]
fn items_that_are_not_well_formed_are_refused() {
    let cases = [
        ("let", "expected 'struct', 'enum', 'trait', 'impl', 'fn', 'mod', 'use', or 'pub'"),
        ("mod ;", "expected module name after 'mod'"),
        ("mod m", "expected ';' after module declaration"),
        ("use ;", "expected module name after 'use'"),
        ("use m;", "expected '::' in use declaration"),
        ("use m::;", "expected imported item name"),
        ("use m::x as ;", "expected import alias after 'as'"),
        ("use m::x", "expected ';' after use declaration"),
        ("enum { }", "expected enum name"),
        ("enum E<> { }", "generic declaration requires at least one type parameter"),
        ("enum E<1> { }", "expected generic type parameter"),
        ("enum E<T { }", "expected '>' after generic type parameters"),
        ("enum E ;", "expected '{' after enum name"),
        ("enum E { 1 }", "expected enum variant name"),
        ("enum E { A B }", "expected ',' between enum variants"),
        ("enum E { A(u8 }", "expected ')' after enum tuple payload"),
        ("enum E { A { 1 } }", "expected enum payload field name"),
        ("enum E { A { x } }", "expected ':' after enum payload field"),
        ("enum E { A { x: u8 } }", "expected ';' or ',' after enum payload field type"),
        ("struct { }", "expected struct name"),
        ("struct S ;", "expected '{' after struct name"),
        ("struct S { x u8; }", "expected ':' after field name"),
        ("struct S { x: u8 }", "expected ';' or ',' after field type"),
        ("struct S { embed T }", "expected ';' or ',' after embedded field"),
        ("struct S { 1 }", "expected field name"),
        ("fn () { }", "expected function name"),
        ("fn f { }", "expected '('"),
        ("fn f(1) { }", "expected parameter name"),
        ("fn f(x) { }", "expected ':' after parameter name"),
        ("fn f(x: u8 { }", "expected ')'"),
        ("fn f() - u8 { }", "expected '>' in return type"),
        ("fn f() ;", "expected '{'"),
        ("trait { }", "expected trait name"),
        ("trait T ;", "expected '{' after trait name"),
        ("trait T { x }", "expected 'fn' in trait body"),
        ("trait T { fn ; }", "expected trait method name"),
        ("trait T { fn f() }", "expected ';' after trait method signature"),
        ("impl { }", "expected trait or type name after impl"),
        ("impl T for { }", "expected target type in trait impl"),
        ("impl T ;", "expected '{' after impl header"),
    ];
    for (source, said) in cases {
        assert_eq!(refusal(source), said, "{source}");
    }
}

#[test]
fn types_that_are_not_well_formed_are_refused() {
    let cases = [
        ("1", "expected type name"),
        ("[u8]", "expected ';' in array type"),
        ("[u8; x]", "expected array length"),
        ("[u8; 99999999999999999999]", "array length out of range"),
        ("[u8; 2", "expected ']' after array type"),
        ("list u8", "expected '<' in list type"),
        ("list<u8", "expected '>' in list type"),
        ("dict u8", "expected '<' in dict type"),
        ("dict<string u8>", "expected ',' in dict type"),
        ("dict<string, u8", "expected '>' in dict type"),
        ("map u8", "expected '<' in map type"),
        ("map<u8 u8>", "expected ',' in map type"),
        ("map<u8, u8", "expected '>' in map type"),
        ("u8<u8>", "only nominal types accept generic arguments"),
        ("E<>", "generic type requires at least one argument"),
        ("E<u8 u8>", "expected '>' after generic type arguments"),
    ];
    for (source, said) in cases {
        assert_eq!(statement_refusal(&format!("let x: {source} = 1;")), said, "{source}");
    }
    let mut tokens = lex("fn f(x: [u8; 3]) { }").expect("lex failed");
    tokens[8].kind = TokenKind::Number("x".into());
    assert_eq!(parse(&tokens).expect_err("refused").message, "array length must be integer");
}

#[test]
fn the_length_of_an_array_is_its_leading_digits() {
    let program = parse(&lex("fn f(x: [u8; 12u64]) { }").expect("lex failed")).expect("parse");
    let Item::Function(function) = &program.items[0] else {
        panic!("expected function item");
    };
    assert!(matches!(function.params[0].ty, TypeName::Array { len: 12, .. }));
}

#[test]
fn statements_that_are_not_well_formed_are_refused() {
    let cases = [
        ("let x 1;", "expected '=' after identifier"),
        ("let x = 1", "expected ';' after let"),
        ("x = 1", "expected ';' after assignment"),
        ("x;", "expected assignment or call"),
        ("x[1] 2;", "expected '=' after indexed target"),
        ("x[1 = 2;", "expected ']' after index"),
        ("x.1;", "expected field or method name after '.'"),
        ("f(1;", "expected ')' after call"),
        ("f(1)", "expected ';' after call"),
        ("f::1;", "expected associated function after '::'"),
        ("f::g;", "expected '(' after associated function"),
        ("f::g(1)", "expected ';' after associated call"),
        ("print 1;", "expected '(' after print"),
        ("print(1;", "expected ')' after print"),
        ("print(1)", "expected ';' after print"),
        ("exit 1;", "expected '(' after exit"),
        ("exit(1)", "expected ';' after exit"),
        ("panic 1;", "expected '(' after panic"),
        ("panic(1)", "expected ';' after panic"),
        ("assert 1;", "expected '(' after assert"),
        ("assert(1)", "expected ';' after assert"),
        ("benchloop 1;", "expected '(' after benchloop"),
        ("benchloop(1)", "expected ';' after benchloop"),
        ("return 1", "expected ';' after return"),
        ("break", "expected ';' after break"),
        ("continue", "expected ';' after continue"),
        ("if x y", "expected '{' after if condition"),
        ("if true { } else y", "expected '{' after else"),
        ("while x y", "expected '{' after while condition"),
        ("loop y", "expected '{' after loop"),
        ("for 1", "expected loop variable name after for"),
        ("for i 1", "expected 'in' after loop variable"),
        ("for i in 1 2", "expected '..' in for range"),
        ("for i in 1..2 x", "expected '{' after for range"),
        ("foreach 1", "expected loop variable name after foreach"),
        ("foreach i 1", "expected 'in' after foreach variable"),
        ("parfor 1", "expected loop variable name after parfor"),
        ("parfor i 1", "expected 'in' after parfor variable"),
        ("parfor i in 1 2", "expected '..' in parfor range"),
        ("parfor i in 1..2 reduce 1", "expected reduction op: sum|min|max"),
        ("parfor i in 1..2 reduce mean", "unknown reduction op (expected sum|min|max)"),
        ("parfor i in 1..2 reduce sum x", "expected 'into' after reduction op"),
        ("parfor i in 1..2 reduce sum into 1", "expected reduction target variable"),
        ("parfor i in 1..2 reduce sum into x i", "expected '{' before reduction expression"),
        ("parfor i in 1..2 reduce sum into x { i i", "expected '}' after reduction expression"),
        ("struct", "expected statement"),
    ];
    for (source, said) in cases {
        assert_eq!(statement_refusal(source), said, "{source}");
    }
}

#[test]
fn expressions_that_are_not_well_formed_are_refused() {
    let cases = [
        ("1 + ;", "expected expression"),
        ("(1;", "expected ')' after expression"),
        ("[1;", "expected ']' after array literal"),
        ("x[1;", "expected ']' after index"),
        ("x.1;", "expected field or method name after '.'"),
        ("x.f(1;", "expected ')' after method call"),
        ("f(1;", "expected ')' after call"),
        ("f::1;", "expected member after '::'"),
        ("f::g(1;", "expected ')' after associated call"),
        ("{1: 2};", "dictionary keys must be string literals"),
        ("{\"k\" 2};", "expected ':' after dictionary key"),
        ("{\"k\": 2;", "expected '}' after dictionary literal"),
        ("P { x: 1;", "expected '}' after struct literal"),
        ("E::V { x: 1;", "expected '}' after enum payload"),
        ("match x;", "expected '{' after match value"),
        ("match (x) { };", "match expression must contain at least one arm"),
        ("match x { 1 => 2 };", "expected enum pattern or '_'"),
        ("match x { E => 2 };", "expected '::' in enum pattern"),
        ("match x { E::1 => 2 };", "expected variant name in enum pattern"),
        ("match x { E::A 2 };", "expected '=>' after match pattern"),
        ("match x { E::A => 2 _ => 3 };", "expected ',' between match arms"),
        ("match x { E::A(1) => 2 };", "expected binding or '_' in tuple pattern"),
        ("match x { E::A(a => 2 };", "expected ')' after tuple pattern"),
        ("match x { E::A { 1 } => 2 };", "expected field name in named pattern"),
        ("match x { E::A { a: 1 } => 2 };", "expected binding or '_' after pattern field"),
        ("match x { E::A { a => 2 };", "expected '}' after named pattern"),
    ];
    for (source, said) in cases {
        assert_eq!(statement_refusal(&format!("return {source}")), said, "{source}");
    }
}
