//! Programs run by the interpreter, on a machine of small numbers.

use aziky::ast::{BinaryOp, Expr, ParForReduction, ReductionOp, Span, Stmt, TypeName};
use aziky::diagnostic::Diagnostic;
use aziky::ir::LoweredStmt;
use aziky::parser::items::parse;
use aziky::semantics::environment::{Bound, Env};
use aziky::semantics::execute::{
    combine_parts, exec_function, exec_rounds, exec_stmt, reduce_rounds, run_main,
};
use aziky::semantics::expressions::{comparator_value, find_comparator, CallResult};
use aziky::semantics::flow::split_rounds;
use aziky::semantics::index::ProgramIndex;
use aziky::semantics::lower::{lower_indexed, lower_program, Kernel, RuntimeGenericAttempt};
use aziky::semantics::names::find_function;
use aziky::semantics::operations::ValueOperations;
use aziky::semantics::outputs::Printed;
use aziky::semantics::program::index_program;
use aziky::semantics::state::{Failure, State};
use aziky::semantics::values::Value;
use aziky::token::{Token, TokenKind};
use std::cell::Cell;

/// The keyword that a word is, if it is one.
fn keyword(word: &str) -> Option<TokenKind> {
    let kind = match word {
        "pub" => TokenKind::Pub,
        "struct" => TokenKind::Struct,
        "enum" => TokenKind::Enum,
        "trait" => TokenKind::Trait,
        "impl" => TokenKind::Impl,
        "fn" => TokenKind::Fn,
        "mod" => TokenKind::Mod,
        "use" => TokenKind::Use,
        "as" => TokenKind::As,
        "embed" => TokenKind::Embed,
        "let" => TokenKind::Let,
        "mut" => TokenKind::Mut,
        "if" => TokenKind::If,
        "else" => TokenKind::Else,
        "while" => TokenKind::While,
        "loop" => TokenKind::Loop,
        "for" => TokenKind::For,
        "in" => TokenKind::In,
        "parfor" => TokenKind::ParFor,
        "foreach" => TokenKind::Foreach,
        "break" => TokenKind::Break,
        "continue" => TokenKind::Continue,
        "return" => TokenKind::Return,
        "print" => TokenKind::Print,
        "exit" => TokenKind::Exit,
        "benchloop" => TokenKind::BenchLoop,
        "assert" => TokenKind::Assert,
        "panic" => TokenKind::Panic,
        "match" => TokenKind::Match,
        "true" => TokenKind::True,
        "false" => TokenKind::False,
        _ => return None,
    };
    Some(kind)
}

/// The signs, longer ones first.
fn signs() -> Vec<(&'static str, TokenKind)> {
    vec![
        ("::", TokenKind::ColonColon),
        ("..", TokenKind::DotDot),
        ("=>", TokenKind::FatArrow),
        ("==", TokenKind::EqualEqual),
        ("!=", TokenKind::BangEqual),
        ("<=", TokenKind::LessEqual),
        (">=", TokenKind::GreaterEqual),
        ("<<", TokenKind::ShiftLeft),
        (">>", TokenKind::ShiftRight),
        ("&&", TokenKind::AmpAmp),
        ("||", TokenKind::PipePipe),
        ("{", TokenKind::LBrace),
        ("}", TokenKind::RBrace),
        ("(", TokenKind::LParen),
        (")", TokenKind::RParen),
        ("[", TokenKind::LBracket),
        ("]", TokenKind::RBracket),
        (";", TokenKind::Semicolon),
        (",", TokenKind::Comma),
        (":", TokenKind::Colon),
        (".", TokenKind::Dot),
        ("=", TokenKind::Equal),
        ("!", TokenKind::Bang),
        ("<", TokenKind::Less),
        (">", TokenKind::Greater),
        ("+", TokenKind::Plus),
        ("-", TokenKind::Minus),
        ("*", TokenKind::Star),
        ("/", TokenKind::Slash),
        ("%", TokenKind::Percent),
        ("&", TokenKind::Ampersand),
        ("|", TokenKind::Pipe),
        ("^", TokenKind::Caret),
    ]
}

/// Splits a source of one line into tokens.
fn lex(source: &str) -> Result<Vec<Token>, String> {
    let chars: Vec<char> = source.chars().collect();
    let mut tokens = Vec::new();
    let mut i = 0;
    while i < chars.len() {
        let ch = chars[i];
        let start = i;
        if ch.is_whitespace() {
            i += 1;
            continue;
        }
        let kind = if ch.is_ascii_alphabetic() || ch == '_' {
            while i < chars.len() && (chars[i].is_ascii_alphanumeric() || chars[i] == '_') {
                i += 1;
            }
            let word: String = chars[start..i].iter().collect();
            keyword(&word).unwrap_or(TokenKind::Ident(word))
        } else if ch.is_ascii_digit() {
            while i < chars.len() && chars[i].is_ascii_alphanumeric() {
                i += 1;
            }
            TokenKind::Number(chars[start..i].iter().collect())
        } else if ch == '"' {
            i += 1;
            while i < chars.len() && chars[i] != '"' {
                i += 1;
            }
            i += 1;
            TokenKind::String(chars[start + 1..i - 1].iter().collect())
        } else {
            let rest: String = chars[start..].iter().collect();
            let found = signs().into_iter().find(|(sign, _)| rest.starts_with(sign));
            let Some((sign, kind)) = found else {
                return Err(format!("unexpected character {ch:?}"));
            };
            i += sign.len();
            kind
        };
        tokens.push(Token { kind, line: 1, column: start + 1, source_id: 0 });
    }
    let column = chars.len() + 1;
    tokens.push(Token { kind: TokenKind::Eof, line: 1, column, source_id: 0 });
    Ok(tokens)
}

/// A machine that knows whole numbers. It counts the parts that it has handed
/// out.
struct Machine<'a> {
    index: &'a ProgramIndex,
    threads: usize,
    parts: Cell<usize>,
}

fn refusal(message: &str, span: Span) -> Diagnostic {
    Diagnostic::type_error(message.to_string(), span)
}

fn int_of(value: &Value) -> Option<i128> {
    match value {
        Value::Int { value, .. } => Some(*value),
        Value::UInt { value, .. } => i128::try_from(*value).ok(),
        _ => None,
    }
}

fn int_as(value: i128, ty: &TypeName, span: Span) -> Result<Value, Diagnostic> {
    let fits = |bits: u16, signed: bool| {
        let half = 1i128 << (bits - 1);
        if signed { -half <= value && value < half } else { 0 <= value && value < 2 * half }
    };
    match ty {
        TypeName::Int { signed: true, bits } if fits(*bits, true) => {
            Ok(Value::Int { bits: *bits, value })
        }
        TypeName::Int { signed: false, bits } if fits(*bits, false) => {
            Ok(Value::UInt { bits: *bits, value: value as u128 })
        }
        _ => Err(refusal("number does not fit", span)),
    }
}

impl ValueOperations for Machine<'_> {
    fn coerce(&self, value: Value, ty: &TypeName, span: Span) -> Result<Value, Diagnostic> {
        match (value, ty) {
            (Value::Array { elems, .. }, TypeName::List { elem }) => {
                let elems = elems
                    .into_iter()
                    .map(|value| self.coerce(value, elem, span))
                    .collect::<Result<Vec<_>, _>>()?;
                Ok(Value::List { elem_type: (**elem).clone(), elems })
            }
            (value, ty) => match int_of(&value) {
                Some(number) if matches!(ty, TypeName::Int { .. }) => int_as(number, ty, span),
                _ => Ok(value),
            },
        }
    }

    fn type_of(&self, value: &Value) -> TypeName {
        match value {
            Value::Bool(_) => TypeName::Bool,
            Value::Str(_) => TypeName::String,
            Value::Int { bits, .. } => TypeName::Int { signed: true, bits: *bits },
            Value::UInt { bits, .. } => TypeName::Int { signed: false, bits: *bits },
            Value::Struct { name, .. } | Value::Enum { name, .. } => TypeName::Struct(name.clone()),
            Value::List { elem_type, .. } => TypeName::List { elem: Box::new(elem_type.clone()) },
            Value::Array { elem_type, elems } => TypeName::Array {
                elem: Box::new(elem_type.clone()),
                len: elems.len() as u64,
            },
            Value::Ref { mutable, inner, .. } => TypeName::Ref {
                mutable: *mutable,
                inner: Box::new(inner.clone()),
            },
            Value::Dict { key_type, value_type, .. } => TypeName::Dict {
                key: Box::new(key_type.clone()),
                value: Box::new(value_type.clone()),
            },
            other => panic!("unexpected value {other:?}"),
        }
    }

    fn number(&self, literal: &String, span: Span) -> Result<Value, Diagnostic> {
        let end = literal.find(|ch: char| !ch.is_ascii_digit()).unwrap_or(literal.len());
        let value = literal[..end].parse().map_err(|_| refusal("no number", span))?;
        let ty = match &literal[end..] {
            "u8" => TypeName::Int { signed: false, bits: 8 },
            "u64" => TypeName::Int { signed: false, bits: 64 },
            _ => TypeName::Int { signed: true, bits: 32 },
        };
        int_as(value, &ty, span)
    }

    fn negate(&self, value: Value, span: Span) -> Result<Value, Diagnostic> {
        let number = int_of(&value).ok_or_else(|| refusal("no number", span))?;
        int_as(-number, &self.type_of(&value), span)
    }

    fn invert(&self, value: Value, span: Span) -> Result<Value, Diagnostic> {
        match value {
            Value::Bool(value) => Ok(Value::Bool(!value)),
            _ => Err(refusal("no truth value", span)),
        }
    }

    fn binary(
        &self,
        op: BinaryOp,
        left: Value,
        right: Value,
        span: Span,
    ) -> Result<Value, Diagnostic> {
        let (Some(a), Some(b)) = (int_of(&left), int_of(&right)) else {
            return Err(refusal("no numbers", span));
        };
        let number = match op {
            BinaryOp::Add => a + b,
            BinaryOp::Sub => a - b,
            BinaryOp::Mul => a * b,
            BinaryOp::Eq => return Ok(Value::Bool(a == b)),
            BinaryOp::Lt => return Ok(Value::Bool(a < b)),
            BinaryOp::Le => return Ok(Value::Bool(a <= b)),
            BinaryOp::Ge => return Ok(Value::Bool(a >= b)),
            other => panic!("unexpected operator {other:?}"),
        };
        int_as(number, &self.type_of(&left), span)
    }

    fn borrow(
        &self,
        expr: &Expr,
        env: Env,
        mutable: bool,
        span: Span,
    ) -> (Result<Value, Diagnostic>, Env) {
        let reference = match expr {
            Expr::Ident { name, .. } => match env.get(name) {
                Some(binding) => Ok(Value::Ref {
                    target: name.clone(),
                    mutable,
                    inner: binding.ty.clone(),
                }),
                None => Err(refusal("nothing to lend", span)),
            },
            _ => Err(refusal("nothing to lend", span)),
        };
        (reference, env)
    }

    fn release(&self, _popped: Vec<Bound>, env: Env) -> (Result<(), Diagnostic>, Env) {
        (Ok(()), env)
    }

    fn resolve(&self, value: Value, env: &Env, span: Span) -> Result<Value, Diagnostic> {
        match value {
            Value::Ref { target, .. } => match env.get(&target) {
                Some(binding) => Ok(binding.value.clone()),
                None => Err(refusal("lost", span)),
            },
            other => Ok(other),
        }
    }

    fn call_method(
        &self,
        receiver: Value,
        name: &String,
        args: &Vec<Value>,
        env: Env,
        span: Span,
    ) -> (Result<Value, Diagnostic>, Env) {
        let value = match (&receiver, name.as_str(), args.len()) {
            (Value::List { elems, .. }, "len", 0) => {
                Ok(Value::UInt { bits: 64, value: elems.len() as u128 })
            }
            _ => Err(refusal("unknown method", span)),
        };
        (value, env)
    }

    fn key_text(&self, value: Value, _ty: &TypeName, span: Span) -> Result<String, Diagnostic> {
        self.plain_key_text(&value, span)
    }

    fn plain_key_text(&self, value: &Value, span: Span) -> Result<String, Diagnostic> {
        self.message_text(value.clone(), span)
    }

    fn message_text(&self, value: Value, span: Span) -> Result<String, Diagnostic> {
        match value {
            Value::Str(text) => Ok(text),
            other => match int_of(&other) {
                Some(number) => Ok(number.to_string()),
                None => Err(refusal("no text", span)),
            },
        }
    }

    fn capacity(&self, value: Value, _span: Span) -> Result<bool, Diagnostic> {
        Ok(int_of(&value).is_some_and(|number| number >= 0))
    }

    fn shown(&self, printed: Printed) -> String {
        format!("{printed:?}")
    }

    fn sort(
        &self,
        mut values: Vec<Value>,
        _radix: bool,
        _stable: bool,
        comparator: Option<String>,
        env: &Env,
        span: Span,
    ) -> Result<Vec<Value>, Failure> {
        let Some(name) = comparator else {
            values.sort_by_key(int_of);
            return Ok(values);
        };
        for end in (1..values.len()).rev() {
            for i in 0..end {
                let at = find_comparator(self.index, &name, span).map_err(Failure::of)?;
                let args = vec![values[i + 1].clone(), values[i].clone()];
                let result = self.call(at, args, env.clone())?;
                if comparator_value(result, span).map_err(Failure::of)? {
                    values.swap(i, i + 1);
                }
            }
        }
        Ok(values)
    }

    fn call(&self, at: usize, args: Vec<Value>, env: Env) -> Result<CallResult, Failure> {
        let function = &self.index.functions[at];
        exec_function(self, self.index, self.threads, 0, function, &args, State::start(env)).0
    }

    fn parallel(
        &self,
        calls: usize,
        name: &String,
        body: &Vec<Stmt>,
        rounds: &Vec<Value>,
        state: &State,
        span: Span,
    ) -> Result<Vec<LoweredStmt>, Failure> {
        let mut lowered = Vec::new();
        for (start, end) in split_rounds(rounds.len(), self.threads) {
            self.parts.set(self.parts.get() + 1);
            let part = rounds[start..end].to_vec();
            let more =
                exec_rounds(self, self.index, self.threads, calls, name, body, &part, state, span)?;
            lowered.extend(more);
        }
        Ok(lowered)
    }

    fn reduce(
        &self,
        name: &String,
        reduction: &ParForReduction,
        ty: &TypeName,
        rounds: &Vec<Value>,
        env: &Env,
        span: Span,
    ) -> Result<Option<Value>, Failure> {
        let mut parts = Vec::new();
        for (start, end) in split_rounds(rounds.len(), self.threads) {
            self.parts.set(self.parts.get() + 1);
            let part = rounds[start..end].to_vec();
            parts.push(reduce_rounds(self, self.index, name, reduction, ty, &part, env, span)?);
        }
        combine_parts(self, reduction.op, &parts, span)
    }
}

/// What a program prints and the code that it leaves with, and how many parts
/// were handed out.
fn run_on(source: &str, threads: usize) -> (Result<Vec<LoweredStmt>, Failure>, usize) {
    let program = parse(&lex(source).expect("lex failed")).expect("parse failed");
    let index = index_program(&program).expect("the program is accepted");
    let at = find_function(&index.functions, &"main".to_string()).expect("a main function");
    let machine = Machine { index: &index, threads, parts: Cell::new(0) };
    let result = run_main(&machine, &index, threads, &index.functions[at]);
    (result, machine.parts.get())
}

fn run(source: &str) -> Vec<LoweredStmt> {
    run_on(source, 1).0.expect("the program runs")
}

fn fails(source: &str) -> Failure {
    run_on(source, 1).0.expect_err("the program fails")
}

fn prints(texts: &[&str]) -> Vec<LoweredStmt> {
    texts.iter().map(|text| LoweredStmt::Print(text.to_string())).collect()
}

#[test]
fn loops_run_to_their_end() {
    let source = "fn main() { let mut i: u8 = 0u8; while i < 3u8 { print(i); i = i + 1u8; } \
                  loop { i = i + 1u8; if i == 5u8 { continue; } if i == 7u8 { break; } print(i); } \
                  for j in 1u8..3u8 { print(j); } \
                  foreach v in [8u8, 9u8] { print(v); } }";
    assert_eq!(run(source), prints(&["0", "1", "2", "4", "6", "1", "2", "8", "9"]));
}

#[test]
fn exit_ends_a_program() {
    let source = "fn stop() { print(1u8); exit(4u8); } fn main() { stop(); print(2u8); }";
    let mut expected = prints(&["1"]);
    expected.push(LoweredStmt::Exit(4));
    assert_eq!(run(source), expected);
    let bench = "fn main() { benchloop(9u64); print(2u8); }";
    assert_eq!(run(bench), [LoweredStmt::RuntimeBenchLoop { iterations: 9 }]);
}

#[test]
fn calls_give_values_back() {
    let source = "fn twice(n: u8) -> u8 { return n + n; } \
                  fn main() { let x: u8 = twice(twice(3u8)); print(x); }";
    assert_eq!(run(source), prints(&["12"]));
}

#[test]
fn blocks_hide_names() {
    let source = "fn main() { let mut x: u8 = 1u8; { let x: u8 = 2u8; print(x); } \
                  if x == 1u8 { x = 3u8; } else { x = 4u8; } print(x); }";
    assert_eq!(run(source), prints(&["2", "3"]));
}

#[test]
fn logical_operators_leave_the_right_side_alone() {
    let source = "fn main() { let y: u8 = 1u8; if y == 2u8 && y == true { print(1u8); } \
                  if y == 1u8 || y == true { print(2u8); } if !(y == 1u8) { print(3u8); } }";
    assert_eq!(run(source), prints(&["2"]));
}

#[test]
fn structs_are_made_and_changed() {
    let source = "struct P { x: u8; y: u8; } \
                  impl P { fn sum(self: &Self) -> u8 { return self.x + self.y; } \
                  fn put(self: &mut Self, n: u8) { self.x = n; } } \
                  fn main() { let mut p: P = P { y: 2u8, x: 1u8 }; print(p.sum()); \
                  p.put(5u8); print(p.x); p.y = 7u8; print(p.sum()); }";
    assert_eq!(run(source), prints(&["3", "5", "12"]));
}

#[test]
fn lists_are_changed() {
    let source = "fn more(a: u8, b: u8) -> bool { return b < a; } \
                  fn main() { let mut v: list<u8> = [3u8]; v.push(1u8); v.push(2u8); v[0u8] = 9u8; \
                  print(v.len()); v.pop(); foreach e in v { print(e); } v.clear(); print(v.len()); \
                  let mut a: [u8; 3] = [2u8, 3u8, 1u8]; a.sort(); foreach e in a { print(e); } \
                  a.sort_by(more); foreach e in a { print(e); } }";
    let expected = ["3", "9", "1", "0", "1", "2", "3", "3", "2", "1"];
    assert_eq!(run(source), prints(&expected));
}

#[test]
fn dictionaries_are_changed() {
    let source = "fn main() { let mut d: dict<string, u8> = {\"b\": 1u8, \"a\": 2u8}; \
                  d[\"c\"] = 3u8; d.remove(\"b\"); foreach k in d { print(k); print(d[k]); } }";
    assert_eq!(run(source), prints(&["a", "2", "c", "3"]));
}

#[test]
fn matches_take_an_arm() {
    let source = "enum E { A, B(u8), C { x: u8; } } \
                  fn val(e: E) -> u8 { return match e { E::A => 1u8, E::B(n) => n + 1u8, _ => 9u8 }; } \
                  fn main() { let a: E = E::A; let b: E = E::B(4u8); let c: E = E::C { x: 2u8 }; \
                  print(val(a)); print(val(b)); print(val(c)); }";
    assert_eq!(run(source), prints(&["1", "5", "9"]));
}

#[test]
fn parallel_loops_do_not_depend_on_threads() {
    let source = "fn main() { let mut total: u64 = 0u64; let mut least: u64 = 9u64; \
                  parfor i in 0u64..200u64 { print(i); if i == 3u64 { continue; } print(1u8); } \
                  parfor i in 1u64..101u64 reduce sum into total { i * 2u64 }; print(total); \
                  parfor i in 5u64..105u64 reduce min into least { i }; print(least); \
                  parfor i in 0u64..3u64 { print(i); } }";
    let (alone, none) = run_on(source, 1);
    assert_eq!(none, 0);
    let alone = alone.expect("the program runs");
    assert_eq!(alone.last(), Some(&LoweredStmt::Print("2".to_string())));
    assert!(alone.contains(&LoweredStmt::Print("10100".to_string())));
    for threads in [2, 3, 7, 64] {
        let (shared, parts) = run_on(source, threads);
        assert_eq!(shared.expect("the program runs"), alone);
        assert!(parts >= 2 * threads.min(50));
    }
}

#[test]
fn a_failure_says_where_it_came_up() {
    let failure = fails("fn f() { panic(\"no\"); } fn main() { if true { f(); } }");
    assert_eq!(failure.error.message, "panic: no");
    let notes = [
        "statement::panic",
        "statement::panic at 1:10",
        "in function 'f'",
        "statement::call at 1:47",
        "statement::if at 1:37",
        "in function 'main'",
    ];
    assert_eq!(failure.notes, notes);
}

#[test]
fn programs_that_go_wrong_are_stopped() {
    let message = |body: &str| fails(&format!("fn main() {{ {body} }}")).error.message;
    assert_eq!(message("loop { }"), "loop limit exceeded");
    assert_eq!(message("break;"), "break used outside loop");
    assert_eq!(message("let x: u8 = 1u8; x = 2u8;"), "cannot assign to immutable 'x'");
    assert_eq!(message("let x: u8 = 300;"), "number does not fit");
    assert_eq!(message("let x: u8 = 1u8; let x: u8 = 2u8;"), "redefinition of 'x'");
    assert_eq!(message("assert(1u8 == 2u8, \"odd\");"), "assertion failed: odd");
    assert_eq!(message("assert(1u8 == 2u8);"), "assertion failed");
    assert_eq!(message("return 1u8;"), "function 'main' cannot return a value");
    assert_eq!(message("parfor i in 0u8..2u8 { break; }"), "break is not allowed inside parfor body");
    assert_eq!(message("if 1u8 { }"), "if condition must be bool");
    assert_eq!(message("f();"), "unknown function 'f'");
    let endless = fails("fn f() { f(); } fn main() { f(); }").error.message;
    assert_eq!(endless, "call depth exceeded maximum of 256 (possible recursion cycle)");
}

#[test]
fn the_interpreter_runs_what_nothing_else_lowers() {
    let source = "fn main() { print(6u8 * 7u8); }";
    let program = parse(&lex(source).expect("lex failed")).expect("parse failed");
    let lowered = lower_program(
        &program,
        &|_kernel: Kernel, _main: &aziky::ast::Function| Ok(None),
        &|_main: &aziky::ast::Function, _index: &ProgramIndex| {
            Ok(RuntimeGenericAttempt::Fallback { reason: String::new() })
        },
        &|main: &aziky::ast::Function, index: &ProgramIndex| {
            let machine = Machine { index, threads: 1, parts: Cell::new(0) };
            run_main(&machine, index, 1, main)
        },
    );
    assert_eq!(lowered.expect("lowered"), prints(&["42"]));
}

#[test]
fn what_nothing_lowers_is_run_with_its_notes() {
    let lower = |source: &str| {
        let program = parse(&lex(source).expect("lex failed")).expect("parse failed");
        let index = index_program(&program).expect("the program is accepted");
        let machine = Machine { index: &index, threads: 1, parts: Cell::new(0) };
        lower_indexed(
            &index,
            &|_kernel: Kernel, _main: &aziky::ast::Function| Ok(None),
            &|_main: &aziky::ast::Function, _index: &ProgramIndex| {
                Ok(RuntimeGenericAttempt::Fallback { reason: String::new() })
            },
            &machine,
            1,
        )
    };
    assert_eq!(lower("fn main() { print(6u8 * 7u8); }").expect("lowered"), prints(&["42"]));
    let failure = lower("fn main() { panic(\"no\"); }").expect_err("it fails");
    assert_eq!(failure.error.message, "panic: no");
    assert_eq!(
        failure.notes,
        ["statement::panic", "statement::panic at 1:13", "in function 'main'"]
    );
    let missing = lower("fn other() { }").expect_err("there is no main function");
    assert_eq!(missing.error.message, "missing fn main()");
}

#[test]
fn a_loop_that_fails_before_its_rounds_is_not_entered() {
    let source = "fn main() { for i in 0u8..true { print(i); } }";
    let program = parse(&lex(source).expect("lex failed")).expect("parse failed");
    let index = index_program(&program).expect("the program is accepted");
    let machine = Machine { index: &index, threads: 1, parts: Cell::new(0) };
    let state = State::start(Env::new());
    let (outcome, end) = exec_stmt(&machine, &index, 1, 0, &index.functions[0].body[0], state);
    assert!(outcome.is_err());
    assert_eq!(end.loop_depth, 0);
}

#[test]
fn statements_leave_the_run_as_deep_as_it_was() {
    let source = "fn main() { let mut i = 0u8; while i < 9u8 { i = i + 1u8; if i == 4u8 { break; } \
        print(i); } for k in 0u8..2u8 { print(k); continue; } }";
    let program = parse(&lex(source).expect("lex failed")).expect("parse failed");
    let index = index_program(&program).expect("the program is accepted");
    let machine = Machine { index: &index, threads: 1, parts: Cell::new(0) };
    let mut env = Env::new();
    env.push();
    let mut state = State::start(env);
    state.lowered = prints(&["before"]);
    for stmt in &index.functions[0].body {
        let (outcome, end) = exec_stmt(&machine, &index, 1, 0, stmt, state);
        assert!(outcome.is_ok());
        state = end;
        assert_eq!(state.loop_depth, 0);
    }
    assert_eq!(state.lowered, prints(&["before", "1", "2", "3", "0", "1"]));
}

#[test]
fn results_of_parts_are_put_together_from_the_left() {
    let program = parse(&lex("fn main() { }").expect("lex failed")).expect("parse failed");
    let index = index_program(&program).expect("the program is accepted");
    let machine = Machine { index: &index, threads: 1, parts: Cell::new(0) };
    let span = index.functions[0].span;
    let value = |text: &str| machine.number(&text.to_string(), span).expect("a number");
    let sum = |parts: &Vec<Option<Value>>| {
        combine_parts(&machine, ReductionOp::Sum, parts, span).map_err(|failure| failure.error)
    };
    assert_eq!(sum(&vec![]), Ok(None));
    assert_eq!(sum(&vec![None, None]), Ok(None));
    assert_eq!(sum(&vec![Some(value("2u8")), None, Some(value("5u8"))]), Ok(Some(value("7u8"))));
    assert!(sum(&vec![Some(value("2u8")), Some(Value::Bool(true))]).is_err());
}

#[test]
fn calls_inside_of_calls_end_at_a_limit() {
    let failure = fails("fn f() { f(); } fn main() { f(); }");
    assert_eq!(
        failure.error.message,
        "call depth exceeded maximum of 256 (possible recursion cycle)"
    );
}
