//! What statements and expressions come to once their parts have values.

use aziky::ast::{BinaryOp, Expr, Function, MatchArm, ReductionOp, Span, Stmt, TypeName};
use aziky::diagnostic::Diagnostic;
use aziky::parser::items::parse;
use aziky::semantics::containers::{
    assign_element, assign_entry, assign_map_entry, element_index, plan_field_element,
    plan_index_assignment, IndexPlan,
};
use aziky::semantics::dispatch::{
    find_method_read, find_method_statement, method_candidate_function_names,
};
use aziky::semantics::environment::{Binding, Env};
use aziky::semantics::expressions::{
    call_value, check_new_field, comparator_value, field_to_fill, find_called, find_callee,
    find_comparator, find_layout_to_fill, logical_left, logical_right, make_array, make_struct,
    read_entry, read_field, read_index, read_variable, CallResult, IndexRead,
};
use aziky::semantics::flow::{
    after_body, assert_condition, assertion_failure, break_flow, check_argument_count,
    check_call_depth, check_parallel_flow, coerce_for_range, continue_flow, count_round,
    enter_round, finish_call, for_range_values, function_note, if_condition, is_handed_out,
    next_in_range, panic_failure, range_end_type, split_rounds, while_condition, CallStep, Flow,
    ForRange, LoopStep, LOOP_LIMIT,
};
use aziky::semantics::generics::{
    infer_generic_type_bindings, instantiate_generic_type, Inferred,
};
use aziky::semantics::index::ProgramIndex;
use aziky::semantics::matching::{bind_enum_match_pattern, select_arm};
use aziky::semantics::methods::{
    clear_map, comparator_argument, edit_field, edit_named, plan_field_method, plan_method,
    remove_key, Edit, MethodPlan,
};
use aziky::semantics::names::find_function;
use aziky::semantics::outputs::{bench_rounds, exit_code, foreach_items, print_output, Printed};
use aziky::semantics::program::index_program;
use aziky::semantics::reductions::{combine_reduction, ensure_reduction_type, finish_reduction};
use aziky::semantics::spans::{expr_span, statement_note, stmt_kind_name};
use aziky::semantics::statements::{
    assign, assign_field, assignment_type, check_assignable, check_inferred, check_mutable,
    check_new_name, declare, field_target, field_type,
};
use aziky::semantics::values::{EnumPayloadValue, NamedValue, Value};
use aziky::semantics::variants::{
    check_new_key, check_payload_complete, check_payload_field, check_value_type,
    find_named_variant, find_tuple_variant, infer_targets, make_dict, make_unit_variant,
};
use aziky::token::{Token, TokenKind};

/// The keyword that a word is, if it is one.
fn keyword(word: &str) -> Option<TokenKind> {
    let kind = match word {
        "pub" => TokenKind::Pub,
        "struct" => TokenKind::Struct,
        "enum" => TokenKind::Enum,
        "trait" => TokenKind::Trait,
        "impl" => TokenKind::Impl,
        "fn" => TokenKind::Fn,
        "mod" => TokenKind::Mod,
        "use" => TokenKind::Use,
        "as" => TokenKind::As,
        "embed" => TokenKind::Embed,
        "let" => TokenKind::Let,
        "mut" => TokenKind::Mut,
        "if" => TokenKind::If,
        "else" => TokenKind::Else,
        "while" => TokenKind::While,
        "loop" => TokenKind::Loop,
        "for" => TokenKind::For,
        "in" => TokenKind::In,
        "parfor" => TokenKind::ParFor,
        "foreach" => TokenKind::Foreach,
        "break" => TokenKind::Break,
        "continue" => TokenKind::Continue,
        "return" => TokenKind::Return,
        "print" => TokenKind::Print,
        "exit" => TokenKind::Exit,
        "benchloop" => TokenKind::BenchLoop,
        "assert" => TokenKind::Assert,
        "panic" => TokenKind::Panic,
        "match" => TokenKind::Match,
        "true" => TokenKind::True,
        "false" => TokenKind::False,
        _ => return None,
    };
    Some(kind)
}

/// The signs, longer ones first.
fn signs() -> Vec<(&'static str, TokenKind)> {
    vec![
        ("::", TokenKind::ColonColon),
        ("..", TokenKind::DotDot),
        ("=>", TokenKind::FatArrow),
        ("==", TokenKind::EqualEqual),
        ("!=", TokenKind::BangEqual),
        ("<=", TokenKind::LessEqual),
        (">=", TokenKind::GreaterEqual),
        ("<<", TokenKind::ShiftLeft),
        (">>", TokenKind::ShiftRight),
        ("&&", TokenKind::AmpAmp),
        ("||", TokenKind::PipePipe),
        ("{", TokenKind::LBrace),
        ("}", TokenKind::RBrace),
        ("(", TokenKind::LParen),
        (")", TokenKind::RParen),
        ("[", TokenKind::LBracket),
        ("]", TokenKind::RBracket),
        (";", TokenKind::Semicolon),
        (",", TokenKind::Comma),
        (":", TokenKind::Colon),
        (".", TokenKind::Dot),
        ("=", TokenKind::Equal),
        ("!", TokenKind::Bang),
        ("<", TokenKind::Less),
        (">", TokenKind::Greater),
        ("+", TokenKind::Plus),
        ("-", TokenKind::Minus),
        ("*", TokenKind::Star),
        ("/", TokenKind::Slash),
        ("%", TokenKind::Percent),
        ("&", TokenKind::Ampersand),
        ("|", TokenKind::Pipe),
        ("^", TokenKind::Caret),
    ]
}

/// Splits a source of one line into tokens.
fn lex(source: &str) -> Result<Vec<Token>, String> {
    let chars: Vec<char> = source.chars().collect();
    let mut tokens = Vec::new();
    let mut i = 0;
    while i < chars.len() {
        let ch = chars[i];
        let start = i;
        if ch.is_whitespace() {
            i += 1;
            continue;
        }
        let kind = if ch.is_ascii_alphabetic() || ch == '_' {
            while i < chars.len() && (chars[i].is_ascii_alphanumeric() || chars[i] == '_') {
                i += 1;
            }
            let word: String = chars[start..i].iter().collect();
            keyword(&word).unwrap_or(TokenKind::Ident(word))
        } else if ch.is_ascii_digit() {
            while i < chars.len() && chars[i].is_ascii_alphanumeric() {
                i += 1;
            }
            TokenKind::Number(chars[start..i].iter().collect())
        } else if ch == '"' {
            i += 1;
            while i < chars.len() && chars[i] != '"' {
                i += 1;
            }
            i += 1;
            TokenKind::String(chars[start + 1..i - 1].iter().collect())
        } else {
            let rest: String = chars[start..].iter().collect();
            let found = signs().into_iter().find(|(sign, _)| rest.starts_with(sign));
            let Some((sign, kind)) = found else {
                return Err(format!("unexpected character {ch:?}"));
            };
            i += sign.len();
            kind
        };
        tokens.push(Token { kind, line: 1, column: start + 1, source_id: 0 });
    }
    let column = chars.len() + 1;
    tokens.push(Token { kind: TokenKind::Eof, line: 1, column, source_id: 0 });
    Ok(tokens)
}

const HERE: Span = Span { line: 3, column: 7, source_id: 0 };

fn text(value: &str) -> String {
    value.to_string()
}

fn word(value: u128) -> Value {
    Value::UInt { bits: 64, value }
}

fn signed(value: i128) -> Value {
    Value::Int { bits: 32, value }
}

fn word_type() -> TypeName {
    TypeName::Int { signed: false, bits: 64 }
}

fn named(name: &str, value: Value) -> NamedValue {
    NamedValue { name: text(name), value }
}

fn list(values: Vec<Value>) -> Value {
    Value::List { elem_type: word_type(), elems: values }
}

fn list_type() -> TypeName {
    TypeName::List { elem: Box::new(word_type()) }
}

fn array(values: Vec<Value>) -> Value {
    Value::Array { elem_type: word_type(), elems: values }
}

fn array_type(len: u64) -> TypeName {
    TypeName::Array { elem: Box::new(word_type()), len }
}

fn env_with(name: &str, value: Value, ty: TypeName, mutable: bool) -> Env {
    let mut env = Env::new();
    declare(&mut env, &text(name), mutable, ty, value);
    env
}

fn value_in<'a>(env: &'a Env, name: &str) -> &'a Value {
    &env.get(&text(name)).expect("the name is known").value
}

fn index(source: &str) -> ProgramIndex {
    let program = parse(&lex(source).expect("lex failed")).expect("parse failed");
    index_program(&program).expect("the program is accepted")
}

fn function<'a>(index: &'a ProgramIndex, name: &str) -> &'a Function {
    &index.functions[find_function(&index.functions, &text(name)).expect("the function")]
}

fn message<T: std::fmt::Debug>(result: Result<T, Diagnostic>) -> String {
    result.expect_err("refused").message
}

#[test]
fn inner_scopes_hide_outer_ones() {
    let mut env = env_with("x", word(1), word_type(), true);
    env.push();
    assert_eq!(value_in(&env, "x"), &word(1));
    env.insert(text("x"), Binding::fresh(word(2), word_type(), false));
    env.insert(text("y"), Binding::fresh(word(3), word_type(), false));
    assert_eq!(value_in(&env, "x"), &word(2));
    let copy = env.clone();
    let popped = env.pop();
    assert_eq!(popped.len(), 2);
    assert_eq!(value_in(&env, "x"), &word(1));
    assert!(env.get(&text("y")).is_none());
    assert_eq!(value_in(&copy, "x"), &word(2));
}

#[test]
fn the_last_scope_can_be_closed() {
    let mut env = Env::new();
    assert!(env.pop().is_empty());
    assert!(env.pop().is_empty());
    env.insert(text("x"), Binding::fresh(word(1), word_type(), false));
    assert!(env.get(&text("x")).is_none());
    assert!(!env.current_scope_contains(&text("x")));
}

#[test]
fn a_name_is_declared_once_in_a_scope() {
    let mut env = env_with("x", word(1), word_type(), false);
    assert_eq!(
        message(check_new_name(&env, &text("x"), HERE)),
        "redefinition of 'x'"
    );
    env.push();
    assert!(check_new_name(&env, &text("x"), HERE).is_ok());
}

#[test]
fn assignments_need_a_mutable_name() {
    let mut env = env_with("x", word(1), word_type(), true);
    declare(&mut env, &text("y"), false, word_type(), word(1));
    assert_eq!(assignment_type(&env, &text("x"), HERE).expect("mutable"), word_type());
    assert_eq!(
        message(assignment_type(&env, &text("y"), HERE)),
        "cannot assign to immutable 'y'"
    );
    assert_eq!(
        message(check_assignable(&env, &text("z"), HERE)),
        "unknown identifier 'z'"
    );
    assert_eq!(
        message(check_mutable(&env, &text("y"), HERE)),
        "cannot mutate immutable 'y'"
    );
    assign(&mut env, &text("x"), word(5), HERE).expect("known");
    assert_eq!(value_in(&env, "x"), &word(5));
    assert_eq!(
        message(assign(&mut env, &text("z"), word(5), HERE)),
        "unknown identifier 'z'"
    );
}

#[test]
fn open_type_arguments_need_a_type() {
    let open = Value::Array { elem_type: TypeName::Struct(text("_")), elems: Vec::new() };
    assert_eq!(
        message(check_inferred(&open, HERE)),
        "cannot infer every generic type argument; add an explicit type annotation"
    );
    let none = Value::Enum {
        name: text("Option"),
        variant: text("None"),
        type_args: vec![None],
        payload: EnumPayloadValue::Unit,
    };
    let inside = Value::Struct { name: text("S"), fields: vec![named("a", none)] };
    assert!(check_inferred(&inside, HERE).is_err());
    assert!(check_inferred(&list(vec![word(1)]), HERE).is_ok());
}

fn point(x: u128) -> Value {
    Value::Struct { name: text("P"), fields: vec![named("x", word(x))] }
}

#[test]
fn fields_are_assigned_through_names_and_references() {
    let index = index("struct P { x: u64; } fn main() { }");
    let ty = TypeName::Struct(text("P"));
    let mut env = env_with("p", point(1), ty.clone(), true);
    let reference = |mutable: bool| Value::Ref {
        target: text("p"),
        mutable,
        inner: TypeName::Struct(text("P")),
    };
    let reference_type = |mutable: bool| TypeName::Ref {
        mutable,
        inner: Box::new(TypeName::Struct(text("P"))),
    };
    declare(&mut env, &text("r"), false, reference_type(true), reference(true));
    declare(&mut env, &text("s"), false, reference_type(false), reference(false));
    declare(&mut env, &text("q"), false, ty, point(2));
    declare(&mut env, &text("n"), true, word_type(), word(2));
    let target = |env: &Env, name: &str| field_target(env, &text(name), HERE);
    assert_eq!(target(&env, "p").expect("struct"), (text("P"), text("p")));
    assert_eq!(target(&env, "r").expect("reference"), (text("P"), text("p")));
    assert_eq!(message(target(&env, "q")), "cannot assign to immutable 'q'");
    assert_eq!(message(target(&env, "s")), "cannot assign through shared reference 's'");
    assert_eq!(message(target(&env, "n")), "field assignment on non-struct value");
    let field = |name: &str| field_type(&index, &text("P"), &text(name), HERE);
    assert_eq!(field("x").expect("field"), word_type());
    assert_eq!(message(field("y")), "unknown field 'y'");
    assign_field(&mut env, &text("p"), &text("x"), word(9), HERE).expect("field");
    assert_eq!(value_in(&env, "p"), &point(9));
    let missing = assign_field(&mut env, &text("p"), &text("y"), word(1), HERE);
    assert_eq!(message(missing), "unknown field 'y'");
    assert_eq!(value_in(&env, "p"), &point(9));
}

#[test]
fn indexes_are_numbers_in_range() {
    assert_eq!(element_index(&word(4), HERE).expect("index"), 4);
    assert_eq!(element_index(&signed(4), HERE).expect("index"), 4);
    assert_eq!(message(element_index(&signed(-1), HERE)), "index must be non-negative");
    assert_eq!(message(element_index(&word(u128::MAX), HERE)), "index out of bounds");
    assert_eq!(message(element_index(&Value::Bool(true), HERE)), "index must be integer");
}

#[test]
fn elements_are_assigned() {
    let mut env = env_with("a", array(vec![word(1), word(2)]), array_type(2), true);
    let plan = plan_index_assignment(&env, &text("a"), &word(1), HERE).expect("in range");
    assert_eq!(plan, IndexPlan::Element { at: 1, elem: word_type() });
    assert_eq!(
        message(plan_index_assignment(&env, &text("a"), &word(2), HERE)),
        "index out of bounds"
    );
    assign_element(&mut env, &text("a"), 1, word(7), word_type(), HERE).expect("in range");
    assert_eq!(value_in(&env, "a"), &array(vec![word(1), word(7)]));
    let far = assign_element(&mut env, &text("a"), 2, word(7), word_type(), HERE);
    assert_eq!(message(far), "index out of bounds");
}

#[test]
fn entries_stand_in_the_order_of_their_keys() {
    let dict = make_dict(Vec::new(), None);
    let ty = TypeName::Dict { key: Box::new(TypeName::String), value: Box::new(word_type()) };
    let mut env = env_with("d", dict, ty, true);
    let plan = plan_index_assignment(&env, &text("d"), &Value::Str(text("k")), HERE);
    assert!(matches!(plan, Ok(IndexPlan::Entry { .. })));
    for (key, value) in [("b", 1), ("a", 2), ("c", 3), ("b", 4)] {
        assign_entry(
            &mut env,
            &text("d"),
            &text(key),
            word(value),
            TypeName::String,
            word_type(),
            HERE,
        )
        .expect("a dictionary");
    }
    let (keys, ty) = foreach_items(value_in(&env, "d"), HERE).expect("a dictionary");
    assert_eq!(keys, ["a", "b", "c"].map(|key| Value::Str(text(key))));
    assert_eq!(ty, TypeName::String);
    assert_eq!(read_entry(value_in(&env, "d"), &text("b"), HERE).expect("there"), word(4));
    remove_key(&mut env, &text("d"), &text("b"), HERE).expect("a dictionary");
    assert_eq!(
        message(read_entry(value_in(&env, "d"), &text("b"), HERE)),
        "unknown dictionary key"
    );
}

#[test]
fn maps_keep_their_keys() {
    let empty = Value::Mapping {
        key_type: word_type(),
        value_type: word_type(),
        entries: Vec::new(),
        keys: Vec::new(),
    };
    let ty = TypeName::Mapping { key: Box::new(word_type()), value: Box::new(word_type()) };
    let mut env = env_with("m", empty, ty, true);
    for (key, value) in [(10, 1), (2, 2)] {
        assign_map_entry(
            &mut env,
            &text("m"),
            &key.to_string(),
            word(key),
            word(value),
            word_type(),
            word_type(),
            HERE,
        )
        .expect("a map");
    }
    let (keys, ty) = foreach_items(value_in(&env, "m"), HERE).expect("a map");
    assert_eq!(keys, [word(10), word(2)]);
    assert_eq!(ty, word_type());
    remove_key(&mut env, &text("m"), &text("10"), HERE).expect("a map");
    assert_eq!(foreach_items(value_in(&env, "m"), HERE).expect("a map").0, [word(2)]);
    clear_map(&mut env, &text("m"), HERE).expect("a map");
    assert!(foreach_items(value_in(&env, "m"), HERE).expect("a map").0.is_empty());
}

fn holder() -> Env {
    let fields = vec![named("items", list(vec![word(1)])), named("n", word(1))];
    let value = Value::Struct { name: text("H"), fields };
    env_with("h", value, TypeName::Struct(text("H")), true)
}

#[test]
fn lists_in_fields_are_changed() {
    let mut env = holder();
    let plan = |env: &Env, field: &str, at: Value| {
        plan_field_element(env, &text("h"), &text(field), &at, HERE)
    };
    assert_eq!(plan(&env, "items", word(0)).expect("in range"), (0, word_type()));
    assert_eq!(message(plan(&env, "items", word(1))), "index out of bounds");
    assert_eq!(message(plan(&env, "n", word(0))), "indexed struct field must be a list");
    let edits = [
        Edit::Put { at: 0, value: word(8) },
        Edit::Push(word(9)),
        Edit::Push(word(10)),
        Edit::Pop,
    ];
    for edit in edits {
        edit_field(&mut env, &text("h"), &text("items"), edit, "no list", HERE).expect("a list");
    }
    let held = read_field(value_in(&env, "h"), &text("items"), HERE).expect("a field");
    assert_eq!(held, list(vec![word(8), word(9)]));
    let refused = edit_field(&mut env, &text("h"), &text("n"), Edit::Pop, "no list", HERE);
    assert_eq!(message(refused), "no list");
}

#[test]
fn methods_of_lists_in_fields_are_planned() {
    let env = holder();
    let plan = |field: &str, name: &str, given: usize| {
        plan_field_method(&env, &text("h"), &text(field), &text(name), given, HERE)
    };
    assert_eq!(plan("items", "push", 1).expect("push"), MethodPlan::Push { elem: word_type() });
    assert_eq!(message(plan("items", "push", 2)), "push() expects exactly one argument");
    assert_eq!(message(plan("items", "pop", 1)), "pop() expects no arguments");
    assert_eq!(message(plan("items", "sort", 0)), "unknown mutable list-field method");
    assert_eq!(message(plan("n", "pop", 0)), "mutated struct field must be a list");
}

#[test]
fn methods_of_arrays_are_planned() {
    let env = env_with("a", array(Vec::new()), array_type(0), true);
    let plan = |name: &str, args: Vec<Value>| {
        plan_method(&env, &text("a"), &text(name), &args, HERE)
    };
    let sort = |radix: bool, stable: bool, comparator: Option<&str>| MethodPlan::Sort {
        radix,
        stable,
        comparator: comparator.map(text),
    };
    assert_eq!(plan("sort", vec![]).expect("sort"), sort(false, false, None));
    assert_eq!(plan("sort_stable", vec![]).expect("sort"), sort(false, true, None));
    assert_eq!(plan("sort_radix_stable", vec![]).expect("sort"), sort(true, true, None));
    let by = plan("sort_by", vec![Value::Str(text("less"))]).expect("sort");
    assert_eq!(by, sort(false, false, Some("less")));
    assert_eq!(message(plan("sort", vec![word(1)])), "sort() expects no arguments");
    assert_eq!(
        message(plan("sort_by", vec![word(1)])),
        "sort_by() expects comparator function name (identifier or string)"
    );
    assert_eq!(
        message(plan("sort_by", vec![])),
        "sort_by() expects one comparator function argument"
    );
    assert_eq!(message(plan("pop", vec![])), "cannot pop() from empty array");
    assert_eq!(message(plan("clear", vec![])), "unknown mutable array method 'clear()'");
}

#[test]
fn methods_of_lists_are_planned_and_done() {
    let mut env = env_with("v", list(vec![word(1)]), list_type(), true);
    let plan = |env: &Env, name: &str, args: Vec<Value>| {
        plan_method(env, &text("v"), &text(name), &args, HERE)
    };
    assert_eq!(plan(&env, "reserve", vec![word(1)]).expect("reserve"), MethodPlan::Reserve);
    assert_eq!(
        message(plan(&env, "reserve", vec![])),
        "reserve() expects exactly one additional-capacity argument"
    );
    assert_eq!(
        message(plan(&env, "shrink_to", vec![])),
        "shrink_to() expects exactly one minimum-capacity argument"
    );
    assert_eq!(message(plan(&env, "sort", vec![])), "unknown mutable list method 'sort()'");
    edit_named(&mut env, &text("v"), Edit::Push(word(2)), Some(word_type()), HERE).expect("list");
    assert_eq!(value_in(&env, "v"), &list(vec![word(1), word(2)]));
    edit_named(&mut env, &text("v"), Edit::Clear, None, HERE).expect("list");
    assert_eq!(message(plan(&env, "pop", vec![])), "cannot pop() from empty list");
}

#[test]
fn methods_of_other_values_are_refused() {
    let env = env_with("n", word(1), word_type(), true);
    assert_eq!(
        message(plan_method(&env, &text("n"), &text("push"), &vec![], HERE)),
        "method call requires mutable array, list, dictionary, or map"
    );
}

#[test]
fn a_comparator_is_named_by_an_argument() {
    let index = index("fn less(a: u8, b: u8) -> bool { return a < b; } fn main() { }");
    let argument = |method: &str, name: &str| {
        let expr = Expr::Ident { name: text(name), span: HERE };
        comparator_argument(&text(method), &expr, &index)
    };
    assert_eq!(argument("sort_by", "less"), Some(Value::Str(text("less"))));
    assert_eq!(argument("sort_by", "gone"), None);
    assert_eq!(argument("push", "less"), None);
    assert!(find_comparator(&index, &text("less"), HERE).is_ok());
    assert_eq!(
        message(find_comparator(&index, &text("main2"), HERE)),
        "sort comparator 'main2' must be a pure function returning bool"
    );
    assert!(comparator_value(CallResult::Continue(Some(Value::Bool(true))), HERE).expect("bool"));
    assert_eq!(
        message(comparator_value(CallResult::Continue(None), HERE)),
        "sort comparator function must return bool"
    );
    assert_eq!(
        message(comparator_value(CallResult::Exit, HERE)),
        "sort comparator function cannot call exit()"
    );
}

#[test]
fn values_are_printed() {
    let printed = |value: Value| print_output(&value, HERE);
    assert_eq!(printed(word(u128::MAX)).expect("text"), Printed::Text(u128::MAX.to_string()));
    assert_eq!(printed(signed(i128::MIN)).expect("text"), Printed::Text(i128::MIN.to_string()));
    assert_eq!(printed(signed(0)).expect("text"), Printed::Text(text("0")));
    assert_eq!(printed(Value::Bool(false)).expect("text"), Printed::Text(text("false")));
    assert_eq!(printed(Value::Char('x')).expect("text"), Printed::Text(text("x")));
    assert_eq!(message(printed(list(vec![]))), "print does not accept lists");
    assert_eq!(message(printed(point(1))), "print does not accept structs");
    assert_eq!(message(printed(make_dict(vec![], None))), "print does not accept dictionaries");
}

#[test]
fn exit_codes_are_words() {
    assert_eq!(exit_code(&word(7), HERE).expect("code"), 7);
    assert_eq!(exit_code(&signed(7), HERE).expect("code"), 7);
    assert_eq!(message(exit_code(&signed(-1), HERE)), "exit expects a non-negative integer");
    assert_eq!(message(exit_code(&word(1 << 64), HERE)), "exit code out of range for u64");
    assert_eq!(message(exit_code(&Value::Bool(true), HERE)), "exit expects an integer");
    assert_eq!(bench_rounds(&word(7), HERE).expect("rounds"), 7);
    assert_eq!(
        message(bench_rounds(&word(1 << 64), HERE)),
        "benchloop iterations out of range"
    );
}

#[test]
fn conditions_are_truth_values() {
    assert!(if_condition(&Value::Bool(true), HERE).expect("bool"));
    assert_eq!(message(if_condition(&word(1), HERE)), "if condition must be bool");
    assert_eq!(message(while_condition(&word(1), HERE)), "while condition must be bool");
    assert_eq!(message(assert_condition(&word(1), HERE)), "assert condition must be bool");
    assert_eq!(assertion_failure(None, HERE).message, "assertion failed");
    assert_eq!(assertion_failure(Some(text("x")), HERE).message, "assertion failed: x");
    assert_eq!(panic_failure(&text("x"), HERE).message, "panic: x");
}

#[test]
fn loops_go_on_end_or_are_left() {
    assert_eq!(after_body(Flow::Next), LoopStep::Again);
    assert_eq!(after_body(Flow::ContinueLoop), LoopStep::Again);
    assert_eq!(after_body(Flow::BreakLoop), LoopStep::Done);
    assert_eq!(after_body(Flow::Exit), LoopStep::Leave(Flow::Exit));
    let value = Some(word(1));
    assert_eq!(after_body(Flow::Return(value)), LoopStep::Leave(Flow::Return(Some(word(1)))));
    assert_eq!(count_round(0, HERE).expect("below the limit"), 1);
    assert_eq!(count_round(LOOP_LIMIT - 1, HERE).expect("below the limit"), LOOP_LIMIT);
    assert_eq!(message(count_round(LOOP_LIMIT, HERE)), "loop limit exceeded");
    assert_eq!(message(break_flow(0, HERE)), "break used outside loop");
    assert_eq!(message(continue_flow(0, HERE)), "continue used outside loop");
    assert_eq!(break_flow(1, HERE).expect("inside"), Flow::BreakLoop);
}

#[test]
fn ranges_are_walked_in_order() {
    let ty = range_end_type(&signed(-1), HERE).expect("a number");
    assert_eq!(ty, TypeName::Int { signed: true, bits: 32 });
    assert_eq!(
        message(range_end_type(&Value::Bool(true), HERE)),
        "for range start must be integer"
    );
    let range = coerce_for_range(&signed(-1), &signed(2), HERE).expect("numbers");
    assert_eq!(for_range_values(range), [signed(-1), signed(0), signed(1)]);
    assert_eq!(
        message(coerce_for_range(&signed(1), &word(2), HERE)),
        "for range end must be integer"
    );
    let mut walked = Vec::new();
    let mut rest = range;
    while let Some((value, next)) = next_in_range(rest) {
        walked.push(value);
        rest = next;
    }
    assert_eq!(walked, for_range_values(range));
    let empty = ForRange::Unsigned { bits: 8, start: 3, end: 3 };
    assert!(for_range_values(empty).is_empty());
    let long = ForRange::Unsigned { bits: 64, start: 0, end: u128::MAX };
    assert_eq!(for_range_values(long).len(), LOOP_LIMIT + 1);
}

#[test]
fn a_round_has_a_scope_of_its_own() {
    let mut env = env_with("i", word(1), word_type(), true);
    enter_round(&mut env, &text("i"), word(5), word_type());
    assert_eq!(value_in(&env, "i"), &word(5));
    env.pop();
    assert_eq!(value_in(&env, "i"), &word(1));
}

#[test]
fn parallel_bodies_do_not_leave_the_loop() {
    assert!(check_parallel_flow(&Flow::ContinueLoop, HERE).is_ok());
    for (flow, said) in [
        (Flow::BreakLoop, "break is not allowed inside parfor body"),
        (Flow::Exit, "exit is not allowed inside parfor body"),
        (Flow::Return(None), "return is not allowed inside parfor body"),
    ] {
        assert_eq!(message(check_parallel_flow(&flow, HERE)), said);
    }
}

#[test]
fn parallel_rounds_are_split_in_order() {
    assert_eq!(split_rounds(10, 3), [(0, 4), (4, 8), (8, 10)]);
    assert_eq!(split_rounds(9, 3), [(0, 3), (3, 6), (6, 9)]);
    assert_eq!(split_rounds(2, 8), [(0, 1), (1, 2)]);
    assert!(split_rounds(0, 8).is_empty());
    assert!(is_handed_out(2, 64));
    assert!(!is_handed_out(2, 63));
    assert!(!is_handed_out(1, 64));
}

#[test]
fn calls_are_checked_on_the_way_in_and_out() {
    let index = index(
        "struct S { a: u8; } impl S { fn get(n: u8) -> u8 { return n; } } fn main() { }",
    );
    let get = function(&index, "S__get");
    let main = function(&index, "main");
    assert!(check_call_depth(255, HERE).is_ok());
    assert_eq!(
        message(check_call_depth(256, HERE)),
        "call depth exceeded maximum of 256 (possible recursion cycle)"
    );
    assert_eq!(
        message(check_argument_count(get, 2)),
        "function 'S::get' expects 1 argument, got 2"
    );
    assert!(check_argument_count(get, 1).is_ok());
    let byte = TypeName::Int { signed: false, bits: 8 };
    let given = finish_call(get, Flow::Return(Some(word(1)))).expect("a value");
    assert_eq!(given, CallStep::Give { value: word(1), ty: byte });
    assert_eq!(message(finish_call(get, Flow::Next)), "function 'S::get' is missing return value");
    assert_eq!(
        message(finish_call(get, Flow::Return(None))),
        "function 'S::get' must return a value"
    );
    assert_eq!(
        message(finish_call(main, Flow::Return(Some(word(1))))),
        "function 'main' cannot return a value"
    );
    assert_eq!(finish_call(main, Flow::Next).expect("nothing"), CallStep::Nothing);
    assert_eq!(finish_call(main, Flow::Exit).expect("exit"), CallStep::Exit);
    assert_eq!(
        message(finish_call(main, Flow::BreakLoop)),
        "internal error: illegal loop flow escaped function"
    );
    assert_eq!(function_note(get), "in function 'S::get'");
}

#[test]
fn statements_are_named_in_notes() {
    let stmt = Stmt::Break { span: HERE };
    assert_eq!(stmt_kind_name(&stmt), "break");
    assert_eq!(statement_note(&stmt), "statement::break at 3:7");
    assert_eq!(expr_span(&Expr::Bool { value: true, span: HERE }), HERE);
}

#[test]
fn variables_are_read_unless_they_are_lent() {
    let mut env = env_with("x", word(1), word_type(), true);
    assert_eq!(read_variable(&env, &text("x"), HERE).expect("known"), word(1));
    env.get_mut(&text("x")).expect("known").mut_borrowed = true;
    assert_eq!(
        message(read_variable(&env, &text("x"), HERE)),
        "cannot read 'x' while mutably borrowed"
    );
    assert_eq!(message(read_variable(&env, &text("y"), HERE)), "unknown identifier 'y'");
}

#[test]
fn only_pure_functions_are_called_in_expressions() {
    let index = index("fn one() -> u8 { return 1u8; } fn loud() { print(1u8); } fn main() { }");
    assert!(find_callee(&index, &text("one"), HERE).is_ok());
    assert_eq!(
        message(find_callee(&index, &text("loud"), HERE)),
        "expression call requires pure function; 'loud' is impure"
    );
    assert_eq!(message(find_callee(&index, &text("a__b"), HERE)), "unknown function 'a::b'");
    assert_eq!(
        message(find_callee(&index, &text("runtime_seed"), HERE)),
        "runtime_seed() is runtime-only and must be lowered through runtime generic path"
    );
    assert_eq!(
        message(find_callee(&index, &text("heap_free"), HERE)),
        "resource intrinsics are runtime-only and must be lowered through runtime generic path"
    );
    assert_eq!(
        message(find_callee(&index, &text("runtime_hash_probe_grouped16"), HERE)),
        "runtime intrinsic is runtime-only and must be lowered through runtime generic path"
    );
    assert!(find_called(&index, &text("loud"), HERE).is_ok());
    assert_eq!(call_value(CallResult::Continue(Some(word(1))), HERE).expect("value"), word(1));
    assert_eq!(
        message(call_value(CallResult::Exit, HERE)),
        "cannot use function call with exit() as expression"
    );
    assert_eq!(
        message(call_value(CallResult::Continue(None), HERE)),
        "expression call requires function with a return value"
    );
}

#[test]
fn logical_operators_stop_early() {
    let left = |op: BinaryOp, value: bool| logical_left(op, &Value::Bool(value), HERE);
    assert_eq!(left(BinaryOp::And, false).expect("bool"), Some(false));
    assert_eq!(left(BinaryOp::And, true).expect("bool"), None);
    assert_eq!(left(BinaryOp::Or, true).expect("bool"), Some(true));
    assert_eq!(left(BinaryOp::Or, false).expect("bool"), None);
    assert_eq!(
        message(logical_left(BinaryOp::And, &word(1), HERE)),
        "logical and expects bool operands"
    );
    assert_eq!(
        message(logical_right(BinaryOp::Or, &word(1), HERE)),
        "logical or expects bool operands"
    );
    let right = logical_right(BinaryOp::Or, &Value::Bool(true), HERE).expect("bool");
    assert_eq!(right, Value::Bool(true));
}

#[test]
fn elements_and_fields_are_read() {
    let values = list(vec![word(5), word(6)]);
    let read = |at: Value| read_index(&values, &at, HERE);
    assert_eq!(read(word(1)).expect("in range"), IndexRead::Element(word(6)));
    assert_eq!(message(read(word(2))), "index out of bounds");
    assert_eq!(message(read(signed(-1))), "index must be non-negative");
    assert_eq!(
        message(read_index(&word(1), &word(1), HERE)),
        "indexing requires array, list, dictionary, or map"
    );
    let dict = make_dict(vec![], None);
    let key = IndexRead::Entry { key_type: TypeName::String };
    assert_eq!(read_index(&dict, &word(1), HERE).expect("a dictionary"), key);
    assert_eq!(read_field(&point(3), &text("x"), HERE).expect("field"), word(3));
    assert_eq!(message(read_field(&point(3), &text("y"), HERE)), "unknown field 'y'");
    assert_eq!(message(read_field(&word(3), &text("x"), HERE)), "field access on non-struct");
}

#[test]
fn arrays_hold_values_of_one_type() {
    let made = make_array(vec![word(1), word(2)], &vec![word_type(), word_type()], HERE);
    assert_eq!(made.expect("alike"), array(vec![word(1), word(2)]));
    let mixed = make_array(vec![word(1), signed(2)], &vec![word_type(), TypeName::Bool], HERE);
    assert_eq!(message(mixed), "array elements must have same type");
    let empty = make_array(vec![], &vec![], HERE).expect("empty");
    let open = TypeName::Struct(text("_"));
    assert_eq!(empty, Value::Array { elem_type: open, elems: vec![] });
}

#[test]
fn structs_are_made_with_every_field() {
    let index = index("struct P { x: u64; y: u64; } fn main() { }");
    let at = find_layout_to_fill(&index, &text("P"), HERE).expect("declared");
    let layout = &index.struct_layouts[at].fields;
    assert_eq!(message(find_layout_to_fill(&index, &text("Q"), HERE)), "unknown struct 'Q'");
    assert_eq!(field_to_fill(layout, &text("y"), HERE).expect("field"), word_type());
    assert_eq!(message(field_to_fill(layout, &text("z"), HERE)), "unknown field 'z'");
    let given = vec![named("x", word(1))];
    assert_eq!(message(check_new_field(&given, &text("x"), HERE)), "duplicate field 'x'");
    assert_eq!(
        message(make_struct(&text("P"), layout, given, HERE)),
        "missing field 'y'"
    );
    let given = vec![named("y", word(2)), named("x", word(1))];
    assert!(make_struct(&text("P"), layout, given, HERE).is_ok());
}

#[test]
fn variants_are_made_as_they_are_declared() {
    let index = index("enum E<T> { A, B(T, list<T>), C { x: T; } } fn main() { }");
    let unit = |variant: &str| make_unit_variant(&index, &text("E"), &text(variant), HERE);
    match unit("A").expect("unit") {
        Value::Enum { type_args, .. } => assert_eq!(type_args, [None]),
        other => panic!("unexpected value {other:?}"),
    }
    assert_eq!(
        message(unit("B")),
        "variant 'E::B' requires a payload; use its declared constructor form"
    );
    assert_eq!(message(unit("Z")), "unknown variant 'Z' for enum 'E'");
    assert_eq!(
        message(make_unit_variant(&index, &text("F"), &text("A"), HERE)),
        "unknown enum 'F'"
    );
    let tuple = |variant: &str, given: usize| {
        find_tuple_variant(&index, &text("E"), &text(variant), given, HERE)
    };
    let (at, templates) = tuple("B", 2).expect("two arguments");
    assert_eq!(message(tuple("B", 1)), "variant 'E::B' expects 2 arguments, got 1");
    assert_eq!(message(tuple("C", 1)), "variant 'E::C' is not a tuple variant");
    let def = &index.enums[at];
    let (args, targets) =
        infer_targets(def, &templates, &vec![word_type(), list_type()], HERE).expect("alike");
    assert_eq!(args, [Some(word_type())]);
    assert_eq!(targets, [word_type(), list_type()]);
    assert_eq!(
        message(infer_targets(def, &templates, &vec![TypeName::Bool, list_type()], HERE)),
        "conflicting inferred types for generic parameter 'T': bool and u64"
    );
}

#[test]
fn named_payloads_are_complete() {
    let index = index("enum E { A, C { x: u8; y: u8; } } fn main() { }");
    let (at, place) = find_named_variant(&index, &text("E"), &text("C"), HERE).expect("named");
    assert_eq!(
        message(find_named_variant(&index, &text("E"), &text("A"), HERE)),
        "variant 'E::A' is not a named variant"
    );
    let fields = match &index.enums[at].variants[place].payload {
        aziky::ast::EnumVariantPayloadDef::Named(fields) => fields,
        other => panic!("unexpected payload {other:?}"),
    };
    let given = vec![named("x", word(1))];
    let check = |name: &str| {
        check_payload_field(fields, &given, &text(name), &text("E"), &text("C"), HERE)
    };
    assert!(check("y").is_ok());
    assert_eq!(message(check("x")), "duplicate payload field 'x' for variant 'E::C'");
    assert_eq!(message(check("z")), "unknown payload field 'z' for variant 'E::C'");
    assert_eq!(
        message(check_payload_complete(fields, &given, &text("E"), &text("C"), HERE)),
        "missing payload field 'y' for variant 'E::C'"
    );
}

#[test]
fn dictionaries_hold_values_of_one_type() {
    let given = vec![named("k", word(1))];
    assert_eq!(
        message(check_new_key(&given, &text("k"), &text("K"), HERE)),
        "duplicate dictionary key 'K'"
    );
    assert!(check_value_type(&None, &word_type(), HERE).is_ok());
    assert!(check_value_type(&Some(word_type()), &word_type(), HERE).is_ok());
    assert_eq!(
        message(check_value_type(&Some(TypeName::Bool), &word_type(), HERE)),
        "dictionary values must share one type"
    );
}

#[test]
fn type_parameters_are_found_and_put_in_place() {
    let params = vec![text("K"), text("V")];
    let param = |name: &str| TypeName::Struct(text(name));
    let template = TypeName::Mapping { key: Box::new(param("K")), value: Box::new(param("V")) };
    let actual = TypeName::Mapping {
        key: Box::new(TypeName::String),
        value: Box::new(param("_")),
    };
    let mut inferred: Vec<Inferred> = Vec::new();
    infer_generic_type_bindings(&template, &actual, &params, &mut inferred, HERE).expect("new");
    assert_eq!(inferred.len(), 1);
    let made = instantiate_generic_type(&template, &inferred);
    let expected = TypeName::Mapping {
        key: Box::new(TypeName::String),
        value: Box::new(param("V")),
    };
    assert_eq!(made, expected);
}

/// The arms of the match that a function gives back.
fn arms_of<'a>(index: &'a ProgramIndex, name: &str) -> &'a Vec<MatchArm> {
    match &function(index, name).body[0] {
        Stmt::Return { expr: Some(Expr::Match { arms, .. }), .. } => arms,
        other => panic!("unexpected statement {other:?}"),
    }
}

#[test]
fn an_accepted_match_takes_an_arm() {
    let index = index(
        "enum E { A, B(u8), C { x: u8; } } \
         fn all(e: E) -> u8 { return match e { E::B(n) => n, E::A => 1u8, E::C { x: y } => y }; } \
         fn some(e: E) -> u8 { return match e { E::A => 1u8, _ => 2u8 }; } \
         fn main() { }",
    );
    let def = index.enums.last().expect("the enum");
    let taken = |name: &str, variant: &str| {
        select_arm(arms_of(&index, name), def, &text(variant), HERE).expect("an arm")
    };
    assert_eq!(taken("all", "A"), 1);
    assert_eq!(taken("all", "B"), 0);
    assert_eq!(taken("all", "C"), 2);
    assert_eq!(taken("some", "A"), 0);
    assert_eq!(taken("some", "C"), 1);
}

#[test]
fn a_match_that_does_not_fit_is_refused() {
    let refused = |arms: &str| {
        let source = format!(
            "enum E {{ A, B(u8), C {{ x: u8; }} }} enum F {{ A }} \
             fn f(e: E) -> u8 {{ return match e {{ {arms} }}; }} fn main() {{ }}"
        );
        let index = index(&source);
        let def = &index.enums[2];
        message(select_arm(arms_of(&index, "f"), def, &text("A"), HERE))
    };
    assert_eq!(
        refused("E::A => 1u8"),
        "non-exhaustive match for enum 'E'; missing E::B, E::C"
    );
    assert_eq!(
        refused("E::A => 1u8, E::A => 2u8, _ => 3u8"),
        "unreachable duplicate match arm for 'E::A'"
    );
    assert_eq!(
        refused("_ => 1u8, E::A => 2u8"),
        "wildcard match arm must appear exactly once and be last"
    );
    assert_eq!(
        refused("E::A => 1u8, E::B(n) => 2u8, E::C { x: y } => 3u8, _ => 4u8"),
        "unreachable wildcard match arm: every enum variant is already covered"
    );
    assert_eq!(
        refused("F::A => 1u8, _ => 2u8"),
        "pattern enum 'F' does not match scrutinee enum 'E'"
    );
    assert_eq!(
        refused("E::Z => 1u8, _ => 2u8"),
        "unknown variant 'Z' for enum 'E' in match pattern"
    );
    assert_eq!(
        refused("E::B(a, b) => 1u8, _ => 2u8"),
        "pattern 'E::B' expects 1 fields, got 2"
    );
    assert_eq!(
        refused("E::B => 1u8, _ => 2u8"),
        "pattern 'E::B' must destructure its payload"
    );
    assert_eq!(
        refused("E::A(a) => 1u8, _ => 2u8"),
        "pattern 'E::A' uses tuple syntax for a non-tuple variant"
    );
    assert_eq!(
        refused("E::A { x: y } => 1u8, _ => 2u8"),
        "pattern 'E::A' uses named syntax for a non-named variant"
    );
    assert_eq!(
        refused("E::C { z: y } => 1u8, _ => 2u8"),
        "unknown payload field 'z' for pattern 'E::C'"
    );
}

#[test]
fn patterns_bind_what_a_variant_carries() {
    let index = index(
        "enum E<T> { B(T) } \
         fn f(e: E<u64>) -> u64 { return match e { E::B(n) => n }; } fn main() { }",
    );
    let def = index.enums.last().expect("the enum");
    let arm = &arms_of(&index, "f")[0];
    let mut env = Env::new();
    bind_enum_match_pattern(
        &arm.pattern,
        def,
        &text("B"),
        &vec![Some(word_type())],
        &EnumPayloadValue::Tuple(vec![word(4)]),
        &mut env,
    )
    .expect("the payload fits");
    let binding = env.get(&text("n")).expect("bound");
    assert_eq!(binding.value, word(4));
    assert_eq!(binding.ty, word_type());
    let misfit = bind_enum_match_pattern(
        &arm.pattern,
        def,
        &text("B"),
        &vec![None],
        &EnumPayloadValue::Unit,
        &mut env,
    );
    assert_eq!(
        message(misfit),
        "internal error: enum payload does not match its definition"
    );
}

#[test]
fn methods_are_found_by_their_receiver() {
    let index = index(
        "struct P { x: u8; } \
         impl P { fn get(self: &Self) -> u8 { return self.x; } \
         fn put(self: &mut Self, n: u8) { self.x = n; } } \
         fn main() { }",
    );
    let ty = TypeName::Struct(text("P"));
    let candidates = method_candidate_function_names(&list_type(), &text("m"));
    assert_eq!(candidates, ["m", "list_u64___m"]);
    let put = |mutable: bool, args: usize| {
        find_method_statement(&index, &text("p"), &ty, mutable, &text("put"), args, HERE)
    };
    assert!(matches!(put(true, 1), Ok(Some((_, true)))));
    assert_eq!(
        message(put(false, 1)),
        "cannot call mut method 'put' on immutable 'p'"
    );
    assert!(matches!(put(true, 2), Ok(None)));
    let read = |name: &str, args: usize| find_method_read(&index, &ty, &text(name), args, HERE);
    assert!(matches!(read("get", 0), Ok(Some(_))));
    assert!(matches!(read("get", 1), Ok(None)));
    assert!(matches!(read("gone", 0), Ok(None)));
}

#[test]
fn reductions_keep_the_smaller_or_larger() {
    let keep = |op: ReductionOp, compared: Value| {
        combine_reduction(op, word(1), word(2), &compared, HERE)
    };
    assert_eq!(keep(ReductionOp::Min, Value::Bool(true)).expect("bool"), word(1));
    assert_eq!(keep(ReductionOp::Max, Value::Bool(false)).expect("bool"), word(2));
    assert_eq!(
        message(keep(ReductionOp::Min, word(1))),
        "invalid min reduction comparison"
    );
    assert_eq!(
        message(keep(ReductionOp::Max, word(1))),
        "invalid max reduction comparison"
    );
    assert!(ensure_reduction_type(&TypeName::Byte, HERE).is_ok());
    assert_eq!(
        message(ensure_reduction_type(&TypeName::Bool, HERE)),
        "parfor reductions require integer targets for deterministic associativity"
    );
    assert_eq!(
        message(finish_reduction(None, HERE)),
        "reduction requires at least one iteration"
    );
}
