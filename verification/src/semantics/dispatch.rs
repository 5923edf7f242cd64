//! Which function a method call is of.

use crate::ast::{texts_view, Function, FunctionView, Span, TypeName, TypeView};
use crate::diagnostic::{type_message, Diagnostic, DiagnosticView};
use crate::display::shown_type;
use crate::parser::stmts::{mangle, mangled};
use crate::semantics::expressions::{impure_call, is_pure_at, say_impure};
use crate::semantics::index::{IndexView, ProgramIndex};
use crate::semantics::names::{find_function, function_names, position_of};
use crate::semantics::types::same_type;
use vstd::prelude::*;
use vstd::string::StringExecFns;

verus! {

/// The character is a letter or a digit of the basic alphabet.
pub open spec fn is_plain_char(ch: char) -> bool {
    ||| 'a' <= ch <= 'z'
    ||| 'A' <= ch <= 'Z'
    ||| '0' <= ch <= '9'
}

/// A text with an underscore in place of each character that a name cannot have.
pub open spec fn as_name(text: Seq<char>) -> Seq<char> {
    Seq::new(
        text.len(),
        |i: int|
            if is_plain_char(text[i]) {
                text[i]
            } else {
                '_'
            },
    )
}

/// What the names of the methods of a type start with.
pub open spec fn method_prefix(ty: TypeView) -> Seq<char> {
    match ty {
        TypeView::Struct(name) => name,
        _ => as_name(shown_type(ty)),
    }
}

/// What the names of the methods of a type start with.
pub fn type_method_mangled_prefix(ty: &TypeName) -> (prefix: String)
    ensures
        prefix@ == method_prefix(ty@),
{
    match ty {
        TypeName::Struct(name) => name.clone(),
        _ => {
            let shown = ty.display();
            let text = shown.as_str();
            let count: usize = text.unicode_len();
            let mut prefix = String::new();
            let mut i: usize = 0;
            while i < count
                invariant
                    i <= count,
                    count == text@.len(),
                    text@ == shown_type(ty@),
                    prefix@ == as_name(text@).subrange(0, i as int),
                decreases count - i,
            {
                let ghost before = prefix@;
                let ch: char = text.get_char(i);
                if ('a' <= ch && ch <= 'z') || ('A' <= ch && ch <= 'Z') || ('0' <= ch && ch
                    <= '9') {
                    prefix.append(text.substring_char(i, i + 1));
                    assert(text@.subrange(i as int, i + 1) =~= seq![ch]);
                    assert(prefix@ =~= as_name(text@).subrange(0, i + 1));
                } else {
                    proof {
                        reveal_strlit("_");
                    }
                    prefix.append("_");
                    assert("_"@ =~= seq!['_']);
                    assert(prefix@ =~= as_name(text@).subrange(0, i + 1));
                }
                i = i + 1;
            }
            assert(as_name(text@).subrange(0, count as int) =~= as_name(text@));
            prefix
        },
    }
}

/// The functions that a method of a type may be: the one of its name, and the
/// one of the type.
pub open spec fn candidates(ty: TypeView, method: Seq<char>) -> Seq<Seq<char>> {
    seq![method, mangled(method_prefix(ty), method)]
}

/// The functions that a method of a type may be.
pub fn method_candidate_function_names(ty: &TypeName, method: &String) -> (names: Vec<String>)
    ensures
        texts_view(names@) == candidates(ty@, method@),
{
    let prefix = type_method_mangled_prefix(ty);
    let mut names: Vec<String> = Vec::new();
    names.push(method.clone());
    names.push(mangle(&prefix, method));
    assert(texts_view(names@) =~= candidates(ty@, method@));
    names
}

/// How a function takes its receiver of a type, if it fits a call with so many
/// further arguments: by a reference, to be changed or not.
pub open spec fn receives(function: FunctionView, ty: TypeView, args: nat) -> Option<bool> {
    if function.params.len() != args + 1 {
        None
    } else {
        match function.params[0].ty {
            TypeView::Ref { mutable, inner } => if *inner == ty {
                Some(mutable)
            } else {
                None
            },
            _ => None,
        }
    }
}

/// How a function takes its receiver of a type, if it fits a call.
fn find_receiver(function: &Function, ty: &TypeName, args: usize) -> (mutable: Option<bool>)
    ensures
        mutable == receives(function@, ty@, args as nat),
{
    assert(function@.params.len() == function.params@.len());
    if function.params.len() == 0 || function.params.len() - 1 != args {
        return None;
    }
    assert(function@.params[0] == function.params@[0]@);
    match &function.params[0].ty {
        TypeName::Ref { mutable, inner } => {
            if same_type(inner, ty) {
                Some(*mutable)
            } else {
                None
            }
        },
        _ => None,
    }
}

/// What is said of a method that changes its receiver where that must not be.
pub open spec fn fixed_receiver(method: Seq<char>, receiver: Seq<char>) -> Seq<char> {
    "cannot call mut method '"@ + method + "' on immutable '"@ + receiver + "'"@
}

/// The function that a method statement is of, from one of the candidates on,
/// and whether it changes its receiver.
pub open spec fn method_called(
    index: IndexView,
    names: Seq<Seq<char>>,
    from: int,
    receiver: Seq<char>,
    ty: TypeView,
    receiver_mutable: bool,
    method: Seq<char>,
    args: nat,
    span: Span,
) -> Result<Option<(int, bool)>, DiagnosticView>
    decreases names.len() - from,
{
    if from < 0 || from >= names.len() {
        Ok(None)
    } else {
        let rest = method_called(
            index,
            names,
            from + 1,
            receiver,
            ty,
            receiver_mutable,
            method,
            args,
            span,
        );
        match position_of(function_names(index.functions), names[from]) {
            None => rest,
            Some(at) => match receives(index.functions[at], ty, args) {
                None => rest,
                Some(mutable) => if mutable && !receiver_mutable {
                    Err(type_message(fixed_receiver(method, receiver), span))
                } else {
                    Ok(Some((at, mutable)))
                },
            },
        }
    }
}

/// The function that a method statement is of, and whether it changes its
/// receiver.
pub fn find_method_statement(
    index: &ProgramIndex,
    receiver: &String,
    ty: &TypeName,
    receiver_mutable: bool,
    method: &String,
    args: usize,
    span: Span,
) -> (outcome: Result<Option<(usize, bool)>, Diagnostic>)
    ensures
        match method_called(
            index@,
            candidates(ty@, method@),
            0,
            receiver@,
            ty@,
            receiver_mutable,
            method@,
            args as nat,
            span,
        ) {
            Ok(Some((at, mutable))) => outcome matches Ok(Some((found, changes))) && found == at
                && changes == mutable && found < index@.functions.len(),
            Ok(None) => outcome matches Ok(None),
            Err(error) => outcome matches Err(found) && found@ == error,
        },
{
    let names = method_candidate_function_names(ty, method);
    let ghost all = candidates(ty@, method@);
    assert(all.len() == names@.len()) by {
        assert(texts_view(names@).len() == names@.len());
    }
    for i in 0..names.len()
        invariant
            all == candidates(ty@, method@),
            all == texts_view(names@),
            all.len() == names@.len(),
            method_called(
                index@,
                all,
                0,
                receiver@,
                ty@,
                receiver_mutable,
                method@,
                args as nat,
                span,
            ) == method_called(
                index@,
                all,
                i as int,
                receiver@,
                ty@,
                receiver_mutable,
                method@,
                args as nat,
                span,
            ),
    {
        assert(all[i as int] == names@[i as int]@);
        if let Some(at) = find_function(&index.functions, &names[i]) {
            assert(index@.functions[at as int] == index.functions@[at as int]@);
            if let Some(mutable) = find_receiver(&index.functions[at], ty, args) {
                if mutable && !receiver_mutable {
                    let mut message = String::from_str("cannot call mut method '");
                    message.append(method.as_str());
                    message.append("' on immutable '");
                    message.append(receiver.as_str());
                    message.append("'");
                    return Err(Diagnostic::type_error(message, span));
                }
                return Ok(Some((at, mutable)));
            }
        }
    }
    Ok(None)
}

/// The function that a method in an expression is of, from one of the candidates
/// on: it must be pure, and only read its receiver.
pub open spec fn method_read(
    index: IndexView,
    names: Seq<Seq<char>>,
    from: int,
    ty: TypeView,
    args: nat,
    span: Span,
) -> Result<Option<int>, DiagnosticView>
    decreases names.len() - from,
{
    if from < 0 || from >= names.len() {
        Ok(None)
    } else {
        let rest = method_read(index, names, from + 1, ty, args, span);
        match position_of(function_names(index.functions), names[from]) {
            None => rest,
            Some(at) => if !(at < index.pure_functions.len() && index.pure_functions[at]) {
                Err(type_message(impure_call(index.functions[at].name), span))
            } else if receives(index.functions[at], ty, args) == Some(false) {
                Ok(Some(at))
            } else {
                rest
            },
        }
    }
}

/// The function that a method in an expression is of.
pub fn find_method_read(
    index: &ProgramIndex,
    ty: &TypeName,
    method: &String,
    args: usize,
    span: Span,
) -> (outcome: Result<Option<usize>, Diagnostic>)
    ensures
        match method_read(index@, candidates(ty@, method@), 0, ty@, args as nat, span) {
            Ok(Some(at)) => outcome matches Ok(Some(found)) && found == at && found
                < index@.functions.len(),
            Ok(None) => outcome matches Ok(None),
            Err(error) => outcome matches Err(found) && found@ == error,
        },
{
    let names = method_candidate_function_names(ty, method);
    let ghost all = candidates(ty@, method@);
    assert(all.len() == names@.len()) by {
        assert(texts_view(names@).len() == names@.len());
    }
    for i in 0..names.len()
        invariant
            all == candidates(ty@, method@),
            all == texts_view(names@),
            all.len() == names@.len(),
            method_read(index@, all, 0, ty@, args as nat, span) == method_read(
                index@,
                all,
                i as int,
                ty@,
                args as nat,
                span,
            ),
    {
        assert(all[i as int] == names@[i as int]@);
        if let Some(at) = find_function(&index.functions, &names[i]) {
            assert(index@.functions[at as int] == index.functions@[at as int]@);
            if !is_pure_at(index, at) {
                return Err(say_impure(&index.functions[at].name, span));
            }
            if let Some(mutable) = find_receiver(&index.functions[at], ty, args) {
                if !mutable {
                    return Ok(Some(at));
                }
            }
        }
    }
    Ok(None)
}

} // verus!
