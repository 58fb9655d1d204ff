//! The interpreter's error messages.
use vstd::prelude::*;
use crate::text::append_text;
use crate::symbolic_expression::{SExpression, SexpV};

verus! {

pub open spec fn msg_undefined(name: Seq<char>) -> Seq<char> {
    "Symbol "@ + name + " not defined."@
}

pub open spec fn msg_already_defined(name: Seq<char>) -> Seq<char> {
    name + " already defined."@
}

pub open spec fn msg_not_defined(name: Seq<char>) -> Seq<char> {
    name + " not defined."@
}

pub open spec fn msg_requires_two(lexeme: Seq<char>) -> Seq<char> {
    "Operator "@ + lexeme + " requires two arguments"@
}

pub open spec fn msg_operator_not_implemented(lexeme: Seq<char>) -> Seq<char> {
    "Operator '"@ + lexeme + "' not implemented"@
}

pub open spec fn msg_form_not_implemented(lexeme: Seq<char>) -> Seq<char> {
    "Special form "@ + lexeme + " not implemented"@
}

pub open spec fn msg_core_not_implemented(lexeme: Seq<char>) -> Seq<char> {
    "Core function "@ + lexeme + " not implemented"@
}

pub open spec fn msg_core_arity(lexeme: Seq<char>) -> Seq<char> {
    "Core function "@ + lexeme + " takes the wrong number of arguments"@
}

pub open spec fn msg_not_a_list(lexeme: Seq<char>) -> Seq<char> {
    lexeme + ": not a list"@
}

pub open spec fn msg_empty_list(lexeme: Seq<char>) -> Seq<char> {
    lexeme + ": empty list"@
}

pub open spec fn msg_define_extra(target: Seq<char>) -> Seq<char> {
    "define can only take one expression as the value: "@ + target
}

pub open spec fn msg_cannot_redefine(target: Seq<char>) -> Seq<char> {
    "Cannot re-define "@ + target
}

pub open spec fn msg_invalid_function_name(target: Seq<char>) -> Seq<char> {
    "Invalid function name: "@ + target
}

pub open spec fn msg_not_a_function(value: Seq<char>) -> Seq<char> {
    "Can't evaluate as function: "@ + value
}

pub open spec fn msg_too_many() -> Seq<char> {
    "Too many definitions"@
}

pub open spec fn msg_not_a_number() -> Seq<char> {
    "Not a number type!"@
}

pub open spec fn msg_not_a_boolean() -> Seq<char> {
    "Not a boolean type!"@
}

pub open spec fn msg_division_by_zero() -> Seq<char> {
    "Division by zero"@
}

pub open spec fn msg_overflow() -> Seq<char> {
    "Integer overflow"@
}

pub open spec fn msg_limit() -> Seq<char> {
    "Evaluation limit reached"@
}

pub open spec fn msg_empty_application() -> Seq<char> {
    "cannot apply empty list"@
}

pub open spec fn msg_unsupported_head() -> Seq<char> {
    "Evaluation on this cell type not supported"@
}

pub open spec fn msg_while_arity() -> Seq<char> {
    "while expression must have two clauses (test) (body)."@
}

pub open spec fn msg_empty_begin() -> Seq<char> {
    "begin expression must hold at least one expression."@
}

pub open spec fn msg_if_arity() -> Seq<char> {
    "if expression must have three parts."@
}

pub open spec fn msg_set_arity() -> Seq<char> {
    "set! expression must have two arguments."@
}

pub open spec fn msg_set_extra() -> Seq<char> {
    "set! expression must have only two arguments."@
}

pub open spec fn msg_set_target() -> Seq<char> {
    "First argument to set! must be a symbol."@
}

pub open spec fn msg_define_null() -> Seq<char> {
    "Cannot apply special form treatment to Null"@
}

pub open spec fn msg_bad_parameter() -> Seq<char> {
    "A parameter name must be a symbol"@
}

pub open spec fn msg_bad_parameter_list() -> Seq<char> {
    "Invalid parameter list"@
}

pub open spec fn msg_arity_mismatch() -> Seq<char> {
    "Mismatch between number of arguments and function parameters"@
}

/// The error text of a result, or its value.
pub open spec fn result_view(r: Result<SExpression, String>) -> Result<SexpV, Seq<char>> {
    match r {
        Ok(e) => Ok(e@),
        Err(m) => Err(m@),
    }
}

/// The text of an error result.
pub open spec fn err_text<T>(r: Result<T, String>) -> Seq<char> {
    match r {
        Err(e) => e@,
        Ok(_) => Seq::empty(),
    }
}

/// `value` followed by `suffix`.
pub fn suffixed(value: &str, suffix: &str) -> (r: String)
    ensures
        r@ == value@ + suffix@,
{
    let mut s = String::from_str(value);
    append_text(&mut s, suffix);
    s
}

/// `prefix` followed by `value`.
pub fn prefixed(prefix: &str, value: &str) -> (r: String)
    ensures
        r@ == prefix@ + value@,
{
    let mut s = String::from_str(prefix);
    append_text(&mut s, value);
    s
}

/// Builds `prefix + middle + suffix`.
pub fn message(prefix: &str, middle: &str, suffix: &str) -> (r: String)
    ensures
        r@ == prefix@ + middle@ + suffix@,
{
    let mut s = String::new();
    append_text(&mut s, prefix);
    append_text(&mut s, middle);
    append_text(&mut s, suffix);
    assert(s@ =~= prefix@ + middle@ + suffix@);
    s
}

/// A message with no variable part.
pub fn fixed(text: &str) -> (r: String)
    ensures
        r@ == text@,
{
    String::from_str(text)
}

} // verus!
