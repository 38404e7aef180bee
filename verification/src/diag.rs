//! Diagnostics collected by the semantic analyzer.
//!
//! A diagnostic is a message plus an optional span-tagged note.  Rendering
//! (source excerpts, colors) is the caller's concern; this module only
//! builds the values, with their exact text pinned by contracts.

use crate::ast::{BinaryOp, ExpTypeVal, Ident, Span, Type, UnaryOp};
use vstd::prelude::*;
use vstd::string::StringExecFns;

verus! {

/// Mathematical image of a diagnostic: its text as character sequences.
pub struct DiagView {
    pub message: Seq<char>,
    pub details: Option<(Span, Seq<char>)>,
}

/// One collected error: a message, and optionally a source span with a
/// short note for it.  Diagnostics without a span render in a shorter form.
#[derive(Debug)]
pub struct Diagnostic {
    pub message: String,
    pub details: Option<(Span, String)>,
}

impl View for Diagnostic {
    type V = DiagView;

    open spec fn view(&self) -> DiagView {
        DiagView {
            message: self.message@,
            details: match self.details {
                Some((sp, note)) => Some((sp, note@)),
                None => None,
            },
        }
    }
}

/// The views of a sequence of collected diagnostics.
pub open spec fn diag_views(ds: Seq<Diagnostic>) -> Seq<DiagView> {
    ds.map_values(|d: Diagnostic| d@)
}

/// Rendered name of a source type.
pub open spec fn spec_type_name(t: Type) -> Seq<char> {
    match t {
        Type::Int => "int"@,
        Type::Bool => "boolean"@,
        Type::Str => "string"@,
        Type::Void => "void"@,
    }
}

/// Rendered name of the type of an abstract value.
pub open spec fn spec_typeval_name(tv: ExpTypeVal) -> Seq<char> {
    match tv {
        ExpTypeVal::Int(_) => "int"@,
        ExpTypeVal::Bool(_) => "boolean"@,
        ExpTypeVal::Str(_) => "string"@,
        ExpTypeVal::Void => "void"@,
        ExpTypeVal::Invalid => "<invalid>"@,
    }
}

pub fn render_type(t: &Type) -> (r: String)
    ensures
        r@ == spec_type_name(*t),
{
    match t {
        Type::Int => String::from_str("int"),
        Type::Bool => String::from_str("boolean"),
        Type::Str => String::from_str("string"),
        Type::Void => String::from_str("void"),
    }
}

pub fn typeval_name(tv: &ExpTypeVal) -> (r: String)
    ensures
        r@ == spec_typeval_name(*tv),
{
    match tv {
        ExpTypeVal::Int(_) => String::from_str("int"),
        ExpTypeVal::Bool(_) => String::from_str("boolean"),
        ExpTypeVal::Str(_) => String::from_str("string"),
        ExpTypeVal::Void => String::from_str("void"),
        ExpTypeVal::Invalid => String::from_str("<invalid>"),
    }
}

/// Rendered symbol of a unary operator.
pub open spec fn spec_unop_text(op: UnaryOp) -> Seq<char> {
    match op {
        UnaryOp::Neg => "-"@,
        UnaryOp::Not => "!"@,
    }
}

pub fn unop_text(op: &UnaryOp) -> (r: String)
    ensures
        r@ == spec_unop_text(*op),
{
    match op {
        UnaryOp::Neg => String::from_str("-"),
        UnaryOp::Not => String::from_str("!"),
    }
}

/// Rendered symbol of a binary operator.
pub open spec fn spec_binop_text(op: BinaryOp) -> Seq<char> {
    match op {
        BinaryOp::Or => "||"@,
        BinaryOp::And => "&&"@,
        BinaryOp::Eq => "=="@,
        BinaryOp::Neq => "!="@,
        BinaryOp::Gt => ">"@,
        BinaryOp::Gte => ">="@,
        BinaryOp::Lt => "<"@,
        BinaryOp::Lte => "<="@,
        BinaryOp::Add => "+"@,
        BinaryOp::Sub => "-"@,
        BinaryOp::Mul => "*"@,
        BinaryOp::Div => "/"@,
        BinaryOp::Mod => "%"@,
    }
}

pub fn binop_text(op: &BinaryOp) -> (r: String)
    ensures
        r@ == spec_binop_text(*op),
{
    match op {
        BinaryOp::Or => String::from_str("||"),
        BinaryOp::And => String::from_str("&&"),
        BinaryOp::Eq => String::from_str("=="),
        BinaryOp::Neq => String::from_str("!="),
        BinaryOp::Gt => String::from_str(">"),
        BinaryOp::Gte => String::from_str(">="),
        BinaryOp::Lt => String::from_str("<"),
        BinaryOp::Lte => String::from_str("<="),
        BinaryOp::Add => String::from_str("+"),
        BinaryOp::Sub => String::from_str("-"),
        BinaryOp::Mul => String::from_str("*"),
        BinaryOp::Div => String::from_str("/"),
        BinaryOp::Mod => String::from_str("%"),
    }
}

/// Comma-separated rendering of a type list, from position `i` on.
pub open spec fn spec_type_list_from(ts: Seq<Type>, i: int) -> Seq<char>
    decreases ts.len() - i,
{
    if i < 0 || i >= ts.len() {
        ""@
    } else if i == ts.len() - 1 {
        spec_type_name(ts[i])
    } else {
        spec_type_name(ts[i]) + ", "@ + spec_type_list_from(ts, i + 1)
    }
}

pub open spec fn spec_type_list(ts: Seq<Type>) -> Seq<char> {
    spec_type_list_from(ts, 0)
}

pub fn render_type_list(ts: &Vec<Type>) -> (r: String)
    ensures
        r@ == spec_type_list(ts@),
{
    let mut out = String::new();
    let mut i: usize = ts.len();
    proof {
        reveal_strlit("");
        assert(out@ =~= spec_type_list_from(ts@, i as int));
    }
    while i > 0
        invariant
            0 <= i <= ts@.len(),
            out@ == spec_type_list_from(ts@, i as int),
        decreases i,
    {
        i -= 1;
        let piece = if i + 1 == ts.len() {
            render_type(&ts[i])
        } else {
            render_type(&ts[i]).concat(", ").concat(out.as_str())
        };
        out = piece;
    }
    out
}

/// View of the diagnostic for a misapplied unary operator.
pub open spec fn invalid_unary_op_view(op: UnaryOp, tv: ExpTypeVal, span: Span) -> DiagView {
    DiagView {
        message: "invalid use of operand "@ + spec_unop_text(op),
        details: Some(
            (span, "type mismatch: "@ + spec_unop_text(op) + " "@ + spec_typeval_name(tv)),
        ),
    }
}

pub fn gen_invalid_unary_op(op: &UnaryOp, tv: &ExpTypeVal, span: Span) -> (r: Diagnostic)
    ensures
        r@ == invalid_unary_op_view(*op, *tv, span),
{
    Diagnostic {
        message: String::from_str("invalid use of operand ").concat(unop_text(op).as_str()),
        details: Some(
            (
                span,
                String::from_str("type mismatch: ").concat(unop_text(op).as_str()).concat(
                    " ",
                ).concat(typeval_name(tv).as_str()),
            ),
        ),
    }
}

/// View of the diagnostic for a misapplied binary operator.
pub open spec fn invalid_binary_op_view(
    op: BinaryOp,
    ltv: ExpTypeVal,
    rtv: ExpTypeVal,
    span: Span,
) -> DiagView {
    DiagView {
        message: "invalid use of operand "@ + spec_binop_text(op),
        details: Some(
            (
                span,
                "type mismatch: "@ + spec_typeval_name(ltv) + " "@ + spec_binop_text(op) + " "@
                    + spec_typeval_name(rtv),
            ),
        ),
    }
}

pub fn gen_invalid_binary_op(op: &BinaryOp, ltv: &ExpTypeVal, rtv: &ExpTypeVal, span: Span) -> (r:
    Diagnostic)
    ensures
        r@ == invalid_binary_op_view(*op, *ltv, *rtv, span),
{
    Diagnostic {
        message: String::from_str("invalid use of operand ").concat(binop_text(op).as_str()),
        details: Some(
            (
                span,
                String::from_str("type mismatch: ").concat(typeval_name(ltv).as_str()).concat(
                    " ",
                ).concat(binop_text(op).as_str()).concat(" ").concat(typeval_name(rtv).as_str()),
            ),
        ),
    }
}

/// View of the diagnostic for a call of an unknown function name.
pub open spec fn unknown_function_view(ident: Seq<char>, span: Span) -> DiagView {
    DiagView {
        message: "unknown function identifier "@ + ident,
        details: Some((span, "in this expression"@)),
    }
}

pub fn gen_unknown_function(ident: &Ident, span: Span) -> (r: Diagnostic)
    ensures
        r@ == unknown_function_view(ident@, span),
{
    Diagnostic {
        message: String::from_str("unknown function identifier ").concat(ident.as_str()),
        details: Some((span, String::from_str("in this expression"))),
    }
}

/// View of the diagnostic for an expression using an undeclared variable.
pub open spec fn undeclared_variable_exp_view(ident: Seq<char>, span: Span) -> DiagView {
    DiagView {
        message: "undeclared variable "@ + ident,
        details: Some((span, "in this expression"@)),
    }
}

pub fn gen_undeclared_variable_in_exp(ident: &Ident, span: Span) -> (r: Diagnostic)
    ensures
        r@ == undeclared_variable_exp_view(ident@, span),
{
    Diagnostic {
        message: String::from_str("undeclared variable ").concat(ident.as_str()),
        details: Some((span, String::from_str("in this expression"))),
    }
}

/// View of the diagnostic for call arguments that do not match the callee's
/// signature.
pub open spec fn invalid_arg_types_view(
    ident: Seq<char>,
    expected: Seq<Type>,
    found: Seq<Type>,
    span: Span,
) -> DiagView {
    DiagView {
        message: "invalid argument types"@,
        details: Some(
            (
                span,
                "expected "@ + ident + "("@ + spec_type_list(expected) + "), found "@ + ident + "("@
                    + spec_type_list(found) + ")"@,
            ),
        ),
    }
}

pub fn gen_invalid_arg_types(
    ident: &Ident,
    expected: &Vec<Type>,
    found: &Vec<Type>,
    span: Span,
) -> (r: Diagnostic)
    ensures
        r@ == invalid_arg_types_view(ident@, expected@, found@, span),
{
    Diagnostic {
        message: String::from_str("invalid argument types"),
        details: Some(
            (
                span,
                String::from_str("expected ").concat(ident.as_str()).concat("(").concat(
                    render_type_list(expected).as_str(),
                ).concat("), found ").concat(ident.as_str()).concat("(").concat(
                    render_type_list(found).as_str(),
                ).concat(")"),
            ),
        ),
    }
}

/// View of the diagnostic for a `return` whose operand has the wrong type.
pub open spec fn invalid_return_type_view(expected: Type, found: ExpTypeVal, span: Span) -> DiagView {
    DiagView {
        message: "invalid return type"@,
        details: Some(
            (span, "expected "@ + spec_type_name(expected) + ", found "@ + spec_typeval_name(found)),
        ),
    }
}

pub fn gen_invalid_return_type(expected: &Type, found: &ExpTypeVal, span: Span) -> (r: Diagnostic)
    ensures
        r@ == invalid_return_type_view(*expected, *found, span),
{
    Diagnostic {
        message: String::from_str("invalid return type"),
        details: Some(
            (
                span,
                String::from_str("expected ").concat(render_type(expected).as_str()).concat(
                    ", found ",
                ).concat(typeval_name(found).as_str()),
            ),
        ),
    }
}

/// View of the diagnostic for a bare `return` in a non-void function.
pub open spec fn invalid_vret_view(expected: Type, span: Span) -> DiagView {
    DiagView {
        message: "invalid return type"@,
        details: Some((span, "expected "@ + spec_type_name(expected) + ", found none"@)),
    }
}

pub fn gen_invalid_vret(expected: &Type, span: Span) -> (r: Diagnostic)
    ensures
        r@ == invalid_vret_view(*expected, span),
{
    Diagnostic {
        message: String::from_str("invalid return type"),
        details: Some(
            (
                span,
                String::from_str("expected ").concat(render_type(expected).as_str()).concat(
                    ", found none",
                ),
            ),
        ),
    }
}

/// View of the diagnostic for a non-void function that may fall off its end.
pub open spec fn missing_return_view(ident: Seq<char>) -> DiagView {
    DiagView { message: "no return statement in non-void function "@ + ident, details: None }
}

pub fn gen_missing_return(ident: &Ident) -> (r: Diagnostic)
    ensures
        r@ == missing_return_view(ident@),
{
    Diagnostic {
        message: String::from_str("no return statement in non-void function ").concat(
            ident.as_str(),
        ),
        details: None,
    }
}

/// View of the diagnostic for a program without a `main` function.
pub open spec fn no_main_view() -> DiagView {
    DiagView { message: "missing main function"@, details: None }
}

pub fn gen_no_main() -> (r: Diagnostic)
    ensures
        r@ == no_main_view(),
{
    Diagnostic { message: String::from_str("missing main function"), details: None }
}

/// View of the diagnostic for a `main` with the wrong signature.
pub open spec fn invalid_main_view() -> DiagView {
    DiagView { message: "invalid main function"@, details: None }
}

pub fn gen_invalid_main() -> (r: Diagnostic)
    ensures
        r@ == invalid_main_view(),
{
    Diagnostic { message: String::from_str("invalid main function"), details: None }
}

/// View of the diagnostic for a function name defined twice.
pub open spec fn multiple_fn_def_view(ident: Seq<char>, span: Span) -> DiagView {
    DiagView {
        message: "multiple declaration of function "@ + ident,
        details: Some((span, "defined second time here"@)),
    }
}

pub fn gen_multiple_fn_def(ident: &Ident, span: Span) -> (r: Diagnostic)
    ensures
        r@ == multiple_fn_def_view(ident@, span),
{
    Diagnostic {
        message: String::from_str("multiple declaration of function ").concat(ident.as_str()),
        details: Some((span, String::from_str("defined second time here"))),
    }
}

/// View of the diagnostic for a variable declared twice in one block.
pub open spec fn multiple_var_decl_view(ident: Seq<char>, span: Span) -> DiagView {
    DiagView {
        message: "variable already declared in current scope "@ + ident,
        details: Some((span, "second definition here"@)),
    }
}

pub fn gen_multiple_var_decl(ident: &Ident, span: Span) -> (r: Diagnostic)
    ensures
        r@ == multiple_var_decl_view(ident@, span),
{
    Diagnostic {
        message: String::from_str("variable already declared in current scope ").concat(
            ident.as_str(),
        ),
        details: Some((span, String::from_str("second definition here"))),
    }
}

/// View of the diagnostic for a statement using an undeclared variable.
pub open spec fn undeclared_variable_view(ident: Seq<char>, span: Span) -> DiagView {
    DiagView {
        message: "undeclared variable "@ + ident,
        details: Some((span, "in this statement"@)),
    }
}

pub fn gen_undeclared_variable_in_stmt(ident: &Ident, span: Span) -> (r: Diagnostic)
    ensures
        r@ == undeclared_variable_view(ident@, span),
{
    Diagnostic {
        message: String::from_str("undeclared variable ").concat(ident.as_str()),
        details: Some((span, String::from_str("in this statement"))),
    }
}

/// View of the diagnostic for an expression whose type is not the expected
/// one.
pub open spec fn invalid_expression_type_view(expected: Type, actual: ExpTypeVal, span: Span) -> DiagView {
    DiagView {
        message: "invalid expression type"@,
        details: Some(
            (span, "expected "@ + spec_type_name(expected) + ", got "@ + spec_typeval_name(actual)),
        ),
    }
}

pub fn gen_invalid_expression_type(expected: &Type, actual: &ExpTypeVal, span: Span) -> (r:
    Diagnostic)
    ensures
        r@ == invalid_expression_type_view(*expected, *actual, span),
{
    let note = String::from_str("expected ").concat(render_type(expected).as_str()).concat(
        ", got ",
    ).concat(typeval_name(actual).as_str());
    Diagnostic { message: String::from_str("invalid expression type"), details: Some((span, note)) }
}

} // verus!
