//! Semantic analyzer: scope-aware type checking, constant propagation and
//! control-reachability analysis over the syntax tree.
//!
//! The analyzer walks the tree top-down, builds a global function-signature
//! table, and per function builds a scoped environment of variable types.
//! Every expression node is annotated with an `ExpTypeVal`, every statement
//! node with a will-return fact, and statements that follow a definitely
//! returning statement are pruned.  All diagnostics of a pass are collected;
//! an `Invalid` abstract value suppresses cascading reports.

use crate::ast::{
    BinaryOp, DeclBody, Exp, ExpNode, ExpTypeVal, FnDef, FnSignature, Ident, Program, Span, Stmt,
    StmtNode, Type, TypeSpecifier, UnaryOp, VarDecl,
};
use crate::ast::{spec_from_type, spec_signature, spec_type_of};
use crate::diag;
use crate::diag::{DiagView, Diagnostic};
use crate::scoped_map::{lookup, scope_has_key, scope_insert, str_eq, ScopedMap};
use vstd::arithmetic::div_mod::lemma_fundamental_div_mod;
use vstd::pervasive::unreached;
use vstd::prelude::*;

verus! {

/// Per-function environment: variable name to declared type.
pub type Env = ScopedMap<Type>;

pub type EnvView = Seq<Seq<(Ident, Type)>>;

/// Abstract image of the function table: name view to signature view.
pub type FnEnvView = Seq<(Seq<char>, (Type, Seq<Type>))>;

/// Does a signed value fit the 32-bit range?
pub open spec fn in_i32(n: int) -> bool {
    i32::MIN <= n <= i32::MAX
}

pub open spec fn iabs(n: int) -> int {
    if n >= 0 {
        n
    } else {
        -n
    }
}

/// Division truncating toward zero, as the source language's `/` computes it
/// (for a nonzero divisor).
pub open spec fn tdiv(a: int, b: int) -> int {
    if (a >= 0) == (b >= 0) {
        iabs(a) / iabs(b)
    } else {
        -(iabs(a) / iabs(b))
    }
}

/// Remainder matching `tdiv`: same sign as the dividend.
pub open spec fn tmod(a: int, b: int) -> int {
    a - b * tdiv(a, b)
}

/// Abstract evaluation of a unary operator.  A known operand folds to a
/// known result; a fold whose value would leave the 32-bit range is left
/// unknown rather than misstated.
pub open spec fn spec_unary_tv(op: UnaryOp, tv: ExpTypeVal) -> ExpTypeVal {
    match (op, tv) {
        (UnaryOp::Neg, ExpTypeVal::Int(Some(v))) => if in_i32(-(v as int)) {
            ExpTypeVal::Int(Some((-(v as int)) as i32))
        } else {
            ExpTypeVal::Int(None)
        },
        (UnaryOp::Neg, ExpTypeVal::Int(None)) => ExpTypeVal::Int(None),
        (UnaryOp::Not, ExpTypeVal::Bool(Some(v))) => ExpTypeVal::Bool(Some(!v)),
        (UnaryOp::Not, ExpTypeVal::Bool(None)) => ExpTypeVal::Bool(None),
        _ => ExpTypeVal::Invalid,
    }
}

/// Abstract evaluation of a binary operator: the typing rules of the
/// language, with constant folding.  Division and modulo fold only for a
/// known nonzero divisor; equality folds for known operands of any one
/// value type; string concatenation is typed but never folded.
pub open spec fn spec_binary_tv(op: BinaryOp, l: ExpTypeVal, r: ExpTypeVal) -> ExpTypeVal {
    match (op, l, r) {
        (BinaryOp::Eq, ExpTypeVal::Bool(Some(a)), ExpTypeVal::Bool(Some(b))) => ExpTypeVal::Bool(
            Some(a == b),
        ),
        (BinaryOp::Eq, ExpTypeVal::Int(Some(a)), ExpTypeVal::Int(Some(b))) => ExpTypeVal::Bool(
            Some(a == b),
        ),
        (BinaryOp::Neq, ExpTypeVal::Bool(Some(a)), ExpTypeVal::Bool(Some(b))) => ExpTypeVal::Bool(
            Some(a != b),
        ),
        (BinaryOp::Neq, ExpTypeVal::Int(Some(a)), ExpTypeVal::Int(Some(b))) => ExpTypeVal::Bool(
            Some(a != b),
        ),
        (BinaryOp::Or, ExpTypeVal::Bool(Some(a)), ExpTypeVal::Bool(Some(b))) => ExpTypeVal::Bool(
            Some(a || b),
        ),
        (BinaryOp::And, ExpTypeVal::Bool(Some(a)), ExpTypeVal::Bool(Some(b))) => ExpTypeVal::Bool(
            Some(a && b),
        ),
        (BinaryOp::Gt, ExpTypeVal::Int(Some(a)), ExpTypeVal::Int(Some(b))) => ExpTypeVal::Bool(
            Some(a > b),
        ),
        (BinaryOp::Gte, ExpTypeVal::Int(Some(a)), ExpTypeVal::Int(Some(b))) => ExpTypeVal::Bool(
            Some(a >= b),
        ),
        (BinaryOp::Lt, ExpTypeVal::Int(Some(a)), ExpTypeVal::Int(Some(b))) => ExpTypeVal::Bool(
            Some(a < b),
        ),
        (BinaryOp::Lte, ExpTypeVal::Int(Some(a)), ExpTypeVal::Int(Some(b))) => ExpTypeVal::Bool(
            Some(a <= b),
        ),
        (BinaryOp::Add, ExpTypeVal::Int(Some(a)), ExpTypeVal::Int(Some(b))) => if in_i32(
            a as int + b as int,
        ) {
            ExpTypeVal::Int(Some((a as int + b as int) as i32))
        } else {
            ExpTypeVal::Int(None)
        },
        (BinaryOp::Sub, ExpTypeVal::Int(Some(a)), ExpTypeVal::Int(Some(b))) => if in_i32(
            a as int - b as int,
        ) {
            ExpTypeVal::Int(Some((a as int - b as int) as i32))
        } else {
            ExpTypeVal::Int(None)
        },
        (BinaryOp::Mul, ExpTypeVal::Int(Some(a)), ExpTypeVal::Int(Some(b))) => if in_i32(
            a as int * b as int,
        ) {
            ExpTypeVal::Int(Some((a as int * b as int) as i32))
        } else {
            ExpTypeVal::Int(None)
        },
        (BinaryOp::Div, ExpTypeVal::Int(Some(a)), ExpTypeVal::Int(Some(b))) => if b != 0 && in_i32(
            tdiv(a as int, b as int),
        ) {
            ExpTypeVal::Int(Some(tdiv(a as int, b as int) as i32))
        } else {
            ExpTypeVal::Int(None)
        },
        (BinaryOp::Mod, ExpTypeVal::Int(Some(a)), ExpTypeVal::Int(Some(b))) => if b != 0 {
            ExpTypeVal::Int(Some(tmod(a as int, b as int) as i32))
        } else {
            ExpTypeVal::Int(None)
        },
        (BinaryOp::Eq, ExpTypeVal::Str(Some(a)), ExpTypeVal::Str(Some(b))) => ExpTypeVal::Bool(
            Some(a@ == b@),
        ),
        (BinaryOp::Neq, ExpTypeVal::Str(Some(a)), ExpTypeVal::Str(Some(b))) => ExpTypeVal::Bool(
            Some(a@ != b@),
        ),
        (BinaryOp::Eq, ExpTypeVal::Bool(_), ExpTypeVal::Bool(_)) => ExpTypeVal::Bool(None),
        (BinaryOp::Eq, ExpTypeVal::Int(_), ExpTypeVal::Int(_)) => ExpTypeVal::Bool(None),
        (BinaryOp::Eq, ExpTypeVal::Str(_), ExpTypeVal::Str(_)) => ExpTypeVal::Bool(None),
        (BinaryOp::Neq, ExpTypeVal::Bool(_), ExpTypeVal::Bool(_)) => ExpTypeVal::Bool(None),
        (BinaryOp::Neq, ExpTypeVal::Int(_), ExpTypeVal::Int(_)) => ExpTypeVal::Bool(None),
        (BinaryOp::Neq, ExpTypeVal::Str(_), ExpTypeVal::Str(_)) => ExpTypeVal::Bool(None),
        (BinaryOp::Or, ExpTypeVal::Bool(_), ExpTypeVal::Bool(_)) => ExpTypeVal::Bool(None),
        (BinaryOp::And, ExpTypeVal::Bool(_), ExpTypeVal::Bool(_)) => ExpTypeVal::Bool(None),
        (BinaryOp::Gt, ExpTypeVal::Int(_), ExpTypeVal::Int(_)) => ExpTypeVal::Bool(None),
        (BinaryOp::Gte, ExpTypeVal::Int(_), ExpTypeVal::Int(_)) => ExpTypeVal::Bool(None),
        (BinaryOp::Lt, ExpTypeVal::Int(_), ExpTypeVal::Int(_)) => ExpTypeVal::Bool(None),
        (BinaryOp::Lte, ExpTypeVal::Int(_), ExpTypeVal::Int(_)) => ExpTypeVal::Bool(None),
        (BinaryOp::Add, ExpTypeVal::Int(_), ExpTypeVal::Int(_)) => ExpTypeVal::Int(None),
        (BinaryOp::Add, ExpTypeVal::Str(_), ExpTypeVal::Str(_)) => ExpTypeVal::Str(None),
        (BinaryOp::Sub, ExpTypeVal::Int(_), ExpTypeVal::Int(_)) => ExpTypeVal::Int(None),
        (BinaryOp::Mul, ExpTypeVal::Int(_), ExpTypeVal::Int(_)) => ExpTypeVal::Int(None),
        (BinaryOp::Div, ExpTypeVal::Int(_), ExpTypeVal::Int(_)) => ExpTypeVal::Int(None),
        (BinaryOp::Mod, ExpTypeVal::Int(_), ExpTypeVal::Int(_)) => ExpTypeVal::Int(None),
        _ => ExpTypeVal::Invalid,
    }
}

fn fold_neg(v: i32) -> (r: Option<i32>)
    ensures
        in_i32(-(v as int)) ==> r == Some((-(v as int)) as i32),
        !in_i32(-(v as int)) ==> r is None,
{
    if v == i32::MIN {
        None
    } else {
        Some(-v)
    }
}

fn fold_add(a: i32, b: i32) -> (r: Option<i32>)
    ensures
        in_i32(a as int + b as int) ==> r == Some((a as int + b as int) as i32),
        !in_i32(a as int + b as int) ==> r is None,
{
    let s: i64 = (a as i64) + (b as i64);
    if s >= -2147483648i64 && s <= 2147483647i64 {
        Some(s as i32)
    } else {
        None
    }
}

fn fold_sub(a: i32, b: i32) -> (r: Option<i32>)
    ensures
        in_i32(a as int - b as int) ==> r == Some((a as int - b as int) as i32),
        !in_i32(a as int - b as int) ==> r is None,
{
    let s: i64 = (a as i64) - (b as i64);
    if s >= -2147483648i64 && s <= 2147483647i64 {
        Some(s as i32)
    } else {
        None
    }
}

fn fold_mul(a: i32, b: i32) -> (r: Option<i32>)
    ensures
        in_i32(a as int * b as int) ==> r == Some((a as int * b as int) as i32),
        !in_i32(a as int * b as int) ==> r is None,
{
    proof {
        assert((a as int) * (b as int) <= 0x4000000000000000 && (a as int) * (b as int)
            >= -0x4000000000000000) by (nonlinear_arith)
            requires
                -0x80000000 <= a as int <= 0x7fffffff,
                -0x80000000 <= b as int <= 0x7fffffff,
        ;
    }
    let s: i64 = (a as i64) * (b as i64);
    if s >= -2147483648i64 && s <= 2147483647i64 {
        Some(s as i32)
    } else {
        None
    }
}

/// Magnitude of an `i32` as a `u64`.
fn abs_u64(a: i32) -> (r: u64)
    ensures
        r as int == iabs(a as int),
{
    if a >= 0 {
        a as u64
    } else {
        (-(a as i64)) as u64
    }
}

fn fold_div(a: i32, b: i32) -> (r: Option<i32>)
    ensures
        b as int == 0 ==> r is None,
        b as int != 0 && in_i32(tdiv(a as int, b as int)) ==> r == Some(
            tdiv(a as int, b as int) as i32,
        ),
        b as int != 0 && !in_i32(tdiv(a as int, b as int)) ==> r is None,
{
    if b == 0 {
        return None;
    }
    let la = abs_u64(a);
    let lb = abs_u64(b);
    let q = la / lb;
    let qi: i64 = q as i64;
    let neg = (a < 0) != (b < 0);
    let res: i64 = if neg {
        -qi
    } else {
        qi
    };
    proof {
        assert(q as int == iabs(a as int) / iabs(b as int));
        assert(res as int == tdiv(a as int, b as int));
    }
    if res >= -2147483648i64 && res <= 2147483647i64 {
        Some(res as i32)
    } else {
        None
    }
}

fn fold_mod(a: i32, b: i32) -> (r: Option<i32>)
    ensures
        b as int == 0 ==> r is None,
        b as int != 0 ==> r == Some(tmod(a as int, b as int) as i32),
{
    if b == 0 {
        return None;
    }
    let la = abs_u64(a);
    let lb = abs_u64(b);
    let m = la % lb;
    let mi: i64 = m as i64;
    let res: i64 = if a < 0 {
        -mi
    } else {
        mi
    };
    proof {
        let ai = a as int;
        let bi = b as int;
        lemma_fundamental_div_mod(la as int, lb as int);
        assert(m as int == iabs(ai) - iabs(bi) * (iabs(ai) / iabs(bi)));
        assert(res as int == ai - bi * tdiv(ai, bi)) by (nonlinear_arith)
            requires
                m as int == iabs(ai) - iabs(bi) * (iabs(ai) / iabs(bi)),
                iabs(ai) == if ai >= 0 { ai } else { -ai },
                iabs(bi) == if bi >= 0 { bi } else { -bi },
                tdiv(ai, bi) == if (ai >= 0) == (bi >= 0) {
                    iabs(ai) / iabs(bi)
                } else {
                    -(iabs(ai) / iabs(bi))
                },
                res as int == if ai < 0 {
                    -(m as int)
                } else {
                    m as int
                },
                bi != 0,
        ;
        assert(0 <= m as int && (m as int) < iabs(bi));
        assert(in_i32(res as int));
    }
    Some(res as i32)
}

/// The typing-and-folding rule for unary operators, exactly as
/// `spec_unary_tv` states it.
pub fn get_unary_op_typeval(op: &UnaryOp, typeval: &ExpTypeVal) -> (r: ExpTypeVal)
    ensures
        r == spec_unary_tv(*op, *typeval),
{
    match (op, typeval) {
        (UnaryOp::Neg, ExpTypeVal::Int(Some(v))) => match fold_neg(*v) {
            Some(c) => ExpTypeVal::Int(Some(c)),
            None => ExpTypeVal::Int(None),
        },
        (UnaryOp::Neg, ExpTypeVal::Int(None)) => ExpTypeVal::Int(None),
        (UnaryOp::Not, ExpTypeVal::Bool(Some(v))) => ExpTypeVal::Bool(Some(!*v)),
        (UnaryOp::Not, ExpTypeVal::Bool(None)) => ExpTypeVal::Bool(None),
        _ => ExpTypeVal::Invalid,
    }
}

/// The typing-and-folding rule for binary operators, exactly as
/// `spec_binary_tv` states it.
pub fn get_binary_op_typeval(op: &BinaryOp, ltypeval: &ExpTypeVal, rtypeval: &ExpTypeVal) -> (r:
    ExpTypeVal)
    ensures
        r == spec_binary_tv(*op, *ltypeval, *rtypeval),
{
    match (op, ltypeval, rtypeval) {
        (BinaryOp::Eq, ExpTypeVal::Bool(Some(a)), ExpTypeVal::Bool(Some(b))) => ExpTypeVal::Bool(
            Some(*a == *b),
        ),
        (BinaryOp::Eq, ExpTypeVal::Int(Some(a)), ExpTypeVal::Int(Some(b))) => ExpTypeVal::Bool(
            Some(*a == *b),
        ),
        (BinaryOp::Neq, ExpTypeVal::Bool(Some(a)), ExpTypeVal::Bool(Some(b))) => ExpTypeVal::Bool(
            Some(*a != *b),
        ),
        (BinaryOp::Neq, ExpTypeVal::Int(Some(a)), ExpTypeVal::Int(Some(b))) => ExpTypeVal::Bool(
            Some(*a != *b),
        ),
        (BinaryOp::Or, ExpTypeVal::Bool(Some(a)), ExpTypeVal::Bool(Some(b))) => ExpTypeVal::Bool(
            Some(*a || *b),
        ),
        (BinaryOp::And, ExpTypeVal::Bool(Some(a)), ExpTypeVal::Bool(Some(b))) => ExpTypeVal::Bool(
            Some(*a && *b),
        ),
        (BinaryOp::Gt, ExpTypeVal::Int(Some(a)), ExpTypeVal::Int(Some(b))) => ExpTypeVal::Bool(
            Some(*a > *b),
        ),
        (BinaryOp::Gte, ExpTypeVal::Int(Some(a)), ExpTypeVal::Int(Some(b))) => ExpTypeVal::Bool(
            Some(*a >= *b),
        ),
        (BinaryOp::Lt, ExpTypeVal::Int(Some(a)), ExpTypeVal::Int(Some(b))) => ExpTypeVal::Bool(
            Some(*a < *b),
        ),
        (BinaryOp::Lte, ExpTypeVal::Int(Some(a)), ExpTypeVal::Int(Some(b))) => ExpTypeVal::Bool(
            Some(*a <= *b),
        ),
        (BinaryOp::Add, ExpTypeVal::Int(Some(a)), ExpTypeVal::Int(Some(b))) => match fold_add(
            *a,
            *b,
        ) {
            Some(c) => ExpTypeVal::Int(Some(c)),
            None => ExpTypeVal::Int(None),
        },
        (BinaryOp::Sub, ExpTypeVal::Int(Some(a)), ExpTypeVal::Int(Some(b))) => match fold_sub(
            *a,
            *b,
        ) {
            Some(c) => ExpTypeVal::Int(Some(c)),
            None => ExpTypeVal::Int(None),
        },
        (BinaryOp::Mul, ExpTypeVal::Int(Some(a)), ExpTypeVal::Int(Some(b))) => match fold_mul(
            *a,
            *b,
        ) {
            Some(c) => ExpTypeVal::Int(Some(c)),
            None => ExpTypeVal::Int(None),
        },
        (BinaryOp::Div, ExpTypeVal::Int(Some(a)), ExpTypeVal::Int(Some(b))) => match fold_div(
            *a,
            *b,
        ) {
            Some(c) => ExpTypeVal::Int(Some(c)),
            None => ExpTypeVal::Int(None),
        },
        (BinaryOp::Mod, ExpTypeVal::Int(Some(a)), ExpTypeVal::Int(Some(b))) => match fold_mod(
            *a,
            *b,
        ) {
            Some(c) => ExpTypeVal::Int(Some(c)),
            None => ExpTypeVal::Int(None),
        },
        (BinaryOp::Eq, ExpTypeVal::Str(Some(a)), ExpTypeVal::Str(Some(b))) => ExpTypeVal::Bool(
            Some(str_eq(a, b)),
        ),
        (BinaryOp::Neq, ExpTypeVal::Str(Some(a)), ExpTypeVal::Str(Some(b))) => ExpTypeVal::Bool(
            Some(!str_eq(a, b)),
        ),
        (BinaryOp::Eq, ExpTypeVal::Bool(_), ExpTypeVal::Bool(_)) => ExpTypeVal::Bool(None),
        (BinaryOp::Eq, ExpTypeVal::Int(_), ExpTypeVal::Int(_)) => ExpTypeVal::Bool(None),
        (BinaryOp::Eq, ExpTypeVal::Str(_), ExpTypeVal::Str(_)) => ExpTypeVal::Bool(None),
        (BinaryOp::Neq, ExpTypeVal::Bool(_), ExpTypeVal::Bool(_)) => ExpTypeVal::Bool(None),
        (BinaryOp::Neq, ExpTypeVal::Int(_), ExpTypeVal::Int(_)) => ExpTypeVal::Bool(None),
        (BinaryOp::Neq, ExpTypeVal::Str(_), ExpTypeVal::Str(_)) => ExpTypeVal::Bool(None),
        (BinaryOp::Or, ExpTypeVal::Bool(_), ExpTypeVal::Bool(_)) => ExpTypeVal::Bool(None),
        (BinaryOp::And, ExpTypeVal::Bool(_), ExpTypeVal::Bool(_)) => ExpTypeVal::Bool(None),
        (BinaryOp::Gt, ExpTypeVal::Int(_), ExpTypeVal::Int(_)) => ExpTypeVal::Bool(None),
        (BinaryOp::Gte, ExpTypeVal::Int(_), ExpTypeVal::Int(_)) => ExpTypeVal::Bool(None),
        (BinaryOp::Lt, ExpTypeVal::Int(_), ExpTypeVal::Int(_)) => ExpTypeVal::Bool(None),
        (BinaryOp::Lte, ExpTypeVal::Int(_), ExpTypeVal::Int(_)) => ExpTypeVal::Bool(None),
        (BinaryOp::Add, ExpTypeVal::Int(_), ExpTypeVal::Int(_)) => ExpTypeVal::Int(None),
        (BinaryOp::Add, ExpTypeVal::Str(_), ExpTypeVal::Str(_)) => ExpTypeVal::Str(None),
        (BinaryOp::Sub, ExpTypeVal::Int(_), ExpTypeVal::Int(_)) => ExpTypeVal::Int(None),
        (BinaryOp::Mul, ExpTypeVal::Int(_), ExpTypeVal::Int(_)) => ExpTypeVal::Int(None),
        (BinaryOp::Div, ExpTypeVal::Int(_), ExpTypeVal::Int(_)) => ExpTypeVal::Int(None),
        (BinaryOp::Mod, ExpTypeVal::Int(_), ExpTypeVal::Int(_)) => ExpTypeVal::Int(None),
        _ => ExpTypeVal::Invalid,
    }
}

/// Constant folding soundness for logical, equality and relational
/// operators: known operands of any one value type fold to exactly the
/// operator's result.
pub proof fn lemma_fold_logic_exact(a: bool, b: bool, x: i32, y: i32, p: String, q: String)
    ensures
        spec_binary_tv(BinaryOp::Eq, ExpTypeVal::Str(Some(p)), ExpTypeVal::Str(Some(q)))
            == ExpTypeVal::Bool(Some(p@ == q@)),
        spec_binary_tv(BinaryOp::Neq, ExpTypeVal::Str(Some(p)), ExpTypeVal::Str(Some(q)))
            == ExpTypeVal::Bool(Some(p@ != q@)),
        spec_binary_tv(BinaryOp::And, ExpTypeVal::Bool(Some(a)), ExpTypeVal::Bool(Some(b)))
            == ExpTypeVal::Bool(Some(a && b)),
        spec_binary_tv(BinaryOp::Or, ExpTypeVal::Bool(Some(a)), ExpTypeVal::Bool(Some(b)))
            == ExpTypeVal::Bool(Some(a || b)),
        spec_binary_tv(BinaryOp::Eq, ExpTypeVal::Bool(Some(a)), ExpTypeVal::Bool(Some(b)))
            == ExpTypeVal::Bool(Some(a == b)),
        spec_binary_tv(BinaryOp::Neq, ExpTypeVal::Bool(Some(a)), ExpTypeVal::Bool(Some(b)))
            == ExpTypeVal::Bool(Some(a != b)),
        spec_binary_tv(BinaryOp::Eq, ExpTypeVal::Int(Some(x)), ExpTypeVal::Int(Some(y)))
            == ExpTypeVal::Bool(Some(x == y)),
        spec_binary_tv(BinaryOp::Neq, ExpTypeVal::Int(Some(x)), ExpTypeVal::Int(Some(y)))
            == ExpTypeVal::Bool(Some(x != y)),
        spec_binary_tv(BinaryOp::Gt, ExpTypeVal::Int(Some(x)), ExpTypeVal::Int(Some(y)))
            == ExpTypeVal::Bool(Some(x > y)),
        spec_binary_tv(BinaryOp::Gte, ExpTypeVal::Int(Some(x)), ExpTypeVal::Int(Some(y)))
            == ExpTypeVal::Bool(Some(x >= y)),
        spec_binary_tv(BinaryOp::Lt, ExpTypeVal::Int(Some(x)), ExpTypeVal::Int(Some(y)))
            == ExpTypeVal::Bool(Some(x < y)),
        spec_binary_tv(BinaryOp::Lte, ExpTypeVal::Int(Some(x)), ExpTypeVal::Int(Some(y)))
            == ExpTypeVal::Bool(Some(x <= y)),
{
}

/// Constant folding soundness for integer arithmetic: for known operands
/// whose mathematical result fits the 32-bit range, the fold is exactly
/// that result; an out-of-range result is left unknown, never misstated.
pub proof fn lemma_fold_arith_exact(x: i32, y: i32)
    ensures
        in_i32(x as int + y as int) ==> spec_binary_tv(
            BinaryOp::Add,
            ExpTypeVal::Int(Some(x)),
            ExpTypeVal::Int(Some(y)),
        ) == ExpTypeVal::Int(Some((x as int + y as int) as i32)),
        !in_i32(x as int + y as int) ==> spec_binary_tv(
            BinaryOp::Add,
            ExpTypeVal::Int(Some(x)),
            ExpTypeVal::Int(Some(y)),
        ) == ExpTypeVal::Int(None),
        in_i32(x as int - y as int) ==> spec_binary_tv(
            BinaryOp::Sub,
            ExpTypeVal::Int(Some(x)),
            ExpTypeVal::Int(Some(y)),
        ) == ExpTypeVal::Int(Some((x as int - y as int) as i32)),
        in_i32(x as int * y as int) ==> spec_binary_tv(
            BinaryOp::Mul,
            ExpTypeVal::Int(Some(x)),
            ExpTypeVal::Int(Some(y)),
        ) == ExpTypeVal::Int(Some((x as int * y as int) as i32)),
        in_i32(-(x as int)) ==> spec_unary_tv(UnaryOp::Neg, ExpTypeVal::Int(Some(x)))
            == ExpTypeVal::Int(Some((-(x as int)) as i32)),
        spec_unary_tv(UnaryOp::Not, ExpTypeVal::Bool(Some(true))) == ExpTypeVal::Bool(Some(false)),
        spec_unary_tv(UnaryOp::Not, ExpTypeVal::Bool(Some(false))) == ExpTypeVal::Bool(Some(true)),
{
}

/// Division and modulo guard: a known zero divisor never folds, and a
/// known nonzero divisor folds to the truncating quotient or remainder.
/// The one quotient that leaves the 32-bit range (the minimum value
/// divided by minus one) is also left unknown.
pub proof fn lemma_div_mod_guard(x: i32, y: i32)
    ensures
        spec_binary_tv(BinaryOp::Div, ExpTypeVal::Int(Some(x)), ExpTypeVal::Int(Some(0i32)))
            == ExpTypeVal::Int(None),
        spec_binary_tv(BinaryOp::Mod, ExpTypeVal::Int(Some(x)), ExpTypeVal::Int(Some(0i32)))
            == ExpTypeVal::Int(None),
        y != 0 && !(x == i32::MIN && y == -1) ==> spec_binary_tv(
            BinaryOp::Div,
            ExpTypeVal::Int(Some(x)),
            ExpTypeVal::Int(Some(y)),
        ) == ExpTypeVal::Int(Some(tdiv(x as int, y as int) as i32)),
        y != 0 ==> spec_binary_tv(
            BinaryOp::Mod,
            ExpTypeVal::Int(Some(x)),
            ExpTypeVal::Int(Some(y)),
        ) == ExpTypeVal::Int(Some(tmod(x as int, y as int) as i32)),
{
    if y != 0 && !(x == i32::MIN && y == -1) {
        lemma_tdiv_in_range(x as int, y as int);
    }
}

/// For 32-bit operands, the truncating quotient leaves the 32-bit range
/// only for the minimum value divided by minus one.
proof fn lemma_tdiv_in_range(a: int, b: int)
    requires
        in_i32(a),
        in_i32(b),
        b != 0,
        !(a == i32::MIN && b == -1),
    ensures
        in_i32(tdiv(a, b)),
{
    let ia = iabs(a);
    let ib = iabs(b);
    lemma_fundamental_div_mod(ia, ib);
    let q = ia / ib;
    assert(0 <= q <= ia) by (nonlinear_arith)
        requires
            ia >= 0,
            ib >= 1,
            q == ia / ib,
            ia == ib * q + ia % ib,
            0 <= ia % ib < ib,
    ;
    if q == ia && ia > 0 {
        assert(ib == 1) by (nonlinear_arith)
            requires
                ia > 0,
                ib >= 1,
                ia == ib * ia + ia % ib,
                0 <= ia % ib,
        ;
    }
}

/// Abstract value and diagnostics of one expression, bottom-up.  This is
/// the analyzer's defining semantics: `verify_exp` must produce exactly
/// these diagnostics and annotate the node with exactly this value.
pub open spec fn sem_exp(e: ExpNode, fenv: FnEnvView, env: EnvView) -> (ExpTypeVal, Seq<DiagView>)
    decreases e,
{
    match e.exp {
        Exp::Unary(op, inner) => {
            let (itv, d1) = sem_exp(*inner, fenv, env);
            let tv = spec_unary_tv(op, itv);
            let d2 = if spec_type_of(itv) is Some && spec_type_of(tv) is None {
                seq![diag::invalid_unary_op_view(op, itv, inner.span)]
            } else {
                Seq::empty()
            };
            (tv, d1 + d2)
        },
        Exp::Binary(l, op, r) => {
            let (ltv, d1) = sem_exp(*l, fenv, env);
            let (rtv, d2) = sem_exp(*r, fenv, env);
            let tv = spec_binary_tv(op, ltv, rtv);
            let d3 = if spec_type_of(ltv) is Some && spec_type_of(rtv) is Some && spec_type_of(
                tv,
            ) is None {
                seq![diag::invalid_binary_op_view(op, ltv, rtv, e.span)]
            } else {
                Seq::empty()
            };
            (tv, d1 + d2 + d3)
        },
        Exp::Call(ident, args) => match fenv_lookup(fenv, ident@) {
            None => (ExpTypeVal::Invalid, seq![diag::unknown_function_view(ident@, e.span)]),
            Some((ret_t, ptypes)) => {
                let (tvs, dv) = sem_args(args@, fenv, env);
                let dv2 = match tvs_types(tvs) {
                    Some(ats) => if ats != ptypes {
                        seq![diag::invalid_arg_types_view(ident@, ptypes, ats, e.span)]
                    } else {
                        Seq::empty()
                    },
                    None => Seq::empty(),
                };
                (spec_from_type(ret_t), dv + dv2)
            },
        },
        Exp::Var(ident) => match lookup(env, ident@) {
            None => (ExpTypeVal::Invalid, seq![
                diag::undeclared_variable_exp_view(ident@, e.span),
            ]),
            Some(t) => (spec_from_type(t), Seq::empty()),
        },
        Exp::Int(v) => (ExpTypeVal::Int(Some(v)), Seq::empty()),
        Exp::Bool(v) => (ExpTypeVal::Bool(Some(v)), Seq::empty()),
        Exp::Str(s) => (ExpTypeVal::Str(Some(s)), Seq::empty()),
    }
}

/// Abstract values and diagnostics of a call's arguments, left to right.
pub open spec fn sem_args(args: Seq<Box<ExpNode>>, fenv: FnEnvView, env: EnvView) -> (
    Seq<ExpTypeVal>,
    Seq<DiagView>,
)
    decreases args,
{
    if args.len() == 0 {
        (Seq::empty(), Seq::empty())
    } else {
        let (tv, d1) = sem_exp(*args.first(), fenv, env);
        let (tvs, d2) = sem_args(args.drop_first(), fenv, env);
        (seq![tv] + tvs, d1 + d2)
    }
}

/// The types of a list of abstract values, if every one of them is valid.
pub open spec fn tvs_types(tvs: Seq<ExpTypeVal>) -> Option<Seq<Type>>
    decreases tvs.len(),
{
    if tvs.len() == 0 {
        Some(Seq::empty())
    } else {
        match (spec_type_of(tvs.first()), tvs_types(tvs.drop_first())) {
            (Some(t), Some(rest)) => Some(seq![t] + rest),
            _ => None,
        }
    }
}

/// `n` is `o` with every expression node annotated with its `sem_exp`
/// value, and nothing else changed.  Arguments of a call to an unknown
/// name stay untouched, as the analyzer does not enter them.
pub open spec fn ann_exp(o: ExpNode, n: ExpNode, fenv: FnEnvView, env: EnvView) -> bool
    decreases o,
{
    n.span == o.span && n.typeval == Some(sem_exp(o, fenv, env).0) && match (o.exp, n.exp) {
        (Exp::Unary(op1, i1), Exp::Unary(op2, i2)) => op2 == op1 && ann_exp(*i1, *i2, fenv, env),
        (Exp::Binary(l1, op1, r1), Exp::Binary(l2, op2, r2)) => op2 == op1 && ann_exp(
            *l1,
            *l2,
            fenv,
            env,
        ) && ann_exp(*r1, *r2, fenv, env),
        (Exp::Call(id1, a1), Exp::Call(id2, a2)) => id2 == id1 && (match fenv_lookup(fenv, id1@) {
            None => a2@ == a1@,
            Some(_) => a2@.len() == a1@.len() && forall|i: int|
                0 <= i < a1@.len() ==> ann_exp(*a1@[i], *(#[trigger] a2@[i]), fenv, env),
        }),
        (Exp::Int(v1), Exp::Int(v2)) => v2 == v1,
        (Exp::Bool(v1), Exp::Bool(v2)) => v2 == v1,
        (Exp::Str(s1), Exp::Str(s2)) => s2 == s1,
        (Exp::Var(x1), Exp::Var(x2)) => x2 == x1,
        _ => false,
    }
}

/// Environment after binding one declared variable in the innermost scope
/// (opening a scope first if none is open).
pub open spec fn decl_step_env(t: Type, ident: Ident, env: EnvView) -> EnvView {
    let base = if env.len() == 0 {
        env.push(Seq::empty())
    } else {
        env
    };
    base.update(base.len() - 1, scope_insert(base.last(), ident, t).0)
}

/// Effect of one declaration group: each variable's initializer is checked
/// in the environment built so far, then the variable is bound; binding a
/// name already bound in this very scope reports a redeclaration, and the
/// later declaration still takes effect.
pub open spec fn sem_decl_vars(t: Type, vars: Seq<DeclBody>, fenv: FnEnvView, env: EnvView) -> (
    EnvView,
    Seq<DiagView>,
)
    decreases vars.len(),
{
    if vars.len() == 0 {
        (env, Seq::empty())
    } else {
        let var = vars.first();
        let d_init = match var.init {
            Some(e) => {
                let (itv, dv) = sem_exp(*e, fenv, env);
                dv + if spec_type_of(itv) != Some(t) {
                    seq![diag::invalid_expression_type_view(t, itv, e.span)]
                } else {
                    Seq::empty()
                }
            },
            None => Seq::empty(),
        };
        let base = if env.len() == 0 {
            env.push(Seq::empty())
        } else {
            env
        };
        let d_re = if scope_has_key(base.last(), var.ident@) {
            seq![diag::multiple_var_decl_view(var.ident@, var.span)]
        } else {
            Seq::empty()
        };
        let env2 = decl_step_env(t, var.ident, env);
        let (env3, d_rest) = sem_decl_vars(t, vars.drop_first(), fenv, env2);
        (env3, d_init + d_re + d_rest)
    }
}

pub open spec fn ann_decl_vars(
    t: Type,
    o: Seq<DeclBody>,
    n: Seq<DeclBody>,
    fenv: FnEnvView,
    env: EnvView,
) -> bool
    decreases o.len(),
{
    if o.len() == 0 {
        n.len() == 0
    } else {
        let ov = o.first();
        n.len() >= 1 && {
            let nv = n.first();
            nv.span == ov.span && nv.ident == ov.ident && (match (ov.init, nv.init) {
                (None, None) => true,
                (Some(e1), Some(e2)) => ann_exp(*e1, *e2, fenv, env),
                _ => false,
            }) && ann_decl_vars(
                t,
                o.drop_first(),
                n.drop_first(),
                fenv,
                decl_step_env(t, ov.ident, env),
            )
        }
    }
}

pub open spec fn ann_decl(o: VarDecl, n: VarDecl, fenv: FnEnvView, env: EnvView) -> bool {
    n.span == o.span && n.type_spec == o.type_spec && ann_decl_vars(
        o.type_spec.ttype,
        o.vars@,
        n.vars@,
        fenv,
        env,
    )
}

/// Will-return fact, environment after, and diagnostics of one statement.
/// This mirrors the reachability rules: a block returns when a member
/// does; a conditional with a statically known condition takes the live
/// arm's fact; a `while (true)` can only finish by returning inside.
pub open spec fn sem_stmt(s: StmtNode, ftype: Type, fenv: FnEnvView, env: EnvView) -> (
    bool,
    EnvView,
    Seq<DiagView>,
)
    decreases s,
{
    match s.stmt {
        Stmt::BStmt(ss) => {
            let r = sem_stmts(ss@, ftype, fenv, env.push(Seq::empty()));
            (r.1, r.2.drop_last(), r.3)
        },
        Stmt::Decl(d) => {
            let (env2, dv) = sem_decl_vars(d.type_spec.ttype, d.vars@, fenv, env);
            (false, env2, dv)
        },
        Stmt::Ass(x, e) => {
            let (etv, dv) = sem_exp(*e, fenv, env);
            let dv2 = match lookup(env, x@) {
                None => seq![diag::undeclared_variable_view(x@, s.span)],
                Some(vt) => if spec_type_of(etv) is Some && spec_type_of(etv) != Some(vt) {
                    seq![diag::invalid_expression_type_view(vt, etv, e.span)]
                } else {
                    Seq::empty()
                },
            };
            (false, env, dv + dv2)
        },
        Stmt::Incr(x) => (
            false,
            env,
            match lookup(env, x@) {
                None => seq![diag::undeclared_variable_view(x@, s.span)],
                Some(vt) => if vt != Type::Int {
                    seq![diag::invalid_expression_type_view(Type::Int, spec_from_type(vt), s.span)]
                } else {
                    Seq::empty()
                },
            },
        ),
        Stmt::Decr(x) => (
            false,
            env,
            match lookup(env, x@) {
                None => seq![diag::undeclared_variable_view(x@, s.span)],
                Some(vt) => if vt != Type::Int {
                    seq![diag::invalid_expression_type_view(Type::Int, spec_from_type(vt), s.span)]
                } else {
                    Seq::empty()
                },
            },
        ),
        Stmt::Ret(e) => {
            let (etv, dv) = sem_exp(*e, fenv, env);
            (
                true,
                env,
                dv + if spec_type_of(etv) != Some(ftype) {
                    seq![diag::invalid_return_type_view(ftype, etv, s.span)]
                } else {
                    Seq::empty()
                },
            )
        },
        Stmt::VRet => (
            true,
            env,
            if ftype != Type::Void {
                seq![diag::invalid_vret_view(ftype, s.span)]
            } else {
                Seq::empty()
            },
        ),
        Stmt::Cond(c, t, f) => {
            let (ctv, dvc) = sem_exp(*c, fenv, env);
            let (rt, env1, dvt) = sem_stmt(*t, ftype, fenv, env);
            match f {
                Some(fs) => {
                    let (rf, env2, dvf) = sem_stmt(*fs, ftype, fenv, env1);
                    match ctv {
                        ExpTypeVal::Bool(Some(true)) => (rt, env2, dvc + dvt + dvf),
                        ExpTypeVal::Bool(Some(false)) => (rf, env2, dvc + dvt + dvf),
                        ExpTypeVal::Bool(None) => (rt && rf, env2, dvc + dvt + dvf),
                        _ => (
                            false,
                            env2,
                            dvc + dvt + dvf + seq![
                                diag::invalid_expression_type_view(Type::Bool, ctv, c.span),
                            ],
                        ),
                    }
                },
                None => match ctv {
                    ExpTypeVal::Bool(Some(true)) => (rt, env1, dvc + dvt),
                    ExpTypeVal::Bool(Some(false)) => (false, env1, dvc + dvt),
                    ExpTypeVal::Bool(None) => (false, env1, dvc + dvt),
                    _ => (
                        false,
                        env1,
                        dvc + dvt + seq![
                            diag::invalid_expression_type_view(Type::Bool, ctv, c.span),
                        ],
                    ),
                },
            }
        },
        Stmt::While(c, b) => {
            let (ctv, dvc) = sem_exp(*c, fenv, env);
            let (rb, env1, dvb) = sem_stmt(*b, ftype, fenv, env);
            match ctv {
                ExpTypeVal::Bool(cv) => (cv == Some(true), env1, dvc + dvb),
                _ => (
                    false,
                    env1,
                    dvc + dvb + seq![diag::invalid_expression_type_view(Type::Bool, ctv, c.span)],
                ),
            }
        },
        Stmt::EStmt(e) => (false, env, sem_exp(*e, fenv, env).1),
    }
}

/// Statements of a block, in order, stopping right after the first one
/// that definitely returns: the count of retained statements, the block's
/// fact, the environment after, and the diagnostics.
pub open spec fn sem_stmts(ss: Seq<Box<StmtNode>>, ftype: Type, fenv: FnEnvView, env: EnvView) -> (
    int,
    bool,
    EnvView,
    Seq<DiagView>,
)
    decreases ss,
{
    if ss.len() == 0 {
        (0, false, env, Seq::empty())
    } else {
        let (r1, env1, d1) = sem_stmt(*ss.first(), ftype, fenv, env);
        if r1 {
            (1, true, env1, d1)
        } else {
            let (k, r2, env2, d2) = sem_stmts(ss.drop_first(), ftype, fenv, env1);
            (1 + k, r2, env2, d1 + d2)
        }
    }
}

pub open spec fn ann_stmt(o: StmtNode, n: StmtNode, ftype: Type, fenv: FnEnvView, env: EnvView) -> bool
    decreases o,
{
    n.span == o.span && n.will_return == Some(sem_stmt(o, ftype, fenv, env).0) && match (
        o.stmt,
        n.stmt,
    ) {
        (Stmt::BStmt(ss1), Stmt::BStmt(ss2)) => ann_stmts(
            ss1@,
            ss2@,
            ftype,
            fenv,
            env.push(Seq::empty()),
        ),
        (Stmt::Decl(d1), Stmt::Decl(d2)) => ann_decl(d1, d2, fenv, env),
        (Stmt::Ass(x1, e1), Stmt::Ass(x2, e2)) => x2 == x1 && ann_exp(*e1, *e2, fenv, env),
        (Stmt::Incr(x1), Stmt::Incr(x2)) => x2 == x1,
        (Stmt::Decr(x1), Stmt::Decr(x2)) => x2 == x1,
        (Stmt::Ret(e1), Stmt::Ret(e2)) => ann_exp(*e1, *e2, fenv, env),
        (Stmt::VRet, Stmt::VRet) => true,
        (Stmt::Cond(c1, t1, f1), Stmt::Cond(c2, t2, f2)) => ann_exp(*c1, *c2, fenv, env)
            && ann_stmt(*t1, *t2, ftype, fenv, env) && (match (f1, f2) {
            (None, None) => true,
            (Some(a), Some(b)) => ann_stmt(*a, *b, ftype, fenv, sem_stmt(*t1, ftype, fenv, env).1),
            _ => false,
        }),
        (Stmt::While(c1, b1), Stmt::While(c2, b2)) => ann_exp(*c1, *c2, fenv, env) && ann_stmt(
            *b1,
            *b2,
            ftype,
            fenv,
            env,
        ),
        (Stmt::EStmt(e1), Stmt::EStmt(e2)) => ann_exp(*e1, *e2, fenv, env),
        _ => false,
    }
}

pub open spec fn ann_stmts(
    o: Seq<Box<StmtNode>>,
    n: Seq<Box<StmtNode>>,
    ftype: Type,
    fenv: FnEnvView,
    env: EnvView,
) -> bool
    decreases o,
{
    if o.len() == 0 {
        n.len() == 0
    } else {
        let r1 = sem_stmt(*o.first(), ftype, fenv, env);
        n.len() >= 1 && ann_stmt(*o.first(), *n.first(), ftype, fenv, env) && if r1.0 {
            n.len() == 1
        } else {
            ann_stmts(o.drop_first(), n.drop_first(), ftype, fenv, r1.1)
        }
    }
}

/// The fixed built-in I/O primitives, pre-seeded in every function table.
pub open spec fn builtins() -> FnEnvView {
    seq![
        ("readInt"@, (Type::Int, Seq::<Type>::empty())),
        ("readString"@, (Type::Str, Seq::<Type>::empty())),
        ("printInt"@, (Type::Void, seq![Type::Int])),
        ("printString"@, (Type::Void, seq![Type::Str])),
    ]
}

/// The function table built from the definitions, in order: a repeated
/// name is reported and the first definition wins.
pub open spec fn build_fenv(cur: FnEnvView, fds: Seq<FnDef>) -> (FnEnvView, Seq<DiagView>)
    decreases fds.len(),
{
    if fds.len() == 0 {
        (cur, Seq::empty())
    } else {
        let fd = fds.first();
        let dup = fenv_lookup(cur, fd.ident@) is Some;
        let d1 = if dup {
            seq![diag::multiple_fn_def_view(fd.ident@, fd.span)]
        } else {
            Seq::empty()
        };
        let cur2 = if dup {
            cur
        } else {
            cur.push((fd.ident@, spec_signature(fd)))
        };
        let (fin, rest) = build_fenv(cur2, fds.drop_first());
        (fin, d1 + rest)
    }
}

/// The table must hold exactly one `main` with signature `() -> Int`.
pub open spec fn main_check_dv(fenv: FnEnvView) -> Seq<DiagView> {
    match fenv_lookup(fenv, "main"@) {
        None => seq![diag::no_main_view()],
        Some((t, ps)) => if t == Type::Int && ps.len() == 0 {
            Seq::empty()
        } else {
            seq![diag::invalid_main_view()]
        },
    }
}

/// Parameters bind like declarations, group after group, in a fresh
/// environment.
pub open spec fn sem_params(params: Seq<VarDecl>, fenv: FnEnvView, env: EnvView) -> (
    EnvView,
    Seq<DiagView>,
)
    decreases params.len(),
{
    if params.len() == 0 {
        (env, Seq::empty())
    } else {
        let d = params.first();
        let (env1, dv1) = sem_decl_vars(d.type_spec.ttype, d.vars@, fenv, env);
        let (env2, dv2) = sem_params(params.drop_first(), fenv, env1);
        (env2, dv1 + dv2)
    }
}

pub open spec fn ann_params(
    o: Seq<VarDecl>,
    n: Seq<VarDecl>,
    fenv: FnEnvView,
    env: EnvView,
) -> bool
    decreases o.len(),
{
    if o.len() == 0 {
        n.len() == 0
    } else {
        n.len() >= 1 && ann_decl(o.first(), n.first(), fenv, env) && ann_params(
            o.drop_first(),
            n.drop_first(),
            fenv,
            sem_decl_vars(o.first().type_spec.ttype, o.first().vars@, fenv, env).0,
        )
    }
}

/// Diagnostics of one function: parameters, body, and the missing-return
/// check for non-void functions.
pub open spec fn sem_fn_dv(fd: FnDef, fenv: FnEnvView) -> Seq<DiagView> {
    let (envp, dvp) = sem_params(fd.params@, fenv, Seq::empty());
    let r = sem_stmt(*fd.body, fd.type_spec.ttype, fenv, envp);
    dvp + r.2 + if fd.type_spec.ttype != Type::Void && !r.0 {
        seq![diag::missing_return_view(fd.ident@)]
    } else {
        Seq::empty()
    }
}

pub open spec fn sem_fns_dv(fds: Seq<FnDef>, fenv: FnEnvView) -> Seq<DiagView>
    decreases fds.len(),
{
    if fds.len() == 0 {
        Seq::empty()
    } else {
        sem_fn_dv(fds.first(), fenv) + sem_fns_dv(fds.drop_first(), fenv)
    }
}

/// The bare return appended to a void function that may fall off its end.
pub open spec fn synthesized_vret() -> StmtNode {
    StmtNode { span: Span(0, 0), will_return: Some(true), stmt: Stmt::VRet }
}

/// `n` is `o` analyzed: parameters and body annotated, and a void
/// function whose block body does not definitely return gets exactly one
/// synthesized bare return appended.
pub open spec fn ann_fndef(o: FnDef, n: FnDef, fenv: FnEnvView) -> bool {
    let envp = sem_params(o.params@, fenv, Seq::empty()).0;
    let ftype = o.type_spec.ttype;
    let ret = sem_stmt(*o.body, ftype, fenv, envp).0;
    n.span == o.span && n.type_spec == o.type_spec && n.ident == o.ident && ann_params(
        o.params@,
        n.params@,
        fenv,
        Seq::empty(),
    ) && (if ftype == Type::Void && !ret {
        match (o.body.stmt, n.body.stmt) {
            (Stmt::BStmt(ss1), Stmt::BStmt(ss2)) => n.body.span == o.body.span
                && n.body.will_return == Some(false) && ss2@.len() >= 1 && *ss2@.last()
                == synthesized_vret() && ann_stmts(
                ss1@,
                ss2@.drop_last(),
                ftype,
                fenv,
                envp.push(Seq::empty()),
            ),
            _ => ann_stmt(*o.body, *n.body, ftype, fenv, envp),
        }
    } else {
        ann_stmt(*o.body, *n.body, ftype, fenv, envp)
    })
}

/// `n` is `o` with every function analyzed against the program's table.
pub open spec fn ann_program(o: Program, n: Program, fenv: FnEnvView) -> bool {
    n.span == o.span && n.functions@.len() == o.functions@.len() && forall|i: int|
        0 <= i < o.functions@.len() ==> ann_fndef(
            o.functions@[i],
            #[trigger] n.functions@[i],
            fenv,
        )
}

/// Function-signature table: name to return type and parameter types,
/// first definition wins.
#[derive(Debug)]
pub struct FnEnv {
    entries: Vec<(Ident, FnSignature)>,
}

impl View for FnEnv {
    type V = FnEnvView;

    closed spec fn view(&self) -> FnEnvView {
        self.entries@.map_values(|e: (Ident, FnSignature)| (e.0@, (e.1.0, e.1.1@)))
    }
}

/// First-match lookup in the function table.
pub open spec fn fenv_lookup(es: FnEnvView, name: Seq<char>) -> Option<(Type, Seq<Type>)>
    decreases es.len(),
{
    if es.len() == 0 {
        None
    } else if es.first().0 == name {
        Some(es.first().1)
    } else {
        fenv_lookup(es.drop_first(), name)
    }
}

impl FnEnv {
    pub fn new() -> (r: FnEnv)
        ensures
            r@ =~= Seq::<(Seq<char>, (Type, Seq<Type>))>::empty(),
    {
        FnEnv { entries: Vec::new() }
    }

    pub fn get(&self, name: &Ident) -> (r: Option<&FnSignature>)
        ensures
            match r {
                Some(sig) => fenv_lookup(self@, name@) == Some((sig.0, sig.1@)),
                None => fenv_lookup(self@, name@) is None,
            },
    {
        let mut i: usize = 0;
        proof {
            assert(self@.skip(0) =~= self@);
        }
        while i < self.entries.len()
            invariant
                0 <= i <= self@.len(),
                fenv_lookup(self@, name@) == fenv_lookup(self@.skip(i as int), name@),
            decreases self@.len() - i,
        {
            proof {
                assert(self@.skip(i as int).first() == self@[i as int]);
                assert(self@.skip(i as int).drop_first() =~= self@.skip(i as int + 1));
            }
            if str_eq(&self.entries[i].0, name) {
                return Some(&self.entries[i].1);
            }
            i += 1;
        }
        proof {
            assert(self@.skip(self@.len() as int) =~= Seq::<(Seq<char>, (Type, Seq<Type>))>::empty());
        }
        None
    }

    /// Record a signature under a name.  Reports (by returning `true`) a
    /// name already present; the first definition stays in force.
    pub fn insert(&mut self, name: Ident, sig: FnSignature) -> (dup: bool)
        ensures
            dup == (fenv_lookup(old(self)@, name@) is Some),
            dup ==> final(self)@ == old(self)@,
            !dup ==> final(self)@ =~= old(self)@.push((name@, (sig.0, sig.1@))),
    {
        let present = self.get(&name).is_some();
        if present {
            true
        } else {
            self.entries.push((name, sig));
            proof {
                assert(self@ =~= old(self)@.push((name@, (sig.0, sig.1@))));
            }
            false
        }
    }
}

/// Report one diagnostic.
fn push_diag(diags: &mut Vec<Diagnostic>, d: Diagnostic)
    ensures
        diag::diag_views(final(diags)@) =~= diag::diag_views(old(diags)@) + seq![d@],
{
    let ghost pre = diags@;
    let ghost dv = d@;
    diags.push(d);
    proof {
        assert(diag::diag_views(diags@) =~= diag::diag_views(pre) + seq![dv]);
    }
}

/// Executable equality of two type lists.
fn types_eq(a: &Vec<Type>, b: &Vec<Type>) -> (r: bool)
    ensures
        r == (a@ == b@),
{
    if a.len() != b.len() {
        proof {
            if a@ == b@ {
                assert(a@.len() == b@.len());
            }
        }
        return false;
    }
    let mut i: usize = 0;
    while i < a.len()
        invariant
            0 <= i <= a@.len(),
            a@.len() == b@.len(),
            forall|j: int| 0 <= j < i ==> a@[j] == b@[j],
        decreases a@.len() - i,
    {
        let av = a[i];
        let bv = b[i];
        if !(av == bv) {
            proof {
                if a@ == b@ {
                    assert(a@[i as int] == b@[i as int]);
                }
            }
            return false;
        }
        i += 1;
    }
    proof {
        assert(a@ =~= b@);
    }
    true
}

/// Annotate one expression bottom-up: the node's abstract value and the
/// reported diagnostics are exactly those of `sem_exp`.
pub fn verify_exp(node: Box<ExpNode>, fenv: &FnEnv, env: &Env, diags: &mut Vec<Diagnostic>) -> (r:
    Box<ExpNode>)
    requires
        env.wf(),
    ensures
        ann_exp(*node, *r, fenv@, env@),
        diag::diag_views(final(diags)@) =~= diag::diag_views(old(diags)@) + sem_exp(
            *node,
            fenv@,
            env@,
        ).1,
    decreases *node,
{
    let ghost n0 = *node;
    let n = *node;
    let span = n.span;
    match n.exp {
        Exp::Unary(op, inner) => {
            let ghost inner0 = *inner;
            let inner2 = verify_exp(inner, fenv, env, diags);
            let tv = match &inner2.typeval {
                Some(itv) => {
                    let tv = get_unary_op_typeval(&op, itv);
                    if itv.has_valid_type() && !tv.has_valid_type() {
                        push_diag(diags, diag::gen_invalid_unary_op(&op, itv, inner2.span));
                    }
                    tv
                },
                None => unreached(),
            };
            let r = Box::new(ExpNode { exp: Exp::Unary(op, inner2), span, typeval: Some(tv) });
            proof {
                assert(ann_exp(n0, *r, fenv@, env@));
                assert(diag::diag_views(diags@) =~= diag::diag_views(old(diags)@) + sem_exp(
                    n0,
                    fenv@,
                    env@,
                ).1);
            }
            r
        },
        Exp::Binary(lexp, op, rexp) => {
            let ghost l0 = *lexp;
            let ghost r0 = *rexp;
            let l2 = verify_exp(lexp, fenv, env, diags);
            let r2 = verify_exp(rexp, fenv, env, diags);
            let tv = match (&l2.typeval, &r2.typeval) {
                (Some(ltv), Some(rtv)) => {
                    let tv = get_binary_op_typeval(&op, ltv, rtv);
                    if ltv.has_valid_type() && rtv.has_valid_type() && !tv.has_valid_type() {
                        push_diag(diags, diag::gen_invalid_binary_op(&op, ltv, rtv, span));
                    }
                    tv
                },
                _ => unreached(),
            };
            let r = Box::new(
                ExpNode { exp: Exp::Binary(l2, op, r2), span, typeval: Some(tv) },
            );
            proof {
                assert(ann_exp(n0, *r, fenv@, env@));
                assert(diag::diag_views(diags@) =~= diag::diag_views(old(diags)@) + sem_exp(
                    n0,
                    fenv@,
                    env@,
                ).1);
            }
            r
        },
        Exp::Call(ident, args) => {
            match fenv.get(&ident) {
                None => {
                    push_diag(diags, diag::gen_unknown_function(&ident, span));
                    let r = Box::new(
                        ExpNode {
                            exp: Exp::Call(ident, args),
                            span,
                            typeval: Some(ExpTypeVal::Invalid),
                        },
                    );
                    proof {
                        assert(ann_exp(n0, *r, fenv@, env@));
                    }
                    r
                },
                Some(sig) => {
                    let ret_t = sig.0;
                    let ghost args0 = args@;
                    let (args2, ats) = verify_args(args, fenv, env, diags);
                    if let Some(ats_v) = &ats {
                        if !types_eq(&sig.1, ats_v) {
                            push_diag(diags, diag::gen_invalid_arg_types(&ident, &sig.1, ats_v, span));
                        }
                    }
                    let r = Box::new(
                        ExpNode {
                            exp: Exp::Call(ident, args2),
                            span,
                            typeval: Some(ExpTypeVal::from_type(&ret_t)),
                        },
                    );
                    proof {
                        assert(ann_exp(n0, *r, fenv@, env@));
                        assert(diag::diag_views(diags@) =~= diag::diag_views(old(diags)@)
                            + sem_exp(n0, fenv@, env@).1);
                    }
                    r
                },
            }
        },
        Exp::Var(ident) => {
            let tv = match env.get(&ident) {
                None => {
                    push_diag(diags, diag::gen_undeclared_variable_in_exp(&ident, span));
                    ExpTypeVal::Invalid
                },
                Some(vt) => ExpTypeVal::from_type(vt),
            };
            Box::new(ExpNode { exp: Exp::Var(ident), span, typeval: Some(tv) })
        },
        Exp::Int(v) => Box::new(
            ExpNode { exp: Exp::Int(v), span, typeval: Some(ExpTypeVal::Int(Some(v))) },
        ),
        Exp::Bool(v) => Box::new(
            ExpNode { exp: Exp::Bool(v), span, typeval: Some(ExpTypeVal::Bool(Some(v))) },
        ),
        Exp::Str(s) => {
            let c = s.clone();
            Box::new(ExpNode { exp: Exp::Str(s), span, typeval: Some(ExpTypeVal::Str(Some(c))) })
        },
    }
}

/// Annotate a call's arguments left to right, collecting their types when
/// every one of them is valid.
fn verify_args(args: Vec<Box<ExpNode>>, fenv: &FnEnv, env: &Env, diags: &mut Vec<Diagnostic>) -> (r:
    (Vec<Box<ExpNode>>, Option<Vec<Type>>))
    requires
        env.wf(),
    ensures
        r.0@.len() == args@.len(),
        forall|i: int| 0 <= i < args@.len() ==> ann_exp(*args@[i], *(#[trigger] r.0@[i]), fenv@, env@),
        diag::diag_views(final(diags)@) =~= diag::diag_views(old(diags)@) + sem_args(
            args@,
            fenv@,
            env@,
        ).1,
        (match (r.1, tvs_types(sem_args(args@, fenv@, env@).0)) {
            (Some(v), Some(s)) => v@ == s,
            (None, None) => true,
            _ => false,
        }),
    decreases args@,
{
    let mut args = args;
    if args.len() == 0 {
        (Vec::new(), Some(Vec::new()))
    } else {
        let ghost all0 = args@;
        let hd = args.remove(0);
        let ghost hd0 = *hd;
        proof {
            assert(args@ =~= all0.subrange(1, all0.len() as int));
            assert(args@ =~= all0.drop_first());
        }
        let hd2 = verify_exp(hd, fenv, env, diags);
        let hd_t: Option<Type> = match &hd2.typeval {
            Some(tv) => tv.try_to_type(),
            None => unreached(),
        };
        let (mut rest2, rest_ts) = verify_args(args, fenv, env, diags);
        rest2.insert(0, hd2);
        let ts = match (hd_t, rest_ts) {
            (Some(t), Some(mut v)) => {
                v.insert(0, t);
                Some(v)
            },
            _ => None,
        };
        proof {
            assert(forall|i: int|
                0 <= i < all0.len() ==> ann_exp(*all0[i], *(#[trigger] rest2@[i]), fenv@, env@));
            assert(diag::diag_views(diags@) =~= diag::diag_views(old(diags)@) + sem_args(
                all0,
                fenv@,
                env@,
            ).1);
            let full = sem_args(all0, fenv@, env@).0;
            let htv = sem_exp(hd0, fenv@, env@).0;
            let rest_tvs = sem_args(all0.drop_first(), fenv@, env@).0;
            assert(full == seq![htv] + rest_tvs);
            assert(full.len() > 0 && full.first() == htv);
            assert(full.drop_first() =~= rest_tvs);
            assert(hd_t == spec_type_of(htv));
            match (hd_t, tvs_types(rest_tvs)) {
                (Some(t), Some(s)) => {
                    assert(tvs_types(full) == Some(seq![t] + s));
                    assert(ts is Some && ts.unwrap()@ =~= seq![t] + s);
                },
                _ => {
                    assert(tvs_types(full) is None);
                },
            }
            assert(match (ts, tvs_types(sem_args(all0, fenv@, env@).0)) {
                (Some(v), Some(s)) => v@ == s,
                (None, None) => true,
                _ => false,
            });
        }
        (rest2, ts)
    }
}

/// Binding a declaration group never changes how many scopes are open
/// (once one is).
proof fn lemma_sem_decl_vars_len(t: Type, vars: Seq<DeclBody>, fenv: FnEnvView, env: EnvView)
    requires
        env.len() >= 1,
    ensures
        sem_decl_vars(t, vars, fenv, env).0.len() == env.len(),
    decreases vars.len(),
{
    if vars.len() > 0 {
        lemma_sem_decl_vars_len(t, vars.drop_first(), fenv, decl_step_env(t, vars.first().ident, env));
    }
}

/// A statement leaves as many scopes open as it found.
proof fn lemma_sem_stmt_len(s: StmtNode, ftype: Type, fenv: FnEnvView, env: EnvView)
    requires
        env.len() >= 1,
    ensures
        sem_stmt(s, ftype, fenv, env).1.len() == env.len(),
    decreases s,
{
    match s.stmt {
        Stmt::BStmt(ss) => {
            lemma_sem_stmts_len(ss@, ftype, fenv, env.push(Seq::empty()));
        },
        Stmt::Decl(d) => {
            lemma_sem_decl_vars_len(d.type_spec.ttype, d.vars@, fenv, env);
        },
        Stmt::Cond(c, t, f) => {
            lemma_sem_stmt_len(*t, ftype, fenv, env);
            match f {
                Some(fs) => {
                    lemma_sem_stmt_len(*fs, ftype, fenv, sem_stmt(*t, ftype, fenv, env).1);
                },
                None => {},
            }
        },
        Stmt::While(c, b) => {
            lemma_sem_stmt_len(*b, ftype, fenv, env);
        },
        _ => {},
    }
}

proof fn lemma_sem_stmts_len(ss: Seq<Box<StmtNode>>, ftype: Type, fenv: FnEnvView, env: EnvView)
    requires
        env.len() >= 1,
    ensures
        sem_stmts(ss, ftype, fenv, env).2.len() == env.len(),
    decreases ss,
{
    if ss.len() > 0 {
        lemma_sem_stmt_len(*ss.first(), ftype, fenv, env);
        let r1 = sem_stmt(*ss.first(), ftype, fenv, env);
        if !r1.0 {
            lemma_sem_stmts_len(ss.drop_first(), ftype, fenv, r1.1);
        }
    }
}

/// Check and bind the variables of one declaration group, in order.
fn verify_decl_vars(
    ttype: Type,
    vars: Vec<DeclBody>,
    fenv: &FnEnv,
    env: &mut Env,
    diags: &mut Vec<Diagnostic>,
) -> (r: Vec<DeclBody>)
    requires
        old(env).wf(),
    ensures
        final(env).wf(),
        ann_decl_vars(ttype, vars@, r@, fenv@, old(env)@),
        final(env)@ == sem_decl_vars(ttype, vars@, fenv@, old(env)@).0,
        diag::diag_views(final(diags)@) =~= diag::diag_views(old(diags)@) + sem_decl_vars(
            ttype,
            vars@,
            fenv@,
            old(env)@,
        ).1,
    decreases vars@.len(),
{
    let mut vars = vars;
    if vars.len() == 0 {
        Vec::new()
    } else {
        let ghost all0 = vars@;
        let ghost env0 = env@;
        let var = vars.remove(0);
        proof {
            assert(vars@ =~= all0.drop_first());
        }
        let DeclBody { span: vspan, ident, init } = var;
        let init2: Option<Box<ExpNode>> = match init {
            Some(e) => {
                let e2 = verify_exp(e, fenv, env, diags);
                match &e2.typeval {
                    Some(tv) => {
                        if !tv.has_type(&ttype) {
                            push_diag(
                                diags,
                                diag::gen_invalid_expression_type(&ttype, tv, e2.span),
                            );
                        }
                    },
                    None => unreached(),
                }
                Some(e2)
            },
            None => None,
        };
        let prev = env.insert_into_top_scope(ident.clone(), ttype);
        if prev.is_some() {
            push_diag(diags, diag::gen_multiple_var_decl(&ident, vspan));
        }
        proof {
            assert(env@ =~= decl_step_env(ttype, ident, env0));
        }
        let rest2 = verify_decl_vars(ttype, vars, fenv, env, diags);
        let mut out = rest2;
        let ghost rest2g = out@;
        let newd = DeclBody { span: vspan, ident, init: init2 };
        let ghost newdg = newd;
        out.insert(0, newd);
        proof {
            assert(out@.first() == newdg);
            assert(out@.drop_first() =~= rest2g);
            assert(all0.first() == DeclBody { span: vspan, ident: newdg.ident, init: all0.first().init });
            assert(ann_decl_vars(ttype, all0, out@, fenv@, env0));
            assert(diag::diag_views(diags@) =~= diag::diag_views(old(diags)@) + sem_decl_vars(
                ttype,
                all0,
                fenv@,
                env0,
            ).1);
        }
        out
    }
}

/// Check a declaration statement: initializers are typed against the
/// declared type, every identifier is bound in the innermost scope, and a
/// second declaration of a name in the same block is reported.
pub fn verify_decls(decls: VarDecl, fenv: &FnEnv, env: &mut Env, diags: &mut Vec<Diagnostic>) -> (r:
    VarDecl)
    requires
        old(env).wf(),
    ensures
        final(env).wf(),
        ann_decl(decls, r, fenv@, old(env)@),
        final(env)@ == sem_decl_vars(decls.type_spec.ttype, decls.vars@, fenv@, old(env)@).0,
        diag::diag_views(final(diags)@) =~= diag::diag_views(old(diags)@) + sem_decl_vars(
            decls.type_spec.ttype,
            decls.vars@,
            fenv@,
            old(env)@,
        ).1,
{
    let VarDecl { span, type_spec, vars } = decls;
    let t = type_spec.ttype;
    let vars2 = verify_decl_vars(t, vars, fenv, env, diags);
    VarDecl { span, type_spec, vars: vars2 }
}

/// Annotate one statement: compute its will-return fact, check its
/// expressions, thread the environment, and prune dead statements inside
/// blocks.
#[verifier::rlimit(100)]
pub fn verify_stmt(
    node: Box<StmtNode>,
    ftype: &Type,
    fenv: &FnEnv,
    env: &mut Env,
    diags: &mut Vec<Diagnostic>,
) -> (r: Box<StmtNode>)
    requires
        old(env).wf(),
    ensures
        final(env).wf(),
        ann_stmt(*node, *r, *ftype, fenv@, old(env)@),
        final(env)@ == sem_stmt(*node, *ftype, fenv@, old(env)@).1,
        diag::diag_views(final(diags)@) =~= diag::diag_views(old(diags)@) + sem_stmt(
            *node,
            *ftype,
            fenv@,
            old(env)@,
        ).2,
    decreases *node,
{
    let ghost n0 = *node;
    let ghost env0 = env@;
    let n = *node;
    let span = n.span;
    match n.stmt {
        Stmt::BStmt(ss) => {
            env.push_scope();
            let (ss2, ret) = verify_stmts(ss, ftype, fenv, env, diags);
            proof {
                lemma_sem_stmts_len(n0.stmt->BStmt_0@, *ftype, fenv@, env0.push(Seq::empty()));
            }
            let popped = env.pop_scope();
            Box::new(StmtNode { span, stmt: Stmt::BStmt(ss2), will_return: Some(ret) })
        },
        Stmt::Decl(d) => {
            let d2 = verify_decls(d, fenv, env, diags);
            Box::new(StmtNode { span, stmt: Stmt::Decl(d2), will_return: Some(false) })
        },
        Stmt::Ass(ident, e) => {
            let e2 = verify_exp(e, fenv, env, diags);
            match env.get(&ident) {
                None => {
                    push_diag(diags, diag::gen_undeclared_variable_in_stmt(&ident, span));
                },
                Some(vt) => {
                    match &e2.typeval {
                        Some(etv) => {
                            if etv.has_valid_type() && !etv.has_type(vt) {
                                push_diag(
                                    diags,
                                    diag::gen_invalid_expression_type(vt, etv, e2.span),
                                );
                            }
                        },
                        None => unreached(),
                    }
                },
            }
            Box::new(StmtNode { span, stmt: Stmt::Ass(ident, e2), will_return: Some(false) })
        },
        Stmt::Incr(ident) => {
            match env.get(&ident) {
                None => {
                    push_diag(diags, diag::gen_undeclared_variable_in_stmt(&ident, span));
                },
                Some(vt) => {
                    if !(*vt == Type::Int) {
                        push_diag(
                            diags,
                            diag::gen_invalid_expression_type(
                                &Type::Int,
                                &ExpTypeVal::from_type(vt),
                                span,
                            ),
                        );
                    }
                },
            }
            Box::new(StmtNode { span, stmt: Stmt::Incr(ident), will_return: Some(false) })
        },
        Stmt::Decr(ident) => {
            match env.get(&ident) {
                None => {
                    push_diag(diags, diag::gen_undeclared_variable_in_stmt(&ident, span));
                },
                Some(vt) => {
                    if !(*vt == Type::Int) {
                        push_diag(
                            diags,
                            diag::gen_invalid_expression_type(
                                &Type::Int,
                                &ExpTypeVal::from_type(vt),
                                span,
                            ),
                        );
                    }
                },
            }
            Box::new(StmtNode { span, stmt: Stmt::Decr(ident), will_return: Some(false) })
        },
        Stmt::Ret(e) => {
            let e2 = verify_exp(e, fenv, env, diags);
            match &e2.typeval {
                Some(etv) => {
                    if !etv.has_type(ftype) {
                        push_diag(diags, diag::gen_invalid_return_type(ftype, etv, span));
                    }
                },
                None => unreached(),
            }
            Box::new(StmtNode { span, stmt: Stmt::Ret(e2), will_return: Some(true) })
        },
        Stmt::VRet => {
            if !(*ftype == Type::Void) {
                push_diag(diags, diag::gen_invalid_vret(ftype, span));
            }
            Box::new(StmtNode { span, stmt: Stmt::VRet, will_return: Some(true) })
        },
        Stmt::Cond(c, tstmt, fstmt) => {
            let c2 = verify_exp(c, fenv, env, diags);
            let t2 = verify_stmt(tstmt, ftype, fenv, env, diags);
            let f2 = match fstmt {
                Some(fs) => Some(verify_stmt(fs, ftype, fenv, env, diags)),
                None => None,
            };
            let wr: bool = match &c2.typeval {
                Some(ExpTypeVal::Bool(cv)) => match (cv, &f2) {
                    (Some(true), _) => t2.will_return.unwrap(),
                    (Some(false), Some(f2v)) => f2v.will_return.unwrap(),
                    (None, Some(f2v)) => t2.will_return.unwrap() && f2v.will_return.unwrap(),
                    _ => false,
                },
                Some(ctv) => {
                    push_diag(
                        diags,
                        diag::gen_invalid_expression_type(&Type::Bool, ctv, c2.span),
                    );
                    false
                },
                None => unreached(),
            };
            Box::new(StmtNode { span, stmt: Stmt::Cond(c2, t2, f2), will_return: Some(wr) })
        },
        Stmt::While(c, body) => {
            let c2 = verify_exp(c, fenv, env, diags);
            let b2 = verify_stmt(body, ftype, fenv, env, diags);
            let wr: bool = match &c2.typeval {
                Some(ExpTypeVal::Bool(Some(true))) => true,
                Some(ExpTypeVal::Bool(_)) => false,
                Some(ctv) => {
                    push_diag(
                        diags,
                        diag::gen_invalid_expression_type(&Type::Bool, ctv, c2.span),
                    );
                    false
                },
                None => unreached(),
            };
            Box::new(StmtNode { span, stmt: Stmt::While(c2, b2), will_return: Some(wr) })
        },
        Stmt::EStmt(e) => {
            let e2 = verify_exp(e, fenv, env, diags);
            Box::new(StmtNode { span, stmt: Stmt::EStmt(e2), will_return: Some(false) })
        },
    }
}

/// Annotate a block's statements in order, stopping right after the first
/// one that definitely returns; the rest are provably dead and dropped.
fn verify_stmts(
    stmts: Vec<Box<StmtNode>>,
    ftype: &Type,
    fenv: &FnEnv,
    env: &mut Env,
    diags: &mut Vec<Diagnostic>,
) -> (r: (Vec<Box<StmtNode>>, bool))
    requires
        old(env).wf(),
    ensures
        final(env).wf(),
        ann_stmts(stmts@, r.0@, *ftype, fenv@, old(env)@),
        r.1 == sem_stmts(stmts@, *ftype, fenv@, old(env)@).1,
        final(env)@ == sem_stmts(stmts@, *ftype, fenv@, old(env)@).2,
        diag::diag_views(final(diags)@) =~= diag::diag_views(old(diags)@) + sem_stmts(
            stmts@,
            *ftype,
            fenv@,
            old(env)@,
        ).3,
    decreases stmts@,
{
    let mut stmts = stmts;
    if stmts.len() == 0 {
        (Vec::new(), false)
    } else {
        let ghost all0 = stmts@;
        let hd = stmts.remove(0);
        proof {
            assert(stmts@ =~= all0.subrange(1, all0.len() as int));
            assert(stmts@ =~= all0.drop_first());
        }
        let hd2 = verify_stmt(hd, ftype, fenv, env, diags);
        let ret = hd2.will_return.unwrap();
        if ret {
            let mut v: Vec<Box<StmtNode>> = Vec::new();
            v.push(hd2);
            proof {
                assert(ann_stmts(all0, v@, *ftype, fenv@, old(env)@));
            }
            (v, true)
        } else {
            let (rest2, r2) = verify_stmts(stmts, ftype, fenv, env, diags);
            let mut out = rest2;
            let ghost rest2g = out@;
            let ghost hd2g = hd2;
            out.insert(0, hd2);
            proof {
                assert(out@.first() == hd2g);
                assert(out@.drop_first() =~= rest2g);
                assert(ann_stmts(all0, out@, *ftype, fenv@, old(env)@));
            }
            (out, r2)
        }
    }
}

/// Check and bind the parameter groups of a function, in order, in a
/// fresh environment.
fn verify_params(
    params: Vec<VarDecl>,
    fenv: &FnEnv,
    env: &mut Env,
    diags: &mut Vec<Diagnostic>,
) -> (r: Vec<VarDecl>)
    requires
        old(env).wf(),
    ensures
        final(env).wf(),
        ann_params(params@, r@, fenv@, old(env)@),
        final(env)@ == sem_params(params@, fenv@, old(env)@).0,
        diag::diag_views(final(diags)@) =~= diag::diag_views(old(diags)@) + sem_params(
            params@,
            fenv@,
            old(env)@,
        ).1,
    decreases params@.len(),
{
    let mut params = params;
    if params.len() == 0 {
        Vec::new()
    } else {
        let ghost all0 = params@;
        let hd = params.remove(0);
        proof {
            assert(params@ =~= all0.drop_first());
        }
        let hd2 = verify_decls(hd, fenv, env, diags);
        let rest2 = verify_params(params, fenv, env, diags);
        let mut out = rest2;
        let ghost rest2g = out@;
        let ghost hd2g = hd2;
        out.insert(0, hd2);
        proof {
            assert(out@.first() == hd2g);
            assert(out@.drop_first() =~= rest2g);
            assert(ann_params(all0, out@, fenv@, old(env)@));
        }
        out
    }
}

/// Analyze one function: bind its parameters, annotate its body, report a
/// non-void function that may fall off its end, and give a void block
/// body its implicit bare return.
fn verify_fn(fd: FnDef, fenv: &FnEnv, diags: &mut Vec<Diagnostic>) -> (r: FnDef)
    ensures
        ann_fndef(fd, r, fenv@),
        diag::diag_views(final(diags)@) =~= diag::diag_views(old(diags)@) + sem_fn_dv(fd, fenv@),
{
    let ghost fd0 = fd;
    let FnDef { span, type_spec, ident, params, body } = fd;
    let ftype = type_spec.ttype;
    let mut env = Env::new();
    let params2 = verify_params(params, fenv, &mut env, diags);
    let body2 = verify_stmt(body, &ftype, fenv, &mut env, diags);
    let ret = body2.will_return.unwrap();
    if !(ftype == Type::Void) {
        if !ret {
            push_diag(diags, diag::gen_missing_return(&ident));
        }
        let r = FnDef { span, type_spec, ident, params: params2, body: body2 };
        proof {
            assert(ann_fndef(fd0, r, fenv@));
        }
        r
    } else {
        let b = *body2;
        let ghost b0 = b;
        let body3 = match b.stmt {
            Stmt::BStmt(ss) => {
                let mut ss = ss;
                let ghost kept = ss@;
                if !ret {
                    ss.push(
                        Box::new(
                            StmtNode { span: Span(0, 0), will_return: Some(true), stmt: Stmt::VRet },
                        ),
                    );
                    proof {
                        assert(ss@.drop_last() =~= kept);
                        assert(*ss@.last() == synthesized_vret());
                    }
                }
                Box::new(StmtNode { span: b.span, will_return: b.will_return, stmt: Stmt::BStmt(ss) })
            },
            other => Box::new(
                StmtNode { span: b.span, will_return: b.will_return, stmt: other },
            ),
        };
        let r = FnDef { span, type_spec, ident, params: params2, body: body3 };
        proof {
            assert(ann_fndef(fd0, r, fenv@));
        }
        r
    }
}

/// Analyze every function of the program, in declaration order.
fn verify_fns(fds: Vec<FnDef>, fenv: &FnEnv, diags: &mut Vec<Diagnostic>) -> (r: Vec<FnDef>)
    ensures
        r@.len() == fds@.len(),
        forall|i: int| 0 <= i < fds@.len() ==> ann_fndef(fds@[i], #[trigger] r@[i], fenv@),
        diag::diag_views(final(diags)@) =~= diag::diag_views(old(diags)@) + sem_fns_dv(
            fds@,
            fenv@,
        ),
    decreases fds@,
{
    let mut fds = fds;
    if fds.len() == 0 {
        Vec::new()
    } else {
        let ghost all0 = fds@;
        let hd = fds.remove(0);
        proof {
            assert(fds@ =~= all0.subrange(1, all0.len() as int));
            assert(fds@ =~= all0.drop_first());
        }
        let hd2 = verify_fn(hd, fenv, diags);
        let rest2 = verify_fns(fds, fenv, diags);
        let mut out = rest2;
        let ghost rest2g = out@;
        let ghost hd2g = hd2;
        out.insert(0, hd2);
        proof {
            assert(out@.first() == hd2g);
            assert(out@.drop_first() =~= rest2g);
            assert forall|i: int| 0 <= i < all0.len() implies ann_fndef(
                all0[i],
                #[trigger] out@[i],
                fenv@,
            ) by {
                if i > 0 {
                    assert(out@[i] == rest2g[i - 1]);
                    assert(all0[i] == all0.drop_first()[i - 1]);
                }
            }
        }
        out
    }
}

/// Analyze a whole program in place: build the function table (built-ins
/// pre-seeded, repeated names reported, first definition winning), check
/// that `main` exists with signature `() -> Int`, then analyze every
/// function.  The returned diagnostics are exactly those of the program's
/// semantics; an empty result means the program is well typed.
pub fn verify_program(prog: &mut Program) -> (diags: Vec<Diagnostic>)
    ensures
        ({
            let fenv = build_fenv(builtins(), old(prog).functions@).0;
            &&& diag::diag_views(diags@) =~= build_fenv(builtins(), old(prog).functions@).1
                + main_check_dv(fenv) + sem_fns_dv(old(prog).functions@, fenv)
            &&& ann_program(*old(prog), *final(prog), fenv)
        }),
{
    let mut diags: Vec<Diagnostic> = Vec::new();
    let mut fenv = FnEnv::new();
    proof {
        reveal_strlit("readInt");
        reveal_strlit("readString");
        reveal_strlit("printInt");
        reveal_strlit("printString");
    }
    let dup_a = fenv.insert(String::from_str("readInt"), (Type::Int, Vec::new()));
    proof {
        assert(!dup_a);
    }
    let dup_b = fenv.insert(String::from_str("readString"), (Type::Str, Vec::new()));
    proof {
        reveal_with_fuel(fenv_lookup, 6);
        assert("readInt"@.len() == 7);
        assert("readString"@.len() == 10);
        assert("readInt"@ != "readString"@);
        assert(!dup_b);
    }
    let mut p_int: Vec<Type> = Vec::new();
    p_int.push(Type::Int);
    proof {
        assert(p_int@ =~= seq![Type::Int]);
    }
    let dup_c = fenv.insert(String::from_str("printInt"), (Type::Void, p_int));
    proof {
        reveal_with_fuel(fenv_lookup, 6);
        assert("printInt"@.len() == 8);
        assert("printInt"@ != "readInt"@ && "printInt"@ != "readString"@);
        assert(!dup_c);
    }
    let mut p_str: Vec<Type> = Vec::new();
    p_str.push(Type::Str);
    proof {
        assert(p_str@ =~= seq![Type::Str]);
    }
    let dup_d = fenv.insert(String::from_str("printString"), (Type::Void, p_str));
    proof {
        reveal_with_fuel(fenv_lookup, 6);
        assert("printString"@.len() == 11);
        assert("printString"@ != "readInt"@ && "printString"@ != "readString"@ && "printString"@
            != "printInt"@);
        assert(!dup_d);
        assert(fenv@ =~= builtins());
    }
    let ghost fds0 = prog.functions@;
    let mut i: usize = 0;
    proof {
        assert(fds0.skip(0) =~= fds0);
    }
    while i < prog.functions.len()
        invariant
            0 <= i <= fds0.len(),
            *prog == *old(prog),
            fds0 == old(prog).functions@,
            build_fenv(builtins(), fds0).0 == build_fenv(fenv@, fds0.skip(i as int)).0,
            build_fenv(builtins(), fds0).1 =~= diag::diag_views(diags@) + build_fenv(
                fenv@,
                fds0.skip(i as int),
            ).1,
        decreases fds0.len() - i,
    {
        proof {
            assert(fds0.skip(i as int).first() == fds0[i as int]);
            assert(fds0.skip(i as int).drop_first() =~= fds0.skip(i as int + 1));
        }
        let fd = &prog.functions[i];
        let sig = fd.get_signature();
        let dup = fenv.insert(fd.ident.clone(), sig);
        if dup {
            push_diag(&mut diags, diag::gen_multiple_fn_def(&fd.ident, fd.span));
        }
        i += 1;
    }
    proof {
        assert(fds0.skip(fds0.len() as int) =~= Seq::<FnDef>::empty());
        assert(build_fenv(builtins(), fds0).0 == fenv@);
        assert(build_fenv(builtins(), fds0).1 =~= diag::diag_views(diags@));
    }
    let ghost table_dv = diag::diag_views(diags@);
    let main_name = String::from_str("main");
    match fenv.get(&main_name) {
        None => {
            push_diag(&mut diags, diag::gen_no_main());
        },
        Some(sig) => {
            if sig.0 == Type::Int && sig.1.len() == 0 {
            } else {
                push_diag(&mut diags, diag::gen_invalid_main());
            }
        },
    }
    proof {
        assert(diag::diag_views(diags@) =~= table_dv + main_check_dv(fenv@));
    }
    let mut fns: Vec<FnDef> = Vec::new();
    core::mem::swap(&mut prog.functions, &mut fns);
    let fns2 = verify_fns(fns, &fenv, &mut diags);
    prog.functions = fns2;
    diags
}

/// Redeclaration: binding a name already bound in the innermost open
/// scope reports exactly one redeclaration diagnostic; a name bound only
/// in an outer scope shadows it silently and reports nothing.
pub proof fn lemma_redeclaration(t: Type, var: DeclBody, fenv: FnEnvView, env: EnvView)
    requires
        var.init is None,
        env.len() >= 1,
    ensures
        sem_decl_vars(t, seq![var], fenv, env).1 == if scope_has_key(env.last(), var.ident@) {
            seq![diag::multiple_var_decl_view(var.ident@, var.span)]
        } else {
            Seq::<DiagView>::empty()
        },
{
    reveal_with_fuel(sem_decl_vars, 3);
    let vs = seq![var];
    assert(vs.first() == var && vs.drop_first().len() == 0);
    let env2 = decl_step_env(t, var.ident, env);
    assert(sem_decl_vars(t, vs.drop_first(), fenv, env2).1 == Seq::<DiagView>::empty());
    if scope_has_key(env.last(), var.ident@) {
        assert(sem_decl_vars(t, vs, fenv, env).1 =~= seq![
            diag::multiple_var_decl_view(var.ident@, var.span),
        ]);
    } else {
        assert(sem_decl_vars(t, vs, fenv, env).1 =~= Seq::<DiagView>::empty());
    }
}

/// Dead-code pruning: once a statement of a block definitely returns, the
/// block's fact is settled there, the statements after it contribute no
/// diagnostics and no environment change, and an analyzed block keeps
/// exactly the statements up to and including that one.
pub proof fn lemma_dead_code_pruned(
    o: Seq<Box<StmtNode>>,
    n: Seq<Box<StmtNode>>,
    ftype: Type,
    fenv: FnEnvView,
    env: EnvView,
)
    requires
        o.len() >= 1,
        sem_stmt(*o.first(), ftype, fenv, env).0,
        ann_stmts(o, n, ftype, fenv, env),
    ensures
        n.len() == 1,
        sem_stmts(o, ftype, fenv, env) == (
            1int,
            true,
            sem_stmt(*o.first(), ftype, fenv, env).1,
            sem_stmt(*o.first(), ftype, fenv, env).2,
        ),
{
}

/// Void-function auto-return: a void function whose block body does not
/// definitely return is analyzed into the same pruned, annotated
/// statements with exactly one synthesized bare return appended; a body
/// that does definitely return gets nothing appended.
pub proof fn lemma_void_auto_return(o: FnDef, n: FnDef, fenv: FnEnvView)
    requires
        ann_fndef(o, n, fenv),
        o.type_spec.ttype == Type::Void,
        o.body.stmt is BStmt,
    ensures
        !sem_stmt(*o.body, Type::Void, fenv, sem_params(o.params@, fenv, Seq::empty()).0).0
            ==> match (o.body.stmt, n.body.stmt) {
            (Stmt::BStmt(ss1), Stmt::BStmt(ss2)) => ss2@.len() >= 1 && *ss2@.last()
                == synthesized_vret() && ann_stmts(
                ss1@,
                ss2@.drop_last(),
                Type::Void,
                fenv,
                sem_params(o.params@, fenv, Seq::empty()).0.push(Seq::empty()),
            ),
            _ => false,
        },
        sem_stmt(*o.body, Type::Void, fenv, sem_params(o.params@, fenv, Seq::empty()).0).0
            ==> ann_stmt(
            *o.body,
            *n.body,
            Type::Void,
            fenv,
            sem_params(o.params@, fenv, Seq::empty()).0,
        ),
{
}

/// Non-void missing return: a function with a non-void return type whose
/// body does not definitely return contributes exactly one missing-return
/// diagnostic, after its parameter and body diagnostics; every other
/// function contributes none.
pub proof fn lemma_missing_return(fd: FnDef, fenv: FnEnvView)
    ensures
        ({
            let envp = sem_params(fd.params@, fenv, Seq::empty()).0;
            let dvp = sem_params(fd.params@, fenv, Seq::empty()).1;
            let r = sem_stmt(*fd.body, fd.type_spec.ttype, fenv, envp);
            sem_fn_dv(fd, fenv) == dvp + r.2 + (if fd.type_spec.ttype != Type::Void && !r.0 {
                seq![diag::missing_return_view(fd.ident@)]
            } else {
                Seq::<DiagView>::empty()
            })
        }),
{
}

/// Main signature check: a program without `main` gets exactly one
/// missing-main diagnostic; a `main` whose signature is not `() -> Int`
/// gets exactly one invalid-main diagnostic; a proper `main` gets none.
pub proof fn lemma_main_check(fenv: FnEnvView)
    ensures
        fenv_lookup(fenv, "main"@) is None ==> main_check_dv(fenv) == seq![diag::no_main_view()],
        ({
            match fenv_lookup(fenv, "main"@) {
                Some((t, ps)) => main_check_dv(fenv) == if t == Type::Int && ps.len() == 0 {
                    Seq::<DiagView>::empty()
                } else {
                    seq![diag::invalid_main_view()]
                },
                None => true,
            }
        }),
{
}

} // verus!
