//! Syntax tree of the source language.
//!
//! The tree is produced by an external parser and then annotated by the
//! semantic analyzer: every expression node gets an `ExpTypeVal` fact and
//! every statement node a `will_return` fact.  The code generator reads
//! those facts and never recomputes them.

use vstd::prelude::*;

verus! {

/// Half-open byte range into the original source, carried for diagnostics.
#[derive(Debug, Clone, Copy, PartialEq, Eq, Structural)]
pub struct Span(pub usize, pub usize);

/// Source-level types.  `Void` is a valid return type but never a value type.
#[derive(Debug, Clone, Copy, PartialEq, Eq, Structural)]
pub enum Type {
    Int,
    Bool,
    Str,
    Void,
}

#[derive(Debug, Clone, Copy, PartialEq, Eq, Structural)]
pub enum UnaryOp {
    Neg,
    Not,
}

#[derive(Debug, Clone, Copy, PartialEq, Eq, Structural)]
pub enum BinaryOp {
    Or,
    And,
    Eq,
    Neq,
    Gt,
    Gte,
    Lt,
    Lte,
    Add,
    Sub,
    Mul,
    Div,
    Mod,
}

pub type Ident = String;

pub type FnSignature = (Type, Vec<Type>);

/// The analyzer's abstract value: a type tag paired with an optional known
/// constant.  A `Some` payload is sound: it is the value the expression
/// evaluates to in every execution.  `Invalid` marks an expression whose
/// type error was already reported; it never reaches the code generator.
#[derive(Debug, Clone)]
pub enum ExpTypeVal {
    Int(Option<i32>),
    Bool(Option<bool>),
    Str(Option<String>),
    Void,
    Invalid,
}

pub open spec fn spec_from_type(ttype: Type) -> ExpTypeVal {
    match ttype {
        Type::Int => ExpTypeVal::Int(None),
        Type::Bool => ExpTypeVal::Bool(None),
        Type::Str => ExpTypeVal::Str(None),
        Type::Void => ExpTypeVal::Void,
    }
}

/// The type tag of an abstract value, if it is not `Invalid`.
pub open spec fn spec_type_of(tv: ExpTypeVal) -> Option<Type> {
    match tv {
        ExpTypeVal::Invalid => None,
        ExpTypeVal::Void => Some(Type::Void),
        ExpTypeVal::Int(_) => Some(Type::Int),
        ExpTypeVal::Bool(_) => Some(Type::Bool),
        ExpTypeVal::Str(_) => Some(Type::Str),
    }
}

impl ExpTypeVal {
    /// The unknown-constant abstract value of a given type.
    pub fn from_type(ttype: &Type) -> (r: ExpTypeVal)
        ensures
            r == spec_from_type(*ttype),
    {
        match ttype {
            Type::Int => ExpTypeVal::Int(None),
            Type::Bool => ExpTypeVal::Bool(None),
            Type::Str => ExpTypeVal::Str(None),
            Type::Void => ExpTypeVal::Void,
        }
    }

    /// Does this abstract value carry exactly the given type tag?
    pub fn has_type(&self, ttype: &Type) -> (r: bool)
        ensures
            r == (spec_type_of(*self) == Some(*ttype)),
    {
        match (self, *ttype) {
            (ExpTypeVal::Int(_), Type::Int) => true,
            (ExpTypeVal::Bool(_), Type::Bool) => true,
            (ExpTypeVal::Str(_), Type::Str) => true,
            (ExpTypeVal::Void, Type::Void) => true,
            _ => false,
        }
    }

    /// Everything but the `Invalid` sentinel has a valid type.
    pub fn has_valid_type(&self) -> (r: bool)
        ensures
            r == (spec_type_of(*self) is Some),
    {
        match self {
            ExpTypeVal::Invalid => false,
            _ => true,
        }
    }

    /// The type tag, or `None` for the `Invalid` sentinel.
    pub fn try_to_type(&self) -> (r: Option<Type>)
        ensures
            r == spec_type_of(*self),
    {
        match self {
            ExpTypeVal::Invalid => None,
            ExpTypeVal::Void => Some(Type::Void),
            ExpTypeVal::Int(_) => Some(Type::Int),
            ExpTypeVal::Bool(_) => Some(Type::Bool),
            ExpTypeVal::Str(_) => Some(Type::Str),
        }
    }
}

/// An expression, annotated after analysis with its abstract value.
#[derive(Debug)]
pub struct ExpNode {
    pub exp: Exp,
    pub span: Span,
    pub typeval: Option<ExpTypeVal>,
}

#[derive(Debug)]
pub enum Exp {
    Unary(UnaryOp, Box<ExpNode>),
    Binary(Box<ExpNode>, BinaryOp, Box<ExpNode>),
    Call(Ident, Vec<Box<ExpNode>>),
    Int(i32),
    Bool(bool),
    Str(String),
    Var(Ident),
}

/// A statement, annotated after analysis with its will-return fact:
/// whether the statement, if reached, returns on every path through it.
#[derive(Debug)]
pub struct StmtNode {
    pub span: Span,
    pub stmt: Stmt,
    pub will_return: Option<bool>,
}

#[derive(Debug)]
pub enum Stmt {
    BStmt(Vec<Box<StmtNode>>),
    Decl(VarDecl),
    Ass(Ident, Box<ExpNode>),
    Incr(Ident),
    Decr(Ident),
    Ret(Box<ExpNode>),
    VRet,
    Cond(Box<ExpNode>, Box<StmtNode>, Option<Box<StmtNode>>),
    While(Box<ExpNode>, Box<StmtNode>),
    EStmt(Box<ExpNode>),
}

#[derive(Debug)]
pub struct TypeSpecifier {
    pub span: Span,
    pub ttype: Type,
}

/// One declared type applied to one or more identifiers.
#[derive(Debug)]
pub struct VarDecl {
    pub span: Span,
    pub type_spec: TypeSpecifier,
    pub vars: Vec<DeclBody>,
}

/// One declared identifier with its optional initializer.
#[derive(Debug)]
pub struct DeclBody {
    pub span: Span,
    pub ident: Ident,
    pub init: Option<Box<ExpNode>>,
}

#[derive(Debug)]
pub struct FnDef {
    pub span: Span,
    pub type_spec: TypeSpecifier,
    pub ident: Ident,
    pub params: Vec<VarDecl>,
    pub body: Box<StmtNode>,
}

#[derive(Debug)]
pub struct Program {
    pub span: Span,
    pub functions: Vec<FnDef>,
}

impl TypeSpecifier {
    pub fn new(l: usize, r: usize, ttype: Type) -> (ts: TypeSpecifier)
        ensures
            ts == (TypeSpecifier { span: Span(l, r), ttype }),
    {
        TypeSpecifier { span: Span(l, r), ttype }
    }
}

impl ExpNode {
    pub fn new(l: usize, r: usize, exp: Exp) -> (n: Box<ExpNode>)
        ensures
            *n == (ExpNode { exp, typeval: None, span: Span(l, r) }),
    {
        Box::new(ExpNode { exp, typeval: None, span: Span(l, r) })
    }

    pub fn new_un(l: usize, r: usize, op: UnaryOp, exp: Box<ExpNode>) -> (n: Box<ExpNode>)
        ensures
            *n == (ExpNode { exp: Exp::Unary(op, exp), typeval: None, span: Span(l, r) }),
    {
        Self::new(l, r, Exp::Unary(op, exp))
    }

    pub fn new_bin(
        l: usize,
        r: usize,
        op: BinaryOp,
        lexp: Box<ExpNode>,
        rexp: Box<ExpNode>,
    ) -> (n: Box<ExpNode>)
        ensures
            *n == (ExpNode { exp: Exp::Binary(lexp, op, rexp), typeval: None, span: Span(l, r) }),
    {
        Self::new(l, r, Exp::Binary(lexp, op, rexp))
    }
}

impl StmtNode {
    pub fn new(l: usize, r: usize, stmt: Stmt) -> (n: Box<StmtNode>)
        ensures
            *n == (StmtNode { span: Span(l, r), stmt, will_return: None }),
    {
        Box::new(StmtNode { span: Span(l, r), stmt, will_return: None })
    }

    /// Wrap a statement in a one-statement block covering the same span.
    pub fn block(stmt: Box<StmtNode>) -> (n: Box<StmtNode>)
        ensures
            n.span == stmt.span,
            n.will_return == None::<bool>,
            n.stmt matches Stmt::BStmt(ss) && ss@ =~= seq![stmt],
    {
        let l = stmt.span.0;
        let r = stmt.span.1;
        let mut ss: Vec<Box<StmtNode>> = Vec::new();
        ss.push(stmt);
        StmtNode::new(l, r, Stmt::BStmt(ss))
    }
}

/// A function's signature: return type plus ordered parameter types,
/// derived from the definition and never stored redundantly.
pub open spec fn spec_signature(f: FnDef) -> (Type, Seq<Type>) {
    (f.type_spec.ttype, flatten_param_types(f.params@))
}

/// Every declared parameter contributes its declared type, in order.
/// A parameter declaration group lists one type for one or more names.
pub open spec fn flatten_param_types(params: Seq<VarDecl>) -> Seq<Type>
    decreases params.len(),
{
    if params.len() == 0 {
        Seq::empty()
    } else {
        Seq::new(params[0].vars@.len(), |i: int| params[0].type_spec.ttype) + flatten_param_types(
            params.drop_first(),
        )
    }
}

impl FnDef {
    pub fn get_signature(&self) -> (sig: FnSignature)
        ensures
            sig.0 == self.type_spec.ttype,
            sig.1@ == spec_signature(*self).1,
    {
        let mut types: Vec<Type> = Vec::new();
        let mut i: usize = 0;
        while i < self.params.len()
            invariant
                0 <= i <= self.params@.len(),
                types@ == flatten_param_types(self.params@.take(i as int)),
            decreases self.params@.len() - i,
        {
            let group = &self.params[i];
            let mut j: usize = 0;
            while j < group.vars.len()
                invariant
                    0 <= j <= group.vars@.len(),
                    group == self.params@[i as int],
                    0 <= i < self.params@.len(),
                    types@ == flatten_param_types(self.params@.take(i as int)) + Seq::new(
                        j as nat,
                        |k: int| group.type_spec.ttype,
                    ),
                decreases group.vars@.len() - j,
            {
                types.push(group.type_spec.ttype);
                j += 1;
            }
            proof {
                lemma_flatten_param_types_take(self.params@, i as int);
                assert(types@ =~= flatten_param_types(self.params@.take(i as int + 1)));
            }
            i += 1;
        }
        proof {
            assert(self.params@.take(self.params@.len() as int) =~= self.params@);
        }
        (self.type_spec.ttype, types)
    }
}

proof fn lemma_flatten_param_types_take(params: Seq<VarDecl>, i: int)
    requires
        0 <= i < params.len(),
    ensures
        flatten_param_types(params.take(i + 1)) == flatten_param_types(params.take(i)) + Seq::new(
            params[i].vars@.len(),
            |k: int| params[i].type_spec.ttype,
        ),
    decreases i,
{
    let a = params.take(i + 1);
    let b = params.take(i);
    if i == 0 {
        assert(a.drop_first() =~= Seq::<VarDecl>::empty());
        assert(b =~= Seq::<VarDecl>::empty());
        assert(flatten_param_types(a) =~= flatten_param_types(b) + Seq::new(
            params[i].vars@.len(),
            |k: int| params[i].type_spec.ttype,
        ));
    } else {
        lemma_flatten_param_types_take(params.drop_first(), i - 1);
        assert(a.drop_first() =~= params.drop_first().take(i));
        assert(b.drop_first() =~= params.drop_first().take(i - 1));
        assert(params.drop_first()[i - 1] == params[i]);
        assert(flatten_param_types(a) =~= flatten_param_types(b) + Seq::new(
            params[i].vars@.len(),
            |k: int| params[i].type_spec.ttype,
        ));
    }
}

} // verus!
