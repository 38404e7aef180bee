use latc::ast::{
    BinaryOp, DeclBody, Exp, ExpNode, ExpTypeVal, FnDef, Program, Span, Stmt, StmtNode, Type,
    TypeSpecifier, UnaryOp, VarDecl,
};
use latc::frontend::{get_binary_op_typeval, get_unary_op_typeval, verify_program};

fn int_lit(v: i32) -> Box<ExpNode> {
    ExpNode::new(0, 0, Exp::Int(v))
}

fn bool_lit(v: bool) -> Box<ExpNode> {
    ExpNode::new(0, 0, Exp::Bool(v))
}

fn var(name: &str) -> Box<ExpNode> {
    ExpNode::new(0, 0, Exp::Var(name.to_string()))
}

fn bin(op: BinaryOp, l: Box<ExpNode>, r: Box<ExpNode>) -> Box<ExpNode> {
    ExpNode::new_bin(0, 0, op, l, r)
}

fn decl(ttype: Type, name: &str, init: Option<Box<ExpNode>>) -> Box<StmtNode> {
    StmtNode::new(
        0,
        0,
        Stmt::Decl(VarDecl {
            span: Span(0, 0),
            type_spec: TypeSpecifier::new(0, 0, ttype),
            vars: vec![DeclBody { span: Span(0, 0), ident: name.to_string(), init }],
        }),
    )
}

fn ret(e: Box<ExpNode>) -> Box<StmtNode> {
    StmtNode::new(0, 0, Stmt::Ret(e))
}

fn block(stmts: Vec<Box<StmtNode>>) -> Box<StmtNode> {
    StmtNode::new(0, 0, Stmt::BStmt(stmts))
}

fn fndef(ttype: Type, name: &str, params: Vec<VarDecl>, body: Vec<Box<StmtNode>>) -> FnDef {
    FnDef {
        span: Span(0, 0),
        type_spec: TypeSpecifier::new(0, 0, ttype),
        ident: name.to_string(),
        params,
        body: block(body),
    }
}

fn param(ttype: Type, name: &str) -> VarDecl {
    VarDecl {
        span: Span(0, 0),
        type_spec: TypeSpecifier::new(0, 0, ttype),
        vars: vec![DeclBody { span: Span(0, 0), ident: name.to_string(), init: None }],
    }
}

fn program(functions: Vec<FnDef>) -> Program {
    Program { span: Span(0, 0), functions }
}

fn main_returning_zero() -> FnDef {
    fndef(Type::Int, "main", vec![], vec![ret(int_lit(0))])
}

#[test]
fn folding_arithmetic_is_exact() {
    let r = get_binary_op_typeval(
        &BinaryOp::Add,
        &ExpTypeVal::Int(Some(3)),
        &ExpTypeVal::Int(Some(4)),
    );
    assert!(matches!(r, ExpTypeVal::Int(Some(7))));
    let r = get_binary_op_typeval(
        &BinaryOp::Sub,
        &ExpTypeVal::Int(Some(3)),
        &ExpTypeVal::Int(Some(5)),
    );
    assert!(matches!(r, ExpTypeVal::Int(Some(-2))));
    let r = get_binary_op_typeval(
        &BinaryOp::Mul,
        &ExpTypeVal::Int(Some(-6)),
        &ExpTypeVal::Int(Some(7)),
    );
    assert!(matches!(r, ExpTypeVal::Int(Some(-42))));
    let r = get_binary_op_typeval(
        &BinaryOp::And,
        &ExpTypeVal::Bool(Some(true)),
        &ExpTypeVal::Bool(Some(false)),
    );
    assert!(matches!(r, ExpTypeVal::Bool(Some(false))));
    let r = get_binary_op_typeval(
        &BinaryOp::Or,
        &ExpTypeVal::Bool(Some(false)),
        &ExpTypeVal::Bool(Some(true)),
    );
    assert!(matches!(r, ExpTypeVal::Bool(Some(true))));
    let r = get_binary_op_typeval(
        &BinaryOp::Lt,
        &ExpTypeVal::Int(Some(2)),
        &ExpTypeVal::Int(Some(3)),
    );
    assert!(matches!(r, ExpTypeVal::Bool(Some(true))));
    let r = get_binary_op_typeval(
        &BinaryOp::Eq,
        &ExpTypeVal::Int(Some(2)),
        &ExpTypeVal::Int(Some(3)),
    );
    assert!(matches!(r, ExpTypeVal::Bool(Some(false))));
    let r = get_unary_op_typeval(&UnaryOp::Neg, &ExpTypeVal::Int(Some(5)));
    assert!(matches!(r, ExpTypeVal::Int(Some(-5))));
    let r = get_unary_op_typeval(&UnaryOp::Not, &ExpTypeVal::Bool(Some(true)));
    assert!(matches!(r, ExpTypeVal::Bool(Some(false))));
}

#[test]
fn folding_string_equality_is_exact() {
    let a = ExpTypeVal::Str(Some("ab".to_string()));
    let b = ExpTypeVal::Str(Some("ab".to_string()));
    let c = ExpTypeVal::Str(Some("cd".to_string()));
    let r = get_binary_op_typeval(&BinaryOp::Eq, &a, &b);
    assert!(matches!(r, ExpTypeVal::Bool(Some(true))));
    let r = get_binary_op_typeval(&BinaryOp::Eq, &a, &c);
    assert!(matches!(r, ExpTypeVal::Bool(Some(false))));
    let r = get_binary_op_typeval(&BinaryOp::Neq, &a, &c);
    assert!(matches!(r, ExpTypeVal::Bool(Some(true))));
    let r = get_binary_op_typeval(&BinaryOp::Neq, &a, &b);
    assert!(matches!(r, ExpTypeVal::Bool(Some(false))));
    // an unknown operand still does not fold
    let r = get_binary_op_typeval(&BinaryOp::Eq, &a, &ExpTypeVal::Str(None));
    assert!(matches!(r, ExpTypeVal::Bool(None)));
    // concatenation is typed but never folded
    let r = get_binary_op_typeval(&BinaryOp::Add, &a, &b);
    assert!(matches!(r, ExpTypeVal::Str(None)));
}

#[test]
fn folding_overflow_left_unknown() {
    let r = get_binary_op_typeval(
        &BinaryOp::Add,
        &ExpTypeVal::Int(Some(i32::MAX)),
        &ExpTypeVal::Int(Some(1)),
    );
    assert!(matches!(r, ExpTypeVal::Int(None)));
    let r = get_unary_op_typeval(&UnaryOp::Neg, &ExpTypeVal::Int(Some(i32::MIN)));
    assert!(matches!(r, ExpTypeVal::Int(None)));
}

#[test]
fn division_by_known_zero_does_not_fold() {
    let r = get_binary_op_typeval(
        &BinaryOp::Div,
        &ExpTypeVal::Int(Some(17)),
        &ExpTypeVal::Int(Some(0)),
    );
    assert!(matches!(r, ExpTypeVal::Int(None)));
    let r = get_binary_op_typeval(
        &BinaryOp::Mod,
        &ExpTypeVal::Int(Some(17)),
        &ExpTypeVal::Int(Some(0)),
    );
    assert!(matches!(r, ExpTypeVal::Int(None)));
}

#[test]
fn division_by_nonzero_folds_truncating() {
    let r = get_binary_op_typeval(
        &BinaryOp::Div,
        &ExpTypeVal::Int(Some(7)),
        &ExpTypeVal::Int(Some(2)),
    );
    assert!(matches!(r, ExpTypeVal::Int(Some(3))));
    let r = get_binary_op_typeval(
        &BinaryOp::Div,
        &ExpTypeVal::Int(Some(-7)),
        &ExpTypeVal::Int(Some(2)),
    );
    assert!(matches!(r, ExpTypeVal::Int(Some(-3))));
    let r = get_binary_op_typeval(
        &BinaryOp::Mod,
        &ExpTypeVal::Int(Some(-7)),
        &ExpTypeVal::Int(Some(2)),
    );
    assert!(matches!(r, ExpTypeVal::Int(Some(-1))));
    let r = get_binary_op_typeval(
        &BinaryOp::Mod,
        &ExpTypeVal::Int(Some(7)),
        &ExpTypeVal::Int(Some(-2)),
    );
    assert!(matches!(r, ExpTypeVal::Int(Some(1))));
    let r = get_binary_op_typeval(
        &BinaryOp::Div,
        &ExpTypeVal::Int(Some(i32::MIN)),
        &ExpTypeVal::Int(Some(-1)),
    );
    assert!(matches!(r, ExpTypeVal::Int(None)));
}

#[test]
fn missing_main_reported_once() {
    let mut prog = program(vec![]);
    let diags = verify_program(&mut prog);
    assert_eq!(diags.len(), 1);
    assert_eq!(diags[0].message, "missing main function");
}

#[test]
fn invalid_main_signature_reported_once() {
    let mut prog = program(vec![fndef(
        Type::Int,
        "main",
        vec![param(Type::Int, "x")],
        vec![ret(int_lit(0))],
    )]);
    let diags = verify_program(&mut prog);
    assert_eq!(diags.len(), 1);
    assert_eq!(diags[0].message, "invalid main function");
}

#[test]
fn void_main_reported_once() {
    let mut prog = program(vec![fndef(Type::Void, "main", vec![], vec![])]);
    let diags = verify_program(&mut prog);
    assert_eq!(diags.len(), 1);
    assert_eq!(diags[0].message, "invalid main function");
}

#[test]
fn redeclaration_in_same_block_reported_once() {
    let mut prog = program(vec![fndef(
        Type::Int,
        "main",
        vec![],
        vec![
            decl(Type::Int, "x", None),
            decl(Type::Int, "x", None),
            ret(int_lit(0)),
        ],
    )]);
    let diags = verify_program(&mut prog);
    assert_eq!(diags.len(), 1);
    assert!(diags[0].message.starts_with("variable already declared"));
}

#[test]
fn shadowing_in_nested_block_is_legal() {
    let mut prog = program(vec![fndef(
        Type::Int,
        "main",
        vec![],
        vec![
            decl(Type::Int, "x", None),
            block(vec![decl(Type::Int, "x", None)]),
            ret(int_lit(0)),
        ],
    )]);
    let diags = verify_program(&mut prog);
    assert_eq!(diags.len(), 0);
}

#[test]
fn dead_code_after_return_is_pruned() {
    let mut prog = program(vec![fndef(
        Type::Int,
        "main",
        vec![],
        vec![ret(int_lit(1)), decl(Type::Int, "x", Some(int_lit(2)))],
    )]);
    let diags = verify_program(&mut prog);
    assert_eq!(diags.len(), 0);
    let body = &prog.functions[0].body;
    assert_eq!(body.will_return, Some(true));
    match &body.stmt {
        Stmt::BStmt(ss) => {
            assert_eq!(ss.len(), 1);
            assert!(matches!(ss[0].stmt, Stmt::Ret(_)));
        },
        _ => panic!("body is not a block"),
    }
}

#[test]
fn void_function_gets_implicit_return() {
    let mut prog = program(vec![
        main_returning_zero(),
        fndef(
            Type::Void,
            "greet",
            vec![],
            vec![StmtNode::new(
                0,
                0,
                Stmt::EStmt(ExpNode::new(
                    0,
                    0,
                    Exp::Call("printInt".to_string(), vec![int_lit(1)]),
                )),
            )],
        ),
    ]);
    let diags = verify_program(&mut prog);
    assert_eq!(diags.len(), 0);
    match &prog.functions[1].body.stmt {
        Stmt::BStmt(ss) => {
            assert_eq!(ss.len(), 2);
            assert!(matches!(ss[1].stmt, Stmt::VRet));
            assert_eq!(ss[1].will_return, Some(true));
        },
        _ => panic!("body is not a block"),
    }
}

#[test]
fn void_function_with_return_gets_no_extra_one() {
    let mut prog = program(vec![
        main_returning_zero(),
        fndef(Type::Void, "quiet", vec![], vec![StmtNode::new(0, 0, Stmt::VRet)]),
    ]);
    let diags = verify_program(&mut prog);
    assert_eq!(diags.len(), 0);
    match &prog.functions[1].body.stmt {
        Stmt::BStmt(ss) => assert_eq!(ss.len(), 1),
        _ => panic!("body is not a block"),
    }
}

#[test]
fn missing_return_reported_once() {
    let mut prog = program(vec![
        main_returning_zero(),
        fndef(Type::Int, "f", vec![], vec![decl(Type::Int, "x", None)]),
    ]);
    let diags = verify_program(&mut prog);
    assert_eq!(diags.len(), 1);
    assert_eq!(diags[0].message, "no return statement in non-void function f");
}

#[test]
fn branch_returns_on_both_arms_count_as_return() {
    let cond = StmtNode::new(
        0,
        0,
        Stmt::Cond(
            var("c"),
            block(vec![ret(int_lit(1))]),
            Some(block(vec![ret(int_lit(2))])),
        ),
    );
    let mut prog = program(vec![
        main_returning_zero(),
        fndef(Type::Int, "f", vec![param(Type::Bool, "c")], vec![cond]),
    ]);
    let diags = verify_program(&mut prog);
    assert_eq!(diags.len(), 0);
}

#[test]
fn if_without_else_is_not_a_sure_return() {
    let cond = StmtNode::new(0, 0, Stmt::Cond(var("c"), block(vec![ret(int_lit(1))]), None));
    let mut prog = program(vec![
        main_returning_zero(),
        fndef(Type::Int, "f", vec![param(Type::Bool, "c")], vec![cond]),
    ]);
    let diags = verify_program(&mut prog);
    assert_eq!(diags.len(), 1);
    assert_eq!(diags[0].message, "no return statement in non-void function f");
}

#[test]
fn while_true_counts_as_return() {
    let loop_stmt = StmtNode::new(0, 0, Stmt::While(bool_lit(true), block(vec![])));
    let mut prog = program(vec![
        main_returning_zero(),
        fndef(Type::Int, "spin", vec![], vec![loop_stmt]),
    ]);
    let diags = verify_program(&mut prog);
    assert_eq!(diags.len(), 0);
}

#[test]
fn dead_branch_is_still_type_checked() {
    // if (false) { boolean y = 1; } -- the branch is never taken, yet its
    // type error is a real error.
    let bad_branch = block(vec![decl(Type::Bool, "y", Some(int_lit(1)))]);
    let cond = StmtNode::new(0, 0, Stmt::Cond(bool_lit(false), bad_branch, None));
    let mut prog = program(vec![fndef(Type::Int, "main", vec![], vec![cond, ret(int_lit(0))])]);
    let diags = verify_program(&mut prog);
    assert_eq!(diags.len(), 1);
    assert_eq!(diags[0].message, "invalid expression type");
}

#[test]
fn cascade_of_errors_is_suppressed() {
    // (1 + true) + 2 as a bare statement: one report for the inner
    // mismatch, none for the outer one built on the already-invalid value.
    let inner = bin(BinaryOp::Add, int_lit(1), bool_lit(true));
    let outer = bin(BinaryOp::Add, inner, int_lit(2));
    let stmt = StmtNode::new(0, 0, Stmt::EStmt(outer));
    let mut prog = program(vec![fndef(Type::Int, "main", vec![], vec![stmt, ret(int_lit(0))])]);
    let diags = verify_program(&mut prog);
    assert_eq!(diags.len(), 1);
    assert!(diags[0].message.starts_with("invalid use of operand"));
}

#[test]
fn unknown_function_and_undeclared_variable() {
    let call = ExpNode::new(0, 0, Exp::Call("nosuch".to_string(), vec![]));
    let use_undeclared = StmtNode::new(0, 0, Stmt::EStmt(var("ghostvar")));
    let mut prog = program(vec![fndef(
        Type::Int,
        "main",
        vec![],
        vec![
            StmtNode::new(0, 0, Stmt::EStmt(call)),
            use_undeclared,
            ret(int_lit(0)),
        ],
    )]);
    let diags = verify_program(&mut prog);
    assert_eq!(diags.len(), 2);
    assert_eq!(diags[0].message, "unknown function identifier nosuch");
    assert_eq!(diags[1].message, "undeclared variable ghostvar");
}

#[test]
fn call_argument_types_are_checked() {
    let call = ExpNode::new(0, 0, Exp::Call("printInt".to_string(), vec![bool_lit(true)]));
    let mut prog = program(vec![fndef(
        Type::Int,
        "main",
        vec![],
        vec![StmtNode::new(0, 0, Stmt::EStmt(call)), ret(int_lit(0))],
    )]);
    let diags = verify_program(&mut prog);
    assert_eq!(diags.len(), 1);
    assert_eq!(diags[0].message, "invalid argument types");
}

#[test]
fn duplicate_function_reported_and_first_wins() {
    let mut prog = program(vec![
        main_returning_zero(),
        fndef(Type::Int, "f", vec![], vec![ret(int_lit(1))]),
        fndef(Type::Bool, "f", vec![], vec![ret(bool_lit(true))]),
    ]);
    let diags = verify_program(&mut prog);
    assert_eq!(diags.len(), 1);
    assert_eq!(diags[0].message, "multiple declaration of function f");
}

#[test]
fn known_true_condition_settles_reachability() {
    // if (true) { return 1; } with no else: the then arm's fact decides.
    let cond = StmtNode::new(0, 0, Stmt::Cond(bool_lit(true), block(vec![ret(int_lit(1))]), None));
    let mut prog = program(vec![fndef(Type::Int, "main", vec![], vec![cond])]);
    let diags = verify_program(&mut prog);
    assert_eq!(diags.len(), 0);
    assert_eq!(prog.functions[0].body.will_return, Some(true));
}

#[test]
fn increment_requires_an_integer_variable() {
    let incr = StmtNode::new(0, 0, Stmt::Incr("b".to_string()));
    let mut prog = program(vec![fndef(
        Type::Int,
        "main",
        vec![],
        vec![decl(Type::Bool, "b", None), incr, ret(int_lit(0))],
    )]);
    let diags = verify_program(&mut prog);
    assert_eq!(diags.len(), 1);
    assert_eq!(diags[0].message, "invalid expression type");
}

#[test]
fn good_programs_compile_clean() {
    // A small fixed corpus of well-typed programs must verify with zero
    // diagnostics.
    let add_fn = fndef(
        Type::Int,
        "add",
        vec![param(Type::Int, "a"), param(Type::Int, "b")],
        vec![ret(bin(BinaryOp::Add, var("a"), var("b")))],
    );
    let main_fn = fndef(
        Type::Int,
        "main",
        vec![],
        vec![ret(ExpNode::new(
            0,
            0,
            Exp::Call("add".to_string(), vec![int_lit(20), int_lit(22)]),
        ))],
    );
    let mut prog = program(vec![add_fn, main_fn]);
    assert_eq!(verify_program(&mut prog).len(), 0);

    let str_fn = fndef(
        Type::Str,
        "hello",
        vec![],
        vec![ret(ExpNode::new(0, 0, Exp::Str("hello".to_string())))],
    );
    let mut prog = program(vec![str_fn, main_returning_zero()]);
    assert_eq!(verify_program(&mut prog).len(), 0);
}

#[test]
fn bad_programs_each_produce_a_diagnostic() {
    // return type mismatch
    let mut p1 = program(vec![fndef(Type::Int, "main", vec![], vec![ret(bool_lit(true))])]);
    assert!(verify_program(&mut p1).len() >= 1);
    // condition is not boolean
    let cond = StmtNode::new(0, 0, Stmt::Cond(int_lit(1), block(vec![]), None));
    let mut p2 = program(vec![fndef(Type::Int, "main", vec![], vec![cond, ret(int_lit(0))])]);
    assert!(verify_program(&mut p2).len() >= 1);
    // assignment to undeclared variable
    let ass = StmtNode::new(0, 0, Stmt::Ass("y".to_string(), int_lit(1)));
    let mut p3 = program(vec![fndef(Type::Int, "main", vec![], vec![ass, ret(int_lit(0))])]);
    assert!(verify_program(&mut p3).len() >= 1);
    // bare return in a non-void function
    let vret = StmtNode::new(0, 0, Stmt::VRet);
    let mut p4 = program(vec![fndef(Type::Int, "main", vec![], vec![vret])]);
    assert!(verify_program(&mut p4).len() >= 1);
}
