use latc::ast::{
    BinaryOp, DeclBody, Exp, ExpNode, FnDef, Program, Span, Stmt, StmtNode, Type, TypeSpecifier,
    VarDecl,
};
use latc::backend::{Backend, Instr, IrBlock, Module, Val};
use latc::frontend::verify_program;
use std::collections::HashMap;

// ---- small builders -------------------------------------------------------

fn int_lit(v: i32) -> Box<ExpNode> {
    ExpNode::new(0, 0, Exp::Int(v))
}

fn bool_lit(v: bool) -> Box<ExpNode> {
    ExpNode::new(0, 0, Exp::Bool(v))
}

fn var(name: &str) -> Box<ExpNode> {
    ExpNode::new(0, 0, Exp::Var(name.to_string()))
}

fn bin(op: BinaryOp, l: Box<ExpNode>, r: Box<ExpNode>) -> Box<ExpNode> {
    ExpNode::new_bin(0, 0, op, l, r)
}

fn call(name: &str, args: Vec<Box<ExpNode>>) -> Box<ExpNode> {
    ExpNode::new(0, 0, Exp::Call(name.to_string(), args))
}

fn decl(ttype: Type, name: &str, init: Option<Box<ExpNode>>) -> Box<StmtNode> {
    StmtNode::new(
        0,
        0,
        Stmt::Decl(VarDecl {
            span: Span(0, 0),
            type_spec: TypeSpecifier::new(0, 0, ttype),
            vars: vec![DeclBody { span: Span(0, 0), ident: name.to_string(), init }],
        }),
    )
}

fn assign(name: &str, e: Box<ExpNode>) -> Box<StmtNode> {
    StmtNode::new(0, 0, Stmt::Ass(name.to_string(), e))
}

fn ret(e: Box<ExpNode>) -> Box<StmtNode> {
    StmtNode::new(0, 0, Stmt::Ret(e))
}

fn block(stmts: Vec<Box<StmtNode>>) -> Box<StmtNode> {
    StmtNode::new(0, 0, Stmt::BStmt(stmts))
}

fn fndef(ttype: Type, name: &str, params: Vec<VarDecl>, body: Vec<Box<StmtNode>>) -> FnDef {
    FnDef {
        span: Span(0, 0),
        type_spec: TypeSpecifier::new(0, 0, ttype),
        ident: name.to_string(),
        params,
        body: block(body),
    }
}

fn param(ttype: Type, name: &str) -> VarDecl {
    VarDecl {
        span: Span(0, 0),
        type_spec: TypeSpecifier::new(0, 0, ttype),
        vars: vec![DeclBody { span: Span(0, 0), ident: name.to_string(), init: None }],
    }
}

/// Analyze and lower a program that must be well typed.
fn compile_clean(functions: Vec<FnDef>) -> Module {
    let mut prog = Program { span: Span(0, 0), functions };
    let diags = verify_program(&mut prog);
    assert!(diags.is_empty(), "expected a clean program");
    let mut be = Backend::new("m".to_string());
    be.compile_prog(&prog);
    be.md
}

// ---- a small interpreter for the lowered form -----------------------------

#[derive(Clone, Debug, PartialEq)]
enum RtVal {
    I(i32),
    B(bool),
    S(String),
}

struct Rt<'m> {
    md: &'m Module,
    out: Vec<String>,
}

impl<'m> Rt<'m> {
    fn eval(&self, v: &Val, args: &[RtVal], regs: &HashMap<usize, RtVal>) -> RtVal {
        match v {
            Val::ConstInt(i) => RtVal::I(*i),
            Val::ConstBool(b) => RtVal::B(*b),
            Val::StrPtr(s) => RtVal::S(self.md.strings[*s].clone()),
            Val::Arg(i) => args[*i].clone(),
            Val::Reg(r) => regs.get(r).expect("undefined register").clone(),
        }
    }

    fn as_i(v: RtVal) -> i32 {
        match v {
            RtVal::I(i) => i,
            RtVal::B(b) => {
                if b {
                    1
                } else {
                    0
                }
            },
            _ => panic!("expected an integer value"),
        }
    }

    fn as_b(v: RtVal) -> bool {
        match v {
            RtVal::B(b) => b,
            RtVal::I(i) => i != 0,
            _ => panic!("expected a boolean value"),
        }
    }

    fn call_fn(&mut self, fi: usize, args: Vec<RtVal>) -> Option<RtVal> {
        let f = &self.md.funcs[fi];
        if f.blocks.is_empty() {
            // a declaration: one of the fixed runtime primitives
            return match f.name.as_str() {
                "printInt" => {
                    self.out.push(format!("{}", Self::as_i(args[0].clone())));
                    None
                },
                "printString" => {
                    match &args[0] {
                        RtVal::S(s) => self.out.push(s.clone()),
                        _ => panic!("printString on a non-string"),
                    }
                    None
                },
                "readInt" => Some(RtVal::I(0)),
                "readString" => Some(RtVal::S(String::new())),
                "__latc_concat_str" => {
                    match (&args[0], &args[1]) {
                        (RtVal::S(a), RtVal::S(b)) => {
                            let mut s = a.clone();
                            s.push_str(b);
                            Some(RtVal::S(s))
                        },
                        _ => panic!("concat on non-strings"),
                    }
                },
                other => panic!("call of undefined function {}", other),
            };
        }
        let mut regs: HashMap<usize, RtVal> = HashMap::new();
        let mut prev: Option<usize> = None;
        let mut cur: usize = f.blocks[0].label;
        let mut steps = 0usize;
        loop {
            steps += 1;
            assert!(steps < 100000, "runaway execution");
            let blk: &IrBlock =
                f.blocks.iter().find(|b| b.label == cur).expect("branch to a pruned block");
            let mut next: Option<usize> = None;
            for ins in blk.instrs.iter() {
                match ins {
                    Instr::Bin(r, op, a, b) => {
                        let av = self.eval(a, &args, &regs);
                        let bv = self.eval(b, &args, &regs);
                        let res = match op {
                            BinaryOp::Add => match (av, bv) {
                                (RtVal::I(x), RtVal::I(y)) => RtVal::I(x.wrapping_add(y)),
                                _ => panic!("add on non-integers"),
                            },
                            BinaryOp::Sub => {
                                RtVal::I(Self::as_i(av).wrapping_sub(Self::as_i(bv)))
                            },
                            BinaryOp::Mul => {
                                RtVal::I(Self::as_i(av).wrapping_mul(Self::as_i(bv)))
                            },
                            BinaryOp::Div => RtVal::I(Self::as_i(av) / Self::as_i(bv)),
                            BinaryOp::Mod => RtVal::I(Self::as_i(av) % Self::as_i(bv)),
                            BinaryOp::Gt => RtVal::B(Self::as_i(av) > Self::as_i(bv)),
                            BinaryOp::Gte => RtVal::B(Self::as_i(av) >= Self::as_i(bv)),
                            BinaryOp::Lt => RtVal::B(Self::as_i(av) < Self::as_i(bv)),
                            BinaryOp::Lte => RtVal::B(Self::as_i(av) <= Self::as_i(bv)),
                            BinaryOp::Eq => RtVal::B(av == bv),
                            BinaryOp::Neq => RtVal::B(av != bv),
                            BinaryOp::And => RtVal::B(Self::as_b(av) && Self::as_b(bv)),
                            BinaryOp::Or => RtVal::B(Self::as_b(av) || Self::as_b(bv)),
                        };
                        regs.insert(*r, res);
                    },
                    Instr::Neg(r, a) => {
                        let av = Self::as_i(self.eval(a, &args, &regs));
                        regs.insert(*r, RtVal::I(av.wrapping_neg()));
                    },
                    Instr::Not(r, a) => {
                        let av = Self::as_b(self.eval(a, &args, &regs));
                        regs.insert(*r, RtVal::B(!av));
                    },
                    Instr::Call(r, fi2, vals) => {
                        let argv: Vec<RtVal> =
                            vals.iter().map(|v| self.eval(v, &args, &regs)).collect();
                        let res = self.call_fn(*fi2, argv);
                        if let Some(reg) = r {
                            regs.insert(*reg, res.expect("void result bound to a register"));
                        }
                    },
                    Instr::Phi(r, entries) => {
                        let p = prev.expect("phi in an entry block");
                        let (v, _) = entries
                            .iter()
                            .find(|(_, from)| *from == p)
                            .expect("phi without an edge for the predecessor");
                        let val = self.eval(v, &args, &regs);
                        regs.insert(*r, val);
                    },
                    Instr::Br(t) => {
                        next = Some(*t);
                        break;
                    },
                    Instr::CondBr(c, t, e) => {
                        let cv = Self::as_b(self.eval(c, &args, &regs));
                        next = Some(if cv { *t } else { *e });
                        break;
                    },
                    Instr::Ret(v) => {
                        return v.as_ref().map(|v| self.eval(v, &args, &regs));
                    },
                }
            }
            match next {
                Some(t) => {
                    prev = Some(cur);
                    cur = t;
                },
                None => panic!("block without a terminator"),
            }
        }
    }
}

fn run(md: &Module, name: &str, args: Vec<RtVal>) -> (Option<RtVal>, Vec<String>) {
    let fi = md.funcs.iter().position(|f| f.name == name).expect("function not found");
    let mut rt = Rt { md, out: Vec::new() };
    let r = rt.call_fn(fi, args);
    (r, rt.out)
}

// ---- end-to-end behavior --------------------------------------------------

#[test]
fn phi_merge_reflects_taken_branch() {
    // int f(bool c) { int x = 1; if (c) { x = 2; } else { x = 3; } return x; }
    let body = vec![
        decl(Type::Int, "x", Some(int_lit(1))),
        StmtNode::new(
            0,
            0,
            Stmt::Cond(
                var("c"),
                block(vec![assign("x", int_lit(2))]),
                Some(block(vec![assign("x", int_lit(3))])),
            ),
        ),
        ret(var("x")),
    ];
    let md = compile_clean(vec![
        fndef(Type::Int, "f", vec![param(Type::Bool, "c")], body),
        fndef(Type::Int, "main", vec![], vec![ret(call("f", vec![bool_lit(true)]))]),
    ]);
    let (r, _) = run(&md, "f", vec![RtVal::B(true)]);
    assert_eq!(r, Some(RtVal::I(2)));
    let (r, _) = run(&md, "f", vec![RtVal::B(false)]);
    assert_eq!(r, Some(RtVal::I(3)));
}

#[test]
fn short_circuit_suppresses_side_effects() {
    // bool noisy() { printInt(7); return true; }
    // int f(bool c) { boolean y = c && noisy(); if (y) { return 1; } return 0; }
    // int g(bool c) { boolean y = c || noisy(); if (y) { return 1; } return 0; }
    let noisy = fndef(
        Type::Bool,
        "noisy",
        vec![],
        vec![
            StmtNode::new(0, 0, Stmt::EStmt(call("printInt", vec![int_lit(7)]))),
            ret(bool_lit(true)),
        ],
    );
    let mk = |name: &str, op: BinaryOp| {
        fndef(
            Type::Int,
            name,
            vec![param(Type::Bool, "c")],
            vec![
                decl(Type::Bool, "y", Some(bin(op, var("c"), call("noisy", vec![])))),
                StmtNode::new(
                    0,
                    0,
                    Stmt::Cond(var("y"), block(vec![ret(int_lit(1))]), None),
                ),
                ret(int_lit(0)),
            ],
        )
    };
    let md = compile_clean(vec![
        noisy,
        mk("f", BinaryOp::And),
        mk("g", BinaryOp::Or),
        fndef(Type::Int, "main", vec![], vec![ret(int_lit(0))]),
    ]);
    // false && noisy(): the right operand must not run
    let (r, out) = run(&md, "f", vec![RtVal::B(false)]);
    assert_eq!(r, Some(RtVal::I(0)));
    assert!(out.is_empty());
    // true && noisy(): it runs
    let (r, out) = run(&md, "f", vec![RtVal::B(true)]);
    assert_eq!(r, Some(RtVal::I(1)));
    assert_eq!(out, vec!["7".to_string()]);
    // true || noisy(): the right operand must not run
    let (r, out) = run(&md, "g", vec![RtVal::B(true)]);
    assert_eq!(r, Some(RtVal::I(1)));
    assert!(out.is_empty());
    // false || noisy(): it runs
    let (r, out) = run(&md, "g", vec![RtVal::B(false)]);
    assert_eq!(r, Some(RtVal::I(1)));
    assert_eq!(out, vec!["7".to_string()]);
}

#[test]
fn while_loop_counts_through_phis() {
    // int count() { int i = 0; while (i < 5) { i++; } return i; }
    let body = vec![
        decl(Type::Int, "i", Some(int_lit(0))),
        StmtNode::new(
            0,
            0,
            Stmt::While(
                bin(BinaryOp::Lt, var("i"), int_lit(5)),
                block(vec![StmtNode::new(0, 0, Stmt::Incr("i".to_string()))]),
            ),
        ),
        ret(var("i")),
    ];
    let md = compile_clean(vec![
        fndef(Type::Int, "count", vec![], body),
        fndef(Type::Int, "main", vec![], vec![ret(call("count", vec![]))]),
    ]);
    let (r, _) = run(&md, "count", vec![]);
    assert_eq!(r, Some(RtVal::I(5)));
}

#[test]
fn string_literals_deduplicated_and_concatenated() {
    // string s() { return "ab" + "cd"; }  with "ab" used twice
    let concat = bin(
        BinaryOp::Add,
        ExpNode::new(0, 0, Exp::Str("ab".to_string())),
        ExpNode::new(0, 0, Exp::Str("cd".to_string())),
    );
    let twice = fndef(
        Type::Str,
        "s",
        vec![],
        vec![
            decl(Type::Str, "x", Some(ExpNode::new(0, 0, Exp::Str("ab".to_string())))),
            ret(concat),
        ],
    );
    let md = compile_clean(vec![
        twice,
        fndef(Type::Int, "main", vec![], vec![ret(int_lit(0))]),
    ]);
    // "ab" occurs twice in the source but once in the module
    let ab_count = md.strings.iter().filter(|s| s.as_str() == "ab").count();
    assert_eq!(ab_count, 1);
    let (r, _) = run(&md, "s", vec![]);
    assert_eq!(r, Some(RtVal::S("abcd".to_string())));
}

#[test]
fn known_condition_lowers_only_the_live_arm() {
    // int f() { if (true) { return 1; } else { return 2; } }
    let body = vec![StmtNode::new(
        0,
        0,
        Stmt::Cond(
            bool_lit(true),
            block(vec![ret(int_lit(1))]),
            Some(block(vec![ret(int_lit(2))])),
        ),
    )];
    let md = compile_clean(vec![
        fndef(Type::Int, "f", vec![], body),
        fndef(Type::Int, "main", vec![], vec![ret(call("f", vec![]))]),
    ]);
    let (r, _) = run(&md, "f", vec![]);
    assert_eq!(r, Some(RtVal::I(1)));
    // the untaken arm was never lowered: no block mentions the constant 2
    let f = md.funcs.iter().find(|f| f.name == "f").unwrap();
    let mentions_two = f.blocks.iter().any(|b| {
        b.instrs.iter().any(|i| matches!(i, Instr::Ret(Some(Val::ConstInt(2)))))
    });
    assert!(!mentions_two);
}

#[test]
fn empty_blocks_are_pruned() {
    // both arms return: the continuation block stays empty and is dropped
    let body = vec![StmtNode::new(
        0,
        0,
        Stmt::Cond(
            var("c"),
            block(vec![ret(int_lit(1))]),
            Some(block(vec![ret(int_lit(2))])),
        ),
    )];
    let md = compile_clean(vec![
        fndef(Type::Int, "f", vec![param(Type::Bool, "c")], body),
        fndef(Type::Int, "main", vec![], vec![ret(call("f", vec![bool_lit(true)]))]),
    ]);
    let f = md.funcs.iter().find(|f| f.name == "f").unwrap();
    for b in f.blocks.iter() {
        assert!(b.instrs.len() > 0);
    }
    let (r, _) = run(&md, "f", vec![RtVal::B(false)]);
    assert_eq!(r, Some(RtVal::I(2)));
}

#[test]
fn nested_scopes_merge_outer_variables() {
    // int f(bool c) { int x = 1; if (c) { int y = 9; x = y; } return x; }
    let body = vec![
        decl(Type::Int, "x", Some(int_lit(1))),
        StmtNode::new(
            0,
            0,
            Stmt::Cond(
                var("c"),
                block(vec![decl(Type::Int, "y", Some(int_lit(9))), assign("x", var("y"))]),
                None,
            ),
        ),
        ret(var("x")),
    ];
    let md = compile_clean(vec![
        fndef(Type::Int, "f", vec![param(Type::Bool, "c")], body),
        fndef(Type::Int, "main", vec![], vec![ret(call("f", vec![bool_lit(true)]))]),
    ]);
    let (r, _) = run(&md, "f", vec![RtVal::B(true)]);
    assert_eq!(r, Some(RtVal::I(9)));
    let (r, _) = run(&md, "f", vec![RtVal::B(false)]);
    assert_eq!(r, Some(RtVal::I(1)));
}
