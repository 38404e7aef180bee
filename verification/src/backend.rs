//! SSA code generator: lowers the analyzer-annotated tree to a control-flow
//! graph of basic blocks with explicit phi nodes.
//!
//! The generator reads the annotations (abstract values and will-return
//! facts) and never recomputes them.  Conditionals with a statically known
//! condition lower only the live arm; an unknown condition branches, and at
//! the join every live variable whose value may differ between the arms
//! gets a phi node.  `&&` and `||` lower lazily through the same pattern.
//! After each function, blocks that received no instructions are pruned.
//! Native emission from this representation is an external concern.

use crate::ast::{
    BinaryOp, DeclBody, Exp, ExpNode, ExpTypeVal, FnDef, Ident, Program, Stmt, StmtNode, Type,
    UnaryOp, VarDecl,
};
use crate::ast::{spec_from_type, spec_type_of};
use crate::scoped_map::{
    lemma_live_names_from_keys, lemma_lookup_decl_insert, lemma_lookup_push_empty,
    lemma_replace_in_keys, lemma_scope_insert_keys, live_names, lookup, name_views, ordered_keys,
    replace_in, scope_insert, scope_keys, str_eq, ScopedMap,
};
use vstd::pervasive::unreached;
use vstd::pervasive::VecAdditionalExecFns;
use vstd::prelude::*;

verus! {

/// Identifier of a basic block, stable across pruning.
pub type BlockId = usize;

/// An SSA value: a constant, a reference to a deduplicated global string,
/// a function parameter, or the result register of an instruction.
#[derive(Debug, Clone, Copy, PartialEq, Eq, Structural)]
pub enum Val {
    ConstInt(i32),
    ConstBool(bool),
    StrPtr(usize),
    Arg(usize),
    Reg(usize),
}

/// One SSA instruction.  A block's terminator is its last instruction.
#[derive(Debug)]
pub enum Instr {
    /// register := left op right
    Bin(usize, BinaryOp, Val, Val),
    /// register := -operand
    Neg(usize, Val),
    /// register := !operand
    Not(usize, Val),
    /// optional result register := call of the indexed function
    Call(Option<usize>, usize, Vec<Val>),
    /// register := value selected by the predecessor block arrived from
    Phi(usize, Vec<(Val, BlockId)>),
    Br(BlockId),
    CondBr(Val, BlockId, BlockId),
    Ret(Option<Val>),
}

#[derive(Debug)]
pub struct IrBlock {
    pub label: BlockId,
    pub instrs: Vec<Instr>,
}

/// A function: signature, and basic blocks once it is defined.  Built-ins
/// and the runtime concatenation helper stay declarations.
#[derive(Debug)]
pub struct IrFunc {
    pub name: Ident,
    pub ret: Type,
    pub params: Vec<Type>,
    pub blocks: Vec<IrBlock>,
}

/// A lowered module: functions plus the deduplicated string literals.
#[derive(Debug)]
pub struct Module {
    pub name: Ident,
    pub funcs: Vec<IrFunc>,
    pub strings: Vec<String>,
}

/// Return types of the declared functions, by name, first declaration
/// winning.
pub open spec fn frets_of(fenv: Seq<(Ident, usize)>, funcs: Seq<IrFunc>) -> Map<Seq<char>, Type>
    decreases fenv.len(),
{
    if fenv.len() == 0 {
        Map::empty()
    } else {
        let e = fenv.first();
        let ret = if e.1 < funcs.len() {
            funcs[e.1 as int].ret
        } else {
            Type::Int
        };
        frets_of(fenv.drop_first(), funcs).insert(e.0@, ret)
    }
}

/// The type of an annotated expression, if its annotation is valid.
pub open spec fn etv_of(e: ExpNode) -> Option<Type> {
    match e.typeval {
        Some(tv) => spec_type_of(tv),
        None => None,
    }
}

/// An expression the generator can lower: annotated with a valid type,
/// operands carrying values (never void), every called name declared with
/// the return type the annotation promises, every variable live.
pub open spec fn gen_exp_ok(e: ExpNode, fs: Map<Seq<char>, Type>, vs: Set<Seq<char>>) -> bool
    decreases e,
{
    etv_of(e) is Some && match e.exp {
        Exp::Unary(_, i) => gen_exp_ok(*i, fs, vs) && etv_of(*i) != Some(Type::Void),
        Exp::Binary(l, _, r) => gen_exp_ok(*l, fs, vs) && etv_of(*l) != Some(Type::Void)
            && gen_exp_ok(*r, fs, vs) && etv_of(*r) != Some(Type::Void),
        Exp::Call(id, args) => fs.contains_key(id@) && e.typeval == Some(
            spec_from_type(fs[id@]),
        ) && (forall|i: int|
            0 <= i < args@.len() ==> gen_exp_ok(*(#[trigger] args@[i]), fs, vs) && etv_of(
                *args@[i],
            ) != Some(Type::Void)),
        Exp::Var(x) => vs.contains(x@),
        _ => true,
    }
}

/// Names live after one declaration group.
pub open spec fn decl_names(vars: Seq<DeclBody>, vs: Set<Seq<char>>) -> Set<Seq<char>>
    decreases vars.len(),
{
    if vars.len() == 0 {
        vs
    } else {
        decl_names(vars.drop_first(), vs.insert(vars.first().ident@))
    }
}

/// Names live after one statement: only a declaration adds any.
pub open spec fn stmt_names(s: StmtNode, vs: Set<Seq<char>>) -> Set<Seq<char>> {
    match s.stmt {
        Stmt::Decl(d) => decl_names(d.vars@, vs),
        _ => vs,
    }
}

/// A declaration group the generator can lower: a value type, and each
/// initializer lowerable where its variable comes into scope.
pub open spec fn gen_decl_ok(d: VarDecl, fs: Map<Seq<char>, Type>, vs: Set<Seq<char>>) -> bool {
    d.type_spec.ttype != Type::Void && gen_decl_vars_ok(d.vars@, fs, vs)
}

pub open spec fn gen_decl_vars_ok(
    vars: Seq<DeclBody>,
    fs: Map<Seq<char>, Type>,
    vs: Set<Seq<char>>,
) -> bool
    decreases vars.len(),
{
    if vars.len() == 0 {
        true
    } else {
        (match vars.first().init {
            Some(e) => gen_exp_ok(*e, fs, vs) && etv_of(*e) != Some(Type::Void),
            None => true,
        }) && gen_decl_vars_ok(vars.drop_first(), fs, vs.insert(vars.first().ident@))
    }
}

/// A statement the generator can lower: annotated with its will-return
/// fact, conditions typed boolean, assigned variables live, and branch
/// arms scoped (a bare declaration as a branch arm would leak its binding
/// past the branch; the parser always delivers arms as blocks).
pub open spec fn gen_stmt_ok(s: StmtNode, fs: Map<Seq<char>, Type>, vs: Set<Seq<char>>) -> bool
    decreases s,
{
    s.will_return is Some && match s.stmt {
        Stmt::BStmt(ss) => gen_stmts_ok(ss@, fs, vs),
        Stmt::Decl(d) => gen_decl_ok(d, fs, vs),
        Stmt::Ass(x, e) => vs.contains(x@) && gen_exp_ok(*e, fs, vs) && etv_of(*e) != Some(
            Type::Void,
        ),
        Stmt::Incr(x) => vs.contains(x@),
        Stmt::Decr(x) => vs.contains(x@),
        Stmt::Ret(e) => gen_exp_ok(*e, fs, vs) && etv_of(*e) != Some(Type::Void),
        Stmt::VRet => true,
        Stmt::Cond(c, t, f) => gen_exp_ok(*c, fs, vs) && etv_of(*c) == Some(Type::Bool)
            && gen_stmt_ok(*t, fs, vs) && !(t.stmt is Decl) && (match f {
            Some(fs2) => gen_stmt_ok(*fs2, fs, vs) && !(fs2.stmt is Decl),
            None => true,
        }),
        Stmt::While(c, b) => gen_exp_ok(*c, fs, vs) && etv_of(*c) == Some(Type::Bool)
            && gen_stmt_ok(*b, fs, vs) && !(b.stmt is Decl),
        Stmt::EStmt(e) => gen_exp_ok(*e, fs, vs),
    }
}

pub open spec fn gen_stmts_ok(ss: Seq<Box<StmtNode>>, fs: Map<Seq<char>, Type>, vs: Set<Seq<char>>) -> bool
    decreases ss,
{
    if ss.len() == 0 {
        true
    } else {
        gen_stmt_ok(*ss.first(), fs, vs) && gen_stmts_ok(
            ss.drop_first(),
            fs,
            stmt_names(*ss.first(), vs),
        )
    }
}

/// The incremental SSA builder for one module.
#[derive(Debug)]
pub struct Backend {
    /// The module built so far.
    pub md: Module,
    /// Function name to its index in the module.
    pub fenv: Vec<(Ident, usize)>,
    /// Variable name to its current SSA value.
    pub venv: ScopedMap<Val>,
    /// Blocks of the function currently being lowered; a block's label is
    /// its position until pruning, which happens only when the function is
    /// finished.
    pub blocks: Vec<IrBlock>,
    /// Insertion cursor: instructions are appended to this block.
    pub curr_block: usize,
    /// Next fresh SSA register.
    pub next_reg: usize,
}

impl Backend {
    /// Builder well-formedness: the cursor points at a block, labels are
    /// positions, and every table entry points at a module function.
    pub open spec fn inv(&self) -> bool {
        &&& self.venv.wf()
        &&& self.curr_block < self.blocks@.len()
        &&& (forall|i: int|
            0 <= i < self.blocks@.len() ==> (#[trigger] self.blocks@[i]).label == i)
        &&& (forall|i: int|
            0 <= i < self.fenv@.len() ==> (#[trigger] self.fenv@[i]).1 < self.md.funcs@.len())
    }

    /// Return types the generator currently knows, by function name.
    pub open spec fn frets(&self) -> Map<Seq<char>, Type> {
        frets_of(self.fenv@, self.md.funcs@)
    }

    /// Names currently live in the value environment.
    pub open spec fn vnames(&self) -> Set<Seq<char>> {
        live_names(self.venv@)
    }

    pub fn new(mod_name: Ident) -> (r: Backend)
        ensures
            r.inv(),
            r.frets() =~= Map::<Seq<char>, Type>::empty(),
            r.md.funcs@.len() == 0,
            r.md.strings@.len() == 0,
    {
        let mut blocks: Vec<IrBlock> = Vec::new();
        blocks.push(IrBlock { label: 0, instrs: Vec::new() });
        Backend {
            md: Module { name: mod_name, funcs: Vec::new(), strings: Vec::new() },
            fenv: Vec::new(),
            venv: ScopedMap::new(),
            blocks,
            curr_block: 0,
            next_reg: 0,
        }
    }

    /// The next SSA register: the counter's current value, which then
    /// advances (and pins at its ceiling rather than wrapping).
    fn fresh_reg(&mut self) -> (r: usize)
        ensures
            r == old(self).next_reg,
            final(self).next_reg == next_reg_after(old(self).next_reg),
            *final(self) == (Backend { next_reg: final(self).next_reg, ..*old(self) }),
            st_of(*final(self)) == st_fresh(st_of(*old(self))),
    {
        let r = self.next_reg;
        self.next_reg = if r == usize::MAX {
            r
        } else {
            r + 1
        };
        r
    }

    /// Append an instruction at the cursor.
    fn emit(&mut self, ins: Instr)
        requires
            old(self).inv(),
        ensures
            self_eq_but_blocks(*old(self), *final(self)),
            final(self).blocks@.len() == old(self).blocks@.len(),
            forall|i: int|
                0 <= i < old(self).blocks@.len() && i != old(self).curr_block
                    ==> final(self).blocks@[i] == old(self).blocks@[i],
            final(self).blocks@[old(self).curr_block as int].label
                == old(self).blocks@[old(self).curr_block as int].label,
            final(self).blocks@[old(self).curr_block as int].instrs@
                == old(self).blocks@[old(self).curr_block as int].instrs@.push(ins),
            blocks_extend(old(self).blocks@, final(self).blocks@),
            final(self).curr_block == old(self).curr_block,
            final(self).next_reg == old(self).next_reg,
            st_of(*final(self)) == st_emit(st_of(*old(self)), ins@),
            final(self).inv(),
    {
        let ghost iv = ins@;
        let cb = self.curr_block;
        let mut tmp = IrBlock { label: 0, instrs: Vec::new() };
        self.blocks.set_and_swap(cb, &mut tmp);
        let IrBlock { label, mut instrs } = tmp;
        instrs.push(ins);
        self.blocks.set(cb, IrBlock { label, instrs });
        proof {
            let pre = st_of(*old(self));
            assert(st_of(*self).blocks[cb as int] =~= pre.blocks[cb as int].push(iv));
            assert(st_of(*self).blocks =~= pre.blocks.update(
                cb as int,
                pre.blocks[cb as int].push(iv),
            ));
            assert(st_of(*self) == st_emit(pre, iv));
            assert forall|i: int|
                0 <= i < old(self).blocks@.len() implies (#[trigger] self.blocks@[i]).label == old(
                self).blocks@[i].label && old(self).blocks@[i].instrs@.is_prefix_of(
                self.blocks@[i].instrs@) by {
                if i == cb {
                    assert(old(self).blocks@[i].instrs@ =~= self.blocks@[i].instrs@.subrange(
                        0, old(self).blocks@[i].instrs@.len() as int));
                } else {
                    assert(old(self).blocks@[i].instrs@ =~= self.blocks@[i].instrs@.subrange(
                        0, old(self).blocks@[i].instrs@.len() as int));
                }
            }
        }
    }

    /// Open a fresh block at the end of the current function.
    fn new_block(&mut self) -> (r: BlockId)
        requires
            old(self).inv(),
        ensures
            self_eq_but_blocks(*old(self), *final(self)),
            r == old(self).blocks@.len(),
            final(self).blocks@.len() == old(self).blocks@.len() + 1,
            forall|i: int|
                0 <= i < old(self).blocks@.len()
                    ==> final(self).blocks@[i] == old(self).blocks@[i],
            final(self).blocks@[r as int].instrs@.len() == 0,
            blocks_extend(old(self).blocks@, final(self).blocks@),
            final(self).curr_block == old(self).curr_block,
            final(self).next_reg == old(self).next_reg,
            st_of(*final(self)) == st_new_block(st_of(*old(self))),
            final(self).inv(),
    {
        let label = self.blocks.len();
        self.blocks.push(IrBlock { label, instrs: Vec::new() });
        proof {
            assert(st_of(*self).blocks[label as int] =~= Seq::<InstrView>::empty());
            assert(st_of(*self).blocks =~= st_of(*old(self)).blocks.push(Seq::empty()));
            assert(st_of(*self) == st_new_block(st_of(*old(self))));
            assert forall|i: int|
                0 <= i < old(self).blocks@.len() implies (#[trigger] self.blocks@[i]).label == old(
                self).blocks@[i].label && old(self).blocks@[i].instrs@.is_prefix_of(
                self.blocks@[i].instrs@) by {
                assert(old(self).blocks@[i].instrs@ =~= self.blocks@[i].instrs@.subrange(
                    0, old(self).blocks@[i].instrs@.len() as int));
            }
        }
        label
    }

    /// Move the insertion cursor.
    fn position_at(&mut self, b: BlockId)
        requires
            old(self).inv(),
            b < old(self).blocks@.len(),
        ensures
            *final(self) == (Backend { curr_block: b, ..*old(self) }),
            st_of(*final(self)) == st_pos(st_of(*old(self)), b),
            final(self).inv(),
    {
        self.curr_block = b;
    }

    /// Index of a string literal's global: an already-interned text is
    /// found again (the table does not grow), a new text is appended.
    fn intern_string(&mut self, s: &String) -> (r: usize)
        ensures
            self_eq_but_strings(*old(self), *final(self)),
            ({
                let pre = strings_view(old(self).md.strings@);
                match str_find(pre, s@) {
                    Some(j) => r == j && final(self).md.strings@ == old(self).md.strings@,
                    None => r == pre.len() && strings_view(final(self).md.strings@) =~= pre.push(
                        s@,
                    ),
                }
            }),
            r < final(self).md.strings@.len(),
            final(self).md.strings@[r as int]@ == s@,
            st_of(*final(self)) == st_intern(st_of(*old(self)), s@).0,
            r == st_intern(st_of(*old(self)), s@).1,
            old(self).inv() ==> final(self).inv(),
    {
        let ghost pre = strings_view(self.md.strings@);
        let mut i: usize = 0;
        proof {
            assert(pre.skip(0) =~= pre);
        }
        while i < self.md.strings.len()
            invariant
                0 <= i <= self.md.strings@.len(),
                *self == *old(self),
                pre == strings_view(self.md.strings@),
                ({
                    let rest = str_find(pre.skip(i as int), s@);
                    str_find(pre, s@) == match rest {
                        Some(j) => Some(i + j),
                        None => None,
                    }
                }),
            decreases self.md.strings@.len() - i,
        {
            proof {
                assert(pre.skip(i as int).first() == pre[i as int]);
                assert(pre.skip(i as int).drop_first() =~= pre.skip(i as int + 1));
            }
            if str_eq(&self.md.strings[i], s) {
                return i;
            }
            i += 1;
        }
        proof {
            assert(pre.skip(pre.len() as int) =~= Seq::<Seq<char>>::empty());
        }
        let r = self.md.strings.len();
        self.md.strings.push(s.clone());
        proof {
            assert(strings_view(self.md.strings@) =~= pre.push(s@));
            assert(st_of(*self) == st_intern(st_of(*old(self)), s@).0);
        }
        r
    }
}

/// Name of the fixed runtime helper that concatenates two strings.
pub open spec fn concat_helper_name() -> Seq<char> {
    "__latc_concat_str"@
}

/// The register counter after one allocation.
pub open spec fn next_reg_after(r: usize) -> usize {
    if r == usize::MAX {
        r
    } else {
        (r + 1) as usize
    }
}

/// Index of the first table entry with this name.
pub open spec fn fenv_find(fenv: Seq<(Ident, usize)>, name: Seq<char>) -> Option<usize>
    decreases fenv.len(),
{
    if fenv.len() == 0 {
        None
    } else if fenv.first().0@ == name {
        Some(fenv.first().1)
    } else {
        fenv_find(fenv.drop_first(), name)
    }
}

/// Index of the first interned string with this text.
pub open spec fn str_find(strings: Seq<Seq<char>>, s: Seq<char>) -> Option<int>
    decreases strings.len(),
{
    if strings.len() == 0 {
        None
    } else if strings.first() == s {
        Some(0)
    } else {
        match str_find(strings.drop_first(), s) {
            Some(j) => Some(1 + j),
            None => None,
        }
    }
}

/// Views of the module's interned string literals.
pub open spec fn strings_view(strings: Seq<String>) -> Seq<Seq<char>> {
    strings.map_values(|s: String| s@)
}

/// Return types of the module's functions, by index.
pub open spec fn rets_of(funcs: Seq<IrFunc>) -> Seq<Type> {
    funcs.map_values(|f: IrFunc| f.ret)
}

/// Spec-level image of an instruction: sequences in place of vectors, so
/// the lowering semantics below can construct instruction values.
pub enum InstrView {
    Bin(usize, BinaryOp, Val, Val),
    Neg(usize, Val),
    Not(usize, Val),
    Call(Option<usize>, usize, Seq<Val>),
    Phi(usize, Seq<(Val, BlockId)>),
    Br(BlockId),
    CondBr(Val, BlockId, BlockId),
    Ret(Option<Val>),
}

impl View for Instr {
    type V = InstrView;

    open spec fn view(&self) -> InstrView {
        match *self {
            Instr::Bin(r, op, a, b) => InstrView::Bin(r, op, a, b),
            Instr::Neg(r, a) => InstrView::Neg(r, a),
            Instr::Not(r, a) => InstrView::Not(r, a),
            Instr::Call(r, f, args) => InstrView::Call(r, f, args@),
            Instr::Phi(r, es) => InstrView::Phi(r, es@),
            Instr::Br(t) => InstrView::Br(t),
            Instr::CondBr(c, t, e) => InstrView::CondBr(c, t, e),
            Instr::Ret(v) => InstrView::Ret(v),
        }
    }
}

/// Spec-level image of the builder mid-function: the blocks under
/// construction (a block's label is its position until pruning), the
/// insertion cursor, the register counter, the interned string texts, and
/// the value environment.
pub struct LowerState {
    pub blocks: Seq<Seq<InstrView>>,
    pub cur: usize,
    pub reg: usize,
    pub strings: Seq<Seq<char>>,
    pub venv: Seq<Seq<(Ident, Val)>>,
}

pub open spec fn st_of(b: Backend) -> LowerState {
    LowerState {
        blocks: b.blocks@.map_values(|blk: IrBlock| blk.instrs@.map_values(|i: Instr| i@)),
        cur: b.curr_block,
        reg: b.next_reg,
        strings: strings_view(b.md.strings@),
        venv: b.venv@,
    }
}

/// Append an instruction at the cursor.
pub open spec fn st_emit(st: LowerState, i: InstrView) -> LowerState {
    LowerState { blocks: st.blocks.update(st.cur as int, st.blocks[st.cur as int].push(i)), ..st }
}

/// Open a fresh block; its id is the block count before.
pub open spec fn st_new_block(st: LowerState) -> LowerState {
    LowerState { blocks: st.blocks.push(Seq::empty()), ..st }
}

/// Move the cursor.
pub open spec fn st_pos(st: LowerState, b: usize) -> LowerState {
    LowerState { cur: b, ..st }
}

/// Allocate the register `st.reg`.
pub open spec fn st_fresh(st: LowerState) -> LowerState {
    LowerState { reg: next_reg_after(st.reg), ..st }
}

/// Overwrite one already-emitted instruction.
pub open spec fn st_set_instr(st: LowerState, b: usize, j: int, i: InstrView) -> LowerState {
    LowerState { blocks: st.blocks.update(b as int, st.blocks[b as int].update(j, i)), ..st }
}

/// Intern a string text, deduplicated by content.
pub open spec fn st_intern(st: LowerState, s: Seq<char>) -> (LowerState, usize) {
    match str_find(st.strings, s) {
        Some(j) => (st, j as usize),
        None => (LowerState { strings: st.strings.push(s), ..st }, st.strings.len() as usize),
    }
}

/// Bind a name in the innermost scope (opening one if none is open).
pub open spec fn venv_bind(vs: Seq<Seq<(Ident, Val)>>, name: Ident, v: Val) -> Seq<
    Seq<(Ident, Val)>,
> {
    let base = if vs.len() == 0 {
        vs.push(Seq::empty())
    } else {
        vs
    };
    base.update(base.len() - 1, scope_insert(base.last(), name, v).0)
}

/// Bind a name in the innermost scope (opening one if none is open).
pub open spec fn st_bind(st: LowerState, name: Ident, v: Val) -> LowerState {
    LowerState { venv: venv_bind(st.venv, name, v), ..st }
}

/// Rebind a name in whichever open scope owns it.
pub open spec fn st_rebind(st: LowerState, name: Seq<char>, v: Val) -> LowerState {
    LowerState { venv: replace_in(st.venv, name, v).0, ..st }
}

/// The value an expression lowers to and the instructions that lowering
/// emits, mirrored exactly: this is what `compile_exp` must do.
pub open spec fn lower_exp(
    st: LowerState,
    e: ExpNode,
    fenv: Seq<(Ident, usize)>,
    rets: Seq<Type>,
) -> (LowerState, Option<Val>)
    decreases e, 1int,
{
    match e.exp {
        Exp::Call(id, args) => match fenv_find(fenv, id@) {
            None => (st, None),
            Some(fi) => {
                let (st1, vals) = lower_args(st, args@, fenv, rets);
                if rets[fi as int] == Type::Void {
                    (st_emit(st1, InstrView::Call(None, fi, vals)), None)
                } else {
                    let r = st1.reg;
                    let st2 = st_fresh(st1);
                    (st_emit(st2, InstrView::Call(Some(r), fi, vals)), Some(Val::Reg(r)))
                }
            },
        },
        Exp::Var(x) => match lookup(st.venv, x@) {
            Some(v) => (st, Some(v)),
            None => (st, None),
        },
        Exp::Int(v) => (st, Some(Val::ConstInt(v))),
        Exp::Bool(v) => (st, Some(Val::ConstBool(v))),
        Exp::Str(s) => {
            let r = st_intern(st, s@);
            (r.0, Some(Val::StrPtr(r.1)))
        },
        Exp::Unary(op, inner) => {
            let (st1, v) = lower_exp(st, *inner, fenv, rets);
            let r = st1.reg;
            let st2 = st_fresh(st1);
            match op {
                UnaryOp::Neg => (st_emit(st2, InstrView::Neg(r, v.unwrap())), Some(Val::Reg(r))),
                UnaryOp::Not => (st_emit(st2, InstrView::Not(r, v.unwrap())), Some(Val::Reg(r))),
            }
        },
        Exp::Binary(l, op, r) => {
            let rr = lower_bin(st, e, fenv, rets);
            (rr.0, Some(rr.1))
        },
    }
}

/// A call's arguments lower left to right.
pub open spec fn lower_args(
    st: LowerState,
    args: Seq<Box<ExpNode>>,
    fenv: Seq<(Ident, usize)>,
    rets: Seq<Type>,
) -> (LowerState, Seq<Val>)
    decreases args, 0int,
{
    if args.len() == 0 {
        (st, Seq::empty())
    } else {
        let (st1, v) = lower_exp(st, *args.first(), fenv, rets);
        let (st2, rest) = lower_args(st1, args.drop_first(), fenv, rets);
        (st2, seq![v.unwrap()] + rest)
    }
}

/// A binary expression lowers to a concatenation call for strings, to a
/// branch-and-phi pattern for the lazy boolean operators, and to a single
/// instruction otherwise; `e` is the binary node itself.
pub open spec fn lower_bin(
    st: LowerState,
    e: ExpNode,
    fenv: Seq<(Ident, usize)>,
    rets: Seq<Type>,
) -> (LowerState, Val)
    decreases e, 0int,
{
    match e.exp {
        Exp::Binary(l, op, r) => {
            let concat = op == BinaryOp::Add && (l.typeval matches Some(ExpTypeVal::Str(_)))
                && (r.typeval matches Some(ExpTypeVal::Str(_)));
            if concat {
                let (st1, lv) = lower_exp(st, *l, fenv, rets);
                let (st2, rv) = lower_exp(st1, *r, fenv, rets);
                match fenv_find(fenv, concat_helper_name()) {
                    None => (st2, Val::ConstInt(0)),
                    Some(fi) => {
                        let rg = st2.reg;
                        let st3 = st_fresh(st2);
                        (
                            st_emit(
                                st3,
                                InstrView::Call(Some(rg), fi, seq![lv.unwrap(), rv.unwrap()]),
                            ),
                            Val::Reg(rg),
                        )
                    },
                }
            } else if op == BinaryOp::Or {
                let lhs_false = st.blocks.len() as usize;
                let st1 = st_new_block(st);
                let done = st1.blocks.len() as usize;
                let st2 = st_new_block(st1);
                let (st3, lv) = lower_exp(st2, *l, fenv, rets);
                let lhs_end = st3.cur;
                let st4 = st_emit(st3, InstrView::CondBr(lv.unwrap(), done, lhs_false));
                let st5 = st_pos(st4, lhs_false);
                let (st6, rv) = lower_exp(st5, *r, fenv, rets);
                let rhs_end = st6.cur;
                let st7 = st_emit(st6, InstrView::Br(done));
                let st8 = st_pos(st7, done);
                let rg = st8.reg;
                let st9 = st_fresh(st8);
                (
                    st_emit(
                        st9,
                        InstrView::Phi(
                            rg,
                            seq![(Val::ConstBool(true), lhs_end), (rv.unwrap(), rhs_end)],
                        ),
                    ),
                    Val::Reg(rg),
                )
            } else if op == BinaryOp::And {
                let lhs_true = st.blocks.len() as usize;
                let st1 = st_new_block(st);
                let done = st1.blocks.len() as usize;
                let st2 = st_new_block(st1);
                let (st3, lv) = lower_exp(st2, *l, fenv, rets);
                let lhs_end = st3.cur;
                let st4 = st_emit(st3, InstrView::CondBr(lv.unwrap(), lhs_true, done));
                let st5 = st_pos(st4, lhs_true);
                let (st6, rv) = lower_exp(st5, *r, fenv, rets);
                let rhs_end = st6.cur;
                let st7 = st_emit(st6, InstrView::Br(done));
                let st8 = st_pos(st7, done);
                let rg = st8.reg;
                let st9 = st_fresh(st8);
                (
                    st_emit(
                        st9,
                        InstrView::Phi(
                            rg,
                            seq![(Val::ConstBool(false), lhs_end), (rv.unwrap(), rhs_end)],
                        ),
                    ),
                    Val::Reg(rg),
                )
            } else {
                let (st1, lv) = lower_exp(st, *l, fenv, rets);
                let (st2, rv) = lower_exp(st1, *r, fenv, rets);
                let rg = st2.reg;
                let st3 = st_fresh(st2);
                (st_emit(st3, InstrView::Bin(rg, op, lv.unwrap(), rv.unwrap())), Val::Reg(rg))
            }
        },
        _ => (st, Val::ConstInt(0)),
    }
}

/// Lowering only ever appends: every block that existed keeps its label
/// and its instructions, and may have gained instructions after them.
pub open spec fn blocks_extend(a: Seq<IrBlock>, b: Seq<IrBlock>) -> bool {
    b.len() >= a.len() && forall|i: int|
        0 <= i < a.len() ==> (#[trigger] b[i]).label == a[i].label && a[i].instrs@.is_prefix_of(
            b[i].instrs@,
        )
}

pub proof fn lemma_blocks_extend_trans(a: Seq<IrBlock>, b: Seq<IrBlock>, c: Seq<IrBlock>)
    requires
        blocks_extend(a, b),
        blocks_extend(b, c),
    ensures
        blocks_extend(a, c),
{
    assert forall|i: int|
        0 <= i < a.len() implies (#[trigger] c[i]).label == a[i].label
        && a[i].instrs@.is_prefix_of(c[i].instrs@) by {
        assert(b[i].label == a[i].label && a[i].instrs@.is_prefix_of(b[i].instrs@));
        assert(c[i].label == b[i].label && b[i].instrs@.is_prefix_of(c[i].instrs@));
        assert(a[i].instrs@ =~= c[i].instrs@.subrange(0, a[i].instrs@.len() as int));
    }
}

pub proof fn lemma_blocks_extend_refl(a: Seq<IrBlock>)
    ensures
        blocks_extend(a, a),
{
    assert forall|i: int|
        0 <= i < a.len() implies (#[trigger] a[i]).label == a[i].label && a[i].instrs@.is_prefix_of(
        a[i].instrs@) by {
        assert(a[i].instrs@ =~= a[i].instrs@.subrange(0, a[i].instrs@.len() as int));
    }
}

impl Backend {
    /// Index of the declared function with this name.
    fn find_fn(&self, name: &Ident) -> (r: Option<usize>)
        requires
            self.inv(),
        ensures
            r == fenv_find(self.fenv@, name@),
            r is Some <==> self.frets().contains_key(name@),
            match r {
                Some(ix) => ix < self.md.funcs@.len() && self.md.funcs@[ix as int].ret
                    == self.frets()[name@],
                None => true,
            },
    {
        let mut i: usize = 0;
        proof {
            assert(self.fenv@.skip(0) =~= self.fenv@);
        }
        while i < self.fenv.len()
            invariant
                0 <= i <= self.fenv@.len(),
                self.inv(),
                fenv_find(self.fenv@, name@) == fenv_find(self.fenv@.skip(i as int), name@),
                ({
                    let whole = frets_of(self.fenv@, self.md.funcs@);
                    let rest = frets_of(self.fenv@.skip(i as int), self.md.funcs@);
                    whole.contains_key(name@) == rest.contains_key(name@) && (
                    rest.contains_key(name@) ==> whole[name@] == rest[name@])
                }),
            decreases self.fenv@.len() - i,
        {
            proof {
                assert(self.fenv@.skip(i as int).first() == self.fenv@[i as int]);
                assert(self.fenv@.skip(i as int).drop_first() =~= self.fenv@.skip(i as int + 1));
            }
            if str_eq(&self.fenv[i].0, name) {
                let ix = self.fenv[i].1;
                return Some(ix);
            }
            i += 1;
        }
        proof {
            assert(self.fenv@.skip(self.fenv@.len() as int)
                =~= Seq::<(Ident, usize)>::empty());
        }
        None
    }

    /// Lower one expression at the cursor and hand back its SSA value (a
    /// call of a void function yields none).  The value environment is
    /// read, never changed; the cursor may move through short-circuit
    /// blocks.
    fn compile_exp(&mut self, node: &ExpNode) -> (r: Option<Val>)
        requires
            old(self).inv(),
            gen_exp_ok(*node, old(self).frets(), old(self).vnames()),
            old(self).frets().contains_key(concat_helper_name()),
        ensures
            final(self).inv(),
            final(self).venv == old(self).venv,
            final(self).fenv == old(self).fenv,
            final(self).md.funcs == old(self).md.funcs,
            final(self).frets() == old(self).frets(),
            final(self).blocks@.len() >= old(self).blocks@.len(),
            blocks_extend(old(self).blocks@, final(self).blocks@),
            etv_of(*node) != Some(Type::Void) ==> r is Some,
            ({
                let rr = lower_exp(
                    st_of(*old(self)),
                    *node,
                    old(self).fenv@,
                    rets_of(old(self).md.funcs@),
                );
                st_of(*final(self)) == rr.0 && r == rr.1
            }),
        decreases *node, 1int,
    {
        match &node.exp {
            Exp::Call(ident, args) => {
                let fi = match self.find_fn(ident) {
                    Some(i) => i,
                    None => unreached(),
                };
                let ret_void = {
                    let rt = self.md.funcs[fi].ret;
                    rt == Type::Void
                };
                proof {
                    assert(rets_of(old(self).md.funcs@)[fi as int] == old(
                        self,
                    ).md.funcs@[fi as int].ret);
                    assert(args@.skip(0) =~= args@);
                }
                let mut argv: Vec<Val> = Vec::new();
                let mut i: usize = 0;
                while i < args.len()
                    invariant
                        0 <= i <= args@.len(),
                        self.inv(),
                        self.venv == old(self).venv,
                        self.fenv == old(self).fenv,
                        self.md.funcs == old(self).md.funcs,
                        self.blocks@.len() >= old(self).blocks@.len(),
                        blocks_extend(old(self).blocks@, self.blocks@),
                        gen_exp_ok(*node, old(self).frets(), old(self).vnames()),
                        node.exp == Exp::Call(*ident, *args),
                        old(self).frets().contains_key(concat_helper_name()),
                        ({
                            let full = lower_args(
                                st_of(*old(self)),
                                args@,
                                old(self).fenv@,
                                rets_of(old(self).md.funcs@),
                            );
                            let rem = lower_args(
                                st_of(*self),
                                args@.skip(i as int),
                                old(self).fenv@,
                                rets_of(old(self).md.funcs@),
                            );
                            full.0 == rem.0 && full.1 == argv@ + rem.1
                        }),
                    decreases args@.len() - i,
                {
                    proof {
                        assert(gen_exp_ok(*args@[i as int], old(self).frets(), old(
                            self,
                        ).vnames()));
                        assert(args@.skip(i as int).first() == args@[i as int]);
                        assert(args@.skip(i as int).drop_first() =~= args@.skip(i as int + 1));
                    }
                    let ghost argv0 = argv@;
                    let v = match self.compile_exp(&args[i]) {
                        Some(v) => v,
                        None => unreached(),
                    };
                    argv.push(v);
                    proof {
                        assert(argv0 + (seq![v] + lower_args(
                            st_of(*self),
                            args@.skip(i as int + 1),
                            old(self).fenv@,
                            rets_of(old(self).md.funcs@),
                        ).1) =~= argv@ + lower_args(
                            st_of(*self),
                            args@.skip(i as int + 1),
                            old(self).fenv@,
                            rets_of(old(self).md.funcs@),
                        ).1);
                    }
                    i += 1;
                }
                proof {
                    assert(args@.skip(args@.len() as int) =~= Seq::<Box<ExpNode>>::empty());
                    assert(lower_args(
                        st_of(*old(self)),
                        args@,
                        old(self).fenv@,
                        rets_of(old(self).md.funcs@),
                    ).1 =~= argv@);
                }
                if ret_void {
                    self.emit(Instr::Call(None, fi, argv));
                    None
                } else {
                    let reg = self.fresh_reg();
                    self.emit(Instr::Call(Some(reg), fi, argv));
                    Some(Val::Reg(reg))
                }
            },
            Exp::Var(ident) => {
                proof {
                    assert(self.vnames().contains(ident@));
                }
                let v = match self.venv.get(ident) {
                    Some(v) => *v,
                    None => unreached(),
                };
                Some(v)
            },
            Exp::Int(v) => Some(Val::ConstInt(*v)),
            Exp::Bool(v) => Some(Val::ConstBool(*v)),
            Exp::Str(s) => {
                let ix = self.intern_string(s);
                Some(Val::StrPtr(ix))
            },
            Exp::Unary(op, inner) => {
                proof {
                    assert(decreases_to!(*node => node.exp));
                }
                let val = match self.compile_exp(inner) {
                    Some(v) => v,
                    None => unreached(),
                };
                let reg = self.fresh_reg();
                match op {
                    UnaryOp::Neg => self.emit(Instr::Neg(reg, val)),
                    UnaryOp::Not => self.emit(Instr::Not(reg, val)),
                }
                Some(Val::Reg(reg))
            },
            Exp::Binary(lexp, op, rexp) => Some(
                self.compile_bin_exp(Ghost(*node), op, lexp, rexp),
            ),
        }
    }

    /// Lower one binary expression.  String concatenation becomes a call
    /// to the fixed runtime helper; `&&` and `||` are evaluated lazily
    /// through a branch and a phi at the local merge block; everything
    /// else is a single instruction on both lowered operands.
    #[verifier::rlimit(100)]
    fn compile_bin_exp(
        &mut self,
        parent: Ghost<ExpNode>,
        op: &BinaryOp,
        lexp: &ExpNode,
        rexp: &ExpNode,
    ) -> (r: Val)
        requires
            old(self).inv(),
            decreases_to!(parent@ => *lexp),
            decreases_to!(parent@ => *rexp),
            (parent@.exp matches Exp::Binary(l0, o0, r0) && *l0 == *lexp && o0 == *op && *r0
                == *rexp),
            gen_exp_ok(*lexp, old(self).frets(), old(self).vnames()),
            gen_exp_ok(*rexp, old(self).frets(), old(self).vnames()),
            etv_of(*lexp) != Some(Type::Void),
            etv_of(*rexp) != Some(Type::Void),
            old(self).frets().contains_key(concat_helper_name()),
        ensures
            final(self).inv(),
            final(self).venv == old(self).venv,
            final(self).fenv == old(self).fenv,
            final(self).md.funcs == old(self).md.funcs,
            final(self).frets() == old(self).frets(),
            final(self).blocks@.len() >= old(self).blocks@.len(),
            blocks_extend(old(self).blocks@, final(self).blocks@),
            ({
                let rr = lower_bin(
                    st_of(*old(self)),
                    parent@,
                    old(self).fenv@,
                    rets_of(old(self).md.funcs@),
                );
                st_of(*final(self)) == rr.0 && r == rr.1
            }),
        decreases parent@, 0int,
    {
        let is_concat = match (op, &lexp.typeval, &rexp.typeval) {
            (BinaryOp::Add, Some(ExpTypeVal::Str(_)), Some(ExpTypeVal::Str(_))) => true,
            _ => false,
        };
        proof {
            let e = parent@;
            assert(e.exp matches Exp::Binary(l0, o0, r0) ==> is_concat == (o0 == BinaryOp::Add && (
            l0.typeval matches Some(ExpTypeVal::Str(_))) && (r0.typeval matches Some(
                ExpTypeVal::Str(_),
            ))));
        }
        if is_concat {
            let lval = match self.compile_exp(lexp) {
                Some(v) => v,
                None => unreached(),
            };
            let rval = match self.compile_exp(rexp) {
                Some(v) => v,
                None => unreached(),
            };
            let helper = String::from_str("__latc_concat_str");
            let fi = match self.find_fn(&helper) {
                Some(i) => i,
                None => unreached(),
            };
            let mut argv: Vec<Val> = Vec::new();
            argv.push(lval);
            argv.push(rval);
            proof {
                assert(argv@ =~= seq![lval, rval]);
            }
            let reg = self.fresh_reg();
            self.emit(Instr::Call(Some(reg), fi, argv));
            proof {
                assert(st_of(*self) == lower_bin(
                    st_of(*old(self)),
                    parent@,
                    old(self).fenv@,
                    rets_of(old(self).md.funcs@),
                ).0);
            }
            Val::Reg(reg)
        } else {
            match op {
                BinaryOp::Or => {
                    let lhs_false_bb = self.new_block();
                    let done_bb = self.new_block();
                    let lval = match self.compile_exp(lexp) {
                        Some(v) => v,
                        None => unreached(),
                    };
                    let lhs_end = self.curr_block;
                    self.emit(Instr::CondBr(lval, done_bb, lhs_false_bb));
                    self.position_at(lhs_false_bb);
                    let rval = match self.compile_exp(rexp) {
                        Some(v) => v,
                        None => unreached(),
                    };
                    let rhs_end = self.curr_block;
                    self.emit(Instr::Br(done_bb));
                    self.position_at(done_bb);
                    let reg = self.fresh_reg();
                    let mut entries: Vec<(Val, BlockId)> = Vec::new();
                    entries.push((Val::ConstBool(true), lhs_end));
                    entries.push((rval, rhs_end));
                    proof {
                        assert(entries@ =~= seq![(Val::ConstBool(true), lhs_end), (rval, rhs_end)]);
                    }
                    self.emit(Instr::Phi(reg, entries));
                    proof {
                        assert(st_of(*self) == lower_bin(
                            st_of(*old(self)),
                            parent@,
                            old(self).fenv@,
                            rets_of(old(self).md.funcs@),
                        ).0);
                    }
                    Val::Reg(reg)
                },
                BinaryOp::And => {
                    let lhs_true_bb = self.new_block();
                    let done_bb = self.new_block();
                    let lval = match self.compile_exp(lexp) {
                        Some(v) => v,
                        None => unreached(),
                    };
                    let lhs_end = self.curr_block;
                    self.emit(Instr::CondBr(lval, lhs_true_bb, done_bb));
                    self.position_at(lhs_true_bb);
                    let rval = match self.compile_exp(rexp) {
                        Some(v) => v,
                        None => unreached(),
                    };
                    let rhs_end = self.curr_block;
                    self.emit(Instr::Br(done_bb));
                    self.position_at(done_bb);
                    let reg = self.fresh_reg();
                    let mut entries: Vec<(Val, BlockId)> = Vec::new();
                    entries.push((Val::ConstBool(false), lhs_end));
                    entries.push((rval, rhs_end));
                    proof {
                        assert(entries@ =~= seq![
                            (Val::ConstBool(false), lhs_end),
                            (rval, rhs_end),
                        ]);
                    }
                    self.emit(Instr::Phi(reg, entries));
                    proof {
                        assert(st_of(*self) == lower_bin(
                            st_of(*old(self)),
                            parent@,
                            old(self).fenv@,
                            rets_of(old(self).md.funcs@),
                        ).0);
                    }
                    Val::Reg(reg)
                },
                _ => {
                    let lval = match self.compile_exp(lexp) {
                        Some(v) => v,
                        None => unreached(),
                    };
                    let rval = match self.compile_exp(rexp) {
                        Some(v) => v,
                        None => unreached(),
                    };
                    let reg = self.fresh_reg();
                    self.emit(Instr::Bin(reg, *op, lval, rval));
                    proof {
                        assert(st_of(*self) == lower_bin(
                            st_of(*old(self)),
                            parent@,
                            old(self).fenv@,
                            rets_of(old(self).md.funcs@),
                        ).0);
                    }
                    Val::Reg(reg)
                },
            }
        }
    }
}

/// Names live after a run of statements.
pub open spec fn stmts_names(ss: Seq<Box<StmtNode>>, vs: Set<Seq<char>>) -> Set<Seq<char>>
    decreases ss.len(),
{
    if ss.len() == 0 {
        vs
    } else {
        stmts_names(ss.drop_first(), stmt_names(*ss.first(), vs))
    }
}

/// One declaration group lowers each initializer (or the type's default
/// value if absent) and binds the variable in the innermost scope.
pub open spec fn lower_decl_vars(
    st: LowerState,
    t: Type,
    vars: Seq<DeclBody>,
    fenv: Seq<(Ident, usize)>,
    rets: Seq<Type>,
) -> LowerState
    decreases vars.len(),
{
    if vars.len() == 0 {
        st
    } else {
        let var = vars.first();
        let step = match var.init {
            Some(e) => {
                let rr = lower_exp(st, *e, fenv, rets);
                (rr.0, rr.1.unwrap())
            },
            None => match t {
                Type::Int => (st, Val::ConstInt(0)),
                Type::Bool => (st, Val::ConstBool(false)),
                Type::Str => {
                    let rr = st_intern(st, Seq::empty());
                    (rr.0, Val::StrPtr(rr.1))
                },
                Type::Void => (st, Val::ConstInt(0)),
            },
        };
        lower_decl_vars(st_bind(step.0, var.ident, step.1), t, vars.drop_first(), fenv, rets)
    }
}

/// What lowering one statement does to the builder: the instructions
/// emitted, the cursor and register motion, and the value environment
/// after.  This is the defining semantics `compile_stmt` must implement.
pub open spec fn lower_stmt(
    st: LowerState,
    s: StmtNode,
    fenv: Seq<(Ident, usize)>,
    rets: Seq<Type>,
) -> LowerState
    decreases s, 1int,
{
    match s.stmt {
        Stmt::BStmt(ss) => {
            let st1 = LowerState { venv: st.venv.push(Seq::empty()), ..st };
            let st2 = lower_stmts(st1, ss@, fenv, rets);
            LowerState { venv: st2.venv.drop_last(), ..st2 }
        },
        Stmt::Decl(d) => lower_decl_vars(st, d.type_spec.ttype, d.vars@, fenv, rets),
        Stmt::Ass(x, e) => {
            let rr = lower_exp(st, *e, fenv, rets);
            st_rebind(rr.0, x@, rr.1.unwrap())
        },
        Stmt::Incr(x) => {
            let v = lookup(st.venv, x@).unwrap();
            let rg = st.reg;
            let st1 = st_fresh(st);
            let st2 = st_emit(st1, InstrView::Bin(rg, BinaryOp::Add, v, Val::ConstInt(1)));
            st_rebind(st2, x@, Val::Reg(rg))
        },
        Stmt::Decr(x) => {
            let v = lookup(st.venv, x@).unwrap();
            let rg = st.reg;
            let st1 = st_fresh(st);
            let st2 = st_emit(st1, InstrView::Bin(rg, BinaryOp::Sub, v, Val::ConstInt(1)));
            st_rebind(st2, x@, Val::Reg(rg))
        },
        Stmt::EStmt(e) => lower_exp(st, *e, fenv, rets).0,
        Stmt::Ret(e) => {
            let rr = lower_exp(st, *e, fenv, rets);
            st_emit(rr.0, InstrView::Ret(Some(rr.1.unwrap())))
        },
        Stmt::VRet => st_emit(st, InstrView::Ret(None)),
        Stmt::Cond(c, t, f) => match c.typeval {
            Some(ExpTypeVal::Bool(Some(true))) => lower_stmt(st, *t, fenv, rets),
            Some(ExpTypeVal::Bool(Some(false))) => match f {
                Some(fs) => lower_stmt(st, *fs, fenv, rets),
                None => st,
            },
            Some(ExpTypeVal::Bool(None)) => lower_cond(st, s, fenv, rets),
            _ => st,
        },
        Stmt::While(c, b) => lower_while(st, s, fenv, rets),
    }
}

/// A block's statements lower in order.
pub open spec fn lower_stmts(
    st: LowerState,
    ss: Seq<Box<StmtNode>>,
    fenv: Seq<(Ident, usize)>,
    rets: Seq<Type>,
) -> LowerState
    decreases ss, 0int,
{
    if ss.len() == 0 {
        st
    } else {
        lower_stmts(lower_stmt(st, *ss.first(), fenv, rets), ss.drop_first(), fenv, rets)
    }
}

/// A conditional with a statically unknown condition (`s` is the node):
/// branch on the condition, lower the then arm, roll the environment back
/// and lower the else arm, then merge every live variable at the
/// continuation block.
pub open spec fn lower_cond(
    st: LowerState,
    s: StmtNode,
    fenv: Seq<(Ident, usize)>,
    rets: Seq<Type>,
) -> LowerState
    decreases s, 0int,
{
    match s.stmt {
        Stmt::Cond(c, t, f) => {
            let wr = s.will_return.unwrap();
            let pred_block = st.cur;
            let then_bb = st.blocks.len() as usize;
            let st1 = st_new_block(st);
            let cont_bb = st1.blocks.len() as usize;
            let st2 = st_new_block(st1);
            let else_bb = st2.blocks.len() as usize;
            let st3 = st_new_block(st2);
            let then_ret = wr || t.will_return.unwrap();
            let else_ret = match f {
                None => false,
                Some(fs) => wr || fs.will_return.unwrap(),
            };
            let pred_venv = st3.venv;
            let rr = lower_exp(st3, *c, fenv, rets);
            let st5 = st_emit(
                rr.0,
                InstrView::CondBr(
                    rr.1.unwrap(),
                    then_bb,
                    if f is Some {
                        else_bb
                    } else {
                        cont_bb
                    },
                ),
            );
            let st6 = st_pos(st5, then_bb);
            let st7 = lower_stmt(st6, *t, fenv, rets);
            let st8 = if !then_ret {
                st_emit(st7, InstrView::Br(cont_bb))
            } else {
                st7
            };
            let then_venv = st8.venv;
            let after_else = match f {
                Some(fs) => {
                    let sta = st_pos(LowerState { venv: pred_venv, ..st8 }, else_bb);
                    let stb = lower_stmt(sta, *fs, fenv, rets);
                    let stc = if !else_ret {
                        st_emit(stb, InstrView::Br(cont_bb))
                    } else {
                        stb
                    };
                    (stc, Some(stc.venv))
                },
                None => (st8, None),
            };
            if !wr {
                let st10 = st_pos(after_else.0, cont_bb);
                lower_phi_merge(
                    st10,
                    ordered_keys(pred_venv),
                    pred_venv,
                    then_venv,
                    after_else.1,
                    pred_block,
                    then_bb,
                    else_bb,
                    then_ret,
                    else_ret,
                )
            } else {
                after_else.0
            }
        },
        _ => st,
    }
}

/// At a continuation block, each live variable receives the values of the
/// fall-through predecessors: the pre-branch value when there is no else
/// arm, the then arm's value when it falls through, the else arm's value
/// when it exists and falls through.  One incoming value rebinds
/// directly; several meet in a phi node.
pub open spec fn lower_phi_merge(
    st: LowerState,
    names: Seq<Seq<char>>,
    pred_venv: Seq<Seq<(Ident, Val)>>,
    then_venv: Seq<Seq<(Ident, Val)>>,
    else_venv: Option<Seq<Seq<(Ident, Val)>>>,
    pred_block: usize,
    then_bb: usize,
    else_bb: usize,
    then_ret: bool,
    else_ret: bool,
) -> LowerState
    decreases names.len(),
{
    if names.len() == 0 {
        st
    } else {
        let k = names.first();
        let e1: Seq<(Val, BlockId)> = if else_venv is None {
            seq![(lookup(pred_venv, k).unwrap(), pred_block)]
        } else {
            Seq::empty()
        };
        let e2: Seq<(Val, BlockId)> = if !then_ret {
            seq![(lookup(then_venv, k).unwrap(), then_bb)]
        } else {
            Seq::empty()
        };
        let e3: Seq<(Val, BlockId)> = if else_venv is Some && !else_ret {
            seq![(lookup(else_venv.unwrap(), k).unwrap(), else_bb)]
        } else {
            Seq::empty()
        };
        let entries = e1 + e2 + e3;
        let st1 = if entries.len() == 1 {
            st_rebind(st, k, entries[0].0)
        } else if entries.len() > 1 {
            let rg = st.reg;
            let sta = st_fresh(st);
            let stb = st_emit(sta, InstrView::Phi(rg, entries));
            st_rebind(stb, k, Val::Reg(rg))
        } else {
            st
        };
        lower_phi_merge(
            st1,
            names.drop_first(),
            pred_venv,
            then_venv,
            else_venv,
            pred_block,
            then_bb,
            else_bb,
            then_ret,
            else_ret,
        )
    }
}

/// A loop (`s` is the node): branch to a condition block; if the body can
/// fall through, give every live variable a placeholder phi there, lower
/// the condition and the body, then patch each phi with its two incoming
/// values (pre-loop from above, body's end around the back edge).
pub open spec fn lower_while(
    st: LowerState,
    s: StmtNode,
    fenv: Seq<(Ident, usize)>,
    rets: Seq<Type>,
) -> LowerState
    decreases s, 0int,
{
    match s.stmt {
        Stmt::While(c, b) => {
            let pred_block = st.cur;
            let pred_venv = st.venv;
            let body_ret = b.will_return.unwrap();
            let cond_bb = st.blocks.len() as usize;
            let st1 = st_new_block(st);
            let body_bb = st1.blocks.len() as usize;
            let st2 = st_new_block(st1);
            let cont_bb = st2.blocks.len() as usize;
            let st3 = st_new_block(st2);
            let st4 = st_emit(st3, InstrView::Br(cond_bb));
            let st5 = st_pos(st4, cond_bb);
            let names = ordered_keys(pred_venv);
            let phis = if !body_ret {
                lower_loop_phis(st5, names)
            } else {
                (st5, Seq::empty())
            };
            let rr = lower_exp(phis.0, *c, fenv, rets);
            let st8 = st_emit(rr.0, InstrView::CondBr(rr.1.unwrap(), body_bb, cont_bb));
            let st9 = st_pos(st8, body_bb);
            let st10 = lower_stmt(st9, *b, fenv, rets);
            if !body_ret {
                let st11 = st_emit(st10, InstrView::Br(cond_bb));
                let st12 = lower_loop_patch(
                    st11,
                    names,
                    phis.1,
                    pred_venv,
                    pred_block,
                    body_bb,
                    cond_bb,
                    0,
                );
                st_pos(st12, cont_bb)
            } else {
                st10
            }
        },
        _ => st,
    }
}

/// Placeholder phis, one per live variable, each immediately bound as the
/// variable's value around the loop.
pub open spec fn lower_loop_phis(st: LowerState, names: Seq<Seq<char>>) -> (LowerState, Seq<usize>)
    decreases names.len(),
{
    if names.len() == 0 {
        (st, Seq::empty())
    } else {
        let rg = st.reg;
        let st1 = st_fresh(st);
        let st2 = st_emit(st1, InstrView::Phi(rg, Seq::empty()));
        let st3 = st_rebind(st2, names.first(), Val::Reg(rg));
        let rest = lower_loop_phis(st3, names.drop_first());
        (rest.0, seq![rg] + rest.1)
    }
}

/// Patch the `j`-th placeholder onward: the phi at position `j` of the
/// condition block receives the pre-loop value from the block before the
/// loop and the body's end value from the body block.
pub open spec fn lower_loop_patch(
    st: LowerState,
    names: Seq<Seq<char>>,
    regs: Seq<usize>,
    pred_venv: Seq<Seq<(Ident, Val)>>,
    pred_block: usize,
    body_bb: usize,
    cond_bb: usize,
    j: int,
) -> LowerState
    decreases names.len() - j,
{
    if j < 0 || j >= names.len() {
        st
    } else {
        let k = names[j];
        let pv = lookup(pred_venv, k).unwrap();
        let bv = lookup(st.venv, k).unwrap();
        let st1 = st_set_instr(
            st,
            cond_bb,
            j,
            InstrView::Phi(regs[j], seq![(pv, pred_block), (bv, body_bb)]),
        );
        let st2 = st_rebind(st1, k, Val::Reg(regs[j]));
        lower_loop_patch(st2, names, regs, pred_venv, pred_block, body_bb, cond_bb, j + 1)
    }
}

/// The environment of a function entry: each parameter group's first
/// declared name bound to its argument value, in order, in one scope.
pub open spec fn bind_params(params: Seq<VarDecl>, i: int, vs: Seq<Seq<(Ident, Val)>>) -> Seq<
    Seq<(Ident, Val)>,
>
    decreases params.len() - i,
{
    if i < 0 || i >= params.len() {
        vs
    } else {
        bind_params(
            params,
            i + 1,
            venv_bind(vs, params[i].vars@[0].ident, Val::Arg(i as usize)),
        )
    }
}

/// Labels and instruction views of stored blocks.
pub open spec fn labeled_views(bs: Seq<IrBlock>) -> Seq<(int, Seq<InstrView>)> {
    bs.map_values(|b: IrBlock| (b.label as int, b.instrs@.map_values(|i: Instr| i@)))
}

/// Pruning at the spec level: keep each nonempty block with its position
/// as its label.
pub open spec fn pruned_view(blocks: Seq<Seq<InstrView>>) -> Seq<(int, Seq<InstrView>)>
    decreases blocks.len(),
{
    if blocks.len() == 0 {
        Seq::empty()
    } else {
        let rest = pruned_view(blocks.drop_last());
        if blocks.last().len() != 0 {
            rest.push((blocks.len() - 1, blocks.last()))
        } else {
            rest
        }
    }
}

/// What lowering one function produces: its pruned blocks, and the string
/// table after it (string literals intern module-wide).
pub open spec fn lower_fn(
    fd: FnDef,
    fenv: Seq<(Ident, usize)>,
    rets: Seq<Type>,
    strings: Seq<Seq<char>>,
) -> (Seq<(int, Seq<InstrView>)>, Seq<Seq<char>>) {
    let st0 = LowerState {
        blocks: seq![Seq::empty()],
        cur: 0,
        reg: 0,
        strings,
        venv: bind_params(fd.params@, 0, seq![Seq::empty()]),
    };
    let st1 = lower_stmt(st0, *fd.body, fenv, rets);
    (pruned_view(st1.blocks), st1.strings)
}

/// The string table after the first `k` functions are lowered.
pub open spec fn strings_after(
    fds: Seq<FnDef>,
    k: int,
    fenv: Seq<(Ident, usize)>,
    rets: Seq<Type>,
    s0: Seq<Seq<char>>,
) -> Seq<Seq<char>>
    decreases k,
{
    if k <= 0 {
        s0
    } else {
        lower_fn(fds[k - 1], fenv, rets, strings_after(fds, k - 1, fenv, rets, s0)).1
    }
}

/// On blocks whose label is their position, dropping the empty ones
/// matches the spec-level pruning.
proof fn lemma_prune_view(bs: Seq<IrBlock>)
    requires
        forall|i: int| 0 <= i < bs.len() ==> (#[trigger] bs[i]).label == i,
    ensures
        labeled_views(bs.filter(|b: IrBlock| b.instrs@.len() != 0)) == pruned_view(
            bs.map_values(|b: IrBlock| b.instrs@.map_values(|i: Instr| i@)),
        ),
    decreases bs.len(),
{
    reveal_with_fuel(Seq::filter, 2);
    let pred = |b: IrBlock| b.instrs@.len() != 0;
    let views = bs.map_values(|b: IrBlock| b.instrs@.map_values(|i: Instr| i@));
    if bs.len() == 0 {
        assert(bs.filter(pred) =~= Seq::<IrBlock>::empty());
        assert(labeled_views(bs.filter(pred)) =~= Seq::<(int, Seq<InstrView>)>::empty());
        assert(views =~= Seq::<Seq<InstrView>>::empty());
    } else {
        let prefix = bs.drop_last();
        assert(forall|i: int| 0 <= i < prefix.len() ==> (#[trigger] prefix[i]).label == i);
        lemma_prune_view(prefix);
        let pviews = prefix.map_values(|b: IrBlock| b.instrs@.map_values(|i: Instr| i@));
        assert(views.drop_last() =~= pviews);
        assert(views.last() == bs.last().instrs@.map_values(|i: Instr| i@));
        assert(views.len() == bs.len());
        if pred(bs.last()) {
            assert(bs.filter(pred) == prefix.filter(pred).push(bs.last()));
            assert(labeled_views(bs.filter(pred)) =~= labeled_views(prefix.filter(pred)).push(
                (bs.last().label as int, views.last()),
            ));
            assert(bs.last().label as int == bs.len() - 1);
            assert(views.last().len() != 0);
            assert(pruned_view(views) == pruned_view(views.drop_last()).push(
                (views.len() - 1, views.last()),
            ));
        } else {
            assert(bs.filter(pred) == prefix.filter(pred));
            assert(views.last().len() == 0);
            assert(pruned_view(views) == pruned_view(views.drop_last()));
        }
    }
}

impl Backend {
    /// Overwrite one already-emitted instruction: how a loop's placeholder
    /// phis receive their incoming edges once the back edge exists.
    fn set_instr(&mut self, b: usize, j: usize, ins: Instr)
        requires
            old(self).inv(),
            b < old(self).blocks@.len(),
            j < old(self).blocks@[b as int].instrs@.len(),
        ensures
            final(self).venv == old(self).venv,
            final(self).fenv == old(self).fenv,
            final(self).md == old(self).md,
            final(self).curr_block == old(self).curr_block,
            final(self).next_reg == old(self).next_reg,
            final(self).blocks@.len() == old(self).blocks@.len(),
            forall|i: int|
                0 <= i < old(self).blocks@.len() && i != b ==> final(self).blocks@[i] == old(
                    self,
                ).blocks@[i],
            final(self).blocks@[b as int].label == old(self).blocks@[b as int].label,
            final(self).blocks@[b as int].instrs@ == old(self).blocks@[b as int].instrs@.update(
                j as int,
                ins,
            ),
            st_of(*final(self)) == st_set_instr(st_of(*old(self)), b, j as int, ins@),
            final(self).inv(),
    {
        let ghost iv = ins@;
        let mut tmp = IrBlock { label: 0, instrs: Vec::new() };
        self.blocks.set_and_swap(b, &mut tmp);
        let IrBlock { label, mut instrs } = tmp;
        instrs.set(j, ins);
        self.blocks.set(b, IrBlock { label, instrs });
        proof {
            let pre = st_of(*old(self));
            assert(st_of(*self).blocks[b as int] =~= pre.blocks[b as int].update(j as int, iv));
            assert(st_of(*self).blocks =~= pre.blocks.update(
                b as int,
                pre.blocks[b as int].update(j as int, iv),
            ));
            assert(st_of(*self) == st_set_instr(pre, b, j as int, iv));
        }
    }

    /// Lower one declaration group: each variable's initializer (or the
    /// type's default value if absent) is lowered and the variable bound
    /// in the innermost scope.
    fn compile_decl(&mut self, d: &VarDecl)
        requires
            old(self).inv(),
            old(self).venv@.len() >= 1,
            gen_decl_ok(*d, old(self).frets(), old(self).vnames()),
            old(self).frets().contains_key(concat_helper_name()),
        ensures
            final(self).inv(),
            final(self).fenv == old(self).fenv,
            final(self).md.funcs == old(self).md.funcs,
            final(self).frets() == old(self).frets(),
            blocks_extend(old(self).blocks@, final(self).blocks@),
            final(self).venv@.len() == old(self).venv@.len(),
            forall|i: int|
                0 <= i < old(self).venv@.len() - 1 ==> scope_keys(final(self).venv@)[i]
                    == scope_keys(old(self).venv@)[i],
            final(self).vnames() =~= decl_names(d.vars@, old(self).vnames()),
            st_of(*final(self)) == lower_decl_vars(
                st_of(*old(self)),
                d.type_spec.ttype,
                d.vars@,
                old(self).fenv@,
                rets_of(old(self).md.funcs@),
            ),
    {
        let ttype = d.type_spec.ttype;
        let ghost vars0 = d.vars@;
        let mut i: usize = 0;
        proof {
            assert(vars0.skip(0) =~= vars0);
            lemma_blocks_extend_refl(self.blocks@);
        }
        while i < d.vars.len()
            invariant
                0 <= i <= vars0.len(),
                d.vars@ == vars0,
                d.type_spec.ttype == ttype,
                ttype != Type::Void,
                self.inv(),
                self.venv@.len() == old(self).venv@.len() >= 1,
                self.fenv == old(self).fenv,
                self.md.funcs == old(self).md.funcs,
                blocks_extend(old(self).blocks@, self.blocks@),
                forall|k: int|
                    0 <= k < old(self).venv@.len() - 1 ==> scope_keys(self.venv@)[k]
                        == scope_keys(old(self).venv@)[k],
                gen_decl_vars_ok(vars0.skip(i as int), old(self).frets(), self.vnames()),
                decl_names(vars0, old(self).vnames()) =~= decl_names(
                    vars0.skip(i as int),
                    self.vnames(),
                ),
                lower_decl_vars(st_of(*old(self)), ttype, vars0, old(self).fenv@, rets_of(
                    old(self).md.funcs@,
                )) == lower_decl_vars(st_of(*self), ttype, vars0.skip(i as int), old(self).fenv@,
                    rets_of(old(self).md.funcs@)),
                old(self).fenv == self.fenv,
                old(self).frets().contains_key(concat_helper_name()),
            decreases vars0.len() - i,
        {
            proof {
                assert(vars0.skip(i as int).first() == vars0[i as int]);
                assert(vars0.skip(i as int).drop_first() =~= vars0.skip(i as int + 1));
            }
            let ghost pre = *self;
            let var = &d.vars[i];
            let init_val: Val = match &var.init {
                Some(e) => {
                    match self.compile_exp(e) {
                        Some(v) => v,
                        None => unreached(),
                    }
                },
                None => {
                    match ttype {
                        Type::Int => Val::ConstInt(0),
                        Type::Bool => Val::ConstBool(false),
                        Type::Str => {
                            let empty = String::new();
                            let ix = self.intern_string(&empty);
                            Val::StrPtr(ix)
                        },
                        Type::Void => unreached(),
                    }
                },
            };
            let ghost mid = *self;
            let prev = self.venv.insert_into_top_scope(var.ident.clone(), init_val);
            proof {
                lemma_blocks_extend_trans(old(self).blocks@, pre.blocks@, mid.blocks@);
                lemma_blocks_extend_refl(mid.blocks@);
                lemma_blocks_extend_trans(old(self).blocks@, mid.blocks@, self.blocks@);
                let base = mid.venv@;
                assert(self.venv@ =~= base.update(
                    base.len() - 1,
                    scope_insert(base.last(), var.ident, init_val).0,
                ));
                assert(st_of(*self) == st_bind(st_of(mid), var.ident, init_val));
                assert(lower_decl_vars(st_of(pre), ttype, vars0.skip(i as int), old(self).fenv@,
                    rets_of(old(self).md.funcs@)) == lower_decl_vars(st_of(*self), ttype,
                    vars0.skip(i as int + 1), old(self).fenv@, rets_of(old(self).md.funcs@)));
                lemma_scope_insert_keys(base.last(), var.ident, init_val);
                assert forall|k: int|
                    0 <= k < old(self).venv@.len() - 1 implies scope_keys(self.venv@)[k]
                    == scope_keys(old(self).venv@)[k] by {
                    assert(scope_keys(self.venv@)[k] == scope_keys(mid.venv@)[k]);
                }
                assert forall|k: Seq<char>| #[trigger] self.vnames().contains(k) implies mid.vnames(
                ).insert(var.ident@).contains(k) by {
                    lemma_lookup_decl_insert(base, var.ident, init_val, k);
                }
                assert forall|k: Seq<char>| #[trigger] mid.vnames().insert(var.ident@).contains(
                    k,
                ) implies self.vnames().contains(k) by {
                    lemma_lookup_decl_insert(base, var.ident, init_val, k);
                }
                assert(self.vnames() =~= mid.vnames().insert(var.ident@));
                assert(decl_names(vars0.skip(i as int), mid.vnames()) =~= decl_names(
                    vars0.skip(i as int + 1),
                    self.vnames(),
                ));
            }
            i += 1;
        }
        proof {
            assert(vars0.skip(vars0.len() as int) =~= Seq::<DeclBody>::empty());
        }
    }
}

impl Backend {
    /// Lower one statement at the cursor.  The value environment tracks
    /// the current SSA value of every live variable; only a declaration
    /// changes which names are live.
    #[verifier::rlimit(100)]
    pub fn compile_stmt(&mut self, node: &StmtNode)
        requires
            old(self).inv(),
            old(self).venv@.len() >= 1,
            gen_stmt_ok(*node, old(self).frets(), old(self).vnames()),
            old(self).frets().contains_key(concat_helper_name()),
        ensures
            final(self).inv(),
            final(self).fenv == old(self).fenv,
            final(self).md.funcs == old(self).md.funcs,
            final(self).frets() == old(self).frets(),
            blocks_extend(old(self).blocks@, final(self).blocks@),
            final(self).venv@.len() == old(self).venv@.len(),
            forall|i: int|
                0 <= i < old(self).venv@.len() - 1 ==> scope_keys(final(self).venv@)[i]
                    == scope_keys(old(self).venv@)[i],
            !(node.stmt is Decl) ==> scope_keys(final(self).venv@) == scope_keys(
                old(self).venv@,
            ),
            final(self).vnames() =~= stmt_names(*node, old(self).vnames()),
            st_of(*final(self)) == lower_stmt(
                st_of(*old(self)),
                *node,
                old(self).fenv@,
                rets_of(old(self).md.funcs@),
            ),
        decreases *node, 1int,
    {
        match &node.stmt {
            Stmt::BStmt(ss) => {
                self.venv.push_scope();
                let ghost pushed = self.venv@;
                proof {
                    assert(decreases_to!(*node => node.stmt));
                    assert(scope_keys(pushed) =~~= scope_keys(old(self).venv@).push(
                        Seq::<Seq<char>>::empty(),
                    ));
                    assert forall|k: Seq<char>| true implies #[trigger] live_names(
                        pushed,
                    ).contains(k) == live_names(old(self).venv@).contains(k) by {
                        lemma_lookup_push_empty(old(self).venv@, k);
                    }
                    assert(live_names(pushed) =~= live_names(old(self).venv@));
                }
                self.compile_stmts(ss);
                let ghost before_pop = self.venv@;
                let popped = self.venv.pop_scope();
                proof {
                    assert(self.venv@ =~= before_pop.drop_last());
                    assert forall|i: int|
                        0 <= i < old(self).venv@.len() implies scope_keys(self.venv@)[i]
                        == scope_keys(old(self).venv@)[i] by {
                        assert(scope_keys(before_pop)[i] == scope_keys(pushed)[i]);
                    }
                    assert(scope_keys(self.venv@) =~= scope_keys(old(self).venv@));
                    lemma_live_names_from_keys(self.venv@, old(self).venv@);
                    assert(self.vnames() =~= old(self).vnames());
                }
            },
            Stmt::Decl(d) => {
                self.compile_decl(d);
            },
            Stmt::Ass(x, e) => {
                let v = match self.compile_exp(e) {
                    Some(v) => v,
                    None => unreached(),
                };
                let ghost before = self.venv@;
                let _ = self.venv.replace_topmost(x, v);
                proof {
                    lemma_replace_in_keys(before, x@, v);
                    assert(scope_keys(self.venv@) =~= scope_keys(old(self).venv@));
                    lemma_live_names_from_keys(self.venv@, old(self).venv@);
                }
            },
            Stmt::Incr(x) => {
                let cur = match self.venv.get(x) {
                    Some(v) => *v,
                    None => unreached(),
                };
                let reg = self.fresh_reg();
                self.emit(Instr::Bin(reg, BinaryOp::Add, cur, Val::ConstInt(1)));
                let ghost before = self.venv@;
                let _ = self.venv.replace_topmost(x, Val::Reg(reg));
                proof {
                    lemma_replace_in_keys(before, x@, Val::Reg(reg));
                    assert(scope_keys(self.venv@) =~= scope_keys(old(self).venv@));
                    lemma_live_names_from_keys(self.venv@, old(self).venv@);
                }
            },
            Stmt::Decr(x) => {
                let cur = match self.venv.get(x) {
                    Some(v) => *v,
                    None => unreached(),
                };
                let reg = self.fresh_reg();
                self.emit(Instr::Bin(reg, BinaryOp::Sub, cur, Val::ConstInt(1)));
                let ghost before = self.venv@;
                let _ = self.venv.replace_topmost(x, Val::Reg(reg));
                proof {
                    lemma_replace_in_keys(before, x@, Val::Reg(reg));
                    assert(scope_keys(self.venv@) =~= scope_keys(old(self).venv@));
                    lemma_live_names_from_keys(self.venv@, old(self).venv@);
                }
            },
            Stmt::EStmt(e) => {
                let _ = self.compile_exp(e);
            },
            Stmt::Ret(e) => {
                let v = match self.compile_exp(e) {
                    Some(v) => v,
                    None => unreached(),
                };
                self.emit(Instr::Ret(Some(v)));
            },
            Stmt::VRet => {
                self.emit(Instr::Ret(None));
            },
            Stmt::Cond(c, t, f) => {
                proof {
                    assert(decreases_to!(*node => node.stmt));
                }
                match &c.typeval {
                    Some(ExpTypeVal::Bool(Some(true))) => {
                        self.compile_stmt(&**t);
                    },
                    Some(ExpTypeVal::Bool(Some(false))) => {
                        match f {
                            Some(fs) => {
                                self.compile_stmt(&**fs);
                            },
                            None => {
                                proof {
                                    lemma_blocks_extend_refl(self.blocks@);
                                }
                            },
                        }
                    },
                    Some(ExpTypeVal::Bool(None)) => {
                        let wr = node.will_return.unwrap();
                        self.compile_nontrivial_cond_stmt(Ghost(*node), c, t, f, wr);
                    },
                    _ => {
                        unreached::<()>();
                    },
                }
            },
            Stmt::While(c, b) => {
                proof {
                    assert(decreases_to!(*node => node.stmt));
                }
                self.compile_while(Ghost(*node), c, b);
            },
        }
    }

    /// Lower a block's statements in order; the analyzer has already
    /// pruned everything after a definitely returning statement.
    fn compile_stmts(&mut self, stmts: &Vec<Box<StmtNode>>)
        requires
            old(self).inv(),
            old(self).venv@.len() >= 1,
            gen_stmts_ok(stmts@, old(self).frets(), old(self).vnames()),
            old(self).frets().contains_key(concat_helper_name()),
        ensures
            final(self).inv(),
            final(self).fenv == old(self).fenv,
            final(self).md.funcs == old(self).md.funcs,
            final(self).frets() == old(self).frets(),
            blocks_extend(old(self).blocks@, final(self).blocks@),
            final(self).venv@.len() == old(self).venv@.len(),
            forall|i: int|
                0 <= i < old(self).venv@.len() - 1 ==> scope_keys(final(self).venv@)[i]
                    == scope_keys(old(self).venv@)[i],
            final(self).vnames() =~= stmts_names(stmts@, old(self).vnames()),
            st_of(*final(self)) == lower_stmts(
                st_of(*old(self)),
                stmts@,
                old(self).fenv@,
                rets_of(old(self).md.funcs@),
            ),
        decreases stmts@, 0int,
    {
        let ghost all0 = stmts@;
        let mut i: usize = 0;
        proof {
            assert(all0.skip(0) =~= all0);
            lemma_blocks_extend_refl(self.blocks@);
        }
        while i < stmts.len()
            invariant
                0 <= i <= all0.len(),
                stmts@ == all0,
                self.inv(),
                self.venv@.len() == old(self).venv@.len() >= 1,
                self.fenv == old(self).fenv,
                self.md.funcs == old(self).md.funcs,
                blocks_extend(old(self).blocks@, self.blocks@),
                forall|k: int|
                    0 <= k < old(self).venv@.len() - 1 ==> scope_keys(self.venv@)[k]
                        == scope_keys(old(self).venv@)[k],
                gen_stmts_ok(all0.skip(i as int), old(self).frets(), self.vnames()),
                stmts_names(all0, old(self).vnames()) =~= stmts_names(
                    all0.skip(i as int),
                    self.vnames(),
                ),
                lower_stmts(st_of(*old(self)), all0, old(self).fenv@, rets_of(
                    old(self).md.funcs@,
                )) == lower_stmts(st_of(*self), all0.skip(i as int), old(self).fenv@, rets_of(
                    old(self).md.funcs@,
                )),
                old(self).fenv == self.fenv,
                old(self).frets().contains_key(concat_helper_name()),
            decreases all0.len() - i,
        {
            proof {
                assert(all0.skip(i as int).first() == all0[i as int]);
                assert(all0.skip(i as int).drop_first() =~= all0.skip(i as int + 1));
                assert(decreases_to!(all0 => *all0[i as int]));
            }
            let ghost pre = *self;
            self.compile_stmt(&stmts[i]);
            proof {
                lemma_blocks_extend_trans(old(self).blocks@, pre.blocks@, self.blocks@);
                assert(stmts_names(all0.skip(i as int), pre.vnames()) =~= stmts_names(
                    all0.skip(i as int + 1),
                    self.vnames(),
                ));
                assert(lower_stmts(st_of(pre), all0.skip(i as int), old(self).fenv@, rets_of(
                    old(self).md.funcs@,
                )) == lower_stmts(st_of(*self), all0.skip(i as int + 1), old(self).fenv@, rets_of(
                    old(self).md.funcs@,
                )));
            }
            i += 1;
        }
        proof {
            assert(all0.skip(all0.len() as int) =~= Seq::<Box<StmtNode>>::empty());
        }
    }

    /// Lower a conditional whose condition is not statically known:
    /// branch, lower both arms from the same pre-branch environment, and
    /// at the continuation block merge every live variable's values from
    /// the arms that fall through (one incoming value rebinds directly,
    /// several meet in a phi node).
    fn compile_nontrivial_cond_stmt(
        &mut self,
        parent: Ghost<StmtNode>,
        cond: &ExpNode,
        tstmt: &Box<StmtNode>,
        fstmt: &Option<Box<StmtNode>>,
        node_wr: bool,
    )
        requires
            old(self).inv(),
            old(self).venv@.len() >= 1,
            decreases_to!(parent@ => **tstmt),
            (parent@.stmt matches Stmt::Cond(c0, t0, f0) && *c0 == *cond && t0 == *tstmt && f0
                == *fstmt),
            parent@.will_return == Some(node_wr),
            (match fstmt {
                Some(fs) => decreases_to!(parent@ => **fs) && gen_stmt_ok(
                    **fs,
                    old(self).frets(),
                    old(self).vnames(),
                ) && !(fs.stmt is Decl),
                None => true,
            }),
            gen_exp_ok(*cond, old(self).frets(), old(self).vnames()),
            etv_of(*cond) != Some(Type::Void),
            gen_stmt_ok(**tstmt, old(self).frets(), old(self).vnames()),
            !(tstmt.stmt is Decl),
            old(self).frets().contains_key(concat_helper_name()),
        ensures
            final(self).inv(),
            final(self).fenv == old(self).fenv,
            final(self).md.funcs == old(self).md.funcs,
            final(self).frets() == old(self).frets(),
            blocks_extend(old(self).blocks@, final(self).blocks@),
            final(self).venv@.len() == old(self).venv@.len(),
            scope_keys(final(self).venv@) == scope_keys(old(self).venv@),
            final(self).vnames() =~= old(self).vnames(),
            st_of(*final(self)) == lower_cond(
                st_of(*old(self)),
                parent@,
                old(self).fenv@,
                rets_of(old(self).md.funcs@),
            ),
        decreases parent@, 0int,
    {
        let pred_block = self.curr_block;
        let then_bb = self.new_block();
        let cont_bb = self.new_block();
        let else_bb = self.new_block();
        let then_returns = node_wr || tstmt.will_return.unwrap();
        let else_returns = match fstmt {
            None => false,
            Some(fs) => node_wr || fs.will_return.unwrap(),
        };
        let pred_venv = self.venv.duplicate();
        let ghost s0 = *self;
        let cond_val = match self.compile_exp(cond) {
            Some(v) => v,
            None => unreached(),
        };
        let target_else = if fstmt.is_some() {
            else_bb
        } else {
            cont_bb
        };
        self.emit(Instr::CondBr(cond_val, then_bb, target_else));
        self.position_at(then_bb);
        let ghost s1 = *self;
        self.compile_stmt(&**tstmt);
        if !then_returns {
            self.emit(Instr::Br(cont_bb));
        }
        let then_venv = self.venv.duplicate();
        proof {
            assert(scope_keys(then_venv@) == scope_keys(pred_venv@));
        }
        let else_venv: Option<ScopedMap<Val>> = match fstmt {
            Some(fs) => {
                self.venv = pred_venv.duplicate();
                self.position_at(else_bb);
                let ghost s2 = *self;
                self.compile_stmt(&**fs);
                if !else_returns {
                    self.emit(Instr::Br(cont_bb));
                }
                Some(self.venv.duplicate())
            },
            None => None,
        };
        proof {
            assert(scope_keys(self.venv@) == scope_keys(pred_venv@));
            match &else_venv {
                Some(ev) => {
                    assert(scope_keys(ev@) == scope_keys(pred_venv@));
                },
                None => {},
            }
        }
        if !node_wr {
            self.position_at(cont_bb);
            let keys = pred_venv.keys();
            let ghost names = name_views(keys@);
            let ghost gmerge0 = st_of(*self);
            let ghost evv: Option<Seq<Seq<(Ident, Val)>>> = match &else_venv {
                Some(ev) => Some(ev@),
                None => None,
            };
            proof {
                assert(names == ordered_keys(pred_venv@));
                assert(names.skip(0) =~= names);
            }
            let mut ki: usize = 0;
            while ki < keys.len()
                invariant
                    0 <= ki <= keys@.len(),
                    self.inv(),
                    self.fenv == old(self).fenv,
                    self.md.funcs == old(self).md.funcs,
                    blocks_extend(old(self).blocks@, self.blocks@),
                    scope_keys(self.venv@) == scope_keys(pred_venv@),
                    scope_keys(then_venv@) == scope_keys(pred_venv@),
                    (fstmt is Some) == (else_venv is Some),
                    (match else_venv {
                        Some(ev) => ev.wf() && scope_keys(ev@) == scope_keys(pred_venv@),
                        None => true,
                    }),
                    (match (else_venv, evv) {
                        (Some(ev), Some(evg)) => ev@ == evg,
                        (None, None) => true,
                        _ => false,
                    }),
                    names == name_views(keys@),
                    pred_venv.wf(),
                    then_venv.wf(),
                    forall|a: int|
                        0 <= a < keys@.len() ==> lookup(pred_venv@, #[trigger] keys@[a]@) is Some,
                    lower_phi_merge(gmerge0, names, pred_venv@, then_venv@, evv, pred_block,
                        then_bb, else_bb, then_returns, else_returns) == lower_phi_merge(
                        st_of(*self), names.skip(ki as int), pred_venv@, then_venv@, evv,
                        pred_block, then_bb, else_bb, then_returns, else_returns),
                decreases keys@.len() - ki,
            {
                proof {
                    assert(names.skip(ki as int).first() == names[ki as int]);
                    assert(names[ki as int] == keys@[ki as int]@);
                    assert(names.skip(ki as int).drop_first() =~= names.skip(ki as int + 1));
                }
                let ghost iter0 = st_of(*self);
                let var = &keys[ki];
                proof {
                    assert(lookup(pred_venv@, var@) is Some);
                    assert(live_names(pred_venv@).contains(var@));
                    lemma_live_names_from_keys(pred_venv@, then_venv@);
                    lemma_live_names_from_keys(pred_venv@, self.venv@);
                    assert(live_names(then_venv@).contains(var@));
                    assert(live_names(self.venv@).contains(var@));
                }
                let mut entries: Vec<(Val, BlockId)> = Vec::new();
                if fstmt.is_none() {
                    let v = match pred_venv.get(var) {
                        Some(v) => *v,
                        None => unreached(),
                    };
                    entries.push((v, pred_block));
                }
                if !then_returns {
                    let v = match then_venv.get(var) {
                        Some(v) => *v,
                        None => unreached(),
                    };
                    entries.push((v, then_bb));
                }
                if fstmt.is_some() && !else_returns {
                    let ev = match &else_venv {
                        Some(ev) => ev,
                        None => unreached(),
                    };
                    proof {
                        lemma_live_names_from_keys(pred_venv@, ev@);
                        assert(live_names(ev@).contains(var@));
                    }
                    let v = match ev.get(var) {
                        Some(v) => *v,
                        None => unreached(),
                    };
                    entries.push((v, else_bb));
                }
                proof {
                    let k = names[ki as int];
                    let e1: Seq<(Val, BlockId)> = if evv is None {
                        seq![(lookup(pred_venv@, k).unwrap(), pred_block)]
                    } else {
                        Seq::empty()
                    };
                    let e2: Seq<(Val, BlockId)> = if !then_returns {
                        seq![(lookup(then_venv@, k).unwrap(), then_bb)]
                    } else {
                        Seq::empty()
                    };
                    let e3: Seq<(Val, BlockId)> = if evv is Some && !else_returns {
                        seq![(lookup(evv.unwrap(), k).unwrap(), else_bb)]
                    } else {
                        Seq::empty()
                    };
                    assert(entries@ =~= e1 + e2 + e3);
                }
                let ghost before = self.venv@;
                if entries.len() == 1 {
                    let v0 = entries[0].0;
                    let _ = self.venv.replace_topmost(var, v0);
                    proof {
                        lemma_replace_in_keys(before, var@, v0);
                        assert(scope_keys(self.venv@) =~= scope_keys(pred_venv@));
                    }
                } else if entries.len() > 1 {
                    let reg = self.fresh_reg();
                    self.emit(Instr::Phi(reg, entries));
                    let _ = self.venv.replace_topmost(var, Val::Reg(reg));
                    proof {
                        lemma_replace_in_keys(before, var@, Val::Reg(reg));
                        assert(scope_keys(self.venv@) =~= scope_keys(pred_venv@));
                    }
                }
                proof {
                    assert(lower_phi_merge(iter0, names.skip(ki as int), pred_venv@, then_venv@,
                        evv, pred_block, then_bb, else_bb, then_returns, else_returns)
                        == lower_phi_merge(st_of(*self), names.skip(ki as int + 1), pred_venv@,
                        then_venv@, evv, pred_block, then_bb, else_bb, then_returns,
                        else_returns));
                }
                ki += 1;
            }
            proof {
                assert(names.skip(names.len() as int) =~= Seq::<Seq<char>>::empty());
            }
        }
        proof {
            assert(scope_keys(self.venv@) == scope_keys(old(self).venv@));
            lemma_live_names_from_keys(self.venv@, old(self).venv@);
        }
    }

    /// Lower a loop: a condition block (entered from above and from the
    /// back edge), a body block, and a continuation.  If the body can fall
    /// through, every live variable gets a placeholder phi in the
    /// condition block, patched with its two incoming values once the back
    /// edge exists.
    fn compile_while(&mut self, parent: Ghost<StmtNode>, cond: &ExpNode, body: &Box<StmtNode>)
        requires
            old(self).inv(),
            old(self).venv@.len() >= 1,
            decreases_to!(parent@ => **body),
            (parent@.stmt matches Stmt::While(c0, b0) && *c0 == *cond && b0 == *body),
            gen_exp_ok(*cond, old(self).frets(), old(self).vnames()),
            etv_of(*cond) != Some(Type::Void),
            gen_stmt_ok(**body, old(self).frets(), old(self).vnames()),
            !(body.stmt is Decl),
            old(self).frets().contains_key(concat_helper_name()),
        ensures
            final(self).inv(),
            final(self).fenv == old(self).fenv,
            final(self).md.funcs == old(self).md.funcs,
            final(self).frets() == old(self).frets(),
            blocks_extend(old(self).blocks@, final(self).blocks@),
            final(self).venv@.len() == old(self).venv@.len(),
            scope_keys(final(self).venv@) == scope_keys(old(self).venv@),
            final(self).vnames() =~= old(self).vnames(),
            st_of(*final(self)) == lower_while(
                st_of(*old(self)),
                parent@,
                old(self).fenv@,
                rets_of(old(self).md.funcs@),
            ),
        decreases parent@, 0int,
    {
        let pred_block = self.curr_block;
        let pred_venv = self.venv.duplicate();
        let body_returns = body.will_return.unwrap();
        let cond_bb = self.new_block();
        let body_bb = self.new_block();
        let cont_bb = self.new_block();
        self.emit(Instr::Br(cond_bb));
        self.position_at(cond_bb);
        let keys = self.venv.keys();
        let ghost names = name_views(keys@);
        let ghost gphis0 = st_of(*self);
        proof {
            assert(names == ordered_keys(pred_venv@));
            assert(names.skip(0) =~= names);
        }
        let mut phi_regs: Vec<usize> = Vec::new();
        if !body_returns {
            let mut ki: usize = 0;
            while ki < keys.len()
                invariant
                    0 <= ki <= keys@.len(),
                    self.inv(),
                    self.fenv == old(self).fenv,
                    self.md.funcs == old(self).md.funcs,
                    blocks_extend(old(self).blocks@, self.blocks@),
                    scope_keys(self.venv@) == scope_keys(pred_venv@),
                    pred_venv.wf(),
                    cond_bb < self.blocks@.len(),
                    body_bb < self.blocks@.len(),
                    cont_bb < self.blocks@.len(),
                    old(self).blocks@.len() <= cond_bb,
                    self.curr_block == cond_bb,
                    self.blocks@[cond_bb as int].instrs@.len() == ki,
                    phi_regs@.len() == ki,
                    names == name_views(keys@),
                    forall|a: int|
                        0 <= a < keys@.len() ==> lookup(pred_venv@, #[trigger] keys@[a]@) is Some,
                    ({
                        let full = lower_loop_phis(gphis0, names);
                        let rem = lower_loop_phis(st_of(*self), names.skip(ki as int));
                        full.0 == rem.0 && full.1 == phi_regs@ + rem.1
                    }),
                decreases keys@.len() - ki,
            {
                proof {
                    assert(names.skip(ki as int).first() == names[ki as int]);
                    assert(names[ki as int] == keys@[ki as int]@);
                    assert(names.skip(ki as int).drop_first() =~= names.skip(ki as int + 1));
                }
                let ghost iter0 = st_of(*self);
                let ghost regs0 = phi_regs@;
                let var = &keys[ki];
                proof {
                    assert(lookup(pred_venv@, var@) is Some);
                    assert(live_names(pred_venv@).contains(var@));
                    lemma_live_names_from_keys(pred_venv@, self.venv@);
                    assert(live_names(self.venv@).contains(var@));
                }
                let reg = self.fresh_reg();
                let placeholder: Vec<(Val, BlockId)> = Vec::new();
                self.emit(Instr::Phi(reg, placeholder));
                let ghost before = self.venv@;
                let _ = self.venv.replace_topmost(var, Val::Reg(reg));
                phi_regs.push(reg);
                proof {
                    lemma_replace_in_keys(before, var@, Val::Reg(reg));
                    assert(scope_keys(self.venv@) =~= scope_keys(pred_venv@));
                    assert(placeholder@ =~= Seq::<(Val, BlockId)>::empty());
                    let rem1 = lower_loop_phis(st_of(*self), names.skip(ki as int + 1));
                    assert(lower_loop_phis(iter0, names.skip(ki as int)).0 == rem1.0);
                    assert(lower_loop_phis(iter0, names.skip(ki as int)).1 == seq![reg] + rem1.1);
                    assert(regs0 + (seq![reg] + rem1.1) =~= phi_regs@ + rem1.1);
                }
                ki += 1;
            }
            proof {
                assert(names.skip(names.len() as int) =~= Seq::<Seq<char>>::empty());
                assert(lower_loop_phis(gphis0, names).0 == st_of(*self));
                assert(lower_loop_phis(gphis0, names).1 =~= phi_regs@);
            }
        }
        let ghost after_phis = *self;
        proof {
            lemma_live_names_from_keys(self.venv@, old(self).venv@);
            assert(self.vnames() =~= old(self).vnames());
            assert(self.vnames() == old(self).vnames());
        }
        let cond_val = match self.compile_exp(cond) {
            Some(v) => v,
            None => unreached(),
        };
        proof {
            assert(self.blocks@.len() >= after_phis.blocks@.len());
        }
        self.emit(Instr::CondBr(cond_val, body_bb, cont_bb));
        self.position_at(body_bb);
        proof {
            lemma_live_names_from_keys(self.venv@, old(self).venv@);
            assert(self.vnames() =~= old(self).vnames());
            assert(self.vnames() == old(self).vnames());
        }
        let ghost before_body = *self;
        self.compile_stmt(&**body);
        proof {
            assert(self.blocks@.len() >= before_body.blocks@.len());
        }
        if !body_returns {
            self.emit(Instr::Br(cond_bb));
            let ghost gpatch0 = st_of(*self);
            proof {
                lemma_blocks_extend_trans(after_phis.blocks@, before_body.blocks@, self.blocks@);
                assert(keys@.len() <= self.blocks@[cond_bb as int].instrs@.len());
            }
            let mut ki: usize = 0;
            while ki < keys.len()
                invariant
                    0 <= ki <= keys@.len(),
                    self.inv(),
                    self.fenv == old(self).fenv,
                    self.md.funcs == old(self).md.funcs,
                    blocks_extend(old(self).blocks@, self.blocks@),
                    old(self).blocks@.len() <= cond_bb,
                    scope_keys(self.venv@) == scope_keys(pred_venv@),
                    pred_venv.wf(),
                    cond_bb < self.blocks@.len(),
                    cont_bb < self.blocks@.len(),
                    keys@.len() <= self.blocks@[cond_bb as int].instrs@.len(),
                    phi_regs@.len() == keys@.len(),
                    names == name_views(keys@),
                    forall|a: int|
                        0 <= a < keys@.len() ==> lookup(pred_venv@, #[trigger] keys@[a]@) is Some,
                    lower_loop_patch(gpatch0, names, phi_regs@, pred_venv@, pred_block, body_bb,
                        cond_bb, 0) == lower_loop_patch(st_of(*self), names, phi_regs@,
                        pred_venv@, pred_block, body_bb, cond_bb, ki as int),
                decreases keys@.len() - ki,
            {
                let ghost iter0 = st_of(*self);
                let var = &keys[ki];
                proof {
                    assert(names[ki as int] == keys@[ki as int]@);
                    assert(lookup(pred_venv@, var@) is Some);
                    assert(live_names(pred_venv@).contains(var@));
                    lemma_live_names_from_keys(pred_venv@, self.venv@);
                    assert(live_names(self.venv@).contains(var@));
                }
                let pv = match pred_venv.get(var) {
                    Some(v) => *v,
                    None => unreached(),
                };
                let bv = match self.venv.get(var) {
                    Some(v) => *v,
                    None => unreached(),
                };
                let mut entries: Vec<(Val, BlockId)> = Vec::new();
                entries.push((pv, pred_block));
                entries.push((bv, body_bb));
                proof {
                    assert(entries@ =~= seq![(pv, pred_block), (bv, body_bb)]);
                }
                let reg = phi_regs[ki];
                let ghost pre_patch = *self;
                self.set_instr(cond_bb, ki, Instr::Phi(reg, entries));
                proof {
                    assert forall|i: int|
                        0 <= i < old(self).blocks@.len() implies (#[trigger] self.blocks@[i]).label
                        == old(self).blocks@[i].label && old(self).blocks@[i].instrs@.is_prefix_of(
                        self.blocks@[i].instrs@) by {
                        assert(self.blocks@[i] == pre_patch.blocks@[i]);
                        assert(pre_patch.blocks@[i].label == old(self).blocks@[i].label && old(
                        self).blocks@[i].instrs@.is_prefix_of(pre_patch.blocks@[i].instrs@));
                    }
                }
                let ghost before = self.venv@;
                let _ = self.venv.replace_topmost(var, Val::Reg(reg));
                proof {
                    lemma_replace_in_keys(before, var@, Val::Reg(reg));
                    assert(scope_keys(self.venv@) =~= scope_keys(pred_venv@));
                    assert(lower_loop_patch(iter0, names, phi_regs@, pred_venv@, pred_block,
                        body_bb, cond_bb, ki as int) == lower_loop_patch(st_of(*self), names,
                        phi_regs@, pred_venv@, pred_block, body_bb, cond_bb, ki as int + 1));
                }
                ki += 1;
            }
            proof {
                assert(lower_loop_patch(gpatch0, names, phi_regs@, pred_venv@, pred_block,
                    body_bb, cond_bb, 0) == st_of(*self));
            }
            self.position_at(cont_bb);
        }
        proof {
            assert(scope_keys(self.venv@) == scope_keys(old(self).venv@));
            lemma_live_names_from_keys(self.venv@, old(self).venv@);
        }
    }
}

/// Drop every block that received no instructions: unreachable arm and
/// continuation blocks created speculatively during lowering.
pub fn prune_empty_blocks(blocks: Vec<IrBlock>) -> (r: Vec<IrBlock>)
    ensures
        r@ == blocks@.filter(|b: IrBlock| b.instrs@.len() != 0),
{
    let mut blocks = blocks;
    let mut out: Vec<IrBlock> = Vec::new();
    let ghost all0 = blocks@;
    let mut i: usize = 0;
    proof {
        assert(all0.take(0).filter(|b: IrBlock| b.instrs@.len() != 0) =~= Seq::<IrBlock>::empty());
    }
    while i < blocks.len()
        invariant
            0 <= i <= all0.len(),
            blocks@.len() == all0.len(),
            forall|j: int| i <= j < all0.len() ==> blocks@[j] == all0[j],
            out@ == all0.take(i as int).filter(|b: IrBlock| b.instrs@.len() != 0),
        decreases all0.len() - i,
    {
        let keep = blocks[i].instrs.len() != 0;
        proof {
            assert(blocks@[i as int] == all0[i as int]);
            assert(all0.take(i as int + 1).drop_last() =~= all0.take(i as int));
            assert(all0.take(i as int + 1).last() == all0[i as int]);
            reveal_with_fuel(Seq::filter, 2);
        }
        if keep {
            let mut tmp = IrBlock { label: 0, instrs: Vec::new() };
            blocks.set_and_swap(i, &mut tmp);
            out.push(tmp);
        }
        proof {
            assert(out@ =~= all0.take(i as int + 1).filter(|b: IrBlock| b.instrs@.len() != 0));
        }
        i += 1;
    }
    proof {
        assert(all0.take(all0.len() as int) =~= all0);
    }
    out
}

/// Signatures the generator pre-seeds: the built-in I/O primitives and
/// the runtime concatenation helper.
pub open spec fn builtin_frets() -> Map<Seq<char>, Type> {
    Map::empty().insert("readInt"@, Type::Int).insert("readString"@, Type::Str).insert(
        "printInt"@,
        Type::Void,
    ).insert("printString"@, Type::Void).insert(concat_helper_name(), Type::Str)
}

/// Return types after declaring the program's functions over a base.
pub open spec fn add_fn_rets(m: Map<Seq<char>, Type>, fds: Seq<FnDef>, i: int) -> Map<
    Seq<char>,
    Type,
>
    decreases fds.len() - i,
{
    if i < 0 || i >= fds.len() {
        m
    } else {
        add_fn_rets(m.insert(fds[i].ident@, fds[i].type_spec.ttype), fds, i + 1)
    }
}

/// The function table every body is lowered against.
pub open spec fn prog_frets(p: Program) -> Map<Seq<char>, Type> {
    add_fn_rets(builtin_frets(), p.functions@, 0)
}

/// After semantic analysis the function names are pairwise distinct and
/// none collides with a pre-seeded name.
pub open spec fn distinct_fn_names(fds: Seq<FnDef>) -> bool {
    (forall|i: int, j: int|
        0 <= i < j < fds.len() ==> (#[trigger] fds[i]).ident@ != (#[trigger] fds[j]).ident@)
        && (forall|i: int|
        0 <= i < fds.len() ==> !builtin_frets().contains_key((#[trigger] fds[i]).ident@))
}

/// Names of a function's parameters (each group binds its first declared
/// identifier, and a group is never empty).
pub open spec fn fn_param_names(params: Seq<VarDecl>, vs: Set<Seq<char>>) -> Set<Seq<char>>
    decreases params.len(),
{
    if params.len() == 0 {
        vs
    } else {
        fn_param_names(params.drop_first(), vs.insert(params.first().vars@[0].ident@))
    }
}

/// A function definition the generator can lower against a table.
pub open spec fn gen_fndef_ok(fd: FnDef, fs: Map<Seq<char>, Type>) -> bool {
    (forall|i: int| 0 <= i < fd.params@.len() ==> (#[trigger] fd.params@[i]).vars@.len() >= 1)
        && gen_stmt_ok(*fd.body, fs, fn_param_names(fd.params@, Set::empty()))
}

/// A program the generator can lower: analyzed, with distinct function
/// names, every body lowerable against the program's table.
pub open spec fn gen_program_ok(p: Program) -> bool {
    distinct_fn_names(p.functions@) && (forall|i: int|
        0 <= i < p.functions@.len() ==> gen_fndef_ok(#[trigger] p.functions@[i], prog_frets(p)))
}

/// Appending a declaration adds its name to the table unless an earlier
/// declaration of the same name wins.
proof fn lemma_frets_push(fenv: Seq<(Ident, usize)>, funcs: Seq<IrFunc>, name: Ident, ix: usize)
    requires
        ix < funcs.len(),
    ensures
        frets_of(fenv.push((name, ix)), funcs) == if frets_of(fenv, funcs).contains_key(name@) {
            frets_of(fenv, funcs)
        } else {
            frets_of(fenv, funcs).insert(name@, funcs[ix as int].ret)
        },
    decreases fenv.len(),
{
    let e = (name, ix);
    if fenv.len() == 0 {
        assert(fenv.push(e).drop_first() =~= fenv);
        assert(frets_of(fenv.push(e), funcs) =~= frets_of(fenv, funcs).insert(
            name@,
            funcs[ix as int].ret,
        ));
    } else {
        assert(fenv.push(e).first() == fenv.first());
        assert(fenv.push(e).drop_first() =~= fenv.drop_first().push(e));
        lemma_frets_push(fenv.drop_first(), funcs, name, ix);
        let m0 = frets_of(fenv.drop_first(), funcs);
        let f0 = fenv.first();
        if m0.contains_key(name@) {
            assert(frets_of(fenv, funcs).contains_key(name@));
            assert(frets_of(fenv.push(e), funcs) =~= frets_of(fenv, funcs));
        } else {
            if f0.0@ == name@ {
                assert(frets_of(fenv, funcs).contains_key(name@));
                assert(frets_of(fenv.push(e), funcs) =~= frets_of(fenv, funcs));
            } else {
                assert(!frets_of(fenv, funcs).contains_key(name@));
                assert(frets_of(fenv.push(e), funcs) =~= frets_of(fenv, funcs).insert(
                    name@,
                    funcs[ix as int].ret,
                ));
            }
        }
    }
}

/// The table reads only each declared function's return type: replacing
/// a function's blocks changes nothing.
proof fn lemma_frets_same_rets(fenv: Seq<(Ident, usize)>, f1: Seq<IrFunc>, f2: Seq<IrFunc>)
    requires
        f1.len() == f2.len(),
        forall|i: int| 0 <= i < f1.len() ==> (#[trigger] f2[i]).ret == f1[i].ret,
    ensures
        frets_of(fenv, f1) == frets_of(fenv, f2),
    decreases fenv.len(),
{
    if fenv.len() > 0 {
        lemma_frets_same_rets(fenv.drop_first(), f1, f2);
    }
}

/// Growing the function list does not change what declared names map to.
proof fn lemma_frets_funcs_grow(fenv: Seq<(Ident, usize)>, f1: Seq<IrFunc>, f2: Seq<IrFunc>)
    requires
        f2.len() >= f1.len(),
        forall|i: int| 0 <= i < f1.len() ==> (#[trigger] f2[i]) == f1[i],
        forall|i: int| 0 <= i < fenv.len() ==> (#[trigger] fenv[i]).1 < f1.len(),
    ensures
        frets_of(fenv, f1) == frets_of(fenv, f2),
    decreases fenv.len(),
{
    if fenv.len() > 0 {
        assert(forall|i: int|
            0 <= i < fenv.drop_first().len() ==> (#[trigger] fenv.drop_first()[i]).1 < f1.len());
        lemma_frets_funcs_grow(fenv.drop_first(), f1, f2);
    }
}

impl Backend {
    /// Declare one function: record its signature in the module and its
    /// name in the table.
    fn compile_fndecl(&mut self, name: Ident, ret: Type, params: Vec<Type>)
        requires
            old(self).inv(),
        ensures
            final(self).inv(),
            final(self).venv == old(self).venv,
            final(self).blocks == old(self).blocks,
            final(self).curr_block == old(self).curr_block,
            final(self).md.strings == old(self).md.strings,
            final(self).md.funcs@.len() == old(self).md.funcs@.len() + 1,
            forall|i: int|
                0 <= i < old(self).md.funcs@.len()
                    ==> final(self).md.funcs@[i] == old(self).md.funcs@[i],
            final(self).md.funcs@.last().name == name && final(self).md.funcs@.last().ret == ret
                && final(self).md.funcs@.last().params == params
                && final(self).md.funcs@.last().blocks@.len() == 0,
            final(self).fenv@ == old(self).fenv@.push(
                (name, old(self).md.funcs@.len() as usize),
            ),
            final(self).frets() == if old(self).frets().contains_key(name@) {
                old(self).frets()
            } else {
                old(self).frets().insert(name@, ret)
            },
    {
        let ix = self.md.funcs.len();
        let ghost name0 = name;
        let ghost fenv0 = self.fenv@;
        let ghost funcs0 = self.md.funcs@;
        let fname = name.clone();
        self.md.funcs.push(IrFunc { name, ret, params, blocks: Vec::new() });
        self.fenv.push((fname, ix));
        proof {
            assert(self.fenv@ =~= fenv0.push((name0, ix)));
            lemma_frets_funcs_grow(fenv0, funcs0, self.md.funcs@);
            lemma_frets_push(fenv0, self.md.funcs@, name0, ix);
        }
    }
}

/// Declaring the remaining functions does not disturb other names.
proof fn lemma_add_fn_rets_frame(m: Map<Seq<char>, Type>, fds: Seq<FnDef>, i: int, k: Seq<char>)
    requires
        forall|j: int| i <= j < fds.len() ==> (#[trigger] fds[j]).ident@ != k,
    ensures
        add_fn_rets(m, fds, i).contains_key(k) == m.contains_key(k),
        m.contains_key(k) ==> add_fn_rets(m, fds, i)[k] == m[k],
    decreases fds.len() - i,
{
    if 0 <= i < fds.len() {
        lemma_add_fn_rets_frame(m.insert(fds[i].ident@, fds[i].type_spec.ttype), fds, i + 1, k);
    }
}

/// With distinct names, every declared function's return type is in the
/// table.
proof fn lemma_add_fn_rets_member(m: Map<Seq<char>, Type>, fds: Seq<FnDef>, i: int, j: int)
    requires
        0 <= i <= j < fds.len(),
        forall|a: int, b: int|
            0 <= a < b < fds.len() ==> (#[trigger] fds[a]).ident@ != (#[trigger] fds[b]).ident@,
    ensures
        add_fn_rets(m, fds, i).contains_key(fds[j].ident@),
        add_fn_rets(m, fds, i)[fds[j].ident@] == fds[j].type_spec.ttype,
    decreases fds.len() - i,
{
    if i == j {
        lemma_add_fn_rets_frame(
            m.insert(fds[i].ident@, fds[i].type_spec.ttype),
            fds,
            i + 1,
            fds[j].ident@,
        );
    } else {
        lemma_add_fn_rets_member(m.insert(fds[i].ident@, fds[i].type_spec.ttype), fds, i + 1, j);
    }
}

/// Where the first table entry with a name sits, the lookup lands.
proof fn lemma_fenv_find_at(fenv: Seq<(Ident, usize)>, name: Seq<char>, m: int)
    requires
        0 <= m < fenv.len(),
        fenv[m].0@ == name,
        forall|j: int| 0 <= j < m ==> (#[trigger] fenv[j]).0@ != name,
    ensures
        fenv_find(fenv, name) == Some(fenv[m].1),
    decreases fenv.len(),
{
    if m == 0 {
    } else {
        assert(fenv.first().0@ != name);
        assert(fenv.drop_first()[m - 1] == fenv[m]);
        assert(forall|j: int| 0 <= j < m - 1 ==> (#[trigger] fenv.drop_first()[j]).0@ != name);
        lemma_fenv_find_at(fenv.drop_first(), name, m - 1);
    }
}

impl Backend {
    /// Lower one function definition: bind each parameter name to its
    /// argument value in the function's top scope, lower the body into a
    /// fresh entry block, and prune the blocks that stayed empty.
    pub fn compile_fndef(&mut self, fd: &FnDef)
        requires
            old(self).inv(),
            old(self).frets().contains_key(fd.ident@),
            old(self).frets().contains_key(concat_helper_name()),
            gen_fndef_ok(*fd, old(self).frets()),
        ensures
            final(self).inv(),
            final(self).fenv == old(self).fenv,
            final(self).md.funcs@.len() == old(self).md.funcs@.len(),
            forall|i: int|
                0 <= i < old(self).md.funcs@.len() ==> (#[trigger] final(self).md.funcs@[i]).name
                    == old(self).md.funcs@[i].name && final(self).md.funcs@[i].ret == old(
                    self,
                ).md.funcs@[i].ret && final(self).md.funcs@[i].params == old(
                    self,
                ).md.funcs@[i].params,
            final(self).frets() == old(self).frets(),
            final(self).fenv == old(self).fenv,
            forall|i: int|
                0 <= i < old(self).md.funcs@.len() && i != fenv_find(
                    old(self).fenv@,
                    fd.ident@,
                ).unwrap() ==> (#[trigger] final(self).md.funcs@[i]) == old(self).md.funcs@[i],
            ({
                let rr = lower_fn(
                    *fd,
                    old(self).fenv@,
                    rets_of(old(self).md.funcs@),
                    strings_view(old(self).md.strings@),
                );
                let ix = fenv_find(old(self).fenv@, fd.ident@).unwrap();
                &&& labeled_views(final(self).md.funcs@[ix as int].blocks@) == rr.0
                &&& strings_view(final(self).md.strings@) == rr.1
            }),
    {
        let ix = match self.find_fn(&fd.ident) {
            Some(i) => i,
            None => unreached(),
        };
        self.venv = ScopedMap::new();
        self.venv.push_scope();
        let mut entry: Vec<IrBlock> = Vec::new();
        entry.push(IrBlock { label: 0, instrs: Vec::new() });
        self.blocks = entry;
        self.curr_block = 0;
        self.next_reg = 0;
        let ghost params0 = fd.params@;
        let ghost s0 = strings_view(old(self).md.strings@);
        let mut i: usize = 0;
        proof {
            assert(params0.skip(0) =~= params0);
            assert(self.venv@ =~= Seq::<Seq<(Ident, Val)>>::empty().push(Seq::empty()));
            assert(self.venv@ == seq![Seq::<(Ident, Val)>::empty()]);
            assert forall|k: Seq<char>| true implies !(#[trigger] live_names(
                self.venv@,
            ).contains(k)) by {
                lemma_lookup_push_empty(Seq::<Seq<(Ident, Val)>>::empty(), k);
            }
            assert(live_names(self.venv@) =~= Set::<Seq<char>>::empty());
        }
        while i < fd.params.len()
            invariant
                0 <= i <= params0.len(),
                fd.params@ == params0,
                forall|j: int| 0 <= j < params0.len() ==> (#[trigger] params0[j]).vars@.len() >= 1,
                self.inv(),
                self.venv@.len() == 1,
                self.fenv == old(self).fenv,
                self.md == old(self).md,
                self.blocks@.len() == 1,
                self.blocks@[0].instrs@.len() == 0,
                self.curr_block == 0,
                self.next_reg == 0,
                strings_view(self.md.strings@) == s0,
                fn_param_names(params0, Set::empty()) =~= fn_param_names(
                    params0.skip(i as int),
                    self.vnames(),
                ),
                bind_params(params0, 0, seq![Seq::<(Ident, Val)>::empty()]) == bind_params(
                    params0,
                    i as int,
                    self.venv@,
                ),
            decreases params0.len() - i,
        {
            proof {
                assert(params0.skip(i as int).first() == params0[i as int]);
                assert(params0.skip(i as int).drop_first() =~= params0.skip(i as int + 1));
            }
            let name = &fd.params[i].vars[0].ident;
            let ghost base = self.venv@;
            let _ = self.venv.insert_into_top_scope(name.clone(), Val::Arg(i));
            proof {
                assert(self.venv@ =~= base.update(
                    base.len() - 1,
                    scope_insert(base.last(), *name, Val::Arg(i as usize)).0,
                ));
                assert(self.venv@ == venv_bind(base, params0[i as int].vars@[0].ident, Val::Arg(
                    i as usize,
                )));
                assert forall|k: Seq<char>| true implies #[trigger] self.vnames().contains(k)
                    == live_names(base).insert(name@).contains(k) by {
                    lemma_lookup_decl_insert(base, *name, Val::Arg(i as usize), k);
                }
                assert(self.vnames() =~= live_names(base).insert(name@));
            }
            i += 1;
        }
        proof {
            assert(params0.skip(params0.len() as int) =~= Seq::<VarDecl>::empty());
            assert(self.vnames() =~= fn_param_names(params0, Set::empty()));
            assert(self.vnames() == fn_param_names(params0, Set::empty()));
            assert(st_of(*self).blocks[0] =~= Seq::<InstrView>::empty());
            assert(st_of(*self).blocks =~= seq![Seq::<InstrView>::empty()]);
            assert(st_of(*self) == (LowerState {
                blocks: seq![Seq::<InstrView>::empty()],
                cur: 0,
                reg: 0,
                strings: s0,
                venv: bind_params(params0, 0, seq![Seq::<(Ident, Val)>::empty()]),
            }));
        }
        self.compile_stmt(&fd.body);
        let ghost st1 = st_of(*self);
        proof {
            assert(st1 == lower_stmt(
                (LowerState {
                    blocks: seq![Seq::<InstrView>::empty()],
                    cur: 0,
                    reg: 0,
                    strings: s0,
                    venv: bind_params(params0, 0, seq![Seq::<(Ident, Val)>::empty()]),
                }),
                *fd.body,
                old(self).fenv@,
                rets_of(old(self).md.funcs@),
            ));
            assert(forall|b: int|
                0 <= b < self.blocks@.len() ==> (#[trigger] self.blocks@[b]).label == b);
        }
        let mut finished: Vec<IrBlock> = Vec::new();
        core::mem::swap(&mut self.blocks, &mut finished);
        let ghost finished0 = finished@;
        let pruned = prune_empty_blocks(finished);
        proof {
            lemma_prune_view(finished0);
            assert(finished0.map_values(|b: IrBlock| b.instrs@.map_values(|i: Instr| i@))
                == st1.blocks);
            assert(labeled_views(pruned@) == pruned_view(st1.blocks));
        }
        let ghost funcs0 = self.md.funcs@;
        let mut slot = IrFunc {
            name: String::new(),
            ret: Type::Int,
            params: Vec::new(),
            blocks: Vec::new(),
        };
        self.md.funcs.set_and_swap(ix, &mut slot);
        let IrFunc { name, ret, params, blocks: _ } = slot;
        self.md.funcs.set(ix, IrFunc { name, ret, params, blocks: pruned });
        let mut entry2: Vec<IrBlock> = Vec::new();
        entry2.push(IrBlock { label: 0, instrs: Vec::new() });
        self.blocks = entry2;
        self.curr_block = 0;
        proof {
            assert(forall|i: int|
                0 <= i < funcs0.len() ==> (#[trigger] self.md.funcs@[i]).ret == funcs0[i].ret);
            lemma_frets_same_rets(self.fenv@, funcs0, self.md.funcs@);
            assert(labeled_views(self.md.funcs@[ix as int].blocks@) == pruned_view(st1.blocks));
            assert(strings_view(self.md.strings@) == st1.strings);
        }
    }

    /// Lower a whole program: declare the built-ins, the concatenation
    /// helper and every function's signature (so forward references
    /// resolve), then lower each function body in declaration order.
    pub fn compile_prog(&mut self, prog: &Program)
        requires
            old(self).inv(),
            old(self).md.funcs@.len() == 0,
            old(self).md.strings@.len() == 0,
            old(self).fenv@.len() == 0,
            gen_program_ok(*prog),
        ensures
            final(self).inv(),
            final(self).md.funcs@.len() == 5 + prog.functions@.len(),
            forall|i: int|
                0 <= i < prog.functions@.len() ==> (#[trigger] final(self).md.funcs@[
                    5 + i]).name@ == prog.functions@[i].ident@ && final(self).md.funcs@[5 + i].ret
                    == prog.functions@[i].type_spec.ttype,
            final(self).md.funcs@[0].name@ == "readInt"@ && final(self).md.funcs@[0].ret
                == Type::Int && final(self).md.funcs@[0].blocks@.len() == 0,
            final(self).md.funcs@[1].name@ == "readString"@ && final(self).md.funcs@[1].ret
                == Type::Str && final(self).md.funcs@[1].blocks@.len() == 0,
            final(self).md.funcs@[2].name@ == "printInt"@ && final(self).md.funcs@[2].ret
                == Type::Void && final(self).md.funcs@[2].blocks@.len() == 0,
            final(self).md.funcs@[3].name@ == "printString"@ && final(self).md.funcs@[3].ret
                == Type::Void && final(self).md.funcs@[3].blocks@.len() == 0,
            final(self).md.funcs@[4].name@ == concat_helper_name()
                && final(self).md.funcs@[4].ret == Type::Str
                && final(self).md.funcs@[4].blocks@.len() == 0,
            final(self).fenv@.len() == 5 + prog.functions@.len(),
            forall|k: int|
                0 <= k < prog.functions@.len() ==> (#[trigger] final(self).fenv@[5 + k]).0@
                    == prog.functions@[k].ident@ && final(self).fenv@[5 + k].1 == 5 + k,
            strings_view(final(self).md.strings@) == strings_after(
                prog.functions@,
                prog.functions@.len() as int,
                final(self).fenv@,
                rets_of(final(self).md.funcs@),
                Seq::empty(),
            ),
            forall|k: int|
                0 <= k < prog.functions@.len() ==> labeled_views(
                    (#[trigger] final(self).md.funcs@[5 + k]).blocks@,
                ) == lower_fn(
                    prog.functions@[k],
                    final(self).fenv@,
                    rets_of(final(self).md.funcs@),
                    strings_after(
                        prog.functions@,
                        k,
                        final(self).fenv@,
                        rets_of(final(self).md.funcs@),
                        Seq::empty(),
                    ),
                ).0,
    {
        proof {
            reveal_strlit("readInt");
            reveal_strlit("readString");
            reveal_strlit("printInt");
            reveal_strlit("printString");
            reveal_strlit("__latc_concat_str");
            assert(frets_of(old(self).fenv@, old(self).md.funcs@) =~= Map::<
                Seq<char>,
                Type,
            >::empty());
        }
        self.compile_fndecl(String::from_str("readInt"), Type::Int, Vec::new());
        self.compile_fndecl(String::from_str("readString"), Type::Str, Vec::new());
        let mut p1: Vec<Type> = Vec::new();
        p1.push(Type::Int);
        self.compile_fndecl(String::from_str("printInt"), Type::Void, p1);
        let mut p2: Vec<Type> = Vec::new();
        p2.push(Type::Str);
        self.compile_fndecl(String::from_str("printString"), Type::Void, p2);
        let mut p3: Vec<Type> = Vec::new();
        p3.push(Type::Str);
        p3.push(Type::Str);
        self.compile_fndecl(String::from_str("__latc_concat_str"), Type::Str, p3);
        proof {
            assert("readInt"@.len() == 7);
            assert("readString"@.len() == 10);
            assert("printInt"@.len() == 8);
            assert("printString"@.len() == 11);
            assert("__latc_concat_str"@.len() == 17);
            assert(self.frets() =~= builtin_frets());
            assert(self.fenv@.len() == 5);
            assert(self.fenv@[0].0@ == "readInt"@ && self.fenv@[0].1 == 0);
            assert(self.fenv@[1].0@ == "readString"@ && self.fenv@[1].1 == 1);
            assert(self.fenv@[2].0@ == "printInt"@ && self.fenv@[2].1 == 2);
            assert(self.fenv@[3].0@ == "printString"@ && self.fenv@[3].1 == 3);
            assert(self.fenv@[4].0@ == concat_helper_name() && self.fenv@[4].1 == 4);
            assert(self.md.funcs@[0].name@ == "readInt"@ && self.md.funcs@[0].ret == Type::Int
                && self.md.funcs@[0].blocks@.len() == 0);
            assert(self.md.funcs@[1].name@ == "readString"@ && self.md.funcs@[1].ret == Type::Str
                && self.md.funcs@[1].blocks@.len() == 0);
            assert(self.md.funcs@[2].name@ == "printInt"@ && self.md.funcs@[2].ret == Type::Void
                && self.md.funcs@[2].blocks@.len() == 0);
            assert(self.md.funcs@[3].name@ == "printString"@ && self.md.funcs@[3].ret
                == Type::Void && self.md.funcs@[3].blocks@.len() == 0);
            assert(self.md.funcs@[4].name@ == concat_helper_name() && self.md.funcs@[4].ret
                == Type::Str && self.md.funcs@[4].blocks@.len() == 0);
        }
        let ghost fds = prog.functions@;
        let mut i: usize = 0;
        while i < prog.functions.len()
            invariant
                0 <= i <= fds.len(),
                prog.functions@ == fds,
                self.inv(),
                distinct_fn_names(fds),
                self.md.funcs@.len() == 5 + i,
                self.md.funcs@[0].name@ == "readInt"@ && self.md.funcs@[0].ret == Type::Int
                    && self.md.funcs@[0].blocks@.len() == 0,
                self.md.funcs@[1].name@ == "readString"@ && self.md.funcs@[1].ret == Type::Str
                    && self.md.funcs@[1].blocks@.len() == 0,
                self.md.funcs@[2].name@ == "printInt"@ && self.md.funcs@[2].ret == Type::Void
                    && self.md.funcs@[2].blocks@.len() == 0,
                self.md.funcs@[3].name@ == "printString"@ && self.md.funcs@[3].ret == Type::Void
                    && self.md.funcs@[3].blocks@.len() == 0,
                self.md.funcs@[4].name@ == concat_helper_name() && self.md.funcs@[4].ret
                    == Type::Str && self.md.funcs@[4].blocks@.len() == 0,
                forall|j: int|
                    0 <= j < i ==> (#[trigger] self.md.funcs@[5 + j]).name@ == fds[j].ident@
                        && self.md.funcs@[5 + j].ret == fds[j].type_spec.ttype,
                self.fenv@.len() == 5 + i,
                self.fenv@[0].0@ == "readInt"@ && self.fenv@[0].1 == 0,
                self.fenv@[1].0@ == "readString"@ && self.fenv@[1].1 == 1,
                self.fenv@[2].0@ == "printInt"@ && self.fenv@[2].1 == 2,
                self.fenv@[3].0@ == "printString"@ && self.fenv@[3].1 == 3,
                self.fenv@[4].0@ == concat_helper_name() && self.fenv@[4].1 == 4,
                forall|j: int|
                    0 <= j < i ==> (#[trigger] self.fenv@[5 + j]).0@ == fds[j].ident@
                        && self.fenv@[5 + j].1 == 5 + j,
                self.md.strings@.len() == 0,
                add_fn_rets(self.frets(), fds, i as int) == prog_frets(*prog),
                forall|j: int|
                    i <= j < fds.len() ==> !self.frets().contains_key(
                        (#[trigger] fds[j]).ident@,
                    ),
                self.frets().contains_key(concat_helper_name()),
            decreases fds.len() - i,
        {
            let fd = &prog.functions[i];
            let sig = fd.get_signature();
            let fname = fd.ident.clone();
            let ghost fng = fname;
            let ghost pre = *self;
            proof {
                assert(fng == fds[i as int].ident);
                assert(pre.fenv@.len() == 5 + i);
                assert(pre.md.funcs@.len() == 5 + i);
            }
            self.compile_fndecl(fname, sig.0, sig.1);
            proof {
                assert(self.frets() == pre.frets().insert(fds[i as int].ident@, fds[
                    i as int].type_spec.ttype));
                assert(add_fn_rets(self.frets(), fds, i as int + 1) == prog_frets(*prog));
                assert(self.fenv@.len() == 5 + i + 1);
                assert(self.fenv@ == pre.fenv@.push((fng, (5 + i) as usize)));
                assert(self.fenv@[5 + i as int] == (fng, (5 + i) as usize));
                vstd::std_specs::vec::axiom_spec_len(&pre.md.funcs);
                assert(5 + i as int <= usize::MAX);
                assert(((5 + i) as usize) as int == 5 + i as int);
                assert(self.fenv@[5 + i as int].0@ == fds[i as int].ident@ && self.fenv@[5
                    + i as int].1 == 5 + i);
                assert(forall|j: int| 0 <= j < 5 + i ==> self.fenv@[j] == pre.fenv@[j]);
            }
            i += 1;
        }
        let ghost full = self.frets();
        let ghost fenvg = self.fenv@;
        let ghost retsg = rets_of(self.md.funcs@);
        proof {
            assert(add_fn_rets(full, fds, fds.len() as int) == prog_frets(*prog));
            assert(full == prog_frets(*prog));
            assert(strings_view(self.md.strings@) =~= Seq::<Seq<char>>::empty());
        }
        let mut k: usize = 0;
        while k < prog.functions.len()
            invariant
                0 <= k <= fds.len(),
                prog.functions@ == fds,
                self.inv(),
                distinct_fn_names(fds),
                gen_program_ok(*prog),
                self.frets() == prog_frets(*prog),
                self.fenv@ == fenvg,
                fenvg.len() == 5 + fds.len(),
                fenvg[0].0@ == "readInt"@,
                fenvg[1].0@ == "readString"@,
                fenvg[2].0@ == "printInt"@,
                fenvg[3].0@ == "printString"@,
                fenvg[4].0@ == concat_helper_name(),
                forall|j: int|
                    0 <= j < fds.len() ==> (#[trigger] fenvg[5 + j]).0@ == fds[j].ident@
                        && fenvg[5 + j].1 == 5 + j,
                rets_of(self.md.funcs@) == retsg,
                self.md.funcs@.len() == 5 + fds.len(),
                self.md.funcs@[0].name@ == "readInt"@ && self.md.funcs@[0].ret == Type::Int
                    && self.md.funcs@[0].blocks@.len() == 0,
                self.md.funcs@[1].name@ == "readString"@ && self.md.funcs@[1].ret == Type::Str
                    && self.md.funcs@[1].blocks@.len() == 0,
                self.md.funcs@[2].name@ == "printInt"@ && self.md.funcs@[2].ret == Type::Void
                    && self.md.funcs@[2].blocks@.len() == 0,
                self.md.funcs@[3].name@ == "printString"@ && self.md.funcs@[3].ret == Type::Void
                    && self.md.funcs@[3].blocks@.len() == 0,
                self.md.funcs@[4].name@ == concat_helper_name() && self.md.funcs@[4].ret
                    == Type::Str && self.md.funcs@[4].blocks@.len() == 0,
                forall|j: int|
                    0 <= j < fds.len() ==> (#[trigger] self.md.funcs@[5 + j]).name@
                        == fds[j].ident@ && self.md.funcs@[5 + j].ret
                        == fds[j].type_spec.ttype,
                strings_view(self.md.strings@) == strings_after(
                    fds,
                    k as int,
                    fenvg,
                    retsg,
                    Seq::empty(),
                ),
                forall|j: int|
                    0 <= j < k ==> labeled_views((#[trigger] self.md.funcs@[5 + j]).blocks@)
                        == lower_fn(
                        fds[j],
                        fenvg,
                        retsg,
                        strings_after(fds, j, fenvg, retsg, Seq::empty()),
                    ).0,
            decreases fds.len() - k,
        {
            proof {
                lemma_add_fn_rets_frame(builtin_frets(), fds, 0, concat_helper_name());
                lemma_add_fn_rets_member(builtin_frets(), fds, 0, k as int);
                assert(self.frets().contains_key(fds[k as int].ident@));
                assert(gen_fndef_ok(fds[k as int], prog_frets(*prog)));
                assert(!builtin_frets().contains_key(fds[k as int].ident@));
                assert forall|j: int|
                    0 <= j < 5 + k implies (#[trigger] fenvg[j]).0@ != fds[k as int].ident@ by {
                    if j < 5 {
                        assert(builtin_frets().contains_key("readInt"@));
                        assert(builtin_frets().contains_key("readString"@));
                        assert(builtin_frets().contains_key("printInt"@));
                        assert(builtin_frets().contains_key("printString"@));
                        assert(builtin_frets().contains_key(concat_helper_name()));
                    } else {
                        let jj = j - 5;
                        assert(fenvg[5 + jj].0@ == fds[jj].ident@);
                    }
                }
                lemma_fenv_find_at(fenvg, fds[k as int].ident@, 5 + k as int);
                assert(fenv_find(fenvg, fds[k as int].ident@) == Some((5 + k) as usize));
            }
            let fd = &prog.functions[k];
            let ghost pre = *self;
            self.compile_fndef(fd);
            proof {
                assert(rets_of(self.md.funcs@) =~= retsg);
                assert(strings_view(self.md.strings@) == strings_after(
                    fds,
                    k as int + 1,
                    fenvg,
                    retsg,
                    Seq::empty(),
                ));
                assert(labeled_views(self.md.funcs@[5 + k as int].blocks@) == lower_fn(
                    fds[k as int],
                    fenvg,
                    retsg,
                    strings_after(fds, k as int, fenvg, retsg, Seq::empty()),
                ).0);
            }
            k += 1;
        }
    }
}

/// Equality of builders except the blocks under construction, the cursor
/// and the register counter.
pub open spec fn self_eq_but_blocks(a: Backend, b: Backend) -> bool {
    b.md == a.md && b.fenv == a.fenv && b.venv == a.venv
}

/// Equality of builders except the module's string table.
pub open spec fn self_eq_but_strings(a: Backend, b: Backend) -> bool {
    b.md.name == a.md.name && b.md.funcs == a.md.funcs && b.fenv == a.fenv && b.venv == a.venv
        && b.blocks == a.blocks && b.curr_block == a.curr_block && b.next_reg == a.next_reg
}

} // verus!
