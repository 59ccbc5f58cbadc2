//! The SSA intermediate representation the code generator emits: functions
//! of basic blocks holding float instructions, with explicit terminators.
//!
//! Well-formedness (`func_wf`) is what an IR verifier checks of the shape:
//! every operand refers to a value that exists and has the right type,
//! every jump targets an existing block, every call names a module
//! function with matching arity, every block ends in a terminator, and
//! every return yields a float.

use vstd::prelude::*;

use crate::parser::valid_num_literal;

verus! {

/// A value an instruction reads: a float constant kept as its literal
/// text, a function parameter, or the result of instruction `k` of block
/// `b`.
#[derive(Debug, Clone)]
pub enum Operand {
    Const(String),
    Param(usize),
    Reg(usize, usize),
}

/// The type of a value: every expression is a 64-bit float; comparisons
/// yield one bit; a store yields nothing.
#[derive(Debug, Clone, Copy, PartialEq, Eq, Structural)]
pub enum Ty {
    F64,
    I1,
    Void,
}

/// One instruction. All arithmetic is on floats; `FCmpUlt` is the
/// unordered less-than behind `<`; `FCmpOne` is the ordered not-equal
/// against 0.0 used for truthiness; `UiToFp` widens a comparison bit back
/// to 0.0 or 1.0.
#[derive(Debug, Clone)]
pub enum Inst {
    FAdd(Operand, Operand),
    FSub(Operand, Operand),
    FMul(Operand, Operand),
    FCmpUlt(Operand, Operand),
    FCmpOne(Operand, Operand),
    UiToFp(Operand),
    Call(String, Vec<Operand>),
    Load(usize),
    Store(usize, Operand),
    Phi(Vec<(Operand, usize)>),
}

/// How a block ends.
#[derive(Debug, Clone)]
pub enum Term {
    Br(usize),
    CondBr(Operand, usize, usize),
    Ret(Operand),
}

/// A basic block: instructions and, once the block is finished, its
/// terminator.
#[derive(Debug, Clone)]
pub struct Block {
    pub insts: Vec<Inst>,
    pub term: Option<Term>,
}

/// A function: parameter names, entry-block stack slots (one per alloca,
/// in creation order), and blocks. A function without blocks is a
/// declaration.
#[derive(Debug, Clone)]
pub struct IrFunction {
    pub name: String,
    pub params: Vec<String>,
    pub slots: Vec<String>,
    pub blocks: Vec<Block>,
}

/// A module: functions and declarations, names distinct.
#[derive(Debug, Clone)]
pub struct IrModule {
    pub name: String,
    pub funcs: Vec<IrFunction>,
}

// ---------------------------------------------------------------------------
// Typing and well-formedness.
// ---------------------------------------------------------------------------

/// The type of the value an instruction produces.
pub open spec fn inst_ty(i: Inst) -> Ty {
    match i {
        Inst::FCmpUlt(_, _) => Ty::I1,
        Inst::FCmpOne(_, _) => Ty::I1,
        Inst::Store(_, _) => Ty::Void,
        _ => Ty::F64,
    }
}

/// An operand is well-formed at type `ty` in function `f`.
pub open spec fn operand_wf(f: IrFunction, o: Operand, ty: Ty) -> bool {
    match o {
        Operand::Const(s) => ty == Ty::F64 && valid_num_literal(s@),
        Operand::Param(i) => ty == Ty::F64 && i < f.params@.len(),
        Operand::Reg(b, k) => b < f.blocks@.len() && k < f.blocks@[b as int].insts@.len()
            && inst_ty(f.blocks@[b as int].insts@[k as int]) == ty,
    }
}

/// Index of the function with the given name among `fs`, or -1.
pub open spec fn find_func(fs: Seq<IrFunction>, name: Seq<char>) -> int
    decreases fs.len(),
{
    if fs.len() == 0 {
        -1
    } else if fs.last().name@ == name {
        fs.len() - 1
    } else {
        find_func(fs.drop_last(), name)
    }
}

pub open spec fn module_has(m: IrModule, name: Seq<char>) -> bool {
    find_func(m.funcs@, name) >= 0
}

/// Arity of the module function with the given name.
pub open spec fn module_arity(m: IrModule, name: Seq<char>) -> nat
    recommends
        module_has(m, name),
{
    m.funcs@[find_func(m.funcs@, name)].params@.len()
}

pub proof fn lemma_find_func_bounds(fs: Seq<IrFunction>, name: Seq<char>)
    ensures
        -1 <= find_func(fs, name) < fs.len(),
        find_func(fs, name) >= 0 ==> fs[find_func(fs, name)].name@ == name,
        find_func(fs, name) == -1 ==> forall|i: int|
            0 <= i < fs.len() ==> (#[trigger] fs[i]).name@ != name,
    decreases fs.len(),
{
    if fs.len() > 0 && fs.last().name@ != name {
        lemma_find_func_bounds(fs.drop_last(), name);
        assert(forall|i: int| 0 <= i < fs.len() - 1 ==> fs[i] == fs.drop_last()[i]);
    }
}

/// Appending a function leaves every other name's entry where it was.
pub proof fn lemma_find_func_push(fs: Seq<IrFunction>, f: IrFunction, name: Seq<char>)
    ensures
        f.name@ == name ==> find_func(fs.push(f), name) == fs.len(),
        f.name@ != name ==> find_func(fs.push(f), name) == find_func(fs, name),
{
    assert(fs.push(f).drop_last() =~= fs);
    assert(fs.push(f).last() == f);
}

/// Replacing a function by one with the same name leaves every name's
/// entry index where it was.
pub proof fn lemma_find_func_update(
    fs: Seq<IrFunction>,
    i: int,
    f: IrFunction,
    name: Seq<char>,
)
    requires
        0 <= i < fs.len(),
        fs[i].name@ == f.name@,
    ensures
        find_func(fs.update(i, f), name) == find_func(fs, name),
    decreases fs.len(),
{
    let fs2 = fs.update(i, f);
    if i == fs.len() - 1 {
        assert(fs2.last() == f);
        assert(fs2.drop_last() =~= fs.drop_last());
    } else {
        assert(fs2.last() == fs.last());
        assert(fs2.drop_last() =~= fs.drop_last().update(i, f));
        lemma_find_func_update(fs.drop_last(), i, f, name);
    }
}

/// An instruction is well-formed in function `f` under module `m`.
pub open spec fn inst_wf(f: IrFunction, i: Inst, m: IrModule) -> bool {
    match i {
        Inst::FAdd(a, b) => operand_wf(f, a, Ty::F64) && operand_wf(f, b, Ty::F64),
        Inst::FSub(a, b) => operand_wf(f, a, Ty::F64) && operand_wf(f, b, Ty::F64),
        Inst::FMul(a, b) => operand_wf(f, a, Ty::F64) && operand_wf(f, b, Ty::F64),
        Inst::FCmpUlt(a, b) => operand_wf(f, a, Ty::F64) && operand_wf(f, b, Ty::F64),
        Inst::FCmpOne(a, b) => operand_wf(f, a, Ty::F64) && operand_wf(f, b, Ty::F64),
        Inst::UiToFp(a) => operand_wf(f, a, Ty::I1),
        Inst::Call(name, args) => module_has(m, name@) && module_arity(m, name@) == args@.len()
            && forall|j: int|
            0 <= j < args@.len() ==> operand_wf(f, #[trigger] args@[j], Ty::F64),
        Inst::Load(s) => s < f.slots@.len(),
        Inst::Store(s, v) => s < f.slots@.len() && operand_wf(f, v, Ty::F64),
        Inst::Phi(inc) => inc@.len() >= 1 && forall|j: int|
            0 <= j < inc@.len() ==> operand_wf(f, (#[trigger] inc@[j]).0, Ty::F64) && inc@[j].1
                < f.blocks@.len(),
    }
}

/// A terminator is well-formed in function `f`.
pub open spec fn term_wf(f: IrFunction, t: Term) -> bool {
    match t {
        Term::Br(b) => b < f.blocks@.len(),
        Term::CondBr(c, b1, b2) => operand_wf(f, c, Ty::I1) && b1 < f.blocks@.len() && b2
            < f.blocks@.len(),
        Term::Ret(v) => operand_wf(f, v, Ty::F64),
    }
}

/// A block's instructions and terminator (if present) are well-formed.
pub open spec fn block_wf(f: IrFunction, b: Block, m: IrModule) -> bool {
    &&& forall|j: int| 0 <= j < b.insts@.len() ==> inst_wf(f, #[trigger] b.insts@[j], m)
    &&& match b.term {
        Some(t) => term_wf(f, t),
        None => true,
    }
}

/// Well-formedness while a function is still being built: every block
/// written so far is well-formed, but blocks may still lack terminators.
pub open spec fn func_wf_partial(f: IrFunction, m: IrModule) -> bool {
    forall|i: int| 0 <= i < f.blocks@.len() ==> block_wf(f, #[trigger] f.blocks@[i], m)
}

/// A finished function passes IR verification: well-formed throughout,
/// with at least one block and a terminator closing every block. Since
/// every `Ret` operand is a float, every such function returns a float.
///
/// Two checks of a full IR verifier are not formalized here: that a
/// phi's incoming blocks are exactly its block's predecessors, and that
/// every value definition dominates its uses. The lowering model
/// (`crate::codegen::spec_lower`) pins the emitted phi edges and value
/// references exactly, which is how those properties are carried.
pub open spec fn func_wf(f: IrFunction, m: IrModule) -> bool {
    &&& func_wf_partial(f, m)
    &&& f.blocks@.len() >= 1
    &&& forall|i: int| 0 <= i < f.blocks@.len() ==> (#[trigger] f.blocks@[i]).term is Some
}

/// Every module entry is a declaration or a verified function, and names
/// are distinct.
pub open spec fn module_wf(m: IrModule) -> bool {
    &&& forall|i: int, j: int|
        0 <= i < j < m.funcs@.len() ==> (#[trigger] m.funcs@[i]).name@ != (
        #[trigger] m.funcs@[j]).name@
    &&& forall|i: int|
        0 <= i < m.funcs@.len() ==> ((#[trigger] m.funcs@[i]).blocks@.len() == 0 || func_wf(
            m.funcs@[i],
            m,
        ))
}

// ---------------------------------------------------------------------------
// Growth: appending instructions, blocks and slots, or appending module
// declarations, preserves well-formedness of what was already there.
// ---------------------------------------------------------------------------

/// `f2` is `f1` grown monotonically: same name and parameters, more
/// slots, more blocks, each old block extended only at its end, and a
/// terminator never changed once set.
pub open spec fn func_extends(f2: IrFunction, f1: IrFunction) -> bool {
    &&& f2.name == f1.name
    &&& f2.params@ == f1.params@
    &&& f1.slots@.is_prefix_of(f2.slots@)
    &&& f2.blocks@.len() >= f1.blocks@.len()
    &&& forall|i: int|
        0 <= i < f1.blocks@.len() ==> (#[trigger] f1.blocks@[i]).insts@.is_prefix_of(
            f2.blocks@[i].insts@,
        ) && (f1.blocks@[i].term is Some ==> f2.blocks@[i].term == f1.blocks@[i].term)
}

pub proof fn lemma_func_extends_trans(f3: IrFunction, f2: IrFunction, f1: IrFunction)
    requires
        func_extends(f3, f2),
        func_extends(f2, f1),
    ensures
        func_extends(f3, f1),
{
}

/// `m2` is `m1` with declarations appended.
pub open spec fn module_extends(m2: IrModule, m1: IrModule) -> bool {
    &&& m2.name == m1.name
    &&& m1.funcs@.is_prefix_of(m2.funcs@)
}

pub proof fn lemma_module_extends_trans(m3: IrModule, m2: IrModule, m1: IrModule)
    requires
        module_extends(m3, m2),
        module_extends(m2, m1),
    ensures
        module_extends(m3, m1),
{
}

/// Function names are pairwise distinct.
pub open spec fn names_distinct(fs: Seq<IrFunction>) -> bool {
    forall|i: int, j: int|
        0 <= i < j < fs.len() ==> (#[trigger] fs[i]).name@ != (#[trigger] fs[j]).name@
}

/// Existing lookups survive appends of fresh names.
pub proof fn lemma_module_extends_find(m2: IrModule, m1: IrModule, name: Seq<char>)
    requires
        module_extends(m2, m1),
        names_distinct(m2.funcs@),
        find_func(m1.funcs@, name) >= 0,
    ensures
        find_func(m2.funcs@, name) == find_func(m1.funcs@, name),
{
    lemma_find_func_bounds(m1.funcs@, name);
    lemma_find_func_bounds(m2.funcs@, name);
    let idx1 = find_func(m1.funcs@, name);
    assert(m1.funcs@ == m2.funcs@.subrange(0, m1.funcs@.len() as int));
    assert(m2.funcs@[idx1] == m1.funcs@[idx1]);
    let idx2 = find_func(m2.funcs@, name);
    if idx2 == -1 {
        assert(m2.funcs@[idx1].name@ != name);
        assert(false);
    }
    if idx2 != idx1 {
        assert(m2.funcs@[idx1].name@ == m2.funcs@[idx2].name@);
        assert(false);
    }
}

pub proof fn lemma_operand_wf_mono(f2: IrFunction, f1: IrFunction, o: Operand, ty: Ty)
    requires
        func_extends(f2, f1),
        operand_wf(f1, o, ty),
    ensures
        operand_wf(f2, o, ty),
{
    match o {
        Operand::Reg(b, k) => {
            assert(f1.blocks@[b as int].insts@ == f2.blocks@[b as int].insts@.subrange(
                0,
                f1.blocks@[b as int].insts@.len() as int,
            ));
            assert(f2.blocks@[b as int].insts@[k as int] == f1.blocks@[b as int].insts@[k as int]);
        },
        _ => {},
    }
}

pub proof fn lemma_inst_wf_mono(
    f2: IrFunction,
    f1: IrFunction,
    i: Inst,
    m2: IrModule,
    m1: IrModule,
)
    requires
        func_extends(f2, f1),
        module_extends(m2, m1),
        names_distinct(m2.funcs@),
        inst_wf(f1, i, m1),
    ensures
        inst_wf(f2, i, m2),
{
    match i {
        Inst::FAdd(a, b) => {
            lemma_operand_wf_mono(f2, f1, a, Ty::F64);
            lemma_operand_wf_mono(f2, f1, b, Ty::F64);
        },
        Inst::FSub(a, b) => {
            lemma_operand_wf_mono(f2, f1, a, Ty::F64);
            lemma_operand_wf_mono(f2, f1, b, Ty::F64);
        },
        Inst::FMul(a, b) => {
            lemma_operand_wf_mono(f2, f1, a, Ty::F64);
            lemma_operand_wf_mono(f2, f1, b, Ty::F64);
        },
        Inst::FCmpUlt(a, b) => {
            lemma_operand_wf_mono(f2, f1, a, Ty::F64);
            lemma_operand_wf_mono(f2, f1, b, Ty::F64);
        },
        Inst::FCmpOne(a, b) => {
            lemma_operand_wf_mono(f2, f1, a, Ty::F64);
            lemma_operand_wf_mono(f2, f1, b, Ty::F64);
        },
        Inst::UiToFp(a) => {
            lemma_operand_wf_mono(f2, f1, a, Ty::I1);
        },
        Inst::Call(name, args) => {
            lemma_module_extends_find(m2, m1, name@);
            lemma_find_func_bounds(m1.funcs@, name@);
            assert(m1.funcs@ == m2.funcs@.subrange(0, m1.funcs@.len() as int));
            assert(m2.funcs@[find_func(m1.funcs@, name@)] == m1.funcs@[find_func(
                m1.funcs@,
                name@,
            )]);
            assert forall|j: int| 0 <= j < args@.len() implies operand_wf(
                f2,
                #[trigger] args@[j],
                Ty::F64,
            ) by {
                lemma_operand_wf_mono(f2, f1, args@[j], Ty::F64);
            }
        },
        Inst::Load(_) => {
            assert(f1.slots@ == f2.slots@.subrange(0, f1.slots@.len() as int));
        },
        Inst::Store(s, v) => {
            assert(f1.slots@ == f2.slots@.subrange(0, f1.slots@.len() as int));
            lemma_operand_wf_mono(f2, f1, v, Ty::F64);
        },
        Inst::Phi(inc) => {
            assert forall|j: int|
                0 <= j < inc@.len() implies operand_wf(f2, (#[trigger] inc@[j]).0, Ty::F64)
                && inc@[j].1 < f2.blocks@.len() by {
                lemma_operand_wf_mono(f2, f1, inc@[j].0, Ty::F64);
            }
        },
    }
}

pub proof fn lemma_term_wf_mono(f2: IrFunction, f1: IrFunction, t: Term)
    requires
        func_extends(f2, f1),
        term_wf(f1, t),
    ensures
        term_wf(f2, t),
{
    match t {
        Term::CondBr(c, _, _) => lemma_operand_wf_mono(f2, f1, c, Ty::I1),
        Term::Ret(v) => lemma_operand_wf_mono(f2, f1, v, Ty::F64),
        _ => {},
    }
}

pub proof fn lemma_block_wf_mono(
    f2: IrFunction,
    f1: IrFunction,
    b: Block,
    m2: IrModule,
    m1: IrModule,
)
    requires
        func_extends(f2, f1),
        module_extends(m2, m1),
        names_distinct(m2.funcs@),
        block_wf(f1, b, m1),
    ensures
        block_wf(f2, b, m2),
{
    assert forall|j: int| 0 <= j < b.insts@.len() implies inst_wf(
        f2,
        #[trigger] b.insts@[j],
        m2,
    ) by {
        lemma_inst_wf_mono(f2, f1, b.insts@[j], m2, m1);
    }
    match b.term {
        Some(t) => lemma_term_wf_mono(f2, f1, t),
        None => {},
    }
}

/// Well-formedness depends on the module only through its function list.
pub proof fn lemma_wf_same_funcs(f: IrFunction, m1: IrModule, m2: IrModule)
    requires
        m2.funcs@ == m1.funcs@,
        func_wf(f, m1),
    ensures
        func_wf(f, m2),
{
}

// ---------------------------------------------------------------------------
// Ghost twins: the same IR over mathematical sequences, so contracts can
// state exactly which instructions a lowering emits.
// ---------------------------------------------------------------------------

/// Ghost twin of `Operand`.
pub enum SpecOperand {
    Const(Seq<char>),
    Param(int),
    Reg(int, int),
}

/// Ghost twin of `Inst`.
pub enum SpecInst {
    FAdd(SpecOperand, SpecOperand),
    FSub(SpecOperand, SpecOperand),
    FMul(SpecOperand, SpecOperand),
    FCmpUlt(SpecOperand, SpecOperand),
    FCmpOne(SpecOperand, SpecOperand),
    UiToFp(SpecOperand),
    Call(Seq<char>, Seq<SpecOperand>),
    Load(int),
    Store(int, SpecOperand),
    Phi(Seq<(SpecOperand, int)>),
}

/// Ghost twin of `Term`.
pub enum SpecTerm {
    Br(int),
    CondBr(SpecOperand, int, int),
    Ret(SpecOperand),
}

/// Ghost twin of `Block`.
#[verifier::ext_equal]
pub struct SpecBlock {
    pub insts: Seq<SpecInst>,
    pub term: Option<SpecTerm>,
}

/// Ghost twin of `IrFunction`.
#[verifier::ext_equal]
pub struct SpecFunc {
    pub name: Seq<char>,
    pub params: Seq<Seq<char>>,
    pub slots: Seq<Seq<char>>,
    pub blocks: Seq<SpecBlock>,
}

impl View for Operand {
    type V = SpecOperand;

    open spec fn view(&self) -> SpecOperand {
        match self {
            Operand::Const(s) => SpecOperand::Const(s@),
            Operand::Param(i) => SpecOperand::Param(*i as int),
            Operand::Reg(b, k) => SpecOperand::Reg(*b as int, *k as int),
        }
    }
}

impl View for Inst {
    type V = SpecInst;

    open spec fn view(&self) -> SpecInst {
        match self {
            Inst::FAdd(a, b) => SpecInst::FAdd(a@, b@),
            Inst::FSub(a, b) => SpecInst::FSub(a@, b@),
            Inst::FMul(a, b) => SpecInst::FMul(a@, b@),
            Inst::FCmpUlt(a, b) => SpecInst::FCmpUlt(a@, b@),
            Inst::FCmpOne(a, b) => SpecInst::FCmpOne(a@, b@),
            Inst::UiToFp(a) => SpecInst::UiToFp(a@),
            Inst::Call(n, args) => SpecInst::Call(n@, args@.map_values(|o: Operand| o@)),
            Inst::Load(s) => SpecInst::Load(*s as int),
            Inst::Store(s, v) => SpecInst::Store(*s as int, v@),
            Inst::Phi(inc) => SpecInst::Phi(
                inc@.map_values(|p: (Operand, usize)| (p.0@, p.1 as int)),
            ),
        }
    }
}

impl View for Term {
    type V = SpecTerm;

    open spec fn view(&self) -> SpecTerm {
        match self {
            Term::Br(b) => SpecTerm::Br(*b as int),
            Term::CondBr(c, t, e) => SpecTerm::CondBr(c@, *t as int, *e as int),
            Term::Ret(v) => SpecTerm::Ret(v@),
        }
    }
}

impl View for Block {
    type V = SpecBlock;

    open spec fn view(&self) -> SpecBlock {
        SpecBlock {
            insts: self.insts@.map_values(|i: Inst| i@),
            term: match self.term {
                Some(t) => Some(t@),
                None => None,
            },
        }
    }
}

impl View for IrFunction {
    type V = SpecFunc;

    open spec fn view(&self) -> SpecFunc {
        SpecFunc {
            name: self.name@,
            params: self.params@.map_values(|p: String| p@),
            slots: self.slots@.map_values(|s: String| s@),
            blocks: self.blocks@.map_values(|b: Block| b@),
        }
    }
}

} // verus!
