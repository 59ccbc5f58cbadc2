//! The code generator: lowers syntax trees into the IR of `crate::ir`.
//!
//! The central contracts: lowering an expression succeeds exactly when the
//! expression is closed under the session's variables and functions
//! (`expr_ok`), it only grows the current function and the module, and
//! everything it emits is well-formed — so a finished function passes IR
//! verification (`func_wf`) by construction.

use vstd::prelude::*;

use crate::ast::args_view;
use crate::ast::ast_view;
use crate::ast::is_expr;
use crate::ast::PrototypeAST;
use crate::ast::SpecAst;
use crate::ir::block_wf;
use crate::ir::find_func;
use crate::ir::func_extends;
use crate::ir::func_wf;
use crate::ir::func_wf_partial;
use crate::ir::inst_ty;
use crate::ir::inst_wf;
use crate::ir::lemma_block_wf_mono;
use crate::ir::lemma_find_func_bounds;
use crate::ir::lemma_find_func_push;
use crate::ir::lemma_find_func_update;
use crate::ir::lemma_func_extends_trans;
use crate::ir::lemma_module_extends_find;
use crate::ir::lemma_module_extends_trans;
use crate::ir::module_arity;
use crate::ir::module_extends;
use crate::ir::module_has;
use crate::ir::module_wf;
use crate::ir::names_distinct;
use crate::ir::operand_wf;
use crate::ir::term_wf;
use crate::ir::Block;
use crate::ir::Inst;
use crate::ir::IrFunction;
use crate::ir::IrModule;
use crate::ir::Operand;
use crate::ir::Term;
use crate::ir::Ty;
use crate::parser::valid_num_literal;
use crate::State;
use crate::ast::AST;
use crate::lexer::push_char;

verus! {

/// Why lowering failed.
#[derive(Debug, Clone, Copy, PartialEq, Eq, Structural)]
pub enum CodegenError {
    /// A variable was read or assigned outside any binding of its name.
    UnknownVariable,
    /// A call, or a user-defined operator use, names a function that is
    /// neither in the module nor in the prototype registry.
    UnknownFunction,
    /// A call passes a number of arguments different from the callee's
    /// parameter count, or a user-defined operator definition does not
    /// take exactly its one or two operands.
    IncorrectArguments,
    /// The left side of `=` is not a plain variable.
    AssignTargetNotVariable,
    /// A numeric literal in the tree does not denote a float.
    MalformedNumberLiteral,
    /// A definition for a name that already has a body, or whose
    /// parameter count differs from the declaration already emitted.
    FunctionRedefined,
    /// A prototype or definition node stood where an expression was
    /// needed.
    NotAnExpression,
}

// ---------------------------------------------------------------------------
// Name lookups.
// ---------------------------------------------------------------------------

/// The stack slot bound to a variable: the innermost (latest) binding.
pub open spec fn lookup_slot(nv: Seq<(String, usize)>, x: Seq<char>) -> int
    decreases nv.len(),
{
    if nv.len() == 0 {
        -1
    } else if nv.last().0@ == x {
        nv.last().1 as int
    } else {
        lookup_slot(nv.drop_last(), x)
    }
}

pub open spec fn var_bound(nv: Seq<(String, usize)>, x: Seq<char>) -> bool {
    lookup_slot(nv, x) >= 0
}

/// The set of variable names in scope.
pub open spec fn scope_of(nv: Seq<(String, usize)>) -> Set<Seq<char>> {
    Set::new(|x: Seq<char>| var_bound(nv, x))
}

/// The registry entry for a name: the newest prototype wins.
pub open spec fn proto_find(ps: Seq<PrototypeAST>, name: Seq<char>) -> int
    decreases ps.len(),
{
    if ps.len() == 0 {
        -1
    } else if ps.last().name@ == name {
        ps.len() - 1
    } else {
        proto_find(ps.drop_last(), name)
    }
}

/// Arity under which a call to `name` resolves: the module declaration
/// wins over the registry; -1 when the name is unknown.
pub open spec fn known_arity(m: IrModule, ps: Seq<PrototypeAST>, name: Seq<char>) -> int {
    if module_has(m, name) {
        module_arity(m, name) as int
    } else if proto_find(ps, name) >= 0 {
        ps[proto_find(ps, name)].args@.len() as int
    } else {
        -1
    }
}

/// The name a unary operator's handler function bears.
pub open spec fn unary_fn_name(op: char) -> Seq<char> {
    seq!['u', 'n', 'a', 'r', 'y'].push(op)
}

/// The name a binary operator's handler function bears.
pub open spec fn binary_fn_name(op: char) -> Seq<char> {
    seq!['b', 'i', 'n', 'a', 'r', 'y'].push(op)
}

// ---------------------------------------------------------------------------
// When lowering succeeds: the expression is closed under the scope and
// the known functions.
// ---------------------------------------------------------------------------

/// Names bound after a `var` binding list is installed.
pub open spec fn bind_names(vars: Set<Seq<char>>, bs: Seq<(Seq<char>, Option<SpecAst>)>) -> Set<
    Seq<char>,
>
    decreases bs.len(),
{
    if bs.len() == 0 {
        vars
    } else {
        bind_names(vars, bs.drop_last()).insert(bs.last().0)
    }
}

/// Lowering an expression succeeds exactly under these conditions.
pub open spec fn expr_ok(
    e: SpecAst,
    vars: Set<Seq<char>>,
    m: IrModule,
    ps: Seq<PrototypeAST>,
) -> bool
    decreases e,
{
    match e {
        SpecAst::Number(lit) => valid_num_literal(lit),
        SpecAst::Variable(x) => vars.contains(x),
        SpecAst::Unary { op, operand } => known_arity(m, ps, unary_fn_name(op)) == 1 && expr_ok(
            *operand,
            vars,
            m,
            ps,
        ),
        SpecAst::Binary { op, lhs, rhs } => if op == '=' {
            &&& *lhs is Variable
            &&& vars.contains(lhs->Variable_0)
            &&& expr_ok(*rhs, vars, m, ps)
        } else if op == '+' || op == '-' || op == '*' || op == '<' {
            expr_ok(*lhs, vars, m, ps) && expr_ok(*rhs, vars, m, ps)
        } else {
            &&& expr_ok(*lhs, vars, m, ps)
            &&& expr_ok(*rhs, vars, m, ps)
            &&& known_arity(m, ps, binary_fn_name(op)) == 2
        },
        SpecAst::Call { callee, args } => {
            &&& known_arity(m, ps, callee) == args.len()
            &&& args_ok(args, vars, m, ps)
        },
        SpecAst::If { cond, then_expr, else_expr } => {
            &&& expr_ok(*cond, vars, m, ps)
            &&& expr_ok(*then_expr, vars, m, ps)
            &&& expr_ok(*else_expr, vars, m, ps)
        },
        SpecAst::For { name, start, end, step, body } => {
            &&& expr_ok(*start, vars, m, ps)
            &&& expr_ok(*body, vars.insert(name), m, ps)
            &&& match step {
                Some(s) => expr_ok(*s, vars.insert(name), m, ps),
                None => true,
            }
            &&& expr_ok(*end, vars.insert(name), m, ps)
        },
        SpecAst::Var { bindings, body } => {
            &&& inits_ok(bindings, vars, m, ps)
            &&& expr_ok(*body, bind_names(vars, bindings), m, ps)
        },
        SpecAst::Prototype(_) => false,
        SpecAst::Function { .. } => false,
    }
}

/// Every argument of a call can be lowered.
pub open spec fn args_ok(
    args: Seq<SpecAst>,
    vars: Set<Seq<char>>,
    m: IrModule,
    ps: Seq<PrototypeAST>,
) -> bool
    decreases args,
{
    if args.len() == 0 {
        true
    } else {
        args_ok(args.drop_last(), vars, m, ps) && expr_ok(args.last(), vars, m, ps)
    }
}

/// Every initializer of a `var` can be lowered in the enclosing scope.
pub open spec fn inits_ok(
    bs: Seq<(Seq<char>, Option<SpecAst>)>,
    vars: Set<Seq<char>>,
    m: IrModule,
    ps: Seq<PrototypeAST>,
) -> bool
    decreases bs,
{
    if bs.len() == 0 {
        true
    } else {
        inits_ok(bs.drop_last(), vars, m, ps) && match bs.last().1 {
            Some(e) => expr_ok(e, vars, m, ps),
            None => true,
        }
    }
}

// ---------------------------------------------------------------------------
// The builder invariant and frame.
// ---------------------------------------------------------------------------

impl State {
    /// The code generator's standing invariant: a well-formed module, a
    /// partially well-formed function under construction with a valid
    /// current block, and scope entries pointing at real slots.
    pub open spec fn cg_inv(&self) -> bool {
        &&& module_wf(self.module)
        &&& self.cur_block < self.cur_func.blocks@.len()
        &&& func_wf_partial(self.cur_func, self.module)
        &&& forall|i: int|
            0 <= i < self.named_values@.len() ==> (#[trigger] self.named_values@[i]).1
                < self.cur_func.slots@.len()
    }

    /// The block instructions are currently appended to.
    pub open spec fn cur_term_none(&self) -> bool {
        self.cur_func.blocks@[self.cur_block as int].term is None
    }
}

/// Fields of the session the code generator never touches.
pub open spec fn front_eq(a: State, b: State) -> bool {
    &&& a.input == b.input
    &&& a.pos == b.pos
    &&& a.cur_tok == b.cur_tok
    &&& a.binop_precedence == b.binop_precedence
}

/// The block-termination frame of one expression lowering step: blocks
/// other than the current one keep their terminators; if the current
/// block moved, the old one was finished; new blocks other than the new
/// current one are finished.
pub open spec fn term_frame(pre: State, post: State) -> bool {
    &&& forall|i: int|
        0 <= i < pre.cur_func.blocks@.len() && i != pre.cur_block ==> (
        #[trigger] post.cur_func.blocks@[i]).term == pre.cur_func.blocks@[i].term
    &&& (pre.cur_block != post.cur_block ==> post.cur_func.blocks@[pre.cur_block as int].term
        is Some)
    &&& forall|i: int|
        pre.cur_func.blocks@.len() <= i < post.cur_func.blocks@.len() && i != post.cur_block
            ==> (#[trigger] post.cur_func.blocks@[i]).term is Some
}

// ---------------------------------------------------------------------------
// Builder primitives.
// ---------------------------------------------------------------------------

/// Append an instruction to the current block; the result names the value.
fn emit(state: &mut State, inst: Inst) -> (r: (usize, usize))
    requires
        old(state).cg_inv(),
        old(state).cur_term_none(),
        inst_wf(old(state).cur_func, inst, old(state).module),
    ensures
        final(state).cg_inv(),
        final(state).cur_term_none(),
        front_eq(*old(state), *final(state)),
        final(state).module == old(state).module,
        final(state).named_values == old(state).named_values,
        final(state).function_protos == old(state).function_protos,
        final(state).cur_block == old(state).cur_block,
        func_extends(final(state).cur_func, old(state).cur_func),
        final(state).cur_func.blocks@.len() == old(state).cur_func.blocks@.len(),
        final(state).cur_func.slots@ == old(state).cur_func.slots@,
        forall|i: int|
            0 <= i < old(state).cur_func.blocks@.len() && i != old(state).cur_block ==> (
            #[trigger] final(state).cur_func.blocks@[i]) == old(state).cur_func.blocks@[i],
        final(state).cur_func.blocks@[old(state).cur_block as int].insts@ == old(
            state,
        ).cur_func.blocks@[old(state).cur_block as int].insts@.push(inst),
        final(state).cur_func.blocks@[old(state).cur_block as int].term == old(
            state,
        ).cur_func.blocks@[old(state).cur_block as int].term,
        r.0 == old(state).cur_block,
        r.1 == old(state).cur_func.blocks@[old(state).cur_block as int].insts@.len(),
        operand_wf(final(state).cur_func, Operand::Reg(r.0, r.1), inst_ty(inst)),
        lstate(*final(state)) == g_emit(lstate(*old(state)), inst@),
        Operand::Reg(r.0, r.1)@ == g_reg(lstate(*old(state))),
{
    let b = state.cur_block;
    let ghost pre = *state;
    let i = state.cur_func.blocks[b].insts.len();
    state.cur_func.blocks[b].insts.push(inst);
    proof {
        assert(state.cur_func.blocks@[b as int].insts@ == pre.cur_func.blocks@[
            b as int
        ].insts@.push(inst));
        assert(state.cur_func.blocks@[b as int]@.insts =~= g_cur(lstate(pre)).insts.push(
            inst@,
        ));
        assert(state.cur_func@.blocks =~~= g_emit(lstate(pre), inst@).func.blocks);
        assert(lstate(*state) =~~= g_emit(lstate(pre), inst@));
        assert(pre.cur_func.blocks@[b as int].insts@.is_prefix_of(
            state.cur_func.blocks@[b as int].insts@,
        ));
        assert(func_extends(state.cur_func, pre.cur_func));
        assert forall|k: int|
            0 <= k < state.cur_func.blocks@.len() implies block_wf(
            state.cur_func,
            #[trigger] state.cur_func.blocks@[k],
            state.module,
        ) by {
            lemma_block_wf_mono(
                state.cur_func,
                pre.cur_func,
                pre.cur_func.blocks@[k],
                state.module,
                pre.module,
            );
            if k == b {
                let blk = state.cur_func.blocks@[k];
                assert forall|j: int| 0 <= j < blk.insts@.len() implies inst_wf(
                    state.cur_func,
                    #[trigger] blk.insts@[j],
                    state.module,
                ) by {
                    if j < blk.insts@.len() - 1 {
                        assert(blk.insts@[j] == pre.cur_func.blocks@[k].insts@[j]);
                    } else {
                        assert(blk.insts@[j] == inst);
                        crate::ir::lemma_inst_wf_mono(
                            state.cur_func,
                            pre.cur_func,
                            inst,
                            state.module,
                            pre.module,
                        );
                    }
                }
            } else {
                assert(state.cur_func.blocks@[k] == pre.cur_func.blocks@[k]);
            }
        }
    }
    (b, i)
}

/// Append a fresh, empty, unterminated block and name it.
fn new_block(state: &mut State) -> (r: usize)
    requires
        old(state).cg_inv(),
    ensures
        final(state).cg_inv(),
        front_eq(*old(state), *final(state)),
        final(state).module == old(state).module,
        final(state).named_values == old(state).named_values,
        final(state).function_protos == old(state).function_protos,
        final(state).cur_block == old(state).cur_block,
        func_extends(final(state).cur_func, old(state).cur_func),
        final(state).cur_func.slots@ == old(state).cur_func.slots@,
        final(state).cur_func.blocks@.len() == old(state).cur_func.blocks@.len() + 1,
        forall|i: int|
            0 <= i < old(state).cur_func.blocks@.len() ==> (#[trigger] final(state).cur_func.blocks@[i]) == old(state).cur_func.blocks@[i],
        final(state).cur_func.blocks@.last().insts@ == Seq::<Inst>::empty(),
        final(state).cur_func.blocks@.last().term is None,
        r == old(state).cur_func.blocks@.len(),
        old(state).cur_term_none() ==> final(state).cur_term_none(),
        lstate(*final(state)) == g_newblock(lstate(*old(state))),
        r == g_nblocks(lstate(*old(state))),
{
    let r = state.cur_func.blocks.len();
    let ghost pre = *state;
    let b = Block { insts: Vec::new(), term: None };
    proof {
        assert(b.insts@ =~= Seq::<Inst>::empty());
    }
    state.cur_func.blocks.push(b);
    proof {
        assert(b@.insts =~= Seq::<crate::ir::SpecInst>::empty());
        assert(state.cur_func@.blocks =~~= g_newblock(lstate(pre)).func.blocks);
        assert(lstate(*state) =~~= g_newblock(lstate(pre)));
        assert(pre.cur_func.blocks@.is_prefix_of(state.cur_func.blocks@));
        assert forall|i: int|
            0 <= i < pre.cur_func.blocks@.len() implies (#[trigger] state.cur_func.blocks@[i])
            == pre.cur_func.blocks@[i] by {}
        assert(func_extends(state.cur_func, pre.cur_func));
        assert forall|k: int|
            0 <= k < state.cur_func.blocks@.len() implies block_wf(
            state.cur_func,
            #[trigger] state.cur_func.blocks@[k],
            state.module,
        ) by {
            if k < pre.cur_func.blocks@.len() {
                lemma_block_wf_mono(
                    state.cur_func,
                    pre.cur_func,
                    pre.cur_func.blocks@[k],
                    state.module,
                    pre.module,
                );
            }
        }
    }
    r
}

/// Finish the current block with a terminator.
fn set_term(state: &mut State, t: Term)
    requires
        old(state).cg_inv(),
        old(state).cur_term_none(),
        term_wf(old(state).cur_func, t),
    ensures
        final(state).cg_inv(),
        front_eq(*old(state), *final(state)),
        final(state).module == old(state).module,
        final(state).named_values == old(state).named_values,
        final(state).function_protos == old(state).function_protos,
        final(state).cur_block == old(state).cur_block,
        func_extends(final(state).cur_func, old(state).cur_func),
        final(state).cur_func.slots@ == old(state).cur_func.slots@,
        final(state).cur_func.blocks@.len() == old(state).cur_func.blocks@.len(),
        forall|i: int|
            0 <= i < old(state).cur_func.blocks@.len() && i != old(state).cur_block ==> (
            #[trigger] final(state).cur_func.blocks@[i]) == old(state).cur_func.blocks@[i],
        final(state).cur_func.blocks@[old(state).cur_block as int].insts == old(
            state,
        ).cur_func.blocks@[old(state).cur_block as int].insts,
        final(state).cur_func.blocks@[old(state).cur_block as int].term == Some(t),
        lstate(*final(state)) == g_close(lstate(*old(state)), t@),
{
    let b = state.cur_block;
    let ghost pre = *state;
    state.cur_func.blocks[b].term = Some(t);
    proof {
        assert(state.cur_func.blocks@[b as int]@.insts =~= g_cur(lstate(pre)).insts);
        assert(state.cur_func@.blocks =~~= g_close(lstate(pre), t@).func.blocks);
        assert(lstate(*state) =~~= g_close(lstate(pre), t@));
        assert(state.cur_func.blocks@[b as int].insts@.is_prefix_of(
            pre.cur_func.blocks@[b as int].insts@,
        ));
        assert(func_extends(state.cur_func, pre.cur_func));
        assert forall|k: int|
            0 <= k < state.cur_func.blocks@.len() implies block_wf(
            state.cur_func,
            #[trigger] state.cur_func.blocks@[k],
            state.module,
        ) by {
            lemma_block_wf_mono(
                state.cur_func,
                pre.cur_func,
                pre.cur_func.blocks@[k],
                state.module,
                pre.module,
            );
            if k == b {
                lemma_term_wf_mono_local(state.cur_func, pre.cur_func, t);
            }
        }
    }
}

proof fn lemma_term_wf_mono_local(f2: IrFunction, f1: IrFunction, t: Term)
    requires
        func_extends(f2, f1),
        term_wf(f1, t),
    ensures
        term_wf(f2, t),
{
    crate::ir::lemma_term_wf_mono(f2, f1, t);
}

/// Move the insertion point to an (unterminated) block.
fn position_at(state: &mut State, b: usize)
    requires
        old(state).cg_inv(),
        b < old(state).cur_func.blocks@.len(),
    ensures
        *final(state) == (State { cur_block: b, ..*old(state) }),
        final(state).cg_inv(),
        lstate(*final(state)) == g_move(lstate(*old(state)), b as int),
{
    state.cur_block = b;
    proof {
        assert(lstate(*state) =~~= g_move(lstate(*old(state)), b as int));
    }
}

/// Append an entry-block stack slot (an alloca) to the current function.
pub fn create_entry_block_alloca(state: &mut State, name: String) -> (r: usize)
    requires
        old(state).cg_inv(),
    ensures
        final(state).cg_inv(),
        front_eq(*old(state), *final(state)),
        final(state).module == old(state).module,
        final(state).named_values == old(state).named_values,
        final(state).function_protos == old(state).function_protos,
        final(state).cur_block == old(state).cur_block,
        func_extends(final(state).cur_func, old(state).cur_func),
        final(state).cur_func.blocks@ == old(state).cur_func.blocks@,
        final(state).cur_func.slots@ == old(state).cur_func.slots@.push(name),
        r == old(state).cur_func.slots@.len(),
        old(state).cur_term_none() ==> final(state).cur_term_none(),
        lstate(*final(state)) == g_alloca(lstate(*old(state)), name@),
        r == g_slot(lstate(*old(state))),
{
    let r = state.cur_func.slots.len();
    let ghost pre = *state;
    let ghost namev = name@;
    state.cur_func.slots.push(name);
    proof {
        assert(state.cur_func@.slots =~= g_alloca(lstate(pre), namev).func.slots);
        assert(state.cur_func@.blocks =~~= lstate(pre).func.blocks);
        assert(lstate(*state) =~~= g_alloca(lstate(pre), namev));
        assert(pre.cur_func.slots@.is_prefix_of(state.cur_func.slots@));
        assert forall|i: int|
            0 <= i < pre.cur_func.blocks@.len() implies (#[trigger] pre.cur_func.blocks@[
        i]).insts@.is_prefix_of(state.cur_func.blocks@[i].insts@) by {}
        assert(func_extends(state.cur_func, pre.cur_func));
        assert forall|k: int|
            0 <= k < state.cur_func.blocks@.len() implies block_wf(
            state.cur_func,
            #[trigger] state.cur_func.blocks@[k],
            state.module,
        ) by {
            lemma_block_wf_mono(
                state.cur_func,
                pre.cur_func,
                pre.cur_func.blocks@[k],
                state.module,
                pre.module,
            );
        }
    }
    r
}

// ---------------------------------------------------------------------------
// Composition facts.
// ---------------------------------------------------------------------------

/// Name resolution is unchanged between two states.
pub open spec fn arities_eq(pre: State, post: State) -> bool {
    forall|n: Seq<char>|
        known_arity(post.module, post.function_protos@, n) == known_arity(
            pre.module,
            pre.function_protos@,
            n,
        )
}

/// Block bookkeeping of one successful lowering step: the insertion point
/// stays or moves to a new block; blocks other than the old insertion
/// point keep their terminators; if the insertion point moved, the old
/// one was finished; new blocks other than the new insertion point are
/// finished; the new insertion point is open.
pub open spec fn cg_step_ok(pre: State, post: State) -> bool {
    &&& post.cur_block == pre.cur_block || post.cur_block >= pre.cur_func.blocks@.len()
    &&& post.cur_block < post.cur_func.blocks@.len()
    &&& post.cur_term_none()
    &&& (post.cur_block != pre.cur_block ==> post.cur_func.blocks@[pre.cur_block as int].term
        is Some)
    &&& forall|i: int|
        pre.cur_func.blocks@.len() <= i < post.cur_func.blocks@.len() && i != post.cur_block
            ==> (#[trigger] post.cur_func.blocks@[i]).term is Some
}

/// What lowering one expression guarantees of the session, besides the
/// result itself. The last argument tells whether the step succeeded.
pub open spec fn expr_cg_post(pre: State, post: State, okk: bool) -> bool {
    &&& post.cg_inv()
    &&& front_eq(pre, post)
    &&& post.function_protos == pre.function_protos
    &&& post.named_values@ == pre.named_values@
    &&& module_extends(post.module, pre.module)
    &&& arities_eq(pre, post)
    &&& func_extends(post.cur_func, pre.cur_func)
    &&& blocks_framed(pre, post)
    &&& (okk ==> cg_step_ok(pre, post))
}

/// Blocks other than the insertion point keep their terminators.
pub open spec fn blocks_framed(pre: State, post: State) -> bool {
    forall|i: int|
        0 <= i < pre.cur_func.blocks@.len() && i != pre.cur_block ==> (
        #[trigger] post.cur_func.blocks@[i]).term == pre.cur_func.blocks@[i].term
}

/// Framing across a successful step followed by any step.
pub proof fn lemma_cg_frame_err(s1: State, s2: State, s3: State)
    requires
        s1.cur_block < s1.cur_func.blocks@.len(),
        func_extends(s2.cur_func, s1.cur_func),
        blocks_framed(s1, s2),
        blocks_framed(s2, s3),
        cg_step_ok(s1, s2),
    ensures
        blocks_framed(s1, s3),
{
    assert forall|i: int|
        0 <= i < s1.cur_func.blocks@.len() && i != s1.cur_block implies (
    #[trigger] s3.cur_func.blocks@[i]).term == s1.cur_func.blocks@[i].term by {
        assert(i != s2.cur_block);
    }
}


/// Chaining two lowering steps.
pub proof fn lemma_cg_step_trans(s1: State, s2: State, s3: State)
    requires
        s1.cur_block < s1.cur_func.blocks@.len(),
        func_extends(s2.cur_func, s1.cur_func),
        func_extends(s3.cur_func, s2.cur_func),
        blocks_framed(s1, s2),
        blocks_framed(s2, s3),
        cg_step_ok(s1, s2),
        cg_step_ok(s2, s3),
    ensures
        cg_step_ok(s1, s3),
        blocks_framed(s1, s3),
{
    assert forall|i: int|
        0 <= i < s1.cur_func.blocks@.len() && i != s1.cur_block implies (
    #[trigger] s3.cur_func.blocks@[i]).term == s1.cur_func.blocks@[i].term by {
        assert(i != s2.cur_block);
    }
    if s3.cur_block != s1.cur_block {
        if s2.cur_block == s1.cur_block {
            assert(s3.cur_func.blocks@[s1.cur_block as int].term is Some);
        } else {
            assert(s2.cur_func.blocks@[s1.cur_block as int].term is Some);
            assert(s3.cur_func.blocks@[s1.cur_block as int].term == s2.cur_func.blocks@[
                s1.cur_block as int
            ].term);
        }
    }
    assert forall|i: int|
        s1.cur_func.blocks@.len() <= i < s3.cur_func.blocks@.len() && i != s3.cur_block implies (
    #[trigger] s3.cur_func.blocks@[i]).term is Some by {
        if i < s2.cur_func.blocks@.len() {
            if i == s2.cur_block {
                assert(s3.cur_func.blocks@[s2.cur_block as int].term is Some);
            } else {
                assert(s2.cur_func.blocks@[i].term is Some);
                assert(s3.cur_func.blocks@[i].term == s2.cur_func.blocks@[i].term);
            }
        }
    }
}

/// `expr_ok` consults only the scope and name resolution, so it carries
/// across states that resolve names identically.
pub proof fn lemma_expr_ok_arities(
    e: SpecAst,
    vars: Set<Seq<char>>,
    m1: IrModule,
    ps1: Seq<PrototypeAST>,
    m2: IrModule,
    ps2: Seq<PrototypeAST>,
)
    requires
        forall|n: Seq<char>| known_arity(m2, ps2, n) == known_arity(m1, ps1, n),
    ensures
        expr_ok(e, vars, m1, ps1) == expr_ok(e, vars, m2, ps2),
    decreases e,
{
    match e {
        SpecAst::Unary { op, operand } => {
            lemma_expr_ok_arities(*operand, vars, m1, ps1, m2, ps2);
        },
        SpecAst::Binary { op, lhs, rhs } => {
            lemma_expr_ok_arities(*lhs, vars, m1, ps1, m2, ps2);
            lemma_expr_ok_arities(*rhs, vars, m1, ps1, m2, ps2);
        },
        SpecAst::Call { callee, args } => {
            lemma_args_ok_arities(args, vars, m1, ps1, m2, ps2);
        },
        SpecAst::If { cond, then_expr, else_expr } => {
            lemma_expr_ok_arities(*cond, vars, m1, ps1, m2, ps2);
            lemma_expr_ok_arities(*then_expr, vars, m1, ps1, m2, ps2);
            lemma_expr_ok_arities(*else_expr, vars, m1, ps1, m2, ps2);
        },
        SpecAst::For { name, start, end, step, body } => {
            lemma_expr_ok_arities(*start, vars, m1, ps1, m2, ps2);
            lemma_expr_ok_arities(*body, vars.insert(name), m1, ps1, m2, ps2);
            match step {
                Some(st) => lemma_expr_ok_arities(*st, vars.insert(name), m1, ps1, m2, ps2),
                None => {},
            }
            lemma_expr_ok_arities(*end, vars.insert(name), m1, ps1, m2, ps2);
        },
        SpecAst::Var { bindings, body } => {
            lemma_inits_ok_arities(bindings, vars, m1, ps1, m2, ps2);
            lemma_expr_ok_arities(*body, bind_names(vars, bindings), m1, ps1, m2, ps2);
        },
        _ => {},
    }
}

pub proof fn lemma_args_ok_arities(
    args: Seq<SpecAst>,
    vars: Set<Seq<char>>,
    m1: IrModule,
    ps1: Seq<PrototypeAST>,
    m2: IrModule,
    ps2: Seq<PrototypeAST>,
)
    requires
        forall|n: Seq<char>| known_arity(m2, ps2, n) == known_arity(m1, ps1, n),
    ensures
        args_ok(args, vars, m1, ps1) == args_ok(args, vars, m2, ps2),
    decreases args,
{
    if args.len() > 0 {
        lemma_args_ok_arities(args.drop_last(), vars, m1, ps1, m2, ps2);
        lemma_expr_ok_arities(args.last(), vars, m1, ps1, m2, ps2);
    }
}

pub proof fn lemma_inits_ok_arities(
    bs: Seq<(Seq<char>, Option<SpecAst>)>,
    vars: Set<Seq<char>>,
    m1: IrModule,
    ps1: Seq<PrototypeAST>,
    m2: IrModule,
    ps2: Seq<PrototypeAST>,
)
    requires
        forall|n: Seq<char>| known_arity(m2, ps2, n) == known_arity(m1, ps1, n),
    ensures
        inits_ok(bs, vars, m1, ps1) == inits_ok(bs, vars, m2, ps2),
    decreases bs,
{
    if bs.len() > 0 {
        lemma_inits_ok_arities(bs.drop_last(), vars, m1, ps1, m2, ps2);
        match bs.last().1 {
            Some(e) => lemma_expr_ok_arities(e, vars, m1, ps1, m2, ps2),
            None => {},
        }
    }
}

/// `args_ok` elementwise.
pub proof fn lemma_args_ok_index(
    args: Seq<SpecAst>,
    vars: Set<Seq<char>>,
    m: IrModule,
    ps: Seq<PrototypeAST>,
)
    ensures
        args_ok(args, vars, m, ps) == (forall|i: int|
            0 <= i < args.len() ==> expr_ok(#[trigger] args[i], vars, m, ps)),
    decreases args,
{
    if args.len() > 0 {
        lemma_args_ok_index(args.drop_last(), vars, m, ps);
        assert(forall|i: int| 0 <= i < args.len() - 1 ==> args.drop_last()[i] == args[i]);
        assert(args.last() == args[args.len() - 1]);
    }
}

/// `inits_ok` elementwise.
pub proof fn lemma_inits_ok_index(
    bs: Seq<(Seq<char>, Option<SpecAst>)>,
    vars: Set<Seq<char>>,
    m: IrModule,
    ps: Seq<PrototypeAST>,
)
    ensures
        inits_ok(bs, vars, m, ps) == (forall|i: int|
            0 <= i < bs.len() ==> match (#[trigger] bs[i]).1 {
                Some(e) => expr_ok(e, vars, m, ps),
                None => true,
            }),
    decreases bs,
{
    if bs.len() > 0 {
        lemma_inits_ok_index(bs.drop_last(), vars, m, ps);
        assert(forall|i: int| 0 <= i < bs.len() - 1 ==> bs.drop_last()[i] == bs[i]);
        assert(bs.last() == bs[bs.len() - 1]);
    }
}

/// A binding found in scope points below the given bound if every entry
/// does.
pub proof fn lemma_lookup_slot_bound(nv: Seq<(String, usize)>, x: Seq<char>, bound: int)
    requires
        forall|i: int| 0 <= i < nv.len() ==> (#[trigger] nv[i]).1 < bound,
        lookup_slot(nv, x) >= 0,
    ensures
        lookup_slot(nv, x) < bound,
    decreases nv.len(),
{
    if nv.len() > 0 && nv.last().0@ != x {
        assert(forall|i: int| 0 <= i < nv.len() - 1 ==> nv.drop_last()[i] == nv[i]);
        lemma_lookup_slot_bound(nv.drop_last(), x, bound);
    }
}

/// Installing one binding extends the scope by exactly that name.
pub proof fn lemma_scope_push(nv: Seq<(String, usize)>, p: (String, usize))
    ensures
        scope_of(nv.push(p)) == scope_of(nv).insert(p.0@),
{
    assert(nv.push(p).last() == p);
    assert(nv.push(p).drop_last() =~= nv);
    assert forall|x: Seq<char>| scope_of(nv.push(p)).contains(x) == scope_of(nv).insert(
        p.0@,
    ).contains(x) by {
        assert(var_bound(nv.push(p), x) == (p.0@ == x || var_bound(nv, x)));
    }
    assert(scope_of(nv.push(p)) =~= scope_of(nv).insert(p.0@));
}

// ---------------------------------------------------------------------------
// Small executable helpers.
// ---------------------------------------------------------------------------

/// The innermost slot bound to a name, if any.
pub fn lookup_var(nv: &Vec<(String, usize)>, name: &String) -> (r: Option<usize>)
    ensures
        match r {
            Some(s) => lookup_slot(nv@, name@) == s,
            None => lookup_slot(nv@, name@) == -1,
        },
{
    let mut i = nv.len();
    proof {
        assert(nv@.subrange(0, i as int) =~= nv@);
    }
    while i > 0
        invariant
            i <= nv@.len(),
            lookup_slot(nv@, name@) == lookup_slot(nv@.subrange(0, i as int), name@),
        decreases i,
    {
        i = i - 1;
        proof {
            let pre = nv@.subrange(0, i + 1);
            assert(pre.last() == nv@[i as int]);
            assert(pre.drop_last() =~= nv@.subrange(0, i as int));
        }
        if nv[i].0.eq(name) {
            return Some(nv[i].1);
        }
    }
    proof {
        assert(nv@.subrange(0, 0).len() == 0);
    }
    None
}

/// A copy of an operand; only the literal text of a constant is fresh.
fn copy_operand(o: &Operand) -> (r: Operand)
    ensures
        match *o {
            Operand::Const(ref s) => r is Const && r->Const_0@ == s@,
            Operand::Param(i) => r == Operand::Param(i),
            Operand::Reg(a, b) => r == Operand::Reg(a, b),
        },
        forall|f: IrFunction, t: Ty| operand_wf(f, *o, t) == operand_wf(f, r, t),
        r@ == o@,
{
    match o {
        Operand::Const(s) => Operand::Const(s.clone()),
        Operand::Param(i) => Operand::Param(*i),
        Operand::Reg(a, b) => Operand::Reg(*a, *b),
    }
}

/// The float constant 0.0.
fn const_zero() -> (r: Operand)
    ensures
        r is Const,
        valid_num_literal(r->Const_0@),
        r@ == zero_op(),
{
    proof {
        reveal_strlit("0.0");
        lemma_three_char_literal("0.0"@);
        assert("0.0"@ =~= seq!['0', '.', '0']);
    }
    Operand::Const(String::from_str("0.0"))
}

/// The float constant 1.0: the default step of a `for`.
fn const_one() -> (r: Operand)
    ensures
        r is Const,
        valid_num_literal(r->Const_0@),
        r@ == one_op(),
{
    proof {
        reveal_strlit("1.0");
        lemma_three_char_literal("1.0"@);
        assert("1.0"@ =~= seq!['1', '.', '0']);
    }
    Operand::Const(String::from_str("1.0"))
}

/// A three-character literal digit-dot-digit denotes a float.
proof fn lemma_three_char_literal(s: Seq<char>)
    requires
        s.len() == 3,
        crate::lexer::is_digit_char(s[0]),
        s[1] == '.',
        crate::lexer::is_digit_char(s[2]),
    ensures
        valid_num_literal(s),
{
    assert(crate::parser::dot_count(s, 3) == 0);
    assert(crate::parser::dot_count(s, 2) == 0);
    assert(crate::parser::dot_count(s, 1) == 1);
    assert(crate::parser::dot_count(s, 0) == 1);
    assert(forall|i: int| 0 <= i < 3 ==> crate::lexer::is_num_char(#[trigger] s[i]));
}

/// Fresh copies of a parameter-name list.
fn clone_strings(v: &Vec<String>) -> (r: Vec<String>)
    ensures
        r@.len() == v@.len(),
        forall|i: int| 0 <= i < v@.len() ==> (#[trigger] r@[i])@ == v@[i]@,
{
    let mut r: Vec<String> = Vec::new();
    let mut i: usize = 0;
    while i < v.len()
        invariant
            i <= v@.len(),
            r@.len() == i,
            forall|j: int| 0 <= j < i ==> (#[trigger] r@[j])@ == v@[j]@,
        decreases v@.len() - i,
    {
        r.push(v[i].clone());
        i = i + 1;
    }
    r
}

/// The module entry with the given name, matching `find_func`.
pub fn find_func_exec(m: &IrModule, name: &String) -> (r: Option<usize>)
    ensures
        match r {
            Some(i) => find_func(m.funcs@, name@) == i,
            None => find_func(m.funcs@, name@) == -1,
        },
{
    let mut i = m.funcs.len();
    proof {
        assert(m.funcs@.subrange(0, i as int) =~= m.funcs@);
    }
    while i > 0
        invariant
            i <= m.funcs@.len(),
            find_func(m.funcs@, name@) == find_func(m.funcs@.subrange(0, i as int), name@),
        decreases i,
    {
        i = i - 1;
        proof {
            let pre = m.funcs@.subrange(0, i + 1);
            assert(pre.last() == m.funcs@[i as int]);
            assert(pre.drop_last() =~= m.funcs@.subrange(0, i as int));
        }
        if m.funcs[i].name.eq(name) {
            return Some(i);
        }
    }
    proof {
        assert(m.funcs@.subrange(0, 0).len() == 0);
    }
    None
}

/// The registry entry with the given name, matching `proto_find`.
fn proto_find_exec(ps: &Vec<PrototypeAST>, name: &String) -> (r: Option<usize>)
    ensures
        match r {
            Some(i) => proto_find(ps@, name@) == i,
            None => proto_find(ps@, name@) == -1,
        },
{
    let mut i = ps.len();
    proof {
        assert(ps@.subrange(0, i as int) =~= ps@);
    }
    while i > 0
        invariant
            i <= ps@.len(),
            proto_find(ps@, name@) == proto_find(ps@.subrange(0, i as int), name@),
        decreases i,
    {
        i = i - 1;
        proof {
            let pre = ps@.subrange(0, i + 1);
            assert(pre.last() == ps@[i as int]);
            assert(pre.drop_last() =~= ps@.subrange(0, i as int));
        }
        if ps[i].name.eq(name) {
            return Some(i);
        }
    }
    proof {
        assert(ps@.subrange(0, 0).len() == 0);
    }
    None
}

/// Resolve a function by name: the module's own entry, or a declaration
/// materialized on demand from the prototype registry.
pub fn get_function(state: &mut State, name: &String) -> (r: Result<usize, CodegenError>)
    requires
        old(state).cg_inv(),
    ensures
        final(state).cg_inv(),
        front_eq(*old(state), *final(state)),
        final(state).function_protos == old(state).function_protos,
        final(state).named_values == old(state).named_values,
        final(state).cur_func == old(state).cur_func,
        final(state).cur_block == old(state).cur_block,
        module_extends(final(state).module, old(state).module),
        arities_eq(*old(state), *final(state)),
        match r {
            Ok(i) => {
                &&& known_arity(old(state).module, old(state).function_protos@, name@) >= 0
                &&& i < final(state).module.funcs@.len()
                &&& find_func(final(state).module.funcs@, name@) == i
                &&& final(state).module.funcs@[i as int].name@ == name@
                &&& final(state).module.funcs@[i as int].params@.len() as int == known_arity(
                    old(state).module,
                    old(state).function_protos@,
                    name@,
                )
            },
            Err(e) => {
                &&& e == CodegenError::UnknownFunction
                &&& known_arity(old(state).module, old(state).function_protos@, name@) == -1
                &&& *final(state) == *old(state)
            },
        },
{
    let ghost pre = *state;
    match find_func_exec(&state.module, name) {
        Some(i) => {
            proof {
                lemma_find_func_bounds(state.module.funcs@, name@);
            }
            Ok(i)
        },
        None => {
            match proto_find_exec(&state.function_protos, name) {
                Some(j) => {
                    proof {
                        lemma_proto_find_bounds(state.function_protos@, name@);
                    }
                    let (fname, fparams) = {
                        let p = &state.function_protos[j];
                        (p.name.clone(), clone_strings(&p.args))
                    };
                    let decl = IrFunction {
                        name: fname,
                        params: fparams,
                        slots: Vec::new(),
                        blocks: Vec::new(),
                    };
                    let idx = state.module.funcs.len();
                    proof {
                        lemma_find_func_bounds(pre.module.funcs@, name@);
                    }
                    state.module.funcs.push(decl);
                    proof {
                        let m2 = state.module;
                        let m1 = pre.module;
                        assert(m1.funcs@.is_prefix_of(m2.funcs@));
                        assert(module_extends(m2, m1));
                        assert(m2.funcs@.last().name@ == name@);
                        assert forall|a: int, b: int|
                            0 <= a < b < m2.funcs@.len() implies (#[trigger] m2.funcs@[a]).name@
                            != (#[trigger] m2.funcs@[b]).name@ by {
                            if b == m2.funcs@.len() - 1 {
                                assert(m2.funcs@[a] == m1.funcs@[a]);
                            } else {
                                assert(m2.funcs@[a] == m1.funcs@[a]);
                                assert(m2.funcs@[b] == m1.funcs@[b]);
                            }
                        }
                        assert forall|k: int|
                            0 <= k < m2.funcs@.len() implies ((#[trigger] m2.funcs@[k]).blocks@.len()
                            == 0 || func_wf(m2.funcs@[k], m2)) by {
                            if k < m1.funcs@.len() {
                                assert(m2.funcs@[k] == m1.funcs@[k]);
                                if m1.funcs@[k].blocks@.len() != 0 {
                                    assert(func_wf(m1.funcs@[k], m1));
                                    assert forall|bi: int|
                                        0 <= bi < m1.funcs@[k].blocks@.len() implies block_wf(
                                        m2.funcs@[k],
                                        #[trigger] m2.funcs@[k].blocks@[bi],
                                        m2,
                                    ) by {
                                        lemma_block_wf_mono(
                                            m1.funcs@[k],
                                            m1.funcs@[k],
                                            m1.funcs@[k].blocks@[bi],
                                            m2,
                                            m1,
                                        );
                                    }
                                }
                            }
                        }
                        assert(module_wf(m2));
                        // the current function stays well-formed under the
                        // grown module
                        assert forall|bi: int|
                            0 <= bi < state.cur_func.blocks@.len() implies block_wf(
                            state.cur_func,
                            #[trigger] state.cur_func.blocks@[bi],
                            m2,
                        ) by {
                            lemma_block_wf_mono(
                                state.cur_func,
                                pre.cur_func,
                                pre.cur_func.blocks@[bi],
                                m2,
                                m1,
                            );
                        }
                        // lookups: the fresh name resolves to the new
                        // declaration, everything else is untouched
                        lemma_find_func_push(m1.funcs@, m2.funcs@.last(), name@);
                        assert(m2.funcs@ =~= m1.funcs@.push(m2.funcs@.last()));
                        assert(find_func(m2.funcs@, name@) == idx);
                        assert forall|n: Seq<char>|
                            known_arity(m2, state.function_protos@, n) == known_arity(
                            m1,
                            pre.function_protos@,
                            n,
                        ) by {
                            lemma_find_func_push(m1.funcs@, m2.funcs@.last(), n);
                            lemma_find_func_bounds(m1.funcs@, n);
                            if n == name@ {
                                assert(find_func(m2.funcs@, n) == idx);
                                assert(m2.funcs@[idx as int].params@.len()
                                    == pre.function_protos@[j as int].args@.len());
                                assert(module_arity(m2, n) == pre.function_protos@[proto_find(
                                    pre.function_protos@,
                                    n,
                                )].args@.len());
                            } else {
                                if find_func(m1.funcs@, n) >= 0 {
                                    assert(m2.funcs@[find_func(m1.funcs@, n)] == m1.funcs@[
                                        find_func(m1.funcs@, n)
                                    ]);
                                }
                            }
                        }
                    }
                    Ok(idx)
                },
                None => {
                    proof {
                        lemma_find_func_bounds(state.module.funcs@, name@);
                    }
                    Err(CodegenError::UnknownFunction)
                },
            }
        },
    }
}

pub proof fn lemma_proto_find_push(ps: Seq<PrototypeAST>, p: PrototypeAST, name: Seq<char>)
    ensures
        p.name@ == name ==> proto_find(ps.push(p), name) == ps.len(),
        p.name@ != name ==> proto_find(ps.push(p), name) == proto_find(ps, name),
{
    assert(ps.push(p).drop_last() =~= ps);
    assert(ps.push(p).last() == p);
}

pub proof fn lemma_proto_find_bounds(ps: Seq<PrototypeAST>, name: Seq<char>)
    ensures
        -1 <= proto_find(ps, name) < ps.len(),
        proto_find(ps, name) >= 0 ==> ps[proto_find(ps, name)].name@ == name,
    decreases ps.len(),
{
    if ps.len() > 0 && ps.last().name@ != name {
        lemma_proto_find_bounds(ps.drop_last(), name);
        assert(forall|i: int| 0 <= i < ps.len() - 1 ==> ps[i] == ps.drop_last()[i]);
    }
}

// ---------------------------------------------------------------------------
// Expression lowering.
// ---------------------------------------------------------------------------

impl crate::ast::NumberExprAST {
    /// A numeric literal lowers to a float constant.
    pub fn codegen(&self, state: &mut State) -> (r: Result<Operand, CodegenError>)
        requires
            old(state).cg_inv(),
            old(state).cur_term_none(),
        ensures
            expr_cg_post(*old(state), *final(state), r is Ok),
            (r is Ok) == expr_ok(
                SpecAst::Number(self.val@),
                scope_of(old(state).named_values@),
                old(state).module,
                old(state).function_protos@,
            ),
            r is Ok ==> operand_wf(final(state).cur_func, r->Ok_0, Ty::F64),
            r is Ok ==> ({
                let lr = spec_lower(SpecAst::Number(self.val@), lstate(*old(state)));
                &&& lstate(*final(state)) == lr.0
                &&& (r->Ok_0)@ == lr.1
            }),
    {
        if crate::parser::check_num_literal(&self.val) {
            Ok(Operand::Const(self.val.clone()))
        } else {
            Err(CodegenError::MalformedNumberLiteral)
        }
    }
}

impl crate::ast::VariableExprAST {
    /// A variable reference lowers to a load from its stack slot.
    pub fn codegen(&self, state: &mut State) -> (r: Result<Operand, CodegenError>)
        requires
            old(state).cg_inv(),
            old(state).cur_term_none(),
        ensures
            expr_cg_post(*old(state), *final(state), r is Ok),
            (r is Ok) == expr_ok(
                SpecAst::Variable(self.name@),
                scope_of(old(state).named_values@),
                old(state).module,
                old(state).function_protos@,
            ),
            r is Ok ==> operand_wf(final(state).cur_func, r->Ok_0, Ty::F64),
            r is Ok ==> ({
                let lr = spec_lower(SpecAst::Variable(self.name@), lstate(*old(state)));
                &&& lstate(*final(state)) == lr.0
                &&& (r->Ok_0)@ == lr.1
            }),
    {
        match lookup_var(&state.named_values, &self.name) {
            Some(slot) => {
                proof {
                    lemma_lookup_slot_bound(
                        state.named_values@,
                        self.name@,
                        state.cur_func.slots@.len() as int,
                    );
                    lemma_g_lookup(state.named_values@, self.name@);
                }
                let (b, i) = emit(state, Inst::Load(slot));
                Ok(Operand::Reg(b, i))
            },
            None => Err(CodegenError::UnknownVariable),
        }
    }
}

impl crate::ast::BinaryExprAST {
    /// `=` stores into the target's slot and yields the stored value;
    /// `+ - *` and `<` lower to float instructions; any other operator
    /// lowers to a call of its user-defined handler function.
    #[verifier::rlimit(100)]
    pub fn codegen(&self, state: &mut State) -> (r: Result<Operand, CodegenError>)
        requires
            old(state).cg_inv(),
            old(state).cur_term_none(),
        ensures
            expr_cg_post(*old(state), *final(state), r is Ok),
            (r is Ok) == expr_ok(
                ast_view(AST::Binary(
                    crate::ast::BinaryExprAST { op: self.op, lhs: self.lhs, rhs: self.rhs },
                )),
                scope_of(old(state).named_values@),
                old(state).module,
                old(state).function_protos@,
            ),
            r is Ok ==> operand_wf(final(state).cur_func, r->Ok_0, Ty::F64),
            r is Ok ==> ({
                let lr = spec_lower(ast_view(AST::Binary(
                    crate::ast::BinaryExprAST { op: self.op, lhs: self.lhs, rhs: self.rhs },
                )), lstate(*old(state)));
                &&& lstate(*final(state)) == lr.0
                &&& (r->Ok_0)@ == lr.1
            }),
        decreases *self,
    {
        let ghost s0 = *state;
        let ghost node = SpecAst::Binary {
            op: self.op,
            lhs: Box::new(ast_view(*self.lhs)),
            rhs: Box::new(ast_view(*self.rhs)),
        };
        if self.op == '=' {
            // Special case '=' because we do not emit the left side as an
            // expression: it must name a variable.
            let lhs_name = match &*self.lhs {
                AST::Variable(v) => v.name.clone(),
                _ => {
                    return Err(CodegenError::AssignTargetNotVariable);
                },
            };
            let val = match codegen_expr(state, &self.rhs) {
                Err(e) => {
                    return Err(e);
                },
                Ok(v) => v,
            };
            let ghost s1 = *state;
            match lookup_var(&state.named_values, &lhs_name) {
                Some(slot) => {
                    proof {
                        lemma_lookup_slot_bound(
                            state.named_values@,
                            lhs_name@,
                            state.cur_func.slots@.len() as int,
                        );
                        lemma_expr_ok_arities(
                            ast_view(*self.rhs),
                            scope_of(s0.named_values@),
                            s1.module,
                            s1.function_protos@,
                            s0.module,
                            s0.function_protos@,
                        );
                    }
                    proof {
                        lemma_g_lookup(state.named_values@, lhs_name@);
                    }
                    let val2 = copy_operand(&val);
                    emit(state, Inst::Store(slot, val2));
                    let ghost s2 = *state;
                    proof {
                        lemma_cg_step_trans(s0, s1, s2);
                        lemma_func_extends_trans(s2.cur_func, s1.cur_func, s0.cur_func);
                        lemma_module_extends_trans(s2.module, s1.module, s0.module);
                    }
                    Ok(val)
                },
                None => Err(CodegenError::UnknownVariable),
            }
        } else {
            let l = match codegen_expr(state, &self.lhs) {
                Err(e) => {
                    return Err(e);
                },
                Ok(v) => v,
            };
            let ghost s1 = *state;
            let rr = match codegen_expr(state, &self.rhs) {
                Err(e) => {
                    proof {
                        lemma_cg_frame_err(s0, s1, *state);
                        lemma_func_extends_trans(
                            state.cur_func,
                            s1.cur_func,
                            s0.cur_func,
                        );
                        lemma_module_extends_trans(state.module, s1.module, s0.module);
                        lemma_expr_ok_arities(
                            ast_view(*self.rhs),
                            scope_of(s0.named_values@),
                            s1.module,
                            s1.function_protos@,
                            s0.module,
                            s0.function_protos@,
                        );
                    }
                    return Err(e);
                },
                Ok(v) => v,
            };
            let ghost s2 = *state;
            proof {
                lemma_cg_step_trans(s0, s1, s2);
                lemma_func_extends_trans(s2.cur_func, s1.cur_func, s0.cur_func);
                lemma_module_extends_trans(s2.module, s1.module, s0.module);
                crate::ir::lemma_operand_wf_mono(s2.cur_func, s1.cur_func, l, Ty::F64);
                lemma_expr_ok_arities(
                    ast_view(*self.rhs),
                    scope_of(s0.named_values@),
                    s1.module,
                    s1.function_protos@,
                    s0.module,
                    s0.function_protos@,
                );
            }
            if self.op == '+' {
                let (b, i) = emit(state, Inst::FAdd(l, rr));
                proof {
                    lemma_step_emit(s0, s1, s2, *state);
                }
                Ok(Operand::Reg(b, i))
            } else if self.op == '-' {
                let (b, i) = emit(state, Inst::FSub(l, rr));
                proof {
                    lemma_step_emit(s0, s1, s2, *state);
                }
                Ok(Operand::Reg(b, i))
            } else if self.op == '*' {
                let (b, i) = emit(state, Inst::FMul(l, rr));
                proof {
                    lemma_step_emit(s0, s1, s2, *state);
                }
                Ok(Operand::Reg(b, i))
            } else if self.op == '<' {
                let (b, i) = emit(state, Inst::FCmpUlt(l, rr));
                let ghost s3 = *state;
                let (b2, i2) = emit(state, Inst::UiToFp(Operand::Reg(b, i)));
                proof {
                    lemma_step_emit(s0, s1, s2, s3);
                    lemma_step_emit(s0, s1, s3, *state);
                    lemma_func_extends_trans(state.cur_func, s3.cur_func, s0.cur_func);
                }
                Ok(Operand::Reg(b2, i2))
            } else {
                // User-defined binary operator: call its handler.
                proof {
                    reveal_strlit("binary");
                    assert("binary"@ =~= seq!['b', 'i', 'n', 'a', 'r', 'y']);
                }
                let mut fname = String::from_str("binary");
                push_char(&mut fname, self.op);
                proof {
                    assert(fname@ =~= binary_fn_name(self.op));
                }
                let idx = match get_function(state, &fname) {
                    Err(_) => {
                        proof {
                            lemma_step_err2(s0, s1, s2);
                        }
                        return Err(CodegenError::UnknownFunction);
                    },
                    Ok(i) => i,
                };
                let ghost s3 = *state;
                if state.module.funcs[idx].params.len() != 2 {
                    proof {
                        lemma_step_err2(s0, s1, s2);
                    }
                    return Err(CodegenError::IncorrectArguments);
                }
                let mut args: Vec<Operand> = Vec::new();
                args.push(l);
                args.push(rr);
                proof {
                    crate::ir::lemma_operand_wf_mono(s3.cur_func, s2.cur_func, args@[0], Ty::F64);
                    crate::ir::lemma_operand_wf_mono(s3.cur_func, s2.cur_func, args@[1], Ty::F64);
                    lemma_find_func_bounds(s3.module.funcs@, fname@);
                    assert(args@.map_values(|o: Operand| o@) =~= seq![args@[0]@, args@[1]@]);
                    assert(lstate(s3) == lstate(s2));
                }
                let (b, i) = emit(state, Inst::Call(fname, args));
                proof {
                    lemma_step_emit(s0, s1, s2, *state);
                    lemma_func_extends_trans(state.cur_func, s2.cur_func, s0.cur_func);
                }
                Ok(Operand::Reg(b, i))
            }
        }
    }
}

/// Chain two successful sub-expression steps and a same-block emission.
proof fn lemma_step_emit(s0: State, s1: State, s2: State, s3: State)
    requires
        s0.cur_block < s0.cur_func.blocks@.len(),
        func_extends(s1.cur_func, s0.cur_func),
        func_extends(s2.cur_func, s1.cur_func),
        func_extends(s3.cur_func, s2.cur_func),
        blocks_framed(s0, s1),
        blocks_framed(s1, s2),
        blocks_framed(s2, s3),
        cg_step_ok(s0, s1),
        cg_step_ok(s1, s2),
        cg_step_ok(s2, s3),
    ensures
        cg_step_ok(s0, s3),
        blocks_framed(s0, s3),
        func_extends(s3.cur_func, s0.cur_func),
{
    lemma_cg_step_trans(s0, s1, s2);
    lemma_func_extends_trans(s2.cur_func, s1.cur_func, s0.cur_func);
    lemma_cg_step_trans(s0, s2, s3);
    lemma_func_extends_trans(s3.cur_func, s2.cur_func, s0.cur_func);
}

/// Frame propagation over two successful legs when a later check fails.
proof fn lemma_step_err2(s0: State, s1: State, s2: State)
    requires
        s0.cur_block < s0.cur_func.blocks@.len(),
        func_extends(s1.cur_func, s0.cur_func),
        func_extends(s2.cur_func, s1.cur_func),
        blocks_framed(s0, s1),
        blocks_framed(s1, s2),
        cg_step_ok(s0, s1),
        cg_step_ok(s1, s2),
    ensures
        blocks_framed(s0, s2),
        func_extends(s2.cur_func, s0.cur_func),
        cg_step_ok(s0, s2),
{
    lemma_cg_step_trans(s0, s1, s2);
    lemma_func_extends_trans(s2.cur_func, s1.cur_func, s0.cur_func);
}

impl crate::ast::UnaryExprAST {
    /// A user-defined unary operator lowers to a call of its handler.
    pub fn codegen(&self, state: &mut State) -> (r: Result<Operand, CodegenError>)
        requires
            old(state).cg_inv(),
            old(state).cur_term_none(),
        ensures
            expr_cg_post(*old(state), *final(state), r is Ok),
            (r is Ok) == expr_ok(
                ast_view(AST::Unary(crate::ast::UnaryExprAST { op: self.op, operand: self.operand })),
                scope_of(old(state).named_values@),
                old(state).module,
                old(state).function_protos@,
            ),
            r is Ok ==> operand_wf(final(state).cur_func, r->Ok_0, Ty::F64),
            r is Ok ==> ({
                let lr = spec_lower(ast_view(AST::Unary(crate::ast::UnaryExprAST { op: self.op, operand: self.operand })), lstate(*old(state)));
                &&& lstate(*final(state)) == lr.0
                &&& (r->Ok_0)@ == lr.1
            }),
        decreases *self,
    {
        let ghost s0 = *state;
        let v = match codegen_expr(state, &self.operand) {
            Err(e) => {
                return Err(e);
            },
            Ok(v) => v,
        };
        let ghost s1 = *state;
        proof {
            reveal_strlit("unary");
            assert("unary"@ =~= seq!['u', 'n', 'a', 'r', 'y']);
        }
        let mut fname = String::from_str("unary");
        push_char(&mut fname, self.op);
        proof {
            assert(fname@ =~= unary_fn_name(self.op));
        }
        let idx = match get_function(state, &fname) {
            Err(_) => {
                return Err(CodegenError::UnknownFunction);
            },
            Ok(i) => i,
        };
        let ghost s2 = *state;
        if state.module.funcs[idx].params.len() != 1 {
            return Err(CodegenError::IncorrectArguments);
        }
        let mut args: Vec<Operand> = Vec::new();
        args.push(v);
        proof {
            crate::ir::lemma_operand_wf_mono(s2.cur_func, s1.cur_func, args@[0], Ty::F64);
            lemma_find_func_bounds(s2.module.funcs@, fname@);
            lemma_module_extends_trans(s2.module, s1.module, s0.module);
            assert(args@.map_values(|o: Operand| o@) =~= seq![args@[0]@]);
            assert(lstate(s2) == lstate(s1));
        }
        let (b, i) = emit(state, Inst::Call(fname, args));
        proof {
            lemma_step_emit(s0, s0, s1, *state);
            lemma_func_extends_trans(state.cur_func, s1.cur_func, s0.cur_func);
            lemma_module_extends_trans(state.module, s1.module, s0.module);
        }
        Ok(Operand::Reg(b, i))
    }
}

impl crate::ast::CallExprAST {
    /// A call lowers to a float call instruction after the callee is
    /// resolved and the argument count checked.
    pub fn codegen(&self, state: &mut State) -> (r: Result<Operand, CodegenError>)
        requires
            old(state).cg_inv(),
            old(state).cur_term_none(),
        ensures
            expr_cg_post(*old(state), *final(state), r is Ok),
            (r is Ok) == expr_ok(
                ast_view(AST::Call(crate::ast::CallExprAST { callee: self.callee, args: self.args })),
                scope_of(old(state).named_values@),
                old(state).module,
                old(state).function_protos@,
            ),
            r is Ok ==> operand_wf(final(state).cur_func, r->Ok_0, Ty::F64),
            r is Ok ==> ({
                let lr = spec_lower(ast_view(AST::Call(crate::ast::CallExprAST { callee: self.callee, args: self.args })), lstate(*old(state)));
                &&& lstate(*final(state)) == lr.0
                &&& (r->Ok_0)@ == lr.1
            }),
        decreases *self,
    {
        let ghost s0 = *state;
        let ghost argsv = args_view(self.args@);
        proof {
            crate::ast::lemma_args_view_len(self.args@);
            lemma_args_ok_index(argsv, scope_of(s0.named_values@), s0.module, s0.function_protos@);
        }
        let idx = match get_function(state, &self.callee) {
            Err(_) => {
                return Err(CodegenError::UnknownFunction);
            },
            Ok(i) => i,
        };
        let ghost s1 = *state;
        if state.module.funcs[idx].params.len() != self.args.len() {
            return Err(CodegenError::IncorrectArguments);
        }
        let mut ops: Vec<Operand> = Vec::new();
        let mut k: usize = 0;
        while k < self.args.len()
            invariant
                old(state).cg_inv(),
                s0 == *old(state),
                k <= self.args@.len(),
                ops@.len() == k,
                state.cg_inv(),
                state.cur_term_none(),
                front_eq(s1, *state),
                state.function_protos == s1.function_protos,
                state.named_values@ == s1.named_values@,
                module_extends(state.module, s1.module),
                arities_eq(s1, *state),
                func_extends(state.cur_func, s1.cur_func),
                blocks_framed(s1, *state),
                cg_step_ok(s1, *state),
                s1.cur_block < s1.cur_func.blocks@.len(),
                s1.cur_term_none(),
                s1.cg_inv(),
                front_eq(s0, s1),
                s1.function_protos == s0.function_protos,
                s1.named_values@ == s0.named_values@,
                module_extends(s1.module, s0.module),
                arities_eq(s0, s1),
                s1.cur_func == s0.cur_func,
                s1.cur_block == s0.cur_block,
                s0.cur_block < s0.cur_func.blocks@.len(),
                s0.cur_term_none(),
                s0.cg_inv(),
                find_func(s1.module.funcs@, self.callee@) == idx as int,
                idx < s1.module.funcs@.len(),
                s1.module.funcs@[idx as int].params@.len() == self.args@.len(),
                known_arity(s0.module, s0.function_protos@, self.callee@) == self.args@.len(),
                argsv == args_view(self.args@),
                argsv.len() == self.args@.len(),
                forall|j: int| 0 <= j < argsv.len() ==> argsv[j] == ast_view(#[trigger] self.args@[j]),
                forall|j: int|
                    0 <= j < k ==> operand_wf(state.cur_func, #[trigger] ops@[j], Ty::F64),
                forall|j: int|
                    0 <= j < k ==> expr_ok(
                        #[trigger] argsv[j],
                        scope_of(s1.named_values@),
                        s1.module,
                        s1.function_protos@,
                    ),
                lstate(*state) == spec_lower_args(argsv.take(k as int), lstate(s0)).0,
                ops@.map_values(|o: Operand| o@) == spec_lower_args(
                    argsv.take(k as int),
                    lstate(s0),
                ).1,
                lstate(s1) == lstate(s0),
            decreases self.args@.len() - k,
        {
            let ghost sa = *state;
            let v = match codegen_expr(state, &self.args[k]) {
                Err(e) => {
                    proof {
                        lemma_cg_frame_err(s1, sa, *state);
                        lemma_func_extends_trans(state.cur_func, sa.cur_func, s1.cur_func);
                        lemma_func_extends_trans(state.cur_func, s1.cur_func, s0.cur_func);
                        lemma_module_extends_trans(state.module, sa.module, s1.module);
                        lemma_module_extends_trans(state.module, s1.module, s0.module);
                        lemma_expr_ok_arities(
                            argsv[k as int],
                            scope_of(s1.named_values@),
                            sa.module,
                            sa.function_protos@,
                            s1.module,
                            s1.function_protos@,
                        );
                        lemma_expr_ok_arities(
                            argsv[k as int],
                            scope_of(s1.named_values@),
                            s1.module,
                            s1.function_protos@,
                            s0.module,
                            s0.function_protos@,
                        );
                        crate::ast::lemma_args_view_len(self.args@);
                        lemma_args_ok_index(
                            argsv,
                            scope_of(s0.named_values@),
                            s0.module,
                            s0.function_protos@,
                        );
                    }
                    return Err(e);
                },
                Ok(v) => v,
            };
            proof {
                lemma_cg_step_trans(s1, sa, *state);
                lemma_func_extends_trans(state.cur_func, sa.cur_func, s1.cur_func);
                lemma_module_extends_trans(state.module, sa.module, s1.module);
                lemma_expr_ok_arities(
                    argsv[k as int],
                    scope_of(s1.named_values@),
                    sa.module,
                    sa.function_protos@,
                    s1.module,
                    s1.function_protos@,
                );
                assert forall|j: int|
                    0 <= j < k implies operand_wf(state.cur_func, #[trigger] ops@[j], Ty::F64) by {
                    crate::ir::lemma_operand_wf_mono(state.cur_func, sa.cur_func, ops@[j], Ty::F64);
                }
                assert(argsv.take(k + 1).drop_last() =~= argsv.take(k as int));
                assert(argsv.take(k + 1).last() == argsv[k as int]);
                assert(ops@.push(v).map_values(|o: Operand| o@) =~= ops@.map_values(
                    |o: Operand| o@,
                ).push(v@));
            }
            ops.push(v);
            k = k + 1;
        }
        let ghost s2 = *state;
        let name = self.callee.clone();
        proof {
            lemma_module_extends_find_helper(s2, s1, self.callee@, idx as int);
            lemma_expr_ok_arities_all(argsv, scope_of(s0.named_values@), s1, s0);
            lemma_args_ok_index(argsv, scope_of(s0.named_values@), s0.module, s0.function_protos@);
            assert(argsv.take(argsv.len() as int) =~= argsv);
            assert(name@ == self.callee@);
        }
        let (b, i) = emit(state, Inst::Call(name, ops));
        proof {
            lemma_step_emit(s0, s0, s2, *state);
            lemma_func_extends_trans(state.cur_func, s2.cur_func, s0.cur_func);
            lemma_module_extends_trans(state.module, s2.module, s0.module);
        }
        Ok(Operand::Reg(b, i))
    }
}

/// An existing module entry keeps its index and arity across appends.
proof fn lemma_module_extends_find_helper(s2: State, s1: State, name: Seq<char>, idx: int)
    requires
        module_extends(s2.module, s1.module),
        names_distinct(s2.module.funcs@),
        find_func(s1.module.funcs@, name) == idx,
        0 <= idx < s1.module.funcs@.len(),
    ensures
        find_func(s2.module.funcs@, name) == idx,
        s2.module.funcs@[idx] == s1.module.funcs@[idx],
        module_has(s2.module, name),
        module_arity(s2.module, name) == s1.module.funcs@[idx].params@.len(),
{
    lemma_module_extends_find(s2.module, s1.module, name);
    assert(s1.module.funcs@ == s2.module.funcs@.subrange(0, s1.module.funcs@.len() as int));
    assert(s2.module.funcs@[idx] == s1.module.funcs@[idx]);
}

/// Carry element-wise argument admissibility across states resolving
/// names identically.
proof fn lemma_expr_ok_arities_all(argsv: Seq<SpecAst>, vars: Set<Seq<char>>, s1: State, s0: State)
    requires
        arities_eq(s0, s1),
    ensures
        forall|j: int|
            0 <= j < argsv.len() ==> expr_ok(
                #[trigger] argsv[j],
                vars,
                s1.module,
                s1.function_protos@,
            ) == expr_ok(argsv[j], vars, s0.module, s0.function_protos@),
{
    assert forall|j: int|
        0 <= j < argsv.len() implies expr_ok(
        #[trigger] argsv[j],
        vars,
        s1.module,
        s1.function_protos@,
    ) == expr_ok(argsv[j], vars, s0.module, s0.function_protos@) by {
        lemma_expr_ok_arities(
            argsv[j],
            vars,
            s1.module,
            s1.function_protos@,
            s0.module,
            s0.function_protos@,
        );
    }
}

/// Lower one expression node. Prototype and definition nodes are not
/// expressions and are rejected.
pub fn codegen_expr(state: &mut State, node: &AST) -> (r: Result<Operand, CodegenError>)
    requires
        old(state).cg_inv(),
        old(state).cur_term_none(),
    ensures
        expr_cg_post(*old(state), *final(state), r is Ok),
        (r is Ok) == expr_ok(
            ast_view(*node),
            scope_of(old(state).named_values@),
            old(state).module,
            old(state).function_protos@,
        ),
        r is Ok ==> operand_wf(final(state).cur_func, r->Ok_0, Ty::F64),
        r is Ok ==> ({
            let lr = spec_lower(ast_view(*node), lstate(*old(state)));
            &&& lstate(*final(state)) == lr.0
            &&& (r->Ok_0)@ == lr.1
        }),
    decreases *node,
{
    match node {
        AST::Number(n) => n.codegen(state),
        AST::Variable(v) => v.codegen(state),
        AST::Unary(u) => u.codegen(state),
        AST::Binary(b) => b.codegen(state),
        AST::Call(c) => c.codegen(state),
        AST::If(i) => i.codegen(state),
        AST::For(f) => f.codegen(state),
        AST::Var(v) => v.codegen(state),
        AST::Prototype(_) => Err(CodegenError::NotAnExpression),
        AST::Function(_) => Err(CodegenError::NotAnExpression),
    }
}

impl crate::ast::IfExprAST {
    /// `if` lowers to a conditional branch over `cond != 0.0` into fresh
    /// `then` and `else` blocks that both jump to a join block, where a
    /// phi node selects the arm's value. The block anchoring each phi
    /// edge is re-read after its arm, since an arm may append blocks of
    /// its own.
    #[verifier::rlimit(100)]
    pub fn codegen(&self, state: &mut State) -> (r: Result<Operand, CodegenError>)
        requires
            old(state).cg_inv(),
            old(state).cur_term_none(),
        ensures
            expr_cg_post(*old(state), *final(state), r is Ok),
            (r is Ok) == expr_ok(
                ast_view(AST::If(crate::ast::IfExprAST {
                    cond: self.cond,
                    then_expr: self.then_expr,
                    else_expr: self.else_expr,
                })),
                scope_of(old(state).named_values@),
                old(state).module,
                old(state).function_protos@,
            ),
            r is Ok ==> operand_wf(final(state).cur_func, r->Ok_0, Ty::F64),
            r is Ok ==> ({
                let lr = spec_lower(
                    ast_view(AST::If(crate::ast::IfExprAST {
                        cond: self.cond,
                        then_expr: self.then_expr,
                        else_expr: self.else_expr,
                    })),
                    lstate(*old(state)),
                );
                &&& lstate(*final(state)) == lr.0
                &&& (r->Ok_0)@ == lr.1
            }),
        decreases *self,
    {
        let ghost s0 = *state;
        let condv = match codegen_expr(state, &self.cond) {
            Err(e) => {
                return Err(e);
            },
            Ok(v) => v,
        };
        let ghost s1 = *state;
        let zero = const_zero();
        let (cb, ci) = emit(state, Inst::FCmpOne(condv, zero));
        let ghost s1b = *state;
        let then_bb = new_block(state);
        let ghost s1c = *state;
        let else_bb = new_block(state);
        let ghost s1d = *state;
        let merge_bb = new_block(state);
        let ghost s1e = *state;
        proof {
            crate::ir::lemma_operand_wf_mono(
                s1e.cur_func,
                s1b.cur_func,
                Operand::Reg(cb, ci),
                Ty::I1,
            );
        }
        set_term(state, Term::CondBr(Operand::Reg(cb, ci), then_bb, else_bb));
        let ghost s1f = *state;
        position_at(state, then_bb);
        let ghost s2 = *state;
        proof {
            assert(s2.cur_func.blocks@[then_bb as int].term is None);
            lemma_expr_ok_arities(
                ast_view(*self.then_expr),
                scope_of(s0.named_values@),
                s1.module,
                s1.function_protos@,
                s0.module,
                s0.function_protos@,
            );
        }
        let thenv = match codegen_expr(state, &self.then_expr) {
            Err(e) => {
                proof {
                    lemma_if_err_frame(s0, s1, *state, then_bb as int);
                }
                return Err(e);
            },
            Ok(v) => v,
        };
        let ghost s3 = *state;
        set_term(state, Term::Br(merge_bb));
        let then_end = state.cur_block;
        let ghost s3b = *state;
        position_at(state, else_bb);
        let ghost s4 = *state;
        proof {
            // the else block is untouched so far: it was created
            // unterminated, the conditional branch closed a different
            // block, and the then arm only finishes blocks it stood in
            assert(s3.cur_block == s2.cur_block || s3.cur_block >= s2.cur_func.blocks@.len());
            assert(s3.cur_func.blocks@[else_bb as int].term == s2.cur_func.blocks@[
                else_bb as int
            ].term);
            assert(s4.cur_func.blocks@[else_bb as int].term is None);
            lemma_expr_ok_arities(
                ast_view(*self.else_expr),
                scope_of(s0.named_values@),
                s4.module,
                s4.function_protos@,
                s0.module,
                s0.function_protos@,
            );
        }
        let elsev = match codegen_expr(state, &self.else_expr) {
            Err(e) => {
                proof {
                    lemma_if_err_frame(s0, s1, *state, then_bb as int);
                }
                return Err(e);
            },
            Ok(v) => v,
        };
        let ghost s5 = *state;
        set_term(state, Term::Br(merge_bb));
        let else_end = state.cur_block;
        let ghost s5b = *state;
        position_at(state, merge_bb);
        let ghost s6 = *state;
        proof {
            assert(s5.cur_block == s4.cur_block || s5.cur_block >= s4.cur_func.blocks@.len());
            assert(s5.cur_func.blocks@[merge_bb as int].term == s4.cur_func.blocks@[
                merge_bb as int
            ].term);
            assert(s6.cur_func.blocks@[merge_bb as int].term is None);
            crate::ir::lemma_operand_wf_mono(s3b.cur_func, s3.cur_func, thenv, Ty::F64);
            crate::ir::lemma_operand_wf_mono(s4.cur_func, s3b.cur_func, thenv, Ty::F64);
            crate::ir::lemma_operand_wf_mono(s5.cur_func, s4.cur_func, thenv, Ty::F64);
            crate::ir::lemma_operand_wf_mono(s6.cur_func, s5.cur_func, thenv, Ty::F64);
            crate::ir::lemma_operand_wf_mono(s6.cur_func, s5.cur_func, elsev, Ty::F64);
        }
        let ghost thenv_v = thenv@;
        let ghost elsev_v = elsev@;
        let mut inc: Vec<(Operand, usize)> = Vec::new();
        inc.push((thenv, then_end));
        inc.push((elsev, else_end));
        proof {
            assert(inc@.map_values(|p: (Operand, usize)| (p.0@, p.1 as int)) =~= seq![
                (thenv_v, then_end as int),
                (elsev_v, else_end as int),
            ]);
        }
        let (pb, pi) = emit(state, Inst::Phi(inc));
        let ghost s7 = *state;
        proof {
            lemma_func_extends_trans(s1f.cur_func, s1e.cur_func, s1.cur_func);
            lemma_func_extends_trans(s2.cur_func, s1f.cur_func, s1.cur_func);
            lemma_func_extends_trans(s3.cur_func, s2.cur_func, s1.cur_func);
            lemma_func_extends_trans(s3b.cur_func, s3.cur_func, s1.cur_func);
            lemma_func_extends_trans(s4.cur_func, s3b.cur_func, s1.cur_func);
            lemma_func_extends_trans(s5.cur_func, s4.cur_func, s1.cur_func);
            lemma_func_extends_trans(s5b.cur_func, s5.cur_func, s1.cur_func);
            lemma_func_extends_trans(s6.cur_func, s5b.cur_func, s1.cur_func);
            lemma_func_extends_trans(s7.cur_func, s6.cur_func, s1.cur_func);
            lemma_func_extends_trans(s7.cur_func, s1.cur_func, s0.cur_func);
            lemma_module_extends_trans(s3.module, s2.module, s1.module);
            lemma_module_extends_trans(s5.module, s4.module, s3.module);
            lemma_module_extends_trans(s5.module, s3.module, s1.module);
            lemma_module_extends_trans(s7.module, s5.module, s1.module);
            lemma_module_extends_trans(s7.module, s1.module, s0.module);
            lemma_if_final_frame(
                s0,
                s1,
                s2,
                s3,
                s4,
                s5,
                s7,
                then_bb as int,
                else_bb as int,
                merge_bb as int,
            );
        }
        Ok(Operand::Reg(pb, pi))
    }
}

/// Frame for an error inside an arm of an `if`: the blocks of the
/// enclosing context other than its insertion point keep their
/// terminators.
proof fn lemma_if_err_frame(s0: State, s1: State, sx: State, arm_cur: int)
    requires
        s0.cur_block < s0.cur_func.blocks@.len(),
        cg_step_ok(s0, s1),
        blocks_framed(s0, s1),
        func_extends(s1.cur_func, s0.cur_func),
        func_extends(sx.cur_func, s1.cur_func),
        forall|i: int|
            0 <= i < s1.cur_func.blocks@.len() && i != s1.cur_block && i != arm_cur ==> (
            #[trigger] sx.cur_func.blocks@[i]).term == s1.cur_func.blocks@[i].term,
        arm_cur >= s1.cur_func.blocks@.len() || arm_cur == s1.cur_block,
    ensures
        blocks_framed(s0, sx),
        func_extends(sx.cur_func, s0.cur_func),
{
    lemma_func_extends_trans(sx.cur_func, s1.cur_func, s0.cur_func);
    assert forall|i: int|
        0 <= i < s0.cur_func.blocks@.len() && i != s0.cur_block implies (
    #[trigger] sx.cur_func.blocks@[i]).term == s0.cur_func.blocks@[i].term by {
        assert(i != s1.cur_block || i == s1.cur_block);
        if i != s1.cur_block && i != arm_cur {
            assert(sx.cur_func.blocks@[i].term == s1.cur_func.blocks@[i].term);
        } else {
            assert(s1.cur_func.blocks@[i].term is Some);
            assert(sx.cur_func.blocks@[i].term == s1.cur_func.blocks@[i].term);
        }
    }
}

/// The block bookkeeping of a completed `if`.
proof fn lemma_if_final_frame(
    s0: State,
    s1: State,
    s2: State,
    s3: State,
    s4: State,
    s5: State,
    s7: State,
    then_bb: int,
    else_bb: int,
    merge_bb: int,
)
    requires
        s0.cur_block < s0.cur_func.blocks@.len(),
        cg_step_ok(s0, s1),
        blocks_framed(s0, s1),
        func_extends(s1.cur_func, s0.cur_func),
        func_extends(s2.cur_func, s1.cur_func),
        func_extends(s3.cur_func, s2.cur_func),
        func_extends(s4.cur_func, s3.cur_func),
        func_extends(s5.cur_func, s4.cur_func),
        func_extends(s7.cur_func, s5.cur_func),
        // block indices
        then_bb == s1.cur_func.blocks@.len(),
        else_bb == then_bb + 1,
        merge_bb == then_bb + 2,
        s2.cur_func.blocks@.len() == then_bb + 3,
        s2.cur_block == then_bb,
        s4.cur_block == else_bb,
        s7.cur_block == merge_bb,
        // after the conditional branch, the old insertion point is done
        s2.cur_func.blocks@[s1.cur_block as int].term is Some,
        s1.cur_block < s1.cur_func.blocks@.len(),
        // arms
        cg_step_ok(s2, s3),
        blocks_framed(s2, s3),
        cg_step_ok(s4, s5),
        blocks_framed(s4, s5),
        // the then arm's last block was closed, then the else arm ran
        s4.cur_func.blocks@.len() == s3.cur_func.blocks@.len(),
        s4.cur_func.blocks@[s3.cur_block as int].term is Some,
        forall|i: int|
            0 <= i < s3.cur_func.blocks@.len() && i != s3.cur_block ==> (
            #[trigger] s4.cur_func.blocks@[i]).term == s3.cur_func.blocks@[i].term,
        // the else arm's last block was closed; the phi landed in merge
        s7.cur_func.blocks@.len() == s5.cur_func.blocks@.len(),
        s7.cur_func.blocks@[s5.cur_block as int].term is Some,
        forall|i: int|
            0 <= i < s5.cur_func.blocks@.len() && i != s5.cur_block ==> (
            #[trigger] s7.cur_func.blocks@[i]).term == s5.cur_func.blocks@[i].term,
        s7.cur_func.blocks@[merge_bb].term is None,
        // blocks created between s1 and s2 other than then_bb are the
        // else and merge blocks
        forall|i: int|
            0 <= i < s1.cur_func.blocks@.len() && i != s1.cur_block ==> (
            #[trigger] s2.cur_func.blocks@[i]).term == s1.cur_func.blocks@[i].term,
    ensures
        cg_step_ok(s0, s7),
        blocks_framed(s0, s7),
{
    // terminators of blocks below s1's frontier
    assert forall|i: int|
        0 <= i < s1.cur_func.blocks@.len() && i != s1.cur_block implies (
    #[trigger] s7.cur_func.blocks@[i]).term == s1.cur_func.blocks@[i].term by {
        assert(s2.cur_func.blocks@[i].term == s1.cur_func.blocks@[i].term);
        assert(i != s2.cur_block);
        assert(s3.cur_func.blocks@[i].term == s2.cur_func.blocks@[i].term);
        assert(i != s3.cur_block || i == s3.cur_block);
        if i == s3.cur_block {
            assert(s3.cur_block == s2.cur_block || s3.cur_block >= s2.cur_func.blocks@.len());
            assert(false);
        }
        assert(s4.cur_func.blocks@[i].term == s3.cur_func.blocks@[i].term);
        assert(i != s4.cur_block);
        assert(s5.cur_func.blocks@[i].term == s4.cur_func.blocks@[i].term);
        if i == s5.cur_block {
            assert(s5.cur_block == s4.cur_block || s5.cur_block >= s4.cur_func.blocks@.len());
            assert(false);
        }
        assert(s7.cur_func.blocks@[i].term == s5.cur_func.blocks@[i].term);
    }
    assert(blocks_framed(s0, s7)) by {
        assert forall|i: int|
            0 <= i < s0.cur_func.blocks@.len() && i != s0.cur_block implies (
        #[trigger] s7.cur_func.blocks@[i]).term == s0.cur_func.blocks@[i].term by {
            if i != s1.cur_block {
                assert(s7.cur_func.blocks@[i].term == s1.cur_func.blocks@[i].term);
                assert(s1.cur_func.blocks@[i].term == s0.cur_func.blocks@[i].term);
            } else {
                assert(s1.cur_block == s0.cur_block || s1.cur_block >= s0.cur_func.blocks@.len());
                assert(false);
            }
        }
    }
    // every new block other than merge is closed
    assert forall|i: int|
        s0.cur_func.blocks@.len() <= i < s7.cur_func.blocks@.len() && i != merge_bb implies (
    #[trigger] s7.cur_func.blocks@[i]).term is Some by {
        if i < s1.cur_func.blocks@.len() {
            // created by the condition's lowering
            if i == s1.cur_block {
                assert(s2.cur_func.blocks@[i].term is Some);
                assert(i != s2.cur_block);
                assert(s3.cur_func.blocks@[i].term == s2.cur_func.blocks@[i].term);
                if i == s3.cur_block {
                    assert(false);
                }
                assert(s4.cur_func.blocks@[i].term == s3.cur_func.blocks@[i].term);
                assert(i != s4.cur_block);
                assert(s5.cur_func.blocks@[i].term == s4.cur_func.blocks@[i].term);
                if i == s5.cur_block {
                    assert(false);
                }
                assert(s7.cur_func.blocks@[i].term == s5.cur_func.blocks@[i].term);
            } else {
                assert(cg_step_ok(s0, s1));
                assert(s1.cur_func.blocks@[i].term is Some);
                assert(s7.cur_func.blocks@[i].term == s1.cur_func.blocks@[i].term);
            }
        } else if i == then_bb {
            // the then arm began here; its chain of blocks was closed
            if s3.cur_block == then_bb {
                assert(s4.cur_func.blocks@[i].term is Some);
            } else {
                assert(s3.cur_block == s2.cur_block || s3.cur_block >= s2.cur_func.blocks@.len());
                assert(s3.cur_func.blocks@[i].term is Some) by {
                    assert(cg_step_ok(s2, s3));
                }
                assert(s4.cur_func.blocks@[i].term == s3.cur_func.blocks@[i].term);
            }
            if i == s5.cur_block {
                assert(s5.cur_block == s4.cur_block || s5.cur_block >= s4.cur_func.blocks@.len());
                assert(false);
            }
            assert(s5.cur_func.blocks@[i].term == s4.cur_func.blocks@[i].term);
            assert(s7.cur_func.blocks@[i].term == s5.cur_func.blocks@[i].term);
        } else if i == else_bb {
            if s5.cur_block == else_bb {
                assert(s7.cur_func.blocks@[i].term is Some);
            } else {
                assert(s5.cur_func.blocks@[i].term is Some) by {
                    assert(cg_step_ok(s4, s5));
                }
                assert(s7.cur_func.blocks@[i].term == s5.cur_func.blocks@[i].term);
            }
        } else if i < s2.cur_func.blocks@.len() {
            // merge_bb is excluded; no other block exists in this range
            assert(i == merge_bb);
            assert(false);
        } else if i < s3.cur_func.blocks@.len() {
            // created inside the then arm
            if i == s3.cur_block {
                assert(s4.cur_func.blocks@[i].term is Some);
                if i == s5.cur_block {
                    assert(false);
                }
                assert(s5.cur_func.blocks@[i].term == s4.cur_func.blocks@[i].term);
                assert(s7.cur_func.blocks@[i].term == s5.cur_func.blocks@[i].term);
            } else {
                assert(s3.cur_func.blocks@[i].term is Some) by {
                    assert(cg_step_ok(s2, s3));
                }
                assert(s4.cur_func.blocks@[i].term == s3.cur_func.blocks@[i].term);
                if i == s5.cur_block {
                    assert(false);
                }
                assert(s5.cur_func.blocks@[i].term == s4.cur_func.blocks@[i].term);
                assert(s7.cur_func.blocks@[i].term == s5.cur_func.blocks@[i].term);
            }
        } else {
            // created inside the else arm
            if i == s5.cur_block {
                assert(s7.cur_func.blocks@[i].term is Some);
            } else {
                assert(s5.cur_func.blocks@[i].term is Some) by {
                    assert(cg_step_ok(s4, s5));
                }
                assert(s7.cur_func.blocks@[i].term == s5.cur_func.blocks@[i].term);
            }
        }
    }
    assert(cg_step_ok(s0, s7));
}

impl crate::ast::ForExprAST {
    /// `for` lowers to: store the start value into an entry-block slot,
    /// fall into a loop block where the body runs with the variable in
    /// scope, advance the slot by the step (1.0 when absent), and branch
    /// back while the end condition is not 0.0. The whole expression
    /// yields 0.0.
    #[verifier::rlimit(100)]
    pub fn codegen(&self, state: &mut State) -> (r: Result<Operand, CodegenError>)
        requires
            old(state).cg_inv(),
            old(state).cur_term_none(),
        ensures
            expr_cg_post(*old(state), *final(state), r is Ok),
            (r is Ok) == expr_ok(
                ast_view(AST::For(crate::ast::ForExprAST {
                    name: self.name,
                    start: self.start,
                    end: self.end,
                    step: self.step,
                    body: self.body,
                })),
                scope_of(old(state).named_values@),
                old(state).module,
                old(state).function_protos@,
            ),
            r is Ok ==> operand_wf(final(state).cur_func, r->Ok_0, Ty::F64),
            r is Ok ==> ({
                let lr = spec_lower(
                    ast_view(AST::For(crate::ast::ForExprAST {
                        name: self.name,
                        start: self.start,
                        end: self.end,
                        step: self.step,
                        body: self.body,
                    })),
                    lstate(*old(state)),
                );
                &&& lstate(*final(state)) == lr.0
                &&& (r->Ok_0)@ == lr.1
            }),
        decreases *self,
    {
        let ghost s0 = *state;
        let slot = create_entry_block_alloca(state, self.name.clone());
        let ghost sa = *state;
        // Emit the start code first, without the loop variable in scope.
        let startv = match codegen_expr(state, &self.start) {
            Err(e) => {
                return Err(e);
            },
            Ok(v) => v,
        };
        let ghost s1 = *state;
        proof {
            lemma_expr_ok_arities(
                ast_view(*self.start),
                scope_of(s0.named_values@),
                sa.module,
                sa.function_protos@,
                s0.module,
                s0.function_protos@,
            );
            assert(s1.cur_func.slots@.len() >= sa.cur_func.slots@.len());
        }
        emit(state, Inst::Store(slot, startv));
        let loop_bb = new_block(state);
        set_term(state, Term::Br(loop_bb));
        position_at(state, loop_bb);
        let ghost s2 = *state;
        proof {
            assert(s2.cur_func.blocks@[loop_bb as int].term is None);
            assert(cg_step_ok(s1, s2));
            lemma_cg_step_trans(s0, s1, s2);
            lemma_func_extends_trans(s1.cur_func, sa.cur_func, s0.cur_func);
            lemma_func_extends_trans(s2.cur_func, s1.cur_func, s0.cur_func);
        }
        // Within the loop the variable is bound to the slot; the binding
        // is removed again afterwards.
        state.named_values.push((self.name.clone(), slot));
        let ghost s2b = *state;
        proof {
            lemma_scope_view_push(s2.named_values@, s2b.named_values@.last());
            assert(lstate(s2b) == g_bind(lstate(s2), self.name@, slot as int));
            lemma_scope_push(s2.named_values@, s2b.named_values@.last());
            assert(scope_of(s2b.named_values@) == scope_of(s0.named_values@).insert(self.name@));
            assert(cg_step_ok(s2, s2b));
            assert(blocks_framed(s2, s2b));
            lemma_cg_step_trans(s0, s2, s2b);
        }
        // Emit the body; its value is ignored.
        match codegen_expr(state, &self.body) {
            Err(e) => {
                let _ = state.named_values.pop();
                proof {
                    assert(state.named_values@ =~= s0.named_values@);
                    lemma_cg_frame_err(s0, s2b, *state);
                    lemma_func_extends_trans(state.cur_func, s2b.cur_func, s0.cur_func);
                    lemma_module_extends_trans(state.module, s2b.module, s0.module);
                    lemma_expr_ok_arities(
                        ast_view(*self.body),
                        scope_of(s2b.named_values@),
                        s2b.module,
                        s2b.function_protos@,
                        s0.module,
                        s0.function_protos@,
                    );
                }
                return Err(e);
            },
            Ok(_) => {},
        };
        let ghost s3 = *state;
        proof {
            lemma_expr_ok_arities(
                ast_view(*self.body),
                scope_of(s2b.named_values@),
                s2b.module,
                s2b.function_protos@,
                s0.module,
                s0.function_protos@,
            );
        }
        // Emit the step value; 1.0 when not specified.
        let stepv = match &self.step {
            Some(st) => match codegen_expr(state, st) {
                Err(e) => {
                    let _ = state.named_values.pop();
                    proof {
                        assert(state.named_values@ =~= s0.named_values@);
                        lemma_cg_frame_err(s2b, s3, *state);
                        lemma_cg_frame_err(s0, s2b, *state);
                        lemma_func_extends_trans(state.cur_func, s3.cur_func, s2b.cur_func);
                        lemma_func_extends_trans(state.cur_func, s2b.cur_func, s0.cur_func);
                        lemma_module_extends_trans(state.module, s3.module, s2b.module);
                        lemma_module_extends_trans(state.module, s2b.module, s0.module);
                        lemma_expr_ok_arities(
                            ast_view(**st),
                            scope_of(s2b.named_values@),
                            s3.module,
                            s3.function_protos@,
                            s0.module,
                            s0.function_protos@,
                        );
                    }
                    return Err(e);
                },
                Ok(v) => {
                    proof {
                        lemma_expr_ok_arities(
                            ast_view(**st),
                            scope_of(s2b.named_values@),
                            s3.module,
                            s3.function_protos@,
                            s0.module,
                            s0.function_protos@,
                        );
                    }
                    v
                },
            },
            None => const_one(),
        };
        let ghost s4 = *state;
        proof {
            lemma_cg_step_trans(s2b, s3, s4);
            lemma_func_extends_trans(s4.cur_func, s3.cur_func, s2b.cur_func);
            lemma_module_extends_trans(s4.module, s3.module, s2b.module);
        }
        // Reload, advance and store back before the end condition is
        // tested, as the lowering rules order it; the body may have
        // mutated the variable through assignment.
        proof {
            assert(slot < s4.cur_func.slots@.len());
        }
        let (lb, li) = emit(state, Inst::Load(slot));
        let (ab, ai) = emit(state, Inst::FAdd(Operand::Reg(lb, li), stepv));
        emit(state, Inst::Store(slot, Operand::Reg(ab, ai)));
        let ghost s4b = *state;
        proof {
            lemma_cg_step_trans(s2b, s4, s4b);
            lemma_func_extends_trans(s4b.cur_func, s4.cur_func, s2b.cur_func);
        }
        // Compute the end condition.
        let endv = match codegen_expr(state, &self.end) {
            Err(e) => {
                let _ = state.named_values.pop();
                proof {
                    assert(state.named_values@ =~= s0.named_values@);
                    lemma_cg_frame_err(s2b, s4b, *state);
                    lemma_cg_frame_err(s0, s2b, *state);
                    lemma_func_extends_trans(state.cur_func, s4b.cur_func, s2b.cur_func);
                    lemma_func_extends_trans(state.cur_func, s2b.cur_func, s0.cur_func);
                    lemma_module_extends_trans(state.module, s4b.module, s2b.module);
                    lemma_module_extends_trans(state.module, s2b.module, s0.module);
                    lemma_expr_ok_arities(
                        ast_view(*self.end),
                        scope_of(s2b.named_values@),
                        s4b.module,
                        s4b.function_protos@,
                        s0.module,
                        s0.function_protos@,
                    );
                }
                return Err(e);
            },
            Ok(v) => v,
        };
        let ghost s5 = *state;
        proof {
            lemma_cg_step_trans(s2b, s4b, s5);
            lemma_func_extends_trans(s5.cur_func, s4b.cur_func, s2b.cur_func);
            lemma_module_extends_trans(s5.module, s4b.module, s2b.module);
            lemma_expr_ok_arities(
                ast_view(*self.end),
                scope_of(s2b.named_values@),
                s4b.module,
                s4b.function_protos@,
                s0.module,
                s0.function_protos@,
            );
        }
        let zero = const_zero();
        let (eb, ei) = emit(state, Inst::FCmpOne(endv, zero));
        let after_bb = new_block(state);
        set_term(state, Term::CondBr(Operand::Reg(eb, ei), loop_bb, after_bb));
        position_at(state, after_bb);
        let ghost s6 = *state;
        // Remove the loop-variable binding again.
        let _ = state.named_values.pop();
        let ghost s7 = *state;
        proof {
            assert(s7.named_values@ =~= s0.named_values@);
            lemma_scope_view_drop(s6.named_values@);
            assert(lstate(s7) == g_pop(lstate(s6)));
            assert(cg_step_ok(s5, s6));
            lemma_cg_step_trans(s2b, s5, s6);
            lemma_cg_step_trans(s0, s2b, s6);
            lemma_func_extends_trans(s6.cur_func, s5.cur_func, s2b.cur_func);
            lemma_func_extends_trans(s6.cur_func, s2b.cur_func, s0.cur_func);
            lemma_module_extends_trans(s6.module, s5.module, s2b.module);
            lemma_module_extends_trans(s6.module, s2b.module, s0.module);
        }
        // The for expression always yields 0.0.
        Ok(const_zero())
    }
}

impl crate::ast::VarExprAST {
    /// `var` evaluates every initializer in the enclosing scope (0.0 when
    /// absent), stores each into a fresh entry-block slot, shadows the
    /// names while the body runs, and restores the scope afterwards.
    #[verifier::rlimit(100)]
    pub fn codegen(&self, state: &mut State) -> (r: Result<Operand, CodegenError>)
        requires
            old(state).cg_inv(),
            old(state).cur_term_none(),
        ensures
            expr_cg_post(*old(state), *final(state), r is Ok),
            (r is Ok) == expr_ok(
                ast_view(AST::Var(crate::ast::VarExprAST { bindings: self.bindings, body: self.body })),
                scope_of(old(state).named_values@),
                old(state).module,
                old(state).function_protos@,
            ),
            r is Ok ==> operand_wf(final(state).cur_func, r->Ok_0, Ty::F64),
            r is Ok ==> ({
                let lr = spec_lower(
                    ast_view(AST::Var(crate::ast::VarExprAST {
                        bindings: self.bindings,
                        body: self.body,
                    })),
                    lstate(*old(state)),
                );
                &&& lstate(*final(state)) == lr.0
                &&& (r->Ok_0)@ == lr.1
            }),
        decreases *self,
    {
        let ghost s0 = *state;
        let ghost bviews = crate::ast::bindings_view(self.bindings@);
        proof {
            crate::ast::lemma_bindings_view_len(self.bindings@);
            lemma_inits_ok_index(bviews, scope_of(s0.named_values@), s0.module, s0.function_protos@);
        }
        // Evaluate all initializers in the enclosing scope.
        let mut vals: Vec<Operand> = Vec::new();
        let mut k: usize = 0;
        while k < self.bindings.len()
            invariant
                old(state).cg_inv(),
                s0 == *old(state),
                k <= self.bindings@.len(),
                vals@.len() == k,
                state.cg_inv(),
                state.cur_term_none(),
                front_eq(s0, *state),
                state.function_protos == s0.function_protos,
                state.named_values@ == s0.named_values@,
                module_extends(state.module, s0.module),
                arities_eq(s0, *state),
                func_extends(state.cur_func, s0.cur_func),
                blocks_framed(s0, *state),
                cg_step_ok(s0, *state),
                s0.cur_block < s0.cur_func.blocks@.len(),
                s0.cur_term_none(),
                bviews == crate::ast::bindings_view(self.bindings@),
                bviews.len() == self.bindings@.len(),
                forall|j: int|
                    0 <= j < bviews.len() ==> bviews[j] == (
                        (#[trigger] self.bindings@[j]).0@,
                        match self.bindings@[j].1 {
                            Some(e) => Some(ast_view(e)),
                            None => None::<SpecAst>,
                        },
                    ),
                forall|j: int|
                    0 <= j < k ==> operand_wf(state.cur_func, #[trigger] vals@[j], Ty::F64),
                forall|j: int|
                    0 <= j < k ==> match (#[trigger] bviews[j]).1 {
                        Some(e) => expr_ok(
                            e,
                            scope_of(s0.named_values@),
                            s0.module,
                            s0.function_protos@,
                        ),
                        None => true,
                    },
                lstate(*state) == spec_lower_inits(bviews.take(k as int), lstate(s0)).0,
                vals@.map_values(|o: Operand| o@) == spec_lower_inits(
                    bviews.take(k as int),
                    lstate(s0),
                ).1,
            decreases self.bindings@.len() - k,
        {
            let ghost sa = *state;
            let v = match &self.bindings[k].1 {
                Some(e) => match codegen_expr(state, e) {
                    Err(err) => {
                        proof {
                            lemma_cg_frame_err(s0, sa, *state);
                            lemma_func_extends_trans(state.cur_func, sa.cur_func, s0.cur_func);
                            lemma_module_extends_trans(state.module, sa.module, s0.module);
                            lemma_expr_ok_arities(
                                ast_view(*e),
                                scope_of(s0.named_values@),
                                sa.module,
                                sa.function_protos@,
                                s0.module,
                                s0.function_protos@,
                            );
                            crate::ast::lemma_bindings_view_len(self.bindings@);
                            lemma_inits_ok_index(
                                bviews,
                                scope_of(s0.named_values@),
                                s0.module,
                                s0.function_protos@,
                            );
                        }
                        return Err(err);
                    },
                    Ok(v) => {
                        proof {
                            lemma_expr_ok_arities(
                                ast_view(*e),
                                scope_of(s0.named_values@),
                                sa.module,
                                sa.function_protos@,
                                s0.module,
                                s0.function_protos@,
                            );
                        }
                        v
                    },
                },
                None => const_zero(),
            };
            proof {
                lemma_cg_step_trans(s0, sa, *state);
                lemma_func_extends_trans(state.cur_func, sa.cur_func, s0.cur_func);
                lemma_module_extends_trans(state.module, sa.module, s0.module);
                assert forall|j: int|
                    0 <= j < k implies operand_wf(state.cur_func, #[trigger] vals@[j], Ty::F64) by {
                    crate::ir::lemma_operand_wf_mono(state.cur_func, sa.cur_func, vals@[j], Ty::F64);
                }
                assert(bviews.take(k + 1).drop_last() =~= bviews.take(k as int));
                assert(bviews.take(k + 1).last() == bviews[k as int]);
                assert(vals@.push(v).map_values(|o: Operand| o@) =~= vals@.map_values(
                    |o: Operand| o@,
                ).push(v@));
            }
            vals.push(v);
            k = k + 1;
        }
        let ghost s1 = *state;
        let ghost vsv = spec_lower_inits(bviews, lstate(s0)).1;
        let old_len = state.named_values.len();
        proof {
            assert(old_len == s0.named_values@.len());
            assert(bviews.take(bviews.len() as int) =~= bviews);
            assert(lstate(s1) == spec_lower_inits(bviews, lstate(s0)).0);
            assert(vals@.map_values(|o: Operand| o@) == vsv);
            assert(vsv.len() == vals@.len());
        }
        // Allocate a slot per binding, store the value, shadow the name.
        let mut k2: usize = 0;
        while k2 < self.bindings.len()
            invariant
                old(state).cg_inv(),
                s0 == *old(state),
                k2 <= self.bindings@.len(),
                vals@.len() == self.bindings@.len(),
                state.cg_inv(),
                state.cur_term_none(),
                front_eq(s1, *state),
                state.function_protos == s1.function_protos,
                module_extends(state.module, s1.module),
                state.module == s1.module,
                arities_eq(s1, *state),
                func_extends(state.cur_func, s1.cur_func),
                blocks_framed(s1, *state),
                cg_step_ok(s1, *state),
                state.cur_block == s1.cur_block,
                s1.cur_block < s1.cur_func.blocks@.len(),
                s1.cur_term_none(),
                s1.named_values@ == s0.named_values@,
                old_len == s0.named_values@.len(),
                state.named_values@.len() == old_len + k2,
                state.named_values@.subrange(0, old_len as int) =~= s0.named_values@,
                front_eq(s0, s1),
                s1.function_protos == s0.function_protos,
                module_extends(s1.module, s0.module),
                arities_eq(s0, s1),
                func_extends(s1.cur_func, s0.cur_func),
                blocks_framed(s0, s1),
                cg_step_ok(s0, s1),
                s0.cur_block < s0.cur_func.blocks@.len(),
                s0.cur_term_none(),
                s0.cg_inv(),
                bviews.len() == self.bindings@.len(),
                forall|j: int|
                    0 <= j < bviews.len() ==> bviews[j] == (
                        (#[trigger] self.bindings@[j]).0@,
                        match self.bindings@[j].1 {
                            Some(e) => Some(ast_view(e)),
                            None => None::<SpecAst>,
                        },
                    ),
                forall|j: int|
                    0 <= j < vals@.len() ==> operand_wf(s1.cur_func, #[trigger] vals@[j], Ty::F64),
                scope_of(state.named_values@) == bind_names(
                    scope_of(s0.named_values@),
                    bviews.take(k2 as int),
                ),
                vsv == spec_lower_inits(bviews, lstate(s0)).1,
                vsv == vals@.map_values(|o: Operand| o@),
                vsv.len() == vals@.len(),
                lstate(s1) == spec_lower_inits(bviews, lstate(s0)).0,
                lstate(*state) == spec_install_bindings(
                    bviews.take(k2 as int),
                    vsv.take(k2 as int),
                    lstate(s1),
                ),
            decreases self.bindings@.len() - k2,
        {
            let ghost sb = *state;
            let nm = self.bindings[k2].0.clone();
            let nm2 = nm.clone();
            let slot = create_entry_block_alloca(state, nm);
            let v = copy_operand(&vals[k2]);
            proof {
                crate::ir::lemma_operand_wf_mono(state.cur_func, s1.cur_func, vals@[k2 as int], Ty::F64);
                assert(operand_wf(state.cur_func, v, Ty::F64));
            }
            emit(state, Inst::Store(slot, v));
            let ghost nvpre = state.named_values@;
            state.named_values.push((nm2, slot));
            proof {
                assert(state.named_values@.drop_last() =~= nvpre);
                lemma_scope_push(nvpre, state.named_values@.last());
                lemma_scope_view_push(nvpre, state.named_values@.last());
                assert(bviews.take(k2 + 1).drop_last() =~= bviews.take(k2 as int));
                assert(bviews.take(k2 + 1).last() == bviews[k2 as int]);
                assert(vsv.take(k2 + 1).drop_last() =~= vsv.take(k2 as int));
                assert(vsv.take(k2 + 1).last() == vsv[k2 as int]);
                assert(v@ == vsv[k2 as int]);
                assert(nm2@ == bviews[k2 as int].0);
                assert(state.named_values@.subrange(0, old_len as int) =~= s0.named_values@);
                assert(cg_step_ok(s1, *state));
                assert(lstate(*state) == spec_install_bindings(
                    bviews.take(k2 + 1),
                    vsv.take(k2 + 1),
                    lstate(s1),
                ));
            }
            k2 = k2 + 1;
        }
        let ghost s2 = *state;
        proof {
            assert(bviews.take(bviews.len() as int) =~= bviews);
            assert(vsv.take(vsv.len() as int) =~= vsv);
            assert(lstate(s2) == spec_install_bindings(bviews, vsv, lstate(s1)));
            assert(scope_of(s2.named_values@) == bind_names(scope_of(s0.named_values@), bviews));
            lemma_expr_ok_arities(
                ast_view(*self.body),
                bind_names(scope_of(s0.named_values@), bviews),
                s2.module,
                s2.function_protos@,
                s0.module,
                s0.function_protos@,
            );
        }
        proof {
            lemma_cg_step_trans(s0, s1, s2);
            lemma_func_extends_trans(s2.cur_func, s1.cur_func, s0.cur_func);
            lemma_module_extends_trans(s2.module, s1.module, s0.module);
            lemma_inits_ok_index(bviews, scope_of(s0.named_values@), s0.module, s0.function_protos@);
        }
        let bodyv = match codegen_expr(state, &self.body) {
            Err(e) => {
                state.named_values.truncate(old_len);
                proof {
                    assert(state.named_values@ =~= s0.named_values@);
                    lemma_cg_frame_err(s0, s2, *state);
                    lemma_func_extends_trans(state.cur_func, s2.cur_func, s0.cur_func);
                    lemma_module_extends_trans(state.module, s2.module, s0.module);
                }
                return Err(e);
            },
            Ok(v) => v,
        };
        let ghost s3 = *state;
        state.named_values.truncate(old_len);
        proof {
            assert(state.named_values@ =~= s0.named_values@);
            lemma_scope_view_take(s3.named_values@, old_len as int);
            assert(state.named_values@ =~= s3.named_values@.take(old_len as int));
            assert(lstate(*state) == g_trunc(lstate(s3), old_len as int));
            lemma_cg_step_trans(s0, s2, s3);
            lemma_func_extends_trans(s3.cur_func, s2.cur_func, s0.cur_func);
            lemma_module_extends_trans(s3.module, s2.module, s0.module);
        }
        Ok(bodyv)
    }
}

// ---------------------------------------------------------------------------
// Prototypes and definitions.
// ---------------------------------------------------------------------------

/// The set of parameter names of a prototype.
pub open spec fn names_set(args: Seq<Seq<char>>) -> Set<Seq<char>>
    decreases args.len(),
{
    if args.len() == 0 {
        Set::empty()
    } else {
        names_set(args.drop_last()).insert(args.last())
    }
}

/// A definition clashes with what the module already holds: the name has
/// a body already, or a declaration with a different parameter count.
pub open spec fn redef_conflict(m: IrModule, p: crate::ast::SpecProto) -> bool {
    module_has(m, p.name) && (m.funcs@[find_func(m.funcs@, p.name)].blocks@.len() > 0
        || m.funcs@[find_func(m.funcs@, p.name)].params@.len() != p.args.len())
}

/// What declaring `name` with `arity` parameters guarantees.
pub open spec fn declare_post(
    pre: State,
    post: State,
    name: Seq<char>,
    arity: nat,
    params: Seq<Seq<char>>,
    r: Result<usize, CodegenError>,
) -> bool {
    &&& front_eq(pre, post)
    &&& post.function_protos == pre.function_protos
    &&& post.named_values == pre.named_values
    &&& post.cur_func == pre.cur_func
    &&& post.cur_block == pre.cur_block
    &&& module_wf(post.module)
    &&& module_extends(post.module, pre.module)
    &&& post.module.name == pre.module.name
    &&& match r {
        Ok(i) => {
            &&& i < post.module.funcs@.len()
            &&& find_func(post.module.funcs@, name) == i
            &&& post.module.funcs@[i as int].params@.len() == arity
            &&& (module_has(pre.module, name) ==> post.module == pre.module)
            &&& (!module_has(pre.module, name) ==> post.module.funcs@.len()
                == pre.module.funcs@.len() + 1 && i == pre.module.funcs@.len()
                && post.module.funcs@[i as int].blocks@.len() == 0
                && post.module.funcs@[i as int]@.params == params)
            &&& forall|n: Seq<char>|
                n != name ==> known_arity(post.module, post.function_protos@, n) == known_arity(
                    pre.module,
                    pre.function_protos@,
                    n,
                )
            &&& known_arity(post.module, post.function_protos@, name) == arity
        },
        Err(e) => {
            &&& e == CodegenError::FunctionRedefined
            &&& post == pre
            &&& module_has(pre.module, name)
            &&& module_arity(pre.module, name) != arity
        },
    }
}

/// Ensure the module holds an entry for `name` with `arity` parameters:
/// reuse a matching one or append a fresh declaration.
fn declare(state: &mut State, name: &String, args: &Vec<String>) -> (r: Result<
    usize,
    CodegenError,
>)
    requires
        module_wf(old(state).module),
        func_wf_partial(old(state).cur_func, old(state).module),
    ensures
        declare_post(
            *old(state),
            *final(state),
            name@,
            args@.len(),
            args@.map_values(|a: String| a@),
            r,
        ),
        func_wf_partial(final(state).cur_func, final(state).module),
{
    let ghost pre = *state;
    match find_func_exec(&state.module, name) {
        Some(i) => {
            proof {
                lemma_find_func_bounds(state.module.funcs@, name@);
            }
            if state.module.funcs[i].params.len() == args.len() {
                Ok(i)
            } else {
                Err(CodegenError::FunctionRedefined)
            }
        },
        None => {
            proof {
                lemma_find_func_bounds(state.module.funcs@, name@);
            }
            let decl = IrFunction {
                name: name.clone(),
                params: clone_strings(args),
                slots: Vec::new(),
                blocks: Vec::new(),
            };
            let idx = state.module.funcs.len();
            state.module.funcs.push(decl);
            proof {
                let m2 = state.module;
                let m1 = pre.module;
                assert(m1.funcs@.is_prefix_of(m2.funcs@));
                assert(m2.funcs@.last().name@ == name@);
                assert forall|a: int, b: int|
                    0 <= a < b < m2.funcs@.len() implies (#[trigger] m2.funcs@[a]).name@ != (
                #[trigger] m2.funcs@[b]).name@ by {
                    if b == m2.funcs@.len() - 1 {
                        assert(m2.funcs@[a] == m1.funcs@[a]);
                    } else {
                        assert(m2.funcs@[a] == m1.funcs@[a]);
                        assert(m2.funcs@[b] == m1.funcs@[b]);
                    }
                }
                assert forall|k: int|
                    0 <= k < m2.funcs@.len() implies ((#[trigger] m2.funcs@[k]).blocks@.len() == 0
                    || func_wf(m2.funcs@[k], m2)) by {
                    if k < m1.funcs@.len() {
                        assert(m2.funcs@[k] == m1.funcs@[k]);
                        if m1.funcs@[k].blocks@.len() != 0 {
                            assert(func_wf(m1.funcs@[k], m1));
                            assert forall|bi: int|
                                0 <= bi < m1.funcs@[k].blocks@.len() implies block_wf(
                                m2.funcs@[k],
                                #[trigger] m2.funcs@[k].blocks@[bi],
                                m2,
                            ) by {
                                lemma_block_wf_mono(
                                    m1.funcs@[k],
                                    m1.funcs@[k],
                                    m1.funcs@[k].blocks@[bi],
                                    m2,
                                    m1,
                                );
                            }
                        }
                    }
                }
                assert(module_wf(m2));
                assert forall|bi: int|
                    0 <= bi < state.cur_func.blocks@.len() implies block_wf(
                    state.cur_func,
                    #[trigger] state.cur_func.blocks@[bi],
                    m2,
                ) by {
                    lemma_block_wf_mono(
                        state.cur_func,
                        pre.cur_func,
                        pre.cur_func.blocks@[bi],
                        m2,
                        m1,
                    );
                }
                lemma_find_func_push(m1.funcs@, m2.funcs@.last(), name@);
                assert(m2.funcs@ =~= m1.funcs@.push(m2.funcs@.last()));
                assert(m2.funcs@[idx as int]@.params =~= args@.map_values(|a: String| a@));
                assert forall|n: Seq<char>|
                    n != name@ implies known_arity(m2, state.function_protos@, n) == known_arity(
                    m1,
                    pre.function_protos@,
                    n,
                ) by {
                    lemma_find_func_push(m1.funcs@, m2.funcs@.last(), n);
                    lemma_find_func_bounds(m1.funcs@, n);
                    if find_func(m1.funcs@, n) >= 0 {
                        assert(m2.funcs@[find_func(m1.funcs@, n)] == m1.funcs@[find_func(
                            m1.funcs@,
                            n,
                        )]);
                    }
                }
            }
            Ok(idx)
        },
    }
}

impl crate::ast::PrototypeAST {
    /// Emit the declaration a prototype stands for: a float function over
    /// float parameters. Re-declaring a known name with the same
    /// parameter count is idempotent; with a different count it is a
    /// redefinition error.
    pub fn codegen(&self, state: &mut State) -> (r: Result<usize, CodegenError>)
        requires
            module_wf(old(state).module),
            func_wf_partial(old(state).cur_func, old(state).module),
        ensures
            declare_post(
                *old(state),
                *final(state),
                self.name@,
                self.args@.len(),
                self.args@.map_values(|a: String| a@),
                r,
            ),
            func_wf_partial(final(state).cur_func, final(state).module),
    {
        declare(state, &self.name, &self.args)
    }
}

/// The builder a definition starts from: one open entry block, no slots,
/// empty scope.
pub open spec fn lower_start(proto: crate::ast::SpecProto) -> Lowering {
    Lowering {
        func: crate::ir::SpecFunc {
            name: proto.name,
            params: proto.args,
            slots: Seq::empty(),
            blocks: seq![crate::ir::SpecBlock { insts: Seq::empty(), term: None }],
        },
        cur: 0,
        scope: Seq::empty(),
    }
}

/// Bind each parameter left to right: an entry-block slot, a store of the
/// incoming value, the name brought into scope.
pub open spec fn spec_bind_params(params: Seq<Seq<char>>, ls: Lowering) -> Lowering
    decreases params,
{
    if params.len() == 0 {
        ls
    } else {
        let ls1 = spec_bind_params(params.drop_last(), ls);
        let s = g_slot(ls1);
        let ls2 = g_emit(
            g_alloca(ls1, params.last()),
            crate::ir::SpecInst::Store(s, crate::ir::SpecOperand::Param(params.len() - 1)),
        );
        g_bind(ls2, params.last(), s)
    }
}

/// The function a definition lowers to: parameters bound to entry slots,
/// the body lowered, and its value returned.
pub open spec fn spec_lower_function(
    proto: crate::ast::SpecProto,
    body: SpecAst,
) -> crate::ir::SpecFunc {
    let ls = spec_bind_params(proto.args, lower_start(proto));
    let r = spec_lower(body, ls);
    g_close(r.0, crate::ir::SpecTerm::Ret(r.1)).func
}

/// What lowering a whole definition guarantees.
pub open spec fn function_cg_post(
    pre: State,
    post: State,
    proto: crate::ast::SpecProto,
    body: SpecAst,
    r: Result<usize, CodegenError>,
) -> bool {
    &&& front_eq(pre, post)
    &&& module_wf(post.module)
    &&& post.function_protos@.len() == pre.function_protos@.len() + 1
    &&& post.function_protos@.drop_last() == pre.function_protos@
    &&& post.function_protos@.last()@ == proto
    &&& post.module.name == pre.module.name
    &&& func_wf_partial(post.cur_func, post.module)
    &&& (r is Ok) == (!redef_conflict(pre.module, proto) && expr_ok(
        body,
        names_set(proto.args),
        pre.module,
        post.function_protos@,
    ))
    &&& match r {
        Ok(i) => {
            &&& i < post.module.funcs@.len()
            &&& find_func(post.module.funcs@, proto.name) == i
            &&& (!module_has(pre.module, proto.name) ==> i == pre.module.funcs@.len())
            &&& post.module.funcs@[i as int].name@ == proto.name
            &&& post.module.funcs@[i as int].params@.len() == proto.args.len()
            &&& func_wf(post.module.funcs@[i as int], post.module)
            &&& post.module.funcs@[i as int]@ == spec_lower_function(proto, body)
            &&& forall|j: int|
                0 <= j < post.module.funcs@.len() && j != i && j < pre.module.funcs@.len()
                    ==> (#[trigger] post.module.funcs@[j]) == pre.module.funcs@[j]
            &&& forall|n: Seq<char>|
                n != proto.name ==> known_arity(post.module, post.function_protos@, n)
                    == known_arity(pre.module, pre.function_protos@, n)
            &&& known_arity(post.module, post.function_protos@, proto.name) == proto.args.len()
        },
        Err(_) => module_extends(post.module, pre.module),
    }
}

impl crate::ast::FunctionAST {
    /// Lower a definition: register its prototype, obtain (or materialize)
    /// the module declaration, bind each parameter to an entry-block slot
    /// holding the incoming value, lower the body and return its value.
    /// The finished function is well-formed throughout — what an IR
    /// verifier would check holds by construction — so it replaces the
    /// declaration in the module.
    #[verifier::rlimit(100)]
    pub fn codegen(&self, state: &mut State) -> (r: Result<usize, CodegenError>)
        requires
            module_wf(old(state).module),
        ensures
            function_cg_post(*old(state), *final(state), self.proto@, ast_view(*self.body), r),
    {
        let ghost s0 = *state;
        // Transfer the prototype to the registry, so later modules can
        // re-materialize the declaration.
        let pclone = crate::ast::PrototypeAST {
            name: self.proto.name.clone(),
            args: clone_strings(&self.proto.args),
            is_operator: self.proto.is_operator,
            precedence: self.proto.precedence,
        };
        state.function_protos.push(pclone);
        let ghost s1 = *state;
        proof {
            assert(s1.function_protos@.drop_last() =~= s0.function_protos@);
            assert(s1.function_protos@.last()@.args =~= self.proto@.args);
            assert(s1.function_protos@.last()@ == self.proto@);
            lemma_proto_find_bounds(s0.function_protos@, self.proto.name@);
            assert(s1.function_protos@.drop_last() == s0.function_protos@);
            assert(proto_find(s1.function_protos@, self.proto.name@) == s1.function_protos@.len()
                - 1);
        }
        // A fresh, empty function shell: one open entry block.
        let mut blocks: Vec<Block> = Vec::new();
        blocks.push(Block { insts: Vec::new(), term: None });
        let mut shell = IrFunction {
            name: self.proto.name.clone(),
            params: clone_strings(&self.proto.args),
            slots: Vec::new(),
            blocks,
        };
        core::mem::swap(&mut state.cur_func, &mut shell);
        state.cur_block = 0;
        let ghost s1b = *state;
        proof {
            assert(s1b.cur_func.blocks@.len() == 1);
            assert(s1b.cur_func.blocks@[0].insts@ =~= Seq::<Inst>::empty());
            assert(func_wf_partial(s1b.cur_func, s1b.module));
        }
        // Obtain or materialize the declaration; reject a redefinition.
        let idx = match declare(state, &self.proto.name, &self.proto.args) {
            Err(e) => {
                proof {
                    lemma_find_func_bounds(s0.module.funcs@, self.proto.name@);
                }
                return Err(e);
            },
            Ok(i) => i,
        };
        let ghost s1c = *state;
        if state.module.funcs[idx].blocks.len() > 0 {
            proof {
                lemma_find_func_bounds(s0.module.funcs@, self.proto.name@);
            }
            return Err(CodegenError::FunctionRedefined);
        }
        proof {
            assert(self.proto@.args.len() == self.proto.args@.len());
            lemma_find_func_bounds(state.module.funcs@, self.proto.name@);
            if module_has(s0.module, self.proto@.name) {
                assert(s1b.module == s0.module);
                assert(find_func(s0.module.funcs@, self.proto@.name) == idx as int);
            }
            assert(!redef_conflict(s0.module, self.proto@));
            assert(known_arity(s1c.module, s1c.function_protos@, self.proto.name@)
                == self.proto@.args.len());
            assert(s1.function_protos@ =~= s0.function_protos@.push(s1.function_protos@.last()));
            assert forall|n: Seq<char>|
                n != self.proto@.name implies known_arity(
                s1c.module,
                s1c.function_protos@,
                n,
            ) == known_arity(s0.module, s0.function_protos@, n) by {
                lemma_proto_find_push(s0.function_protos@, s1.function_protos@.last(), n);
                lemma_proto_find_bounds(s0.function_protos@, n);
                assert(known_arity(s1c.module, s1c.function_protos@, n) == known_arity(
                    s1b.module,
                    s1b.function_protos@,
                    n,
                ));
            }
        }
        // Bind each parameter: an entry-block slot holding the incoming
        // value, visible under the parameter's name.
        state.named_values.clear();
        let ghost argviews = self.proto@.args;
        let mut i: usize = 0;
        proof {
            assert(scope_of(state.named_values@) =~= names_set(argviews.take(0)));
            assert(scope_view(state.named_values@) =~= Seq::<(Seq<char>, int)>::empty());
            assert(state.cur_func@.slots =~= Seq::<Seq<char>>::empty());
            assert(state.cur_func@.blocks =~~= lower_start(self.proto@).func.blocks);
            assert(state.cur_func@.params =~= self.proto@.args);
            assert(lstate(*state) =~~= lower_start(self.proto@));
            assert(lstate(*state) == spec_bind_params(argviews.take(0), lower_start(self.proto@)));
        }
        while i < self.proto.args.len()
            invariant
                s0 == *old(state),
                module_wf(old(state).module),
                i <= self.proto.args@.len(),
                argviews == self.proto@.args,
                argviews.len() == self.proto.args@.len(),
                state.cg_inv(),
                state.cur_term_none(),
                front_eq(s0, *state),
                state.function_protos == s1.function_protos,
                s1.function_protos@.drop_last() == s0.function_protos@,
                s1.function_protos@.last()@ == self.proto@,
                state.cur_block == 0,
                state.cur_func.blocks@.len() == 1,
                state.cur_func.params@.len() == self.proto.args@.len(),
                state.cur_func.name@ == self.proto@.name,
                scope_of(state.named_values@) == names_set(argviews.take(i as int)),
                lstate(*state) == spec_bind_params(
                    argviews.take(i as int),
                    lower_start(self.proto@),
                ),
                known_arity(state.module, state.function_protos@, self.proto@.name)
                    == self.proto@.args.len(),
                forall|n: Seq<char>|
                    n != self.proto@.name ==> known_arity(state.module, state.function_protos@, n)
                        == known_arity(s0.module, s0.function_protos@, n),
                find_func(state.module.funcs@, self.proto@.name) == idx as int,
                idx < state.module.funcs@.len(),
                state.module.funcs@[idx as int].blocks@.len() == 0,
                state.module.funcs@[idx as int].params@.len() == self.proto@.args.len(),
                state.module.funcs@[idx as int].name@ == self.proto@.name,
                !redef_conflict(s0.module, self.proto@),
                forall|j: int|
                    0 <= j < s0.module.funcs@.len() && j != idx ==> (
                    #[trigger] state.module.funcs@[j]) == s0.module.funcs@[j],
                state.module.funcs@.len() <= s0.module.funcs@.len() + 1,
                state.module.name == s0.module.name,
                idx < s0.module.funcs@.len() ==> state.module.funcs@[idx as int]
                    == s0.module.funcs@[idx as int] && state.module.funcs@.len()
                    == s0.module.funcs@.len(),
                idx >= s0.module.funcs@.len() ==> state.module.funcs@.len()
                    == s0.module.funcs@.len() + 1 && idx == s0.module.funcs@.len(),
                !module_has(s0.module, self.proto@.name) ==> idx >= s0.module.funcs@.len(),
            decreases self.proto.args@.len() - i,
        {
            let pname = self.proto.args[i].clone();
            let pname2 = pname.clone();
            let slot = create_entry_block_alloca(state, pname);
            emit(state, Inst::Store(slot, Operand::Param(i)));
            let ghost nvpre = state.named_values@;
            state.named_values.push((pname2, slot));
            proof {
                assert(state.named_values@.drop_last() =~= nvpre);
                assert(state.named_values@.last() == (pname2, slot));
                lemma_scope_push(nvpre, (pname2, slot));
                lemma_scope_view_push(nvpre, (pname2, slot));
                assert(pname2@ == argviews[i as int]);
                assert(argviews.take(i + 1).drop_last() =~= argviews.take(i as int));
                assert(argviews.take(i + 1).last() == argviews[i as int]);
                assert(argviews.take(i + 1).len() - 1 == i);
                assert(names_set(argviews.take(i + 1)) == names_set(argviews.take(i as int)).insert(
                    argviews[i as int],
                ));
                assert(lstate(*state) == spec_bind_params(
                    argviews.take(i + 1),
                    lower_start(self.proto@),
                ));
            }
            i = i + 1;
        }
        let ghost s2 = *state;
        proof {
            assert(argviews.take(argviews.len() as int) =~= argviews);
            assert(lstate(s2) == spec_bind_params(argviews, lower_start(self.proto@)));
            assert forall|n: Seq<char>|
                known_arity(s0.module, s1.function_protos@, n) == known_arity(
                s2.module,
                s2.function_protos@,
                n,
            ) by {
                lemma_proto_find_push(s0.function_protos@, s1.function_protos@.last(), n);
                assert(s1.function_protos@ =~= s0.function_protos@.push(
                    s1.function_protos@.last(),
                ));
                if n == self.proto@.name {
                    lemma_find_func_bounds(s0.module.funcs@, n);
                    assert(known_arity(s2.module, s2.function_protos@, n)
                        == self.proto@.args.len());
                    if module_has(s0.module, n) {
                        assert(known_arity(s0.module, s1.function_protos@, n) == module_arity(
                            s0.module,
                            n,
                        ) as int);
                        assert(module_arity(s0.module, n) == self.proto@.args.len());
                    } else {
                        assert(proto_find(s1.function_protos@, n) == s1.function_protos@.len()
                            - 1);
                        assert(s1.function_protos@[proto_find(s1.function_protos@, n)].args@.len()
                            == self.proto@.args.len());
                    }
                } else {
                    assert(known_arity(s2.module, s2.function_protos@, n) == known_arity(
                        s0.module,
                        s0.function_protos@,
                        n,
                    ));
                }
            }
            lemma_expr_ok_arities(
                ast_view(*self.body),
                names_set(argviews),
                s2.module,
                s2.function_protos@,
                s0.module,
                s1.function_protos@,
            );
        }
        // Lower the body.
        let retv = match codegen_expr(state, &self.body) {
            Err(e) => {
                proof {
                    assert forall|j: int|
                        0 <= j < s0.module.funcs@.len() implies s2.module.funcs@[j]
                        == s0.module.funcs@[j] by {
                        if j != idx {
                            assert(s2.module.funcs@[j] == s0.module.funcs@[j]);
                        } else {
                            assert(idx < s0.module.funcs@.len());
                        }
                    }
                    assert(s0.module.funcs@ =~= s2.module.funcs@.subrange(
                        0,
                        s0.module.funcs@.len() as int,
                    ));
                    assert(module_extends(s2.module, s0.module));
                    lemma_module_extends_trans(state.module, s2.module, s0.module);
                }
                return Err(e);
            },
            Ok(v) => v,
        };
        let ghost s3 = *state;
        let ghost retv_v = retv@;
        set_term(state, Term::Ret(retv));
        let ghost s4 = *state;
        proof {
            assert(lstate(s4) == g_close(lstate(s3), crate::ir::SpecTerm::Ret(retv_v)));
            assert(s4.cur_func@ == spec_lower_function(self.proto@, ast_view(*self.body)));
            assert forall|bi: int|
                0 <= bi < s4.cur_func.blocks@.len() implies (
            #[trigger] s4.cur_func.blocks@[bi]).term is Some by {
                if bi == s3.cur_block {
                } else if bi < s2.cur_func.blocks@.len() {
                    assert(bi == 0 ==> s2.cur_block == 0);
                    assert(s3.cur_func.blocks@[bi].term is Some);
                } else {
                    assert(s3.cur_func.blocks@[bi].term is Some);
                }
            }
            assert(func_wf(s4.cur_func, s4.module));
        }
        // Move the finished function over its declaration.
        let ghost finv = s4.cur_func;
        let mut fin = IrFunction {
            name: String::new(),
            params: Vec::new(),
            slots: Vec::new(),
            blocks: Vec::new(),
        };
        core::mem::swap(&mut state.cur_func, &mut fin);
        state.module.funcs[idx] = fin;
        let ghost s5 = *state;
        proof {
            assert(s5.cur_func.blocks@.len() == 0);
            assert(func_wf_partial(s5.cur_func, s5.module));
            lemma_module_extends_find(s3.module, s2.module, self.proto@.name);
            assert(s2.module.funcs@ == s3.module.funcs@.subrange(
                0,
                s2.module.funcs@.len() as int,
            ));
            assert(s3.module.funcs@[idx as int] == s2.module.funcs@[idx as int]);
            assert(s4.module == s3.module);
            assert(s5.module.funcs@ == s4.module.funcs@.update(idx as int, s5.module.funcs@[
                idx as int
            ]));
            lemma_module_update(s4, s5, idx as int, self.proto@.name);
            assert(s5.module.funcs@[idx as int].blocks@.len() >= 1);
            assert(func_wf(s5.module.funcs@[idx as int], s5.module));
            assert(s5.module.funcs@[idx as int] == finv);
            assert(s5.module.funcs@[idx as int]@ == spec_lower_function(
                self.proto@,
                ast_view(*self.body),
            ));
            assert forall|j: int|
                0 <= j < s0.module.funcs@.len() implies s2.module.funcs@[j] == s0.module.funcs@[j] by {
                if j != idx {
                    assert(s2.module.funcs@[j] == s0.module.funcs@[j]);
                } else {
                    assert(idx < s0.module.funcs@.len());
                }
            }
            assert(s0.module.funcs@ =~= s2.module.funcs@.subrange(
                0,
                s0.module.funcs@.len() as int,
            ));
            assert(module_extends(s2.module, s0.module));
            assert forall|j: int|
                0 <= j < s5.module.funcs@.len() && j != idx && j < s0.module.funcs@.len() implies (
            #[trigger] s5.module.funcs@[j]) == s0.module.funcs@[j] by {
                assert(s3.module.funcs@[j] == s2.module.funcs@[j]);
                assert(s2.module.funcs@[j] == s0.module.funcs@[j]);
                assert(s5.module.funcs@[j] == s4.module.funcs@[j]);
            }
        }
        Ok(idx)
    }
}

/// Replacing a declaration by a finished function of the same name and
/// parameter count preserves everything the module promised.
pub proof fn lemma_module_update(s4: State, s5: State, idx: int, name: Seq<char>)
    requires
        0 <= idx < s4.module.funcs@.len(),
        s5.module.name == s4.module.name,
        s5.module.funcs@ == s4.module.funcs@.update(idx, s5.module.funcs@[idx]),
        s5.module.funcs@[idx].name@ == s4.module.funcs@[idx].name@,
        s5.module.funcs@[idx].params@.len() == s4.module.funcs@[idx].params@.len(),
        module_wf(s4.module),
        func_wf(s5.module.funcs@[idx], s4.module),
        s5.function_protos == s4.function_protos,
    ensures
        module_wf(s5.module),
        forall|n: Seq<char>| find_func(s5.module.funcs@, n) == find_func(s4.module.funcs@, n),
        forall|n: Seq<char>|
            known_arity(s5.module, s5.function_protos@, n) == known_arity(
                s4.module,
                s4.function_protos@,
                n,
            ),
{
    let m1 = s4.module;
    let m2 = s5.module;
    assert forall|n: Seq<char>| find_func(m2.funcs@, n) == find_func(m1.funcs@, n) by {
        lemma_find_func_update(m1.funcs@, idx, m2.funcs@[idx], n);
    }
    assert forall|n: Seq<char>|
        known_arity(m2, s5.function_protos@, n) == known_arity(m1, s4.function_protos@, n) by {
        lemma_find_func_bounds(m1.funcs@, n);
        if find_func(m1.funcs@, n) >= 0 {
            let fd = find_func(m1.funcs@, n);
            if fd == idx {
            } else {
                assert(m2.funcs@[fd] == m1.funcs@[fd]);
            }
        }
    }
    assert forall|k: int|
        0 <= k < m2.funcs@.len() implies ((#[trigger] m2.funcs@[k]).blocks@.len() == 0 || func_wf(
            m2.funcs@[k],
            m2,
        )) by {
        let f = m2.funcs@[k];
        if k == idx {
            lemma_func_wf_module_update(f, m2, m1, idx);
        } else {
            assert(f == m1.funcs@[k]);
            if f.blocks@.len() != 0 {
                assert(func_wf(f, m1));
                lemma_func_wf_module_update(f, m2, m1, idx);
            }
        }
    }
    assert forall|a: int, b: int|
        0 <= a < b < m2.funcs@.len() implies (#[trigger] m2.funcs@[a]).name@ != (
    #[trigger] m2.funcs@[b]).name@ by {
        assert(m2.funcs@[a].name@ == m1.funcs@[a].name@);
        assert(m2.funcs@[b].name@ == m1.funcs@[b].name@);
    }
}

/// A function stays well-formed when the module replaces one entry by a
/// function of the same name and parameter count.
pub proof fn lemma_func_wf_module_update(f: IrFunction, m2: IrModule, m1: IrModule, idx: int)
    requires
        0 <= idx < m1.funcs@.len(),
        m2.funcs@ == m1.funcs@.update(idx, m2.funcs@[idx]),
        m2.funcs@[idx].name@ == m1.funcs@[idx].name@,
        m2.funcs@[idx].params@.len() == m1.funcs@[idx].params@.len(),
        func_wf(f, m1),
    ensures
        func_wf(f, m2),
{
    assert forall|bi: int| 0 <= bi < f.blocks@.len() implies block_wf(
        f,
        #[trigger] f.blocks@[bi],
        m2,
    ) by {
        let b = f.blocks@[bi];
        assert(block_wf(f, b, m1));
        assert forall|j: int| 0 <= j < b.insts@.len() implies inst_wf(
            f,
            #[trigger] b.insts@[j],
            m2,
        ) by {
            assert(inst_wf(f, b.insts@[j], m1));
            match b.insts@[j] {
                Inst::Call(cn, _) => {
                    lemma_find_func_update(m1.funcs@, idx, m2.funcs@[idx], cn@);
                    lemma_find_func_bounds(m1.funcs@, cn@);
                    let fd = find_func(m1.funcs@, cn@);
                    if fd != idx {
                        assert(m2.funcs@[fd] == m1.funcs@[fd]);
                    }
                },
                _ => {},
            }
        }
    }
}

/// What general code generation yields: an expression's value or a
/// module function.
#[derive(Debug)]
pub enum CodegenValue {
    Val(Operand),
    Func(usize),
}

/// The function-index view of a general result.
pub open spec fn as_func_result(r: Result<CodegenValue, CodegenError>) -> Result<
    usize,
    CodegenError,
> {
    match r {
        Ok(CodegenValue::Func(i)) => Ok(i),
        Ok(CodegenValue::Val(_)) => Ok(0),
        Err(e) => Err(e),
    }
}

/// General code generation: expressions yield a float value, prototypes
/// a declaration, definitions a finished function.
pub fn codegen(state: &mut State, node: &AST) -> (r: Result<CodegenValue, CodegenError>)
    requires
        is_expr(ast_view(*node)) ==> old(state).cg_inv() && old(state).cur_term_none(),
        !is_expr(ast_view(*node)) ==> module_wf(old(state).module) && func_wf_partial(
            old(state).cur_func,
            old(state).module,
        ),
    ensures
        is_expr(ast_view(*node)) ==> {
            &&& expr_cg_post(*old(state), *final(state), r is Ok)
            &&& ((r is Ok) == expr_ok(
                ast_view(*node),
                scope_of(old(state).named_values@),
                old(state).module,
                old(state).function_protos@,
            ))
            &&& (r is Ok ==> r->Ok_0 is Val && operand_wf(
                final(state).cur_func,
                r->Ok_0->Val_0,
                Ty::F64,
            ))
        },
        ast_view(*node) is Prototype ==> declare_post(
            *old(state),
            *final(state),
            ast_view(*node)->Prototype_0.name,
            ast_view(*node)->Prototype_0.args.len() as nat,
            ast_view(*node)->Prototype_0.args,
            as_func_result(r),
        ) && (r is Ok ==> r->Ok_0 is Func),
        ast_view(*node) is Function ==> function_cg_post(
            *old(state),
            *final(state),
            ast_view(*node)->Function_proto,
            *ast_view(*node)->Function_body,
            as_func_result(r),
        ) && (r is Ok ==> r->Ok_0 is Func),
{
    match node {
        AST::Prototype(p) => match p.codegen(state) {
            Ok(i) => Ok(CodegenValue::Func(i)),
            Err(e) => Err(e),
        },
        AST::Function(f) => match f.codegen(state) {
            Ok(i) => Ok(CodegenValue::Func(i)),
            Err(e) => Err(e),
        },
        _ => match codegen_expr(state, node) {
            Ok(v) => Ok(CodegenValue::Val(v)),
            Err(e) => Err(e),
        },
    }
}

// ---------------------------------------------------------------------------
// The ghost builder and the lowering model: a deterministic ghost
// function that says exactly which instructions, blocks and terminators
// lowering an expression appends, and which operand it returns. The
// executable lowering is proved equal to it.
// ---------------------------------------------------------------------------

/// What expression lowering acts on: the function under construction,
/// the insertion block, and the variable scope.
#[verifier::ext_equal]
pub struct Lowering {
    pub func: crate::ir::SpecFunc,
    pub cur: int,
    pub scope: Seq<(Seq<char>, int)>,
}

/// The ghost scope of the session's binding list.
pub open spec fn scope_view(nv: Seq<(String, usize)>) -> Seq<(Seq<char>, int)> {
    nv.map_values(|p: (String, usize)| (p.0@, p.1 as int))
}

/// The ghost builder of a session.
pub open spec fn lstate(s: State) -> Lowering {
    Lowering {
        func: s.cur_func@,
        cur: s.cur_block as int,
        scope: scope_view(s.named_values@),
    }
}

/// Innermost binding of a name in the ghost scope.
pub open spec fn g_lookup(scope: Seq<(Seq<char>, int)>, x: Seq<char>) -> int
    decreases scope.len(),
{
    if scope.len() == 0 {
        -1
    } else if scope.last().0 == x {
        scope.last().1
    } else {
        g_lookup(scope.drop_last(), x)
    }
}

pub proof fn lemma_g_lookup(nv: Seq<(String, usize)>, x: Seq<char>)
    ensures
        g_lookup(scope_view(nv), x) == lookup_slot(nv, x),
    decreases nv.len(),
{
    if nv.len() > 0 {
        assert(scope_view(nv).last() == (nv.last().0@, nv.last().1 as int));
        assert(scope_view(nv).drop_last() =~= scope_view(nv.drop_last()));
        lemma_g_lookup(nv.drop_last(), x);
    }
}

pub open spec fn g_cur(ls: Lowering) -> crate::ir::SpecBlock {
    ls.func.blocks[ls.cur]
}

/// The operand naming the next instruction of the insertion block.
pub open spec fn g_reg(ls: Lowering) -> crate::ir::SpecOperand {
    crate::ir::SpecOperand::Reg(ls.cur, g_cur(ls).insts.len() as int)
}

/// Append one instruction to the insertion block.
pub open spec fn g_emit(ls: Lowering, i: crate::ir::SpecInst) -> Lowering {
    Lowering {
        func: crate::ir::SpecFunc {
            blocks: ls.func.blocks.update(
                ls.cur,
                crate::ir::SpecBlock { insts: g_cur(ls).insts.push(i), term: g_cur(ls).term },
            ),
            ..ls.func
        },
        ..ls
    }
}

/// Append a fresh empty block (the insertion point stays).
pub open spec fn g_newblock(ls: Lowering) -> Lowering {
    Lowering {
        func: crate::ir::SpecFunc {
            blocks: ls.func.blocks.push(
                crate::ir::SpecBlock { insts: Seq::empty(), term: None },
            ),
            ..ls.func
        },
        ..ls
    }
}

pub open spec fn g_nblocks(ls: Lowering) -> int {
    ls.func.blocks.len() as int
}

/// Finish the insertion block with a terminator.
pub open spec fn g_close(ls: Lowering, t: crate::ir::SpecTerm) -> Lowering {
    Lowering {
        func: crate::ir::SpecFunc {
            blocks: ls.func.blocks.update(
                ls.cur,
                crate::ir::SpecBlock { insts: g_cur(ls).insts, term: Some(t) },
            ),
            ..ls.func
        },
        ..ls
    }
}

/// Move the insertion point.
pub open spec fn g_move(ls: Lowering, b: int) -> Lowering {
    Lowering { cur: b, ..ls }
}

pub open spec fn g_slot(ls: Lowering) -> int {
    ls.func.slots.len() as int
}

/// Append an entry-block stack slot.
pub open spec fn g_alloca(ls: Lowering, name: Seq<char>) -> Lowering {
    Lowering {
        func: crate::ir::SpecFunc { slots: ls.func.slots.push(name), ..ls.func },
        ..ls
    }
}

/// Bring a binding into scope.
pub open spec fn g_bind(ls: Lowering, name: Seq<char>, s: int) -> Lowering {
    Lowering { scope: ls.scope.push((name, s)), ..ls }
}

/// Drop the innermost binding.
pub open spec fn g_pop(ls: Lowering) -> Lowering {
    Lowering { scope: ls.scope.drop_last(), ..ls }
}

/// Restore the scope to a prefix.
pub open spec fn g_trunc(ls: Lowering, n: int) -> Lowering {
    Lowering { scope: ls.scope.take(n), ..ls }
}

/// The 0.0 float constant.
pub open spec fn zero_op() -> crate::ir::SpecOperand {
    crate::ir::SpecOperand::Const(seq!['0', '.', '0'])
}

/// The 1.0 float constant: the default step of a `for`.
pub open spec fn one_op() -> crate::ir::SpecOperand {
    crate::ir::SpecOperand::Const(seq!['1', '.', '0'])
}

/// What lowering an expression emits, and the operand it returns. It is
/// meaningful on the inputs `expr_ok` admits; elsewhere it is garbage
/// that no contract relies on.
pub open spec fn spec_lower(node: SpecAst, ls: Lowering) -> (Lowering, crate::ir::SpecOperand)
    decreases node,
{
    match node {
        SpecAst::Number(lit) => (ls, crate::ir::SpecOperand::Const(lit)),
        SpecAst::Variable(x) => (
            g_emit(ls, crate::ir::SpecInst::Load(g_lookup(ls.scope, x))),
            g_reg(ls),
        ),
        SpecAst::Unary { op, operand } => {
            let r1 = spec_lower(*operand, ls);
            (
                g_emit(r1.0, crate::ir::SpecInst::Call(unary_fn_name(op), seq![r1.1])),
                g_reg(r1.0),
            )
        },
        SpecAst::Binary { op, lhs, rhs } => if op == '=' {
            let r1 = spec_lower(*rhs, ls);
            let x = match *lhs {
                SpecAst::Variable(x) => x,
                _ => Seq::empty(),
            };
            (
                g_emit(r1.0, crate::ir::SpecInst::Store(g_lookup(r1.0.scope, x), r1.1)),
                r1.1,
            )
        } else {
            let r1 = spec_lower(*lhs, ls);
            let r2 = spec_lower(*rhs, r1.0);
            if op == '+' {
                (g_emit(r2.0, crate::ir::SpecInst::FAdd(r1.1, r2.1)), g_reg(r2.0))
            } else if op == '-' {
                (g_emit(r2.0, crate::ir::SpecInst::FSub(r1.1, r2.1)), g_reg(r2.0))
            } else if op == '*' {
                (g_emit(r2.0, crate::ir::SpecInst::FMul(r1.1, r2.1)), g_reg(r2.0))
            } else if op == '<' {
                let ls3 = g_emit(r2.0, crate::ir::SpecInst::FCmpUlt(r1.1, r2.1));
                (g_emit(ls3, crate::ir::SpecInst::UiToFp(g_reg(r2.0))), g_reg(ls3))
            } else {
                (
                    g_emit(
                        r2.0,
                        crate::ir::SpecInst::Call(binary_fn_name(op), seq![r1.1, r2.1]),
                    ),
                    g_reg(r2.0),
                )
            }
        },
        SpecAst::Call { callee, args } => {
            let r1 = spec_lower_args(args, ls);
            (g_emit(r1.0, crate::ir::SpecInst::Call(callee, r1.1)), g_reg(r1.0))
        },
        SpecAst::If { cond, then_expr, else_expr } => {
            let r1 = spec_lower(*cond, ls);
            let cmp = g_reg(r1.0);
            let ls2 = g_emit(r1.0, crate::ir::SpecInst::FCmpOne(r1.1, zero_op()));
            let tb = g_nblocks(ls2);
            let ls5 = g_newblock(g_newblock(g_newblock(ls2)));
            let ls6 = g_close(ls5, crate::ir::SpecTerm::CondBr(cmp, tb, tb + 1));
            let r2 = spec_lower(*then_expr, g_move(ls6, tb));
            let then_end = r2.0.cur;
            let ls9 = g_close(r2.0, crate::ir::SpecTerm::Br(tb + 2));
            let r3 = spec_lower(*else_expr, g_move(ls9, tb + 1));
            let else_end = r3.0.cur;
            let ls12 = g_close(r3.0, crate::ir::SpecTerm::Br(tb + 2));
            let ls13 = g_move(ls12, tb + 2);
            (
                g_emit(
                    ls13,
                    crate::ir::SpecInst::Phi(seq![(r2.1, then_end), (r3.1, else_end)]),
                ),
                g_reg(ls13),
            )
        },
        SpecAst::For { name, start, end, step, body } => {
            let slot = g_slot(ls);
            let ls1 = g_alloca(ls, name);
            let r1 = spec_lower(*start, ls1);
            let ls3 = g_emit(r1.0, crate::ir::SpecInst::Store(slot, r1.1));
            let lb = g_nblocks(ls3);
            let ls6 = g_move(g_close(g_newblock(ls3), crate::ir::SpecTerm::Br(lb)), lb);
            let ls7 = g_bind(ls6, name, slot);
            let r2 = spec_lower(*body, ls7);
            let r3 = match step {
                Some(st) => spec_lower(*st, r2.0),
                None => (r2.0, one_op()),
            };
            let cur = g_reg(r3.0);
            let ls10 = g_emit(r3.0, crate::ir::SpecInst::Load(slot));
            let nxt = g_reg(ls10);
            let ls11 = g_emit(ls10, crate::ir::SpecInst::FAdd(cur, r3.1));
            let ls12 = g_emit(ls11, crate::ir::SpecInst::Store(slot, nxt));
            let r4 = spec_lower(*end, ls12);
            let cmp = g_reg(r4.0);
            let ls14 = g_emit(r4.0, crate::ir::SpecInst::FCmpOne(r4.1, zero_op()));
            let ab = g_nblocks(ls14);
            let ls16 = g_close(g_newblock(ls14), crate::ir::SpecTerm::CondBr(cmp, lb, ab));
            (g_pop(g_move(ls16, ab)), zero_op())
        },
        SpecAst::Var { bindings, body } => {
            let n0 = ls.scope.len() as int;
            let r1 = spec_lower_inits(bindings, ls);
            let ls2 = spec_install_bindings(bindings, r1.1, r1.0);
            let r2 = spec_lower(*body, ls2);
            (g_trunc(r2.0, n0), r2.1)
        },
        SpecAst::Prototype(_) => (ls, zero_op()),
        SpecAst::Function { .. } => (ls, zero_op()),
    }
}

/// Lower call arguments left to right.
pub open spec fn spec_lower_args(args: Seq<SpecAst>, ls: Lowering) -> (
    Lowering,
    Seq<crate::ir::SpecOperand>,
)
    decreases args,
{
    if args.len() == 0 {
        (ls, Seq::empty())
    } else {
        let r1 = spec_lower_args(args.drop_last(), ls);
        let r2 = spec_lower(args.last(), r1.0);
        (r2.0, r1.1.push(r2.1))
    }
}

/// Lower `var` initializers left to right in the enclosing scope; an
/// absent initializer is the 0.0 constant.
pub open spec fn spec_lower_inits(bs: Seq<(Seq<char>, Option<SpecAst>)>, ls: Lowering) -> (
    Lowering,
    Seq<crate::ir::SpecOperand>,
)
    decreases bs,
{
    if bs.len() == 0 {
        (ls, Seq::empty())
    } else {
        let r1 = spec_lower_inits(bs.drop_last(), ls);
        let r2 = match bs.last().1 {
            Some(e) => spec_lower(e, r1.0),
            None => (r1.0, zero_op()),
        };
        (r2.0, r1.1.push(r2.1))
    }
}

/// Install `var` bindings left to right: a fresh slot, a store of the
/// initializer's value, and the name brought into scope.
pub open spec fn spec_install_bindings(
    bs: Seq<(Seq<char>, Option<SpecAst>)>,
    vs: Seq<crate::ir::SpecOperand>,
    ls: Lowering,
) -> Lowering
    decreases bs,
{
    if bs.len() == 0 {
        ls
    } else {
        let ls1 = spec_install_bindings(bs.drop_last(), vs.drop_last(), ls);
        let s = g_slot(ls1);
        let ls2 = g_emit(g_alloca(ls1, bs.last().0), crate::ir::SpecInst::Store(s, vs.last()));
        g_bind(ls2, bs.last().0, s)
    }
}

pub proof fn lemma_scope_view_push(nv: Seq<(String, usize)>, p: (String, usize))
    ensures
        scope_view(nv.push(p)) == scope_view(nv).push((p.0@, p.1 as int)),
{
    assert(scope_view(nv.push(p)) =~= scope_view(nv).push((p.0@, p.1 as int)));
}

pub proof fn lemma_scope_view_drop(nv: Seq<(String, usize)>)
    requires
        nv.len() > 0,
    ensures
        scope_view(nv.drop_last()) == scope_view(nv).drop_last(),
{
    assert(scope_view(nv.drop_last()) =~= scope_view(nv).drop_last());
}

pub proof fn lemma_scope_view_take(nv: Seq<(String, usize)>, n: int)
    requires
        0 <= n <= nv.len(),
    ensures
        scope_view(nv.take(n)) == scope_view(nv).take(n),
{
    assert(scope_view(nv.take(n)) =~= scope_view(nv).take(n));
}

} // verus!
