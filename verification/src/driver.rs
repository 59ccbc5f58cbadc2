//! The driver: dispatch one parsed top-level item at a time. Definitions
//! and externs go into the persistent module; a top-level expression is
//! compiled as the zero-argument function `anon`, handed back for the
//! caller to run, and scrubbed from the module again so it does not
//! pollute later statements.

use vstd::prelude::*;

use crate::ast::AST;
use crate::ast::SpecAst;
use crate::codegen::expr_ok;
use crate::codegen::names_set;
use crate::codegen::redef_conflict;
use crate::codegen::spec_lower_function;
use crate::codegen::CodegenError;
use crate::ir::find_func;
use crate::ir::module_arity;
use crate::ir::func_wf;
use crate::ir::func_wf_partial;
use crate::ir::module_extends;
use crate::ir::module_has;
use crate::ir::module_wf;
use crate::ir::IrFunction;
use crate::ir::IrModule;
use crate::lexer::get_next_token;
use crate::lexer::Tok;
use crate::lexer::Token;
use crate::parser::parse_definition;
use crate::parser::parse_extern;
use crate::parser::parse_top_level_expr;
use crate::parser::spec_parse_definition;
use crate::parser::spec_parse_expression;
use crate::parser::spec_parse_extern;
use crate::parser::ParseError;
use crate::State;

verus! {

/// A failure in either stage of handling one statement.
#[derive(Debug, Clone, Copy, PartialEq, Eq, Structural)]
pub enum CompileError {
    Parse(ParseError),
    Codegen(CodegenError),
}

/// What handling one statement did.
#[derive(Debug)]
pub enum Handled {
    /// A definition was compiled into the module.
    Definition(usize),
    /// An extern prototype was declared and registered.
    Extern(usize),
    /// A top-level expression, compiled as the zero-argument function
    /// `anon`: run it against the session's module, print its float, and
    /// drop it.
    TopLevel(IrFunction),
    /// A bare `;` was skipped.
    Separator,
    /// End of input.
    Eof,
}

/// The session invariant the driver maintains between statements.
pub open spec fn session_wf(s: State) -> bool {
    &&& s.lex_wf()
    &&& s.prec_wf()
    &&& module_wf(s.module)
    &&& func_wf_partial(s.cur_func, s.module)
}

/// What handling a definition guarantees: the parse follows the grammar
/// model; when it succeeds, compilation succeeds exactly when the
/// definition does not clash with the module and its body is closed
/// under its parameters and the known functions, and the module entry is
/// exactly the lowering of the parsed body under the parsed prototype.
pub open spec fn definition_post(pre: State, post: State, r: Result<usize, CompileError>) -> bool {
    let m = spec_parse_definition(pre.binop_precedence@, pre.rest_toks());
    &&& match r {
        Ok(i) => {
            &&& m.0 is Ok
            &&& post.binop_precedence@ == m.2
            &&& post.rest_toks() == m.1
            &&& i < post.module.funcs@.len()
            &&& func_wf(post.module.funcs@[i as int], post.module)
        },
        Err(CompileError::Parse(e)) => m.0 == Err::<SpecAst, ParseError>(e),
        Err(CompileError::Codegen(_)) => m.0 is Ok && post.binop_precedence@ == m.2
            && post.rest_toks() == m.1,
    }
    &&& (m.0 is Ok && m.0->Ok_0 is Function ==> {
        let proto = m.0->Ok_0->Function_proto;
        let body = *m.0->Ok_0->Function_body;
        &&& (r is Ok) == (!redef_conflict(pre.module, proto) && expr_ok(
            body,
            names_set(proto.args),
            pre.module,
            post.function_protos@,
        ))
        &&& post.function_protos@.len() == pre.function_protos@.len() + 1
        &&& post.function_protos@.drop_last() == pre.function_protos@
        &&& post.function_protos@.last()@ == proto
        &&& (r is Ok ==> {
            let i = r->Ok_0;
            &&& find_func(post.module.funcs@, proto.name) == i as int
            &&& post.module.funcs@[i as int]@ == spec_lower_function(proto, body)
            &&& forall|j: int|
                0 <= j < post.module.funcs@.len() && j != i && j < pre.module.funcs@.len()
                    ==> (#[trigger] post.module.funcs@[j]) == pre.module.funcs@[j]
        })
    })
}

/// definition handler: parse `def prototype expression` and compile it.
/// On a parse failure one token is skipped for recovery.
pub fn handle_definition(state: &mut State) -> (r: Result<usize, CompileError>)
    requires
        session_wf(*old(state)),
    ensures
        session_wf(*final(state)),
        definition_post(*old(state), *final(state), r),
{
    let node = match parse_definition(state) {
        Err(e) => {
            // Skip the token for error recovery.
            get_next_token(state);
            return Err(CompileError::Parse(e));
        },
        Ok(n) => n,
    };
    match node {
        AST::Function(f) => match f.codegen(state) {
            Ok(i) => Ok(i),
            Err(e) => Err(CompileError::Codegen(e)),
        },
        _ => {
            proof {
                assert(false);
            }
            Err(CompileError::Parse(ParseError::ExpectedFunctionName))
        },
    }
}

/// What handling an extern guarantees: success exactly unless the name
/// is already declared with a different parameter count; the emitted
/// declaration and the registered prototype carry the parsed prototype's
/// name and parameters.
pub open spec fn extern_post(pre: State, post: State, r: Result<usize, CompileError>) -> bool {
    let m = spec_parse_extern(pre.rest_toks());
    &&& match r {
        Ok(i) => {
            &&& m.0 is Ok
            &&& post.rest_toks() == m.1
            &&& i < post.module.funcs@.len()
            &&& post.function_protos@.len() == pre.function_protos@.len() + 1
        },
        Err(CompileError::Parse(e)) => m.0 == Err::<SpecAst, ParseError>(e),
        Err(CompileError::Codegen(e)) => m.0 is Ok && e == CodegenError::FunctionRedefined,
    }
    &&& (m.0 is Ok && m.0->Ok_0 is Prototype ==> {
        let proto = m.0->Ok_0->Prototype_0;
        &&& (r is Ok) == !(module_has(pre.module, proto.name) && module_arity(
            pre.module,
            proto.name,
        ) != proto.args.len())
        &&& (r is Ok ==> {
            let i = r->Ok_0;
            &&& post.function_protos@.last()@ == proto
            &&& post.function_protos@.drop_last() == pre.function_protos@
            &&& find_func(post.module.funcs@, proto.name) == i as int
            &&& post.module.funcs@[i as int].name@ == proto.name
            &&& post.module.funcs@[i as int].params@.len() == proto.args.len()
            &&& (!module_has(pre.module, proto.name) ==> post.module.funcs@[i as int]@.params
                == proto.args && post.module.funcs@[i as int].blocks@.len() == 0)
            &&& (module_has(pre.module, proto.name) ==> post.module == pre.module)
        })
    })
}

/// extern handler: parse `extern prototype`, emit its declaration and
/// keep the prototype in the registry for later modules.
pub fn handle_extern(state: &mut State) -> (r: Result<usize, CompileError>)
    requires
        session_wf(*old(state)),
    ensures
        session_wf(*final(state)),
        extern_post(*old(state), *final(state), r),
{
    let node = match parse_extern(state) {
        Err(e) => {
            // Skip the token for error recovery.
            get_next_token(state);
            return Err(CompileError::Parse(e));
        },
        Ok(n) => n,
    };
    match node {
        AST::Prototype(p) => match p.codegen(state) {
            Ok(i) => {
                let ghost pspre = state.function_protos@;
                proof {
                    crate::ir::lemma_find_func_bounds(state.module.funcs@, p.name@);
                }
                state.function_protos.push(p);
                proof {
                    assert(state.function_protos@.drop_last() =~= pspre);
                    assert(func_wf_partial(state.cur_func, state.module));
                }
                Ok(i)
            },
            Err(e) => Err(CompileError::Codegen(e)),
        },
        _ => {
            proof {
                assert(false);
            }
            Err(CompileError::Parse(ParseError::ExpectedFunctionName))
        },
    }
}

/// What handling a top-level expression guarantees: the returned
/// function is exactly the lowering of the parsed expression wrapped in
/// the zero-argument `anon` prototype, success is owed exactly when the
/// expression is closed under the known functions (and no module entry
/// is already named `anon`), and the module is restored afterwards.
pub open spec fn top_level_post(pre: State, post: State, r: Result<IrFunction, CompileError>) -> bool {
    let m = spec_parse_expression(pre.binop_precedence@, pre.rest_toks());
    &&& match r {
        Ok(f) => {
            &&& m.0 is Ok
            &&& post.rest_toks() == m.1
            &&& post.module.funcs@ == pre.module.funcs@
            &&& f.blocks@.len() >= 1
            &&& f@ == spec_lower_function(crate::parser::anon_proto(), m.0->Ok_0)
            &&& post.function_protos@.len() == pre.function_protos@.len() + 1
            &&& post.function_protos@.drop_last() == pre.function_protos@
            &&& post.function_protos@.last()@ == crate::parser::anon_proto()
            &&& exists|mm: IrModule|
                module_extends(mm, post.module) && module_wf(mm) && func_wf(f, mm)
        },
        Err(CompileError::Parse(e)) => m.0 == Err::<SpecAst, ParseError>(e),
        Err(CompileError::Codegen(_)) => m.0 is Ok,
    }
    &&& (m.0 is Ok ==> (r is Ok) == (!module_has(pre.module, crate::parser::anon_proto().name)
        && expr_ok(
        m.0->Ok_0,
        names_set(crate::parser::anon_proto().args),
        pre.module,
        post.function_protos@,
    )))
}

/// top-level-expression handler: wrap the expression in the
/// zero-argument function `anon`, compile it, hand the finished function
/// back, and restore the module so the throwaway function does not
/// persist. An existing module entry named `anon` blocks this.
pub fn handle_top_level_expression(state: &mut State) -> (r: Result<IrFunction, CompileError>)
    requires
        session_wf(*old(state)),
    ensures
        session_wf(*final(state)),
        top_level_post(*old(state), *final(state), r),
{
    let ghost s0 = *state;
    let old_len = state.module.funcs.len();
    let node = match parse_top_level_expr(state) {
        Err(e) => {
            // Skip the token for error recovery.
            get_next_token(state);
            return Err(CompileError::Parse(e));
        },
        Ok(n) => n,
    };
    match node {
        AST::Function(f) => {
            let anon_name = f.proto.name.clone();
            match crate::codegen::find_func_exec(&state.module, &anon_name) {
                Some(_) => {
                    return Err(CompileError::Codegen(CodegenError::FunctionRedefined));
                },
                None => {},
            }
            proof {
                crate::ir::lemma_find_func_bounds(state.module.funcs@, anon_name@);
            }
            let ghost s1 = *state;
            match f.codegen(state) {
                Ok(idx) => {
                    let ghost smid = *state;
                    proof {
                        assert(idx == old_len);
                        assert(!module_has(s1.module, f.proto@.name));
                    }
                    let anon_f = state.module.funcs.remove(idx);
                    state.module.funcs.truncate(old_len);
                    state.cur_func = IrFunction {
                        name: String::new(),
                        params: Vec::new(),
                        slots: Vec::new(),
                        blocks: Vec::new(),
                    };
                    proof {
                        assert(state.cur_func.blocks@.len() == 0);
                        assert(func_wf_partial(state.cur_func, state.module));
                        assert(state.module.funcs@ =~= s0.module.funcs@);
                        assert(module_extends(smid.module, state.module));
                        assert(func_wf(anon_f, smid.module));
                        assert(exists|mm: IrModule|
                            module_extends(mm, state.module) && module_wf(mm) && func_wf(
                                anon_f,
                                mm,
                            ));
                    }
                    Ok(anon_f)
                },
                Err(e) => {
                    let ghost sm = *state;
                    state.module.funcs.truncate(old_len);
                    // The half-built function may reference the dropped
                    // declarations; start from a clean slate.
                    state.cur_func = IrFunction {
                        name: String::new(),
                        params: Vec::new(),
                        slots: Vec::new(),
                        blocks: Vec::new(),
                    };
                    proof {
                        assert(s0.module.funcs@ == sm.module.funcs@.subrange(0, old_len as int));
                        assert(state.module.funcs@ =~= s0.module.funcs@);
                        assert(module_wf(state.module)) by {
                            assert(state.module.funcs@ == s0.module.funcs@);
                            assert(module_wf(s0.module));
                            assert forall|k: int|
                                0 <= k < state.module.funcs@.len() implies ((
                            #[trigger] state.module.funcs@[k]).blocks@.len() == 0 || func_wf(
                                state.module.funcs@[k],
                                state.module,
                            )) by {
                                if s0.module.funcs@[k].blocks@.len() != 0 {
                                    assert(func_wf(s0.module.funcs@[k], s0.module));
                                    crate::ir::lemma_wf_same_funcs(
                                        s0.module.funcs@[k],
                                        s0.module,
                                        state.module,
                                    );
                                }
                            }
                        }
                    }
                    Err(CompileError::Codegen(e))
                },
            }
        },
        _ => {
            proof {
                assert(false);
            }
            Err(CompileError::Parse(ParseError::ExpectedExpression))
        },
    }
}

/// Tokens that begin a top-level expression: anything that is not end
/// of input, a separator, `def` or `extern`.
pub open spec fn starts_top_level(t: Tok) -> bool {
    &&& t != Tok::Eof
    &&& t != Tok::Ch(';')
    &&& t != Tok::Def
    &&& t != Tok::Extern
}

/// Dispatch on the current token, as the read-eval loop does: end of
/// input stops, `;` is consumed as a separator, `def` and `extern`
/// extend the module, and anything else is a top-level expression whose
/// compiled form is handed back.
pub fn handle_statement(state: &mut State) -> (r: Result<Handled, CompileError>)
    requires
        session_wf(*old(state)),
    ensures
        session_wf(*final(state)),
        old(state).cur_tok@ == Tok::Eof ==> r is Ok && r->Ok_0 is Eof && *final(state) == *old(state),
        old(state).cur_tok@ == Tok::Ch(';') ==> r is Ok && r->Ok_0 is Separator && final(state).rest_toks() == old(state).rest_toks().skip(1) && crate::cg_eq(
            *old(state),
            *final(state),
        ) && final(state).binop_precedence == old(state).binop_precedence,
        old(state).cur_tok@ == Tok::Def ==> {
            &&& (r is Ok ==> r->Ok_0 is Definition && definition_post(
                *old(state),
                *final(state),
                Ok(r->Ok_0->Definition_0),
            ))
            &&& (r is Err ==> definition_post(
                *old(state),
                *final(state),
                Err::<usize, CompileError>(r->Err_0),
            ))
        },
        old(state).cur_tok@ == Tok::Extern ==> {
            &&& (r is Ok ==> r->Ok_0 is Extern && extern_post(
                *old(state),
                *final(state),
                Ok(r->Ok_0->Extern_0),
            ))
            &&& (r is Err ==> extern_post(
                *old(state),
                *final(state),
                Err::<usize, CompileError>(r->Err_0),
            ))
        },
        starts_top_level(old(state).cur_tok@) ==> {
            &&& (r is Ok ==> r->Ok_0 is TopLevel && top_level_post(
                *old(state),
                *final(state),
                Ok(r->Ok_0->TopLevel_0),
            ))
            &&& (r is Err ==> top_level_post(
                *old(state),
                *final(state),
                Err::<IrFunction, CompileError>(r->Err_0),
            ))
        },
{
    match &state.cur_tok {
        Token::TokEOF => Ok(Handled::Eof),
        Token::TokChar(';') => {
            get_next_token(state);
            Ok(Handled::Separator)
        },
        Token::TokDef => match handle_definition(state) {
            Ok(i) => Ok(Handled::Definition(i)),
            Err(e) => Err(e),
        },
        Token::TokExtern => match handle_extern(state) {
            Ok(i) => Ok(Handled::Extern(i)),
            Err(e) => Err(e),
        },
        _ => match handle_top_level_expression(state) {
            Ok(f) => Ok(Handled::TopLevel(f)),
            Err(e) => Err(e),
        },
    }
}

} // verus!
