//! Core of a small JIT compiler for a toy numeric language: a streaming
//! lexer, a precedence-climbing parser with user-definable operators, and a
//! code generator that lowers the syntax tree into an SSA intermediate
//! representation whose structural well-formedness is proved.
//!
//! Every value of the language is a 64-bit float. Numeric literals are kept
//! as their source text throughout the core; the surrounding program turns
//! them into machine floats when it materializes the emitted code.

pub mod ast;
pub mod codegen;
pub mod driver;
pub mod ir;
pub mod lexer;
pub mod parser;

use vstd::prelude::*;

use crate::lexer::Tok;
use crate::lexer::Token;

verus! {

/// The compiler session: the lexer cursor, the current token, and the
/// binary-operator precedence table.
///
/// The whole pipeline threads one session value; there are no globals.
pub struct State {
    /// Source text being consumed, one character per cell.
    pub input: Vec<char>,
    /// Index of the next unread character.
    pub pos: usize,
    /// The most recently produced token.
    pub cur_tok: Token,
    /// Binary-operator precedences. Later entries shadow earlier ones, so
    /// installing a user-defined operator is a push.
    pub binop_precedence: Vec<(char, i32)>,
    /// The module functions and declarations are emitted into.
    pub module: crate::ir::IrModule,
    /// The function currently being emitted. Meaningful only while a
    /// definition is being lowered; a finished function moves into the
    /// module.
    pub cur_func: crate::ir::IrFunction,
    /// The block of `cur_func` new instructions go to.
    pub cur_block: usize,
    /// Variable name to stack slot of `cur_func`, innermost binding last.
    pub named_values: Vec<(String, usize)>,
    /// The cross-module prototype registry: later entries shadow earlier
    /// ones. Declarations are re-materialized from here on demand.
    pub function_protos: Vec<crate::ast::PrototypeAST>,
}

/// The code-generator state the lexer and the parser leave untouched.
pub open spec fn cg_eq(a: State, b: State) -> bool {
    &&& a.module == b.module
    &&& a.cur_func == b.cur_func
    &&& a.cur_block == b.cur_block
    &&& a.named_values == b.named_values
    &&& a.function_protos == b.function_protos
}

/// The precedence table a fresh session starts from. Assignment binds
/// loosest; `*` binds tightest.
pub open spec fn seed_precedence() -> Seq<(char, i32)> {
    seq![('=', 2i32), ('<', 10i32), ('+', 20i32), ('-', 20i32), ('*', 40i32)]
}

impl State {
    /// The lexer cursor stays inside the input.
    pub open spec fn lex_wf(&self) -> bool {
        self.pos <= self.input.len()
    }

    /// Every operator priority lies in 1..=100: the seeds do, and
    /// user-defined operators are checked before they are installed.
    pub open spec fn prec_wf(&self) -> bool {
        forall|i: int|
            0 <= i < self.binop_precedence@.len() ==> 1 <= (
            #[trigger] self.binop_precedence@[i]).1 <= 100
    }

    /// The stream of tokens still to be consumed, beginning with the
    /// current token. Once the end-of-input token is current, the stream
    /// stays at exactly that token.
    pub open spec fn rest_toks(&self) -> Seq<Tok> {
        if self.cur_tok@ == Tok::Eof {
            seq![Tok::Eof]
        } else {
            seq![self.cur_tok@] + crate::lexer::toks_from(self.input@, self.pos as int)
        }
    }

    /// Start a session over the given source text.
    pub fn new(input: Vec<char>) -> (s: State)
        ensures
            s.lex_wf(),
            s.input == input,
            s.pos == 0,
            s.cur_tok@ == Tok::Undef,
            s.binop_precedence@ == seed_precedence(),
            s.prec_wf(),
            s.module.funcs@.len() == 0,
            crate::ir::module_wf(s.module),
            s.cur_func.blocks@.len() == 0,
            s.module.name@ == "kaleidoscope"@,
            s.named_values@.len() == 0,
            s.function_protos@.len() == 0,
    {
        let mut table: Vec<(char, i32)> = Vec::new();
        table.push(('=', 2));
        table.push(('<', 10));
        table.push(('+', 20));
        table.push(('-', 20));
        table.push(('*', 40));
        proof {
            assert(table@ =~= seed_precedence());
        }
        State {
            input,
            pos: 0,
            cur_tok: Token::TokUndef,
            binop_precedence: table,
            module: crate::ir::IrModule { name: String::from_str("kaleidoscope"), funcs: Vec::new() },
            cur_func: crate::ir::IrFunction {
                name: String::new(),
                params: Vec::new(),
                slots: Vec::new(),
                blocks: Vec::new(),
            },
            cur_block: 0,
            named_values: Vec::new(),
            function_protos: Vec::new(),
        }
    }
}

} // verus!
