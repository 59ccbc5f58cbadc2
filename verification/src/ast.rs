//! The abstract syntax tree: one node kind per expression form, plus
//! prototypes and function definitions. Every expression evaluates to a
//! 64-bit float; numeric literals carry their source text.
//!
//! Each node kind has a ghost twin over mathematical sequences (`SpecAst`,
//! `SpecProto`); the parser's contracts speak of those.

use vstd::prelude::*;

verus! {

/// A parsed item: an expression node, a prototype, or a definition.
///
/// A missing optional expression (the step of a `for`) is an explicit
/// `Option`; a parse failure is a `Result`, so no null node exists.
#[derive(Debug)]
pub enum AST {
    Number(NumberExprAST),
    Variable(VariableExprAST),
    Unary(UnaryExprAST),
    Binary(BinaryExprAST),
    Call(CallExprAST),
    If(IfExprAST),
    For(ForExprAST),
    Var(VarExprAST),
    Prototype(PrototypeAST),
    Function(FunctionAST),
}

/// Expression node for a numeric literal, kept as its source text.
#[derive(Debug)]
pub struct NumberExprAST {
    pub val: String,
}

/// Expression node for referencing a variable, like `a`.
#[derive(Debug)]
pub struct VariableExprAST {
    pub name: String,
}

/// Expression node for a user-defined unary operator application.
#[derive(Debug)]
pub struct UnaryExprAST {
    pub op: char,
    pub operand: Box<AST>,
}

/// Expression node for a binary operator application. `=` is the
/// assignment form: its left-hand side must be a `Variable` node.
#[derive(Debug)]
pub struct BinaryExprAST {
    pub op: char,
    pub lhs: Box<AST>,
    pub rhs: Box<AST>,
}

/// Expression node for a function call.
#[derive(Debug)]
pub struct CallExprAST {
    pub callee: String,
    pub args: Vec<AST>,
}

/// Expression node for `if`/`then`/`else`.
#[derive(Debug)]
pub struct IfExprAST {
    pub cond: Box<AST>,
    pub then_expr: Box<AST>,
    pub else_expr: Box<AST>,
}

/// Expression node for `for`/`in`. The step is optional.
#[derive(Debug)]
pub struct ForExprAST {
    pub name: String,
    pub start: Box<AST>,
    pub end: Box<AST>,
    pub step: Option<Box<AST>>,
    pub body: Box<AST>,
}

/// Expression node for `var`/`in`: local variables with optional
/// initializers, in scope in the body.
#[derive(Debug)]
pub struct VarExprAST {
    pub bindings: Vec<(String, Option<AST>)>,
    pub body: Box<AST>,
}

/// A function signature: its name and argument names. May also designate a
/// user-defined operator, in which case the name is `binary` or `unary`
/// followed by the operator character, and the precedence is meaningful
/// for the binary kind.
#[derive(Debug, Clone)]
pub struct PrototypeAST {
    pub name: String,
    pub args: Vec<String>,
    pub is_operator: bool,
    pub precedence: u32,
}

/// A function definition: a prototype and a body expression.
#[derive(Debug)]
pub struct FunctionAST {
    pub proto: PrototypeAST,
    pub body: Box<AST>,
}

// ---------------------------------------------------------------------------
// Ghost twins.
// ---------------------------------------------------------------------------

/// Ghost twin of `PrototypeAST`.
pub struct SpecProto {
    pub name: Seq<char>,
    pub args: Seq<Seq<char>>,
    pub is_operator: bool,
    pub precedence: int,
}

/// Ghost twin of `AST`.
pub enum SpecAst {
    Number(Seq<char>),
    Variable(Seq<char>),
    Unary { op: char, operand: Box<SpecAst> },
    Binary { op: char, lhs: Box<SpecAst>, rhs: Box<SpecAst> },
    Call { callee: Seq<char>, args: Seq<SpecAst> },
    If { cond: Box<SpecAst>, then_expr: Box<SpecAst>, else_expr: Box<SpecAst> },
    For {
        name: Seq<char>,
        start: Box<SpecAst>,
        end: Box<SpecAst>,
        step: Option<Box<SpecAst>>,
        body: Box<SpecAst>,
    },
    Var { bindings: Seq<(Seq<char>, Option<SpecAst>)>, body: Box<SpecAst> },
    Prototype(SpecProto),
    Function { proto: SpecProto, body: Box<SpecAst> },
}

impl View for PrototypeAST {
    type V = SpecProto;

    open spec fn view(&self) -> SpecProto {
        SpecProto {
            name: self.name@,
            args: self.args@.map_values(|a: String| a@),
            is_operator: self.is_operator,
            precedence: self.precedence as int,
        }
    }
}

/// The ghost value of a syntax tree.
pub open spec fn ast_view(a: AST) -> SpecAst
    decreases a,
{
    match a {
        AST::Number(n) => SpecAst::Number(n.val@),
        AST::Variable(v) => SpecAst::Variable(v.name@),
        AST::Unary(u) => SpecAst::Unary { op: u.op, operand: Box::new(ast_view(*u.operand)) },
        AST::Binary(b) => SpecAst::Binary {
            op: b.op,
            lhs: Box::new(ast_view(*b.lhs)),
            rhs: Box::new(ast_view(*b.rhs)),
        },
        AST::Call(c) => SpecAst::Call { callee: c.callee@, args: args_view(c.args@) },
        AST::If(i) => SpecAst::If {
            cond: Box::new(ast_view(*i.cond)),
            then_expr: Box::new(ast_view(*i.then_expr)),
            else_expr: Box::new(ast_view(*i.else_expr)),
        },
        AST::For(f) => SpecAst::For {
            name: f.name@,
            start: Box::new(ast_view(*f.start)),
            end: Box::new(ast_view(*f.end)),
            step: match f.step {
                Some(s) => Some(Box::new(ast_view(*s))),
                None => None,
            },
            body: Box::new(ast_view(*f.body)),
        },
        AST::Var(v) => SpecAst::Var { bindings: bindings_view(v.bindings@), body: Box::new(ast_view(*v.body)) },
        AST::Prototype(p) => SpecAst::Prototype(p@),
        AST::Function(f) => SpecAst::Function { proto: f.proto@, body: Box::new(ast_view(*f.body)) },
    }
}

/// The ghost value of an argument list.
pub open spec fn args_view(args: Seq<AST>) -> Seq<SpecAst>
    decreases args,
{
    if args.len() == 0 {
        Seq::empty()
    } else {
        args_view(args.drop_last()).push(ast_view(args.last()))
    }
}

/// The ghost value of a `var` binding list.
pub open spec fn bindings_view(bs: Seq<(String, Option<AST>)>) -> Seq<(Seq<char>, Option<SpecAst>)>
    decreases bs,
{
    if bs.len() == 0 {
        Seq::empty()
    } else {
        bindings_view(bs.drop_last()).push(
            (
                bs.last().0@,
                match bs.last().1 {
                    Some(e) => Some(ast_view(e)),
                    None => None,
                },
            ),
        )
    }
}

impl View for AST {
    type V = SpecAst;

    open spec fn view(&self) -> SpecAst {
        ast_view(*self)
    }
}

pub proof fn lemma_args_view_len(args: Seq<AST>)
    ensures
        args_view(args).len() == args.len(),
        forall|i: int| 0 <= i < args.len() ==> args_view(args)[i] == ast_view(#[trigger] args[i]),
    decreases args,
{
    if args.len() > 0 {
        lemma_args_view_len(args.drop_last());
        assert forall|i: int| 0 <= i < args.len() implies args_view(args)[i] == ast_view(
            #[trigger] args[i],
        ) by {
            if i < args.len() - 1 {
                assert(args.drop_last()[i] == args[i]);
                assert(args_view(args)[i] == args_view(args.drop_last())[i]);
            } else {
                assert(args[i] == args.last());
            }
        }
    }
}

pub proof fn lemma_bindings_view_len(bs: Seq<(String, Option<AST>)>)
    ensures
        bindings_view(bs).len() == bs.len(),
        forall|i: int|
            0 <= i < bs.len() ==> bindings_view(bs)[i] == (
                (#[trigger] bs[i]).0@,
                match bs[i].1 {
                    Some(e) => Some(ast_view(e)),
                    None => None::<SpecAst>,
                },
            ),
    decreases bs,
{
    if bs.len() > 0 {
        lemma_bindings_view_len(bs.drop_last());
        assert forall|i: int|
            0 <= i < bs.len() implies bindings_view(bs)[i] == (
            (#[trigger] bs[i]).0@,
            match bs[i].1 {
                Some(e) => Some(ast_view(e)),
                None => None::<SpecAst>,
            },
        ) by {
            if i < bs.len() - 1 {
                assert(bs.drop_last()[i] == bs[i]);
                assert(bindings_view(bs)[i] == bindings_view(bs.drop_last())[i]);
            } else {
                assert(bs[i] == bs.last());
            }
        }
    }
}

pub proof fn lemma_args_view_push(s: Seq<AST>, a: AST)
    ensures
        args_view(s.push(a)) == args_view(s).push(ast_view(a)),
{
    assert(s.push(a).drop_last() =~= s);
    assert(s.push(a).last() == a);
}

pub proof fn lemma_bindings_view_push(s: Seq<(String, Option<AST>)>, b: (String, Option<AST>))
    ensures
        bindings_view(s.push(b)) == bindings_view(s).push(
            (
                b.0@,
                match b.1 {
                    Some(e) => Some(ast_view(e)),
                    None => None::<SpecAst>,
                },
            ),
        ),
{
    assert(s.push(b).drop_last() =~= s);
    assert(s.push(b).last() == b);
}

/// Expression nodes: everything except prototypes and definitions.
pub open spec fn is_expr(a: SpecAst) -> bool {
    !(a is Prototype) && !(a is Function)
}

// ---------------------------------------------------------------------------
// Constructors.
// ---------------------------------------------------------------------------

impl NumberExprAST {
    pub fn new(val: String) -> (r: Self)
        ensures
            r.val == val,
    {
        NumberExprAST { val }
    }
}

impl VariableExprAST {
    pub fn new(name: String) -> (r: Self)
        ensures
            r.name == name,
    {
        VariableExprAST { name }
    }
}

impl UnaryExprAST {
    pub fn new(op: char, operand: AST) -> (r: Self)
        ensures
            r.op == op,
            *r.operand == operand,
    {
        UnaryExprAST { op, operand: Box::new(operand) }
    }
}

impl BinaryExprAST {
    pub fn new(op: char, lhs: AST, rhs: AST) -> (r: Self)
        ensures
            r.op == op,
            *r.lhs == lhs,
            *r.rhs == rhs,
    {
        BinaryExprAST { op, lhs: Box::new(lhs), rhs: Box::new(rhs) }
    }
}

impl CallExprAST {
    pub fn new(callee: String, args: Vec<AST>) -> (r: Self)
        ensures
            r.callee == callee,
            r.args == args,
    {
        CallExprAST { callee, args }
    }
}

impl IfExprAST {
    pub fn new(cond: AST, then_expr: AST, else_expr: AST) -> (r: Self)
        ensures
            *r.cond == cond,
            *r.then_expr == then_expr,
            *r.else_expr == else_expr,
    {
        IfExprAST {
            cond: Box::new(cond),
            then_expr: Box::new(then_expr),
            else_expr: Box::new(else_expr),
        }
    }
}

impl ForExprAST {
    pub fn new(name: String, start: AST, end: AST, step: Option<AST>, body: AST) -> (r: Self)
        ensures
            r.name == name,
            *r.start == start,
            *r.end == end,
            r.step == match step {
                Some(e) => Some(Box::new(e)),
                None => None,
            },
            *r.body == body,
    {
        ForExprAST {
            name,
            start: Box::new(start),
            end: Box::new(end),
            step: match step {
                Some(e) => Some(Box::new(e)),
                None => None,
            },
            body: Box::new(body),
        }
    }
}

impl VarExprAST {
    pub fn new(bindings: Vec<(String, Option<AST>)>, body: AST) -> (r: Self)
        ensures
            r.bindings == bindings,
            *r.body == body,
    {
        VarExprAST { bindings, body: Box::new(body) }
    }
}

impl PrototypeAST {
    pub fn get_name(&self) -> (r: &str)
        ensures
            r@ == self.name@,
    {
        self.name.as_str()
    }

    /// An ordinary (non-operator) prototype.
    pub fn new(name: String, args: Vec<String>) -> (r: Self)
        ensures
            r.name == name,
            r.args == args,
            r.is_operator == false,
            r.precedence == 0,
    {
        PrototypeAST { name, args, is_operator: false, precedence: 0 }
    }

    /// A user-defined operator prototype.
    pub fn new_operator(name: String, args: Vec<String>, precedence: u32) -> (r: Self)
        ensures
            r.name == name,
            r.args == args,
            r.is_operator == true,
            r.precedence == precedence,
    {
        PrototypeAST { name, args, is_operator: true, precedence }
    }
}

impl FunctionAST {
    /// A definition pairs a prototype with a body expression; the body is
    /// never itself a prototype or a definition.
    pub fn new(proto: PrototypeAST, body: AST) -> (r: Self)
        requires
            is_expr(body@),
        ensures
            r.proto == proto,
            *r.body == body,
    {
        FunctionAST { proto, body: Box::new(body) }
    }
}

} // verus!
