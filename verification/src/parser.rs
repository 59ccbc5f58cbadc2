//! The parser: a precedence-climbing recursive-descent parser over the
//! token stream, building syntax trees.
//!
//! The grammar is stated once as a ghost model (`spec_parse_expression` and
//! friends) over token sequences; every executable parse function is proved
//! to behave exactly as the model says on the session's remaining tokens.

use vstd::prelude::*;

use crate::ast::AST;
use crate::ast::BinaryExprAST;
use crate::ast::CallExprAST;
use crate::ast::ForExprAST;
use crate::ast::IfExprAST;
use crate::ast::NumberExprAST;
use crate::ast::SpecAst;
use crate::ast::is_expr;
use crate::ast::UnaryExprAST;
use crate::ast::VarExprAST;
use crate::ast::VariableExprAST;
use crate::lexer::is_digit_char;
use crate::lexer::is_num_char;
use crate::lexer::Tok;
use crate::lexer::Token;
use crate::lexer::get_next_token;
use crate::lexer::push_char;
use crate::State;

verus! {

/// Why a parse failed: the expectation that was not met at the current
/// token. The driver reports the error and skips one token.
#[derive(Debug, Clone, Copy, PartialEq, Eq, Structural)]
pub enum ParseError {
    /// A token that cannot start an expression stood where an expression
    /// was expected.
    ExpectedExpression,
    /// A numeric literal that does not denote a float, such as `1.2.3`.
    MalformedNumber,
    /// A parenthesized expression was not closed by `)`.
    ExpectedClosingParen,
    /// An argument list went on without `)` or `,`.
    ExpectedArgListDelim,
    /// A binary-operator position held a token that is no operator.
    NotAnOperator,
    /// `if` without `then`.
    ExpectedThen,
    /// `if` without `else`.
    ExpectedElse,
    /// `for` without its loop-variable name.
    ExpectedIdentAfterFor,
    /// `for` without `=` after the loop variable.
    ExpectedEqualsAfterFor,
    /// `for` without `,` after the start value.
    ExpectedCommaAfterForStart,
    /// `for` without `in` before its body.
    ExpectedInAfterFor,
    /// `var` without a variable name.
    ExpectedIdentAfterVar,
    /// `var` without `in` before its body.
    ExpectedInAfterVar,
    /// A prototype without a function name.
    ExpectedFunctionName,
    /// An operator prototype without its operator character.
    ExpectedOperatorChar,
    /// An operator precedence outside 1..=100, or not a plain integer.
    InvalidPrecedence,
    /// An operator prototype whose parameter count does not match its
    /// kind: binary takes two, unary takes one.
    InvalidOperandCount,
    /// A prototype without `(` before its parameter names.
    ExpectedOpenParen,
    /// A prototype without `)` after its parameter names.
    ExpectedPrototypeParen,
}

// ---------------------------------------------------------------------------
// Ghost helpers over token sequences.
// ---------------------------------------------------------------------------

/// The first token of a stream; a missing token reads as end of input.
pub open spec fn speek(toks: Seq<Tok>) -> Tok {
    if toks.len() > 0 {
        toks[0]
    } else {
        Tok::Eof
    }
}

/// Clamp a sub-parse's leftover stream so that it is strictly shorter than
/// what the sub-parse was given. Parsing always consumes tokens before the
/// stream is reused (the progress lemmas below), so the clamp never
/// changes a value that actually occurs; it only makes termination of the
/// model manifest.
pub open spec fn strim(orig: Seq<Tok>, rem: Seq<Tok>) -> Seq<Tok> {
    if rem.len() < orig.len() {
        rem
    } else if orig.len() > 0 {
        orig.drop_first()
    } else {
        orig
    }
}

/// Precedence of a binary-operator character: the newest table entry for
/// it, or -1 if it is not an operator.
pub open spec fn spec_char_prec(tab: Seq<(char, i32)>, c: char) -> int
    decreases tab.len(),
{
    if tab.len() == 0 {
        -1
    } else if tab.last().0 == c {
        tab.last().1 as int
    } else {
        spec_char_prec(tab.drop_last(), c)
    }
}

/// Precedence of a token: only single-character tokens are operators.
pub open spec fn spec_tok_prec(tab: Seq<(char, i32)>, t: Tok) -> int {
    match t {
        Tok::Ch(c) => spec_char_prec(tab, c),
        _ => -1,
    }
}

/// How many `.` characters a literal holds, from position `i` on.
pub open spec fn dot_count(s: Seq<char>, i: int) -> nat
    decreases s.len() - i,
{
    if 0 <= i && i < s.len() {
        ((if s[i] == '.' {
            1nat
        } else {
            0nat
        }) + dot_count(s, i + 1)) as nat
    } else {
        0
    }
}

/// A numeric literal that denotes a float: digits and at most one dot,
/// with at least one digit.
pub open spec fn valid_num_literal(s: Seq<char>) -> bool {
    &&& s.len() >= 1
    &&& (forall|i: int| 0 <= i < s.len() ==> is_num_char(#[trigger] s[i]))
    &&& dot_count(s, 0) <= 1
    &&& (exists|i: int| 0 <= i < s.len() && is_digit_char(#[trigger] s[i]))
}

// ---------------------------------------------------------------------------
// The grammar model. Each function consumes tokens from the front of its
// stream and returns the node read together with the leftover stream; on
// failure the stream is left at the offending token.
// ---------------------------------------------------------------------------

/// numberexpr ::= number
pub open spec fn spec_parse_number(toks: Seq<Tok>) -> (Result<SpecAst, ParseError>, Seq<Tok>) {
    match speek(toks) {
        Tok::Num(s) => if valid_num_literal(s) {
            (Ok(SpecAst::Number(s)), toks.drop_first())
        } else {
            (Err(ParseError::MalformedNumber), toks)
        },
        _ => (Err(ParseError::ExpectedExpression), toks),
    }
}

/// parenexpr ::= '(' expression ')'
pub open spec fn spec_parse_paren(tab: Seq<(char, i32)>, toks: Seq<Tok>) -> (
    Result<SpecAst, ParseError>,
    Seq<Tok>,
)
    decreases toks.len(), 1int,
{
    if speek(toks) != Tok::Ch('(') {
        (Err(ParseError::ExpectedExpression), toks)
    } else {
        let r = spec_parse_expression(tab, toks.drop_first());
        match r.0 {
            Err(e) => (Err(e), r.1),
            Ok(v) => if speek(r.1) == Tok::Ch(')') {
                (Ok(v), r.1.drop_first())
            } else {
                (Err(ParseError::ExpectedClosingParen), r.1)
            },
        }
    }
}

/// identifierexpr ::= identifier | identifier '(' expression* ')'
pub open spec fn spec_parse_identifier(tab: Seq<(char, i32)>, toks: Seq<Tok>) -> (
    Result<SpecAst, ParseError>,
    Seq<Tok>,
)
    decreases toks.len(), 1int,
{
    match speek(toks) {
        Tok::Ident(name) => {
            let t1 = toks.drop_first();
            if speek(t1) != Tok::Ch('(') {
                (Ok(SpecAst::Variable(name)), t1)
            } else {
                let t2 = t1.drop_first();
                if speek(t2) == Tok::Ch(')') {
                    (Ok(SpecAst::Call { callee: name, args: Seq::empty() }), t2.drop_first())
                } else {
                    let r = spec_parse_args(tab, t2, Seq::empty());
                    match r.0 {
                        Err(e) => (Err(e), r.1),
                        Ok(args) => (Ok(SpecAst::Call { callee: name, args }), r.1),
                    }
                }
            }
        },
        _ => (Err(ParseError::ExpectedExpression), toks),
    }
}

/// The non-empty tail of an argument list: expressions separated by `,`,
/// closed by `)` (which is consumed).
pub open spec fn spec_parse_args(tab: Seq<(char, i32)>, toks: Seq<Tok>, acc: Seq<SpecAst>) -> (
    Result<Seq<SpecAst>, ParseError>,
    Seq<Tok>,
)
    decreases toks.len(), 6int,
{
    if toks.len() == 0 {
        (Err(ParseError::ExpectedExpression), toks)
    } else {
        let r = spec_parse_expression(tab, toks);
        match r.0 {
            Err(e) => (Err(e), r.1),
            Ok(v) => if speek(r.1) == Tok::Ch(')') {
                (Ok(acc.push(v)), r.1.drop_first())
            } else if speek(r.1) == Tok::Ch(',') {
                spec_parse_args(tab, strim(toks, r.1.drop_first()), acc.push(v))
            } else {
                (Err(ParseError::ExpectedArgListDelim), r.1)
            },
        }
    }
}

/// ifexpr ::= 'if' expression 'then' expression 'else' expression
pub open spec fn spec_parse_if(tab: Seq<(char, i32)>, toks: Seq<Tok>) -> (
    Result<SpecAst, ParseError>,
    Seq<Tok>,
)
    decreases toks.len(), 1int,
{
    if speek(toks) != Tok::If {
        (Err(ParseError::ExpectedExpression), toks)
    } else {
        let rc = spec_parse_expression(tab, toks.drop_first());
        match rc.0 {
            Err(e) => (Err(e), rc.1),
            Ok(cond) => if speek(rc.1) != Tok::Then {
                (Err(ParseError::ExpectedThen), rc.1)
            } else {
                let rt = spec_parse_expression(tab, strim(toks, rc.1.drop_first()));
                match rt.0 {
                    Err(e) => (Err(e), rt.1),
                    Ok(then_e) => if speek(rt.1) != Tok::Else {
                        (Err(ParseError::ExpectedElse), rt.1)
                    } else {
                        let re = spec_parse_expression(tab, strim(toks, rt.1.drop_first()));
                        match re.0 {
                            Err(e) => (Err(e), re.1),
                            Ok(else_e) => (
                                Ok(
                                    SpecAst::If {
                                        cond: Box::new(cond),
                                        then_expr: Box::new(then_e),
                                        else_expr: Box::new(else_e),
                                    },
                                ),
                                re.1,
                            ),
                        }
                    },
                }
            },
        }
    }
}

/// forexpr ::= 'for' identifier '=' expression ',' expression
///             (',' expression)? 'in' expression
pub open spec fn spec_parse_for(tab: Seq<(char, i32)>, toks: Seq<Tok>) -> (
    Result<SpecAst, ParseError>,
    Seq<Tok>,
)
    decreases toks.len(), 1int,
{
    if speek(toks) != Tok::For {
        (Err(ParseError::ExpectedExpression), toks)
    } else {
        let t1 = toks.drop_first();
        match speek(t1) {
            Tok::Ident(name) => {
                let t2 = t1.drop_first();
                if speek(t2) != Tok::Ch('=') {
                    (Err(ParseError::ExpectedEqualsAfterFor), t2)
                } else {
                    let rs = spec_parse_expression(tab, strim(toks, t2.drop_first()));
                    match rs.0 {
                        Err(e) => (Err(e), rs.1),
                        Ok(start) => if speek(rs.1) != Tok::Ch(',') {
                            (Err(ParseError::ExpectedCommaAfterForStart), rs.1)
                        } else {
                            let re = spec_parse_expression(tab, strim(toks, rs.1.drop_first()));
                            match re.0 {
                                Err(e) => (Err(e), re.1),
                                Ok(end) => spec_parse_for_tail(tab, toks, re.1, name, start, end),
                            }
                        },
                    }
                }
            },
            _ => (Err(ParseError::ExpectedIdentAfterFor), t1),
        }
    }
}

/// The optional step and the body of a `for`, after its end expression.
pub open spec fn spec_parse_for_tail(
    tab: Seq<(char, i32)>,
    toks: Seq<Tok>,
    rem: Seq<Tok>,
    name: Seq<char>,
    start: SpecAst,
    end: SpecAst,
) -> (Result<SpecAst, ParseError>, Seq<Tok>)
    decreases toks.len(), 0int,
{
    if toks.len() == 0 {
        (Err(ParseError::ExpectedExpression), rem)
    } else {
    let stepr: (Result<Option<SpecAst>, ParseError>, Seq<Tok>) = if speek(rem) == Tok::Ch(',') {
        let rp = spec_parse_expression(tab, strim(toks, rem.drop_first()));
        match rp.0 {
            Err(e) => (Err(e), rp.1),
            Ok(step) => (Ok(Some(step)), rp.1),
        }
    } else {
        (Ok(None), rem)
    };
    match stepr.0 {
        Err(e) => (Err(e), stepr.1),
        Ok(step) => if speek(stepr.1) != Tok::In {
            (Err(ParseError::ExpectedInAfterFor), stepr.1)
        } else {
            let rb = spec_parse_expression(tab, strim(toks, stepr.1.drop_first()));
            match rb.0 {
                Err(e) => (Err(e), rb.1),
                Ok(body) => (
                    Ok(
                        SpecAst::For {
                            name,
                            start: Box::new(start),
                            end: Box::new(end),
                            step: match step {
                                Some(s) => Some(Box::new(s)),
                                None => None,
                            },
                            body: Box::new(body),
                        },
                    ),
                    rb.1,
                ),
            }
        },
    }
    }
}

/// varexpr ::= 'var' identifier ('=' expression)?
///             (',' identifier ('=' expression)?)* 'in' expression
pub open spec fn spec_parse_var(tab: Seq<(char, i32)>, toks: Seq<Tok>) -> (
    Result<SpecAst, ParseError>,
    Seq<Tok>,
)
    decreases toks.len(), 1int,
{
    if speek(toks) != Tok::Var {
        (Err(ParseError::ExpectedExpression), toks)
    } else {
        let rb = spec_parse_var_bindings(tab, toks.drop_first(), Seq::empty());
        match rb.0 {
            Err(e) => (Err(e), rb.1),
            Ok(bindings) => if speek(rb.1) != Tok::In {
                (Err(ParseError::ExpectedInAfterVar), rb.1)
            } else {
                let rbody = spec_parse_expression(tab, strim(toks, rb.1.drop_first()));
                match rbody.0 {
                    Err(e) => (Err(e), rbody.1),
                    Ok(body) => (Ok(SpecAst::Var { bindings, body: Box::new(body) }), rbody.1),
                }
            },
        }
    }
}

/// The binding list of a `var`: names with optional initializers,
/// separated by `,`, ending before `in`.
pub open spec fn spec_parse_var_bindings(
    tab: Seq<(char, i32)>,
    toks: Seq<Tok>,
    acc: Seq<(Seq<char>, Option<SpecAst>)>,
) -> (Result<Seq<(Seq<char>, Option<SpecAst>)>, ParseError>, Seq<Tok>)
    decreases toks.len(), 6int,
{
    if toks.len() == 0 {
        (Err(ParseError::ExpectedIdentAfterVar), toks)
    } else {
        match speek(toks) {
            Tok::Ident(name) => {
                let t1 = toks.drop_first();
                let initr: (Result<Option<SpecAst>, ParseError>, Seq<Tok>) = if speek(t1)
                    == Tok::Ch('=') {
                    let ri = spec_parse_expression(tab, strim(toks, t1.drop_first()));
                    match ri.0 {
                        Err(e) => (Err(e), ri.1),
                        Ok(v) => (Ok(Some(v)), ri.1),
                    }
                } else {
                    (Ok(None), t1)
                };
                match initr.0 {
                    Err(e) => (Err(e), initr.1),
                    Ok(init) => if speek(initr.1) == Tok::Ch(',') {
                        spec_parse_var_bindings(
                            tab,
                            strim(toks, initr.1.drop_first()),
                            acc.push((name, init)),
                        )
                    } else {
                        (Ok(acc.push((name, init))), initr.1)
                    },
                }
            },
            _ => (Err(ParseError::ExpectedIdentAfterVar), toks),
        }
    }
}

/// primary ::= identifierexpr | numberexpr | parenexpr | ifexpr | forexpr
///           | varexpr
pub open spec fn spec_parse_primary(tab: Seq<(char, i32)>, toks: Seq<Tok>) -> (
    Result<SpecAst, ParseError>,
    Seq<Tok>,
)
    decreases toks.len(), 2int,
{
    match speek(toks) {
        Tok::Ch(c) => if c == '(' {
            spec_parse_paren(tab, toks)
        } else {
            (Err(ParseError::ExpectedExpression), toks)
        },
        Tok::Ident(_) => spec_parse_identifier(tab, toks),
        Tok::Num(_) => spec_parse_number(toks),
        Tok::If => spec_parse_if(tab, toks),
        Tok::For => spec_parse_for(tab, toks),
        Tok::Var => spec_parse_var(tab, toks),
        _ => (Err(ParseError::ExpectedExpression), toks),
    }
}

/// unary ::= CHAR unary | primary, where CHAR is any one-character token
/// other than `(` or `,`.
pub open spec fn spec_parse_unary(tab: Seq<(char, i32)>, toks: Seq<Tok>) -> (
    Result<SpecAst, ParseError>,
    Seq<Tok>,
)
    decreases toks.len(), 3int,
{
    match speek(toks) {
        Tok::Ch(c) => if c == '(' || c == ',' {
            spec_parse_primary(tab, toks)
        } else {
            let r = spec_parse_unary(tab, toks.drop_first());
            match r.0 {
                Err(e) => (Err(e), r.1),
                Ok(operand) => (Ok(SpecAst::Unary { op: c, operand: Box::new(operand) }), r.1),
            }
        },
        _ => spec_parse_primary(tab, toks),
    }
}

/// binoprhs: while the coming operator binds at least as tightly as
/// `expr_prec`, consume it and a unary operand, climbing when the operator
/// after the operand binds tighter.
pub open spec fn spec_parse_bin_op_rhs(
    tab: Seq<(char, i32)>,
    toks: Seq<Tok>,
    expr_prec: int,
    lhs: SpecAst,
) -> (Result<SpecAst, ParseError>, Seq<Tok>)
    decreases toks.len(), 4int,
{
    let tok_prec = spec_tok_prec(tab, speek(toks));
    if tok_prec < expr_prec {
        (Ok(lhs), toks)
    } else {
        match speek(toks) {
            Tok::Ch(op) => {
                let rr = spec_parse_unary(tab, toks.drop_first());
                match rr.0 {
                    Err(e) => (Err(e), rr.1),
                    Ok(rhs0) => {
                        let rem1 = strim(toks, rr.1);
                        let next_prec = spec_tok_prec(tab, speek(rem1));
                        let climbed: (Result<SpecAst, ParseError>, Seq<Tok>) = if tok_prec
                            < next_prec {
                            spec_parse_bin_op_rhs(tab, rem1, tok_prec + 1, rhs0)
                        } else {
                            (Ok(rhs0), rem1)
                        };
                        match climbed.0 {
                            Err(e) => (Err(e), climbed.1),
                            Ok(rhs) => spec_parse_bin_op_rhs(
                                tab,
                                strim(toks, climbed.1),
                                expr_prec,
                                SpecAst::Binary {
                                    op,
                                    lhs: Box::new(lhs),
                                    rhs: Box::new(rhs),
                                },
                            ),
                        }
                    },
                }
            },
            _ => (Err(ParseError::NotAnOperator), toks),
        }
    }
}

/// expression ::= unary binoprhs
pub open spec fn spec_parse_expression(tab: Seq<(char, i32)>, toks: Seq<Tok>) -> (
    Result<SpecAst, ParseError>,
    Seq<Tok>,
)
    decreases toks.len(), 5int,
{
    let r = spec_parse_unary(tab, toks);
    match r.0 {
        Err(e) => (Err(e), r.1),
        Ok(lhs) => spec_parse_bin_op_rhs(tab, strim(toks, r.1), 0, lhs),
    }
}

// ---------------------------------------------------------------------------
// Progress: parsing never lengthens the stream, success consumes at least
// one token and yields an expression node, so every `strim` above is the
// identity where it is actually reached.
// ---------------------------------------------------------------------------

pub proof fn lemma_parse_number_progress(toks: Seq<Tok>)
    ensures
        spec_parse_number(toks).1.len() <= toks.len(),
        spec_parse_number(toks).0 is Ok ==> spec_parse_number(toks).1.len() < toks.len()
            && is_expr(spec_parse_number(toks).0->Ok_0),
{
}

pub proof fn lemma_parse_paren_progress(tab: Seq<(char, i32)>, toks: Seq<Tok>)
    ensures
        spec_parse_paren(tab, toks).1.len() <= toks.len(),
        spec_parse_paren(tab, toks).0 is Ok ==> spec_parse_paren(tab, toks).1.len() < toks.len()
            && is_expr(spec_parse_paren(tab, toks).0->Ok_0),
    decreases toks.len(), 1int,
{
    if speek(toks) == Tok::Ch('(') {
        lemma_parse_expression_progress(tab, toks.drop_first());
    }
}

pub proof fn lemma_parse_identifier_progress(tab: Seq<(char, i32)>, toks: Seq<Tok>)
    ensures
        spec_parse_identifier(tab, toks).1.len() <= toks.len(),
        spec_parse_identifier(tab, toks).0 is Ok ==> spec_parse_identifier(tab, toks).1.len()
            < toks.len() && is_expr(spec_parse_identifier(tab, toks).0->Ok_0),
    decreases toks.len(), 1int,
{
    if speek(toks) is Ident {
        let t1 = toks.drop_first();
        if speek(t1) == Tok::Ch('(') {
            let t2 = t1.drop_first();
            if speek(t2) != Tok::Ch(')') {
                lemma_parse_args_progress(tab, t2, Seq::empty());
            }
        }
    }
}

pub proof fn lemma_parse_args_progress(tab: Seq<(char, i32)>, toks: Seq<Tok>, acc: Seq<SpecAst>)
    ensures
        spec_parse_args(tab, toks, acc).1.len() <= toks.len(),
        spec_parse_args(tab, toks, acc).0 is Ok ==> spec_parse_args(tab, toks, acc).1.len()
            < toks.len(),
    decreases toks.len(), 6int,
{
    if toks.len() > 0 {
        let r = spec_parse_expression(tab, toks);
        lemma_parse_expression_progress(tab, toks);
        if r.0 is Ok {
            if speek(r.1) == Tok::Ch(',') {
                lemma_parse_args_progress(tab, strim(toks, r.1.drop_first()), acc.push(r.0->Ok_0));
            }
        }
    }
}

pub proof fn lemma_parse_if_progress(tab: Seq<(char, i32)>, toks: Seq<Tok>)
    ensures
        spec_parse_if(tab, toks).1.len() <= toks.len(),
        spec_parse_if(tab, toks).0 is Ok ==> spec_parse_if(tab, toks).1.len() < toks.len()
            && is_expr(spec_parse_if(tab, toks).0->Ok_0),
    decreases toks.len(), 1int,
{
    if speek(toks) == Tok::If {
        let rc = spec_parse_expression(tab, toks.drop_first());
        lemma_parse_expression_progress(tab, toks.drop_first());
        if rc.0 is Ok && speek(rc.1) == Tok::Then {
            let rt = spec_parse_expression(tab, strim(toks, rc.1.drop_first()));
            lemma_parse_expression_progress(tab, strim(toks, rc.1.drop_first()));
            if rt.0 is Ok && speek(rt.1) == Tok::Else {
                lemma_parse_expression_progress(tab, strim(toks, rt.1.drop_first()));
            }
        }
    }
}

pub proof fn lemma_parse_for_tail_progress(
    tab: Seq<(char, i32)>,
    toks: Seq<Tok>,
    rem: Seq<Tok>,
    name: Seq<char>,
    start: SpecAst,
    end: SpecAst,
)
    requires
        rem.len() <= toks.len(),
    ensures
        spec_parse_for_tail(tab, toks, rem, name, start, end).1.len() <= toks.len(),
        spec_parse_for_tail(tab, toks, rem, name, start, end).0 is Ok ==> spec_parse_for_tail(
            tab,
            toks,
            rem,
            name,
            start,
            end,
        ).1.len() < toks.len() && is_expr(spec_parse_for_tail(tab, toks, rem, name, start, end).0->Ok_0),
    decreases toks.len(), 0int,
{
    if toks.len() > 0 {
        if speek(rem) == Tok::Ch(',') {
            lemma_parse_expression_progress(tab, strim(toks, rem.drop_first()));
        }
        let stepr: (Result<Option<SpecAst>, ParseError>, Seq<Tok>) = if speek(rem) == Tok::Ch(',') {
            let rp = spec_parse_expression(tab, strim(toks, rem.drop_first()));
            match rp.0 {
                Err(e) => (Err(e), rp.1),
                Ok(step) => (Ok(Some(step)), rp.1),
            }
        } else {
            (Ok(None), rem)
        };
        if stepr.0 is Ok && speek(stepr.1) == Tok::In {
            lemma_parse_expression_progress(tab, strim(toks, stepr.1.drop_first()));
        }
    }
}

pub proof fn lemma_parse_for_progress(tab: Seq<(char, i32)>, toks: Seq<Tok>)
    ensures
        spec_parse_for(tab, toks).1.len() <= toks.len(),
        spec_parse_for(tab, toks).0 is Ok ==> spec_parse_for(tab, toks).1.len() < toks.len()
            && is_expr(spec_parse_for(tab, toks).0->Ok_0),
    decreases toks.len(), 1int,
{
    if speek(toks) == Tok::For {
        let t1 = toks.drop_first();
        if speek(t1) is Ident {
            let name = speek(t1)->Ident_0;
            let t2 = t1.drop_first();
            if speek(t2) == Tok::Ch('=') {
                let rs = spec_parse_expression(tab, strim(toks, t2.drop_first()));
                lemma_parse_expression_progress(tab, strim(toks, t2.drop_first()));
                if rs.0 is Ok && speek(rs.1) == Tok::Ch(',') {
                    let re = spec_parse_expression(tab, strim(toks, rs.1.drop_first()));
                    lemma_parse_expression_progress(tab, strim(toks, rs.1.drop_first()));
                    if re.0 is Ok {
                        lemma_parse_for_tail_progress(tab, toks, re.1, name, rs.0->Ok_0, re.0->Ok_0);
                    }
                }
            }
        }
    }
}

pub proof fn lemma_parse_var_bindings_progress(
    tab: Seq<(char, i32)>,
    toks: Seq<Tok>,
    acc: Seq<(Seq<char>, Option<SpecAst>)>,
)
    ensures
        spec_parse_var_bindings(tab, toks, acc).1.len() <= toks.len(),
        spec_parse_var_bindings(tab, toks, acc).0 is Ok ==> spec_parse_var_bindings(
            tab,
            toks,
            acc,
        ).1.len() < toks.len(),
    decreases toks.len(), 6int,
{
    if toks.len() > 0 {
        match speek(toks) {
            Tok::Ident(name) => {
                let t1 = toks.drop_first();
                if speek(t1) == Tok::Ch('=') {
                    lemma_parse_expression_progress(tab, strim(toks, t1.drop_first()));
                }
                let initr: (Result<Option<SpecAst>, ParseError>, Seq<Tok>) = if speek(t1)
                    == Tok::Ch('=') {
                    let ri = spec_parse_expression(tab, strim(toks, t1.drop_first()));
                    match ri.0 {
                        Err(e) => (Err(e), ri.1),
                        Ok(v) => (Ok(Some(v)), ri.1),
                    }
                } else {
                    (Ok(None), t1)
                };
                if initr.0 is Ok && speek(initr.1) == Tok::Ch(',') {
                    lemma_parse_var_bindings_progress(
                        tab,
                        strim(toks, initr.1.drop_first()),
                        acc.push((name, initr.0->Ok_0)),
                    );
                }
            },
            _ => {},
        }
    }
}

pub proof fn lemma_parse_var_progress(tab: Seq<(char, i32)>, toks: Seq<Tok>)
    ensures
        spec_parse_var(tab, toks).1.len() <= toks.len(),
        spec_parse_var(tab, toks).0 is Ok ==> spec_parse_var(tab, toks).1.len() < toks.len()
            && is_expr(spec_parse_var(tab, toks).0->Ok_0),
    decreases toks.len(), 1int,
{
    if speek(toks) == Tok::Var {
        let rb = spec_parse_var_bindings(tab, toks.drop_first(), Seq::empty());
        lemma_parse_var_bindings_progress(tab, toks.drop_first(), Seq::empty());
        if rb.0 is Ok && speek(rb.1) == Tok::In {
            lemma_parse_expression_progress(tab, strim(toks, rb.1.drop_first()));
        }
    }
}

pub proof fn lemma_parse_primary_progress(tab: Seq<(char, i32)>, toks: Seq<Tok>)
    ensures
        spec_parse_primary(tab, toks).1.len() <= toks.len(),
        spec_parse_primary(tab, toks).0 is Ok ==> spec_parse_primary(tab, toks).1.len()
            < toks.len() && is_expr(spec_parse_primary(tab, toks).0->Ok_0),
    decreases toks.len(), 2int,
{
    match speek(toks) {
        Tok::Ch(c) => {
            if c == '(' {
                lemma_parse_paren_progress(tab, toks);
            }
        },
        Tok::Ident(_) => lemma_parse_identifier_progress(tab, toks),
        Tok::Num(_) => lemma_parse_number_progress(toks),
        Tok::If => lemma_parse_if_progress(tab, toks),
        Tok::For => lemma_parse_for_progress(tab, toks),
        Tok::Var => lemma_parse_var_progress(tab, toks),
        _ => {},
    }
}

pub proof fn lemma_parse_unary_progress(tab: Seq<(char, i32)>, toks: Seq<Tok>)
    ensures
        spec_parse_unary(tab, toks).1.len() <= toks.len(),
        spec_parse_unary(tab, toks).0 is Ok ==> spec_parse_unary(tab, toks).1.len() < toks.len()
            && is_expr(spec_parse_unary(tab, toks).0->Ok_0),
    decreases toks.len(), 3int,
{
    match speek(toks) {
        Tok::Ch(c) => {
            if c == '(' || c == ',' {
                lemma_parse_primary_progress(tab, toks);
            } else {
                lemma_parse_unary_progress(tab, toks.drop_first());
            }
        },
        _ => lemma_parse_primary_progress(tab, toks),
    }
}

pub proof fn lemma_parse_bin_op_rhs_progress(
    tab: Seq<(char, i32)>,
    toks: Seq<Tok>,
    expr_prec: int,
    lhs: SpecAst,
)
    ensures
        spec_parse_bin_op_rhs(tab, toks, expr_prec, lhs).1.len() <= toks.len(),
        is_expr(lhs) && spec_parse_bin_op_rhs(tab, toks, expr_prec, lhs).0 is Ok ==> is_expr(
            spec_parse_bin_op_rhs(tab, toks, expr_prec, lhs).0->Ok_0,
        ),
    decreases toks.len(), 4int,
{
    let tok_prec = spec_tok_prec(tab, speek(toks));
    if tok_prec >= expr_prec {
        match speek(toks) {
            Tok::Ch(op) => {
                let rr = spec_parse_unary(tab, toks.drop_first());
                lemma_parse_unary_progress(tab, toks.drop_first());
                if rr.0 is Ok {
                    let rhs0 = rr.0->Ok_0;
                    let rem1 = strim(toks, rr.1);
                    let next_prec = spec_tok_prec(tab, speek(rem1));
                    let climbed: (Result<SpecAst, ParseError>, Seq<Tok>) = if tok_prec
                        < next_prec {
                        spec_parse_bin_op_rhs(tab, rem1, tok_prec + 1, rhs0)
                    } else {
                        (Ok(rhs0), rem1)
                    };
                    if tok_prec < next_prec {
                        lemma_parse_bin_op_rhs_progress(tab, rem1, tok_prec + 1, rhs0);
                    }
                    if climbed.0 is Ok {
                        lemma_parse_bin_op_rhs_progress(
                            tab,
                            strim(toks, climbed.1),
                            expr_prec,
                            SpecAst::Binary {
                                op,
                                lhs: Box::new(lhs),
                                rhs: Box::new(climbed.0->Ok_0),
                            },
                        );
                    }
                }
            },
            _ => {},
        }
    }
}

pub proof fn lemma_parse_expression_progress(tab: Seq<(char, i32)>, toks: Seq<Tok>)
    ensures
        spec_parse_expression(tab, toks).1.len() <= toks.len(),
        spec_parse_expression(tab, toks).0 is Ok ==> spec_parse_expression(tab, toks).1.len()
            < toks.len() && is_expr(spec_parse_expression(tab, toks).0->Ok_0),
    decreases toks.len(), 5int,
{
    let r = spec_parse_unary(tab, toks);
    lemma_parse_unary_progress(tab, toks);
    if r.0 is Ok {
        lemma_parse_bin_op_rhs_progress(tab, strim(toks, r.1), 0, r.0->Ok_0);
    }
}

// ---------------------------------------------------------------------------
// Small bridging facts between the session and the token-stream model.
// ---------------------------------------------------------------------------

pub proof fn lemma_rest_head(s: State)
    ensures
        speek(s.rest_toks()) == s.cur_tok@,
        s.rest_toks().len() >= 1,
{
}

pub proof fn lemma_skip1_is_drop_first(s: Seq<Tok>)
    requires
        s.len() > 0,
    ensures
        s.skip(1) == s.drop_first(),
{
    assert(s.skip(1) =~= s.drop_first());
}

// ---------------------------------------------------------------------------
// The executable parser.
// ---------------------------------------------------------------------------

/// Precedence of a token under the session's table, -1 when the token is
/// not a binary operator.
pub fn get_tok_precedence(state: &State, token: &Token) -> (r: i32)
    ensures
        r as int == spec_tok_prec(state.binop_precedence@, token@),
{
    let c = match token {
        Token::TokChar(c) => *c,
        _ => {
            return -1;
        },
    };
    let mut i = state.binop_precedence.len();
    proof {
        assert(state.binop_precedence@.subrange(0, i as int) =~= state.binop_precedence@);
    }
    while i > 0
        invariant
            i <= state.binop_precedence.len(),
            token@ == Tok::Ch(c),
            spec_char_prec(state.binop_precedence@, c) == spec_char_prec(
                state.binop_precedence@.subrange(0, i as int),
                c,
            ),
        decreases i,
    {
        i = i - 1;
        let entry = state.binop_precedence[i];
        proof {
            let pre = state.binop_precedence@.subrange(0, i + 1);
            assert(pre.last() == state.binop_precedence@[i as int]);
            assert(pre.drop_last() =~= state.binop_precedence@.subrange(0, i as int));
        }
        if entry.0 == c {
            return entry.1;
        }
    }
    proof {
        assert(state.binop_precedence@.subrange(0, 0).len() == 0);
    }
    -1
}

/// Whether a literal denotes a float: digits with at most one dot, and at
/// least one digit.
pub fn check_num_literal(s: &String) -> (r: bool)
    ensures
        r == valid_num_literal(s@),
{
    let n = s.as_str().unicode_len();
    if n == 0 {
        return false;
    }
    let mut i: usize = 0;
    let mut dots: usize = 0;
    let mut seen_digit: bool = false;
    while i < n
        invariant
            n == s@.len(),
            i <= n,
            dots <= i,
            dot_count(s@, 0) == dots + dot_count(s@, i as int),
            seen_digit == exists|j: int| 0 <= j < i && is_digit_char(#[trigger] s@[j]),
            forall|j: int| 0 <= j < i ==> is_num_char(#[trigger] s@[j]),
        decreases n - i,
    {
        let c = s.as_str().get_char(i);
        if crate::lexer::char_is_digit(c) {
            seen_digit = true;
        } else if c == '.' {
            dots = dots + 1;
        } else {
            return false;
        }
        i = i + 1;
    }
    dots <= 1 && seen_digit
}

/// numberexpr ::= number
pub fn parse_number_expr(state: &mut State) -> (r: Result<AST, ParseError>)
    requires
        old(state).lex_wf(),
    ensures
        final(state).lex_wf(),
        final(state).input == old(state).input,
        crate::cg_eq(*old(state), *final(state)),
        final(state).binop_precedence == old(state).binop_precedence,
        ({
            let m = spec_parse_number(old(state).rest_toks());
            &&& final(state).rest_toks() == m.1
            &&& match r {
                Ok(a) => m.0 == Ok::<SpecAst, ParseError>(a@),
                Err(e) => m.0 == Err::<SpecAst, ParseError>(e),
            }
        }),
{
    let ghost rest0 = old(state).rest_toks();
    proof {
        lemma_rest_head(*state);
    }
    let lit = match &state.cur_tok {
        Token::TokNumber(s) => s.clone(),
        _ => {
            return Err(ParseError::ExpectedExpression);
        },
    };
    if !check_num_literal(&lit) {
        return Err(ParseError::MalformedNumber);
    }
    get_next_token(state);  // consume the number
    proof {
        lemma_skip1_is_drop_first(rest0);
    }
    Ok(AST::Number(NumberExprAST::new(lit)))
}

/// parenexpr ::= '(' expression ')'
pub fn parse_paren_expr(state: &mut State) -> (r: Result<AST, ParseError>)
    requires
        old(state).lex_wf(),
        old(state).prec_wf(),
    ensures
        final(state).lex_wf(),
        final(state).prec_wf(),
        final(state).input == old(state).input,
        crate::cg_eq(*old(state), *final(state)),
        final(state).binop_precedence == old(state).binop_precedence,
        ({
            let m = spec_parse_paren(old(state).binop_precedence@, old(state).rest_toks());
            &&& final(state).rest_toks() == m.1
            &&& match r {
                Ok(a) => m.0 == Ok::<SpecAst, ParseError>(a@),
                Err(e) => m.0 == Err::<SpecAst, ParseError>(e),
            }
        }),
    decreases old(state).rest_toks().len(), 1int,
{
    let ghost rest0 = old(state).rest_toks();
    proof {
        lemma_rest_head(*state);
    }
    if !matches!(&state.cur_tok, Token::TokChar('(')) {
        return Err(ParseError::ExpectedExpression);
    }
    get_next_token(state);  // eat (
    proof {
        lemma_skip1_is_drop_first(rest0);
    }
    let v = match parse_expression(state) {
        Err(e) => {
            return Err(e);
        },
        Ok(v) => v,
    };
    proof {
        lemma_rest_head(*state);
    }
    if !matches!(&state.cur_tok, Token::TokChar(')')) {
        return Err(ParseError::ExpectedClosingParen);
    }
    let ghost rest2 = state.rest_toks();
    get_next_token(state);  // eat )
    proof {
        lemma_skip1_is_drop_first(rest2);
    }
    Ok(v)
}

/// The non-empty tail of an argument list after `(`: expressions
/// separated by `,`, closed by `)`.
fn parse_args(state: &mut State, acc: Vec<AST>) -> (r: Result<Vec<AST>, ParseError>)
    requires
        old(state).lex_wf(),
        old(state).prec_wf(),
    ensures
        final(state).lex_wf(),
        final(state).prec_wf(),
        final(state).input == old(state).input,
        crate::cg_eq(*old(state), *final(state)),
        final(state).binop_precedence == old(state).binop_precedence,
        ({
            let m = spec_parse_args(
                old(state).binop_precedence@,
                old(state).rest_toks(),
                crate::ast::args_view(acc@),
            );
            &&& final(state).rest_toks() == m.1
            &&& match r {
                Ok(v) => m.0 == Ok::<Seq<SpecAst>, ParseError>(crate::ast::args_view(v@)),
                Err(e) => m.0 == Err::<Seq<SpecAst>, ParseError>(e),
            }
        }),
    decreases old(state).rest_toks().len(), 6int,
{
    let ghost tab = old(state).binop_precedence@;
    let ghost rest0 = old(state).rest_toks();
    proof {
        lemma_rest_head(*state);
    }
    let a = match parse_expression(state) {
        Err(e) => {
            return Err(e);
        },
        Ok(v) => v,
    };
    proof {
        lemma_parse_expression_progress(tab, rest0);
        lemma_rest_head(*state);
        crate::ast::lemma_args_view_push(acc@, a);
    }
    let mut acc2 = acc;
    acc2.push(a);
    if matches!(&state.cur_tok, Token::TokChar(')')) {
        let ghost rest1 = state.rest_toks();
        get_next_token(state);
        proof {
            lemma_skip1_is_drop_first(rest1);
        }
        return Ok(acc2);
    }
    if !matches!(&state.cur_tok, Token::TokChar(',')) {
        return Err(ParseError::ExpectedArgListDelim);
    }
    let ghost rest1 = state.rest_toks();
    get_next_token(state);
    proof {
        lemma_skip1_is_drop_first(rest1);
    }
    parse_args(state, acc2)
}

/// identifierexpr ::= identifier | identifier '(' expression* ')'
pub fn parse_identifier_expr(state: &mut State) -> (r: Result<AST, ParseError>)
    requires
        old(state).lex_wf(),
        old(state).prec_wf(),
    ensures
        final(state).lex_wf(),
        final(state).prec_wf(),
        final(state).input == old(state).input,
        crate::cg_eq(*old(state), *final(state)),
        final(state).binop_precedence == old(state).binop_precedence,
        ({
            let m = spec_parse_identifier(old(state).binop_precedence@, old(state).rest_toks());
            &&& final(state).rest_toks() == m.1
            &&& match r {
                Ok(a) => m.0 == Ok::<SpecAst, ParseError>(a@),
                Err(e) => m.0 == Err::<SpecAst, ParseError>(e),
            }
        }),
    decreases old(state).rest_toks().len(), 1int,
{
    let ghost rest0 = old(state).rest_toks();
    proof {
        lemma_rest_head(*state);
    }
    let id_name = match &state.cur_tok {
        Token::TokIdentifier(a) => a.clone(),
        _ => {
            return Err(ParseError::ExpectedExpression);
        },
    };
    get_next_token(state);  // eat the identifier
    proof {
        lemma_skip1_is_drop_first(rest0);
        lemma_rest_head(*state);
    }
    // Handle simple variable reference
    if !matches!(&state.cur_tok, Token::TokChar('(')) {
        return Ok(AST::Variable(VariableExprAST::new(id_name)));
    }
    let ghost t1 = state.rest_toks();
    get_next_token(state);  // eat '('
    proof {
        lemma_skip1_is_drop_first(t1);
        lemma_rest_head(*state);
    }
    if matches!(&state.cur_tok, Token::TokChar(')')) {
        let ghost t2 = state.rest_toks();
        get_next_token(state);  // eat ')'
        proof {
            lemma_skip1_is_drop_first(t2);
        }
        let args: Vec<AST> = Vec::new();
        proof {
            assert(crate::ast::args_view(args@) =~= Seq::<SpecAst>::empty());
        }
        return Ok(AST::Call(CallExprAST::new(id_name, args)));
    }
    match parse_args(state, Vec::new()) {
        Err(e) => Err(e),
        Ok(args) => Ok(AST::Call(CallExprAST::new(id_name, args))),
    }
}

/// primary ::= identifierexpr | numberexpr | parenexpr | ifexpr | forexpr
///           | varexpr
#[verifier::rlimit(60)]
pub fn parse_primary(state: &mut State) -> (r: Result<AST, ParseError>)
    requires
        old(state).lex_wf(),
        old(state).prec_wf(),
    ensures
        final(state).lex_wf(),
        final(state).prec_wf(),
        final(state).input == old(state).input,
        crate::cg_eq(*old(state), *final(state)),
        final(state).binop_precedence == old(state).binop_precedence,
        ({
            let m = spec_parse_primary(old(state).binop_precedence@, old(state).rest_toks());
            &&& final(state).rest_toks() == m.1
            &&& match r {
                Ok(a) => m.0 == Ok::<SpecAst, ParseError>(a@),
                Err(e) => m.0 == Err::<SpecAst, ParseError>(e),
            }
        }),
    decreases old(state).rest_toks().len(), 2int,
{
    proof {
        lemma_rest_head(*state);
    }
    match &state.cur_tok {
        Token::TokChar(c) => if *c == '(' {
            parse_paren_expr(state)
        } else {
            Err(ParseError::ExpectedExpression)
        },
        Token::TokIdentifier(_) => parse_identifier_expr(state),
        Token::TokNumber(_) => parse_number_expr(state),
        Token::TokIf => parse_if_expr(state),
        Token::TokFor => parse_for_expr(state),
        Token::TokVar => parse_var_expr(state),
        _ => Err(ParseError::ExpectedExpression),
    }
}

/// unary ::= CHAR unary | primary
pub fn parse_unary(state: &mut State) -> (r: Result<AST, ParseError>)
    requires
        old(state).lex_wf(),
        old(state).prec_wf(),
    ensures
        final(state).lex_wf(),
        final(state).prec_wf(),
        final(state).input == old(state).input,
        crate::cg_eq(*old(state), *final(state)),
        final(state).binop_precedence == old(state).binop_precedence,
        ({
            let m = spec_parse_unary(old(state).binop_precedence@, old(state).rest_toks());
            &&& final(state).rest_toks() == m.1
            &&& match r {
                Ok(a) => m.0 == Ok::<SpecAst, ParseError>(a@),
                Err(e) => m.0 == Err::<SpecAst, ParseError>(e),
            }
        }),
    decreases old(state).rest_toks().len(), 3int,
{
    let ghost rest0 = old(state).rest_toks();
    proof {
        lemma_rest_head(*state);
    }
    let op = match &state.cur_tok {
        Token::TokChar(c) => if *c == '(' || *c == ',' {
            return parse_primary(state);
        } else {
            *c
        },
        _ => {
            return parse_primary(state);
        },
    };
    get_next_token(state);  // eat the operator
    proof {
        lemma_skip1_is_drop_first(rest0);
    }
    match parse_unary(state) {
        Err(e) => Err(e),
        Ok(operand) => Ok(AST::Unary(UnaryExprAST::new(op, operand))),
    }
}

/// binoprhs: consume operator/operand pairs while the operator binds at
/// least as tightly as `expr_prec`, climbing where the next operator
/// binds tighter.
pub fn parse_bin_op_rhs(state: &mut State, expr_prec: i32, lhs: AST) -> (r: Result<
    AST,
    ParseError,
>)
    requires
        old(state).lex_wf(),
        old(state).prec_wf(),
    ensures
        final(state).lex_wf(),
        final(state).prec_wf(),
        final(state).input == old(state).input,
        crate::cg_eq(*old(state), *final(state)),
        final(state).binop_precedence == old(state).binop_precedence,
        ({
            let m = spec_parse_bin_op_rhs(
                old(state).binop_precedence@,
                old(state).rest_toks(),
                expr_prec as int,
                lhs@,
            );
            &&& final(state).rest_toks() == m.1
            &&& match r {
                Ok(a) => m.0 == Ok::<SpecAst, ParseError>(a@),
                Err(e) => m.0 == Err::<SpecAst, ParseError>(e),
            }
        }),
    decreases old(state).rest_toks().len(), 4int,
{
    let ghost tab = old(state).binop_precedence@;
    let ghost rest0 = old(state).rest_toks();
    proof {
        lemma_rest_head(*state);
    }
    let tok_prec = get_tok_precedence(state, &state.cur_tok);
    // If this is a binop that binds at least as tightly as the current
    // binop, consume it, otherwise we are done.
    if tok_prec < expr_prec {
        return Ok(lhs);
    }
    // Okay, we know this is a binop.
    let op = match &state.cur_tok {
        Token::TokChar(c) => *c,
        _ => {
            return Err(ParseError::NotAnOperator);
        },
    };
    get_next_token(state);  // eat binop
    proof {
        lemma_skip1_is_drop_first(rest0);
    }
    // Parse the unary expression after the binary operator.
    let rhs0 = match parse_unary(state) {
        Err(e) => {
            return Err(e);
        },
        Ok(v) => v,
    };
    proof {
        lemma_parse_unary_progress(tab, rest0.drop_first());
        lemma_rest_head(*state);
    }
    // If the operator after the operand binds tighter, let it take the
    // operand as its left-hand side first.
    let next_prec = get_tok_precedence(state, &state.cur_tok);
    let rhs = if tok_prec < next_prec {
        let ghost rem1 = state.rest_toks();
        let climbed = match parse_bin_op_rhs(state, tok_prec + 1, rhs0) {
            Err(e) => {
                return Err(e);
            },
            Ok(v) => v,
        };
        proof {
            lemma_parse_bin_op_rhs_progress(tab, rem1, tok_prec + 1, rhs0@);
        }
        climbed
    } else {
        rhs0
    };
    let newlhs = AST::Binary(BinaryExprAST::new(op, lhs, rhs));
    parse_bin_op_rhs(state, expr_prec, newlhs)
}

/// expression ::= unary binoprhs
pub fn parse_expression(state: &mut State) -> (r: Result<AST, ParseError>)
    requires
        old(state).lex_wf(),
        old(state).prec_wf(),
    ensures
        final(state).lex_wf(),
        final(state).prec_wf(),
        final(state).input == old(state).input,
        crate::cg_eq(*old(state), *final(state)),
        final(state).binop_precedence == old(state).binop_precedence,
        ({
            let m = spec_parse_expression(old(state).binop_precedence@, old(state).rest_toks());
            &&& final(state).rest_toks() == m.1
            &&& match r {
                Ok(a) => m.0 == Ok::<SpecAst, ParseError>(a@),
                Err(e) => m.0 == Err::<SpecAst, ParseError>(e),
            }
        }),
    decreases old(state).rest_toks().len(), 5int,
{
    let ghost tab = old(state).binop_precedence@;
    let ghost rest0 = old(state).rest_toks();
    let lhs = match parse_unary(state) {
        Err(e) => {
            return Err(e);
        },
        Ok(v) => v,
    };
    proof {
        lemma_parse_unary_progress(tab, rest0);
    }
    parse_bin_op_rhs(state, 0, lhs)
}

/// ifexpr ::= 'if' expression 'then' expression 'else' expression
#[verifier::rlimit(80)]
pub fn parse_if_expr(state: &mut State) -> (r: Result<AST, ParseError>)
    requires
        old(state).lex_wf(),
        old(state).prec_wf(),
    ensures
        final(state).lex_wf(),
        final(state).prec_wf(),
        final(state).input == old(state).input,
        crate::cg_eq(*old(state), *final(state)),
        final(state).binop_precedence == old(state).binop_precedence,
        ({
            let m = spec_parse_if(old(state).binop_precedence@, old(state).rest_toks());
            &&& final(state).rest_toks() == m.1
            &&& match r {
                Ok(a) => m.0 == Ok::<SpecAst, ParseError>(a@),
                Err(e) => m.0 == Err::<SpecAst, ParseError>(e),
            }
        }),
    decreases old(state).rest_toks().len(), 1int,
{
    let ghost tab = old(state).binop_precedence@;
    let ghost rest0 = old(state).rest_toks();
    proof {
        lemma_rest_head(*state);
    }
    if !matches!(&state.cur_tok, Token::TokIf) {
        return Err(ParseError::ExpectedExpression);
    }
    get_next_token(state);  // eat the `if`
    proof {
        lemma_skip1_is_drop_first(rest0);
    }
    let cond = match parse_expression(state) {
        Err(e) => {
            return Err(e);
        },
        Ok(v) => v,
    };
    proof {
        lemma_parse_expression_progress(tab, rest0.drop_first());
        lemma_rest_head(*state);
    }
    if !matches!(&state.cur_tok, Token::TokThen) {
        return Err(ParseError::ExpectedThen);
    }
    let ghost rc1 = state.rest_toks();
    get_next_token(state);  // eat the `then`
    proof {
        lemma_skip1_is_drop_first(rc1);
    }
    let then_e = match parse_expression(state) {
        Err(e) => {
            return Err(e);
        },
        Ok(v) => v,
    };
    proof {
        lemma_parse_expression_progress(tab, rc1.drop_first());
        lemma_rest_head(*state);
    }
    if !matches!(&state.cur_tok, Token::TokElse) {
        return Err(ParseError::ExpectedElse);
    }
    let ghost rt1 = state.rest_toks();
    get_next_token(state);  // eat the `else`
    proof {
        lemma_skip1_is_drop_first(rt1);
    }
    match parse_expression(state) {
        Err(e) => Err(e),
        Ok(else_e) => Ok(AST::If(IfExprAST::new(cond, then_e, else_e))),
    }
}

/// forexpr ::= 'for' identifier '=' expression ',' expression
///             (',' expression)? 'in' expression
#[verifier::rlimit(80)]
pub fn parse_for_expr(state: &mut State) -> (r: Result<AST, ParseError>)
    requires
        old(state).lex_wf(),
        old(state).prec_wf(),
    ensures
        final(state).lex_wf(),
        final(state).prec_wf(),
        final(state).input == old(state).input,
        crate::cg_eq(*old(state), *final(state)),
        final(state).binop_precedence == old(state).binop_precedence,
        ({
            let m = spec_parse_for(old(state).binop_precedence@, old(state).rest_toks());
            &&& final(state).rest_toks() == m.1
            &&& match r {
                Ok(a) => m.0 == Ok::<SpecAst, ParseError>(a@),
                Err(e) => m.0 == Err::<SpecAst, ParseError>(e),
            }
        }),
    decreases old(state).rest_toks().len(), 1int,
{
    let ghost tab = old(state).binop_precedence@;
    let ghost rest0 = old(state).rest_toks();
    proof {
        lemma_rest_head(*state);
    }
    if !matches!(&state.cur_tok, Token::TokFor) {
        return Err(ParseError::ExpectedExpression);
    }
    get_next_token(state);  // eat the `for`
    proof {
        lemma_skip1_is_drop_first(rest0);
        lemma_rest_head(*state);
    }
    let id_name = match &state.cur_tok {
        Token::TokIdentifier(a) => a.clone(),
        _ => {
            return Err(ParseError::ExpectedIdentAfterFor);
        },
    };
    let ghost t1 = state.rest_toks();
    get_next_token(state);  // eat the identifier
    proof {
        lemma_skip1_is_drop_first(t1);
        lemma_rest_head(*state);
    }
    if !matches!(&state.cur_tok, Token::TokChar('=')) {
        return Err(ParseError::ExpectedEqualsAfterFor);
    }
    let ghost t2 = state.rest_toks();
    get_next_token(state);  // eat '='
    proof {
        lemma_skip1_is_drop_first(t2);
    }
    let start = match parse_expression(state) {
        Err(e) => {
            return Err(e);
        },
        Ok(v) => v,
    };
    proof {
        lemma_parse_expression_progress(tab, t2.drop_first());
        lemma_rest_head(*state);
    }
    if !matches!(&state.cur_tok, Token::TokChar(',')) {
        return Err(ParseError::ExpectedCommaAfterForStart);
    }
    let ghost rs1 = state.rest_toks();
    get_next_token(state);  // eat the ','
    proof {
        lemma_skip1_is_drop_first(rs1);
    }
    let end = match parse_expression(state) {
        Err(e) => {
            return Err(e);
        },
        Ok(v) => v,
    };
    proof {
        lemma_parse_expression_progress(tab, rs1.drop_first());
        lemma_rest_head(*state);
    }
    // Step value is optional
    let step: Option<AST> = if matches!(&state.cur_tok, Token::TokChar(',')) {
        let ghost re1 = state.rest_toks();
        get_next_token(state);  // eat the ','
        proof {
            lemma_skip1_is_drop_first(re1);
        }
        match parse_expression(state) {
            Err(e) => {
                return Err(e);
            },
            Ok(v) => {
                proof {
                    lemma_parse_expression_progress(tab, re1.drop_first());
                }
                Some(v)
            },
        }
    } else {
        None
    };
    proof {
        lemma_rest_head(*state);
    }
    if !matches!(&state.cur_tok, Token::TokIn) {
        return Err(ParseError::ExpectedInAfterFor);
    }
    let ghost rstep = state.rest_toks();
    get_next_token(state);  // eat the `in`
    proof {
        lemma_skip1_is_drop_first(rstep);
    }
    match parse_expression(state) {
        Err(e) => Err(e),
        Ok(body) => Ok(AST::For(ForExprAST::new(id_name, start, end, step, body))),
    }
}

/// The binding list of a `var`: names with optional initializers,
/// separated by `,`.
fn parse_var_bindings(state: &mut State, acc: Vec<(String, Option<AST>)>) -> (r: Result<
    Vec<(String, Option<AST>)>,
    ParseError,
>)
    requires
        old(state).lex_wf(),
        old(state).prec_wf(),
    ensures
        final(state).lex_wf(),
        final(state).prec_wf(),
        final(state).input == old(state).input,
        crate::cg_eq(*old(state), *final(state)),
        final(state).binop_precedence == old(state).binop_precedence,
        ({
            let m = spec_parse_var_bindings(
                old(state).binop_precedence@,
                old(state).rest_toks(),
                crate::ast::bindings_view(acc@),
            );
            &&& final(state).rest_toks() == m.1
            &&& match r {
                Ok(v) => m.0 == Ok::<Seq<(Seq<char>, Option<SpecAst>)>, ParseError>(
                    crate::ast::bindings_view(v@),
                ),
                Err(e) => m.0 == Err::<Seq<(Seq<char>, Option<SpecAst>)>, ParseError>(e),
            }
        }),
    decreases old(state).rest_toks().len(), 6int,
{
    let ghost tab = old(state).binop_precedence@;
    let ghost rest0 = old(state).rest_toks();
    proof {
        lemma_rest_head(*state);
    }
    let name = match &state.cur_tok {
        Token::TokIdentifier(a) => a.clone(),
        _ => {
            return Err(ParseError::ExpectedIdentAfterVar);
        },
    };
    get_next_token(state);  // eat the identifier
    proof {
        lemma_skip1_is_drop_first(rest0);
        lemma_rest_head(*state);
    }
    let init: Option<AST> = if matches!(&state.cur_tok, Token::TokChar('=')) {
        let ghost t1 = state.rest_toks();
        get_next_token(state);  // eat '='
        proof {
            lemma_skip1_is_drop_first(t1);
        }
        match parse_expression(state) {
            Err(e) => {
                return Err(e);
            },
            Ok(v) => {
                proof {
                    lemma_parse_expression_progress(tab, t1.drop_first());
                }
                Some(v)
            },
        }
    } else {
        None
    };
    proof {
        lemma_rest_head(*state);
        crate::ast::lemma_bindings_view_push(acc@, (name, init));
    }
    let mut acc2 = acc;
    acc2.push((name, init));
    if matches!(&state.cur_tok, Token::TokChar(',')) {
        let ghost t2 = state.rest_toks();
        get_next_token(state);  // eat ','
        proof {
            lemma_skip1_is_drop_first(t2);
        }
        parse_var_bindings(state, acc2)
    } else {
        Ok(acc2)
    }
}

/// varexpr ::= 'var' identifier ('=' expression)?
///             (',' identifier ('=' expression)?)* 'in' expression
pub fn parse_var_expr(state: &mut State) -> (r: Result<AST, ParseError>)
    requires
        old(state).lex_wf(),
        old(state).prec_wf(),
    ensures
        final(state).lex_wf(),
        final(state).prec_wf(),
        final(state).input == old(state).input,
        crate::cg_eq(*old(state), *final(state)),
        final(state).binop_precedence == old(state).binop_precedence,
        ({
            let m = spec_parse_var(old(state).binop_precedence@, old(state).rest_toks());
            &&& final(state).rest_toks() == m.1
            &&& match r {
                Ok(a) => m.0 == Ok::<SpecAst, ParseError>(a@),
                Err(e) => m.0 == Err::<SpecAst, ParseError>(e),
            }
        }),
    decreases old(state).rest_toks().len(), 1int,
{
    let ghost tab = old(state).binop_precedence@;
    let ghost rest0 = old(state).rest_toks();
    proof {
        lemma_rest_head(*state);
    }
    if !matches!(&state.cur_tok, Token::TokVar) {
        return Err(ParseError::ExpectedExpression);
    }
    get_next_token(state);  // eat the `var`
    proof {
        lemma_skip1_is_drop_first(rest0);
    }
    let bindings = match parse_var_bindings(state, Vec::new()) {
        Err(e) => {
            return Err(e);
        },
        Ok(v) => v,
    };
    proof {
        lemma_parse_var_bindings_progress(tab, rest0.drop_first(), Seq::empty());
        lemma_rest_head(*state);
    }
    if !matches!(&state.cur_tok, Token::TokIn) {
        return Err(ParseError::ExpectedInAfterVar);
    }
    let ghost rb1 = state.rest_toks();
    get_next_token(state);  // eat the `in`
    proof {
        lemma_skip1_is_drop_first(rb1);
    }
    match parse_expression(state) {
        Err(e) => Err(e),
        Ok(body) => Ok(AST::Var(VarExprAST::new(bindings, body))),
    }
}

// ---------------------------------------------------------------------------
// Prototypes, definitions, externs, top level.
// ---------------------------------------------------------------------------

/// Numeric value of a digit string.
pub open spec fn digits_val(s: Seq<char>) -> int
    decreases s.len(),
{
    if s.len() == 0 {
        0
    } else {
        digits_val(s.drop_last()) * 10 + (s.last() as u32 - 48)
    }
}

/// A literal accepted as an operator precedence: up to three digits
/// denoting a value in 1..=100.
pub open spec fn valid_prec_literal(s: Seq<char>) -> bool {
    &&& 1 <= s.len() <= 3
    &&& (forall|i: int| 0 <= i < s.len() ==> is_digit_char(#[trigger] s[i]))
    &&& 1 <= digits_val(s) <= 100
}

/// Read a precedence literal; `None` when it is not one.
pub fn parse_prec_literal(lit: &String) -> (r: Option<u32>)
    ensures
        match r {
            Some(v) => valid_prec_literal(lit@) && v as int == digits_val(lit@),
            None => !valid_prec_literal(lit@),
        },
{
    let n = lit.as_str().unicode_len();
    if n == 0 || n > 3 {
        return None;
    }
    let mut i: usize = 0;
    let mut val: u32 = 0;
    while i < n
        invariant
            n == lit@.len(),
            1 <= n <= 3,
            i <= n,
            i == 0 ==> val == 0,
            i == 1 ==> val <= 9,
            i == 2 ==> val <= 99,
            i == 3 ==> val <= 999,
            val as int == digits_val(lit@.take(i as int)),
            forall|j: int| 0 <= j < i ==> is_digit_char(#[trigger] lit@[j]),
        decreases n - i,
    {
        let c = lit.as_str().get_char(i);
        if !crate::lexer::char_is_digit(c) {
            return None;
        }
        proof {
            assert(lit@.take(i + 1).drop_last() =~= lit@.take(i as int));
            assert(lit@.take(i + 1).last() == lit@[i as int]);
        }
        val = val * 10 + (c as u32 - 48);
        i = i + 1;
    }
    proof {
        assert(lit@.take(n as int) =~= lit@);
    }
    if 1 <= val && val <= 100 {
        Some(val)
    } else {
        None
    }
}

/// The parameter-name list of a prototype: identifiers up to the first
/// non-identifier token.
pub open spec fn spec_parse_params(toks: Seq<Tok>, acc: Seq<Seq<char>>) -> (Seq<Seq<char>>, Seq<
    Tok,
>)
    decreases toks.len(),
{
    match speek(toks) {
        Tok::Ident(name) => spec_parse_params(toks.drop_first(), acc.push(name)),
        _ => (acc, toks),
    }
}

/// The ghost name of a user-defined operator: the kind keyword followed by
/// the operator character.
pub open spec fn op_name(kind: Seq<char>, c: char) -> Seq<char> {
    kind.push(c)
}

/// prototype ::= id '(' id* ')'
///             | 'binary' CHAR number? '(' id* ')'
///             | 'unary' CHAR '(' id* ')'
///
/// Also yields the table entry a binary-operator prototype installs.
pub open spec fn spec_parse_prototype(toks: Seq<Tok>) -> (
    Result<crate::ast::SpecProto, ParseError>,
    Seq<Tok>,
)
    decreases toks.len(),
{
    match speek(toks) {
        Tok::Ident(name) => spec_parse_proto_tail(name, false, 0, toks.drop_first()),
        Tok::Binary => {
            let t1 = toks.drop_first();
            match speek(t1) {
                Tok::Ch(c) => {
                    let t2 = t1.drop_first();
                    match speek(t2) {
                        Tok::Num(lit) => if valid_prec_literal(lit) {
                            spec_parse_proto_tail(
                                op_name(seq!['b', 'i', 'n', 'a', 'r', 'y'], c),
                                true,
                                digits_val(lit),
                                t2.drop_first(),
                            )
                        } else {
                            (Err(ParseError::InvalidPrecedence), t2)
                        },
                        _ => spec_parse_proto_tail(
                            op_name(seq!['b', 'i', 'n', 'a', 'r', 'y'], c),
                            true,
                            30,
                            t2,
                        ),
                    }
                },
                _ => (Err(ParseError::ExpectedOperatorChar), t1),
            }
        },
        Tok::Unary => {
            let t1 = toks.drop_first();
            match speek(t1) {
                Tok::Ch(c) => spec_parse_proto_tail(
                    op_name(seq!['u', 'n', 'a', 'r', 'y'], c),
                    true,
                    0,
                    t1.drop_first(),
                ),
                _ => (Err(ParseError::ExpectedOperatorChar), t1),
            }
        },
        _ => (Err(ParseError::ExpectedFunctionName), toks),
    }
}

/// The parenthesized parameter list of a prototype, and the operator
/// arity check.
pub open spec fn spec_parse_proto_tail(
    name: Seq<char>,
    is_operator: bool,
    precedence: int,
    toks: Seq<Tok>,
) -> (Result<crate::ast::SpecProto, ParseError>, Seq<Tok>)
    decreases toks.len(),
{
    if speek(toks) != Tok::Ch('(') {
        (Err(ParseError::ExpectedOpenParen), toks)
    } else {
        let pr = spec_parse_params(toks.drop_first(), Seq::empty());
        if speek(pr.1) != Tok::Ch(')') {
            (Err(ParseError::ExpectedPrototypeParen), pr.1)
        } else if is_operator && name.len() >= 1 && name.first() == 'u' && pr.0.len() != 1 {
            (Err(ParseError::InvalidOperandCount), pr.1.drop_first())
        } else if is_operator && name.len() >= 1 && name.first() == 'b' && pr.0.len() != 2 {
            (Err(ParseError::InvalidOperandCount), pr.1.drop_first())
        } else {
            (
                Ok(crate::ast::SpecProto { name, args: pr.0, is_operator, precedence }),
                pr.1.drop_first(),
            )
        }
    }
}

/// The table entry a freshly parsed prototype installs: a binary-operator
/// prototype maps its character to its precedence; everything else leaves
/// the table alone.
pub open spec fn spec_install(tab: Seq<(char, i32)>, p: crate::ast::SpecProto) -> Seq<(char, i32)> {
    if p.is_operator && p.name.len() == 7 && p.name.first() == 'b' {
        tab.push((p.name.last(), p.precedence as i32))
    } else {
        tab
    }
}

pub proof fn lemma_parse_params_progress(toks: Seq<Tok>, acc: Seq<Seq<char>>)
    ensures
        spec_parse_params(toks, acc).1.len() <= toks.len(),
    decreases toks.len(),
{
    match speek(toks) {
        Tok::Ident(name) => lemma_parse_params_progress(toks.drop_first(), acc.push(name)),
        _ => {},
    }
}

pub proof fn lemma_parse_prototype_progress(toks: Seq<Tok>)
    ensures
        spec_parse_prototype(toks).1.len() <= toks.len(),
        spec_parse_prototype(toks).0 is Ok ==> spec_parse_prototype(toks).1.len() < toks.len(),
{
    match speek(toks) {
        Tok::Ident(name) => lemma_parse_proto_tail_progress(
            name,
            false,
            0,
            toks.drop_first(),
        ),
        Tok::Binary => {
            let t1 = toks.drop_first();
            match speek(t1) {
                Tok::Ch(c) => {
                    let t2 = t1.drop_first();
                    match speek(t2) {
                        Tok::Num(lit) => {
                            if valid_prec_literal(lit) {
                                lemma_parse_proto_tail_progress(
                                    op_name(seq!['b', 'i', 'n', 'a', 'r', 'y'], c),
                                    true,
                                    digits_val(lit),
                                    t2.drop_first(),
                                );
                            }
                        },
                        _ => lemma_parse_proto_tail_progress(
                            op_name(seq!['b', 'i', 'n', 'a', 'r', 'y'], c),
                            true,
                            30,
                            t2,
                        ),
                    }
                },
                _ => {},
            }
        },
        Tok::Unary => {
            let t1 = toks.drop_first();
            match speek(t1) {
                Tok::Ch(c) => lemma_parse_proto_tail_progress(
                    op_name(seq!['u', 'n', 'a', 'r', 'y'], c),
                    true,
                    0,
                    t1.drop_first(),
                ),
                _ => {},
            }
        },
        _ => {},
    }
}

pub proof fn lemma_parse_proto_tail_progress(
    name: Seq<char>,
    is_operator: bool,
    precedence: int,
    toks: Seq<Tok>,
)
    ensures
        spec_parse_proto_tail(name, is_operator, precedence, toks).1.len() <= toks.len(),
        spec_parse_proto_tail(name, is_operator, precedence, toks).0 is Ok
            ==> spec_parse_proto_tail(name, is_operator, precedence, toks).1.len() < toks.len(),
{
    if speek(toks) == Tok::Ch('(') {
        lemma_parse_params_progress(toks.drop_first(), Seq::empty());
    }
}

/// definition ::= 'def' prototype expression
///
/// Returns the new table as well: the body of an operator definition is
/// already parsed under the operator it introduces.
pub open spec fn spec_parse_definition(tab: Seq<(char, i32)>, toks: Seq<Tok>) -> (
    Result<SpecAst, ParseError>,
    Seq<Tok>,
    Seq<(char, i32)>,
)
    decreases toks.len(), 7int,
{
    if speek(toks) != Tok::Def {
        (Err(ParseError::ExpectedFunctionName), toks, tab)
    } else {
        let rp = spec_parse_prototype(toks.drop_first());
        match rp.0 {
            Err(e) => (Err(e), rp.1, tab),
            Ok(p) => {
                let tab2 = spec_install(tab, p);
                let rb = spec_parse_expression(tab2, strim(toks, rp.1));
                match rb.0 {
                    Err(e) => (Err(e), rb.1, tab2),
                    Ok(b) => (
                        Ok(SpecAst::Function { proto: p, body: Box::new(b) }),
                        rb.1,
                        tab2,
                    ),
                }
            },
        }
    }
}

/// external ::= 'extern' prototype
pub open spec fn spec_parse_extern(toks: Seq<Tok>) -> (Result<SpecAst, ParseError>, Seq<Tok>) {
    if speek(toks) != Tok::Extern {
        (Err(ParseError::ExpectedFunctionName), toks)
    } else {
        let rp = spec_parse_prototype(toks.drop_first());
        match rp.0 {
            Err(e) => (Err(e), rp.1),
            Ok(p) => (Ok(SpecAst::Prototype(p)), rp.1),
        }
    }
}

/// The prototype a top-level expression is wrapped in: a zero-argument
/// anonymous function.
pub open spec fn anon_proto() -> crate::ast::SpecProto {
    crate::ast::SpecProto {
        name: seq!['a', 'n', 'o', 'n'],
        args: Seq::empty(),
        is_operator: false,
        precedence: 0,
    }
}

/// The executable prototype parser. A binary-operator prototype also
/// installs its precedence into the session table, so that expressions
/// parsed from here on can climb over the new operator.
pub fn parse_prototype(state: &mut State) -> (r: Result<crate::ast::PrototypeAST, ParseError>)
    requires
        old(state).lex_wf(),
        old(state).prec_wf(),
    ensures
        final(state).lex_wf(),
        final(state).prec_wf(),
        final(state).input == old(state).input,
        crate::cg_eq(*old(state), *final(state)),
        ({
            let m = spec_parse_prototype(old(state).rest_toks());
            &&& final(state).rest_toks() == m.1
            &&& match r {
                Ok(p) => m.0 == Ok::<crate::ast::SpecProto, ParseError>(p@) && final(state).binop_precedence@ == spec_install(old(state).binop_precedence@, p@),
                Err(e) => m.0 == Err::<crate::ast::SpecProto, ParseError>(e) && final(state).binop_precedence == old(state).binop_precedence,
            }
        }),
{
    let ghost rest0 = old(state).rest_toks();
    proof {
        lemma_rest_head(*state);
        reveal_strlit("binary");
        reveal_strlit("unary");
        assert("binary"@ =~= seq!['b', 'i', 'n', 'a', 'r', 'y']);
        assert("unary"@ =~= seq!['u', 'n', 'a', 'r', 'y']);
    }
    match &state.cur_tok {
        Token::TokIdentifier(a) => {
            let name = a.clone();
            get_next_token(state);
            proof {
                lemma_skip1_is_drop_first(rest0);
            }
            let p = match parse_proto_tail(state, name, false, 0) {
                Err(e) => {
                    return Err(e);
                },
                Ok(p) => p,
            };
            proof {
                assert(!(p@.is_operator));
            }
            Ok(p)
        },
        Token::TokBinary => {
            get_next_token(state);
            proof {
                lemma_skip1_is_drop_first(rest0);
                lemma_rest_head(*state);
            }
            let ghost t1 = rest0.drop_first();
            let op = match &state.cur_tok {
                Token::TokChar(c) => *c,
                _ => {
                    return Err(ParseError::ExpectedOperatorChar);
                },
            };
            get_next_token(state);
            proof {
                lemma_skip1_is_drop_first(t1);
                lemma_rest_head(*state);
            }
            let ghost t2 = t1.drop_first();
            let prec: u32 = match &state.cur_tok {
                Token::TokNumber(lit) => {
                    let litc = lit.clone();
                    match parse_prec_literal(&litc) {
                        Some(v) => {
                            get_next_token(state);
                            proof {
                                lemma_skip1_is_drop_first(t2);
                            }
                            v
                        },
                        None => {
                            return Err(ParseError::InvalidPrecedence);
                        },
                    }
                },
                _ => 30,
            };
            let mut name = String::from_str("binary");
            push_char(&mut name, op);
            let p = match parse_proto_tail(state, name, true, prec) {
                Err(e) => {
                    return Err(e);
                },
                Ok(p) => p,
            };
            proof {
                assert(p@.name =~= op_name(seq!['b', 'i', 'n', 'a', 'r', 'y'], op));
                assert(p@.name.first() == 'b');
                assert(p@.name.last() == op);
            }
            state.binop_precedence.push((op, prec as i32));
            proof {
                assert(state.binop_precedence@ =~= spec_install(
                    old(state).binop_precedence@,
                    p@,
                ));
            }
            Ok(p)
        },
        Token::TokUnary => {
            get_next_token(state);
            proof {
                lemma_skip1_is_drop_first(rest0);
                lemma_rest_head(*state);
            }
            let ghost t1 = rest0.drop_first();
            let op = match &state.cur_tok {
                Token::TokChar(c) => *c,
                _ => {
                    return Err(ParseError::ExpectedOperatorChar);
                },
            };
            get_next_token(state);
            proof {
                lemma_skip1_is_drop_first(t1);
            }
            let mut name = String::from_str("unary");
            push_char(&mut name, op);
            let p = match parse_proto_tail(state, name, true, 0) {
                Err(e) => {
                    return Err(e);
                },
                Ok(p) => p,
            };
            proof {
                assert(p@.name =~= op_name(seq!['u', 'n', 'a', 'r', 'y'], op));
                assert(p@.name.first() == 'u');
                assert(p@.name.len() == 6);
            }
            Ok(p)
        },
        _ => Err(ParseError::ExpectedFunctionName),
    }
}

/// The parenthesized parameter list of a prototype, with the operator
/// arity check.
fn parse_proto_tail(
    state: &mut State,
    name: String,
    is_operator: bool,
    precedence: u32,
) -> (r: Result<crate::ast::PrototypeAST, ParseError>)
    requires
        old(state).lex_wf(),
        old(state).prec_wf(),
        is_operator ==> name@.len() >= 1,
        !is_operator ==> precedence == 0,
    ensures
        final(state).lex_wf(),
        final(state).prec_wf(),
        final(state).input == old(state).input,
        crate::cg_eq(*old(state), *final(state)),
        final(state).binop_precedence == old(state).binop_precedence,
        ({
            let m = spec_parse_proto_tail(
                name@,
                is_operator,
                precedence as int,
                old(state).rest_toks(),
            );
            &&& final(state).rest_toks() == m.1
            &&& match r {
                Ok(p) => m.0 == Ok::<crate::ast::SpecProto, ParseError>(p@),
                Err(e) => m.0 == Err::<crate::ast::SpecProto, ParseError>(e),
            }
        }),
{
    let ghost rest0 = old(state).rest_toks();
    proof {
        lemma_rest_head(*state);
    }
    if !matches!(&state.cur_tok, Token::TokChar('(')) {
        return Err(ParseError::ExpectedOpenParen);
    }
    get_next_token(state);
    proof {
        lemma_skip1_is_drop_first(rest0);
    }
    let ghost pstart = rest0.drop_first();
    let mut args: Vec<String> = Vec::new();
    proof {
        assert(args@.map_values(|a: String| a@) =~= Seq::<Seq<char>>::empty());
    }
    while matches!(&state.cur_tok, Token::TokIdentifier(_))
        invariant
            state.lex_wf(),
            state.prec_wf(),
            state.input == old(state).input,
            state.binop_precedence == old(state).binop_precedence,
            crate::cg_eq(*old(state), *state),
            spec_parse_params(pstart, Seq::empty()) == spec_parse_params(
                state.rest_toks(),
                args@.map_values(|a: String| a@),
            ),
        decreases state.rest_toks().len(),
    {
        proof {
            lemma_rest_head(*state);
        }
        let a = match &state.cur_tok {
            Token::TokIdentifier(a) => a.clone(),
            _ => String::new(),
        };
        let ghost ri = state.rest_toks();
        let ghost argsv = args@.map_values(|x: String| x@);
        get_next_token(state);
        proof {
            lemma_skip1_is_drop_first(ri);
        }
        args.push(a);
        proof {
            assert(args@.map_values(|x: String| x@) =~= argsv.push(a@));
        }
    }
    proof {
        lemma_rest_head(*state);
    }
    if !matches!(&state.cur_tok, Token::TokChar(')')) {
        return Err(ParseError::ExpectedPrototypeParen);
    }
    let ghost r1 = state.rest_toks();
    get_next_token(state);
    proof {
        lemma_skip1_is_drop_first(r1);
    }
    if is_operator {
        let first = name.as_str().get_char(0);
        if first == 'u' && args.len() != 1 {
            return Err(ParseError::InvalidOperandCount);
        }
        if first == 'b' && args.len() != 2 {
            return Err(ParseError::InvalidOperandCount);
        }
        Ok(crate::ast::PrototypeAST::new_operator(name, args, precedence))
    } else {
        Ok(crate::ast::PrototypeAST::new(name, args))
    }
}

/// definition ::= 'def' prototype expression
pub fn parse_definition(state: &mut State) -> (r: Result<AST, ParseError>)
    requires
        old(state).lex_wf(),
        old(state).prec_wf(),
    ensures
        final(state).lex_wf(),
        final(state).prec_wf(),
        final(state).input == old(state).input,
        crate::cg_eq(*old(state), *final(state)),
        ({
            let m = spec_parse_definition(old(state).binop_precedence@, old(state).rest_toks());
            &&& final(state).rest_toks() == m.1
            &&& final(state).binop_precedence@ == m.2
            &&& match r {
                Ok(a) => m.0 == Ok::<SpecAst, ParseError>(a@),
                Err(e) => m.0 == Err::<SpecAst, ParseError>(e),
            }
        }),
{
    let ghost tab = old(state).binop_precedence@;
    let ghost rest0 = old(state).rest_toks();
    proof {
        lemma_rest_head(*state);
    }
    if !matches!(&state.cur_tok, Token::TokDef) {
        return Err(ParseError::ExpectedFunctionName);
    }
    get_next_token(state);  // eat def
    proof {
        lemma_skip1_is_drop_first(rest0);
    }
    let proto = match parse_prototype(state) {
        Err(e) => {
            return Err(e);
        },
        Ok(p) => p,
    };
    proof {
        lemma_parse_prototype_progress(rest0.drop_first());
    }
    let body = match parse_expression(state) {
        Err(e) => {
            return Err(e);
        },
        Ok(b) => b,
    };
    proof {
        let m = spec_parse_definition(tab, rest0);
        let rp = spec_parse_prototype(rest0.drop_first());
        lemma_parse_expression_progress(spec_install(tab, proto@), strim(rest0, rp.1));
        assert(is_expr(body@));
    }
    Ok(AST::Function(crate::ast::FunctionAST::new(proto, body)))
}

/// toplevelexpr ::= expression, wrapped in a zero-argument anonymous
/// function named `anon`.
pub fn parse_top_level_expr(state: &mut State) -> (r: Result<AST, ParseError>)
    requires
        old(state).lex_wf(),
        old(state).prec_wf(),
    ensures
        final(state).lex_wf(),
        final(state).prec_wf(),
        final(state).input == old(state).input,
        crate::cg_eq(*old(state), *final(state)),
        final(state).binop_precedence == old(state).binop_precedence,
        ({
            let m = spec_parse_expression(old(state).binop_precedence@, old(state).rest_toks());
            &&& final(state).rest_toks() == m.1
            &&& match r {
                Ok(a) => a@ == (SpecAst::Function {
                    proto: anon_proto(),
                    body: Box::new(m.0->Ok_0),
                }) && m.0 is Ok,
                Err(e) => m.0 == Err::<SpecAst, ParseError>(e),
            }
        }),
{
    let ghost tab = old(state).binop_precedence@;
    let ghost rest0 = old(state).rest_toks();
    let body = match parse_expression(state) {
        Err(e) => {
            return Err(e);
        },
        Ok(b) => b,
    };
    proof {
        lemma_parse_expression_progress(tab, rest0);
        reveal_strlit("anon");
        assert("anon"@ =~= seq!['a', 'n', 'o', 'n']);
    }
    let name = String::from_str("anon");
    let proto = crate::ast::PrototypeAST::new(name, Vec::new());
    proof {
        assert(proto@.args =~= Seq::<Seq<char>>::empty());
        assert(proto@ == anon_proto());
    }
    Ok(AST::Function(crate::ast::FunctionAST::new(proto, body)))
}

/// external ::= 'extern' prototype
pub fn parse_extern(state: &mut State) -> (r: Result<AST, ParseError>)
    requires
        old(state).lex_wf(),
        old(state).prec_wf(),
    ensures
        final(state).lex_wf(),
        final(state).prec_wf(),
        final(state).input == old(state).input,
        crate::cg_eq(*old(state), *final(state)),
        ({
            let m = spec_parse_extern(old(state).rest_toks());
            &&& final(state).rest_toks() == m.1
            &&& match r {
                Ok(a) => m.0 == Ok::<SpecAst, ParseError>(a@) && a@ is Prototype && final(state).binop_precedence@ == spec_install(
                    old(state).binop_precedence@,
                    a@->Prototype_0,
                ),
                Err(e) => m.0 == Err::<SpecAst, ParseError>(e) && final(state).binop_precedence
                    == old(state).binop_precedence,
            }
        }),
{
    let ghost rest0 = old(state).rest_toks();
    proof {
        lemma_rest_head(*state);
    }
    if !matches!(&state.cur_tok, Token::TokExtern) {
        return Err(ParseError::ExpectedFunctionName);
    }
    get_next_token(state);
    proof {
        lemma_skip1_is_drop_first(rest0);
    }
    match parse_prototype(state) {
        Err(e) => Err(e),
        Ok(p) => Ok(AST::Prototype(p)),
    }
}

} // verus!

