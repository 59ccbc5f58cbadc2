//! The lexer: turns the session's character input into tokens, one token per
//! call, as described by the ghost model `next_tok`.
//!
//! Numeric literals are not converted here: a number token carries the exact
//! source text `[0-9.]+` it was read from. Whether that text denotes a
//! machine float is checked downstream, when the literal is used.

use vstd::prelude::*;

use crate::State;

verus! {

/// One lexical token of the source language.
#[derive(Clone, Debug, PartialEq)]
pub enum Token {
    /// Before the first token has been read.
    TokUndef,
    /// End of input, also produced by the convenience keyword `exit`.
    TokEOF,
    TokDef,
    TokExtern,
    TokIf,
    TokThen,
    TokElse,
    TokFor,
    TokIn,
    TokVar,
    TokBinary,
    TokUnary,
    TokIdentifier(String),
    /// A numeric literal, kept as the run of `[0-9.]` characters it was
    /// read from.
    TokNumber(String),
    /// Any other single character, operators included.
    TokChar(char),
}

/// Ghost twin of `Token`: the same cases over mathematical sequences.
pub enum Tok {
    Undef,
    Eof,
    Def,
    Extern,
    If,
    Then,
    Else,
    For,
    In,
    Var,
    Binary,
    Unary,
    Ident(Seq<char>),
    Num(Seq<char>),
    Ch(char),
}

impl View for Token {
    type V = Tok;

    open spec fn view(&self) -> Tok {
        match self {
            Token::TokUndef => Tok::Undef,
            Token::TokEOF => Tok::Eof,
            Token::TokDef => Tok::Def,
            Token::TokExtern => Tok::Extern,
            Token::TokIf => Tok::If,
            Token::TokThen => Tok::Then,
            Token::TokElse => Tok::Else,
            Token::TokFor => Tok::For,
            Token::TokIn => Tok::In,
            Token::TokVar => Tok::Var,
            Token::TokBinary => Tok::Binary,
            Token::TokUnary => Tok::Unary,
            Token::TokIdentifier(s) => Tok::Ident(s@),
            Token::TokNumber(s) => Tok::Num(s@),
            Token::TokChar(c) => Tok::Ch(*c),
        }
    }
}

// ---------------------------------------------------------------------------
// Character classes. The language is ASCII: letters are A-Z and a-z,
// whitespace is space, tab, newline and carriage return.
// ---------------------------------------------------------------------------

pub open spec fn is_space_char(c: char) -> bool {
    c == ' ' || c == '\t' || c == '\n' || c == '\r'
}

pub open spec fn is_alpha_char(c: char) -> bool {
    (97 <= c as u32 && c as u32 <= 122) || (65 <= c as u32 && c as u32 <= 90)
}

pub open spec fn is_digit_char(c: char) -> bool {
    48 <= c as u32 && c as u32 <= 57
}

pub open spec fn is_alnum_char(c: char) -> bool {
    is_alpha_char(c) || is_digit_char(c)
}

/// Characters a numeric literal is made of.
pub open spec fn is_num_char(c: char) -> bool {
    is_digit_char(c) || c == '.'
}

pub open spec fn is_eol_char(c: char) -> bool {
    c == '\n' || c == '\r'
}

#[verifier::when_used_as_spec(is_space_char)]
pub fn char_is_space(c: char) -> (r: bool)
    ensures
        r == is_space_char(c),
{
    c == ' ' || c == '\t' || c == '\n' || c == '\r'
}

#[verifier::when_used_as_spec(is_alpha_char)]
pub fn char_is_alpha(c: char) -> (r: bool)
    ensures
        r == is_alpha_char(c),
{
    let u = c as u32;
    (97 <= u && u <= 122) || (65 <= u && u <= 90)
}

#[verifier::when_used_as_spec(is_digit_char)]
pub fn char_is_digit(c: char) -> (r: bool)
    ensures
        r == is_digit_char(c),
{
    let u = c as u32;
    48 <= u && u <= 57
}

#[verifier::when_used_as_spec(is_alnum_char)]
pub fn char_is_alnum(c: char) -> (r: bool)
    ensures
        r == is_alnum_char(c),
{
    char_is_alpha(c) || char_is_digit(c)
}

#[verifier::when_used_as_spec(is_num_char)]
pub fn char_is_num(c: char) -> (r: bool)
    ensures
        r == is_num_char(c),
{
    char_is_digit(c) || c == '.'
}

#[verifier::when_used_as_spec(is_eol_char)]
pub fn char_is_eol(c: char) -> (r: bool)
    ensures
        r == is_eol_char(c),
{
    c == '\n' || c == '\r'
}

// ---------------------------------------------------------------------------
// Runs of characters of one class, and their lengths.
// ---------------------------------------------------------------------------

/// Length of the run of identifier characters starting at `pos`.
pub open spec fn alnum_run(input: Seq<char>, pos: int) -> nat
    decreases input.len() - pos,
{
    if 0 <= pos && pos < input.len() && is_alnum_char(input[pos]) {
        (1 + alnum_run(input, pos + 1)) as nat
    } else {
        0
    }
}

/// Length of the run of numeric-literal characters starting at `pos`.
pub open spec fn num_run(input: Seq<char>, pos: int) -> nat
    decreases input.len() - pos,
{
    if 0 <= pos && pos < input.len() && is_num_char(input[pos]) {
        (1 + num_run(input, pos + 1)) as nat
    } else {
        0
    }
}

/// Length of the run of characters before the next line end, starting at
/// `pos`: what a comment discards.
pub open spec fn noneol_run(input: Seq<char>, pos: int) -> nat
    decreases input.len() - pos,
{
    if 0 <= pos && pos < input.len() && !is_eol_char(input[pos]) {
        (1 + noneol_run(input, pos + 1)) as nat
    } else {
        0
    }
}

pub proof fn lemma_alnum_run_exact(input: Seq<char>, pos: int, e: int)
    requires
        0 <= pos <= e <= input.len(),
        forall|j: int| pos <= j < e ==> is_alnum_char(input[j]),
        e == input.len() || !is_alnum_char(input[e]),
    ensures
        pos + alnum_run(input, pos) == e,
    decreases e - pos,
{
    if pos < e {
        lemma_alnum_run_exact(input, pos + 1, e);
    }
}

pub proof fn lemma_num_run_exact(input: Seq<char>, pos: int, e: int)
    requires
        0 <= pos <= e <= input.len(),
        forall|j: int| pos <= j < e ==> is_num_char(input[j]),
        e == input.len() || !is_num_char(input[e]),
    ensures
        pos + num_run(input, pos) == e,
    decreases e - pos,
{
    if pos < e {
        lemma_num_run_exact(input, pos + 1, e);
    }
}

pub proof fn lemma_noneol_run_exact(input: Seq<char>, pos: int, e: int)
    requires
        0 <= pos <= e <= input.len(),
        forall|j: int| pos <= j < e ==> !is_eol_char(input[j]),
        e == input.len() || is_eol_char(input[e]),
    ensures
        pos + noneol_run(input, pos) == e,
    decreases e - pos,
{
    if pos < e {
        lemma_noneol_run_exact(input, pos + 1, e);
    }
}

// ---------------------------------------------------------------------------
// The lexer model.
// ---------------------------------------------------------------------------

/// The keyword table. `exit` is the convenience spelling for end of input.
pub open spec fn spec_keyword(w: Seq<char>) -> Option<Tok> {
    if w == seq!['d', 'e', 'f'] {
        Some(Tok::Def)
    } else if w == seq!['e', 'x', 't', 'e', 'r', 'n'] {
        Some(Tok::Extern)
    } else if w == seq!['i', 'f'] {
        Some(Tok::If)
    } else if w == seq!['t', 'h', 'e', 'n'] {
        Some(Tok::Then)
    } else if w == seq!['e', 'l', 's', 'e'] {
        Some(Tok::Else)
    } else if w == seq!['f', 'o', 'r'] {
        Some(Tok::For)
    } else if w == seq!['i', 'n'] {
        Some(Tok::In)
    } else if w == seq!['v', 'a', 'r'] {
        Some(Tok::Var)
    } else if w == seq!['b', 'i', 'n', 'a', 'r', 'y'] {
        Some(Tok::Binary)
    } else if w == seq!['u', 'n', 'a', 'r', 'y'] {
        Some(Tok::Unary)
    } else if w == seq!['e', 'x', 'i', 't'] {
        Some(Tok::Eof)
    } else {
        None
    }
}

/// The token produced at position `pos` of `input`, and the position of the
/// first character after it. The rules, in order: skip whitespace; a letter
/// starts an identifier or keyword `[A-Za-z][A-Za-z0-9]*`; a digit or `.`
/// starts a numeric literal `[0-9.]+`; `#` discards the rest of the line;
/// the end of the input is the end-of-input token; anything else is a
/// one-character token.
pub open spec fn next_tok(input: Seq<char>, pos: int) -> (Tok, int)
    decreases input.len() - pos,
{
    if pos < 0 || pos >= input.len() {
        (Tok::Eof, pos)
    } else if is_space_char(input[pos]) {
        next_tok(input, pos + 1)
    } else if is_alpha_char(input[pos]) {
        let e = pos + 1 + alnum_run(input, pos + 1);
        let w = input.subrange(pos, e);
        match spec_keyword(w) {
            Some(t) => (t, e),
            None => (Tok::Ident(w), e),
        }
    } else if is_num_char(input[pos]) {
        let e = pos + 1 + num_run(input, pos + 1);
        (Tok::Num(input.subrange(pos, e)), e)
    } else if input[pos] == '#' {
        let e = pos + 1 + noneol_run(input, pos + 1);
        next_tok(input, if e <= input.len() { e } else { input.len() as int })
    } else {
        (Tok::Ch(input[pos]), pos + 1)
    }
}

pub proof fn lemma_alnum_run_bound(input: Seq<char>, pos: int)
    requires
        0 <= pos <= input.len(),
    ensures
        pos + alnum_run(input, pos) <= input.len(),
    decreases input.len() - pos,
{
    if pos < input.len() && is_alnum_char(input[pos]) {
        lemma_alnum_run_bound(input, pos + 1);
    }
}

pub proof fn lemma_num_run_bound(input: Seq<char>, pos: int)
    requires
        0 <= pos <= input.len(),
    ensures
        pos + num_run(input, pos) <= input.len(),
    decreases input.len() - pos,
{
    if pos < input.len() && is_num_char(input[pos]) {
        lemma_num_run_bound(input, pos + 1);
    }
}

/// The position after a token stays inside the input, and strictly advances
/// unless the token is the end-of-input token produced at the very end.
pub proof fn lemma_next_tok_bounds(input: Seq<char>, pos: int)
    requires
        0 <= pos <= input.len(),
    ensures
        pos <= next_tok(input, pos).1 <= input.len(),
        next_tok(input, pos).0 != Tok::Eof ==> pos < next_tok(input, pos).1,
    decreases input.len() - pos,
{
    if pos < input.len() {
        let c = input[pos];
        if is_space_char(c) {
            lemma_next_tok_bounds(input, pos + 1);
        } else if is_alpha_char(c) {
            lemma_alnum_run_bound(input, pos + 1);
        } else if is_num_char(c) {
            lemma_num_run_bound(input, pos + 1);
        } else if c == '#' {
            let e = pos + 1 + noneol_run(input, pos + 1);
            let e2 = if e <= input.len() {
                e
            } else {
                input.len() as int
            };
            lemma_next_tok_bounds(input, e2);
        }
    }
}

/// All tokens from position `pos` on, ending with the first end-of-input
/// token.
pub open spec fn toks_from(input: Seq<char>, pos: int) -> Seq<Tok>
    decreases input.len() - pos,
{
    if pos < 0 {
        seq![Tok::Eof]
    } else {
        let t = next_tok(input, pos).0;
        let p2 = next_tok(input, pos).1;
        if t == Tok::Eof {
            seq![Tok::Eof]
        } else {
            let p3 = if pos < p2 && p2 <= input.len() {
                p2
            } else {
                pos + 1
            };
            seq![t] + toks_from(input, p3)
        }
    }
}

/// `toks_from` unrolled one step, with the position bound already applied.
pub proof fn lemma_toks_from_unfold(input: Seq<char>, pos: int)
    requires
        0 <= pos <= input.len(),
    ensures
        next_tok(input, pos).0 == Tok::Eof ==> toks_from(input, pos) == seq![Tok::Eof],
        next_tok(input, pos).0 != Tok::Eof ==> toks_from(input, pos) == seq![
            next_tok(input, pos).0,
        ] + toks_from(input, next_tok(input, pos).1),
{
    lemma_next_tok_bounds(input, pos);
}

// ---------------------------------------------------------------------------
// The executable lexer.
// ---------------------------------------------------------------------------

/// Relies on `String::push`: appends the given character to the end of the
/// string.
#[verifier::external_body]
pub(crate) fn push_char(s: &mut String, c: char)
    ensures
        final(s)@ == old(s)@.push(c),
{
    s.push(c);
}

/// The keyword a spelled-out identifier stands for, if any.
fn keyword_of(s: &String) -> (r: Option<Token>)
    ensures
        match r {
            Some(t) => spec_keyword(s@) == Some(t@),
            None => spec_keyword(s@) is None,
        },
{
    proof {
        reveal_strlit("def");
        reveal_strlit("extern");
        reveal_strlit("if");
        reveal_strlit("then");
        reveal_strlit("else");
        reveal_strlit("for");
        reveal_strlit("in");
        reveal_strlit("var");
        reveal_strlit("binary");
        reveal_strlit("unary");
        reveal_strlit("exit");
        assert("def"@ =~= seq!['d', 'e', 'f']);
        assert("extern"@ =~= seq!['e', 'x', 't', 'e', 'r', 'n']);
        assert("if"@ =~= seq!['i', 'f']);
        assert("then"@ =~= seq!['t', 'h', 'e', 'n']);
        assert("else"@ =~= seq!['e', 'l', 's', 'e']);
        assert("for"@ =~= seq!['f', 'o', 'r']);
        assert("in"@ =~= seq!['i', 'n']);
        assert("var"@ =~= seq!['v', 'a', 'r']);
        assert("binary"@ =~= seq!['b', 'i', 'n', 'a', 'r', 'y']);
        assert("unary"@ =~= seq!['u', 'n', 'a', 'r', 'y']);
        assert("exit"@ =~= seq!['e', 'x', 'i', 't']);
    }
    if *s == String::from_str("def") {
        Some(Token::TokDef)
    } else if *s == String::from_str("extern") {
        Some(Token::TokExtern)
    } else if *s == String::from_str("if") {
        Some(Token::TokIf)
    } else if *s == String::from_str("then") {
        Some(Token::TokThen)
    } else if *s == String::from_str("else") {
        Some(Token::TokElse)
    } else if *s == String::from_str("for") {
        Some(Token::TokFor)
    } else if *s == String::from_str("in") {
        Some(Token::TokIn)
    } else if *s == String::from_str("var") {
        Some(Token::TokVar)
    } else if *s == String::from_str("binary") {
        Some(Token::TokBinary)
    } else if *s == String::from_str("unary") {
        Some(Token::TokUnary)
    } else if *s == String::from_str("exit") {
        Some(Token::TokEOF)
    } else {
        None
    }
}

/// Read one token from the session's input, advancing the cursor. The
/// current-token slot is not touched; `get_next_token` fills it.
pub fn get_token(state: &mut State) -> (t: Token)
    requires
        old(state).lex_wf(),
    ensures
        final(state).lex_wf(),
        final(state).input == old(state).input,
        crate::cg_eq(*old(state), *final(state)),
        final(state).cur_tok == old(state).cur_tok,
        final(state).binop_precedence == old(state).binop_precedence,
        (t@, final(state).pos as int) == next_tok(old(state).input@, old(state).pos as int),
    decreases old(state).input@.len() - old(state).pos,
{
    // Skip any whitespace.
    while state.pos < state.input.len() && char_is_space(state.input[state.pos])
        invariant
            state.lex_wf(),
            old(state).pos <= state.pos,
            state.input == old(state).input,
            state.cur_tok == old(state).cur_tok,
            state.binop_precedence == old(state).binop_precedence,
            crate::cg_eq(*old(state), *state),
            next_tok(state.input@, state.pos as int) == next_tok(
                old(state).input@,
                old(state).pos as int,
            ),
        decreases state.input.len() - state.pos,
    {
        state.pos = state.pos + 1;
    }
    if state.pos == state.input.len() {
        return Token::TokEOF;
    }
    let ghost start = state.pos as int;
    let c = state.input[state.pos];
    if char_is_alpha(c) {
        // identifier: [a-zA-Z][a-zA-Z0-9]*
        let mut s = String::new();
        push_char(&mut s, c);
        state.pos = state.pos + 1;
        while state.pos < state.input.len() && char_is_alnum(state.input[state.pos])
            invariant
                0 <= start,
                start + 1 <= state.pos <= state.input.len(),
                state.input == old(state).input,
                state.cur_tok == old(state).cur_tok,
                state.binop_precedence == old(state).binop_precedence,
            crate::cg_eq(*old(state), *state),
                s@ =~= state.input@.subrange(start, state.pos as int),
                forall|j: int| start + 1 <= j < state.pos ==> is_alnum_char(state.input@[j]),
            decreases state.input.len() - state.pos,
        {
            let c2 = state.input[state.pos];
            push_char(&mut s, c2);
            proof {
                assert(s@ =~= state.input@.subrange(start, state.pos + 1));
            }
            state.pos = state.pos + 1;
        }
        proof {
            lemma_alnum_run_exact(state.input@, start + 1, state.pos as int);
        }
        match keyword_of(&s) {
            Some(t) => t,
            None => Token::TokIdentifier(s),
        }
    } else if char_is_num(c) {
        // number: [0-9.]+
        let mut s = String::new();
        push_char(&mut s, c);
        state.pos = state.pos + 1;
        while state.pos < state.input.len() && char_is_num(state.input[state.pos])
            invariant
                0 <= start,
                start + 1 <= state.pos <= state.input.len(),
                state.input == old(state).input,
                state.cur_tok == old(state).cur_tok,
                state.binop_precedence == old(state).binop_precedence,
            crate::cg_eq(*old(state), *state),
                s@ =~= state.input@.subrange(start, state.pos as int),
                forall|j: int| start + 1 <= j < state.pos ==> is_num_char(state.input@[j]),
            decreases state.input.len() - state.pos,
        {
            let c2 = state.input[state.pos];
            push_char(&mut s, c2);
            proof {
                assert(s@ =~= state.input@.subrange(start, state.pos + 1));
            }
            state.pos = state.pos + 1;
        }
        proof {
            lemma_num_run_exact(state.input@, start + 1, state.pos as int);
        }
        Token::TokNumber(s)
    } else if c == '#' {
        // Comment until end of line, then read the next token.
        state.pos = state.pos + 1;
        while state.pos < state.input.len() && !char_is_eol(state.input[state.pos])
            invariant
                0 <= start,
                start + 1 <= state.pos <= state.input.len(),
                state.input == old(state).input,
                state.cur_tok == old(state).cur_tok,
                state.binop_precedence == old(state).binop_precedence,
            crate::cg_eq(*old(state), *state),
                forall|j: int| start + 1 <= j < state.pos ==> !is_eol_char(state.input@[j]),
            decreases state.input.len() - state.pos,
        {
            state.pos = state.pos + 1;
        }
        proof {
            lemma_noneol_run_exact(state.input@, start + 1, state.pos as int);
        }
        get_token(state)
    } else {
        state.pos = state.pos + 1;
        Token::TokChar(c)
    }
}

/// Read one token and make it the current token.
pub fn get_next_token(state: &mut State)
    requires
        old(state).lex_wf(),
    ensures
        final(state).lex_wf(),
        final(state).input == old(state).input,
        crate::cg_eq(*old(state), *final(state)),
        final(state).binop_precedence == old(state).binop_precedence,
        (final(state).cur_tok@, final(state).pos as int) == next_tok(
            old(state).input@,
            old(state).pos as int,
        ),
        old(state).cur_tok@ != Tok::Eof ==> final(state).rest_toks() == old(state).rest_toks().skip(
            1,
        ),
        old(state).cur_tok@ == Tok::Eof && old(state).pos == old(state).input@.len() ==> final(
            state
        ).rest_toks() == old(state).rest_toks(),
{
    let t = get_token(state);
    state.cur_tok = t;
    proof {
        let input = old(state).input@;
        let p0 = old(state).pos as int;
        lemma_next_tok_bounds(input, p0);
        lemma_toks_from_unfold(input, p0);
        if old(state).cur_tok@ != Tok::Eof {
            assert(old(state).rest_toks() == seq![old(state).cur_tok@] + toks_from(input, p0));
            assert(old(state).rest_toks().skip(1) =~= toks_from(input, p0));
            if state.cur_tok@ == Tok::Eof {
                assert(state.rest_toks() =~= toks_from(input, p0));
            } else {
                assert(state.rest_toks() =~= toks_from(input, p0));
            }
        }
    }
}

} // verus!
