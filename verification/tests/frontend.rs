//! Lexer, parser and error-path tests, including concrete instances of
//! the general properties: left-associative parses for equal priorities,
//! and lexing that preserves token text.

use kaleidoscope::ast::AST;
use kaleidoscope::codegen::CodegenError;
use kaleidoscope::driver::handle_statement;
use kaleidoscope::driver::CompileError;
use kaleidoscope::driver::Handled;
use kaleidoscope::lexer::get_next_token;
use kaleidoscope::lexer::Token;
use kaleidoscope::parser::check_num_literal;
use kaleidoscope::parser::parse_expression;
use kaleidoscope::parser::parse_prototype;
use kaleidoscope::parser::ParseError;
use kaleidoscope::State;

fn lex_all(src: &str) -> Vec<Token> {
    let mut state = State::new(src.chars().collect());
    let mut toks = Vec::new();
    loop {
        get_next_token(&mut state);
        if matches!(state.cur_tok, Token::TokEOF) {
            break;
        }
        toks.push(state.cur_tok.clone());
    }
    toks
}

fn ready(src: &str) -> State {
    let mut state = State::new(src.chars().collect());
    get_next_token(&mut state);
    state
}

#[test]
fn lexer_recognizes_keywords_idents_numbers_chars() {
    let toks = lex_all("def extern if then else for in var binary unary foo 1.25 + #x\n(");
    assert_eq!(toks.len(), 14);
    assert!(matches!(toks[0], Token::TokDef));
    assert!(matches!(toks[1], Token::TokExtern));
    assert!(matches!(toks[2], Token::TokIf));
    assert!(matches!(toks[3], Token::TokThen));
    assert!(matches!(toks[4], Token::TokElse));
    assert!(matches!(toks[5], Token::TokFor));
    assert!(matches!(toks[6], Token::TokIn));
    assert!(matches!(toks[7], Token::TokVar));
    assert!(matches!(toks[8], Token::TokBinary));
    assert!(matches!(toks[9], Token::TokUnary));
    match &toks[10] {
        Token::TokIdentifier(s) => assert_eq!(s, "foo"),
        t => panic!("expected identifier, got {:?}", t),
    }
    match &toks[11] {
        Token::TokNumber(s) => assert_eq!(s, "1.25"),
        t => panic!("expected number, got {:?}", t),
    }
    assert!(matches!(toks[12], Token::TokChar('+')));
    assert!(matches!(toks[13], Token::TokChar('(')));
}

#[test]
fn lexer_round_trips_token_text() {
    // concatenating the emitted tokens' literal forms with single spaces
    // reproduces the input modulo whitespace and comments
    let toks = lex_all("alpha 12.5 beta # gone\n < def");
    let mut rendered = String::new();
    for t in &toks {
        if !rendered.is_empty() {
            rendered.push(' ');
        }
        match t {
            Token::TokIdentifier(s) => rendered.push_str(s),
            Token::TokNumber(s) => rendered.push_str(s),
            Token::TokChar(c) => rendered.push(*c),
            Token::TokDef => rendered.push_str("def"),
            _ => panic!("unexpected token {:?}", t),
        }
    }
    assert_eq!(rendered, "alpha 12.5 beta < def");
    assert_eq!(lex_all(&rendered), toks);
}

#[test]
fn exit_keyword_reads_as_end_of_input() {
    let toks = lex_all("a exit b");
    assert_eq!(toks.len(), 1);
}

#[test]
fn equal_precedence_operators_associate_left() {
    // 1 - 2 + 3 parses as (1 - 2) + 3: the later operator ends up at the
    // root of the tree
    let mut state = ready("1 - 2 + 3");
    let ast = parse_expression(&mut state).expect("parse failed");
    match ast {
        AST::Binary(outer) => {
            assert_eq!(outer.op, '+');
            match *outer.lhs {
                AST::Binary(inner) => {
                    assert_eq!(inner.op, '-');
                    assert!(matches!(*inner.lhs, AST::Number(_)));
                    assert!(matches!(*inner.rhs, AST::Number(_)));
                }
                t => panic!("expected nested binary, got {:?}", t),
            }
            match *outer.rhs {
                AST::Number(n) => assert_eq!(n.val, "3"),
                t => panic!("expected number, got {:?}", t),
            }
        }
        t => panic!("expected binary, got {:?}", t),
    }
}

#[test]
fn higher_precedence_binds_tighter() {
    // 1 + 2 * 3 parses as 1 + (2 * 3)
    let mut state = ready("1 + 2 * 3");
    let ast = parse_expression(&mut state).expect("parse failed");
    match ast {
        AST::Binary(outer) => {
            assert_eq!(outer.op, '+');
            assert!(matches!(*outer.rhs, AST::Binary(_)));
        }
        t => panic!("expected binary, got {:?}", t),
    }
}

#[test]
fn parenthesized_expression_overrides_precedence() {
    let mut state = ready("(1 + 2) * 3");
    let ast = parse_expression(&mut state).expect("parse failed");
    match ast {
        AST::Binary(outer) => {
            assert_eq!(outer.op, '*');
            assert!(matches!(*outer.lhs, AST::Binary(_)));
        }
        t => panic!("expected binary, got {:?}", t),
    }
}

#[test]
fn missing_close_paren_is_reported() {
    let mut state = ready("(1 + 2");
    assert_eq!(parse_expression(&mut state).err(), Some(ParseError::ExpectedClosingParen));
}

#[test]
fn unknown_token_where_expression_expected() {
    let mut state = ready("then");
    assert_eq!(parse_expression(&mut state).err(), Some(ParseError::ExpectedExpression));
}

#[test]
fn malformed_number_is_rejected_downstream() {
    assert!(!check_num_literal(&String::from("1.2.3")));
    assert!(!check_num_literal(&String::from(".")));
    assert!(check_num_literal(&String::from("1.")));
    assert!(check_num_literal(&String::from(".5")));
    let mut state = ready("1.2.3");
    assert_eq!(parse_expression(&mut state).err(), Some(ParseError::MalformedNumber));
}

#[test]
fn operator_prototype_checks_precedence_range() {
    let mut state = ready("binary @ 101 (a b)");
    assert_eq!(parse_prototype(&mut state).err(), Some(ParseError::InvalidPrecedence));
}

#[test]
fn operator_prototype_checks_operand_count() {
    let mut state = ready("binary @ 5 (a)");
    assert_eq!(parse_prototype(&mut state).err(), Some(ParseError::InvalidOperandCount));
}

#[test]
fn binary_prototype_installs_precedence() {
    let mut state = ready("binary @ 7 (a b)");
    let proto = parse_prototype(&mut state).expect("parse failed");
    assert_eq!(proto.name, "binary@");
    assert!(proto.is_operator);
    assert_eq!(proto.precedence, 7);
    let last = state.binop_precedence[state.binop_precedence.len() - 1];
    assert_eq!(last, ('@', 7));
}

fn run_one(src: &str) -> Result<Handled, CompileError> {
    let mut state = State::new(src.chars().collect());
    get_next_token(&mut state);
    handle_statement(&mut state)
}

#[test]
fn unknown_variable_is_a_codegen_error() {
    assert_eq!(
        run_one("x + 1;").err(),
        Some(CompileError::Codegen(CodegenError::UnknownVariable))
    );
}

#[test]
fn unknown_function_is_a_codegen_error() {
    assert_eq!(
        run_one("nosuch(1);").err(),
        Some(CompileError::Codegen(CodegenError::UnknownFunction))
    );
}

#[test]
fn wrong_argument_count_is_a_codegen_error() {
    let mut state = State::new("def one(a) a; one(1, 2);".chars().collect());
    get_next_token(&mut state);
    assert!(matches!(handle_statement(&mut state), Ok(Handled::Definition(_))));
    assert!(matches!(handle_statement(&mut state), Ok(Handled::Separator)));
    assert_eq!(
        handle_statement(&mut state).err(),
        Some(CompileError::Codegen(CodegenError::IncorrectArguments))
    );
}

#[test]
fn assignment_target_must_be_a_variable() {
    assert_eq!(
        run_one("var x = 1 in (1 = 2);").err(),
        Some(CompileError::Codegen(CodegenError::AssignTargetNotVariable))
    );
}

#[test]
fn redefinition_with_a_body_is_rejected() {
    let mut state = State::new("def f(a) a; def f(a) a;".chars().collect());
    get_next_token(&mut state);
    assert!(matches!(handle_statement(&mut state), Ok(Handled::Definition(_))));
    assert!(matches!(handle_statement(&mut state), Ok(Handled::Separator)));
    assert_eq!(
        handle_statement(&mut state).err(),
        Some(CompileError::Codegen(CodegenError::FunctionRedefined))
    );
}

#[test]
fn extern_then_definition_fills_the_declaration() {
    let mut state = State::new("extern g(a); def g(a) a + 1;".chars().collect());
    get_next_token(&mut state);
    assert!(matches!(handle_statement(&mut state), Ok(Handled::Extern(_))));
    assert_eq!(state.module.funcs[0].name, "g");
    assert_eq!(state.module.funcs[0].params, vec![String::from("a")]);
    assert!(state.module.funcs[0].blocks.is_empty());
    assert!(matches!(handle_statement(&mut state), Ok(Handled::Separator)));
    assert!(matches!(handle_statement(&mut state), Ok(Handled::Definition(_))));
    assert_eq!(state.module.funcs.len(), 1);
    assert!(state.module.funcs[0].blocks.len() >= 1);
}

#[test]
fn every_emitted_block_is_terminated() {
    // every emitted function passes verification: blocks all end in a
    // terminator, and the function ends by returning a float
    let mut state = State::new(
        "def fib(n) if n < 3 then 1 else fib(n-1) + fib(n-2);".chars().collect(),
    );
    get_next_token(&mut state);
    assert!(matches!(handle_statement(&mut state), Ok(Handled::Definition(_))));
    let f = &state.module.funcs[0];
    assert!(f.blocks.len() >= 4);
    for b in f.blocks.iter() {
        assert!(b.term.is_some());
    }
}

#[test]
fn parse_error_skips_one_token_and_recovers() {
    let mut state = State::new("def 1; 2 + 2;".chars().collect());
    get_next_token(&mut state);
    assert!(matches!(
        handle_statement(&mut state),
        Err(CompileError::Parse(ParseError::ExpectedFunctionName))
    ));
    // the bad token was consumed; the loop goes on with the rest
    assert!(matches!(handle_statement(&mut state), Ok(Handled::Separator)));
    assert!(matches!(handle_statement(&mut state), Ok(Handled::TopLevel(_))));
}

#[test]
fn for_advances_the_slot_before_testing_the_end() {
    // the loop block stores the advanced value back into the slot before
    // the end condition is evaluated
    let mut state = State::new("def adv(n) for i = 1, i < n in i;".chars().collect());
    get_next_token(&mut state);
    assert!(matches!(handle_statement(&mut state), Ok(Handled::Definition(_))));
    let f = &state.module.funcs[0];
    let loop_block = f
        .blocks
        .iter()
        .find(|b| {
            b.insts.iter().any(|i| matches!(i, kaleidoscope::ir::Inst::Store(_, _)))
                && b.insts.iter().any(|i| matches!(i, kaleidoscope::ir::Inst::FCmpUlt(_, _)))
        })
        .expect("no loop block");
    let store_at = loop_block
        .insts
        .iter()
        .position(|i| matches!(i, kaleidoscope::ir::Inst::Store(_, _)))
        .unwrap();
    let cmp_at = loop_block
        .insts
        .iter()
        .position(|i| matches!(i, kaleidoscope::ir::Inst::FCmpUlt(_, _)))
        .unwrap();
    assert!(store_at < cmp_at);
}
