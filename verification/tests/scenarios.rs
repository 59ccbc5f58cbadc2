//! End-to-end scenarios: feed source text through the session, compile
//! each top-level expression, and execute the emitted IR with a small
//! float evaluator, resolving externs against the host math library.

use std::collections::HashMap;

use kaleidoscope::driver::handle_statement;
use kaleidoscope::driver::Handled;
use kaleidoscope::ir::Inst;
use kaleidoscope::ir::IrFunction;
use kaleidoscope::ir::IrModule;
use kaleidoscope::ir::Operand;
use kaleidoscope::ir::Term;
use kaleidoscope::lexer::get_next_token;
use kaleidoscope::lexer::Token;
use kaleidoscope::State;

fn lookup<'a>(m: &'a IrModule, name: &str) -> &'a IrFunction {
    for f in m.funcs.iter() {
        if f.name == name {
            return f;
        }
    }
    panic!("unknown function {}", name);
}

fn eval_operand(o: &Operand, params: &[f64], regs: &HashMap<(usize, usize), f64>) -> f64 {
    match o {
        Operand::Const(s) => s.parse::<f64>().unwrap(),
        Operand::Param(i) => params[*i],
        Operand::Reg(b, k) => *regs.get(&(*b, *k)).expect("register read before write"),
    }
}

fn call_fn(m: &IrModule, f: &IrFunction, params: &[f64]) -> f64 {
    assert_eq!(f.params.len(), params.len());
    if f.blocks.is_empty() {
        // A declaration: resolve against the host, as the JIT would.
        return match f.name.as_str() {
            "sin" => params[0].sin(),
            "cos" => params[0].cos(),
            _ => panic!("unresolved extern {}", f.name),
        };
    }
    let mut slots = vec![0.0f64; f.slots.len()];
    let mut regs: HashMap<(usize, usize), f64> = HashMap::new();
    let mut prev: usize = 0;
    let mut cur: usize = 0;
    loop {
        let blk = &f.blocks[cur];
        for (k, inst) in blk.insts.iter().enumerate() {
            let v = match inst {
                Inst::FAdd(a, b) => {
                    eval_operand(a, params, &regs) + eval_operand(b, params, &regs)
                }
                Inst::FSub(a, b) => {
                    eval_operand(a, params, &regs) - eval_operand(b, params, &regs)
                }
                Inst::FMul(a, b) => {
                    eval_operand(a, params, &regs) * eval_operand(b, params, &regs)
                }
                Inst::FCmpUlt(a, b) => {
                    let x = eval_operand(a, params, &regs);
                    let y = eval_operand(b, params, &regs);
                    if x.is_nan() || y.is_nan() || x < y {
                        1.0
                    } else {
                        0.0
                    }
                }
                Inst::FCmpOne(a, b) => {
                    let x = eval_operand(a, params, &regs);
                    let y = eval_operand(b, params, &regs);
                    if !x.is_nan() && !y.is_nan() && x != y {
                        1.0
                    } else {
                        0.0
                    }
                }
                Inst::UiToFp(a) => eval_operand(a, params, &regs),
                Inst::Call(name, args) => {
                    let vals: Vec<f64> =
                        args.iter().map(|a| eval_operand(a, params, &regs)).collect();
                    let callee = lookup(m, name.as_str());
                    call_fn(m, callee, &vals)
                }
                Inst::Load(s) => slots[*s],
                Inst::Store(s, v) => {
                    slots[*s] = eval_operand(v, params, &regs);
                    0.0
                }
                Inst::Phi(inc) => {
                    let mut out = None;
                    for (o, from) in inc.iter() {
                        if *from == prev {
                            out = Some(eval_operand(o, params, &regs));
                        }
                    }
                    out.expect("phi without an edge from the predecessor")
                }
            };
            regs.insert((cur, k), v);
        }
        match blk.term.as_ref().expect("unterminated block") {
            Term::Br(b) => {
                prev = cur;
                cur = *b;
            }
            Term::CondBr(c, t, e) => {
                let cv = eval_operand(c, params, &regs);
                prev = cur;
                cur = if cv != 0.0 { *t } else { *e };
            }
            Term::Ret(v) => {
                return eval_operand(v, params, &regs);
            }
        }
    }
}

/// Compile a transcript and return the values of its top-level
/// expressions, in order.
fn run(src: &str) -> Vec<f64> {
    let mut state = State::new(src.chars().collect());
    let mut outs: Vec<f64> = Vec::new();
    get_next_token(&mut state);
    loop {
        if matches!(state.cur_tok, Token::TokEOF) {
            break;
        }
        match handle_statement(&mut state) {
            Ok(Handled::Eof) => break,
            Ok(Handled::TopLevel(f)) => {
                let v = call_fn(&state.module, &f, &[]);
                outs.push(v);
            }
            Ok(_) => {}
            Err(e) => panic!("compile error: {:?}", e),
        }
    }
    outs
}

#[test]
fn addition_of_two_literals() {
    assert_eq!(run("4 + 5;"), vec![9.0]);
}

#[test]
fn squared_sum_via_definition() {
    assert_eq!(run("def foo(a b) a*a + 2*a*b + b*b; foo(3, 4);"), vec![49.0]);
}

#[test]
fn extern_resolves_against_host() {
    assert_eq!(run("extern sin(x); sin(1.0);"), vec![0.8414709848078965]);
}

#[test]
fn recursive_fibonacci_via_if() {
    assert_eq!(
        run("def fib(n) if n < 3 then 1 else fib(n-1) + fib(n-2); fib(10);"),
        vec![55.0]
    );
}

#[test]
fn for_loop_always_yields_zero() {
    assert_eq!(run("def loop(n) for i = 1, i < n, 1.0 in i; loop(5);"), vec![0.0]);
}

#[test]
fn user_operator_with_var_and_assignment() {
    assert_eq!(
        run("def binary : 1 (x y) y; def mut(a) var x = 0 in (x = a : x); mut(7);"),
        vec![7.0]
    );
}

#[test]
fn comments_and_whitespace_are_skipped() {
    assert_eq!(run("# greeting\n 1 + 2 # trailing\n ;"), vec![3.0]);
}

#[test]
fn unary_operator_definition() {
    assert_eq!(run("def unary - (v) 0 - v; def f(a) -a; f(3);"), vec![-3.0]);
}

#[test]
fn nested_if_chooses_else() {
    assert_eq!(run("if 0 then 1 else 2;"), vec![2.0]);
}

#[test]
fn for_loop_mutates_outer_state_via_body_calls() {
    // the loop variable shadows nothing and the body value is dropped
    assert_eq!(run("def g(n) (for i = 0, i < n in i) + n; g(3);"), vec![3.0]);
}

#[test]
fn default_step_is_one() {
    // without a step the loop still terminates: the default step is 1.0
    assert_eq!(run("def h(n) for i = 1, i < n in i; h(4);"), vec![0.0]);
}
