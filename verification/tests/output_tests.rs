use quarter::session::{execute_line, CompilerConfig, ExecutionOptions, RuntimeContext, SourceFiles};
use quarter::{Dictionary, LoopStack, Memory, ReturnStack, Stack};

fn output_ctx() -> RuntimeContext {
    RuntimeContext::new(Stack::new(), Dictionary::new(), LoopStack::new(), ReturnStack::new(), Memory::new())
}

fn output_line(ctx: &mut RuntimeContext, line: &str) -> Result<(), String> {
    let config = CompilerConfig::new(false, false, false);
    let options = ExecutionOptions::new(false, false);
    execute_line(line, ctx, config, options, &mut Vec::new(), &mut SourceFiles::new())
}

#[test]
fn test_u_dot() {
    let mut ctx = output_ctx();
    output_line(&mut ctx, "42 U.").unwrap();
    assert!(ctx.machine.stack.is_empty());
    assert_eq!(ctx.machine.take_output(), "42 ");
    output_line(&mut ctx, "-1 U.").unwrap();
    assert!(ctx.machine.stack.is_empty());
    assert_eq!(ctx.machine.take_output(), "18446744073709551615 ");
}

#[test]
fn test_dot_r() {
    let mut ctx = output_ctx();
    output_line(&mut ctx, "42 10 .R").unwrap();
    assert!(ctx.machine.stack.is_empty());
    assert_eq!(ctx.machine.take_output(), "        42 ");
    output_line(&mut ctx, "-123 8 .R").unwrap();
    assert!(ctx.machine.stack.is_empty());
    assert_eq!(ctx.machine.take_output(), "    -123 ");
    output_line(&mut ctx, "12345 3 .R").unwrap();
    assert!(ctx.machine.stack.is_empty());
    assert_eq!(ctx.machine.take_output(), "12345 ");
}

#[test]
fn test_u_dot_r() {
    let mut ctx = output_ctx();
    output_line(&mut ctx, "42 10 U.R").unwrap();
    assert!(ctx.machine.stack.is_empty());
    assert_eq!(ctx.machine.take_output(), "        42 ");
    output_line(&mut ctx, "-1 12 U.R").unwrap();
    assert!(ctx.machine.stack.is_empty());
    assert_eq!(ctx.machine.take_output(), "18446744073709551615 ");
}

#[test]
fn test_dot_and_print_string() {
    let mut ctx = output_ctx();
    output_line(&mut ctx, ": GREET .\" Hello World\" CR ;").unwrap();
    output_line(&mut ctx, "GREET -7 . 3 4 + .").unwrap();
    assert_eq!(ctx.machine.take_output(), "Hello World\n-7 7 ");
}

#[test]
fn test_underflow_message() {
    let mut ctx = output_ctx();
    output_line(&mut ctx, ".").unwrap();
    assert_eq!(ctx.machine.take_output(), "Stack underflow!\n");
}
