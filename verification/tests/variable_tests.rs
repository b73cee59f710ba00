use quarter::session::{execute_line, CompilerConfig, ExecutionOptions, RuntimeContext, SourceFiles};
use quarter::{Dictionary, LoopStack, Machine, Memory, ReturnStack, Stack};

fn var_ctx() -> RuntimeContext {
    RuntimeContext::new(Stack::new(), Dictionary::new(), LoopStack::new(), ReturnStack::new(), Memory::new())
}

fn var_line(ctx: &mut RuntimeContext, line: &str) {
    let config = CompilerConfig::new(false, false, false);
    let options = ExecutionOptions::new(false, false);
    execute_line(line, ctx, config, options, &mut Vec::new(), &mut SourceFiles::new()).unwrap();
}

fn var_pop(ctx: &mut RuntimeContext) -> Option<i64> {
    ctx.machine.stack.pop(&mut ctx.machine.memory)
}

#[test]
fn test_variable_basic() {
    let mut ctx = var_ctx();
    var_line(&mut ctx, "VARIABLE X");
    var_line(&mut ctx, "X");
    let addr = var_pop(&mut ctx).unwrap();
    assert_eq!(addr, 131072);
    var_line(&mut ctx, "42 X !");
    var_line(&mut ctx, "X @");
    assert_eq!(var_pop(&mut ctx), Some(42));
}

#[test]
fn test_variable_multiple() {
    let mut ctx = var_ctx();
    var_line(&mut ctx, "VARIABLE FOO");
    var_line(&mut ctx, "VARIABLE BAR");
    var_line(&mut ctx, "10 FOO !");
    var_line(&mut ctx, "20 BAR !");
    var_line(&mut ctx, "FOO @");
    assert_eq!(var_pop(&mut ctx), Some(10));
    var_line(&mut ctx, "BAR @");
    assert_eq!(var_pop(&mut ctx), Some(20));
}

#[test]
fn test_constant_basic() {
    let mut ctx = var_ctx();
    var_line(&mut ctx, "100 CONSTANT HUNDRED");
    var_line(&mut ctx, "HUNDRED");
    assert_eq!(var_pop(&mut ctx), Some(100));
    var_line(&mut ctx, "HUNDRED HUNDRED +");
    assert_eq!(var_pop(&mut ctx), Some(200));
}

#[test]
fn test_constant_in_definition() {
    let mut ctx = var_ctx();
    var_line(&mut ctx, "10 CONSTANT TEN");
    var_line(&mut ctx, "5 CONSTANT FIVE");
    var_line(&mut ctx, ": SUM TEN FIVE + ;");
    var_line(&mut ctx, "SUM");
    assert_eq!(var_pop(&mut ctx), Some(15));
}

#[test]
fn test_variable_constant_together() {
    let mut ctx = var_ctx();
    var_line(&mut ctx, "VARIABLE COUNTER");
    var_line(&mut ctx, "42 CONSTANT ANSWER");
    var_line(&mut ctx, "ANSWER COUNTER !");
    var_line(&mut ctx, "COUNTER @");
    assert_eq!(var_pop(&mut ctx), Some(42));
}

#[test]
fn test_here_after_variables() {
    let mut ctx = var_ctx();
    var_line(&mut ctx, "HERE");
    let initial = var_pop(&mut ctx).unwrap();
    var_line(&mut ctx, "VARIABLE X");
    var_line(&mut ctx, "HERE");
    assert_eq!(var_pop(&mut ctx), Some(initial + 8));
}

#[test]
fn test_create_basic() {
    let mut ctx = var_ctx();
    var_line(&mut ctx, "CREATE BUFFER");
    var_line(&mut ctx, "BUFFER");
    let addr = var_pop(&mut ctx).unwrap();
    assert_eq!(addr, 131072);
}

#[test]
fn test_create_with_allot() {
    let mut ctx = var_ctx();
    var_line(&mut ctx, "CREATE BUFFER 100 ALLOT");
    var_line(&mut ctx, "BUFFER");
    let buffer_addr = var_pop(&mut ctx).unwrap();
    var_line(&mut ctx, "42 BUFFER !");
    var_line(&mut ctx, "BUFFER @");
    assert_eq!(var_pop(&mut ctx), Some(42));
    var_line(&mut ctx, "HERE");
    assert_eq!(var_pop(&mut ctx), Some(buffer_addr + 100));
}

#[test]
fn test_create_multiple_buffers() {
    let mut ctx = var_ctx();
    var_line(&mut ctx, "CREATE BUF1 20 ALLOT");
    var_line(&mut ctx, "CREATE BUF2 30 ALLOT");
    var_line(&mut ctx, "BUF1");
    let buf1_addr = var_pop(&mut ctx).unwrap();
    var_line(&mut ctx, "BUF2");
    let buf2_addr = var_pop(&mut ctx).unwrap();
    assert_eq!(buf2_addr, buf1_addr + 20);
    var_line(&mut ctx, "100 BUF1 !");
    var_line(&mut ctx, "200 BUF2 !");
    var_line(&mut ctx, "BUF1 @");
    assert_eq!(var_pop(&mut ctx), Some(100));
    var_line(&mut ctx, "BUF2 @");
    assert_eq!(var_pop(&mut ctx), Some(200));
}

#[test]
fn test_comma_stores_cells() {
    let mut ctx = var_ctx();
    var_line(&mut ctx, "HERE 42 , 43 , 44 , HERE");
    let end = var_pop(&mut ctx).unwrap();
    let start = var_pop(&mut ctx).unwrap();
    assert_eq!(end, start + 24);
    assert_eq!(ctx.machine.memory.fetch(start as usize), Ok(42));
    assert_eq!(ctx.machine.memory.fetch((start + 8) as usize), Ok(43));
    assert_eq!(ctx.machine.memory.fetch((start + 16) as usize), Ok(44));
}

#[test]
fn test_here_initial() {
    let mut m = Machine::new();
    let dict = Dictionary::new();

    dict.execute_word("HERE", &mut m)
        .unwrap();
    assert_eq!(m.stack.pop(&mut m.memory), Some(131072));
}

#[test]
fn test_allot() {
    let mut m = Machine::new();
    let dict = Dictionary::new();

    dict.execute_word("HERE", &mut m)
        .unwrap();
    let initial_here = m.stack.pop(&mut m.memory).unwrap();

    m.stack.push(16, &mut m.memory);
    dict.execute_word("ALLOT", &mut m)
        .unwrap();

    dict.execute_word("HERE", &mut m)
        .unwrap();
    assert_eq!(m.stack.pop(&mut m.memory), Some(initial_here + 16));
}

#[test]
fn test_comma_basic() {
    let mut m = Machine::new();
    let dict = Dictionary::new();

    dict.execute_word("HERE", &mut m)
        .unwrap();
    let addr = m.stack.pop(&mut m.memory).unwrap();

    m.stack.push(42, &mut m.memory);
    dict.execute_word(",", &mut m)
        .unwrap();

    m.stack.push(43, &mut m.memory);
    dict.execute_word(",", &mut m)
        .unwrap();

    m.stack.push(44, &mut m.memory);
    dict.execute_word(",", &mut m)
        .unwrap();

    dict.execute_word("HERE", &mut m)
        .unwrap();
    assert_eq!(m.stack.pop(&mut m.memory), Some(addr + 24));

    assert_eq!(m.memory.fetch(addr as usize).unwrap(), 42);
    assert_eq!(m.memory.fetch((addr + 8) as usize).unwrap(), 43);
    assert_eq!(m.memory.fetch((addr + 16) as usize).unwrap(), 44);
}

#[test]
fn test_comma_and_fetch() {
    let mut m = Machine::new();
    let dict = Dictionary::new();

    dict.execute_word("HERE", &mut m)
        .unwrap();
    let start_addr = m.stack.pop(&mut m.memory).unwrap();

    m.stack.push(10, &mut m.memory);
    dict.execute_word(",", &mut m)
        .unwrap();

    m.stack.push(20, &mut m.memory);
    dict.execute_word(",", &mut m)
        .unwrap();

    m.stack.push(30, &mut m.memory);
    dict.execute_word(",", &mut m)
        .unwrap();

    m.stack.push(start_addr, &mut m.memory);
    dict.execute_word("@", &mut m)
        .unwrap();
    assert_eq!(m.stack.pop(&mut m.memory), Some(10));

    m.stack.push(start_addr + 8, &mut m.memory);
    dict.execute_word("@", &mut m)
        .unwrap();
    assert_eq!(m.stack.pop(&mut m.memory), Some(20));

    m.stack.push(start_addr + 16, &mut m.memory);
    dict.execute_word("@", &mut m)
        .unwrap();
    assert_eq!(m.stack.pop(&mut m.memory), Some(30));
}
