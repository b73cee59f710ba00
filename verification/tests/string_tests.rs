use quarter::session::{execute_line, CompilerConfig, ExecutionOptions, RuntimeContext, SourceFiles};
use quarter::{Dictionary, LoopStack, Memory, ReturnStack, Stack};

fn string_ctx() -> RuntimeContext {
    RuntimeContext::new(Stack::new(), Dictionary::new(), LoopStack::new(), ReturnStack::new(), Memory::new())
}

fn string_line(ctx: &mut RuntimeContext, line: &str) {
    let config = CompilerConfig::new(false, false, false);
    let options = ExecutionOptions::new(false, false);
    execute_line(line, ctx, config, options, &mut Vec::new(), &mut SourceFiles::new()).unwrap();
}

fn string_pop(ctx: &mut RuntimeContext) -> i64 {
    ctx.machine.stack.pop(&mut ctx.machine.memory).unwrap()
}

fn byte_at(ctx: &RuntimeContext, addr: i64) -> i64 {
    ctx.machine.memory.fetch_byte(addr as usize).unwrap()
}

#[test]
fn test_s_quote_basic() {
    let mut ctx = string_ctx();
    string_line(&mut ctx, ": TEST S\" Hello\" ;");
    string_line(&mut ctx, "TEST");
    let len = string_pop(&mut ctx);
    let addr = string_pop(&mut ctx);
    assert_eq!(len, 5);
    assert_eq!(addr, 131072);
}

#[test]
fn test_s_quote_fetch_string() {
    let mut ctx = string_ctx();
    string_line(&mut ctx, ": TEST S\" Hi!\" ;");
    string_line(&mut ctx, "TEST");
    let len = string_pop(&mut ctx);
    let addr = string_pop(&mut ctx);
    assert_eq!(byte_at(&ctx, addr), 'H' as i64);
    assert_eq!(byte_at(&ctx, addr + 1), 'i' as i64);
    assert_eq!(byte_at(&ctx, addr + 2), '!' as i64);
    assert_eq!(len, 3);
}

#[test]
fn test_s_quote_multiple_strings() {
    let mut ctx = string_ctx();
    string_line(&mut ctx, ": STR1 S\" First\" ;");
    string_line(&mut ctx, ": STR2 S\" Second\" ;");
    string_line(&mut ctx, "STR1");
    let len1 = string_pop(&mut ctx);
    let addr1 = string_pop(&mut ctx);
    string_line(&mut ctx, "STR2");
    let len2 = string_pop(&mut ctx);
    let addr2 = string_pop(&mut ctx);
    assert_eq!(len1, 5);
    assert_eq!(len2, 6);
    assert_eq!(addr2, addr1 + 5);
}

#[test]
fn test_s_quote_empty_string() {
    let mut ctx = string_ctx();
    string_line(&mut ctx, ": EMPTY S\" \" ;");
    string_line(&mut ctx, "EMPTY");
    let len = string_pop(&mut ctx);
    let _addr = string_pop(&mut ctx);
    assert_eq!(len, 0);
}

#[test]
fn test_s_quote_with_spaces() {
    let mut ctx = string_ctx();
    string_line(&mut ctx, ": PHRASE S\" Hello World\" ;");
    string_line(&mut ctx, "PHRASE");
    let len = string_pop(&mut ctx);
    let addr = string_pop(&mut ctx);
    assert_eq!(len, 11);
    assert_eq!(byte_at(&ctx, addr + 5), ' ' as i64);
}

#[test]
fn test_s_quote_advances_here() {
    let mut ctx = string_ctx();
    let initial_here = ctx.machine.memory.here();
    string_line(&mut ctx, ": TEN S\" 1234567890\" ;");
    assert_eq!(ctx.machine.memory.here(), initial_here);
    string_line(&mut ctx, "TEN");
    assert_eq!(ctx.machine.memory.here(), initial_here + 10);
    string_pop(&mut ctx);
    string_pop(&mut ctx);
}

#[test]
fn test_s_quote_with_special_chars() {
    let mut ctx = string_ctx();
    string_line(&mut ctx, ": SPECIAL S\" !@#$%\" ;");
    string_line(&mut ctx, "SPECIAL");
    let len = string_pop(&mut ctx);
    let addr = string_pop(&mut ctx);
    assert_eq!(len, 5);
    assert_eq!(byte_at(&ctx, addr), '!' as i64);
    assert_eq!(byte_at(&ctx, addr + 1), '@' as i64);
}

#[test]
fn test_s_quote_utf8_bytes() {
    let mut ctx = string_ctx();
    string_line(&mut ctx, ": UMLAUT S\" ä€\" ;");
    string_line(&mut ctx, "UMLAUT");
    let len = string_pop(&mut ctx);
    let addr = string_pop(&mut ctx);
    assert_eq!(len, 5);
    assert_eq!(byte_at(&ctx, addr), 0xC3);
    assert_eq!(byte_at(&ctx, addr + 1), 0xA4);
    assert_eq!(byte_at(&ctx, addr + 2), 0xE2);
    assert_eq!(byte_at(&ctx, addr + 3), 0x82);
    assert_eq!(byte_at(&ctx, addr + 4), 0xAC);
}

#[test]
fn test_s_quote_type() {
    let mut ctx = string_ctx();
    string_line(&mut ctx, ": MSG S\" Hi there\" ;");
    string_line(&mut ctx, "MSG TYPE");
    assert_eq!(ctx.machine.take_output(), "Hi there");
}
