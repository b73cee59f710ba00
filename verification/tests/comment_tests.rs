use quarter::session::{execute_line, load_stdlib, CompilerConfig, ExecutionOptions, RuntimeContext, SourceFiles};
use quarter::lexer::strip_comments;
use quarter::{Dictionary, LoopStack, Memory, ReturnStack, Stack};

fn comment_ctx() -> RuntimeContext {
    RuntimeContext::new(Stack::new(), Dictionary::new(), LoopStack::new(), ReturnStack::new(), Memory::new())
}

fn comment_line(ctx: &mut RuntimeContext, line: &str) -> Result<(), String> {
    let config = CompilerConfig::new(false, false, false);
    let options = ExecutionOptions::new(false, false);
    execute_line(line, ctx, config, options, &mut Vec::new(), &mut SourceFiles::new())
}

fn comment_pop(ctx: &mut RuntimeContext) -> Option<i64> {
    ctx.machine.stack.pop(&mut ctx.machine.memory)
}

#[test]
fn test_strip_comments_backslash() {
    assert_eq!(strip_comments("5 3 +"), "5 3 +");
    assert_eq!(strip_comments("5 3 + \\ add numbers"), "5 3 + ");
    assert_eq!(strip_comments("\\ full line comment"), "");
    assert_eq!(strip_comments("DUP \\ duplicate"), "DUP ");
}

#[test]
fn test_strip_comments_parenthesis() {
    assert_eq!(strip_comments("5 ( comment ) 3 +"), "5  3 +");
    assert_eq!(strip_comments("( full line comment )"), "");
    assert_eq!(strip_comments("10 ( a ) 20 ( b ) +"), "10  20  +");
}

#[test]
fn test_strip_comments_mixed() {
    assert_eq!(strip_comments("5 ( inline ) 3 + \\ end of line"), "5  3 + ");
    assert_eq!(strip_comments("( comment ) DUP \\ another"), " DUP ");
}

#[test]
fn test_backslash_comment_in_execution() {
    let mut ctx = comment_ctx();
    comment_line(&mut ctx, "5 3 + \\ this is a comment").unwrap();
    assert_eq!(comment_pop(&mut ctx), Some(8));
}

#[test]
fn test_parenthesis_comment_in_execution() {
    let mut ctx = comment_ctx();
    comment_line(&mut ctx, "10 ( first number ) 20 ( second number ) +").unwrap();
    assert_eq!(comment_pop(&mut ctx), Some(30));
}

#[test]
fn test_stack_effect_notation() {
    let mut ctx = comment_ctx();
    comment_line(&mut ctx, ": SQUARE ( n -- n² ) DUP * ;").unwrap();
    comment_line(&mut ctx, "5 SQUARE").unwrap();
    assert_eq!(comment_pop(&mut ctx), Some(25));
}

#[test]
fn test_mixed_comments_in_definition() {
    let mut ctx = comment_ctx();
    let config = CompilerConfig::new(false, false, false);
    let options = ExecutionOptions::new(false, false);
    load_stdlib(&mut ctx, config, options, &mut Vec::new(), "", &mut SourceFiles::new()).unwrap();
    comment_line(&mut ctx, ": ABS ( n -- |n| ) DUP 0 < IF NEGATE THEN ; \\ absolute value").unwrap();
    ctx.machine.push_value(-42).unwrap();
    comment_line(&mut ctx, "ABS").unwrap();
    assert_eq!(comment_pop(&mut ctx), Some(42));
}

#[test]
fn test_multiple_parenthesis_comments() {
    let mut ctx = comment_ctx();
    comment_line(&mut ctx, "5 ( a ) DUP ( b ) * ( c ) 10 ( d ) +").unwrap();
    assert_eq!(comment_pop(&mut ctx), Some(35));
}

#[test]
fn test_comment_only_line() {
    let mut ctx = comment_ctx();
    comment_line(&mut ctx, "\\ just a comment").unwrap();
    comment_line(&mut ctx, "( just a comment )").unwrap();
    assert!(ctx.machine.stack.is_empty());
}

#[test]
fn test_dot_paren_kept_by_strip() {
    assert_eq!(strip_comments(".( hello ) 1"), ".( hello ) 1");
    assert_eq!(strip_comments(". ( x )"), ". ( x )");
    assert_eq!(strip_comments("a ) b"), "a  b");
}

#[test]
fn test_dot_paren_prints() {
    let mut ctx = comment_ctx();
    comment_line(&mut ctx, ".( hello world )").unwrap();
    assert_eq!(ctx.machine.take_output(), "hello world ");
}

#[test]
fn test_strip_twice_is_strip_once() {
    let inputs = [
        ".( a ( b ) c ) ( x ) 1 \\ tail",
        ". ) (x) .( y",
        "( n -- fib(n) ) DUP",
        ": SQ ( n -- n*n ) DUP * ; \\ square",
    ];
    for input in inputs.iter() {
        let once = strip_comments(input);
        assert!(!once.contains('\\'));
        assert_eq!(strip_comments(&once), once);
    }
    assert_eq!(strip_comments(".( a ( b ) c ) ( x ) 1 \\ tail"), ".( a  c )  1 ");
}
