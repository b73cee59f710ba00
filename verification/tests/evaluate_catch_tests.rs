use quarter::session::{load_file, CompilerConfig, ExecutionOptions, RuntimeContext, SourceFiles};
use quarter::{Dictionary, LoopStack, Memory, ReturnStack, Stack};

fn run_file(name: &str, text: &str) -> (Result<(), String>, RuntimeContext) {
    let mut ctx = RuntimeContext::new(Stack::new(), Dictionary::new(), LoopStack::new(), ReturnStack::new(),
        Memory::new());
    let mut reader = SourceFiles::new();
    reader.add(name, text);
    let r = load_file(name, &mut ctx, CompilerConfig::new(false, false, false), ExecutionOptions::new(false, false),
        &mut Vec::new(), &mut reader);
    (r, ctx)
}

fn top(ctx: &mut RuntimeContext) -> Option<i64> {
    ctx.machine.stack.pop(&mut ctx.machine.memory)
}

#[test]
fn test_evaluate_via_file() {
    let (r, mut ctx) = run_file("/tmp/test_evaluate.fth", "\n        S\" 5 10 +\" EVALUATE\n    ");
    assert!(r.is_ok(), "EVALUATE test failed");
    assert_eq!(top(&mut ctx), Some(15));
}

#[test]
fn test_evaluate_multiline_via_file() {
    let (r, mut ctx) = run_file("/tmp/test_evaluate_multi.fth",
        "\n        \\ Use EVALUATE for multi-word expression\n        S\" 3 DUP * 2 +\" EVALUATE\n        \\ Should leave 11 on stack (3*3 + 2)\n    ");
    assert!(r.is_ok(), "EVALUATE multiline test failed");
    assert_eq!(top(&mut ctx), Some(11));
}

#[test]
fn test_catch_success_via_file() {
    let (r, mut ctx) = run_file("/tmp/test_catch_ok.fth", "\n        S\" 5 10 +\" CATCH DROP\n    ");
    assert!(r.is_ok(), "CATCH success test failed");
    assert_eq!(top(&mut ctx), Some(15));
}

#[test]
fn test_catch_error_via_file() {
    let (r, mut ctx) = run_file("/tmp/test_catch_err.fth", "\n        S\" BADWORD\" CATCH DROP\n    ");
    assert!(r.is_ok(), "CATCH error test failed");
    assert_eq!(top(&mut ctx), None);
}

#[test]
fn test_cmove_via_file() {
    let code = "\n        : TEST-CMOVE\n            \\ Store \"HI\" at 0x200000\n            72 2097152 C!\n            73 2097153 C!\n\n            \\ CMOVE to 0x201000\n            2097152 2101248 2 CMOVE\n\n            \\ Verify it copied\n            2101248 C@ 72 = IF\n                2101249 C@ 73 = IF\n                    \\ Success - both bytes match\n                THEN\n            THEN\n        ;\n        TEST-CMOVE\n    ";
    let (r, mut ctx) = run_file("/tmp/test_cmove.fth", code);
    assert!(r.is_ok(), "CMOVE test failed");
    assert_eq!(ctx.machine.memory.fetch_byte(2101248), Ok(72));
    assert_eq!(ctx.machine.memory.fetch_byte(2101249), Ok(73));
    assert_eq!(top(&mut ctx), None);
}
