use quarter::session::{begin_file, begin_line, claim_file, continue_run, execute_line, load_file, supply_file,
    CompilerConfig, ExecutionOptions, Progress, RuntimeContext, SourceFiles, SourceReader};
use quarter::{Dictionary, LoopStack, Memory, ReturnStack, Stack};

fn no_files() -> SourceFiles {
    SourceFiles::new()
}

fn integ_ctx() -> RuntimeContext {
    RuntimeContext::new(Stack::new(), Dictionary::new(), LoopStack::new(), ReturnStack::new(), Memory::new())
}

fn integ_line(ctx: &mut RuntimeContext, line: &str) -> Result<(), String> {
    let config = CompilerConfig::new(false, false, false);
    let options = ExecutionOptions::new(false, false);
    execute_line(line, ctx, config, options, &mut Vec::new(), &mut no_files())
}

fn integ_pop(ctx: &mut RuntimeContext) -> Option<i64> {
    ctx.machine.stack.pop(&mut ctx.machine.memory)
}

#[test]
fn test_execute_line_simple_expression() {
    let mut ctx = integ_ctx();
    integ_line(&mut ctx, "5 3 +").unwrap();
    assert_eq!(integ_pop(&mut ctx), Some(8));
}

#[test]
fn test_execute_line_word_definition() {
    let mut ctx = integ_ctx();
    integ_line(&mut ctx, ": SQUARE DUP * ;").unwrap();
    integ_line(&mut ctx, "5 SQUARE").unwrap();
    assert_eq!(integ_pop(&mut ctx), Some(25));
}

#[test]
fn test_execute_line_if_then_error() {
    let mut ctx = integ_ctx();
    let result = integ_line(&mut ctx, "1 IF 42 THEN");
    assert!(result.is_err());
    assert!(result.unwrap_err().contains("compile-only"));
}

#[test]
fn test_execute_line_empty() {
    let mut ctx = integ_ctx();
    let result = integ_line(&mut ctx, "");
    assert!(result.is_ok());
}

#[test]
fn test_execute_line_whitespace_only() {
    let mut ctx = integ_ctx();
    let result = integ_line(&mut ctx, "   ");
    assert!(result.is_ok());
}

#[test]
fn test_execute_line_invalid_word() {
    let mut ctx = integ_ctx();
    let result = integ_line(&mut ctx, "NONEXISTENT");
    assert!(result.is_err());
}

#[test]
fn test_execute_line_incomplete_definition() {
    let mut ctx = integ_ctx();
    let result = integ_line(&mut ctx, ": SQUARE DUP *");
    assert!(result.is_err());
    assert!(result.unwrap_err().contains("Missing ;"));
}

#[test]
fn test_include_nonexistent() {
    let mut ctx = integ_ctx();
    let result = integ_line(&mut ctx, "INCLUDE /tmp/nonexistent_lib.qtr");
    assert!(result.is_err());
    assert!(result.unwrap_err().contains("Cannot read file"));
}

#[test]
fn test_include_missing_filename() {
    let mut ctx = integ_ctx();
    let result = integ_line(&mut ctx, "INCLUDE");
    assert!(result.is_err());
    assert!(result.unwrap_err().contains("requires a filename"));
}

#[test]
fn test_unknown_word_message() {
    let mut ctx = integ_ctx();
    assert_eq!(integ_line(&mut ctx, "NONEXISTENT"), Err("Unknown word: NONEXISTENT".to_string()));
}

#[test]
fn test_include_file_in_place() {
    let mut ctx = integ_ctx();
    let mut reader = files_with(&[
        ("lib1.qtr", ": WORD1 42 ; \\ first\n"),
        ("lib2.qtr", "INCLUDE lib1.qtr\n: WORD2 WORD1 2 * ;\n"),
    ]);
    let config = CompilerConfig::new(false, false, false);
    let options = ExecutionOptions::new(false, false);
    let mut included = Vec::new();
    execute_line("INCLUDE lib2.qtr 1 WORD2", &mut ctx, config, options, &mut included, &mut reader).unwrap();
    assert_eq!(integ_pop(&mut ctx), Some(84));
    assert_eq!(integ_pop(&mut ctx), Some(1));
    assert_eq!(included, vec!["lib2.qtr".to_string(), "lib1.qtr".to_string()]);
    // A file is read at most once.
    execute_line("INCLUDE lib1.qtr WORD1", &mut ctx, config, options, &mut included, &mut reader).unwrap();
    assert_eq!(integ_pop(&mut ctx), Some(42));
    assert_eq!(reader.asked(), &vec!["lib2.qtr".to_string(), "lib1.qtr".to_string()]);
}

#[test]
fn test_load_file_runs_lines() {
    let mut ctx = integ_ctx();
    let mut reader = files_with(&[("simple.qtr", "5 3 +\n10 *\n")]);
    let config = CompilerConfig::new(false, false, false);
    let options = ExecutionOptions::new(false, false);
    let mut included = Vec::new();
    load_file("simple.qtr", &mut ctx, config, options, &mut included, &mut reader).unwrap();
    assert_eq!(integ_pop(&mut ctx), Some(80));
    // A second load of the same file does nothing.
    load_file("simple.qtr", &mut ctx, config, options, &mut included, &mut reader).unwrap();
    assert!(ctx.machine.stack.is_empty());
    let missing = load_file("missing.qtr", &mut ctx, config, options, &mut included, &mut reader);
    assert_eq!(missing, Err("Cannot read file: No such file: missing.qtr".to_string()));
}

#[test]
fn test_define_only_skips_execution() {
    let mut ctx = integ_ctx();
    let config = CompilerConfig::new(false, false, false);
    let options = ExecutionOptions::new(false, true);
    execute_line(": SEVEN 7 ; 1 2 3", &mut ctx, config, options, &mut Vec::new(), &mut no_files()).unwrap();
    assert!(ctx.machine.stack.is_empty());
    integ_line(&mut ctx, "SEVEN").unwrap();
    assert_eq!(integ_pop(&mut ctx), Some(7));
}

#[test]
fn test_definition_errors() {
    let mut ctx = integ_ctx();
    assert_eq!(integ_line(&mut ctx, ": ;"), Err("Invalid word definition".to_string()));
    assert_eq!(integ_line(&mut ctx, ": BAD NOPE ;"), Err("Undefined word: NOPE".to_string()));
    assert_eq!(integ_line(&mut ctx, "VARIABLE"), Err("VARIABLE requires a name".to_string()));
    assert_eq!(integ_line(&mut ctx, "CONSTANT"), Err("CONSTANT requires a name".to_string()));
    assert_eq!(integ_line(&mut ctx, "CONSTANT X"), Err("Stack underflow for CONSTANT".to_string()));
    assert_eq!(integ_line(&mut ctx, "CREATE"), Err("CREATE requires a name".to_string()));
    assert_eq!(integ_line(&mut ctx, "INCLUDED"),
        Err("Stack underflow for INCLUDED (length)".to_string()));
}

#[test]
fn test_recursion_and_tail_calls() {
    let mut ctx = integ_ctx();
    integ_line(&mut ctx, ": FACT DUP 1 > IF DUP 1 - RECURSE * THEN ;").unwrap();
    integ_line(&mut ctx, "5 FACT").unwrap();
    assert_eq!(integ_pop(&mut ctx), Some(120));
    // A tail call runs in a loop, so deep counts do not grow the native stack.
    integ_line(&mut ctx, ": COUNTDOWN DUP 0 > IF 1 - COUNTDOWN THEN ;").unwrap();
    integ_line(&mut ctx, "100000 COUNTDOWN").unwrap();
    assert_eq!(integ_pop(&mut ctx), Some(0));
}

#[test]
fn test_loops() {
    let mut ctx = integ_ctx();
    integ_line(&mut ctx, ": SUM 0 SWAP 0 DO I + LOOP ;").unwrap();
    integ_line(&mut ctx, "10 SUM").unwrap();
    assert_eq!(integ_pop(&mut ctx), Some(45));
    integ_line(&mut ctx, ": EVENS 0 10 0 DO I + 2 +LOOP ;").unwrap();
    integ_line(&mut ctx, "EVENS").unwrap();
    assert_eq!(integ_pop(&mut ctx), Some(20));
    integ_line(&mut ctx, ": FIRST5 0 100 0 DO I 5 = IF LEAVE THEN 1 + LOOP ;").unwrap();
    integ_line(&mut ctx, "FIRST5").unwrap();
    assert_eq!(integ_pop(&mut ctx), Some(5));
    integ_line(&mut ctx, ": HALVE BEGIN 2 / DUP 1 < UNTIL ;").unwrap();
    integ_line(&mut ctx, "100 HALVE").unwrap();
    assert_eq!(integ_pop(&mut ctx), Some(0));
    integ_line(&mut ctx, ": DOWN BEGIN DUP 0 > WHILE 1 - REPEAT ;").unwrap();
    integ_line(&mut ctx, "7 DOWN").unwrap();
    assert_eq!(integ_pop(&mut ctx), Some(0));
    assert!(ctx.machine.loop_stack.len() == 0);
}

#[test]
fn test_runtime_errors() {
    let mut ctx = integ_ctx();
    integ_line(&mut ctx, ": T IF 1 THEN ;").unwrap();
    assert_eq!(integ_line(&mut ctx, "T"), Err("Stack underflow in IF".to_string()));
    integ_line(&mut ctx, ": L 0 DO LOOP ;").unwrap();
    assert_eq!(integ_line(&mut ctx, "L"), Err("Stack underflow in DO".to_string()));
}

#[test]
fn test_step_budget() {
    let mut ctx = integ_ctx();
    integ_line(&mut ctx, ": FOREVER BEGIN 0 UNTIL ;").unwrap();
    ctx.machine.steps = 1000;
    assert_eq!(integ_line(&mut ctx, "FOREVER"), Err("Execution step limit exceeded".to_string()));
}

#[test]
fn test_evaluate_and_catch() {
    let mut ctx = integ_ctx();
    integ_line(&mut ctx, ": CODE S\" 2 3 +\" ;").unwrap();
    integ_line(&mut ctx, "CODE EVALUATE").unwrap();
    assert_eq!(integ_pop(&mut ctx), Some(5));
    integ_line(&mut ctx, ": OK S\" 4\" ;").unwrap();
    integ_line(&mut ctx, "OK CATCH").unwrap();
    assert_eq!(integ_pop(&mut ctx), Some(0));
    assert_eq!(integ_pop(&mut ctx), Some(4));
    integ_line(&mut ctx, ": BAD S\" NOPE\" ;").unwrap();
    integ_line(&mut ctx, "7 BAD CATCH").unwrap();
    assert_eq!(integ_pop(&mut ctx), Some(-1));
    assert_eq!(integ_pop(&mut ctx), Some(7));
    assert_eq!(ctx.machine.take_errors(), "CATCH: Caught error: Unknown word: NOPE\n");
}

#[test]
fn test_bye_ends_line() {
    let mut ctx = integ_ctx();
    assert_eq!(integ_line(&mut ctx, "BYE 1"), Err("BYE".to_string()));
    assert!(ctx.machine.stack.is_empty());
    assert_eq!(ctx.machine.take_output(), "\nGoodbye!\n");
}

#[test]
fn test_budget_only_cuts_runs() {
    let mut small = integ_ctx();
    let mut large = integ_ctx();
    integ_line(&mut small, ": SUM 0 SWAP 0 DO I + LOOP ;").unwrap();
    integ_line(&mut large, ": SUM 0 SWAP 0 DO I + LOOP ;").unwrap();
    small.machine.steps = 1000;
    large.machine.steps = 5000;
    integ_line(&mut small, "10 SUM .").unwrap();
    integ_line(&mut large, "10 SUM .").unwrap();
    assert_eq!(small.machine.take_output(), "45 ");
    assert_eq!(large.machine.take_output(), "45 ");
    assert_eq!(large.machine.steps - small.machine.steps, 4000);
    assert!(small.machine.steps < 1000);
}

#[test]
fn test_load_file_nonexistent() {
    let mut ctx = integ_ctx();
    let config = CompilerConfig::new(false, false, false);
    let options = ExecutionOptions::new(false, false);
    let mut files = no_files();
    let result = load_file("/tmp/nonexistent_file.qtr", &mut ctx, config, options, &mut Vec::new(), &mut files);
    assert!(result.is_err());
    assert!(result.unwrap_err().contains("Cannot read file"));
}

fn files_with(list: &[(&str, &str)]) -> SourceFiles {
    let mut files = SourceFiles::new();
    for (name, text) in list {
        files.add(name, text);
    }
    files
}

fn load_with(ctx: &mut RuntimeContext, name: &str, files: &mut SourceFiles) -> Result<(), String> {
    let config = CompilerConfig::new(true, false, false);
    let options = ExecutionOptions::new(false, false);
    load_file(name, ctx, config, options, &mut Vec::new(), files)
}

fn line_with(ctx: &mut RuntimeContext, line: &str, included: &mut Vec<String>, files: &mut SourceFiles)
    -> Result<(), String>
{
    let config = CompilerConfig::new(true, false, false);
    let options = ExecutionOptions::new(false, false);
    execute_line(line, ctx, config, options, included, files)
}

#[test]
fn test_load_file_simple() {
    let mut ctx = integ_ctx();
    let mut files = files_with(&[("/tmp/quarter_test_simple.qtr", "5 3 +\n10 *\n")]);
    load_with(&mut ctx, "/tmp/quarter_test_simple.qtr", &mut files).unwrap();
    assert_eq!(integ_pop(&mut ctx), Some(80));
}

#[test]
fn test_load_file_with_comments() {
    let mut ctx = integ_ctx();
    let mut files = files_with(&[("/tmp/quarter_test_comments.qtr",
        "\\ This is a comment\n5 3 +\n\\ Another comment\n2 *\n")]);
    load_with(&mut ctx, "/tmp/quarter_test_comments.qtr", &mut files).unwrap();
    assert_eq!(integ_pop(&mut ctx), Some(16));
}

#[test]
fn test_load_file_with_definitions() {
    let mut ctx = integ_ctx();
    let mut files = files_with(&[("/tmp/quarter_test_defs.qtr", ": SQUARE DUP * ;\n: CUBE DUP SQUARE * ;\n3 CUBE\n")]);
    load_with(&mut ctx, "/tmp/quarter_test_defs.qtr", &mut files).unwrap();
    assert_eq!(integ_pop(&mut ctx), Some(27));
}

#[test]
fn test_load_file_with_empty_lines() {
    let mut ctx = integ_ctx();
    let mut files = files_with(&[("/tmp/quarter_test_empty.qtr", "\n5 3 +\n\n\n2 *\n\n")]);
    load_with(&mut ctx, "/tmp/quarter_test_empty.qtr", &mut files).unwrap();
    assert_eq!(integ_pop(&mut ctx), Some(16));
}

#[test]
fn test_load_file_with_paren_comments() {
    let mut ctx = integ_ctx();
    let mut files = files_with(&[("/tmp/quarter_test_paren.qtr", "( This is a paren comment )\n5 3 +\n")]);
    load_with(&mut ctx, "/tmp/quarter_test_paren.qtr", &mut files).unwrap();
    assert_eq!(integ_pop(&mut ctx), Some(8));
}

#[test]
fn test_include_simple() {
    let mut ctx = integ_ctx();
    let mut files = files_with(&[("/tmp/quarter_test_include_lib.qtr", ": DOUBLE DUP + ;\n10 20 +\n")]);
    let mut included = Vec::new();
    line_with(&mut ctx, "INCLUDE /tmp/quarter_test_include_lib.qtr", &mut included, &mut files).unwrap();
    assert_eq!(integ_pop(&mut ctx), Some(30));
    line_with(&mut ctx, "5 DOUBLE", &mut included, &mut files).unwrap();
    assert_eq!(integ_pop(&mut ctx), Some(10));
}

#[test]
fn test_include_nested() {
    let mut ctx = integ_ctx();
    let mut files = files_with(&[
        ("/tmp/quarter_test_include_lib1.qtr", ": WORD1 42 ;\n"),
        ("/tmp/quarter_test_include_lib2.qtr", "INCLUDE /tmp/quarter_test_include_lib1.qtr\n: WORD2 WORD1 2 * ;\n"),
    ]);
    let mut included = Vec::new();
    line_with(&mut ctx, "INCLUDE /tmp/quarter_test_include_lib2.qtr", &mut included, &mut files).unwrap();
    line_with(&mut ctx, "WORD1", &mut included, &mut files).unwrap();
    assert_eq!(integ_pop(&mut ctx), Some(42));
    line_with(&mut ctx, "WORD2", &mut included, &mut files).unwrap();
    assert_eq!(integ_pop(&mut ctx), Some(84));
}

#[test]
fn test_tail_call_loop_matches_plain_call() {
    let mut ctx = integ_ctx();
    integ_line(&mut ctx, ": SHOW DUP . DUP 0 > IF 1 - SHOW THEN ;").unwrap();
    integ_line(&mut ctx, ": SHOW2 DUP . DUP 0 > IF 1 - SHOW2 0 + THEN ;").unwrap();
    integ_line(&mut ctx, "3 SHOW").unwrap();
    assert_eq!(ctx.machine.take_output(), "3 2 1 0 ");
    assert_eq!(integ_pop(&mut ctx), Some(0));
    assert_eq!(integ_pop(&mut ctx), None);
    integ_line(&mut ctx, "3 SHOW2").unwrap();
    assert_eq!(ctx.machine.take_output(), "3 2 1 0 ");
    assert_eq!(integ_pop(&mut ctx), Some(0));
    assert_eq!(integ_pop(&mut ctx), None);
}

#[test]
fn test_frozen_word_keeps_definition() {
    let mut ctx = integ_ctx();
    integ_line(&mut ctx, ": FIVE 5 ;").unwrap();
    ctx.dict.freeze_word("five");
    integ_line(&mut ctx, ": FIVE 6 ; FIVE").unwrap();
    assert_eq!(integ_pop(&mut ctx), Some(5));
    integ_line(&mut ctx, ": SIX 6 ; SIX").unwrap();
    assert_eq!(integ_pop(&mut ctx), Some(6));
}

#[test]
fn test_line_run_asks_for_files() {
    let mut ctx = integ_ctx();
    let mut included: Vec<String> = Vec::new();
    let mut run = begin_line("INCLUDE lib.fth 2 W *", ExecutionOptions::new(false, false));
    match continue_run(&mut run, &mut ctx, &mut included) {
        Progress::NeedFile(p) => assert_eq!(p, "lib.fth"),
        Progress::Done(_) => panic!("Expected a file request"),
    }
    assert_eq!(included, vec!["lib.fth".to_string()]);
    assert!(supply_file(&mut run, &mut ctx, &included, Ok(": W 7 ;\n".to_string())).is_none());
    match continue_run(&mut run, &mut ctx, &mut included) {
        Progress::Done(r) => assert_eq!(r, Ok(())),
        Progress::NeedFile(_) => panic!("Expected the end"),
    }
    assert_eq!(integ_pop(&mut ctx), Some(14));
    let mut run2 = begin_line("INCLUDE other.fth", ExecutionOptions::new(false, false));
    match continue_run(&mut run2, &mut ctx, &mut included) {
        Progress::NeedFile(p) => assert_eq!(p, "other.fth"),
        Progress::Done(_) => panic!("Expected a file request"),
    }
    assert_eq!(supply_file(&mut run2, &mut ctx, &included, Err("gone".to_string())),
        Some(Err("Cannot read file: gone".to_string())));
}

#[test]
fn test_begin_file_and_claim() {
    let mut included: Vec<String> = Vec::new();
    assert!(claim_file("a.fth", &mut included));
    assert!(!claim_file("a.fth", &mut included));
    assert_eq!(included.len(), 1);
    assert!(begin_file(Ok("1 2 +".to_string()), ExecutionOptions::new(false, false)).is_ok());
    match begin_file(Err("missing".to_string()), ExecutionOptions::new(false, false)) {
        Err(e) => assert_eq!(e, "Cannot read file: missing"),
        Ok(_) => panic!("Expected an error"),
    }
}

#[test]
fn test_validate_finds_nested_undefined_word() {
    let mut ctx = integ_ctx();
    assert_eq!(integ_line(&mut ctx, ": T 1 IF 2 ELSE NOPE THEN ;"), Err("Undefined word: NOPE".to_string()));
    assert_eq!(integ_line(&mut ctx, ": R 1 IF R THEN ;"), Ok(()));
}

#[test]
fn test_source_files_reader() {
    let mut files = SourceFiles::new();
    files.add("a.fth", ": TWICE 2 * ;\nINCLUDE b.fth");
    files.add("b.fth", "21 TWICE");
    assert_eq!(files.find("b.fth"), Some("21 TWICE".to_string()));
    assert_eq!(files.find("c.fth"), None);
    assert_eq!(files.read_source("c.fth"), Err("No such file: c.fth".to_string()));
    let mut ctx = integ_ctx();
    let config = CompilerConfig::new(false, false, false);
    let options = ExecutionOptions::new(false, false);
    let mut included = Vec::new();
    load_file("a.fth", &mut ctx, config, options, &mut included, &mut files).unwrap();
    assert_eq!(integ_pop(&mut ctx), Some(42));
    assert_eq!(included, vec!["a.fth".to_string(), "b.fth".to_string()]);
    let missing = execute_line("INCLUDE none.fth", &mut ctx, config, options, &mut included, &mut files);
    assert_eq!(missing, Err("Cannot read file: No such file: none.fth".to_string()));
}
