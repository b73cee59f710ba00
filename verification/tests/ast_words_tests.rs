use quarter::ast_words::{ast_get_number_word, test_ast_create_word, ast_get_string_word, ast_get_type_word, ast_get_word_word,
    ast_if_else_word, ast_if_then_word, ast_loop_body_word, ast_loop_condition_word, ast_loop_increment_word,
    ast_seq_child_word, ast_seq_length_word};
use quarter::registry::ast_register_node;
use quarter::session::{execute_line, CompilerConfig, ExecutionOptions, RuntimeContext, SourceFiles};
use quarter::{AstNode, Dictionary, LoopStack, Machine, Memory, ReturnStack, Stack};

fn pop(m: &mut Machine) -> Option<i64> {
    m.pop_value().unwrap()
}

#[test]
fn test_ast_type_and_number_words() {
    let mut m = Machine::new();
    let h = ast_register_node(&mut m.asts, AstNode::PushNumber(-17));
    m.push_value(h).unwrap();
    ast_get_type_word(&mut m).unwrap();
    assert_eq!(pop(&mut m), Some(1));
    m.push_value(h).unwrap();
    ast_get_number_word(&mut m).unwrap();
    assert_eq!(pop(&mut m), Some(-17));
    assert_eq!(m.take_errors(), "");
}

#[test]
fn test_ast_word_errors_go_to_stderr() {
    let mut m = Machine::new();
    ast_get_type_word(&mut m).unwrap();
    assert_eq!(m.take_errors(), "AST-TYPE: Stack underflow\n");
    m.push_value(5).unwrap();
    ast_get_type_word(&mut m).unwrap();
    assert_eq!(m.take_errors(), "AST-TYPE error: Invalid AST handle: 5\n");
    assert_eq!(pop(&mut m), None);
}

#[test]
fn test_ast_wrong_kind_error() {
    let mut m = Machine::new();
    let h = ast_register_node(&mut m.asts, AstNode::CallWord("DUP".to_string()));
    m.push_value(h).unwrap();
    ast_get_number_word(&mut m).unwrap();
    assert_eq!(m.take_errors(), "AST-GET-NUMBER error: AST node is not a PushNumber\n");
    assert_eq!(pop(&mut m), None);
}

#[test]
fn test_ast_sequence_words() {
    let mut m = Machine::new();
    let seq = AstNode::Sequence(vec![AstNode::PushNumber(3), AstNode::CallWord("DUP".to_string())]);
    let h = ast_register_node(&mut m.asts, seq);
    m.push_value(h).unwrap();
    ast_seq_length_word(&mut m).unwrap();
    assert_eq!(pop(&mut m), Some(2));
    m.push_value(h).unwrap();
    m.push_value(1).unwrap();
    ast_seq_child_word(&mut m).unwrap();
    let child = pop(&mut m).unwrap();
    assert_eq!(child, 2);
    m.push_value(child).unwrap();
    ast_get_type_word(&mut m).unwrap();
    assert_eq!(pop(&mut m), Some(2));
    m.push_value(h).unwrap();
    m.push_value(7).unwrap();
    ast_seq_child_word(&mut m).unwrap();
    assert_eq!(m.take_errors(), "AST-SEQ-CHILD error: Sequence index out of bounds: 7\n");
    assert_eq!(pop(&mut m), None);
}

#[test]
fn test_ast_seq_child_short_stack_consumes_one() {
    let mut m = Machine::new();
    m.push_value(1).unwrap();
    m.push_value(2).unwrap();
    m.push_value(3).unwrap();
    ast_seq_child_word(&mut m).unwrap();
    assert_eq!(m.take_errors(), "AST-SEQ-CHILD error: Invalid AST handle: 2\n");
    assert_eq!(pop(&mut m), Some(1));
    m.push_value(9).unwrap();
    ast_seq_child_word(&mut m).unwrap();
    assert_eq!(m.take_errors(), "AST-SEQ-CHILD: Stack underflow\n");
    assert_eq!(pop(&mut m), None);
}

#[test]
fn test_ast_if_words() {
    let mut m = Machine::new();
    let node = AstNode::IfThenElse {
        then_branch: vec![AstNode::PushNumber(1)],
        else_branch: None,
    };
    let h = ast_register_node(&mut m.asts, node);
    m.push_value(h).unwrap();
    ast_if_then_word(&mut m).unwrap();
    let t = pop(&mut m).unwrap();
    assert_eq!(t, 2);
    m.push_value(t).unwrap();
    ast_seq_length_word(&mut m).unwrap();
    assert_eq!(pop(&mut m), Some(1));
    m.push_value(h).unwrap();
    ast_if_else_word(&mut m).unwrap();
    assert_eq!(pop(&mut m), Some(0));
    assert_eq!(m.asts.len(), 2);
}

#[test]
fn test_ast_loop_words() {
    let mut m = Machine::new();
    let do_loop = AstNode::DoLoop { body: vec![AstNode::CallWord("I".to_string())], increment: 1, conditional: false };
    let h = ast_register_node(&mut m.asts, do_loop);
    let until = ast_register_node(&mut m.asts, AstNode::BeginWhileRepeat {
        condition: vec![AstNode::PushNumber(0)],
        body: vec![],
    });
    m.push_value(h).unwrap();
    ast_loop_increment_word(&mut m).unwrap();
    assert_eq!(pop(&mut m), Some(1));
    m.push_value(h).unwrap();
    ast_loop_body_word(&mut m).unwrap();
    assert_eq!(pop(&mut m), Some(3));
    m.push_value(until).unwrap();
    ast_loop_condition_word(&mut m).unwrap();
    assert_eq!(pop(&mut m), Some(4));
    m.push_value(h).unwrap();
    ast_loop_condition_word(&mut m).unwrap();
    assert_eq!(m.take_errors(), "AST-LOOP-CONDITION error: AST node is not a BeginWhileRepeat\n");
}

#[test]
fn test_ast_text_words() {
    let mut m = Machine::new();
    let w = ast_register_node(&mut m.asts, AstNode::CallWord("SQUARE".to_string()));
    let s = ast_register_node(&mut m.asts, AstNode::PrintString("hi".to_string()));
    m.push_value(w).unwrap();
    m.push_value(0x30000).unwrap();
    ast_get_word_word(&mut m).unwrap();
    assert_eq!(pop(&mut m), Some(6));
    assert_eq!(m.memory.fetch_byte(0x30000), Ok(b'S' as i64));
    assert_eq!(m.memory.fetch_byte(0x30005), Ok(b'E' as i64));
    m.push_value(s).unwrap();
    m.push_value(0x30100).unwrap();
    ast_get_string_word(&mut m).unwrap();
    assert_eq!(pop(&mut m), Some(2));
    assert_eq!(m.memory.fetch_byte(0x30101), Ok(b'i' as i64));
    m.push_value(s).unwrap();
    m.push_value(0x30100).unwrap();
    ast_get_word_word(&mut m).unwrap();
    assert_eq!(m.take_errors(), "AST-GET-WORD error: AST node is not a CallWord\n");
}

#[test]
fn test_ast_words_from_forth() {
    let mut ctx = RuntimeContext::new(Stack::new(), Dictionary::new(), LoopStack::new(), ReturnStack::new(),
        Memory::new());
    let line = "TEST-AST-CREATE DUP AST-TYPE SWAP AST-GET-NUMBER";
    execute_line(line, &mut ctx, CompilerConfig::new(false, false, false), ExecutionOptions::new(false, false),
        &mut Vec::new(), &mut SourceFiles::new()).unwrap();
    assert_eq!(ctx.machine.stack.pop(&mut ctx.machine.memory), Some(42));
    assert_eq!(ctx.machine.stack.pop(&mut ctx.machine.memory), Some(1));
    assert_eq!(ctx.machine.asts.len(), 1);
}

#[test]
fn test_test_ast_create_handles() {
    let mut m = Machine::new();
    test_ast_create_word(&mut m).unwrap();
    test_ast_create_word(&mut m).unwrap();
    assert_eq!(pop(&mut m), Some(2));
    assert_eq!(pop(&mut m), Some(1));
}
