use quarter::dictionary::Word;
use quarter::lexer::{parse_i64, process_source, split_whitespace, strip_comments};
use quarter::registry::{ast_clear_registry, ast_get_if_else, ast_get_if_then, ast_get_loop_increment,
    ast_get_number, ast_get_sequence_child, ast_get_sequence_length, ast_get_string, ast_get_type,
    ast_get_word_name, ast_register_node, AstRegistry};
use quarter::text::decimal_i64;
use quarter::words::{base, depth, here, sp_fetch, Primitive};
use quarter::{AstNode, Dictionary, Machine, Memory, ReturnStack};

#[test]
fn test_memory_read_after_write() {
    let mut memory = Memory::new();
    memory.store(0x30000, -5).unwrap();
    memory.store(0x30008, 7).unwrap();
    assert_eq!(memory.fetch(0x30000), Ok(-5));
    assert_eq!(memory.fetch(0x30008), Ok(7));
    assert_eq!(memory.fetch_byte(0x30000), Ok(0xFB));
}

#[test]
fn test_memory_errors() {
    let mut memory = Memory::new();
    assert_eq!(memory.fetch(0x7FFFF9), Err("Memory fetch out of bounds: address 8388601".to_string()));
    assert_eq!(memory.store(0x800000, 1), Err("Memory store out of bounds: address 8388608".to_string()));
    assert_eq!(memory.fetch_byte(0x800000),
        Err("Memory byte fetch out of bounds: address 8388608".to_string()));
    assert_eq!(memory.store_byte(0x900000, 1),
        Err("Memory byte store out of bounds: address 9437184".to_string()));
    assert_eq!(memory.allot(0x800000), Err("Dictionary overflow".to_string()));
    assert_eq!(memory.here(), 0x20000);
}

#[test]
fn test_memory_initial_layout() {
    let mut memory = Memory::new();
    assert_eq!(memory.base(), 0x7FFFF8);
    assert_eq!(memory.fetch(0x7FFFF8), Ok(10));
    assert_eq!(memory.read_dp_from_memory(), 0x20000);
    memory.allot(16).unwrap();
    assert_eq!(memory.here(), 0x20010);
    assert_eq!(memory.read_dp_from_memory(), 0x20010);
}

#[test]
fn test_return_stack() {
    let mut memory = Memory::new();
    let mut rs = ReturnStack::new();
    assert!(rs.is_empty());
    rs.push(9, &mut memory);
    assert_eq!(rs.depth(), 1);
    assert_eq!(rs.peek(&memory), Some(9));
    assert_eq!(rs.pop(&mut memory), Some(9));
    assert_eq!(rs.pop(&mut memory), None);
    assert_eq!(rs.get_rp(), 0x10000);
}

#[test]
fn test_dictionary_define_and_lookup() {
    let mut dict = Dictionary::new();
    assert!(dict.has_word("DUP"));
    assert!(!dict.has_word("dup"));
    assert!(!dict.has_word("FOO"));
    dict.add_compiled("FOO".to_string(), AstNode::PushNumber(1));
    assert!(dict.has_word("FOO"));
    dict.add_compiled("FOO".to_string(), AstNode::PushNumber(2));
    match dict.get_word("FOO") {
        Some(Word::Compiled(AstNode::PushNumber(v))) => assert_eq!(*v, 2),
        _ => panic!("Expected the new definition"),
    }
    assert_eq!(dict.get_last_defined_word(), Some(&"FOO".to_string()));
    let count = dict.get_all_words().len();
    dict.add_compiled("FOO".to_string(), AstNode::PushNumber(3));
    assert_eq!(dict.get_all_words().len(), count);
    match dict.get_word("DUP") {
        Some(Word::Primitive(p)) => assert_eq!(*p, Primitive::Dup),
        _ => panic!("Expected a primitive"),
    }
}

#[test]
fn test_dictionary_flags() {
    let mut dict = Dictionary::new();
    dict.freeze_word("square");
    assert!(dict.is_frozen("SQUARE"));
    assert!(dict.is_frozen("Square"));
    assert!(!dict.is_frozen("CUBE"));
    dict.add_compiled("CUBE".to_string(), AstNode::Exit);
    dict.mark_immediate();
    assert!(dict.is_immediate("cube"));
    assert!(!dict.is_immediate("SQUARE"));
}

#[test]
fn test_validate() {
    let dict = Dictionary::new();
    let ok = AstNode::Sequence(vec![AstNode::CallWord("DUP".to_string()), AstNode::CallWord("SELF".to_string())]);
    assert_eq!(ok.validate(&dict), Err("Undefined word: SELF".to_string()));
    assert_eq!(ok.validate_with_name(&dict, Some("self")), Ok(()));
    let tick = AstNode::TickLiteral("NOPE".to_string());
    assert_eq!(tick.validate(&dict), Err("Undefined word in [']:  NOPE".to_string()));
}

#[test]
fn test_machine_words() {
    let mut m = Machine::new();
    here(&mut m).unwrap();
    base(&mut m).unwrap();
    depth(&mut m).unwrap();
    sp_fetch(&mut m).unwrap();
    assert_eq!(m.pop_value(), Ok(Some(24)));
    assert_eq!(m.pop_value(), Ok(Some(2)));
    assert_eq!(m.pop_value(), Ok(Some(0x7FFFF8)));
    assert_eq!(m.pop_value(), Ok(Some(0x20000)));
    assert_eq!(m.pop_value(), Ok(None));
}

#[test]
fn test_tokenizer_and_numbers() {
    let toks = split_whitespace("  a\tbc \n d\u{3000}e ");
    assert_eq!(toks, vec!["a".to_string(), "bc".to_string(), "d".to_string(), "e".to_string()]);
    assert_eq!(parse_i64("123"), Some(123));
    assert_eq!(parse_i64("-0"), Some(0));
    assert_eq!(parse_i64("+"), None);
    assert_eq!(parse_i64("12a"), None);
    assert_eq!(parse_i64("9223372036854775807"), Some(i64::MAX));
    assert_eq!(parse_i64("9223372036854775808"), None);
    assert_eq!(parse_i64("-9223372036854775809"), None);
    let text: String = decimal_i64(-1234567).into_iter().collect();
    assert_eq!(parse_i64(&text), Some(-1234567));
}

#[test]
fn test_source_processing() {
    assert_eq!(process_source("  1 2 + \\ sum\n( note ) 3\n"), "1 2 +   3 ");
    assert_eq!(process_source(""), "");
    assert_eq!(process_source("a\r\nb"), "a b ");
    assert_eq!(strip_comments(&process_source("x ( y\nz ) w")), "x  z  w ");
}

#[test]
fn test_registry_queries() {
    let mut reg = AstRegistry::new();
    let mut memory = Memory::new();
    let seq = AstNode::Sequence(vec![
        AstNode::PushNumber(5),
        AstNode::CallWord("DUP".to_string()),
        AstNode::IfThenElse { then_branch: vec![AstNode::PrintString("hi".to_string())], else_branch: None },
    ]);
    let h = ast_register_node(&mut reg, seq);
    assert_eq!(h, 1);
    assert_eq!(ast_get_type(&reg, h), Ok(3));
    assert_eq!(ast_get_sequence_length(&reg, h), Ok(3));
    let c0 = ast_get_sequence_child(&mut reg, h, 0).unwrap();
    assert_eq!(ast_get_number(&reg, c0), Ok(5));
    let c1 = ast_get_sequence_child(&mut reg, h, 1).unwrap();
    assert_eq!(ast_get_word_name(&reg, c1, &mut memory, 0x30000), Ok(3));
    assert_eq!(memory.fetch_byte(0x30000), Ok('D' as i64));
    let c2 = ast_get_sequence_child(&mut reg, h, 2).unwrap();
    assert_eq!(ast_get_if_else(&mut reg, c2), Ok(0));
    let then_h = ast_get_if_then(&mut reg, c2).unwrap();
    let p = ast_get_sequence_child(&mut reg, then_h, 0).unwrap();
    assert_eq!(ast_get_string(&reg, p, &mut memory, 0x30010), Ok(2));
    assert_eq!(ast_get_sequence_child(&mut reg, h, 3), Err("Sequence index out of bounds: 3".to_string()));
    assert_eq!(ast_get_number(&reg, h), Err("AST node is not a PushNumber".to_string()));
    assert_eq!(ast_get_loop_increment(&reg, 99), Err("Invalid AST handle: 99".to_string()));
    ast_clear_registry(&mut reg);
    assert_eq!(ast_get_type(&reg, 1), Err("Invalid AST handle: 1".to_string()));
}

#[test]
fn test_defaults_match_new() {
    let dict = Dictionary::default();
    assert!(dict.has_word("DUP"));
    assert!(dict.has_word("AST-TYPE"));
    let memory = Memory::default();
    assert_eq!(memory.here(), 0x20000);
    assert_eq!(memory.fetch(0x7FFFF8), Ok(10));
    assert!(ReturnStack::default().is_empty());
    assert_eq!(quarter::LoopStack::default().len(), 0);
}

#[test]
fn test_here_copy_follows_here() {
    let mut memory = Memory::new();
    assert_eq!(memory.read_dp_from_memory() as i64, memory.here());
    memory.allot(24).unwrap();
    memory.store(0x30000, 77).unwrap();
    memory.store_byte(0x20000, 5).unwrap();
    assert_eq!(memory.read_dp_from_memory() as i64, memory.here());
    assert_eq!(memory.here(), 0x20018);
}


#[test]
fn test_decode_utf8_valid_and_invalid() {
    assert_eq!(quarter::text::decode_utf8(vec![0x48, 0xC3, 0xA9]), Ok("Hé".to_string()));
    assert_eq!(quarter::text::decode_utf8(vec![0xE2, 0x82, 0xAC]), Ok("€".to_string()));
    let bad = quarter::text::decode_utf8(vec![0x41, 0xFF]);
    assert!(bad.is_err());
    assert!(bad.unwrap_err().contains("utf-8"));
}
