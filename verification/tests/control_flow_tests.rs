use quarter::parser::parse_tokens;
use quarter::{Dictionary, Machine};

#[test]
fn test_if_compile_only_error() {
    let dict = Dictionary::new();
    let tokens = vec!["1", "IF", "2", "THEN"];
    let ast = parse_tokens(&tokens, &dict, None);
    assert!(ast.is_ok());
}

#[test]
fn test_if_then_true() {
    let mut m = Machine::new();
    let mut dict = Dictionary::new();

    let tokens = vec!["5", "3", ">", "IF", "99", "THEN"];
    let ast = parse_tokens(&tokens, &dict, None).unwrap();
    dict.add_compiled("TEST".to_string(), ast);

    dict.execute_word("TEST", &mut m).unwrap();
    assert_eq!(m.stack.pop(&mut m.memory), Some(99));
}

#[test]
fn test_if_then_false() {
    let mut m = Machine::new();
    let mut dict = Dictionary::new();

    let tokens = vec!["3", "5", ">", "IF", "99", "THEN"];
    let ast = parse_tokens(&tokens, &dict, None).unwrap();
    dict.add_compiled("TEST".to_string(), ast);

    dict.execute_word("TEST", &mut m).unwrap();
    assert_eq!(m.stack.pop(&mut m.memory), None);
}

#[test]
fn test_if_else_then_true() {
    let mut m = Machine::new();
    let mut dict = Dictionary::new();

    let tokens = vec!["5", "3", ">", "IF", "99", "ELSE", "88", "THEN"];
    let ast = parse_tokens(&tokens, &dict, None).unwrap();
    dict.add_compiled("TEST".to_string(), ast);

    dict.execute_word("TEST", &mut m).unwrap();
    assert_eq!(m.stack.pop(&mut m.memory), Some(99));
}

#[test]
fn test_if_else_then_false() {
    let mut m = Machine::new();
    let mut dict = Dictionary::new();

    let tokens = vec!["3", "5", ">", "IF", "99", "ELSE", "88", "THEN"];
    let ast = parse_tokens(&tokens, &dict, None).unwrap();
    dict.add_compiled("TEST".to_string(), ast);

    dict.execute_word("TEST", &mut m).unwrap();
    assert_eq!(m.stack.pop(&mut m.memory), Some(88));
}

#[test]
fn test_if_with_multiple_operations() {
    let mut m = Machine::new();
    let mut dict = Dictionary::new();

    let tokens = vec![
        "10", "5", ">", "IF", "2", "3", "+", "ELSE", "4", "5", "*", "THEN",
    ];
    let ast = parse_tokens(&tokens, &dict, None).unwrap();
    dict.add_compiled("TEST".to_string(), ast);

    dict.execute_word("TEST", &mut m).unwrap();
    assert_eq!(m.stack.pop(&mut m.memory), Some(5));
}

#[test]
fn test_nested_if() {
    let mut m = Machine::new();
    let mut dict = Dictionary::new();

    let tokens = vec!["1", "IF", "1", "IF", "42", "THEN", "THEN"];
    let ast = parse_tokens(&tokens, &dict, None).unwrap();
    dict.add_compiled("TEST".to_string(), ast);

    dict.execute_word("TEST", &mut m).unwrap();
    assert_eq!(m.stack.pop(&mut m.memory), Some(42));
}

#[test]
fn test_if_with_stack_operations() {
    let mut m = Machine::new();
    let mut dict = Dictionary::new();

    let tokens = vec!["DUP", "0", ">", "IF", "DUP", "+", "THEN"];
    let ast = parse_tokens(&tokens, &dict, None).unwrap();
    dict.add_compiled("DOUBLE_IF_POSITIVE".to_string(), ast);

    m.stack.push(21, &mut m.memory);
    dict.execute_word("DOUBLE_IF_POSITIVE", &mut m)
        .unwrap();
    assert_eq!(m.stack.pop(&mut m.memory), Some(42));

    m.stack.push(-5, &mut m.memory);
    dict.execute_word("DOUBLE_IF_POSITIVE", &mut m)
        .unwrap();
    assert_eq!(m.stack.pop(&mut m.memory), Some(-5));
}
