use quarter::parser::parse_tokens;
use quarter::{Dictionary, Machine};

#[test]
fn test_dot_word() {
    let mut m = Machine::new();
    let dict = Dictionary::new();

    m.stack.push(42, &mut m.memory);
    assert!(
        dict.execute_word(".", &mut m)
        .is_ok()
    );
    assert!(m.stack.is_empty());
}

#[test]
fn test_dot_s_word() {
    let mut m = Machine::new();
    let dict = Dictionary::new();

    m.stack.push(10, &mut m.memory);
    m.stack.push(20, &mut m.memory);
    m.stack.push(30, &mut m.memory);

    assert!(
        dict.execute_word(".S", &mut m)
        .is_ok()
    );
    assert_eq!(m.stack.pop(&mut m.memory), Some(30));
    assert_eq!(m.stack.pop(&mut m.memory), Some(20));
    assert_eq!(m.stack.pop(&mut m.memory), Some(10));
}

#[test]
fn test_unknown_word() {
    let mut m = Machine::new();
    let dict = Dictionary::new();

    assert!(
        dict.execute_word("UNKNOWN", &mut m)
        .is_err()
    );
}

#[test]
fn test_do_loop_basic() {
    let mut m = Machine::new();
    let dict = Dictionary::new();

    let tokens = vec!["5", "0", "DO", "I", "LOOP"];
    let ast = parse_tokens(&tokens, &dict, None).unwrap();

    ast.execute(&dict, &mut m)
    .unwrap();

    assert_eq!(m.stack.pop(&mut m.memory), Some(4));
    assert_eq!(m.stack.pop(&mut m.memory), Some(3));
    assert_eq!(m.stack.pop(&mut m.memory), Some(2));
    assert_eq!(m.stack.pop(&mut m.memory), Some(1));
    assert_eq!(m.stack.pop(&mut m.memory), Some(0));
}

#[test]
fn test_begin_while_repeat() {
    let mut m = Machine::new();
    let dict = Dictionary::new();

    let tokens = vec![
        "5", "BEGIN", "DUP", "WHILE", "DUP", "1", "-", "REPEAT", "DROP",
    ];
    let ast = parse_tokens(&tokens, &dict, None).unwrap();

    ast.execute(&dict, &mut m)
    .unwrap();

    assert_eq!(m.stack.pop(&mut m.memory), Some(1));
    assert_eq!(m.stack.pop(&mut m.memory), Some(2));
    assert_eq!(m.stack.pop(&mut m.memory), Some(3));
    assert_eq!(m.stack.pop(&mut m.memory), Some(4));
    assert_eq!(m.stack.pop(&mut m.memory), Some(5));
}

#[test]
fn test_loop_i_word() {
    let mut m = Machine::new();
    let dict = Dictionary::new();

    m.loop_stack.push_loop(5, 10);

    dict.execute_word("I", &mut m)
    .unwrap();

    assert_eq!(m.stack.pop(&mut m.memory), Some(5));

    m.loop_stack.pop_loop();
}

#[test]
fn test_print_string() {
    let mut m = Machine::new();
    let dict = Dictionary::new();

    let tokens = vec![".\"", "Hello", "World\""];
    let ast = parse_tokens(&tokens, &dict, None).unwrap();

    ast.execute(&dict, &mut m)
    .unwrap();

    assert!(m.stack.is_empty());
}

#[test]
fn test_print_string_in_loop() {
    let mut m = Machine::new();
    let dict = Dictionary::new();

    let tokens = vec!["3", "0", "DO", ".\"", "Hi", "\"", "LOOP"];
    let ast = parse_tokens(&tokens, &dict, None).unwrap();

    ast.execute(&dict, &mut m)
    .unwrap();

    assert!(m.stack.is_empty());
}

#[test]
fn test_plus_loop_increment_by_two() {
    let mut m = Machine::new();
    let dict = Dictionary::new();

    let tokens = vec!["10", "0", "DO", "I", "2", "+LOOP"];
    let ast = parse_tokens(&tokens, &dict, None).unwrap();

    ast.execute(&dict, &mut m)
    .unwrap();

    assert_eq!(m.stack.pop(&mut m.memory), Some(8));
    assert_eq!(m.stack.pop(&mut m.memory), Some(6));
    assert_eq!(m.stack.pop(&mut m.memory), Some(4));
    assert_eq!(m.stack.pop(&mut m.memory), Some(2));
    assert_eq!(m.stack.pop(&mut m.memory), Some(0));
}

#[test]
fn test_plus_loop_variable_increment() {
    let mut m = Machine::new();
    let dict = Dictionary::new();

    let tokens = vec!["15", "0", "DO", "I", "3", "+LOOP"];
    let ast = parse_tokens(&tokens, &dict, None).unwrap();

    ast.execute(&dict, &mut m)
    .unwrap();

    assert_eq!(m.stack.pop(&mut m.memory), Some(12));
    assert_eq!(m.stack.pop(&mut m.memory), Some(9));
    assert_eq!(m.stack.pop(&mut m.memory), Some(6));
    assert_eq!(m.stack.pop(&mut m.memory), Some(3));
    assert_eq!(m.stack.pop(&mut m.memory), Some(0));
}

#[test]
fn test_loop_j_word() {
    let mut m = Machine::new();
    let dict = Dictionary::new();

    m.loop_stack.push_loop(5, 10);
    m.loop_stack.push_loop(2, 8);

    dict.execute_word("J", &mut m)
    .unwrap();

    assert_eq!(m.stack.pop(&mut m.memory), Some(5));

    m.loop_stack.pop_loop();
    m.loop_stack.pop_loop();
}

#[test]
fn test_nested_loops_with_j() {
    let mut m = Machine::new();
    let dict = Dictionary::new();

    let tokens = vec![
        "3", "0", "DO", "2", "0", "DO", "J", "I", "+", "LOOP", "LOOP",
    ];
    let ast = parse_tokens(&tokens, &dict, None).unwrap();

    ast.execute(&dict, &mut m)
    .unwrap();

    assert_eq!(m.stack.pop(&mut m.memory), Some(3));
    assert_eq!(m.stack.pop(&mut m.memory), Some(2));
    assert_eq!(m.stack.pop(&mut m.memory), Some(2));
    assert_eq!(m.stack.pop(&mut m.memory), Some(1));
    assert_eq!(m.stack.pop(&mut m.memory), Some(1));
    assert_eq!(m.stack.pop(&mut m.memory), Some(0));
}

#[test]
fn test_leave_in_plus_loop() {
    let mut m = Machine::new();
    let dict = Dictionary::new();

    let tokens = vec![
        "20", "0", "DO", "I", "DUP", "7", ">", "IF", "LEAVE", "THEN", "2", "+LOOP",
    ];
    let ast = parse_tokens(&tokens, &dict, None).unwrap();

    ast.execute(&dict, &mut m)
    .unwrap();

    assert_eq!(m.stack.pop(&mut m.memory), Some(8));
    assert_eq!(m.stack.pop(&mut m.memory), Some(6));
    assert_eq!(m.stack.pop(&mut m.memory), Some(4));
    assert_eq!(m.stack.pop(&mut m.memory), Some(2));
    assert_eq!(m.stack.pop(&mut m.memory), Some(0));
}

#[test]
fn test_emit_word() {
    let mut m = Machine::new();
    let dict = Dictionary::new();

    m.stack.push(65, &mut m.memory);
    assert!(
        dict.execute_word("EMIT", &mut m)
        .is_ok()
    );

    assert!(m.stack.is_empty());
}

#[test]
fn test_emit_unicode() {
    let mut m = Machine::new();
    let dict = Dictionary::new();

    m.stack.push(128515, &mut m.memory);
    assert!(
        dict.execute_word("EMIT", &mut m)
        .is_ok()
    );

    assert!(m.stack.is_empty());
}

#[test]
fn test_emit_multiple_chars() {
    let mut m = Machine::new();
    let dict = Dictionary::new();

    m.stack.push(72, &mut m.memory);
    m.stack.push(105, &mut m.memory);
    m.stack.push(33, &mut m.memory);

    assert!(
        dict.execute_word("EMIT", &mut m)
        .is_ok()
    );
    assert!(
        dict.execute_word("EMIT", &mut m)
        .is_ok()
    );
    assert!(
        dict.execute_word("EMIT", &mut m)
        .is_ok()
    );

    assert!(m.stack.is_empty());
}

#[test]
fn test_and_boolean_logic() {
    let mut m = Machine::new();
    let dict = Dictionary::new();

    m.stack.push(-1, &mut m.memory);
    m.stack.push(-1, &mut m.memory);
    dict.execute_word("AND", &mut m)
    .unwrap();
    assert_eq!(m.stack.pop(&mut m.memory), Some(-1));

    m.stack.push(-1, &mut m.memory);
    m.stack.push(0, &mut m.memory);
    dict.execute_word("AND", &mut m)
    .unwrap();
    assert_eq!(m.stack.pop(&mut m.memory), Some(0));
}

#[test]
fn test_or_boolean_logic() {
    let mut m = Machine::new();
    let dict = Dictionary::new();

    m.stack.push(-1, &mut m.memory);
    m.stack.push(0, &mut m.memory);
    dict.execute_word("OR", &mut m)
    .unwrap();
    assert_eq!(m.stack.pop(&mut m.memory), Some(-1));

    m.stack.push(0, &mut m.memory);
    m.stack.push(0, &mut m.memory);
    dict.execute_word("OR", &mut m)
    .unwrap();
    assert_eq!(m.stack.pop(&mut m.memory), Some(0));
}

#[test]
fn test_and_with_negative() {
    let mut m = Machine::new();
    let dict = Dictionary::new();

    m.stack.push(-1, &mut m.memory);
    m.stack.push(15, &mut m.memory);
    dict.execute_word("AND", &mut m)
    .unwrap();
    assert_eq!(m.stack.pop(&mut m.memory), Some(15));
}

#[test]
fn test_rshift_with_negative() {
    let mut m = Machine::new();
    let dict = Dictionary::new();

    m.stack.push(-8, &mut m.memory);
    m.stack.push(1, &mut m.memory);
    dict.execute_word("RSHIFT", &mut m)
    .unwrap();

    assert_eq!(m.stack.pop(&mut m.memory), Some(-4));
}

#[test]
fn test_to_r_word() {
    let mut m = Machine::new();
    let dict = Dictionary::new();

    m.stack.push(42, &mut m.memory);
    dict.execute_word(">R", &mut m)
    .unwrap();

    assert!(m.stack.is_empty());
    assert_eq!(m.return_stack.peek(&m.memory), Some(42));
}

#[test]
fn test_r_from_word() {
    let mut m = Machine::new();
    let dict = Dictionary::new();

    m.return_stack.push(99, &mut m.memory);

    dict.execute_word("R>", &mut m)
    .unwrap();

    assert_eq!(m.stack.pop(&mut m.memory), Some(99));
    assert!(m.return_stack.is_empty());
}

#[test]
fn test_r_fetch_word() {
    let mut m = Machine::new();
    let dict = Dictionary::new();

    m.return_stack.push(77, &mut m.memory);

    dict.execute_word("R@", &mut m)
    .unwrap();

    assert_eq!(m.stack.pop(&mut m.memory), Some(77));
    assert_eq!(m.return_stack.peek(&m.memory), Some(77));
}

#[test]
fn test_return_stack_sequence() {
    let mut m = Machine::new();
    let dict = Dictionary::new();

    m.stack.push(10, &mut m.memory);
    m.stack.push(20, &mut m.memory);
    m.stack.push(30, &mut m.memory);

    dict.execute_word(">R", &mut m)
    .unwrap();
    dict.execute_word(">R", &mut m)
    .unwrap();

    m.stack.push(5, &mut m.memory);
    dict.execute_word("+", &mut m)
    .unwrap();

    dict.execute_word("R>", &mut m)
    .unwrap();
    dict.execute_word("R>", &mut m)
    .unwrap();

    assert_eq!(m.stack.pop(&mut m.memory), Some(30));
    assert_eq!(m.stack.pop(&mut m.memory), Some(20));
    assert_eq!(m.stack.pop(&mut m.memory), Some(15));
}

#[test]
fn test_exit_simple() {
    let mut m = Machine::new();
    let mut dict = Dictionary::new();

    let tokens = vec!["42", "EXIT", "99"];
    let ast = parse_tokens(&tokens, &dict, None).unwrap();
    dict.add_compiled("TEST-EXIT".to_string(), ast);

    dict.execute_word("TEST-EXIT", &mut m)
    .unwrap();
    assert_eq!(m.stack.pop(&mut m.memory), Some(42));
    assert!(m.stack.is_empty());
}

#[test]
fn test_exit_in_if() {
    let mut m = Machine::new();
    let mut dict = Dictionary::new();

    let tokens = vec!["1", "IF", "42", "EXIT", "THEN", "99"];
    let ast = parse_tokens(&tokens, &dict, None).unwrap();
    dict.add_compiled("TEST-EXIT-IF".to_string(), ast);

    dict.execute_word("TEST-EXIT-IF", &mut m)
    .unwrap();
    assert_eq!(m.stack.pop(&mut m.memory), Some(42));
    assert!(m.stack.is_empty());
}

#[test]
fn test_pick() {
    let mut m = Machine::new();
    let dict = Dictionary::new();

    m.stack.push(1, &mut m.memory);
    m.stack.push(2, &mut m.memory);
    m.stack.push(3, &mut m.memory);
    m.stack.push(0, &mut m.memory);
    dict.execute_word("PICK", &mut m)
        .unwrap();
    assert_eq!(m.stack.pop(&mut m.memory), Some(3));
    assert_eq!(m.stack.pop(&mut m.memory), Some(3));
    assert_eq!(m.stack.pop(&mut m.memory), Some(2));
    assert_eq!(m.stack.pop(&mut m.memory), Some(1));

    m.stack.push(1, &mut m.memory);
    m.stack.push(2, &mut m.memory);
    m.stack.push(3, &mut m.memory);
    m.stack.push(1, &mut m.memory);
    dict.execute_word("PICK", &mut m)
        .unwrap();
    assert_eq!(m.stack.pop(&mut m.memory), Some(2));
    assert_eq!(m.stack.pop(&mut m.memory), Some(3));
    assert_eq!(m.stack.pop(&mut m.memory), Some(2));
    assert_eq!(m.stack.pop(&mut m.memory), Some(1));

    m.stack.push(1, &mut m.memory);
    m.stack.push(2, &mut m.memory);
    m.stack.push(3, &mut m.memory);
    m.stack.push(2, &mut m.memory);
    dict.execute_word("PICK", &mut m)
        .unwrap();
    assert_eq!(m.stack.pop(&mut m.memory), Some(1));
    assert_eq!(m.stack.pop(&mut m.memory), Some(3));
    assert_eq!(m.stack.pop(&mut m.memory), Some(2));
    assert_eq!(m.stack.pop(&mut m.memory), Some(1));
}

#[test]
fn test_depth() {
    let mut m = Machine::new();
    let dict = Dictionary::new();

    dict.execute_word("DEPTH", &mut m)
        .unwrap();
    assert_eq!(m.stack.pop(&mut m.memory), Some(0));

    m.stack.push(1, &mut m.memory);
    dict.execute_word("DEPTH", &mut m)
        .unwrap();
    assert_eq!(m.stack.pop(&mut m.memory), Some(1));
    assert_eq!(m.stack.pop(&mut m.memory), Some(1));

    m.stack.push(1, &mut m.memory);
    m.stack.push(2, &mut m.memory);
    m.stack.push(3, &mut m.memory);
    dict.execute_word("DEPTH", &mut m)
        .unwrap();
    assert_eq!(m.stack.pop(&mut m.memory), Some(3));
    assert_eq!(m.stack.pop(&mut m.memory), Some(3));
    assert_eq!(m.stack.pop(&mut m.memory), Some(2));
    assert_eq!(m.stack.pop(&mut m.memory), Some(1));
}

#[test]
fn test_cr() {
    let mut m = Machine::new();
    let dict = Dictionary::new();

    assert!(
        dict.execute_word("CR", &mut m)
            .is_ok()
    );
    assert!(m.stack.is_empty());

    m.stack.push(42, &mut m.memory);
    assert!(
        dict.execute_word("CR", &mut m)
            .is_ok()
    );
    assert_eq!(m.stack.pop(&mut m.memory), Some(42));
}
