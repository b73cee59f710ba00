use quarter::{Dictionary, Machine};

#[test]
fn test_less_than() {
    let mut m = Machine::new();
    let dict = Dictionary::new();

    m.stack.push(3, &mut m.memory);
    m.stack.push(5, &mut m.memory);
    dict.execute_word("<", &mut m)
        .unwrap();
    assert_eq!(m.stack.pop(&mut m.memory), Some(-1));

    m.stack.push(5, &mut m.memory);
    m.stack.push(3, &mut m.memory);
    dict.execute_word("<", &mut m)
        .unwrap();
    assert_eq!(m.stack.pop(&mut m.memory), Some(0));

    m.stack.push(3, &mut m.memory);
    m.stack.push(3, &mut m.memory);
    dict.execute_word("<", &mut m)
        .unwrap();
    assert_eq!(m.stack.pop(&mut m.memory), Some(0));

    m.stack.push(-5, &mut m.memory);
    m.stack.push(-3, &mut m.memory);
    dict.execute_word("<", &mut m)
        .unwrap();
    assert_eq!(m.stack.pop(&mut m.memory), Some(-1));

    m.stack.push(-3, &mut m.memory);
    m.stack.push(5, &mut m.memory);
    dict.execute_word("<", &mut m)
        .unwrap();
    assert_eq!(m.stack.pop(&mut m.memory), Some(-1));
}

#[test]
fn test_greater_than() {
    let mut m = Machine::new();
    let dict = Dictionary::new();

    m.stack.push(5, &mut m.memory);
    m.stack.push(3, &mut m.memory);
    dict.execute_word(">", &mut m)
        .unwrap();
    assert_eq!(m.stack.pop(&mut m.memory), Some(-1));

    m.stack.push(3, &mut m.memory);
    m.stack.push(5, &mut m.memory);
    dict.execute_word(">", &mut m)
        .unwrap();
    assert_eq!(m.stack.pop(&mut m.memory), Some(0));

    m.stack.push(3, &mut m.memory);
    m.stack.push(3, &mut m.memory);
    dict.execute_word(">", &mut m)
        .unwrap();
    assert_eq!(m.stack.pop(&mut m.memory), Some(0));

    m.stack.push(-3, &mut m.memory);
    m.stack.push(-5, &mut m.memory);
    dict.execute_word(">", &mut m)
        .unwrap();
    assert_eq!(m.stack.pop(&mut m.memory), Some(-1));

    m.stack.push(5, &mut m.memory);
    m.stack.push(-3, &mut m.memory);
    dict.execute_word(">", &mut m)
        .unwrap();
    assert_eq!(m.stack.pop(&mut m.memory), Some(-1));
}

#[test]
fn test_equal() {
    let mut m = Machine::new();
    let dict = Dictionary::new();

    m.stack.push(5, &mut m.memory);
    m.stack.push(5, &mut m.memory);
    dict.execute_word("=", &mut m)
        .unwrap();
    assert_eq!(m.stack.pop(&mut m.memory), Some(-1));

    m.stack.push(5, &mut m.memory);
    m.stack.push(3, &mut m.memory);
    dict.execute_word("=", &mut m)
        .unwrap();
    assert_eq!(m.stack.pop(&mut m.memory), Some(0));

    m.stack.push(0, &mut m.memory);
    m.stack.push(0, &mut m.memory);
    dict.execute_word("=", &mut m)
        .unwrap();
    assert_eq!(m.stack.pop(&mut m.memory), Some(-1));

    m.stack.push(-3, &mut m.memory);
    m.stack.push(-3, &mut m.memory);
    dict.execute_word("=", &mut m)
        .unwrap();
    assert_eq!(m.stack.pop(&mut m.memory), Some(-1));

    m.stack.push(-3, &mut m.memory);
    m.stack.push(3, &mut m.memory);
    dict.execute_word("=", &mut m)
        .unwrap();
    assert_eq!(m.stack.pop(&mut m.memory), Some(0));
}

#[test]
fn test_not_equal() {
    let mut m = Machine::new();
    let dict = Dictionary::new();

    m.stack.push(5, &mut m.memory);
    m.stack.push(3, &mut m.memory);
    dict.execute_word("<>", &mut m)
        .unwrap();
    assert_eq!(m.stack.pop(&mut m.memory), Some(-1));

    m.stack.push(5, &mut m.memory);
    m.stack.push(5, &mut m.memory);
    dict.execute_word("<>", &mut m)
        .unwrap();
    assert_eq!(m.stack.pop(&mut m.memory), Some(0));

    m.stack.push(0, &mut m.memory);
    m.stack.push(0, &mut m.memory);
    dict.execute_word("<>", &mut m)
        .unwrap();
    assert_eq!(m.stack.pop(&mut m.memory), Some(0));

    m.stack.push(-3, &mut m.memory);
    m.stack.push(3, &mut m.memory);
    dict.execute_word("<>", &mut m)
        .unwrap();
    assert_eq!(m.stack.pop(&mut m.memory), Some(-1));
}

#[test]
fn test_less_equal() {
    let mut m = Machine::new();
    let dict = Dictionary::new();

    m.stack.push(3, &mut m.memory);
    m.stack.push(5, &mut m.memory);
    dict.execute_word("<=", &mut m)
        .unwrap();
    assert_eq!(m.stack.pop(&mut m.memory), Some(-1));

    m.stack.push(5, &mut m.memory);
    m.stack.push(5, &mut m.memory);
    dict.execute_word("<=", &mut m)
        .unwrap();
    assert_eq!(m.stack.pop(&mut m.memory), Some(-1));

    m.stack.push(5, &mut m.memory);
    m.stack.push(3, &mut m.memory);
    dict.execute_word("<=", &mut m)
        .unwrap();
    assert_eq!(m.stack.pop(&mut m.memory), Some(0));

    m.stack.push(-5, &mut m.memory);
    m.stack.push(-3, &mut m.memory);
    dict.execute_word("<=", &mut m)
        .unwrap();
    assert_eq!(m.stack.pop(&mut m.memory), Some(-1));

    m.stack.push(0, &mut m.memory);
    m.stack.push(0, &mut m.memory);
    dict.execute_word("<=", &mut m)
        .unwrap();
    assert_eq!(m.stack.pop(&mut m.memory), Some(-1));
}

#[test]
fn test_greater_equal() {
    let mut m = Machine::new();
    let dict = Dictionary::new();

    m.stack.push(5, &mut m.memory);
    m.stack.push(3, &mut m.memory);
    dict.execute_word(">=", &mut m)
        .unwrap();
    assert_eq!(m.stack.pop(&mut m.memory), Some(-1));

    m.stack.push(5, &mut m.memory);
    m.stack.push(5, &mut m.memory);
    dict.execute_word(">=", &mut m)
        .unwrap();
    assert_eq!(m.stack.pop(&mut m.memory), Some(-1));

    m.stack.push(3, &mut m.memory);
    m.stack.push(5, &mut m.memory);
    dict.execute_word(">=", &mut m)
        .unwrap();
    assert_eq!(m.stack.pop(&mut m.memory), Some(0));

    m.stack.push(-3, &mut m.memory);
    m.stack.push(-5, &mut m.memory);
    dict.execute_word(">=", &mut m)
        .unwrap();
    assert_eq!(m.stack.pop(&mut m.memory), Some(-1));

    m.stack.push(0, &mut m.memory);
    m.stack.push(0, &mut m.memory);
    dict.execute_word(">=", &mut m)
        .unwrap();
    assert_eq!(m.stack.pop(&mut m.memory), Some(-1));
}

#[test]
fn test_zero_equal() {
    let mut m = Machine::new();
    let dict = Dictionary::new();

    m.stack.push(0, &mut m.memory);
    dict.execute_word("0=", &mut m)
        .unwrap();
    assert_eq!(m.stack.pop(&mut m.memory), Some(-1));

    m.stack.push(5, &mut m.memory);
    dict.execute_word("0=", &mut m)
        .unwrap();
    assert_eq!(m.stack.pop(&mut m.memory), Some(0));

    m.stack.push(-3, &mut m.memory);
    dict.execute_word("0=", &mut m)
        .unwrap();
    assert_eq!(m.stack.pop(&mut m.memory), Some(0));

    m.stack.push(1, &mut m.memory);
    dict.execute_word("0=", &mut m)
        .unwrap();
    assert_eq!(m.stack.pop(&mut m.memory), Some(0));

    m.stack.push(-1, &mut m.memory);
    dict.execute_word("0=", &mut m)
        .unwrap();
    assert_eq!(m.stack.pop(&mut m.memory), Some(0));
}

#[test]
fn test_zero_less() {
    let mut m = Machine::new();
    let dict = Dictionary::new();

    m.stack.push(-5, &mut m.memory);
    dict.execute_word("0<", &mut m)
        .unwrap();
    assert_eq!(m.stack.pop(&mut m.memory), Some(-1));

    m.stack.push(0, &mut m.memory);
    dict.execute_word("0<", &mut m)
        .unwrap();
    assert_eq!(m.stack.pop(&mut m.memory), Some(0));

    m.stack.push(5, &mut m.memory);
    dict.execute_word("0<", &mut m)
        .unwrap();
    assert_eq!(m.stack.pop(&mut m.memory), Some(0));

    m.stack.push(-1, &mut m.memory);
    dict.execute_word("0<", &mut m)
        .unwrap();
    assert_eq!(m.stack.pop(&mut m.memory), Some(-1));

    m.stack.push(1, &mut m.memory);
    dict.execute_word("0<", &mut m)
        .unwrap();
    assert_eq!(m.stack.pop(&mut m.memory), Some(0));
}

#[test]
fn test_zero_greater() {
    let mut m = Machine::new();
    let dict = Dictionary::new();

    m.stack.push(5, &mut m.memory);
    dict.execute_word("0>", &mut m)
        .unwrap();
    assert_eq!(m.stack.pop(&mut m.memory), Some(-1));

    m.stack.push(0, &mut m.memory);
    dict.execute_word("0>", &mut m)
        .unwrap();
    assert_eq!(m.stack.pop(&mut m.memory), Some(0));

    m.stack.push(-5, &mut m.memory);
    dict.execute_word("0>", &mut m)
        .unwrap();
    assert_eq!(m.stack.pop(&mut m.memory), Some(0));

    m.stack.push(1, &mut m.memory);
    dict.execute_word("0>", &mut m)
        .unwrap();
    assert_eq!(m.stack.pop(&mut m.memory), Some(-1));

    m.stack.push(-1, &mut m.memory);
    dict.execute_word("0>", &mut m)
        .unwrap();
    assert_eq!(m.stack.pop(&mut m.memory), Some(0));
}
