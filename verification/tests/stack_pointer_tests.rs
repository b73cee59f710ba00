use quarter::{Dictionary, Machine};

#[test]
fn test_sp_fetch() {
    let mut m = Machine::new();
    let dict = Dictionary::new();

    // Empty stack: SP is 0.
    dict.execute_word("SP@", &mut m)
    .unwrap();
    assert_eq!(m.stack.pop(&mut m.memory), Some(0));

    // Three cells pushed: SP counts bytes, and a cell is 8 bytes (64-bit
    // cells), so SP is 24 before SP@ pushes it.
    m.stack.push(10, &mut m.memory);
    m.stack.push(20, &mut m.memory);
    m.stack.push(30, &mut m.memory);
    dict.execute_word("SP@", &mut m)
    .unwrap();
    assert_eq!(m.stack.pop(&mut m.memory), Some(24));
}

#[test]
fn test_sp_store() {
    let mut m = Machine::new();
    let dict = Dictionary::new();

    m.stack.push(10, &mut m.memory);
    m.stack.push(20, &mut m.memory);
    m.stack.push(30, &mut m.memory);

    m.stack.push(4, &mut m.memory);
    dict.execute_word("SP!", &mut m)
    .unwrap();

    dict.execute_word("SP@", &mut m)
    .unwrap();
    assert_eq!(m.stack.pop(&mut m.memory), Some(4));
}

#[test]
fn test_rp_store() {
    let mut m = Machine::new();
    let dict = Dictionary::new();

    m.stack.push(100, &mut m.memory);
    dict.execute_word(">R", &mut m)
    .unwrap();
    m.stack.push(200, &mut m.memory);
    dict.execute_word(">R", &mut m)
    .unwrap();

    m.stack.push(65536, &mut m.memory);
    dict.execute_word("RP!", &mut m)
    .unwrap();

    dict.execute_word("RP@", &mut m)
    .unwrap();
    assert_eq!(m.stack.pop(&mut m.memory), Some(65536));
}
