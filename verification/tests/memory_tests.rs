use quarter::{Dictionary, Machine};

#[test]
fn test_store_fetch_basic() {
    let mut m = Machine::new();
    let dict = Dictionary::new();

    m.stack.push(42, &mut m.memory);
    m.stack.push(100, &mut m.memory);
    dict.execute_word("!", &mut m)
        .unwrap();

    m.stack.push(100, &mut m.memory);
    dict.execute_word("@", &mut m)
        .unwrap();

    assert_eq!(m.stack.pop(&mut m.memory), Some(42));
}

#[test]
fn test_c_store_fetch_basic() {
    let mut m = Machine::new();
    let dict = Dictionary::new();

    m.stack.push(65, &mut m.memory);
    m.stack.push(10, &mut m.memory);
    dict.execute_word("C!", &mut m)
        .unwrap();

    m.stack.push(10, &mut m.memory);
    dict.execute_word("C@", &mut m)
        .unwrap();

    assert_eq!(m.stack.pop(&mut m.memory), Some(65));
}

#[test]
fn test_c_store_masks_to_byte() {
    let mut m = Machine::new();
    let dict = Dictionary::new();

    m.stack.push(0x12345678, &mut m.memory);
    m.stack.push(20, &mut m.memory);
    dict.execute_word("C!", &mut m)
        .unwrap();

    m.stack.push(20, &mut m.memory);
    dict.execute_word("C@", &mut m)
        .unwrap();

    assert_eq!(m.stack.pop(&mut m.memory), Some(0x78));
}

#[test]
fn test_little_endian_encoding() {
    let mut m = Machine::new();
    let dict = Dictionary::new();

    m.stack.push(0x12345678, &mut m.memory);
    m.stack.push(100, &mut m.memory);
    dict.execute_word("!", &mut m)
        .unwrap();

    m.stack.push(100, &mut m.memory);
    dict.execute_word("C@", &mut m)
        .unwrap();
    assert_eq!(m.stack.pop(&mut m.memory), Some(0x78));

    m.stack.push(101, &mut m.memory);
    dict.execute_word("C@", &mut m)
        .unwrap();
    assert_eq!(m.stack.pop(&mut m.memory), Some(0x56));

    m.stack.push(102, &mut m.memory);
    dict.execute_word("C@", &mut m)
        .unwrap();
    assert_eq!(m.stack.pop(&mut m.memory), Some(0x34));

    m.stack.push(103, &mut m.memory);
    dict.execute_word("C@", &mut m)
        .unwrap();
    assert_eq!(m.stack.pop(&mut m.memory), Some(0x12));
}

#[test]
fn test_overwrite_value() {
    let mut m = Machine::new();
    let dict = Dictionary::new();

    m.stack.push(100, &mut m.memory);
    m.stack.push(50, &mut m.memory);
    dict.execute_word("!", &mut m)
        .unwrap();

    m.stack.push(200, &mut m.memory);
    m.stack.push(50, &mut m.memory);
    dict.execute_word("!", &mut m)
        .unwrap();

    m.stack.push(50, &mut m.memory);
    dict.execute_word("@", &mut m)
        .unwrap();

    assert_eq!(m.stack.pop(&mut m.memory), Some(200));
}

#[test]
fn test_memory_isolation() {
    let mut m = Machine::new();
    let dict = Dictionary::new();

    m.stack.push(999, &mut m.memory);
    m.stack.push(1000, &mut m.memory);
    dict.execute_word("!", &mut m)
        .unwrap();

    m.stack.push(888, &mut m.memory);
    m.stack.push(2000, &mut m.memory);
    dict.execute_word("!", &mut m)
        .unwrap();

    m.stack.push(1000, &mut m.memory);
    dict.execute_word("@", &mut m)
        .unwrap();
    assert_eq!(m.stack.pop(&mut m.memory), Some(999));

    m.stack.push(2000, &mut m.memory);
    dict.execute_word("@", &mut m)
        .unwrap();
    assert_eq!(m.stack.pop(&mut m.memory), Some(888));
}

#[test]
fn test_max_valid_byte_address() {
    let mut m = Machine::new();
    let dict = Dictionary::new();

    let max_addr = 8 * 1024 * 1024 - 1;

    m.stack.push(99, &mut m.memory);
    m.stack.push(max_addr, &mut m.memory);
    dict.execute_word("C!", &mut m)
        .unwrap();

    m.stack.push(max_addr, &mut m.memory);
    dict.execute_word("C@", &mut m)
        .unwrap();

    assert_eq!(m.stack.pop(&mut m.memory), Some(99));
}

#[test]
fn test_byte_array_operations() {
    let mut m = Machine::new();
    let dict = Dictionary::new();

    for i in 0..10 {
        m.stack.push(i * 10, &mut m.memory);
        m.stack.push(1000 + i, &mut m.memory);
        dict.execute_word("C!", &mut m)
            .unwrap();
    }

    for i in (0..10).rev() {
        m.stack.push(1000 + i, &mut m.memory);
        dict.execute_word("C@", &mut m)
            .unwrap();
        assert_eq!(m.stack.pop(&mut m.memory), Some(i * 10));
    }
}
