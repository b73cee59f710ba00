use quarter::{Dictionary, Machine};

#[test]
fn test_cmove_basic() {
    let mut m = Machine::new();
    let dict = Dictionary::new();

    let src_addr = 0x200000;
    let hello = b"HELLO";
    for (i, &ch) in hello.iter().enumerate() {
        m.memory.store_byte(src_addr + i, ch as i64).unwrap();
    }

    let dest_addr = 0x201000;
    m.stack.push(src_addr as i64, &mut m.memory);
    m.stack.push(dest_addr as i64, &mut m.memory);
    m.stack.push(5, &mut m.memory);

    dict.execute_word("CMOVE", &mut m)
        .unwrap();

    assert_eq!(m.memory.fetch_byte(dest_addr).unwrap(), b'H' as i64);
    assert_eq!(m.memory.fetch_byte(dest_addr + 1).unwrap(), b'E' as i64);
    assert_eq!(m.memory.fetch_byte(dest_addr + 2).unwrap(), b'L' as i64);
    assert_eq!(m.memory.fetch_byte(dest_addr + 3).unwrap(), b'L' as i64);
    assert_eq!(m.memory.fetch_byte(dest_addr + 4).unwrap(), b'O' as i64);
    assert!(m.stack.is_empty());
}

#[test]
fn test_cmove_zero_count() {
    let mut m = Machine::new();
    let dict = Dictionary::new();

    m.stack.push(0x200000, &mut m.memory);
    m.stack.push(0x201000, &mut m.memory);
    m.stack.push(0, &mut m.memory);

    dict.execute_word("CMOVE", &mut m)
        .unwrap();

    assert!(m.stack.is_empty());
}

#[test]
fn test_cmove_large_block() {
    let mut m = Machine::new();
    let dict = Dictionary::new();

    let src_addr = 0x200000;
    for i in 0..256 {
        m.memory.store_byte(src_addr + i, i as i64).unwrap();
    }

    let dest_addr = 0x201000;
    m.stack.push(src_addr as i64, &mut m.memory);
    m.stack.push(dest_addr as i64, &mut m.memory);
    m.stack.push(256, &mut m.memory);

    dict.execute_word("CMOVE", &mut m)
        .unwrap();

    for i in 0..256 {
        assert_eq!(m.memory.fetch_byte(dest_addr + i).unwrap(), i as i64);
    }
    assert!(m.stack.is_empty());
}

#[test]
fn test_throw_with_nonzero() {
    let mut m = Machine::new();
    let dict = Dictionary::new();

    m.stack.push(42, &mut m.memory);

    dict.execute_word("THROW", &mut m)
        .unwrap();

    assert_eq!(m.stack.pop(&mut m.memory), Some(42));
    assert!(m.stack.is_empty());
}

#[test]
fn test_throw_with_zero() {
    let mut m = Machine::new();
    let dict = Dictionary::new();

    m.stack.push(0, &mut m.memory);

    dict.execute_word("THROW", &mut m)
        .unwrap();

    assert!(m.stack.is_empty());
}
