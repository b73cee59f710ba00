use quarter::{LoopStack, Memory, Stack};

#[test]
fn test_stack_push_pop() {
    let mut memory = Memory::new();
    let mut stack = Stack::new();
    let mut _loop_stack = LoopStack::new();
    stack.push(10, &mut memory);
    stack.push(20, &mut memory);

    assert_eq!(stack.pop(&mut memory), Some(20));
    assert_eq!(stack.pop(&mut memory), Some(10));
    assert_eq!(stack.pop(&mut memory), None);
}

#[test]
fn test_stack_peek() {
    let mut memory = Memory::new();
    let mut stack = Stack::new();
    let mut _loop_stack = LoopStack::new();
    stack.push(42, &mut memory);

    assert_eq!(stack.peek(&memory), Some(42));
    assert_eq!(stack.pop(&mut memory), Some(42));
}

#[test]
fn test_stack_is_empty() {
    let mut memory = Memory::new();
    let mut stack = Stack::new();
    let mut _loop_stack = LoopStack::new();
    assert!(stack.is_empty());

    stack.push(1, &mut memory);
    assert!(!stack.is_empty());

    stack.pop(&mut memory);
    assert!(stack.is_empty());
}

#[test]
fn test_stack_depth_and_pointer() {
    let mut memory = Memory::new();
    let mut stack = Stack::new();
    stack.push(1, &mut memory);
    stack.push(2, &mut memory);
    assert_eq!(stack.depth(), 2);
    assert_eq!(stack.get_sp(), 16);
    assert_eq!(memory.fetch(8), Ok(2));
}

#[test]
fn test_loop_stack() {
    let mut loops = LoopStack::new();
    assert_eq!(loops.get_index(), None);
    loops.push_loop(0, 3);
    loops.push_loop(5, 7);
    assert_eq!(loops.get_index(), Some(5));
    assert_eq!(loops.get_outer_index(), Some(0));
    assert!(loops.increment(1));
    assert!(!loops.increment(1));
    assert_eq!(loops.pop_loop(), Some((7, 7)));
    assert_eq!(loops.pop_loop(), Some((0, 3)));
    assert!(!loops.increment(1));
}
