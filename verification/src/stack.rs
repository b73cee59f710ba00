//! The data stack, the return stack and the loop-control stack.
//!
//! The data stack and the return stack live in machine memory: each keeps only a
//! pointer to the next free cell, and its cells are 8-byte little-endian values.

use vstd::prelude::*;
use crate::memory::{Memory, MEMORY_SIZE, le_decode, write_cell, law_store_then_fetch};

verus! {

/// First address of the return-stack region.
pub const RETURN_STACK_BASE: usize = 0x010000;

/// The cells `[base, base + 8 * n)` of memory, bottom first.
pub open spec fn cells_from(bytes: Seq<u8>, base: int, n: int) -> Seq<i64> {
    Seq::new(n as nat, |i: int| le_decode(bytes, base + 8 * i))
}

/// Memory after pushing `v` onto a stack whose pointer is `ptr`.
pub open spec fn pushed(bytes: Seq<u8>, ptr: int, v: i64) -> Seq<u8> {
    write_cell(bytes, ptr, v)
}

/// The data stack: a pointer into memory, starting at address 0.
pub struct Stack {
    sp: usize,
}

impl Stack {
    /// The stack pointer: byte address of the next free cell.
    pub closed spec fn sp(&self) -> int {
        self.sp as int
    }

    /// Whether a pop or peek is defined: the stack is empty or holds a whole cell.
    pub open spec fn can_pop(&self) -> bool {
        self.sp() == 0 || self.sp() >= 8
    }

    /// The values on the stack, bottom first (for an 8-aligned pointer).
    pub open spec fn contents(&self, mem: &Memory) -> Seq<i64> {
        cells_from(mem.bytes(), 0, self.sp() / 8)
    }

    /// An empty stack.
    pub fn new() -> (s: Self)
        ensures
            s.sp() == 0,
    {
        Stack { sp: 0 }
    }

    /// Push `value`: store it at the stack pointer and advance the pointer one cell.
    pub fn push(&mut self, value: i64, memory: &mut Memory)
        requires
            old(memory).wf(),
            old(self).sp() + 8 <= MEMORY_SIZE,
        ensures
            final(memory).wf(),
            final(self).sp() == old(self).sp() + 8,
            final(memory).bytes() == pushed(old(memory).bytes(), old(self).sp(), value),
            final(memory).dp() == old(memory).dp(),
    {
        let r = memory.store(self.sp, value);
        self.sp = self.sp + 8;
    }

    /// Pop the top value. An empty stack gives `None` and is left unchanged.
    pub fn pop(&mut self, memory: &mut Memory) -> (r: Option<i64>)
        requires
            old(memory).wf(),
            old(self).can_pop(),
        ensures
            *final(memory) == *old(memory),
            old(self).sp() == 0 ==> r is None && final(self).sp() == 0,
            old(self).sp() >= 8 ==> final(self).sp() == old(self).sp() - 8
                && r == old(memory).spec_fetch(old(self).sp() - 8),
    {
        if self.sp == 0 {
            return None;
        }
        self.sp = self.sp - 8;
        match memory.fetch(self.sp) {
            Ok(v) => Some(v),
            Err(_) => None,
        }
    }

    /// The top value without removing it.
    pub fn peek(&self, memory: &Memory) -> (r: Option<i64>)
        requires
            memory.wf(),
            self.can_pop(),
        ensures
            self.sp() == 0 ==> r is None,
            self.sp() >= 8 ==> r == memory.spec_fetch(self.sp() - 8),
    {
        if self.sp == 0 {
            return None;
        }
        match memory.fetch(self.sp - 8) {
            Ok(v) => Some(v),
            Err(_) => None,
        }
    }

    /// Whether the stack is empty.
    pub fn is_empty(&self) -> (b: bool)
        ensures
            b == (self.sp() == 0),
    {
        self.sp == 0
    }

    /// Number of cells on the stack.
    pub fn depth(&self) -> (d: usize)
        ensures
            d == self.sp() / 8,
    {
        self.sp / 8
    }

    /// The stack pointer.
    pub fn get_sp(&self) -> (sp: usize)
        ensures
            sp == self.sp(),
    {
        self.sp
    }

    /// Set the stack pointer.
    pub fn set_sp(&mut self, sp: usize)
        ensures
            final(self).sp() == sp,
    {
        self.sp = sp;
    }

    /// The stack pointer as an address value.
    pub fn as_mut_ptr(&mut self) -> (sp: usize)
        ensures
            sp == old(self).sp(),
            *final(self) == *old(self),
    {
        self.sp
    }
}

/// The return stack: a pointer into memory, starting at `RETURN_STACK_BASE`.
pub struct ReturnStack {
    rp: usize,
}

impl ReturnStack {
    /// The return-stack pointer: byte address of the next free cell.
    pub closed spec fn rp(&self) -> int {
        self.rp as int
    }

    /// Whether a pop or peek is defined: at the base, or at least one cell above address 0.
    pub open spec fn can_pop(&self) -> bool {
        self.rp() == RETURN_STACK_BASE || self.rp() >= 8
    }

    /// The values on the return stack, bottom first.
    pub open spec fn contents(&self, mem: &Memory) -> Seq<i64> {
        cells_from(mem.bytes(), RETURN_STACK_BASE as int, (self.rp() - RETURN_STACK_BASE) / 8)
    }

    /// An empty return stack.
    pub fn new() -> (s: Self)
        ensures
            s.rp() == RETURN_STACK_BASE,
    {
        ReturnStack { rp: RETURN_STACK_BASE }
    }

    /// Push `value` at the return-stack pointer and advance it one cell.
    pub fn push(&mut self, value: i64, memory: &mut Memory)
        requires
            old(memory).wf(),
            old(self).rp() + 8 <= MEMORY_SIZE,
        ensures
            final(memory).wf(),
            final(self).rp() == old(self).rp() + 8,
            final(memory).bytes() == pushed(old(memory).bytes(), old(self).rp(), value),
            final(memory).dp() == old(memory).dp(),
    {
        let r = memory.store(self.rp, value);
        self.rp = self.rp + 8;
    }

    /// Pop the top value. At the base this gives `None` and changes nothing.
    pub fn pop(&mut self, memory: &mut Memory) -> (r: Option<i64>)
        requires
            old(memory).wf(),
            old(self).can_pop(),
        ensures
            *final(memory) == *old(memory),
            old(self).rp() == RETURN_STACK_BASE ==> r is None && final(self).rp() == RETURN_STACK_BASE,
            old(self).rp() != RETURN_STACK_BASE ==> final(self).rp() == old(self).rp() - 8
                && r == old(memory).spec_fetch(old(self).rp() - 8),
    {
        if self.rp == RETURN_STACK_BASE {
            return None;
        }
        self.rp = self.rp - 8;
        match memory.fetch(self.rp) {
            Ok(v) => Some(v),
            Err(_) => None,
        }
    }

    /// The top value without removing it.
    pub fn peek(&self, memory: &Memory) -> (r: Option<i64>)
        requires
            memory.wf(),
            self.can_pop(),
        ensures
            self.rp() == RETURN_STACK_BASE ==> r is None,
            self.rp() != RETURN_STACK_BASE ==> r == memory.spec_fetch(self.rp() - 8),
    {
        if self.rp == RETURN_STACK_BASE {
            return None;
        }
        match memory.fetch(self.rp - 8) {
            Ok(v) => Some(v),
            Err(_) => None,
        }
    }

    /// Whether the return stack is at its base.
    pub fn is_empty(&self) -> (b: bool)
        ensures
            b == (self.rp() == RETURN_STACK_BASE),
    {
        self.rp == RETURN_STACK_BASE
    }

    /// Number of cells above the base.
    pub fn depth(&self) -> (d: usize)
        requires
            self.rp() >= RETURN_STACK_BASE,
        ensures
            d == (self.rp() - RETURN_STACK_BASE) / 8,
    {
        (self.rp - RETURN_STACK_BASE) / 8
    }

    /// The return-stack pointer.
    pub fn get_rp(&self) -> (rp: usize)
        ensures
            rp == self.rp(),
    {
        self.rp
    }

    /// Set the return-stack pointer.
    pub fn set_rp(&mut self, rp: usize)
        ensures
            final(self).rp() == rp,
    {
        self.rp = rp;
    }

    /// The return-stack pointer as an address value.
    pub fn as_mut_ptr(&mut self) -> (rp: usize)
        ensures
            rp == old(self).rp(),
            *final(self) == *old(self),
    {
        self.rp
    }
}

/// Loop-control stack of `(index, limit)` pairs for DO ... LOOP.
pub struct LoopStack {
    stack: Vec<(i64, i64)>,
}

impl LoopStack {
    /// The frames, outermost first.
    pub closed spec fn frames(&self) -> Seq<(i64, i64)> {
        self.stack@
    }

    /// No loop is active.
    pub fn new() -> (s: Self)
        ensures
            s.frames() == Seq::<(i64, i64)>::empty(),
    {
        LoopStack { stack: Vec::new() }
    }

    /// Enter a loop with the given start index and limit.
    pub fn push_loop(&mut self, start: i64, limit: i64)
        ensures
            final(self).frames() == old(self).frames().push((start, limit)),
    {
        self.stack.push((start, limit));
    }

    /// Leave the innermost loop, returning its frame.
    pub fn pop_loop(&mut self) -> (r: Option<(i64, i64)>)
        ensures
            old(self).frames().len() == 0 ==> r is None && final(self).frames() == old(self).frames(),
            old(self).frames().len() > 0 ==> r == Some(old(self).frames().last())
                && final(self).frames() == old(self).frames().drop_last(),
    {
        self.stack.pop()
    }

    /// The index of the innermost loop (the word I).
    pub fn get_index(&self) -> (r: Option<i64>)
        ensures
            self.frames().len() == 0 ==> r is None,
            self.frames().len() > 0 ==> r == Some(self.frames().last().0),
    {
        let n = self.stack.len();
        if n == 0 {
            None
        } else {
            Some(self.stack[n - 1].0)
        }
    }

    /// The index of the next outer loop (the word J).
    pub fn get_outer_index(&self) -> (r: Option<i64>)
        ensures
            self.frames().len() < 2 ==> r is None,
            self.frames().len() >= 2 ==> r == Some(self.frames()[self.frames().len() - 2].0),
    {
        let n = self.stack.len();
        if n >= 2 {
            Some(self.stack[n - 2].0)
        } else {
            None
        }
    }

    /// Add `amount` (wrapping) to the innermost index; returns whether the new index
    /// is still below the limit. With no active loop, returns `false`.
    pub fn increment(&mut self, amount: i64) -> (r: bool)
        ensures
            old(self).frames().len() == 0 ==> !r && final(self).frames() == old(self).frames(),
            old(self).frames().len() > 0 ==> {
                let (idx, lim) = old(self).frames().last();
                let n = vstd::wrapping::i64_specs::wrapping_add(idx, amount);
                &&& final(self).frames() == old(self).frames().update(
                    old(self).frames().len() - 1, (n, lim))
                &&& r == (n < lim)
            },
    {
        let n = self.stack.len();
        if n == 0 {
            return false;
        }
        let (idx, lim) = self.stack[n - 1];
        let new_idx = idx.wrapping_add(amount);
        self.stack.set(n - 1, (new_idx, lim));
        new_idx < lim
    }

    /// Number of active loops.
    pub fn len(&self) -> (n: usize)
        ensures
            n == self.frames().len(),
    {
        self.stack.len()
    }
}

/// A value pushed onto the data stack is what the next pop gives back, and the pop
/// restores the stack pointer.
pub proof fn law_stack_push_pop(bytes: Seq<u8>, sp: int, v: i64)
    requires
        bytes.len() == MEMORY_SIZE,
        0 <= sp,
        sp % 8 == 0,
        sp + 8 <= MEMORY_SIZE,
    ensures
        le_decode(pushed(bytes, sp, v), sp) == v,
        cells_from(pushed(bytes, sp, v), 0, sp / 8 + 1) =~= cells_from(bytes, 0, sp / 8).push(v),
{
    law_store_then_fetch(bytes, sp, v);
    let w = pushed(bytes, sp, v);
    assert forall|i: int| 0 <= i < sp / 8 implies #[trigger] le_decode(w, 8 * i) == le_decode(bytes, 8 * i) by {
        assert(w[8 * i] == bytes[8 * i]);
        assert(w[8 * i + 1] == bytes[8 * i + 1]);
        assert(w[8 * i + 2] == bytes[8 * i + 2]);
        assert(w[8 * i + 3] == bytes[8 * i + 3]);
        assert(w[8 * i + 4] == bytes[8 * i + 4]);
        assert(w[8 * i + 5] == bytes[8 * i + 5]);
        assert(w[8 * i + 6] == bytes[8 * i + 6]);
        assert(w[8 * i + 7] == bytes[8 * i + 7]);
    }
    assert(8 * (sp / 8) == sp);
}


impl Default for ReturnStack {
    /// An empty return stack.
    fn default() -> (s: Self)
        ensures
            s.rp() == RETURN_STACK_BASE,
    {
        ReturnStack::new()
    }
}

impl Default for LoopStack {
    /// No active loops.
    fn default() -> (s: Self)
        ensures
            s.frames() == Seq::<(i64, i64)>::empty(),
    {
        LoopStack::new()
    }
}

} // verus!
