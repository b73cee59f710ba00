//! The Forth machine state and its primitive state transitions.

use vstd::prelude::*;
use crate::memory::{Memory, MEMORY_SIZE, le_decode, write_cell, cell_in_bounds};
use crate::stack::{LoopStack, ReturnStack, Stack, RETURN_STACK_BASE};
use crate::text::{chars_of, extend_chars, string_from_chars};
use crate::ast::SAst;
use crate::registry::AstRegistry;

verus! {

broadcast use vstd::string::group_string_axioms;

/// Abstract state of the machine, as used by the contracts.
pub ghost struct MState {
    /// Memory contents (always `MEMORY_SIZE` bytes).
    pub mem: Seq<u8>,
    /// Dictionary pointer.
    pub dp: int,
    /// Data-stack pointer.
    pub sp: int,
    /// Return-stack pointer.
    pub rp: int,
    /// Active DO-loop frames `(index, limit)`, outermost first.
    pub loops: Seq<(i64, i64)>,
    /// Text written to standard output.
    pub out: Seq<char>,
    /// Text written to standard error.
    pub err: Seq<char>,
    /// Input bytes available to KEY.
    pub input: Seq<u8>,
    /// Position of the next unread input byte.
    pub pos: int,
    /// Registered AST nodes (handle `h` names the node at `h - 1`).
    pub asts: Seq<SAst>,
}

/// The outcome of a step: `Ok`, or an error message.
pub type Outcome = Result<(), Seq<char>>;

/// The outcome of an executable result.
pub open spec fn outcome(r: Result<(), String>) -> Outcome {
    match r {
        Ok(()) => Ok(()),
        Err(e) => Err(e@),
    }
}

/// Message of a stack pointer that sits inside the first cell.
pub open spec fn bad_sp_msg() -> Seq<char> {
    "Invalid stack pointer"@
}

/// Message of a push past the end of memory.
pub open spec fn overflow_msg() -> Seq<char> {
    "Stack overflow"@
}

/// Pop the data stack: `Ok(None)` when empty or the cell is outside memory, an error
/// when the stack pointer lies strictly inside the first cell.
pub open spec fn s_pop(s: MState) -> (Result<Option<i64>, Seq<char>>, MState) {
    if s.sp == 0 {
        (Ok(None), s)
    } else if s.sp < 8 {
        (Err(bad_sp_msg()), s)
    } else {
        let sp2 = s.sp - 8;
        (Ok(if cell_in_bounds(sp2, s.mem.len() as int) { Some(le_decode(s.mem, sp2)) } else { None }),
         MState { sp: sp2, ..s })
    }
}

/// Peek at the top of the data stack.
pub open spec fn s_peek(s: MState) -> Result<Option<i64>, Seq<char>> {
    s_pop(s).0
}

/// Push onto the data stack; an error when the cell would leave memory.
pub open spec fn s_push(s: MState, v: i64) -> (MState, Outcome) {
    if 0 <= s.sp && s.sp + 8 <= MEMORY_SIZE {
        (MState { mem: write_cell(s.mem, s.sp, v), sp: s.sp + 8, ..s }, Ok(()))
    } else {
        (s, Err(overflow_msg()))
    }
}

/// Pop the return stack.
pub open spec fn s_rpop(s: MState) -> (Result<Option<i64>, Seq<char>>, MState) {
    if s.rp == RETURN_STACK_BASE {
        (Ok(None), s)
    } else if s.rp < 8 {
        (Err(bad_sp_msg()), s)
    } else {
        let rp2 = s.rp - 8;
        (Ok(if cell_in_bounds(rp2, s.mem.len() as int) { Some(le_decode(s.mem, rp2)) } else { None }),
         MState { rp: rp2, ..s })
    }
}

/// Push onto the return stack.
pub open spec fn s_rpush(s: MState, v: i64) -> (MState, Outcome) {
    if 0 <= s.rp && s.rp + 8 <= MEMORY_SIZE {
        (MState { mem: write_cell(s.mem, s.rp, v), rp: s.rp + 8, ..s }, Ok(()))
    } else {
        (s, Err(overflow_msg()))
    }
}

/// Write text to standard output.
pub open spec fn s_print(s: MState, t: Seq<char>) -> MState {
    MState { out: s.out + t, ..s }
}

/// Write text to standard error.
pub open spec fn s_eprint(s: MState, t: Seq<char>) -> MState {
    MState { err: s.err + t, ..s }
}

/// The Forth machine: stacks, memory, output buffers, pending input and the
/// remaining execution budget.
pub struct Machine {
    pub stack: Stack,
    pub loop_stack: LoopStack,
    pub return_stack: ReturnStack,
    pub memory: Memory,
    /// Text written to standard output, not yet flushed.
    pub output: Vec<char>,
    /// Text written to standard error, not yet flushed.
    pub errors: Vec<char>,
    /// Bytes available to KEY.
    pub input: Vec<u8>,
    /// Position of the next byte KEY reads.
    pub input_pos: usize,
    /// Remaining number of execution steps.
    pub steps: u64,
    /// AST nodes registered for inspection by Forth code.
    pub asts: AstRegistry,
}

impl Machine {
    /// The abstract state.
    pub open spec fn view(&self) -> MState {
        MState {
            mem: self.memory.bytes(),
            dp: self.memory.dp(),
            sp: self.stack.sp(),
            rp: self.return_stack.rp(),
            loops: self.loop_stack.frames(),
            out: self.output@,
            err: self.errors@,
            input: self.input@,
            pos: self.input_pos as int,
            asts: self.asts@,
        }
    }

    /// Memory is well formed.
    pub open spec fn wf(&self) -> bool {
        self.memory.wf()
    }

    /// A fresh machine: empty stacks, fresh memory, no output, no input and an
    /// execution budget of `u64::MAX` steps.
    pub fn new() -> (m: Self)
        ensures
            m.wf(),
            m.view().sp == 0,
            m.view().rp == RETURN_STACK_BASE,
            m.view().loops.len() == 0,
            m.view().out.len() == 0,
            m.view().err.len() == 0,
            m.view().input.len() == 0,
            m.view().pos == 0,
            m.view().dp == crate::memory::USER_MEMORY_START,
            m.view().asts.len() == 0,
            m.steps == u64::MAX,
    {
        Machine::from_parts(Stack::new(), LoopStack::new(), ReturnStack::new(), Memory::new())
    }

    /// A machine built from existing stacks and memory, with no output, no input and
    /// an execution budget of `u64::MAX` steps.
    pub fn from_parts(stack: Stack, loop_stack: LoopStack, return_stack: ReturnStack, memory: Memory)
        -> (m: Self)
        ensures
            m.stack == stack,
            m.loop_stack == loop_stack,
            m.return_stack == return_stack,
            m.memory == memory,
            m.output@.len() == 0,
            m.errors@.len() == 0,
            m.input@.len() == 0,
            m.input_pos == 0,
            m.steps == u64::MAX,
            m.asts@.len() == 0,
    {
        Machine {
            stack,
            loop_stack,
            return_stack,
            memory,
            output: Vec::new(),
            errors: Vec::new(),
            input: Vec::new(),
            input_pos: 0,
            steps: u64::MAX,
            asts: AstRegistry::new(),
        }
    }

    /// Pop the data stack.
    pub fn pop_value(&mut self) -> (r: Result<Option<i64>, String>)
        requires
            old(self).wf(),
        ensures
            final(self).wf(),
            final(self).steps == old(self).steps,
            (match r { Ok(v) => Ok(v), Err(e) => Err(e@) }, final(self).view()) == s_pop(old(self).view()),
    {
        let sp = self.stack.get_sp();
        if sp != 0 && sp < 8 {
            return Err("Invalid stack pointer".to_string());
        }
        Ok(self.stack.pop(&mut self.memory))
    }

    /// Peek at the data stack.
    pub fn peek_value(&self) -> (r: Result<Option<i64>, String>)
        requires
            self.wf(),
        ensures
            match r { Ok(v) => Ok(v), Err(e) => Err(e@) } == s_peek(self.view()),
    {
        let sp = self.stack.get_sp();
        if sp != 0 && sp < 8 {
            return Err("Invalid stack pointer".to_string());
        }
        Ok(self.stack.peek(&self.memory))
    }

    /// Push onto the data stack.
    pub fn push_value(&mut self, v: i64) -> (r: Result<(), String>)
        requires
            old(self).wf(),
        ensures
            final(self).wf(),
            final(self).steps == old(self).steps,
            (final(self).view(), outcome(r)) == s_push(old(self).view(), v),
    {
        let sp = self.stack.get_sp();
        if sp > MEMORY_SIZE - 8 {
            return Err("Stack overflow".to_string());
        }
        self.stack.push(v, &mut self.memory);
        Ok(())
    }

    /// Pop the return stack.
    pub fn rpop_value(&mut self) -> (r: Result<Option<i64>, String>)
        requires
            old(self).wf(),
        ensures
            final(self).wf(),
            final(self).steps == old(self).steps,
            (match r { Ok(v) => Ok(v), Err(e) => Err(e@) }, final(self).view()) == s_rpop(old(self).view()),
    {
        let rp = self.return_stack.get_rp();
        if rp != RETURN_STACK_BASE && rp < 8 {
            return Err("Invalid stack pointer".to_string());
        }
        Ok(self.return_stack.pop(&mut self.memory))
    }

    /// Peek at the return stack.
    pub fn rpeek_value(&self) -> (r: Result<Option<i64>, String>)
        requires
            self.wf(),
        ensures
            match r { Ok(v) => Ok(v), Err(e) => Err(e@) } == s_rpop(self.view()).0,
    {
        let rp = self.return_stack.get_rp();
        if rp != RETURN_STACK_BASE && rp < 8 {
            return Err("Invalid stack pointer".to_string());
        }
        Ok(self.return_stack.peek(&self.memory))
    }

    /// Push onto the return stack.
    pub fn rpush_value(&mut self, v: i64) -> (r: Result<(), String>)
        requires
            old(self).wf(),
        ensures
            final(self).wf(),
            final(self).steps == old(self).steps,
            (final(self).view(), outcome(r)) == s_rpush(old(self).view(), v),
    {
        let rp = self.return_stack.get_rp();
        if rp > MEMORY_SIZE - 8 {
            return Err("Stack overflow".to_string());
        }
        self.return_stack.push(v, &mut self.memory);
        Ok(())
    }

    /// Write `t` to standard output.
    pub fn print_str(&mut self, t: &str)
        ensures
            final(self).view() == s_print(old(self).view(), t@),
            final(self).steps == old(self).steps,
            final(self).memory == old(self).memory,
    {
        let cs = chars_of(t);
        extend_chars(&mut self.output, &cs);
    }

    /// Write the characters `t` to standard output.
    pub fn print_chars(&mut self, t: &Vec<char>)
        ensures
            final(self).view() == s_print(old(self).view(), t@),
            final(self).steps == old(self).steps,
            final(self).memory == old(self).memory,
    {
        extend_chars(&mut self.output, t);
    }

    /// Write `t` to standard error.
    pub fn eprint_str(&mut self, t: &str)
        ensures
            final(self).view() == s_eprint(old(self).view(), t@),
            final(self).steps == old(self).steps,
            final(self).memory == old(self).memory,
    {
        let cs = chars_of(t);
        extend_chars(&mut self.errors, &cs);
    }

    /// Write the characters `t` to standard error.
    pub fn eprint_chars(&mut self, t: &Vec<char>)
        ensures
            final(self).view() == s_eprint(old(self).view(), t@),
            final(self).steps == old(self).steps,
            final(self).memory == old(self).memory,
    {
        extend_chars(&mut self.errors, t);
    }

    /// Take the pending standard-output text, leaving the buffer empty.
    pub fn take_output(&mut self) -> (s: String)
        ensures
            s@ == old(self).output@,
            final(self).output@.len() == 0,
            final(self).errors == old(self).errors,
            final(self).stack == old(self).stack,
            final(self).memory == old(self).memory,
    {
        let s = string_from_chars(&self.output);
        self.output = Vec::new();
        s
    }

    /// Take the pending standard-error text, leaving the buffer empty.
    pub fn take_errors(&mut self) -> (s: String)
        ensures
            s@ == old(self).errors@,
            final(self).errors@.len() == 0,
            final(self).output == old(self).output,
            final(self).stack == old(self).stack,
            final(self).memory == old(self).memory,
    {
        let s = string_from_chars(&self.errors);
        self.errors = Vec::new();
        s
    }

    /// Append bytes to the input that KEY reads.
    pub fn feed_input(&mut self, bytes: &Vec<u8>)
        ensures
            final(self).input@ == old(self).input@ + bytes@,
            final(self).input_pos == old(self).input_pos,
            final(self).output == old(self).output,
            final(self).stack == old(self).stack,
            final(self).memory == old(self).memory,
    {
        let mut k: usize = 0;
        while k < bytes.len()
            invariant
                k <= bytes@.len(),
                self.input@ == old(self).input@ + bytes@.subrange(0, k as int),
                self.input_pos == old(self).input_pos,
                self.output == old(self).output,
                self.stack == old(self).stack,
                self.memory == old(self).memory,
            decreases bytes@.len() - k,
        {
            self.input.push(bytes[k]);
            k = k + 1;
        }
        assert(bytes@.subrange(0, bytes@.len() as int) =~= bytes@);
    }
}

} // verus!
