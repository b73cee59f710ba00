//! Built-in (primitive) words and their semantics.
//!
//! Each primitive is a state transition of the machine. Stack underflow is not an
//! error: the word prints a message and execution continues. Errors are reserved for
//! a push past the end of memory and a stack pointer inside the first cell.

use vstd::prelude::*;
use crate::memory::{Memory, MEMORY_SIZE, BASE_ADDR, le_decode, write_cell, cell_in_bounds,
    fetch_error, store_error, fetch_byte_error, store_byte_error};
use crate::machine::{Machine, MState, Outcome, outcome, s_pop, s_peek, s_push, s_rpop, s_rpush, s_print, s_eprint};
use crate::text::{decimal_i64, decimal_u64, spec_decimal_int,
    spec_decimal_nat, is_scalar, char_from_u32};
use vstd::wrapping::i64_specs;
use crate::registry::{type_answer, number_answer, length_answer, increment_answer};
use crate::ast_words::{value_word_step, child_word_step, text_word_step, test_create_step, ast_get_type_word,
    ast_get_number_word, ast_get_word_word, ast_get_string_word, ast_seq_length_word, ast_seq_child_word,
    ast_if_then_word, ast_if_else_word, ast_loop_body_word, ast_loop_condition_word, ast_loop_increment_word,
    test_ast_create_word};
use crate::dictionary::Dictionary;
use crate::interp::{ran, run_evaluate, run_catch, run_evaluate_exec, run_catch_exec};

verus! {

broadcast use vstd::string::group_string_axioms;

/// The built-in words.
#[derive(Clone, Copy, Debug, PartialEq, Eq, Structural)]
pub enum Primitive {
    Dot,
    DotS,
    UDot,
    DotR,
    UDotR,
    Cr,
    Emit,
    Space,
    Type,
    Key,
    Add,
    Subtract,
    Multiply,
    Divide,
    StarSlash,
    SlashMod,
    Mod,
    Negate,
    Abs,
    Min,
    Max,
    OnePlus,
    OneMinus,
    TwoStar,
    TwoSlash,
    LessThan,
    GreaterThan,
    Equal,
    NotEqual,
    LessEqual,
    GreaterEqual,
    ULessThan,
    ZeroEqual,
    ZeroLess,
    ZeroGreater,
    Dup,
    QuestionDup,
    Drop,
    Swap,
    Over,
    Rot,
    Pick,
    Depth,
    ToR,
    RFrom,
    RFetch,
    And,
    Or,
    Xor,
    Invert,
    LShift,
    RShift,
    Store,
    Fetch,
    CStore,
    CFetch,
    SpFetch,
    SpStore,
    RpFetch,
    RpStore,
    Here,
    Allot,
    Comma,
    Base,
    LoopI,
    LoopJ,
    AstType,
    AstGetNumber,
    AstGetWord,
    AstGetString,
    AstSeqLength,
    AstSeqChild,
    AstIfThen,
    AstIfElse,
    AstLoopBody,
    AstLoopCondition,
    AstLoopIncrement,
    TestAstCreate,
    Evaluate,
    Cmove,
    Bye,
    Throw,
    Catch,
}

/// Forth truth values: true is -1, false is 0.
pub open spec fn flag(b: bool) -> i64 {
    if b { -1i64 } else { 0i64 }
}

/// Integer division rounding toward zero.
pub open spec fn trunc_div(x: int, d: int) -> int {
    if x == 0 {
        0
    } else if x > 0 && d > 0 {
        x / d
    } else if x < 0 && d < 0 {
        (x * -1) / (d * -1)
    } else if x < 0 {
        ((x * -1) / d) * -1
    } else {
        (x / (d * -1)) * -1
    }
}

/// Remainder of division rounding toward zero (same sign as `x`).
pub open spec fn trunc_rem(x: int, d: int) -> int {
    if x == 0 {
        0
    } else if x > 0 && d > 0 {
        x % d
    } else if x < 0 && d < 0 {
        ((x * -1) % (d * -1)) * -1
    } else if x < 0 {
        ((x * -1) % d) * -1
    } else {
        x % (d * -1)
    }
}

/// `a / b` on cells (b != 0): rounds toward zero, and `i64::MIN / -1` wraps to `i64::MIN`.
pub open spec fn cell_div(a: i64, b: i64) -> i64 {
    if a == i64::MIN && b == -1 { i64::MIN } else { trunc_div(a as int, b as int) as i64 }
}

/// `a % b` on cells (b != 0): sign of `a`, and `i64::MIN % -1` is 0.
pub open spec fn cell_rem(a: i64, b: i64) -> i64 {
    if a == i64::MIN && b == -1 { 0 } else { trunc_rem(a as int, b as int) as i64 }
}

/// Two-operand words of the shape `( a b -- f(a, b) )`.
#[derive(Clone, Copy, PartialEq, Eq, Structural)]
pub enum BinOp {
    Add,
    Sub,
    Mul,
    Min,
    Max,
    Lt,
    Gt,
    Eq,
    Ne,
    Le,
    Ge,
    ULt,
    And,
    Or,
    Xor,
    LShift,
    RShift,
}

/// One-operand words of the shape `( a -- f(a) )`.
#[derive(Clone, Copy, PartialEq, Eq, Structural)]
pub enum UnOp {
    Negate,
    Abs,
    OnePlus,
    OneMinus,
    TwoStar,
    TwoSlash,
    ZeroEqual,
    ZeroLess,
    ZeroGreater,
    Invert,
}

/// The result of a two-operand word.
pub open spec fn binop(op: BinOp, a: i64, b: i64) -> i64 {
    match op {
        BinOp::Add => i64_specs::wrapping_add(a, b),
        BinOp::Sub => i64_specs::wrapping_sub(a, b),
        BinOp::Mul => i64_specs::wrapping_mul(a, b),
        BinOp::Min => if a < b { a } else { b },
        BinOp::Max => if a > b { a } else { b },
        BinOp::Lt => flag(a < b),
        BinOp::Gt => flag(a > b),
        BinOp::Eq => flag(a == b),
        BinOp::Ne => flag(a != b),
        BinOp::Le => flag(a <= b),
        BinOp::Ge => flag(a >= b),
        BinOp::ULt => flag((a as u64) < (b as u64)),
        BinOp::And => a & b,
        BinOp::Or => a | b,
        BinOp::Xor => a ^ b,
        BinOp::LShift => i64_specs::wrapping_shl(a, b as u32),
        BinOp::RShift => i64_specs::wrapping_shr(a, b as u32),
    }
}

/// The result of a one-operand word.
pub open spec fn unop(op: UnOp, a: i64) -> i64 {
    match op {
        UnOp::Negate => if a == i64::MIN { i64::MIN } else { (-a) as i64 },
        UnOp::Abs => if a == i64::MIN { i64::MIN } else if a < 0 { (-a) as i64 } else { a },
        UnOp::OnePlus => i64_specs::wrapping_add(a, 1),
        UnOp::OneMinus => i64_specs::wrapping_sub(a, 1),
        UnOp::TwoStar => i64_specs::wrapping_mul(a, 2),
        UnOp::TwoSlash => trunc_div(a as int, 2) as i64,
        UnOp::ZeroEqual => flag(a == 0),
        UnOp::ZeroLess => flag(a < 0),
        UnOp::ZeroGreater => flag(a > 0),
        UnOp::Invert => !a,
    }
}

/// The message printed by most words on stack underflow (with a newline).
pub open spec fn underflow_line() -> Seq<char> {
    "Stack underflow!\n"@
}

/// Pop two values `b` (top) then `a`.
pub open spec fn s_pop2(s: MState) -> (Result<(Option<i64>, Option<i64>), Seq<char>>, MState) {
    let (rb, s1) = s_pop(s);
    match rb {
        Err(e) => (Err(e), s1),
        Ok(ob) => {
            let (ra, s2) = s_pop(s1);
            match ra {
                Err(e) => (Err(e), s2),
                Ok(oa) => (Ok((ob, oa)), s2),
            }
        },
    }
}

/// Pop three values `c` (top), `b`, then `a`.
pub open spec fn s_pop3(s: MState) -> (Result<(Option<i64>, Option<i64>, Option<i64>), Seq<char>>, MState) {
    let (r2, s2) = s_pop2(s);
    match r2 {
        Err(e) => (Err(e), s2),
        Ok((oc, ob)) => {
            let (ra, s3) = s_pop(s2);
            match ra {
                Err(e) => (Err(e), s3),
                Ok(oa) => (Ok((oc, ob, oa)), s3),
            }
        },
    }
}

/// Push two values in order.
pub open spec fn s_push2(s: MState, a: i64, b: i64) -> (MState, Outcome) {
    let (s1, r1) = s_push(s, a);
    if r1 is Err { (s1, r1) } else { s_push(s1, b) }
}

/// Push three values in order.
pub open spec fn s_push3(s: MState, a: i64, b: i64, c: i64) -> (MState, Outcome) {
    let (s1, r1) = s_push2(s, a, b);
    if r1 is Err { (s1, r1) } else { s_push(s1, c) }
}

/// `( a b -- f(a, b) )`.
pub open spec fn step_binary(op: BinOp, s: MState) -> (MState, Outcome) {
    let (r, s2) = s_pop2(s);
    match r {
        Err(e) => (s2, Err(e)),
        Ok((Some(b), Some(a))) => s_push(s2, binop(op, a, b)),
        Ok(_) => (s_print(s2, underflow_line()), Ok(())),
    }
}

/// `( a -- f(a) )`.
pub open spec fn step_unary(op: UnOp, s: MState) -> (MState, Outcome) {
    let (r, s1) = s_pop(s);
    match r {
        Err(e) => (s1, Err(e)),
        Ok(Some(a)) => s_push(s1, unop(op, a)),
        Ok(None) => (s_print(s1, underflow_line()), Ok(())),
    }
}

/// `/`, `MOD` and `/MOD`: on a zero divisor print a message and restore both operands.
pub open spec fn step_division(p: Primitive, s: MState) -> (MState, Outcome) {
    let (r, s2) = s_pop2(s);
    match r {
        Err(e) => (s2, Err(e)),
        Ok((Some(b), Some(a))) => if b == 0 {
            s_push2(s_print(s2, "Division by zero!"@), a, b)
        } else {
            match p {
                Primitive::Divide => s_push(s2, cell_div(a, b)),
                Primitive::Mod => s_push(s2, cell_rem(a, b)),
                _ => s_push2(s2, cell_rem(a, b), cell_div(a, b)),
            }
        },
        Ok(_) => (s_print(s2, if p == Primitive::Mod { underflow_line() } else { "Stack underflow!"@ }),
            Ok(())),
    }
}

/// `*/ ( n1 n2 n3 -- n1*n2/n3 )` with an exact intermediate product.
pub open spec fn step_star_slash(s: MState) -> (MState, Outcome) {
    let (r, s3) = s_pop3(s);
    match r {
        Err(e) => (s3, Err(e)),
        Ok((Some(n3), Some(n2), Some(n1))) => if n3 == 0 {
            s_push3(s_print(s3, "Division by zero!\n"@), n1, n2, n3)
        } else {
            s_push(s3, trunc_div(n1 * n2, n3 as int) as i64)
        },
        Ok(_) => (s_print(s3, underflow_line()), Ok(())),
    }
}

/// Spaces.
pub open spec fn spaces(n: nat) -> Seq<char> {
    Seq::new(n, |i: int| ' ')
}

/// Largest field width accepted by `.R` and `U.R`.
pub const MAX_FIELD_WIDTH: u64 = 0x1000000;

/// `text` right-justified in a field of `width` characters, followed by a space.
pub open spec fn justified(text: Seq<char>, width: int) -> Seq<char> {
    if text.len() < width { spaces((width - text.len()) as nat) + text + " "@ } else { text + " "@ }
}

/// `.R` and `U.R`: `( n width -- )`.
pub open spec fn step_dot_r(unsigned: bool, s: MState) -> (MState, Outcome) {
    let (r, s2) = s_pop2(s);
    match r {
        Err(e) => (s2, Err(e)),
        Ok((Some(width), Some(value))) => {
            let text = if unsigned { spec_decimal_nat((value as u64) as nat) } else {
                spec_decimal_int(value as int) };
            let w = (width as u64) as int;
            if w > MAX_FIELD_WIDTH && text.len() < w {
                (s2, Err("Field width too large"@))
            } else {
                (s_print(s2, justified(text, w)), Ok(()))
            }
        },
        Ok(_) => (s_print(s2, underflow_line()), Ok(())),
    }
}

/// Text of the first `k` cells of memory, each followed by a space.
pub open spec fn cells_text(mem: Seq<u8>, k: nat) -> Seq<char>
    decreases k,
{
    if k == 0 {
        Seq::empty()
    } else {
        cells_text(mem, (k - 1) as nat) + spec_decimal_int(le_decode(mem, 8 * (k - 1)) as int) + " "@
    }
}

/// `.S`: print the depth and the stack contents (those inside memory), bottom first.
pub open spec fn step_dot_s(s: MState) -> MState {
    let depth = s.sp / 8;
    let shown: int = if depth < MEMORY_SIZE / 8 { depth } else { (MEMORY_SIZE / 8) as int };
    s_print(s, "<"@ + spec_decimal_nat(depth as nat) + "> "@ + cells_text(s.mem, shown as nat))
}

/// `EMIT ( c -- )`.
pub open spec fn step_emit(s: MState) -> (MState, Outcome) {
    let (r, s1) = s_pop(s);
    match r {
        Err(e) => (s1, Err(e)),
        Ok(Some(v)) => {
            let u = v as u32;
            if is_scalar(u) {
                (s_print(s1, seq![u as char]), Ok(()))
            } else {
                (s_print(s1, "Invalid character code: "@ + spec_decimal_int(v as int) + "\n"@), Ok(()))
            }
        },
        Ok(None) => (s_print(s1, underflow_line()), Ok(())),
    }
}

/// Characters of the bytes `mem[a..b]`.
pub open spec fn bytes_text(mem: Seq<u8>, a: int, b: int) -> Seq<char> {
    Seq::new((b - a) as nat, |i: int| mem[a + i] as char)
}

/// `TYPE ( addr len -- )`: print `len` bytes from `addr`; stops with a message at the
/// end of memory.
pub open spec fn step_type(s: MState) -> (MState, Outcome) {
    let (r, s2) = s_pop2(s);
    match r {
        Err(e) => (s2, Err(e)),
        Ok((Some(len), Some(addr))) => if len < 0 {
            (s_eprint(s2, "TYPE: negative length\n"@), Ok(()))
        } else {
            let a = (addr as usize) as int;
            if a >= MEMORY_SIZE {
                if (len as usize) == 0 { (s2, Ok(())) } else {
                    (s_eprint(s2, "\nTYPE: "@ + fetch_byte_error(a) + "\n"@), Ok(()))
                }
            } else if (len as usize) <= MEMORY_SIZE - a {
                (s_print(s2, bytes_text(s2.mem, a, a + (len as usize))), Ok(()))
            } else {
                (s_eprint(s_print(s2, bytes_text(s2.mem, a, MEMORY_SIZE as int)),
                    "\nTYPE: "@ + fetch_byte_error(MEMORY_SIZE as int) + "\n"@), Ok(()))
            }
        },
        Ok(_) => (s_eprint(s2, "TYPE: stack underflow\n"@), Ok(())),
    }
}

/// `KEY ( -- c )`: the next input byte, or 0 at the end of input.
pub open spec fn step_key(s: MState) -> (MState, Outcome) {
    if 0 <= s.pos < s.input.len() {
        s_push(MState { pos: s.pos + 1, ..s }, s.input[s.pos] as i64)
    } else {
        s_push(s, 0)
    }
}

/// `PICK ( ... n -- ... xn )`.
pub open spec fn step_pick(s: MState) -> (MState, Outcome) {
    let (r, s1) = s_pop(s);
    match r {
        Err(e) => (s1, Err(e)),
        Ok(Some(n)) => {
            let index = (n as usize) as int;
            let depth = s1.sp / 8;
            if index < depth {
                let addr = s1.sp - (index + 1) * 8;
                if cell_in_bounds(addr, MEMORY_SIZE as int) {
                    s_push(s1, le_decode(s1.mem, addr))
                } else {
                    (s_print(s1, "Memory fetch error in PICK!\n"@), Ok(()))
                }
            } else {
                (s_print(s1, "Stack underflow in PICK!\n"@), Ok(()))
            }
        },
        Ok(None) => (s_print(s1, "Stack underflow in PICK!\n"@), Ok(())),
    }
}

/// `C!`'s effect on memory.
pub open spec fn store_byte_mem(mem: Seq<u8>, addr: int, v: i64) -> Seq<u8> {
    mem.update(addr, (v & 0xff) as u8)
}

/// `!`, `C!`: `( x addr -- )`.
pub open spec fn step_store(byte: bool, s: MState) -> (MState, Outcome) {
    let (r, s2) = s_pop2(s);
    match r {
        Err(e) => (s2, Err(e)),
        Ok((Some(addr), Some(v))) => {
            let a = (addr as usize) as int;
            if byte {
                if a < MEMORY_SIZE {
                    (MState { mem: store_byte_mem(s2.mem, a, v), ..s2 }, Ok(()))
                } else {
                    (s_print(s2, store_byte_error(a) + "\n"@), Ok(()))
                }
            } else {
                if cell_in_bounds(a, MEMORY_SIZE as int) {
                    (MState { mem: write_cell(s2.mem, a, v), ..s2 }, Ok(()))
                } else {
                    (s_print(s2, store_error(a) + "\n"@), Ok(()))
                }
            }
        },
        Ok(_) => (s_print(s2, underflow_line()), Ok(())),
    }
}

/// `@`, `C@`: `( addr -- x )`.
pub open spec fn step_fetch(byte: bool, s: MState) -> (MState, Outcome) {
    let (r, s1) = s_pop(s);
    match r {
        Err(e) => (s1, Err(e)),
        Ok(Some(addr)) => {
            let a = (addr as usize) as int;
            if byte {
                if a < MEMORY_SIZE {
                    s_push(s1, s1.mem[a] as i64)
                } else {
                    (s_print(s1, fetch_byte_error(a) + "\n"@), Ok(()))
                }
            } else {
                if cell_in_bounds(a, MEMORY_SIZE as int) {
                    s_push(s1, le_decode(s1.mem, a))
                } else {
                    (s_print(s1, fetch_error(a) + "\n"@), Ok(()))
                }
            }
        },
        Ok(None) => (s_print(s1, underflow_line()), Ok(())),
    }
}

/// `ALLOT ( n -- )`'s effect when `n` is available.
pub open spec fn allot_state(s: MState, n: i64) -> MState {
    if 0 <= s.dp + n < MEMORY_SIZE {
        MState { dp: s.dp + n, mem: write_cell(s.mem, crate::memory::DP_ADDR as int, (s.dp + n) as i64), ..s }
    } else {
        s_print(s, "Dictionary overflow"@ + "\n"@)
    }
}

/// `ALLOT ( n -- )`.
pub open spec fn step_allot(s: MState) -> (MState, Outcome) {
    let (r, s1) = s_pop(s);
    match r {
        Err(e) => (s1, Err(e)),
        Ok(Some(n)) => (allot_state(s1, n), Ok(())),
        Ok(None) => (s_print(s1, underflow_line()), Ok(())),
    }
}

/// `, ( n -- )`: store at HERE and advance HERE one cell.
pub open spec fn step_comma(s: MState) -> (MState, Outcome) {
    let (r, s1) = s_pop(s);
    match r {
        Err(e) => (s1, Err(e)),
        Ok(Some(n)) => if cell_in_bounds(s1.dp, MEMORY_SIZE as int) {
            (allot_state(MState { mem: write_cell(s1.mem, s1.dp, n), ..s1 }, 8), Ok(()))
        } else {
            (s_print(s1, store_error(s1.dp) + "\n"@), Ok(()))
        },
        Ok(None) => (s_print(s1, underflow_line()), Ok(())),
    }
}

/// `>R`, `R>`, `R@`.
pub open spec fn step_return(p: Primitive, s: MState) -> (MState, Outcome) {
    if p == Primitive::ToR {
        let (r, s1) = s_pop(s);
        match r {
            Err(e) => (s1, Err(e)),
            Ok(Some(n)) => s_rpush(s1, n),
            Ok(None) => (s_print(s1, underflow_line()), Ok(())),
        }
    } else {
        let (r, s1) = if p == Primitive::RFrom { s_rpop(s) } else { (s_rpop(s).0, s) };
        match r {
            Err(e) => (s1, Err(e)),
            Ok(Some(n)) => s_push(s1, n),
            Ok(None) => (s_print(s1, "Return stack underflow!\n"@), Ok(())),
        }
    }
}

/// `SP!`, `RP!`: `( addr -- )`.
pub open spec fn step_set_pointer(ret: bool, s: MState) -> (MState, Outcome) {
    let (r, s1) = s_pop(s);
    match r {
        Err(e) => (s1, Err(e)),
        Ok(Some(a)) => if ret {
            (MState { rp: (a as usize) as int, ..s1 }, Ok(()))
        } else {
            (MState { sp: (a as usize) as int, ..s1 }, Ok(()))
        },
        Ok(None) => (s_print(s1, underflow_line()), Ok(())),
    }
}

/// `I` and `J`.
pub open spec fn step_loop_index(outer: bool, s: MState) -> (MState, Outcome) {
    let n = s.loops.len();
    if !outer {
        if n > 0 { s_push(s, s.loops[n - 1].0) } else { (s_print(s, "Not in a loop!\n"@), Ok(())) }
    } else {
        if n >= 2 { s_push(s, s.loops[n - 2].0) } else { (s_print(s, "Not in a nested loop!\n"@), Ok(())) }
    }
}

/// Memory after copying `count` bytes from `src` to `dst` one byte at a time, in
/// increasing address order.
pub open spec fn cmove_mem(mem: Seq<u8>, src: int, dst: int, count: nat) -> Seq<u8>
    decreases count,
{
    if count == 0 {
        mem
    } else {
        let m = cmove_mem(mem, src, dst, (count - 1) as nat);
        m.update(dst + count - 1, m[src + count - 1])
    }
}

/// `CMOVE ( src dst count -- )`: copy byte by byte; stops with a message at the end
/// of memory.
pub open spec fn step_cmove(s: MState) -> (MState, Outcome) {
    let (r, s3) = s_pop3(s);
    match r {
        Err(e) => (s3, Err(e)),
        Ok((Some(count), Some(dst), Some(src))) => {
            let c = (count as usize) as int;
            let sa = (src as usize) as int;
            let da = (dst as usize) as int;
            // number of bytes copied before an address leaves memory
            let room_src = if sa < MEMORY_SIZE { MEMORY_SIZE - sa } else { 0 };
            let room_dst = if da < MEMORY_SIZE { MEMORY_SIZE - da } else { 0 };
            if c <= room_src && c <= room_dst {
                (MState { mem: cmove_mem(s3.mem, sa, da, c as nat), ..s3 }, Ok(()))
            } else if room_src <= room_dst {
                (s_eprint(MState { mem: cmove_mem(s3.mem, sa, da, room_src as nat), ..s3 },
                    "CMOVE fetch error: "@ + fetch_byte_error(sa + room_src) + "\n"@), Ok(()))
            } else {
                (s_eprint(MState { mem: cmove_mem(s3.mem, sa, da, room_dst as nat), ..s3 },
                    "CMOVE store error: "@ + store_byte_error(da + room_dst) + "\n"@), Ok(()))
            }
        },
        Ok(_) => (s_eprint(s3, "CMOVE: Stack underflow\n"@), Ok(())),
    }
}

/// `THROW ( n -- n | )`: a non-zero code is reported and left on the stack.
pub open spec fn step_throw(s: MState) -> (MState, Outcome) {
    let (r, s1) = s_pop(s);
    match r {
        Err(e) => (s1, Err(e)),
        Ok(Some(n)) => if n != 0 {
            s_push(s_eprint(s1, "THROW: Throwing error code "@ + spec_decimal_int(n as int) + "\n"@), n)
        } else {
            (s1, Ok(()))
        },
        Ok(None) => (s_eprint(s1, "THROW: Stack underflow\n"@), Ok(())),
    }
}

/// Message of the BYE word, which ends the session.
pub open spec fn bye_msg() -> Seq<char> {
    "BYE"@
}

/// Whether a primitive runs Forth code itself (EVALUATE, CATCH).
pub open spec fn is_reentrant(p: Primitive) -> bool {
    p == Primitive::Evaluate || p == Primitive::Catch
}

/// The effect of a primitive that does not run Forth code.
pub open spec fn prim_step(p: Primitive, s: MState) -> (MState, Outcome) {
    match p {
        Primitive::Dot => {
            let (r, s1) = s_pop(s);
            match r {
                Err(e) => (s1, Err(e)),
                Ok(Some(v)) => (s_print(s1, spec_decimal_int(v as int) + " "@), Ok(())),
                Ok(None) => (s_print(s1, underflow_line()), Ok(())),
            }
        },
        Primitive::UDot => {
            let (r, s1) = s_pop(s);
            match r {
                Err(e) => (s1, Err(e)),
                Ok(Some(v)) => (s_print(s1, spec_decimal_nat((v as u64) as nat) + " "@), Ok(())),
                Ok(None) => (s_print(s1, underflow_line()), Ok(())),
            }
        },
        Primitive::DotS => (step_dot_s(s), Ok(())),
        Primitive::DotR => step_dot_r(false, s),
        Primitive::UDotR => step_dot_r(true, s),
        Primitive::Cr => (s_print(s, "\n"@), Ok(())),
        Primitive::Space => (s_print(s, " "@), Ok(())),
        Primitive::Emit => step_emit(s),
        Primitive::Type => step_type(s),
        Primitive::Key => step_key(s),
        Primitive::Add => step_binary(BinOp::Add, s),
        Primitive::Subtract => step_binary(BinOp::Sub, s),
        Primitive::Multiply => step_binary(BinOp::Mul, s),
        Primitive::Min => step_binary(BinOp::Min, s),
        Primitive::Max => step_binary(BinOp::Max, s),
        Primitive::LessThan => step_binary(BinOp::Lt, s),
        Primitive::GreaterThan => step_binary(BinOp::Gt, s),
        Primitive::Equal => step_binary(BinOp::Eq, s),
        Primitive::NotEqual => step_binary(BinOp::Ne, s),
        Primitive::LessEqual => step_binary(BinOp::Le, s),
        Primitive::GreaterEqual => step_binary(BinOp::Ge, s),
        Primitive::ULessThan => step_binary(BinOp::ULt, s),
        Primitive::And => step_binary(BinOp::And, s),
        Primitive::Or => step_binary(BinOp::Or, s),
        Primitive::Xor => step_binary(BinOp::Xor, s),
        Primitive::LShift => step_binary(BinOp::LShift, s),
        Primitive::RShift => step_binary(BinOp::RShift, s),
        Primitive::Negate => step_unary(UnOp::Negate, s),
        Primitive::Abs => step_unary(UnOp::Abs, s),
        Primitive::OnePlus => step_unary(UnOp::OnePlus, s),
        Primitive::OneMinus => step_unary(UnOp::OneMinus, s),
        Primitive::TwoStar => step_unary(UnOp::TwoStar, s),
        Primitive::TwoSlash => step_unary(UnOp::TwoSlash, s),
        Primitive::ZeroEqual => step_unary(UnOp::ZeroEqual, s),
        Primitive::ZeroLess => step_unary(UnOp::ZeroLess, s),
        Primitive::ZeroGreater => step_unary(UnOp::ZeroGreater, s),
        Primitive::Invert => step_unary(UnOp::Invert, s),
        Primitive::Divide | Primitive::Mod | Primitive::SlashMod => step_division(p, s),
        Primitive::StarSlash => step_star_slash(s),
        Primitive::Dup | Primitive::QuestionDup => {
            match s_peek(s) {
                Err(e) => (s, Err(e)),
                Ok(Some(v)) => if p == Primitive::QuestionDup && v == 0 { (s, Ok(())) } else { s_push(s, v) },
                Ok(None) => (s_print(s, underflow_line()), Ok(())),
            }
        },
        Primitive::Drop => {
            let (r, s1) = s_pop(s);
            match r {
                Err(e) => (s1, Err(e)),
                Ok(Some(_)) => (s1, Ok(())),
                Ok(None) => (s_print(s1, underflow_line()), Ok(())),
            }
        },
        Primitive::Swap | Primitive::Over => {
            let (r, s2) = s_pop2(s);
            match r {
                Err(e) => (s2, Err(e)),
                Ok((Some(a), Some(b))) => if p == Primitive::Swap { s_push2(s2, a, b) } else {
                    s_push3(s2, b, a, b) },
                Ok(_) => (s_print(s2, underflow_line()), Ok(())),
            }
        },
        Primitive::Rot => {
            let (r, s3) = s_pop3(s);
            match r {
                Err(e) => (s3, Err(e)),
                Ok((Some(x3), Some(x2), Some(x1))) => s_push3(s3, x2, x3, x1),
                Ok(_) => (s_print(s3, underflow_line()), Ok(())),
            }
        },
        Primitive::Pick => step_pick(s),
        Primitive::Depth => s_push(s, (s.sp / 8) as i64),
        Primitive::ToR | Primitive::RFrom | Primitive::RFetch => step_return(p, s),
        Primitive::Store => step_store(false, s),
        Primitive::CStore => step_store(true, s),
        Primitive::Fetch => step_fetch(false, s),
        Primitive::CFetch => step_fetch(true, s),
        Primitive::SpFetch => s_push(s, s.sp as i64),
        Primitive::RpFetch => s_push(s, s.rp as i64),
        Primitive::SpStore => step_set_pointer(false, s),
        Primitive::RpStore => step_set_pointer(true, s),
        Primitive::Here => s_push(s, s.dp as i64),
        Primitive::Base => s_push(s, BASE_ADDR as i64),
        Primitive::Allot => step_allot(s),
        Primitive::Comma => step_comma(s),
        Primitive::LoopI => step_loop_index(false, s),
        Primitive::LoopJ => step_loop_index(true, s),
        Primitive::AstType => value_word_step("AST-TYPE"@, s, |h: i64| type_answer(s.asts, h)),
        Primitive::AstGetNumber => value_word_step("AST-GET-NUMBER"@, s, |h: i64| number_answer(s.asts, h)),
        Primitive::AstGetWord => text_word_step("AST-GET-WORD"@, s, 0),
        Primitive::AstGetString => text_word_step("AST-GET-STRING"@, s, 2),
        Primitive::AstSeqLength => value_word_step("AST-SEQ-LENGTH"@, s, |h: i64| length_answer(s.asts, h)),
        Primitive::AstSeqChild => child_word_step("AST-SEQ-CHILD"@, s, 0, true),
        Primitive::AstIfThen => child_word_step("AST-IF-THEN"@, s, 1, false),
        Primitive::AstIfElse => child_word_step("AST-IF-ELSE"@, s, 2, false),
        Primitive::AstLoopBody => child_word_step("AST-LOOP-BODY"@, s, 3, false),
        Primitive::AstLoopCondition => child_word_step("AST-LOOP-CONDITION"@, s, 4, false),
        Primitive::AstLoopIncrement => value_word_step("AST-LOOP-INCREMENT"@, s,
            |h: i64| increment_answer(s.asts, h)),
        Primitive::TestAstCreate => test_create_step(s),
        Primitive::Cmove => step_cmove(s),
        Primitive::Throw => step_throw(s),
        Primitive::Bye => (s_print(s, "\nGoodbye!\n"@), Err(bye_msg())),
        Primitive::Evaluate | Primitive::Catch => (s, Ok(())),
    }
}


/// The exact result of a pop as an abstract result.
pub open spec fn popped<T>(r: Result<T, String>) -> Result<T, Seq<char>> {
    match r {
        Ok(v) => Ok(v),
        Err(e) => Err(e@),
    }
}

pub(crate) fn pop2(m: &mut Machine) -> (r: Result<(Option<i64>, Option<i64>), String>)
    requires
        old(m).wf(),
    ensures
        final(m).wf(),
        final(m).steps == old(m).steps,
        (popped(r), final(m).view()) == s_pop2(old(m).view()),
{
    let ob = match m.pop_value() {
        Ok(v) => v,
        Err(e) => return Err(e),
    };
    let oa = match m.pop_value() {
        Ok(v) => v,
        Err(e) => return Err(e),
    };
    Ok((ob, oa))
}

fn pop3(m: &mut Machine) -> (r: Result<(Option<i64>, Option<i64>, Option<i64>), String>)
    requires
        old(m).wf(),
    ensures
        final(m).wf(),
        final(m).steps == old(m).steps,
        (popped(r), final(m).view()) == s_pop3(old(m).view()),
{
    let (oc, ob) = match pop2(m) {
        Ok(v) => v,
        Err(e) => return Err(e),
    };
    let oa = match m.pop_value() {
        Ok(v) => v,
        Err(e) => return Err(e),
    };
    Ok((oc, ob, oa))
}

pub(crate) fn push2(m: &mut Machine, a: i64, b: i64) -> (r: Result<(), String>)
    requires
        old(m).wf(),
    ensures
        final(m).wf(),
        final(m).steps == old(m).steps,
        (final(m).view(), outcome(r)) == s_push2(old(m).view(), a, b),
{
    match m.push_value(a) {
        Ok(()) => m.push_value(b),
        Err(e) => Err(e),
    }
}

fn push3(m: &mut Machine, a: i64, b: i64, c: i64) -> (r: Result<(), String>)
    requires
        old(m).wf(),
    ensures
        final(m).wf(),
        final(m).steps == old(m).steps,
        (final(m).view(), outcome(r)) == s_push3(old(m).view(), a, b, c),
{
    match push2(m, a, b) {
        Ok(()) => m.push_value(c),
        Err(e) => Err(e),
    }
}

fn binop_exec(op: BinOp, a: i64, b: i64) -> (r: i64)
    ensures
        r == binop(op, a, b),
{
    match op {
        BinOp::Add => a.wrapping_add(b),
        BinOp::Sub => a.wrapping_sub(b),
        BinOp::Mul => a.wrapping_mul(b),
        BinOp::Min => if a < b { a } else { b },
        BinOp::Max => if a > b { a } else { b },
        BinOp::Lt => if a < b { -1 } else { 0 },
        BinOp::Gt => if a > b { -1 } else { 0 },
        BinOp::Eq => if a == b { -1 } else { 0 },
        BinOp::Ne => if a != b { -1 } else { 0 },
        BinOp::Le => if a <= b { -1 } else { 0 },
        BinOp::Ge => if a >= b { -1 } else { 0 },
        BinOp::ULt => if (a as u64) < (b as u64) { -1 } else { 0 },
        BinOp::And => a & b,
        BinOp::Or => a | b,
        BinOp::Xor => a ^ b,
        BinOp::LShift => a.wrapping_shl(b as u32),
        BinOp::RShift => a.wrapping_shr(b as u32),
    }
}

pub(crate) proof fn lemma_trunc_div_range(x: int, d: int)
    requires
        d != 0,
        i64::MIN <= x <= i64::MAX,
        !(x == i64::MIN && d == -1),
    ensures
        i64::MIN <= trunc_div(x, d) <= i64::MAX,
{
    if x > 0 && d > 0 {
        assert(0 <= x / d <= x) by (nonlinear_arith) requires x > 0, d > 0;
    } else if x < 0 && d < 0 {
        if d == -1 {
            assert(d * -1 == 1);
            assert((x * -1) / 1 == x * -1) by (nonlinear_arith);
        } else {
            assert(0 <= (x * -1) / (d * -1) <= (x * -1) / 2) by (nonlinear_arith)
                requires x < 0, d < -1;
        }
    } else if x < 0 {
        assert(0 <= (x * -1) / d <= x * -1) by (nonlinear_arith) requires x < 0, d > 0;
    } else if x > 0 {
        assert(0 <= x / (d * -1) <= x) by (nonlinear_arith) requires x > 0, d < 0;
    }
}

fn cell_div_exec(a: i64, b: i64) -> (r: i64)
    requires
        b != 0,
    ensures
        r == cell_div(a, b),
{
    proof {
        if !(a == i64::MIN && b == -1) {
            lemma_trunc_div_range(a as int, b as int);
        }
    }
    match a.checked_div(b) {
        Some(q) => q,
        None => i64::MIN,
    }
}

fn cell_rem_exec(a: i64, b: i64) -> (r: i64)
    requires
        b != 0,
    ensures
        r == cell_rem(a, b),
{
    match a.checked_rem(b) {
        Some(q) => q,
        None => 0,
    }
}

fn unop_exec(op: UnOp, a: i64) -> (r: i64)
    ensures
        r == unop(op, a),
{
    match op {
        UnOp::Negate => if a == i64::MIN { i64::MIN } else { -a },
        UnOp::Abs => if a == i64::MIN { i64::MIN } else if a < 0 { -a } else { a },
        UnOp::OnePlus => a.wrapping_add(1),
        UnOp::OneMinus => a.wrapping_sub(1),
        UnOp::TwoStar => a.wrapping_mul(2),
        UnOp::TwoSlash => cell_div_exec(a, 2),
        UnOp::ZeroEqual => if a == 0 { -1 } else { 0 },
        UnOp::ZeroLess => if a < 0 { -1 } else { 0 },
        UnOp::ZeroGreater => if a > 0 { -1 } else { 0 },
        UnOp::Invert => !a,
    }
}

pub(crate) fn print_line(m: &mut Machine, e: &String)
    ensures
        final(m).view() == s_print(old(m).view(), e@ + "\n"@),
        final(m).steps == old(m).steps,
        final(m).memory == old(m).memory,
{
    let ghost s0 = m.view();
    m.print_str(e.as_str());
    m.print_str("\n");
    assert(m.view().out =~= s0.out + (e@ + "\n"@));
}

fn exec_binary(op: BinOp, m: &mut Machine) -> (r: Result<(), String>)
    requires
        old(m).wf(),
    ensures
        final(m).wf(),
        final(m).steps == old(m).steps,
        (final(m).view(), outcome(r)) == step_binary(op, old(m).view()),
{
    match pop2(m) {
        Err(e) => Err(e),
        Ok((Some(b), Some(a))) => m.push_value(binop_exec(op, a, b)),
        Ok(_) => {
            m.print_str("Stack underflow!\n");
            Ok(())
        },
    }
}

fn exec_unary(op: UnOp, m: &mut Machine) -> (r: Result<(), String>)
    requires
        old(m).wf(),
    ensures
        final(m).wf(),
        final(m).steps == old(m).steps,
        (final(m).view(), outcome(r)) == step_unary(op, old(m).view()),
{
    match m.pop_value() {
        Err(e) => Err(e),
        Ok(Some(a)) => m.push_value(unop_exec(op, a)),
        Ok(None) => {
            m.print_str("Stack underflow!\n");
            Ok(())
        },
    }
}


fn exec_division(p: Primitive, m: &mut Machine) -> (r: Result<(), String>)
    requires
        old(m).wf(),
        p == Primitive::Divide || p == Primitive::Mod || p == Primitive::SlashMod,
    ensures
        final(m).wf(),
        final(m).steps == old(m).steps,
        (final(m).view(), outcome(r)) == step_division(p, old(m).view()),
{
    match pop2(m) {
        Err(e) => Err(e),
        Ok((Some(b), Some(a))) => {
            if b == 0 {
                m.print_str("Division by zero!");
                push2(m, a, b)
            } else {
                match p {
                    Primitive::Divide => m.push_value(cell_div_exec(a, b)),
                    Primitive::Mod => m.push_value(cell_rem_exec(a, b)),
                    _ => push2(m, cell_rem_exec(a, b), cell_div_exec(a, b)),
                }
            }
        },
        Ok(_) => {
            match p {
                Primitive::Mod => m.print_str("Stack underflow!\n"),
                _ => m.print_str("Stack underflow!"),
            }
            Ok(())
        },
    }
}

fn exec_star_slash(m: &mut Machine) -> (r: Result<(), String>)
    requires
        old(m).wf(),
    ensures
        final(m).wf(),
        final(m).steps == old(m).steps,
        (final(m).view(), outcome(r)) == step_star_slash(old(m).view()),
{
    match pop3(m) {
        Err(e) => Err(e),
        Ok((Some(n3), Some(n2), Some(n1))) => {
            if n3 == 0 {
                m.print_str("Division by zero!\n");
                push3(m, n1, n2, n3)
            } else {
                proof {
                    assert(-0x4000_0000_0000_0000_0000_0000_0000_0000 <= (n1 as int) * (n2 as int)
                        <= 0x4000_0000_0000_0000_0000_0000_0000_0000) by (nonlinear_arith)
                        requires
                            i64::MIN <= n1 <= i64::MAX,
                            i64::MIN <= n2 <= i64::MAX;
                }
                let p: i128 = (n1 as i128) * (n2 as i128);
                proof {
                    lemma_trunc_div_range_wide(p as int, n3 as int);
                }
                let q: i128 = match p.checked_div(n3 as i128) {
                    Some(q) => q,
                    None => 0,
                };
                m.push_value(#[verifier::truncate] (q as i64))
            }
        },
        Ok(_) => {
            m.print_str("Stack underflow!\n");
            Ok(())
        },
    }
}

proof fn lemma_trunc_div_range_wide(x: int, d: int)
    requires
        d != 0,
        -0x4000_0000_0000_0000_0000_0000_0000_0000 <= x <= 0x4000_0000_0000_0000_0000_0000_0000_0000,
    ensures
        -0x4000_0000_0000_0000_0000_0000_0000_0000 <= trunc_div(x, d)
            <= 0x4000_0000_0000_0000_0000_0000_0000_0000,
{
    if x > 0 && d > 0 {
        assert(0 <= x / d <= x) by (nonlinear_arith) requires x > 0, d > 0;
    } else if x < 0 && d < 0 {
        assert(0 <= (x * -1) / (d * -1) <= x * -1) by (nonlinear_arith) requires x < 0, d < 0;
    } else if x < 0 {
        assert(0 <= (x * -1) / d <= x * -1) by (nonlinear_arith) requires x < 0, d > 0;
    } else if x > 0 {
        assert(0 <= x / (d * -1) <= x) by (nonlinear_arith) requires x > 0, d < 0;
    }
}

fn print_spaces(m: &mut Machine, n: u64)
    requires
        n <= MAX_FIELD_WIDTH,
    ensures
        final(m).view() == s_print(old(m).view(), spaces(n as nat)),
        final(m).steps == old(m).steps,
        final(m).memory == old(m).memory,
{
    let mut k: u64 = 0;
    while k < n
        invariant
            k <= n,
            m.view() == s_print(old(m).view(), spaces(k as nat)),
            m.steps == old(m).steps,
            m.memory == old(m).memory,
        decreases n - k,
    {
        m.output.push(' ');
        k = k + 1;
        assert(spaces(k as nat) =~= spaces((k - 1) as nat).push(' '));
    }
}

fn exec_dot_r(unsigned: bool, m: &mut Machine) -> (r: Result<(), String>)
    requires
        old(m).wf(),
    ensures
        final(m).wf(),
        final(m).steps == old(m).steps,
        (final(m).view(), outcome(r)) == step_dot_r(unsigned, old(m).view()),
{
    match pop2(m) {
        Err(e) => Err(e),
        Ok((Some(width), Some(value))) => {
            let text = if unsigned { decimal_u64(value as u64) } else { decimal_i64(value) };
            let w: u64 = width as u64;
            let len: u64 = text.len() as u64;
            if w > MAX_FIELD_WIDTH && len < w {
                return Err("Field width too large".to_string());
            }
            let ghost s0 = m.view();
            if len < w {
                print_spaces(m, w - len);
            }
            m.print_chars(&text);
            m.print_str(" ");
            assert(m.view().out =~= s0.out + justified(text@, w as int));
            Ok(())
        },
        Ok(_) => {
            m.print_str("Stack underflow!\n");
            Ok(())
        },
    }
}

fn exec_dot_s(m: &mut Machine)
    requires
        old(m).wf(),
    ensures
        final(m).wf(),
        final(m).steps == old(m).steps,
        final(m).view() == step_dot_s(old(m).view()),
{
    let depth = m.stack.depth();
    let ghost s0 = m.view();
    m.print_str("<");
    let d = decimal_u64(depth as u64);
    m.print_chars(&d);
    m.print_str("> ");
    let shown = if depth < MEMORY_SIZE / 8 { depth } else { MEMORY_SIZE / 8 };
    let mut i: usize = 0;
    assert(m.view().out =~= s0.out + ("<"@ + spec_decimal_nat(depth as nat) + "> "@
        + cells_text(s0.mem, 0)));
    while i < shown
        invariant
            i <= shown,
            shown <= MEMORY_SIZE / 8,
            m.wf(),
            m.memory == old(m).memory,
            m.steps == old(m).steps,
            m.view() == s_print(s0, "<"@ + spec_decimal_nat(depth as nat) + "> "@
                + cells_text(s0.mem, i as nat)),
        decreases shown - i,
    {
        let ghost before = m.view().out;
        match m.memory.fetch(i * 8) {
            Ok(v) => {
                assert(v == le_decode(s0.mem, 8 * i));
                let t = decimal_i64(v);
                m.print_chars(&t);
                m.print_str(" ");
                assert(m.view().out =~= before + spec_decimal_int(v as int) + " "@);
            },
            Err(_) => {},
        }
        i = i + 1;
        assert(cells_text(s0.mem, i as nat) == cells_text(s0.mem, (i - 1) as nat)
            + spec_decimal_int(le_decode(s0.mem, 8 * (i - 1)) as int) + " "@);
        assert(m.view().out =~= s0.out + ("<"@ + spec_decimal_nat(depth as nat) + "> "@
            + cells_text(s0.mem, i as nat)));
    }
    assert(m.view() == step_dot_s(old(m).view()));
}

fn exec_emit(m: &mut Machine) -> (r: Result<(), String>)
    requires
        old(m).wf(),
    ensures
        final(m).wf(),
        final(m).steps == old(m).steps,
        (final(m).view(), outcome(r)) == step_emit(old(m).view()),
{
    match m.pop_value() {
        Err(e) => Err(e),
        Ok(Some(v)) => {
            let u: u32 = #[verifier::truncate] (v as u32);
            match char_from_u32(u) {
                Some(c) => {
                    m.output.push(c);
                    assert(m.output@ =~= old(m).output@ + seq![u as char]);
                },
                None => {
                    m.print_str("Invalid character code: ");
                    let t = decimal_i64(v);
                    m.print_chars(&t);
                    m.print_str("\n");
                    assert(m.output@ =~= old(m).output@ + ("Invalid character code: "@
                        + spec_decimal_int(v as int) + "\n"@));
                },
            }
            Ok(())
        },
        Ok(None) => {
            m.print_str("Stack underflow!\n");
            Ok(())
        },
    }
}

fn type_error(m: &mut Machine, addr: usize)
    ensures
        final(m).view() == s_eprint(old(m).view(), "\nTYPE: "@ + fetch_byte_error(addr as int) + "\n"@),
        final(m).steps == old(m).steps,
        final(m).memory == old(m).memory,
{
    let ghost s0 = m.view();
    m.eprint_str("\nTYPE: ");
    let msg = crate::memory::byte_fetch_message(addr);
    m.eprint_chars(&msg);
    m.eprint_str("\n");
    assert(m.view().err =~= s0.err + ("\nTYPE: "@ + fetch_byte_error(addr as int) + "\n"@));
}

fn exec_type(m: &mut Machine) -> (r: Result<(), String>)
    requires
        old(m).wf(),
    ensures
        final(m).wf(),
        final(m).steps == old(m).steps,
        (final(m).view(), outcome(r)) == step_type(old(m).view()),
{
    match pop2(m) {
        Err(e) => Err(e),
        Ok((Some(len), Some(addr))) => {
            if len < 0 {
                m.eprint_str("TYPE: negative length\n");
                return Ok(());
            }
            let a: usize = #[verifier::truncate] (addr as usize);
            let n: usize = #[verifier::truncate] (len as usize);
            let ghost s2 = m.view();
            if a >= MEMORY_SIZE {
                if n > 0 {
                    type_error(m, a);
                }
                return Ok(());
            }
            let k: usize = if n <= MEMORY_SIZE - a { n } else { MEMORY_SIZE - a };
            let mut i: usize = 0;
            assert(m.view().out =~= s2.out + bytes_text(s2.mem, a as int, a as int));
            while i < k
                invariant
                    i <= k,
                    k <= MEMORY_SIZE - a,
                    m.wf(),
                    m.steps == old(m).steps,
                    m.view() == s_print(s2, bytes_text(s2.mem, a as int, a + i)),
                decreases k - i,
            {
                let b = m.memory.fetch_byte(a + i);
                match b {
                    Ok(v) => {
                        let c: u8 = v as u8;
                        m.output.push(c as char);
                    },
                    Err(_) => {},
                }
                i = i + 1;
                assert(m.view().out =~= s2.out + bytes_text(s2.mem, a as int, a + i));
            }
            if n > MEMORY_SIZE - a {
                type_error(m, MEMORY_SIZE);
            }
            Ok(())
        },
        Ok(_) => {
            m.eprint_str("TYPE: stack underflow\n");
            Ok(())
        },
    }
}

fn exec_key(m: &mut Machine) -> (r: Result<(), String>)
    requires
        old(m).wf(),
    ensures
        final(m).wf(),
        final(m).steps == old(m).steps,
        (final(m).view(), outcome(r)) == step_key(old(m).view()),
{
    if m.input_pos < m.input.len() {
        let b = m.input[m.input_pos];
        m.input_pos = m.input_pos + 1;
        m.push_value(b as i64)
    } else {
        m.push_value(0)
    }
}

fn exec_pick(m: &mut Machine) -> (r: Result<(), String>)
    requires
        old(m).wf(),
    ensures
        final(m).wf(),
        final(m).steps == old(m).steps,
        (final(m).view(), outcome(r)) == step_pick(old(m).view()),
{
    match m.pop_value() {
        Err(e) => Err(e),
        Ok(Some(n)) => {
            let depth = m.stack.depth();
            let index: usize = n as usize;
            if index < depth {
                let sp = m.stack.get_sp();
                let addr = sp - (index + 1) * 8;
                match m.memory.fetch(addr) {
                    Ok(v) => m.push_value(v),
                    Err(_) => {
                        m.print_str("Memory fetch error in PICK!\n");
                        Ok(())
                    },
                }
            } else {
                m.print_str("Stack underflow in PICK!\n");
                Ok(())
            }
        },
        Ok(None) => {
            m.print_str("Stack underflow in PICK!\n");
            Ok(())
        },
    }
}

fn exec_store(byte: bool, m: &mut Machine) -> (r: Result<(), String>)
    requires
        old(m).wf(),
    ensures
        final(m).wf(),
        final(m).steps == old(m).steps,
        (final(m).view(), outcome(r)) == step_store(byte, old(m).view()),
{
    match pop2(m) {
        Err(e) => Err(e),
        Ok((Some(addr), Some(v))) => {
            let a: usize = addr as usize;
            let res = if byte { m.memory.store_byte(a, v) } else { m.memory.store(a, v) };
            match res {
                Ok(()) => {},
                Err(e) => {
                    print_line(m, &e);
                },
            }
            Ok(())
        },
        Ok(_) => {
            m.print_str("Stack underflow!\n");
            Ok(())
        },
    }
}

fn exec_fetch(byte: bool, m: &mut Machine) -> (r: Result<(), String>)
    requires
        old(m).wf(),
    ensures
        final(m).wf(),
        final(m).steps == old(m).steps,
        (final(m).view(), outcome(r)) == step_fetch(byte, old(m).view()),
{
    match m.pop_value() {
        Err(e) => Err(e),
        Ok(Some(addr)) => {
            let a: usize = addr as usize;
            let res = if byte { m.memory.fetch_byte(a) } else { m.memory.fetch(a) };
            match res {
                Ok(v) => m.push_value(v),
                Err(e) => {
                    print_line(m, &e);
                    Ok(())
                },
            }
        },
        Ok(None) => {
            m.print_str("Stack underflow!\n");
            Ok(())
        },
    }
}

fn exec_allot_value(m: &mut Machine, n: i64)
    requires
        old(m).wf(),
    ensures
        final(m).wf(),
        final(m).steps == old(m).steps,
        final(m).view() == allot_state(old(m).view(), n),
{
    match m.memory.allot(n) {
        Ok(()) => {},
        Err(e) => {
            print_line(m, &e);
        },
    }
}

fn exec_allot(m: &mut Machine) -> (r: Result<(), String>)
    requires
        old(m).wf(),
    ensures
        final(m).wf(),
        final(m).steps == old(m).steps,
        (final(m).view(), outcome(r)) == step_allot(old(m).view()),
{
    match m.pop_value() {
        Err(e) => Err(e),
        Ok(Some(n)) => {
            exec_allot_value(m, n);
            Ok(())
        },
        Ok(None) => {
            m.print_str("Stack underflow!\n");
            Ok(())
        },
    }
}

fn exec_comma(m: &mut Machine) -> (r: Result<(), String>)
    requires
        old(m).wf(),
    ensures
        final(m).wf(),
        final(m).steps == old(m).steps,
        (final(m).view(), outcome(r)) == step_comma(old(m).view()),
{
    match m.pop_value() {
        Err(e) => Err(e),
        Ok(Some(n)) => {
            let addr: usize = m.memory.here() as usize;
            match m.memory.store(addr, n) {
                Ok(()) => {
                    exec_allot_value(m, 8);
                },
                Err(e) => {
                    print_line(m, &e);
                },
            }
            Ok(())
        },
        Ok(None) => {
            m.print_str("Stack underflow!\n");
            Ok(())
        },
    }
}

fn exec_return(p: Primitive, m: &mut Machine) -> (r: Result<(), String>)
    requires
        old(m).wf(),
        p == Primitive::ToR || p == Primitive::RFrom || p == Primitive::RFetch,
    ensures
        final(m).wf(),
        final(m).steps == old(m).steps,
        (final(m).view(), outcome(r)) == step_return(p, old(m).view()),
{
    match p {
        Primitive::ToR => match m.pop_value() {
            Err(e) => Err(e),
            Ok(Some(n)) => m.rpush_value(n),
            Ok(None) => {
                m.print_str("Stack underflow!\n");
                Ok(())
            },
        },
        _ => {
            let got = match p {
                Primitive::RFrom => m.rpop_value(),
                _ => m.rpeek_value(),
            };
            match got {
                Err(e) => Err(e),
                Ok(Some(n)) => m.push_value(n),
                Ok(None) => {
                    m.print_str("Return stack underflow!\n");
                    Ok(())
                },
            }
        },
    }
}

fn exec_set_pointer(ret: bool, m: &mut Machine) -> (r: Result<(), String>)
    requires
        old(m).wf(),
    ensures
        final(m).wf(),
        final(m).steps == old(m).steps,
        (final(m).view(), outcome(r)) == step_set_pointer(ret, old(m).view()),
{
    match m.pop_value() {
        Err(e) => Err(e),
        Ok(Some(a)) => {
            if ret {
                m.return_stack.set_rp(a as usize);
            } else {
                m.stack.set_sp(a as usize);
            }
            Ok(())
        },
        Ok(None) => {
            m.print_str("Stack underflow!\n");
            Ok(())
        },
    }
}

fn exec_loop_index(outer: bool, m: &mut Machine) -> (r: Result<(), String>)
    requires
        old(m).wf(),
    ensures
        final(m).wf(),
        final(m).steps == old(m).steps,
        (final(m).view(), outcome(r)) == step_loop_index(outer, old(m).view()),
{
    let got = if outer { m.loop_stack.get_outer_index() } else { m.loop_stack.get_index() };
    match got {
        Some(i) => m.push_value(i),
        None => {
            if outer {
                m.print_str("Not in a nested loop!\n");
            } else {
                m.print_str("Not in a loop!\n");
            }
            Ok(())
        },
    }
}

fn exec_cmove(m: &mut Machine) -> (r: Result<(), String>)
    requires
        old(m).wf(),
    ensures
        final(m).wf(),
        final(m).steps == old(m).steps,
        (final(m).view(), outcome(r)) == step_cmove(old(m).view()),
{
    match pop3(m) {
        Err(e) => Err(e),
        Ok((Some(count), Some(dst), Some(src))) => {
            let sa: usize = #[verifier::truncate] (src as usize);
            let da: usize = #[verifier::truncate] (dst as usize);
            let c: usize = #[verifier::truncate] (count as usize);
            let ghost s3 = m.view();
            let room_src: usize = if sa < MEMORY_SIZE { MEMORY_SIZE - sa } else { 0 };
            let room_dst: usize = if da < MEMORY_SIZE { MEMORY_SIZE - da } else { 0 };
            let mut k = c;
            if room_src < k {
                k = room_src;
            }
            if room_dst < k {
                k = room_dst;
            }
            let mut i: usize = 0;
            while i < k
                invariant
                    i <= k,
                    k <= room_src,
                    k <= room_dst,
                    room_src == (if sa < MEMORY_SIZE { MEMORY_SIZE - sa } else { 0 }),
                    room_dst == (if da < MEMORY_SIZE { MEMORY_SIZE - da } else { 0 }),
                    m.wf(),
                    m.steps == old(m).steps,
                    m.view() == (MState { mem: cmove_mem(s3.mem, sa as int, da as int, i as nat), ..s3 }),
                decreases k - i,
            {
                let byte = m.memory.fetch_byte(sa + i);
                match byte {
                    Ok(v) => {
                        let ghost b = m.memory.bytes()[sa + i];
                        assert(((b as i64) & 0xff) as u8 == b) by (bit_vector);
                        let _ = m.memory.store_byte(da + i, v);
                    },
                    Err(_) => {},
                }
                i = i + 1;
            }
            if k < c {
                if room_src <= room_dst {
                    m.eprint_str("CMOVE fetch error: ");
                    let msg = crate::memory::byte_fetch_message(sa + k);
                    m.eprint_chars(&msg);
                    m.eprint_str("\n");
                    assert(m.view().err =~= s3.err + ("CMOVE fetch error: "@
                        + fetch_byte_error((sa + k) as int) + "\n"@));
                } else {
                    m.eprint_str("CMOVE store error: ");
                    let msg = crate::memory::byte_store_message(da + k);
                    m.eprint_chars(&msg);
                    m.eprint_str("\n");
                    assert(m.view().err =~= s3.err + ("CMOVE store error: "@
                        + store_byte_error((da + k) as int) + "\n"@));
                }
            }
            Ok(())
        },
        Ok(_) => {
            m.eprint_str("CMOVE: Stack underflow\n");
            Ok(())
        },
    }
}

fn exec_throw(m: &mut Machine) -> (r: Result<(), String>)
    requires
        old(m).wf(),
    ensures
        final(m).wf(),
        final(m).steps == old(m).steps,
        (final(m).view(), outcome(r)) == step_throw(old(m).view()),
{
    match m.pop_value() {
        Err(e) => Err(e),
        Ok(Some(n)) => {
            if n != 0 {
                m.eprint_str("THROW: Throwing error code ");
                let t = decimal_i64(n);
                m.eprint_chars(&t);
                m.eprint_str("\n");
                assert(m.errors@ =~= old(m).errors@ + ("THROW: Throwing error code "@
                    + spec_decimal_int(n as int) + "\n"@));
                m.push_value(n)
            } else {
                Ok(())
            }
        },
        Ok(None) => {
            m.eprint_str("THROW: Stack underflow\n");
            Ok(())
        },
    }
}


/// All primitives, in registration order.
pub open spec fn all_primitives() -> Seq<Primitive> {
    seq![
        Primitive::Dot,
        Primitive::DotS,
        Primitive::UDot,
        Primitive::DotR,
        Primitive::UDotR,
        Primitive::Cr,
        Primitive::Emit,
        Primitive::Space,
        Primitive::Type,
        Primitive::Key,
        Primitive::Add,
        Primitive::Subtract,
        Primitive::Multiply,
        Primitive::Divide,
        Primitive::StarSlash,
        Primitive::SlashMod,
        Primitive::Mod,
        Primitive::Negate,
        Primitive::Abs,
        Primitive::Min,
        Primitive::Max,
        Primitive::OnePlus,
        Primitive::OneMinus,
        Primitive::TwoStar,
        Primitive::TwoSlash,
        Primitive::LessThan,
        Primitive::GreaterThan,
        Primitive::Equal,
        Primitive::NotEqual,
        Primitive::LessEqual,
        Primitive::GreaterEqual,
        Primitive::ULessThan,
        Primitive::ZeroEqual,
        Primitive::ZeroLess,
        Primitive::ZeroGreater,
        Primitive::Dup,
        Primitive::QuestionDup,
        Primitive::Drop,
        Primitive::Swap,
        Primitive::Over,
        Primitive::Rot,
        Primitive::Pick,
        Primitive::Depth,
        Primitive::ToR,
        Primitive::RFrom,
        Primitive::RFetch,
        Primitive::And,
        Primitive::Or,
        Primitive::Xor,
        Primitive::Invert,
        Primitive::LShift,
        Primitive::RShift,
        Primitive::Store,
        Primitive::Fetch,
        Primitive::CStore,
        Primitive::CFetch,
        Primitive::SpFetch,
        Primitive::SpStore,
        Primitive::RpFetch,
        Primitive::RpStore,
        Primitive::Here,
        Primitive::Allot,
        Primitive::Comma,
        Primitive::Base,
        Primitive::LoopI,
        Primitive::LoopJ,
        Primitive::AstType,
        Primitive::AstGetNumber,
        Primitive::AstGetWord,
        Primitive::AstGetString,
        Primitive::AstSeqLength,
        Primitive::AstSeqChild,
        Primitive::AstIfThen,
        Primitive::AstIfElse,
        Primitive::AstLoopBody,
        Primitive::AstLoopCondition,
        Primitive::AstLoopIncrement,
        Primitive::TestAstCreate,
        Primitive::Evaluate,
        Primitive::Cmove,
        Primitive::Bye,
        Primitive::Throw,
        Primitive::Catch
    ]
}

impl Primitive {
    /// The Forth name of the primitive.
    pub fn name(&self) -> (s: &'static str)
        ensures
            s@ == self.spec_name(),
    {
        match self {
            Primitive::Dot => ".",
            Primitive::DotS => ".S",
            Primitive::UDot => "U.",
            Primitive::DotR => ".R",
            Primitive::UDotR => "U.R",
            Primitive::Cr => "CR",
            Primitive::Emit => "EMIT",
            Primitive::Space => "SPACE",
            Primitive::Type => "TYPE",
            Primitive::Key => "KEY",
            Primitive::Add => "+",
            Primitive::Subtract => "-",
            Primitive::Multiply => "*",
            Primitive::Divide => "/",
            Primitive::StarSlash => "*/",
            Primitive::SlashMod => "/MOD",
            Primitive::Mod => "MOD",
            Primitive::Negate => "NEGATE",
            Primitive::Abs => "ABS",
            Primitive::Min => "MIN",
            Primitive::Max => "MAX",
            Primitive::OnePlus => "1+",
            Primitive::OneMinus => "1-",
            Primitive::TwoStar => "2*",
            Primitive::TwoSlash => "2/",
            Primitive::LessThan => "<",
            Primitive::GreaterThan => ">",
            Primitive::Equal => "=",
            Primitive::NotEqual => "<>",
            Primitive::LessEqual => "<=",
            Primitive::GreaterEqual => ">=",
            Primitive::ULessThan => "U<",
            Primitive::ZeroEqual => "0=",
            Primitive::ZeroLess => "0<",
            Primitive::ZeroGreater => "0>",
            Primitive::Dup => "DUP",
            Primitive::QuestionDup => "?DUP",
            Primitive::Drop => "DROP",
            Primitive::Swap => "SWAP",
            Primitive::Over => "OVER",
            Primitive::Rot => "ROT",
            Primitive::Pick => "PICK",
            Primitive::Depth => "DEPTH",
            Primitive::ToR => ">R",
            Primitive::RFrom => "R>",
            Primitive::RFetch => "R@",
            Primitive::And => "AND",
            Primitive::Or => "OR",
            Primitive::Xor => "XOR",
            Primitive::Invert => "INVERT",
            Primitive::LShift => "LSHIFT",
            Primitive::RShift => "RSHIFT",
            Primitive::Store => "!",
            Primitive::Fetch => "@",
            Primitive::CStore => "C!",
            Primitive::CFetch => "C@",
            Primitive::SpFetch => "SP@",
            Primitive::SpStore => "SP!",
            Primitive::RpFetch => "RP@",
            Primitive::RpStore => "RP!",
            Primitive::Here => "HERE",
            Primitive::Allot => "ALLOT",
            Primitive::Comma => ",",
            Primitive::Base => "BASE",
            Primitive::LoopI => "I",
            Primitive::LoopJ => "J",
            Primitive::AstType => "AST-TYPE",
            Primitive::AstGetNumber => "AST-GET-NUMBER",
            Primitive::AstGetWord => "AST-GET-WORD",
            Primitive::AstGetString => "AST-GET-STRING",
            Primitive::AstSeqLength => "AST-SEQ-LENGTH",
            Primitive::AstSeqChild => "AST-SEQ-CHILD",
            Primitive::AstIfThen => "AST-IF-THEN",
            Primitive::AstIfElse => "AST-IF-ELSE",
            Primitive::AstLoopBody => "AST-LOOP-BODY",
            Primitive::AstLoopCondition => "AST-LOOP-CONDITION",
            Primitive::AstLoopIncrement => "AST-LOOP-INCREMENT",
            Primitive::TestAstCreate => "TEST-AST-CREATE",
            Primitive::Evaluate => "EVALUATE",
            Primitive::Cmove => "CMOVE",
            Primitive::Bye => "BYE",
            Primitive::Throw => "THROW",
            Primitive::Catch => "CATCH",
        }
    }

    /// The Forth name of the primitive.
    pub open spec fn spec_name(&self) -> Seq<char> {
        match self {
            Primitive::Dot => "."@,
            Primitive::DotS => ".S"@,
            Primitive::UDot => "U."@,
            Primitive::DotR => ".R"@,
            Primitive::UDotR => "U.R"@,
            Primitive::Cr => "CR"@,
            Primitive::Emit => "EMIT"@,
            Primitive::Space => "SPACE"@,
            Primitive::Type => "TYPE"@,
            Primitive::Key => "KEY"@,
            Primitive::Add => "+"@,
            Primitive::Subtract => "-"@,
            Primitive::Multiply => "*"@,
            Primitive::Divide => "/"@,
            Primitive::StarSlash => "*/"@,
            Primitive::SlashMod => "/MOD"@,
            Primitive::Mod => "MOD"@,
            Primitive::Negate => "NEGATE"@,
            Primitive::Abs => "ABS"@,
            Primitive::Min => "MIN"@,
            Primitive::Max => "MAX"@,
            Primitive::OnePlus => "1+"@,
            Primitive::OneMinus => "1-"@,
            Primitive::TwoStar => "2*"@,
            Primitive::TwoSlash => "2/"@,
            Primitive::LessThan => "<"@,
            Primitive::GreaterThan => ">"@,
            Primitive::Equal => "="@,
            Primitive::NotEqual => "<>"@,
            Primitive::LessEqual => "<="@,
            Primitive::GreaterEqual => ">="@,
            Primitive::ULessThan => "U<"@,
            Primitive::ZeroEqual => "0="@,
            Primitive::ZeroLess => "0<"@,
            Primitive::ZeroGreater => "0>"@,
            Primitive::Dup => "DUP"@,
            Primitive::QuestionDup => "?DUP"@,
            Primitive::Drop => "DROP"@,
            Primitive::Swap => "SWAP"@,
            Primitive::Over => "OVER"@,
            Primitive::Rot => "ROT"@,
            Primitive::Pick => "PICK"@,
            Primitive::Depth => "DEPTH"@,
            Primitive::ToR => ">R"@,
            Primitive::RFrom => "R>"@,
            Primitive::RFetch => "R@"@,
            Primitive::And => "AND"@,
            Primitive::Or => "OR"@,
            Primitive::Xor => "XOR"@,
            Primitive::Invert => "INVERT"@,
            Primitive::LShift => "LSHIFT"@,
            Primitive::RShift => "RSHIFT"@,
            Primitive::Store => "!"@,
            Primitive::Fetch => "@"@,
            Primitive::CStore => "C!"@,
            Primitive::CFetch => "C@"@,
            Primitive::SpFetch => "SP@"@,
            Primitive::SpStore => "SP!"@,
            Primitive::RpFetch => "RP@"@,
            Primitive::RpStore => "RP!"@,
            Primitive::Here => "HERE"@,
            Primitive::Allot => "ALLOT"@,
            Primitive::Comma => ","@,
            Primitive::Base => "BASE"@,
            Primitive::LoopI => "I"@,
            Primitive::LoopJ => "J"@,
            Primitive::AstType => "AST-TYPE"@,
            Primitive::AstGetNumber => "AST-GET-NUMBER"@,
            Primitive::AstGetWord => "AST-GET-WORD"@,
            Primitive::AstGetString => "AST-GET-STRING"@,
            Primitive::AstSeqLength => "AST-SEQ-LENGTH"@,
            Primitive::AstSeqChild => "AST-SEQ-CHILD"@,
            Primitive::AstIfThen => "AST-IF-THEN"@,
            Primitive::AstIfElse => "AST-IF-ELSE"@,
            Primitive::AstLoopBody => "AST-LOOP-BODY"@,
            Primitive::AstLoopCondition => "AST-LOOP-CONDITION"@,
            Primitive::AstLoopIncrement => "AST-LOOP-INCREMENT"@,
            Primitive::TestAstCreate => "TEST-AST-CREATE"@,
            Primitive::Evaluate => "EVALUATE"@,
            Primitive::Cmove => "CMOVE"@,
            Primitive::Bye => "BYE"@,
            Primitive::Throw => "THROW"@,
            Primitive::Catch => "CATCH"@,
        }
    }
}

/// All primitives, in registration order.
pub fn primitive_list() -> (v: Vec<Primitive>)
    ensures
        v@ == all_primitives(),
{
    let v: Vec<Primitive> = vec![
        Primitive::Dot,
        Primitive::DotS,
        Primitive::UDot,
        Primitive::DotR,
        Primitive::UDotR,
        Primitive::Cr,
        Primitive::Emit,
        Primitive::Space,
        Primitive::Type,
        Primitive::Key,
        Primitive::Add,
        Primitive::Subtract,
        Primitive::Multiply,
        Primitive::Divide,
        Primitive::StarSlash,
        Primitive::SlashMod,
        Primitive::Mod,
        Primitive::Negate,
        Primitive::Abs,
        Primitive::Min,
        Primitive::Max,
        Primitive::OnePlus,
        Primitive::OneMinus,
        Primitive::TwoStar,
        Primitive::TwoSlash,
        Primitive::LessThan,
        Primitive::GreaterThan,
        Primitive::Equal,
        Primitive::NotEqual,
        Primitive::LessEqual,
        Primitive::GreaterEqual,
        Primitive::ULessThan,
        Primitive::ZeroEqual,
        Primitive::ZeroLess,
        Primitive::ZeroGreater,
        Primitive::Dup,
        Primitive::QuestionDup,
        Primitive::Drop,
        Primitive::Swap,
        Primitive::Over,
        Primitive::Rot,
        Primitive::Pick,
        Primitive::Depth,
        Primitive::ToR,
        Primitive::RFrom,
        Primitive::RFetch,
        Primitive::And,
        Primitive::Or,
        Primitive::Xor,
        Primitive::Invert,
        Primitive::LShift,
        Primitive::RShift,
        Primitive::Store,
        Primitive::Fetch,
        Primitive::CStore,
        Primitive::CFetch,
        Primitive::SpFetch,
        Primitive::SpStore,
        Primitive::RpFetch,
        Primitive::RpStore,
        Primitive::Here,
        Primitive::Allot,
        Primitive::Comma,
        Primitive::Base,
        Primitive::LoopI,
        Primitive::LoopJ,
        Primitive::AstType,
        Primitive::AstGetNumber,
        Primitive::AstGetWord,
        Primitive::AstGetString,
        Primitive::AstSeqLength,
        Primitive::AstSeqChild,
        Primitive::AstIfThen,
        Primitive::AstIfElse,
        Primitive::AstLoopBody,
        Primitive::AstLoopCondition,
        Primitive::AstLoopIncrement,
        Primitive::TestAstCreate,
        Primitive::Evaluate,
        Primitive::Cmove,
        Primitive::Bye,
        Primitive::Throw,
        Primitive::Catch
    ];
    assert(v@ =~= all_primitives());
    v
}


/// Run a primitive that does not execute Forth code (every primitive but
/// EVALUATE and CATCH, which the interpreter runs).
pub fn execute_primitive(p: Primitive, m: &mut Machine) -> (r: Result<(), String>)
    requires
        old(m).wf(),
        !is_reentrant(p),
    ensures
        final(m).wf(),
        final(m).steps == old(m).steps,
        (final(m).view(), outcome(r)) == prim_step(p, old(m).view()),
{
    match p {
        Primitive::Dot | Primitive::UDot => match m.pop_value() {
            Err(e) => Err(e),
            Ok(Some(v)) => {
                let ghost s1 = m.view();
                let t = match p {
                    Primitive::Dot => decimal_i64(v),
                    _ => decimal_u64(v as u64),
                };
                m.print_chars(&t);
                m.print_str(" ");
                assert(m.view().out =~= s1.out + (t@ + " "@));
                Ok(())
            },
            Ok(None) => {
                m.print_str("Stack underflow!\n");
                Ok(())
            },
        },
        Primitive::DotS => {
            exec_dot_s(m);
            Ok(())
        },
        Primitive::DotR => exec_dot_r(false, m),
        Primitive::UDotR => exec_dot_r(true, m),
        Primitive::Cr => {
            m.print_str("\n");
            Ok(())
        },
        Primitive::Space => {
            m.print_str(" ");
            Ok(())
        },
        Primitive::Emit => exec_emit(m),
        Primitive::Type => exec_type(m),
        Primitive::Key => exec_key(m),
        Primitive::Add => exec_binary(BinOp::Add, m),
        Primitive::Subtract => exec_binary(BinOp::Sub, m),
        Primitive::Multiply => exec_binary(BinOp::Mul, m),
        Primitive::Min => exec_binary(BinOp::Min, m),
        Primitive::Max => exec_binary(BinOp::Max, m),
        Primitive::LessThan => exec_binary(BinOp::Lt, m),
        Primitive::GreaterThan => exec_binary(BinOp::Gt, m),
        Primitive::Equal => exec_binary(BinOp::Eq, m),
        Primitive::NotEqual => exec_binary(BinOp::Ne, m),
        Primitive::LessEqual => exec_binary(BinOp::Le, m),
        Primitive::GreaterEqual => exec_binary(BinOp::Ge, m),
        Primitive::ULessThan => exec_binary(BinOp::ULt, m),
        Primitive::And => exec_binary(BinOp::And, m),
        Primitive::Or => exec_binary(BinOp::Or, m),
        Primitive::Xor => exec_binary(BinOp::Xor, m),
        Primitive::LShift => exec_binary(BinOp::LShift, m),
        Primitive::RShift => exec_binary(BinOp::RShift, m),
        Primitive::Negate => exec_unary(UnOp::Negate, m),
        Primitive::Abs => exec_unary(UnOp::Abs, m),
        Primitive::OnePlus => exec_unary(UnOp::OnePlus, m),
        Primitive::OneMinus => exec_unary(UnOp::OneMinus, m),
        Primitive::TwoStar => exec_unary(UnOp::TwoStar, m),
        Primitive::TwoSlash => exec_unary(UnOp::TwoSlash, m),
        Primitive::ZeroEqual => exec_unary(UnOp::ZeroEqual, m),
        Primitive::ZeroLess => exec_unary(UnOp::ZeroLess, m),
        Primitive::ZeroGreater => exec_unary(UnOp::ZeroGreater, m),
        Primitive::Invert => exec_unary(UnOp::Invert, m),
        Primitive::Divide | Primitive::Mod | Primitive::SlashMod => exec_division(p, m),
        Primitive::StarSlash => exec_star_slash(m),
        Primitive::Dup | Primitive::QuestionDup => match m.peek_value() {
            Err(e) => Err(e),
            Ok(Some(v)) => {
                match p {
                    Primitive::QuestionDup => if v == 0 {
                        return Ok(());
                    },
                    _ => {},
                }
                m.push_value(v)
            },
            Ok(None) => {
                m.print_str("Stack underflow!\n");
                Ok(())
            },
        },
        Primitive::Drop => match m.pop_value() {
            Err(e) => Err(e),
            Ok(Some(_)) => Ok(()),
            Ok(None) => {
                m.print_str("Stack underflow!\n");
                Ok(())
            },
        },
        Primitive::Swap | Primitive::Over => match pop2(m) {
            Err(e) => Err(e),
            Ok((Some(a), Some(b))) => match p {
                Primitive::Swap => push2(m, a, b),
                _ => push3(m, b, a, b),
            },
            Ok(_) => {
                m.print_str("Stack underflow!\n");
                Ok(())
            },
        },
        Primitive::Rot => match pop3(m) {
            Err(e) => Err(e),
            Ok((Some(x3), Some(x2), Some(x1))) => push3(m, x2, x3, x1),
            Ok(_) => {
                m.print_str("Stack underflow!\n");
                Ok(())
            },
        },
        Primitive::Pick => exec_pick(m),
        Primitive::Depth => {
            let d = m.stack.depth();
            m.push_value(d as i64)
        },
        Primitive::ToR | Primitive::RFrom | Primitive::RFetch => exec_return(p, m),
        Primitive::Store => exec_store(false, m),
        Primitive::CStore => exec_store(true, m),
        Primitive::Fetch => exec_fetch(false, m),
        Primitive::CFetch => exec_fetch(true, m),
        Primitive::SpFetch => {
            let sp = m.stack.get_sp();
            m.push_value(sp as i64)
        },
        Primitive::RpFetch => {
            let rp = m.return_stack.get_rp();
            m.push_value(rp as i64)
        },
        Primitive::SpStore => exec_set_pointer(false, m),
        Primitive::RpStore => exec_set_pointer(true, m),
        Primitive::Here => {
            let h = m.memory.here();
            m.push_value(h)
        },
        Primitive::Base => {
            let b = m.memory.base();
            m.push_value(b)
        },
        Primitive::Allot => exec_allot(m),
        Primitive::Comma => exec_comma(m),
        Primitive::LoopI => exec_loop_index(false, m),
        Primitive::LoopJ => exec_loop_index(true, m),
        Primitive::AstType => ast_get_type_word(m),
        Primitive::AstGetNumber => ast_get_number_word(m),
        Primitive::AstGetWord => ast_get_word_word(m),
        Primitive::AstGetString => ast_get_string_word(m),
        Primitive::AstSeqLength => ast_seq_length_word(m),
        Primitive::AstSeqChild => ast_seq_child_word(m),
        Primitive::AstIfThen => ast_if_then_word(m),
        Primitive::AstIfElse => ast_if_else_word(m),
        Primitive::AstLoopBody => ast_loop_body_word(m),
        Primitive::AstLoopCondition => ast_loop_condition_word(m),
        Primitive::AstLoopIncrement => ast_loop_increment_word(m),
        Primitive::TestAstCreate => test_ast_create_word(m),
        Primitive::Cmove => exec_cmove(m),
        Primitive::Throw => exec_throw(m),
        Primitive::Bye => {
            m.print_str("\nGoodbye!\n");
            Err("BYE".to_string())
        },
        Primitive::Evaluate | Primitive::Catch => Ok(()),
    }
}

/// TRUE ( -- -1 ).
pub fn forth_true(m: &mut Machine) -> (r: Result<(), String>)
    requires
        old(m).wf(),
    ensures
        final(m).wf(),
        (final(m).view(), outcome(r)) == s_push(old(m).view(), -1i64),
{
    m.push_value(-1)
}

/// FALSE ( -- 0 ).
pub fn forth_false(m: &mut Machine) -> (r: Result<(), String>)
    requires
        old(m).wf(),
    ensures
        final(m).wf(),
        (final(m).view(), outcome(r)) == s_push(old(m).view(), 0i64),
{
    m.push_value(0)
}

/// `.S`: print the stack depth and contents.
pub fn dot_s(m: &mut Machine) -> (r: Result<(), String>)
    requires
        old(m).wf(),
    ensures
        final(m).wf(),
        (final(m).view(), outcome(r)) == prim_step(Primitive::DotS, old(m).view()),
{
    execute_primitive(Primitive::DotS, m)
}

/// `DEPTH ( -- n )`: push the number of cells on the stack.
pub fn depth(m: &mut Machine) -> (r: Result<(), String>)
    requires
        old(m).wf(),
    ensures
        final(m).wf(),
        (final(m).view(), outcome(r)) == prim_step(Primitive::Depth, old(m).view()),
{
    execute_primitive(Primitive::Depth, m)
}

/// `SP@ ( -- addr )`: push the data-stack pointer.
pub fn sp_fetch(m: &mut Machine) -> (r: Result<(), String>)
    requires
        old(m).wf(),
    ensures
        final(m).wf(),
        (final(m).view(), outcome(r)) == prim_step(Primitive::SpFetch, old(m).view()),
{
    execute_primitive(Primitive::SpFetch, m)
}

/// `RP@ ( -- addr )`: push the return-stack pointer.
pub fn rp_fetch(m: &mut Machine) -> (r: Result<(), String>)
    requires
        old(m).wf(),
    ensures
        final(m).wf(),
        (final(m).view(), outcome(r)) == prim_step(Primitive::RpFetch, old(m).view()),
{
    execute_primitive(Primitive::RpFetch, m)
}

/// `HERE ( -- addr )`: push the dictionary pointer.
pub fn here(m: &mut Machine) -> (r: Result<(), String>)
    requires
        old(m).wf(),
    ensures
        final(m).wf(),
        (final(m).view(), outcome(r)) == prim_step(Primitive::Here, old(m).view()),
{
    execute_primitive(Primitive::Here, m)
}

/// `BASE ( -- addr )`: push the address of the numeric base.
pub fn base(m: &mut Machine) -> (r: Result<(), String>)
    requires
        old(m).wf(),
    ensures
        final(m).wf(),
        (final(m).view(), outcome(r)) == prim_step(Primitive::Base, old(m).view()),
{
    execute_primitive(Primitive::Base, m)
}

/// `.`: print the top number.
pub fn dot(m: &mut Machine) -> (r: Result<(), String>)
    requires
        old(m).wf(),
    ensures
        final(m).wf(),
        (final(m).view(), outcome(r)) == prim_step(Primitive::Dot, old(m).view()),
{
    execute_primitive(Primitive::Dot, m)
}

/// `U.`: print the top number as unsigned.
pub fn u_dot(m: &mut Machine) -> (r: Result<(), String>)
    requires
        old(m).wf(),
    ensures
        final(m).wf(),
        (final(m).view(), outcome(r)) == prim_step(Primitive::UDot, old(m).view()),
{
    execute_primitive(Primitive::UDot, m)
}

/// `.R ( n width -- )`: print a number right-justified.
pub fn dot_r(m: &mut Machine) -> (r: Result<(), String>)
    requires
        old(m).wf(),
    ensures
        final(m).wf(),
        (final(m).view(), outcome(r)) == prim_step(Primitive::DotR, old(m).view()),
{
    execute_primitive(Primitive::DotR, m)
}

/// `U.R ( u width -- )`: print an unsigned number right-justified.
pub fn u_dot_r(m: &mut Machine) -> (r: Result<(), String>)
    requires
        old(m).wf(),
    ensures
        final(m).wf(),
        (final(m).view(), outcome(r)) == prim_step(Primitive::UDotR, old(m).view()),
{
    execute_primitive(Primitive::UDotR, m)
}

/// `CR`: print a newline.
pub fn cr(m: &mut Machine) -> (r: Result<(), String>)
    requires
        old(m).wf(),
    ensures
        final(m).wf(),
        (final(m).view(), outcome(r)) == prim_step(Primitive::Cr, old(m).view()),
{
    execute_primitive(Primitive::Cr, m)
}

/// `EMIT ( c -- )`: print a character.
pub fn emit(m: &mut Machine) -> (r: Result<(), String>)
    requires
        old(m).wf(),
    ensures
        final(m).wf(),
        (final(m).view(), outcome(r)) == prim_step(Primitive::Emit, old(m).view()),
{
    execute_primitive(Primitive::Emit, m)
}

/// `SPACE`: print a space.
pub fn space(m: &mut Machine) -> (r: Result<(), String>)
    requires
        old(m).wf(),
    ensures
        final(m).wf(),
        (final(m).view(), outcome(r)) == prim_step(Primitive::Space, old(m).view()),
{
    execute_primitive(Primitive::Space, m)
}

/// `TYPE ( addr len -- )`: print bytes from memory.
pub fn type_word(m: &mut Machine) -> (r: Result<(), String>)
    requires
        old(m).wf(),
    ensures
        final(m).wf(),
        (final(m).view(), outcome(r)) == prim_step(Primitive::Type, old(m).view()),
{
    execute_primitive(Primitive::Type, m)
}

/// `KEY ( -- c )`: read one input byte.
pub fn key(m: &mut Machine) -> (r: Result<(), String>)
    requires
        old(m).wf(),
    ensures
        final(m).wf(),
        (final(m).view(), outcome(r)) == prim_step(Primitive::Key, old(m).view()),
{
    execute_primitive(Primitive::Key, m)
}

/// `+`.
pub fn add(m: &mut Machine) -> (r: Result<(), String>)
    requires
        old(m).wf(),
    ensures
        final(m).wf(),
        (final(m).view(), outcome(r)) == prim_step(Primitive::Add, old(m).view()),
{
    execute_primitive(Primitive::Add, m)
}

/// `-`.
pub fn subtract(m: &mut Machine) -> (r: Result<(), String>)
    requires
        old(m).wf(),
    ensures
        final(m).wf(),
        (final(m).view(), outcome(r)) == prim_step(Primitive::Subtract, old(m).view()),
{
    execute_primitive(Primitive::Subtract, m)
}

/// `*`.
pub fn multiply(m: &mut Machine) -> (r: Result<(), String>)
    requires
        old(m).wf(),
    ensures
        final(m).wf(),
        (final(m).view(), outcome(r)) == prim_step(Primitive::Multiply, old(m).view()),
{
    execute_primitive(Primitive::Multiply, m)
}

/// `/`.
pub fn divide(m: &mut Machine) -> (r: Result<(), String>)
    requires
        old(m).wf(),
    ensures
        final(m).wf(),
        (final(m).view(), outcome(r)) == prim_step(Primitive::Divide, old(m).view()),
{
    execute_primitive(Primitive::Divide, m)
}

/// `*/`.
pub fn star_slash(m: &mut Machine) -> (r: Result<(), String>)
    requires
        old(m).wf(),
    ensures
        final(m).wf(),
        (final(m).view(), outcome(r)) == prim_step(Primitive::StarSlash, old(m).view()),
{
    execute_primitive(Primitive::StarSlash, m)
}

/// `/MOD`.
pub fn slash_modulo(m: &mut Machine) -> (r: Result<(), String>)
    requires
        old(m).wf(),
    ensures
        final(m).wf(),
        (final(m).view(), outcome(r)) == prim_step(Primitive::SlashMod, old(m).view()),
{
    execute_primitive(Primitive::SlashMod, m)
}

/// `MOD`.
pub fn mod_word(m: &mut Machine) -> (r: Result<(), String>)
    requires
        old(m).wf(),
    ensures
        final(m).wf(),
        (final(m).view(), outcome(r)) == prim_step(Primitive::Mod, old(m).view()),
{
    execute_primitive(Primitive::Mod, m)
}

/// `NEGATE`.
pub fn negate(m: &mut Machine) -> (r: Result<(), String>)
    requires
        old(m).wf(),
    ensures
        final(m).wf(),
        (final(m).view(), outcome(r)) == prim_step(Primitive::Negate, old(m).view()),
{
    execute_primitive(Primitive::Negate, m)
}

/// `ABS`.
pub fn abs(m: &mut Machine) -> (r: Result<(), String>)
    requires
        old(m).wf(),
    ensures
        final(m).wf(),
        (final(m).view(), outcome(r)) == prim_step(Primitive::Abs, old(m).view()),
{
    execute_primitive(Primitive::Abs, m)
}

/// `MIN`.
pub fn min(m: &mut Machine) -> (r: Result<(), String>)
    requires
        old(m).wf(),
    ensures
        final(m).wf(),
        (final(m).view(), outcome(r)) == prim_step(Primitive::Min, old(m).view()),
{
    execute_primitive(Primitive::Min, m)
}

/// `MAX`.
pub fn max(m: &mut Machine) -> (r: Result<(), String>)
    requires
        old(m).wf(),
    ensures
        final(m).wf(),
        (final(m).view(), outcome(r)) == prim_step(Primitive::Max, old(m).view()),
{
    execute_primitive(Primitive::Max, m)
}

/// `1+`.
pub fn one_plus(m: &mut Machine) -> (r: Result<(), String>)
    requires
        old(m).wf(),
    ensures
        final(m).wf(),
        (final(m).view(), outcome(r)) == prim_step(Primitive::OnePlus, old(m).view()),
{
    execute_primitive(Primitive::OnePlus, m)
}

/// `1-`.
pub fn one_minus(m: &mut Machine) -> (r: Result<(), String>)
    requires
        old(m).wf(),
    ensures
        final(m).wf(),
        (final(m).view(), outcome(r)) == prim_step(Primitive::OneMinus, old(m).view()),
{
    execute_primitive(Primitive::OneMinus, m)
}

/// `2*`.
pub fn two_star(m: &mut Machine) -> (r: Result<(), String>)
    requires
        old(m).wf(),
    ensures
        final(m).wf(),
        (final(m).view(), outcome(r)) == prim_step(Primitive::TwoStar, old(m).view()),
{
    execute_primitive(Primitive::TwoStar, m)
}

/// `2/`.
pub fn two_slash(m: &mut Machine) -> (r: Result<(), String>)
    requires
        old(m).wf(),
    ensures
        final(m).wf(),
        (final(m).view(), outcome(r)) == prim_step(Primitive::TwoSlash, old(m).view()),
{
    execute_primitive(Primitive::TwoSlash, m)
}

/// `<`.
pub fn less_than(m: &mut Machine) -> (r: Result<(), String>)
    requires
        old(m).wf(),
    ensures
        final(m).wf(),
        (final(m).view(), outcome(r)) == prim_step(Primitive::LessThan, old(m).view()),
{
    execute_primitive(Primitive::LessThan, m)
}

/// `>`.
pub fn greater_than(m: &mut Machine) -> (r: Result<(), String>)
    requires
        old(m).wf(),
    ensures
        final(m).wf(),
        (final(m).view(), outcome(r)) == prim_step(Primitive::GreaterThan, old(m).view()),
{
    execute_primitive(Primitive::GreaterThan, m)
}

/// `=`.
pub fn equal(m: &mut Machine) -> (r: Result<(), String>)
    requires
        old(m).wf(),
    ensures
        final(m).wf(),
        (final(m).view(), outcome(r)) == prim_step(Primitive::Equal, old(m).view()),
{
    execute_primitive(Primitive::Equal, m)
}

/// `<>`.
pub fn not_equal(m: &mut Machine) -> (r: Result<(), String>)
    requires
        old(m).wf(),
    ensures
        final(m).wf(),
        (final(m).view(), outcome(r)) == prim_step(Primitive::NotEqual, old(m).view()),
{
    execute_primitive(Primitive::NotEqual, m)
}

/// `<=`.
pub fn less_equal(m: &mut Machine) -> (r: Result<(), String>)
    requires
        old(m).wf(),
    ensures
        final(m).wf(),
        (final(m).view(), outcome(r)) == prim_step(Primitive::LessEqual, old(m).view()),
{
    execute_primitive(Primitive::LessEqual, m)
}

/// `>=`.
pub fn greater_equal(m: &mut Machine) -> (r: Result<(), String>)
    requires
        old(m).wf(),
    ensures
        final(m).wf(),
        (final(m).view(), outcome(r)) == prim_step(Primitive::GreaterEqual, old(m).view()),
{
    execute_primitive(Primitive::GreaterEqual, m)
}

/// `U<`.
pub fn u_less_than(m: &mut Machine) -> (r: Result<(), String>)
    requires
        old(m).wf(),
    ensures
        final(m).wf(),
        (final(m).view(), outcome(r)) == prim_step(Primitive::ULessThan, old(m).view()),
{
    execute_primitive(Primitive::ULessThan, m)
}

/// `0=`.
pub fn zero_equal(m: &mut Machine) -> (r: Result<(), String>)
    requires
        old(m).wf(),
    ensures
        final(m).wf(),
        (final(m).view(), outcome(r)) == prim_step(Primitive::ZeroEqual, old(m).view()),
{
    execute_primitive(Primitive::ZeroEqual, m)
}

/// `0<`.
pub fn zero_less(m: &mut Machine) -> (r: Result<(), String>)
    requires
        old(m).wf(),
    ensures
        final(m).wf(),
        (final(m).view(), outcome(r)) == prim_step(Primitive::ZeroLess, old(m).view()),
{
    execute_primitive(Primitive::ZeroLess, m)
}

/// `0>`.
pub fn zero_greater(m: &mut Machine) -> (r: Result<(), String>)
    requires
        old(m).wf(),
    ensures
        final(m).wf(),
        (final(m).view(), outcome(r)) == prim_step(Primitive::ZeroGreater, old(m).view()),
{
    execute_primitive(Primitive::ZeroGreater, m)
}

/// `DUP`.
pub fn dup(m: &mut Machine) -> (r: Result<(), String>)
    requires
        old(m).wf(),
    ensures
        final(m).wf(),
        (final(m).view(), outcome(r)) == prim_step(Primitive::Dup, old(m).view()),
{
    execute_primitive(Primitive::Dup, m)
}

/// `?DUP`.
pub fn question_dup(m: &mut Machine) -> (r: Result<(), String>)
    requires
        old(m).wf(),
    ensures
        final(m).wf(),
        (final(m).view(), outcome(r)) == prim_step(Primitive::QuestionDup, old(m).view()),
{
    execute_primitive(Primitive::QuestionDup, m)
}

/// `DROP`.
pub fn drop(m: &mut Machine) -> (r: Result<(), String>)
    requires
        old(m).wf(),
    ensures
        final(m).wf(),
        (final(m).view(), outcome(r)) == prim_step(Primitive::Drop, old(m).view()),
{
    execute_primitive(Primitive::Drop, m)
}

/// `SWAP`.
pub fn swap(m: &mut Machine) -> (r: Result<(), String>)
    requires
        old(m).wf(),
    ensures
        final(m).wf(),
        (final(m).view(), outcome(r)) == prim_step(Primitive::Swap, old(m).view()),
{
    execute_primitive(Primitive::Swap, m)
}

/// `OVER`.
pub fn over(m: &mut Machine) -> (r: Result<(), String>)
    requires
        old(m).wf(),
    ensures
        final(m).wf(),
        (final(m).view(), outcome(r)) == prim_step(Primitive::Over, old(m).view()),
{
    execute_primitive(Primitive::Over, m)
}

/// `ROT`.
pub fn rot(m: &mut Machine) -> (r: Result<(), String>)
    requires
        old(m).wf(),
    ensures
        final(m).wf(),
        (final(m).view(), outcome(r)) == prim_step(Primitive::Rot, old(m).view()),
{
    execute_primitive(Primitive::Rot, m)
}

/// `PICK`.
pub fn pick(m: &mut Machine) -> (r: Result<(), String>)
    requires
        old(m).wf(),
    ensures
        final(m).wf(),
        (final(m).view(), outcome(r)) == prim_step(Primitive::Pick, old(m).view()),
{
    execute_primitive(Primitive::Pick, m)
}

/// `>R`.
pub fn to_r(m: &mut Machine) -> (r: Result<(), String>)
    requires
        old(m).wf(),
    ensures
        final(m).wf(),
        (final(m).view(), outcome(r)) == prim_step(Primitive::ToR, old(m).view()),
{
    execute_primitive(Primitive::ToR, m)
}

/// `R>`.
pub fn r_from(m: &mut Machine) -> (r: Result<(), String>)
    requires
        old(m).wf(),
    ensures
        final(m).wf(),
        (final(m).view(), outcome(r)) == prim_step(Primitive::RFrom, old(m).view()),
{
    execute_primitive(Primitive::RFrom, m)
}

/// `R@`.
pub fn r_fetch(m: &mut Machine) -> (r: Result<(), String>)
    requires
        old(m).wf(),
    ensures
        final(m).wf(),
        (final(m).view(), outcome(r)) == prim_step(Primitive::RFetch, old(m).view()),
{
    execute_primitive(Primitive::RFetch, m)
}

/// `AND`.
pub fn and(m: &mut Machine) -> (r: Result<(), String>)
    requires
        old(m).wf(),
    ensures
        final(m).wf(),
        (final(m).view(), outcome(r)) == prim_step(Primitive::And, old(m).view()),
{
    execute_primitive(Primitive::And, m)
}

/// `OR`.
pub fn or(m: &mut Machine) -> (r: Result<(), String>)
    requires
        old(m).wf(),
    ensures
        final(m).wf(),
        (final(m).view(), outcome(r)) == prim_step(Primitive::Or, old(m).view()),
{
    execute_primitive(Primitive::Or, m)
}

/// `XOR`.
pub fn xor(m: &mut Machine) -> (r: Result<(), String>)
    requires
        old(m).wf(),
    ensures
        final(m).wf(),
        (final(m).view(), outcome(r)) == prim_step(Primitive::Xor, old(m).view()),
{
    execute_primitive(Primitive::Xor, m)
}

/// `INVERT`.
pub fn invert(m: &mut Machine) -> (r: Result<(), String>)
    requires
        old(m).wf(),
    ensures
        final(m).wf(),
        (final(m).view(), outcome(r)) == prim_step(Primitive::Invert, old(m).view()),
{
    execute_primitive(Primitive::Invert, m)
}

/// `LSHIFT`.
pub fn lshift(m: &mut Machine) -> (r: Result<(), String>)
    requires
        old(m).wf(),
    ensures
        final(m).wf(),
        (final(m).view(), outcome(r)) == prim_step(Primitive::LShift, old(m).view()),
{
    execute_primitive(Primitive::LShift, m)
}

/// `RSHIFT`.
pub fn rshift(m: &mut Machine) -> (r: Result<(), String>)
    requires
        old(m).wf(),
    ensures
        final(m).wf(),
        (final(m).view(), outcome(r)) == prim_step(Primitive::RShift, old(m).view()),
{
    execute_primitive(Primitive::RShift, m)
}

/// `!`.
pub fn store(m: &mut Machine) -> (r: Result<(), String>)
    requires
        old(m).wf(),
    ensures
        final(m).wf(),
        (final(m).view(), outcome(r)) == prim_step(Primitive::Store, old(m).view()),
{
    execute_primitive(Primitive::Store, m)
}

/// `@`.
pub fn fetch(m: &mut Machine) -> (r: Result<(), String>)
    requires
        old(m).wf(),
    ensures
        final(m).wf(),
        (final(m).view(), outcome(r)) == prim_step(Primitive::Fetch, old(m).view()),
{
    execute_primitive(Primitive::Fetch, m)
}

/// `C!`.
pub fn c_store(m: &mut Machine) -> (r: Result<(), String>)
    requires
        old(m).wf(),
    ensures
        final(m).wf(),
        (final(m).view(), outcome(r)) == prim_step(Primitive::CStore, old(m).view()),
{
    execute_primitive(Primitive::CStore, m)
}

/// `C@`.
pub fn c_fetch(m: &mut Machine) -> (r: Result<(), String>)
    requires
        old(m).wf(),
    ensures
        final(m).wf(),
        (final(m).view(), outcome(r)) == prim_step(Primitive::CFetch, old(m).view()),
{
    execute_primitive(Primitive::CFetch, m)
}

/// `SP!`.
pub fn sp_store(m: &mut Machine) -> (r: Result<(), String>)
    requires
        old(m).wf(),
    ensures
        final(m).wf(),
        (final(m).view(), outcome(r)) == prim_step(Primitive::SpStore, old(m).view()),
{
    execute_primitive(Primitive::SpStore, m)
}

/// `RP!`.
pub fn rp_store(m: &mut Machine) -> (r: Result<(), String>)
    requires
        old(m).wf(),
    ensures
        final(m).wf(),
        (final(m).view(), outcome(r)) == prim_step(Primitive::RpStore, old(m).view()),
{
    execute_primitive(Primitive::RpStore, m)
}

/// `ALLOT`.
pub fn allot(m: &mut Machine) -> (r: Result<(), String>)
    requires
        old(m).wf(),
    ensures
        final(m).wf(),
        (final(m).view(), outcome(r)) == prim_step(Primitive::Allot, old(m).view()),
{
    execute_primitive(Primitive::Allot, m)
}

/// `,`.
pub fn comma(m: &mut Machine) -> (r: Result<(), String>)
    requires
        old(m).wf(),
    ensures
        final(m).wf(),
        (final(m).view(), outcome(r)) == prim_step(Primitive::Comma, old(m).view()),
{
    execute_primitive(Primitive::Comma, m)
}

/// `I`: the innermost loop index.
pub fn loop_i(m: &mut Machine) -> (r: Result<(), String>)
    requires
        old(m).wf(),
    ensures
        final(m).wf(),
        (final(m).view(), outcome(r)) == prim_step(Primitive::LoopI, old(m).view()),
{
    execute_primitive(Primitive::LoopI, m)
}

/// `J`: the next outer loop index.
pub fn loop_j(m: &mut Machine) -> (r: Result<(), String>)
    requires
        old(m).wf(),
    ensures
        final(m).wf(),
        (final(m).view(), outcome(r)) == prim_step(Primitive::LoopJ, old(m).view()),
{
    execute_primitive(Primitive::LoopJ, m)
}

/// `CMOVE ( src dest count -- )`.
pub fn cmove_word(m: &mut Machine) -> (r: Result<(), String>)
    requires
        old(m).wf(),
    ensures
        final(m).wf(),
        (final(m).view(), outcome(r)) == prim_step(Primitive::Cmove, old(m).view()),
{
    execute_primitive(Primitive::Cmove, m)
}

/// `BYE`: end the session.
pub fn bye_word(m: &mut Machine) -> (r: Result<(), String>)
    requires
        old(m).wf(),
    ensures
        final(m).wf(),
        (final(m).view(), outcome(r)) == prim_step(Primitive::Bye, old(m).view()),
{
    execute_primitive(Primitive::Bye, m)
}

/// `THROW`.
pub fn throw_word(m: &mut Machine) -> (r: Result<(), String>)
    requires
        old(m).wf(),
    ensures
        final(m).wf(),
        (final(m).view(), outcome(r)) == prim_step(Primitive::Throw, old(m).view()),
{
    execute_primitive(Primitive::Throw, m)
}

/// `EVALUATE ( addr len -- )`: run the text at `addr`/`len` as Forth words.
pub fn evaluate_word(dict: &Dictionary, m: &mut Machine) -> (r: Result<(), String>)
    requires
        old(m).wf(),
    ensures
        final(m).wf(),
        ran(*final(m), r) == run_evaluate(dict@, old(m).view(), old(m).steps as nat),
{
    run_evaluate_exec(dict, m)
}

/// `CATCH ( addr len -- code )`: run the text at `addr`/`len`, catching errors.
pub fn catch_word(dict: &Dictionary, m: &mut Machine) -> (r: Result<(), String>)
    requires
        old(m).wf(),
    ensures
        final(m).wf(),
        ran(*final(m), r) == run_catch(dict@, old(m).view(), old(m).steps as nat),
{
    run_catch_exec(dict, m)
}

} // verus!
