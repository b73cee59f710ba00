//! The interpreter: running an AST against the dictionary and the machine.
//!
//! Every node run and every word call uses one step of the machine's budget
//! (`Machine::steps`); when the budget is spent, execution stops with
//! "Execution step limit exceeded". `EXIT` and `LEAVE` travel as the errors
//! "EXIT" and "LEAVE" up to the word or loop that handles them.

use vstd::prelude::*;
use crate::ast::{AstNode, SAst, view_node, view_list, lemma_view_list};
use crate::dictionary::{Dictionary, DictView, AWord, Word};
use crate::lexer::{split_ws, strip_spec, split_whitespace, strip_comments, strings_view};
use crate::machine::{Machine, MState, Outcome, outcome, s_pop, s_push, s_print, s_eprint};
use crate::memory::{MEMORY_SIZE, DP_ADDR, write_cell, le_decode, law_store_then_fetch,
    fetch_byte_error, store_byte_error};
use crate::parser::{parse_range, parse_tokens, parsed, toks_view, has_compile_only,
    contains_compile_only, compile_only_msg, message3};
use crate::text::{chars_of, extend_chars, string_from_chars, spec_to_uppercase, to_uppercase, str_eq,
    utf8_encode, utf8_bytes, utf8_decode, decode_utf8, spec_utf8_error};
use crate::words::{Primitive, prim_step, execute_primitive, s_pop2, s_push2, pop2, push2, popped,
    bye_msg};

verus! {

broadcast use vstd::string::group_string_axioms;

// ---------------------------------------------------------------------------
// Sizes (for termination)
// ---------------------------------------------------------------------------

/// Size of a node: leaves count 2, composites 2 plus their lists.
pub open spec fn size(n: SAst) -> nat
    decreases n,
{
    match n {
        SAst::Sequence(v) => 2 + list_size(v),
        SAst::IfThenElse { then_branch, else_branch } => 2 + list_size(then_branch) + match else_branch {
            Some(e) => list_size(e),
            None => 0,
        },
        SAst::BeginUntil { body } => 2 + list_size(body),
        SAst::BeginWhileRepeat { condition, body } => 2 + list_size(condition) + list_size(body),
        SAst::DoLoop { body, .. } => 2 + list_size(body),
        _ => 2,
    }
}

/// Size of a node list: one more than the sizes of its nodes per node.
pub open spec fn list_size(v: Seq<SAst>) -> nat
    decreases v,
{
    if v.len() == 0 {
        0
    } else {
        size(v[0]) + list_size(v.subrange(1, v.len() as int)) + 1
    }
}

// ---------------------------------------------------------------------------
// State helpers
// ---------------------------------------------------------------------------

/// The error when the step budget is spent.
pub open spec fn exhausted() -> Seq<char> {
    "Execution step limit exceeded"@
}

/// The marker that EXIT sends up to its word.
pub open spec fn exit_marker() -> Seq<char> {
    "EXIT"@
}

/// The marker that LEAVE sends up to its loop.
pub open spec fn leave_marker() -> Seq<char> {
    "LEAVE"@
}

/// An outcome with EXIT turned into success.
pub open spec fn absorb_exit(o: Outcome) -> Outcome {
    if o == Err::<(), Seq<char>>(exit_marker()) { Ok(()) } else { o }
}

/// Errors that end execution even inside EVALUATE and CATCH.
pub open spec fn is_fatal(e: Seq<char>) -> bool {
    e == bye_msg() || e == exhausted()
}

/// Whether two names are the same word (compared upper-cased).
pub open spec fn same_name(a: Seq<char>, b: Seq<char>) -> bool {
    spec_to_uppercase(a) == spec_to_uppercase(b)
}

/// Leave the innermost loop frame (if any).
pub open spec fn pop_loop(s: MState) -> MState {
    if s.loops.len() == 0 { s } else { MState { loops: s.loops.drop_last(), ..s } }
}

/// Add `k` to the innermost loop index; whether the loop goes on.
pub open spec fn loop_increment(s: MState, k: i64) -> (MState, bool) {
    if s.loops.len() == 0 {
        (s, false)
    } else {
        let (idx, lim) = s.loops.last();
        let n = vstd::wrapping::i64_specs::wrapping_add(idx, k);
        (MState { loops: s.loops.update(s.loops.len() - 1, (n, lim)), ..s }, n < lim)
    }
}

/// `mem` with `b` written from `addr` on.
pub open spec fn write_bytes(mem: Seq<u8>, addr: int, b: Seq<u8>) -> Seq<u8> {
    Seq::new(mem.len(), |k: int| if addr <= k < addr + b.len() { b[k - addr] } else { mem[k] })
}

/// Store bytes at `addr` one by one; the first byte outside memory stops with an
/// error, keeping the bytes stored before it.
pub open spec fn store_seq(s: MState, addr: int, b: Seq<u8>) -> (MState, Outcome) {
    if addr + b.len() <= MEMORY_SIZE {
        (MState { mem: write_bytes(s.mem, addr, b), ..s }, Ok(()))
    } else {
        (MState { mem: write_bytes(s.mem, addr, b.take(MEMORY_SIZE - addr)), ..s },
            Err(store_byte_error(if addr < MEMORY_SIZE { MEMORY_SIZE as int } else { addr })))
    }
}

/// Move the dictionary pointer by `n`, failing with "Dictionary overflow".
pub open spec fn s_allot(s: MState, n: i64) -> (MState, Outcome) {
    if 0 <= s.dp + n < MEMORY_SIZE {
        (MState { dp: s.dp + n, mem: write_cell(s.mem, DP_ADDR as int, (s.dp + n) as i64), ..s }, Ok(()))
    } else {
        (s, Err("Dictionary overflow"@))
    }
}

/// `S" text"`: store the UTF-8 bytes at HERE, advance HERE past them and push the
/// address and the length.
pub open spec fn stack_string(s: MState, t: Seq<char>) -> (MState, Outcome) {
    let b = utf8_encode(t);
    let addr = s.dp;
    let (s1, o1) = store_seq(s, addr, b);
    if o1 is Err {
        (s1, o1)
    } else {
        let (s2, o2) = s_allot(s1, b.len() as i64);
        if o2 is Err { (s2, o2) } else { s_push2(s2, addr as i64, b.len() as i64) }
    }
}

/// `['] name`: store the name as a counted string at HERE (length byte, then the
/// UTF-8 bytes), advance HERE past it and push its address.
pub open spec fn tick_literal(s: MState, name: Seq<char>) -> (MState, Outcome) {
    let b = utf8_encode(name);
    let addr = s.dp;
    let (s1, o1) = store_seq(s, addr, seq![((b.len() as i64) & 0xffi64) as u8] + b);
    if o1 is Err {
        (s1, o1)
    } else {
        let (s2, o2) = s_allot(s1, (1 + b.len()) as i64);
        if o2 is Err { (s2, o2) } else { s_push(s2, addr as i64) }
    }
}

/// The name stored as a counted string at an execution token (bytes read as
/// characters of the same code).
pub open spec fn xt_name(mem: Seq<u8>, xt: i64) -> Result<Seq<char>, Seq<char>> {
    let a = (xt as usize) as int;
    if a >= MEMORY_SIZE {
        Err(fetch_byte_error(a))
    } else {
        let n = mem[a] as int;
        if a + 1 + n > MEMORY_SIZE {
            Err(fetch_byte_error(MEMORY_SIZE as int))
        } else {
            Ok(mem.subrange(a + 1, a + 1 + n).map_values(|x: u8| x as char))
        }
    }
}

/// The `len` bytes at `addr`, or the error for the first address outside memory.
pub open spec fn read_bytes(mem: Seq<u8>, addr: i64, len: i64) -> Result<Seq<u8>, Seq<char>> {
    let a = (addr as usize) as int;
    let n = (len as usize) as int;
    if n == 0 {
        Ok(Seq::empty())
    } else if a >= MEMORY_SIZE {
        Err(fetch_byte_error(a))
    } else if a + n > MEMORY_SIZE {
        Err(fetch_byte_error(MEMORY_SIZE as int))
    } else {
        Ok(mem.subrange(a, a + n))
    }
}

/// The text at `addr`/`len` decoded as UTF-8, or the message describing why it
/// cannot be read.
pub open spec fn read_text(mem: Seq<u8>, addr: i64, len: i64) -> Result<Seq<char>, Seq<char>> {
    match read_bytes(mem, addr, len) {
        Err(e) => Err(e),
        Ok(b) => match utf8_decode(b) {
            Some(t) => Ok(t),
            None => Err("Invalid UTF-8: "@ + spec_utf8_error(b)),
        },
    }
}

/// Tokens parsed for immediate execution: with `check`, control-flow words outside
/// a definition are an error.
pub open spec fn prepared(t: Seq<Seq<char>>, check: bool, d: DictView) -> Result<SAst, Seq<char>> {
    if check && has_compile_only(t, 0) {
        Err(compile_only_msg())
    } else {
        parse_range(t, d, None, 0, t.len() as int)
    }
}

/// Whether a node is a call of `w`.
pub open spec fn tail_call(n: SAst, w: Seq<char>) -> bool {
    n matches SAst::CallWord(nm) && same_name(nm, w)
}

/// Whether a list ends with a call of `w`.
pub open spec fn ends_with_call(v: Seq<SAst>, w: Seq<char>) -> bool {
    v.len() > 0 && tail_call(v[v.len() - 1], w)
}

/// Whether a word body ends with a call of the word itself (through the last
/// node of sequences and of either branch of an IF).
pub open spec fn is_tail_rec(n: SAst, w: Seq<char>) -> bool
    decreases n,
{
    match n {
        SAst::CallWord(nm) => same_name(nm, w),
        SAst::Sequence(v) => v.len() > 0 && is_tail_rec(v[v.len() - 1], w),
        SAst::IfThenElse { then_branch, else_branch } => {
            (then_branch.len() > 0 && is_tail_rec(then_branch[then_branch.len() - 1], w))
            || match else_branch {
                Some(e) => e.len() > 0 && is_tail_rec(e[e.len() - 1], w),
                None => false,
            }
        },
        _ => false,
    }
}

/// An outcome as the result of a tail-call check that found no tail call.
pub open spec fn no_tail(o: Outcome) -> Result<bool, Seq<char>> {
    match o {
        Ok(()) => Ok(false),
        Err(e) => Err(e),
    }
}

/// Push a CATCH code.
pub open spec fn push_code(s: MState, c: i64, f: nat) -> (MState, Outcome, nat) {
    let (s1, o) = s_push(s, c);
    (s1, o, f)
}

/// Drop stack cells until the depth is at most `depth`.
pub open spec fn unwind(s: MState, depth: int) -> MState {
    if s.sp / 8 > depth { MState { sp: s.sp - 8 * (s.sp / 8 - depth), ..s } } else { s }
}

// ---------------------------------------------------------------------------
// Semantics
// ---------------------------------------------------------------------------

/// Run a node with `f` steps: the final state, the outcome and the steps left.
pub open spec fn run_node(d: DictView, n: SAst, s: MState, f: nat) -> (MState, Outcome, nat)
    decreases f, size(n), 0nat,
{
    if f == 0 {
        (s, Err(exhausted()), 0)
    } else {
        let g = (f - 1) as nat;
        match n {
            SAst::PushNumber(v) => {
                let (s1, o) = s_push(s, v);
                (s1, o, g)
            },
            SAst::CallWord(name) => run_word(d, name, s, g),
            SAst::Sequence(v) => {
                let (s1, o, g1) = run_list(d, v, s, g);
                (s1, absorb_exit(o), g1)
            },
            SAst::IfThenElse { then_branch, else_branch } => {
                let (r, s1) = s_pop(s);
                match r {
                    Err(e) => (s1, Err(e), g),
                    Ok(None) => (s1, Err("Stack underflow in IF"@), g),
                    Ok(Some(c)) => if c != 0 {
                        run_list(d, then_branch, s1, g)
                    } else {
                        match else_branch {
                            Some(e) => run_list(d, e, s1, g),
                            None => (s1, Ok(()), g),
                        }
                    },
                }
            },
            SAst::BeginUntil { body } => {
                let (s1, o1, g1) = run_list(d, body, s, g);
                if o1 is Err {
                    (s1, o1, g1)
                } else {
                    let (r, s2) = s_pop(s1);
                    match r {
                        Err(e) => (s2, Err(e), g1),
                        Ok(None) => (s2, Err("Stack underflow in UNTIL"@), g1),
                        Ok(Some(c)) => if c != 0 {
                            (s2, Ok(()), g1)
                        } else if g1 <= g {
                            run_node(d, n, s2, g1)
                        } else {
                            (s2, Ok(()), g1)
                        },
                    }
                }
            },
            SAst::BeginWhileRepeat { condition, body } => {
                let (s1, o1, g1) = run_list(d, condition, s, g);
                if o1 is Err {
                    (s1, o1, g1)
                } else {
                    let (r, s2) = s_pop(s1);
                    match r {
                        Err(e) => (s2, Err(e), g1),
                        Ok(None) => (s2, Err("Stack underflow in WHILE"@), g1),
                        Ok(Some(c)) => if c == 0 {
                            (s2, Ok(()), g1)
                        } else if g1 <= g {
                            let (s3, o3, g3) = run_list(d, body, s2, g1);
                            if o3 is Err {
                                (s3, o3, g3)
                            } else if g3 <= g {
                                run_node(d, n, s3, g3)
                            } else {
                                (s3, Ok(()), g3)
                            }
                        } else {
                            (s2, Ok(()), g1)
                        },
                    }
                }
            },
            SAst::DoLoop { body, increment, conditional } => {
                let (r, s1) = s_pop2(s);
                match r {
                    Err(e) => (s1, Err(e), g),
                    Ok((Some(start), Some(limit))) => if start >= limit {
                        (s1, Ok(()), g)
                    } else {
                        let s2 = MState { loops: s1.loops.push((start, limit)), ..s1 };
                        let (s3, o3, g3) = run_do(d, body, increment, s2, g);
                        (pop_loop(s3), o3, g3)
                    },
                    Ok(_) => (s1, Err("Stack underflow in DO"@), g),
                }
            },
            SAst::PrintString(t) => (s_print(s, t), Ok(()), g),
            SAst::StackString(t) => {
                let (s1, o) = stack_string(s, t);
                (s1, o, g)
            },
            SAst::Leave => (s, Err(leave_marker()), g),
            SAst::Exit => (s, Err(exit_marker()), g),
            SAst::Unloop => (pop_loop(s), Ok(()), g),
            SAst::Execute => {
                let (r, s1) = s_pop(s);
                match r {
                    Err(e) => (s1, Err(e), g),
                    Ok(None) => (s1, Err("Stack underflow for EXECUTE"@), g),
                    Ok(Some(xt)) => match xt_name(s1.mem, xt) {
                        Err(e) => (s1, Err(e), g),
                        Ok(name) => run_word(d, name, s1, g),
                    },
                }
            },
            SAst::InlineInstruction(i) => (s,
                Err("Inline instruction "@ + i + " can only be used in JIT-compiled words"@), g),
            SAst::TickLiteral(name) => {
                let (s1, o) = tick_literal(s, name);
                (s1, o, g)
            },
        }
    }
}

/// Run nodes in order; the first error stops the run.
pub open spec fn run_list(d: DictView, v: Seq<SAst>, s: MState, f: nat) -> (MState, Outcome, nat)
    decreases f, list_size(v), 0nat,
{
    if v.len() == 0 {
        (s, Ok(()), f)
    } else {
        let (s1, o1, f1) = run_node(d, v[0], s, f);
        if o1 is Err {
            (s1, o1, f1)
        } else if f1 <= f {
            run_list(d, v.subrange(1, v.len() as int), s1, f1)
        } else {
            (s1, o1, f1)
        }
    }
}

/// One pass of a DO loop body and what follows it, with `f` steps.
pub open spec fn run_do(d: DictView, body: Seq<SAst>, inc: i64, s: MState, f: nat) -> (MState, Outcome, nat)
    decreases f, 0nat, 0nat,
{
    if f == 0 {
        (s, Err(exhausted()), 0)
    } else {
        let g = (f - 1) as nat;
        let (s1, o1, g1) = run_list(d, body, s, g);
        match o1 {
            Err(e) => if e == leave_marker() { (s1, Ok(()), g1) } else { (s1, Err(e), g1) },
            Ok(()) => {
                let (ri, s2) = if inc == 0 { s_pop(s1) } else { (Ok(Some(inc)), s1) };
                match ri {
                    Err(e) => (s2, Err(e), g1),
                    Ok(None) => (s2, Err("Stack underflow in +LOOP"@), g1),
                    Ok(Some(k)) => {
                        let (s3, cont) = loop_increment(s2, k);
                        if cont && g1 < f { run_do(d, body, inc, s3, g1) } else { (s3, Ok(()), g1) }
                    },
                }
            },
        }
    }
}

/// Call the word `name`, with `f` steps.
pub open spec fn run_word(d: DictView, name: Seq<char>, s: MState, f: nat) -> (MState, Outcome, nat)
    decreases f, 1nat, 0nat,
{
    if f == 0 {
        (s, Err(exhausted()), 0)
    } else {
        let g = (f - 1) as nat;
        match d.lookup(name) {
            None => (s, Err("Unknown word: "@ + name), g),
            Some(AWord::Primitive(p)) => if p == Primitive::Evaluate {
                run_evaluate(d, s, f)
            } else if p == Primitive::Catch {
                run_catch(d, s, f)
            } else {
                let (s1, o) = prim_step(p, s);
                (s1, o, g)
            },
            Some(AWord::Compiled(a)) => {
                if is_tail_rec(a, name) {
                    tco_loop(d, a, name, s, g)
                } else {
                    let (s1, o, g1) = run_node(d, a, s, g);
                    (s1, absorb_exit(o), g1)
                }
            },
            Some(AWord::JITCompiled(_)) => (s, Err("Native code is not available for word: "@ + name), g),
        }
    }
}

/// EVALUATE ( addr len -- ): run the text as Forth words in the current
/// dictionary. Errors are reported on standard error and execution goes on, except
/// for BYE and an exhausted budget.
pub open spec fn run_evaluate(d: DictView, s: MState, f: nat) -> (MState, Outcome, nat)
    decreases f, 0nat, 0nat,
{
    if f == 0 {
        (s, Err(exhausted()), 0)
    } else {
        let g = (f - 1) as nat;
        let (r, s1) = s_pop2(s);
        match r {
            Err(e) => (s1, Err(e), g),
            Ok((Some(len), Some(addr))) => match read_text(s1.mem, addr, len) {
                Err(e) => (s_eprint(s1, "EVALUATE string error: "@ + e + "\n"@), Ok(()), g),
                Ok(code) => {
                    let (s2, o, g2) = match prepared(split_ws(strip_spec(code)), true, d) {
                        Err(e) => (s1, Err(e), g),
                        Ok(a) => run_node(d, a, s1, g),
                    };
                    match o {
                        Ok(()) => (s2, Ok(()), g2),
                        Err(e) => if is_fatal(e) {
                            (s2, Err(e), g2)
                        } else {
                            (s_eprint(s2, "EVALUATE error: "@ + e + "\n"@), Ok(()), g2)
                        },
                    }
                },
            },
            Ok(_) => (s_eprint(s1, "EVALUATE: Stack underflow\n"@), Ok(()), g),
        }
    }
}

/// CATCH ( addr len -- code ): run the text; push 0 on success, or report the
/// error, cut the stack back to its depth after the operands and push -1. An
/// unreadable text pushes -3.
pub open spec fn run_catch(d: DictView, s: MState, f: nat) -> (MState, Outcome, nat)
    decreases f, 0nat, 0nat,
{
    if f == 0 {
        (s, Err(exhausted()), 0)
    } else {
        let g = (f - 1) as nat;
        let (r, s1) = s_pop2(s);
        match r {
            Err(e) => (s1, Err(e), g),
            Ok((Some(len), Some(addr))) => {
                let saved = s1.sp / 8;
                match read_text(s1.mem, addr, len) {
                    Err(e) => push_code(s_eprint(s1, "CATCH string error: "@ + e + "\n"@), -3i64, g),
                    Ok(code) => {
                        let (s2, o, g2) = match prepared(split_ws(code), false, d) {
                            Err(e) => (s1, Err(e), g),
                            Ok(a) => run_node(d, a, s1, g),
                        };
                        match o {
                            Ok(()) => push_code(s2, 0, g2),
                            Err(e) => if is_fatal(e) {
                                (s2, Err(e), g2)
                            } else {
                                push_code(unwind(s_eprint(s2, "CATCH: Caught error: "@ + e + "\n"@), saved),
                                    -1i64, g2)
                            },
                        }
                    },
                }
            },
            Ok(_) => (s_eprint(s1, "CATCH: Stack underflow\n"@), Ok(()), g),
        }
    }
}

/// Run a tail-recursive word body until it stops calling itself in tail position:
/// each pass uses one step.
pub open spec fn tco_loop(d: DictView, a: SAst, w: Seq<char>, s: MState, f: nat) -> (MState, Outcome, nat)
    decreases f, 0nat, 0nat,
{
    if f == 0 {
        (s, Err(exhausted()), 0)
    } else {
        let (s1, r, f1) = tco_node(d, a, w, s, (f - 1) as nat);
        match r {
            Ok(true) => if f1 < f { tco_loop(d, a, w, s1, f1) } else { (s1, Ok(()), f1) },
            Ok(false) => (s1, Ok(()), f1),
            Err(e) => (s1, absorb_exit(Err(e)), f1),
        }
    }
}

/// Run a word body, stopping with `Ok(true)` instead of making a tail call of `w`.
pub open spec fn tco_node(d: DictView, n: SAst, w: Seq<char>, s: MState, f: nat)
    -> (MState, Result<bool, Seq<char>>, nat)
    decreases f, size(n), 1nat,
{
    match n {
        SAst::Sequence(v) => tco_list(d, v, w, true, s, f),
        SAst::IfThenElse { then_branch, else_branch } => {
            let (r, s1) = s_pop(s);
            match r {
                Err(e) => (s1, Err(e), f),
                Ok(None) => (s1, Err("Stack underflow in IF"@), f),
                Ok(Some(c)) => if c != 0 {
                    tco_list(d, then_branch, w, false, s1, f)
                } else {
                    match else_branch {
                        Some(e) => tco_list(d, e, w, false, s1, f),
                        None => (s1, Ok(false), f),
                    }
                },
            }
        },
        SAst::CallWord(nm) => if same_name(nm, w) {
            (s, Ok(true), f)
        } else {
            let (s1, o, f1) = run_word(d, nm, s, f);
            (s1, no_tail(o), f1)
        },
        _ => {
            let (s1, o, f1) = run_node(d, n, s, f);
            (s1, no_tail(o), f1)
        },
    }
}

/// Run a list of nodes, stopping with `Ok(true)` at a last node that calls `w`
/// (or, when `allow_if`, at a last IF whose branches may end with such a call).
pub open spec fn tco_list(d: DictView, v: Seq<SAst>, w: Seq<char>, allow_if: bool, s: MState, f: nat)
    -> (MState, Result<bool, Seq<char>>, nat)
    decreases f, list_size(v), 1nat,
{
    if v.len() == 0 {
        (s, Ok(false), f)
    } else if v.len() == 1 && tail_call(v[0], w) {
        (s, Ok(true), f)
    } else if v.len() == 1 && allow_if && (v[0] matches SAst::IfThenElse { then_branch, else_branch }
        && (ends_with_call(then_branch, w) || (else_branch matches Some(e) && ends_with_call(e, w)))) {
        tco_node(d, v[0], w, s, f)
    } else {
        let (s1, o1, f1) = run_node(d, v[0], s, f);
        if o1 is Err {
            (s1, no_tail(o1), f1)
        } else if v.len() == 1 {
            (s1, Ok(false), f1)
        } else if f1 <= f {
            tco_list(d, v.subrange(1, v.len() as int), w, allow_if, s1, f1)
        } else {
            (s1, Ok(false), f1)
        }
    }
}

// ---------------------------------------------------------------------------
// Lemmas
// ---------------------------------------------------------------------------

/// `S" text"` stores the UTF-8 bytes of the text at HERE, moves HERE (and its copy
/// at `DP_ADDR`) past them, and pushes the address and then the length; it uses
/// one step. Later writes win: the copy of HERE is as stated when the two pushed
/// cells do not cover it, and the text is as stated when neither the copy nor
/// the pushed cells cover it.
pub proof fn law_stack_string(d: DictView, t: Seq<char>, s: MState, f: nat)
    requires
        f > 0,
        s.mem.len() == MEMORY_SIZE,
        0 <= s.dp,
        s.dp + utf8_encode(t).len() < MEMORY_SIZE,
        0 <= s.sp,
        s.sp + 16 <= MEMORY_SIZE,
    ensures
        ({
            let b = utf8_encode(t);
            let (s2, o, g) = run_node(d, SAst::StackString(t), s, f);
            &&& o == Ok::<(), Seq<char>>(())
            &&& g == f - 1
            &&& s2.dp == s.dp + b.len()
            &&& s2.sp == s.sp + 16
            &&& le_decode(s2.mem, s.sp) == s.dp
            &&& le_decode(s2.mem, s.sp + 8) == b.len()
            &&& (s.sp + 16 <= DP_ADDR || DP_ADDR + 8 <= s.sp) ==> le_decode(s2.mem, DP_ADDR as int) == s2.dp
            &&& ((s.dp + b.len() <= DP_ADDR || DP_ADDR + 8 <= s.dp)
                && (s.dp + b.len() <= s.sp || s.sp + 16 <= s.dp))
                ==> forall|k: int| 0 <= k < b.len() ==> #[trigger] s2.mem[s.dp + k] == b[k]
        }),
{
    let b = utf8_encode(t);
    let m1 = write_bytes(s.mem, s.dp, b);
    let n = s.dp + b.len();
    let m2 = write_cell(m1, DP_ADDR as int, n as i64);
    let m3 = write_cell(m2, s.sp, s.dp as i64);
    let m4 = write_cell(m3, s.sp + 8, b.len() as i64);
    law_store_then_fetch(m1, DP_ADDR as int, n as i64);
    law_store_then_fetch(m2, s.sp, s.dp as i64);
    law_store_then_fetch(m3, s.sp + 8, b.len() as i64);
    assert(store_seq(s, s.dp, b) == (MState { mem: m1, ..s }, Ok::<(), Seq<char>>(())));
    if (s.dp + b.len() <= DP_ADDR || DP_ADDR + 8 <= s.dp) && (s.dp + b.len() <= s.sp || s.sp + 16 <= s.dp) {
        assert forall|k: int| 0 <= k < b.len() implies #[trigger] m4[s.dp + k] == b[k] by {
            assert(m1[s.dp + k] == b[k]);
            assert(m2[s.dp + k] == m1[s.dp + k]);
            assert(m3[s.dp + k] == m2[s.dp + k]);
        }
    }
    if s.sp + 16 <= DP_ADDR || DP_ADDR + 8 <= s.sp {
        assert(le_decode(m4, DP_ADDR as int) == n) by {
            assert forall|k: int| DP_ADDR <= k < DP_ADDR + 8 implies m4[k] == m2[k] by {
                assert(m3[k] == m2[k]);
            }
            assert(m4[DP_ADDR as int] == m2[DP_ADDR as int] && m4[DP_ADDR + 1] == m2[DP_ADDR + 1]
                && m4[DP_ADDR + 2] == m2[DP_ADDR + 2] && m4[DP_ADDR + 3] == m2[DP_ADDR + 3]
                && m4[DP_ADDR + 4] == m2[DP_ADDR + 4] && m4[DP_ADDR + 5] == m2[DP_ADDR + 5]
                && m4[DP_ADDR + 6] == m2[DP_ADDR + 6] && m4[DP_ADDR + 7] == m2[DP_ADDR + 7]);
        }
    }
    assert(le_decode(m4, s.sp) == s.dp) by {
        assert(m4[s.sp] == m3[s.sp] && m4[s.sp + 1] == m3[s.sp + 1] && m4[s.sp + 2] == m3[s.sp + 2]
            && m4[s.sp + 3] == m3[s.sp + 3] && m4[s.sp + 4] == m3[s.sp + 4] && m4[s.sp + 5] == m3[s.sp + 5]
            && m4[s.sp + 6] == m3[s.sp + 6] && m4[s.sp + 7] == m3[s.sp + 7]);
    }
}

/// Every node of a list is smaller than the list.
pub proof fn lemma_list_size_elem(v: Seq<SAst>, i: int)
    requires
        0 <= i < v.len(),
    ensures
        size(v[i]) < list_size(v),
    decreases v.len(),
{
    if i > 0 {
        let rest = v.subrange(1, v.len() as int);
        assert(rest[i - 1] == v[i]);
        lemma_list_size_elem(rest, i - 1);
    }
}

proof fn lemma_byte_mask(x: u8)
    ensures
        ((x as i64) & 0xffi64) as u8 == x,
{
    assert(((x as i64) & 0xffi64) as u8 == x) by (bit_vector);
}

// ---------------------------------------------------------------------------
// Executable helpers
// ---------------------------------------------------------------------------

pub(crate) fn exhausted_error() -> (e: String)
    ensures
        e@ == exhausted(),
{
    "Execution step limit exceeded".to_string()
}

/// Use one step of the budget; `false` (and nothing changed) when none is left.
pub(crate) fn consume(m: &mut Machine) -> (ok: bool)
    ensures
        ok == (old(m).steps > 0),
        ok ==> final(m).steps == old(m).steps - 1,
        !ok ==> final(m).steps == old(m).steps,
        final(m).view() == old(m).view(),
        final(m).wf() == old(m).wf(),
{
    if m.steps == 0 {
        false
    } else {
        m.steps = m.steps - 1;
        true
    }
}

pub(crate) fn prefixed(prefix: &str, t: &str) -> (s: String)
    ensures
        s@ == prefix@ + t@,
{
    let mut all = chars_of(prefix);
    let more = chars_of(t);
    extend_chars(&mut all, &more);
    string_from_chars(&all)
}

fn eprint3(m: &mut Machine, a: &str, b: &str, c: &str)
    ensures
        final(m).view() == s_eprint(old(m).view(), a@ + b@ + c@),
        final(m).steps == old(m).steps,
        final(m).memory == old(m).memory,
{
    let ghost s0 = m.view();
    m.eprint_str(a);
    m.eprint_str(b);
    m.eprint_str(c);
    assert(m.view().err =~= s0.err + (a@ + b@ + c@));
}

fn same_name_exec(a: &str, b: &str) -> (r: bool)
    ensures
        r == same_name(a@, b@),
{
    let ua = to_uppercase(a);
    let ub = to_uppercase(b);
    str_eq(ua.as_str(), ub.as_str())
}

fn absorb_exit_exec(r: Result<(), String>) -> (o: Result<(), String>)
    ensures
        outcome(o) == absorb_exit(outcome(r)),
{
    match r {
        Err(e) => if str_eq(e.as_str(), "EXIT") { Ok(()) } else { Err(e) },
        Ok(()) => Ok(()),
    }
}

fn no_tail_exec(r: Result<(), String>) -> (o: Result<bool, String>)
    ensures
        popped(o) == no_tail(outcome(r)),
{
    match r {
        Err(e) => Err(e),
        Ok(()) => Ok(false),
    }
}

fn is_fatal_exec(e: &String) -> (b: bool)
    ensures
        b == is_fatal(e@),
{
    str_eq(e.as_str(), "BYE") || str_eq(e.as_str(), "Execution step limit exceeded")
}

/// Store `b` byte by byte from `addr` on.
fn store_bytes(m: &mut Machine, addr: usize, b: &Vec<u8>) -> (r: Result<(), String>)
    requires
        old(m).wf(),
        addr < MEMORY_SIZE,
    ensures
        final(m).wf(),
        final(m).steps == old(m).steps,
        (final(m).view(), outcome(r)) == store_seq(old(m).view(), addr as int, b@),
{
    let ghost s0 = m.view();
    let mut k: usize = 0;
    assert(write_bytes(s0.mem, addr as int, b@.take(0)) =~= s0.mem);
    while k < b.len()
        invariant
            k <= b@.len(),
            addr < MEMORY_SIZE,
            addr + k <= MEMORY_SIZE,
            m.wf(),
            m.steps == old(m).steps,
            s0 == old(m).view(),
            m.view() == (MState { mem: write_bytes(s0.mem, addr as int, b@.take(k as int)), ..s0 }),
        decreases b@.len() - k,
    {
        let ghost before = m.memory.bytes();
        proof { lemma_byte_mask(b@[k as int]); }
        match m.memory.store_byte(addr + k, b[k] as i64) {
            Err(e) => {
                assert(addr + k == MEMORY_SIZE);
                assert(b@.take(k as int) =~= b@.take(MEMORY_SIZE - addr));
                return Err(e);
            },
            Ok(()) => {},
        }
        assert(m.memory.bytes() =~= write_bytes(s0.mem, addr as int, b@.take(k + 1)));
        k = k + 1;
    }
    assert(b@.take(b@.len() as int) =~= b@);
    Ok(())
}

pub(crate) fn allot_exec(m: &mut Machine, n: i64) -> (r: Result<(), String>)
    requires
        old(m).wf(),
    ensures
        final(m).wf(),
        final(m).steps == old(m).steps,
        (final(m).view(), outcome(r)) == s_allot(old(m).view(), n),
{
    m.memory.allot(n)
}

fn stack_string_exec(m: &mut Machine, t: &String) -> (r: Result<(), String>)
    requires
        old(m).wf(),
    ensures
        final(m).wf(),
        final(m).steps == old(m).steps,
        (final(m).view(), outcome(r)) == stack_string(old(m).view(), t@),
{
    let addr = m.memory.here();
    let b = utf8_bytes(t.as_str());
    match store_bytes(m, addr as usize, &b) {
        Err(e) => return Err(e),
        Ok(()) => {},
    }
    match allot_exec(m, b.len() as i64) {
        Err(e) => return Err(e),
        Ok(()) => {},
    }
    push2(m, addr, b.len() as i64)
}

fn tick_literal_exec(m: &mut Machine, name: &String) -> (r: Result<(), String>)
    requires
        old(m).wf(),
    ensures
        final(m).wf(),
        final(m).steps == old(m).steps,
        (final(m).view(), outcome(r)) == tick_literal(old(m).view(), name@),
{
    let addr = m.memory.here();
    let b = utf8_bytes(name.as_str());
    let mut counted: Vec<u8> = Vec::new();
    counted.push(((b.len() as i64) & 0xff) as u8);
    let mut k: usize = 0;
    while k < b.len()
        invariant
            k <= b@.len(),
            counted@ == seq![((b@.len() as i64) & 0xffi64) as u8] + b@.take(k as int),
        decreases b@.len() - k,
    {
        counted.push(b[k]);
        k = k + 1;
        assert(counted@ =~= seq![((b@.len() as i64) & 0xffi64) as u8] + b@.take(k as int));
    }
    assert(b@.take(b@.len() as int) =~= b@);
    match store_bytes(m, addr as usize, &counted) {
        Err(e) => return Err(e),
        Ok(()) => {},
    }
    match allot_exec(m, (1 + b.len()) as i64) {
        Err(e) => return Err(e),
        Ok(()) => {},
    }
    m.push_value(addr)
}

/// The name stored at an execution token.
fn xt_name_exec(m: &Machine, xt: i64) -> (r: Result<String, String>)
    requires
        m.wf(),
    ensures
        match r {
            Ok(s) => xt_name(m.view().mem, xt) == Ok::<Seq<char>, Seq<char>>(s@),
            Err(e) => xt_name(m.view().mem, xt) == Err::<Seq<char>, Seq<char>>(e@),
        },
{
    let a = xt as usize;
    let len = match m.memory.fetch_byte(a) {
        Err(e) => return Err(e),
        Ok(v) => v as usize,
    };
    let ghost mem = m.view().mem;
    let mut cs: Vec<char> = Vec::new();
    let mut k: usize = 0;
    while k < len
        invariant
            a < MEMORY_SIZE,
            a == xt as usize,
            mem == m.view().mem,
            m.wf(),
            len == mem[a as int] as int,
            k <= len,
            a + 1 + k <= MEMORY_SIZE,
            cs@ == mem.subrange(a + 1, a + 1 + k).map_values(|x: u8| x as char),
        decreases len - k,
    {
        match m.memory.fetch_byte(a + 1 + k) {
            Err(e) => {
                assert(a + 1 + k == MEMORY_SIZE);
                return Err(e);
            },
            Ok(v) => {
                let byte = v as u8;
                cs.push(byte as char);
            },
        }
        k = k + 1;
        assert(cs@ =~= mem.subrange(a + 1, a + 1 + k).map_values(|x: u8| x as char));
    }
    Ok(string_from_chars(&cs))
}

/// The `len` bytes at `addr`.
pub(crate) fn read_bytes_exec(m: &Machine, addr: i64, len: i64) -> (r: Result<Vec<u8>, String>)
    requires
        m.wf(),
    ensures
        match r {
            Ok(b) => read_bytes(m.view().mem, addr, len) == Ok::<Seq<u8>, Seq<char>>(b@),
            Err(e) => read_bytes(m.view().mem, addr, len) == Err::<Seq<u8>, Seq<char>>(e@),
        },
{
    let a = addr as usize;
    let n = len as usize;
    let ghost mem = m.view().mem;
    let mut bytes: Vec<u8> = Vec::new();
    if n > 0 {
        if a >= MEMORY_SIZE {
            match m.memory.fetch_byte(a) {
                Err(e) => return Err(e),
                Ok(_) => { assert(false); },
            }
        }
        if n > MEMORY_SIZE - a {
            match m.memory.fetch_byte(MEMORY_SIZE) {
                Err(e) => return Err(e),
                Ok(_) => { assert(false); },
            }
        }
        let mut k: usize = 0;
        while k < n
            invariant
                a + n <= MEMORY_SIZE,
                mem == m.view().mem,
                m.wf(),
                k <= n,
                bytes@ == mem.subrange(a as int, a + k),
            decreases n - k,
        {
            match m.memory.fetch_byte(a + k) {
                Err(_) => { assert(false); return Err(String::new()); },
                Ok(v) => bytes.push(v as u8),
            }
            k = k + 1;
            assert(bytes@ =~= mem.subrange(a as int, a + k));
        }
    } else {
        assert(bytes@ =~= Seq::<u8>::empty());
    }
    Ok(bytes)
}

/// The text at `addr`/`len`, decoded as UTF-8.
fn read_text_exec(m: &Machine, addr: i64, len: i64) -> (r: Result<String, String>)
    requires
        m.wf(),
    ensures
        match r {
            Ok(s) => read_text(m.view().mem, addr, len) == Ok::<Seq<char>, Seq<char>>(s@),
            Err(e) => read_text(m.view().mem, addr, len) == Err::<Seq<char>, Seq<char>>(e@),
        },
{
    let bytes = match read_bytes_exec(m, addr, len) {
        Err(e) => return Err(e),
        Ok(b) => b,
    };
    match decode_utf8(bytes) {
        Ok(s) => Ok(s),
        Err(why) => Err(prefixed("Invalid UTF-8: ", why.as_str())),
    }
}

/// Borrow the strings of a vector as string slices.
pub fn str_refs<'a>(v: &'a Vec<String>) -> (r: Vec<&'a str>)
    ensures
        toks_view(r@) == strings_view(v@),
{
    let mut r: Vec<&'a str> = Vec::new();
    let mut k: usize = 0;
    while k < v.len()
        invariant
            k <= v@.len(),
            r@.len() == k,
            forall|j: int| 0 <= j < k ==> (#[trigger] r@[j])@ == v@[j]@,
        decreases v@.len() - k,
    {
        let t = v[k].as_str();
        r.push(t);
        k = k + 1;
    }
    assert(toks_view(r@) =~= strings_view(v@));
    r
}

fn is_self_call(n: &AstNode, w: &str) -> (b: bool)
    ensures
        b == tail_call(view_node(*n), w@),
{
    match n {
        AstNode::CallWord(nm) => same_name_exec(nm.as_str(), w),
        _ => false,
    }
}

fn ends_with_call_exec(v: &Vec<AstNode>, w: &str) -> (b: bool)
    ensures
        b == ends_with_call(view_list(v@), w@),
{
    proof { lemma_view_list(v@); }
    v.len() > 0 && is_self_call(&v[v.len() - 1], w)
}

fn if_with_tail_call(n: &AstNode, w: &str) -> (b: bool)
    ensures
        b == (view_node(*n) matches SAst::IfThenElse { then_branch, else_branch }
            && (ends_with_call(then_branch, w@) || (else_branch matches Some(e) && ends_with_call(e, w@)))),
{
    match n {
        AstNode::IfThenElse { then_branch, else_branch } => {
            ends_with_call_exec(then_branch, w) || match else_branch {
                Some(e) => ends_with_call_exec(e, w),
                None => false,
            }
        },
        _ => false,
    }
}

fn is_tail_rec_exec(n: &AstNode, w: &str) -> (b: bool)
    ensures
        b == is_tail_rec(view_node(*n), w@),
    decreases size(view_node(*n)),
{
    match n {
        AstNode::CallWord(nm) => same_name_exec(nm.as_str(), w),
        AstNode::Sequence(v) => {
            proof { lemma_view_list(v@); }
            if v.len() == 0 {
                false
            } else {
                proof { lemma_list_size_elem(view_list(v@), v.len() - 1); }
                is_tail_rec_exec(&v[v.len() - 1], w)
            }
        },
        AstNode::IfThenElse { then_branch, else_branch } => {
            proof { lemma_view_list(then_branch@); }
            let a = if then_branch.len() > 0 {
                proof { lemma_list_size_elem(view_list(then_branch@), then_branch.len() - 1); }
                is_tail_rec_exec(&then_branch[then_branch.len() - 1], w)
            } else {
                false
            };
            if a {
                true
            } else {
                match else_branch {
                    Some(e) => {
                        proof { lemma_view_list(e@); }
                        if e.len() > 0 {
                            proof { lemma_list_size_elem(view_list(e@), e.len() - 1); }
                            is_tail_rec_exec(&e[e.len() - 1], w)
                        } else {
                            false
                        }
                    },
                    None => false,
                }
            }
        },
        _ => false,
    }
}

// ---------------------------------------------------------------------------
// The interpreter
// ---------------------------------------------------------------------------

/// The abstract result of a run: state, outcome and steps left.
pub open spec fn ran(m: Machine, r: Result<(), String>) -> (MState, Outcome, nat) {
    (m.view(), outcome(r), m.steps as nat)
}

/// The abstract result of a tail-call check.
pub open spec fn checked(m: Machine, r: Result<bool, String>) -> (MState, Result<bool, Seq<char>>, nat) {
    (m.view(), popped(r), m.steps as nat)
}

#[verifier::loop_isolation(false)]
fn run_node_exec(node: &AstNode, dict: &Dictionary, m: &mut Machine) -> (r: Result<(), String>)
    requires
        old(m).wf(),
    ensures
        final(m).wf(),
        final(m).steps <= old(m).steps,
        ran(*final(m), r) == run_node(dict@, view_node(*node), old(m).view(), old(m).steps as nat),
    decreases old(m).steps, size(view_node(*node)), 0nat,
{
    let ghost d = dict@;
    let ghost n = view_node(*node);
    match node {
        AstNode::BeginUntil { body } => {
            loop
                invariant
                    m.wf(),
                    m.steps <= old(m).steps,
                    run_node(d, n, old(m).view(), old(m).steps as nat) == run_node(d, n, m.view(), m.steps as nat),
                decreases m.steps,
            {
                if !consume(m) {
                    return Err(exhausted_error());
                }
                match run_list_exec(body, dict, m) {
                    Err(e) => return Err(e),
                    Ok(()) => {},
                }
                match m.pop_value() {
                    Err(e) => return Err(e),
                    Ok(None) => return Err("Stack underflow in UNTIL".to_string()),
                    Ok(Some(c)) => if c != 0 {
                        return Ok(());
                    },
                }
            }
        },
        AstNode::BeginWhileRepeat { condition, body } => {
            loop
                invariant
                    m.wf(),
                    m.steps <= old(m).steps,
                    run_node(d, n, old(m).view(), old(m).steps as nat) == run_node(d, n, m.view(), m.steps as nat),
                decreases m.steps,
            {
                if !consume(m) {
                    return Err(exhausted_error());
                }
                match run_list_exec(condition, dict, m) {
                    Err(e) => return Err(e),
                    Ok(()) => {},
                }
                match m.pop_value() {
                    Err(e) => return Err(e),
                    Ok(None) => return Err("Stack underflow in WHILE".to_string()),
                    Ok(Some(c)) => if c == 0 {
                        return Ok(());
                    },
                }
                match run_list_exec(body, dict, m) {
                    Err(e) => return Err(e),
                    Ok(()) => {},
                }
            }
        },
        AstNode::DoLoop { body, increment, conditional } => {
            if !consume(m) {
                return Err(exhausted_error());
            }
            match pop2(m) {
                Err(e) => Err(e),
                Ok((Some(start), Some(limit))) => {
                    if start >= limit {
                        return Ok(());
                    }
                    m.loop_stack.push_loop(start, limit);
                    let r = run_do_exec(body, *increment, dict, m);
                    m.loop_stack.pop_loop();
                    r
                },
                Ok(_) => Err("Stack underflow in DO".to_string()),
            }
        },
        AstNode::PushNumber(v) => {
            if !consume(m) {
                return Err(exhausted_error());
            }
            m.push_value(*v)
        },
        AstNode::CallWord(name) => {
            if !consume(m) {
                return Err(exhausted_error());
            }
            run_word_exec(name.as_str(), dict, m)
        },
        AstNode::Sequence(v) => {
            if !consume(m) {
                return Err(exhausted_error());
            }
            let r = run_list_exec(v, dict, m);
            absorb_exit_exec(r)
        },
        AstNode::IfThenElse { then_branch, else_branch } => {
            if !consume(m) {
                return Err(exhausted_error());
            }
            match m.pop_value() {
                Err(e) => Err(e),
                Ok(None) => Err("Stack underflow in IF".to_string()),
                Ok(Some(c)) => if c != 0 {
                    run_list_exec(then_branch, dict, m)
                } else {
                    match else_branch {
                        Some(e) => run_list_exec(e, dict, m),
                        None => Ok(()),
                    }
                },
            }
        },
        AstNode::PrintString(t) => {
            if !consume(m) {
                return Err(exhausted_error());
            }
            m.print_str(t.as_str());
            Ok(())
        },
        AstNode::StackString(t) => {
            if !consume(m) {
                return Err(exhausted_error());
            }
            stack_string_exec(m, t)
        },
        AstNode::Leave => {
            if !consume(m) {
                return Err(exhausted_error());
            }
            Err("LEAVE".to_string())
        },
        AstNode::Exit => {
            if !consume(m) {
                return Err(exhausted_error());
            }
            Err("EXIT".to_string())
        },
        AstNode::Unloop => {
            if !consume(m) {
                return Err(exhausted_error());
            }
            m.loop_stack.pop_loop();
            Ok(())
        },
        AstNode::Execute => {
            if !consume(m) {
                return Err(exhausted_error());
            }
            match m.pop_value() {
                Err(e) => Err(e),
                Ok(None) => Err("Stack underflow for EXECUTE".to_string()),
                Ok(Some(xt)) => match xt_name_exec(m, xt) {
                    Err(e) => Err(e),
                    Ok(name) => run_word_exec(name.as_str(), dict, m),
                },
            }
        },
        AstNode::InlineInstruction(i) => {
            if !consume(m) {
                return Err(exhausted_error());
            }
            Err(message3("Inline instruction ", i.as_str(), " can only be used in JIT-compiled words"))
        },
        AstNode::TickLiteral(name) => {
            if !consume(m) {
                return Err(exhausted_error());
            }
            tick_literal_exec(m, name)
        },
    }
}

#[verifier::loop_isolation(false)]
fn run_list_exec(v: &Vec<AstNode>, dict: &Dictionary, m: &mut Machine) -> (r: Result<(), String>)
    requires
        old(m).wf(),
    ensures
        final(m).wf(),
        final(m).steps <= old(m).steps,
        ran(*final(m), r) == run_list(dict@, view_list(v@), old(m).view(), old(m).steps as nat),
    decreases old(m).steps, list_size(view_list(v@)), 0nat,
{
    let ghost d = dict@;
    let ghost vs = view_list(v@);
    proof { lemma_view_list(v@); }
    let mut i: usize = 0;
    assert(vs.subrange(0, vs.len() as int) =~= vs);
    while i < v.len()
        invariant
            i <= v@.len(),
            m.wf(),
            m.steps <= old(m).steps,
            run_list(d, vs, old(m).view(), old(m).steps as nat)
                == run_list(d, vs.subrange(i as int, vs.len() as int), m.view(), m.steps as nat),
        decreases v@.len() - i,
    {
        let ghost w = vs.subrange(i as int, vs.len() as int);
        assert(w[0] == vs[i as int]);
        assert(w.subrange(1, w.len() as int) =~= vs.subrange(i + 1, vs.len() as int));
        proof { lemma_list_size_elem(vs, i as int); }
        match run_node_exec(&v[i], dict, m) {
            Err(e) => return Err(e),
            Ok(()) => {},
        }
        i = i + 1;
    }
    Ok(())
}

#[verifier::loop_isolation(false)]
fn run_do_exec(body: &Vec<AstNode>, inc: i64, dict: &Dictionary, m: &mut Machine) -> (r: Result<(), String>)
    requires
        old(m).wf(),
    ensures
        final(m).wf(),
        final(m).steps <= old(m).steps,
        ran(*final(m), r) == run_do(dict@, view_list(body@), inc, old(m).view(), old(m).steps as nat),
    decreases old(m).steps, 0nat, 0nat,
{
    let ghost d = dict@;
    let ghost b = view_list(body@);
    loop
        invariant
            m.wf(),
            m.steps <= old(m).steps,
            run_do(d, b, inc, old(m).view(), old(m).steps as nat) == run_do(d, b, inc, m.view(), m.steps as nat),
        decreases m.steps,
    {
        if !consume(m) {
            return Err(exhausted_error());
        }
        match run_list_exec(body, dict, m) {
            Err(e) => {
                if str_eq(e.as_str(), "LEAVE") {
                    return Ok(());
                }
                return Err(e);
            },
            Ok(()) => {},
        }
        let k = if inc == 0 {
            match m.pop_value() {
                Err(e) => return Err(e),
                Ok(None) => return Err("Stack underflow in +LOOP".to_string()),
                Ok(Some(k)) => k,
            }
        } else {
            inc
        };
        if !m.loop_stack.increment(k) {
            return Ok(());
        }
    }
}

#[verifier::loop_isolation(false)]
fn run_word_exec(name: &str, dict: &Dictionary, m: &mut Machine) -> (r: Result<(), String>)
    requires
        old(m).wf(),
    ensures
        final(m).wf(),
        final(m).steps <= old(m).steps,
        ran(*final(m), r) == run_word(dict@, name@, old(m).view(), old(m).steps as nat),
    decreases old(m).steps, 1nat, 0nat,
{
    if m.steps == 0 {
        return Err(exhausted_error());
    }
    match dict.get_word(name) {
        None => {
            m.steps = m.steps - 1;
            Err(prefixed("Unknown word: ", name))
        },
        Some(w) => match w {
            Word::Primitive(p) => match p {
                Primitive::Evaluate => run_evaluate_exec(dict, m),
                Primitive::Catch => run_catch_exec(dict, m),
                _ => {
                    m.steps = m.steps - 1;
                    execute_primitive(*p, m)
                },
            },
            Word::Compiled(ast) => {
                m.steps = m.steps - 1;
                if is_tail_rec_exec(ast, name) {
                    tco_loop_exec(ast, name, dict, m)
                } else {
                    let r = run_node_exec(ast, dict, m);
                    absorb_exit_exec(r)
                }
            },
            Word::JITCompiled(_) => {
                m.steps = m.steps - 1;
                Err(prefixed("Native code is not available for word: ", name))
            },
        },
    }
}

/// Parse tokens for immediate execution; `check` first rejects control-flow words
/// outside a definition.
pub fn prepare(toks: &Vec<String>, check: bool, dict: &Dictionary) -> (r: Result<AstNode, String>)
    ensures
        parsed(r) == prepared(strings_view(toks@), check, dict@),
{
    let refs = str_refs(toks);
    if check && contains_compile_only(refs.as_slice()) {
        return Err(compile_only_msg_exec());
    }
    parse_tokens(refs.as_slice(), dict, None)
}

fn compile_only_msg_exec() -> (e: String)
    ensures
        e@ == compile_only_msg(),
{
    "Control flow words (IF/THEN/ELSE/BEGIN/UNTIL/WHILE/REPEAT/DO/?DO/LOOP/LEAVE/EXIT/UNLOOP) are compile-only".to_string()
}

#[verifier::loop_isolation(false)]
pub(crate) fn run_evaluate_exec(dict: &Dictionary, m: &mut Machine) -> (r: Result<(), String>)
    requires
        old(m).wf(),
    ensures
        final(m).wf(),
        final(m).steps <= old(m).steps,
        ran(*final(m), r) == run_evaluate(dict@, old(m).view(), old(m).steps as nat),
    decreases old(m).steps, 0nat, 0nat,
{
    if !consume(m) {
        return Err(exhausted_error());
    }
    match pop2(m) {
        Err(e) => Err(e),
        Ok((Some(len), Some(addr))) => match read_text_exec(m, addr, len) {
            Err(e) => {
                eprint3(m, "EVALUATE string error: ", e.as_str(), "\n");
                Ok(())
            },
            Ok(code) => {
                let stripped = strip_comments(code.as_str());
                let toks = split_whitespace(stripped.as_str());
                let r = match prepare(&toks, true, dict) {
                    Err(e) => Err(e),
                    Ok(a) => run_node_exec(&a, dict, m),
                };
                match r {
                    Ok(()) => Ok(()),
                    Err(e) => if is_fatal_exec(&e) {
                        Err(e)
                    } else {
                        eprint3(m, "EVALUATE error: ", e.as_str(), "\n");
                        Ok(())
                    },
                }
            },
        },
        Ok(_) => {
            m.eprint_str("EVALUATE: Stack underflow\n");
            Ok(())
        },
    }
}

#[verifier::loop_isolation(false)]
pub(crate) fn run_catch_exec(dict: &Dictionary, m: &mut Machine) -> (r: Result<(), String>)
    requires
        old(m).wf(),
    ensures
        final(m).wf(),
        final(m).steps <= old(m).steps,
        ran(*final(m), r) == run_catch(dict@, old(m).view(), old(m).steps as nat),
    decreases old(m).steps, 0nat, 0nat,
{
    if !consume(m) {
        return Err(exhausted_error());
    }
    match pop2(m) {
        Err(e) => Err(e),
        Ok((Some(len), Some(addr))) => {
            let saved = m.stack.depth();
            match read_text_exec(m, addr, len) {
                Err(e) => {
                    eprint3(m, "CATCH string error: ", e.as_str(), "\n");
                    m.push_value(-3)
                },
                Ok(code) => {
                    let toks = split_whitespace(code.as_str());
                    let r = match prepare(&toks, false, dict) {
                        Err(e) => Err(e),
                        Ok(a) => run_node_exec(&a, dict, m),
                    };
                    match r {
                        Ok(()) => m.push_value(0),
                        Err(e) => if is_fatal_exec(&e) {
                            Err(e)
                        } else {
                            eprint3(m, "CATCH: Caught error: ", e.as_str(), "\n");
                            let depth = m.stack.depth();
                            if depth > saved {
                                let sp = m.stack.get_sp();
                                m.stack.set_sp(sp - 8 * (depth - saved));
                            }
                            m.push_value(-1)
                        },
                    }
                },
            }
        },
        Ok(_) => {
            m.eprint_str("CATCH: Stack underflow\n");
            Ok(())
        },
    }
}

#[verifier::loop_isolation(false)]
fn tco_loop_exec(ast: &AstNode, w: &str, dict: &Dictionary, m: &mut Machine) -> (r: Result<(), String>)
    requires
        old(m).wf(),
    ensures
        final(m).wf(),
        final(m).steps <= old(m).steps,
        ran(*final(m), r) == tco_loop(dict@, view_node(*ast), w@, old(m).view(), old(m).steps as nat),
    decreases old(m).steps, 0nat, 0nat,
{
    let ghost d = dict@;
    let ghost a = view_node(*ast);
    loop
        invariant
            m.wf(),
            m.steps <= old(m).steps,
            tco_loop(d, a, w@, old(m).view(), old(m).steps as nat) == tco_loop(d, a, w@, m.view(), m.steps as nat),
        decreases m.steps,
    {
        if !consume(m) {
            return Err(exhausted_error());
        }
        match tco_node_exec(ast, w, dict, m) {
            Ok(true) => {},
            Ok(false) => return Ok(()),
            Err(e) => return absorb_exit_exec(Err(e)),
        }
    }
}

#[verifier::loop_isolation(false)]
fn tco_node_exec(node: &AstNode, w: &str, dict: &Dictionary, m: &mut Machine) -> (r: Result<bool, String>)
    requires
        old(m).wf(),
    ensures
        final(m).wf(),
        final(m).steps <= old(m).steps,
        checked(*final(m), r) == tco_node(dict@, view_node(*node), w@, old(m).view(), old(m).steps as nat),
    decreases old(m).steps, size(view_node(*node)), 1nat,
{
    match node {
        AstNode::Sequence(v) => tco_list_exec(v, w, true, dict, m),
        AstNode::IfThenElse { then_branch, else_branch } => {
            match m.pop_value() {
                Err(e) => Err(e),
                Ok(None) => Err("Stack underflow in IF".to_string()),
                Ok(Some(c)) => if c != 0 {
                    tco_list_exec(then_branch, w, false, dict, m)
                } else {
                    match else_branch {
                        Some(e) => tco_list_exec(e, w, false, dict, m),
                        None => Ok(false),
                    }
                },
            }
        },
        AstNode::CallWord(nm) => if same_name_exec(nm.as_str(), w) {
            Ok(true)
        } else {
            let r = run_word_exec(nm.as_str(), dict, m);
            no_tail_exec(r)
        },
        _ => {
            let r = run_node_exec(node, dict, m);
            no_tail_exec(r)
        },
    }
}

#[verifier::loop_isolation(false)]
fn tco_list_exec(v: &Vec<AstNode>, w: &str, allow_if: bool, dict: &Dictionary, m: &mut Machine)
    -> (r: Result<bool, String>)
    requires
        old(m).wf(),
    ensures
        final(m).wf(),
        final(m).steps <= old(m).steps,
        checked(*final(m), r) == tco_list(dict@, view_list(v@), w@, allow_if, old(m).view(),
            old(m).steps as nat),
    decreases old(m).steps, list_size(view_list(v@)), 1nat,
{
    let ghost d = dict@;
    let ghost vs = view_list(v@);
    proof { lemma_view_list(v@); }
    let n = v.len();
    if n == 0 {
        return Ok(false);
    }
    let mut i: usize = 0;
    assert(vs.subrange(0, vs.len() as int) =~= vs);
    loop
        invariant
            i < n,
            n == v@.len(),
            m.wf(),
            m.steps <= old(m).steps,
            tco_list(d, vs, w@, allow_if, old(m).view(), old(m).steps as nat)
                == tco_list(d, vs.subrange(i as int, n as int), w@, allow_if, m.view(), m.steps as nat),
        decreases n - i,
    {
        let ghost rest = vs.subrange(i as int, n as int);
        assert(rest[0] == vs[i as int]);
        assert(rest.subrange(1, rest.len() as int) =~= vs.subrange(i + 1, n as int));
        proof { lemma_list_size_elem(vs, i as int); }
        let last = i == n - 1;
        if last && is_self_call(&v[i], w) {
            return Ok(true);
        }
        if last && allow_if && if_with_tail_call(&v[i], w) {
            return tco_node_exec(&v[i], w, dict, m);
        }
        match run_node_exec(&v[i], dict, m) {
            Err(e) => return Err(e),
            Ok(()) => {},
        }
        if last {
            return Ok(false);
        }
        i = i + 1;
    }
}

impl AstNode {
    /// Run this AST on the machine, using the dictionary for word calls. Each
    /// node run and each word call uses one step of `m.steps`.
    pub fn execute(&self, dict: &Dictionary, m: &mut Machine) -> (r: Result<(), String>)
        requires
            old(m).wf(),
        ensures
            final(m).wf(),
            final(m).steps <= old(m).steps,
            ran(*final(m), r) == run_node(dict@, view_node(*self), old(m).view(), old(m).steps as nat),
    {
        run_node_exec(self, dict, m)
    }

    /// Run this AST as the body of `word_name`, stopping with `Ok(true)` where it
    /// would call `word_name` in tail position (so that the caller can loop
    /// instead); `Ok(false)` when it ran to the end.
    pub fn execute_with_tco_check(&self, dict: &Dictionary, m: &mut Machine, word_name: &str)
        -> (r: Result<bool, String>)
        requires
            old(m).wf(),
        ensures
            final(m).wf(),
            final(m).steps <= old(m).steps,
            checked(*final(m), r) == tco_node(dict@, view_node(*self), word_name@, old(m).view(),
                old(m).steps as nat),
    {
        tco_node_exec(self, word_name, dict, m)
    }
}

impl Dictionary {
    /// Run the word named `word` (exact name). A word whose body ends with a call
    /// of itself runs in a loop instead of recursing.
    pub fn execute_word(&self, word: &str, m: &mut Machine) -> (r: Result<(), String>)
        requires
            old(m).wf(),
        ensures
            final(m).wf(),
            final(m).steps <= old(m).steps,
            ran(*final(m), r) == run_word(self@, word@, old(m).view(), old(m).steps as nat),
    {
        run_word_exec(word, self, m)
    }
}

} // verus!
