//! Forth words that inspect the AST nodes registered in the machine: each pops a
//! handle (and an index or address where it needs one), asks the registry and
//! pushes the answer. A failed query, or a stack too short for the word, is
//! reported on standard error and leaves nothing on the stack.

use vstd::prelude::*;
use crate::ast::{AstNode, SAst};
use crate::machine::{Machine, MState, Outcome, outcome, s_pop, s_push, s_eprint};
use crate::registry::{child_query, text_query, res_view, ast_get_type, ast_get_number, ast_get_sequence_length,
    ast_get_loop_increment, ast_get_sequence_child, ast_get_if_then, ast_get_if_else, ast_get_loop_body,
    ast_get_loop_condition, ast_get_word_name, ast_get_string, ast_register_node};
use crate::text::{extend_chars, chars_of};
use crate::words::{Primitive, prim_step, s_pop2, pop2};

verus! {

broadcast use vstd::string::group_string_axioms;

/// What a word named `name` reports when the stack is too short.
pub open spec fn short_stack_line(name: Seq<char>) -> Seq<char> {
    name + ": Stack underflow\n"@
}

/// What a word named `name` reports when its query fails with `e`.
pub open spec fn query_error_line(name: Seq<char>, e: Seq<char>) -> Seq<char> {
    name + " error: "@ + e + "\n"@
}

/// Whether the registry has no room for another handle (handles are `i64`).
pub open spec fn registry_full(s: MState) -> bool {
    s.asts.len() + 1 >= 0x7fff_ffff_ffff_ffff
}

/// The error of a word that would register a node in a full registry.
pub open spec fn registry_full_msg() -> Seq<char> {
    "AST registry full"@
}

/// Push the answer of a query, or report its error.
pub open spec fn answer_step(name: Seq<char>, s: MState, a: Result<i64, Seq<char>>) -> (MState, Outcome) {
    match a {
        Ok(v) => s_push(s, v),
        Err(e) => (s_eprint(s, query_error_line(name, e)), Ok(())),
    }
}

/// A word `( handle -- answer )` whose answer depends on the registry alone.
pub open spec fn value_word_step(name: Seq<char>, s: MState, answer: spec_fn(i64) -> Result<i64, Seq<char>>)
    -> (MState, Outcome)
{
    let (r, s1) = s_pop(s);
    match r {
        Err(e) => (s1, Err(e)),
        Ok(None) => (s_eprint(s1, short_stack_line(name)), Ok(())),
        Ok(Some(h)) => answer_step(name, s1, answer(h)),
    }
}

/// A word `( handle -- child )`, or `( handle index -- child )` when `indexed`,
/// that registers a part of a node (see `child_query` for `kind`) and pushes its
/// handle.
pub open spec fn child_word_step(name: Seq<char>, s: MState, kind: int, indexed: bool) -> (MState, Outcome) {
    if registry_full(s) {
        (s, Err(registry_full_msg()))
    } else if indexed {
        let (r, s1) = s_pop2(s);
        match r {
            Err(e) => (s1, Err(e)),
            Ok((Some(index), Some(h))) => {
                let (reg2, a) = child_query(s1.asts, h, kind, index);
                answer_step(name, MState { asts: reg2, ..s1 }, a)
            },
            Ok(_) => (s_eprint(s1, short_stack_line(name)), Ok(())),
        }
    } else {
        let (r, s1) = s_pop(s);
        match r {
            Err(e) => (s1, Err(e)),
            Ok(Some(h)) => {
                let (reg2, a) = child_query(s1.asts, h, kind, 0);
                answer_step(name, MState { asts: reg2, ..s1 }, a)
            },
            Ok(None) => (s_eprint(s1, short_stack_line(name)), Ok(())),
        }
    }
}

/// A word `( handle addr -- length )` that stores a text of the node (see
/// `text_query` for `kind`) at `addr` and pushes its length in bytes.
pub open spec fn text_word_step(name: Seq<char>, s: MState, kind: int) -> (MState, Outcome) {
    let (r, s1) = s_pop2(s);
    match r {
        Err(e) => (s1, Err(e)),
        Ok((Some(addr), Some(h))) => {
            let (mem2, a) = text_query(s1.asts, h, kind, s1.mem, (addr as usize) as int);
            answer_step(name, MState { mem: mem2, ..s1 }, a)
        },
        Ok(_) => (s_eprint(s1, short_stack_line(name)), Ok(())),
    }
}

/// `TEST-AST-CREATE ( -- handle )`: register the node of the number 42 and push
/// its handle.
pub open spec fn test_create_step(s: MState) -> (MState, Outcome) {
    if registry_full(s) {
        (s, Err(registry_full_msg()))
    } else {
        s_push(MState { asts: s.asts.push(SAst::PushNumber(42)), ..s }, (s.asts.len() + 1) as i64)
    }
}

fn report(m: &mut Machine, name: &str, e: &String)
    ensures
        final(m).view() == s_eprint(old(m).view(), query_error_line(name@, e@)),
        final(m).steps == old(m).steps,
        final(m).memory == old(m).memory,
{
    let mut line = chars_of(name);
    let rest = chars_of(" error: ");
    extend_chars(&mut line, &rest);
    let msg = chars_of(e.as_str());
    extend_chars(&mut line, &msg);
    let nl = chars_of("\n");
    extend_chars(&mut line, &nl);
    m.eprint_chars(&line);
}

fn report_short(m: &mut Machine, name: &str)
    ensures
        final(m).view() == s_eprint(old(m).view(), short_stack_line(name@)),
        final(m).steps == old(m).steps,
        final(m).memory == old(m).memory,
{
    let mut line = chars_of(name);
    let rest = chars_of(": Stack underflow\n");
    extend_chars(&mut line, &rest);
    m.eprint_chars(&line);
}

fn has_room(m: &Machine) -> (b: bool)
    ensures
        b == !registry_full(m.view()),
{
    (m.asts.len() as u64) < 0x7fff_ffff_ffff_fffeu64
}

fn push_answer(m: &mut Machine, name: &str, a: Result<i64, String>) -> (r: Result<(), String>)
    requires
        old(m).wf(),
    ensures
        final(m).wf(),
        final(m).steps == old(m).steps,
        (final(m).view(), outcome(r)) == answer_step(name@, old(m).view(), res_view(a)),
{
    match a {
        Ok(v) => m.push_value(v),
        Err(e) => {
            report(m, name, &e);
            Ok(())
        },
    }
}

fn pop_handle(m: &mut Machine, name: &str) -> (r: Result<Option<i64>, String>)
    requires
        old(m).wf(),
    ensures
        final(m).wf(),
        final(m).steps == old(m).steps,
        ({
            let (p, s1) = s_pop(old(m).view());
            match p {
                Err(e) => r is Err && r->Err_0@ == e && final(m).view() == s1,
                Ok(None) => r == Ok::<Option<i64>, String>(None)
                    && final(m).view() == s_eprint(s1, short_stack_line(name@)),
                Ok(Some(h)) => r == Ok::<Option<i64>, String>(Some(h)) && final(m).view() == s1,
            }
        }),
{
    match m.pop_value() {
        Err(e) => Err(e),
        Ok(None) => {
            report_short(m, name);
            Ok(None)
        },
        Ok(Some(h)) => Ok(Some(h)),
    }
}

fn pop_pair(m: &mut Machine, name: &str) -> (r: Result<Option<(i64, i64)>, String>)
    requires
        old(m).wf(),
    ensures
        final(m).wf(),
        final(m).steps == old(m).steps,
        ({
            let (p, s1) = s_pop2(old(m).view());
            match p {
                Err(e) => r is Err && r->Err_0@ == e && final(m).view() == s1,
                Ok((Some(a), Some(h))) => r == Ok::<Option<(i64, i64)>, String>(Some((a, h)))
                    && final(m).view() == s1,
                Ok(_) => r == Ok::<Option<(i64, i64)>, String>(None)
                    && final(m).view() == s_eprint(s1, short_stack_line(name@)),
            }
        }),
{
    match pop2(m) {
        Err(e) => Err(e),
        Ok((Some(a), Some(h))) => Ok(Some((a, h))),
        Ok(_) => {
            report_short(m, name);
            Ok(None)
        },
    }
}

fn value_word(m: &mut Machine, name: &str, kind: u8) -> (r: Result<(), String>)
    requires
        old(m).wf(),
        kind <= 3,
    ensures
        final(m).wf(),
        final(m).steps == old(m).steps,
        (final(m).view(), outcome(r)) == value_word_step(name@, old(m).view(),
            |h: i64| if kind == 0 {
                crate::registry::type_answer(old(m).view().asts, h)
            } else if kind == 1 {
                crate::registry::number_answer(old(m).view().asts, h)
            } else if kind == 2 {
                crate::registry::length_answer(old(m).view().asts, h)
            } else {
                crate::registry::increment_answer(old(m).view().asts, h)
            }),
{
    match pop_handle(m, name) {
        Err(e) => Err(e),
        Ok(None) => Ok(()),
        Ok(Some(h)) => {
            let a = if kind == 0 {
                ast_get_type(&m.asts, h)
            } else if kind == 1 {
                ast_get_number(&m.asts, h)
            } else if kind == 2 {
                ast_get_sequence_length(&m.asts, h)
            } else {
                ast_get_loop_increment(&m.asts, h)
            };
            push_answer(m, name, a)
        },
    }
}

/// `AST-TYPE ( handle -- code )`: the type code of a node.
pub fn ast_get_type_word(m: &mut Machine) -> (r: Result<(), String>)
    requires
        old(m).wf(),
    ensures
        final(m).wf(),
        final(m).steps == old(m).steps,
        (final(m).view(), outcome(r)) == prim_step(Primitive::AstType, old(m).view()),
{
    value_word(m, "AST-TYPE", 0)
}

/// `AST-GET-NUMBER ( handle -- n )`: the number of a number node.
pub fn ast_get_number_word(m: &mut Machine) -> (r: Result<(), String>)
    requires
        old(m).wf(),
    ensures
        final(m).wf(),
        final(m).steps == old(m).steps,
        (final(m).view(), outcome(r)) == prim_step(Primitive::AstGetNumber, old(m).view()),
{
    value_word(m, "AST-GET-NUMBER", 1)
}

/// `AST-SEQ-LENGTH ( handle -- length )`: the number of nodes in a sequence node.
pub fn ast_seq_length_word(m: &mut Machine) -> (r: Result<(), String>)
    requires
        old(m).wf(),
    ensures
        final(m).wf(),
        final(m).steps == old(m).steps,
        (final(m).view(), outcome(r)) == prim_step(Primitive::AstSeqLength, old(m).view()),
{
    value_word(m, "AST-SEQ-LENGTH", 2)
}

/// `AST-LOOP-INCREMENT ( handle -- increment )`: the increment of a DO loop node.
pub fn ast_loop_increment_word(m: &mut Machine) -> (r: Result<(), String>)
    requires
        old(m).wf(),
    ensures
        final(m).wf(),
        final(m).steps == old(m).steps,
        (final(m).view(), outcome(r)) == prim_step(Primitive::AstLoopIncrement, old(m).view()),
{
    value_word(m, "AST-LOOP-INCREMENT", 3)
}

fn child_word(m: &mut Machine, name: &str, kind: u8, indexed: bool) -> (r: Result<(), String>)
    requires
        old(m).wf(),
        kind <= 4,
    ensures
        final(m).wf(),
        final(m).steps == old(m).steps,
        (final(m).view(), outcome(r)) == child_word_step(name@, old(m).view(), kind as int, indexed),
{
    if !has_room(m) {
        return Err("AST registry full".to_string());
    }
    let (h, index) = if indexed {
        match pop_pair(m, name) {
            Err(e) => return Err(e),
            Ok(None) => return Ok(()),
            Ok(Some((index, h))) => (h, index),
        }
    } else {
        match pop_handle(m, name) {
            Err(e) => return Err(e),
            Ok(None) => return Ok(()),
            Ok(Some(h)) => (h, 0i64),
        }
    };
    let a = if kind == 0 {
        ast_get_sequence_child(&mut m.asts, h, index)
    } else if kind == 1 {
        ast_get_if_then(&mut m.asts, h)
    } else if kind == 2 {
        ast_get_if_else(&mut m.asts, h)
    } else if kind == 3 {
        ast_get_loop_body(&mut m.asts, h)
    } else {
        ast_get_loop_condition(&mut m.asts, h)
    };
    push_answer(m, name, a)
}

/// `AST-SEQ-CHILD ( handle index -- child )`: register the `index`-th node of a
/// sequence node and push its handle.
pub fn ast_seq_child_word(m: &mut Machine) -> (r: Result<(), String>)
    requires
        old(m).wf(),
    ensures
        final(m).wf(),
        final(m).steps == old(m).steps,
        (final(m).view(), outcome(r)) == prim_step(Primitive::AstSeqChild, old(m).view()),
{
    child_word(m, "AST-SEQ-CHILD", 0, true)
}

/// `AST-IF-THEN ( handle -- then )`: register the THEN branch of an IF node and
/// push its handle.
pub fn ast_if_then_word(m: &mut Machine) -> (r: Result<(), String>)
    requires
        old(m).wf(),
    ensures
        final(m).wf(),
        final(m).steps == old(m).steps,
        (final(m).view(), outcome(r)) == prim_step(Primitive::AstIfThen, old(m).view()),
{
    child_word(m, "AST-IF-THEN", 1, false)
}

/// `AST-IF-ELSE ( handle -- else-or-0 )`: register the ELSE branch of an IF node
/// and push its handle, or 0 when there is none.
pub fn ast_if_else_word(m: &mut Machine) -> (r: Result<(), String>)
    requires
        old(m).wf(),
    ensures
        final(m).wf(),
        final(m).steps == old(m).steps,
        (final(m).view(), outcome(r)) == prim_step(Primitive::AstIfElse, old(m).view()),
{
    child_word(m, "AST-IF-ELSE", 2, false)
}

/// `AST-LOOP-BODY ( handle -- body )`: register the body of a loop node and push
/// its handle.
pub fn ast_loop_body_word(m: &mut Machine) -> (r: Result<(), String>)
    requires
        old(m).wf(),
    ensures
        final(m).wf(),
        final(m).steps == old(m).steps,
        (final(m).view(), outcome(r)) == prim_step(Primitive::AstLoopBody, old(m).view()),
{
    child_word(m, "AST-LOOP-BODY", 3, false)
}

/// `AST-LOOP-CONDITION ( handle -- condition )`: register the condition of a
/// BEGIN ... WHILE ... REPEAT node and push its handle.
pub fn ast_loop_condition_word(m: &mut Machine) -> (r: Result<(), String>)
    requires
        old(m).wf(),
    ensures
        final(m).wf(),
        final(m).steps == old(m).steps,
        (final(m).view(), outcome(r)) == prim_step(Primitive::AstLoopCondition, old(m).view()),
{
    child_word(m, "AST-LOOP-CONDITION", 4, false)
}

fn text_word(m: &mut Machine, name: &str, kind: u8) -> (r: Result<(), String>)
    requires
        old(m).wf(),
        kind == 0 || kind == 2,
    ensures
        final(m).wf(),
        final(m).steps == old(m).steps,
        (final(m).view(), outcome(r)) == text_word_step(name@, old(m).view(), kind as int),
{
    let (addr, h) = match pop_pair(m, name) {
        Err(e) => return Err(e),
        Ok(None) => return Ok(()),
        Ok(Some(p)) => p,
    };
    let a = if kind == 0 {
        ast_get_word_name(&m.asts, h, &mut m.memory, addr as usize)
    } else {
        ast_get_string(&m.asts, h, &mut m.memory, addr as usize)
    };
    push_answer(m, name, a)
}

/// `AST-GET-WORD ( handle addr -- length )`: store the name a call node calls at
/// `addr` and push its length in bytes.
pub fn ast_get_word_word(m: &mut Machine) -> (r: Result<(), String>)
    requires
        old(m).wf(),
    ensures
        final(m).wf(),
        final(m).steps == old(m).steps,
        (final(m).view(), outcome(r)) == prim_step(Primitive::AstGetWord, old(m).view()),
{
    text_word(m, "AST-GET-WORD", 0)
}

/// `AST-GET-STRING ( handle addr -- length )`: store the text of a printed or
/// stack string node at `addr` and push its length in bytes.
pub fn ast_get_string_word(m: &mut Machine) -> (r: Result<(), String>)
    requires
        old(m).wf(),
    ensures
        final(m).wf(),
        final(m).steps == old(m).steps,
        (final(m).view(), outcome(r)) == prim_step(Primitive::AstGetString, old(m).view()),
{
    text_word(m, "AST-GET-STRING", 2)
}

/// `TEST-AST-CREATE ( -- handle )`: register the node of the number 42 and push
/// its handle.
pub fn test_ast_create_word(m: &mut Machine) -> (r: Result<(), String>)
    requires
        old(m).wf(),
    ensures
        final(m).wf(),
        final(m).steps == old(m).steps,
        (final(m).view(), outcome(r)) == prim_step(Primitive::TestAstCreate, old(m).view()),
{
    if !has_room(m) {
        return Err("AST registry full".to_string());
    }
    let h = ast_register_node(&mut m.asts, AstNode::PushNumber(42));
    m.push_value(h)
}

} // verus!
