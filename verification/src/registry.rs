//! A registry of AST nodes addressed by integer handles, so that Forth code can
//! inspect parsed programs.
//!
//! Handles are 1, 2, 3, ... in registration order; 0 never names a node.

use vstd::prelude::*;
use crate::ast::{AstNode, SAst, view_node, view_list, lemma_view_list, duplicate_list};
use crate::interp::{prefixed, write_bytes};
use crate::memory::{Memory, MEMORY_SIZE, store_byte_error};
use crate::text::{chars_of, decimal_i64, extend_chars, spec_decimal_int, string_from_chars, utf8_bytes,
    utf8_encode, spec_to_uppercase, to_uppercase, str_eq};

verus! {

broadcast use vstd::string::group_string_axioms;

/// Registered AST nodes; the node with handle `h` is at index `h - 1`.
pub struct AstRegistry {
    nodes: Vec<AstNode>,
}

impl View for AstRegistry {
    type V = Seq<SAst>;

    closed spec fn view(&self) -> Seq<SAst> {
        view_list(self.nodes@)
    }
}

/// The node with handle `h`.
pub open spec fn node_at(r: Seq<SAst>, h: i64) -> Option<SAst> {
    if 1 <= h <= r.len() { Some(r[h - 1]) } else { None }
}

/// The error for a handle that names no node.
pub open spec fn invalid_handle(h: i64) -> Seq<char> {
    "Invalid AST handle: "@ + spec_decimal_int(h as int)
}

/// The type code of a node: 1 number, 2 word call, 3 sequence, 4 IF, 5 BEGIN-UNTIL,
/// 6 BEGIN-WHILE-REPEAT, 7 DO-LOOP, 8 printed string, 9 stack string, 10 LEAVE,
/// 11 EXIT, 12 inline instruction, 13 UNLOOP, 14 EXECUTE, 15 tick literal.
pub open spec fn type_code(n: SAst) -> i64 {
    match n {
        SAst::PushNumber(_) => 1,
        SAst::CallWord(_) => 2,
        SAst::Sequence(_) => 3,
        SAst::IfThenElse { .. } => 4,
        SAst::BeginUntil { .. } => 5,
        SAst::BeginWhileRepeat { .. } => 6,
        SAst::DoLoop { .. } => 7,
        SAst::PrintString(_) => 8,
        SAst::StackString(_) => 9,
        SAst::Leave => 10,
        SAst::Exit => 11,
        SAst::InlineInstruction(_) => 12,
        SAst::Unloop => 13,
        SAst::Execute => 14,
        SAst::TickLiteral(_) => 15,
    }
}

/// Memory after storing the UTF-8 bytes of `t` at `addr`, and the error for the
/// first byte outside memory.
pub open spec fn store_text(mem: Seq<u8>, addr: int, t: Seq<char>) -> (Seq<u8>, Result<i64, Seq<char>>) {
    let b = utf8_encode(t);
    if b.len() == 0 || addr + b.len() <= MEMORY_SIZE {
        (write_bytes(mem, addr, b), Ok(b.len() as i64))
    } else if addr < MEMORY_SIZE {
        (write_bytes(mem, addr, b.take(MEMORY_SIZE - addr)),
            Err("Failed to store string: "@ + store_byte_error(MEMORY_SIZE as int)))
    } else {
        (mem, Err("Failed to store string: "@ + store_byte_error(addr)))
    }
}

/// A result as a pair of abstract values.
pub open spec fn res_view(r: Result<i64, String>) -> Result<i64, Seq<char>> {
    match r {
        Ok(v) => Ok(v),
        Err(e) => Err(e@),
    }
}

fn handle_error(h: i64) -> (e: String)
    ensures
        e@ == invalid_handle(h),
{
    let mut all = chars_of("Invalid AST handle: ");
    let d = decimal_i64(h);
    extend_chars(&mut all, &d);
    string_from_chars(&all)
}

fn store_text_exec(memory: &mut Memory, addr: usize, t: &String) -> (r: Result<i64, String>)
    requires
        old(memory).wf(),
    ensures
        final(memory).wf(),
        final(memory).dp() == old(memory).dp(),
        (final(memory).bytes(), res_view(r)) == store_text(old(memory).bytes(), addr as int, t@),
{
    let b = utf8_bytes(t.as_str());
    let ghost m0 = memory.bytes();
    let mut k: usize = 0;
    assert(write_bytes(m0, addr as int, b@.take(0)) =~= m0);
    while k < b.len()
        invariant
            k <= b@.len(),
            b@ == utf8_encode(t@),
            memory.wf(),
            memory.dp() == old(memory).dp(),
            m0 == old(memory).bytes(),
            addr + k <= MEMORY_SIZE || k == 0,
            memory.bytes() == write_bytes(m0, addr as int, b@.take(k as int)),
        decreases b@.len() - k,
    {
        let x = b[k];
        assert(((x as i64) & 0xffi64) as u8 == x) by (bit_vector);
        match memory.store_byte(addr + k, x as i64) {
            Err(e) => {
                if k == 0 {
                    assert(addr >= MEMORY_SIZE);
                    assert(memory.bytes() == m0);
                } else {
                    assert(addr + k == MEMORY_SIZE);
                    assert(b@.take(k as int) =~= b@.take(MEMORY_SIZE - addr));
                }
                let msg = prefixed("Failed to store string: ", e.as_str());
                return Err(msg);
            },
            Ok(()) => {},
        }
        assert(memory.bytes() =~= write_bytes(m0, addr as int, b@.take(k + 1)));
        k = k + 1;
    }
    assert(b@.take(b@.len() as int) =~= b@);
    Ok(b.len() as i64)
}

/// The error for a node of another kind.
pub open spec fn wrong_kind(what: Seq<char>) -> Seq<char> {
    "AST node is not "@ + what
}

/// The type code of the node with handle `h`.
pub open spec fn type_answer(r: Seq<SAst>, h: i64) -> Result<i64, Seq<char>> {
    match node_at(r, h) {
        None => Err(invalid_handle(h)),
        Some(n) => Ok(type_code(n)),
    }
}

/// The number of the number node with handle `h`.
pub open spec fn number_answer(r: Seq<SAst>, h: i64) -> Result<i64, Seq<char>> {
    match node_at(r, h) {
        None => Err(invalid_handle(h)),
        Some(SAst::PushNumber(v)) => Ok(v),
        Some(_) => Err(wrong_kind("a PushNumber"@)),
    }
}

/// The number of nodes in the sequence node with handle `h`.
pub open spec fn length_answer(r: Seq<SAst>, h: i64) -> Result<i64, Seq<char>> {
    match node_at(r, h) {
        None => Err(invalid_handle(h)),
        Some(SAst::Sequence(v)) => Ok(v.len() as i64),
        Some(_) => Err(wrong_kind("a Sequence"@)),
    }
}

/// The increment of the DO loop node with handle `h`.
pub open spec fn increment_answer(r: Seq<SAst>, h: i64) -> Result<i64, Seq<char>> {
    match node_at(r, h) {
        None => Err(invalid_handle(h)),
        Some(SAst::DoLoop { increment, .. }) => Ok(increment),
        Some(_) => Err(wrong_kind("a DoLoop"@)),
    }
}

/// The node a handle-returning query registers, if it succeeds.
pub open spec fn child_of(kind: int, n: SAst, index: i64) -> Result<Option<SAst>, Seq<char>> {
    if kind == 0 {
        match n {
            SAst::Sequence(v) => if 0 <= index < v.len() { Ok(Some(v[index as int])) } else {
                Err("Sequence index out of bounds: "@ + spec_decimal_int(index as int)) },
            _ => Err(wrong_kind("a Sequence"@)),
        }
    } else if kind == 1 {
        match n {
            SAst::IfThenElse { then_branch, .. } => Ok(Some(SAst::Sequence(then_branch))),
            _ => Err(wrong_kind("an IfThenElse"@)),
        }
    } else if kind == 2 {
        match n {
            SAst::IfThenElse { else_branch, .. } => match else_branch {
                Some(e) => Ok(Some(SAst::Sequence(e))),
                None => Ok(None),
            },
            _ => Err(wrong_kind("an IfThenElse"@)),
        }
    } else if kind == 3 {
        match n {
            SAst::BeginUntil { body } => Ok(Some(SAst::Sequence(body))),
            SAst::BeginWhileRepeat { body, .. } => Ok(Some(SAst::Sequence(body))),
            SAst::DoLoop { body, .. } => Ok(Some(SAst::Sequence(body))),
            _ => Err(wrong_kind("a loop"@)),
        }
    } else {
        match n {
            SAst::BeginWhileRepeat { condition, .. } => Ok(Some(SAst::Sequence(condition))),
            _ => Err(wrong_kind("a BeginWhileRepeat"@)),
        }
    }
}

/// The registry and result after a handle-returning query of kind `kind` on `h`:
/// the selected node is registered and its new handle returned (0 when there is
/// nothing to select); on error nothing changes.
pub open spec fn child_query(r: Seq<SAst>, h: i64, kind: int, index: i64) -> (Seq<SAst>, Result<i64, Seq<char>>) {
    match node_at(r, h) {
        None => (r, Err(invalid_handle(h))),
        Some(n) => match child_of(kind, n, index) {
            Err(e) => (r, Err(e)),
            Ok(None) => (r, Ok(0)),
            Ok(Some(c)) => (r.push(c), Ok((r.len() + 1) as i64)),
        },
    }
}

/// The text a string query stores: the word of a call (kind 0), the instruction
/// (kind 1), or the text of a printed or stack string (kind 2).
pub open spec fn text_of(kind: int, n: SAst) -> Result<Seq<char>, Seq<char>> {
    if kind == 0 {
        match n {
            SAst::CallWord(w) => Ok(w),
            _ => Err(wrong_kind("a CallWord"@)),
        }
    } else if kind == 1 {
        match n {
            SAst::InlineInstruction(i) => Ok(i),
            _ => Err(wrong_kind("an InlineInstruction"@)),
        }
    } else {
        match n {
            SAst::PrintString(t) => Ok(t),
            SAst::StackString(t) => Ok(t),
            _ => Err(wrong_kind("a PrintString or StackString"@)),
        }
    }
}

/// Memory and result after a string query: the text is stored at `addr` and its
/// length in bytes returned.
pub open spec fn text_query(r: Seq<SAst>, h: i64, kind: int, mem: Seq<u8>, addr: int)
    -> (Seq<u8>, Result<i64, Seq<char>>)
{
    match node_at(r, h) {
        None => (mem, Err(invalid_handle(h))),
        Some(n) => match text_of(kind, n) {
            Err(e) => (mem, Err(e)),
            Ok(t) => store_text(mem, addr, t),
        },
    }
}

impl AstRegistry {
    /// An empty registry.
    pub fn new() -> (r: Self)
        ensures
            r@ == Seq::<SAst>::empty(),
    {
        let r = AstRegistry { nodes: Vec::new() };
        assert(r@ =~= Seq::<SAst>::empty());
        r
    }

    /// Number of registered nodes.
    pub fn len(&self) -> (n: usize)
        ensures
            n == self@.len(),
    {
        proof { lemma_view_list(self.nodes@); }
        self.nodes.len()
    }

    fn push_node(&mut self, node: AstNode) -> (h: i64)
        requires
            old(self)@.len() < 0x7fff_ffff_ffff_ffff,
        ensures
            final(self)@ == old(self)@.push(view_node(node)),
            h == old(self)@.len() + 1,
    {
        proof { lemma_view_list(self.nodes@); }
        self.nodes.push(node);
        proof {
            lemma_view_list(self.nodes@);
            assert(self@ =~= old(self)@.push(view_node(node)));
        }
        self.nodes.len() as i64
    }

    fn index_of(&self, h: i64) -> (r: Option<usize>)
        ensures
            match r {
                Some(i) => node_at(self@, h) == Some(view_node(self.nodes@[i as int])) && i < self.nodes@.len()
                    && i == h - 1,
                None => node_at(self@, h) is None,
            },
    {
        proof { lemma_view_list(self.nodes@); }
        if h < 1 || h as u64 > self.nodes.len() as u64 {
            None
        } else {
            Some((h - 1) as usize)
        }
    }
}

/// Register a node; its handle is returned.
pub fn ast_register_node(reg: &mut AstRegistry, node: AstNode) -> (h: i64)
    requires
        old(reg)@.len() < 0x7fff_ffff_ffff_ffff,
    ensures
        final(reg)@ == old(reg)@.push(view_node(node)),
        h == old(reg)@.len() + 1,
{
    reg.push_node(node)
}

/// Remove every node; handles start again at 1.
pub fn ast_clear_registry(reg: &mut AstRegistry)
    ensures
        final(reg)@ == Seq::<SAst>::empty(),
{
    reg.nodes = Vec::new();
    assert(reg@ =~= Seq::<SAst>::empty());
}

/// Reset the shared state used between test runs: the AST registry is cleared.
pub fn clear_test_state(reg: &mut AstRegistry)
    ensures
        final(reg)@ == Seq::<SAst>::empty(),
{
    ast_clear_registry(reg);
}

/// The type code of a node.
pub fn ast_get_type(reg: &AstRegistry, handle: i64) -> (r: Result<i64, String>)
    ensures
        res_view(r) == type_answer(reg@, handle),
{
    match reg.index_of(handle) {
        None => Err(handle_error(handle)),
        Some(i) => {
            let code: i64 = match &reg.nodes[i] {
                AstNode::PushNumber(_) => 1,
                AstNode::CallWord(_) => 2,
                AstNode::Sequence(_) => 3,
                AstNode::IfThenElse { .. } => 4,
                AstNode::BeginUntil { .. } => 5,
                AstNode::BeginWhileRepeat { .. } => 6,
                AstNode::DoLoop { .. } => 7,
                AstNode::PrintString(_) => 8,
                AstNode::StackString(_) => 9,
                AstNode::Leave => 10,
                AstNode::Exit => 11,
                AstNode::InlineInstruction(_) => 12,
                AstNode::Unloop => 13,
                AstNode::Execute => 14,
                AstNode::TickLiteral(_) => 15,
            };
            Ok(code)
        },
    }
}

/// The number of a number node.
pub fn ast_get_number(reg: &AstRegistry, handle: i64) -> (r: Result<i64, String>)
    ensures
        res_view(r) == number_answer(reg@, handle),
{
    match reg.index_of(handle) {
        None => Err(handle_error(handle)),
        Some(i) => match &reg.nodes[i] {
            AstNode::PushNumber(v) => Ok(*v),
            _ => Err(prefixed("AST node is not ", "a PushNumber")),
        },
    }
}

/// The number of nodes in a sequence node.
pub fn ast_get_sequence_length(reg: &AstRegistry, handle: i64) -> (r: Result<i64, String>)
    ensures
        res_view(r) == length_answer(reg@, handle),
{
    match reg.index_of(handle) {
        None => Err(handle_error(handle)),
        Some(i) => match &reg.nodes[i] {
            AstNode::Sequence(v) => {
                proof { lemma_view_list(v@); }
                Ok(v.len() as i64)
            },
            _ => Err(prefixed("AST node is not ", "a Sequence")),
        },
    }
}

/// The increment of a DO loop node (1 for LOOP, 0 for +LOOP).
pub fn ast_get_loop_increment(reg: &AstRegistry, handle: i64) -> (r: Result<i64, String>)
    ensures
        res_view(r) == increment_answer(reg@, handle),
{
    match reg.index_of(handle) {
        None => Err(handle_error(handle)),
        Some(i) => match &reg.nodes[i] {
            AstNode::DoLoop { increment, .. } => Ok(*increment),
            _ => Err(prefixed("AST node is not ", "a DoLoop")),
        },
    }
}

fn child_query_exec(reg: &mut AstRegistry, handle: i64, kind: u8, index: i64) -> (r: Result<i64, String>)
    requires
        old(reg)@.len() < 0x7fff_ffff_ffff_ffff,
        kind <= 4,
    ensures
        (final(reg)@, res_view(r)) == child_query(old(reg)@, handle, kind as int, index),
{
    let i = match reg.index_of(handle) {
        None => return Err(handle_error(handle)),
        Some(i) => i,
    };
    let picked: Result<Option<AstNode>, String> = match &reg.nodes[i] {
        AstNode::Sequence(v) => {
            proof { lemma_view_list(v@); }
            if kind == 0 {
                if index < 0 || index as u64 >= v.len() as u64 {
                    let mut all = chars_of("Sequence index out of bounds: ");
                    let d = decimal_i64(index);
                    extend_chars(&mut all, &d);
                    Err(string_from_chars(&all))
                } else {
                    Ok(Some(v[index as usize].duplicate()))
                }
            } else if kind == 1 || kind == 2 {
                Err(prefixed("AST node is not ", "an IfThenElse"))
            } else if kind == 3 {
                Err(prefixed("AST node is not ", "a loop"))
            } else {
                Err(prefixed("AST node is not ", "a BeginWhileRepeat"))
            }
        },
        AstNode::IfThenElse { then_branch, else_branch } => {
            if kind == 1 {
                Ok(Some(AstNode::Sequence(duplicate_list(then_branch))))
            } else if kind == 2 {
                match else_branch {
                    Some(e) => Ok(Some(AstNode::Sequence(duplicate_list(e)))),
                    None => Ok(None),
                }
            } else if kind == 0 {
                Err(prefixed("AST node is not ", "a Sequence"))
            } else if kind == 3 {
                Err(prefixed("AST node is not ", "a loop"))
            } else {
                Err(prefixed("AST node is not ", "a BeginWhileRepeat"))
            }
        },
        AstNode::BeginUntil { body } => {
            if kind == 3 {
                Ok(Some(AstNode::Sequence(duplicate_list(body))))
            } else {
                Err(kind_error(kind))
            }
        },
        AstNode::BeginWhileRepeat { condition, body } => {
            if kind == 3 {
                Ok(Some(AstNode::Sequence(duplicate_list(body))))
            } else if kind == 4 {
                Ok(Some(AstNode::Sequence(duplicate_list(condition))))
            } else {
                Err(kind_error(kind))
            }
        },
        AstNode::DoLoop { body, .. } => {
            if kind == 3 {
                Ok(Some(AstNode::Sequence(duplicate_list(body))))
            } else {
                Err(kind_error(kind))
            }
        },
        _ => Err(kind_error(kind)),
    };
    match picked {
        Err(e) => Err(e),
        Ok(None) => Ok(0),
        Ok(Some(c)) => Ok(reg.push_node(c)),
    }
}

fn kind_error(kind: u8) -> (e: String)
    requires
        kind <= 4,
    ensures
        e@ == wrong_kind(if kind == 0 { "a Sequence"@ } else if kind == 1 || kind == 2 { "an IfThenElse"@ }
            else if kind == 3 { "a loop"@ } else { "a BeginWhileRepeat"@ }),
{
    if kind == 0 {
        prefixed("AST node is not ", "a Sequence")
    } else if kind == 1 || kind == 2 {
        prefixed("AST node is not ", "an IfThenElse")
    } else if kind == 3 {
        prefixed("AST node is not ", "a loop")
    } else {
        prefixed("AST node is not ", "a BeginWhileRepeat")
    }
}

/// Register the `index`-th node of a sequence node; its handle is returned.
pub fn ast_get_sequence_child(reg: &mut AstRegistry, handle: i64, index: i64) -> (r: Result<i64, String>)
    requires
        old(reg)@.len() < 0x7fff_ffff_ffff_ffff,
    ensures
        (final(reg)@, res_view(r)) == child_query(old(reg)@, handle, 0, index),
{
    child_query_exec(reg, handle, 0, index)
}

/// Register the THEN branch of an IF node as a sequence; its handle is returned.
pub fn ast_get_if_then(reg: &mut AstRegistry, handle: i64) -> (r: Result<i64, String>)
    requires
        old(reg)@.len() < 0x7fff_ffff_ffff_ffff,
    ensures
        (final(reg)@, res_view(r)) == child_query(old(reg)@, handle, 1, 0),
{
    child_query_exec(reg, handle, 1, 0)
}

/// Register the ELSE branch of an IF node as a sequence; its handle is returned,
/// or 0 when there is no ELSE branch.
pub fn ast_get_if_else(reg: &mut AstRegistry, handle: i64) -> (r: Result<i64, String>)
    requires
        old(reg)@.len() < 0x7fff_ffff_ffff_ffff,
    ensures
        (final(reg)@, res_view(r)) == child_query(old(reg)@, handle, 2, 0),
{
    child_query_exec(reg, handle, 2, 0)
}

/// Register the body of a loop node as a sequence; its handle is returned.
pub fn ast_get_loop_body(reg: &mut AstRegistry, handle: i64) -> (r: Result<i64, String>)
    requires
        old(reg)@.len() < 0x7fff_ffff_ffff_ffff,
    ensures
        (final(reg)@, res_view(r)) == child_query(old(reg)@, handle, 3, 0),
{
    child_query_exec(reg, handle, 3, 0)
}

/// Register the condition of a BEGIN ... WHILE ... REPEAT node as a sequence; its
/// handle is returned.
pub fn ast_get_loop_condition(reg: &mut AstRegistry, handle: i64) -> (r: Result<i64, String>)
    requires
        old(reg)@.len() < 0x7fff_ffff_ffff_ffff,
    ensures
        (final(reg)@, res_view(r)) == child_query(old(reg)@, handle, 4, 0),
{
    child_query_exec(reg, handle, 4, 0)
}

fn text_query_exec(reg: &AstRegistry, handle: i64, kind: u8, memory: &mut Memory, addr: usize)
    -> (r: Result<i64, String>)
    requires
        old(memory).wf(),
        kind <= 2,
    ensures
        final(memory).wf(),
        final(memory).dp() == old(memory).dp(),
        (final(memory).bytes(), res_view(r)) == text_query(reg@, handle, kind as int, old(memory).bytes(),
            addr as int),
{
    let i = match reg.index_of(handle) {
        None => return Err(handle_error(handle)),
        Some(i) => i,
    };
    match &reg.nodes[i] {
        AstNode::CallWord(w) => if kind == 0 {
            store_text_exec(memory, addr, w)
        } else if kind == 1 {
            Err(prefixed("AST node is not ", "an InlineInstruction"))
        } else {
            Err(prefixed("AST node is not ", "a PrintString or StackString"))
        },
        AstNode::InlineInstruction(w) => if kind == 1 {
            store_text_exec(memory, addr, w)
        } else if kind == 0 {
            Err(prefixed("AST node is not ", "a CallWord"))
        } else {
            Err(prefixed("AST node is not ", "a PrintString or StackString"))
        },
        AstNode::PrintString(w) => if kind == 2 {
            store_text_exec(memory, addr, w)
        } else if kind == 0 {
            Err(prefixed("AST node is not ", "a CallWord"))
        } else {
            Err(prefixed("AST node is not ", "an InlineInstruction"))
        },
        AstNode::StackString(w) => if kind == 2 {
            store_text_exec(memory, addr, w)
        } else if kind == 0 {
            Err(prefixed("AST node is not ", "a CallWord"))
        } else {
            Err(prefixed("AST node is not ", "an InlineInstruction"))
        },
        _ => if kind == 0 {
            Err(prefixed("AST node is not ", "a CallWord"))
        } else if kind == 1 {
            Err(prefixed("AST node is not ", "an InlineInstruction"))
        } else {
            Err(prefixed("AST node is not ", "a PrintString or StackString"))
        },
    }
}

/// Store the word name of a call node at `addr`; its length in bytes is returned.
pub fn ast_get_word_name(reg: &AstRegistry, handle: i64, memory: &mut Memory, addr: usize)
    -> (r: Result<i64, String>)
    requires
        old(memory).wf(),
    ensures
        final(memory).wf(),
        final(memory).dp() == old(memory).dp(),
        (final(memory).bytes(), res_view(r)) == text_query(reg@, handle, 0, old(memory).bytes(), addr as int),
{
    text_query_exec(reg, handle, 0, memory, addr)
}

/// Store the instruction name of an inline-instruction node at `addr`; its length
/// in bytes is returned.
pub fn ast_get_inline_instruction(reg: &AstRegistry, handle: i64, memory: &mut Memory, addr: usize)
    -> (r: Result<i64, String>)
    requires
        old(memory).wf(),
    ensures
        final(memory).wf(),
        final(memory).dp() == old(memory).dp(),
        (final(memory).bytes(), res_view(r)) == text_query(reg@, handle, 1, old(memory).bytes(), addr as int),
{
    text_query_exec(reg, handle, 1, memory, addr)
}

/// Store the text of a printed-string or stack-string node at `addr`; its length
/// in bytes is returned.
pub fn ast_get_string(reg: &AstRegistry, handle: i64, memory: &mut Memory, addr: usize)
    -> (r: Result<i64, String>)
    requires
        old(memory).wf(),
    ensures
        final(memory).wf(),
        final(memory).dp() == old(memory).dp(),
        (final(memory).bytes(), res_view(r)) == text_query(reg@, handle, 2, old(memory).bytes(), addr as int),
{
    text_query_exec(reg, handle, 2, memory, addr)
}

// ---------------------------------------------------------------------------
// Native-code registry
// ---------------------------------------------------------------------------

/// Native-code entry points by (upper-case) word name.
pub struct JitRegistry {
    entries: Vec<(String, usize)>,
}

/// The abstract entries of a native-code registry, oldest first.
pub open spec fn jit_entries(v: Seq<(String, usize)>) -> Seq<(Seq<char>, usize)> {
    v.map_values(|e: (String, usize)| (e.0@, e.1))
}

/// The most recent entry point registered under `k`.
pub open spec fn jit_find(s: Seq<(Seq<char>, usize)>, k: Seq<char>) -> Option<usize>
    decreases s.len(),
{
    if s.len() == 0 {
        None
    } else if s.last().0 == k {
        Some(s.last().1)
    } else {
        jit_find(s.drop_last(), k)
    }
}

impl View for JitRegistry {
    type V = Seq<(Seq<char>, usize)>;

    closed spec fn view(&self) -> Seq<(Seq<char>, usize)> {
        jit_entries(self.entries@)
    }
}

impl JitRegistry {
    /// An empty registry.
    pub fn new() -> (r: Self)
        ensures
            r@ == Seq::<(Seq<char>, usize)>::empty(),
    {
        let r = JitRegistry { entries: Vec::new() };
        assert(r@ =~= Seq::<(Seq<char>, usize)>::empty());
        r
    }
}

/// Register native code for a word (the name is upper-cased).
pub fn register_jit_function(reg: &mut JitRegistry, name: String, jit_fn: usize) -> (r: Result<(), String>)
    ensures
        final(reg)@ == old(reg)@.push((spec_to_uppercase(name@), jit_fn)),
        r is Ok,
{
    let u = to_uppercase(name.as_str());
    reg.entries.push((u, jit_fn));
    assert(reg@ =~= old(reg)@.push((spec_to_uppercase(name@), jit_fn)));
    Ok(())
}

/// The native code registered for a word (looked up upper-cased).
pub fn get_jit_function(reg: &JitRegistry, name: &str) -> (r: Option<usize>)
    ensures
        r == jit_find(reg@, spec_to_uppercase(name@)),
{
    let u = to_uppercase(name);
    let ghost k = spec_to_uppercase(name@);
    let ghost e = reg@;
    let mut i = reg.entries.len();
    assert(e.subrange(0, i as int) =~= e);
    while i > 0
        invariant
            i <= reg.entries@.len(),
            e == reg@,
            e.len() == reg.entries@.len(),
            u@ == k,
            k == spec_to_uppercase(name@),
            jit_find(e, k) == jit_find(e.subrange(0, i as int), k),
        decreases i,
    {
        let ghost sub = e.subrange(0, i as int);
        assert(sub.last() == e[i - 1]);
        assert(e[i - 1] == (reg.entries@[i - 1].0@, reg.entries@[i - 1].1));
        if str_eq(reg.entries[i - 1].0.as_str(), u.as_str()) {
            assert(sub.last().0 == k);
            assert(jit_find(sub, k) == Some(sub.last().1));
            return Some(reg.entries[i - 1].1);
        }
        assert(sub.drop_last() =~= e.subrange(0, i - 1));
        i = i - 1;
    }
    None
}

/// Whether native code is registered for a word.
pub fn is_jit_compiled(reg: &JitRegistry, name: &str) -> (b: bool)
    ensures
        b == (jit_find(reg@, spec_to_uppercase(name@)) is Some),
{
    get_jit_function(reg, name).is_some()
}

/// Forget every registration.
pub fn clear_jit_registry(reg: &mut JitRegistry)
    ensures
        final(reg)@ == Seq::<(Seq<char>, usize)>::empty(),
{
    reg.entries = Vec::new();
    assert(reg@ =~= Seq::<(Seq<char>, usize)>::empty());
}

/// A registration is found by its name, whatever its case, until the name is
/// registered again.
pub proof fn law_jit_register_find(s: Seq<(Seq<char>, usize)>, name: Seq<char>, f: usize)
    ensures
        jit_find(s.push((spec_to_uppercase(name), f)), spec_to_uppercase(name)) == Some(f),
{
}

} // verus!
