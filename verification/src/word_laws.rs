//! What the stack words do, stated over the cells of the data stack: the
//! arithmetic of `/MOD`, the bitwise complement of `INVERT`, the rotation of
//! `ROT`, and how CATCH cuts the stack back after an error.

use vstd::prelude::*;
use crate::memory::{MEMORY_SIZE, le_decode, write_cell, law_store_then_fetch};
use crate::machine::{MState, s_pop, s_push, s_peek, s_rpop, s_rpush, s_print};
use crate::stack::RETURN_STACK_BASE;
use crate::memory::cell_in_bounds;
use crate::words::{Primitive, prim_step, s_pop2, s_pop3, s_push2, s_push3, BinOp, UnOp, binop, unop,
    step_binary, step_unary};
use crate::dictionary::DictView;
use crate::interp::{run_catch, run_evaluate, run_node, read_text, prepared, is_fatal, unwind};
use crate::lexer::{split_ws, strip_spec};

verus! {

/// The cells of the data stack, bottom first (the last one is the top).
pub open spec fn stack_cells(s: MState) -> Seq<i64> {
    Seq::new((s.sp / 8) as nat, |i: int| le_decode(s.mem, 8 * i))
}

/// A data stack of whole cells inside memory.
pub open spec fn stack_ok(s: MState) -> bool {
    &&& s.mem.len() == MEMORY_SIZE
    &&& 0 <= s.sp <= MEMORY_SIZE
    &&& s.sp % 8 == 0
}

/// Everything but the memory and the stack pointer is as it was.
pub open spec fn same_rest(a: MState, b: MState) -> bool {
    &&& a.dp == b.dp
    &&& a.rp == b.rp
    &&& a.loops == b.loops
    &&& a.out == b.out
    &&& a.err == b.err
    &&& a.input == b.input
    &&& a.pos == b.pos
    &&& a.asts == b.asts
}

proof fn lemma_cell_same(m1: Seq<u8>, m2: Seq<u8>, addr: int)
    requires
        forall|k: int| addr <= k < addr + 8 ==> m1[k] == m2[k],
    ensures
        le_decode(m1, addr) == le_decode(m2, addr),
{
    assert(m1[addr] == m2[addr] && m1[addr + 1] == m2[addr + 1] && m1[addr + 2] == m2[addr + 2]
        && m1[addr + 3] == m2[addr + 3] && m1[addr + 4] == m2[addr + 4] && m1[addr + 5] == m2[addr + 5]
        && m1[addr + 6] == m2[addr + 6] && m1[addr + 7] == m2[addr + 7]);
}

/// Popping a non-empty stack gives its top cell and leaves the cells below.
pub proof fn lemma_pop_cells(s: MState)
    requires
        stack_ok(s),
        s.sp >= 8,
    ensures
        s_pop(s) == (Ok::<Option<i64>, Seq<char>>(Some(stack_cells(s).last())), MState { sp: s.sp - 8, ..s }),
        stack_ok(MState { sp: s.sp - 8, ..s }),
        stack_cells(MState { sp: s.sp - 8, ..s }) == stack_cells(s).drop_last(),
{
    let n = s.sp / 8;
    assert(s.sp - 8 == 8 * (n - 1));
    assert(stack_cells(s).last() == le_decode(s.mem, s.sp - 8));
    assert(stack_cells(MState { sp: s.sp - 8, ..s }) =~= stack_cells(s).drop_last());
}

/// Pushing onto a stack with room adds the cell on top and keeps the cells below.
pub proof fn lemma_push_cells(s: MState, v: i64)
    requires
        stack_ok(s),
        s.sp + 8 <= MEMORY_SIZE,
    ensures
        s_push(s, v) == (MState { mem: write_cell(s.mem, s.sp, v), sp: s.sp + 8, ..s }, Ok::<(), Seq<char>>(())),
        stack_ok(s_push(s, v).0),
        stack_cells(s_push(s, v).0) == stack_cells(s).push(v),
{
    let s2 = s_push(s, v).0;
    law_store_then_fetch(s.mem, s.sp, v);
    assert(s2.sp / 8 == s.sp / 8 + 1);
    assert forall|i: int| 0 <= i < s.sp / 8 implies #[trigger] le_decode(s2.mem, 8 * i) == le_decode(s.mem, 8 * i) by {
        assert(8 * i + 8 <= s.sp);
        lemma_cell_same(s2.mem, s.mem, 8 * i);
    }
    assert(8 * (s.sp / 8) == s.sp);
    assert(stack_cells(s2) =~= stack_cells(s).push(v));
}

/// `a b /MOD` leaves the remainder `r` beneath the quotient `q` (on top), with
/// `q * b + r == a`, `|r| < |b|` and `r` zero or of the sign of `a`: division
/// rounding toward zero. The cells below `a` stay.
pub proof fn law_slash_mod(s: MState)
    requires
        stack_ok(s),
        s.sp >= 16,
        stack_cells(s).last() != 0,
        !(stack_cells(s)[stack_cells(s).len() - 2] == i64::MIN && stack_cells(s).last() == -1),
    ensures
        ({
            let c = stack_cells(s);
            let n = c.len() as int;
            let a = c[n - 2] as int;
            let b = c[n - 1] as int;
            let (s2, o) = prim_step(Primitive::SlashMod, s);
            let c2 = stack_cells(s2);
            let q = c2[n - 1] as int;
            let r = c2[n - 2] as int;
            &&& o == Ok::<(), Seq<char>>(())
            &&& c2.len() == n
            &&& c2.subrange(0, n - 2) == c.subrange(0, n - 2)
            &&& q * b + r == a
            &&& (if r < 0 { -r } else { r }) < (if b < 0 { -b } else { b })
            &&& (r == 0 || (r < 0) == (a < 0))
        }),
{
    let c = stack_cells(s);
    let n = c.len() as int;
    let a = c[n - 2];
    let b = c[n - 1];
    lemma_pop_cells(s);
    let s1 = MState { sp: s.sp - 8, ..s };
    lemma_pop_cells(s1);
    let s2 = MState { sp: s.sp - 16, ..s };
    assert(stack_cells(s1).last() == a);
    assert(s_pop2(s) == (Ok::<(Option<i64>, Option<i64>), Seq<char>>((Some(b), Some(a))), s2));
    let rr = crate::words::cell_rem(a, b);
    let qq = crate::words::cell_div(a, b);
    lemma_push_cells(s2, rr);
    let s3 = s_push(s2, rr).0;
    lemma_push_cells(s3, qq);
    lemma_trunc_div_rem(a as int, b as int);
    crate::words::lemma_trunc_div_range(a as int, b as int);
    assert(stack_cells(s2) =~= c.subrange(0, n - 2));
    let c2 = stack_cells(prim_step(Primitive::SlashMod, s).0);
    assert(c2 == c.subrange(0, n - 2).push(rr).push(qq));
    assert(c2.subrange(0, n - 2) =~= c.subrange(0, n - 2));
}

/// Division rounding toward zero: quotient times divisor plus remainder gives the
/// dividend, the remainder is smaller than the divisor and has the dividend's sign.
proof fn lemma_trunc_div_rem(x: int, d: int)
    requires
        d != 0,
    ensures
        crate::words::trunc_div(x, d) * d + crate::words::trunc_rem(x, d) == x,
        (if crate::words::trunc_rem(x, d) < 0 { -crate::words::trunc_rem(x, d) } else { crate::words::trunc_rem(x, d) })
            < (if d < 0 { -d } else { d }),
        crate::words::trunc_rem(x, d) == 0 || (crate::words::trunc_rem(x, d) < 0) == (x < 0),
{
    if x == 0 {
    } else if x > 0 && d > 0 {
        vstd::arithmetic::div_mod::lemma_fundamental_div_mod(x, d);
        vstd::arithmetic::div_mod::lemma_mod_pos_bound(x, d);
        let q = x / d;
        let r = x % d;
        assert(q * d + r == x) by (nonlinear_arith)
            requires x == d * q + r;
    } else if x < 0 && d < 0 {
        vstd::arithmetic::div_mod::lemma_fundamental_div_mod(-x, -d);
        vstd::arithmetic::div_mod::lemma_mod_pos_bound(-x, -d);
        assert((x * -1) == -x);
        assert((d * -1) == -d);
        let q = (-x) / (-d);
        let r = (-x) % (-d);
        assert(-x == (-d) * q + r);
        assert(q * d + (r * -1) == x) by (nonlinear_arith)
            requires -x == (-d) * q + r;
    } else if x < 0 {
        vstd::arithmetic::div_mod::lemma_fundamental_div_mod(-x, d);
        vstd::arithmetic::div_mod::lemma_mod_pos_bound(-x, d);
        assert((x * -1) == -x);
        let q = (-x) / d;
        let r = (-x) % d;
        assert((q * -1) * d + (r * -1) == x) by (nonlinear_arith)
            requires -x == d * q + r;
    } else {
        vstd::arithmetic::div_mod::lemma_fundamental_div_mod(x, -d);
        vstd::arithmetic::div_mod::lemma_mod_pos_bound(x, -d);
        assert((d * -1) == -d);
        let q = x / (-d);
        let r = x % (-d);
        assert((q * -1) * d + r == x) by (nonlinear_arith)
            requires x == (-d) * q + r;
    }
}

/// `INVERT` replaces the top cell `a` by its bitwise complement `-a - 1` and keeps
/// the cells below.
pub proof fn law_invert(s: MState)
    requires
        stack_ok(s),
        s.sp >= 8,
    ensures
        ({
            let c = stack_cells(s);
            let n = c.len() as int;
            let (s2, o) = prim_step(Primitive::Invert, s);
            let c2 = stack_cells(s2);
            &&& o == Ok::<(), Seq<char>>(())
            &&& c2.len() == n
            &&& c2.subrange(0, n - 1) == c.subrange(0, n - 1)
            &&& c2[n - 1] as int == -(c[n - 1] as int) - 1
            &&& c2[n - 1] & c[n - 1] == 0
            &&& c2[n - 1] ^ c[n - 1] == -1
        }),
{
    let c = stack_cells(s);
    let n = c.len() as int;
    let a = c[n - 1];
    lemma_pop_cells(s);
    let s1 = MState { sp: s.sp - 8, ..s };
    lemma_push_cells(s1, !a);
    assert(!a == -a - 1) by (bit_vector);
    assert(!a & a == 0) by (bit_vector);
    assert(!a ^ a == -1) by (bit_vector);
    let c2 = stack_cells(prim_step(Primitive::Invert, s).0);
    assert(c2 == c.drop_last().push(!a));
    assert(c2.subrange(0, n - 1) =~= c.subrange(0, n - 1));
}

/// `ROT` turns the top three cells `x1 x2 x3` (with `x3` on top) into `x2 x3 x1`
/// and keeps the cells below.
pub proof fn law_rot(s: MState)
    requires
        stack_ok(s),
        s.sp >= 24,
    ensures
        ({
            let c = stack_cells(s);
            let n = c.len() as int;
            let (s2, o) = prim_step(Primitive::Rot, s);
            &&& o == Ok::<(), Seq<char>>(())
            &&& stack_cells(s2) == c.subrange(0, n - 3) + seq![c[n - 2], c[n - 1], c[n - 3]]
            &&& same_rest(s, s2)
        }),
{
    let c = stack_cells(s);
    let n = c.len() as int;
    lemma_pop_cells(s);
    let s1 = MState { sp: s.sp - 8, ..s };
    lemma_pop_cells(s1);
    let s2 = MState { sp: s.sp - 16, ..s };
    lemma_pop_cells(s2);
    let s3 = MState { sp: s.sp - 24, ..s };
    let (x3, x2, x1) = (c[n - 1], c[n - 2], c[n - 3]);
    assert(stack_cells(s1).last() == x2);
    assert(stack_cells(s2).last() == x1);
    assert(s_pop3(s) == (Ok::<(Option<i64>, Option<i64>, Option<i64>), Seq<char>>((Some(x3), Some(x2), Some(x1))), s3));
    lemma_push_cells(s3, x2);
    let t1 = s_push(s3, x2).0;
    lemma_push_cells(t1, x3);
    let t2 = s_push(t1, x3).0;
    lemma_push_cells(t2, x1);
    assert(stack_cells(s3) =~= c.subrange(0, n - 3));
    assert(stack_cells(prim_step(Primitive::Rot, s).0) =~= c.subrange(0, n - 3) + seq![x2, x3, x1]);
}

/// Cutting the stack back to `k` cells keeps the bottom cells.
proof fn lemma_unwind_cells(x: MState, k: int)
    requires
        stack_ok(x),
        0 <= k,
    ensures
        stack_ok(unwind(x, k)),
        unwind(x, k).mem == x.mem,
        stack_cells(unwind(x, k)) == stack_cells(x).take(if stack_cells(x).len() > k { k } else {
            stack_cells(x).len() as int }),
{
    if x.sp / 8 > k {
        assert(unwind(x, k).sp == 8 * k);
        assert(stack_cells(unwind(x, k)) =~= stack_cells(x).take(k));
    } else {
        assert(stack_cells(x).take(stack_cells(x).len() as int) =~= stack_cells(x));
    }
}

/// CATCH of text that fails with a catchable error: the stack is cut back to the
/// depth it had once the address and length were taken (cells the text left above
/// it are dropped), and -1 is pushed on top. So when the text did not consume
/// cells below, the depth is the depth before CATCH minus 2 plus 1, and when it
/// also left them alone they are the cells that were under the address and length.
pub proof fn law_catch_error(d: DictView, s: MState, f: nat)
    requires
        f > 0,
        stack_ok(s),
        s.sp >= 16,
        ({
            let c = stack_cells(s);
            let n = c.len() as int;
            read_text(s.mem, c[n - 2], c[n - 1]) is Ok
        }),
        ({
            let c = stack_cells(s);
            let n = c.len() as int;
            prepared(split_ws(read_text(s.mem, c[n - 2], c[n - 1])->Ok_0), false, d) is Ok
        }),
        ({
            let c = stack_cells(s);
            let n = c.len() as int;
            let a = prepared(split_ws(read_text(s.mem, c[n - 2], c[n - 1])->Ok_0), false, d)->Ok_0;
            let res = run_node(d, a, MState { sp: s.sp - 16, ..s }, (f - 1) as nat);
            &&& res.1 is Err
            &&& !is_fatal(res.1->Err_0)
            &&& stack_ok(res.0)
        }),
    ensures
        ({
            let c = stack_cells(s);
            let n = c.len() as int;
            let a = prepared(split_ws(read_text(s.mem, c[n - 2], c[n - 1])->Ok_0), false, d)->Ok_0;
            let res = run_node(d, a, MState { sp: s.sp - 16, ..s }, (f - 1) as nat);
            let left = stack_cells(res.0);
            let (s3, o3, g3) = run_catch(d, s, f);
            &&& o3 == Ok::<(), Seq<char>>(())
            &&& g3 == res.2
            &&& stack_cells(s3) == left.take(if left.len() > n - 2 { n - 2 } else { left.len() as int }).push(-1i64)
            &&& left.len() >= n - 2 ==> stack_cells(s3).len() == n - 1
            &&& (left.len() >= n - 2 && left.take(n - 2) == c.take(n - 2))
                ==> stack_cells(s3) == c.take(n - 2).push(-1i64)
        }),
{
    let c = stack_cells(s);
    let n = c.len() as int;
    lemma_pop_cells(s);
    let s1a = MState { sp: s.sp - 8, ..s };
    lemma_pop_cells(s1a);
    let s1 = MState { sp: s.sp - 16, ..s };
    assert(stack_cells(s1a).last() == c[n - 2]);
    assert(s_pop2(s) == (Ok::<(Option<i64>, Option<i64>), Seq<char>>((Some(c[n - 1]), Some(c[n - 2]))), s1));
    assert(s1.sp / 8 == n - 2);
    let a = prepared(split_ws(read_text(s.mem, c[n - 2], c[n - 1])->Ok_0), false, d)->Ok_0;
    let res = run_node(d, a, s1, (f - 1) as nat);
    let e = res.1->Err_0;
    let x = crate::machine::s_eprint(res.0, "CATCH: Caught error: "@ + e + "\n"@);
    assert(stack_ok(x));
    assert(stack_cells(x) == stack_cells(res.0));
    lemma_unwind_cells(x, n - 2);
    let u = unwind(x, n - 2);
    assert(u.sp + 8 <= MEMORY_SIZE);
    lemma_push_cells(u, -1i64);
}

/// Two's-complement modulus of a cell.
pub open spec fn cell_modulus() -> int {
    0x1_0000_0000_0000_0000
}

/// The stack cells after running primitive `p`.
pub open spec fn cells_after(p: Primitive, s: MState) -> Seq<i64> {
    stack_cells(prim_step(p, s).0)
}

/// The top cell after running primitive `p`.
pub open spec fn top_after(p: Primitive, s: MState) -> int {
    cells_after(p, s).last() as int
}

/// `p` succeeds, replaces the top two cells by one and keeps the cells below.
pub open spec fn takes_two(p: Primitive, s: MState) -> bool {
    let c = stack_cells(s);
    let n = c.len() as int;
    &&& prim_step(p, s).1 == Ok::<(), Seq<char>>(())
    &&& cells_after(p, s).len() == n - 1
    &&& cells_after(p, s).subrange(0, n - 2) == c.subrange(0, n - 2)
    &&& same_rest(s, prim_step(p, s).0)
}

/// `p` succeeds, replaces the top cell and keeps the cells below.
pub open spec fn takes_one(p: Primitive, s: MState) -> bool {
    let c = stack_cells(s);
    let n = c.len() as int;
    &&& prim_step(p, s).1 == Ok::<(), Seq<char>>(())
    &&& cells_after(p, s).len() == n
    &&& cells_after(p, s).subrange(0, n - 1) == c.subrange(0, n - 1)
    &&& same_rest(s, prim_step(p, s).0)
}

proof fn lemma_binary_cells(op: BinOp, s: MState)
    requires
        stack_ok(s),
        s.sp >= 16,
    ensures
        ({
            let c = stack_cells(s);
            let n = c.len() as int;
            let (s2, o) = step_binary(op, s);
            &&& o == Ok::<(), Seq<char>>(())
            &&& stack_cells(s2) == c.subrange(0, n - 2).push(binop(op, c[n - 2], c[n - 1]))
            &&& same_rest(s, s2)
        }),
{
    let c = stack_cells(s);
    let n = c.len() as int;
    lemma_pop_cells(s);
    let s1 = MState { sp: s.sp - 8, ..s };
    lemma_pop_cells(s1);
    let s2 = MState { sp: s.sp - 16, ..s };
    assert(stack_cells(s1).last() == c[n - 2]);
    assert(s_pop2(s) == (Ok::<(Option<i64>, Option<i64>), Seq<char>>((Some(c[n - 1]), Some(c[n - 2]))), s2));
    lemma_push_cells(s2, binop(op, c[n - 2], c[n - 1]));
    assert(stack_cells(s2) =~= c.subrange(0, n - 2));
}

proof fn lemma_unary_cells(op: UnOp, s: MState)
    requires
        stack_ok(s),
        s.sp >= 8,
    ensures
        ({
            let c = stack_cells(s);
            let n = c.len() as int;
            let (s2, o) = step_unary(op, s);
            &&& o == Ok::<(), Seq<char>>(())
            &&& stack_cells(s2) == c.subrange(0, n - 1).push(unop(op, c[n - 1]))
            &&& same_rest(s, s2)
        }),
{
    let c = stack_cells(s);
    let n = c.len() as int;
    lemma_pop_cells(s);
    let s1 = MState { sp: s.sp - 8, ..s };
    lemma_push_cells(s1, unop(op, c[n - 1]));
    assert(stack_cells(s1) =~= c.subrange(0, n - 1));
}

proof fn lemma_two_shape(op: BinOp, p: Primitive, s: MState)
    requires
        stack_ok(s),
        s.sp >= 16,
        prim_step(p, s) == step_binary(op, s),
    ensures
        takes_two(p, s),
        top_after(p, s) == binop(op, stack_cells(s)[stack_cells(s).len() - 2], stack_cells(s).last()) as int,
{
    lemma_binary_cells(op, s);
    let c = stack_cells(s);
    let n = c.len() as int;
    assert(cells_after(p, s).subrange(0, n - 2) =~= c.subrange(0, n - 2));
}

proof fn lemma_one_shape(op: UnOp, p: Primitive, s: MState)
    requires
        stack_ok(s),
        s.sp >= 8,
        prim_step(p, s) == step_unary(op, s),
    ensures
        takes_one(p, s),
        top_after(p, s) == unop(op, stack_cells(s).last()) as int,
{
    lemma_unary_cells(op, s);
    let c = stack_cells(s);
    let n = c.len() as int;
    assert(cells_after(p, s).subrange(0, n - 1) =~= c.subrange(0, n - 1));
}

proof fn lemma_wrapping_congruent(x: int, r: i64)
    requires
        r as int == x || r as int == x - cell_modulus() || r as int == x + cell_modulus(),
    ensures
        (x - r) % cell_modulus() == 0,
{
    let m = cell_modulus();
    if r as int == x - m {
        assert((x - r) == m);
    } else if r as int == x + m {
        assert((x - r) == -m);
        assert((-m) % m == 0) by (nonlinear_arith) requires m == 0x1_0000_0000_0000_0000int;
    }
}

proof fn lemma_crop_congruent(x: int)
    ensures
        (x - vstd::wrapping::i64_specs::signed_crop(x)) % cell_modulus() == 0,
{
    let m = cell_modulus();
    let y = x % m;
    vstd::arithmetic::div_mod::lemma_fundamental_div_mod(x, m);
    vstd::arithmetic::div_mod::lemma_mod_bound(x, m);
    let q = x / m;
    if y > i64::MAX {
        assert(vstd::wrapping::i64_specs::signed_crop(x) as int == y - m);
        assert((x - (y - m)) == m * (q + 1));
        vstd::arithmetic::div_mod::lemma_mod_multiples_basic(q + 1, m);
        assert(m * (q + 1) == (q + 1) * m) by (nonlinear_arith);
    } else {
        assert(vstd::wrapping::i64_specs::signed_crop(x) as int == y);
        assert((x - y) == m * q);
        vstd::arithmetic::div_mod::lemma_mod_multiples_basic(q, m);
        assert(m * q == q * m) by (nonlinear_arith);
    }
}

/// `+`, `-` and `*` give the sum, difference and product of the two top cells
/// (`a` beneath `b`), wrapped to a cell: the result is congruent to the exact value
/// modulo 2^64. `MIN` and `MAX` give the smaller and the larger of the two.
pub proof fn law_arithmetic(s: MState)
    requires
        stack_ok(s),
        s.sp >= 16,
    ensures
        ({
            let c = stack_cells(s);
            let n = c.len() as int;
            let a = c[n - 2] as int;
            let b = c[n - 1] as int;
            &&& takes_two(Primitive::Add, s) && (a + b - top_after(Primitive::Add, s)) % cell_modulus() == 0
            &&& takes_two(Primitive::Subtract, s)
                && (a - b - top_after(Primitive::Subtract, s)) % cell_modulus() == 0
            &&& takes_two(Primitive::Multiply, s)
                && (a * b - top_after(Primitive::Multiply, s)) % cell_modulus() == 0
            &&& takes_two(Primitive::Min, s) && top_after(Primitive::Min, s) <= a
                && top_after(Primitive::Min, s) <= b
                && (top_after(Primitive::Min, s) == a || top_after(Primitive::Min, s) == b)
            &&& takes_two(Primitive::Max, s) && top_after(Primitive::Max, s) >= a
                && top_after(Primitive::Max, s) >= b
                && (top_after(Primitive::Max, s) == a || top_after(Primitive::Max, s) == b)
        }),
{
    let c = stack_cells(s);
    let n = c.len() as int;
    let a = c[n - 2];
    let b = c[n - 1];
    lemma_two_shape(BinOp::Add, Primitive::Add, s);
    lemma_two_shape(BinOp::Sub, Primitive::Subtract, s);
    lemma_two_shape(BinOp::Mul, Primitive::Multiply, s);
    lemma_two_shape(BinOp::Min, Primitive::Min, s);
    lemma_two_shape(BinOp::Max, Primitive::Max, s);
    lemma_wrapping_congruent(a + b, vstd::wrapping::i64_specs::wrapping_add(a, b));
    lemma_wrapping_congruent(a - b, vstd::wrapping::i64_specs::wrapping_sub(a, b));
    lemma_crop_congruent(a * b);
}

/// The comparisons push a flag, -1 for true and 0 for false, of the relation
/// between the two top cells `a` (beneath) and `b`: `<`, `>`, `=`, `<>`, `<=`,
/// `>=`, and `U<` on the cells read as unsigned numbers.
pub proof fn law_comparisons(s: MState)
    requires
        stack_ok(s),
        s.sp >= 16,
    ensures
        ({
            let c = stack_cells(s);
            let n = c.len() as int;
            let a = c[n - 2] as int;
            let b = c[n - 1] as int;
            let ua = if a < 0 { a + cell_modulus() } else { a };
            let ub = if b < 0 { b + cell_modulus() } else { b };
            &&& takes_two(Primitive::LessThan, s) && top_after(Primitive::LessThan, s) == (if a < b { -1int } else { 0 })
            &&& takes_two(Primitive::GreaterThan, s) && top_after(Primitive::GreaterThan, s) == (if a > b { -1int } else { 0 })
            &&& takes_two(Primitive::Equal, s) && top_after(Primitive::Equal, s) == (if a == b { -1int } else { 0 })
            &&& takes_two(Primitive::NotEqual, s) && top_after(Primitive::NotEqual, s) == (if a != b { -1int } else { 0 })
            &&& takes_two(Primitive::LessEqual, s) && top_after(Primitive::LessEqual, s) == (if a <= b { -1int } else { 0 })
            &&& takes_two(Primitive::GreaterEqual, s)
                && top_after(Primitive::GreaterEqual, s) == (if a >= b { -1int } else { 0 })
            &&& takes_two(Primitive::ULessThan, s) && top_after(Primitive::ULessThan, s) == (if ua < ub { -1int } else { 0 })
        }),
{
    let c = stack_cells(s);
    let n = c.len() as int;
    let a = c[n - 2];
    let b = c[n - 1];
    lemma_two_shape(BinOp::Lt, Primitive::LessThan, s);
    lemma_two_shape(BinOp::Gt, Primitive::GreaterThan, s);
    lemma_two_shape(BinOp::Eq, Primitive::Equal, s);
    lemma_two_shape(BinOp::Ne, Primitive::NotEqual, s);
    lemma_two_shape(BinOp::Le, Primitive::LessEqual, s);
    lemma_two_shape(BinOp::Ge, Primitive::GreaterEqual, s);
    lemma_two_shape(BinOp::ULt, Primitive::ULessThan, s);
    assert(a < 0 ==> (a as u64) as int == a + 0x1_0000_0000_0000_0000) by (bit_vector);
    assert(a >= 0 ==> (a as u64) as int == a) by (bit_vector);
    assert(b < 0 ==> (b as u64) as int == b + 0x1_0000_0000_0000_0000) by (bit_vector);
    assert(b >= 0 ==> (b as u64) as int == b) by (bit_vector);
}

/// `AND`, `OR` and `XOR` combine the two top cells bit by bit; `LSHIFT` and
/// `RSHIFT` shift the cell beneath by the top cell (from 0 to 63), `RSHIFT`
/// keeping the sign.
pub proof fn law_bitwise(s: MState)
    requires
        stack_ok(s),
        s.sp >= 16,
    ensures
        ({
            let c = stack_cells(s);
            let n = c.len() as int;
            let a = c[n - 2];
            let b = c[n - 1];
            &&& takes_two(Primitive::And, s) && top_after(Primitive::And, s) == (a & b) as int
            &&& takes_two(Primitive::Or, s) && top_after(Primitive::Or, s) == (a | b) as int
            &&& takes_two(Primitive::Xor, s) && top_after(Primitive::Xor, s) == (a ^ b) as int
            &&& takes_two(Primitive::LShift, s) && (0 <= b < 64 ==> top_after(Primitive::LShift, s) == (a << (b as u32)) as int)
            &&& takes_two(Primitive::RShift, s) && (0 <= b < 64 ==> top_after(Primitive::RShift, s) == (a >> (b as u32)) as int)
        }),
{
    let c = stack_cells(s);
    let n = c.len() as int;
    let a = c[n - 2];
    let b = c[n - 1];
    lemma_two_shape(BinOp::And, Primitive::And, s);
    lemma_two_shape(BinOp::Or, Primitive::Or, s);
    lemma_two_shape(BinOp::Xor, Primitive::Xor, s);
    lemma_two_shape(BinOp::LShift, Primitive::LShift, s);
    lemma_two_shape(BinOp::RShift, Primitive::RShift, s);
    if 0 <= b < 64 {
        let u = b as u32;
        assert(u % 64 == u);
        assert(vstd::wrapping::i64_specs::wrapping_shl(a, u) == a << u);
        assert(vstd::wrapping::i64_specs::wrapping_shr(a, u) == a >> u);
    }
}

/// `NEGATE` gives `-a` and `ABS` the absolute value of the top cell `a`
/// (`i64::MIN` stays as it is for both).
pub proof fn law_negate_abs(s: MState)
    requires
        stack_ok(s),
        s.sp >= 8,
    ensures
        ({
            let a = stack_cells(s).last() as int;
            &&& takes_one(Primitive::Negate, s)
                && top_after(Primitive::Negate, s) == (if a == i64::MIN { a } else { -a })
            &&& takes_one(Primitive::Abs, s) && (a != i64::MIN ==> top_after(Primitive::Abs, s) >= 0
                && (top_after(Primitive::Abs, s) == a || top_after(Primitive::Abs, s) == -a))
                && (a == i64::MIN ==> top_after(Primitive::Abs, s) == a)
        }),
{
    lemma_one_shape(UnOp::Negate, Primitive::Negate, s);
    lemma_one_shape(UnOp::Abs, Primitive::Abs, s);
}

/// `1+`, `1-` and `2*` give `a + 1`, `a - 1` and `2a` of the top cell `a`, wrapped
/// to a cell (congruent modulo 2^64).
pub proof fn law_increments(s: MState)
    requires
        stack_ok(s),
        s.sp >= 8,
    ensures
        ({
            let a = stack_cells(s).last() as int;
            &&& takes_one(Primitive::OnePlus, s) && (a + 1 - top_after(Primitive::OnePlus, s)) % cell_modulus() == 0
            &&& takes_one(Primitive::OneMinus, s) && (a - 1 - top_after(Primitive::OneMinus, s)) % cell_modulus() == 0
            &&& takes_one(Primitive::TwoStar, s) && (2 * a - top_after(Primitive::TwoStar, s)) % cell_modulus() == 0
        }),
{
    let a = stack_cells(s).last();
    lemma_one_shape(UnOp::OnePlus, Primitive::OnePlus, s);
    lemma_one_shape(UnOp::OneMinus, Primitive::OneMinus, s);
    lemma_one_shape(UnOp::TwoStar, Primitive::TwoStar, s);
    lemma_wrapping_congruent(a + 1, vstd::wrapping::i64_specs::wrapping_add(a, 1));
    lemma_wrapping_congruent(a - 1, vstd::wrapping::i64_specs::wrapping_sub(a, 1));
    lemma_crop_congruent(a * 2);
}

/// `2/` halves the top cell `a`, rounding toward zero: `a - 2h` is -1, 0 or 1 and
/// has the sign of `a` when not 0.
pub proof fn law_two_slash(s: MState)
    requires
        stack_ok(s),
        s.sp >= 8,
    ensures
        ({
            let a = stack_cells(s).last() as int;
            let h = top_after(Primitive::TwoSlash, s);
            &&& takes_one(Primitive::TwoSlash, s)
            &&& -1 <= a - 2 * h <= 1
            &&& (a - 2 * h == 0 || (a - 2 * h < 0) == (a < 0))
        }),
{
    let a = stack_cells(s).last();
    lemma_one_shape(UnOp::TwoSlash, Primitive::TwoSlash, s);
    lemma_trunc_div_rem(a as int, 2);
    crate::words::lemma_trunc_div_range(a as int, 2);
}

/// `0=`, `0<` and `0>` push the flag (-1 true, 0 false) of `a == 0`, `a < 0` and
/// `a > 0` for the top cell `a`.
pub proof fn law_zero_flags(s: MState)
    requires
        stack_ok(s),
        s.sp >= 8,
    ensures
        ({
            let a = stack_cells(s).last() as int;
            &&& takes_one(Primitive::ZeroEqual, s) && top_after(Primitive::ZeroEqual, s) == (if a == 0 { -1int } else { 0 })
            &&& takes_one(Primitive::ZeroLess, s) && top_after(Primitive::ZeroLess, s) == (if a < 0 { -1int } else { 0 })
            &&& takes_one(Primitive::ZeroGreater, s)
                && top_after(Primitive::ZeroGreater, s) == (if a > 0 { -1int } else { 0 })
        }),
{
    lemma_one_shape(UnOp::ZeroEqual, Primitive::ZeroEqual, s);
    lemma_one_shape(UnOp::ZeroLess, Primitive::ZeroLess, s);
    lemma_one_shape(UnOp::ZeroGreater, Primitive::ZeroGreater, s);
}

/// `/` and `MOD` on the two top cells `a` (beneath) and `b != 0`: the quotient `q`
/// of `/` and the remainder `r` of `MOD` satisfy `q * b + r == a` with `|r| < |b|`
/// and `r` zero or of the sign of `a` (division rounding toward zero).
pub proof fn law_divide_mod(s: MState)
    requires
        stack_ok(s),
        s.sp >= 16,
        stack_cells(s).last() != 0,
        !(stack_cells(s)[stack_cells(s).len() - 2] == i64::MIN && stack_cells(s).last() == -1),
    ensures
        ({
            let c = stack_cells(s);
            let n = c.len() as int;
            let a = c[n - 2] as int;
            let b = c[n - 1] as int;
            let q = top_after(Primitive::Divide, s);
            let r = top_after(Primitive::Mod, s);
            &&& takes_two(Primitive::Divide, s)
            &&& takes_two(Primitive::Mod, s)
            &&& q * b + r == a
            &&& (if r < 0 { -r } else { r }) < (if b < 0 { -b } else { b })
            &&& (r == 0 || (r < 0) == (a < 0))
        }),
{
    let c = stack_cells(s);
    let n = c.len() as int;
    let a = c[n - 2];
    let b = c[n - 1];
    lemma_pop_cells(s);
    let s1 = MState { sp: s.sp - 8, ..s };
    lemma_pop_cells(s1);
    let s2 = MState { sp: s.sp - 16, ..s };
    assert(stack_cells(s1).last() == a);
    assert(s_pop2(s) == (Ok::<(Option<i64>, Option<i64>), Seq<char>>((Some(b), Some(a))), s2));
    assert(stack_cells(s2) =~= c.subrange(0, n - 2));
    lemma_trunc_div_rem(a as int, b as int);
    crate::words::lemma_trunc_div_range(a as int, b as int);
    lemma_push_cells(s2, crate::words::cell_div(a, b));
    lemma_push_cells(s2, crate::words::cell_rem(a, b));
    assert(cells_after(Primitive::Divide, s).subrange(0, n - 2) =~= c.subrange(0, n - 2));
    assert(cells_after(Primitive::Mod, s).subrange(0, n - 2) =~= c.subrange(0, n - 2));
}

/// A zero divisor leaves both cells in place and reports "Division by zero!".
pub proof fn law_divide_by_zero(s: MState)
    requires
        stack_ok(s),
        s.sp >= 16,
        stack_cells(s).last() == 0,
    ensures
        prim_step(Primitive::Divide, s).1 == Ok::<(), Seq<char>>(()),
        cells_after(Primitive::Divide, s) == stack_cells(s),
        prim_step(Primitive::Divide, s).0.out == s.out + "Division by zero!"@,
        prim_step(Primitive::Mod, s).1 == Ok::<(), Seq<char>>(()),
        cells_after(Primitive::Mod, s) == stack_cells(s),
        prim_step(Primitive::SlashMod, s).1 == Ok::<(), Seq<char>>(()),
        cells_after(Primitive::SlashMod, s) == stack_cells(s),
{
    let c = stack_cells(s);
    let n = c.len() as int;
    let a = c[n - 2];
    let b = c[n - 1];
    lemma_pop_cells(s);
    let s1 = MState { sp: s.sp - 8, ..s };
    lemma_pop_cells(s1);
    let s2 = MState { sp: s.sp - 16, ..s };
    assert(stack_cells(s1).last() == a);
    assert(s_pop2(s) == (Ok::<(Option<i64>, Option<i64>), Seq<char>>((Some(b), Some(a))), s2));
    let p2 = s_print(s2, "Division by zero!"@);
    assert(stack_ok(p2) && stack_cells(p2) == stack_cells(s2));
    lemma_push_cells(p2, a);
    let p3 = s_push(p2, a).0;
    lemma_push_cells(p3, b);
    assert(stack_cells(s2) =~= c.drop_last().drop_last());
    assert(stack_cells(s_push(p3, b).0) =~= c);
}

/// Truncated quotients of values below `2^63 * |d|` in size fit in a cell.
proof fn lemma_trunc_quotient_bound(x: int, d: int)
    requires
        d != 0,
        (if x < 0 { -x } else { x }) < 0x8000_0000_0000_0000 * (if d < 0 { -d } else { d }),
    ensures
        -0x8000_0000_0000_0000 < crate::words::trunc_div(x, d) < 0x8000_0000_0000_0000,
{
    let m = 0x8000_0000_0000_0000int;
    if x > 0 && d > 0 {
        assert(x / d < m) by (nonlinear_arith) requires x > 0, d > 0, x < m * d;
        assert(x / d >= 0) by (nonlinear_arith) requires x > 0, d > 0;
    } else if x < 0 && d < 0 {
        assert((x * -1) / (d * -1) < m) by (nonlinear_arith) requires x < 0, d < 0, -x < m * (-d);
        assert((x * -1) / (d * -1) >= 0) by (nonlinear_arith) requires x < 0, d < 0;
    } else if x < 0 {
        assert((x * -1) / d < m) by (nonlinear_arith) requires x < 0, d > 0, -x < m * d;
        assert((x * -1) / d >= 0) by (nonlinear_arith) requires x < 0, d > 0;
    } else if x > 0 {
        assert(x / (d * -1) < m) by (nonlinear_arith) requires x > 0, d < 0, x < m * (-d);
        assert(x / (d * -1) >= 0) by (nonlinear_arith) requires x > 0, d < 0;
    }
}

/// `n1 n2 n3 */` divides the exact product `n1 * n2` by `n3 != 0`, rounding toward
/// zero: when the quotient fits in a cell (`|n1 * n2| < 2^63 * |n3|`), the result
/// `q` leaves `n1 * n2 - q * n3` smaller than `|n3|` and of the sign of the product.
/// The three cells are replaced by the one result.
pub proof fn law_star_slash(s: MState)
    requires
        stack_ok(s),
        s.sp >= 24,
        stack_cells(s).last() != 0,
    ensures
        ({
            let c = stack_cells(s);
            let n = c.len() as int;
            let x = c[n - 3] as int * c[n - 2] as int;
            let d = c[n - 1] as int;
            let q = cells_after(Primitive::StarSlash, s).last() as int;
            &&& prim_step(Primitive::StarSlash, s).1 == Ok::<(), Seq<char>>(())
            &&& cells_after(Primitive::StarSlash, s).len() == n - 2
            &&& cells_after(Primitive::StarSlash, s).subrange(0, n - 3) == c.subrange(0, n - 3)
            &&& (if x < 0 { -x } else { x }) < 0x8000_0000_0000_0000 * (if d < 0 { -d } else { d }) ==> {
                &&& (if x - q * d < 0 { q * d - x } else { x - q * d }) < (if d < 0 { -d } else { d })
                &&& (x - q * d == 0 || (x - q * d < 0) == (x < 0))
            }
        }),
{
    let c = stack_cells(s);
    let n = c.len() as int;
    let (n3, n2, n1) = (c[n - 1], c[n - 2], c[n - 3]);
    lemma_pop_cells(s);
    let s1 = MState { sp: s.sp - 8, ..s };
    lemma_pop_cells(s1);
    let s2 = MState { sp: s.sp - 16, ..s };
    lemma_pop_cells(s2);
    let s3 = MState { sp: s.sp - 24, ..s };
    assert(stack_cells(s1).last() == n2);
    assert(stack_cells(s2).last() == n1);
    assert(s_pop3(s) == (Ok::<(Option<i64>, Option<i64>, Option<i64>), Seq<char>>((Some(n3), Some(n2), Some(n1))), s3));
    let x = n1 * n2;
    let d = n3 as int;
    let qq = crate::words::trunc_div(x, d);
    lemma_push_cells(s3, qq as i64);
    assert(stack_cells(s3) =~= c.subrange(0, n - 3));
    assert(cells_after(Primitive::StarSlash, s).subrange(0, n - 3) =~= c.subrange(0, n - 3));
    lemma_trunc_div_rem(x, d);
    if (if x < 0 { -x } else { x }) < 0x8000_0000_0000_0000 * (if d < 0 { -d } else { d }) {
        lemma_trunc_quotient_bound(x, d);
        assert((qq as i64) as int == qq);
    }
}

/// The stack words: `DUP` copies the top cell, `?DUP` copies it unless it is 0,
/// `DROP` removes it, `DEPTH` pushes the number of cells, `SWAP` exchanges the two
/// top cells, `OVER` copies the second cell to the top, and `k PICK` copies the
/// cell `k` places below the top (0 is the top) once `k` is removed.
pub proof fn law_stack_words(s: MState)
    requires
        stack_ok(s),
    ensures
        ({
            let c = stack_cells(s);
            let n = c.len() as int;
            &&& s.sp >= 8 && s.sp + 8 <= MEMORY_SIZE ==> prim_step(Primitive::Dup, s).1 == Ok::<(), Seq<char>>(())
                && cells_after(Primitive::Dup, s) == c.push(c.last())
            &&& s.sp >= 8 && s.sp + 8 <= MEMORY_SIZE ==> prim_step(Primitive::QuestionDup, s).1 == Ok::<(), Seq<char>>(())
                && cells_after(Primitive::QuestionDup, s) == (if c.last() != 0 { c.push(c.last()) } else { c })
            &&& s.sp >= 8 ==> prim_step(Primitive::Drop, s).1 == Ok::<(), Seq<char>>(())
                && cells_after(Primitive::Drop, s) == c.drop_last()
            &&& s.sp + 8 <= MEMORY_SIZE ==> prim_step(Primitive::Depth, s).1 == Ok::<(), Seq<char>>(())
                && cells_after(Primitive::Depth, s) == c.push(n as i64)
            &&& s.sp >= 16 ==> prim_step(Primitive::Swap, s).1 == Ok::<(), Seq<char>>(())
                && cells_after(Primitive::Swap, s) == c.subrange(0, n - 2) + seq![c[n - 1], c[n - 2]]
            &&& s.sp >= 16 && s.sp + 8 <= MEMORY_SIZE ==> prim_step(Primitive::Over, s).1 == Ok::<(), Seq<char>>(())
                && cells_after(Primitive::Over, s) == c.push(c[n - 2])
            &&& s.sp >= 16 && 0 <= c.last() < n - 1 ==> prim_step(Primitive::Pick, s).1 == Ok::<(), Seq<char>>(())
                && cells_after(Primitive::Pick, s) == c.drop_last().push(c[n - 2 - c.last()])
        }),
{
    let c = stack_cells(s);
    let n = c.len() as int;
    if s.sp >= 8 {
        lemma_pop_cells(s);
        if s.sp + 8 <= MEMORY_SIZE {
            lemma_push_cells(s, c.last());
        }
    }
    if s.sp + 8 <= MEMORY_SIZE {
        lemma_push_cells(s, n as i64);
    }
    if s.sp >= 16 {
        let s1 = MState { sp: s.sp - 8, ..s };
        lemma_pop_cells(s1);
        let s2 = MState { sp: s.sp - 16, ..s };
        assert(stack_cells(s1).last() == c[n - 2]);
        assert(s_pop2(s) == (Ok::<(Option<i64>, Option<i64>), Seq<char>>((Some(c[n - 1]), Some(c[n - 2]))), s2));
        lemma_push_cells(s2, c[n - 1]);
        let t1 = s_push(s2, c[n - 1]).0;
        lemma_push_cells(t1, c[n - 2]);
        assert(stack_cells(s2) =~= c.subrange(0, n - 2));
        assert(cells_after(Primitive::Swap, s) =~= c.subrange(0, n - 2) + seq![c[n - 1], c[n - 2]]);
        if s.sp + 8 <= MEMORY_SIZE {
            lemma_push_cells(s2, c[n - 2]);
            let u1 = s_push(s2, c[n - 2]).0;
            lemma_push_cells(u1, c[n - 1]);
            let u2 = s_push(u1, c[n - 1]).0;
            lemma_push_cells(u2, c[n - 2]);
            assert(cells_after(Primitive::Over, s) =~= c.push(c[n - 2]));
        }
        let k = c.last();
        if 0 <= k < n - 1 {
            assert(s1.sp / 8 == n - 1);
            assert((k as usize) as int == k);
            let addr = s1.sp - (k + 1) * 8;
            assert(addr == 8 * (n - 2 - k));
            assert(cell_in_bounds(addr, MEMORY_SIZE as int));
            assert(le_decode(s1.mem, addr) == c[n - 2 - k]);
            lemma_push_cells(s1, c[n - 2 - k]);
        }
    }
}

/// The cells of the return stack, bottom first.
pub open spec fn rstack_cells(s: MState) -> Seq<i64> {
    Seq::new(((s.rp - RETURN_STACK_BASE) / 8) as nat, |i: int| le_decode(s.mem, RETURN_STACK_BASE + 8 * i))
}

/// A return stack of whole cells, from its base up to inside memory.
pub open spec fn rstack_ok(s: MState) -> bool {
    &&& RETURN_STACK_BASE <= s.rp <= MEMORY_SIZE
    &&& (s.rp - RETURN_STACK_BASE) % 8 == 0
}

proof fn lemma_write_outside(m: Seq<u8>, w: int, v: i64, base: int, k: int)
    requires
        m.len() == MEMORY_SIZE,
        cell_in_bounds(w, MEMORY_SIZE as int),
        0 <= base,
        0 <= k,
        base + 8 * k <= MEMORY_SIZE,
        w >= base + 8 * k || w + 8 <= base,
    ensures
        forall|i: int| 0 <= i < k ==> #[trigger] le_decode(write_cell(m, w, v), base + 8 * i) == le_decode(m, base + 8 * i),
{
    law_store_then_fetch(m, w, v);
    assert forall|i: int| 0 <= i < k implies #[trigger] le_decode(write_cell(m, w, v), base + 8 * i)
        == le_decode(m, base + 8 * i) by {
        lemma_cell_same(write_cell(m, w, v), m, base + 8 * i);
    }
}

/// `>R` moves the top cell to the return stack, `R>` moves the top of the return
/// stack back, and `R@` copies it; the other cells of both stacks stay.
pub proof fn law_return_stack(s: MState)
    requires
        stack_ok(s),
        rstack_ok(s),
        s.sp + 8 <= RETURN_STACK_BASE,
    ensures
        ({
            let c = stack_cells(s);
            let rc = rstack_cells(s);
            &&& s.sp >= 8 && s.rp + 8 <= MEMORY_SIZE ==> prim_step(Primitive::ToR, s).1 == Ok::<(), Seq<char>>(())
                && cells_after(Primitive::ToR, s) == c.drop_last()
                && rstack_cells(prim_step(Primitive::ToR, s).0) == rc.push(c.last())
            &&& s.rp >= RETURN_STACK_BASE + 8 ==> prim_step(Primitive::RFrom, s).1 == Ok::<(), Seq<char>>(())
                && cells_after(Primitive::RFrom, s) == c.push(rc.last())
                && rstack_cells(prim_step(Primitive::RFrom, s).0) == rc.drop_last()
            &&& s.rp >= RETURN_STACK_BASE + 8 ==> prim_step(Primitive::RFetch, s).1 == Ok::<(), Seq<char>>(())
                && cells_after(Primitive::RFetch, s) == c.push(rc.last())
                && rstack_cells(prim_step(Primitive::RFetch, s).0) == rc
        }),
{
    let c = stack_cells(s);
    let rc = rstack_cells(s);
    let base = RETURN_STACK_BASE as int;
    let kr = (s.rp - base) / 8;
    assert(s.rp == base + 8 * kr);
    if s.sp >= 8 && s.rp + 8 <= MEMORY_SIZE {
        lemma_pop_cells(s);
        let s1 = MState { sp: s.sp - 8, ..s };
        let v = c.last();
        let s2 = s_rpush(s1, v).0;
        assert(s2 == MState { mem: write_cell(s.mem, s.rp, v), rp: s.rp + 8, ..s1 });
        lemma_write_outside(s.mem, s.rp, v, 0, s1.sp / 8);
        law_store_then_fetch(s.mem, s.rp, v);
        assert(stack_cells(s2) =~= stack_cells(s1));
        lemma_write_outside(s.mem, s.rp, v, base, kr);
        assert(rstack_cells(s2) =~= rc.push(v));
    }
    if s.rp >= base + 8 {
        let top = rc.last();
        assert(top == le_decode(s.mem, s.rp - 8));
        assert(cell_in_bounds(s.rp - 8, s.mem.len() as int));
        assert(s_rpop(s) == (Ok::<Option<i64>, Seq<char>>(Some(top)), MState { rp: s.rp - 8, ..s }));
        let r1 = MState { rp: s.rp - 8, ..s };
        lemma_push_cells(r1, top);
        lemma_push_cells(s, top);
        lemma_write_outside(s.mem, s.sp, top, base, kr);
        assert(rstack_cells(s_push(r1, top).0) =~= rc.drop_last());
        assert(rstack_cells(s_push(s, top).0) =~= rc);
    }
}

/// CATCH of text that runs to the end pushes 0 on top of what the text left; CATCH
/// of an address and length that do not hold readable text drops them and pushes -3.
pub proof fn law_catch_success(d: DictView, s: MState, f: nat)
    requires
        f > 0,
        stack_ok(s),
        s.sp >= 16,
    ensures
        ({
            let c = stack_cells(s);
            let n = c.len() as int;
            let rt = read_text(s.mem, c[n - 2], c[n - 1]);
            let (s3, o3, g3) = run_catch(d, s, f);
            &&& rt is Err ==> o3 == Ok::<(), Seq<char>>(()) && stack_cells(s3) == c.subrange(0, n - 2).push(-3i64)
            &&& (rt is Ok && prepared(split_ws(rt->Ok_0), false, d) is Ok) ==> ({
                let a = prepared(split_ws(rt->Ok_0), false, d)->Ok_0;
                let res = run_node(d, a, MState { sp: s.sp - 16, ..s }, (f - 1) as nat);
                (res.1 is Ok && stack_ok(res.0) && res.0.sp + 8 <= MEMORY_SIZE) ==> {
                    &&& o3 == Ok::<(), Seq<char>>(())
                    &&& g3 == res.2
                    &&& stack_cells(s3) == stack_cells(res.0).push(0i64)
                }
            })
        }),
{
    let c = stack_cells(s);
    let n = c.len() as int;
    lemma_pop_cells(s);
    let s1a = MState { sp: s.sp - 8, ..s };
    lemma_pop_cells(s1a);
    let s1 = MState { sp: s.sp - 16, ..s };
    assert(stack_cells(s1a).last() == c[n - 2]);
    assert(s_pop2(s) == (Ok::<(Option<i64>, Option<i64>), Seq<char>>((Some(c[n - 1]), Some(c[n - 2]))), s1));
    let rt = read_text(s.mem, c[n - 2], c[n - 1]);
    if rt is Err {
        let x = crate::machine::s_eprint(s1, "CATCH string error: "@ + rt->Err_0 + "\n"@);
        assert(stack_ok(x) && stack_cells(x) == stack_cells(s1));
        lemma_push_cells(x, -3i64);
        assert(stack_cells(s1) =~= c.subrange(0, n - 2));
    } else if prepared(split_ws(rt->Ok_0), false, d) is Ok {
        let a = prepared(split_ws(rt->Ok_0), false, d)->Ok_0;
        let res = run_node(d, a, s1, (f - 1) as nat);
        if res.1 is Ok && stack_ok(res.0) && res.0.sp + 8 <= MEMORY_SIZE {
            lemma_push_cells(res.0, 0i64);
        }
    }
}

/// EVALUATE takes the address and length off the stack and runs the text they
/// hold on what is left: the state, the steps left and a fatal error are those of
/// running the text itself, and a catchable error is reported and processing goes
/// on with the state the text left.
pub proof fn law_evaluate(d: DictView, s: MState, f: nat)
    requires
        f > 0,
        stack_ok(s),
        s.sp >= 16,
        ({
            let c = stack_cells(s);
            let n = c.len() as int;
            read_text(s.mem, c[n - 2], c[n - 1]) is Ok
        }),
        ({
            let c = stack_cells(s);
            let n = c.len() as int;
            prepared(split_ws(strip_spec(read_text(s.mem, c[n - 2], c[n - 1])->Ok_0)), true, d) is Ok
        }),
    ensures
        ({
            let c = stack_cells(s);
            let n = c.len() as int;
            let a = prepared(split_ws(strip_spec(read_text(s.mem, c[n - 2], c[n - 1])->Ok_0)), true, d)->Ok_0;
            let res = run_node(d, a, MState { sp: s.sp - 16, ..s }, (f - 1) as nat);
            let (s3, o3, g3) = run_evaluate(d, s, f);
            &&& stack_cells(MState { sp: s.sp - 16, ..s }) == c.subrange(0, n - 2)
            &&& g3 == res.2
            &&& stack_cells(s3) == stack_cells(res.0)
            &&& s3.mem == res.0.mem
            &&& (res.1 is Ok || is_fatal(res.1->Err_0)) ==> s3 == res.0 && o3 == res.1
            &&& (res.1 is Err && !is_fatal(res.1->Err_0)) ==> o3 == Ok::<(), Seq<char>>(())
        }),
{
    let c = stack_cells(s);
    let n = c.len() as int;
    lemma_pop_cells(s);
    let s1a = MState { sp: s.sp - 8, ..s };
    lemma_pop_cells(s1a);
    let s1 = MState { sp: s.sp - 16, ..s };
    assert(stack_cells(s1a).last() == c[n - 2]);
    assert(s_pop2(s) == (Ok::<(Option<i64>, Option<i64>), Seq<char>>((Some(c[n - 1]), Some(c[n - 2]))), s1));
    assert(stack_cells(s1) =~= c.subrange(0, n - 2));
    let code = read_text(s.mem, c[n - 2], c[n - 1])->Ok_0;
    let a = prepared(split_ws(strip_spec(code)), true, d)->Ok_0;
    let res = run_node(d, a, s1, (f - 1) as nat);
    if res.1 is Err && !is_fatal(res.1->Err_0) {
        let x = crate::machine::s_eprint(res.0, "EVALUATE error: "@ + res.1->Err_0 + "\n"@);
        assert(run_evaluate(d, s, f) == (x, Ok::<(), Seq<char>>(()), res.2));
        assert(stack_cells(x) =~= stack_cells(res.0));
    } else {
        if let Ok(u) = res.1 {
            assert(u == ());
        }
        assert(run_evaluate(d, s, f) == res);
    }
}

} // verus!
