//! Byte-addressed memory of the Forth machine.
//!
//! Layout:
//! - `0x000000..0x010000`: data stack
//! - `0x010000..0x020000`: return stack
//! - `0x020000..0x800000`: user memory and dictionary space
//!
//! Cells are 8 bytes wide and stored little-endian.

use vstd::prelude::*;
use crate::text::{chars_of, decimal_u64, extend_chars, spec_decimal_nat, string_from_chars};

verus! {

/// Total number of bytes of the machine memory (8 MiB).
pub const MEMORY_SIZE: usize = 0x800000;

/// First byte of user memory; the dictionary pointer starts here.
pub const USER_MEMORY_START: usize = 0x020000;

/// Fixed location that mirrors the dictionary pointer (8 bytes before user memory).
pub const DP_ADDR: usize = 0x01FFF8;

/// Fixed location of the BASE variable (numeric radix).
pub const BASE_ADDR: usize = 0x7FFFF8;

/// Width of one cell in bytes.
pub const CELL: usize = 8;

/// The `k`-th little-endian byte of the 64-bit two's complement encoding of `v`.
pub open spec fn le_byte(v: i64, k: int) -> u8 {
    (((v as u64) >> ((8 * k) as u64)) & 0xffu64) as u8
}

/// Little-endian encoding of a cell.
pub open spec fn le_encode(v: i64) -> Seq<u8> {
    seq![le_byte(v, 0), le_byte(v, 1), le_byte(v, 2), le_byte(v, 3),
         le_byte(v, 4), le_byte(v, 5), le_byte(v, 6), le_byte(v, 7)]
}

/// The value of eight little-endian bytes as an unsigned 64-bit integer.
pub open spec fn le_decode_u64(b0: u8, b1: u8, b2: u8, b3: u8, b4: u8, b5: u8, b6: u8, b7: u8) -> u64 {
    (b0 as u64) | ((b1 as u64) << 8u64) | ((b2 as u64) << 16u64) | ((b3 as u64) << 24u64)
        | ((b4 as u64) << 32u64) | ((b5 as u64) << 40u64) | ((b6 as u64) << 48u64)
        | ((b7 as u64) << 56u64)
}

/// Little-endian decoding of the eight bytes of `s` starting at `addr`.
pub open spec fn le_decode(s: Seq<u8>, addr: int) -> i64 {
    le_decode_u64(s[addr], s[addr + 1], s[addr + 2], s[addr + 3], s[addr + 4], s[addr + 5],
        s[addr + 6], s[addr + 7]) as i64
}

/// `s` with the eight bytes at `addr` replaced by the encoding of `v`.
pub open spec fn write_cell(s: Seq<u8>, addr: int, v: i64) -> Seq<u8> {
    s.subrange(0, addr) + le_encode(v) + s.subrange(addr + 8, s.len() as int)
}

/// Whether a cell at `addr` lies inside a memory of `len` bytes.
pub open spec fn cell_in_bounds(addr: int, len: int) -> bool {
    0 <= addr && addr + 8 <= len
}

/// Message of a failed cell fetch.
pub open spec fn fetch_error(addr: int) -> Seq<char> {
    "Memory fetch out of bounds: address "@ + spec_decimal_nat(addr as nat)
}

/// Message of a failed cell store.
pub open spec fn store_error(addr: int) -> Seq<char> {
    "Memory store out of bounds: address "@ + spec_decimal_nat(addr as nat)
}

/// Message of a failed byte fetch.
pub open spec fn fetch_byte_error(addr: int) -> Seq<char> {
    "Memory byte fetch out of bounds: address "@ + spec_decimal_nat(addr as nat)
}

/// Message of a failed byte store.
pub open spec fn store_byte_error(addr: int) -> Seq<char> {
    "Memory byte store out of bounds: address "@ + spec_decimal_nat(addr as nat)
}

/// Decoding the encoding of a cell gives the cell back.
pub proof fn lemma_le_roundtrip(v: i64)
    ensures
        le_decode(le_encode(v), 0) == v,
{
    let u = v as u64;
    assert(le_decode_u64(
        ((u >> 0u64) & 0xffu64) as u8, ((u >> 8u64) & 0xffu64) as u8,
        ((u >> 16u64) & 0xffu64) as u8, ((u >> 24u64) & 0xffu64) as u8,
        ((u >> 32u64) & 0xffu64) as u8, ((u >> 40u64) & 0xffu64) as u8,
        ((u >> 48u64) & 0xffu64) as u8, ((u >> 56u64) & 0xffu64) as u8) == u) by (bit_vector);
    assert(u as i64 == v) by (bit_vector)
        requires u == v as u64;
    assert(le_encode(v)[0] == ((u >> 0u64) & 0xffu64) as u8);
    assert(le_encode(v)[7] == ((u >> 56u64) & 0xffu64) as u8);
}

/// Writing a cell and reading it back gives the written value, and no byte outside
/// the cell changes.
pub proof fn law_store_then_fetch(s: Seq<u8>, addr: int, v: i64)
    requires
        cell_in_bounds(addr, s.len() as int),
    ensures
        write_cell(s, addr, v).len() == s.len(),
        le_decode(write_cell(s, addr, v), addr) == v,
        forall|i: int| 0 <= i < s.len() && !(addr <= i < addr + 8)
            ==> #[trigger] write_cell(s, addr, v)[i] == s[i],
        forall|k: int| 0 <= k < 8 ==> #[trigger] write_cell(s, addr, v)[addr + k] == le_byte(v, k),
{
    let w = write_cell(s, addr, v);
    lemma_le_roundtrip(v);
    assert(w[addr] == le_encode(v)[0]);
    assert(w[addr + 1] == le_encode(v)[1]);
    assert(w[addr + 2] == le_encode(v)[2]);
    assert(w[addr + 3] == le_encode(v)[3]);
    assert(w[addr + 4] == le_encode(v)[4]);
    assert(w[addr + 5] == le_encode(v)[5]);
    assert(w[addr + 6] == le_encode(v)[6]);
    assert(w[addr + 7] == le_encode(v)[7]);
}

/// An operation that changes memory: ALLOT, `!` or `C!`.
pub ghost enum MemOp {
    Allot(i64),
    Store(int, i64),
    StoreByte(int, i64),
}

/// Memory bytes and HERE after an operation (a failed operation changes nothing).
pub open spec fn op_effect(b: Seq<u8>, dp: int, op: MemOp) -> (Seq<u8>, int) {
    match op {
        MemOp::Allot(n) => if 0 <= dp + n < MEMORY_SIZE {
            (write_cell(b, DP_ADDR as int, (dp + n) as i64), dp + n)
        } else {
            (b, dp)
        },
        MemOp::Store(a, v) => if cell_in_bounds(a, MEMORY_SIZE as int) { (write_cell(b, a, v), dp) } else { (b, dp) },
        MemOp::StoreByte(a, v) => if 0 <= a < MEMORY_SIZE { (b.update(a, (v & 0xff) as u8), dp) } else { (b, dp) },
    }
}

/// Memory bytes and HERE after a sequence of operations, in order.
pub open spec fn ops_effect(b: Seq<u8>, dp: int, ops: Seq<MemOp>) -> (Seq<u8>, int)
    decreases ops.len(),
{
    if ops.len() == 0 {
        (b, dp)
    } else {
        let (b1, d1) = op_effect(b, dp, ops[0]);
        ops_effect(b1, d1, ops.drop_first())
    }
}

/// Whether an operation leaves the bytes of the copy of HERE alone (ALLOT rewrites
/// them itself).
pub open spec fn avoids_mirror(op: MemOp) -> bool {
    match op {
        MemOp::Allot(_) => true,
        MemOp::Store(a, _) => a + 8 <= DP_ADDR || a >= DP_ADDR + 8,
        MemOp::StoreByte(a, _) => a < DP_ADDR || a >= DP_ADDR + 8,
    }
}

proof fn lemma_same_cell(b1: Seq<u8>, b2: Seq<u8>, addr: int)
    requires
        forall|k: int| addr <= k < addr + 8 ==> b1[k] == b2[k],
    ensures
        le_decode(b1, addr) == le_decode(b2, addr),
{
    assert(b1[addr] == b2[addr] && b1[addr + 1] == b2[addr + 1] && b1[addr + 2] == b2[addr + 2]
        && b1[addr + 3] == b2[addr + 3] && b1[addr + 4] == b2[addr + 4] && b1[addr + 5] == b2[addr + 5]
        && b1[addr + 6] == b2[addr + 6] && b1[addr + 7] == b2[addr + 7]);
}

proof fn lemma_mirror_kept_by_cell(b: Seq<u8>, addr: int, v: i64)
    requires
        b.len() == MEMORY_SIZE,
        cell_in_bounds(addr, b.len() as int),
        addr + 8 <= DP_ADDR || addr >= DP_ADDR + 8,
    ensures
        le_decode(write_cell(b, addr, v), DP_ADDR as int) == le_decode(b, DP_ADDR as int),
{
    law_store_then_fetch(b, addr, v);
    let w = write_cell(b, addr, v);
    assert forall|k: int| DP_ADDR <= k < DP_ADDR + 8 implies w[k] == b[k] by {}
    lemma_same_cell(w, b, DP_ADDR as int);
}

proof fn lemma_mirror_kept_by_byte(b: Seq<u8>, addr: int, x: u8)
    requires
        b.len() == MEMORY_SIZE,
        0 <= addr < MEMORY_SIZE,
        addr < DP_ADDR || addr >= DP_ADDR + 8,
    ensures
        le_decode(b.update(addr, x), DP_ADDR as int) == le_decode(b, DP_ADDR as int),
{
    lemma_same_cell(b.update(addr, x), b, DP_ADDR as int);
}

/// The copy of HERE at `DP_ADDR` stays equal to HERE over any sequence of ALLOT,
/// `!` and `C!` that does not write into the copy's own bytes. `op_effect` is what
/// `Memory::allot`, `Memory::store` and `Memory::store_byte` are stated to do, so
/// after `Memory::new` and any such sequence of calls `read_dp_from_memory`
/// gives `here`.
pub proof fn law_here_mirror_kept(b: Seq<u8>, dp: int, ops: Seq<MemOp>)
    requires
        b.len() == MEMORY_SIZE,
        0 <= dp < MEMORY_SIZE,
        le_decode(b, DP_ADDR as int) == dp,
        forall|i: int| 0 <= i < ops.len() ==> avoids_mirror(#[trigger] ops[i]),
    ensures
        ops_effect(b, dp, ops).0.len() == MEMORY_SIZE,
        0 <= ops_effect(b, dp, ops).1 < MEMORY_SIZE,
        le_decode(ops_effect(b, dp, ops).0, DP_ADDR as int) == ops_effect(b, dp, ops).1,
    decreases ops.len(),
{
    if ops.len() > 0 {
        let (b1, d1) = op_effect(b, dp, ops[0]);
        assert(avoids_mirror(ops[0]));
        match ops[0] {
            MemOp::Allot(n) => {
                if 0 <= dp + n < MEMORY_SIZE {
                    law_store_then_fetch(b, DP_ADDR as int, (dp + n) as i64);
                }
            },
            MemOp::Store(a, v) => {
                if cell_in_bounds(a, MEMORY_SIZE as int) {
                    lemma_mirror_kept_by_cell(b, a, v);
                }
            },
            MemOp::StoreByte(a, v) => {
                if 0 <= a < MEMORY_SIZE {
                    lemma_mirror_kept_by_byte(b, a, (v & 0xff) as u8);
                }
            },
        }
        assert forall|i: int| 0 <= i < ops.drop_first().len() implies avoids_mirror(#[trigger] ops.drop_first()[i]) by {
            assert(ops.drop_first()[i] == ops[i + 1]);
        }
        law_here_mirror_kept(b1, d1, ops.drop_first());
    }
}

/// Byte-addressed machine memory with a dictionary pointer.
pub struct Memory {
    bytes: Vec<u8>,
    dp: usize,
}

impl Memory {
    /// The contents of memory.
    pub closed spec fn bytes(&self) -> Seq<u8> {
        self.bytes@
    }

    /// The dictionary pointer (next free address in user memory).
    pub closed spec fn dp(&self) -> int {
        self.dp as int
    }

    /// Memory has its fixed size and the dictionary pointer lies inside it.
    pub open spec fn wf(&self) -> bool {
        &&& self.bytes().len() == MEMORY_SIZE
        &&& 0 <= self.dp() < MEMORY_SIZE
    }

    /// The copy of HERE kept at `DP_ADDR` equals HERE.
    pub open spec fn here_mirrored(&self) -> bool {
        le_decode(self.bytes(), DP_ADDR as int) == self.dp()
    }

    /// The cell at `addr`, if it lies inside memory.
    pub open spec fn spec_fetch(&self, addr: int) -> Option<i64> {
        if cell_in_bounds(addr, self.bytes().len() as int) {
            Some(le_decode(self.bytes(), addr))
        } else {
            None
        }
    }

    /// Create the 8 MiB memory: all zero, except that the dictionary pointer
    /// (0x020000) is mirrored at `DP_ADDR` and BASE holds 10.
    pub fn new() -> (m: Self)
        ensures
            m.wf(),
            m.dp() == USER_MEMORY_START,
            m.bytes() == write_cell(write_cell(Seq::new(MEMORY_SIZE as nat, |i: int| 0u8),
                DP_ADDR as int, USER_MEMORY_START as i64), BASE_ADDR as int, 10i64),
            m.here_mirrored(),
    {
        let bytes: Vec<u8> = vec![0u8; MEMORY_SIZE];
        let mut m = Memory { bytes, dp: USER_MEMORY_START };
        assert(m.bytes@ =~= Seq::new(MEMORY_SIZE as nat, |i: int| 0u8)) by {
            assert forall|i: int| 0 <= i < MEMORY_SIZE implies m.bytes@[i] == 0u8 by {
                assert(cloned(0u8, m.bytes@[i]));
            }
        }
        m.write_cell_unchecked(DP_ADDR, USER_MEMORY_START as i64);
        let ghost b1 = m.bytes@;
        m.write_cell_unchecked(BASE_ADDR, 10);
        proof {
            law_store_then_fetch(Seq::new(MEMORY_SIZE as nat, |i: int| 0u8), DP_ADDR as int,
                USER_MEMORY_START as i64);
            lemma_mirror_kept_by_cell(b1, BASE_ADDR as int, 10i64);
        }
        m
    }

    /// Size of memory in bytes.
    pub fn len(&self) -> (n: usize)
        requires
            self.wf(),
        ensures
            n == MEMORY_SIZE,
            n == self.bytes().len(),
    {
        self.bytes.len()
    }

    fn write_cell_unchecked(&mut self, addr: usize, value: i64)
        requires
            old(self).bytes().len() == MEMORY_SIZE,
            cell_in_bounds(addr as int, old(self).bytes().len() as int),
        ensures
            final(self).bytes().len() == MEMORY_SIZE,
            final(self).bytes() == write_cell(old(self).bytes(), addr as int, value),
            final(self).dp == old(self).dp,
    {
        let u = value as u64;
        let ghost s = self.bytes@;
        self.bytes.set(addr, (u & 0xff) as u8);
        self.bytes.set(addr + 1, ((u >> 8) & 0xff) as u8);
        self.bytes.set(addr + 2, ((u >> 16) & 0xff) as u8);
        self.bytes.set(addr + 3, ((u >> 24) & 0xff) as u8);
        self.bytes.set(addr + 4, ((u >> 32) & 0xff) as u8);
        self.bytes.set(addr + 5, ((u >> 40) & 0xff) as u8);
        self.bytes.set(addr + 6, ((u >> 48) & 0xff) as u8);
        self.bytes.set(addr + 7, ((u >> 56) & 0xff) as u8);
        assert(u >> 0u64 == u) by (bit_vector);
        assert(self.bytes@ =~= write_cell(s, addr as int, value));
    }

    fn read_cell_unchecked(&self, addr: usize) -> (v: i64)
        requires
            self.bytes().len() == MEMORY_SIZE,
            cell_in_bounds(addr as int, self.bytes().len() as int),
        ensures
            v == le_decode(self.bytes(), addr as int),
    {
        let u: u64 = (self.bytes[addr] as u64) | ((self.bytes[addr + 1] as u64) << 8)
            | ((self.bytes[addr + 2] as u64) << 16) | ((self.bytes[addr + 3] as u64) << 24)
            | ((self.bytes[addr + 4] as u64) << 32) | ((self.bytes[addr + 5] as u64) << 40)
            | ((self.bytes[addr + 6] as u64) << 48) | ((self.bytes[addr + 7] as u64) << 56);
        #[verifier::truncate] (u as i64)
    }

    /// Read the dictionary pointer mirrored at `DP_ADDR`.
    pub fn read_dp_from_memory(&self) -> (v: usize)
        requires
            self.wf(),
        ensures
            v == le_decode(self.bytes(), DP_ADDR as int) as usize,
            self.here_mirrored() ==> v == self.dp(),
    {
        #[verifier::truncate] (self.read_cell_unchecked(DP_ADDR) as usize)
    }

    /// HERE: the current dictionary pointer.
    pub fn here(&self) -> (h: i64)
        requires
            self.wf(),
        ensures
            h == self.dp(),
    {
        self.dp as i64
    }

    /// BASE: the address of the numeric base variable.
    pub fn base(&self) -> (b: i64)
        ensures
            b == BASE_ADDR,
    {
        BASE_ADDR as i64
    }

    /// ALLOT: move the dictionary pointer by `n` bytes (possibly backwards). Fails,
    /// leaving memory unchanged, when the new pointer would fall outside memory.
    /// On success the new pointer is also mirrored at `DP_ADDR`.
    pub fn allot(&mut self, n: i64) -> (r: Result<(), String>)
        requires
            old(self).wf(),
        ensures
            final(self).wf(),
            (0 <= old(self).dp() + n < MEMORY_SIZE) == (r is Ok),
            r is Ok ==> final(self).dp() == old(self).dp() + n
                && final(self).bytes() == write_cell(old(self).bytes(), DP_ADDR as int,
                    (old(self).dp() + n) as i64),
            r is Err ==> *final(self) == *old(self)
                && r->Err_0@ == "Dictionary overflow"@,
            r is Ok ==> final(self).here_mirrored(),
            (final(self).bytes(), final(self).dp()) == op_effect(old(self).bytes(), old(self).dp(), MemOp::Allot(n)),
    {
        let d = self.dp as i64;
        if n < -d || n >= (MEMORY_SIZE as i64) - d {
            return Err("Dictionary overflow".to_string());
        }
        let new_dp = (d + n) as usize;
        self.dp = new_dp;
        let ghost b0 = self.bytes@;
        self.write_cell_unchecked(DP_ADDR, new_dp as i64);
        proof { law_store_then_fetch(b0, DP_ADDR as int, new_dp as i64); }
        Ok(())
    }

    /// `@`: fetch the cell at `addr`.
    pub fn fetch(&self, addr: usize) -> (r: Result<i64, String>)
        requires
            self.wf(),
        ensures
            match self.spec_fetch(addr as int) {
                Some(v) => r == Ok::<i64, String>(v),
                None => r is Err && r->Err_0@ == fetch_error(addr as int),
            },
    {
        if addr > self.bytes.len() - 8 {
            return Err(error_with_address("Memory fetch out of bounds: address ", addr));
        }
        Ok(self.read_cell_unchecked(addr))
    }

    /// `!`: store `value` in the cell at `addr`.
    pub fn store(&mut self, addr: usize, value: i64) -> (r: Result<(), String>)
        requires
            old(self).wf(),
        ensures
            final(self).wf(),
            final(self).dp() == old(self).dp(),
            cell_in_bounds(addr as int, MEMORY_SIZE as int) == (r is Ok),
            r is Ok ==> final(self).bytes() == write_cell(old(self).bytes(), addr as int, value),
            r is Err ==> final(self).bytes() == old(self).bytes()
                && r->Err_0@ == store_error(addr as int),
            (final(self).bytes(), final(self).dp()) == op_effect(old(self).bytes(), old(self).dp(),
                MemOp::Store(addr as int, value)),
            old(self).here_mirrored() && avoids_mirror(MemOp::Store(addr as int, value))
                ==> final(self).here_mirrored(),
    {
        if addr > self.bytes.len() - 8 {
            return Err(error_with_address("Memory store out of bounds: address ", addr));
        }
        let ghost b0 = self.bytes@;
        self.write_cell_unchecked(addr, value);
        proof {
            if addr + 8 <= DP_ADDR || addr >= DP_ADDR + 8 {
                lemma_mirror_kept_by_cell(b0, addr as int, value);
            }
        }
        Ok(())
    }

    /// `C@`: fetch the byte at `addr`.
    pub fn fetch_byte(&self, addr: usize) -> (r: Result<i64, String>)
        requires
            self.wf(),
        ensures
            addr < MEMORY_SIZE ==> r == Ok::<i64, String>(self.bytes()[addr as int] as i64),
            addr >= MEMORY_SIZE ==> r is Err && r->Err_0@ == fetch_byte_error(addr as int),
    {
        if addr >= self.bytes.len() {
            return Err(error_with_address("Memory byte fetch out of bounds: address ", addr));
        }
        Ok(self.bytes[addr] as i64)
    }

    /// `C!`: store the low byte of `value` at `addr`.
    pub fn store_byte(&mut self, addr: usize, value: i64) -> (r: Result<(), String>)
        requires
            old(self).wf(),
        ensures
            final(self).wf(),
            final(self).dp() == old(self).dp(),
            (addr < MEMORY_SIZE) == (r is Ok),
            r is Ok ==> final(self).bytes() == old(self).bytes().update(addr as int,
                (value & 0xff) as u8),
            r is Err ==> final(self).bytes() == old(self).bytes()
                && r->Err_0@ == store_byte_error(addr as int),
            (final(self).bytes(), final(self).dp()) == op_effect(old(self).bytes(), old(self).dp(),
                MemOp::StoreByte(addr as int, value)),
            old(self).here_mirrored() && avoids_mirror(MemOp::StoreByte(addr as int, value))
                ==> final(self).here_mirrored(),
    {
        if addr >= self.bytes.len() {
            return Err(error_with_address("Memory byte store out of bounds: address ", addr));
        }
        let ghost b0 = self.bytes@;
        self.bytes.set(addr, (value & 0xff) as u8);
        proof {
            if addr < DP_ADDR || addr >= DP_ADDR + 8 {
                lemma_mirror_kept_by_byte(b0, addr as int, (value & 0xff) as u8);
            }
        }
        Ok(())
    }
}

/// `prefix` followed by the decimal digits of `addr`.
fn error_with_address(prefix: &str, addr: usize) -> (s: String)
    ensures
        s@ == prefix@ + spec_decimal_nat(addr as nat),
{
    let mut all = chars_of(prefix);
    let digits = decimal_u64(addr as u64);
    extend_chars(&mut all, &digits);
    string_from_chars(&all)
}

/// The text of a failed byte fetch at `addr`.
pub fn byte_fetch_message(addr: usize) -> (s: Vec<char>)
    ensures
        s@ == fetch_byte_error(addr as int),
{
    let mut all = chars_of("Memory byte fetch out of bounds: address ");
    let digits = decimal_u64(addr as u64);
    extend_chars(&mut all, &digits);
    all
}

/// The text of a failed byte store at `addr`.
pub fn byte_store_message(addr: usize) -> (s: Vec<char>)
    ensures
        s@ == store_byte_error(addr as int),
{
    let mut all = chars_of("Memory byte store out of bounds: address ");
    let digits = decimal_u64(addr as u64);
    extend_chars(&mut all, &digits);
    all
}


impl Default for Memory {
    /// A fresh memory, as `Memory::new` makes it.
    fn default() -> (m: Self)
        ensures
            m.wf(),
            m.dp() == USER_MEMORY_START,
            m.bytes() == write_cell(write_cell(Seq::new(MEMORY_SIZE as nat, |i: int| 0u8),
                DP_ADDR as int, USER_MEMORY_START as i64), BASE_ADDR as int, 10i64),
    {
        Memory::new()
    }
}

} // verus!
