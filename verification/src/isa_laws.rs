//! What each instruction of the CPU does, stated in plain arithmetic on the
//! bytes it reads: the stack entries are memory cells at the stack pointer
//! and the cells above it (addresses taken modulo 256).
use vstd::prelude::*;
use crate::assembler::{Word, classify3};
use crate::machine::{MachineView, Event, Fatal, spec_execute, spec_exec_shift_carry, shift_count, spec_finish, spec_mnemonic, spec_advance, spec_run, RunEnd, spec_provide_input};
use vstd::arithmetic::power2::{pow2, lemma2_to64};
use vstd::bits::lemma_u8_shr_is_div;

verus! {

/// The stack entry `k` places below the top (0 is the top).
pub open spec fn entry(m: MachineView, k: int) -> u8 {
    m.memory[(m.sp as int + k) % 256]
}

/// The conditional skip `skp n` (opcode 0xC0 + n): with 255 on top it
/// moves the instruction pointer on by n, with 0 it leaves it, and with any
/// other value it is fatal error 3; the boolean is popped.
pub proof fn law_skip(m: MachineView, prog: Seq<u8>, n: u8)
    requires
        m.wf(),
        n < 8,
        prog.len() < 65535,
        m.ip + n <= prog.len(),
        m.ip < prog.len(),
        prog[m.ip as int] == 0xC0 + n,
    ensures
        ({
            let (m1, e) = spec_execute(m, prog);
            &&& entry(m, 0) == 255 ==> e == Event::Executed && m1.ip == m.ip + n && m1.sp == (m.sp + 1) % 256
            &&& entry(m, 0) == 0 ==> e == Event::Executed && m1.ip == m.ip && m1.sp == (m.sp + 1) % 256
            &&& entry(m, 0) != 0 && entry(m, 0) != 255 ==> e == Event::Died(
                Fatal { code: 3, instruction_pointer: m.ip, value: entry(m, 0) },
            )
        }),
{
    reveal(spec_execute);
    let b = (0xC0 + n) as u8;
    assert(b / 64 == 3 && (b / 16) % 4 == 0 && (b / 8) % 2 == 0 && b % 8 == n);
    assert((m.sp as int + 0) % 256 == m.sp);
    let len = prog.len() as usize;
    assert(len as u16 == prog.len());
    assert(crate::machine::wadd16(len as u16, 1) == prog.len() + 1);
    assert(crate::machine::wadd16(m.ip, (b % 8) as u16) == m.ip + n);
}

/// Add and subtract with carry (opcodes 0x21, 0x23): with `x` on top and a
/// 16-bit value below it (low byte, then high byte), the three are replaced
/// by the 16-bit sum or difference (modulo 65536), low byte on top.
pub proof fn law_add_subtract_with_carry(m: MachineView, prog: Seq<u8>)
    requires
        m.wf(),
        m.ip < prog.len(),
        prog[m.ip as int] == 0x21 || prog[m.ip as int] == 0x23,
    ensures
        ({
            let (m1, e) = spec_execute(m, prog);
            let x = entry(m, 0) as int;
            let value = entry(m, 1) as int + 256 * entry(m, 2) as int;
            let result = entry(m1, 0) as int + 256 * entry(m1, 1) as int;
            &&& e == Event::Executed
            &&& m1.sp == (m.sp + 1) % 256
            &&& prog[m.ip as int] == 0x21 ==> result == (value + x) % 65536
            &&& prog[m.ip as int] == 0x23 ==> result == (value - x + 65536) % 65536
        }),
{
    reveal(spec_execute);
    let (m1, e) = spec_execute(m, prog);
    let op = prog[m.ip as int];
    let x = entry(m, 0) as int;
    let value = entry(m, 1) as int + 256 * entry(m, 2) as int;
    let r = if op == 0x21 { (value + x) % 65536 } else { (value - x + 65536) % 65536 };
    assert((m.sp as int + 0) % 256 == m.sp);
    assert(r == (r / 256) * 256 + r % 256 && 0 <= r % 256 < 256 && 0 <= r / 256 < 256) by (nonlinear_arith)
        requires
            0 <= r < 65536,
    ;
    assert((m1.sp as int + 0) % 256 == m1.sp);
}

/// The two-operand arithmetic, comparison and logic instructions: with `a`
/// on top and `b` below it, both are replaced by the result.
pub proof fn law_binary_alu(m: MachineView, prog: Seq<u8>)
    requires
        m.wf(),
        m.ip < prog.len(),
        ({
            let op = prog[m.ip as int];
            op == 0x20 || op == 0x22 || op == 0x26 || op == 0x27 || op == 0x28 || op == 0x31 || op == 0x32
                || op == 0x33 || op == 0x34
        }),
    ensures
        ({
            let op = prog[m.ip as int];
            let (m1, e) = spec_execute(m, prog);
            let a = entry(m, 0);
            let b = entry(m, 1);
            let r = entry(m1, 0);
            &&& e == Event::Executed
            &&& m1.sp == (m.sp + 1) % 256
            &&& op == 0x20 ==> r == (a + b) % 256
            &&& op == 0x22 ==> r == (a - b + 256) % 256
            &&& op == 0x26 ==> (a < b ==> r == 255) && (a >= b ==> r == 0)
            &&& op == 0x27 ==> (a > b ==> r == 255) && (a <= b ==> r == 0)
            &&& op == 0x28 ==> (a == b ==> r == 255) && (a != b ==> r == 0)
            &&& op == 0x31 ==> r == a | b
            &&& op == 0x32 ==> r == a & b
            &&& op == 0x33 ==> r == a ^ b
            &&& op == 0x34 ==> r == 0
        }),
{
    reveal(spec_execute);
    assert((m.sp as int + 0) % 256 == m.sp);
    let (m1, e) = spec_execute(m, prog);
    assert((m1.sp as int + 0) % 256 == m1.sp);
}

/// The one-operand instructions: the top entry `a` is replaced by the result.
pub proof fn law_unary_alu(m: MachineView, prog: Seq<u8>)
    requires
        m.wf(),
        m.ip < prog.len(),
        ({
            let op = prog[m.ip as int];
            op == 0x24 || op == 0x25 || op == 0x29 || op == 0x2A || op == 0x2B || op == 0x30
        }),
    ensures
        ({
            let op = prog[m.ip as int];
            let (m1, e) = spec_execute(m, prog);
            let a = entry(m, 0);
            let r = entry(m1, 0);
            &&& e == Event::Executed
            &&& m1.sp == m.sp
            &&& op == 0x24 ==> r == (a + 1) % 256
            &&& op == 0x25 ==> r == (a + 255) % 256
            &&& op == 0x29 ==> (a != 0 ==> r == 255) && (a == 0 ==> r == 0)
            &&& op == 0x2A ==> r == (256 - a) % 256
            &&& op == 0x2B ==> (a < 128 ==> r == a) && (a >= 128 ==> r == 256 - a)
            &&& op == 0x30 ==> r + a == 255
        }),
{
    reveal(spec_execute);
    assert((m.sp as int + 0) % 256 == m.sp);
    let (m1, e) = spec_execute(m, prog);
    assert((m1.sp as int + 0) % 256 == m1.sp);
}

/// The jump `sti` (opcode 0x16): the low byte `lo` of an address on top and
/// its high byte `hi` below are popped, and the instruction pointer is set
/// to one before `hi * 256 + lo` (modulo 65536; it is advanced after every
/// instruction). A target one past the end of the program is fatal error 6,
/// one further out is error 7 with the target's low byte.
pub proof fn law_jump(m: MachineView, prog: Seq<u8>)
    requires
        m.wf(),
        prog.len() < 65535,
        m.ip < prog.len(),
        prog[m.ip as int] == 0x16,
    ensures
        ({
            let (m1, e) = spec_execute(m, prog);
            let t = (entry(m, 0) as int + 256 * entry(m, 1) as int + 65535) % 65536;
            &&& m1.sp == (m.sp + 2) % 256
            &&& t <= prog.len() ==> e == Event::Executed && m1.ip == t
            &&& t == prog.len() + 1 ==> e == Event::Died(Fatal { code: 6, instruction_pointer: m.ip, value: 0 })
            &&& t > prog.len() + 1 ==> e == Event::Died(
                Fatal { code: 7, instruction_pointer: m.ip, value: (t % 256) as u8 },
            )
        }),
{
    reveal(spec_execute);
    assert((m.sp as int + 0) % 256 == m.sp);
    let len = prog.len() as usize;
    assert(len as u16 == prog.len());
    assert(crate::machine::wadd16(len as u16, 1) == prog.len() + 1);
    let lo = entry(m, 0);
    let hi = entry(m, 1);
    let a = lo as int + hi as int * 256;
    assert(0 <= a < 65536);
    assert((a as u16) as int == a);
}

/// `ldi` (opcode 0x15) pushes the address of the next instruction, high
/// byte first, so that the low byte is on top.
pub proof fn law_return_address(m: MachineView, prog: Seq<u8>)
    requires
        m.wf(),
        m.ip < prog.len(),
        prog[m.ip as int] == 0x15,
    ensures
        ({
            let (m1, e) = spec_execute(m, prog);
            &&& e == Event::Executed
            &&& m1.wf()
            &&& m1.ip == m.ip
            &&& m1.sp == (m.sp + 254) % 256
            &&& entry(m1, 0) as int + 256 * entry(m1, 1) as int == (m.ip + 1) % 65536
        }),
{
    reveal(spec_execute);
    let (m1, e) = spec_execute(m, prog);
    let r = (m.ip as int + 1) % 65536;
    assert(r == (r / 256) * 256 + r % 256 && 0 <= r % 256 < 256 && 0 <= r / 256 < 256) by (nonlinear_arith)
        requires
            0 <= r < 65536,
    ;
    assert((m1.sp as int + 0) % 256 == m1.sp);
}

/// `ldi` at one place and `sti` at another return to the first: the jump
/// takes what `ldi` pushed and sets the instruction pointer back on the
/// `ldi`, so that execution goes on right after it, with the stack as
/// before.
pub proof fn law_return_address_then_jump(m: MachineView, prog: Seq<u8>, q: u16)
    requires
        m.wf(),
        prog.len() < 65535,
        m.ip < prog.len(),
        prog[m.ip as int] == 0x15,
        q < prog.len(),
        prog[q as int] == 0x16,
    ensures
        ({
            let (m1, e1) = spec_execute(m, prog);
            let (m2, e2) = spec_execute(m1.with_ip(q), prog);
            &&& e2 == Event::Executed
            &&& m2.ip == m.ip
            &&& m2.sp == m.sp
        }),
{
    law_return_address(m, prog);
    let (m1, e1) = spec_execute(m, prog);
    law_jump(m1.with_ip(q), prog);
    assert((m1.sp as int + 0) % 256 == m1.sp);
}

/// `hlt` (opcode 0x02) stops the CPU and changes nothing.
pub proof fn law_halt(m: MachineView, prog: Seq<u8>)
    requires
        m.ip < prog.len(),
        prog[m.ip as int] == 0x02,
    ensures
        spec_execute(m, prog) == (m, Event::Halted),
{
    reveal(spec_execute);
}

/// Opcode 0x01 pushes the next program byte and moves the instruction
/// pointer onto it.
pub proof fn law_push_next_byte(m: MachineView, prog: Seq<u8>)
    requires
        m.wf(),
        prog.len() < 65535,
        m.ip + 1 < prog.len(),
        prog[m.ip as int] == 0x01,
    ensures
        ({
            let (m1, e) = spec_execute(m, prog);
            &&& e == Event::Executed
            &&& m1.ip == m.ip + 1
            &&& m1.sp == (m.sp + 255) % 256
            &&& entry(m1, 0) == prog[m.ip + 1]
        }),
{
    reveal(spec_execute);
    let (m1, e) = spec_execute(m, prog);
    let len = prog.len() as usize;
    assert(len as u16 == prog.len());
    assert(crate::machine::wadd16(len as u16, 1) == prog.len() + 1);
    assert(crate::machine::wadd16(m.ip, 1) == m.ip + 1);
    assert((m1.sp as int + 0) % 256 == m1.sp);
}

/// Opcode 0x03 pushes the program byte two on, then the next one (which
/// ends on top), and moves the instruction pointer onto the second.
pub proof fn law_push_next_two_bytes(m: MachineView, prog: Seq<u8>)
    requires
        m.wf(),
        prog.len() < 65535,
        m.ip + 2 < prog.len(),
        prog[m.ip as int] == 0x03,
    ensures
        ({
            let (m1, e) = spec_execute(m, prog);
            &&& e == Event::Executed
            &&& m1.ip == m.ip + 2
            &&& m1.sp == (m.sp + 254) % 256
            &&& entry(m1, 0) == prog[m.ip + 1]
            &&& entry(m1, 1) == prog[m.ip + 2]
        }),
{
    reveal(spec_execute);
    let (m1, e) = spec_execute(m, prog);
    let len = prog.len() as usize;
    assert(len as u16 == prog.len());
    assert(crate::machine::wadd16(len as u16, 1) == prog.len() + 1);
    assert(crate::machine::wadd16(m.ip, 2) == m.ip + 2);
    assert((m1.sp as int + 0) % 256 == m1.sp);
}

/// Opcode 0xF0 + n pushes n.
pub proof fn law_push_small(m: MachineView, prog: Seq<u8>)
    requires
        m.wf(),
        m.ip < prog.len(),
        prog[m.ip as int] >= 0xF0,
    ensures
        ({
            let (m1, e) = spec_execute(m, prog);
            &&& e == Event::Executed
            &&& m1.ip == m.ip
            &&& m1.sp == (m.sp + 255) % 256
            &&& entry(m1, 0) == prog[m.ip as int] - 0xF0
        }),
{
    reveal(spec_execute);
    let b = prog[m.ip as int];
    assert(b / 64 == 3 && (b / 16) % 4 == 3 && b % 16 == b - 0xF0);
    let (m1, e) = spec_execute(m, prog);
    assert((m1.sp as int + 0) % 256 == m1.sp);
}

/// The stack instructions: `lds` (0x13) pushes the stack pointer, `sts`
/// (0x14) pops a byte into it, `dup` (0x1B) pushes the top entry again,
/// `drp` (0x1C) pops it, and `swp` (0x1D) exchanges the two top entries and
/// leaves the others where they are.
pub proof fn law_stack_instructions(m: MachineView, prog: Seq<u8>)
    requires
        m.wf(),
        m.ip < prog.len(),
        ({
            let op = prog[m.ip as int];
            op == 0x13 || op == 0x14 || op == 0x1B || op == 0x1C || op == 0x1D
        }),
    ensures
        ({
            let op = prog[m.ip as int];
            let (m1, e) = spec_execute(m, prog);
            &&& e == Event::Executed
            &&& m1.ip == m.ip
            &&& op == 0x13 ==> m1.sp == (m.sp + 255) % 256 && entry(m1, 0) == m.sp
            &&& op == 0x14 ==> m1.sp == entry(m, 0)
            &&& op == 0x1B ==> m1.sp == (m.sp + 255) % 256 && entry(m1, 0) == entry(m, 0) && entry(m1, 1)
                == entry(m, 0)
            &&& op == 0x1C ==> m1.sp == (m.sp + 1) % 256
            &&& op == 0x1D ==> m1.sp == m.sp && entry(m1, 0) == entry(m, 1) && entry(m1, 1) == entry(m, 0)
                && forall|k: int| 2 <= k < 256 ==> #[trigger] entry(m1, k) == entry(m, k)
        }),
{
    reveal(spec_execute);
    let op = prog[m.ip as int];
    let (m1, e) = spec_execute(m, prog);
    assert((m.sp as int + 0) % 256 == m.sp);
    assert((m1.sp as int + 0) % 256 == m1.sp);
    if op == 0x1D {
        assert forall|k: int| 2 <= k < 256 implies #[trigger] entry(m1, k) == entry(m, k) by {
            assert((m.sp as int + k) % 256 != m.sp);
            assert((m.sp as int + k) % 256 != (m.sp as int + 1) % 256);
        }
    }
}

/// `sto n` (opcode 0x40 + n) pops the top entry and writes it into the
/// entry n places below the new top; `ldo n` (0x80 + n) pushes a copy of
/// the entry n places below the top.
pub proof fn law_store_and_load_offset(m: MachineView, prog: Seq<u8>)
    requires
        m.wf(),
        m.ip < prog.len(),
        0x40 <= prog[m.ip as int] < 0xC0,
    ensures
        ({
            let b = prog[m.ip as int];
            let (m1, e) = spec_execute(m, prog);
            &&& e == Event::Executed
            &&& m1.ip == m.ip
            &&& b < 0x80 ==> m1.sp == (m.sp + 1) % 256 && entry(m1, b - 0x40) == entry(m, 0)
            &&& b >= 0x80 ==> m1.sp == (m.sp + 255) % 256 && entry(m1, 0) == entry(m, b - 0x80)
        }),
{
    reveal(spec_execute);
    let b = prog[m.ip as int];
    let (m1, e) = spec_execute(m, prog);
    assert((m.sp as int + 0) % 256 == m.sp);
    assert((m1.sp as int + 0) % 256 == m1.sp);
    if b < 0x80 {
        assert(b / 64 == 1 && b % 64 == b - 0x40);
    } else {
        assert(b / 64 == 2 && b % 64 == b - 0x80);
    }
}

/// Shifting a byte by `s` (below 8) places: left is multiplying by 2^s
/// modulo 256, right is dividing by 2^s.
pub proof fn lemma_byte_shifts(v: u8, s: u8)
    requires
        s < 8,
    ensures
        v << s == (v as int * pow2(s as nat)) % 256,
        v >> s == v as nat / pow2(s as nat),
{
    lemma_u8_shr_is_div(v, s);
    lemma2_to64();
    if s == 0 {
        assert(v << 0u8 == v) by (bit_vector);
    } else if s == 1 {
        assert(v << 1u8 == (v * 2) % 256) by (bit_vector);
    } else if s == 2 {
        assert(v << 2u8 == (v * 4) % 256) by (bit_vector);
    } else if s == 3 {
        assert(v << 3u8 == (v * 8) % 256) by (bit_vector);
    } else if s == 4 {
        assert(v << 4u8 == (v * 16) % 256) by (bit_vector);
    } else if s == 5 {
        assert(v << 5u8 == (v * 32) % 256) by (bit_vector);
    } else if s == 6 {
        assert(v << 6u8 == (v * 64) % 256) by (bit_vector);
    } else {
        assert(v << 7u8 == (v * 128) % 256) by (bit_vector);
    }
}

/// The shifts `shl n` (0xD0 + n) and `shr n` (0xD8 + n): the count `c` is
/// n, or, for n = 0, a byte popped from the top; the entry `v` then on top
/// is replaced by `v * 2^(c mod 8)` modulo 256 (left) or `v / 2^(c mod 8)`
/// (right).
pub proof fn law_shift(m: MachineView, prog: Seq<u8>)
    requires
        m.wf(),
        m.ip < prog.len(),
        0xD0 <= prog[m.ip as int] < 0xE0,
    ensures
        ({
            let b = prog[m.ip as int];
            let n = b % 8;
            let (m1, e) = spec_execute(m, prog);
            let c = if n == 0 { entry(m, 0) } else { n };
            let v = if n == 0 { entry(m, 1) } else { entry(m, 0) };
            let r = entry(m1, 0);
            &&& e == Event::Executed
            &&& m1.ip == m.ip
            &&& m1.sp == if n == 0 { (m.sp + 1) % 256 } else { m.sp as int }
            &&& b < 0xD8 ==> r == (v as int * pow2((c % 8) as nat)) % 256
            &&& b >= 0xD8 ==> r == v as nat / pow2((c % 8) as nat)
        }),
{
    reveal(spec_execute);
    let b = prog[m.ip as int];
    let n = b % 8;
    assert(b / 64 == 3 && (b / 16) % 4 == 1);
    assert(b < 0xD8 <==> (b / 8) % 2 == 0);
    let (m1, e) = spec_execute(m, prog);
    assert((m.sp as int + 0) % 256 == m.sp);
    assert((m1.sp as int + 0) % 256 == m1.sp);
    let c = if n == 0 { entry(m, 0) } else { n };
    let v = if n == 0 { entry(m, 1) } else { entry(m, 0) };
    lemma_byte_shifts(v, c % 8);
}

/// The shifts with carry `slc n` (0xE0 + n) and `src n` (0xE8 + n): the
/// count `c` is n, or, for n = 0, a byte popped from the top; with `v` on
/// top and `carry` below, both are replaced: `v` shifted by `c mod 8` goes
/// on top, and below it the byte `(carry + v) mod 256` shifted the other
/// way by `(8 - c) mod 8`.
#[verifier::spinoff_prover]
#[verifier::rlimit(40)]
pub proof fn law_shift_with_carry(m: MachineView, prog: Seq<u8>)
    requires
        m.wf(),
        m.ip < prog.len(),
        0xE0 <= prog[m.ip as int] < 0xF0,
    ensures
        ({
            let b = prog[m.ip as int];
            let n = b % 8;
            let (m1, e) = spec_execute(m, prog);
            let c = if n == 0 { entry(m, 0) } else { n };
            let v = if n == 0 { entry(m, 1) } else { entry(m, 0) };
            let carry = if n == 0 { entry(m, 2) } else { entry(m, 1) };
            let s = c % 8;
            let t = (264 - c) % 8;
            let sum = (carry + v) % 256;
            &&& e == Event::Executed
            &&& m1.ip == m.ip
            &&& m1.sp == if n == 0 { (m.sp + 1) % 256 } else { m.sp as int }
            &&& b < 0xE8 ==> entry(m1, 0) == (v as int * pow2(s as nat)) % 256 && entry(m1, 1) == sum
                / (pow2(t as nat) as int)
            &&& b >= 0xE8 ==> entry(m1, 0) == v as nat / pow2(s as nat) && entry(m1, 1) == (sum * pow2(
                t as nat,
            )) % 256
        }),
{
    let b = prog[m.ip as int];
    let n = (b % 8) as u8;
    assert(spec_execute(m, prog) == (spec_exec_shift_carry(m, b), Event::Executed)) by {
        reveal(spec_execute);
        assert(b / 64 == 3 && (b / 16) % 4 == 2);
    }
    let m1 = spec_exec_shift_carry(m, b);
    assert(b < 0xE8 <==> (b / 8) % 2 == 0);
    assert((m.sp as int + 0) % 256 == m.sp);
    let (ma, c) = shift_count(m, n);
    let (mb, v) = ma.pop();
    let (mc, carry) = mb.pop();
    if n == 0 {
        assert(c == entry(m, 0) && v == entry(m, 1) && carry == entry(m, 2));
        assert(mc.sp == (m.sp + 3) % 256);
    } else {
        assert(c == n && v == entry(m, 0) && carry == entry(m, 1));
        assert(mc.sp == (m.sp + 2) % 256);
    }
    let sum = crate::machine::wadd8(carry, v);
    let t8 = (crate::machine::wsub8(8, c) % 8) as u8;
    assert(t8 == (264 - c) % 8);
    lemma_byte_shifts(v, c % 8);
    lemma_byte_shifts(sum, t8);
    assert((m1.sp as int + 0) % 256 == m1.sp);
}

/// The loads: `lda` (0x11) pops an address and pushes the RAM byte there
/// (read after the pop has cleared the cell it popped), except that address
/// 0xFF asks for a line of input; `ldb` (0x19) pops an address and pushes
/// the display byte there; `ldp` (0x17) pops a low and then a high address
/// byte and pushes the program byte at `hi * 256 + lo`, an address outside
/// the program being reported as such.
pub proof fn law_loads(m: MachineView, prog: Seq<u8>)
    requires
        m.wf(),
        m.ip < prog.len(),
        ({
            let op = prog[m.ip as int];
            op == 0x11 || op == 0x17 || op == 0x19
        }),
    ensures
        ({
            let op = prog[m.ip as int];
            let (m1, e) = spec_execute(m, prog);
            let a = entry(m, 0);
            let p = entry(m, 0) as int + 256 * entry(m, 1) as int;
            &&& m1.wf()
            &&& m1.ip == m.ip
            &&& m1.display == m.display
            &&& m1.stdout == m.stdout
            &&& op == 0x11 && a == 0xFF ==> e == Event::AwaitingInput && m1.sp == (m.sp + 1) % 256
            &&& op == 0x11 && a != 0xFF ==> e == Event::Executed && m1.sp == m.sp && entry(m1, 0) == if a
                == m.sp {
                0
            } else {
                m.memory[a as int]
            }
            &&& op == 0x19 ==> e == Event::Executed && m1.sp == m.sp && entry(m1, 0) == m.display[a as int]
            &&& op == 0x17 && p < prog.len() ==> e == Event::Executed && m1.sp == (m.sp + 1) % 256 && entry(
                m1,
                0,
            ) == prog[p]
            &&& op == 0x17 && p >= prog.len() ==> e == Event::OutOfBounds(p as usize)
        }),
{
    reveal(spec_execute);
    let (m1, e) = spec_execute(m, prog);
    assert((m.sp as int + 0) % 256 == m.sp);
    assert((m1.sp as int + 0) % 256 == m1.sp);
}

/// The stores: `sta` (0x12) pops an address and then a value; address 0xFF
/// appends the character with that code to the output (as UTF-8: itself
/// below 0x80, else the two bytes 0xC0 + v / 64 and 0x80 + v mod 64),
/// address 0xFE drops it, and any other address stores it in RAM. `stb`
/// (0x1A) pops an address and a value and stores the value in the display.
pub proof fn law_stores(m: MachineView, prog: Seq<u8>)
    requires
        m.wf(),
        m.ip < prog.len(),
        prog[m.ip as int] == 0x12 || prog[m.ip as int] == 0x1A,
    ensures
        ({
            let op = prog[m.ip as int];
            let (m1, e) = spec_execute(m, prog);
            let a = entry(m, 0);
            let v = entry(m, 1);
            &&& e == Event::Executed
            &&& m1.ip == m.ip
            &&& m1.sp == (m.sp + 2) % 256
            &&& op == 0x12 && a == 0xFF && v < 0x80 ==> m1.stdout == m.stdout.push(v)
            &&& op == 0x12 && a == 0xFF && v >= 0x80 ==> m1.stdout == m.stdout.push((0xC0 + v / 64) as u8).push(
                (0x80 + v % 64) as u8,
            )
            &&& op == 0x12 && a != 0xFF ==> m1.stdout == m.stdout
            &&& op == 0x12 && a < 0xFE ==> m1.memory[a as int] == v
            &&& op == 0x12 ==> m1.display == m.display
            &&& op == 0x1A ==> m1.display == m.display.update(a as int, v) && m1.stdout == m.stdout
        }),
{
    reveal(spec_execute);
    let (m1, e) = spec_execute(m, prog);
    assert((m.sp as int + 0) % 256 == m.sp);
    let v = entry(m, 1);
    assert(m.stdout + seq![v] =~= m.stdout.push(v));
    assert(m.stdout + seq![(0xC0 + v / 64) as u8, (0x80 + v % 64) as u8] =~= m.stdout.push(
        (0xC0 + v / 64) as u8,
    ).push((0x80 + v % 64) as u8));
}

/// The checks at the end of a run: the run must have stopped on a `hlt`
/// (else fatal error 6) with exactly one byte on the stack, the stack
/// pointer then being 255 (else fatal error 5 with the stack pointer); that
/// byte is the exit code.
pub proof fn law_exit_code(m: MachineView, prog: Seq<u8>)
    requires
        m.wf(),
    ensures
        ({
            let on_halt = m.ip < prog.len() && prog[m.ip as int] == 0x02;
            &&& !on_halt ==> spec_finish(m, prog) == Err::<u8, Event>(
                Event::Died(Fatal { code: 6, instruction_pointer: m.ip, value: 0 }),
            )
            &&& on_halt && m.sp != 255 ==> spec_finish(m, prog) == Err::<u8, Event>(
                Event::Died(Fatal { code: 5, instruction_pointer: m.ip, value: m.sp }),
            )
            &&& on_halt && m.sp == 255 ==> spec_finish(m, prog) == Ok::<u8, Event>(entry(m, 0))
        }),
{
    assert((m.sp as int + 0) % 256 == m.sp);
}

/// The emulator names each one-byte instruction as the assembler spells
/// it, except `lgt` (0x27), which the emulator names `igt`; and an operand
/// instruction with an operand below 8 keeps the assembler's name too.
pub proof fn law_instruction_names(a: u8, b: u8, c: u8, v: u8)
    requires
        v < 8,
    ensures
        classify3(a, b, c) matches Word::Simple(op) ==> spec_mnemonic(op) == if op == 0x27 {
            seq!['i', 'g', 't']
        } else {
            seq![a as char, b as char, c as char]
        },
        classify3(a, b, c) matches Word::Operand(base) ==> spec_mnemonic(base | v) == seq![
            a as char,
            b as char,
            c as char,
        ],
{
    reveal_strlit("nop");
    reveal_strlit("hlt");
    reveal_strlit("dbg");
    reveal_strlit("lda");
    reveal_strlit("sta");
    reveal_strlit("lds");
    reveal_strlit("sts");
    reveal_strlit("ldi");
    reveal_strlit("sti");
    reveal_strlit("ldp");
    reveal_strlit("stp");
    reveal_strlit("ldb");
    reveal_strlit("stb");
    reveal_strlit("dup");
    reveal_strlit("drp");
    reveal_strlit("swp");
    reveal_strlit("add");
    reveal_strlit("adc");
    reveal_strlit("sub");
    reveal_strlit("sbc");
    reveal_strlit("inc");
    reveal_strlit("dec");
    reveal_strlit("ilt");
    reveal_strlit("igt");
    reveal_strlit("ieq");
    reveal_strlit("nez");
    reveal_strlit("neg");
    reveal_strlit("abs");
    reveal_strlit("not");
    reveal_strlit("oor");
    reveal_strlit("and");
    reveal_strlit("xor");
    reveal_strlit("xnd");
    reveal_strlit("sto");
    reveal_strlit("ldo");
    reveal_strlit("skp");
    reveal_strlit("shl");
    reveal_strlit("shr");
    match classify3(a, b, c) {
        Word::Operand(base) => {
            assert(0x40u8 | v == 0x40 + v && 0x80u8 | v == 0x80 + v && 0xC0u8 | v == 0xC0 + v && 0xD0u8 | v
                == 0xD0 + v && 0xD8u8 | v == 0xD8 + v) by (bit_vector)
                requires
                    v < 8,
            ;
        },
        _ => {},
    }
}

/// After each instruction the instruction pointer moves on by exactly one;
/// moving it one past the end of the program is fatal error 6.
pub proof fn law_advance(m: MachineView, prog: Seq<u8>)
    requires
        prog.len() < 65535,
        m.ip <= prog.len(),
    ensures
        m.ip < prog.len() ==> spec_advance(m, prog) == Ok::<MachineView, Fatal>(m.with_ip((m.ip + 1) as u16)),
        m.ip == prog.len() ==> spec_advance(m, prog) == Err::<MachineView, Fatal>(
            Fatal { code: 6, instruction_pointer: m.ip, value: 0 },
        ),
{
    let len = prog.len() as usize;
    assert(len as u16 == prog.len());
    assert(crate::machine::wadd16(len as u16, 1) == prog.len() + 1);
    assert(crate::machine::wadd16(m.ip, 1) == m.ip + 1);
}

/// Whether `b` is the opcode of an instruction of the CPU.
pub open spec fn is_instruction(b: u8) -> bool {
    ||| b <= 0x03
    ||| b == 0x0F
    ||| 0x11 <= b <= 0x1D
    ||| 0x20 <= b <= 0x2B
    ||| 0x30 <= b <= 0x34
    ||| 0x40 <= b <= 0xC7
    ||| 0xD0 <= b
}

/// `nop` (0x00) changes nothing; `dbg` (0x0F) switches debugging and
/// stepping on; `stp` (0x18) is fatal error 8; and a byte that is no
/// instruction is fatal error 1 with that byte.
pub proof fn law_other_opcodes(m: MachineView, prog: Seq<u8>)
    requires
        m.ip < prog.len(),
    ensures
        ({
            let b = prog[m.ip as int];
            let (m1, e) = spec_execute(m, prog);
            &&& b == 0x00 ==> m1 == m && e == Event::Executed
            &&& b == 0x0F ==> e == Event::Executed && m1 == MachineView { debug: true, stepping: true, ..m }
            &&& b == 0x18 ==> m1 == m && e == Event::Died(Fatal { code: 8, instruction_pointer: m.ip, value: 0 })
            &&& !is_instruction(b) ==> m1 == m && e == Event::Died(
                Fatal { code: 1, instruction_pointer: m.ip, value: b },
            )
        }),
{
    reveal(spec_execute);
    let b = prog[m.ip as int];
    if 0xC8 <= b < 0xD0 {
        assert(b / 64 == 3 && (b / 16) % 4 == 0 && (b / 8) % 2 == 1);
    }
}

/// A run that ended before its step budget ran out ends the same way, in
/// the same state, with any larger budget.
pub proof fn law_run_budget(m: MachineView, prog: Seq<u8>, fuel: nat, more: nat)
    requires
        spec_run(m, prog, fuel).1 != RunEnd::OutOfSteps,
    ensures
        spec_run(m, prog, fuel + more) == spec_run(m, prog, fuel),
    decreases fuel,
{
    if m.ip < prog.len() && fuel > 0 {
        let (m1, e) = spec_execute(m, prog);
        if e == Event::Executed {
            match spec_advance(m1, prog) {
                Ok(m2) => {
                    law_run_budget(m2, prog, (fuel - 1) as nat, more);
                    assert((fuel + more - 1) as nat == (fuel - 1) as nat + more);
                },
                Err(f) => {},
            }
        }
    }
}

/// A run that comes to a `hlt` stops there: with exactly one byte on the
/// stack (the stack pointer at 255) it exits with that byte as the exit
/// code, else it stops on fatal error 5.
pub proof fn law_run_stops_at_halt(m: MachineView, prog: Seq<u8>, fuel: nat)
    requires
        m.wf(),
        m.ip < prog.len(),
        prog[m.ip as int] == 0x02,
        fuel > 0,
    ensures
        spec_run(m, prog, fuel) == (m, if m.sp == 255 {
            RunEnd::Exit(entry(m, 0))
        } else {
            RunEnd::Stopped(Event::Died(Fatal { code: 5, instruction_pointer: m.ip, value: m.sp }))
        }),
{
    law_halt(m, prog);
    law_exit_code(m, prog);
}

/// Reading input: `lda` from address 0xFF waits for a line; once the line
/// is given, it is echoed to the output and its first byte replaces the
/// address on top of the stack.
pub proof fn law_read_input(m: MachineView, prog: Seq<u8>, line: Seq<u8>)
    requires
        m.wf(),
        m.ip < prog.len(),
        prog[m.ip as int] == 0x11,
        entry(m, 0) == 0xFF,
        line.len() > 0,
    ensures
        ({
            let (m1, e) = spec_execute(m, prog);
            let m2 = spec_provide_input(m1, line);
            &&& e == Event::AwaitingInput
            &&& m2.ip == m.ip
            &&& m2.sp == m.sp
            &&& entry(m2, 0) == line[0]
            &&& m2.stdout == m.stdout + line
        }),
{
    law_loads(m, prog);
    let (m1, e) = spec_execute(m, prog);
    let m2 = spec_provide_input(m1, line);
    assert(m1.sp == (m.sp + 1) % 256);
    assert(m2.sp == crate::stack::dec8(m1.sp));
    assert(m2.sp == m.sp);
    assert((m2.sp as int + 0) % 256 == m2.sp);
    assert(m2.memory[m2.sp as int] == line[0]);
}

} // verus!
