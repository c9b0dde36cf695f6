//! The emulated CPU as a state machine. One call of `execute` runs the
//! instruction under the instruction pointer; the driver around it performs
//! what needs the outside world (reading a line of input, printing the
//! display, pausing) and then calls `advance`.
use vstd::prelude::*;
use crate::stack::{spec_push, spec_pop, psh, pop, get, binary_op, unary_op};

verus! {

/// The value the CPU uses for "true".
pub const TRUE_BYTE: u8 = 255;

/// Size of the RAM and of the display buffer, in bytes.
pub const MEMORY_SIZE: usize = 256;

/// A fatal error raised by the CPU: the error code, the instruction pointer
/// at which it was raised, and the offending value.
#[derive(Clone, Copy, Debug, PartialEq, Eq, Structural)]
pub struct Fatal {
    pub code: u8,
    pub instruction_pointer: u16,
    pub value: u8,
}

/// What executing one instruction led to.
#[derive(Clone, Copy, Debug, PartialEq, Eq, Structural)]
pub enum Event {
    /// The instruction ran; the instruction pointer is to be advanced.
    Executed,
    /// A halt instruction was reached.
    Halted,
    /// A load from I/O address 0xFF: the driver must supply a line of input.
    AwaitingInput,
    /// The CPU raised a fatal error.
    Died(Fatal),
    /// The program was read at an index outside of it.
    OutOfBounds(usize),
}

/// The abstract state of the CPU.
pub struct MachineView {
    pub memory: Seq<u8>,
    pub display: Seq<u8>,
    pub sp: u8,
    pub ip: u16,
    /// The UTF-8 bytes of the standard-output buffer.
    pub stdout: Seq<u8>,
    pub debug: bool,
    pub stepping: bool,
}

/// `x + y` on 16 bits, wrapping.
pub open spec fn wadd16(x: u16, y: u16) -> u16 {
    ((x as int + y as int) % 65536) as u16
}

/// `x - y` on 16 bits, wrapping.
pub open spec fn wsub16(x: u16, y: u16) -> u16 {
    ((x as int - y as int + 65536) % 65536) as u16
}

/// `x + y` on 8 bits, wrapping.
pub open spec fn wadd8(x: u8, y: u8) -> u8 {
    ((x as int + y as int) % 256) as u8
}

/// `x - y` on 8 bits, wrapping.
pub open spec fn wsub8(x: u8, y: u8) -> u8 {
    ((x as int - y as int + 256) % 256) as u8
}

/// The UTF-8 encoding of the character whose code is the byte `v`.
pub open spec fn utf8_of_byte(v: u8) -> Seq<u8> {
    if v < 128 {
        seq![v]
    } else {
        seq![(0xC0 + v / 64) as u8, (0x80 + v % 64) as u8]
    }
}

/// The instruction pointer checked against the program's length: one past
/// the end (as a 16-bit length, plus one) is error 6, further is error 7.
pub open spec fn spec_safe_ip(ip: u16, len: usize, new_ip: u16) -> Result<u16, Fatal> {
    if new_ip == wadd16(len as u16, 1) {
        Err(Fatal { code: 6, instruction_pointer: ip, value: 0 })
    } else if new_ip > len as u16 {
        Err(Fatal { code: 7, instruction_pointer: ip, value: (new_ip % 256) as u8 })
    } else {
        Ok(new_ip)
    }
}

/// The result of a two-operand ALU instruction `op` on the popped operands
/// (`a` was on top, `b` below it).
pub open spec fn alu_binary(op: u8, a: u8, b: u8) -> u8 {
    if op == 0x20 {
        wadd8(a, b)
    } else if op == 0x22 {
        wsub8(a, b)
    } else if op == 0x26 {
        if a < b { TRUE_BYTE } else { 0 }
    } else if op == 0x27 {
        if a > b { TRUE_BYTE } else { 0 }
    } else if op == 0x28 {
        if a == b { TRUE_BYTE } else { 0 }
    } else if op == 0x31 {
        a | b
    } else if op == 0x32 {
        a & b
    } else if op == 0x33 {
        a ^ b
    } else {
        0
    }
}

/// The result of a one-operand ALU instruction `op`.
pub open spec fn alu_unary(op: u8, a: u8) -> u8 {
    if op == 0x24 {
        wadd8(a, 1)
    } else if op == 0x25 {
        wsub8(a, 1)
    } else if op == 0x29 {
        if a != 0 { TRUE_BYTE } else { 0 }
    } else if op == 0x2A {
        wsub8(0, a)
    } else if op == 0x2B {
        if a < 128 { a } else { wsub8(0, a) }
    } else {
        (255 - a) as u8
    }
}

/// Whether `op` is a two-operand ALU instruction.
pub open spec fn is_binary_alu(op: u8) -> bool {
    op == 0x20 || op == 0x22 || op == 0x26 || op == 0x27 || op == 0x28 || op == 0x31 || op == 0x32
        || op == 0x33 || op == 0x34
}

/// Whether `op` is a one-operand ALU instruction.
pub open spec fn is_unary_alu(op: u8) -> bool {
    op == 0x24 || op == 0x25 || op == 0x29 || op == 0x2A || op == 0x2B || op == 0x30
}

impl MachineView {
    /// Memory and display have their fixed size.
    pub open spec fn wf(self) -> bool {
        self.memory.len() == MEMORY_SIZE && self.display.len() == MEMORY_SIZE
    }

    /// The state at power-on.
    pub open spec fn initial() -> MachineView {
        MachineView {
            memory: Seq::new(256, |i: int| 0u8),
            display: Seq::new(256, |i: int| 0u8),
            sp: 0,
            ip: 0,
            stdout: Seq::empty(),
            debug: false,
            stepping: false,
        }
    }

    pub open spec fn with_ip(self, ip: u16) -> MachineView {
        MachineView { ip: ip, ..self }
    }

    pub open spec fn with_sp(self, sp: u8) -> MachineView {
        MachineView { sp: sp, ..self }
    }

    pub open spec fn with_memory(self, memory: Seq<u8>) -> MachineView {
        MachineView { memory: memory, ..self }
    }

    pub open spec fn push(self, v: u8) -> MachineView {
        let (memory, sp) = spec_push(self.memory, self.sp, v);
        MachineView { memory: memory, sp: sp, ..self }
    }

    pub open spec fn pop(self) -> (MachineView, u8) {
        let (memory, sp, v) = spec_pop(self.memory, self.sp);
        (MachineView { memory: memory, sp: sp, ..self }, v)
    }

    /// The entry on top of the stack.
    pub open spec fn top(self) -> u8 {
        self.memory[self.sp as int]
    }
}

/// Whether `op` is one of the control instructions handled by `spec_exec_control`.
pub open spec fn is_control(op: u8) -> bool {
    op == 0x00 || op == 0x01 || op == 0x02 || op == 0x03 || op == 0x0F || op == 0x16 || op == 0x18
}

/// Whether `op` is one of the memory and I/O instructions handled by `spec_exec_memory`.
pub open spec fn is_memory(op: u8) -> bool {
    op == 0x11 || op == 0x12 || op == 0x17 || op == 0x19 || op == 0x1A
}

/// Whether `op` is one of the stack instructions handled by `spec_exec_shuffle`.
pub open spec fn is_shuffle(op: u8) -> bool {
    op == 0x13 || op == 0x14 || op == 0x15 || op == 0x1B || op == 0x1C || op == 0x1D
}

/// Control instructions: no-op, immediates, halt, debug, jump, stop.
pub open spec fn spec_exec_control(m: MachineView, prog: Seq<u8>, op: u8) -> (MachineView, Event) {
    let ip = m.ip;
    let len = prog.len() as usize;
    if op == 0x00 {
        (m, Event::Executed)
    } else if op == 0x01 {
        match spec_safe_ip(ip, len, wadd16(ip, 1)) {
            Err(f) => (m, Event::Died(f)),
            Ok(n) => if (n as int) < prog.len() {
                (m.with_ip(n).push(prog[n as int]), Event::Executed)
            } else {
                (m.with_ip(n), Event::OutOfBounds(n as usize))
            },
        }
    } else if op == 0x02 {
        (m, Event::Halted)
    } else if op == 0x03 {
        match spec_safe_ip(ip, len, wadd16(ip, 2)) {
            Err(f) => (m, Event::Died(f)),
            Ok(n) => if (n as int) < prog.len() {
                let m2 = m.with_ip(n).push(prog[n as int]);
                if n == 0 {
                    (m2, Event::OutOfBounds(usize::MAX))
                } else if ((n - 1) as int) < prog.len() {
                    (m2.push(prog[n - 1]), Event::Executed)
                } else {
                    (m2, Event::OutOfBounds((n - 1) as usize))
                }
            } else {
                (m.with_ip(n), Event::OutOfBounds(n as usize))
            },
        }
    } else if op == 0x0F {
        (MachineView { debug: true, stepping: true, ..m }, Event::Executed)
    } else if op == 0x16 {
        let (m1, lo) = m.pop();
        let (m2, hi) = m1.pop();
        let target = wsub16((lo as int + hi as int * 256) as u16, 1);
        match spec_safe_ip(ip, len, target) {
            Err(f) => (m2, Event::Died(f)),
            Ok(n) => (m2.with_ip(n), Event::Executed),
        }
    } else {
        (m, Event::Died(Fatal { code: 8, instruction_pointer: ip, value: 0 }))
    }
}

/// Memory, I/O, program and display accesses.
pub open spec fn spec_exec_memory(m: MachineView, prog: Seq<u8>, op: u8) -> (MachineView, Event) {
    if op == 0x11 {
        let (m1, address) = m.pop();
        if address == 0xFF {
            (m1, Event::AwaitingInput)
        } else {
            (m1.push(m1.memory[address as int]), Event::Executed)
        }
    } else if op == 0x12 {
        let (m1, address) = m.pop();
        let (m2, value) = m1.pop();
        if address == 0xFF {
            (MachineView { stdout: m2.stdout + utf8_of_byte(value), ..m2 }, Event::Executed)
        } else if address == 0xFE {
            (m2, Event::Executed)
        } else {
            (m2.with_memory(m2.memory.update(address as int, value)), Event::Executed)
        }
    } else if op == 0x17 {
        let (m1, lo) = m.pop();
        let (m2, hi) = m1.pop();
        let address = lo as int + hi as int * 256;
        if address < prog.len() {
            (m2.push(prog[address]), Event::Executed)
        } else {
            (m2, Event::OutOfBounds(address as usize))
        }
    } else if op == 0x19 {
        let (m1, address) = m.pop();
        (m1.push(m1.display[address as int]), Event::Executed)
    } else {
        let (m1, address) = m.pop();
        let (m2, value) = m1.pop();
        (MachineView { display: m2.display.update(address as int, value), ..m2 }, Event::Executed)
    }
}

/// Stack shuffling: push the stack pointer, set it, push the return
/// address, duplicate, drop, swap.
pub open spec fn spec_exec_shuffle(m: MachineView, op: u8) -> MachineView {
    if op == 0x13 {
        m.push(m.sp)
    } else if op == 0x14 {
        let (m1, v) = m.pop();
        m1.with_sp(v)
    } else if op == 0x15 {
        let r = wadd16(m.ip, 1);
        m.push((r / 256) as u8).push((r % 256) as u8)
    } else if op == 0x1B {
        let (m1, v) = m.pop();
        m1.push(v).push(v)
    } else if op == 0x1C {
        m.pop().0
    } else {
        let (m1, v1) = m.pop();
        let (m2, v2) = m1.pop();
        m2.push(v1).push(v2)
    }
}

/// Instructions 0x00 to 0x1F: control, I/O and stack shuffling; any
/// other opcode in that range is error 1.
pub open spec fn spec_exec_basic(m: MachineView, prog: Seq<u8>, op: u8) -> (MachineView, Event) {
    if is_control(op) {
        spec_exec_control(m, prog, op)
    } else if is_memory(op) {
        spec_exec_memory(m, prog, op)
    } else if is_shuffle(op) {
        (spec_exec_shuffle(m, op), Event::Executed)
    } else {
        (m, Event::Died(Fatal { code: 1, instruction_pointer: m.ip, value: op }))
    }
}

/// Whether `op` (below 0x40) is an arithmetic or logic instruction.
pub open spec fn is_alu(op: u8) -> bool {
    0x20 <= op <= 0x34 && op != 0x2C && op != 0x2D && op != 0x2E && op != 0x2F
}

/// Instructions 0x20 to 0x34: arithmetic and logic on the stack.
pub open spec fn spec_exec_alu(m: MachineView, op: u8) -> MachineView {
    if op == 0x21 || op == 0x23 {
        let (m1, operand1) = m.pop();
        let (m2, lo) = m1.pop();
        let (m3, hi) = m2.pop();
        let operand2 = lo as int + hi as int * 256;
        let r = if op == 0x21 {
            (operand2 + operand1) % 65536
        } else {
            (operand2 - operand1 + 65536) % 65536
        };
        m3.push((r / 256) as u8).push((r % 256) as u8)
    } else if is_binary_alu(op) {
        let (m1, a) = m.pop();
        let (m2, b) = m1.pop();
        m2.push(alu_binary(op, a, b))
    } else {
        let (m1, a) = m.pop();
        m1.push(alu_unary(op, a))
    }
}

/// The shift count of a shift instruction: its 3-bit operand, or, where
/// that is 0, a byte popped from the stack.
pub open spec fn shift_count(m: MachineView, low3: u8) -> (MachineView, u8) {
    if low3 == 0 { m.pop() } else { (m, low3) }
}

/// The conditional skip (`b` in 0xC0..0xC7): pops a boolean; on true the
/// instruction pointer moves on by the 3-bit operand, on false nothing
/// happens, and any other value is error 3.
pub open spec fn spec_exec_skip(m: MachineView, prog: Seq<u8>, b: u8) -> (MachineView, Event) {
    let (m1, c) = m.pop();
    if c == TRUE_BYTE {
        match spec_safe_ip(m.ip, prog.len() as usize, wadd16(m.ip, (b % 8) as u16)) {
            Err(f) => (m1, Event::Died(f)),
            Ok(n) => (m1.with_ip(n), Event::Executed),
        }
    } else if c != 0 {
        (m1, Event::Died(Fatal { code: 3, instruction_pointer: m.ip, value: c }))
    } else {
        (m1, Event::Executed)
    }
}

/// Shifts left (`b` in 0xD0..0xD7) or right (0xD8..0xDF) by the shift count.
pub open spec fn spec_exec_shift(m: MachineView, b: u8) -> MachineView {
    let (m1, count) = shift_count(m, (b % 8) as u8);
    let (m2, v) = m1.pop();
    let s = count % 8;
    m2.push(if (b / 8) % 2 == 0 { v << s } else { v >> s })
}

/// Shifts with carry (`b` in 0xE0..0xEF): pops a value and a carry byte and
/// pushes the bits shifted across from (carry + value), then the shifted value.
pub open spec fn spec_exec_shift_carry(m: MachineView, b: u8) -> MachineView {
    let left = (b / 8) % 2 == 0;
    let (m1, count) = shift_count(m, (b % 8) as u8);
    let (m2, v) = m1.pop();
    let (m3, carry) = m2.pop();
    let s = count % 8;
    let t = wsub8(8, count) % 8;
    let sum = wadd8(carry, v);
    let first = if left { sum >> t } else { sum << t };
    let second = if left { v << s } else { v >> s };
    m3.push(first).push(second)
}

/// Instructions with an operand in the opcode byte (`b` at least 0x40):
/// store and load relative to the stack pointer, skip, shifts and small
/// immediates.
pub open spec fn spec_exec_operand(m: MachineView, prog: Seq<u8>, b: u8) -> (MachineView, Event) {
    let low6 = (b % 64) as u8;
    if b / 64 == 1 {
        let (m1, v) = m.pop();
        (m1.with_memory(m1.memory.update(wadd8(m1.sp, low6) as int, v)), Event::Executed)
    } else if b / 64 == 2 {
        (m.push(m.memory[wadd8(m.sp, low6) as int]), Event::Executed)
    } else {
        let mid2 = (b / 16) % 4;
        if mid2 == 0 {
            if (b / 8) % 2 == 0 {
                spec_exec_skip(m, prog, b)
            } else {
                (m, Event::Died(Fatal { code: 1, instruction_pointer: m.ip, value: b }))
            }
        } else if mid2 == 1 {
            (spec_exec_shift(m, b), Event::Executed)
        } else if mid2 == 2 {
            (spec_exec_shift_carry(m, b), Event::Executed)
        } else {
            (m.push(b % 16), Event::Executed)
        }
    }
}

/// Executing the instruction under the instruction pointer.
#[verifier::opaque]
pub open spec fn spec_execute(m: MachineView, prog: Seq<u8>) -> (MachineView, Event) {
    let b = prog[m.ip as int];
    if b < 64 {
        if is_alu(b) {
            (spec_exec_alu(m, b), Event::Executed)
        } else {
            spec_exec_basic(m, prog, b)
        }
    } else {
        spec_exec_operand(m, prog, b)
    }
}

/// Completing a load from I/O address 0xFF with the line of input `line`: the line
/// is appended to the output buffer and its first byte is pushed.
pub open spec fn spec_provide_input(m: MachineView, line: Seq<u8>) -> MachineView {
    MachineView { stdout: m.stdout + line, ..m }.push(line[0])
}

/// Moving the instruction pointer on to the next byte.
pub open spec fn spec_advance(m: MachineView, prog: Seq<u8>) -> Result<MachineView, Fatal> {
    match spec_safe_ip(m.ip, prog.len() as usize, wadd16(m.ip, 1)) {
        Ok(n) => Ok(m.with_ip(n)),
        Err(f) => Err(f),
    }
}

/// The checks once the run is over: the run must have stopped on a halt
/// instruction (error 6, also where it ran off the end of the program) with
/// exactly one byte on the stack (error 5); that byte is the exit code.
pub open spec fn spec_finish(m: MachineView, prog: Seq<u8>) -> Result<u8, Event> {
    if m.ip as int >= prog.len() || prog[m.ip as int] != 0x02 {
        Err(Event::Died(Fatal { code: 6, instruction_pointer: m.ip, value: 0 }))
    } else if m.sp != 255 {
        Err(Event::Died(Fatal { code: 5, instruction_pointer: m.ip, value: m.sp }))
    } else {
        Ok(m.memory[255])
    }
}

/// Checks a new instruction pointer against the program's length (see
/// `spec_safe_ip`).
pub fn safe_instruction_pointer(instruction_pointer: u16, program_memory_length: usize, new_ip: u16) -> (r: Result<u16, Fatal>)
    ensures
        r == spec_safe_ip(instruction_pointer, program_memory_length, new_ip),
{
    let len16 = program_memory_length as u16;
    if new_ip == len16.wrapping_add(1) {
        Err(Fatal { code: 6, instruction_pointer: instruction_pointer, value: 0 })
    } else if new_ip > len16 {
        Err(Fatal { code: 7, instruction_pointer: instruction_pointer, value: (new_ip % 256) as u8 })
    } else {
        Ok(new_ip)
    }
}

/// The emulated CPU: RAM, display buffer, stack and instruction pointers,
/// standard-output buffer and the debug and single-step switches.
pub struct Machine {
    memory: Vec<u8>,
    display: Vec<u8>,
    stack_pointer: u8,
    instruction_pointer: u16,
    stdout: Vec<u8>,
    debug: bool,
    stepping: bool,
}

impl View for Machine {
    type V = MachineView;

    closed spec fn view(&self) -> MachineView {
        MachineView {
            memory: self.memory@,
            display: self.display@,
            sp: self.stack_pointer,
            ip: self.instruction_pointer,
            stdout: self.stdout@,
            debug: self.debug,
            stepping: self.stepping,
        }
    }
}

impl Machine {
    /// A CPU at power-on: all memory and display cleared, both pointers 0.
    pub fn new() -> (m: Machine)
        ensures
            m@ == MachineView::initial(),
            m@.wf(),
    {
        let m = Machine {
            memory: vec![0u8; MEMORY_SIZE],
            display: vec![0u8; MEMORY_SIZE],
            stack_pointer: 0,
            instruction_pointer: 0,
            stdout: Vec::new(),
            debug: false,
            stepping: false,
        };
        assert(m@.memory =~= MachineView::initial().memory);
        assert(m@.display =~= MachineView::initial().display);
        m
    }

    /// The RAM.
    pub fn memory(&self) -> (r: &Vec<u8>)
        ensures
            r@ == self@.memory,
    {
        &self.memory
    }

    /// The display buffer.
    pub fn display(&self) -> (r: &Vec<u8>)
        ensures
            r@ == self@.display,
    {
        &self.display
    }

    /// The UTF-8 bytes of the standard-output buffer.
    pub fn stdout(&self) -> (r: &Vec<u8>)
        ensures
            r@ == self@.stdout,
    {
        &self.stdout
    }

    pub fn stack_pointer(&self) -> (r: u8)
        ensures
            r == self@.sp,
    {
        self.stack_pointer
    }

    pub fn instruction_pointer(&self) -> (r: u16)
        ensures
            r == self@.ip,
    {
        self.instruction_pointer
    }

    /// Whether debug output is switched on.
    pub fn debug(&self) -> (r: bool)
        ensures
            r == self@.debug,
    {
        self.debug
    }

    /// Whether single-stepping is switched on.
    pub fn stepping(&self) -> (r: bool)
        ensures
            r == self@.stepping,
    {
        self.stepping
    }

    /// Whether the instruction pointer is still inside the program.
    pub fn running(&self, program: &[u8]) -> (r: bool)
        ensures
            r == (self@.ip < program@.len()),
    {
        (self.instruction_pointer as usize) < program.len()
    }
}

impl Machine {
    /// Pushes `v` on the stack.
    fn push(&mut self, v: u8)
        requires
            old(self)@.wf(),
        ensures
            final(self)@ == old(self)@.push(v),
            final(self)@.wf(),
    {
        psh(&mut self.memory, &mut self.stack_pointer, v);
    }

    /// Pops the top of the stack.
    fn pop(&mut self) -> (r: u8)
        requires
            old(self)@.wf(),
        ensures
            (final(self)@, r) == old(self)@.pop(),
            final(self)@.wf(),
    {
        pop(&mut self.memory, &mut self.stack_pointer)
    }

    /// Reads the program at `index`, or reports the index out of bounds.
    fn fetch(program: &[u8], index: usize) -> (r: Result<u8, Event>)
        ensures
            index < program@.len() ==> r == Ok::<u8, Event>(program@[index as int]),
            index >= program@.len() ==> r == Err::<u8, Event>(Event::OutOfBounds(index)),
    {
        if index < program.len() {
            Ok(program[index])
        } else {
            Err(Event::OutOfBounds(index))
        }
    }

    #[verifier::spinoff_prover]
    #[verifier::rlimit(40)]
    fn exec_control(&mut self, program: &[u8], op: u8) -> (e: Event)
        requires
            old(self)@.wf(),
            is_control(op),
        ensures
            (final(self)@, e) == spec_exec_control(old(self)@, program@, op),
            final(self)@.wf(),
    {
        let ip = self.instruction_pointer;
        let len = program.len();
        if op == 0x00 {
            Event::Executed
        } else if op == 0x01 {
            match safe_instruction_pointer(ip, len, ip.wrapping_add(1)) {
                Err(f) => Event::Died(f),
                Ok(n) => {
                    self.instruction_pointer = n;
                    match Self::fetch(program, n as usize) {
                        Ok(v) => {
                            self.push(v);
                            Event::Executed
                        },
                        Err(e) => e,
                    }
                },
            }
        } else if op == 0x02 {
            Event::Halted
        } else if op == 0x03 {
            match safe_instruction_pointer(ip, len, ip.wrapping_add(2)) {
                Err(f) => Event::Died(f),
                Ok(n) => {
                    self.instruction_pointer = n;
                    match Self::fetch(program, n as usize) {
                        Ok(v) => {
                            self.push(v);
                            let below = if n == 0 { usize::MAX } else { n as usize - 1 };
                            match Self::fetch(program, below) {
                                Ok(w) => {
                                    self.push(w);
                                    Event::Executed
                                },
                                Err(e) => e,
                            }
                        },
                        Err(e) => e,
                    }
                },
            }
        } else if op == 0x0F {
            self.debug = true;
            self.stepping = true;
            Event::Executed
        } else if op == 0x16 {
            let lo = self.pop();
            let hi = self.pop();
            let target = (lo as u16 + hi as u16 * 256).wrapping_sub(1);
            match safe_instruction_pointer(ip, len, target) {
                Err(f) => Event::Died(f),
                Ok(n) => {
                    self.instruction_pointer = n;
                    Event::Executed
                },
            }
        } else {
            Event::Died(Fatal { code: 8, instruction_pointer: ip, value: 0 })
        }
    }

    #[verifier::spinoff_prover]
    #[verifier::rlimit(40)]
    fn exec_memory(&mut self, program: &[u8], op: u8) -> (e: Event)
        requires
            old(self)@.wf(),
            is_memory(op),
        ensures
            (final(self)@, e) == spec_exec_memory(old(self)@, program@, op),
            final(self)@.wf(),
    {
        if op == 0x11 {
            let mut address = self.pop();
            let value = get(&mut self.memory, &mut address);
            if address == 0xFF {
                Event::AwaitingInput
            } else {
                self.push(value);
                Event::Executed
            }
        } else if op == 0x12 {
            let mut address = self.pop();
            let value = self.pop();
            if address == 0xFF {
                self.push_stdout_byte(value);
            } else if address == 0xFE {
            } else {
                crate::stack::set(&mut self.memory, &mut address, value);
            }
            Event::Executed
        } else if op == 0x17 {
            let lo = self.pop();
            let hi = self.pop();
            let address = lo as u16 + hi as u16 * 256;
            match Self::fetch(program, address as usize) {
                Ok(v) => {
                    self.push(v);
                    Event::Executed
                },
                Err(e) => e,
            }
        } else if op == 0x19 {
            let address = self.pop();
            let value = self.display[address as usize];
            self.push(value);
            Event::Executed
        } else {
            let address = self.pop();
            let value = self.pop();
            self.display.set(address as usize, value);
            Event::Executed
        }
    }

    #[verifier::spinoff_prover]
    #[verifier::rlimit(40)]
    fn exec_shuffle(&mut self, op: u8)
        requires
            old(self)@.wf(),
            is_shuffle(op),
        ensures
            final(self)@ == spec_exec_shuffle(old(self)@, op),
            final(self)@.wf(),
    {
        if op == 0x13 {
            let value = self.stack_pointer;
            self.push(value);
        } else if op == 0x14 {
            let v = self.pop();
            self.stack_pointer = v;
        } else if op == 0x15 {
            let r = self.instruction_pointer.wrapping_add(1);
            self.push((r / 256) as u8);
            self.push((r % 256) as u8);
        } else if op == 0x1B {
            let value = self.pop();
            self.push(value);
            self.push(value);
        } else if op == 0x1C {
            self.pop();
        } else {
            let value1 = self.pop();
            let value2 = self.pop();
            self.push(value1);
            self.push(value2);
        }
    }

    fn exec_basic(&mut self, program: &[u8], op: u8) -> (e: Event)
        requires
            old(self)@.wf(),
        ensures
            (final(self)@, e) == spec_exec_basic(old(self)@, program@, op),
            final(self)@.wf(),
    {
        if op == 0x00 || op == 0x01 || op == 0x02 || op == 0x03 || op == 0x0F || op == 0x16 || op == 0x18 {
            self.exec_control(program, op)
        } else if op == 0x11 || op == 0x12 || op == 0x17 || op == 0x19 || op == 0x1A {
            self.exec_memory(program, op)
        } else if op == 0x13 || op == 0x14 || op == 0x15 || op == 0x1B || op == 0x1C || op == 0x1D {
            self.exec_shuffle(op);
            Event::Executed
        } else {
            Event::Died(Fatal { code: 1, instruction_pointer: self.instruction_pointer, value: op })
        }
    }

    /// Appends the character whose code is `value` to the output buffer.
    fn push_stdout_byte(&mut self, value: u8)
        ensures
            final(self)@ == (MachineView { stdout: old(self)@.stdout + utf8_of_byte(value), ..old(self)@ }),
    {
        if value < 128 {
            self.stdout.push(value);
        } else {
            self.stdout.push(0xC0 + value / 64);
            self.stdout.push(0x80 + value % 64);
        }
        assert(self@.stdout =~= old(self)@.stdout + utf8_of_byte(value));
    }
}

impl Machine {
    /// Runs a two-operand ALU instruction through `binary_op`.
    fn exec_binary<F: Fn(u8, u8) -> u8>(&mut self, closure: F, Ghost(op): Ghost<u8>)
        requires
            old(self)@.wf(),
            forall|a: u8, b: u8| call_requires(closure, (a, b)),
            forall|a: u8, b: u8, r: u8| call_ensures(closure, (a, b), r) ==> r == alu_binary(op, a, b),
        ensures
            final(self)@ == ({
                let (m1, a) = old(self)@.pop();
                let (m2, b) = m1.pop();
                m2.push(alu_binary(op, a, b))
            }),
            final(self)@.wf(),
    {
        binary_op(&mut self.memory, &mut self.stack_pointer, closure);
    }

    /// Runs a one-operand ALU instruction through `unary_op`.
    fn exec_unary<F: Fn(u8) -> u8>(&mut self, closure: F, Ghost(op): Ghost<u8>)
        requires
            old(self)@.wf(),
            forall|a: u8| call_requires(closure, (a,)),
            forall|a: u8, r: u8| call_ensures(closure, (a,), r) ==> r == alu_unary(op, a),
        ensures
            final(self)@ == ({
                let (m1, a) = old(self)@.pop();
                m1.push(alu_unary(op, a))
            }),
            final(self)@.wf(),
    {
        unary_op(&mut self.memory, &mut self.stack_pointer, closure);
    }

    /// Add or subtract with carry: a byte from a 16-bit value below it.
    #[verifier::spinoff_prover]
    #[verifier::rlimit(40)]
    fn exec_carry(&mut self, op: u8)
        requires
            old(self)@.wf(),
            op == 0x21 || op == 0x23,
        ensures
            final(self)@ == spec_exec_alu(old(self)@, op),
            final(self)@.wf(),
    {
        let operand1 = self.pop() as u16;
        let lo = self.pop() as u16;
        let hi = self.pop() as u16;
        let operand2 = lo + hi * 256;
        let result = if op == 0x21 {
            operand2.wrapping_add(operand1)
        } else {
            operand2.wrapping_sub(operand1)
        };
        self.push((result / 256) as u8);
        self.push((result % 256) as u8);
    }

    fn exec_alu(&mut self, op: u8)
        requires
            old(self)@.wf(),
            is_alu(op),
        ensures
            final(self)@ == spec_exec_alu(old(self)@, op),
            final(self)@.wf(),
    {
        if op == 0x21 || op == 0x23 {
            self.exec_carry(op);
        } else if op == 0x20 {
            self.exec_binary(|a: u8, b: u8| -> (r: u8) ensures r == wadd8(a, b) { a.wrapping_add(b) }, Ghost(op));
        } else if op == 0x22 {
            self.exec_binary(|a: u8, b: u8| -> (r: u8) ensures r == wsub8(a, b) { a.wrapping_sub(b) }, Ghost(op));
        } else if op == 0x26 {
            self.exec_binary(|a: u8, b: u8| -> (r: u8) ensures r == (if a < b { TRUE_BYTE } else { 0 }) { if a < b { TRUE_BYTE } else { 0 } }, Ghost(op));
        } else if op == 0x27 {
            self.exec_binary(|a: u8, b: u8| -> (r: u8) ensures r == (if a > b { TRUE_BYTE } else { 0 }) { if a > b { TRUE_BYTE } else { 0 } }, Ghost(op));
        } else if op == 0x28 {
            self.exec_binary(|a: u8, b: u8| -> (r: u8) ensures r == (if a == b { TRUE_BYTE } else { 0 }) { if a == b { TRUE_BYTE } else { 0 } }, Ghost(op));
        } else if op == 0x31 {
            self.exec_binary(|a: u8, b: u8| -> (r: u8) ensures r == a | b { a | b }, Ghost(op));
        } else if op == 0x32 {
            self.exec_binary(|a: u8, b: u8| -> (r: u8) ensures r == a & b { a & b }, Ghost(op));
        } else if op == 0x33 {
            self.exec_binary(|a: u8, b: u8| -> (r: u8) ensures r == a ^ b { a ^ b }, Ghost(op));
        } else if op == 0x34 {
            self.exec_binary(|a: u8, b: u8| -> (r: u8) ensures r == 0 { 0 }, Ghost(op));
        } else if op == 0x24 {
            self.exec_unary(|a: u8| -> (r: u8) ensures r == wadd8(a, 1) { a.wrapping_add(1) }, Ghost(op));
        } else if op == 0x25 {
            self.exec_unary(|a: u8| -> (r: u8) ensures r == wsub8(a, 1) { a.wrapping_sub(1) }, Ghost(op));
        } else if op == 0x29 {
            self.exec_unary(|a: u8| -> (r: u8) ensures r == (if a != 0 { TRUE_BYTE } else { 0 }) { if a != 0 { TRUE_BYTE } else { 0 } }, Ghost(op));
        } else if op == 0x2A {
            self.exec_unary(|a: u8| -> (r: u8) ensures r == wsub8(0, a) { 0u8.wrapping_sub(a) }, Ghost(op));
        } else if op == 0x2B {
            self.exec_unary(|a: u8| -> (r: u8) ensures r == (if a < 128 { a } else { wsub8(0, a) }) { if a < 128 { a } else { 0u8.wrapping_sub(a) } }, Ghost(op));
        } else {
            self.exec_unary(|a: u8| -> (r: u8) ensures r == (255 - a) as u8 { 255 - a }, Ghost(op));
        }
    }
}

impl Machine {
    /// The shift count: the 3-bit operand, or a popped byte where it is 0.
    fn take_shift_count(&mut self, low3: u8) -> (r: u8)
        requires
            old(self)@.wf(),
        ensures
            (final(self)@, r) == shift_count(old(self)@, low3),
            final(self)@.wf(),
    {
        if low3 == 0 {
            self.pop()
        } else {
            low3
        }
    }

    fn exec_skip(&mut self, program: &[u8], b: u8) -> (e: Event)
        requires
            old(self)@.wf(),
        ensures
            (final(self)@, e) == spec_exec_skip(old(self)@, program@, b),
            final(self)@.wf(),
    {
        let ip = self.instruction_pointer;
        let condition = self.pop();
        if condition == TRUE_BYTE {
            match safe_instruction_pointer(ip, program.len(), ip.wrapping_add((b % 8) as u16)) {
                Err(f) => Event::Died(f),
                Ok(n) => {
                    self.instruction_pointer = n;
                    Event::Executed
                },
            }
        } else if condition != 0 {
            Event::Died(Fatal { code: 3, instruction_pointer: ip, value: condition })
        } else {
            Event::Executed
        }
    }

    fn exec_shift(&mut self, b: u8)
        requires
            old(self)@.wf(),
        ensures
            final(self)@ == spec_exec_shift(old(self)@, b),
            final(self)@.wf(),
    {
        let count = self.take_shift_count(b % 8);
        let value = self.pop();
        let s = count % 8;
        let shifted = if (b / 8) % 2 == 0 { value << s } else { value >> s };
        self.push(shifted);
    }

    fn exec_shift_carry(&mut self, b: u8)
        requires
            old(self)@.wf(),
        ensures
            final(self)@ == spec_exec_shift_carry(old(self)@, b),
            final(self)@.wf(),
    {
        let left = (b / 8) % 2 == 0;
        let count = self.take_shift_count(b % 8);
        let value = self.pop();
        let carry = self.pop();
        let s = count % 8;
        let t = 8u8.wrapping_sub(count) % 8;
        let sum = carry.wrapping_add(value);
        let first = if left { sum >> t } else { sum << t };
        let second = if left { value << s } else { value >> s };
        self.push(first);
        self.push(second);
    }

    fn exec_operand(&mut self, program: &[u8], b: u8) -> (e: Event)
        requires
            old(self)@.wf(),
            b >= 64,
        ensures
            (final(self)@, e) == spec_exec_operand(old(self)@, program@, b),
            final(self)@.wf(),
    {
        let low6 = b % 64;
        if b / 64 == 1 {
            let value = self.pop();
            let mut address = self.stack_pointer.wrapping_add(low6);
            crate::stack::set(&mut self.memory, &mut address, value);
            Event::Executed
        } else if b / 64 == 2 {
            let mut address = self.stack_pointer.wrapping_add(low6);
            let value = get(&mut self.memory, &mut address);
            self.push(value);
            Event::Executed
        } else {
            let mid2 = (b / 16) % 4;
            if mid2 == 0 {
                if (b / 8) % 2 == 0 {
                    self.exec_skip(program, b)
                } else {
                    Event::Died(Fatal { code: 1, instruction_pointer: self.instruction_pointer, value: b })
                }
            } else if mid2 == 1 {
                self.exec_shift(b);
                Event::Executed
            } else if mid2 == 2 {
                self.exec_shift_carry(b);
                Event::Executed
            } else {
                self.push(b % 16);
                Event::Executed
            }
        }
    }

    /// Executes the instruction under the instruction pointer. On
    /// `AwaitingInput` the driver supplies a line with `provide_input`;
    /// after any other event but `Halted`, `Died` or `OutOfBounds` it calls
    /// `advance`.
    pub fn execute(&mut self, program: &[u8]) -> (e: Event)
        requires
            old(self)@.wf(),
            old(self)@.ip < program@.len(),
        ensures
            (final(self)@, e) == spec_execute(old(self)@, program@),
            final(self)@.wf(),
    {
        proof {
            reveal(spec_execute);
        }
        let in_byte = program[self.instruction_pointer as usize];
        if in_byte < 64 {
            if 0x20 <= in_byte && in_byte <= 0x34 && in_byte != 0x2C && in_byte != 0x2D && in_byte != 0x2E
                && in_byte != 0x2F {
                self.exec_alu(in_byte);
                Event::Executed
            } else {
                self.exec_basic(program, in_byte)
            }
        } else {
            self.exec_operand(program, in_byte)
        }
    }

    /// Completes a load from I/O address 0xFF with the line read: the line goes to
    /// the output buffer and its first byte onto the stack.
    pub fn provide_input(&mut self, line: &[u8])
        requires
            old(self)@.wf(),
            line@.len() > 0,
        ensures
            final(self)@ == spec_provide_input(old(self)@, line@),
            final(self)@.wf(),
    {
        let mut i: usize = 0;
        while i < line.len()
            invariant
                i <= line@.len(),
                self@ == (MachineView { stdout: old(self)@.stdout + line@.take(i as int), ..old(self)@ }),
            decreases line@.len() - i,
        {
            self.stdout.push(line[i]);
            i = i + 1;
            assert(self@.stdout =~= old(self)@.stdout + line@.take(i as int));
        }
        assert(line@.take(line@.len() as int) =~= line@);
        self.push(line[0]);
    }

    /// Moves the instruction pointer on by one, checked by
    /// `safe_instruction_pointer`.
    pub fn advance(&mut self, program: &[u8]) -> (r: Result<(), Fatal>)
        requires
            old(self)@.wf(),
        ensures
            final(self)@.wf(),
            match spec_advance(old(self)@, program@) {
                Ok(m) => r is Ok && final(self)@ == m,
                Err(f) => r == Err::<(), Fatal>(f) && final(self)@ == old(self)@,
            },
    {
        let ip = self.instruction_pointer;
        match safe_instruction_pointer(ip, program.len(), ip.wrapping_add(1)) {
            Ok(n) => {
                self.instruction_pointer = n;
                Ok(())
            },
            Err(f) => Err(f),
        }
    }

    /// The checks once the run is over, and the exit code.
    pub fn finish(&self, program: &[u8]) -> (r: Result<u8, Event>)
        requires
            self@.wf(),
        ensures
            r == spec_finish(self@, program@),
    {
        let ip = self.instruction_pointer;
        if ip as usize >= program.len() || program[ip as usize] != 0x02 {
            return Err(Event::Died(Fatal { code: 6, instruction_pointer: ip, value: 0 }));
        }
        if self.stack_pointer != 255 {
            return Err(Event::Died(Fatal { code: 5, instruction_pointer: ip, value: self.stack_pointer }));
        }
        Ok(self.memory[255])
    }
}

/// How a run of the CPU ended.
#[derive(Clone, Copy, Debug, PartialEq, Eq, Structural)]
pub enum RunEnd {
    /// The program halted with one byte on the stack: the exit code.
    Exit(u8),
    /// A fatal error (`Event::Died`) or a read outside the program
    /// (`Event::OutOfBounds`), during the run or at the final checks.
    Stopped(Event),
    /// A load from I/O address 0xFF needs a line of input; once it is
    /// given, the instruction pointer is still to be advanced.
    AwaitingInput,
    /// The step budget ran out first.
    OutOfSteps,
}

/// The final checks as a run's end.
pub open spec fn finish_end(r: Result<u8, Event>) -> RunEnd {
    match r {
        Ok(c) => RunEnd::Exit(c),
        Err(e) => RunEnd::Stopped(e),
    }
}

/// Running the CPU for at most `fuel` instructions: execute, advance, and
/// again, while the instruction pointer is inside the program; the final
/// checks once it halts or leaves the program.
pub open spec fn spec_run(m: MachineView, prog: Seq<u8>, fuel: nat) -> (MachineView, RunEnd)
    decreases fuel,
{
    if m.ip >= prog.len() {
        (m, finish_end(spec_finish(m, prog)))
    } else if fuel == 0 {
        (m, RunEnd::OutOfSteps)
    } else {
        let (m1, e) = spec_execute(m, prog);
        match e {
            Event::Executed => match spec_advance(m1, prog) {
                Err(f) => (m1, RunEnd::Stopped(Event::Died(f))),
                Ok(m2) => spec_run(m2, prog, (fuel - 1) as nat),
            },
            Event::Halted => (m1, finish_end(spec_finish(m1, prog))),
            Event::AwaitingInput => (m1, RunEnd::AwaitingInput),
            _ => (m1, RunEnd::Stopped(e)),
        }
    }
}

impl Machine {
    /// Runs the program for at most `max_steps` instructions, without the
    /// outside world: stops where input is needed (see `spec_run`).
    pub fn run(&mut self, program: &[u8], max_steps: u64) -> (r: RunEnd)
        requires
            old(self)@.wf(),
        ensures
            (final(self)@, r) == spec_run(old(self)@, program@, max_steps as nat),
            final(self)@.wf(),
    {
        let mut fuel = max_steps;
        loop
            invariant
                self@.wf(),
                spec_run(old(self)@, program@, max_steps as nat) == spec_run(self@, program@, fuel as nat),
            decreases fuel,
        {
            if !self.running(program) {
                return match self.finish(program) {
                    Ok(c) => RunEnd::Exit(c),
                    Err(e) => RunEnd::Stopped(e),
                };
            }
            if fuel == 0 {
                return RunEnd::OutOfSteps;
            }
            match self.execute(program) {
                Event::Executed => {
                    if let Err(f) = self.advance(program) {
                        return RunEnd::Stopped(Event::Died(f));
                    }
                },
                Event::Halted => {
                    return match self.finish(program) {
                        Ok(c) => RunEnd::Exit(c),
                        Err(e) => RunEnd::Stopped(e),
                    };
                },
                Event::AwaitingInput => {
                    return RunEnd::AwaitingInput;
                },
                e => {
                    return RunEnd::Stopped(e);
                },
            }
            fuel = fuel - 1;
        }
    }
}

/// The mnemonic the emulator reports for the opcode byte `b` ("unk" where
/// there is no such instruction).
pub open spec fn spec_mnemonic(b: u8) -> Seq<char> {
    if b < 64 {
        let op = b;
        if op == 0x00 {
            "nop"@
        } else if op == 0x01 {
            "xXX"@
        } else if op == 0x02 {
            "hlt"@
        } else if op == 0x03 {
            "xXX xXX"@
        } else if op == 0x0F {
            "dbg"@
        } else if op == 0x11 {
            "lda"@
        } else if op == 0x12 {
            "sta"@
        } else if op == 0x13 {
            "lds"@
        } else if op == 0x14 {
            "sts"@
        } else if op == 0x15 {
            "ldi"@
        } else if op == 0x16 {
            "sti"@
        } else if op == 0x17 {
            "ldp"@
        } else if op == 0x18 {
            "stp"@
        } else if op == 0x19 {
            "ldb"@
        } else if op == 0x1A {
            "stb"@
        } else if op == 0x1B {
            "dup"@
        } else if op == 0x1C {
            "drp"@
        } else if op == 0x1D {
            "swp"@
        } else if op == 0x20 {
            "add"@
        } else if op == 0x21 {
            "adc"@
        } else if op == 0x22 {
            "sub"@
        } else if op == 0x23 {
            "sbc"@
        } else if op == 0x24 {
            "inc"@
        } else if op == 0x25 {
            "dec"@
        } else if op == 0x26 {
            "ilt"@
        } else if op == 0x27 {
            "igt"@
        } else if op == 0x28 {
            "ieq"@
        } else if op == 0x29 {
            "nez"@
        } else if op == 0x2A {
            "neg"@
        } else if op == 0x2B {
            "abs"@
        } else if op == 0x30 {
            "not"@
        } else if op == 0x31 {
            "oor"@
        } else if op == 0x32 {
            "and"@
        } else if op == 0x33 {
            "xor"@
        } else if op == 0x34 {
            "xnd"@
        } else {
            "unk"@
        }
    } else if b / 64 == 1 {
        "sto"@
    } else if b / 64 == 2 {
        "ldo"@
    } else if (b / 16) % 4 == 0 {
        if (b / 8) % 2 == 0 { "skp"@ } else { "unk"@ }
    } else if (b / 16) % 4 == 1 {
        if (b / 8) % 2 == 0 { "shl"@ } else { "shr"@ }
    } else if (b / 16) % 4 == 2 {
        if (b / 8) % 2 == 0 { "slc"@ } else { "src"@ }
    } else {
        "x0X"@
    }
}

/// The mnemonic the emulator reports for the opcode byte `in_byte`.
pub fn mnemonic(in_byte: u8) -> (r: &'static str)
    ensures
        r@ == spec_mnemonic(in_byte),
{
    let b = in_byte;
    if b < 64 {
        let op = b;
        if op == 0x00 {
            "nop"
        } else if op == 0x01 {
            "xXX"
        } else if op == 0x02 {
            "hlt"
        } else if op == 0x03 {
            "xXX xXX"
        } else if op == 0x0F {
            "dbg"
        } else if op == 0x11 {
            "lda"
        } else if op == 0x12 {
            "sta"
        } else if op == 0x13 {
            "lds"
        } else if op == 0x14 {
            "sts"
        } else if op == 0x15 {
            "ldi"
        } else if op == 0x16 {
            "sti"
        } else if op == 0x17 {
            "ldp"
        } else if op == 0x18 {
            "stp"
        } else if op == 0x19 {
            "ldb"
        } else if op == 0x1A {
            "stb"
        } else if op == 0x1B {
            "dup"
        } else if op == 0x1C {
            "drp"
        } else if op == 0x1D {
            "swp"
        } else if op == 0x20 {
            "add"
        } else if op == 0x21 {
            "adc"
        } else if op == 0x22 {
            "sub"
        } else if op == 0x23 {
            "sbc"
        } else if op == 0x24 {
            "inc"
        } else if op == 0x25 {
            "dec"
        } else if op == 0x26 {
            "ilt"
        } else if op == 0x27 {
            "igt"
        } else if op == 0x28 {
            "ieq"
        } else if op == 0x29 {
            "nez"
        } else if op == 0x2A {
            "neg"
        } else if op == 0x2B {
            "abs"
        } else if op == 0x30 {
            "not"
        } else if op == 0x31 {
            "oor"
        } else if op == 0x32 {
            "and"
        } else if op == 0x33 {
            "xor"
        } else if op == 0x34 {
            "xnd"
        } else {
            "unk"
        }
    } else if b / 64 == 1 {
        "sto"
    } else if b / 64 == 2 {
        "ldo"
    } else if (b / 16) % 4 == 0 {
        if (b / 8) % 2 == 0 { "skp" } else { "unk" }
    } else if (b / 16) % 4 == 1 {
        if (b / 8) % 2 == 0 { "shl" } else { "shr" }
    } else if (b / 16) % 4 == 2 {
        if (b / 8) % 2 == 0 { "slc" } else { "src" }
    } else {
        "x0X"
    }
}

} // verus!
