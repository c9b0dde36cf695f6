//! The CPU's stack primitives. The stack lives in the top of a byte memory
//! and grows downwards: the stack pointer is the address of the top entry.
use vstd::prelude::*;

verus! {

/// `x - 1` on a byte, wrapping from 0 to 255.
pub open spec fn dec8(x: u8) -> u8 {
    if x == 0 { 255u8 } else { (x - 1) as u8 }
}

/// `x + 1` on a byte, wrapping from 255 to 0.
pub open spec fn inc8(x: u8) -> u8 {
    if x == 255 { 0u8 } else { (x + 1) as u8 }
}

/// The memory and stack pointer after pushing `value`.
pub open spec fn spec_push(memory: Seq<u8>, sp: u8, value: u8) -> (Seq<u8>, u8) {
    (memory.update(dec8(sp) as int, value), dec8(sp))
}

/// The memory and stack pointer after popping, with the popped value.
pub open spec fn spec_pop(memory: Seq<u8>, sp: u8) -> (Seq<u8>, u8, u8) {
    (memory.update(sp as int, 0), inc8(sp), memory[sp as int])
}

/// Pushes `value`: the stack pointer moves down one (wrapping) and the
/// value is stored at its new address.
pub fn psh(memory: &mut Vec<u8>, stack_pointer: &mut u8, value: u8)
    requires
        dec8(*old(stack_pointer)) < old(memory).len(),
    ensures
        (final(memory)@, *final(stack_pointer)) == spec_push(old(memory)@, *old(stack_pointer), value),
{
    *stack_pointer = stack_pointer.wrapping_sub(1);
    memory.set(*stack_pointer as usize, value);
}

/// Pops the top entry: the value at the stack pointer is returned, its
/// cell is cleared to 0 and the stack pointer moves up one (wrapping).
pub fn pop(memory: &mut Vec<u8>, stack_pointer: &mut u8) -> (r: u8)
    requires
        *old(stack_pointer) < old(memory).len(),
    ensures
        (final(memory)@, *final(stack_pointer), r) == spec_pop(old(memory)@, *old(stack_pointer)),
{
    let temp: u8 = memory[*stack_pointer as usize];
    memory.set(*stack_pointer as usize, 0);
    *stack_pointer = stack_pointer.wrapping_add(1);
    temp
}

/// Stores `value` at the address `pointer`.
pub fn set(memory: &mut Vec<u8>, pointer: &mut u8, value: u8)
    requires
        *old(pointer) < old(memory).len(),
    ensures
        final(memory)@ == old(memory)@.update(*old(pointer) as int, value),
        *final(pointer) == *old(pointer),
{
    memory.set(*pointer as usize, value);
}

/// Reads the byte at the address `pointer`; nothing changes.
pub fn get(memory: &mut Vec<u8>, pointer: &mut u8) -> (r: u8)
    requires
        *old(pointer) < old(memory).len(),
    ensures
        r == old(memory)@[*old(pointer) as int],
        final(memory)@ == old(memory)@,
        *final(pointer) == *old(pointer),
{
    memory[*pointer as usize]
}

/// Pops two operands (`operand1` from the top, then `operand2`) and pushes
/// `closure(operand1, operand2)`.
pub fn binary_op<F: Fn(u8, u8) -> u8>(memory: &mut Vec<u8>, stack_pointer: &mut u8, closure: F)
    requires
        *old(stack_pointer) < old(memory).len(),
        inc8(*old(stack_pointer)) < old(memory).len(),
        forall|a: u8, b: u8| call_requires(closure, (a, b)),
    ensures
        ({
            let (m1, sp1, operand1) = spec_pop(old(memory)@, *old(stack_pointer));
            let (m2, sp2, operand2) = spec_pop(m1, sp1);
            let result = final(memory)@[dec8(sp2) as int];
            &&& call_ensures(closure, (operand1, operand2), result)
            &&& (final(memory)@, *final(stack_pointer)) == spec_push(m2, sp2, result)
        }),
{
    let operand1 = pop(memory, stack_pointer);
    let operand2 = pop(memory, stack_pointer);
    let result = closure(operand1, operand2);
    psh(memory, stack_pointer, result);
}

/// Pops one operand and pushes `closure(operand)`.
pub fn unary_op<F: Fn(u8) -> u8>(memory: &mut Vec<u8>, stack_pointer: &mut u8, closure: F)
    requires
        *old(stack_pointer) < old(memory).len(),
        forall|a: u8| call_requires(closure, (a,)),
    ensures
        ({
            let (m1, sp1, operand) = spec_pop(old(memory)@, *old(stack_pointer));
            let result = final(memory)@[dec8(sp1) as int];
            &&& call_ensures(closure, (operand,), result)
            &&& (final(memory)@, *final(stack_pointer)) == spec_push(m1, sp1, result)
        }),
{
    let operand = pop(memory, stack_pointer);
    let result = closure(operand);
    psh(memory, stack_pointer, result);
}

} // verus!
