//! Hexadecimal immediates: a token's first character (its kind) is dropped
//! and the rest is read as a byte in base 16, the way `u8::from_str_radix`
//! with radix 16 reads it.
use vstd::prelude::*;

verus! {

/// The value of a hexadecimal digit character, if it is one.
pub open spec fn hex_digit(b: u8) -> Option<nat> {
    if 0x30 <= b && b <= 0x39 {
        Some((b - 0x30) as nat)
    } else if 0x61 <= b && b <= 0x66 {
        Some((b - 0x61 + 10) as nat)
    } else if 0x41 <= b && b <= 0x46 {
        Some((b - 0x41 + 10) as nat)
    } else {
        None
    }
}

/// Whether every character of `d` is a hexadecimal digit.
pub open spec fn all_hex(d: Seq<u8>) -> bool {
    forall|i: int| 0 <= i < d.len() ==> (#[trigger] hex_digit(d[i])) is Some
}

/// The number written by the hexadecimal digits `d` (most significant first).
pub open spec fn hex_value(d: Seq<u8>) -> nat
    decreases d.len(),
{
    if d.len() == 0 {
        0
    } else {
        hex_value(d.drop_last()) * 16 + hex_digit(d.last()).unwrap()
    }
}

/// A byte read from `s` in base 16: an optional leading `+`, then at least
/// one hexadecimal digit, with a value below 256; `None` otherwise.
pub open spec fn parse_hex(s: Seq<u8>) -> Option<u8> {
    let digits = if s.len() > 0 && s[0] == 0x2B { s.drop_first() } else { s };
    if digits.len() == 0 || !all_hex(digits) || hex_value(digits) > 255 {
        None
    } else {
        Some(hex_value(digits) as u8)
    }
}

/// The immediate written by a token: its first character is dropped and the
/// rest read by `parse_hex`. `None` for an empty token, for one whose first
/// character is not ASCII (it is more than one byte long in UTF-8, so the
/// rest cannot be cut off at byte 1), and where `parse_hex` fails.
pub open spec fn spec_get_immediate(token: Seq<u8>) -> Option<u8> {
    if token.len() == 0 || token[0] >= 0x80 {
        None
    } else {
        parse_hex(token.drop_first())
    }
}

/// The value of a hexadecimal digit character, if it is one.
fn hex_digit_exec(b: u8) -> (r: Option<u8>)
    ensures
        match hex_digit(b) {
            Some(v) => r == Some(v as u8),
            None => r is None,
        },
{
    if 0x30 <= b && b <= 0x39 {
        Some(b - 0x30)
    } else if 0x61 <= b && b <= 0x66 {
        Some(b - 0x61 + 10)
    } else if 0x41 <= b && b <= 0x46 {
        Some(b - 0x41 + 10)
    } else {
        None
    }
}

/// Reads the immediate of a token (see `spec_get_immediate`). A token that
/// holds no immediate gives `None`, which the assembler reports as
/// `AsmError::UnparsableImmediate`; the command line treats that as the
/// fatal "Unable to parse hex." error.
pub fn get_immediate(current_token: &[u8]) -> (r: Option<u8>)
    ensures
        r == spec_get_immediate(current_token@),
{
    if current_token.len() == 0 || current_token[0] >= 0x80 {
        return None;
    }
    let ghost hex_str = current_token@.drop_first();
    let mut start: usize = 1;
    if current_token.len() > 1 && current_token[1] == 0x2B {
        start = 2;
    }
    let ghost digits = current_token@.subrange(start as int, current_token@.len() as int);
    assert(digits =~= (if hex_str.len() > 0 && hex_str[0] == 0x2B { hex_str.drop_first() } else { hex_str }));
    if start == current_token.len() {
        return None;
    }
    // `value` is the number read so far, held at 256 once it is too large.
    let mut value: u16 = 0;
    let mut i: usize = start;
    while i < current_token.len()
        invariant
            1 <= start <= i <= current_token@.len(),
            digits == current_token@.subrange(start as int, current_token@.len() as int),
            hex_str == current_token@.drop_first(),
            current_token@[0] < 0x80,
            digits == (if hex_str.len() > 0 && hex_str[0] == 0x2B { hex_str.drop_first() } else { hex_str }),
            all_hex(digits.take(i - start)),
            value as nat == if hex_value(digits.take(i - start)) > 255 { 256 } else { hex_value(digits.take(i - start)) },
        decreases current_token@.len() - i,
    {
        let ghost prefix = digits.take(i - start);
        let ghost next = digits.take(i + 1 - start);
        assert(next.drop_last() =~= prefix);
        assert(next.last() == current_token@[i as int]);
        match hex_digit_exec(current_token[i]) {
            None => {
                assert(digits[i - start] == current_token@[i as int]);
                assert(hex_digit(digits[i - start]) is None);
                assert(!all_hex(digits));
                assert(parse_hex(hex_str) is None);
                return None;
            },
            Some(d) => {
                if value >= 256 {
                    value = 256;
                } else {
                    let v = value * 16 + d as u16;
                    value = if v > 255 { 256 } else { v };
                }
                assert forall|j: int| 0 <= j < next.len() implies (#[trigger] hex_digit(next[j])) is Some by {
                    if j < prefix.len() {
                        assert(next[j] == prefix[j]);
                    }
                }
            },
        }
        i += 1;
    }
    assert(digits.take(i - start) =~= digits);
    if value > 255 {
        None
    } else {
        Some(value as u8)
    }
}

} // verus!
