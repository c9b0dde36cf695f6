//! The assembler: source text to machine code. Comments are cut out, the
//! rest is split into tokens, each token is assembled in turn (a few expand
//! into fixed token sequences that are assembled on their own), and finally
//! every label reference is patched with the label's value.
use vstd::prelude::*;
use crate::hex::{spec_get_immediate, get_immediate};
use crate::tables::{LabelTable, MentionTable};
use crate::text::{strip_comments, split_whitespace, strip_comments_exec, split_whitespace_exec, views};

verus! {

/// Why assembling failed. The token concerned is carried where there is one.
#[derive(Debug)]
pub enum AsmError {
    /// The instruction (carried) is the last token, without its operand.
    MissingOperand(Vec<u8>),
    /// The token (carried) does not hold a hexadecimal byte.
    UnparsableImmediate(Vec<u8>),
    /// The operand (carried) does not fit in the instruction.
    ImmediateOverflow(Vec<u8>),
    /// The token (carried) is no instruction.
    InvalidInstruction(Vec<u8>),
    /// The label (carried) is referenced but never defined.
    LabelNotFound(Vec<u8>),
}

/// The abstract form of `AsmError`.
pub enum AsmFault {
    MissingOperand(Seq<u8>),
    UnparsableImmediate(Seq<u8>),
    ImmediateOverflow(Seq<u8>),
    InvalidInstruction(Seq<u8>),
    LabelNotFound(Seq<u8>),
}

impl View for AsmError {
    type V = AsmFault;

    open spec fn view(&self) -> AsmFault {
        match self {
            AsmError::MissingOperand(t) => AsmFault::MissingOperand(t@),
            AsmError::UnparsableImmediate(t) => AsmFault::UnparsableImmediate(t@),
            AsmError::ImmediateOverflow(t) => AsmFault::ImmediateOverflow(t@),
            AsmError::InvalidInstruction(t) => AsmFault::InvalidInstruction(t@),
            AsmError::LabelNotFound(t) => AsmFault::LabelNotFound(t@),
        }
    }
}

/// The first character of a label reference.
pub const DOLLAR: u8 = 0x24;

/// The first character of an immediate to be pushed: `x`.
pub const LETTER_X: u8 = 0x78;

/// The first character of a raw byte: `p`.
pub const LETTER_P: u8 = 0x70;

/// What a three-letter token stands for.
#[derive(Clone, Copy, Debug, PartialEq, Eq, Structural)]
pub enum Word {
    /// An instruction of one opcode byte.
    Simple(u8),
    /// Jump to subroutine: takes a label operand.
    Jms,
    /// Return from subroutine.
    Rts,
    /// An instruction whose operand (below 0x20) is or-ed into the opcode.
    Operand(u8),
    /// Label definition: takes the label's name.
    Lbl,
    /// Anything else.
    Other,
}

pub open spec fn classify3(a: u8, b: u8, c: u8) -> Word {
    if a == 0x6Eu8 && b == 0x6Fu8 && c == 0x70u8 {
        // nop
        Word::Simple(0x00)
    } else if a == 0x68u8 && b == 0x6Cu8 && c == 0x74u8 {
        // hlt
        Word::Simple(0x02)
    } else if a == 0x64u8 && b == 0x62u8 && c == 0x67u8 {
        // dbg
        Word::Simple(0x0F)
    } else if a == 0x6Cu8 && b == 0x64u8 && c == 0x61u8 {
        // lda
        Word::Simple(0x11)
    } else if a == 0x73u8 && b == 0x74u8 && c == 0x61u8 {
        // sta
        Word::Simple(0x12)
    } else if a == 0x6Cu8 && b == 0x64u8 && c == 0x73u8 {
        // lds
        Word::Simple(0x13)
    } else if a == 0x73u8 && b == 0x74u8 && c == 0x73u8 {
        // sts
        Word::Simple(0x14)
    } else if a == 0x6Cu8 && b == 0x64u8 && c == 0x69u8 {
        // ldi
        Word::Simple(0x15)
    } else if a == 0x73u8 && b == 0x74u8 && c == 0x69u8 {
        // sti
        Word::Simple(0x16)
    } else if a == 0x6Cu8 && b == 0x64u8 && c == 0x70u8 {
        // ldp
        Word::Simple(0x17)
    } else if a == 0x73u8 && b == 0x74u8 && c == 0x70u8 {
        // stp
        Word::Simple(0x18)
    } else if a == 0x6Cu8 && b == 0x64u8 && c == 0x62u8 {
        // ldb
        Word::Simple(0x19)
    } else if a == 0x73u8 && b == 0x74u8 && c == 0x62u8 {
        // stb
        Word::Simple(0x1A)
    } else if a == 0x64u8 && b == 0x75u8 && c == 0x70u8 {
        // dup
        Word::Simple(0x1B)
    } else if a == 0x64u8 && b == 0x72u8 && c == 0x70u8 {
        // drp
        Word::Simple(0x1C)
    } else if a == 0x73u8 && b == 0x77u8 && c == 0x70u8 {
        // swp
        Word::Simple(0x1D)
    } else if a == 0x61u8 && b == 0x64u8 && c == 0x64u8 {
        // add
        Word::Simple(0x20)
    } else if a == 0x61u8 && b == 0x64u8 && c == 0x63u8 {
        // adc
        Word::Simple(0x21)
    } else if a == 0x73u8 && b == 0x75u8 && c == 0x62u8 {
        // sub
        Word::Simple(0x22)
    } else if a == 0x73u8 && b == 0x62u8 && c == 0x63u8 {
        // sbc
        Word::Simple(0x23)
    } else if a == 0x69u8 && b == 0x6Eu8 && c == 0x63u8 {
        // inc
        Word::Simple(0x24)
    } else if a == 0x64u8 && b == 0x65u8 && c == 0x63u8 {
        // dec
        Word::Simple(0x25)
    } else if a == 0x69u8 && b == 0x6Cu8 && c == 0x74u8 {
        // ilt
        Word::Simple(0x26)
    } else if a == 0x6Cu8 && b == 0x67u8 && c == 0x74u8 {
        // lgt
        Word::Simple(0x27)
    } else if a == 0x69u8 && b == 0x65u8 && c == 0x71u8 {
        // ieq
        Word::Simple(0x28)
    } else if a == 0x6Eu8 && b == 0x65u8 && c == 0x7Au8 {
        // nez
        Word::Simple(0x29)
    } else if a == 0x6Eu8 && b == 0x65u8 && c == 0x67u8 {
        // neg
        Word::Simple(0x2A)
    } else if a == 0x61u8 && b == 0x62u8 && c == 0x73u8 {
        // abs
        Word::Simple(0x2B)
    } else if a == 0x6Eu8 && b == 0x6Fu8 && c == 0x74u8 {
        // not
        Word::Simple(0x30)
    } else if a == 0x6Fu8 && b == 0x6Fu8 && c == 0x72u8 {
        // oor
        Word::Simple(0x31)
    } else if a == 0x61u8 && b == 0x6Eu8 && c == 0x64u8 {
        // and
        Word::Simple(0x32)
    } else if a == 0x78u8 && b == 0x6Fu8 && c == 0x72u8 {
        // xor
        Word::Simple(0x33)
    } else if a == 0x78u8 && b == 0x6Eu8 && c == 0x64u8 {
        // xnd
        Word::Simple(0x34)
    } else if a == 0x73u8 && b == 0x74u8 && c == 0x6Fu8 {
        // sto
        Word::Operand(0x40)
    } else if a == 0x6Cu8 && b == 0x64u8 && c == 0x6Fu8 {
        // ldo
        Word::Operand(0x80)
    } else if a == 0x73u8 && b == 0x6Bu8 && c == 0x70u8 {
        // skp
        Word::Operand(0xC0)
    } else if a == 0x73u8 && b == 0x68u8 && c == 0x6Cu8 {
        // shl
        Word::Operand(0xD0)
    } else if a == 0x73u8 && b == 0x68u8 && c == 0x72u8 {
        // shr
        Word::Operand(0xD8)
    } else if a == 0x6Au8 && b == 0x6Du8 && c == 0x73u8 {
        // jms
        Word::Jms
    } else if a == 0x72u8 && b == 0x74u8 && c == 0x73u8 {
        // rts
        Word::Rts
    } else if a == 0x6Cu8 && b == 0x62u8 && c == 0x6Cu8 {
        // lbl
        Word::Lbl
    } else {
        Word::Other
    }
}

fn classify3_exec(a: u8, b: u8, c: u8) -> (r: Word)
    ensures
        r == classify3(a, b, c),
{
    if a == 0x6Eu8 && b == 0x6Fu8 && c == 0x70u8 {
        // nop
        Word::Simple(0x00)
    } else if a == 0x68u8 && b == 0x6Cu8 && c == 0x74u8 {
        // hlt
        Word::Simple(0x02)
    } else if a == 0x64u8 && b == 0x62u8 && c == 0x67u8 {
        // dbg
        Word::Simple(0x0F)
    } else if a == 0x6Cu8 && b == 0x64u8 && c == 0x61u8 {
        // lda
        Word::Simple(0x11)
    } else if a == 0x73u8 && b == 0x74u8 && c == 0x61u8 {
        // sta
        Word::Simple(0x12)
    } else if a == 0x6Cu8 && b == 0x64u8 && c == 0x73u8 {
        // lds
        Word::Simple(0x13)
    } else if a == 0x73u8 && b == 0x74u8 && c == 0x73u8 {
        // sts
        Word::Simple(0x14)
    } else if a == 0x6Cu8 && b == 0x64u8 && c == 0x69u8 {
        // ldi
        Word::Simple(0x15)
    } else if a == 0x73u8 && b == 0x74u8 && c == 0x69u8 {
        // sti
        Word::Simple(0x16)
    } else if a == 0x6Cu8 && b == 0x64u8 && c == 0x70u8 {
        // ldp
        Word::Simple(0x17)
    } else if a == 0x73u8 && b == 0x74u8 && c == 0x70u8 {
        // stp
        Word::Simple(0x18)
    } else if a == 0x6Cu8 && b == 0x64u8 && c == 0x62u8 {
        // ldb
        Word::Simple(0x19)
    } else if a == 0x73u8 && b == 0x74u8 && c == 0x62u8 {
        // stb
        Word::Simple(0x1A)
    } else if a == 0x64u8 && b == 0x75u8 && c == 0x70u8 {
        // dup
        Word::Simple(0x1B)
    } else if a == 0x64u8 && b == 0x72u8 && c == 0x70u8 {
        // drp
        Word::Simple(0x1C)
    } else if a == 0x73u8 && b == 0x77u8 && c == 0x70u8 {
        // swp
        Word::Simple(0x1D)
    } else if a == 0x61u8 && b == 0x64u8 && c == 0x64u8 {
        // add
        Word::Simple(0x20)
    } else if a == 0x61u8 && b == 0x64u8 && c == 0x63u8 {
        // adc
        Word::Simple(0x21)
    } else if a == 0x73u8 && b == 0x75u8 && c == 0x62u8 {
        // sub
        Word::Simple(0x22)
    } else if a == 0x73u8 && b == 0x62u8 && c == 0x63u8 {
        // sbc
        Word::Simple(0x23)
    } else if a == 0x69u8 && b == 0x6Eu8 && c == 0x63u8 {
        // inc
        Word::Simple(0x24)
    } else if a == 0x64u8 && b == 0x65u8 && c == 0x63u8 {
        // dec
        Word::Simple(0x25)
    } else if a == 0x69u8 && b == 0x6Cu8 && c == 0x74u8 {
        // ilt
        Word::Simple(0x26)
    } else if a == 0x6Cu8 && b == 0x67u8 && c == 0x74u8 {
        // lgt
        Word::Simple(0x27)
    } else if a == 0x69u8 && b == 0x65u8 && c == 0x71u8 {
        // ieq
        Word::Simple(0x28)
    } else if a == 0x6Eu8 && b == 0x65u8 && c == 0x7Au8 {
        // nez
        Word::Simple(0x29)
    } else if a == 0x6Eu8 && b == 0x65u8 && c == 0x67u8 {
        // neg
        Word::Simple(0x2A)
    } else if a == 0x61u8 && b == 0x62u8 && c == 0x73u8 {
        // abs
        Word::Simple(0x2B)
    } else if a == 0x6Eu8 && b == 0x6Fu8 && c == 0x74u8 {
        // not
        Word::Simple(0x30)
    } else if a == 0x6Fu8 && b == 0x6Fu8 && c == 0x72u8 {
        // oor
        Word::Simple(0x31)
    } else if a == 0x61u8 && b == 0x6Eu8 && c == 0x64u8 {
        // and
        Word::Simple(0x32)
    } else if a == 0x78u8 && b == 0x6Fu8 && c == 0x72u8 {
        // xor
        Word::Simple(0x33)
    } else if a == 0x78u8 && b == 0x6Eu8 && c == 0x64u8 {
        // xnd
        Word::Simple(0x34)
    } else if a == 0x73u8 && b == 0x74u8 && c == 0x6Fu8 {
        // sto
        Word::Operand(0x40)
    } else if a == 0x6Cu8 && b == 0x64u8 && c == 0x6Fu8 {
        // ldo
        Word::Operand(0x80)
    } else if a == 0x73u8 && b == 0x6Bu8 && c == 0x70u8 {
        // skp
        Word::Operand(0xC0)
    } else if a == 0x73u8 && b == 0x68u8 && c == 0x6Cu8 {
        // shl
        Word::Operand(0xD0)
    } else if a == 0x73u8 && b == 0x68u8 && c == 0x72u8 {
        // shr
        Word::Operand(0xD8)
    } else if a == 0x6Au8 && b == 0x6Du8 && c == 0x73u8 {
        // jms
        Word::Jms
    } else if a == 0x72u8 && b == 0x74u8 && c == 0x73u8 {
        // rts
        Word::Rts
    } else if a == 0x6Cu8 && b == 0x62u8 && c == 0x6Cu8 {
        // lbl
        Word::Lbl
    } else {
        Word::Other
    }
}

/// What a token stands for.
pub open spec fn classify(t: Seq<u8>) -> Word {
    if t.len() == 3 { classify3(t[0], t[1], t[2]) } else { Word::Other }
}

/// What a token stands for.
pub fn classify_exec(t: &[u8]) -> (r: Word)
    ensures
        r == classify(t@),
{
    if t.len() == 3 { classify3_exec(t[0], t[1], t[2]) } else { Word::Other }
}

pub open spec fn word3(a: u8, b: u8, c: u8) -> Seq<u8> {
    seq![a, b, c]
}

/// The tokens that `jms t` stands for.
pub open spec fn jms_expansion(t: Seq<u8>) -> Seq<Seq<u8>> {
    seq![word3(0x6C, 0x64, 0x69) /* ldi */, word3(0x78, 0x30, 0x35) /* x05 */, word3(0x61, 0x64, 0x64) /* add */, t, word3(0x73, 0x74, 0x69) /* sti */]
}

/// The tokens that `rts` stands for.
pub open spec fn rts_expansion() -> Seq<Seq<u8>> {
    seq![word3(0x73, 0x74, 0x69) /* sti */]
}

/// 1 for the tokens that expand into others, 0 for the rest.
pub open spec fn weight(t: Seq<u8>) -> nat {
    match classify(t) {
        Word::Jms => 1,
        Word::Rts => 1,
        _ => 0,
    }
}

/// The number of expanding tokens from index `i` on.
pub open spec fn calls_from(ts: Seq<Seq<u8>>, i: int) -> nat
    decreases ts.len() - i,
{
    if i >= ts.len() { 0 } else { weight(ts[i]) + calls_from(ts, i + 1) }
}

pub proof fn lemma_expansion_calls(t: Seq<u8>)
    ensures
        calls_from(jms_expansion(t), 0) == weight(t),
        calls_from(rts_expansion(), 0) == 0,
{
    reveal_with_fuel(calls_from, 6);
}

/// The assembler's state: the code assembled so far by the current call,
/// the labels defined and the label references recorded.
pub struct AsmState {
    pub out: Seq<u8>,
    pub labels: Map<Seq<u8>, u8>,
    pub mentions: Map<u8, Seq<u8>>,
}

impl AsmState {
    pub open spec fn emit(self, bytes: Seq<u8>) -> AsmState {
        AsmState { out: self.out + bytes, ..self }
    }

    /// The state an expansion is assembled in: same tables, no code yet.
    pub open spec fn fresh(self) -> AsmState {
        AsmState { out: Seq::empty(), ..self }
    }
}

/// Assembling the tokens `ts` from index `i` on, in state `st`; `offset` is
/// the position this call's code is taken to start at. A label defined here
/// gets the value `offset` + (code so far), as a byte; a reference records,
/// at that position (as a byte), the label named. An expansion is assembled
/// by a call of its own, whose offset is the length of the calling call's
/// code so far, and whose code is appended to it.
pub open spec fn asm_from(ts: Seq<Seq<u8>>, i: int, offset: nat, st: AsmState) -> Result<AsmState, AsmFault>
    decreases calls_from(ts, i), ts.len() - i,
{
    if i < 0 || i >= ts.len() {
        Ok(st)
    } else {
        let t = ts[i];
        let here = ((offset + st.out.len()) % 256) as u8;
        match classify(t) {
            Word::Simple(op) => asm_from(ts, i + 1, offset, st.emit(seq![op])),
            Word::Jms => if i + 1 >= ts.len() {
                Err(AsmFault::MissingOperand(t))
            } else {
                proof {
                    lemma_expansion_calls(ts[i + 1]);
                    assert(weight(t) == 1);
                    assert(calls_from(ts, i) == weight(t) + calls_from(ts, i + 1));
                    assert(calls_from(ts, i + 1) == weight(ts[i + 1]) + calls_from(ts, i + 2));
                }
                match asm_from(jms_expansion(ts[i + 1]), 0, st.out.len(), st.fresh()) {
                    Err(e) => Err(e),
                    Ok(r) => asm_from(ts, i + 2, offset, AsmState { out: st.out + r.out, ..r }),
                }
            },
            Word::Rts => {
                proof {
                    lemma_expansion_calls(t);
                    assert(weight(t) == 1);
                    assert(calls_from(ts, i) == weight(t) + calls_from(ts, i + 1));
                }
                match asm_from(rts_expansion(), 0, st.out.len(), st.fresh()) {
                    Err(e) => Err(e),
                    Ok(r) => asm_from(ts, i + 1, offset, AsmState { out: st.out + r.out, ..r }),
                }
            },
            Word::Operand(base) => if i + 1 >= ts.len() {
                Err(AsmFault::MissingOperand(t))
            } else {
                proof {
                    assert(calls_from(ts, i) == weight(t) + calls_from(ts, i + 1));
                    assert(calls_from(ts, i + 1) == weight(ts[i + 1]) + calls_from(ts, i + 2));
                }
                match spec_get_immediate(ts[i + 1]) {
                    None => Err(AsmFault::UnparsableImmediate(ts[i + 1])),
                    Some(v) => if v < 0x20 {
                        asm_from(ts, i + 2, offset, st.emit(seq![base | v]))
                    } else {
                        Err(AsmFault::ImmediateOverflow(ts[i + 1]))
                    },
                }
            },
            Word::Lbl => if i + 1 >= ts.len() {
                Err(AsmFault::MissingOperand(t))
            } else {
                proof {
                    assert(calls_from(ts, i) == weight(t) + calls_from(ts, i + 1));
                    assert(calls_from(ts, i + 1) == weight(ts[i + 1]) + calls_from(ts, i + 2));
                }
                asm_from(ts, i + 2, offset, AsmState { labels: st.labels.insert(ts[i + 1], here), ..st })
            },
            Word::Other => if t.len() > 0 && t[0] == DOLLAR {
                let key = ((offset + st.out.len() + 1) % 256) as u8;
                asm_from(ts, i + 1, offset, AsmState { mentions: st.mentions.insert(key, t), ..st.emit(seq![0x01u8, 0xCCu8]) })
            } else if t.len() > 0 && t[0] == LETTER_X {
                match spec_get_immediate(t) {
                    None => Err(AsmFault::UnparsableImmediate(t)),
                    Some(v) => if v < 0x10 {
                        asm_from(ts, i + 1, offset, st.emit(seq![0xF0u8 | v]))
                    } else {
                        asm_from(ts, i + 1, offset, st.emit(seq![0x01u8, v]))
                    },
                }
            } else if t.len() > 0 && t[0] == LETTER_P {
                match spec_get_immediate(t) {
                    None => Err(AsmFault::UnparsableImmediate(t)),
                    Some(v) => asm_from(ts, i + 1, offset, st.emit(seq![v])),
                }
            } else {
                Err(AsmFault::InvalidInstruction(t))
            },
        }
    }
}

/// The position `offset + len`, as a byte.
fn position_byte(offset: usize, len: usize) -> (r: u8)
    ensures
        r == ((offset + len) % 256) as u8,
{
    proof {
        vstd::arithmetic::div_mod::lemma_add_mod_noop(offset as int, len as int, 256);
    }
    ((offset % 256 + len % 256) % 256) as u8
}

/// A three-byte token.
fn word_vec(a: u8, b: u8, c: u8) -> (r: Vec<u8>)
    ensures
        r@ == word3(a, b, c),
{
    let mut r: Vec<u8> = Vec::new();
    r.push(a);
    r.push(b);
    r.push(c);
    assert(r@ =~= word3(a, b, c));
    r
}

/// The tokens that `jms operand` stands for.
fn jms_tokens(operand: &[u8]) -> (r: Vec<Vec<u8>>)
    ensures
        views(r@) == jms_expansion(operand@),
{
    let mut r: Vec<Vec<u8>> = Vec::new();
    r.push(word_vec(0x6C, 0x64, 0x69));
    r.push(word_vec(0x78, 0x30, 0x35));
    r.push(word_vec(0x61, 0x64, 0x64));
    r.push(crate::tables::copy_bytes(operand));
    r.push(word_vec(0x73, 0x74, 0x69));
    assert(views(r@) =~= jms_expansion(operand@));
    r
}

/// The tokens that `rts` stands for.
fn rts_tokens() -> (r: Vec<Vec<u8>>)
    ensures
        views(r@) == rts_expansion(),
{
    let mut r: Vec<Vec<u8>> = Vec::new();
    r.push(word_vec(0x73, 0x74, 0x69));
    assert(views(r@) =~= rts_expansion());
    r
}

/// Assembles the token at `index`, which is not one that expands into
/// others, appending its code to `out_bytes`; gives the index of the next
/// token (see `asm_from`).
fn assemble_token(
    tokens: &Vec<Vec<u8>>,
    index: usize,
    offset: usize,
    out_bytes: &mut Vec<u8>,
    label_to_value: &mut LabelTable,
    mention_to_label: &mut MentionTable,
) -> (r: Result<usize, AsmError>)
    requires
        old(label_to_value).wf(),
        index < tokens@.len(),
        classify(tokens@[index as int]@) != Word::Jms,
        classify(tokens@[index as int]@) != Word::Rts,
    ensures
        final(label_to_value).wf(),
        ({
            let ts = views(tokens@);
            let before = AsmState { out: old(out_bytes)@, labels: old(label_to_value)@, mentions: old(mention_to_label)@ };
            let after = AsmState { out: final(out_bytes)@, labels: final(label_to_value)@, mentions: final(mention_to_label)@ };
            match r {
                Ok(next) => {
                    &&& index < next <= tokens@.len()
                    &&& asm_from(ts, index as int, offset as nat, before) == asm_from(ts, next as int, offset as nat, after)
                    &&& calls_from(ts, next as int) <= calls_from(ts, index as int)
                    &&& final(out_bytes)@.len() >= old(out_bytes)@.len()
                    &&& forall|k: u8| #[trigger] final(mention_to_label)@.contains_key(k)
                        ==> old(mention_to_label)@.contains_key(k) || (k as int) < offset + final(out_bytes)@.len()
                },
                Err(e) => asm_from(ts, index as int, offset as nat, before) == Err::<AsmState, AsmFault>(e@),
            }
        }),
{
    let ghost ts = views(tokens@);
    let ghost st = AsmState { out: out_bytes@, labels: label_to_value@, mentions: mention_to_label@ };
    let ghost t = ts[index as int];
    assert(tokens@[index as int]@ == t);
    assert(calls_from(ts, index as int) == weight(t) + calls_from(ts, index + 1));
    if index < tokens.len() - 1 {
        assert(calls_from(ts, index + 1) == weight(ts[index + 1]) + calls_from(ts, index + 2));
        assert(tokens@[index + 1]@ == ts[index + 1]);
    }
    let current_token = tokens[index].as_slice();
    match classify_exec(current_token) {
        Word::Simple(op) => {
            out_bytes.push(op);
            assert(out_bytes@ =~= st.out + seq![op]);
            Ok(index + 1)
        },
        Word::Operand(base) => {
            if index + 1 >= tokens.len() {
                return Err(AsmError::MissingOperand(crate::tables::copy_bytes(current_token)));
            }
            let operand = tokens[index + 1].as_slice();
            match get_immediate(operand) {
                None => Err(AsmError::UnparsableImmediate(crate::tables::copy_bytes(operand))),
                Some(value) => {
                    if value < 0x20 {
                        out_bytes.push(base | value);
                        assert(out_bytes@ =~= st.out + seq![base | value]);
                        Ok(index + 2)
                    } else {
                        Err(AsmError::ImmediateOverflow(crate::tables::copy_bytes(operand)))
                    }
                },
            }
        },
        Word::Lbl => {
            if index + 1 >= tokens.len() {
                return Err(AsmError::MissingOperand(crate::tables::copy_bytes(current_token)));
            }
            let here = position_byte(offset, out_bytes.len());
            label_to_value.insert(tokens[index + 1].as_slice(), here);
            Ok(index + 2)
        },
        _ => {
            if current_token.len() > 0 && current_token[0] == DOLLAR {
                out_bytes.push(0x01);
                out_bytes.push(0xCC);
                assert(out_bytes@ =~= st.out + seq![0x01u8, 0xCCu8]);
                let key = position_byte(offset, out_bytes.len() - 1);
                mention_to_label.insert(key, current_token);
                Ok(index + 1)
            } else if current_token.len() > 0 && current_token[0] == LETTER_X {
                match get_immediate(current_token) {
                    None => Err(AsmError::UnparsableImmediate(crate::tables::copy_bytes(current_token))),
                    Some(value) => {
                        if value < 0x10 {
                            out_bytes.push(0xF0 | value);
                            assert(out_bytes@ =~= st.out + seq![0xF0u8 | value]);
                        } else {
                            out_bytes.push(0x01);
                            out_bytes.push(value);
                            assert(out_bytes@ =~= st.out + seq![0x01u8, value]);
                        }
                        Ok(index + 1)
                    },
                }
            } else if current_token.len() > 0 && current_token[0] == LETTER_P {
                match get_immediate(current_token) {
                    None => Err(AsmError::UnparsableImmediate(crate::tables::copy_bytes(current_token))),
                    Some(value) => {
                        out_bytes.push(value);
                        assert(out_bytes@ =~= st.out + seq![value]);
                        Ok(index + 1)
                    },
                }
            } else {
                Err(AsmError::InvalidInstruction(crate::tables::copy_bytes(current_token)))
            }
        },
    }
}

/// Assembles the token at `index`, which expands into others (`jms` and its
/// operand, or `rts`): the expansion is assembled by `assemble_recursive`
/// with the length of `out_bytes` as offset, and its code appended.
fn assemble_call(
    tokens: &Vec<Vec<u8>>,
    index: usize,
    out_bytes: &mut Vec<u8>,
    label_to_value: &mut LabelTable,
    mention_to_label: &mut MentionTable,
    Ghost(offset): Ghost<nat>,
) -> (r: Result<usize, AsmError>)
    requires
        old(label_to_value).wf(),
        index < tokens@.len(),
        classify(tokens@[index as int]@) == Word::Jms || classify(tokens@[index as int]@) == Word::Rts,
    ensures
        final(label_to_value).wf(),
        ({
            let ts = views(tokens@);
            let before = AsmState { out: old(out_bytes)@, labels: old(label_to_value)@, mentions: old(mention_to_label)@ };
            let after = AsmState { out: final(out_bytes)@, labels: final(label_to_value)@, mentions: final(mention_to_label)@ };
            match r {
                Ok(next) => {
                    &&& index < next <= tokens@.len()
                    &&& asm_from(ts, index as int, offset, before) == asm_from(ts, next as int, offset, after)
                    &&& calls_from(ts, next as int) <= calls_from(ts, index as int)
                    &&& final(out_bytes)@.len() >= old(out_bytes)@.len()
                    &&& forall|k: u8| #[trigger] final(mention_to_label)@.contains_key(k)
                        ==> old(mention_to_label)@.contains_key(k) || (k as int) < offset + final(out_bytes)@.len()
                },
                Err(e) => asm_from(ts, index as int, offset, before) == Err::<AsmState, AsmFault>(e@),
            }
        }),
    decreases calls_from(views(tokens@), index as int), 0nat,
{
    let ghost ts = views(tokens@);
    let ghost st = AsmState { out: out_bytes@, labels: label_to_value@, mentions: mention_to_label@ };
    let ghost t = ts[index as int];
    let len = tokens.len();
    assert(tokens@[index as int]@ == t);
    assert(calls_from(ts, index as int) == weight(t) + calls_from(ts, index + 1));
    let is_jms = classify_exec(tokens[index].as_slice()) == Word::Jms;
    let inner = if is_jms {
        if index >= len - 1 {
            return Err(AsmError::MissingOperand(crate::tables::copy_bytes(tokens[index].as_slice())));
        }
        assert(tokens@[index + 1]@ == ts[index + 1]);
        proof {
            lemma_expansion_calls(ts[index + 1]);
            assert(calls_from(ts, index + 1) == weight(ts[index + 1]) + calls_from(ts, index + 2));
        }
        jms_tokens(tokens[index + 1].as_slice())
    } else {
        proof {
            lemma_expansion_calls(t);
        }
        rts_tokens()
    };
    let mut bytes = assemble_recursive(inner, out_bytes.len(), label_to_value, mention_to_label)?;
    out_bytes.append(&mut bytes);
    if is_jms {
        Ok(index + 2)
    } else {
        Ok(index + 1)
    }
}

/// Assembles `tokens`, taking the code to start at `offset`; labels defined
/// and references met are recorded in the two tables (see `asm_from`). Every
/// reference recorded lies before `offset` plus the length of the code.
pub fn assemble_recursive(
    tokens: Vec<Vec<u8>>,
    offset: usize,
    label_to_value: &mut LabelTable,
    mention_to_label: &mut MentionTable,
) -> (r: Result<Vec<u8>, AsmError>)
    requires
        old(label_to_value).wf(),
    ensures
        final(label_to_value).wf(),
        match asm_from(
            views(tokens@),
            0,
            offset as nat,
            AsmState { out: Seq::empty(), labels: old(label_to_value)@, mentions: old(mention_to_label)@ },
        ) {
            Ok(st) => r matches Ok(out) && out@ == st.out && final(label_to_value)@ == st.labels
                && final(mention_to_label)@ == st.mentions,
            Err(e) => r matches Err(err) && err@ == e,
        },
        r matches Ok(out) ==> forall|k: u8| #[trigger] final(mention_to_label)@.contains_key(k)
            ==> old(mention_to_label)@.contains_key(k) || (k as int) < offset + out@.len(),
    decreases calls_from(views(tokens@), 0), 1nat,
{
    let ghost ts = views(tokens@);
    let ghost st0 = AsmState { out: Seq::empty(), labels: label_to_value@, mentions: mention_to_label@ };
    let ghost m0 = mention_to_label@;
    let mut index: usize = 0;
    let mut out_bytes: Vec<u8> = Vec::new();
    while index < tokens.len()
        invariant
            label_to_value.wf(),
            ts == views(tokens@),
            st0 == (AsmState { out: Seq::empty(), labels: old(label_to_value)@, mentions: old(mention_to_label)@ }),
            m0 == old(mention_to_label)@,
            index <= tokens@.len(),
            asm_from(ts, 0, offset as nat, st0) == asm_from(
                ts,
                index as int,
                offset as nat,
                AsmState { out: out_bytes@, labels: label_to_value@, mentions: mention_to_label@ },
            ),
            calls_from(ts, index as int) <= calls_from(ts, 0),
            forall|k: u8| #[trigger] mention_to_label@.contains_key(k) ==> m0.contains_key(k) || (k as int)
                < offset + out_bytes@.len(),
        decreases tokens@.len() - index,
    {
        let ghost before = AsmState { out: out_bytes@, labels: label_to_value@, mentions: mention_to_label@ };
        let word = classify_exec(tokens[index].as_slice());
        let step = if word == Word::Jms || word == Word::Rts {
            assemble_call(&tokens, index, &mut out_bytes, label_to_value, mention_to_label, Ghost(offset as nat))
        } else {
            assemble_token(&tokens, index, offset, &mut out_bytes, label_to_value, mention_to_label)
        };
        match step {
            Err(e) => {
                assert(asm_from(ts, index as int, offset as nat, before) == Err::<AsmState, AsmFault>(e@));
                return Err(e);
            },
            Ok(next) => {
                index = next;
            },
        }
    }
    Ok(out_bytes)
}

/// The label of the first address (from `k` on, up to 255) that holds a
/// reference to a label never defined.
pub open spec fn first_missing(st: AsmState, k: int) -> Option<Seq<u8>>
    decreases 256 - k,
{
    if k >= 256 {
        None
    } else if st.mentions.contains_key(k as u8) && !st.labels.contains_key(st.mentions[k as u8]) {
        Some(st.mentions[k as u8])
    } else {
        first_missing(st, k + 1)
    }
}

/// The code with each label reference patched: the byte at each address
/// holding a reference becomes the value of the label it names.
pub open spec fn patched(st: AsmState) -> Seq<u8> {
    Seq::new(
        st.out.len(),
        |j: int|
            if j < 256 && st.mentions.contains_key(j as u8) {
                st.labels[st.mentions[j as u8]]
            } else {
                st.out[j]
            },
    )
}

/// Patching the label references: the first reference (by address) to a
/// label never defined is an error.
pub open spec fn resolve(st: AsmState) -> Result<Seq<u8>, AsmFault> {
    match first_missing(st, 0) {
        Some(label) => Err(AsmFault::LabelNotFound(label)),
        None => Ok(patched(st)),
    }
}

/// The state assembling starts from.
pub open spec fn initial_state() -> AsmState {
    AsmState { out: Seq::empty(), labels: Map::empty(), mentions: Map::empty() }
}

/// The machine code of the source text `src`, or why there is none.
pub open spec fn spec_assemble(src: Seq<u8>) -> Result<Seq<u8>, AsmFault> {
    match asm_from(split_whitespace(strip_comments(src)), 0, 0, initial_state()) {
        Err(e) => Err(e),
        Ok(st) => resolve(st),
    }
}

/// Assembles the source text `in_bytes` into machine code.
pub fn assemble(in_bytes: &[u8]) -> (r: Result<Vec<u8>, AsmError>)
    ensures
        match spec_assemble(in_bytes@) {
            Ok(code) => r matches Ok(v) && v@ == code,
            Err(e) => r matches Err(err) && err@ == e,
        },
{
    let text = strip_comments_exec(in_bytes);
    let tokens = split_whitespace_exec(text.as_slice());
    let mut label_to_value = LabelTable::new();
    let mut mention_to_label = MentionTable::new();
    assert(AsmState { out: Seq::empty(), labels: label_to_value@, mentions: mention_to_label@ } == initial_state());
    let mut out_bytes = assemble_recursive(tokens, 0, &mut label_to_value, &mut mention_to_label)?;
    let ghost st = AsmState { out: out_bytes@, labels: label_to_value@, mentions: mention_to_label@ };
    // Patch every label reference, by ascending address.
    assert(spec_assemble(in_bytes@) == resolve(st));
    let mut mention: usize = 0;
    while mention < 256
        invariant
            mention <= 256,
            spec_assemble(in_bytes@) == resolve(st),
            label_to_value.wf(),
            label_to_value@ == st.labels,
            mention_to_label@ == st.mentions,
            out_bytes@.len() == st.out.len(),
            forall|k: u8| #[trigger] st.mentions.contains_key(k) ==> (k as int) < st.out.len(),
            first_missing(st, 0) == first_missing(st, mention as int),
            forall|j: int| 0 <= j < st.out.len() ==> #[trigger] out_bytes@[j] == (if j < mention && st.mentions.contains_key(j as u8) {
                st.labels[st.mentions[j as u8]]
            } else {
                st.out[j]
            }),
        decreases 256 - mention,
    {
        let key = mention as u8;
        assert(key as int == mention as int);
        match mention_to_label.get(key) {
            None => {},
            Some(label) => {
                match label_to_value.get(label.as_slice()) {
                    Some(value) => {
                        out_bytes.set(mention, value);
                    },
                    None => {
                        return Err(AsmError::LabelNotFound(crate::tables::copy_bytes(label.as_slice())));
                    },
                }
            },
        }
        mention += 1;
    }
    assert(out_bytes@ =~= patched(st));
    Ok(out_bytes)
}

} // verus!
