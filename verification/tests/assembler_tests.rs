use lib::assembler::{assemble, assemble_recursive, AsmError};
use lib::hex::get_immediate;
use lib::tables::{LabelTable, MentionTable};
use lib::text::{split_whitespace_exec, strip_comments_exec};

fn build(src: &str) -> Result<Vec<u8>, AsmError> {
    assemble(src.as_bytes())
}

#[test]
fn simple_mnemonics_assemble_to_their_opcodes() {
    let code = build("nop hlt dbg lda sta lds sts ldi sti ldp stp ldb stb dup drp swp").unwrap();
    assert_eq!(code, vec![0x00, 0x02, 0x0F, 0x11, 0x12, 0x13, 0x14, 0x15, 0x16, 0x17, 0x18, 0x19, 0x1A, 0x1B, 0x1C, 0x1D]);
    let code = build("add adc sub sbc inc dec ilt lgt ieq nez neg abs not oor and xor xnd").unwrap();
    assert_eq!(code, vec![0x20, 0x21, 0x22, 0x23, 0x24, 0x25, 0x26, 0x27, 0x28, 0x29, 0x2A, 0x2B, 0x30, 0x31, 0x32, 0x33, 0x34]);
}

#[test]
fn small_immediate_is_one_byte() {
    assert_eq!(build("x05").unwrap(), vec![0xF5]);
    assert_eq!(build("x0f").unwrap(), vec![0xFF]);
}

#[test]
fn large_immediate_is_two_bytes() {
    assert_eq!(build("x10").unwrap(), vec![0x01, 0x10]);
    assert_eq!(build("xFF").unwrap(), vec![0x01, 0xFF]);
}

#[test]
fn raw_byte_is_emitted_as_is() {
    assert_eq!(build("p41 p00").unwrap(), vec![0x41, 0x00]);
}

#[test]
fn operand_instructions_or_their_operand_in() {
    assert_eq!(build("sto x03 ldo x1f skp x02 shl x01 shr x07").unwrap(), vec![0x43, 0x9F, 0xC2, 0xD1, 0xDF]);
}

#[test]
fn skip_operand_can_spill_into_the_next_opcode() {
    // 0xC0 | 0x10 is the opcode of `shl`.
    assert_eq!(build("skp x10").unwrap(), vec![0xD0]);
}

#[test]
fn operand_of_0x20_overflows() {
    match build("sto x20") {
        Err(AsmError::ImmediateOverflow(t)) => assert_eq!(t, b"x20".to_vec()),
        other => panic!("unexpected {:?}", other),
    }
}

#[test]
fn missing_operand_is_reported() {
    match build("nop sto") {
        Err(AsmError::MissingOperand(t)) => assert_eq!(t, b"sto".to_vec()),
        other => panic!("unexpected {:?}", other),
    }
    assert!(matches!(build("lbl"), Err(AsmError::MissingOperand(_))));
    assert!(matches!(build("jms"), Err(AsmError::MissingOperand(_))));
}

#[test]
fn unparsable_immediate_is_reported() {
    match build("xzz") {
        Err(AsmError::UnparsableImmediate(t)) => assert_eq!(t, b"xzz".to_vec()),
        other => panic!("unexpected {:?}", other),
    }
    assert!(matches!(build("x"), Err(AsmError::UnparsableImmediate(_))));
    assert!(matches!(build("x100"), Err(AsmError::UnparsableImmediate(_))));
}

#[test]
fn invalid_instruction_is_reported() {
    match build("nop foo") {
        Err(AsmError::InvalidInstruction(t)) => assert_eq!(t, b"foo".to_vec()),
        other => panic!("unexpected {:?}", other),
    }
}

#[test]
fn label_reference_is_patched() {
    // `lbl $loop` gives `$loop` the value 0; the reference is 0x01 then the value.
    assert_eq!(build("lbl $loop nop $loop").unwrap(), vec![0x00, 0x01, 0x00]);
    assert_eq!(build("$end nop lbl $end hlt").unwrap(), vec![0x01, 0x03, 0x00, 0x02]);
}

#[test]
fn undefined_label_is_reported() {
    match build("nop $nowhere") {
        Err(AsmError::LabelNotFound(t)) => assert_eq!(t, b"$nowhere".to_vec()),
        other => panic!("unexpected {:?}", other),
    }
    // A label defined without the `$` is a different name.
    assert!(matches!(build("lbl start $start"), Err(AsmError::LabelNotFound(_))));
}

#[test]
fn label_defined_twice_keeps_the_last_value() {
    assert_eq!(build("lbl $a nop lbl $a $a").unwrap(), vec![0x00, 0x01, 0x01]);
}

#[test]
fn jms_expands_to_a_call_sequence() {
    let code = build("jms $f hlt lbl $f rts").unwrap();
    assert_eq!(code, vec![0x15, 0xF5, 0x20, 0x01, 0x07, 0x16, 0x02, 0x16]);
}

#[test]
fn rts_is_sti() {
    assert_eq!(build("rts").unwrap(), vec![0x16]);
}

#[test]
fn comments_are_cut_with_their_newline() {
    assert_eq!(build("nop # a comment\nhlt").unwrap(), vec![0x00, 0x02]);
    // The newline goes with the comment, so the two words join.
    assert!(matches!(build("nop#c\nhlt"), Err(AsmError::InvalidInstruction(_))));
}

#[test]
fn trailing_comment_is_dropped() {
    assert_eq!(build("hlt # end").unwrap(), vec![0x02]);
    assert_eq!(build("nop # no newline").unwrap(), vec![0x00]);
    assert_eq!(build("#").unwrap(), Vec::<u8>::new());
}

#[test]
fn no_break_space_separates_tokens() {
    let src: Vec<u8> = vec![b'n', b'o', b'p', 0xA0, b'h', b'l', b't', 0x85, b'n', b'o', b'p'];
    assert_eq!(assemble(&src).unwrap(), vec![0x00, 0x02, 0x00]);
}

#[test]
fn empty_source_gives_empty_code() {
    assert_eq!(build("").unwrap(), Vec::<u8>::new());
    assert_eq!(build("  \n\t ").unwrap(), Vec::<u8>::new());
}

#[test]
fn get_immediate_reads_hex_after_the_first_character() {
    assert_eq!(get_immediate(b"x05"), Some(5));
    assert_eq!(get_immediate(b"pFf"), Some(255));
    assert_eq!(get_immediate(b"x00ff"), Some(255));
    assert_eq!(get_immediate(b"x+a"), Some(10));
    assert_eq!(get_immediate(b"x-1"), None);
    assert_eq!(get_immediate(b"x+"), None);
    assert_eq!(get_immediate(b"x100"), None);
    assert_eq!(get_immediate(b"x"), None);
    assert_eq!(get_immediate(b""), None);
    assert_eq!(get_immediate(&[0xE9, b'1']), None);
}

#[test]
fn strip_comments_exec_cuts_comments() {
    assert_eq!(strip_comments_exec(b"a#b\nc"), b"ac".to_vec());
    assert_eq!(strip_comments_exec(b"a#b"), b"a".to_vec());
    assert_eq!(strip_comments_exec(b"#\n#x\n"), Vec::<u8>::new());
    assert_eq!(strip_comments_exec(b"a#b#c\nd#"), b"ad".to_vec());
}

#[test]
fn split_whitespace_exec_splits() {
    assert_eq!(
        split_whitespace_exec(b"  ab\tc \n d "),
        vec![b"ab".to_vec(), b"c".to_vec(), b"d".to_vec()]
    );
}

#[test]
fn assemble_recursive_records_labels_and_references() {
    let mut labels = LabelTable::new();
    let mut mentions = MentionTable::new();
    let tokens = vec![b"nop".to_vec(), b"lbl".to_vec(), b"$a".to_vec(), b"$b".to_vec()];
    let code = assemble_recursive(tokens, 10, &mut labels, &mut mentions).unwrap();
    assert_eq!(code, vec![0x00, 0x01, 0xCC]);
    assert_eq!(labels.get(b"$a"), Some(11));
    assert_eq!(mentions.get(12), Some(&b"$b".to_vec()));
    assert_eq!(mentions.get(0), None);
}

#[test]
fn jms_assembles_as_its_expansion() {
    assert_eq!(build("jms $f lbl $f").unwrap(), build("ldi x05 add $f sti lbl $f").unwrap());
    assert_eq!(build("rts").unwrap(), build("sti").unwrap());
}

#[test]
fn comment_between_tokens_is_cut() {
    assert_eq!(build("x01 # one\nx02 # two\n").unwrap(), build("x01 x02").unwrap());
}

#[test]
fn assembling_concatenated_tokens_continues_from_the_first_part() {
    // "lbl $a x01" then "$a": the reference sees the label from the first part.
    assert_eq!(build("lbl $a x01 $a").unwrap(), vec![0xF1, 0x01, 0x00]);
    let first = build("x05 x06").unwrap();
    let second = build("p07 hlt").unwrap();
    let mut both = first.clone();
    both.extend_from_slice(&second);
    assert_eq!(build("x05 x06 p07 hlt").unwrap(), both);
}

#[test]
fn removing_all_comments_keeps_the_code() {
    let with = "x01 # one\nlbl $l # two # three\n$l hlt # end";
    let without = strip_comments_exec(with.as_bytes());
    assert!(!without.contains(&b'#'));
    assert_eq!(build(with).unwrap(), assemble(&without).unwrap());
}

#[test]
fn concatenation_with_rts_in_the_second_part() {
    let first = build("x05 lbl $a").unwrap();
    let second = build("rts p07").unwrap();
    let mut both = first.clone();
    both.extend_from_slice(&second);
    assert_eq!(build("x05 lbl $a rts p07").unwrap(), both);
    assert_eq!(build("x05 lbl $a rts $a").unwrap(), vec![0xF5, 0x16, 0x01, 0x01]);
}
