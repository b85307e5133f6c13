//! End-to-end tests of the assembler: scenarios, encodings, boundaries, errors.
use mips_asm::assemble::assemble;
use mips_asm::err::AsmError;

fn ok(src: &str) -> (Vec<(u32, u32)>, Vec<(u32, u32)>) {
    let out = assemble(src.as_bytes()).expect("program should assemble");
    (out.instrs, out.data)
}

fn err(src: &str) -> AsmError {
    assemble(src.as_bytes()).err().expect("program should be rejected")
}

#[test]
fn main_is_encoded_at_address_zero() {
    let (instrs, _) = ok(".text\nmain: add $t0,$t0,$t0\n jr $ra\n");
    assert_eq!(instrs[0].0, 0);
    assert_eq!(instrs.len(), 2);
    assert_eq!(instrs[1].0, 1);
}

#[test]
fn addi_round_trip_fields() {
    let (instrs, _) = ok(".text\nmain: addi $t0, $zero, 5\n");
    let w = instrs[0].1;
    let opcode_field = 0x08u32 << 26;
    let rt_field = 8u32 << 16; // $t0 is register 8
    let imm_field = 5u32;
    assert_eq!(w >> 26, 0x08);
    assert_eq!((w >> 16) & 0x1F, 8);
    assert_eq!(w & 0xFFFF, 5);
    assert_eq!(w, opcode_field | rt_field | imm_field);
}

#[test]
fn branch_offset_backward() {
    // beq sits at word index 1, target at 0: offset = (0 - 2) & 0xFFFF
    let (instrs, _) = ok(".text\nmain: add $t0,$t0,$t0\nbeq $t0,$t1,main\n");
    let w = instrs[1].1;
    assert_eq!(instrs[1].0, 1);
    assert_eq!(w >> 26, 0x04);
    assert_eq!(w & 0xFFFF, 0xFFFE);
    // first register fills rt, the second rs
    assert_eq!((w >> 16) & 0x1F, 8); // $t0
    assert_eq!((w >> 21) & 0x1F, 9); // $t1
}

#[test]
fn branch_offset_forward() {
    // beq at word index 0, target at 1: offset = 1 - 1 = 0
    let (instrs, _) = ok(".text\nmain: beq $t0,$t1,end\nend: jr $ra\n");
    assert_eq!(instrs[0].1 & 0xFFFF, 0);
}

#[test]
fn jump_target_lower_26_bits() {
    let (instrs, _) = ok(".text\nmain: add $t0,$t0,$t0\ntgt: sub $t0,$t0,$t0\nj tgt\n");
    let w = instrs[2].1;
    assert_eq!(w >> 26, 0x02);
    assert_eq!(w & 0x3FFFFFF, 1);
}

#[test]
fn jal_uses_opcode_three() {
    let (instrs, _) = ok(".text\nmain: add $t0,$t0,$t0\njal main\n");
    let w = instrs[1].1;
    assert_eq!(w >> 26, 0x03);
    assert_eq!(w & 0x3FFFFFF, 0);
}

#[test]
fn assembling_twice_is_identical() {
    let src = ".data\nv: .word 1, 2, 3\n.text\nmain: lw $t0, v($zero)\naddi $t0, $t0, 1\nsw $t0, v($zero)\n jr $ra\n";
    let (i1, d1) = ok(src);
    let (i2, d2) = ok(src);
    assert_eq!(i1, i2);
    assert_eq!(d1, d2);
}

#[test]
fn capacity_of_exactly_256_instructions_succeeds() {
    let mut src = String::from(".text\nmain: add $t0,$t0,$t0\n");
    for _ in 0..255 {
        src.push_str("add $t0,$t0,$t0\n");
    }
    let (instrs, _) = ok(&src);
    assert_eq!(instrs.len(), 256);
    assert_eq!(instrs[255].0, 255);
}

#[test]
fn capacity_of_257_instructions_fails() {
    let mut src = String::from(".text\nmain: add $t0,$t0,$t0\n");
    for _ in 0..256 {
        src.push_str("add $t0,$t0,$t0\n");
    }
    assert!(matches!(
        assemble(src.as_bytes()),
        Err(AsmError::TooManyInstructions { .. })
    ));
}

#[test]
fn capacity_of_exactly_256_data_words_succeeds() {
    let mut src = String::from(".data\nv: .word 1");
    for _ in 0..255 {
        src.push_str(",1");
    }
    src.push_str("\n.text\nmain: jr $ra\n");
    let (_, data) = ok(&src);
    assert_eq!(data.len(), 256);
    assert_eq!(data[255].0, 255);
}

#[test]
fn capacity_of_257_data_words_fails() {
    let mut src = String::from(".data\nv: .word 1");
    for _ in 0..256 {
        src.push_str(",1");
    }
    src.push_str("\n.text\nmain: jr $ra\n");
    assert!(matches!(
        assemble(src.as_bytes()),
        Err(AsmError::TooManyData { .. })
    ));
}

#[test]
fn second_data_label_resolves_to_word_address_one() {
    // b sits at byte offset 4, so as an immediate it is 4 >> 2 == 1
    let (instrs, _) = ok(".data\na: .word 7\nb: .word 9\n.text\nmain: lw $t0, b($zero)\n jr $ra\n");
    assert_eq!(instrs[0].1 & 0xFFFF, 1);
}

#[test]
fn plain_data_label_reference_resolves() {
    let (instrs, _) = ok(".data\na: .word 7\nb: .word 9\n.text\nmain: addi $t0, $zero, b\n");
    assert_eq!(instrs[0].1 & 0xFFFF, 1);
}

#[test]
fn load_word_scenario() {
    let (instrs, data) = ok(".data\na: .word 5,6\n.text\nmain: lw $t0, a($zero)\n jr $ra\n");
    // a registered at data byte offset 0; two data words at addresses 0 and 1
    assert_eq!(data, vec![(0, 5), (1, 6)]);
    // lw: opcode 0x23, rt = $t0, base register $zero, immediate a >> 2 == 0
    let lw = instrs[0].1;
    assert_eq!(instrs[0].0, 0);
    assert_eq!(lw >> 26, 0x23);
    assert_eq!((lw >> 16) & 0x1F, 8);
    assert_eq!((lw >> 21) & 0x1F, 0);
    assert_eq!(lw & 0xFFFF, 0);
    // jr: function code 0x08, rs = $ra
    let jr = instrs[1].1;
    assert_eq!(instrs[1].0, 1);
    assert_eq!(jr & 0x3F, 0x08);
    assert_eq!((jr >> 21) & 0x1F, 31);
    assert_eq!(jr >> 26, 0);
}

#[test]
fn byte_directive_is_rejected_with_its_line() {
    let e = err(".data\nfoo: .byte 1\n");
    assert_eq!(e, AsmError::UnsupportedDirective { line: 2 });
}

#[test]
fn float_directive_is_rejected() {
    let e = err(".data\nfoo: .float 1\n");
    assert_eq!(e, AsmError::UnsupportedDirective { line: 2 });
}

#[test]
fn label_before_any_section_is_rejected() {
    let e = err("x: add $t0,$t0,$t0\n.text\nmain: jr $ra\n");
    assert_eq!(e, AsmError::LabelOutsideSection { line: 1 });
}

#[test]
fn duplicate_label_in_text_is_rejected() {
    let e = err(".text\nmain: add $t0,$t0,$t0\nmain: add $t0,$t0,$t0\n");
    assert_eq!(e, AsmError::DuplicateLabel { line: 3 });
}

#[test]
fn duplicate_label_across_tables_is_rejected() {
    let e = err(".data\nmain: .word 1\n.text\nmain: jr $ra\n");
    assert_eq!(e, AsmError::DuplicateLabel { line: 4 });
}

#[test]
fn data_without_inline_label_is_rejected() {
    let e = err(".data\n.word 5\n.text\nmain: jr $ra\n");
    assert_eq!(e, AsmError::DataLineWithoutLabel { line: 2 });
}

#[test]
fn missing_main_is_rejected() {
    let e = err(".text\nstart: jr $ra\n");
    assert_eq!(e, AsmError::MainMissing);
}

#[test]
fn main_not_first_is_rejected() {
    let e = err(".text\nfoo: add $t0,$t0,$t0\nmain: jr $ra\n");
    assert_eq!(e, AsmError::MainNotAtZero);
}

#[test]
fn unknown_mnemonic_is_rejected() {
    let e = err(".text\nmain: frobnicate $t0\n");
    assert_eq!(e, AsmError::UnknownMnemonic { line: 2 });
}

#[test]
fn unknown_label_is_rejected() {
    let e = err(".text\nmain: j nowhere\n");
    assert_eq!(e, AsmError::UnknownLabel { line: 2 });
}

#[test]
fn oversized_shift_amount_is_rejected() {
    let e = err(".text\nmain: sll $t0, $t1, 99\n");
    assert_eq!(e, AsmError::BadOperand { line: 2 });
}

#[test]
fn negative_immediate_is_rejected() {
    let e = err(".text\nmain: addi $t0, $zero, -5\n");
    assert_eq!(e, AsmError::BadOperand { line: 2 });
}

#[test]
fn shift_encoding() {
    let (instrs, _) = ok(".text\nmain: sll $t0, $t1, 2\n");
    let w = instrs[0].1;
    assert_eq!(w & 0x3F, 0x00); // sll function code
    assert_eq!((w >> 11) & 0x1F, 8); // rd = $t0
    assert_eq!((w >> 16) & 0x1F, 9); // rt = $t1
    assert_eq!((w >> 6) & 0x1F, 2); // shamt
    let (instrs, _) = ok(".text\nmain: srl $s0, $s1, 3\n");
    let w = instrs[0].1;
    assert_eq!(w & 0x3F, 0x02); // srl function code
    assert_eq!((w >> 11) & 0x1F, 16);
    assert_eq!((w >> 16) & 0x1F, 17);
    assert_eq!((w >> 6) & 0x1F, 3);
}

#[test]
fn r_format_register_order() {
    // add $rd, $rs, $rt
    let (instrs, _) = ok(".text\nmain: add $t2, $t0, $t1\n");
    let w = instrs[0].1;
    assert_eq!(w & 0x3F, 0x20);
    assert_eq!((w >> 11) & 0x1F, 10); // rd = $t2
    assert_eq!((w >> 21) & 0x1F, 8); // rs = $t0
    assert_eq!((w >> 16) & 0x1F, 9); // rt = $t1
}

#[test]
fn hex_immediate() {
    let (instrs, _) = ok(".text\nmain: addi $t0, $zero, 0x10\n");
    assert_eq!(instrs[0].1 & 0xFFFF, 16);
}

#[test]
fn space_directive_emits_one_zero_word() {
    let (instrs, data) = ok(".data\na: .space 4\nb: .word 3\n.text\nmain: lw $t0, b($zero)\n jr $ra\n");
    assert_eq!(data, vec![(0, 0), (1, 3)]);
    // b lives at byte offset 4, word address 1
    assert_eq!(instrs[0].1 & 0xFFFF, 1);
}

#[test]
fn offset_expression_adds_to_label_address() {
    let (instrs, _) = ok(".data\na: .word 1,2,3\n.text\nmain: lw $t0, 1(a)\n jr $ra\n");
    assert_eq!(instrs[0].1 & 0xFFFF, 1); // a >> 2 == 0, plus offset 1
}

#[test]
fn comments_and_blank_lines_are_ignored() {
    let (instrs, _) = ok("# a program\n\n.text\n\nmain: jr $ra # return\n");
    assert_eq!(instrs.len(), 1);
    let w = instrs[0].1;
    assert_eq!(w & 0x3F, 0x08);
    assert_eq!((w >> 21) & 0x1F, 31);
}

#[test]
fn globl_line_is_not_counted() {
    let (instrs, _) = ok(".globl main\n.text\nmain: addi $t0, $zero, 1\n jr $ra\n");
    assert_eq!(instrs.len(), 2);
    assert_eq!(instrs[0].0, 0);
}

#[test]
fn i_format_opcodes() {
    let (instrs, _) = ok(
        ".data\nv: .word 0\n.text\nmain: sw $t0, v($zero)\nlw $t0, v($zero)\naddi $t0, $zero, 1\nbeq $t0, $t1, main\nbne $t0, $t1, main\n",
    );
    assert_eq!(instrs[0].1 >> 26, 0x2B);
    assert_eq!(instrs[1].1 >> 26, 0x23);
    assert_eq!(instrs[2].1 >> 26, 0x08);
    assert_eq!(instrs[3].1 >> 26, 0x04);
    assert_eq!(instrs[4].1 >> 26, 0x05);
}

#[test]
fn r_format_function_codes() {
    let (instrs, _) = ok(
        ".text\nmain: and $t0,$t1,$t2\nor $t0,$t1,$t2\nadd $t0,$t1,$t2\nsub $t0,$t1,$t2\nslt $t0,$t1,$t2\njr $ra\n",
    );
    assert_eq!(instrs[0].1 & 0x3F, 0x24);
    assert_eq!(instrs[1].1 & 0x3F, 0x25);
    assert_eq!(instrs[2].1 & 0x3F, 0x20);
    assert_eq!(instrs[3].1 & 0x3F, 0x22);
    assert_eq!(instrs[4].1 & 0x3F, 0x2A);
    assert_eq!(instrs[5].1 & 0x3F, 0x08);
    for (_, w) in &instrs {
        assert_eq!(w >> 26, 0);
    }
}

#[test]
fn data_words_accept_hex_values() {
    let (_, data) = ok(".data\nv: .word 0xFF, 10\n.text\nmain: jr $ra\n");
    assert_eq!(data, vec![(0, 255), (1, 10)]);
}

#[test]
fn label_alone_names_the_next_instruction() {
    let (instrs, _) = ok(".text\nmain:\nadd $t0,$t0,$t0\nloop:\nbeq $t0,$t1,loop\n");
    assert_eq!(instrs.len(), 2);
    assert_eq!(instrs[0].0, 0);
    // loop names word index 1, the beq itself: offset = 1 - 2
    assert_eq!(instrs[1].1 & 0xFFFF, 0xFFFF);
}

#[test]
fn hex_shift_amount_lands_in_the_shamt_field() {
    let (instrs, _) = ok(".text\nmain: sll $t0, $t1, 0x2\n");
    assert_eq!((instrs[0].1 >> 6) & 0x1F, 2);
}

#[test]
fn data_section_may_follow_text() {
    let (instrs, data) = ok(".text\nmain: lw $t0, v($zero)\n jr $ra\n.data\nv: .word 8\n");
    assert_eq!(instrs[0].1 & 0xFFFF, 0);
    assert_eq!(data, vec![(0, 8)]);
}

#[test]
fn multi_value_word_lines_advance_later_label_offsets() {
    // a holds three words, so b sits at byte offset 12, word address 3
    let (instrs, data) = ok(
        ".data\na: .word 1, 2, 3\nb: .word 4\n.text\nmain: lw $t0, b($zero)\n jr $ra\n",
    );
    assert_eq!(data, vec![(0, 1), (1, 2), (2, 3), (3, 4)]);
    assert_eq!(instrs[0].1 & 0xFFFF, 3);
}

#[test]
fn forward_jump_resolves() {
    let (instrs, _) = ok(".text\nmain: j end\nadd $t0,$t0,$t0\nend: jr $ra\n");
    assert_eq!(instrs[0].1 & 0x3FFFFFF, 2);
}

#[test]
fn offset_expression_with_unknown_base_is_rejected() {
    let e = err(".text\nmain: lw $t0, 4(nothing)\n jr $ra\n");
    assert_eq!(e, AsmError::UnknownLabel { line: 2 });
}

#[test]
fn word_value_must_be_numeric() {
    let e = err(".data\nv: .word banana\n.text\nmain: jr $ra\n");
    assert_eq!(e, AsmError::BadOperand { line: 2 });
}
