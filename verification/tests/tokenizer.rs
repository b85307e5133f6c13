//! Tests of the word classifier.
use mips_asm::token::{parse_first_token, parse_token, Directive, Mnemonic, Token};

#[test]
fn registers_are_classified_with_their_index() {
    assert_eq!(parse_token(b"$zero"), Token::Reg(0));
    assert_eq!(parse_token(b"$at"), Token::Reg(1));
    assert_eq!(parse_token(b"$v0"), Token::Reg(2));
    assert_eq!(parse_token(b"$a0"), Token::Reg(4));
    assert_eq!(parse_token(b"$t0"), Token::Reg(8));
    assert_eq!(parse_token(b"$t7"), Token::Reg(15));
    assert_eq!(parse_token(b"$s0"), Token::Reg(16));
    assert_eq!(parse_token(b"$t8"), Token::Reg(24));
    assert_eq!(parse_token(b"$k0"), Token::Reg(26));
    assert_eq!(parse_token(b"$gp"), Token::Reg(28));
    assert_eq!(parse_token(b"$sp"), Token::Reg(29));
    assert_eq!(parse_token(b"$fp"), Token::Reg(30));
    assert_eq!(parse_token(b"$ra"), Token::Reg(31));
    assert_eq!(parse_token(b"$nope"), Token::NotFound);
}

#[test]
fn mnemonics_are_classified() {
    assert_eq!(parse_token(b"sw"), Token::Mn(Mnemonic::Sw));
    assert_eq!(parse_token(b"lw"), Token::Mn(Mnemonic::Lw));
    assert_eq!(parse_token(b"addi"), Token::Mn(Mnemonic::Addi));
    assert_eq!(parse_token(b"beq"), Token::Mn(Mnemonic::Beq));
    assert_eq!(parse_token(b"bne"), Token::Mn(Mnemonic::Bne));
    assert_eq!(parse_token(b"and"), Token::Mn(Mnemonic::And));
    assert_eq!(parse_token(b"or"), Token::Mn(Mnemonic::Or));
    assert_eq!(parse_token(b"add"), Token::Mn(Mnemonic::Add));
    assert_eq!(parse_token(b"sub"), Token::Mn(Mnemonic::Sub));
    assert_eq!(parse_token(b"slt"), Token::Mn(Mnemonic::Slt));
    assert_eq!(parse_token(b"srl"), Token::Mn(Mnemonic::Srl));
    assert_eq!(parse_token(b"sll"), Token::Mn(Mnemonic::Sll));
    assert_eq!(parse_token(b"jr"), Token::Mn(Mnemonic::Jr));
    assert_eq!(parse_token(b"j"), Token::Mn(Mnemonic::J));
    assert_eq!(parse_token(b"jal"), Token::Mn(Mnemonic::Jal));
    assert_eq!(parse_token(b"nop"), Token::NotFound);
}

#[test]
fn immediates_are_classified() {
    assert_eq!(parse_token(b"0"), Token::Imm);
    assert_eq!(parse_token(b"5"), Token::Imm);
    assert_eq!(parse_token(b"+5"), Token::Imm);
    assert_eq!(parse_token(b"-5"), Token::Imm);
    assert_eq!(parse_token(b"32767"), Token::Imm);
    assert_eq!(parse_token(b"-32768"), Token::Imm);
    // outside the signed 16-bit range, a decimal is no immediate
    assert_eq!(parse_token(b"32768"), Token::NotFound);
    assert_eq!(parse_token(b"40000"), Token::NotFound);
    // hex immediates may use the full 32 bits
    assert_eq!(parse_token(b"0x0"), Token::Imm);
    assert_eq!(parse_token(b"0xFFFF"), Token::Imm);
    assert_eq!(parse_token(b"0xffffffff"), Token::Imm);
    assert_eq!(parse_token(b"0x100000000"), Token::NotFound);
    assert_eq!(parse_token(b"0x"), Token::NotFound);
    assert_eq!(parse_token(b"0xzz"), Token::NotFound);
}

#[test]
fn directives_and_labels_are_classified() {
    assert_eq!(parse_token(b".globl"), Token::Dir(Directive::Globl));
    assert_eq!(parse_token(b".text"), Token::Dir(Directive::Text));
    assert_eq!(parse_token(b".data"), Token::Dir(Directive::Data));
    assert_eq!(parse_token(b".word"), Token::Dir(Directive::Word));
    assert_eq!(parse_token(b".space"), Token::Dir(Directive::Space));
    assert_eq!(parse_token(b".byte"), Token::NotFound);
    assert_eq!(parse_token(b"loop:"), Token::LabelDef);
}

#[test]
fn first_tokens_do_not_include_registers_or_immediates() {
    assert_eq!(parse_first_token(b".text"), Token::Dir(Directive::Text));
    assert_eq!(parse_first_token(b"main:"), Token::LabelDef);
    assert_eq!(parse_first_token(b"lw"), Token::Mn(Mnemonic::Lw));
    assert_eq!(parse_first_token(b"$t0"), Token::NotFound);
    assert_eq!(parse_first_token(b"5"), Token::NotFound);
    // a dotted word that is no directive is not a label even if it ends in a colon
    assert_eq!(parse_first_token(b".word:"), Token::NotFound);
}
