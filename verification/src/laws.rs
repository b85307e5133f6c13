//! General laws of the assembler, stated over the spec-level model that the
//! executable functions are proved to implement.
use vstd::arithmetic::div_mod::{lemma_mod_multiples_vanish, lemma_small_mod};
use vstd::prelude::*;

use crate::assemble::{main_name, spec_assemble};
use crate::encode::{empty_fields, spec_branch_imm, spec_encode_instr, spec_operand_i, spec_operand_j, spec_operands, spec_word_of, spec_wrap_sub, Fields};
use crate::err::{AsmError, Section};
use crate::lines::{spec_clean, LineV};
use crate::pass1::spec_pass1;
use crate::pass2::spec_pass2_from;
use crate::pass3::{spec_data_vals, spec_pass3_from};
use crate::table::spec_lookup;
use crate::token::{spec_mnemonic, spec_parse_first_token, spec_parse_token, Directive, Mnemonic, Token};

verus! {

proof fn lemma_pass2_first_addr(
    lines: Seq<LineV>,
    i: int,
    sec: Section,
    jt: Seq<(Seq<u8>, u32)>,
    dt: Seq<(Seq<u8>, u32)>,
)
    requires
        spec_pass2_from(lines, i, sec, 0, jt, dt) is Ok,
    ensures
        ({
            let ps = spec_pass2_from(lines, i, sec, 0, jt, dt)->Ok_0;
            ps.len() > 0 ==> ps[0].0 == 0
        }),
    decreases lines.len() - i,
{
    if 0 <= i && i < lines.len() {
        let l = lines[i];
        if l.words.len() == 0 {
            lemma_pass2_first_addr(lines, i + 1, sec, jt, dt);
        } else {
            match spec_parse_first_token(l.words[0]) {
                Token::Dir(Directive::Text) => lemma_pass2_first_addr(
                    lines,
                    i + 1,
                    Section::Text,
                    jt,
                    dt,
                ),
                Token::Dir(Directive::Data) => lemma_pass2_first_addr(
                    lines,
                    i + 1,
                    Section::Data,
                    jt,
                    dt,
                ),
                Token::Dir(Directive::Globl) => lemma_pass2_first_addr(lines, i + 1, sec, jt, dt),
                t0 => {
                    if sec != Section::Text {
                        lemma_pass2_first_addr(lines, i + 1, sec, jt, dt);
                    } else if t0 == Token::LabelDef && l.words.len() == 1 {
                        lemma_pass2_first_addr(lines, i + 1, sec, jt, dt);
                    }
                    // otherwise this line emits the pair (0, word) first
                },
            }
        }
    }
}

/// LAW: every program the assembler accepts binds `main` to instruction-word
/// index 0, and the first instruction of the image (if there is one) is
/// encoded at instruction-word address 0.
pub proof fn lemma_main_at_zero(src: Seq<u8>)
    requires
        spec_assemble(src) is Ok,
    ensures
        spec_pass1(spec_clean(src)) is Ok,
        spec_lookup(spec_pass1(spec_clean(src))->Ok_0.jt, main_name()) == Some(0u32),
        spec_assemble(src)->Ok_0.instrs.len() > 0 ==> spec_assemble(src)->Ok_0.instrs[0].0 == 0,
{
    let tabs = spec_pass1(spec_clean(src))->Ok_0;
    lemma_pass2_first_addr(spec_clean(src), 0, Section::Global, tabs.jt, tabs.dt);
}

proof fn lemma_pass2_bounded(
    lines: Seq<LineV>,
    i: int,
    sec: Section,
    wc: u32,
    jt: Seq<(Seq<u8>, u32)>,
    dt: Seq<(Seq<u8>, u32)>,
)
    requires
        spec_pass2_from(lines, i, sec, wc, jt, dt) is Ok,
    ensures
        ({
            let ps = spec_pass2_from(lines, i, sec, wc, jt, dt)->Ok_0;
            forall|k: int| 0 <= k < ps.len() ==> (#[trigger] ps[k]).0 < 256
        }),
    decreases lines.len() - i,
{
    if 0 <= i && i < lines.len() {
        let l = lines[i];
        if l.words.len() == 0 {
            lemma_pass2_bounded(lines, i + 1, sec, wc, jt, dt);
        } else {
            match spec_parse_first_token(l.words[0]) {
                Token::Dir(Directive::Text) => lemma_pass2_bounded(
                    lines,
                    i + 1,
                    Section::Text,
                    0,
                    jt,
                    dt,
                ),
                Token::Dir(Directive::Data) => lemma_pass2_bounded(
                    lines,
                    i + 1,
                    Section::Data,
                    wc,
                    jt,
                    dt,
                ),
                Token::Dir(Directive::Globl) => lemma_pass2_bounded(lines, i + 1, sec, wc, jt, dt),
                t0 => {
                    if sec != Section::Text {
                        lemma_pass2_bounded(lines, i + 1, sec, wc, jt, dt);
                    } else if t0 == Token::LabelDef && l.words.len() == 1 {
                        lemma_pass2_bounded(lines, i + 1, sec, wc, jt, dt);
                    } else {
                        lemma_pass2_bounded(lines, i + 1, sec, (wc + 1) as u32, jt, dt);
                        let ps = spec_pass2_from(lines, i, sec, wc, jt, dt)->Ok_0;
                        let rest = spec_pass2_from(lines, i + 1, sec, (wc + 1) as u32, jt, dt)->Ok_0;
                        assert forall|k: int| 0 <= k < ps.len() implies (#[trigger] ps[k]).0
                            < 256 by {
                            if k > 0 {
                                assert(ps[k] == rest[k - 1]);
                            }
                        }
                    }
                },
            }
        }
    }
}

proof fn lemma_data_vals_bounded(words: Seq<Seq<u8>>, j: int, dc: u32, line: usize)
    requires
        spec_data_vals(words, j, dc, line) is Ok,
    ensures
        ({
            let ps = spec_data_vals(words, j, dc, line)->Ok_0.0;
            forall|k: int| 0 <= k < ps.len() ==> (#[trigger] ps[k]).0 < 256
        }),
    decreases words.len() - j,
{
    if 0 <= j && j < words.len() {
        match spec_parse_token(words[j]) {
            Token::Imm => match crate::token::spec_imm_val(words[j]) {
                Some(_) => {
                    lemma_data_vals_bounded(words, j + 1, (dc + 1) as u32, line);
                    let ps = spec_data_vals(words, j, dc, line)->Ok_0.0;
                    let rest = spec_data_vals(words, j + 1, (dc + 1) as u32, line)->Ok_0.0;
                    assert forall|k: int| 0 <= k < ps.len() implies (#[trigger] ps[k]).0 < 256 by {
                        if k > 0 {
                            assert(ps[k] == rest[k - 1]);
                        }
                    }
                },
                None => {},
            },
            _ => {},
        }
    }
}

proof fn lemma_pass3_bounded(lines: Seq<LineV>, i: int, sec: Section, dc: u32)
    requires
        spec_pass3_from(lines, i, sec, dc) is Ok,
    ensures
        ({
            let ps = spec_pass3_from(lines, i, sec, dc)->Ok_0;
            forall|k: int| 0 <= k < ps.len() ==> (#[trigger] ps[k]).0 < 256
        }),
    decreases lines.len() - i,
{
    if 0 <= i && i < lines.len() {
        let l = lines[i];
        if l.words.len() == 0 {
            lemma_pass3_bounded(lines, i + 1, sec, dc);
        } else {
            match spec_parse_first_token(l.words[0]) {
                Token::Dir(Directive::Data) => lemma_pass3_bounded(lines, i + 1, Section::Data, 0),
                Token::Dir(Directive::Text) => lemma_pass3_bounded(lines, i + 1, Section::Text, dc),
                Token::Dir(Directive::Globl) => lemma_pass3_bounded(lines, i + 1, sec, dc),
                t0 => {
                    if sec != Section::Data {
                        lemma_pass3_bounded(lines, i + 1, sec, dc);
                    } else if t0 == Token::LabelDef && l.words.len() >= 2 {
                        match spec_parse_token(l.words[1]) {
                            Token::Dir(Directive::Space) => {
                                lemma_pass3_bounded(lines, i + 1, sec, (dc + 1) as u32);
                                let ps = spec_pass3_from(lines, i, sec, dc)->Ok_0;
                                let rest = spec_pass3_from(lines, i + 1, sec, (dc + 1) as u32)->Ok_0;
                                assert forall|k: int| 0 <= k < ps.len() implies (#[trigger] ps[k]).0
                                    < 256 by {
                                    if k > 0 {
                                        assert(ps[k] == rest[k - 1]);
                                    }
                                }
                            },
                            Token::Dir(Directive::Word) => {
                                let pr = spec_data_vals(l.words, 2, dc, l.no as usize)->Ok_0;
                                lemma_data_vals_bounded(l.words, 2, dc, l.no as usize);
                                lemma_pass3_bounded(lines, i + 1, sec, pr.1);
                                let ps = spec_pass3_from(lines, i, sec, dc)->Ok_0;
                                let rest = spec_pass3_from(lines, i + 1, sec, pr.1)->Ok_0;
                                assert forall|k: int| 0 <= k < ps.len() implies (#[trigger] ps[k]).0
                                    < 256 by {
                                    if k >= pr.0.len() {
                                        assert(ps[k] == rest[k - pr.0.len()]);
                                    } else {
                                        assert(ps[k] == pr.0[k]);
                                    }
                                }
                            },
                            _ => {},
                        }
                    }
                },
            }
        }
    }
}

/// LAW (capacity): the accepted programs fit the fixed memory depth; every
/// emitted instruction address and data address is below 256.
pub proof fn lemma_capacity(src: Seq<u8>)
    requires
        spec_assemble(src) is Ok,
    ensures
        ({
            let o = spec_assemble(src)->Ok_0;
            (forall|k: int| 0 <= k < o.instrs.len() ==> (#[trigger] o.instrs[k]).0 < 256)
                && (forall|k: int| 0 <= k < o.data.len() ==> (#[trigger] o.data[k]).0 < 256)
        }),
{
    let tabs = spec_pass1(spec_clean(src))->Ok_0;
    lemma_pass2_bounded(spec_clean(src), 0, Section::Global, 0, tabs.jt, tabs.dt);
    lemma_pass3_bounded(spec_clean(src), 0, Section::Global, 0);
}

proof fn lemma_reg_bound(w: Seq<u8>, r: u8)
    requires
        spec_parse_token(w) == Token::Reg(r),
    ensures
        r < 32,
{
}

/// LAW (branch offset): a `beq` whose register operands resolve and whose
/// third operand is a jump label bound to word index `m`, encoded with the
/// advanced word counter `wc` (one past the branch's own word index), carries
/// `(m - wc) mod 2^16` in its lower 16 bits and its opcode, 0x04, in bits
/// 31..26.
pub proof fn lemma_branch_offset(
    w0: Seq<u8>,
    w1: Seq<u8>,
    w2: Seq<u8>,
    lbl: Seq<u8>,
    jt: Seq<(Seq<u8>, u32)>,
    dt: Seq<(Seq<u8>, u32)>,
    wc: u32,
    m: u32,
    r1: u8,
    r2: u8,
    line: usize,
)
    requires
        spec_mnemonic(w0) == Some(Mnemonic::Beq),
        spec_parse_token(w1) == Token::Reg(r1),
        spec_parse_token(w2) == Token::Reg(r2),
        spec_parse_token(lbl) == Token::NotFound,
        spec_lookup(dt, lbl) is None,
        spec_lookup(jt, lbl) == Some(m),
    ensures
        spec_encode_instr(seq![w0, w1, w2, lbl], 0, jt, dt, wc, line) is Ok,
        ({
            let word = spec_encode_instr(seq![w0, w1, w2, lbl], 0, jt, dt, wc, line)->Ok_0;
            (word & 0xFFFF) as int == (m as int - wc as int) % 0x10000 && (word >> 26) == 0x04
        }),
{
    let words = seq![w0, w1, w2, lbl];
    lemma_reg_bound(w1, r1);
    lemma_reg_bound(w2, r2);
    let f0 = empty_fields();
    let r1v = r1 as u32;
    let r2v = r2 as u32;
    let f1 = Fields { rt: Some(r1v << 16u32), ..f0 };
    let f2 = Fields { rs: Some(r2v << 21u32), ..f1 };
    let d = spec_wrap_sub(m, wc);
    let imm = spec_branch_imm(m, wc);
    let f3 = Fields { imm: Some(imm), ..f2 };
    assert(spec_operand_i(f0, w1, jt, dt, wc, line) == Ok::<Fields, AsmError>(f1));
    assert(spec_operand_i(f1, w2, jt, dt, wc, line) == Ok::<Fields, AsmError>(f2));
    assert(spec_operand_i(f2, lbl, jt, dt, wc, line) == Ok::<Fields, AsmError>(f3));
    assert(spec_operands(Mnemonic::Beq, words, 1, f0, jt, dt, wc, line) == Ok::<Fields, AsmError>(
        f3,
    )) by {
        reveal_with_fuel(spec_operands, 5);
    }
    let word = spec_word_of(0x04u32 << 26, f3);
    assert(spec_encode_instr(words, 0, jt, dt, wc, line) == Ok::<u32, AsmError>(word));
    assert(imm == d % 0x10000 && imm < 0x10000) by (bit_vector)
        requires
            imm == (d & 0xFFFF),
    ;
    assert((word & 0xFFFF) == imm && (word >> 26) == 0x04u32) by (bit_vector)
        requires
            word == (0x04u32 << 26) | (r2v << 21u32) | (r1v << 16u32) | 0u32 | 0u32 | imm,
            r1v < 32,
            r2v < 32,
            imm < 0x10000,
    ;
    let e = m as int - wc as int;
    if e >= 0 {
        lemma_small_mod(e as nat, 0x1_0000_0000nat);
        assert(d == e);
    } else {
        lemma_mod_multiples_vanish(1, e, 0x1_0000_0000);
        lemma_small_mod((e + 0x1_0000_0000) as nat, 0x1_0000_0000nat);
        assert(d == e + 0x1_0000_0000);
        lemma_mod_multiples_vanish(0x10000, e, 0x10000);
        assert((0x10000 * 0x10000 + e) % 0x10000 == e % 0x10000);
    }
    assert(d as int % 0x10000 == e % 0x10000);
}

/// LAW (jump target): a `j` whose sole operand is a jump label bound to word
/// index `m` encodes `m & 0x3FFFFFF` in its lower 26 bits and its opcode,
/// 0x02, in bits 31..26.
pub proof fn lemma_jump_target(
    w0: Seq<u8>,
    lbl: Seq<u8>,
    jt: Seq<(Seq<u8>, u32)>,
    dt: Seq<(Seq<u8>, u32)>,
    wc: u32,
    m: u32,
    line: usize,
)
    requires
        spec_mnemonic(w0) == Some(Mnemonic::J),
        spec_parse_token(lbl) == Token::NotFound,
        spec_lookup(jt, lbl) == Some(m),
    ensures
        spec_encode_instr(seq![w0, lbl], 0, jt, dt, wc, line) is Ok,
        ({
            let word = spec_encode_instr(seq![w0, lbl], 0, jt, dt, wc, line)->Ok_0;
            (word & 0x3FFFFFF) == (m & 0x3FFFFFF) && (word >> 26) == 0x02
        }),
{
    let words = seq![w0, lbl];
    let f0 = empty_fields();
    let imm = m & 0x3FFFFFF;
    let f1 = Fields { imm: Some(imm), ..f0 };
    assert(spec_operand_j(f0, lbl, jt, line) == Ok::<Fields, AsmError>(f1));
    assert(spec_operands(Mnemonic::J, words, 1, f0, jt, dt, wc, line) == Ok::<Fields, AsmError>(
        f1,
    )) by {
        reveal_with_fuel(spec_operands, 3);
    }
    let word = spec_word_of(0x02u32 << 26, f1);
    assert(spec_encode_instr(words, 0, jt, dt, wc, line) == Ok::<u32, AsmError>(word));
    assert((word & 0x3FFFFFF) == (m & 0x3FFFFFF) && (word >> 26) == 0x02u32) by (bit_vector)
        requires
            word == (0x02u32 << 26) | 0u32 | 0u32 | 0u32 | 0u32 | imm,
            imm == (m & 0x3FFFFFF),
    ;
}

/// LAW (idempotence): the assembler is a function of the source text alone;
/// two runs over equal sources yield identical images, so running it twice
/// produces byte-identical output.
pub proof fn lemma_assemble_deterministic(s1: Seq<u8>, s2: Seq<u8>)
    requires
        s1 == s2,
    ensures
        spec_assemble(s1) == spec_assemble(s2),
{
}

} // verus!
