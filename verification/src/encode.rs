//! Instruction encoding: resolves each operand of an instruction line and
//! packs opcode/function, registers, shift amount and immediate into one
//! 32-bit word, following the MIPS R/I/J field layout (opcode bits 31-26,
//! rs 25-21, rt 20-16, rd 15-11, shamt 10-6, func 5-0, immediate 15-0,
//! jump target 25-0).
use vstd::arithmetic::div_mod::{lemma_mod_multiples_vanish, lemma_small_mod};
use vstd::prelude::*;

use crate::err::AsmError;
use crate::table::{lookup, spec_lookup, tab_view};
use crate::token::{imm_val, parse_token, spec_imm_val, spec_mnemonic, spec_parse_token, spec_reg, Mnemonic, Token};

verus! {

/// Instruction format, carrying the fixed part of the encoded word:
/// the shifted opcode for I/J formats, the function code for R format.
#[derive(Clone, Copy, PartialEq, Eq, Structural, Debug)]
pub enum Format {
    I(u32),
    R(u32),
    J(u32),
}

/// The operand bit fields of one instruction, each stored already shifted
/// into its place in the word; `None` means the field was not set and
/// contributes zero.
#[derive(Clone, Copy, PartialEq, Eq, Structural, Debug)]
pub struct Fields {
    pub rs: Option<u32>,
    pub rt: Option<u32>,
    pub rd: Option<u32>,
    pub shamt: Option<u32>,
    pub imm: Option<u32>,
}

pub open spec fn empty_fields() -> Fields {
    Fields { rs: None, rt: None, rd: None, shamt: None, imm: None }
}

/// Format and fixed opcode/function code of each mnemonic.
pub open spec fn spec_format(m: Mnemonic) -> Format {
    match m {
        Mnemonic::Sw => Format::I(0x2Bu32 << 26),
        Mnemonic::Lw => Format::I(0x23u32 << 26),
        Mnemonic::Addi => Format::I(0x08u32 << 26),
        Mnemonic::Beq => Format::I(0x04u32 << 26),
        Mnemonic::Bne => Format::I(0x05u32 << 26),
        Mnemonic::And => Format::R(0x24),
        Mnemonic::Or => Format::R(0x25),
        Mnemonic::Add => Format::R(0x20),
        Mnemonic::Sub => Format::R(0x22),
        Mnemonic::Slt => Format::R(0x2A),
        Mnemonic::Srl => Format::R(0x02),
        Mnemonic::Sll => Format::R(0x00),
        Mnemonic::Jr => Format::R(0x08),
        Mnemonic::J => Format::J(0x02u32 << 26),
        Mnemonic::Jal => Format::J(0x03u32 << 26),
    }
}

pub fn format_of(m: Mnemonic) -> (r: Format)
    ensures
        r == spec_format(m),
{
    match m {
        Mnemonic::Sw => Format::I(0x2Bu32 << 26),
        Mnemonic::Lw => Format::I(0x23u32 << 26),
        Mnemonic::Addi => Format::I(0x08u32 << 26),
        Mnemonic::Beq => Format::I(0x04u32 << 26),
        Mnemonic::Bne => Format::I(0x05u32 << 26),
        Mnemonic::And => Format::R(0x24),
        Mnemonic::Or => Format::R(0x25),
        Mnemonic::Add => Format::R(0x20),
        Mnemonic::Sub => Format::R(0x22),
        Mnemonic::Slt => Format::R(0x2A),
        Mnemonic::Srl => Format::R(0x02),
        Mnemonic::Sll => Format::R(0x00),
        Mnemonic::Jr => Format::R(0x08),
        Mnemonic::J => Format::J(0x02u32 << 26),
        Mnemonic::Jal => Format::J(0x03u32 << 26),
    }
}

/// Subtraction modulo 2^32.
pub open spec fn spec_wrap_sub(a: u32, b: u32) -> u32 {
    (((a as int) - (b as int)) % 0x1_0000_0000) as u32
}

pub fn wrap_sub(a: u32, b: u32) -> (r: u32)
    ensures
        r == spec_wrap_sub(a, b),
{
    if a >= b {
        proof {
            lemma_small_mod((a - b) as nat, 0x1_0000_0000nat);
        }
        a - b
    } else {
        let d = b - a;
        proof {
            lemma_mod_multiples_vanish(1, a as int - b as int, 0x1_0000_0000);
            lemma_small_mod((a as int - b as int + 0x1_0000_0000) as nat, 0x1_0000_0000nat);
        }
        (0xFFFF_FFFFu32 - d) + 1
    }
}

/// Addition modulo 2^32.
pub open spec fn spec_wrap_add(a: u32, b: u32) -> u32 {
    (((a as int) + (b as int)) % 0x1_0000_0000) as u32
}

pub fn wrap_add(a: u32, b: u32) -> (r: u32)
    ensures
        r == spec_wrap_add(a, b),
{
    if b <= u32::MAX - a {
        proof {
            lemma_small_mod((a + b) as nat, 0x1_0000_0000nat);
        }
        a + b
    } else {
        proof {
            lemma_mod_multiples_vanish(-1, a as int + b as int, 0x1_0000_0000);
            lemma_small_mod((a as int + b as int - 0x1_0000_0000) as nat, 0x1_0000_0000nat);
        }
        (b - (u32::MAX - a)) - 1
    }
}

/// The PC-relative branch immediate: the word distance from the already
/// advanced word counter to the target, masked to 16 bits.
pub open spec fn spec_branch_imm(target: u32, wc: u32) -> u32 {
    spec_wrap_sub(target, wc) & 0xFFFF
}

/// First index at or after `i` whose byte is `b`, or the end.
pub open spec fn find_from(s: Seq<u8>, i: int, b: u8) -> int
    decreases s.len() - i,
{
    if i < 0 || i >= s.len() {
        s.len() as int
    } else if s[i] == b {
        i
    } else {
        find_from(s, i + 1, b)
    }
}

/// Finds the first occurrence of `b` in `w`, or `w.len()`.
pub fn find_byte(w: &[u8], b: u8) -> (r: usize)
    ensures
        r == find_from(w@, 0, b),
        r <= w@.len(),
{
    let mut i: usize = 0;
    while i < w.len() && w[i] != b
        invariant
            i <= w@.len(),
            find_from(w@, 0, b) == find_from(w@, i as int, b),
        decreases w@.len() - i,
    {
        assert(find_from(w@, i as int, b) == find_from(w@, i + 1, b));
        i = i + 1;
    }
    assert(find_from(w@, i as int, b) == i as int);
    i
}

/// Copies `w[a..b]` into a fresh vector.
pub fn copy_range(w: &[u8], a: usize, b: usize) -> (r: Vec<u8>)
    requires
        a <= b <= w@.len(),
    ensures
        r@ == w@.subrange(a as int, b as int),
{
    let mut out: Vec<u8> = Vec::new();
    let mut i: usize = a;
    assert(out@ =~= w@.subrange(a as int, a as int));
    while i < b
        invariant
            a <= i <= b <= w@.len(),
            out@ == w@.subrange(a as int, i as int),
        decreases b - i,
    {
        out.push(w[i]);
        assert(w@.subrange(a as int, i as int).push(w@[i as int]) =~= w@.subrange(a as int, i + 1));
        i = i + 1;
    }
    out
}

/// Resolves an I-format operand that is neither a register nor a numeric
/// immediate: a data label (word-aligned address), a jump label (branch
/// offset), or a memory-offset expression `pre(base)` where the base in
/// parentheses is a register (offset part: data label or number) or a data
/// label (offset part: a number, added to the label's word address).
pub open spec fn spec_resolve_ref(
    f: Fields,
    w: Seq<u8>,
    jt: Seq<(Seq<u8>, u32)>,
    dt: Seq<(Seq<u8>, u32)>,
    wc: u32,
    line: usize,
) -> Result<Fields, AsmError> {
    match spec_lookup(dt, w) {
        Some(off) => Ok(Fields { imm: Some(off >> 2u32), ..f }),
        None => match spec_lookup(jt, w) {
            Some(t) => Ok(Fields { imm: Some(spec_branch_imm(t, wc)), ..f }),
            None => {
                let p = find_from(w, 0, '(' as u8);
                let q = find_from(w, 0, ')' as u8);
                if p < w.len() && q < w.len() {
                    if p + 1 <= q {
                        let base = w.subrange(p + 1, q);
                        let pre = w.subrange(0, p);
                        match spec_reg(base) {
                            Some(r) => match spec_lookup(dt, pre) {
                                Some(off) => Ok(
                                    Fields {
                                        rs: Some((r as u32) << 21u32),
                                        imm: Some(off >> 2u32),
                                        ..f
                                    },
                                ),
                                None => match spec_imm_val(pre) {
                                    Some(n) => Ok(
                                        Fields { rs: Some((r as u32) << 21u32), imm: Some(n), ..f },
                                    ),
                                    None => Err(AsmError::UnknownLabel { line }),
                                },
                            },
                            None => match spec_lookup(dt, base) {
                                Some(off) => match spec_imm_val(pre) {
                                    Some(n) => Ok(
                                        Fields { imm: Some(spec_wrap_add(off >> 2u32, n)), ..f },
                                    ),
                                    None => Err(AsmError::BadOperand { line }),
                                },
                                None => Err(AsmError::UnknownLabel { line }),
                            },
                        }
                    } else {
                        Err(AsmError::BadOperand { line })
                    }
                } else {
                    Err(AsmError::UnknownLabel { line })
                }
            },
        },
    }
}

/// One I-format operand: the first register fills `rt`, later ones `rs`;
/// a numeric token fills the immediate; an unknown word is resolved as a
/// label reference or memory-offset expression.
pub open spec fn spec_operand_i(
    f: Fields,
    w: Seq<u8>,
    jt: Seq<(Seq<u8>, u32)>,
    dt: Seq<(Seq<u8>, u32)>,
    wc: u32,
    line: usize,
) -> Result<Fields, AsmError> {
    match spec_parse_token(w) {
        Token::Reg(r) => if f.rt is Some {
            Ok(Fields { rs: Some((r as u32) << 21u32), ..f })
        } else {
            Ok(Fields { rt: Some((r as u32) << 16u32), ..f })
        },
        Token::Imm => match spec_imm_val(w) {
            Some(v) => Ok(Fields { imm: Some(v), ..f }),
            None => Err(AsmError::BadOperand { line }),
        },
        Token::NotFound => spec_resolve_ref(f, w, jt, dt, wc, line),
        _ => Err(AsmError::BadOperand { line }),
    }
}

/// One R-format operand: registers fill `rd`, then `rs`, then `rt`
/// (shifts fill `rt` right after `rd`; `jr` starts with `rs`); a numeric
/// token is the shift amount, which must be below 32.
pub open spec fn spec_operand_r(m: Mnemonic, f: Fields, w: Seq<u8>, line: usize) -> Result<
    Fields,
    AsmError,
> {
    match spec_parse_token(w) {
        Token::Reg(r) => if f.rs is Some || (f.rd is Some && (m == Mnemonic::Sll || m
            == Mnemonic::Srl)) {
            Ok(Fields { rt: Some((r as u32) << 16u32), ..f })
        } else if f.rd is Some || m == Mnemonic::Jr {
            Ok(Fields { rs: Some((r as u32) << 21u32), ..f })
        } else {
            Ok(Fields { rd: Some((r as u32) << 11u32), ..f })
        },
        Token::Imm => match spec_imm_val(w) {
            Some(v) => if v < 32 {
                Ok(Fields { shamt: Some(v << 6u32), ..f })
            } else {
                Err(AsmError::BadOperand { line })
            },
            None => Err(AsmError::BadOperand { line }),
        },
        _ => Err(AsmError::BadOperand { line }),
    }
}

/// One J-format operand: the sole operand must be a jump label; its absolute
/// word index, masked to 26 bits, fills the target field.
pub open spec fn spec_operand_j(
    f: Fields,
    w: Seq<u8>,
    jt: Seq<(Seq<u8>, u32)>,
    line: usize,
) -> Result<Fields, AsmError> {
    match spec_parse_token(w) {
        Token::NotFound => match spec_lookup(jt, w) {
            Some(t) => Ok(Fields { imm: Some(t & 0x3FFFFFF), ..f }),
            None => Err(AsmError::UnknownLabel { line }),
        },
        _ => Err(AsmError::BadOperand { line }),
    }
}

/// Folds the operands `words[j..]` into the fields, dispatching on format.
pub open spec fn spec_operands(
    m: Mnemonic,
    words: Seq<Seq<u8>>,
    j: int,
    f: Fields,
    jt: Seq<(Seq<u8>, u32)>,
    dt: Seq<(Seq<u8>, u32)>,
    wc: u32,
    line: usize,
) -> Result<Fields, AsmError>
    decreases words.len() - j,
{
    if j < 0 || j >= words.len() {
        Ok(f)
    } else {
        let step = match spec_format(m) {
            Format::I(_) => spec_operand_i(f, words[j], jt, dt, wc, line),
            Format::R(_) => spec_operand_r(m, f, words[j], line),
            Format::J(_) => spec_operand_j(f, words[j], jt, line),
        };
        match step {
            Ok(f2) => spec_operands(m, words, j + 1, f2, jt, dt, wc, line),
            Err(e) => Err(e),
        }
    }
}

pub open spec fn opt0(x: Option<u32>) -> u32 {
    match x {
        Some(v) => v,
        None => 0,
    }
}

/// The encoded word: fixed part OR all set fields.
pub open spec fn spec_word_of(base: u32, f: Fields) -> u32 {
    base | opt0(f.rs) | opt0(f.rt) | opt0(f.rd) | opt0(f.shamt) | opt0(f.imm)
}

/// Encodes the instruction held in `words[start..]`. `wc` is the word
/// counter after counting this instruction, as branch offsets require.
pub open spec fn spec_encode_instr(
    words: Seq<Seq<u8>>,
    start: int,
    jt: Seq<(Seq<u8>, u32)>,
    dt: Seq<(Seq<u8>, u32)>,
    wc: u32,
    line: usize,
) -> Result<u32, AsmError> {
    match spec_mnemonic(words[start]) {
        None => Err(AsmError::UnknownMnemonic { line }),
        Some(m) => {
            let base = match spec_format(m) {
                Format::I(b) => b,
                Format::R(b) => b,
                Format::J(b) => b,
            };
            match spec_operands(m, words, start + 1, empty_fields(), jt, dt, wc, line) {
                Ok(f) => Ok(spec_word_of(base, f)),
                Err(e) => Err(e),
            }
        },
    }
}

fn resolve_ref(
    f: Fields,
    w: &[u8],
    jt: &Vec<(Vec<u8>, u32)>,
    dt: &Vec<(Vec<u8>, u32)>,
    wc: u32,
    line: usize,
) -> (r: Result<Fields, AsmError>)
    ensures
        r == spec_resolve_ref(f, w@, tab_view(jt@), tab_view(dt@), wc, line),
{
    if let Some(off) = lookup(dt, w) {
        return Ok(Fields { imm: Some(off >> 2u32), ..f });
    }
    if let Some(t) = lookup(jt, w) {
        let b = wrap_sub(t, wc) & 0xFFFF;
        return Ok(Fields { imm: Some(b), ..f });
    }
    let p = find_byte(w, '(' as u8);
    let q = find_byte(w, ')' as u8);
    if p < w.len() && q < w.len() {
        if p + 1 <= q {
            let base = copy_range(w, p + 1, q);
            let pre = copy_range(w, 0, p);
            match crate::token::reg_of(base.as_slice()) {
                Some(r) => {
                    if let Some(off) = lookup(dt, pre.as_slice()) {
                        Ok(Fields { rs: Some((r as u32) << 21u32), imm: Some(off >> 2u32), ..f })
                    } else {
                        match imm_val(pre.as_slice()) {
                            Some(n) => Ok(
                                Fields { rs: Some((r as u32) << 21u32), imm: Some(n), ..f },
                            ),
                            None => Err(AsmError::UnknownLabel { line }),
                        }
                    }
                },
                None => {
                    if let Some(off) = lookup(dt, base.as_slice()) {
                        match imm_val(pre.as_slice()) {
                            Some(n) => Ok(Fields { imm: Some(wrap_add(off >> 2u32, n)), ..f }),
                            None => Err(AsmError::BadOperand { line }),
                        }
                    } else {
                        Err(AsmError::UnknownLabel { line })
                    }
                },
            }
        } else {
            Err(AsmError::BadOperand { line })
        }
    } else {
        Err(AsmError::UnknownLabel { line })
    }
}

fn operand_i(
    f: Fields,
    w: &[u8],
    jt: &Vec<(Vec<u8>, u32)>,
    dt: &Vec<(Vec<u8>, u32)>,
    wc: u32,
    line: usize,
) -> (r: Result<Fields, AsmError>)
    ensures
        r == spec_operand_i(f, w@, tab_view(jt@), tab_view(dt@), wc, line),
{
    match parse_token(w) {
        Token::Reg(r) => if f.rt.is_some() {
            Ok(Fields { rs: Some((r as u32) << 21u32), ..f })
        } else {
            Ok(Fields { rt: Some((r as u32) << 16u32), ..f })
        },
        Token::Imm => match imm_val(w) {
            Some(v) => Ok(Fields { imm: Some(v), ..f }),
            None => Err(AsmError::BadOperand { line }),
        },
        Token::NotFound => resolve_ref(f, w, jt, dt, wc, line),
        _ => Err(AsmError::BadOperand { line }),
    }
}

fn operand_r(m: Mnemonic, f: Fields, w: &[u8], line: usize) -> (r: Result<Fields, AsmError>)
    ensures
        r == spec_operand_r(m, f, w@, line),
{
    match parse_token(w) {
        Token::Reg(r) => {
            let is_shift = match m {
                Mnemonic::Sll => true,
                Mnemonic::Srl => true,
                _ => false,
            };
            let is_jr = match m {
                Mnemonic::Jr => true,
                _ => false,
            };
            if f.rs.is_some() || (f.rd.is_some() && is_shift) {
                Ok(Fields { rt: Some((r as u32) << 16u32), ..f })
            } else if f.rd.is_some() || is_jr {
                Ok(Fields { rs: Some((r as u32) << 21u32), ..f })
            } else {
                Ok(Fields { rd: Some((r as u32) << 11u32), ..f })
            }
        },
        Token::Imm => match imm_val(w) {
            Some(v) => if v < 32 {
                Ok(Fields { shamt: Some(v << 6u32), ..f })
            } else {
                Err(AsmError::BadOperand { line })
            },
            None => Err(AsmError::BadOperand { line }),
        },
        _ => Err(AsmError::BadOperand { line }),
    }
}

fn operand_j(f: Fields, w: &[u8], jt: &Vec<(Vec<u8>, u32)>, line: usize) -> (r: Result<
    Fields,
    AsmError,
>)
    ensures
        r == spec_operand_j(f, w@, tab_view(jt@), line),
{
    match parse_token(w) {
        Token::NotFound => match lookup(jt, w) {
            Some(t) => Ok(Fields { imm: Some(t & 0x3FFFFFF), ..f }),
            None => Err(AsmError::UnknownLabel { line }),
        },
        _ => Err(AsmError::BadOperand { line }),
    }
}

/// Encodes one instruction line, the instruction starting at `words[start]`.
pub fn encode_instr(
    words: &Vec<Vec<u8>>,
    start: usize,
    jt: &Vec<(Vec<u8>, u32)>,
    dt: &Vec<(Vec<u8>, u32)>,
    wc: u32,
    line: usize,
) -> (r: Result<u32, AsmError>)
    requires
        start < words@.len(),
    ensures
        r == spec_encode_instr(
            crate::lines::words_view(words@),
            start as int,
            tab_view(jt@),
            tab_view(dt@),
            wc,
            line,
        ),
{
    let ghost wv = crate::lines::words_view(words@);
    assert(wv[start as int] == words@[start as int]@);
    let m = match crate::token::mnemonic_of(words[start].as_slice()) {
        Some(m) => m,
        None => {
            return Err(AsmError::UnknownMnemonic { line });
        },
    };
    let base = match format_of(m) {
        Format::I(b) => b,
        Format::R(b) => b,
        Format::J(b) => b,
    };
    let mut f = empty_fields_exec();
    let n = words.len();
    let mut j: usize = start + 1;
    while j < n
        invariant
            start < words@.len(),
            start + 1 <= j <= n == words@.len(),
            wv == crate::lines::words_view(words@),
            wv.len() == words@.len(),
            spec_mnemonic(wv[start as int]) == Some(m),
            base == match spec_format(m) {
                Format::I(b) => b,
                Format::R(b) => b,
                Format::J(b) => b,
            },
            spec_operands(m, wv, start + 1, empty_fields(), tab_view(jt@), tab_view(dt@), wc, line)
                == spec_operands(m, wv, j as int, f, tab_view(jt@), tab_view(dt@), wc, line),
        decreases words@.len() - j,
    {
        assert(wv[j as int] == words@[j as int]@);
        let step = match format_of(m) {
            Format::I(_) => operand_i(f, words[j].as_slice(), jt, dt, wc, line),
            Format::R(_) => operand_r(m, f, words[j].as_slice(), line),
            Format::J(_) => operand_j(f, words[j].as_slice(), jt, line),
        };
        match step {
            Ok(f2) => {
                f = f2;
            },
            Err(e) => {
                return Err(e);
            },
        }
        j = j + 1;
    }
    let word = base | opt0_exec(f.rs) | opt0_exec(f.rt) | opt0_exec(f.rd) | opt0_exec(f.shamt)
        | opt0_exec(f.imm);
    Ok(word)
}

fn empty_fields_exec() -> (r: Fields)
    ensures
        r == empty_fields(),
{
    Fields { rs: None, rt: None, rd: None, shamt: None, imm: None }
}

fn opt0_exec(x: Option<u32>) -> (r: u32)
    ensures
        r == opt0(x),
{
    match x {
        Some(v) => v,
        None => 0,
    }
}

} // verus!
