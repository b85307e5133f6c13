//! Tokenizer: classifies one whitespace/comma-delimited word of MIPS assembly
//! as a register, mnemonic, immediate, directive, label definition, or unknown.
use vstd::prelude::*;

verus! {

/// The fifteen instruction mnemonics the assembler supports.
#[derive(Clone, Copy, PartialEq, Eq, Structural, Debug)]
pub enum Mnemonic {
    Sw,
    Lw,
    Addi,
    Beq,
    Bne,
    And,
    Or,
    Add,
    Sub,
    Slt,
    Srl,
    Sll,
    Jr,
    J,
    Jal,
}

/// The five directives the assembler recognises.
#[derive(Clone, Copy, PartialEq, Eq, Structural, Debug)]
pub enum Directive {
    Globl,
    Text,
    Data,
    Word,
    Space,
}

/// Classification of one word of source text.
#[derive(Clone, Copy, PartialEq, Eq, Structural, Debug)]
pub enum Token {
    /// A register name; the payload is its index, 0..=31.
    Reg(u8),
    /// An instruction mnemonic.
    Mn(Mnemonic),
    /// An immediate literal (decimal fitting in 16 signed bits, or `0x` hex fitting in 32 bits).
    Imm,
    /// A directive (word starting with `.`).
    Dir(Directive),
    /// A label definition (word ending in `:`).
    LabelDef,
    /// Anything else; resolved contextually as a label reference downstream.
    NotFound,
}

pub open spec fn is_digit(b: u8) -> bool {
    ('0' as u8) <= b <= ('9' as u8)
}

pub open spec fn digit_val(b: u8) -> int {
    b - ('0' as u8)
}

pub open spec fn is_hex_digit(b: u8) -> bool {
    is_digit(b) || (('a' as u8) <= b <= ('f' as u8)) || (('A' as u8) <= b <= ('F' as u8))
}

pub open spec fn hex_digit_val(b: u8) -> int {
    if is_digit(b) {
        b - ('0' as u8)
    } else if ('a' as u8) <= b <= ('f' as u8) {
        b - ('a' as u8) + 10
    } else {
        b - ('A' as u8) + 10
    }
}

/// All bytes of `s[start..end]` are decimal digits.
pub open spec fn digits_range(s: Seq<u8>, start: int, end: int) -> bool {
    forall|j: int| start <= j < end ==> is_digit(#[trigger] s[j])
}

/// All bytes of `s[start..end]` are hex digits.
pub open spec fn hex_digits_range(s: Seq<u8>, start: int, end: int) -> bool {
    forall|j: int| start <= j < end ==> is_hex_digit(#[trigger] s[j])
}

/// Value of the decimal digit string `s[start..i]`, most significant digit first.
pub open spec fn dec_val_prefix(s: Seq<u8>, start: int, i: int) -> int
    decreases i - start,
{
    if i <= start {
        0
    } else {
        dec_val_prefix(s, start, i - 1) * 10 + digit_val(s[i - 1])
    }
}

/// Value of the hex digit string `s[start..i]`, most significant digit first.
pub open spec fn hex_val_prefix(s: Seq<u8>, start: int, i: int) -> int
    decreases i - start,
{
    if i <= start {
        0
    } else {
        hex_val_prefix(s, start, i - 1) * 16 + hex_digit_val(s[i - 1])
    }
}

/// Value of the decimal digit string `s[start..]`.
pub open spec fn dec_val(s: Seq<u8>, start: int) -> int {
    dec_val_prefix(s, start, s.len() as int)
}

/// Value of the hex digit string `s[start..]`.
pub open spec fn hex_val(s: Seq<u8>, start: int) -> int {
    hex_val_prefix(s, start, s.len() as int)
}

proof fn lemma_dec_val_nonneg(s: Seq<u8>, start: int, i: int)
    requires
        digits_range(s, start, i),
    ensures
        dec_val_prefix(s, start, i) >= 0,
    decreases i - start,
{
    if i > start {
        lemma_dec_val_nonneg(s, start, i - 1);
    }
}

/// The value of a longer digit prefix is at least the value of a shorter one.
proof fn lemma_dec_val_mono(s: Seq<u8>, start: int, i: int, j: int)
    requires
        digits_range(s, start, j),
        start <= i <= j,
    ensures
        dec_val_prefix(s, start, i) <= dec_val_prefix(s, start, j),
    decreases j - i,
{
    if i < j {
        lemma_dec_val_mono(s, start, i, j - 1);
        lemma_dec_val_nonneg(s, start, j - 1);
    }
}

proof fn lemma_hex_val_nonneg(s: Seq<u8>, start: int, i: int)
    requires
        hex_digits_range(s, start, i),
    ensures
        hex_val_prefix(s, start, i) >= 0,
    decreases i - start,
{
    if i > start {
        lemma_hex_val_nonneg(s, start, i - 1);
    }
}

proof fn lemma_hex_val_mono(s: Seq<u8>, start: int, i: int, j: int)
    requires
        hex_digits_range(s, start, j),
        start <= i <= j,
    ensures
        hex_val_prefix(s, start, i) <= hex_val_prefix(s, start, j),
    decreases j - i,
{
    if i < j {
        lemma_hex_val_mono(s, start, i, j - 1);
        lemma_hex_val_nonneg(s, start, j - 1);
    }
}

/// Parses `s[start..]` as an unsigned decimal number.
/// Returns `Some` exactly when the range is non-empty, all digits, and the value is `<= bound`.
pub fn parse_dec_bounded(s: &[u8], start: usize, bound: u32) -> (r: Option<u32>)
    requires
        start <= s@.len(),
    ensures
        match r {
            Some(v) => start < s@.len() && digits_range(s@, start as int, s@.len() as int)
                && v == dec_val(s@, start as int) && v <= bound,
            None => !(start < s@.len() && digits_range(s@, start as int, s@.len() as int)
                && dec_val(s@, start as int) <= bound),
        },
{
    if start >= s.len() {
        return None;
    }
    let mut i: usize = start;
    let mut acc: u64 = 0;
    while i < s.len()
        invariant
            start <= i <= s@.len(),
            digits_range(s@, start as int, i as int),
            acc == dec_val_prefix(s@, start as int, i as int),
            acc <= bound,
        decreases s@.len() - i,
    {
        let b = s[i];
        if b < ('0' as u8) || b > ('9' as u8) {
            return None;
        }
        let acc2: u64 = acc * 10 + ((b - ('0' as u8)) as u64);
        assert(acc2 == dec_val_prefix(s@, start as int, i + 1));
        if acc2 > bound as u64 {
            proof {
                if digits_range(s@, start as int, s@.len() as int) {
                    lemma_dec_val_mono(s@, start as int, i + 1, s@.len() as int);
                }
            }
            return None;
        }
        acc = acc2;
        i = i + 1;
    }
    Some(acc as u32)
}

/// Parses `s[start..]` as a hex number (digits only, no prefix).
/// Returns `Some` exactly when the range is non-empty, all hex digits, and the value fits in 32 bits.
pub fn parse_hex_bounded(s: &[u8], start: usize) -> (r: Option<u32>)
    requires
        start <= s@.len(),
    ensures
        match r {
            Some(v) => start < s@.len() && hex_digits_range(s@, start as int, s@.len() as int)
                && v == hex_val(s@, start as int),
            None => !(start < s@.len() && hex_digits_range(s@, start as int, s@.len() as int)
                && hex_val(s@, start as int) <= 0xFFFFFFFF),
        },
{
    if start >= s.len() {
        return None;
    }
    let mut i: usize = start;
    let mut acc: u64 = 0;
    while i < s.len()
        invariant
            start <= i <= s@.len(),
            hex_digits_range(s@, start as int, i as int),
            acc == hex_val_prefix(s@, start as int, i as int),
            acc <= 0xFFFFFFFF,
        decreases s@.len() - i,
    {
        let b = s[i];
        let d: u64 = if ('0' as u8) <= b && b <= ('9' as u8) {
            (b - ('0' as u8)) as u64
        } else if ('a' as u8) <= b && b <= ('f' as u8) {
            ((b - ('a' as u8)) + 10) as u64
        } else if ('A' as u8) <= b && b <= ('F' as u8) {
            ((b - ('A' as u8)) + 10) as u64
        } else {
            proof {
                assert(!is_hex_digit(s@[i as int]));
            }
            return None;
        };
        let acc2: u64 = acc * 16 + d;
        assert(acc2 == hex_val_prefix(s@, start as int, i + 1));
        if acc2 > 0xFFFFFFFF {
            proof {
                if hex_digits_range(s@, start as int, s@.len() as int) {
                    lemma_hex_val_mono(s@, start as int, i + 1, s@.len() as int);
                }
            }
            return None;
        }
        acc = acc2;
        i = i + 1;
    }
    Some(acc as u32)
}

/// Token is a decimal literal fitting a signed 16-bit value (optional `+`/`-` sign).
pub open spec fn is_dec_i16_tok(z: Seq<u8>) -> bool {
    if z.len() == 0 {
        false
    } else if z[0] == ('+' as u8) {
        z.len() > 1 && digits_range(z, 1, z.len() as int) && dec_val(z, 1) <= 32767
    } else if z[0] == ('-' as u8) {
        z.len() > 1 && digits_range(z, 1, z.len() as int) && dec_val(z, 1) <= 32768
    } else {
        digits_range(z, 0, z.len() as int) && dec_val(z, 0) <= 32767
    }
}

/// Token is `0x` followed by hex digits whose value fits in 32 bits.
pub open spec fn is_hex_tok(z: Seq<u8>) -> bool {
    z.len() >= 3 && z[0] == ('0' as u8) && z[1] == ('x' as u8) && hex_digits_range(z, 2, z.len() as int)
        && hex_val(z, 2) <= 0xFFFFFFFF
}

/// Token is an unsigned decimal literal fitting in 32 bits (optional `+` sign).
pub open spec fn is_dec_u32_tok(z: Seq<u8>) -> bool {
    if z.len() == 0 {
        false
    } else if z[0] == ('+' as u8) {
        z.len() > 1 && digits_range(z, 1, z.len() as int) && dec_val(z, 1) <= 0xFFFFFFFF
    } else {
        digits_range(z, 0, z.len() as int) && dec_val(z, 0) <= 0xFFFFFFFF
    }
}

/// The 32-bit value an immediate operand denotes: hex if `0x`-prefixed, else unsigned decimal.
/// `None` for anything else (including negative decimals, which no field accepts).
pub open spec fn spec_imm_val(z: Seq<u8>) -> Option<u32> {
    if is_hex_tok(z) {
        Some(hex_val(z, 2) as u32)
    } else if is_dec_u32_tok(z) {
        if z[0] == ('+' as u8) {
            Some(dec_val(z, 1) as u32)
        } else {
            Some(dec_val(z, 0) as u32)
        }
    } else {
        None
    }
}

/// Evaluates an immediate operand token; `Some` exactly on `spec_imm_val`'s domain.
pub fn imm_val(z: &[u8]) -> (r: Option<u32>)
    ensures
        r == spec_imm_val(z@),
{
    if z.len() >= 3 && z[0] == ('0' as u8) && z[1] == ('x' as u8) {
        let h = parse_hex_bounded(z, 2);
        if h.is_some() {
            return h;
        }
    }
    proof {
        if is_hex_tok(z@) {
            lemma_hex_val_nonneg(z@, 2, z@.len() as int);
        }
    }
    if z.len() > 0 && z[0] == ('+' as u8) {
        let r = parse_dec_bounded(z, 1, 0xFFFFFFFF);
        proof {
            if is_dec_u32_tok(z@) {
                lemma_dec_val_nonneg(z@, 1, z@.len() as int);
            }
        }
        r
    } else if z.len() > 0 {
        let r = parse_dec_bounded(z, 0, 0xFFFFFFFF);
        proof {
            if is_dec_u32_tok(z@) {
                lemma_dec_val_nonneg(z@, 0, z@.len() as int);
            }
        }
        r
    } else {
        None
    }
}

/// Two-character register name after the `$`.
pub open spec fn reg2(z: Seq<u8>, a: u8, b: u8) -> bool {
    z.len() == 3 && z[0] == ('$' as u8) && z[1] == a && z[2] == b
}

/// Register-name lookup: `$zero` and the thirty-one two-letter names, indices 0..=31.
pub open spec fn spec_reg(z: Seq<u8>) -> Option<u8> {
    if z.len() == 5 && z[0] == ('$' as u8) && z[1] == ('z' as u8) && z[2] == ('e' as u8) && z[3] == ('r' as u8) && z[4] == ('o' as u8) {
        Some(0u8)
    } else if reg2(z, ('a' as u8), ('t' as u8)) {
        Some(1u8)
    } else if reg2(z, ('v' as u8), ('0' as u8)) {
        Some(2u8)
    } else if reg2(z, ('v' as u8), ('1' as u8)) {
        Some(3u8)
    } else if reg2(z, ('a' as u8), ('0' as u8)) {
        Some(4u8)
    } else if reg2(z, ('a' as u8), ('1' as u8)) {
        Some(5u8)
    } else if reg2(z, ('a' as u8), ('2' as u8)) {
        Some(6u8)
    } else if reg2(z, ('a' as u8), ('3' as u8)) {
        Some(7u8)
    } else if reg2(z, ('t' as u8), ('0' as u8)) {
        Some(8u8)
    } else if reg2(z, ('t' as u8), ('1' as u8)) {
        Some(9u8)
    } else if reg2(z, ('t' as u8), ('2' as u8)) {
        Some(10u8)
    } else if reg2(z, ('t' as u8), ('3' as u8)) {
        Some(11u8)
    } else if reg2(z, ('t' as u8), ('4' as u8)) {
        Some(12u8)
    } else if reg2(z, ('t' as u8), ('5' as u8)) {
        Some(13u8)
    } else if reg2(z, ('t' as u8), ('6' as u8)) {
        Some(14u8)
    } else if reg2(z, ('t' as u8), ('7' as u8)) {
        Some(15u8)
    } else if reg2(z, ('s' as u8), ('0' as u8)) {
        Some(16u8)
    } else if reg2(z, ('s' as u8), ('1' as u8)) {
        Some(17u8)
    } else if reg2(z, ('s' as u8), ('2' as u8)) {
        Some(18u8)
    } else if reg2(z, ('s' as u8), ('3' as u8)) {
        Some(19u8)
    } else if reg2(z, ('s' as u8), ('4' as u8)) {
        Some(20u8)
    } else if reg2(z, ('s' as u8), ('5' as u8)) {
        Some(21u8)
    } else if reg2(z, ('s' as u8), ('6' as u8)) {
        Some(22u8)
    } else if reg2(z, ('s' as u8), ('7' as u8)) {
        Some(23u8)
    } else if reg2(z, ('t' as u8), ('8' as u8)) {
        Some(24u8)
    } else if reg2(z, ('t' as u8), ('9' as u8)) {
        Some(25u8)
    } else if reg2(z, ('k' as u8), ('0' as u8)) {
        Some(26u8)
    } else if reg2(z, ('k' as u8), ('1' as u8)) {
        Some(27u8)
    } else if reg2(z, ('g' as u8), ('p' as u8)) {
        Some(28u8)
    } else if reg2(z, ('s' as u8), ('p' as u8)) {
        Some(29u8)
    } else if reg2(z, ('f' as u8), ('p' as u8)) {
        Some(30u8)
    } else if reg2(z, ('r' as u8), ('a' as u8)) {
        Some(31u8)
    } else {
        None
    }
}

/// Recognises a register name.
pub fn reg_of(z: &[u8]) -> (r: Option<u8>)
    ensures
        r == spec_reg(z@),
{
    if z.len() == 5 && z[0] == ('$' as u8) && z[1] == ('z' as u8) && z[2] == ('e' as u8) && z[3] == ('r' as u8) && z[4] == ('o' as u8) {
        Some(0u8)
    } else if z.len() == 3 && z[0] == ('$' as u8) {
        match (z[1], z[2]) {
            (97, 116) => Some(1u8),  // $at
            (118, 48) => Some(2u8),  // $v0
            (118, 49) => Some(3u8),  // $v1
            (97, 48) => Some(4u8),  // $a0
            (97, 49) => Some(5u8),  // $a1
            (97, 50) => Some(6u8),  // $a2
            (97, 51) => Some(7u8),  // $a3
            (116, 48) => Some(8u8),  // $t0
            (116, 49) => Some(9u8),  // $t1
            (116, 50) => Some(10u8),  // $t2
            (116, 51) => Some(11u8),  // $t3
            (116, 52) => Some(12u8),  // $t4
            (116, 53) => Some(13u8),  // $t5
            (116, 54) => Some(14u8),  // $t6
            (116, 55) => Some(15u8),  // $t7
            (115, 48) => Some(16u8),  // $s0
            (115, 49) => Some(17u8),  // $s1
            (115, 50) => Some(18u8),  // $s2
            (115, 51) => Some(19u8),  // $s3
            (115, 52) => Some(20u8),  // $s4
            (115, 53) => Some(21u8),  // $s5
            (115, 54) => Some(22u8),  // $s6
            (115, 55) => Some(23u8),  // $s7
            (116, 56) => Some(24u8),  // $t8
            (116, 57) => Some(25u8),  // $t9
            (107, 48) => Some(26u8),  // $k0
            (107, 49) => Some(27u8),  // $k1
            (103, 112) => Some(28u8),  // $gp
            (115, 112) => Some(29u8),  // $sp
            (102, 112) => Some(30u8),  // $fp
            (114, 97) => Some(31u8),  // $ra
            _ => None,
        }
    } else {
        None
    }
}

pub open spec fn w1(z: Seq<u8>, a: u8) -> bool {
    z.len() == 1 && z[0] == a
}

pub open spec fn w2(z: Seq<u8>, a: u8, b: u8) -> bool {
    z.len() == 2 && z[0] == a && z[1] == b
}

pub open spec fn w3(z: Seq<u8>, a: u8, b: u8, c: u8) -> bool {
    z.len() == 3 && z[0] == a && z[1] == b && z[2] == c
}

pub open spec fn w4(z: Seq<u8>, a: u8, b: u8, c: u8, d: u8) -> bool {
    z.len() == 4 && z[0] == a && z[1] == b && z[2] == c && z[3] == d
}

/// Mnemonic lookup over the fifteen supported instructions.
pub open spec fn spec_mnemonic(z: Seq<u8>) -> Option<Mnemonic> {
    if w2(z, ('s' as u8), ('w' as u8)) {
        Some(Mnemonic::Sw)
    } else if w2(z, ('l' as u8), ('w' as u8)) {
        Some(Mnemonic::Lw)
    } else if w4(z, ('a' as u8), ('d' as u8), ('d' as u8), ('i' as u8)) {
        Some(Mnemonic::Addi)
    } else if w3(z, ('b' as u8), ('e' as u8), ('q' as u8)) {
        Some(Mnemonic::Beq)
    } else if w3(z, ('b' as u8), ('n' as u8), ('e' as u8)) {
        Some(Mnemonic::Bne)
    } else if w3(z, ('a' as u8), ('n' as u8), ('d' as u8)) {
        Some(Mnemonic::And)
    } else if w2(z, ('o' as u8), ('r' as u8)) {
        Some(Mnemonic::Or)
    } else if w3(z, ('a' as u8), ('d' as u8), ('d' as u8)) {
        Some(Mnemonic::Add)
    } else if w3(z, ('s' as u8), ('u' as u8), ('b' as u8)) {
        Some(Mnemonic::Sub)
    } else if w3(z, ('s' as u8), ('l' as u8), ('t' as u8)) {
        Some(Mnemonic::Slt)
    } else if w3(z, ('s' as u8), ('r' as u8), ('l' as u8)) {
        Some(Mnemonic::Srl)
    } else if w3(z, ('s' as u8), ('l' as u8), ('l' as u8)) {
        Some(Mnemonic::Sll)
    } else if w2(z, ('j' as u8), ('r' as u8)) {
        Some(Mnemonic::Jr)
    } else if w1(z, ('j' as u8)) {
        Some(Mnemonic::J)
    } else if w3(z, ('j' as u8), ('a' as u8), ('l' as u8)) {
        Some(Mnemonic::Jal)
    } else {
        None
    }
}

/// Recognises an instruction mnemonic.
pub fn mnemonic_of(z: &[u8]) -> (r: Option<Mnemonic>)
    ensures
        r == spec_mnemonic(z@),
{
    if z.len() == 1 {
        if z[0] == ('j' as u8) {
            Some(Mnemonic::J)
        } else {
            None
        }
    } else if z.len() == 2 {
        match (z[0], z[1]) {
            (115, 119) => Some(Mnemonic::Sw),
            (108, 119) => Some(Mnemonic::Lw),
            (111, 114) => Some(Mnemonic::Or),
            (106, 114) => Some(Mnemonic::Jr),
            _ => None,
        }
    } else if z.len() == 3 {
        match (z[0], z[1], z[2]) {
            (98, 101, 113) => Some(Mnemonic::Beq),
            (98, 110, 101) => Some(Mnemonic::Bne),
            (97, 110, 100) => Some(Mnemonic::And),
            (97, 100, 100) => Some(Mnemonic::Add),
            (115, 117, 98) => Some(Mnemonic::Sub),
            (115, 108, 116) => Some(Mnemonic::Slt),
            (115, 114, 108) => Some(Mnemonic::Srl),
            (115, 108, 108) => Some(Mnemonic::Sll),
            (106, 97, 108) => Some(Mnemonic::Jal),
            _ => None,
        }
    } else if z.len() == 4 {
        match (z[0], z[1], z[2], z[3]) {
            (97, 100, 100, 105) => Some(Mnemonic::Addi),
            _ => None,
        }
    } else {
        None
    }
}

/// Directive lookup: a word starting with `.` naming one of the five directives.
pub open spec fn spec_directive(z: Seq<u8>) -> Option<Directive> {
    if z.len() >= 1 && z[0] == ('.' as u8) {
        let r = z.skip(1);
        if r =~= seq![('g' as u8), ('l' as u8), ('o' as u8), ('b' as u8), ('l' as u8)] {
            Some(Directive::Globl)
        } else if r =~= seq![('t' as u8), ('e' as u8), ('x' as u8), ('t' as u8)] {
            Some(Directive::Text)
        } else if r =~= seq![('d' as u8), ('a' as u8), ('t' as u8), ('a' as u8)] {
            Some(Directive::Data)
        } else if r =~= seq![('w' as u8), ('o' as u8), ('r' as u8), ('d' as u8)] {
            Some(Directive::Word)
        } else if r =~= seq![('s' as u8), ('p' as u8), ('a' as u8), ('c' as u8), ('e' as u8)] {
            Some(Directive::Space)
        } else {
            None
        }
    } else {
        None
    }
}

/// Recognises a directive.
pub fn directive_of(z: &[u8]) -> (r: Option<Directive>)
    ensures
        r == spec_directive(z@),
{
    if z.len() >= 1 && z[0] == ('.' as u8) {
        let r = if z.len() == 6 && z[1] == ('g' as u8) && z[2] == ('l' as u8) && z[3] == ('o' as u8) && z[4] == ('b' as u8)
            && z[5] == ('l' as u8) {
            Some(Directive::Globl)
        } else if z.len() == 5 && z[1] == ('t' as u8) && z[2] == ('e' as u8) && z[3] == ('x' as u8) && z[4] == ('t' as u8) {
            Some(Directive::Text)
        } else if z.len() == 5 && z[1] == ('d' as u8) && z[2] == ('a' as u8) && z[3] == ('t' as u8) && z[4] == ('a' as u8) {
            Some(Directive::Data)
        } else if z.len() == 5 && z[1] == ('w' as u8) && z[2] == ('o' as u8) && z[3] == ('r' as u8) && z[4] == ('d' as u8) {
            Some(Directive::Word)
        } else if z.len() == 6 && z[1] == ('s' as u8) && z[2] == ('p' as u8) && z[3] == ('a' as u8) && z[4] == ('c' as u8)
            && z[5] == ('e' as u8) {
            Some(Directive::Space)
        } else {
            None
        };
        proof {
            let zs = z@.skip(1);
            assert(zs.len() == z@.len() - 1);
            assert(forall|j: int| 0 <= j < zs.len() ==> zs[j] == z@[j + 1]);
        }
        r
    } else {
        None
    }
}

/// Classification of the first word on a line: directive, label definition, or mnemonic.
pub open spec fn spec_parse_first_token(z: Seq<u8>) -> Token {
    if z.len() > 0 && z[0] == ('.' as u8) {
        match spec_directive(z) {
            Some(d) => Token::Dir(d),
            None => Token::NotFound,
        }
    } else if z.len() > 0 && z[z.len() - 1] == (':' as u8) {
        Token::LabelDef
    } else {
        match spec_mnemonic(z) {
            Some(m) => Token::Mn(m),
            None => Token::NotFound,
        }
    }
}

/// Classification of a non-leading word: immediate, directive, label, register, or mnemonic.
pub open spec fn spec_parse_token(z: Seq<u8>) -> Token {
    if is_dec_i16_tok(z) {
        Token::Imm
    } else if is_hex_tok(z) {
        Token::Imm
    } else if z.len() > 0 && z[0] == ('.' as u8) {
        match spec_directive(z) {
            Some(d) => Token::Dir(d),
            None => Token::NotFound,
        }
    } else if z.len() > 0 && z[z.len() - 1] == (':' as u8) {
        Token::LabelDef
    } else {
        match spec_reg(z) {
            Some(r) => Token::Reg(r),
            None => match spec_mnemonic(z) {
                Some(m) => Token::Mn(m),
                None => Token::NotFound,
            },
        }
    }
}

/// Classifies the first word on a line.
pub fn parse_first_token(z: &[u8]) -> (t: Token)
    ensures
        t == spec_parse_first_token(z@),
{
    if z.len() > 0 && z[0] == ('.' as u8) {
        match directive_of(z) {
            Some(d) => Token::Dir(d),
            None => Token::NotFound,
        }
    } else if z.len() > 0 && z[z.len() - 1] == (':' as u8) {
        Token::LabelDef
    } else {
        match mnemonic_of(z) {
            Some(m) => Token::Mn(m),
            None => Token::NotFound,
        }
    }
}

/// Token is a decimal literal fitting a signed 16-bit value.
pub fn is_dec_i16(z: &[u8]) -> (r: bool)
    ensures
        r == is_dec_i16_tok(z@),
{
    if z.len() == 0 {
        false
    } else if z[0] == ('+' as u8) {
        parse_dec_bounded(z, 1, 32767).is_some()
    } else if z[0] == ('-' as u8) {
        parse_dec_bounded(z, 1, 32768).is_some()
    } else {
        parse_dec_bounded(z, 0, 32767).is_some()
    }
}

/// Token is a `0x`-prefixed hex literal fitting in 32 bits.
pub fn is_hex_u32(z: &[u8]) -> (r: bool)
    ensures
        r == is_hex_tok(z@),
{
    z.len() >= 3 && z[0] == ('0' as u8) && z[1] == ('x' as u8) && parse_hex_bounded(z, 2).is_some()
}

/// Classifies a word appearing after the first one on a line.
pub fn parse_token(z: &[u8]) -> (t: Token)
    ensures
        t == spec_parse_token(z@),
{
    if is_dec_i16(z) {
        Token::Imm
    } else if is_hex_u32(z) {
        Token::Imm
    } else if z.len() > 0 && z[0] == ('.' as u8) {
        match directive_of(z) {
            Some(d) => Token::Dir(d),
            None => Token::NotFound,
        }
    } else if z.len() > 0 && z[z.len() - 1] == (':' as u8) {
        Token::LabelDef
    } else {
        match reg_of(z) {
            Some(r) => Token::Reg(r),
            None => match mnemonic_of(z) {
                Some(m) => Token::Mn(m),
                None => Token::NotFound,
            },
        }
    }
}

} // verus!
