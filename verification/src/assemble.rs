//! The assembler: cleans the source, builds the symbol tables, checks that
//! `main` names instruction-word index 0, then encodes the instruction and
//! data images.
use vstd::prelude::*;

use crate::err::AsmError;
use crate::lines::{clean_lines, spec_clean};
use crate::pass1::{build_tables, spec_pass1, Tables};
use crate::pass2::{encode_instructions, spec_pass2};
use crate::pass3::{encode_data, spec_pass3};
use crate::table::{lookup, spec_lookup};

verus! {

/// The two memory images: (address, word) pairs in emission order.
/// For a program with a single `.text` and a single `.data` section the
/// address of each pair equals its position in the vector.
pub struct AsmOutput {
    pub instrs: Vec<(u32, u32)>,
    pub data: Vec<(u32, u32)>,
}

/// Mathematical model of the assembler's output.
pub ghost struct AsmOutV {
    pub instrs: Seq<(u32, u32)>,
    pub data: Seq<(u32, u32)>,
}

/// The bytes of the mandatory entry-point label name, `main`.
pub open spec fn main_name() -> Seq<u8> {
    seq!['m' as u8, 'a' as u8, 'i' as u8, 'n' as u8]
}

/// The whole assembler over a source text: clean, build tables, demand
/// `main` at instruction-word index 0, encode instructions, encode data.
pub open spec fn spec_assemble(src: Seq<u8>) -> Result<AsmOutV, AsmError> {
    match spec_pass1(spec_clean(src)) {
        Err(e) => Err(e),
        Ok(tabs) => match spec_lookup(tabs.jt, main_name()) {
            None => Err(AsmError::MainMissing),
            Some(v) => if v != 0 {
                Err(AsmError::MainNotAtZero)
            } else {
                match spec_pass2(spec_clean(src), tabs.jt, tabs.dt) {
                    Err(e) => Err(e),
                    Ok(instrs) => match spec_pass3(spec_clean(src)) {
                        Err(e) => Err(e),
                        Ok(data) => Ok(AsmOutV { instrs, data }),
                    },
                }
            },
        },
    }
}

/// The label name every program must define: `main`.
pub fn main_label() -> (r: Vec<u8>)
    ensures
        r@ == main_name(),
{
    let mut v: Vec<u8> = Vec::new();
    v.push('m' as u8);
    v.push('a' as u8);
    v.push('i' as u8);
    v.push('n' as u8);
    proof {
        assert(v@ =~= main_name());
    }
    v
}

/// Assembles MIPS source text. Returns the instruction and data images, or
/// the first fatal error in pass order. The length bound is a machine limit:
/// line numbers could not otherwise be counted in a `usize`.
pub fn assemble(src: &[u8]) -> (r: Result<AsmOutput, AsmError>)
    requires
        src@.len() < usize::MAX,
    ensures
        match r {
            Ok(o) => spec_assemble(src@) == Ok::<AsmOutV, AsmError>(
                AsmOutV { instrs: o.instrs@, data: o.data@ },
            ),
            Err(e) => spec_assemble(src@) == Err::<AsmOutV, AsmError>(e),
        },
{
    let lines = clean_lines(src);
    let tables = match build_tables(&lines) {
        Ok(t) => t,
        Err(e) => {
            return Err(e);
        },
    };
    let (jt, dt) = tables;
    let mname = main_label();
    match lookup(&jt, mname.as_slice()) {
        None => {
            return Err(AsmError::MainMissing);
        },
        Some(v) => {
            if v != 0 {
                return Err(AsmError::MainNotAtZero);
            }
        },
    }
    let instrs = match encode_instructions(&lines, &jt, &dt) {
        Ok(v) => v,
        Err(e) => {
            return Err(e);
        },
    };
    let data = match encode_data(&lines) {
        Ok(v) => v,
        Err(e) => {
            return Err(e);
        },
    };
    Ok(AsmOutput { instrs, data })
}

} // verus!
