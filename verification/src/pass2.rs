//! Second pass: re-walks the cleaned lines, tracks the text section and the
//! word counter, and encodes one 32-bit word per instruction line, paired
//! with its instruction-word address.
use vstd::prelude::*;

use crate::encode::{encode_instr, spec_encode_instr};
use crate::err::{AsmError, Section};
use crate::lines::{lines_view, words_view, LineV, SrcLine};
use crate::table::tab_view;
use crate::token::{parse_first_token, spec_parse_first_token, Directive, Token};

verus! {

/// Pass 2 over `lines[i..]`: the encoded (address, word) pairs of the
/// instructions that remain, in source order, given the section and word
/// counter so far. A labelled line with further words holds an instruction;
/// a label alone emits nothing. At most 256 instruction words fit.
pub open spec fn spec_pass2_from(
    lines: Seq<LineV>,
    i: int,
    sec: Section,
    wc: u32,
    jt: Seq<(Seq<u8>, u32)>,
    dt: Seq<(Seq<u8>, u32)>,
) -> Result<Seq<(u32, u32)>, AsmError>
    decreases lines.len() - i,
{
    if i < 0 || i >= lines.len() {
        Ok(Seq::<(u32, u32)>::empty())
    } else {
        let l = lines[i];
        if l.words.len() == 0 {
            spec_pass2_from(lines, i + 1, sec, wc, jt, dt)
        } else {
            match spec_parse_first_token(l.words[0]) {
                Token::Dir(Directive::Text) => spec_pass2_from(
                    lines,
                    i + 1,
                    Section::Text,
                    0,
                    jt,
                    dt,
                ),
                Token::Dir(Directive::Data) => spec_pass2_from(
                    lines,
                    i + 1,
                    Section::Data,
                    wc,
                    jt,
                    dt,
                ),
                Token::Dir(Directive::Globl) => spec_pass2_from(lines, i + 1, sec, wc, jt, dt),
                t0 => if sec != Section::Text {
                    spec_pass2_from(lines, i + 1, sec, wc, jt, dt)
                } else if t0 == Token::LabelDef && l.words.len() == 1 {
                    spec_pass2_from(lines, i + 1, sec, wc, jt, dt)
                } else {
                    let start: int = if t0 == Token::LabelDef {
                        1
                    } else {
                        0
                    };
                    if wc >= 256 {
                        Err(AsmError::TooManyInstructions { line: l.no as usize })
                    } else {
                        let wc2 = (wc + 1) as u32;
                        match spec_encode_instr(l.words, start, jt, dt, wc2, l.no as usize) {
                            Err(e) => Err(e),
                            Ok(word) => match spec_pass2_from(lines, i + 1, sec, wc2, jt, dt) {
                                Err(e) => Err(e),
                                Ok(rest) => Ok(seq![(wc, word)] + rest),
                            },
                        }
                    }
                },
            }
        }
    }
}

/// Pass 2 over a whole cleaned program.
pub open spec fn spec_pass2(
    lines: Seq<LineV>,
    jt: Seq<(Seq<u8>, u32)>,
    dt: Seq<(Seq<u8>, u32)>,
) -> Result<Seq<(u32, u32)>, AsmError> {
    spec_pass2_from(lines, 0, Section::Global, 0, jt, dt)
}

/// Encodes the instruction words of a cleaned program, each with its address.
#[verifier::rlimit(100)]
pub fn encode_instructions(
    lines: &Vec<SrcLine>,
    jt: &Vec<(Vec<u8>, u32)>,
    dt: &Vec<(Vec<u8>, u32)>,
) -> (r: Result<Vec<(u32, u32)>, AsmError>)
    ensures
        match r {
            Ok(v) => spec_pass2(lines_view(lines@), tab_view(jt@), tab_view(dt@)) == Ok::<
                _,
                AsmError,
            >(v@),
            Err(e) => spec_pass2(lines_view(lines@), tab_view(jt@), tab_view(dt@)) == Err::<
                Seq<(u32, u32)>,
                _,
            >(e),
        },
{
    let ghost lv = lines_view(lines@);
    let ghost jtv = tab_view(jt@);
    let ghost dtv = tab_view(dt@);
    let mut out: Vec<(u32, u32)> = Vec::new();
    let mut sec = Section::Global;
    let mut wc: u32 = 0;
    let mut i: usize = 0;
    while i < lines.len()
        invariant
            i <= lines@.len(),
            lv == lines_view(lines@),
            jtv == tab_view(jt@),
            dtv == tab_view(dt@),
            lv.len() == lines@.len(),
            wc <= 256,
            spec_pass2(lv, jtv, dtv) == match spec_pass2_from(lv, i as int, sec, wc, jtv, dtv) {
                Ok(rest) => Ok::<Seq<(u32, u32)>, AsmError>(out@ + rest),
                Err(e) => Err(e),
            },
        decreases lines@.len() - i,
    {
        let ghost sec0 = sec;
        let ghost wc0 = wc;
        let line = &lines[i];
        let ghost l = lv[i as int];
        proof {
            assert(l == crate::lines::line_view(lines@[i as int]));
        }
        if line.words.len() == 0 {
            i = i + 1;
            continue ;
        }
        assert(l.words[0] == line.words@[0]@);
        let t0 = parse_first_token(line.words[0].as_slice());
        let is_text_dir = t0 == Token::Dir(Directive::Text);
        let is_data_dir = t0 == Token::Dir(Directive::Data);
        let is_globl = t0 == Token::Dir(Directive::Globl);
        if is_text_dir {
            sec = Section::Text;
            wc = 0;
        } else if is_data_dir {
            sec = Section::Data;
        } else if is_globl {
            // declaration only; nothing to encode
        } else if sec != Section::Text {
            // data or global section: nothing to encode
        } else if t0 == Token::LabelDef && line.words.len() == 1 {
            // a label alone names the next instruction; nothing to encode
        } else {
            let start: usize = if t0 == Token::LabelDef {
                1
            } else {
                0
            };
            if wc >= 256 {
                return Err(AsmError::TooManyInstructions { line: line.no });
            }
            let wc2 = wc + 1;
            assert(words_view(line.words@) == l.words);
            match encode_instr(&line.words, start, jt, dt, wc2, line.no) {
                Err(e) => {
                    proof {
                        assert(spec_pass2_from(lv, i as int, sec0, wc0, jtv, dtv) == Err::<
                            Seq<(u32, u32)>,
                            AsmError,
                        >(e));
                    }
                    return Err(e);
                },
                Ok(word) => {
                    let ghost old_out = out@;
                    out.push((wc, word));
                    wc = wc2;
                    proof {
                        assert(out@ =~= old_out.push((wc0, word)));
                        let rest0 = spec_pass2_from(lv, i as int, sec0, wc0, jtv, dtv);
                        let rest1 = spec_pass2_from(lv, i as int + 1, sec, wc, jtv, dtv);
                        assert(rest0 == match rest1 {
                            Ok(rest) => Ok::<Seq<(u32, u32)>, AsmError>(seq![(wc0, word)] + rest),
                            Err(e) => Err(e),
                        });
                        if let Ok(rest) = rest1 {
                            assert(out@ + rest =~= old_out + (seq![(wc0, word)] + rest));
                        }
                    }
                },
            }
            i = i + 1;
            continue ;
        }
        proof {
            assert(spec_pass2_from(lv, i as int, sec0, wc0, jtv, dtv) == spec_pass2_from(
                lv,
                i as int + 1,
                sec,
                wc,
                jtv,
                dtv,
            ));
        }
        i = i + 1;
    }
    Ok(out)
}

} // verus!
