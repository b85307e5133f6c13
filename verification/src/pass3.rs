//! Third pass: re-walks the cleaned lines and emits the data-memory words.
//! Every data-section line must start with a label; `.space` emits one zero
//! word, `.word` emits one word per numeric value on the line.
use vstd::prelude::*;

use crate::err::{AsmError, Section};
use crate::lines::{lines_view, words_view, LineV, SrcLine};
use crate::token::{imm_val, parse_first_token, parse_token, spec_imm_val, spec_parse_first_token, spec_parse_token, Directive, Token};

verus! {

/// The (address, word) pairs for the values `words[j..]` of a `.word` line,
/// starting at data-word cursor `dc`, together with the cursor afterwards.
/// Every value must be a numeric token; at most 256 data words fit.
pub open spec fn spec_data_vals(words: Seq<Seq<u8>>, j: int, dc: u32, line: usize) -> Result<
    (Seq<(u32, u32)>, u32),
    AsmError,
>
    decreases words.len() - j,
{
    if j < 0 || j >= words.len() {
        Ok((Seq::<(u32, u32)>::empty(), dc))
    } else {
        match spec_parse_token(words[j]) {
            Token::Imm => match spec_imm_val(words[j]) {
                Some(v) => if dc >= 256 {
                    Err(AsmError::TooManyData { line })
                } else {
                    match spec_data_vals(words, j + 1, (dc + 1) as u32, line) {
                        Ok(pr) => Ok((seq![(dc, v)] + pr.0, pr.1)),
                        Err(e) => Err(e),
                    }
                },
                None => Err(AsmError::BadOperand { line }),
            },
            _ => Err(AsmError::BadOperand { line }),
        }
    }
}

/// Pass 3 over `lines[i..]`: the (address, word) pairs of the data section
/// that remains, given the section and data-word cursor so far.
pub open spec fn spec_pass3_from(lines: Seq<LineV>, i: int, sec: Section, dc: u32) -> Result<
    Seq<(u32, u32)>,
    AsmError,
>
    decreases lines.len() - i,
{
    if i < 0 || i >= lines.len() {
        Ok(Seq::<(u32, u32)>::empty())
    } else {
        let l = lines[i];
        if l.words.len() == 0 {
            spec_pass3_from(lines, i + 1, sec, dc)
        } else {
            match spec_parse_first_token(l.words[0]) {
                Token::Dir(Directive::Data) => spec_pass3_from(lines, i + 1, Section::Data, 0),
                Token::Dir(Directive::Text) => spec_pass3_from(lines, i + 1, Section::Text, dc),
                Token::Dir(Directive::Globl) => spec_pass3_from(lines, i + 1, sec, dc),
                t0 => if sec != Section::Data {
                    spec_pass3_from(lines, i + 1, sec, dc)
                } else if t0 != Token::LabelDef {
                    Err(AsmError::DataLineWithoutLabel { line: l.no as usize })
                } else if l.words.len() < 2 {
                    Err(AsmError::UnsupportedDirective { line: l.no as usize })
                } else {
                    match spec_parse_token(l.words[1]) {
                        Token::Dir(Directive::Space) => if dc >= 256 {
                            Err(AsmError::TooManyData { line: l.no as usize })
                        } else {
                            match spec_pass3_from(lines, i + 1, sec, (dc + 1) as u32) {
                                Ok(rest) => Ok(seq![(dc, 0u32)] + rest),
                                Err(e) => Err(e),
                            }
                        },
                        Token::Dir(Directive::Word) => match spec_data_vals(
                            l.words,
                            2,
                            dc,
                            l.no as usize,
                        ) {
                            Ok(pr) => match spec_pass3_from(lines, i + 1, sec, pr.1) {
                                Ok(rest) => Ok(pr.0 + rest),
                                Err(e) => Err(e),
                            },
                            Err(e) => Err(e),
                        },
                        _ => Err(AsmError::UnsupportedDirective { line: l.no as usize }),
                    }
                },
            }
        }
    }
}

/// Pass 3 over a whole cleaned program.
pub open spec fn spec_pass3(lines: Seq<LineV>) -> Result<Seq<(u32, u32)>, AsmError> {
    spec_pass3_from(lines, 0, Section::Global, 0)
}

/// Encodes the values of one `.word` line, starting at `words[start]`.
fn data_vals(words: &Vec<Vec<u8>>, start: usize, dc: u32, line: usize) -> (r: Result<
    (Vec<(u32, u32)>, u32),
    AsmError,
>)
    requires
        start <= words@.len(),
        dc <= 256,
    ensures
        match r {
            Ok(pr) => spec_data_vals(words_view(words@), start as int, dc, line) == Ok::<
                _,
                AsmError,
            >((pr.0@, pr.1)) && pr.1 <= 256,
            Err(e) => spec_data_vals(words_view(words@), start as int, dc, line) == Err::<
                (Seq<(u32, u32)>, u32),
                _,
            >(e),
        },
{
    let ghost wv = words_view(words@);
    let mut out: Vec<(u32, u32)> = Vec::new();
    let mut cur: u32 = dc;
    let mut j: usize = start;
    while j < words.len()
        invariant
            start <= j <= words@.len(),
            wv == words_view(words@),
            wv.len() == words@.len(),
            cur <= 256,
            spec_data_vals(wv, start as int, dc, line) == match spec_data_vals(
                wv,
                j as int,
                cur,
                line,
            ) {
                Ok(pr) => Ok::<(Seq<(u32, u32)>, u32), AsmError>((out@ + pr.0, pr.1)),
                Err(e) => Err(e),
            },
        decreases words@.len() - j,
    {
        let ghost cur0 = cur;
        assert(wv[j as int] == words@[j as int]@);
        match parse_token(words[j].as_slice()) {
            Token::Imm => match imm_val(words[j].as_slice()) {
                Some(v) => {
                    if cur >= 256 {
                        return Err(AsmError::TooManyData { line });
                    }
                    let ghost old_out = out@;
                    out.push((cur, v));
                    cur = cur + 1;
                    proof {
                        assert(out@ =~= old_out.push((cur0, v)));
                        let r1 = spec_data_vals(wv, j as int + 1, cur, line);
                        assert(spec_data_vals(wv, j as int, cur0, line) == match r1 {
                            Ok(pr) => Ok::<(Seq<(u32, u32)>, u32), AsmError>(
                                (seq![(cur0, v)] + pr.0, pr.1),
                            ),
                            Err(e) => Err(e),
                        });
                        if let Ok(pr) = r1 {
                            assert(out@ + pr.0 =~= old_out + (seq![(cur0, v)] + pr.0));
                        }
                    }
                },
                None => {
                    return Err(AsmError::BadOperand { line });
                },
            },
            _ => {
                return Err(AsmError::BadOperand { line });
            },
        }
        j = j + 1;
    }
    proof {
        assert(spec_data_vals(wv, j as int, cur, line) == Ok::<(Seq<(u32, u32)>, u32), AsmError>(
            (Seq::<(u32, u32)>::empty(), cur),
        ));
        assert(out@ + Seq::<(u32, u32)>::empty() =~= out@);
    }
    Ok((out, cur))
}

/// Encodes the data words of a cleaned program, each with its address.
#[verifier::rlimit(100)]
pub fn encode_data(lines: &Vec<SrcLine>) -> (r: Result<Vec<(u32, u32)>, AsmError>)
    ensures
        match r {
            Ok(v) => spec_pass3(lines_view(lines@)) == Ok::<_, AsmError>(v@),
            Err(e) => spec_pass3(lines_view(lines@)) == Err::<Seq<(u32, u32)>, _>(e),
        },
{
    let ghost lv = lines_view(lines@);
    let mut out: Vec<(u32, u32)> = Vec::new();
    let mut sec = Section::Global;
    let mut dc: u32 = 0;
    let mut i: usize = 0;
    while i < lines.len()
        invariant
            i <= lines@.len(),
            lv == lines_view(lines@),
            lv.len() == lines@.len(),
            dc <= 256,
            spec_pass3(lv) == match spec_pass3_from(lv, i as int, sec, dc) {
                Ok(rest) => Ok::<Seq<(u32, u32)>, AsmError>(out@ + rest),
                Err(e) => Err(e),
            },
        decreases lines@.len() - i,
    {
        let ghost sec0 = sec;
        let ghost dc0 = dc;
        let line = &lines[i];
        let ghost l = lv[i as int];
        proof {
            assert(l == crate::lines::line_view(lines@[i as int]));
        }
        if line.words.len() == 0 {
            i = i + 1;
            continue ;
        }
        assert(l.words[0] == line.words@[0]@);
        let t0 = parse_first_token(line.words[0].as_slice());
        if t0 == Token::Dir(Directive::Data) {
            sec = Section::Data;
            dc = 0;
        } else if t0 == Token::Dir(Directive::Text) {
            sec = Section::Text;
        } else if t0 == Token::Dir(Directive::Globl) {
            // declaration only; no data
        } else if sec != Section::Data {
            // text or global section: no data
        } else if t0 != Token::LabelDef {
            return Err(AsmError::DataLineWithoutLabel { line: line.no });
        } else if line.words.len() < 2 {
            return Err(AsmError::UnsupportedDirective { line: line.no });
        } else {
            assert(l.words[1] == line.words@[1]@);
            let t1 = parse_token(line.words[1].as_slice());
            if t1 == Token::Dir(Directive::Space) {
                if dc >= 256 {
                    return Err(AsmError::TooManyData { line: line.no });
                }
                let ghost old_out = out@;
                out.push((dc, 0u32));
                dc = dc + 1;
                proof {
                    assert(out@ =~= old_out.push((dc0, 0u32)));
                    let r1 = spec_pass3_from(lv, i as int + 1, sec, dc);
                    assert(spec_pass3_from(lv, i as int, sec0, dc0) == match r1 {
                        Ok(rest) => Ok::<Seq<(u32, u32)>, AsmError>(seq![(dc0, 0u32)] + rest),
                        Err(e) => Err(e),
                    });
                    if let Ok(rest) = r1 {
                        assert(out@ + rest =~= old_out + (seq![(dc0, 0u32)] + rest));
                    }
                }
                i = i + 1;
                continue ;
            } else if t1 == Token::Dir(Directive::Word) {
                assert(words_view(line.words@) == l.words);
                match data_vals(&line.words, 2, dc, line.no) {
                    Err(e) => {
                        proof {
                            assert(spec_pass3_from(lv, i as int, sec0, dc0) == Err::<
                                Seq<(u32, u32)>,
                                AsmError,
                            >(e));
                        }
                        return Err(e);
                    },
                    Ok(pr) => {
                        let (mut vals, cur) = pr;
                        let ghost valsv = vals@;
                        let ghost old_out = out@;
                        out.append(&mut vals);
                        dc = cur;
                        proof {
                            assert(out@ == old_out + valsv);
                            let r1 = spec_pass3_from(lv, i as int + 1, sec, dc);
                            assert(spec_pass3_from(lv, i as int, sec0, dc0) == match r1 {
                                Ok(rest) => Ok::<Seq<(u32, u32)>, AsmError>(valsv + rest),
                                Err(e) => Err(e),
                            });
                            if let Ok(rest) = r1 {
                                assert(out@ + rest =~= old_out + (valsv + rest));
                            }
                        }
                        i = i + 1;
                        continue ;
                    },
                }
            } else {
                return Err(AsmError::UnsupportedDirective { line: line.no });
            }
        }
        proof {
            assert(spec_pass3_from(lv, i as int, sec0, dc0) == spec_pass3_from(
                lv,
                i as int + 1,
                sec,
                dc,
            ));
        }
        i = i + 1;
    }
    Ok(out)
}

} // verus!
