//! First pass: walks the cleaned lines, tracks the current section and the
//! instruction-word / data-byte cursors, and builds the two symbol tables
//! (jump labels -> instruction-word index, data labels -> byte offset).
use vstd::prelude::*;

use crate::err::{AsmError, Section};
use crate::lines::{lines_view, LineV, SrcLine};
use crate::table::{lookup, spec_lookup, strip_colon, tab_insert, tab_view};
use crate::token::{parse_first_token, parse_token, spec_parse_first_token, spec_parse_token, Directive, Token};

verus! {

/// The two symbol tables pass 1 produces.
pub ghost struct Tables {
    pub jt: Seq<(Seq<u8>, u32)>,
    pub dt: Seq<(Seq<u8>, u32)>,
}

/// Pass 1 over `lines[i..]`, starting from the given section, counters and tables.
/// Text labels are recorded at the current word index; a labelled line with
/// further words holds an instruction and advances the word counter. Data
/// labels must be followed on their line by `.word` (4 bytes per value) or
/// `.space` (4 bytes); both counters are capped at 256 words.
pub open spec fn spec_pass1_from(
    lines: Seq<LineV>,
    i: int,
    sec: Section,
    wc: int,
    bytes: int,
    jt: Seq<(Seq<u8>, u32)>,
    dt: Seq<(Seq<u8>, u32)>,
) -> Result<Tables, AsmError>
    decreases lines.len() - i,
{
    if i < 0 || i >= lines.len() {
        Ok(Tables { jt, dt })
    } else {
        let l = lines[i];
        if l.words.len() == 0 {
            spec_pass1_from(lines, i + 1, sec, wc, bytes, jt, dt)
        } else {
            match spec_parse_first_token(l.words[0]) {
                Token::Dir(Directive::Text) => spec_pass1_from(
                    lines,
                    i + 1,
                    Section::Text,
                    0,
                    bytes,
                    jt,
                    dt,
                ),
                Token::Dir(Directive::Data) => spec_pass1_from(
                    lines,
                    i + 1,
                    Section::Data,
                    wc,
                    0,
                    jt,
                    dt,
                ),
                Token::Dir(Directive::Globl) => spec_pass1_from(lines, i + 1, sec, wc, bytes, jt, dt),
                Token::LabelDef => match sec {
                    Section::Global => Err(AsmError::LabelOutsideSection { line: l.no as usize }),
                    Section::Text => {
                        let name = l.words[0].subrange(0, l.words[0].len() - 1);
                        if spec_lookup(jt, name) is Some || spec_lookup(dt, name) is Some {
                            Err(AsmError::DuplicateLabel { line: l.no as usize })
                        } else {
                            let jt2 = jt.push((name, wc as u32));
                            if l.words.len() > 1 {
                                if wc >= 256 {
                                    Err(AsmError::TooManyInstructions { line: l.no as usize })
                                } else {
                                    spec_pass1_from(lines, i + 1, sec, wc + 1, bytes, jt2, dt)
                                }
                            } else {
                                spec_pass1_from(lines, i + 1, sec, wc, bytes, jt2, dt)
                            }
                        }
                    },
                    Section::Data => {
                        if l.words.len() < 2 {
                            Err(AsmError::UnsupportedDirective { line: l.no as usize })
                        } else {
                            let name = l.words[0].subrange(0, l.words[0].len() - 1);
                            match spec_parse_token(l.words[1]) {
                                Token::Dir(Directive::Word) => {
                                    if spec_lookup(jt, name) is Some || spec_lookup(dt, name) is Some {
                                        Err(AsmError::DuplicateLabel { line: l.no as usize })
                                    } else {
                                        let n = l.words.len() - 2;
                                        if bytes + 4 * n > 1024 {
                                            Err(AsmError::TooManyData { line: l.no as usize })
                                        } else {
                                            spec_pass1_from(
                                                lines,
                                                i + 1,
                                                sec,
                                                wc,
                                                bytes + 4 * n,
                                                jt,
                                                dt.push((name, bytes as u32)),
                                            )
                                        }
                                    }
                                },
                                Token::Dir(Directive::Space) => {
                                    if spec_lookup(jt, name) is Some || spec_lookup(dt, name) is Some {
                                        Err(AsmError::DuplicateLabel { line: l.no as usize })
                                    } else {
                                        if bytes + 4 > 1024 {
                                            Err(AsmError::TooManyData { line: l.no as usize })
                                        } else {
                                            spec_pass1_from(
                                                lines,
                                                i + 1,
                                                sec,
                                                wc,
                                                bytes + 4,
                                                jt,
                                                dt.push((name, bytes as u32)),
                                            )
                                        }
                                    }
                                },
                                _ => Err(AsmError::UnsupportedDirective { line: l.no as usize }),
                            }
                        }
                    },
                },
                _ => match sec {
                    Section::Text => {
                        if wc >= 256 {
                            Err(AsmError::TooManyInstructions { line: l.no as usize })
                        } else {
                            spec_pass1_from(lines, i + 1, sec, wc + 1, bytes, jt, dt)
                        }
                    },
                    Section::Data => Err(AsmError::DataLineWithoutLabel { line: l.no as usize }),
                    Section::Global => spec_pass1_from(lines, i + 1, sec, wc, bytes, jt, dt),
                },
            }
        }
    }
}

/// Pass 1 over a whole cleaned program.
pub open spec fn spec_pass1(lines: Seq<LineV>) -> Result<Tables, AsmError> {
    spec_pass1_from(
        lines,
        0,
        Section::Global,
        0,
        0,
        Seq::<(Seq<u8>, u32)>::empty(),
        Seq::<(Seq<u8>, u32)>::empty(),
    )
}

/// Builds the jump-label and data-label tables for a cleaned program.
pub fn build_tables(lines: &Vec<SrcLine>) -> (r: Result<
    (Vec<(Vec<u8>, u32)>, Vec<(Vec<u8>, u32)>),
    AsmError,
>)
    ensures
        match r {
            Ok(t) => spec_pass1(lines_view(lines@)) == Ok::<Tables, AsmError>(
                Tables { jt: tab_view(t.0@), dt: tab_view(t.1@) },
            ),
            Err(e) => spec_pass1(lines_view(lines@)) == Err::<Tables, AsmError>(e),
        },
{
    let ghost lv = lines_view(lines@);
    let mut jt: Vec<(Vec<u8>, u32)> = Vec::new();
    let mut dt: Vec<(Vec<u8>, u32)> = Vec::new();
    let mut sec = Section::Global;
    let mut wc: u32 = 0;
    let mut bytes: u32 = 0;
    let mut i: usize = 0;
    proof {
        assert(tab_view(jt@) =~= Seq::<(Seq<u8>, u32)>::empty());
        assert(tab_view(dt@) =~= Seq::<(Seq<u8>, u32)>::empty());
    }
    while i < lines.len()
        invariant
            i <= lines@.len(),
            lv == lines_view(lines@),
            lv.len() == lines@.len(),
            wc <= 256,
            bytes <= 1024,
            spec_pass1(lv) == spec_pass1_from(
                lv,
                i as int,
                sec,
                wc as int,
                bytes as int,
                tab_view(jt@),
                tab_view(dt@),
            ),
        decreases lines@.len() - i,
    {
        let ghost sec0 = sec;
        let ghost wc0 = wc as int;
        let ghost bytes0 = bytes as int;
        let ghost jt0 = tab_view(jt@);
        let ghost dt0 = tab_view(dt@);
        let line = &lines[i];
        let ghost l = lv[i as int];
        proof {
            assert(l == crate::lines::line_view(lines@[i as int]));
        }
        if line.words.len() == 0 {
            i = i + 1;
            continue ;
        }
        assert(l.words[0] == line.words@[0]@);
        let t0 = parse_first_token(line.words[0].as_slice());
        match t0 {
            Token::Dir(Directive::Text) => {
                sec = Section::Text;
                wc = 0;
            },
            Token::Dir(Directive::Data) => {
                sec = Section::Data;
                bytes = 0;
            },
            Token::Dir(Directive::Globl) => {},
            Token::LabelDef => {
                match sec {
                    Section::Global => {
                        return Err(AsmError::LabelOutsideSection { line: line.no });
                    },
                    Section::Text => {
                        let w0 = &line.words[0];
                        assert(w0@.len() > 0);
                        let name = strip_colon(w0.as_slice());
                        let dup = lookup(&jt, name.as_slice()).is_some() || lookup(
                            &dt,
                            name.as_slice(),
                        ).is_some();
                        if dup {
                            return Err(AsmError::DuplicateLabel { line: line.no });
                        }
                        if line.words.len() > 1 && wc >= 256 {
                            return Err(AsmError::TooManyInstructions { line: line.no });
                        }
                        let more = line.words.len() > 1;
                        tab_insert(&mut jt, name, wc);
                        if more {
                            wc = wc + 1;
                        }
                    },
                    Section::Data => {
                        if line.words.len() < 2 {
                            return Err(AsmError::UnsupportedDirective { line: line.no });
                        }
                        assert(l.words[1] == line.words@[1]@);
                        let t1 = parse_token(line.words[1].as_slice());
                        let is_word = match t1 {
                            Token::Dir(Directive::Word) => true,
                            _ => false,
                        };
                        let is_space = match t1 {
                            Token::Dir(Directive::Space) => true,
                            _ => false,
                        };
                        if !is_word && !is_space {
                            return Err(AsmError::UnsupportedDirective { line: line.no });
                        }
                        let w0 = &line.words[0];
                        assert(w0@.len() > 0);
                        let name = strip_colon(w0.as_slice());
                        let dup = lookup(&jt, name.as_slice()).is_some() || lookup(
                            &dt,
                            name.as_slice(),
                        ).is_some();
                        if dup {
                            return Err(AsmError::DuplicateLabel { line: line.no });
                        }
                        let add: u32 = if is_word {
                            let n = line.words.len() - 2;
                            if n > 256 {
                                assert(bytes0 + 4 * (l.words.len() - 2) > 1024);
                                return Err(AsmError::TooManyData { line: line.no });
                            }
                            4 * (n as u32)
                        } else {
                            4
                        };
                        if bytes + add > 1024 {
                            return Err(AsmError::TooManyData { line: line.no });
                        }
                        tab_insert(&mut dt, name, bytes);
                        bytes = bytes + add;
                    },
                }
            },
            _ => {
                match sec {
                    Section::Text => {
                        if wc >= 256 {
                            return Err(AsmError::TooManyInstructions { line: line.no });
                        }
                        wc = wc + 1;
                    },
                    Section::Data => {
                        return Err(AsmError::DataLineWithoutLabel { line: line.no });
                    },
                    Section::Global => {},
                }
            },
        }
        proof {
            assert(spec_pass1_from(lv, i as int, sec0, wc0, bytes0, jt0, dt0)
                == spec_pass1_from(
                lv,
                i as int + 1,
                sec,
                wc as int,
                bytes as int,
                tab_view(jt@),
                tab_view(dt@),
            ));
        }
        i = i + 1;
    }
    Ok((jt, dt))
}

} // verus!
