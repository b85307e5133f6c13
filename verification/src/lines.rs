//! Line cleaning: splits source text into lines, strips `#` comments, and
//! splits each line into words on whitespace and commas. Empty lines are
//! dropped; each kept line carries its 1-based source line number.
use vstd::prelude::*;

verus! {

/// One cleaned source line: its 1-based line number and its words.
pub struct SrcLine {
    pub no: usize,
    pub words: Vec<Vec<u8>>,
}

/// Mathematical model of a cleaned line.
pub ghost struct LineV {
    pub no: int,
    pub words: Seq<Seq<u8>>,
}

pub open spec fn words_view(ws: Seq<Vec<u8>>) -> Seq<Seq<u8>> {
    ws.map_values(|w: Vec<u8>| w@)
}

pub open spec fn line_view(l: SrcLine) -> LineV {
    LineV { no: l.no as int, words: words_view(l.words@) }
}

pub open spec fn lines_view(s: Seq<SrcLine>) -> Seq<LineV> {
    s.map_values(|l: SrcLine| line_view(l))
}

/// Word separators: space, tab, carriage return, comma.
pub open spec fn is_sep(b: u8) -> bool {
    b == (' ' as u8) || b == ('\t' as u8) || b == ('\r' as u8) || b == (',' as u8)
}

/// First index at or after `i` whose byte is a separator, or the end.
pub open spec fn word_end(s: Seq<u8>, i: int) -> int
    decreases s.len() - i,
{
    if i < 0 || i >= s.len() {
        s.len() as int
    } else if is_sep(s[i]) {
        i
    } else {
        word_end(s, i + 1)
    }
}

proof fn lemma_word_end_bounds(s: Seq<u8>, i: int)
    requires
        0 <= i <= s.len(),
    ensures
        i <= word_end(s, i) <= s.len(),
    decreases s.len() - i,
{
    if i < s.len() && !is_sep(s[i]) {
        lemma_word_end_bounds(s, i + 1);
    }
}

/// The words of `s[i..]`, split on separators, in order.
pub open spec fn spec_words_from(s: Seq<u8>, i: int) -> Seq<Seq<u8>>
    decreases s.len() - i,
    via spec_words_from_dec
{
    if i < 0 || i >= s.len() {
        Seq::<Seq<u8>>::empty()
    } else if is_sep(s[i]) {
        spec_words_from(s, i + 1)
    } else {
        seq![s.subrange(i, word_end(s, i))] + spec_words_from(s, word_end(s, i))
    }
}

#[via_fn]
proof fn spec_words_from_dec(s: Seq<u8>, i: int) {
    if 0 <= i && i < s.len() && !is_sep(s[i]) {
        assert(word_end(s, i) == word_end(s, i + 1));
        lemma_word_end_bounds(s, i + 1);
    }
}

/// Splits a (comment-free) line into its words.
pub fn split_words(line: &[u8]) -> (r: Vec<Vec<u8>>)
    ensures
        words_view(r@) == spec_words_from(line@, 0),
{
    let ghost s = line@;
    let mut out: Vec<Vec<u8>> = Vec::new();
    let mut i: usize = 0;
    while i < line.len()
        invariant
            i <= s.len(),
            s == line@,
            words_view(out@) + spec_words_from(s, i as int) == spec_words_from(s, 0),
        decreases s.len() - i,
    {
        let b = line[i];
        if b == (' ' as u8) || b == ('\t' as u8) || b == ('\r' as u8) || b == (',' as u8) {
            assert(spec_words_from(s, i as int) == spec_words_from(s, i + 1));
            i = i + 1;
        } else {
            let w_start = i;
            let mut w: Vec<u8> = Vec::new();
            assert(w@ =~= s.subrange(w_start as int, i as int));
            while i < line.len() && !(line[i] == (' ' as u8) || line[i] == ('\t' as u8) || line[i] == ('\r' as u8)
                || line[i] == (',' as u8))
                invariant
                    w_start <= i <= s.len(),
                    s == line@,
                    w@ == s.subrange(w_start as int, i as int),
                    word_end(s, w_start as int) == word_end(s, i as int),
                decreases s.len() - i,
            {
                assert(!is_sep(s[i as int]));
                assert(word_end(s, i as int) == word_end(s, i + 1));
                w.push(line[i]);
                assert(s.subrange(w_start as int, i as int).push(s[i as int]) =~= s.subrange(
                    w_start as int,
                    i + 1,
                ));
                i = i + 1;
            }
            assert(word_end(s, i as int) == i as int);
            assert(spec_words_from(s, w_start as int) == seq![
                s.subrange(w_start as int, i as int),
            ] + spec_words_from(s, i as int));
            let ghost old_out = out@;
            let ghost wv = w@;
            out.push(w);
            proof {
                assert(words_view(out@) =~= words_view(old_out).push(wv));
                assert(words_view(out@) + spec_words_from(s, i as int) =~= words_view(old_out) + (
                seq![wv] + spec_words_from(s, i as int)));
            }
        }
    }
    assert(spec_words_from(s, i as int) =~= Seq::<Seq<u8>>::empty());
    assert(words_view(out@) + spec_words_from(s, i as int) =~= words_view(out@));
    out
}

/// Index of the first newline at or after `i`, or the end of the text.
pub open spec fn line_end(s: Seq<u8>, i: int) -> int
    decreases s.len() - i,
{
    if i < 0 || i >= s.len() {
        s.len() as int
    } else if s[i] == ('\n' as u8) {
        i
    } else {
        line_end(s, i + 1)
    }
}

proof fn lemma_line_end_bounds(s: Seq<u8>, i: int)
    requires
        0 <= i <= s.len(),
    ensures
        i <= line_end(s, i) <= s.len(),
    decreases s.len() - i,
{
    if i < s.len() && s[i] != ('\n' as u8) {
        lemma_line_end_bounds(s, i + 1);
    }
}

/// Index of the first `#` in `s[i..end)`, or `end`.
pub open spec fn comment_end(s: Seq<u8>, i: int, end: int) -> int
    decreases end - i,
{
    if i < 0 || i >= end {
        end
    } else if s[i] == ('#' as u8) {
        i
    } else {
        comment_end(s, i + 1, end)
    }
}

/// The cleaned lines of `s[i..]`, numbering the line that starts at `i` as `no`.
pub open spec fn spec_clean_from(s: Seq<u8>, i: int, no: int) -> Seq<LineV>
    decreases s.len() - i + 1,
    via spec_clean_from_dec
{
    if i < 0 || i >= s.len() {
        Seq::<LineV>::empty()
    } else {
        let j = line_end(s, i);
        let ce = comment_end(s, i, j);
        let ws = spec_words_from(s.subrange(i, ce), 0);
        let rest = spec_clean_from(s, j + 1, no + 1);
        if ws.len() > 0 {
            seq![LineV { no, words: ws }] + rest
        } else {
            rest
        }
    }
}

#[via_fn]
proof fn spec_clean_from_dec(s: Seq<u8>, i: int, no: int) {
    if 0 <= i && i < s.len() {
        lemma_line_end_bounds(s, i);
    }
}

/// The cleaned lines of a whole source text, numbered from 1.
pub open spec fn spec_clean(s: Seq<u8>) -> Seq<LineV> {
    spec_clean_from(s, 0, 1)
}

/// Cleans a source text: one `SrcLine` per non-empty line, in order.
pub fn clean_lines(src: &[u8]) -> (r: Vec<SrcLine>)
    requires
        src@.len() < usize::MAX,
    ensures
        lines_view(r@) == spec_clean(src@),
{
    let ghost s = src@;
    let mut out: Vec<SrcLine> = Vec::new();
    let mut i: usize = 0;
    let mut no: usize = 1;
    while i < src.len()
        invariant
            s == src@,
            s.len() < usize::MAX,
            i <= s.len() + 1,
            no <= i + 1,
            lines_view(out@) + spec_clean_from(s, i as int, no as int) == spec_clean(s),
        decreases s.len() - i + 1,
    {
        // find the end of the line
        let mut j: usize = i;
        while j < src.len() && src[j] != ('\n' as u8)
            invariant
                i <= j <= s.len(),
                s == src@,
                line_end(s, i as int) == line_end(s, j as int),
            decreases s.len() - j,
        {
            assert(line_end(s, j as int) == line_end(s, j + 1));
            j = j + 1;
        }
        assert(line_end(s, j as int) == j as int);
        // find the start of the comment, if any
        let mut ce: usize = i;
        while ce < j && src[ce] != ('#' as u8)
            invariant
                i <= ce <= j <= s.len(),
                s == src@,
                comment_end(s, i as int, j as int) == comment_end(s, ce as int, j as int),
            decreases j - ce,
        {
            assert(comment_end(s, ce as int, j as int) == comment_end(s, ce + 1, j as int));
            ce = ce + 1;
        }
        assert(comment_end(s, ce as int, j as int) == ce as int);
        // copy the comment-free body
        let mut buf: Vec<u8> = Vec::new();
        let mut t: usize = i;
        assert(buf@ =~= s.subrange(i as int, i as int));
        while t < ce
            invariant
                i <= t <= ce <= s.len(),
                s == src@,
                buf@ == s.subrange(i as int, t as int),
            decreases ce - t,
        {
            buf.push(src[t]);
            assert(s.subrange(i as int, t as int).push(s[t as int]) =~= s.subrange(
                i as int,
                t + 1,
            ));
            t = t + 1;
        }
        let words = split_words(buf.as_slice());
        let ghost ws = spec_words_from(s.subrange(i as int, ce as int), 0);
        assert(words_view(words@) == ws);
        let ghost rest = spec_clean_from(s, j + 1, no as int + 1);
        assert(spec_clean_from(s, i as int, no as int) == if ws.len() > 0 {
            seq![LineV { no: no as int, words: ws }] + rest
        } else {
            rest
        });
        if words.len() > 0 {
            let ghost old_out = out@;
            let line = SrcLine { no, words };
            assert(line_view(line) == LineV { no: no as int, words: ws });
            out.push(line);
            proof {
                assert(lines_view(out@) =~= lines_view(old_out).push(line_view(line)));
                assert(lines_view(out@) + rest =~= lines_view(old_out) + (seq![
                    LineV { no: no as int, words: ws },
                ] + rest));
            }
        }
        i = j + 1;
        no = no + 1;
    }
    assert(spec_clean_from(s, i as int, no as int) =~= Seq::<LineV>::empty());
    assert(lines_view(out@) + spec_clean_from(s, i as int, no as int) =~= lines_view(out@));
    out
}

} // verus!
