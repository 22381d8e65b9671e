//! OCR record parsing.
//!
//! The OCR engine reports recognized words as tab-separated rows.  Only
//! word-level rows (first field `5`) are parsed; the remaining fields are,
//! in order: page, block, paragraph, line, word number, x, y, width,
//! height, confidence and the recognized text.  Rows with fewer than
//! twelve fields or with malformed numeric fields are dropped silently.

use vstd::prelude::*;

use crate::parse::{
    parse_conf, parse_i32, parse_u32, spec_parse_conf, spec_parse_i32, spec_parse_u32,
};

verus! {

/// One recognized word: its surface text, the composite line ordering key
/// (page, block, paragraph, line), its position within the line, its
/// confidence in hundredths of a percent, and its pixel bounding box.
pub struct OCRWord {
    pub text: String,
    pub line_id: (u32, u32, u32, u32),
    pub word_num: u32,
    pub conf: u32,
    pub x: i32,
    pub y: i32,
    pub w: i32,
    pub h: i32,
}

/// The mathematical image of an `OCRWord`.
pub ghost struct OCRWordV {
    pub text: Seq<char>,
    pub line_id: (u32, u32, u32, u32),
    pub word_num: u32,
    pub conf: u32,
    pub x: int,
    pub y: int,
    pub w: int,
    pub h: int,
}

impl View for OCRWord {
    type V = OCRWordV;

    open spec fn view(&self) -> OCRWordV {
        OCRWordV {
            text: self.text@,
            line_id: self.line_id,
            word_num: self.word_num,
            conf: self.conf,
            x: self.x as int,
            y: self.y as int,
            w: self.w as int,
            h: self.h as int,
        }
    }
}

impl Clone for OCRWord {
    fn clone(&self) -> (r: Self)
        ensures
            r@ == self@,
    {
        OCRWord {
            text: self.text.clone(),
            line_id: self.line_id,
            word_num: self.word_num,
            conf: self.conf,
            x: self.x,
            y: self.y,
            w: self.w,
            h: self.h,
        }
    }
}

/// The views of a sequence of words.
pub open spec fn word_views(ws: Seq<OCRWord>) -> Seq<OCRWordV> {
    ws.map_values(|w: OCRWord| w@)
}

/// Index of the first occurrence of `sep` in `s`, if any.
pub open spec fn find_char(s: Seq<char>, sep: char) -> Option<int>
    decreases s.len(),
{
    if s.len() == 0 {
        None
    } else if s[0] == sep {
        Some(0)
    } else {
        match find_char(s.drop_first(), sep) {
            Some(i) => Some(i + 1),
            None => None,
        }
    }
}

proof fn lemma_find_char(s: Seq<char>, sep: char)
    ensures
        match find_char(s, sep) {
            Some(i) => 0 <= i < s.len() && s[i] == sep && forall|k: int|
                0 <= k < i ==> s[k] != sep,
            None => forall|k: int| 0 <= k < s.len() ==> s[k] != sep,
        },
    decreases s.len(),
{
    if s.len() > 0 && s[0] != sep {
        lemma_find_char(s.drop_first(), sep);
        match find_char(s.drop_first(), sep) {
            Some(i) => {
                assert(s[i + 1] == s.drop_first()[i]);
                assert forall|k: int| 0 <= k < i + 1 implies s[k] != sep by {
                    if k > 0 {
                        assert(s.drop_first()[k - 1] == s[k]);
                    }
                }
            },
            None => {
                assert forall|k: int| 0 <= k < s.len() implies s[k] != sep by {
                    if k > 0 {
                        assert(s.drop_first()[k - 1] == s[k]);
                    }
                }
            },
        }
    }
}

/// Splitting at every occurrence of `sep`; a trailing separator yields a
/// trailing empty field.
pub open spec fn spec_split(s: Seq<char>, sep: char) -> Seq<Seq<char>>
    decreases s.len(),
    via spec_split_decreases
{
    match find_char(s, sep) {
        None => seq![s],
        Some(i) => seq![s.take(i)] + spec_split(s.skip(i + 1), sep),
    }
}

#[via_fn]
proof fn spec_split_decreases(s: Seq<char>, sep: char) {
    lemma_find_char(s, sep);
}

/// Splitting with the separator read as a terminator: a trailing separator
/// yields no trailing empty field, and empty input yields no fields.
pub open spec fn spec_split_term(s: Seq<char>, sep: char) -> Seq<Seq<char>> {
    if s.len() == 0 {
        Seq::empty()
    } else if s.last() == sep {
        spec_split(s, sep).drop_last()
    } else {
        spec_split(s, sep)
    }
}

/// Splits `s` at every occurrence of `sep`, reading `sep` as a terminator.
pub fn split_term(s: &str, sep: char) -> (fields: Vec<String>)
    ensures
        fields.deep_view() == spec_split_term(s@, sep),
{
    let n = s.unicode_len();
    let mut fields: Vec<String> = Vec::new();
    let mut start: usize = 0;
    let mut i: usize = 0;
    proof {
        assert(s@.skip(0) =~= s@);
        assert(fields.deep_view() =~= Seq::<Seq<char>>::empty());
        assert(spec_split(s@, sep) =~= fields.deep_view() + spec_split(s@.skip(0), sep));
    }
    while i < n
        invariant
            n == s@.len(),
            0 <= start <= i <= n,
            forall|k: int| start <= k < i ==> s@[k] != sep,
            spec_split(s@, sep) =~= fields.deep_view() + spec_split(s@.skip(start as int), sep),
            start > 0 ==> s@[start - 1] == sep,
        decreases n - i,
    {
        let c = s.get_char(i);
        if c == sep {
            let field = s.substring_char(start, i).to_owned();
            proof {
                let tail = s@.skip(start as int);
                lemma_find_char(tail, sep);
                assert(tail[i - start] == s@[i as int]);
                assert forall|k: int| 0 <= k < i - start implies tail[k] != sep by {
                    assert(tail[k] == s@[k + start]);
                }
                assert(find_char(tail, sep) == Some(i - start));
                assert(tail.take(i - start) =~= s@.subrange(start as int, i as int));
                assert(tail.skip(i - start + 1) =~= s@.skip(i + 1));
                assert(spec_split(tail, sep) == seq![s@.subrange(start as int, i as int)]
                    + spec_split(s@.skip(i + 1), sep));
            }
            let ghost old_fields = fields.deep_view();
            fields.push(field);
            proof {
                assert(fields.deep_view() =~= old_fields.push(
                    s@.subrange(start as int, i as int),
                ));
                assert(spec_split(s@, sep) =~= fields.deep_view() + spec_split(
                    s@.skip(i + 1),
                    sep,
                ));
            }
            start = i + 1;
        }
        i += 1;
    }
    proof {
        let tail = s@.skip(start as int);
        lemma_find_char(tail, sep);
        if tail.len() > 0 {
            assert forall|k: int| 0 <= k < tail.len() implies tail[k] != sep by {
                assert(tail[k] == s@[k + start]);
            }
        }
        assert(find_char(tail, sep) is None);
        assert(spec_split(s@, sep) =~= fields.deep_view() + seq![tail]);
    }
    if start < n {
        let field = s.substring_char(start, n).to_owned();
        fields.push(field);
        proof {
            assert(s@.subrange(start as int, n as int) =~= s@.skip(start as int));
            assert(fields.deep_view() =~= spec_split(s@, sep));
            assert(s@.last() != sep);
        }
        fields
    } else {
        proof {
            if n == 0 {
                assert(fields.deep_view() =~= Seq::<Seq<char>>::empty());
                assert(spec_split(s@, sep) =~= fields.deep_view() + seq![s@.skip(0)]);
            } else {
                assert(s@[start - 1] == sep);
                assert(s@.last() == sep);
                assert(s@.skip(start as int) =~= Seq::<char>::empty());
                assert(fields.deep_view() =~= spec_split(s@, sep).drop_last());
            }
        }
        fields
    }
}

/// A carriage return left by a Windows-style line ending is not part of
/// the record.
pub open spec fn spec_strip_cr(line: Seq<char>) -> Seq<char> {
    if line.len() > 0 && line.last() == '\r' {
        line.drop_last()
    } else {
        line
    }
}

/// What one OCR table row denotes: `None` unless the row has at least
/// twelve fields, its first field is exactly `5` (word-level granularity),
/// and every numeric field parses; otherwise the recognized word.
pub open spec fn spec_maybe_word(line: Seq<char>) -> Option<OCRWordV> {
    let f = spec_split_term(line, '\t');
    if f.len() < 12 || f[0] != "5"@ {
        None
    } else if spec_parse_u32(f[1]) is Some && spec_parse_u32(f[2]) is Some && spec_parse_u32(
        f[3],
    ) is Some && spec_parse_u32(f[4]) is Some && spec_parse_u32(f[5]) is Some && spec_parse_i32(
        f[6],
    ) is Some && spec_parse_i32(f[7]) is Some && spec_parse_i32(f[8]) is Some && spec_parse_i32(
        f[9],
    ) is Some && spec_parse_conf(f[10]) is Some {
        Some(
            OCRWordV {
                text: f[11],
                line_id: (
                    spec_parse_u32(f[1])->Some_0,
                    spec_parse_u32(f[2])->Some_0,
                    spec_parse_u32(f[3])->Some_0,
                    spec_parse_u32(f[4])->Some_0,
                ),
                word_num: spec_parse_u32(f[5])->Some_0,
                conf: spec_parse_conf(f[10])->Some_0,
                x: spec_parse_i32(f[6])->Some_0 as int,
                y: spec_parse_i32(f[7])->Some_0 as int,
                w: spec_parse_i32(f[8])->Some_0 as int,
                h: spec_parse_i32(f[9])->Some_0 as int,
            },
        )
    } else {
        None
    }
}

/// The words denoted by a sequence of rows, in row order, malformed rows
/// dropped.
pub open spec fn spec_words_of_lines(ls: Seq<Seq<char>>) -> Seq<OCRWordV>
    decreases ls.len(),
{
    if ls.len() == 0 {
        Seq::empty()
    } else {
        spec_words_of_lines(ls.drop_last()) + match spec_maybe_word(spec_strip_cr(ls.last())) {
            Some(w) => seq![w],
            None => Seq::empty(),
        }
    }
}

/// The words denoted by a whole OCR output table.
pub open spec fn spec_words_from_tsv(t: Seq<char>) -> Seq<OCRWordV> {
    spec_words_of_lines(spec_split_term(t, '\n'))
}

/// The OCR engine driver's configuration: the recognition language.  The
/// recognition call itself is unverified transport; this type owns the
/// verified parsing of the engine's tabular output.
pub struct OCR {
    pub lang: String,
}

impl OCR {
    /// Parses one table row into a word record, dropping malformed rows.
    pub fn maybe_word(&self, s: &str) -> (r: Option<OCRWord>)
        ensures
            match r {
                Some(w) => spec_maybe_word(s@) == Some(w@),
                None => spec_maybe_word(s@) is None,
            },
    {
        let fields = split_term(s, '\t');
        let ghost f = spec_split_term(s@, '\t');
        if fields.len() < 12 {
            return None;
        }
        assert(fields[0]@ == f[0] && fields[1]@ == f[1] && fields[2]@ == f[2] && fields[3]@
            == f[3] && fields[4]@ == f[4] && fields[5]@ == f[5] && fields[6]@ == f[6] && fields[7]@
            == f[7] && fields[8]@ == f[8] && fields[9]@ == f[9] && fields[10]@ == f[10]
            && fields[11]@ == f[11]);
        let five = String::from_str("5");
        if !(fields[0] == five) {
            return None;
        }
        let page = parse_u32(fields[1].as_str());
        let block = parse_u32(fields[2].as_str());
        let par = parse_u32(fields[3].as_str());
        let line_no = parse_u32(fields[4].as_str());
        let word_num = parse_u32(fields[5].as_str());
        let x = parse_i32(fields[6].as_str());
        let y = parse_i32(fields[7].as_str());
        let w = parse_i32(fields[8].as_str());
        let h = parse_i32(fields[9].as_str());
        let conf = parse_conf(fields[10].as_str());
        match (page, block, par, line_no, word_num, x, y, w, h, conf) {
            (
                Some(page),
                Some(block),
                Some(par),
                Some(line_no),
                Some(word_num),
                Some(x),
                Some(y),
                Some(w),
                Some(h),
                Some(conf),
            ) => Some(
                OCRWord {
                    text: fields[11].clone(),
                    line_id: (page, block, par, line_no),
                    word_num,
                    conf,
                    x,
                    y,
                    w,
                    h,
                },
            ),
            _ => None,
        }
    }

    /// Parses a whole OCR output table into word records, in row order.
    pub fn words_from_tsv(&self, tsv: &str) -> (ws: Vec<OCRWord>)
        ensures
            word_views(ws@) == spec_words_from_tsv(tsv@),
    {
        let lines = split_term(tsv, '\n');
        let ghost ls = spec_split_term(tsv@, '\n');
        let mut ws: Vec<OCRWord> = Vec::new();
        let mut k: usize = 0;
        proof {
            assert(word_views(ws@) =~= spec_words_of_lines(ls.take(0)));
        }
        while k < lines.len()
            invariant
                lines.deep_view() == ls,
                lines.deep_view().len() == lines@.len(),
                0 <= k <= lines@.len(),
                word_views(ws@) =~= spec_words_of_lines(ls.take(k as int)),
            decreases lines@.len() - k,
        {
            assert(lines[k as int]@ == ls[k as int]);
            let line = &lines[k];
            let n = line.as_str().unicode_len();
            let stripped: &str = if n > 0 && line.as_str().get_char(n - 1) == '\r' {
                let sub = line.as_str().substring_char(0, n - 1);
                proof {
                    assert(sub@ =~= spec_strip_cr(ls[k as int]));
                }
                sub
            } else {
                line.as_str()
            };
            assert(stripped@ == spec_strip_cr(ls[k as int]));
            let ghost old_ws = ws@;
            match self.maybe_word(stripped) {
                Some(w) => {
                    ws.push(w);
                    proof {
                        assert(word_views(ws@) =~= word_views(old_ws).push(ws@.last()@));
                    }
                },
                None => {},
            }
            proof {
                assert(ls.take(k + 1).drop_last() =~= ls.take(k as int));
                assert(ls.take(k + 1).last() == ls[k as int]);
            }
            k += 1;
        }
        proof {
            assert(ls.take(lines@.len() as int) =~= ls);
        }
        ws
    }
}

} // verus!
