//! Parsing of the OCR engine's tab-separated output into positioned tokens,
//! and its conversion to reconstructed text.
//!
//! The first line names the columns; each following line is one recognized
//! row. Only leaf-level text rows (hierarchy level 5) with non-blank text
//! become tokens; aggregate rows, rows missing a needed column, and rows
//! whose numeric fields do not parse are skipped. When a column name repeats,
//! the last occurrence wins.

use vstd::prelude::*;

use crate::layout::GToken;
use crate::layout::OcrToken;
use crate::layout::layout_text;
use crate::layout::render_tokens;
use crate::layout::tokens_view;
use crate::numbers::parse_u32;
use crate::numbers::parse_u32_spec;
use crate::text::chars_of;
use crate::text::eq_chars;
use crate::text::split_by;
use crate::text::split_chars;
use crate::text::string_of;

verus! {

/// Whitespace for the purpose of discarding blank OCR text fields.
pub open spec fn is_space_char(c: char) -> bool {
    c == ' ' || c == '\t' || c == '\r' || c == '\n'
}

/// A field that holds nothing but whitespace (or nothing at all).
pub open spec fn is_blank(s: Seq<char>) -> bool {
    forall|i: int| 0 <= i < s.len() ==> is_space_char(#[trigger] s[i])
}

fn blank(s: &Vec<char>) -> (r: bool)
    ensures
        r == is_blank(s@),
{
    let mut i: usize = 0;
    while i < s.len()
        invariant
            i <= s@.len(),
            forall|j: int| 0 <= j < i ==> is_space_char(#[trigger] s@[j]),
        decreases s@.len() - i,
    {
        let c = s[i];
        if !(c == ' ' || c == '\t' || c == '\r' || c == '\n') {
            proof {
                assert(!is_space_char(s@[i as int]));
            }
            return false;
        }
        i = i + 1;
    }
    true
}

fn copy_chars(v: &Vec<char>) -> (r: Vec<char>)
    ensures
        r@ == v@,
{
    let mut r: Vec<char> = Vec::new();
    crate::text::extend_chars(&mut r, v);
    proof {
        assert(Seq::<char>::empty() + v@ =~= v@);
    }
    r
}

/// The column a name maps to: the last header field equal to the name.
pub open spec fn col_of(headers: Seq<Seq<char>>, name: Seq<char>) -> Option<int>
    decreases headers.len(),
{
    if headers.len() == 0 {
        Option::None
    } else if headers.last() == name {
        Option::Some(headers.len() - 1)
    } else {
        col_of(headers.drop_last(), name)
    }
}

fn find_col(headers: &Vec<Vec<char>>, name: &Vec<char>) -> (r: Option<usize>)
    ensures
        (match r {
            Option::Some(i) => col_of(headers@.map_values(|v: Vec<char>| v@), name@) == Option::Some(
                i as int,
            ) && i < headers@.len(),
            Option::None => col_of(headers@.map_values(|v: Vec<char>| v@), name@) is None,
        }),
{
    let ghost hv = headers@.map_values(|v: Vec<char>| v@);
    let mut cur: Option<usize> = None;
    let mut i: usize = 0;
    proof {
        assert(hv.take(0) =~~= Seq::<Seq<char>>::empty());
    }
    while i < headers.len()
        invariant
            i <= headers@.len(),
            hv == headers@.map_values(|v: Vec<char>| v@),
            hv.len() == headers@.len(),
            (match cur {
                Option::Some(k) => col_of(hv.take(i as int), name@) == Option::Some(k as int) && k
                    < i,
                Option::None => col_of(hv.take(i as int), name@) is None,
            }),
        decreases headers@.len() - i,
    {
        proof {
            assert(hv.take(i + 1).drop_last() =~~= hv.take(i as int));
            assert(hv.take(i + 1).last() == hv[i as int]);
            assert(hv[i as int] == headers@[i as int]@);
        }
        if eq_chars(&headers[i], name) {
            cur = Some(i);
        }
        i = i + 1;
    }
    proof {
        assert(hv.take(hv.len() as int) =~~= hv);
    }
    cur
}

pub open spec fn key_level() -> Seq<char> {
    seq!['l', 'e', 'v', 'e', 'l']
}

pub open spec fn key_top() -> Seq<char> {
    seq!['t', 'o', 'p']
}

pub open spec fn key_left() -> Seq<char> {
    seq!['l', 'e', 'f', 't']
}

pub open spec fn key_width() -> Seq<char> {
    seq!['w', 'i', 'd', 't', 'h']
}

pub open spec fn key_text() -> Seq<char> {
    seq!['t', 'e', 'x', 't']
}

fn level_key() -> (r: Vec<char>)
    ensures
        r@ == key_level(),
{
    let r = vec!['l', 'e', 'v', 'e', 'l'];
    proof {
        assert(r@ =~= key_level());
    }
    r
}

fn top_key() -> (r: Vec<char>)
    ensures
        r@ == key_top(),
{
    let r = vec!['t', 'o', 'p'];
    proof {
        assert(r@ =~= key_top());
    }
    r
}

fn left_key() -> (r: Vec<char>)
    ensures
        r@ == key_left(),
{
    let r = vec!['l', 'e', 'f', 't'];
    proof {
        assert(r@ =~= key_left());
    }
    r
}

fn width_key() -> (r: Vec<char>)
    ensures
        r@ == key_width(),
{
    let r = vec!['w', 'i', 'd', 't', 'h'];
    proof {
        assert(r@ =~= key_width());
    }
    r
}

fn text_key() -> (r: Vec<char>)
    ensures
        r@ == key_text(),
{
    let r = vec!['t', 'e', 'x', 't'];
    proof {
        assert(r@ =~= key_text());
    }
    r
}

/// The token one data line yields, if any: the line must have every needed
/// column, hierarchy level 5, non-blank text, and numeric position fields.
pub open spec fn token_of_line(headers: Seq<Seq<char>>, fields: Seq<Seq<char>>) -> Option<GToken> {
    let li = col_of(headers, key_level());
    let ti = col_of(headers, key_top());
    let lei = col_of(headers, key_left());
    let wi = col_of(headers, key_width());
    let xi = col_of(headers, key_text());
    if li is Some && ti is Some && lei is Some && wi is Some && xi is Some && li->Some_0
        < fields.len() && ti->Some_0 < fields.len() && lei->Some_0 < fields.len() && wi->Some_0
        < fields.len() && xi->Some_0 < fields.len() && fields[li->Some_0] == seq!['5']
        && !is_blank(fields[xi->Some_0]) && parse_u32_spec(fields[ti->Some_0]) is Some
        && parse_u32_spec(fields[lei->Some_0]) is Some && parse_u32_spec(
        fields[wi->Some_0],
    ) is Some {
        Option::Some(
            GToken {
                top: parse_u32_spec(fields[ti->Some_0])->Some_0,
                left: parse_u32_spec(fields[lei->Some_0])->Some_0,
                width: parse_u32_spec(fields[wi->Some_0])->Some_0,
                text: fields[xi->Some_0],
            },
        )
    } else {
        Option::None
    }
}

/// The tokens of all data lines, in order, skipping lines that yield none.
pub open spec fn tokens_from(headers: Seq<Seq<char>>, lines: Seq<Seq<char>>) -> Seq<GToken>
    decreases lines.len(),
{
    if lines.len() == 0 {
        Seq::empty()
    } else {
        let rest = tokens_from(headers, lines.drop_first());
        match token_of_line(headers, split_chars(lines[0], '\t')) {
            Option::Some(t) => seq![t] + rest,
            Option::None => rest,
        }
    }
}

/// The tokens a whole tab-separated table yields: the first line names the
/// columns, every following line is a candidate row.
pub open spec fn ocr_tokens(input: Seq<char>) -> Seq<GToken> {
    let lines = split_chars(input, '\n');
    let headers = split_chars(lines[0], '\t');
    tokens_from(headers, lines.drop_first())
}

/// The text reconstructed from a tab-separated OCR table.
pub open spec fn reconstructed(input: Seq<char>) -> Seq<char> {
    layout_text(ocr_tokens(input))
}

fn parse_line(
    line: &Vec<char>,
    li: usize,
    ti: usize,
    lei: usize,
    wi: usize,
    xi: usize,
    Ghost(hv): Ghost<Seq<Seq<char>>>,
) -> (r: Option<OcrToken>)
    requires
        col_of(hv, key_level()) == Option::Some(li as int),
        col_of(hv, key_top()) == Option::Some(ti as int),
        col_of(hv, key_left()) == Option::Some(lei as int),
        col_of(hv, key_width()) == Option::Some(wi as int),
        col_of(hv, key_text()) == Option::Some(xi as int),
    ensures
        (match r {
            Option::Some(t) => token_of_line(hv, split_chars(line@, '\t')) == Option::Some(t@),
            Option::None => token_of_line(hv, split_chars(line@, '\t')) is None,
        }),
{
    let fields = split_by(line, '\t');
    let ghost fv = split_chars(line@, '\t');
    proof {
        assert(fields@.map_values(|v: Vec<char>| v@) == fv);
        assert(fields@.len() == fv.len());
    }
    let n = fields.len();
    if li >= n || ti >= n || lei >= n || wi >= n || xi >= n {
        return None;
    }
    proof {
        assert(fv[li as int] == fields@[li as int]@);
        assert(fv[ti as int] == fields@[ti as int]@);
        assert(fv[lei as int] == fields@[lei as int]@);
        assert(fv[wi as int] == fields@[wi as int]@);
        assert(fv[xi as int] == fields@[xi as int]@);
    }
    let lf = &fields[li];
    if !(lf.len() == 1 && lf[0] == '5') {
        proof {
            assert(fv[li as int] != seq!['5']);
        }
        return None;
    }
    proof {
        assert(fv[li as int] =~= seq!['5']);
    }
    if blank(&fields[xi]) {
        return None;
    }
    let top = match parse_u32(&fields[ti]) {
        Some(v) => v,
        None => {
            return None;
        },
    };
    let left = match parse_u32(&fields[lei]) {
        Some(v) => v,
        None => {
            return None;
        },
    };
    let width = match parse_u32(&fields[wi]) {
        Some(v) => v,
        None => {
            return None;
        },
    };
    let text = copy_chars(&fields[xi]);
    Some(OcrToken { top, left, width, text })
}

proof fn lemma_tokens_from_no_cols(headers: Seq<Seq<char>>, lines: Seq<Seq<char>>)
    requires
        col_of(headers, key_level()) is None || col_of(headers, key_top()) is None || col_of(
            headers,
            key_left(),
        ) is None || col_of(headers, key_width()) is None || col_of(headers, key_text()) is None,
    ensures
        tokens_from(headers, lines) == Seq::<GToken>::empty(),
    decreases lines.len(),
{
    if lines.len() > 0 {
        lemma_tokens_from_no_cols(headers, lines.drop_first());
    }
}

/// Convert the OCR engine's tab-separated output into reading-order text
/// with reconstructed spacing. The result is a function of the input alone.
pub fn tesseract_tsv_to_text(file: &str) -> (r: String)
    ensures
        r@ == reconstructed(file@),
{
    let cs = chars_of(file);
    let lines = split_by(&cs, '\n');
    let ghost lv = split_chars(cs@, '\n');
    proof {
        assert(lines@.map_values(|v: Vec<char>| v@) == lv);
        assert(lines@[0]@ == lv[0]);
    }
    let headers = split_by(&lines[0], '\t');
    let ghost hv = split_chars(lv[0], '\t');
    proof {
        assert(headers@.map_values(|v: Vec<char>| v@) == hv);
    }
    let lio = find_col(&headers, &level_key());
    let tio = find_col(&headers, &top_key());
    let leio = find_col(&headers, &left_key());
    let wio = find_col(&headers, &width_key());
    let xio = find_col(&headers, &text_key());
    if lio.is_none() || tio.is_none() || leio.is_none() || wio.is_none() || xio.is_none() {
        proof {
            lemma_tokens_from_no_cols(hv, lv.drop_first());
            assert(reconstructed(file@) == Seq::<char>::empty());
        }
        let r = String::new();
        return r;
    }
    let li = lio.unwrap();
    let ti = tio.unwrap();
    let lei = leio.unwrap();
    let wi = wio.unwrap();
    let xi = xio.unwrap();
    let mut toks: Vec<OcrToken> = Vec::new();
    let mut i: usize = 1;
    proof {
        assert(lv.skip(1) =~~= lv.drop_first());
        assert(tokens_view(toks@) =~= Seq::<GToken>::empty());
        assert(Seq::<GToken>::empty() + tokens_from(hv, lv.skip(1)) =~= tokens_from(
            hv,
            lv.drop_first(),
        ));
    }
    while i < lines.len()
        invariant
            1 <= i <= lines@.len(),
            lv == lines@.map_values(|v: Vec<char>| v@),
            lv.len() == lines@.len(),
            col_of(hv, key_level()) == Option::Some(li as int),
            col_of(hv, key_top()) == Option::Some(ti as int),
            col_of(hv, key_left()) == Option::Some(lei as int),
            col_of(hv, key_width()) == Option::Some(wi as int),
            col_of(hv, key_text()) == Option::Some(xi as int),
            tokens_from(hv, lv.drop_first()) == tokens_view(toks@) + tokens_from(
                hv,
                lv.skip(i as int),
            ),
        decreases lines@.len() - i,
    {
        let ghost rest = lv.skip(i as int);
        proof {
            assert(rest[0] == lv[i as int]);
            assert(lv[i as int] == lines@[i as int]@);
            assert(rest.drop_first() =~~= lv.skip(i + 1));
        }
        let ghost pre = tokens_view(toks@);
        match parse_line(&lines[i], li, ti, lei, wi, xi, Ghost(hv)) {
            Some(t) => {
                toks.push(t);
                proof {
                    assert(tokens_view(toks@) =~= pre.push(t@));
                    assert(pre.push(t@) + tokens_from(hv, lv.skip(i + 1)) =~= pre + (seq![t@]
                        + tokens_from(hv, lv.skip(i + 1))));
                }
            },
            None => {},
        }
        i = i + 1;
    }
    proof {
        assert(lv.skip(lv.len() as int) =~~= Seq::<Seq<char>>::empty());
        assert(tokens_view(toks@) + tokens_from(hv, Seq::<Seq<char>>::empty()) =~= tokens_view(
            toks@,
        ));
    }
    let out = render_tokens(&toks);
    string_of(&out)
}

} // verus!
