//! Layout reconstruction: turns positioned OCR tokens into one text block
//! whose line breaks and runs of spaces approximate the source document's
//! visual layout.
//!
//! A "pixel per space" unit is calibrated from the smallest horizontal gap
//! observed between consecutive tokens (the gap width minus the earlier
//! token's character count). When no gap is observed, or the smallest gap is
//! under two pixels, consecutive tokens on a line are separated by a single
//! space; the reference behaviour divided by an uncalibrated unit there.
//! Rendering then walks the tokens in emission order, breaking the line when
//! a token lies both to the left of and below its predecessor, and padding
//! between same-line tokens with `max(1, gap / unit)` spaces, preferring an
//! accumulated-cursor estimate when the visual estimate has drifted.
//!
//! The first token of a region is emitted without leading spaces, so a
//! single-token region reproduces exactly that token's text, and an empty
//! region yields empty output.

use vstd::prelude::*;

verus! {

/// One recognized word with its position on the page image.
pub struct OcrToken {
    /// Vertical offset of the word's box, in pixels.
    pub top: u32,
    /// Horizontal offset of the word's box, in pixels.
    pub left: u32,
    /// Width of the word's box, in pixels.
    pub width: u32,
    /// The recognized characters.
    pub text: Vec<char>,
}

/// The mathematical model of a token.
pub ghost struct GToken {
    pub top: int,
    pub left: int,
    pub width: int,
    pub text: Seq<char>,
}

impl View for OcrToken {
    type V = GToken;

    open spec fn view(&self) -> GToken {
        GToken { top: self.top as int, left: self.left as int, width: self.width as int, text: self.text@ }
    }
}

/// The models of a token vector.
pub open spec fn tokens_view(rows: Seq<OcrToken>) -> Seq<GToken> {
    rows.map_values(|t: OcrToken| t@)
}

/// The calibration value one consecutive token pair contributes: the
/// following token's left edge minus the earlier token's left edge and
/// character count, counted only when the pair shows a horizontal gap and
/// the value is positive.
pub open spec fn gap_candidate(a: GToken, b: GToken) -> Option<int> {
    if b.left > a.left + a.width && b.left > a.left + a.text.len() {
        Option::Some(b.left - a.left - a.text.len())
    } else {
        Option::None
    }
}

/// The smaller of two optional values; an absent value never wins.
pub open spec fn option_min(a: Option<int>, b: Option<int>) -> Option<int> {
    match a {
        Option::None => b,
        Option::Some(x) => match b {
            Option::None => Option::Some(x),
            Option::Some(y) => Option::Some(if x <= y { x } else { y }),
        },
    }
}

/// The smallest calibration value over all consecutive token pairs.
pub open spec fn min_gap(rows: Seq<GToken>) -> Option<int>
    decreases rows.len(),
{
    if rows.len() < 2 {
        Option::None
    } else {
        option_min(gap_candidate(rows[0], rows[1]), min_gap(rows.drop_first()))
    }
}

/// The pixel width of one emitted space, when calibration observed a gap of
/// at least two pixels; otherwise spacing falls back to single spaces.
pub open spec fn space_unit(rows: Seq<GToken>) -> Option<int> {
    match min_gap(rows) {
        Option::None => Option::None,
        Option::Some(g) => Option::Some(
            if g >= 2 {
                g - 1
            } else {
                1
            },
        ),
    }
}

/// The rendering cursor: the previous token's vertical offset, the visual
/// horizontal cursor (pixels the page shows), and the accumulated horizontal
/// cursor (pixels the emitted spaces and characters account for).
pub ghost struct LayoutState {
    pub top: int,
    pub vis: int,
    pub acc: int,
}

/// A token both to the left of the visual cursor and below the previous
/// token wraps to a new line.
pub open spec fn newline_here(st: LayoutState, t: GToken) -> bool {
    st.vis > t.left && t.top > st.top
}

pub open spec fn after_newline(st: LayoutState, t: GToken) -> LayoutState {
    if newline_here(st, t) {
        LayoutState { top: st.top, vis: 0, acc: 0 }
    } else {
        st
    }
}

pub open spec fn pos_gap(left: int, cursor: int) -> int {
    if left > cursor {
        left - cursor
    } else {
        0
    }
}

/// How many spaces a cursor position asks for before a token: at least one,
/// else the gap divided by the space unit.
pub open spec fn space_count(unit: Option<int>, cursor: int, left: int) -> int {
    match unit {
        Option::None => 1,
        Option::Some(u) => {
            let q = pos_gap(left, cursor) / u;
            if q > 1 {
                q
            } else {
                1
            }
        },
    }
}

/// The spaces emitted before a token: the visual-cursor count, unless both
/// counts are large and the accumulated cursor trails the visual one, in
/// which case the accumulated-cursor count corrects the drift.
pub open spec fn chosen_spaces(unit: Option<int>, st: LayoutState, t: GToken) -> int {
    let sv = space_count(unit, st.vis, t.left);
    let sa = space_count(unit, st.acc, t.left);
    if sv > 2 && sa > 4 && st.acc < st.vis {
        sa
    } else {
        sv
    }
}

pub open spec fn sat_u64(x: int) -> int {
    if x > u64::MAX as int {
        u64::MAX as int
    } else {
        x
    }
}

/// The cursor after emitting one token that follows an earlier token.
pub open spec fn step_state(unit: Option<int>, st: LayoutState, t: GToken) -> LayoutState {
    let st1 = after_newline(st, t);
    let sp = chosen_spaces(unit, st1, t);
    LayoutState {
        top: t.top,
        vis: t.left + t.width,
        acc: match unit {
            Option::None => 0,
            Option::Some(u) => sat_u64(st1.acc + sp * u + t.text.len() * u),
        },
    }
}

pub open spec fn spaces_seq(n: int) -> Seq<char> {
    Seq::new(
        if n >= 0 {
            n as nat
        } else {
            0
        },
        |i: int| ' ',
    )
}

/// The characters emitted for one token that follows an earlier token: a
/// line break when the token wraps, the chosen run of spaces, then the text.
pub open spec fn step_out(unit: Option<int>, st: LayoutState, t: GToken) -> Seq<char> {
    let st1 = after_newline(st, t);
    let nl: Seq<char> = if newline_here(st, t) {
        seq!['\n']
    } else {
        Seq::empty()
    };
    nl + spaces_seq(chosen_spaces(unit, st1, t)) + t.text
}

/// The characters emitted for every token after the first, walking the
/// cursor forward.
pub open spec fn render_rest(unit: Option<int>, st: LayoutState, rows: Seq<GToken>) -> Seq<char>
    decreases rows.len(),
{
    if rows.len() == 0 {
        Seq::empty()
    } else {
        step_out(unit, st, rows[0]) + render_rest(unit, step_state(unit, st, rows[0]), rows.drop_first())
    }
}

/// The cursor after the first token: its text is emitted with no leading
/// spaces.
pub open spec fn init_state(unit: Option<int>, t: GToken) -> LayoutState {
    LayoutState {
        top: t.top,
        vis: t.left + t.width,
        acc: match unit {
            Option::None => 0,
            Option::Some(u) => sat_u64(t.text.len() * u),
        },
    }
}

/// The reconstructed text of a token region: empty for no tokens, otherwise
/// the first token's text followed by the rendering of the rest.
pub open spec fn layout_text(rows: Seq<GToken>) -> Seq<char> {
    if rows.len() == 0 {
        Seq::empty()
    } else {
        rows[0].text + render_rest(space_unit(rows), init_state(space_unit(rows), rows[0]), rows.drop_first())
    }
}

/// Reconstruction is a function of the token sequence alone: running it
/// again on the same tokens yields identical output.
pub proof fn lemma_layout_repeatable(rows1: Seq<GToken>, rows2: Seq<GToken>)
    requires
        rows1 == rows2,
    ensures
        layout_text(rows1) == layout_text(rows2),
{
}

/// A single-token region reconstructs to exactly that token's text, with no
/// leading spaces and no line break.
pub proof fn lemma_layout_single_token(rows: Seq<GToken>)
    requires
        rows.len() == 1,
    ensures
        layout_text(rows) == rows[0].text,
{
    assert(rows.drop_first() =~= Seq::<GToken>::empty());
    assert(render_rest(space_unit(rows), init_state(space_unit(rows), rows[0]), Seq::<GToken>::empty())
        == Seq::<char>::empty());
    assert(rows[0].text + Seq::<char>::empty() =~= rows[0].text);
}

proof fn lemma_option_min_assoc(a: Option<int>, b: Option<int>, c: Option<int>)
    ensures
        option_min(a, option_min(b, c)) == option_min(option_min(a, b), c),
{
}

/// The spec-level value of an optional unit held in a machine word.
pub open spec fn unit_view(u: Option<u32>) -> Option<int> {
    match u {
        Option::None => Option::None,
        Option::Some(x) => Option::Some(x as int),
    }
}

/// Find the smallest calibration gap over consecutive token pairs.
fn calibrate(rows: &Vec<OcrToken>) -> (r: Option<u32>)
    ensures
        unit_view(r) == min_gap(tokens_view(rows@)),
{
    let ghost gview = tokens_view(rows@);
    let mut cur: Option<u32> = None;
    if rows.len() < 2 {
        proof {
            assert(min_gap(gview) == Option::<int>::None);
        }
        return cur;
    }
    let mut i: usize = 0;
    proof {
        assert(gview.skip(0) =~= gview);
    }
    while i < rows.len() - 1
        invariant
            i <= rows@.len() - 1,
            rows@.len() >= 2,
            gview == tokens_view(rows@),
            gview.len() == rows@.len(),
            min_gap(gview) == option_min(unit_view(cur), min_gap(gview.skip(i as int))),
        decreases rows@.len() - i,
    {
        let ghost rest = gview.skip(i as int);
        proof {
            assert(rest[0] == gview[i as int]);
            assert(rest[1] == gview[i + 1]);
            assert(rest.drop_first() =~= gview.skip(i + 1));
            assert(min_gap(rest) == option_min(gap_candidate(gview[i as int], gview[i + 1]), min_gap(gview.skip(i + 1))));
            lemma_option_min_assoc(
                unit_view(cur),
                gap_candidate(gview[i as int], gview[i + 1]),
                min_gap(gview.skip(i + 1)),
            );
        }
        let a = &rows[i];
        let b = &rows[i + 1];
        let al: u128 = a.left as u128;
        let bl: u128 = b.left as u128;
        let aw: u128 = a.width as u128;
        let achars: u128 = a.text.len() as u128;
        if bl > al + aw && bl > al + achars {
            let cand128: u128 = bl - al - achars;
            proof {
                assert(cand128 <= u32::MAX);
            }
            let cand: u32 = cand128 as u32;
            proof {
                assert(gap_candidate(gview[i as int], gview[i + 1]) == Option::Some(cand as int));
            }
            cur = match cur {
                None => Some(cand),
                Some(c) => if c <= cand {
                    Some(c)
                } else {
                    Some(cand)
                },
            };
        } else {
            proof {
                assert(gap_candidate(gview[i as int], gview[i + 1]) == Option::<int>::None);
            }
        }
        i = i + 1;
    }
    proof {
        assert(gview.skip(gview.len() - 1).len() < 2);
        assert(min_gap(gview.skip(gview.len() - 1)) == Option::<int>::None);
    }
    cur
}

fn mul_word(a: u64, b: u32) -> (r: u128)
    ensures
        r as int == a as int * b as int,
        r <= 0xffff_ffff_ffff_ffffu128 * 0xffff_ffffu128,
{
    let a128: u128 = a as u128;
    let b128: u128 = b as u128;
    proof {
        assert(a128 * b128 <= 0xffff_ffff_ffff_ffffu128 * 0xffff_ffffu128) by (nonlinear_arith)
            requires
                a128 <= 0xffff_ffff_ffff_ffffu128,
                b128 <= 0xffff_ffffu128,
        ;
    }
    a128 * b128
}

fn push_spaces(out: &mut Vec<char>, sp: u64)
    ensures
        final(out)@ == old(out)@ + spaces_seq(sp as int),
{
    let mut k: u64 = 0;
    proof {
        assert(spaces_seq(0) =~= Seq::<char>::empty());
        assert(out@ + spaces_seq(0) =~= out@);
    }
    while k < sp
        invariant
            k <= sp,
            out@ == old(out)@ + spaces_seq(k as int),
        decreases sp - k,
    {
        out.push(' ');
        k = k + 1;
        proof {
            assert(spaces_seq(k as int) =~= spaces_seq(k - 1).push(' '));
            assert(old(out)@ + spaces_seq(k - 1).push(' ') =~= (old(out)@ + spaces_seq(k - 1)).push(' '));
        }
    }
}

/// Emit one token that follows an earlier token, returning the new cursor
/// as (top, visual, accumulated).
fn emit_token(out: &mut Vec<char>, unit: Option<u32>, top: u32, vis: u64, acc: u64, t: &OcrToken) -> (r: (
    u32,
    u64,
    u64,
))
    requires
        (match unit {
            Option::Some(u) => u >= 1,
            Option::None => true,
        }),
    ensures
        ({
            let st = LayoutState { top: top as int, vis: vis as int, acc: acc as int };
            let uv = unit_view(unit);
            &&& final(out)@ == old(out)@ + step_out(uv, st, t@)
            &&& r.0 as int == step_state(uv, st, t@).top
            &&& r.1 as int == step_state(uv, st, t@).vis
            &&& r.2 as int == step_state(uv, st, t@).acc
        }),
{
    let ghost st = LayoutState { top: top as int, vis: vis as int, acc: acc as int };
    let ghost uv = unit_view(unit);
    let nl = vis > t.left as u64 && t.top > top;
    proof {
        assert(nl == newline_here(st, t@));
    }
    if nl {
        out.push('\n');
    }
    let vis1: u64 = if nl {
        0
    } else {
        vis
    };
    let acc1: u64 = if nl {
        0
    } else {
        acc
    };
    let ghost st1 = after_newline(st, t@);
    proof {
        assert(st1.vis == vis1 as int);
        assert(st1.acc == acc1 as int);
    }
    let sp: u64 = match unit {
        None => 1,
        Some(u) => {
            let left64: u64 = t.left as u64;
            let gap_v: u64 = if left64 > vis1 {
                left64 - vis1
            } else {
                0
            };
            let q: u64 = gap_v / (u as u64);
            let sv: u64 = if q > 1 {
                q
            } else {
                1
            };
            let gap_a: u64 = if left64 > acc1 {
                left64 - acc1
            } else {
                0
            };
            let qa: u64 = gap_a / (u as u64);
            let sa: u64 = if qa > 1 {
                qa
            } else {
                1
            };
            proof {
                assert(sv as int == space_count(uv, st1.vis, t@.left));
                assert(sa as int == space_count(uv, st1.acc, t@.left));
            }
            if sv > 2 && sa > 4 && acc1 < vis1 {
                sa
            } else {
                sv
            }
        },
    };
    proof {
        assert(sp as int == chosen_spaces(uv, st1, t@));
    }
    push_spaces(out, sp);
    crate::text::extend_chars(out, &t.text);
    let top2: u32 = t.top;
    let vis2: u64 = t.left as u64 + t.width as u64;
    let acc2: u64 = match unit {
        None => 0,
        Some(u) => {
            let total: u128 = acc1 as u128 + mul_word(sp, u) + mul_word(t.text.len() as u64, u);
            if total > u64::MAX as u128 {
                u64::MAX
            } else {
                total as u64
            }
        },
    };
    proof {
        assert(final(out)@ =~= old(out)@ + step_out(uv, st, t@));
        assert(acc2 as int == step_state(uv, st, t@).acc);
    }
    (top2, vis2, acc2)
}

/// Reconstruct the text of one token region. The output is a function of
/// the token sequence alone.
pub fn render_tokens(rows: &Vec<OcrToken>) -> (out: Vec<char>)
    ensures
        out@ == layout_text(tokens_view(rows@)),
{
    let ghost gview = tokens_view(rows@);
    let mut out: Vec<char> = Vec::new();
    if rows.len() == 0 {
        proof {
            assert(out@ =~= layout_text(gview));
        }
        return out;
    }
    let min_cand = calibrate(rows);
    let sunit: Option<u32> = match min_cand {
        None => None,
        Some(g) => Some(
            if g >= 2 {
                g - 1
            } else {
                1
            },
        ),
    };
    proof {
        assert(unit_view(sunit) == space_unit(gview));
    }
    crate::text::extend_chars(&mut out, &rows[0].text);
    let mut top: u32 = rows[0].top;
    let mut vis: u64 = rows[0].left as u64 + rows[0].width as u64;
    let mut acc: u64 = match sunit {
        None => 0,
        Some(u) => {
            let total: u128 = mul_word(rows[0].text.len() as u64, u);
            if total > u64::MAX as u128 {
                u64::MAX
            } else {
                total as u64
            }
        },
    };
    let mut i: usize = 1;
    proof {
        assert(gview[0] == rows@[0]@);
        assert(gview.skip(1) =~= gview.drop_first());
        assert(top as int == init_state(space_unit(gview), gview[0]).top);
        assert(vis as int == init_state(space_unit(gview), gview[0]).vis);
        assert(acc as int == init_state(space_unit(gview), gview[0]).acc);
        assert(out@ =~= gview[0].text);
    }
    while i < rows.len()
        invariant
            1 <= i <= rows@.len(),
            gview == tokens_view(rows@),
            gview.len() == rows@.len(),
            unit_view(sunit) == space_unit(gview),
            (match sunit {
                Option::Some(u) => u >= 1,
                Option::None => true,
            }),
            layout_text(gview) == out@ + render_rest(
                space_unit(gview),
                LayoutState { top: top as int, vis: vis as int, acc: acc as int },
                gview.skip(i as int),
            ),
        decreases rows@.len() - i,
    {
        let ghost rest = gview.skip(i as int);
        let ghost st = LayoutState { top: top as int, vis: vis as int, acc: acc as int };
        proof {
            assert(rest[0] == gview[i as int]);
            assert(gview[i as int] == rows@[i as int]@);
            assert(rest.drop_first() =~= gview.skip(i + 1));
            assert(render_rest(space_unit(gview), st, rest) == step_out(space_unit(gview), st, rest[0])
                + render_rest(space_unit(gview), step_state(space_unit(gview), st, rest[0]), gview.skip(i + 1)));
        }
        let ghost pre = out@;
        let r = emit_token(&mut out, sunit, top, vis, acc, &rows[i]);
        top = r.0;
        vis = r.1;
        acc = r.2;
        proof {
            assert(pre + step_out(space_unit(gview), st, gview[i as int]) + render_rest(
                space_unit(gview),
                step_state(space_unit(gview), st, gview[i as int]),
                gview.skip(i + 1),
            ) =~= pre + (step_out(space_unit(gview), st, gview[i as int]) + render_rest(
                space_unit(gview),
                step_state(space_unit(gview), st, gview[i as int]),
                gview.skip(i + 1),
            )));
        }
        i = i + 1;
    }
    proof {
        assert(gview.skip(gview.len() as int) =~= Seq::<GToken>::empty());
        assert(out@ + render_rest(
            space_unit(gview),
            LayoutState { top: top as int, vis: vis as int, acc: acc as int },
            Seq::<GToken>::empty(),
        ) =~= out@);
    }
    out
}

} // verus!
