//! The chunker: splits one document's extracted text into ordered,
//! overlap-free, size-bounded chunks for embedding. A window of at most
//! `max` characters is cut at the latest sentence or line break that keeps
//! the chunk at least `min` characters long; when no such break exists the
//! cut is hard at `max`. The final chunk holds whatever remains and may be
//! shorter than `min`. Concatenating the chunks reproduces the input exactly.

use vstd::prelude::*;

use crate::text::chars_of;
use crate::text::string_of;

verus! {

/// Smallest chunk size a document chunk aims for, in characters: about one
/// embedding-model context budget of English prose.
pub const CHUNK_MIN: usize = 1800;

/// Largest chunk size a document chunk may have, in characters.
pub const CHUNK_MAX: usize = 2000;

/// Characters treated as sentence or paragraph boundaries.
pub open spec fn is_break_char(c: char) -> bool {
    c == '.' || c == '!' || c == '?' || c == '\n'
}

/// The largest position `b` with `min <= b <= hi` whose preceding character
/// is a break character, or 0 when there is none.
pub open spec fn last_break_in(s: Seq<char>, min: int, hi: int) -> int
    decreases hi,
{
    if hi < min || hi <= 0 {
        0
    } else if is_break_char(s[hi - 1]) {
        hi
    } else {
        last_break_in(s, min, hi - 1)
    }
}

/// Where the next chunk ends: the latest break position within the allowed
/// window, or `max` when the window holds no break.
pub open spec fn cut_at(s: Seq<char>, min: int, max: int) -> int {
    let b = last_break_in(s, min, max);
    if min <= b <= max {
        b
    } else {
        max
    }
}

/// The chunks of `s`: empty input gives no chunks, input within `max` gives
/// one chunk, longer input is cut at `cut_at` and chunked on.
pub open spec fn chunk_spec(s: Seq<char>, min: int, max: int) -> Seq<Seq<char>>
    decreases s.len(),
        when 1 <= min <= max
{
    if s.len() == 0 {
        Seq::empty()
    } else if s.len() <= max {
        seq![s]
    } else {
        let c = cut_at(s, min, max);
        seq![s.take(c)] + chunk_spec(s.skip(c), min, max)
    }
}

/// All the chunks in order, concatenated with no separator.
pub open spec fn concat_seqs(parts: Seq<Seq<char>>) -> Seq<char>
    decreases parts.len(),
{
    if parts.len() == 0 {
        Seq::empty()
    } else {
        parts[0] + concat_seqs(parts.drop_first())
    }
}

proof fn lemma_last_break_bounds(s: Seq<char>, min: int, hi: int)
    ensures
        last_break_in(s, min, hi) == 0 || min <= last_break_in(s, min, hi) <= hi,
    decreases hi,
{
    if !(hi < min || hi <= 0) && !is_break_char(s[hi - 1]) {
        lemma_last_break_bounds(s, min, hi - 1);
    }
}

/// The chunks, concatenated in order with nothing between them, reproduce the
/// input text: no character is skipped or duplicated across chunk boundaries.
pub proof fn lemma_chunk_concat(s: Seq<char>, min: int, max: int)
    requires
        1 <= min <= max,
    ensures
        concat_seqs(chunk_spec(s, min, max)) == s,
    decreases s.len(),
{
    let chunks = chunk_spec(s, min, max);
    if s.len() == 0 {
        assert(concat_seqs(chunks) =~= s);
    } else if s.len() <= max {
        assert(chunks[0] == s);
        assert(chunks.drop_first() =~~= Seq::<Seq<char>>::empty());
        assert(concat_seqs(Seq::<Seq<char>>::empty()) == Seq::<char>::empty());
        assert(concat_seqs(chunks) =~= s);
    } else {
        let c = cut_at(s, min, max);
        lemma_chunk_concat(s.skip(c), min, max);
        assert(chunks[0] == s.take(c));
        assert(chunks.drop_first() =~~= chunk_spec(s.skip(c), min, max));
        assert(concat_seqs(chunks) =~= s.take(c) + s.skip(c));
        assert(s.take(c) + s.skip(c) =~= s);
    }
}

/// Every chunk but the last holds between `min` and `max` characters; the
/// last chunk is never empty and never longer than `max`.
pub proof fn lemma_chunk_bounds(s: Seq<char>, min: int, max: int)
    requires
        1 <= min <= max,
    ensures
        forall|i: int|
            0 <= i < chunk_spec(s, min, max).len() - 1 ==> min <= #[trigger] chunk_spec(
                s,
                min,
                max,
            )[i].len() <= max,
        chunk_spec(s, min, max).len() > 0 ==> 1 <= chunk_spec(s, min, max).last().len() <= max,
    decreases s.len(),
{
    let chunks = chunk_spec(s, min, max);
    if s.len() == 0 {
    } else if s.len() <= max {
    } else {
        let c = cut_at(s, min, max);
        lemma_chunk_bounds(s.skip(c), min, max);
        let rest = chunk_spec(s.skip(c), min, max);
        assert(rest.len() > 0);
        assert(chunks.last() == rest.last());
        assert forall|i: int| 0 <= i < chunks.len() - 1 implies min <= #[trigger] chunks[i].len()
            <= max by {
            if i > 0 {
                assert(chunks[i] == rest[i - 1]);
            }
        }
    }
}

fn subvec(v: &Vec<char>, from: usize, to: usize) -> (r: Vec<char>)
    requires
        from <= to <= v@.len(),
    ensures
        r@ == v@.subrange(from as int, to as int),
{
    let mut r: Vec<char> = Vec::new();
    let mut i: usize = from;
    while i < to
        invariant
            from <= i <= to <= v@.len(),
            r@ == v@.subrange(from as int, i as int),
        decreases to - i,
    {
        r.push(v[i]);
        proof {
            assert(v@.subrange(from as int, i + 1) =~= v@.subrange(from as int, i as int).push(
                v@[i as int],
            ));
        }
        i = i + 1;
    }
    r
}

fn break_char(c: char) -> (r: bool)
    ensures
        r == is_break_char(c),
{
    c == '.' || c == '!' || c == '?' || c == '\n'
}

/// Find where the chunk starting at `p` ends, as an offset from `p`.
fn find_cut(text: &Vec<char>, p: usize, min: usize, max: usize) -> (cut: usize)
    requires
        1 <= min <= max,
        p + max < text@.len(),
    ensures
        cut == cut_at(text@.skip(p as int), min as int, max as int),
        min <= cut <= max,
{
    let ghost s = text@.skip(p as int);
    let mut b: usize = max;
    let mut found: bool = false;
    let mut cut: usize = max;
    while b >= min
        invariant_except_break
            min - 1 <= b <= max,
            !found,
            cut == max,
            p + max < text@.len(),
            1 <= min <= max,
            s == text@.skip(p as int),
            last_break_in(s, min as int, max as int) == last_break_in(s, min as int, b as int),
        ensures
            found ==> min <= cut <= max && cut == last_break_in(s, min as int, max as int),
            !found ==> last_break_in(s, min as int, max as int) == 0 && cut == max,
            s == text@.skip(p as int),
        decreases b,
    {
        let n = text.len();
        proof {
            assert(p + b < n);
            assert(s[b - 1] == text@[p + b - 1]);
        }
        if break_char(text[p + b - 1]) {
            cut = b;
            found = true;
            break ;
        }
        b = b - 1;
    }
    proof {
        lemma_last_break_bounds(s, min as int, max as int);
    }
    cut
}

/// Split a character sequence into chunks of at most `max` characters,
/// preferring to cut at a sentence or line break that keeps each chunk at
/// least `min` characters long.
pub fn chunk_chars(text: &Vec<char>, min: usize, max: usize) -> (r: Vec<Vec<char>>)
    requires
        1 <= min <= max,
    ensures
        r@.map_values(|v: Vec<char>| v@) == chunk_spec(text@, min as int, max as int),
{
    let ghost m = min as int;
    let ghost mx = max as int;
    let mut out: Vec<Vec<char>> = Vec::new();
    let mut p: usize = 0;
    proof {
        assert(text@.skip(0) =~= text@);
        assert(out@.map_values(|v: Vec<char>| v@) =~~= Seq::<Seq<char>>::empty());
    }
    while p < text.len()
        invariant
            p <= text@.len(),
            1 <= min <= max,
            m == min as int,
            mx == max as int,
            chunk_spec(text@, m, mx) == out@.map_values(|v: Vec<char>| v@) + chunk_spec(
                text@.skip(p as int),
                m,
                mx,
            ),
        decreases text@.len() - p,
    {
        let ghost s = text@.skip(p as int);
        let ghost pre = out@.map_values(|v: Vec<char>| v@);
        if text.len() - p <= max {
            let piece = subvec(text, p, text.len());
            proof {
                assert(piece@ =~= s);
            }
            out.push(piece);
            p = text.len();
            proof {
                assert(chunk_spec(s, m, mx) == seq![s]);
                assert(text@.skip(p as int) =~= Seq::<char>::empty());
                assert(out@.map_values(|v: Vec<char>| v@) =~~= pre.push(s));
                assert(pre.push(s) + chunk_spec(Seq::<char>::empty(), m, mx) =~~= pre + seq![s]);
            }
        } else {
            let cut = find_cut(text, p, min, max);
            let piece = subvec(text, p, p + cut);
            proof {
                assert(piece@ =~= s.take(cut as int));
            }
            out.push(piece);
            p = p + cut;
            proof {
                assert(chunk_spec(s, m, mx) == seq![s.take(cut_at(s, m, mx))] + chunk_spec(
                    s.skip(cut_at(s, m, mx)),
                    m,
                    mx,
                ));
                assert(text@.skip(p as int) =~= s.skip(cut as int));
                assert(out@.map_values(|v: Vec<char>| v@) =~~= pre.push(s.take(cut as int)));
                assert(pre.push(s.take(cut as int)) + chunk_spec(s.skip(cut as int), m, mx) =~~= pre
                    + (seq![s.take(cut as int)] + chunk_spec(s.skip(cut as int), m, mx)));
            }
        }
    }
    proof {
        assert(text@.skip(text@.len() as int) =~= Seq::<char>::empty());
        assert(out@.map_values(|v: Vec<char>| v@) + chunk_spec(Seq::<char>::empty(), m, mx)
            =~~= out@.map_values(|v: Vec<char>| v@));
    }
    out
}

/// Split a document's text into chunks within the given character bounds.
/// An empty document yields an empty chunk sequence.
pub fn chunk_text(text: &str, min: usize, max: usize) -> (r: Vec<String>)
    requires
        1 <= min <= max,
    ensures
        r@.map_values(|t: String| t@) == chunk_spec(text@, min as int, max as int),
{
    let cs = chars_of(text);
    let chunks = chunk_chars(&cs, min, max);
    let mut r: Vec<String> = Vec::new();
    let mut i: usize = 0;
    while i < chunks.len()
        invariant
            i <= chunks@.len(),
            r@.map_values(|t: String| t@) == chunks@.map_values(|v: Vec<char>| v@).take(i as int),
        decreases chunks@.len() - i,
    {
        let ghost pre = r@.map_values(|t: String| t@);
        r.push(string_of(&chunks[i]));
        proof {
            assert(r@.map_values(|t: String| t@) =~~= pre.push(chunks@[i as int]@));
            assert(chunks@.map_values(|v: Vec<char>| v@).take(i + 1) =~~= chunks@.map_values(
                |v: Vec<char>| v@,
            ).take(i as int).push(chunks@[i as int]@));
        }
        i = i + 1;
    }
    proof {
        assert(chunks@.map_values(|v: Vec<char>| v@).take(chunks@.len() as int) =~~= chunks@
            .map_values(|v: Vec<char>| v@));
    }
    r
}

/// Split a document's text into chunks with the configured default bounds.
pub fn chunk_document(text: &str) -> (r: Vec<String>)
    ensures
        r@.map_values(|t: String| t@) == chunk_spec(text@, CHUNK_MIN as int, CHUNK_MAX as int),
{
    chunk_text(text, CHUNK_MIN, CHUNK_MAX)
}

} // verus!
