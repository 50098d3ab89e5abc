//! Character-level text utilities: splitting on a separator and joining with
//! one. The extractor splits pages on form feeds, the layout reconstructor
//! splits tab-separated rows, and query processing splits on spaces.

use vstd::prelude::*;

verus! {

/// Relies on str::chars: it yields exactly the characters of the string's view.
#[verifier::external_body]
pub(crate) fn chars_of(s: &str) -> (r: Vec<char>)
    ensures
        r@ == s@,
{
    s.chars().collect()
}

/// Relies on String implementing FromIterator<char>: collecting characters
/// builds the string whose view is exactly that character sequence.
#[verifier::external_body]
pub(crate) fn string_of(chars: &Vec<char>) -> (r: String)
    ensures
        r@ == chars@,
{
    chars.iter().collect()
}

/// The lower-case form of a character sequence. What Unicode lower-casing
/// does is the standard library's business; the name only fixes that equal
/// inputs give equal results.
pub uninterp spec fn lower_of(s: Seq<char>) -> Seq<char>;

/// Relies on str::to_lowercase: the result depends on the characters alone,
/// and an empty string stays empty.
#[verifier::external_body]
pub(crate) fn lowercase(s: &str) -> (r: String)
    ensures
        r@ == lower_of(s@),
        s@.len() == 0 ==> r@.len() == 0,
{
    s.to_lowercase()
}

/// Whether two character vectors hold the same characters.
pub fn eq_chars(a: &Vec<char>, b: &Vec<char>) -> (r: bool)
    ensures
        r == (a@ == b@),
{
    if a.len() != b.len() {
        proof {
            assert(a@ != b@);
        }
        return false;
    }
    let mut i: usize = 0;
    while i < a.len()
        invariant
            a@.len() == b@.len(),
            i <= a@.len(),
            forall|j: int| 0 <= j < i ==> a@[j] == b@[j],
        decreases a@.len() - i,
    {
        if a[i] != b[i] {
            proof {
                assert(a@[i as int] != b@[i as int]);
            }
            return false;
        }
        i = i + 1;
    }
    proof {
        assert(a@ =~= b@);
    }
    true
}

/// The segments of `s` between occurrences of `sep`: always at least one
/// segment, one more segment per separator, separators not kept.
pub open spec fn split_chars(s: Seq<char>, sep: char) -> Seq<Seq<char>>
    decreases s.len(),
{
    if s.len() == 0 {
        seq![Seq::<char>::empty()]
    } else if s[0] == sep {
        seq![Seq::<char>::empty()] + split_chars(s.drop_first(), sep)
    } else {
        let rest = split_chars(s.drop_first(), sep);
        seq![seq![s[0]] + rest[0]] + rest.drop_first()
    }
}

/// The segments joined back together with `sep` between them.
pub open spec fn join_chars(parts: Seq<Seq<char>>, sep: char) -> Seq<char>
    decreases parts.len(),
{
    if parts.len() == 0 {
        Seq::empty()
    } else if parts.len() == 1 {
        parts[0]
    } else {
        parts[0] + seq![sep] + join_chars(parts.drop_first(), sep)
    }
}

/// Splitting always yields at least one segment.
pub proof fn lemma_split_len(s: Seq<char>, sep: char)
    ensures
        split_chars(s, sep).len() >= 1,
    decreases s.len(),
{
    if s.len() > 0 {
        lemma_split_len(s.drop_first(), sep);
    }
}

/// Appending one character extends the last segment, or opens a fresh empty
/// segment when the character is the separator.
pub proof fn lemma_split_push(s: Seq<char>, sep: char, c: char)
    ensures
        c == sep ==> split_chars(s.push(c), sep) == split_chars(s, sep).push(
            Seq::<char>::empty(),
        ),
        c != sep ==> split_chars(s.push(c), sep) == split_chars(s, sep).update(
            split_chars(s, sep).len() - 1,
            split_chars(s, sep).last().push(c),
        ),
    decreases s.len(),
{
    lemma_split_len(s, sep);
    if s.len() == 0 {
        assert(s.push(c)[0] == c);
        assert(s.push(c).drop_first() =~= Seq::<char>::empty());
        assert(split_chars(Seq::<char>::empty(), sep) == seq![Seq::<char>::empty()]);
        if c == sep {
            assert(split_chars(s.push(c), sep) =~~= split_chars(s, sep).push(
                Seq::<char>::empty(),
            ));
        } else {
            assert(split_chars(s.push(c), sep) =~~= split_chars(s, sep).update(
                0,
                split_chars(s, sep).last().push(c),
            ));
        }
    } else {
        let t = s.drop_first();
        lemma_split_len(t, sep);
        lemma_split_push(t, sep, c);
        assert(s.push(c).drop_first() =~= t.push(c));
        assert(s.push(c)[0] == s[0]);
        let base = split_chars(s, sep);
        let brest = split_chars(t, sep);
        if c == sep {
            if s[0] == sep {
                assert(split_chars(s.push(c), sep) =~~= base.push(Seq::<char>::empty()));
            } else {
                assert(brest.push(Seq::<char>::empty())[0] == brest[0]);
                assert(brest.push(Seq::<char>::empty()).drop_first() =~~= brest.drop_first().push(
                    Seq::<char>::empty(),
                ));
                assert(split_chars(s.push(c), sep) =~~= base.push(Seq::<char>::empty()));
            }
        } else {
            if s[0] == sep {
                assert(split_chars(s.push(c), sep) =~~= base.update(
                    base.len() - 1,
                    base.last().push(c),
                ));
            } else {
                let bup = brest.update(brest.len() - 1, brest.last().push(c));
                assert(split_chars(s.push(c), sep) == seq![seq![s[0]] + bup[0]]
                    + bup.drop_first());
                if brest.len() == 1 {
                    assert(bup[0] == brest[0].push(c));
                    assert(split_chars(s.push(c), sep) =~~= base.update(
                        base.len() - 1,
                        base.last().push(c),
                    ));
                } else {
                    assert(bup[0] == brest[0]);
                    assert(bup.drop_first() =~~= brest.drop_first().update(
                        brest.len() - 2,
                        brest.last().push(c),
                    ));
                    assert(base.last() == brest.last());
                    assert(split_chars(s.push(c), sep) =~~= base.update(
                        base.len() - 1,
                        base.last().push(c),
                    ));
                }
            }
        }
    }
}

/// Appending one more segment appends a separator and that segment, unless it
/// is the first segment.
pub proof fn lemma_join_push(parts: Seq<Seq<char>>, sep: char, p: Seq<char>)
    ensures
        parts.len() == 0 ==> join_chars(parts.push(p), sep) == p,
        parts.len() > 0 ==> join_chars(parts.push(p), sep) == join_chars(parts, sep)
            + seq![sep] + p,
    decreases parts.len(),
{
    if parts.len() == 0 {
        assert(join_chars(parts.push(p), sep) =~= p);
    } else if parts.len() == 1 {
        assert(parts.push(p)[0] == parts[0]);
        assert(parts.push(p).drop_first() =~~= seq![p]);
        assert(join_chars(seq![p], sep) == p);
        assert(join_chars(parts.push(p), sep) =~= parts[0] + seq![sep] + p);
    } else {
        lemma_join_push(parts.drop_first(), sep, p);
        assert(parts.push(p).drop_first() =~~= parts.drop_first().push(p));
        assert(join_chars(parts.push(p), sep) =~= join_chars(parts, sep) + seq![sep] + p);
    }
}

/// Split `s` into the segments between occurrences of `sep`.
pub fn split_by(s: &Vec<char>, sep: char) -> (r: Vec<Vec<char>>)
    ensures
        r@.map_values(|v: Vec<char>| v@) == split_chars(s@, sep),
        r@.len() >= 1,
{
    let mut done: Vec<Vec<char>> = Vec::new();
    let mut cur: Vec<char> = Vec::new();
    let mut i: usize = 0;
    proof {
        assert(s@.take(0) =~= Seq::<char>::empty());
        assert(done@.map_values(|v: Vec<char>| v@).push(cur@) =~~= split_chars(
            s@.take(0),
            sep,
        ));
    }
    while i < s.len()
        invariant
            i <= s.len(),
            done@.map_values(|v: Vec<char>| v@).push(cur@) == split_chars(s@.take(i as int), sep),
        decreases s.len() - i,
    {
        let c = s[i];
        proof {
            assert(s@.take(i + 1) =~= s@.take(i as int).push(s@[i as int]));
            lemma_split_push(s@.take(i as int), sep, c);
            lemma_split_len(s@.take(i as int), sep);
        }
        if c == sep {
            let ghost pre = done@.map_values(|v: Vec<char>| v@).push(cur@);
            done.push(cur);
            cur = Vec::new();
            proof {
                assert(done@.map_values(|v: Vec<char>| v@).push(cur@) =~~= pre.push(
                    Seq::<char>::empty(),
                ));
            }
        } else {
            let ghost pre = done@.map_values(|v: Vec<char>| v@).push(cur@);
            cur.push(c);
            proof {
                assert(done@.map_values(|v: Vec<char>| v@).push(cur@) =~~= pre.update(
                    pre.len() - 1,
                    pre.last().push(c),
                ));
            }
        }
        i = i + 1;
    }
    proof {
        assert(s@.take(s@.len() as int) =~= s@);
    }
    let ghost pre = done@.map_values(|v: Vec<char>| v@).push(cur@);
    done.push(cur);
    proof {
        assert(done@.map_values(|v: Vec<char>| v@) =~~= pre);
    }
    done
}

/// Append all of `src` to `out`.
pub fn extend_chars(out: &mut Vec<char>, src: &Vec<char>)
    ensures
        final(out)@ == old(out)@ + src@,
{
    let mut i: usize = 0;
    while i < src.len()
        invariant
            i <= src.len(),
            out@ == old(out)@ + src@.take(i as int),
        decreases src.len() - i,
    {
        out.push(src[i]);
        proof {
            assert(old(out)@ + src@.take(i + 1) =~= (old(out)@ + src@.take(i as int)).push(
                src@[i as int],
            ));
        }
        i = i + 1;
    }
    proof {
        assert(old(out)@ + src@.take(src@.len() as int) =~= old(out)@ + src@);
    }
}

/// Convert each character segment into a string.
pub fn strings_of(parts: &Vec<Vec<char>>) -> (r: Vec<String>)
    ensures
        r@.map_values(|s: String| s@) == parts@.map_values(|v: Vec<char>| v@),
{
    let mut r: Vec<String> = Vec::new();
    let mut i: usize = 0;
    while i < parts.len()
        invariant
            i <= parts@.len(),
            r@.map_values(|s: String| s@) == parts@.map_values(|v: Vec<char>| v@).take(i as int),
        decreases parts@.len() - i,
    {
        let ghost pre = r@.map_values(|s: String| s@);
        r.push(string_of(&parts[i]));
        proof {
            assert(r@.map_values(|s: String| s@) =~~= pre.push(parts@[i as int]@));
            assert(parts@.map_values(|v: Vec<char>| v@).take(i + 1) =~~= parts@.map_values(
                |v: Vec<char>| v@,
            ).take(i as int).push(parts@[i as int]@));
        }
        i = i + 1;
    }
    proof {
        assert(parts@.map_values(|v: Vec<char>| v@).take(parts@.len() as int) =~~= parts@
            .map_values(|v: Vec<char>| v@));
    }
    r
}

/// Join the segments with `sep` between consecutive segments.
pub fn join_by(parts: &Vec<Vec<char>>, sep: char) -> (r: Vec<char>)
    ensures
        r@ == join_chars(parts@.map_values(|v: Vec<char>| v@), sep),
{
    let ghost pview = parts@.map_values(|v: Vec<char>| v@);
    let mut out: Vec<char> = Vec::new();
    let mut i: usize = 0;
    proof {
        assert(pview.take(0) =~~= Seq::<Seq<char>>::empty());
    }
    while i < parts.len()
        invariant
            i <= parts.len(),
            pview == parts@.map_values(|v: Vec<char>| v@),
            pview.len() == parts@.len(),
            out@ == join_chars(pview.take(i as int), sep),
        decreases parts.len() - i,
    {
        proof {
            lemma_join_push(pview.take(i as int), sep, pview[i as int]);
            assert(pview.take(i + 1) =~~= pview.take(i as int).push(pview[i as int]));
        }
        if i > 0 {
            out.push(sep);
        }
        extend_chars(&mut out, &parts[i]);
        proof {
            assert(pview[i as int] == parts@[i as int]@);
            if i > 0 {
                assert(out@ =~= join_chars(pview.take(i as int), sep) + seq![sep]
                    + pview[i as int]);
            }
        }
        i = i + 1;
    }
    proof {
        assert(pview.take(pview.len() as int) =~~= pview);
    }
    out
}

/// Joining what splitting produced, with another separator, reproduces the
/// input with each occurrence of the old separator replaced by the new one.
pub proof fn lemma_join_split_replace(s: Seq<char>, a: char, b: char)
    ensures
        join_chars(split_chars(s, a), b) == s.map_values(
            |c: char|
                if c == a {
                    b
                } else {
                    c
                },
        ),
    decreases s.len(),
{
    let m = |c: char|
        if c == a {
            b
        } else {
            c
        };
    if s.len() == 0 {
        assert(s.map_values(m) =~= Seq::<char>::empty());
        assert(join_chars(split_chars(s, a), b) =~= Seq::<char>::empty());
    } else {
        let t = s.drop_first();
        lemma_join_split_replace(t, a, b);
        let r = split_chars(t, a);
        lemma_split_len(t, a);
        if s[0] == a {
            let parts = seq![Seq::<char>::empty()] + r;
            assert(parts[0] =~= Seq::<char>::empty());
            assert(parts.drop_first() =~~= r);
            assert(join_chars(parts, b) =~= seq![b] + join_chars(r, b));
            assert(s.map_values(m) =~= seq![b] + t.map_values(m));
        } else {
            if r.len() == 1 {
                assert(split_chars(s, a) =~~= seq![seq![s[0]] + r[0]]);
                assert(join_chars(split_chars(s, a), b) =~= seq![s[0]] + r[0]);
                assert(join_chars(r, b) == r[0]);
                assert(s.map_values(m) =~= seq![s[0]] + t.map_values(m));
            } else {
                let parts = seq![seq![s[0]] + r[0]] + r.drop_first();
                assert(parts[0] == seq![s[0]] + r[0]);
                assert(parts.drop_first() =~~= r.drop_first());
                assert(join_chars(parts, b) =~= seq![s[0]] + join_chars(r, b));
                assert(s.map_values(m) =~= seq![s[0]] + t.map_values(m));
            }
        }
    }
}

} // verus!
