//! Query-side processing: normalizing a user's query before retrieval
//! (stop words dropped, punctuation stripped), gating it before any paid
//! call, and rendering retrieved chunks into the model's context block.

use vstd::prelude::*;
use vstd::string::StringExecFns;
use vstd::string::StringSliceAdditionalSpecFns;

use crate::text::chars_of;
use crate::text::eq_chars;
use crate::text::join_by;
use crate::text::join_chars;
use crate::text::lower_of;
use crate::text::lowercase;
use crate::text::split_by;
use crate::text::split_chars;
use crate::text::string_of;
use crate::text::strings_of;

verus! {

/// The query form: the query text and the chosen category filter.
pub struct QueryForm {
    pub query: String,
    pub category: String,
}

/// The stop words dropped from a query before retrieval.
pub struct StopWords {
    words: Vec<Vec<char>>,
}

impl StopWords {
    /// The stop words, in file order.
    pub closed spec fn words_view(&self) -> Seq<Seq<char>> {
        self.words@.map_values(|v: Vec<char>| v@)
    }

    /// Whether `w` is a stop word.
    pub open spec fn has(&self, w: Seq<char>) -> bool {
        self.words_view().contains(w)
    }

    /// Parse a stop-words file's contents: one word per line.
    pub fn from_text(contents: &str) -> (r: StopWords)
        ensures
            r.words_view() == split_chars(contents@, '\n'),
    {
        let cs = chars_of(contents);
        let words = split_by(&cs, '\n');
        StopWords { words }
    }

    fn contains_chars(&self, w: &Vec<char>) -> (r: bool)
        ensures
            r == self.has(w@),
    {
        let mut i: usize = 0;
        while i < self.words.len()
            invariant
                i <= self.words@.len(),
                forall|j: int| 0 <= j < i ==> self.words_view()[j] != w@,
            decreases self.words@.len() - i,
        {
            if eq_chars(&self.words[i], w) {
                proof {
                    assert(self.words_view()[i as int] == w@);
                    assert(self.words_view().contains(w@));
                }
                return true;
            }
            proof {
                assert(self.words_view()[i as int] == self.words@[i as int]@);
            }
            i = i + 1;
        }
        proof {
            assert(!self.words_view().contains(w@));
        }
        false
    }
}

/// The words kept after dropping stop words, where `lowered[i]` stands for
/// the lower-cased form of `words[i]`.
pub open spec fn kept_by(
    words: Seq<Seq<char>>,
    lowered: Seq<Seq<char>>,
    stop: Seq<Seq<char>>,
) -> Seq<Seq<char>>
    decreases words.len(),
{
    if words.len() == 0 || lowered.len() == 0 {
        Seq::empty()
    } else {
        let rest = kept_by(words.drop_first(), lowered.drop_first(), stop);
        if !stop.contains(lowered[0]) {
            seq![words[0]] + rest
        } else {
            rest
        }
    }
}

/// Keep the words whose lower-cased forms are not stop words; `lowered[i]`
/// is the caller's lower-cased form of `words[i]`.
pub fn drop_stop_words(words: &Vec<String>, lowered: &Vec<String>, stop: &StopWords) -> (r: Vec<
    String,
>)
    requires
        words@.len() == lowered@.len(),
    ensures
        r@.map_values(|s: String| s@) == kept_by(
            words@.map_values(|s: String| s@),
            lowered@.map_values(|s: String| s@),
            stop.words_view(),
        ),
{
    let ghost wv = words@.map_values(|s: String| s@);
    let ghost lv = lowered@.map_values(|s: String| s@);
    let ghost sv = stop.words_view();
    let mut r: Vec<String> = Vec::new();
    let mut i: usize = 0;
    proof {
        assert(wv.skip(0) =~~= wv);
        assert(lv.skip(0) =~~= lv);
        assert(Seq::<Seq<char>>::empty() + kept_by(wv, lv, sv) =~~= kept_by(wv, lv, sv));
    }
    while i < words.len()
        invariant
            i <= words@.len(),
            words@.len() == lowered@.len(),
            wv == words@.map_values(|s: String| s@),
            lv == lowered@.map_values(|s: String| s@),
            sv == stop.words_view(),
            wv.len() == words@.len(),
            lv.len() == lowered@.len(),
            kept_by(wv, lv, sv) == r@.map_values(|s: String| s@) + kept_by(
                wv.skip(i as int),
                lv.skip(i as int),
                sv,
            ),
        decreases words@.len() - i,
    {
        let ghost pre = r@.map_values(|s: String| s@);
        proof {
            assert(wv.skip(i as int)[0] == wv[i as int]);
            assert(lv.skip(i as int)[0] == lv[i as int]);
            assert(wv.skip(i as int).drop_first() =~~= wv.skip(i + 1));
            assert(lv.skip(i as int).drop_first() =~~= lv.skip(i + 1));
            assert(lv[i as int] == lowered@[i as int]@);
            assert(wv[i as int] == words@[i as int]@);
        }
        let lw = chars_of(lowered[i].as_str());
        if !stop.contains_chars(&lw) {
            r.push(words[i].clone());
            proof {
                assert(r@.map_values(|s: String| s@) =~~= pre.push(wv[i as int]));
                assert(pre.push(wv[i as int]) + kept_by(wv.skip(i + 1), lv.skip(i + 1), sv)
                    =~~= pre + (seq![wv[i as int]] + kept_by(wv.skip(i + 1), lv.skip(i + 1), sv)));
            }
        }
        i = i + 1;
    }
    proof {
        assert(wv.skip(wv.len() as int) =~~= Seq::<Seq<char>>::empty());
        assert(lv.skip(lv.len() as int) =~~= Seq::<Seq<char>>::empty());
        assert(r@.map_values(|s: String| s@) + kept_by(
            Seq::<Seq<char>>::empty(),
            Seq::<Seq<char>>::empty(),
            sv,
        ) =~~= r@.map_values(|s: String| s@));
    }
    r
}

/// The punctuation stripped from a processed query.
pub open spec fn is_query_punct(c: char) -> bool {
    c == '(' || c == ')' || c == ',' || c == '"' || c == '.' || c == ';' || c == ':' || c == '\''
        || c == '?'
}

/// The sequence with every stripped punctuation character removed.
pub open spec fn strip_punct(s: Seq<char>) -> Seq<char>
    decreases s.len(),
{
    if s.len() == 0 {
        Seq::empty()
    } else if is_query_punct(s[0]) {
        strip_punct(s.drop_first())
    } else {
        seq![s[0]] + strip_punct(s.drop_first())
    }
}

fn strip_punct_chars(s: &Vec<char>) -> (r: Vec<char>)
    ensures
        r@ == strip_punct(s@),
{
    let mut r: Vec<char> = Vec::new();
    let mut i: usize = 0;
    proof {
        assert(s@.skip(0) =~= s@);
        assert(Seq::<char>::empty() + strip_punct(s@) =~= strip_punct(s@));
    }
    while i < s.len()
        invariant
            i <= s@.len(),
            strip_punct(s@) == r@ + strip_punct(s@.skip(i as int)),
        decreases s@.len() - i,
    {
        proof {
            assert(s@.skip(i as int)[0] == s@[i as int]);
            assert(s@.skip(i as int).drop_first() =~= s@.skip(i + 1));
        }
        let c = s[i];
        let punct = c == '(' || c == ')' || c == ',' || c == '"' || c == '.' || c == ';' || c
            == ':' || c == '\'' || c == '?';
        if !punct {
            let ghost pre = r@;
            r.push(c);
            proof {
                assert(pre.push(c) + strip_punct(s@.skip(i + 1)) =~= pre + (seq![c] + strip_punct(
                    s@.skip(i + 1),
                )));
            }
        }
        i = i + 1;
    }
    proof {
        assert(s@.skip(s@.len() as int) =~= Seq::<char>::empty());
        assert(r@ + strip_punct(Seq::<char>::empty()) =~= r@);
    }
    r
}

/// The lower-cased form of each word.
pub open spec fn lowered_all(words: Seq<Seq<char>>) -> Seq<Seq<char>> {
    words.map_values(|w: Seq<char>| lower_of(w))
}

/// A query as retrieval sees it: split on spaces, stop words dropped
/// (compared lower-cased), the rest joined with single spaces, punctuation
/// stripped.
pub open spec fn processed_query(q: Seq<char>, stop: Seq<Seq<char>>) -> Seq<char> {
    let words = split_chars(q, ' ');
    strip_punct(join_chars(kept_by(words, lowered_all(words), stop), ' '))
}

/// Normalize a user query before retrieval.
pub fn process_query(q: &str, stop_words: &StopWords) -> (r: String)
    ensures
        r@ == processed_query(q@, stop_words.words_view()),
{
    let cs = chars_of(q);
    let words_c = split_by(&cs, ' ');
    let words_s = strings_of(&words_c);
    let ghost wv = split_chars(q@, ' ');
    proof {
        assert(words_s@.map_values(|s: String| s@) == wv);
        assert(words_s@.len() == wv.len());
    }
    let mut lowered: Vec<String> = Vec::new();
    let mut i: usize = 0;
    while i < words_s.len()
        invariant
            i <= words_s@.len(),
            words_s@.map_values(|s: String| s@) == wv,
            words_s@.len() == wv.len(),
            lowered@.len() == i,
            lowered@.map_values(|s: String| s@) == lowered_all(wv).take(i as int),
        decreases words_s@.len() - i,
    {
        let ghost pre = lowered@.map_values(|s: String| s@);
        lowered.push(lowercase(words_s[i].as_str()));
        proof {
            assert(words_s@[i as int]@ == wv[i as int]);
            assert(lowered@.map_values(|s: String| s@) =~~= pre.push(lower_of(wv[i as int])));
            assert(lowered_all(wv).take(i + 1) =~~= lowered_all(wv).take(i as int).push(
                lowered_all(wv)[i as int],
            ));
        }
        i = i + 1;
    }
    proof {
        assert(lowered_all(wv).take(wv.len() as int) =~~= lowered_all(wv));
    }
    let kept = drop_stop_words(&words_s, &lowered, stop_words);
    let mut kept_c: Vec<Vec<char>> = Vec::new();
    let mut i2: usize = 0;
    while i2 < kept.len()
        invariant
            i2 <= kept@.len(),
            kept_c@.len() == i2,
            kept_c@.map_values(|v: Vec<char>| v@) == kept@.map_values(|s: String| s@).take(
                i2 as int,
            ),
        decreases kept@.len() - i2,
    {
        let ghost pre = kept_c@.map_values(|v: Vec<char>| v@);
        kept_c.push(chars_of(kept[i2].as_str()));
        proof {
            assert(kept_c@.map_values(|v: Vec<char>| v@) =~~= pre.push(kept@[i2 as int]@));
            assert(kept@.map_values(|s: String| s@).take(i2 + 1) =~~= kept@.map_values(
                |s: String| s@,
            ).take(i2 as int).push(kept@[i2 as int]@));
        }
        i2 = i2 + 1;
    }
    proof {
        assert(kept@.map_values(|s: String| s@).take(kept@.len() as int) =~~= kept@.map_values(
            |s: String| s@,
        ));
    }
    let joined = join_by(&kept_c, ' ');
    let stripped = strip_punct_chars(&joined);
    string_of(&stripped)
}

/// Longest accepted query, in bytes.
pub const QUERY_MAX_BYTES: usize = 1024;

/// Why a query was rejected before reaching the model.
#[derive(Debug, Clone, Copy, PartialEq, Eq, Structural)]
pub enum QueryRejection {
    /// The query is longer than the accepted bound.
    QueryTooLong,
    /// The account has no credit left.
    OutOfCredit,
}

/// Gate a query before any paid call: a query over the length bound is
/// rejected first, then one from an account without credit.
pub fn validate_query(q: &str, credit_positive: bool) -> (r: Result<(), QueryRejection>)
    ensures
        r is Ok <==> ((q.spec_bytes().len() as usize) <= QUERY_MAX_BYTES && credit_positive),
        r == Err::<(), QueryRejection>(QueryRejection::QueryTooLong) <==> (q.spec_bytes().len()
            as usize) > QUERY_MAX_BYTES,
        r == Err::<(), QueryRejection>(QueryRejection::OutOfCredit) <==> ((q.spec_bytes().len()
            as usize) <= QUERY_MAX_BYTES && !credit_positive),
{
    if q.len() > QUERY_MAX_BYTES {
        Err(QueryRejection::QueryTooLong)
    } else if !credit_positive {
        Err(QueryRejection::OutOfCredit)
    } else {
        Ok(())
    }
}

/// One retrieved chunk: the file it came from and its text.
pub struct QueryReference {
    pub file: String,
    pub text: String,
}

/// One retrieved chunk as the prompt shows it: a filename line, then the
/// chunk's text.
pub open spec fn reference_block(r: QueryReference) -> Seq<char> {
    "filename: "@ + r.file@ + seq!['\n'] + r.text@
}

/// The model's context: every retrieved chunk's block, separated by blank
/// lines, in retrieval order.
pub open spec fn context_of(refs: Seq<QueryReference>) -> Seq<char>
    decreases refs.len(),
{
    if refs.len() == 0 {
        Seq::empty()
    } else if refs.len() == 1 {
        reference_block(refs[0])
    } else {
        reference_block(refs[0]) + seq!['\n', '\n'] + context_of(refs.drop_first())
    }
}

proof fn lemma_context_push(refs: Seq<QueryReference>, x: QueryReference)
    ensures
        refs.len() == 0 ==> context_of(refs.push(x)) == reference_block(x),
        refs.len() > 0 ==> context_of(refs.push(x)) == context_of(refs) + seq!['\n', '\n']
            + reference_block(x),
    decreases refs.len(),
{
    if refs.len() == 0 {
        assert(context_of(refs.push(x)) =~= reference_block(x));
    } else if refs.len() == 1 {
        assert(refs.push(x)[0] == refs[0]);
        assert(refs.push(x).drop_first() =~= seq![x]);
        assert(context_of(seq![x]) == reference_block(x));
        assert(context_of(refs.push(x)) =~= context_of(refs) + seq!['\n', '\n']
            + reference_block(x));
    } else {
        lemma_context_push(refs.drop_first(), x);
        assert(refs.push(x).drop_first() =~= refs.drop_first().push(x));
        assert(context_of(refs.push(x)) =~= context_of(refs) + seq!['\n', '\n']
            + reference_block(x));
    }
}

/// Render the retrieved chunks into the model's context string.
pub fn build_context(refs: &Vec<QueryReference>) -> (r: String)
    ensures
        r@ == context_of(refs@),
{
    let mut out = String::new();
    let mut i: usize = 0;
    proof {
        assert(refs@.take(0) =~= Seq::<QueryReference>::empty());
    }
    while i < refs.len()
        invariant
            i <= refs@.len(),
            out@ == context_of(refs@.take(i as int)),
        decreases refs@.len() - i,
    {
        proof {
            lemma_context_push(refs@.take(i as int), refs@[i as int]);
            assert(refs@.take(i + 1) =~= refs@.take(i as int).push(refs@[i as int]));
            reveal_strlit("\n\n");
            reveal_strlit("filename: ");
            reveal_strlit("\n");
            assert("\n\n"@ =~= seq!['\n', '\n']);
            assert("\n"@ =~= seq!['\n']);
        }
        if i > 0 {
            out.append("\n\n");
        }
        out.append("filename: ");
        out.append(refs[i].file.as_str());
        out.append("\n");
        out.append(refs[i].text.as_str());
        proof {
            assert(out@ =~= context_of(refs@.take(i + 1)));
        }
        i = i + 1;
    }
    proof {
        assert(refs@.take(refs@.len() as int) =~= refs@);
    }
    out
}

} // verus!
