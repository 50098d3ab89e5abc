//! Per-document PDF text extraction state. The text layer arrives split into
//! pages on the form-feed page-break convention; recovered OCR text for each
//! embedded image is spliced onto the page the image's filename points at;
//! images whose content hash repeats within the document are recognized once
//! and contribute no further text; the finished document joins all pages with
//! single newlines.

use vstd::prelude::*;
use vstd::string::StringExecFns;

use crate::numbers::parse_u32;
use crate::numbers::parse_u32_spec;
use crate::text::chars_of;
use crate::text::join_chars;
use crate::text::lemma_join_push;
use crate::text::split_by;
use crate::text::split_chars;
use crate::text::strings_of;

verus! {

/// OCR runs for an image's content hash exactly when the hash has not been
/// seen yet within the document.
pub open spec fn ocr_decision(seen: Seq<Seq<char>>, hash: Seq<char>) -> bool {
    !seen.contains(hash)
}

/// Once a content hash has been seen, that hash is never OCR'd again in the
/// same document, however many further hashes are seen afterwards: each
/// hash is OCR'd at most once, and a dropped duplicate contributes nothing.
pub proof fn lemma_hash_ocrd_at_most_once(
    seen: Seq<Seq<char>>,
    hash: Seq<char>,
    later: Seq<Seq<char>>,
)
    requires
        seen.push(hash).is_prefix_of(later),
    ensures
        !ocr_decision(later, hash),
{
    assert(later[seen.len() as int] == seen.push(hash)[seen.len() as int]);
    assert(later[seen.len() as int] == hash);
    assert(later.contains(hash));
}

/// The page an image filename points at: the number between the first and
/// second dash, as the image renderer numbers the files it writes.
pub open spec fn page_index_of(name: Seq<char>) -> Option<int> {
    let parts = split_chars(name, '-');
    if parts.len() < 2 {
        Option::None
    } else {
        parse_u32_spec(parts[1])
    }
}

/// Parse the page index out of a rendered image's filename.
pub fn page_index_of_name(name: &str) -> (r: Option<u32>)
    ensures
        (match r {
            Option::Some(v) => page_index_of(name@) == Option::Some(v as int),
            Option::None => page_index_of(name@) is None,
        }),
{
    let cs = chars_of(name);
    let parts = split_by(&cs, '-');
    proof {
        assert(parts@.map_values(|v: Vec<char>| v@) == split_chars(name@, '-'));
        assert(parts@.len() == split_chars(name@, '-').len());
    }
    if parts.len() < 2 {
        return None;
    }
    proof {
        assert(split_chars(name@, '-')[1] == parts@[1]@);
    }
    parse_u32(&parts[1])
}

/// The in-progress extraction of one document: its pages' text so far, and
/// the content hashes of the images already recognized.
pub struct PdfExtraction {
    pages: Vec<String>,
    seen: Vec<String>,
}

impl PdfExtraction {
    /// The text of each page, in page order.
    pub closed spec fn pages_view(&self) -> Seq<Seq<char>> {
        self.pages@.map_values(|s: String| s@)
    }

    /// The content hashes recognized so far, in the order they were seen.
    pub closed spec fn seen_view(&self) -> Seq<Seq<char>> {
        self.seen@.map_values(|s: String| s@)
    }

    /// Start extracting one document: the text layer splits into pages on
    /// the form-feed page-break convention, and no image hash is seen yet.
    pub fn begin_document(text_layer: &str) -> (r: PdfExtraction)
        ensures
            r.pages_view() == split_chars(text_layer@, '\u{000C}'),
            r.seen_view() == Seq::<Seq<char>>::empty(),
    {
        let cs = chars_of(text_layer);
        let parts = split_by(&cs, '\u{000C}');
        let pages = strings_of(&parts);
        let r = PdfExtraction { pages, seen: Vec::new() };
        proof {
            assert(r.seen_view() =~~= Seq::<Seq<char>>::empty());
        }
        r
    }

    /// Whether an image with this content hash still needs OCR: true exactly
    /// when the hash was not seen before in this document, and then the hash
    /// is recorded. A duplicate leaves the whole state unchanged, so it
    /// contributes no text.
    pub fn should_ocr(&mut self, hash: &str) -> (r: bool)
        ensures
            r == ocr_decision(old(self).seen_view(), hash@),
            final(self).pages_view() == old(self).pages_view(),
            r ==> final(self).seen_view() == old(self).seen_view().push(hash@),
            !r ==> final(self).seen_view() == old(self).seen_view(),
    {
        let h = String::from_str(hash);
        let mut i: usize = 0;
        while i < self.seen.len()
            invariant
                i <= self.seen@.len(),
                h@ == hash@,
                *self == *old(self),
                forall|j: int| 0 <= j < i ==> old(self).seen_view()[j] != hash@,
            decreases self.seen@.len() - i,
        {
            if self.seen[i] == h {
                proof {
                    assert(old(self).seen_view()[i as int] == hash@);
                    assert(old(self).seen_view().contains(hash@));
                }
                return false;
            }
            proof {
                assert(old(self).seen_view()[i as int] == self.seen@[i as int]@);
            }
            i = i + 1;
        }
        proof {
            assert(forall|j: int|
                0 <= j < old(self).seen_view().len() ==> old(self).seen_view()[j] != hash@);
            assert(!old(self).seen_view().contains(hash@));
        }
        self.seen.push(h);
        proof {
            assert(self.seen_view() =~~= old(self).seen_view().push(hash@));
        }
        true
    }

    /// Append recovered OCR text to the page it came from. An index past the
    /// last page (a filename naming a page that does not exist) changes
    /// nothing.
    pub fn splice_page(&mut self, page_index: usize, recovered: &str)
        ensures
            final(self).seen_view() == old(self).seen_view(),
            page_index < old(self).pages_view().len() ==> final(self).pages_view() == old(
                self,
            ).pages_view().update(
                page_index as int,
                old(self).pages_view()[page_index as int] + recovered@,
            ),
            page_index >= old(self).pages_view().len() ==> final(self).pages_view() == old(
                self,
            ).pages_view(),
    {
        if page_index < self.pages.len() {
            let mut page = self.pages.remove(page_index);
            page.append(recovered);
            self.pages.insert(page_index, page);
            proof {
                assert(self.pages_view() =~~= old(self).pages_view().update(
                    page_index as int,
                    old(self).pages_view()[page_index as int] + recovered@,
                ));
            }
        }
    }

    /// The document's full text: every page's text, original text layer plus
    /// spliced OCR text, joined with a single newline between pages.
    pub fn finish(&self) -> (r: String)
        ensures
            r@ == join_chars(self.pages_view(), '\n'),
    {
        let ghost pv = self.pages_view();
        let mut out = String::new();
        let mut i: usize = 0;
        proof {
            assert(pv.take(0) =~~= Seq::<Seq<char>>::empty());
        }
        while i < self.pages.len()
            invariant
                i <= self.pages@.len(),
                pv == self.pages_view(),
                pv.len() == self.pages@.len(),
                out@ == join_chars(pv.take(i as int), '\n'),
            decreases self.pages@.len() - i,
        {
            proof {
                lemma_join_push(pv.take(i as int), '\n', pv[i as int]);
                assert(pv.take(i + 1) =~~= pv.take(i as int).push(pv[i as int]));
            }
            if i > 0 {
                proof {
                    reveal_strlit("\n");
                }
                out.append("\n");
                proof {
                    assert("\n"@ =~= seq!['\n']);
                }
            }
            out.append(self.pages[i].as_str());
            proof {
                assert(pv[i as int] == self.pages@[i as int]@);
                if i > 0 {
                    assert(out@ =~= join_chars(pv.take(i as int), '\n') + seq!['\n']
                        + pv[i as int]);
                } else {
                    assert(out@ =~= pv[i as int]);
                }
            }
            i = i + 1;
        }
        proof {
            assert(pv.take(pv.len() as int) =~~= pv);
        }
        out
    }
}

/// A document none of whose images contributed recovered text finishes as
/// exactly its text layer, with each form-feed page break shown as the
/// single newline that joins pages.
pub proof fn lemma_text_layer_round_trip(text_layer: Seq<char>)
    ensures
        join_chars(split_chars(text_layer, '\u{000C}'), '\n') == text_layer.map_values(
            |c: char|
                if c == '\u{000C}' {
                    '\n'
                } else {
                    c
                },
        ),
{
    crate::text::lemma_join_split_replace(text_layer, '\u{000C}', '\n');
}

} // verus!
