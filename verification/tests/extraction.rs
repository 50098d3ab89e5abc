use hexane::extract::{page_index_of_name, PdfExtraction};
use hexane::processor::extract_plain_text;

#[test]
fn plain_text_extraction_is_identity() {
    let content = "line one\nline two\u{C}with a page break char kept".to_string();
    let out = extract_plain_text(content.clone());
    assert_eq!(out, content);
}

#[test]
fn pages_split_on_form_feed_and_join_with_newline() {
    let doc = PdfExtraction::begin_document("first page\u{C}second page\u{C}third");
    assert_eq!(doc.finish(), "first page\nsecond page\nthird");
}

#[test]
fn empty_text_layer_is_one_empty_page() {
    let doc = PdfExtraction::begin_document("");
    assert_eq!(doc.finish(), "");
}

#[test]
fn splice_appends_to_named_page() {
    let mut doc = PdfExtraction::begin_document("first\u{C}second");
    doc.splice_page(1, " recovered");
    assert_eq!(doc.finish(), "first\nsecond recovered");
}

#[test]
fn splice_past_last_page_changes_nothing() {
    let mut doc = PdfExtraction::begin_document("only");
    doc.splice_page(7, "lost");
    assert_eq!(doc.finish(), "only");
}

#[test]
fn duplicate_hash_ocrd_at_most_once() {
    let mut doc = PdfExtraction::begin_document("page");
    assert!(doc.should_ocr("aabbcc"));
    assert!(!doc.should_ocr("aabbcc"));
    assert!(doc.should_ocr("ddeeff"));
    assert!(!doc.should_ocr("aabbcc"));
    assert!(!doc.should_ocr("ddeeff"));
}

#[test]
fn duplicate_hash_contributes_no_text() {
    let mut doc = PdfExtraction::begin_document("page");
    assert!(doc.should_ocr("h1"));
    doc.splice_page(0, " once");
    // The second image with the same hash is dropped before OCR, so nothing
    // more is spliced.
    assert!(!doc.should_ocr("h1"));
    assert_eq!(doc.finish(), "page once");
}

#[test]
fn page_index_parsed_from_filename() {
    assert_eq!(page_index_of_name("img-003-000.png"), Some(3));
    assert_eq!(page_index_of_name("img-12-5.ppm"), Some(12));
    assert_eq!(page_index_of_name("noindex"), None);
    assert_eq!(page_index_of_name("img-xy-0.png"), None);
}
