use hexane::chunker::{chunk_document, chunk_text, CHUNK_MAX, CHUNK_MIN};

fn unique_filler(len: usize) -> String {
    // Cycle through letters and digits with a varying stride so no sentence
    // punctuation and no break characters appear anywhere.
    let alphabet: Vec<char> = ('a'..='z').chain('0'..='9').collect();
    let mut s = String::new();
    let mut k: usize = 0;
    while s.len() < len {
        s.push(alphabet[k % alphabet.len()]);
        s.push(alphabet[(k * 7 + 3) % alphabet.len()]);
        k += 1;
    }
    s.truncate(len);
    s
}

#[test]
fn chunk_empty_input_yields_no_chunks() {
    let chunks = chunk_document("");
    assert_eq!(chunks.len(), 0);
}

#[test]
fn chunk_small_input_single_chunk() {
    let chunks = chunk_document("hello world");
    assert_eq!(chunks, vec!["hello world".to_string()]);
}

#[test]
fn chunk_4500_unique_chars_gives_three_chunks() {
    assert_eq!(CHUNK_MIN, 1800);
    assert_eq!(CHUNK_MAX, 2000);
    let text = unique_filler(4500);
    assert_eq!(text.len(), 4500);
    let chunks = chunk_document(&text);
    assert_eq!(chunks.len(), 3);
    assert_eq!(chunks[0].len(), 2000);
    assert_eq!(chunks[1].len(), 2000);
    assert_eq!(chunks[2].len(), 500);
    let joined: String = chunks.concat();
    assert_eq!(joined, text);
}

#[test]
fn chunk_prefers_sentence_boundary() {
    let mut text = unique_filler(1899);
    text.push('.');
    text.push_str(&unique_filler(600));
    let chunks = chunk_document(&text);
    assert_eq!(chunks.len(), 2);
    assert_eq!(chunks[0].len(), 1900);
    assert!(chunks[0].ends_with('.'));
    assert_eq!(chunks[1].len(), 600);
    let joined: String = chunks.concat();
    assert_eq!(joined, text);
}

#[test]
fn chunk_concat_reproduces_input_small_bounds() {
    let text = "abc.def ghij klmno pq";
    let chunks = chunk_text(text, 3, 5);
    let joined: String = chunks.concat();
    assert_eq!(joined, text);
    for (i, c) in chunks.iter().enumerate() {
        assert!(c.len() <= 5);
        assert!(!c.is_empty());
        if i + 1 < chunks.len() {
            assert!(c.len() >= 3);
        }
    }
}

#[test]
fn chunk_boundary_cut_lands_after_break_char() {
    // A break character inside the allowed window moves the cut there.
    let chunks = chunk_text("ab.cdefgh", 2, 5);
    assert_eq!(chunks[0], "ab.");
    let joined: String = chunks.concat();
    assert_eq!(joined, "ab.cdefgh");
}
