use hexane::text::{join_by, split_by};

fn chars(s: &str) -> Vec<char> {
    s.chars().collect()
}

#[test]
fn split_keeps_empty_segments() {
    let parts = split_by(&chars("a,b,,c"), ',');
    let strings: Vec<String> = parts.iter().map(|p| p.iter().collect()).collect();
    assert_eq!(strings, vec!["a", "b", "", "c"]);
}

#[test]
fn split_of_empty_is_one_empty_segment() {
    let parts = split_by(&chars(""), '\n');
    assert_eq!(parts.len(), 1);
    assert!(parts[0].is_empty());
}

#[test]
fn trailing_separator_opens_empty_segment() {
    let parts = split_by(&chars("a\nb\n"), '\n');
    let strings: Vec<String> = parts.iter().map(|p| p.iter().collect()).collect();
    assert_eq!(strings, vec!["a", "b", ""]);
}

#[test]
fn join_undoes_split() {
    let original = chars("first\nsecond\n\nfourth");
    let joined = join_by(&split_by(&original, '\n'), '\n');
    assert_eq!(joined, original);
}
