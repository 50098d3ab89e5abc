use hexane::query::{
    build_context, drop_stop_words, process_query, validate_query, QueryForm, QueryReference,
    QueryRejection, StopWords, QUERY_MAX_BYTES,
};

#[test]
fn query_drops_stop_words_case_insensitively() {
    let stop = StopWords::from_text("the\nof\na");
    // "The" is kept only if lower-casing were skipped.
    assert_eq!(process_query("The cat sat", &stop), "cat sat");
}

#[test]
fn query_strips_punctuation_after_joining() {
    let stop = StopWords::from_text("the");
    assert_eq!(
        process_query("Where's the \"cat\" (probably) hiding; now?", &stop),
        "Wheres cat probably hiding now"
    );
}

#[test]
fn query_with_no_stop_words_keeps_everything() {
    let stop = StopWords::from_text("");
    assert_eq!(process_query("plain words only", &stop), "plain words only");
}

#[test]
fn drop_stop_words_uses_given_lowered_forms() {
    let stop = StopWords::from_text("the\nan");
    let words = vec!["The".to_string(), "Answer".to_string(), "AN".to_string()];
    let lowered = vec!["the".to_string(), "answer".to_string(), "an".to_string()];
    let kept = drop_stop_words(&words, &lowered, &stop);
    assert_eq!(kept, vec!["Answer".to_string()]);
}

#[test]
fn overlong_query_is_rejected_first() {
    let long = "x".repeat(QUERY_MAX_BYTES + 1);
    assert!(matches!(
        validate_query(&long, true),
        Err(QueryRejection::QueryTooLong)
    ));
    assert!(matches!(
        validate_query(&long, false),
        Err(QueryRejection::QueryTooLong)
    ));
}

#[test]
fn query_without_credit_is_rejected() {
    assert!(matches!(
        validate_query("fine", false),
        Err(QueryRejection::OutOfCredit)
    ));
    assert!(validate_query("fine", true).is_ok());
}

#[test]
fn context_joins_references_with_blank_lines() {
    let refs = vec![
        QueryReference {
            file: "a.txt".to_string(),
            text: "first chunk".to_string(),
        },
        QueryReference {
            file: "b.pdf".to_string(),
            text: "second chunk".to_string(),
        },
    ];
    assert_eq!(
        build_context(&refs),
        "filename: a.txt\nfirst chunk\n\nfilename: b.pdf\nsecond chunk"
    );
}

#[test]
fn context_of_nothing_is_empty() {
    assert_eq!(build_context(&Vec::new()), "");
}

#[test]
fn query_form_carries_fields() {
    let form = QueryForm {
        query: "what is this".to_string(),
        category: "work".to_string(),
    };
    assert_eq!(form.query, "what is this");
    assert_eq!(form.category, "work");
}
